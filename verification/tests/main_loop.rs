use hyprhalo::colors::WinRectPx;
use hyprhalo::control::{
    any_band, border_color_command, border_size_command, capture_failed, capture_gate, configured_size, find_monitor,
    glow_buffer_size, glow_damage, glow_due, output_scale, palette_hash, parse_args, pick_active, pick_client,
    quantize_channels, slot_band, target_changed, target_for, target_step, TargetStep, wallpaper_buffer_size, wallpaper_due, CaptureStep,
    CaptureTick, CliAction, Target, FNV_OFFSET, FNV_PRIME,
};
use hyprhalo::hypr::{MonitorGeom, WinGeom};
use hyprhalo::render::Rect;

fn args(v: &[&str]) -> Vec<String> {
    v.iter().map(|s| s.to_string()).collect()
}

fn run_profile(a: CliAction) -> Option<Option<String>> {
    match a {
        CliAction::Run { profile, toggle: false } => Some(profile),
        _ => None,
    }
}

fn run_toggle(a: CliAction) -> Option<Option<String>> {
    match a {
        CliAction::Run { profile, toggle: true } => Some(profile),
        _ => None,
    }
}

#[test]
fn cli_without_arguments_runs_plainly() {
    assert_eq!(run_profile(parse_args(&args(&[]))), Some(None));
}

#[test]
fn cli_profile_flags() {
    assert_eq!(run_profile(parse_args(&args(&["--profile", "low"]))), Some(Some("low".to_string())));
    assert_eq!(run_profile(parse_args(&args(&["-p", "very-smooth"]))), Some(Some("very-smooth".to_string())));
    // a later profile replaces an earlier one
    assert_eq!(
        run_profile(parse_args(&args(&["-p", "low", "--profile", "normal"]))),
        Some(Some("normal".to_string()))
    );
    // the value is taken as is, even when it looks like a flag
    assert_eq!(run_profile(parse_args(&args(&["-p", "--help"]))), Some(Some("--help".to_string())));
}

#[test]
fn cli_toggle_flag() {
    assert_eq!(run_toggle(parse_args(&args(&["--toggle"]))), Some(None));
    assert_eq!(run_toggle(parse_args(&args(&["-t"]))), Some(None));
    // with a profile, before or after it
    assert_eq!(run_toggle(parse_args(&args(&["--toggle", "-p", "very-smooth"]))), Some(Some("very-smooth".to_string())));
    assert_eq!(run_toggle(parse_args(&args(&["-p", "low", "-t"]))), Some(Some("low".to_string())));
    // repeating it changes nothing
    assert_eq!(run_toggle(parse_args(&args(&["-t", "-t"]))), Some(None));
    // without it, no toggle
    assert_eq!(run_toggle(parse_args(&args(&["-p", "low"]))), None);
}

#[test]
fn cli_help_and_errors() {
    assert!(matches!(parse_args(&args(&["--help"])), CliAction::Help));
    assert!(matches!(parse_args(&args(&["-h", "--bogus"])), CliAction::Help));
    assert!(matches!(parse_args(&args(&["-p", "low", "-h"])), CliAction::Help));
    assert!(matches!(parse_args(&args(&["--profile"])), CliAction::MissingProfileName));
    assert!(matches!(parse_args(&args(&["-p", "low", "-p"])), CliAction::MissingProfileName));
    match parse_args(&args(&["--bogus"])) {
        CliAction::UnknownArgument(a) => assert_eq!(a, "--bogus"),
        _ => panic!("expected an unknown argument"),
    }
    match parse_args(&args(&["-p", "low", "extra"])) {
        CliAction::UnknownArgument(a) => assert_eq!(a, "extra"),
        _ => panic!("expected an unknown argument"),
    }
}

#[test]
fn palette_fingerprints() {
    assert_eq!(palette_hash(&vec![]), FNV_OFFSET);
    assert_eq!(palette_hash(&vec![0]), FNV_OFFSET.wrapping_mul(FNV_PRIME));
    let mut h = FNV_OFFSET;
    for q in [0x102030u32, 0x3f3f3f, 7] {
        h = (h ^ q as u64).wrapping_mul(FNV_PRIME);
    }
    assert_eq!(palette_hash(&vec![0x102030, 0x3f3f3f, 7]), h);
    assert_ne!(palette_hash(&vec![1, 2]), palette_hash(&vec![2, 1]));
}

#[test]
fn quantized_colors() {
    assert_eq!(quantize_channels(255, 255, 255), 0x3f3f3f);
    assert_eq!(quantize_channels(4, 8, 12), 0x010203);
    // drift inside a bucket of four changes nothing
    assert_eq!(quantize_channels(100, 101, 102), quantize_channels(103, 100, 101));
    assert_ne!(quantize_channels(99, 100, 100), quantize_channels(100, 100, 100));
    let a = vec![quantize_channels(12, 40, 200), quantize_channels(0, 0, 0)];
    let b = vec![quantize_channels(15, 43, 203), quantize_channels(3, 1, 2)];
    assert_eq!(palette_hash(&a), palette_hash(&b));
    assert!(!wallpaper_due(true, false, palette_hash(&b), palette_hash(&a)));
}

fn geom(w: i32, h: i32, class: &str, mapped: bool) -> WinGeom {
    WinGeom {
        x: 100,
        y: 50,
        w,
        h,
        monitor: "DP-1".to_string(),
        class: class.to_string(),
        title: String::new(),
        mapped,
        minimized: !mapped,
    }
}

#[test]
fn active_window_needs_the_minimum_size() {
    assert!(pick_active(Some(geom(480, 320, "a", true)), [480, 320]).is_some());
    assert!(pick_active(Some(geom(479, 320, "a", true)), [480, 320]).is_none());
    assert!(pick_active(Some(geom(480, 319, "a", true)), [480, 320]).is_none());
    assert!(pick_active(None, [0, 0]).is_none());
}

#[test]
fn client_of_the_wanted_class() {
    let clients = vec![
        geom(800, 600, "other", true),
        geom(800, 600, "mpv", false),
        geom(100, 100, "mpv", true),
        geom(900, 700, "mpv", true),
        geom(1000, 700, "mpv", true),
    ];
    let g = pick_client(clients, "mpv", [480, 320]).unwrap();
    assert_eq!((g.w, g.h), (900, 700));
    assert!(pick_client(vec![geom(800, 600, "other", true)], "mpv", [480, 320]).is_none());
    assert!(pick_client(vec![], "mpv", [0, 0]).is_none());
}

fn mon(name: &str, id: i32) -> MonitorGeom {
    MonitorGeom { name: name.to_string(), id, x: 1920, y: 0, width: 2560, height: 1440 }
}

#[test]
fn monitor_by_name_or_id() {
    let ms = vec![mon("DP-1", 0), mon("HDMI-A-1", 1), mon("DP-3", -7)];
    assert_eq!(find_monitor(&ms, "HDMI-A-1"), Some(1));
    assert_eq!(find_monitor(&ms, "0"), Some(0));
    assert_eq!(find_monitor(&ms, "-7"), Some(2));
    assert_eq!(find_monitor(&ms, "DP-2"), None);
    assert_eq!(find_monitor(&ms, ""), None);
}

#[test]
fn target_relative_to_its_monitor() {
    let t = target_for(&geom(800, 600, "mpv", true), &MonitorGeom { x: 60, y: 20, ..mon("DP-1", 0) });
    assert_eq!((t.win.x, t.win.y, t.win.w, t.win.h), (40, 30, 800, 600));
    assert_eq!(t.monitor_name, "DP-1");
    assert_eq!((t.mon_w, t.mon_h), (2560, 1440));
    assert_eq!(t.class, "mpv");
}

fn target(x: i32, monitor: &str) -> Target {
    Target {
        win: WinRectPx { x, y: 0, w: 10, h: 10 },
        monitor_name: monitor.to_string(),
        mon_w: 100,
        mon_h: 100,
        class: "a".to_string(),
    }
}

#[test]
fn target_changes() {
    assert!(target_changed(&None, &target(0, "DP-1")));
    assert!(!target_changed(&Some(target(0, "DP-1")), &target(0, "DP-1")));
    assert!(target_changed(&Some(target(0, "DP-1")), &target(1, "DP-1")));
    assert!(target_changed(&Some(target(0, "DP-1")), &target(0, "DP-2")));
    // the class alone is no change
    let mut t = target(0, "DP-1");
    t.class = "b".to_string();
    assert!(!target_changed(&Some(target(0, "DP-1")), &t));
}

#[test]
fn wallpaper_buffer_is_scaled_down_and_rounded_up() {
    assert_eq!(wallpaper_buffer_size(1920, 1080, 1, 2, true), Some((960, 540)));
    assert_eq!(wallpaper_buffer_size(1921, 1081, 1, 2, true), Some((961, 541)));
    assert_eq!(wallpaper_buffer_size(1280, 720, 2, 3, true), Some((854, 480)));
    // without a viewporter the compositor cannot scale it back up
    assert_eq!(wallpaper_buffer_size(1920, 1080, 1, 2, false), Some((1920, 1080)));
    // a scale-down of zero counts as one
    assert_eq!(wallpaper_buffer_size(1920, 1080, 1, 0, true), Some((1920, 1080)));
    assert_eq!(wallpaper_buffer_size(0, 1080, 1, 2, true), None);
    assert_eq!(wallpaper_buffer_size(1920, 1080, 0, 2, true), None);
}

#[test]
fn glow_buffer_covers_the_output() {
    assert_eq!(glow_buffer_size(1280, 720, 2), Some((2560, 1440)));
    assert_eq!(glow_buffer_size(0, 720, 2), None);
    assert_eq!(glow_buffer_size(1280, 0, 2), None);
}

#[test]
fn configure_sizes_and_scales() {
    assert_eq!(configured_size(0, 1920), 1920);
    assert_eq!(configured_size(2560, 1920), 2560);
    assert_eq!(output_scale(None), 1);
    assert_eq!(output_scale(Some(0)), 1);
    assert_eq!(output_scale(Some(-3)), 1);
    assert_eq!(output_scale(Some(2)), 2);
}

#[test]
fn bands_per_buffer_slot() {
    let r = Rect { x0: 1, y0: 2, x1: 3, y1: 4 };
    let mut bands: Vec<Option<Rect>> = Vec::new();
    assert!(!any_band(&bands));
    assert_eq!(slot_band(&mut bands, 1), None);
    assert_eq!(bands.len(), 2);
    bands[1] = Some(r);
    assert!(any_band(&bands));
    assert_eq!(slot_band(&mut bands, 1), Some(r));
    assert_eq!(slot_band(&mut bands, 0), None);
    assert_eq!(bands.len(), 2);
}

#[test]
fn glow_damage_regions() {
    let old = Rect { x0: -10, y0: 5, x1: 20, y1: 30 };
    let new = Rect { x0: 0, y0: 0, x1: 40, y1: 10 };
    // box around old and new, its corner clamped at the origin
    assert_eq!(glow_damage(Some(old), Some(new), 100, 100), Some((0, 0, 50, 30)));
    assert_eq!(glow_damage(None, Some(new), 100, 100), Some((0, 0, 40, 10)));
    // an empty box: nothing to report
    assert_eq!(glow_damage(None, Some(Rect { x0: 5, y0: 5, x1: 5, y1: 9 }), 100, 100), None);
    // halo cleared: the whole buffer
    assert_eq!(glow_damage(Some(old), None, 640, 480), Some((0, 0, 640, 480)));
}

#[test]
fn capture_failures_back_off() {
    assert_eq!(capture_failed(0, 5), (1, false));
    assert_eq!(capture_failed(3, 5), (4, false));
    assert_eq!(capture_failed(4, 5), (0, true));
    assert_eq!(capture_failed(0, 0), (0, true));
}

#[test]
fn repaint_decisions() {
    assert!(wallpaper_due(true, true, 1, 1));
    assert!(wallpaper_due(true, false, 1, 2));
    assert!(!wallpaper_due(true, false, 1, 1));
    assert!(!wallpaper_due(false, true, 1, 2));
    assert!(glow_due(true, false, 1, 2, false));
    assert!(glow_due(true, false, 1, 1, true));
    assert!(!glow_due(true, false, 1, 1, false));
    assert!(glow_due(false, false, 1, 2, true));
    assert!(!glow_due(false, false, 1, 2, false));
    assert!(glow_due(false, true, 1, 1, false));
}

fn tick(step: CaptureStep, need_capture: bool, clear_backoff: bool) -> CaptureTick {
    CaptureTick { step, need_capture, clear_backoff }
}

#[test]
fn capture_ticks() {
    assert_eq!(capture_gate(false, true, None, true, true, false, true), tick(CaptureStep::Disabled, true, false));
    assert_eq!(capture_gate(true, false, None, true, true, false, true), tick(CaptureStep::NoTarget, false, false));
    assert_eq!(capture_gate(true, true, Some(true), true, true, false, false), tick(CaptureStep::BackingOff, true, false));
    assert_eq!(capture_gate(true, true, Some(false), true, true, false, false), tick(CaptureStep::Request, false, true));
    assert_eq!(capture_gate(true, true, None, false, true, false, false), tick(CaptureStep::NoManager, true, false));
    assert_eq!(capture_gate(true, true, None, true, false, false, false), tick(CaptureStep::NoOutput, true, false));
    assert_eq!(capture_gate(true, true, None, true, true, true, false), tick(CaptureStep::Busy, true, false));
    assert_eq!(capture_gate(true, true, None, true, true, false, true), tick(CaptureStep::Request, false, false));
}

#[test]
fn border_commands() {
    assert_eq!(border_size_command("mpv", 2), "setprop class:mpv border_size 2");
    assert_eq!(border_size_command("kitty", 120), "setprop class:kitty border_size 120");
    assert_eq!(border_color_command("mpv", 255, 10, 0), "setprop class:mpv border_color 0xffff0a00");
    assert_eq!(border_color_command("*", 11, 16, 32), "setprop class:* border_color 0xff0b1020");
}

#[test]
fn target_steps() {
    // no window: a followed target is lost, otherwise nothing happens
    assert_eq!(target_step(&Some(target(0, "DP-1")), false, &None), TargetStep::Lose);
    assert_eq!(target_step(&None, false, &None), TargetStep::Keep);
    // a window whose monitor cannot be placed drops the target, followed or not
    assert_eq!(target_step(&Some(target(0, "DP-1")), true, &None), TargetStep::Lose);
    assert_eq!(target_step(&None, true, &None), TargetStep::Lose);
    // a new or moved window is followed; an unchanged one is kept
    assert_eq!(target_step(&None, true, &Some(target(0, "DP-1"))), TargetStep::Follow);
    assert_eq!(target_step(&Some(target(0, "DP-1")), true, &Some(target(3, "DP-1"))), TargetStep::Follow);
    assert_eq!(target_step(&Some(target(0, "DP-1")), true, &Some(target(0, "DP-1"))), TargetStep::Keep);
}

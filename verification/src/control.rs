//! Decisions of the effect's main loop: command-line handling, which window
//! to follow, when to capture and repaint, and the sizes and damage of the
//! overlay buffers. The loop itself (timers, compositor I/O) runs outside.

use vstd::prelude::*;
use crate::colors::WinRectPx;
use crate::render::{Rect, spec_bounding, in_rect};
use crate::text::{hex2, push_hex2, push_radix, radix_digits};
use crate::hypr::{MonitorGeom, WinGeom};
use crate::text::{decimal, decimal_string, str_eq};

verus! {

/// What the command line asks for.
pub enum CliAction {
    /// Run, applying the named profile if any; with `toggle`, stop an
    /// instance that is already running instead (and run only if none is).
    Run { profile: Option<String>, toggle: bool },
    /// Print the usage and stop.
    Help,
    /// `--profile` was the last argument.
    MissingProfileName,
    /// An argument that is not understood.
    UnknownArgument(String),
}

pub enum CliView {
    Run(Option<Seq<char>>, bool),
    Help,
    MissingProfileName,
    UnknownArgument(Seq<char>),
}

impl View for CliAction {
    type V = CliView;

    open spec fn view(&self) -> CliView {
        match self {
            CliAction::Run { profile: Some(p), toggle } => CliView::Run(Some(p@), *toggle),
            CliAction::Run { profile: None, toggle } => CliView::Run(None, *toggle),
            CliAction::Help => CliView::Help,
            CliAction::MissingProfileName => CliView::MissingProfileName,
            CliAction::UnknownArgument(a) => CliView::UnknownArgument(a@),
        }
    }
}

/// Reading the arguments from position `i` on, with `profile` and `toggle`
/// chosen so far: `--profile`/`-p` takes the next argument as the profile (a
/// later one replaces an earlier one), `--toggle`/`-t` sets the toggle,
/// `--help`/`-h` stops at once, anything else is an error.
pub open spec fn spec_cli(args: Seq<Seq<char>>, i: int, profile: Option<Seq<char>>, toggle: bool) -> CliView
    decreases args.len() - i,
{
    if i >= args.len() || i < 0 {
        CliView::Run(profile, toggle)
    } else {
        let a = args[i];
        if a == "--profile"@ || a == "-p"@ {
            if i + 1 >= args.len() {
                CliView::MissingProfileName
            } else {
                spec_cli(args, i + 2, Some(args[i + 1]), toggle)
            }
        } else if a == "--toggle"@ || a == "-t"@ {
            spec_cli(args, i + 1, profile, true)
        } else if a == "--help"@ || a == "-h"@ {
            CliView::Help
        } else {
            CliView::UnknownArgument(a)
        }
    }
}

pub open spec fn arg_views(args: Seq<String>) -> Seq<Seq<char>> {
    args.map_values(|s: String| s@)
}

/// Interpret the command-line arguments (without the program name).
pub fn parse_args(args: &Vec<String>) -> (r: CliAction)
    ensures
        r@ == spec_cli(arg_views(args@), 0, None, false),
{
    let mut profile: Option<String> = None;
    let mut toggle = false;
    let mut i: usize = 0;
    while i < args.len()
        invariant
            i <= args@.len(),
            spec_cli(arg_views(args@), 0, None, false) == spec_cli(
                arg_views(args@),
                i as int,
                match profile {
                    Some(p) => Some(p@),
                    None => None,
                },
                toggle,
            ),
        decreases args@.len() - i,
    {
        let a = args[i].as_str();
        if str_eq(a, "--profile") || str_eq(a, "-p") {
            if i + 1 >= args.len() {
                return CliAction::MissingProfileName;
            }
            profile = Some(args[i + 1].clone());
            i = i + 2;
        } else if str_eq(a, "--toggle") || str_eq(a, "-t") {
            toggle = true;
            i = i + 1;
        } else if str_eq(a, "--help") || str_eq(a, "-h") {
            return CliAction::Help;
        } else {
            return CliAction::UnknownArgument(args[i].clone());
        }
    }
    CliAction::Run { profile, toggle }
}

/// FNV-1a offset basis and prime.
pub const FNV_OFFSET: u64 = 0xcbf29ce484222325;

pub const FNV_PRIME: u64 = 0x100000001b3;

pub open spec fn fnv_fold(q: Seq<u32>) -> u64
    decreases q.len(),
{
    if q.len() == 0 {
        FNV_OFFSET
    } else {
        vstd::wrapping::u64_specs::wrapping_mul(fnv_fold(q.drop_last()) ^ (q.last() as u64), FNV_PRIME)
    }
}

/// A color quantized to 6-bit buckets per channel, packed as `0xRRGGBB`:
/// drift within a bucket does not change it.
pub open spec fn spec_quantize(r: u32, g: u32, b: u32) -> u32 {
    ((r >> 2u32) << 16u32) | ((g >> 2u32) << 8u32) | (b >> 2u32)
}

/// Quantize the 8-bit channels of a color (see `spec_quantize`).
pub fn quantize_channels(r: u32, g: u32, b: u32) -> (q: u32)
    ensures
        q == spec_quantize(r, g, b),
        r < 256 && g < 256 && b < 256 ==> q == (r / 4) * 65536 + (g / 4) * 256 + b / 4,
{
    proof {
        lemma_quantize_value(r, g, b);
    }
    ((r >> 2) << 16) | ((g >> 2) << 8) | (b >> 2)
}

proof fn lemma_quantize_value(r: u32, g: u32, b: u32)
    ensures
        r < 256 && g < 256 && b < 256 ==> spec_quantize(r, g, b) == (r / 4) * 65536 + (g / 4) * 256 + b / 4,
{
    assert(r < 256 && g < 256 && b < 256 ==> ((r >> 2u32) << 16u32) | ((g >> 2u32) << 8u32) | (b >> 2u32)
        == (r / 4) * 65536 + (g / 4) * 256 + b / 4) by (bit_vector);
}

/// Fingerprint of a palette of quantized colors: a repaint is only needed
/// when it changes.
pub fn palette_hash(q: &Vec<u32>) -> (r: u64)
    ensures
        r == fnv_fold(q@),
{
    let mut h: u64 = FNV_OFFSET;
    let mut i: usize = 0;
    while i < q.len()
        invariant
            i <= q@.len(),
            h == fnv_fold(q@.take(i as int)),
        decreases q@.len() - i,
    {
        assert(q@.take(i + 1).drop_last() =~= q@.take(i as int));
        h = h ^ q[i] as u64;
        h = h.wrapping_mul(FNV_PRIME);
        i = i + 1;
    }
    assert(q@.take(q@.len() as int) =~= q@);
    h
}


/// The window being followed, relative to its monitor.
pub struct Target {
    /// Window rectangle in monitor pixels, relative to the monitor origin.
    pub win: WinRectPx,
    pub monitor_name: String,
    /// Monitor size in pixels.
    pub mon_w: u32,
    pub mon_h: u32,
    pub class: String,
}

/// A window is large enough to follow.
pub open spec fn big_enough(w: WinGeom, min: Seq<u32>) -> bool {
    w.w >= (min[0] as i32) && w.h >= (min[1] as i32)
}

/// The focused window, if it is large enough.
pub fn pick_active(active: Option<WinGeom>, min: [u32; 2]) -> (r: Option<WinGeom>)
    ensures
        r == match active {
            Some(w) => if big_enough(w, min@) { Some(w) } else { None },
            None => None,
        },
{
    match active {
        Some(w) => {
            if w.w >= min[0] as i32 && w.h >= min[1] as i32 {
                Some(w)
            } else {
                None
            }
        },
        None => None,
    }
}

/// A client window of the wanted class that is shown and large enough.
pub open spec fn client_fits(w: WinGeom, class: Seq<char>, min: Seq<u32>) -> bool {
    w.class@ == class && w.mapped && !w.minimized && big_enough(w, min)
}

/// The first client window of class `class` that is mapped, not minimized
/// and large enough.
pub fn pick_client(clients: Vec<WinGeom>, class: &str, min: [u32; 2]) -> (r: Option<WinGeom>)
    ensures
        r is None <==> forall|k: int| 0 <= k < clients@.len() ==> !client_fits(#[trigger] clients@[k], class@, min@),
        r matches Some(g) ==> exists|k: int|
            0 <= k < clients@.len() && clients@[k] == g && client_fits(g, class@, min@)
                && forall|j: int| 0 <= j < k ==> !client_fits(#[trigger] clients@[j], class@, min@),
        r matches Some(g) ==> g.class@ == class@ && g.mapped && !g.minimized
            && g.w >= min[0] as i32 && g.h >= min[1] as i32,
{
    let mut pool = clients;
    let ghost orig = pool@;
    let mut i: usize = 0;
    while i < pool.len()
        invariant
            pool@ == orig,
            orig == clients@,
            i <= orig.len(),
            forall|j: int| 0 <= j < i ==> !client_fits(#[trigger] orig[j], class@, min@),
        decreases orig.len() - i,
    {
        let fits = str_eq(pool[i].class.as_str(), class) && pool[i].mapped && !pool[i].minimized
            && pool[i].w >= min[0] as i32 && pool[i].h >= min[1] as i32;
        if fits {
            let g = pool.remove(i);
            assert(orig[i as int] == g);
            assert(client_fits(orig[i as int], class@, min@));
            assert(!client_fits(orig[i as int], class@, min@) ==> false);
            return Some(g);
        }
        i = i + 1;
    }
    None
}

/// A monitor answers to a window's monitor reference by name or by id.
pub open spec fn monitor_matches(m: MonitorGeom, name: Seq<char>) -> bool {
    m.name@ == name || decimal(m.id as int) == name
}

/// Index of the first monitor that a window's monitor reference names.
pub fn find_monitor(monitors: &Vec<MonitorGeom>, name: &str) -> (r: Option<usize>)
    ensures
        r is None <==> forall|k: int| 0 <= k < monitors@.len() ==> !monitor_matches(#[trigger] monitors@[k], name@),
        r matches Some(k) ==> k < monitors@.len() && monitor_matches(monitors@[k as int], name@)
            && forall|j: int| 0 <= j < k ==> !monitor_matches(#[trigger] monitors@[j], name@),
{
    let mut i: usize = 0;
    while i < monitors.len()
        invariant
            i <= monitors@.len(),
            forall|j: int| 0 <= j < i ==> !monitor_matches(#[trigger] monitors@[j], name@),
        decreases monitors@.len() - i,
    {
        let by_name = str_eq(monitors[i].name.as_str(), name);
        let by_id = if by_name {
            true
        } else {
            let id = decimal_string(monitors[i].id as i64);
            str_eq(id.as_str(), name)
        };
        if by_id {
            return Some(i);
        }
        i = i + 1;
    }
    None
}

/// The window lies within `i32` offsets of the monitor origin.
pub open spec fn relative_fits(w: WinGeom, m: MonitorGeom) -> bool {
    &&& i32::MIN <= w.x - m.x <= i32::MAX
    &&& i32::MIN <= w.y - m.y <= i32::MAX
}

/// The target for window `w` on monitor `m`: the window rectangle relative to
/// the monitor origin.
pub fn target_for(w: &WinGeom, m: &MonitorGeom) -> (r: Target)
    requires
        relative_fits(*w, *m),
    ensures
        r.win == (WinRectPx { x: (w.x - m.x) as i32, y: (w.y - m.y) as i32, w: w.w as u32, h: w.h as u32 }),
        r.monitor_name@ == m.name@,
        r.mon_w == m.width as u32,
        r.mon_h == m.height as u32,
        r.class@ == w.class@,
{
    Target {
        win: WinRectPx { x: w.x - m.x, y: w.y - m.y, w: w.w as u32, h: w.h as u32 },
        monitor_name: m.name.clone(),
        mon_w: m.width as u32,
        mon_h: m.height as u32,
        class: w.class.clone(),
    }
}

/// Whether `t` differs from the followed target in monitor or rectangle (a
/// first target always counts as a change).
pub open spec fn spec_target_changed(prev: Option<Target>, t: Target) -> bool {
    match prev {
        Some(p) => p.monitor_name@ != t.monitor_name@ || p.win.x != t.win.x || p.win.y != t.win.y
            || p.win.w != t.win.w || p.win.h != t.win.h,
        None => true,
    }
}

pub fn target_changed(prev: &Option<Target>, t: &Target) -> (r: bool)
    ensures
        r == spec_target_changed(*prev, *t),
{
    match prev {
        Some(p) => p.monitor_name != t.monitor_name || p.win.x != t.win.x || p.win.y != t.win.y
            || p.win.w != t.win.w || p.win.h != t.win.h,
        None => true,
    }
}


/// What a geometry poll does with the followed target.
#[derive(Clone, Copy, Debug, PartialEq, Eq, Structural)]
pub enum TargetStep {
    /// Leave the target as it is.
    Keep,
    /// Drop the target (it is lost, or its monitor cannot be placed).
    Lose,
    /// Follow the new candidate.
    Follow,
}

/// Decide a geometry poll: `window_found` says whether a window qualified,
/// `candidate` is its target when its monitor could be placed. With no
/// window, a followed target is lost (and nothing happens without one); a
/// window without a placed monitor drops the target; a candidate is followed
/// when it differs from the followed target.
pub fn target_step(prev: &Option<Target>, window_found: bool, candidate: &Option<Target>) -> (r: TargetStep)
    ensures
        r == if !window_found {
            if prev is Some { TargetStep::Lose } else { TargetStep::Keep }
        } else {
            match *candidate {
                None => TargetStep::Lose,
                Some(t) => if spec_target_changed(*prev, t) { TargetStep::Follow } else { TargetStep::Keep },
            }
        },
{
    if !window_found {
        if prev.is_some() {
            TargetStep::Lose
        } else {
            TargetStep::Keep
        }
    } else {
        match candidate {
            None => TargetStep::Lose,
            Some(t) => if target_changed(prev, t) {
                TargetStep::Follow
            } else {
                TargetStep::Keep
            },
        }
    }
}

/// `p / d` rounded up.
pub open spec fn ceil_div(p: int, d: int) -> int {
    if p % d == 0 {
        p / d
    } else {
        p / d + 1
    }
}

fn div_ceil_u32(p: u32, d: u32) -> (r: u32)
    requires
        d > 0,
    ensures
        r == ceil_div(p as int, d as int),
{
    let q = p / d;
    if p % d == 0 {
        q
    } else {
        proof {
            if d == 1 {
                vstd::arithmetic::div_mod::lemma_mod_bound(p as int, 1);
            }
            if p == 0 {
                vstd::arithmetic::div_mod::lemma_small_mod(0, d as nat);
            }
            assert(d > 1 && p > 0);
            vstd::arithmetic::div_mod::lemma_div_decreases(p as int, d as int);
        }
        q + 1
    }
}

/// The wallpaper buffer: the output's physical size, shrunk by `scale_down`
/// when the compositor can scale it back up (viewporter), rounded up; `None`
/// while the output has no size yet.
pub open spec fn spec_wallpaper_size(lw: int, lh: int, scale: int, scale_down: int, viewporter: bool) -> Option<(int, int)> {
    let d = if viewporter { if scale_down > 1 { scale_down } else { 1 } } else { 1 };
    let bw = ceil_div(lw * scale, d);
    let bh = ceil_div(lh * scale, d);
    if bw == 0 || bh == 0 {
        None
    } else {
        Some((bw, bh))
    }
}

pub fn wallpaper_buffer_size(logical_w: u32, logical_h: u32, scale: u32, scale_down_cfg: u32, viewporter: bool) -> (r: Option<(u32, u32)>)
    requires
        logical_w * scale <= u32::MAX,
        logical_h * scale <= u32::MAX,
    ensures
        match (r, spec_wallpaper_size(logical_w as int, logical_h as int, scale as int, scale_down_cfg as int, viewporter)) {
            (Some(a), Some(b)) => a.0 == b.0 && a.1 == b.1,
            (None, None) => true,
            _ => false,
        },
{
    let scale_down = if viewporter { if scale_down_cfg > 1 { scale_down_cfg } else { 1 } } else { 1 };
    let phys_w = logical_w * scale;
    let phys_h = logical_h * scale;
    let bw = div_ceil_u32(phys_w, scale_down);
    let bh = div_ceil_u32(phys_h, scale_down);
    if bw == 0 || bh == 0 {
        return None;
    }
    Some((bw, bh))
}

/// The glow buffer covers the output at its physical size.
pub fn glow_buffer_size(logical_w: u32, logical_h: u32, scale: u32) -> (r: Option<(u32, u32)>)
    requires
        logical_w * scale <= u32::MAX,
        logical_h * scale <= u32::MAX,
    ensures
        r == if logical_w * scale == 0 || logical_h * scale == 0 {
            None
        } else {
            Some(((logical_w * scale) as u32, (logical_h * scale) as u32))
        },
{
    let bw = logical_w * scale;
    let bh = logical_h * scale;
    if bw == 0 || bh == 0 {
        return None;
    }
    Some((bw, bh))
}

/// A configure event's size replaces the known one only when it is non-zero.
pub fn configured_size(new: u32, old: u32) -> (r: u32)
    ensures
        r == if new > 0 { new } else { old },
{
    if new > 0 { new } else { old }
}

/// Buffer scale of an output: its integer scale factor, at least 1 (1 when
/// unknown).
pub fn output_scale(scale_factor: Option<i32>) -> (r: u32)
    ensures
        r == match scale_factor {
            Some(f) => (if f > 1 { f } else { 1i32 }) as u32,
            None => 1u32,
        },
{
    match scale_factor {
        Some(f) => (if f > 1 { f } else { 1 }) as u32,
        None => 1,
    }
}

/// The halo band remembered for buffer `slot`, growing the list of slots
/// (with empty bands) to reach it.
pub fn slot_band(bands: &mut Vec<Option<Rect>>, slot: usize) -> (r: Option<Rect>)
    requires
        slot < usize::MAX,
    ensures
        final(bands)@.len() == if slot < old(bands)@.len() { old(bands)@.len() as int } else { slot as int + 1 },
        forall|i: int| 0 <= i < old(bands)@.len() ==> #[trigger] final(bands)@[i] == old(bands)@[i],
        forall|i: int| old(bands)@.len() <= i < final(bands)@.len() ==> #[trigger] final(bands)@[i] is None,
        r == final(bands)@[slot as int],
{
    while bands.len() <= slot
        invariant
            slot < usize::MAX,
            old(bands)@.len() <= bands@.len(),
            bands@.len() <= if slot < old(bands)@.len() { old(bands)@.len() as int } else { slot as int + 1 },
            forall|i: int| 0 <= i < old(bands)@.len() ==> #[trigger] bands@[i] == old(bands)@[i],
            forall|i: int| old(bands)@.len() <= i < bands@.len() ==> #[trigger] bands@[i] is None,
        decreases slot + 1 - bands@.len(),
    {
        bands.push(None);
    }
    bands[slot]
}

/// Whether any buffer still holds a halo band.
pub fn any_band(bands: &Vec<Option<Rect>>) -> (r: bool)
    ensures
        r == exists|i: int| 0 <= i < bands@.len() && (#[trigger] bands@[i]) is Some,
{
    let mut i: usize = 0;
    while i < bands.len()
        invariant
            i <= bands@.len(),
            forall|j: int| 0 <= j < i ==> (#[trigger] bands@[j]) is None,
        decreases bands@.len() - i,
    {
        if bands[i].is_some() {
            return true;
        }
        i = i + 1;
    }
    false
}

/// The region of the glow buffer to report as changed: the box around the
/// old and the new halo when a halo was drawn (nothing if that box is empty),
/// the whole buffer when the halo was cleared.
pub open spec fn spec_glow_damage(prev: Option<Rect>, band: Option<Rect>, bw: u32, bh: u32) -> Option<(int, int, int, int)> {
    match band {
        Some(b) => {
            let all = spec_bounding(prev, Some(b))->0;
            if all.x1 > all.x0 && all.y1 > all.y0 {
                Some((
                    if all.x0 > 0 { all.x0 as int } else { 0 },
                    if all.y0 > 0 { all.y0 as int } else { 0 },
                    all.x1 - all.x0,
                    all.y1 - all.y0,
                ))
            } else {
                None
            }
        },
        None => Some((0, 0, (bw as i32) as int, (bh as i32) as int)),
    }
}

pub open spec fn damage_fits(prev: Option<Rect>, band: Option<Rect>) -> bool {
    match band {
        Some(b) => {
            let all = spec_bounding(prev, Some(b))->0;
            all.x1 - all.x0 <= i32::MAX && all.y1 - all.y0 <= i32::MAX
        },
        None => true,
    }
}

pub fn glow_damage(prev: Option<Rect>, band: Option<Rect>, bw: u32, bh: u32) -> (r: Option<(i32, i32, i32, i32)>)
    requires
        damage_fits(prev, band),
    ensures
        match (r, spec_glow_damage(prev, band, bw, bh)) {
            (Some(a), Some(b)) => a.0 == b.0 && a.1 == b.1 && a.2 == b.2 && a.3 == b.3,
            (None, None) => true,
            _ => false,
        },
{
    match band {
        Some(b) => {
            let all = match Rect::bounding(prev, Some(b)) {
                Some(a) => a,
                None => b,
            };
            if all.x1 > all.x0 && all.y1 > all.y0 {
                Some((
                    if all.x0 > 0 { all.x0 } else { 0 },
                    if all.y0 > 0 { all.y0 } else { 0 },
                    all.x1 - all.x0,
                    all.y1 - all.y0,
                ))
            } else {
                None
            }
        },
        None => Some((0, 0, bw as i32, bh as i32)),
    }
}

/// After a failed capture: the new failure count, and whether to back off
/// (which starts the count again).
pub fn capture_failed(failures: u32, max_failures: u32) -> (r: (u32, bool))
    requires
        failures < u32::MAX,
    ensures
        r == if failures + 1 >= max_failures { (0u32, true) } else { ((failures + 1) as u32, false) },
{
    let f = failures + 1;
    if f >= max_failures {
        (0, true)
    } else {
        (f, false)
    }
}

/// A wallpaper surface is repainted once it is configured, when it still
/// needs its first frame or the palette changed.
pub fn wallpaper_due(ready: bool, needs_initial: bool, palette: u64, last_palette: u64) -> (r: bool)
    ensures
        r == (ready && (needs_initial || palette != last_palette)),
{
    ready && (needs_initial || palette != last_palette)
}

/// The glow is redrawn while a target is followed when it needs its first
/// frame, the palette changed or an old halo lingers in a buffer; without a
/// target only to clear lingering halos (or for the first frame).
pub fn glow_due(has_target: bool, needs_initial: bool, palette: u64, last_palette: u64, has_band: bool) -> (r: bool)
    ensures
        r == if has_target { needs_initial || palette != last_palette || has_band } else { has_band || needs_initial },
{
    if has_target {
        needs_initial || palette != last_palette || has_band
    } else {
        has_band || needs_initial
    }
}

/// How far a capture tick gets.
#[derive(Clone, Copy, Debug, PartialEq, Eq, Structural)]
pub enum CaptureStep {
    /// Nothing uses the captured colors.
    Disabled,
    /// No window to follow: hold the colors.
    NoTarget,
    /// Captures are paused after repeated failures.
    BackingOff,
    /// No screencopy manager (yet).
    NoManager,
    /// The target's output is not known yet.
    NoOutput,
    /// A capture is still in flight.
    Busy,
    /// Request a new frame.
    Request,
}

/// Outcome of a capture tick: the step reached, the new "capture wanted" flag,
/// and whether an expired back-off is to be cleared.
#[derive(Clone, Copy, Debug, PartialEq, Eq, Structural)]
pub struct CaptureTick {
    pub step: CaptureStep,
    pub need_capture: bool,
    pub clear_backoff: bool,
}

/// Decide a capture tick. `backoff` is `Some(still_running)` while a back-off
/// is set.
pub fn capture_gate(
    enabled: bool,
    has_target: bool,
    backoff: Option<bool>,
    has_manager: bool,
    has_output: bool,
    frame_in_flight: bool,
    need_capture: bool,
) -> (r: CaptureTick)
    ensures
        !enabled ==> r == (CaptureTick { step: CaptureStep::Disabled, need_capture, clear_backoff: false }),
        enabled && !has_target ==> r == (CaptureTick { step: CaptureStep::NoTarget, need_capture: false, clear_backoff: false }),
        enabled && has_target ==> r.clear_backoff == (backoff == Some(false)),
        enabled && has_target && backoff == Some(true) ==> r.step == CaptureStep::BackingOff && r.need_capture,
        enabled && has_target && backoff != Some(true) ==> r.step == (
            if !has_manager {
                CaptureStep::NoManager
            } else if !has_output {
                CaptureStep::NoOutput
            } else if frame_in_flight {
                CaptureStep::Busy
            } else {
                CaptureStep::Request
            }
        ) && r.need_capture == (r.step != CaptureStep::Request),
{
    if !enabled {
        return CaptureTick { step: CaptureStep::Disabled, need_capture, clear_backoff: false };
    }
    if !has_target {
        return CaptureTick { step: CaptureStep::NoTarget, need_capture: false, clear_backoff: false };
    }
    let mut clear_backoff = false;
    match backoff {
        Some(true) => {
            return CaptureTick { step: CaptureStep::BackingOff, need_capture: true, clear_backoff: false };
        },
        Some(false) => {
            clear_backoff = true;
        },
        None => {},
    }
    let step = if !has_manager {
        CaptureStep::NoManager
    } else if !has_output {
        CaptureStep::NoOutput
    } else if frame_in_flight {
        CaptureStep::Busy
    } else {
        CaptureStep::Request
    };
    let need = match step {
        CaptureStep::Request => false,
        _ => true,
    };
    CaptureTick { step, need_capture: need, clear_backoff }
}

/// Command setting the border width of windows of class `class`.
pub fn border_size_command(class: &str, size: u32) -> (r: String)
    ensures
        r@ == "setprop class:"@ + class@ + " border_size "@ + radix_digits(size as nat, 10),
{
    let mut s = String::from_str("setprop class:");
    s.append(class);
    s.append(" border_size ");
    push_radix(&mut s, size as u64, 10);
    s
}

/// Command setting the border color (opaque, `0xffRRGGBB`) of windows of
/// class `class` (`*` for all windows).
pub fn border_color_command(class: &str, r: u32, g: u32, b: u32) -> (out: String)
    ensures
        out@ == "setprop class:"@ + class@ + " border_color 0xff"@ + hex2(r as nat) + hex2(g as nat) + hex2(b as nat),
{
    let mut s = String::from_str("setprop class:");
    s.append(class);
    s.append(" border_color 0xff");
    push_hex2(&mut s, r);
    push_hex2(&mut s, g);
    push_hex2(&mut s, b);
    s
}

/// Arguments are read left to right: once a run of arguments from `i` on is
/// complete (it reads as `Run`), whatever follows is read on with the profile
/// and toggle that run chose.
pub proof fn law_cli_reads_on(a: Seq<Seq<char>>, b: Seq<Seq<char>>, i: int, p: Option<Seq<char>>, t: bool)
    requires
        0 <= i <= a.len(),
        spec_cli(a, i, p, t) is Run,
    ensures
        spec_cli(a + b, i, p, t) == spec_cli(b, 0, spec_cli(a, i, p, t)->Run_0, spec_cli(a, i, p, t)->Run_1),
    decreases a.len() - i,
{
    if i == a.len() {
        lemma_cli_shift(a, b, 0, p, t);
    } else {
        let x = a[i];
        assert((a + b)[i] == x);
        if x == "--profile"@ || x == "-p"@ {
            assert(i + 1 < a.len());
            assert((a + b)[i + 1] == a[i + 1]);
            law_cli_reads_on(a, b, i + 2, Some(a[i + 1]), t);
        } else if x == "--toggle"@ || x == "-t"@ {
            law_cli_reads_on(a, b, i + 1, p, true);
        }
    }
}

/// Reading `a + b` from `a.len() + j` is reading `b` from `j`.
proof fn lemma_cli_shift(a: Seq<Seq<char>>, b: Seq<Seq<char>>, j: int, p: Option<Seq<char>>, t: bool)
    requires
        0 <= j,
    ensures
        spec_cli(a + b, a.len() + j, p, t) == spec_cli(b, j, p, t),
    decreases b.len() - j,
{
    if j < b.len() {
        assert((a + b)[a.len() + j] == b[j]);
        if j + 1 < b.len() {
            assert((a + b)[a.len() + j + 1] == b[j + 1]);
            lemma_cli_shift(a, b, j + 2, Some(b[j + 1]), t);
        }
        lemma_cli_shift(a, b, j + 1, p, true);
    }
}

/// A later `--profile` replaces an earlier one: appending `--profile p` to a
/// complete command line runs with profile `p`, the toggle unchanged.
pub proof fn law_later_profile_wins(a: Seq<Seq<char>>, p: Seq<char>)
    requires
        spec_cli(a, 0, None, false) is Run,
    ensures
        spec_cli(a + seq!["--profile"@, p], 0, None, false)
            == CliView::Run(Some(p), spec_cli(a, 0, None, false)->Run_1),
{
    let b = seq!["--profile"@, p];
    law_cli_reads_on(a, b, 0, None, false);
    assert(b[0] == "--profile"@);
    reveal_with_fuel(spec_cli, 3);
}

/// The toggle flag may stand anywhere: `--toggle` appended to a complete
/// command line keeps its profile and sets the toggle.
pub proof fn law_toggle_anywhere(a: Seq<Seq<char>>)
    requires
        spec_cli(a, 0, None, false) is Run,
    ensures
        spec_cli(a + seq!["--toggle"@], 0, None, false)
            == CliView::Run(spec_cli(a, 0, None, false)->Run_0, true),
{
    let b = seq!["--toggle"@];
    law_cli_reads_on(a, b, 0, None, false);
    reveal_strlit("--toggle");
    reveal_strlit("--profile");
    reveal_strlit("-p");
    assert(b[0] == "--toggle"@);
    assert("--toggle"@ != "--profile"@ && "--toggle"@ != "-p"@);
    reveal_with_fuel(spec_cli, 2);
}

/// The wallpaper buffer, scaled back up by the compositor, covers the
/// output: each side is the physical size divided by the scale-down factor,
/// rounded up, so `d` times it reaches the physical size and `d` times one
/// less falls short of it.
pub proof fn law_wallpaper_covers_output(lw: int, lh: int, scale: int, scale_down: int, viewporter: bool)
    requires
        lw >= 0,
        lh >= 0,
        scale >= 0,
        spec_wallpaper_size(lw, lh, scale, scale_down, viewporter) is Some,
    ensures
        ({
            let d = if viewporter && scale_down > 1 { scale_down } else { 1 };
            let (bw, bh) = spec_wallpaper_size(lw, lh, scale, scale_down, viewporter)->0;
            &&& bw * d >= lw * scale
            &&& (bw - 1) * d < lw * scale
            &&& bh * d >= lh * scale
            &&& (bh - 1) * d < lh * scale
        }),
{
    let d = if viewporter && scale_down > 1 { scale_down } else { 1 };
    assert(lw * scale >= 0) by (nonlinear_arith)
        requires
            lw >= 0,
            scale >= 0,
    ;
    assert(lh * scale >= 0) by (nonlinear_arith)
        requires
            lh >= 0,
            scale >= 0,
    ;
    lemma_ceil_div_bounds(lw * scale, d);
    lemma_ceil_div_bounds(lh * scale, d);
}

proof fn lemma_ceil_div_bounds(p: int, d: int)
    requires
        p >= 0,
        d >= 1,
    ensures
        ceil_div(p, d) * d >= p,
        (ceil_div(p, d) - 1) * d < p,
{
    vstd::arithmetic::div_mod::lemma_fundamental_div_mod(p, d);
    let q = p / d;
    let r = p % d;
    assert(0 <= r < d);
    assert(p == d * q + r);
    if r == 0 {
        assert(q * d == p) by (nonlinear_arith)
            requires
                p == d * q + r,
                r == 0,
        ;
        assert((q - 1) * d == p - d) by (nonlinear_arith)
            requires
                q * d == p,
        ;
    } else {
        assert((q + 1) * d == p - r + d) by (nonlinear_arith)
            requires
                p == d * q + r,
        ;
        assert(q * d == p - r) by (nonlinear_arith)
            requires
                p == d * q + r,
        ;
    }
}

/// Quantized palettes: when every channel of every color stays within its
/// bucket of four, the quantized palette and so its fingerprint are
/// unchanged, and a surface that already shows a frame is not repainted.
pub proof fn law_small_drift_keeps_palette(a: Seq<(u32, u32, u32)>, b: Seq<(u32, u32, u32)>)
    requires
        a.len() == b.len(),
        forall|i: int| 0 <= i < a.len() ==> {
            &&& #[trigger] a[i].0 / 4 == b[i].0 / 4
            &&& a[i].1 / 4 == b[i].1 / 4
            &&& a[i].2 / 4 == b[i].2 / 4
        },
    ensures
        fnv_fold(a.map_values(|c: (u32, u32, u32)| spec_quantize(c.0, c.1, c.2)))
            == fnv_fold(b.map_values(|c: (u32, u32, u32)| spec_quantize(c.0, c.1, c.2))),
{
    let qa = a.map_values(|c: (u32, u32, u32)| spec_quantize(c.0, c.1, c.2));
    let qb = b.map_values(|c: (u32, u32, u32)| spec_quantize(c.0, c.1, c.2));
    assert forall|i: int| 0 <= i < a.len() implies qa[i] == qb[i] by {
        let (r1, g1, b1) = a[i];
        let (r2, g2, b2) = b[i];
        assert(r1 / 4 == r2 / 4 && g1 / 4 == g2 / 4 && b1 / 4 == b2 / 4);
        lemma_same_bucket(r1, r2);
        lemma_same_bucket(g1, g2);
        lemma_same_bucket(b1, b2);
    }
    assert(qa =~= qb);
}

proof fn lemma_same_bucket(x: u32, y: u32)
    requires
        x / 4 == y / 4,
    ensures
        x >> 2u32 == y >> 2u32,
{
    assert(x >> 2u32 == x / 4) by (bit_vector);
    assert(y >> 2u32 == y / 4) by (bit_vector);
}

/// A window is followed only when it reaches the minimum size in both
/// dimensions; one picked by class must also be of that class, shown and not
/// minimized.
pub proof fn law_window_choice(w: WinGeom, class: Seq<char>, min: Seq<u32>)
    ensures
        big_enough(w, min) <==> (w.w >= min[0] as i32 && w.h >= min[1] as i32),
        client_fits(w, class, min) <==> (w.class@ == class && w.mapped && !w.minimized
            && w.w >= min[0] as i32 && w.h >= min[1] as i32),
{
}

/// The target counts as changed exactly when there was none, or when it is on
/// another monitor or its window rectangle differs in any way (moved or
/// resized).
pub proof fn law_retarget_on_any_change(p: Target, t: Target)
    ensures
        spec_target_changed(None, t),
        spec_target_changed(Some(p), t) <==> !(p.monitor_name@ == t.monitor_name@ && p.win == t.win),
{
}

/// The damage reported after drawing a halo box `b` (with `prev` the box
/// cleared from the buffer) is the box around both, its corner raised to 0;
/// after clearing only, it is the whole buffer.
pub proof fn law_damage_is_the_box_around_both(prev: Option<Rect>, b: Rect, bw: u32, bh: u32)
    ensures
        ({
            let ax0: int = match prev { Some(p) => if p.x0 <= b.x0 { p.x0 as int } else { b.x0 as int }, None => b.x0 as int };
            let ay0: int = match prev { Some(p) => if p.y0 <= b.y0 { p.y0 as int } else { b.y0 as int }, None => b.y0 as int };
            let ax1: int = match prev { Some(p) => if p.x1 >= b.x1 { p.x1 as int } else { b.x1 as int }, None => b.x1 as int };
            let ay1: int = match prev { Some(p) => if p.y1 >= b.y1 { p.y1 as int } else { b.y1 as int }, None => b.y1 as int };
            &&& (ax1 > ax0 && ay1 > ay0) ==> spec_glow_damage(prev, Some(b), bw, bh) == Some((
                if ax0 > 0 { ax0 } else { 0 },
                if ay0 > 0 { ay0 } else { 0 },
                ax1 - ax0,
                ay1 - ay0,
            ))
            &&& !(ax1 > ax0 && ay1 > ay0) ==> spec_glow_damage(prev, Some(b), bw, bh) is None
        }),
        spec_glow_damage(prev, None, bw, bh) == Some((0int, 0int, (bw as i32) as int, (bh as i32) as int)),
{
}

/// The damage reported after drawing a halo box covers every on-canvas pixel
/// of the new box and of the old one that was cleared.
pub proof fn law_damage_covers_both_halos(prev: Option<Rect>, b: Rect, bw: u32, bh: u32, x: int, y: int)
    requires
        0 <= x,
        0 <= y,
        in_rect(b, x, y) || (prev matches Some(p) && in_rect(p, x, y)),
    ensures
        spec_glow_damage(prev, Some(b), bw, bh) matches Some(d) && d.0 <= x < d.0 + d.2 && d.1 <= y < d.1 + d.3,
{
    law_damage_is_the_box_around_both(prev, b, bw, bh);
}

} // verus!

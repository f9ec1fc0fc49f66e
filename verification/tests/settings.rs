use hyprhalo::config::{
    default_border_skip, default_bottom_segments, default_edge_band, default_geometry_poll_ms, default_inner,
    default_left_segments, default_max_failures, default_min_window_size, default_radius, default_right_segments,
    default_sample_stride, default_scale_down, default_top_segments, default_true, format_color, parse_color,
    profile_kind, CaptureConfig, ColorError, ProfileKind,
};

#[test]
fn scalar_defaults() {
    assert!(default_true());
    assert_eq!(default_geometry_poll_ms(), 250);
    assert_eq!(default_min_window_size(), [480, 320]);
    assert_eq!(default_scale_down(), 2);
    assert_eq!(default_radius(), 130);
    assert_eq!(default_inner(), 14);
    assert_eq!(default_top_segments(), 18);
    assert_eq!(default_bottom_segments(), 10);
    assert_eq!(default_left_segments(), 12);
    assert_eq!(default_right_segments(), 12);
    assert_eq!(default_edge_band(), 28);
    assert_eq!(default_border_skip(), 4);
    assert_eq!(default_sample_stride(), 2);
    assert_eq!(default_max_failures(), 5);
}

#[test]
fn capture_section_default() {
    let c = CaptureConfig::default();
    assert_eq!(c, CaptureConfig { edge_band_px: 28, border_skip_px: 4, sample_stride: 2, max_failures: 5 });
}

#[test]
fn profile_names() {
    assert_eq!(profile_kind("low"), Some(ProfileKind::Low));
    assert_eq!(profile_kind("normal"), Some(ProfileKind::Normal));
    assert_eq!(profile_kind("very-smooth"), Some(ProfileKind::VerySmooth));
    assert_eq!(profile_kind("very_smooth"), Some(ProfileKind::VerySmooth));
    assert_eq!(profile_kind("smooth"), Some(ProfileKind::VerySmooth));
    assert_eq!(profile_kind("turbo"), None);
    assert_eq!(profile_kind(""), None);
    assert_eq!(profile_kind("lowest"), None);
}

#[test]
fn profile_names_ignore_case() {
    assert_eq!(profile_kind("LOW"), Some(ProfileKind::Low));
    assert_eq!(profile_kind("Very-Smooth"), Some(ProfileKind::VerySmooth));
    assert_eq!(profile_kind("NoRmAl"), Some(ProfileKind::Normal));
    // only ASCII letters fold
    assert_eq!(profile_kind("lÖw"), None);
}

#[test]
fn colors_in_hex() {
    assert_eq!(parse_color("112233"), Ok([0x11, 0x22, 0x33]));
    assert_eq!(parse_color("0b1020"), Ok([0x0b, 0x10, 0x20]));
    assert_eq!(parse_color("#FFaa00"), Ok([0xff, 0xaa, 0x00]));
    // every leading '#' is dropped
    assert_eq!(parse_color("##abcdef"), Ok([0xab, 0xcd, 0xef]));
}

#[test]
fn colors_of_the_wrong_length() {
    assert_eq!(parse_color("12345"), Err(ColorError::Length));
    assert_eq!(parse_color("1234567"), Err(ColorError::Length));
    assert_eq!(parse_color(""), Err(ColorError::Length));
    assert_eq!(parse_color("#"), Err(ColorError::Length));
    assert_eq!(parse_color("#12345"), Err(ColorError::Length));
    // length counts bytes: 'é' takes two
    assert_eq!(parse_color("é12345"), Err(ColorError::Length));
}

#[test]
fn colors_with_bad_digits() {
    assert_eq!(parse_color("zzzzzz"), Err(ColorError::Digit));
    assert_eq!(parse_color("12 345"), Err(ColorError::Digit));
    assert_eq!(parse_color("-12345"), Err(ColorError::Digit));
    // a color is six hex digits: no sign
    assert_eq!(parse_color("+12345"), Err(ColorError::Digit));
    assert_eq!(parse_color("#+12345"), Err(ColorError::Digit));
    assert_eq!(parse_color("+"), Err(ColorError::Length));
    // six bytes, but not hex digits
    assert_eq!(parse_color("é1234"), Err(ColorError::Digit));
    assert_eq!(parse_color("+-1234"), Err(ColorError::Digit));
}

#[test]
fn colors_print_as_six_lower_case_digits() {
    assert_eq!(format_color([0x11, 0x22, 0x33]), "112233");
    assert_eq!(format_color([0x0b, 0x10, 0x20]), "0b1020");
    assert_eq!(format_color([255, 0, 171]), "ff00ab");
}

#[test]
fn colors_round_trip() {
    for c in [[0u8, 0, 0], [255, 255, 255], [1, 2, 3], [0xde, 0xad, 0xbe]] {
        assert_eq!(parse_color(&format_color(c)), Ok(c));
    }
}

use term_gfx::color::Color;

#[test]
fn test_color_to_c_str() {
    for i in 0..=255 {
        let s = format!("{:0>3}", i);
        assert_eq!(s.as_bytes(), Color::color_to_c_str(i));
    }
}

#[test]
fn named_colors() {
    assert_eq!(Color::white(), Color::rgb(255, 255, 255));
    assert_eq!(Color::cyan(), Color::rgb(0, 255, 255));
    assert_eq!(Color::pink(), Color::rgb(255, 0, 255));
    assert_eq!(Color::blue(), Color::rgb(0, 0, 255));
    assert_eq!(Color::yellow(), Color::rgb(255, 255, 0));
    assert_eq!(Color::green(), Color::rgb(0, 255, 0));
    assert_eq!(Color::red(), Color::rgb(255, 0, 0));
    assert_eq!(Color::black(), Color::rgb(0, 0, 0));
    assert_eq!(Color::grey(7), Color::rgb(7, 7, 7));
}

#[test]
fn apply_writes_zero_padded_channels() {
    let mut out = Vec::new();
    Color::rgb(1, 2, 3).apply(&mut out);
    assert_eq!(out, b"\x1b[38;2;001;002;003m\x1b[48;2;001;002;003m".to_vec());
}

#[test]
fn apply_has_constant_length() {
    for c in [Color::rgb(0, 0, 0), Color::rgb(255, 255, 255), Color::rgb(9, 99, 100)] {
        let mut out = Vec::new();
        c.apply(&mut out);
        assert_eq!(out.len(), 38);
    }
    let mut out = Vec::new();
    Color::rgb(9, 99, 100).apply(&mut out);
    assert_eq!(out, b"\x1b[38;2;009;099;100m\x1b[48;2;009;099;100m".to_vec());
}

#[test]
fn reset_appends() {
    let mut out = b"x".to_vec();
    Color::reset(&mut out);
    assert_eq!(out, b"x\x1b[0m".to_vec());
}

use term_gfx::color::Color;
use term_gfx::framebuffer::{Framebuffer, FramebufferError};

fn cells(fb: &Framebuffer) -> Vec<Color> {
    let mut v = Vec::new();
    for y in 0..fb.height() as i64 {
        for x in 0..fb.width() as i64 {
            v.push(fb.get_pixel(x, y).unwrap());
        }
    }
    v
}

fn touched(fb: &Framebuffer, c: Color) -> Vec<(i64, i64)> {
    let mut v = Vec::new();
    for y in 0..fb.height() as i64 {
        for x in 0..fb.width() as i64 {
            if fb.get_pixel(x, y).unwrap() == c {
                v.push((x, y));
            }
        }
    }
    v
}

#[test]
fn new_fills_every_cell() {
    let fb = Framebuffer::new(4, 3, Color::red());
    assert_eq!(fb.width(), 4);
    assert_eq!(fb.height(), 3);
    assert!(cells(&fb).iter().all(|c| *c == Color::red()));
}

#[test]
fn pixel_then_get_pixel() {
    let mut fb = Framebuffer::new(5, 4, Color::black());
    for y in 0..4 {
        for x in 0..5 {
            let c = Color::rgb(x as u8, y as u8, 9);
            assert!(fb.pixel(x, y, c));
            assert_eq!(fb.get_pixel(x, y).unwrap(), c);
        }
    }
}

#[test]
fn pixel_off_grid_changes_nothing() {
    let mut fb = Framebuffer::new(3, 2, Color::blue());
    let before = cells(&fb);
    for (x, y) in [(-1, 0), (0, -1), (3, 0), (0, 2), (i64::MIN, i64::MAX), (i64::MAX, 0)] {
        assert!(!fb.pixel(x, y, Color::red()));
    }
    assert_eq!(cells(&fb), before);
}

#[test]
fn get_pixel_out_of_bounds() {
    let fb = Framebuffer::new(3, 2, Color::blue());
    assert!(matches!(fb.get_pixel(-1, 0), Err(FramebufferError::OutOfBoundsError)));
    assert!(matches!(fb.get_pixel(0, -1), Err(FramebufferError::OutOfBoundsError)));
    assert!(matches!(fb.get_pixel(3, 0), Err(FramebufferError::OutOfBoundsError)));
    assert!(matches!(fb.get_pixel(0, 2), Err(FramebufferError::OutOfBoundsError)));
}

#[test]
fn clear_overwrites_every_cell() {
    let mut fb = Framebuffer::new(3, 3, Color::blue());
    fb.pixel(1, 1, Color::red());
    fb.clear(Color::green());
    assert!(cells(&fb).iter().all(|c| *c == Color::green()));
}

#[test]
fn line_degenerate_touches_one_cell() {
    let mut fb = Framebuffer::new(10, 10, Color::black());
    fb.line(5, 5, 5, 5, Color::white());
    assert_eq!(touched(&fb, Color::white()), vec![(5, 5)]);
}

#[test]
fn line_is_symmetric() {
    let ends = [(0, 0, 2, 1), (0, 0, 7, 3), (1, 8, 6, 0), (0, 5, 9, 5), (3, 0, 3, 9), (-4, -2, 12, 11)];
    for (x0, y0, x1, y1) in ends {
        let mut a = Framebuffer::new(10, 10, Color::black());
        let mut b = Framebuffer::new(10, 10, Color::black());
        a.line(x0, y0, x1, y1, Color::white());
        b.line(x1, y1, x0, y0, Color::white());
        assert_eq!(cells(&a), cells(&b));
    }
}

#[test]
fn line_horizontal_and_diagonal() {
    let mut fb = Framebuffer::new(6, 6, Color::black());
    fb.line(1, 2, 4, 2, Color::white());
    assert_eq!(touched(&fb, Color::white()), vec![(1, 2), (2, 2), (3, 2), (4, 2)]);
    let mut fb = Framebuffer::new(6, 6, Color::black());
    fb.line(3, 3, 0, 0, Color::white());
    assert_eq!(touched(&fb, Color::white()), vec![(0, 0), (1, 1), (2, 2), (3, 3)]);
}

#[test]
fn line_includes_both_ends() {
    let mut fb = Framebuffer::new(10, 10, Color::black());
    fb.line(1, 8, 6, 0, Color::white());
    assert_eq!(fb.get_pixel(1, 8).unwrap(), Color::white());
    assert_eq!(fb.get_pixel(6, 0).unwrap(), Color::white());
    assert_eq!(touched(&fb, Color::white()).len(), 9);
}

#[test]
fn line_clips_off_grid_cells() {
    let mut fb = Framebuffer::new(4, 4, Color::black());
    fb.line(-3, 1, 10, 1, Color::white());
    assert_eq!(touched(&fb, Color::white()), vec![(0, 1), (1, 1), (2, 1), (3, 1)]);
}

#[test]
fn draw_framebuffer_clips_at_every_edge() {
    let src = Framebuffer::new(3, 3, Color::red());
    for (x, y) in [(-2, -2), (3, 3), (-1, 2), (2, -1), (-10, -10), (10, 10)] {
        let mut dst = Framebuffer::new(4, 4, Color::black());
        dst.draw_framebuffer(x, y, &src);
        assert_eq!(dst.width(), 4);
        assert_eq!(dst.height(), 4);
        for py in 0..4i64 {
            for px in 0..4i64 {
                let inside = px - x >= 0 && px - x < 3 && py - y >= 0 && py - y < 3;
                let expect = if inside { Color::red() } else { Color::black() };
                assert_eq!(dst.get_pixel(px, py).unwrap(), expect);
            }
        }
    }
}

#[test]
fn draw_framebuffer_copies_source_cells() {
    let mut src = Framebuffer::new(2, 2, Color::black());
    src.pixel(0, 0, Color::rgb(1, 1, 1));
    src.pixel(1, 0, Color::rgb(2, 2, 2));
    src.pixel(0, 1, Color::rgb(3, 3, 3));
    src.pixel(1, 1, Color::rgb(4, 4, 4));
    let mut dst = Framebuffer::new(3, 3, Color::white());
    dst.draw_framebuffer(1, 1, &src);
    assert_eq!(dst.get_pixel(1, 1).unwrap(), Color::rgb(1, 1, 1));
    assert_eq!(dst.get_pixel(2, 1).unwrap(), Color::rgb(2, 2, 2));
    assert_eq!(dst.get_pixel(1, 2).unwrap(), Color::rgb(3, 3, 3));
    assert_eq!(dst.get_pixel(2, 2).unwrap(), Color::rgb(4, 4, 4));
    assert_eq!(dst.get_pixel(0, 0).unwrap(), Color::white());
}

#[test]
fn resize_uniform_source_stays_uniform() {
    let c = Color::rgb(10, 200, 33);
    let src = Framebuffer::new(7, 5, c);
    for (w, h) in [(3, 2), (1, 1), (10, 9), (7, 5), (20, 1)] {
        let r = Framebuffer::new_resized(&src, w, h);
        assert_eq!(r.width(), w);
        assert_eq!(r.height(), h);
        assert!(cells(&r).iter().all(|x| *x == c));
    }
}

#[test]
fn resize_averages_samples() {
    let mut src = Framebuffer::new(2, 1, Color::black());
    src.pixel(1, 0, Color::white());
    let r = Framebuffer::new_resized(&src, 1, 1);
    assert_eq!(r.get_pixel(0, 0).unwrap(), Color::grey(102));
}

#[test]
fn resize_samples_five_by_five_per_cell() {
    let mut src = Framebuffer::new(3, 1, Color::black());
    src.pixel(1, 0, Color::rgb(100, 0, 0));
    let r = Framebuffer::new_resized(&src, 2, 1);
    assert_eq!(r.get_pixel(0, 0).unwrap(), Color::rgb(20, 0, 0));
    assert_eq!(r.get_pixel(1, 0).unwrap(), Color::rgb(40, 0, 0));
}

#[test]
fn resize_to_empty() {
    let src = Framebuffer::new(0, 0, Color::black());
    let r = Framebuffer::new_resized(&src, 0, 3);
    assert_eq!((r.width(), r.height()), (0, 3));
}

#[test]
fn serialize_emits_one_set_per_run() {
    let a = Color::rgb(1, 2, 3);
    let b = Color::rgb(4, 5, 6);
    let mut fb = Framebuffer::new(3, 2, a);
    fb.pixel(2, 1, b);
    let mut out = Vec::new();
    fb.serialize(&mut out);
    let mut expect = Vec::new();
    a.apply(&mut expect);
    expect.extend_from_slice(b"   ");
    Color::reset(&mut expect);
    expect.push(b'\n');
    a.apply(&mut expect);
    expect.extend_from_slice(b"  ");
    b.apply(&mut expect);
    expect.extend_from_slice(b" ");
    assert_eq!(out, expect);
}

#[test]
fn serialize_counts_sets_resets_and_breaks() {
    let mut fb = Framebuffer::new(4, 3, Color::black());
    fb.pixel(1, 0, Color::red());
    fb.pixel(2, 0, Color::red());
    fb.pixel(0, 2, Color::blue());
    let mut out = Vec::new();
    fb.serialize(&mut out);
    let text = String::from_utf8(out).unwrap();
    assert_eq!(text.matches("\x1b[38;2;").count(), 3 + 1 + 2);
    assert_eq!(text.matches("\x1b[0m").count(), 2);
    assert_eq!(text.matches("\x1b[0m\n").count(), 2);
    assert!(text.ends_with(' '));
    assert_eq!(text.matches('\n').count(), 2);
    assert_eq!(text.matches(' ').count(), 12);
}

#[test]
fn serialize_last_row_ends_with_its_last_glyph() {
    let mut fb = Framebuffer::new(3, 2, Color::black());
    fb.pixel(1, 0, Color::red());
    let mut out = Vec::new();
    fb.serialize(&mut out);
    let b = "\x1b[38;2;000;000;000m\x1b[48;2;000;000;000m";
    let r = "\x1b[38;2;255;000;000m\x1b[48;2;255;000;000m";
    let expect = format!("{b} {r} {b} \x1b[0m\n{b}   ");
    assert_eq!(String::from_utf8(out).unwrap(), expect);
}

#[test]
fn cursor_sequences() {
    let fb = Framebuffer::new(2, 12, Color::black());
    let mut out = Vec::new();
    fb.hide_cursor(&mut out, true);
    fb.hide_cursor(&mut out, false);
    fb.reset_cursor(&mut out);
    assert_eq!(out, b"\x1b[?25l\x1b[?25h\x1b[11F".to_vec());
}

#[test]
fn from_dimensions_results() {
    assert!(matches!(
        Framebuffer::from_dimensions(None, Color::black()),
        Err(FramebufferError::CantGetTerminalSize)
    ));
    assert!(matches!(
        Framebuffer::from_dimensions(Some((usize::MAX, 2)), Color::black()),
        Err(FramebufferError::CantGetTerminalSize)
    ));
    let fb = Framebuffer::from_dimensions(Some((80, 24)), Color::black()).unwrap();
    assert_eq!((fb.width(), fb.height()), (80, 24));
}

#[test]
fn from_rgb_bytes_reads_row_major() {
    let rgb = vec![1, 2, 3, 4, 5, 6, 7, 8, 9, 10, 11, 12];
    let fb = Framebuffer::from_rgb_bytes(2, 2, &rgb).unwrap();
    assert_eq!(fb.get_pixel(1, 0).unwrap(), Color::rgb(4, 5, 6));
    assert_eq!(fb.get_pixel(0, 1).unwrap(), Color::rgb(7, 8, 9));
    assert!(Framebuffer::from_rgb_bytes(2, 2, &rgb[..11].to_vec()).is_none());
}

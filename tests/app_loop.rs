use term_gfx::app::{sleep_nanos, App, AppInfo, AppStartupConfig, Phase, Scene};
use term_gfx::color::Color;
use term_gfx::event::{Event, EventHandler};
use term_gfx::framebuffer::Framebuffer;
use term_gfx::renderer::Renderer;

struct Blank;

impl Scene for Blank {
    fn update(&mut self, _renderer: &mut Renderer) {}
    fn event(&mut self, _event: &Event) {}
    fn attach(&mut self, _app_info: &AppInfo) {}
    fn detach(&mut self) {}
}

struct Recorder {
    sizes_at_event: Vec<(i64, i64)>,
    size_at_update: Option<(i64, i64)>,
    events: Vec<Event>,
    attached_size: Option<(i64, i64)>,
    detached: bool,
}

impl Scene for Recorder {
    fn update(&mut self, renderer: &mut Renderer) {
        self.size_at_update = Some(renderer.screen_size());
        renderer.pixel(0, 0, Color::red());
    }
    fn event(&mut self, event: &Event) {
        self.events.push(*event);
    }
    fn attach(&mut self, app_info: &AppInfo) {
        self.attached_size = Some(app_info.renderer.screen_size());
    }
    fn detach(&mut self) {
        self.detached = true;
    }
}

fn blank(w: usize, h: usize) -> Framebuffer {
    Framebuffer::new(w, h, Color::black())
}

struct Dot;

impl Scene for Dot {
    fn update(&mut self, renderer: &mut Renderer) {
        renderer.pixel(1, 1, Color::red());
    }
    fn event(&mut self, _event: &Event) {}
    fn attach(&mut self, _app_info: &AppInfo) {}
    fn detach(&mut self) {}
}

fn frame_bytes(w: usize, h: usize) -> Vec<u8> {
    let mut out = Vec::new();
    Framebuffer::new(w, h, Color::black()).serialize(&mut out);
    out
}

#[test]
fn render_emits_frame_then_rewinds_and_blanks() {
    let mut app = App::with_parts(Dot, AppStartupConfig { fps: 30 }, blank(3, 2), EventHandler::with_dimensions(Some((3, 2))));
    assert_eq!(app.take_output(), b"\x1b[?25l".to_vec());
    app.start();
    app.tick(&Vec::new());
    let mut fb = Framebuffer::new(3, 2, Color::black());
    fb.pixel(1, 1, Color::red());
    let mut expect = Vec::new();
    fb.serialize(&mut expect);
    expect.extend_from_slice(b"\x1b[1F");
    assert_eq!(app.take_output(), expect);
}

#[test]
fn resize_events_that_cannot_be_taken_are_ignored() {
    let mut app = App::with_parts(Blank, AppStartupConfig { fps: 30 }, blank(3, 2), EventHandler::with_dimensions(Some((3, 2))));
    app.start();
    app.take_output();
    app.tick(&vec![Event::Resize(5, 4), Event::Resize(-1, 4), Event::Resize(i64::MAX, i64::MAX)]);
    let mut expect = frame_bytes(5, 4);
    expect.extend_from_slice(b"\x1b[3F");
    assert_eq!(app.take_output(), expect);
}

#[test]
fn restore_cursor_shows_it() {
    let mut app = App::with_parts(Blank, AppStartupConfig { fps: 30 }, blank(1, 1), EventHandler::with_dimensions(None));
    app.take_output();
    app.restore_cursor();
    assert_eq!(app.take_output(), b"\x1b[?25h".to_vec());
}

#[test]
fn blank_scene_yields_one_full_frame_per_tick() {
    let mut app = App::with_parts(Blank, AppStartupConfig { fps: 30 }, blank(4, 3), EventHandler::with_dimensions(Some((4, 3))));
    app.take_output();
    app.start();
    let mut one = frame_bytes(4, 3);
    one.extend_from_slice(b"\x1b[2F");
    for _ in 0..3 {
        app.tick(&Vec::new());
        assert_eq!(app.take_output(), one);
    }
    app.finish();
    assert_eq!(app.take_output(), b"\n\n\n".to_vec());
}

#[test]
fn resize_reaches_renderer_before_scene() {
    let rec = Recorder { sizes_at_event: Vec::new(), size_at_update: None, events: Vec::new(), attached_size: None, detached: false };
    let mut app = App::with_parts(rec, AppStartupConfig { fps: 60 }, blank(4, 3), EventHandler::with_dimensions(Some((4, 3))));
    app.start();
    app.take_output();
    let events = vec![Event::CharEvent('q'), Event::Resize(6, 2)];
    app.tick(&events);
    let mut fb = Framebuffer::new(6, 2, Color::black());
    fb.pixel(0, 0, Color::red());
    let mut expect = Vec::new();
    fb.serialize(&mut expect);
    expect.extend_from_slice(b"\x1b[1F");
    assert_eq!(app.take_output(), expect);
    app.finish();
    assert_eq!(app.take_output(), b"\n\n".to_vec());
}

#[test]
fn scene_sees_events_and_new_size() {
    struct Probe<'a> {
        log: &'a std::cell::RefCell<Vec<String>>,
    }
    impl<'a> Scene for Probe<'a> {
        fn update(&mut self, renderer: &mut Renderer) {
            self.log.borrow_mut().push(format!("update {:?}", renderer.screen_size()));
        }
        fn event(&mut self, event: &Event) {
            self.log.borrow_mut().push(format!("event {:?}", event));
        }
        fn attach(&mut self, app_info: &AppInfo) {
            self.log.borrow_mut().push(format!("attach {:?}", app_info.renderer.screen_size()));
        }
        fn detach(&mut self) {
            self.log.borrow_mut().push("detach".to_string());
        }
    }
    let log = std::cell::RefCell::new(Vec::new());
    let mut app = App::with_parts(Probe { log: &log }, AppStartupConfig { fps: 10 }, blank(4, 3), EventHandler::with_dimensions(Some((4, 3))));
    app.start();
    app.tick(&vec![Event::Resize(7, 5), Event::CharEvent('x')]);
    app.tick(&vec![]);
    app.finish();
    assert_eq!(
        *log.borrow(),
        vec![
            "attach (4, 3)".to_string(),
            "event Resize(7, 5)".to_string(),
            "event CharEvent('x')".to_string(),
            "update (7, 5)".to_string(),
            "update (7, 5)".to_string(),
            "detach".to_string(),
        ]
    );
}

#[test]
fn frame_pacing() {
    assert_eq!(AppStartupConfig { fps: 30 }.frame_nanos(), 33_000_000);
    assert_eq!(AppStartupConfig { fps: 1 }.frame_nanos(), 1_000_000_000);
    assert_eq!(sleep_nanos(33_000_000, 10_000_000), 23_000_000);
    assert_eq!(sleep_nanos(33_000_000, 40_000_000), 0);
    let app = App::with_parts(Blank, AppStartupConfig { fps: 50 }, blank(1, 1), EventHandler::with_dimensions(None));
    assert_eq!(app.pacing(5_000_000), 15_000_000);
    assert_eq!(app.pacing(25_000_000), 0);
}

#[test]
fn phase_type_compares() {
    assert_ne!(Phase::Constructed, Phase::Running);
}

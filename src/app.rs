use vstd::prelude::*;

use crate::event::{char_events_of, utf8_chars, Event, EventHandler};
use crate::framebuffer::{cursor_visibility_bytes, encode, fits, Framebuffer};
use crate::renderer::{background, Renderer, RendererError};

verus! {

pub struct AppStartupConfig {
    pub fps: u64,
}

#[derive(Debug, Clone, Copy, PartialEq, Eq, Structural)]
pub enum AppError {
    RendererError(RendererError),
}

/// What a scene is shown of the application when it is attached.
pub struct AppInfo<'a> {
    pub renderer: &'a Renderer,
}

/// The caller's drawing and state: told of each event, asked to draw once
/// per tick.
pub trait Scene {
    fn update(&mut self, renderer: &mut Renderer);

    fn event(&mut self, event: &Event);

    fn attach(&mut self, app_info: &AppInfo);

    fn detach(&mut self);
}

/// The nanoseconds in a millisecond.
pub const NANOS_PER_MILLI: u64 = 1_000_000;

impl AppStartupConfig {
    /// The time budget of one frame in nanoseconds: `1000 / fps` whole
    /// milliseconds.
    pub fn frame_nanos(&self) -> (r: u64)
        requires
            self.fps > 0,
        ensures
            r == (1000int / self.fps as int) * NANOS_PER_MILLI as int,
    {
        (1000 / self.fps) * NANOS_PER_MILLI
    }
}

/// What is left of a frame's budget after `elapsed` nanoseconds of work;
/// nothing where the work took the whole budget or more.
pub fn sleep_nanos(budget: u64, elapsed: u64) -> (r: u64)
    ensures
        r == if elapsed < budget {
            budget - elapsed
        } else {
            0
        },
{
    if elapsed < budget {
        budget - elapsed
    } else {
        0
    }
}


/// The terminal size after a tick's events: that of the last resize event
/// the renderer can take, or `size` where there is none.
pub open spec fn size_after(size: (int, int), events: Seq<Event>) -> (int, int)
    decreases events.len(),
{
    if events.len() == 0 {
        size
    } else {
        let before = size_after(size, events.drop_last());
        match events.last() {
            Event::Resize(w, h) => if resizable(events.last()) {
                (w as int, h as int)
            } else {
                before
            },
            _ => before,
        }
    }
}

/// A resize event that the renderer can take: both sides non-negative and
/// the grid within `MAX_CELLS`.
pub open spec fn resizable(e: Event) -> bool {
    match e {
        Event::Resize(w, h) => 0 <= w && 0 <= h && fits(w as int, h as int),
        _ => false,
    }
}

/// The application's life: constructed, then running, then stopped.
#[derive(Debug, Clone, Copy, PartialEq, Eq, Structural)]
pub enum Phase {
    Constructed,
    Running,
    Stopped,
}

/// A scene together with the renderer it draws on and the event handler
/// that feeds it.
pub struct App<S: Scene> {
    frame_nanos: u64,
    renderer: Renderer,
    scene: S,
    event_handler: EventHandler,
    phase: Phase,
    rendered: Ghost<Framebuffer>,
    output_before_render: Ghost<Seq<u8>>,
    screen_at_update: Ghost<(int, int)>,
    frames_at_events: Ghost<Seq<Framebuffer>>,
    delivered: Ghost<Seq<Event>>,
}

impl<S: Scene> App<S> {
    pub closed spec fn spec_phase(&self) -> Phase {
        self.phase
    }

    pub closed spec fn spec_renderer(&self) -> Renderer {
        self.renderer
    }

    pub closed spec fn spec_frame_nanos(&self) -> u64 {
        self.frame_nanos
    }

    /// The frame that the last tick rendered.
    pub closed spec fn last_rendered(&self) -> Framebuffer {
        self.rendered@
    }

    /// The output pending when the last tick began to render.
    pub closed spec fn last_output_before_render(&self) -> Seq<u8> {
        self.output_before_render@
    }

    /// The screen size that the scene's `update` was handed in the last tick.
    pub closed spec fn last_update_screen(&self) -> (int, int) {
        self.screen_at_update@
    }

    /// The renderer's frame at the moment the scene was handed each event of
    /// the last dispatch.
    pub closed spec fn frames_at_delivery(&self) -> Seq<Framebuffer> {
        self.frames_at_events@
    }

    /// The events handed to the scene's `event` in the last dispatch, in the
    /// order it was handed them.
    pub closed spec fn delivered_events(&self) -> Seq<Event> {
        self.delivered@
    }

    pub closed spec fn spec_event_handler(&self) -> EventHandler {
        self.event_handler
    }

    pub open spec fn screen(&self) -> (int, int) {
        (
            self.spec_renderer().frame().spec_width() as int,
            self.spec_renderer().frame().spec_height() as int,
        )
    }

    fn from_renderer(
        scene: S,
        config: AppStartupConfig,
        renderer: Renderer,
        event_handler: EventHandler,
    ) -> (r: App<S>)
        requires
            config.fps > 0,
        ensures
            r.spec_phase() == Phase::Constructed,
            r.spec_renderer() == renderer,
            r.spec_event_handler() == event_handler,
            r.spec_frame_nanos() == (1000int / config.fps as int) * NANOS_PER_MILLI as int,
    {
        let frame_nanos = config.frame_nanos();
        let ghost fb = renderer.frame();
        App {
            frame_nanos,
            renderer,
            scene,
            event_handler,
            phase: Phase::Constructed,
            rendered: Ghost(fb),
            output_before_render: Ghost(Seq::empty()),
            screen_at_update: Ghost((0, 0)),
            frames_at_events: Ghost(Seq::empty()),
            delivered: Ghost(Seq::empty()),
        }
    }

    /// An application from its parts, not yet started: the scene draws on
    /// `fb`, and the output starts by hiding the cursor.
    pub fn with_parts(
        scene: S,
        config: AppStartupConfig,
        fb: Framebuffer,
        event_handler: EventHandler,
    ) -> (r: App<S>)
        requires
            config.fps > 0,
        ensures
            r.spec_phase() == Phase::Constructed,
            r.spec_renderer().frame() == fb,
            r.spec_renderer().pending() == cursor_visibility_bytes(true),
            r.spec_event_handler() == event_handler,
            r.spec_frame_nanos() == (1000int / config.fps as int) * NANOS_PER_MILLI as int,
    {
        proof {
            use_type_invariant(&fb);
        }
        App::from_renderer(scene, config, Renderer::from_framebuffer(fb), event_handler)
    }

    /// An application on the terminal, not yet started.
    pub fn new(scene: S, config: AppStartupConfig) -> (r: Result<App<S>, AppError>)
        requires
            config.fps > 0,
        ensures
            r matches Ok(app) ==> app.spec_phase() == Phase::Constructed
                && app.spec_renderer().frame().uniform(background())
                && app.spec_renderer().pending() == cursor_visibility_bytes(true)
                && app.spec_frame_nanos() == (1000int / config.fps as int) * NANOS_PER_MILLI as int,
            r matches Err(e) ==> e is RendererError,
    {
        match Renderer::new() {
            Ok(renderer) => Ok(App::from_renderer(scene, config, renderer, EventHandler::new())),
            Err(e) => Err(AppError::RendererError(e)),
        }
    }

    /// Attaches the scene, showing it the renderer, and starts running.
    pub fn start(&mut self)
        requires
            old(self).spec_phase() == Phase::Constructed,
        ensures
            final(self).spec_phase() == Phase::Running,
            final(self).spec_renderer() == old(self).spec_renderer(),
    {
        let info = AppInfo { renderer: &self.renderer };
        self.scene.attach(&info);
        self.phase = Phase::Running;
    }

    /// The events of one poll, from the raw input read since the last one;
    /// `None` where the input is not valid UTF-8.
    pub fn poll(&mut self, input: &Vec<u8>) -> (r: Option<Vec<Event>>)
        requires
            old(self).spec_phase() == Phase::Running,
        ensures
            (r is Some) == (utf8_chars(input@) is Some),
            r matches Some(evs) ==> {
                let chars = char_events_of(utf8_chars(input@)->0);
                let before = old(self).spec_event_handler().last_size();
                let after = final(self).spec_event_handler().last_size();
                ||| evs@ == chars && after == before
                ||| evs@ == chars.push(Event::Resize(after.0, after.1)) && after != before
            },
            final(self).spec_phase() == old(self).spec_phase(),
            final(self).spec_renderer() == old(self).spec_renderer(),
    {
        self.event_handler.get_events(input)
    }

    /// Hands each event to the scene in order, resizing the renderer on a
    /// resize event before the scene hears of it.
    pub fn dispatch_events(&mut self, events: &Vec<Event>)
        requires
            old(self).spec_phase() == Phase::Running,
        ensures
            final(self).screen() == size_after(old(self).screen(), events@),
            final(self).delivered_events() == events@,
            final(self).frames_at_delivery().len() == events@.len(),
            forall|k: int|
                0 <= k < events@.len() ==> {
                    let f = #[trigger] final(self).frames_at_delivery()[k];
                    &&& (f.spec_width() as int, f.spec_height() as int) == size_after(
                        old(self).screen(),
                        events@.take(k + 1),
                    )
                    &&& resizable(events@[k]) ==> f.uniform(background())
                },
            final(self).spec_renderer().pending() == old(self).spec_renderer().pending(),
            final(self).spec_phase() == old(self).spec_phase(),
            final(self).spec_frame_nanos() == old(self).spec_frame_nanos(),
    {
        proof {
            self.frames_at_events = Ghost(Seq::empty());
            self.delivered = Ghost(Seq::empty());
        }
        let mut i: usize = 0;
        while i < events.len()
            invariant
                i <= events@.len(),
                self.screen() == size_after(old(self).screen(), events@.take(i as int)),
                self.delivered_events() == events@.take(i as int),
                self.frames_at_delivery().len() == i,
                forall|k: int|
                    0 <= k < i ==> {
                        let f = #[trigger] self.frames_at_delivery()[k];
                        &&& (f.spec_width() as int, f.spec_height() as int) == size_after(
                            old(self).screen(),
                            events@.take(k + 1),
                        )
                        &&& resizable(events@[k]) ==> f.uniform(background())
                    },
                self.spec_renderer().pending() == old(self).spec_renderer().pending(),
                self.spec_phase() == old(self).spec_phase(),
                self.spec_frame_nanos() == old(self).spec_frame_nanos(),
            decreases events@.len() - i,
        {
            let e = events[i];
            proof {
                assert(events@.take(i + 1).drop_last() =~= events@.take(i as int));
            }
            match e {
                Event::Resize(w, h) => {
                    self.renderer.resize(w, h);
                },
                _ => {},
            }
            proof {
                self.frames_at_events = Ghost(self.frames_at_events@.push(self.renderer.frame()));
                self.delivered = Ghost(self.delivered@.push(e));
                assert(events@.take(i + 1) =~= events@.take(i as int).push(e));
            }
            self.scene.event(&e);
            i += 1;
        }
        proof {
            assert(events@.take(events@.len() as int) =~= events@);
        }
    }

    /// One tick: hands the events to the scene, lets it draw on a renderer
    /// already resized by them, and renders the frame to the pending output.
    pub fn tick(&mut self, events: &Vec<Event>)
        requires
            old(self).spec_phase() == Phase::Running,
        ensures
            final(self).spec_phase() == Phase::Running,
            final(self).spec_frame_nanos() == old(self).spec_frame_nanos(),
            final(self).last_update_screen() == size_after(old(self).screen(), events@),
            final(self).spec_renderer().pending() == final(self).last_output_before_render()
                + encode(final(self).last_rendered().frame_tokens())
                + final(self).last_rendered().rewind_bytes(),
            final(self).screen() == (
                final(self).last_rendered().spec_width() as int,
                final(self).last_rendered().spec_height() as int,
            ),
            final(self).spec_renderer().frame().uniform(background()),
    {
        self.dispatch_events(events);
        proof {
            self.screen_at_update = Ghost(self.screen());
        }
        self.scene.update(&mut self.renderer);
        proof {
            self.rendered = Ghost(self.renderer.frame());
            self.output_before_render = Ghost(self.renderer.pending());
        }
        self.renderer.render();
    }

    /// The time to sleep after a tick that took `elapsed` nanoseconds.
    pub fn pacing(&self, elapsed: u64) -> (r: u64)
        ensures
            r == if elapsed < self.spec_frame_nanos() {
                self.spec_frame_nanos() - elapsed
            } else {
                0
            },
    {
        sleep_nanos(self.frame_nanos, elapsed)
    }

    /// Hands over the rendered output, leaving none.
    pub fn take_output(&mut self) -> (r: Vec<u8>)
        ensures
            r@ == old(self).spec_renderer().pending(),
            final(self).spec_renderer().pending() == Seq::<u8>::empty(),
            final(self).spec_phase() == old(self).spec_phase(),
    {
        self.renderer.take_output()
    }

    /// Stops: detaches the scene and adds one blank line per row of the
    /// screen, so that the last frame stays above whatever follows.
    pub fn finish(&mut self)
        requires
            old(self).spec_phase() == Phase::Running,
        ensures
            final(self).spec_phase() == Phase::Stopped,
            final(self).spec_renderer().pending() == old(self).spec_renderer().pending() + Seq::new(
                old(self).screen().1 as nat,
                |i: int| 10u8,
            ),
    {
        self.scene.detach();
        let (_, h) = self.renderer.screen_size();
        let mut blank: Vec<u8> = Vec::new();
        let mut k: i64 = 0;
        while k < h
            invariant
                0 <= k <= h,
                h == old(self).screen().1,
                blank@ == Seq::new(k as nat, |i: int| 10u8),
            decreases h - k,
        {
            blank.push(10);
            k += 1;
            proof {
                assert(blank@ =~= Seq::new(k as nat, |i: int| 10u8));
            }
        }
        self.renderer.append_output(&blank);
        self.phase = Phase::Stopped;
    }

    /// Shows the cursor again, whatever the phase.
    pub fn restore_cursor(&mut self)
        ensures
            final(self).spec_renderer().pending() == old(self).spec_renderer().pending()
                + crate::framebuffer::cursor_visibility_bytes(false),
            final(self).spec_phase() == old(self).spec_phase(),
    {
        self.renderer.restore_cursor();
    }
}

} // verus!

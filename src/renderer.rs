use vstd::prelude::*;

use crate::color::Color;
use crate::framebuffer::{
    blitted, cursor_visibility_bytes, encode, fits, fits_exec, line_points, painted, Framebuffer,
    FramebufferError, MAX_CELLS,
};

verus! {

#[derive(Debug, Clone, Copy, PartialEq, Eq, Structural)]
pub enum RendererError {
    FBError(FramebufferError),
}

/// The colour a frame starts from.
pub open spec fn background() -> Color {
    Color { red: 0, green: 0, blue: 0 }
}

/// A framebuffer together with the bytes rendered from it that are still to
/// be written out.
pub struct Renderer {
    out: Vec<u8>,
    fb: Framebuffer,
}

impl Renderer {
    /// The framebuffer that drawing calls write to.
    pub closed spec fn frame(&self) -> Framebuffer {
        self.fb
    }

    /// The bytes rendered and not yet taken.
    pub closed spec fn pending(&self) -> Seq<u8> {
        self.out@
    }

    /// A renderer drawing into `fb`; its output starts by hiding the cursor.
    pub(crate) fn from_framebuffer(fb: Framebuffer) -> (r: Renderer)
        requires
            fb.wf(),
        ensures
            r.frame() == fb,
            r.pending() == cursor_visibility_bytes(true),
    {
        let mut out: Vec<u8> = Vec::new();
        fb.hide_cursor(&mut out, true);
        Renderer { out, fb }
    }

    /// A renderer the size of the terminal, with a blank frame.
    pub(crate) fn new() -> (r: Result<Renderer, RendererError>)
        ensures
            r matches Ok(rd) ==> rd.frame().wf() && rd.frame().uniform(background())
                && rd.pending() == cursor_visibility_bytes(true),
            r matches Err(e) ==> e == RendererError::FBError(FramebufferError::CantGetTerminalSize),
    {
        match Framebuffer::new_terminal_size(Color::grey(0)) {
            Ok(fb) => Ok(Renderer::from_framebuffer(fb)),
            Err(e) => Err(RendererError::FBError(e)),
        }
    }

    pub fn pixel(&mut self, x: i64, y: i64, color: Color) -> (r: bool)
        ensures
            r == old(self).frame().in_bounds(x as int, y as int),
            painted(old(self).frame(), final(self).frame(), set![(x as int, y as int)], color),
            final(self).pending() == old(self).pending(),
    {
        proof {
            use_type_invariant(&self.fb);
        }
        self.fb.pixel(x, y, color)
    }

    pub fn line(&mut self, x0: i64, y0: i64, x1: i64, y1: i64, color: Color)
        ensures
            painted(
                old(self).frame(),
                final(self).frame(),
                line_points(x0 as int, y0 as int, x1 as int, y1 as int),
                color,
            ),
            final(self).pending() == old(self).pending(),
    {
        proof {
            use_type_invariant(&self.fb);
        }
        self.fb.line(x0, y0, x1, y1, color);
    }

    pub fn draw_framebuffer(&mut self, x: i64, y: i64, fb: &Framebuffer)
        ensures
            blitted(old(self).frame(), final(self).frame(), x as int, y as int, *fb),
            final(self).pending() == old(self).pending(),
    {
        proof {
            use_type_invariant(&self.fb);
            use_type_invariant(fb);
        }
        self.fb.draw_framebuffer(x, y, fb);
    }

    /// The frame's `(width, height)` in cells.
    pub fn screen_size(&self) -> (r: (i64, i64))
        ensures
            r.0 == self.frame().spec_width(),
            r.1 == self.frame().spec_height(),
    {
        proof {
            use_type_invariant(&self.fb);
            assert(MAX_CELLS as int <= 0x2AAA_AAAA_AAAA_AAAA);
        }
        (self.fb.width() as i64, self.fb.height() as i64)
    }

    /// Renders the frame to the pending output, moves the cursor back to the
    /// frame's first line, and blanks the frame for the next tick.
    pub(crate) fn render(&mut self)
        ensures
            final(self).pending() == old(self).pending() + encode(old(self).frame().frame_tokens())
                + old(self).frame().rewind_bytes(),
            final(self).frame().spec_width() == old(self).frame().spec_width(),
            final(self).frame().spec_height() == old(self).frame().spec_height(),
            final(self).frame().uniform(background()),
    {
        proof {
            use_type_invariant(&self.fb);
        }
        self.fb.serialize(&mut self.out);
        self.fb.reset_cursor(&mut self.out);
        self.fb.clear(Color::grey(0));
    }

    /// Replaces the frame with a blank `w` by `h` one and returns true; where
    /// `w` or `h` is negative or the grid too large, changes nothing and
    /// returns false.
    pub(crate) fn resize(&mut self, w: i64, h: i64) -> (r: bool)
        ensures
            r == (0 <= w && 0 <= h && fits(w as int, h as int)),
            r ==> final(self).frame().spec_width() == w && final(self).frame().spec_height() == h
                && final(self).frame().uniform(background()),
            !r ==> final(self).frame() == old(self).frame(),
            final(self).pending() == old(self).pending(),
    {
        if w < 0 || h < 0 {
            return false;
        }
        let wu = w as u64 as usize;
        let hu = h as u64 as usize;
        if (w as u64) > (MAX_CELLS as u64) || (h as u64) > (MAX_CELLS as u64) {
            return false;
        }
        if !fits_exec(wu, hu) {
            return false;
        }
        self.fb = Framebuffer::new(wu, hu, Color::black());
        true
    }

    /// Hands over the pending output, leaving none.
    pub(crate) fn take_output(&mut self) -> (r: Vec<u8>)
        ensures
            r@ == old(self).pending(),
            final(self).pending() == Seq::<u8>::empty(),
            final(self).frame() == old(self).frame(),
    {
        let mut r: Vec<u8> = Vec::new();
        std::mem::swap(&mut r, &mut self.out);
        r
    }

    /// Appends the sequence that shows the cursor again.
    pub(crate) fn restore_cursor(&mut self)
        ensures
            final(self).pending() == old(self).pending() + cursor_visibility_bytes(false),
            final(self).frame() == old(self).frame(),
    {
        self.fb.hide_cursor(&mut self.out, false);
    }

    /// Appends bytes to the pending output.
    pub(crate) fn append_output(&mut self, bytes: &Vec<u8>)
        ensures
            final(self).pending() == old(self).pending() + bytes@,
            final(self).frame() == old(self).frame(),
    {
        let mut i: usize = 0;
        while i < bytes.len()
            invariant
                i <= bytes@.len(),
                self.out@ == old(self).out@ + bytes@.take(i as int),
                self.fb == old(self).fb,
            decreases bytes@.len() - i,
        {
            self.out.push(bytes[i]);
            i += 1;
            proof {
                assert(self.out@ =~= old(self).out@ + bytes@.take(i as int));
            }
        }
        proof {
            assert(bytes@.take(bytes@.len() as int) =~= bytes@);
        }
    }
}

} // verus!

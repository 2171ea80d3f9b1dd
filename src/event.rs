use vstd::prelude::*;

use crate::terminal::terminal_dimensions;

verus! {

#[derive(Debug, Clone, Copy, PartialEq, Eq, Structural)]
pub enum Event {
    CharEvent(char),
    Resize(i64, i64),
}

/// The byte that the raw input reader uses to mark the end of a burst; it is
/// not a keystroke.
pub const END_OF_BURST: char = '\u{1}';

/// The characters that `bytes` encode as UTF-8, or `None` where they are not
/// valid UTF-8.
pub uninterp spec fn utf8_chars(bytes: Seq<u8>) -> Option<Seq<char>>;

/// Relies on `std::str::from_utf8`: the characters of `bytes` where they are
/// valid UTF-8, an error where they are not.
#[verifier::external_body]
fn decode_utf8(bytes: &Vec<u8>) -> (r: Option<Vec<char>>)
    ensures
        (r is Some) == (utf8_chars(bytes@) is Some),
        r matches Some(cs) ==> utf8_chars(bytes@) == Some(cs@),
{
    std::str::from_utf8(bytes.as_slice()).ok().map(|s| s.chars().collect())
}

/// One character event per character, the end-of-burst marker left out.
pub open spec fn char_events_of(cs: Seq<char>) -> Seq<Event>
    decreases cs.len(),
{
    if cs.len() == 0 {
        seq![]
    } else {
        let rest = char_events_of(cs.drop_last());
        if cs.last() == END_OF_BURST {
            rest
        } else {
            rest.push(Event::CharEvent(cs.last()))
        }
    }
}

/// Terminal dimensions as event coordinates: `(0, 0)` where there are none
/// or they do not fit an `i64`.
pub open spec fn size_of(dims: Option<(usize, usize)>) -> (i64, i64) {
    match dims {
        Some((w, h)) => if w <= i64::MAX && h <= i64::MAX {
            (w as i64, h as i64)
        } else {
            (0, 0)
        },
        None => (0, 0),
    }
}

/// Turns raw input and terminal dimensions into events.
pub struct EventHandler {
    width: i64,
    height: i64,
}

fn size_of_exec(dims: Option<(usize, usize)>) -> (r: (i64, i64))
    ensures
        r == size_of(dims),
{
    match dims {
        Some((w, h)) => {
            if w as u64 <= i64::MAX as u64 && h as u64 <= i64::MAX as u64 {
                (w as u64 as i64, h as u64 as i64)
            } else {
                (0, 0)
            }
        },
        None => (0, 0),
    }
}

impl EventHandler {
    /// The terminal size last observed, `(width, height)`.
    pub closed spec fn last_size(&self) -> (i64, i64) {
        (self.width, self.height)
    }

    /// A handler that has observed the given dimensions.
    pub fn with_dimensions(dims: Option<(usize, usize)>) -> (r: EventHandler)
        ensures
            r.last_size() == size_of(dims),
    {
        let (width, height) = size_of_exec(dims);
        EventHandler { width, height }
    }

    /// A handler that has observed the terminal's current dimensions.
    pub fn new() -> (r: EventHandler)
        ensures
            r.last_size().0 >= 0 && r.last_size().1 >= 0,
    {
        EventHandler::with_dimensions(terminal_dimensions())
    }

    /// The character events of decoded input.
    pub fn char_events(chars: &Vec<char>) -> (r: Vec<Event>)
        ensures
            r@ == char_events_of(chars@),
    {
        let mut r: Vec<Event> = Vec::new();
        let mut i: usize = 0;
        while i < chars.len()
            invariant
                i <= chars@.len(),
                r@ == char_events_of(chars@.take(i as int)),
            decreases chars@.len() - i,
        {
            let c = chars[i];
            proof {
                assert(chars@.take(i + 1).drop_last() =~= chars@.take(i as int));
            }
            if c != END_OF_BURST {
                r.push(Event::CharEvent(c));
            }
            i += 1;
        }
        proof {
            assert(chars@.take(chars@.len() as int) =~= chars@);
        }
        r
    }

    /// The character events of raw input bytes; `None` where they are not
    /// valid UTF-8.
    pub fn decode_events(input: &Vec<u8>) -> (r: Option<Vec<Event>>)
        ensures
            (r is Some) == (utf8_chars(input@) is Some),
            r matches Some(evs) ==> evs@ == char_events_of(utf8_chars(input@)->0),
    {
        match decode_utf8(input) {
            Some(chars) => Some(EventHandler::char_events(&chars)),
            None => None,
        }
    }

    /// A resize event where `dims` differ from the size last observed, which
    /// they then replace; `None` and no change otherwise. Unavailable
    /// dimensions count as `(0, 0)` only when first observed, and are
    /// otherwise ignored.
    pub fn resize_event(&mut self, dims: Option<(usize, usize)>) -> (r: Option<Event>)
        ensures
            dims is Some && size_of(dims) != old(self).last_size() ==> r == Some(
                Event::Resize(size_of(dims).0, size_of(dims).1),
            ) && final(self).last_size() == size_of(dims),
            !(dims is Some && size_of(dims) != old(self).last_size()) ==> r is None
                && final(self).last_size() == old(self).last_size(),
    {
        match dims {
            Some(_) => {
                let (w, h) = size_of_exec(dims);
                if self.width != w || self.height != h {
                    self.width = w;
                    self.height = h;
                    Some(Event::Resize(w, h))
                } else {
                    None
                }
            },
            None => None,
        }
    }

    /// The events of one poll, given the raw input read since the last one
    /// and the terminal's dimensions now: the character events in order, then
    /// a resize event if the size changed. `None`, with nothing changed, where
    /// the input is not valid UTF-8.
    pub fn events_with(&mut self, input: &Vec<u8>, dims: Option<(usize, usize)>) -> (r: Option<
        Vec<Event>,
    >)
        ensures
            (r is Some) == (utf8_chars(input@) is Some),
            r is None ==> final(self).last_size() == old(self).last_size(),
            r matches Some(evs) ==> {
                let chars = char_events_of(utf8_chars(input@)->0);
                if dims is Some && size_of(dims) != old(self).last_size() {
                    evs@ == chars.push(Event::Resize(size_of(dims).0, size_of(dims).1))
                        && final(self).last_size() == size_of(dims)
                } else {
                    evs@ == chars && final(self).last_size() == old(self).last_size()
                }
            },
    {
        match EventHandler::decode_events(input) {
            Some(mut evs) => {
                match self.resize_event(dims) {
                    Some(e) => evs.push(e),
                    None => {},
                }
                Some(evs)
            },
            None => None,
        }
    }

    /// The events of one poll, given the raw input read since the last one,
    /// with the terminal's dimensions queried now.
    pub fn get_events(&mut self, input: &Vec<u8>) -> (r: Option<Vec<Event>>)
        ensures
            (r is Some) == (utf8_chars(input@) is Some),
            r matches Some(evs) ==> {
                let chars = char_events_of(utf8_chars(input@)->0);
                ||| evs@ == chars && final(self).last_size() == old(self).last_size()
                ||| evs@ == chars.push(
                    Event::Resize(final(self).last_size().0, final(self).last_size().1),
                ) && final(self).last_size() != old(self).last_size()
            },
    {
        self.events_with(input, terminal_dimensions())
    }
}

} // verus!

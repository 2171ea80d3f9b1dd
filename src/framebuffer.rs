use vstd::prelude::*;

use crate::color::{digit, reset_bytes, set_color_bytes, Color};
use crate::terminal::terminal_dimensions;

verus! {

/// The most cells a framebuffer may hold: a `Vec` of three-byte colours can
/// take at most `isize::MAX` bytes.
pub const MAX_CELLS: usize = usize::MAX / 6;

#[derive(Debug, Clone, Copy, PartialEq, Eq, Structural)]
pub enum FramebufferError {
    CantGetTerminalSize,
    OutOfBoundsError,
}

/// A grid of colours, stored row by row.
pub struct Framebuffer {
    colors: Vec<Color>,
    width: usize,
    height: usize,
}

/// A `width` by `height` grid can be held: neither side, nor the number of
/// cells, exceeds `MAX_CELLS`.
pub open spec fn fits(width: int, height: int) -> bool {
    width <= MAX_CELLS && height <= MAX_CELLS && width * height <= MAX_CELLS
}

/// `y * w + x`, the position of cell `(x, y)` in a row-major grid of width `w`.
pub open spec fn cell_index(w: int, x: int, y: int) -> int {
    y * w + x
}

pub proof fn lemma_cell_index_bounds(w: int, h: int, x: int, y: int)
    requires
        0 <= x < w,
        0 <= y < h,
    ensures
        0 <= cell_index(w, x, y) < w * h,
{
    assert(0 <= y * w + x < w * h) by (nonlinear_arith)
        requires
            0 <= x < w,
            0 <= y < h,
    ;
}

pub proof fn lemma_cell_index_distinct(w: int, x1: int, y1: int, x2: int, y2: int)
    requires
        0 <= x1 < w,
        0 <= x2 < w,
        0 <= y1,
        0 <= y2,
        x1 != x2 || y1 != y2,
    ensures
        cell_index(w, x1, y1) != cell_index(w, x2, y2),
{
    if y1 < y2 {
        assert(y1 * w + x1 < y2 * w + x2) by (nonlinear_arith)
            requires
                0 <= x1 < w,
                0 <= x2,
                y1 < y2,
        ;
    } else if y2 < y1 {
        assert(y2 * w + x2 < y1 * w + x1) by (nonlinear_arith)
            requires
                0 <= x2 < w,
                0 <= x1,
                y2 < y1,
        ;
    }
}

/// `after` is `before`, same size, with the cells of `touched` that lie on
/// the grid set to `c`.
pub open spec fn painted(before: Framebuffer, after: Framebuffer, touched: Set<(int, int)>, c: Color) -> bool {
    &&& after.wf()
    &&& after.spec_width() == before.spec_width()
    &&& after.spec_height() == before.spec_height()
    &&& forall|px: int, py: int| #[trigger]
        after.in_bounds(px, py) ==> after.at(px, py) == if touched.contains((px, py)) {
            c
        } else {
            before.at(px, py)
        }
}

/// `after` is `before`, same size, with `src` copied on top of it, corner at
/// `(x, y)`, clipped to the grid.
pub open spec fn blitted(before: Framebuffer, after: Framebuffer, x: int, y: int, src: Framebuffer) -> bool {
    &&& after.wf()
    &&& after.spec_width() == before.spec_width()
    &&& after.spec_height() == before.spec_height()
    &&& forall|px: int, py: int| #[trigger]
        after.in_bounds(px, py) ==> after.at(px, py) == if src.in_bounds(px - x, py - y) {
            src.at(px - x, py - y)
        } else {
            before.at(px, py)
        }
}

/// `r` is `src` resampled to `width` by `height`, cell by cell the area
/// average of what it covers.
pub open spec fn resampled(src: Framebuffer, r: Framebuffer, width: int, height: int) -> bool {
    &&& r.wf()
    &&& r.spec_width() == width
    &&& r.spec_height() == height
    &&& forall|i: int, j: int| #[trigger]
        r.in_bounds(i, j) ==> r.at(i, j) == src.area_average(width, height, i, j)
}

/// `v` as an index, where `0 <= v < bound`.
fn below(v: i64, bound: usize) -> (r: Option<usize>)
    ensures
        r == if 0 <= v < bound {
            Some(v as usize)
        } else {
            None::<usize>
        },
{
    if v < 0 || v as u64 >= bound as u64 {
        None
    } else {
        Some(v as u64 as usize)
    }
}

impl Framebuffer {
    /// Every framebuffer is well formed.
    #[verifier::type_invariant]
    pub open spec fn inv(self) -> bool {
        self.wf()
    }

    pub closed spec fn spec_width(&self) -> nat {
        self.width as nat
    }

    pub closed spec fn spec_height(&self) -> nat {
        self.height as nat
    }

    /// The cells in row-major order.
    pub closed spec fn cells(&self) -> Seq<Color> {
        self.colors@
    }

    /// One cell per grid position, and no more than a `Vec` can hold.
    pub open spec fn wf(&self) -> bool {
        &&& self.cells().len() == self.spec_width() * self.spec_height()
        &&& fits(self.spec_width() as int, self.spec_height() as int)
    }

    pub open spec fn in_bounds(&self, x: int, y: int) -> bool {
        0 <= x < self.spec_width() && 0 <= y < self.spec_height()
    }

    /// The colour at column `x`, row `y`.
    pub open spec fn at(&self, x: int, y: int) -> Color {
        self.cells()[cell_index(self.spec_width() as int, x, y)]
    }

    /// Every cell holds `c`.
    pub open spec fn uniform(&self, c: Color) -> bool {
        forall|x: int, y: int| #[trigger] self.in_bounds(x, y) ==> self.at(x, y) == c
    }

    proof fn lemma_uniform(&self, c: Color)
        requires
            self.wf(),
            forall|i: int| 0 <= i < self.cells().len() ==> self.cells()[i] == c,
        ensures
            self.uniform(c),
    {
        assert forall|x: int, y: int| #[trigger] self.in_bounds(x, y) implies self.at(x, y) == c by {
            lemma_cell_index_bounds(self.spec_width() as int, self.spec_height() as int, x, y);
        }
    }

    /// A `width` by `height` framebuffer with every cell set to `color`.
    pub fn new(width: usize, height: usize, color: Color) -> (r: Framebuffer)
        requires
            fits(width as int, height as int),
        ensures
            r.wf(),
            r.spec_width() == width,
            r.spec_height() == height,
            r.uniform(color),
    {
        let n: usize = width * height;
        let mut colors: Vec<Color> = Vec::with_capacity(n);
        let mut i: usize = 0;
        while i < n
            invariant
                i <= n,
                colors@.len() == i,
                forall|k: int| 0 <= k < i ==> colors@[k] == color,
            decreases n - i,
        {
            colors.push(color);
            i += 1;
        }
        let r = Framebuffer { colors, width, height };
        proof {
            r.lemma_uniform(color);
        }
        r
    }

    pub fn width(&self) -> (r: usize)
        ensures
            r == self.spec_width(),
    {
        self.width
    }

    pub fn height(&self) -> (r: usize)
        ensures
            r == self.spec_height(),
    {
        self.height
    }

    /// Overwrites every cell with `color`.
    pub fn clear(&mut self, color: Color)
        requires
            old(self).wf(),
        ensures
            final(self).wf(),
            final(self).spec_width() == old(self).spec_width(),
            final(self).spec_height() == old(self).spec_height(),
            final(self).uniform(color),
    {
        let n = self.colors.len();
        let mut i: usize = 0;
        while i < n
            invariant
                i <= n,
                self.colors@.len() == n,
                self.wf(),
                self.width == old(self).width,
                self.height == old(self).height,
                forall|k: int| 0 <= k < i ==> self.colors@[k] == color,
            decreases n - i,
        {
            self.colors[i] = color;
            i += 1;
        }
        proof {
            self.lemma_uniform(color);
        }
    }

    /// The colour at `(x, y)`, or `OutOfBoundsError` where that is off the grid.
    pub fn get_pixel(&self, x: i64, y: i64) -> (r: Result<Color, FramebufferError>)
        requires
            self.wf(),
        ensures
            r == if self.in_bounds(x as int, y as int) {
                Ok(self.at(x as int, y as int))
            } else {
                Err(FramebufferError::OutOfBoundsError)
            },
    {
        let (xu, yu) = match (below(x, self.width), below(y, self.height)) {
            (Some(xu), Some(yu)) => (xu, yu),
            _ => return Err(FramebufferError::OutOfBoundsError),
        };
        proof {
            lemma_cell_index_bounds(self.width as int, self.height as int, x as int, y as int);
        }
        Ok(self.colors[yu * self.width + xu])
    }

    /// Sets the cell at `(x, y)` to `color` and returns true; off the grid it
    /// changes nothing and returns false.
    pub fn pixel(&mut self, x: i64, y: i64, color: Color) -> (r: bool)
        requires
            old(self).wf(),
        ensures
            r == old(self).in_bounds(x as int, y as int),
            painted(*old(self), *final(self), set![(x as int, y as int)], color),
            !r ==> *final(self) == *old(self),
    {
        let (xu, yu) = match (below(x, self.width), below(y, self.height)) {
            (Some(xu), Some(yu)) => (xu, yu),
            _ => return false,
        };
        proof {
            lemma_cell_index_bounds(self.width as int, self.height as int, x as int, y as int);
        }
        self.colors[yu * self.width + xu] = color;
        proof {
            assert forall|px: int, py: int| #[trigger]
                self.in_bounds(px, py) implies self.at(px, py) == if px == x && py == y {
                color
            } else {
                old(self).at(px, py)
            } by {
                lemma_cell_index_bounds(self.width as int, self.height as int, px, py);
                if px != x || py != y {
                    lemma_cell_index_distinct(self.width as int, px, py, x as int, y as int);
                }
            }
        }
        true
    }
}


/// One unit of what `serialize` writes.
pub enum Token {
    /// A colour set as foreground and background.
    SetColor(Color),
    /// One cell: a blank glyph in the current colour.
    Cell,
    /// A neutral reset sequence.
    Reset,
    /// A line feed between two rows.
    RowBreak,
}

pub open spec fn token_bytes(t: Token) -> Seq<u8> {
    match t {
        Token::SetColor(c) => set_color_bytes(c),
        Token::Cell => seq![32u8],
        Token::Reset => reset_bytes(),
        Token::RowBreak => seq![10u8],
    }
}

/// The bytes of a token stream.
pub open spec fn encode(ts: Seq<Token>) -> Seq<u8>
    decreases ts.len(),
{
    if ts.len() == 0 {
        seq![]
    } else {
        encode(ts.drop_last()) + token_bytes(ts.last())
    }
}

pub proof fn lemma_encode_push(ts: Seq<Token>, t: Token)
    ensures
        encode(ts.push(t)) == encode(ts) + token_bytes(t),
{
    assert(ts.push(t).drop_last() =~= ts);
}

/// `n` in decimal ASCII digits, without leading zeros.
pub open spec fn decimal(n: nat) -> Seq<u8>
    decreases n,
{
    if n < 10 {
        seq![digit(n as int)]
    } else {
        decimal(n / 10).push(digit((n % 10) as int))
    }
}

/// Appends `n` in decimal.
fn push_decimal(out: &mut Vec<u8>, n: usize)
    ensures
        final(out)@ == old(out)@ + decimal(n as nat),
    decreases n,
{
    if n >= 10 {
        push_decimal(out, n / 10);
    }
    out.push(48 + (n % 10) as u8);
    assert(final(out)@ =~= old(out)@ + decimal(n as nat));
}

/// `ESC [ ? 25 l` hides the cursor, `ESC [ ? 25 h` shows it.
pub open spec fn cursor_visibility_bytes(hide: bool) -> Seq<u8> {
    seq![27u8, 91u8, 63u8, 50u8, 53u8, if hide { 108u8 } else { 104u8 }]
}

/// `ESC [ n F`: the cursor to the start of the line `n` lines up.
pub open spec fn cursor_up_bytes(n: nat) -> Seq<u8> {
    seq![27u8, 91u8] + decimal(n) + seq![70u8]
}

impl Framebuffer {
    /// Cell `x` of row `y` begins a run of equal colours.
    pub open spec fn starts_run(&self, x: int, y: int) -> bool {
        x == 0 || self.at(x, y) != self.at(x - 1, y)
    }

    /// The tokens of the first `k` cells of row `y`: a colour set at the
    /// start of each run, then one cell token per cell.
    pub open spec fn row_prefix_tokens(&self, y: int, k: nat) -> Seq<Token>
        decreases k,
    {
        if k == 0 {
            seq![]
        } else {
            let x = k - 1;
            let before = self.row_prefix_tokens(y, (k - 1) as nat);
            let set = if self.starts_run(x, y) {
                before.push(Token::SetColor(self.at(x, y)))
            } else {
                before
            };
            set.push(Token::Cell)
        }
    }

    /// The tokens of row `y`: its cells, then, unless it is the last row, a
    /// reset and a row break.
    pub open spec fn row_tokens(&self, y: int) -> Seq<Token> {
        let cells = self.row_prefix_tokens(y, self.spec_width());
        if y + 1 < self.spec_height() {
            cells.push(Token::Reset).push(Token::RowBreak)
        } else {
            cells
        }
    }

    /// The tokens of the first `n` rows.
    pub open spec fn rows_tokens(&self, n: nat) -> Seq<Token>
        decreases n,
    {
        if n == 0 {
            seq![]
        } else {
            self.rows_tokens((n - 1) as nat) + self.row_tokens(n - 1)
        }
    }

    /// The tokens of the whole frame.
    pub open spec fn frame_tokens(&self) -> Seq<Token> {
        self.rows_tokens(self.spec_height())
    }

    /// Appends the frame: row by row, a colour set only where the colour
    /// changes within the row, and a reset and a line feed between
    /// rows.
    pub fn serialize(&self, out: &mut Vec<u8>)
        requires
            self.wf(),
        ensures
            final(out)@ == old(out)@ + encode(self.frame_tokens()),
    {
        let ghost start = out@;
        let ghost mut base: Seq<Token> = seq![];
        let mut y: usize = 0;
        while y < self.height
            invariant
                self.wf(),
                y <= self.height,
                base == self.rows_tokens(y as nat),
                out@ == start + encode(base),
            decreases self.height - y,
        {
            let ghost mut row: Seq<Token> = seq![];
            let mut last = Color { red: 0, green: 0, blue: 0 };
            let mut x: usize = 0;
            while x < self.width
                invariant
                    self.wf(),
                    y < self.height,
                    x <= self.width,
                    base == self.rows_tokens(y as nat),
                    row == self.row_prefix_tokens(y as int, x as nat),
                    out@ == start + encode(base + row),
                    x > 0 ==> last == self.at(x - 1, y as int),
                decreases self.width - x,
            {
                proof {
                    lemma_cell_index_bounds(self.width as int, self.height as int, x as int, y as int);
                }
                let c = self.colors[y * self.width + x];
                if x == 0 || c != last {
                    c.apply(out);
                    proof {
                        lemma_encode_push(base + row, Token::SetColor(c));
                        assert(base + row.push(Token::SetColor(c)) =~= (base + row).push(Token::SetColor(c)));
                        row = row.push(Token::SetColor(c));
                    }
                }
                out.push(32);
                proof {
                    lemma_encode_push(base + row, Token::Cell);
                    assert(base + row.push(Token::Cell) =~= (base + row).push(Token::Cell));
                    row = row.push(Token::Cell);
                }
                last = c;
                x += 1;
            }
            if y + 1 < self.height {
                Color::reset(out);
                proof {
                    lemma_encode_push(base + row, Token::Reset);
                    assert(base + row.push(Token::Reset) =~= (base + row).push(Token::Reset));
                    row = row.push(Token::Reset);
                }
                out.push(10);
                proof {
                    lemma_encode_push(base + row, Token::RowBreak);
                    assert(base + row.push(Token::RowBreak) =~= (base + row).push(Token::RowBreak));
                    row = row.push(Token::RowBreak);
                }
            }
            proof {
                assert(row == self.row_tokens(y as int));
                base = base + row;
            }
            y += 1;
        }
    }

    /// Appends the sequence that hides (`hide`) or shows the cursor.
    pub fn hide_cursor(&self, out: &mut Vec<u8>, hide: bool)
        ensures
            final(out)@ == old(out)@ + cursor_visibility_bytes(hide),
    {
        out.push(27);
        out.push(91);
        out.push(63);
        out.push(50);
        out.push(53);
        out.push(if hide { 108 } else { 104 });
        assert(final(out)@ =~= old(out)@ + cursor_visibility_bytes(hide));
    }

    /// What `reset_cursor` writes.
    pub open spec fn rewind_bytes(&self) -> Seq<u8> {
        cursor_up_bytes(if self.spec_height() == 0 { 0 } else { (self.spec_height() - 1) as nat })
    }

    /// Appends the sequence that moves the cursor up `height - 1` lines (none
    /// for an empty frame), so that the next frame overwrites this one.
    pub fn reset_cursor(&self, out: &mut Vec<u8>)
        ensures
            final(out)@ == old(out)@ + self.rewind_bytes(),
    {
        out.push(27);
        out.push(91);
        push_decimal(out, self.height.saturating_sub(1));
        out.push(70);
        assert(final(out)@ =~= old(out)@ + self.rewind_bytes());
    }
}


/// The source coordinate of sample `sub` (0 to 4) across destination cell
/// `k`, when a source extent `src_dim` is scaled to `dst_dim`: the cell's span
/// `[k * src_dim / dst_dim, (k + 1) * src_dim / dst_dim)` split in five, truncated.
pub open spec fn sample_coord(k: int, sub: int, src_dim: int, dst_dim: int) -> int {
    ((5 * k + sub) * src_dim) / (5 * dst_dim)
}

/// `a <= m` where `a * b <= m` and `b >= 1`.
proof fn lemma_factor_le(a: int, b: int, m: int)
    requires
        a >= 0,
        b >= 1,
        a * b <= m,
    ensures
        a <= m,
{
    assert(a <= a * b) by (nonlinear_arith)
        requires
            a >= 0,
            b >= 1,
    ;
}

/// The products of `sample_coord` fit in a `u128`.
proof fn lemma_sample_fits(k: int, sub: int, src_dim: int, dst_dim: int)
    requires
        0 <= k < dst_dim <= MAX_CELLS,
        0 <= sub <= 5,
        0 <= src_dim <= MAX_CELLS,
    ensures
        (5 * k + sub) * src_dim <= u128::MAX,
        5 * dst_dim <= u128::MAX,
        0 <= sample_coord(k, sub, src_dim, dst_dim),
{
    let m = MAX_CELLS as int;
    assert(m <= 0x2AAA_AAAA_AAAA_AAAA);
    assert((5 * k + sub) * src_dim <= 5 * m * m) by (nonlinear_arith)
        requires
            0 <= k < dst_dim <= m,
            0 <= sub <= 5,
            0 <= src_dim <= m,
    ;
    assert(5 * m * m <= 5 * 0x2AAA_AAAA_AAAA_AAAA * 0x2AAA_AAAA_AAAA_AAAA) by (nonlinear_arith)
        requires
            0 <= m <= 0x2AAA_AAAA_AAAA_AAAA,
    ;
    assert(0 <= (5 * k + sub) * src_dim) by (nonlinear_arith)
        requires
            0 <= k,
            0 <= sub,
            0 <= src_dim,
    ;
}

/// The first sample of a cell, its span's origin, lies inside the source.
pub(crate) proof fn lemma_origin_sample(k: int, src_dim: int, dst_dim: int)
    requires
        0 <= k < dst_dim,
        1 <= src_dim,
    ensures
        sample_coord(k, 0, src_dim, dst_dim) < src_dim,
{
    assert((5 * k) * src_dim < (5 * dst_dim) * src_dim) by (nonlinear_arith)
        requires
            0 <= k < dst_dim,
            1 <= src_dim,
    ;
    assert(((5 * k) * src_dim) / (5 * dst_dim) < src_dim) by (nonlinear_arith)
        requires
            (5 * k) * src_dim < (5 * dst_dim) * src_dim,
            0 <= k,
            1 <= dst_dim,
    ;
}

impl Framebuffer {
    /// Sample `t` (0 to 24, row by row on a 5 by 5 grid) of destination cell
    /// `(i, j)` when this framebuffer is scaled to `w` by `h`, where it falls
    /// inside this framebuffer.
    pub open spec fn sample(&self, w: int, h: int, i: int, j: int, t: int) -> Option<Color> {
        let x = sample_coord(i, t % 5, self.spec_width() as int, w);
        let y = sample_coord(j, t / 5, self.spec_height() as int, h);
        if self.in_bounds(x, y) {
            Some(self.at(x, y))
        } else {
            None
        }
    }

    /// Channel sums and count of the samples among the first `t` that fall
    /// inside this framebuffer.
    pub open spec fn sample_sums(&self, w: int, h: int, i: int, j: int, t: nat) -> (
        int,
        int,
        int,
        int,
    )
        decreases t,
    {
        if t == 0 {
            (0, 0, 0, 0)
        } else {
            let p = self.sample_sums(w, h, i, j, (t - 1) as nat);
            match self.sample(w, h, i, j, t - 1) {
                Some(c) => (p.0 + c.red, p.1 + c.green, p.2 + c.blue, p.3 + 1),
                None => p,
            }
        }
    }

    /// The colour of destination cell `(i, j)` when this framebuffer is scaled
    /// to `w` by `h`: the truncated mean of the samples that fall inside.
    pub open spec fn area_average(&self, w: int, h: int, i: int, j: int) -> Color {
        let s = self.sample_sums(w, h, i, j, 25);
        Color { red: (s.0 / s.3) as u8, green: (s.1 / s.3) as u8, blue: (s.2 / s.3) as u8 }
    }

    fn sample_linear(&self, w: usize, h: usize, i: usize, j: usize) -> (r: Color)
        requires
            self.wf(),
            self.spec_width() >= 1,
            self.spec_height() >= 1,
            i < w,
            j < h,
            w * h <= MAX_CELLS,
        ensures
            r == self.area_average(w as int, h as int, i as int, j as int),
    {
        let ghost (wi, hi, ii, ji) = (w as int, h as int, i as int, j as int);
        let ow = self.width;
        let oh = self.height;
        proof {
            lemma_factor_le(w as int, h as int, MAX_CELLS as int);
            assert(h as int * w as int == w as int * h as int) by (nonlinear_arith);
            lemma_factor_le(h as int, w as int, MAX_CELLS as int);
            lemma_factor_le(ow as int, oh as int, MAX_CELLS as int);
            assert(oh as int * ow as int == ow as int * oh as int) by (nonlinear_arith);
            lemma_factor_le(oh as int, ow as int, MAX_CELLS as int);
        }
        let mut r: u64 = 0;
        let mut g: u64 = 0;
        let mut b: u64 = 0;
        let mut n: u64 = 0;
        let mut t: usize = 0;
        while t < 25
            invariant
                self.wf(),
                wi == w,
                hi == h,
                ii == i,
                ji == j,
                ow == self.spec_width(),
                oh == self.spec_height(),
                1 <= ow <= MAX_CELLS,
                1 <= oh <= MAX_CELLS,
                i < w <= MAX_CELLS,
                j < h <= MAX_CELLS,
                t <= 25,
                (r as int, g as int, b as int, n as int) == self.sample_sums(wi, hi, ii, ji, t as nat),
                n <= t,
                r <= 255 * n,
                g <= 255 * n,
                b <= 255 * n,
                t >= 1 ==> n >= 1,
            decreases 25 - t,
        {
            let sx = t % 5;
            let sy = t / 5;
            proof {
                lemma_sample_fits(ii, sx as int, ow as int, wi);
                lemma_sample_fits(ji, sy as int, oh as int, hi);
            }
            let x = ((5 * i as u128 + sx as u128) * ow as u128) / (5 * w as u128);
            let y = ((5 * j as u128 + sy as u128) * oh as u128) / (5 * h as u128);
            if t == 0 {
                proof {
                    lemma_origin_sample(ii, ow as int, wi);
                    lemma_origin_sample(ji, oh as int, hi);
                }
            }
            if x < ow as u128 && y < oh as u128 {
                let xu = x as usize;
                let yu = y as usize;
                proof {
                    lemma_cell_index_bounds(ow as int, oh as int, xu as int, yu as int);
                }
                let c = self.colors[yu * ow + xu];
                r = r + c.red as u64;
                g = g + c.green as u64;
                b = b + c.blue as u64;
                n = n + 1;
            }
            t += 1;
        }
        proof {
            assert(r / n <= 255) by (nonlinear_arith)
                requires
                    r <= 255 * n,
                    n >= 1,
            ;
            assert(g / n <= 255) by (nonlinear_arith)
                requires
                    g <= 255 * n,
                    n >= 1,
            ;
            assert(b / n <= 255) by (nonlinear_arith)
                requires
                    b <= 255 * n,
                    n >= 1,
            ;
        }
        Color { red: (r / n) as u8, green: (g / n) as u8, blue: (b / n) as u8 }
    }

    /// A `width` by `height` copy of `old`, each cell the area average of the
    /// part of `old` that it covers.
    pub fn new_resized(old: &Framebuffer, width: usize, height: usize) -> (r: Framebuffer)
        requires
            old.wf(),
            fits(width as int, height as int),
            width * height == 0 || old.spec_width() * old.spec_height() > 0,
        ensures
            resampled(*old, r, width as int, height as int),
    {
        let ghost (wi, hi) = (width as int, height as int);
        let mut colors: Vec<Color> = Vec::with_capacity(width * height);
        let mut j: usize = 0;
        while j < height
            invariant
                old.wf(),
                wi == width,
                hi == height,
                width * height <= MAX_CELLS,
                width * height == 0 || old.spec_width() * old.spec_height() > 0,
                j <= height,
                colors@.len() == j * width,
                forall|a: int, b: int|
                    0 <= a < width && 0 <= b < j ==> #[trigger] colors@[cell_index(wi, a, b)]
                        == old.area_average(wi, hi, a, b),
            decreases height - j,
        {
            proof {
                assert(j * width + width == (j + 1) * width) by (nonlinear_arith);
                assert((j + 1) * width <= height * width) by (nonlinear_arith)
                    requires
                        j < height,
                ;
                assert(height * width == width * height) by (nonlinear_arith);
            }
            let mut i: usize = 0;
            while i < width
                invariant
                    old.wf(),
                    wi == width,
                    hi == height,
                    width * height <= MAX_CELLS,
                    width * height == 0 || old.spec_width() * old.spec_height() > 0,
                    j < height,
                    i <= width,
                    (j + 1) * width <= width * height,
                    colors@.len() == j * width + i,
                    forall|a: int, b: int|
                        (0 <= a < width && 0 <= b < j) || (0 <= a < i && b == j)
                            ==> #[trigger] colors@[cell_index(wi, a, b)] == old.area_average(wi, hi, a, b),
                decreases width - i,
            {
                proof {
                    assert(width * height > 0) by (nonlinear_arith)
                        requires
                            i < width,
                            j < height,
                    ;
                    assert(old.spec_width() >= 1 && old.spec_height() >= 1) by (nonlinear_arith)
                        requires
                            old.spec_width() * old.spec_height() > 0,
                    ;
                }
                let c = old.sample_linear(width, height, i, j);
                let ghost prev = colors@;
                colors.push(c);
                proof {
                    assert forall|a: int, b: int|
                        (0 <= a < width && 0 <= b < j) || (0 <= a < i + 1 && b == j)
                            implies #[trigger] colors@[cell_index(wi, a, b)] == old.area_average(wi, hi, a, b) by {
                        if b < j {
                            lemma_cell_index_bounds(wi, j as int, a, b);
                            assert(wi * (j as int) == (j as int) * wi) by (nonlinear_arith);
                            assert(colors@[cell_index(wi, a, b)] == prev[cell_index(wi, a, b)]);
                        } else if a < i {
                            assert(colors@[cell_index(wi, a, b)] == prev[cell_index(wi, a, b)]);
                        } else {
                            assert(cell_index(wi, a, b) == prev.len());
                        }
                    }
                }
                i += 1;
            }
            j += 1;
        }
        let r = Framebuffer { colors, width, height };
        proof {
            assert(height * width == width * height) by (nonlinear_arith);
        }
        r
    }
}


pub open spec fn dist(a: int, b: int) -> int {
    if a < b {
        b - a
    } else {
        a - b
    }
}

/// The error term that a Bresenham walk starts from.
pub open spec fn bresenham_start_error(dx: int, dy: int) -> int {
    if dx > dy {
        dx / 2
    } else {
        -(dy / 2)
    }
}

/// The position and error term `(x, y, err)` of the Bresenham walk from
/// `(x0, y0)` towards `(x1, y1)` after `k` steps.
pub open spec fn bresenham_state(x0: int, y0: int, x1: int, y1: int, k: nat) -> (int, int, int)
    decreases k,
{
    let dx = dist(x0, x1);
    let dy = dist(y0, y1);
    if k == 0 {
        (x0, y0, bresenham_start_error(dx, dy))
    } else {
        let p = bresenham_state(x0, y0, x1, y1, (k - 1) as nat);
        let sx = if x0 < x1 { 1int } else { -1int };
        let sy = if y0 < y1 { 1int } else { -1int };
        let e2 = p.2;
        let (x, e1) = if e2 > -dx { (p.0 + sx, e2 - dy) } else { (p.0, e2) };
        if e2 < dy { (x, p.1 + sy, e1 + dx) } else { (x, p.1, e1) }
    }
}

pub open spec fn bresenham_point(x0: int, y0: int, x1: int, y1: int, k: nat) -> (int, int) {
    let s = bresenham_state(x0, y0, x1, y1, k);
    (s.0, s.1)
}

/// The cells of the Bresenham walk from `(x0, y0)`: one per step along the
/// longer axis, both ends included.
pub open spec fn bresenham_path(x0: int, y0: int, x1: int, y1: int) -> Seq<(int, int)> {
    let n = if dist(x0, x1) > dist(y0, y1) { dist(x0, x1) } else { dist(y0, y1) };
    Seq::new((n + 1) as nat, |k: int| bresenham_point(x0, y0, x1, y1, k as nat))
}

/// `(x0, y0)` comes first in lexicographic order.
pub open spec fn ordered(x0: int, y0: int, x1: int, y1: int) -> bool {
    x0 < x1 || (x0 == x1 && y0 <= y1)
}

/// The path of a line, walked from whichever endpoint comes first in
/// lexicographic order, so that it does not depend on the order of the ends.
pub open spec fn line_path(x0: int, y0: int, x1: int, y1: int) -> Seq<(int, int)> {
    if ordered(x0, y0, x1, y1) {
        bresenham_path(x0, y0, x1, y1)
    } else {
        bresenham_path(x1, y1, x0, y0)
    }
}

/// The cells that `line(x0, y0, x1, y1, _)` touches.
pub open spec fn line_points(x0: int, y0: int, x1: int, y1: int) -> Set<(int, int)> {
    Set::new(|p: (int, int)| line_path(x0, y0, x1, y1).contains(p))
}

/// Cell `p` is among the first `k` cells of the walk.
spec fn walked(x0: int, y0: int, x1: int, y1: int, k: int, p: (int, int)) -> bool {
    exists|j: int| 0 <= j < k && #[trigger] bresenham_point(x0, y0, x1, y1, j as nat) == p
}

proof fn lemma_walked_step(x0: int, y0: int, x1: int, y1: int, k: int, p: (int, int))
    requires
        0 <= k,
    ensures
        walked(x0, y0, x1, y1, k + 1, p) == (walked(x0, y0, x1, y1, k, p) || bresenham_point(
            x0,
            y0,
            x1,
            y1,
            k as nat,
        ) == p),
{
    if walked(x0, y0, x1, y1, k + 1, p) {
        let j = choose|j: int| 0 <= j < k + 1 && #[trigger] bresenham_point(x0, y0, x1, y1, j as nat) == p;
        if j < k {
            assert(walked(x0, y0, x1, y1, k, p));
        }
    }
    if walked(x0, y0, x1, y1, k, p) {
        let j = choose|j: int| 0 <= j < k && #[trigger] bresenham_point(x0, y0, x1, y1, j as nat) == p;
        assert(walked(x0, y0, x1, y1, k + 1, p));
    }
    if bresenham_point(x0, y0, x1, y1, k as nat) == p {
        assert(walked(x0, y0, x1, y1, k + 1, p));
    }
}

impl Framebuffer {
    /// `pixel` on wide coordinates.
    fn paint(&mut self, x: i128, y: i128, color: Color)
        requires
            old(self).wf(),
        ensures
            final(self).wf(),
            final(self).spec_width() == old(self).spec_width(),
            final(self).spec_height() == old(self).spec_height(),
            forall|px: int, py: int| #[trigger]
                final(self).in_bounds(px, py) ==> final(self).at(px, py) == if px == x && py == y {
                    color
                } else {
                    old(self).at(px, py)
                },
    {
        if i64::MIN as i128 <= x && x <= i64::MAX as i128 && i64::MIN as i128 <= y && y
            <= i64::MAX as i128 {
            self.pixel(x as i64, y as i64, color);
        } else {
            proof {
                if self.height > 0 && self.width > 0 {
                    lemma_factor_le(self.width as int, self.height as int, MAX_CELLS as int);
                    assert(self.height as int * self.width as int == self.width as int
                        * self.height as int) by (nonlinear_arith);
                    lemma_factor_le(self.height as int, self.width as int, MAX_CELLS as int);
                }
                assert(MAX_CELLS as int <= 0x2AAA_AAAA_AAAA_AAAA);
                assert(!self.in_bounds(x as int, y as int));
            }
        }
    }

    /// Draws the line from `(x0, y0)` to `(x1, y1)`, both ends included; its
    /// cells off the grid are skipped.
    pub fn line(&mut self, x0: i64, y0: i64, x1: i64, y1: i64, color: Color)
        requires
            old(self).wf(),
        ensures
            painted(
                *old(self),
                *final(self),
                line_points(x0 as int, y0 as int, x1 as int, y1 as int),
                color,
            ),
    {
        let (ax, ay, bx, by) = if x0 < x1 || (x0 == x1 && y0 <= y1) {
            (x0 as i128, y0 as i128, x1 as i128, y1 as i128)
        } else {
            (x1 as i128, y1 as i128, x0 as i128, y0 as i128)
        };
        let dx: i128 = if ax < bx { bx - ax } else { ax - bx };
        let dy: i128 = if ay < by { by - ay } else { ay - by };
        let sx: i128 = if ax < bx { 1 } else { -1 };
        let sy: i128 = if ay < by { 1 } else { -1 };
        let n: i128 = if dx > dy { dx } else { dy };
        let mut x: i128 = ax;
        let mut y: i128 = ay;
        let mut err: i128 = if dx > dy { dx / 2 } else { -(dy / 2) };
        let mut k: i128 = 0;
        while k <= n
            invariant
                self.wf(),
                self.spec_width() == old(self).spec_width(),
                self.spec_height() == old(self).spec_height(),
                dx == dist(ax as int, bx as int),
                dy == dist(ay as int, by as int),
                sx == (if ax < bx { 1int } else { -1int }),
                sy == (if ay < by { 1int } else { -1int }),
                n == (if dx > dy { dx } else { dy }),
                0 <= dx <= u64::MAX,
                0 <= dy <= u64::MAX,
                i64::MIN <= ax <= i64::MAX,
                i64::MIN <= ay <= i64::MAX,
                i64::MIN <= bx <= i64::MAX,
                i64::MIN <= by <= i64::MAX,
                ordered(x0 as int, y0 as int, x1 as int, y1 as int) ==> (ax, ay, bx, by) == (
                    x0 as i128,
                    y0 as i128,
                    x1 as i128,
                    y1 as i128,
                ),
                !ordered(x0 as int, y0 as int, x1 as int, y1 as int) ==> (ax, ay, bx, by) == (
                    x1 as i128,
                    y1 as i128,
                    x0 as i128,
                    y0 as i128,
                ),
                0 <= k <= n + 1,
                (x as int, y as int, err as int) == bresenham_state(
                    ax as int,
                    ay as int,
                    bx as int,
                    by as int,
                    k as nat,
                ),
                dist(x as int, ax as int) <= k,
                dist(y as int, ay as int) <= k,
                -(dx + dy) <= err <= dx + dy,
                forall|px: int, py: int| #[trigger]
                    self.in_bounds(px, py) ==> self.at(px, py) == if walked(
                        ax as int,
                        ay as int,
                        bx as int,
                        by as int,
                        k as int,
                        (px, py),
                    ) {
                        color
                    } else {
                        old(self).at(px, py)
                    },
            decreases n + 1 - k,
        {
            let ghost before = *self;
            self.paint(x, y, color);
            proof {
                let kk = k as int;
                assert forall|px: int, py: int| #[trigger]
                    self.in_bounds(px, py) implies self.at(px, py) == if walked(
                        ax as int,
                        ay as int,
                        bx as int,
                        by as int,
                        kk + 1,
                        (px, py),
                    ) {
                        color
                    } else {
                        old(self).at(px, py)
                    } by {
                    assert(before.in_bounds(px, py));
                    lemma_walked_step(ax as int, ay as int, bx as int, by as int, kk, (px, py));
                }
            }
            let e2 = err;
            if e2 > -dx {
                err = err - dy;
                x = x + sx;
            }
            if e2 < dy {
                err = err + dx;
                y = y + sy;
            }
            k = k + 1;
        }
        proof {
            let path = line_path(x0 as int, y0 as int, x1 as int, y1 as int);
            assert(path == bresenham_path(ax as int, ay as int, bx as int, by as int));
            assert forall|px: int, py: int| #[trigger]
                self.in_bounds(px, py) implies self.at(px, py) == if line_points(
                    x0 as int,
                    y0 as int,
                    x1 as int,
                    y1 as int,
                ).contains((px, py)) {
                    color
                } else {
                    old(self).at(px, py)
                } by {
                if path.contains((px, py)) {
                    let i = choose|i: int| 0 <= i < path.len() && path[i] == (px, py);
                    assert(bresenham_point(ax as int, ay as int, bx as int, by as int, i as nat) == (
                        px,
                        py,
                    ));
                }
                if walked(ax as int, ay as int, bx as int, by as int, k as int, (px, py)) {
                    let j = choose|j: int|
                        0 <= j < k && #[trigger] bresenham_point(
                            ax as int,
                            ay as int,
                            bx as int,
                            by as int,
                            j as nat,
                        ) == (px, py);
                    assert(path[j] == (px, py));
                }
            }
        }
    }
}


impl Framebuffer {
    /// `(px, py)` lies under `src` when `src` is placed with its corner at `(x, y)`.
    pub open spec fn covers(src: &Framebuffer, x: int, y: int, px: int, py: int) -> bool {
        src.in_bounds(px - x, py - y)
    }

    /// Copies `fb` onto this framebuffer with its corner at `(x, y)`; the parts
    /// of `fb` that fall off this grid are skipped.
    pub fn draw_framebuffer(&mut self, x: i64, y: i64, fb: &Framebuffer)
        requires
            old(self).wf(),
            fb.wf(),
        ensures
            blitted(*old(self), *final(self), x as int, y as int, *fb),
    {
        let w = self.width;
        let h = self.height;
        let fw = fb.width;
        let fh = fb.height;
        let xw = x as i128;
        let yw = y as i128;
        let row_lo: i128 = if yw > 0 { yw } else { 0 };
        let row_hi: i128 = if yw + (fh as i128) < h as i128 { yw + fh as i128 } else { h as i128 };
        let col_lo: i128 = if xw > 0 { xw } else { 0 };
        let col_hi: i128 = if xw + (fw as i128) < w as i128 { xw + fw as i128 } else { w as i128 };
        let mut j: i128 = row_lo;
        while j < row_hi
            invariant
                self.wf(),
                fb.wf(),
                self.spec_width() == old(self).spec_width(),
                self.spec_height() == old(self).spec_height(),
                w == self.spec_width(),
                h == self.spec_height(),
                fw == fb.spec_width(),
                fh == fb.spec_height(),
                xw == x,
                yw == y,
                row_lo == (if y > 0 { y as int } else { 0 }),
                row_hi == (if y + fh < h { y + fh } else { h as int }),
                col_lo == (if x > 0 { x as int } else { 0 }),
                col_hi == (if x + fw < w { x + fw } else { w as int }),
                row_lo <= j,
                j <= row_hi || j == row_lo,
                forall|px: int, py: int| #[trigger]
                    self.in_bounds(px, py) ==> self.at(px, py) == if Framebuffer::covers(
                        fb,
                        x as int,
                        y as int,
                        px,
                        py,
                    ) && py < j {
                        fb.at(px - x, py - y)
                    } else {
                        old(self).at(px, py)
                    },
            decreases row_hi - j,
        {
            let mut i: i128 = col_lo;
            while i < col_hi
                invariant
                    self.wf(),
                    fb.wf(),
                    self.spec_width() == old(self).spec_width(),
                    self.spec_height() == old(self).spec_height(),
                    w == self.spec_width(),
                    h == self.spec_height(),
                    fw == fb.spec_width(),
                    fh == fb.spec_height(),
                    xw == x,
                    yw == y,
                    row_lo == (if y > 0 { y as int } else { 0 }),
                    row_hi == (if y + fh < h { y + fh } else { h as int }),
                    col_lo == (if x > 0 { x as int } else { 0 }),
                    col_hi == (if x + fw < w { x + fw } else { w as int }),
                    row_lo <= j < row_hi,
                    col_lo <= i,
                    i <= col_hi || i == col_lo,
                    forall|px: int, py: int| #[trigger]
                        self.in_bounds(px, py) ==> self.at(px, py) == if Framebuffer::covers(
                            fb,
                            x as int,
                            y as int,
                            px,
                            py,
                        ) && (py < j || (py == j && px < i)) {
                            fb.at(px - x, py - y)
                        } else {
                            old(self).at(px, py)
                        },
                decreases col_hi - i,
            {
                let du = i as usize;
                let dv = j as usize;
                let su = (i - xw) as usize;
                let sv = (j - yw) as usize;
                proof {
                    lemma_cell_index_bounds(fw as int, fh as int, su as int, sv as int);
                    lemma_cell_index_bounds(w as int, h as int, du as int, dv as int);
                }
                let c = fb.colors[sv * fw + su];
                let ghost before = *self;
                self.colors[dv * w + du] = c;
                proof {
                    assert forall|px: int, py: int| #[trigger]
                        self.in_bounds(px, py) implies self.at(px, py) == if Framebuffer::covers(
                            fb,
                            x as int,
                            y as int,
                            px,
                            py,
                        ) && (py < j || (py == j && px < i + 1)) {
                            fb.at(px - x, py - y)
                        } else {
                            old(self).at(px, py)
                        } by {
                        assert(before.in_bounds(px, py));
                        lemma_cell_index_bounds(w as int, h as int, px, py);
                        if px != du || py != dv {
                            lemma_cell_index_distinct(w as int, px, py, du as int, dv as int);
                        }
                    }
                }
                i = i + 1;
            }
            j = j + 1;
        }
    }
}


/// Whether a `width` by `height` grid fits, checked on machine integers.
pub(crate) fn fits_exec(width: usize, height: usize) -> (r: bool)
    ensures
        r == fits(width as int, height as int),
{
    if width > MAX_CELLS || height > MAX_CELLS {
        return false;
    }
    proof {
        assert(MAX_CELLS as int <= 0x2AAA_AAAA_AAAA_AAAA);
        assert((width as int) * (height as int) <= 0x2AAA_AAAA_AAAA_AAAA * 0x2AAA_AAAA_AAAA_AAAA)
            by (nonlinear_arith)
            requires
                width <= 0x2AAA_AAAA_AAAA_AAAA,
                height <= 0x2AAA_AAAA_AAAA_AAAA,
        ;
    }
    (width as u128) * (height as u128) <= MAX_CELLS as u128
}

impl Framebuffer {
    /// A framebuffer of the given terminal dimensions filled with `color`;
    /// `CantGetTerminalSize` where there are none, or too many cells to hold.
    pub fn from_dimensions(dims: Option<(usize, usize)>, color: Color) -> (r: Result<
        Framebuffer,
        FramebufferError,
    >)
        ensures
            (r is Ok) == (dims matches Some((w, h)) && fits(w as int, h as int)),
            r matches Ok(fb) ==> fb.wf() && dims == Some(
                (fb.spec_width() as usize, fb.spec_height() as usize),
            ) && fb.uniform(color),
            r matches Err(e) ==> e == FramebufferError::CantGetTerminalSize,
    {
        match dims {
            Some((w, h)) => {
                if fits_exec(w, h) {
                    Ok(Framebuffer::new(w, h, color))
                } else {
                    Err(FramebufferError::CantGetTerminalSize)
                }
            },
            None => Err(FramebufferError::CantGetTerminalSize),
        }
    }

    /// A framebuffer the size of the terminal, filled with `color`.
    pub fn new_terminal_size(color: Color) -> (r: Result<Framebuffer, FramebufferError>)
        ensures
            r matches Ok(fb) ==> fb.wf() && fb.uniform(color),
            r matches Err(e) ==> e == FramebufferError::CantGetTerminalSize,
    {
        Framebuffer::from_dimensions(terminal_dimensions(), color)
    }

    /// A framebuffer from decoded pixels, three bytes (red, green, blue) per
    /// pixel in row-major order; `None` where `rgb` does not hold exactly
    /// `width * height` pixels or the grid is too large.
    pub fn from_rgb_bytes(width: usize, height: usize, rgb: &Vec<u8>) -> (r: Option<Framebuffer>)
        ensures
            (r is Some) == (fits(width as int, height as int) && rgb@.len() == 3 * width * height),
            r matches Some(fb) ==> {
                &&& fb.wf()
                &&& fb.spec_width() == width
                &&& fb.spec_height() == height
                &&& forall|k: int|
                    0 <= k < width * height ==> #[trigger] fb.cells()[k] == (Color {
                        red: rgb@[3 * k],
                        green: rgb@[3 * k + 1],
                        blue: rgb@[3 * k + 2],
                    })
            },
    {
        if !fits_exec(width, height) {
            return None;
        }
        let n: usize = width * height;
        proof {
            assert(3 * width * height == 3 * (width * height)) by (nonlinear_arith);
        }
        if rgb.len() as u128 != 3 * (n as u128) {
            return None;
        }
        let mut colors: Vec<Color> = Vec::with_capacity(n);
        let mut k: usize = 0;
        while k < n
            invariant
                k <= n,
                n == width * height,
                rgb@.len() == 3 * n,
                n <= MAX_CELLS,
                colors@.len() == k,
                forall|i: int|
                    0 <= i < k ==> #[trigger] colors@[i] == (Color {
                        red: rgb@[3 * i],
                        green: rgb@[3 * i + 1],
                        blue: rgb@[3 * i + 2],
                    }),
            decreases n - k,
        {
            colors.push(Color { red: rgb[3 * k], green: rgb[3 * k + 1], blue: rgb[3 * k + 2] });
            k += 1;
        }
        Some(Framebuffer { colors, width, height })
    }
}

} // verus!

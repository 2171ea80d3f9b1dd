//! Properties that relate the framebuffer's operations, proved from their
//! contracts.
use vstd::prelude::*;

use crate::color::Color;
use crate::framebuffer::{
    blitted, bresenham_path, bresenham_point, bresenham_start_error, bresenham_state, dist,
    lemma_origin_sample, line_path, line_points, ordered, painted, resampled, fits, Framebuffer,
    Token,
};

verus! {

/// A cell written with `pixel` reads back, through `get_pixel`, as the colour
/// written.
pub proof fn law_pixel_then_get(before: Framebuffer, after: Framebuffer, x: int, y: int, c: Color)
    requires
        before.wf(),
        before.in_bounds(x, y),
        painted(before, after, set![(x, y)], c),
    ensures
        after.in_bounds(x, y),
        after.at(x, y) == c,
{
    assert(set![(x, y)].contains((x, y)));
    assert(after.in_bounds(x, y));
}

/// `pixel` off the grid leaves every cell as it was.
pub proof fn law_pixel_off_grid(before: Framebuffer, after: Framebuffer, x: int, y: int, c: Color)
    requires
        before.wf(),
        !before.in_bounds(x, y),
        painted(before, after, set![(x, y)], c),
    ensures
        after.spec_width() == before.spec_width(),
        after.spec_height() == before.spec_height(),
        forall|px: int, py: int| #[trigger]
            after.in_bounds(px, py) ==> after.at(px, py) == before.at(px, py),
{
    assert forall|px: int, py: int| #[trigger]
        after.in_bounds(px, py) implies after.at(px, py) == before.at(px, py) by {
        assert(!set![(x, y)].contains((px, py)));
    }
}

/// A line touches the same cells whichever end is given first.
pub proof fn law_line_symmetric(x0: int, y0: int, x1: int, y1: int)
    ensures
        line_points(x0, y0, x1, y1) == line_points(x1, y1, x0, y0),
{
    if ordered(x0, y0, x1, y1) && ordered(x1, y1, x0, y0) {
        assert(x0 == x1 && y0 == y1);
    }
    assert(line_path(x0, y0, x1, y1) == line_path(x1, y1, x0, y0));
    assert(line_points(x0, y0, x1, y1) =~= line_points(x1, y1, x0, y0));
}

/// A line whose ends coincide touches exactly that one cell.
pub proof fn law_line_single_point(x: int, y: int)
    ensures
        line_points(x, y, x, y) == set![(x, y)],
{
    let path = line_path(x, y, x, y);
    assert(path.len() == 1);
    assert(path[0] == (x, y));
    assert forall|p: (int, int)| line_points(x, y, x, y).contains(p) == set![(x, y)].contains(p) by {
        if p == (x, y) {
            assert(path.contains(p));
        }
    }
    assert(line_points(x, y, x, y) =~= set![(x, y)]);
}

/// A blit keeps the destination's size and changes no cell outside the
/// placed source, wherever the source is placed.
pub proof fn law_blit_stays_inside(
    before: Framebuffer,
    after: Framebuffer,
    x: int,
    y: int,
    src: Framebuffer,
)
    requires
        before.wf(),
        src.wf(),
        blitted(before, after, x, y, src),
    ensures
        after.spec_width() == before.spec_width(),
        after.spec_height() == before.spec_height(),
        after.cells().len() == before.cells().len(),
        forall|px: int, py: int| #[trigger]
            after.in_bounds(px, py) && !src.in_bounds(px - x, py - y) ==> after.at(px, py)
                == before.at(px, py),
{
}

/// Over a uniform source, every sample that lands is the source's colour.
proof fn lemma_uniform_sums(src: Framebuffer, w: int, h: int, i: int, j: int, t: nat, c: Color)
    requires
        src.wf(),
        src.uniform(c),
    ensures
        ({
            let s = src.sample_sums(w, h, i, j, t);
            s.0 == s.3 * c.red && s.1 == s.3 * c.green && s.2 == s.3 * c.blue && s.3 >= 0
        }),
    decreases t,
{
    if t > 0 {
        lemma_uniform_sums(src, w, h, i, j, (t - 1) as nat, c);
        let p = src.sample_sums(w, h, i, j, (t - 1) as nat);
        assert(src.sample_sums(w, h, i, j, t) == match src.sample(w, h, i, j, t - 1) {
            Some(col) => (p.0 + col.red, p.1 + col.green, p.2 + col.blue, p.3 + 1),
            None => p,
        });
        match src.sample(w, h, i, j, t - 1) {
            Some(col) => {
                let x = crate::framebuffer::sample_coord(i, (t - 1) % 5, src.spec_width() as int, w);
                let y = crate::framebuffer::sample_coord(j, (t - 1) / 5, src.spec_height() as int, h);
                assert(src.in_bounds(x, y));
                assert(col == c);
                assert((p.3 + 1) * c.red == p.3 * c.red + c.red) by (nonlinear_arith);
                assert((p.3 + 1) * c.green == p.3 * c.green + c.green) by (nonlinear_arith);
                assert((p.3 + 1) * c.blue == p.3 * c.blue + c.blue) by (nonlinear_arith);
            },
            None => {},
        }
    } else {
        assert(0 * (c.red as int) == 0 && 0 * (c.green as int) == 0 && 0 * (c.blue as int) == 0)
            by (nonlinear_arith);
    }
}

/// The count of samples that land is positive: the first sample of every
/// cell is its span's origin, which lies inside a non-empty source.
proof fn lemma_sums_positive(src: Framebuffer, w: int, h: int, i: int, j: int, t: nat)
    requires
        src.wf(),
        src.spec_width() >= 1,
        src.spec_height() >= 1,
        0 <= i < w,
        0 <= j < h,
        t >= 1,
    ensures
        src.sample_sums(w, h, i, j, t).3 >= 1,
    decreases t,
{
    if t == 1 {
        lemma_origin_sample(i, src.spec_width() as int, w);
        lemma_origin_sample(j, src.spec_height() as int, h);
        assert(0 <= (5 * i + 0) * src.spec_width()) by (nonlinear_arith)
            requires
                0 <= i,
        ;
        assert(0 <= (5 * j + 0) * src.spec_height()) by (nonlinear_arith)
            requires
                0 <= j,
        ;
        assert(src.sample(w, h, i, j, 0) is Some);
        assert(src.sample_sums(w, h, i, j, 0).3 == 0);
        assert(src.sample_sums(w, h, i, j, 1).3 == 1);
    } else {
        lemma_sums_positive(src, w, h, i, j, (t - 1) as nat);
        let p = src.sample_sums(w, h, i, j, (t - 1) as nat);
        assert(src.sample_sums(w, h, i, j, t) == match src.sample(w, h, i, j, t - 1) {
            Some(col) => (p.0 + col.red, p.1 + col.green, p.2 + col.blue, p.3 + 1),
            None => p,
        });
    }
}

/// Resizing a framebuffer of one colour gives a framebuffer of that colour,
/// at the new size.
pub proof fn law_resize_uniform(src: Framebuffer, r: Framebuffer, width: int, height: int, c: Color)
    requires
        src.wf(),
        src.uniform(c),
        fits(width, height),
        width * height == 0 || src.spec_width() * src.spec_height() > 0,
        resampled(src, r, width, height),
    ensures
        r.spec_width() == width,
        r.spec_height() == height,
        r.uniform(c),
{
    assert forall|i: int, j: int| #[trigger] r.in_bounds(i, j) implies r.at(i, j) == c by {
        assert(width * height > 0) by (nonlinear_arith)
            requires
                0 <= i < width,
                0 <= j < height,
        ;
        assert(src.spec_width() >= 1 && src.spec_height() >= 1) by (nonlinear_arith)
            requires
                src.spec_width() * src.spec_height() > 0,
        ;
        lemma_uniform_sums(src, width, height, i, j, 25, c);
        lemma_sums_positive(src, width, height, i, j, 25);
        let s = src.sample_sums(width, height, i, j, 25);
        vstd::arithmetic::div_mod::lemma_div_multiples_vanish(c.red as int, s.3);
        vstd::arithmetic::div_mod::lemma_div_multiples_vanish(c.green as int, s.3);
        vstd::arithmetic::div_mod::lemma_div_multiples_vanish(c.blue as int, s.3);
    }
}


pub open spec fn is_set_color() -> spec_fn(Token) -> bool {
    |t: Token| t is SetColor
}

pub open spec fn is_cell() -> spec_fn(Token) -> bool {
    |t: Token| t is Cell
}

pub open spec fn is_reset() -> spec_fn(Token) -> bool {
    |t: Token| t is Reset
}

pub open spec fn is_row_break() -> spec_fn(Token) -> bool {
    |t: Token| t is RowBreak
}

/// The columns `0 .. n`.
pub open spec fn columns(n: nat) -> Seq<int> {
    Seq::new(n, |x: int| x)
}

pub open spec fn run_start_in(fb: Framebuffer, y: int) -> spec_fn(int) -> bool {
    |x: int| fb.starts_run(x, y)
}

pub open spec fn set_color_at(fb: Framebuffer, y: int) -> spec_fn(int) -> Token {
    |x: int| Token::SetColor(fb.at(x, y))
}

/// The columns of row `y` at which a maximal run of equal colours begins.
pub open spec fn run_starts(fb: Framebuffer, y: int) -> Seq<int> {
    columns(fb.spec_width()).filter(run_start_in(fb, y))
}

proof fn lemma_filter_push<A>(s: Seq<A>, x: A, pred: spec_fn(A) -> bool)
    ensures
        s.push(x).filter(pred) == if pred(x) {
            s.filter(pred).push(x)
        } else {
            s.filter(pred)
        },
{
    reveal(Seq::filter);
    assert(s.push(x).drop_last() =~= s);
}

proof fn lemma_row_prefix(fb: Framebuffer, y: int, k: nat)
    requires
        fb.wf(),
        k <= fb.spec_width(),
    ensures
        fb.row_prefix_tokens(y, k).filter(is_set_color()) == columns(k).filter(
            run_start_in(fb, y),
        ).map_values(set_color_at(fb, y)),
        fb.row_prefix_tokens(y, k).filter(is_cell()).len() == k,
        fb.row_prefix_tokens(y, k).filter(is_reset()).len() == 0,
        fb.row_prefix_tokens(y, k).filter(is_row_break()).len() == 0,
    decreases k,
{
    if k == 0 {
        assert(columns(0).filter(run_start_in(fb, y)) =~= Seq::<int>::empty());
        assert(columns(0).filter(run_start_in(fb, y)).map_values(set_color_at(fb, y)) =~= Seq::<
            Token,
        >::empty());
    } else {
        let x = k - 1;
        lemma_row_prefix(fb, y, x as nat);
        let before = fb.row_prefix_tokens(y, x as nat);
        let set = if fb.starts_run(x, y) {
            before.push(Token::SetColor(fb.at(x, y)))
        } else {
            before
        };
        assert(fb.row_prefix_tokens(y, k) == set.push(Token::Cell));
        assert(columns(k) =~= columns(x as nat).push(x));
        lemma_filter_push(columns(x as nat), x, run_start_in(fb, y));
        lemma_filter_push(set, Token::Cell, is_set_color());
        lemma_filter_push(set, Token::Cell, is_cell());
        lemma_filter_push(set, Token::Cell, is_reset());
        lemma_filter_push(set, Token::Cell, is_row_break());
        let starts = columns(x as nat).filter(run_start_in(fb, y));
        if fb.starts_run(x, y) {
            let t = Token::SetColor(fb.at(x, y));
            lemma_filter_push(before, t, is_set_color());
            lemma_filter_push(before, t, is_cell());
            lemma_filter_push(before, t, is_reset());
            lemma_filter_push(before, t, is_row_break());
            assert(starts.push(x).map_values(set_color_at(fb, y)) =~= starts.map_values(
                set_color_at(fb, y),
            ).push(t));
        }
    }
}

proof fn lemma_row(fb: Framebuffer, y: int)
    requires
        fb.wf(),
        0 <= y < fb.spec_height(),
    ensures
        fb.row_tokens(y).filter(is_set_color()) == run_starts(fb, y).map_values(set_color_at(fb, y)),
        fb.row_tokens(y).filter(is_cell()).len() == fb.spec_width(),
        fb.row_tokens(y).filter(is_reset()).len() == if y + 1 < fb.spec_height() {
            1int
        } else {
            0
        },
        fb.row_tokens(y).filter(is_row_break()).len() == if y + 1 < fb.spec_height() {
            1int
        } else {
            0
        },
{
    let w = fb.spec_width();
    lemma_row_prefix(fb, y, w);
    let cells = fb.row_prefix_tokens(y, w);
    let body = cells.push(Token::Reset);
    lemma_filter_push(cells, Token::Reset, is_set_color());
    lemma_filter_push(cells, Token::Reset, is_cell());
    lemma_filter_push(cells, Token::Reset, is_reset());
    lemma_filter_push(cells, Token::Reset, is_row_break());
    lemma_filter_push(body, Token::RowBreak, is_set_color());
    lemma_filter_push(body, Token::RowBreak, is_cell());
    lemma_filter_push(body, Token::RowBreak, is_reset());
    lemma_filter_push(body, Token::RowBreak, is_row_break());
}

proof fn lemma_rows(fb: Framebuffer, n: nat)
    requires
        fb.wf(),
        n <= fb.spec_height(),
    ensures
        fb.rows_tokens(n).filter(is_cell()).len() == n * fb.spec_width(),
        fb.rows_tokens(n).filter(is_reset()).len() == if n == fb.spec_height() && n > 0 {
            n - 1
        } else {
            n as int
        },
        fb.rows_tokens(n).filter(is_row_break()).len() == if n == fb.spec_height() && n > 0 {
            n - 1
        } else {
            n as int
        },
    decreases n,
{
    if n > 0 {
        let m = (n - 1) as nat;
        lemma_rows(fb, m);
        lemma_row(fb, m as int);
        let a = fb.rows_tokens(m);
        let b = fb.row_tokens(m as int);
        Seq::filter_distributes_over_add(a, b, is_cell());
        Seq::filter_distributes_over_add(a, b, is_reset());
        Seq::filter_distributes_over_add(a, b, is_row_break());
        assert(n * fb.spec_width() == m * fb.spec_width() + fb.spec_width()) by (nonlinear_arith)
            requires
                n == m + 1,
        ;
    } else {
        assert(0 * fb.spec_width() == 0) by (nonlinear_arith);
    }
}

/// Within each serialised row there is exactly one colour set per maximal run
/// of equal colours, in order, each setting that run's colour.
pub proof fn law_one_color_set_per_run(fb: Framebuffer, y: int)
    requires
        fb.wf(),
        0 <= y < fb.spec_height(),
    ensures
        fb.row_tokens(y).filter(is_set_color()) == run_starts(fb, y).map_values(set_color_at(fb, y)),
        fb.row_tokens(y).filter(is_set_color()).len() == run_starts(fb, y).len(),
{
    lemma_row(fb, y);
}

/// A serialised frame holds one cell for every cell of the framebuffer, and
/// one reset and one row break between each two rows: one pair per row but
/// the last.
pub proof fn law_frame_shape(fb: Framebuffer)
    requires
        fb.wf(),
    ensures
        fb.frame_tokens().filter(is_cell()).len() == fb.spec_width() * fb.spec_height(),
        fb.spec_height() > 0 ==> fb.frame_tokens().filter(is_reset()).len() == fb.spec_height()
            - 1,
        fb.spec_height() > 0 ==> fb.frame_tokens().filter(is_row_break()).len() == fb.spec_height()
            - 1,
{
    lemma_rows(fb, fb.spec_height());
    assert(fb.spec_height() * fb.spec_width() == fb.spec_width() * fb.spec_height())
        by (nonlinear_arith);
}


/// The Bresenham walk, step by step: `i` steps taken along x and `j` along
/// y, with the error term `e0 + j * dx - i * dy`; along the longer axis it
/// steps every time, and the error stays within a window that keeps the
/// shorter axis on track.
proof fn lemma_bresenham_walk(x0: int, y0: int, x1: int, y1: int, k: nat)
    requires
        k <= (if dist(x0, x1) > dist(y0, y1) { dist(x0, x1) } else { dist(y0, y1) }),
    ensures
        ({
            let dx = dist(x0, x1);
            let dy = dist(y0, y1);
            let sx = if x0 < x1 { 1int } else { -1int };
            let sy = if y0 < y1 { 1int } else { -1int };
            let e0 = bresenham_start_error(dx, dy);
            let s = bresenham_state(x0, y0, x1, y1, k);
            let i = (s.0 - x0) * sx;
            let j = (s.1 - y0) * sy;
            &&& 0 <= i <= k
            &&& 0 <= j <= k
            &&& s.2 == e0 + j * dx - i * dy
            &&& dx > dy ==> i == k && e0 - dx < s.2 < dx
            &&& dx <= dy && dy > 0 ==> j == k && -dy < s.2 < e0 + dy
        }),
    decreases k,
{
    let dx = dist(x0, x1);
    let dy = dist(y0, y1);
    let sx = if x0 < x1 { 1int } else { -1int };
    let sy = if y0 < y1 { 1int } else { -1int };
    let e0 = bresenham_start_error(dx, dy);
    if k == 0 {
        assert(0int * dx == 0 && 0int * dy == 0) by (nonlinear_arith);
    } else {
        lemma_bresenham_walk(x0, y0, x1, y1, (k - 1) as nat);
        let p = bresenham_state(x0, y0, x1, y1, (k - 1) as nat);
        let s = bresenham_state(x0, y0, x1, y1, k);
        let i = (p.0 - x0) * sx;
        let j = (p.1 - y0) * sy;
        let e2 = p.2;
        let di: int = if e2 > -dx { 1 } else { 0 };
        let dj: int = if e2 < dy { 1 } else { 0 };
        assert(s.0 == p.0 + di * sx);
        assert(s.1 == p.1 + dj * sy);
        assert(s.2 == e2 - di * dy + dj * dx);
        assert((s.0 - x0) * sx == i + di) by (nonlinear_arith)
            requires
                s.0 == p.0 + di * sx,
                i == (p.0 - x0) * sx,
                sx == 1 || sx == -1,
        ;
        assert((s.1 - y0) * sy == j + dj) by (nonlinear_arith)
            requires
                s.1 == p.1 + dj * sy,
                j == (p.1 - y0) * sy,
                sy == 1 || sy == -1,
        ;
        assert(s.2 == e0 + (j + dj) * dx - (i + di) * dy) by (nonlinear_arith)
            requires
                s.2 == e2 - di * dy + dj * dx,
                e2 == e0 + j * dx - i * dy,
        ;
    }
}

/// The walk from `(x0, y0)` ends on `(x1, y1)`, and each step moves to one of
/// the eight neighbouring cells.
proof fn lemma_bresenham_ends(x0: int, y0: int, x1: int, y1: int)
    ensures
        bresenham_path(x0, y0, x1, y1).len() >= 1,
        bresenham_path(x0, y0, x1, y1)[0] == (x0, y0),
        bresenham_path(x0, y0, x1, y1).last() == (x1, y1),
        forall|k: int|
            0 <= k < bresenham_path(x0, y0, x1, y1).len() - 1 ==> {
                let p = #[trigger] bresenham_path(x0, y0, x1, y1)[k];
                let q = bresenham_path(x0, y0, x1, y1)[k + 1];
                p != q && dist(p.0, q.0) <= 1 && dist(p.1, q.1) <= 1
            },
{
    let dx = dist(x0, x1);
    let dy = dist(y0, y1);
    let sx = if x0 < x1 { 1int } else { -1int };
    let sy = if y0 < y1 { 1int } else { -1int };
    let e0 = bresenham_start_error(dx, dy);
    let n: nat = (if dx > dy { dx } else { dy }) as nat;
    let path = bresenham_path(x0, y0, x1, y1);
    lemma_bresenham_walk(x0, y0, x1, y1, n);
    let s = bresenham_state(x0, y0, x1, y1, n);
    let i = (s.0 - x0) * sx;
    let j = (s.1 - y0) * sy;
    if dx > dy {
        assert(j == dy) by (nonlinear_arith)
            requires
                i == dx,
                s.2 == e0 + j * dx - i * dy,
                e0 - dx < s.2 < dx,
                0 <= e0,
                dx > 0,
        ;
    } else if dy > 0 {
        assert(i == dx) by (nonlinear_arith)
            requires
                j == dy,
                s.2 == e0 + j * dx - i * dy,
                -dy < s.2 < e0 + dy,
                e0 <= 0,
                dy > 0,
        ;
    }
    assert(s.0 == x1) by (nonlinear_arith)
        requires
            i == (s.0 - x0) * sx,
            i == dx,
            dx == dist(x0, x1),
            sx == (if x0 < x1 { 1int } else { -1int }),
    ;
    assert(s.1 == y1) by (nonlinear_arith)
        requires
            j == (s.1 - y0) * sy,
            j == dy,
            dy == dist(y0, y1),
            sy == (if y0 < y1 { 1int } else { -1int }),
    ;
    assert(path.last() == path[n as int]);
    assert forall|k: int|
        0 <= k < path.len() - 1 implies {
            let p = #[trigger] path[k];
            let q = path[k + 1];
            p != q && dist(p.0, q.0) <= 1 && dist(p.1, q.1) <= 1
        } by {
        lemma_bresenham_walk(x0, y0, x1, y1, k as nat);
        lemma_bresenham_walk(x0, y0, x1, y1, (k + 1) as nat);
        let p = bresenham_state(x0, y0, x1, y1, k as nat);
        let q = bresenham_state(x0, y0, x1, y1, (k + 1) as nat);
        assert(path[k] == (p.0, p.1));
        assert(path[k + 1] == (q.0, q.1));
        if dx > dy {
            assert((q.0 - x0) * sx == (p.0 - x0) * sx + 1);
            assert(q.0 != p.0) by (nonlinear_arith)
                requires
                    (q.0 - x0) * sx == (p.0 - x0) * sx + 1,
            ;
        } else {
            assert((q.1 - y0) * sy == (p.1 - y0) * sy + 1);
            assert(q.1 != p.1) by (nonlinear_arith)
                requires
                    (q.1 - y0) * sy == (p.1 - y0) * sy + 1,
            ;
        }
    }
}

/// A line touches both of its ends, and its cells form an 8-connected path
/// between them: each cell after the first neighbours the one before it.
pub proof fn law_line_ends_and_connected(x0: int, y0: int, x1: int, y1: int)
    ensures
        line_points(x0, y0, x1, y1).contains((x0, y0)),
        line_points(x0, y0, x1, y1).contains((x1, y1)),
        forall|k: int|
            0 <= k < line_path(x0, y0, x1, y1).len() - 1 ==> {
                let p = #[trigger] line_path(x0, y0, x1, y1)[k];
                let q = line_path(x0, y0, x1, y1)[k + 1];
                p != q && dist(p.0, q.0) <= 1 && dist(p.1, q.1) <= 1
            },
{
    let path = line_path(x0, y0, x1, y1);
    if ordered(x0, y0, x1, y1) {
        lemma_bresenham_ends(x0, y0, x1, y1);
    } else {
        lemma_bresenham_ends(x1, y1, x0, y0);
    }
    assert(path.contains(path[0]));
    assert(path.contains(path[path.len() - 1]));
}

} // verus!

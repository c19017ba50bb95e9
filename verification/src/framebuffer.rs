//! A row-major buffer of 0xAARRGGBB pixels with a background colour (used
//! by `clear`) and a current colour (used by every drawing operation).

use vstd::prelude::*;
use vstd::arithmetic::div_mod::{lemma_fundamental_div_mod, lemma_fundamental_div_mod_converse};

verus! {

/// The buffer of width `w` obtained from `buf` by giving `color` to every
/// pixel whose coordinates lie in `region`; the other pixels keep their value.
pub open spec fn paint(buf: Seq<u32>, w: int, region: spec_fn(int, int) -> bool, color: u32) -> Seq<u32> {
    Seq::new(buf.len(), |i: int| if region(i % w, i / w) { color } else { buf[i] })
}

/// The half-open rectangle `[x0, x1) x [y0, y1)`.
pub open spec fn in_rect(x: int, y: int, x0: int, x1: int, y0: int, y1: int) -> bool {
    x0 <= x < x1 && y0 <= y < y1
}

/// Pixel `(x, y)` of a buffer of width `w` is stored at `y * w + x`.
pub proof fn lemma_index_coords(w: int, x: int, y: int)
    requires
        0 <= x < w,
        0 <= y,
    ensures
        (y * w + x) % w == x,
        (y * w + x) / w == y,
{
    lemma_fundamental_div_mod_converse(y * w + x, w, y, x);
}

/// Every index of a `w * h` buffer names an on-screen pixel.
pub proof fn lemma_index_on_screen(w: int, h: int, i: int)
    requires
        0 <= i < w * h,
        0 < w,
    ensures
        0 <= i % w < w,
        0 <= i / w < h,
        i == (i / w) * w + i % w,
{
    lemma_fundamental_div_mod(i, w);
    assert(w * (i / w) == (i / w) * w) by (nonlinear_arith);
    assert(0 <= i % w < w) by {
        vstd::arithmetic::div_mod::lemma_mod_pos_bound(i, w);
    }
    assert(0 <= i / w) by {
        vstd::arithmetic::div_mod::lemma_div_pos_is_pos(i, w);
    }
    assert((i / w) * w < h * w) by (nonlinear_arith)
        requires
            i == (i / w) * w + i % w,
            0 <= i % w,
            i < w * h;
    vstd::arithmetic::mul::lemma_mul_strict_inequality_converse(i / w, h, w);
}

/// The index of an on-screen pixel is inside the buffer.
pub proof fn lemma_row_bound(w: int, h: int, x: int, y: int)
    requires
        0 <= x < w,
        0 <= y < h,
    ensures
        y * w + x < w * h,
        0 <= y * w,
{
    assert(y * w + x < w * h) by (nonlinear_arith)
        requires
            0 <= x < w,
            0 <= y < h;
    assert(0 <= y * w) by (nonlinear_arith)
        requires
            0 <= x < w,
            0 <= y;
}

/// Two regions that agree on the screen paint the same buffer.
pub proof fn lemma_paint_congruent(
    buf: Seq<u32>,
    w: int,
    h: int,
    r1: spec_fn(int, int) -> bool,
    r2: spec_fn(int, int) -> bool,
    c: u32,
)
    requires
        buf.len() == w * h,
        0 <= w,
        0 <= h,
        forall|px: int, py: int|
            #![trigger r1(px, py)]
            #![trigger r2(px, py)]
            0 <= px < w && 0 <= py < h ==> r1(px, py) == r2(px, py),
    ensures
        paint(buf, w, r1, c) == paint(buf, w, r2, c),
{
    if w == 0 {
        assert(buf.len() == 0);
        assert(paint(buf, w, r1, c) =~= paint(buf, w, r2, c));
    } else {
        assert forall|i: int| 0 <= i < buf.len() implies paint(buf, w, r1, c)[i] == paint(
            buf,
            w,
            r2,
            c,
        )[i] by {
            lemma_index_on_screen(w, h, i);
        }
        assert(paint(buf, w, r1, c) =~= paint(buf, w, r2, c));
    }
}

/// Adding pixel `(x, y)` to a painted region is one write to the buffer
/// when the pixel is on screen, and no change when it is not.
pub proof fn lemma_paint_add_pixel(
    buf: Seq<u32>,
    w: int,
    h: int,
    r1: spec_fn(int, int) -> bool,
    r2: spec_fn(int, int) -> bool,
    c: u32,
    x: int,
    y: int,
)
    requires
        buf.len() == w * h,
        0 <= w,
        0 <= h,
        0 <= x,
        0 <= y,
        forall|px: int, py: int| #[trigger] r2(px, py) == (r1(px, py) || (px == x && py == y)),
    ensures
        x < w && y < h ==> paint(buf, w, r2, c) == paint(buf, w, r1, c).update(y * w + x, c),
        !(x < w && y < h) ==> paint(buf, w, r2, c) == paint(buf, w, r1, c),
{
    if w == 0 {
        assert(buf.len() == 0);
        assert(paint(buf, w, r1, c) =~= paint(buf, w, r2, c));
    } else if x < w && y < h {
        lemma_index_coords(w, x, y);
        lemma_row_bound(w, h, x, y);
        let k = y * w + x;
        assert forall|i: int| 0 <= i < buf.len() implies paint(buf, w, r2, c)[i] == paint(
            buf,
            w,
            r1,
            c,
        ).update(k, c)[i] by {
            lemma_index_on_screen(w, h, i);
            if i % w == x && i / w == y {
                assert(i == k);
            }
        }
        assert(paint(buf, w, r2, c) =~= paint(buf, w, r1, c).update(k, c));
    } else {
        lemma_paint_congruent(buf, w, h, r1, r2, c);
    }
}

/// Painting `r1` and then `r2` in one colour is painting their union:
/// in particular, drawing the same shape twice is drawing it once.
pub proof fn lemma_paint_union(
    buf: Seq<u32>,
    w: int,
    r1: spec_fn(int, int) -> bool,
    r2: spec_fn(int, int) -> bool,
    c: u32,
)
    ensures
        paint(paint(buf, w, r1, c), w, r2, c) == paint(buf, w, |px: int, py: int| r1(px, py) || r2(px, py), c),
        paint(paint(buf, w, r1, c), w, r1, c) == paint(buf, w, r1, c),
{
    assert(paint(paint(buf, w, r1, c), w, r2, c) =~= paint(buf, w, |px: int, py: int| r1(px, py) || r2(px, py), c));
    assert(paint(paint(buf, w, r1, c), w, r1, c) =~= paint(buf, w, r1, c));
}

/// The buffer of width `w` obtained from `buf` by giving each pixel the
/// colour that `f` assigns to its coordinates; pixels that `f` assigns none
/// keep their value.
pub open spec fn paint_colors(buf: Seq<u32>, w: int, f: spec_fn(int, int) -> Option<u32>) -> Seq<u32> {
    Seq::new(
        buf.len(),
        |i: int|
            match f(i % w, i / w) {
                Some(c) => c,
                None => buf[i],
            },
    )
}

/// Painting a one-colour region over a multi-colour painting is a
/// multi-colour painting; assigning no colour anywhere changes nothing.
pub proof fn lemma_paint_over_colors(
    buf: Seq<u32>,
    w: int,
    f1: spec_fn(int, int) -> Option<u32>,
    f2: spec_fn(int, int) -> Option<u32>,
    r: spec_fn(int, int) -> bool,
    c: u32,
)
    requires
        forall|px: int, py: int| #[trigger] f2(px, py) == (if r(px, py) { Some(c) } else { f1(px, py) }),
    ensures
        paint(paint_colors(buf, w, f1), w, r, c) == paint_colors(buf, w, f2),
        paint_colors(buf, w, |px: int, py: int| None::<u32>) == buf,
{
    assert(paint(paint_colors(buf, w, f1), w, r, c) =~= paint_colors(buf, w, f2));
    assert(paint_colors(buf, w, |px: int, py: int| None::<u32>) =~= buf);
}

/// Two colourings that agree on the screen paint the same buffer.
pub proof fn lemma_paint_colors_congruent(
    buf: Seq<u32>,
    w: int,
    h: int,
    f1: spec_fn(int, int) -> Option<u32>,
    f2: spec_fn(int, int) -> Option<u32>,
)
    requires
        buf.len() == w * h,
        0 <= w,
        0 <= h,
        forall|px: int, py: int|
            #![trigger f1(px, py)]
            #![trigger f2(px, py)]
            0 <= px < w && 0 <= py < h ==> f1(px, py) == f2(px, py),
    ensures
        paint_colors(buf, w, f1) == paint_colors(buf, w, f2),
{
    if w == 0 {
        assert(buf.len() == 0);
        assert(paint_colors(buf, w, f1) =~= paint_colors(buf, w, f2));
    } else {
        assert forall|i: int| 0 <= i < buf.len() implies paint_colors(buf, w, f1)[i]
            == paint_colors(buf, w, f2)[i] by {
            lemma_index_on_screen(w, h, i);
        }
        assert(paint_colors(buf, w, f1) =~= paint_colors(buf, w, f2));
    }
}

/// Setting the on-screen pixel `(x, y)` is filling the one-pixel rectangle
/// `[x, x + 1) x [y, y + 1)`: `point` and `fill_rect` agree.
pub proof fn lemma_point_is_unit_rect(buf: Seq<u32>, w: int, h: int, x: int, y: int, c: u32)
    requires
        buf.len() == w * h,
        0 <= x < w,
        0 <= y < h,
    ensures
        buf.update(y * w + x, c) == paint(buf, w, |px: int, py: int| in_rect(px, py, x, x + 1, y, y + 1), c),
{
    lemma_paint_add_pixel(
        buf,
        w,
        h,
        |px: int, py: int| false,
        |px: int, py: int| in_rect(px, py, x, x + 1, y, y + 1),
        c,
        x,
        y,
    );
    assert(paint(buf, w, |px: int, py: int| false, c) =~= buf);
}

/// The abstract state of a framebuffer: its size, its pixels and its two
/// colours.
pub struct FbModel {
    pub width: nat,
    pub height: nat,
    pub pixels: Seq<u32>,
    pub background: u32,
    pub current: u32,
}

impl FbModel {
    /// One pixel per screen position.
    pub open spec fn wf(&self) -> bool {
        self.pixels.len() == self.width * self.height
    }
}

/// The operations that change a framebuffer. A filled triangle is a
/// sequence of `FillSpan`s, one per row.
pub enum DrawOp {
    Point(usize, usize),
    SetCurrentColor(u32),
    SetBackgroundColor(u32),
    Clear,
    FillRect(usize, usize, usize, usize),
    FillSpan(usize, usize, usize),
}

/// The state after one operation.
pub open spec fn apply_op(m: FbModel, op: DrawOp) -> FbModel {
    match op {
        DrawOp::Point(x, y) => FbModel {
            pixels: if x < m.width && y < m.height {
                m.pixels.update(y * m.width + x, m.current)
            } else {
                m.pixels
            },
            ..m
        },
        DrawOp::SetCurrentColor(c) => FbModel { current: c, ..m },
        DrawOp::SetBackgroundColor(c) => FbModel { background: c, ..m },
        DrawOp::Clear => FbModel { pixels: Seq::new(m.pixels.len(), |i: int| m.background), ..m },
        DrawOp::FillRect(x0, x1, y0, y1) => FbModel {
            pixels: paint(
                m.pixels,
                m.width as int,
                |px: int, py: int| in_rect(px, py, x0 as int, x1 as int, y0 as int, y1 as int),
                m.current,
            ),
            ..m
        },
        DrawOp::FillSpan(y, x_from, x_to) => FbModel {
            pixels: paint(
                m.pixels,
                m.width as int,
                |px: int, py: int| py == y && x_from <= px < x_to,
                m.current,
            ),
            ..m
        },
    }
}

/// The state after the operations `ops`, first to last.
pub open spec fn run_ops(m: FbModel, ops: Seq<DrawOp>) -> FbModel
    decreases ops.len(),
{
    if ops.len() == 0 {
        m
    } else {
        apply_op(run_ops(m, ops.drop_last()), ops.last())
    }
}

/// Whether `ops` leaves the background colour alone.
pub open spec fn keeps_background(ops: Seq<DrawOp>) -> bool {
    forall|i: int| 0 <= i < ops.len() ==> !(#[trigger] ops[i] is SetBackgroundColor)
}

/// No operation changes the size, and the buffer keeps one pixel per screen
/// position.
pub proof fn lemma_ops_keep_size(m: FbModel, ops: Seq<DrawOp>)
    requires
        m.wf(),
    ensures
        run_ops(m, ops).width == m.width,
        run_ops(m, ops).height == m.height,
        run_ops(m, ops).pixels.len() == m.pixels.len(),
        run_ops(m, ops).wf(),
    decreases ops.len(),
{
    if ops.len() > 0 {
        lemma_ops_keep_size(m, ops.drop_last());
        let prev = run_ops(m, ops.drop_last());
        match ops.last() {
            DrawOp::Point(x, y) => {
                if x < prev.width && y < prev.height {
                    lemma_row_bound(prev.width as int, prev.height as int, x as int, y as int);
                }
            },
            _ => {},
        }
    }
}

/// The background colour stays what it was until it is set again.
pub proof fn lemma_background_persists(m: FbModel, ops: Seq<DrawOp>)
    requires
        keeps_background(ops),
    ensures
        run_ops(m, ops).background == m.background,
    decreases ops.len(),
{
    if ops.len() > 0 {
        assert(keeps_background(ops.drop_last())) by {
            assert forall|i: int| 0 <= i < ops.drop_last().len() implies !(
            #[trigger] ops.drop_last()[i] is SetBackgroundColor) by {
                assert(ops.drop_last()[i] == ops[i]);
            }
        }
        lemma_background_persists(m, ops.drop_last());
        assert(!(ops[ops.len() - 1] is SetBackgroundColor));
    }
}

/// After the background is set to `c`, any operations that do not set it
/// again and then a `Clear` leave every pixel `c`, in a buffer of the same
/// size.
pub proof fn lemma_clear_shows_background(m: FbModel, c: u32, ops: Seq<DrawOp>)
    requires
        m.wf(),
        keeps_background(ops),
    ensures
        ({
            let end = run_ops(m, seq![DrawOp::SetBackgroundColor(c)] + ops + seq![DrawOp::Clear]);
            &&& end.wf()
            &&& end.width == m.width
            &&& end.height == m.height
            &&& end.pixels == Seq::new(m.pixels.len(), |i: int| c)
        }),
{
    let first = seq![DrawOp::SetBackgroundColor(c)];
    let all = first + ops + seq![DrawOp::Clear];
    let m1 = apply_op(m, DrawOp::SetBackgroundColor(c));
    assert(run_ops(m, first) == m1) by {
        assert(first.drop_last() =~= Seq::<DrawOp>::empty());
        assert(run_ops(m, first.drop_last()) == m);
    }
    lemma_run_ops_append(m, first, ops);
    lemma_ops_keep_size(m1, ops);
    lemma_background_persists(m1, ops);
    assert(all.drop_last() =~= first + ops);
    assert(all.last() == DrawOp::Clear);
    lemma_ops_keep_size(m, all);
}

/// Running `a` then `b` is running `a + b`.
pub proof fn lemma_run_ops_append(m: FbModel, a: Seq<DrawOp>, b: Seq<DrawOp>)
    ensures
        run_ops(run_ops(m, a), b) == run_ops(m, a + b),
    decreases b.len(),
{
    if b.len() == 0 {
        assert(a + b =~= a);
    } else {
        lemma_run_ops_append(m, a, b.drop_last());
        assert((a + b).drop_last() =~= a + b.drop_last());
        assert((a + b).last() == b.last());
    }
}

/// A pixel framebuffer. `buffer` holds `width * height` pixels, row by row.
pub struct Framebuffer {
    pub width: usize,
    pub height: usize,
    pub buffer: Vec<u32>,
    pub background_color: u32,
    pub current_color: u32,
}

impl Framebuffer {
    /// The abstract state of this framebuffer.
    pub open spec fn model(&self) -> FbModel {
        FbModel {
            width: self.width as nat,
            height: self.height as nat,
            pixels: self.buffer@,
            background: self.background_color,
            current: self.current_color,
        }
    }

    /// The buffer holds exactly one pixel per screen position.
    pub open spec fn wf(&self) -> bool {
        self.buffer@.len() == self.width * self.height
    }

    /// The colour that `clear` fills the buffer with.
    pub open spec fn background(&self) -> u32 {
        self.background_color
    }

    /// The colour that drawing operations use.
    pub open spec fn current(&self) -> u32 {
        self.current_color
    }

    /// The size and both colours are those of `other`.
    pub open spec fn same_settings(&self, other: &Self) -> bool {
        &&& self.width == other.width
        &&& self.height == other.height
        &&& self.background() == other.background()
        &&& self.current() == other.current()
    }

    /// The buffer of `self` with `region` painted in the current colour.
    pub open spec fn painted(&self, region: spec_fn(int, int) -> bool) -> Seq<u32> {
        paint(self.buffer@, self.width as int, region, self.current())
    }

    /// A black `width` x `height` framebuffer; background black, current
    /// colour white. The buffer's bytes must not exceed `isize::MAX`, the most
    /// that a `Vec` can hold.
    pub fn new(width: usize, height: usize) -> (fb: Self)
        requires
            width * height * 4 <= isize::MAX,
        ensures
            fb.wf(),
            fb.width == width,
            fb.height == height,
            fb.buffer@ == Seq::new((width * height) as nat, |i: int| 0u32),
            fb.background() == 0x000000,
            fb.current() == 0xFFFFFF,
    {
        let n = width * height;
        let buffer: Vec<u32> = vec![0u32; n];
        assert(buffer@ =~= Seq::new((width * height) as nat, |i: int| 0u32));
        Framebuffer { width, height, buffer, background_color: 0x000000, current_color: 0xFFFFFF }
    }

    /// Sets every pixel to the background colour.
    pub fn clear(&mut self)
        ensures
            final(self).same_settings(old(self)),
            final(self).buffer@ == Seq::new(old(self).buffer@.len(), |i: int| old(self).background()),
            final(self).model() == apply_op(old(self).model(), DrawOp::Clear),
    {
        let n = self.buffer.len();
        let c = self.background_color;
        let mut i: usize = 0;
        while i < n
            invariant
                self.same_settings(old(self)),
                self.background_color == c,
                n == self.buffer@.len(),
                n == old(self).buffer@.len(),
                i <= n,
                forall|j: int| 0 <= j < i ==> self.buffer@[j] == c,
            decreases n - i,
        {
            self.buffer[i] = c;
            i = i + 1;
        }
        assert(self.buffer@ =~= Seq::new(old(self).buffer@.len(), |i: int| old(self).background()));
    }

    /// Sets pixel `(x, y)` to the current colour when it lies on the screen;
    /// does nothing otherwise.
    pub fn point(&mut self, x: usize, y: usize)
        requires
            x < old(self).width && y < old(self).height ==> y * old(self).width + x < old(
                self,
            ).buffer@.len(),
        ensures
            final(self).same_settings(old(self)),
            x < old(self).width && y < old(self).height ==> final(self).buffer@ == old(
                self,
            ).buffer@.update(y * old(self).width + x, old(self).current()),
            !(x < old(self).width && y < old(self).height) ==> final(self).buffer@ == old(
                self,
            ).buffer@,
            final(self).model() == apply_op(old(self).model(), DrawOp::Point(x, y)),
    {
        let n = self.buffer.len();
        if x < self.width && y < self.height {
            assert(y * self.width + x < n);
            let i = y * self.width + x;
            self.buffer[i] = self.current_color;
        }
    }

    /// Sets the colour that `clear` uses.
    pub fn set_background_color(&mut self, color: u32)
        ensures
            final(self).width == old(self).width,
            final(self).height == old(self).height,
            final(self).buffer@ == old(self).buffer@,
            final(self).current() == old(self).current(),
            final(self).background() == color,
            final(self).model() == apply_op(old(self).model(), DrawOp::SetBackgroundColor(color)),
    {
        self.background_color = color;
    }

    /// Sets the colour that drawing operations use.
    pub fn set_current_color(&mut self, color: u32)
        ensures
            final(self).width == old(self).width,
            final(self).height == old(self).height,
            final(self).buffer@ == old(self).buffer@,
            final(self).background() == old(self).background(),
            final(self).current() == color,
            final(self).model() == apply_op(old(self).model(), DrawOp::SetCurrentColor(color)),
    {
        self.current_color = color;
    }

    /// The current colour.
    pub fn current_color(&self) -> (c: u32)
        ensures
            c == self.current(),
    {
        self.current_color
    }

    /// The background colour.
    pub fn background_color(&self) -> (c: u32)
        ensures
            c == self.background(),
    {
        self.background_color
    }

    /// Sets, in the current colour, every on-screen pixel of the rectangle
    /// `[x0, x1) x [y0, y1)`.
    pub fn fill_rect(&mut self, x0: usize, x1: usize, y0: usize, y1: usize)
        requires
            old(self).wf(),
        ensures
            final(self).wf(),
            final(self).same_settings(old(self)),
            final(self).buffer@ == old(self).painted(
                |px: int, py: int| in_rect(px, py, x0 as int, x1 as int, y0 as int, y1 as int),
            ),
            final(self).model() == apply_op(old(self).model(), DrawOp::FillRect(x0, x1, y0, y1)),
    {
        let xe = if x1 < self.width {
            x1
        } else {
            self.width
        };
        let ye = if y1 < self.height {
            y1
        } else {
            self.height
        };
        let ghost buf0 = self.buffer@;
        let ghost w = self.width as int;
        let ghost h = self.height as int;
        let ghost c = self.current();
        let c_exec = self.current_color;
        let n = self.buffer.len();
        proof {
            lemma_paint_congruent(buf0, w, h, |px: int, py: int| false, |px: int, py: int| in_rect(px, py, x0 as int, xe as int, y0 as int, y0 as int), c);
            assert(paint(buf0, w, |px: int, py: int| false, c) =~= buf0);
        }
        let mut y = y0;
        while y < ye
            invariant
                self.wf(),
                self.same_settings(old(self)),
                self.current_color == c_exec,
                c_exec == c,
                w == self.width,
                h == self.height,
                buf0 == old(self).buffer@,
                buf0.len() == w * h,
                n == w * h,
                c == old(self).current(),
                xe <= self.width,
                ye <= self.height,
                y0 <= y,
                y <= ye || y == y0,
                self.buffer@ == paint(
                    buf0,
                    w,
                    |px: int, py: int| in_rect(px, py, x0 as int, xe as int, y0 as int, y as int),
                    c,
                ),
            decreases ye - y,
        {
            let ghost ry = |px: int, py: int|
                in_rect(px, py, x0 as int, xe as int, y0 as int, y as int);
            proof {
                lemma_paint_congruent(buf0, w, h, ry, |px: int, py: int| ry(px, py) || (py == y && x0 <= px < x0), c);
            }
            let mut x = x0;
            while x < xe
                invariant
                    self.wf(),
                    self.same_settings(old(self)),
                    self.current_color == c_exec,
                    c_exec == c,
                    w == self.width,
                    h == self.height,
                    buf0.len() == w * h,
                    n == w * h,
                    xe <= self.width,
                    y < ye,
                    ye <= self.height,
                    x0 <= x,
                    x <= xe || x == x0,
                    self.buffer@ == paint(
                        buf0,
                        w,
                        |px: int, py: int| ry(px, py) || (py == y && x0 <= px < x),
                        c,
                    ),
                decreases xe - x,
            {
                proof {
                    lemma_row_bound(w, h, x as int, y as int);
                    lemma_paint_add_pixel(
                        buf0,
                        w,
                        h,
                        |px: int, py: int| ry(px, py) || (py == y && x0 <= px < x),
                        |px: int, py: int| ry(px, py) || (py == y && x0 <= px < x + 1),
                        c,
                        x as int,
                        y as int,
                    );
                }
                let i = y * self.width + x;
                self.buffer[i] = c_exec;
                x = x + 1;
            }
            proof {
                lemma_paint_congruent(
                    buf0,
                    w,
                    h,
                    |px: int, py: int| ry(px, py) || (py == y && x0 <= px < x),
                    |px: int, py: int| in_rect(px, py, x0 as int, xe as int, y0 as int, y + 1),
                    c,
                );
            }
            y = y + 1;
        }
        proof {
            lemma_paint_congruent(
                buf0,
                w,
                h,
                |px: int, py: int| in_rect(px, py, x0 as int, xe as int, y0 as int, y as int),
                |px: int, py: int| in_rect(px, py, x0 as int, x1 as int, y0 as int, y1 as int),
                c,
            );
        }
    }

    /// Sets, in the current colour, the on-screen pixels `(x, y)` of row `y`
    /// with `x_from <= x < x_to`.
    pub fn fill_span(&mut self, y: usize, x_from: usize, x_to: usize)
        requires
            old(self).wf(),
        ensures
            final(self).wf(),
            final(self).same_settings(old(self)),
            final(self).buffer@ == old(self).painted(
                |px: int, py: int| py == y && x_from <= px < x_to,
            ),
            final(self).model() == apply_op(old(self).model(), DrawOp::FillSpan(y, x_from, x_to)),
    {
        let ghost w = self.width as int;
        let ghost h = self.height as int;
        if y < self.height {
            self.fill_rect(x_from, x_to, y, y + 1);
            proof {
                lemma_paint_congruent(
                    old(self).buffer@,
                    w,
                    h,
                    |px: int, py: int| in_rect(px, py, x_from as int, x_to as int, y as int, y + 1),
                    |px: int, py: int| py == y && x_from <= px < x_to,
                    old(self).current(),
                );
            }
        } else {
            proof {
                lemma_paint_congruent(
                    old(self).buffer@,
                    w,
                    h,
                    |px: int, py: int| false,
                    |px: int, py: int| py == y && x_from <= px < x_to,
                    old(self).current(),
                );
                assert(paint(old(self).buffer@, w, |px: int, py: int| false, old(self).current())
                    =~= old(self).buffer@);
            }
        }
    }
}

} // verus!

use vstd::prelude::*;

use crate::framebuffer::{on_screen, screen_pixel, Framebuffer};

verus! {

/// A pixel position as mathematical integers.
pub open spec fn point(position: (isize, isize)) -> (int, int) {
    (position.0 as int, position.1 as int)
}

/// A region of the plane that clips drawing.
pub trait Mask: Sized {
    /// Whether the region contains `p`.
    spec fn covers(&self, p: (int, int)) -> bool;

    /// Numbers that fix the region.
    spec fn params(&self) -> Seq<int>;

    /// Masks with the same parameters cover the same points.
    proof fn lemma_params_determine(a: &Self, b: &Self)
        requires
            a.params() == b.params(),
        ensures
            forall|q: (int, int)| #[trigger] a.covers(q) == b.covers(q),
    ;

    fn get_mask(&self, position: (isize, isize)) -> (r: bool)
        ensures
            r == self.covers(point(position)),
    ;
}

/// A surface of binary pixels.
///
/// `pixel` is what `get_pixel` reads; `paintable` holds where `set_pixel`
/// takes effect; `addressable` holds where a position may be passed at all
/// (an adapter's arithmetic stays in range). `setup` is the configuration
/// that drawing never changes (an adapter's offset or clip), and it fixes
/// `paintable` and `addressable`.
pub trait DrawTarget: Sized {
    spec fn pixel(&self, p: (int, int)) -> bool;

    spec fn paintable(&self, p: (int, int)) -> bool;

    spec fn addressable(&self, p: (int, int)) -> bool;

    spec fn setup(&self) -> Seq<int>;

    /// Targets with the same setup take writes at the same positions.
    proof fn lemma_setup_determines(a: &Self, b: &Self)
        requires
            a.setup() == b.setup(),
        ensures
            forall|q: (int, int)| #[trigger] a.paintable(q) == b.paintable(q),
            forall|q: (int, int)| #[trigger] a.addressable(q) == b.addressable(q),
    ;

    /// Writes `color` at `position` where it is paintable; every other
    /// pixel, and the target's geometry, stay as they were.
    fn set_pixel(&mut self, position: (isize, isize), color: bool)
        requires
            old(self).addressable(point(position)),
        ensures
            final(self).setup() == old(self).setup(),
            forall|q: (int, int)| #[trigger] final(self).paintable(q) == old(self).paintable(q),
            forall|q: (int, int)| #[trigger] final(self).addressable(q) == old(self).addressable(q),
            forall|q: (int, int)|
                #[trigger] final(self).pixel(q) == if q == point(position) && old(self).paintable(q) {
                    color
                } else {
                    old(self).pixel(q)
                },
    ;

    fn get_pixel(&self, position: (isize, isize)) -> (r: bool)
        requires
            self.addressable(point(position)),
        ensures
            r == self.pixel(point(position)),
    ;
}

/// `after` has the same paintable and addressable positions as `before`.
pub open spec fn same_geometry<T: DrawTarget>(before: T, after: T) -> bool {
    &&& after.setup() == before.setup()
    &&& forall|q: (int, int)| #[trigger] after.paintable(q) == before.paintable(q)
    &&& forall|q: (int, int)| #[trigger] after.addressable(q) == before.addressable(q)
}

/// `after` is `before` with `color` written over the paintable part of
/// `region`, and nothing else changed.
pub open spec fn painted<T: DrawTarget>(before: T, after: T, region: spec_fn((int, int)) -> bool, color: bool) -> bool {
    &&& same_geometry(before, after)
    &&& forall|q: (int, int)|
        #[trigger] after.pixel(q) == if region(q) && before.paintable(q) {
            color
        } else {
            before.pixel(q)
        }
}

/// Every position of `region` may be passed to `target`.
pub open spec fn addressable_region<T: DrawTarget>(target: T, region: spec_fn((int, int)) -> bool) -> bool {
    forall|q: (int, int)| region(q) ==> #[trigger] target.addressable(q)
}

/// `after` is what `set_pixel(p, color)` leaves of `before`.
pub open spec fn point_set<T: DrawTarget>(before: T, after: T, p: (int, int), color: bool) -> bool {
    &&& same_geometry(before, after)
    &&& forall|q: (int, int)|
        #[trigger] after.pixel(q) == if q == p && before.paintable(q) {
            color
        } else {
            before.pixel(q)
        }
}

/// Painting `region` and then the point `p` paints `grown`, the region
/// with `p` added.
pub proof fn lemma_paint_point<T: DrawTarget>(
    a: T,
    b: T,
    c: T,
    region: spec_fn((int, int)) -> bool,
    p: (int, int),
    grown: spec_fn((int, int)) -> bool,
    color: bool,
)
    requires
        painted(a, b, region, color),
        point_set(b, c, p, color),
        forall|q: (int, int)| #[trigger] grown(q) == (region(q) || q == p),
    ensures
        painted(a, c, grown, color),
{
    assert forall|q: (int, int)| #[trigger] c.pixel(q) == if grown(q) && a.paintable(q) {
        color
    } else {
        a.pixel(q)
    } by {
        assert(b.paintable(q) == a.paintable(q));
        assert(b.pixel(q) == if region(q) && a.paintable(q) { color } else { a.pixel(q) });
        assert(grown(q) == (region(q) || q == p));
    }
    assert forall|q: (int, int)| #[trigger] c.paintable(q) == a.paintable(q) by {
        assert(b.paintable(q) == a.paintable(q));
    }
    assert forall|q: (int, int)| #[trigger] c.addressable(q) == a.addressable(q) by {
        assert(b.addressable(q) == a.addressable(q));
    }
}

/// A region painted in one color.
pub type Stroke = (spec_fn((int, int)) -> bool, bool);

/// The color of a pixel whose color was `base` after `strokes` are painted
/// in order: the last stroke covering `q` wins.
pub open spec fn stroked(base: bool, strokes: Seq<Stroke>, q: (int, int)) -> bool
    decreases strokes.len(),
{
    if strokes.len() == 0 {
        base
    } else if (strokes.last().0)(q) {
        strokes.last().1
    } else {
        stroked(base, strokes.drop_last(), q)
    }
}

/// `after` is `before` with `strokes` painted in order.
pub open spec fn drawn<T: DrawTarget>(before: T, after: T, strokes: Seq<Stroke>) -> bool {
    &&& same_geometry(before, after)
    &&& forall|q: (int, int)|
        #[trigger] after.pixel(q) == if before.paintable(q) {
            stroked(before.pixel(q), strokes, q)
        } else {
            before.pixel(q)
        }
}

/// Nothing drawn yet.
pub proof fn lemma_drawn_start<T: DrawTarget>(a: T)
    ensures
        drawn(a, a, seq![]),
{
}

/// One more painted region extends the stroke list.
pub proof fn lemma_drawn_then_painted<T: DrawTarget>(
    a: T,
    b: T,
    c: T,
    strokes: Seq<Stroke>,
    region: spec_fn((int, int)) -> bool,
    color: bool,
)
    requires
        drawn(a, b, strokes),
        painted(b, c, region, color),
    ensures
        drawn(a, c, strokes.push((region, color))),
{
    let next = strokes.push((region, color));
    assert(next.drop_last() =~= strokes);
    assert forall|q: (int, int)| #[trigger] c.pixel(q) == if a.paintable(q) {
        stroked(a.pixel(q), next, q)
    } else {
        a.pixel(q)
    } by {
        assert(b.paintable(q) == a.paintable(q));
        assert(b.pixel(q) == if a.paintable(q) { stroked(a.pixel(q), strokes, q) } else { a.pixel(q) });
    }
    assert forall|q: (int, int)| #[trigger] c.paintable(q) == a.paintable(q) by {
        assert(b.paintable(q) == a.paintable(q));
    }
    assert forall|q: (int, int)| #[trigger] c.addressable(q) == a.addressable(q) by {
        assert(b.addressable(q) == a.addressable(q));
    }
}

/// Painting `s1` and then `s2` is painting `s1 + s2`.
pub proof fn lemma_stroked_concat(base: bool, s1: Seq<Stroke>, s2: Seq<Stroke>, q: (int, int))
    ensures
        stroked(base, s1 + s2, q) == stroked(stroked(base, s1, q), s2, q),
    decreases s2.len(),
{
    if s2.len() == 0 {
        assert(s1 + s2 =~= s1);
    } else {
        assert((s1 + s2).drop_last() =~= s1 + s2.drop_last());
        assert((s1 + s2).last() == s2.last());
        lemma_stroked_concat(base, s1, s2.drop_last(), q);
    }
}

/// Drawing two stroke lists one after the other draws their concatenation.
pub proof fn lemma_drawn_concat<T: DrawTarget>(a: T, b: T, c: T, s1: Seq<Stroke>, s2: Seq<Stroke>)
    requires
        drawn(a, b, s1),
        drawn(b, c, s2),
    ensures
        drawn(a, c, s1 + s2),
{
    assert forall|q: (int, int)| #[trigger] c.pixel(q) == if a.paintable(q) {
        stroked(a.pixel(q), s1 + s2, q)
    } else {
        a.pixel(q)
    } by {
        assert(b.paintable(q) == a.paintable(q));
        assert(b.pixel(q) == if a.paintable(q) { stroked(a.pixel(q), s1, q) } else { a.pixel(q) });
        lemma_stroked_concat(a.pixel(q), s1, s2, q);
    }
    assert forall|q: (int, int)| #[trigger] c.paintable(q) == a.paintable(q) by {
        assert(b.paintable(q) == a.paintable(q));
    }
    assert forall|q: (int, int)| #[trigger] c.addressable(q) == a.addressable(q) by {
        assert(b.addressable(q) == a.addressable(q));
    }
}

impl DrawTarget for Framebuffer {
    open spec fn pixel(&self, p: (int, int)) -> bool {
        screen_pixel(self.buffer@, p.0, p.1)
    }

    open spec fn paintable(&self, p: (int, int)) -> bool {
        on_screen(p.0, p.1)
    }

    open spec fn addressable(&self, p: (int, int)) -> bool {
        true
    }

    open spec fn setup(&self) -> Seq<int> {
        seq![]
    }

    proof fn lemma_setup_determines(a: &Self, b: &Self) {
    }

    fn set_pixel(&mut self, position: (isize, isize), color: bool) {
        self.set(position, color);
        proof {
            assert forall|q: (int, int)| #[trigger] self.pixel(q) == if q == point(position) && old(self).paintable(q) {
                color
            } else {
                old(self).pixel(q)
            } by {
                assert(self.pixel_at(q.0, q.1) == old(self).pixel_at(q.0, q.1) || (q.0 == position.0 && q.1
                    == position.1));
            }
        }
    }

    fn get_pixel(&self, position: (isize, isize)) -> (r: bool) {
        self.get(position)
    }
}

/// Whether `a + b` fits in `isize`.
pub open spec fn fits_isize(v: int) -> bool {
    isize::MIN <= v <= isize::MAX
}

/// Draws onto `inner` shifted by `offset`: position `p` lands on
/// `p + offset`.
pub struct TranslatedDrawTarget<Inner: DrawTarget> {
    inner: Inner,
    offset: (isize, isize),
}

impl<Inner: DrawTarget> TranslatedDrawTarget<Inner> {
    /// The wrapped target.
    pub closed spec fn inner_target(&self) -> Inner {
        self.inner
    }

    /// The shift applied to every position.
    pub closed spec fn shift(&self) -> (isize, isize) {
        self.offset
    }

    pub fn new(inner: Inner, offset: (isize, isize)) -> (r: Self)
        ensures
            r.inner_target() == inner,
            r.shift() == offset,
    {
        TranslatedDrawTarget { inner, offset }
    }

    /// Gives the wrapped target back.
    pub fn into_inner(self) -> (r: Inner)
        ensures
            r == self.inner_target(),
    {
        self.inner
    }
}

impl<Inner: DrawTarget> DrawTarget for TranslatedDrawTarget<Inner> {
    closed spec fn pixel(&self, p: (int, int)) -> bool {
        self.inner.pixel((p.0 + self.offset.0, p.1 + self.offset.1))
    }

    closed spec fn paintable(&self, p: (int, int)) -> bool {
        self.inner.paintable((p.0 + self.offset.0, p.1 + self.offset.1))
    }

    closed spec fn addressable(&self, p: (int, int)) -> bool {
        &&& fits_isize(p.0) && fits_isize(p.1)
        &&& fits_isize(p.0 + self.offset.0) && fits_isize(p.1 + self.offset.1)
        &&& self.inner.addressable((p.0 + self.offset.0, p.1 + self.offset.1))
    }

    closed spec fn setup(&self) -> Seq<int> {
        seq![self.offset.0 as int, self.offset.1 as int] + self.inner.setup()
    }

    proof fn lemma_setup_determines(a: &Self, b: &Self) {
        let sa = a.setup();
        assert(sa[0] == a.offset.0 && sa[1] == a.offset.1);
        assert(b.setup()[0] == b.offset.0 && b.setup()[1] == b.offset.1);
        assert(sa.subrange(2, sa.len() as int) =~= a.inner.setup());
        assert(b.setup().subrange(2, b.setup().len() as int) =~= b.inner.setup());
        Inner::lemma_setup_determines(&a.inner, &b.inner);
        assert forall|q: (int, int)| #[trigger] a.paintable(q) == b.paintable(q) by {
            let t = (q.0 + a.offset.0, q.1 + a.offset.1);
            assert(a.inner.paintable(t) == b.inner.paintable(t));
        }
        assert forall|q: (int, int)| #[trigger] a.addressable(q) == b.addressable(q) by {
            let t = (q.0 + a.offset.0, q.1 + a.offset.1);
            assert(a.inner.addressable(t) == b.inner.addressable(t));
        }
    }

    fn set_pixel(&mut self, position: (isize, isize), color: bool) {
        let target = (position.0 + self.offset.0, position.1 + self.offset.1);
        self.inner.set_pixel(target, color);
        proof {
            assert forall|q: (int, int)| #[trigger] self.pixel(q) == if q == point(position) && old(self).paintable(q) {
                color
            } else {
                old(self).pixel(q)
            } by {
                let t = (q.0 + self.offset.0, q.1 + self.offset.1);
                assert(self.inner.pixel(t) == if t == point(target) && old(self).inner.paintable(t) {
                    color
                } else {
                    old(self).inner.pixel(t)
                });
            }
            assert forall|q: (int, int)| #[trigger] self.paintable(q) == old(self).paintable(q) by {
                let t = (q.0 + self.offset.0, q.1 + self.offset.1);
                assert(self.inner.paintable(t) == old(self).inner.paintable(t));
            }
            assert forall|q: (int, int)| #[trigger] self.addressable(q) == old(self).addressable(q) by {
                let t = (q.0 + self.offset.0, q.1 + self.offset.1);
                assert(self.inner.addressable(t) == old(self).inner.addressable(t));
            }
        }
    }

    fn get_pixel(&self, position: (isize, isize)) -> (r: bool) {
        self.inner.get_pixel((position.0 + self.offset.0, position.1 + self.offset.1))
    }
}

/// Draws onto `inner` only where `mask` covers; reads see `inner` whole.
pub struct MaskedDrawTarget<Inner: DrawTarget, M: Mask> {
    inner: Inner,
    mask: M,
}

impl<Inner: DrawTarget, M: Mask> MaskedDrawTarget<Inner, M> {
    /// The wrapped target.
    pub closed spec fn inner_target(&self) -> Inner {
        self.inner
    }

    /// The clipping region.
    pub closed spec fn clip(&self) -> M {
        self.mask
    }

    pub fn new(inner: Inner, mask: M) -> (r: Self)
        ensures
            r.inner_target() == inner,
            r.clip() == mask,
    {
        MaskedDrawTarget { inner, mask }
    }

    /// Gives the wrapped target back.
    pub fn into_inner(self) -> (r: Inner)
        ensures
            r == self.inner_target(),
    {
        self.inner
    }
}

impl<Inner: DrawTarget, M: Mask> DrawTarget for MaskedDrawTarget<Inner, M> {
    closed spec fn pixel(&self, p: (int, int)) -> bool {
        self.inner.pixel(p)
    }

    closed spec fn paintable(&self, p: (int, int)) -> bool {
        self.mask.covers(p) && self.inner.paintable(p)
    }

    closed spec fn addressable(&self, p: (int, int)) -> bool {
        self.inner.addressable(p)
    }

    closed spec fn setup(&self) -> Seq<int> {
        seq![self.mask.params().len() as int] + self.mask.params() + self.inner.setup()
    }

    proof fn lemma_setup_determines(a: &Self, b: &Self) {
        let pa = a.mask.params();
        let pb = b.mask.params();
        assert(a.setup()[0] == pa.len());
        assert(b.setup()[0] == pb.len());
        assert(a.setup().subrange(1, pa.len() as int + 1) =~= pa);
        assert(b.setup().subrange(1, pb.len() as int + 1) =~= pb);
        assert(a.setup().subrange(pa.len() as int + 1, a.setup().len() as int) =~= a.inner.setup());
        assert(b.setup().subrange(pb.len() as int + 1, b.setup().len() as int) =~= b.inner.setup());
        M::lemma_params_determine(&a.mask, &b.mask);
        Inner::lemma_setup_determines(&a.inner, &b.inner);
    }

    fn set_pixel(&mut self, position: (isize, isize), color: bool) {
        if self.mask.get_mask(position) {
            self.inner.set_pixel(position, color);
        }
    }

    fn get_pixel(&self, position: (isize, isize)) -> (r: bool) {
        self.inner.get_pixel(position)
    }
}

/// Painting through a translation paints the wrapped target in the
/// shifted region; the shift stays as it was.
pub proof fn lemma_translated_painted<Inner: DrawTarget>(
    a: TranslatedDrawTarget<Inner>,
    b: TranslatedDrawTarget<Inner>,
    region: spec_fn((int, int)) -> bool,
    color: bool,
)
    requires
        painted(a, b, region, color),
    ensures
        b.shift() == a.shift(),
        painted(
            a.inner_target(),
            b.inner_target(),
            |p: (int, int)| region((p.0 - a.shift().0, p.1 - a.shift().1)),
            color,
        ),
{
    assert(a.setup()[0] == a.offset.0 && a.setup()[1] == a.offset.1);
    assert(b.setup()[0] == b.offset.0 && b.setup()[1] == b.offset.1);
    assert(a.setup().subrange(2, a.setup().len() as int) =~= a.inner.setup());
    assert(b.setup().subrange(2, b.setup().len() as int) =~= b.inner.setup());
    Inner::lemma_setup_determines(&a.inner, &b.inner);
    let shifted = |p: (int, int)| region((p.0 - a.shift().0, p.1 - a.shift().1));
    assert forall|p: (int, int)| #[trigger] b.inner.pixel(p) == if shifted(p) && a.inner.paintable(p) {
        color
    } else {
        a.inner.pixel(p)
    } by {
        let q = (p.0 - a.offset.0, p.1 - a.offset.1);
        assert(b.pixel(q) == if region(q) && a.paintable(q) { color } else { a.pixel(q) });
        assert((q.0 + a.offset.0, q.1 + a.offset.1) == p);
    }
}

/// Painting through a mask paints the wrapped target where the mask
/// covers; the mask stays as it was.
pub proof fn lemma_masked_painted<Inner: DrawTarget, M: Mask>(
    a: MaskedDrawTarget<Inner, M>,
    b: MaskedDrawTarget<Inner, M>,
    region: spec_fn((int, int)) -> bool,
    color: bool,
)
    requires
        painted(a, b, region, color),
    ensures
        b.clip().params() == a.clip().params(),
        painted(a.inner_target(), b.inner_target(), |p: (int, int)| region(p) && a.clip().covers(p), color),
{
    let pa = a.mask.params();
    let pb = b.mask.params();
    assert(a.setup()[0] == pa.len());
    assert(b.setup()[0] == pb.len());
    assert(a.setup().subrange(1, pa.len() as int + 1) =~= pa);
    assert(b.setup().subrange(1, pb.len() as int + 1) =~= pb);
    assert(a.setup().subrange(pa.len() as int + 1, a.setup().len() as int) =~= a.inner.setup());
    assert(b.setup().subrange(pb.len() as int + 1, b.setup().len() as int) =~= b.inner.setup());
    Inner::lemma_setup_determines(&a.inner, &b.inner);
    assert forall|p: (int, int)| #[trigger] b.inner.pixel(p) == if (region(p) && a.mask.covers(p))
        && a.inner.paintable(p) {
        color
    } else {
        a.inner.pixel(p)
    } by {
        assert(b.pixel(p) == if region(p) && a.paintable(p) { color } else { a.pixel(p) });
    }
}

/// What a translated target reads, takes and accepts, in terms of the
/// wrapped target.
pub proof fn lemma_translated_view<Inner: DrawTarget>(t: TranslatedDrawTarget<Inner>)
    ensures
        forall|q: (int, int)|
            #[trigger] t.pixel(q) == t.inner_target().pixel((q.0 + t.shift().0, q.1 + t.shift().1)),
        forall|q: (int, int)|
            #[trigger] t.addressable(q) == (fits_isize(q.0) && fits_isize(q.1) && fits_isize(q.0 + t.shift().0)
                && fits_isize(q.1 + t.shift().1) && t.inner_target().addressable((q.0 + t.shift().0, q.1 + t.shift().1))),
{
}

/// What a masked target reads and accepts, in terms of the wrapped target.
pub proof fn lemma_masked_view<Inner: DrawTarget, M: Mask>(m: MaskedDrawTarget<Inner, M>)
    ensures
        forall|q: (int, int)| #[trigger] m.pixel(q) == m.inner_target().pixel(q),
        forall|q: (int, int)| #[trigger] m.addressable(q) == m.inner_target().addressable(q),
{
}

/// The closed rectangle from `upper_left` to `lower_right`, both corners
/// included.
pub struct RectMask {
    pub upper_left: (isize, isize),
    pub lower_right: (isize, isize),
}

impl Mask for RectMask {
    open spec fn covers(&self, p: (int, int)) -> bool {
        self.upper_left.0 <= p.0 <= self.lower_right.0 && self.upper_left.1 <= p.1 <= self.lower_right.1
    }

    open spec fn params(&self) -> Seq<int> {
        seq![
            self.upper_left.0 as int,
            self.upper_left.1 as int,
            self.lower_right.0 as int,
            self.lower_right.1 as int,
        ]
    }

    proof fn lemma_params_determine(a: &Self, b: &Self) {
        assert(a.params()[0] == a.upper_left.0 && b.params()[0] == b.upper_left.0);
        assert(a.params()[1] == a.upper_left.1 && b.params()[1] == b.upper_left.1);
        assert(a.params()[2] == a.lower_right.0 && b.params()[2] == b.lower_right.0);
        assert(a.params()[3] == a.lower_right.1 && b.params()[3] == b.lower_right.1);
    }

    fn get_mask(&self, position: (isize, isize)) -> (r: bool) {
        self.upper_left.0 <= position.0 && position.0 <= self.lower_right.0 && self.upper_left.1 <= position.1
            && position.1 <= self.lower_right.1
    }
}

} // verus!

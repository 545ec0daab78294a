//! Views of the complex plane and the history of views a session walks through.

use crate::binary32::{double_encoding, doubled, encoding_is_finite, encoding_less, is_finite, less};
use crate::binary32::{lemma_doubled_is_twice, lemma_doubled_times_is_power, magnitude, scaled_magnitude, two_to, TOP_BINADE};
use vstd::prelude::*;

verus! {

/// A point of the complex plane; each component is a binary32 encoding.
#[derive(Clone, Copy, Debug, PartialEq, Eq, Structural)]
pub struct ComplexPoint {
    pub re: u32,
    pub im: u32,
}

/// An axis-aligned rectangle of the complex plane, given by two corners.
#[derive(Clone, Copy, Debug, PartialEq, Eq, Structural)]
pub struct ViewBounds {
    pub upper_left: ComplexPoint,
    pub lower_right: ComplexPoint,
}

/// Why a pair of corners is no view.
#[derive(Clone, Copy, Debug, PartialEq, Eq, Structural)]
pub enum BoundsError {
    /// A component is infinite or not a number.
    NotFinite,
    /// The upper left corner is not strictly left of and above the lower right one.
    Degenerate,
}

impl ComplexPoint {
    /// Whether both components are finite numbers.
    pub open spec fn finite(self) -> bool {
        is_finite(self.re) && is_finite(self.im)
    }

    /// The point twice as far from the origin.
    pub open spec fn doubled(self) -> ComplexPoint {
        ComplexPoint { re: doubled(self.re), im: doubled(self.im) }
    }

    /// The point twice as far from the origin.
    pub fn double(&self) -> (r: ComplexPoint)
        ensures
            r == self.doubled(),
    {
        ComplexPoint { re: double_encoding(self.re), im: double_encoding(self.im) }
    }
}

impl ViewBounds {
    /// Whether all four components are finite.
    pub open spec fn finite(self) -> bool {
        self.upper_left.finite() && self.lower_right.finite()
    }

    /// Whether the rectangle has positive width and height.
    pub open spec fn proper(self) -> bool {
        less(self.upper_left.re, self.lower_right.re) && less(
            self.upper_left.im,
            self.lower_right.im,
        )
    }

    /// The rectangle with both corners twice as far from the origin.
    pub open spec fn doubled(self) -> ViewBounds {
        ViewBounds {
            upper_left: self.upper_left.doubled(),
            lower_right: self.lower_right.doubled(),
        }
    }

    /// The default view of a new session: from -2 - 1.5i to 1 + 1.5i.
    pub open spec fn initial_view() -> ViewBounds {
        ViewBounds {
            upper_left: ComplexPoint { re: 0xc000_0000, im: 0xbfc0_0000 },
            lower_right: ComplexPoint { re: 0x3f80_0000, im: 0x3fc0_0000 },
        }
    }

    /// The default view of a new session.
    pub fn initial() -> (r: ViewBounds)
        ensures
            r == Self::initial_view(),
            r.finite(),
            r.proper(),
    {
        ViewBounds {
            upper_left: ComplexPoint { re: 0xc000_0000, im: 0xbfc0_0000 },
            lower_right: ComplexPoint { re: 0x3f80_0000, im: 0x3fc0_0000 },
        }
    }

    /// The view between two corners. Corners that are not finite are refused,
    /// and so are finite corners that span no area.
    pub fn new(upper_left: ComplexPoint, lower_right: ComplexPoint) -> (r: Result<
        ViewBounds,
        BoundsError,
    >)
        ensures
            r is Ok <==> (ViewBounds { upper_left, lower_right }).finite() && (ViewBounds {
                upper_left,
                lower_right,
            }).proper(),
            r is Ok ==> r->Ok_0 == (ViewBounds { upper_left, lower_right }),
            r == Err::<ViewBounds, BoundsError>(BoundsError::NotFinite) <==> !(ViewBounds {
                upper_left,
                lower_right,
            }).finite(),
            r is Err ==> (r->Err_0 == BoundsError::NotFinite || r->Err_0
                == BoundsError::Degenerate),
    {
        let bounds = ViewBounds { upper_left, lower_right };
        if !(encoding_is_finite(upper_left.re) && encoding_is_finite(upper_left.im)
            && encoding_is_finite(lower_right.re) && encoding_is_finite(lower_right.im)) {
            return Err(BoundsError::NotFinite);
        }
        if !bounds.is_proper() {
            return Err(BoundsError::Degenerate);
        }
        Ok(bounds)
    }

    /// Whether the rectangle has positive width and height.
    pub fn is_proper(&self) -> (r: bool)
        ensures
            r == self.proper(),
    {
        encoding_less(self.upper_left.re, self.lower_right.re) && encoding_less(
            self.upper_left.im,
            self.lower_right.im,
        )
    }

    /// The rectangle with both corners twice as far from the origin.
    pub fn double(&self) -> (r: ViewBounds)
        ensures
            r == self.doubled(),
    {
        ViewBounds { upper_left: self.upper_left.double(), lower_right: self.lower_right.double() }
    }
}

/// The history after zooming out of `views`: above the root the top view is
/// dropped, and at the root the sole view is doubled.
pub open spec fn zoomed_out(views: Seq<ViewBounds>) -> Seq<ViewBounds>
    recommends
        views.len() >= 1,
{
    if views.len() > 1 {
        views.drop_last()
    } else {
        seq![views[0].doubled()]
    }
}

/// The history after zooming out of `views` `k` times.
pub open spec fn zoomed_out_times(views: Seq<ViewBounds>, k: nat) -> Seq<ViewBounds>
    decreases k,
{
    if k == 0 {
        views
    } else {
        zoomed_out(zoomed_out_times(views, (k - 1) as nat))
    }
}

/// The root view doubled `k` times.
pub open spec fn doubled_times(b: ViewBounds, k: nat) -> ViewBounds
    decreases k,
{
    if k == 0 {
        b
    } else {
        doubled_times(b, (k - 1) as nat).doubled()
    }
}

/// The navigation history: a stack of views that is never empty. The last
/// view is the active one.
pub struct ViewStack {
    views: Vec<ViewBounds>,
}

impl ViewStack {
    /// The views from the root to the active one.
    pub closed spec fn view(&self) -> Seq<ViewBounds> {
        self.views@
    }

    /// The history holds at least its root.
    #[verifier::type_invariant]
    spec fn holds_root(self) -> bool {
        self.views@.len() >= 1
    }

    /// A history whose root and active view is `root`.
    pub fn new(root: ViewBounds) -> (stack: ViewStack)
        ensures
            stack@ == seq![root],
    {
        let mut views: Vec<ViewBounds> = Vec::new();
        views.push(root);
        assert(views@ =~= seq![root]);
        ViewStack { views }
    }

    /// The number of views in the history, which is never empty.
    pub fn len(&self) -> (n: usize)
        ensures
            n == self@.len(),
            n >= 1,
    {
        proof {
            use_type_invariant(self);
        }
        self.views.len()
    }

    /// The active view.
    pub fn top(&self) -> (bounds: ViewBounds)
        ensures
            self@.len() >= 1,
            bounds == self@.last(),
    {
        proof {
            use_type_invariant(self);
        }
        self.views[self.views.len() - 1]
    }

    /// Takes the views out of the history, which holds `keep` alone meanwhile.
    fn take_views(&mut self, keep: ViewBounds) -> (views: Vec<ViewBounds>)
        ensures
            views@ == old(self)@,
            views@.len() >= 1,
            final(self)@ == seq![keep],
    {
        proof {
            use_type_invariant(&*self);
        }
        let mut views: Vec<ViewBounds> = Vec::new();
        views.push(keep);
        assert(views@ =~= seq![keep]);
        std::mem::swap(&mut views, &mut self.views);
        views
    }

    /// Makes `bounds` the active view, above all earlier ones.
    pub fn push(&mut self, bounds: ViewBounds)
        ensures
            final(self)@ == old(self)@.push(bounds),
    {
        let mut views = self.take_views(bounds);
        views.push(bounds);
        self.views = views;
    }

    /// Zooms out one step and returns the view that is active afterwards:
    /// above the root the active view is dropped, at the root the sole view is
    /// replaced by its double.
    pub fn pop_or_double(&mut self) -> (bounds: ViewBounds)
        ensures
            old(self)@.len() >= 1,
            final(self)@ == zoomed_out(old(self)@),
            final(self)@.len() >= 1,
            bounds == final(self)@.last(),
    {
        // The double of the active view stands in while the views are taken
        // out; at the root it is also the result.
        let wider = self.top().double();
        let mut views = self.take_views(wider);
        if views.len() > 1 {
            views.pop();
            let bounds = views[views.len() - 1];
            self.views = views;
            bounds
        } else {
            wider
        }
    }
}

/// Zooming out never empties the history.
pub proof fn lemma_zoomed_out_keeps_root(views: Seq<ViewBounds>, k: nat)
    requires
        views.len() >= 1,
    ensures
        zoomed_out_times(views, k).len() >= 1,
    decreases k,
{
    if k > 0 {
        lemma_zoomed_out_keeps_root(views, (k - 1) as nat);
    }
}

/// Zooming out directly after a push restores the history as it was before
/// the push, and with it the view that was active.
pub proof fn lemma_push_then_zoom_out(views: Seq<ViewBounds>, bounds: ViewBounds)
    requires
        views.len() >= 1,
    ensures
        zoomed_out(views.push(bounds)) == views,
        zoomed_out(views.push(bounds)).last() == views.last(),
{
    assert(views.push(bounds).drop_last() =~= views);
}

/// At the root, zooming out `k` times leaves a history of one view: the root
/// doubled `k` times.
pub proof fn lemma_zoom_out_at_root(root: ViewBounds, k: nat)
    ensures
        zoomed_out_times(seq![root], k) == seq![doubled_times(root, k)],
    decreases k,
{
    if k > 0 {
        lemma_zoom_out_at_root(root, (k - 1) as nat);
        let before = zoomed_out_times(seq![root], (k - 1) as nat);
        assert(before[0] == doubled_times(root, (k - 1) as nat));
    }
}

/// Whether every component of `bounds` lies below the top binade, so that
/// its double is exact.
pub open spec fn doubles_exactly(bounds: ViewBounds) -> bool {
    &&& magnitude(bounds.upper_left.re) < TOP_BINADE
    &&& magnitude(bounds.upper_left.im) < TOP_BINADE
    &&& magnitude(bounds.lower_right.re) < TOP_BINADE
    &&& magnitude(bounds.lower_right.im) < TOP_BINADE
}

/// Whether every component of `wide` has `factor` times the absolute value of
/// the same component of `bounds`.
pub open spec fn scaled_by(wide: ViewBounds, bounds: ViewBounds, factor: int) -> bool {
    &&& scaled_magnitude(wide.upper_left.re) == factor * scaled_magnitude(bounds.upper_left.re)
    &&& scaled_magnitude(wide.upper_left.im) == factor * scaled_magnitude(bounds.upper_left.im)
    &&& scaled_magnitude(wide.lower_right.re) == factor * scaled_magnitude(bounds.lower_right.re)
    &&& scaled_magnitude(wide.lower_right.im) == factor * scaled_magnitude(bounds.lower_right.im)
}

/// Doubling a view `k` times doubles each of its components `k` times.
pub proof fn lemma_doubled_times_by_component(b: ViewBounds, k: nat)
    ensures
        doubled_times(b, k).upper_left.re == crate::binary32::doubled_times(b.upper_left.re, k),
        doubled_times(b, k).upper_left.im == crate::binary32::doubled_times(b.upper_left.im, k),
        doubled_times(b, k).lower_right.re == crate::binary32::doubled_times(b.lower_right.re, k),
        doubled_times(b, k).lower_right.im == crate::binary32::doubled_times(b.lower_right.im, k),
    decreases k,
{
    if k > 0 {
        lemma_doubled_times_by_component(b, (k - 1) as nat);
    }
}

/// Zooming out at the root keeps a history of one view and doubles the
/// absolute value of every component of both corners, as long as none of them
/// overflows.
pub proof fn lemma_zoom_out_at_root_doubles(root: ViewBounds)
    requires
        doubles_exactly(root),
    ensures
        zoomed_out(seq![root]).len() == 1,
        zoomed_out(seq![root])[0].finite(),
        scaled_by(zoomed_out(seq![root])[0], root, 2),
{
    lemma_doubled_is_twice(root.upper_left.re);
    lemma_doubled_is_twice(root.upper_left.im);
    lemma_doubled_is_twice(root.lower_right.re);
    lemma_doubled_is_twice(root.lower_right.im);
}

/// Zooming out at the root `k` times keeps a history of one view, whose
/// components have two to the power `k` times the absolute values they
/// started with, as long as the last step overflows in no component.
pub proof fn lemma_zoom_out_at_root_repeatedly(root: ViewBounds, k: nat)
    requires
        root.finite(),
        k > 0 ==> doubles_exactly(doubled_times(root, (k - 1) as nat)),
    ensures
        zoomed_out_times(seq![root], k).len() == 1,
        zoomed_out_times(seq![root], k)[0].finite(),
        scaled_by(zoomed_out_times(seq![root], k)[0], root, two_to(k)),
{
    lemma_zoom_out_at_root(root, k);
    lemma_doubled_times_by_component(root, k);
    if k > 0 {
        lemma_doubled_times_by_component(root, (k - 1) as nat);
    }
    lemma_doubled_times_is_power(root.upper_left.re, k);
    lemma_doubled_times_is_power(root.upper_left.im, k);
    lemma_doubled_times_is_power(root.lower_right.re, k);
    lemma_doubled_times_is_power(root.lower_right.im, k);
}

} // verus!

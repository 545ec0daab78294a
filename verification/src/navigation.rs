//! The pointer-gesture state machine that edits the history of views.
//!
//! The controller decides; it performs nothing. Each event method returns the
//! [`Action`] that its caller owes: after `Restart` the running compute job is
//! stale and a new one is to be started for the active view.

use crate::view::{zoomed_out, ViewBounds, ViewStack};
use vstd::prelude::*;

verus! {

/// The least side of a zoom box, in screen units.
pub const MIN_ZOOM_BOX: u32 = 10;

/// A position on the screen, in whole screen units.
#[derive(Clone, Copy, Debug, PartialEq, Eq, Structural)]
pub struct ScreenPoint {
    pub x: i32,
    pub y: i32,
}

/// The square that a drag gesture spans: `anchor` is its upper left corner.
#[derive(Clone, Copy, Debug, PartialEq, Eq, Structural)]
pub struct ZoomBox {
    pub anchor: ScreenPoint,
    pub size: u32,
}

/// What the pointer is doing.
#[derive(Clone, Copy, Debug, PartialEq, Eq, Structural)]
pub enum Gesture {
    Idle,
    DefiningZoomBox(ZoomBox),
}

/// What the caller owes after an event.
#[derive(Clone, Copy, Debug, PartialEq, Eq, Structural)]
pub enum Action {
    /// The active view is unchanged.
    Nothing,
    /// The active view changed: abandon the running job and start one for it.
    Restart,
}

/// What the input source reports.
#[derive(Clone, Copy, Debug, PartialEq, Eq, Structural)]
pub enum Event {
    /// The primary button went down at this point.
    PrimaryDown(ScreenPoint),
    /// A tick passed with the pointer at this point.
    Tick(ScreenPoint),
    /// The primary button went up; the view is the part of the active view
    /// under the zoom box, and is looked at only while a box is being defined.
    PrimaryUp(ViewBounds),
    /// The secondary button was clicked.
    SecondaryClick,
}

/// The distance between two coordinates.
pub open spec fn distance(a: int, b: int) -> int {
    if a >= b {
        a - b
    } else {
        b - a
    }
}

/// The side of the zoom box anchored at `anchor` while the pointer is at
/// `pointer`: the larger of the two axis distances, and at least
/// [`MIN_ZOOM_BOX`].
pub open spec fn box_size(anchor: ScreenPoint, pointer: ScreenPoint) -> int {
    let dx = distance(pointer.x as int, anchor.x as int);
    let dy = distance(pointer.y as int, anchor.y as int);
    let longest = if dx >= dy {
        dx
    } else {
        dy
    };
    if longest >= MIN_ZOOM_BOX {
        longest
    } else {
        MIN_ZOOM_BOX as int
    }
}

/// The gesture that follows `gesture` on `event`.
pub open spec fn gesture_after(gesture: Gesture, event: Event) -> Gesture {
    match (gesture, event) {
        (_, Event::PrimaryDown(at)) => Gesture::DefiningZoomBox(ZoomBox { anchor: at, size: 1 }),
        (Gesture::DefiningZoomBox(z), Event::Tick(at)) => Gesture::DefiningZoomBox(
            ZoomBox { anchor: z.anchor, size: box_size(z.anchor, at) as u32 },
        ),
        (_, Event::PrimaryUp(_)) => Gesture::Idle,
        (g, _) => g,
    }
}

/// The history that follows `views` on `event` under `gesture`.
pub open spec fn history_after(views: Seq<ViewBounds>, gesture: Gesture, event: Event) -> Seq<
    ViewBounds,
> {
    match (gesture, event) {
        (Gesture::DefiningZoomBox(_), Event::PrimaryUp(zoomed)) => views.push(zoomed),
        (Gesture::Idle, Event::SecondaryClick) => zoomed_out(views),
        _ => views,
    }
}

/// What is owed after `event` under `gesture`: a restart exactly where the
/// history changes.
pub open spec fn action_for(gesture: Gesture, event: Event) -> Action {
    match (gesture, event) {
        (Gesture::DefiningZoomBox(_), Event::PrimaryUp(_)) => Action::Restart,
        (Gesture::Idle, Event::SecondaryClick) => Action::Restart,
        _ => Action::Nothing,
    }
}

/// The distance between two coordinates.
fn span(a: i32, b: i32) -> (d: u32)
    ensures
        d == distance(a as int, b as int),
{
    if a >= b {
        (a as i64 - b as i64) as u32
    } else {
        (b as i64 - a as i64) as u32
    }
}

/// The side of the zoom box anchored at `anchor` while the pointer is at `pointer`.
pub fn zoom_box_size(anchor: ScreenPoint, pointer: ScreenPoint) -> (size: u32)
    ensures
        size == box_size(anchor, pointer),
        size >= MIN_ZOOM_BOX,
{
    let dx = span(pointer.x, anchor.x);
    let dy = span(pointer.y, anchor.y);
    let longest: u32 = if dx >= dy {
        dx
    } else {
        dy
    };
    if longest >= MIN_ZOOM_BOX {
        longest
    } else {
        MIN_ZOOM_BOX
    }
}

/// The history of views together with the gesture in progress.
pub struct NavigationController {
    pub stack: ViewStack,
    pub gesture: Gesture,
}

impl NavigationController {
    /// An idle controller whose only view is `initial`.
    pub fn new(initial: ViewBounds) -> (c: NavigationController)
        ensures
            c.stack@ == seq![initial],
            c.gesture == Gesture::Idle,
    {
        NavigationController { stack: ViewStack::new(initial), gesture: Gesture::Idle }
    }

    /// The view that is on display.
    pub fn active_view(&self) -> (bounds: ViewBounds)
        ensures
            self.stack@.len() >= 1,
            bounds == self.stack@.last(),
    {
        self.stack.top()
    }

    /// The zoom box being defined, if one is.
    pub fn zoom_box(&self) -> (b: Option<ZoomBox>)
        ensures
            b == match self.gesture {
                Gesture::Idle => None::<ZoomBox>,
                Gesture::DefiningZoomBox(z) => Some(z),
            },
    {
        match self.gesture {
            Gesture::Idle => None,
            Gesture::DefiningZoomBox(z) => Some(z),
        }
    }

    /// The primary button went down at `at`: a zoom box of side 1 is anchored
    /// there. A box already being defined is anchored anew.
    pub fn primary_down(&mut self, at: ScreenPoint)
        ensures
            final(self).gesture == Gesture::DefiningZoomBox(ZoomBox { anchor: at, size: 1 }),
            final(self).gesture == gesture_after(old(self).gesture, Event::PrimaryDown(at)),
            final(self).stack == old(self).stack,
    {
        self.gesture = Gesture::DefiningZoomBox(ZoomBox { anchor: at, size: 1 });
    }

    /// A tick with the pointer at `at`: a zoom box being defined keeps its
    /// anchor and takes the side that the pointer spans. Idle, nothing changes.
    pub fn pointer_at(&mut self, at: ScreenPoint)
        ensures
            final(self).stack == old(self).stack,
            final(self).gesture == match old(self).gesture {
                Gesture::Idle => Gesture::Idle,
                Gesture::DefiningZoomBox(z) => Gesture::DefiningZoomBox(
                    ZoomBox { anchor: z.anchor, size: box_size(z.anchor, at) as u32 },
                ),
            },
            final(self).gesture == gesture_after(old(self).gesture, Event::Tick(at)),
    {
        match self.gesture {
            Gesture::Idle => {},
            Gesture::DefiningZoomBox(z) => {
                let size = zoom_box_size(z.anchor, at);
                self.gesture = Gesture::DefiningZoomBox(ZoomBox { anchor: z.anchor, size });
            },
        }
    }

    /// The primary button went up. While a zoom box is being defined, `zoomed`
    /// (the part of the active view under the box, which the caller computed
    /// from [`Self::zoom_box`]) becomes the active view, the gesture ends, and
    /// a restart is owed. Idle, nothing changes.
    pub fn primary_up(&mut self, zoomed: ViewBounds) -> (action: Action)
        ensures
            final(self).gesture == Gesture::Idle,
            old(self).gesture is DefiningZoomBox ==> action == Action::Restart && final(self).stack@
                == old(self).stack@.push(zoomed),
            old(self).gesture is Idle ==> action == Action::Nothing && final(self).stack@ == old(
                self
            ).stack@,
            final(self).stack@ == history_after(
                old(self).stack@,
                old(self).gesture,
                Event::PrimaryUp(zoomed),
            ),
            action == action_for(old(self).gesture, Event::PrimaryUp(zoomed)),
    {
        match self.gesture {
            Gesture::Idle => Action::Nothing,
            Gesture::DefiningZoomBox(_) => {
                self.stack.push(zoomed);
                self.gesture = Gesture::Idle;
                Action::Restart
            },
        }
    }

    /// The secondary button was clicked. Idle, the history zooms out one step
    /// and a restart is owed. While a zoom box is being defined the click is
    /// ignored.
    pub fn secondary_click(&mut self) -> (action: Action)
        ensures
            final(self).gesture == old(self).gesture,
            old(self).gesture is Idle ==> action == Action::Restart && final(self).stack@
                == zoomed_out(old(self).stack@),
            old(self).gesture is DefiningZoomBox ==> action == Action::Nothing && final(
                self
            ).stack@ == old(self).stack@,
            final(self).stack@ == history_after(
                old(self).stack@,
                old(self).gesture,
                Event::SecondaryClick,
            ),
            action == action_for(old(self).gesture, Event::SecondaryClick),
    {
        match self.gesture {
            Gesture::Idle => {
                self.stack.pop_or_double();
                Action::Restart
            },
            Gesture::DefiningZoomBox(_) => Action::Nothing,
        }
    }

    /// Takes one event: the gesture and the history move as the transition
    /// functions say, and the action owed is returned. Every event is accepted
    /// in every state.
    pub fn handle(&mut self, event: Event) -> (action: Action)
        ensures
            final(self).gesture == gesture_after(old(self).gesture, event),
            final(self).stack@ == history_after(old(self).stack@, old(self).gesture, event),
            action == action_for(old(self).gesture, event),
            final(self).stack@.len() >= 1,
    {
        let action = match event {
            Event::PrimaryDown(at) => {
                self.primary_down(at);
                Action::Nothing
            },
            Event::Tick(at) => {
                self.pointer_at(at);
                Action::Nothing
            },
            Event::PrimaryUp(zoomed) => self.primary_up(zoomed),
            Event::SecondaryClick => self.secondary_click(),
        };
        // The history reports that it is never empty.
        let _ = self.stack.len();
        action
    }
}

/// An event that asks for no restart leaves the history as it was, so the
/// running job is abandoned only for a reason; and no event empties the history.
pub proof fn lemma_history_changes_only_with_restart(
    views: Seq<ViewBounds>,
    gesture: Gesture,
    event: Event,
)
    requires
        views.len() >= 1,
    ensures
        action_for(gesture, event) == Action::Nothing ==> history_after(views, gesture, event)
            == views,
        history_after(views, gesture, event).len() >= 1,
{
}

/// A zoom-box commit followed by a secondary click brings back the history
/// from before the commit, and with it the view that was active.
pub proof fn lemma_commit_then_zoom_out(views: Seq<ViewBounds>, anchor: ZoomBox, zoomed: ViewBounds)
    requires
        views.len() >= 1,
    ensures
        history_after(
            history_after(views, Gesture::DefiningZoomBox(anchor), Event::PrimaryUp(zoomed)),
            gesture_after(Gesture::DefiningZoomBox(anchor), Event::PrimaryUp(zoomed)),
            Event::SecondaryClick,
        ) == views,
{
    crate::view::lemma_push_then_zoom_out(views, zoomed);
}

} // verus!

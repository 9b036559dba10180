//! The reload coordinator: coalesces bursts of filesystem change
//! notifications into single wake-ups over a fixed debounce window, and
//! the rules by which the rendering consumer reacts to events and to
//! reload outcomes.

use crate::sample::Sample;
use vstd::prelude::*;

verus! {

/// Length of the debounce window in milliseconds: change notifications
/// closer together than this coalesce into one wake-up.
pub const DEBOUNCE_MS: u64 = 250;

/// Whether an open debounce window with deadline `deadline` has closed by
/// time `now`, making one wake-up due.
pub open spec fn wake_due(deadline: Option<u64>, now: u64) -> bool {
    match deadline {
        Some(d) => d <= now,
        None => false,
    }
}

/// Coalesces bursts of change notifications: the first notification of a
/// burst opens a window that closes `DEBOUNCE_MS` later; every further
/// notification inside the open window is absorbed; when the window
/// closes, exactly one wake-up is due.
pub struct Debouncer {
    /// The moment, in milliseconds, at which the open window closes.
    pub deadline: Option<u64>,
}

impl Debouncer {
    /// A debouncer with no window open: no wake-up is ever due before the
    /// first change notification.
    pub fn new() -> (d: Debouncer)
        ensures
            d.deadline is None,
    {
        Debouncer { deadline: None }
    }

    /// Note one raw change notification at time `now`: it opens the
    /// window when none is open, and is absorbed without any effect while
    /// one already is -- that is the coalescing.
    pub fn note_change(&mut self, now: u64)
        requires
            now + DEBOUNCE_MS <= u64::MAX,
        ensures
            final(self).deadline == (if old(self).deadline is Some {
                old(self).deadline
            } else {
                Some((now + DEBOUNCE_MS) as u64)
            }),
    {
        if self.deadline.is_none() {
            self.deadline = Some(now + DEBOUNCE_MS);
        }
    }

    /// Whether a wake-up is due at time `now`: true exactly when the open
    /// window has closed, and then the window is consumed, so a burst
    /// yields one wake-up and one only.
    pub fn poll(&mut self, now: u64) -> (wake: bool)
        ensures
            wake == wake_due(old(self).deadline, now),
            final(self).deadline == (if wake {
                None::<u64>
            } else {
                old(self).deadline
            }),
    {
        match self.deadline {
            Some(d) => {
                if d <= now {
                    self.deadline = None;
                    true
                } else {
                    false
                }
            },
            None => false,
        }
    }

    /// The moment the open window closes, if one is open: what the watch
    /// thread may sleep until between notifications.
    pub fn next_deadline(&self) -> (d: Option<u64>)
        ensures
            d == self.deadline,
    {
        self.deadline
    }
}

/// A whole burst collapses to one wake-up: with the window that the
/// burst's first notification opened (later ones are absorbed without
/// moving it), no poll before the window closes fires, every poll from
/// its close on does, and once consumed, no poll fires at all until a
/// fresh notification opens a new window.
pub proof fn lemma_burst_single_wake(first: u64, d: Debouncer)
    requires
        first + DEBOUNCE_MS <= u64::MAX,
        d.deadline == Some((first + DEBOUNCE_MS) as u64),
    ensures
        forall|now: u64| now < first + DEBOUNCE_MS ==> !wake_due(d.deadline, now),
        forall|now: u64| now >= first + DEBOUNCE_MS ==> wake_due(d.deadline, now),
        forall|now: u64| !wake_due(None::<u64>, now),
{
}

/// One discrete event delivered into the rendering thread's control flow.
#[derive(Clone, Copy, Debug, PartialEq, Eq, Structural)]
pub enum ViewerEvent {
    /// The coordinator's wake-up: the watched file may have changed.
    Wake,
    /// The host asks for the window contents to be painted.
    Redraw,
    /// The host reports a close intent.
    Close,
    /// Anything else from the host's event pump.
    Other,
}

/// What the rendering consumer does in response to one event.
#[derive(Clone, Copy, Debug, PartialEq, Eq, Structural)]
pub enum ViewerAction {
    /// Reload the sample sequence from disk, then repaint.
    ReloadAndRedraw,
    /// Repaint from the sequence already held.
    RedrawOnly,
    /// Leave the event loop.
    Exit,
    /// Nothing to do.
    Ignore,
}

/// The consumer's fixed response to each kind of event.
pub open spec fn plan_of(e: ViewerEvent) -> ViewerAction {
    match e {
        ViewerEvent::Wake => ViewerAction::ReloadAndRedraw,
        ViewerEvent::Redraw => ViewerAction::RedrawOnly,
        ViewerEvent::Close => ViewerAction::Exit,
        ViewerEvent::Other => ViewerAction::Ignore,
    }
}

/// Decide what one event asks of the consumer: a wake-up reloads and
/// repaints, a redraw request repaints, a close intent exits, and any
/// other event is ignored.
pub fn plan_event(e: &ViewerEvent) -> (a: ViewerAction)
    ensures
        a == plan_of(*e),
{
    match e {
        ViewerEvent::Wake => ViewerAction::ReloadAndRedraw,
        ViewerEvent::Redraw => ViewerAction::RedrawOnly,
        ViewerEvent::Close => ViewerAction::Exit,
        ViewerEvent::Other => ViewerAction::Ignore,
    }
}

/// The rendering consumer's state: it exclusively owns the sample
/// sequence currently on screen.
pub struct Viewer {
    /// The sequence the next repaint will draw.
    pub samples: Vec<Sample>,
}

impl Viewer {
    /// A viewer holding its initial, successfully decoded sequence.
    pub fn new(samples: Vec<Sample>) -> (v: Viewer)
        ensures
            v.samples@ == samples@,
    {
        Viewer { samples }
    }

    /// Apply the outcome of a reload. A freshly decoded sequence replaces
    /// the held one wholesale -- never a partial update; a decode failure
    /// leaves the held sequence untouched, so the next repaint shows the
    /// identical image.
    pub fn apply_reload(&mut self, loaded: Option<Vec<Sample>>) -> (replaced: bool)
        ensures
            replaced == loaded is Some,
            final(self).samples@ == (match loaded {
                Some(fresh) => fresh@,
                None => old(self).samples@,
            }),
    {
        match loaded {
            Some(fresh) => {
                self.samples = fresh;
                true
            },
            None => false,
        }
    }
}

} // verus!

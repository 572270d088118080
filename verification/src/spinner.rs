//! The state of a waiting indicator: when it appears, which frame it shows, and how far the
//! work is.

use std::time::Instant;
use vstd::prelude::*;

verus! {

/// `std::time::Instant`, a point in time.
#[verifier::external_type_specification]
#[verifier::external_body]
pub struct ExInstant(Instant);

/// `Instant::now` of std: the current time, of which nothing can be said.
#[verifier::external_body]
fn now() -> (t: Instant) {
    Instant::now()
}

/// `Instant::elapsed` of std, in nanoseconds: how long ago a point in time was, of which
/// nothing can be said.
#[verifier::external_body]
fn nanos_since(t: &Instant) -> (nanos: u128) {
    t.elapsed().as_nanos()
}

/// How many frames the indicator has.
pub const FRAME_COUNT: usize = 10;

/// The frames of the indicator.
pub const SPINNER_FRAMES: [&'static str; 10] = ["⠋", "⠙", "⠹", "⠸", "⠼", "⠴", "⠦", "⠧", "⠇", "⠏"];

/// The indicator of work that is under way.
pub struct Spinner {
    /// When the work began.
    pub started: Instant,
    /// It appears once this many nanoseconds have passed.
    pub visible_after: u128,
    /// How often it was advanced.
    pub frame: usize,
    /// How much of how much is done.
    pub done: Option<(u64, u64)>,
}

impl Spinner {
    /// An indicator that appears at once.
    pub fn immediate() -> (s: Self)
        ensures
            s.visible_after == 0,
            s.frame == 0,
            s.done is None,
    {
        Spinner::with_delay(0)
    }

    /// An indicator that appears once `visible_after` nanoseconds have passed, so that short
    /// work does not make it flicker.
    pub fn with_delay(visible_after: u128) -> (s: Self)
        ensures
            s.visible_after == visible_after,
            s.frame == 0,
            s.done is None,
    {
        Spinner { started: now(), visible_after, frame: 0, done: None }
    }

    /// Goes to the next frame.
    pub fn tick(&mut self)
        ensures
            final(self).frame == (if old(self).frame < usize::MAX {
                (old(self).frame + 1) as usize
            } else {
                0
            }),
            final(self).started == old(self).started,
            final(self).visible_after == old(self).visible_after,
            final(self).done == old(self).done,
    {
        self.frame = self.frame.wrapping_add(1);
    }

    /// Whether the indicator is to be seen `elapsed` nanoseconds after its start.
    pub fn visible_at(&self, elapsed: u128) -> (visible: bool)
        ensures
            visible == (elapsed >= self.visible_after),
    {
        elapsed >= self.visible_after
    }

    /// Whether the indicator is to be seen now. When that is depends on the clock, but one
    /// without a delay is seen at once.
    pub fn visible(&self) -> (visible: bool)
        ensures
            self.visible_after == 0 ==> visible,
    {
        self.visible_at(nanos_since(&self.started))
    }

    /// The frame to show.
    pub fn glyph(&self) -> (glyph: &'static str)
        ensures
            glyph == SPINNER_FRAMES[self.frame as int % 10],
    {
        SPINNER_FRAMES[self.frame % FRAME_COUNT]
    }

    /// Says how much of how much is done.
    pub fn set_progress(&mut self, done: u64, total: u64)
        ensures
            final(self).done == Some((done, total)),
            final(self).started == old(self).started,
            final(self).frame == old(self).frame,
            final(self).visible_after == old(self).visible_after,
    {
        self.done = Some((done, total));
    }

    /// How much of how much is done.
    pub fn progress(&self) -> (progress: Option<(u64, u64)>)
        ensures
            progress == self.done,
    {
        self.done
    }

    /// How much is done, in whole percent from 0 to 100, where the total is known.
    pub fn percent(&self) -> (percent: Option<u64>)
        ensures
            percent == spec_percent(self.done),
            percent matches Some(p) ==> p <= 100,
    {
        match self.done {
            Some((done, total)) => if total > 0 {
                let part: u64 = if done < total {
                    done
                } else {
                    total
                };
                let whole: u128 = (part as u128 * 100) / total as u128;
                proof {
                    assert((part * 100) / (total as int) <= 100) by (nonlinear_arith)
                        requires
                            0 < total,
                            part <= total,
                    ;
                }
                Some(whole as u64)
            } else {
                None
            },
            None => None,
        }
    }
}

/// The percentage of what is done, which never exceeds the whole.
pub open spec fn spec_percent(done: Option<(u64, u64)>) -> Option<u64> {
    match done {
        Some((part, total)) => if total > 0 {
            Some(
                (((if part < total {
                    part
                } else {
                    total
                }) * 100) / (total as int)) as u64,
            )
        } else {
            None
        },
        None => None,
    }
}

/// Ten frames on, the same frame is shown again, as long as the count does not start over.
pub proof fn law_frames_go_round(frame: int)
    requires
        frame >= 0,
    ensures
        SPINNER_FRAMES[(frame + 10) % 10] == SPINNER_FRAMES[frame % 10],
{
}

} // verus!

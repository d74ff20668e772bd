//! The integer-valued settings of the sandbox and their rules.
use vstd::prelude::*;

verus! {

/// Numerical scheme used to advance bodies.
#[derive(Clone, Copy, Debug, PartialEq, Eq, Structural)]
pub enum Integrator {
    Euler,
    Verlet,
}

impl Integrator {
    pub open spec fn spec_toggled(self) -> Integrator {
        match self {
            Integrator::Euler => Integrator::Verlet,
            Integrator::Verlet => Integrator::Euler,
        }
    }

    /// The other scheme.
    pub fn toggled(self) -> (r: Integrator)
        ensures
            r == self.spec_toggled(),
            r != self,
    {
        match self {
            Integrator::Euler => Integrator::Verlet,
            Integrator::Verlet => Integrator::Euler,
        }
    }
}

/// Trail capacity given to bodies at start.
pub const DEFAULT_TRAIL_LENGTH: usize = 30;

/// Settings that steer the simulation: trail capacity, prediction sub-steps
/// per frame, ticks per frame, the integrator, and whether time runs.
pub struct Controls {
    trail_length: usize,
    predict_speed: usize,
    fast_forward: usize,
    integrator: Integrator,
    paused: bool,
}

impl Controls {
    pub closed spec fn spec_trail_length(&self) -> nat {
        self.trail_length as nat
    }

    pub closed spec fn spec_predict_speed(&self) -> nat {
        self.predict_speed as nat
    }

    pub closed spec fn spec_fast_forward(&self) -> nat {
        self.fast_forward as nat
    }

    pub closed spec fn spec_integrator(&self) -> Integrator {
        self.integrator
    }

    pub closed spec fn spec_paused(&self) -> bool {
        self.paused
    }

    /// At least one tick per running frame.
    pub closed spec fn wf(&self) -> bool {
        self.fast_forward >= 1
    }

    /// Trails of thirty positions, one prediction sub-step and one tick per
    /// frame, velocity Verlet, running.
    pub fn new() -> (r: Controls)
        ensures
            r.wf(),
            r.spec_trail_length() == DEFAULT_TRAIL_LENGTH,
            r.spec_predict_speed() == 1,
            r.spec_fast_forward() == 1,
            r.spec_integrator() == Integrator::Verlet,
            !r.spec_paused(),
    {
        Controls {
            trail_length: DEFAULT_TRAIL_LENGTH,
            predict_speed: 1,
            fast_forward: 1,
            integrator: Integrator::Verlet,
            paused: false,
        }
    }

    pub fn trail_length(&self) -> (r: usize)
        ensures
            r == self.spec_trail_length(),
    {
        self.trail_length
    }

    pub fn predict_speed(&self) -> (r: usize)
        ensures
            r == self.spec_predict_speed(),
    {
        self.predict_speed
    }

    pub fn fast_forward(&self) -> (r: usize)
        ensures
            r == self.spec_fast_forward(),
    {
        self.fast_forward
    }

    pub fn integrator(&self) -> (r: Integrator)
        ensures
            r == self.spec_integrator(),
    {
        self.integrator
    }

    pub fn paused(&self) -> (r: bool)
        ensures
            r == self.spec_paused(),
    {
        self.paused
    }

    /// Ticks to run this frame: none while paused, else the fast-forward count.
    pub fn ticks_this_frame(&self) -> (r: usize)
        ensures
            r == (if self.spec_paused() { 0 } else { self.spec_fast_forward() }),
    {
        if self.paused {
            0
        } else {
            self.fast_forward
        }
    }

    /// Sets the trail capacity; zero turns trails off.
    pub fn set_trail_length(&mut self, n: usize)
        requires
            old(self).wf(),
        ensures
            final(self).wf(),
            final(self).spec_trail_length() == n,
            final(self).spec_predict_speed() == old(self).spec_predict_speed(),
            final(self).spec_fast_forward() == old(self).spec_fast_forward(),
            final(self).spec_integrator() == old(self).spec_integrator(),
            final(self).spec_paused() == old(self).spec_paused(),
    {
        self.trail_length = n;
    }

    /// One more trail position, saturating at the largest `usize`.
    pub fn lengthen_trail(&mut self)
        requires
            old(self).wf(),
        ensures
            final(self).wf(),
            final(self).spec_trail_length() == if old(self).spec_trail_length() < usize::MAX {
                old(self).spec_trail_length() + 1
            } else {
                old(self).spec_trail_length()
            },
            final(self).spec_predict_speed() == old(self).spec_predict_speed(),
            final(self).spec_fast_forward() == old(self).spec_fast_forward(),
            final(self).spec_integrator() == old(self).spec_integrator(),
            final(self).spec_paused() == old(self).spec_paused(),
    {
        self.trail_length = self.trail_length.saturating_add(1);
    }

    /// One trail position less, never below zero.
    pub fn shorten_trail(&mut self)
        requires
            old(self).wf(),
        ensures
            final(self).wf(),
            final(self).spec_trail_length() == if old(self).spec_trail_length() > 0 {
                (old(self).spec_trail_length() - 1) as nat
            } else {
                0
            },
            final(self).spec_predict_speed() == old(self).spec_predict_speed(),
            final(self).spec_fast_forward() == old(self).spec_fast_forward(),
            final(self).spec_integrator() == old(self).spec_integrator(),
            final(self).spec_paused() == old(self).spec_paused(),
    {
        if self.trail_length != 0 {
            self.trail_length = self.trail_length - 1;
        }
    }

    /// Sets the number of prediction sub-steps per frame; zero turns
    /// prediction off.
    pub fn set_predict_speed(&mut self, n: usize)
        requires
            old(self).wf(),
        ensures
            final(self).wf(),
            final(self).spec_predict_speed() == n,
            final(self).spec_trail_length() == old(self).spec_trail_length(),
            final(self).spec_fast_forward() == old(self).spec_fast_forward(),
            final(self).spec_integrator() == old(self).spec_integrator(),
            final(self).spec_paused() == old(self).spec_paused(),
    {
        self.predict_speed = n;
    }

    /// One more prediction sub-step per frame, saturating at the largest `usize`.
    pub fn more_prediction(&mut self)
        requires
            old(self).wf(),
        ensures
            final(self).wf(),
            final(self).spec_predict_speed() == if old(self).spec_predict_speed() < usize::MAX {
                old(self).spec_predict_speed() + 1
            } else {
                old(self).spec_predict_speed()
            },
            final(self).spec_trail_length() == old(self).spec_trail_length(),
            final(self).spec_fast_forward() == old(self).spec_fast_forward(),
            final(self).spec_integrator() == old(self).spec_integrator(),
            final(self).spec_paused() == old(self).spec_paused(),
    {
        self.predict_speed = self.predict_speed.saturating_add(1);
    }

    /// One prediction sub-step less, never below zero.
    pub fn less_prediction(&mut self)
        requires
            old(self).wf(),
        ensures
            final(self).wf(),
            final(self).spec_predict_speed() == if old(self).spec_predict_speed() > 0 {
                (old(self).spec_predict_speed() - 1) as nat
            } else {
                0
            },
            final(self).spec_trail_length() == old(self).spec_trail_length(),
            final(self).spec_fast_forward() == old(self).spec_fast_forward(),
            final(self).spec_integrator() == old(self).spec_integrator(),
            final(self).spec_paused() == old(self).spec_paused(),
    {
        if self.predict_speed != 0 {
            self.predict_speed = self.predict_speed - 1;
        }
    }

    /// Sets the ticks per frame, raising zero to one.
    pub fn set_fast_forward(&mut self, n: usize)
        requires
            old(self).wf(),
        ensures
            final(self).wf(),
            final(self).spec_fast_forward() == if n == 0 { 1 } else { n as nat },
            final(self).spec_trail_length() == old(self).spec_trail_length(),
            final(self).spec_predict_speed() == old(self).spec_predict_speed(),
            final(self).spec_integrator() == old(self).spec_integrator(),
            final(self).spec_paused() == old(self).spec_paused(),
    {
        self.fast_forward = if n == 0 {
            1
        } else {
            n
        };
    }

    /// One more tick per frame, saturating at the largest `usize`.
    pub fn faster(&mut self)
        requires
            old(self).wf(),
        ensures
            final(self).wf(),
            final(self).spec_fast_forward() == if old(self).spec_fast_forward() < usize::MAX {
                old(self).spec_fast_forward() + 1
            } else {
                old(self).spec_fast_forward()
            },
            final(self).spec_trail_length() == old(self).spec_trail_length(),
            final(self).spec_predict_speed() == old(self).spec_predict_speed(),
            final(self).spec_integrator() == old(self).spec_integrator(),
            final(self).spec_paused() == old(self).spec_paused(),
    {
        self.fast_forward = self.fast_forward.saturating_add(1);
    }

    /// One tick per frame less, never below one.
    pub fn slower(&mut self)
        requires
            old(self).wf(),
        ensures
            final(self).wf(),
            final(self).spec_fast_forward() == if old(self).spec_fast_forward() > 1 {
                (old(self).spec_fast_forward() - 1) as nat
            } else {
                1
            },
            final(self).spec_trail_length() == old(self).spec_trail_length(),
            final(self).spec_predict_speed() == old(self).spec_predict_speed(),
            final(self).spec_integrator() == old(self).spec_integrator(),
            final(self).spec_paused() == old(self).spec_paused(),
    {
        if self.fast_forward > 1 {
            self.fast_forward = self.fast_forward - 1;
        }
    }

    /// Selects the integrator.
    pub fn set_integrator(&mut self, choice: Integrator)
        requires
            old(self).wf(),
        ensures
            final(self).wf(),
            final(self).spec_integrator() == choice,
            final(self).spec_trail_length() == old(self).spec_trail_length(),
            final(self).spec_predict_speed() == old(self).spec_predict_speed(),
            final(self).spec_fast_forward() == old(self).spec_fast_forward(),
            final(self).spec_paused() == old(self).spec_paused(),
    {
        self.integrator = choice;
    }

    /// Switches to the other integrator.
    pub fn toggle_integrator(&mut self)
        requires
            old(self).wf(),
        ensures
            final(self).wf(),
            final(self).spec_integrator() == old(self).spec_integrator().spec_toggled(),
            final(self).spec_trail_length() == old(self).spec_trail_length(),
            final(self).spec_predict_speed() == old(self).spec_predict_speed(),
            final(self).spec_fast_forward() == old(self).spec_fast_forward(),
            final(self).spec_paused() == old(self).spec_paused(),
    {
        self.integrator = self.integrator.toggled();
    }

    /// Stops or resumes time.
    pub fn toggle_pause(&mut self)
        requires
            old(self).wf(),
        ensures
            final(self).wf(),
            final(self).spec_paused() == !old(self).spec_paused(),
            final(self).spec_trail_length() == old(self).spec_trail_length(),
            final(self).spec_predict_speed() == old(self).spec_predict_speed(),
            final(self).spec_fast_forward() == old(self).spec_fast_forward(),
            final(self).spec_integrator() == old(self).spec_integrator(),
    {
        self.paused = !self.paused;
    }

    /// Back to one tick per frame; other settings stay.
    pub fn reset_speed(&mut self)
        requires
            old(self).wf(),
        ensures
            final(self).wf(),
            final(self).spec_fast_forward() == 1,
            final(self).spec_trail_length() == old(self).spec_trail_length(),
            final(self).spec_predict_speed() == old(self).spec_predict_speed(),
            final(self).spec_integrator() == old(self).spec_integrator(),
            final(self).spec_paused() == old(self).spec_paused(),
    {
        self.fast_forward = 1;
    }
}

/// Whether a typed character may enter a numeric entry: a decimal digit or a point.
pub fn accepts_entry_char(c: char) -> (r: bool)
    ensures
        r == (('0' <= c && c <= '9') || c == '.'),
{
    ('0' <= c && c <= '9') || c == '.'
}

} // verus!

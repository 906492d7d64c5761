use vstd::prelude::*;

verus! {

/// Adaptive incompressibility detector shared by the block encoder and the
/// block decoder.
///
/// Both sides drive it with the same sequence of calls, deciding from byte
/// counts alone whether the next block travels verbatim. Nothing on the wire
/// announces a copied block: the two machines stay in lockstep because every
/// transition is a function of the previous state and the call's argument.
#[derive(Clone, Copy, Debug, PartialEq, Eq)]
pub struct ProtectionState {
    pub copy_penalty: u8,
    pub copy_penalty_start: u8,
    pub previous_incompressible: bool,
    pub counter: u64,
}

impl ProtectionState {
    /// The state at the start of every encode or decode call.
    pub open spec fn initial() -> ProtectionState {
        ProtectionState {
            copy_penalty: 0,
            copy_penalty_start: 1,
            previous_incompressible: false,
            counter: 0,
        }
    }

    /// Position of `counter` in its current window of sixteen calls, from 1 to 16.
    pub open spec fn phase(self) -> int {
        if self.counter % 16 == 0 {
            16
        } else {
            (self.counter % 16) as int
        }
    }

    /// Bounds that keep the counters of the machine free of overflow: the
    /// escalation level grows by at most one per call and is halved every
    /// sixteen calls.
    pub open spec fn wf(self) -> bool {
        &&& 1 <= self.copy_penalty_start
        &&& self.copy_penalty_start as int <= 16 + self.phase()
    }

    /// The state after a `decay` may follow: `revert_to_copy` leaves room for
    /// one more step of escalation.
    pub open spec fn decay_ready(self) -> bool {
        &&& 1 <= self.copy_penalty_start
        &&& self.copy_penalty_start as int <= 15 + self.phase()
    }

    pub open spec fn spec_revert_to_copy(self) -> ProtectionState {
        let start = if self.counter % 16 == 0 && self.copy_penalty_start > 1 {
            self.copy_penalty_start / 2
        } else {
            self.copy_penalty_start
        };
        ProtectionState { copy_penalty_start: start, counter: (self.counter + 1) as u64, ..self }
    }

    /// Whether `revert_to_copy` answers that the block is to be copied.
    pub open spec fn copies(self) -> bool {
        self.copy_penalty > 0
    }

    pub open spec fn spec_decay(self) -> ProtectionState {
        let penalty = (self.copy_penalty - 1) as u8;
        ProtectionState {
            copy_penalty: penalty,
            copy_penalty_start: if penalty == 0 {
                (self.copy_penalty_start + 1) as u8
            } else {
                self.copy_penalty_start
            },
            ..self
        }
    }

    pub open spec fn spec_update(self, incompressible: bool) -> ProtectionState {
        ProtectionState {
            copy_penalty: if incompressible && self.previous_incompressible {
                self.copy_penalty_start
            } else {
                self.copy_penalty
            },
            previous_incompressible: incompressible,
            ..self
        }
    }

    pub fn new() -> (r: ProtectionState)
        ensures
            r == ProtectionState::initial(),
            r.wf(),
    {
        ProtectionState {
            copy_penalty: 0,
            copy_penalty_start: 1,
            previous_incompressible: false,
            counter: 0,
        }
    }

    /// Called once per block, before anything else is done with it: every
    /// sixteenth call halves the escalation level (never below one), and the
    /// answer is whether the block is to be copied verbatim.
    pub fn revert_to_copy(&mut self) -> (r: bool)
        requires
            old(self).wf(),
            old(self).counter < u64::MAX,
        ensures
            r == old(self).copies(),
            *final(self) == old(self).spec_revert_to_copy(),
            final(self).decay_ready(),
    {
        if self.counter & 0xf == 0 {
            if self.copy_penalty_start > 1 {
                self.copy_penalty_start >>= 1;
            }
        }
        proof {
            let c = old(self).counter;
            assert(c & 0xf == c % 16) by (bit_vector);
            let s = old(self).copy_penalty_start;
            assert(s >> 1 == s / 2) by (bit_vector);
        }
        self.counter += 1;
        self.copy_penalty > 0
    }

    /// Called after a block was copied: one copy less is owed, and once none
    /// is, the next escalation lasts one block longer.
    pub fn decay(&mut self)
        requires
            old(self).decay_ready(),
            old(self).copies(),
        ensures
            *final(self) == old(self).spec_decay(),
            final(self).wf(),
    {
        self.copy_penalty -= 1;
        if self.copy_penalty == 0 {
            self.copy_penalty_start += 1;
        }
    }

    /// Called after a block was encoded: two incompressible blocks in a row
    /// start a run of `copy_penalty_start` verbatim copies.
    pub fn update(&mut self, incompressible: bool)
        requires
            old(self).wf(),
        ensures
            *final(self) == old(self).spec_update(incompressible),
            final(self).wf(),
    {
        if incompressible {
            if self.previous_incompressible {
                self.copy_penalty = self.copy_penalty_start;
            }
            self.previous_incompressible = true;
        } else {
            self.previous_incompressible = false;
        }
    }
}

} // verus!

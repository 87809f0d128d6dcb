//! The race state: a fixed field of horses, their cumulative advances, and
//! the one-way transition from a running race to a finished one.

use vstd::prelude::*;
use crate::distribute::{distribute, increment_at, lemma_increment_bounds};
use crate::{MAX_ADVANCE, NUM_HORSES, WINNING_NUM};

verus! {

/// One racing entity; `advance` is its cumulative distance travelled,
/// never decreased and never reset for the lifetime of a race.
#[derive(Clone, Copy, Debug)]
pub struct Horse {
    pub advance: u32,
}

/// Whether the race is still accepting ticks or has been won.
#[derive(Clone, Copy, Debug, PartialEq, Eq, Structural)]
pub enum RaceStatus {
    Running,
    Finished,
}

/// Applies one tick to every horse in index order: horse `i` gains the
/// `i`-th base-`max_advance` digit of `tick_by`, plus one, so every horse
/// moves and no horse moves by more than `max_advance`.
pub fn tick_horses(horses: &mut Vec<Horse>, tick_by: u128, max_advance: u128)
    requires
        2 <= max_advance <= u32::MAX as u128,
        forall|i: int|
            0 <= i < old(horses)@.len() ==> old(horses)@[i].advance + max_advance <= u32::MAX,
    ensures
        final(horses)@.len() == old(horses)@.len(),
        forall|i: int|
            0 <= i < old(horses)@.len() ==> final(horses)@[i].advance as nat
                == old(horses)@[i].advance as nat
                + increment_at(tick_by as nat, max_advance as nat, i as nat),
        forall|i: int|
            0 <= i < old(horses)@.len() ==> old(horses)@[i].advance
                < final(horses)@[i].advance,
{
    let n: usize = horses.len();
    let incs = distribute(tick_by, max_advance, n);
    let mut i: usize = 0;
    while i < n
        invariant
            i <= n,
            n == old(horses)@.len(),
            horses@.len() == n as nat,
            incs@.len() == n as nat,
            2 <= max_advance <= u32::MAX as u128,
            forall|k: int|
                0 <= k < n ==> incs@[k] as nat == increment_at(
                    tick_by as nat,
                    max_advance as nat,
                    k as nat,
                ),
            forall|k: int| 0 <= k < n ==> 1 <= (#[trigger] incs@[k]) as u128 <= max_advance,
            forall|k: int|
                0 <= k < n ==> old(horses)@[k].advance + max_advance <= u32::MAX,
            forall|k: int|
                0 <= k < i ==> horses@[k].advance == old(horses)@[k].advance + incs@[k],
            forall|k: int| i <= k < n ==> horses@[k] == old(horses)@[k],
        decreases n - i,
    {
        let inc: u32 = incs[i];
        let new_advance: u32 = horses[i].advance + inc;
        horses[i] = Horse { advance: new_advance };
        i += 1;
    }
    proof {
        assert forall|k: int|
            0 <= k < n implies horses@[k].advance as nat == old(horses)@[k].advance as nat
            + increment_at(tick_by as nat, max_advance as nat, k as nat) by {
            assert(horses@[k].advance == old(horses)@[k].advance + incs@[k]);
            assert(incs@[k] as nat == increment_at(tick_by as nat, max_advance as nat, k as nat));
        }
        assert forall|k: int|
            0 <= k < n implies old(horses)@[k].advance < horses@[k].advance by {
            assert(1 <= (#[trigger] incs@[k]) as u128);
        }
    }
}

/// The whole mutable state of a race: the horses in index order, and
/// whether a winner has been detected.
pub struct Race {
    pub horses: Vec<Horse>,
    pub status: RaceStatus,
}

impl Race {
    /// Well-formedness of a race: the field has exactly `NUM_HORSES`
    /// horses, no advance has run further past the winning line than one
    /// tick can carry it, and the status is `Finished` exactly when some
    /// horse has reached the winning line.
    pub open spec fn wf(self) -> bool {
        &&& self.horses@.len() == NUM_HORSES as nat
        &&& forall|i: int|
            0 <= i < self.horses@.len() ==> self.horses@[i].advance as nat <= (WINNING_NUM
                - 1) as nat + MAX_ADVANCE as nat
        &&& (self.status is Finished <==> exists|i: int|
            0 <= i < self.horses@.len() && self.horses@[i].advance >= WINNING_NUM)
    }

    /// A fresh race: every horse at the start, nobody has won yet.
    pub fn new() -> (r: Race)
        ensures
            r.wf(),
            r.status is Running,
            r.horses@.len() == NUM_HORSES as nat,
            forall|i: int| 0 <= i < r.horses@.len() ==> r.horses@[i].advance == 0,
    {
        let mut horses: Vec<Horse> = Vec::new();
        let mut i: usize = 0;
        while i < NUM_HORSES
            invariant
                i <= NUM_HORSES,
                horses@.len() == i as nat,
                forall|k: int| 0 <= k < i ==> horses@[k].advance == 0,
            decreases NUM_HORSES - i,
        {
            horses.push(Horse { advance: 0 });
            i += 1;
        }
        Race { horses, status: RaceStatus::Running }
    }

    /// Whether the race has been won.
    pub fn is_finished(&self) -> (b: bool)
        ensures
            b == (self.status is Finished),
    {
        match self.status {
            RaceStatus::Running => false,
            RaceStatus::Finished => true,
        }
    }

    /// Consumes one tick: every horse gains its digit increment, and the
    /// race finishes exactly when that leaves some horse at or past the
    /// winning line. A finished race accepts no further ticks, so the
    /// transition happens on the first tick that produces a winner.
    pub fn tick(&mut self, tick_by: u128)
        requires
            old(self).wf(),
            old(self).status is Running,
        ensures
            final(self).wf(),
            final(self).horses@.len() == old(self).horses@.len(),
            forall|i: int|
                0 <= i < old(self).horses@.len() ==> final(self).horses@[i].advance as nat
                    == old(self).horses@[i].advance as nat
                    + increment_at(tick_by as nat, MAX_ADVANCE as nat, i as nat),
            forall|i: int|
                0 <= i < old(self).horses@.len() ==> old(self).horses@[i].advance
                    < final(self).horses@[i].advance,
            (final(self).status is Finished <==> exists|i: int|
                0 <= i < final(self).horses@.len() && final(self).horses@[i].advance
                    >= WINNING_NUM),
    {
        proof {
            assert(forall|i: int|
                0 <= i < self.horses@.len() ==> self.horses@[i].advance < WINNING_NUM);
        }
        tick_horses(&mut self.horses, tick_by, MAX_ADVANCE);
        proof {
            assert forall|i: int|
                0 <= i < self.horses@.len() implies self.horses@[i].advance as nat <= (WINNING_NUM
                - 1) as nat + MAX_ADVANCE as nat by {
                lemma_increment_bounds(tick_by as nat, MAX_ADVANCE as nat, i as nat);
            }
        }
        let mut any: bool = false;
        let mut i: usize = 0;
        let n: usize = self.horses.len();
        while i < n
            invariant
                i <= n,
                n == self.horses@.len(),
                any <==> exists|k: int|
                    0 <= k < i && self.horses@[k].advance >= WINNING_NUM,
        decreases n - i,
        {
            if self.horses[i].advance >= WINNING_NUM {
                any = true;
            }
            i += 1;
        }
        self.status = if any {
            RaceStatus::Finished
        } else {
            RaceStatus::Running
        };
    }
}

} // verus!

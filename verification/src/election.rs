//! The election driver: what the module does at the end of every block,
//! and the privileged changes to the council and its parameters.

use vstd::prelude::*;
use crate::finalize::Turnover;
use crate::host::Effect;
use crate::host::Event;
use crate::model::council_sorted;
use crate::model::Params;
use crate::model::State;
use crate::seats::Module;
use crate::AccountId;
use crate::BlockNumber;

verus! {

broadcast use vstd::std_specs::hash::group_hash_axioms;

/// What the end of a block has brought about.
pub struct BlockOutcome {
    /// The number of seats to fill, if a tally has started.
    pub started: Option<u32>,
    /// The new members and the members who left, if a tally was finalized.
    pub finalized: Option<Turnover>,
}

/// The council without the seats of `who`.
pub open spec fn without_member(council: Seq<(AccountId, BlockNumber)>, who: AccountId) -> Seq<
    (AccountId, BlockNumber),
>
    decreases council.len(),
{
    if council.len() == 0 {
        council
    } else if council.last().0 == who {
        without_member(council.drop_last(), who)
    } else {
        without_member(council.drop_last(), who).push(council.last())
    }
}

impl State {
    /// Whether a tally is due at block `n`: `n` is a multiple of the voting
    /// period, and it is the block of the next tally.
    pub open spec fn tally_due(self, n: BlockNumber) -> bool {
        n % self.params.voting_period == 0 && self.next_tally(n) == Some(n as int)
    }

    /// The state after the check for a due tally at block `n`.
    pub open spec fn after_tally_check(self, n: BlockNumber) -> State {
        if self.tally_due(n) {
            self.with_tally_started(n)
        } else {
            self
        }
    }

    /// Whether the running tally ends at block `n`.
    pub open spec fn finalize_due(self, n: BlockNumber) -> bool {
        self.tally is Some && self.tally->0.finalize_at == n
    }

    /// The state after the end of block `n`: a due tally has started, and
    /// a tally that ends at `n` (be it the one just started) has been
    /// finalized.
    pub open spec fn after_block(self, n: BlockNumber) -> State {
        let mid = self.after_tally_check(n);
        if mid.finalize_due(n) {
            mid.finalized(n)
        } else {
            mid
        }
    }

    /// The state with other parameters.
    pub open spec fn with_params(self, params: Params) -> State {
        State { params, ..self }
    }

    /// The state after `who` was removed from the council.
    pub open spec fn with_member_removed(self, who: AccountId) -> State {
        State { council: without_member(self.council, who), ..self }
    }
}

/// Removing a member keeps the order of the others, and leaves no seat of
/// the member behind.
pub proof fn lemma_without_member(council: Seq<(AccountId, BlockNumber)>, who: AccountId)
    requires
        council_sorted(council),
    ensures
        council_sorted(without_member(council, who)),
        without_member(council, who).len() <= council.len(),
        forall|i: int|
            0 <= i < without_member(council, who).len() ==> {
                &&& (#[trigger] without_member(council, who)[i]).0 != who
                &&& council.contains(without_member(council, who)[i])
            },
        forall|i: int|
            0 <= i < council.len() && (#[trigger] council[i]).0 != who ==> without_member(
                council,
                who,
            ).contains(council[i]),
        council.len() > 0 ==> forall|i: int|
            0 <= i < without_member(council, who).len() ==> (#[trigger] without_member(
                council,
                who,
            )[i]).1 <= council.last().1,
    decreases council.len(),
{
    if council.len() > 0 {
        let rest = council.drop_last();
        let kept = without_member(rest, who);
        let next = without_member(council, who);
        lemma_without_member(rest, who);
        assert forall|i: int| 0 <= i < council.len() && (#[trigger] council[i]).0
            != who implies next.contains(council[i]) by {
            if i < rest.len() {
                let w = choose|w: int| 0 <= w < kept.len() && kept[w] == rest[i];
                assert(next[w] == council[i]);
            } else {
                assert(next[next.len() - 1] == council[i]);
            }
        }
    }
}

impl Module {
    /// Ends block `n`: starts the tally that is due at `n`, if one is, and
    /// finalizes the tally that ends at `n`, if one does.
    pub fn do_end_block(&mut self, n: BlockNumber) -> (r: BlockOutcome)
        requires
            old(self).wf(),
            old(self)@.tally_due(n) ==> n + old(self)@.params.presentation_duration <= u64::MAX,
            old(self)@.after_tally_check(n).finalize_due(n) ==> old(self)@.vote_index < u32::MAX
                && n + old(self)@.params.term_duration <= u64::MAX,
        ensures
            final(self).wf(),
            final(self)@ == old(self)@.after_block(n),
            r.started == if old(self)@.tally_due(n) && old(self)@.seats_to_fill(n) > 0 {
                Some(old(self)@.seats_to_fill(n) as u32)
            } else {
                None
            },
            old(self)@.after_tally_check(n).finalize_due(n) ==> r.finalized is Some
                && r.finalized->0.incoming@ == old(self)@.after_tally_check(n).incoming()
                && r.finalized->0.outgoing@ == old(self)@.after_tally_check(n).outgoing(),
            !old(self)@.after_tally_check(n).finalize_due(n) ==> r.finalized is None,
    {
        let mut started: Option<u32> = None;
        if n % self.params.voting_period == 0 {
            match self.next_tally(n) {
                Some(block) => {
                    if block == n {
                        started = self.start_tally(n);
                    }
                },
                None => {},
            }
        }
        let ends: bool = match &self.tally {
            Some(tally) => tally.finalize_at == n,
            None => false,
        };
        let mut finalized: Option<Turnover> = None;
        if ends {
            match self.finalize_tally(n) {
                Ok(members) => {
                    finalized = Some(members);
                },
                Err(_) => {},
            }
        }
        BlockOutcome { started, finalized }
    }

    /// What the host is to do at the end of a block, given what the block
    /// has brought about: record the start of a tally; return the
    /// candidacy bond of every new member, in their order, and record the
    /// end of the tally.
    pub fn block_effects(&self, outcome: BlockOutcome) -> (r: Vec<Effect>)
        ensures
            r@.len() == (if outcome.started is Some {
                1int
            } else {
                0int
            }) + (if outcome.finalized is Some {
                outcome.finalized->0.incoming@.len() as int + 1
            } else {
                0int
            }),
            outcome.started is Some ==> r@[0] == Effect::Deposit(
                Event::TallyStarted(outcome.started->0),
            ),
            outcome.finalized is Some ==> {
                let first = if outcome.started is Some {
                    1int
                } else {
                    0int
                };
                let members = outcome.finalized->0.incoming@;
                &&& forall|i: int|
                    0 <= i < members.len() ==> #[trigger] r@[first + i] == Effect::Unreserve(
                        members[i],
                        self@.params.candidacy_bond,
                    )
                &&& match r@.last() {
                    Effect::Deposit(Event::TallyFinalized(incoming, outgoing)) => incoming@
                        == members && outgoing@ == outcome.finalized->0.outgoing@,
                    _ => false,
                }
            },
    {
        let mut effects: Vec<Effect> = Vec::new();
        match outcome.started {
            Some(seats) => {
                effects.push(Effect::Deposit(Event::TallyStarted(seats)));
            },
            None => {},
        }
        let ghost first = effects@.len() as int;
        match outcome.finalized {
            Some(turnover) => {
                let bond: crate::Balance = self.params.candidacy_bond;
                let mut i: usize = 0;
                while i < turnover.incoming.len()
                    invariant
                        i <= turnover.incoming.len(),
                        effects@.len() == first + i,
                        first == if outcome.started is Some {
                            1int
                        } else {
                            0int
                        },
                        outcome.started is Some ==> effects@[0] == Effect::Deposit(
                            Event::TallyStarted(outcome.started->0),
                        ),
                        bond == self@.params.candidacy_bond,
                        forall|k: int|
                            0 <= k < i ==> #[trigger] effects@[first + k] == Effect::Unreserve(
                                turnover.incoming@[k],
                                bond,
                            ),
                    decreases turnover.incoming.len() - i,
                {
                    effects.push(Effect::Unreserve(turnover.incoming[i], bond));
                    i = i + 1;
                }
                effects.push(
                    Effect::Deposit(Event::TallyFinalized(turnover.incoming, turnover.outgoing)),
                );
            },
            None => {},
        }
        effects
    }

    /// Sets the size the council should have. A smaller size lets seats
    /// lapse as they expire; a larger one brings the next tally forward.
    pub fn set_desired_seats(&mut self, count: u32)
        requires
            old(self).wf(),
        ensures
            final(self).wf(),
            final(self)@ == old(self)@.with_params(
                Params { desired_seats: count, ..old(self)@.params },
            ),
    {
        self.params.desired_seats = count;
    }

    /// Sets the length of the presentation phase for the tallies to come.
    pub fn set_presentation_duration(&mut self, count: BlockNumber)
        requires
            old(self).wf(),
        ensures
            final(self).wf(),
            final(self)@ == old(self)@.with_params(
                Params { presentation_duration: count, ..old(self)@.params },
            ),
    {
        self.params.presentation_duration = count;
    }

    /// Sets the length of the terms of the members to come.
    pub fn set_term_duration(&mut self, count: BlockNumber)
        requires
            old(self).wf(),
        ensures
            final(self).wf(),
            final(self)@ == old(self)@.with_params(
                Params { term_duration: count, ..old(self)@.params },
            ),
    {
        self.params.term_duration = count;
    }

    /// Removes `who` from the council at once.
    pub fn remove_member(&mut self, who: AccountId)
        requires
            old(self).wf(),
        ensures
            final(self).wf(),
            final(self)@ == old(self)@.with_member_removed(who),
    {
        let mut next: Vec<(AccountId, BlockNumber)> = Vec::new();
        let mut i: usize = 0;
        while i < self.active_council.len()
            invariant
                i <= self.active_council.len(),
                next@ == without_member(self.active_council@.take(i as int), who),
            decreases self.active_council.len() - i,
        {
            proof {
                let upper = self.active_council@.take(i + 1);
                assert(upper.drop_last() =~= self.active_council@.take(i as int));
            }
            if self.active_council[i].0 != who {
                next.push(self.active_council[i]);
            }
            i = i + 1;
        }
        proof {
            assert(self.active_council@.take(i as int) =~= self.active_council@);
            lemma_without_member(self.active_council@, who);
        }
        self.active_council = next;
    }
}

} // verus!

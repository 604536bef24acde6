//! The candidate registry: a sequence of slots, some of them holes, and the
//! register that maps each candidate to its slot.
//!
//! A new candidate must fill a hole where there is one; the sequence grows
//! only when every slot is occupied.

use vstd::prelude::*;
use crate::host::Error;
use crate::host::Question;
use crate::model::lemma_live_count_bounded;
use crate::model::lemma_live_count_push;
use crate::model::lemma_live_count_update;
use crate::model::State;
use crate::seats::Module;
use crate::AccountId;

verus! {

broadcast use vstd::std_specs::hash::group_hash_axioms;

impl State {
    /// Whether a new candidate may take `slot`: either the registry has no
    /// hole and `slot` is the next one to append, or `slot` is a hole.
    pub open spec fn slot_is_free(self, slot: u32) -> bool {
        ||| (slot == self.candidate_count && self.candidate_count == self.candidates.len())
        ||| (slot < self.candidates.len() && self.candidates[slot as int] is None)
    }

    /// Why `who` cannot become a candidate at `slot`, if so.
    pub open spec fn candidacy_error(self, who: AccountId, slot: u32) -> Option<Error> {
        if self.is_candidate(who) {
            Some(Error::DuplicateCandidate)
        } else if !self.slot_is_free(slot) {
            Some(Error::InvalidCandidateSlot)
        } else {
            None
        }
    }

    /// What the host is asked before `who` becomes a candidate: to reserve
    /// the candidacy bond.
    pub open spec fn candidacy_question(self, who: AccountId) -> Question {
        Question::Reserve(who, self.params.candidacy_bond)
    }

    /// The state after `who` has registered at `slot` in the current
    /// election.
    pub open spec fn with_candidate(self, who: AccountId, slot: u32) -> State {
        State {
            register: self.register.insert(who, (self.vote_index, slot)),
            candidates: if slot == self.candidates.len() {
                self.candidates.push(Some(who))
            } else {
                self.candidates.update(slot as int, Some(who))
            },
            candidate_count: self.candidate_count + 1,
            ..self
        }
    }

    /// The outcome of a candidacy, given whether the bond could be reserved.
    pub open spec fn candidacy_result(self, who: AccountId, slot: u32, bonded: bool) -> Result<
        (),
        Error,
    > {
        match self.candidacy_error(who, slot) {
            Some(e) => Err(e),
            None => if bonded {
                Ok(())
            } else {
                Err(Error::CandidateFunds)
            },
        }
    }
}

/// Registering a candidate at a free slot keeps the invariant.
pub proof fn lemma_with_candidate_wf(s: State, who: AccountId, slot: u32)
    requires
        s.wf(),
        s.candidacy_error(who, slot) is None,
    ensures
        s.with_candidate(who, slot).wf(),
{
    if slot == s.candidates.len() {
        lemma_live_count_push(s.candidates, Some(who));
    } else {
        lemma_live_count_update(s.candidates, slot as int, Some(who));
    }
}

impl Module {
    /// Tests whether `who` may become a candidate at `slot`, and if so
    /// returns what to ask the host before the candidacy is entered.
    pub fn candidacy_check(&self, who: AccountId, slot: u32) -> (r: Result<Question, Error>)
        requires
            self.wf(),
        ensures
            r == match self@.candidacy_error(who, slot) {
                Some(e) => Err::<Question, Error>(e),
                None => Ok(self@.candidacy_question(who)),
            },
    {
        if self.register.contains_key(&who) {
            return Err(Error::DuplicateCandidate);
        }
        let wanted: u64 = slot as u64;
        let appends: bool = wanted == self.candidate_count && self.candidate_count
            == self.candidates.len() as u64;
        let fills: bool = (slot as usize) < self.candidates.len()
            && self.candidates[slot as usize].is_none();
        if appends || fills {
            Ok(Question::Reserve(who, self.params.candidacy_bond))
        } else {
            Err(Error::InvalidCandidateSlot)
        }
    }

    /// Registers `who` as a candidate at `slot`, given the host's answer to
    /// the question of [`Module::candidacy_check`]. The registry changes
    /// only if the slot is free for `who` and the bond is reserved.
    pub fn do_submit_candidacy(&mut self, who: AccountId, slot: u32, bonded: bool) -> (r: Result<
        (),
        Error,
    >)
        requires
            old(self).wf(),
        ensures
            final(self).wf(),
            r == old(self)@.candidacy_result(who, slot, bonded),
            final(self)@ == if r is Ok {
                old(self)@.with_candidate(who, slot)
            } else {
                old(self)@
            },
    {
        match self.candidacy_check(who, slot) {
            Err(e) => {
                return Err(e);
            },
            Ok(_) => {},
        }
        if !bonded {
            return Err(Error::CandidateFunds);
        }
        proof {
            lemma_with_candidate_wf(self@, who, slot);
            lemma_live_count_bounded(self@.candidates);
        }
        self.register.insert(who, (self.vote_index, slot));
        if slot as usize == self.candidates.len() {
            self.candidates.push(Some(who));
        } else {
            self.candidates.set(slot as usize, Some(who));
        }
        self.candidate_count = self.candidate_count + 1;
        Ok(())
    }
}

} // verus!

//! The voter book: who votes, with what stake, for which slots.
//!
//! A vote is stored by slot, never by account, and is never rewritten when
//! the candidates change. Whether a stored bit still counts is decided when
//! it is read: it counts only for a candidate that had registered by the
//! election in which the voter was last active.

use vstd::prelude::*;
use crate::decay;
use crate::host::Effect;
use crate::host::Error;
use crate::host::Event;
use crate::host::Question;
use crate::host::COUNCIL_SEATS_ID;
use crate::model::lemma_rank_of;
use crate::model::pot_step;
use crate::model::rank_of;
use crate::model::State;
use crate::model::VoterActivity;
use crate::seats::Module;
use crate::AccountId;
use crate::Balance;
use crate::VoteIndex;
use crate::Weight;

verus! {

broadcast use vstd::std_specs::hash::group_hash_axioms;

/// The book after the entry at `index` has been replaced by the last entry
/// and the last entry dropped.
pub open spec fn swap_removed(voters: Seq<(AccountId, Balance)>, index: int) -> Seq<
    (AccountId, Balance),
> {
    voters.update(index, voters.last()).drop_last()
}

impl State {
    /// Why a vote cannot be stored now, if so.
    pub open spec fn approval_error(self, votes: Seq<bool>, index: VoteIndex) -> Option<Error> {
        if self.presentation_active() {
            Some(Error::ApprovalsWhilePresenting)
        } else if index != self.vote_index {
            Some(Error::IncorrectVoteIndex)
        } else if self.candidates.len() == 0 {
            Some(Error::NoCandidates)
        } else if votes.len() > self.candidates.len() {
            Some(Error::TooManyVotes)
        } else {
            None
        }
    }

    /// The outcome of setting approvals, given whether the host could
    /// reserve the voting bond. Only a new voter needs the bond.
    pub open spec fn approval_result(
        self,
        who: AccountId,
        votes: Seq<bool>,
        index: VoteIndex,
        bonded: bool,
    ) -> Result<(), Error> {
        match self.approval_error(votes, index) {
            Some(e) => Err(e),
            None => if self.is_voter(who) || bonded {
                Ok(())
            } else {
                Err(Error::VoterFunds)
            },
        }
    }

    /// What the host is asked before a vote of `who` is stored: to reserve
    /// the voting bond, if `who` is not a voter yet.
    pub open spec fn approval_question(self, who: AccountId) -> Option<Question> {
        if self.is_voter(who) {
            None
        } else {
            Some(Question::Reserve(who, self.params.voting_bond))
        }
    }

    /// What the host does once a vote of `who` is stored: it locks the
    /// whole stake.
    pub open spec fn approval_effects(self, who: AccountId, stake: Balance) -> Seq<Effect> {
        seq![Effect::SetLock(COUNCIL_SEATS_ID, who, stake)]
    }

    /// What the host does once `who` has left the book at its own request:
    /// it returns the voting bond and lifts the lock.
    pub open spec fn retraction_effects(self, who: AccountId) -> Seq<Effect> {
        seq![
            Effect::Unreserve(who, self.params.voting_bond),
            Effect::RemoveLock(COUNCIL_SEATS_ID, who),
        ]
    }

    /// What the host is asked before a report is judged: to hand the bond
    /// of the target to the reporter, if the target is stale.
    pub open spec fn reap_question(self, reporter: AccountId, who: AccountId) -> Option<Question> {
        if self.is_stale(who) {
            Some(Question::Repatriate(who, reporter, self.params.voting_bond))
        } else {
            None
        }
    }

    /// What the host does once a report is judged. A stale target loses its
    /// lock; a reporter who was wrong loses its lock and its bond. Either
    /// way the event is recorded.
    pub open spec fn reap_effects(self, reporter: AccountId, who: AccountId) -> Seq<Effect> {
        if self.is_stale(who) {
            seq![
                Effect::RemoveLock(COUNCIL_SEATS_ID, who),
                Effect::Deposit(Event::VoterReaped(who, reporter)),
            ]
        } else {
            seq![
                Effect::RemoveLock(COUNCIL_SEATS_ID, reporter),
                Effect::SlashBadReaper(reporter, self.params.voting_bond),
                Effect::Deposit(Event::BadReaperSlashed(reporter)),
            ]
        }
    }

    /// The weight that the recorded stake of `who` has earned since the
    /// voter's last win.
    pub open spec fn earned_offset(self, who: AccountId) -> nat {
        decay::offset(
            self.voters[rank_of(self.voters, who)].1 as nat,
            self.params.decay_ratio as nat,
            (self.vote_index - self.activity[who].last_win) as nat,
        )
    }

    /// The state after `who` has voted `votes` with a stake of `stake` in
    /// the current election. A voter already in the book keeps its position
    /// and banks the offset earned so far into its pot; a new voter is
    /// appended.
    pub open spec fn with_approvals(self, who: AccountId, votes: Seq<bool>, stake: Balance) -> State {
        let rank = rank_of(self.voters, who);
        let fresh = VoterActivity { last_active: self.vote_index, last_win: self.vote_index };
        let book = if !self.is_voter(who) {
            State { voters: self.voters.push((who, stake)), ..self }
        } else if rank < self.voters.len() {
            State {
                voters: self.voters.update(rank, (who, stake)),
                pots: self.pots.insert(who, self.pot_of(who) + self.earned_offset(who)),
                ..self
            }
        } else {
            self
        };
        State {
            activity: self.activity.insert(who, fresh),
            approvals: self.approvals.insert(who, votes),
            ..book
        }
    }

    /// Why `who` cannot leave the book through position `index`, if so.
    pub open spec fn retraction_error(self, who: AccountId, index: u32) -> Option<Error> {
        if self.presentation_active() {
            Some(Error::CannotRetractWhilePresenting)
        } else if !self.is_voter(who) {
            Some(Error::CannotRetractNonVoter)
        } else if index >= self.voters.len() {
            Some(Error::RetractionIndexInvalid)
        } else if self.voters[index as int].0 != who {
            Some(Error::RetractionIndexMismatch)
        } else {
            None
        }
    }

    /// The state after the voter `who`, listed at `index`, has been removed
    /// with everything stored for it.
    pub open spec fn without_voter(self, who: AccountId, index: int) -> State {
        State {
            voters: swap_removed(self.voters, index),
            approvals: self.approvals.remove(who),
            activity: self.activity.remove(who),
            pots: self.pots.remove(who),
            ..self
        }
    }

    /// Why `reporter` cannot ask for `who` to be judged now, if so.
    pub open spec fn reap_error(
        self,
        reporter: AccountId,
        reporter_index: u32,
        who: AccountId,
        who_index: u32,
        assumed_vote_index: VoteIndex,
    ) -> Option<Error> {
        if self.presentation_active() {
            Some(Error::CannotReapWhilePresenting)
        } else if !self.is_voter(reporter) {
            Some(Error::ReporterNotVoter)
        } else if !self.is_voter(who) {
            Some(Error::TargetNotActive)
        } else if assumed_vote_index != self.vote_index {
            Some(Error::VoteIndexNotCurrent)
        } else if assumed_vote_index <= self.activity[who].last_active
            + self.params.inactivity_grace_period {
            Some(Error::CannotReapDuringGrace)
        } else if !(reporter_index < self.voters.len()
            && self.voters[reporter_index as int].0 == reporter) {
            Some(Error::BadReporterIndex)
        } else if !(who_index < self.voters.len() && self.voters[who_index as int].0 == who) {
            Some(Error::BadTargetIndex)
        } else {
            None
        }
    }

    /// Whether the stored vote of `who` still counts at `slot`: the bit is
    /// set, the slot holds a candidate, and that candidate had registered
    /// by the election in which `who` was last active.
    pub open spec fn backs_candidate_at(self, who: AccountId, slot: int) -> bool {
        &&& self.is_voter(who)
        &&& self.approves(who, slot)
        &&& 0 <= slot < self.candidates.len()
        &&& self.candidates[slot] is Some
        &&& self.register.contains_key(self.candidates[slot]->0)
        &&& self.register[self.candidates[slot]->0].0 <= self.activity[who].last_active
    }

    /// A voter is stale when none of its approvals still counts.
    pub open spec fn is_stale(self, who: AccountId) -> bool {
        forall|slot: int| !self.backs_candidate_at(who, slot)
    }

    /// The outcome of a report, given whether the host could hand the
    /// target's bond to the reporter.
    pub open spec fn reap_result(
        self,
        reporter: AccountId,
        reporter_index: u32,
        who: AccountId,
        who_index: u32,
        assumed_vote_index: VoteIndex,
        repatriated: bool,
    ) -> Result<(), Error> {
        match self.reap_error(reporter, reporter_index, who, who_index, assumed_vote_index) {
            Some(e) => Err(e),
            None => if !self.is_stale(who) || repatriated {
                Ok(())
            } else {
                Err(Error::BeneficiaryMissing)
            },
        }
    }

    /// The state after a report was judged: the target is removed if it is
    /// stale, the reporter if it is not.
    pub open spec fn reaped(
        self,
        reporter: AccountId,
        reporter_index: u32,
        who: AccountId,
        who_index: u32,
    ) -> State {
        if self.is_stale(who) {
            self.without_voter(who, who_index as int)
        } else {
            self.without_voter(reporter, reporter_index as int)
        }
    }
}

/// A position that holds the account, with no earlier one that does, is the
/// account's rank.
pub proof fn lemma_rank_is(voters: Seq<(AccountId, Balance)>, who: AccountId, k: int)
    requires
        0 <= k <= voters.len(),
        k < voters.len() ==> voters[k].0 == who,
        forall|i: int| 0 <= i < k ==> (#[trigger] voters[i]).0 != who,
    ensures
        rank_of(voters, who) == k,
{
    lemma_rank_of(voters, who);
}

/// No offset reaches the bound by which pots are measured.
pub proof fn lemma_offset_below_step(stake: Balance, ratio: u32, t: nat)
    ensures
        decay::offset(stake as nat, ratio as nat, t) < pot_step(),
{
    decay::lemma_offset_below_ceiling(stake as nat, ratio as nat, t);
    let s = stake as nat;
    let n = ratio as nat;
    assert(s * n <= 0xffff_ffff_ffff_ffff * 0xffff_ffff) by (nonlinear_arith)
        requires
            s <= 0xffff_ffff_ffff_ffff,
            n <= 0xffff_ffff,
    ;
}

/// Storing a vote keeps the invariant.
pub proof fn lemma_with_approvals_wf(s: State, who: AccountId, votes: Seq<bool>, stake: Balance)
    requires
        s.wf(),
    ensures
        s.with_approvals(who, votes, stake).wf(),
        s.is_voter(who) ==> rank_of(s.voters, who) < s.voters.len(),
        s.is_voter(who) ==> s.pot_of(who) + s.earned_offset(who) <= s.vote_index * pot_step(),
{
    let t = s.with_approvals(who, votes, stake);
    let rank = rank_of(s.voters, who);
    lemma_rank_of(s.voters, who);
    if s.is_voter(who) {
        let record = s.activity[who];
        let distance = (s.vote_index - record.last_win) as nat;
        lemma_offset_below_step(s.voters[rank].1, s.params.decay_ratio, distance);
        assert forall|a: AccountId| #[trigger] t.activity.contains_key(a) implies rank_of(
            t.voters,
            a,
        ) < t.voters.len() by {
            lemma_rank_of(s.voters, a);
            lemma_rank_is(t.voters, a, rank_of(s.voters, a));
        }
    } else {
        assert forall|a: AccountId| #[trigger] t.activity.contains_key(a) implies rank_of(
            t.voters,
            a,
        ) < t.voters.len() by {
            lemma_rank_of(s.voters, a);
            if a != who {
                lemma_rank_is(t.voters, a, rank_of(s.voters, a));
            } else {
                lemma_rank_is(t.voters, a, s.voters.len() as int);
            }
        }
    }
}

/// Removing a voter through its own position keeps the invariant, and
/// leaves nothing of the voter behind.
pub proof fn lemma_without_voter_wf(s: State, who: AccountId, index: int)
    requires
        s.wf(),
        0 <= index < s.voters.len(),
        s.voters[index].0 == who,
    ensures
        s.without_voter(who, index).wf(),
        !s.without_voter(who, index).is_voter(who),
        !s.without_voter(who, index).approvals.contains_key(who),
        !s.without_voter(who, index).pots.contains_key(who),
        rank_of(s.without_voter(who, index).voters, who) == s.voters.len() - 1,
{
    let t = s.without_voter(who, index);
    let last = s.voters.len() - 1;
    assert forall|a: AccountId| #[trigger] t.activity.contains_key(a) implies rank_of(
        t.voters,
        a,
    ) < t.voters.len() by {
        lemma_rank_of(s.voters, a);
        lemma_rank_of(t.voters, a);
        let p = rank_of(s.voters, a);
        let q = if p == last {
            index
        } else {
            p
        };
        assert(t.voters[q] == s.voters[p]);
    }
    lemma_rank_is(t.voters, who, t.voters.len() as int);
}

impl Module {
    /// Tests whether a vote of `who` for election `index` can be stored
    /// now, and if so returns what to ask the host before it is.
    pub fn approval_check(&self, who: AccountId, votes: &Vec<bool>, index: VoteIndex) -> (r: Result<
        Option<Question>,
        Error,
    >)
        requires
            self.wf(),
        ensures
            r == match self@.approval_error(votes@, index) {
                Some(e) => Err::<Option<Question>, Error>(e),
                None => Ok(self@.approval_question(who)),
            },
    {
        if self.tally.is_some() {
            Err(Error::ApprovalsWhilePresenting)
        } else if index != self.vote_index {
            Err(Error::IncorrectVoteIndex)
        } else if self.candidates.len() == 0 {
            Err(Error::NoCandidates)
        } else if votes.len() > self.candidates.len() {
            Err(Error::TooManyVotes)
        } else if self.activity.contains_key(&who) {
            Ok(None)
        } else {
            Ok(Some(Question::Reserve(who, self.params.voting_bond)))
        }
    }

    /// The first position at which `who` is listed in the voter book, or
    /// the length of the book.
    pub fn voter_rank(&self, who: AccountId) -> (r: usize)
        ensures
            r == rank_of(self@.voters, who),
    {
        let mut i: usize = 0;
        while i < self.voters.len() && self.voters[i].0 != who
            invariant
                i <= self.voters.len(),
                forall|j: int| 0 <= j < i ==> (#[trigger] self.voters@[j]).0 != who,
            decreases self.voters.len() - i,
        {
            i = i + 1;
        }
        proof {
            lemma_rank_is(self.voters@, who, i as int);
        }
        i
    }

    /// Stores the vote of `who` for election `index`, given the balance
    /// that the host reports for `who`, which becomes the stake, and the
    /// host's answer to the question of [`Module::approval_check`] (put for
    /// a new voter only). Returns what the host is to do.
    pub fn do_set_approvals(
        &mut self,
        who: AccountId,
        votes: Vec<bool>,
        index: VoteIndex,
        stake: Balance,
        bonded: bool,
    ) -> (r: Result<Vec<Effect>, Error>)
        requires
            old(self).wf(),
        ensures
            final(self).wf(),
            match r {
                Ok(effects) => {
                    &&& old(self)@.approval_result(who, votes@, index, bonded) is Ok
                    &&& effects@ == old(self)@.approval_effects(who, stake)
                    &&& final(self)@ == old(self)@.with_approvals(who, votes@, stake)
                },
                Err(e) => {
                    &&& old(self)@.approval_result(who, votes@, index, bonded) == Err::<
                        (),
                        Error,
                    >(e)
                    &&& final(self)@ == old(self)@
                },
            },
    {
        match self.approval_check(who, &votes, index) {
            Err(e) => {
                return Err(e);
            },
            Ok(_) => {},
        }
        proof {
            lemma_with_approvals_wf(self@, who, votes@, stake);
        }
        let known: Option<VoterActivity> = self.voter_activity(who);
        match known {
            Some(record) => {
                let rank: usize = self.voter_rank(who);
                let old_stake: Balance = self.voters[rank].1;
                self.voters.set(rank, (who, stake));
                let earned: Weight = self.get_offset(old_stake, index - record.last_win);
                let pot: Weight = match self.pots.get(&who) {
                    Some(p) => *p,
                    None => 0,
                };
                self.pots.insert(who, pot + earned);
            },
            None => {
                if !bonded {
                    return Err(Error::VoterFunds);
                }
                self.voters.push((who, stake));
            },
        }
        let ghost stored = votes@;
        self.activity.insert(who, VoterActivity { last_active: index, last_win: index });
        self.approvals.insert(who, votes);
        proof {
            let goal = old(self)@.with_approvals(who, stored, stake);
            assert(self@.approvals =~= goal.approvals);
            assert(self@.pots =~= goal.pots);
        }
        let mut effects: Vec<Effect> = Vec::new();
        effects.push(Effect::SetLock(COUNCIL_SEATS_ID, who, stake));
        Ok(effects)
    }

    /// Removes the voter `voter`, listed at `index`, with its stored vote,
    /// its activity record and its pot.
    pub(crate) fn remove_voter(&mut self, voter: AccountId, index: usize)
        requires
            old(self).wf(),
            index < old(self)@.voters.len(),
            old(self)@.voters[index as int].0 == voter,
        ensures
            final(self).wf(),
            final(self)@ == old(self)@.without_voter(voter, index as int),
    {
        proof {
            lemma_without_voter_wf(self@, voter, index as int);
        }
        self.voters.swap_remove(index);
        self.approvals.remove(&voter);
        self.activity.remove(&voter);
        self.pots.remove(&voter);
        proof {
            let goal = old(self)@.without_voter(voter, index as int);
            assert(self@.approvals =~= goal.approvals);
            assert(self@.pots =~= goal.pots);
        }
    }

    /// Tests whether `who` can leave the book through position `index`.
    pub fn retraction_check(&self, who: AccountId, index: u32) -> (r: Result<(), Error>)
        requires
            self.wf(),
        ensures
            r == match self@.retraction_error(who, index) {
                Some(e) => Err::<(), Error>(e),
                None => Ok(()),
            },
    {
        if self.tally.is_some() {
            Err(Error::CannotRetractWhilePresenting)
        } else if !self.activity.contains_key(&who) {
            Err(Error::CannotRetractNonVoter)
        } else if index as usize >= self.voters.len() {
            Err(Error::RetractionIndexInvalid)
        } else if self.voters[index as usize].0 != who {
            Err(Error::RetractionIndexMismatch)
        } else {
            Ok(())
        }
    }

    /// Removes `who` from the book at its own request, if `index` is the
    /// position at which `who` is listed. Returns what the host is to do.
    pub fn do_retract_voter(&mut self, who: AccountId, index: u32) -> (r: Result<
        Vec<Effect>,
        Error,
    >)
        requires
            old(self).wf(),
        ensures
            final(self).wf(),
            match r {
                Ok(effects) => {
                    &&& old(self)@.retraction_error(who, index) is None
                    &&& effects@ == old(self)@.retraction_effects(who)
                    &&& final(self)@ == old(self)@.without_voter(who, index as int)
                },
                Err(e) => {
                    &&& old(self)@.retraction_error(who, index) == Some(e)
                    &&& final(self)@ == old(self)@
                },
            },
    {
        match self.retraction_check(who, index) {
            Err(e) => Err(e),
            Ok(_) => {
                self.remove_voter(who, index as usize);
                let mut effects: Vec<Effect> = Vec::new();
                effects.push(Effect::Unreserve(who, self.params.voting_bond));
                effects.push(Effect::RemoveLock(COUNCIL_SEATS_ID, who));
                Ok(effects)
            },
        }
    }

    /// Tests whether `reporter` can have `who` judged now, and if so
    /// returns what to ask the host before the judgment is carried out.
    pub fn reap_check(
        &self,
        reporter: AccountId,
        reporter_index: u32,
        who: AccountId,
        who_index: u32,
        assumed_vote_index: VoteIndex,
    ) -> (r: Result<Option<Question>, Error>)
        requires
            self.wf(),
        ensures
            r == match self@.reap_error(
                reporter,
                reporter_index,
                who,
                who_index,
                assumed_vote_index,
            ) {
                Some(e) => Err::<Option<Question>, Error>(e),
                None => Ok(self@.reap_question(reporter, who)),
            },
    {
        if self.tally.is_some() {
            return Err(Error::CannotReapWhilePresenting);
        }
        if !self.activity.contains_key(&reporter) {
            return Err(Error::ReporterNotVoter);
        }
        let record: VoterActivity = match self.voter_activity(who) {
            Some(record) => record,
            None => {
                return Err(Error::TargetNotActive);
            },
        };
        if assumed_vote_index != self.vote_index {
            return Err(Error::VoteIndexNotCurrent);
        }
        let graced: u64 = record.last_active as u64 + self.params.inactivity_grace_period as u64;
        if assumed_vote_index as u64 <= graced {
            return Err(Error::CannotReapDuringGrace);
        }
        let r_index: usize = reporter_index as usize;
        let w_index: usize = who_index as usize;
        if !(r_index < self.voters.len() && self.voters[r_index].0 == reporter) {
            return Err(Error::BadReporterIndex);
        }
        if !(w_index < self.voters.len() && self.voters[w_index].0 == who) {
            return Err(Error::BadTargetIndex);
        }
        if self.is_stale(who) {
            Ok(Some(Question::Repatriate(who, reporter, self.params.voting_bond)))
        } else {
            Ok(None)
        }
    }

    /// Whether none of the approvals of the voter `who` still counts.
    pub fn is_stale(&self, who: AccountId) -> (r: bool)
        requires
            self.wf(),
        ensures
            r == self@.is_stale(who),
    {
        let record: VoterActivity = match self.voter_activity(who) {
            Some(record) => record,
            None => {
                return true;
            },
        };
        let votes: &Vec<bool> = match self.approvals.get(&who) {
            Some(votes) => votes,
            None => {
                return true;
            },
        };
        let mut slot: usize = 0;
        while slot < votes.len() && slot < self.candidates.len()
            invariant
                self.wf(),
                self@.is_voter(who),
                self@.activity[who] == record,
                self@.approvals.contains_key(who),
                self@.approvals[who] == votes@,
                forall|s: int| 0 <= s < slot ==> !self@.backs_candidate_at(who, s),
            decreases votes.len() - slot,
        {
            if votes[slot] {
                match self.candidates[slot] {
                    Some(candidate) => {
                        match self.register.get(&candidate) {
                            Some(info) => {
                                if info.0 <= record.last_active {
                                    assert(self@.backs_candidate_at(who, slot as int));
                                    return false;
                                }
                            },
                            None => {},
                        }
                    },
                    None => {},
                }
            }
            slot = slot + 1;
        }
        true
    }

    /// Judges the voter `who` on the report of `reporter`, given the host's
    /// answer to the question of [`Module::reap_check`] (put only where the
    /// target is stale). Exactly one of the two leaves the book. Returns
    /// what the host is to do.
    pub fn do_reap_inactive_voter(
        &mut self,
        reporter: AccountId,
        reporter_index: u32,
        who: AccountId,
        who_index: u32,
        assumed_vote_index: VoteIndex,
        repatriated: bool,
    ) -> (r: Result<Vec<Effect>, Error>)
        requires
            old(self).wf(),
        ensures
            final(self).wf(),
            match r {
                Ok(effects) => {
                    &&& old(self)@.reap_result(
                        reporter,
                        reporter_index,
                        who,
                        who_index,
                        assumed_vote_index,
                        repatriated,
                    ) is Ok
                    &&& effects@ == old(self)@.reap_effects(reporter, who)
                    &&& final(self)@ == old(self)@.reaped(reporter, reporter_index, who, who_index)
                },
                Err(e) => {
                    &&& old(self)@.reap_result(
                        reporter,
                        reporter_index,
                        who,
                        who_index,
                        assumed_vote_index,
                        repatriated,
                    ) == Err::<(), Error>(e)
                    &&& final(self)@ == old(self)@
                },
            },
    {
        let question: Option<Question> = match self.reap_check(
            reporter,
            reporter_index,
            who,
            who_index,
            assumed_vote_index,
        ) {
            Err(e) => {
                return Err(e);
            },
            Ok(question) => question,
        };
        let bond: Balance = self.params.voting_bond;
        let mut effects: Vec<Effect> = Vec::new();
        match question {
            Some(_) => {
                if !repatriated {
                    return Err(Error::BeneficiaryMissing);
                }
                self.remove_voter(who, who_index as usize);
                effects.push(Effect::RemoveLock(COUNCIL_SEATS_ID, who));
                effects.push(Effect::Deposit(Event::VoterReaped(who, reporter)));
            },
            None => {
                self.remove_voter(reporter, reporter_index as usize);
                effects.push(Effect::RemoveLock(COUNCIL_SEATS_ID, reporter));
                effects.push(Effect::SlashBadReaper(reporter, bond));
                effects.push(Effect::Deposit(Event::BadReaperSlashed(reporter)));
            },
        }
        Ok(effects)
    }
}

} // verus!

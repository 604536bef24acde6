//! The dispatch surface: each operation as the ledger calls it, with the
//! account that the ledger has authenticated.
//!
//! An operation here puts to the host the question that the module has for
//! it, hands the answer to the module, and has the host carry out what the
//! module returns. The module is changed only once nothing can fail any
//! more: an operation that returns an error has left it as it was.

use vstd::prelude::*;
use crate::host::ask;
use crate::host::perform_all;
use crate::host::Error;
use crate::host::Question;
use crate::host::Trait;
use crate::seats::Module;
use crate::AccountId;
use crate::Balance;
use crate::BlockNumber;
use crate::VoteIndex;
use crate::Weight;

verus! {

impl Module {
    /// Submits `who` for candidacy at `slot`. The host is asked to reserve
    /// the candidacy bond once the slot is known to be free for `who`.
    pub fn submit_candidacy<T: Trait>(&mut self, host: &mut T, who: AccountId, slot: u32) -> (r:
        Result<(), Error>)
        requires
            old(self).wf(),
        ensures
            final(self).wf(),
            exists|bonded: bool| r == #[trigger] old(self)@.candidacy_result(who, slot, bonded),
            old(self)@.candidacy_error(who, slot) is Some ==> r == Err::<(), Error>(
                old(self)@.candidacy_error(who, slot)->0,
            ),
            final(self)@ == if r is Ok {
                old(self)@.with_candidate(who, slot)
            } else {
                old(self)@
            },
    {
        let question: Question = match self.candidacy_check(who, slot) {
            Err(e) => {
                assert(old(self)@.candidacy_result(who, slot, true) == Err::<(), Error>(e));
                return Err(e);
            },
            Ok(question) => question,
        };
        let bonded: bool = ask(host, question);
        self.do_submit_candidacy(who, slot, bonded)
    }

    /// Stores the vote of `who` for election `index`. The host is asked
    /// for the balance of `who`, which becomes the stake and is locked
    /// whole, and, for a new voter, to reserve the voting bond.
    pub fn set_approvals<T: Trait>(
        &mut self,
        host: &mut T,
        who: AccountId,
        votes: Vec<bool>,
        index: VoteIndex,
    ) -> (r: Result<(), Error>)
        requires
            old(self).wf(),
        ensures
            final(self).wf(),
            exists|bonded: bool|
                r == #[trigger] old(self)@.approval_result(who, votes@, index, bonded),
            old(self)@.approval_error(votes@, index) is Some ==> r == Err::<(), Error>(
                old(self)@.approval_error(votes@, index)->0,
            ),
            old(self)@.approval_error(votes@, index) is None && old(self)@.is_voter(who)
                ==> r is Ok,
            r is Ok ==> exists|stake: Balance|
                final(self)@ == #[trigger] old(self)@.with_approvals(who, votes@, stake),
            r is Err ==> final(self)@ == old(self)@,
    {
        let question: Option<Question> = match self.approval_check(who, &votes, index) {
            Err(e) => {
                return Err(e);
            },
            Ok(question) => question,
        };
        let stake: Balance = host.total_balance(who);
        let bonded: bool = match question {
            Some(question) => ask(host, question),
            None => true,
        };
        match self.do_set_approvals(who, votes, index, stake, bonded) {
            Ok(effects) => {
                perform_all(host, effects);
                Ok(())
            },
            Err(e) => Err(e),
        }
    }

    /// Stores a vote on behalf of the principal of `delegate`, if the host
    /// knows one.
    pub fn proxy_set_approvals<T: Trait>(
        &mut self,
        host: &mut T,
        delegate: AccountId,
        votes: Vec<bool>,
        index: VoteIndex,
    ) -> (r: Result<(), Error>)
        requires
            old(self).wf(),
        ensures
            final(self).wf(),
            r == Err::<(), Error>(Error::NotAProxy) || exists|who: AccountId, bonded: bool|
                {
                    &&& r == #[trigger] old(self)@.approval_result(who, votes@, index, bonded)
                    &&& r is Ok ==> exists|stake: Balance|
                        final(self)@ == #[trigger] old(self)@.with_approvals(who, votes@, stake)
                },
            r is Err ==> final(self)@ == old(self)@,
    {
        match host.proxy(delegate) {
            None => Err(Error::NotAProxy),
            Some(who) => self.set_approvals(host, who, votes, index),
        }
    }

    /// Removes the voter `who`, listed at `index`, at its own request. The
    /// host returns the voting bond and lifts the lock.
    pub fn retract_voter<T: Trait>(&mut self, host: &mut T, who: AccountId, index: u32) -> (r:
        Result<(), Error>)
        requires
            old(self).wf(),
        ensures
            final(self).wf(),
            r == match old(self)@.retraction_error(who, index) {
                Some(e) => Err::<(), Error>(e),
                None => Ok(()),
            },
            final(self)@ == if r is Ok {
                old(self)@.without_voter(who, index as int)
            } else {
                old(self)@
            },
    {
        match self.do_retract_voter(who, index) {
            Ok(effects) => {
                perform_all(host, effects);
                Ok(())
            },
            Err(e) => Err(e),
        }
    }

    /// Has the voter `who` judged on the report of `reporter`. If `who` is
    /// stale it leaves the book and its bond goes to the reporter; if not,
    /// the reporter leaves the book and loses its own bond.
    pub fn reap_inactive_voter<T: Trait>(
        &mut self,
        host: &mut T,
        reporter: AccountId,
        reporter_index: u32,
        who: AccountId,
        who_index: u32,
        assumed_vote_index: VoteIndex,
    ) -> (r: Result<(), Error>)
        requires
            old(self).wf(),
        ensures
            final(self).wf(),
            exists|repatriated: bool|
                r == #[trigger] old(self)@.reap_result(
                    reporter,
                    reporter_index,
                    who,
                    who_index,
                    assumed_vote_index,
                    repatriated,
                ),
            old(self)@.reap_error(reporter, reporter_index, who, who_index, assumed_vote_index)
                is Some ==> r == Err::<(), Error>(
                old(self)@.reap_error(
                    reporter,
                    reporter_index,
                    who,
                    who_index,
                    assumed_vote_index,
                )->0,
            ),
            old(self)@.reap_error(reporter, reporter_index, who, who_index, assumed_vote_index)
                is None && !old(self)@.is_stale(who) ==> r is Ok,
            final(self)@ == if r is Ok {
                old(self)@.reaped(reporter, reporter_index, who, who_index)
            } else {
                old(self)@
            },
    {
        let question: Option<Question> = match self.reap_check(
            reporter,
            reporter_index,
            who,
            who_index,
            assumed_vote_index,
        ) {
            Err(e) => {
                assert(old(self)@.reap_result(
                    reporter,
                    reporter_index,
                    who,
                    who_index,
                    assumed_vote_index,
                    true,
                ) == Err::<(), Error>(e));
                return Err(e);
            },
            Ok(question) => question,
        };
        let repatriated: bool = match question {
            Some(question) => ask(host, question),
            None => true,
        };
        match self.do_reap_inactive_voter(
            reporter,
            reporter_index,
            who,
            who_index,
            assumed_vote_index,
            repatriated,
        ) {
            Ok(effects) => {
                perform_all(host, effects);
                Ok(())
            },
            Err(e) => Err(e),
        }
    }

    /// Examines the claim of `presenter` that `candidate` has a weight of
    /// `total` in election `index`. The host is asked whether it can slash
    /// the presenter by the punishment, and slashes by it if the claim was
    /// examined and found wrong.
    pub fn present_winner<T: Trait>(
        &mut self,
        host: &mut T,
        presenter: AccountId,
        candidate: AccountId,
        total: Weight,
        index: VoteIndex,
    ) -> (r: Result<(), Error>)
        requires
            old(self).wf(),
        ensures
            final(self).wf(),
            exists|slashable: bool|
                r == #[trigger] old(self)@.presentation_result(candidate, total, index, slashable),
            final(self)@ == if r is Ok {
                old(self)@.with_presentation(candidate, total)
            } else {
                old(self)@
            },
    {
        let slashable: bool = match self.presentation_question(presenter) {
            Some(question) => ask(host, question),
            None => false,
        };
        let ruling = self.do_present_winner(presenter, candidate, total, index, slashable);
        perform_all(host, ruling.effects);
        ruling.result
    }

    /// Ends block `n`, and tells the host what has happened: a tally that
    /// has started; the winners of a tally that has ended, whose candidacy
    /// bonds the host returns.
    pub fn end_block<T: Trait>(&mut self, host: &mut T, n: BlockNumber) -> (r: Result<(), Error>)
        requires
            old(self).wf(),
            old(self)@.tally_due(n) ==> n + old(self)@.params.presentation_duration <= u64::MAX,
            old(self)@.after_tally_check(n).finalize_due(n) ==> old(self)@.vote_index < u32::MAX
                && n + old(self)@.params.term_duration <= u64::MAX,
        ensures
            final(self).wf(),
            r is Ok,
            final(self)@ == old(self)@.after_block(n),
    {
        let outcome = self.do_end_block(n);
        let effects = self.block_effects(outcome);
        perform_all(host, effects);
        Ok(())
    }

    /// What the ledger calls once the transactions of block `n` are done.
    pub fn on_finalize<T: Trait>(&mut self, host: &mut T, n: BlockNumber)
        requires
            old(self).wf(),
            old(self)@.tally_due(n) ==> n + old(self)@.params.presentation_duration <= u64::MAX,
            old(self)@.after_tally_check(n).finalize_due(n) ==> old(self)@.vote_index < u32::MAX
                && n + old(self)@.params.term_duration <= u64::MAX,
        ensures
            final(self).wf(),
            final(self)@ == old(self)@.after_block(n),
    {
        let _ = self.end_block(host, n);
    }
}

} // verus!

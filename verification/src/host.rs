//! What the module needs from the ledger around it, and what it reports
//! back: the host's services, the events and the errors.

use vstd::prelude::*;
use crate::AccountId;
use crate::Balance;

verus! {

/// The identifier under which voters' balances are locked.
pub const COUNCIL_SEATS_ID: [u8; 8] = [99u8, 111u8, 117u8, 110u8, 99u8, 105u8, 108u8, 99u8];

/// What the module tells the ledger has happened.
#[derive(Debug, PartialEq, Eq)]
pub enum Event {
    /// A stale voter was removed: the voter, then the reporter.
    VoterReaped(AccountId, AccountId),
    /// A reporter accused a voter who was not stale, and lost the bond.
    BadReaperSlashed(AccountId),
    /// A tally has started for this many seats.
    TallyStarted(u32),
    /// A tally has ended: the new members, then the members who left.
    TallyFinalized(Vec<AccountId>, Vec<AccountId>),
}

/// What the module asks of the host before it decides. The answer to each
/// is yes or no.
#[derive(Clone, Copy, Debug, PartialEq, Eq, Structural)]
pub enum Question {
    /// Move this much of the account from free to reserved, if the account
    /// can afford it.
    Reserve(AccountId, Balance),
    /// Move this much from what the first account has reserved to the free
    /// balance of the second, if the second exists.
    Repatriate(AccountId, AccountId, Balance),
    /// Can this much be slashed from the account?
    CanSlash(AccountId, Balance),
}

/// What the module has the host do once it has decided. None of these can
/// be refused.
#[derive(Debug, PartialEq, Eq)]
pub enum Effect {
    /// Move up to this much of the account from reserved back to free.
    Unreserve(AccountId, Balance),
    /// Lock this much of the account under the identifier, without an end
    /// and against every kind of withdrawal.
    SetLock([u8; 8], AccountId, Balance),
    /// Remove the lock that the identifier holds on the account.
    RemoveLock([u8; 8], AccountId),
    /// Slash this much from a presenter, for the sink of bad presentations.
    SlashBadPresentation(AccountId, Balance),
    /// Slash this much from what a reporter has reserved, for the sink of
    /// bad reapers.
    SlashBadReaper(AccountId, Balance),
    /// Record the event.
    Deposit(Event),
}

/// Why an operation was refused. A refused operation leaves the module as
/// it was.
#[derive(Clone, Copy, Debug, PartialEq, Eq, Structural)]
pub enum Error {
    NotAProxy,
    CannotReapWhilePresenting,
    ReporterNotVoter,
    TargetNotActive,
    VoteIndexNotCurrent,
    CannotReapDuringGrace,
    BadReporterIndex,
    BadTargetIndex,
    BeneficiaryMissing,
    CannotRetractWhilePresenting,
    CannotRetractNonVoter,
    RetractionIndexInvalid,
    RetractionIndexMismatch,
    DuplicateCandidate,
    InvalidCandidateSlot,
    CandidateFunds,
    ZeroStake,
    IndexNotCurrent,
    NotPresenting,
    PresenterFunds,
    NotWorthy,
    DuplicateMember,
    CandidateNotCurrent,
    DuplicatePresentation,
    IncorrectTotal,
    ApprovalsWhilePresenting,
    IncorrectVoteIndex,
    NoCandidates,
    TooManyVotes,
    VoterFunds,
    TallyNotStarted,
}

impl Error {
    /// The text of the error.
    pub open spec fn text(self) -> Seq<char> {
        match self {
            Error::NotAProxy => "not a proxy"@,
            Error::CannotReapWhilePresenting => "cannot reap during presentation period"@,
            Error::ReporterNotVoter => "reporter must be a voter"@,
            Error::TargetNotActive => "target for inactivity cleanup must be active"@,
            Error::VoteIndexNotCurrent => "vote index not current"@,
            Error::CannotReapDuringGrace => "cannot reap during grace period"@,
            Error::BadReporterIndex => "bad reporter index"@,
            Error::BadTargetIndex => "bad target index"@,
            Error::BeneficiaryMissing => "beneficiary account must pre-exist"@,
            Error::CannotRetractWhilePresenting => "cannot retract when presenting"@,
            Error::CannotRetractNonVoter => "cannot retract non-voter"@,
            Error::RetractionIndexInvalid => "retraction index invalid"@,
            Error::RetractionIndexMismatch => "retraction index mismatch"@,
            Error::DuplicateCandidate => "duplicate candidate submission"@,
            Error::InvalidCandidateSlot => "invalid candidate slot"@,
            Error::CandidateFunds => "candidate has not enough funds"@,
            Error::ZeroStake => "stake deposited to present winner and be added to leaderboard should be non-zero"@,
            Error::IndexNotCurrent => "index not current"@,
            Error::NotPresenting => "cannot present outside of presentation period"@,
            Error::PresenterFunds => "presenter must have sufficient slashable funds"@,
            Error::NotWorthy => "candidate not worthy of leaderboard"@,
            Error::DuplicateMember => "candidate must not form a duplicated member if elected"@,
            Error::CandidateNotCurrent => "presented candidate must be current"@,
            Error::DuplicatePresentation => "duplicate presentation"@,
            Error::IncorrectTotal => "incorrect total"@,
            Error::ApprovalsWhilePresenting => "no approval changes during presentation period"@,
            Error::IncorrectVoteIndex => "incorrect vote index"@,
            Error::NoCandidates => "amount of candidates to receive approval votes should be non-zero"@,
            Error::TooManyVotes => "amount of candidate approval votes cannot exceed amount of candidates"@,
            Error::VoterFunds => "not enough free funds"@,
            Error::TallyNotStarted => "finalize can only be called after a tally is started."@,
        }
    }

    /// The text of the error, as the ledger reports it.
    pub fn as_str(&self) -> (r: &'static str)
        ensures
            r@ == self.text(),
    {
        match self {
            Error::NotAProxy => "not a proxy",
            Error::CannotReapWhilePresenting => "cannot reap during presentation period",
            Error::ReporterNotVoter => "reporter must be a voter",
            Error::TargetNotActive => "target for inactivity cleanup must be active",
            Error::VoteIndexNotCurrent => "vote index not current",
            Error::CannotReapDuringGrace => "cannot reap during grace period",
            Error::BadReporterIndex => "bad reporter index",
            Error::BadTargetIndex => "bad target index",
            Error::BeneficiaryMissing => "beneficiary account must pre-exist",
            Error::CannotRetractWhilePresenting => "cannot retract when presenting",
            Error::CannotRetractNonVoter => "cannot retract non-voter",
            Error::RetractionIndexInvalid => "retraction index invalid",
            Error::RetractionIndexMismatch => "retraction index mismatch",
            Error::DuplicateCandidate => "duplicate candidate submission",
            Error::InvalidCandidateSlot => "invalid candidate slot",
            Error::CandidateFunds => "candidate has not enough funds",
            Error::ZeroStake => "stake deposited to present winner and be added to leaderboard should be non-zero",
            Error::IndexNotCurrent => "index not current",
            Error::NotPresenting => "cannot present outside of presentation period",
            Error::PresenterFunds => "presenter must have sufficient slashable funds",
            Error::NotWorthy => "candidate not worthy of leaderboard",
            Error::DuplicateMember => "candidate must not form a duplicated member if elected",
            Error::CandidateNotCurrent => "presented candidate must be current",
            Error::DuplicatePresentation => "duplicate presentation",
            Error::IncorrectTotal => "incorrect total",
            Error::ApprovalsWhilePresenting => "no approval changes during presentation period",
            Error::IncorrectVoteIndex => "incorrect vote index",
            Error::NoCandidates => "amount of candidates to receive approval votes should be non-zero",
            Error::TooManyVotes => "amount of candidate approval votes cannot exceed amount of candidates",
            Error::VoterFunds => "not enough free funds",
            Error::TallyNotStarted => "finalize can only be called after a tally is started.",
        }
    }
}

/// The services of the ledger that hosts the module. The module states
/// nothing about what an implementation does: it reads the answers and
/// decides what follows from each.
pub trait Trait {
    /// The free and the reserved balance of `who` together.
    fn total_balance(&self, who: AccountId) -> Balance;

    /// Whether `value` can be slashed from `who`.
    fn can_slash(&self, who: AccountId, value: Balance) -> bool;

    /// Moves `value` of `who` from free to reserved; `false` if `who`
    /// cannot afford it, in which case nothing has moved.
    fn reserve(&mut self, who: AccountId, value: Balance) -> bool;

    /// Moves up to `value` of `who` from reserved back to free.
    fn unreserve(&mut self, who: AccountId, value: Balance);

    /// Locks `amount` of the balance of `who` under `id`, without an end and
    /// against every kind of withdrawal.
    fn set_lock(&mut self, id: [u8; 8], who: AccountId, amount: Balance);

    /// Removes the lock that `id` holds on `who`.
    fn remove_lock(&mut self, id: [u8; 8], who: AccountId);

    /// Moves up to `value` from what `slashed` has reserved to the free
    /// balance of `beneficiary`; `false` if the beneficiary does not exist,
    /// in which case nothing has moved.
    fn repatriate_reserved(
        &mut self,
        slashed: AccountId,
        beneficiary: AccountId,
        value: Balance,
    ) -> bool;

    /// Slashes `value` from a presenter and hands what was taken to the
    /// sink for bad presentations.
    fn slash_bad_presentation(&mut self, who: AccountId, value: Balance);

    /// Slashes `value` from what a reporter has reserved and hands what
    /// was taken to the sink for bad reapers.
    fn slash_bad_reaper(&mut self, who: AccountId, value: Balance);

    /// The principal on whose behalf `delegate` may act, if there is one.
    fn proxy(&self, delegate: AccountId) -> Option<AccountId>;

    /// Records an event of the module.
    fn deposit_event(&mut self, event: Event);
}

/// Puts a question to the host and returns its answer.
pub(crate) fn ask<T: Trait>(host: &mut T, question: Question) -> (r: bool)
    ensures
        match question {
            Question::CanSlash(who, value) => *final(host) == *old(host) && call_ensures(
                T::can_slash,
                (&*old(host), who, value),
                r,
            ),
            _ => exists|call: &mut T|
                mut_ref_current(call) == *old(host) && mut_ref_future(call) == *final(host)
                    && #[trigger] put(call, question, r),
        },
{
    match question {
        Question::Reserve(who, value) => {
            let r = host.reserve(who, value);
            proof {
                let call = choose|call: &mut T|
                    mut_ref_current(call) == *old(host) && mut_ref_future(call) == *host
                        && #[trigger] call_ensures(T::reserve, (call, who, value), r);
                assert(put(call, question, r));
            }
            r
        },
        Question::Repatriate(slashed, beneficiary, value) => {
            let r = host.repatriate_reserved(slashed, beneficiary, value);
            proof {
                let call = choose|call: &mut T|
                    mut_ref_current(call) == *old(host) && mut_ref_future(call) == *host
                        && #[trigger] call_ensures(
                        T::repatriate_reserved,
                        (call, slashed, beneficiary, value),
                        r,
                    );
                assert(put(call, question, r));
            }
            r
        },
        Question::CanSlash(who, value) => host.can_slash(who, value),
    }
}

/// Has the host carry out one effect: the host is called once, with the
/// method that the effect stands for and the effect's own arguments.
pub(crate) fn perform<T: Trait>(host: &mut T, effect: Effect)
    ensures
        exists|call: &mut T|
            mut_ref_current(call) == *old(host) && mut_ref_future(call) == *final(host)
                && #[trigger] carried_out(call, effect),
{
    let ghost given = effect;
    match effect {
        Effect::Unreserve(who, value) => {
            host.unreserve(who, value);
            proof {
                let call = choose|call: &mut T|
                    mut_ref_current(call) == *old(host) && mut_ref_future(call) == *host
                        && #[trigger] call_ensures(T::unreserve, (call, who, value), ());
                assert(carried_out(call, given));
            }
        },
        Effect::SetLock(id, who, amount) => {
            host.set_lock(id, who, amount);
            proof {
                let call = choose|call: &mut T|
                    mut_ref_current(call) == *old(host) && mut_ref_future(call) == *host
                        && #[trigger] call_ensures(T::set_lock, (call, id, who, amount), ());
                assert(carried_out(call, given));
            }
        },
        Effect::RemoveLock(id, who) => {
            host.remove_lock(id, who);
            proof {
                let call = choose|call: &mut T|
                    mut_ref_current(call) == *old(host) && mut_ref_future(call) == *host
                        && #[trigger] call_ensures(T::remove_lock, (call, id, who), ());
                assert(carried_out(call, given));
            }
        },
        Effect::SlashBadPresentation(who, value) => {
            host.slash_bad_presentation(who, value);
            proof {
                let call = choose|call: &mut T|
                    mut_ref_current(call) == *old(host) && mut_ref_future(call) == *host
                        && #[trigger] call_ensures(T::slash_bad_presentation, (call, who, value), ());
                assert(carried_out(call, given));
            }
        },
        Effect::SlashBadReaper(who, value) => {
            host.slash_bad_reaper(who, value);
            proof {
                let call = choose|call: &mut T|
                    mut_ref_current(call) == *old(host) && mut_ref_future(call) == *host
                        && #[trigger] call_ensures(T::slash_bad_reaper, (call, who, value), ());
                assert(carried_out(call, given));
            }
        },
        Effect::Deposit(event) => {
            let ghost recorded = event;
            host.deposit_event(event);
            proof {
                let call = choose|call: &mut T|
                    mut_ref_current(call) == *old(host) && mut_ref_future(call) == *host
                        && #[trigger] call_ensures(T::deposit_event, (call, recorded), ());
                assert(carried_out(call, given));
            }
        },
    }
}

/// Has the host carry out the effects, first to last: the host is called
/// once for each, each call taking the host on from where the call before
/// has left it.
pub(crate) fn perform_all<T: Trait>(host: &mut T, effects: Vec<Effect>)
    ensures
        exists|calls: Seq<&mut T>|
            {
                &&& #[trigger] carried_out_all(calls, effects@)
                &&& calls.len() > 0 ==> mut_ref_current(calls[0]) == *old(host)
                &&& forall|i: int|
                    0 < i < calls.len() ==> mut_ref_current(#[trigger] calls[i])
                        == mut_ref_future(calls[i - 1])
                &&& calls.len() > 0 ==> *final(host) == mut_ref_future(calls.last())
                &&& calls.len() == 0 ==> *final(host) == *old(host)
            },
{
    let ghost all = effects@;
    proof {
        assert(carried_out_all(Seq::<&mut T>::empty(), all.take(0)));
    }
    for effect in run: effects
        invariant
            run.seq() == all,
            exists|calls: Seq<&mut T>|
                {
                    &&& #[trigger] carried_out_all(calls, all.take(run.index() as int))
                    &&& calls.len() > 0 ==> mut_ref_current(calls[0]) == *old(host)
                    &&& forall|i: int|
                        0 < i < calls.len() ==> mut_ref_current(#[trigger] calls[i])
                            == mut_ref_future(calls[i - 1])
                    &&& calls.len() > 0 ==> *host == mut_ref_future(calls.last())
                    &&& calls.len() == 0 ==> *host == *old(host)
                },
    {
        let ghost before = *host;
        let ghost done = run.index() as int;
        perform(host, effect);
        proof {
            let calls = choose|calls: Seq<&mut T>|
                {
                    &&& #[trigger] carried_out_all(calls, all.take(done))
                    &&& calls.len() > 0 ==> mut_ref_current(calls[0]) == *old(host)
                    &&& forall|i: int|
                        0 < i < calls.len() ==> mut_ref_current(#[trigger] calls[i])
                            == mut_ref_future(calls[i - 1])
                    &&& calls.len() > 0 ==> before == mut_ref_future(calls.last())
                    &&& calls.len() == 0 ==> before == *old(host)
                };
            let call = choose|call: &mut T|
                mut_ref_current(call) == before && mut_ref_future(call) == *host
                    && #[trigger] carried_out(call, effect);
            let more = calls.push(call);
            assert(all.take(done + 1) =~= all.take(done).push(effect));
            assert(carried_out_all(more, all.take(done + 1)));
        }
    }
    proof {
        assert(all.take(all.len() as int) =~= all);
    }
}

/// Whether `call` is a call of the method that `question` stands for, with
/// the question's own arguments, to which the host has answered `answer`.
/// A question that only looks at the host is no such call.
pub open spec fn put<T: Trait>(call: &mut T, question: Question, answer: bool) -> bool {
    match question {
        Question::Reserve(who, value) => call_ensures(T::reserve, (call, who, value), answer),
        Question::Repatriate(slashed, beneficiary, value) => call_ensures(
            T::repatriate_reserved,
            (call, slashed, beneficiary, value),
            answer,
        ),
        Question::CanSlash(_, _) => false,
    }
}

/// Whether `call` is a call of the method that `effect` stands for, with
/// the effect's own arguments.
pub open spec fn carried_out<T: Trait>(call: &mut T, effect: Effect) -> bool {
    match effect {
        Effect::Unreserve(who, value) => call_ensures(T::unreserve, (call, who, value), ()),
        Effect::SetLock(id, who, amount) => call_ensures(T::set_lock, (call, id, who, amount), ()),
        Effect::RemoveLock(id, who) => call_ensures(T::remove_lock, (call, id, who), ()),
        Effect::SlashBadPresentation(who, value) => call_ensures(
            T::slash_bad_presentation,
            (call, who, value),
            (),
        ),
        Effect::SlashBadReaper(who, value) => call_ensures(
            T::slash_bad_reaper,
            (call, who, value),
            (),
        ),
        Effect::Deposit(event) => call_ensures(T::deposit_event, (call, event), ()),
    }
}

/// Whether `calls` are the calls that `effects` stand for, one for each
/// effect and in their order.
pub open spec fn carried_out_all<T: Trait>(calls: Seq<&mut T>, effects: Seq<Effect>) -> bool {
    &&& calls.len() == effects.len()
    &&& forall|i: int| 0 <= i < calls.len() ==> carried_out(#[trigger] calls[i], effects[i])
}

} // verus!

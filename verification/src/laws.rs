//! What holds of the module in every valid state, and across operations.
//! Each statement here is proved from the definitions of the operations
//! and from the invariant alone.

use vstd::prelude::*;
use crate::finalize::lemma_ranked_candidates;
use crate::finalize::lemma_seated;
use crate::leaderboard::lemma_board_with;
use crate::leaderboard::on_board;
use crate::model::lemma_rank_of;
use crate::model::lemma_rank_of_listed;
use crate::model::live_count;
use crate::model::rank_of;
use crate::model::State;
use crate::model::VoterActivity;
use crate::voters::lemma_without_voter_wf;
use crate::AccountId;
use crate::Balance;
use crate::BlockNumber;
use crate::VoteIndex;
use crate::Weight;

verus! {

/// Index integrity: the voter listed at a position is found at that
/// position and at no other, and has an activity record and a stored vote.
pub proof fn lemma_index_integrity(s: State, position: int)
    requires
        s.wf(),
        0 <= position < s.voters.len(),
    ensures
        rank_of(s.voters, s.voters[position].0) == position,
        s.is_voter(s.voters[position].0),
        s.approvals.contains_key(s.voters[position].0),
        forall|other: int|
            0 <= other < s.voters.len() && other != position ==> (#[trigger] s.voters[other]).0
                != s.voters[position].0,
{
    lemma_rank_of_listed(s.voters, position);
}

/// Every voter is listed: an account with an activity record stands in
/// the book, at the position that is its rank.
pub proof fn lemma_voters_are_listed(s: State, who: AccountId)
    requires
        s.wf(),
        s.is_voter(who),
    ensures
        0 <= rank_of(s.voters, who) < s.voters.len(),
        s.voters[rank_of(s.voters, who)].0 == who,
{
    lemma_rank_of(s.voters, who);
}

/// Candidate density: the stored count is the number of occupied slots,
/// no candidate holds two slots, and the occupied slots are those of the
/// registered candidates.
pub proof fn lemma_candidate_density(s: State)
    requires
        s.wf(),
    ensures
        s.candidate_count == live_count(s.candidates),
        forall|i: int, j: int|
            0 <= i < j < s.candidates.len() && (#[trigger] s.candidates[i]) is Some && (
            #[trigger] s.candidates[j]) is Some ==> s.candidates[i] != s.candidates[j],
        forall|who: AccountId|
            s.is_candidate(who) <==> exists|i: int|
                0 <= i < s.candidates.len() && #[trigger] s.candidates[i] == Some(who),
{
}

/// The accounts listed in the book before position `upto`.
pub open spec fn listed_before(s: State, upto: int) -> Set<AccountId> {
    Set::new(|a: AccountId| rank_of(s.voters, a) < upto)
}

/// The accounts listed before a position are as many as the positions.
proof fn lemma_listed_before(s: State, upto: int)
    requires
        s.wf(),
        0 <= upto <= s.voters.len(),
    ensures
        listed_before(s, upto).finite(),
        listed_before(s, upto).len() == upto,
    decreases upto,
{
    assert forall|a: AccountId| rank_of(s.voters, a) >= 0 by {
        lemma_rank_of(s.voters, a);
    }
    if upto == 0 {
        assert(listed_before(s, 0) =~= Set::empty());
    } else {
        lemma_listed_before(s, upto - 1);
        let who = s.voters[upto - 1].0;
        lemma_rank_of_listed(s.voters, upto - 1);
        assert forall|a: AccountId| rank_of(s.voters, a) == upto - 1 implies a == who by {
            lemma_rank_of(s.voters, a);
        }
        assert(listed_before(s, upto) =~= listed_before(s, upto - 1).insert(who));
    }
}

/// The book lists every voter once: there are as many activity records,
/// and as many stored votes, as the book has entries.
pub proof fn lemma_book_counts_voters(s: State)
    requires
        s.wf(),
    ensures
        s.activity.dom().finite(),
        s.activity.dom().len() == s.voters.len(),
        s.approvals.dom() == s.activity.dom(),
{
    lemma_listed_before(s, s.voters.len() as int);
    assert forall|a: AccountId| rank_of(s.voters, a) < s.voters.len() implies s.activity.contains_key(
        a,
    ) by {
        lemma_rank_of(s.voters, a);
    }
    assert(listed_before(s, s.voters.len() as int) =~= s.activity.dom());
}

/// The candidates whose slot lies before `upto`.
pub open spec fn registered_before(s: State, upto: int) -> Set<AccountId> {
    Set::new(|a: AccountId| s.register.contains_key(a) && s.register[a].1 < upto)
}

/// The candidates registered at the first `upto` slots are as many as
/// those slots hold.
proof fn lemma_registered_before(s: State, upto: int)
    requires
        s.wf(),
        0 <= upto <= s.candidates.len(),
    ensures
        registered_before(s, upto).finite(),
        registered_before(s, upto).len() == live_count(s.candidates.take(upto)),
    decreases upto,
{
    if upto == 0 {
        assert(registered_before(s, 0) =~= Set::empty());
    } else {
        lemma_registered_before(s, upto - 1);
        let before = registered_before(s, upto - 1);
        assert(s.candidates.take(upto).drop_last() =~= s.candidates.take(upto - 1));
        match s.candidates[upto - 1] {
            Some(who) => {
                assert(registered_before(s, upto) =~= before.insert(who));
            },
            None => {
                assert(registered_before(s, upto) =~= before);
            },
        }
    }
}

/// The register holds as many candidates as the count says.
pub proof fn lemma_candidate_count_is_number_of_candidates(s: State)
    requires
        s.wf(),
    ensures
        s.register.dom().finite(),
        s.register.dom().len() == s.candidate_count,
{
    lemma_registered_before(s, s.candidates.len() as int);
    assert(s.candidates.take(s.candidates.len() as int) =~= s.candidates);
    assert(registered_before(s, s.candidates.len() as int) =~= s.register.dom());
}

/// The approval-validity law: a voter who was last active before a
/// candidate registered adds nothing to that candidate, whatever bits the
/// stored vote has.
pub proof fn lemma_stale_approval_weighs_nothing(s: State, position: int, candidate: AccountId)
    requires
        s.wf(),
        0 <= position < s.voters.len(),
        s.is_candidate(candidate),
        s.activity[s.voters[position].0].last_active < s.register[candidate].0,
    ensures
        s.voter_weight(position, s.register[candidate].0, s.register[candidate].1) == 0,
{
}

/// A slot that is taken anew starts clean: a vote stored in an earlier
/// election adds nothing to the candidate that now registers, even where
/// its bit for the slot is set.
pub proof fn lemma_reused_slot_starts_clean(s: State, who: AccountId, slot: u32, position: int)
    requires
        s.wf(),
        s.candidacy_error(who, slot) is None,
        0 <= position < s.voters.len(),
        s.activity[s.voters[position].0].last_active < s.vote_index,
    ensures
        ({
            let t = s.with_candidate(who, slot);
            t.voter_weight(position, t.register[who].0, t.register[who].1) == 0
        }),
{
}

/// A stale voter counts for nobody: one whose approvals have all lapsed
/// adds nothing to any registered candidate.
pub proof fn lemma_stale_voter_counts_for_nobody(s: State, position: int, candidate: AccountId)
    requires
        s.wf(),
        0 <= position < s.voters.len(),
        s.is_stale(s.voters[position].0),
        s.is_candidate(candidate),
    ensures
        s.voter_weight(position, s.register[candidate].0, s.register[candidate].1) == 0,
{
    let voter = s.voters[position].0;
    let slot = s.register[candidate].1 as int;
    assert(!s.backs_candidate_at(voter, slot));
}

/// Retracting leaves nothing behind: a voter who retracts and votes again
/// is treated as one who never voted. The bond is due again, the voter is
/// appended to the book, the activity record starts at the current
/// election, and no pot is carried over.
pub proof fn lemma_retract_then_vote(
    s: State,
    who: AccountId,
    index: u32,
    votes: Seq<bool>,
    stake: Balance,
)
    requires
        s.wf(),
        s.retraction_error(who, index) is None,
    ensures
        ({
            let gone = s.without_voter(who, index as int);
            let back = gone.with_approvals(who, votes, stake);
            &&& gone.wf()
            &&& !gone.is_voter(who)
            &&& !gone.approvals.contains_key(who)
            &&& !gone.pots.contains_key(who)
            &&& gone.approval_result(who, votes, gone.vote_index, false) is Err
            &&& gone.approval_error(votes, gone.vote_index) is None ==> gone.approval_result(
                who,
                votes,
                gone.vote_index,
                true,
            ) is Ok
            &&& back.voters == gone.voters.push((who, stake))
            &&& back.activity == gone.activity.insert(
                who,
                VoterActivity { last_active: s.vote_index, last_win: s.vote_index },
            )
            &&& back.approvals == gone.approvals.insert(who, votes)
            &&& back.pots == gone.pots
            &&& back.pot_of(who) == 0
        }),
{
    lemma_without_voter_wf(s, who, index as int);
}

/// Presentation conserves the board: a presentation that is accepted puts
/// the claim on the board, drops the lightest place and nothing else, and
/// leaves the length of the board, the seats and the leavers as they were.
pub proof fn lemma_presentation_conserves_board(
    s: State,
    candidate: AccountId,
    total: Weight,
    index: VoteIndex,
    slashable: bool,
)
    requires
        s.wf(),
        s.presentation_result(candidate, total, index, slashable) is Ok,
    ensures
        ({
            let before = s.tally->0;
            let after = s.with_presentation(candidate, total).tally->0;
            &&& after.leaderboard.len() == before.leaderboard.len()
            &&& after.leaderboard.len() == before.empty_seats + s.params.carry_count
            &&& on_board(after.leaderboard, candidate)
            &&& !on_board(before.leaderboard, candidate)
            &&& after.leaderboard.contains(Some((total, candidate)))
            &&& forall|i: int|
                1 <= i < before.leaderboard.len() ==> after.leaderboard.contains(
                    #[trigger] before.leaderboard[i],
                )
            &&& after.empty_seats == before.empty_seats
            &&& after.expiring == before.expiring
            &&& after.finalize_at == before.finalize_at
        }),
{
    let board = s.tally->0.leaderboard;
    lemma_board_with(board, candidate, total);
    crate::leaderboard::lemma_lighter_prefix(board.skip(1), total);
}

/// Committee size: where the members who stay and the seats to fill make
/// up the desired size, as they do when the tally starts, the council
/// after the tally has at most the desired size, and has exactly that
/// size if and only if at least as many candidates were presented as
/// there were seats to fill.
pub proof fn lemma_committee_size(s: State, now: BlockNumber)
    requires
        s.wf(),
        s.tally is Some,
        s.tally->0.expiring.len() <= s.council.len(),
        s.council.len() - s.tally->0.expiring.len() + s.tally->0.empty_seats
            == s.params.desired_seats,
    ensures
        s.finalized(now).council.len() <= s.params.desired_seats,
        s.finalized(now).council.len() == s.params.desired_seats <==> s.ranked().len()
            >= s.tally->0.empty_seats,
        s.finalized(now).council.len() == s.council.len() - s.outgoing().len()
            + s.incoming().len(),
{
    lemma_seated(
        s.council,
        s.seats_left(),
        s.incoming(),
        (now + s.params.term_duration) as BlockNumber,
    );
}

/// A tally that starts sets out to fill the council exactly: the members
/// who stay and the seats to fill make up the desired size.
pub proof fn lemma_tally_fills_council(s: State, now: BlockNumber)
    requires
        s.wf(),
        s.seats_to_fill(now) > 0,
    ensures
        ({
            let t = s.with_tally_started(now);
            &&& t.tally is Some
            &&& t.tally->0.expiring.len() <= t.council.len()
            &&& t.council.len() - t.tally->0.expiring.len() + t.tally->0.empty_seats
                == t.params.desired_seats
        }),
{
    crate::schedule::lemma_with_tally_started_wf(s, now);
}

/// The winners of a tally are no longer candidates, and the runners-up
/// still are, at the slots they held.
pub proof fn lemma_winners_leave_registry(s: State, now: BlockNumber, who: AccountId)
    requires
        s.wf(),
        s.tally is Some,
    ensures
        s.incoming().contains(who) ==> !s.finalized(now).is_candidate(who),
        s.runners_up().contains(who) ==> s.finalized(now).is_candidate(who) && s.finalized(
            now,
        ).register[who] == s.register[who],
        s.finalized(now).is_candidate(who) ==> s.runners_up().contains(who),
{
    lemma_ranked_candidates(s);
}

/// A vote fits the registry it was cast on: a vote that is accepted has
/// at most as many positions as there are slots at that moment.
pub proof fn lemma_vote_fits_registry(
    s: State,
    who: AccountId,
    votes: Seq<bool>,
    index: VoteIndex,
    stake: Balance,
    bonded: bool,
)
    requires
        s.wf(),
        s.approval_result(who, votes, index, bonded) is Ok,
    ensures
        s.with_approvals(who, votes, stake).approvals[who].len() <= s.with_approvals(
            who,
            votes,
            stake,
        ).candidates.len(),
        s.with_approvals(who, votes, stake).activity[who] == (VoterActivity {
            last_active: index,
            last_win: index,
        }),
{
}

/// A vote just cast carries no offset of its own: what the voter had
/// earned is in the pot, and the count starts again.
pub proof fn lemma_fresh_vote_has_no_offset(
    s: State,
    who: AccountId,
    votes: Seq<bool>,
    stake: Balance,
)
    requires
        s.wf(),
    ensures
        ({
            let t = s.with_approvals(who, votes, stake);
            let position = rank_of(t.voters, who);
            &&& 0 <= position < t.voters.len()
            &&& t.voters[position] == (who, stake)
            &&& t.earned_offset(who) == 0
            &&& s.is_voter(who) ==> t.pot_of(who) == s.pot_of(who) + s.earned_offset(who)
            &&& !s.is_voter(who) ==> t.pot_of(who) == 0
        }),
{
    let t = s.with_approvals(who, votes, stake);
    lemma_rank_of(s.voters, who);
    if s.is_voter(who) {
        crate::voters::lemma_rank_is(t.voters, who, rank_of(s.voters, who));
    } else {
        crate::voters::lemma_rank_is(t.voters, who, s.voters.len() as int);
    }
}

/// Winning clears the offset: a voter whose stored vote approves the slot
/// of a new member has, after the tally, won in the election just held,
/// and earns no offset until another election has passed. Every other
/// voter keeps its record.
pub proof fn lemma_winning_resets_offset(s: State, now: BlockNumber, voter: AccountId)
    requires
        s.wf(),
        s.tally is Some,
        s.vote_index < u32::MAX,
        s.is_voter(voter),
    ensures
        ({
            let t = s.finalized(now);
            &&& t.is_voter(voter)
            &&& t.activity[voter].last_active == s.activity[voter].last_active
            &&& s.backs_winner(voter, s.incoming()) ==> t.activity[voter].last_win
                == t.vote_index && t.earned_offset(voter) == 0
            &&& !s.backs_winner(voter, s.incoming()) ==> t.activity[voter] == s.activity[voter]
            &&& t.pots == s.pots
            &&& t.voters == s.voters
            &&& t.approvals == s.approvals
        }),
{
}

/// A report removes exactly one voter, and keeps the invariant: the target
/// if it is stale, the reporter if it is not.
pub proof fn lemma_reaped_wf(
    s: State,
    reporter: AccountId,
    reporter_index: u32,
    who: AccountId,
    who_index: u32,
    assumed_vote_index: VoteIndex,
)
    requires
        s.wf(),
        s.reap_error(reporter, reporter_index, who, who_index, assumed_vote_index) is None,
    ensures
        ({
            let t = s.reaped(reporter, reporter_index, who, who_index);
            &&& t.wf()
            &&& t.voters.len() == s.voters.len() - 1
            &&& s.is_stale(who) ==> !t.is_voter(who) && (reporter != who ==> t.is_voter(reporter))
            &&& !s.is_stale(who) ==> !t.is_voter(reporter) && (reporter != who ==> t.is_voter(
                who,
            ))
        }),
{
    if s.is_stale(who) {
        lemma_without_voter_wf(s, who, who_index as int);
    } else {
        lemma_without_voter_wf(s, reporter, reporter_index as int);
    }
}

/// The end of a block keeps the invariant.
pub proof fn lemma_after_block_wf(s: State, n: BlockNumber)
    requires
        s.wf(),
        s.after_tally_check(n).finalize_due(n) ==> s.vote_index < u32::MAX && n
            + s.params.term_duration <= u64::MAX,
    ensures
        s.after_tally_check(n).wf(),
        s.after_block(n).wf(),
{
    crate::schedule::lemma_with_tally_started_wf(s, n);
    let mid = s.after_tally_check(n);
    if mid.finalize_due(n) {
        crate::finalize::lemma_finalized_wf(mid, n);
    }
}

/// The privileged changes keep the invariant: other bonds, durations or
/// seat numbers, as long as the voting period stays above zero and the
/// carry count is left alone while a tally runs; and a member removed.
pub proof fn lemma_privileged_changes_wf(s: State, params: crate::model::Params, who: AccountId)
    requires
        s.wf(),
        params.voting_period > 0,
        s.tally is Some ==> params.carry_count == s.params.carry_count,
    ensures
        s.with_params(params).wf(),
        s.with_member_removed(who).wf(),
{
    crate::election::lemma_without_member(s.council, who);
}

} // verus!

//! The mathematical model of the module: its state as sequences and maps,
//! and the invariant that every operation keeps.

use vstd::prelude::*;
use crate::AccountId;
use crate::Balance;
use crate::BlockNumber;
use crate::VoteIndex;
use crate::Weight;

verus! {

/// The configured constants. They are read on every operation and change
/// only through the privileged setters.
#[derive(Clone, Copy, Debug, PartialEq, Eq)]
pub struct Params {
    /// Reserved from an account that submits its candidacy.
    pub candidacy_bond: Balance,
    /// Reserved from an account when it first sets approvals.
    pub voting_bond: Balance,
    /// The slash, per voter, for a wrong presentation.
    pub present_slash_per_voter: Balance,
    /// How many runners-up stay registered for the next election.
    pub carry_count: u32,
    /// How many blocks the presentation phase lasts.
    pub presentation_duration: BlockNumber,
    /// How many elections must pass before an idle voter can be reaped.
    pub inactivity_grace_period: VoteIndex,
    /// Tallies start only on multiples of this many blocks.
    pub voting_period: BlockNumber,
    /// How many blocks a seat is held.
    pub term_duration: BlockNumber,
    /// The size the council should have.
    pub desired_seats: u32,
    /// The decay ratio of the weight offset; zero disables the offset.
    pub decay_ratio: u32,
}

/// The activity record of a voter. `last_win` is one more than the index of
/// the election in which an approved candidate last won; zero means never.
#[derive(Clone, Copy, Debug, PartialEq, Eq)]
pub struct VoterActivity {
    /// The election in which the voter last set approvals.
    pub last_active: VoteIndex,
    /// The election from which the weight offset is counted.
    pub last_win: VoteIndex,
}

/// One place on the leaderboard: empty, or a claimed weight and its candidate.
pub type Place = Option<(Weight, AccountId)>;

/// The weight by which a place is ordered; an empty place weighs nothing.
pub open spec fn weight_of(place: Place) -> Weight {
    match place {
        Some((weight, _)) => weight,
        None => 0,
    }
}

/// The candidate of an occupied place.
pub open spec fn claimant(place: Place) -> AccountId
    recommends
        place is Some,
{
    match place {
        Some((_, who)) => who,
        None => 0,
    }
}

/// The state that exists only between the start of a tally and its end.
pub struct TallyState {
    pub finalize_at: BlockNumber,
    pub empty_seats: u32,
    pub expiring: Seq<AccountId>,
    pub leaderboard: Seq<Place>,
}

/// The whole state of the module.
pub struct State {
    pub params: Params,
    pub council: Seq<(AccountId, BlockNumber)>,
    pub vote_index: VoteIndex,
    pub approvals: Map<AccountId, Seq<bool>>,
    pub register: Map<AccountId, (VoteIndex, u32)>,
    pub activity: Map<AccountId, VoterActivity>,
    pub pots: Map<AccountId, nat>,
    pub voters: Seq<(AccountId, Balance)>,
    pub candidates: Seq<Option<AccountId>>,
    pub candidate_count: nat,
    pub tally: Option<TallyState>,
}

/// The most a pot can grow in one election: no offset reaches this.
pub open spec fn pot_step() -> nat {
    0x1_0000_0000_0000_0000_0000_0000
}

/// The number of slots that hold a candidate.
pub open spec fn live_count(slots: Seq<Option<AccountId>>) -> nat
    decreases slots.len(),
{
    if slots.len() == 0 {
        0
    } else {
        live_count(slots.drop_last()) + if slots.last() is Some {
            1nat
        } else {
            0nat
        }
    }
}

/// The first position at which `who` stands in `voters`, or the length of
/// `voters` if there is none.
pub open spec fn rank_of(voters: Seq<(AccountId, Balance)>, who: AccountId) -> int
    decreases voters.len(),
{
    if voters.len() == 0 {
        0
    } else if voters[0].0 == who {
        0
    } else {
        1 + rank_of(voters.skip(1), who)
    }
}

/// The first position at which `who` sits on the council, or the length of
/// the council if there is none.
pub open spec fn seat_of(council: Seq<(AccountId, BlockNumber)>, who: AccountId) -> int
    decreases council.len(),
{
    if council.len() == 0 {
        0
    } else if council[0].0 == who {
        0
    } else {
        1 + seat_of(council.skip(1), who)
    }
}

/// No account is listed twice.
pub open spec fn voters_distinct(voters: Seq<(AccountId, Balance)>) -> bool {
    forall|i: int, j: int| 0 <= i < j < voters.len() ==> voters[i].0 != voters[j].0
}

/// Seats are ordered by the block at which they expire.
pub open spec fn council_sorted(council: Seq<(AccountId, BlockNumber)>) -> bool {
    forall|i: int, j: int| 0 <= i < j < council.len() ==> council[i].1 <= council[j].1
}

/// Places are ordered by weight, lightest first.
pub open spec fn leaderboard_sorted(board: Seq<Place>) -> bool {
    forall|i: int, j: int|
        0 <= i < j < board.len() ==> weight_of(board[i]) <= weight_of(board[j])
}

impl State {
    /// Whether `who` holds a slot of the candidate registry.
    pub open spec fn is_candidate(self, who: AccountId) -> bool {
        self.register.contains_key(who)
    }

    /// Whether `who` is in the voter book.
    pub open spec fn is_voter(self, who: AccountId) -> bool {
        self.activity.contains_key(who)
    }

    /// Whether a tally has started and not yet been finalized.
    pub open spec fn presentation_active(self) -> bool {
        self.tally is Some
    }

    /// Whether the stored vote of `who` has its bit set at `slot`. Positions
    /// beyond the stored vote count as not approved.
    pub open spec fn approves(self, who: AccountId, slot: int) -> bool {
        &&& self.approvals.contains_key(who)
        &&& 0 <= slot < self.approvals[who].len()
        &&& self.approvals[who][slot]
    }

    /// The pot of `who`, zero where none is stored.
    pub open spec fn pot_of(self, who: AccountId) -> nat {
        if self.pots.contains_key(who) {
            self.pots[who]
        } else {
            0
        }
    }

    /// The voter book is an index: every listed account is listed once and
    /// has an activity record, a stored vote and a bounded pot; nothing is
    /// kept for an account that is not listed.
    pub open spec fn voters_wf(self) -> bool {
        &&& voters_distinct(self.voters)
        &&& forall|i: int|
            0 <= i < self.voters.len() ==> self.activity.contains_key(#[trigger] self.voters[i].0)
        &&& forall|a: AccountId| #[trigger]
            self.activity.contains_key(a) ==> rank_of(self.voters, a) < self.voters.len()
        &&& forall|a: AccountId| #[trigger]
            self.approvals.contains_key(a) <==> self.activity.contains_key(a)
        &&& forall|a: AccountId| #[trigger]
            self.pots.contains_key(a) ==> self.activity.contains_key(a)
        &&& forall|a: AccountId| #[trigger]
            self.activity.contains_key(a) ==> self.activity[a].last_active
                <= self.activity[a].last_win <= self.vote_index
        &&& forall|a: AccountId| #[trigger]
            self.pots.contains_key(a) ==> self.pots[a] <= self.activity[a].last_win * pot_step()
    }

    /// The candidate registry is dense in the sense that the register and
    /// the slots describe each other, and the count is the number of
    /// occupied slots.
    pub open spec fn candidates_wf(self) -> bool {
        &&& self.candidates.len() <= u32::MAX + 1
        &&& forall|i: int|
            0 <= i < self.candidates.len() && (#[trigger] self.candidates[i]) is Some ==> {
                &&& self.register.contains_key(self.candidates[i]->0)
                &&& self.register[self.candidates[i]->0].1 == i
            }
        &&& forall|a: AccountId| #[trigger]
            self.register.contains_key(a) ==> {
                &&& self.register[a].1 < self.candidates.len()
                &&& self.candidates[self.register[a].1 as int] == Some(a)
            }
        &&& self.candidate_count == live_count(self.candidates)
    }

    /// While a tally runs the leaderboard keeps its length, is sorted, and
    /// holds each claimed candidate once, with a weight above zero.
    pub open spec fn tally_wf(self) -> bool {
        match self.tally {
            None => true,
            Some(tally) => {
                &&& tally.empty_seats >= 1
                &&& tally.leaderboard.len() == tally.empty_seats + self.params.carry_count
                &&& leaderboard_sorted(tally.leaderboard)
                &&& forall|i: int|
                    0 <= i < tally.leaderboard.len() && (#[trigger] tally.leaderboard[i])
                        is Some ==> {
                        &&& weight_of(tally.leaderboard[i]) > 0
                        &&& self.register.contains_key(claimant(tally.leaderboard[i]))
                    }
                &&& forall|i: int, j: int|
                    0 <= i < j < tally.leaderboard.len() && (#[trigger] tally.leaderboard[i])
                        is Some && (#[trigger] tally.leaderboard[j]) is Some
                        ==> claimant(tally.leaderboard[i]) != claimant(tally.leaderboard[j])
            },
        }
    }

    /// The invariant of the module.
    pub open spec fn wf(self) -> bool {
        &&& self.params.voting_period > 0
        &&& council_sorted(self.council)
        &&& self.voters_wf()
        &&& self.candidates_wf()
        &&& self.tally_wf()
    }
}

/// The position that `rank_of` gives holds the account, and no earlier one
/// does.
pub proof fn lemma_rank_of(voters: Seq<(AccountId, Balance)>, who: AccountId)
    ensures
        0 <= rank_of(voters, who) <= voters.len(),
        rank_of(voters, who) < voters.len() ==> voters[rank_of(voters, who)].0 == who,
        forall|i: int| 0 <= i < rank_of(voters, who) ==> (#[trigger] voters[i]).0 != who,
    decreases voters.len(),
{
    if voters.len() > 0 && voters[0].0 != who {
        let rest = voters.skip(1);
        lemma_rank_of(rest, who);
        assert forall|i: int| 0 <= i < rank_of(voters, who) implies (#[trigger] voters[i]).0
            != who by {
            if i > 0 {
                assert(voters[i] == rest[i - 1]);
            }
        }
    }
}

/// In a book without duplicates an account's rank is the position at which
/// it is listed.
pub proof fn lemma_rank_of_listed(voters: Seq<(AccountId, Balance)>, i: int)
    requires
        voters_distinct(voters),
        0 <= i < voters.len(),
    ensures
        rank_of(voters, voters[i].0) == i,
{
    lemma_rank_of(voters, voters[i].0);
}

/// The position that `seat_of` gives holds the account, and no earlier one
/// does.
pub proof fn lemma_seat_of(council: Seq<(AccountId, BlockNumber)>, who: AccountId)
    ensures
        0 <= seat_of(council, who) <= council.len(),
        seat_of(council, who) < council.len() ==> council[seat_of(council, who)].0 == who,
        forall|i: int| 0 <= i < seat_of(council, who) ==> (#[trigger] council[i]).0 != who,
    decreases council.len(),
{
    if council.len() > 0 && council[0].0 != who {
        let rest = council.skip(1);
        lemma_seat_of(rest, who);
        assert forall|i: int| 0 <= i < seat_of(council, who) implies (#[trigger] council[i]).0
            != who by {
            if i > 0 {
                assert(council[i] == rest[i - 1]);
            }
        }
    }
}

/// The count of occupied slots never exceeds the number of slots.
pub proof fn lemma_live_count_bounded(slots: Seq<Option<AccountId>>)
    ensures
        live_count(slots) <= slots.len(),
    decreases slots.len(),
{
    if slots.len() > 0 {
        lemma_live_count_bounded(slots.drop_last());
    }
}

/// Appending a slot adds one to the count exactly when the slot is occupied.
pub proof fn lemma_live_count_push(slots: Seq<Option<AccountId>>, slot: Option<AccountId>)
    ensures
        live_count(slots.push(slot)) == live_count(slots) + if slot is Some {
            1nat
        } else {
            0nat
        },
{
    assert(slots.push(slot).drop_last() =~= slots);
}

/// Writing a slot changes the count by the difference between what the slot
/// held and what it holds now.
pub proof fn lemma_live_count_update(
    slots: Seq<Option<AccountId>>,
    i: int,
    slot: Option<AccountId>,
)
    requires
        0 <= i < slots.len(),
    ensures
        live_count(slots.update(i, slot)) + (if slots[i] is Some {
            1nat
        } else {
            0nat
        }) == live_count(slots) + if slot is Some {
            1nat
        } else {
            0nat
        },
    decreases slots.len(),
{
    if i == slots.len() - 1 {
        assert(slots.update(i, slot).drop_last() =~= slots.drop_last());
    } else {
        lemma_live_count_update(slots.drop_last(), i, slot);
        assert(slots.update(i, slot).drop_last() =~= slots.drop_last().update(i, slot));
    }
}

/// A registry without any occupied slot counts zero.
pub proof fn lemma_live_count_of_holes(slots: Seq<Option<AccountId>>)
    requires
        forall|i: int| 0 <= i < slots.len() ==> slots[i] is None,
    ensures
        live_count(slots) == 0,
    decreases slots.len(),
{
    if slots.len() > 0 {
        lemma_live_count_of_holes(slots.drop_last());
    }
}

} // verus!

//! The module itself: its stored state, how that state is read as a
//! [`State`], and the plain reads.

use std::collections::HashMap;
use vstd::prelude::*;
use crate::decay;
use crate::model::council_sorted;
use crate::model::live_count;
use crate::model::Params;
use crate::model::Place;
use crate::model::State;
use crate::model::TallyState;
use crate::AccountId;
use crate::Balance;
use crate::BlockNumber;
use crate::Weight;
pub use crate::host::Trait;
pub use crate::model::VoterActivity;
pub use crate::VoteIndex;

verus! {

broadcast use vstd::std_specs::hash::group_hash_axioms;

/// What is stored while a tally runs.
pub struct Tally {
    pub(crate) finalize_at: BlockNumber,
    pub(crate) empty_seats: u32,
    pub(crate) expiring: Vec<AccountId>,
    pub(crate) leaderboard: Vec<Place>,
}

impl Tally {
    /// The tally as a mathematical value.
    pub open(crate) spec fn view(&self) -> TallyState {
        TallyState {
            finalize_at: self.finalize_at,
            empty_seats: self.empty_seats,
            expiring: self.expiring@,
            leaderboard: self.leaderboard@,
        }
    }
}

/// The council-seats module: parameters, council, candidate registry, voter
/// book and, while a tally runs, the leaderboard.
pub struct Module {
    pub(crate) params: Params,
    pub(crate) active_council: Vec<(AccountId, BlockNumber)>,
    pub(crate) vote_index: VoteIndex,
    pub(crate) approvals: HashMap<AccountId, Vec<bool>>,
    pub(crate) register: HashMap<AccountId, (VoteIndex, u32)>,
    pub(crate) activity: HashMap<AccountId, VoterActivity>,
    pub(crate) pots: HashMap<AccountId, Weight>,
    pub(crate) voters: Vec<(AccountId, Balance)>,
    pub(crate) candidates: Vec<Option<AccountId>>,
    pub(crate) candidate_count: u64,
    pub(crate) tally: Option<Tally>,
}

/// The account that a hole of the registry, or an empty place of the
/// board, is read as where accounts are listed without gaps.
pub const NOBODY: AccountId = 0;

/// A slot read as a plain account.
pub open spec fn packed_slot(slot: Option<AccountId>) -> AccountId {
    match slot {
        Some(who) => who,
        None => NOBODY,
    }
}

/// A place read as a plain pair of weight and account.
pub open spec fn packed_place(place: Place) -> (Weight, AccountId) {
    match place {
        Some(claim) => claim,
        None => (0, NOBODY),
    }
}

/// No account holds two slots.
pub open spec fn slots_distinct(slots: Seq<Option<AccountId>>) -> bool {
    forall|i: int, j: int|
        0 <= i < j < slots.len() && (#[trigger] slots[i]) is Some && (#[trigger] slots[j])
            is Some ==> slots[i] != slots[j]
}

/// Copies a vector of plain values.
pub(crate) fn copy_of<T: Copy>(items: &Vec<T>) -> (r: Vec<T>)
    ensures
        r@ == items@,
{
    let mut r: Vec<T> = Vec::new();
    let mut i: usize = 0;
    while i < items.len()
        invariant
            i <= items.len(),
            r@ == items@.take(i as int),
        decreases items.len() - i,
    {
        r.push(items[i]);
        i = i + 1;
    }
    r
}

impl Module {
    /// The module as a mathematical value.
    pub open(crate) spec fn view(&self) -> State {
        State {
            params: self.params,
            council: self.active_council@,
            vote_index: self.vote_index,
            approvals: Map::new(
                |a: AccountId| self.approvals@.contains_key(a),
                |a: AccountId| self.approvals@[a]@,
            ),
            register: self.register@,
            activity: self.activity@,
            pots: Map::new(
                |a: AccountId| self.pots@.contains_key(a),
                |a: AccountId| self.pots@[a] as nat,
            ),
            voters: self.voters@,
            candidates: self.candidates@,
            candidate_count: self.candidate_count as nat,
            tally: match self.tally {
                Some(tally) => Some(tally@),
                None => None,
            },
        }
    }

    /// The invariant of the module, which every operation keeps.
    pub open spec fn wf(&self) -> bool {
        self@.wf()
    }

    /// A module with the given parameters and nothing else: no council, no
    /// candidates, no voters, no election held. There is none for a voting
    /// period of zero.
    pub fn new(params: Params) -> (r: Option<Module>)
        ensures
            r is Some == (params.voting_period > 0),
            r is Some ==> {
                let m = r->0;
                &&& m.wf()
                &&& m@.params == params
                &&& m@.council.len() == 0
                &&& m@.vote_index == 0
                &&& m@.voters.len() == 0
                &&& m@.candidates.len() == 0
                &&& m@.candidate_count == 0
                &&& m@.tally is None
                &&& forall|a: AccountId| !m@.is_voter(a) && !m@.is_candidate(a)
            },
    {
        Module::genesis(params, Vec::new(), Vec::new())
    }

    /// A module as it stands before the first block: with the given
    /// parameters, a council to begin with, and candidates that hold the
    /// given slots since election zero. There is none for a voting period
    /// of zero, a council that is not in the order of its expiries, an
    /// account in two slots, or more slots than a slot number can tell
    /// apart.
    pub fn genesis(
        params: Params,
        council: Vec<(AccountId, BlockNumber)>,
        slots: Vec<Option<AccountId>>,
    ) -> (r: Option<Module>)
        ensures
            r is Some == (params.voting_period > 0 && council_sorted(council@) && slots_distinct(
                slots@,
            ) && slots@.len() <= u32::MAX + 1),
            r is Some ==> {
                let m = r->0;
                &&& m.wf()
                &&& m@.params == params
                &&& m@.council == council@
                &&& m@.vote_index == 0
                &&& m@.voters.len() == 0
                &&& m@.candidates == slots@
                &&& m@.candidate_count == live_count(slots@)
                &&& m@.tally is None
                &&& forall|a: AccountId| !m@.is_voter(a)
                &&& forall|a: AccountId| m@.is_candidate(a) <==> slots@.contains(Some(a))
                &&& forall|i: int|
                    0 <= i < slots@.len() && (#[trigger] slots@[i]) is Some
                        ==> m@.register[slots@[i]->0] == (0u32, i as u32)
            },
    {
        if params.voting_period == 0 {
            return None;
        }
        if slots.len() as u64 > 0x1_0000_0000 {
            return None;
        }
        let mut c: usize = 1;
        while c < council.len()
            invariant
                1 <= c,
                forall|i: int, j: int|
                    0 <= i < j < c && j < council@.len() ==> council@[i].1 <= council@[j].1,
            decreases council.len() - c,
        {
            if council[c - 1].1 > council[c].1 {
                return None;
            }
            c = c + 1;
        }
        let mut register: HashMap<AccountId, (VoteIndex, u32)> = HashMap::new();
        let mut count: u64 = 0;
        let mut i: usize = 0;
        while i < slots.len()
            invariant
                i <= slots.len(),
                slots@.len() <= u32::MAX + 1,
                count == live_count(slots@.take(i as int)),
                count <= i,
                forall|a: AccountId| #[trigger]
                    register@.contains_key(a) ==> {
                        &&& register@[a].0 == 0
                        &&& register@[a].1 < i
                        &&& slots@[register@[a].1 as int] == Some(a)
                    },
                forall|j: int|
                    0 <= j < i && (#[trigger] slots@[j]) is Some ==> {
                        &&& register@.contains_key(slots@[j]->0)
                        &&& register@[slots@[j]->0].1 == j
                    },
            decreases slots.len() - i,
        {
            proof {
                assert(slots@.take(i + 1).drop_last() =~= slots@.take(i as int));
            }
            match slots[i] {
                Some(who) => {
                    if register.contains_key(&who) {
                        return None;
                    }
                    register.insert(who, (0, i as u32));
                    count = count + 1;
                },
                None => {},
            }
            i = i + 1;
        }
        proof {
            assert(slots@.take(i as int) =~= slots@);
        }
        let m = Module {
            params,
            active_council: council,
            vote_index: 0,
            approvals: HashMap::new(),
            register,
            activity: HashMap::new(),
            pots: HashMap::new(),
            voters: Vec::new(),
            candidates: slots,
            candidate_count: count,
            tally: None,
        };
        Some(m)
    }

    /// How much is reserved from an account that submits its candidacy.
    pub fn candidacy_bond(&self) -> (r: Balance)
        ensures
            r == self@.params.candidacy_bond,
    {
        self.params.candidacy_bond
    }

    /// How much is reserved from an account when it first sets approvals.
    pub fn voting_bond(&self) -> (r: Balance)
        ensures
            r == self@.params.voting_bond,
    {
        self.params.voting_bond
    }

    /// The slash, per voter, for a wrong presentation.
    pub fn present_slash_per_voter(&self) -> (r: Balance)
        ensures
            r == self@.params.present_slash_per_voter,
    {
        self.params.present_slash_per_voter
    }

    /// How many runners-up stay registered for the next election.
    pub fn carry_count(&self) -> (r: u32)
        ensures
            r == self@.params.carry_count,
    {
        self.params.carry_count
    }

    /// How many blocks the presentation phase lasts.
    pub fn presentation_duration(&self) -> (r: BlockNumber)
        ensures
            r == self@.params.presentation_duration,
    {
        self.params.presentation_duration
    }

    /// How many elections must pass before an idle voter can be reaped.
    pub fn inactivity_grace_period(&self) -> (r: VoteIndex)
        ensures
            r == self@.params.inactivity_grace_period,
    {
        self.params.inactivity_grace_period
    }

    /// The spacing, in blocks, of the heights at which a tally may start.
    pub fn voting_period(&self) -> (r: BlockNumber)
        ensures
            r == self@.params.voting_period,
    {
        self.params.voting_period
    }

    /// How many blocks a seat is held.
    pub fn term_duration(&self) -> (r: BlockNumber)
        ensures
            r == self@.params.term_duration,
    {
        self.params.term_duration
    }

    /// The size the council should have.
    pub fn desired_seats(&self) -> (r: u32)
        ensures
            r == self@.params.desired_seats,
    {
        self.params.desired_seats
    }

    /// The decay ratio of the weight offset.
    pub fn decay_ratio(&self) -> (r: u32)
        ensures
            r == self@.params.decay_ratio,
    {
        self.params.decay_ratio
    }

    /// The sitting members with the blocks at which their seats expire.
    pub fn active_council(&self) -> (r: Vec<(AccountId, BlockNumber)>)
        ensures
            r@ == self@.council,
    {
        copy_of(&self.active_council)
    }

    /// The ordinal of the election in progress or next to come.
    pub fn vote_index(&self) -> (r: VoteIndex)
        ensures
            r == self@.vote_index,
    {
        self.vote_index
    }

    /// The stored vote of `who`; empty for an account that is no voter.
    pub fn approvals_of(&self, who: AccountId) -> (r: Vec<bool>)
        ensures
            r@ == if self@.approvals.contains_key(who) {
                self@.approvals[who]
            } else {
                Seq::<bool>::empty()
            },
    {
        match self.approvals.get(&who) {
            Some(votes) => copy_of(votes),
            None => Vec::new(),
        }
    }

    /// The election in which `who` registered and the slot it holds, if
    /// `who` is a candidate.
    pub fn candidate_reg_info(&self, who: AccountId) -> (r: Option<(VoteIndex, u32)>)
        ensures
            r == if self@.is_candidate(who) {
                Some(self@.register[who])
            } else {
                None
            },
    {
        match self.register.get(&who) {
            Some(info) => Some(*info),
            None => None,
        }
    }

    /// The activity record of `who`, if `who` is a voter.
    pub fn voter_activity(&self, who: AccountId) -> (r: Option<VoterActivity>)
        ensures
            r == if self@.is_voter(who) {
                Some(self@.activity[who])
            } else {
                None
            },
    {
        match self.activity.get(&who) {
            Some(record) => Some(*record),
            None => None,
        }
    }

    /// The weight that `who` has carried over from earlier votes, if any is
    /// stored.
    pub fn offset_pot(&self, who: AccountId) -> (r: Option<Weight>)
        ensures
            r is Some == self@.pots.contains_key(who),
            r is Some ==> r->0 == self@.pots[who],
    {
        match self.pots.get(&who) {
            Some(pot) => Some(*pot),
            None => None,
        }
    }

    /// The voter book: each voter with the stake recorded at the last vote.
    pub fn voters(&self) -> (r: Vec<(AccountId, Balance)>)
        ensures
            r@ == self@.voters,
    {
        copy_of(&self.voters)
    }

    /// The number of candidates.
    pub fn candidate_count(&self) -> (r: u64)
        ensures
            r == self@.candidate_count,
    {
        self.candidate_count
    }

    /// The candidate at `slot`, if the slot exists and is occupied.
    pub fn candidate_at(&self, slot: u32) -> (r: Option<AccountId>)
        ensures
            r == if slot < self@.candidates.len() {
                self@.candidates[slot as int]
            } else {
                None
            },
    {
        if (slot as usize) < self.candidates.len() {
            self.candidates[slot as usize]
        } else {
            None
        }
    }

    /// The registry as plain accounts, slot by slot, with [`NOBODY`] in
    /// each hole.
    pub fn candidates(&self) -> (r: Vec<AccountId>)
        ensures
            r@ == Seq::new(self@.candidates.len(), |i: int| packed_slot(self@.candidates[i])),
    {
        let mut r: Vec<AccountId> = Vec::new();
        let mut i: usize = 0;
        while i < self.candidates.len()
            invariant
                i <= self.candidates.len(),
                r@ == Seq::new(i as nat, |k: int| packed_slot(self.candidates@[k])),
            decreases self.candidates.len() - i,
        {
            let who: AccountId = match self.candidates[i] {
                Some(who) => who,
                None => NOBODY,
            };
            r.push(who);
            i = i + 1;
        }
        r
    }

    /// The leaderboard as plain pairs, lightest first, with a weight of
    /// zero and [`NOBODY`] in each empty place. There is one exactly while
    /// a tally runs.
    pub fn leaderboard(&self) -> (r: Option<Vec<(Weight, AccountId)>>)
        ensures
            r is Some == self@.presentation_active(),
            r is Some ==> r->0@ == Seq::new(
                self@.tally->0.leaderboard.len(),
                |i: int| packed_place(self@.tally->0.leaderboard[i]),
            ),
    {
        match &self.tally {
            None => None,
            Some(tally) => {
                let mut r: Vec<(Weight, AccountId)> = Vec::new();
                let mut i: usize = 0;
                while i < tally.leaderboard.len()
                    invariant
                        i <= tally.leaderboard.len(),
                        r@ == Seq::new(i as nat, |k: int| packed_place(tally.leaderboard@[k])),
                    decreases tally.leaderboard.len() - i,
                {
                    let pair: (Weight, AccountId) = match tally.leaderboard[i] {
                        Some(claim) => claim,
                        None => (0, NOBODY),
                    };
                    r.push(pair);
                    i = i + 1;
                }
                Some(r)
            },
        }
    }

    /// The block at which the running tally ends, the number of seats it
    /// fills and the members who leave. There is one exactly while a tally
    /// runs.
    pub fn next_finalize(&self) -> (r: Option<(BlockNumber, u32, Vec<AccountId>)>)
        ensures
            match r {
                Some((finalize_at, empty_seats, expiring)) => {
                    &&& self@.tally is Some
                    &&& finalize_at == self@.tally->0.finalize_at
                    &&& empty_seats == self@.tally->0.empty_seats
                    &&& expiring@ == self@.tally->0.expiring
                },
                None => self@.tally is None,
            },
    {
        match &self.tally {
            None => None,
            Some(tally) => Some((tally.finalize_at, tally.empty_seats, copy_of(&tally.expiring))),
        }
    }

    /// True while a tally has started and not yet been finalized.
    pub fn presentation_active(&self) -> (r: bool)
        ensures
            r == self@.presentation_active(),
    {
        self.tally.is_some()
    }

    /// Whether `who` is a candidate at the moment.
    pub fn is_a_candidate(&self, who: &AccountId) -> (r: bool)
        ensures
            r == self@.is_candidate(*who),
    {
        self.register.contains_key(who)
    }

    /// Whether `who` is in the voter book.
    pub fn is_a_voter(&self, who: AccountId) -> (r: bool)
        ensures
            r == self@.is_voter(who),
    {
        self.activity.contains_key(&who)
    }

    /// The weight offset that `stake` has earned `t` elections after the
    /// last win, at the module's decay ratio.
    pub fn get_offset(&self, stake: Balance, t: VoteIndex) -> (r: Weight)
        ensures
            r == decay::offset(stake as nat, self@.params.decay_ratio as nat, t as nat),
    {
        decay::get_offset(stake, self.params.decay_ratio, t)
    }
}

} // verus!

//! The presentation leaderboard: while a tally runs, anyone may present a
//! candidate with the weight that the voter book gives it. A correct claim
//! takes the lightest place of the board; a wrong one costs the presenter.

use vstd::prelude::*;
use crate::decay;
use crate::host::Effect;
use crate::host::Error;
use crate::host::Question;
use crate::model::claimant;
use crate::model::lemma_seat_of;
use crate::model::seat_of;
use crate::model::weight_of;
use crate::model::Place;
use crate::model::State;
use crate::model::TallyState;
use crate::model::VoterActivity;
use crate::seats::Module;
use crate::seats::Tally;
use crate::voters::lemma_offset_below_step;
use crate::AccountId;
use crate::Balance;
use crate::BlockNumber;
use crate::VoteIndex;
use crate::Weight;

verus! {

broadcast use vstd::std_specs::hash::group_hash_axioms;

/// How a presentation has ended, and what the host is to do about it.
pub struct Ruling {
    /// Whether the claim was accepted, and if not, why.
    pub result: Result<(), Error>,
    /// What the host is to do: to slash the presenter, if the claim was
    /// examined and found wrong.
    pub effects: Vec<Effect>,
}

/// How many places at the front of `board` are lighter than `total`.
pub open spec fn lighter_prefix(board: Seq<Place>, total: Weight) -> int
    decreases board.len(),
{
    if board.len() == 0 || weight_of(board[0]) >= total {
        0
    } else {
        1 + lighter_prefix(board.skip(1), total)
    }
}

/// Whether `candidate` holds a place of `board`.
pub open spec fn on_board(board: Seq<Place>, candidate: AccountId) -> bool {
    exists|i: int|
        0 <= i < board.len() && (#[trigger] board[i]) is Some && claimant(board[i]) == candidate
}

/// The board after its lightest place has given way to `candidate` with a
/// weight of `total`: the claim stands behind the places lighter than it
/// and before every other.
pub open spec fn board_with(board: Seq<Place>, candidate: AccountId, total: Weight) -> Seq<Place> {
    let rest = board.skip(1);
    rest.insert(lighter_prefix(rest, total), Some((total, candidate)))
}

impl State {
    /// What the voter listed at `position` adds to a candidate that
    /// registered in election `since` at `slot`: nothing, unless the voter
    /// was last active in that election or later and approves the slot;
    /// else the recorded stake, the offset it has earned since the voter's
    /// last win, and the voter's pot. A position beyond the book adds
    /// nothing.
    pub open spec fn voter_weight(self, position: int, since: VoteIndex, slot: u32) -> nat {
        let voter = self.voters[position].0;
        let stake = self.voters[position].1;
        if 0 <= position < self.voters.len() && self.is_voter(voter)
            && self.activity[voter].last_active >= since && self.approves(
            voter,
            slot as int,
        ) {
            stake as nat + decay::offset(
                stake as nat,
                self.params.decay_ratio as nat,
                (self.vote_index - self.activity[voter].last_win) as nat,
            ) + self.pot_of(voter)
        } else {
            0
        }
    }

    /// The sum of what the first `n` voters of the book add.
    pub open spec fn weight_of_first(self, n: nat, since: VoteIndex, slot: u32) -> nat
        decreases n,
    {
        if n == 0 {
            0
        } else {
            self.weight_of_first((n - 1) as nat, since, slot) + self.voter_weight(
                n - 1,
                since,
                slot,
            )
        }
    }

    /// The weight that the voter book gives to the candidate `candidate`.
    pub open spec fn actual_total(self, candidate: AccountId) -> nat {
        self.weight_of_first(
            self.voters.len(),
            self.register[candidate].0,
            self.register[candidate].1,
        )
    }

    /// What a presenter must be able to lose: the slash per voter, times
    /// the number of voters.
    pub open spec fn punishment(self) -> nat {
        self.params.present_slash_per_voter as nat * self.voters.len()
    }

    /// What the host is asked before a presentation is examined: whether
    /// it can slash the presenter by the punishment. There is nothing to
    /// ask if the punishment is more than any balance.
    pub open spec fn presentation_question(self, presenter: AccountId) -> Option<Question> {
        if self.punishment() <= u64::MAX {
            Some(Question::CanSlash(presenter, self.punishment() as Balance))
        } else {
            None
        }
    }

    /// Whether the presenter can be made to pay for a wrong claim: the
    /// punishment is an amount that a balance can hold, and the host has
    /// said that it can slash the presenter by it.
    pub open spec fn can_punish(self, slashable: bool) -> bool {
        slashable && self.punishment() <= u64::MAX
    }

    /// Why a presentation is turned away without being examined, if so.
    /// `slashable` is the host's answer to the question whether it can
    /// slash the presenter by the punishment.
    pub open spec fn presentation_error(
        self,
        candidate: AccountId,
        total: Weight,
        index: VoteIndex,
        slashable: bool,
    ) -> Option<Error> {
        if total == 0 {
            Some(Error::ZeroStake)
        } else if index != self.vote_index {
            Some(Error::IndexNotCurrent)
        } else if self.tally is None {
            Some(Error::NotPresenting)
        } else if !self.can_punish(slashable) {
            Some(Error::PresenterFunds)
        } else if total <= weight_of(self.tally->0.leaderboard[0]) {
            Some(Error::NotWorthy)
        } else if seat_of(self.council, candidate) < self.council.len() && seat_of(
            self.council,
            candidate,
        ) >= self.tally->0.expiring.len() {
            Some(Error::DuplicateMember)
        } else if !self.is_candidate(candidate) {
            Some(Error::CandidateNotCurrent)
        } else {
            None
        }
    }

    /// The outcome of a presentation. One that was examined and found wrong
    /// (a candidate already on the board, or a total that is not the
    /// candidate's) is the presenter's loss.
    pub open spec fn presentation_result(
        self,
        candidate: AccountId,
        total: Weight,
        index: VoteIndex,
        slashable: bool,
    ) -> Result<(), Error> {
        match self.presentation_error(candidate, total, index, slashable) {
            Some(e) => Err(e),
            None => if on_board(self.tally->0.leaderboard, candidate) {
                Err(Error::DuplicatePresentation)
            } else if total != self.actual_total(candidate) {
                Err(Error::IncorrectTotal)
            } else {
                Ok(())
            },
        }
    }

    /// What the host does after a presentation: it slashes the presenter by
    /// the punishment if the claim was examined and found wrong, and
    /// nothing else.
    pub open spec fn presentation_effects(
        self,
        presenter: AccountId,
        candidate: AccountId,
        total: Weight,
        index: VoteIndex,
        slashable: bool,
    ) -> Seq<Effect> {
        let result = self.presentation_result(candidate, total, index, slashable);
        if result == Err::<(), Error>(Error::DuplicatePresentation) || result == Err::<
            (),
            Error,
        >(Error::IncorrectTotal) {
            seq![Effect::SlashBadPresentation(presenter, self.punishment() as Balance)]
        } else {
            Seq::empty()
        }
    }

    /// The state after `candidate` has taken a place with `total`.
    pub open spec fn with_presentation(self, candidate: AccountId, total: Weight) -> State {
        State {
            tally: Some(
                TallyState {
                    leaderboard: board_with(self.tally->0.leaderboard, candidate, total),
                    ..self.tally->0
                },
            ),
            ..self
        }
    }
}

/// The places before the lighter prefix are lighter than `total`; the place
/// behind it, if there is one, is not.
pub proof fn lemma_lighter_prefix(board: Seq<Place>, total: Weight)
    ensures
        0 <= lighter_prefix(board, total) <= board.len(),
        forall|i: int|
            0 <= i < lighter_prefix(board, total) ==> weight_of(#[trigger] board[i]) < total,
        lighter_prefix(board, total) < board.len() ==> weight_of(
            board[lighter_prefix(board, total)],
        ) >= total,
    decreases board.len(),
{
    if board.len() > 0 && weight_of(board[0]) < total {
        let rest = board.skip(1);
        lemma_lighter_prefix(rest, total);
        assert forall|i: int| 0 <= i < lighter_prefix(board, total) implies weight_of(
            #[trigger] board[i],
        ) < total by {
            if i > 0 {
                assert(board[i] == rest[i - 1]);
            }
        }
    }
}

/// A position behind lighter places only, whose own place is not lighter,
/// is the lighter prefix.
pub proof fn lemma_lighter_prefix_is(board: Seq<Place>, total: Weight, k: int)
    requires
        0 <= k <= board.len(),
        forall|i: int| 0 <= i < k ==> weight_of(#[trigger] board[i]) < total,
        k < board.len() ==> weight_of(board[k]) >= total,
    ensures
        lighter_prefix(board, total) == k,
{
    lemma_lighter_prefix(board, total);
}

/// A presentation conserves the board: its length stays, the claim is on
/// it, and every place but the lightest is still there, in its old order.
pub proof fn lemma_board_with(board: Seq<Place>, candidate: AccountId, total: Weight)
    requires
        board.len() >= 1,
    ensures
        board_with(board, candidate, total).len() == board.len(),
        on_board(board_with(board, candidate, total), candidate),
        board_with(board, candidate, total)[lighter_prefix(board.skip(1), total)] == Some(
            (total, candidate),
        ),
        forall|i: int|
            1 <= i < board.len() ==> board_with(board, candidate, total)[if i - 1
                < lighter_prefix(board.skip(1), total) {
                i - 1
            } else {
                i
            }] == #[trigger] board[i],
{
    let rest = board.skip(1);
    lemma_lighter_prefix(rest, total);
    let k = lighter_prefix(rest, total);
    let next = board_with(board, candidate, total);
    assert(next[k] == Some((total, candidate)));
}

/// Taking a place keeps the invariant.
pub proof fn lemma_with_presentation_wf(
    s: State,
    candidate: AccountId,
    total: Weight,
    index: VoteIndex,
)
    requires
        s.wf(),
        s.presentation_error(candidate, total, index, true) is None,
        !on_board(s.tally->0.leaderboard, candidate),
    ensures
        s.with_presentation(candidate, total).wf(),
{
    let board = s.tally->0.leaderboard;
    let rest = board.skip(1);
    lemma_lighter_prefix(rest, total);
}

/// What one voter adds fits a weight, whatever the book holds.
pub proof fn lemma_voter_weight_fits(s: State, position: int, since: VoteIndex, slot: u32)
    requires
        s.wf(),
        0 <= position < s.voters.len(),
    ensures
        s.voter_weight(position, since, slot) <= u128::MAX,
{
    let voter = s.voters[position].0;
    let stake = s.voters[position].1;
    let record = s.activity[voter];
    let distance = (s.vote_index - record.last_win) as nat;
    lemma_offset_below_step(stake, s.params.decay_ratio, distance);
}

impl Module {
    /// What a presenter must be able to lose, if the amount fits a balance.
    pub fn bad_presentation_punishment(&self) -> (r: Option<Balance>)
        ensures
            r == if self@.punishment() <= u64::MAX {
                Some(self@.punishment() as Balance)
            } else {
                None
            },
    {
        let count: usize = self.voters.len();
        let per_voter: u128 = self.params.present_slash_per_voter as u128;
        let wide: u128 = count as u128;
        assert(per_voter * wide <= 0xffff_ffff_ffff_ffff * 0xffff_ffff_ffff_ffff)
            by (nonlinear_arith)
            requires
                per_voter <= 0xffff_ffff_ffff_ffff,
                wide <= 0xffff_ffff_ffff_ffff,
        ;
        let product: u128 = per_voter * wide;
        if product <= u64::MAX as u128 {
            Some(product as u64)
        } else {
            None
        }
    }

    /// What to ask the host before a claim of `presenter` is examined.
    pub fn presentation_question(&self, presenter: AccountId) -> (r: Option<Question>)
        ensures
            r == self@.presentation_question(presenter),
    {
        match self.bad_presentation_punishment() {
            Some(amount) => Some(Question::CanSlash(presenter, amount)),
            None => None,
        }
    }

    /// The first position at which `who` sits on the council, or the size
    /// of the council.
    pub fn council_seat(&self, who: AccountId) -> (r: usize)
        ensures
            r == seat_of(self@.council, who),
    {
        let mut i: usize = 0;
        while i < self.active_council.len() && self.active_council[i].0 != who
            invariant
                i <= self.active_council.len(),
                forall|j: int| 0 <= j < i ==> (#[trigger] self.active_council@[j]).0 != who,
            decreases self.active_council.len() - i,
        {
            i = i + 1;
        }
        proof {
            lemma_seat_of(self.active_council@, who);
        }
        i
    }

    /// The weight that the voter book gives to a candidate that registered
    /// in election `since` at `slot`; `None` if the sum is beyond any
    /// weight.
    pub fn tally_votes(&self, since: VoteIndex, slot: u32) -> (r: Option<Weight>)
        requires
            self.wf(),
        ensures
            match r {
                Some(total) => total == self@.weight_of_first(self@.voters.len(), since, slot),
                None => self@.weight_of_first(self@.voters.len(), since, slot) > u128::MAX,
            },
    {
        let mut sum: Option<Weight> = Some(0);
        let mut i: usize = 0;
        while i < self.voters.len()
            invariant
                self.wf(),
                i <= self.voters.len(),
                match sum {
                    Some(total) => total == self@.weight_of_first(i as nat, since, slot),
                    None => self@.weight_of_first(i as nat, since, slot) > u128::MAX,
                },
            decreases self.voters.len() - i,
        {
            let weight: Weight = self.weight_at(i, since, slot);
            sum = match sum {
                Some(total) => total.checked_add(weight),
                None => None,
            };
            i = i + 1;
        }
        sum
    }

    /// What the voter listed at `position` adds to a candidate that
    /// registered in election `since` at `slot`.
    pub fn weight_at(&self, position: usize, since: VoteIndex, slot: u32) -> (r: Weight)
        requires
            self.wf(),
        ensures
            r == self@.voter_weight(position as int, since, slot),
    {
        if position >= self.voters.len() {
            return 0;
        }
        let voter: AccountId = self.voters[position].0;
        let stake: Balance = self.voters[position].1;
        proof {
            lemma_voter_weight_fits(self@, position as int, since, slot);
        }
        let record: VoterActivity = match self.voter_activity(voter) {
            Some(record) => record,
            None => {
                return 0;
            },
        };
        if record.last_active < since {
            return 0;
        }
        let approved: bool = match self.approvals.get(&voter) {
            Some(votes) => (slot as usize) < votes.len() && votes[slot as usize],
            None => false,
        };
        if !approved {
            return 0;
        }
        let pot: Weight = match self.pots.get(&voter) {
            Some(pot) => *pot,
            None => 0,
        };
        let earned: Weight = self.get_offset(stake, self.vote_index - record.last_win);
        stake as u128 + earned + pot
    }

    /// Whether `candidate` holds a place of the leaderboard.
    pub fn is_presented(&self, candidate: AccountId) -> (r: bool)
        ensures
            r == (self@.tally is Some && on_board(self@.tally->0.leaderboard, candidate)),
    {
        match &self.tally {
            None => false,
            Some(tally) => {
                let mut i: usize = 0;
                while i < tally.leaderboard.len()
                    invariant
                        i <= tally.leaderboard.len(),
                        self@.tally is Some,
                        self@.tally->0.leaderboard == tally.leaderboard@,
                        forall|j: int|
                            0 <= j < i ==> !((#[trigger] tally.leaderboard@[j]) is Some
                                && claimant(tally.leaderboard@[j]) == candidate),
                    decreases tally.leaderboard.len() - i,
                {
                    match tally.leaderboard[i] {
                        Some((_, holder)) => {
                            if holder == candidate {
                                return true;
                            }
                        },
                        None => {},
                    }
                    i = i + 1;
                }
                false
            },
        }
    }

    /// Examines the claim of `presenter` that `candidate` has a weight of
    /// `total` in election `index`, given the host's answer to the question
    /// of [`Module::presentation_question`]. A correct claim for a
    /// candidate not yet on the board takes the board's lightest place;
    /// nothing else changes the module. A claim that was examined and
    /// found wrong has the presenter slashed.
    pub fn do_present_winner(
        &mut self,
        presenter: AccountId,
        candidate: AccountId,
        total: Weight,
        index: VoteIndex,
        slashable: bool,
    ) -> (r: Ruling)
        requires
            old(self).wf(),
        ensures
            final(self).wf(),
            r.result == old(self)@.presentation_result(candidate, total, index, slashable),
            r.effects@ == old(self)@.presentation_effects(
                presenter,
                candidate,
                total,
                index,
                slashable,
            ),
            final(self)@ == if r.result is Ok {
                old(self)@.with_presentation(candidate, total)
            } else {
                old(self)@
            },
    {
        let punishment: Option<Balance> = self.bad_presentation_punishment();
        let result = self.examine(candidate, total, index, slashable && punishment.is_some());
        let mut effects: Vec<Effect> = Vec::new();
        match result {
            Err(Error::DuplicatePresentation) | Err(Error::IncorrectTotal) => {
                match punishment {
                    Some(amount) => {
                        effects.push(Effect::SlashBadPresentation(presenter, amount));
                    },
                    None => {},
                }
            },
            _ => {},
        }
        Ruling { result, effects }
    }

    /// Examines a claim for which the presenter can, or cannot, be made to
    /// pay.
    fn examine(&mut self, candidate: AccountId, total: Weight, index: VoteIndex, punishable: bool) -> (r:
        Result<(), Error>)
        requires
            old(self).wf(),
            punishable ==> old(self)@.punishment() <= u64::MAX,
        ensures
            final(self).wf(),
            r == old(self)@.presentation_result(candidate, total, index, punishable),
            final(self)@ == if r is Ok {
                old(self)@.with_presentation(candidate, total)
            } else {
                old(self)@
            },
    {
        if total == 0 {
            return Err(Error::ZeroStake);
        }
        if index != self.vote_index {
            return Err(Error::IndexNotCurrent);
        }
        let expiring_count: usize = match &self.tally {
            None => {
                return Err(Error::NotPresenting);
            },
            Some(tally) => {
                if !punishable {
                    return Err(Error::PresenterFunds);
                }
                let lightest: Weight = match tally.leaderboard[0] {
                    Some((weight, _)) => weight,
                    None => 0,
                };
                if total <= lightest {
                    return Err(Error::NotWorthy);
                }
                tally.expiring.len()
            },
        };
        let seat: usize = self.council_seat(candidate);
        if seat < self.active_council.len() && seat >= expiring_count {
            return Err(Error::DuplicateMember);
        }
        let info: (VoteIndex, u32) = match self.candidate_reg_info(candidate) {
            Some(info) => info,
            None => {
                return Err(Error::CandidateNotCurrent);
            },
        };
        if self.is_presented(candidate) {
            return Err(Error::DuplicatePresentation);
        }
        let actual: Option<Weight> = self.tally_votes(info.0, info.1);
        if actual != Some(total) {
            return Err(Error::IncorrectTotal);
        }
        let tally: Tally = match self.tally.take() {
            Some(tally) => tally,
            None => {
                return Err(Error::NotPresenting);
            },
        };
        let finalize_at: BlockNumber = tally.finalize_at;
        let empty_seats: u32 = tally.empty_seats;
        let expiring: Vec<AccountId> = tally.expiring;
        let mut board: Vec<Place> = tally.leaderboard;
        board.remove(0);
        let mut k: usize = 0;
        while k < board.len() && weight_below(board[k], total)
            invariant
                k <= board.len(),
                forall|j: int| 0 <= j < k ==> weight_of(#[trigger] board@[j]) < total,
            decreases board.len() - k,
        {
            k = k + 1;
        }
        proof {
            lemma_lighter_prefix_is(board@, total, k as int);
        }
        board.insert(k, Some((total, candidate)));
        self.tally = Some(Tally { finalize_at, empty_seats, expiring, leaderboard: board });
        Ok(())
    }
}

/// Whether `place` is lighter than `total`.
fn weight_below(place: Place, total: Weight) -> (r: bool)
    ensures
        r == (weight_of(place) < total),
{
    match place {
        Some((weight, _)) => weight < total,
        None => 0 < total,
    }
}

} // verus!

//! The end of a tally: the best of the board take the empty seats, the next
//! best stay registered as runners-up, every other candidate is cleared.

use vstd::prelude::*;
use crate::host::Error;
use crate::model::claimant;
use crate::model::council_sorted;
use crate::model::lemma_live_count_of_holes;
use crate::model::lemma_live_count_update;
use crate::model::lemma_rank_of;
use crate::model::lemma_rank_of_listed;
use crate::model::live_count;
use crate::model::rank_of;
use crate::model::weight_of;
use crate::model::Place;
use crate::model::State;
use crate::model::VoterActivity;
use crate::schedule::accounts_of;
use crate::schedule::expired_prefix;
use crate::schedule::lemma_expired_prefix;
use crate::schedule::lemma_expired_prefix_is;
use crate::seats::Module;
use crate::seats::Tally;
use crate::AccountId;
use crate::BlockNumber;
use crate::VoteIndex;

verus! {

broadcast use vstd::std_specs::hash::group_hash_axioms;

/// Who has joined and who has left the council at the end of a tally.
pub struct Turnover {
    /// The new members, best first.
    pub incoming: Vec<AccountId>,
    /// The members whose seats were given up, in the order of the council.
    pub outgoing: Vec<AccountId>,
}

/// The candidates of a board from the heaviest place down, as far as the
/// places carry a weight.
pub open spec fn ranking(board: Seq<Place>) -> Seq<AccountId>
    decreases board.len(),
{
    if board.len() == 0 || weight_of(board.last()) == 0 {
        Seq::empty()
    } else {
        seq![claimant(board.last())] + ranking(board.drop_last())
    }
}

/// The slots without the holes at their end.
pub open spec fn trimmed(slots: Seq<Option<AccountId>>) -> Seq<Option<AccountId>>
    decreases slots.len(),
{
    if slots.len() == 0 || slots.last() is Some {
        slots
    } else {
        trimmed(slots.drop_last())
    }
}

/// The new members, each with a seat until `expiry`.
pub open spec fn seats_until(incoming: Seq<AccountId>, expiry: BlockNumber) -> Seq<
    (AccountId, BlockNumber),
> {
    Seq::new(incoming.len(), |i: int| (incoming[i], expiry))
}

/// The council after its first `leaving` members have left and `incoming`
/// have taken seats until `expiry`: the new members stand behind the
/// members whose seats expire no later than theirs.
pub open spec fn seated(
    council: Seq<(AccountId, BlockNumber)>,
    leaving: int,
    incoming: Seq<AccountId>,
    expiry: BlockNumber,
) -> Seq<(AccountId, BlockNumber)> {
    let staying = council.skip(leaving);
    let ahead = expired_prefix(staying, expiry);
    staying.take(ahead) + seats_until(incoming, expiry) + staying.skip(ahead)
}

impl State {
    /// The candidates that were presented, best first.
    pub open spec fn ranked(self) -> Seq<AccountId> {
        ranking(self.tally->0.leaderboard)
    }

    /// How many of the presented candidates take a seat.
    pub open spec fn seats_taken(self) -> int {
        if self.tally->0.empty_seats <= self.ranked().len() {
            self.tally->0.empty_seats as int
        } else {
            self.ranked().len() as int
        }
    }

    /// The candidates that take a seat.
    pub open spec fn incoming(self) -> Seq<AccountId> {
        self.ranked().take(self.seats_taken())
    }

    /// The candidates that stay registered for the next election.
    pub open spec fn runners_up(self) -> Seq<AccountId> {
        self.ranked().skip(self.seats_taken())
    }

    /// How many members leave: as many as were noted when the tally
    /// started, as far as the council still has them.
    pub open spec fn seats_left(self) -> int {
        if self.tally->0.expiring.len() <= self.council.len() {
            self.tally->0.expiring.len() as int
        } else {
            self.council.len() as int
        }
    }

    /// The members that leave.
    pub open spec fn outgoing(self) -> Seq<AccountId> {
        accounts_of(self.council, self.seats_left())
    }

    /// Whether the stored vote of `voter` approves the slot of one of
    /// `winners`.
    pub open spec fn backs_winner(self, voter: AccountId, winners: Seq<AccountId>) -> bool {
        exists|k: int|
            0 <= k < winners.len() && self.is_candidate(#[trigger] winners[k]) && self.approves(
                voter,
                self.register[winners[k]].1 as int,
            )
    }

    /// The activity record of a voter whose candidate has won the current
    /// election.
    pub open spec fn credited_record(self, voter: AccountId) -> VoterActivity {
        VoterActivity {
            last_active: self.activity[voter].last_active,
            last_win: (self.vote_index + 1) as VoteIndex,
        }
    }

    /// The activity records after the win of `winners` and of the candidate
    /// at `slot`, the latter credited only to the voters listed before
    /// position `upto`.
    pub open spec fn credited_upto(self, winners: Seq<AccountId>, slot: int, upto: int) -> Map<
        AccountId,
        VoterActivity,
    > {
        Map::new(
            |a: AccountId| self.activity.contains_key(a),
            |a: AccountId|
                if self.backs_winner(a, winners) || (rank_of(self.voters, a) < upto
                    && self.approves(a, slot)) {
                    self.credited_record(a)
                } else {
                    self.activity[a]
                },
        )
    }

    /// The activity records after the win of `winners`: every voter whose
    /// stored vote approves the slot of a winner has won.
    pub open spec fn credited(self, winners: Seq<AccountId>) -> Map<AccountId, VoterActivity> {
        Map::new(
            |a: AccountId| self.activity.contains_key(a),
            |a: AccountId|
                if self.backs_winner(a, winners) {
                    self.credited_record(a)
                } else {
                    self.activity[a]
                },
        )
    }

    /// The slots after every candidate but `runners` has been cleared.
    pub open spec fn kept_slots(self, runners: Seq<AccountId>) -> Seq<Option<AccountId>> {
        Seq::new(
            self.candidates.len(),
            |i: int|
                match self.candidates[i] {
                    Some(a) => if runners.contains(a) {
                        Some(a)
                    } else {
                        None
                    },
                    None => None,
                },
        )
    }

    /// The register after every candidate but `runners` has been cleared.
    pub open spec fn kept_register(self, runners: Seq<AccountId>) -> Map<
        AccountId,
        (VoteIndex, u32),
    > {
        Map::new(
            |a: AccountId| self.register.contains_key(a) && runners.contains(a),
            |a: AccountId| self.register[a],
        )
    }

    /// The state after the tally has been finalized at block `now`.
    pub open spec fn finalized(self, now: BlockNumber) -> State {
        let slots = trimmed(self.kept_slots(self.runners_up()));
        State {
            council: seated(
                self.council,
                self.seats_left(),
                self.incoming(),
                (now + self.params.term_duration) as BlockNumber,
            ),
            vote_index: (self.vote_index + 1) as VoteIndex,
            activity: self.credited(self.incoming()),
            register: self.kept_register(self.runners_up()),
            candidates: slots,
            candidate_count: live_count(slots),
            tally: None,
            ..self
        }
    }
}

/// The ranking reads the board from its end: its entries are the
/// candidates of the last places, which are all claimed.
pub proof fn lemma_ranking(board: Seq<Place>)
    ensures
        ranking(board).len() <= board.len(),
        forall|k: int|
            0 <= k < ranking(board).len() ==> {
                &&& weight_of(#[trigger] board[board.len() - 1 - k]) != 0
                &&& board[board.len() - 1 - k] is Some
                &&& ranking(board)[k] == claimant(board[board.len() - 1 - k])
            },
        ranking(board).len() < board.len() ==> weight_of(
            board[board.len() - 1 - ranking(board).len()],
        ) == 0,
    decreases board.len(),
{
    if board.len() > 0 && weight_of(board.last()) != 0 {
        let rest = board.drop_last();
        lemma_ranking(rest);
        assert forall|k: int| 0 <= k < ranking(board).len() implies {
            &&& weight_of(#[trigger] board[board.len() - 1 - k]) != 0
            &&& board[board.len() - 1 - k] is Some
            &&& ranking(board)[k] == claimant(board[board.len() - 1 - k])
        } by {
            if k > 0 {
                assert(rest[rest.len() - 1 - (k - 1)] == board[board.len() - 1 - k]);
            }
        }
    }
}

/// While a tally runs, the ranked candidates are registered and no one is
/// ranked twice.
pub proof fn lemma_ranked_candidates(s: State)
    requires
        s.tally is Some,
        s.tally_wf(),
    ensures
        s.ranked().no_duplicates(),
        forall|k: int| 0 <= k < s.ranked().len() ==> s.is_candidate(#[trigger] s.ranked()[k]),
        s.ranked().len() <= s.tally->0.leaderboard.len(),
        s.incoming() + s.runners_up() =~= s.ranked(),
{
    let board = s.tally->0.leaderboard;
    lemma_ranking(board);
    assert forall|i: int, j: int|
        0 <= i < s.ranked().len() && 0 <= j < s.ranked().len() && i != j implies s.ranked()[i]
        != s.ranked()[j] by {
        let from_i = board.len() - 1 - i;
        let from_j = board.len() - 1 - j;
        assert(board[from_i] is Some && board[from_j] is Some);
    }
    assert forall|k: int| 0 <= k < s.ranked().len() implies s.is_candidate(
        #[trigger] s.ranked()[k],
    ) by {
        assert(board[board.len() - 1 - k] is Some);
    }
}

/// Trimming keeps a prefix: what is cut are holes, and what stays ends
/// with a candidate.
pub proof fn lemma_trimmed(slots: Seq<Option<AccountId>>)
    ensures
        trimmed(slots).len() <= slots.len(),
        trimmed(slots) == slots.take(trimmed(slots).len() as int),
        forall|i: int| trimmed(slots).len() <= i < slots.len() ==> (#[trigger] slots[i]) is None,
        trimmed(slots).len() > 0 ==> trimmed(slots).last() is Some,
        live_count(trimmed(slots)) == live_count(slots),
    decreases slots.len(),
{
    if slots.len() > 0 && slots.last() is None {
        let rest = slots.drop_last();
        lemma_trimmed(rest);
        assert forall|i: int| trimmed(slots).len() <= i < slots.len() implies (
        #[trigger] slots[i]) is None by {
            if i < rest.len() {
                assert(rest[i] == slots[i]);
            }
        }
    }
}

/// Seating keeps the council sorted, and changes its size by the members
/// who come less the members who leave.
pub proof fn lemma_seated(
    council: Seq<(AccountId, BlockNumber)>,
    leaving: int,
    incoming: Seq<AccountId>,
    expiry: BlockNumber,
)
    requires
        council_sorted(council),
        0 <= leaving <= council.len(),
    ensures
        council_sorted(seated(council, leaving, incoming, expiry)),
        seated(council, leaving, incoming, expiry).len() == council.len() - leaving
            + incoming.len(),
{
    let staying = council.skip(leaving);
    lemma_expired_prefix(staying, expiry);
}

/// Finalizing a tally keeps the invariant.
pub proof fn lemma_finalized_wf(s: State, now: BlockNumber)
    requires
        s.wf(),
        s.tally is Some,
        s.vote_index < u32::MAX,
        now + s.params.term_duration <= u64::MAX,
    ensures
        s.finalized(now).wf(),
{
    let t = s.finalized(now);
    let runners = s.runners_up();
    let kept = s.kept_slots(runners);
    lemma_seated(
        s.council,
        s.seats_left(),
        s.incoming(),
        (now + s.params.term_duration) as BlockNumber,
    );
    lemma_trimmed(kept);
    assert forall|a: AccountId| #[trigger] t.register.contains_key(a) implies {
        &&& t.register[a].1 < t.candidates.len()
        &&& t.candidates[t.register[a].1 as int] == Some(a)
    } by {
        let slot = s.register[a].1 as int;
        assert(kept[slot] == Some(a));
    }
}

/// Credit for one more winner is credit for the winners before, and for
/// the slot of the new winner over the whole book.
proof fn lemma_credited_next(s: State, winners: Seq<AccountId>, k: int)
    requires
        s.voters_wf(),
        0 <= k < winners.len(),
    ensures
        s.is_candidate(winners[k]) ==> s.credited(winners.take(k + 1)) =~= s.credited_upto(
            winners.take(k),
            s.register[winners[k]].1 as int,
            s.voters.len() as int,
        ),
        !s.is_candidate(winners[k]) ==> s.credited(winners.take(k + 1)) =~= s.credited(
            winners.take(k),
        ),
        forall|slot: int|
            s.credited(winners.take(k)) == #[trigger] s.credited_upto(winners.take(k), slot, 0),
{
    let before = winners.take(k);
    let with = winners.take(k + 1);
    assert forall|a: AccountId| s.activity.contains_key(a) implies (s.backs_winner(a, with) <==> (
    s.backs_winner(a, before) || (s.is_candidate(winners[k]) && s.approves(
        a,
        s.register[winners[k]].1 as int,
    )))) by {
        if s.is_candidate(winners[k]) && s.approves(a, s.register[winners[k]].1 as int) {
            assert(with[k] == winners[k]);
        }
    }
    assert forall|a: AccountId| rank_of(s.voters, a) >= 0 by {
        lemma_rank_of(s.voters, a);
    }
}

impl Module {
    /// Notes a win for every voter whose stored vote approves the slot of
    /// one of `winners`.
    fn credit_winners(&mut self, winners: &Vec<AccountId>)
        requires
            old(self)@.voters_wf(),
            old(self)@.vote_index < u32::MAX,
        ensures
            final(self)@ == (State {
                activity: old(self)@.credited(winners@),
                ..old(self)@
            }),
    {
        let ghost s = self@;
        let next: VoteIndex = self.vote_index + 1;
        let mut k: usize = 0;
        proof {
            assert(s.credited(winners@.take(0)) =~= s.activity);
        }
        while k < winners.len()
            invariant
                k <= winners.len(),
                s.voters_wf(),
                s.vote_index < u32::MAX,
                next == s.vote_index + 1,
                self@ == (State { activity: s.credited(winners@.take(k as int)), ..s }),
            decreases winners.len() - k,
        {
            proof {
                lemma_credited_next(s, winners@, k as int);
            }
            let info: Option<(VoteIndex, u32)> = self.candidate_reg_info(winners[k]);
            match info {
                Some(info) => {
                    let slot: usize = info.1 as usize;
                    let ghost before = winners@.take(k as int);
                    let mut j: usize = 0;
                    while j < self.voters.len()
                        invariant
                            j <= self.voters.len(),
                            k < winners.len(),
                            s.voters_wf(),
                            s.vote_index < u32::MAX,
                            next == s.vote_index + 1,
                            before == winners@.take(k as int),
                            slot == info.1,
                            self@ == (State {
                                activity: s.credited_upto(before, slot as int, j as int),
                                ..s
                            }),
                        decreases self.voters.len() - j,
                    {
                        let voter: AccountId = self.voters[j].0;
                        let approved: bool = match self.approvals.get(&voter) {
                            Some(votes) => slot < votes.len() && votes[slot],
                            None => false,
                        };
                        proof {
                            lemma_rank_of_listed(s.voters, j as int);
                        }
                        if approved {
                            let record: Option<VoterActivity> = self.voter_activity(voter);
                            match record {
                                Some(record) => {
                                    self.activity.insert(
                                        voter,
                                        VoterActivity {
                                            last_active: record.last_active,
                                            last_win: next,
                                        },
                                    );
                                },
                                None => {},
                            }
                        }
                        proof {
                            let goal = s.credited_upto(before, slot as int, j + 1);
                            assert forall|a: AccountId| s.activity.contains_key(a) && a
                                != voter implies rank_of(s.voters, a) != j by {
                                lemma_rank_of(s.voters, a);
                            }
                            assert(self@.activity =~= goal);
                        }
                        j = j + 1;
                    }
                },
                None => {},
            }
            k = k + 1;
        }
        proof {
            assert(winners@.take(winners.len() as int) =~= winners@);
        }
    }

    /// Lets the first `leaving` members go and seats `incoming` until
    /// `expiry`. Returns who has left.
    fn seat_winners(&mut self, leaving: usize, incoming: &Vec<AccountId>, expiry: BlockNumber) -> (r:
        Vec<AccountId>)
        requires
            leaving <= old(self)@.council.len(),
        ensures
            final(self)@ == (State {
                council: seated(old(self)@.council, leaving as int, incoming@, expiry),
                ..old(self)@
            }),
            r@ == accounts_of(old(self)@.council, leaving as int),
    {
        let ghost s = self@;
        let ghost staying = s.council.skip(leaving as int);
        let mut outgoing: Vec<AccountId> = Vec::new();
        let mut i: usize = 0;
        while i < leaving
            invariant
                i <= leaving <= self.active_council.len(),
                outgoing@ == accounts_of(self.active_council@, i as int),
            decreases leaving - i,
        {
            outgoing.push(self.active_council[i].0);
            i = i + 1;
        }
        let mut next: Vec<(AccountId, BlockNumber)> = Vec::new();
        while i < self.active_council.len() && self.active_council[i].1 <= expiry
            invariant
                leaving <= i <= self.active_council.len(),
                self.active_council@ == s.council,
                staying == s.council.skip(leaving as int),
                next@ == staying.take(i - leaving),
                forall|p: int| 0 <= p < i - leaving ==> (#[trigger] staying[p]).1 <= expiry,
            decreases self.active_council.len() - i,
        {
            next.push(self.active_council[i]);
            i = i + 1;
        }
        let ghost ahead = i - leaving;
        proof {
            lemma_expired_prefix_is(staying, expiry, ahead);
        }
        let mut w: usize = 0;
        while w < incoming.len()
            invariant
                w <= incoming.len(),
                0 <= ahead <= staying.len(),
                next@ == staying.take(ahead) + seats_until(incoming@.take(w as int), expiry),
            decreases incoming.len() - w,
        {
            next.push((incoming[w], expiry));
            w = w + 1;
        }
        while i < self.active_council.len()
            invariant
                leaving <= i <= self.active_council.len(),
                0 <= ahead <= i - leaving,
                staying.len() == s.council.len() - leaving,
                self.active_council@ == s.council,
                staying == s.council.skip(leaving as int),
                next@ == staying.take(ahead) + seats_until(incoming@, expiry) + staying.subrange(
                    ahead,
                    i - leaving,
                ),
            decreases self.active_council.len() - i,
        {
            next.push(self.active_council[i]);
            i = i + 1;
        }
        self.active_council = next;
        outgoing
    }

    /// Clears every candidate but `runners`, cuts the holes at the end of
    /// the registry and counts who is left.
    fn keep_runners_up(&mut self, runners: &Vec<AccountId>)
        requires
            old(self)@.candidates_wf(),
            runners@.no_duplicates(),
        ensures
            final(self)@ == (State {
                register: old(self)@.kept_register(runners@),
                candidates: trimmed(old(self)@.kept_slots(runners@)),
                candidate_count: live_count(trimmed(old(self)@.kept_slots(runners@))),
                ..old(self)@
            }),
    {
        let ghost s = self@;
        let size: usize = self.candidates.len();
        let mut fresh: Vec<Option<AccountId>> = Vec::new();
        let mut n: usize = 0;
        while n < size
            invariant
                n <= size,
                fresh@.len() == n,
                forall|i: int| 0 <= i < n ==> (#[trigger] fresh@[i]) is None,
            decreases size - n,
        {
            fresh.push(None);
            n = n + 1;
        }
        proof {
            lemma_live_count_of_holes(fresh@);
        }
        let mut count: u64 = 0;
        let mut k: usize = 0;
        while k < runners.len()
            invariant
                k <= runners.len(),
                size == s.candidates.len(),
                self@ == s,
                s.candidates_wf(),
                runners@.no_duplicates(),
                fresh@ == s.kept_slots(runners@.take(k as int)),
                count == live_count(fresh@),
                count <= k,
            decreases runners.len() - k,
        {
            let runner: AccountId = runners[k];
            let ghost before = runners@.take(k as int);
            let ghost with = runners@.take(k + 1);
            proof {
                assert forall|a: AccountId| with.contains(a) <==> (before.contains(a) || a
                    == runner) by {
                    assert(with[k as int] == runner);
                }
            }
            let info: Option<(VoteIndex, u32)> = self.candidate_reg_info(runner);
            match info {
                Some(info) => {
                    let slot: usize = info.1 as usize;
                    proof {
                        lemma_live_count_update(fresh@, slot as int, Some(runner));
                    }
                    fresh.set(slot, Some(runner));
                    count = count + 1;
                },
                None => {
                },
            }
            k = k + 1;
        }
        proof {
            assert(runners@.take(runners.len() as int) =~= runners@);
        }
        let ghost kept = s.kept_slots(runners@);
        let mut i: usize = 0;
        proof {
            assert(s.register =~= Map::new(
                |a: AccountId|
                    s.register.contains_key(a) && (s.register[a].1 >= 0 || runners@.contains(a)),
                |a: AccountId| s.register[a],
            ));
        }
        while i < size
            invariant
                i <= size,
                size == s.candidates.len(),
                s.candidates_wf(),
                fresh@ == kept,
                kept == s.kept_slots(runners@),
                self@ == (State {
                    register: Map::new(
                        |a: AccountId|
                            s.register.contains_key(a) && (s.register[a].1 >= i
                                || runners@.contains(a)),
                        |a: AccountId| s.register[a],
                    ),
                    ..s
                }),
            decreases size - i,
        {
            match self.candidates[i] {
                Some(old_holder) => {
                    if fresh[i].is_none() {
                        self.register.remove(&old_holder);
                    }
                },
                None => {},
            }
            proof {
                let goal = Map::new(
                    |a: AccountId|
                        s.register.contains_key(a) && (s.register[a].1 >= i + 1
                            || runners@.contains(a)),
                    |a: AccountId| s.register[a],
                );
                assert(self@.register =~= goal);
            }
            i = i + 1;
        }
        proof {
            assert(self@.register =~= s.kept_register(runners@));
        }
        while fresh.len() > 0 && fresh[fresh.len() - 1].is_none()
            invariant
                trimmed(fresh@) == trimmed(kept),
                live_count(fresh@) == count,
            decreases fresh.len(),
        {
            fresh.pop();
        }
        self.candidates = fresh;
        self.candidate_count = count;
    }

    /// Finalizes the running tally at block `now`. Returns the new members
    /// and the members who have left; fails, and changes nothing, if no
    /// tally is running.
    pub fn finalize_tally(&mut self, now: BlockNumber) -> (r: Result<Turnover, Error>)
        requires
            old(self).wf(),
            old(self)@.tally is Some ==> old(self)@.vote_index < u32::MAX && now + old(
                self,
            )@.params.term_duration <= u64::MAX,
        ensures
            final(self).wf(),
            match r {
                Ok(turnover) => {
                    &&& old(self)@.tally is Some
                    &&& final(self)@ == old(self)@.finalized(now)
                    &&& turnover.incoming@ == old(self)@.incoming()
                    &&& turnover.outgoing@ == old(self)@.outgoing()
                },
                Err(e) => {
                    &&& e == Error::TallyNotStarted
                    &&& old(self)@.tally is None
                    &&& final(self)@ == old(self)@
                },
            },
    {
        let ghost s = self@;
        let tally: Tally = match self.tally.take() {
            Some(tally) => tally,
            None => {
                return Err(Error::TallyNotStarted);
            },
        };
        proof {
            lemma_finalized_wf(s, now);
            lemma_ranked_candidates(s);
        }
        let ranked: Vec<AccountId> = rank_board(&tally.leaderboard);
        let seats: usize = if (tally.empty_seats as usize) <= ranked.len() {
            tally.empty_seats as usize
        } else {
            ranked.len()
        };
        let mut incoming: Vec<AccountId> = Vec::new();
        let mut runners: Vec<AccountId> = Vec::new();
        let mut i: usize = 0;
        while i < seats
            invariant
                i <= seats <= ranked.len(),
                incoming@ == ranked@.take(i as int),
            decreases seats - i,
        {
            incoming.push(ranked[i]);
            i = i + 1;
        }
        while i < ranked.len()
            invariant
                seats <= i <= ranked.len(),
                runners@ == ranked@.subrange(seats as int, i as int),
            decreases ranked.len() - i,
        {
            runners.push(ranked[i]);
            i = i + 1;
        }
        self.credit_winners(&incoming);
        let leaving: usize = if tally.expiring.len() <= self.active_council.len() {
            tally.expiring.len()
        } else {
            self.active_council.len()
        };
        let outgoing: Vec<AccountId> = self.seat_winners(
            leaving,
            &incoming,
            now + self.params.term_duration,
        );
        self.keep_runners_up(&runners);
        self.vote_index = self.vote_index + 1;
        proof {
            let goal = s.finalized(now);
            assert(self@.activity =~= goal.activity);
        }
        Ok(Turnover { incoming, outgoing })
    }
}

/// Reads the candidates off a board, best first.
fn rank_board(board: &Vec<Place>) -> (r: Vec<AccountId>)
    ensures
        r@ == ranking(board@),
{
    let mut ranked: Vec<AccountId> = Vec::new();
    let mut i: usize = board.len();
    proof {
        assert(board@.take(i as int) =~= board@);
    }
    while i > 0
        invariant
            i <= board.len(),
            ranked@ + ranking(board@.take(i as int)) == ranking(board@),
        decreases i,
    {
        let ghost upper = board@.take(i as int);
        proof {
            assert(upper.drop_last() =~= board@.take(i - 1));
        }
        match board[i - 1] {
            Some((weight, holder)) => {
                if weight == 0 {
                    return ranked;
                }
                ranked.push(holder);
            },
            None => {
                return ranked;
            },
        }
        i = i - 1;
    }
    ranked
}

} // verus!

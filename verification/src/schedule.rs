//! When tallies happen: the block at which the next one is due, and the
//! snapshot that opens the presentation phase.

use vstd::prelude::*;
use vstd::arithmetic::div_mod::lemma_fundamental_div_mod;
use crate::model::Place;
use crate::model::State;
use crate::model::TallyState;
use crate::seats::Module;
use crate::seats::Tally;
use crate::AccountId;
use crate::BlockNumber;

verus! {

/// The least multiple of `period` that is no less than `n`.
pub open spec fn round_up(n: int, period: int) -> int {
    (n + period - 1) / period * period
}

/// How many members at the front of `council` have a seat that expires at
/// `now` or earlier.
pub open spec fn expired_prefix(council: Seq<(AccountId, BlockNumber)>, now: BlockNumber) -> int
    decreases council.len(),
{
    if council.len() == 0 || council[0].1 > now {
        0
    } else {
        1 + expired_prefix(council.skip(1), now)
    }
}

/// The accounts of the first `n` members.
pub open spec fn accounts_of(council: Seq<(AccountId, BlockNumber)>, n: int) -> Seq<AccountId> {
    Seq::new(n as nat, |i: int| council[i].0)
}

/// A board of `n` empty places.
pub open spec fn empty_board(n: nat) -> Seq<Place> {
    Seq::new(n, |i: int| None::<(crate::Weight, AccountId)>)
}

impl State {
    /// The block at which a tally can happen that is no earlier than `n`.
    pub open spec fn next_vote_from(self, n: int) -> int {
        round_up(n, self.params.voting_period as int)
    }

    /// The block from which the next tally is counted: the end of the
    /// running tally, or `now`.
    pub open spec fn tally_base(self, now: BlockNumber) -> int {
        match self.tally {
            Some(tally) => tally.finalize_at as int,
            None => now as int,
        }
    }

    /// How many members the running tally can bring in; none without one.
    pub open spec fn seats_coming(self) -> int {
        match self.tally {
            Some(tally) => tally.empty_seats as int,
            None => 0,
        }
    }

    /// The size the council will have once the running tally is over, if
    /// every seat is filled.
    pub open spec fn seats_counted(self) -> int {
        match self.tally {
            Some(tally) => self.council.len() - tally.expiring.len() + tally.empty_seats,
            None => self.council.len() as int,
        }
    }

    /// The earliest block at which the council will be short of members:
    /// at once if it already is; a full term after the running tally if
    /// that tally alone fills every seat; else when the member expires
    /// whose leaving brings the council below the desired size.
    pub open spec fn next_vacancy(self, now: BlockNumber) -> int {
        let desired = self.params.desired_seats as int;
        if self.seats_counted() < desired {
            self.tally_base(now)
        } else if desired <= self.seats_coming() {
            self.tally_base(now) + self.params.term_duration
        } else {
            self.council[self.council.len() - (desired - self.seats_coming())].1 as int
        }
    }

    /// The block of the next tally; none if no seats are desired.
    pub open spec fn next_tally(self, now: BlockNumber) -> Option<int> {
        if self.params.desired_seats == 0 {
            None
        } else {
            Some(self.next_vote_from(self.next_vacancy(now)))
        }
    }

    /// How many seats a tally at `now` would have to fill: the desired
    /// size less the members whose seats outlast `now`.
    pub open spec fn seats_to_fill(self, now: BlockNumber) -> int {
        self.params.desired_seats - (self.council.len() - expired_prefix(self.council, now))
    }

    /// The state after a tally was asked to start at `now`. It starts only
    /// if there is a seat to fill; it then notes the members who leave and
    /// opens a board of empty places, one for each seat and each runner-up.
    pub open spec fn with_tally_started(self, now: BlockNumber) -> State {
        if self.seats_to_fill(now) > 0 {
            State {
                tally: Some(
                    TallyState {
                        finalize_at: (now + self.params.presentation_duration) as BlockNumber,
                        empty_seats: self.seats_to_fill(now) as u32,
                        expiring: accounts_of(self.council, expired_prefix(self.council, now)),
                        leaderboard: empty_board(
                            (self.seats_to_fill(now) + self.params.carry_count) as nat,
                        ),
                    },
                ),
                ..self
            }
        } else {
            self
        }
    }
}

/// Rounding up moves a block by less than one period, onto a multiple of
/// the period.
pub proof fn lemma_round_up(n: int, period: int)
    requires
        0 <= n,
        0 < period,
    ensures
        n <= round_up(n, period) < n + period,
        round_up(n, period) % period == 0,
        n % period == 0 ==> round_up(n, period) == n,
{
    let y = n + period - 1;
    lemma_fundamental_div_mod(y, period);
    assert((y / period) * period == period * (y / period)) by (nonlinear_arith);
    vstd::arithmetic::div_mod::lemma_mod_multiples_basic(y / period, period);
    if n % period == 0 {
        lemma_fundamental_div_mod(n, period);
        let q = n / period;
        vstd::arithmetic::div_mod::lemma_fundamental_div_mod_converse(y, period, q, period - 1);
    }
}

/// The expired prefix is a prefix: its members have expired, the member
/// behind it has not.
pub proof fn lemma_expired_prefix(council: Seq<(AccountId, BlockNumber)>, now: BlockNumber)
    ensures
        0 <= expired_prefix(council, now) <= council.len(),
        forall|i: int| 0 <= i < expired_prefix(council, now) ==> (#[trigger] council[i]).1 <= now,
        expired_prefix(council, now) < council.len() ==> council[expired_prefix(
            council,
            now,
        )].1 > now,
    decreases council.len(),
{
    if council.len() > 0 && council[0].1 <= now {
        let rest = council.skip(1);
        lemma_expired_prefix(rest, now);
        assert forall|i: int| 0 <= i < expired_prefix(council, now) implies (
        #[trigger] council[i]).1 <= now by {
            if i > 0 {
                assert(council[i] == rest[i - 1]);
            }
        }
    }
}

/// A position behind expired members only, whose own member has not
/// expired, is the expired prefix.
pub proof fn lemma_expired_prefix_is(
    council: Seq<(AccountId, BlockNumber)>,
    now: BlockNumber,
    k: int,
)
    requires
        0 <= k <= council.len(),
        forall|i: int| 0 <= i < k ==> (#[trigger] council[i]).1 <= now,
        k < council.len() ==> council[k].1 > now,
    ensures
        expired_prefix(council, now) == k,
{
    lemma_expired_prefix(council, now);
}

/// Starting a tally keeps the invariant. A tally that starts fills, with
/// the members who stay, exactly the desired seats.
pub proof fn lemma_with_tally_started_wf(s: State, now: BlockNumber)
    requires
        s.wf(),
    ensures
        s.with_tally_started(now).wf(),
        s.seats_to_fill(now) > 0 ==> {
            let t = s.with_tally_started(now).tally->0;
            &&& t.expiring.len() <= s.council.len()
            &&& s.council.len() - t.expiring.len() + t.empty_seats == s.params.desired_seats
            &&& t.leaderboard.len() == t.empty_seats + s.params.carry_count
        },
{
    lemma_expired_prefix(s.council, now);
}

impl Module {
    /// The block at which a tally can happen that is no earlier than `n`.
    pub fn next_vote_from(&self, n: BlockNumber) -> (r: BlockNumber)
        requires
            self.wf(),
            self@.next_vote_from(n as int) <= u64::MAX,
        ensures
            r == self@.next_vote_from(n as int),
    {
        let wide: u128 = round_up_wide(n as u128, self.params.voting_period);
        wide as u64
    }

    /// The block of the next tally. There is none if no seats are desired,
    /// or if that block lies beyond the last block number.
    pub fn next_tally(&self, now: BlockNumber) -> (r: Option<BlockNumber>)
        requires
            self.wf(),
        ensures
            r == match self@.next_tally(now) {
                Some(block) => if block <= u64::MAX {
                    Some(block as BlockNumber)
                } else {
                    None
                },
                None => None,
            },
    {
        let desired: u128 = self.params.desired_seats as u128;
        if desired == 0 {
            return None;
        }
        let members: u128 = self.active_council.len() as u128;
        let base: u128;
        let coming: u128;
        let short: bool;
        match &self.tally {
            Some(tally) => {
                base = tally.finalize_at as u128;
                coming = tally.empty_seats as u128;
                short = members + coming < desired + tally.expiring.len() as u128;
            },
            None => {
                base = now as u128;
                coming = 0;
                short = members < desired;
            },
        }
        let vacancy: u128 = if short {
            base
        } else if desired <= coming {
            base + self.params.term_duration as u128
        } else {
            let staying: usize = (desired - coming) as usize;
            self.active_council[self.active_council.len() - staying].1 as u128
        };
        let block: u128 = round_up_wide(vacancy, self.params.voting_period);
        if block <= u64::MAX as u128 {
            Some(block as u64)
        } else {
            None
        }
    }

    /// How many members at the front of the council have a seat that
    /// expires at `now` or earlier.
    pub fn count_expired(&self, now: BlockNumber) -> (r: usize)
        ensures
            r == expired_prefix(self@.council, now),
    {
        let mut k: usize = 0;
        while k < self.active_council.len() && self.active_council[k].1 <= now
            invariant
                k <= self.active_council.len(),
                forall|i: int| 0 <= i < k ==> (#[trigger] self.active_council@[i]).1 <= now,
            decreases self.active_council.len() - k,
        {
            k = k + 1;
        }
        proof {
            lemma_expired_prefix_is(self.active_council@, now, k as int);
        }
        k
    }

    /// Closes the voting at block `now`: if the members whose seats outlast
    /// `now` are fewer than desired, notes who leaves and opens the board.
    /// Returns the number of seats to fill, if a tally has started.
    pub fn start_tally(&mut self, now: BlockNumber) -> (r: Option<u32>)
        requires
            old(self).wf(),
            now + old(self)@.params.presentation_duration <= u64::MAX,
        ensures
            final(self).wf(),
            final(self)@ == old(self)@.with_tally_started(now),
            r == if old(self)@.seats_to_fill(now) > 0 {
                Some(old(self)@.seats_to_fill(now) as u32)
            } else {
                None
            },
    {
        proof {
            lemma_with_tally_started_wf(self@, now);
        }
        let leaving: usize = self.count_expired(now);
        let retaining: usize = self.active_council.len() - leaving;
        let desired: usize = self.params.desired_seats as usize;
        if retaining >= desired {
            return None;
        }
        let empty_seats: u32 = (desired - retaining) as u32;
        let mut expiring: Vec<AccountId> = Vec::new();
        let mut i: usize = 0;
        while i < leaving
            invariant
                i <= leaving <= self.active_council.len(),
                expiring@ == accounts_of(self.active_council@, i as int),
            decreases leaving - i,
        {
            expiring.push(self.active_council[i].0);
            i = i + 1;
        }
        let places: u64 = empty_seats as u64 + self.params.carry_count as u64;
        let mut leaderboard: Vec<Place> = Vec::new();
        let mut j: u64 = 0;
        while j < places
            invariant
                j <= places,
                leaderboard@ == empty_board(j as nat),
            decreases places - j,
        {
            leaderboard.push(None);
            j = j + 1;
        }
        self.tally = Some(
            Tally {
                finalize_at: now + self.params.presentation_duration,
                empty_seats,
                expiring,
                leaderboard,
            },
        );
        Some(empty_seats)
    }
}

/// The least multiple of `period` that is no less than `n`, in a width in
/// which it cannot overflow.
fn round_up_wide(n: u128, period: BlockNumber) -> (r: u128)
    requires
        period > 0,
        n <= 0x2_0000_0000_0000_0000,
    ensures
        r == round_up(n as int, period as int),
{
    let wide: u128 = period as u128;
    proof {
        lemma_round_up(n as int, period as int);
    }
    (n + wide - 1) / wide * wide
}

} // verus!

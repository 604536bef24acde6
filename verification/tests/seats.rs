use council::host::Event;
use council::host::Trait;
use council::model::Params;
use council::model::VoterActivity;
use council::seats::Module;
use std::collections::HashMap;

// A small ledger to host the module: balances with reserves and locks,
// proxies, and a log of events.
#[derive(Clone, Debug, PartialEq)]
struct Ledger {
    free: HashMap<u64, u64>,
    reserved: HashMap<u64, u64>,
    locks: HashMap<([u8; 8], u64), u64>,
    proxies: HashMap<u64, u64>,
    events: Vec<String>,
}

impl Ledger {
    fn new(balance_factor: u64) -> Ledger {
        let mut free = HashMap::new();
        for who in 1..=6u64 {
            free.insert(who, 10 * who * balance_factor);
        }
        Ledger {
            free,
            reserved: HashMap::new(),
            locks: HashMap::new(),
            proxies: HashMap::new(),
            events: Vec::new(),
        }
    }

    fn free_balance(&self, who: &u64) -> u64 {
        *self.free.get(who).unwrap_or(&0)
    }

    fn reserved_balance(&self, who: &u64) -> u64 {
        *self.reserved.get(who).unwrap_or(&0)
    }

    fn make_free_balance_be(&mut self, who: &u64, value: u64) {
        self.free.insert(*who, value);
    }

    fn try_reserve(&mut self, who: &u64, value: u64) -> Result<(), &'static str> {
        let free = self.free_balance(who);
        if free < value {
            return Err("not enough free funds");
        }
        let left = free - value;
        for ((_, owner), amount) in self.locks.iter() {
            if owner == who && left < *amount {
                return Err("account liquidity restrictions prevent withdrawal");
            }
        }
        self.free.insert(*who, left);
        let reserved = self.reserved_balance(who);
        self.reserved.insert(*who, reserved + value);
        Ok(())
    }

    fn force_proxy(&mut self, principal: u64, delegate: u64) {
        self.proxies.insert(delegate, principal);
    }
}

impl Trait for Ledger {
    fn total_balance(&self, who: u64) -> u64 {
        self.free_balance(&who) + self.reserved_balance(&who)
    }

    fn can_slash(&self, who: u64, value: u64) -> bool {
        self.free_balance(&who) >= value
    }

    fn reserve(&mut self, who: u64, value: u64) -> bool {
        self.try_reserve(&who, value).is_ok()
    }

    fn unreserve(&mut self, who: u64, value: u64) {
        let reserved = self.reserved_balance(&who);
        let actual = reserved.min(value);
        self.reserved.insert(who, reserved - actual);
        let free = self.free_balance(&who);
        self.free.insert(who, free + actual);
    }

    fn set_lock(&mut self, id: [u8; 8], who: u64, amount: u64) {
        self.locks.insert((id, who), amount);
    }

    fn remove_lock(&mut self, id: [u8; 8], who: u64) {
        self.locks.remove(&(id, who));
    }

    fn repatriate_reserved(&mut self, slashed: u64, beneficiary: u64, value: u64) -> bool {
        if self.total_balance(beneficiary) == 0 {
            return false;
        }
        let reserved = self.reserved_balance(&slashed);
        let moved = reserved.min(value);
        self.reserved.insert(slashed, reserved - moved);
        let free = self.free_balance(&beneficiary);
        self.free.insert(beneficiary, free + moved);
        true
    }

    fn slash_bad_presentation(&mut self, who: u64, value: u64) {
        let free = self.free_balance(&who);
        let from_free = free.min(value);
        self.free.insert(who, free - from_free);
        let reserved = self.reserved_balance(&who);
        let from_reserved = reserved.min(value - from_free);
        self.reserved.insert(who, reserved - from_reserved);
    }

    fn slash_bad_reaper(&mut self, who: u64, value: u64) {
        let reserved = self.reserved_balance(&who);
        self.reserved.insert(who, reserved - reserved.min(value));
    }

    fn proxy(&self, delegate: u64) -> Option<u64> {
        self.proxies.get(&delegate).copied()
    }

    fn deposit_event(&mut self, event: Event) {
        self.events.push(format!("{:?}", event));
    }
}

// Everything of the module that can be read, to tell whether a refused
// operation has left it as it was.
#[derive(Debug, PartialEq)]
struct Snapshot {
    council: Vec<(u64, u64)>,
    vote_index: u32,
    voters: Vec<(u64, u64)>,
    candidates: Vec<u64>,
    candidate_count: u64,
    desired_seats: u32,
    next_finalize: Option<(u64, u32, Vec<u64>)>,
    leaderboard: Option<Vec<(u128, u64)>>,
    accounts: Vec<(Vec<bool>, Option<(u32, u32)>, Option<VoterActivity>, Option<u128>)>,
    ledger: Ledger,
}

struct Ext {
    council: Module,
    balances: Ledger,
    block: u64,
}

struct ExtBuilder {
    balance_factor: u64,
    decay_ratio: u32,
    slots: Vec<Option<u64>>,
}

impl ExtBuilder {
    fn default() -> ExtBuilder {
        ExtBuilder { balance_factor: 1, decay_ratio: 24, slots: Vec::new() }
    }

    fn balance_factor(mut self, factor: u64) -> ExtBuilder {
        self.balance_factor = factor;
        self
    }

    fn decay_ratio(mut self, ratio: u32) -> ExtBuilder {
        self.decay_ratio = ratio;
        self
    }

    fn slots(mut self, slots: Vec<Option<u64>>) -> ExtBuilder {
        self.slots = slots;
        self
    }

    fn build(self) -> Ext {
        let params = Params {
            candidacy_bond: 3,
            voting_bond: 2,
            present_slash_per_voter: 1,
            carry_count: 2,
            presentation_duration: 2,
            inactivity_grace_period: 1,
            voting_period: 4,
            term_duration: 5,
            desired_seats: 2,
            decay_ratio: self.decay_ratio,
        };
        Ext {
            council: Module::genesis(params, Vec::new(), self.slots).unwrap(),
            balances: Ledger::new(self.balance_factor),
            block: 0,
        }
    }
}

fn new_test_ext_with_candidate_holes() -> Ext {
    ExtBuilder::default().slots(vec![None, None, Some(1)]).build()
}

impl Ext {
    fn set_block_number(&mut self, n: u64) {
        self.block = n;
    }

    fn block_number(&self) -> u64 {
        self.block
    }

    fn snapshot(&self) -> Snapshot {
        let mut accounts = Vec::new();
        for who in 0..20u64 {
            accounts.push((
                self.council.approvals_of(who),
                self.council.candidate_reg_info(who),
                self.council.voter_activity(who),
                self.council.offset_pot(who),
            ));
        }
        Snapshot {
            council: self.council.active_council(),
            vote_index: self.council.vote_index(),
            voters: self.council.voters(),
            candidates: self.council.candidates(),
            candidate_count: self.council.candidate_count(),
            desired_seats: self.council.desired_seats(),
            next_finalize: self.council.next_finalize(),
            leaderboard: self.council.leaderboard(),
            accounts,
            ledger: self.balances.clone(),
        }
    }

    fn voter_ids(&self) -> Vec<u64> {
        self.council.voters().iter().map(|v| v.0).collect::<Vec<u64>>()
    }

    fn voter_index(&self, who: u64) -> u32 {
        self.voter_ids().iter().position(|&i| i == who).unwrap() as u32
    }

    fn submit_candidacy(&mut self, who: u64, slot: u32) -> Result<(), &'static str> {
        self.council.submit_candidacy(&mut self.balances, who, slot).map_err(|e| e.as_str())
    }

    fn set_approvals(&mut self, who: u64, votes: Vec<bool>, index: u32) -> Result<(), &'static str> {
        self.council.set_approvals(&mut self.balances, who, votes, index).map_err(|e| e.as_str())
    }

    fn proxy_set_approvals(
        &mut self,
        delegate: u64,
        votes: Vec<bool>,
        index: u32,
    ) -> Result<(), &'static str> {
        self.council
            .proxy_set_approvals(&mut self.balances, delegate, votes, index)
            .map_err(|e| e.as_str())
    }

    fn retract_voter(&mut self, who: u64, index: u32) -> Result<(), &'static str> {
        self.council.retract_voter(&mut self.balances, who, index).map_err(|e| e.as_str())
    }

    fn reap_inactive_voter(
        &mut self,
        reporter: u64,
        reporter_index: u32,
        who: u64,
        who_index: u32,
        assumed_vote_index: u32,
    ) -> Result<(), &'static str> {
        self.council
            .reap_inactive_voter(
                &mut self.balances,
                reporter,
                reporter_index,
                who,
                who_index,
                assumed_vote_index,
            )
            .map_err(|e| e.as_str())
    }

    fn present_winner(
        &mut self,
        presenter: u64,
        candidate: u64,
        total: u128,
        index: u32,
    ) -> Result<(), &'static str> {
        self.council
            .present_winner(&mut self.balances, presenter, candidate, total, index)
            .map_err(|e| e.as_str())
    }

    fn set_desired_seats(&mut self, count: u32) -> Result<(), &'static str> {
        self.council.set_desired_seats(count);
        Ok(())
    }

    fn end_block(&mut self, n: u64) -> Result<(), &'static str> {
        let params_fit = n.checked_add(self.council.presentation_duration()).is_some()
            && n.checked_add(self.council.term_duration()).is_some()
            && self.council.vote_index() < u32::MAX;
        assert!(params_fit);
        self.council.end_block(&mut self.balances, n).map_err(|e| e.as_str())
    }
}

fn assert_ok(result: Result<(), &'static str>) {
    assert_eq!(result, Ok(()));
}

fn assert_err(result: Result<(), &'static str>, message: &'static str) {
    assert_eq!(result, Err(message));
}

// Runs `call`, and checks that it fails with `message` and changes nothing.
fn assert_noop<F>(t: &mut Ext, call: F, message: &'static str)
where
    F: FnOnce(&mut Ext) -> Result<(), &'static str>,
{
    let before = t.snapshot();
    assert_eq!(call(t), Err(message));
    assert_eq!(t.snapshot(), before);
}

#[test]
fn params_should_work() {
    let mut t = ExtBuilder::default().build();
    t.set_block_number(1);
    assert_eq!(t.council.next_vote_from(1), 4);
    assert_eq!(t.council.next_vote_from(4), 4);
    assert_eq!(t.council.next_vote_from(5), 8);
    assert_eq!(t.council.vote_index(), 0);
    assert_eq!(t.council.candidacy_bond(), 3);
    assert_eq!(t.council.voting_bond(), 2);
    assert_eq!(t.council.present_slash_per_voter(), 1);
    assert_eq!(t.council.presentation_duration(), 2);
    assert_eq!(t.council.inactivity_grace_period(), 1);
    assert_eq!(t.council.voting_period(), 4);
    assert_eq!(t.council.term_duration(), 5);
    assert_eq!(t.council.desired_seats(), 2);
    assert_eq!(t.council.carry_count(), 2);

    assert_eq!(t.council.active_council(), vec![]);
    assert_eq!(t.council.next_tally(t.block_number()), Some(4));
    assert_eq!(t.council.presentation_active(), false);
    assert_eq!(t.council.next_finalize(), None);

    assert_eq!(t.council.candidates(), Vec::<u64>::new());
    assert_eq!(t.council.is_a_candidate(&1), false);
    assert_eq!(t.council.candidate_reg_info(1), None);

    assert_eq!(t.council.voters(), Vec::<(u64, u64)>::new());
    assert_eq!(t.council.voter_activity(1), None);
    assert_eq!(t.council.offset_pot(1), None);
    assert_eq!(t.council.approvals_of(1), vec![]);
}

#[test]
fn simple_candidate_submission_should_work() {
    let mut t = ExtBuilder::default().build();
    t.set_block_number(1);
    assert_eq!(t.council.candidates(), Vec::<u64>::new());
    assert_eq!(t.council.candidate_reg_info(1), None);
    assert_eq!(t.council.candidate_reg_info(2), None);
    assert_eq!(t.council.is_a_candidate(&1), false);
    assert_eq!(t.council.is_a_candidate(&2), false);

    assert_ok(t.submit_candidacy(1, 0));
    assert_eq!(t.council.candidates(), vec![1]);
    assert_eq!(t.council.candidate_reg_info(1), Some((0, 0)));
    assert_eq!(t.council.candidate_reg_info(2), None);
    assert_eq!(t.council.is_a_candidate(&1), true);
    assert_eq!(t.council.is_a_candidate(&2), false);

    assert_ok(t.submit_candidacy(2, 1));
    assert_eq!(t.council.candidates(), vec![1, 2]);
    assert_eq!(t.council.candidate_reg_info(1), Some((0, 0)));
    assert_eq!(t.council.candidate_reg_info(2), Some((0, 1)));
    assert_eq!(t.council.is_a_candidate(&1), true);
    assert_eq!(t.council.is_a_candidate(&2), true);
}

#[test]
fn candidate_submission_using_free_slot_should_work() {
    let mut t = new_test_ext_with_candidate_holes();
    t.set_block_number(1);
    assert_eq!(t.council.candidates(), vec![0, 0, 1]);

    assert_ok(t.submit_candidacy(2, 1));
    assert_eq!(t.council.candidates(), vec![0, 2, 1]);

    assert_ok(t.submit_candidacy(3, 0));
    assert_eq!(t.council.candidates(), vec![3, 2, 1]);
}

#[test]
fn candidate_submission_using_alternative_free_slot_should_work() {
    let mut t = new_test_ext_with_candidate_holes();
    t.set_block_number(1);
    assert_eq!(t.council.candidates(), vec![0, 0, 1]);

    assert_ok(t.submit_candidacy(2, 0));
    assert_eq!(t.council.candidates(), vec![2, 0, 1]);

    assert_ok(t.submit_candidacy(3, 1));
    assert_eq!(t.council.candidates(), vec![2, 3, 1]);
}

#[test]
fn candidate_submission_not_using_free_slot_should_not_work() {
    let mut t = new_test_ext_with_candidate_holes();
    t.set_block_number(1);
    assert_noop(&mut t, |t| t.submit_candidacy(4, 3), "invalid candidate slot");
}

#[test]
fn bad_candidate_slot_submission_should_not_work() {
    let mut t = ExtBuilder::default().build();
    t.set_block_number(1);
    assert_eq!(t.council.candidates(), Vec::<u64>::new());
    assert_noop(&mut t, |t| t.submit_candidacy(1, 1), "invalid candidate slot");
}

#[test]
fn non_free_candidate_slot_submission_should_not_work() {
    let mut t = ExtBuilder::default().build();
    t.set_block_number(1);
    assert_eq!(t.council.candidates(), Vec::<u64>::new());
    assert_ok(t.submit_candidacy(1, 0));
    assert_eq!(t.council.candidates(), vec![1]);
    assert_noop(&mut t, |t| t.submit_candidacy(2, 0), "invalid candidate slot");
}

#[test]
fn dupe_candidate_submission_should_not_work() {
    let mut t = ExtBuilder::default().build();
    t.set_block_number(1);
    assert_eq!(t.council.candidates(), Vec::<u64>::new());
    assert_ok(t.submit_candidacy(1, 0));
    assert_eq!(t.council.candidates(), vec![1]);
    assert_noop(&mut t, |t| t.submit_candidacy(1, 1), "duplicate candidate submission");
}

#[test]
fn poor_candidate_submission_should_not_work() {
    let mut t = ExtBuilder::default().build();
    t.set_block_number(1);
    assert_eq!(t.council.candidates(), Vec::<u64>::new());
    assert_noop(&mut t, |t| t.submit_candidacy(7, 0), "candidate has not enough funds");
}

#[test]
fn balance_should_lock_on_submit_approvals_unlock_on_retract() {
    let mut t = ExtBuilder::default().build();
    t.set_block_number(1);
    assert_eq!(t.council.candidates(), Vec::<u64>::new());
    assert_eq!(t.balances.free_balance(&2), 20);

    assert_ok(t.submit_candidacy(5, 0));
    assert_ok(t.set_approvals(2, vec![true], 0));

    assert_eq!(t.balances.free_balance(&2), 18); // 20 - 2 (bond)
    assert_noop(
        &mut t,
        |t| t.balances.try_reserve(&2, 10),
        "account liquidity restrictions prevent withdrawal",
    ); // locked.

    assert_ok(t.retract_voter(2, 0));

    assert_eq!(t.balances.free_balance(&2), 20);
    assert_ok(t.balances.try_reserve(&2, 10)); // unlocked.
}

#[test]
fn accumulating_weight_and_decaying_works() {
    let mut t = ExtBuilder::default().balance_factor(10).build();
    t.set_block_number(4);
    assert!(!t.council.presentation_active());

    assert_ok(t.submit_candidacy(6, 0));
    assert_ok(t.submit_candidacy(5, 1));
    assert_ok(t.submit_candidacy(1, 2));

    assert_ok(t.set_approvals(6, vec![true, false, false], 0));
    assert_ok(t.set_approvals(5, vec![false, true, false], 0));
    assert_ok(t.set_approvals(1, vec![false, false, true], 0));

    assert_ok(t.end_block(t.block_number()));

    t.set_block_number(6);
    assert!(t.council.presentation_active());

    assert_eq!(t.present_winner(6, 6, 600, 0), Ok(()));
    assert_eq!(t.present_winner(5, 5, 500, 0), Ok(()));
    assert_eq!(t.present_winner(1, 1, 100, 0), Ok(()));
    assert_eq!(t.council.leaderboard(), Some(vec![(0, 0), (100, 1), (500, 5), (600, 6)]));
    assert_ok(t.end_block(t.block_number()));

    assert_eq!(t.council.active_council(), vec![(6, 11), (5, 11)]);
    assert_eq!(t.council.voter_activity(6).unwrap(), VoterActivity { last_win: 1, last_active: 0 });
    assert_eq!(t.council.voter_activity(5).unwrap(), VoterActivity { last_win: 1, last_active: 0 });
    assert_eq!(t.council.voter_activity(1).unwrap(), VoterActivity { last_win: 0, last_active: 0 });

    t.set_block_number(12);
    // retract needed to unlock approval funds => submit candidacy again.
    assert_ok(t.retract_voter(6, 0));
    assert_ok(t.retract_voter(5, 1));
    assert_ok(t.submit_candidacy(6, 0));
    assert_ok(t.submit_candidacy(5, 1));
    assert_ok(t.set_approvals(6, vec![true, false, false], 1));
    assert_ok(t.set_approvals(5, vec![false, true, false], 1));
    assert_ok(t.end_block(t.block_number()));

    t.set_block_number(14);
    assert!(t.council.presentation_active());
    assert_eq!(t.present_winner(6, 6, 600, 1), Ok(()));
    assert_eq!(t.present_winner(5, 5, 500, 1), Ok(()));
    assert_eq!(t.present_winner(1, 1, 100 + t.council.get_offset(100, 1), 1), Ok(()));
    assert_eq!(t.council.leaderboard(), Some(vec![(0, 0), (100 + 96, 1), (500, 5), (600, 6)]));
    assert_ok(t.end_block(t.block_number()));

    assert_eq!(t.council.active_council(), vec![(6, 19), (5, 19)]);
    assert_eq!(t.council.voter_activity(6).unwrap(), VoterActivity { last_win: 2, last_active: 1 });
    assert_eq!(t.council.voter_activity(5).unwrap(), VoterActivity { last_win: 2, last_active: 1 });
    assert_eq!(t.council.voter_activity(1).unwrap(), VoterActivity { last_win: 0, last_active: 0 });

    t.set_block_number(20);
    assert_ok(t.retract_voter(6, 1));
    assert_ok(t.retract_voter(5, 1));
    assert_ok(t.submit_candidacy(6, 0));
    assert_ok(t.submit_candidacy(5, 1));
    assert_ok(t.set_approvals(6, vec![true, false, false], 2));
    assert_ok(t.set_approvals(5, vec![false, true, false], 2));
    assert_ok(t.end_block(t.block_number()));

    t.set_block_number(22);
    assert!(t.council.presentation_active());
    assert_eq!(t.present_winner(6, 6, 600, 2), Ok(()));
    assert_eq!(t.present_winner(5, 5, 500, 2), Ok(()));
    assert_eq!(t.present_winner(1, 1, 100 + t.council.get_offset(100, 2), 2), Ok(()));
    assert_eq!(
        t.council.leaderboard(),
        Some(vec![(0, 0), (100 + 96 + 93, 1), (500, 5), (600, 6)])
    );
    assert_ok(t.end_block(t.block_number()));

    assert_eq!(t.council.active_council(), vec![(6, 27), (5, 27)]);
    assert_eq!(t.council.voter_activity(6).unwrap(), VoterActivity { last_win: 3, last_active: 2 });
    assert_eq!(t.council.voter_activity(5).unwrap(), VoterActivity { last_win: 3, last_active: 2 });
    assert_eq!(t.council.voter_activity(1).unwrap(), VoterActivity { last_win: 0, last_active: 0 });

    t.set_block_number(28);
    assert_ok(t.retract_voter(6, 1));
    assert_ok(t.retract_voter(5, 1));
    assert_ok(t.submit_candidacy(6, 0));
    assert_ok(t.submit_candidacy(5, 1));
    assert_ok(t.set_approvals(6, vec![true, false, false], 3));
    assert_ok(t.set_approvals(5, vec![false, true, false], 3));
    assert_ok(t.end_block(t.block_number()));

    t.set_block_number(30);
    assert!(t.council.presentation_active());
    assert_eq!(t.present_winner(6, 6, 600, 3), Ok(()));
    assert_eq!(t.present_winner(5, 5, 500, 3), Ok(()));
    assert_eq!(t.present_winner(1, 1, 100 + t.council.get_offset(100, 3), 3), Ok(()));
    assert_eq!(
        t.council.leaderboard(),
        Some(vec![(0, 0), (100 + 96 + 93 + 90, 1), (500, 5), (600, 6)])
    );
    assert_ok(t.end_block(t.block_number()));

    assert_eq!(t.council.active_council(), vec![(6, 35), (5, 35)]);
    assert_eq!(t.council.voter_activity(6).unwrap(), VoterActivity { last_win: 4, last_active: 3 });
    assert_eq!(t.council.voter_activity(5).unwrap(), VoterActivity { last_win: 4, last_active: 3 });
    assert_eq!(t.council.voter_activity(1).unwrap(), VoterActivity { last_win: 0, last_active: 0 });
}

#[test]
fn winning_resets_accumulated_pot() {
    let mut t = ExtBuilder::default().balance_factor(10).build();
    t.set_block_number(4);
    assert!(!t.council.presentation_active());

    assert_ok(t.submit_candidacy(6, 0));
    assert_ok(t.submit_candidacy(4, 1));
    assert_ok(t.submit_candidacy(3, 2));
    assert_ok(t.submit_candidacy(2, 3));

    assert_ok(t.set_approvals(6, vec![true, false, false, false], 0));
    assert_ok(t.set_approvals(4, vec![false, true, false, false], 0));
    assert_ok(t.set_approvals(3, vec![false, false, true, true], 0));
    assert_ok(t.end_block(t.block_number()));

    t.set_block_number(6);
    assert!(t.council.presentation_active());
    assert_eq!(t.present_winner(6, 6, 600, 0), Ok(()));
    assert_eq!(t.present_winner(4, 4, 400, 0), Ok(()));
    assert_eq!(t.present_winner(3, 3, 300, 0), Ok(()));
    assert_eq!(t.present_winner(2, 2, 300, 0), Ok(()));
    assert_eq!(t.council.leaderboard(), Some(vec![(300, 2), (300, 3), (400, 4), (600, 6)]));
    assert_ok(t.end_block(t.block_number()));

    assert_eq!(t.council.active_council(), vec![(6, 11), (4, 11)]);

    t.set_block_number(12);
    assert_ok(t.retract_voter(6, 0));
    assert_ok(t.retract_voter(4, 1));
    assert_ok(t.submit_candidacy(6, 0));
    assert_ok(t.submit_candidacy(4, 1));
    assert_ok(t.set_approvals(6, vec![true, false, false, false], 1));
    assert_ok(t.set_approvals(4, vec![false, true, false, false], 1));
    assert_ok(t.end_block(t.block_number()));

    t.set_block_number(14);
    assert!(t.council.presentation_active());
    assert_eq!(t.present_winner(6, 6, 600, 1), Ok(()));
    assert_eq!(t.present_winner(4, 4, 400, 1), Ok(()));
    assert_eq!(t.present_winner(3, 3, 300 + t.council.get_offset(300, 1), 1), Ok(()));
    assert_eq!(t.present_winner(2, 2, 300 + t.council.get_offset(300, 1), 1), Ok(()));
    assert_eq!(t.council.leaderboard(), Some(vec![(400, 4), (588, 2), (588, 3), (600, 6)]));
    assert_ok(t.end_block(t.block_number()));

    assert_eq!(t.council.active_council(), vec![(6, 19), (3, 19)]);

    t.set_block_number(20);
    assert_ok(t.end_block(t.block_number()));

    t.set_block_number(22);
    // 2 will not get re-elected with 300 + 288, instead just 300.
    // because one of 3's candidates (3) won in previous round
    // 4 on the other hand will get extra weight since it was unlucky.
    assert_eq!(t.present_winner(3, 2, 300, 2), Ok(()));
    assert_eq!(t.present_winner(4, 4, 400 + t.council.get_offset(400, 1), 2), Ok(()));
    assert_ok(t.end_block(t.block_number()));

    assert_eq!(t.council.active_council(), vec![(4, 27), (2, 27)]);
}

#[test]
fn resubmitting_approvals_stores_pot() {
    let mut t = ExtBuilder::default().balance_factor(10).build();
    t.set_block_number(4);
    assert!(!t.council.presentation_active());

    assert_ok(t.submit_candidacy(6, 0));
    assert_ok(t.submit_candidacy(5, 1));
    assert_ok(t.submit_candidacy(1, 2));

    assert_ok(t.set_approvals(6, vec![true, false, false], 0));
    assert_ok(t.set_approvals(5, vec![false, true, false], 0));
    assert_ok(t.set_approvals(1, vec![false, false, true], 0));

    assert_ok(t.end_block(t.block_number()));

    t.set_block_number(6);
    assert!(t.council.presentation_active());

    assert_eq!(t.present_winner(6, 6, 600, 0), Ok(()));
    assert_eq!(t.present_winner(5, 5, 500, 0), Ok(()));
    assert_eq!(t.present_winner(1, 1, 100, 0), Ok(()));
    assert_eq!(t.council.leaderboard(), Some(vec![(0, 0), (100, 1), (500, 5), (600, 6)]));
    assert_ok(t.end_block(t.block_number()));

    assert_eq!(t.council.active_council(), vec![(6, 11), (5, 11)]);

    t.set_block_number(12);
    assert_ok(t.retract_voter(6, 0));
    assert_ok(t.retract_voter(5, 1));
    assert_ok(t.submit_candidacy(6, 0));
    assert_ok(t.submit_candidacy(5, 1));
    assert_ok(t.set_approvals(6, vec![true, false, false], 1));
    assert_ok(t.set_approvals(5, vec![false, true, false], 1));
    // give 1 some new high balance
    t.balances.make_free_balance_be(&1, 995); // + 5 reserved => 1000
    assert_ok(t.set_approvals(1, vec![false, false, true], 1));
    assert_eq!(t.council.offset_pot(1).unwrap(), t.council.get_offset(100, 1));
    assert_ok(t.end_block(t.block_number()));

    assert_eq!(t.council.active_council(), vec![(6, 11), (5, 11)]);

    t.set_block_number(14);
    assert!(t.council.presentation_active());
    assert_eq!(t.present_winner(6, 6, 600, 1), Ok(()));
    assert_eq!(t.present_winner(5, 5, 500, 1), Ok(()));
    assert_eq!(t.present_winner(1, 1, 1000 + 96 /* pot */, 1), Ok(()));
    assert_eq!(t.council.leaderboard(), Some(vec![(0, 0), (500, 5), (600, 6), (1096, 1)]));
    assert_ok(t.end_block(t.block_number()));

    assert_eq!(t.council.active_council(), vec![(1, 19), (6, 19)]);
}

#[test]
fn get_offset_works() {
    let t = ExtBuilder::default().build();
    assert_eq!(t.council.get_offset(100, 0), 0);
    assert_eq!(t.council.get_offset(100, 1), 96);
    assert_eq!(t.council.get_offset(100, 2), 96 + 93);
    assert_eq!(t.council.get_offset(100, 3), 96 + 93 + 90);
    assert_eq!(t.council.get_offset(100, 4), 96 + 93 + 90 + 87);
    // limit
    assert_eq!(t.council.get_offset(100, 1000), 100 * 24);

    assert_eq!(t.council.get_offset(50_000_000_000, 0), 0);
    assert_eq!(t.council.get_offset(50_000_000_000, 1), 48_000_000_000);
    assert_eq!(t.council.get_offset(50_000_000_000, 2), 48_000_000_000 + 46_080_000_000);
    assert_eq!(
        t.council.get_offset(50_000_000_000, 3),
        48_000_000_000 + 46_080_000_000 + 44_236_800_000
    );
    assert_eq!(
        t.council.get_offset(50_000_000_000, 4),
        48_000_000_000 + 46_080_000_000 + 44_236_800_000 + 42_467_328_000
    );
    // limit
    assert_eq!(t.council.get_offset(50_000_000_000, 1000), 50_000_000_000 * 24);
}

#[test]
fn get_offset_with_zero_decay() {
    let t = ExtBuilder::default().decay_ratio(0).build();
    assert_eq!(t.council.get_offset(100, 0), 0);
    assert_eq!(t.council.get_offset(100, 1), 0);
    assert_eq!(t.council.get_offset(100, 2), 0);
    assert_eq!(t.council.get_offset(100, 3), 0);
    // limit
    assert_eq!(t.council.get_offset(100, 1000), 0);
}

#[test]
fn voting_should_work() {
    let mut t = ExtBuilder::default().build();
    t.set_block_number(1);

    assert_ok(t.submit_candidacy(5, 0));

    assert_ok(t.set_approvals(1, vec![true], 0));
    assert_ok(t.set_approvals(4, vec![true], 0));

    assert_eq!(t.council.approvals_of(1), vec![true]);
    assert_eq!(t.council.approvals_of(4), vec![true]);
    assert_eq!(t.voter_ids(), vec![1, 4]);

    assert_ok(t.submit_candidacy(2, 1));
    assert_ok(t.submit_candidacy(3, 2));

    assert_ok(t.set_approvals(2, vec![false, true, true], 0));
    assert_ok(t.set_approvals(3, vec![false, true, true], 0));

    assert_eq!(t.council.approvals_of(1), vec![true]);
    assert_eq!(t.council.approvals_of(4), vec![true]);
    assert_eq!(t.council.approvals_of(2), vec![false, true, true]);
    assert_eq!(t.council.approvals_of(3), vec![false, true, true]);

    assert_eq!(t.voter_ids(), vec![1, 4, 2, 3]);
}

#[test]
fn proxy_voting_should_work() {
    let mut t = ExtBuilder::default().build();
    t.set_block_number(1);

    assert_ok(t.submit_candidacy(5, 0));

    t.balances.force_proxy(1, 11);
    t.balances.force_proxy(2, 12);
    t.balances.force_proxy(3, 13);
    t.balances.force_proxy(4, 14);
    assert_ok(t.proxy_set_approvals(11, vec![true], 0));
    assert_ok(t.proxy_set_approvals(14, vec![true], 0));

    assert_eq!(t.council.approvals_of(1), vec![true]);
    assert_eq!(t.council.approvals_of(4), vec![true]);
    assert_eq!(t.voter_ids(), vec![1, 4]);

    assert_ok(t.submit_candidacy(2, 1));
    assert_ok(t.submit_candidacy(3, 2));

    assert_ok(t.proxy_set_approvals(12, vec![false, true, true], 0));
    assert_ok(t.proxy_set_approvals(13, vec![false, true, true], 0));

    assert_eq!(t.council.approvals_of(1), vec![true]);
    assert_eq!(t.council.approvals_of(4), vec![true]);
    assert_eq!(t.council.approvals_of(2), vec![false, true, true]);
    assert_eq!(t.council.approvals_of(3), vec![false, true, true]);

    assert_eq!(t.voter_ids(), vec![1, 4, 2, 3]);
}

#[test]
fn setting_any_approval_vote_count_without_any_candidate_count_should_not_work() {
    let mut t = ExtBuilder::default().build();
    t.set_block_number(1);

    assert_eq!(t.council.candidates().len(), 0);

    assert_noop(
        &mut t,
        |t| t.set_approvals(4, vec![], 0),
        "amount of candidates to receive approval votes should be non-zero",
    );
}

#[test]
fn setting_an_approval_vote_count_more_than_candidate_count_should_not_work() {
    let mut t = ExtBuilder::default().build();
    t.set_block_number(1);

    assert_ok(t.submit_candidacy(5, 0));
    assert_eq!(t.council.candidates().len(), 1);

    assert_noop(
        &mut t,
        |t| t.set_approvals(4, vec![true, true], 0),
        "amount of candidate approval votes cannot exceed amount of candidates",
    );
}

#[test]
fn resubmitting_voting_should_work() {
    let mut t = ExtBuilder::default().build();
    t.set_block_number(1);

    assert_ok(t.submit_candidacy(5, 0));
    assert_ok(t.set_approvals(4, vec![true], 0));

    assert_eq!(t.council.approvals_of(4), vec![true]);

    assert_ok(t.submit_candidacy(2, 1));
    assert_ok(t.submit_candidacy(3, 2));
    assert_eq!(t.council.candidates().len(), 3);
    assert_ok(t.set_approvals(4, vec![true, false, true], 0));

    assert_eq!(t.council.approvals_of(4), vec![true, false, true]);
}

#[test]
fn retracting_voter_should_work() {
    let mut t = ExtBuilder::default().build();
    t.set_block_number(1);

    assert_ok(t.submit_candidacy(5, 0));
    assert_ok(t.submit_candidacy(2, 1));
    assert_ok(t.submit_candidacy(3, 2));
    assert_eq!(t.council.candidates().len(), 3);

    assert_ok(t.set_approvals(1, vec![true], 0));
    assert_ok(t.set_approvals(2, vec![false, true, true], 0));
    assert_ok(t.set_approvals(3, vec![false, true, true], 0));
    assert_ok(t.set_approvals(4, vec![true, false, true], 0));

    assert_eq!(t.voter_ids(), vec![1, 2, 3, 4]);
    assert_eq!(t.council.approvals_of(1), vec![true]);
    assert_eq!(t.council.approvals_of(2), vec![false, true, true]);
    assert_eq!(t.council.approvals_of(3), vec![false, true, true]);
    assert_eq!(t.council.approvals_of(4), vec![true, false, true]);

    assert_ok(t.retract_voter(1, 0));

    assert_eq!(t.voter_ids(), vec![4, 2, 3]);
    assert_eq!(t.council.approvals_of(1), Vec::<bool>::new());
    assert_eq!(t.council.approvals_of(2), vec![false, true, true]);
    assert_eq!(t.council.approvals_of(3), vec![false, true, true]);
    assert_eq!(t.council.approvals_of(4), vec![true, false, true]);

    assert_ok(t.retract_voter(2, 1));

    assert_eq!(t.voter_ids(), vec![4, 3]);
    assert_eq!(t.council.approvals_of(1), Vec::<bool>::new());
    assert_eq!(t.council.approvals_of(2), Vec::<bool>::new());
    assert_eq!(t.council.approvals_of(3), vec![false, true, true]);
    assert_eq!(t.council.approvals_of(4), vec![true, false, true]);

    assert_ok(t.retract_voter(3, 1));

    assert_eq!(t.voter_ids(), vec![4]);
    assert_eq!(t.council.approvals_of(1), Vec::<bool>::new());
    assert_eq!(t.council.approvals_of(2), Vec::<bool>::new());
    assert_eq!(t.council.approvals_of(3), Vec::<bool>::new());
    assert_eq!(t.council.approvals_of(4), vec![true, false, true]);
}

#[test]
fn invalid_retraction_index_should_not_work() {
    let mut t = ExtBuilder::default().build();
    t.set_block_number(1);
    assert_ok(t.submit_candidacy(3, 0));
    assert_ok(t.set_approvals(1, vec![true], 0));
    assert_ok(t.set_approvals(2, vec![true], 0));
    assert_eq!(t.voter_ids(), vec![1, 2]);
    assert_noop(&mut t, |t| t.retract_voter(1, 1), "retraction index mismatch");
}

#[test]
fn overflow_retraction_index_should_not_work() {
    let mut t = ExtBuilder::default().build();
    t.set_block_number(1);
    assert_ok(t.submit_candidacy(3, 0));
    assert_ok(t.set_approvals(1, vec![true], 0));
    assert_noop(&mut t, |t| t.retract_voter(1, 1), "retraction index invalid");
}

#[test]
fn non_voter_retraction_should_not_work() {
    let mut t = ExtBuilder::default().build();
    t.set_block_number(1);
    assert_ok(t.submit_candidacy(3, 0));
    assert_ok(t.set_approvals(1, vec![true], 0));
    assert_noop(&mut t, |t| t.retract_voter(2, 0), "cannot retract non-voter");
}

#[test]
fn simple_tally_should_work() {
    let mut t = ExtBuilder::default().build();
    t.set_block_number(4);
    assert!(!t.council.presentation_active());

    assert_ok(t.submit_candidacy(2, 0));
    assert_ok(t.submit_candidacy(5, 1));
    assert_ok(t.set_approvals(2, vec![true, false], 0));
    assert_ok(t.set_approvals(5, vec![false, true], 0));
    assert_eq!(t.voter_ids(), vec![2, 5]);
    assert_eq!(t.council.approvals_of(2), vec![true, false]);
    assert_eq!(t.council.approvals_of(5), vec![false, true]);
    assert_ok(t.end_block(t.block_number()));

    t.set_block_number(6);
    assert!(t.council.presentation_active());
    assert_eq!(t.present_winner(4, 2, 20, 0), Ok(()));
    assert_eq!(t.present_winner(4, 5, 50, 0), Ok(()));
    assert_eq!(t.council.leaderboard(), Some(vec![(0, 0), (0, 0), (20, 2), (50, 5)]));

    assert_ok(t.end_block(t.block_number()));

    assert!(!t.council.presentation_active());
    assert_eq!(t.council.active_council(), vec![(5, 11), (2, 11)]);

    assert!(!t.council.is_a_candidate(&2));
    assert!(!t.council.is_a_candidate(&5));
    assert_eq!(t.council.vote_index(), 1);
    assert_eq!(t.council.voter_activity(2), Some(VoterActivity { last_win: 1, last_active: 0 }));
    assert_eq!(t.council.voter_activity(5), Some(VoterActivity { last_win: 1, last_active: 0 }));
}

#[test]
fn seats_should_be_released() {
    let mut t = ExtBuilder::default().build();
    t.set_block_number(4);
    assert_ok(t.submit_candidacy(2, 0));
    assert_ok(t.submit_candidacy(5, 1));
    assert_ok(t.set_approvals(2, vec![true, false], 0));
    assert_ok(t.set_approvals(5, vec![false, true], 0));
    assert_ok(t.end_block(t.block_number()));

    t.set_block_number(6);
    assert!(t.council.presentation_active());
    assert_eq!(t.present_winner(4, 2, 20, 0), Ok(()));
    assert_eq!(t.present_winner(4, 5, 50, 0), Ok(()));
    assert_eq!(t.council.leaderboard(), Some(vec![(0, 0), (0, 0), (20, 2), (50, 5)]));
    assert_ok(t.end_block(t.block_number()));

    assert!(!t.council.presentation_active());
    assert_eq!(t.council.active_council(), vec![(5, 11), (2, 11)]);
    assert_eq!(t.council.next_tally(t.block_number()), Some(12));

    t.set_block_number(12);
    assert!(!t.council.presentation_active());
    assert_ok(t.end_block(t.block_number()));
    // at block 12, a member exists who is valid until block 11
    assert_eq!(t.council.active_council(), vec![(5, 11), (2, 11)]);

    t.set_block_number(14);
    assert!(t.council.presentation_active());
    assert_ok(t.end_block(t.block_number()));
    assert_eq!(t.council.active_council(), vec![]);
}

#[test]
fn presentations_with_zero_staked_deposit_should_not_work() {
    let mut t = ExtBuilder::default().build();
    t.set_block_number(4);
    assert_ok(t.submit_candidacy(2, 0));
    assert_ok(t.set_approvals(2, vec![true], 0));
    assert_ok(t.end_block(t.block_number()));

    t.set_block_number(6);
    assert_noop(
        &mut t,
        |t| t.present_winner(4, 2, 0, 0),
        "stake deposited to present winner and be added to leaderboard should be non-zero",
    );
}

#[test]
fn double_presentations_should_be_punished() {
    let mut t = ExtBuilder::default().build();
    assert!(t.balances.can_slash(4, 10));

    t.set_block_number(4);
    assert_ok(t.submit_candidacy(2, 0));
    assert_ok(t.submit_candidacy(5, 1));
    assert_ok(t.set_approvals(2, vec![true, false], 0));
    assert_ok(t.set_approvals(5, vec![false, true], 0));
    assert_ok(t.end_block(t.block_number()));

    t.set_block_number(6);
    assert_ok(t.present_winner(4, 2, 20, 0));
    assert_ok(t.present_winner(4, 5, 50, 0));
    assert_eq!(t.present_winner(4, 5, 50, 0), Err("duplicate presentation"));
    assert_ok(t.end_block(t.block_number()));

    assert_eq!(t.council.active_council(), vec![(5, 11), (2, 11)]);
    assert_eq!(t.balances.total_balance(4), 38);
}

#[test]
fn retracting_inactive_voter_should_work() {
    let mut t = ExtBuilder::default().build();
    t.set_block_number(4);
    assert_ok(t.submit_candidacy(2, 0));
    assert_ok(t.set_approvals(2, vec![true], 0));
    assert_ok(t.end_block(t.block_number()));

    t.set_block_number(6);
    assert_ok(t.present_winner(4, 2, 20, 0));
    assert_ok(t.end_block(t.block_number()));

    t.set_block_number(8);
    assert_ok(t.submit_candidacy(5, 0));
    assert_ok(t.set_approvals(5, vec![true], 1));
    assert_ok(t.end_block(t.block_number()));

    t.set_block_number(10);
    assert_ok(t.present_winner(4, 5, 50, 1));
    assert_ok(t.end_block(t.block_number()));

    let reporter_index = t.voter_index(5);
    let who_index = t.voter_index(2);
    assert_ok(t.reap_inactive_voter(5, reporter_index, 2, who_index, 2));

    assert_eq!(t.voter_ids(), vec![5]);
    assert_eq!(t.council.approvals_of(2).len(), 0);
    assert_eq!(t.balances.total_balance(2), 18);
    assert_eq!(t.balances.total_balance(5), 52);
}

#[test]
fn presenting_for_double_election_should_not_work() {
    let mut t = ExtBuilder::default().build();
    t.set_block_number(4);
    assert_eq!(t.submit_candidacy(2, 0), Ok(()));
    assert_ok(t.set_approvals(2, vec![true], 0));
    assert_ok(t.end_block(t.block_number()));

    t.set_block_number(6);
    assert_ok(t.present_winner(4, 2, 20, 0));
    assert_ok(t.end_block(t.block_number()));

    t.set_block_number(8);
    // NOTE: This is now mandatory to disable the lock
    assert_ok(t.retract_voter(2, 0));
    assert_eq!(t.submit_candidacy(2, 0), Ok(()));
    assert_ok(t.set_approvals(2, vec![true], 1));
    assert_ok(t.end_block(t.block_number()));

    t.set_block_number(10);
    assert_noop(
        &mut t,
        |t| t.present_winner(4, 2, 20, 1),
        "candidate must not form a duplicated member if elected",
    );
}

#[test]
fn retracting_inactive_voter_with_other_candidates_in_slots_should_work() {
    let mut t = ExtBuilder::default().build();
    t.set_block_number(4);
    assert_ok(t.submit_candidacy(2, 0));
    assert_ok(t.set_approvals(2, vec![true], 0));
    assert_ok(t.end_block(t.block_number()));

    t.set_block_number(6);
    assert_ok(t.present_winner(4, 2, 20, 0));
    assert_ok(t.end_block(t.block_number()));

    t.set_block_number(8);
    assert_ok(t.submit_candidacy(5, 0));
    assert_ok(t.set_approvals(5, vec![true], 1));
    assert_ok(t.end_block(t.block_number()));

    t.set_block_number(10);
    assert_ok(t.present_winner(4, 5, 50, 1));
    assert_ok(t.end_block(t.block_number()));

    t.set_block_number(11);
    assert_ok(t.submit_candidacy(1, 0));

    let reporter_index = t.voter_index(5);
    let who_index = t.voter_index(2);
    assert_ok(t.reap_inactive_voter(5, reporter_index, 2, who_index, 2));

    assert_eq!(t.voter_ids(), vec![5]);
    assert_eq!(t.council.approvals_of(2).len(), 0);
    assert_eq!(t.balances.total_balance(2), 18);
    assert_eq!(t.balances.total_balance(5), 52);
}

#[test]
fn retracting_inactive_voter_with_bad_reporter_index_should_not_work() {
    let mut t = ExtBuilder::default().build();
    t.set_block_number(4);
    assert_ok(t.submit_candidacy(2, 0));
    assert_ok(t.set_approvals(2, vec![true], 0));
    assert_ok(t.end_block(t.block_number()));

    t.set_block_number(6);
    assert_ok(t.present_winner(4, 2, 20, 0));
    assert_ok(t.end_block(t.block_number()));

    t.set_block_number(8);
    assert_ok(t.submit_candidacy(5, 0));
    assert_ok(t.set_approvals(5, vec![true], 1));
    assert_ok(t.end_block(t.block_number()));

    t.set_block_number(10);
    assert_ok(t.present_winner(4, 5, 50, 1));
    assert_ok(t.end_block(t.block_number()));

    let who_index = t.voter_index(2);
    assert_noop(&mut t, |t| t.reap_inactive_voter(2, 42, 2, who_index, 2), "bad reporter index");
}

#[test]
fn retracting_inactive_voter_with_bad_target_index_should_not_work() {
    let mut t = ExtBuilder::default().build();
    t.set_block_number(4);
    assert_ok(t.submit_candidacy(2, 0));
    assert_ok(t.set_approvals(2, vec![true], 0));
    assert_ok(t.end_block(t.block_number()));

    t.set_block_number(6);
    assert_ok(t.present_winner(4, 2, 20, 0));
    assert_ok(t.end_block(t.block_number()));

    t.set_block_number(8);
    assert_ok(t.submit_candidacy(5, 0));
    assert_ok(t.set_approvals(5, vec![true], 1));
    assert_ok(t.end_block(t.block_number()));

    t.set_block_number(10);
    assert_ok(t.present_winner(4, 5, 50, 1));
    assert_ok(t.end_block(t.block_number()));

    let reporter_index = t.voter_index(2);
    assert_noop(
        &mut t,
        |t| t.reap_inactive_voter(2, reporter_index, 2, 42, 2),
        "bad target index",
    );
}

#[test]
fn attempting_to_retract_active_voter_should_slash_reporter() {
    let mut t = ExtBuilder::default().build();
    t.set_block_number(4);
    assert_ok(t.submit_candidacy(2, 0));
    assert_ok(t.submit_candidacy(3, 1));
    assert_ok(t.submit_candidacy(4, 2));
    assert_ok(t.submit_candidacy(5, 3));
    assert_ok(t.set_approvals(2, vec![true, false, false, false], 0));
    assert_ok(t.set_approvals(3, vec![false, true, false, false], 0));
    assert_ok(t.set_approvals(4, vec![false, false, true, false], 0));
    assert_ok(t.set_approvals(5, vec![false, false, false, true], 0));
    assert_ok(t.end_block(t.block_number()));

    t.set_block_number(6);
    assert_ok(t.present_winner(4, 2, 20, 0));
    assert_ok(t.present_winner(4, 3, 30, 0));
    assert_ok(t.present_winner(4, 4, 40, 0));
    assert_ok(t.present_winner(4, 5, 50, 0));
    assert_ok(t.end_block(t.block_number()));

    t.set_block_number(8);
    assert_ok(t.set_desired_seats(3));
    assert_ok(t.end_block(t.block_number()));

    t.set_block_number(10);
    assert_ok(t.present_winner(4, 2, 20 + t.council.get_offset(20, 1), 1));
    assert_ok(t.present_winner(4, 3, 30 + t.council.get_offset(30, 1), 1));
    assert_ok(t.end_block(t.block_number()));

    assert_eq!(t.council.vote_index(), 2);
    assert_eq!(t.council.inactivity_grace_period(), 1);
    assert_eq!(t.council.voting_period(), 4);
    assert_eq!(t.council.voter_activity(4), Some(VoterActivity { last_win: 1, last_active: 0 }));

    let reporter_index = t.voter_index(4);
    let who_index = t.voter_index(2);
    assert_ok(t.reap_inactive_voter(4, reporter_index, 2, who_index, 2));

    assert_eq!(t.voter_ids(), vec![2, 3, 5]);
    assert_eq!(t.council.approvals_of(4).len(), 0);
    assert_eq!(t.balances.total_balance(4), 38);
}

#[test]
fn attempting_to_retract_inactive_voter_by_nonvoter_should_not_work() {
    let mut t = ExtBuilder::default().build();
    t.set_block_number(4);
    assert_ok(t.submit_candidacy(2, 0));
    assert_ok(t.set_approvals(2, vec![true], 0));
    assert_ok(t.end_block(t.block_number()));

    t.set_block_number(6);
    assert_ok(t.present_winner(4, 2, 20, 0));
    assert_ok(t.end_block(t.block_number()));

    t.set_block_number(8);
    assert_ok(t.submit_candidacy(5, 0));
    assert_ok(t.set_approvals(5, vec![true], 1));
    assert_ok(t.end_block(t.block_number()));

    t.set_block_number(10);
    assert_ok(t.present_winner(4, 5, 50, 1));
    assert_ok(t.end_block(t.block_number()));

    let who_index = t.voter_index(2);
    assert_noop(
        &mut t,
        |t| t.reap_inactive_voter(4, 0, 2, who_index, 2),
        "reporter must be a voter",
    );
}

#[test]
fn presenting_loser_should_not_work() {
    let mut t = ExtBuilder::default().build();
    t.set_block_number(4);
    assert_ok(t.submit_candidacy(1, 0));
    assert_ok(t.set_approvals(6, vec![true], 0));
    assert_ok(t.submit_candidacy(2, 1));
    assert_ok(t.set_approvals(2, vec![false, true], 0));
    assert_ok(t.submit_candidacy(3, 2));
    assert_ok(t.set_approvals(3, vec![false, false, true], 0));
    assert_ok(t.submit_candidacy(4, 3));
    assert_ok(t.set_approvals(4, vec![false, false, false, true], 0));
    assert_ok(t.submit_candidacy(5, 4));
    assert_ok(t.set_approvals(5, vec![false, false, false, false, true], 0));
    assert_ok(t.end_block(t.block_number()));

    t.set_block_number(6);
    assert_ok(t.present_winner(4, 1, 60, 0));
    assert_ok(t.present_winner(4, 3, 30, 0));
    assert_ok(t.present_winner(4, 4, 40, 0));
    assert_ok(t.present_winner(4, 5, 50, 0));

    assert_eq!(t.council.leaderboard(), Some(vec![(30, 3), (40, 4), (50, 5), (60, 1)]));

    assert_noop(&mut t, |t| t.present_winner(4, 2, 20, 0), "candidate not worthy of leaderboard");
}

#[test]
fn presenting_loser_first_should_not_matter() {
    let mut t = ExtBuilder::default().build();
    t.set_block_number(4);
    assert_ok(t.submit_candidacy(1, 0));
    assert_ok(t.set_approvals(6, vec![true], 0));
    assert_ok(t.submit_candidacy(2, 1));
    assert_ok(t.set_approvals(2, vec![false, true], 0));
    assert_ok(t.submit_candidacy(3, 2));
    assert_ok(t.set_approvals(3, vec![false, false, true], 0));
    assert_ok(t.submit_candidacy(4, 3));
    assert_ok(t.set_approvals(4, vec![false, false, false, true], 0));
    assert_ok(t.submit_candidacy(5, 4));
    assert_ok(t.set_approvals(5, vec![false, false, false, false, true], 0));
    assert_ok(t.end_block(t.block_number()));

    t.set_block_number(6);
    assert_ok(t.present_winner(4, 2, 20, 0));
    assert_ok(t.present_winner(4, 1, 60, 0));
    assert_ok(t.present_winner(4, 3, 30, 0));
    assert_ok(t.present_winner(4, 4, 40, 0));
    assert_ok(t.present_winner(4, 5, 50, 0));

    assert_eq!(t.council.leaderboard(), Some(vec![(30, 3), (40, 4), (50, 5), (60, 1)]));
}

#[test]
fn present_outside_of_presentation_period_should_not_work() {
    let mut t = ExtBuilder::default().build();
    t.set_block_number(4);
    assert!(!t.council.presentation_active());
    assert_noop(
        &mut t,
        |t| t.present_winner(5, 5, 1, 0),
        "cannot present outside of presentation period",
    );
}

#[test]
fn present_with_invalid_vote_index_should_not_work() {
    let mut t = ExtBuilder::default().build();
    t.set_block_number(4);
    assert_ok(t.submit_candidacy(2, 0));
    assert_ok(t.submit_candidacy(5, 1));
    assert_ok(t.set_approvals(2, vec![true, false], 0));
    assert_ok(t.set_approvals(5, vec![false, true], 0));
    assert_ok(t.end_block(t.block_number()));

    t.set_block_number(6);
    assert_noop(&mut t, |t| t.present_winner(4, 2, 20, 1), "index not current");
}

#[test]
fn present_when_presenter_is_poor_should_not_work() {
    let mut t = ExtBuilder::default().build();
    t.set_block_number(4);
    assert!(!t.council.presentation_active());

    assert_ok(t.submit_candidacy(1, 0));
    assert_ok(t.set_approvals(1, vec![true], 0));
    assert_ok(t.end_block(t.block_number()));

    t.set_block_number(6);
    assert_eq!(t.balances.free_balance(&1), 5);
    assert_eq!(t.balances.reserved_balance(&1), 5);
    // artificially reduce 1's balance to below slashable amount.
    t.balances.make_free_balance_be(&1, 0);
    assert_noop(
        &mut t,
        |t| t.present_winner(1, 1, 10, 0),
        "presenter must have sufficient slashable funds",
    );
}

#[test]
fn invalid_present_tally_should_slash() {
    let mut t = ExtBuilder::default().build();
    t.set_block_number(4);
    assert!(!t.council.presentation_active());
    assert_eq!(t.balances.total_balance(4), 40);

    assert_ok(t.submit_candidacy(2, 0));
    assert_ok(t.submit_candidacy(5, 1));
    assert_ok(t.set_approvals(2, vec![true, false], 0));
    assert_ok(t.set_approvals(5, vec![false, true], 0));
    assert_ok(t.end_block(t.block_number()));

    t.set_block_number(6);
    assert_err(t.present_winner(4, 2, 80, 0), "incorrect total");

    assert_eq!(t.balances.total_balance(4), 38);
}

#[test]
fn runners_up_should_be_kept() {
    let mut t = ExtBuilder::default().build();
    t.set_block_number(4);
    assert!(!t.council.presentation_active());

    assert_ok(t.submit_candidacy(1, 0));
    assert_ok(t.set_approvals(6, vec![true], 0));
    assert_ok(t.submit_candidacy(2, 1));
    assert_ok(t.set_approvals(2, vec![false, true], 0));
    assert_ok(t.submit_candidacy(3, 2));
    assert_ok(t.set_approvals(3, vec![false, false, true], 0));
    assert_ok(t.submit_candidacy(4, 3));
    assert_ok(t.set_approvals(4, vec![false, false, false, true], 0));
    assert_ok(t.submit_candidacy(5, 4));
    assert_ok(t.set_approvals(5, vec![false, false, false, false, true], 0));

    assert_ok(t.end_block(t.block_number()));

    t.set_block_number(6);
    assert!(t.council.presentation_active());
    assert_ok(t.present_winner(4, 1, 60, 0));
    // leaderboard length is the empty seats plus the carry count (i.e. 5 + 2), where those
    // to be carried are the lowest and stored in lowest indexes
    assert_eq!(t.council.leaderboard(), Some(vec![(0, 0), (0, 0), (0, 0), (60, 1)]));
    assert_ok(t.present_winner(4, 3, 30, 0));
    assert_ok(t.present_winner(4, 4, 40, 0));
    assert_ok(t.present_winner(4, 5, 50, 0));
    assert_eq!(t.council.leaderboard(), Some(vec![(30, 3), (40, 4), (50, 5), (60, 1)]));

    assert_ok(t.end_block(t.block_number()));

    assert!(!t.council.presentation_active());
    assert_eq!(t.council.active_council(), vec![(1, 11), (5, 11)]);

    assert!(!t.council.is_a_candidate(&1));
    assert!(!t.council.is_a_candidate(&5));
    assert!(!t.council.is_a_candidate(&2));
    assert!(t.council.is_a_candidate(&3));
    assert!(t.council.is_a_candidate(&4));
    assert_eq!(t.council.vote_index(), 1);
    assert_eq!(t.council.voter_activity(2), Some(VoterActivity { last_win: 0, last_active: 0 }));
    assert_eq!(t.council.voter_activity(3), Some(VoterActivity { last_win: 0, last_active: 0 }));
    assert_eq!(t.council.voter_activity(4), Some(VoterActivity { last_win: 0, last_active: 0 }));
    assert_eq!(t.council.voter_activity(5), Some(VoterActivity { last_win: 1, last_active: 0 }));
    assert_eq!(t.council.voter_activity(6), Some(VoterActivity { last_win: 1, last_active: 0 }));
    assert_eq!(t.council.candidate_reg_info(3), Some((0, 2)));
    assert_eq!(t.council.candidate_reg_info(4), Some((0, 3)));
}

#[test]
fn second_tally_should_use_runners_up() {
    let mut t = ExtBuilder::default().build();
    t.set_block_number(4);
    assert_ok(t.submit_candidacy(1, 0));
    assert_ok(t.set_approvals(6, vec![true], 0));
    assert_ok(t.submit_candidacy(2, 1));
    assert_ok(t.set_approvals(2, vec![false, true], 0));
    assert_ok(t.submit_candidacy(3, 2));
    assert_ok(t.set_approvals(3, vec![false, false, true], 0));
    assert_ok(t.submit_candidacy(4, 3));
    assert_ok(t.set_approvals(4, vec![false, false, false, true], 0));
    assert_ok(t.submit_candidacy(5, 4));
    assert_ok(t.set_approvals(5, vec![false, false, false, false, true], 0));
    assert_ok(t.end_block(t.block_number()));

    t.set_block_number(6);
    assert_ok(t.present_winner(4, 1, 60, 0));
    assert_ok(t.present_winner(4, 3, 30, 0));
    assert_ok(t.present_winner(4, 4, 40, 0));
    assert_ok(t.present_winner(4, 5, 50, 0));
    assert_ok(t.end_block(t.block_number()));

    t.set_block_number(8);
    assert_ok(t.set_approvals(6, vec![false, false, true, false], 1));
    assert_ok(t.set_desired_seats(3));
    assert_ok(t.end_block(t.block_number()));

    t.set_block_number(10);
    assert_ok(t.present_winner(4, 3, 30 + t.council.get_offset(30, 1) + 60, 1));
    assert_ok(t.present_winner(4, 4, 40 + t.council.get_offset(40, 1), 1));
    assert_ok(t.end_block(t.block_number()));

    assert!(!t.council.presentation_active());
    assert_eq!(t.council.active_council(), vec![(1, 11), (5, 11), (3, 15)]);

    assert!(!t.council.is_a_candidate(&1));
    assert!(!t.council.is_a_candidate(&2));
    assert!(!t.council.is_a_candidate(&3));
    assert!(!t.council.is_a_candidate(&5));
    assert!(t.council.is_a_candidate(&4));
    assert_eq!(t.council.vote_index(), 2);
    assert_eq!(t.council.voter_activity(2), Some(VoterActivity { last_win: 0, last_active: 0 }));
    assert_eq!(t.council.voter_activity(3), Some(VoterActivity { last_win: 2, last_active: 0 }));
    assert_eq!(t.council.voter_activity(4), Some(VoterActivity { last_win: 0, last_active: 0 }));
    assert_eq!(t.council.voter_activity(5), Some(VoterActivity { last_win: 1, last_active: 0 }));
    assert_eq!(t.council.voter_activity(6), Some(VoterActivity { last_win: 2, last_active: 1 }));

    assert_eq!(t.council.candidate_reg_info(4), Some((0, 3)));
}

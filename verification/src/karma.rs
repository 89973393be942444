//! The reputation engine: a score per account, a transfer quota per asset,
//! and the leaderboard of the highest scores.

use vstd::prelude::*;
use vstd::hash_map::StringHashMap;
use crate::access::authorize;
use crate::access::Unauthorized;
use crate::leaderboard::admits;
use crate::leaderboard::amended;
use crate::leaderboard::board_valid;
use crate::leaderboard::displaces;
use crate::leaderboard::entries;
use crate::leaderboard::lemma_amended_members;
use crate::leaderboard::lemma_ranked_members;
use crate::leaderboard::lemma_ranked_replaces;
use crate::leaderboard::lemma_ranked_unchanged;
use crate::leaderboard::lemma_ranked_valid;
use crate::leaderboard::place;
use crate::leaderboard::ranked;
use crate::leaderboard::ranks;
use crate::leaderboard::slot_of;
use crate::leaderboard::Board;
use crate::leaderboard::RANK_MAX;
use crate::order::entry_lt;
use crate::order::Entry;
use crate::quota::quota_after;
use crate::quota::Quota;
use crate::quota::MAX_QUOTA;

verus! {

/// What the reputation engine holds, as the contracts see it.
pub struct KarmaState {
    /// The score of every account that has ever scored.
    pub balances: Map<Seq<char>, u128>,
    /// The leaderboard: entries `(balance, account)`, lowest first.
    pub leaderboard: Board,
    /// The quota of every asset that has ever been transferred.
    pub quotas: Map<Seq<char>, Quota>,
}

/// The leaderboard entry shows the balance that its account really has.
pub open spec fn shows(balances: Map<Seq<char>, u128>, entry: Entry) -> bool {
    balances.contains_key(entry.1) && balances[entry.1] == entry.0
}

/// The leaderboard is full, and `account` scores no higher than its lowest
/// entry.
pub open spec fn outranked(board: Board, balances: Map<Seq<char>, u128>, account: Seq<char>) -> bool {
    board.len() == RANK_MAX && balances[account] <= board[0].0
}

/// Every recorded balance is positive.
pub open spec fn balances_positive(balances: Map<Seq<char>, u128>) -> bool {
    forall|account: Seq<char>| #[trigger] balances.contains_key(account) ==> balances[account] > 0
}

/// Every recorded quota is within its maximum.
pub open spec fn quotas_bounded(quotas: Map<Seq<char>, Quota>) -> bool {
    forall|token: Seq<char>| #[trigger] quotas.contains_key(token) ==> quotas[token].valid()
}

/// Every entry of the leaderboard shows a true current balance.
pub open spec fn board_true(board: Board, balances: Map<Seq<char>, u128>) -> bool {
    forall|i: int| 0 <= i < board.len() ==> shows(balances, #[trigger] board[i])
}

/// Every account with a balance is on the leaderboard, unless a full board of
/// balances at least as high as its own keeps it out.
pub open spec fn board_complete(board: Board, balances: Map<Seq<char>, u128>) -> bool {
    forall|account: Seq<char>| #[trigger]
        balances.contains_key(account) ==> ranks(board, account) || outranked(
            board,
            balances,
            account,
        )
}

impl KarmaState {
    /// The state of a new engine: no scores, no quotas, an empty leaderboard.
    pub open spec fn empty() -> KarmaState {
        KarmaState { balances: Map::empty(), leaderboard: Seq::empty(), quotas: Map::empty() }
    }

    /// The score of `account`: zero until its first qualifying transfer.
    pub open spec fn balance_of(self, account: Seq<char>) -> u128 {
        if self.balances.contains_key(account) {
            self.balances[account]
        } else {
            0
        }
    }

    /// The quota on record for the asset `token`, if it has been used before.
    pub open spec fn quota_of(self, token: Seq<char>) -> Option<Quota> {
        if self.quotas.contains_key(token) {
            Some(self.quotas[token])
        } else {
            None
        }
    }

    /// What holds of the engine at all times: every recorded balance is
    /// positive and every quota within its maximum; the leaderboard is
    /// well-formed and shows true current balances; and an account that is
    /// not on it has been kept out by a full board of balances at least as
    /// high as its own.
    pub open spec fn valid(self) -> bool {
        &&& board_valid(self.leaderboard)
        &&& balances_positive(self.balances)
        &&& quotas_bounded(self.quotas)
        &&& board_true(self.leaderboard, self.balances)
        &&& board_complete(self.leaderboard, self.balances)
    }

    /// Whether a transfer of `token` at `now` qualifies: the asset has a unit
    /// of quota on hand.
    pub open spec fn scores(self, token: Seq<char>, now: u64) -> bool {
        quota_after(self.quota_of(token), now) is Some
    }

    /// The state after `account` has scored once more: its balance is one
    /// higher and the leaderboard has been updated with it.
    pub open spec fn credited(self, account: Seq<char>) -> KarmaState {
        let balance = (self.balance_of(account) + 1) as u128;
        KarmaState {
            balances: self.balances.insert(account, balance),
            leaderboard: ranked(self.leaderboard, account, balance),
            quotas: self.quotas,
        }
    }

    /// The state after `account` has sent `token` at `now`. Where the asset
    /// has quota on hand, one unit is taken and the account scores; where it
    /// is used up, nothing changes.
    pub open spec fn after_transfer(self, account: Seq<char>, token: Seq<char>, now: u64)
        -> KarmaState {
        match quota_after(self.quota_of(token), now) {
            Some(quota) => KarmaState {
                balances: self.balances,
                leaderboard: self.leaderboard,
                quotas: self.quotas.insert(token, quota),
            }.credited(account),
            None => self,
        }
    }

    /// Scoring keeps the engine's state valid.
    pub proof fn lemma_credited_valid(self, account: Seq<char>)
        requires
            self.valid(),
            self.balance_of(account) < u128::MAX,
        ensures
            self.credited(account).valid(),
    {
        let balance = (self.balance_of(account) + 1) as u128;
        let entry = (balance, account);
        let board = self.leaderboard;
        let next = self.credited(account);
        let before = amended(board, account, balance);
        let after = next.leaderboard;
        lemma_ranked_valid(board, account, balance);
        lemma_ranked_members(board, account, balance);
        lemma_amended_members(board, account, balance);
        if !admits(board, account, balance) {
            lemma_ranked_unchanged(board, account, balance);
        }
        assert forall|i: int| 0 <= i < after.len() implies shows(
            next.balances,
            #[trigger] after[i],
        ) by {
            let e = after[i];
            assert(after.contains(e));
            assert(before.contains(e));
            if e != entry {
                let j = choose|j: int| 0 <= j < board.len() && board[j] == e;
                assert(shows(self.balances, board[j]));
            }
        }
        // No entry of the new board lies below the lowest entry of a full old one.
        assert forall|i: int| 0 <= i < after.len() && board.len() == RANK_MAX implies board[0].0
            <= (#[trigger] after[i]).0 by {
            let e = after[i];
            assert(after.contains(e));
            assert(before.contains(e));
            if e == entry {
                if ranks(board, account) {
                    let k = slot_of(board, account);
                    assert(shows(self.balances, board[k]));
                    if 0 < k {
                        assert(entry_lt(board[0], board[k]));
                    }
                }
            } else {
                let j = choose|j: int| 0 <= j < board.len() && board[j] == e;
                if 0 < j {
                    assert(entry_lt(board[0], board[j]));
                }
            }
        }
        assert forall|x: Seq<char>| #[trigger] next.balances.contains_key(x) implies ranks(
            after,
            x,
        ) || outranked(after, next.balances, x) by {
            if x == account {
                if admits(board, account, balance) {
                    assert(after.contains(entry));
                    let i = choose|i: int| 0 <= i < after.len() && after[i] == entry;
                    assert(after[i].1 == x);
                }
            } else if ranks(board, x) {
                let j = slot_of(board, x);
                let e = board[j];
                assert(board.contains(e));
                assert(shows(self.balances, e));
                if before.contains(e) {
                    assert(after.contains(e));
                    let i = choose|i: int| 0 <= i < after.len() && after[i] == e;
                    assert(after[i].1 == x);
                } else {
                    assert(displaces(board, account, balance) && e == board[0]);
                    assert(board[0].0 <= after[0].0);
                }
            } else {
                assert(outranked(board, self.balances, x));
                assert(board[0].0 <= after[0].0);
            }
        }
    }

    /// A transfer keeps the engine's state valid, whether it scores or not.
    pub proof fn lemma_after_transfer_valid(self, account: Seq<char>, token: Seq<char>, now: u64)
        requires
            self.valid(),
            self.balance_of(account) < u128::MAX,
        ensures
            self.after_transfer(account, token, now).valid(),
    {
        match quota_after(self.quota_of(token), now) {
            Some(quota) => {
                let spent = KarmaState {
                    balances: self.balances,
                    leaderboard: self.leaderboard,
                    quotas: self.quotas.insert(token, quota),
                };
                assert(spent.valid());
                spent.lemma_credited_valid(account);
            },
            None => {},
        }
    }

    /// No balance ever falls: a transfer leaves every account's balance where
    /// it was, except the sender's, which goes up by one when the transfer
    /// scores.
    pub proof fn lemma_balances_never_fall(self, account: Seq<char>, token: Seq<char>, now: u64)
        requires
            self.balance_of(account) < u128::MAX,
        ensures
            forall|a: Seq<char>|
                #![trigger self.after_transfer(account, token, now).balance_of(a)]
                self.after_transfer(account, token, now).balance_of(a) == if a == account
                    && self.scores(token, now) {
                    self.balance_of(a) + 1
                } else {
                    self.balance_of(a) as int
                },
            forall|a: Seq<char>|
                #![trigger self.after_transfer(account, token, now).balance_of(a)]
                self.after_transfer(account, token, now).balance_of(a) >= self.balance_of(a),
    {
    }

    /// The quota of every asset stays within its maximum, and a transfer
    /// touches no quota but that of the asset transferred.
    pub proof fn lemma_quotas_stay_bounded(self, account: Seq<char>, token: Seq<char>, now: u64)
        requires
            self.valid(),
        ensures
            forall|t: Seq<char>| #[trigger]
                self.after_transfer(account, token, now).quotas.contains_key(t)
                    ==> self.after_transfer(account, token, now).quotas[t].value <= MAX_QUOTA,
            forall|t: Seq<char>|
                t != token ==> #[trigger] self.after_transfer(account, token, now).quota_of(t)
                    == self.quota_of(t),
    {
    }

    /// An account that is on the leaderboard when it scores has its entry
    /// replaced, not duplicated: the board keeps its length and afterwards
    /// shows the account once, with its new balance.
    pub proof fn lemma_ranked_account_replaced(
        self,
        account: Seq<char>,
        token: Seq<char>,
        now: u64,
    )
        requires
            self.valid(),
            self.balance_of(account) < u128::MAX,
            ranks(self.leaderboard, account),
            self.scores(token, now),
        ensures
            ({
                let next = self.after_transfer(account, token, now);
                let balance = (self.balance_of(account) + 1) as u128;
                &&& next.leaderboard.len() == self.leaderboard.len()
                &&& next.leaderboard.contains((balance, account))
                &&& !next.leaderboard.contains((self.balance_of(account), account))
                &&& forall|i: int, j: int|
                    0 <= i < next.leaderboard.len() && 0 <= j < next.leaderboard.len()
                        && next.leaderboard[i].1 == account && next.leaderboard[j].1 == account
                        ==> i == j
            }),
    {
        let next = self.after_transfer(account, token, now);
        let balance = (self.balance_of(account) + 1) as u128;
        lemma_ranked_replaces(self.leaderboard, account, balance);
        lemma_ranked_valid(self.leaderboard, account, balance);
        let old_entry = (self.balance_of(account), account);
        if next.leaderboard.contains(old_entry) {
            assert(old_entry.0 == balance);
        }
        assert forall|i: int, j: int|
            0 <= i < next.leaderboard.len() && 0 <= j < next.leaderboard.len()
                && next.leaderboard[i].1 == account && next.leaderboard[j].1
                == account implies i == j by {
            if i < j {
                assert(next.leaderboard[i].1 != next.leaderboard[j].1);
            } else if j < i {
                assert(next.leaderboard[j].1 != next.leaderboard[i].1);
            }
        }
    }
}

/// The reputation engine.
pub struct Karma {
    balance_by_owner: StringHashMap<u128>,
    rank: Vec<(u128, String)>,
    quota_by_token_id: StringHashMap<Quota>,
}

impl View for Karma {
    type V = KarmaState;

    closed spec fn view(&self) -> KarmaState {
        KarmaState {
            balances: self.balance_by_owner@,
            leaderboard: entries(self.rank@),
            quotas: self.quota_by_token_id@,
        }
    }
}

impl Karma {
    /// The engine's state is valid.
    pub open spec fn wf(&self) -> bool {
        self@.valid()
    }

    /// An engine with no scores, no quotas and an empty leaderboard.
    pub fn new() -> (karma: Self)
        ensures
            karma@ == KarmaState::empty(),
            karma.wf(),
    {
        let karma = Karma {
            balance_by_owner: StringHashMap::new(),
            rank: Vec::new(),
            quota_by_token_id: StringHashMap::new(),
        };
        assert(karma@.leaderboard =~= Seq::empty());
        karma
    }

    /// An engine made of the given parts, whatever they hold.
    pub(crate) fn assemble(
        balance_by_owner: StringHashMap<u128>,
        rank: Vec<(u128, String)>,
        quota_by_token_id: StringHashMap<Quota>,
    ) -> (karma: Self)
        ensures
            karma@ == (KarmaState {
                balances: balance_by_owner@,
                leaderboard: entries(rank@),
                quotas: quota_by_token_id@,
            }),
    {
        Karma { balance_by_owner, rank, quota_by_token_id }
    }

    /// Records that `account_id` has sent the asset `token_id` at time `now`,
    /// in seconds. Where the asset has quota on hand, one unit is taken, the
    /// account's balance goes up by one and the leaderboard follows; where the
    /// quota is used up, nothing changes.
    pub fn increase(&mut self, account_id: &String, token_id: &String, now: u64)
        requires
            old(self).wf(),
            old(self)@.balance_of(account_id@) < u128::MAX,
        ensures
            final(self)@ == old(self)@.after_transfer(account_id@, token_id@, now),
            final(self).wf(),
            forall|a: Seq<char>| #[trigger]
                final(self)@.balance_of(a) >= old(self)@.balance_of(a),
            final(self)@.balance_of(account_id@) == old(self)@.balance_of(account_id@) + if old(
                self,
            )@.scores(token_id@, now) {
                1int
            } else {
                0int
            },
    {
        proof {
            old(self)@.lemma_after_transfer_valid(account_id@, token_id@, now);
            old(self)@.lemma_balances_never_fall(account_id@, token_id@, now);
        }
        match Quota::consume(self.quota(token_id), now) {
            Some(quota) => {
                self.quota_by_token_id.insert(token_id.clone(), quota);
                self.increase_internal(account_id);
            },
            None => {},
        }
    }

    /// Raises the balance of `account_id` by one and brings the leaderboard
    /// up to date.
    fn increase_internal(&mut self, account_id: &String)
        requires
            old(self)@.balance_of(account_id@) < u128::MAX,
            board_valid(old(self)@.leaderboard),
        ensures
            final(self)@ == old(self)@.credited(account_id@),
    {
        let balance: u128 = match self.balance(account_id) {
            Some(balance) => balance + 1,
            None => 1,
        };
        self.balance_by_owner.insert(account_id.clone(), balance);
        place(&mut self.rank, account_id, balance);
    }

    /// The leaderboard: entries `(balance, account)` in ascending order, so
    /// that the highest balance comes last.
    pub fn rank(&self) -> (rank: &Vec<(u128, String)>)
        ensures
            entries(rank@) == self@.leaderboard,
    {
        &self.rank
    }

    /// The balance on record for `account_id`: `None` before its first
    /// qualifying transfer.
    pub fn balance(&self, account_id: &String) -> (balance: Option<u128>)
        ensures
            balance == self@.balances.get(account_id@),
    {
        match self.balance_by_owner.get(account_id.as_str()) {
            Some(balance) => Some(*balance),
            None => None,
        }
    }

    /// The quota on record for the asset `token_id`: `None` before its first
    /// transfer.
    pub fn quota(&self, token_id: &String) -> (quota: Option<Quota>)
        ensures
            quota == self@.quota_of(token_id@),
    {
        match self.quota_by_token_id.get(token_id.as_str()) {
            Some(quota) => Some(*quota),
            None => None,
        }
    }

    /// Clears all balances, all quotas and the leaderboard, for the owner
    /// only: for any other caller nothing changes.
    pub fn reset_karma(&mut self, caller: &String, owner: &String) -> (r: Result<(), Unauthorized>)
        ensures
            r is Ok <==> caller@ == owner@,
            r is Ok ==> final(self)@ == KarmaState::empty() && final(self).wf(),
            r is Err ==> final(self)@ == old(self)@,
    {
        match authorize(caller, owner) {
            Ok(_) => {
                *self = Karma::new();
                Ok(())
            },
            Err(e) => Err(e),
        }
    }
}

} // verus!

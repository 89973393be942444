//! Restoring the reputation engine from what was persisted of it.
//!
//! Balances, quotas and the leaderboard are kept apart when the engine is
//! stored. Putting them together again yields an engine only where they fit
//! each other.

use vstd::prelude::*;
use vstd::hash_map::StringHashMap;
use crate::karma::balances_positive;
use crate::karma::board_complete;
use crate::karma::board_true;
use crate::karma::outranked;
use crate::karma::quotas_bounded;
use crate::karma::shows;
use crate::karma::Karma;
use crate::karma::KarmaState;
use crate::leaderboard::entries;
use crate::leaderboard::find;
use crate::leaderboard::is_board;
use crate::leaderboard::ranks;
use crate::leaderboard::RANK_MAX;
use crate::quota::Quota;
use crate::quota::MAX_QUOTA;

verus! {

/// The map that a list of records describes. Where a key occurs more than
/// once, its last record counts.
pub open spec fn map_of<V>(list: Seq<(String, V)>) -> Map<Seq<char>, V>
    decreases list.len(),
{
    if list.len() == 0 {
        Map::empty()
    } else {
        map_of(list.drop_last()).insert(list.last().0@, list.last().1)
    }
}

/// The state that persisted balances, quotas and leaderboard describe.
pub open spec fn restored(
    balances: Seq<(String, u128)>,
    quotas: Seq<(String, Quota)>,
    rank: Seq<(u128, String)>,
) -> KarmaState {
    KarmaState {
        balances: map_of(balances),
        leaderboard: entries(rank),
        quotas: map_of(quotas),
    }
}

/// The keys of the map are the keys of the records.
pub proof fn lemma_map_of_keys<V>(list: Seq<(String, V)>)
    ensures
        forall|key: Seq<char>| #[trigger]
            map_of(list).contains_key(key) ==> exists|i: int|
                0 <= i < list.len() && (#[trigger] list[i]).0@ == key,
        forall|i: int| 0 <= i < list.len() ==> map_of(list).contains_key((#[trigger] list[i]).0@),
    decreases list.len(),
{
    if list.len() > 0 {
        let front = list.drop_last();
        let last = list.len() - 1;
        lemma_map_of_keys(front);
        assert forall|key: Seq<char>| #[trigger] map_of(list).contains_key(key) implies exists|
            i: int,
        | 0 <= i < list.len() && (#[trigger] list[i]).0@ == key by {
            if key == list[last].0@ {
            } else {
                assert(map_of(front).contains_key(key));
                let i = choose|i: int| 0 <= i < front.len() && (#[trigger] front[i]).0@ == key;
                assert(list[i] == front[i]);
            }
        }
        assert forall|i: int| 0 <= i < list.len() implies map_of(list).contains_key(
            (#[trigger] list[i]).0@,
        ) by {
            if i < last {
                assert(list[i] == front[i]);
                assert(map_of(front).contains_key(front[i].0@));
            }
        }
    }
}

/// Builds the map that a list of records describes.
fn table_of<V: Copy>(list: &Vec<(String, V)>) -> (table: StringHashMap<V>)
    ensures
        table@ == map_of(list@),
{
    let mut table: StringHashMap<V> = StringHashMap::new();
    let mut i: usize = 0;
    while i < list.len()
        invariant
            i <= list.len(),
            table@ == map_of(list@.take(i as int)),
        decreases list.len() - i,
    {
        table.insert(list[i].0.clone(), list[i].1);
        assert(list@.take(i + 1).drop_last() =~= list@.take(i as int));
        i += 1;
    }
    assert(list@.take(i as int) =~= list@);
    table
}

/// Whether every persisted balance is positive and is on the leaderboard or
/// kept out by a full board.
fn balances_fit(
    list: &Vec<(String, u128)>,
    table: &StringHashMap<u128>,
    rank: &Vec<(u128, String)>,
) -> (ok: bool)
    requires
        table@ == map_of(list@),
    ensures
        ok == (balances_positive(table@) && board_complete(entries(rank@), table@)),
{
    let ghost board = entries(rank@);
    proof {
        lemma_map_of_keys(list@);
    }
    let mut i: usize = 0;
    while i < list.len()
        invariant
            i <= list.len(),
            table@ == map_of(list@),
            board == entries(rank@),
            forall|j: int|
                0 <= j < i ==> table@[(#[trigger] list@[j]).0@] > 0 && (ranks(
                    board,
                    list@[j].0@,
                ) || outranked(board, table@, list@[j].0@)),
        decreases list.len() - i,
    {
        proof {
            lemma_map_of_keys(list@);
            assert(table@.contains_key(list@[i as int].0@));
        }
        let balance: u128 = match table.get(list[i].0.as_str()) {
            Some(balance) => *balance,
            None => 0,
        };
        let fits = balance > 0 && (find(rank, &list[i].0).is_some() || (rank.len() == RANK_MAX
            && balance <= rank[0].0));
        if !fits {
            return false;
        }
        i += 1;
    }
    proof {
        assert forall|account: Seq<char>| #[trigger] table@.contains_key(account) implies table@[account]
            > 0 && (ranks(board, account) || outranked(board, table@, account)) by {
            let j = choose|j: int| 0 <= j < list@.len() && (#[trigger] list@[j]).0@ == account;
            assert(table@[list@[j].0@] > 0);
        }
    }
    true
}

/// Whether every persisted quota is within its maximum.
fn quotas_fit(list: &Vec<(String, Quota)>, table: &StringHashMap<Quota>) -> (ok: bool)
    requires
        table@ == map_of(list@),
    ensures
        ok == quotas_bounded(table@),
{
    proof {
        lemma_map_of_keys(list@);
    }
    let mut i: usize = 0;
    while i < list.len()
        invariant
            i <= list.len(),
            table@ == map_of(list@),
            forall|j: int| 0 <= j < i ==> table@[(#[trigger] list@[j]).0@].valid(),
        decreases list.len() - i,
    {
        proof {
            lemma_map_of_keys(list@);
            assert(table@.contains_key(list@[i as int].0@));
        }
        let within = match table.get(list[i].0.as_str()) {
            Some(quota) => quota.value <= MAX_QUOTA,
            None => true,
        };
        if !within {
            return false;
        }
        i += 1;
    }
    proof {
        assert forall|token: Seq<char>| #[trigger] table@.contains_key(token) implies table@[token].valid() by {
            let j = choose|j: int| 0 <= j < list@.len() && (#[trigger] list@[j]).0@ == token;
            assert(table@[list@[j].0@].valid());
        }
    }
    true
}

/// Whether every entry of the leaderboard shows the balance on record.
fn board_fits(rank: &Vec<(u128, String)>, table: &StringHashMap<u128>) -> (ok: bool)
    ensures
        ok == board_true(entries(rank@), table@),
{
    let ghost board = entries(rank@);
    let mut i: usize = 0;
    while i < rank.len()
        invariant
            i <= rank.len(),
            board == entries(rank@),
            forall|j: int| 0 <= j < i ==> shows(table@, #[trigger] board[j]),
        decreases rank.len() - i,
    {
        let shown = match table.get(rank[i].1.as_str()) {
            Some(balance) => *balance == rank[i].0,
            None => false,
        };
        if !shown {
            assert(!shows(table@, board[i as int]));
            return false;
        }
        i += 1;
    }
    true
}

impl Karma {
    /// Puts an engine together from persisted balances, quotas and
    /// leaderboard. The result is an engine in the state that they describe,
    /// and there is one exactly when that state is valid.
    pub fn restore(
        balances: Vec<(String, u128)>,
        quotas: Vec<(String, Quota)>,
        rank: Vec<(u128, String)>,
    ) -> (r: Option<Karma>)
        ensures
            r is Some <==> restored(balances@, quotas@, rank@).valid(),
            r matches Some(karma) ==> karma@ == restored(balances@, quotas@, rank@) && karma.wf(),
    {
        let balance_by_owner = table_of(&balances);
        let quota_by_token_id = table_of(&quotas);
        if is_board(&rank) && board_fits(&rank, &balance_by_owner) && balances_fit(
            &balances,
            &balance_by_owner,
            &rank,
        ) && quotas_fit(&quotas, &quota_by_token_id) {
            Some(Karma::assemble(balance_by_owner, rank, quota_by_token_id))
        } else {
            None
        }
    }
}

} // verus!

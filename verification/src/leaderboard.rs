//! The bounded leaderboard: the highest balances, in ascending order.
//!
//! An entry is a pair `(balance, account)`. The board holds at most
//! `RANK_MAX` of them, one per account, lowest first, so that its first entry
//! is always the current minimum.

use vstd::prelude::*;
use vstd::relations::sorted_by;
use vstd::seq_lib::lemma_sorted_unique;
use vstd::seq_lib::to_multiset_build;
use vstd::seq_lib::to_multiset_contains;
use vstd::seq_lib::to_multiset_insert;
use vstd::seq_lib::to_multiset_len;
use vstd::seq_lib::to_multiset_remove;
use vstd::seq_lib::to_multiset_update;
use crate::order::entry_before;
use crate::order::entry_le;
use crate::order::entry_lt;
use crate::order::lemma_entry_le_total_ordering;
use crate::order::lemma_entry_lt_strict;
use crate::order::lemma_entry_lt_transitive;
use crate::order::Entry;

verus! {

/// The most entries the leaderboard holds.
pub const RANK_MAX: usize = 10;

/// A leaderboard: its entries, lowest first.
pub type Board = Seq<Entry>;

/// The entries of a stored leaderboard, each account taken as its text.
pub open spec fn entries(rank: Seq<(u128, String)>) -> Board {
    rank.map_values(|e: (u128, String)| (e.0, e.1@))
}

/// The order that the leaderboard is sorted by.
pub open spec fn entry_order() -> spec_fn(Entry, Entry) -> bool {
    |a: Entry, b: Entry| entry_le(a, b)
}

/// Whether `account` has an entry on the board.
pub open spec fn ranks(board: Board, account: Seq<char>) -> bool {
    exists|i: int| 0 <= i < board.len() && (#[trigger] board[i]).1 == account
}

/// The slot that `account` occupies on the board, where it has one.
pub open spec fn slot_of(board: Board, account: Seq<char>) -> int {
    choose|i: int| 0 <= i < board.len() && (#[trigger] board[i]).1 == account
}

/// Every entry comes strictly before all entries after it.
pub open spec fn ascending(board: Board) -> bool {
    forall|i: int, j: int|
        0 <= i < j < board.len() ==> entry_lt(#[trigger] board[i], #[trigger] board[j])
}

/// No two entries name the same account.
pub open spec fn one_entry_each(board: Board) -> bool {
    forall|i: int, j: int|
        0 <= i < j < board.len() ==> (#[trigger] board[i]).1 != (#[trigger] board[j]).1
}

/// A well-formed board: at most `RANK_MAX` entries, strictly ascending, no
/// account twice.
pub open spec fn board_valid(board: Board) -> bool {
    &&& board.len() <= RANK_MAX
    &&& ascending(board)
    &&& one_entry_each(board)
}

/// Whether the entry `(balance, account)` finds a place on the board: the
/// account has one already, or there is room, or the entry beats the lowest.
pub open spec fn admits(board: Board, account: Seq<char>, balance: u128) -> bool {
    ranks(board, account) || board.len() < RANK_MAX || balance > board[0].0
}

/// Whether the lowest entry has to make way for `(balance, account)`.
pub open spec fn displaces(board: Board, account: Seq<char>, balance: u128) -> bool {
    !ranks(board, account) && board.len() >= RANK_MAX && balance > board[0].0
}

/// The board once `account` has reached `balance`, before it is put back in
/// order: an account already on the board has its entry overwritten; a new
/// account is appended while there is room; on a full board it takes the place
/// of the lowest entry if its balance is strictly higher, and is left out
/// otherwise.
pub open spec fn amended(board: Board, account: Seq<char>, balance: u128) -> Board {
    if ranks(board, account) {
        board.update(slot_of(board, account), (balance, account))
    } else if board.len() < RANK_MAX {
        board.push((balance, account))
    } else if balance > board[0].0 {
        board.update(0, (balance, account))
    } else {
        board
    }
}

/// The leaderboard after `account` has reached `balance`: the amended board,
/// sorted ascending by balance and then account.
pub open spec fn ranked(board: Board, account: Seq<char>, balance: u128) -> Board {
    amended(board, account, balance).sort_by(entry_order())
}

/// Sorting neither adds nor drops an entry: the new leaderboard holds exactly
/// the entries of the amended board.
pub proof fn lemma_ranked_members(board: Board, account: Seq<char>, balance: u128)
    ensures
        ranked(board, account, balance).len() == amended(board, account, balance).len(),
        forall|e: Entry|
            ranked(board, account, balance).contains(e) <==> amended(
                board,
                account,
                balance,
            ).contains(e),
{
    let before = amended(board, account, balance);
    let after = ranked(board, account, balance);
    lemma_entry_le_total_ordering();
    before.lemma_sort_by_ensures(entry_order());
    to_multiset_len(before);
    to_multiset_len(after);
    assert forall|e: Entry| after.contains(e) <==> before.contains(e) by {
        to_multiset_contains(before, e);
        to_multiset_contains(after, e);
    }
}

/// The new leaderboard is pinned down by its entries: any strictly ascending
/// sequence that holds the entries of the amended board is that leaderboard.
pub proof fn lemma_ascending_is_ranked(
    board: Board,
    account: Seq<char>,
    balance: u128,
    placed: Board,
)
    requires
        ascending(placed),
        placed.to_multiset() == amended(board, account, balance).to_multiset(),
    ensures
        placed == ranked(board, account, balance),
{
    let before = amended(board, account, balance);
    lemma_entry_le_total_ordering();
    before.lemma_sort_by_ensures(entry_order());
    assert(sorted_by(placed, entry_order()));
    lemma_sorted_unique(placed, before.sort_by(entry_order()), entry_order());
}

/// What amending does to the entries of a well-formed board. The account's
/// new entry is there exactly when the board admits it; every entry of
/// another account stays, except the lowest where it has to make way; and
/// nothing else appears. No account is named twice.
pub proof fn lemma_amended_members(board: Board, account: Seq<char>, balance: u128)
    requires
        board_valid(board),
    ensures
        amended(board, account, balance).len() <= RANK_MAX,
        amended(board, account, balance).len() == board.len() + if !ranks(board, account)
            && board.len() < RANK_MAX {
            1int
        } else {
            0int
        },
        one_entry_each(amended(board, account, balance)),
        amended(board, account, balance).contains((balance, account)) <==> admits(
            board,
            account,
            balance,
        ),
        forall|e: Entry| #[trigger]
            amended(board, account, balance).contains(e) ==> e == (balance, account) || (
            board.contains(e) && e.1 != account),
        forall|e: Entry|
            board.contains(e) && e.1 != account ==> #[trigger] amended(
                board,
                account,
                balance,
            ).contains(e) || (displaces(board, account, balance) && e == board[0]),
        displaces(board, account, balance) ==> !amended(board, account, balance).contains(
            board[0],
        ),
{
    let am = amended(board, account, balance);
    let entry = (balance, account);
    if ranks(board, account) {
        let k = slot_of(board, account);
        lemma_slot_of(board, k);
        assert(am[k] == entry);
        assert forall|i: int, j: int| 0 <= i < j < am.len() implies (#[trigger] am[i]).1 != (
        #[trigger] am[j]).1 by {
            assert(am[i].1 == board[i].1 && am[j].1 == board[j].1);
        }
        assert forall|e: Entry| #[trigger] am.contains(e) implies e == entry || (board.contains(e)
            && e.1 != account) by {
            let i = choose|i: int| 0 <= i < am.len() && am[i] == e;
            if i != k {
                assert(board[i] == e);
                lemma_slot_of(board, i);
            }
        }
        assert forall|e: Entry| board.contains(e) && e.1 != account implies #[trigger] am.contains(
            e,
        ) by {
            let i = choose|i: int| 0 <= i < board.len() && board[i] == e;
            assert(am[i] == e);
        }
    } else if board.len() < RANK_MAX {
        assert(am[board.len() as int] == entry);
        assert forall|i: int, j: int| 0 <= i < j < am.len() implies (#[trigger] am[i]).1 != (
        #[trigger] am[j]).1 by {
            if j < board.len() {
                assert(am[i] == board[i] && am[j] == board[j]);
            } else {
                assert(am[i] == board[i]);
            }
        }
        assert forall|e: Entry| #[trigger] am.contains(e) implies e == entry || (board.contains(e)
            && e.1 != account) by {
            let i = choose|i: int| 0 <= i < am.len() && am[i] == e;
            if i < board.len() {
                assert(board[i] == e);
            }
        }
        assert forall|e: Entry| board.contains(e) && e.1 != account implies #[trigger] am.contains(
            e,
        ) by {
            let i = choose|i: int| 0 <= i < board.len() && board[i] == e;
            assert(am[i] == e);
        }
    } else if balance > board[0].0 {
        assert(am[0] == entry);
        assert forall|i: int, j: int| 0 <= i < j < am.len() implies (#[trigger] am[i]).1 != (
        #[trigger] am[j]).1 by {
            assert(am[j] == board[j]);
            if 0 < i {
                assert(am[i] == board[i]);
            }
        }
        assert forall|e: Entry| #[trigger] am.contains(e) implies e == entry || (board.contains(e)
            && e.1 != account) by {
            let i = choose|i: int| 0 <= i < am.len() && am[i] == e;
            if 0 < i {
                assert(board[i] == e);
            }
        }
        assert forall|e: Entry| board.contains(e) && e.1 != account implies #[trigger] am.contains(
            e,
        ) || e == board[0] by {
            let i = choose|i: int| 0 <= i < board.len() && board[i] == e;
            if 0 < i {
                assert(am[i] == e);
            }
        }
        if am.contains(board[0]) {
            let i = choose|i: int| 0 <= i < am.len() && am[i] == board[0];
            if 0 < i {
                assert(board[0].1 != board[i].1);
            }
        }
    } else {
        assert forall|e: Entry| #[trigger] am.contains(e) implies e != entry by {
            let i = choose|i: int| 0 <= i < am.len() && am[i] == e;
        }
    }
}

/// The leaderboard stays well-formed: after any update it has at most
/// `RANK_MAX` entries, is strictly ascending by balance and then account, and
/// names no account twice.
pub proof fn lemma_ranked_valid(board: Board, account: Seq<char>, balance: u128)
    requires
        board_valid(board),
    ensures
        board_valid(ranked(board, account, balance)),
{
    let before = amended(board, account, balance);
    let after = ranked(board, account, balance);
    lemma_amended_members(board, account, balance);
    lemma_ranked_members(board, account, balance);
    lemma_entry_le_total_ordering();
    before.lemma_sort_by_ensures(entry_order());
    assert(before.no_duplicates()) by {
        assert forall|i: int, j: int|
            0 <= i < before.len() && 0 <= j < before.len() && i != j implies before[i]
            != before[j] by {
            if i < j {
                assert(before[i].1 != before[j].1);
            } else {
                assert(before[j].1 != before[i].1);
            }
        }
    }
    before.lemma_multiset_has_no_duplicates();
    after.lemma_multiset_has_no_duplicates_conv();
    assert forall|i: int, j: int| 0 <= i < j < after.len() implies entry_lt(
        #[trigger] after[i],
        #[trigger] after[j],
    ) && after[i].1 != after[j].1 by {
        assert(entry_order()(after[i], after[j]));
        assert(after[i] != after[j]);
        assert(after.contains(after[i]) && after.contains(after[j]));
        let a = choose|a: int| 0 <= a < before.len() && before[a] == after[i];
        let b = choose|b: int| 0 <= b < before.len() && before[b] == after[j];
        if a < b {
            assert(before[a].1 != before[b].1);
        } else if b < a {
            assert(before[b].1 != before[a].1);
        }
    }
}

/// An account that is already on the board has its entry replaced, not
/// duplicated: the board keeps its length, holds the account's new entry and
/// no other entry of that account, and holds every other account's entry as
/// before.
pub proof fn lemma_ranked_replaces(board: Board, account: Seq<char>, balance: u128)
    requires
        board_valid(board),
        ranks(board, account),
    ensures
        ranked(board, account, balance).len() == board.len(),
        ranked(board, account, balance).contains((balance, account)),
        forall|e: Entry| #[trigger]
            ranked(board, account, balance).contains(e) && e.1 == account ==> e.0 == balance,
        forall|e: Entry|
            e.1 != account ==> (#[trigger] ranked(board, account, balance).contains(e)
                <==> board.contains(e)),
{
    lemma_amended_members(board, account, balance);
    lemma_ranked_members(board, account, balance);
    let before = amended(board, account, balance);
    assert forall|e: Entry| e.1 != account implies (#[trigger] ranked(
        board,
        account,
        balance,
    ).contains(e) <==> board.contains(e)) by {
        if board.contains(e) {
            assert(before.contains(e));
        }
    }
}

/// An entry that the board does not admit leaves it as it is.
pub proof fn lemma_ranked_unchanged(board: Board, account: Seq<char>, balance: u128)
    requires
        board_valid(board),
        !admits(board, account, balance),
    ensures
        ranked(board, account, balance) == board,
{
    lemma_ascending_is_ranked(board, account, balance, board);
}

/// The first entry of a well-formed board is its minimum.
pub proof fn lemma_first_is_minimum(board: Board, i: int)
    requires
        board_valid(board),
        0 <= i < board.len(),
    ensures
        board[0].0 <= board[i].0,
        i > 0 ==> entry_lt(board[0], board[i]),
{
}

/// On a board without repeated accounts, an account's slot is the one place
/// where it stands.
proof fn lemma_slot_of(board: Board, i: int)
    requires
        one_entry_each(board),
        0 <= i < board.len(),
    ensures
        ranks(board, board[i].1),
        slot_of(board, board[i].1) == i,
{
    let k = slot_of(board, board[i].1);
    if k < i {
        assert(board[k].1 != board[i].1);
    } else if i < k {
        assert(board[i].1 != board[k].1);
    }
}

/// Taking an entry off a strictly ascending board without repeated accounts
/// leaves such a board, on which the account of that entry no longer stands.
proof fn lemma_remove_keeps_order(board: Board, i: int)
    requires
        ascending(board),
        one_entry_each(board),
        0 <= i < board.len(),
    ensures
        ascending(board.remove(i)),
        one_entry_each(board.remove(i)),
        !ranks(board.remove(i), board[i].1),
{
    let rest = board.remove(i);
    assert forall|a: int, b: int| 0 <= a < b < rest.len() implies entry_lt(
        #[trigger] rest[a],
        #[trigger] rest[b],
    ) && rest[a].1 != rest[b].1 by {
        let a0 = if a < i { a } else { a + 1 };
        let b0 = if b < i { b } else { b + 1 };
        assert(rest[a] == board[a0] && rest[b] == board[b0]);
        assert(entry_lt(board[a0], board[b0]));
        assert(board[a0].1 != board[b0].1);
    }
    assert forall|k: int| 0 <= k < rest.len() implies (#[trigger] rest[k]).1 != board[i].1 by {
        let k0 = if k < i { k } else { k + 1 };
        assert(rest[k] == board[k0]);
        if k0 < i {
            assert(board[k0].1 != board[i].1);
        } else {
            assert(board[i].1 != board[k0].1);
        }
    }
}

/// Putting a new account's entry behind every entry that comes before it, and
/// in front of the first that does not, leaves a strictly ascending board
/// without repeated accounts.
proof fn lemma_insert_keeps_order(board: Board, p: int, e: Entry)
    requires
        ascending(board),
        one_entry_each(board),
        !ranks(board, e.1),
        0 <= p <= board.len(),
        forall|j: int| 0 <= j < p ==> entry_lt(#[trigger] board[j], e),
        p < board.len() ==> !entry_lt(board[p], e),
    ensures
        ascending(board.insert(p, e)),
        one_entry_each(board.insert(p, e)),
{
    let more = board.insert(p, e);
    assert forall|j: int| p <= j < board.len() implies entry_lt(e, #[trigger] board[j]) by {
        assert(board[p].1 != e.1);
        lemma_entry_lt_strict(board[p], e);
        if p < j {
            assert(entry_lt(board[p], board[j]));
            lemma_entry_lt_transitive(e, board[p], board[j]);
        }
    }
    assert forall|a: int, b: int| 0 <= a < b < more.len() implies entry_lt(
        #[trigger] more[a],
        #[trigger] more[b],
    ) && more[a].1 != more[b].1 by {
        let a0 = if a < p { a } else { a - 1 };
        let b0 = if b < p { b } else { b - 1 };
        if a == p {
            assert(more[b] == board[b0]);
            assert(board[b0].1 != e.1);
        } else if b == p {
            assert(more[a] == board[a0]);
            assert(board[a0].1 != e.1);
        } else {
            assert(more[a] == board[a0] && more[b] == board[b0]);
            assert(entry_lt(board[a0], board[b0]));
            assert(board[a0].1 != board[b0].1);
        }
    }
}

/// The first slot among the stored entries that `account` occupies, if it
/// occupies one.
pub fn find(rank: &Vec<(u128, String)>, account: &String) -> (r: Option<usize>)
    ensures
        r is Some <==> ranks(entries(rank@), account@),
        r matches Some(i) ==> i < rank.len() && entries(rank@)[i as int].1 == account@,
        r matches Some(i) ==> forall|j: int|
            0 <= j < i ==> (#[trigger] entries(rank@)[j]).1 != account@,
{
    let mut i: usize = 0;
    while i < rank.len()
        invariant
            i <= rank.len(),
            forall|j: int| 0 <= j < i ==> (#[trigger] entries(rank@)[j]).1 != account@,
        decreases rank.len() - i,
    {
        if rank[i].1 == *account {
            assert(entries(rank@)[i as int].1 == account@);
            return Some(i);
        }
        i += 1;
    }
    None
}

/// The place in ascending order of an entry `(balance, account)`: behind every
/// stored entry that comes before it.
fn slot_for(rank: &Vec<(u128, String)>, balance: u128, account: &String) -> (p: usize)
    ensures
        p <= rank.len(),
        forall|j: int| 0 <= j < p ==> entry_lt(#[trigger] entries(rank@)[j], (balance, account@)),
        p < rank.len() ==> !entry_lt(entries(rank@)[p as int], (balance, account@)),
{
    let mut p: usize = 0;
    while p < rank.len() && entry_before(rank[p].0, rank[p].1.as_str(), balance, account.as_str())
        invariant
            p <= rank.len(),
            forall|j: int|
                0 <= j < p ==> entry_lt(#[trigger] entries(rank@)[j], (balance, account@)),
        decreases rank.len() - p,
    {
        p += 1;
    }
    p
}

/// Records on the leaderboard that `account` has reached `balance`.
///
/// The entry that leaves, if one does, is taken out, and the new entry is put
/// in at its place in order: on a board that was in order this gives what
/// sorting the amended board gives.
pub fn place(rank: &mut Vec<(u128, String)>, account: &String, balance: u128)
    requires
        board_valid(entries(old(rank)@)),
    ensures
        entries(final(rank)@) == ranked(entries(old(rank)@), account@, balance),
        board_valid(entries(final(rank)@)),
{
    let ghost before = entries(rank@);
    let ghost entry = (balance, account@);
    let leaving: Option<usize> = match find(rank, account) {
        Some(i) => Some(i),
        None => if rank.len() < RANK_MAX {
            None
        } else if balance > rank[0].0 {
            Some(0)
        } else {
            proof {
                lemma_ranked_unchanged(before, account@, balance);
            }
            return ;
        },
    };
    if let Some(i) = leaving {
        rank.remove(i);
        proof {
            assert(entries(rank@) =~= before.remove(i as int));
            lemma_remove_keeps_order(before, i as int);
            to_multiset_remove(before, i as int);
            to_multiset_update(before, i as int, entry);
            to_multiset_contains(before, before[i as int]);
            if ranks(before, account@) {
                lemma_slot_of(before, i as int);
            } else {
                let rest = before.remove(i as int);
                assert forall|k: int| 0 <= k < rest.len() implies (#[trigger] rest[k]).1
                    != account@ by {
                    let k0 = if k < i { k } else { k + 1 };
                    assert(rest[k] == before[k0]);
                }
            }
        }
    }
    let ghost kept = entries(rank@);
    let p = slot_for(rank, balance, account);
    rank.insert(p, (balance, account.clone()));
    proof {
        assert(entries(rank@) =~= kept.insert(p as int, entry));
        lemma_insert_keeps_order(kept, p as int, entry);
        to_multiset_insert(kept, p as int, entry);
        to_multiset_build(before, entry);
        assert(entries(rank@).to_multiset() =~= amended(before, account@, balance).to_multiset());
        lemma_ascending_is_ranked(before, account@, balance, entries(rank@));
    }
}

/// Whether the stored entries form a well-formed board.
pub fn is_board(rank: &Vec<(u128, String)>) -> (ok: bool)
    ensures
        ok == board_valid(entries(rank@)),
{
    let ghost board = entries(rank@);
    if rank.len() > RANK_MAX {
        return false;
    }
    let mut i: usize = 1;
    while i < rank.len()
        invariant
            1 <= i,
            board == entries(rank@),
            forall|a: int, b: int|
                0 <= a < b < i && b < board.len() ==> entry_lt(
                    #[trigger] board[a],
                    #[trigger] board[b],
                ),
        decreases rank.len() - i,
    {
        if !entry_before(rank[i - 1].0, rank[i - 1].1.as_str(), rank[i].0, rank[i].1.as_str()) {
            assert(!entry_lt(board[i - 1], board[i as int]));
            return false;
        }
        proof {
            assert forall|a: int, b: int| 0 <= a < b < i + 1 && b < board.len() implies entry_lt(
                #[trigger] board[a],
                #[trigger] board[b],
            ) by {
                if b == i && a < i - 1 {
                    lemma_entry_lt_transitive(board[a], board[i - 1], board[b]);
                }
            }
        }
        i += 1;
    }
    let mut i: usize = 0;
    while i < rank.len()
        invariant
            i <= rank.len(),
            board == entries(rank@),
            forall|a: int, b: int|
                0 <= a < b < board.len() && a < i ==> (#[trigger] board[a]).1 != (
                #[trigger] board[b]).1,
        decreases rank.len() - i,
    {
        let mut j: usize = i + 1;
        while j < rank.len()
            invariant
                i < j <= rank.len(),
                board == entries(rank@),
                forall|b: int| i < b < j ==> board[i as int].1 != (#[trigger] board[b]).1,
            decreases rank.len() - j,
        {
            if rank[i].1 == rank[j].1 {
                assert(board[i as int].1 == board[j as int].1);
                return false;
            }
            j += 1;
        }
        i += 1;
    }
    true
}

} // verus!

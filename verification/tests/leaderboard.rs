use mooncake::leaderboard::{find, place, RANK_MAX};
use mooncake::order::{entry_before, str_lt};

fn entry(balance: u128, account: &str) -> (u128, String) {
    (balance, account.to_string())
}

#[test]
fn texts_are_ordered_by_their_bytes() {
    assert!(str_lt("a", "b"));
    assert!(!str_lt("b", "a"));
    assert!(!str_lt("same", "same"));
    assert!(str_lt("", "a"));
    assert!(!str_lt("a", ""));
    assert!(!str_lt("", ""));
    assert!(str_lt("ab", "abc"));
    assert!(!str_lt("abc", "ab"));
    assert!(str_lt("test_account_11", "test_account_2"));
    assert!(str_lt("Z", "a"));
    assert!(str_lt("z", "é"));
    assert!(str_lt("é", "€"));
    for (a, b) in [("alice", "bob"), ("a-b", "a_b"), ("x1", "x10"), ("é", "e"), ("", "0")] {
        assert_eq!(str_lt(a, b), a < b);
        assert_eq!(str_lt(b, a), b < a);
    }
}

#[test]
fn entries_are_ordered_by_balance_then_account() {
    assert!(entry_before(1, "zed", 2, "amy"));
    assert!(!entry_before(2, "amy", 1, "zed"));
    assert!(entry_before(2, "amy", 2, "zed"));
    assert!(!entry_before(2, "zed", 2, "amy"));
    assert!(!entry_before(2, "amy", 2, "amy"));
}

#[test]
fn find_gives_the_slot_of_an_account() {
    let rank = vec![entry(1, "c"), entry(2, "a"), entry(5, "b")];
    assert_eq!(find(&rank, &"c".to_string()), Some(0));
    assert_eq!(find(&rank, &"a".to_string()), Some(1));
    assert_eq!(find(&rank, &"b".to_string()), Some(2));
    assert_eq!(find(&rank, &"d".to_string()), None);
    assert_eq!(find(&Vec::new(), &"a".to_string()), None);
}

#[test]
fn place_appends_a_new_account_in_order() {
    let mut rank: Vec<(u128, String)> = Vec::new();
    place(&mut rank, &"m".to_string(), 4);
    place(&mut rank, &"a".to_string(), 9);
    place(&mut rank, &"z".to_string(), 1);
    place(&mut rank, &"b".to_string(), 4);
    assert_eq!(rank, vec![entry(1, "z"), entry(4, "b"), entry(4, "m"), entry(9, "a")]);
}

#[test]
fn place_overwrites_the_entry_of_a_ranked_account() {
    let mut rank = vec![entry(1, "c"), entry(2, "a"), entry(5, "b")];
    place(&mut rank, &"c".to_string(), 3);
    assert_eq!(rank, vec![entry(2, "a"), entry(3, "c"), entry(5, "b")]);
    place(&mut rank, &"b".to_string(), 6);
    assert_eq!(rank, vec![entry(2, "a"), entry(3, "c"), entry(6, "b")]);
    place(&mut rank, &"a".to_string(), 3);
    assert_eq!(rank, vec![entry(3, "a"), entry(3, "c"), entry(6, "b")]);
}

#[test]
fn place_on_a_full_board_needs_more_than_the_minimum() {
    assert_eq!(RANK_MAX, 10);
    let mut rank: Vec<(u128, String)> = Vec::new();
    for i in 0..10u128 {
        place(&mut rank, &format!("acct{}", i), 10 + i);
    }
    let full = rank.clone();
    assert_eq!(rank.len(), 10);

    place(&mut rank, &"low".to_string(), 9);
    assert_eq!(rank, full);
    place(&mut rank, &"tie".to_string(), 10);
    assert_eq!(rank, full);

    place(&mut rank, &"new".to_string(), 15);
    assert_eq!(rank.len(), 10);
    assert_eq!(rank[0], entry(11, "acct1"));
    assert_eq!(rank[4], entry(15, "acct5"));
    assert_eq!(rank[5], entry(15, "new"));
    assert_eq!(rank[9], entry(19, "acct9"));
    assert_eq!(find(&rank, &"acct0".to_string()), None);
}

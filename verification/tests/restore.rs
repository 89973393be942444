use std::collections::HashMap;

use mooncake::karma::Karma;
use mooncake::leaderboard::is_board;
use mooncake::quota::Quota;

fn name(id: usize) -> String {
    format!("acct{:02}", id)
}

fn quota(value: u16) -> Quota {
    Quota { value, last_used_at: 50 }
}

#[test]
fn is_board_tells_a_well_formed_board() {
    assert!(is_board(&Vec::new()));
    assert!(is_board(&vec![(1, name(2)), (1, name(3)), (4, name(1))]));
    assert!(!is_board(&vec![(1, name(3)), (1, name(2))]));
    assert!(!is_board(&vec![(2, name(1)), (1, name(2))]));
    assert!(!is_board(&vec![(1, name(1)), (1, name(1))]));
    assert!(!is_board(&vec![(1, name(1)), (2, name(2)), (3, name(1))]));
    let ten: Vec<(u128, String)> = (0..10).map(|i| (i as u128 + 1, name(i))).collect();
    assert!(is_board(&ten));
    let eleven: Vec<(u128, String)> = (0..11).map(|i| (i as u128 + 1, name(i))).collect();
    assert!(!is_board(&eleven));
}

#[test]
fn restore_gives_back_the_engine() {
    let mut karma = Karma::new();
    karma.increase(&name(1), &"t1".to_string(), 50);
    karma.increase(&name(2), &"t2".to_string(), 50);
    karma.increase(&name(2), &"t2".to_string(), 50);

    let balances = vec![(name(1), 1), (name(2), 2)];
    let quotas = vec![("t1".to_string(), quota(2)), ("t2".to_string(), quota(1))];
    let again = Karma::restore(balances, quotas, karma.rank().clone()).unwrap();
    assert_eq!(again.rank(), karma.rank());
    for who in [name(1), name(2), name(3)] {
        assert_eq!(again.balance(&who), karma.balance(&who));
    }
    for asset in ["t1", "t2", "t3"] {
        assert_eq!(again.quota(&asset.to_string()), karma.quota(&asset.to_string()));
    }

    let mut again = again;
    again.increase(&name(1), &"t2".to_string(), 51);
    assert_eq!(again.rank(), &vec![(2, name(1)), (2, name(2))]);
    assert_eq!(again.quota(&"t2".to_string()), Some(Quota { value: 0, last_used_at: 51 }));
}

#[test]
fn restore_of_nothing_is_a_new_engine() {
    let karma = Karma::restore(Vec::new(), Vec::new(), Vec::new()).unwrap();
    assert!(karma.rank().is_empty());
    assert_eq!(karma.balance(&name(1)), None);
}

#[test]
fn restore_lets_the_last_record_of_a_key_count() {
    let balances = vec![(name(1), 7), (name(1), 3)];
    let quotas = vec![("t".to_string(), quota(9)), ("t".to_string(), quota(3))];
    let karma = Karma::restore(balances, quotas, vec![(3, name(1))]).unwrap();
    assert_eq!(karma.balance(&name(1)), Some(3));
    assert_eq!(karma.quota(&"t".to_string()), Some(quota(3)));
}

#[test]
fn restore_refuses_what_does_not_fit() {
    let board = vec![(1, name(1)), (2, name(2))];
    let balances = vec![(name(1), 1), (name(2), 2)];
    assert!(Karma::restore(balances.clone(), Vec::new(), board.clone()).is_some());

    // A quota above the maximum.
    assert!(Karma::restore(balances.clone(), vec![("t".to_string(), quota(4))], board.clone()).is_none());
    // A balance of zero.
    assert!(Karma::restore(vec![(name(1), 0)], Vec::new(), vec![(0, name(1))]).is_none());
    // A board out of order.
    assert!(Karma::restore(balances.clone(), Vec::new(), vec![(2, name(2)), (1, name(1))]).is_none());
    // An entry that shows another balance than the one on record.
    assert!(Karma::restore(balances.clone(), Vec::new(), vec![(1, name(1)), (3, name(2))]).is_none());
    // An entry of an account without a balance.
    assert!(Karma::restore(vec![(name(1), 1)], Vec::new(), board.clone()).is_none());
    // An account left out although there is room.
    assert!(Karma::restore(balances.clone(), Vec::new(), vec![(1, name(1))]).is_none());
}

#[test]
fn restore_accepts_an_account_kept_out_by_a_full_board() {
    let board: Vec<(u128, String)> = (0..10).map(|i| (i as u128 + 5, name(i))).collect();
    let mut balances: Vec<(String, u128)> = board.iter().map(|e| (e.1.clone(), e.0)).collect();
    balances.push((name(10), 5));
    assert!(Karma::restore(balances.clone(), Vec::new(), board.clone()).is_some());
    balances.push((name(11), 6));
    assert!(Karma::restore(balances, Vec::new(), board).is_none());
}

#[test]
fn restoring_only_what_a_transfer_touches_changes_nothing() {
    let mut whole = Karma::new();
    let mut balances: HashMap<String, u128> = HashMap::new();
    let mut quotas: HashMap<String, Quota> = HashMap::new();
    let mut rank: Vec<(u128, String)> = Vec::new();

    for step in 0..300usize {
        let sender = name((step * 7) % 13);
        let asset = format!("asset_{}", step % 120);
        let now = 1_000 + (step as u64) * 400_000;

        let mut some_balances: Vec<(String, u128)> =
            rank.iter().map(|(balance, account)| (account.clone(), *balance)).collect();
        if let Some(balance) = balances.get(&sender) {
            some_balances.push((sender.clone(), *balance));
        }
        let some_quotas: Vec<(String, Quota)> =
            quotas.get(&asset).map(|quota| (asset.clone(), *quota)).into_iter().collect();
        let mut part = Karma::restore(some_balances, some_quotas, rank.clone()).unwrap();
        part.increase(&sender, &asset, now);
        if let Some(balance) = part.balance(&sender) {
            balances.insert(sender.clone(), balance);
        }
        if let Some(quota) = part.quota(&asset) {
            quotas.insert(asset.clone(), quota);
        }
        rank = part.rank().clone();

        whole.increase(&sender, &asset, now);
        assert_eq!(&rank, whole.rank());
        assert_eq!(balances.get(&sender).copied(), whole.balance(&sender));
        assert_eq!(quotas.get(&asset).copied(), whole.quota(&asset));
    }
    for who in 0..13 {
        assert_eq!(balances.get(&name(who)).copied(), whole.balance(&name(who)));
    }
    assert_eq!(balances.len(), 13);
    assert_eq!(rank.len(), 10);
}

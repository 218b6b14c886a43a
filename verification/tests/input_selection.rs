use rand::rngs::StdRng;
use rand::seq::SliceRandom;
use rand::{Rng, SeedableRng};

use wallet_engine::WalletError;
use wallet_engine::address::{AddressBuilder, AddressValue};
use wallet_engine::input_selection::{Input, select_input};

fn seeded_rng() -> StdRng {
    let mut seed = [0u8; 32];
    seed[0] = 1;
    seed[1] = 2;
    seed[2] = 3;
    seed[3] = 4;
    StdRng::from_seed(seed)
}

fn generate_random_utxos(rng: &mut StdRng, utxos_number: usize) -> Vec<Input> {
    let mut available_utxos = Vec::new();
    for i in 0..utxos_number {
        let address = AddressBuilder::new()
            .address(AddressValue::new(vec![0; 32]))
            .balance(rng.gen_range(0..2000))
            .key_index(i)
            .build()
            .unwrap();
        available_utxos.push(Input {
            address: address.address.clone(),
            balance: address.balance,
        });
    }
    available_utxos
}

fn sum_random_utxos(rng: &mut StdRng, available_utxos: &mut Vec<Input>) -> u64 {
    let utxos_picked_len = rng.gen_range(2..available_utxos.len() / 2);
    available_utxos.shuffle(&mut rand::thread_rng());
    available_utxos[..utxos_picked_len]
        .iter()
        .fold(0, |acc, address| acc + address.balance)
}

#[test]
fn exact_match() {
    let mut rng = seeded_rng();
    for _i in 0..20 {
        let mut available_utxos = generate_random_utxos(&mut rng, 30);
        let sum_utxos_picked = sum_random_utxos(&mut rng, &mut available_utxos);
        let selected = select_input(sum_utxos_picked, &mut available_utxos).unwrap();
        assert_eq!(
            selected.iter().fold(0, |acc, address| { acc + address.balance }),
            sum_utxos_picked
        );
    }
}

#[test]
fn insufficient_funds() {
    let mut rng = seeded_rng();
    let mut available_utxos = generate_random_utxos(&mut rng, 30);
    let target = available_utxos.iter().fold(0, |acc, address| acc + address.balance) + 1;
    let response = select_input(target, &mut available_utxos);
    assert!(response.is_err());
}

#[test]
fn random_target() {
    let mut rng = seeded_rng();
    for _ in 0..20 {
        let mut available_utxos = generate_random_utxos(&mut rng, 30);
        let sum_utxos = available_utxos.iter().fold(0, |acc, address| acc + address.balance);
        let target = rng.gen_range(sum_utxos / 2..sum_utxos * 2);
        let response = select_input(target, &mut available_utxos);
        if target > sum_utxos {
            assert!(response.is_err());
        } else {
            assert!(response.is_ok());
            let selected = response.unwrap();
            assert!(selected.into_iter().fold(0, |acc, address| acc + address.balance) >= target);
        }
    }
}

fn input_with_balance(key: u8, balance: u64) -> Input {
    Input { address: AddressValue::new(vec![key; 32]), balance }
}

#[test]
fn selection_covers_target_or_fails() {
    let mut candidates = vec![
        input_with_balance(1, 20),
        input_with_balance(2, 30),
        input_with_balance(3, 7),
    ];
    let selected = select_input(40, &mut candidates).unwrap();
    let total: u64 = selected.iter().map(|i| i.balance).sum();
    assert!(total >= 40);

    let err = select_input(58, &mut candidates).unwrap_err();
    assert_eq!(err, WalletError::InsufficientFunds);
}

#[test]
fn exact_subset_is_found() {
    let mut candidates = vec![
        input_with_balance(1, 20),
        input_with_balance(2, 30),
        input_with_balance(3, 7),
    ];
    let selected = select_input(27, &mut candidates).unwrap();
    let total: u64 = selected.iter().map(|i| i.balance).sum();
    assert_eq!(total, 27);

    let selected = select_input(57, &mut candidates).unwrap();
    let total: u64 = selected.iter().map(|i| i.balance).sum();
    assert_eq!(total, 57);
}

#[test]
fn selection_only_reorders_the_candidates() {
    let mut candidates = vec![
        input_with_balance(1, 20),
        input_with_balance(2, 30),
        input_with_balance(3, 7),
    ];
    select_input(31, &mut candidates).unwrap();
    let mut balances: Vec<u64> = candidates.iter().map(|i| i.balance).collect();
    balances.sort();
    assert_eq!(balances, vec![7, 20, 30]);
}

#[test]
fn fallback_takes_the_shortest_covering_prefix() {
    // no subset of {4, 6, 8} sums to 5, so the random draw decides: the
    // result is the shortest prefix of the reordered candidates whose sum
    // reaches the target
    let mut candidates = vec![
        input_with_balance(1, 4),
        input_with_balance(2, 6),
        input_with_balance(3, 8),
    ];
    let selected = select_input(5, &mut candidates).unwrap();
    let total: u64 = selected.iter().map(|i| i.balance).sum();
    assert!(total >= 5);
    let without_last: u64 = total - selected.last().unwrap().balance;
    assert!(without_last < 5);
    for (chosen, candidate) in selected.iter().zip(candidates.iter()) {
        assert_eq!(chosen.balance, candidate.balance);
        assert_eq!(chosen.address.bytes, candidate.address.bytes);
    }
}

#[test]
fn zero_target_needs_nothing() {
    let mut candidates: Vec<Input> = vec![];
    let selected = select_input(0, &mut candidates).unwrap();
    assert!(selected.is_empty());
    assert!(select_input(1, &mut candidates).is_err());
}

#[test]
fn whole_target_range_is_served() {
    let mut candidates = vec![
        input_with_balance(1, 5),
        input_with_balance(2, 9),
        input_with_balance(3, 1),
        input_with_balance(4, 14),
    ];
    let sum: u64 = candidates.iter().map(|i| i.balance).sum();
    for target in 0..=sum {
        let selected = select_input(target, &mut candidates).unwrap();
        let total: u64 = selected.iter().map(|i| i.balance).sum();
        assert!(total >= target);
    }
    assert!(select_input(sum + 1, &mut candidates).is_err());
}

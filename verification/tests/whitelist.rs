use solana_net_core::whitelist::{update_static_keys, ValidatorWhitelist};
use std::hint::black_box;
use std::time::Instant;

fn make_key(seed: u64) -> [u8; 32] {
    let mut k = [0u8; 32];
    let mut x = seed.wrapping_mul(0x9E3779B97F4A7C15);
    for chunk in k.chunks_mut(8) {
        x ^= x >> 30;
        x = x.wrapping_mul(0xBF58476D1CE4E5B9);
        chunk.copy_from_slice(&x.to_le_bytes());
    }
    k
}

fn setup(n: usize) -> (ValidatorWhitelist, Vec<[u8; 32]>) {
    let mut keys: Vec<[u8; 32]> = (0..n as u64).map(make_key).collect();
    keys.sort();
    let mut whitelist = ValidatorWhitelist::new();
    update_static_keys(&mut whitelist, &keys);
    (whitelist, keys)
}

#[test]
fn whitelist_correctness() {
    let (whitelist, keys) = setup(512);
    let mut mismatches = 0;
    let mut avx_found = 0;
    let mut scalar_found = 0;

    // Keys in the list: both checks answer true.
    for k in &keys {
        let avx = whitelist.is_trusted_avx512(k);
        let scalar = whitelist.is_trusted(k);
        if avx {
            avx_found += 1;
        }
        if scalar {
            scalar_found += 1;
        }
        if avx != scalar {
            mismatches += 1;
            if mismatches <= 5 {
                println!("[MISMATCH] key in list: avx={} scalar={}", avx, scalar);
            }
        }
    }

    // Keys not in the list: both checks answer false.
    for seed in 100_000..100_512u64 {
        let k = make_key(seed);
        let avx = whitelist.is_trusted_avx512(&k);
        let scalar = whitelist.is_trusted(&k);
        assert!(!avx);
        if avx != scalar {
            mismatches += 1;
            if mismatches <= 10 {
                println!("[MISMATCH] key NOT in list: avx={} scalar={}", avx, scalar);
            }
        }
    }

    println!("[CORRECTNESS] keys in list: {}", keys.len());
    println!(
        "[CORRECTNESS] avx found {} / scalar found {} (of {} in the list)",
        avx_found,
        scalar_found,
        keys.len()
    );
    println!("[CORRECTNESS] mismatches (avx vs scalar): {}", mismatches);

    assert_eq!(scalar_found, keys.len(), "the binary search missed a key");
    assert_eq!(mismatches, 0, "the scan and the binary search disagree");
}

fn nanos_per_call<F: Fn() -> bool>(iters: u64, check: F) -> f64 {
    let start = Instant::now();
    for _ in 0..iters {
        black_box(check());
    }
    start.elapsed().as_nanos() as f64 / iters as f64
}

#[test]
fn whitelist_bench_rdtsc() {
    let (whitelist, keys) = setup(512);
    let first = keys[0]; // found in the first step
    let middle = keys[256]; // half a scan
    let absent = make_key(999_999); // a full scan

    for _ in 0..100_000 {
        let _ = black_box(whitelist.is_trusted_avx512(black_box(&middle)));
    }

    const ITERS: u64 = 1_000_000;

    let avx_first = nanos_per_call(ITERS, || whitelist.is_trusted_avx512(black_box(&first)));
    let avx_middle = nanos_per_call(ITERS, || whitelist.is_trusted_avx512(black_box(&middle)));
    let avx_absent = nanos_per_call(ITERS, || whitelist.is_trusted_avx512(black_box(&absent)));
    let sc_first = nanos_per_call(ITERS, || whitelist.is_trusted(black_box(&first)));
    let sc_middle = nanos_per_call(ITERS, || whitelist.is_trusted(black_box(&middle)));
    let sc_absent = nanos_per_call(ITERS, || whitelist.is_trusted(black_box(&absent)));

    println!("=== WHITELIST BENCH: 512 keys, {} iterations, ns per call ===", ITERS);
    println!("                 scan (O(n))   binary search (O(log n))");
    println!("first   [0]:    {:>8.1}        {:>8.1}", avx_first, sc_first);
    println!("middle  [256]:  {:>8.1}        {:>8.1}", avx_middle, sc_middle);
    println!("absent:         {:>8.1}        {:>8.1}", avx_absent, sc_absent);
    println!("full scan: {:.2} ns per key pair", avx_absent / 256.0);
}

fn listed(whitelist: &ValidatorWhitelist, key: &[u8; 32]) -> (bool, bool) {
    (whitelist.is_trusted_avx512(key), whitelist.is_trusted(key))
}

#[test]
fn empty_whitelist_trusts_nothing() {
    let whitelist = ValidatorWhitelist::new();
    assert_eq!(whitelist.count, 0);
    assert_eq!(listed(&whitelist, &[0u8; 32]), (false, false));
    assert_eq!(listed(&whitelist, &make_key(1)), (false, false));
}

#[test]
fn both_keys_of_a_pair_are_found() {
    let (whitelist, keys) = setup(4);
    for key in &keys {
        assert_eq!(listed(&whitelist, key), (true, true));
    }
    // One byte off at either end of the key, in both halves of a pair.
    for key in &keys {
        let mut first_byte = *key;
        first_byte[0] ^= 1;
        let mut last_byte = *key;
        last_byte[31] ^= 0x80;
        assert_eq!(listed(&whitelist, &first_byte), (false, false));
        assert_eq!(listed(&whitelist, &last_byte), (false, false));
    }
}

#[test]
fn halves_of_two_keys_do_not_make_a_match() {
    let mut a = [1u8; 32];
    let mut b = [2u8; 32];
    a[16..].copy_from_slice(&[3u8; 16]);
    b[16..].copy_from_slice(&[4u8; 16]);
    let mut mixed = [1u8; 32];
    mixed[16..].copy_from_slice(&[4u8; 16]);
    let mut whitelist = ValidatorWhitelist::new();
    update_static_keys(&mut whitelist, &[a, b]);
    assert_eq!(listed(&whitelist, &a), (true, true));
    assert_eq!(listed(&whitelist, &b), (true, true));
    assert_eq!(listed(&whitelist, &mixed), (false, false));
}

#[test]
fn odd_count_is_safe() {
    let (whitelist, keys) = setup(3);
    assert_eq!(whitelist.count, 3);
    for key in &keys {
        assert!(whitelist.is_trusted_avx512(key));
    }
    // The slot past the last key holds zeros; the zero key is not trusted for that.
    let zero = [0u8; 32];
    let mut other = ValidatorWhitelist::new();
    update_static_keys(&mut other, &[[7u8; 32]]);
    assert_eq!(listed(&other, &zero), (false, false));
    assert_eq!(listed(&other, &[7u8; 32]), (true, true));
}

#[test]
fn shorter_update_drops_the_old_keys() {
    let mut whitelist = ValidatorWhitelist::new();
    let old = [[1u8; 32], [2u8; 32], [3u8; 32], [4u8; 32]];
    update_static_keys(&mut whitelist, &old);
    let new = [[1u8; 32], [2u8; 32], [9u8; 32]];
    update_static_keys(&mut whitelist, &new);
    assert_eq!(whitelist.count, 3);
    assert_eq!(whitelist.keys[3], [4u8; 32]);
    assert_eq!(listed(&whitelist, &[9u8; 32]), (true, true));
    assert_eq!(listed(&whitelist, &[3u8; 32]), (false, false));
    assert_eq!(listed(&whitelist, &[4u8; 32]), (false, false));
}

#[test]
fn update_cuts_at_the_capacity() {
    let mut keys: Vec<[u8; 32]> = Vec::new();
    for i in 0..2050u32 {
        let mut key = [0u8; 32];
        key[..4].copy_from_slice(&i.to_be_bytes());
        keys.push(key);
    }
    let mut whitelist = ValidatorWhitelist::new();
    update_static_keys(&mut whitelist, &keys);
    assert_eq!(whitelist.count, 2048);
    assert_eq!(listed(&whitelist, &keys[2047]), (true, true));
    assert_eq!(listed(&whitelist, &keys[2048]), (false, false));
    assert_eq!(listed(&whitelist, &keys[2049]), (false, false));
}

#[test]
fn set_count_clamps_and_restores() {
    let (mut whitelist, keys) = setup(5);
    whitelist.set_count(2);
    assert_eq!(whitelist.count, 2);
    assert_eq!(listed(&whitelist, &keys[1]), (true, true));
    assert_eq!(listed(&whitelist, &keys[2]), (false, false));
    whitelist.set_count(5);
    assert_eq!(listed(&whitelist, &keys[4]), (true, true));
    whitelist.set_count(5000);
    assert_eq!(whitelist.count, 2048);
    whitelist.set_count(0);
    assert_eq!(listed(&whitelist, &keys[0]), (false, false));
}

#[test]
fn scan_needs_no_order() {
    let mut whitelist = ValidatorWhitelist::new();
    let keys = [[5u8; 32], [1u8; 32], [9u8; 32]];
    update_static_keys(&mut whitelist, &keys);
    for key in &keys {
        assert!(whitelist.is_trusted_avx512(key));
    }
}

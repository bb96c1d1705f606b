use base64_secret::alphabet::{arrange, reversed, weigh};
use base64_secret::order::sort_positions;
use base64_secret::symbols::symbol_at;
use base64_secret::Base64;

const SYMBOLS: &str = "ABCDEFGHIJKLMNOPQRSTUVWXYZabcdefghijklmnopqrstuvwxyz0123456789-_";

/// The derivation written with the standard library's stable sort.
fn alphabet_by_std_sort(key: &[u8]) -> String {
    let backward: Vec<u8> = key.iter().cloned().rev().collect();
    let hash = crc32fast::hash(key);
    let rev_hash = crc32fast::hash(&backward);
    let mut weighed: Vec<(char, u32)> = Vec::new();
    for (i, c) in SYMBOLS.chars().enumerate() {
        let divisor = if i % 2 == 0 { hash } else { rev_hash };
        let sum = crc32fast::hash(c.to_string().as_bytes());
        weighed.push((c, if divisor == 0 { 0 } else { sum % divisor }));
    }
    weighed.sort_by_key(|pair| std::cmp::Reverse(pair.1));
    weighed.iter().map(|pair| pair.0).collect()
}

#[test]
fn symbols_are_the_url_safe_ones() {
    let listed: String = (0..64).map(symbol_at).collect();
    assert_eq!(listed, SYMBOLS);
}

#[test]
fn weight_is_the_remainder() {
    assert_eq!(weigh(10, 3), 1);
    assert_eq!(weigh(5, 7), 5);
    assert_eq!(weigh(0xd3d9_9e8b, 0xd87f_7e0c), 0xd3d9_9e8b);
    assert_eq!(weigh(0xd87f_7e0c, 0xd3d9_9e8b), 0x04a5_df81);
    assert_eq!(weigh(u32::MAX, 1), 0);
    assert_eq!(weigh(u32::MAX, u32::MAX), 0);
}

#[test]
fn weight_by_zero_is_zero() {
    assert_eq!(weigh(10, 0), 0);
    assert_eq!(weigh(0, 0), 0);
    assert_eq!(weigh(u32::MAX, 0), 0);
}

#[test]
fn reversed_turns_the_bytes_round() {
    assert_eq!(reversed(b""), Vec::<u8>::new());
    assert_eq!(reversed(b"a"), b"a".to_vec());
    assert_eq!(reversed(b"test\0"), b"\0tset".to_vec());
}

#[test]
fn positions_are_sorted_heaviest_first() {
    assert_eq!(sort_positions(&[]), Vec::<usize>::new());
    assert_eq!(sort_positions(&[9]), vec![0]);
    assert_eq!(sort_positions(&[5, 7, 5]), vec![1, 0, 2]);
    assert_eq!(sort_positions(&[1, 2, 3, 4]), vec![3, 2, 1, 0]);
    assert_eq!(sort_positions(&[0, u32::MAX, 0, u32::MAX]), vec![1, 3, 0, 2]);
}

#[test]
fn equal_weights_keep_their_order() {
    assert_eq!(sort_positions(&[4, 4, 4, 4, 4]), vec![0, 1, 2, 3, 4]);
    assert_eq!(sort_positions(&[1, 9, 1, 9, 1, 9]), vec![1, 3, 5, 0, 2, 4]);
}

#[test]
fn arrange_moves_heavier_symbols_forward() {
    assert_eq!(arrange(&[0; 64]), SYMBOLS);
    assert_eq!(arrange(&[7; 64]), SYMBOLS);
    let mut weights = [0u32; 64];
    weights[5] = 10;
    weights[63] = 10;
    weights[1] = 11;
    assert_eq!(
        arrange(&weights),
        "BF_ACDEGHIJKLMNOPQRSTUVWXYZabcdefghijklmnopqrstuvwxyz0123456789-"
    );
    let mut rising = [0u32; 64];
    for (i, w) in rising.iter_mut().enumerate() {
        *w = i as u32;
    }
    let turned: String = SYMBOLS.chars().rev().collect();
    assert_eq!(arrange(&rising), turned);
}

#[test]
fn alphabet_of_known_keys() {
    assert_eq!(
        Base64::get_alphabet(b"test"),
        "EAQUYTPXLHDd-lh9xt51pjnfb3rv7zZRVFBJNCGOK_Wy8S6qw04s2ueaoimkcIMg"
    );
    assert_eq!(
        Base64::get_alphabet(b"test1"),
        "Ddlh9xt51pjnfby83rv7q04uezaiZRmIVMFBEAJQNUCGYOK_WS6ws2TPXo-kcLHg"
    );
    assert_eq!(
        Base64::get_alphabet(b"long and random key\0test\0"),
        "-yH8Vq0DF4uBeJdNaliChmG9xIMOKt5E1Apj_QWUnfS6bws2Y3rv7ToPzXkcZLRg"
    );
    assert_eq!(
        Base64::get_alphabet(b"a"),
        "imIMEAQUYTPXLHDd-lh9xt51pjnfb3rv7zZRVFBJNCGOK_WS6ws2y8oq04ukecga"
    );
}

#[test]
fn alphabet_of_the_empty_key() {
    assert_eq!(Base64::get_alphabet(b""), SYMBOLS);
}

#[test]
fn alphabet_is_the_same_each_time() {
    let keys: [&[u8]; 5] = [b"", b"a", b"test", b"\0\0\0", b"a much longer key than the others"];
    for key in keys {
        assert_eq!(Base64::get_alphabet(key), Base64::get_alphabet(key));
    }
}

#[test]
fn alphabet_holds_every_symbol_once() {
    let mut key: Vec<u8> = Vec::new();
    for n in 0..300usize {
        let alphabet = Base64::get_alphabet(&key);
        let mut found: Vec<char> = alphabet.chars().collect();
        found.sort();
        let mut wanted: Vec<char> = SYMBOLS.chars().collect();
        wanted.sort();
        assert_eq!(found, wanted);
        key.push((n * 73 + 5) as u8);
    }
}

#[test]
fn alphabet_agrees_with_the_standard_sort() {
    let mut key: Vec<u8> = Vec::new();
    for n in 0..300usize {
        assert_eq!(Base64::get_alphabet(&key), alphabet_by_std_sort(&key));
        key.push((n * 29 + 1) as u8);
    }
}

#[test]
fn alphabet_reads_the_key_in_both_directions() {
    assert_ne!(Base64::get_alphabet(b"ab"), Base64::get_alphabet(b"ba"));
    assert_eq!(Base64::get_alphabet(b"aba"), alphabet_by_std_sort(b"aba"));
}

use alloy_sol_types::SolValue;
use calculate_winner::codec::{decode_public_values, encode_public_values, PublicValues};
use calculate_winner::compute_winner;

fn word(v: u64) -> Vec<u8> {
    let mut w = vec![0u8; 24];
    w.extend_from_slice(&v.to_be_bytes());
    w
}

#[test]
fn encode_one_round_exact_bytes() {
    let bytes = encode_public_values(&vec![[0, 1]], 1);
    let mut expected = Vec::new();
    expected.extend_from_slice(&word(32)); // offset of the struct
    expected.extend_from_slice(&word(64)); // offset of the array
    expected.extend_from_slice(&word(1)); // outcome code
    expected.extend_from_slice(&word(1)); // number of rounds
    expected.extend_from_slice(&word(0)); // player move
    expected.extend_from_slice(&word(1)); // computer move
    assert_eq!(bytes, expected);
}

#[test]
fn encode_empty_game_exact_bytes() {
    let bytes = encode_public_values(&vec![], 2);
    let mut expected = Vec::new();
    expected.extend_from_slice(&word(32));
    expected.extend_from_slice(&word(64));
    expected.extend_from_slice(&word(2));
    expected.extend_from_slice(&word(0));
    assert_eq!(bytes, expected);
}

#[test]
fn encode_matches_the_contract_abi_encoding() {
    let games: Vec<Vec<[u32; 2]>> = vec![
        vec![],
        vec![[0, 1]],
        vec![[0, 2], [1, 0], [2, 1]],
        vec![[1, 1], [2, 2]],
        vec![[u32::MAX, 0], [7, 1000000]],
    ];
    for game in games {
        let win_count = compute_winner(game.clone());
        let ours = encode_public_values(&game, win_count);
        let reference = (game, win_count).abi_encode();
        assert_eq!(ours, reference);
    }
}

#[test]
fn decode_inverts_encode() {
    let cases: Vec<(Vec<[u32; 2]>, u32)> = vec![
        (vec![], 2),
        (vec![[0, 1]], 1),
        (vec![[0, 2], [1, 0], [2, 1]], 0),
        (vec![[9, 9], [u32::MAX, u32::MAX]], 77),
    ];
    for (game, win_count) in cases {
        let bytes = encode_public_values(&game, win_count);
        let decoded = decode_public_values(&bytes);
        assert_eq!(decoded, Some((game, win_count)));
    }
}

#[test]
fn decode_rejects_empty_and_truncated_input() {
    assert_eq!(decode_public_values(&[]), None);
    let bytes = encode_public_values(&vec![[0, 1]], 1);
    assert_eq!(decode_public_values(&bytes[..64]), None);
    assert_eq!(decode_public_values(&bytes[..bytes.len() - 1]), None);
}

#[test]
fn decode_rejects_trailing_bytes() {
    let mut bytes = encode_public_values(&vec![[0, 1]], 1);
    bytes.push(0);
    assert_eq!(decode_public_values(&bytes), None);
}

#[test]
fn decode_rejects_wrong_offset_words() {
    let good = encode_public_values(&vec![[0, 1]], 1);
    let mut wrong_struct_offset = good.clone();
    wrong_struct_offset[31] = 0x21;
    assert_eq!(decode_public_values(&wrong_struct_offset), None);
    let mut wrong_array_offset = good.clone();
    wrong_array_offset[63] = 0x20;
    assert_eq!(decode_public_values(&wrong_array_offset), None);
}

#[test]
fn decode_rejects_nonzero_padding() {
    let good = encode_public_values(&vec![[0, 1]], 1);
    // Every position below lies in a word's zero padding, so after the
    // tampering the bytes are no longer any record at all.
    for k in [0usize, 40, 70, 100, 130, 170] {
        assert_eq!(good[k], 0);
        let mut tampered = good.clone();
        tampered[k] = 1;
        assert_eq!(decode_public_values(&tampered), None);
    }
}

#[test]
fn decode_rejects_wrong_length_word() {
    let mut bytes = encode_public_values(&vec![[0, 1], [2, 2]], 2);
    bytes[127] = 1; // claims one round, two are present
    assert_eq!(decode_public_values(&bytes), None);
}

#[test]
fn decode_rejects_a_move_wider_than_32_bits() {
    let mut bytes = encode_public_values(&vec![[0, 1]], 1);
    bytes[128 + 27] = 1; // sets bit 32 of the player move word
    assert_eq!(decode_public_values(&bytes), None);
}

#[test]
fn decode_rejects_an_outcome_wider_than_32_bits() {
    let mut bytes = encode_public_values(&vec![[0, 1]], 1);
    bytes[64 + 27] = 1; // sets bit 32 of the outcome word
    assert_eq!(decode_public_values(&bytes), None);
}

#[test]
fn public_values_pair_game_with_its_outcome() {
    let pv = PublicValues::for_game(vec![[0, 2], [1, 0], [2, 1]]);
    assert_eq!(pv.win_count(), 0);
    assert_eq!(pv.game_result(), &vec![[0, 2], [1, 0], [2, 1]]);
    let bytes = pv.encode();
    assert_eq!(bytes, encode_public_values(&vec![[0, 2], [1, 0], [2, 1]], 0));
    assert_eq!(decode_public_values(&bytes), Some((vec![[0, 2], [1, 0], [2, 1]], 0)));
}

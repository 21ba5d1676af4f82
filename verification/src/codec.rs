//! Commitment codec: the canonical public-value record of a game.
//!
//! A proof run commits to the pair (game, win count) as bytes laid out in
//! the contract ABI style: a 32-byte word is a big-endian integer padded
//! with leading zeros. The record is the encoding of a dynamic struct
//! holding a dynamic array of move pairs and a 32-bit outcome code, so the
//! bytes are: the word 32 (offset of the struct), the word 64 (offset of
//! the array inside the struct), the outcome code, the number of rounds,
//! then two words per round — the player's move and the computer's move.
//! Encoding is injective, and `decode_public_values` is its exact inverse.

use vstd::prelude::*;
use vstd::arithmetic::div_mod::{lemma_fundamental_div_mod, lemma_mod_bound};
use crate::{compute_winner, copy_rounds, outcome_of};

verus! {

/// Byte `i` (0 <= i < 32) of the 32-byte big-endian encoding of `v`:
/// 24 leading zero bytes, then the 8 bytes of `v`, most significant first.
pub open spec fn be_word_byte(v: u64, i: int) -> u8 {
    if i < 24 {
        0u8
    } else {
        (((v >> (((31 - i) * 8) as u64)) & 0xFF) as u8)
    }
}

/// The 32-byte word holding `v`, big-endian, left-padded with zeros.
pub open spec fn abi_word(v: u64) -> Seq<u8> {
    Seq::new(32, |i: int| be_word_byte(v, i))
}

/// The two words of one round: the player's move, then the computer's.
pub open spec fn pair_words(r: [u32; 2]) -> Seq<u8> {
    abi_word(r[0] as u64) + abi_word(r[1] as u64)
}

/// The array body of the record: the rounds' words in order.
pub open spec fn rounds_bytes(rounds: Seq<[u32; 2]>) -> Seq<u8>
    decreases rounds.len(),
{
    if rounds.len() == 0 {
        Seq::<u8>::empty()
    } else {
        rounds_bytes(rounds.drop_last()) + pair_words(rounds.last())
    }
}

/// The full public-value record for a game and its outcome code.
pub open spec fn encode_spec(rounds: Seq<[u32; 2]>, win_count: u32) -> Seq<u8> {
    abi_word(32) + abi_word(64) + abi_word(win_count as u64) + abi_word(rounds.len() as u64)
        + rounds_bytes(rounds)
}

pub proof fn lemma_rounds_bytes_len(rounds: Seq<[u32; 2]>)
    ensures
        rounds_bytes(rounds).len() == 64 * rounds.len(),
    decreases rounds.len(),
{
    if rounds.len() > 0 {
        lemma_rounds_bytes_len(rounds.drop_last());
    }
}

/// The record is 128 bytes of header plus 64 bytes per round.
pub proof fn lemma_encode_len(rounds: Seq<[u32; 2]>, win_count: u32)
    ensures
        encode_spec(rounds, win_count).len() == 128 + 64 * rounds.len(),
{
    lemma_rounds_bytes_len(rounds);
}

proof fn lemma_rounds_bytes_index(rounds: Seq<[u32; 2]>, i: int, j: int)
    requires
        0 <= i < rounds.len(),
        0 <= j < 64,
    ensures
        rounds_bytes(rounds)[64 * i + j] == pair_words(rounds[i])[j],
    decreases rounds.len(),
{
    lemma_rounds_bytes_len(rounds.drop_last());
    if i == rounds.len() - 1 {
        assert(rounds.last() == rounds[i]);
    } else {
        lemma_rounds_bytes_index(rounds.drop_last(), i, j);
        assert(rounds.drop_last()[i] == rounds[i]);
    }
}

/// Appends the 32-byte word holding `v` to `out`.
fn push_abi_word(out: &mut Vec<u8>, v: u64)
    ensures
        final(out)@ == old(out)@ + abi_word(v),
{
    let mut j: usize = 0;
    while j < 32
        invariant
            j <= 32,
            out@.len() == old(out)@.len() + j,
            forall|k: int| 0 <= k < old(out)@.len() ==> out@[k] == old(out)@[k],
            forall|k: int| 0 <= k < j ==> out@[old(out)@.len() + k] == be_word_byte(v, k),
        decreases 32 - j,
    {
        let b: u8 = if j < 24 {
            0u8
        } else {
            let sh: u64 = ((31 - j) as u64) * 8;
            ((v >> sh) & 0xFF) as u8
        };
        proof {
            assert(b == be_word_byte(v, j as int));
        }
        out.push(b);
        j += 1;
    }
    proof {
        assert(out@ =~= old(out)@ + abi_word(v));
    }
}

proof fn lemma_bytes_to_u64(b0: u8, b1: u8, b2: u8, b3: u8, b4: u8, b5: u8, b6: u8, b7: u8, v: u64)
    by (bit_vector)
    requires
        v == ((b0 as u64) << 56) | ((b1 as u64) << 48) | ((b2 as u64) << 40) | ((b3 as u64) << 32)
            | ((b4 as u64) << 24) | ((b5 as u64) << 16) | ((b6 as u64) << 8) | (b7 as u64),
    ensures
        (v >> 56) & 0xFF == b0 as u64,
        (v >> 48) & 0xFF == b1 as u64,
        (v >> 40) & 0xFF == b2 as u64,
        (v >> 32) & 0xFF == b3 as u64,
        (v >> 24) & 0xFF == b4 as u64,
        (v >> 16) & 0xFF == b5 as u64,
        (v >> 8) & 0xFF == b6 as u64,
        (v >> 0) & 0xFF == b7 as u64,
{
}

proof fn lemma_u64_eq_from_bytes(v1: u64, v2: u64)
    by (bit_vector)
    requires
        (((v1 >> 56) & 0xFF) as u8) == (((v2 >> 56) & 0xFF) as u8),
        (((v1 >> 48) & 0xFF) as u8) == (((v2 >> 48) & 0xFF) as u8),
        (((v1 >> 40) & 0xFF) as u8) == (((v2 >> 40) & 0xFF) as u8),
        (((v1 >> 32) & 0xFF) as u8) == (((v2 >> 32) & 0xFF) as u8),
        (((v1 >> 24) & 0xFF) as u8) == (((v2 >> 24) & 0xFF) as u8),
        (((v1 >> 16) & 0xFF) as u8) == (((v2 >> 16) & 0xFF) as u8),
        (((v1 >> 8) & 0xFF) as u8) == (((v2 >> 8) & 0xFF) as u8),
        (((v1 >> 0) & 0xFF) as u8) == (((v2 >> 0) & 0xFF) as u8),
    ensures
        v1 == v2,
{
}

/// Two values with the same word are the same value.
pub proof fn lemma_abi_word_injective(v1: u64, v2: u64)
    requires
        abi_word(v1) == abi_word(v2),
    ensures
        v1 == v2,
{
    assert forall|k: int| 24 <= k < 32 implies be_word_byte(v1, k) == be_word_byte(v2, k) by {
        assert(abi_word(v1)[k] == be_word_byte(v1, k));
        assert(abi_word(v2)[k] == be_word_byte(v2, k));
    };
    assert(be_word_byte(v1, 24) == be_word_byte(v2, 24));
    assert(be_word_byte(v1, 25) == be_word_byte(v2, 25));
    assert(be_word_byte(v1, 26) == be_word_byte(v2, 26));
    assert(be_word_byte(v1, 27) == be_word_byte(v2, 27));
    assert(be_word_byte(v1, 28) == be_word_byte(v2, 28));
    assert(be_word_byte(v1, 29) == be_word_byte(v2, 29));
    assert(be_word_byte(v1, 30) == be_word_byte(v2, 30));
    assert(be_word_byte(v1, 31) == be_word_byte(v2, 31));
    lemma_u64_eq_from_bytes(v1, v2);
}

/// Reads the 32-byte word at `off`: `Some(v)` exactly when those bytes are
/// `abi_word(v)`, which asks that the 24 padding bytes are zero.
#[verifier::loop_isolation(false)]
fn read_abi_word(bytes: &[u8], off: usize) -> (r: Option<u64>)
    requires
        off + 32 <= bytes@.len(),
    ensures
        match r {
            Some(v) => bytes@.subrange(off as int, off as int + 32) == abi_word(v),
            None => forall|v: u64| bytes@.subrange(off as int, off as int + 32) != abi_word(v),
        },
{
    let len = bytes.len();
    let mut k: usize = 0;
    while k < 24
        invariant
            k <= 24,
            len == bytes@.len(),
            forall|t: int| off <= t < off + k ==> bytes@[t] == 0,
        decreases 24 - k,
    {
        if bytes[off + k] != 0 {
            proof {
                assert forall|v: u64| bytes@.subrange(off as int, off as int + 32) != abi_word(
                    v,
                ) by {
                    assert(abi_word(v)[k as int] == 0);
                    assert(bytes@.subrange(off as int, off as int + 32)[k as int] == bytes@[off
                        + k]);
                };
            }
            return None;
        }
        k += 1;
    }
    let b0 = bytes[off + 24];
    let b1 = bytes[off + 25];
    let b2 = bytes[off + 26];
    let b3 = bytes[off + 27];
    let b4 = bytes[off + 28];
    let b5 = bytes[off + 29];
    let b6 = bytes[off + 30];
    let b7 = bytes[off + 31];
    let v: u64 = ((b0 as u64) << 56) | ((b1 as u64) << 48) | ((b2 as u64) << 40) | ((b3 as u64)
        << 32) | ((b4 as u64) << 24) | ((b5 as u64) << 16) | ((b6 as u64) << 8) | (b7 as u64);
    proof {
        lemma_bytes_to_u64(b0, b1, b2, b3, b4, b5, b6, b7, v);
        let sub = bytes@.subrange(off as int, off as int + 32);
        assert forall|i: int| 0 <= i < 32 implies sub[i] == be_word_byte(v, i) by {
            assert(sub[i] == bytes@[off + i]);
            if i < 24 {
            } else if i == 24 {
                assert(be_word_byte(v, 24) == b0);
            } else if i == 25 {
                assert(be_word_byte(v, 25) == b1);
            } else if i == 26 {
                assert(be_word_byte(v, 26) == b2);
            } else if i == 27 {
                assert(be_word_byte(v, 27) == b3);
            } else if i == 28 {
                assert(be_word_byte(v, 28) == b4);
            } else if i == 29 {
                assert(be_word_byte(v, 29) == b5);
            } else if i == 30 {
                assert(be_word_byte(v, 30) == b6);
            } else {
                assert(be_word_byte(v, 31) == b7);
            }
        };
        assert(bytes@.subrange(off as int, off as int + 32) =~= abi_word(v));
    }
    Some(v)
}

/// Reads the word at `off` as a 32-bit move or outcome code: `Some(v)`
/// exactly when those bytes are the word of a value that fits in 32 bits.
fn read_u32_word(bytes: &[u8], off: usize) -> (r: Option<u32>)
    requires
        off + 32 <= bytes@.len(),
    ensures
        match r {
            Some(v) => bytes@.subrange(off as int, off as int + 32) == abi_word(v as u64),
            None => forall|v: u64|
                v <= 0xFFFF_FFFF ==> bytes@.subrange(off as int, off as int + 32) != abi_word(v),
        },
{
    match read_abi_word(bytes, off) {
        Some(v) => {
            if v <= 0xFFFF_FFFF {
                proof {
                    assert((v as u32) as u64 == v);
                }
                Some(v as u32)
            } else {
                proof {
                    assert forall|w: u64|
                        w <= 0xFFFF_FFFF implies bytes@.subrange(off as int, off as int + 32)
                        != abi_word(w) by {
                        if bytes@.subrange(off as int, off as int + 32) == abi_word(w) {
                            lemma_abi_word_injective(v, w);
                        }
                    };
                }
                None
            }
        },
        None => None,
    }
}

proof fn lemma_encode_head(g: Seq<[u32; 2]>, w: u32)
    ensures
        encode_spec(g, w).len() == 128 + 64 * g.len(),
        encode_spec(g, w).subrange(0, 32) == abi_word(32),
        encode_spec(g, w).subrange(32, 64) == abi_word(64),
        encode_spec(g, w).subrange(64, 96) == abi_word(w as u64),
        encode_spec(g, w).subrange(96, 128) == abi_word(g.len() as u64),
{
    lemma_rounds_bytes_len(g);
    assert(encode_spec(g, w).subrange(0, 32) =~= abi_word(32));
    assert(encode_spec(g, w).subrange(32, 64) =~= abi_word(64));
    assert(encode_spec(g, w).subrange(64, 96) =~= abi_word(w as u64));
    assert(encode_spec(g, w).subrange(96, 128) =~= abi_word(g.len() as u64));
}

proof fn lemma_rounds_bytes_subrange(g: Seq<[u32; 2]>, i: int)
    requires
        0 <= i < g.len(),
    ensures
        rounds_bytes(g).subrange(64 * i, 64 * i + 32) == abi_word(g[i][0] as u64),
        rounds_bytes(g).subrange(64 * i + 32, 64 * i + 64) == abi_word(g[i][1] as u64),
    decreases g.len(),
{
    lemma_rounds_bytes_len(g);
    lemma_rounds_bytes_len(g.drop_last());
    if i == g.len() - 1 {
        assert(g.last() == g[i]);
        assert(rounds_bytes(g).subrange(64 * i, 64 * i + 32) =~= abi_word(g[i][0] as u64));
        assert(rounds_bytes(g).subrange(64 * i + 32, 64 * i + 64) =~= abi_word(g[i][1] as u64));
    } else {
        lemma_rounds_bytes_subrange(g.drop_last(), i);
        assert(g.drop_last()[i] == g[i]);
        assert(rounds_bytes(g).subrange(64 * i, 64 * i + 32) =~= rounds_bytes(
            g.drop_last(),
        ).subrange(64 * i, 64 * i + 32));
        assert(rounds_bytes(g).subrange(64 * i + 32, 64 * i + 64) =~= rounds_bytes(
            g.drop_last(),
        ).subrange(64 * i + 32, 64 * i + 64));
    }
}

proof fn lemma_encode_pair(g: Seq<[u32; 2]>, w: u32, i: int)
    requires
        0 <= i < g.len(),
    ensures
        encode_spec(g, w).subrange(128 + 64 * i, 128 + 64 * i + 32) == abi_word(g[i][0] as u64),
        encode_spec(g, w).subrange(128 + 64 * i + 32, 128 + 64 * i + 64) == abi_word(
            g[i][1] as u64,
        ),
{
    lemma_rounds_bytes_len(g);
    lemma_rounds_bytes_subrange(g, i);
    assert(encode_spec(g, w).subrange(128 + 64 * i, 128 + 64 * i + 32) =~= rounds_bytes(
        g,
    ).subrange(64 * i, 64 * i + 32));
    assert(encode_spec(g, w).subrange(128 + 64 * i + 32, 128 + 64 * i + 64) =~= rounds_bytes(
        g,
    ).subrange(64 * i + 32, 64 * i + 64));
}

proof fn lemma_parts_to_encode(b: Seq<u8>, g: Seq<[u32; 2]>, w: u32)
    requires
        b.len() == 128 + 64 * g.len(),
        b.subrange(0, 32) == abi_word(32),
        b.subrange(32, 64) == abi_word(64),
        b.subrange(64, 96) == abi_word(w as u64),
        b.subrange(96, 128) == abi_word(g.len() as u64),
        forall|t: int|
            0 <= t < g.len() ==> b.subrange(128 + 64 * t, 128 + 64 * t + 32) == abi_word(
                (#[trigger] g[t])[0] as u64,
            ) && b.subrange(128 + 64 * t + 32, 128 + 64 * t + 64) == abi_word(g[t][1] as u64),
    ensures
        b == encode_spec(g, w),
{
    lemma_rounds_bytes_len(g);
    assert forall|k: int| 0 <= k < b.len() implies b[k] == encode_spec(g, w)[k] by {
        if k < 32 {
            assert(b[k] == b.subrange(0, 32)[k]);
        } else if k < 64 {
            assert(b[k] == b.subrange(32, 64)[k - 32]);
        } else if k < 96 {
            assert(b[k] == b.subrange(64, 96)[k - 64]);
        } else if k < 128 {
            assert(b[k] == b.subrange(96, 128)[k - 96]);
        } else {
            let t = (k - 128) / 64;
            let j = (k - 128) % 64;
            lemma_fundamental_div_mod(k - 128, 64);
            lemma_mod_bound(k - 128, 64);
            assert(k == 128 + 64 * t + j);
            assert(0 <= t < g.len());
            lemma_rounds_bytes_index(g, t, j);
            assert(encode_spec(g, w)[k] == rounds_bytes(g)[64 * t + j]);
            if j < 32 {
                assert(b[k] == b.subrange(128 + 64 * t, 128 + 64 * t + 32)[j]);
            } else {
                assert(b[k] == b.subrange(128 + 64 * t + 32, 128 + 64 * t + 64)[j - 32]);
            }
        }
    };
    assert(b =~= encode_spec(g, w));
}

/// Builds the committed public-value record for a game and its outcome
/// code: exactly the bytes that `encode_spec` describes.
pub fn encode_public_values(game_result: &Vec<[u32; 2]>, win_count: u32) -> (bytes: Vec<u8>)
    ensures
        bytes@ == encode_spec(game_result@, win_count),
{
    let mut bytes: Vec<u8> = Vec::new();
    push_abi_word(&mut bytes, 32);
    push_abi_word(&mut bytes, 64);
    push_abi_word(&mut bytes, win_count as u64);
    push_abi_word(&mut bytes, game_result.len() as u64);
    let ghost head: Seq<u8> = bytes@;
    proof {
        assert(head == abi_word(32) + abi_word(64) + abi_word(win_count as u64) + abi_word(
            game_result@.len() as u64,
        ));
    }
    let n = game_result.len();
    for i in 0..n
        invariant
            n == game_result@.len(),
            head == abi_word(32) + abi_word(64) + abi_word(win_count as u64) + abi_word(
                game_result@.len() as u64,
            ),
            bytes@ == head + rounds_bytes(game_result@.take(i as int)),
    {
        let r = game_result[i];
        push_abi_word(&mut bytes, r[0] as u64);
        push_abi_word(&mut bytes, r[1] as u64);
        proof {
            let g = game_result@;
            assert(g.take(i as int + 1).drop_last() =~= g.take(i as int));
            assert(g.take(i as int + 1).last() == g[i as int]);
            assert(bytes@ =~= head + rounds_bytes(g.take(i as int + 1)));
        }
    }
    proof {
        assert(game_result@.take(n as int) =~= game_result@);
        assert(bytes@ =~= encode_spec(game_result@, win_count));
    }
    bytes
}

/// The meaning of a decode result for `bytes`: on success the bytes are
/// exactly the record of the returned pair; on failure no pair at all
/// encodes to these bytes.
pub open spec fn decode_result_matches(bytes: Seq<u8>, r: Option<(Seq<[u32; 2]>, u32)>) -> bool {
    match r {
        Some(p) => bytes == encode_spec(p.0, p.1),
        None => forall|g: Seq<[u32; 2]>, w: u32| bytes != encode_spec(g, w),
    }
}

/// The mathematical view of a decoded pair.
pub open spec fn decoded_view(r: Option<(Vec<[u32; 2]>, u32)>) -> Option<(Seq<[u32; 2]>, u32)> {
    match r {
        Some(p) => Some((p.0@, p.1)),
        None => None,
    }
}

/// The exact inverse of `encode_public_values`: returns the game and the
/// outcome code whose record the given bytes are, and `None` exactly when
/// the bytes are no record at all.
#[verifier::loop_isolation(false)]
pub fn decode_public_values(bytes: &[u8]) -> (r: Option<(Vec<[u32; 2]>, u32)>)
    ensures
        decode_result_matches(bytes@, decoded_view(r)),
{
    let n_bytes = bytes.len();
    if n_bytes < 128 {
        proof {
            assert forall|g: Seq<[u32; 2]>, w: u32| bytes@ != encode_spec(g, w) by {
                lemma_encode_len(g, w);
            };
        }
        return None;
    }
    let w0 = read_abi_word(bytes, 0);
    let ok0 = match w0 {
        Some(v) => v == 32,
        None => false,
    };
    if !ok0 {
        proof {
            assert forall|g: Seq<[u32; 2]>, w: u32| bytes@ != encode_spec(g, w) by {
                if bytes@ == encode_spec(g, w) {
                    lemma_encode_head(g, w);
                    assert(bytes@.subrange(0, 32) == abi_word(32));
                    match w0 {
                        Some(v) => {
                            lemma_abi_word_injective(v, 32);
                        },
                        None => {},
                    }
                    assert(false);
                }
            };
        }
        return None;
    }
    let w1 = read_abi_word(bytes, 32);
    let ok1 = match w1 {
        Some(v) => v == 64,
        None => false,
    };
    if !ok1 {
        proof {
            assert forall|g: Seq<[u32; 2]>, w: u32| bytes@ != encode_spec(g, w) by {
                if bytes@ == encode_spec(g, w) {
                    lemma_encode_head(g, w);
                    assert(bytes@.subrange(32, 64) == abi_word(64));
                    match w1 {
                        Some(v) => {
                            lemma_abi_word_injective(v, 64);
                        },
                        None => {},
                    }
                    assert(false);
                }
            };
        }
        return None;
    }
    let w_win = read_u32_word(bytes, 64);
    let win_count: u32 = match w_win {
        Some(v) => v,
        None => {
            proof {
                assert forall|g: Seq<[u32; 2]>, w: u32| bytes@ != encode_spec(g, w) by {
                    if bytes@ == encode_spec(g, w) {
                        lemma_encode_head(g, w);
                        assert(bytes@.subrange(64, 96) == abi_word(w as u64));
                        assert(false);
                    }
                };
            }
            return None;
        },
    };
    let w_len = read_abi_word(bytes, 96);
    let len_word: u64 = match w_len {
        Some(v) => v,
        None => {
            proof {
                assert forall|g: Seq<[u32; 2]>, w: u32| bytes@ != encode_spec(g, w) by {
                    if bytes@ == encode_spec(g, w) {
                        lemma_encode_head(g, w);
                        assert(bytes@.subrange(96, 128) == abi_word(g.len() as u64));
                        assert(false);
                    }
                };
            }
            return None;
        },
    };
    let mut gs: Vec<[u32; 2]> = Vec::new();
    let mut off: usize = 128;
    while off <= n_bytes - 64
        invariant
            off == 128 + 64 * gs@.len(),
            off <= n_bytes,
            forall|t: int|
                0 <= t < gs@.len() ==> bytes@.subrange(128 + 64 * t, 128 + 64 * t + 32)
                    == abi_word((#[trigger] gs@[t])[0] as u64) && bytes@.subrange(
                    128 + 64 * t + 32,
                    128 + 64 * t + 64,
                ) == abi_word(gs@[t][1] as u64),
        decreases n_bytes - off,
    {
        let ghost i = gs@.len() as int;
        let wp = read_u32_word(bytes, off);
        let p: u32 = match wp {
            Some(v) => v,
            None => {
                proof {
                    assert forall|g: Seq<[u32; 2]>, w: u32| bytes@ != encode_spec(g, w) by {
                        if bytes@ == encode_spec(g, w) {
                            lemma_encode_len(g, w);
                            assert(i < g.len());
                            lemma_encode_pair(g, w, i);
                            assert(bytes@.subrange(off as int, off as int + 32) == abi_word(
                                g[i][0] as u64,
                            ));
                            assert(false);
                        }
                    };
                }
                return None;
            },
        };
        let wc = read_u32_word(bytes, off + 32);
        let c: u32 = match wc {
            Some(v) => v,
            None => {
                proof {
                    assert forall|g: Seq<[u32; 2]>, w: u32| bytes@ != encode_spec(g, w) by {
                        if bytes@ == encode_spec(g, w) {
                            lemma_encode_len(g, w);
                            assert(i < g.len());
                            lemma_encode_pair(g, w, i);
                            assert(bytes@.subrange(off as int + 32, off as int + 64) == abi_word(
                                g[i][1] as u64,
                            ));
                            assert(false);
                        }
                    };
                }
                return None;
            },
        };
        let round: [u32; 2] = [p, c];
        proof {
            assert(round[0] == p);
            assert(round[1] == c);
        }
        gs.push(round);
        off = off + 64;
    }
    if off != n_bytes {
        proof {
            assert forall|g: Seq<[u32; 2]>, w: u32| bytes@ != encode_spec(g, w) by {
                if bytes@ == encode_spec(g, w) {
                    lemma_encode_len(g, w);
                    assert(false);
                }
            };
        }
        return None;
    }
    let count = gs.len();
    if len_word != count as u64 {
        proof {
            assert forall|g: Seq<[u32; 2]>, w: u32| bytes@ != encode_spec(g, w) by {
                if bytes@ == encode_spec(g, w) {
                    lemma_encode_len(g, w);
                    lemma_encode_head(g, w);
                    assert(bytes@.subrange(96, 128) == abi_word(g.len() as u64));
                    assert(bytes@.subrange(96, 128) == abi_word(len_word));
                    lemma_abi_word_injective(len_word, g.len() as u64);
                    assert(false);
                }
            };
        }
        return None;
    }
    proof {
        assert(bytes@.subrange(0, 32) == abi_word(32));
        assert(bytes@.subrange(32, 64) == abi_word(64));
        assert(bytes@.subrange(96, 128) == abi_word(gs@.len() as u64));
        lemma_parts_to_encode(bytes@, gs@, win_count);
    }
    Some((gs, win_count))
}

/// Injectivity of the commitment: two records over the same bytes come
/// from the same game and the same outcome code.
pub proof fn lemma_encode_injective(g1: Seq<[u32; 2]>, w1: u32, g2: Seq<[u32; 2]>, w2: u32)
    requires
        encode_spec(g1, w1) == encode_spec(g2, w2),
    ensures
        g1 == g2,
        w1 == w2,
{
    lemma_encode_head(g1, w1);
    lemma_encode_head(g2, w2);
    assert(g1.len() == g2.len());
    assert(abi_word(w1 as u64) == abi_word(w2 as u64));
    lemma_abi_word_injective(w1 as u64, w2 as u64);
    assert forall|i: int| 0 <= i < g1.len() implies g1[i] == g2[i] by {
        lemma_encode_pair(g1, w1, i);
        lemma_encode_pair(g2, w2, i);
        lemma_abi_word_injective(g1[i][0] as u64, g2[i][0] as u64);
        lemma_abi_word_injective(g1[i][1] as u64, g2[i][1] as u64);
        assert(g1[i] =~= g2[i]);
    };
    assert(g1 =~= g2);
}

/// The immutable public-value record of one proof run: the game exactly
/// as played, paired with the outcome code the engine computed from it.
/// The guest program builds one with `for_game` and commits its
/// `encode`; a verifier re-checks the claim by decoding the bytes and
/// recomputing the outcome.
pub struct PublicValues {
    game_result: Vec<[u32; 2]>,
    win_count: u32,
}

impl PublicValues {
    /// The rounds of the record.
    pub closed spec fn game(&self) -> Seq<[u32; 2]> {
        self.game_result@
    }

    /// The outcome code of the record.
    pub closed spec fn win(&self) -> u32 {
        self.win_count
    }

    /// A record is well formed when its code is the outcome of its game.
    /// `for_game` establishes this, and nothing ever changes a record.
    pub open spec fn wf(&self) -> bool {
        self.win() == outcome_of(self.game())
    }

    /// Builds the record for a game: the rounds as handed in, with the
    /// outcome code the engine computes from them.
    pub fn for_game(game_result: Vec<[u32; 2]>) -> (pv: PublicValues)
        ensures
            pv.game() == game_result@,
            pv.wf(),
    {
        let win_count = compute_winner(copy_rounds(&game_result));
        PublicValues { game_result, win_count }
    }

    /// The outcome code of the record.
    pub fn win_count(&self) -> (w: u32)
        ensures
            w == self.win(),
    {
        self.win_count
    }

    /// The rounds of the record.
    pub fn game_result(&self) -> (g: &Vec<[u32; 2]>)
        ensures
            g@ == self.game(),
    {
        &self.game_result
    }

    /// The bytes the verifiable-execution environment commits for this
    /// record: its encoding as the canonical public-value bytes.
    pub fn encode(&self) -> (bytes: Vec<u8>)
        ensures
            bytes@ == encode_spec(self.game(), self.win()),
    {
        encode_public_values(&self.game_result, self.win_count)
    }
}

/// Round-trip law: any decode result that is correct for the record of
/// `(g, w)` — which is what `decode_public_values` returns on it — is
/// exactly `(g, w)` again.
pub proof fn lemma_decode_inverts_encode(g: Seq<[u32; 2]>, w: u32, r: Option<(Seq<[u32; 2]>, u32)>)
    requires
        decode_result_matches(encode_spec(g, w), r),
    ensures
        r == Some((g, w)),
{
    match r {
        None => {
            assert(encode_spec(g, w) == encode_spec(g, w));
        },
        Some(p) => {
            lemma_encode_injective(p.0, p.1, g, w);
        },
    }
}

} // verus!

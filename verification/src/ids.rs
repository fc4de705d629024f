//! Which paths the short ids tell apart.

use vstd::prelude::*;
use vstd::utf8::{encode_utf8, is_ascii_chars, is_ascii_chars_encode_utf8};

use crate::path::shown;
use crate::sha256::{
    bit_length, blocks, choice, compressed, digest, eight_bytes, four_bytes, hex_digit, hex_text, large_0, large_1,
    law_digest_has_64_digits, majority, padding, plus, rounds, schedule, small_0, small_1, start, word, words_bytes,
    zeros, ROUND,
};
use crate::steam::id_of;
use crate::text::law_utf8_is_kept;

verus! {

proof fn lemma_hex_digits_differ(m: u8, n: u8)
    requires
        m < 16,
        n < 16,
    ensures
        hex_digit(m) == hex_digit(n) ==> m == n,
{
}

/// Two paths have the same id exactly when the digests of their texts begin with the same four bytes.
pub proof fn law_ids_agree_with_digests(left: Seq<u8>, right: Seq<u8>)
    ensures
        id_of(left) == id_of(right) <==> digest(encode_utf8(shown(left))).take(4) == digest(
            encode_utf8(shown(right)),
        ).take(4),
{
    let a = digest(encode_utf8(shown(left)));
    let b = digest(encode_utf8(shown(right)));
    law_digest_has_64_digits(encode_utf8(shown(left)));
    law_digest_has_64_digits(encode_utf8(shown(right)));
    if id_of(left) == id_of(right) {
        assert forall|i: int| 0 <= i < 4 implies a.take(4)[i] == b.take(4)[i] by {
            assert(id_of(left)[2 * i] == hex_text(a)[2 * i] && id_of(right)[2 * i] == hex_text(b)[2 * i]);
            assert(id_of(left)[2 * i + 1] == hex_text(a)[2 * i + 1]);
            assert(id_of(right)[2 * i + 1] == hex_text(b)[2 * i + 1]);
            lemma_hex_digits_differ(a[i] / 16, b[i] / 16);
            lemma_hex_digits_differ(a[i] % 16, b[i] % 16);
        }
        assert(a.take(4) =~= b.take(4));
    }
    if a.take(4) == b.take(4) {
        assert forall|i: int| 0 <= i < 8 implies id_of(left)[i] == id_of(right)[i] by {
            assert(a.take(4)[i / 2] == b.take(4)[i / 2]);
        }
        assert(id_of(left) =~= id_of(right));
    }
}

/// The first working word after all rounds, from the working words after `t` of them and the next sixteen words
/// of the schedule.
spec fn first_word(
    t: u32,
    a: u32,
    b: u32,
    c: u32,
    d: u32,
    e: u32,
    f: u32,
    g: u32,
    h: u32,
    w0: u32,
    w1: u32,
    w2: u32,
    w3: u32,
    w4: u32,
    w5: u32,
    w6: u32,
    w7: u32,
    w8: u32,
    w9: u32,
    w10: u32,
    w11: u32,
    w12: u32,
    w13: u32,
    w14: u32,
    w15: u32,
) -> u32
    decreases 64 - t,
{
    if t >= 64 {
        a
    } else {
        let t1 = plus(plus(plus(plus(h, large_1(e)), choice(e, f, g)), ROUND@[t as int]), w0);
        let t2 = plus(large_0(a), majority(a, b, c));
        let next = plus(plus(plus(small_1(w14), w9), small_0(w1)), w0);
        first_word(
            (t + 1) as u32,
            plus(t1, t2),
            a,
            b,
            c,
            plus(d, t1),
            e,
            f,
            g,
            w1,
            w2,
            w3,
            w4,
            w5,
            w6,
            w7,
            w8,
            w9,
            w10,
            w11,
            w12,
            w13,
            w14,
            w15,
            next,
        )
    }
}

/// [`first_word`] of a block, `t` rounds on.
spec fn first_word_of(block: Seq<u8>, t: int) -> u32 {
    let s = rounds(start(), block, t);
    first_word(
        t as u32,
        s.a,
        s.b,
        s.c,
        s.d,
        s.e,
        s.f,
        s.g,
        s.h,
        schedule(block, t),
        schedule(block, t + 1),
        schedule(block, t + 2),
        schedule(block, t + 3),
        schedule(block, t + 4),
        schedule(block, t + 5),
        schedule(block, t + 6),
        schedule(block, t + 7),
        schedule(block, t + 8),
        schedule(block, t + 9),
        schedule(block, t + 10),
        schedule(block, t + 11),
        schedule(block, t + 12),
        schedule(block, t + 13),
        schedule(block, t + 14),
        schedule(block, t + 15),
    )
}

proof fn lemma_first_word(block: Seq<u8>, t: int)
    requires
        0 <= t <= 64,
    ensures
        first_word_of(block, t) == rounds(start(), block, 64).a,
    decreases 64 - t,
{
    if t < 64 {
        lemma_first_word(block, t + 1);
        assert(schedule(block, t + 16) == plus(
            plus(plus(small_1(schedule(block, t + 14)), schedule(block, t + 9)), small_0(schedule(block, t + 1))),
            schedule(block, t),
        ));
    }
}

/// How the digest of a message that fits one block begins.
proof fn lemma_digest_begins(message: Seq<u8>)
    requires
        message.len() < 56,
    ensures
        digest(message).take(4) == four_bytes(
            plus(start().a, first_word_of(message + padding(message.len()), 0)),
        ),
{
    let padded = message + padding(message.len());
    assert(padded.len() == 64);
    assert(padded.subrange(0, 64) =~= padded);
    lemma_first_word(padded, 0);
    assert(blocks(padded, 1) == compressed(blocks(padded, 0), padded.subrange(0, 64)));
    reveal(compressed);
    reveal(words_bytes);
    assert(digest(message).take(4) =~= four_bytes(blocks(padded, 1).a));
}

/// The text of the path of a library called `SteamLibrary` on a drive with a name of five letters.
spec fn is_library_path(text: Seq<char>, name: Seq<char>) -> bool {
    text == "/mnt/"@ + name + "/SteamLibrary"@ && name.len() == 5 && is_ascii_chars(name)
}

/// The words of the block that such a path fills.
proof fn lemma_library_words(text: Seq<char>, name: Seq<char>)
    requires
        is_library_path(text, name),
    ensures
        encode_utf8(text).len() == 23,
        ({
            let block = encode_utf8(text) + padding(23);
            &&& schedule(block, 0) == 0x2f6d6e74
            &&& schedule(block, 1) == word(47, name[0] as u8, name[1] as u8, name[2] as u8)
            &&& schedule(block, 2) == word(name[3] as u8, name[4] as u8, 47, 83)
            &&& schedule(block, 3) == 0x7465616d
            &&& schedule(block, 4) == 0x4c696272
            &&& schedule(block, 5) == 0x61727980
            &&& forall|t: int| 6 <= t < 15 ==> #[trigger] schedule(block, t) == 0
            &&& schedule(block, 15) == 184
        }),
{
    reveal_strlit("/mnt/");
    reveal_strlit("/SteamLibrary");
    let bytes = encode_utf8(text);
    let block = bytes + padding(23);
    assert(is_ascii_chars(text));
    is_ascii_chars_encode_utf8(text);
    assert(bit_length(23) == 184);
    assert(eight_bytes(184) =~= seq![0u8, 0, 0, 0, 0, 0, 0, 184]) by {
        assert((184u64 >> 56u64) as u8 == 0 && (184u64 >> 48u64) as u8 == 0 && (184u64 >> 40u64) as u8 == 0 && (184u64
            >> 32u64) as u8 == 0 && (184u64 >> 24u64) as u8 == 0 && (184u64 >> 16u64) as u8 == 0 && (184u64 >> 8u64)
            as u8 == 0) by (bit_vector);
    }
    assert(word(47, 109, 110, 116) == 0x2f6d6e74 && word(116, 101, 97, 109) == 0x7465616d && word(76, 105, 98, 114)
        == 0x4c696272 && word(97, 114, 121, 128) == 0x61727980 && word(0, 0, 0, 0) == 0 && word(0, 0, 0, 184) == 184)
        by (bit_vector);
    assert(zeros(32).len() == 32);
    assert(block[23] == 128);
    assert(forall|i: int| 24 <= i < 63 ==> #[trigger] block[i] == 0);
    assert(block[63] == 184);
}

/// [`first_word`] of the block that such a path fills; the name of the drive is in two of its words.
spec fn library_word(w1: u32, w2: u32) -> u32 {
    first_word(
        0,
        0x6a09e667,
        0xbb67ae85,
        0x3c6ef372,
        0xa54ff53a,
        0x510e527f,
        0x9b05688c,
        0x1f83d9ab,
        0x5be0cd19,
        0x2f6d6e74,
        w1,
        w2,
        0x7465616d,
        0x4c696272,
        0x61727980,
        0,
        0,
        0,
        0,
        0,
        0,
        0,
        0,
        0,
        184,
    )
}

/// The libraries called `SteamLibrary` on the drives `games` and `other` have different ids.
pub proof fn law_games_and_other_differ()
    ensures
        id_of(encode_utf8("/mnt/games/SteamLibrary"@)) != id_of(encode_utf8("/mnt/other/SteamLibrary"@)),
{
    let left = "/mnt/games/SteamLibrary"@;
    let right = "/mnt/other/SteamLibrary"@;
    reveal_strlit("/mnt/games/SteamLibrary");
    reveal_strlit("/mnt/other/SteamLibrary");
    reveal_strlit("/mnt/");
    reveal_strlit("/SteamLibrary");
    reveal_strlit("games");
    reveal_strlit("other");
    assert(left =~= "/mnt/"@ + "games"@ + "/SteamLibrary"@);
    assert(right =~= "/mnt/"@ + "other"@ + "/SteamLibrary"@);
    lemma_library_words(left, "games"@);
    lemma_library_words(right, "other"@);
    lemma_digest_begins(encode_utf8(left));
    lemma_digest_begins(encode_utf8(right));
    law_utf8_is_kept(encode_utf8(left), left);
    law_utf8_is_kept(encode_utf8(right), right);
    law_ids_agree_with_digests(encode_utf8(left), encode_utf8(right));
    assert(word(47, 103, 97, 109) == 0x2f67616d && word(101, 115, 47, 83) == 0x65732f53 && word(47, 111, 116, 104)
        == 0x2f6f7468 && word(101, 114, 47, 83) == 0x65722f53) by (bit_vector);
    let x = plus(start().a, first_word_of(encode_utf8(left) + padding(23), 0));
    let y = plus(start().a, first_word_of(encode_utf8(right) + padding(23), 0));
    assert(x == plus(0x6a09e667, library_word(0x2f67616d, 0x65732f53)));
    assert(y == plus(0x6a09e667, library_word(0x2f6f7468, 0x65722f53)));
    assert((plus(0x6a09e667, library_word(0x2f67616d, 0x65732f53)) >> 24u32) as u8 == 0xf7) by (bit_vector);
    assert((plus(0x6a09e667, library_word(0x2f6f7468, 0x65722f53)) >> 24u32) as u8 == 0x91) by (bit_vector);
    assert(four_bytes(x)[0] == 0xf7);
    assert(four_bytes(y)[0] == 0x91);
}

} // verus!

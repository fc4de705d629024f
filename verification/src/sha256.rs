//! SHA-256, fed piece by piece.

use vstd::arithmetic::div_mod::lemma_add_mod_noop;
use vstd::prelude::*;

verus! {

/// The constants of the rounds.
pub const ROUND: [u32; 64] = [
    0x428a2f98, 0x71374491, 0xb5c0fbcf, 0xe9b5dba5, 0x3956c25b, 0x59f111f1, 0x923f82a4, 0xab1c5ed5,
    0xd807aa98, 0x12835b01, 0x243185be, 0x550c7dc3, 0x72be5d74, 0x80deb1fe, 0x9bdc06a7, 0xc19bf174,
    0xe49b69c1, 0xefbe4786, 0x0fc19dc6, 0x240ca1cc, 0x2de92c6f, 0x4a7484aa, 0x5cb0a9dc, 0x76f988da,
    0x983e5152, 0xa831c66d, 0xb00327c8, 0xbf597fc7, 0xc6e00bf3, 0xd5a79147, 0x06ca6351, 0x14292967,
    0x27b70a85, 0x2e1b2138, 0x4d2c6dfc, 0x53380d13, 0x650a7354, 0x766a0abb, 0x81c2c92e, 0x92722c85,
    0xa2bfe8a1, 0xa81a664b, 0xc24b8b70, 0xc76c51a3, 0xd192e819, 0xd6990624, 0xf40e3585, 0x106aa070,
    0x19a4c116, 0x1e376c08, 0x2748774c, 0x34b0bcb5, 0x391c0cb3, 0x4ed8aa4a, 0x5b9cca4f, 0x682e6ff3,
    0x748f82ee, 0x78a5636f, 0x84c87814, 0x8cc70208, 0x90befffa, 0xa4506ceb, 0xbef9a3f7, 0xc67178f2,];

/// The working words.
#[derive(Debug, Clone, Copy, PartialEq, Eq, Structural)]
pub struct Words {
    pub a: u32,
    pub b: u32,
    pub c: u32,
    pub d: u32,
    pub e: u32,
    pub f: u32,
    pub g: u32,
    pub h: u32,
}

/// Addition without carry out of 32 bits.
pub open spec fn plus(x: u32, y: u32) -> u32 {
    ((x as int + y as int) % 0x1_0000_0000) as u32
}

pub open spec fn rotated(x: u32, n: u32) -> u32 {
    (x >> n) | (x << ((32 - n) as u32))
}

pub open spec fn choice(x: u32, y: u32, z: u32) -> u32 {
    (x & y) ^ (!x & z)
}

pub open spec fn majority(x: u32, y: u32, z: u32) -> u32 {
    (x & y) ^ (x & z) ^ (y & z)
}

pub open spec fn large_0(x: u32) -> u32 {
    rotated(x, 2) ^ rotated(x, 13) ^ rotated(x, 22)
}

pub open spec fn large_1(x: u32) -> u32 {
    rotated(x, 6) ^ rotated(x, 11) ^ rotated(x, 25)
}

pub open spec fn small_0(x: u32) -> u32 {
    rotated(x, 7) ^ rotated(x, 18) ^ (x >> 3u32)
}

pub open spec fn small_1(x: u32) -> u32 {
    rotated(x, 17) ^ rotated(x, 19) ^ (x >> 10u32)
}

pub open spec fn word(a: u8, b: u8, c: u8, d: u8) -> u32 {
    ((a as u32) << 24u32) | ((b as u32) << 16u32) | ((c as u32) << 8u32) | (d as u32)
}

/// The words of the message schedule of a block of 64 bytes.
pub open spec fn schedule(block: Seq<u8>, t: int) -> u32
    decreases t,
{
    if t < 16 {
        word(block[4 * t], block[4 * t + 1], block[4 * t + 2], block[4 * t + 3])
    } else {
        plus(
            plus(plus(small_1(schedule(block, t - 2)), schedule(block, t - 7)), small_0(
                schedule(block, t - 15),
            )),
            schedule(block, t - 16),
        )
    }
}

pub open spec fn round(s: Words, k: u32, w: u32) -> Words {
    let t1 = plus(plus(plus(plus(s.h, large_1(s.e)), choice(s.e, s.f, s.g)), k), w);
    let t2 = plus(large_0(s.a), majority(s.a, s.b, s.c));
    Words { a: plus(t1, t2), b: s.a, c: s.b, d: s.c, e: plus(s.d, t1), f: s.e, g: s.f, h: s.g }
}

pub open spec fn rounds(s: Words, block: Seq<u8>, t: int) -> Words
    decreases t,
{
    if t <= 0 {
        s
    } else {
        round(rounds(s, block, t - 1), ROUND@[t - 1], schedule(block, t - 1))
    }
}

#[verifier::opaque]
pub open spec fn compressed(s: Words, block: Seq<u8>) -> Words {
    let r = rounds(s, block, 64);
    Words {
        a: plus(s.a, r.a),
        b: plus(s.b, r.b),
        c: plus(s.c, r.c),
        d: plus(s.d, r.d),
        e: plus(s.e, r.e),
        f: plus(s.f, r.f),
        g: plus(s.g, r.g),
        h: plus(s.h, r.h),
    }
}

pub open spec fn start() -> Words {
    Words {
        a: 0x6a09e667,
        b: 0xbb67ae85,
        c: 0x3c6ef372,
        d: 0xa54ff53a,
        e: 0x510e527f,
        f: 0x9b05688c,
        g: 0x1f83d9ab,
        h: 0x5be0cd19,
    }
}

/// The words after the first `n` blocks of 64 bytes.
pub open spec fn blocks(bytes: Seq<u8>, n: int) -> Words
    decreases n,
{
    if n <= 0 {
        start()
    } else {
        compressed(blocks(bytes, n - 1), bytes.subrange(64 * (n - 1), 64 * n))
    }
}

pub open spec fn zeros(n: nat) -> Seq<u8> {
    Seq::new(n, |i: int| 0u8)
}

/// The length of the message in bits, as the padding holds it.
pub open spec fn bit_length(bytes: nat) -> u64 {
    ((bytes * 8) % 0x1_0000_0000_0000_0000) as u64
}

pub open spec fn eight_bytes(n: u64) -> Seq<u8> {
    seq![
        (n >> 56u64) as u8,
        (n >> 48u64) as u8,
        (n >> 40u64) as u8,
        (n >> 32u64) as u8,
        (n >> 24u64) as u8,
        (n >> 16u64) as u8,
        (n >> 8u64) as u8,
        n as u8,
    ]
}

/// What is put behind a message: a one bit, zeros up to eight bytes before the end of a block, and
/// the length.
pub open spec fn padding(length: nat) -> Seq<u8> {
    seq![0x80u8] + zeros(((119 - length % 64) % 64) as nat) + eight_bytes(bit_length(length))
}

pub open spec fn four_bytes(n: u32) -> Seq<u8> {
    seq![(n >> 24u32) as u8, (n >> 16u32) as u8, (n >> 8u32) as u8, n as u8]
}

#[verifier::opaque]
pub open spec fn words_bytes(s: Words) -> Seq<u8> {
    four_bytes(s.a) + four_bytes(s.b) + four_bytes(s.c) + four_bytes(s.d) + four_bytes(s.e)
        + four_bytes(s.f) + four_bytes(s.g) + four_bytes(s.h)
}

/// The SHA-256 digest of a message.
pub open spec fn digest(message: Seq<u8>) -> Seq<u8> {
    let padded = message + padding(message.len());
    words_bytes(blocks(padded, padded.len() as int / 64))
}

pub open spec fn hex_digit(n: u8) -> char {
    if n < 10 {
        (48 + n) as u8 as char
    } else {
        (87 + n) as u8 as char
    }
}

/// Bytes in hexadecimal, two lower-case digits for each.
pub open spec fn hex_text(bytes: Seq<u8>) -> Seq<char> {
    Seq::new(
        2 * bytes.len(),
        |i: int|
            if i % 2 == 0 {
                hex_digit(bytes[i / 2] / 16)
            } else {
                hex_digit(bytes[i / 2] % 16)
            },
    )
}

fn sum(x: u32, y: u32) -> (z: u32)
    ensures
        z == plus(x, y),
{
    x.wrapping_add(y)
}

fn rotate(x: u32, n: u32) -> (y: u32)
    requires
        0 < n < 32,
    ensures
        y == rotated(x, n),
{
    (x >> n) | (x << (32 - n))
}

fn expand(block: &[u8]) -> (w: Vec<u32>)
    requires
        block@.len() == 64,
    ensures
        w@.len() == 64,
        forall|t: int| 0 <= t < 64 ==> w@[t] == schedule(block@, t),
{
    let mut w: Vec<u32> = Vec::new();
    let mut t: usize = 0;
    while t < 64
        invariant
            t <= 64,
            block@.len() == 64,
            w@.len() == t,
            forall|i: int| 0 <= i < t ==> w@[i] == schedule(block@, i),
        decreases 64 - t,
    {
        if t < 16 {
            w.push(
                ((block[4 * t] as u32) << 24u32) | ((block[4 * t + 1] as u32) << 16u32) | ((block[4 * t
                    + 2] as u32) << 8u32) | (block[4 * t + 3] as u32),
            );
        } else {
            let x: u32 = w[t - 2];
            let y: u32 = w[t - 15];
            let s1: u32 = rotate(x, 17) ^ rotate(x, 19) ^ (x >> 10u32);
            let s0: u32 = rotate(y, 7) ^ rotate(y, 18) ^ (y >> 3u32);
            w.push(sum(sum(sum(s1, w[t - 7]), s0), w[t - 16]));
        }
        t = t + 1;
    }
    w
}

fn step(s: Words, k: u32, w: u32) -> (r: Words)
    ensures
        r == round(s, k, w),
{
    let l1: u32 = rotate(s.e, 6) ^ rotate(s.e, 11) ^ rotate(s.e, 25);
    let ch: u32 = (s.e & s.f) ^ (!s.e & s.g);
    let t1: u32 = sum(sum(sum(sum(s.h, l1), ch), k), w);
    let l0: u32 = rotate(s.a, 2) ^ rotate(s.a, 13) ^ rotate(s.a, 22);
    let maj: u32 = (s.a & s.b) ^ (s.a & s.c) ^ (s.b & s.c);
    let t2: u32 = sum(l0, maj);
    Words { a: sum(t1, t2), b: s.a, c: s.b, d: s.c, e: sum(s.d, t1), f: s.e, g: s.f, h: s.g }
}

fn compress(s: Words, block: &[u8]) -> (r: Words)
    requires
        block@.len() == 64,
    ensures
        r == compressed(s, block@),
{
    reveal(compressed);
    let w = expand(block);
    let mut r = s;
    let mut t: usize = 0;
    while t < 64
        invariant
            t <= 64,
            w@.len() == 64,
            forall|i: int| 0 <= i < 64 ==> w@[i] == schedule(block@, i),
            r == rounds(s, block@, t as int),
        decreases 64 - t,
    {
        let k: u32 = ROUND[t];
        r = step(r, k, w[t]);
        t = t + 1;
    }
    Words {
        a: sum(s.a, r.a),
        b: sum(s.b, r.b),
        c: sum(s.c, r.c),
        d: sum(s.d, r.d),
        e: sum(s.e, r.e),
        f: sum(s.f, r.f),
        g: sum(s.g, r.g),
        h: sum(s.h, r.h),
    }
}

fn bytes_of(s: Words) -> (bytes: [u8; 32])
    ensures
        bytes@ == words_bytes(s),
{
    let bytes: [u8; 32] = [
        (s.a >> 24u32) as u8,
        (s.a >> 16u32) as u8,
        (s.a >> 8u32) as u8,
        s.a as u8,
        (s.b >> 24u32) as u8,
        (s.b >> 16u32) as u8,
        (s.b >> 8u32) as u8,
        s.b as u8,
        (s.c >> 24u32) as u8,
        (s.c >> 16u32) as u8,
        (s.c >> 8u32) as u8,
        s.c as u8,
        (s.d >> 24u32) as u8,
        (s.d >> 16u32) as u8,
        (s.d >> 8u32) as u8,
        s.d as u8,
        (s.e >> 24u32) as u8,
        (s.e >> 16u32) as u8,
        (s.e >> 8u32) as u8,
        s.e as u8,
        (s.f >> 24u32) as u8,
        (s.f >> 16u32) as u8,
        (s.f >> 8u32) as u8,
        s.f as u8,
        (s.g >> 24u32) as u8,
        (s.g >> 16u32) as u8,
        (s.g >> 8u32) as u8,
        s.g as u8,
        (s.h >> 24u32) as u8,
        (s.h >> 16u32) as u8,
        (s.h >> 8u32) as u8,
        s.h as u8,
    ];
    reveal(words_bytes);
    assert(bytes@ =~= words_bytes(s));
    bytes
}

/// What is left of a message, and the padding behind it.
fn padded_tail(tail: Vec<u8>, bits: u64) -> (rest: Vec<u8>)
    requires
        tail@.len() < 64,
    ensures
        rest@ == tail@ + (seq![0x80u8] + zeros(((119 - tail@.len()) % 64) as nat) + eight_bytes(bits)),
{
    let ghost before = tail@;
    let mut rest = tail;
    let fill: usize = (119 - rest.len()) % 64;
    rest.push(0x80);
    let mut i: usize = 0;
    assert(rest@ =~= before + (seq![0x80u8] + zeros(0)));
    while i < fill
        invariant
            i <= fill,
            rest@ == before + (seq![0x80u8] + zeros(i as nat)),
        decreases fill - i,
    {
        rest.push(0);
        assert(rest@ =~= before + (seq![0x80u8] + zeros((i + 1) as nat)));
        i = i + 1;
    }
    let mut length: Vec<u8> = vec![
        (bits >> 56u64) as u8,
        (bits >> 48u64) as u8,
        (bits >> 40u64) as u8,
        (bits >> 32u64) as u8,
        (bits >> 24u64) as u8,
        (bits >> 16u64) as u8,
        (bits >> 8u64) as u8,
        bits as u8,
    ];
    assert(length@ =~= eight_bytes(bits));
    rest.append(&mut length);
    assert(rest@ =~= before + (seq![0x80u8] + zeros(fill as nat) + eight_bytes(bits)));
    rest
}

proof fn lemma_padded(message: Seq<u8>, tail: Seq<u8>, rest: Seq<u8>)
    requires
        tail.len() == message.len() % 64,
        tail == message.skip(64 * (message.len() as int / 64)),
        rest == tail + padding(message.len()),
    ensures
        ({
            let whole = message.len() as int / 64;
            let padded = message + padding(message.len());
            &&& rest == padded.skip(64 * whole)
            &&& rest.len() == 64 || rest.len() == 128
            &&& padded.len() == 64 * whole + rest.len()
        }),
{
    let whole = message.len() as int / 64;
    let padded = message + padding(message.len());
    assert(message.len() == 64 * whole + tail.len());
    assert(rest =~= padded.skip(64 * whole));
    assert(padding(message.len()).len() == 9 + (119 - tail.len()) % 64);
}

/// A message being digested. Its view is what has been fed so far.
pub struct Sha256 {
    state: Words,
    tail: Vec<u8>,
    bits: u64,
    fed: Ghost<Seq<u8>>,
}

impl View for Sha256 {
    type V = Seq<u8>;

    closed spec fn view(&self) -> Seq<u8> {
        self.fed@
    }
}

proof fn lemma_blocks_prefix(left: Seq<u8>, right: Seq<u8>, n: int)
    requires
        0 <= 64 * n <= left.len(),
        64 * n <= right.len(),
        left.take(64 * n) == right.take(64 * n),
    ensures
        blocks(left, n) == blocks(right, n),
    decreases n,
{
    if n > 0 {
        assert(left.take(64 * (n - 1)) =~= left.take(64 * n).take(64 * (n - 1)));
        assert(right.take(64 * (n - 1)) =~= right.take(64 * n).take(64 * (n - 1)));
        lemma_blocks_prefix(left, right, n - 1);
        assert(left.subrange(64 * (n - 1), 64 * n) =~= left.take(64 * n).subrange(
            64 * (n - 1),
            64 * n,
        ));
        assert(right.subrange(64 * (n - 1), 64 * n) =~= right.take(64 * n).subrange(
            64 * (n - 1),
            64 * n,
        ));
    }
}

impl Sha256 {
    pub closed spec fn wf(&self) -> bool {
        let whole = self.fed@.len() as int / 64;
        &&& self.tail@.len() < 64
        &&& self.fed@.len() == 64 * whole + self.tail@.len()
        &&& self.tail@ == self.fed@.skip(64 * whole)
        &&& self.state == blocks(self.fed@, whole)
        &&& self.bits == bit_length(self.fed@.len())
    }

    pub fn new() -> (hasher: Sha256)
        ensures
            hasher.wf(),
            hasher@ == Seq::<u8>::empty(),
    {
        let hasher = Sha256 {
            state: Words {
                a: 0x6a09e667,
                b: 0xbb67ae85,
                c: 0x3c6ef372,
                d: 0xa54ff53a,
                e: 0x510e527f,
                f: 0x9b05688c,
                g: 0x1f83d9ab,
                h: 0x5be0cd19,
            },
            tail: Vec::new(),
            bits: 0,
            fed: Ghost(Seq::empty()),
        };
        assert(hasher.tail@ =~= hasher.fed@.skip(0));
        hasher
    }

    fn feed(&mut self, byte: u8)
        requires
            old(self).wf(),
        ensures
            final(self).wf(),
            final(self)@ == old(self)@.push(byte),
    {
        let ghost was = self.fed@;
        let ghost whole = was.len() as int / 64;
        let ghost now = was.push(byte);
        self.tail.push(byte);
        self.bits = ((self.bits as u128 + 8) % 0x1_0000_0000_0000_0000) as u64;
        proof {
            self.fed@ = now;
            assert(self.tail@ =~= now.skip(64 * whole));
            lemma_add_mod_noop((was.len() * 8) as int, 8, 0x1_0000_0000_0000_0000);
            assert(now.take(64 * whole) =~= was.take(64 * whole));
            lemma_blocks_prefix(now, was, whole);
        }
        if self.tail.len() == 64 {
            self.state = compress(self.state, self.tail.as_slice());
            self.tail = Vec::new();
            proof {
                assert(now.len() == 64 * (whole + 1));
                assert(now.skip(64 * whole) =~= now.subrange(64 * whole, 64 * (whole + 1)));
                assert(now.len() as int / 64 == whole + 1);
                assert(self.tail@ =~= now.skip(64 * (whole + 1)));
            }
        } else {
            assert(now.len() as int / 64 == whole);
        }
    }

    /// Feeds the next bytes of the message.
    pub fn update(&mut self, data: &[u8])
        requires
            old(self).wf(),
        ensures
            final(self).wf(),
            final(self)@ == old(self)@ + data@,
    {
        let mut i: usize = 0;
        assert(self@ =~= old(self)@ + data@.take(0));
        while i < data.len()
            invariant
                i <= data.len(),
                self.wf(),
                self@ == old(self)@ + data@.take(i as int),
            decreases data.len() - i,
        {
            self.feed(data[i]);
            assert((old(self)@ + data@.take(i as int)).push(data@[i as int]) =~= old(self)@
                + data@.take(i + 1));
            i = i + 1;
        }
        assert(data@.take(i as int) =~= data@);
    }

    /// The digest of all that was fed.
    pub fn finish(self) -> (sum: [u8; 32])
        requires
            self.wf(),
        ensures
            sum@ == digest(self@),
    {
        let ghost message = self.fed@;
        let ghost whole = message.len() as int / 64;
        let ghost tail = self.tail@;
        let mut state = self.state;
        let ghost padded = message + padding(message.len());
        let rest = padded_tail(self.tail, self.bits);
        proof {
            lemma_padded(message, tail, rest@);
            assert(padded.take(64 * whole) =~= message.take(64 * whole));
            lemma_blocks_prefix(padded, message, whole);
        }
        let mut done: usize = 0;
        let count: usize = rest.len() / 64;
        while done < count
            invariant
                done <= count,
                rest@.len() == 64 * count,
                count <= 2,
                rest@ == padded.skip(64 * whole),
                padded.len() == 64 * whole + 64 * count,
                0 <= whole,
                state == blocks(padded, whole + done),
            decreases count - done,
        {
            let block = vstd::slice::slice_subrange(rest.as_slice(), 64 * done, 64 * done + 64);
            assert(block@ =~= padded.subrange(64 * (whole + done), 64 * (whole + done + 1)));
            state = compress(state, block);
            done = done + 1;
        }
        assert(padded.len() as int / 64 == whole + count);
        bytes_of(state)
    }
}

/// The digest of bytes that are all at hand.
pub fn digest_of(bytes: &[u8]) -> (sum: [u8; 32])
    ensures
        sum@ == digest(bytes@),
{
    let mut hasher = Sha256::new();
    hasher.update(bytes);
    assert(hasher@ =~= bytes@);
    hasher.finish()
}

/// One hexadecimal digit.
pub fn digit(n: u8) -> (c: char)
    requires
        n < 16,
    ensures
        c == hex_digit(n),
{
    if n < 10 {
        (48 + n) as char
    } else {
        (87 + n) as char
    }
}

/// Bytes in lower-case hexadecimal.
pub fn hex(bytes: &[u8]) -> (text: String)
    ensures
        text@ == hex_text(bytes@),
{
    let mut text = String::new();
    let mut i: usize = 0;
    while i < bytes.len()
        invariant
            i <= bytes.len(),
            text@ =~= hex_text(bytes@).take(2 * i),
        decreases bytes.len() - i,
    {
        text.push(digit(bytes[i] / 16));
        text.push(digit(bytes[i] % 16));
        i = i + 1;
    }
    text
}

pub open spec fn is_hex(c: char) -> bool {
    '0' <= c <= '9' || 'a' <= c <= 'f'
}

proof fn lemma_hex_digit(n: u8)
    requires
        n < 16,
    ensures
        is_hex(hex_digit(n)),
{
}

/// Bytes in hexadecimal are two digits for each.
pub proof fn law_hex_is_digits(bytes: Seq<u8>)
    ensures
        hex_text(bytes).len() == 2 * bytes.len(),
        forall|i: int| 0 <= i < hex_text(bytes).len() ==> is_hex(#[trigger] hex_text(bytes)[i]),
{
    assert forall|i: int| 0 <= i < hex_text(bytes).len() implies is_hex(#[trigger] hex_text(bytes)[i]) by {
        let byte = bytes[i / 2];
        lemma_hex_digit(byte / 16);
        lemma_hex_digit(byte % 16);
    }
}

/// A digest in hexadecimal has 64 digits.
pub proof fn law_digest_has_64_digits(message: Seq<u8>)
    ensures
        digest(message).len() == 32,
        hex_text(digest(message)).len() == 64,
        forall|i: int| 0 <= i < 64 ==> is_hex(#[trigger] hex_text(digest(message))[i]),
{
    reveal(words_bytes);
    law_hex_is_digits(digest(message));
}

} // verus!

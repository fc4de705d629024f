//! A tiny PNG writer, used only to capture the window during development.
//!
//! It emits uncompressed deflate blocks, which is valid but larger than a normal PNG. That is a fair
//! trade to avoid a compression dependency.

use vstd::arithmetic::div_mod::lemma_add_mod_noop_right;
use vstd::prelude::*;

verus! {

/// One division step of the checksum's polynomial.
pub open spec fn crc_bit(value: u32) -> u32 {
    if value & 1 != 0 {
        0xedb8_8320u32 ^ (value >> 1u32)
    } else {
        value >> 1u32
    }
}

pub open spec fn crc_bits(value: u32, n: nat) -> u32
    decreases n,
{
    if n == 0 {
        value
    } else {
        crc_bit(crc_bits(value, (n - 1) as nat))
    }
}

/// The running checksum after the given bytes.
pub open spec fn crc_run(data: Seq<u8>) -> u32
    decreases data.len(),
{
    if data.len() == 0 {
        0xffff_ffffu32
    } else {
        crc_bits(crc_run(data.drop_last()) ^ (data.last() as u32), 8)
    }
}

/// The CRC-32 of a sequence of bytes, bit by bit.
pub open spec fn crc_of(data: Seq<u8>) -> u32 {
    crc_run(data) ^ 0xffff_ffffu32
}

proof fn lemma_crc_bit_splits(a: u32, b: u32)
    ensures
        crc_bit(a ^ b) == crc_bit(a) ^ crc_bit(b),
{
    assert((a ^ b) & 1 == (a & 1) ^ (b & 1)) by (bit_vector);
    assert((a ^ b) >> 1u32 == (a >> 1u32) ^ (b >> 1u32)) by (bit_vector);
    let p = 0xedb8_8320u32;
    let x = a >> 1u32;
    let y = b >> 1u32;
    assert(a & 1 == 0 || a & 1 == 1) by (bit_vector);
    assert(b & 1 == 0 || b & 1 == 1) by (bit_vector);
    assert(0u32 ^ 0u32 == 0u32 && 0u32 ^ 1u32 == 1u32 && 1u32 ^ 0u32 == 1u32 && 1u32 ^ 1u32 == 0u32)
        by (bit_vector);
    assert(p ^ (x ^ y) == (p ^ x) ^ y && p ^ (x ^ y) == x ^ (p ^ y) && (p ^ x) ^ (p ^ y) == x ^ y)
        by (bit_vector);
}

proof fn lemma_crc_bits_split(a: u32, b: u32, n: nat)
    ensures
        crc_bits(a ^ b, n) == crc_bits(a, n) ^ crc_bits(b, n),
    decreases n,
{
    if n > 0 {
        lemma_crc_bits_split(a, b, (n - 1) as nat);
        lemma_crc_bit_splits(crc_bits(a, (n - 1) as nat), crc_bits(b, (n - 1) as nat));
    }
}

proof fn lemma_crc_bits_high(value: u32, n: nat)
    requires
        value & 0xff == 0,
        n <= 8,
    ensures
        crc_bits(value, n) == value >> (n as u32),
    decreases n,
{
    if n == 0 {
        assert(value >> 0u32 == value) by (bit_vector);
    } else {
        let m = (n - 1) as u32;
        lemma_crc_bits_high(value, (n - 1) as nat);
        assert((value >> m) & 1 == 0) by (bit_vector)
            requires
                value & 0xff == 0,
                m < 8,
        ;
        let k = n as u32;
        assert((value >> m) >> 1u32 == value >> k) by (bit_vector)
            requires
                m < 8,
                k == m + 1,
        ;
    }
}

/// Eight steps at once: those of the low byte, and the rest moved down.
proof fn lemma_crc_table(value: u32)
    ensures
        crc_bits(value, 8) == crc_bits(value & 0xff, 8) ^ (value >> 8u32),
{
    let low = value & 0xff;
    let high = value & 0xffff_ff00;
    assert(low ^ high == value) by (bit_vector)
        requires
            low == value & 0xff,
            high == value & 0xffff_ff00,
    ;
    assert(high & 0xff == 0) by (bit_vector)
        requires
            high == value & 0xffff_ff00,
    ;
    assert(high >> 8u32 == value >> 8u32) by (bit_vector)
        requires
            high == value & 0xffff_ff00,
    ;
    lemma_crc_bits_split(low, high, 8);
    lemma_crc_bits_high(high, 8);
}

fn crc_table() -> (table: Vec<u32>)
    ensures
        table@.len() == 256,
        forall|i: int| 0 <= i < 256 ==> #[trigger] table@[i] == crc_bits(i as u32, 8),
{
    let mut table: Vec<u32> = Vec::new();
    let mut index: u32 = 0;
    while index < 256
        invariant
            index <= 256,
            table@.len() == index,
            forall|i: int| 0 <= i < index ==> #[trigger] table@[i] == crc_bits(i as u32, 8),
        decreases 256 - index,
    {
        let mut value: u32 = index;
        let mut n: u32 = 0;
        while n < 8
            invariant
                n <= 8,
                value == crc_bits(index, n as nat),
            decreases 8 - n,
        {
            value = if value & 1 != 0 {
                0xedb8_8320u32 ^ (value >> 1u32)
            } else {
                value >> 1u32
            };
            n = n + 1;
        }
        table.push(value);
        index = index + 1;
    }
    table
}

pub fn crc32(data: &[u8]) -> (crc: u32)
    ensures
        crc == crc_of(data@),
{
    let table = crc_table();
    let mut crc: u32 = 0xffff_ffff;
    let mut i: usize = 0;
    assert(data@.take(0) =~= Seq::<u8>::empty());
    while i < data.len()
        invariant
            i <= data.len(),
            table@.len() == 256,
            forall|k: int| 0 <= k < 256 ==> #[trigger] table@[k] == crc_bits(k as u32, 8),
            crc == crc_run(data@.take(i as int)),
        decreases data.len() - i,
    {
        let byte: u32 = data[i] as u32;
        let mixed: u32 = crc ^ byte;
        let low: u32 = mixed & 0xff;
        proof {
            assert(data@.take(i + 1).drop_last() =~= data@.take(i as int));
            lemma_crc_table(mixed);
            assert(low <= 255) by (bit_vector)
                requires
                    low == mixed & 0xff,
            ;
            assert(mixed >> 8u32 == crc >> 8u32) by (bit_vector)
                requires
                    mixed == crc ^ byte,
                    byte <= 255,
            ;
        }
        crc = table[low as usize] ^ (crc >> 8u32);
        i = i + 1;
    }
    assert(data@.take(i as int) =~= data@);
    crc ^ 0xffff_ffff
}

/// One and the sum of the bytes.
pub open spec fn adler_low(data: Seq<u8>) -> nat
    decreases data.len(),
{
    if data.len() == 0 {
        1
    } else {
        adler_low(data.drop_last()) + data.last() as nat
    }
}

/// The sum of those sums.
pub open spec fn adler_high(data: Seq<u8>) -> nat
    decreases data.len(),
{
    if data.len() == 0 {
        0
    } else {
        adler_high(data.drop_last()) + adler_low(data)
    }
}

/// The Adler-32 of a sequence of bytes.
pub open spec fn adler_of(data: Seq<u8>) -> u32 {
    (((adler_high(data) % 65521) as u32) << 16u32) | ((adler_low(data) % 65521) as u32)
}

/// A sum may be reduced before the next number is added.
proof fn lemma_reduced_sum(sum: int, next: int)
    ensures
        (sum % 65521 + next) % 65521 == (sum + next) % 65521,
        0 <= sum % 65521 < 65521,
{
    lemma_add_mod_noop_right(next, sum, 65521);
}

pub fn adler32(data: &[u8]) -> (sum: u32)
    ensures
        sum == adler_of(data@),
{
    let mut a: u32 = 1;
    let mut b: u32 = 0;
    let mut i: usize = 0;
    assert(data@.take(0) =~= Seq::<u8>::empty());
    while i < data.len()
        invariant
            i <= data.len(),
            a < 65521,
            b < 65521,
            a == adler_low(data@.take(i as int)) % 65521,
            b == adler_high(data@.take(i as int)) % 65521,
        decreases data.len() - i,
    {
        let ghost before = data@.take(i as int);
        let ghost now = data@.take(i + 1);
        proof {
            assert(now.drop_last() =~= before);
            assert(now.last() == data@[i as int]);
            lemma_reduced_sum(adler_low(before) as int, data@[i as int] as int);
            lemma_reduced_sum(adler_high(before) as int, adler_low(now) as int);
            lemma_reduced_sum(adler_low(now) as int, b as int);
        }
        a = (a + data[i] as u32) % 65521;
        b = (b + a) % 65521;
        i = i + 1;
    }
    assert(data@.take(i as int) =~= data@);
    (b << 16u32) | a
}

/// A number as four bytes, the highest first.
pub open spec fn high_first(n: u32) -> Seq<u8> {
    seq![(n >> 24u32) as u8, (n >> 16u32) as u8, (n >> 8u32) as u8, n as u8]
}

/// A number as two bytes, the lowest first.
pub open spec fn low_first(n: u16) -> Seq<u8> {
    seq![n as u8, (n >> 8u16) as u8]
}

fn add_number(out: &mut Vec<u8>, n: u32)
    ensures
        final(out)@ == old(out)@ + high_first(n),
{
    let ghost before = out@;
    out.push((n >> 24u32) as u8);
    out.push((n >> 16u32) as u8);
    out.push((n >> 8u32) as u8);
    out.push(n as u8);
    assert(out@ =~= before + high_first(n));
}

/// A chunk: the length of its body, its kind, its body, and the checksum of the last two.
pub open spec fn chunk_of(kind: Seq<u8>, body: Seq<u8>) -> Seq<u8> {
    high_first(body.len() as u32) + (kind + body) + high_first(crc_of(kind + body))
}

fn chunk(out: &mut Vec<u8>, kind: &[u8], body: &[u8])
    ensures
        final(out)@ == old(out)@ + chunk_of(kind@, body@),
{
    let ghost before = out@;
    add_number(out, body.len() as u32);
    let mut with_kind: Vec<u8> = Vec::new();
    with_kind.extend_from_slice(kind);
    with_kind.extend_from_slice(body);
    assert(with_kind@ =~= kind@ + body@);
    let crc = crc32(with_kind.as_slice());
    out.append(&mut with_kind);
    add_number(out, crc);
    assert(out@ =~= before + chunk_of(kind@, body@));
}

/// The rows of an image, each with a zero in front: no filter.
pub open spec fn rows_of(width: int, pixels: Seq<u8>, n: int) -> Seq<u8>
    decreases n,
{
    if n <= 0 {
        Seq::empty()
    } else {
        rows_of(width, pixels, n - 1) + seq![0u8] + pixels.subrange(
            (n - 1) * (width * 4),
            (n - 1) * (width * 4) + width * 4,
        )
    }
}

/// How much of the data goes into the next block.
pub open spec fn block_size(left: nat) -> int {
    if left > 65535 {
        65535
    } else {
        left as int
    }
}

/// Data in blocks that are stored as they are: whether it is the last, its length, the complement of the
/// length, and the bytes.
pub open spec fn stored(data: Seq<u8>) -> Seq<u8>
    decreases data.len(),
{
    if data.len() == 0 {
        Seq::empty()
    } else {
        let take = block_size(data.len());
        seq![
            if take == data.len() {
                1u8
            } else {
                0u8
            },
        ] + low_first(take as u16) + low_first(!(take as u16)) + data.take(take) + stored(
            data.skip(take),
        )
    }
}

/// Data as a zlib stream.
pub open spec fn zlib_of(data: Seq<u8>) -> Seq<u8> {
    seq![0x78u8, 0x01u8] + stored(data) + high_first(adler_of(data))
}

pub open spec fn header_of(width: usize, height: usize) -> Seq<u8> {
    high_first(width as u32) + high_first(height as u32) + seq![8u8, 6, 0, 0, 0]
}

pub open spec fn ihdr() -> Seq<u8> {
    seq![73u8, 72, 68, 82]
}

pub open spec fn idat() -> Seq<u8> {
    seq![73u8, 68, 65, 84]
}

pub open spec fn iend() -> Seq<u8> {
    seq![73u8, 69, 78, 68]
}

pub open spec fn signature() -> Seq<u8> {
    seq![0x89u8, 80, 78, 71, 0x0d, 0x0a, 0x1a, 0x0a]
}

/// An image as a PNG file.
pub open spec fn png_of(width: usize, height: usize, pixels: Seq<u8>) -> Seq<u8> {
    signature() + chunk_of(ihdr(), header_of(width, height)) + chunk_of(
        idat(),
        zlib_of(rows_of(width as int, pixels, height as int)),
    ) + chunk_of(iend(), Seq::empty())
}

fn rows(width: usize, height: usize, pixels: &[u8]) -> (raw: Vec<u8>)
    requires
        height * (1 + width * 4) <= usize::MAX,
        height * (width * 4) <= pixels@.len(),
    ensures
        raw@ == rows_of(width as int, pixels@, height as int),
{
    let mut raw: Vec<u8> = Vec::new();
    if height == 0 {
        assert(raw@ =~= rows_of(width as int, pixels@, 0));
        return raw;
    }
    assert(width * 4 <= usize::MAX) by (nonlinear_arith)
        requires
            height * (1 + width * 4) <= usize::MAX,
            height >= 1,
    ;
    let line: usize = width * 4;
    let mut row: usize = 0;
    let mut start: usize = 0;
    let length: usize = pixels.len();
    assert(raw@ =~= rows_of(width as int, pixels@, 0));
    assert(0 * (width * 4) == 0);
    while row < height
        invariant
            row <= height,
            line == width * 4,
            start == row * (width * 4),
            length == pixels@.len(),
            height * (width * 4) <= pixels@.len(),
            raw@ == rows_of(width as int, pixels@, row as int),
        decreases height - row,
    {
        assert((row + 1) * (width * 4) == row * (width * 4) + width * 4) by (nonlinear_arith);
        assert((row + 1) * (width * 4) <= height * (width * 4)) by (nonlinear_arith)
            requires
                row + 1 <= height,
        ;
        raw.push(0);
        let ghost before = raw@;
        raw.extend_from_slice(vstd::slice::slice_subrange(pixels, start, start + line));
        assert(raw@ =~= rows_of(width as int, pixels@, row as int) + seq![0u8] + pixels@.subrange(
            row * (width * 4),
            row * (width * 4) + width * 4,
        ));
        assert(raw@ == rows_of(width as int, pixels@, row + 1));
        start = start + line;
        row = row + 1;
    }
    raw
}

fn zlib(raw: &Vec<u8>) -> (out: Vec<u8>)
    ensures
        out@ == zlib_of(raw@),
{
    let mut out: Vec<u8> = Vec::new();
    out.push(0x78);
    out.push(0x01);
    let ghost head = seq![0x78u8, 0x01u8];
    assert(out@ =~= head);
    let mut at: usize = 0;
    assert(raw@.skip(0) =~= raw@);
    assert(head + stored(raw@) =~= out@ + stored(raw@.skip(0)));
    while at < raw.len()
        invariant
            at <= raw.len(),
            head + stored(raw@) == out@ + stored(raw@.skip(at as int)),
        decreases raw.len() - at,
    {
        let ghost before = out@;
        let ghost rest = raw@.skip(at as int);
        let left: usize = raw.len() - at;
        let take: usize = if left > 65535 {
            65535
        } else {
            left
        };
        let last: u8 = if take == left {
            1
        } else {
            0
        };
        let size: u16 = take as u16;
        let opposite: u16 = !size;
        out.push(last);
        out.push(size as u8);
        out.push((size >> 8u16) as u8);
        out.push(opposite as u8);
        out.push((opposite >> 8u16) as u8);
        out.extend_from_slice(vstd::slice::slice_subrange(raw.as_slice(), at, at + take));
        proof {
            let piece = seq![last] + low_first(size) + low_first(!size) + rest.take(take as int);
            assert(raw@.subrange(at as int, at + take) =~= rest.take(take as int));
            assert(out@ =~= before + piece);
            assert(raw@.skip(at + take) =~= rest.skip(take as int));
            assert(stored(rest) == piece + stored(rest.skip(take as int)));
            assert(before + (piece + stored(rest.skip(take as int))) =~= (before + piece) + stored(
                rest.skip(take as int),
            ));
        }
        at = at + take;
    }
    proof {
        assert(raw@.skip(at as int) =~= Seq::<u8>::empty());
        assert(out@ + Seq::<u8>::empty() =~= out@);
    }
    add_number(&mut out, adler32(raw.as_slice()));
    out
}

/// `pixels` is RGBA, row major, `width * height * 4` bytes.
pub fn encode(width: usize, height: usize, pixels: &[u8]) -> (out: Vec<u8>)
    requires
        height * (1 + width * 4) <= usize::MAX,
        height * (width * 4) <= pixels@.len(),
    ensures
        out@ == png_of(width, height, pixels@),
{
    let raw = rows(width, height, pixels);
    let stream = zlib(&raw);
    let mut header: Vec<u8> = Vec::new();
    add_number(&mut header, width as u32);
    add_number(&mut header, height as u32);
    let ghost sizes = header@;
    // 8-bit RGBA.
    let rest: [u8; 5] = [8, 6, 0, 0, 0];
    header.extend_from_slice(rest.as_slice());
    assert(header@ =~= header_of(width, height));
    let mut out: Vec<u8> = Vec::new();
    let magic: [u8; 8] = [0x89, 80, 78, 71, 0x0d, 0x0a, 0x1a, 0x0a];
    out.extend_from_slice(magic.as_slice());
    assert(out@ =~= signature());
    let kind: [u8; 4] = [73, 72, 68, 82];
    assert(kind@ =~= ihdr());
    chunk(&mut out, kind.as_slice(), header.as_slice());
    let kind: [u8; 4] = [73, 68, 65, 84];
    assert(kind@ =~= idat());
    chunk(&mut out, kind.as_slice(), stream.as_slice());
    let kind: [u8; 4] = [73, 69, 78, 68];
    assert(kind@ =~= iend());
    let none: [u8; 0] = [];
    assert(none@ =~= Seq::<u8>::empty());
    chunk(&mut out, kind.as_slice(), none.as_slice());
    out
}

/// One channel of one pixel.
pub open spec fn channel_at(width: int, pixels: Seq<u8>, row: int, column: int, channel: int) -> u8 {
    pixels[(row * width + column) * 4 + channel]
}

/// The average of a channel over a block of two by two pixels.
pub open spec fn average_at(width: int, pixels: Seq<u8>, row: int, column: int, channel: int) -> u8 {
    ((channel_at(width, pixels, 2 * row, 2 * column, channel) as int + channel_at(
        width,
        pixels,
        2 * row,
        2 * column + 1,
        channel,
    ) as int + channel_at(width, pixels, 2 * row + 1, 2 * column, channel) as int + channel_at(
        width,
        pixels,
        2 * row + 1,
        2 * column + 1,
        channel,
    ) as int) / 4) as u8
}

/// An image of half the width and half the height.
pub open spec fn halved(width: int, height: int, pixels: Seq<u8>) -> Seq<u8> {
    Seq::new(
        ((height / 2) * ((width / 2) * 4)) as nat,
        |i: int|
            average_at(
                width,
                pixels,
                i / ((width / 2) * 4),
                (i % ((width / 2) * 4)) / 4,
                i % ((width / 2) * 4) % 4,
            ),
    )
}

proof fn lemma_pixel_in_range(width: int, height: int, length: int, r: int, c: int, ch: int)
    requires
        2 <= width,
        2 <= height,
        0 <= r < 2 * (height / 2),
        0 <= c < 2 * (width / 2),
        0 <= ch < 4,
        ((2 * (height / 2) - 1) * width + 2 * (width / 2)) * 4 <= length,
    ensures
        0 <= (r * width + c) * 4 + ch < length,
        0 <= r * width,
        (r * width + c) * 4 + ch >= r * width,
{
    let top = 2 * (height / 2) - 1;
    assert(r * width <= top * width) by (nonlinear_arith)
        requires
            r <= top,
            2 <= width,
    ;
    assert(0 <= r * width) by (nonlinear_arith)
        requires
            0 <= r,
            2 <= width,
    ;
}

/// Average each 2x2 block into one pixel. Screens are captured at the display's own resolution, which is
/// more than a screenshot needs.
pub fn halve(width: usize, height: usize, pixels: &[u8]) -> (out: (usize, usize, Vec<u8>))
    requires
        width >= 2 && height >= 2 ==> ((2 * (height / 2) - 1) * width + 2 * (width / 2)) * 4
            <= pixels@.len(),
    ensures
        width < 2 || height < 2 ==> out.0 == width && out.1 == height && out.2@ == pixels@,
        width >= 2 && height >= 2 ==> out.0 == width / 2 && out.1 == height / 2 && out.2@ == halved(
            width as int,
            height as int,
            pixels@,
        ),
{
    if width < 2 || height < 2 {
        return (width, height, vstd::slice::slice_to_vec(pixels));
    }
    let length: usize = pixels.len();
    let out_width: usize = width / 2;
    let out_height: usize = height / 2;
    let ghost needed = ((2 * (height / 2) - 1) * width + 2 * (width / 2)) * 4;
    assert(1 * width <= (2 * (height / 2) - 1) * width) by (nonlinear_arith)
        requires
            2 <= height,
            0 <= width,
    ;
    let line: usize = out_width * 4;
    let ghost wanted = halved(width as int, height as int, pixels@);
    let mut out: Vec<u8> = Vec::new();
    let mut row: usize = 0;
    assert(0 * line == 0);
    while row < out_height
        invariant
            2 <= width,
            2 <= height,
            length == pixels@.len(),
            out_width == width / 2,
            out_height == height / 2,
            line == (width / 2) * 4,
            ((2 * (height / 2) - 1) * width + 2 * (width / 2)) * 4 <= length,
            wanted == halved(width as int, height as int, pixels@),
            row <= out_height,
            out@.len() == row * line,
            out@.len() <= wanted.len(),
            forall|i: int| 0 <= i < out@.len() ==> #[trigger] out@[i] == wanted[i],
        decreases out_height - row,
    {
        let ghost base = row * line;
        assert(base + line == (row + 1) * line) by (nonlinear_arith)
            requires
                base == row * line,
        ;
        assert((row + 1) * line <= out_height * line) by (nonlinear_arith)
            requires
                row + 1 <= out_height,
                0 <= line,
        ;
        let mut k: usize = 0;
        while k < line
            invariant
                2 <= width,
                2 <= height,
                length == pixels@.len(),
                out_width == width / 2,
                out_height == height / 2,
                line == (width / 2) * 4,
                ((2 * (height / 2) - 1) * width + 2 * (width / 2)) * 4 <= length,
                wanted == halved(width as int, height as int, pixels@),
                row < out_height,
                base == row * line,
                base + line <= wanted.len(),
                k <= line,
                out@.len() == base + k,
                forall|i: int| 0 <= i < out@.len() ==> #[trigger] out@[i] == wanted[i],
            decreases line - k,
        {
            let column: usize = k / 4;
            let channel: usize = k % 4;
            proof {
                lemma_pixel_in_range(
                    width as int,
                    height as int,
                    length as int,
                    2 * row as int,
                    2 * column as int,
                    channel as int,
                );
                lemma_pixel_in_range(
                    width as int,
                    height as int,
                    length as int,
                    2 * row as int,
                    2 * column as int + 1,
                    channel as int,
                );
                lemma_pixel_in_range(
                    width as int,
                    height as int,
                    length as int,
                    2 * row as int + 1,
                    2 * column as int,
                    channel as int,
                );
                lemma_pixel_in_range(
                    width as int,
                    height as int,
                    length as int,
                    2 * row as int + 1,
                    2 * column as int + 1,
                    channel as int,
                );
                vstd::arithmetic::div_mod::lemma_fundamental_div_mod_converse(
                    base + k,
                    line as int,
                    row as int,
                    k as int,
                );
            }
            let r0: usize = 2 * row * width;
            let r1: usize = (2 * row + 1) * width;
            let c: usize = 2 * column;
            let total: u32 = pixels[(r0 + c) * 4 + channel] as u32 + pixels[(r0 + (c + 1)) * 4
                + channel] as u32 + pixels[(r1 + c) * 4 + channel] as u32 + pixels[(r1 + (c + 1)) * 4
                + channel] as u32;
            assert((total / 4) as u8 == average_at(
                width as int,
                pixels@,
                row as int,
                column as int,
                channel as int,
            ));
            assert(wanted[base + k] == (total / 4) as u8);
            out.push((total / 4) as u8);
            k = k + 1;
        }
        row = row + 1;
    }
    assert(out@ =~= wanted);
    (out_width, out_height, out)
}

/// The data that a row of stored blocks holds, read up to the block that says it is the last.
#[verifier::opaque]
pub open spec fn unstored(bytes: Seq<u8>) -> Option<Seq<u8>>
    decreases bytes.len(),
{
    if bytes.len() < 5 {
        None
    } else {
        let size = bytes[1] as int + 256 * bytes[2] as int;
        let opposite = bytes[3] as int + 256 * bytes[4] as int;
        if size + opposite != 65535 || bytes.len() < 5 + size {
            None
        } else if bytes[0] == 1 {
            Some(bytes.subrange(5, 5 + size))
        } else {
            match unstored(bytes.skip(5 + size)) {
                Some(rest) => Some(bytes.subrange(5, 5 + size) + rest),
                None => None,
            }
        }
    }
}

proof fn lemma_block_length(size: u16)
    ensures
        low_first(size)[0] as int + 256 * low_first(size)[1] as int == size,
        low_first(!size)[0] as int + 256 * low_first(!size)[1] as int == 65535 - size,
{
    let opposite = !size;
    let a = size as u8;
    let b = (size >> 8u16) as u8;
    let c = opposite as u8;
    let d = (opposite >> 8u16) as u8;
    assert(a as u32 + 256 * (b as u32) == size as u32) by (bit_vector)
        requires
            a == size as u8,
            b == (size >> 8u16) as u8,
    ;
    assert(c as u32 + 256 * (d as u32) == opposite as u32) by (bit_vector)
        requires
            c == opposite as u8,
            d == (opposite >> 8u16) as u8,
    ;
    assert(size as u32 + opposite as u32 == 65535u32) by (bit_vector)
        requires
            opposite == !size,
    ;
}

/// One stored block at the front of some bytes is read as its data, and reading goes on behind it.
proof fn lemma_read_block(flag: u8, body: Seq<u8>, after: Seq<u8>)
    requires
        body.len() <= 65535,
    ensures
        unstored(block_of(flag, body) + after) == if flag == 1 {
            Some(body)
        } else {
            match unstored(after) {
                Some(rest) => Some(body + rest),
                None => None,
            }
        },
{
    reveal(unstored);
    let size = body.len() as u16;
    lemma_block_length(size);
    let head = block_of(flag, body);
    let whole = head + after;
    assert(head.len() == 5 + body.len());
    assert(whole[0] == flag);
    assert(whole[1] == low_first(size)[0] && whole[2] == low_first(size)[1]);
    assert(whole[3] == low_first(!size)[0] && whole[4] == low_first(!size)[1]);
    assert(whole.subrange(5, 5 + body.len() as int) =~= body);
    assert(whole.skip(5 + body.len() as int) =~= after);
}

/// A stored block: its flag, its length, the complement of that, and its data.
pub open spec fn block_of(flag: u8, body: Seq<u8>) -> Seq<u8> {
    let size = body.len() as u16;
    seq![flag] + low_first(size) + low_first(!size) + body
}

proof fn lemma_three_in_a_row(a: Seq<u8>, b: Seq<u8>, c: Seq<u8>)
    ensures
        (a + b) + c == a + (b + c),
{
    assert((a + b) + c =~= a + (b + c));
}

/// Reading the blocks of a stream gives back the data it was made of, whatever follows them.
pub proof fn law_stored_data_reads_back(data: Seq<u8>, rest: Seq<u8>)
    requires
        data.len() > 0,
    ensures
        unstored(stored(data) + rest) == Some(data),
    decreases data.len(),
{
    let take = block_size(data.len());
    let tail = stored(data.skip(take));
    let flag = if take == data.len() {
        1u8
    } else {
        0u8
    };
    let head = block_of(flag, data.take(take));
    assert(data.take(take).len() == take);
    lemma_three_in_a_row(head, tail, rest);
    lemma_read_block(flag, data.take(take), tail + rest);
    if take == data.len() {
        assert(data.take(take) =~= data);
    } else {
        law_stored_data_reads_back(data.skip(take), rest);
        assert(data.take(take) + data.skip(take) =~= data);
    }
}

/// The stream of a PNG holds each row of the image: a zero, and then its pixels as they were given.
pub proof fn law_rows_hold_the_pixels(width: int, pixels: Seq<u8>, n: int, row: int, k: int)
    requires
        0 <= width,
        0 <= row < n,
        n * (width * 4) <= pixels.len(),
        0 <= k < width * 4,
    ensures
        rows_of(width, pixels, n).len() == n * (1 + width * 4),
        rows_of(width, pixels, n)[row * (1 + width * 4)] == 0,
        rows_of(width, pixels, n)[row * (1 + width * 4) + 1 + k] == pixels[row * (width * 4) + k],
    decreases n,
{
    let line = width * 4;
    assert((n - 1) * line + line == n * line) by (nonlinear_arith);
    assert((n - 1) * (1 + line) + (1 + line) == n * (1 + line)) by (nonlinear_arith);
    lemma_rows_length(width, pixels, n - 1);
    assert(0 <= (n - 1) * line) by (nonlinear_arith)
        requires
            1 <= n,
            0 <= line,
    ;
    if row < n - 1 {
        law_rows_hold_the_pixels(width, pixels, n - 1, row, k);
        assert(row * (1 + line) + 1 + k < (n - 1) * (1 + line)) by (nonlinear_arith)
            requires
                row + 1 <= n - 1,
                0 <= k < line,
        ;
        assert(0 <= row * (1 + line)) by (nonlinear_arith)
            requires
                0 <= row,
                0 <= line,
        ;
    }
}

proof fn lemma_rows_length(width: int, pixels: Seq<u8>, n: int)
    requires
        0 <= width,
        0 <= n,
        n * (width * 4) <= pixels.len(),
    ensures
        rows_of(width, pixels, n).len() == n * (1 + width * 4),
    decreases n,
{
    let line = width * 4;
    if n > 0 {
        assert((n - 1) * line + line == n * line) by (nonlinear_arith);
        assert((n - 1) * (1 + line) + (1 + line) == n * (1 + line)) by (nonlinear_arith);
        assert(0 <= (n - 1) * line) by (nonlinear_arith)
            requires
                1 <= n,
                0 <= line,
        ;
        lemma_rows_length(width, pixels, n - 1);
    } else {
        assert(0 * (1 + line) == 0);
    }
}

} // verus!

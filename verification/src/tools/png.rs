//! Charts of bars as PNG pictures.
//!
//! The picture is 900 pixels wide and 500 high. It holds the two axes and a bar for each value;
//! its data is stored, not compressed.

use vstd::prelude::*;

verus! {

// ---- numbers as bytes ----

/// A number of 32 bits, the highest byte first.
pub open spec fn be_bytes(n: u32) -> Seq<u8> {
    seq![
        (n / 16777216) as u8,
        (n / 65536 % 256) as u8,
        (n / 256 % 256) as u8,
        (n % 256) as u8,
    ]
}

/// A number of 16 bits, the lowest byte first.
pub open spec fn le_bytes(n: u16) -> Seq<u8> {
    seq![(n % 256) as u8, (n / 256) as u8]
}

fn push_be(out: &mut Vec<u8>, n: u32)
    ensures
        final(out)@ == old(out)@ + be_bytes(n),
{
    let ghost before = out@;
    out.push((n / 16777216) as u8);
    out.push((n / 65536 % 256) as u8);
    out.push((n / 256 % 256) as u8);
    out.push((n % 256) as u8);
    proof {
        assert(out@ =~= before + be_bytes(n));
    }
}

fn push_le(out: &mut Vec<u8>, n: u16)
    ensures
        final(out)@ == old(out)@ + le_bytes(n),
{
    let ghost before = out@;
    out.push((n % 256) as u8);
    out.push((n / 256) as u8);
    proof {
        assert(out@ =~= before + le_bytes(n));
    }
}

// ---- checksums ----

/// One step of the cyclic checksum.
pub open spec fn crc_bit(crc: u32) -> u32 {
    if crc & 1 != 0 {
        (crc >> 1) ^ 0xedb8_8320
    } else {
        crc >> 1
    }
}

/// So many steps of the cyclic checksum.
pub open spec fn crc_bits(crc: u32, steps: nat) -> u32
    decreases steps,
{
    if steps == 0 {
        crc
    } else {
        crc_bit(crc_bits(crc, (steps - 1) as nat))
    }
}

/// The state of the cyclic checksum behind the bytes.
pub open spec fn crc_state(bytes: Seq<u8>) -> u32
    decreases bytes.len(),
{
    if bytes.len() == 0 {
        0xffff_ffff
    } else {
        crc_bits(crc_state(bytes.drop_last()) ^ (bytes.last() as u32), 8)
    }
}

/// The cyclic checksum of the bytes.
pub open spec fn crc_of(bytes: Seq<u8>) -> u32 {
    !crc_state(bytes)
}

/// The cyclic checksum of the bytes.
pub fn crc32(bytes: &[u8]) -> (r: u32)
    ensures
        r == crc_of(bytes@),
{
    let mut crc: u32 = 0xffff_ffff;
    let mut i: usize = 0;
    proof {
        assert(bytes@.take(0) =~= Seq::<u8>::empty());
    }
    while i < bytes.len()
        invariant
            i <= bytes@.len(),
            crc == crc_state(bytes@.take(i as int)),
        decreases bytes@.len() - i,
    {
        proof {
            assert(bytes@.take(i + 1).drop_last() =~= bytes@.take(i as int));
            assert(bytes@.take(i + 1).last() == bytes@[i as int]);
        }
        crc = crc ^ (bytes[i] as u32);
        let ghost start = crc;
        let mut k: usize = 0;
        while k < 8
            invariant
                k <= 8,
                crc == crc_bits(start, k as nat),
            decreases 8 - k,
        {
            crc = if crc & 1 != 0 {
                (crc >> 1) ^ 0xedb8_8320
            } else {
                crc >> 1
            };
            k += 1;
        }
        i += 1;
    }
    proof {
        assert(bytes@.take(bytes@.len() as int) =~= bytes@);
    }
    !crc
}

/// The two sums of the checksum of Adler.
pub open spec fn adler_sums(bytes: Seq<u8>) -> (nat, nat)
    decreases bytes.len(),
{
    if bytes.len() == 0 {
        (1, 0)
    } else {
        let (a, b) = adler_sums(bytes.drop_last());
        let next = (a + bytes.last() as nat) % 65521;
        (next, (b + next) % 65521)
    }
}

/// The checksum of Adler.
pub open spec fn adler_of(bytes: Seq<u8>) -> u32 {
    (adler_sums(bytes).1 * 65536 + adler_sums(bytes).0) as u32
}

fn adler32(bytes: &[u8]) -> (r: u32)
    ensures
        r == adler_of(bytes@),
{
    let mut a: u32 = 1;
    let mut b: u32 = 0;
    let mut i: usize = 0;
    proof {
        assert(bytes@.take(0) =~= Seq::<u8>::empty());
    }
    while i < bytes.len()
        invariant
            i <= bytes@.len(),
            a < 65521,
            b < 65521,
            adler_sums(bytes@.take(i as int)) == (a as nat, b as nat),
        decreases bytes@.len() - i,
    {
        proof {
            assert(bytes@.take(i + 1).drop_last() =~= bytes@.take(i as int));
            assert(bytes@.take(i + 1).last() == bytes@[i as int]);
        }
        a = (a + bytes[i] as u32) % 65521;
        b = (b + a) % 65521;
        i += 1;
    }
    proof {
        assert(bytes@.take(bytes@.len() as int) =~= bytes@);
    }
    b * 65536 + a
}

// ---- chunks ----

/// A chunk of a picture: its length, its kind, its data and their checksum.
pub open spec fn chunk_of(kind: Seq<u8>, data: Seq<u8>) -> Seq<u8> {
    be_bytes(data.len() as u32) + kind + data + be_bytes(crc_of(kind + data))
}

fn extend(out: &mut Vec<u8>, bytes: &[u8])
    ensures
        final(out)@ == old(out)@ + bytes@,
{
    let ghost before = out@;
    let mut i: usize = 0;
    proof {
        assert(before + bytes@.take(0) =~= before);
    }
    while i < bytes.len()
        invariant
            i <= bytes@.len(),
            out@ == before + bytes@.take(i as int),
        decreases bytes@.len() - i,
    {
        out.push(bytes[i]);
        proof {
            assert(out@ =~= before + bytes@.take(i + 1));
        }
        i += 1;
    }
    proof {
        assert(bytes@.take(bytes@.len() as int) =~= bytes@);
    }
}

/// A chunk of a picture. Its data is no longer than a number of 32 bits can say.
pub fn png_chunk(kind: &[u8], data: &[u8]) -> (r: Vec<u8>)
    requires
        data@.len() <= u32::MAX,
    ensures
        r@ == chunk_of(kind@, data@),
{
    let mut chunk: Vec<u8> = Vec::new();
    push_be(&mut chunk, data.len() as u32);
    proof {
        assert(chunk@ =~= be_bytes(data@.len() as u32));
    }
    extend(&mut chunk, kind);
    extend(&mut chunk, data);
    let mut checked: Vec<u8> = Vec::new();
    extend(&mut checked, kind);
    extend(&mut checked, data);
    proof {
        assert(checked@ =~= kind@ + data@);
    }
    push_be(&mut chunk, crc32(&checked));
    chunk
}

// ---- stored data ----

/// The most that one block of stored data holds.
pub const MAX_BLOCK: usize = 65535;

/// The blocks of stored data from the place `from` on. The last one is marked.
pub open spec fn stored_blocks(raw: Seq<u8>, from: int) -> Seq<u8>
    decreases raw.len() - from,
{
    if from < 0 || from >= raw.len() {
        Seq::empty()
    } else {
        let rest = raw.len() - from;
        let n = if rest < MAX_BLOCK {
            rest
        } else {
            MAX_BLOCK as int
        };
        block_head(n, n == rest) + raw.subrange(from, from + n) + stored_blocks(raw, from + n)
    }
}

/// The head of a block: whether it is the last, its length and the complement of that.
pub open spec fn block_head(n: int, last: bool) -> Seq<u8> {
    seq![
        if last {
            1u8
        } else {
            0u8
        },
    ] + le_bytes(n as u16) + le_bytes((65535 - n) as u16)
}

/// The data in the form that a picture holds it in: marked as stored, and with its checksum.
pub open spec fn stored(raw: Seq<u8>) -> Seq<u8> {
    seq![0x78u8, 0x01u8] + stored_blocks(raw, 0) + be_bytes(adler_of(raw))
}

/// The data in the form that a picture holds it in.
pub fn store(raw: &[u8]) -> (r: Vec<u8>)
    ensures
        r@ == stored(raw@),
{
    let mut out: Vec<u8> = Vec::new();
    out.push(0x78);
    out.push(0x01);
    let total = raw.len();
    let mut offset: usize = 0;
    proof {
        assert(out@ =~= seq![0x78u8, 0x01u8]);
        assert(seq![0x78u8, 0x01u8] + stored_blocks(raw@, 0) =~= out@ + stored_blocks(raw@, 0));
    }
    while offset < total
        invariant
            total == raw@.len(),
            offset <= total,
            seq![0x78u8, 0x01u8] + stored_blocks(raw@, 0) == out@ + stored_blocks(
                raw@,
                offset as int,
            ),
        decreases total - offset,
    {
        let rest = total - offset;
        let n: usize = if rest < MAX_BLOCK {
            rest
        } else {
            MAX_BLOCK
        };
        let ghost before = out@;
        out.push(
            if n == rest {
                1
            } else {
                0
            },
        );
        push_le(&mut out, n as u16);
        push_le(&mut out, (65535 - n) as u16);
        proof {
            assert(out@ =~= before + block_head(n as int, n == rest));
        }
        let mut k: usize = 0;
        let ghost head = out@;
        proof {
            assert(head + raw@.subrange(offset as int, offset as int) =~= head);
        }
        while k < n
            invariant
                k <= n,
                offset + n <= total == raw@.len(),
                out@ == head + raw@.subrange(offset as int, offset + k),
            decreases n - k,
        {
            out.push(raw[offset + k]);
            proof {
                assert(out@ =~= head + raw@.subrange(offset as int, offset + k + 1));
            }
            k += 1;
        }
        proof {
            let tail = stored_blocks(raw@, offset + n);
            assert(before + (block_head(n as int, n == rest) + raw@.subrange(
                offset as int,
                offset + n,
            ) + tail) =~= out@ + tail);
        }
        offset += n;
    }
    proof {
        assert(out@ + stored_blocks(raw@, total as int) =~= out@);
    }
    push_be(&mut out, adler32(raw));
    out
}

/// The data of the blocks at the front of some bytes, read one block after the other up to the
/// one that is marked as the last.
pub open spec fn read_blocks(bytes: Seq<u8>) -> Option<Seq<u8>>
    decreases bytes.len(),
{
    if bytes.len() < 5 {
        None
    } else {
        let n = bytes[1] + bytes[2] * 256;
        if n + bytes[3] + bytes[4] * 256 != 65535 || bytes.len() < 5 + n {
            None
        } else if bytes[0] == 1 {
            Some(bytes.subrange(5, 5 + n))
        } else {
            match read_blocks(bytes.skip(5 + n)) {
                Some(rest) => Some(bytes.subrange(5, 5 + n) + rest),
                None => None,
            }
        }
    }
}

/// Data that was stored is read back, whatever follows it.
pub proof fn law_stored_data_is_read_back(raw: Seq<u8>, from: int, rest: Seq<u8>)
    requires
        0 <= from < raw.len(),
    ensures
        read_blocks(stored_blocks(raw, from) + rest) == Some(raw.skip(from)),
    decreases raw.len() - from,
{
    let left = raw.len() - from;
    let n = if left < MAX_BLOCK {
        left
    } else {
        MAX_BLOCK as int
    };
    let head = block_head(n, n == left);
    let data = raw.subrange(from, from + n);
    let tail = stored_blocks(raw, from + n);
    let all = stored_blocks(raw, from) + rest;
    assert(all =~= head + data + (tail + rest));
    assert(head.len() == 5);
    assert(all[0] == head[0] && all[1] == head[1] && all[2] == head[2] && all[3] == head[3]
        && all[4] == head[4]);
    let l = n as u16;
    let m = (65535 - n) as u16;
    assert(head[1] == (l % 256) as u8 && head[2] == (l / 256) as u8);
    assert(head[3] == (m % 256) as u8 && head[4] == (m / 256) as u8);
    assert(all[1] + all[2] * 256 == n);
    assert(all[3] + all[4] * 256 == 65535 - n);
    assert(all.subrange(5, 5 + n) =~= data);
    if n == left {
        assert(data =~= raw.skip(from));
    } else {
        assert(all.skip(5 + n) =~= tail + rest);
        law_stored_data_is_read_back(raw, from + n, rest);
        assert(data + raw.skip(from + n) =~= raw.skip(from));
    }
}

// ---- the chart ----

pub const WIDTH: usize = 900;

pub const HEIGHT: usize = 500;

/// The width of the place of a bar.
pub open spec fn bar_width(bars: nat) -> int {
    if bars == 0 {
        0
    } else {
        760int / bars as int
    }
}

/// Where the bar begins and ends, from left to right.
pub open spec fn bar_start(bars: nat, i: int) -> int {
    90 + i * bar_width(bars) + bar_width(bars) / 8
}

pub open spec fn bar_end(bars: nat, i: int) -> int {
    let end = bar_start(bars, i) + bar_width(bars) * 3 / 4;
    if end < WIDTH {
        end
    } else {
        WIDTH as int
    }
}

/// Whether the bar covers the place.
pub open spec fn bar_covers(heights: Seq<usize>, i: int, x: int, y: int) -> bool {
    &&& bar_start(heights.len(), i) <= x < bar_end(heights.len(), i)
    &&& 420 - heights[i] <= y < 420
}

/// Whether one of the first `n` bars covers the place.
pub open spec fn covered(heights: Seq<usize>, n: int, x: int, y: int) -> bool {
    exists|i: int| 0 <= i < n && bar_covers(heights, i, x, y)
}

/// Whether an axis runs through the place.
pub open spec fn on_axis(x: int, y: int) -> bool {
    (y == 420 && 90 <= x < 850) || (x == 90 && 60 <= y < 421)
}

/// The colour of a place: that of a bar, of an axis or of the paper.
pub open spec fn colour(heights: Seq<usize>, x: int, y: int) -> Seq<u8> {
    if covered(heights, heights.len() as int, x, y) {
        seq![196u8, 81u8, 50u8]
    } else if on_axis(x, y) {
        seq![119u8, 115u8, 107u8]
    } else {
        seq![255u8, 255u8, 255u8]
    }
}

/// The first `n` pixels of a line.
pub open spec fn line_pixels(heights: Seq<usize>, y: int, n: nat) -> Seq<u8>
    decreases n,
{
    if n == 0 {
        Seq::empty()
    } else {
        line_pixels(heights, y, (n - 1) as nat) + colour(heights, n - 1, y)
    }
}

/// The first `n` lines of the picture, each behind a byte that says that it is not filtered.
pub open spec fn picture(heights: Seq<usize>, n: nat) -> Seq<u8>
    decreases n,
{
    if n == 0 {
        Seq::empty()
    } else {
        picture(heights, (n - 1) as nat) + (seq![0u8] + line_pixels(
            heights,
            n - 1,
            WIDTH as nat,
        ))
    }
}

pub proof fn lemma_picture_len(heights: Seq<usize>, n: nat)
    ensures
        picture(heights, n).len() == n * 2701,
    decreases n,
{
    if n > 0 {
        lemma_picture_len(heights, (n - 1) as nat);
        lemma_line_len(heights, n - 1, WIDTH as nat);
    }
}

pub proof fn lemma_line_len(heights: Seq<usize>, y: int, n: nat)
    ensures
        line_pixels(heights, y, n).len() == 3 * n,
    decreases n,
{
    if n > 0 {
        lemma_line_len(heights, y, (n - 1) as nat);
    }
}

/// Marks the places of a line that bars cover.
fn mark_bars(heights: &[usize], y: usize) -> (r: Vec<bool>)
    requires
        y < HEIGHT,
    ensures
        r@.len() == WIDTH,
        forall|x: int|
            0 <= x < WIDTH ==> #[trigger] r@[x] == covered(
                heights@,
                heights@.len() as int,
                x,
                y as int,
            ),
{
    let mut marks: Vec<bool> = Vec::new();
    let mut x: usize = 0;
    while x < WIDTH
        invariant
            x <= WIDTH,
            marks@.len() == x,
            forall|k: int| 0 <= k < x ==> !#[trigger] marks@[k],
        decreases WIDTH - x,
    {
        marks.push(false);
        x += 1;
    }
    let bars = heights.len();
    let width: usize = if bars == 0 {
        0
    } else {
        760 / bars
    };
    let mut i: usize = 0;
    while i < bars
        invariant
            i <= bars,
            bars == heights@.len(),
            y < HEIGHT,
            width == bar_width(bars as nat),
            marks@.len() == WIDTH,
            forall|x: int|
                0 <= x < WIDTH ==> #[trigger] marks@[x] == covered(
                    heights@,
                    i as int,
                    x,
                    y as int,
                ),
        decreases bars - i,
    {
        proof {
            assert(i * width <= 760) by (nonlinear_arith)
                requires
                    i < bars,
                    width == 760int / bars as int,
            ;
        }
        let start: usize = 90 + i * width + width / 8;
        let full: usize = start + width * 3 / 4;
        let end: usize = if full < WIDTH {
            full
        } else {
            WIDTH
        };
        let top: usize = if heights[i] > 420 {
            0
        } else {
            420 - heights[i]
        };
        let ghost before = marks@;
        proof {
            assert(start == bar_start(bars as nat, i as int));
            assert(end == bar_end(bars as nat, i as int));
            assert forall|x: int| 0 <= x < WIDTH implies covered(
                heights@,
                i + 1,
                x,
                y as int,
            ) == (covered(heights@, i as int, x, y as int) || (start <= x < end && top <= y
                < 420)) by {
                if covered(heights@, i + 1, x, y as int) {
                    let j = choose|j: int|
                        0 <= j < i + 1 && bar_covers(heights@, j, x, y as int);
                    if j < i {
                        assert(bar_covers(heights@, j, x, y as int));
                    }
                }
                if covered(heights@, i as int, x, y as int) {
                    let j = choose|j: int|
                        0 <= j < i && bar_covers(heights@, j, x, y as int);
                    assert(bar_covers(heights@, j, x, y as int));
                }
                if start <= x < end && top <= y < 420 {
                    assert(bar_covers(heights@, i as int, x, y as int));
                }
            }
        }
        if top <= y && y < 420 {
            let mut x: usize = start;
            while x < end
                invariant
                    start <= x,
                    x <= end || start > end,
                    end <= WIDTH,
                    marks@.len() == WIDTH,
                    before.len() == WIDTH,
                    forall|k: int|
                        0 <= k < WIDTH ==> #[trigger] marks@[k] == (before[k] || start <= k < x),
                decreases end - x,
            {
                marks.set(x, true);
                x += 1;
            }
            proof {
                if start > end {
                    assert forall|k: int| 0 <= k < WIDTH implies #[trigger] marks@[k]
                        == before[k] by {}
                }
            }
        }
        i += 1;
    }
    marks
}

/// Adds a line of the picture.
fn push_line(out: &mut Vec<u8>, heights: &[usize], y: usize)
    requires
        y < HEIGHT,
    ensures
        final(out)@ == old(out)@ + (seq![0u8] + line_pixels(heights@, y as int, WIDTH as nat)),
{
    let ghost before = out@;
    let marks = mark_bars(heights, y);
    out.push(0);
    let mut x: usize = 0;
    proof {
        assert(out@ =~= before + (seq![0u8] + line_pixels(heights@, y as int, 0)));
    }
    while x < WIDTH
        invariant
            x <= WIDTH,
            marks@.len() == WIDTH,
            forall|x: int|
                0 <= x < WIDTH ==> #[trigger] marks@[x] == covered(
                    heights@,
                    heights@.len() as int,
                    x,
                    y as int,
                ),
            out@ == before + (seq![0u8] + line_pixels(heights@, y as int, x as nat)),
        decreases WIDTH - x,
    {
        let (r, g, b): (u8, u8, u8) = if marks[x] {
            (196, 81, 50)
        } else if (y == 420 && 90 <= x && x < 850) || (x == 90 && 60 <= y && y < 421) {
            (119, 115, 107)
        } else {
            (255, 255, 255)
        };
        out.push(r);
        out.push(g);
        out.push(b);
        proof {
            assert(colour(heights@, x as int, y as int) =~= seq![r, g, b]);
            assert(out@ =~= before + (seq![0u8] + line_pixels(
                heights@,
                y as int,
                (x + 1) as nat,
            )));
        }
        x += 1;
    }
}

pub open spec fn png_header() -> Seq<u8> {
    be_bytes(WIDTH as u32) + be_bytes(HEIGHT as u32) + seq![8u8, 2u8, 0u8, 0u8, 0u8]
}

/// The chart as the bytes of a PNG file.
pub open spec fn chart_png(heights: Seq<usize>) -> Seq<u8> {
    seq![0x89u8, 0x50u8, 0x4eu8, 0x47u8, 0x0du8, 0x0au8, 0x1au8, 0x0au8] + chunk_of(
        seq![0x49u8, 0x48u8, 0x44u8, 0x52u8],
        png_header(),
    ) + chunk_of(
        seq![0x49u8, 0x44u8, 0x41u8, 0x54u8],
        stored(picture(heights, HEIGHT as nat)),
    ) + chunk_of(seq![0x49u8, 0x45u8, 0x4eu8, 0x44u8], Seq::empty())
}

/// Stored data is little longer than the data.
proof fn lemma_stored_blocks_len(raw: Seq<u8>, from: int)
    requires
        0 <= from <= raw.len(),
    ensures
        stored_blocks(raw, from).len() <= (raw.len() - from) * 6,
    decreases raw.len() - from,
{
    if from < raw.len() {
        let rest = raw.len() - from;
        let n = if rest < MAX_BLOCK {
            rest
        } else {
            MAX_BLOCK as int
        };
        lemma_stored_blocks_len(raw, from + n);
    }
}

fn four(a: u8, b: u8, c: u8, d: u8) -> (r: Vec<u8>)
    ensures
        r@ == seq![a, b, c, d],
{
    let mut r: Vec<u8> = Vec::new();
    r.push(a);
    r.push(b);
    r.push(c);
    r.push(d);
    proof {
        assert(r@ =~= seq![a, b, c, d]);
    }
    r
}

/// The chart as the bytes of a PNG file. The heights of the bars are given in pixels.
pub fn png_chart(heights: &[usize]) -> (r: Vec<u8>)
    ensures
        r@ == chart_png(heights@),
{
    let mut raw: Vec<u8> = Vec::new();
    let mut y: usize = 0;
    while y < HEIGHT
        invariant
            y <= HEIGHT,
            raw@ == picture(heights@, y as nat),
        decreases HEIGHT - y,
    {
        push_line(&mut raw, heights, y);
        y += 1;
    }
    let data = store(&raw);
    proof {
        lemma_picture_len(heights@, HEIGHT as nat);
        lemma_stored_blocks_len(raw@, 0);
    }
    let mut header: Vec<u8> = Vec::new();
    push_be(&mut header, WIDTH as u32);
    push_be(&mut header, HEIGHT as u32);
    header.push(8);
    header.push(2);
    header.push(0);
    header.push(0);
    header.push(0);
    proof {
        assert(header@ =~= png_header());
    }
    let mut png: Vec<u8> = four(0x89, 0x50, 0x4e, 0x47);
    extend(&mut png, &four(0x0d, 0x0a, 0x1a, 0x0a));
    proof {
        assert(png@ =~= seq![0x89u8, 0x50u8, 0x4eu8, 0x47u8, 0x0du8, 0x0au8, 0x1au8, 0x0au8]);
    }
    let kind = four(0x49, 0x48, 0x44, 0x52);
    extend(&mut png, &png_chunk(&kind, &header));
    let kind = four(0x49, 0x44, 0x41, 0x54);
    extend(&mut png, &png_chunk(&kind, &data));
    let kind = four(0x49, 0x45, 0x4e, 0x44);
    let none: Vec<u8> = Vec::new();
    extend(&mut png, &png_chunk(&kind, &none));
    png
}

} // verus!

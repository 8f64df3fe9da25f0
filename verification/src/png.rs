//! A small PNG writer: 8-bit truecolor, in stored (uncompressed) DEFLATE
//! blocks inside a minimal zlib stream.

use vstd::prelude::*;

verus! {

// ---------------------------------------------------------------------------
// Checksums
// ---------------------------------------------------------------------------
/// One bit of the IEEE CRC-32, low bit first.
pub open spec fn crc_bit(c: u32) -> u32 {
    if c & 1 == 1 {
        (c >> 1u32) ^ 0xEDB8_8320
    } else {
        c >> 1u32
    }
}

/// `n` bits of the CRC.
pub open spec fn crc_bits(c: u32, n: nat) -> u32
    decreases n,
{
    if n == 0 {
        c
    } else {
        crc_bits(crc_bit(c), (n - 1) as nat)
    }
}

/// The CRC register after the first `n` bytes.
pub open spec fn crc_of(data: Seq<u8>, n: int) -> u32
    decreases n,
{
    if n <= 0 {
        0xFFFF_FFFF
    } else {
        crc_bits(crc_of(data, n - 1) ^ (data[n - 1] as u32), 8)
    }
}

/// The CRC-32 of a sequence of bytes.
pub fn crc32(bytes: &[u8]) -> (crc: u32)
    ensures
        crc == !crc_of(bytes@, bytes@.len() as int),
{
    let mut crc: u32 = 0xFFFF_FFFF;
    let mut i: usize = 0;
    while i < bytes.len()
        invariant
            i <= bytes@.len(),
            crc == crc_of(bytes@, i as int),
        decreases bytes@.len() - i,
    {
        crc = crc ^ (bytes[i] as u32);
        let ghost start = crc;
        let mut k: u32 = 8;
        while k > 0
            invariant
                k <= 8,
                crc_bits(start, 8) == crc_bits(crc, k as nat),
            decreases k,
        {
            crc = if crc & 1 == 1 {
                (crc >> 1u32) ^ 0xEDB8_8320
            } else {
                crc >> 1u32
            };
            k = k - 1;
        }
        i = i + 1;
    }
    !crc
}

/// The two sums of Adler-32 over the first `n` bytes.
pub open spec fn adler_sums(data: Seq<u8>, n: int) -> (int, int)
    decreases n,
{
    if n <= 0 {
        (1, 0)
    } else {
        let (a, b) = adler_sums(data, n - 1);
        let a1 = (a + data[n - 1]) % 65521;
        (a1, (b + a1) % 65521)
    }
}

/// Adler-32, as zlib streams use it.
pub open spec fn adler_of(data: Seq<u8>) -> u32 {
    let (a, b) = adler_sums(data, data.len() as int);
    ((b as u32) << 16u32) | (a as u32)
}

fn adler32(bytes: &[u8]) -> (sum: u32)
    ensures
        sum == adler_of(bytes@),
{
    let mut a: u32 = 1;
    let mut b: u32 = 0;
    let mut i: usize = 0;
    while i < bytes.len()
        invariant
            i <= bytes@.len(),
            a < 65521,
            b < 65521,
            (a as int, b as int) == adler_sums(bytes@, i as int),
        decreases bytes@.len() - i,
    {
        a = (a + bytes[i] as u32) % 65521;
        b = (b + a) % 65521;
        i = i + 1;
    }
    (b << 16u32) | a
}

// ---------------------------------------------------------------------------
// Bytes
// ---------------------------------------------------------------------------
/// A word's bytes, high byte first.
pub open spec fn be32(w: u32) -> Seq<u8> {
    seq![(w >> 24u32) as u8, (w >> 16u32) as u8, (w >> 8u32) as u8, w as u8]
}

/// A 16-bit word's bytes, low byte first.
pub open spec fn le16(w: u16) -> Seq<u8> {
    seq![w as u8, (w >> 8u16) as u8]
}

fn push_be32(out: &mut Vec<u8>, w: u32)
    ensures
        final(out)@ == old(out)@ + be32(w),
{
    out.push((w >> 24u32) as u8);
    out.push((w >> 16u32) as u8);
    out.push((w >> 8u32) as u8);
    out.push(w as u8);
    assert(out@ =~= old(out)@ + be32(w));
}

fn push_le16(out: &mut Vec<u8>, w: u16)
    ensures
        final(out)@ == old(out)@ + le16(w),
{
    out.push(w as u8);
    out.push((w >> 8u16) as u8);
    assert(out@ =~= old(out)@ + le16(w));
}

fn push_range(out: &mut Vec<u8>, data: &[u8], from: usize, to: usize)
    requires
        from <= to <= data@.len(),
    ensures
        final(out)@ == old(out)@ + data@.subrange(from as int, to as int),
{
    let mut i: usize = from;
    assert(data@.subrange(from as int, from as int) =~= Seq::empty());
    assert(old(out)@ + Seq::<u8>::empty() =~= old(out)@);
    while i < to
        invariant
            from <= i <= to <= data@.len(),
            out@ == old(out)@ + data@.subrange(from as int, i as int),
        decreases to - i,
    {
        out.push(data[i]);
        i = i + 1;
        assert(out@ =~= old(out)@ + data@.subrange(from as int, i as int));
    }
}

// ---------------------------------------------------------------------------
// The zlib stream
// ---------------------------------------------------------------------------
/// The data from byte `i` on as stored blocks of at most 65535 bytes, the
/// last one marked.
pub open spec fn stored_blocks(raw: Seq<u8>, i: int) -> Seq<u8>
    decreases raw.len() - i,
{
    let left = raw.len() - i;
    let n = if left < 0xffff {
        left
    } else {
        0xffff
    };
    if left <= 0 {
        Seq::empty()
    } else {
        seq![
            if n == left {
                1u8
            } else {
                0u8
            },
        ] + le16(n as u16) + le16(!(n as u16)) + raw.subrange(i, i + n) + stored_blocks(raw, i + n)
    }
}

/// A zlib stream of stored blocks.
pub open spec fn zlib_of(raw: Seq<u8>) -> Seq<u8> {
    seq![0x78u8, 0x01u8] + if raw.len() == 0 {
        seq![0x01u8, 0x00u8, 0x00u8, 0xFFu8, 0xFFu8]
    } else {
        stored_blocks(raw, 0)
    } + be32(adler_of(raw))
}

#[verifier::loop_isolation(false)]
#[verifier::rlimit(60)]
fn zlib_stored(raw: &[u8]) -> (out: Vec<u8>)
    ensures
        out@ == zlib_of(raw@),
{
    let mut out: Vec<u8> = vec![0x78u8, 0x01u8];
    let ghost head = out@;
    assert(head =~= seq![0x78u8, 0x01u8]);
    let len: usize = raw.len();
    if len == 0 {
        out.push(0x01);
        out.push(0x00);
        out.push(0x00);
        out.push(0xFF);
        out.push(0xFF);
        assert(out@ =~= head + seq![0x01u8, 0x00u8, 0x00u8, 0xFFu8, 0xFFu8]);
    } else {
        let mut i: usize = 0;
        while i < len
            invariant
                i <= len,
                len == raw@.len(),
                head + stored_blocks(raw@, 0) == out@ + stored_blocks(raw@, i as int),
            decreases len - i,
        {
            let n: usize = if len - i < 0xffff {
                len - i
            } else {
                0xffff
            };
            let ghost before = out@;
            let ghost mark = seq![
                if n == len - i {
                    1u8
                } else {
                    0u8
                },
            ];
            out.push(
                if n == len - i {
                    1
                } else {
                    0
                },
            );
            push_le16(&mut out, n as u16);
            push_le16(&mut out, !(n as u16));
            push_range(&mut out, raw, i, i + n);
            proof {
                let rest = stored_blocks(raw@, i + n);
                let l = le16(n as u16);
                let m = le16(!(n as u16));
                let d = raw@.subrange(i as int, i + n);
                assert(stored_blocks(raw@, i as int) == mark + l + m + d + rest);
                assert(before + (mark + l + m + d + rest) =~= out@ + rest);
            }
            i = i + n;
        }
        assert(stored_blocks(raw@, len as int) =~= Seq::empty());
        assert(out@ + Seq::<u8>::empty() =~= out@);
    }
    push_be32(&mut out, adler32(raw));
    out
}

// ---------------------------------------------------------------------------
// Chunks and the file
// ---------------------------------------------------------------------------
/// A chunk: length, name, data, and the CRC of name and data.
pub open spec fn chunk_of(name: Seq<u8>, data: Seq<u8>) -> Seq<u8> {
    let body = name + data;
    be32(data.len() as u32) + body + be32(!crc_of(body, body.len() as int))
}

fn chunk(out: &mut Vec<u8>, name: &[u8], data: &[u8])
    ensures
        final(out)@ == old(out)@ + chunk_of(name@, data@),
{
    let mut body: Vec<u8> = Vec::new();
    push_range(&mut body, name, 0, name.len());
    push_range(&mut body, data, 0, data.len());
    proof {
        assert(name@.subrange(0, name@.len() as int) =~= name@);
        assert(data@.subrange(0, data@.len() as int) =~= data@);
        assert(body@ =~= name@ + data@);
    }
    push_be32(out, data.len() as u32);
    push_range(out, body.as_slice(), 0, body.len());
    push_be32(out, crc32(body.as_slice()));
    assert(body@.subrange(0, body@.len() as int) =~= body@);
    assert(out@ =~= old(out)@ + chunk_of(name@, data@));
}

/// The first `n` scanlines, each after a zero filter byte.
pub open spec fn scanlines(rgb: Seq<u8>, stride: int, n: int) -> Seq<u8>
    decreases n,
{
    if n <= 0 {
        Seq::empty()
    } else {
        scanlines(rgb, stride, n - 1) + seq![0u8] + rgb.subrange((n - 1) * stride, n * stride)
    }
}

/// The image header's data.
pub open spec fn header_of(width: u32, height: u32) -> Seq<u8> {
    be32(width) + be32(height) + seq![8u8, 2u8, 0u8, 0u8, 0u8]
}

/// The file of an image.
pub open spec fn png_of(width: u32, height: u32, rgb: Seq<u8>) -> Seq<u8> {
    seq![137u8, 80u8, 78u8, 71u8, 13u8, 10u8, 26u8, 10u8] + chunk_of(
        seq![73u8, 72u8, 68u8, 82u8],
        header_of(width, height),
    ) + chunk_of(
        seq![73u8, 68u8, 65u8, 84u8],
        zlib_of(scanlines(rgb, width * 3, height as int)),
    ) + chunk_of(seq![73u8, 69u8, 78u8, 68u8], Seq::empty())
}

fn filter_lines(rgb: &[u8], stride: usize, height: usize) -> (raw: Vec<u8>)
    requires
        rgb@.len() == height * stride,
    ensures
        raw@ == scanlines(rgb@, stride as int, height as int),
{
    let mut raw: Vec<u8> = Vec::new();
    let mut y: usize = 0;
    let mut at: usize = 0;
    while y < height
        invariant
            y <= height,
            at == y * stride,
            rgb@.len() == height * stride,
            raw@ == scanlines(rgb@, stride as int, y as int),
        decreases height - y,
    {
        assert((y + 1) * stride == y * stride + stride && (y + 1) * stride <= height * stride)
            by (nonlinear_arith)
            requires
                y + 1 <= height,
                0 <= stride,
        ;
        let ghost before = raw@;
        let len: usize = rgb.len();
        raw.push(0);
        push_range(&mut raw, rgb, at, at + stride);
        at = at + stride;
        y = y + 1;
        assert(raw@ =~= before + seq![0u8] + rgb@.subrange((y - 1) * stride, y * stride));
    }
    raw
}

/// Encode `rgb`, three bytes per pixel in rows from the top.
pub fn encode_rgb(width: u32, height: u32, rgb: &[u8]) -> (out: Vec<u8>)
    requires
        width * height * 3 <= u32::MAX,
        rgb@.len() == width * height * 3,
    ensures
        out@ == png_of(width, height, rgb@),
{
    proof {
        assert(height == 0 || width * 3 <= width * height * 3) by (nonlinear_arith);
        assert(height * (width * 3) == width * height * 3) by (nonlinear_arith);
    }
    let raw = if height == 0 {
        assert(scanlines(rgb@, width * 3, 0) =~= Seq::empty());
        Vec::new()
    } else {
        filter_lines(rgb, (width * 3) as usize, height as usize)
    };
    let mut out: Vec<u8> = vec![137u8, 80u8, 78u8, 71u8, 13u8, 10u8, 26u8, 10u8];
    assert(out@ =~= seq![137u8, 80u8, 78u8, 71u8, 13u8, 10u8, 26u8, 10u8]);
    let mut head: Vec<u8> = Vec::new();
    push_be32(&mut head, width);
    push_be32(&mut head, height);
    head.push(8);
    head.push(2);
    head.push(0);
    head.push(0);
    head.push(0);
    assert(head@ =~= header_of(width, height));
    let z = zlib_stored(raw.as_slice());
    let ihdr: Vec<u8> = vec![73u8, 72u8, 68u8, 82u8];
    let idat: Vec<u8> = vec![73u8, 68u8, 65u8, 84u8];
    let iend: Vec<u8> = vec![73u8, 69u8, 78u8, 68u8];
    let none: Vec<u8> = Vec::new();
    proof {
        assert(ihdr@ =~= seq![73u8, 72u8, 68u8, 82u8]);
        assert(idat@ =~= seq![73u8, 68u8, 65u8, 84u8]);
        assert(iend@ =~= seq![73u8, 69u8, 78u8, 68u8]);
        assert(none@ =~= Seq::empty());
    }
    chunk(&mut out, ihdr.as_slice(), head.as_slice());
    chunk(&mut out, idat.as_slice(), z.as_slice());
    chunk(&mut out, iend.as_slice(), none.as_slice());
    out
}

} // verus!

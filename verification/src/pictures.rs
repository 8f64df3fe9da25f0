//! What the pixels of a picture are, and how a file of it is read.

use crate::host_ui::{
    char_events, is_text, key_events, mono_pixels, mono_rgb, KeyPress, EV_KEY_DOWN,
};
use crate::png::{le16, scanlines, stored_blocks, zlib_of};
use vstd::prelude::*;

verus! {

// ---------------------------------------------------------------------------
// Pixels
// ---------------------------------------------------------------------------
/// The bit of a one-bit form for the pixel at a place, where the form has it.
pub open spec fn is_set(bits: Seq<u8>, width: int, x: int, y: int) -> bool {
    let k = y * ((width + 7) / 8) + x / 8;
    k < bits.len() && (bits[k] >> ((7 - x % 8) as u8)) & 1 == 1
}

/// The pixel at a place is black where the form's bit is set and white where
/// it is not, in the window's pixels and in the three bytes of a picture
/// alike.
pub proof fn law_set_bits_are_black(
    width: int,
    height: int,
    bits: Seq<u8>,
    x: int,
    y: int,
    c: int,
)
    requires
        0 <= x < width,
        0 <= y < height,
        0 <= c < 3,
    ensures
        0 <= y * width + x < mono_pixels(width, height, bits).len(),
        0 <= 3 * (y * width + x) + c < mono_rgb(width, height, bits).len(),
        mono_pixels(width, height, bits).len() == width * height,
        mono_rgb(width, height, bits).len() == 3 * (width * height),
        is_set(bits, width, x, y) ==> mono_pixels(width, height, bits)[y * width + x]
            == 0xFF00_0000u32 && mono_rgb(width, height, bits)[3 * (y * width + x) + c] == 0,
        !is_set(bits, width, x, y) ==> mono_pixels(width, height, bits)[y * width + x]
            == 0xFFFF_FFFFu32 && mono_rgb(width, height, bits)[3 * (y * width + x) + c] == 255,
{
    let k = y * width + x;
    assert(0 <= k < width * height) by (nonlinear_arith)
        requires
            k == y * width + x,
            0 <= x < width,
            0 <= y < height,
    ;
    vstd::arithmetic::div_mod::lemma_fundamental_div_mod_converse(k, width, y, x);
    assert((3 * k + c) / 3 == k);
}

// ---------------------------------------------------------------------------
// Keys
// ---------------------------------------------------------------------------
/// Every key that went down since the last look makes one event, in the order
/// of the keys, and no other key does.
pub proof fn law_new_keys_are_told(last: Seq<KeyPress>, keys: Seq<KeyPress>)
    ensures
        ({
            let fresh = |k: KeyPress| !last.contains(k);
            let told = |k: KeyPress| seq![EV_KEY_DOWN, k.code, 0, k.role.code(), 0];
            key_events(last, keys, keys.len() as int) == keys.filter(fresh).map_values(told)
        }),
{
    let fresh = |k: KeyPress| !last.contains(k);
    let told = |k: KeyPress| seq![EV_KEY_DOWN, k.code, 0, k.role.code(), 0];
    assert(keys.take(keys.len() as int) =~= keys);
    lemma_keys(last, keys, keys.len() as int, fresh, told);
}

proof fn lemma_keys(
    last: Seq<KeyPress>,
    keys: Seq<KeyPress>,
    n: int,
    fresh: spec_fn(KeyPress) -> bool,
    told: spec_fn(KeyPress) -> Seq<i64>,
)
    requires
        0 <= n <= keys.len(),
        forall|k: KeyPress| #[trigger] fresh(k) == !last.contains(k),
        forall|k: KeyPress| #[trigger] told(k) == seq![EV_KEY_DOWN, k.code, 0, k.role.code(), 0],
    ensures
        key_events(last, keys, n) == keys.take(n).filter(fresh).map_values(told),
    decreases n,
{
    reveal(Seq::filter);
    let s = keys.take(n);
    if n > 0 {
        lemma_keys(last, keys, n - 1, fresh, told);
        assert(s.drop_last() =~= keys.take(n - 1));
        assert(s.last() == keys[n - 1]);
        assert(fresh(keys[n - 1]) == !last.contains(keys[n - 1]));
        assert(told(keys[n - 1]) == seq![
            EV_KEY_DOWN,
            keys[n - 1].code,
            0,
            keys[n - 1].role.code(),
            0,
        ]);
        assert(key_events(last, keys, n) =~= s.filter(fresh).map_values(told));
    } else {
        assert(s =~= Seq::empty());
        assert(key_events(last, keys, n) =~= s.filter(fresh).map_values(told));
    }
}

/// Every character that is text makes one event, in the order of the
/// characters, and no other character does.
pub proof fn law_typed_text_is_told(chars: Seq<u32>)
    ensures
        ({
            let text = |c: u32| is_text(c);
            let told = |c: u32| seq![EV_KEY_DOWN, 0, 0, c as i64, 0];
            char_events(chars, chars.len() as int) == chars.filter(text).map_values(told)
        }),
{
    let text = |c: u32| is_text(c);
    let told = |c: u32| seq![EV_KEY_DOWN, 0, 0, c as i64, 0];
    assert(chars.take(chars.len() as int) =~= chars);
    lemma_chars(chars, chars.len() as int, text, told);
}

proof fn lemma_chars(
    chars: Seq<u32>,
    n: int,
    text: spec_fn(u32) -> bool,
    told: spec_fn(u32) -> Seq<i64>,
)
    requires
        0 <= n <= chars.len(),
        forall|c: u32| #[trigger] text(c) == is_text(c),
        forall|c: u32| #[trigger] told(c) == seq![EV_KEY_DOWN, 0, 0, c as i64, 0],
    ensures
        char_events(chars, n) == chars.take(n).filter(text).map_values(told),
    decreases n,
{
    reveal(Seq::filter);
    let s = chars.take(n);
    if n > 0 {
        lemma_chars(chars, n - 1, text, told);
        assert(s.drop_last() =~= chars.take(n - 1));
        assert(s.last() == chars[n - 1]);
        assert(text(chars[n - 1]) == is_text(chars[n - 1]));
        assert(told(chars[n - 1]) == seq![EV_KEY_DOWN, 0, 0, chars[n - 1] as i64, 0]);
        assert(char_events(chars, n) =~= s.filter(text).map_values(told));
    } else {
        assert(s =~= Seq::empty());
        assert(char_events(chars, n) =~= s.filter(text).map_values(told));
    }
}

// ---------------------------------------------------------------------------
// Files
// ---------------------------------------------------------------------------
/// The data of a run of stored blocks that starts at a place, as a reader of
/// such files takes it, and where the run ends: each block has a mark that
/// tells the last one, its length twice, the second time as the complement,
/// and its bytes.
pub open spec fn unstored(s: Seq<u8>, i: int) -> Option<(Seq<u8>, int)>
    decreases s.len() - i,
{
    let len = s[i + 1] + 256 * s[i + 2];
    let other = s[i + 3] + 256 * s[i + 4];
    if i < 0 || i + 5 > s.len() || len + other != 0xffff || i + 5 + len > s.len() {
        None
    } else {
        let data = s.subrange(i + 5, i + 5 + len);
        if s[i] == 1 {
            Some((data, i + 5 + len))
        } else if s[i] == 0 {
            match unstored(s, i + 5 + len) {
                None => None,
                Some((rest, end)) => Some((data + rest, end)),
            }
        } else {
            None
        }
    }
}

/// A length as two bytes, low byte first, and its complement.
proof fn lemma_lengths(n: u16)
    ensures
        le16(n)[0] + 256 * le16(n)[1] == n,
        le16(!n)[0] + 256 * le16(!n)[1] == 0xffff - n,
{
    let a = n as u8;
    let b = (n >> 8u16) as u8;
    let c = !n as u8;
    let d = (!n >> 8u16) as u8;
    assert(a + 256 * b == n && c + 256 * d == 0xffff - n) by (bit_vector)
        requires
            a == n as u8,
            b == (n >> 8u16) as u8,
            c == !n as u8,
            d == (!n >> 8u16) as u8,
    ;
}

#[verifier::rlimit(40)]
proof fn lemma_unstored(raw: Seq<u8>, i: int, s: Seq<u8>, p: int)
    requires
        0 <= i < raw.len(),
        0 <= p,
        p + stored_blocks(raw, i).len() <= s.len(),
        s.subrange(p, p + stored_blocks(raw, i).len()) == stored_blocks(raw, i),
    ensures
        unstored(s, p) == Some(
            (raw.subrange(i, raw.len() as int), p + stored_blocks(raw, i).len()),
        ),
    decreases raw.len() - i,
{
    let left = raw.len() - i;
    let n = if left < 0xffff {
        left
    } else {
        0xffff
    };
    let b = stored_blocks(raw, i);
    let head = seq![
        if n == left {
            1u8
        } else {
            0u8
        },
    ] + le16(n as u16) + le16(!(n as u16));
    let rest = stored_blocks(raw, i + n);
    assert(b =~= head + raw.subrange(i, i + n) + rest);
    lemma_lengths(n as u16);
    assert(head.len() == 5);
    assert(forall|k: int| 0 <= k < b.len() ==> s[p + k] == #[trigger] b[k]) by {
        assert forall|k: int| 0 <= k < b.len() implies s[p + k] == #[trigger] b[k] by {
            assert(s.subrange(p, p + b.len())[k] == b[k]);
        }
    }
    assert(s[p] == b[0] && b[0] == head[0]);
    assert(s[p + 1] == b[1] && b[1] == head[1]);
    assert(s[p + 2] == b[2] && b[2] == head[2]);
    assert(s[p + 3] == b[3] && b[3] == head[3]);
    assert(s[p + 4] == b[4] && b[4] == head[4]);
    let data = s.subrange(p + 5, p + 5 + n);
    assert(data =~= raw.subrange(i, i + n)) by {
        assert forall|k: int| 0 <= k < n implies #[trigger] data[k] == raw[i + k] by {
            assert(s[p + (5 + k)] == b[5 + k]);
        }
    }
    if n < left {
        let t = s.subrange(p + 5 + n, p + 5 + n + rest.len());
        assert(t =~= rest) by {
            assert forall|k: int| 0 <= k < rest.len() implies #[trigger] t[k] == rest[k] by {
                assert(s[p + (5 + n + k)] == b[5 + n + k]);
            }
        }
        lemma_unstored(raw, i + n, s, p + 5 + n);
        assert(raw.subrange(i, i + n) + raw.subrange(i + n, raw.len() as int) =~= raw.subrange(
            i,
            raw.len() as int,
        ));
    } else {
        assert(rest =~= Seq::empty());
    }
}

/// What is stored is read back: the blocks of a stream, after its two bytes
/// of introduction, hold the data, and end four bytes before its end.
#[verifier::spinoff_prover]
pub proof fn law_stored_data_reads_back(raw: Seq<u8>)
    ensures
        unstored(zlib_of(raw), 2) == Some((raw, zlib_of(raw).len() - 4)),
{
    let head = seq![0x78u8, 0x01u8];
    let tail = crate::png::be32(crate::png::adler_of(raw));
    assert(tail.len() == 4);
    if raw.len() == 0 {
        lemma_empty(head, tail);
        assert(raw =~= Seq::empty());
    } else {
        lemma_within(raw, head, tail);
    }
}

/// A stream without data has one block, the last one, of no bytes.
#[verifier::spinoff_prover]
proof fn lemma_empty(head: Seq<u8>, tail: Seq<u8>)
    ensures
        unstored(
            head + seq![0x01u8, 0x00u8, 0x00u8, 0xFFu8, 0xFFu8] + tail,
            head.len() as int,
        ) == Some((Seq::<u8>::empty(), (head.len() + 5) as int)),
{
    let b = seq![0x01u8, 0x00u8, 0x00u8, 0xFFu8, 0xFFu8];
    let z = head + b + tail;
    let i = head.len() as int;
    assert(z[i] == b[0]);
    assert(z[i + 1] == b[1]);
    assert(z[i + 2] == b[2]);
    assert(z[i + 3] == b[3]);
    assert(z[i + 4] == b[4]);
    assert(z.subrange(i + 5, i + 5) =~= Seq::<u8>::empty());
}

proof fn lemma_within(raw: Seq<u8>, head: Seq<u8>, tail: Seq<u8>)
    requires
        0 < raw.len(),
    ensures
        unstored(head + stored_blocks(raw, 0) + tail, head.len() as int) == Some(
            (raw, (head.len() + stored_blocks(raw, 0).len()) as int),
        ),
{
    let b = stored_blocks(raw, 0);
    let z = head + b + tail;
    assert(z.subrange(head.len() as int, (head.len() + b.len()) as int) =~= b);
    lemma_unstored(raw, 0, z, head.len() as int);
    assert(raw.subrange(0, raw.len() as int) =~= raw);
}

/// The scanlines of a picture are its rows, each after a byte that says that
/// it is unfiltered.
pub proof fn law_rows_stand_in_the_file(rgb: Seq<u8>, stride: int, n: int, y: int, k: int)
    requires
        0 <= stride,
        0 <= y < n,
        0 <= k < stride,
        rgb.len() == n * stride,
    ensures
        scanlines(rgb, stride, n).len() == n * (stride + 1),
        0 <= y * (stride + 1) + 1 + k < scanlines(rgb, stride, n).len(),
        scanlines(rgb, stride, n)[y * (stride + 1)] == 0,
        scanlines(rgb, stride, n)[y * (stride + 1) + 1 + k] == rgb[y * stride + k],
{
    lemma_rows(rgb, stride, n, n, y, k);
}

proof fn lemma_rows(rgb: Seq<u8>, stride: int, h: int, n: int, y: int, k: int)
    requires
        0 <= stride,
        0 <= n <= h,
        0 <= k < stride,
        rgb.len() == h * stride,
    ensures
        scanlines(rgb, stride, n).len() == n * (stride + 1),
        0 <= y < n ==> 0 <= y * (stride + 1) && y * (stride + 1) + 1 + k < n * (stride + 1)
            && scanlines(rgb, stride, n)[y * (stride + 1)] == 0 && scanlines(rgb, stride, n)[y * (
        stride + 1) + 1 + k] == rgb[y * stride + k],
    decreases n,
{
    if n > 0 {
        lemma_rows(rgb, stride, h, n - 1, y, k);
        let a = scanlines(rgb, stride, n - 1);
        let row = rgb.subrange((n - 1) * stride, n * stride);
        assert(0 <= (n - 1) * stride && n * stride == (n - 1) * stride + stride && n * stride <= h
            * stride && n * (stride + 1) == (n - 1) * (stride + 1) + stride + 1 && 0 <= (n - 1) * (
        stride + 1)) by (nonlinear_arith)
            requires
                0 < n <= h,
                0 <= stride,
        ;
        let z = scanlines(rgb, stride, n);
        assert(z == a + seq![0u8] + row);
        if y == n - 1 {
            assert(z[a.len() as int] == 0);
            assert(z[a.len() + 1 + k] == row[k]);
        } else if 0 <= y < n - 1 {
            assert(y * (stride + 1) + 1 + k < (n - 1) * (stride + 1));
            assert(z[y * (stride + 1)] == a[y * (stride + 1)]);
            assert(z[y * (stride + 1) + 1 + k] == a[y * (stride + 1) + 1 + k]);
        }
    } else {
        assert(n * (stride + 1) == 0) by (nonlinear_arith)
            requires
                n == 0,
        ;
    }
}

} // verus!

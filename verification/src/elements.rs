//! Reading and writing the elements and the instance variables of objects.

use crate::heap::{byte_of, with_byte, HeapView};
use crate::machine::Machine;
use crate::objects::{law_read_after_write, lemma_write_frame};
use crate::prims::{FAIL_BAD_INDEX, FAIL_WRONG_TYPE};
use crate::requests::Outcome;
use crate::treaty::{
    FMT_PTRS, PRIM_AT, PRIM_AT_PUT, PRIM_INST_VAR_AT, PRIM_INST_VAR_AT_PUT, PRIM_SIZE,
};
use crate::value::Value;
use crate::vm::VmView;
use vstd::prelude::*;

verus! {

/// Two heaps hold an object of the same shape at an address.
pub open spec fn same_shape(h: HeapView, r: HeapView, o: int) -> bool {
    &&& r.wf()
    &&& r.whole(o) == h.whole(o)
    &&& r.nslots(o) == h.nslots(o)
    &&& r.hdr(o).format_field() == h.hdr(o).format_field()
}

/// A word of an object written.
proof fn lemma_word_written(h: HeapView, o: int, i: int, w: u64)
    requires
        h.wf(),
        h.whole(o),
        0 <= i < h.nslots(o),
    ensures
        same_shape(h, h.write(o + 8 + 8 * i, w), o),
        h.write(o + 8 + 8 * i, w).hdr(o) == h.hdr(o),
        h.write(o + 8 + 8 * i, w).layout() == h.layout(),
        forall|j: int|
            0 <= j < h.nslots(o) ==> #[trigger] h.write(o + 8 + 8 * i, w).slot(o, j) == if j == i {
                Value(w)
            } else {
                h.slot(o, j)
            },
{
    let x = o + 8 + 8 * i;
    assert(h.plausible(x));
    law_read_after_write(h, x, w);
    let r = h.write(x, w);
    assert(r.read(o) == h.read(o));
    if h.has_over(o) {
        assert(r.read(o - 8) == h.read(o - 8));
    }
    assert forall|j: int| 0 <= j < h.nslots(o) implies #[trigger] r.slot(o, j) == if j == i {
        Value(w)
    } else {
        h.slot(o, j)
    } by {
        assert(h.plausible(o + 8 + 8 * j));
    }
}

/// A slot of an object stored, with the write barrier.
proof fn lemma_slot_written(h: HeapView, o: int, i: int, v: Value)
    requires
        h.wf(),
        h.whole(o),
        0 <= i < h.nslots(o),
    ensures
        same_shape(h, h.store(o, i, v), o),
        forall|j: int|
            0 <= j < h.nslots(o) ==> #[trigger] h.store(o, i, v).slot(o, j) == if j == i {
                v
            } else {
                h.slot(o, j)
            },
{
    lemma_word_written(h, o, i, v.0);
    let h1 = h.set_slot(o, i, v);
    let r = h.store(o, i, v);
    if r != h1 {
        let hd = h1.hdr(o);
        let g = hd.gc_field();
        crate::heap::lemma_header_update(hd, 0, 0);
        crate::survival::lemma_remembered_bits(g);
        crate::heap::lemma_header_update(hd, 0, g | 2);
        let x = hd.regc(g | 2).0;
        let w = h1.write(o, x);
        law_read_after_write(h1, o, x);
        lemma_write_frame(h1, o, x);
        assert(forall|y: int| #[trigger] r.read(y) == w.read(y)) by {
            reveal(HeapView::read);
        }
        assert(r.layout() == h1.layout());
        if h1.has_over(o) {
            assert(w.read(o - 8) == h1.read(o - 8));
        }
        assert forall|j: int| 0 <= j < h.nslots(o) implies #[trigger] r.slot(o, j) == if j == i {
            v
        } else {
            h.slot(o, j)
        } by {
            assert(h1.plausible(o + 8 + 8 * j));
            assert(w.read(o + 8 + 8 * j) == h1.read(o + 8 + 8 * j));
            assert(h1.slot(o, j) == if j == i {
                v
            } else {
                h.slot(o, j)
            });
        }
    }
}

/// The bytes of a word of which one is replaced.
proof fn lemma_byte_replaced(w: u64, k: int, j: int, b: u8)
    requires
        0 <= k < 8,
        0 <= j < 8,
    ensures
        byte_of(with_byte(w, k, b), j) == if j == k {
            b
        } else {
            byte_of(w, j)
        },
{
    let s = (8 * k) as u64;
    let t = (8 * j) as u64;
    let c = b as u64;
    let r = (w & !(0xffu64 << s)) | (c << s);
    assert((s == t ==> (r >> t) & 0xff == c && c as u8 == b) && (s != t ==> (r >> t) & 0xff == (w
        >> t) & 0xff)) by (bit_vector)
        requires
            s <= 56,
            t <= 56,
            s % 8 == 0,
            t % 8 == 0,
            c == b as u64,
            r == (w & !(0xffu64 << s)) | (c << s),
    ;
}

/// A byte of an object set reads back, and the other bytes are as they were.
pub proof fn law_byte_stored_is_read(h: HeapView, o: int, i: int, j: int, b: u8)
    requires
        h.wf(),
        h.bytes_ok(o),
        0 <= i < h.byte_len(o),
        0 <= j < h.byte_len(o),
    ensures
        h.set_byte(o, i, b).bytes_ok(o),
        h.set_byte(o, i, b).byte_len(o) == h.byte_len(o),
        h.set_byte(o, i, b).byte(o, j) == if j == i {
            b
        } else {
            h.byte(o, j)
        },
{
    crate::heap::lemma_header_update(h.hdr(o), 0, 0);
    let x = o + 8 + 8 * (i / 8);
    let w = with_byte(h.read(x), i % 8, b);
    lemma_word_written(h, o, i / 8, w);
    let r = h.set_byte(o, i, b);
    assert(r.slot(o, j / 8) == if j / 8 == i / 8 {
        Value(w)
    } else {
        h.slot(o, j / 8)
    });
    lemma_byte_replaced(h.read(x), i % 8, j % 8, b);
}

// ---------------------------------------------------------------------------
// Elements
// ---------------------------------------------------------------------------
/// The primitive answers a value and changes nothing.
pub open spec fn reads(m: Machine, n: u16, r: u8, argc: int, dest: u8, v: Value) -> bool {
    m.dispatched_primitive(n, r, argc, dest) == Ok::<(Machine, Outcome), crate::vm::Fault>(
        (m, Outcome::Value(v)),
    )
}

/// The primitive fails and changes nothing.
pub open spec fn refuses(m: Machine, n: u16, r: u8, argc: int, dest: u8, code: i64) -> bool {
    m.dispatched_primitive(n, r, argc, dest) == Ok::<(Machine, Outcome), crate::vm::Fault>(
        (m, Outcome::Fail(code)),
    )
}

proof fn lemma_element_prims(m: Machine, r: u8, argc: int, dest: u8)
    ensures
        m.dispatched_primitive(PRIM_AT, r, argc, dest) == m.prim_at(r as int),
        m.dispatched_primitive(PRIM_AT_PUT, r, argc, dest) == m.prim_at_put(r as int),
        m.dispatched_primitive(PRIM_SIZE, r, argc, dest) == m.prim_size(r as int),
        m.dispatched_primitive(PRIM_INST_VAR_AT, r, argc, dest) == m.prim_ivar_at(r as int),
        m.dispatched_primitive(PRIM_INST_VAR_AT_PUT, r, argc, dest) == m.prim_ivar_at_put(
            r as int,
        ),
{
    reveal(Machine::dispatched_primitive);
    reveal(Machine::object_primitive);
}

/// An array has an element at every index from one to its size, the slot at
/// one less; no other index is answered.
pub proof fn law_array_elements(m: Machine, r: u8, argc: int, dest: u8)
    requires
        m.vm.heap.wf(),
        m.get(r as int).tagged_ptr(),
        m.vm.heap.whole(m.get(r as int).addr()),
        m.vm.heap.hdr(m.get(r as int).addr()).format_field() == FMT_PTRS,
        m.get(r + 1).tagged_int(),
    ensures
        ({
            let o = m.get(r as int).addr();
            let i = m.get(r + 1).int_value();
            let n = m.vm.heap.nslots(o);
            &&& 1 <= i <= n ==> reads(m, PRIM_AT, r, argc, dest, m.vm.heap.slot(o, i - 1))
            &&& !(1 <= i <= n) ==> refuses(m, PRIM_AT, r, argc, dest, FAIL_BAD_INDEX)
            &&& !(1 <= i <= n) || m.vm.heap.immutable(o) ==> refuses(
                m,
                PRIM_AT_PUT,
                r,
                argc,
                dest,
                FAIL_BAD_INDEX,
            )
            &&& n <= i64::MAX ==> reads(m, PRIM_SIZE, r, argc, dest, crate::value::tag(n as i64))
        }),
{
    lemma_element_prims(m, r, argc, dest);
    reveal(VmView::at);
    reveal(VmView::at_put);
    reveal(VmView::size);
}

/// `at:put:` on an array answers the value stored; the element reads back,
/// and the others are as they were.
pub proof fn law_array_element_stored(m: Machine, r: u8, argc: int, dest: u8)
    requires
        m.vm.heap.wf(),
        m.get(r as int).tagged_ptr(),
        m.vm.heap.whole(m.get(r as int).addr()),
        m.vm.heap.hdr(m.get(r as int).addr()).format_field() == FMT_PTRS,
        !m.vm.heap.immutable(m.get(r as int).addr()),
        m.get(r + 1).tagged_int(),
        1 <= m.get(r + 1).int_value() <= m.vm.heap.nslots(m.get(r as int).addr()),
    ensures
        m.dispatched_primitive(PRIM_AT_PUT, r, argc, dest) matches Ok((w, o)) && o
            == Outcome::Value(m.get(r + 2)) && w.regs == m.regs && w.vm.size(m.get(r as int))
            == m.vm.size(m.get(r as int)) && forall|idx: Value| #[trigger]
            w.vm.at(m.get(r as int), idx) == if idx.tagged_int() && idx.int_value() == m.get(
                r + 1,
            ).int_value() {
                Some(m.get(r + 2))
            } else {
                m.vm.at(m.get(r as int), idx)
            },
{
    lemma_element_prims(m, r, argc, dest);
    reveal(VmView::at);
    reveal(VmView::at_put);
    reveal(VmView::size);
    lemma_slot_written(
        m.vm.heap,
        m.get(r as int).addr(),
        m.get(r + 1).int_value() - 1,
        m.get(r + 2),
    );
}

/// A byte object has a byte at every index from one to its size, as an
/// integer; no other index is answered.
pub proof fn law_byte_elements(m: Machine, r: u8, argc: int, dest: u8)
    requires
        m.vm.heap.wf(),
        m.get(r as int).tagged_ptr(),
        m.vm.heap.bytes_ok(m.get(r as int).addr()),
        m.get(r + 1).tagged_int(),
    ensures
        ({
            let o = m.get(r as int).addr();
            let i = m.get(r + 1).int_value();
            let x = m.get(r + 2);
            let n = m.vm.heap.byte_len(o);
            &&& 1 <= i <= n ==> (m.dispatched_primitive(PRIM_AT, r, argc, dest) matches Ok((w, v))
                && w == m && (v matches Outcome::Value(b) && b.tagged_int() && b.int_value()
                == m.vm.heap.byte(o, i - 1)))
            &&& !(1 <= i <= n) ==> refuses(m, PRIM_AT, r, argc, dest, FAIL_BAD_INDEX)
            &&& !(1 <= i <= n) || m.vm.heap.immutable(o) || !x.tagged_int() || !(0 <= x.int_value()
                <= 255) ==> refuses(m, PRIM_AT_PUT, r, argc, dest, FAIL_BAD_INDEX)
            &&& n <= i64::MAX ==> reads(m, PRIM_SIZE, r, argc, dest, crate::value::tag(n as i64))
        }),
{
    lemma_element_prims(m, r, argc, dest);
    reveal(VmView::at);
    reveal(VmView::at_put);
    reveal(VmView::size);
    let o = m.get(r as int).addr();
    let i = m.get(r + 1).int_value();
    crate::value::lemma_tag_bits(m.vm.heap.byte(o, i - 1) as i64);
}

/// `at:put:` on a byte object answers the value stored; the byte reads back,
/// and the others are as they were.
pub proof fn law_byte_element_stored(m: Machine, r: u8, argc: int, dest: u8)
    requires
        m.vm.heap.wf(),
        m.get(r as int).tagged_ptr(),
        m.vm.heap.bytes_ok(m.get(r as int).addr()),
        !m.vm.heap.immutable(m.get(r as int).addr()),
        m.get(r + 1).tagged_int(),
        1 <= m.get(r + 1).int_value() <= m.vm.heap.byte_len(m.get(r as int).addr()),
        m.get(r + 2).tagged_int(),
        0 <= m.get(r + 2).int_value() <= 255,
    ensures
        m.dispatched_primitive(PRIM_AT_PUT, r, argc, dest) matches Ok((w, o)) && o
            == Outcome::Value(m.get(r + 2)) && w.regs == m.regs && w.vm.heap.bytes(
            m.get(r as int).addr(),
        ) == m.vm.heap.bytes(m.get(r as int).addr()).update(
            m.get(r + 1).int_value() - 1,
            m.get(r + 2).int_value() as u8,
        ),
{
    lemma_element_prims(m, r, argc, dest);
    reveal(VmView::at_put);
    let h = m.vm.heap;
    let o = m.get(r as int).addr();
    let i = m.get(r + 1).int_value() - 1;
    let b = m.get(r + 2).int_value() as u8;
    crate::heap::lemma_header_update(h.hdr(o), 0, 0);
    let g = h.set_byte(o, i, b);
    law_byte_stored_is_read(h, o, i, i, b);
    assert forall|j: int| 0 <= j < h.byte_len(o) implies #[trigger] g.bytes(o)[j] == h.bytes(
        o,
    ).update(i, b)[j] by {
        law_byte_stored_is_read(h, o, i, j, b);
    }
    assert(g.bytes(o) =~= h.bytes(o).update(i, b));
}

// ---------------------------------------------------------------------------
// Instance variables
// ---------------------------------------------------------------------------
/// An object of pointers answers its instance variables by one-based index;
/// one stored reads back, and the others are as they were.
pub proof fn law_instance_variables(m: Machine, r: u8, argc: int, dest: u8)
    requires
        m.vm.heap.wf(),
        m.get(r as int).tagged_ptr(),
        m.vm.heap.whole(m.get(r as int).addr()),
        m.get(r + 1).tagged_int(),
    ensures
        ({
            let recv = m.get(r as int);
            let h = m.vm.heap;
            let o = recv.addr();
            let i = m.get(r + 1).int_value();
            if 1 <= i <= h.nslots(o) && !h.hdr(o).byte_format() {
                &&& reads(m, PRIM_INST_VAR_AT, r, argc, dest, h.slot(o, i - 1))
                &&& m.dispatched_primitive(PRIM_INST_VAR_AT_PUT, r, argc, dest) matches Ok((w, v))
                    && v == Outcome::Value(m.get(r + 2)) && w.regs == m.regs && same_shape(
                    h,
                    w.vm.heap,
                    o,
                ) && forall|j: int|
                    0 <= j < h.nslots(o) ==> #[trigger] w.vm.heap.slot(o, j) == if j == i - 1 {
                        m.get(r + 2)
                    } else {
                        h.slot(o, j)
                    }
            } else {
                &&& refuses(m, PRIM_INST_VAR_AT, r, argc, dest, FAIL_BAD_INDEX)
                &&& refuses(m, PRIM_INST_VAR_AT_PUT, r, argc, dest, FAIL_BAD_INDEX)
            }
        }),
{
    lemma_element_prims(m, r, argc, dest);
    reveal(Machine::prim_ivar_at);
    reveal(Machine::prim_ivar_at_put);
    reveal(VmView::field);
    reveal(VmView::with_stored);
    reveal(VmView::slots);
    let h = m.vm.heap;
    let o = m.get(r as int).addr();
    let i = m.get(r + 1).int_value();
    if 1 <= i <= h.nslots(o) && !h.hdr(o).byte_format() {
        assert(h.shaped(o, i - 1 + 1));
        lemma_slot_written(h, o, i - 1, m.get(r + 2));
    }
}

/// What is no object, or no integer index, is refused.
pub proof fn law_elements_need_an_object(m: Machine, r: u8, argc: int, dest: u8)
    requires
        !m.get(r as int).tagged_ptr() || !m.get(r + 1).tagged_int(),
    ensures
        refuses(m, PRIM_AT, r, argc, dest, FAIL_BAD_INDEX),
        refuses(m, PRIM_AT_PUT, r, argc, dest, FAIL_BAD_INDEX),
        refuses(m, PRIM_INST_VAR_AT, r, argc, dest, FAIL_WRONG_TYPE),
        refuses(m, PRIM_INST_VAR_AT_PUT, r, argc, dest, FAIL_WRONG_TYPE),
        !m.get(r as int).tagged_ptr() ==> refuses(m, PRIM_SIZE, r, argc, dest, FAIL_WRONG_TYPE),
{
    lemma_element_prims(m, r, argc, dest);
    reveal(VmView::at);
    reveal(VmView::at_put);
    reveal(VmView::size);
    reveal(Machine::prim_ivar_at);
    reveal(Machine::prim_ivar_at_put);
}

} // verus!

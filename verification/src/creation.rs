//! New objects: what the primitives that make them answer.

use crate::heap::{byte_format_for, slots_for, HeapView, MAX_CLASS_INDEX};
use crate::machine::Machine;
use crate::objects::{fresh_object, law_alloc_old, law_alloc_young};
use crate::prims::FAIL_WRONG_TYPE;
use crate::requests::Outcome;
use crate::treaty::{
    BEHAVIOR_CLASS_INDEX, FMT_BYTES_BASE, FMT_FIXED, FMT_PTRS, PRIM_CLASS, PRIM_IDENTICAL,
    PRIM_NEW, PRIM_NEW_SIZED, SPECIAL_FALSE, SPECIAL_TRUE,
};
use crate::value::Value;
use crate::vm::{Fault, VmView};
use vstd::prelude::*;

verus! {

/// Whether the space for objects of a size has room for one.
pub open spec fn has_room(h: HeapView, n: int) -> bool {
    if h.large(n) {
        h.old.fits(crate::heap::words_for(n))
    } else {
        h.from.fits(crate::heap::words_for(n))
    }
}

/// The address of a new object, as a reference.
pub open spec fn makes(
    m: Machine,
    res: Result<(Machine, Outcome), Fault>,
    class: u32,
    format: u64,
    n: int,
    fill: Option<u64>,
) -> bool {
    res matches Ok((w, o)) && (o matches Outcome::Value(x) && {
        &&& w.regs == m.regs
        &&& w.vm == m.vm.on_heap(w.vm.heap)
        &&& fresh_object(m.vm.heap, w.vm.heap, x.addr(), class, format, n, fill)
    })
}

proof fn lemma_made(h: HeapView, class: u32, format: u64, n: int, fill: Option<u64>)
    requires
        h.wf(),
        0 <= n,
        class <= MAX_CLASS_INDEX,
        format <= 15,
        has_room(h, n),
    ensures
        h.alloc_any(class, format, n, fill) matches Some((h1, a)) && fresh_object(
            h,
            h1,
            a,
            class,
            format,
            n,
            fill,
        ) && 0 <= a <= u64::MAX,
{
    if h.large(n) {
        law_alloc_old(h, class, format, n, fill, true);
    } else {
        law_alloc_young(h, class, format, n, fill);
    }
}

/// `new` makes an instance of its receiver with the slots that the class asks
/// for, all nil; nothing else changes.
pub proof fn law_new_makes_an_instance(m: Machine, r: u8, argc: int, dest: u8)
    requires
        m.vm.heap.wf(),
        m.get(r as int).tagged_ptr(),
        m.vm.heap.class_ok(m.get(r as int)),
        m.vm.heap.class_format(m.get(r as int)) == FMT_FIXED,
        has_room(m.vm.heap, m.vm.heap.class_slots(m.get(r as int)) as int),
    ensures
        makes(
            m,
            m.dispatched_primitive(PRIM_NEW, r, argc, dest),
            m.vm.heap.slot(
                m.get(r as int).addr(),
                BEHAVIOR_CLASS_INDEX as int,
            ).int_value() as u32,
            FMT_FIXED,
            m.vm.heap.class_slots(m.get(r as int)) as int,
            Some(m.vm.nil().0),
        ),
{
    reveal(Machine::dispatched_primitive);
    reveal(Machine::object_primitive);
    reveal(Machine::prim_new);
    reveal(Machine::allocated);
    reveal(HeapView::attempt);
    let h = m.vm.heap;
    let class = m.get(r as int);
    lemma_made(
        h,
        h.class_number(class),
        FMT_FIXED,
        h.class_slots(class) as int,
        Some(m.vm.nil().0),
    );
}

/// `new:` on a class of arrays makes one with as many slots as it is asked
/// for, all nil.
pub proof fn law_new_makes_an_array(m: Machine, r: u8, argc: int, dest: u8)
    requires
        m.vm.heap.wf(),
        m.get(r as int).tagged_ptr(),
        m.vm.heap.class_ok(m.get(r as int)),
        m.vm.heap.class_format(m.get(r as int)) == FMT_PTRS,
        m.get(r + 1).tagged_int(),
        0 <= m.get(r + 1).int_value() <= usize::MAX,
        has_room(m.vm.heap, m.get(r + 1).int_value() as int),
    ensures
        makes(
            m,
            m.dispatched_primitive(PRIM_NEW_SIZED, r, argc, dest),
            m.vm.heap.slot(
                m.get(r as int).addr(),
                BEHAVIOR_CLASS_INDEX as int,
            ).int_value() as u32,
            FMT_PTRS,
            m.get(r + 1).int_value() as int,
            Some(m.vm.nil().0),
        ),
{
    reveal(Machine::dispatched_primitive);
    reveal(Machine::object_primitive);
    reveal(Machine::prim_new_sized);
    reveal(Machine::allocated);
    reveal(HeapView::attempt);
    let h = m.vm.heap;
    lemma_made(
        h,
        h.class_number(m.get(r as int)),
        FMT_PTRS,
        m.get(r + 1).int_value() as int,
        Some(m.vm.nil().0),
    );
}

/// `new:` on a class of bytes makes an object whose size is the number of
/// bytes that it is asked for.
pub proof fn law_new_makes_bytes(m: Machine, r: u8, argc: int, dest: u8)
    requires
        m.vm.heap.wf(),
        m.get(r as int).tagged_ptr(),
        m.vm.heap.class_ok(m.get(r as int)),
        m.vm.heap.class_format(m.get(r as int)) >= FMT_BYTES_BASE,
        m.get(r + 1).tagged_int(),
        0 <= m.get(r + 1).int_value() <= usize::MAX,
        has_room(m.vm.heap, slots_for(m.get(r + 1).int_value() as int)),
    ensures
        ({
            let n = m.get(r + 1).int_value() as int;
            &&& m.dispatched_primitive(PRIM_NEW_SIZED, r, argc, dest) matches Ok((w, o)) && (
            o matches Outcome::Value(x) && w.regs == m.regs && w.vm.heap.bytes_ok(x.addr())
                && w.vm.heap.byte_len(x.addr()) == n && w.vm.heap.hdr(x.addr()).class_field()
                == m.vm.heap.slot(
                m.get(r as int).addr(),
                BEHAVIOR_CLASS_INDEX as int,
            ).int_value() as u32)
            &&& makes(
                m,
                m.dispatched_primitive(PRIM_NEW_SIZED, r, argc, dest),
                m.vm.heap.slot(
                    m.get(r as int).addr(),
                    BEHAVIOR_CLASS_INDEX as int,
                ).int_value() as u32,
                byte_format_for(n),
                slots_for(n),
                None,
            )
        }),
{
    reveal(Machine::dispatched_primitive);
    reveal(Machine::object_primitive);
    reveal(Machine::prim_new_sized);
    reveal(Machine::allocated);
    reveal(HeapView::attempt);
    let h = m.vm.heap;
    let n = m.get(r + 1).int_value() as int;
    lemma_made(h, h.class_number(m.get(r as int)), byte_format_for(n), slots_for(n), None);
}

/// What describes no instances, or asks for a size where there is none to
/// give, makes nothing.
pub proof fn law_new_refuses(m: Machine, r: u8, argc: int, dest: u8)
    requires
        ({
            let c = m.get(r as int);
            ||| !c.tagged_ptr()
            ||| !m.vm.heap.class_ok(c)
        }),
    ensures
        m.dispatched_primitive(PRIM_NEW, r, argc, dest) == Ok::<(Machine, Outcome), Fault>(
            (m, Outcome::Fail(FAIL_WRONG_TYPE)),
        ),
        m.dispatched_primitive(PRIM_NEW_SIZED, r, argc, dest) == Ok::<(Machine, Outcome), Fault>(
            (m, Outcome::Fail(FAIL_WRONG_TYPE)),
        ),
{
    reveal(Machine::dispatched_primitive);
    reveal(Machine::object_primitive);
    reveal(Machine::prim_new);
    reveal(Machine::prim_new_sized);
}

/// An object knows its class: the entry of the class table that its header
/// names. Identity is told by the values alone.
pub proof fn law_class_and_identity(m: Machine, r: u8, argc: int, dest: u8)
    requires
        m.get(r as int).tagged_ptr(),
        m.vm.heap.plausible(m.get(r as int).addr()),
        m.vm.heap.hdr(m.get(r as int).addr()).class_field() < m.vm.class_table.len(),
    ensures
        m.dispatched_primitive(PRIM_CLASS, r, argc, dest) == Ok::<(Machine, Outcome), Fault>(
            (
                m,
                Outcome::Value(
                    m.vm.class_table[m.vm.heap.hdr(m.get(r as int).addr()).class_field() as int],
                ),
            ),
        ),
        m.dispatched_primitive(PRIM_IDENTICAL, r, argc, dest) == Ok::<(Machine, Outcome), Fault>(
            (
                m,
                Outcome::Value(
                    if m.get(r as int) == m.get(r + 1) {
                        m.vm.specials[SPECIAL_TRUE as int]
                    } else {
                        m.vm.specials[SPECIAL_FALSE as int]
                    },
                ),
            ),
        ),
{
    reveal(Machine::dispatched_primitive);
    reveal(Machine::object_primitive);
    reveal(VmView::class_no);
    crate::value::lemma_untag_bits(m.get(r as int));
    crate::heap::lemma_header_update(m.vm.heap.hdr(m.get(r as int).addr()), 0, 0);
}

} // verus!

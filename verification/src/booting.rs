//! A machine that was just made is sound: all its objects are in old space,
//! and every reference leads to one of them.

use crate::graph::{listed, Objects};
use crate::heap::HeapView;
use crate::remembered::flagged;
use crate::room::spare;
use crate::soundness::{
    fills_known, law_bytes_keep_heap_sound, law_headers_keep_heap_sound,
    law_old_allocation_keeps_heap_sound, law_store_keeps_heap_sound, lemma_lies, with_heap,
};
use crate::treaty::{
    BEHAVIOR_CLASS_INDEX, BEHAVIOR_FORMAT_AND_SLOTS, BEHAVIOR_METHOD_DICTIONARY,
    BEHAVIOR_NUM_VM_SLOTS, BEHAVIOR_SUPERCLASS, CLASS_ARRAY, CLASS_BEHAVIOR, CLASS_BYTESTRING,
    CLASS_CLASS, CLASS_FALSE, CLASS_LINKED_LIST, CLASS_METHODDICTIONARY, CLASS_OBJECT,
    CLASS_PROCESSOR_SCHEDULER, CLASS_SEMAPHORE, CLASS_STRING, CLASS_SYMBOL, CLASS_TRUE,
    CLASS_UNDEFINED_OBJECT, FIRST_UNRESERVED_CLASS_INDEX, FMT_FIXED, FMT_PTRS, LIST_NUM_VM_SLOTS,
    MDICT_KEYS, MDICT_NUM_VM_SLOTS, MDICT_VALUES, NUM_PRIORITIES, SCHEDULER_NUM_VM_SLOTS,
    SCHEDULER_QUEUES, SEMAPHORE_EXCESS_SIGNALS, SEMAPHORE_NUM_VM_SLOTS, SPECIAL_NIL,
    SPECIAL_OBJECTS_COUNT, SPECSEL_COUNT,
};
use crate::value::Value;
use crate::vm::{VmConfig, VmView};
use crate::walks::Wanted;
use vstd::prelude::*;

verus! {

/// A heap whose objects are all in old space.
pub open spec fn ground(h: HeapView, old: Seq<usize>) -> Objects {
    Objects { heap: h, young: Seq::empty(), old, live: Set::full() }
}

/// All objects are in old space, the heap is sound, and no object is
/// remembered.
#[verifier::opaque]
pub open spec fn grounded(h: HeapView, old: Seq<usize>) -> bool {
    &&& ground(h, old).sound()
    &&& h.ssb.len() == 0
    &&& forall|o: int| #[trigger] listed(old, o) ==> !h.is_remembered(o)
}

/// A value that points into the heap points to one of the objects.
pub open spec fn leads(h: HeapView, old: Seq<usize>, v: Value) -> bool {
    v.tagged_ptr() && h.plausible(v.addr()) ==> listed(old, v.addr())
}

/// There is an object of `n` slots that are not bytes.
pub open spec fn stands(h: HeapView, old: Seq<usize>, a: int, n: int) -> bool {
    listed(old, a) && !h.hdr(a).byte_format() && h.nslots(a) == n
}

/// The objects of one heap are all there in another, of the same format and
/// size.
#[verifier::opaque]
pub open spec fn extends(h: HeapView, old: Seq<usize>, h1: HeapView, old1: Seq<usize>) -> bool {
    &&& h1.layout() == h.layout()
    &&& forall|o: int| #[trigger]
        listed(old, o) ==> listed(old1, o) && h1.hdr(o).format_field() == h.hdr(o).format_field()
            && h1.nslots(o) == h.nslots(o)
}

proof fn lemma_extends_self(h: HeapView, old: Seq<usize>)
    ensures
        extends(h, old, h, old),
{
    reveal(extends);
}

proof fn lemma_extends_twice(
    h: HeapView,
    old: Seq<usize>,
    h1: HeapView,
    old1: Seq<usize>,
    h2: HeapView,
    old2: Seq<usize>,
)
    requires
        extends(h, old, h1, old1),
        extends(h1, old1, h2, old2),
    ensures
        extends(h, old, h2, old2),
{
    reveal(extends);
}

proof fn lemma_still_leads(h: HeapView, old: Seq<usize>, h1: HeapView, old1: Seq<usize>, v: Value)
    requires
        extends(h, old, h1, old1),
        leads(h, old, v),
    ensures
        leads(h1, old1, v),
{
    reveal(extends);
}

proof fn lemma_still_stands(
    h: HeapView,
    old: Seq<usize>,
    h1: HeapView,
    old1: Seq<usize>,
    a: int,
    n: int,
)
    requires
        extends(h, old, h1, old1),
        stands(h, old, a, n),
    ensures
        stands(h1, old1, a, n),
{
    reveal(extends);
}

proof fn lemma_no_young(old: Seq<usize>, h: HeapView)
    ensures
        forall|o: int| #[trigger] ground(h, old).lists(o) <==> listed(old, o),
        forall|o: int| #[trigger] ground(h, old).has(o) <==> listed(old, o),
{
}

/// An object made in old space.
#[verifier::rlimit(60)]
proof fn lemma_made(
    h: HeapView,
    old: Seq<usize>,
    class_index: u32,
    format: u64,
    n: int,
    fill: Option<u64>,
) -> (old1: Seq<usize>)
    requires
        grounded(h, old),
        0 < class_index <= crate::heap::MAX_CLASS_INDEX,
        format <= 15,
        0 <= n < 0x400_0000_0000,
        format >= 8 || n == 0 || (fill matches Some(w) && leads(h, old, Value(w))),
        h.alloc_old(class_index, format, n, fill, false) is Some,
    ensures
        h.alloc_old(class_index, format, n, fill, false) matches Some((h1, a)) && {
            &&& grounded(h1, old1)
            &&& extends(h, old, h1, old1)
            &&& 0 <= a <= u64::MAX
            &&& listed(old1, a)
            &&& leads(h1, old1, Value(a as u64))
            &&& h1.nslots(a) == n
            &&& h1.hdr(a).format_field() == format
            &&& format < 8 ==> stands(h1, old1, a, n)
        },
{
    reveal(grounded);
    reveal(extends);
    let b = ground(h, old);
    let x = Wanted { class_index, format, slots: n, fill, large: false };
    lemma_no_young(old, h);
    assert(fills_known(b, x));
    law_old_allocation_keeps_heap_sound(b, x);
    let (h1, a) = h.alloc_old(class_index, format, n, fill, false)->0;
    let old1 = old.push(a as usize);
    assert(ground(h1, old1) == Objects { heap: h1, old: b.old.push(a as usize), ..b });
    crate::graph::lemma_listed_push(old, a as usize);
    assert forall|o: int| #[trigger] listed(old, o) implies h1.hdr(o).format_field() == h.hdr(
        o,
    ).format_field() && h1.nslots(o) == h.nslots(o) by {
        assert(b.lists(o));
    }
    crate::heap::lemma_immutable_bits(0);
    assert forall|o: int| #[trigger] listed(old1, o) implies !h1.is_remembered(o) by {
        if o != a {
            assert(listed(old, o));
            assert(b.lists(o));
        }
    }
    old1
}

/// A known value stored in an object.
#[verifier::rlimit(60)]
proof fn lemma_put(h: HeapView, old: Seq<usize>, a: int, n: int, i: int, v: Value)
    requires
        grounded(h, old),
        stands(h, old, a, n),
        0 <= i < n,
        leads(h, old, v),
    ensures
        grounded(h.set_slot(a, i, v), old),
        extends(h, old, h.set_slot(a, i, v), old),
{
    reveal(grounded);
    reveal(extends);
    let b = ground(h, old);
    lemma_no_young(old, h);
    assert(b.lists(a));
    law_store_keeps_heap_sound(b, a, i, v);
    assert forall|o: int| #[trigger] listed(old, o) implies !h.set_slot(a, i, v).is_remembered(
        o,
    ) by {
        assert(b.lists(o));
    }
    assert(ground(h.set_slot(a, i, v), old) == with_heap(b, h.set_slot(a, i, v)));
    assert forall|o: int| #[trigger] listed(old, o) implies h.set_slot(a, i, v).hdr(
        o,
    ).format_field() == h.hdr(o).format_field() && h.set_slot(a, i, v).nslots(o) == h.nslots(o) by {
        assert(b.lists(o));
    }
}

/// An integer leads nowhere.
proof fn lemma_tag_leads(h: HeapView, old: Seq<usize>, n: i64)
    ensures
        leads(h, old, crate::value::tag(n)),
{
    crate::value::lemma_tag_bits(n);
    crate::value::lemma_untag_bits(crate::value::tag(n));
}

#[verifier::rlimit(60)]
proof fn lemma_mdict(h: HeapView, old: Seq<usize>, nil: Value) -> (old1: Seq<usize>)
    requires
        grounded(h, old),
        leads(h, old, nil),
    ensures
        h.mdict_made(nil) matches Some((h1, v)) ==> {
            &&& grounded(h1, old1)
            &&& extends(h, old, h1, old1)
            &&& leads(h1, old1, v)
        },
{
    if h.mdict_made(nil) is Some {
        let o1 = lemma_made(h, old, CLASS_ARRAY, FMT_PTRS, 0, Some(nil.0));
        let (h1, keys) = h.alloc_old(CLASS_ARRAY, FMT_PTRS, 0, Some(nil.0), false)->0;
        lemma_still_leads(h, old, h1, o1, nil);
        let o2 = lemma_made(h1, o1, CLASS_ARRAY, FMT_PTRS, 0, Some(nil.0));
        let (h2, vals) = h1.alloc_old(CLASS_ARRAY, FMT_PTRS, 0, Some(nil.0), false)->0;
        lemma_extends_twice(h, old, h1, o1, h2, o2);
        lemma_still_leads(h, old, h2, o2, nil);
        lemma_still_leads(h1, o1, h2, o2, Value(keys as u64));
        let n = MDICT_NUM_VM_SLOTS as int;
        let o3 = lemma_made(h2, o2, CLASS_METHODDICTIONARY, FMT_FIXED, n, Some(nil.0));
        let (h3, md) = h2.alloc_old(CLASS_METHODDICTIONARY, FMT_FIXED, n, Some(nil.0), false)->0;
        lemma_extends_twice(h, old, h2, o2, h3, o3);
        lemma_still_leads(h2, o2, h3, o3, Value(keys as u64));
        lemma_still_leads(h2, o2, h3, o3, Value(vals as u64));
        lemma_put(h3, o3, md, n, MDICT_KEYS as int, Value(keys as u64));
        let h4 = h3.set_slot(md, MDICT_KEYS as int, Value(keys as u64));
        lemma_extends_twice(h, old, h3, o3, h4, o3);
        lemma_still_stands(h3, o3, h4, o3, md, n);
        lemma_still_leads(h3, o3, h4, o3, Value(vals as u64));
        lemma_still_leads(h3, o3, h4, o3, Value(md as u64));
        lemma_put(h4, o3, md, n, MDICT_VALUES as int, Value(vals as u64));
        let h5 = h4.set_slot(md, MDICT_VALUES as int, Value(vals as u64));
        lemma_extends_twice(h, old, h4, o3, h5, o3);
        lemma_still_leads(h4, o3, h5, o3, Value(md as u64));
        o3
    } else {
        old
    }
}

/// A value put in a slot of an object, and what stays.
proof fn lemma_put_on(
    h0: HeapView,
    old0: Seq<usize>,
    h: HeapView,
    old: Seq<usize>,
    a: int,
    n: int,
    i: int,
    v: Value,
)
    requires
        extends(h0, old0, h, old),
        grounded(h, old),
        stands(h, old, a, n),
        0 <= i < n,
        leads(h, old, v),
    ensures
        grounded(h.set_slot(a, i, v), old),
        extends(h, old, h.set_slot(a, i, v), old),
        extends(h0, old0, h.set_slot(a, i, v), old),
        stands(h.set_slot(a, i, v), old, a, n),
{
    lemma_put(h, old, a, n, i, v);
    lemma_extends_twice(h0, old0, h, old, h.set_slot(a, i, v), old);
    lemma_still_stands(h, old, h.set_slot(a, i, v), old, a, n);
}

#[verifier::rlimit(60)]
proof fn lemma_class(h: HeapView, old: Seq<usize>, idx: u32, format: u64, nslots: usize, nil: Value) -> (old1:
    Seq<usize>)
    requires
        grounded(h, old),
        leads(h, old, nil),
    ensures
        h.class_made(idx, format, nslots, nil) matches Some((h1, v)) ==> {
            &&& grounded(h1, old1)
            &&& extends(h, old, h1, old1)
            &&& leads(h1, old1, v)
            &&& stands(h1, old1, v.addr(), BEHAVIOR_NUM_VM_SLOTS as int)
        },
{
    if h.class_made(idx, format, nslots, nil) is Some {
        let o1 = lemma_mdict(h, old, nil);
        let (h1, md) = h.mdict_made(nil)->0;
        lemma_still_leads(h, old, h1, o1, nil);
        let n = BEHAVIOR_NUM_VM_SLOTS as int;
        let o2 = lemma_made(h1, o1, CLASS_CLASS, FMT_FIXED, n, Some(nil.0));
        let (h2, c) = h1.alloc_old(CLASS_CLASS, FMT_FIXED, n, Some(nil.0), false)->0;
        lemma_extends_twice(h, old, h1, o1, h2, o2);
        lemma_still_leads(h1, o1, h2, o2, nil);
        lemma_still_leads(h1, o1, h2, o2, md);
        lemma_put_on(h, old, h2, o2, c, n, BEHAVIOR_SUPERCLASS as int, nil);
        let h3 = h2.set_slot(c, BEHAVIOR_SUPERCLASS as int, nil);
        lemma_still_leads(h2, o2, h3, o2, md);
        lemma_put_on(h, old, h3, o2, c, n, BEHAVIOR_METHOD_DICTIONARY as int, md);
        let h4 = h3.set_slot(c, BEHAVIOR_METHOD_DICTIONARY as int, md);
        let code = crate::boot::shape_code(format, nslots);
        lemma_tag_leads(h4, o2, code);
        lemma_put_on(
            h,
            old,
            h4,
            o2,
            c,
            n,
            BEHAVIOR_FORMAT_AND_SLOTS as int,
            crate::value::tag(code),
        );
        let h5 = h4.set_slot(c, BEHAVIOR_FORMAT_AND_SLOTS as int, crate::value::tag(code));
        lemma_tag_leads(h5, o2, idx as i64);
        lemma_put_on(
            h,
            old,
            h5,
            o2,
            c,
            n,
            BEHAVIOR_CLASS_INDEX as int,
            crate::value::tag(idx as i64),
        );
        let h6 = h5.set_slot(c, BEHAVIOR_CLASS_INDEX as int, crate::value::tag(idx as i64));
        o2
    } else {
        old
    }
}

#[verifier::rlimit(60)]
proof fn lemma_semaphore(h: HeapView, old: Seq<usize>, nil: Value) -> (old1: Seq<usize>)
    requires
        grounded(h, old),
        leads(h, old, nil),
    ensures
        h.semaphore_made(nil) matches Some((h1, v)) ==> {
            &&& grounded(h1, old1)
            &&& extends(h, old, h1, old1)
            &&& leads(h1, old1, v)
        },
{
    if h.semaphore_made(nil) is Some {
        let n = SEMAPHORE_NUM_VM_SLOTS as int;
        let o1 = lemma_made(h, old, CLASS_SEMAPHORE, FMT_FIXED, n, Some(nil.0));
        let (h1, s) = h.alloc_old(CLASS_SEMAPHORE, FMT_FIXED, n, Some(nil.0), false)->0;
        lemma_tag_leads(h1, o1, 0);
        lemma_put_on(
            h,
            old,
            h1,
            o1,
            s,
            n,
            SEMAPHORE_EXCESS_SIGNALS as int,
            crate::value::tag(0),
        );
        o1
    } else {
        old
    }
}

/// Bytes stored in a byte object.
#[verifier::rlimit(60)]
proof fn lemma_put_bytes(h: HeapView, old: Seq<usize>, a: int, data: Seq<u8>, n: int)
    requires
        grounded(h, old),
        listed(old, a),
        h.hdr(a).byte_format(),
        0 <= n <= data.len(),
        data.len() <= 8 * h.nslots(a),
    ensures
        grounded(h.put_bytes(a, data, n), old),
        extends(h, old, h.put_bytes(a, data, n), old),
        h.put_bytes(a, data, n).hdr(a) == h.hdr(a),
        h.put_bytes(a, data, n).nslots(a) == h.nslots(a),
    decreases n,
{
    if n > 0 {
        lemma_put_bytes(h, old, a, data, n - 1);
        let h1 = h.put_bytes(a, data, n - 1);
        let b = ground(h1, old);
        lemma_no_young(old, h1);
        assert(b.lists(a));
        let i = (n - 1) / 8;
        let x = a + 8 + 8 * i;
        let w = crate::heap::with_byte(h1.read(x), (n - 1) % 8, data[n - 1]);
        assert(b.sound()) by {
            reveal(grounded);
        }
        law_bytes_keep_heap_sound(b, a, i, w);
        let h2 = h1.write(x, w);
        assert(h.put_bytes(a, data, n) == h2);
        assert(grounded(h2, old)) by {
            reveal(grounded);
            assert(ground(h2, old) == with_heap(b, h2));
            assert forall|o: int| #[trigger] listed(old, o) implies !h2.is_remembered(o) by {
                assert(b.lists(o));
            }
        }
        assert(extends(h1, old, h2, old)) by {
            reveal(extends);
            assert forall|o: int| #[trigger] listed(old, o) implies h2.hdr(o).format_field()
                == h1.hdr(o).format_field() && h2.nslots(o) == h1.nslots(o) by {
                assert(b.lists(o));
            }
        }
        lemma_extends_twice(h, old, h1, old, h2, old);
    } else {
        lemma_extends_self(h, old);
    }
}

#[verifier::rlimit(60)]
proof fn lemma_symbol(h: HeapView, old: Seq<usize>, bytes: Seq<u8>) -> (old1: Seq<usize>)
    requires
        grounded(h, old),
        bytes.len() < 0x400_0000_0000,
    ensures
        h.symbol_made(bytes) matches Some((h1, v)) ==> {
            &&& grounded(h1, old1)
            &&& extends(h, old, h1, old1)
            &&& leads(h1, old1, v)
        },
{
    if h.symbol_made(bytes) is Some {
        let f = crate::heap::byte_format_for(bytes.len() as int);
        let n = crate::heap::slots_for(bytes.len() as int);
        let o1 = lemma_made(h, old, CLASS_SYMBOL, f, n, None);
        let (h1, a) = h.alloc_old(CLASS_SYMBOL, f, n, None, false)->0;
        lemma_put_bytes(h1, o1, a, bytes, bytes.len() as int);
        let h2 = h1.put_bytes(a, bytes, bytes.len() as int);
        lemma_extends_twice(h, old, h1, o1, h2, o1);
        let b = ground(h2, o1);
        lemma_no_young(o1, h2);
        assert(b.sound()) by {
            reveal(grounded);
        }
        assert(b.lists(a));
        let hd = h2.hdr(a);
        let g = hd.gc_field();
        crate::heap::lemma_header_update(hd, 0, 0);
        crate::heap::lemma_immutable_bits(g);
        crate::heap::lemma_header_update(hd, 0, g | 128);
        let nd = hd.regc(g | 128);
        crate::graph::lemma_low_bit(nd.0);
        crate::graph::lemma_low_bit(hd.0);
        assert(nd.0 & 1 == 0) by {
            reveal(Objects::sound);
            assert(h2.read(a) & 1 == 0);
        }
        law_headers_keep_heap_sound(b, a, nd);
        let h3 = h2.write(a, nd.0);
        assert(h3 == h2.made_immutable(a));
        assert(grounded(h3, o1)) by {
            reveal(grounded);
            assert(ground(h3, o1) == with_heap(b, h3));
            assert forall|o: int| #[trigger] listed(o1, o) implies !h3.is_remembered(o) by {
                assert(b.lists(o));
                assert(!h2.is_remembered(o));
            }
        }
        assert(extends(h2, o1, h3, o1)) by {
            reveal(extends);
            assert forall|o: int| #[trigger] listed(o1, o) implies h3.hdr(o).format_field()
                == h2.hdr(o).format_field() && h3.nslots(o) == h2.nslots(o) by {
                assert(b.lists(o));
            }
        }
        lemma_extends_twice(h, old, h2, o1, h3, o1);
        lemma_still_leads(h1, o1, h2, o1, Value(a as u64));
        lemma_still_leads(h2, o1, h3, o1, Value(a as u64));
        o1
    } else {
        old
    }
}

/// Every value of a list leads to an object, if it points into the heap.
pub open spec fn all_lead(h: HeapView, old: Seq<usize>, list: Seq<Value>) -> bool {
    forall|i: int| 0 <= i < list.len() ==> leads(h, old, #[trigger] list[i])
}

proof fn lemma_all_still_lead(
    h: HeapView,
    old: Seq<usize>,
    h1: HeapView,
    old1: Seq<usize>,
    list: Seq<Value>,
)
    requires
        extends(h, old, h1, old1),
        all_lead(h, old, list),
    ensures
        all_lead(h1, old1, list),
{
    assert forall|i: int| 0 <= i < list.len() implies leads(h1, old1, #[trigger] list[i]) by {
        lemma_still_leads(h, old, h1, old1, list[i]);
    }
}

/// The reserved classes below `below` are class objects.
pub open spec fn classes_stand(h: HeapView, old: Seq<usize>, table: Seq<Value>, below: int) -> bool {
    forall|i: int|
        1 <= i < below ==> stands(
            h,
            old,
            (#[trigger] table[i]).addr(),
            BEHAVIOR_NUM_VM_SLOTS as int,
        )
}

proof fn lemma_classes_still_stand(
    h: HeapView,
    old: Seq<usize>,
    h1: HeapView,
    old1: Seq<usize>,
    table: Seq<Value>,
    below: int,
)
    requires
        extends(h, old, h1, old1),
        classes_stand(h, old, table, below),
    ensures
        classes_stand(h1, old1, table, below),
{
    assert forall|i: int| 1 <= i < below implies stands(
        h1,
        old1,
        (#[trigger] table[i]).addr(),
        BEHAVIOR_NUM_VM_SLOTS as int,
    ) by {
        lemma_still_stands(h, old, h1, old1, table[i].addr(), BEHAVIOR_NUM_VM_SLOTS as int);
    }
}

#[verifier::rlimit(60)]
proof fn lemma_boot_classes(
    h: HeapView,
    old: Seq<usize>,
    idx: int,
    table: Seq<Value>,
    nil: Value,
) -> (old1: Seq<usize>)
    requires
        grounded(h, old),
        leads(h, old, nil),
        1 <= idx <= 32,
        table.len() == FIRST_UNRESERVED_CLASS_INDEX,
        all_lead(h, old, table),
        classes_stand(h, old, table, idx),
    ensures
        h.boot_classes(idx, table, nil) matches Some((h1, t1)) ==> {
            &&& grounded(h1, old1)
            &&& extends(h, old, h1, old1)
            &&& t1.len() == table.len()
            &&& all_lead(h1, old1, t1)
            &&& classes_stand(h1, old1, t1, 32)
        },
    decreases 32 - idx,
{
    if idx > CLASS_LINKED_LIST || h.boot_classes(idx, table, nil) is None {
        lemma_extends_self(h, old);
        old
    } else {
        let f = crate::boot::boot_format(idx as u32);
        let n = crate::boot::boot_slots(idx as u32);
        let o1 = lemma_class(h, old, idx as u32, f, n, nil);
        let (h1, c) = h.class_made(idx as u32, f, n, nil)->0;
        let t1 = table.update(idx, c);
        lemma_still_leads(h, old, h1, o1, nil);
        lemma_all_still_lead(h, old, h1, o1, table);
        lemma_classes_still_stand(h, old, h1, o1, table, idx);
        let o2 = lemma_boot_classes(h1, o1, idx + 1, t1, nil);
        if let Some((h2, t2)) = h1.boot_classes(idx + 1, t1, nil) {
            lemma_extends_twice(h, old, h1, o1, h2, o2);
        }
        o2
    }
}

proof fn lemma_boot_supers(h: HeapView, old: Seq<usize>, idx: int, table: Seq<Value>)
    requires
        grounded(h, old),
        1 <= idx <= 32,
        table.len() == FIRST_UNRESERVED_CLASS_INDEX,
        all_lead(h, old, table),
        classes_stand(h, old, table, 32),
    ensures
        grounded(h.boot_supers(idx, table), old),
        extends(h, old, h.boot_supers(idx, table), old),
    decreases 32 - idx,
{
    if idx > CLASS_LINKED_LIST {
        lemma_extends_self(h, old);
    } else {
        let n = BEHAVIOR_NUM_VM_SLOTS as int;
        let v = table[CLASS_OBJECT as int];
        let a = table[idx].addr();
        lemma_put(h, old, a, n, BEHAVIOR_SUPERCLASS as int, v);
        let h1 = h.set_slot(a, BEHAVIOR_SUPERCLASS as int, v);
        lemma_all_still_lead(h, old, h1, old, table);
        lemma_classes_still_stand(h, old, h1, old, table, 32);
        lemma_boot_supers(h1, old, idx + 1, table);
        lemma_extends_twice(h, old, h1, old, h1.boot_supers(idx + 1, table), old);
    }
}

#[verifier::rlimit(60)]
proof fn lemma_boot_queues(h: HeapView, old: Seq<usize>, queues: Value, i: int, nil: Value) -> (old1:
    Seq<usize>)
    requires
        grounded(h, old),
        leads(h, old, nil),
        0 <= i <= NUM_PRIORITIES,
        stands(h, old, queues.addr(), NUM_PRIORITIES as int),
    ensures
        h.boot_queues(queues, i, nil) matches Some(h1) ==> {
            &&& grounded(h1, old1)
            &&& extends(h, old, h1, old1)
        },
    decreases NUM_PRIORITIES - i,
{
    if i >= NUM_PRIORITIES || h.boot_queues(queues, i, nil) is None {
        lemma_extends_self(h, old);
        old
    } else {
        let n = LIST_NUM_VM_SLOTS as int;
        let o1 = lemma_made(h, old, CLASS_LINKED_LIST, FMT_FIXED, n, Some(nil.0));
        let (h1, q) = h.alloc_old(CLASS_LINKED_LIST, FMT_FIXED, n, Some(nil.0), false)->0;
        lemma_still_stands(h, old, h1, o1, queues.addr(), NUM_PRIORITIES as int);
        lemma_put_on(h, old, h1, o1, queues.addr(), NUM_PRIORITIES as int, i, Value(q as u64));
        let h2 = h1.set_slot(queues.addr(), i, Value(q as u64));
        lemma_still_leads(h, old, h2, o1, nil);
        let o2 = lemma_boot_queues(h2, o1, queues, i + 1, nil);
        if let Some(h3) = h2.boot_queues(queues, i + 1, nil) {
            lemma_extends_twice(h, old, h2, o1, h3, o2);
        }
        o2
    }
}

/// A machine in the making: its heap is sound, and every reference that it
/// holds leads to an object.
pub open spec fn ready(v: VmView, old: Seq<usize>) -> bool {
    &&& grounded(v.heap, old)
    &&& v.specials.len() == SPECIAL_OBJECTS_COUNT
    &&& all_lead(v.heap, old, v.specials)
    &&& v.class_table.len() == FIRST_UNRESERVED_CLASS_INDEX
    &&& all_lead(v.heap, old, v.class_table)
    &&& all_lead(v.heap, old, v.symbols)
    &&& v.symbols.len() == v.symbol_names.len()
    &&& v.temp_roots.len() == 0
    &&& v.sites.len() == 0
    &&& v.timer_sems.len() == 0
    &&& v.jit is None
    &&& v.active == v.nil()
    &&& stands(v.heap, old, v.nil().addr(), 0)
}

/// A machine in the making stays one as its heap grows.
proof fn lemma_ready_on(v: VmView, old: Seq<usize>, h1: HeapView, old1: Seq<usize>)
    requires
        ready(v, old),
        grounded(h1, old1),
        extends(v.heap, old, h1, old1),
    ensures
        ready(v.on_heap(h1), old1),
{
    lemma_all_still_lead(v.heap, old, h1, old1, v.specials);
    lemma_all_still_lead(v.heap, old, h1, old1, v.class_table);
    lemma_all_still_lead(v.heap, old, h1, old1, v.symbols);
    lemma_still_stands(v.heap, old, h1, old1, v.nil().addr(), 0);
}

/// A character takes at most four bytes.
proof fn lemma_encoded(s: Seq<char>)
    ensures
        vstd::utf8::encode_utf8(s).len() <= 4 * s.len(),
    decreases s.len(),
{
    if s.len() > 0 {
        lemma_encoded(s.drop_first());
    }
}

proof fn lemma_interned(v: VmView, old: Seq<usize>, name: Seq<u8>) -> (old1: Seq<usize>)
    requires
        ready(v, old),
        name.len() < 0x400_0000_0000,
    ensures
        v.interned(name) matches Some((w, x)) ==> {
            &&& ready(w, old1)
            &&& extends(v.heap, old, w.heap, old1)
            &&& leads(w.heap, old1, x)
            &&& w.nil() == v.nil()
            &&& w.specials == v.specials
            &&& w.class_table == v.class_table
        },
{
    let i = crate::boot::bytes_index(v.symbol_names, name, 0);
    if i < v.symbol_names.len() {
        lemma_bytes_index(v.symbol_names, name, 0);
        lemma_extends_self(v.heap, old);
        old
    } else {
        let o1 = lemma_symbol(v.heap, old, name);
        if let Some((h1, x)) = v.heap.symbol_made(name) {
            lemma_ready_on(v, old, h1, o1);
            let (w, y) = v.interned(name)->0;
            assert(all_lead(w.heap, o1, w.symbols));
        }
        o1
    }
}

proof fn lemma_bytes_index(names: Seq<Seq<u8>>, name: Seq<u8>, i: int)
    requires
        0 <= i <= names.len(),
    ensures
        i <= crate::boot::bytes_index(names, name, i) <= names.len(),
    decreases names.len() - i,
{
    if i < names.len() {
        lemma_bytes_index(names, name, i + 1);
    }
}

/// The specialized selectors are short.
#[verifier::rlimit(60)]
proof fn lemma_selector_text(i: int)
    ensures
        crate::boot::selector_text(i).len() <= 8,
{
    reveal_strlit("+");
    reveal_strlit("-");
    reveal_strlit("*");
    reveal_strlit("//");
    reveal_strlit("\\\\");
    reveal_strlit("<");
    reveal_strlit(">");
    reveal_strlit("<=");
    reveal_strlit(">=");
    reveal_strlit("=");
    reveal_strlit("==");
    reveal_strlit("at:");
    reveal_strlit("at:put:");
    reveal_strlit("size");
    reveal_strlit("class");
    reveal_strlit("not");
}

#[verifier::rlimit(60)]
proof fn lemma_boot_selectors(v: VmView, old: Seq<usize>, sels: Value, i: int) -> (old1: Seq<usize>)
    requires
        ready(v, old),
        0 <= i <= SPECSEL_COUNT,
        stands(v.heap, old, sels.addr(), SPECSEL_COUNT as int),
    ensures
        v.boot_selectors(sels, i) matches Some(w) ==> ready(w, old1) && w.nil() == v.nil(),
    decreases SPECSEL_COUNT - i,
{
    if i >= SPECSEL_COUNT || v.boot_selectors(sels, i) is None {
        old
    } else {
        let s = crate::boot::selector_text(i);
        let name = vstd::utf8::encode_utf8(s);
        lemma_encoded(s);
        lemma_selector_text(i);
        let o1 = lemma_interned(v, old, name);
        let (w, x) = v.interned(name)->0;
        lemma_still_stands(v.heap, old, w.heap, o1, sels.addr(), SPECSEL_COUNT as int);
        lemma_put_on(v.heap, old, w.heap, o1, sels.addr(), SPECSEL_COUNT as int, i, x);
        let h2 = w.heap.set_slot(sels.addr(), i, x);
        lemma_ready_on(w, o1, h2, o1);
        let u = w.on_heap(h2);
        lemma_boot_selectors(u, o1, sels, i + 1)
    }
}

#[verifier::rlimit(60)]
proof fn lemma_boot_constants(config: VmConfig) -> (old1: Seq<usize>)
    requires
        config.heap.addressable(),
    ensures
        VmView::blank(config).boot_constants() matches Some(w) ==> ready(w, old1),
{
    let v = VmView::blank(config);
    let h = v.heap;
    let none = Seq::<usize>::empty();
    assert(grounded(h, none)) by {
        reveal(grounded);
        reveal(Objects::sound);
    }
    if v.boot_constants() is Some {
        let o1 = lemma_made(h, none, CLASS_UNDEFINED_OBJECT, FMT_FIXED, 0, Some(0));
        let (h1, a) = h.alloc_old(CLASS_UNDEFINED_OBJECT, FMT_FIXED, 0, Some(0), false)->0;
        let nil = Value(a as u64);
        let o2 = lemma_made(h1, o1, CLASS_TRUE, FMT_FIXED, 0, Some(nil.0));
        let (h2, t) = h1.alloc_old(CLASS_TRUE, FMT_FIXED, 0, Some(nil.0), false)->0;
        let o3 = lemma_made(h2, o2, CLASS_FALSE, FMT_FIXED, 0, Some(nil.0));
        let (h3, f) = h2.alloc_old(CLASS_FALSE, FMT_FIXED, 0, Some(nil.0), false)->0;
        lemma_still_leads(h1, o1, h2, o2, nil);
        lemma_still_leads(h2, o2, h3, o3, nil);
        lemma_still_leads(h2, o2, h3, o3, Value(t as u64));
        lemma_still_stands(h1, o1, h2, o2, a, 0);
        lemma_still_stands(h2, o2, h3, o3, a, 0);
        o3
    } else {
        none
    }
}

#[verifier::rlimit(60)]
proof fn lemma_boot_class_objects(v: VmView, old: Seq<usize>) -> (old1: Seq<usize>)
    requires
        ready(v, old),
    ensures
        v.boot_class_objects() matches Some(w) ==> ready(w, old1),
{
    let n = BEHAVIOR_NUM_VM_SLOTS as int;
    assert(leads(v.heap, old, v.specials[SPECIAL_NIL as int]));
    assert(classes_stand(v.heap, old, v.class_table, 1));
    let o1 = lemma_boot_classes(v.heap, old, CLASS_OBJECT as int, v.class_table, v.nil());
    if let Some((h1, table)) = v.heap.boot_classes(CLASS_OBJECT as int, v.class_table, v.nil()) {
        lemma_boot_supers(h1, o1, CLASS_BEHAVIOR as int, table);
        let h2 = h1.boot_supers(CLASS_BEHAVIOR as int, table);
        lemma_extends_twice(v.heap, old, h1, o1, h2, o1);
        lemma_all_still_lead(h1, o1, h2, o1, table);
        lemma_classes_still_stand(h1, o1, h2, o1, table, 32);
        let string = table[CLASS_STRING as int];
        let bytestring = table[CLASS_BYTESTRING as int];
        let symbol = table[CLASS_SYMBOL as int];
        let i = BEHAVIOR_SUPERCLASS as int;
        lemma_put_on(v.heap, old, h2, o1, bytestring.addr(), n, i, string);
        let h3 = h2.set_slot(bytestring.addr(), i, string);
        lemma_all_still_lead(h2, o1, h3, o1, table);
        lemma_classes_still_stand(h2, o1, h3, o1, table, 32);
        lemma_put_on(v.heap, old, h3, o1, symbol.addr(), n, i, bytestring);
        let h4 = h3.set_slot(symbol.addr(), i, bytestring);
        lemma_all_still_lead(h3, o1, h4, o1, table);
        lemma_ready_on(v, old, h4, o1);
    }
    o1
}

#[verifier::rlimit(60)]
proof fn lemma_boot_specials(v: VmView, old: Seq<usize>) -> (old1: Seq<usize>)
    requires
        ready(v, old),
    ensures
        v.boot_specials() matches Some(w) ==> ready(w, old1),
{
    let dnu_name = vstd::utf8::encode_utf8("doesNotUnderstand:"@);
    let mbb_name = vstd::utf8::encode_utf8("mustBeBoolean"@);
    reveal_strlit("doesNotUnderstand:");
    reveal_strlit("mustBeBoolean");
    lemma_encoded("doesNotUnderstand:"@);
    lemma_encoded("mustBeBoolean"@);
    assert(leads(v.heap, old, v.specials[SPECIAL_NIL as int]));
    if v.boot_specials() is Some {
        let o1 = lemma_interned(v, old, dnu_name);
        let (v1, dnu) = v.interned(dnu_name)->0;
        let o2 = lemma_interned(v1, o1, mbb_name);
        let (v2, mbb) = v1.interned(mbb_name)->0;
        lemma_still_leads(v1.heap, o1, v2.heap, o2, dnu);
        let n = SPECSEL_COUNT as int;
        assert(v2.nil() == v.nil());
        assert(leads(v2.heap, o2, v2.specials[SPECIAL_NIL as int]));
        let o3 = lemma_made(v2.heap, o2, CLASS_ARRAY, FMT_PTRS, n, Some(v.nil().0));
        let (h, sels) = v2.heap.alloc_old(CLASS_ARRAY, FMT_PTRS, n, Some(v.nil().0), false)->0;
        lemma_ready_on(v2, o2, h, o3);
        lemma_still_leads(v2.heap, o2, h, o3, dnu);
        lemma_still_leads(v2.heap, o2, h, o3, mbb);
        let v3 = VmView {
            heap: h,
            specials: v2.specials.update(
                crate::treaty::SPECIAL_SEL_DOES_NOT_UNDERSTAND as int,
                dnu,
            ).update(crate::treaty::SPECIAL_SEL_MUST_BE_BOOLEAN as int, mbb).update(
                crate::treaty::SPECIAL_SPECIALIZED_SELECTORS as int,
                Value(sels as u64),
            ),
            ..v2
        };
        assert(all_lead(h, o3, v3.specials));
        assert(ready(v3, o3));
        lemma_boot_selectors(v3, o3, Value(sels as u64), 0)
    } else {
        old
    }
}

#[verifier::rlimit(60)]
proof fn lemma_boot_scheduler(v: VmView, old: Seq<usize>) -> (old1: Seq<usize>)
    requires
        ready(v, old),
    ensures
        v.boot_scheduler() matches Some(w) ==> ready(w, old1),
{
    let nil = v.nil();
    let h = v.heap;
    assert(leads(h, old, v.specials[SPECIAL_NIL as int]));
    if v.boot_scheduler() is Some {
        let p = NUM_PRIORITIES as int;
        let o1 = lemma_made(h, old, CLASS_ARRAY, FMT_PTRS, p, Some(nil.0));
        let (h1, queues) = h.alloc_old(CLASS_ARRAY, FMT_PTRS, p, Some(nil.0), false)->0;
        lemma_still_leads(h, old, h1, o1, nil);
        let qv = Value(queues as u64);
        let o2 = lemma_boot_queues(h1, o1, qv, 0, nil);
        let h2 = h1.boot_queues(qv, 0, nil)->0;
        lemma_extends_twice(h, old, h1, o1, h2, o2);
        lemma_still_leads(h, old, h2, o2, nil);
        lemma_still_leads(h1, o1, h2, o2, qv);
        let n = SCHEDULER_NUM_VM_SLOTS as int;
        let o3 = lemma_made(h2, o2, CLASS_PROCESSOR_SCHEDULER, FMT_FIXED, n, Some(nil.0));
        let (h3, sched) = h2.alloc_old(
            CLASS_PROCESSOR_SCHEDULER,
            FMT_FIXED,
            n,
            Some(nil.0),
            false,
        )->0;
        lemma_extends_twice(h, old, h2, o2, h3, o3);
        lemma_still_leads(h2, o2, h3, o3, qv);
        lemma_put_on(h, old, h3, o3, sched, n, SCHEDULER_QUEUES as int, qv);
        let h3a = h3.set_slot(sched, SCHEDULER_QUEUES as int, qv);
        let sv = Value(sched as u64);
        lemma_still_leads(h3, o3, h3a, o3, sv);
        lemma_still_leads(h, old, h3a, o3, nil);
        let o4 = lemma_semaphore(h3a, o3, nil);
        let (h4, low) = h3a.semaphore_made(nil)->0;
        lemma_extends_twice(h, old, h3a, o3, h4, o4);
        lemma_still_leads(h, old, h4, o4, nil);
        lemma_still_leads(h3a, o3, h4, o4, sv);
        let o5 = lemma_semaphore(h4, o4, nil);
        let (h5, timer) = h4.semaphore_made(nil)->0;
        lemma_extends_twice(h, old, h4, o4, h5, o5);
        lemma_still_leads(h4, o4, h5, o5, sv);
        lemma_still_leads(h4, o4, h5, o5, low);
        lemma_ready_on(v, old, h5, o5);
        let w = v.boot_scheduler()->0;
        assert(all_lead(h5, o5, w.specials));
        o5
    } else {
        old
    }
}

/// A machine in the making is sound.
#[verifier::rlimit(60)]
proof fn lemma_ready_sound(w: VmView, old: Seq<usize>)
    requires
        ready(w, old),
    ensures
        w.sound(Seq::empty(), old, Set::full()),
        flagged(w.heap, old),
        w.runs(),
        spare(w.heap),
{
    let b = w.objects(Seq::empty(), old, Set::full());
    assert(b == ground(w.heap, old));
    assert(b.sound() && w.heap.ssb.len() == 0) by {
        reveal(grounded);
    }
    lemma_no_young(old, w.heap);
    assert(w.active == w.specials[SPECIAL_NIL as int]);
    assert forall|i: int| 0 <= i < w.roots().len() implies b.known(#[trigger] w.roots()[i]) by {
        let r = w.roots();
        let x = w.specials.len() as int;
        let y = x + w.class_table.len();
        if i < x {
            assert(r[i] == w.specials[i]);
        } else if i < y {
            assert(r[i] == w.class_table[i - x]);
        } else if i < y + w.symbols.len() {
            assert(r[i] == w.symbols[i - y]);
        } else {
            assert(r[i] == w.active);
        }
    }
    assert forall|o: int, i: int|
        listed(old, o) && !w.heap.hdr(o).byte_format() && 0 <= i < w.heap.nslots(o) && (
        #[trigger] w.heap.slot(o, i)).tagged_ptr() && w.heap.young(w.heap.slot(o, i).addr()) implies
        false by {
        assert(b.has(o));
        let s = w.heap.slot(o, i);
        assert(b.known(s)) by {
            reveal(Objects::sound);
        }
        crate::value::lemma_untag_bits(s);
        assert(b.lists(s.addr()));
        lemma_lies(b, s.addr());
    }
    assert(w.sound(Seq::empty(), old, Set::full())) by {
        reveal(VmView::sound);
    }
    assert(flagged(w.heap, old)) by {
        reveal(grounded);
    }
    assert(spare(w.heap)) by {
        reveal(Objects::sound);
    }
}

/// A machine that was just made is sound, it runs, no object of it is
/// remembered, and its collections succeed.
pub proof fn law_booted_is_sound(config: VmConfig)
    requires
        config.heap.addressable(),
    ensures
        VmView::blank(config).booted() matches Some(w) ==> exists|old: Seq<usize>| #[trigger]
            w.sound(Seq::empty(), old, Set::full()) && flagged(w.heap, old) && w.runs() && spare(
                w.heap,
            ),
{
    let v = VmView::blank(config);
    if v.booted() is Some {
        let o1 = lemma_boot_constants(config);
        let v1 = v.boot_constants()->0;
        let o2 = lemma_boot_class_objects(v1, o1);
        let v2 = v1.boot_class_objects()->0;
        let o3 = lemma_boot_specials(v2, o2);
        let v3 = v2.boot_specials()->0;
        let o4 = lemma_boot_scheduler(v3, o3);
        lemma_ready_sound(v.booted()->0, o4);
        assert(v.booted()->0.sound(Seq::empty(), o4, Set::full()));
    }
}

} // verus!

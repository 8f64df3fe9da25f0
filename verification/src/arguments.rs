//! Arguments on their way between the slots of a frame and an array, and the
//! messages that are made of them.

use crate::blocks::in_block;
use crate::calls::{law_call_enters_the_method, return_word, slots_of, stack_here};
use crate::fields::{
    lemma_field_set, lemma_same_but_more, lemma_same_but_on, lemma_same_but_self, same_but,
};
use crate::inheritance::{
    all_have_dictionaries, law_search_finds_nearest, lemma_nearest_is_one, lineage,
    nearest_method,
};
use crate::laws::law_cache_agrees;
use crate::machine::{Machine, Pending};
use crate::queues::{laid_out, roomy};
use crate::registers::slot_loaded;
use crate::requests::Outcome;
use crate::treaty::{
    CLASS_ARRAY, CLASS_BLOCKCLOSURE, CLASS_MESSAGE, CLOSURE_COMPILED_BLOCK, FLAG_BLOCKCTX,
    FMT_FIXED, FMT_PTRS, FRAME_CALLER, FRAME_RECEIVER, FRAME_RETINFO, METHOD_HEADER,
    PRIM_BLOCK_VALUE_ARGS, PRIM_PERFORM_WITH_ARGS, PROCESS_SERIAL_COUNTER,
    SPECIAL_SEL_DOES_NOT_UNDERSTAND,
};
use crate::value::Value;
use crate::vm::{Fault, VmView};
use vstd::prelude::*;

verus! {

/// The arguments of a message gathered in an array, in their order.
pub proof fn law_arguments_gathered(
    m: Machine,
    young: Seq<usize>,
    old: Seq<usize>,
    array: Value,
    r: int,
    i: int,
    n: int,
)
    requires
        laid_out(m.vm.heap, young, old),
        array != m.regs.stack,
        0 <= i <= n,
        0 <= m.regs.frame + FRAME_RECEIVER + r + 1,
        i < n ==> roomy(m.vm.heap, young, old, array.addr(), n - 1) && roomy(
            m.vm.heap,
            young,
            old,
            m.regs.stack.addr(),
            m.regs.frame + FRAME_RECEIVER + r + n,
        ),
    ensures
        m.args_gathered(array, r, i, n).regs == m.regs,
        same_but(m.vm, m.args_gathered(array, r, i, n).vm, young, old, slots_of(array, i, n)),
        forall|j: int|
            i <= j < n ==> #[trigger] m.args_gathered(array, r, i, n).vm.field(array, j) == m.get(
                r + 1 + j,
            ),
        m.args_gathered(array, r, i, n).vm == m.vm.on_heap(
            m.args_gathered(array, r, i, n).vm.heap,
        ),
    decreases n - i,
{
    let v = m.vm;
    let st = m.regs.stack;
    let base = m.regs.frame + FRAME_RECEIVER + r + 1;
    lemma_same_but_self(v, v, young, old);
    if i < n {
        let x = m.get(r + 1 + i);
        let w = m.on(v.with_field(array, i, x));
        assert(roomy(v.heap, young, old, array.addr(), i));
        lemma_field_set(v, young, old, array, i, x);
        assert(w.vm == v.on_heap(w.vm.heap)) by {
            reveal(VmView::with_field);
        }
        assert(roomy(w.vm.heap, young, old, array.addr(), n - 1));
        assert(roomy(w.vm.heap, young, old, st.addr(), base + n - 1));
        law_arguments_gathered(w, young, old, array, r, i + 1, n);
        let z = m.args_gathered(array, r, i, n);
        lemma_same_but_on(v, w.vm, z.vm, young, old, set![(array, i)], slots_of(array, i + 1, n));
        lemma_same_but_more(
            v,
            z.vm,
            young,
            old,
            set![(array, i)].union(slots_of(array, i + 1, n)),
            slots_of(array, i, n),
        );
        assert forall|j: int| i <= j < n implies #[trigger] z.vm.field(array, j) == m.get(
            r + 1 + j,
        ) by {
            if j == i {
                assert(roomy(w.vm.heap, young, old, array.addr(), i));
                assert(!slots_of(array, i + 1, n).contains((array, i)));
                assert(z.vm.field(array, i) == w.vm.field(array, i));
            } else {
                assert(w.args_gathered(array, r, i + 1, n).vm.field(array, j) == w.get(r + 1 + j));
                assert(roomy(v.heap, young, old, st.addr(), base + j));
                assert(w.vm.field(st, base + j) == v.field(st, base + j));
            }
        }
    } else {
        lemma_same_but_more(v, v, young, old, Set::empty(), slots_of(array, i, n));
    }
}

/// The items of an array spread over slots of the frame, in their order.
pub proof fn law_arguments_spread(
    m: Machine,
    young: Seq<usize>,
    old: Seq<usize>,
    array: Value,
    at: int,
    i: int,
    n: int,
)
    requires
        laid_out(m.vm.heap, young, old),
        array != m.regs.stack,
        0 <= i <= n,
        0 <= m.regs.frame + FRAME_RECEIVER + at,
        i < n ==> roomy(m.vm.heap, young, old, array.addr(), n - 1) && roomy(
            m.vm.heap,
            young,
            old,
            m.regs.stack.addr(),
            m.regs.frame + FRAME_RECEIVER + at + n - 1,
        ),
    ensures
        m.spread(array, at, i, n).regs == m.regs,
        same_but(
            m.vm,
            m.spread(array, at, i, n).vm,
            young,
            old,
            slots_of(
                m.regs.stack,
                m.regs.frame + FRAME_RECEIVER + at + i,
                m.regs.frame + FRAME_RECEIVER + at + n,
            ),
        ),
        forall|j: int|
            i <= j < n ==> #[trigger] m.spread(array, at, i, n).vm.field(
                m.regs.stack,
                m.regs.frame + FRAME_RECEIVER + at + j,
            ) == m.vm.field(array, j),
        m.spread(array, at, i, n).vm == m.vm.on_heap(m.spread(array, at, i, n).vm.heap),
    decreases n - i,
{
    let v = m.vm;
    let st = m.regs.stack;
    let base = m.regs.frame + FRAME_RECEIVER + at;
    lemma_same_but_self(v, v, young, old);
    if i < n {
        let x = v.field(array, i);
        let w = m.put(at + i, x);
        assert(roomy(v.heap, young, old, st.addr(), base + i));
        lemma_field_set(v, young, old, st, base + i, x);
        assert(w.vm == v.on_heap(w.vm.heap)) by {
            reveal(VmView::with_field);
        }
        assert(roomy(w.vm.heap, young, old, array.addr(), n - 1));
        assert(roomy(w.vm.heap, young, old, st.addr(), base + n - 1));
        law_arguments_spread(w, young, old, array, at, i + 1, n);
        let z = m.spread(array, at, i, n);
        let s = slots_of(st, base + i + 1, base + n);
        lemma_same_but_on(v, w.vm, z.vm, young, old, set![(st, base + i)], s);
        lemma_same_but_more(
            v,
            z.vm,
            young,
            old,
            set![(st, base + i)].union(s),
            slots_of(st, base + i, base + n),
        );
        assert forall|j: int| i <= j < n implies #[trigger] z.vm.field(st, base + j) == v.field(
            array,
            j,
        ) by {
            if j == i {
                assert(roomy(w.vm.heap, young, old, st.addr(), base + i));
                assert(!s.contains((st, base + i)));
                assert(z.vm.field(st, base + i) == w.vm.field(st, base + i));
            } else {
                assert(w.spread(array, at, i + 1, n).vm.field(st, base + j) == w.vm.field(
                    array,
                    j,
                ));
                assert(roomy(v.heap, young, old, array.addr(), j));
                assert(w.vm.field(array, j) == v.field(array, j));
            }
        }
    } else {
        lemma_same_but_more(
            v,
            v,
            young,
            old,
            Set::empty(),
            slots_of(st, base + i, base + n),
        );
    }
}

/// An array of arguments in a slot, and room in the frame to spread it.
pub open spec fn array_here(
    m: Machine,
    young: Seq<usize>,
    old: Seq<usize>,
    array: Value,
    at: int,
    n: int,
) -> bool {
    &&& array.tagged_ptr()
    &&& array != m.regs.stack
    &&& m.vm.heap.hdr(array.addr()).format_field() == FMT_PTRS
    &&& m.vm.heap.nslots(array.addr()) == n
    &&& crate::graph::listed(young, array.addr()) || crate::graph::listed(old, array.addr())
    &&& laid_out(m.vm.heap, young, old)
    &&& roomy(
        m.vm.heap,
        young,
        old,
        m.regs.stack.addr(),
        m.regs.frame + FRAME_RECEIVER + at + n,
    )
}

proof fn lemma_array(
    m: Machine,
    young: Seq<usize>,
    old: Seq<usize>,
    array: Value,
    at: int,
    n: int,
)
    requires
        array_here(m, young, old, array, at, n),
    ensures
        m.vm.heap.whole(array.addr()),
        m.vm.slots(array) == n,
        0 <= n,
        m.regs.frame + FRAME_RECEIVER + at + n < m.vm.slots(m.regs.stack),
        0 < n ==> roomy(m.vm.heap, young, old, array.addr(), n - 1),
{
    reveal(VmView::slots);
    let h = m.vm.heap;
    crate::queues::lemma_apart_all(h, young, old, array.addr(), array.addr());
    crate::queues::lemma_apart_all(h, young, old, m.regs.stack.addr(), m.regs.stack.addr());
}

/// `perform:withArguments:` makes the send of the selector again, with the
/// same receiver and the items of the array for its arguments.
#[verifier::rlimit(40)]
pub proof fn law_perform_sends_the_selector(
    m: Machine,
    young: Seq<usize>,
    old: Seq<usize>,
    r: u8,
    argc: int,
    dest: u8,
    n: int,
)
    requires
        m.get(r + 1).tagged_ptr(),
        array_here(m, young, old, m.get(r + 2), r + 1, n),
        r + 1 + n <= 250,
    ensures
        m.dispatched_primitive(PRIM_PERFORM_WITH_ARGS, r, argc, dest) matches Ok((w, o)) && {
            &&& o is Control
            &&& w.regs.pending == Pending::Resend {
                selector: m.get(r + 1),
                r,
                dest,
                argc: n as u64,
            }
            &&& w.regs.frame == m.regs.frame
            &&& w.regs.stack == m.regs.stack
            &&& w.regs.pc == m.regs.pc
            &&& w.get(r as int) == m.get(r as int)
            &&& forall|j: int|
                0 <= j < n ==> #[trigger] w.vm.field(
                    m.regs.stack,
                    m.regs.frame + FRAME_RECEIVER + r + 1 + j,
                ) == m.vm.field(m.get(r + 2), j)
        },
{
    reveal(Machine::dispatched_primitive);
    reveal(Machine::object_primitive);
    reveal(Machine::prim_perform);
    let array = m.get(r + 2);
    lemma_array(m, young, old, array, r + 1, n);
    let base = m.regs.frame + FRAME_RECEIVER;
    if 0 < n {
        assert(roomy(m.vm.heap, young, old, m.regs.stack.addr(), base + r + 1 + n - 1));
    }
    law_arguments_spread(m, young, old, array, r + 1, 0, n);
    assert(roomy(m.vm.heap, young, old, m.regs.stack.addr(), base + r));
    let s = slots_of(m.regs.stack, base + (r + 1), base + (r + 1) + n);
    assert(!s.contains((m.regs.stack, base + r)));
    let x = m.spread(array, r + 1, 0, n);
    assert(x.vm.field(m.regs.stack, base + r) == m.vm.field(m.regs.stack, base + r));
    assert forall|j: int| 0 <= j < n implies #[trigger] x.vm.field(
        m.regs.stack,
        base + r + 1 + j,
    ) == m.vm.field(array, j) by {
        assert(x.vm.field(m.regs.stack, base + (r + 1) + j) == m.vm.field(array, j));
    }
}

// ---------------------------------------------------------------------------
// Messages that are not understood
// ---------------------------------------------------------------------------
/// A message that nothing understands is made an object: its selector, and an
/// array of its arguments.
#[verifier::rlimit(40)]
pub proof fn law_message_tells_the_send(
    m: Machine,
    r: u8,
    selector: Value,
    argc: int,
    m0: Machine,
    array: Value,
    m3: Machine,
    msg: Value,
    young: Seq<usize>,
    old: Seq<usize>,
)
    requires
        m.allocated(CLASS_ARRAY, FMT_PTRS, argc) == Ok::<(Machine, Value), Fault>((m0, array)),
        ({
            let m1 = m0.args_gathered(array, r as int, 0, argc);
            m1.on(
                VmView { temp_roots: m1.vm.temp_roots.push(array), ..m1.vm },
            ).allocated(CLASS_MESSAGE, FMT_FIXED, 2) == Ok::<(Machine, Value), Fault>((m3, msg))
        }),
        laid_out(m3.vm.heap, young, old),
        roomy(m3.vm.heap, young, old, msg.addr(), 1),
    ensures
        m.message_made(r, selector, argc) matches Ok((w, x)) && {
            &&& x == msg
            &&& w.regs == m3.regs
            &&& w.vm.field(msg, 0) == selector
            &&& w.vm.field(msg, 1) == m3.vm.temp_roots.last()
            &&& w.vm.temp_roots == m3.vm.temp_roots.drop_last()
            &&& same_but(m3.vm, w.vm, young, old, slots_of(msg, 0, 2))
        },
{
    reveal(Machine::message_made);
    let v = VmView { temp_roots: m3.vm.temp_roots.drop_last(), ..m3.vm };
    let array1 = m3.vm.temp_roots.last();
    lemma_same_but_self(m3.vm, v, young, old);
    assert(roomy(v.heap, young, old, msg.addr(), 0));
    lemma_field_set(v, young, old, msg, 0, selector);
    let a = v.with_field(msg, 0, selector);
    assert(roomy(a.heap, young, old, msg.addr(), 1) && roomy(a.heap, young, old, msg.addr(), 0));
    lemma_field_set(a, young, old, msg, 1, array1);
    let b = a.with_field(msg, 1, array1);
    assert(b.field(msg, 0) == a.field(msg, 0));
    lemma_same_but_on(m3.vm, v, a, young, old, Set::empty(), set![(msg, 0int)]);
    let s = Set::empty().union(set![(msg, 0int)]);
    lemma_same_but_on(m3.vm, a, b, young, old, s, set![(msg, 1int)]);
    lemma_same_but_more(
        m3.vm,
        b,
        young,
        old,
        s.union(set![(msg, 1int)]),
        slots_of(msg, 0, 2),
    );
    assert(b.temp_roots == v.temp_roots) by {
        reveal(VmView::with_field);
    }
}

/// A message that nothing understands runs the nearest method of the
/// receiver's class for `doesNotUnderstand:`, with the message for its
/// argument.
#[verifier::rlimit(40)]
pub proof fn law_not_understood_asks_the_receiver(
    m: Machine,
    young: Seq<usize>,
    old: Seq<usize>,
    dest: u8,
    r: u8,
    selector: Value,
    argc: int,
    m1: Machine,
    msg: Value,
    chain: Seq<Value>,
    method: Value,
) -> (x: Machine)
    requires
        ({
            let m0 = m.on(
                VmView {
                    ctr: crate::counters::CountersView {
                        dnu: m.vm.ctr.dnu.wrapping_add(1),
                        ..m.vm.ctr
                    },
                    ..m.vm
                },
            );
            m0.message_made(r, selector, argc) == Ok::<(Machine, Value), Fault>((m1, msg))
        }),
        laid_out(m1.vm.heap, young, old),
        m1.vm.coherent(),
        roomy(
            m1.vm.heap,
            young,
            old,
            m1.regs.stack.addr(),
            m1.regs.frame + FRAME_RECEIVER + r + 1,
        ),
        ({
            let class = m1.vm.class_no(m1.get(r as int));
            &&& 0 < class < m1.vm.class_table.len()
            &&& lineage(m1.vm, m1.vm.class_table[class as int], chain)
        }),
        all_have_dictionaries(m1.vm, chain),
        nearest_method(
            m1.vm,
            chain,
            m1.vm.specials[SPECIAL_SEL_DOES_NOT_UNDERSTAND as int],
            Some(method),
        ),
    ensures
        m.misunderstood(dest, r, selector, argc) == x.activated(method, r, dest, 1),
        x.regs == m1.regs,
        x.get(r + 1) == msg,
        x.get(r as int) == m1.get(r as int),
        same_but(
            m1.vm,
            x.vm,
            young,
            old,
            set![(m1.regs.stack, m1.regs.frame + FRAME_RECEIVER + r + 1)],
        ),
{
    reveal(Machine::misunderstood);
    let class = m1.vm.class_no(m1.get(r as int));
    let sel = m1.vm.specials[SPECIAL_SEL_DOES_NOT_UNDERSTAND as int];
    law_search_finds_nearest(m1.vm, class, sel, chain);
    lemma_nearest_is_one(m1.vm, chain, sel, m1.vm.lookup(class, sel).0, Some(method));
    law_cache_agrees(m1.vm, class, sel);
    let vm = m1.vm.cached_lookup(class, sel).0;
    assert(vm.heap == m1.vm.heap && vm.specials == m1.vm.specials) by {
        reveal(VmView::cached_lookup);
    }
    lemma_same_but_self(m1.vm, vm, young, old);
    let base = m1.regs.frame + FRAME_RECEIVER;
    lemma_field_set(vm, young, old, m1.regs.stack, base + (r + 1), msg);
    let x = m1.on(vm).put(r + 1, msg);
    let s = set![(m1.regs.stack, base + r + 1)];
    lemma_same_but_on(m1.vm, vm, x.vm, young, old, Set::empty(), s);
    assert(Set::empty().union(s) =~= s);
    assert(roomy(m1.vm.heap, young, old, m1.regs.stack.addr(), base + r));
    assert(!s.contains((m1.regs.stack, base + r)));
    assert(x.vm.field(m1.regs.stack, base + r) == m1.vm.field(m1.regs.stack, base + r));
    x
}

/// A primitive that answers puts its value where the message was to leave it.
pub proof fn law_primitive_answers(
    m: Machine,
    young: Seq<usize>,
    old: Seq<usize>,
    call: crate::machine::HostCall,
    v: Value,
)
    requires
        crate::registers::slot_here(m, young, old, call.dest as int),
    ensures
        slot_loaded(
            m,
            m.outcome_applied(call, Outcome::Value(v)),
            young,
            old,
            call.dest as int,
            v,
        ),
        m.outcome_applied(call, Outcome::Control) == Ok::<Machine, Fault>(m),
{
    reveal(Machine::outcome_applied);
    crate::registers::lemma_put(m, young, old, call.dest as int, v);
}

/// `valueWithArguments:` runs the closure's block with the items of the array
/// for its arguments, where there are as many as it takes.
#[verifier::rlimit(60)]
pub proof fn law_value_with_arguments_runs_the_block(
    m: Machine,
    young: Seq<usize>,
    old: Seq<usize>,
    r: u8,
    argc: int,
    dest: u8,
    n: int,
)
    requires
        FRAME_RECEIVER <= r,
        m.vm.is_a(m.get(r as int), CLASS_BLOCKCLOSURE),
        array_here(m, young, old, m.get(r + 1), r + 1, n),
        ({
            let block = m.vm.field(m.get(r as int), CLOSURE_COMPILED_BLOCK as int);
            let bits = m.vm.method_bits(block);
            &&& block != m.regs.stack
            &&& roomy(m.vm.heap, young, old, block.addr(), METHOD_HEADER as int)
            &&& crate::vm::mh_argc(bits) == n
            &&& n < crate::vm::mh_frame_slots(bits)
            &&& stack_here(
                m,
                young,
                old,
                m.regs.frame + r + FRAME_RECEIVER + crate::vm::mh_frame_slots(bits),
            )
        }),
    ensures
        m.dispatched_primitive(PRIM_BLOCK_VALUE_ARGS, r, argc, dest) matches Ok((w, o)) && {
            let st = m.regs.stack;
            let off = m.regs.frame + r;
            &&& o is Control
            &&& w.regs.stack == st
            &&& w.regs.frame == off
            &&& w.regs.method == m.vm.field(m.get(r as int), CLOSURE_COMPILED_BLOCK as int)
            &&& w.regs.pc == 0
            &&& in_block(w)
            &&& w.get(0) == m.get(r as int)
            &&& forall|k: int| 1 <= k <= n ==> #[trigger] w.get(k) == m.vm.field(
                m.get(r + 1),
                k - 1,
            )
            &&& w.vm.field(st, off + FRAME_CALLER) == crate::value::tag(m.regs.frame as i64)
            &&& w.vm.field(st, off + FRAME_RETINFO) == return_word(dest, m.regs.pc)
        },
{
    reveal(Machine::dispatched_primitive);
    reveal(Machine::object_primitive);
    reveal(Machine::control_primitive);
    reveal(Machine::prim_block_value_args);
    let array = m.get(r + 1);
    let st = m.regs.stack;
    let base = m.regs.frame + FRAME_RECEIVER;
    let block = m.vm.field(m.get(r as int), CLOSURE_COMPILED_BLOCK as int);
    let bits = m.vm.method_bits(block);
    let top = m.regs.frame + r + FRAME_RECEIVER + crate::vm::mh_frame_slots(bits);
    lemma_array(m, young, old, array, r + 1, n);
    if 0 < n {
        assert(roomy(m.vm.heap, young, old, st.addr(), base + r + 1 + n - 1));
    }
    law_arguments_spread(m, young, old, array, r + 1, 0, n);
    let x = m.spread(array, r + 1, 0, n);
    let s = slots_of(st, base + (r + 1), base + (r + 1) + n);
    assert(roomy(m.vm.heap, young, old, st.addr(), base + r));
    assert(!s.contains((st, base + r)));
    assert(x.vm.field(st, base + r) == m.vm.field(st, base + r));
    assert(!s.contains((block, METHOD_HEADER as int)));
    assert(x.vm.field(block, METHOD_HEADER as int) == m.vm.field(block, METHOD_HEADER as int));
    assert(stack_here(x, young, old, top)) by {
        assert(roomy(x.vm.heap, young, old, st.addr(), top - 1));
        assert(roomy(
            x.vm.heap,
            young,
            old,
            m.vm.active.addr(),
            PROCESS_SERIAL_COUNTER as int,
        ));
    }
    assert(x.vm.slots(st) >= top) by {
        reveal(VmView::slots);
        crate::queues::lemma_apart_all(x.vm.heap, young, old, st.addr(), st.addr());
    }
    crate::calls::lemma_frame_words(0, 0, 0, 0);
    law_call_enters_the_method(x, young, old, block, r, dest, n, FLAG_BLOCKCTX);
    let w = x.framed(block, r, dest, n, None, FLAG_BLOCKCTX);
    assert(w.get(0) == x.get(r + 0));
    assert forall|k: int| 1 <= k <= n implies #[trigger] w.get(k) == m.vm.field(array, k - 1) by {
        assert(w.get(k) == x.get(r + k));
        assert(x.vm.field(st, base + (r + 1) + (k - 1)) == m.vm.field(array, k - 1));
    }
}

} // verus!

//! Calls and returns: a method is entered with its receiver and arguments,
//! and a return gives its value to the caller, which goes on where it was.

use crate::fields::{
    lemma_field_set, lemma_same_but_more, lemma_same_but_on, lemma_same_but_self, same_but,
};
use crate::machine::{offset_of, Machine};
use crate::queues::{laid_out, roomy};
use crate::treaty::{
    FLAG_BLOCKCTX, FLAG_UNWINDCONT, FRAME_CALLER, FRAME_FLAGS, FRAME_METHOD, FRAME_RECEIVER,
    FRAME_RETINFO, METHOD_HEADER, MH_FLAG_IS_ENSURE, MH_FLAG_IS_HANDLER, PROCESS_SERIAL_COUNTER,
};
use crate::value::Value;
use crate::vm::VmView;
use vstd::prelude::*;

verus! {

/// Slots `i..n` of an object.
pub open spec fn slots_of(o: Value, i: int, n: int) -> Set<(Value, int)> {
    Set::new(|x: (Value, int)| x.0 == o && i <= x.1 < n)
}

/// One more field set among those that may change.
pub(crate) proof fn lemma_set_among(
    u: VmView,
    v: VmView,
    young: Seq<usize>,
    old: Seq<usize>,
    s: Set<(Value, int)>,
    o: Value,
    i: int,
    x: Value,
)
    requires
        same_but(u, v, young, old, s),
        s.contains((o, i)),
        roomy(u.heap, young, old, o.addr(), i),
    ensures
        same_but(u, v.with_field(o, i, x), young, old, s),
        same_but(v, v.with_field(o, i, x), young, old, set![(o, i)]),
        v.with_field(o, i, x).field(o, i) == x,
        v.with_field(o, i, x) == v.on_heap(v.with_field(o, i, x).heap),
{
    assert(roomy(v.heap, young, old, o.addr(), i));
    lemma_field_set(v, young, old, o, i, x);
    lemma_same_but_on(u, v, v.with_field(o, i, x), young, old, s, set![(o, i)]);
    assert(s.union(set![(o, i)]) =~= s);
}

/// Slots set to nil.
pub(crate) proof fn lemma_nilled_fields(
    v: VmView,
    young: Seq<usize>,
    old: Seq<usize>,
    o: Value,
    i: int,
    n: int,
)
    requires
        laid_out(v.heap, young, old),
        0 <= i,
        i < n ==> roomy(v.heap, young, old, o.addr(), n - 1),
    ensures
        same_but(v, v.nilled(o, i, n), young, old, slots_of(o, i, n)),
        forall|j: int| i <= j < n ==> #[trigger] v.nilled(o, i, n).field(o, j) == v.nil(),
        v.nilled(o, i, n) == v.on_heap(v.nilled(o, i, n).heap),
    decreases n - i,
{
    lemma_same_but_self(v, v, young, old);
    if i < n {
        let w = v.with_field(o, i, v.nil());
        assert(roomy(v.heap, young, old, o.addr(), i));
        lemma_field_set(v, young, old, o, i, v.nil());
        assert(roomy(w.heap, young, old, o.addr(), n - 1));
        lemma_nilled_fields(w, young, old, o, i + 1, n);
        let r = v.nilled(o, i, n);
        lemma_same_but_on(v, w, r, young, old, set![(o, i)], slots_of(o, i + 1, n));
        lemma_same_but_more(
            v,
            r,
            young,
            old,
            set![(o, i)].union(slots_of(o, i + 1, n)),
            slots_of(o, i, n),
        );
        assert forall|j: int| i <= j < n implies #[trigger] r.field(o, j) == v.nil() by {
            if j == i {
                assert(roomy(w.heap, young, old, o.addr(), i));
                assert(!slots_of(o, i + 1, n).contains((o, i)));
                assert(r.field(o, i) == w.field(o, i));
            } else {
                assert(w.nilled(o, i + 1, n).field(o, j) == w.nil());
            }
        }
    } else {
        lemma_same_but_more(v, v, young, old, Set::empty(), slots_of(o, i, n));
    }
}

/// The running stack and the active process are objects, and different ones.
pub open spec fn stack_here(m: Machine, young: Seq<usize>, old: Seq<usize>, n: int) -> bool {
    &&& laid_out(m.vm.heap, young, old)
    &&& n > 0
    &&& roomy(m.vm.heap, young, old, m.regs.stack.addr(), n - 1)
    &&& roomy(m.vm.heap, young, old, m.vm.active.addr(), PROCESS_SERIAL_COUNTER as int)
    &&& m.regs.stack != m.vm.active
}

/// The flags word of a frame for a method with a header: the given flags, the
/// method's own, and the frame's number.
pub open spec fn flags_word(f: Value, header: i64, extra: u64, serial: i64) -> bool {
    let own = (header >> 33u32) as u64;
    &&& f.tagged_int()
    &&& f.int_value() >> 32u32 == serial
    &&& f.int_value() & 1 != 0 <==> extra & 1 != 0 || own & MH_FLAG_IS_HANDLER != 0
    &&& f.int_value() & 2 != 0 <==> extra & 2 != 0 || own & MH_FLAG_IS_ENSURE != 0
    &&& f.int_value() & 4 != 0 <==> extra & 4 != 0
    &&& f.int_value() & 8 != 0 <==> extra & 8 != 0
}

/// The fields that a call changes: the new frame, and the counter of frames.
pub open spec fn call_fields(m: Machine, off: int, n: int) -> Set<(Value, int)> {
    slots_of(m.regs.stack, off, n).insert((m.vm.active, PROCESS_SERIAL_COUNTER as int))
}

/// Where a call returns to, as its frame holds it.
pub open spec fn return_word(dest: u8, pc: u64) -> Value {
    crate::value::tag((dest as i64) | ((pc as i64) << 8u32))
}

/// A call enters the method at its first instruction, with the receiver and
/// the arguments that were staged in its first slots and nil in the others.
/// Its frame knows its caller and where to return to. Nothing below the frame
/// changes.
#[verifier::rlimit(80)]
#[verifier::spinoff_prover]
pub proof fn law_call_enters_the_method(
    m: Machine,
    young: Seq<usize>,
    old: Seq<usize>,
    method: Value,
    r: u8,
    dest: u8,
    argc: int,
    extra: u64,
)
    requires
        0 <= argc < crate::vm::mh_frame_slots(m.vm.method_bits(method)),
        FRAME_RECEIVER <= r,
        extra < 256,
        stack_here(
            m,
            young,
            old,
            m.regs.frame + r + FRAME_RECEIVER + crate::vm::mh_frame_slots(
                m.vm.method_bits(method),
            ),
        ),
    ensures
        ({
            let w = m.framed(method, r, dest, argc, None, extra);
            let st = m.regs.stack;
            let off = m.regs.frame + r;
            let fs = crate::vm::mh_frame_slots(m.vm.method_bits(method));
            &&& w.regs.stack == st
            &&& w.regs.frame == off
            &&& w.regs.method == method
            &&& w.regs.pc == 0
            &&& w.vm.active == m.vm.active
            &&& forall|k: int| 0 <= k <= argc ==> #[trigger] w.get(k) == m.get(r + k)
            &&& forall|k: int| argc < k < fs ==> #[trigger] w.get(k) == m.vm.nil()
            &&& w.vm.field(st, off + FRAME_CALLER) == crate::value::tag(m.regs.frame as i64)
            &&& w.vm.field(st, off + FRAME_RETINFO) == return_word(dest, m.regs.pc)
            &&& w.vm.field(st, off + FRAME_METHOD) == method
            &&& flags_word(
                w.vm.field(st, off + FRAME_FLAGS),
                m.vm.method_bits(method),
                extra,
                w.vm.field(m.vm.active, PROCESS_SERIAL_COUNTER as int).int_value(),
            )
            &&& same_but(
                m.vm,
                w.vm,
                young,
                old,
                call_fields(m, off, off + FRAME_RECEIVER + fs),
            )
        }),
{
    reveal(Machine::framed);
    reveal(VmView::reloaded);
    let v = m.vm;
    let st = m.regs.stack;
    let off = m.regs.frame + r;
    let p = v.active;
    let bits = v.method_bits(method);
    let fs = crate::vm::mh_frame_slots(bits);
    let n = off + FRAME_RECEIVER + fs;
    let s = call_fields(m, off, n);
    let sc = PROCESS_SERIAL_COUNTER as int;
    let serial = crate::frames::next_serial(v.int_field(p, sc) as u32);
    let x0 = crate::value::tag(serial as i64);
    let x1 = crate::value::tag(m.regs.frame as i64);
    let x2 = return_word(dest, m.regs.pc);
    let x4 = crate::value::tag(
        (crate::frames::frame_bits(bits, extra) as i64) | ((serial as i64) << 32u32),
    );
    lemma_same_but_self(v, v, young, old);
    lemma_same_but_more(v, v, young, old, Set::empty(), s);
    assert forall|j: int| 0 <= j < n implies roomy(v.heap, young, old, st.addr(), j) by {}
    lemma_set_among(v, v, young, old, s, p, sc, x0);
    let a = v.with_field(p, sc, x0);
    lemma_set_among(v, a, young, old, s, st, off + FRAME_CALLER, x1);
    let b = a.with_field(st, off + FRAME_CALLER, x1);
    lemma_set_among(v, b, young, old, s, st, off + FRAME_RETINFO, x2);
    let c = b.with_field(st, off + FRAME_RETINFO, x2);
    lemma_set_among(v, c, young, old, s, st, off + FRAME_METHOD, method);
    let d = c.with_field(st, off + FRAME_METHOD, method);
    lemma_set_among(v, d, young, old, s, st, off + FRAME_FLAGS, x4);
    let e = d.with_field(st, off + FRAME_FLAGS, x4);
    let i = off + FRAME_RECEIVER + 1 + argc;
    assert(roomy(e.heap, young, old, st.addr(), n - 1));
    lemma_nilled_fields(e, young, old, st, i, n);
    let u = e.nilled(st, i, n);
    let t = slots_of(st, i, n);
    lemma_same_but_on(v, e, u, young, old, s, t);
    assert(s.union(t) =~= s);
    let w = m.framed(method, r, dest, argc, None, extra);
    assert(w.vm == u);
    assert(roomy(b.heap, young, old, st.addr(), off + FRAME_CALLER));
    assert(roomy(c.heap, young, old, st.addr(), off + FRAME_CALLER));
    assert(roomy(d.heap, young, old, st.addr(), off + FRAME_CALLER));
    assert(roomy(e.heap, young, old, st.addr(), off + FRAME_CALLER));
    assert(u.field(st, off + FRAME_CALLER) == e.field(st, off + FRAME_CALLER));
    assert(e.field(st, off + FRAME_CALLER) == d.field(st, off + FRAME_CALLER));
    assert(d.field(st, off + FRAME_CALLER) == c.field(st, off + FRAME_CALLER));
    assert(c.field(st, off + FRAME_CALLER) == b.field(st, off + FRAME_CALLER));
    assert(roomy(c.heap, young, old, st.addr(), off + FRAME_RETINFO));
    assert(roomy(d.heap, young, old, st.addr(), off + FRAME_RETINFO));
    assert(roomy(e.heap, young, old, st.addr(), off + FRAME_RETINFO));
    assert(u.field(st, off + FRAME_RETINFO) == e.field(st, off + FRAME_RETINFO));
    assert(e.field(st, off + FRAME_RETINFO) == d.field(st, off + FRAME_RETINFO));
    assert(d.field(st, off + FRAME_RETINFO) == c.field(st, off + FRAME_RETINFO));
    assert(roomy(d.heap, young, old, st.addr(), off + FRAME_METHOD));
    assert(roomy(e.heap, young, old, st.addr(), off + FRAME_METHOD));
    assert(u.field(st, off + FRAME_METHOD) == e.field(st, off + FRAME_METHOD));
    assert(e.field(st, off + FRAME_METHOD) == d.field(st, off + FRAME_METHOD));
    assert(roomy(e.heap, young, old, st.addr(), off + FRAME_FLAGS));
    assert(u.field(st, off + FRAME_FLAGS) == e.field(st, off + FRAME_FLAGS));
    lemma_frame_flags(bits, extra, serial as i64);
    crate::value::lemma_tag_bits(serial as i64);
    assert(u.field(p, sc) == x0) by {
        assert(roomy(a.heap, young, old, p.addr(), sc));
        assert(roomy(b.heap, young, old, p.addr(), sc));
        assert(roomy(c.heap, young, old, p.addr(), sc));
        assert(roomy(d.heap, young, old, p.addr(), sc));
        assert(roomy(e.heap, young, old, p.addr(), sc));
        assert(u.field(p, sc) == e.field(p, sc));
        assert(e.field(p, sc) == d.field(p, sc));
        assert(d.field(p, sc) == c.field(p, sc));
        assert(c.field(p, sc) == b.field(p, sc));
        assert(b.field(p, sc) == a.field(p, sc));
    }
    assert forall|k: int| 0 <= k <= argc implies #[trigger] w.get(k) == m.get(r + k) by {
        let j = off + FRAME_RECEIVER + k;
        assert(roomy(v.heap, young, old, st.addr(), j));
        assert(roomy(a.heap, young, old, st.addr(), j));
        assert(roomy(b.heap, young, old, st.addr(), j));
        assert(roomy(c.heap, young, old, st.addr(), j));
        assert(roomy(d.heap, young, old, st.addr(), j));
        assert(roomy(e.heap, young, old, st.addr(), j));
        assert(u.field(st, j) == e.field(st, j));
        assert(e.field(st, j) == d.field(st, j));
        assert(d.field(st, j) == c.field(st, j));
        assert(c.field(st, j) == b.field(st, j));
        assert(b.field(st, j) == a.field(st, j));
        assert(a.field(st, j) == v.field(st, j));
    }
    assert forall|k: int| argc < k < fs implies #[trigger] w.get(k) == v.nil() by {
        let j = off + FRAME_RECEIVER + k;
        assert(e.nilled(st, i, n).field(st, j) == e.nil());
    }
}

/// The parts of the words of a frame can be read back.
pub(crate) proof fn lemma_frame_words(dest: u8, pc: i64, bits: u64, serial: i64)
    requires
        0 <= pc < 0x20_0000_0000_0000,
        bits < 256,
        0 <= serial < 0x4000_0000,
    ensures
        ((dest as i64) | (pc << 8u32)) & 0xff == dest,
        ((dest as i64) | (pc << 8u32)) >> 8u32 == pc,
        0 <= (dest as i64) | (pc << 8u32) <= crate::value::SMALLINT_MAX,
        ((bits as i64) | (serial << 32u32)) >> 32u32 == serial,
        0 <= (bits as i64) | (serial << 32u32) <= crate::value::SMALLINT_MAX,
        ((bits as i64) | (serial << 32u32)) & 1 == (bits & 1) as i64,
        ((bits as i64) | (serial << 32u32)) & 2 == (bits & 2) as i64,
        ((bits as i64) | (serial << 32u32)) & 4 == (bits & 4) as i64,
        ((bits as i64) | (serial << 32u32)) & 8 == (bits & 8) as i64,
        bits | 1 < 256,
        bits | 2 < 256,
        (bits | 1) & 1 == 1,
        (bits | 1) & 2 == bits & 2,
        (bits | 1) & 4 == bits & 4,
        (bits | 1) & 8 == bits & 8,
        (bits | 2) & 1 == bits & 1,
        (bits | 2) & 2 == 2,
        (bits | 2) & 4 == bits & 4,
        (bits | 2) & 8 == bits & 8,
        (FLAG_BLOCKCTX | FLAG_UNWINDCONT) == 12,
        (FLAG_BLOCKCTX | FLAG_UNWINDCONT) & 8 == 8,
        FLAG_BLOCKCTX & 4 == 4,
        0i64 | (pc << 8u32) == pc << 8u32,
{
    assert(((dest as i64) | (pc << 8u32)) & 0xff == dest && ((dest as i64) | (pc << 8u32)) >> 8u32
        == pc && 0 <= (dest as i64) | (pc << 8u32) <= 4611686018427387903i64 && ((bits as i64) | (
    serial << 32u32)) >> 32u32 == serial && 0 <= (bits as i64) | (serial << 32u32)
        <= 4611686018427387903i64 && ((bits as i64) | (serial << 32u32)) & 1 == (bits & 1) as i64
        && ((bits as i64) | (serial << 32u32)) & 2 == (bits & 2) as i64 && ((bits as i64) | (serial
        << 32u32)) & 4 == (bits & 4) as i64 && ((bits as i64) | (serial << 32u32)) & 8 == (bits
        & 8) as i64 && bits | 1 < 256 && bits | 2 < 256 && (bits | 1) & 1 == 1 && (bits | 1) & 2
        == bits & 2 && (bits | 1) & 4 == bits & 4 && (bits | 1) & 8 == bits & 8 && (bits | 2) & 1
        == bits & 1 && (bits | 2) & 2 == 2 && (bits | 2) & 4 == bits & 4 && (bits | 2) & 8 == bits
        & 8 && 4u64 | 8u64 == 12u64 && (4u64 | 8u64) & 8 == 8 && 4u64 & 4 == 4 && 0i64 | (pc
        << 8u32) == pc << 8u32) by (bit_vector)
        requires
            0 <= pc < 0x20_0000_0000_0000,
            bits < 256,
            0 <= serial < 0x4000_0000,
    ;
}

/// The flags of a frame for a method: those that the call asks for, and those
/// of the method itself.
proof fn lemma_frame_flags(header: i64, extra: u64, serial: i64)
    requires
        extra < 256,
        0 <= serial < 0x4000_0000,
    ensures
        ({
            let f = crate::value::tag(
                (crate::frames::frame_bits(header, extra) as i64) | (serial << 32u32),
            );
            let own = (header >> 33u32) as u64;
            &&& f.tagged_int()
            &&& f.int_value() >> 32u32 == serial
            &&& f.int_value() & 1 != 0 <==> extra & 1 != 0 || own & MH_FLAG_IS_HANDLER != 0
            &&& f.int_value() & 2 != 0 <==> extra & 2 != 0 || own & MH_FLAG_IS_ENSURE != 0
            &&& f.int_value() & 4 != 0 <==> extra & 4 != 0
            &&& f.int_value() & 8 != 0 <==> extra & 8 != 0
        }),
{
    lemma_frame_words(0, 0, extra, serial);
    lemma_frame_words(0, 0, extra | 1, serial);
    lemma_frame_words(0, 0, extra | 2, serial);
    lemma_frame_words(0, 0, (extra | 1) | 2, serial);
    crate::value::lemma_tag_bits(
        (crate::frames::frame_bits(header, extra) as i64) | (serial << 32u32),
    );
}

/// The frame slot in which a return leaves its value.
pub open spec fn result_slot(m: Machine) -> int {
    let ri = m.vm.field(m.regs.stack, m.regs.frame + FRAME_RETINFO).int_value();
    (ri & 0xff) as int
}

/// A return makes the caller's frame the current one, at the instruction that
/// the frame says, and leaves the value in the slot that it says. Nothing
/// else below the frame changes.
#[verifier::rlimit(60)]
#[verifier::spinoff_prover]
pub proof fn law_return_gives_the_value(
    m: Machine,
    young: Seq<usize>,
    old: Seq<usize>,
    x: Value,
    caller: u64,
)
    requires
        stack_here(
            m,
            young,
            old,
            m.regs.frame + FRAME_RECEIVER + crate::vm::mh_frame_slots(
                m.vm.method_bits(m.regs.method),
            ),
        ),
        m.vm.field(m.regs.stack, m.regs.frame + FRAME_CALLER).int_value() == caller,
        0 < caller,
        caller + FRAME_RECEIVER <= m.regs.frame,
        roomy(
            m.vm.heap,
            young,
            old,
            m.regs.stack.addr(),
            caller + FRAME_RECEIVER + result_slot(m),
        ),
    ensures
        ({
            let w = m.returned_plain(x);
            let st = m.regs.stack;
            let ri = m.vm.field(st, m.regs.frame + FRAME_RETINFO).int_value();
            &&& w.regs.stack == st
            &&& w.regs.frame == caller
            &&& w.regs.pc == offset_of((ri >> 8u32) as i64)
            &&& w.regs.halted == m.regs.halted
            &&& w.get(result_slot(m)) == x
            &&& w.regs.method == m.vm.field(st, caller + FRAME_METHOD)
            &&& forall|j: int|
                0 <= j < m.regs.frame && j != caller + FRAME_RECEIVER + result_slot(m)
                    ==> #[trigger] w.vm.field(st, j) == m.vm.field(st, j)
            &&& same_but(
                m.vm,
                w.vm,
                young,
                old,
                slots_of(
                    st,
                    m.regs.frame as int,
                    m.regs.frame + FRAME_RECEIVER + crate::vm::mh_frame_slots(
                        m.vm.method_bits(m.regs.method),
                    ),
                ).insert((st, caller + FRAME_RECEIVER + result_slot(m))),
            )
        }),
{
    reveal(Machine::returned_plain);
    reveal(Machine::popped);
    reveal(VmView::reloaded);
    let v = m.vm;
    let st = m.regs.stack;
    let f = m.regs.frame as int;
    let fs = crate::vm::mh_frame_slots(v.method_bits(m.regs.method));
    let n = f + FRAME_RECEIVER + fs;
    crate::frames::lemma_retinfo(v.field(st, f + FRAME_RETINFO).int_value());
    crate::frames::lemma_retinfo(v.method_bits(m.regs.method) >> 0u32);
    lemma_nilled_fields(v, young, old, st, f, n);
    let a = v.nilled(st, f, n);
    let j0 = caller + FRAME_RECEIVER + result_slot(m);
    let s = slots_of(st, f, n).insert((st, j0));
    lemma_same_but_more(v, a, young, old, slots_of(st, f, n), s);
    lemma_set_among(v, a, young, old, s, st, j0, x);
    let w = m.returned_plain(x);
    assert(w.vm == a.with_field(st, j0, x));
    assert(roomy(v.heap, young, old, st.addr(), caller + FRAME_METHOD));
    assert(roomy(a.heap, young, old, st.addr(), caller + FRAME_METHOD));
    assert(a.field(st, caller + FRAME_METHOD) == v.field(st, caller + FRAME_METHOD));
    assert forall|j: int| 0 <= j < f && j != j0 implies #[trigger] w.vm.field(st, j) == v.field(
        st,
        j,
    ) by {
        assert(roomy(v.heap, young, old, st.addr(), j));
        assert(!s.contains((st, j)));
    }
}

/// A return from the frame at the base of a stack ends the run with the
/// value.
pub proof fn law_return_from_the_base_ends(m: Machine, x: Value)
    requires
        m.vm.field(m.regs.stack, m.regs.frame + FRAME_CALLER).int_value() == 0,
    ensures
        m.returned_plain(x).regs.halted == Some(x),
        m.returned_plain(x).vm == m.vm,
{
    reveal(Machine::returned_plain);
}

/// A call and the return from it: the caller goes on after the call, with the
/// value in the slot that was asked for and its other slots as they were.
#[verifier::rlimit(60)]
#[verifier::spinoff_prover]
pub proof fn law_call_and_return(
    m: Machine,
    young: Seq<usize>,
    old: Seq<usize>,
    method: Value,
    r: u8,
    dest: u8,
    argc: int,
    extra: u64,
    x: Value,
)
    requires
        0 <= argc < crate::vm::mh_frame_slots(m.vm.method_bits(method)),
        FRAME_RECEIVER + FRAME_RECEIVER + dest < r,
        extra < 256,
        stack_here(
            m,
            young,
            old,
            m.regs.frame + r + FRAME_RECEIVER + crate::vm::mh_frame_slots(
                m.vm.method_bits(method),
            ),
        ),
        0 < m.regs.frame <= crate::value::SMALLINT_MAX,
        m.regs.pc < 0x20_0000_0000_0000,
        m.regs.method == m.vm.field(m.regs.stack, m.regs.frame + FRAME_METHOD),
        method != m.regs.stack,
        method != m.vm.active,
        roomy(m.vm.heap, young, old, method.addr(), METHOD_HEADER as int),
    ensures
        ({
            let w = m.framed(method, r, dest, argc, None, extra).returned_plain(x);
            &&& w.regs.stack == m.regs.stack
            &&& w.regs.frame == m.regs.frame
            &&& w.regs.pc == m.regs.pc
            &&& w.regs.method == m.regs.method
            &&& w.get(dest as int) == x
            &&& forall|k: int|
                0 <= k < r - FRAME_RECEIVER && k != dest ==> #[trigger] w.get(k) == m.get(k)
        }),
{
    law_call_enters_the_method(m, young, old, method, r, dest, argc, extra);
    let c = m.framed(method, r, dest, argc, None, extra);
    let st = m.regs.stack;
    let off = m.regs.frame + r;
    let fs = crate::vm::mh_frame_slots(m.vm.method_bits(method));
    let s = call_fields(m, off, off + FRAME_RECEIVER + fs);
    lemma_frame_words(dest, m.regs.pc as i64, 0, 0);
    crate::value::lemma_tag_bits((dest as i64) | ((m.regs.pc as i64) << 8u32));
    crate::value::lemma_tag_bits(m.regs.frame as i64);
    assert(c.vm.field(method, METHOD_HEADER as int) == m.vm.field(method, METHOD_HEADER as int));
    assert(roomy(c.vm.heap, young, old, st.addr(), off + FRAME_RECEIVER + fs - 1));
    assert(roomy(
        c.vm.heap,
        young,
        old,
        m.vm.active.addr(),
        PROCESS_SERIAL_COUNTER as int,
    ));
    assert(roomy(m.vm.heap, young, old, st.addr(), m.regs.frame + FRAME_RECEIVER + dest));
    assert(roomy(c.vm.heap, young, old, st.addr(), m.regs.frame + FRAME_RECEIVER + dest));
    law_return_gives_the_value(c, young, old, x, m.regs.frame);
    let w = c.returned_plain(x);
    assert(roomy(m.vm.heap, young, old, st.addr(), m.regs.frame + FRAME_METHOD));
    assert(c.vm.field(st, m.regs.frame + FRAME_METHOD) == m.vm.field(
        st,
        m.regs.frame + FRAME_METHOD,
    ));
    assert forall|k: int| 0 <= k < r - FRAME_RECEIVER && k != dest implies #[trigger] w.get(k)
        == m.get(k) by {
        let j = m.regs.frame + FRAME_RECEIVER + k;
        assert(roomy(m.vm.heap, young, old, st.addr(), j));
        assert(w.vm.field(st, j) == c.vm.field(st, j));
        assert(!s.contains((st, j)));
        assert(c.vm.field(st, j) == m.vm.field(st, j));
    }
}

} // verus!

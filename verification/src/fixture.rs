//! Building compiled methods and blocks by hand. What is built goes to old
//! space, so that values held outside of the machine survive scavenges.

use crate::assembler::Insn;
use crate::heap::{Heap, HeapView};
use crate::value::Value;
use crate::vm::{Vm, VmView};
use crate::treaty::{
    CLASS_ARRAY, CLASS_BYTEARRAY, CLASS_COMPILEDBLOCK, CLASS_COMPILEDMETHOD, FMT_FIXED, FMT_PTRS,
    MAX_LITERALS, MAX_METHOD_INSTRUCTIONS, MAX_SEND_SITES, PRIM_TABLE_SIZE, SITE_ARGC,
    SITE_CACHE_CLASS, SITE_CACHE_METHOD, SITE_SELECTOR, SITE_STRIDE,
};
use vstd::prelude::*;
use vstd::string::*;

verus! {

/// A send site.
#[derive(Clone, Copy, PartialEq, Eq, Structural, Debug)]
pub struct SiteSpec {
    pub selector: Value,
    pub argc: u8,
    /// The class of a SENDSUPER site; the zero word for other sites.
    pub static_class: Value,
}

pub struct MethodBuilder {
    pub argc: u8,
    pub frame_slots: u8,
    pub insns: Vec<Insn>,
    pub literals: Vec<Value>,
    pub sites: Vec<SiteSpec>,
    pub primitive: Option<u16>,
    pub handler_slot_base: u8,
    pub mh_flags: u64,
}

/// What a [`MethodBuilder`] holds.
#[verifier::ext_equal]
pub struct Blueprint {
    pub argc: u8,
    pub frame_slots: u8,
    pub insns: Seq<Insn>,
    pub literals: Seq<Value>,
    pub sites: Seq<SiteSpec>,
    pub primitive: Option<u16>,
    pub handler_slot_base: u8,
    pub mh_flags: u64,
}

impl View for MethodBuilder {
    type V = Blueprint;

    open spec fn view(&self) -> Blueprint {
        Blueprint {
            argc: self.argc,
            frame_slots: self.frame_slots,
            insns: self.insns@,
            literals: self.literals@,
            sites: self.sites@,
            primitive: self.primitive,
            handler_slot_base: self.handler_slot_base,
            mh_flags: self.mh_flags,
        }
    }
}

impl Blueprint {
    /// The instructions: a primitive comes first.
    pub open spec fn body(self) -> Seq<Insn> {
        match self.primitive {
            Some(n) => seq![Insn::Prim { n }] + self.insns,
            None => self.insns,
        }
    }

    /// The limits of a method.
    pub open spec fn sound(self) -> bool {
        &&& self.argc <= 15
        &&& self.primitive is Some ==> self.primitive->0 < PRIM_TABLE_SIZE
        &&& self.body().len() <= MAX_METHOD_INSTRUCTIONS
        &&& self.literals.len() <= MAX_LITERALS
        &&& self.sites.len() <= MAX_SEND_SITES
    }

    pub open spec fn header(self) -> i64 {
        crate::vm::mh_packed(
            self.frame_slots as i64,
            self.argc as i64,
            match self.primitive {
                Some(n) => n as i64,
                None => 0,
            },
            if self.primitive is Some {
                1
            } else {
                0
            },
            self.handler_slot_base as i64,
            self.mh_flags as i64,
        )
    }
}

/// Byte `i` of a sequence of words, each with its low byte first.
pub open spec fn word_byte(words: Seq<u32>, i: int) -> u8 {
    let w = words[i / 4];
    if i % 4 == 0 {
        w as u8
    } else if i % 4 == 1 {
        (w >> 8u32) as u8
    } else if i % 4 == 2 {
        (w >> 16u32) as u8
    } else {
        (w >> 24u32) as u8
    }
}

pub open spec fn code_bytes(insns: Seq<Insn>) -> Seq<u8> {
    Seq::new(4 * insns.len(), |i: int| word_byte(crate::assembler::words_of(insns), i))
}

/// The slots of a send-site table.
pub open spec fn site_slots(sites: Seq<SiteSpec>, nil: Value) -> Seq<Value> {
    Seq::new(
        SITE_STRIDE as nat * sites.len(),
        |i: int|
            {
                let s = sites[i / 5];
                let k = i % 5;
                if k == SITE_SELECTOR {
                    s.selector
                } else if k == SITE_ARGC {
                    crate::value::tag(s.argc as i64)
                } else if k == SITE_CACHE_CLASS {
                    crate::value::tag(0)
                } else if k == SITE_CACHE_METHOD || s.static_class == Value(0) {
                    nil
                } else {
                    s.static_class
                }
            },
    )
}

impl HeapView {
    /// Slots `i..` of the object at `o` stored from a list, with the write
    /// barrier.
    pub open spec fn store_from(self, o: int, list: Seq<Value>, i: int) -> HeapView
        decreases list.len() - i,
    {
        if i < 0 || i >= list.len() {
            self
        } else {
            self.store(o, i, list[i]).store_from(o, list, i + 1)
        }
    }

    /// An immutable code object.
    #[verifier::opaque]
    pub open spec fn code_made(self, code: Seq<u8>) -> Option<(HeapView, Value)> {
        let n = code.len() as int;
        match self.alloc_old(
            CLASS_BYTEARRAY,
            crate::heap::byte_format_for(n),
            crate::heap::slots_for(n),
            None,
            false,
        ) {
            None => None,
            Some((h, a)) => Some((h.put_bytes(a, code, n).made_immutable(a), Value(a as u64))),
        }
    }

    /// An immutable array of literals.
    #[verifier::opaque]
    pub open spec fn literals_made(self, list: Seq<Value>, nil: Value) -> Option<
        (HeapView, Value),
    > {
        match self.alloc_old(CLASS_ARRAY, FMT_PTRS, list.len() as int, Some(nil.0), false) {
            None => None,
            Some((h, a)) => Some((h.store_from(a, list, 0).made_immutable(a), Value(a as u64))),
        }
    }

    /// A table or a method with the given slots.
    #[verifier::opaque]
    pub open spec fn slots_made(
        self,
        class: u32,
        format: u64,
        list: Seq<Value>,
        nil: Value,
    ) -> Option<(HeapView, Value)> {
        match self.alloc_old(class, format, list.len() as int, Some(nil.0), false) {
            None => None,
            Some((h, a)) => Some((h.fill_from(a, list, 0), Value(a as u64))),
        }
    }
}

impl VmView {
    /// The code, literals and send sites of a method built; the sites are
    /// registered.
    #[verifier::opaque]
    pub open spec fn parts_built(self, b: Blueprint) -> Option<(VmView, Value, Value, Value)> {
        let nil = self.nil();
        match self.heap.code_made(code_bytes(b.body())) {
            None => None,
            Some((h0, code)) => match h0.literals_made(b.literals, nil) {
                None => None,
                Some((h1, lits)) => match h1.slots_made(
                    CLASS_ARRAY,
                    FMT_PTRS,
                    site_slots(b.sites, nil),
                    nil,
                ) {
                    None => None,
                    Some((h2, sites)) => Some(
                        (
                            VmView { heap: h2, sites: self.sites.push(sites), ..self },
                            code,
                            lits,
                            sites,
                        ),
                    ),
                },
            },
        }
    }

    /// A compiled method built; `None` where old space is full.
    #[verifier::opaque]
    pub open spec fn method_built(self, b: Blueprint) -> Option<(VmView, Value)> {
        let nil = self.nil();
        match self.parts_built(b) {
            None => None,
            Some((v, code, lits, sites)) => match v.heap.slots_made(
                CLASS_COMPILEDMETHOD,
                FMT_FIXED,
                seq![
                    crate::value::tag(b.header()),
                    code,
                    lits,
                    sites,
                    nil,
                    nil,
                    nil,
                    crate::value::tag(0),
                ],
                nil,
            ) {
                None => None,
                Some((h, m)) => Some((v.on_heap(h), m)),
            },
        }
    }

    /// A compiled block built.
    #[verifier::opaque]
    pub open spec fn block_built(self, b: Blueprint, outer: Value, captured: u8, nlr: bool) -> Option<
        (VmView, Value),
    > {
        let nil = self.nil();
        let info = (captured as i64) | if nlr {
            256i64
        } else {
            0i64
        };
        match self.parts_built(b) {
            None => None,
            Some((v, code, lits, sites)) => match v.heap.slots_made(
                CLASS_COMPILEDBLOCK,
                FMT_FIXED,
                seq![
                    crate::value::tag(b.header()),
                    code,
                    lits,
                    sites,
                    outer,
                    crate::value::tag(info),
                    crate::value::tag(0),
                    crate::value::tag(0),
                ],
                nil,
            ) {
                None => None,
                Some((h, m)) => Some((v.on_heap(h), m)),
            },
        }
    }
}

// ---------------------------------------------------------------------------
// Bytes and slots
// ---------------------------------------------------------------------------
fn encode_bytes(insns: &Vec<Insn>) -> (out: Vec<u8>)
    requires
        4 * insns@.len() <= usize::MAX,
    ensures
        out@ == code_bytes(insns@),
{
    let mut out: Vec<u8> = Vec::new();
    let ghost words = crate::assembler::words_of(insns@);
    let mut i: usize = 0;
    while i < insns.len()
        invariant
            i <= insns@.len(),
            words == crate::assembler::words_of(insns@),
            out@.len() == 4 * i,
            forall|j: int| 0 <= j < 4 * i ==> #[trigger] out@[j] == word_byte(words, j),
        decreases insns@.len() - i,
    {
        let w: u32 = insns[i].encode();
        assert(words[i as int] == w);
        out.push(w as u8);
        out.push((w >> 8u32) as u8);
        out.push((w >> 16u32) as u8);
        out.push((w >> 24u32) as u8);
        i = i + 1;
        assert forall|j: int| 0 <= j < 4 * i implies #[trigger] out@[j] == word_byte(words, j) by {
            if j >= 4 * (i - 1) {
                assert(j / 4 == i - 1);
            }
        }
    }
    assert(out@ =~= code_bytes(insns@));
    out
}

fn list_sites(sites: &Vec<SiteSpec>, nil: Value) -> (out: Vec<Value>)
    requires
        5 * sites@.len() <= usize::MAX,
    ensures
        out@ == site_slots(sites@, nil),
{
    let mut out: Vec<Value> = Vec::new();
    let ghost all = site_slots(sites@, nil);
    let mut i: usize = 0;
    while i < sites.len()
        invariant
            i <= sites@.len(),
            all == site_slots(sites@, nil),
            out@.len() == 5 * i,
            forall|j: int| 0 <= j < 5 * i ==> #[trigger] out@[j] == all[j],
        decreases sites@.len() - i,
    {
        let s = sites[i];
        out.push(s.selector);
        out.push(Value::tagged(s.argc as i64));
        out.push(Value::tagged(0));
        out.push(nil);
        out.push(
            if s.static_class == Value(0) {
                nil
            } else {
                s.static_class
            },
        );
        i = i + 1;
        assert forall|j: int| 0 <= j < 5 * i implies #[trigger] out@[j] == all[j] by {
            if j >= 5 * (i - 1) {
                assert(j / 5 == i - 1);
            }
        }
    }
    assert(out@ =~= all);
    out
}

fn with_prim(n: u16, insns: &Vec<Insn>) -> (out: Vec<Insn>)
    ensures
        out@ == seq![Insn::Prim { n }] + insns@,
{
    let mut out: Vec<Insn> = Vec::new();
    out.push(Insn::Prim { n });
    let mut i: usize = 0;
    while i < insns.len()
        invariant
            i <= insns@.len(),
            out@ == seq![Insn::Prim { n }] + insns@.take(i as int),
        decreases insns@.len() - i,
    {
        out.push(insns[i]);
        i = i + 1;
        assert(out@ =~= seq![Insn::Prim { n }] + insns@.take(i as int));
    }
    assert(insns@.take(i as int) =~= insns@);
    out
}

impl Heap {
    fn store_from(&mut self, o: Value, list: &[Value])
        requires
            old(self).wf(),
            old(self)@.plausible(o.addr()),
            o.addr() + 8 + 8 * list@.len() <= old(self)@.limit_of(o.addr()),
        ensures
            final(self).wf(),
            final(self)@.layout() == old(self)@.layout(),
            final(self)@ == old(self)@.store_from(o.addr(), list@, 0),
    {
        let mut i: usize = 0;
        while i < list.len()
            invariant
                i <= list@.len(),
                self.wf(),
                old(self)@.plausible(o.addr()),
                o.addr() + 8 + 8 * list@.len() <= old(self)@.limit_of(o.addr()),
                self@.layout() == old(self)@.layout(),
                old(self)@.store_from(o.addr(), list@, 0) == self@.store_from(
                    o.addr(),
                    list@,
                    i as int,
                ),
            decreases list@.len() - i,
        {
            self.store(o, i, list[i]);
            i = i + 1;
        }
    }

    fn make_code(&mut self, code: &Vec<u8>) -> (r: Option<Value>)
        requires
            old(self).wf(),
        ensures
            final(self).wf(),
            final(self)@.layout() == old(self)@.layout(),
            match old(self)@.code_made(code@) {
                None => r is None,
                Some((h, v)) => r == Some(v) && final(self)@ == h,
            },
    {
        reveal(HeapView::code_made);
        let n: usize = code.len();
        let ghost slots = crate::heap::slots_for(n as int);
        proof {
            if self@.old.fits(crate::heap::words_for(slots)) {
                crate::objects::law_alloc_old(
                    self@,
                    CLASS_BYTEARRAY,
                    crate::heap::byte_format_for(n as int),
                    slots,
                    None,
                    false,
                );
            }
        }
        match self.alloc_bytes_old(CLASS_BYTEARRAY, n) {
            Some(a) => {
                let v = Value::from_ptr(a);
                self.poke_bytes(v, code.as_slice());
                self.set_immutable(a);
                Some(v)
            },
            None => None,
        }
    }

    fn make_literals(&mut self, list: &Vec<Value>, nil: Value) -> (r: Option<Value>)
        requires
            old(self).wf(),
        ensures
            final(self).wf(),
            final(self)@.layout() == old(self)@.layout(),
            match old(self)@.literals_made(list@, nil) {
                None => r is None,
                Some((h, v)) => r == Some(v) && final(self)@ == h,
            },
    {
        reveal(HeapView::literals_made);
        match self.make_old(CLASS_ARRAY, FMT_PTRS, list.len(), nil) {
            Some(v) => {
                self.store_from(v, list.as_slice());
                self.set_immutable(v.0 as usize);
                Some(v)
            },
            None => None,
        }
    }

    fn make_slots(&mut self, class: u32, format: u64, list: &Vec<Value>, nil: Value) -> (r: Option<
        Value,
    >)
        requires
            old(self).wf(),
            class <= crate::heap::MAX_CLASS_INDEX,
            format <= 15,
        ensures
            final(self).wf(),
            final(self)@.layout() == old(self)@.layout(),
            match old(self)@.slots_made(class, format, list@, nil) {
                None => r is None,
                Some((h, v)) => r == Some(v) && final(self)@ == h,
            },
    {
        reveal(HeapView::slots_made);
        match self.make_old(class, format, list.len(), nil) {
            Some(v) => {
                self.fill_from(v, list.as_slice());
                Some(v)
            },
            None => None,
        }
    }
}

// ---------------------------------------------------------------------------
// The builder
// ---------------------------------------------------------------------------
impl MethodBuilder {
    /// A builder for a method with `argc` arguments and `frame_slots` slots:
    /// receiver, arguments, temporaries and scratch.
    pub fn new(argc: u8, frame_slots: u8) -> (b: MethodBuilder)
        requires
            frame_slots >= 1 + argc,
        ensures
            b@ == (Blueprint {
                argc,
                frame_slots,
                insns: Seq::empty(),
                literals: Seq::empty(),
                sites: Seq::empty(),
                primitive: None,
                handler_slot_base: 0,
                mh_flags: 0,
            }),
    {
        MethodBuilder {
            argc,
            frame_slots,
            insns: Vec::new(),
            literals: Vec::new(),
            sites: Vec::new(),
            primitive: None,
            handler_slot_base: 0,
            mh_flags: 0,
        }
    }

    pub fn insns(self, insns: Vec<Insn>) -> (b: MethodBuilder)
        ensures
            b@ == (Blueprint { insns: insns@, ..self@ }),
    {
        MethodBuilder { insns, ..self }
    }

    pub fn literals(self, lits: Vec<Value>) -> (b: MethodBuilder)
        ensures
            b@ == (Blueprint { literals: lits@, ..self@ }),
    {
        MethodBuilder { literals: lits, ..self }
    }

    pub fn lit(self, v: Value) -> (b: MethodBuilder)
        ensures
            b@ == (Blueprint { literals: self@.literals.push(v), ..self@ }),
    {
        let mut literals = self.literals;
        literals.push(v);
        MethodBuilder { literals, ..self }
    }

    pub fn site(self, selector: Value, argc: u8) -> (b: MethodBuilder)
        ensures
            b@ == (Blueprint {
                sites: self@.sites.push(SiteSpec { selector, argc, static_class: Value(0) }),
                ..self@
            }),
    {
        self.super_site(selector, argc, Value(0))
    }

    pub fn site_named(self, vm: &mut Vm, name: &str, argc: u8) -> (b: MethodBuilder)
        requires
            old(vm).wf(),
            old(vm)@.interned(name.spec_bytes()) is Some,
        ensures
            final(vm).wf(),
            old(vm)@.interned(name.spec_bytes()) matches Some((v, selector)) && final(vm)@ == v
                && b@ == (Blueprint {
                sites: self@.sites.push(SiteSpec { selector, argc, static_class: Value(0) }),
                ..self@
            }),
    {
        let sel = vm.intern(name);
        self.site(sel, argc)
    }

    pub fn super_site(self, selector: Value, argc: u8, static_class: Value) -> (b: MethodBuilder)
        ensures
            b@ == (Blueprint {
                sites: self@.sites.push(SiteSpec { selector, argc, static_class }),
                ..self@
            }),
    {
        let mut sites = self.sites;
        sites.push(SiteSpec { selector, argc, static_class });
        MethodBuilder { sites, ..self }
    }

    pub fn super_site_named(self, vm: &mut Vm, name: &str, argc: u8, static_class: Value) -> (b:
        MethodBuilder)
        requires
            old(vm).wf(),
            old(vm)@.interned(name.spec_bytes()) is Some,
        ensures
            final(vm).wf(),
            old(vm)@.interned(name.spec_bytes()) matches Some((v, selector)) && final(vm)@ == v
                && b@ == (Blueprint {
                sites: self@.sites.push(SiteSpec { selector, argc, static_class }),
                ..self@
            }),
    {
        let sel = vm.intern(name);
        self.super_site(sel, argc, static_class)
    }

    /// Set the primitive number in the header; the PRIM instruction is put
    /// first.
    pub fn primitive(self, n: u16) -> (b: MethodBuilder)
        ensures
            b@ == (Blueprint { primitive: Some(n), ..self@ }),
    {
        MethodBuilder { primitive: Some(n), ..self }
    }

    pub fn handler_slot_base(self, base: u8) -> (b: MethodBuilder)
        ensures
            b@ == (Blueprint { handler_slot_base: base, ..self@ }),
    {
        MethodBuilder { handler_slot_base: base, ..self }
    }

    pub fn mh_flags(self, flags: u64) -> (b: MethodBuilder)
        ensures
            b@ == (Blueprint { mh_flags: flags, ..self@ }),
    {
        MethodBuilder { mh_flags: flags, ..self }
    }

    fn header(&self) -> (h: i64)
        requires
            self@.sound(),
        ensures
            h == self@.header(),
    {
        Vm::pack_method_header(
            self.frame_slots as usize,
            self.argc as usize,
            self.primitive,
            self.handler_slot_base as usize,
            self.mh_flags,
        )
    }

    fn build_parts(&self, vm: &mut Vm) -> (r: Option<(Value, Value, Value)>)
        requires
            old(vm).wf(),
            self@.sound(),
        ensures
            final(vm).wf(),
            match old(vm)@.parts_built(self@) {
                None => r is None,
                Some((v, code, lits, sites)) => r == Some((code, lits, sites)) && final(vm)@ == v,
            },
    {
        reveal(VmView::parts_built);
        let nil = vm.nil();
        let bytes = match self.primitive {
            Some(n) => {
                let body = with_prim(n, &self.insns);
                encode_bytes(&body)
            },
            None => encode_bytes(&self.insns),
        };
        let code = vm.heap.make_code(&bytes)?;
        let lits = vm.heap.make_literals(&self.literals, nil)?;
        let list = list_sites(&self.sites, nil);
        let sites = vm.heap.make_slots(CLASS_ARRAY, FMT_PTRS, &list, nil)?;
        vm.site_registry.push(sites);
        Some((code, lits, sites))
    }

    /// Build a compiled method; `None` where old space is full.
    pub fn try_build(&self, vm: &mut Vm) -> (r: Option<Value>)
        requires
            old(vm).wf(),
            self@.sound(),
        ensures
            final(vm).wf(),
            match old(vm)@.method_built(self@) {
                None => r is None,
                Some((v, m)) => r == Some(m) && final(vm)@ == v,
            },
    {
        reveal(VmView::method_built);
        let nil = vm.nil();
        let (code, lits, sites) = self.build_parts(vm)?;
        let zero = Value::tagged(0);
        let list = vec![Value::tagged(self.header()), code, lits, sites, nil, nil, nil, zero];
        assert(list@ =~= seq![
            crate::value::tag(self@.header()),
            code,
            lits,
            sites,
            nil,
            nil,
            nil,
            crate::value::tag(0),
        ]);
        vm.heap.make_slots(CLASS_COMPILEDMETHOD, FMT_FIXED, &list, nil)
    }

    /// Build a compiled method.
    pub fn build(self, vm: &mut Vm) -> (m: Value)
        requires
            old(vm).wf(),
            self@.sound(),
            old(vm)@.method_built(self@) is Some,
        ensures
            final(vm).wf(),
            old(vm)@.method_built(self@) == Some((final(vm)@, m)),
    {
        match self.try_build(vm) {
            Some(m) => m,
            None => Value(0),
        }
    }

    /// Build a compiled block; `None` where old space is full.
    pub fn try_build_block(&self, vm: &mut Vm, outer: Value, num_captured: u8, has_nlr: bool) -> (r:
        Option<Value>)
        requires
            old(vm).wf(),
            self@.sound(),
        ensures
            final(vm).wf(),
            match old(vm)@.block_built(self@, outer, num_captured, has_nlr) {
                None => r is None,
                Some((v, m)) => r == Some(m) && final(vm)@ == v,
            },
    {
        reveal(VmView::block_built);
        let nil = vm.nil();
        let (code, lits, sites) = self.build_parts(vm)?;
        let info: i64 = (num_captured as i64) | (if has_nlr {
            256i64
        } else {
            0i64
        });
        let zero = Value::tagged(0);
        let list = vec![
            Value::tagged(self.header()),
            code,
            lits,
            sites,
            outer,
            Value::tagged(info),
            zero,
            zero,
        ];
        assert(list@ =~= seq![
            crate::value::tag(self@.header()),
            code,
            lits,
            sites,
            outer,
            crate::value::tag(info),
            crate::value::tag(0),
            crate::value::tag(0),
        ]);
        vm.heap.make_slots(CLASS_COMPILEDBLOCK, FMT_FIXED, &list, nil)
    }

    /// Build a compiled block: a method's slots, then its outer method, and
    /// how many variables it captures and whether it returns from its home.
    pub fn build_block(self, vm: &mut Vm, outer: Value, num_captured: u8, has_nlr: bool) -> (m:
        Value)
        requires
            old(vm).wf(),
            self@.sound(),
            old(vm)@.block_built(self@, outer, num_captured, has_nlr) is Some,
        ensures
            final(vm).wf(),
            old(vm)@.block_built(self@, outer, num_captured, has_nlr) == Some((final(vm)@, m)),
    {
        match self.try_build_block(vm, outer, num_captured, has_nlr) {
            Some(m) => m,
            None => Value(0),
        }
    }
}

} // verus!

//! Sends: lookup through the caches, activation, and messages that are not
//! understood.

use crate::counters::{bump_at, CountersView};
use crate::machine::{HostCall, Machine, Pending, Regs};
use crate::profile::utf8_lossy;
use crate::requests::{Outcome, PrimOutcome};
use crate::text::{append_dec, text};
use crate::value::Value;
use crate::vm::{fatal, Fault, LookupEntry, Vm, VmError, VmView};
use crate::treaty::{
    CLASS_ARRAY, CLASS_MESSAGE, FMT_FIXED, FMT_PTRS, FRAME_RECEIVER, METHOD_HEADER,
    SITE_CACHE_CLASS, SITE_CACHE_METHOD, SITE_STRIDE, SPECIAL_SEL_DOES_NOT_UNDERSTAND,
    SPECIAL_SPECIALIZED_SELECTORS, SPECSEL_COUNT,
};
use vstd::prelude::*;

verus! {

/// Where the lookup cache keeps a class and selector.
pub open spec fn cache_slot(class: u32, selector: Value) -> int {
    ((class as u64).wrapping_mul(31).wrapping_add(selector.0 >> 3u64) % 4096) as int
}

impl VmView {
    /// The selector's text in a message.
    pub open spec fn selector_shown(self, selector: Value) -> Seq<char> {
        if selector.tagged_ptr() && self.heap.bytes_ok(selector.addr()) {
            crate::profile::lossy_text(self.heap.bytes(selector.addr()))
        } else {
            crate::value::value_text(selector)
        }
    }

    /// The last words when a message and `doesNotUnderstand:` are both
    /// without a method.
    pub open spec fn not_understood_text(self, selector: Value, receiver: Value, class: u32) -> Seq<
        char,
    > {
        "doesNotUnderstand: #"@ + self.selector_shown(selector)
            + " (and no doesNotUnderstand: handler; receiver "@ + crate::value::value_text(receiver)
            + ", class index "@ + crate::text::dec(class as int) + ", scavenges "@
            + crate::text::dec(self.scavenges as int) + ")"@
    }

    /// The method for a class and selector through the global cache, and the
    /// machine after the search.
    #[verifier::opaque]
    pub open spec fn cached_lookup(self, class: u32, selector: Value) -> (VmView, Option<Value>) {
        let slot = cache_slot(class, selector);
        let e = self.cache[slot];
        if e.class_index == class && e.selector == selector {
            (self, Some(e.method))
        } else {
            let (found, walked) = self.lookup(class, selector);
            let v = VmView {
                ctr: CountersView {
                    global_cache_miss: self.ctr.global_cache_miss.wrapping_add(1),
                    dict_walks: self.ctr.dict_walks.wrapping_add(1),
                    dict_classes_walked: self.ctr.dict_classes_walked.wrapping_add(walked as u64),
                    ..self.ctr
                },
                ..self
            };
            match found {
                None => (v, None),
                Some(method) => (
                    VmView {
                        cache: v.cache.update(
                            slot,
                            LookupEntry { class_index: class, selector, method },
                        ),
                        ..v
                    },
                    Some(method),
                ),
            }
        }
    }
}

impl Machine {
    /// What becomes of a primitive's outcome in an activation: a value goes
    /// to the destination, a failure runs the method's body, and a question
    /// goes to the host.
    #[verifier::opaque]
    pub open spec fn outcome_applied(self, call: HostCall, o: Outcome) -> Result<Machine, Fault> {
        match o {
            Outcome::Value(v) => Ok(self.put(call.dest as int, v)),
            Outcome::Control => Ok(self),
            Outcome::Fail(c) => self.pushed(
                call.method,
                call.r,
                call.dest,
                call.argc as int,
                Some(c),
                0,
            ),
            Outcome::Ask(a) => Ok(
                Machine {
                    vm: VmView { request: Some(a), ..self.vm },
                    regs: Regs { pending: Pending::Host(call), ..self.regs },
                },
            ),
        }
    }

    /// A method activated: its primitive if it has one, else a frame, with
    /// the activation counted for the compiler.
    #[verifier::opaque]
    pub open spec fn activated(self, method: Value, r: u8, dest: u8, argc: int) -> Result<
        Machine,
        Fault,
    > {
        match crate::vm::mh_primitive(self.vm.method_bits(method)) {
            None => self.on(self.vm.invocation_counted(method)).pushed(
                method,
                r,
                dest,
                argc,
                None,
                0,
            ),
            Some(n) => match self.primitive(n, r, argc, dest) {
                Err(f) => Err(f),
                Ok((m, o)) => m.outcome_applied(
                    HostCall { prim: n, method, r, dest, argc: argc as u64, inline: false },
                    o,
                ),
            },
        }
    }

    /// Arguments `i..n` of the message at slot `r` stored in an array.
    pub open spec fn args_gathered(self, array: Value, r: int, i: int, n: int) -> Machine
        decreases n - i,
    {
        if i >= n {
            self
        } else {
            self.on(self.vm.with_field(array, i, self.get(r + 1 + i))).args_gathered(
                array,
                r,
                i + 1,
                n,
            )
        }
    }

    /// The message made an object.
    #[verifier::opaque]
    pub open spec fn message_made(self, r: u8, selector: Value, argc: int) -> Result<
        (Machine, Value),
        Fault,
    > {
        match self.allocated(CLASS_ARRAY, FMT_PTRS, argc) {
            Err(f) => Err(f),
            Ok((m0, array)) => {
                let m1 = m0.args_gathered(array, r as int, 0, argc);
                let m2 = m1.on(VmView { temp_roots: m1.vm.temp_roots.push(array), ..m1.vm });
                match m2.allocated(CLASS_MESSAGE, FMT_FIXED, 2) {
                    Err(f) => Err(f),
                    Ok((m3, msg)) => {
                        let array1 = m3.vm.temp_roots.last();
                        let v = VmView { temp_roots: m3.vm.temp_roots.drop_last(), ..m3.vm };
                        Ok((m3.on(v.with_field(msg, 0, selector).with_field(msg, 1, array1)), msg))
                    },
                }
            },
        }
    }

    /// A message without a method: `doesNotUnderstand:` is sent instead.
    #[verifier::opaque]
    pub open spec fn misunderstood(self, dest: u8, r: u8, selector: Value, argc: int) -> Result<
        Machine,
        Fault,
    > {
        let m0 = self.on(
            VmView {
                ctr: CountersView { dnu: self.vm.ctr.dnu.wrapping_add(1), ..self.vm.ctr },
                ..self.vm
            },
        );
        match m0.message_made(r, selector, argc) {
            Err(f) => Err(f),
            Ok((m, msg)) => {
                let receiver = m.get(r as int);
                let class = m.vm.class_no(receiver);
                let sel = m.vm.specials[SPECIAL_SEL_DOES_NOT_UNDERSTAND as int];
                let (vm, found) = m.vm.cached_lookup(class, sel);
                match found {
                    None => Err(
                        Fault::Fatal(vm.not_understood_text(selector, receiver, class), vm),
                    ),
                    Some(method) => m.on(vm).put(r + 1, msg).activated(method, r, dest, 1),
                }
            },
        }
    }

    /// The inline cache of a send site filled, and the compiled send site
    /// with it.
    pub open spec fn site_filled(self, site: Option<int>, class: u32, method: Value) -> Machine {
        match site {
            None => self,
            Some(base) => self.on(
                self.vm.with_field(
                    self.regs.sites,
                    base + SITE_CACHE_CLASS,
                    crate::value::tag(class as i64),
                ).with_stored(
                    self.regs.sites,
                    base + SITE_CACHE_METHOD,
                    method,
                ).send_site_patched(self.regs.method, (base / (SITE_STRIDE as int)) as u8, class, method),
            ),
        }
    }

    /// The method found for a send that missed its inline cache.
    #[verifier::opaque]
    pub open spec fn searched(self, class: u32, selector: Value, above: Option<Value>) -> (
        Machine,
        Option<Value>,
    ) {
        match above {
            Some(static_class) => (self, self.vm.lookup_above(static_class, selector)),
            None => {
                let (vm, found) = self.vm.cached_lookup(class, selector);
                (self.on(vm), found)
            },
        }
    }

    pub open spec fn send_counted(self) -> Machine {
        if self.vm.ctr.gate {
            self.on(
                VmView {
                    ctr: CountersView {
                        sends: self.vm.ctr.sends.wrapping_add(1),
                        ..self.vm.ctr
                    },
                    ..self.vm
                },
            )
        } else {
            self
        }
    }

    pub open spec fn miss_counted(self, site: Option<int>) -> Machine {
        if site is Some {
            self.on(
                VmView {
                    ctr: CountersView {
                        inline_cache_miss: self.vm.ctr.inline_cache_miss.wrapping_add(1),
                        ..self.vm.ctr
                    },
                    ..self.vm
                },
            )
        } else {
            self
        }
    }

    /// A send: the inline cache of its site, then the lookup, then the
    /// activation or `doesNotUnderstand:`.
    #[verifier::opaque]
    pub open spec fn sent(
        self,
        dest: u8,
        r: u8,
        selector: Value,
        argc: int,
        site: Option<int>,
        above: Option<Value>,
    ) -> Result<Machine, Fault> {
        let class = self.vm.class_no(self.get(r as int));
        let m0 = self.send_counted();
        let hit = site matches Some(base) && m0.vm.int_field(
            m0.regs.sites,
            base + SITE_CACHE_CLASS,
        ) == class;
        if hit {
            m0.activated(
                m0.vm.field(m0.regs.sites, site->0 + SITE_CACHE_METHOD),
                r,
                dest,
                argc,
            )
        } else {
            let (m, found) = m0.miss_counted(site).searched(class, selector, above);
            match found {
                None => m.misunderstood(dest, r, selector, argc),
                Some(method) => m.site_filled(site, class, method).activated(
                    method,
                    r,
                    dest,
                    argc,
                ),
            }
        }
    }

    /// Values `i..` of a list put in the frame slots from `at` on.
    pub open spec fn laid_out(self, at: int, vals: Seq<Value>, i: int) -> Machine
        decreases vals.len() - i,
    {
        if i >= vals.len() {
            self
        } else {
            self.put(at + i, vals[i]).laid_out(at, vals, i + 1)
        }
    }

    /// A receiver and arguments staged above the current frame's slots, a
    /// full control-word gap away, and sent.
    #[verifier::opaque]
    pub open spec fn staged(self, dest: u8, selector: Value, vals: Seq<Value>) -> Result<
        Machine,
        Fault,
    > {
        let fs = crate::vm::mh_frame_slots(self.vm.method_bits(self.regs.method));
        let r = fs + FRAME_RECEIVER;
        let m0 = self.on(
            VmView {
                ctr: CountersView {
                    sends_staged: self.vm.ctr.sends_staged.wrapping_add(1),
                    ..self.vm.ctr
                },
                ..self.vm
            },
        );
        if r + vals.len() > 250 {
            Err(Fault::Fatal("staging area exceeds frame-slot limit"@, m0.vm))
        } else {
            match m0.roomy(m0.regs.frame + FRAME_RECEIVER + r + vals.len()) {
                Err(f) => Err(f),
                Ok(m) => m.laid_out(r, vals, 0).sent(
                    dest,
                    r as u8,
                    selector,
                    vals.len() - 1,
                    None,
                    None,
                ),
            }
        }
    }

    /// The slow path of a specialized send: an ordinary send of its
    /// selector.
    #[verifier::opaque]
    pub open spec fn specialized_sent(self, which: int, dest: u8, vals: Seq<Value>) -> Result<
        Machine,
        Fault,
    > {
        let selector = self.vm.field(
            self.vm.specials[SPECIAL_SPECIALIZED_SELECTORS as int],
            which,
        );
        self.on(
            VmView {
                ctr: CountersView {
                    spec_fallthrough: crate::counters::bumped(
                        self.vm.ctr.spec_fallthrough,
                        which,
                    ),
                    ..self.vm.ctr
                },
                ..self.vm
            },
        ).staged(dest, selector, vals)
    }
}

/// The slot index of a send site.
pub open spec fn site_of(site: Option<u64>) -> Option<int> {
    match site {
        None => None,
        Some(b) => Some(b as int),
    }
}

impl Vm {
    fn show_selector(&self, selector: Value) -> (s: String)
        requires
            self.wf(),
        ensures
            s@ == self@.selector_shown(selector),
    {
        if selector.is_ptr() && self.heap.bytes_ok(selector) {
            utf8_lossy(&self.heap.bytes(selector.0 as usize))
        } else {
            selector.debug_text()
        }
    }

    fn not_understood_text(&self, selector: Value, receiver: Value, class: u32) -> (s: String)
        requires
            self.wf(),
        ensures
            s@ == self@.not_understood_text(selector, receiver, class),
    {
        let mut s = text("doesNotUnderstand: #");
        s.append(self.show_selector(selector).as_str());
        s.append(" (and no doesNotUnderstand: handler; receiver ");
        s.append(receiver.debug_text().as_str());
        s.append(", class index ");
        append_dec(&mut s, class as u64);
        s.append(", scavenges ");
        append_dec(&mut s, self.scavenge_count);
        s.append(")");
        s
    }

    /// Lookup through the global cache.
    pub fn lookup_cached(&mut self, class_index: u32, selector: Value) -> (r: Option<Value>)
        requires
            old(self).wf(),
        ensures
            final(self).wf(),
            (final(self)@, r) == old(self)@.cached_lookup(class_index, selector),
            final(self)@.temp_roots == old(self)@.temp_roots,
    {
        reveal(VmView::cached_lookup);
        let h: usize = ((class_index as u64).wrapping_mul(31).wrapping_add(selector.0 >> 3u64)
            % 4096) as usize;
        let e = self.lookup_cache[h];
        if e.class_index == class_index && e.selector == selector {
            return Some(e.method);
        }
        let (found, walked) = self.lookup_method_counted(class_index, selector);
        self.counters.global_cache_miss = self.counters.global_cache_miss.wrapping_add(1);
        self.counters.dict_walks = self.counters.dict_walks.wrapping_add(1);
        self.counters.dict_classes_walked = self.counters.dict_classes_walked.wrapping_add(walked);
        if let Some(method) = found {
            self.lookup_cache.set(h, LookupEntry { class_index, selector, method });
        }
        found
    }

    pub(crate) fn apply_outcome(
        &mut self,
        regs: &mut Regs,
        call: HostCall,
        outcome: PrimOutcome,
    ) -> (res: Result<(), VmError>)
        requires
            old(self).wf(),
            old(regs).ok(),
            call.argc <= 0xffff,
        ensures
            final(self).wf(),
            final(regs).ok(),
            crate::machine::ran(
                res,
                crate::machine::at(final(self)@, *final(regs)),
                crate::machine::at(old(self)@, *old(regs)).outcome_applied(call, outcome@),
            ),
            res is Ok ==> final(self)@.temp_roots.len() == old(self)@.temp_roots.len(),
            final(self)@.temp_roots.len() >= old(self)@.temp_roots.len(),
    {
        reveal(Machine::outcome_applied);
        match outcome {
            PrimOutcome::Value(v) => {
                self.put(regs, call.dest as u64, v);
                Ok(())
            },
            PrimOutcome::Control => Ok(()),
            PrimOutcome::Fail(c) => self.push_frame(
                regs,
                call.method,
                call.r,
                call.dest,
                call.argc,
                Some(c),
                0,
            ),
            PrimOutcome::Ask(req) => {
                self.request = Some(req);
                regs.pending = Pending::Host(call);
                Ok(())
            },
        }
    }

    pub(crate) fn primitive_of(&self, method: Value) -> (p: Option<u16>)
        requires
            self.wf(),
        ensures
            p == crate::vm::mh_primitive(self@.method_bits(method)),
    {
        let bits: i64 = self.int_field(method, METHOD_HEADER as u64);
        proof {
            crate::vm::lemma_mh_ranges(bits);
        }
        if (bits >> 24u32) & 1 != 0 {
            Some(((bits >> 12u32) & 0xfff) as u16)
        } else {
            None
        }
    }

    /// Activate a method whose receiver and arguments are in place.
    pub(crate) fn activate(
        &mut self,
        regs: &mut Regs,
        method: Value,
        r: u8,
        dest: u8,
        argc: u64,
    ) -> (res: Result<(), VmError>)
        requires
            old(self).wf(),
            old(regs).ok(),
            argc <= 0xffff,
        ensures
            final(self).wf(),
            final(regs).ok(),
            crate::machine::ran(
                res,
                crate::machine::at(final(self)@, *final(regs)),
                crate::machine::at(old(self)@, *old(regs)).activated(method, r, dest, argc as int),
            ),
            res is Ok ==> final(self)@.temp_roots.len() == old(self)@.temp_roots.len(),
            final(self)@.temp_roots.len() >= old(self)@.temp_roots.len(),
    {
        reveal(Machine::activated);
        match self.primitive_of(method) {
            None => {
                self.bump_invocation(method);
                self.push_frame(regs, method, r, dest, argc, None, 0)
            },
            Some(n) => {
                let outcome = self.run_primitive(regs, n, r, argc, dest)?;
                let call = HostCall { prim: n, method, r, dest, argc, inline: false };
                self.apply_outcome(regs, call, outcome)
            },
        }
    }

    fn gather_args(&mut self, regs: &Regs, array: Value, r: u64, n: u64)
        requires
            old(self).wf(),
            regs.ok(),
            r <= 255,
            n <= 0xffff,
        ensures
            final(self).wf(),
            crate::machine::at(final(self)@, *regs) == crate::machine::at(
                old(self)@,
                *regs,
            ).args_gathered(array, r as int, 0, n as int),
            final(self)@.temp_roots == old(self)@.temp_roots,
    {
        let mut i: u64 = 0;
        while i < n
            invariant
                i <= n <= 0xffff,
                r <= 255,
                regs.ok(),
                self.wf(),
                self@.temp_roots == old(self)@.temp_roots,
                crate::machine::at(old(self)@, *regs).args_gathered(
                    array,
                    r as int,
                    0,
                    n as int,
                ) == crate::machine::at(self@, *regs).args_gathered(
                    array,
                    r as int,
                    i as int,
                    n as int,
                ),
            decreases n - i,
        {
            let v = self.get(regs, r + 1 + i);
            self.set_field(array, i, v);
            i = i + 1;
        }
    }

    fn make_message(&mut self, regs: &mut Regs, r: u8, selector: Value, argc: u64) -> (res: Result<
        Value,
        VmError,
    >)
        requires
            old(self).wf(),
            old(regs).ok(),
            argc <= 0xffff,
        ensures
            final(self).wf(),
            final(regs).ok(),
            crate::machine::gave(
                res,
                crate::machine::at(final(self)@, *final(regs)),
                crate::machine::at(old(self)@, *old(regs)).message_made(r, selector, argc as int),
            ),
            res is Ok ==> final(self)@.temp_roots.len() == old(self)@.temp_roots.len(),
            final(self)@.temp_roots.len() >= old(self)@.temp_roots.len(),
    {
        reveal(Machine::message_made);
        let array = self.alloc_gc(regs, CLASS_ARRAY, FMT_PTRS, argc as usize)?;
        self.gather_args(regs, array, r as u64, argc);
        self.temp_roots.push(array);
        let msg = self.alloc_gc(regs, CLASS_MESSAGE, FMT_FIXED, 2)?;
        let n: usize = self.temp_roots.len();
        let array1 = self.temp_roots[n - 1];
        let ghost roots = self@.temp_roots;
        self.temp_roots.pop();
        assert(self@.temp_roots == roots.drop_last());
        self.set_field(msg, 0, selector);
        self.set_field(msg, 1, array1);
        Ok(msg)
    }

    pub(crate) fn does_not_understand(
        &mut self,
        regs: &mut Regs,
        dest: u8,
        r: u8,
        selector: Value,
        argc: u64,
    ) -> (res: Result<(), VmError>)
        requires
            old(self).wf(),
            old(regs).ok(),
            argc <= 0xffff,
        ensures
            final(self).wf(),
            final(regs).ok(),
            crate::machine::ran(
                res,
                crate::machine::at(final(self)@, *final(regs)),
                crate::machine::at(old(self)@, *old(regs)).misunderstood(dest, r, selector, argc as int),
            ),
            res is Ok ==> final(self)@.temp_roots.len() == old(self)@.temp_roots.len(),
            final(self)@.temp_roots.len() >= old(self)@.temp_roots.len(),
    {
        reveal(Machine::misunderstood);
        self.counters.dnu = self.counters.dnu.wrapping_add(1);
        let msg = self.make_message(regs, r, selector, argc)?;
        let receiver = self.get(regs, r as u64);
        let class: u32 = self.class_no(receiver);
        let sel = self.specials[SPECIAL_SEL_DOES_NOT_UNDERSTAND];
        match self.lookup_cached(class, sel) {
            None => {
                let s = self.not_understood_text(selector, receiver, class);
                fatal(s.as_str())
            },
            Some(method) => {
                self.put(regs, r as u64 + 1, msg);
                self.activate(regs, method, r, dest, 1)
            },
        }
    }

    fn count_send(&mut self)
        requires
            old(self).wf(),
        ensures
            final(self).wf(),
            forall|regs: Regs|
                #![trigger crate::machine::at(old(self)@, regs)]
                crate::machine::at(final(self)@, regs) == crate::machine::at(
                    old(self)@,
                    regs,
                ).send_counted(),
            final(self)@.temp_roots == old(self)@.temp_roots,
    {
        if self.counters.gate {
            self.counters.sends = self.counters.sends.wrapping_add(1);
        }
    }

    fn search(&mut self, regs: &Regs, class: u32, selector: Value, above: Option<Value>) -> (r: Option<
        Value,
    >)
        requires
            old(self).wf(),
        ensures
            final(self).wf(),
            (crate::machine::at(final(self)@, *regs), r) == crate::machine::at(
                old(self)@,
                *regs,
            ).searched(class, selector, above),
            final(self)@.temp_roots == old(self)@.temp_roots,
    {
        reveal(Machine::searched);
        match above {
            Some(static_class) => self.lookup_method_above(static_class, selector),
            None => self.lookup_cached(class, selector),
        }
    }

    fn fill_site(&mut self, regs: &Regs, site: Option<u64>, class: u32, method: Value)
        requires
            old(self).wf(),
            site matches Some(b) ==> b <= 0xffff,
        ensures
            final(self).wf(),
            crate::machine::at(final(self)@, *regs) == crate::machine::at(
                old(self)@,
                *regs,
            ).site_filled(site_of(site), class, method),
            final(self)@.temp_roots == old(self)@.temp_roots,
    {
        if let Some(base) = site {
            self.set_field(
                regs.sites,
                base + SITE_CACHE_CLASS as u64,
                Value::tagged(class as i64),
            );
            self.store_field(regs.sites, base + SITE_CACHE_METHOD as u64, method);
            proof {
                reveal(VmView::send_site_patched);
            }
            self.jit_patch_send_site(regs.method, (base / SITE_STRIDE as u64) as u8, class, method);
        }
    }

    /// The full send: inline cache, lookup, activation, or `doesNotUnderstand:`.
    pub fn do_send(
        &mut self,
        regs: &mut Regs,
        dest: u8,
        r: u8,
        selector: Value,
        argc: u64,
        site: Option<u64>,
        above: Option<Value>,
    ) -> (res: Result<(), VmError>)
        requires
            old(self).wf(),
            old(regs).ok(),
            argc <= 0xffff,
            site matches Some(b) ==> b <= 0xffff,
        ensures
            final(self).wf(),
            final(regs).ok(),
            crate::machine::ran(
                res,
                crate::machine::at(final(self)@, *final(regs)),
                crate::machine::at(old(self)@, *old(regs)).sent(dest, r, selector, argc as int, site_of(site), above),
            ),
            res is Ok ==> final(self)@.temp_roots.len() == old(self)@.temp_roots.len(),
            final(self)@.temp_roots.len() >= old(self)@.temp_roots.len(),
    {
        reveal(Machine::sent);
        let receiver = self.get(regs, r as u64);
        let class: u32 = self.class_no(receiver);
        self.count_send();
        if let Some(base) = site {
            let cached: i64 = self.int_field(regs.sites, base + SITE_CACHE_CLASS as u64);
            if cached == class as i64 {
                let method = self.field(regs.sites, base + SITE_CACHE_METHOD as u64);
                return self.activate(regs, method, r, dest, argc);
            }
            self.counters.inline_cache_miss = self.counters.inline_cache_miss.wrapping_add(1);
        }
        match self.search(regs, class, selector, above) {
            None => self.does_not_understand(regs, dest, r, selector, argc),
            Some(method) => {
                self.fill_site(regs, site, class, method);
                self.activate(regs, method, r, dest, argc)
            },
        }
    }

    fn lay_out(&mut self, regs: &Regs, at: u64, vals: &Vec<Value>)
        requires
            old(self).wf(),
            regs.ok(),
            at + vals@.len() <= 0xffff,
        ensures
            final(self).wf(),
            crate::machine::at(final(self)@, *regs) == crate::machine::at(
                old(self)@,
                *regs,
            ).laid_out(at as int, vals@, 0),
            final(self)@.temp_roots == old(self)@.temp_roots,
    {
        let mut i: usize = 0;
        while i < vals.len()
            invariant
                i <= vals@.len(),
                at + vals@.len() <= 0xffff,
                regs.ok(),
                self.wf(),
                self@.temp_roots == old(self)@.temp_roots,
                crate::machine::at(old(self)@, *regs).laid_out(at as int, vals@, 0)
                    == crate::machine::at(self@, *regs).laid_out(at as int, vals@, i as int),
            decreases vals@.len() - i,
        {
            self.put(regs, at + i as u64, vals[i]);
            i = i + 1;
        }
    }

    /// Stage a receiver and arguments above the current frame's slots, and send.
    pub(crate) fn send_staged(
        &mut self,
        regs: &mut Regs,
        dest: u8,
        selector: Value,
        vals: &Vec<Value>,
    ) -> (res: Result<(), VmError>)
        requires
            old(self).wf(),
            old(regs).ok(),
            vals@.len() > 0,
        ensures
            final(self).wf(),
            final(regs).ok(),
            crate::machine::ran(
                res,
                crate::machine::at(final(self)@, *final(regs)),
                crate::machine::at(old(self)@, *old(regs)).staged(dest, selector, vals@),
            ),
            res is Ok ==> final(self)@.temp_roots.len() == old(self)@.temp_roots.len(),
            final(self)@.temp_roots.len() >= old(self)@.temp_roots.len(),
    {
        reveal(Machine::staged);
        let fs: u64 = self.frame_slots_of(regs.method);
        let r: u64 = fs + FRAME_RECEIVER as u64;
        let n: u64 = vals.len() as u64;
        self.counters.sends_staged = self.counters.sends_staged.wrapping_add(1);
        if n > 250 || r + n > 250 {
            return fatal("staging area exceeds frame-slot limit");
        }
        self.make_room(regs, regs.frame + FRAME_RECEIVER as u64 + r + n)?;
        self.lay_out(regs, r, vals);
        self.do_send(regs, dest, r as u8, selector, n - 1, None, None)
    }

    pub(crate) fn spec_slow(
        &mut self,
        regs: &mut Regs,
        which: usize,
        dest: u8,
        vals: &Vec<Value>,
    ) -> (res: Result<(), VmError>)
        requires
            old(self).wf(),
            old(regs).ok(),
            vals@.len() > 0,
            which < SPECSEL_COUNT,
        ensures
            final(self).wf(),
            final(regs).ok(),
            crate::machine::ran(
                res,
                crate::machine::at(final(self)@, *final(regs)),
                crate::machine::at(old(self)@, *old(regs)).specialized_sent(which as int, dest, vals@),
            ),
            res is Ok ==> final(self)@.temp_roots.len() == old(self)@.temp_roots.len(),
            final(self)@.temp_roots.len() >= old(self)@.temp_roots.len(),
    {
        reveal(Machine::specialized_sent);
        let selector = self.field(self.specials[SPECIAL_SPECIALIZED_SELECTORS], which as u64);
        bump_at(&mut self.counters.spec_fallthrough, which);
        self.send_staged(regs, dest, selector, vals)
    }
}

} // verus!

//! Handles to a Lua state.
use crate::extra::{ExtraData, ExtraView, LUAI_MAXSTACK};
use crate::machine::{Machine, Slot};
use crate::protocol::{Instr, Op, Reply};
use crate::relations::lemma_droppable_elsewhere;
use crate::state::State;
use crate::value::{LuaRef, Value};
use vstd::prelude::*;

verus! {

/// Top level Lua struct which holds the Lua state itself.
pub struct Lua<F> {
    pub(crate) state: State<F>,
    pub(crate) main_state: usize,
    pub(crate) function_key: usize,
    pub(crate) ephemeral: bool,
}

/// What does not change in the life of a handle.
#[verifier::ext_equal]
pub struct Identity {
    pub main_state: usize,
    pub function_key: usize,
    pub ephemeral: bool,
}

impl Machine {
    /// The extra data, taken out, agrees with the auxiliary stack, on the top of which a value
    /// waits for a reference.
    pub open spec fn extra_fits(self, extra: ExtraView) -> bool {
        &&& extra == self.extra
        &&& self.lent
        &&& extra.wf()
        &&& extra.ref_thread == self.aux_thread
        &&& self.aux.len() == extra.ref_stack_max + 1
        &&& extra.ref_stack_size + 1 <= self.aux_limit
    }
}

/// From one handle to the next the driver is the same, and the state has not run out of anything,
/// unless for this cause. Where it has, the library has panicked.
pub open spec fn spent_only_if<F: Fn(Op) -> Reply>(
    cause: bool,
    pre: Lua<F>,
    post: Lua<F>,
) -> bool {
    &&& post.driver() == pre.driver()
    &&& post.spent() ==> {
        ||| pre.spent() && (pre.machine().panicked ==> post.machine().panicked)
        ||| pre.good() && post.machine().panicked && cause
    }
}

/// From one handle to the next the driver is the same, and the state has not run out of anything.
pub open spec fn steady<F: Fn(Op) -> Reply>(pre: Lua<F>, post: Lua<F>) -> bool {
    spent_only_if(false, pre, post)
}

impl<F: Fn(Op) -> Reply> Lua<F> {
    /// What does not change in the life of the handle.
    pub open(crate) spec fn identity(&self) -> Identity {
        Identity {
            main_state: self.main_state,
            function_key: self.function_key,
            ephemeral: self.ephemeral,
        }
    }

    /// The function that makes the calls.
    pub open(crate) spec fn driver(&self) -> F {
        self.state.driver()
    }

    /// The Lua machine, as the answers of the driver have shown it so far.
    pub open(crate) spec fn machine(&self) -> Machine {
        self.state.machine()
    }

    /// The driver has answered as a Lua machine does, the state could be set up, and its auxiliary
    /// stack and its registry could grow whenever they had to.
    pub open(crate) spec fn good(&self) -> bool {
        self.state.honest() && !self.state.machine().exhausted
    }

    /// The driver has answered as a Lua machine does, but the state has run out of something: it
    /// could not be set up, or its auxiliary stack or its registry could not grow when it had to.
    pub open(crate) spec fn spent(&self) -> bool {
        self.state.honest() && self.state.machine().exhausted
    }

    /// The handle is usable: between two operations the machine is at rest.
    pub open(crate) spec fn inv(&self) -> bool {
        &&& self.state.wf()
        &&& self.good() ==> {
            &&& self.machine().ready()
            &&& self.machine().main_state == self.main_state
            &&& self.machine().function_key == self.function_key
        }
    }

    /// The value belongs to this state and may be handed to it.
    pub open spec fn accepts(&self, value: Value) -> bool {
        &&& value.handle() matches Some(r) ==> r.main_state == self.identity().main_state
        &&& self.good() ==> self.machine().holds(value)
    }

    /// The stack can have so many values more. It cannot grow without limit, and methods that need
    /// slots panic where they cannot have them.
    pub open spec fn roomy(&self, n: int) -> bool {
        self.good() ==> self.machine().stack.len() + n <= LUAI_MAXSTACK
    }

    /// Reserves slots of the stack.
    pub fn assert_stack(&mut self, amount: usize)
        requires
            old(self).inv(),
            old(self).roomy(amount as int),
        ensures
            final(self).inv(),
            final(self).identity() == old(self).identity(),
            steady(*old(self), *final(self)),
            final(self).good() ==> {
                let m = old(self).machine();
                let post = final(self).machine();
                &&& old(self).good()
                &&& post == m.reserve(amount as int)
                &&& post.refs() == m.refs()
            },
    {
        self.state.assert_stack(amount);
        proof {
            if self.good() {
                let m = old(self).machine();
                assert(self.machine().refs() =~= m.refs());
                lemma_at_rest(m, self.machine());
            }
        }
    }

    /// Notes the height of the stack and reserves slots above it.
    pub(crate) fn enter(&mut self, amount: usize) -> (guard: usize)
        requires
            old(self).inv(),
            old(self).roomy(amount as int),
        ensures
            final(self).inv(),
            final(self).identity() == old(self).identity(),
            steady(*old(self), *final(self)),
            final(self).good() ==> {
                let m = old(self).machine();
                let post = final(self).machine();
                &&& old(self).good()
                &&& guard == m.stack.len()
                &&& post == m.reserve(amount as int)
                &&& post.refs() == m.refs()
            },
    {
        let guard = self.state.stack_guard();
        self.assert_stack(amount);
        guard
    }

    /// Cuts the stack back to the height that was noted.
    pub(crate) fn leave(&mut self, guard: usize)
        requires
            old(self).inv(),
        ensures
            final(self).inv(),
            final(self).identity() == old(self).identity(),
            steady(*old(self), *final(self)),
            final(self).good() ==> {
                let m = old(self).machine();
                let post = final(self).machine();
                &&& old(self).good()
                &&& guard <= m.stack.len() ==> post == Machine {
                    stack: m.stack.take(guard as int),
                    ..m
                }
                &&& post.refs() == m.refs()
            },
    {
        self.state.end_stack_guard(guard);
        proof {
            if self.good() {
                let m = old(self).machine();
                assert(guard == m.stack.len() ==> m.stack.take(guard as int) =~= m.stack);
                assert(self.machine().refs() =~= m.refs());
                lemma_at_rest(m, self.machine());
            }
        }
    }

    /// Takes the value on the top of the auxiliary stack for a reference, and gives its slot.
    fn ref_stack_pop(&mut self, extra: &mut ExtraData) -> (index: i32)
        requires
            old(self).state.wf(),
        ensures
            final(self).state.wf(),
            final(self).identity() == old(self).identity(),
            final(self).driver() == old(self).driver(),
            final(self).state.honest() ==> old(self).state.honest(),
            final(self).spent() ==> {
                ||| old(self).spent() && (old(self).machine().panicked
                    ==> final(self).machine().panicked)
                ||| old(self).good() && final(self).machine().panicked && old(extra)@.full()
            },
            final(self).good() ==> old(self).good(),
            final(self).good() && old(self).machine().extra_fits(old(extra)@) ==> {
                let m = old(self).machine();
                let post = final(self).machine();
                let before = old(extra)@;
                let after = final(extra)@;
                &&& post == Machine { aux: post.aux, aux_limit: post.aux_limit, ..m }
                &&& m.aux_limit <= post.aux_limit
                &&& after.wf()
                &&& after.ref_stack_size + 1 <= post.aux_limit
                &&& before.pins(after, index)
                &&& post.aux == if before.ref_free.len() > 0 {
                    m.aux.update(index - 1, m.aux.last()).drop_last()
                } else {
                    m.aux
                }
            },
    {
        match extra.ref_free.pop() {
            Some(free) => {
                self.state.run(Instr::AuxReplace(extra.ref_thread, free));
                proof {
                    let before = old(extra)@;
                    let after = extra@;
                    if before.wf() {
                        assert forall|i: int| 0 <= i < after.ref_free.len() implies 1
                            <= #[trigger] after.ref_free[i] <= after.ref_stack_max by {
                            assert(after.ref_free[i] == before.ref_free[i]);
                        }
                        assert(1 <= before.ref_free[before.ref_free.len() - 1]);
                    }
                }
                free
            },
            None => {
                if extra.ref_stack_max >= extra.ref_stack_size {
                    // It is a user error to create enough references to exhaust the Lua max stack
                    // size for the auxiliary thread.
                    if self.state.aux_check_stack(extra.ref_thread, extra.ref_stack_size) == 0 {
                        self.state.panic(
                            "cannot create a Lua reference, out of auxiliary stack space",
                        );
                    }
                    match extra.ref_stack_size.checked_mul(2) {
                        Some(size) => {
                            extra.ref_stack_size = size;
                        },
                        None => {
                            self.state.panic("attempt to multiply with overflow");
                        },
                    }
                }
                match extra.ref_stack_max.checked_add(1) {
                    Some(max) => {
                        extra.ref_stack_max = max;
                    },
                    None => {
                        self.state.panic("attempt to add with overflow");
                    },
                }
                extra.ref_stack_max
            },
        }
    }

    /// Pops the topmost element of the stack and stores a reference to it. This pins the object,
    /// preventing garbage collection until the returned `LuaRef` is dropped.
    ///
    /// References are stored in the stack of a specially created auxiliary thread that exists only
    /// to store reference values.
    ///
    /// Where no slot is free and the stack of the auxiliary thread cannot grow, it panics, and never
    /// for want of a slot otherwise.
    pub fn pop_ref(&mut self) -> (r: LuaRef)
        requires
            old(self).inv(),
            old(self).good() ==> old(self).machine().stack.len() > 0,
        ensures
            final(self).inv(),
            final(self).identity() == old(self).identity(),
            spent_only_if(old(self).machine().extra.full(), *old(self), *final(self)),
            r.main_state == old(self).identity().main_state,
            final(self).good() ==> {
                let m = old(self).machine();
                let post = final(self).machine();
                &&& old(self).good()
                &&& post.agrees(m.pop(1))
                &&& m.extra.pins(post.extra, r.index)
                &&& !m.live(r.index as int)
                &&& post.refs() == m.refs().insert(r.index as int, m.top(0))
            },
    {
        let mut extra = self.state.extra_data();
        self.state.run(Instr::MoveToAux(extra.ref_thread));
        let ghost before = extra@;
        let index = self.ref_stack_pop(&mut extra);
        self.state.set_extra_data(extra);
        proof {
            if self.good() {
                let m = old(self).machine();
                let post = self.machine();
                lemma_pin(m, post, before, index, m.top(0));
            }
        }
        LuaRef { main_state: self.main_state, index }
    }

    /// Pushes a value onto the stack that a reference points to, uses 1 stack space, does not
    /// reserve it.
    pub fn push_ref(&mut self, lref: &LuaRef)
        requires
            old(self).inv(),
            lref.main_state == old(self).identity().main_state,
            old(self).good() ==> old(self).machine().live(lref.index as int)
                && old(self).machine().stack.len() < old(self).machine().limit,
        ensures
            final(self).inv(),
            final(self).identity() == old(self).identity(),
            steady(*old(self), *final(self)),
            final(self).good() ==> {
                let m = old(self).machine();
                &&& old(self).good()
                &&& final(self).machine() == m.push(m.pinned(lref.index as int))
            },
    {
        let extra = self.state.extra_data();
        self.state.run(Instr::AuxPushValue(extra.ref_thread, lref.index));
        self.state.run(Instr::MoveFromAux(extra.ref_thread));
        self.state.set_extra_data(extra);
        proof {
            if self.good() {
                assert(self.machine().aux =~= old(self).machine().aux);
                lemma_at_rest(old(self).machine(), self.machine());
            }
        }
    }

    /// Makes another reference to what a reference points to.
    pub fn clone_ref(&mut self, lref: &LuaRef) -> (r: LuaRef)
        requires
            old(self).inv(),
            old(self).good() ==> old(self).machine().live(lref.index as int),
        ensures
            final(self).inv(),
            final(self).identity() == old(self).identity(),
            spent_only_if(old(self).machine().extra.full(), *old(self), *final(self)),
            r.main_state == old(self).identity().main_state,
            final(self).good() ==> {
                let m = old(self).machine();
                let post = final(self).machine();
                &&& old(self).good()
                &&& post.agrees(m)
                &&& m.extra.pins(post.extra, r.index)
                &&& !m.live(r.index as int)
                &&& post.refs() == m.refs().insert(
                    r.index as int,
                    m.pinned(lref.index as int),
                )
            },
    {
        let mut extra = self.state.extra_data();
        self.state.run(Instr::AuxPushValue(extra.ref_thread, lref.index));
        let ghost before = extra@;
        let index = self.ref_stack_pop(&mut extra);
        self.state.set_extra_data(extra);
        proof {
            if self.good() {
                let m = old(self).machine();
                let post = self.machine();
                lemma_pin(m, post, before, index, m.pinned(lref.index as int));
            }
        }
        LuaRef { main_state: self.main_state, index }
    }

    /// Gives a reference up: its slot no longer keeps anything alive, and can be used again.
    pub fn drop_ref(&mut self, lref: LuaRef)
        requires
            old(self).inv(),
            old(self).good() ==> old(self).machine().live(lref.index as int),
        ensures
            final(self).inv(),
            final(self).identity() == old(self).identity(),
            steady(*old(self), *final(self)),
            final(self).good() ==> {
                let m = old(self).machine();
                let post = final(self).machine();
                &&& old(self).good()
                &&& post == Machine {
                    aux: m.aux.update(lref.index - 1, Slot::Nil),
                    extra: m.extra.unpinned(lref.index),
                    ..m
                }
                &&& post.refs() == m.refs().remove(lref.index as int)
            },
    {
        let mut extra = self.state.extra_data();
        self.state.run(Instr::AuxPushNil(extra.ref_thread));
        self.state.run(Instr::AuxReplace(extra.ref_thread, lref.index));
        extra.ref_free.push(lref.index);
        self.state.set_extra_data(extra);
        proof {
            if self.good() {
                let m = old(self).machine();
                lemma_unpin(m, self.machine(), lref.index);
                assert(self.machine().aux =~= m.aux.update(lref.index - 1, Slot::Nil));
            }
        }
    }
}

/// A machine stays at rest while its stack stays within its limit.
pub(crate) proof fn lemma_at_rest(m: Machine, post: Machine)
    requires
        m.ready(),
        post == (Machine { stack: post.stack, limit: post.limit, ..m }),
        post.stack.len() <= post.limit <= LUAI_MAXSTACK,
    ensures
        post.ready(),
        post.refs() == m.refs(),
{
    assert(post.refs() =~= m.refs());
    lemma_droppable_elsewhere(m, post, m.unref);
    lemma_types_elsewhere(m, post);
}

/// The places of the known types of userdata depend on the registry and on what was given out.
pub(crate) proof fn lemma_types_elsewhere(m: Machine, post: Machine)
    requires
        m.types_stored(),
        post.extra.registered_userdata == m.extra.registered_userdata,
        post.heap.registry == m.heap.registry,
        post.heap.allotted == m.heap.allotted,
        m.heap.tables.dom().subset_of(post.heap.tables.dom()),
    ensures
        post.types_stored(),
{
    let types = m.extra.registered_userdata;
    assert forall|kind: u64| #[trigger] types.contains_key(kind) implies {
        &&& post.heap.allotted.contains(types[kind])
        &&& post.type_table(kind) is Table
        &&& post.heap.tables.contains_key(post.type_table(kind)->Table_0)
    } by {
        assert(post.type_table(kind) == m.type_table(kind));
        assert(m.heap.tables.dom().contains(m.type_table(kind)->Table_0));
    }
    assert forall|kind: u64, other: u64| #[trigger]
        types.contains_key(kind) && #[trigger] types.contains_key(other) && kind != other implies {
        &&& types[kind] != types[other]
        &&& post.type_table(kind) != post.type_table(other)
    } by {
        assert(post.type_table(kind) == m.type_table(kind));
        assert(post.type_table(other) == m.type_table(other));
    }
}

/// A value was pinned: the machine is at rest again, with one reference more.
proof fn lemma_pin(m: Machine, post: Machine, before: ExtraView, index: i32, slot: Slot)
    requires
        m.ready(),
        before == m.extra,
        post == (Machine {
            stack: post.stack,
            aux: post.aux,
            aux_limit: post.aux_limit,
            extra: post.extra,
            ..m
        }),
        post.stack.len() <= m.stack.len(),
        m.aux_limit <= post.aux_limit,
        post.extra.wf(),
        post.extra.ref_stack_size + 1 <= post.aux_limit,
        before.pins(post.extra, index),
        post.aux == if before.ref_free.len() > 0 {
            m.aux.push(slot).update(index - 1, slot).drop_last()
        } else {
            m.aux.push(slot)
        },
    ensures
        post.ready(),
        !m.live(index as int),
        post.refs() == m.refs().insert(index as int, slot),
{
    let free = index;
    let index = index as int;
    lemma_droppable_elsewhere(m, post, m.unref);
    lemma_types_elsewhere(m, post);
    if before.ref_free.len() > 0 {
        let last = before.ref_free.len() - 1;
        assert(1 <= before.ref_free[last] <= before.ref_stack_max);
        assert(before.ref_free.contains(free));
        assert forall|i: int|
            1 <= i <= m.extra.ref_stack_max && i != index implies post.extra.live(i)
            == m.extra.live(i) && post.aux[i - 1] == m.aux[i - 1] by {
            if before.ref_free.contains(i as i32) {
                let k = choose|k: int|
                    0 <= k < before.ref_free.len() && before.ref_free[k] == i as i32;
                assert(before.ref_free.drop_last()[k] == i as i32);
            }
            if post.extra.ref_free.contains(i as i32) {
                let k = choose|k: int|
                    0 <= k < post.extra.ref_free.len() && post.extra.ref_free[k] == i as i32;
                assert(before.ref_free[k] == i as i32);
            }
        }
        assert(post.extra.live(index)) by {
            if post.extra.ref_free.contains(index as i32) {
                let k = choose|k: int|
                    0 <= k < post.extra.ref_free.len() && post.extra.ref_free[k] == index as i32;
                assert(before.ref_free[k] == before.ref_free[last]);
            }
        }
        assert(post.aux[index - 1] == slot);
        assert forall|i: int|
            0 <= i < post.aux.len() && !post.extra.live(i + 1) implies #[trigger] post.aux[i]
            == Slot::Nil by {
            assert(post.aux[i] == m.aux[i]);
            assert(m.aux[i] == Slot::Nil);
        }
    } else {
        assert forall|i: int| 1 <= i <= m.extra.ref_stack_max implies post.extra.live(i)
            == m.extra.live(i)
            && post.aux[i - 1] == m.aux[i - 1] by {
        }
        assert(post.aux[index - 1] == slot);
    }
    assert(post.refs() =~= m.refs().insert(index, slot));
}

/// A reference was given up: the machine is at rest again, without it.
proof fn lemma_unpin(m: Machine, post: Machine, index: i32)
    requires
        m.ready(),
        m.live(index as int),
        post == (Machine { aux: post.aux, extra: post.extra, ..m }),
        post.aux == m.aux.push(Slot::Nil).update(index - 1, Slot::Nil).drop_last(),
        post.extra == (ExtraView { ref_free: m.extra.ref_free.push(index), ..m.extra }),
    ensures
        post.ready(),
        post.refs() == m.refs().remove(index as int),
{
    let free = m.extra.ref_free;
    lemma_droppable_elsewhere(m, post, m.unref);
    lemma_types_elsewhere(m, post);
    assert forall|i: int| 1 <= i <= m.extra.ref_stack_max && i != index implies post.extra.live(i)
        == m.extra.live(i) && post.aux[i - 1] == m.aux[i - 1] by {
        if free.contains(i as i32) {
            let k = choose|k: int| 0 <= k < free.len() && free[k] == i as i32;
            assert(free.push(index)[k] == i as i32);
        }
        if free.push(index).contains(i as i32) {
            let k = choose|k: int| 0 <= k < free.len() + 1 && free.push(index)[k] == i as i32;
            assert(free[k] == i as i32);
        }
    }
    assert(free.push(index)[free.len() as int] == index);
    assert(!post.extra.live(index as int));
    assert(post.aux[index - 1] == Slot::Nil);
    assert forall|i: int| 0 <= i < post.extra.ref_free.len() implies 1
        <= #[trigger] post.extra.ref_free[i] <= post.extra.ref_stack_max by {
        if i < free.len() {
            assert(post.extra.ref_free[i] == free[i]);
        }
    }
    assert forall|i: int|
        0 <= i < post.aux.len() && !post.extra.live(i + 1) implies #[trigger] post.aux[i]
        == Slot::Nil by {
        if i + 1 != index {
            assert(post.aux[i] == m.aux[i]);
            assert(m.aux[i] == Slot::Nil);
        }
    }
    assert(post.refs() =~= m.refs().remove(index as int));
}

} // verus!

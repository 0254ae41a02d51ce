//! The functions that make new Lua objects.
use crate::lua::{Lua, spent_only_if};
use crate::machine::{Attempt, Heap, LUA_RIDX_GLOBALS, Machine, Slot, protected};
use crate::protocol::{Instr, Op, Reply};
use crate::relations::lemma_cut;
use crate::value::{Error, Function, LuaRef, LuaString, Table, Thread, Value};
use vstd::prelude::*;
use vstd::slice::slice_to_vec;

verus! {

impl<F: Fn(Op) -> Reply> Lua<F> {
    /// Create and return an interned Lua string. Lua strings can be arbitrary bytes, including
    /// embedded nulls.
    pub fn create_string(&mut self, s: &[u8]) -> (r: Result<LuaString, Error>)
        requires
            old(self).inv(),
            old(self).roomy(4),
        ensures
            final(self).inv(),
            final(self).identity() == old(self).identity(),
            spent_only_if(old(self).machine().extra.full(), *old(self), *final(self)),
            r matches Ok(s) ==> final(self).accepts(Value::String(s)),
            final(self).good() ==> {
                let m = old(self).machine();
                let post = final(self).machine();
                &&& old(self).good()
                &&& match r {
                    Ok(string) => post.agrees(m) && post.hands_out(
                        m,
                        Value::String(string),
                        Slot::Str(s@),
                    ),
                    Err(e) => post.failed_with(m, Attempt::PushString(s@), e),
                }
            },
    {
        let guard = self.enter(4);
        let ghost entered = self.machine();
        let r = match self.state.push_string(slice_to_vec(s)) {
            Err(e) => Err(e),
            Ok(()) => {
                assert(self.good() ==> self.machine().refs() =~= entered.refs());
                Ok(LuaString(self.pop_ref()))
            },
        };
        let ghost left = self.machine();
        self.leave(guard);
        proof {
            if self.good() {
                let m = old(self).machine();
                lemma_cut(left.stack, m.stack);
                assert(r is Err ==> left.refs() =~= m.refs());
                lemma_handle(self.machine(), r is Ok, (r->Ok_0).0, Slot::Str(s@), m);
            }
        }
        r
    }

    /// Creates and returns a new table, which is empty and has no metatable.
    pub fn create_table(&mut self) -> (r: Result<Table, Error>)
        requires
            old(self).inv(),
            old(self).roomy(3),
        ensures
            final(self).inv(),
            final(self).identity() == old(self).identity(),
            spent_only_if(old(self).machine().extra.full(), *old(self), *final(self)),
            r matches Ok(t) ==> final(self).accepts(Value::Table(t)),
            final(self).good() ==> {
                let m = old(self).machine();
                let post = final(self).machine();
                &&& old(self).good()
                &&& match r {
                    Ok(t) => {
                        &&& post.agrees(
                            Machine { heap: m.heap.with_table(Map::empty()), ..m },
                        )
                        &&& post.hands_out(m, Value::Table(t), Slot::Table(m.heap.next))
                        &&& !post.heap.metatables.contains_key(Slot::Table(m.heap.next))
                    },
                    Err(e) => post.failed_with(m, protected(Seq::empty(), Instr::NewTable), e),
                }
            },
    {
        let guard = self.enter(3);
        let ghost entered = self.machine();
        let r = match self.state.protect_one(0, Instr::NewTable) {
            Err(e) => {
                proof {
                    assert(entered.pop(0).stack =~= entered.stack);
                    assert(entered.top_slots(0) =~= Seq::empty());
                }
                Err(e)
            },
            Ok(()) => {
                assert(self.good() ==> self.machine().refs() =~= entered.refs());
                Ok(Table(self.pop_ref()))
            },
        };
        let ghost left = self.machine();
        self.leave(guard);
        proof {
            if self.good() {
                let m = old(self).machine();
                lemma_cut(left.stack, m.stack);
                assert(r is Err ==> left.refs() =~= m.refs());
                lemma_handle(
                    self.machine(),
                    r is Ok,
                    (r->Ok_0).0,
                    Slot::Table(m.heap.next),
                    m,
                );
            }
        }
        r
    }

    /// Returns a handle to the global environment.
    pub fn globals(&mut self) -> (r: Table)
        requires
            old(self).inv(),
            old(self).roomy(2),
        ensures
            final(self).inv(),
            final(self).identity() == old(self).identity(),
            spent_only_if(old(self).machine().extra.full(), *old(self), *final(self)),
            final(self).accepts(Value::Table(r)),
            final(self).good() ==> {
                let m = old(self).machine();
                let post = final(self).machine();
                &&& old(self).good()
                &&& post.agrees(m)
                &&& post.hands_out(m, Value::Table(r), m.heap.globals())
            },
    {
        let guard = self.enter(2);
        let ghost entered = self.machine();
        self.state.run(Instr::RawGetI(LUA_RIDX_GLOBALS));
        assert(self.good() ==> self.machine().refs() =~= entered.refs());
        let r = Table(self.pop_ref());
        let ghost left = self.machine();
        self.leave(guard);
        proof {
            if self.good() {
                let m = old(self).machine();
                lemma_cut(left.stack, m.stack);
                lemma_handle(self.machine(), true, r.0, m.heap.globals(), m);
            }
        }
        r
    }

    /// Wraps a Lua function into a new thread (or coroutine).
    ///
    /// Equivalent to `coroutine.create`.
    pub fn create_thread(&mut self, func: Function) -> (r: Result<Thread, Error>)
        requires
            old(self).inv(),
            old(self).roomy(2),
            old(self).accepts(Value::Function(func)),
        ensures
            final(self).inv(),
            final(self).identity() == old(self).identity(),
            spent_only_if(old(self).machine().extra.full(), *old(self), *final(self)),
            r matches Ok(t) ==> final(self).accepts(Value::Thread(t)),
            final(self).good() ==> {
                let m = old(self).machine();
                let post = final(self).machine();
                let id = m.heap.next;
                let body = m.slot_of(Value::Function(func));
                &&& old(self).good()
                &&& match r {
                    Ok(t) => {
                        &&& post.agrees(
                            Machine {
                                heap: Heap {
                                    threads: m.heap.threads.insert(id, seq![body]),
                                    handles: post.heap.handles,
                                    ..m.heap.with_thread()
                                },
                                ..m
                            },
                        )
                        &&& exists|handle: usize|
                            !m.heap.handles.contains_key(handle) && post.heap.handles
                                == #[trigger] m.heap.handles.insert(handle, id)
                        &&& !m.live(t.0.index as int)
                        &&& post.slot_of(Value::Thread(t)) == Slot::Thread(id)
                        &&& post.refs() == m.refs().insert(
                            t.0.index as int,
                            Slot::Thread(id),
                        ).remove(func.0.index as int)
                    },
                    Err(e) => {
                        &&& post.agrees(m.fault(Attempt::NewThread, e@))
                        &&& post.refs() == m.refs().remove(func.0.index as int)
                    },
                }
            },
    {
        let guard = self.enter(2);
        let ghost entered = self.machine();
        let r = match self.state.new_thread() {
            Err(e) => Err(e),
            Ok(thread_state) => {
                assert(self.good() ==> self.machine().refs() =~= entered.refs());
                self.push_ref(&func.0);
                let ghost pushed = self.machine();
                self.state.run(Instr::MoveToThread(thread_state));
                proof {
                    if self.good() {
                        assert(self.machine().refs() =~= pushed.refs());
                        assert(pushed.refs() =~= entered.refs());
                        assert(Seq::<Slot>::empty().push(pushed.top(0)) =~= seq![pushed.top(0)]);
                        assert(self.machine().stack =~= entered.stack.push(
                            Slot::Thread(entered.heap.next),
                        ));
                        assert(self.machine().heap.threads =~= entered.heap.threads.insert(
                            entered.heap.next,
                            seq![pushed.top(0)],
                        ));
                    }
                }
                Ok(Thread(self.pop_ref()))
            },
        };
        let ghost left = self.machine();
        self.leave(guard);
        proof {
            if self.good() {
                let m = old(self).machine();
                lemma_cut(left.stack, m.stack);
                assert(r is Err ==> left.refs() =~= m.refs());
                assert(m.refs().contains_key(func.0.index as int));
                assert(self.machine().refs().contains_key(func.0.index as int));
            }
        }
        let ghost before_drop = self.machine();
        self.drop_ref(func.0);
        proof {
            if self.good() && r is Ok {
                let index = (r->Ok_0).0.index as int;
                assert(self.machine().refs().contains_key(index));
                assert(self.machine().refs()[index] == before_drop.refs()[index]);
            }
        }
        r
    }
}

/// A new handle stands for what it was made for.
proof fn lemma_handle(post: Machine, made: bool, r: LuaRef, slot: Slot, m: Machine)
    ensures
        made && post.refs() == m.refs().insert(r.index as int, slot) ==> post.live(r.index as int)
            && post.pinned(r.index as int) == slot,
{
    if made && post.refs() == m.refs().insert(r.index as int, slot) {
        assert(post.refs().contains_key(r.index as int));
        assert(post.refs()[r.index as int] == slot);
    }
}

} // verus!

//! Rust functions as Lua functions.
use crate::answers::{returned, slots_held};
use crate::extra::LUA_MINSTACK;
use crate::lua::{Lua, lemma_at_rest, lemma_types_elsewhere, spent_only_if, steady};
use crate::machine::{
    Attempt, Closure, Fault, Heap, LUA_TNIL, Machine, Slot, handle_count, protected, table_get,
};
use crate::protocol::{Instr, Op, Reply, Routine};
use crate::relations::{
    lemma_called, lemma_cut, lemma_droppable_elsewhere, lemma_more_handles, lemma_one_less_held,
    lemma_one_more_held, lemma_outlives, lemma_same_rest, without,
};
use crate::value::{Callback, Error, ErrorView, Function, MultiValue, Value};
use vstd::map_lib::lemma_submap_of_trans;
use vstd::prelude::*;

verus! {

/// None of the references that these values hold is among these.
pub open spec fn apart(values: Seq<Value>, refs: Map<int, Slot>) -> bool {
    forall|i: int|
        0 <= i < values.len() && (#[trigger] values[i]).handle() is Some ==> !refs.contains_key(
            values[i].handle()->0.index as int,
        )
}

impl Heap {
    /// With a new userdata that holds a callback and has the metatable of callbacks.
    pub open spec fn with_boxed_callback(self, callback: Callback, function_key: usize) -> Heap {
        self.with_callback(callback).with_metatable(
            Slot::UserData(self.next),
            table_get(self.registry, Slot::LightUserData(function_key)),
        )
    }

    /// With a new function that runs a callback, which is boxed in the object before it.
    pub open spec fn with_rust_function(self, callback: Callback, function_key: usize) -> Heap {
        self.with_boxed_callback(callback, function_key).with_closure(
            Closure { routine: Routine::CallCallback, upvalue: Slot::UserData(self.next) },
        )
    }
}

/// To make a function that runs the callback which this userdata holds.
pub open spec fn closing(boxed: Slot) -> Attempt {
    protected(seq![boxed], Instr::PushCClosure(Routine::CallCallback))
}

/// The slots that it takes to push so many values.
pub open spec fn room_for(n: nat) -> usize {
    if n < usize::MAX {
        (n + 1) as usize
    } else {
        usize::MAX
    }
}

impl Machine {
    /// The step from an earlier machine to this one made a function that runs this callback; or it
    /// failed with an error when it was to box the callback, or to make the function after it had
    /// boxed the callback.
    pub open spec fn made_function(
        self,
        earlier: Machine,
        callback: Callback,
        r: Result<Function, Error>,
    ) -> bool {
        let key = earlier.function_key;
        match r {
            Ok(f) => {
                &&& self.agrees(
                    Machine { heap: earlier.heap.with_rust_function(callback, key), ..earlier },
                )
                &&& self.hands_out(
                    earlier,
                    Value::Function(f),
                    Slot::Function(earlier.heap.next + 1),
                )
            },
            Err(e) => {
                &&& self.refs() == earlier.refs()
                &&& {
                    ||| self.agrees(earlier.fault(Attempt::PushCallback(callback), e@))
                    ||| self.agrees(
                        Machine {
                            heap: earlier.heap.with_boxed_callback(callback, key),
                            ..earlier.fault(closing(Slot::UserData(earlier.heap.next)), e@)
                        },
                    )
                }
            },
        }
    }

    /// The arguments were taken from the stack, the callback of the running function was called with
    /// them and returned these values or failed, and then what it returned was put on the stack, or
    /// could not be. The machine is what the callback has left but for that.
    pub open spec fn ran_callback_via(
        self,
        earlier: Machine,
        popped: Machine,
        args: Seq<Value>,
        got: Option<Seq<Value>>,
        r: Result<usize, Error>,
    ) -> bool {
        let called = popped.called(earlier.upvalue, args, got);
        &&& popped.agrees(Machine { stack: Seq::empty(), ..earlier })
        &&& popped.holds_all(args)
        &&& popped.slots_of(args) == earlier.stack
        &&& match got {
            Some(values) => match r {
                Ok(n) => {
                    &&& n == values.len()
                    &&& self.agrees(Machine { stack: called.slots_of(values), ..called })
                },
                Err(e) => self.agrees(
                    called.fault(Attempt::CheckStack(room_for(values.len())), e@),
                ),
            },
            None => {
                &&& r matches Err(e)
                &&& self.agrees(
                    called.fault(Attempt::Call(earlier.upvalue, earlier.stack), e@),
                )
            },
        }
    }

    /// Of the arguments on the stack of an earlier machine these have been taken, and at least one is
    /// still there.
    pub open spec fn taking(self, earlier: Machine, taken: Seq<Value>) -> bool {
        let left = earlier.stack.len() - taken.len();
        &&& left > 0
        &&& self.agrees(Machine { stack: earlier.stack.take(left), ..earlier })
        &&& self.holds_all(taken)
        &&& self.slots_of(taken) == earlier.stack.skip(left)
        &&& self.refs().len() == earlier.refs().len() + handle_count(taken)
    }

    /// There is no slot for the next argument when some have been taken from the stack.
    pub open spec fn short_of_slots(self) -> bool {
        exists|cur: Machine, taken: Seq<Value>| #[trigger]
            cur.taking(self, taken) && cur.extra.full()
    }

    /// The callback of the running function was run, its arguments being all that was on the stack.
    /// What it returned is on the stack now; or there is an error, its own, or, where it returned
    /// something, that the stack has no room for that. No references are left to arguments or
    /// results.
    pub open spec fn ran_callback(self, earlier: Machine, r: Result<usize, Error>) -> bool {
        &&& exists|popped: Machine, args: Seq<Value>, got: Option<Seq<Value>>| #[trigger]
            self.ran_callback_via(earlier, popped, args, got, r)
        &&& earlier.outlives(self)
        &&& self.calls.len() == earlier.calls.len() + 1
        &&& self.calls.drop_last() == earlier.calls
        &&& self.calls.last().target == earlier.upvalue
        &&& self.calls.last().args == earlier.stack
        &&& earlier.refs().submap_of(self.refs())
        &&& self.settled(earlier, 0)
        &&& match r {
            Ok(n) => {
                &&& self.calls.last().results == Some(self.stack)
                &&& n == self.stack.len()
                &&& self.faults == earlier.faults
            },
            Err(e) => {
                let attempt = match self.calls.last().results {
                    Some(results) => Attempt::CheckStack(room_for(results.len())),
                    None => Attempt::Call(earlier.upvalue, earlier.stack),
                };
                &&& self.stack.len() == 0
                &&& self.faults == earlier.faults.push(Fault { attempt, error: e@ })
            },
        }
    }
}

impl<F: Fn(Op) -> Reply> Lua<F> {
    /// Pushes a userdata that holds a callback and has the metatable of callbacks.
    fn push_boxed_callback(&mut self, func: Callback) -> (r: Result<(), Error>)
        requires
            old(self).inv(),
            old(self).good() ==> old(self).machine().stack.len() + 2 <= old(self).machine().limit,
        ensures
            final(self).inv(),
            final(self).identity() == old(self).identity(),
            steady(*old(self), *final(self)),
            final(self).good() ==> {
                let m = old(self).machine();
                let post = final(self).machine();
                &&& old(self).good()
                &&& post.refs() == m.refs()
                &&& match r {
                    Ok(_) => post == Machine {
                        heap: m.heap.with_boxed_callback(func, m.function_key),
                        ..m.push(Slot::UserData(m.heap.next))
                    },
                    Err(e) => post == m.fault(Attempt::PushCallback(func), e@),
                }
            },
    {
        let ghost m = self.machine();
        match self.state.push_callback(func) {
            Err(e) => {
                proof {
                    if self.good() {
                        lemma_same_rest(m, self.machine());
                    }
                }
                Err(e)
            },
            Ok(()) => {
                self.state.run(Instr::PushLightUserData(self.function_key));
                self.state.run(Instr::RawGetRegistry);
                self.state.run(Instr::SetMetatable);
                proof {
                    if self.good() {
                        let post = self.machine();
                        assert(post.stack =~= m.stack.push(Slot::UserData(m.heap.next)));
                        lemma_new_objects(m, post);
                    }
                }
                Ok(())
            },
        }
    }

    /// Wraps a callback into a Lua function.
    pub(crate) fn create_callback(&mut self, func: Callback) -> (r: Result<Function, Error>)
        requires
            old(self).inv(),
            old(self).roomy(4),
        ensures
            final(self).inv(),
            final(self).identity() == old(self).identity(),
            spent_only_if(old(self).machine().extra.full(), *old(self), *final(self)),
            r matches Ok(f) ==> final(self).accepts(Value::Function(f)),
            final(self).good() ==> old(self).good() && final(self).machine().made_function(
                old(self).machine(),
                func,
                r,
            ),
    {
        let guard = self.enter(4);
        let ghost entered = self.machine();
        let r = match self.push_boxed_callback(func) {
            Err(e) => Err(e),
            Ok(()) => {
                match self.state.protect_one(1, Instr::PushCClosure(Routine::CallCallback)) {
                    Err(e) => {
                        proof {
                            if self.good() {
                                let boxed = Slot::UserData(entered.heap.next);
                                assert(self.machine().stack =~= entered.stack);
                                assert(entered.push(boxed).top_slots(1) =~= seq![boxed]);
                                lemma_new_objects(entered, self.machine());
                            }
                        }
                        Err(e)
                    },
                    Ok(()) => {
                        proof {
                            if self.good() {
                                assert(self.machine().pop(1).stack =~= entered.stack);
                                lemma_new_objects(entered, self.machine());
                            }
                        }
                        Ok(Function(self.pop_ref()))
                    },
                }
            },
        };
        let ghost left = self.machine();
        self.leave(guard);
        proof {
            if self.good() {
                let m = old(self).machine();
                lemma_cut(left.stack, m.stack);
                if r is Ok {
                    let index = (r->Ok_0).0.index as int;
                    assert(self.machine().refs().contains_key(index));
                    assert(self.machine().refs()[index] == Slot::Function(m.heap.next + 1));
                }
            }
        }
        r
    }

    /// Wraps a Rust function or closure, given by its number, creating a callable Lua function
    /// handle to it.
    ///
    /// If the function returns an error, it is raised as a Lua error, which can be caught using
    /// `(x)pcall` or bubble up to the Rust code that invoked the Lua code. If it returns values,
    /// these are the results of the Lua function.
    pub fn create_function(&mut self, func: usize) -> (r: Result<Function, Error>)
        requires
            old(self).inv(),
            old(self).roomy(4),
        ensures
            final(self).inv(),
            final(self).identity() == old(self).identity(),
            spent_only_if(old(self).machine().extra.full(), *old(self), *final(self)),
            r matches Ok(f) ==> final(self).accepts(Value::Function(f)),
            final(self).good() ==> old(self).good() && final(self).machine().made_function(
                old(self).machine(),
                Callback::Function(func),
                r,
            ),
    {
        self.create_callback(Callback::Function(func))
    }

    /// Wraps a Rust mutable closure, given by its number, creating a callable Lua function handle
    /// to it.
    ///
    /// This is a version of `create_function` for closures that must not be entered again while
    /// they run: an attempt to do so is an `Error::RecursiveMutCallback`.
    pub fn create_function_mut(&mut self, func: usize) -> (r: Result<Function, Error>)
        requires
            old(self).inv(),
            old(self).roomy(4),
        ensures
            final(self).inv(),
            final(self).identity() == old(self).identity(),
            spent_only_if(old(self).machine().extra.full(), *old(self), *final(self)),
            r matches Ok(f) ==> final(self).accepts(Value::Function(f)),
            final(self).good() ==> old(self).good() && final(self).machine().made_function(
                old(self).machine(),
                Callback::FunctionMut(func),
                r,
            ),
    {
        self.create_callback(Callback::FunctionMut(func))
    }

    /// Takes all values from the stack, the first of them being the lowest.
    fn pop_args(&mut self, nargs: usize) -> (r: MultiValue)
        requires
            old(self).inv(),
            old(self).good() ==> nargs == old(self).machine().stack.len() && nargs + 2
                <= old(self).machine().limit,
        ensures
            final(self).inv(),
            final(self).identity() == old(self).identity(),
            spent_only_if(
                old(self).machine().short_of_slots(),
                *old(self),
                *final(self),
            ),
            final(self).good() ==> {
                let m = old(self).machine();
                let post = final(self).machine();
                &&& old(self).good()
                &&& post.agrees(Machine { stack: Seq::empty(), ..m })
                &&& post.holds_all(r@)
                &&& post.slots_of(r@) == m.stack
                &&& m.refs().submap_of(post.refs())
                &&& apart(r@, m.refs())
                &&& post.refs().len() == m.refs().len() + handle_count(r@)
            },
    {
        let ghost m = self.machine();
        let mut args = MultiValue::new();
        let mut i: usize = 0;
        proof {
            if self.good() {
                assert(m.stack.take(nargs as int) =~= m.stack);
                assert(m.slots_of(args@) =~= m.stack.skip(nargs as int));
            }
        }
        while i < nargs
            invariant
                i <= nargs,
                m == old(self).machine(),
                self.inv(),
                self.identity() == old(self).identity(),
                spent_only_if(m.short_of_slots(), *old(self), *self),
                self.good() ==> {
                    let cur = self.machine();
                    &&& old(self).good()
                    &&& nargs == m.stack.len()
                    &&& nargs + 2 <= m.limit
                    &&& cur.agrees(Machine { stack: m.stack.take(nargs - i), ..m })
                    &&& cur.holds_all(args@)
                    &&& cur.slots_of(args@) == m.stack.skip(nargs - i)
                    &&& m.refs().submap_of(cur.refs())
                    &&& apart(args@, m.refs())
                    &&& cur.refs().len() == m.refs().len() + handle_count(args@)
                },
            decreases nargs - i,
        {
            let ghost cur = self.machine();
            let ghost rest = args@;
            proof {
                if self.good() {
                    assert(cur.slots_of(rest).len() == i);
                    assert(cur.taking(m, rest));
                }
            }
            let value = self.pop_value();
            args.push_front(value);
            proof {
                if self.good() {
                    lemma_first(cur, self.machine(), value, rest, m.refs());
                    lemma_one_more_held(cur, self.machine(), value);
                    lemma_more_handles(seq![value], rest);
                    assert(self.machine().stack =~= m.stack.take(nargs - i - 1));
                    assert(self.machine().slots_of(args@) =~= m.stack.skip(nargs - i - 1));
                }
            }
            i += 1;
        }
        proof {
            if self.good() {
                assert(m.stack.take(0) =~= Seq::empty());
                assert(m.stack.skip(0) =~= m.stack);
            }
        }
        args
    }

    /// Pushes values, for which there must be room, and one slot more.
    fn push_results(&mut self, results: MultiValue)
        requires
            old(self).inv(),
            old(self).good() ==> {
                let m = old(self).machine();
                m.holds_all(results@) && m.stack.len() + results@.len() < m.limit
            },
        ensures
            final(self).inv(),
            final(self).identity() == old(self).identity(),
            steady(*old(self), *final(self)),
            final(self).good() ==> {
                let m = old(self).machine();
                let post = final(self).machine();
                &&& old(self).good()
                &&& post.agrees(Machine { stack: m.stack + m.slots_of(results@), ..m })
                &&& post.refs() == m.refs().remove_keys(slots_held(results@))
                &&& post.refs().len() == m.refs().len() - handle_count(results@)
            },
    {
        let ghost m = self.machine();
        let ghost all = results@;
        let ghost mut done: int = 0;
        let mut results = results;
        proof {
            assert(all.skip(0) =~= all);
            assert(m.stack + m.slots_of(all).take(0) =~= m.stack);
            assert(m.slots_of(all).skip(0) =~= m.slots_of(all));
            assert(m.refs() =~= m.refs().remove_keys(slots_held(all.take(0))));
        }
        loop
            invariant_except_break
                results@ == all.skip(done),
            invariant
                m == old(self).machine(),
                0 <= done <= all.len(),
                self.inv(),
                self.identity() == old(self).identity(),
                steady(*old(self), *self),
                self.good() ==> {
                    let cur = self.machine();
                    &&& old(self).good()
                    &&& m.stack.len() + all.len() < m.limit
                    &&& cur.agrees(
                        Machine { stack: m.stack + m.slots_of(all).take(done), ..m },
                    )
                    &&& cur.holds_all(all.skip(done))
                    &&& cur.slots_of(all.skip(done)) == m.slots_of(all).skip(done)
                    &&& cur.refs() == m.refs().remove_keys(slots_held(all.take(done)))
                    &&& cur.refs().len() == m.refs().len() - handle_count(all.take(done))
                },
            ensures
                done == all.len(),
            decreases all.len() - done,
        {
            let ghost cur = self.machine();
            match results.pop_front() {
                None => {
                    break;
                },
                Some(value) => {
                    assert(value == all[done]);
                    assert(value == all.skip(done)[0]);
                    self.push_foreign_value(value);
                    proof {
                        if self.good() {
                            let post = self.machine();
                            lemma_rest(cur, post, all.skip(done));
                            assert(all.skip(done).drop_first() =~= all.skip(done + 1));
                            assert(m.slots_of(all).skip(done).drop_first() =~= m.slots_of(all).skip(
                                done + 1,
                            ));
                            assert(cur.slots_of(all.skip(done))[0] == m.slots_of(all)[done]);
                            assert(m.slots_of(all).take(done + 1) =~= m.slots_of(all).take(
                                done,
                            ).push(cur.slot_of(value)));
                            assert(post.stack =~= m.stack + m.slots_of(all).take(done + 1));
                            lemma_held_more(all, done);
                            lemma_one_less_held(cur, post, value);
                            lemma_counted_more(all, done);
                            assert(post.refs() =~= m.refs().remove_keys(
                                slots_held(all.take(done + 1)),
                            ));
                        }
                        assert(all.skip(done).drop_first() =~= all.skip(done + 1));
                        done = done + 1;
                    }
                },
            }
        }
        proof {
            assert(m.slots_of(all).take(done) =~= m.slots_of(all));
            assert(all.take(done) =~= all);
        }
    }

    /// Runs the callback that the running Lua function carries: takes its arguments from the stack,
    /// and puts its results there. Answers how many results there are, or an error to be raised. Lua
    /// has just called that function, and offers it the slots of the stack that it offers to every
    /// function.
    #[verifier::rlimit(40)]
    pub fn call_callback(&mut self) -> (r: Result<usize, Error>)
        requires
            old(self).inv(),
            old(self).good() ==> old(self).machine().stack.len() + LUA_MINSTACK
                <= old(self).machine().limit,
        ensures
            final(self).inv(),
            final(self).identity() == old(self).identity(),
            spent_only_if(
                old(self).machine().short_of_slots(),
                *old(self),
                *final(self),
            ),
            final(self).good() ==> {
                let m = old(self).machine();
                let post = final(self).machine();
                &&& old(self).good()
                &&& if m.upvalue is Nil {
                    &&& r matches Err(e)
                    &&& e@ == ErrorView::CallbackDestructed
                    &&& post == m
                } else {
                    ||| {
                        &&& r matches Err(e)
                        &&& m.stack.len() < LUA_MINSTACK
                        &&& post.failed_with(
                            m,
                            Attempt::CheckStack((LUA_MINSTACK - m.stack.len()) as usize),
                            e,
                        )
                    }
                    ||| post.ran_callback(m, r)
                }
            },
    {
        if self.state.upvalue_type() == LUA_TNIL {
            proof {
                if self.good() {
                    assert(self.machine().upvalue is Nil);
                }
            }
            return Err(Error::CallbackDestructed);
        }
        let nargs = self.state.lua_gettop();
        if nargs < LUA_MINSTACK as usize {
            match self.state.check_stack(LUA_MINSTACK as usize - nargs) {
                Err(e) => {
                    proof {
                        if self.good() {
                            lemma_same_rest(old(self).machine(), self.machine());
                        }
                    }
                    return Err(e);
                },
                Ok(()) => {},
            }
        }
        let ghost m = old(self).machine();
        proof {
            if self.good() {
                lemma_at_rest(m, self.machine());
            }
        }
        let ghost checked = self.machine();
        let args = self.pop_args(nargs);
        proof {
            if old(self).good() && checked == (Machine { limit: checked.limit, ..m }) && m.limit
                <= checked.limit {
                lemma_short_of_slots(m, checked);
            }
        }
        let ghost given = args;
        let ghost popped = self.machine();
        let results = self.state.invoke(args);
        let ghost called = self.machine();
        proof {
            if self.good() {
                let got = if results is Ok {
                    Some((results->Ok_0)@)
                } else {
                    None
                };
                lemma_called(popped, popped.upvalue, given@, got);
                let quiet = popped.called(popped.upvalue, given@, got);
                lemma_outlives(m, popped, Machine { calls: popped.calls, ..quiet }, called);
                lemma_same_rest(quiet, called);
                lemma_invoked(popped, called, given@, returned(got), m.refs());
                assert(called.holds_all(returned(got))) by {
                    lemma_held_elsewhere(quiet, called, returned(got));
                }
                assert(called.calls.drop_last() =~= m.calls);
                assert(called.calls.last().args == m.stack);
                assert(called.calls.last().target == m.upvalue);
            }
        }
        let ghost outcome = results;
        let r = self.return_results(results);
        proof {
            if self.good() {
                assert(called.stack =~= Seq::empty());
                let got = if outcome is Ok {
                    Some((outcome->Ok_0)@)
                } else {
                    None
                };
                if outcome is Ok {
                    lemma_apart((outcome->Ok_0)@, m.refs(), called.refs());
                }
                lemma_outlives(m, m, called, self.machine());
                assert(self.machine().ran_callback_via(m, popped, given@, got, r));
                assert(m.refs().submap_of(self.machine().refs()));
            }
        }
        r
    }

    /// Puts what a callback returned on the stack, if there is room for it, and answers how many
    /// values these are; or answers the error of the callback.
    pub fn return_results(&mut self, results: Result<MultiValue, Error>) -> (r: Result<
        usize,
        Error,
    >)
        requires
            old(self).inv(),
            results matches Ok(values) ==> (old(self).good() ==> {
                let m = old(self).machine();
                m.holds_all(values@) && m.stack.len() == 0
            }),
        ensures
            final(self).inv(),
            final(self).identity() == old(self).identity(),
            steady(*old(self), *final(self)),
            results matches Err(e) ==> r == Err::<usize, Error>(e) && *final(self) == *old(self),
            results matches Ok(values) ==> (final(self).good() ==> {
                let m = old(self).machine();
                let post = final(self).machine();
                &&& old(self).good()
                &&& match r {
                    Ok(n) => {
                        &&& n == values@.len()
                        &&& post.agrees(Machine { stack: m.slots_of(values@), ..m })
                    },
                    Err(e) => {
                        &&& post.agrees(
                            m.fault(Attempt::CheckStack(room_for(values@.len())), e@),
                        )
                        &&& post.faults.last().attempt matches Attempt::CheckStack(room)
                        &&& values@.len() <= room <= values@.len() + 1
                    },
                }
                &&& post.refs() == m.refs().remove_keys(slots_held(values@))
                &&& post.settled(m, -(handle_count(values@) as int))
            }),
    {
        let ghost m = self.machine();
        let results = match results {
            Err(e) => {
                return Err(e);
            },
            Ok(results) => results,
        };
        let nresults = results.len();
        // To push a value takes one slot more meanwhile.
        let room = if nresults < usize::MAX {
            nresults + 1
        } else {
            nresults
        };
        let checked = self.state.check_stack(room);
        proof {
            if self.good() {
                assert(self.machine().refs() =~= m.refs());
                if checked is Ok {
                    lemma_at_rest(m, self.machine());
                } else {
                    lemma_same_rest(m, self.machine());
                }
                lemma_held_elsewhere(m, self.machine(), results@);
            }
        }
        match checked {
            Err(e) => {
                self.drop_values(results);
                Err(e)
            },
            Ok(()) => {
                self.push_results(results);
                assert(self.good() ==> self.machine().stack =~= m.slots_of(results@));
                Ok(nresults)
            },
        }
    }

    /// Gives up the references that values hold.
    pub fn drop_values(&mut self, values: MultiValue)
        requires
            old(self).inv(),
            old(self).good() ==> old(self).machine().holds_all(values@),
        ensures
            final(self).inv(),
            final(self).identity() == old(self).identity(),
            steady(*old(self), *final(self)),
            final(self).good() ==> {
                let m = old(self).machine();
                let post = final(self).machine();
                &&& old(self).good()
                &&& post.agrees(m)
                &&& post.refs() == m.refs().remove_keys(slots_held(values@))
                &&& post.refs().len() == m.refs().len() - handle_count(values@)
            },
    {
        let ghost m = self.machine();
        let ghost all = values@;
        let ghost mut done: int = 0;
        let mut values = values;
        proof {
            assert(all.skip(0) =~= all);
            assert(m.refs() =~= m.refs().remove_keys(slots_held(all.take(0))));
        }
        loop
            invariant_except_break
                values@ == all.skip(done),
            invariant
                m == old(self).machine(),
                0 <= done <= all.len(),
                self.inv(),
                self.identity() == old(self).identity(),
                steady(*old(self), *self),
                self.good() ==> {
                    let cur = self.machine();
                    &&& old(self).good()
                    &&& cur.agrees(m)
                    &&& cur.holds_all(all.skip(done))
                    &&& cur.refs() == m.refs().remove_keys(slots_held(all.take(done)))
                    &&& cur.refs().len() == m.refs().len() - handle_count(all.take(done))
                },
            ensures
                done == all.len(),
            decreases all.len() - done,
        {
            let ghost cur = self.machine();
            match values.pop_front() {
                None => {
                    break;
                },
                Some(value) => {
                    assert(value == all[done]);
                    assert(value == all.skip(done)[0]);
                    self.drop_value(value);
                    proof {
                        if self.good() {
                            lemma_rest(cur, self.machine(), all.skip(done));
                            lemma_held_more(all, done);
                            lemma_one_less_held(cur, self.machine(), value);
                            lemma_counted_more(all, done);
                            assert(self.machine().refs() =~= m.refs().remove_keys(
                                slots_held(all.take(done + 1)),
                            ));
                        }
                        assert(all.skip(done).drop_first() =~= all.skip(done + 1));
                        done = done + 1;
                    }
                },
            }
        }
        proof {
            assert(all.take(done) =~= all);
        }
    }
}

/// Whether there are slots for the arguments does not depend on the room on the stack.
proof fn lemma_short_of_slots(m: Machine, checked: Machine)
    requires
        checked == (Machine { limit: checked.limit, ..m }),
        m.limit <= checked.limit,
    ensures
        checked.short_of_slots() ==> m.short_of_slots(),
{
    if checked.short_of_slots() {
        let (cur, taken) = choose|cur: Machine, taken: Seq<Value>| #[trigger]
            cur.taking(checked, taken) && cur.extra.full();
        assert(checked.refs() =~= m.refs());
        assert(cur.taking(m, taken));
    }
}

/// New objects change nothing of what a machine at rest needs.
pub(crate) proof fn lemma_new_objects(m: Machine, post: Machine)
    requires
        m.ready(),
        post == (Machine { stack: post.stack, heap: post.heap, faults: post.faults, ..m }),
        post.stack.len() <= m.limit,
        post.heap.fresh(),
        m.heap.registry == post.heap.registry,
        m.heap.allotted == post.heap.allotted,
        m.heap.handles.submap_of(post.heap.handles),
        m.heap.tables.dom().subset_of(post.heap.tables.dom()),
    ensures
        post.ready(),
        post.refs() == m.refs(),
{
    assert(post.refs() =~= m.refs());
    lemma_droppable_elsewhere(m, post, m.unref);
    lemma_types_elsewhere(m, post);
    assert(post.heap.handles.contains_key(m.aux_thread));
}

/// A callback ran: the references that were there before its arguments were made are kept, and its
/// results hold others.
proof fn lemma_invoked(
    popped: Machine,
    called: Machine,
    args: Seq<Value>,
    got: Seq<Value>,
    base: Map<int, Slot>,
)
    requires
        exists|ran: Machine| #[trigger]
            popped.ran(ran, slots_held(args), got) && ran.extra == called.extra && ran.aux
                == called.aux,
        base.submap_of(popped.refs()),
        apart(args, base),
    ensures
        base.submap_of(called.refs()),
        apart(got, base),
{
    let given = slots_held(args);
    let ran = choose|ran: Machine| #[trigger]
        popped.ran(ran, given, got) && ran.extra == called.extra && ran.aux == called.aux;
    assert forall|i: int| base.contains_key(i) implies !given.contains(i) by {
        if given.contains(i) {
            let k = choose|k: int|
                0 <= k < args.len() && (#[trigger] args[k]).handle() is Some
                    && args[k].handle()->0.index == i;
            assert(!base.contains_key(args[k].handle()->0.index as int));
        }
    }
    assert forall|i: int| #[trigger] base.contains_key(i) implies (
    #[trigger] called.refs().contains_key(i)) && base[i] == called.refs()[i] by {
        assert(popped.refs().contains_key(i));
        assert(popped.live(i));
        assert(ran.live(i));
    }
    assert forall|i: int|
        0 <= i < got.len() && (#[trigger] got[i]).handle() is Some implies !base.contains_key(
        got[i].handle()->0.index as int,
    ) by {
        let k = got[i].handle()->0.index as int;
        if !given.contains(k) {
            assert(!popped.live(k));
            assert(!popped.refs().contains_key(k));
        }
    }
}

/// Values are held as long as their references are there.
proof fn lemma_held_elsewhere(cur: Machine, post: Machine, values: Seq<Value>)
    requires
        cur.holds_all(values),
        post.main_state == cur.main_state,
        post.refs() == cur.refs(),
    ensures
        post.holds_all(values),
        post.slots_of(values) == cur.slots_of(values),
{
    assert forall|i: int| 0 <= i < values.len() implies post.holds(#[trigger] values[i])
        && post.slot_of(values[i]) == cur.slot_of(values[i]) by {
        assert(cur.holds(values[i]));
        if values[i].handle() is Some {
            let k = values[i].handle()->0.index as int;
            assert(cur.refs().contains_key(k));
            assert(cur.refs()[k] == cur.pinned(k));
            assert(post.refs().contains_key(k));
            assert(post.refs()[k] == post.pinned(k));
            assert(post.live(k));
        }
    }
    assert(post.slots_of(values) =~= cur.slots_of(values));
}

/// References that values do not hold are kept when those that they hold are given up.
proof fn lemma_apart(values: Seq<Value>, base: Map<int, Slot>, refs: Map<int, Slot>)
    requires
        apart(values, base),
        base.submap_of(refs),
    ensures
        base.submap_of(refs.remove_keys(slots_held(values))),
{
    assert forall|i: int| #[trigger] base.contains_key(i) implies refs.remove_keys(
        slots_held(values),
    ).contains_key(i) by {
        assert(refs.contains_key(i));
        if slots_held(values).contains(i) {
            let k = choose|k: int|
                0 <= k < values.len() && (#[trigger] values[k]).handle() is Some
                    && values[k].handle()->0.index == i;
            assert(!base.contains_key(values[k].handle()->0.index as int));
        }
    }
}

/// A value was handed out, and is put before others.
proof fn lemma_first(
    cur: Machine,
    post: Machine,
    value: Value,
    rest: Seq<Value>,
    base: Map<int, Slot>,
)
    requires
        cur.holds_all(rest),
        apart(rest, base),
        base.submap_of(cur.refs()),
        post.main_state == cur.main_state,
        exists|slot: Slot| #[trigger] post.hands_out(cur, value, slot),
    ensures
        post.holds_all(seq![value] + rest),
        post.slots_of(seq![value] + rest) == seq![post.slot_of(value)] + cur.slots_of(rest),
        apart(seq![value] + rest, base),
        base.submap_of(post.refs()),
{
    let all = seq![value] + rest;
    let slot = choose|slot: Slot| #[trigger] post.hands_out(cur, value, slot);
    assert(cur.refs().submap_of(post.refs()));
    assert forall|i: int| 0 <= i < rest.len() implies post.holds(#[trigger] rest[i])
        && post.slot_of(rest[i]) == cur.slot_of(rest[i]) by {
        assert(cur.holds(rest[i]));
        if rest[i].handle() is Some {
            let k = rest[i].handle()->0.index as int;
            assert(cur.refs().contains_key(k));
            assert(post.refs().contains_key(k));
            assert(post.refs()[k] == cur.refs()[k]);
        }
    }
    assert forall|i: int| 0 <= i < all.len() implies post.holds(#[trigger] all[i]) by {
        if i > 0 {
            assert(all[i] == rest[i - 1]);
        }
    }
    assert forall|i: int, j: int|
        0 <= i < j < all.len() && (#[trigger] all[i]).handle() is Some && (
        #[trigger] all[j]).handle() is Some implies all[i].handle()->0.index
        != all[j].handle()->0.index by {
        assert(all[j] == rest[j - 1]);
        assert(cur.holds(rest[j - 1]));
        if i > 0 {
            assert(all[i] == rest[i - 1]);
        } else {
            assert(cur.refs().contains_key(all[j].handle()->0.index as int));
        }
    }
    assert forall|i: int|
        0 <= i < all.len() && (#[trigger] all[i]).handle() is Some implies !base.contains_key(
        all[i].handle()->0.index as int,
    ) by {
        if i > 0 {
            assert(all[i] == rest[i - 1]);
        } else {
            assert(!cur.refs().contains_key(value.handle()->0.index as int));
        }
    }
    assert(post.slots_of(all) =~= seq![post.slot_of(value)] + cur.slots_of(rest)) by {
        assert forall|i: int| 0 <= i < all.len() implies post.slots_of(all)[i] == (seq![
            post.slot_of(value),
        ] + cur.slots_of(rest))[i] by {
            if i > 0 {
                assert(all[i] == rest[i - 1]);
            }
        }
    }
    lemma_submap_of_trans(base, cur.refs(), post.refs());
}

/// The reference that the first of several values holds was given up.
proof fn lemma_rest(cur: Machine, post: Machine, values: Seq<Value>)
    requires
        values.len() > 0,
        cur.holds_all(values),
        post.main_state == cur.main_state,
        post.refs() == without(cur.refs(), values[0]),
    ensures
        post.holds_all(values.drop_first()),
        post.slots_of(values.drop_first()) == cur.slots_of(values).drop_first(),
{
    let rest = values.drop_first();
    assert forall|i: int| 0 <= i < rest.len() implies post.holds(#[trigger] rest[i])
        && post.slot_of(rest[i]) == cur.slot_of(rest[i]) by {
        assert(rest[i] == values[i + 1]);
        assert(cur.holds(values[i + 1]));
        if rest[i].handle() is Some {
            let k = rest[i].handle()->0.index as int;
            assert(cur.refs().contains_key(k));
            assert(values[0].handle() is Some ==> values[0].handle()->0.index
                != values[i + 1].handle()->0.index);
            assert(post.refs().contains_key(k));
            assert(post.refs()[k] == cur.refs()[k]);
        }
    }
    assert forall|i: int, j: int|
        0 <= i < j < rest.len() && (#[trigger] rest[i]).handle() is Some && (
        #[trigger] rest[j]).handle() is Some implies rest[i].handle()->0.index
        != rest[j].handle()->0.index by {
        assert(rest[i] == values[i + 1]);
        assert(rest[j] == values[j + 1]);
    }
    assert(post.slots_of(rest) =~= cur.slots_of(values).drop_first());
}

/// One value more is one handle more, or none.
proof fn lemma_counted_more(values: Seq<Value>, done: int)
    requires
        0 <= done < values.len(),
    ensures
        handle_count(values.take(done + 1)) == handle_count(values.take(done)) + handle_count(
            seq![values[done]],
        ),
{
    lemma_more_handles(values.take(done), seq![values[done]]);
    assert(values.take(done + 1) =~= values.take(done) + seq![values[done]]);
}

/// The slots that one value more holds.
proof fn lemma_held_more(values: Seq<Value>, done: int)
    requires
        0 <= done < values.len(),
    ensures
        slots_held(values.take(done + 1)) == match values[done].handle() {
            Some(r) => slots_held(values.take(done)).insert(r.index as int),
            None => slots_held(values.take(done)),
        },
{
    let before = values.take(done);
    let after = values.take(done + 1);
    let expected = match values[done].handle() {
        Some(r) => slots_held(before).insert(r.index as int),
        None => slots_held(before),
    };
    assert forall|i: int| slots_held(after).contains(i) == expected.contains(i) by {
        if slots_held(after).contains(i) {
            let k = choose|k: int|
                0 <= k < after.len() && (#[trigger] after[k]).handle() is Some
                    && after[k].handle()->0.index == i;
            if k < done {
                assert(before[k] == after[k]);
            }
        }
        if slots_held(before).contains(i) {
            let k = choose|k: int|
                0 <= k < before.len() && (#[trigger] before[k]).handle() is Some
                    && before[k].handle()->0.index == i;
            assert(after[k] == before[k]);
        }
        if values[done].handle() is Some && values[done].handle()->0.index == i {
            assert(after[done] == values[done]);
        }
    }
    assert(slots_held(after) =~= expected);
}

} // verus!

//! Values in the Lua registry.
use crate::effects::law_every_dropped_place_is_cleared;
use crate::lua::{Lua, lemma_at_rest, spent_only_if, steady};
use crate::machine::{Attempt, LUA_REFNIL, Machine, Slot, protected, text_slot};
use crate::protocol::{Instr, Op, Reply};
use crate::relations::{lemma_cut, lemma_droppable_elsewhere, lemma_same_rest, without};
use crate::value::{Error, RegistryKey, Value};
use vstd::prelude::*;
use vstd::slice::slice_to_vec;
use vstd::utf8::encode_utf8;

verus! {

/// The machine after a named registry value was set.
pub open spec fn named_value_set(
    m: Machine,
    after: Machine,
    name: Seq<char>,
    value: Value,
) -> bool {
    after.agrees(
        Machine { heap: m.heap.with_registry(text_slot(name), m.slot_of(value)), ..m },
    )
}

/// The machine after a named registry value could not be set: its name could not be pushed, or the
/// registry could not take it.
pub open spec fn name_not_set(
    m: Machine,
    after: Machine,
    name: Seq<char>,
    slot: Slot,
    error: Error,
) -> bool {
    ||| after.agrees(m.fault(Attempt::PushString(encode_utf8(name)), error@))
    ||| after.agrees(
        m.fault(protected(seq![text_slot(name), slot], Instr::RawSetRegistry), error@),
    )
}

/// The machine after a named registry value was read.
pub open spec fn named_value_read(
    m: Machine,
    after: Machine,
    name: Seq<char>,
    value: Value,
) -> bool {
    after.agrees(m) && after.hands_out(m, value, m.registry_at(text_slot(name)))
}

/// The machine after a named registry value was removed.
pub open spec fn named_value_unset(m: Machine, after: Machine, name: Seq<char>) -> bool {
    after.agrees(Machine { heap: m.heap.with_registry(text_slot(name), Slot::Nil), ..m })
}

/// The machine after a value was placed in the registry.
pub open spec fn value_placed(m: Machine, after: Machine, value: Value, key: RegistryKey) -> bool {
    let slot = m.slot_of(value);
    &&& after.agrees(Machine { heap: m.heap.allot(key.registry_id, slot), ..m })
    &&& after.holds_key(key)
    &&& if slot is Nil {
        key.registry_id == LUA_REFNIL
    } else {
        m.heap.allottable(key.registry_id)
    }
}

/// The machine after a value was read by its key.
pub open spec fn placed_value_read(
    m: Machine,
    after: Machine,
    key: RegistryKey,
    value: Value,
) -> bool {
    &&& after.agrees(m)
    &&& after.hands_out(
        m,
        value,
        m.registry_at(Slot::Integer(key.registry_id as i64)),
    )
}

/// The machine after a value was removed by its key.
pub open spec fn value_removed(m: Machine, after: Machine, key: RegistryKey) -> bool {
    after == Machine { heap: m.heap.release(key.registry_id), ..m }
}

/// The machine after the list of registry places to clear was emptied, and these places, which it
/// held, were cleared: those that were known to be in it, and those whose keys have gone since.
pub open spec fn values_expired(m: Machine, after: Machine, ids: Seq<i32>) -> bool {
    &&& m.unref.is_prefix_of(ids)
    &&& after == Machine {
        unref: Seq::empty(),
        dropped: m.dropped.push(ids),
        heap: m.heap.release_all(ids),
        ..m
    }
    &&& m.droppable(ids)
}

impl<F: Fn(Op) -> Reply> Lua<F> {
    /// Set a value in the Lua registry based on a string name.
    ///
    /// This value will be available to Rust from all `Lua` instances which share the same main
    /// state. It is given as what its conversion brought.
    pub fn set_named_registry_value(&mut self, name: &str, t: Result<Value, Error>) -> (r: Result<
        (),
        Error,
    >)
        requires
            old(self).inv(),
            old(self).roomy(5),
            t matches Ok(value) ==> old(self).accepts(value),
        ensures
            final(self).inv(),
            final(self).identity() == old(self).identity(),
            steady(*old(self), *final(self)),
            t matches Err(e) ==> r == Err::<(), Error>(e) && *final(self) == *old(self),
            t matches Ok(value) ==> (final(self).good() ==> {
                let m = old(self).machine();
                let post = final(self).machine();
                &&& old(self).good()
                &&& post.refs() == without(m.refs(), value)
                &&& match r {
                    Ok(_) => named_value_set(m, post, name@, value),
                    Err(e) => name_not_set(m, post, name@, m.slot_of(value), e),
                }
            }),
    {
        let value = match t {
            Err(e) => {
                return Err(e);
            },
            Ok(value) => value,
        };
        let guard = self.enter(5);
        let r = self.store_named(name, value);
        let ghost left = self.machine();
        self.leave(guard);
        proof {
            if self.good() {
                lemma_cut(left.stack, old(self).machine().stack);
            }
        }
        r
    }

    /// Stores a value in the registry under a name.
    fn store_named(&mut self, name: &str, value: Value) -> (r: Result<(), Error>)
        requires
            old(self).inv(),
            old(self).accepts(value),
            old(self).good() ==> old(self).machine().stack.len() + 3 <= old(self).machine().limit,
        ensures
            final(self).inv(),
            final(self).identity() == old(self).identity(),
            steady(*old(self), *final(self)),
            final(self).good() ==> {
                let m = old(self).machine();
                let post = final(self).machine();
                &&& old(self).good()
                &&& post.refs() == without(m.refs(), value)
                &&& match r {
                    Ok(_) => named_value_set(m, post, name@, value),
                    Err(e) => name_not_set(m, post, name@, m.slot_of(value), e),
                }
            },
    {
        let ghost m = self.machine();
        match self.state.push_string(slice_to_vec(name.as_bytes())) {
            Err(e) => {
                proof {
                    if self.good() {
                        lemma_same_rest(m, self.machine());
                    }
                }
                self.drop_value(value);
                Err(e)
            },
            Ok(()) => {
                let ghost named = self.machine();
                proof {
                    if self.good() {
                        lemma_at_rest(m, named);
                        assert(named.slot_of(value) == m.slot_of(value));
                    }
                }
                self.push_value(value);
                let ghost pushed = self.machine();
                let r = self.state.protect_one(2, Instr::RawSetRegistry);
                proof {
                    if self.good() {
                        let slot = m.slot_of(value);
                        assert(self.machine().stack =~= m.stack);
                        assert(pushed.top_slots(2) =~= seq![text_slot(name@), slot]);
                        lemma_registry_at_rest(pushed, self.machine(), text_slot(name@), slot);
                    }
                }
                r
            },
        }
    }

    /// Pushes the value that the registry holds under a name.
    fn push_named(&mut self, name: &str) -> (r: Result<(), Error>)
        requires
            old(self).inv(),
            old(self).good() ==> old(self).machine().stack.len() < old(self).machine().limit,
        ensures
            final(self).inv(),
            final(self).identity() == old(self).identity(),
            steady(*old(self), *final(self)),
            final(self).good() ==> {
                let m = old(self).machine();
                let post = final(self).machine();
                &&& old(self).good()
                &&& post.refs() == m.refs()
                &&& match r {
                    Ok(_) => post == m.push(m.registry_at(text_slot(name@))),
                    Err(e) => {
                        ||| post == m.fault(Attempt::PushString(encode_utf8(name@)), e@)
                        ||| post == m.fault(
                            protected(seq![text_slot(name@)], Instr::RawGetRegistry),
                            e@,
                        )
                    },
                }
            },
    {
        let ghost m = self.machine();
        let r = match self.state.push_string(slice_to_vec(name.as_bytes())) {
            Err(e) => Err(e),
            Ok(()) => {
                let r = self.state.protect_one(1, Instr::RawGetRegistry);
                proof {
                    if self.good() {
                        let named = m.push(text_slot(name@));
                        assert(named.pop(1).stack =~= m.stack);
                        assert(named.top_slots(1) =~= seq![text_slot(name@)]);
                    }
                }
                r
            },
        };
        proof {
            if self.good() {
                if r is Err {
                    lemma_same_rest(m, self.machine());
                } else {
                    lemma_at_rest(m, self.machine());
                }
            }
        }
        r
    }

    /// Get a value from the Lua registry based on a string name.
    ///
    /// Any Lua instance which shares the underlying main state may call this method to get a value
    /// previously set by `set_named_registry_value`.
    pub fn named_registry_value(&mut self, name: &str) -> (r: Result<Value, Error>)
        requires
            old(self).inv(),
            old(self).roomy(4),
        ensures
            final(self).inv(),
            final(self).identity() == old(self).identity(),
            spent_only_if(old(self).machine().extra.full(), *old(self), *final(self)),
            r matches Ok(value) ==> final(self).accepts(value),
            final(self).good() ==> {
                let m = old(self).machine();
                let post = final(self).machine();
                &&& old(self).good()
                &&& match r {
                    Ok(value) => named_value_read(m, post, name@, value),
                    Err(e) => {
                        ||| post.failed_with(m, Attempt::PushString(encode_utf8(name@)), e)
                        ||| post.failed_with(
                            m,
                            protected(seq![text_slot(name@)], Instr::RawGetRegistry),
                            e,
                        )
                    },
                }
            },
    {
        let guard = self.enter(4);
        let ghost entered = self.machine();
        let r = match self.push_named(name) {
            Err(e) => Err(e),
            Ok(()) => {
                assert(self.good() ==> self.machine().pop(1).stack =~= entered.stack);
                Ok(self.pop_value())
            },
        };
        let ghost left = self.machine();
        self.leave(guard);
        proof {
            if self.good() {
                lemma_cut(left.stack, old(self).machine().stack);
            }
        }
        r
    }

    /// Removes a named value in the Lua registry.
    ///
    /// Equivalent to calling `set_named_registry_value` with a value of nil.
    pub fn unset_named_registry_value(&mut self, name: &str) -> (r: Result<(), Error>)
        requires
            old(self).inv(),
            old(self).roomy(5),
        ensures
            final(self).inv(),
            final(self).identity() == old(self).identity(),
            steady(*old(self), *final(self)),
            final(self).good() ==> {
                let m = old(self).machine();
                let post = final(self).machine();
                &&& old(self).good()
                &&& post.refs() == m.refs()
                &&& match r {
                    Ok(_) => named_value_unset(m, post, name@),
                    Err(e) => name_not_set(m, post, name@, Slot::Nil, e),
                }
            },
    {
        self.set_named_registry_value(name, Ok(Value::Nil))
    }

    /// Place a value in the Lua registry with an auto-generated key.
    ///
    /// This value will be available to Rust from all `Lua` instances which share the same main
    /// state. It is given as what its conversion brought.
    pub fn create_registry_value(&mut self, t: Result<Value, Error>) -> (r: Result<
        RegistryKey,
        Error,
    >)
        requires
            old(self).inv(),
            old(self).roomy(2),
            t matches Ok(value) ==> old(self).accepts(value),
        ensures
            final(self).inv(),
            final(self).identity() == old(self).identity(),
            spent_only_if(old(self).machine().heap.crowded(), *old(self), *final(self)),
            t matches Err(e) ==> r == Err::<RegistryKey, Error>(e) && *final(self) == *old(self),
            t matches Ok(value) ==> r is Ok && (final(self).good() ==> {
                let m = old(self).machine();
                let post = final(self).machine();
                &&& old(self).good()
                &&& post.refs() == without(m.refs(), value)
                &&& value_placed(m, post, value, r->Ok_0)
            }),
    {
        let value = match t {
            Err(e) => {
                return Err(e);
            },
            Ok(value) => value,
        };
        let guard = self.enter(2);
        self.push_value(value);
        let ghost pushed = self.machine();
        let registry_id = self.state.lua_ref();
        let ghost stored = self.machine();
        let extra = self.state.extra_data();
        let unref_list = extra.registry_unref_list;
        self.state.set_extra_data(extra);
        proof {
            if self.good() {
                let m = old(self).machine();
                assert(self.machine() == stored);
                assert(self.machine().stack =~= m.stack);
                assert(self.machine().refs() =~= pushed.refs());
            }
        }
        let ghost left = self.machine();
        self.leave(guard);
        proof {
            if self.good() {
                lemma_cut(left.stack, old(self).machine().stack);
            }
        }
        Ok(RegistryKey { registry_id, unref_list })
    }

    /// Returns true if the given `RegistryKey` was created by a `Lua` which shares the underlying
    /// main state with this `Lua` instance.
    ///
    /// Other than this, methods that accept a `RegistryKey` will return
    /// `Error::MismatchedRegistryKey` if passed a `RegistryKey` that was not created with a
    /// matching `Lua` state.
    pub fn owns_registry_value(&mut self, key: &RegistryKey) -> (r: bool)
        requires
            old(self).inv(),
        ensures
            final(self).inv(),
            final(self).identity() == old(self).identity(),
            steady(*old(self), *final(self)),
            final(self).good() ==> {
                let m = old(self).machine();
                &&& old(self).good()
                &&& final(self).machine() == m
                &&& r == (key.unref_list == m.extra.registry_unref_list)
            },
    {
        let extra = self.state.extra_data();
        let r = key.unref_list == extra.registry_unref_list;
        self.state.set_extra_data(extra);
        assert(self.good() ==> self.machine() == old(self).machine());
        r
    }

    /// Get a value from the Lua registry by its `RegistryKey`.
    ///
    /// Any Lua instance which shares the underlying main state may call this method to get a value
    /// previously placed by `create_registry_value`.
    pub fn registry_value(&mut self, key: &RegistryKey) -> (r: Result<Value, Error>)
        requires
            old(self).inv(),
            old(self).roomy(3),
        ensures
            final(self).inv(),
            final(self).identity() == old(self).identity(),
            spent_only_if(old(self).machine().extra.full(), *old(self), *final(self)),
            r matches Ok(value) ==> final(self).accepts(value),
            r matches Err(e) ==> e is MismatchedRegistryKey,
            final(self).good() ==> {
                let m = old(self).machine();
                let post = final(self).machine();
                &&& old(self).good()
                &&& r is Ok <==> key.unref_list == m.extra.registry_unref_list
                &&& match r {
                    Ok(value) => placed_value_read(m, post, *key, value),
                    Err(_) => post == m,
                }
            },
    {
        if !self.owns_registry_value(key) {
            return Err(Error::MismatchedRegistryKey);
        }
        let guard = self.enter(3);
        let ghost entered = self.machine();
        self.state.run(Instr::RawGetI(key.registry_id as i64));
        proof {
            if self.good() {
                assert(self.machine().refs() =~= entered.refs());
                assert(self.machine().pop(1).stack =~= entered.stack);
            }
        }
        let r = self.pop_value();
        let ghost left = self.machine();
        self.leave(guard);
        proof {
            if self.good() {
                lemma_cut(left.stack, old(self).machine().stack);
            }
        }
        Ok(r)
    }

    /// Removes a value from the Lua registry.
    ///
    /// You may call this function to manually remove a value placed in the registry with
    /// `create_registry_value`. In addition to manual `RegistryKey` removal, you can also call
    /// `expire_registry_values` to automatically remove values from the registry whose
    /// `RegistryKey`s have been dropped.
    pub fn remove_registry_value(&mut self, key: RegistryKey) -> (r: Result<(), Error>)
        requires
            old(self).inv(),
            old(self).good() && key.unref_list == old(self).machine().extra.registry_unref_list
                ==> old(self).machine().holds_key(key),
        ensures
            final(self).inv(),
            final(self).identity() == old(self).identity(),
            steady(*old(self), *final(self)),
            r matches Err(e) ==> e is MismatchedRegistryKey,
            final(self).good() ==> {
                let m = old(self).machine();
                let post = final(self).machine();
                &&& old(self).good()
                &&& r is Ok <==> key.unref_list == m.extra.registry_unref_list
                &&& match r {
                    Ok(_) => value_removed(m, post, key),
                    Err(_) => post == Machine {
                        discarded: m.discarded.push((key.registry_id, key.unref_list)),
                        ..m
                    },
                }
            },
    {
        if !self.owns_registry_value(&key) {
            self.state.drop_key(key);
            return Err(Error::MismatchedRegistryKey);
        }
        self.state.lua_unref(key.registry_id);
        Ok(())
    }

    /// Remove any registry values whose `RegistryKey`s have all been dropped.
    ///
    /// Unlike normal handle values, `RegistryKey`s do not automatically remove themselves, but you
    /// can call this method to remove any unreachable registry values not manually removed by
    /// `Lua::remove_registry_value`.
    pub fn expire_registry_values(&mut self)
        requires
            old(self).inv(),
        ensures
            final(self).inv(),
            final(self).identity() == old(self).identity(),
            steady(*old(self), *final(self)),
            final(self).good() ==> {
                let m = old(self).machine();
                let post = final(self).machine();
                &&& old(self).good()
                &&& values_expired(m, post, post.dropped.last())
                &&& post.dropped.len() == m.dropped.len() + 1
                &&& forall|i: int|
                    0 <= i < m.unref.len() && (#[trigger] m.unref[i]) >= 0 ==> {
                        &&& !post.heap.allotted.contains(m.unref[i])
                        &&& !post.heap.registry.contains_key(Slot::Integer(m.unref[i] as i64))
                    }
            },
    {
        let ghost m = self.machine();
        let list = match self.state.replace_unref_list() {
            None => {
                self.state.panic("unref list not set");
                return ;
            },
            Some(list) => list,
        };
        let ghost ids = list@;
        let mut i: usize = 0;
        proof {
            assert(ids.take(0) =~= Seq::empty());
        }
        while i < list.len()
            invariant
                i <= list.len(),
                ids == list@,
                m == old(self).machine(),
                self.inv(),
                self.identity() == old(self).identity(),
                steady(*old(self), *self),
                self.good() ==> {
                    let cur = self.machine();
                    &&& old(self).good()
                    &&& cur == Machine {
                        unref: Seq::empty(),
                        dropped: m.dropped.push(ids),
                        heap: m.heap.release_all(ids.take(i as int)),
                        ..m
                    }
                    &&& m.unref.is_prefix_of(ids)
                    &&& m.droppable(ids)
                    &&& forall|j: int|
                        i <= j < ids.len() ==> (#[trigger] ids[j]) < 0 || cur.key_place(ids[j])
                },
            decreases list.len() - i,
        {
            self.state.lua_unref(list[i]);
            proof {
                assert(ids.take(i + 1).drop_last() =~= ids.take(i as int));
            }
            i += 1;
        }
        proof {
            if self.good() {
                assert(ids.take(list.len() as int) =~= ids);
                law_every_dropped_place_is_cleared(m, self.machine());
            }
            assert(ids.take(i as int) =~= ids);
        }
    }
}

/// A machine stays at rest when a value is stored under a name in its registry, or could not be.
proof fn lemma_registry_at_rest(m: Machine, post: Machine, key: Slot, value: Slot)
    requires
        m.ready(),
        key is Str,
        post == (Machine { stack: post.stack, heap: post.heap, faults: post.faults, ..m }),
        post.heap == m.heap || post.heap == m.heap.with_registry(key, value),
        post.stack.len() <= m.limit,
    ensures
        post.ready(),
        post.refs() == m.refs(),
{
    assert(post.refs() =~= m.refs());
    lemma_droppable_elsewhere(m, post, m.unref);
    assert forall|i: i64| #[trigger] post.heap.registry.contains_key(Slot::Integer(i))
        == m.heap.registry.contains_key(Slot::Integer(i)) && post.heap.registry[Slot::Integer(i)]
        == m.heap.registry[Slot::Integer(i)] by {
    }
    assert forall|kind: u64| m.extra.registered_userdata.contains_key(kind) implies post.type_table(
        kind,
    ) == #[trigger] m.type_table(kind) by {
    }
    assert(post.types_stored());
}

} // verus!

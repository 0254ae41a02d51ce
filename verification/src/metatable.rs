//! Userdata, and the metatables of their types.
use crate::callback::{closing, lemma_new_objects};
use crate::extra::{ExtraView, LUAI_MAXSTACK};
use crate::lua::{Lua, lemma_at_rest, spent_only_if, steady};
use crate::machine::{Attempt, Heap, Laws, Machine, Slot, protected, table_get};
use crate::protocol::{Instr, Op, Reply, Routine};
use crate::relations::{lemma_cut, lemma_droppable_elsewhere, lemma_same_rest};
use crate::userdata::{
    Entry, MethodsView, StaticUserDataMethods, lemma_table_of, names_distinct, table_of,
};
use crate::value::{AnyUserData, Callback, Error, Value};
use vstd::prelude::*;
use vstd::slice::slice_to_vec;

verus! {

impl Heap {
    /// The slot is a function that runs this callback.
    pub open spec fn runs(self, slot: Slot, callback: Callback, function_key: usize) -> bool {
        &&& slot matches Slot::Function(f)
        &&& self.closures.contains_key(f)
        &&& self.closures[f].routine == Routine::CallCallback
        &&& self.closures[f].upvalue matches Slot::UserData(boxed)
        &&& self.callbacks.contains_key(boxed)
        &&& self.callbacks[boxed] == callback
        &&& self.metatables.contains_key(Slot::UserData(boxed))
        &&& self.metatables[Slot::UserData(boxed)] == table_get(
            self.registry,
            Slot::LightUserData(function_key),
        )
    }

    /// The table holds a function for each of these callbacks, by name, and nothing else.
    pub open spec fn runs_all(
        self,
        table: Map<Slot, Slot>,
        callbacks: Map<Seq<u8>, Callback>,
        function_key: usize,
    ) -> bool {
        &&& forall|key: Slot| #[trigger]
            table.contains_key(key) ==> (key matches Slot::Str(name) && callbacks.contains_key(
                name,
            ))
        &&& forall|name: Seq<u8>| #[trigger]
            callbacks.contains_key(name) ==> table.contains_key(Slot::Str(name)) && self.runs(
                table[Slot::Str(name)],
                callbacks[name],
                function_key,
            )
    }

    /// Every object that was there is still there, and is what it was, but for what this table
    /// holds.
    pub open spec fn kept_but(self, later: Heap, table: nat) -> bool {
        &&& self.tables.contains_key(table)
        &&& later.tables.contains_key(table)
        &&& self.kept_in(
            Heap { tables: later.tables.insert(table, self.tables[table]), ..later },
        )
    }

    /// With a new userdata that holds a Rust value, and has the metatable in this place of the
    /// registry.
    pub open spec fn with_userdata(self, payload: usize, id: i32) -> Heap {
        self.with_payload(payload).with_metatable(
            Slot::UserData(self.next),
            table_get(self.registry, Slot::Integer(id as i64)),
        )
    }

    /// The table is the metatable of a userdata type with these methods, made from this table of
    /// metamethods and this table of members.
    pub open spec fn is_metatable(
        self,
        table: nat,
        meta: Map<Slot, Slot>,
        members: Option<nat>,
        methods: MethodsView,
        laws: Laws,
        function_key: usize,
    ) -> bool {
        &&& self.tables.contains_key(table)
        &&& self.tables[table] == (laws.userdata_metatable)(meta, members)
        &&& self.runs_all(meta, methods.meta_methods, function_key)
        &&& match members {
            Some(id) => {
                &&& methods.methods != Map::<Seq<u8>, Callback>::empty()
                &&& self.tables.contains_key(id)
                &&& self.runs_all(self.tables[id], methods.methods, function_key)
            },
            None => methods.methods == Map::<Seq<u8>, Callback>::empty(),
        }
    }

    /// The table is the metatable of a userdata type with these methods.
    pub open spec fn has_metatable(
        self,
        table: nat,
        methods: MethodsView,
        laws: Laws,
        function_key: usize,
    ) -> bool {
        exists|meta: Map<Slot, Slot>, members: Option<nat>| #[trigger]
            self.is_metatable(table, meta, members, methods, laws, function_key)
    }
}

/// A step that it takes to store a function which runs a callback in a table under a name.
pub open spec fn storing(name: Seq<u8>, callback: Callback, attempt: Attempt) -> bool {
    ||| attempt == Attempt::PushString(name)
    ||| attempt == Attempt::PushCallback(callback)
    ||| exists|boxed: nat| attempt == #[trigger] closing(Slot::UserData(boxed))
    ||| exists|table: nat, f: nat| attempt == #[trigger] placing(table, name, f)
}

/// To place a function in a table under a name.
pub open spec fn placing(table: nat, name: Seq<u8>, f: nat) -> Attempt {
    protected(seq![Slot::Table(table), Slot::Str(name), Slot::Function(f)], Instr::RawSet)
}

/// A step that it takes to store functions for callbacks under their names.
pub open spec fn storing_all(callbacks: Map<Seq<u8>, Callback>, attempt: Attempt) -> bool {
    exists|name: Seq<u8>| #[trigger]
        callbacks.contains_key(name) && storing(name, callbacks[name], attempt)
}

/// A step that it takes to make the metatable of a userdata type with these methods.
pub open spec fn registering(methods: MethodsView, attempt: Attempt) -> bool {
    ||| attempt == protected(Seq::empty(), Instr::NewTable)
    ||| storing_all(methods.meta_methods, attempt)
    ||| storing_all(methods.methods, attempt)
    ||| attempt == Attempt::InitUserdataMetatable(
        methods.methods != Map::<Seq<u8>, Callback>::empty(),
    )
}

impl Machine {
    /// The type of userdata was looked up, with this outcome, on the way from an earlier machine
    /// through the middle one to this one; and if it was found, a userdata was made, or that
    /// failed.
    pub open spec fn made_userdata_via(
        self,
        earlier: Machine,
        middle: Machine,
        found: Result<i32, Error>,
        kind: u64,
        payload: usize,
        r: Result<AnyUserData, Error>,
    ) -> bool {
        &&& middle.registered(earlier, kind, found)
        &&& match r {
            Ok(ud) => {
                &&& found matches Ok(id)
                &&& self.agrees(Machine { heap: middle.heap.with_userdata(payload, id), ..middle })
                &&& self.hands_out(earlier, Value::UserData(ud), Slot::UserData(middle.heap.next))
            },
            Err(e) => {
                &&& self.refs() == earlier.refs()
                &&& match found {
                    Ok(_) => self.agrees(middle.fault(Attempt::PushUserData(payload), e@)),
                    Err(cause) => cause == e && self.agrees(middle),
                }
            },
        }
    }

    /// The step from an earlier machine to this one made a userdata that holds a Rust value of a
    /// type; or it failed with an error, before or after the type was known.
    pub open spec fn made_userdata(
        self,
        earlier: Machine,
        kind: u64,
        payload: usize,
        r: Result<AnyUserData, Error>,
    ) -> bool {
        exists|middle: Machine, found: Result<i32, Error>| #[trigger]
            self.made_userdata_via(earlier, middle, found, kind, payload, r)
    }

    /// The place in the registry of the metatable of a userdata type was asked for: either it was
    /// known, and nothing changed, or the type was asked for its methods and the metatable was made,
    /// stored and noted; or one of the steps that this takes failed with an error.
    pub open spec fn registered(self, earlier: Machine, kind: u64, r: Result<i32, Error>) -> bool {
        let types = earlier.extra.registered_userdata;
        let methods = (earlier.laws.methods_of)(kind);
        let before = Heap {
            registry: earlier.heap.registry,
            allotted: earlier.heap.allotted,
            turns: earlier.heap.turns,
            ..self.heap
        };
        if types.contains_key(kind) {
            self == earlier && r == Ok::<i32, Error>(types[kind])
        } else {
            &&& self.refs() == earlier.refs()
            &&& earlier.heap.kept_in(before)
            &&& match r {
                Ok(id) => {
                    let table = earlier.heap.next;
                    &&& self.agrees(
                        Machine {
                            heap: self.heap,
                            extra: ExtraView {
                                registered_userdata: types.insert(kind, id),
                                ..earlier.extra
                            },
                            registrations: earlier.registrations.push(kind),
                            ..earlier
                        },
                    )
                    &&& earlier.heap.allottable(id)
                    &&& self.heap == before.allot(id, Slot::Table(table))
                    &&& self.heap.has_metatable(table, methods, self.laws, self.function_key)
                },
                Err(e) => {
                    let attempt = self.faults.last().attempt;
                    &&& self.agrees(
                        Machine {
                            heap: self.heap,
                            registrations: earlier.registrations.push(kind),
                            ..earlier.fault(attempt, e@)
                        },
                    )
                    &&& registering(methods, attempt)
                    &&& self.heap == before
                },
            }
        }
    }
}

impl<F: Fn(Op) -> Reply> Lua<F> {
    /// Stores a function that runs a callback in the table on the top.
    fn store_method(&mut self, name: Vec<u8>, callback: Callback) -> (r: Result<(), Error>)
        requires
            old(self).inv(),
            old(self).roomy(5),
            old(self).good() ==> {
                let m = old(self).machine();
                &&& m.stack.len() > 0
                &&& m.stack.len() + 3 <= m.limit
                &&& m.top(0) is Table
                &&& m.heap.tables.contains_key(m.top(0)->Table_0)
            },
        ensures
            final(self).inv(),
            final(self).identity() == old(self).identity(),
            spent_only_if(old(self).machine().extra.full(), *old(self), *final(self)),
            final(self).good() ==> {
                let m = old(self).machine();
                let post = final(self).machine();
                let id = m.top(0)->Table_0;
                &&& old(self).good()
                &&& post.refs() == m.refs()
                &&& match r {
                    Ok(_) => {
                        let f = post.heap.tables[id][Slot::Str(name@)];
                        &&& !post.extra.full()
                        &&& post.agrees(Machine { heap: post.heap, ..m })
                        &&& m.heap.kept_but(post.heap, id)
                        &&& post.heap.tables[id] == m.heap.tables[id].insert(Slot::Str(name@), f)
                        &&& post.heap.runs(f, callback, m.function_key)
                    },
                    Err(e) => {
                        let attempt = post.faults.last().attempt;
                        &&& post.agrees(
                            Machine { heap: post.heap, stack: post.stack, ..m.fault(attempt, e@) },
                        )
                        &&& storing(name@, callback, attempt)
                        &&& m.stack.drop_last().is_prefix_of(post.stack)
                        &&& m.heap.kept_in(post.heap)
                    },
                }
            },
    {
        let ghost m = self.machine();
        match self.state.push_string(name) {
            Err(e) => {
                proof {
                    if self.good() {
                        lemma_same_rest(m, self.machine());
                    }
                }
                return Err(e);
            },
            Ok(()) => {},
        }
        let ghost named = self.machine();
        proof {
            if self.good() {
                lemma_at_rest(m, named);
                lemma_rust_function(m.heap, callback, m.function_key);
            }
        }
        let f = match self.create_callback(callback) {
            Err(e) => {
                proof {
                    if self.good() {
                        let attempt = self.machine().faults.last().attempt;
                        assert(attempt == Attempt::PushCallback(callback) || attempt == closing(
                            Slot::UserData(m.heap.next),
                        ));
                    }
                }
                return Err(e);
            },
            Ok(f) => f,
        };
        let ghost made = self.machine();
        self.push_value(Value::Function(f));
        let ghost pushed = self.machine();
        proof {
            if self.good() {
                assert(pushed.refs() =~= m.refs());
                assert(pushed.stack =~= m.stack.push(Slot::Str(name@)).push(
                    Slot::Function(m.heap.next + 1),
                ));
                assert(m.heap.kept_in(pushed.heap));
            }
        }
        let r = self.state.protect_one(3, Instr::RawSet);
        proof {
            if self.good() {
                let post = self.machine();
                let id = m.top(0)->Table_0;
                assert(post.refs() =~= pushed.refs());
                if r is Ok {
                    assert(post.stack =~= m.stack);
                    assert(post.heap.tables.insert(id, m.heap.tables[id]) =~= pushed.heap.tables);
                    lemma_runs(
                        pushed.heap,
                        post.heap,
                        Slot::Function(m.heap.next + 1),
                        callback,
                        m.function_key,
                    );
                } else {
                    assert(post.stack =~= m.stack.drop_last());
                    assert(pushed.top_slots(3) =~= seq![
                        Slot::Table(id),
                        Slot::Str(name@),
                        Slot::Function(m.heap.next + 1),
                    ]);
                    assert(post.faults.last().attempt == placing(id, name@, m.heap.next + 1));
                }
                lemma_new_objects(pushed, post);
            }
        }
        r
    }

    /// Stores a function for each of these callbacks in the empty table on the top.
    fn store_methods(&mut self, entries: &Vec<Entry>) -> (r: Result<(), Error>)
        requires
            old(self).inv(),
            old(self).roomy(5),
            old(self).good() ==> {
                let m = old(self).machine();
                &&& names_distinct(entries@)
                &&& m.stack.len() > 0
                &&& m.stack.len() + 3 <= m.limit
                &&& m.top(0) is Table
                &&& m.heap.tables.contains_key(m.top(0)->Table_0)
                &&& m.heap.tables[m.top(0)->Table_0] == Map::<Slot, Slot>::empty()
            },
        ensures
            final(self).inv(),
            final(self).identity() == old(self).identity(),
            spent_only_if(old(self).machine().extra.full(), *old(self), *final(self)),
            final(self).good() ==> {
                let m = old(self).machine();
                let post = final(self).machine();
                let id = m.top(0)->Table_0;
                &&& old(self).good()
                &&& post.refs() == m.refs()
                &&& m.heap.kept_but(post.heap, id)
                &&& match r {
                    Ok(_) => {
                        &&& post.extra.full() ==> m.extra.full()
                        &&& post.agrees(Machine { heap: post.heap, ..m })
                        &&& post.heap.runs_all(
                            post.heap.tables[id],
                            table_of(entries@),
                            m.function_key,
                        )
                    },
                    Err(e) => {
                        let attempt = post.faults.last().attempt;
                        &&& post.agrees(
                            Machine { heap: post.heap, stack: post.stack, ..m.fault(attempt, e@) },
                        )
                        &&& storing_all(table_of(entries@), attempt)
                        &&& m.stack.drop_last().is_prefix_of(post.stack)
                    },
                }
            },
    {
        let ghost m = self.machine();
        let ghost id = m.top(0)->Table_0;
        let mut i: usize = 0;
        proof {
            assert(entries@.take(0).len() == 0);
            if self.good() {
                assert(m.heap.tables.insert(id, m.heap.tables[id]) =~= m.heap.tables);
            }
        }
        while i < entries.len()
            invariant
                i <= entries.len(),
                m == old(self).machine(),
                id == m.top(0)->Table_0,
                self.inv(),
                self.identity() == old(self).identity(),
                spent_only_if(m.extra.full(), *old(self), *self),
                self.good() ==> {
                    let cur = self.machine();
                    &&& old(self).good()
                    &&& names_distinct(entries@)
                    &&& m.stack.len() + 5 <= LUAI_MAXSTACK
                    &&& m.stack.len() > 0
                    &&& m.stack.len() + 3 <= m.limit
                    &&& m.top(0) is Table
                    &&& cur.extra.full() ==> m.extra.full()
                    &&& cur.refs() == m.refs()
                    &&& m.heap.kept_but(cur.heap, id)
                    &&& cur.agrees(Machine { heap: cur.heap, ..m })
                    &&& cur.heap.runs_all(
                        cur.heap.tables[id],
                        table_of(entries@.take(i as int)),
                        m.function_key,
                    )
                },
            decreases entries.len() - i,
        {
            let ghost cur = self.machine();
            let name = slice_to_vec(entries[i].name.as_slice());
            let callback = entries[i].callback;
            match self.store_method(name, callback) {
                Err(e) => {
                    proof {
                        if self.good() {
                            lemma_kept_in_but(m.heap, cur.heap, self.machine().heap, id);
                            lemma_table_of(entries@);
                            assert(entries@[i as int].name@ == name@);
                            assert(table_of(entries@).contains_key(name@));
                        }
                    }
                    return Err(e);
                },
                Ok(()) => {},
            }
            proof {
                assert(entries@.take(i + 1).drop_last() =~= entries@.take(i as int));
                if self.good() {
                    lemma_kept_but(m.heap, cur.heap, self.machine().heap, id);
                    lemma_one_more(
                        cur.heap,
                        self.machine().heap,
                        id,
                        table_of(entries@.take(i as int)),
                        name@,
                        callback,
                        m.function_key,
                    );
                }
            }
            i += 1;
        }
        assert(entries@.take(i as int) =~= entries@);
        Ok(())
    }

    /// Makes the metatable of a userdata type from its methods, on the top of the stack.
    fn push_metatable(&mut self, methods: StaticUserDataMethods) -> (r: Result<(), Error>)
        requires
            old(self).inv(),
            old(self).roomy(7),
            old(self).good() ==> methods.wf(),
            old(self).good() ==> old(self).machine().stack.len() + 5 <= old(self).machine().limit,
        ensures
            final(self).inv(),
            final(self).identity() == old(self).identity(),
            spent_only_if(old(self).machine().extra.full(), *old(self), *final(self)),
            final(self).good() ==> {
                let m = old(self).machine();
                let post = final(self).machine();
                &&& old(self).good()
                &&& post.refs() == m.refs()
                &&& m.heap.kept_in(post.heap)
                &&& match r {
                    Ok(_) => {
                        &&& post.extra.full() ==> m.extra.full()
                        &&& post.agrees(
                            Machine { heap: post.heap, ..m.push(Slot::Table(m.heap.next)) },
                        )
                        &&& post.heap.has_metatable(m.heap.next, methods@, m.laws, m.function_key)
                    },
                    Err(e) => {
                        let attempt = post.faults.last().attempt;
                        &&& post.agrees(
                            Machine { heap: post.heap, stack: post.stack, ..m.fault(attempt, e@) },
                        )
                        &&& registering(methods@, attempt)
                        &&& m.stack.is_prefix_of(post.stack)
                    },
                }
            },
    {
        let ghost m = self.machine();
        let ghost id = m.heap.next;
        match self.state.protect_one(0, Instr::NewTable) {
            Err(e) => {
                proof {
                    if self.good() {
                        assert(self.machine().stack =~= m.stack);
                        assert(m.top_slots(0) =~= Seq::empty());
                        lemma_same_rest(m, self.machine());
                    }
                }
                return Err(e);
            },
            Ok(()) => {},
        }
        let ghost made = self.machine();
        proof {
            if self.good() {
                assert(made.stack.drop_last() =~= m.stack);
                lemma_new_objects(m, made);
            }
        }
        let stored = self.store_methods(&methods.meta_methods);
        let ghost meta = self.machine();
        proof {
            if self.good() {
                lemma_kept_new(m.heap, made.heap, meta.heap, id);
            }
        }
        match stored {
            Err(e) => {
                return Err(e);
            },
            Ok(()) => {},
        }
        let r = if methods.methods.len() == 0 {
            self.finish_without_members(&methods)
        } else {
            self.finish_with_members(&methods)
        };
        proof {
            if self.good() {
                let post = self.machine();
                lemma_kept_new(m.heap, meta.heap, post.heap, id);
                if r is Err {
                    assert(m.stack.is_prefix_of(post.stack));
                }
            }
        }
        r
    }

    /// Finishes the metatable of a userdata type without methods, which is on the top.
    fn finish_without_members(&mut self, methods: &StaticUserDataMethods) -> (r: Result<(), Error>)
        requires
            old(self).inv(),
            methods.methods@.len() == 0,
            old(self).good() ==> {
                let m = old(self).machine();
                &&& m.stack.len() > 0
                &&& m.top(0) is Table
                &&& m.heap.tables.contains_key(m.top(0)->Table_0)
                &&& m.heap.runs_all(
                    m.heap.tables[m.top(0)->Table_0],
                    methods@.meta_methods,
                    m.function_key,
                )
            },
        ensures
            final(self).inv(),
            final(self).identity() == old(self).identity(),
            steady(*old(self), *final(self)),
            final(self).good() ==> {
                let m = old(self).machine();
                let post = final(self).machine();
                let id = m.top(0)->Table_0;
                &&& old(self).good()
                &&& post.refs() == m.refs()
                &&& m.heap.kept_but(post.heap, id)
                &&& match r {
                    Ok(_) => {
                        &&& post.extra.full() ==> m.extra.full()
                        &&& post.agrees(Machine { heap: post.heap, ..m })
                        &&& post.heap.has_metatable(id, methods@, m.laws, m.function_key)
                    },
                    Err(e) => {
                        let attempt = post.faults.last().attempt;
                        &&& post.agrees(
                            Machine { heap: post.heap, stack: post.stack, ..m.fault(attempt, e@) },
                        )
                        &&& registering(methods@, attempt)
                        &&& m.stack.is_prefix_of(post.stack)
                    },
                }
            },
    {
        let ghost m = self.machine();
        let ghost id = m.top(0)->Table_0;
        let r = self.state.init_userdata_metatable(false);
        proof {
            if self.good() {
                let post = self.machine();
                assert(m.heap.tables.insert(id, m.heap.tables[id]) =~= m.heap.tables);
                assert(post.heap.tables =~= m.heap.tables.insert(id, post.heap.tables[id]));
                lemma_kept_contents(m.heap, m.heap, post.heap, id);
                lemma_new_objects(m, post);
                if r is Ok {
                    lemma_runs_all(
                        m.heap,
                        post.heap,
                        m.heap.tables[id],
                        methods@.meta_methods,
                        m.function_key,
                    );
                    assert(post.heap.is_metatable(
                        id,
                        m.heap.tables[id],
                        None,
                        methods@,
                        m.laws,
                        m.function_key,
                    ));
                }
            }
        }
        r
    }

    /// Makes the table of members of a userdata type, and finishes its metatable, which is on the
    /// top, with it.
    fn finish_with_members(&mut self, methods: &StaticUserDataMethods) -> (r: Result<(), Error>)
        requires
            old(self).inv(),
            old(self).roomy(6),
            old(self).good() ==> methods.wf(),
            methods.methods@.len() > 0,
            old(self).good() ==> {
                let m = old(self).machine();
                &&& m.stack.len() > 0
                &&& m.stack.len() + 4 <= m.limit
                &&& m.top(0) is Table
                &&& m.heap.tables.contains_key(m.top(0)->Table_0)
                &&& m.heap.runs_all(
                    m.heap.tables[m.top(0)->Table_0],
                    methods@.meta_methods,
                    m.function_key,
                )
            },
        ensures
            final(self).inv(),
            final(self).identity() == old(self).identity(),
            spent_only_if(old(self).machine().extra.full(), *old(self), *final(self)),
            final(self).good() ==> {
                let m = old(self).machine();
                let post = final(self).machine();
                let id = m.top(0)->Table_0;
                &&& old(self).good()
                &&& post.refs() == m.refs()
                &&& m.heap.kept_but(post.heap, id)
                &&& match r {
                    Ok(_) => {
                        &&& post.extra.full() ==> m.extra.full()
                        &&& post.agrees(Machine { heap: post.heap, ..m })
                        &&& post.heap.has_metatable(id, methods@, m.laws, m.function_key)
                    },
                    Err(e) => {
                        let attempt = post.faults.last().attempt;
                        &&& post.agrees(
                            Machine { heap: post.heap, stack: post.stack, ..m.fault(attempt, e@) },
                        )
                        &&& registering(methods@, attempt)
                        &&& m.stack.is_prefix_of(post.stack)
                    },
                }
            },
    {
        let ghost m = self.machine();
        let ghost id = m.top(0)->Table_0;
        let ghost members = m.heap.next;
        match self.state.protect_one(0, Instr::NewTable) {
            Err(e) => {
                proof {
                    if self.good() {
                        assert(self.machine().stack =~= m.stack);
                        assert(m.top_slots(0) =~= Seq::empty());
                        lemma_same_rest(m, self.machine());
                        assert(m.heap.tables.insert(id, m.heap.tables[id]) =~= m.heap.tables);
                    }
                }
                return Err(e);
            },
            Ok(()) => {},
        }
        let ghost made = self.machine();
        proof {
            if self.good() {
                assert(made.stack.drop_last() =~= m.stack);
                lemma_new_objects(m, made);
            }
        }
        let stored = self.store_methods(&methods.methods);
        let ghost filled = self.machine();
        proof {
            if self.good() {
                lemma_kept_new(m.heap, made.heap, filled.heap, members);
                assert(filled.heap.tables.contains_key(id));
                assert(filled.heap.tables =~= filled.heap.tables.insert(
                    id,
                    filled.heap.tables[id],
                ));
                lemma_kept_contents(m.heap, filled.heap, filled.heap, id);
            }
        }
        match stored {
            Err(e) => {
                return Err(e);
            },
            Ok(()) => {},
        }
        match self.state.init_userdata_metatable(true) {
            Err(e) => {
                proof {
                    if self.good() {
                        lemma_same_rest(filled, self.machine());
                        lemma_members(methods);
                    }
                }
                return Err(e);
            },
            Ok(()) => {},
        }
        self.state.run(Instr::Pop(1));
        proof {
            if self.good() {
                let post = self.machine();
                assert(post.stack =~= m.stack);
                lemma_new_objects(filled, post);
                lemma_kept_contents(m.heap, filled.heap, post.heap, id);
                lemma_runs_all(
                    m.heap,
                    post.heap,
                    m.heap.tables[id],
                    methods@.meta_methods,
                    m.function_key,
                );
                lemma_runs_all(
                    filled.heap,
                    post.heap,
                    filled.heap.tables[members],
                    methods@.methods,
                    m.function_key,
                );
                lemma_members(methods);
                assert(post.heap.is_metatable(
                    id,
                    m.heap.tables[id],
                    Some(members),
                    methods@,
                    m.laws,
                    m.function_key,
                ));
            }
        }
        Ok(())
    }

    /// The place in the registry of the metatable of a userdata type, given by its number. The
    /// metatable is made on the first use of the type.
    pub(crate) fn userdata_metatable(&mut self, kind: u64) -> (r: Result<i32, Error>)
        requires
            old(self).inv(),
            old(self).roomy(8),
        ensures
            final(self).inv(),
            final(self).identity() == old(self).identity(),
            spent_only_if(
                old(self).machine().extra.full() || old(self).machine().heap.crowded(),
                *old(self),
                *final(self),
            ),
            final(self).good() ==> old(self).good() && final(self).machine().registered(
                old(self).machine(),
                kind,
                r,
            ),
            final(self).good() && r is Ok && final(self).machine().extra.full()
                ==> old(self).machine().extra.full(),
    {
        broadcast use vstd::std_specs::hash::group_hash_axioms;

        let ghost m = self.machine();
        let extra = self.state.extra_data();
        let known = match extra.registered_userdata.get(&kind) {
            Some(id) => Some(*id),
            None => None,
        };
        self.state.set_extra_data(extra);
        assert(self.good() ==> self.machine() == m);
        match known {
            Some(id) => {
                return Ok(id);
            },
            None => {},
        }
        let guard = self.enter(8);
        let ghost entered = self.machine();
        let methods = self.state.add_methods(kind);
        proof {
            if self.good() {
                lemma_same_rest(entered, self.machine());
            }
        }
        let r = match self.push_metatable(methods) {
            Err(e) => Err(e),
            Ok(()) => {
                let ghost made = self.machine();
                assert(self.good() ==> (made.heap.crowded() ==> m.heap.crowded())) by {
                    if self.good() {
                        assert forall|id: i32| #[trigger] m.heap.allottable(id)
                            == made.heap.allottable(id) by {
                        }
                    }
                }
                let id = self.state.lua_ref();
                let ghost stored = self.machine();
                let mut extra = self.state.extra_data();
                extra.registered_userdata.insert(kind, id);
                self.state.set_extra_data(extra);
                proof {
                    if self.good() {
                        assert(self.machine().stack =~= m.stack);
                        lemma_type_added(m, made, self.machine(), kind, id);
                        lemma_metatable_kept(
                            made.heap,
                            self.machine().heap,
                            m.heap.next,
                            methods@,
                            m.laws,
                            m.function_key,
                        );
                    }
                }
                Ok(id)
            },
        };
        let ghost left = self.machine();
        self.leave(guard);
        proof {
            if self.good() {
                lemma_cut(left.stack, m.stack);
            }
        }
        r
    }

    /// Makes a userdata that holds a Rust value, with the metatable in this place of the registry.
    fn new_userdata(&mut self, id: i32, data: usize) -> (r: Result<AnyUserData, Error>)
        requires
            old(self).inv(),
            old(self).good() ==> {
                let m = old(self).machine();
                &&& m.stack.len() + 2 <= m.limit
                &&& m.heap.allotted.contains(id)
                &&& table_get(m.heap.registry, Slot::Integer(id as i64)) is Table
            },
        ensures
            final(self).inv(),
            final(self).identity() == old(self).identity(),
            spent_only_if(old(self).machine().extra.full(), *old(self), *final(self)),
            r matches Ok(ud) ==> ud.0.main_state == old(self).identity().main_state,
            final(self).good() ==> {
                let m = old(self).machine();
                let post = final(self).machine();
                &&& old(self).good()
                &&& match r {
                    Ok(ud) => {
                        &&& post.agrees(Machine { heap: m.heap.with_userdata(data, id), ..m })
                        &&& post.hands_out(m, Value::UserData(ud), Slot::UserData(m.heap.next))
                    },
                    Err(e) => post.failed_with(m, Attempt::PushUserData(data), e),
                }
            },
    {
        let ghost m = self.machine();
        match self.state.push_userdata(data) {
            Err(e) => {
                proof {
                    if self.good() {
                        lemma_same_rest(m, self.machine());
                    }
                }
                Err(e)
            },
            Ok(()) => {
                self.state.run(Instr::RawGetI(id as i64));
                self.state.run(Instr::SetMetatable);
                proof {
                    if self.good() {
                        assert(self.machine().stack =~= m.stack.push(Slot::UserData(m.heap.next)));
                        lemma_new_objects(m, self.machine());
                    }
                }
                let lref = self.pop_ref();
                proof {
                    if self.good() {
                        let post = self.machine();
                        assert(post.stack =~= m.stack);
                        assert(post.refs().contains_key(lref.index as int));
                        assert(post.refs()[lref.index as int] == Slot::UserData(m.heap.next));
                    }
                }
                Ok(AnyUserData(lref))
            },
        }
    }

    /// Makes a userdata that holds a Rust value of a userdata type, both given by their numbers.
    pub(crate) fn make_userdata(&mut self, kind: u64, data: usize) -> (r: Result<
        AnyUserData,
        Error,
    >)
        requires
            old(self).inv(),
            old(self).roomy(8),
        ensures
            final(self).inv(),
            final(self).identity() == old(self).identity(),
            spent_only_if(
                old(self).machine().extra.full() || old(self).machine().heap.crowded(),
                *old(self),
                *final(self),
            ),
            r matches Ok(ud) ==> final(self).accepts(Value::UserData(ud)),
            final(self).good() ==> old(self).good() && final(self).machine().made_userdata(
                old(self).machine(),
                kind,
                data,
                r,
            ),
    {
        let ghost m = self.machine();
        let guard = self.enter(4);
        let ghost entered = self.machine();
        let ud_index = self.userdata_metatable(kind);
        let ghost found = ud_index;
        let ghost known = self.machine();
        let ghost mid = if m.extra.registered_userdata.contains_key(kind) {
            m
        } else {
            known
        };
        proof {
            if self.good() {
                lemma_registered(m, entered, known, kind, ud_index);
            }
        }
        let r = match ud_index {
            Err(e) => Err(e),
            Ok(id) => {
                assert(self.good() ==> known.heap.allotted.contains(id) && table_get(
                    known.heap.registry,
                    Slot::Integer(id as i64),
                ) is Table) by {
                    if self.good() {
                        assert(known.extra.registered_userdata.contains_key(kind));
                        assert(known.type_table(kind) is Table);
                    }
                }
                self.new_userdata(id, data)
            },
        };
        let ghost left = self.machine();
        self.leave(guard);
        proof {
            if self.good() {
                let post = self.machine();
                lemma_cut(left.stack, m.stack);
                assert(known.refs() =~= m.refs());
                assert(mid.registered(m, kind, found));
                if r is Ok {
                    let index = (r->Ok_0).0.index as int;
                    assert(post.refs().contains_key(index));
                    assert(post.refs()[index] == Slot::UserData(mid.heap.next));
                }
                assert(post.made_userdata_via(m, mid, found, kind, data, r));
            }
        }
        r
    }

    /// Create a Lua userdata object from a custom userdata type: a Rust value and its type, given
    /// by their numbers.
    pub fn create_userdata(&mut self, kind: u64, data: usize) -> (r: Result<AnyUserData, Error>)
        requires
            old(self).inv(),
            old(self).roomy(8),
        ensures
            final(self).inv(),
            final(self).identity() == old(self).identity(),
            spent_only_if(
                old(self).machine().extra.full() || old(self).machine().heap.crowded(),
                *old(self),
                *final(self),
            ),
            r matches Ok(ud) ==> final(self).accepts(Value::UserData(ud)),
            final(self).good() ==> old(self).good() && final(self).machine().made_userdata(
                old(self).machine(),
                kind,
                data,
                r,
            ),
    {
        self.make_userdata(kind, data)
    }
}

/// A type that registers methods has some.
proof fn lemma_members(methods: &StaticUserDataMethods)
    requires
        methods.methods@.len() > 0,
    ensures
        methods@.methods != Map::<Seq<u8>, Callback>::empty(),
{
    assert(methods@.methods.contains_key(methods.methods@.last().name@));
}

/// What runs a callback goes on running it.
proof fn lemma_runs(heap: Heap, later: Heap, slot: Slot, callback: Callback, function_key: usize)
    requires
        heap.runs(slot, callback, function_key),
        heap.closures.submap_of(later.closures),
        heap.callbacks.submap_of(later.callbacks),
        heap.metatables.submap_of(later.metatables),
        heap.registry == later.registry,
    ensures
        later.runs(slot, callback, function_key),
{
    let f = slot->Function_0;
    assert(later.closures.contains_key(f));
    let boxed = heap.closures[f].upvalue->UserData_0;
    assert(later.callbacks.contains_key(boxed));
    assert(later.metatables.contains_key(Slot::UserData(boxed)));
}

/// A table of functions goes on being one.
proof fn lemma_runs_all(
    heap: Heap,
    later: Heap,
    table: Map<Slot, Slot>,
    callbacks: Map<Seq<u8>, Callback>,
    function_key: usize,
)
    requires
        heap.runs_all(table, callbacks, function_key),
        heap.closures.submap_of(later.closures),
        heap.callbacks.submap_of(later.callbacks),
        heap.metatables.submap_of(later.metatables),
        heap.registry == later.registry,
    ensures
        later.runs_all(table, callbacks, function_key),
{
    assert forall|name: Seq<u8>| #[trigger] callbacks.contains_key(name) implies table.contains_key(
        Slot::Str(name),
    ) && later.runs(table[Slot::Str(name)], callbacks[name], function_key) by {
        lemma_runs(heap, later, table[Slot::Str(name)], callbacks[name], function_key);
    }
}

/// What is kept but for one table, twice, is kept but for that table.
proof fn lemma_kept_but(first: Heap, second: Heap, third: Heap, table: nat)
    requires
        first.kept_but(second, table),
        second.kept_but(third, table),
    ensures
        first.kept_but(third, table),
{
    broadcast use vstd::map_lib::lemma_submap_of_trans;

    let second_but = Heap {
        tables: second.tables.insert(table, first.tables[table]),
        ..second
    };
    let third_but = Heap { tables: third.tables.insert(table, first.tables[table]), ..third };
    assert forall|id: nat| #[trigger] first.tables.contains_key(id) implies (
    #[trigger] third_but.tables.contains_key(id)) && first.tables[id] == third_but.tables[id] by {
        assert(second_but.tables.contains_key(id));
        if id != table {
            assert(second.tables.contains_key(id));
            assert(third.tables.insert(table, second.tables[table]).contains_key(id));
        }
    }
}

/// A new table is of no concern for what was there before it.
proof fn lemma_kept_new(first: Heap, second: Heap, third: Heap, table: nat)
    requires
        first.kept_in(second),
        second.kept_but(third, table),
        !first.tables.contains_key(table),
    ensures
        first.kept_in(third),
{
    broadcast use vstd::map_lib::lemma_submap_of_trans;

    let third_but = Heap { tables: third.tables.insert(table, second.tables[table]), ..third };
    assert forall|id: nat| #[trigger] first.tables.contains_key(id) implies (
    #[trigger] third.tables.contains_key(id)) && first.tables[id] == third.tables[id] by {
        assert(second.tables.contains_key(id));
        assert(third_but.tables.contains_key(id));
    }
}

/// To make a function that runs a callback changes nothing that was there.
pub(crate) proof fn lemma_rust_function(heap: Heap, callback: Callback, function_key: usize)
    requires
        heap.fresh(),
        table_get(heap.registry, Slot::LightUserData(function_key)) is Table,
    ensures
        heap.kept_in(heap.with_boxed_callback(callback, function_key)),
        heap.kept_in(heap.with_rust_function(callback, function_key)),
        heap.with_rust_function(callback, function_key).runs(
            Slot::Function(heap.next + 1),
            callback,
            function_key,
        ),
{
}

/// Room on the stack makes no difference to the types of userdata that are known.
proof fn lemma_registered(
    m: Machine,
    entered: Machine,
    known: Machine,
    kind: u64,
    r: Result<i32, Error>,
)
    requires
        entered == (Machine { limit: entered.limit, ..m }),
        entered.refs() == m.refs(),
        m.limit <= entered.limit,
        known.registered(entered, kind, r),
    ensures
        m.extra.registered_userdata.contains_key(kind) ==> m.registered(m, kind, r),
        !m.extra.registered_userdata.contains_key(kind) ==> known.registered(m, kind, r),
{
}

/// A type of userdata was noted whose metatable is new, and is on the top.
proof fn lemma_type_added(m: Machine, made: Machine, post: Machine, kind: u64, id: i32)
    requires
        m.ready(),
        made.ready(),
        made.stack.len() > 0,
        made.top(0) == Slot::Table(m.heap.next),
        made.extra.registered_userdata == m.extra.registered_userdata,
        made.heap.registry == m.heap.registry,
        made.heap.tables.contains_key(m.heap.next),
        made.heap.allottable(id),
        !m.extra.registered_userdata.contains_key(kind),
        post == (Machine {
            stack: made.stack.drop_last(),
            heap: made.heap.allot(id, made.top(0)),
            extra: ExtraView {
                registered_userdata: m.extra.registered_userdata.insert(kind, id),
                ..made.extra
            },
            ..made
        }),
    ensures
        post.ready(),
        post.refs() == made.refs(),
{
    let before = m.extra.registered_userdata;
    let types = post.extra.registered_userdata;
    assert(post.refs() =~= made.refs());
    assert forall|i: int|
        0 <= i < post.aux.len() && !post.extra.live(i + 1) implies #[trigger] post.aux[i]
        == Slot::Nil by {
        assert(!made.extra.live(i + 1));
        assert(made.aux[i] == Slot::Nil);
    }
    assert forall|i: int| 0 <= i < made.unref.len() && made.key_place(
        #[trigger] made.unref[i],
    ) implies post.key_place(made.unref[i]) by {
        let place = made.unref[i];
        if types.contains_value(place) {
            let k = choose|k: u64| types.contains_key(k) && types[k] == place;
            assert(before.contains_key(k) && before[k] == place);
        }
    }
    lemma_droppable_elsewhere(made, post, made.unref);
    assert(post.type_table(kind) == Slot::Table(m.heap.next));
    assert forall|k: u64| #[trigger] before.contains_key(k) implies post.type_table(k)
        == m.type_table(k) && post.type_table(k) is Table && post.type_table(k) != post.type_table(
        kind,
    ) && post.heap.allotted.contains(before[k]) && before[k] != id
        && post.heap.tables.contains_key(post.type_table(k)->Table_0) by {
        assert(made.extra.registered_userdata.contains_key(k));
        assert(made.heap.allotted.contains(before[k]));
        assert(made.type_table(k) == m.type_table(k));
        assert(m.heap.tables.contains_key(m.type_table(k)->Table_0));
    }
    assert(post.types_stored()) by {
        assert forall|k: u64| #[trigger] types.contains_key(k) implies {
            &&& post.heap.allotted.contains(types[k])
            &&& post.type_table(k) is Table
            &&& post.heap.tables.contains_key(post.type_table(k)->Table_0)
        } by {
            if k != kind {
                assert(before.contains_key(k));
            }
        }
        assert forall|k: u64, other: u64| #[trigger]
            types.contains_key(k) && #[trigger] types.contains_key(other) && k != other implies {
            &&& types[k] != types[other]
            &&& post.type_table(k) != post.type_table(other)
        } by {
            if k != kind {
                assert(before.contains_key(k));
            }
            if other != kind {
                assert(before.contains_key(other));
            }
        }
    }
    assert(post.heap.allotted.contains(post.anchor));
}

/// A metatable does not depend on the numbered places of the registry.
proof fn lemma_metatable_kept(
    heap: Heap,
    later: Heap,
    table: nat,
    methods: MethodsView,
    laws: Laws,
    function_key: usize,
)
    requires
        heap.has_metatable(table, methods, laws, function_key),
        later == (Heap {
            registry: later.registry,
            allotted: later.allotted,
            turns: later.turns,
            ..heap
        }),
        table_get(later.registry, Slot::LightUserData(function_key)) == table_get(
            heap.registry,
            Slot::LightUserData(function_key),
        ),
    ensures
        later.has_metatable(table, methods, laws, function_key),
{
    let (meta, members) = choose|meta: Map<Slot, Slot>, members: Option<nat>| #[trigger]
        heap.is_metatable(table, meta, members, methods, laws, function_key);
    lemma_runs_elsewhere(heap, later, meta, methods.meta_methods, function_key);
    if members is Some {
        lemma_runs_elsewhere(heap, later, heap.tables[members->0], methods.methods, function_key);
    }
    assert(later.is_metatable(table, meta, members, methods, laws, function_key));
}

/// A table of functions does not depend on the numbered places of the registry.
proof fn lemma_runs_elsewhere(
    heap: Heap,
    later: Heap,
    table: Map<Slot, Slot>,
    callbacks: Map<Seq<u8>, Callback>,
    function_key: usize,
)
    requires
        heap.runs_all(table, callbacks, function_key),
        later == (Heap {
            registry: later.registry,
            allotted: later.allotted,
            turns: later.turns,
            ..heap
        }),
        table_get(later.registry, Slot::LightUserData(function_key)) == table_get(
            heap.registry,
            Slot::LightUserData(function_key),
        ),
    ensures
        later.runs_all(table, callbacks, function_key),
{
    assert forall|name: Seq<u8>| #[trigger] callbacks.contains_key(name) implies table.contains_key(
        Slot::Str(name),
    ) && later.runs(table[Slot::Str(name)], callbacks[name], function_key) by {
        assert(heap.runs(table[Slot::Str(name)], callbacks[name], function_key));
    }
}

/// What a table holds that was there, or is new, was changed.
proof fn lemma_kept_contents(first: Heap, second: Heap, third: Heap, table: nat)
    requires
        first.kept_in(second),
        second.tables.contains_key(table),
        third == (Heap { tables: third.tables, ..second }),
        third.tables == second.tables.insert(table, third.tables[table]),
    ensures
        first.tables.contains_key(table) ==> first.kept_but(third, table),
        !first.tables.contains_key(table) ==> first.kept_in(third),
{
    if first.tables.contains_key(table) {
        let but = third.tables.insert(table, first.tables[table]);
        assert forall|id: nat| #[trigger] first.tables.contains_key(id) implies (
        #[trigger] but.contains_key(id)) && first.tables[id] == but[id] by {
            assert(second.tables.contains_key(id));
        }
    } else {
        assert forall|id: nat| #[trigger] first.tables.contains_key(id) implies (
        #[trigger] third.tables.contains_key(id)) && first.tables[id] == third.tables[id] by {
            assert(second.tables.contains_key(id));
        }
    }
}

/// What is kept but for one table, and then kept, is kept but for that table.
proof fn lemma_kept_in_but(first: Heap, second: Heap, third: Heap, table: nat)
    requires
        first.kept_but(second, table),
        second.kept_in(third),
    ensures
        first.kept_but(third, table),
{
    assert(second.tables.contains_key(table));
    assert(third.tables.contains_key(table));
    assert(third.tables.insert(table, second.tables[table]) =~= third.tables);
    lemma_kept_but(first, second, third, table);
}

/// A function for one callback more was stored.
proof fn lemma_one_more(
    heap: Heap,
    later: Heap,
    table: nat,
    callbacks: Map<Seq<u8>, Callback>,
    name: Seq<u8>,
    callback: Callback,
    function_key: usize,
)
    requires
        heap.runs_all(heap.tables[table], callbacks, function_key),
        heap.kept_but(later, table),
        ({
            let f = later.tables[table][Slot::Str(name)];
            &&& later.tables[table] == heap.tables[table].insert(Slot::Str(name), f)
            &&& later.runs(f, callback, function_key)
        }),
    ensures
        later.runs_all(later.tables[table], callbacks.insert(name, callback), function_key),
{
    lemma_runs_all(heap, later, heap.tables[table], callbacks, function_key);
    let contents = later.tables[table];
    let more = callbacks.insert(name, callback);
    assert forall|key: Slot| #[trigger] contents.contains_key(key) implies (
    key matches Slot::Str(known) && more.contains_key(known)) by {
        if key != Slot::Str(name) {
            assert(heap.tables[table].contains_key(key));
        }
    }
    assert forall|known: Seq<u8>| #[trigger] more.contains_key(known) implies contents.contains_key(
        Slot::Str(known),
    ) && later.runs(contents[Slot::Str(known)], more[known], function_key) by {
        if known != name {
            assert(callbacks.contains_key(known));
        }
    }
}

} // verus!

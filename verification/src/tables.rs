//! Tables that are made from iterators.
use crate::callback::lemma_new_objects;
use crate::extra::{ExtraView, LUA_MINSTACK};
use crate::lua::{Lua, lemma_at_rest, spent_only_if, steady};
use crate::machine::{Attempt, Fault, Heap, Laws, Machine, Slot, protected, table_put};
use crate::protocol::{Instr, Op, Reply};
use crate::relations::{
    lemma_converted, lemma_cut, lemma_kept, lemma_one_handle, lemma_refs_finite, lemma_same_rest,
    without,
};
use crate::value::{Error, Table, Value};
use vstd::map_lib::lemma_submap_of_trans;
use vstd::prelude::*;

verus! {

/// The keys of the items are the positions from 1 on, as far as they are integers of Lua.
pub open spec fn numbered_keys(items: Seq<(Slot, Slot)>) -> bool {
    forall|i: int|
        0 <= i < items.len() && i + 1 <= i64::MAX ==> (#[trigger] items[i]).0 == Slot::Integer(
            (i + 1) as i64,
        )
}

/// Each key is one that a table can have.
pub open spec fn keys_allowed(laws: Laws, items: Seq<(Slot, Slot)>) -> bool {
    forall|i: int| 0 <= i < items.len() ==> laws.key_allowed((#[trigger] items[i]).0)
}

/// Items are being gathered while a new table, the one that comes next, is on the top of the stack.
spec fn filling(m: Machine, cur: Machine, numbered: bool) -> bool {
    &&& (Machine { stack: m.stack, ..cur }).gathered(m)
    &&& cur.stack == m.stack.push(Slot::Table(m.heap.next))
    &&& cur.stack.len() + 3 <= cur.limit
    &&& cur.filled_table(m, numbered)
    &&& cur.settled(m, 0)
    &&& cur.ends == m.ends
    &&& cur.faults == m.faults
}

/// The values that a conversion handed out.
spec fn handed_out(converted: Result<Value, Error>) -> Seq<Value> {
    match converted {
        Ok(value) => seq![value],
        Err(_) => Seq::empty(),
    }
}

impl Machine {
    /// The items that were read from iterators since an earlier machine.
    pub open spec fn read_since(self, earlier: Machine) -> Seq<(Slot, Slot)> {
        self.items.skip(earlier.items.len() as int)
    }

    /// The step from an earlier machine to this one read items from an iterator, and made new
    /// objects and references. What was there before is there still.
    pub open spec fn gathered(self, earlier: Machine) -> bool {
        &&& self == Machine {
            limit: self.limit,
            aux: self.aux,
            aux_limit: self.aux_limit,
            extra: ExtraView {
                ref_stack_size: self.extra.ref_stack_size,
                ref_stack_max: self.extra.ref_stack_max,
                ref_free: self.extra.ref_free,
                ..earlier.extra
            },
            heap: self.heap,
            yields: self.yields,
            item_key: self.item_key,
            items: self.items,
            ends: self.ends,
            others: self.others,
            faults: self.faults,
            ..earlier
        }
        &&& earlier.limit <= self.limit
        &&& earlier.items.is_prefix_of(self.items)
        &&& earlier.heap.kept_in(self.heap)
        &&& earlier.refs().submap_of(self.refs())
    }

    /// The step from an earlier machine to this one made the table that comes next, which has no
    /// metatable, and filled it with the items that it read.
    pub open spec fn filled_table(self, earlier: Machine, numbered: bool) -> bool {
        let id = earlier.heap.next;
        let items = self.read_since(earlier);
        &&& self.heap.next > id
        &&& self.heap.tables.contains_key(id)
        &&& self.heap.tables[id] == self.laws.filled(items)
        &&& !self.heap.metatables.contains_key(Slot::Table(id))
        &&& keys_allowed(self.laws, items)
        &&& numbered ==> numbered_keys(items)
    }

    /// All items of an iterator were read, on the way from an earlier machine to this one, into a new
    /// table, which is on the top of the stack.
    pub open spec fn filled_up(self, earlier: Machine, numbered: bool) -> bool {
        &&& (Machine { stack: earlier.stack, ..self }).gathered(earlier)
        &&& self.stack == earlier.stack.push(Slot::Table(earlier.heap.next))
        &&& self.filled_table(earlier, numbered)
        &&& self.yields == earlier.yields + self.read_since(earlier).len()
        &&& self.ends == earlier.ends + 1
        &&& self.faults == earlier.faults
        &&& self.settled(earlier, 0)
    }

    /// The step from an earlier machine to this one, which was to convert the item that the iterator
    /// is at, could not convert its position or key, or its value.
    pub open spec fn unconverted(
        self,
        earlier: Machine,
        numbered: bool,
        position: u64,
        error: Error,
    ) -> bool {
        let attempt = self.faults.last().attempt;
        &&& self.faults == earlier.faults.push(Fault { attempt, error: error@ })
        &&& self.items == earlier.items
        &&& {
            ||| numbered && position > i64::MAX && attempt == Attempt::Position(position)
            ||| !numbered && attempt == Attempt::ItemKey
            ||| attempt == Attempt::ItemValue
        }
    }

    /// The step from an earlier machine to this one read the item that the iterator is at, and could
    /// not store it in the table that was on the top.
    pub open spec fn unstored(
        self,
        earlier: Machine,
        numbered: bool,
        position: u64,
        error: Error,
    ) -> bool {
        let item = self.items.last();
        &&& self.faults == earlier.faults.push(
            Fault {
                attempt: protected(seq![earlier.top(0), item.0, item.1], Instr::RawSet),
                error: error@,
            },
        )
        &&& self.items == earlier.items.push(item)
        &&& numbered && position <= i64::MAX ==> item.0 == Slot::Integer(position as i64)
    }

    /// The step from an earlier machine to this one failed with an error when it was to make a table
    /// from an iterator: there was no room or no table, an item that the iterator had could not be
    /// converted, or one that was read could not be stored.
    pub open spec fn made_no_table(self, earlier: Machine, numbered: bool, error: Error) -> bool {
        let attempt = self.faults.last().attempt;
        let items = self.read_since(earlier);
        &&& self.faults == earlier.faults.push(Fault { attempt, error: error@ })
        &&& self.ends == earlier.ends
        &&& numbered ==> numbered_keys(items)
        &&& {
            ||| {
                &&& self.yields == earlier.yields
                &&& items.len() == 0
                &&& {
                    ||| attempt == Attempt::CheckStack((5 + LUA_MINSTACK) as usize)
                    ||| attempt == protected(Seq::empty(), Instr::NewTable)
                }
            }
            ||| {
                &&& self.yields == earlier.yields + items.len() + 1
                &&& keys_allowed(self.laws, items)
                &&& {
                    ||| numbered && items.len() + 1 > i64::MAX && attempt == Attempt::Position(
                        (items.len() + 1) as u64,
                    )
                    ||| !numbered && attempt == Attempt::ItemKey
                    ||| attempt == Attempt::ItemValue
                }
            }
            ||| {
                &&& items.len() > 0
                &&& self.yields == earlier.yields + items.len()
                &&& keys_allowed(self.laws, items.drop_last())
                &&& attempt == protected(
                    seq![Slot::Table(earlier.heap.next), items.last().0, items.last().1],
                    Instr::RawSet,
                )
            }
        }
    }

    /// The step from an earlier machine to this one made a table from all items of an iterator,
    /// with their positions as keys if it is numbered; or it failed with an error. What was handed
    /// out for the items was given up.
    pub open spec fn made_table(
        self,
        earlier: Machine,
        numbered: bool,
        r: Result<Table, Error>,
    ) -> bool {
        &&& self.gathered(earlier)
        &&& match r {
            Ok(t) => {
                &&& self.filled_table(earlier, numbered)
                &&& self.yields == earlier.yields + self.read_since(earlier).len()
                &&& self.ends == earlier.ends + 1
                &&& self.faults == earlier.faults
                &&& self.settled(earlier, 1)
                &&& !earlier.live(t.0.index as int)
                &&& self.slot_of(Value::Table(t)) == Slot::Table(earlier.heap.next)
            },
            Err(e) => self.settled(earlier, 0) && self.made_no_table(earlier, numbered, e),
        }
    }
}

impl<F: Fn(Op) -> Reply> Lua<F> {
    /// Converts the position or the key of the item that the iterator is at, and pushes it.
    fn push_key(&mut self, numbered: bool, position: u64) -> (r: Result<(), Error>)
        requires
            old(self).inv(),
            old(self).good() ==> old(self).machine().stack.len() + 2 <= old(self).machine().limit,
        ensures
            final(self).inv(),
            final(self).identity() == old(self).identity(),
            steady(*old(self), *final(self)),
            final(self).good() ==> {
                let m = old(self).machine();
                let post = final(self).machine();
                &&& old(self).good()
                &&& (Machine { stack: m.stack, ..post }).gathered(m)
                &&& post.settled(m, 0)
                &&& post.yields == m.yields
                &&& post.ends == m.ends
                &&& post.items == m.items
                &&& match r {
                    Ok(_) => {
                        &&& post.stack == m.stack.push(post.item_key)
                        &&& numbered && position <= i64::MAX ==> post.item_key == Slot::Integer(
                            position as i64,
                        )
                        &&& post.faults == m.faults
                    },
                    Err(e) => post.stack == m.stack && post.unconverted(m, numbered, position, e),
                }
            },
    {
        let ghost m = self.machine();
        let converted = if numbered {
            self.state.index_to_lua(position)
        } else {
            self.state.item_key()
        };
        let ghost c = self.machine();
        proof {
            if self.good() {
                if numbered {
                    lemma_same_rest(m, c);
                } else {
                    lemma_converted(m, c, handed_out(converted));
                }
                lemma_read(m, c);
            }
        }
        match converted {
            Err(e) => Err(e),
            Ok(key) => {
                proof {
                    if self.good() {
                        assert(handed_out(converted)[0] == key);
                        assert(c.holds(key));
                        lemma_one_handle(key);
                    }
                }
                self.push_foreign_value(key);
                proof {
                    if self.good() {
                        lemma_given_up(m, c, self.machine(), key);
                        lemma_read(m, self.machine());
                    }
                }
                Ok(())
            },
        }
    }

    /// Converts the value of the item that the iterator is at, whose key was pushed, and pushes it.
    fn push_item_value(&mut self) -> (r: Result<(), Error>)
        requires
            old(self).inv(),
            old(self).good() ==> old(self).machine().stack.len() + 2 <= old(self).machine().limit,
        ensures
            final(self).inv(),
            final(self).identity() == old(self).identity(),
            steady(*old(self), *final(self)),
            final(self).good() ==> {
                let m = old(self).machine();
                let post = final(self).machine();
                &&& old(self).good()
                &&& (Machine { stack: m.stack, ..post }).gathered(m)
                &&& post.settled(m, 0)
                &&& post.yields == m.yields
                &&& post.ends == m.ends
                &&& match r {
                    Ok(_) => {
                        let item = post.items.last();
                        &&& post.items == m.items.push(item)
                        &&& item.0 == m.item_key
                        &&& post.stack == m.stack.push(item.1)
                        &&& post.faults == m.faults
                    },
                    Err(e) => {
                        &&& post.stack == m.stack
                        &&& post.items == m.items
                        &&& post.faults == m.faults.push(
                            Fault { attempt: Attempt::ItemValue, error: e@ },
                        )
                    },
                }
            },
    {
        let ghost m = self.machine();
        let converted = self.state.item_value();
        let ghost c = self.machine();
        proof {
            if self.good() {
                lemma_converted(m, c, handed_out(converted));
                lemma_read(m, c);
            }
        }
        match converted {
            Err(e) => Err(e),
            Ok(value) => {
                proof {
                    if self.good() {
                        assert(handed_out(converted)[0] == value);
                        assert(c.holds(value));
                        let later = m.converted(seq![value]);
                        assert(c.refs() =~= later.refs());
                        assert(c.slot_of(value) == later.slot_of(value));
                        lemma_one_handle(value);
                    }
                }
                self.push_foreign_value(value);
                proof {
                    if self.good() {
                        lemma_given_up(m, c, self.machine(), value);
                        lemma_read(m, self.machine());
                    }
                }
                Ok(())
            },
        }
    }

    /// Converts the item that the iterator is at, and pushes its key and its value.
    fn push_item(&mut self, numbered: bool, position: u64) -> (r: Result<(), Error>)
        requires
            old(self).inv(),
            old(self).good() ==> old(self).machine().stack.len() + 3 <= old(self).machine().limit,
        ensures
            final(self).inv(),
            final(self).identity() == old(self).identity(),
            steady(*old(self), *final(self)),
            final(self).good() ==> {
                let m = old(self).machine();
                let post = final(self).machine();
                &&& old(self).good()
                &&& (Machine { stack: m.stack, ..post }).gathered(m)
                &&& m.stack.is_prefix_of(post.stack)
                &&& post.settled(m, 0)
                &&& post.yields == m.yields
                &&& post.ends == m.ends
                &&& match r {
                    Ok(_) => {
                        let item = post.items.last();
                        &&& post.items == m.items.push(item)
                        &&& post.stack == m.stack.push(item.0).push(item.1)
                        &&& numbered && position <= i64::MAX ==> item.0 == Slot::Integer(
                            position as i64,
                        )
                        &&& post.faults == m.faults
                    },
                    Err(e) => post.unconverted(m, numbered, position, e),
                }
            },
    {
        let ghost m = self.machine();
        match self.push_key(numbered, position) {
            Err(e) => {
                return Err(e);
            },
            Ok(()) => {},
        }
        let ghost keyed = self.machine();
        let r = self.push_item_value();
        proof {
            if self.good() {
                let post = self.machine();
                lemma_read(keyed, post);
                lemma_read(m, keyed);
                lemma_kept(m.heap, keyed.heap, post.heap);
                lemma_submap_of_trans(m.refs(), keyed.refs(), post.refs());
                lemma_read(m, post);
            }
        }
        r
    }

    /// Converts the item that the iterator is at, and stores it in the table on the top.
    fn store_item(&mut self, numbered: bool, position: u64) -> (r: Result<(), Error>)
        requires
            old(self).inv(),
            old(self).good() ==> {
                let m = old(self).machine();
                &&& m.stack.len() > 0
                &&& m.stack.len() + 3 <= m.limit
                &&& m.top(0) is Table
                &&& m.heap.tables.contains_key(m.top(0)->Table_0)
            },
        ensures
            final(self).inv(),
            final(self).identity() == old(self).identity(),
            steady(*old(self), *final(self)),
            final(self).good() ==> {
                let m = old(self).machine();
                let post = final(self).machine();
                let id = m.top(0)->Table_0;
                &&& old(self).good()
                &&& post.settled(m, 0)
                &&& post.yields == m.yields
                &&& post.ends == m.ends
                &&& match r {
                    Ok(_) => {
                        let item = post.items.last();
                        let filled = Heap {
                            tables: post.heap.tables.insert(id, m.heap.tables[id]),
                            ..post.heap
                        };
                        &&& (Machine { heap: filled, ..post }).gathered(m)
                        &&& post.heap.tables.contains_key(id)
                        &&& post.heap.tables[id] == table_put(
                            m.heap.tables[id],
                            m.laws.key(item.0),
                            item.1,
                        )
                        &&& post.items == m.items.push(item)
                        &&& m.laws.key_allowed(item.0)
                        &&& numbered && position <= i64::MAX ==> item.0 == Slot::Integer(
                            position as i64,
                        )
                        &&& post.faults == m.faults
                    },
                    Err(e) => {
                        &&& (Machine { stack: m.stack, ..post }).gathered(m)
                        &&& m.stack.drop_last().is_prefix_of(post.stack)
                        &&& {
                            ||| post.unconverted(m, numbered, position, e)
                            ||| post.unstored(m, numbered, position, e)
                        }
                    },
                }
            },
    {
        let ghost m = self.machine();
        match self.push_item(numbered, position) {
            Err(e) => {
                return Err(e);
            },
            Ok(()) => {},
        }
        let ghost pushed = self.machine();
        let r = self.state.protect_one(3, Instr::RawSet);
        proof {
            if self.good() {
                let post = self.machine();
                let id = m.top(0)->Table_0;
                assert(pushed.heap.tables.contains_key(id));
                assert(post.refs() =~= pushed.refs());
                assert(Machine { stack: m.stack, ..pushed }.refs() =~= pushed.refs());
                assert(Machine { stack: m.stack, ..post }.refs() =~= pushed.refs());
                if r is Err {
                    let item = post.items.last();
                    assert(post.stack =~= m.stack.drop_last());
                    assert(pushed.top_slots(3) =~= seq![m.top(0), item.0, item.1]);
                    lemma_same_rest(
                        pushed,
                        Machine { stack: pushed.stack, ..post },
                    );
                } else {
                    assert(post.stack =~= m.stack);
                    let filled = Heap {
                        tables: post.heap.tables.insert(id, m.heap.tables[id]),
                        ..post.heap
                    };
                    assert(filled.tables =~= pushed.heap.tables);
                    assert(Machine { heap: filled, ..post }.refs() =~= pushed.refs());
                }
            }
        }
        r
    }

    /// Makes a table on the top of the stack, and stores the items of the iterator in it.
    fn gather(&mut self, numbered: bool) -> (r: Result<(), Error>)
        requires
            old(self).inv(),
        ensures
            final(self).inv(),
            final(self).identity() == old(self).identity(),
            steady(*old(self), *final(self)),
            final(self).good() ==> {
                let m = old(self).machine();
                let post = final(self).machine();
                &&& old(self).good()
                &&& match r {
                    Ok(_) => post.filled_up(m, numbered),
                    Err(e) => {
                        &&& m.stack.is_prefix_of(post.stack)
                        &&& (Machine { stack: m.stack, ..post }).gathered(m)
                        &&& post.settled(m, 0)
                        &&& post.made_no_table(m, numbered, e)
                    },
                }
            },
    {
        let ghost m = self.machine();
        // On any callback the stack has at least LUA_MINSTACK slots available.
        match self.state.check_stack(5 + LUA_MINSTACK as usize) {
            Err(e) => {
                proof {
                    if self.good() {
                        lemma_same_rest(m, self.machine());
                        lemma_read(m, self.machine());
                        assert(self.machine().read_since(m).len() == 0);
                    }
                }
                return Err(e);
            },
            Ok(()) => {},
        }
        let ghost checked = self.machine();
        match self.state.protect_one(0, Instr::NewTable) {
            Err(e) => {
                proof {
                    if self.good() {
                        lemma_at_rest(m, checked);
                        lemma_same_rest(checked, Machine { stack: m.stack, ..self.machine() });
                        assert(self.machine().stack =~= m.stack);
                        assert(checked.top_slots(0) =~= Seq::empty());
                        assert(self.machine().refs() =~= m.refs());
                        lemma_read(m, self.machine());
                        assert(self.machine().read_since(m).len() == 0);
                    }
                }
                return Err(e);
            },
            Ok(()) => {},
        }
        proof {
            if self.good() {
                let cur = self.machine();
                lemma_at_rest(m, checked);
                lemma_new_objects(checked, cur);
                assert(Machine { stack: m.stack, ..cur }.refs() =~= m.refs());
                assert(cur.read_since(m).len() == 0);
                assert(filling(m, cur, numbered));
            }
        }
        let mut count: u64 = 0;
        loop
            invariant_except_break
                self.inv(),
                self.identity() == old(self).identity(),
                steady(*old(self), *self),
                self.good() ==> {
                    let cur = self.machine();
                    &&& old(self).good()
                    &&& m.ready()
                    &&& filling(m, cur, numbered)
                    &&& count == cur.items.len() - m.items.len()
                    &&& cur.yields == m.yields + count
                },
            invariant
                m == old(self).machine(),
            ensures
                self.inv(),
                self.identity() == old(self).identity(),
                steady(*old(self), *self),
                self.good() ==> {
                    let cur = self.machine();
                    &&& old(self).good()
                    &&& filling(m, Machine { ends: m.ends, ..cur }, numbered)
                    &&& cur.yields == m.yields + cur.read_since(m).len()
                    &&& cur.ends == m.ends + 1
                },
            decreases u64::MAX - count,
        {
            let ghost cur = self.machine();
            let more = self.state.next_item();
            proof {
                if self.good() {
                    lemma_converted(cur, self.machine(), Seq::empty());
                    lemma_filling_on(m, cur, self.machine(), numbered);
                }
            }
            if !more {
                break;
            }
            if count == u64::MAX {
                self.state.panic("attempt to add with overflow");
                return Err(Error::Other(0));
            }
            let ghost next = self.machine();
            count = count + 1;
            match self.store_item(numbered, count) {
                Err(e) => {
                    proof {
                        if self.good() {
                            let post = self.machine();
                            assert(next.stack.drop_last() =~= m.stack);
                            lemma_kept(m.heap, next.heap, post.heap);
                            assert(Machine { stack: next.stack, ..post }.refs() =~= post.refs());
                            assert(Machine { stack: m.stack, ..next }.refs() =~= next.refs());
                            assert(Machine { stack: m.stack, ..post }.refs() =~= post.refs());
                            lemma_submap_of_trans(m.refs(), next.refs(), post.refs());
                            lemma_no_table(m, next, post, numbered, count, e);
                        }
                    }
                    return Err(e);
                },
                Ok(()) => {},
            }
            proof {
                if self.good() {
                    lemma_filling_more(m, next, self.machine(), numbered);
                }
            }
        }
        proof {
            if self.good() {
                let cur = self.machine();
                let same = Machine { ends: m.ends, ..cur };
                assert(same.refs() =~= cur.refs());
                assert(Machine { stack: m.stack, ..same }.refs() =~= cur.refs());
                assert(Machine { stack: m.stack, ..cur }.refs() =~= cur.refs());
                assert(same.read_since(m) == cur.read_since(m));
            }
        }
        Ok(())
    }

    /// Makes a table, and stores the items of the iterator in it.
    fn fill_table(&mut self, numbered: bool) -> (r: Result<Table, Error>)
        requires
            old(self).inv(),
        ensures
            final(self).inv(),
            final(self).identity() == old(self).identity(),
            spent_only_if(
                exists|filled: Machine|
                    #[trigger] filled.filled_up(old(self).machine(), numbered) && filled.extra.full(),
                *old(self),
                *final(self),
            ),
            r matches Ok(t) ==> t.0.main_state == old(self).identity().main_state,
            final(self).good() ==> {
                let m = old(self).machine();
                let post = final(self).machine();
                &&& old(self).good()
                &&& m.stack.is_prefix_of(post.stack)
                &&& (Machine { stack: m.stack, ..post }).gathered(m)
                &&& match r {
                    Ok(t) => {
                        &&& post.filled_table(m, numbered)
                        &&& post.yields == m.yields + post.read_since(m).len()
                        &&& post.ends == m.ends + 1
                        &&& post.faults == m.faults
                        &&& post.settled(m, 1)
                        &&& !m.live(t.0.index as int)
                        &&& post.live(t.0.index as int)
                        &&& post.pinned(t.0.index as int) == Slot::Table(m.heap.next)
                    },
                    Err(e) => post.settled(m, 0) && post.made_no_table(m, numbered, e),
                }
            },
    {
        let ghost m = self.machine();
        match self.gather(numbered) {
            Err(e) => {
                return Err(e);
            },
            Ok(()) => {},
        }
        let ghost filled = self.machine();
        let r = self.pop_ref();
        proof {
            if self.good() {
                let post = self.machine();
                let index = r.index as int;
                assert(Machine { stack: m.stack, ..filled }.refs() =~= filled.refs());
                assert(post.refs().contains_key(index));
                assert(post.refs()[index] == Slot::Table(m.heap.next));
                assert(!filled.refs().contains_key(index));
                assert(!m.refs().contains_key(index));
                assert(filled.refs().submap_of(post.refs()));
                lemma_submap_of_trans(m.refs(), filled.refs(), post.refs());
                lemma_refs_finite(filled);
                assert(post.refs().dom() =~= filled.refs().dom().insert(index));
                assert(Machine { stack: m.stack, ..post }.refs() =~= post.refs());
                assert(post.read_since(m) == filled.read_since(m));
                assert(post.stack =~= m.stack);
            }
        }
        Ok(Table(r))
    }

    /// Makes a table from an iterator, and leaves the stack as it was.
    fn table_from(&mut self, numbered: bool) -> (r: Result<Table, Error>)
        requires
            old(self).inv(),
        ensures
            final(self).inv(),
            final(self).identity() == old(self).identity(),
            spent_only_if(
                exists|filled: Machine|
                    #[trigger] filled.filled_up(old(self).machine(), numbered) && filled.extra.full(),
                *old(self),
                *final(self),
            ),
            r matches Ok(t) ==> final(self).accepts(Value::Table(t)),
            final(self).good() ==> old(self).good() && final(self).machine().made_table(
                old(self).machine(),
                numbered,
                r,
            ),
    {
        let guard = self.state.stack_guard();
        let r = self.fill_table(numbered);
        let ghost left = self.machine();
        self.leave(guard);
        proof {
            if self.good() {
                let m = old(self).machine();
                let post = self.machine();
                lemma_cut(left.stack, m.stack);
                assert(Machine { stack: m.stack, ..left }.refs() =~= left.refs());
                assert(post.read_since(m) == left.read_since(m));
                if r is Ok {
                    let index = (r->Ok_0).0.index as int;
                    assert(left.refs().contains_key(index));
                    assert(post.refs().contains_key(index));
                    assert(post.refs()[index] == left.refs()[index]);
                }
            }
        }
        r
    }

    /// Creates a table and fills it with values from an iterator.
    ///
    /// The driver has the iterator. It is advanced item by item, and of each item the key and then
    /// the value is converted and stored, until the iterator ends or something fails.
    pub fn create_table_from(&mut self) -> (r: Result<Table, Error>)
        requires
            old(self).inv(),
        ensures
            final(self).inv(),
            final(self).identity() == old(self).identity(),
            spent_only_if(
                exists|filled: Machine|
                    #[trigger] filled.filled_up(old(self).machine(), false) && filled.extra.full(),
                *old(self),
                *final(self),
            ),
            r matches Ok(t) ==> final(self).accepts(Value::Table(t)),
            final(self).good() ==> old(self).good() && final(self).machine().made_table(
                old(self).machine(),
                false,
                r,
            ),
    {
        self.table_from(false)
    }

    /// Creates a table from an iterator of values, using `1..` as the keys.
    ///
    /// The driver has the iterator.
    pub fn create_sequence_from(&mut self) -> (r: Result<Table, Error>)
        requires
            old(self).inv(),
        ensures
            final(self).inv(),
            final(self).identity() == old(self).identity(),
            spent_only_if(
                exists|filled: Machine|
                    #[trigger] filled.filled_up(old(self).machine(), true) && filled.extra.full(),
                *old(self),
                *final(self),
            ),
            r matches Ok(t) ==> final(self).accepts(Value::Table(t)),
            final(self).good() ==> old(self).good() && final(self).machine().made_table(
                old(self).machine(),
                true,
                r,
            ),
    {
        self.table_from(true)
    }
}

/// What was read and what is held does not depend on the stack.
proof fn lemma_read(m: Machine, post: Machine)
    ensures
        (Machine { stack: m.stack, ..post }).refs() == post.refs(),
{
    assert((Machine { stack: m.stack, ..post }).refs() =~= post.refs());
}

/// A value that was handed out was pushed, and its reference given up.
proof fn lemma_given_up(m: Machine, c: Machine, post: Machine, value: Value)
    requires
        c.extra.wf(),
        m.refs().submap_of(c.refs()),
        c.holds(value),
        value.handle() is Some ==> !m.refs().contains_key(value.handle()->0.index as int),
        c.refs().len() - c.others == m.refs().len() - m.others + if value.handle() is Some {
            1int
        } else {
            0
        },
        post.refs() == without(c.refs(), value),
        post.others == c.others,
    ensures
        m.refs().submap_of(post.refs()),
        post.settled(m, 0),
{
    lemma_refs_finite(c);
    if value.handle() is Some {
        let index = value.handle()->0.index as int;
        assert(c.refs().contains_key(index));
        assert(post.refs().dom() =~= c.refs().dom().remove(index));
        assert forall|i: int| #[trigger] m.refs().contains_key(i) implies (
        #[trigger] post.refs().contains_key(i)) && m.refs()[i] == post.refs()[i] by {
            assert(c.refs().contains_key(i));
        }
    }
}

/// An item could not be converted, or could not be stored.
proof fn lemma_no_table(
    m: Machine,
    next: Machine,
    post: Machine,
    numbered: bool,
    count: u64,
    e: Error,
)
    requires
        filling(m, next, numbered),
        count == next.items.len() - m.items.len() + 1,
        next.yields == m.yields + count,
        post.yields == next.yields,
        post.ends == next.ends,
        post.laws == m.laws,
        post.unconverted(next, numbered, count, e) || post.unstored(next, numbered, count, e),
    ensures
        post.made_no_table(m, numbered, e),
{
    let before = next.read_since(m);
    let items = post.read_since(m);
    if post.unconverted(next, numbered, count, e) {
        assert(items == before);
    } else {
        let item = post.items.last();
        assert(items =~= before.push(item));
        assert(items.drop_last() =~= before);
        if numbered {
            assert forall|i: int| 0 <= i < items.len() && i + 1 <= i64::MAX implies (
            #[trigger] items[i]).0 == Slot::Integer((i + 1) as i64) by {
                if i < before.len() {
                    assert(items[i] == before[i]);
                }
            }
        }
    }
}

/// One item more was read, and stored in the table.
proof fn lemma_filled_more(laws: Laws, items: Seq<(Slot, Slot)>, item: (Slot, Slot))
    ensures
        laws.filled(items.push(item)) == table_put(
            laws.filled(items),
            laws.key(item.0),
            item.1,
        ),
{
    assert(items.push(item).drop_last() =~= items);
}

/// One item more was read and stored in the new table.
proof fn lemma_filling_more(m: Machine, cur: Machine, post: Machine, numbered: bool)
    requires
        m.heap.fresh(),
        filling(m, cur, numbered),
        ({
            let id = m.heap.next;
            let item = post.items.last();
            let filled = Heap {
                tables: post.heap.tables.insert(id, cur.heap.tables[id]),
                ..post.heap
            };
            &&& (Machine { heap: filled, ..post }).gathered(cur)
            &&& post.heap.tables.contains_key(id)
            &&& post.heap.tables[id] == table_put(
                cur.heap.tables[id],
                cur.laws.key(item.0),
                item.1,
            )
            &&& post.items == cur.items.push(item)
            &&& cur.laws.key_allowed(item.0)
            &&& numbered && cur.items.len() - m.items.len() + 1 <= i64::MAX ==> item.0
                == Slot::Integer((cur.items.len() - m.items.len() + 1) as i64)
            &&& post.faults == cur.faults
            &&& post.ends == cur.ends
            &&& post.settled(cur, 0)
        }),
    ensures
        filling(m, post, numbered),
{
    let id = m.heap.next;
    let item = post.items.last();
    let filled = Heap { tables: post.heap.tables.insert(id, cur.heap.tables[id]), ..post.heap };
    assert(post.read_since(m) =~= cur.read_since(m).push(item));
    lemma_filled_more(m.laws, cur.read_since(m), item);
    assert forall|i: int| 0 <= i < post.read_since(m).len() implies m.laws.key_allowed(
        (#[trigger] post.read_since(m)[i]).0,
    ) by {
        if i < cur.read_since(m).len() {
            assert(post.read_since(m)[i] == cur.read_since(m)[i]);
        }
    }
    if numbered {
        assert forall|i: int|
            0 <= i < post.read_since(m).len() && i + 1 <= i64::MAX implies (
        #[trigger] post.read_since(m)[i]).0 == Slot::Integer((i + 1) as i64) by {
            if i < cur.read_since(m).len() {
                assert(post.read_since(m)[i] == cur.read_since(m)[i]);
            }
        }
    }
    lemma_kept(m.heap, cur.heap, filled);
    assert(m.heap.tables.submap_of(post.heap.tables)) by {
        assert forall|k: nat| #[trigger] m.heap.tables.contains_key(k) implies (
        #[trigger] post.heap.tables.contains_key(k)) && m.heap.tables[k]
            == post.heap.tables[k] by {
            assert(filled.tables.contains_key(k));
        }
    }
    assert(Machine { heap: filled, ..post }.refs() =~= post.refs());
    assert(Machine { stack: m.stack, ..cur }.refs() =~= cur.refs());
    assert(Machine { stack: m.stack, ..post }.refs() =~= post.refs());
    lemma_submap_of_trans(m.refs(), cur.refs(), post.refs());
}

/// The iterator was advanced.
proof fn lemma_filling_on(m: Machine, cur: Machine, post: Machine, numbered: bool)
    requires
        m.heap.fresh(),
        filling(m, cur, numbered),
        cur.ready(),
        cur.can_grow(Seq::empty()),
        post == (Machine {
            yields: post.yields,
            ends: post.ends,
            ..cur.converted(Seq::empty())
        }),
    ensures
        filling(m, Machine { ends: m.ends, ..post }, numbered),
        post.ready(),
{
    lemma_converted(cur, post, Seq::empty());
    lemma_kept(m.heap, cur.heap, post.heap);
    let same = Machine { ends: m.ends, ..post };
    assert(same.refs() =~= post.refs());
    assert(Machine { stack: m.stack, ..cur }.refs() =~= cur.refs());
    assert(Machine { stack: m.stack, ..same }.refs() =~= post.refs());
    lemma_submap_of_trans(m.refs(), cur.refs(), post.refs());
    assert(same.read_since(m) == cur.read_since(m));
    assert(cur.heap.tables.contains_key(m.heap.next));
    assert(post.heap.tables.contains_key(m.heap.next));
}

} // verus!

//! What holds of several operations together.
//!
//! Each law speaks of the machines between the operations, and takes as known what the operations
//! promise of them.
use crate::answers::slots_held;
use crate::boot::global_table;
use crate::extra::{ExtraData, ExtraView};
use crate::machine::{
    Attempt, Chunk, Heap, LUA_ERRSYNTAX, LUA_OK, LUA_REFNIL, LUA_TNUMBER, LUA_TSTRING, Laws,
    Machine, Slot, refs_grown, same_number, table_get, text_slot,
};
use crate::metatable::lemma_rust_function;
use crate::protocol::{Name, Op, Reply, Routine};
use crate::registry::{
    named_value_read, named_value_set, named_value_unset, placed_value_read, value_placed,
    value_removed, values_expired,
};
use crate::relations::{
    lemma_one_handle, lemma_one_more_held, lemma_outlives, lemma_same_rest, without,
};
use crate::run::protected_outcome;
use crate::tables::numbered_keys;
use crate::userdata::StaticUserDataMethods;
use crate::value::{
    AnyUserData, Callback, Error, Function, LuaRef, MultiValue, RegistryKey, Table, Value,
};
use vstd::prelude::*;
use vstd::utf8::{decode_utf8, encode_utf8, encode_utf8_decode_utf8};

verus! {

/// Different names are different keys of the registry.
pub proof fn law_names_are_distinct(name: Seq<char>, other: Seq<char>)
    requires
        name != other,
    ensures
        text_slot(name) != text_slot(other),
{
    encode_utf8_decode_utf8(name);
    encode_utf8_decode_utf8(other);
    if encode_utf8(name) == encode_utf8(other) {
        assert(decode_utf8(encode_utf8(name)) == decode_utf8(encode_utf8(other)));
    }
}

/// A named registry value that is read after it was set is what was set.
pub proof fn law_named_value_round_trip(
    m: Machine,
    set: Machine,
    read: Machine,
    name: Seq<char>,
    value: Value,
    got: Value,
)
    requires
        named_value_set(m, set, name, value),
        named_value_read(set, read, name, got),
    ensures
        read.slot_of(got) == m.slot_of(value),
{
}

/// To set a named registry value leaves those of other names alone.
pub proof fn law_named_values_are_apart(
    m: Machine,
    set: Machine,
    read: Machine,
    name: Seq<char>,
    value: Value,
    other: Seq<char>,
    got: Value,
)
    requires
        name != other,
        named_value_set(m, set, name, value),
        named_value_read(set, read, other, got),
    ensures
        read.slot_of(got) == m.registry_at(text_slot(other)),
{
    law_names_are_distinct(name, other);
}

/// To unset a named registry value is to set it to nil, and it reads as nil afterwards.
pub proof fn law_unset_is_set_to_nil(
    m: Machine,
    unset: Machine,
    read: Machine,
    name: Seq<char>,
    got: Value,
)
    requires
        named_value_unset(m, unset, name),
        named_value_read(unset, read, name, got),
    ensures
        named_value_set(m, unset, name, Value::Nil),
        got is Nil,
{
}

/// A value that is read by the key under which it was placed is what was placed.
pub proof fn law_placed_value_round_trip(
    m: Machine,
    placed: Machine,
    read: Machine,
    value: Value,
    key: RegistryKey,
    got: Value,
)
    requires
        m.ready(),
        value_placed(m, placed, value, key),
        placed_value_read(placed, read, key, got),
    ensures
        key.unref_list == placed.extra.registry_unref_list,
        read.slot_of(got) == m.slot_of(value),
{
}

/// To place a value leaves those of other keys alone.
pub proof fn law_placed_values_are_apart(
    m: Machine,
    placed: Machine,
    read: Machine,
    value: Value,
    key: RegistryKey,
    other: RegistryKey,
    got: Value,
)
    requires
        m.ready(),
        m.holds_key(other),
        value_placed(m, placed, value, key),
        placed_value_read(placed, read, other, got),
    ensures
        placed.holds_key(other),
        read.slot_of(got) == m.registry_at(Slot::Integer(other.registry_id as i64)),
{
}

/// Named values and placed values are apart: to set a name leaves what is under a key alone, and to
/// place a value leaves what is under a name alone.
pub proof fn law_names_and_keys_are_apart(
    m: Machine,
    after: Machine,
    name: Seq<char>,
    value: Value,
    key: RegistryKey,
)
    ensures
        named_value_set(m, after, name, value) ==> after.registry_at(
            Slot::Integer(key.registry_id as i64),
        ) == m.registry_at(Slot::Integer(key.registry_id as i64)),
        value_placed(m, after, value, key) ==> after.registry_at(text_slot(name)) == m.registry_at(
            text_slot(name),
        ),
{
}

/// To remove a value clears its place, which can be given out again, and leaves other keys and
/// their values alone. What a place reads as that is not given out is up to Lua.
pub proof fn law_removed_value_is_gone(
    m: Machine,
    after: Machine,
    key: RegistryKey,
    other: RegistryKey,
)
    requires
        m.ready(),
        m.holds_key(key),
        m.holds_key(other),
        other.registry_id != key.registry_id,
        key.registry_id >= 0,
        value_removed(m, after, key),
    ensures
        cleared(after.heap, key.registry_id),
        after.heap.allottable(key.registry_id),
        after.holds_key(other),
        after.registry_at(Slot::Integer(other.registry_id as i64)) == m.registry_at(
            Slot::Integer(other.registry_id as i64),
        ),
{
}

/// The place of the registry is not given out in a heap, and holds nothing of what it held.
pub open spec fn cleared(heap: Heap, id: i32) -> bool {
    &&& !heap.allotted.contains(id)
    &&& !heap.registry.contains_key(Slot::Integer(id as i64))
}

/// What is left of the registry when places are cleared.
pub(crate) proof fn lemma_release_all(heap: Heap, ids: Seq<i32>)
    ensures
        forall|i: int|
            0 <= i < ids.len() && (#[trigger] ids[i]) >= 0 ==> cleared(
                heap.release_all(ids),
                ids[i],
            ),
        forall|id: i32|
            !ids.contains(id) ==> #[trigger] heap.release_all(ids).allotted.contains(id)
                == heap.allotted.contains(id),
        forall|key: Slot|
            (forall|i: int| 0 <= i < ids.len() ==> key != Slot::Integer(#[trigger] ids[i] as i64))
                ==> {
                &&& #[trigger] table_get(heap.release_all(ids).registry, key) == table_get(
                    heap.registry,
                    key,
                )
                &&& heap.release_all(ids).registry.contains_key(key)
                    == heap.registry.contains_key(key)
            },
    decreases ids.len(),
{
    if ids.len() > 0 {
        let rest = ids.drop_last();
        let before = heap.release_all(rest);
        let after = heap.release_all(ids);
        lemma_release_all(heap, rest);
        assert forall|i: int| 0 <= i < ids.len() && (#[trigger] ids[i]) >= 0 implies cleared(
            after,
            ids[i],
        ) by {
            if i < rest.len() {
                assert(rest[i] == ids[i]);
                assert(cleared(before, rest[i]));
            }
        }
        assert forall|id: i32| !ids.contains(id) implies #[trigger] after.allotted.contains(id)
            == heap.allotted.contains(id) by {
            assert(ids[ids.len() - 1] != id);
            if rest.contains(id) {
                let i = choose|i: int| 0 <= i < rest.len() && rest[i] == id;
                assert(ids[i] == id);
            }
        }
        assert forall|key: Slot|
            (forall|i: int|
                0 <= i < ids.len() ==> key != Slot::Integer(
                    #[trigger] ids[i] as i64,
                )) implies {
            &&& #[trigger] table_get(after.registry, key) == table_get(heap.registry, key)
            &&& after.registry.contains_key(key) == heap.registry.contains_key(key)
        } by {
            assert(key != Slot::Integer(ids[ids.len() - 1] as i64));
            assert forall|i: int| 0 <= i < rest.len() implies key != Slot::Integer(
                #[trigger] rest[i] as i64,
            ) by {
                assert(rest[i] == ids[i]);
            }
            assert(table_get(before.registry, key) == table_get(heap.registry, key));
        }
    }
}

/// The values whose keys are gone are removed, their places can be given out again, and the values
/// whose keys are not gone, and those with a name, are left alone.
pub proof fn law_expired_values_are_gone(
    m: Machine,
    after: Machine,
    ids: Seq<i32>,
    key: RegistryKey,
    name: Seq<char>,
)
    requires
        m.ready(),
        values_expired(m, after, ids),
    ensures
        forall|i: int|
            0 <= i < ids.len() && (#[trigger] ids[i]) >= 0 ==> cleared(after.heap, ids[i])
                && after.heap.allottable(ids[i]),
        m.holds_key(key) && !ids.contains(key.registry_id) ==> {
            &&& after.holds_key(key)
            &&& after.registry_at(Slot::Integer(key.registry_id as i64)) == m.registry_at(
                Slot::Integer(key.registry_id as i64),
            )
        },
        after.follows_text(encode_utf8(name)) == m.follows_text(encode_utf8(name)),
        after.registry_at(text_slot(name)) == m.registry_at(text_slot(name)),
{
    lemma_release_all(m.heap, ids);
    assert forall|i: int| 0 <= i < ids.len() && (#[trigger] ids[i]) >= 0 implies cleared(
        after.heap,
        ids[i],
    ) && after.heap.allottable(ids[i]) by {
        assert(m.key_place(ids[i]));
        assert(m.heap.allotted.contains(ids[i]));
    }
    assert(table_get(m.heap.release_all(ids).registry, text_slot(name)) == table_get(
        m.heap.registry,
        text_slot(name),
    ));
    if m.holds_key(key) && !ids.contains(key.registry_id) {
        assert forall|i: int| 0 <= i < ids.len() implies Slot::Integer(key.registry_id as i64)
            != Slot::Integer(#[trigger] ids[i] as i64) by {
            assert(ids[i] != key.registry_id);
        }
        assert(table_get(
            m.heap.release_all(ids).registry,
            Slot::Integer(key.registry_id as i64),
        ) == table_get(m.heap.registry, Slot::Integer(key.registry_id as i64)));
        assert(after.heap.allotted.contains(key.registry_id) == m.heap.allotted.contains(
            key.registry_id,
        ));
    }
}

/// A chunk is loaded if it compiles, unless Lua reports something else than an error of syntax; and
/// one that does not compile is never loaded. The name makes no difference.
pub proof fn law_what_compiles_is_loaded(
    m: Machine,
    after: Machine,
    chunk: Chunk,
    r: Result<Function, Error>,
)
    requires
        match r {
            Ok(f) => after.loaded_chunk(m, chunk, f),
            Err(e) => after.load_failed(m, chunk, e),
        },
    ensures
        r is Ok ==> (m.laws.compiles)(chunk.source),
        (m.laws.compiles)(chunk.source) ==> {
            ||| r is Ok
            ||| after.faults.last().attempt matches Attempt::Load(_, status) && status
                != LUA_ERRSYNTAX
        },
        r is Err ==> after.heap == m.heap && after.stack == m.stack,
{
}

/// To load a chunk and to call the function without arguments is to execute the chunk.
pub proof fn law_exec_is_load_and_call(
    m: Machine,
    loaded: Machine,
    after: Machine,
    chunk: Chunk,
    f: Function,
    r: Result<MultiValue, Error>,
)
    requires
        m.ready(),
        loaded.loaded_chunk(m, chunk, f),
        after.ran_function(loaded, f, r),
    ensures
        after.ran_chunk(m, chunk, r),
{
    let index = f.0.index as int;
    assert(loaded.refs()[index] == Slot::Function(m.heap.next));
    assert(after.calls.drop_last() =~= m.calls);
    assert(!m.refs().contains_key(index));
    assert(loaded.refs().remove(index) =~= m.refs());
    lemma_one_more_held(m, loaded, Value::Function(f));
    lemma_one_handle(Value::Function(f));
    lemma_outlives(m, loaded, after, after);
    if r is Ok {
        let values = (r->Ok_0)@;
        assert forall|i: int|
            0 <= i < values.len() && (#[trigger] values[i]).handle() is Some implies !m.live(
            values[i].handle()->0.index as int,
        ) by {
            let k = values[i].handle()->0.index as int;
            assert(!loaded.live(k));
            assert(!loaded.refs().contains_key(k));
        }
    }
}

/// A table that is filled from an iterator holds under each key the value of the last item with
/// this key.
pub proof fn law_last_item_wins(laws: Laws, items: Seq<(Slot, Slot)>, i: int)
    requires
        0 <= i < items.len(),
        forall|j: int|
            i < j < items.len() ==> laws.key((#[trigger] items[j]).0) != laws.key(items[i].0),
    ensures
        table_get(laws.filled(items), laws.key(items[i].0)) == items[i].1,
    decreases items.len(),
{
    let rest = items.drop_last();
    if i < items.len() - 1 {
        assert(items[items.len() - 1] == items.last());
        assert(rest[i] == items[i]);
        assert forall|j: int| i < j < rest.len() implies laws.key((#[trigger] rest[j]).0)
            != laws.key(rest[i].0) by {
            assert(rest[j] == items[j]);
        }
        law_last_item_wins(laws, rest, i);
    }
}

/// A table that is filled from an iterator holds nothing under a key that no item has.
pub proof fn law_no_other_items(laws: Laws, items: Seq<(Slot, Slot)>, key: Slot)
    requires
        forall|j: int| 0 <= j < items.len() ==> laws.key((#[trigger] items[j]).0) != key,
    ensures
        table_get(laws.filled(items), key) is Nil,
    decreases items.len(),
{
    if items.len() > 0 {
        let rest = items.drop_last();
        assert(items[items.len() - 1] == items.last());
        assert forall|j: int| 0 <= j < rest.len() implies laws.key((#[trigger] rest[j]).0)
            != key by {
            assert(rest[j] == items[j]);
        }
        law_no_other_items(laws, rest, key);
    }
}

/// A table that is made from an iterator of values holds them in order under the keys from 1 on.
pub proof fn law_sequence_counts_from_one(
    m: Machine,
    after: Machine,
    r: Result<Table, Error>,
    i: int,
)
    requires
        after.made_table(m, true, r),
        r is Ok,
        after.read_since(m).len() <= i64::MAX,
        0 <= i < after.read_since(m).len(),
    ensures
        table_get(after.heap.tables[m.heap.next], Slot::Integer((i + 1) as i64))
            == after.read_since(m)[i].1,
{
    let items = after.read_since(m);
    assert(numbered_keys(items));
    assert(items[i].0 == Slot::Integer((i + 1) as i64));
    assert forall|j: int| i < j < items.len() implies after.laws.key((#[trigger] items[j]).0)
        != after.laws.key(items[i].0) by {
        assert(items[j].0 == Slot::Integer((j + 1) as i64));
    }
    law_last_item_wins(after.laws, items, i);
}

/// A value can be coerced into a string if and only if it is a string or a number. An integer is the
/// integer, and a number the number, that it can be coerced into, each integer can be coerced into a
/// number, and what is neither a number nor a string can be coerced into neither.
pub proof fn law_what_can_be_coerced(laws: Laws, slot: Slot)
    ensures
        laws.to_text(slot) is Some <==> slot.tag() == LUA_TSTRING || slot.tag() == LUA_TNUMBER,
        slot matches Slot::Integer(i) ==> laws.to_integer(slot) == Some(i),
        slot matches Slot::Number(n) ==> laws.to_number(slot) == Some(n),
        slot is Integer ==> laws.to_number(slot) is Some,
        slot.tag() != LUA_TSTRING && slot.tag() != LUA_TNUMBER ==> laws.to_integer(slot) is None
            && laws.to_number(slot) is None,
{
}

/// An integer that is coerced into a string and back is the same integer.
pub proof fn law_integer_text_round_trip(m: Machine, i: i64)
    requires
        m.ready(),
    ensures
        m.laws.to_text(Slot::Integer(i)) matches Some(text) && m.laws.to_integer(text) == Some(i),
{
    assert((m.laws.text_integer)((m.laws.integer_text)(i)) == Some(i));
}

/// What can be coerced into an integer can be coerced into a number, and that is the number which the
/// integer becomes; where the integer is zero, it may be negative zero.
pub proof fn law_integers_are_numbers(m: Machine, slot: Slot, i: i64)
    requires
        m.ready(),
        m.laws.to_integer(slot) == Some(i),
    ensures
        m.laws.to_number(slot) matches Some(bits) && same_number(bits, (m.laws.widened)(i)),
{
    match slot {
        Slot::Number(bits) => {
            assert((m.laws.integral)(bits) == Some(i));
        },
        Slot::Str(text) => {
            assert((m.laws.text_integer)(text) == Some(i));
        },
        _ => {},
    }
}

/// A value that is pushed and then popped is the same to Lua, and the references of others stay as
/// they were.
pub proof fn law_pushed_value_comes_back(
    m: Machine,
    pushed: Machine,
    popped: Machine,
    value: Value,
    got: Value,
)
    requires
        m.holds(value),
        pushed.agrees(m.push(m.slot_of(value))),
        pushed.refs() == without(m.refs(), value),
        popped.agrees(pushed.pop(1)),
        popped.hands_out(pushed, got, pushed.top(0)),
    ensures
        popped.slot_of(got) == m.slot_of(value),
        popped.stack == m.stack,
        without(popped.refs(), got) == without(m.refs(), value),
{
    assert(popped.stack =~= m.stack);
    if got.handle() is Some {
        let index = got.handle()->0.index as int;
        assert(!pushed.refs().contains_key(index));
        assert(pushed.refs().insert(index, pushed.top(0)).remove(index) =~= pushed.refs());
    }
}

/// A handle stays valid, and goes on pointing to the same object, as long as its reference is kept.
pub proof fn law_handles_stay_valid(m: Machine, after: Machine, value: Value)
    requires
        m.holds(value),
        after.main_state == m.main_state,
        m.refs().submap_of(after.refs()),
    ensures
        after.holds(value),
        after.slot_of(value) == m.slot_of(value),
{
    if value.handle() is Some {
        assert(after.refs().contains_key(value.handle()->0.index as int));
    }
}

/// A handle that was handed out has a reference of its own, and leaves the handles alone that were
/// there.
pub proof fn law_new_handle_is_apart(
    m: Machine,
    made: Machine,
    value: Value,
    slot: Slot,
    other: Value,
)
    requires
        m.holds(other),
        made.main_state == m.main_state,
        made.hands_out(m, value, slot),
    ensures
        value.handle() is Some && other.handle() is Some ==> value.handle()->0.index
            != other.handle()->0.index,
        made.holds(other),
        made.slot_of(other) == m.slot_of(other),
{
    assert(m.refs().submap_of(made.refs()));
    law_handles_stay_valid(m, made, other);
}

/// A handle that was handed out and is given up leaves no reference behind.
pub proof fn law_given_up_handle_leaves_nothing(
    m: Machine,
    made: Machine,
    after: Machine,
    value: Value,
    slot: Slot,
)
    requires
        made.hands_out(m, value, slot),
        after.refs() == without(made.refs(), value),
    ensures
        after.refs() == m.refs(),
{
    if value.handle() is Some {
        let index = value.handle()->0.index as int;
        assert(!m.refs().contains_key(index));
        assert(m.refs().insert(index, slot).remove(index) =~= m.refs());
    }
}

/// A reference and its clone point to the same object, and each does so after the other is given
/// up.
pub proof fn law_clone_points_to_the_same(
    m: Machine,
    cloned: Machine,
    first: LuaRef,
    clone: LuaRef,
)
    requires
        m.live(first.index as int),
        !m.live(clone.index as int),
        cloned.refs() == m.refs().insert(clone.index as int, m.pinned(first.index as int)),
    ensures
        ({
            let left = cloned.refs().remove(first.index as int);
            let kept = cloned.refs().remove(clone.index as int);
            &&& left.contains_key(clone.index as int)
            &&& left[clone.index as int] == m.pinned(first.index as int)
            &&& kept == m.refs()
        }),
{
    assert(m.refs().contains_key(first.index as int));
    assert(!m.refs().contains_key(clone.index as int));
    assert(cloned.refs().remove(clone.index as int) =~= m.refs());
}

/// No reference is held if and only if as many slots are free as have ever been in use; the free
/// slots are then these slots in some order.
pub proof fn law_free_slots_when_nothing_is_held(m: Machine)
    requires
        m.extra.wf(),
    ensures
        m.refs() == Map::<int, Slot>::empty() <==> m.extra.ref_free.len() == m.extra.ref_stack_max,
        m.refs() == Map::<int, Slot>::empty() ==> {
            &&& m.extra.ref_free.no_duplicates()
            &&& forall|i: i32|
                1 <= i <= m.extra.ref_stack_max <==> #[trigger] m.extra.ref_free.contains(i)
        },
{
    let free = m.extra.ref_free;
    let max = m.extra.ref_stack_max as int;
    let range = vstd::set_lib::set_int_range(1, max + 1);
    let ints = free.map_values(|i: i32| i as int);
    vstd::set_lib::lemma_int_range(1, max + 1);
    assert(ints.no_duplicates());
    ints.unique_seq_to_set();
    vstd::seq_lib::seq_to_set_is_finite(ints);
    assert(ints.to_set().subset_of(range)) by {
        assert forall|i: int| ints.to_set().contains(i) implies range.contains(i) by {
            let k = choose|k: int| 0 <= k < ints.len() && ints[k] == i;
            assert(1 <= free[k] <= max);
        }
    }
    if free.len() == max {
        vstd::set_lib::lemma_subset_equality(ints.to_set(), range);
        assert forall|i: int| !m.refs().contains_key(i) by {
            if 1 <= i <= max {
                assert(range.contains(i));
                assert(ints.to_set().contains(i));
                let k = choose|k: int| 0 <= k < ints.len() && ints[k] == i;
                assert(free[k] == i as i32);
            }
        }
        assert(m.refs() =~= Map::empty());
    }
    if m.refs() == Map::<int, Slot>::empty() {
        assert forall|i: int| range.contains(i) implies ints.to_set().contains(i) by {
            assert(!m.refs().contains_key(i));
            assert(!m.live(i));
            let k = choose|k: int| 0 <= k < free.len() && free[k] == i as i32;
            assert(ints[k] == i);
        }
        assert(ints.to_set() =~= range);
        assert forall|i: i32| 1 <= i <= max <==> #[trigger] free.contains(i) by {
            if 1 <= i <= max {
                assert(!m.refs().contains_key(i as int));
                assert(!m.extra.live(i as int));
            }
            if free.contains(i) {
                let k = choose|k: int| 0 <= k < free.len() && free[k] == i;
                assert(1 <= free[k] <= max);
            }
        }
    }
}

/// A reference takes the slot that was freed last, or a new one where none is free; it was not held,
/// and no other slot changes hands. Only where every slot is taken more room is made for them, twice as
/// much.
pub proof fn law_slot_for_a_reference(before: ExtraView, after: ExtraView, index: i32)
    requires
        before.wf(),
        before.pins(after, index),
    ensures
        !before.live(index as int),
        after.live(index as int),
        forall|i: int| i != index ==> #[trigger] after.live(i) == before.live(i),
        before.ref_free.len() > 0 ==> {
            &&& index == before.ref_free.last()
            &&& after.ref_stack_max == before.ref_stack_max
        },
        before.ref_free.len() == 0 ==> index == before.ref_stack_max + 1 && after.ref_stack_max
            == index,
        after.ref_stack_max <= after.ref_stack_size,
        after.ref_stack_size == if before.full() {
            2 * before.ref_stack_size
        } else {
            before.ref_stack_size as int
        },
{
    let free = before.ref_free;
    if free.len() > 0 {
        let last = free.len() - 1;
        assert(1 <= free[last] <= before.ref_stack_max);
        assert(free.contains(index));
        assert forall|i: int| i != index && 1 <= i <= before.ref_stack_max implies (
        #[trigger] after.live(i)) == before.live(i) by {
            if free.contains(i as i32) {
                let k = choose|k: int| 0 <= k < free.len() && free[k] == i as i32;
                assert(after.ref_free[k] == i as i32);
            }
            if after.ref_free.contains(i as i32) {
                let k = choose|k: int| 0 <= k < after.ref_free.len() && after.ref_free[k] == i as i32;
                assert(free[k] == i as i32);
            }
        }
        if after.ref_free.contains(index) {
            let k = choose|k: int| 0 <= k < after.ref_free.len() && after.ref_free[k] == index;
            assert(free[k] == free[last]);
        }
    }
}

/// The metatable of a userdata type is made once: when the type is looked up again, its place is
/// the same and nothing changes, and the type is not asked for its methods again.
pub proof fn law_type_is_registered_once(
    m: Machine,
    known: Machine,
    again: Machine,
    kind: u64,
    first: Result<i32, Error>,
    second: Result<i32, Error>,
)
    requires
        known.registered(m, kind, first),
        first is Ok,
        again.registered(known, kind, second),
    ensures
        second == first,
        again == known,
        again.registrations == known.registrations,
{
}

/// The known types of userdata have places and metatables of their own, which are those of no other
/// type.
pub proof fn law_types_are_apart(m: Machine, kind: u64, other: u64)
    requires
        m.ready(),
        m.extra.registered_userdata.contains_key(kind),
        m.extra.registered_userdata.contains_key(other),
        kind != other,
    ensures
        m.extra.registered_userdata[kind] != m.extra.registered_userdata[other],
        m.type_table(kind) is Table,
        m.type_table(kind) != m.type_table(other),
{
}

/// A userdata of a type has the metatable of the type, and holds the Rust value that it was made
/// for.
pub proof fn law_userdata_has_the_metatable_of_its_type(
    m: Machine,
    after: Machine,
    kind: u64,
    payload: usize,
    ud: AnyUserData,
)
    requires
        m.ready(),
        after.ready(),
        after.made_userdata(m, kind, payload, Ok(ud)),
    ensures
        after.extra.registered_userdata.contains_key(kind),
        after.slot_of(Value::UserData(ud)) matches Slot::UserData(id) && {
            &&& after.heap.payloads[id] == payload
            &&& after.heap.metatables.contains_key(Slot::UserData(id))
            &&& after.heap.metatables[Slot::UserData(id)] == after.type_table(kind)
        },
{
    let (middle, found) = choose|middle: Machine, found: Result<i32, Error>| #[trigger]
        after.made_userdata_via(m, middle, found, kind, payload, Ok(ud));
    let id = found->Ok_0;
    assert(after.extra.registered_userdata.contains_key(kind));
    assert(after.extra.registered_userdata[kind] == id);
    assert(after.heap.registry == middle.heap.registry);
    assert(after.heap.allotted.contains(id));
    assert(after.type_table(kind) is Table);
}

/// The auxiliary thread, whose stack keeps alive what references point to, is itself kept alive by
/// the registry, and neither a key nor a userdata type owns its place there.
pub proof fn law_auxiliary_thread_is_kept(m: Machine, key: RegistryKey)
    requires
        m.ready(),
    ensures
        table_get(m.heap.registry, Slot::Integer(m.anchor as i64)) == Slot::Thread(
            m.heap.handles[m.aux_thread],
        ),
        m.holds_key(key) ==> key.registry_id != m.anchor,
        !m.extra.registered_userdata.contains_value(m.anchor),
{
    assert(m.heap.allotted.contains(m.anchor));
    if m.extra.registered_userdata.contains_value(m.anchor) {
        let kind = choose|kind: u64|
            m.extra.registered_userdata.contains_key(kind) && m.extra.registered_userdata[kind]
                == m.anchor;
        assert(m.type_table(kind) is Table);
    }
}

/// Whatever code of others did, a known type of userdata is known still, in the same place and with
/// the same metatable, and the table of globals is the same.
pub proof fn law_types_and_globals_outlive_code(m: Machine, after: Machine, kind: u64)
    requires
        m.ready(),
        after.ready(),
        m.outlives(after),
    ensures
        after.heap.globals() == m.heap.globals(),
        m.extra.registered_userdata.contains_key(kind) ==> {
            &&& after.extra.registered_userdata.contains_key(kind)
            &&& after.extra.registered_userdata[kind] == m.extra.registered_userdata[kind]
            &&& after.type_table(kind) == m.type_table(kind)
        },
{
    if m.extra.registered_userdata.contains_key(kind) {
        let id = m.extra.registered_userdata[kind];
        assert(after.extra.registered_userdata.contains_key(kind));
        assert(m.heap.allotted.contains(id));
        assert(after.heap.allotted.contains(after.extra.registered_userdata[kind]));
        assert(table_get(after.heap.registry, Slot::Integer(id as i64)) == table_get(
            m.heap.registry,
            Slot::Integer(id as i64),
        ));
    }
}

/// Whatever code of others did, a value that it did not remove or lose the key to is under its key
/// still, a named value that it did not set or unset is under its name still, and the state owns its
/// keys. What Lua's libraries keep under names of their own is up to them.
pub proof fn law_registry_values_outlive_code(
    m: Machine,
    after: Machine,
    key: RegistryKey,
    name: Seq<char>,
)
    requires
        m.ready(),
        after.ready(),
        m.outlives(after),
    ensures
        key.unref_list == m.extra.registry_unref_list <==> key.unref_list
            == after.extra.registry_unref_list,
        m.holds_key(key) && !after.disturbed.last().contains(
            Slot::Integer(key.registry_id as i64),
        ) ==> {
            &&& after.holds_key(key)
            &&& after.registry_at(Slot::Integer(key.registry_id as i64)) == m.registry_at(
                Slot::Integer(key.registry_id as i64),
            )
        },
        m.follows_text(encode_utf8(name)) && !after.disturbed.last().contains(text_slot(name)) ==> {
            &&& after.follows_text(encode_utf8(name))
            &&& after.registry_at(text_slot(name)) == m.registry_at(text_slot(name))
        },
{
    let slot = Slot::Integer(key.registry_id as i64);
    if m.holds_key(key) && !after.disturbed.last().contains(slot) {
        assert(after.heap.allotted.contains(key.registry_id) == m.heap.allotted.contains(
            key.registry_id,
        ));
        assert(table_get(after.heap.registry, slot) == table_get(m.heap.registry, slot));
    }
    assert(!after.disturbed.last().contains(text_slot(name)) ==> table_get(
        after.heap.registry,
        text_slot(name),
    ) == table_get(m.heap.registry, text_slot(name)));
}

/// In a new state `pcall` and `xpcall` are the routines that a script cannot catch a Rust panic with:
/// such a call hands the script an error exactly where it failed and its error is no panic, and a
/// panic goes on to the Rust code that called the script.
pub proof fn law_scripts_cannot_catch_panics(
    m: Machine,
    load_debug: bool,
    unref_list: usize,
    status: i32,
    panicked: bool,
)
    requires
        m.set_up(load_debug, unref_list),
    ensures
        table_get(global_table(m.heap), text_slot("pcall"@)) == Slot::Native(Routine::SafePcall),
        table_get(global_table(m.heap), text_slot("xpcall"@)) == Slot::Native(Routine::SafeXpcall),
        protected_outcome(status, panicked) is Failed <==> status != LUA_OK && !panicked,
        protected_outcome(status, panicked) is Unwinding <==> status != LUA_OK && panicked,
{
    assert(Name::Pcall.text() == "pcall"@);
    assert(Name::Xpcall.text() == "xpcall"@);
}

/// A new table has no metatable.
pub proof fn law_new_table_has_no_metatable(m: Machine, contents: Map<Slot, Slot>)
    requires
        m.ready(),
    ensures
        !m.heap.with_table(contents).metatables.contains_key(Slot::Table(m.heap.next)),
{
}

/// Where no key has gone since values were last expired, to expire values again clears nothing.
pub proof fn law_second_expiry_changes_nothing(
    m: Machine,
    once: Machine,
    twice: Machine,
    first: Seq<i32>,
    second: Seq<i32>,
)
    requires
        values_expired(m, once, first),
        values_expired(once, twice, second),
        second == once.unref,
    ensures
        once.unref.len() == 0,
        second.len() == 0,
        twice.heap == once.heap,
        twice.extra == once.extra,
{
}

/// Code of others may do nothing.
proof fn lemma_idle(m: Machine, given: Set<int>)
    ensures
        m.can_run(given, Seq::empty()),
{
    if m.ready() {
        let later = Machine { disturbed: m.disturbed.push(Set::empty()), ..m };
        lemma_same_rest(m, later);
        assert(m.outlives(later));
        assert(refs_grown(m, later, given, Seq::empty()));
        assert(m.ran(later, given, Seq::empty()));
    }
}

/// Lua has an answer to every call, at rest or not: one that the machine gives, if its extra data and
/// what the top wraps can be had, and the type can register its methods.
pub proof fn law_every_call_has_an_answer(m: Machine, op: Op)
    requires
        exists|extra: ExtraData| (#[trigger] extra@) == m.extra,
        exists|ids: Vec<i32>| (#[trigger] ids@) == m.unref,
        m.top(0) matches Slot::WrappedError(held) ==> exists|error: Error| (#[trigger] error@)
            == held,
        op matches Op::AddMethods(kind) ==> exists|methods: StaticUserDataMethods| #[trigger]
            methods.wf() && methods@ == (m.laws.methods_of)(kind),
    ensures
        exists|reply: Reply| #[trigger] m.answers(op, reply),
{
    let failed = Reply::Failed(Error::CallbackDestructed);
    match op {
        Op::ExtraData => {
            let extra = choose|extra: ExtraData| (#[trigger] extra@) == m.extra;
            assert(m.answers(op, Reply::Extra(extra)));
        },
        Op::StackGuard | Op::GetTop => {
            assert(m.answers(op, Reply::Count(m.stack.len() as usize)));
        },
        Op::CheckStack(_) | Op::Protect(_, _) | Op::Boot(_) | Op::NewThread | Op::PushString(_)
        | Op::PushCallback(_) | Op::PushUserData(_) | Op::InitUserdataMetatable(_) => {
            assert(m.answers(op, failed));
        },
        Op::AddMethods(kind) => {
            let methods = choose|methods: StaticUserDataMethods| #[trigger]
                methods.wf() && methods@ == (m.laws.methods_of)(kind);
            assert(m.answers(op, Reply::Methods(methods)));
        },
        Op::LoadBuffer(source, _) => {
            let status = if (m.laws.compiles)(source@) {
                LUA_OK
            } else {
                LUA_ERRSYNTAX
            };
            assert(m.answers(op, Reply::Status(status)));
        },
        Op::PopError(_) => {
            assert(m.answers(op, Reply::Raised(Error::CallbackDestructed)));
        },
        Op::Type => {
            assert(m.answers(op, Reply::Int(m.top_tag())));
        },
        Op::UpvalueType => {
            assert(m.answers(op, Reply::Int(m.upvalue.tag())));
        },
        Op::ToBoolean | Op::IsInteger => {
            assert(m.answers(op, Reply::Int(0)) || m.answers(op, Reply::Int(1)));
        },
        Op::ToInteger => {
            let i = match m.laws.to_integer(m.top(0)) {
                Some(integer) => integer,
                None => 0,
            };
            assert(m.answers(op, Reply::Integer(i)));
        },
        Op::ToNumber => {
            let n = match m.laws.to_number(m.top(0)) {
                Some(number) => number,
                None => 0,
            };
            assert(m.answers(op, Reply::Number(n)));
        },
        Op::ToUserData => {
            let address = match m.top(0) {
                Slot::LightUserData(held) => held,
                _ => 0,
            };
            assert(m.answers(op, Reply::Address(address)));
        },
        Op::GetWrappedError => {
            match m.top(0) {
                Slot::WrappedError(held) => {
                    let error = choose|error: Error| (#[trigger] error@) == held;
                    assert(m.answers(op, Reply::Wrapped(Some(error))));
                },
                _ => {
                    assert(m.answers(op, Reply::Wrapped(None)));
                },
            }
        },
        Op::ToStringValue => {
            assert(m.answers(op, Reply::Flag(m.laws.to_text(m.top(0)) is Some)));
        },
        Op::ToIntegerX => {
            match m.laws.to_integer(m.top(0)) {
                Some(i) => {
                    assert(m.answers(op, Reply::IntegerX(i, 1)));
                },
                None => {
                    assert(m.answers(op, Reply::IntegerX(0, 0)));
                },
            }
        },
        Op::ToNumberX => {
            match m.laws.to_number(m.top(0)) {
                Some(n) => {
                    assert(m.answers(op, Reply::NumberX(n, 1)));
                },
                None => {
                    assert(m.answers(op, Reply::NumberX(0, 0)));
                },
            }
        },
        Op::Ref => {
            let id = if m.top(0) is Nil {
                LUA_REFNIL
            } else {
                choose|id: i32| m.heap.allottable(id)
            };
            assert(m.answers(op, Reply::Int(id)));
        },
        Op::ReplaceUnrefList => {
            let ids = choose|ids: Vec<i32>| (#[trigger] ids@) == m.unref;
            assert(m.answers(op, Reply::List(Some(ids))) || m.answers(op, Reply::List(None)));
        },
        Op::AuxCheckStack(_, _) => {
            assert(m.answers(op, Reply::Int(0)));
        },
        Op::AuxGetTop(_) => {
            assert(m.answers(op, Reply::Int(m.aux.len() as i32)));
        },
        Op::Call(_, args) => {
            lemma_idle(m, slots_held(args@));
            assert(m.answers(op, failed));
        },
        Op::Invoke(args) => {
            lemma_idle(m, slots_held(args@));
            assert(m.answers(op, failed));
        },
        Op::NextItem => {
            assert(m.ready() ==> m.grown(m, Seq::empty()));
            assert(m.answers(op, Reply::Flag(false)));
        },
        Op::ItemKey | Op::ItemValue => {
            assert(m.ready() ==> m.grown(m, Seq::empty()));
            assert(m.answers(op, failed));
        },
        Op::IndexToLua(position) => {
            if position <= i64::MAX {
                assert(m.answers(op, Reply::Value(Value::Integer(position as i64))));
            } else {
                assert(m.answers(op, failed));
            }
        },
        _ => {
            assert(m.answers(op, Reply::Done));
        },
    }
}

/// To remove a hook undoes that one was set, and has no effect if none was set.
pub proof fn law_removed_hook_is_gone(m: Machine, callback: usize, mask: i32, count: i32)
    ensures
        m.with_hook(callback, mask, count).without_hook() == m.without_hook(),
        m.hook is None && m.extra.hook_callback is None ==> m.without_hook() == m,
{
}

/// A Lua function that was made from a callback runs this callback, and making it leaves all
/// objects alone that were there.
pub proof fn law_created_function_runs_its_callback(
    m: Machine,
    after: Machine,
    callback: Callback,
    r: Result<Function, Error>,
)
    requires
        m.ready(),
        after.made_function(m, callback, r),
    ensures
        r matches Ok(f) ==> after.heap.runs(
            after.slot_of(Value::Function(f)),
            callback,
            m.function_key,
        ),
        m.heap.kept_in(after.heap),
{
    lemma_rust_function(m.heap, callback, m.function_key);
}

/// New objects leave all objects alone that were there.
pub proof fn law_new_objects_leave_old_ones_alone(
    heap: Heap,
    contents: Map<Slot, Slot>,
    chunk: Chunk,
    payload: usize,
)
    requires
        heap.fresh(),
    ensures
        heap.kept_in(heap.with_table(contents)),
        heap.kept_in(heap.with_chunk(chunk)),
        heap.kept_in(heap.with_payload(payload)),
        heap.kept_in(heap.with_thread()),
{
}

} // verus!

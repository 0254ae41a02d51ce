//! What lasts over many operations.
use crate::laws::{
    law_expired_values_are_gone, law_names_are_distinct, law_registry_values_outlive_code,
    law_types_and_globals_outlive_code, lemma_release_all,
};
use crate::machine::{LUA_RIDX_GLOBALS, Machine, Slot, table_get, text_slot};
use crate::registry::{
    named_value_read, named_value_set, named_value_unset, placed_value_read, value_placed,
    value_removed, values_expired,
};
use crate::relations::same_lasting;
use crate::value::{RegistryKey, Value};
use vstd::prelude::*;
use vstd::utf8::encode_utf8;

verus! {

/// What an operation does to the registry.
pub enum Step {
    /// A named value is set.
    SetName(Seq<char>, Value),
    /// A named value is removed.
    UnsetName(Seq<char>),
    /// A value is placed under a new key.
    Place(Value, RegistryKey),
    /// The value under a key is removed.
    Remove(RegistryKey),
    /// The values are removed whose keys are gone.
    Expire(Seq<i32>),
    /// A type of userdata is looked up, and registered where it is not known.
    Register(u64, i32),
    /// Code of others runs: a chunk, a function or a callback.
    Code,
    /// The registry is left as it is.
    Other,
}

impl Step {
    /// The step leads from one machine to another.
    pub open spec fn leads(self, m: Machine, after: Machine) -> bool {
        match self {
            Step::SetName(name, value) => named_value_set(m, after, name, value),
            Step::UnsetName(name) => named_value_unset(m, after, name),
            Step::Place(value, key) => value_placed(m, after, value, key),
            Step::Remove(key) => m.holds_key(key) && value_removed(m, after, key),
            Step::Expire(ids) => values_expired(m, after, ids),
            Step::Register(kind, id) => after.registered(m, kind, Ok(id)),
            Step::Code => m.outlives(after),
            Step::Other => same_lasting(m, after),
        }
    }

    /// The step takes what is under a key away, or the key itself.
    pub open spec fn takes_key(self, after: Machine, key: RegistryKey) -> bool {
        match self {
            Step::Remove(removed) => removed.registry_id == key.registry_id,
            Step::Expire(ids) => ids.contains(key.registry_id),
            Step::Code => after.disturbed.last().contains(Slot::Integer(key.registry_id as i64)),
            _ => false,
        }
    }

    /// The step changes what is under a name.
    pub open spec fn takes_name(self, after: Machine, name: Seq<char>) -> bool {
        match self {
            Step::SetName(set, _) => set == name,
            Step::UnsetName(unset) => unset == name,
            Step::Code => after.disturbed.last().contains(text_slot(name)),
            _ => false,
        }
    }
}

/// The machines follow each other by these steps, and are at rest in between.
pub open spec fn history(machines: Seq<Machine>, steps: Seq<Step>) -> bool {
    &&& machines.len() == steps.len() + 1
    &&& forall|i: int| 0 <= i < machines.len() ==> (#[trigger] machines[i]).ready()
    &&& forall|i: int|
        0 <= i < steps.len() ==> (#[trigger] steps[i]).leads(machines[i], machines[i + 1])
}

/// A step that does not take a key leaves it and what is under it alone.
proof fn lemma_key_kept(m: Machine, after: Machine, step: Step, key: RegistryKey)
    requires
        m.ready(),
        after.ready(),
        step.leads(m, after),
        m.holds_key(key),
        !step.takes_key(after, key),
    ensures
        after.holds_key(key),
        after.registry_at(Slot::Integer(key.registry_id as i64)) == m.registry_at(
            Slot::Integer(key.registry_id as i64),
        ),
{
    match step {
        Step::Expire(ids) => {
            law_expired_values_are_gone(m, after, ids, key, Seq::empty());
        },
        Step::Code => {
            law_registry_values_outlive_code(m, after, key, Seq::empty());
        },
        Step::Register(kind, id) => {
            let types = m.extra.registered_userdata;
            if !types.contains_key(kind) && key.registry_id >= 0 {
                let later = after.extra.registered_userdata;
                assert(m.heap.allotted.contains(key.registry_id));
                if later.contains_value(key.registry_id) {
                    let found = choose|other: u64|
                        later.contains_key(other) && later[other] == key.registry_id;
                    assert(types.contains_key(found) && types[found] == key.registry_id);
                }
            }
        },
        _ => {},
    }
}

/// A step that does not change what is under a name leaves it alone.
proof fn lemma_name_kept(m: Machine, after: Machine, step: Step, name: Seq<char>)
    requires
        m.ready(),
        after.ready(),
        step.leads(m, after),
        m.follows_text(encode_utf8(name)),
        !step.takes_name(after, name),
    ensures
        after.follows_text(encode_utf8(name)),
        after.registry_at(text_slot(name)) == m.registry_at(text_slot(name)),
{
    match step {
        Step::SetName(set, _) => {
            law_names_are_distinct(set, name);
        },
        Step::UnsetName(unset) => {
            law_names_are_distinct(unset, name);
        },
        Step::Expire(ids) => {
            law_expired_values_are_gone(
                m,
                after,
                ids,
                RegistryKey { registry_id: 0, unref_list: 0 },
                name,
            );
        },
        Step::Code => {
            law_registry_values_outlive_code(
                m,
                after,
                RegistryKey { registry_id: 0, unref_list: 0 },
                name,
            );
        },
        _ => {},
    }
}

/// Every step leaves the table of globals, the known types of userdata and the list of places to
/// clear alone.
proof fn lemma_rest_kept(m: Machine, after: Machine, step: Step, kind: u64)
    requires
        m.ready(),
        after.ready(),
        step.leads(m, after),
    ensures
        after.heap.globals() == m.heap.globals(),
        after.extra.registry_unref_list == m.extra.registry_unref_list,
        m.extra.registered_userdata.contains_key(kind) ==> {
            &&& after.extra.registered_userdata.contains_key(kind)
            &&& after.extra.registered_userdata[kind] == m.extra.registered_userdata[kind]
            &&& after.type_table(kind) == m.type_table(kind)
        },
{
    let types = m.extra.registered_userdata;
    if types.contains_key(kind) {
        assert(m.heap.allotted.contains(types[kind]));
        assert(types.contains_value(types[kind]));
    }
    match step {
        Step::Code => {
            law_types_and_globals_outlive_code(m, after, kind);
        },
        Step::Remove(key) => {
            assert(key.registry_id >= 0 ==> m.heap.allotted.contains(key.registry_id));
        },
        Step::Expire(ids) => {
            lemma_release_all(m.heap, ids);
            let globals = Slot::Integer(LUA_RIDX_GLOBALS);
            assert forall|i: int| 0 <= i < ids.len() implies {
                &&& (#[trigger] ids[i]) != LUA_RIDX_GLOBALS
                &&& types.contains_key(kind) ==> ids[i] != types[kind]
            } by {
                if ids[i] >= 0 {
                    assert(m.key_place(ids[i]));
                    assert(m.heap.allotted.contains(ids[i]));
                }
            }
            assert(table_get(after.heap.registry, globals) == table_get(m.heap.registry, globals));
            if types.contains_key(kind) {
                let place = Slot::Integer(types[kind] as i64);
                assert(table_get(after.heap.registry, place) == table_get(m.heap.registry, place));
                assert(after.heap.allotted.contains(types[kind]));
            }
        },
        _ => {},
    }
}

/// A value that was placed in the registry is read by its key after any number of operations, unless
/// one of them took it or its key away.
pub proof fn law_placed_value_lasts(
    m: Machine,
    value: Value,
    key: RegistryKey,
    machines: Seq<Machine>,
    steps: Seq<Step>,
    read: Machine,
    got: Value,
)
    requires
        m.ready(),
        history(machines, steps),
        value_placed(m, machines[0], value, key),
        forall|i: int|
            0 <= i < steps.len() ==> !(#[trigger] steps[i]).takes_key(machines[i + 1], key),
        placed_value_read(machines.last(), read, key, got),
    ensures
        machines.last().holds_key(key),
        read.slot_of(got) == m.slot_of(value),
{
    lemma_key_lasts(machines, steps, key);
}

/// What is under a key stays over any number of steps that do not take it.
proof fn lemma_key_lasts(machines: Seq<Machine>, steps: Seq<Step>, key: RegistryKey)
    requires
        history(machines, steps),
        machines[0].holds_key(key),
        forall|i: int|
            0 <= i < steps.len() ==> !(#[trigger] steps[i]).takes_key(machines[i + 1], key),
    ensures
        machines.last().holds_key(key),
        machines.last().registry_at(Slot::Integer(key.registry_id as i64))
            == machines[0].registry_at(Slot::Integer(key.registry_id as i64)),
    decreases steps.len(),
{
    if steps.len() > 0 {
        let n = steps.len() - 1;
        lemma_shorter(machines, steps);
        lemma_key_lasts(machines.drop_last(), steps.drop_last(), key);
        lemma_key_kept(machines[n], machines[n + 1], steps[n], key);
    }
}

/// A history without its last step is one.
proof fn lemma_shorter(machines: Seq<Machine>, steps: Seq<Step>)
    requires
        history(machines, steps),
        steps.len() > 0,
    ensures
        history(machines.drop_last(), steps.drop_last()),
        machines.drop_last().last() == machines[steps.len() - 1],
        machines.drop_last()[0] == machines[0],
{
    let earlier = machines.drop_last();
    let fewer = steps.drop_last();
    assert forall|i: int| 0 <= i < earlier.len() implies (#[trigger] earlier[i]).ready() by {
        assert(machines[i].ready());
    }
    assert forall|i: int| 0 <= i < fewer.len() implies (#[trigger] fewer[i]).leads(
        earlier[i],
        earlier[i + 1],
    ) by {
        assert(steps[i].leads(machines[i], machines[i + 1]));
    }
}

/// A named value that was set is read by its name after any number of operations, unless one of
/// them set or removed it.
pub proof fn law_named_value_lasts(
    m: Machine,
    value: Value,
    name: Seq<char>,
    machines: Seq<Machine>,
    steps: Seq<Step>,
    read: Machine,
    got: Value,
)
    requires
        history(machines, steps),
        named_value_set(m, machines[0], name, value),
        forall|i: int|
            0 <= i < steps.len() ==> !(#[trigger] steps[i]).takes_name(machines[i + 1], name),
        named_value_read(machines.last(), read, name, got),
    ensures
        read.slot_of(got) == m.slot_of(value),
{
    lemma_name_lasts(machines, steps, name);
}

/// In a new state a name that no operation has set reads as nil, unless Lua's libraries keep something
/// under it.
pub proof fn law_name_never_set_is_nil(
    load_debug: bool,
    unref_list: usize,
    name: Seq<char>,
    machines: Seq<Machine>,
    steps: Seq<Step>,
    read: Machine,
    got: Value,
)
    requires
        history(machines, steps),
        machines[0].set_up(load_debug, unref_list),
        !(machines[0].laws.own_name)(encode_utf8(name)),
        forall|i: int|
            0 <= i < steps.len() ==> !(#[trigger] steps[i]).takes_name(machines[i + 1], name),
        named_value_read(machines.last(), read, name, got),
    ensures
        got is Nil,
{
    lemma_name_lasts(machines, steps, name);
}

/// What is under a name stays over any number of steps that do not change it.
proof fn lemma_name_lasts(machines: Seq<Machine>, steps: Seq<Step>, name: Seq<char>)
    requires
        history(machines, steps),
        machines[0].follows_text(encode_utf8(name)),
        forall|i: int|
            0 <= i < steps.len() ==> !(#[trigger] steps[i]).takes_name(machines[i + 1], name),
    ensures
        machines.last().follows_text(encode_utf8(name)),
        machines.last().registry_at(text_slot(name)) == machines[0].registry_at(text_slot(name)),
    decreases steps.len(),
{
    if steps.len() > 0 {
        let n = steps.len() - 1;
        lemma_shorter(machines, steps);
        lemma_name_lasts(machines.drop_last(), steps.drop_last(), name);
        lemma_name_kept(machines[n], machines[n + 1], steps[n], name);
    }
}

/// Over any number of operations the table of globals is the same, a known type of userdata keeps
/// its place and its metatable, and the state owns the keys that it owned.
pub proof fn law_globals_and_types_last(machines: Seq<Machine>, steps: Seq<Step>, kind: u64)
    requires
        history(machines, steps),
    ensures
        machines.last().heap.globals() == machines[0].heap.globals(),
        machines.last().extra.registry_unref_list == machines[0].extra.registry_unref_list,
        machines[0].extra.registered_userdata.contains_key(kind) ==> {
            let first = machines[0];
            let last = machines.last();
            &&& last.extra.registered_userdata.contains_key(kind)
            &&& last.extra.registered_userdata[kind] == first.extra.registered_userdata[kind]
            &&& last.type_table(kind) == first.type_table(kind)
        },
    decreases steps.len(),
{
    if steps.len() > 0 {
        let n = steps.len() - 1;
        lemma_shorter(machines, steps);
        law_globals_and_types_last(machines.drop_last(), steps.drop_last(), kind);
        lemma_rest_kept(machines[n], machines[n + 1], steps[n], kind);
    }
}

} // verus!

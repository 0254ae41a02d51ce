//! What values are to Lua, and what is read from it: said of each kind of value.
use crate::extra::ExtraView;
use crate::lua::{Lua, spent_only_if, steady};
use crate::machine::{Attempt, LUA_TNONE, Laws, Machine, Slot, handle_count, kind_fits, text_slot};
use crate::protocol::{Library, Name, Op, Reply};
use crate::relations::{slot_freed, without};
use crate::userdata::{Entry, lemma_table_of, names_distinct, table_of};
use crate::value::{Error, ErrorView, Value};
use vstd::prelude::*;
use vstd::utf8::encode_utf8;

verus! {

/// Each value is to Lua what it is to Rust, and a handle is what its reference points to.
pub proof fn law_what_a_value_is(m: Machine, value: Value)
    ensures
        match value {
            Value::Nil => m.slot_of(value) is Nil && value.handle() is None,
            Value::Boolean(b) => m.slot_of(value) == Slot::Boolean(b) && value.handle() is None,
            Value::LightUserData(ud) => m.slot_of(value) == Slot::LightUserData(ud.0)
                && value.handle() is None,
            Value::Integer(i) => m.slot_of(value) == Slot::Integer(i) && value.handle() is None,
            Value::Number(n) => m.slot_of(value) == Slot::Number(n) && value.handle() is None,
            Value::String(s) => m.slot_of(value) == m.refs()[s.0.index as int] && value.handle()
                == Some(s.0),
            Value::Table(t) => m.slot_of(value) == m.refs()[t.0.index as int] && value.handle()
                == Some(t.0),
            Value::Function(f) => m.slot_of(value) == m.refs()[f.0.index as int] && value.handle()
                == Some(f.0),
            Value::Thread(t) => m.slot_of(value) == m.refs()[t.0.index as int] && value.handle()
                == Some(t.0),
            Value::UserData(u) => m.slot_of(value) == m.refs()[u.0.index as int] && value.handle()
                == Some(u.0),
            Value::Error(e) => m.slot_of(value) == Slot::WrappedError(e@) && value.handle() is None,
        },
{
}

/// Several values are to Lua what each of them is, in order.
pub proof fn law_what_values_are(m: Machine, values: Seq<Value>)
    ensures
        m.slots_of(values).len() == values.len(),
        forall|i: int|
            0 <= i < values.len() ==> #[trigger] m.slots_of(values)[i] == m.slot_of(values[i]),
{
}

/// What is handed out for something that Lua holds is a value of its kind, and stands for it.
pub proof fn law_what_is_read(m: Machine, after: Machine, value: Value, slot: Slot)
    requires
        after.hands_out(m, value, slot),
    ensures
        match slot {
            Slot::Nil => value is Nil,
            Slot::Boolean(b) => value == Value::Boolean(b),
            Slot::LightUserData(a) => value matches Value::LightUserData(ud) && ud.0 == a,
            Slot::Integer(i) => value == Value::Integer(i),
            Slot::Number(n) => value == Value::Number(n),
            Slot::Str(_) => value is String,
            Slot::Raised(_, _) => value is String,
            Slot::Table(_) => value is Table,
            Slot::Function(_) => value is Function,
            Slot::Native(_) => value is Function,
            Slot::Thread(_) => value is Thread,
            Slot::UserData(_) => value is UserData,
            Slot::WrappedError(held) => value matches Value::Error(e) && e@ == held,
        },
        match value.handle() {
            Some(r) => {
                let index = r.index as int;
                &&& r.main_state == after.main_state
                &&& !m.refs().contains_key(index)
                &&& after.refs().contains_key(index)
                &&& after.refs()[index] == slot
                &&& forall|i: int|
                    i != index ==> (#[trigger] after.refs().contains_key(i))
                        == m.refs().contains_key(i)
                &&& forall|i: int| #[trigger]
                    m.refs().contains_key(i) ==> after.refs()[i] == m.refs()[i]
            },
            None => after.refs() == m.refs(),
        },
{
}

/// The numbers by which Lua tells kinds of values apart.
pub proof fn law_kinds_of_values(slot: Slot)
    ensures
        match slot {
            Slot::Nil => slot.tag() == 0,
            Slot::Boolean(_) => slot.tag() == 1,
            Slot::LightUserData(_) => slot.tag() == 2,
            Slot::Integer(_) => slot.tag() == 3,
            Slot::Number(_) => slot.tag() == 3,
            Slot::Str(_) => slot.tag() == 4,
            Slot::Raised(_, _) => slot.tag() == 4,
            Slot::Table(_) => slot.tag() == 5,
            Slot::Function(_) => slot.tag() == 6,
            Slot::Native(_) => slot.tag() == 6,
            Slot::UserData(_) => slot.tag() == 7,
            Slot::WrappedError(_) => slot.tag() == 7,
            Slot::Thread(_) => slot.tag() == 8,
        },
        LUA_TNONE == -1,
{
}

/// A handle of a kind points to something of this kind, and other values are of every kind.
pub proof fn law_kinds_of_handles(value: Value, slot: Slot)
    requires
        kind_fits(value, slot),
    ensures
        value is String ==> slot is Str || slot is Raised,
        value is Table ==> slot is Table,
        value is Function ==> slot is Function || slot is Native,
        value is Thread ==> slot is Thread,
        value is UserData ==> slot is UserData,
{
}

/// Which values a state takes: all that are no handles, and handles of its own that hold a reference to
/// something of their kind. Several values are taken if each is, and none has the slot of another.
pub proof fn law_what_is_accepted<F: Fn(Op) -> Reply>(lua: Lua<F>, value: Value, values: Seq<Value>)
    requires
        lua.inv(),
        lua.good(),
    ensures
        match value.handle() {
            None => lua.accepts(value),
            Some(r) => lua.accepts(value) <==> {
                let m = lua.machine();
                let slot = m.refs()[r.index as int];
                &&& r.main_state == lua.identity().main_state
                &&& m.refs().contains_key(r.index as int)
                &&& value is String ==> slot is Str || slot is Raised
                &&& value is Table ==> slot is Table
                &&& value is Function ==> slot is Function || slot is Native
                &&& value is Thread ==> slot is Thread
                &&& value is UserData ==> slot is UserData
            },
        },
        lua.machine().holds_all(values) <==> {
            &&& forall|i: int| 0 <= i < values.len() ==> lua.accepts(#[trigger] values[i])
            &&& forall|i: int, j: int|
                0 <= i < j < values.len() && (#[trigger] values[i]).handle() is Some && (
                #[trigger] values[j]).handle() is Some ==> values[i].handle()->0.index
                    != values[j].handle()->0.index
        },
{
    assert forall|i: int|
        0 <= i < values.len() && lua.machine().holds(#[trigger] values[i]) implies lua.accepts(
        values[i],
    ) by {
    }
}

/// There is room for values as long as the stack stays within what Lua allows.
pub proof fn law_when_there_is_room<F: Fn(Op) -> Reply>(lua: Lua<F>, n: int)
    requires
        lua.good(),
    ensures
        lua.roomy(n) <==> lua.machine().stack.len() + n <= 1000000,
{
}

/// A handle is good as long as its driver has answered as Lua does and nothing has run out, and spent
/// once something has.
pub(crate) proof fn law_when_a_handle_is_good<F: Fn(Op) -> Reply>(lua: Lua<F>)
    ensures
        lua.good() <==> lua.state.honest() && !lua.machine().exhausted,
        lua.spent() <==> lua.state.honest() && lua.machine().exhausted,
        lua.machine() == lua.state.machine(),
        lua.driver() == lua.state.driver(),
        lua.identity().main_state == lua.main_state,
        lua.identity().function_key == lua.function_key,
        lua.identity().ephemeral == lua.ephemeral,
{
}

/// What is at rest between two operations: no call has raised an error or was not allowed, the library
/// has not panicked, the state is open, the stack is within its room, the auxiliary stack has as many
/// slots as have ever been in use, and those that no reference holds keep nothing alive.
pub proof fn law_what_is_at_rest(m: Machine)
    requires
        m.ready(),
    ensures
        !m.raised && !m.misused && !m.panicked && !m.closed && !m.lent,
        m.unref_open,
        m.stack.len() <= m.limit <= 1000000,
        m.aux.len() == m.extra.ref_stack_max <= m.extra.ref_stack_size < m.aux_limit,
        m.extra.ref_thread == m.aux_thread,
        forall|i: int|
            0 <= i < m.aux.len() && !m.refs().contains_key(i + 1) ==> #[trigger] m.aux[i] is Nil,
        m.heap.registry[Slot::Integer(m.anchor as i64)] == Slot::Thread(
            m.heap.handles[m.aux_thread],
        ),
        m.heap.registry[Slot::Integer(2)] is Table,
        m.heap.registry[Slot::LightUserData(m.function_key)] is Table,
        forall|kind: u64| #[trigger]
            m.extra.registered_userdata.contains_key(kind) ==> m.heap.registry[Slot::Integer(
                m.extra.registered_userdata[kind] as i64,
            )] is Table,
{
    assert forall|i: int|
        0 <= i < m.aux.len() && !m.refs().contains_key(i + 1) implies #[trigger] m.aux[i] is Nil by {
        assert(!m.extra.live(i + 1));
    }
    assert forall|kind: u64| #[trigger]
        m.extra.registered_userdata.contains_key(kind) implies m.heap.registry[Slot::Integer(
        m.extra.registered_userdata[kind] as i64,
    )] is Table by {
        assert(m.type_table(kind) is Table);
    }
}

/// What each kind of value can be coerced into.
pub proof fn law_coercions(laws: Laws, slot: Slot)
    ensures
        match slot {
            Slot::Integer(i) => {
                &&& laws.to_integer(slot) == Some(i)
                &&& laws.to_number(slot) == Some((laws.widened)(i))
                &&& laws.to_text(slot) == Some(Slot::Str((laws.integer_text)(i)))
            },
            Slot::Number(bits) => {
                &&& laws.to_integer(slot) == (laws.integral)(bits)
                &&& laws.to_number(slot) == Some(bits)
                &&& laws.to_text(slot) == Some(Slot::Str((laws.number_text)(bits)))
            },
            Slot::Str(text) => {
                &&& laws.to_integer(slot) == (laws.text_integer)(text)
                &&& laws.to_number(slot) == (laws.text_number)(text)
                &&& laws.to_text(slot) == Some(slot)
            },
            Slot::Raised(_, _) => {
                &&& laws.to_integer(slot) is None
                &&& laws.to_number(slot) is None
                &&& laws.to_text(slot) == Some(slot)
            },
            _ => {
                &&& laws.to_integer(slot) is None
                &&& laws.to_number(slot) is None
                &&& laws.to_text(slot) is None
            },
        },
{
}

/// Which keys a table can have: all but nil and what is no number. A floating point number that is
/// equal to an integer is the same key as the integer.
pub proof fn law_keys_of_tables(laws: Laws, slot: Slot)
    ensures
        laws.key_allowed(slot) <==> !(slot is Nil) && !(slot matches Slot::Number(bits) && (
        laws.not_a_number)(bits)),
        match slot {
            Slot::Number(bits) => match (laws.integral)(bits) {
                Some(i) => laws.key(slot) == Slot::Integer(i),
                None => laws.key(slot) == slot,
            },
            _ => laws.key(slot) == slot,
        },
{
}

/// Two machines that agree are the same but for their references and the room on their stacks.
pub proof fn law_what_agrees(m: Machine, expected: Machine)
    requires
        m.agrees(expected),
    ensures
        m.main_state == expected.main_state,
        m.function_key == expected.function_key,
        m.laws == expected.laws,
        m.stack == expected.stack,
        m.limit >= expected.limit,
        m.aux_thread == expected.aux_thread,
        m.anchor == expected.anchor,
        m.extra.registered_userdata == expected.extra.registered_userdata,
        m.extra.registry_unref_list == expected.extra.registry_unref_list,
        m.extra.ref_thread == expected.extra.ref_thread,
        m.extra.hook_callback == expected.extra.hook_callback,
        m.lent == expected.lent,
        m.heap == expected.heap,
        m.upvalue == expected.upvalue,
        m.unref_open == expected.unref_open,
        m.unref == expected.unref,
        m.dropped == expected.dropped,
        m.discarded == expected.discarded,
        m.hook == expected.hook,
        m.yields == expected.yields,
        m.item_key == expected.item_key,
        m.items == expected.items,
        m.ends == expected.ends,
        m.others == expected.others,
        m.registrations == expected.registrations,
        m.faults == expected.faults,
        m.disturbed == expected.disturbed,
        m.calls == expected.calls,
        m.raised == expected.raised,
        m.misused == expected.misused,
        m.exhausted == expected.exhausted,
        m.panicked == expected.panicked,
        m.leaked == expected.leaked,
        m.closed == expected.closed,
{
}

/// A step that failed has logged what it attempted and its error, and done nothing else.
pub proof fn law_what_failed(m: Machine, after: Machine, attempt: Attempt, error: Error)
    requires
        after.failed_with(m, attempt, error),
    ensures
        after.faults.len() == m.faults.len() + 1,
        after.faults.last().attempt == attempt,
        after.faults.last().error == error@,
        forall|i: int| 0 <= i < m.faults.len() ==> after.faults[i] == m.faults[i],
        after.stack == m.stack,
        after.heap == m.heap,
        after.refs() == m.refs(),
        after.calls == m.calls,
        after.hook == m.hook,
        after.unref == m.unref,
        after.extra.registered_userdata == m.extra.registered_userdata,
        after.extra.registry_unref_list == m.extra.registry_unref_list,
        after.extra.hook_callback == m.extra.hook_callback,
{
}

/// A slot of the auxiliary stack is held by a reference if it has ever been in use and is not free, and
/// the reference points to what is in the slot.
pub proof fn law_what_references_are(m: Machine, i: int)
    ensures
        m.refs().contains_key(i) <==> 1 <= i <= m.extra.ref_stack_max
            && !m.extra.ref_free.contains(i as i32),
        m.refs().contains_key(i) ==> m.refs()[i] == m.aux[i - 1],
        m.live(i) <==> m.refs().contains_key(i),
        m.live(i) ==> m.pinned(i) == m.refs()[i],
{
}

/// When the reference of a value is given up, its slot is the next to be used, and no other slot is
/// concerned.
pub proof fn law_given_up_slot_is_free(
    extra: ExtraView,
    refs: Map<int, Slot>,
    value: Value,
)
    ensures
        match value.handle() {
            Some(r) => {
                let later = slot_freed(extra, value);
                &&& later.ref_free.len() == extra.ref_free.len() + 1
                &&& later.ref_free.last() == r.index
                &&& forall|i: int|
                    0 <= i < extra.ref_free.len() ==> later.ref_free[i] == extra.ref_free[i]
                &&& !later.live(r.index as int)
                &&& later.ref_stack_max == extra.ref_stack_max
                &&& later.ref_stack_size == extra.ref_stack_size
                &&& later.registered_userdata == extra.registered_userdata
                &&& later.registry_unref_list == extra.registry_unref_list
                &&& later.hook_callback == extra.hook_callback
                &&& !without(refs, value).contains_key(r.index as int)
                &&& forall|i: int|
                    i != r.index && #[trigger] refs.contains_key(i) ==> {
                        &&& without(refs, value).contains_key(i)
                        &&& without(refs, value)[i] == refs[i]
                    }
            },
            None => slot_freed(extra, value) == extra && without(refs, value) == refs,
        },
{
    if value.handle() is Some {
        let later = slot_freed(extra, value);
        let last = extra.ref_free.len() as int;
        assert(later.ref_free[last] == value.handle()->0.index);
    }
}

/// Two errors say the same only if they are of one kind and have the same parts, and an error says what it
/// was made of.
pub proof fn law_what_an_error_says(error: Error, other: Error, number: usize)
    ensures
        error is RecursiveMutCallback <==> error@ is RecursiveMutCallback,
        error is CallbackDestructed <==> error@ is CallbackDestructed,
        error is MismatchedRegistryKey <==> error@ is MismatchedRegistryKey,
        error == Error::Other(number) <==> error@ == ErrorView::Other(number),
        error matches Error::ToLuaConversionError { from, to, message } ==> {
            &&& error@ is ToLuaConversionError
            &&& error@->ToLuaConversionError_from == from@
            &&& error@->ToLuaConversionError_to == to@
            &&& message matches Some(text) ==> error@->ToLuaConversionError_message == Some(text@)
            &&& message is None ==> error@->ToLuaConversionError_message is None
        },
        error matches Error::FromLuaConversionError { from, to, message } ==> {
            &&& error@ is FromLuaConversionError
            &&& error@->FromLuaConversionError_from == from@
            &&& error@->FromLuaConversionError_to == to@
            &&& message matches Some(text) ==> error@->FromLuaConversionError_message == Some(
                text@,
            )
            &&& message is None ==> error@->FromLuaConversionError_message is None
        },
        error@ == other@ && error is Other ==> other == error,
{
}

/// To count the handles among values is to count each of them once.
pub proof fn law_handles_are_counted(values: Seq<Value>, value: Value)
    ensures
        handle_count(Seq::<Value>::empty()) == 0,
        handle_count(values.push(value)) == handle_count(values) + if value.handle() is Some {
            1int
        } else {
            0
        },
{
    assert(values.push(value).drop_last() =~= values);
}

/// How many references an operation has left behind.
pub proof fn law_what_is_left(m: Machine, after: Machine, left: int)
    requires
        after.settled(m, left),
        after.others == m.others,
    ensures
        after.refs().len() == m.refs().len() + left,
{
}

/// Every slot is taken if none is free and all that there is room for have been in use.
pub proof fn law_when_slots_are_taken(extra: ExtraView)
    requires
        extra.wf(),
    ensures
        extra.full() <==> extra.ref_free.len() == 0 && extra.ref_stack_max == extra.ref_stack_size,
        extra.full() ==> forall|i: int|
            1 <= i <= extra.ref_stack_size ==> #[trigger] extra.live(i),
{
}

/// The bookkeeping of a new state: no reference has been made, there is room for one less than Lua
/// offers, no type is known, and there is no hook.
pub proof fn law_new_bookkeeping(thread: usize, list: usize)
    ensures
        ({
            let fresh = ExtraView::fresh(thread, list);
            &&& fresh.ref_thread == thread
            &&& fresh.registry_unref_list == list
            &&& fresh.ref_stack_size == 19
            &&& fresh.ref_stack_max == 0
            &&& fresh.ref_free.len() == 0
            &&& fresh.registered_userdata == Map::<u64, i32>::empty()
            &&& fresh.hook_callback is None
        }),
{
}

/// A steady operation does not run out of anything; one that may, does so only for its cause, and then
/// has panicked.
pub proof fn law_nothing_runs_out_without_cause<F: Fn(Op) -> Reply>(
    cause: bool,
    pre: Lua<F>,
    post: Lua<F>,
)
    requires
        pre.good(),
        post.spent(),
    ensures
        !steady(pre, post),
        spent_only_if(cause, pre, post) ==> cause && post.machine().panicked && post.driver()
            == pre.driver(),
{
}

/// A list of methods without a name that occurs twice holds under each name its callback, and nothing
/// else.
pub proof fn law_methods_by_name(entries: Seq<Entry>)
    requires
        names_distinct(entries),
    ensures
        forall|i: int|
            0 <= i < entries.len() ==> {
                &&& table_of(entries).contains_key(#[trigger] entries[i].name@)
                &&& table_of(entries)[entries[i].name@] == entries[i].callback
            },
        forall|name: Seq<u8>| #[trigger]
            table_of(entries).contains_key(name) ==> exists|i: int|
                0 <= i < entries.len() && #[trigger] entries[i].name@ == name,
        forall|i: int, j: int|
            0 <= i < j < entries.len() ==> #[trigger] entries[i].name@
                != #[trigger] entries[j].name@,
{
    lemma_table_of(entries);
}

/// The names under which the libraries are found, and under which something is stored in tables.
pub proof fn law_fixed_names(text: Seq<char>)
    ensures
        Library::Base.text() == "_G"@,
        Library::Coroutine.text() == "coroutine"@,
        Library::Table.text() == "table"@,
        Library::Io.text() == "io"@,
        Library::Os.text() == "os"@,
        Library::Str.text() == "string"@,
        Library::Utf8.text() == "utf8"@,
        Library::Math.text() == "math"@,
        Library::Package.text() == "package"@,
        Library::Debug.text() == "debug"@,
        Name::Gc.text() == "__gc"@,
        Name::Metatable.text() == "__metatable"@,
        Name::Pcall.text() == "pcall"@,
        Name::Xpcall.text() == "xpcall"@,
        text_slot(text) == Slot::Str(encode_utf8(text)),
{
}

} // verus!

//! What Lua does at each call, and what it answers: said of the fields of the machine.
use crate::answers::{returned, slots_held};
use crate::extra::ExtraData;
use crate::machine::{Attempt, Chunk, Closure, Heap, Machine, Slot, table_get};
use crate::protocol::{Instr, Library, Op, Reply};
use crate::relations::{lemma_called, lemma_converted};
use crate::value::{Callback, Error, ErrorView, MultiValue, RegistryKey, Value};
use vstd::prelude::*;
use vstd::utf8::encode_utf8;

verus! {

/// What no call that only moves values about touches.
pub open spec fn same_beside(m: Machine, after: Machine) -> bool {
    &&& after.main_state == m.main_state
    &&& after.function_key == m.function_key
    &&& after.laws == m.laws
    &&& after.limit == m.limit
    &&& after.aux_limit == m.aux_limit
    &&& after.aux_thread == m.aux_thread
    &&& after.anchor == m.anchor
    &&& after.extra == m.extra
    &&& after.lent == m.lent
    &&& after.upvalue == m.upvalue
    &&& after.unref == m.unref
    &&& after.unref_open == m.unref_open
    &&& after.dropped == m.dropped
    &&& after.hook == m.hook
    &&& after.faults == m.faults
    &&& after.calls == m.calls
    &&& after.items == m.items
    &&& after.misused == m.misused
    &&& after.panicked == m.panicked
    &&& after.exhausted == m.exhausted
    &&& after.closed == m.closed
}

/// What is on the stack but for so many values on its top.
pub open spec fn below(m: Machine, n: int) -> Seq<Slot> {
    m.stack.take(m.stack.len() - n)
}

/// A value that is pushed is on the top, and nothing else changes.
pub open spec fn pushed(m: Machine, after: Machine, slot: Slot) -> bool {
    &&& after.stack == m.stack.push(slot)
    &&& after.heap == m.heap
    &&& after.aux == m.aux
    &&& after.raised == m.raised
}

/// What each call that only moves values about does to the stacks and the objects.
#[verifier::rlimit(40)]
pub proof fn law_what_moves_values(m: Machine, instr: Instr)
    requires
        m.fits(instr),
    ensures
        ({
            let after = m.apply(instr);
            let height = m.stack.len() as int;
            &&& same_beside(m, after)
            &&& match instr {
                Instr::PushNil => pushed(m, after, Slot::Nil),
                Instr::PushBoolean(b) => pushed(m, after, Slot::Boolean(b)),
                Instr::PushLightUserData(a) => pushed(m, after, Slot::LightUserData(a)),
                Instr::PushInteger(i) => pushed(m, after, Slot::Integer(i)),
                Instr::PushNumber(n) => pushed(m, after, Slot::Number(n)),
                Instr::PushName(name) => pushed(m, after, Slot::Str(encode_utf8(name.text()))),
                Instr::PushCFunction(routine) => pushed(m, after, Slot::Native(routine)),
                Instr::PushCClosure(routine) => {
                    &&& after.stack == below(m, 1).push(Slot::Function(m.heap.next))
                    &&& after.heap.closures == m.heap.closures.insert(
                        m.heap.next,
                        Closure { routine, upvalue: m.stack[height - 1] },
                    )
                    &&& after.heap.next == m.heap.next + 1
                    &&& after.heap.registry == m.heap.registry
                    &&& after.heap.tables == m.heap.tables
                    &&& after.aux == m.aux
                    &&& after.raised == m.raised
                },
                Instr::NewTable => {
                    &&& after.stack == m.stack.push(Slot::Table(m.heap.next))
                    &&& after.heap.tables == m.heap.tables.insert(m.heap.next, Map::empty())
                    &&& after.heap.next == m.heap.next + 1
                    &&& after.heap.registry == m.heap.registry
                    &&& after.aux == m.aux
                    &&& after.raised == m.raised
                },
                Instr::NewThread => {
                    &&& after.stack == m.stack.push(Slot::Thread(m.heap.next))
                    &&& after.heap.threads == m.heap.threads.insert(m.heap.next, Seq::empty())
                    &&& after.heap.last_thread == m.heap.next
                    &&& after.heap.next == m.heap.next + 1
                    &&& after.heap.registry == m.heap.registry
                    &&& after.aux == m.aux
                    &&& after.raised == m.raised
                },
                Instr::Pop(n) => {
                    &&& after.stack == below(m, n as int)
                    &&& after.heap == m.heap
                    &&& after.aux == m.aux
                    &&& after.raised == m.raised
                },
                Instr::RawSet => {
                    let id = m.stack[height - 3]->Table_0;
                    let key = m.laws.key(m.stack[height - 2]);
                    &&& after.stack == below(m, 2)
                    &&& after.heap.registry == m.heap.registry
                    &&& after.heap.next == m.heap.next
                    &&& forall|other: nat|
                        other != id ==> {
                            &&& (#[trigger] after.heap.tables.contains_key(other))
                                == m.heap.tables.contains_key(other)
                            &&& after.heap.tables[other] == m.heap.tables[other]
                        }
                    &&& table_get(after.heap.tables[id], key) == m.stack[height - 1]
                    &&& forall|other: Slot|
                        other != key ==> #[trigger] table_get(after.heap.tables[id], other)
                            == table_get(m.heap.tables[id], other)
                    &&& after.raised == (m.raised || !m.laws.key_allowed(m.stack[height - 2]))
                    &&& after.aux == m.aux
                },
                Instr::RawSetRegistry => {
                    let key = m.laws.key(m.stack[height - 2]);
                    &&& after.stack == below(m, 2)
                    &&& after.heap.tables == m.heap.tables
                    &&& after.heap.allotted == m.heap.allotted
                    &&& after.heap.registry == m.heap.registry.insert(key, m.stack[height - 1])
                    &&& after.raised == (m.raised || !m.laws.key_allowed(m.stack[height - 2]))
                    &&& after.aux == m.aux
                },
                Instr::RawGetRegistry => {
                    &&& after.stack == below(m, 1).push(
                        m.registry_at(m.laws.key(m.stack[height - 1])),
                    )
                    &&& after.heap == m.heap
                    &&& after.aux == m.aux
                    &&& after.raised == m.raised
                },
                Instr::RawGetI(i) => pushed(m, after, m.registry_at(Slot::Integer(i))),
                Instr::SetMetatable => {
                    let object = m.stack[height - 2];
                    &&& after.stack == below(m, 1)
                    &&& after.heap.registry == m.heap.registry
                    &&& after.heap.tables == m.heap.tables
                    &&& table_get(after.heap.metatables, object) == m.stack[height - 1]
                    &&& forall|other: Slot|
                        other != object ==> #[trigger] table_get(after.heap.metatables, other)
                            == table_get(m.heap.metatables, other)
                    &&& after.aux == m.aux
                    &&& after.raised == m.raised
                },
                Instr::InitErrorMetatables => {
                    &&& after.heap.error_metatables
                    &&& after.stack == m.stack
                    &&& after.heap.registry == m.heap.registry
                    &&& after.heap.tables == m.heap.tables
                    &&& after.aux == m.aux
                    &&& after.raised == m.raised
                },
                Instr::AuxPushValue(_, index) => {
                    &&& after.aux == m.aux.push(m.aux[index - 1])
                    &&& after.stack == m.stack
                    &&& after.heap == m.heap
                    &&& after.raised == m.raised
                },
                Instr::AuxPushNil(_) => {
                    &&& after.aux == m.aux.push(Slot::Nil)
                    &&& after.stack == m.stack
                    &&& after.heap == m.heap
                    &&& after.raised == m.raised
                },
                Instr::AuxReplace(_, index) => {
                    &&& after.aux == m.aux.update(index - 1, m.aux.last()).drop_last()
                    &&& after.stack == m.stack
                    &&& after.heap == m.heap
                    &&& after.raised == m.raised
                },
                Instr::MoveToAux(_) => {
                    &&& after.aux == m.aux.push(m.stack[height - 1])
                    &&& after.stack == below(m, 1)
                    &&& after.heap == m.heap
                    &&& after.raised == m.raised
                },
                Instr::MoveFromAux(_) => {
                    &&& after.aux == m.aux.drop_last()
                    &&& after.stack == m.stack.push(m.aux.last())
                    &&& after.heap == m.heap
                    &&& after.raised == m.raised
                },
                Instr::MoveToThread(handle) => {
                    let thread = m.heap.handles[handle];
                    &&& after.stack == below(m, 1)
                    &&& after.heap.threads == m.heap.threads.insert(
                        thread,
                        m.heap.threads[thread].push(m.stack[height - 1]),
                    )
                    &&& after.heap.registry == m.heap.registry
                    &&& after.heap.tables == m.heap.tables
                    &&& after.aux == m.aux
                    &&& after.raised == m.raised
                },
                Instr::Ref => {
                    &&& after.stack == below(m, 1)
                    &&& after.heap.tables == m.heap.tables
                    &&& after.aux == m.aux
                    &&& after.raised == m.raised
                },
                Instr::Require(_) => after.aux == m.aux && after.raised == m.raised,
            }
        }),
{
    if instr is RawSet {
        let id = m.top(2)->Table_0;
        let after = m.apply(instr);
        assert forall|other: nat| other != id implies {
            &&& (#[trigger] after.heap.tables.contains_key(other)) == m.heap.tables.contains_key(
                other,
            )
            &&& after.heap.tables[other] == m.heap.tables[other]
        } by {
        }
    }
}

/// What a call that the API does not allow comes to.
pub proof fn law_misuse_is_noted(m: Machine, instr: Instr)
    requires
        !m.fits(instr),
    ensures
        m.apply(instr).misused,
        m.apply(instr).stack == m.stack,
        m.apply(instr).heap == m.heap,
{
}

/// A library that is loaded is a table in the table of globals, under its name; the base library is the
/// table of globals itself.
pub proof fn law_what_loads_a_library(m: Machine, library: Library)
    requires
        m.fits(Instr::Require(library)),
        m.heap.registry.contains_key(Slot::Integer(2)),
        m.heap.registry[Slot::Integer(2)] is Table,
        m.heap.fresh(),
        m.heap.tables.contains_key(m.heap.registry[Slot::Integer(2)]->Table_0),
    ensures
        ({
            let after = m.apply(Instr::Require(library));
            let id = m.heap.registry[Slot::Integer(2)]->Table_0;
            let module = after.stack[after.stack.len() - 1];
            &&& after.stack == m.stack.push(module)
            &&& module is Table
            &&& library is Base ==> module == Slot::Table(id)
            &&& !(library is Base) ==> module == Slot::Table(m.heap.next)
            &&& after.heap.libraries == m.heap.libraries.insert(library)
            &&& after.heap.registry == m.heap.registry
            &&& table_get(after.heap.tables[id], Slot::Str(encode_utf8(library.text()))) == module
        }),
{
}

/// What setting and removing a hook, clearing a place, closing and panicking do.
pub proof fn law_what_single_calls_do(
    m: Machine,
    mask: i32,
    count: i32,
    id: i32,
    n: usize,
    reply: Reply,
)
    ensures
        ({
            let set = m.after(Op::SetHook(mask, count), reply);
            &&& set.hook == Some((mask, count))
            &&& set == Machine { hook: set.hook, ..m }
        }),
        ({
            let cleared = m.after(Op::ClearHook, reply);
            &&& cleared.hook is None
            &&& cleared == Machine { hook: None, ..m }
        }),
        ({
            let closed = m.after(Op::Close, reply);
            closed.closed && closed == Machine { closed: true, ..m }
        }),
        ({
            let after = m.after(Op::Unref(id), reply);
            &&& id < 0 ==> after.heap == m.heap
            &&& id >= 0 ==> {
                &&& after.heap.allotted == m.heap.allotted.remove(id)
                &&& after.heap.registry == m.heap.registry.remove(Slot::Integer(id as i64))
                &&& after.heap.tables == m.heap.tables
            }
            &&& after.misused == (m.misused || id >= 0 && !m.heap.allotted.contains(id))
        }),
        ({
            let after = m.after(Op::EndStackGuard(n), reply);
            &&& n < m.stack.len() ==> after.stack == m.stack.take(n as int)
            &&& n >= m.stack.len() ==> after.stack == m.stack
            &&& after.heap == m.heap
        }),
        ({
            let after = m.after(Op::CloseUnrefList, reply);
            !after.unref_open && after.unref.len() == 0 && after.heap == m.heap
        }),
{
}

/// What room is, once it was granted.
pub proof fn law_what_room_is(m: Machine, n: usize, reply: Reply)
    ensures
        ({
            let after = m.after(Op::AssertStack(n), reply);
            &&& m.stack.len() + n <= 1000000 ==> {
                &&& after.limit >= m.stack.len() + n
                &&& after.limit >= m.limit
                &&& after.limit == m.limit || after.limit == m.stack.len() + n
                &&& after == Machine { limit: after.limit, ..m }
            }
            &&& m.stack.len() + n > 1000000 ==> after.panicked
        }),
        ({
            let after = m.after(Op::CheckStack(n), reply);
            match reply {
                Reply::Failed(e) => {
                    &&& after.limit == m.limit
                    &&& after.faults.len() == m.faults.len() + 1
                    &&& after.faults.last().attempt == Attempt::CheckStack(n)
                    &&& after.faults.last().error == e@
                },
                _ => {
                    &&& after.limit >= m.stack.len() + n
                    &&& after.limit >= m.limit
                    &&& after == Machine { limit: after.limit, ..m }
                },
            }
        }),
        m.answers(Op::CheckStack(n), Reply::Done) ==> m.stack.len() + n <= 1000000,
{
}

/// What a string, a chunk, a boxed callback, a boxed value and a thread are, once they are pushed.
pub proof fn law_what_makes_objects(
    m: Machine,
    bytes: Vec<u8>,
    name: Option<Vec<u8>>,
    callback: Callback,
    payload: usize,
    handle: usize,
    status: i32,
)
    ensures
        m.after(Op::PushString(bytes), Reply::Done).stack == m.stack.push(Slot::Str(bytes@)),
        m.after(Op::PushString(bytes), Reply::Done).heap == m.heap,
        ({
            let after = m.after(Op::LoadBuffer(bytes, name), Reply::Status(status));
            let top = after.stack[after.stack.len() - 1];
            let chunk = Chunk {
                source: bytes@,
                name: match name {
                    Some(text) => Some(text@),
                    None => None,
                },
            };
            &&& after.stack == m.stack.push(top)
            &&& status == 0 ==> {
                &&& top == Slot::Function(m.heap.next)
                &&& after.heap.chunks == m.heap.chunks.insert(m.heap.next, chunk)
                &&& after.heap.next == m.heap.next + 1
                &&& after.heap.registry == m.heap.registry
            }
            &&& status != 0 ==> top == Slot::Raised(chunk, status) && after.heap == m.heap
        }),
        ({
            let after = m.after(Op::PushCallback(callback), Reply::Done);
            &&& after.stack == m.stack.push(Slot::UserData(m.heap.next))
            &&& after.heap.callbacks == m.heap.callbacks.insert(m.heap.next, callback)
            &&& after.heap.next == m.heap.next + 1
            &&& after.heap.registry == m.heap.registry
        }),
        ({
            let after = m.after(Op::PushUserData(payload), Reply::Done);
            &&& after.stack == m.stack.push(Slot::UserData(m.heap.next))
            &&& after.heap.payloads == m.heap.payloads.insert(m.heap.next, payload)
            &&& after.heap.next == m.heap.next + 1
            &&& after.heap.registry == m.heap.registry
        }),
        ({
            let after = m.after(Op::NewThread, Reply::Thread(handle));
            &&& after.stack == m.stack.push(Slot::Thread(m.heap.next))
            &&& after.heap.threads == m.heap.threads.insert(m.heap.next, Seq::empty())
            &&& after.heap.handles == m.heap.handles.insert(handle, m.heap.next)
            &&& after.heap.next == m.heap.next + 1
        }),
{
}

/// What Lua answers about the value on the top.
pub proof fn law_what_is_answered_of_the_top(m: Machine, reply: Reply)
    requires
        m.stack.len() > 0,
    ensures
        ({
            let top = m.stack[m.stack.len() - 1];
            &&& m.answers(Op::Type, reply) ==> reply == Reply::Int(top.tag())
            &&& m.answers(Op::ToBoolean, reply) ==> (reply matches Reply::Int(b) && (b == 0
                <==> top is Nil || top == Slot::Boolean(false)))
            &&& m.answers(Op::IsInteger, reply) ==> (reply matches Reply::Int(b) && (b != 0
                <==> top is Integer))
            &&& m.answers(Op::ToInteger, reply) ==> (top matches Slot::Integer(i) ==> reply
                == Reply::Integer(i))
            &&& m.answers(Op::ToNumber, reply) ==> (top matches Slot::Number(n) ==> reply
                == Reply::Number(n))
            &&& m.answers(Op::ToUserData, reply) ==> (top matches Slot::LightUserData(a) ==> reply
                == Reply::Address(a))
            &&& m.answers(Op::GetWrappedError, reply) ==> (reply matches Reply::Wrapped(wrapped)
                && match top {
                Slot::WrappedError(held) => wrapped matches Some(e) && e@ == held,
                _ => wrapped is None,
            })
            &&& m.answers(Op::ToIntegerX, reply) ==> (reply matches Reply::IntegerX(i, exact)
                && match m.laws.to_integer(top) {
                Some(integer) => exact != 0 && i == integer,
                None => exact == 0,
            })
            &&& m.answers(Op::ToNumberX, reply) ==> (reply matches Reply::NumberX(n, exact)
                && match m.laws.to_number(top) {
                Some(number) => exact != 0 && n == number,
                None => exact == 0,
            })
            &&& m.answers(Op::ToStringValue, reply) ==> (reply matches Reply::Flag(b) && (b
                <==> m.laws.to_text(top) is Some))
            &&& m.answers(Op::Ref, reply) && !m.heap.crowded() ==> (reply matches Reply::Int(id)
                && {
                &&& top is Nil ==> id == -1
                &&& !(top is Nil) ==> id > 2 && !m.heap.allotted.contains(id)
            })
        }),
{
}

/// What Lua answers about the state and its bookkeeping.
pub proof fn law_what_is_answered(
    m: Machine,
    reply: Reply,
    source: Vec<u8>,
    name: Option<Vec<u8>>,
    kind: u64,
    thread: usize,
    n: i32,
    position: u64,
)
    ensures
        m.answers(Op::ExtraData, reply) ==> (reply matches Reply::Extra(extra) && extra@
            == m.extra),
        m.answers(Op::GetTop, reply) && m.stack.len() <= 1000000 ==> reply == Reply::Count(
            m.stack.len() as usize,
        ),
        m.answers(Op::StackGuard, reply) && m.stack.len() <= 1000000 ==> reply == Reply::Count(
            m.stack.len() as usize,
        ),
        m.answers(Op::LoadBuffer(source, name), reply) ==> (reply matches Reply::Status(status) && {
            &&& status == 0 ==> (m.laws.compiles)(source@)
            &&& status == 3 ==> !(m.laws.compiles)(source@)
        }),
        m.answers(Op::AddMethods(kind), reply) ==> (reply matches Reply::Methods(methods)
            && methods@ == (m.laws.methods_of)(kind)),
        m.answers(Op::UpvalueType, reply) ==> reply == Reply::Int(m.upvalue.tag()),
        m.answers(Op::ReplaceUnrefList, reply) ==> (reply matches Reply::List(list) && match list {
            Some(ids) => {
                &&& m.unref_open
                &&& ids@.len() >= m.unref.len()
                &&& forall|i: int| 0 <= i < m.unref.len() ==> ids@[i] == m.unref[i]
            },
            None => !m.unref_open,
        }),
        m.answers(Op::AuxCheckStack(thread, n), reply) ==> (reply matches Reply::Int(granted) && (
        granted != 0 ==> m.aux.len() + n <= 1000000)),
        m.answers(Op::AuxGetTop(thread), reply) && m.aux.len() <= 1000000 ==> reply == Reply::Int(
            m.aux.len() as i32,
        ),
        m.answers(Op::IndexToLua(position), reply) && position <= 0x7fffffffffffffff ==> reply
            == Reply::Value(Value::Integer(position as i64)),
{
}

/// A call that went through is logged with its function, the chunk that it was loaded from, its arguments
/// and its results, each in its place; and the stack is as it was, and so is what references point to that
/// were not given away.
pub proof fn law_what_a_call_logs(
    m: Machine,
    target: Slot,
    args: Seq<Value>,
    got: Option<Seq<Value>>,
)
    requires
        m.ready(),
        m.can_run(slots_held(args), returned(got)),
    ensures
        ({
            let after = m.called(target, args, got);
            let call = after.calls[m.calls.len() as int];
            &&& after.calls.len() == m.calls.len() + 1
            &&& forall|i: int| 0 <= i < m.calls.len() ==> after.calls[i] == m.calls[i]
            &&& call.target == target
            &&& target is Function && m.heap.chunks.contains_key(target->Function_0) ==> call.chunk
                == Some(m.heap.chunks[target->Function_0])
            &&& call.args.len() == args.len()
            &&& forall|i: int|
                0 <= i < args.len() ==> #[trigger] call.args[i] == m.slot_of(args[i])
            &&& match got {
                Some(values) => {
                    &&& call.results matches Some(results)
                    &&& results.len() == values.len()
                    &&& forall|i: int|
                        0 <= i < values.len() ==> #[trigger] results[i] == after.slot_of(values[i])
                },
                None => call.results is None,
            }
            &&& after.stack == m.stack
            &&& after.faults == m.faults
            &&& after.upvalue == m.upvalue
        }),
        forall|i: int|
            m.refs().contains_key(i) && (forall|k: int|
                0 <= k < args.len() && (#[trigger] args[k]).handle() is Some
                    ==> args[k].handle()->0.index != i) ==> {
                &&& #[trigger] m.called(target, args, got).refs().contains_key(i)
                &&& m.called(target, args, got).refs()[i] == m.refs()[i]
            },
{
    lemma_called(m, target, args, got);
    let later = Machine { calls: m.calls, ..m.called(target, args, got) };
    assert forall|i: int|
        m.refs().contains_key(i) && (forall|k: int|
            0 <= k < args.len() && (#[trigger] args[k]).handle() is Some
                ==> args[k].handle()->0.index != i) implies {
        &&& #[trigger] m.called(target, args, got).refs().contains_key(i)
        &&& m.called(target, args, got).refs()[i] == m.refs()[i]
    } by {
        assert(m.live(i));
        assert(!slots_held(args).contains(i));
        assert(later.live(i) && later.pinned(i) == m.pinned(i));
    }
}

/// A call that failed is logged behind those that failed before it, and changes nothing else.
pub proof fn law_what_is_logged(m: Machine, attempt: Attempt, error: ErrorView)
    ensures
        ({
            let after = m.fault(attempt, error);
            &&& after.faults.len() == m.faults.len() + 1
            &&& after.faults.last().attempt == attempt
            &&& after.faults.last().error == error
            &&& forall|i: int| 0 <= i < m.faults.len() ==> after.faults[i] == m.faults[i]
            &&& after == Machine { faults: after.faults, ..m }
        }),
{
}

/// Calls in protected mode are made one after the other. Where one fails, the arguments are gone, and
/// nothing else has happened.
pub proof fn law_what_protected_calls_do(
    m: Machine,
    args: usize,
    body: Vec<Instr>,
    more: Seq<Instr>,
    instr: Instr,
    error: Error,
)
    requires
        args <= m.stack.len(),
        !m.lent,
    ensures
        m.run(Seq::empty()) == m,
        m.run(more.push(instr)) == m.run(more).apply(instr),
        m.after(Op::Protect(args, body), Reply::Done) == m.run(body@),
        ({
            let after = m.after(Op::Protect(args, body), Reply::Failed(error));
            let height = m.stack.len() as int;
            &&& after.stack == below(m, args as int)
            &&& after.heap == m.heap
            &&& after.faults.len() == m.faults.len() + 1
            &&& after.faults.last().attempt == Attempt::Protect(
                m.stack.skip(height - args),
                body@,
            )
            &&& after.faults.last().error == error@
            &&& after == Machine { stack: after.stack, faults: after.faults, ..m }
        }),
{
    assert(more.push(instr).drop_last() =~= more);
}

/// A value that is placed in the registry is in a place that no one had, and no other place is
/// concerned; what is in the list of places to clear is taken out at once; and a key that is dropped is
/// noted in the list of its state.
pub proof fn law_what_places_do(m: Machine, id: i32, ids: Vec<i32>, key: RegistryKey)
    requires
        m.stack.len() > 0,
    ensures
        ({
            let after = m.after(Op::Ref, Reply::Int(id));
            let value = m.stack[m.stack.len() - 1];
            &&& !m.heap.crowded() && !(value is Nil) ==> {
                &&& after.stack == below(m, 1)
                &&& after.heap.registry == m.heap.registry.insert(Slot::Integer(id as i64), value)
                &&& after.heap.allotted == m.heap.allotted.insert(id)
                &&& after == Machine { stack: after.stack, heap: after.heap, ..m }
            }
            &&& value is Nil ==> {
                &&& after.stack == below(m, 1)
                &&& after.heap == m.heap
                &&& after == Machine { stack: after.stack, ..m }
            }
        }),
        ({
            let after = m.after(Op::ReplaceUnrefList, Reply::List(Some(ids)));
            &&& after.unref.len() == 0
            &&& after.dropped.len() == m.dropped.len() + 1
            &&& after.dropped.last() == ids@
            &&& after == Machine { unref: after.unref, dropped: after.dropped, ..m }
        }),
        ({
            let after = m.after(Op::DropKey(key), Reply::Done);
            &&& key.unref_list == m.extra.registry_unref_list ==> {
                &&& after.unref == m.unref.push(key.registry_id)
                &&& after == Machine { unref: after.unref, misused: after.misused, ..m }
            }
            &&& key.unref_list != m.extra.registry_unref_list ==> {
                &&& after.unref == m.unref
                &&& after.discarded == m.discarded.push((key.registry_id, key.unref_list))
                &&& after == Machine { discarded: after.discarded, ..m }
            }
        }),
{
}

/// Who takes the bookkeeping out gets it as it is, and it becomes what is put back. Room on the
/// auxiliary stack is there once it was granted. A panic is noted, and so is a leak.
pub proof fn law_what_bookkeeping_is(
    m: Machine,
    extra: ExtraData,
    thread: usize,
    n: i32,
    granted: i32,
    text: &'static str,
    reply: Reply,
)
    ensures
        ({
            let after = m.after(Op::ExtraData, reply);
            after.lent && after == Machine { lent: true, misused: m.misused || m.lent, ..m }
        }),
        ({
            let after = m.after(Op::SetExtraData(extra), reply);
            &&& after.extra == extra@
            &&& !after.lent
            &&& after == Machine { lent: false, extra: after.extra, ..m }
        }),
        granted != 0 ==> {
            let after = m.after(Op::AuxCheckStack(thread, n), Reply::Int(granted));
            &&& after.aux_limit >= m.aux.len() + n
            &&& after.aux_limit >= m.aux_limit
            &&& after.aux_limit == m.aux_limit || after.aux_limit == m.aux.len() + n
            &&& after.exhausted == m.exhausted
            &&& after.aux == m.aux
            &&& after.misused == (m.misused || thread != m.aux_thread)
        },
        m.after(Op::Panic(text), reply) == (Machine { panicked: true, ..m }),
        m.after(Op::DebugPanic(text), reply) == (Machine { leaked: true, ..m }),
{
}

/// A function that a reference points to is called with all of its arguments, and so is the function
/// that the running one has as its upvalue; where it fails, the error is logged with both.
pub proof fn law_what_calls_do(
    m: Machine,
    index: i32,
    args: MultiValue,
    got: MultiValue,
    error: Error,
)
    requires
        m.live(index as int),
        m.ready(),
        m.can_run(slots_held(args@), got@),
        m.can_run(slots_held(args@), Seq::empty()),
    ensures
        ({
            let after = m.after(Op::Call(index, args), Reply::Values(got));
            let call = after.calls.last();
            &&& after.calls.len() == m.calls.len() + 1
            &&& call.target == m.refs()[index as int]
            &&& call.args == m.slots_of(args@)
            &&& call.results == Some(after.slots_of(got@))
            &&& after.faults == m.faults
        }),
        ({
            let after = m.after(Op::Call(index, args), Reply::Failed(error));
            let call = after.calls.last();
            &&& after.calls.len() == m.calls.len() + 1
            &&& call.target == m.refs()[index as int]
            &&& call.args == m.slots_of(args@)
            &&& call.results is None
            &&& after.faults.len() == m.faults.len() + 1
            &&& after.faults.last().attempt == Attempt::Call(call.target, call.args)
            &&& after.faults.last().error == error@
        }),
        ({
            let after = m.after(Op::Invoke(args), Reply::Values(got));
            let call = after.calls.last();
            &&& after.calls.len() == m.calls.len() + 1
            &&& call.target == m.upvalue
            &&& call.args == m.slots_of(args@)
            &&& call.results == Some(after.slots_of(got@))
            &&& after.faults == m.faults
        }),
        ({
            let after = m.after(Op::Invoke(args), Reply::Failed(error));
            let call = after.calls.last();
            &&& after.calls.len() == m.calls.len() + 1
            &&& call.target == m.upvalue
            &&& call.args == m.slots_of(args@)
            &&& call.results is None
            &&& after.faults.len() == m.faults.len() + 1
            &&& after.faults.last().attempt == Attempt::Call(call.target, call.args)
            &&& after.faults.last().error == error@
        }),
{
    let target = m.pinned(index as int);
    lemma_called(m, target, args@, Some(got@));
    lemma_called(m, target, args@, None);
    lemma_called(m, m.upvalue, args@, Some(got@));
    lemma_called(m, m.upvalue, args@, None);
}

/// Each item that an iterator gives is noted with its key and its value, behind those before it. The
/// key of an item of a list is its position.
pub proof fn law_what_items_are(
    m: Machine,
    got: Value,
    more: bool,
    position: u64,
    error: Error,
)
    requires
        m.ready(),
        m.can_grow(seq![got]),
        m.can_grow(Seq::empty()),
    ensures
        ({
            let after = m.after(Op::NextItem, Reply::Flag(more));
            &&& after.items == m.items
            &&& more ==> after.yields == m.yields + 1 && after.ends == m.ends
            &&& !more ==> after.yields == m.yields && after.ends == m.ends + 1
            &&& after.faults == m.faults
        }),
        ({
            let after = m.after(Op::ItemKey, Reply::Value(got));
            &&& after.item_key == after.slot_of(got)
            &&& after.items == m.items
            &&& after.yields == m.yields
            &&& after.faults == m.faults
        }),
        ({
            let after = m.after(Op::ItemValue, Reply::Value(got));
            &&& after.items.len() == m.items.len() + 1
            &&& after.items.last() == (m.item_key, after.slot_of(got))
            &&& forall|i: int| 0 <= i < m.items.len() ==> after.items[i] == m.items[i]
            &&& after.yields == m.yields
            &&& after.faults == m.faults
            &&& forall|i: int|
                m.refs().contains_key(i) ==> {
                    &&& #[trigger] after.refs().contains_key(i)
                    &&& after.refs()[i] == m.refs()[i]
                }
        }),
        ({
            let key = m.after(Op::ItemKey, Reply::Failed(error));
            let value = m.after(Op::ItemValue, Reply::Failed(error));
            &&& key.items == m.items && value.items == m.items
            &&& key.faults.len() == m.faults.len() + 1
            &&& key.faults.last().attempt is ItemKey && key.faults.last().error == error@
            &&& value.faults.len() == m.faults.len() + 1
            &&& value.faults.last().attempt is ItemValue && value.faults.last().error == error@
        }),
        ({
            let reply = Reply::Value(got);
            let after = m.after(Op::IndexToLua(position), reply);
            &&& after.items == m.items
            &&& m.answers(Op::IndexToLua(position), reply) && position <= 0x7fffffffffffffff
                ==> after.item_key == Slot::Integer(position as i64)
        }),
{
    lemma_converted(m, m.converted(Seq::empty()), Seq::empty());
    lemma_converted(m, m.converted(seq![got]), seq![got]);
    let none = choose|later: Machine| m.grown(later, Seq::empty());
    let one = choose|later: Machine| m.grown(later, seq![got]);
    assert(m.grown(none, Seq::empty()));
    assert(m.grown(one, seq![got]));
    let after = m.after(Op::ItemValue, Reply::Value(got));
    assert forall|i: int| m.refs().contains_key(i) implies {
        &&& #[trigger] after.refs().contains_key(i)
        &&& after.refs()[i] == m.refs()[i]
    } by {
        assert(m.live(i));
        assert(one.live(i) && one.pinned(i) == m.pinned(i));
    }
}

/// A chunk that was not loaded leaves its error on the stack, and whoever takes it learns of that chunk
/// and its status. What can be a text is replaced by it.
pub proof fn law_what_errors_and_texts_do(
    m: Machine,
    chunk: Chunk,
    status: i32,
    error: Error,
    reply: Reply,
)
    requires
        m.stack.len() > 0,
    ensures
        m.stack[m.stack.len() - 1] == Slot::Raised(chunk, status) ==> {
            let after = m.after(Op::PopError(status), Reply::Raised(error));
            &&& after.stack == below(m, 1)
            &&& after.faults.len() == m.faults.len() + 1
            &&& after.faults.last().attempt == Attempt::Load(chunk, status)
            &&& after.faults.last().error == error@
            &&& after == Machine { stack: after.stack, faults: after.faults, ..m }
        },
        ({
            let after = m.after(Op::ToStringValue, reply);
            match m.laws.to_text(m.stack[m.stack.len() - 1]) {
                Some(text) => {
                    &&& after.stack == below(m, 1).push(text)
                    &&& after == Machine { stack: after.stack, ..m }
                },
                None => after == m,
            }
        }),
        m.after(Op::PushWrappedError(error), reply).stack == m.stack.push(
            Slot::WrappedError(error@),
        ),
        m.after(Op::GetWrappedError, reply).stack == m.stack,
        m.after(Op::Type, reply) == m,
        m.after(Op::ToBoolean, reply) == m,
        m.after(Op::IsInteger, reply) == m,
        m.after(Op::ToInteger, reply) == m,
        m.after(Op::ToNumber, reply) == m,
        m.after(Op::ToUserData, reply) == m,
        m.after(Op::ToIntegerX, reply) == m,
        m.after(Op::ToNumberX, reply) == m,
        m.after(Op::UpvalueType, reply) == m,
        m.after(Op::GetTop, reply) == m,
        m.after(Op::StackGuard, reply) == m,
{
}

/// The metatable of a type of userdata is finished as Lua finishes it, with the table of its members
/// where it has any; and a type that is asked for its methods is noted.
pub proof fn law_what_finishes_types(m: Machine, members: bool, kind: u64, reply: Reply)
    requires
        m.stack.len() >= 2,
        !m.lent,
        ({
            let table = m.stack[m.stack.len() - if members { 2int } else { 1 }];
            table is Table && m.heap.tables.contains_key(table->Table_0)
        }),
        members ==> m.stack[m.stack.len() - 1] is Table,
    ensures
        ({
            let after = m.after(Op::InitUserdataMetatable(members), Reply::Done);
            let height = m.stack.len() as int;
            let id = m.stack[height - if members { 2int } else { 1 }]->Table_0;
            &&& after.stack == m.stack
            &&& after.heap.tables[id] == (m.laws.userdata_metatable)(
                m.heap.tables[id],
                if members {
                    Some(m.stack[height - 1]->Table_0)
                } else {
                    None
                },
            )
            &&& forall|other: nat|
                other != id ==> #[trigger] after.heap.tables[other] == m.heap.tables[other]
            &&& after.heap.registry == m.heap.registry
            &&& after == Machine { heap: after.heap, ..m }
        }),
        ({
            let after = m.after(Op::AddMethods(kind), reply);
            &&& after.registrations == m.registrations.push(kind)
            &&& after == Machine { registrations: after.registrations, ..m }
        }),
{
}

/// The references that are given away with values are those of the handles among them.
pub proof fn law_what_is_given_away(values: Seq<Value>, i: int)
    ensures
        forall|k: int|
            0 <= k < values.len() && (#[trigger] values[k]).handle() is Some ==> slots_held(
                values,
            ).contains(values[k].handle()->0.index as int),
        slots_held(values).contains(i) ==> exists|k: int|
            0 <= k < values.len() && (#[trigger] values[k]).handle() is Some
                && values[k].handle()->0.index == i,
{
    assert forall|k: int|
        0 <= k < values.len() && (#[trigger] values[k]).handle() is Some implies slots_held(
        values,
    ).contains(values[k].handle()->0.index as int) by {
    }
}

/// Where nothing is lost, every object is there still and is what it was, and the registry is the same.
pub proof fn law_what_is_kept(heap: Heap, later: Heap, id: nat, object: Slot, handle: usize)
    requires
        heap.kept_in(later),
    ensures
        later.registry == heap.registry,
        later.allotted == heap.allotted,
        later.libraries == heap.libraries,
        heap.tables.contains_key(id) ==> later.tables.contains_key(id) && later.tables[id]
            == heap.tables[id],
        heap.closures.contains_key(id) ==> later.closures.contains_key(id) && later.closures[id]
            == heap.closures[id],
        heap.chunks.contains_key(id) ==> later.chunks.contains_key(id) && later.chunks[id]
            == heap.chunks[id],
        heap.callbacks.contains_key(id) ==> later.callbacks.contains_key(id) && later.callbacks[id]
            == heap.callbacks[id],
        heap.payloads.contains_key(id) ==> later.payloads.contains_key(id) && later.payloads[id]
            == heap.payloads[id],
        heap.threads.contains_key(id) ==> later.threads.contains_key(id) && later.threads[id]
            == heap.threads[id],
        heap.handles.contains_key(handle) ==> later.handles.contains_key(handle)
            && later.handles[handle] == heap.handles[handle],
        heap.metatables.contains_key(object) ==> later.metatables.contains_key(object)
            && later.metatables[object] == heap.metatables[object],
{
}

/// What the registry holds under a key is what was stored there, unless no one is known to have stored
/// anything: such a place is one of Lua's own, and holds what Lua keeps there.
pub proof fn law_what_the_registry_holds(m: Machine, key: Slot, id: i32)
    ensures
        m.ready() && m.heap.allotted.contains(id) ==> m.registry_at(Slot::Integer(id as i64))
            == m.heap.registry[Slot::Integer(id as i64)],
        key matches Slot::Str(text) ==> {
            &&& m.heap.registry.contains_key(key) ==> m.registry_at(key) == m.heap.registry[key]
            &&& !m.heap.registry.contains_key(key) && !(m.laws.own_name)(text) ==> m.registry_at(
                key,
            ) is Nil
            &&& !m.heap.registry.contains_key(key) && (m.laws.own_name)(text) ==> m.registry_at(key)
                == (m.laws.own_entry)(m.disturbed, text)
        },
        !(key is Integer) && !(key is Str) ==> m.registry_at(key) == table_get(
            m.heap.registry,
            key,
        ),
{
}

} // verus!

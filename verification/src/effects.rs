//! What the operations do, said of the fields of the machine before and after them.
use crate::boot::standard_libraries;
use crate::callback::room_for;
use crate::extra::LUAI_MAXSTACK;
use crate::laws::{
    law_last_item_wins, law_names_are_distinct, law_no_other_items, lemma_release_all,
};
use crate::load::{
    decimal, digit, first_nul, name_broken, name_bytes, name_error, return_source,
};
use crate::machine::{Attempt, Chunk, Heap, LUA_ERRSYNTAX, LUA_OK, Machine, Slot, table_get};
use crate::metatable::lemma_rust_function;
use crate::protocol::{Instr, Library, Routine};
use crate::registry::{
    name_not_set, named_value_read, named_value_set, named_value_unset, placed_value_read,
    value_placed, value_removed, values_expired,
};
use crate::value::{
    AnyUserData, Callback, Error, ErrorView, Function, MultiValue, RegistryKey, Table, Value,
};
use crate::values::law_fixed_names;
use vstd::prelude::*;
use vstd::utf8::{encode_utf8, is_ascii_chars, is_ascii_chars_encode_utf8};

verus! {

/// What callbacks return needs no more room than one slot for each value and one more: where that fits
/// on a stack, the stack can have it.
pub proof fn law_results_ask_for_no_more_than_they_need(n: nat, height: nat)
    requires
        n <= usize::MAX,
    ensures
        n <= room_for(n) <= n + 1,
        height + n + 1 <= LUAI_MAXSTACK ==> height + room_for(n) <= LUAI_MAXSTACK,
{
}

/// A callback that ran got all that was on the stack, in order, and what it returned is all that is on
/// the stack now, in order, and is counted. If it failed, its error was handed on. If it returned
/// something that there was no room for, that much room was asked for and no more than one slot above
/// it.
pub proof fn law_callback_hands_everything_on(
    m: Machine,
    after: Machine,
    r: Result<usize, Error>,
)
    requires
        after.ran_callback(m, r),
    ensures
        after.calls.len() == m.calls.len() + 1,
        forall|i: int| 0 <= i < m.calls.len() ==> after.calls[i] == m.calls[i],
        ({
            let call = after.calls[m.calls.len() as int];
            &&& call.target == m.upvalue
            &&& call.args.len() == m.stack.len()
            &&& forall|i: int| 0 <= i < m.stack.len() ==> call.args[i] == m.stack[i]
            &&& match r {
                Ok(n) => {
                    &&& call.results matches Some(results)
                    &&& n == results.len()
                    &&& after.stack.len() == results.len()
                    &&& forall|i: int| 0 <= i < results.len() ==> after.stack[i] == results[i]
                    &&& after.faults == m.faults
                },
                Err(e) => {
                    &&& after.stack.len() == 0
                    &&& after.faults.len() == m.faults.len() + 1
                    &&& after.faults.last().error == e@
                    &&& match call.results {
                        Some(results) => {
                            &&& after.faults.last().attempt matches Attempt::CheckStack(room)
                            &&& room <= results.len() + 1
                            &&& results.len() <= usize::MAX ==> results.len() <= room
                        },
                        None => after.faults.last().attempt == Attempt::Call(m.upvalue, m.stack),
                    }
                },
            }
        }),
{
    assert(after.calls.drop_last() == m.calls);
    assert forall|i: int| 0 <= i < m.calls.len() implies after.calls[i] == m.calls[i] by {
        assert(after.calls.drop_last()[i] == m.calls[i]);
    }
}

/// The bytes of the word that makes an expression a chunk.
pub open spec fn return_bytes() -> Seq<u8> {
    seq![114u8, 101u8, 116u8, 117u8, 114u8, 110u8, 32u8]
}

/// The chunk that returns the value of an expression is the word `return`, a space, and the source of
/// the expression.
pub proof fn law_expression_is_returned(source: Seq<u8>)
    ensures
        return_source(source).len() == source.len() + 7,
        return_source(source).take(7) == return_bytes(),
        return_source(source).skip(7) == source,
{
    let word = "return "@;
    reveal_strlit("return ");
    assert(is_ascii_chars(word));
    is_ascii_chars_encode_utf8(word);
    let bytes = encode_utf8(word);
    assert(word[0] == 'r' && word[1] == 'e' && word[2] == 't' && word[3] == 'u');
    assert(word[4] == 'r' && word[5] == 'n' && word[6] == ' ');
    assert(bytes =~= return_bytes());
    assert(return_source(source).take(7) =~= bytes);
    assert(return_source(source).skip(7) =~= source);
}

/// The chunk is the source with the word `return` before it, under this name.
pub open spec fn is_expression(chunk: Chunk, source: Seq<u8>, name: Option<Seq<u8>>) -> bool {
    &&& chunk.source.len() == source.len() + 7
    &&& chunk.source.take(7) == return_bytes()
    &&& chunk.source.skip(7) == source
    &&& chunk.name == name
}

/// What is evaluated is tried as an expression first: either the expression was called, and its values
/// are the result, or the first call that failed was the one to load it, and then the source itself was
/// called, or could not be loaded. Where the expression compiles and nothing else than its syntax is
/// the matter, it was called.
pub proof fn law_expression_is_tried_first(
    m: Machine,
    after: Machine,
    source: Seq<u8>,
    name: Option<Seq<u8>>,
    r: Result<MultiValue, Error>,
)
    requires
        after.evaluated(
            m,
            Chunk { source: return_source(source), name },
            Chunk { source, name },
            r,
        ),
    ensures
        exists|expression: Chunk|
            {
                &&& #[trigger] is_expression(expression, source, name)
                &&& {
                    ||| called_and_returned(m, after, expression, r)
                    ||| {
                        &&& after.faults.len() > m.faults.len()
                        &&& after.faults[m.faults.len() as int].attempt matches Attempt::Load(
                            chunk,
                            status,
                        )
                        &&& chunk == expression
                        &&& status != LUA_OK
                        &&& status == LUA_ERRSYNTAX ==> !(m.laws.compiles)(expression.source)
                        &&& {
                            ||| called_and_returned(m, after, Chunk { source, name }, r)
                            ||| {
                                &&& r matches Err(e)
                                &&& after.calls == m.calls
                                &&& after.faults.len() == m.faults.len() + 2
                                &&& after.faults.last().error == e@
                                &&& after.faults.last().attempt matches Attempt::Load(second, _)
                                &&& second == Chunk { source, name }
                            }
                        }
                    }
                }
            },
{
    law_expression_is_returned(source);
    let expression = Chunk { source: return_source(source), name };
    let statement = Chunk { source, name };
    assert(is_expression(expression, source, name));
    if (m.laws.compiles)(expression.source) && after.ran_chunk(m, expression, r) {
        law_chunk_gives_what_it_returned(m, after, expression, r);
    } else {
        let (tried, first) = choose|tried: Machine, first: Error|
            {
                &&& #[trigger] tried.load_failed(m, expression, first)
                &&& {
                    ||| r matches Err(e) && after.load_failed(tried, statement, e)
                    ||| (m.laws.compiles)(statement.source) && after.ran_chunk(
                        tried,
                        statement,
                        r,
                    )
                }
            };
        assert(tried.faults.last().attempt == tried.faults[m.faults.len() as int].attempt);
        assert(tried.calls == m.calls);
        if r is Err && after.load_failed(tried, statement, r->Err_0) {
            assert(after.faults.len() == m.faults.len() + 2);
            assert(after.faults[m.faults.len() as int] == tried.faults[m.faults.len() as int]);
        } else {
            law_chunk_gives_what_it_returned(tried, after, statement, r);
            assert(after.faults[m.faults.len() as int] == tried.faults[m.faults.len() as int]);
            assert(called_and_returned(m, after, statement, r));
        }
    }
}

/// The last call was of the function of this chunk, without arguments, and its values are the result,
/// each in its place; or it failed, with the error that is the result.
pub open spec fn called_and_returned(
    m: Machine,
    after: Machine,
    chunk: Chunk,
    r: Result<MultiValue, Error>,
) -> bool {
    let call = after.calls.last();
    &&& after.calls.len() == m.calls.len() + 1
    &&& forall|i: int| 0 <= i < m.calls.len() ==> after.calls[i] == m.calls[i]
    &&& call.chunk == Some(chunk)
    &&& call.args.len() == 0
    &&& match r {
        Ok(values) => {
            &&& call.results matches Some(results)
            &&& values@.len() == results.len()
            &&& forall|i: int|
                0 <= i < results.len() ==> after.slot_of(#[trigger] values@[i]) == results[i]
        },
        Err(e) => {
            &&& call.results is None
            &&& after.faults.len() > 0
            &&& after.faults.last().attempt matches Attempt::Call(_, args)
            &&& args.len() == 0
            &&& after.faults.last().error == e@
        },
    }
}

/// A chunk that was run was called once, without arguments, and gives what it returned, each value in
/// its place, or its error.
pub proof fn law_chunk_gives_what_it_returned(
    m: Machine,
    after: Machine,
    chunk: Chunk,
    r: Result<MultiValue, Error>,
)
    requires
        after.ran_chunk(m, chunk, r),
    ensures
        called_and_returned(m, after, chunk, r),
        after.stack == m.stack,
        r is Ok ==> after.faults == m.faults,
        r is Err ==> after.faults.len() == m.faults.len() + 1,
        forall|i: int| 0 <= i < m.faults.len() ==> after.faults[i] == m.faults[i],
{
    assert(after.calls.drop_last() == m.calls);
    assert forall|i: int| 0 <= i < m.calls.len() implies after.calls[i] == m.calls[i] by {
        assert(after.calls.drop_last()[i] == m.calls[i]);
    }
    if r is Ok {
        let values = (r->Ok_0)@;
        assert forall|i: int| 0 <= i < values.len() implies after.slot_of(#[trigger] values[i])
            == (after.calls.last().results->0)[i] by {
        }
    }
}

/// When the values are removed whose keys are gone, every place in the list as it was known before, and
/// every place in a list that was taken out meanwhile, is cleared: it is not given out, and its value is
/// not in the registry. Every other place, and every name, keeps its value, and the list is empty.
pub proof fn law_every_dropped_place_is_cleared(m: Machine, after: Machine)
    requires
        values_expired(m, after, after.dropped.last()),
    ensures
        after.dropped.len() == m.dropped.len() + 1,
        after.unref.len() == 0,
        forall|i: int|
            0 <= i < m.unref.len() && (#[trigger] m.unref[i]) >= 0 ==> {
                &&& !after.heap.allotted.contains(m.unref[i])
                &&& !after.heap.registry.contains_key(Slot::Integer(m.unref[i] as i64))
            },
        forall|k: int, i: int|
            m.dropped.len() <= k < after.dropped.len() && 0 <= i < after.dropped[k].len() && (
            #[trigger] after.dropped[k][i]) >= 0 ==> {
                &&& !after.heap.allotted.contains(after.dropped[k][i])
                &&& !after.heap.registry.contains_key(Slot::Integer(after.dropped[k][i] as i64))
            },
        forall|id: i32|
            !after.dropped.last().contains(id) ==> {
                &&& (#[trigger] after.heap.allotted.contains(id)) == m.heap.allotted.contains(id)
                &&& table_get(after.heap.registry, Slot::Integer(id as i64)) == table_get(
                    m.heap.registry,
                    Slot::Integer(id as i64),
                )
            },
        forall|text: Seq<u8>| #[trigger]
            table_get(after.heap.registry, Slot::Str(text)) == table_get(
                m.heap.registry,
                Slot::Str(text),
            ),
        after.stack == m.stack,
        after.refs() == m.refs(),
        after.calls == m.calls,
        after.faults == m.faults,
{
    let ids = after.dropped.last();
    lemma_release_all(m.heap, ids);
    assert forall|i: int| 0 <= i < ids.len() && (#[trigger] ids[i]) >= 0 implies {
        &&& !after.heap.allotted.contains(ids[i])
        &&& !after.heap.registry.contains_key(Slot::Integer(ids[i] as i64))
    } by {
    }
    assert forall|i: int| 0 <= i < m.unref.len() && (#[trigger] m.unref[i]) >= 0 implies {
        &&& !after.heap.allotted.contains(m.unref[i])
        &&& !after.heap.registry.contains_key(Slot::Integer(m.unref[i] as i64))
    } by {
        assert(ids[i] == m.unref[i]);
    }
    assert forall|id: i32| !ids.contains(id) implies {
        &&& (#[trigger] after.heap.allotted.contains(id)) == m.heap.allotted.contains(id)
        &&& table_get(after.heap.registry, Slot::Integer(id as i64)) == table_get(
            m.heap.registry,
            Slot::Integer(id as i64),
        )
    } by {
        assert forall|i: int| 0 <= i < ids.len() implies Slot::Integer(id as i64) != Slot::Integer(
            #[trigger] ids[i] as i64,
        ) by {
            assert(ids[i] != id);
        }
        assert(table_get(m.heap.release_all(ids).registry, Slot::Integer(id as i64)) == table_get(
            m.heap.registry,
            Slot::Integer(id as i64),
        ));
    }
    assert(after.refs() =~= m.refs());
}

/// When a hook is set, Lua has its mask and its count, and its function is called; nothing else
/// changes. When it is removed, there is none.
pub proof fn law_hook_is_what_was_asked_for(
    m: Machine,
    set: Machine,
    removed: Machine,
    callback: usize,
    mask: i32,
    count: i32,
)
    requires
        set == m.with_hook(callback, mask, count),
        removed == m.without_hook(),
    ensures
        set.hook == Some((mask, count)),
        set.extra.hook_callback == Some(callback),
        set.stack == m.stack,
        set.heap == m.heap,
        set.refs() == m.refs(),
        set.extra.registered_userdata == m.extra.registered_userdata,
        set.extra.registry_unref_list == m.extra.registry_unref_list,
        set.unref == m.unref,
        set.calls == m.calls,
        set.faults == m.faults,
        removed.hook is None,
        removed.extra.hook_callback is None,
        removed.stack == m.stack,
        removed.heap == m.heap,
        removed.refs() == m.refs(),
        removed.extra.registered_userdata == m.extra.registered_userdata,
        removed.extra.registry_unref_list == m.extra.registry_unref_list,
        removed.unref == m.unref,
        removed.calls == m.calls,
        removed.faults == m.faults,
{
    assert(set.refs() =~= m.refs());
    assert(removed.refs() =~= m.refs());
}

/// A chunk that was loaded is a new function, which a new handle points to, and nothing else has
/// changed.
pub proof fn law_loaded_chunk_is_a_function(
    m: Machine,
    after: Machine,
    chunk: Chunk,
    f: Function,
)
    requires
        after.loaded_chunk(m, chunk, f),
    ensures
        (m.laws.compiles)(chunk.source),
        after.heap.chunks.contains_key(m.heap.next),
        after.heap.chunks[m.heap.next] == chunk,
        after.heap.next == m.heap.next + 1,
        forall|id: nat|
            id != m.heap.next && #[trigger] m.heap.chunks.contains_key(id) ==> {
                &&& after.heap.chunks.contains_key(id)
                &&& after.heap.chunks[id] == m.heap.chunks[id]
            },
        after.heap.registry == m.heap.registry,
        after.heap.tables == m.heap.tables,
        !m.refs().contains_key(f.0.index as int),
        after.refs() == m.refs().insert(f.0.index as int, Slot::Function(m.heap.next)),
        after.stack == m.stack,
        after.faults == m.faults,
        after.calls == m.calls,
{
}

/// A chunk that could not be loaded was handed to Lua as it is, and if Lua says that it is an error of
/// syntax, the chunk does not compile.
pub proof fn law_chunk_that_was_not_loaded(m: Machine, after: Machine, chunk: Chunk, e: Error)
    requires
        after.load_failed(m, chunk, e),
    ensures
        after.faults.len() == m.faults.len() + 1,
        after.faults.last().error == e@,
        after.faults.last().attempt matches Attempt::Load(tried, status) && {
            &&& tried.source == chunk.source
            &&& tried.name == chunk.name
            &&& status != 0
            &&& status == 3 ==> !(m.laws.compiles)(chunk.source)
        },
        after.heap == m.heap,
        after.stack == m.stack,
        after.refs() == m.refs(),
        after.calls == m.calls,
{
}

/// The number that a text in decimal stands for.
pub open spec fn decimal_value(text: Seq<char>) -> int
    decreases text.len(),
{
    if text.len() == 0 {
        0
    } else {
        10 * decimal_value(text.drop_last()) + (text.last() as int - '0' as int)
    }
}

/// A number in decimal consists of digits, stands for the number, and does not begin with a zero unless
/// it is zero.
pub proof fn law_decimal(n: nat)
    ensures
        decimal(n).len() > 0,
        forall|i: int| 0 <= i < decimal(n).len() ==> '0' <= #[trigger] decimal(n)[i] <= '9',
        decimal_value(decimal(n)) == n,
        decimal(n).len() > 1 ==> decimal(n)[0] != '0',
        n > 0 ==> decimal(n)[0] != '0',
    decreases n,
{
    lemma_digit(n % 10);
    reveal_with_fuel(decimal_value, 2);
    if n < 10 {
        assert(decimal(n).drop_last().len() == 0);
    } else {
        law_decimal(n / 10);
        let text = decimal(n);
        assert(text.drop_last() =~= decimal(n / 10));
        assert(text.last() == digit(n % 10)[0]);
        assert(text[0] == decimal(n / 10)[0]);
        assert forall|i: int| 0 <= i < text.len() implies '0' <= #[trigger] text[i] <= '9' by {
            if i < text.len() - 1 {
                assert(text[i] == decimal(n / 10)[i]);
            }
        }
    }
}

/// A digit is one character, the one with its value.
proof fn lemma_digit(n: nat)
    requires
        n < 10,
    ensures
        digit(n).len() == 1,
        '0' <= digit(n)[0] <= '9',
        digit(n)[0] as int - '0' as int == n,
{
    reveal_strlit("0");
    reveal_strlit("1");
    reveal_strlit("2");
    reveal_strlit("3");
    reveal_strlit("4");
    reveal_strlit("5");
    reveal_strlit("6");
    reveal_strlit("7");
    reveal_strlit("8");
    reveal_strlit("9");
}

/// The first byte that is zero is in this place, and the error says so.
pub open spec fn tells_first_zero(bytes: Seq<u8>, place: int, error: ErrorView) -> bool {
    let prefix = "nul byte found in provided data at position: "@;
    &&& 0 <= place < bytes.len()
    &&& bytes[place] == 0
    &&& forall|i: int| 0 <= i < place ==> bytes[i] != 0
    &&& error matches ErrorView::ToLuaConversionError { from, to, message }
    &&& from == "&str"@
    &&& to == "string"@
    &&& message matches Some(text)
    &&& text.take(prefix.len() as int) == prefix
    &&& text.len() > prefix.len()
    &&& decimal_value(text.skip(prefix.len() as int)) == place
}

/// The name of a chunk is handed to Lua byte by byte. It is refused exactly where one of the bytes is
/// zero, with an error that tells the first such place.
pub proof fn law_name_of_a_chunk(name: Option<&str>)
    ensures
        name is None ==> name_bytes(name) is None && !name_broken(name),
        name matches Some(text) ==> {
            let bytes = encode_utf8(text@);
            &&& name_bytes(name) == Some(bytes)
            &&& name_broken(name) <==> exists|i: int|
                0 <= i < bytes.len() && #[trigger] bytes[i] == 0
        },
        name_broken(name) ==> exists|place: int| #[trigger]
            tells_first_zero(encode_utf8((name->0)@), place, name_error(name)),
{
    if name_broken(name) {
        let bytes = encode_utf8((name->0)@);
        let prefix = "nul byte found in provided data at position: "@;
        let some = choose|i: int| 0 <= i < bytes.len() && bytes[i] == 0;
        lemma_first_nul(bytes, some);
        let place = choose|place: int| first_nul(bytes, place);
        assert(first_nul(bytes, place));
        assert(bytes[place] == 0);
        law_decimal(place as nat);
        let text = prefix + decimal(place as nat);
        assert(text.take(prefix.len() as int) =~= prefix);
        assert(text.skip(prefix.len() as int) =~= decimal(place as nat));
        assert(tells_first_zero(bytes, place, name_error(name)));
    }
    if name is Some {
        let bytes = encode_utf8((name->0)@);
        if name_broken(name) {
            let i = choose|i: int| 0 <= i < bytes.len() && bytes[i] == 0;
            assert(bytes[i] == 0);
        }
    }
}

/// Where there is a null byte, there is a first one.
proof fn lemma_first_nul(bytes: Seq<u8>, some: int)
    requires
        0 <= some < bytes.len(),
        bytes[some] == 0,
    ensures
        exists|place: int| #[trigger] first_nul(bytes, place),
    decreases some,
{
    if exists|i: int| 0 <= i < some && bytes[i] == 0 {
        let i = choose|i: int| 0 <= i < some && bytes[i] == 0;
        lemma_first_nul(bytes, i);
    } else {
        assert(first_nul(bytes, some));
    }
}

/// A named value that was set is in the registry under the bytes of its name, and nothing else there has
/// changed.
pub proof fn law_named_value_is_stored(m: Machine, after: Machine, name: Seq<char>, value: Value)
    requires
        named_value_set(m, after, name, value),
    ensures
        ({
            let place = Slot::Str(encode_utf8(name));
            &&& after.heap.registry.contains_key(place)
            &&& after.heap.registry[place] == m.slot_of(value)
            &&& forall|key: Slot|
                key != place ==> {
                    &&& (#[trigger] after.heap.registry.contains_key(key))
                        == m.heap.registry.contains_key(key)
                    &&& after.heap.registry[key] == m.heap.registry[key]
                }
        }),
        after.heap.allotted == m.heap.allotted,
        after.heap.tables == m.heap.tables,
        after.heap.next == m.heap.next,
        after.stack == m.stack,
        after.faults == m.faults,
        after.calls == m.calls,
{
    let place = Slot::Str(encode_utf8(name));
    assert forall|key: Slot| key != place implies {
        &&& (#[trigger] after.heap.registry.contains_key(key)) == m.heap.registry.contains_key(key)
        &&& after.heap.registry[key] == m.heap.registry[key]
    } by {
        assert(after.heap.registry == m.heap.registry.insert(place, m.slot_of(value)));
    }
}

/// A named value that was removed reads as nil, and nothing else in the registry has changed.
pub proof fn law_named_value_is_removed(m: Machine, after: Machine, name: Seq<char>)
    requires
        named_value_unset(m, after, name),
    ensures
        ({
            let place = Slot::Str(encode_utf8(name));
            &&& after.registry_at(place) is Nil
            &&& table_get(after.heap.registry, place) is Nil
            &&& forall|key: Slot|
                key != place ==> {
                    &&& (#[trigger] after.heap.registry.contains_key(key))
                        == m.heap.registry.contains_key(key)
                    &&& after.heap.registry[key] == m.heap.registry[key]
                }
        }),
        after.heap.allotted == m.heap.allotted,
        after.heap.tables == m.heap.tables,
        after.stack == m.stack,
        after.faults == m.faults,
        after.calls == m.calls,
{
    let place = Slot::Str(encode_utf8(name));
    assert forall|key: Slot| key != place implies {
        &&& (#[trigger] after.heap.registry.contains_key(key)) == m.heap.registry.contains_key(key)
        &&& after.heap.registry[key] == m.heap.registry[key]
    } by {
        assert(after.heap.registry == m.heap.registry.insert(place, Slot::Nil));
    }
}

/// A named value that is read is what the registry holds under the bytes of its name, or nil where it
/// holds nothing, and reading changes nothing.
pub proof fn law_named_value_is_read(m: Machine, after: Machine, name: Seq<char>, got: Value)
    requires
        named_value_read(m, after, name, got),
    ensures
        ({
            let place = Slot::Str(encode_utf8(name));
            &&& m.heap.registry.contains_key(place) ==> after.slot_of(got) == m.heap.registry[place]
            &&& !m.heap.registry.contains_key(place) && !(m.laws.own_name)(encode_utf8(name))
                ==> got is Nil
        }),
        after.heap == m.heap,
        after.stack == m.stack,
        after.faults == m.faults,
        after.calls == m.calls,
{
}

/// A step to set a named value that failed was the one to push the bytes of the name, or the one to
/// store the value under them.
pub proof fn law_named_value_was_not_stored(
    m: Machine,
    after: Machine,
    name: Seq<char>,
    slot: Slot,
    e: Error,
)
    requires
        name_not_set(m, after, name, slot, e),
    ensures
        after.heap == m.heap,
        after.stack == m.stack,
        after.faults.len() == m.faults.len() + 1,
        after.faults.last().error == e@,
        ({
            let attempt = after.faults.last().attempt;
            ||| attempt matches Attempt::PushString(bytes) && bytes == encode_utf8(name)
            ||| attempt matches Attempt::Protect(args, body) && {
                &&& args.len() == 2
                &&& args[0] == Slot::Str(encode_utf8(name))
                &&& args[1] == slot
                &&& body.len() == 1
                &&& body[0] is RawSetRegistry
            }
        }),
{
}

/// A value that was placed is in the registry under a number of its own, which its key carries. Nil is
/// placed nowhere. The key carries the list of this state, and nothing else in the registry has changed.
pub proof fn law_value_is_placed(m: Machine, after: Machine, value: Value, key: RegistryKey)
    requires
        value_placed(m, after, value, key),
    ensures
        key.unref_list == m.extra.registry_unref_list,
        m.slot_of(value) is Nil ==> key.registry_id == -1 && after.heap == m.heap,
        !(m.slot_of(value) is Nil) ==> {
            let place = Slot::Integer(key.registry_id as i64);
            &&& key.registry_id > 2
            &&& !m.heap.allotted.contains(key.registry_id)
            &&& after.heap.allotted == m.heap.allotted.insert(key.registry_id)
            &&& after.heap.registry == m.heap.registry.insert(place, m.slot_of(value))
            &&& after.heap.tables == m.heap.tables
            &&& after.heap.next == m.heap.next
        },
        after.stack == m.stack,
        after.faults == m.faults,
        after.calls == m.calls,
        after.unref == m.unref,
{
}

/// A value that is read by its key is what the registry holds under the number of the key, and nil for
/// the key of nil. Reading changes nothing.
pub proof fn law_value_is_read_by_its_key(m: Machine, after: Machine, key: RegistryKey, got: Value)
    requires
        m.ready(),
        m.holds_key(key),
        placed_value_read(m, after, key, got),
    ensures
        key.unref_list == m.extra.registry_unref_list,
        key.registry_id == -1 ==> got is Nil,
        key.registry_id != -1 ==> {
            &&& m.heap.allotted.contains(key.registry_id)
            &&& !m.unref.contains(key.registry_id)
            &&& m.heap.registry.contains_key(Slot::Integer(key.registry_id as i64))
            &&& after.slot_of(got) == m.heap.registry[Slot::Integer(key.registry_id as i64)]
        },
        after.heap == m.heap,
        after.stack == m.stack,
        after.faults == m.faults,
{
}

/// To remove a value clears its place and changes nothing else; the key of nil has no place.
pub proof fn law_value_is_removed(m: Machine, after: Machine, key: RegistryKey)
    requires
        value_removed(m, after, key),
    ensures
        key.registry_id < 0 ==> after == m,
        key.registry_id >= 0 ==> {
            let place = Slot::Integer(key.registry_id as i64);
            &&& after.heap.allotted == m.heap.allotted.remove(key.registry_id)
            &&& after.heap.registry == m.heap.registry.remove(place)
            &&& after.heap.tables == m.heap.tables
            &&& after.heap.next == m.heap.next
        },
        after.stack == m.stack,
        after.refs() == m.refs(),
        after.faults == m.faults,
        after.calls == m.calls,
        after.unref == m.unref,
        after.dropped == m.dropped,
        after.discarded == m.discarded,
{
    assert(after.refs() =~= m.refs());
}

/// Which place of the registry a key owns: one that was given out, neither to a type of userdata nor to
/// the auxiliary thread, and whose key is not gone.
pub proof fn law_what_a_key_owns(m: Machine, key: RegistryKey)
    ensures
        m.holds_key(key) <==> key.unref_list == m.extra.registry_unref_list && {
            ||| key.registry_id == -1
            ||| {
                &&& m.heap.allotted.contains(key.registry_id)
                &&& key.registry_id != m.anchor
                &&& !m.unref.contains(key.registry_id)
                &&& forall|kind: u64| #[trigger]
                    m.extra.registered_userdata.contains_key(kind)
                        ==> m.extra.registered_userdata[kind] != key.registry_id
            }
        },
{
    let types = m.extra.registered_userdata;
    if types.contains_value(key.registry_id) {
        let kind = choose|kind: u64| types.contains_key(kind) && types[kind] == key.registry_id;
        assert(types.contains_key(kind));
    }
    if exists|kind: u64| types.contains_key(kind) && types[kind] == key.registry_id {
        let kind = choose|kind: u64| types.contains_key(kind) && types[kind] == key.registry_id;
        assert(types.contains_value(types[kind]));
    }
}

/// A slot is a function that runs a callback: it carries a userdata with the metatable of callbacks,
/// which holds this callback.
pub open spec fn carries(heap: Heap, slot: Slot, callback: Callback, function_key: usize) -> bool {
    &&& slot matches Slot::Function(f)
    &&& heap.closures.contains_key(f)
    &&& heap.closures[f].routine is CallCallback
    &&& heap.closures[f].upvalue matches Slot::UserData(boxed)
    &&& heap.callbacks.contains_key(boxed)
    &&& heap.callbacks[boxed] == callback
    &&& heap.metatables.contains_key(Slot::UserData(boxed))
    &&& heap.registry.contains_key(Slot::LightUserData(function_key))
    &&& heap.metatables[Slot::UserData(boxed)] == heap.registry[Slot::LightUserData(function_key)]
}

/// A function that was made from a callback carries this callback, and a new handle points to it; what
/// was there is there still. A step that failed was the one to box this callback, or the one to make a
/// function that carries the box.
pub proof fn law_function_carries_its_callback(
    m: Machine,
    after: Machine,
    callback: Callback,
    r: Result<Function, Error>,
)
    requires
        m.ready(),
        after.made_function(m, callback, r),
    ensures
        match r {
            Ok(f) => {
                &&& !m.refs().contains_key(f.0.index as int)
                &&& after.refs().contains_key(f.0.index as int)
                &&& carries(
                    after.heap,
                    after.refs()[f.0.index as int],
                    callback,
                    m.function_key,
                )
                &&& after.faults == m.faults
            },
            Err(e) => {
                let attempt = after.faults.last().attempt;
                &&& after.refs() == m.refs()
                &&& after.faults.len() == m.faults.len() + 1
                &&& after.faults.last().error == e@
                &&& {
                    ||| attempt == Attempt::PushCallback(callback)
                    ||| {
                        &&& attempt matches Attempt::Protect(args, body)
                        &&& args.len() == 1
                        &&& args[0] matches Slot::UserData(boxed)
                        &&& after.heap.callbacks.contains_key(boxed)
                        &&& after.heap.callbacks[boxed] == callback
                        &&& body.len() == 1
                        &&& body[0] == Instr::PushCClosure(Routine::CallCallback)
                    }
                }
            },
        },
        m.heap.closures.submap_of(after.heap.closures),
        m.heap.callbacks.submap_of(after.heap.callbacks),
        after.heap.registry == m.heap.registry,
        after.heap.tables == m.heap.tables,
        after.stack == m.stack,
        after.calls == m.calls,
{
    lemma_rust_function(m.heap, callback, m.function_key);
}

/// A userdata that was made holds its Rust value, and has the metatable that is in the place of its type.
/// A new handle points to it.
pub proof fn law_userdata_holds_its_value(
    m: Machine,
    after: Machine,
    kind: u64,
    data: usize,
    r: Result<AnyUserData, Error>,
)
    requires
        m.ready(),
        after.ready(),
        after.made_userdata(m, kind, data, r),
    ensures
        r matches Ok(ud) ==> {
            let index = ud.0.index as int;
            let types = after.extra.registered_userdata;
            &&& !m.refs().contains_key(index)
            &&& after.refs().contains_key(index)
            &&& after.refs()[index] matches Slot::UserData(id)
            &&& after.heap.payloads.contains_key(id)
            &&& after.heap.payloads[id] == data
            &&& types.contains_key(kind)
            &&& after.heap.registry.contains_key(Slot::Integer(types[kind] as i64))
            &&& after.heap.registry[Slot::Integer(types[kind] as i64)] is Table
            &&& after.heap.metatables.contains_key(Slot::UserData(id))
            &&& after.heap.metatables[Slot::UserData(id)] == after.heap.registry[Slot::Integer(
                types[kind] as i64,
            )]
            &&& m.extra.registered_userdata.contains_key(kind) ==> types
                == m.extra.registered_userdata
            &&& after.faults == m.faults
        },
        r matches Err(e) ==> {
            let attempt = after.faults.last().attempt;
            &&& after.refs() == m.refs()
            &&& after.faults.len() == m.faults.len() + 1
            &&& after.faults.last().error == e@
            &&& attempt matches Attempt::PushUserData(pushed) ==> pushed == data
            &&& m.extra.registered_userdata.contains_key(kind) ==> attempt is PushUserData
            &&& !(attempt is PushUserData) ==> after.extra.registered_userdata
                == m.extra.registered_userdata && after.registrations == m.registrations.push(kind)
        },
        after.stack == m.stack,
        after.calls == m.calls,
{
    let (middle, found) = choose|middle: Machine, found: Result<i32, Error>| #[trigger]
        after.made_userdata_via(m, middle, found, kind, data, r);
    if r is Ok {
        let id = found->Ok_0;
        let types = after.extra.registered_userdata;
        assert(types.contains_key(kind));
        assert(after.heap.allotted.contains(types[kind]));
        assert(after.type_table(kind) is Table);
        assert(after.heap.registry == middle.heap.registry);
    } else if !m.extra.registered_userdata.contains_key(kind) && found is Err {
        law_type_gets_its_methods(m, middle, kind, found);
    }
}

/// A type of userdata that was not known gets a place of its own in the registry, with a new metatable,
/// made from a function for each of its metamethods and, if it has methods, a table with a function for
/// each of them, and from nothing else. A type that was known keeps its place, and nothing changes. A step
/// that failed was one for a method of the type, under its name.
pub proof fn law_type_gets_its_methods(
    m: Machine,
    after: Machine,
    kind: u64,
    r: Result<i32, Error>,
)
    requires
        m.ready(),
        after.registered(m, kind, r),
    ensures
        m.extra.registered_userdata.contains_key(kind) ==> after == m && r == Ok::<i32, Error>(
            m.extra.registered_userdata[kind],
        ),
        !m.extra.registered_userdata.contains_key(kind) ==> {
            let methods = (m.laws.methods_of)(kind);
            &&& after.registrations == m.registrations.push(kind)
            &&& match r {
                Ok(id) => {
                    &&& after.extra.registered_userdata == m.extra.registered_userdata.insert(
                        kind,
                        id,
                    )
                    &&& id > 2
                    &&& !m.heap.allotted.contains(id)
                    &&& after.heap.allotted == m.heap.allotted.insert(id)
                    &&& after.heap.registry == m.heap.registry.insert(
                        Slot::Integer(id as i64),
                        Slot::Table(m.heap.next),
                    )
                    &&& exists|meta: Map<Slot, Slot>, members: Option<nat>|
                        {
                            &&& #[trigger] (m.laws.userdata_metatable)(meta, members)
                                == after.heap.tables[m.heap.next]
                            &&& carries_all(after.heap, meta, methods.meta_methods, m.function_key)
                            &&& match members {
                                Some(table) => carries_all(
                                    after.heap,
                                    after.heap.tables[table],
                                    methods.methods,
                                    m.function_key,
                                ),
                                None => forall|name: Seq<u8>|
                                    !#[trigger] methods.methods.contains_key(name),
                            }
                        }
                },
                Err(e) => {
                    &&& after.extra.registered_userdata == m.extra.registered_userdata
                    &&& after.heap.registry == m.heap.registry
                    &&& after.faults.len() == m.faults.len() + 1
                    &&& after.faults.last().error == e@
                    &&& match after.faults.last().attempt {
                        Attempt::PushString(name) => methods.methods.contains_key(name)
                            || methods.meta_methods.contains_key(name),
                        Attempt::PushCallback(callback) => methods.methods.contains_value(callback)
                            || methods.meta_methods.contains_value(callback),
                        Attempt::InitUserdataMetatable(members) => members == (methods.methods
                            != Map::<Seq<u8>, Callback>::empty()),
                        Attempt::Protect(args, body) => body.len() == 1 && match body[0] {
                            Instr::NewTable => args.len() == 0,
                            Instr::PushCClosure(routine) => routine is CallCallback && args.len()
                                == 1 && args[0] is UserData,
                            Instr::RawSet => {
                                &&& args.len() == 3
                                &&& args[0] is Table
                                &&& args[1] is Str
                                &&& methods.methods.contains_key(args[1]->Str_0)
                                    || methods.meta_methods.contains_key(args[1]->Str_0)
                                &&& args[2] is Function
                            },
                            _ => false,
                        },
                        _ => false,
                    }
                },
            }
        },
        after.stack == m.stack,
        after.refs() == m.refs(),
{
    if !m.extra.registered_userdata.contains_key(kind) && r is Ok {
        let methods = (m.laws.methods_of)(kind);
        let (meta, members) = choose|meta: Map<Slot, Slot>, members: Option<nat>| #[trigger]
            after.heap.is_metatable(
                m.heap.next,
                meta,
                members,
                methods,
                after.laws,
                after.function_key,
            );
        assert(after.heap.is_metatable(
            m.heap.next,
            meta,
            members,
            methods,
            after.laws,
            after.function_key,
        ));
        assert(table_get(m.heap.registry, Slot::LightUserData(m.function_key)) is Table);
        assert(after.heap.registry.contains_key(Slot::LightUserData(m.function_key)));
        lemma_carries_all(after.heap, meta, methods.meta_methods, m.function_key);
        if members is Some {
            lemma_carries_all(
                after.heap,
                after.heap.tables[members->0],
                methods.methods,
                m.function_key,
            );
        }
        assert((m.laws.userdata_metatable)(meta, members) == after.heap.tables[m.heap.next]);
    }
}

/// The table has a function that carries it for each of these callbacks, under its name, and nothing
/// else.
pub open spec fn carries_all(
    heap: Heap,
    table: Map<Slot, Slot>,
    callbacks: Map<Seq<u8>, Callback>,
    function_key: usize,
) -> bool {
    &&& forall|name: Seq<u8>| #[trigger]
        callbacks.contains_key(name) ==> table.contains_key(Slot::Str(name)) && carries(
            heap,
            table[Slot::Str(name)],
            callbacks[name],
            function_key,
        )
    &&& forall|key: Slot| #[trigger]
        table.contains_key(key) ==> key is Str && callbacks.contains_key(key->Str_0)
}

/// Functions that run callbacks carry them.
proof fn lemma_carries_all(
    heap: Heap,
    table: Map<Slot, Slot>,
    callbacks: Map<Seq<u8>, Callback>,
    function_key: usize,
)
    requires
        heap.runs_all(table, callbacks, function_key),
        heap.registry.contains_key(Slot::LightUserData(function_key)),
    ensures
        carries_all(heap, table, callbacks, function_key),
{
    assert forall|name: Seq<u8>| #[trigger] callbacks.contains_key(name) implies table.contains_key(
        Slot::Str(name),
    ) && carries(heap, table[Slot::Str(name)], callbacks[name], function_key) by {
        assert(heap.runs(table[Slot::Str(name)], callbacks[name], function_key));
    }
}

/// A table that was made from an iterator has all its items and nothing else: under each key the value
/// of the last item with this key. The keys of a sequence are the positions from 1 on. A new handle points
/// to the table, and no other handle is left.
pub proof fn law_table_has_all_items(
    m: Machine,
    after: Machine,
    numbered: bool,
    r: Result<Table, Error>,
)
    requires
        after.made_table(m, numbered, r),
        r is Ok,
    ensures
        ({
            let table = after.heap.tables[m.heap.next];
            let first = m.items.len() as int;
            let index = (r->Ok_0).0.index as int;
            &&& !m.refs().contains_key(index)
            &&& after.refs()[index] == Slot::Table(m.heap.next)
            &&& after.heap.tables.contains_key(m.heap.next)
            &&& !after.heap.metatables.contains_key(Slot::Table(m.heap.next))
            &&& after.items.len() >= m.items.len()
            &&& forall|i: int| 0 <= i < m.items.len() ==> after.items[i] == m.items[i]
            &&& after.yields == m.yields + after.items.len() - m.items.len()
            &&& after.ends == m.ends + 1
            &&& forall|i: int|
                #![trigger after.items[i]]
                first <= i < after.items.len() && (forall|j: int|
                    i < j < after.items.len() ==> after.laws.key((#[trigger] after.items[j]).0)
                        != after.laws.key(after.items[i].0)) ==> table_get(
                    table,
                    after.laws.key(after.items[i].0),
                ) == after.items[i].1
            &&& forall|key: Slot|
                (forall|j: int|
                    first <= j < after.items.len() ==> after.laws.key((#[trigger] after.items[j]).0)
                        != key) ==> #[trigger] table_get(table, key) is Nil
            &&& forall|i: int|
                first <= i < after.items.len() ==> after.laws.key_allowed(
                    (#[trigger] after.items[i]).0,
                )
            &&& numbered ==> forall|i: int|
                first <= i < after.items.len() && i - first + 1 <= i64::MAX ==> (
                #[trigger] after.items[i]).0 == Slot::Integer((i - first + 1) as i64)
        }),
        after.stack == m.stack,
        after.heap.registry == m.heap.registry,
        after.faults == m.faults,
        after.calls == m.calls,
        after.refs().len() - after.others == m.refs().len() - m.others + 1,
{
    let items = after.read_since(m);
    let first = m.items.len() as int;
    let table = after.heap.tables[m.heap.next];
    assert forall|i: int|
        #![trigger after.items[i]]
        first <= i < after.items.len() && (forall|j: int|
            i < j < after.items.len() ==> after.laws.key((#[trigger] after.items[j]).0)
                != after.laws.key(after.items[i].0)) implies table_get(
        table,
        after.laws.key(after.items[i].0),
    ) == after.items[i].1 by {
        let k = i - first;
        assert(items[k] == after.items[i]);
        assert forall|j: int| k < j < items.len() implies after.laws.key((#[trigger] items[j]).0)
            != after.laws.key(items[k].0) by {
            assert(items[j] == after.items[j + first]);
        }
        law_last_item_wins(after.laws, items, k);
    }
    assert forall|key: Slot|
        (forall|j: int|
            first <= j < after.items.len() ==> after.laws.key((#[trigger] after.items[j]).0)
                != key) implies #[trigger] table_get(table, key) is Nil by {
        assert forall|j: int| 0 <= j < items.len() implies after.laws.key((#[trigger] items[j]).0)
            != key by {
            assert(items[j] == after.items[j + first]);
        }
        law_no_other_items(after.laws, items, key);
    }
    assert forall|i: int| first <= i < after.items.len() implies after.laws.key_allowed(
        (#[trigger] after.items[i]).0,
    ) by {
        assert(items[i - first] == after.items[i]);
    }
    if numbered {
        assert forall|i: int|
            first <= i < after.items.len() && i - first + 1 <= i64::MAX implies (
        #[trigger] after.items[i]).0 == Slot::Integer((i - first + 1) as i64) by {
            assert(items[i - first] == after.items[i]);
        }
    }
}

/// A table that could not be made from an iterator was given up at the first failure: there was no room
/// for it, no table, an item that could not be converted, or one that could not be stored. The iterator
/// was not advanced past this item.
pub proof fn law_table_stops_at_the_first_failure(
    m: Machine,
    after: Machine,
    numbered: bool,
    r: Result<Table, Error>,
)
    requires
        after.made_table(m, numbered, r),
        r is Err,
    ensures
        after.faults.len() == m.faults.len() + 1,
        after.faults.last().error == (r->Err_0)@,
        forall|i: int| 0 <= i < m.faults.len() ==> after.faults[i] == m.faults[i],
        after.ends == m.ends,
        ({
            let read = after.items.len() - m.items.len();
            match after.faults.last().attempt {
                Attempt::CheckStack(room) => {
                    room == 25 && read == 0 && after.yields == m.yields
                },
                Attempt::Protect(args, body) => {
                    ||| {
                        &&& args.len() == 0
                        &&& body.len() == 1
                        &&& body[0] is NewTable
                        &&& read == 0
                        &&& after.yields == m.yields
                    }
                    ||| {
                        &&& args.len() == 3
                        &&& args[0] == Slot::Table(m.heap.next)
                        &&& read > 0
                        &&& args[1] == after.items.last().0
                        &&& args[2] == after.items.last().1
                        &&& body.len() == 1
                        &&& body[0] is RawSet
                        &&& after.yields == m.yields + read
                    }
                },
                Attempt::Position(position) => {
                    &&& numbered
                    &&& read + 1 > i64::MAX
                    &&& position == (read + 1) as u64
                    &&& after.yields == m.yields + read + 1
                },
                Attempt::ItemKey => !numbered && after.yields == m.yields + read + 1,
                Attempt::ItemValue => after.yields == m.yields + read + 1,
                _ => false,
            }
        }),
        after.stack == m.stack,
        after.heap.registry == m.heap.registry,
        after.calls == m.calls,
        after.refs().len() - after.others == m.refs().len() - m.others,
{
    assert(after.faults.last() == after.faults[m.faults.len() as int]);
    let items = after.read_since(m);
    if items.len() > 0 {
        assert(items.last() == after.items.last());
    }
}

/// A new state has the libraries under their names, `debug` only if it was asked for, the `pcall` and
/// `xpcall` that let panics through, the metatable of callbacks, an auxiliary thread of its own, empty
/// stacks with room on them, and nothing else to begin with.
pub proof fn law_what_a_new_state_has(m: Machine, load_debug: bool, list: usize)
    requires
        m.set_up(load_debug, list),
    ensures
        ({
            let globals = m.heap.tables[m.heap.registry[Slot::Integer(2)]->Table_0];
            &&& m.heap.registry.contains_key(Slot::Integer(2))
            &&& m.heap.registry[Slot::Integer(2)] is Table
            &&& table_get(globals, Slot::Str(encode_utf8("_G"@))) is Table
            &&& table_get(globals, Slot::Str(encode_utf8("coroutine"@))) is Table
            &&& table_get(globals, Slot::Str(encode_utf8("table"@))) is Table
            &&& table_get(globals, Slot::Str(encode_utf8("io"@))) is Table
            &&& table_get(globals, Slot::Str(encode_utf8("os"@))) is Table
            &&& table_get(globals, Slot::Str(encode_utf8("string"@))) is Table
            &&& table_get(globals, Slot::Str(encode_utf8("utf8"@))) is Table
            &&& table_get(globals, Slot::Str(encode_utf8("math"@))) is Table
            &&& table_get(globals, Slot::Str(encode_utf8("package"@))) is Table
            &&& load_debug ==> table_get(globals, Slot::Str(encode_utf8("debug"@))) is Table
            &&& !load_debug ==> table_get(globals, Slot::Str(encode_utf8("debug"@))) is Nil
            &&& table_get(globals, Slot::Str(encode_utf8("pcall"@))) == Slot::Native(
                Routine::SafePcall,
            )
            &&& table_get(globals, Slot::Str(encode_utf8("xpcall"@))) == Slot::Native(
                Routine::SafeXpcall,
            )
        }),
        m.heap.libraries.contains(Library::Base),
        m.heap.libraries.contains(Library::Coroutine),
        m.heap.libraries.contains(Library::Table),
        m.heap.libraries.contains(Library::Io),
        m.heap.libraries.contains(Library::Os),
        m.heap.libraries.contains(Library::Str),
        m.heap.libraries.contains(Library::Utf8),
        m.heap.libraries.contains(Library::Math),
        m.heap.libraries.contains(Library::Package),
        m.heap.libraries.contains(Library::Debug) == load_debug,
        m.heap.error_metatables,
        ({
            let place = Slot::LightUserData(m.function_key);
            let metatable = m.heap.tables[m.heap.registry[place]->Table_0];
            &&& m.heap.registry.contains_key(place)
            &&& m.heap.registry[place] is Table
            &&& table_get(metatable, Slot::Str(encode_utf8("__gc"@))) == Slot::Native(
                Routine::DestructCallback,
            )
            &&& table_get(metatable, Slot::Str(encode_utf8("__metatable"@))) == Slot::Boolean(false)
            &&& forall|key: Slot| #[trigger]
                metatable.contains_key(key) ==> key == Slot::Str(encode_utf8("__gc"@)) || key
                    == Slot::Str(encode_utf8("__metatable"@))
        }),
        m.heap.registry[Slot::Integer(m.anchor as i64)] == Slot::Thread(
            m.heap.handles[m.aux_thread],
        ),
        forall|id: i32| #[trigger] m.heap.allotted.contains(id) <==> id == m.anchor,
        m.extra.ref_thread == m.aux_thread,
        m.extra.registry_unref_list == list,
        m.extra.ref_stack_size == 19,
        m.extra.ref_stack_max == 0,
        m.extra.ref_free.len() == 0,
        m.extra.hook_callback is None,
        m.extra.registered_userdata == Map::<u64, i32>::empty(),
        forall|i: int| !#[trigger] m.refs().contains_key(i),
        m.stack.len() == 0,
        m.limit >= 20,
        m.hook is None,
        m.unref.len() == 0,
        m.faults.len() == 0,
        m.calls.len() == 0,
        !m.panicked && !m.leaked && !m.closed && !m.misused && !m.raised && !m.lent,
{
    let libraries = standard_libraries(load_debug);
    assert(libraries[0] == Library::Base && libraries[1] == Library::Coroutine);
    assert(libraries[2] == Library::Table && libraries[3] == Library::Io);
    assert(libraries[4] == Library::Os && libraries[5] == Library::Str);
    assert(libraries[6] == Library::Utf8 && libraries[7] == Library::Math);
    assert(libraries[8] == Library::Package);
    if load_debug {
        assert(libraries[9] == Library::Debug);
    }
    assert(libraries.to_set().contains(Library::Base));
    assert(Library::Base.text() == "_G"@ && Library::Coroutine.text() == "coroutine"@);
    assert(Library::Table.text() == "table"@ && Library::Io.text() == "io"@);
    assert(Library::Os.text() == "os"@ && Library::Str.text() == "string"@);
    assert(Library::Utf8.text() == "utf8"@ && Library::Math.text() == "math"@);
    assert(Library::Package.text() == "package"@ && Library::Debug.text() == "debug"@);
    law_fixed_names("__gc"@);
    reveal_strlit("__gc");
    reveal_strlit("__metatable");
    law_names_are_distinct("__gc"@, "__metatable"@);
    assert(m.heap.allotted.contains(m.anchor));
    assert forall|i: int| !#[trigger] m.refs().contains_key(i) by {
    }
}

} // verus!

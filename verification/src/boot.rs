//! How a Lua state is set up and taken down.
use crate::extra::{ExtraData, ExtraView, LUA_MINSTACK};
use crate::laws::{law_free_slots_when_nothing_is_held, law_names_are_distinct};
use crate::lua::{Identity, Lua, steady};
use crate::machine::{Attempt, Heap, LUA_RIDX_GLOBALS, Machine, Slot, table_get, text_slot};
use crate::protocol::{Instr, Library, Name, Op, Reply, Routine};
use crate::state::State;
use vstd::prelude::*;

verus! {

/// The machine is being set up, and nothing is on its stack.
spec fn bootable(m: Machine) -> bool {
    &&& !m.misused && !m.raised
    &&& m.stack.len() == 0
    &&& m.limit == LUA_MINSTACK
    &&& m.heap.fresh()
    &&& m.heap.globals() is Table
    &&& m.heap.tables.contains_key(m.heap.globals()->Table_0)
    &&& m.heap.handles == Map::<usize, nat>::empty()
}

/// The contents of the table of globals.
pub open spec fn global_table(heap: Heap) -> Map<Slot, Slot> {
    heap.tables[heap.globals()->Table_0]
}

/// The value of the global `debug`.
pub open spec fn debug_global(heap: Heap) -> Slot {
    table_get(global_table(heap), text_slot(Library::Debug.text()))
}

/// Adds a call to a program.
fn append(body: &mut Vec<Instr>, instr: Instr, Ghost(m): Ghost<Machine>)
    ensures
        final(body)@ == old(body)@.push(instr),
        m.run(final(body)@) == m.run(old(body)@).apply(instr),
{
    body.push(instr);
    assert(body@.drop_last() =~= old(body)@);
}

/// Libraries were loaded on the way from one machine to the other, and their modules are on the
/// stack.
spec fn loading(before: Machine, after: Machine, libraries: Seq<Library>) -> bool {
    &&& after == Machine { heap: after.heap, stack: after.stack, ..before }
    &&& after.stack.len() == before.stack.len() + libraries.len()
    &&& before.stack == after.stack.take(before.stack.len() as int)
    &&& after.heap == Heap {
        tables: after.heap.tables,
        libraries: after.heap.libraries,
        next: after.heap.next,
        ..before.heap
    }
    &&& after.heap.libraries == before.heap.libraries + libraries.to_set()
    &&& after.heap.fresh()
    &&& before.heap.next <= after.heap.next
    &&& after.heap.tables.contains_key(after.heap.globals()->Table_0)
    &&& forall|i: int|
        0 <= i < libraries.len() ==> table_get(
            global_table(after.heap),
            text_slot((#[trigger] libraries[i]).text()),
        ) is Table
    &&& forall|library: Library|
        table_get(global_table(before.heap), text_slot(#[trigger] library.text())) is Table
            ==> table_get(global_table(after.heap), text_slot(library.text())) is Table
    &&& !libraries.contains(Library::Debug) ==> debug_global(after.heap) == debug_global(
        before.heap,
    )
}

/// The fixed names differ from each other and from the names of the libraries.
proof fn lemma_names()
    ensures
        text_slot(Name::Gc.text()) != text_slot(Name::Metatable.text()),
        text_slot(Name::Pcall.text()) != text_slot(Name::Xpcall.text()),
        forall|library: Library|
            text_slot(#[trigger] library.text()) != text_slot(Name::Pcall.text()) && text_slot(
                library.text(),
            ) != text_slot(Name::Xpcall.text()),
        forall|library: Library|
            library != Library::Debug ==> text_slot(#[trigger] library.text()) != text_slot(
                Library::Debug.text(),
            ),
{
    reveal_strlit("__gc");
    reveal_strlit("__metatable");
    reveal_strlit("pcall");
    reveal_strlit("xpcall");
    reveal_strlit("_G");
    reveal_strlit("coroutine");
    reveal_strlit("table");
    reveal_strlit("io");
    reveal_strlit("os");
    reveal_strlit("string");
    reveal_strlit("utf8");
    reveal_strlit("math");
    reveal_strlit("package");
    reveal_strlit("debug");
    law_names_are_distinct("__gc"@, "__metatable"@);
    law_names_are_distinct("pcall"@, "xpcall"@);
    assert forall|library: Library|
        text_slot(#[trigger] library.text()) != text_slot(Name::Pcall.text()) && text_slot(
            library.text(),
        ) != text_slot(Name::Xpcall.text()) by {
        assert("table"@[0] != "pcall"@[0]);
        assert("debug"@[0] != "pcall"@[0]);
        assert("string"@[0] != "xpcall"@[0]);
        law_names_are_distinct(library.text(), "pcall"@);
        law_names_are_distinct(library.text(), "xpcall"@);
    }
    assert forall|library: Library| library != Library::Debug implies text_slot(
        #[trigger] library.text(),
    ) != text_slot(Library::Debug.text()) by {
        assert("table"@[0] != "debug"@[0]);
        law_names_are_distinct(library.text(), "debug"@);
    }
}

/// One library more was loaded.
proof fn lemma_loading_more(
    before: Machine,
    cur: Machine,
    libraries: Seq<Library>,
    library: Library,
)
    requires
        bootable(before),
        loading(before, cur, libraries),
        cur.stack.len() < cur.limit,
    ensures
        loading(before, cur.apply(Instr::Require(library)), libraries.push(library)),
{
    let post = cur.apply(Instr::Require(library));
    let more = libraries.push(library);
    lemma_names();
    assert(more.to_set() =~= libraries.to_set().insert(library)) by {
        assert forall|l: Library| more.contains(l) == (libraries.contains(l) || l == library) by {
            if libraries.contains(l) {
                let i = choose|i: int| 0 <= i < libraries.len() && libraries[i] == l;
                assert(more[i] == l);
            }
            assert(more[libraries.len() as int] == library);
        }
    }
    assert(post.heap.libraries =~= before.heap.libraries + more.to_set());
    assert(post.stack.take(before.stack.len() as int) =~= cur.stack.take(
        before.stack.len() as int,
    ));
    assert forall|i: int| 0 <= i < more.len() implies table_get(
        global_table(post.heap),
        text_slot((#[trigger] more[i]).text()),
    ) is Table by {
        if i < libraries.len() {
            assert(more[i] == libraries[i]);
        }
    }
    assert forall|known: Library|
        table_get(
            global_table(before.heap),
            text_slot(#[trigger] known.text()),
        ) is Table implies table_get(
        global_table(post.heap),
        text_slot(known.text()),
    ) is Table by {
        assert(table_get(global_table(cur.heap), text_slot(known.text())) is Table);
    }
    if !more.contains(Library::Debug) {
        assert(more[libraries.len() as int] == library);
        if libraries.contains(Library::Debug) {
            let i = choose|i: int| 0 <= i < libraries.len() && libraries[i] == Library::Debug;
            assert(more[i] == Library::Debug);
        }
    }
}

/// The libraries that a new state has.
pub open spec fn standard_libraries(load_debug: bool) -> Seq<Library> {
    let safe = seq![
        Library::Base,
        Library::Coroutine,
        Library::Table,
        Library::Io,
        Library::Os,
        Library::Str,
        Library::Utf8,
        Library::Math,
        Library::Package,
    ];
    if load_debug {
        safe.push(Library::Debug)
    } else {
        safe
    }
}

/// Libraries were loaded on the way from one machine to the other.
spec fn loaded(before: Machine, after: Machine, libraries: Seq<Library>) -> bool {
    &&& bootable(after)
    &&& after == Machine { heap: after.heap, ..before }
    &&& after.heap == Heap {
        tables: after.heap.tables,
        libraries: before.heap.libraries + libraries.to_set(),
        next: after.heap.next,
        ..before.heap
    }
    &&& forall|i: int|
        0 <= i < libraries.len() ==> table_get(
            global_table(after.heap),
            text_slot((#[trigger] libraries[i]).text()),
        ) is Table
    &&& forall|library: Library|
        table_get(global_table(before.heap), text_slot(#[trigger] library.text())) is Table
            ==> table_get(global_table(after.heap), text_slot(library.text())) is Table
    &&& !libraries.contains(Library::Debug) ==> debug_global(after.heap) == debug_global(
        before.heap,
    )
}

/// Adds the calls that load libraries, and clear the stack of their modules.
fn append_libraries(body: &mut Vec<Instr>, libraries: &Vec<Library>, Ghost(m): Ghost<Machine>)
    requires
        bootable(m.run(old(body)@)),
        libraries@.len() < LUA_MINSTACK,
    ensures
        loaded(m.run(old(body)@), m.run(final(body)@), libraries@),
{
    let ghost before = m.run(body@);
    let mut i: usize = 0;
    proof {
        assert(before.heap.libraries + libraries@.take(0).to_set() =~= before.heap.libraries);
        assert(before.stack.take(0) =~= before.stack);
    }
    while i < libraries.len()
        invariant
            i <= libraries.len(),
            libraries@.len() < LUA_MINSTACK,
            before == m.run(old(body)@),
            bootable(before),
            loading(before, m.run(body@), libraries@.take(i as int)),
        decreases libraries.len() - i,
    {
        proof {
            lemma_loading_more(
                before,
                m.run(body@),
                libraries@.take(i as int),
                libraries@[i as int],
            );
            assert(libraries@.take(i as int).push(libraries@[i as int]) =~= libraries@.take(i + 1));
        }
        append(body, Instr::Require(libraries[i]), Ghost(m));
        i += 1;
    }
    let ghost full = m.run(body@);
    append(body, Instr::Pop(libraries.len() as i32), Ghost(m));
    proof {
        assert(libraries@.take(i as int) =~= libraries@);
        assert(m.run(body@).stack =~= before.stack);
    }
}

/// The metatable of callbacks: it drops a callback that is collected, and hides itself.
pub open spec fn callback_metatable() -> Map<Slot, Slot> {
    Map::empty().insert(
        text_slot(Name::Gc.text()),
        Slot::Native(Routine::DestructCallback),
    ).insert(text_slot(Name::Metatable.text()), Slot::Boolean(false))
}

/// Adds the calls that make the metatable of callbacks and place it in the registry.
fn append_callback_metatable(body: &mut Vec<Instr>, function_key: usize, Ghost(m): Ghost<Machine>)
    requires
        bootable(m.run(old(body)@)),
    ensures
        bootable(m.run(final(body)@)),
        ({
            let before = m.run(old(body)@);
            m.run(final(body)@) == Machine {
                heap: before.heap.with_table(callback_metatable()).with_registry(
                    Slot::LightUserData(function_key),
                    Slot::Table(before.heap.next),
                ),
                ..before
            }
        }),
{
    let ghost before = m.run(body@);
    let ghost id = before.heap.next;
    append(body, Instr::PushLightUserData(function_key), Ghost(m));
    append(body, Instr::NewTable, Ghost(m));
    let ghost made = m.run(body@);
    append(body, Instr::PushName(Name::Gc), Ghost(m));
    append(body, Instr::PushCFunction(Routine::DestructCallback), Ghost(m));
    append(body, Instr::RawSet, Ghost(m));
    let ghost first = m.run(body@);
    assert(first.stack =~= made.stack);
    append(body, Instr::PushName(Name::Metatable), Ghost(m));
    append(body, Instr::PushBoolean(false), Ghost(m));
    append(body, Instr::RawSet, Ghost(m));
    let ghost second = m.run(body@);
    assert(second.stack =~= made.stack);
    append(body, Instr::RawSetRegistry, Ghost(m));
    proof {
        let after = m.run(body@);
        assert(after.stack =~= before.stack);
        assert(after.heap.tables =~= before.heap.tables.insert(id, callback_metatable()));
    }
}

/// Adds the calls that override `pcall` and `xpcall` with versions that cannot be used to catch
/// Rust panics.
fn append_overrides(body: &mut Vec<Instr>, Ghost(m): Ghost<Machine>)
    requires
        bootable(m.run(old(body)@)),
    ensures
        bootable(m.run(final(body)@)),
        ({
            let before = m.run(old(body)@);
            m.run(final(body)@) == Machine { heap: overridden(before.heap), ..before }
        }),
{
    let ghost before = m.run(body@);
    let ghost id = before.heap.globals()->Table_0;
    append(body, Instr::RawGetI(LUA_RIDX_GLOBALS), Ghost(m));
    let ghost pushed = m.run(body@);
    append(body, Instr::PushName(Name::Pcall), Ghost(m));
    append(body, Instr::PushCFunction(Routine::SafePcall), Ghost(m));
    append(body, Instr::RawSet, Ghost(m));
    let ghost first = m.run(body@);
    assert(first.stack =~= pushed.stack);
    append(body, Instr::PushName(Name::Xpcall), Ghost(m));
    append(body, Instr::PushCFunction(Routine::SafeXpcall), Ghost(m));
    append(body, Instr::RawSet, Ghost(m));
    let ghost second = m.run(body@);
    assert(second.stack =~= pushed.stack);
    append(body, Instr::Pop(1), Ghost(m));
    proof {
        let after = m.run(body@);
        assert(after.stack =~= before.stack);
        assert(after.heap.tables =~= before.heap.tables.insert(id, global_table(after.heap)));
    }
}

/// Adds the calls that make the auxiliary thread and keep it from being collected.
fn append_thread(body: &mut Vec<Instr>, Ghost(m): Ghost<Machine>)
    requires
        bootable(m.run(old(body)@)),
        m.run(old(body)@).heap.allotted == Set::<i32>::empty(),
    ensures
        bootable(m.run(final(body)@)),
        ({
            let before = m.run(old(body)@);
            let after = m.run(final(body)@);
            let heap = before.heap.with_thread();
            exists|id: i32|
                {
                    &&& #[trigger] heap.allottable(id)
                    &&& after == Machine {
                        heap: heap.allot(id, Slot::Thread(before.heap.next)),
                        ..before
                    }
                }
        }),
{
    let ghost before = m.run(body@);
    append(body, Instr::NewThread, Ghost(m));
    let ghost made = m.run(body@);
    append(body, Instr::Ref, Ghost(m));
    proof {
        let after = m.run(body@);
        assert(made.heap.allottable(3));
        let id = choose|id: i32| made.heap.allottable(id);
        assert(after.stack =~= before.stack);
        assert(before.heap.with_thread().allottable(id));
    }
}

impl Heap {
    /// What a new state holds: the libraries, of which `debug` is there only if it is asked for, the
    /// metatables of errors, the metatable of callbacks under the key of the library, a `pcall` and
    /// an `xpcall` that cannot be used to catch Rust panics, and in a place of its own in the
    /// registry this thread. No one has set a name in the registry.
    pub open spec fn set_up(self, load_debug: bool, function_key: usize, thread: nat) -> bool {
        let libraries = standard_libraries(load_debug);
        let metatable = table_get(self.registry, Slot::LightUserData(function_key));
        &&& self.libraries == libraries.to_set()
        &&& self.error_metatables
        &&& self.globals() is Table
        &&& forall|i: int|
            0 <= i < libraries.len() ==> table_get(
                global_table(self),
                text_slot((#[trigger] libraries[i]).text()),
            ) is Table
        &&& !load_debug ==> debug_global(self) is Nil
        &&& table_get(global_table(self), text_slot(Name::Pcall.text())) == Slot::Native(
            Routine::SafePcall,
        )
        &&& table_get(global_table(self), text_slot(Name::Xpcall.text())) == Slot::Native(
            Routine::SafeXpcall,
        )
        &&& metatable is Table
        &&& self.tables[metatable->Table_0] == callback_metatable()
        &&& forall|text: Seq<u8>| !#[trigger] self.registry.contains_key(Slot::Str(text))
        &&& exists|id: i32|
            {
                &&& #[trigger] self.allotted.contains(id)
                &&& self.allotted == Set::<i32>::empty().insert(id)
                &&& table_get(self.registry, Slot::Integer(id as i64)) == Slot::Thread(thread)
            }
    }
}

impl Machine {
    /// The machine has just been set up: the registry keeps the auxiliary thread, and nothing under
    /// names but what Lua's libraries keep there; the stacks are empty and there is room on them,
    /// nothing holds a reference, no place of the registry is to be cleared, there is no hook, and no
    /// call has failed.
    pub open spec fn set_up(self, load_debug: bool, unref_list: usize) -> bool {
        &&& self.heap.handles.contains_key(self.aux_thread)
        &&& self.heap.set_up(
            load_debug,
            self.function_key,
            self.heap.handles[self.aux_thread],
        )
        &&& self.stack.len() == 0
        &&& self.limit >= LUA_MINSTACK
        &&& forall|text: Seq<u8>|
            !(self.laws.own_name)(text) ==> #[trigger] self.registry_at(Slot::Str(text)) is Nil
        &&& self.unref.len() == 0
        &&& self.aux.len() == 0
        &&& self.extra == ExtraView::fresh(self.aux_thread, unref_list)
        &&& self.refs() == Map::<int, Slot>::empty()
        &&& self.hook is None
        &&& self.faults.len() == 0
        &&& self.calls.len() == 0
        &&& !self.leaked
        &&& self.ready()
    }
}

impl Machine {
    /// The machine could not be set up, and the library has panicked: the calls failed that would
    /// have made of a new machine what it holds when it is set up.
    pub open spec fn not_set_up(self, load_debug: bool) -> bool {
        let newborn = Machine::newborn(self.main_state, self.function_key, self.laws);
        &&& self.panicked
        &&& self.faults.len() == 1
        &&& self.faults[0].attempt matches Attempt::Boot(body)
        &&& {
            let heap = newborn.run(body).heap;
            heap.set_up(load_debug, self.function_key, heap.last_thread)
        }
    }
}

/// What the calls that set up a state make of a new machine.
spec fn programmed(m: Machine, after: Machine, load_debug: bool, function_key: usize) -> bool {
    &&& bootable(after)
    &&& after == Machine { heap: after.heap, ..m }
    &&& after.heap.set_up(load_debug, function_key, after.heap.last_thread)
    &&& after.heap.threads.contains_key(after.heap.last_thread)
    &&& after.heap.wf(function_key)
}

/// The libraries are there, and the metatables of errors.
spec fn stocked(m: Machine, after: Machine, load_debug: bool) -> bool {
    let libraries = standard_libraries(load_debug);
    &&& bootable(after)
    &&& after == Machine { heap: after.heap, ..m }
    &&& after.heap == Heap {
        tables: after.heap.tables,
        libraries: libraries.to_set(),
        error_metatables: true,
        next: after.heap.next,
        ..m.heap
    }
    &&& forall|i: int|
        0 <= i < libraries.len() ==> table_get(
            global_table(after.heap),
            text_slot((#[trigger] libraries[i]).text()),
        ) is Table
    &&& !load_debug ==> debug_global(after.heap) is Nil
}

/// Adds the calls that load the libraries and register the metatables of errors.
fn append_stock(body: &mut Vec<Instr>, load_debug: bool, Ghost(m): Ghost<Machine>)
    requires
        old(body)@.len() == 0,
        m == Machine::newborn(m.main_state, m.function_key, m.laws),
    ensures
        stocked(m, m.run(final(body)@), load_debug),
{
    assert(m.run(body@) == m);
    // Do not open the debug library, it can be used to cause unsafety.
    let libraries: Vec<Library> = vec![
        Library::Base,
        Library::Coroutine,
        Library::Table,
        Library::Io,
        Library::Os,
        Library::Str,
        Library::Utf8,
        Library::Math,
        Library::Package,
    ];
    assert(libraries@ =~= standard_libraries(false));
    append_libraries(body, &libraries, Ghost(m));
    append(body, Instr::InitErrorMetatables, Ghost(m));
    let ghost prepared = m.run(body@);
    assert(prepared.heap.libraries =~= standard_libraries(false).to_set());
    if load_debug {
        let debug: Vec<Library> = vec![Library::Debug];
        append_libraries(body, &debug, Ghost(m));
        proof {
            let after = m.run(body@);
            assert(debug@ =~= seq![Library::Debug]);
            lemma_debug(prepared, after, debug@);
            let all = standard_libraries(true);
            assert forall|i: int| 0 <= i < all.len() implies table_get(
                global_table(after.heap),
                text_slot((#[trigger] all[i]).text()),
            ) is Table by {
                if i < 9 {
                    assert(all[i] == libraries@[i]);
                    assert(table_get(
                        global_table(prepared.heap),
                        text_slot(libraries@[i].text()),
                    ) is Table);
                }
            }
        }
    }
}

/// The calls that set up a state.
fn program(load_debug: bool, function_key: usize, Ghost(m): Ghost<Machine>) -> (body: Vec<Instr>)
    requires
        m == Machine::newborn(m.main_state, function_key, m.laws),
    ensures
        programmed(m, m.run(body@), load_debug, function_key),
{
    let mut body: Vec<Instr> = Vec::new();
    append_stock(&mut body, load_debug, Ghost(m));
    let ghost before = m.run(body@);
    append_callback_metatable(&mut body, function_key, Ghost(m));
    let ghost keyed = m.run(body@);
    append_overrides(&mut body, Ghost(m));
    let ghost safe = m.run(body@);
    append_thread(&mut body, Ghost(m));
    proof {
        assert(safe.heap == overridden(keyed.heap));
        assert(safe.heap.next == keyed.heap.next);
        lemma_programmed(m, before, m.run(body@), load_debug, function_key);
    }
    body
}

/// The debug library comes after the others.
proof fn lemma_debug(before: Machine, after: Machine, debug: Seq<Library>)
    requires
        loaded(before, after, debug),
        debug == seq![Library::Debug],
        before.heap.libraries == standard_libraries(false).to_set(),
    ensures
        after.heap.libraries == standard_libraries(true).to_set(),
        table_get(global_table(after.heap), text_slot(Library::Debug.text())) is Table,
{
    assert(debug[0] == Library::Debug);
    let safe = standard_libraries(false);
    let all = standard_libraries(true);
    assert forall|l: Library| all.contains(l) == (safe.contains(l) || debug.contains(l)) by {
        if safe.contains(l) {
            let i = choose|i: int| 0 <= i < safe.len() && safe[i] == l;
            assert(all[i] == l);
        }
        assert(all[9] == Library::Debug);
    }
    assert(after.heap.libraries =~= all.to_set());
}

/// The table of globals after `pcall` and `xpcall` were overridden.
spec fn overridden(heap: Heap) -> Heap {
    heap.with_contents(
        heap.globals()->Table_0,
        global_table(heap).insert(
            text_slot(Name::Pcall.text()),
            Slot::Native(Routine::SafePcall),
        ).insert(text_slot(Name::Xpcall.text()), Slot::Native(Routine::SafeXpcall)),
    )
}

/// The last three sections of the program lead to a state that is set up.
proof fn lemma_programmed(
    m: Machine,
    before: Machine,
    after: Machine,
    load_debug: bool,
    function_key: usize,
)
    requires
        m == Machine::newborn(m.main_state, function_key, m.laws),
        stocked(m, before, load_debug),
        bootable(after),
        ({
            let keyed = before.heap.with_table(callback_metatable()).with_registry(
                Slot::LightUserData(function_key),
                Slot::Table(before.heap.next),
            );
            let heap = overridden(keyed).with_thread();
            exists|id: i32|
                {
                    &&& #[trigger] heap.allottable(id)
                    &&& after == Machine {
                        heap: heap.allot(id, Slot::Thread(keyed.next)),
                        ..before
                    }
                }
        }),
    ensures
        programmed(m, after, load_debug, function_key),
{
    lemma_names();
    let stock = before.heap;
    let globals = stock.globals()->Table_0;
    let keyed = stock.with_table(callback_metatable()).with_registry(
        Slot::LightUserData(function_key),
        Slot::Table(stock.next),
    );
    let heap = overridden(keyed).with_thread();
    let id = choose|id: i32|
        {
            &&& #[trigger] heap.allottable(id)
            &&& after == Machine {
                heap: heap.allot(id, Slot::Thread(keyed.next)),
                ..before
            }
        };
    assert(globals == 1);
    assert(stock.tables.contains_key(1));
    assert(keyed.globals() == stock.globals());
    assert(after.heap.globals() == stock.globals());
    assert(global_table(keyed) == global_table(stock));
    let libraries = standard_libraries(load_debug);
    assert forall|i: int| 0 <= i < libraries.len() implies table_get(
        global_table(after.heap),
        text_slot((#[trigger] libraries[i]).text()),
    ) is Table by {
        assert(table_get(global_table(stock), text_slot(libraries[i].text())) is Table);
    }
    assert(after.heap.allotted =~= Set::<i32>::empty().insert(id));
    assert(after.heap.allotted.contains(id));
    assert(table_get(after.heap.registry, Slot::Integer(id as i64)) == Slot::Thread(
        after.heap.last_thread,
    ));
    assert(after.heap.tables[stock.next] == callback_metatable());
    assert(after.heap.set_up(load_debug, function_key, after.heap.last_thread));
    assert(after.heap.wf(function_key));
}

/// Sets up the new state that a driver leads to.
fn create_lua<F: Fn(Op) -> Reply>(
    driver: F,
    main_state: usize,
    function_key: usize,
    unref_list: usize,
    load_debug: bool,
) -> (r: Lua<F>)
    requires
        forall|op: Op| call_requires(driver, (op,)),
    ensures
        r.inv(),
        r.identity() == (Identity { main_state, function_key, ephemeral: false }),
        r.driver() == driver,
        r.good() ==> r.machine().set_up(load_debug, unref_list),
        r.spent() ==> r.machine().not_set_up(load_debug),
{
    let mut state = State::newborn(driver, main_state, function_key);
    let ghost m = state.machine();
    let body = program(load_debug, function_key, Ghost(m));
    let ref_thread = match state.boot(body) {
        Err(_) => {
            state.panic("Error during Lua construction");
            0
        },
        Ok(ref_thread) => ref_thread,
    };
    let ghost booted = state.machine();
    if state.lua_gettop() != 0 {
        state.debug_panic("stack leak during creation");
    }
    state.assert_stack(LUA_MINSTACK as usize);
    state.set_extra_data(ExtraData::new(ref_thread, unref_list));
    let r = Lua { state, main_state, function_key, ephemeral: false };
    proof {
        if r.good() {
            let post = r.machine();
            let program = m.run(body@);
            assert(programmed(m, program, load_debug, function_key));
            lemma_booted(program, post, load_debug, function_key);
            assert(post.refs() =~= Map::<int, Slot>::empty());
        }
    }
    r
}

/// A state that has been booted holds what its program has set up, and its auxiliary thread is in
/// its place.
proof fn lemma_booted(program: Machine, post: Machine, load_debug: bool, function_key: usize)
    requires
        program.heap.set_up(load_debug, function_key, program.heap.last_thread),
        program.heap.wf(function_key),
        program.heap.handles == Map::<usize, nat>::empty(),
        program.heap.threads.contains_key(program.heap.last_thread),
        exists|handle: usize| {
            let booted = #[trigger] program.booted(handle);
            &&& post.heap == booted.heap
            &&& post.anchor == booted.anchor
            &&& post.aux_thread == handle
        },
    ensures
        post.heap.wf(function_key),
        post.heap.set_up(load_debug, function_key, post.heap.handles[post.aux_thread]),
        post.anchored(),
{
    let id = choose|id: i32| #[trigger]
        program.heap.allotted.contains(id) && program.heap.allotted
            == Set::<i32>::empty().insert(id) && table_get(
            program.heap.registry,
            Slot::Integer(id as i64),
        ) == Slot::Thread(program.heap.last_thread);
    assert(program.heap.allotted.contains(id));
    assert(program.heap.registry.contains_key(Slot::Integer(id as i64)));
    assert(post.heap.allotted.contains(id));
    assert(post.heap.globals() == program.heap.globals());
    assert(global_table(post.heap) == global_table(program.heap));
}

impl<F: Fn(Op) -> Reply> Lua<F> {
    /// Creates a new Lua state, to which the driver leads, and loads the standard library without the
    /// `debug` library.
    pub fn new(driver: F, main_state: usize, function_key: usize, unref_list: usize) -> (r: Self)
        requires
            forall|op: Op| call_requires(driver, (op,)),
        ensures
            r.inv(),
            r.identity() == (Identity { main_state, function_key, ephemeral: false }),
            r.driver() == driver,
            r.good() ==> r.machine().set_up(false, unref_list),
            r.spent() ==> r.machine().not_set_up(false),
    {
        create_lua(driver, main_state, function_key, unref_list, false)
    }

    /// Creates a new Lua state, to which the driver leads, and loads the standard library including
    /// the `debug` library.
    ///
    /// The debug library is very unsound, loading it and using it breaks all the guarantees of this
    /// library.
    pub fn new_with_debug(
        driver: F,
        main_state: usize,
        function_key: usize,
        unref_list: usize,
    ) -> (r: Self)
        requires
            forall|op: Op| call_requires(driver, (op,)),
        ensures
            r.inv(),
            r.identity() == (Identity { main_state, function_key, ephemeral: false }),
            r.driver() == driver,
            r.good() ==> r.machine().set_up(true, unref_list),
            r.spent() ==> r.machine().not_set_up(true),
    {
        create_lua(driver, main_state, function_key, unref_list, true)
    }

    /// A handle to a state that is already in use, which does not close the state. Callbacks get
    /// such handles. Which machine at rest the state is, is not known, but it has as much room on its
    /// stack as Lua offers to every function that it calls. To go on from another handle, see
    /// `share`.
    pub fn attach(driver: F, main_state: usize, function_key: usize) -> (r: Self)
        requires
            forall|op: Op| call_requires(driver, (op,)),
        ensures
            r.inv(),
            r.good(),
            r.driver() == driver,
            r.machine().stack.len() + LUA_MINSTACK <= r.machine().limit,
            r.roomy(LUA_MINSTACK as int),
            r.identity() == (Identity { main_state, function_key, ephemeral: true }),
    {
        let state = State::resume(driver, main_state, function_key);
        Lua { state, main_state, function_key, ephemeral: true }
    }

    /// Another handle to this state, through another driver to it, which does not close the state. It
    /// finds the state as this one leaves it.
    pub fn share<G: Fn(Op) -> Reply>(&self, driver: G) -> (r: Lua<G>)
        requires
            self.inv(),
            forall|op: Op| call_requires(driver, (op,)),
        ensures
            r.inv(),
            r.driver() == driver,
            r.good() == self.good(),
            r.spent() == self.spent(),
            r.machine() == self.machine(),
            r.identity() == (Identity { ephemeral: true, ..self.identity() }),
    {
        Lua {
            state: self.state.share(driver),
            main_state: self.main_state,
            function_key: self.function_key,
            ephemeral: true,
        }
    }

    /// The main state that the handle leads to.
    pub fn main_state(&self) -> (r: usize)
        ensures
            r == self.identity().main_state,
    {
        self.main_state
    }

    /// Closes the state, unless the handle was only attached to it. Where debug assertions are
    /// checked, references that are still held are reported.
    pub fn drop(&mut self)
        requires
            old(self).inv(),
        ensures
            final(self).identity() == old(self).identity(),
            steady(*old(self), *final(self)),
            old(self).identity().ephemeral ==> *final(self) == *old(self),
            !old(self).identity().ephemeral && final(self).good() ==> {
                let m = old(self).machine();
                &&& old(self).good()
                &&& final(self).machine() == Machine {
                    leaked: m.leaked || m.refs() != Map::<int, Slot>::empty(),
                    unref_open: false,
                    unref: Seq::empty(),
                    lent: true,
                    closed: true,
                    ..m
                }
            },
    {
        if !self.ephemeral {
            let ghost m = self.machine();
            let extra = self.state.extra_data();
            let height = self.state.aux_gettop(extra.ref_thread);
            let intact = height == extra.ref_stack_max && extra.ref_stack_max as usize
                == extra.ref_free.len();
            if !intact {
                self.state.debug_panic("reference leak detected");
            }
            self.state.close_unref_list();
            self.state.lua_close();
            proof {
                if self.good() {
                    law_free_slots_when_nothing_is_held(m);
                }
            }
        }
    }
}

} // verus!

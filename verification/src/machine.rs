//! A model of the Lua machine: what each call through the driver does to the stacks, the registry
//! and the objects of Lua, as far as this library depends on it.
//!
//! The model is a mathematical value and nothing runs it. It says what the calls mean, so that the
//! contracts of the library can say what a sequence of calls achieves. Nothing is assumed of the
//! driver: the contracts speak of the case in which it answers as the model does.
use crate::extra::{ExtraView, LUAI_MAXSTACK, LUA_MINSTACK};
use crate::protocol::{Instr, Library, Name, Routine};
use crate::userdata::MethodsView;
use crate::value::{Callback, ErrorView, LuaRef, RegistryKey, Value};
use vstd::prelude::*;
use vstd::utf8::encode_utf8;

verus! {

/// What `lua_type` answers where there is no value.
pub const LUA_TNONE: i32 = -1;

/// What `lua_type` answers for nil.
pub const LUA_TNIL: i32 = 0;

/// What `lua_type` answers for a boolean.
pub const LUA_TBOOLEAN: i32 = 1;

/// What `lua_type` answers for a light userdata.
pub const LUA_TLIGHTUSERDATA: i32 = 2;

/// What `lua_type` answers for a number.
pub const LUA_TNUMBER: i32 = 3;

/// What `lua_type` answers for a string.
pub const LUA_TSTRING: i32 = 4;

/// What `lua_type` answers for a table.
pub const LUA_TTABLE: i32 = 5;

/// What `lua_type` answers for a function.
pub const LUA_TFUNCTION: i32 = 6;

/// What `lua_type` answers for a userdata.
pub const LUA_TUSERDATA: i32 = 7;

/// What `lua_type` answers for a thread.
pub const LUA_TTHREAD: i32 = 8;

/// The status of a call that went well.
pub const LUA_OK: i32 = 0;

/// The status of a chunk that does not compile.
pub const LUA_ERRSYNTAX: i32 = 3;

/// The place of the table of globals in the registry.
pub const LUA_RIDX_GLOBALS: i64 = 2;

/// What `luaL_ref` answers for nil.
pub const LUA_REFNIL: i32 = -1;

/// A value as Lua holds it. Strings and numbers are known by what they are, objects by identity.
pub enum Slot {
    Nil,
    Boolean(bool),
    LightUserData(usize),
    Integer(i64),
    Number(u64),
    Str(Seq<u8>),
    Table(nat),
    Function(nat),
    Native(Routine),
    Thread(nat),
    UserData(nat),
    WrappedError(ErrorView),
    /// What is left on the stack by a chunk that could not be loaded, with this status.
    Raised(Chunk, i32),
}

/// The slot that holds this text.
pub open spec fn text_slot(text: Seq<char>) -> Slot {
    Slot::Str(encode_utf8(text))
}

impl Slot {
    /// What `lua_type` answers.
    pub open spec fn tag(self) -> i32 {
        match self {
            Slot::Nil => LUA_TNIL,
            Slot::Boolean(_) => LUA_TBOOLEAN,
            Slot::LightUserData(_) => LUA_TLIGHTUSERDATA,
            Slot::Integer(_) => LUA_TNUMBER,
            Slot::Number(_) => LUA_TNUMBER,
            Slot::Str(_) => LUA_TSTRING,
            Slot::Table(_) => LUA_TTABLE,
            Slot::Function(_) => LUA_TFUNCTION,
            Slot::Native(_) => LUA_TFUNCTION,
            Slot::Thread(_) => LUA_TTHREAD,
            Slot::UserData(_) => LUA_TUSERDATA,
            Slot::WrappedError(_) => LUA_TUSERDATA,
            Slot::Raised(_, _) => LUA_TSTRING,
        }
    }
}

/// A handle of the kind of this value may point to this slot.
pub open spec fn kind_fits(value: Value, slot: Slot) -> bool {
    match value {
        Value::String(_) => slot.tag() == LUA_TSTRING,
        Value::Table(_) => slot is Table,
        Value::Function(_) => slot.tag() == LUA_TFUNCTION,
        Value::Thread(_) => slot is Thread,
        Value::UserData(_) => slot is UserData,
        _ => true,
    }
}

/// What a table holds under a key.
pub open spec fn table_get(table: Map<Slot, Slot>, key: Slot) -> Slot {
    if table.contains_key(key) {
        table[key]
    } else {
        Slot::Nil
    }
}

/// A table after a value was stored under a key. To store nil is to remove.
pub open spec fn table_put(table: Map<Slot, Slot>, key: Slot, value: Slot) -> Map<Slot, Slot> {
    if value is Nil {
        table.remove(key)
    } else {
        table.insert(key, value)
    }
}

/// The floating point number of these bits is zero or negative zero.
pub open spec fn is_zero(bits: u64) -> bool {
    bits == 0 || bits == 0x8000000000000000
}

/// Two floating point numbers, none of which is no number, are the same: their bits are the same, or
/// they are zero and negative zero.
pub open spec fn same_number(bits: u64, other: u64) -> bool {
    bits == other || is_zero(bits) && is_zero(other)
}

/// What Lua computes from numbers and texts, which sources it compiles, and what the types of
/// userdata register: the model does not say how.
pub struct Laws {
    /// The integer that a floating point number is equal to.
    pub integral: spec_fn(u64) -> Option<i64>,
    /// The floating point numbers that are no number.
    pub not_a_number: spec_fn(u64) -> bool,
    /// The floating point number that an integer becomes.
    pub widened: spec_fn(i64) -> u64,
    /// The text of an integer.
    pub integer_text: spec_fn(i64) -> Seq<u8>,
    /// The text of a floating point number.
    pub number_text: spec_fn(u64) -> Seq<u8>,
    /// The integer that a text denotes.
    pub text_integer: spec_fn(Seq<u8>) -> Option<i64>,
    /// The floating point number that a text denotes.
    pub text_number: spec_fn(Seq<u8>) -> Option<u64>,
    /// What a numbered place of the registry reads as that is not given out. `luaL_ref` and
    /// `luaL_unref` keep their own accounts there.
    pub free_place: spec_fn(Seq<(i32, bool)>, i64) -> Slot,
    /// The name is one under which Lua's libraries keep something in the registry.
    pub own_name: spec_fn(Seq<u8>) -> bool,
    /// What such a name reads as that no one else has set, depending on the code that ran.
    pub own_entry: spec_fn(Seq<Set<Slot>>, Seq<u8>) -> Slot,
    /// The source is that of a chunk of Lua code.
    pub compiles: spec_fn(Seq<u8>) -> bool,
    /// The methods that a type of userdata registers.
    pub methods_of: spec_fn(u64) -> MethodsView,
    /// The metatable of a userdata type, made from its metamethods and the table of its members.
    pub userdata_metatable: spec_fn(Map<Slot, Slot>, Option<nat>) -> Map<Slot, Slot>,
}

impl Laws {
    /// What Lua promises of numbers and texts. The text of an integer denotes this integer. A floating
    /// point number that is equal to an integer is the number that the integer becomes. A text that
    /// denotes an integer denotes a floating point number too, the one that the integer becomes.
    pub open spec fn sound(self) -> bool {
        &&& forall|i: i64| (self.text_integer)(#[trigger] (self.integer_text)(i)) == Some(i)
        &&& forall|bits: u64|
            (#[trigger] (self.integral)(bits)) is Some ==> same_number(
                bits,
                (self.widened)((self.integral)(bits)->0),
            )
        &&& forall|text: Seq<u8>|
            (#[trigger] (self.text_integer)(text)) is Some ==> {
                &&& (self.text_number)(text) matches Some(bits)
                &&& same_number(bits, (self.widened)((self.text_integer)(text)->0))
            }
    }

    /// The key under which a table stores what is stored under this slot.
    pub open spec fn key(self, slot: Slot) -> Slot {
        match slot {
            Slot::Number(bits) => match (self.integral)(bits) {
                Some(i) => Slot::Integer(i),
                None => slot,
            },
            _ => slot,
        }
    }

    /// Nothing can be stored under nil, nor under what is no number.
    pub open spec fn key_allowed(self, slot: Slot) -> bool {
        match slot {
            Slot::Nil => false,
            Slot::Number(bits) => !(self.not_a_number)(bits),
            _ => true,
        }
    }

    /// The integer that a value can be taken for: an integer itself, a floating point number with
    /// an exact representation as an integer, or a string that denotes an integer.
    pub open spec fn to_integer(self, slot: Slot) -> Option<i64> {
        match slot {
            Slot::Integer(i) => Some(i),
            Slot::Number(bits) => (self.integral)(bits),
            Slot::Str(text) => (self.text_integer)(text),
            _ => None,
        }
    }

    /// The number that a value can be taken for: a number itself, or a string that denotes one.
    pub open spec fn to_number(self, slot: Slot) -> Option<u64> {
        match slot {
            Slot::Integer(i) => Some((self.widened)(i)),
            Slot::Number(bits) => Some(bits),
            Slot::Str(text) => (self.text_number)(text),
            _ => None,
        }
    }

    /// The string that a value can be taken for: a string itself, or the text of a number.
    pub open spec fn to_text(self, slot: Slot) -> Option<Slot> {
        match slot {
            Slot::Str(_) => Some(slot),
            Slot::Raised(_, _) => Some(slot),
            Slot::Integer(i) => Some(Slot::Str((self.integer_text)(i))),
            Slot::Number(bits) => Some(Slot::Str((self.number_text)(bits))),
            _ => None,
        }
    }

    /// The table that these items fill, one after the other.
    pub open spec fn filled(self, items: Seq<(Slot, Slot)>) -> Map<Slot, Slot>
        decreases items.len(),
    {
        if items.len() == 0 {
            Map::empty()
        } else {
            table_put(
                self.filled(items.drop_last()),
                self.key(items.last().0),
                items.last().1,
            )
        }
    }
}

/// The source of a loaded chunk, and its name.
#[verifier::ext_equal]
pub struct Chunk {
    pub source: Seq<u8>,
    pub name: Option<Seq<u8>>,
}

/// A native function with the value that it carries.
pub struct Closure {
    pub routine: Routine,
    pub upvalue: Slot,
}

/// A function that was called, the chunk that it was loaded from, if any, its arguments, and what
/// it returned, unless it failed.
#[verifier::ext_equal]
pub struct CallRecord {
    pub target: Slot,
    pub chunk: Option<Chunk>,
    pub args: Seq<Slot>,
    pub results: Option<Seq<Slot>>,
}

/// What a call that can fail was to do.
pub enum Attempt {
    /// To reserve slots of the stack.
    CheckStack(usize),
    /// To make these calls in protected mode, with these values of the stack as arguments.
    Protect(Seq<Slot>, Seq<Instr>),
    /// To set up a state.
    Boot(Seq<Instr>),
    NewThread,
    PushString(Seq<u8>),
    PushCallback(Callback),
    PushUserData(usize),
    InitUserdataMetatable(bool),
    /// To load a chunk, which ended with this status.
    Load(Chunk, i32),
    /// To call a function with these arguments.
    Call(Slot, Seq<Slot>),
    /// To convert the key of an item.
    ItemKey,
    /// To convert the value of an item.
    ItemValue,
    /// To convert a position.
    Position(u64),
}

/// To make one call in protected mode, with these arguments.
pub open spec fn protected(args: Seq<Slot>, instr: Instr) -> Attempt {
    Attempt::Protect(args, seq![instr])
}

/// A call that failed: what it was to do, and the error.
#[verifier::ext_equal]
pub struct Fault {
    pub attempt: Attempt,
    pub error: ErrorView,
}

/// How many of these values are handles.
pub open spec fn handle_count(values: Seq<Value>) -> nat
    decreases values.len(),
{
    if values.len() == 0 {
        0
    } else if values.last().handle() is Some {
        handle_count(values.drop_last()) + 1
    } else {
        handle_count(values.drop_last())
    }
}

/// The objects of Lua.
#[verifier::ext_equal]
pub struct Heap {
    /// The registry.
    pub registry: Map<Slot, Slot>,
    /// The places of the registry that `luaL_ref` has given out.
    pub allotted: Set<i32>,
    /// The places that were given out, and those that were cleared, one after the other.
    pub turns: Seq<(i32, bool)>,
    /// What the tables hold.
    pub tables: Map<nat, Map<Slot, Slot>>,
    /// The metatables of other objects.
    pub metatables: Map<Slot, Slot>,
    /// The native functions that carry a value.
    pub closures: Map<nat, Closure>,
    /// The functions that were loaded.
    pub chunks: Map<nat, Chunk>,
    /// The userdata that hold callbacks.
    pub callbacks: Map<nat, Callback>,
    /// The userdata that hold other Rust values.
    pub payloads: Map<nat, usize>,
    /// The stacks of the threads.
    pub threads: Map<nat, Seq<Slot>>,
    /// The threads by their handles.
    pub handles: Map<usize, nat>,
    /// The thread that was made last.
    pub last_thread: nat,
    /// The libraries that were loaded, as `package.loaded` lists them.
    pub libraries: Set<Library>,
    /// The metatables of wrapped errors are in place.
    pub error_metatables: bool,
    /// The identity of the next object.
    pub next: nat,
}

impl Heap {
    /// The table of globals.
    pub open spec fn globals(self) -> Slot {
        table_get(self.registry, Slot::Integer(LUA_RIDX_GLOBALS))
    }

    /// The place of the registry is one that `luaL_ref` can answer now.
    pub open spec fn allottable(self, id: i32) -> bool {
        id > LUA_RIDX_GLOBALS && !self.allotted.contains(id)
    }

    /// The registry has no place left for `luaL_ref` to give out.
    pub open spec fn crowded(self) -> bool {
        forall|id: i32| !#[trigger] self.allottable(id)
    }

    /// The registry after `luaL_ref` stored a value in this place.
    pub open spec fn allot(self, id: i32, value: Slot) -> Heap {
        if value is Nil {
            self
        } else {
            Heap {
                registry: self.registry.insert(Slot::Integer(id as i64), value),
                allotted: self.allotted.insert(id),
                turns: self.turns.push((id, true)),
                ..self
            }
        }
    }

    /// The registry after `luaL_unref` cleared this place, which is no longer given out.
    pub open spec fn release(self, id: i32) -> Heap {
        if id < 0 {
            self
        } else {
            Heap {
                registry: self.registry.remove(Slot::Integer(id as i64)),
                allotted: self.allotted.remove(id),
                turns: self.turns.push((id, false)),
                ..self
            }
        }
    }

    /// The registry after `luaL_unref` cleared these places, one after the other.
    pub open spec fn release_all(self, ids: Seq<i32>) -> Heap
        decreases ids.len(),
    {
        if ids.len() == 0 {
            self
        } else {
            self.release_all(ids.drop_last()).release(ids.last())
        }
    }

    /// The chunk that a function was loaded from.
    pub open spec fn chunk_of(self, function: Slot) -> Option<Chunk> {
        match function {
            Slot::Function(id) => if self.chunks.contains_key(id) {
                Some(self.chunks[id])
            } else {
                None
            },
            _ => None,
        }
    }

    /// With a new table.
    pub open spec fn with_table(self, table: Map<Slot, Slot>) -> Heap {
        Heap { tables: self.tables.insert(self.next, table), next: self.next + 1, ..self }
    }

    /// With a new function, loaded from a chunk.
    pub open spec fn with_chunk(self, chunk: Chunk) -> Heap {
        Heap { chunks: self.chunks.insert(self.next, chunk), next: self.next + 1, ..self }
    }

    /// With a new native function.
    pub open spec fn with_closure(self, closure: Closure) -> Heap {
        Heap { closures: self.closures.insert(self.next, closure), next: self.next + 1, ..self }
    }

    /// With a new userdata that holds a callback.
    pub open spec fn with_callback(self, callback: Callback) -> Heap {
        Heap { callbacks: self.callbacks.insert(self.next, callback), next: self.next + 1, ..self }
    }

    /// With a new userdata that holds a Rust value.
    pub open spec fn with_payload(self, payload: usize) -> Heap {
        Heap { payloads: self.payloads.insert(self.next, payload), next: self.next + 1, ..self }
    }

    /// With a new thread.
    pub open spec fn with_thread(self) -> Heap {
        Heap {
            threads: self.threads.insert(self.next, Seq::empty()),
            last_thread: self.next,
            next: self.next + 1,
            ..self
        }
    }

    /// With a metatable on an object.
    pub open spec fn with_metatable(self, object: Slot, metatable: Slot) -> Heap {
        Heap {
            metatables: if metatable is Nil {
                self.metatables.remove(object)
            } else {
                self.metatables.insert(object, metatable)
            },
            ..self
        }
    }

    /// With a value stored in the registry. What is set to nil is known to hold nothing.
    pub open spec fn with_registry(self, key: Slot, value: Slot) -> Heap {
        Heap { registry: self.registry.insert(key, value), ..self }
    }

    /// With what a table holds changed.
    pub open spec fn with_contents(self, table: nat, contents: Map<Slot, Slot>) -> Heap {
        Heap { tables: self.tables.insert(table, contents), ..self }
    }

    /// Every object that was there is still there, and is what it was.
    pub open spec fn kept_in(self, later: Heap) -> bool {
        &&& later.registry == self.registry
        &&& later.allotted == self.allotted
        &&& later.turns == self.turns
        &&& later.libraries == self.libraries
        &&& later.error_metatables == self.error_metatables
        &&& self.tables.submap_of(later.tables)
        &&& self.metatables.submap_of(later.metatables)
        &&& forall|id: nat|
            id < self.next && #[trigger] later.metatables.contains_key(Slot::Table(id))
                ==> self.metatables.contains_key(Slot::Table(id))
        &&& self.closures.submap_of(later.closures)
        &&& self.chunks.submap_of(later.chunks)
        &&& self.callbacks.submap_of(later.callbacks)
        &&& self.payloads.submap_of(later.payloads)
        &&& self.threads.submap_of(later.threads)
        &&& self.handles.submap_of(later.handles)
        &&& self.next <= later.next
    }

    /// No object has the identity of the next one, or a later one.
    pub open spec fn fresh(self) -> bool {
        &&& forall|id: nat| #[trigger] self.tables.contains_key(id) ==> id < self.next
        &&& forall|id: nat| #[trigger] self.closures.contains_key(id) ==> id < self.next
        &&& forall|id: nat| #[trigger] self.chunks.contains_key(id) ==> id < self.next
        &&& forall|id: nat| #[trigger] self.callbacks.contains_key(id) ==> id < self.next
        &&& forall|id: nat| #[trigger] self.payloads.contains_key(id) ==> id < self.next
        &&& forall|id: nat| #[trigger] self.threads.contains_key(id) ==> id < self.next
        &&& forall|id: nat| #[trigger]
            self.metatables.contains_key(Slot::UserData(id)) ==> id < self.next
        &&& forall|id: nat| #[trigger]
            self.metatables.contains_key(Slot::Table(id)) ==> id < self.next
        &&& forall|handle: usize| #[trigger]
            self.handles.contains_key(handle) ==> self.handles[handle] < self.next
    }

    /// The registry has a table of globals and the metatable of callbacks, what `luaL_ref` has
    /// given out is there, and the next object will be a new one.
    pub open spec fn wf(self, function_key: usize) -> bool {
        &&& self.fresh()
        &&& self.globals() is Table
        &&& table_get(self.registry, Slot::LightUserData(function_key)) is Table
        &&& !self.registry.contains_key(Slot::Integer(LUA_REFNIL as i64))
        &&& forall|id: i32| #[trigger]
            self.allotted.contains(id) ==> id > LUA_RIDX_GLOBALS && self.registry.contains_key(
                Slot::Integer(id as i64),
            )
    }
}

/// The Lua machine, seen from one running thread.
#[verifier::ext_equal]
pub struct Machine {
    /// The main state.
    pub main_state: usize,
    /// The address under which the metatable of callbacks is stored in the registry.
    pub function_key: usize,
    pub laws: Laws,
    /// The stack of the running thread, and the height for which there is room.
    pub stack: Seq<Slot>,
    pub limit: int,
    /// The auxiliary stack, the height for which there is room, and the handle of its thread.
    pub aux: Seq<Slot>,
    pub aux_limit: int,
    pub aux_thread: usize,
    /// The place of the registry that keeps the auxiliary thread from being collected.
    pub anchor: i32,
    /// The extra data, and whether someone has taken it out.
    pub extra: ExtraView,
    pub lent: bool,
    pub heap: Heap,
    /// The first upvalue of the running function.
    pub upvalue: Slot,
    /// The list of registry places to clear is open, what is known to be in it, and what it held
    /// each time it was emptied.
    pub unref_open: bool,
    pub unref: Seq<i32>,
    pub dropped: Seq<Seq<i32>>,
    /// The registry keys of other states that were dropped so far, by place and list.
    pub discarded: Seq<(i32, usize)>,
    /// The mask and the count of the hook.
    pub hook: Option<(i32, i32)>,
    /// How many items iterators had so far, the key of the current one, the items that were read, and
    /// how many iterators came to their end.
    pub yields: nat,
    pub item_key: Slot,
    pub items: Seq<(Slot, Slot)>,
    pub ends: nat,
    /// How many references code of others has made for itself, less those that it has given up.
    pub others: int,
    /// The types of userdata that were asked for their methods so far.
    pub registrations: Seq<u64>,
    /// The calls that failed so far.
    pub faults: Seq<Fault>,
    /// The keys of the registry that code of others has set, cleared or lost the owner of, each time
    /// that such code ran.
    pub disturbed: Seq<Set<Slot>>,
    /// The functions that were called so far.
    pub calls: Seq<CallRecord>,
    /// A protected call raised an error.
    pub raised: bool,
    /// A call was made that the API of Lua does not allow.
    pub misused: bool,
    /// The state could not be set up, or its auxiliary stack or its registry could not grow.
    pub exhausted: bool,
    /// The library panicked.
    pub panicked: bool,
    /// The library reported a leak of references.
    pub leaked: bool,
    /// The state is closed.
    pub closed: bool,
}

impl Machine {
    /// The machine that `lua_newstate` makes.
    pub open spec fn newborn(main_state: usize, function_key: usize, laws: Laws) -> Machine {
        Machine {
            main_state,
            function_key,
            laws,
            stack: Seq::empty(),
            limit: LUA_MINSTACK as int,
            aux: Seq::empty(),
            aux_limit: 0,
            aux_thread: 0,
            anchor: 0,
            extra: ExtraView::fresh(0, 0),
            lent: true,
            heap: Heap {
                registry: Map::empty().insert(Slot::Integer(1), Slot::Thread(0)).insert(
                    Slot::Integer(LUA_RIDX_GLOBALS),
                    Slot::Table(1),
                ),
                allotted: Set::empty(),
                turns: Seq::empty(),
                tables: Map::empty().insert(1, Map::empty()),
                metatables: Map::empty(),
                closures: Map::empty(),
                chunks: Map::empty(),
                callbacks: Map::empty(),
                payloads: Map::empty(),
                threads: Map::empty().insert(0, Seq::empty()),
                handles: Map::empty(),
                last_thread: 0,
                libraries: Set::empty(),
                error_metatables: false,
                next: 2,
            },
            upvalue: Slot::Nil,
            unref_open: true,
            unref: Seq::empty(),
            dropped: Seq::empty(),
            discarded: Seq::empty(),
            hook: None,
            yields: 0,
            item_key: Slot::Nil,
            items: Seq::empty(),
            ends: 0,
            others: 0,
            registrations: Seq::empty(),
            faults: Seq::empty(),
            disturbed: Seq::empty(),
            calls: Seq::empty(),
            raised: false,
            misused: false,
            exhausted: false,
            panicked: false,
            leaked: false,
            closed: false,
        }
    }

    /// What the references of this machine point to, by slot of the auxiliary stack.
    pub open spec fn refs(self) -> Map<int, Slot> {
        Map::new(|i: int| self.extra.live(i), |i: int| self.aux[i - 1])
    }

    /// The slot of the auxiliary stack is held by a reference.
    pub open spec fn live(self, index: int) -> bool {
        self.refs().contains_key(index)
    }

    /// What the reference that holds this slot of the auxiliary stack points to.
    pub open spec fn pinned(self, index: int) -> Slot {
        self.refs()[index]
    }

    /// The machine is at rest: nothing went wrong, there is room for what the stacks hold, the
    /// auxiliary stack agrees with its bookkeeping, its free slots keep nothing alive, and its thread
    /// is kept from being collected.
    pub open spec fn ready(self) -> bool {
        &&& !self.raised && !self.misused && !self.panicked && !self.closed && !self.lent
        &&& self.laws.sound()
        &&& self.unref_open
        &&& self.droppable(self.unref)
        &&& self.stack.len() <= self.limit <= LUAI_MAXSTACK
        &&& self.extra.wf()
        &&& self.extra.ref_thread == self.aux_thread
        &&& self.aux.len() == self.extra.ref_stack_max
        &&& self.extra.ref_stack_size + 1 <= self.aux_limit
        &&& forall|i: int|
            0 <= i < self.aux.len() && !self.extra.live(i + 1) ==> #[trigger] self.aux[i]
                == Slot::Nil
        &&& self.heap.wf(self.function_key)
        &&& self.types_stored()
        &&& self.anchored()
    }

    /// The auxiliary thread is in its place in the registry, which holds nothing else.
    pub open spec fn anchored(self) -> bool {
        &&& self.heap.handles.contains_key(self.aux_thread)
        &&& self.heap.allotted.contains(self.anchor)
        &&& self.heap.registry[Slot::Integer(self.anchor as i64)] == Slot::Thread(
            self.heap.handles[self.aux_thread],
        )
    }

    /// The metatable of a known type of userdata.
    pub open spec fn type_table(self, kind: u64) -> Slot {
        self.heap.registry[Slot::Integer(self.extra.registered_userdata[kind] as i64)]
    }

    /// The metatables of the known types of userdata are in their places in the registry, and no
    /// two types share a place or a metatable.
    pub open spec fn types_stored(self) -> bool {
        let types = self.extra.registered_userdata;
        &&& forall|kind: u64| #[trigger]
            types.contains_key(kind) ==> {
                &&& self.heap.allotted.contains(types[kind])
                &&& self.type_table(kind) is Table
                &&& self.heap.tables.contains_key(self.type_table(kind)->Table_0)
            }
        &&& forall|kind: u64, other: u64| #[trigger]
            types.contains_key(kind) && #[trigger] types.contains_key(other) && kind != other ==> {
                &&& types[kind] != types[other]
                &&& self.type_table(kind) != self.type_table(other)
            }
    }

    /// The model knows what this numbered place of the registry holds.
    pub open spec fn follows_place(self, i: i64) -> bool {
        ||| i == LUA_REFNIL
        ||| i == LUA_RIDX_GLOBALS
        ||| i32::MIN <= i <= i32::MAX && self.heap.allotted.contains(i as i32)
    }

    /// The model knows what the registry holds under this text: it is not one of those under which
    /// Lua's libraries keep something, or someone else has set it.
    pub open spec fn follows_text(self, text: Seq<u8>) -> bool {
        self.heap.registry.contains_key(Slot::Str(text)) || !(self.laws.own_name)(text)
    }

    /// What the registry holds under a key.
    pub open spec fn registry_at(self, key: Slot) -> Slot {
        match key {
            Slot::Integer(i) => if self.follows_place(i) {
                table_get(self.heap.registry, key)
            } else {
                (self.laws.free_place)(self.heap.turns, i)
            },
            Slot::Str(text) => if self.follows_text(text) {
                table_get(self.heap.registry, key)
            } else {
                (self.laws.own_entry)(self.disturbed, text)
            },
            _ => table_get(self.heap.registry, key),
        }
    }

    /// The place of the registry was given out, and neither for the metatable of a userdata type
    /// nor for the auxiliary thread.
    pub open spec fn key_place(self, id: i32) -> bool {
        &&& self.heap.allotted.contains(id)
        &&& !self.extra.registered_userdata.contains_value(id)
        &&& id != self.anchor
    }

    /// Each of these places of the registry is one that a key can own, or is that of nil, and none
    /// occurs twice.
    pub open spec fn droppable(self, ids: Seq<i32>) -> bool {
        &&& forall|i: int|
            0 <= i < ids.len() ==> (#[trigger] ids[i]) < 0 || self.key_place(ids[i])
        &&& forall|i: int, j: int|
            0 <= i < j < ids.len() && (#[trigger] ids[i]) >= 0 ==> ids[i] != #[trigger] ids[j]
    }

    /// The reference belongs to this machine and holds its slot.
    pub open spec fn holds_ref(self, r: LuaRef) -> bool {
        r.main_state == self.main_state && self.live(r.index as int)
    }

    /// The value belongs to this machine and, if it is a handle, points to an object of its kind.
    pub open spec fn holds(self, value: Value) -> bool {
        match value.handle() {
            Some(r) => self.holds_ref(r) && kind_fits(value, self.pinned(r.index as int)),
            None => true,
        }
    }

    /// Each of the values belongs to this machine, and no two of them share a slot.
    pub open spec fn holds_all(self, values: Seq<Value>) -> bool {
        &&& forall|i: int| 0 <= i < values.len() ==> self.holds(#[trigger] values[i])
        &&& forall|i: int, j: int|
            0 <= i < j < values.len() && (#[trigger] values[i]).handle() is Some && (
            #[trigger] values[j]).handle() is Some ==> values[i].handle()->0.index
                != values[j].handle()->0.index
    }

    /// The key belongs to this machine and owns its place in the registry.
    pub open spec fn holds_key(self, key: RegistryKey) -> bool {
        &&& key.unref_list == self.extra.registry_unref_list
        &&& key.registry_id == LUA_REFNIL || self.owned_place(key.registry_id)
    }

    /// The place of the registry is one that a key can own, and its key is not known to be gone.
    pub open spec fn owned_place(self, id: i32) -> bool {
        self.key_place(id) && !self.unref.contains(id)
    }

    /// What a value is to Lua.
    pub open spec fn slot_of(self, value: Value) -> Slot {
        match value {
            Value::Nil => Slot::Nil,
            Value::Boolean(b) => Slot::Boolean(b),
            Value::LightUserData(ud) => Slot::LightUserData(ud.0),
            Value::Integer(i) => Slot::Integer(i),
            Value::Number(n) => Slot::Number(n),
            Value::String(s) => self.pinned(s.0.index as int),
            Value::Table(t) => self.pinned(t.0.index as int),
            Value::Function(f) => self.pinned(f.0.index as int),
            Value::Thread(t) => self.pinned(t.0.index as int),
            Value::UserData(u) => self.pinned(u.0.index as int),
            Value::Error(e) => Slot::WrappedError(e@),
        }
    }

    /// What several values are to Lua.
    pub open spec fn slots_of(self, values: Seq<Value>) -> Seq<Slot> {
        Seq::new(values.len(), |i: int| self.slot_of(values[i]))
    }

    /// With a value on the top of the stack.
    pub open spec fn push(self, slot: Slot) -> Machine {
        Machine { stack: self.stack.push(slot), ..self }
    }

    /// With values taken from the top of the stack.
    pub open spec fn pop(self, n: int) -> Machine {
        Machine { stack: self.stack.take(self.stack.len() - n), ..self }
    }

    /// The value on the top, or the one so many places below it.
    pub open spec fn top(self, below: int) -> Slot {
        self.stack[self.stack.len() - 1 - below]
    }

    /// With room for so many values more.
    pub open spec fn reserve(self, n: int) -> Machine {
        Machine {
            limit: if self.stack.len() + n > self.limit {
                self.stack.len() + n
            } else {
                self.limit
            },
            ..self
        }
    }

    /// The values on the top of the stack, the lowest of them first.
    pub open spec fn top_slots(self, n: int) -> Seq<Slot> {
        self.stack.skip(self.stack.len() - n)
    }

    /// With a call that failed.
    pub open spec fn fault(self, attempt: Attempt, error: ErrorView) -> Machine {
        Machine { faults: self.faults.push(Fault { attempt, error }), ..self }
    }

    /// The API of Lua allows this call now.
    pub open spec fn fits(self, instr: Instr) -> bool {
        let height = self.stack.len();
        match instr {
            Instr::Pop(n) => 0 <= n <= height,
            Instr::PushCClosure(_) => height >= 1,
            Instr::RawSet => {
                &&& height >= 3
                &&& self.top(2) is Table
                &&& self.heap.tables.contains_key(self.top(2)->Table_0)
            },
            Instr::RawSetRegistry => height >= 2,
            Instr::RawGetRegistry => height >= 1,
            Instr::SetMetatable => height >= 2 && (self.top(0) is Table || self.top(0) is Nil),
            Instr::Ref => height >= 1,
            Instr::AuxPushValue(thread, index) => {
                &&& thread == self.aux_thread
                &&& 1 <= index <= self.aux.len() < self.aux_limit
            },
            Instr::AuxPushNil(thread) => {
                thread == self.aux_thread && self.aux.len() < self.aux_limit
            },
            Instr::AuxReplace(thread, index) => {
                thread == self.aux_thread && 1 <= index <= self.aux.len()
            },
            Instr::MoveToAux(thread) => {
                &&& thread == self.aux_thread
                &&& height >= 1
                &&& self.aux.len() < self.aux_limit
            },
            Instr::MoveFromAux(thread) => {
                &&& thread == self.aux_thread
                &&& self.aux.len() >= 1
                &&& height < self.limit
            },
            Instr::MoveToThread(thread) => height >= 1 && self.heap.handles.contains_key(thread),
            _ => height < self.limit,
        }
    }

    /// The machine after a call that the API allows.
    pub open spec fn effect(self, instr: Instr) -> Machine {
        match instr {
            Instr::PushNil => self.push(Slot::Nil),
            Instr::PushBoolean(b) => self.push(Slot::Boolean(b)),
            Instr::PushLightUserData(address) => self.push(Slot::LightUserData(address)),
            Instr::PushInteger(i) => self.push(Slot::Integer(i)),
            Instr::PushNumber(bits) => self.push(Slot::Number(bits)),
            Instr::PushName(name) => self.push(text_slot(name.text())),
            Instr::PushCFunction(routine) => self.push(Slot::Native(routine)),
            Instr::PushCClosure(routine) => {
                let closure = Closure { routine, upvalue: self.top(0) };
                Machine {
                    heap: self.heap.with_closure(closure),
                    ..self.pop(1).push(Slot::Function(self.heap.next))
                }
            },
            Instr::NewTable => Machine {
                heap: self.heap.with_table(Map::empty()),
                ..self.push(Slot::Table(self.heap.next))
            },
            Instr::NewThread => Machine {
                heap: self.heap.with_thread(),
                ..self.push(Slot::Thread(self.heap.next))
            },
            Instr::Pop(n) => self.pop(n as int),
            Instr::RawSet => {
                let table = self.top(2)->Table_0;
                let contents = table_put(
                    self.heap.tables[table],
                    self.laws.key(self.top(1)),
                    self.top(0),
                );
                Machine {
                    heap: self.heap.with_contents(table, contents),
                    raised: self.raised || !self.laws.key_allowed(self.top(1)),
                    ..self.pop(2)
                }
            },
            Instr::RawSetRegistry => Machine {
                heap: self.heap.with_registry(self.laws.key(self.top(1)), self.top(0)),
                raised: self.raised || !self.laws.key_allowed(self.top(1)),
                ..self.pop(2)
            },
            Instr::RawGetRegistry => self.pop(1).push(
                self.registry_at(self.laws.key(self.top(0))),
            ),
            Instr::RawGetI(i) => self.push(self.registry_at(Slot::Integer(i))),
            Instr::SetMetatable => Machine {
                heap: self.heap.with_metatable(self.top(1), self.top(0)),
                ..self.pop(1)
            },
            Instr::Ref => {
                let id = choose|id: i32| self.heap.allottable(id);
                Machine { heap: self.heap.allot(id, self.top(0)), ..self.pop(1) }
            },
            Instr::Require(library) => self.require(library),
            Instr::InitErrorMetatables => Machine {
                heap: Heap { error_metatables: true, ..self.heap },
                ..self
            },
            Instr::AuxPushValue(_, index) => Machine {
                aux: self.aux.push(self.aux[index - 1]),
                ..self
            },
            Instr::AuxPushNil(_) => Machine { aux: self.aux.push(Slot::Nil), ..self },
            Instr::AuxReplace(_, index) => Machine {
                aux: self.aux.update(index - 1, self.aux.last()).drop_last(),
                ..self
            },
            Instr::MoveToAux(_) => Machine { aux: self.aux.push(self.top(0)), ..self.pop(1) },
            Instr::MoveFromAux(_) => Machine {
                aux: self.aux.drop_last(),
                ..self.push(self.aux.last())
            },
            Instr::MoveToThread(handle) => {
                let thread = self.heap.handles[handle];
                Machine {
                    heap: Heap {
                        threads: self.heap.threads.insert(
                            thread,
                            self.heap.threads[thread].push(self.top(0)),
                        ),
                        ..self.heap
                    },
                    ..self.pop(1)
                }
            },
        }
    }

    /// The machine after `luaL_requiref`. The base library is the table of globals itself, and
    /// brings `pcall` and `xpcall`.
    pub open spec fn require(self, library: Library) -> Machine {
        let globals = self.heap.globals()->Table_0;
        let (module, heap) = if library == Library::Base {
            let contents = self.heap.tables[globals].insert(
                text_slot(Name::Pcall.text()),
                Slot::Native(Routine::Pcall),
            ).insert(text_slot(Name::Xpcall.text()), Slot::Native(Routine::Xpcall));
            (Slot::Table(globals), self.heap.with_contents(globals, contents))
        } else {
            (Slot::Table(self.heap.next), self.heap.with_table(Map::empty()))
        };
        let contents = heap.tables[globals].insert(text_slot(library.text()), module);
        Machine {
            heap: Heap {
                libraries: heap.libraries.insert(library),
                ..heap.with_contents(globals, contents)
            },
            ..self.push(module)
        }
    }

    /// The machine after a call, which is misused by one that the API does not allow.
    pub open spec fn apply(self, instr: Instr) -> Machine {
        if self.fits(instr) {
            self.effect(instr)
        } else {
            Machine { misused: true, ..self }
        }
    }

    /// The machine after several calls.
    pub open spec fn run(self, body: Seq<Instr>) -> Machine
        decreases body.len(),
    {
        if body.len() == 0 {
            self
        } else {
            self.run(body.drop_last()).apply(body.last())
        }
    }

    /// Rust code that converts values ran: it made references and objects of its own, among them
    /// those to the values that it handed out, and left the others alone.
    pub open spec fn grown(self, later: Machine, got: Seq<Value>) -> bool {
        &&& later == Machine {
            limit: later.limit,
            aux: later.aux,
            aux_limit: later.aux_limit,
            extra: ExtraView {
                ref_stack_size: later.extra.ref_stack_size,
                ref_stack_max: later.extra.ref_stack_max,
                ref_free: later.extra.ref_free,
                ..self.extra
            },
            heap: later.heap,
            ..self
        }
        &&& self.heap.kept_in(later.heap)
        &&& self.limit <= later.limit
        &&& later.ready()
        &&& later.holds_all(got)
        &&& refs_grown(self, later, Set::empty(), got)
    }

    /// Code of others left alone what the registry holds under all other keys than these: among them
    /// are not the globals, the metatable of callbacks, the auxiliary thread and the metatables of
    /// the known types of userdata. The keys to the other places own them as before.
    pub open spec fn registry_kept(self, later: Machine, touched: Set<Slot>) -> bool {
        let types = self.extra.registered_userdata;
        &&& !touched.contains(Slot::Integer(LUA_RIDX_GLOBALS))
        &&& !touched.contains(Slot::LightUserData(self.function_key))
        &&& !touched.contains(Slot::Integer(self.anchor as i64))
        &&& forall|kind: u64| #[trigger]
            types.contains_key(kind) ==> !touched.contains(Slot::Integer(types[kind] as i64))
        &&& forall|key: Slot|
            #![trigger touched.contains(key)]
            #![trigger table_get(later.heap.registry, key)]
            #![trigger later.heap.registry.contains_key(key)]
            !touched.contains(key) ==> {
                &&& later.heap.registry.contains_key(key) == self.heap.registry.contains_key(key)
                &&& table_get(later.heap.registry, key) == table_get(self.heap.registry, key)
            }
        &&& forall|id: i32|
            #![trigger later.heap.allotted.contains(id)]
            #![trigger later.owned_place(id)]
            !touched.contains(Slot::Integer(id as i64)) ==> {
                &&& later.heap.allotted.contains(id) == self.heap.allotted.contains(id)
                &&& self.owned_place(id) ==> later.owned_place(id)
            }
    }

    /// What stays whatever code of others did from this machine to a later one: what Lua computes,
    /// the auxiliary thread, the list of places to clear, the known types of userdata, and the
    /// registry but for what is noted. Code that goes past this through the `debug` library is not
    /// meant.
    pub open spec fn outlives(self, later: Machine) -> bool {
        &&& later.main_state == self.main_state
        &&& later.function_key == self.function_key
        &&& later.laws == self.laws
        &&& later.aux_thread == self.aux_thread
        &&& later.anchor == self.anchor
        &&& later.extra.registry_unref_list == self.extra.registry_unref_list
        &&& self.extra.registered_userdata.submap_of(later.extra.registered_userdata)
        &&& later.disturbed == self.disturbed.push(later.disturbed.last())
        &&& self.registry_kept(later, later.disturbed.last())
    }

    /// Lua code ran, with these slots given away and these values handed out: it may have done
    /// anything to the objects of Lua, but not to the stack below it, nor to the references that
    /// others hold, and to the registry only what is noted.
    pub open spec fn ran(self, later: Machine, given: Set<int>, got: Seq<Value>) -> bool {
        &&& self.outlives(later)
        &&& later.stack == self.stack
        &&& later.upvalue == self.upvalue
        &&& later.exhausted == self.exhausted
        &&& later.faults == self.faults
        &&& later.calls == self.calls
        &&& self.limit <= later.limit
        &&& later.ready()
        &&& later.holds_all(got)
        &&& refs_grown(self, later, given, got)
    }
}

/// The references of the earlier machine, without those given away, are references of the later one
/// and point to what they did; those to the values handed out are new.
pub open spec fn refs_grown(
    earlier: Machine,
    later: Machine,
    given: Set<int>,
    got: Seq<Value>,
) -> bool {
    &&& forall|i: int| #[trigger]
        earlier.live(i) && !given.contains(i) ==> later.live(i) && later.pinned(i)
            == earlier.pinned(i)
    &&& forall|k: int|
        0 <= k < got.len() && (#[trigger] got[k]).handle() is Some && !given.contains(
            got[k].handle()->0.index as int,
        ) ==> !earlier.live(got[k].handle()->0.index as int)
}

} // verus!

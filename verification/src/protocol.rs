//! The calls that the library makes on a Lua state, and what they answer.
//!
//! The library never touches a Lua state itself. It is given a function, the driver, and makes every
//! call of Lua's C API through it: it hands the driver an [`Op`] and gets a [`Reply`].
use crate::extra::ExtraData;
use crate::userdata::StaticUserDataMethods;
use crate::value::{Callback, Error, MultiValue, RegistryKey, Value};
use vstd::prelude::*;

verus! {

/// A native function that the library registers, or that a standard library brings.
#[derive(Debug, Clone, Copy, PartialEq, Eq, Structural)]
pub enum Routine {
    /// The `pcall` of the base library.
    Pcall,
    /// The `xpcall` of the base library.
    Xpcall,
    /// A `pcall` that does not catch Rust panics.
    SafePcall,
    /// An `xpcall` that does not catch Rust panics.
    SafeXpcall,
    /// Runs the callback that it carries.
    CallCallback,
    /// Drops the callback that a userdata holds.
    DestructCallback,
}

/// The fixed names under which something is stored in a table.
#[derive(Debug, Clone, Copy, PartialEq, Eq, Structural)]
pub enum Name {
    Gc,
    Metatable,
    Pcall,
    Xpcall,
}

impl Name {
    /// The name itself.
    pub open spec fn text(self) -> Seq<char> {
        match self {
            Name::Gc => "__gc"@,
            Name::Metatable => "__metatable"@,
            Name::Pcall => "pcall"@,
            Name::Xpcall => "xpcall"@,
        }
    }

    /// The name itself.
    pub fn as_str(self) -> (r: &'static str)
        ensures
            r@ == self.text(),
    {
        match self {
            Name::Gc => "__gc",
            Name::Metatable => "__metatable",
            Name::Pcall => "pcall",
            Name::Xpcall => "xpcall",
        }
    }
}

/// The standard libraries of Lua.
#[derive(Debug, Clone, Copy, PartialEq, Eq, Structural)]
pub enum Library {
    Base,
    Coroutine,
    Table,
    Io,
    Os,
    Str,
    Utf8,
    Math,
    Package,
    Debug,
}

impl Library {
    /// The name under which the library is found.
    pub open spec fn text(self) -> Seq<char> {
        match self {
            Library::Base => "_G"@,
            Library::Coroutine => "coroutine"@,
            Library::Table => "table"@,
            Library::Io => "io"@,
            Library::Os => "os"@,
            Library::Str => "string"@,
            Library::Utf8 => "utf8"@,
            Library::Math => "math"@,
            Library::Package => "package"@,
            Library::Debug => "debug"@,
        }
    }

    /// The name under which the library is found.
    pub fn as_str(self) -> (r: &'static str)
        ensures
            r@ == self.text(),
    {
        match self {
            Library::Base => "_G",
            Library::Coroutine => "coroutine",
            Library::Table => "table",
            Library::Io => "io",
            Library::Os => "os",
            Library::Str => "string",
            Library::Utf8 => "utf8",
            Library::Math => "math",
            Library::Package => "package",
            Library::Debug => "debug",
        }
    }
}

/// A call that only moves values about, and answers nothing.
///
/// The stack is that of the running Lua thread. The auxiliary stack and the stacks of other threads
/// are named by the thread's handle.
#[derive(Debug)]
pub enum Instr {
    /// `lua_pushnil`
    PushNil,
    /// `lua_pushboolean`
    PushBoolean(bool),
    /// `lua_pushlightuserdata`
    PushLightUserData(usize),
    /// `lua_pushinteger`
    PushInteger(i64),
    /// `lua_pushnumber`, with the bits of the number
    PushNumber(u64),
    /// `lua_pushstring`
    PushName(Name),
    /// `lua_pushcfunction`
    PushCFunction(Routine),
    /// `lua_pushcclosure` with one upvalue, which it takes from the top
    PushCClosure(Routine),
    /// `lua_newtable`
    NewTable,
    /// `lua_newthread`
    NewThread,
    /// `lua_pop`
    Pop(i32),
    /// `lua_rawset` on the table in third place from the top
    RawSet,
    /// `lua_rawset` on the registry
    RawSetRegistry,
    /// `lua_rawget` on the registry
    RawGetRegistry,
    /// `lua_rawgeti` on the registry
    RawGetI(i64),
    /// `lua_setmetatable` on the value below the top
    SetMetatable,
    /// `luaL_ref` on the registry, the answer being of no interest
    Ref,
    /// `luaL_requiref`, which also makes the library a global
    Require(Library),
    /// Registers the metatables of wrapped errors and panics
    InitErrorMetatables,
    /// `lua_pushvalue` on the auxiliary stack
    AuxPushValue(usize, i32),
    /// `lua_pushnil` on the auxiliary stack
    AuxPushNil(usize),
    /// `lua_replace` on the auxiliary stack
    AuxReplace(usize, i32),
    /// `lua_xmove` of one value to the auxiliary stack
    MoveToAux(usize),
    /// `lua_xmove` of one value from the auxiliary stack
    MoveFromAux(usize),
    /// `lua_xmove` of one value to the stack of another thread
    MoveToThread(usize),
}

/// A call through the driver.
#[derive(Debug)]
pub enum Op {
    /// Takes the extra data out of the extra space of the state: answers `Extra`.
    ExtraData,
    /// Puts the extra data into the extra space of the state: answers `Done`.
    SetExtraData(ExtraData),
    /// Panics.
    Panic(&'static str),
    /// Panics where debug assertions are checked: answers `Done` where they are not.
    DebugPanic(&'static str),
    /// Notes the height of the stack: answers `Count`.
    StackGuard,
    /// Cuts the stack back to a height that was noted: answers `Done`.
    EndStackGuard(usize),
    /// Reserves slots of the stack, or panics: answers `Done`.
    AssertStack(usize),
    /// Reserves slots of the stack: answers `Done` or `Failed`.
    CheckStack(usize),
    /// `lua_gettop`: answers `Count`.
    GetTop,
    /// Makes one call: answers `Done`.
    Do(Instr),
    /// Makes the calls in protected mode, where a number of values on the top are their arguments:
    /// answers `Done` or `Failed`.
    Protect(usize, Vec<Instr>),
    /// Makes the calls that set up a new state in protected mode, the last thread that they make
    /// being the auxiliary one: answers `Thread` or `Failed`.
    Boot(Vec<Instr>),
    /// `lua_newthread` in protected mode: answers `Thread` or `Failed`.
    NewThread,
    /// Pushes a string in protected mode: answers `Done` or `Failed`.
    PushString(Vec<u8>),
    /// Pushes a userdata that wraps an error: answers `Done`.
    PushWrappedError(Error),
    /// Pushes a userdata that holds a callback in protected mode: answers `Done` or `Failed`.
    PushCallback(Callback),
    /// Pushes a userdata that holds the Rust value of this number in protected mode: answers `Done`
    /// or `Failed`.
    PushUserData(usize),
    /// Makes the table on the top, or the one below it where the top holds a table of members, the
    /// metatable of a userdata type: answers `Done` or `Failed`.
    InitUserdataMetatable(bool),
    /// Lets the userdata type of this number register its methods: answers `Methods`.
    AddMethods(u64),
    /// `luaL_loadbuffer`, with the source and the name: answers `Status`.
    LoadBuffer(Vec<u8>, Option<Vec<u8>>),
    /// Takes an error that came with a status from the top: answers `Raised`.
    PopError(i32),
    /// `lua_type` of the top: answers `Int`.
    Type,
    /// `lua_type` of the first upvalue of the running function: answers `Int`.
    UpvalueType,
    /// `lua_toboolean` of the top: answers `Int`.
    ToBoolean,
    /// `lua_isinteger` of the top: answers `Int`.
    IsInteger,
    /// `lua_tointeger` of the top: answers `Integer`.
    ToInteger,
    /// `lua_tonumber` of the top: answers `Number`.
    ToNumber,
    /// `lua_touserdata` of the top: answers `Address`.
    ToUserData,
    /// The error that the top wraps, if it wraps one: answers `Wrapped`.
    GetWrappedError,
    /// `lua_tostring` of the top while the garbage collector rests, which turns a number there into
    /// a string: answers `Flag`, whether there is a string now.
    ToStringValue,
    /// `lua_tointegerx` of the top: answers `IntegerX`.
    ToIntegerX,
    /// `lua_tonumberx` of the top: answers `NumberX`.
    ToNumberX,
    /// `luaL_ref` on the registry while the garbage collector rests: answers `Int`.
    Ref,
    /// `luaL_unref` on the registry: answers `Done`.
    Unref(i32),
    /// Puts an empty list in the place of the list of registry places to clear: answers `List`,
    /// what was there.
    ReplaceUnrefList,
    /// Closes the list of registry places to clear: answers `Done`.
    CloseUnrefList,
    /// Drops a registry key: answers `Done`.
    DropKey(RegistryKey),
    /// `lua_checkstack` on the auxiliary stack: answers `Int`.
    AuxCheckStack(usize, i32),
    /// `lua_gettop` of the auxiliary stack: answers `Int`.
    AuxGetTop(usize),
    /// Calls the function in this slot of the auxiliary stack: answers `Values` or `Failed`.
    Call(i32, MultiValue),
    /// Runs the callback in the first upvalue of the running function: answers `Values` or
    /// `Failed`.
    Invoke(MultiValue),
    /// Advances the iterator that fills a table: answers `Flag`, whether there is an item.
    NextItem,
    /// Converts the key of the item: answers `Value` or `Failed`.
    ItemKey,
    /// Converts the value of the item: answers `Value` or `Failed`.
    ItemValue,
    /// Converts a position in a sequence: answers `Value` or `Failed`.
    IndexToLua(u64),
    /// `lua_sethook` with the hook of the library, a mask and a count: answers `Done`.
    SetHook(i32, i32),
    /// `lua_sethook` without a hook: answers `Done`.
    ClearHook,
    /// `lua_close`: answers `Done`.
    Close,
}

/// What a call through the driver answers.
#[derive(Debug)]
pub enum Reply {
    Done,
    Failed(Error),
    Raised(Error),
    Count(usize),
    Int(i32),
    Status(i32),
    Integer(i64),
    Number(u64),
    IntegerX(i64, i32),
    NumberX(u64, i32),
    Address(usize),
    Thread(usize),
    Flag(bool),
    Wrapped(Option<Error>),
    List(Option<Vec<i32>>),
    Extra(ExtraData),
    Methods(StaticUserDataMethods),
    Value(Value),
    Values(MultiValue),
}

} // verus!

//! The values that cross the border between Rust and Lua.
use std::collections::VecDeque;
use vstd::prelude::*;

verus! {

/// The integers of Lua.
pub type Integer = i64;

/// The floating point numbers of Lua, each by its IEEE 754 bits.
pub type Number = u64;

/// An error of this library, or one that was made elsewhere and is only passed on.
#[derive(Debug)]
pub enum Error {
    /// A mutable callback was entered while it was already running.
    RecursiveMutCallback,
    /// A callback was called after its Rust side had been destructed.
    CallbackDestructed,
    /// A registry key was used with a state that it does not belong to.
    MismatchedRegistryKey,
    /// A Rust value has no counterpart in Lua.
    ToLuaConversionError { from: &'static str, to: &'static str, message: Option<String> },
    /// A Lua value has no counterpart in Rust.
    FromLuaConversionError { from: &'static str, to: &'static str, message: Option<String> },
    /// Any other error, known by the number that its maker gave it.
    Other(usize),
}

/// What an [`Error`] says, as a mathematical value.
pub enum ErrorView {
    RecursiveMutCallback,
    CallbackDestructed,
    MismatchedRegistryKey,
    ToLuaConversionError { from: Seq<char>, to: Seq<char>, message: Option<Seq<char>> },
    FromLuaConversionError { from: Seq<char>, to: Seq<char>, message: Option<Seq<char>> },
    Other(usize),
}

/// The text of an optional message.
pub open spec fn message_view(message: Option<String>) -> Option<Seq<char>> {
    match message {
        Some(text) => Some(text@),
        None => None,
    }
}

impl View for Error {
    type V = ErrorView;

    open spec fn view(&self) -> ErrorView {
        match *self {
            Error::RecursiveMutCallback => ErrorView::RecursiveMutCallback,
            Error::CallbackDestructed => ErrorView::CallbackDestructed,
            Error::MismatchedRegistryKey => ErrorView::MismatchedRegistryKey,
            Error::ToLuaConversionError { from, to, message } => {
                ErrorView::ToLuaConversionError {
                    from: from@,
                    to: to@,
                    message: message_view(message),
                }
            },
            Error::FromLuaConversionError { from, to, message } => {
                ErrorView::FromLuaConversionError {
                    from: from@,
                    to: to@,
                    message: message_view(message),
                }
            },
            Error::Other(number) => ErrorView::Other(number),
        }
    }
}

impl Clone for Error {
    fn clone(&self) -> (r: Error)
        ensures
            r@ == self@,
    {
        match self {
            Error::RecursiveMutCallback => Error::RecursiveMutCallback,
            Error::CallbackDestructed => Error::CallbackDestructed,
            Error::MismatchedRegistryKey => Error::MismatchedRegistryKey,
            Error::ToLuaConversionError { from, to, message } => Error::ToLuaConversionError {
                from: *from,
                to: *to,
                message: clone_message(message),
            },
            Error::FromLuaConversionError { from, to, message } => Error::FromLuaConversionError {
                from: *from,
                to: *to,
                message: clone_message(message),
            },
            Error::Other(number) => Error::Other(*number),
        }
    }
}

/// A copy of an optional message.
fn clone_message(message: &Option<String>) -> (r: Option<String>)
    ensures
        message_view(r) == message_view(*message),
{
    match message {
        Some(text) => Some(text.clone()),
        None => None,
    }
}

/// A reference to a Lua object: the main state that it belongs to, and the slot of the auxiliary
/// stack that keeps the object from being collected.
///
/// A reference owns its slot. It is given up with `Lua::drop_ref`.
#[derive(Debug)]
pub struct LuaRef {
    pub main_state: usize,
    pub index: i32,
}

/// Handle to an interned Lua string.
#[derive(Debug)]
pub struct LuaString(pub LuaRef);

/// Handle to a Lua table.
#[derive(Debug)]
pub struct Table(pub LuaRef);

/// Handle to a Lua function.
#[derive(Debug)]
pub struct Function(pub LuaRef);

/// Handle to a Lua thread (a coroutine).
#[derive(Debug)]
pub struct Thread(pub LuaRef);

/// Handle to a Lua userdata object.
#[derive(Debug)]
pub struct AnyUserData(pub LuaRef);

/// A light userdata: an address.
#[derive(Debug)]
pub struct LightUserData(pub usize);

/// A dynamically typed Lua value.
#[derive(Debug)]
pub enum Value {
    Nil,
    Boolean(bool),
    LightUserData(LightUserData),
    Integer(Integer),
    Number(Number),
    String(LuaString),
    Table(Table),
    Function(Function),
    Thread(Thread),
    UserData(AnyUserData),
    Error(Error),
}

impl Value {
    /// The reference that the value holds, if it is a handle.
    pub open spec fn handle(self) -> Option<LuaRef> {
        match self {
            Value::String(s) => Some(s.0),
            Value::Table(t) => Some(t.0),
            Value::Function(f) => Some(f.0),
            Value::Thread(t) => Some(t.0),
            Value::UserData(u) => Some(u.0),
            _ => None,
        }
    }
}

/// Several values: the arguments or the results of a call.
#[derive(Debug)]
pub struct MultiValue {
    values: VecDeque<Value>,
}

impl View for MultiValue {
    type V = Seq<Value>;

    closed spec fn view(&self) -> Seq<Value> {
        self.values@
    }
}

impl MultiValue {
    /// No values.
    pub fn new() -> (r: MultiValue)
        ensures
            r@ == Seq::<Value>::empty(),
    {
        MultiValue { values: VecDeque::new() }
    }

    /// The number of values.
    pub fn len(&self) -> (r: usize)
        ensures
            r == self@.len(),
    {
        self.values.len()
    }

    /// Puts a value before the others.
    pub fn push_front(&mut self, value: Value)
        ensures
            final(self)@ == seq![value] + old(self)@,
    {
        self.values.push_front(value);
    }

    /// Puts a value behind the others.
    pub fn push_back(&mut self, value: Value)
        ensures
            final(self)@ == old(self)@.push(value),
    {
        self.values.push_back(value);
    }

    /// Takes the first value.
    pub fn pop_front(&mut self) -> (r: Option<Value>)
        ensures
            old(self)@.len() == 0 ==> r is None && final(self)@ == old(self)@,
            old(self)@.len() > 0 ==> r == Some(old(self)@[0]) && final(self)@
                == old(self)@.drop_first(),
    {
        let r = self.values.pop_front();
        assert(old(self)@.len() > 0 ==> self@ =~= old(self)@.drop_first());
        r
    }
}

/// The key of a value in the registry of one main state.
///
/// A key owns its place in the registry. The list of places to clear, by which keys of different
/// main states are told apart, is known by its address.
#[derive(Debug)]
pub struct RegistryKey {
    pub registry_id: i32,
    pub unref_list: usize,
}

/// A Rust callback as Lua holds it: how its arguments are prepared, and the number by which its
/// body is found.
#[derive(Debug, Clone, Copy, PartialEq, Eq, Structural)]
pub enum Callback {
    /// A function that may run in any number of calls at once.
    Function(usize),
    /// A function that must not be entered again while it runs; its arguments are converted first.
    FunctionMut(usize),
    /// A function of a userdata type that must not be entered again while it runs; it is claimed
    /// before its arguments are converted.
    StaticFunctionMut(usize),
    /// A method that reads its userdata.
    Method(usize),
    /// A method that changes its userdata.
    MethodMut(usize),
}

} // verus!

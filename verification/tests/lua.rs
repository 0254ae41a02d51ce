//! The library on a small Lua machine that lives in memory.
use rlua::extra::{ExtraData, LUAI_MAXSTACK, LUA_MINSTACK};
use rlua::hook::HookOptions;
use rlua::lua::Lua;
use rlua::protocol::{Instr, Library, Name, Op, Reply, Routine};
use rlua::userdata::{MetaMethod, StaticUserDataMethods};
use rlua::value::{
    Callback, Error, Function, LightUserData, LuaRef, MultiValue, RegistryKey, Table, Value,
};
use std::cell::RefCell;
use std::collections::HashMap;
use std::rc::Rc;

const MAIN: usize = 0x1000;
const FUNCTION_KEY: usize = 0x2000;
const UNREF_LIST: usize = 0x3000;
const AUX: usize = 0x4000;

/// A value of the machine. Errors are kept as what their `Debug` form says, and again as values.
#[derive(Clone, Debug, PartialEq, Eq, Hash)]
enum Slot {
    Nil,
    Boolean(bool),
    Light(usize),
    Integer(i64),
    Number(u64),
    Str(Vec<u8>),
    Table(usize),
    Function(usize),
    Native(u8),
    Thread(usize),
    UserData(usize),
    Wrapped(String),
}

/// A function of the machine.
#[derive(Clone, Debug)]
enum Code {
    /// Gives these integers back.
    Gives(Vec<i64>),
    /// Fails with this error.
    Fails(usize),
    /// Gives a name in the registry this integer, and takes a place in it.
    Sets(String, i64),
    /// Runs a callback that is boxed in a userdata.
    Runs(Slot),
}

fn number_of(routine: Routine) -> u8 {
    match routine {
        Routine::Pcall => 0,
        Routine::Xpcall => 1,
        Routine::SafePcall => 2,
        Routine::SafeXpcall => 3,
        Routine::CallCallback => 4,
        Routine::DestructCallback => 5,
    }
}

fn text(s: &str) -> Slot {
    Slot::Str(s.as_bytes().to_vec())
}

/// An item of an iterator: its key and its value, or the number of the error of its conversion.
type Item = (Result<Slot, usize>, Result<Slot, usize>);

#[derive(Default)]
struct Machine {
    stack: Vec<Slot>,
    limit: usize,
    aux: Vec<Slot>,
    aux_limit: usize,
    aux_top: usize,
    extra: Option<ExtraData>,
    registry: HashMap<Slot, Slot>,
    next_ref: i32,
    places: Vec<i32>,
    tables: Vec<HashMap<Slot, Slot>>,
    metatables: HashMap<Slot, Slot>,
    functions: Vec<Code>,
    boxed: Vec<Option<Callback>>,
    payloads: HashMap<usize, usize>,
    threads: HashMap<usize, Vec<Slot>>,
    next_object: usize,
    wrapped: HashMap<String, Error>,
    upvalue: Option<Slot>,
    pending: Option<usize>,
    methods: HashMap<u64, Vec<(u8, Vec<u8>, usize)>>,
    added: Vec<u64>,
    items: Vec<Item>,
    position: usize,
    unref: Option<Vec<i32>>,
    dropped_keys: Vec<i32>,
    hook: Option<(i32, i32)>,
    libraries: Vec<Library>,
    loaded: Vec<(Vec<u8>, Option<Vec<u8>>)>,
    called: Vec<Vec<Slot>>,
    results: Vec<Slot>,
    failing: Option<usize>,
    full: bool,
    checks: Vec<usize>,
    aux_full: bool,
    aux_checks: Vec<i32>,
    panics: Vec<String>,
    leaks: Vec<String>,
    closed: bool,
    errors_ready: bool,
}

impl Machine {
    fn new() -> Machine {
        let mut m = Machine::default();
        m.limit = LUA_MINSTACK as usize;
        m.aux_top = LUAI_MAXSTACK as usize;
        m.next_ref = 3;
        m.tables.push(HashMap::new());
        m.registry.insert(Slot::Integer(2), Slot::Table(0));
        m.unref = Some(Vec::new());
        m
    }

    fn push(&mut self, slot: Slot) {
        assert!(self.stack.len() < self.limit, "no room on the stack");
        self.stack.push(slot);
    }

    fn room(&self, n: usize) {
        assert!(self.stack.len() + n <= self.limit, "no room to work on the stack");
    }

    fn pop(&mut self) -> Slot {
        self.stack.pop().expect("nothing on the stack")
    }

    fn top(&self) -> Slot {
        self.stack.last().expect("nothing on the stack").clone()
    }

    fn object(&mut self) -> usize {
        self.next_object += 1;
        self.next_object
    }

    fn alone(&self) {
        assert!(self.extra.is_some(), "the extra data is taken out");
    }

    /// Answers an error if one is due.
    fn fails(&mut self) -> bool {
        match self.failing {
            Some(0) => {
                self.failing = None;
                true
            }
            Some(n) => {
                self.failing = Some(n - 1);
                false
            }
            None => false,
        }
    }

    fn put(table: &mut HashMap<Slot, Slot>, key: Slot, value: Slot) {
        if value == Slot::Nil {
            table.remove(&key);
        } else {
            table.insert(key, value);
        }
    }

    fn instr(&mut self, instr: Instr) -> Result<(), usize> {
        match instr {
            Instr::PushNil => self.push(Slot::Nil),
            Instr::PushBoolean(b) => self.push(Slot::Boolean(b)),
            Instr::PushLightUserData(p) => self.push(Slot::Light(p)),
            Instr::PushInteger(i) => self.push(Slot::Integer(i)),
            Instr::PushNumber(n) => self.push(Slot::Number(n)),
            Instr::PushName(name) => self.push(text(name.as_str())),
            Instr::PushCFunction(routine) => self.push(Slot::Native(number_of(routine))),
            Instr::PushCClosure(routine) => {
                assert_eq!(routine, Routine::CallCallback);
                let upvalue = self.pop();
                self.functions.push(Code::Runs(upvalue));
                let id = self.functions.len() - 1;
                self.push(Slot::Function(id));
            }
            Instr::NewTable => {
                self.tables.push(HashMap::new());
                let id = self.tables.len() - 1;
                self.push(Slot::Table(id));
            }
            Instr::NewThread => {
                let id = self.object();
                self.push(Slot::Thread(id));
            }
            Instr::Pop(n) => {
                for _ in 0..n {
                    self.pop();
                }
            }
            Instr::RawSet => {
                let value = self.pop();
                let key = self.pop();
                if key == Slot::Nil {
                    return Err(77);
                }
                match self.top() {
                    Slot::Table(id) => Machine::put(&mut self.tables[id], key, value),
                    other => panic!("{:?} is no table", other),
                }
            }
            Instr::RawSetRegistry => {
                let value = self.pop();
                let key = self.pop();
                Machine::put(&mut self.registry, key, value);
            }
            Instr::RawGetRegistry => {
                let key = self.pop();
                let value = self.registry.get(&key).cloned().unwrap_or(Slot::Nil);
                self.push(value);
            }
            Instr::RawGetI(i) => {
                let value = self.registry.get(&Slot::Integer(i)).cloned().unwrap_or(Slot::Nil);
                self.push(value);
            }
            Instr::SetMetatable => {
                let metatable = self.pop();
                let object = self.top();
                Machine::put(&mut self.metatables, object, metatable);
            }
            Instr::Ref => {
                self.reference();
            }
            Instr::Require(library) => {
                self.libraries.push(library);
                let module = if library == Library::Base {
                    self.tables[0].insert(text("pcall"), Slot::Native(0));
                    self.tables[0].insert(text("xpcall"), Slot::Native(1));
                    Slot::Table(0)
                } else {
                    self.tables.push(HashMap::new());
                    Slot::Table(self.tables.len() - 1)
                };
                self.tables[0].insert(text(library.as_str()), module.clone());
                if !self.registry.contains_key(&text("_LOADED")) {
                    self.tables.push(HashMap::new());
                    let loaded = Slot::Table(self.tables.len() - 1);
                    self.registry.insert(text("_LOADED"), loaded);
                }
                self.push(module);
            }
            Instr::InitErrorMetatables => self.errors_ready = true,
            Instr::AuxPushValue(thread, index) => {
                assert_eq!(thread, AUX);
                let value = self.aux[index as usize - 1].clone();
                self.push_aux(value);
            }
            Instr::AuxPushNil(thread) => {
                assert_eq!(thread, AUX);
                self.push_aux(Slot::Nil);
            }
            Instr::AuxReplace(thread, index) => {
                assert_eq!(thread, AUX);
                let value = self.aux.pop().expect("nothing on the auxiliary stack");
                let place = index as usize - 1;
                if place < self.aux.len() {
                    self.aux[place] = value;
                }
            }
            Instr::MoveToAux(thread) => {
                assert_eq!(thread, AUX);
                let value = self.pop();
                self.push_aux(value);
            }
            Instr::MoveFromAux(thread) => {
                assert_eq!(thread, AUX);
                let value = self.aux.pop().expect("nothing on the auxiliary stack");
                self.push(value);
            }
            Instr::MoveToThread(thread) => {
                let value = self.pop();
                self.threads.get_mut(&thread).expect("no such thread").push(value);
            }
        }
        Ok(())
    }

    fn push_aux(&mut self, slot: Slot) {
        assert!(self.aux.len() < self.aux_limit, "no room on the auxiliary stack");
        self.aux.push(slot);
    }

    fn reference(&mut self) -> i32 {
        let value = self.pop();
        if value == Slot::Nil {
            return -1;
        }
        // The places that were cleared are chained from place 0 on.
        let id = match self.registry.get(&Slot::Integer(0)) {
            Some(Slot::Integer(free)) if *free != 0 => *free as i32,
            _ => self.next_ref,
        };
        if id == self.next_ref {
            self.next_ref += 1;
        } else {
            let rest = self.registry.remove(&Slot::Integer(id as i64)).unwrap_or(Slot::Integer(0));
            self.registry.insert(Slot::Integer(0), rest);
        }
        self.registry.insert(Slot::Integer(id as i64), value);
        self.places.push(id);
        id
    }

    /// A program is a list of integers to return, a call of `fail` with the number of an error, or
    /// an assignment.
    fn parse(source: &[u8]) -> Option<Code> {
        let source = std::str::from_utf8(source).ok()?;
        if let Some(rest) = source.strip_prefix("return ") {
            if let Some(number) = rest.strip_prefix("fail ") {
                return Some(Code::Fails(number.parse().ok()?));
            }
            let mut values = Vec::new();
            for part in rest.split(',') {
                values.push(part.trim().parse().ok()?);
            }
            Some(Code::Gives(values))
        } else {
            let (name, value) = source.split_once('=')?;
            Some(Code::Sets(name.trim().to_string(), value.trim().parse().ok()?))
        }
    }

    /// What an item of an iterator, or a result, is to the library: a new reference for an object.
    fn value(&mut self, slot: Slot) -> Value {
        match slot {
            Slot::Nil => Value::Nil,
            Slot::Boolean(b) => Value::Boolean(b),
            Slot::Light(p) => Value::LightUserData(LightUserData(p)),
            Slot::Integer(i) => Value::Integer(i),
            Slot::Number(n) => Value::Number(n),
            Slot::Table(_) => {
                let extra = self.extra.as_mut().expect("the extra data is taken out");
                extra.ref_stack_max += 1;
                let index = extra.ref_stack_max;
                self.aux.push(slot);
                Value::Table(Table(LuaRef { main_state: MAIN, index }))
            }
            other => panic!("{:?} is not for a test", other),
        }
    }

    /// What a value is to the machine; a reference that it holds is given up.
    fn slot(&mut self, value: Value) -> Slot {
        match value {
            Value::Nil => Slot::Nil,
            Value::Boolean(b) => Slot::Boolean(b),
            Value::LightUserData(p) => Slot::Light(p.0),
            Value::Integer(i) => Slot::Integer(i),
            Value::Number(n) => Slot::Number(n),
            Value::String(s) => self.release(s.0.index),
            Value::Table(t) => self.release(t.0.index),
            Value::Function(f) => self.release(f.0.index),
            Value::Thread(t) => self.release(t.0.index),
            Value::UserData(u) => self.release(u.0.index),
            Value::Error(e) => Slot::Wrapped(format!("{:?}", e)),
        }
    }

    fn release(&mut self, index: i32) -> Slot {
        let place = index as usize - 1;
        let slot = std::mem::replace(&mut self.aux[place], Slot::Nil);
        self.extra.as_mut().expect("the extra data is taken out").ref_free.push(index);
        slot
    }

    fn run(&mut self, code: Code, args: Vec<Slot>) -> Reply {
        self.called.push(args);
        match code {
            Code::Gives(values) => {
                let mut results = MultiValue::new();
                for i in values {
                    results.push_back(Value::Integer(i));
                }
                Reply::Values(results)
            }
            Code::Fails(number) => Reply::Failed(Error::Other(number)),
            Code::Sets(name, value) => {
                self.registry.insert(text(&name), Slot::Integer(value));
                self.push(Slot::Integer(value));
                self.reference();
                Reply::Values(MultiValue::new())
            }
            Code::Runs(_) => panic!("callbacks are run by the library"),
        }
    }

    fn answer(&mut self, op: Op) -> Reply {
        match op {
            Op::ExtraData => Reply::Extra(self.extra.take().expect("the extra data is taken out")),
            Op::SetExtraData(extra) => {
                assert!(self.extra.is_none());
                self.extra = Some(extra);
                Reply::Done
            }
            Op::Panic(message) => {
                self.panics.push(message.to_string());
                Reply::Done
            }
            Op::DebugPanic(message) => {
                self.leaks.push(message.to_string());
                Reply::Done
            }
            Op::StackGuard | Op::GetTop => Reply::Count(self.stack.len()),
            Op::EndStackGuard(n) => {
                assert!(self.stack.len() >= n, "the stack was cut too far");
                self.stack.truncate(n);
                Reply::Done
            }
            Op::AssertStack(n) => {
                self.limit = self.limit.max(self.stack.len() + n);
                Reply::Done
            }
            Op::CheckStack(n) => {
                self.checks.push(n);
                if self.full {
                    return Reply::Failed(Error::Other(99));
                }
                self.limit = self.limit.max(self.stack.len() + n);
                Reply::Done
            }
            Op::Do(instr) => {
                self.instr(instr).expect("an unprotected error");
                Reply::Done
            }
            Op::Protect(args, body) => {
                self.alone();
                let below = self.stack.len() - args;
                if self.fails() {
                    self.stack.truncate(below);
                    return Reply::Failed(Error::Other(88));
                }
                for instr in body {
                    if let Err(number) = self.instr(instr) {
                        self.stack.truncate(below);
                        return Reply::Failed(Error::Other(number));
                    }
                }
                Reply::Done
            }
            Op::Boot(body) => {
                if self.fails() {
                    return Reply::Failed(Error::Other(88));
                }
                for instr in body {
                    self.instr(instr).expect("an error while booting");
                }
                self.aux_limit = LUA_MINSTACK as usize;
                Reply::Thread(AUX)
            }
            Op::NewThread => {
                self.alone();
                if self.fails() {
                    return Reply::Failed(Error::Other(88));
                }
                let id = self.object();
                self.threads.insert(id, Vec::new());
                self.push(Slot::Thread(id));
                Reply::Thread(id)
            }
            Op::PushString(bytes) => {
                self.alone();
                if self.fails() {
                    return Reply::Failed(Error::Other(88));
                }
                self.push(Slot::Str(bytes));
                Reply::Done
            }
            Op::PushWrappedError(error) => {
                self.room(2);
                let key = format!("{:?}", error);
                self.wrapped.insert(key.clone(), error);
                self.push(Slot::Wrapped(key));
                Reply::Done
            }
            Op::PushCallback(callback) => {
                self.alone();
                if self.fails() {
                    return Reply::Failed(Error::Other(88));
                }
                let id = self.object();
                while self.boxed.len() <= id {
                    self.boxed.push(None);
                }
                self.boxed[id] = Some(callback);
                self.push(Slot::UserData(id));
                Reply::Done
            }
            Op::PushUserData(payload) => {
                self.alone();
                if self.fails() {
                    return Reply::Failed(Error::Other(88));
                }
                let id = self.object();
                self.payloads.insert(id, payload);
                self.push(Slot::UserData(id));
                Reply::Done
            }
            Op::InitUserdataMetatable(members) => {
                self.alone();
                if self.fails() {
                    return Reply::Failed(Error::Other(88));
                }
                let height = self.stack.len();
                if members {
                    let table = self.stack[height - 1].clone();
                    match self.stack[height - 2].clone() {
                        Slot::Table(id) => self.tables[id].insert(text("__index"), table),
                        other => panic!("{:?} is no table", other),
                    };
                } else {
                    assert!(matches!(self.stack[height - 1], Slot::Table(_)));
                }
                Reply::Done
            }
            Op::AddMethods(kind) => {
                self.added.push(kind);
                let mut methods = StaticUserDataMethods::default();
                for (how, name, number) in self.methods.get(&kind).cloned().unwrap_or_default() {
                    match how {
                        0 => methods.add_method(name, number),
                        1 => methods.add_method_mut(name, number),
                        2 => methods.add_function(name, number),
                        3 => methods.add_function_mut(name, number),
                        _ => methods.add_meta_method(MetaMethod { name }, number),
                    }
                }
                Reply::Methods(methods)
            }
            Op::LoadBuffer(source, name) => {
                self.loaded.push((source.clone(), name));
                match Machine::parse(&source) {
                    Some(code) => {
                        self.functions.push(code);
                        let id = self.functions.len() - 1;
                        self.push(Slot::Function(id));
                        Reply::Status(0)
                    }
                    None => {
                        self.pending = Some(source.len());
                        self.push(text("syntax error"));
                        Reply::Status(3)
                    }
                }
            }
            Op::PopError(status) => {
                assert_eq!(status, 3);
                self.pop();
                Reply::Raised(Error::Other(self.pending.take().expect("no error is pending")))
            }
            Op::Type => Reply::Int(match self.stack.last() {
                None => -1,
                Some(Slot::Nil) => 0,
                Some(Slot::Boolean(_)) => 1,
                Some(Slot::Light(_)) => 2,
                Some(Slot::Integer(_)) | Some(Slot::Number(_)) => 3,
                Some(Slot::Str(_)) => 4,
                Some(Slot::Table(_)) => 5,
                Some(Slot::Function(_)) | Some(Slot::Native(_)) => 6,
                Some(Slot::UserData(_)) | Some(Slot::Wrapped(_)) => 7,
                Some(Slot::Thread(_)) => 8,
            }),
            Op::UpvalueType => Reply::Int(match self.upvalue {
                Some(Slot::UserData(_)) => 7,
                _ => 0,
            }),
            Op::ToBoolean => Reply::Int(match self.top() {
                Slot::Nil | Slot::Boolean(false) => 0,
                _ => 1,
            }),
            Op::IsInteger => Reply::Int(if matches!(self.top(), Slot::Integer(_)) { 1 } else { 0 }),
            Op::ToInteger => match self.top() {
                Slot::Integer(i) => Reply::Integer(i),
                other => panic!("{:?} is no integer", other),
            },
            Op::ToNumber => match self.top() {
                Slot::Number(n) => Reply::Number(n),
                other => panic!("{:?} is no number", other),
            },
            Op::ToUserData => match self.top() {
                Slot::Light(p) => Reply::Address(p),
                other => panic!("{:?} is no light userdata", other),
            },
            Op::GetWrappedError => {
                self.room(2);
                match self.top() {
                    Slot::Wrapped(key) => Reply::Wrapped(self.wrapped.get(&key).cloned()),
                    _ => Reply::Wrapped(None),
                }
            }
            Op::ToStringValue => match self.top() {
                Slot::Str(_) => Reply::Flag(true),
                Slot::Integer(i) => {
                    self.pop();
                    self.push(text(&i.to_string()));
                    Reply::Flag(true)
                }
                Slot::Number(n) => {
                    self.pop();
                    self.push(text(&format!("{:?}", f64::from_bits(n))));
                    Reply::Flag(true)
                }
                _ => Reply::Flag(false),
            },
            Op::ToIntegerX => match self.top() {
                Slot::Integer(i) => Reply::IntegerX(i, 1),
                Slot::Number(n) => {
                    let f = f64::from_bits(n);
                    if f == f.trunc() {
                        Reply::IntegerX(f as i64, 1)
                    } else {
                        Reply::IntegerX(0, 0)
                    }
                }
                Slot::Str(s) => match String::from_utf8(s).expect("a text").parse() {
                    Ok(i) => Reply::IntegerX(i, 1),
                    Err(_) => Reply::IntegerX(0, 0),
                },
                _ => Reply::IntegerX(0, 0),
            },
            Op::ToNumberX => match self.top() {
                Slot::Integer(i) => Reply::NumberX((i as f64).to_bits(), 1),
                Slot::Number(n) => Reply::NumberX(n, 1),
                Slot::Str(s) => match String::from_utf8(s).expect("a text").parse::<f64>() {
                    Ok(f) => Reply::NumberX(f.to_bits(), 1),
                    Err(_) => Reply::NumberX(0, 0),
                },
                _ => Reply::NumberX(0, 0),
            },
            Op::Ref => Reply::Int(self.reference()),
            Op::Unref(id) => {
                if id >= 0 {
                    let given = self.places.iter().position(|place| *place == id);
                    self.places.remove(given.expect("the place is not given out"));
                    match self.registry.insert(Slot::Integer(0), Slot::Integer(id as i64)) {
                        Some(free) => self.registry.insert(Slot::Integer(id as i64), free),
                        None => self.registry.remove(&Slot::Integer(id as i64)),
                    };
                }
                Reply::Done
            }
            Op::ReplaceUnrefList => {
                let list = self.unref.take();
                if list.is_some() {
                    self.unref = Some(Vec::new());
                }
                Reply::List(list)
            }
            Op::CloseUnrefList => {
                self.unref = None;
                Reply::Done
            }
            Op::DropKey(key) => {
                self.dropped_keys.push(key.registry_id);
                Reply::Done
            }
            Op::AuxCheckStack(thread, n) => {
                assert_eq!(thread, AUX);
                self.aux_checks.push(n);
                if self.aux_full || self.aux.len() + n as usize > self.aux_top {
                    return Reply::Int(0);
                }
                self.aux_limit = self.aux_limit.max(self.aux.len() + n as usize);
                Reply::Int(1)
            }
            Op::AuxGetTop(thread) => {
                assert_eq!(thread, AUX);
                Reply::Int(self.aux.len() as i32)
            }
            Op::Call(index, mut args) => {
                self.alone();
                let mut slots = Vec::new();
                while let Some(value) = args.pop_front() {
                    slots.push(self.slot(value));
                }
                match self.aux[index as usize - 1].clone() {
                    Slot::Function(id) => {
                        let code = self.functions[id].clone();
                        self.run(code, slots)
                    }
                    other => panic!("{:?} is no function", other),
                }
            }
            Op::Invoke(mut args) => {
                self.alone();
                let mut slots = Vec::new();
                while let Some(value) = args.pop_front() {
                    slots.push(self.slot(value));
                }
                self.called.push(slots);
                if self.fails() {
                    return Reply::Failed(Error::Other(66));
                }
                let mut results = MultiValue::new();
                for slot in self.results.clone() {
                    let value = self.value(slot);
                    results.push_back(value);
                }
                Reply::Values(results)
            }
            Op::NextItem => {
                self.alone();
                self.position += 1;
                Reply::Flag(self.position <= self.items.len())
            }
            Op::ItemKey => match self.items[self.position - 1].0.clone() {
                Ok(slot) => Reply::Value(self.value(slot)),
                Err(number) => Reply::Failed(Error::Other(number)),
            },
            Op::ItemValue => match self.items[self.position - 1].1.clone() {
                Ok(slot) => Reply::Value(self.value(slot)),
                Err(number) => Reply::Failed(Error::Other(number)),
            },
            Op::IndexToLua(position) => Reply::Value(Value::Integer(position as i64)),
            Op::SetHook(mask, count) => {
                self.hook = Some((mask, count));
                Reply::Done
            }
            Op::ClearHook => {
                self.hook = None;
                Reply::Done
            }
            Op::Close => {
                self.closed = true;
                Reply::Done
            }
        }
    }

    /// The number of references that are held.
    fn held(&self) -> usize {
        let extra = self.extra.as_ref().expect("the extra data is taken out");
        extra.ref_stack_max as usize - extra.ref_free.len()
    }

    fn named(&self, name: &str) -> Option<Slot> {
        self.registry.get(&text(name)).cloned()
    }

    fn pinned(&self, lref: &LuaRef) -> Slot {
        self.aux[lref.index as usize - 1].clone()
    }
}

type Shared = Rc<RefCell<Machine>>;

fn driver(machine: &Shared) -> impl Fn(Op) -> Reply {
    let machine = machine.clone();
    move |op| machine.borrow_mut().answer(op)
}

fn start() -> (Shared, Lua<impl Fn(Op) -> Reply>) {
    let machine = Rc::new(RefCell::new(Machine::new()));
    let lua = Lua::new(driver(&machine), MAIN, FUNCTION_KEY, UNREF_LIST);
    (machine, lua)
}

fn integers(mut values: MultiValue) -> Vec<i64> {
    let mut r = Vec::new();
    while let Some(value) = values.pop_front() {
        match value {
            Value::Integer(i) => r.push(i),
            other => panic!("{:?} is no integer", other),
        }
    }
    r
}

/// Each operation ends with an empty stack, the extra data in its place, and so many references.
fn at_rest(machine: &Shared, held: usize) {
    let m = machine.borrow();
    assert_eq!(m.stack.len(), 0);
    assert_eq!(m.held(), held);
    assert!(m.panics.is_empty());
    for index in m.extra.as_ref().unwrap().ref_free.iter() {
        assert_eq!(m.aux[*index as usize - 1], Slot::Nil);
    }
}

#[test]
fn new_state_has_the_standard_libraries() {
    let (machine, _lua) = start();
    let m = machine.borrow();
    assert_eq!(
        m.libraries,
        vec![
            Library::Base,
            Library::Coroutine,
            Library::Table,
            Library::Io,
            Library::Os,
            Library::Str,
            Library::Utf8,
            Library::Math,
            Library::Package,
        ]
    );
    assert!(m.errors_ready);
    assert_eq!(m.stack.len(), 0);
    assert!(m.panics.is_empty());
    for name in ["_G", "coroutine", "table", "io", "os", "string", "utf8", "math", "package"] {
        assert!(matches!(m.tables[0].get(&text(name)), Some(Slot::Table(_))), "{}", name);
    }
    assert!(m.tables[0].get(&text("debug")).is_none());
}

#[test]
fn new_state_cannot_catch_rust_panics() {
    let (machine, _lua) = start();
    let m = machine.borrow();
    let safe_pcall = Slot::Native(number_of(Routine::SafePcall));
    let safe_xpcall = Slot::Native(number_of(Routine::SafeXpcall));
    assert_eq!(m.tables[0].get(&text(Name::Pcall.as_str())), Some(&safe_pcall));
    assert_eq!(m.tables[0].get(&text(Name::Xpcall.as_str())), Some(&safe_xpcall));
}

#[test]
fn new_state_has_the_metatable_of_callbacks() {
    let (machine, _lua) = start();
    let m = machine.borrow();
    match m.registry.get(&Slot::Light(FUNCTION_KEY)) {
        Some(Slot::Table(id)) => {
            let table = &m.tables[*id];
            let destructor = Slot::Native(number_of(Routine::DestructCallback));
            assert_eq!(table.len(), 2);
            assert_eq!(table.get(&text("__gc")), Some(&destructor));
            assert_eq!(table.get(&text("__metatable")), Some(&Slot::Boolean(false)));
        }
        other => panic!("{:?} is no table", other),
    }
}

#[test]
fn new_state_has_fresh_extra_data() {
    let (machine, lua) = start();
    assert_eq!(lua.main_state(), MAIN);
    let m = machine.borrow();
    let extra = m.extra.as_ref().unwrap();
    assert_eq!(extra.ref_thread, AUX);
    assert_eq!(extra.registry_unref_list, UNREF_LIST);
    assert_eq!(extra.ref_stack_size, 19);
    assert_eq!(extra.ref_stack_max, 0);
    assert!(extra.ref_free.is_empty());
    assert!(extra.registered_userdata.is_empty());
    assert!(extra.hook_callback.is_none());
}

#[test]
fn new_state_keeps_the_auxiliary_thread() {
    let (machine, _lua) = start();
    let m = machine.borrow();
    assert!(matches!(m.registry.get(&Slot::Integer(3)), Some(Slot::Thread(_))));
    assert_eq!(m.next_ref, 4);
    assert_eq!(m.unref, Some(Vec::new()));
    assert!(m.limit >= LUA_MINSTACK as usize);
}

#[test]
fn new_state_with_debug_has_the_debug_library_last() {
    let machine = Rc::new(RefCell::new(Machine::new()));
    let _lua = Lua::new_with_debug(driver(&machine), MAIN, FUNCTION_KEY, UNREF_LIST);
    let m = machine.borrow();
    assert_eq!(m.libraries.len(), 10);
    assert_eq!(m.libraries[9], Library::Debug);
    assert!(matches!(m.tables[0].get(&text("debug")), Some(Slot::Table(_))));
}

#[test]
fn failed_construction_panics() {
    let machine = Rc::new(RefCell::new(Machine::new()));
    machine.borrow_mut().failing = Some(0);
    let _lua = Lua::new(driver(&machine), MAIN, FUNCTION_KEY, UNREF_LIST);
    assert_eq!(machine.borrow().panics, vec!["Error during Lua construction".to_string()]);
}

#[test]
fn load_hands_source_and_name_over() {
    let (machine, mut lua) = start();
    let f = lua.load("return 1".as_bytes(), Some("chunk")).unwrap();
    assert!(matches!(machine.borrow().pinned(&f.0), Slot::Function(_)));
    assert_eq!(
        machine.borrow().loaded,
        vec![("return 1".as_bytes().to_vec(), Some("chunk".as_bytes().to_vec()))]
    );
    at_rest(&machine, 1);
    lua.drop_ref(f.0);
    at_rest(&machine, 0);
}

#[test]
fn load_without_a_name_has_none() {
    let (machine, mut lua) = start();
    let f = lua.load("x = 1".as_bytes(), None).unwrap();
    assert_eq!(machine.borrow().loaded[0].1, None);
    lua.drop_ref(f.0);
    at_rest(&machine, 0);
}

#[test]
fn load_reports_a_syntax_error() {
    let (machine, mut lua) = start();
    let e = lua.load("nonsense".as_bytes(), None).unwrap_err();
    assert!(matches!(e, Error::Other(8)));
    at_rest(&machine, 0);
}

#[test]
fn load_refuses_a_name_with_a_null_byte() {
    let (machine, mut lua) = start();
    match lua.load("return 1".as_bytes(), Some("abc\0def\0")) {
        Err(Error::ToLuaConversionError { from, to, message }) => {
            assert_eq!(from, "&str");
            assert_eq!(to, "string");
            assert_eq!(
                message,
                Some("nul byte found in provided data at position: 3".to_string())
            );
        }
        other => panic!("{:?}", other),
    }
    assert!(machine.borrow().loaded.is_empty());
    at_rest(&machine, 0);
}

#[test]
fn load_names_the_place_of_a_late_null_byte() {
    let (machine, mut lua) = start();
    let name = format!("{}\0", "x".repeat(1207));
    match lua.load("return 1".as_bytes(), Some(&name)) {
        Err(Error::ToLuaConversionError { message, .. }) => {
            assert_eq!(
                message,
                Some("nul byte found in provided data at position: 1207".to_string())
            );
        }
        other => panic!("{:?}", other),
    }
    at_rest(&machine, 0);
}

#[test]
fn what_is_loaded_is_taken_by_its_status() {
    let (machine, mut lua) = start();
    machine.borrow_mut().answer(Op::LoadBuffer("return 7".as_bytes().to_vec(), None));
    let f = lua.take_loaded(0).unwrap();
    assert!(matches!(machine.borrow().pinned(&f.0), Slot::Function(_)));
    lua.drop_ref(f.0);
    machine.borrow_mut().answer(Op::LoadBuffer("four".as_bytes().to_vec(), None));
    assert!(matches!(lua.take_loaded(3), Err(Error::Other(4))));
    at_rest(&machine, 0);
}

#[test]
fn exec_gives_what_the_chunk_returns() {
    let (machine, mut lua) = start();
    let values = lua.exec("return 1, 2, 3".as_bytes(), None).unwrap();
    assert_eq!(integers(values), vec![1, 2, 3]);
    assert_eq!(machine.borrow().called, vec![Vec::new()]);
    at_rest(&machine, 0);
}

#[test]
fn exec_gives_the_error_of_the_chunk() {
    let (machine, mut lua) = start();
    let e = lua.exec("return fail 41".as_bytes(), None).unwrap_err();
    assert!(matches!(e, Error::Other(41)));
    at_rest(&machine, 0);
    let e = lua.exec("no".as_bytes(), None).unwrap_err();
    assert!(matches!(e, Error::Other(2)));
    assert_eq!(machine.borrow().called.len(), 1);
    at_rest(&machine, 0);
}

#[test]
fn exec_is_load_and_call() {
    let (machine, mut lua) = start();
    let first = integers(lua.exec("return 7".as_bytes(), None).unwrap());
    let f = lua.load("return 7".as_bytes(), None).unwrap();
    let second = match machine.borrow_mut().answer(Op::Call(f.0.index, MultiValue::new())) {
        Reply::Values(values) => integers(values),
        other => panic!("{:?}", other),
    };
    assert_eq!(first, second);
    lua.drop_ref(f.0);
    at_rest(&machine, 0);
}

#[test]
fn eval_takes_an_expression() {
    let (machine, mut lua) = start();
    assert_eq!(integers(lua.eval("4, 5".as_bytes(), None).unwrap()), vec![4, 5]);
    assert_eq!(machine.borrow().loaded.len(), 1);
    assert_eq!(machine.borrow().loaded[0].0, "return 4, 5".as_bytes().to_vec());
    at_rest(&machine, 0);
}

#[test]
fn eval_takes_a_statement() {
    let (machine, mut lua) = start();
    assert_eq!(integers(lua.eval("x = 5".as_bytes(), Some("n")).unwrap()), Vec::<i64>::new());
    let m = machine.borrow();
    assert_eq!(m.loaded.len(), 2);
    assert_eq!(m.loaded[0].0, "return x = 5".as_bytes().to_vec());
    assert_eq!(m.loaded[1].0, "x = 5".as_bytes().to_vec());
    assert_eq!(m.loaded[1].1, Some("n".as_bytes().to_vec()));
    assert_eq!(m.called.len(), 1);
}

#[test]
fn eval_gives_the_error_of_the_statement() {
    let (machine, mut lua) = start();
    // The error of the machine is the length of the source.
    let e = lua.eval("bad".as_bytes(), None).unwrap_err();
    assert!(matches!(e, Error::Other(3)));
    assert!(machine.borrow().called.is_empty());
    at_rest(&machine, 0);
}

#[test]
fn eval_refuses_a_name_with_a_null_byte() {
    let (machine, mut lua) = start();
    let e = lua.eval("1".as_bytes(), Some("\0")).unwrap_err();
    assert!(matches!(e, Error::ToLuaConversionError { .. }));
    assert!(machine.borrow().loaded.is_empty());
    at_rest(&machine, 0);
}

#[test]
fn create_string_keeps_null_bytes() {
    let (machine, mut lua) = start();
    let s = lua.create_string(&[1, 0, 255]).unwrap();
    assert_eq!(machine.borrow().pinned(&s.0), Slot::Str(vec![1, 0, 255]));
    assert_eq!(s.0.main_state, MAIN);
    at_rest(&machine, 1);
}

#[test]
fn create_string_can_fail() {
    let (machine, mut lua) = start();
    machine.borrow_mut().failing = Some(0);
    assert!(matches!(lua.create_string(&[1]), Err(Error::Other(88))));
    at_rest(&machine, 0);
}

#[test]
fn create_table_makes_empty_tables() {
    let (machine, mut lua) = start();
    let a = lua.create_table().unwrap();
    let b = lua.create_table().unwrap();
    let m = machine.borrow();
    match (m.pinned(&a.0), m.pinned(&b.0)) {
        (Slot::Table(a), Slot::Table(b)) => {
            assert_ne!(a, b);
            assert!(m.tables[a].is_empty());
            assert!(m.tables[b].is_empty());
        }
        other => panic!("{:?}", other),
    }
}

#[test]
fn create_table_can_fail() {
    let (machine, mut lua) = start();
    machine.borrow_mut().failing = Some(0);
    assert!(matches!(lua.create_table(), Err(Error::Other(88))));
    at_rest(&machine, 0);
}

fn table_of(machine: &Shared, t: &Table) -> HashMap<Slot, Slot> {
    let m = machine.borrow();
    match m.pinned(&t.0) {
        Slot::Table(id) => m.tables[id].clone(),
        other => panic!("{:?} is no table", other),
    }
}

#[test]
fn create_table_from_stores_the_items() {
    let (machine, mut lua) = start();
    machine.borrow_mut().items = vec![
        (Ok(Slot::Integer(1)), Ok(Slot::Boolean(true))),
        (Ok(Slot::Light(9)), Ok(Slot::Integer(8))),
    ];
    let t = lua.create_table_from().unwrap();
    let table = table_of(&machine, &t);
    assert_eq!(table.len(), 2);
    assert_eq!(table[&Slot::Integer(1)], Slot::Boolean(true));
    assert_eq!(table[&Slot::Light(9)], Slot::Integer(8));
    at_rest(&machine, 1);
}

#[test]
fn create_table_from_lets_the_last_item_win() {
    let (machine, mut lua) = start();
    machine.borrow_mut().items = vec![
        (Ok(Slot::Integer(1)), Ok(Slot::Integer(10))),
        (Ok(Slot::Integer(2)), Ok(Slot::Integer(20))),
        (Ok(Slot::Integer(1)), Ok(Slot::Integer(11))),
        (Ok(Slot::Integer(2)), Ok(Slot::Nil)),
    ];
    let t = lua.create_table_from().unwrap();
    let table = table_of(&machine, &t);
    assert_eq!(table.len(), 1);
    assert_eq!(table[&Slot::Integer(1)], Slot::Integer(11));
}

#[test]
fn create_table_from_nothing_is_empty() {
    let (machine, mut lua) = start();
    let t = lua.create_table_from().unwrap();
    assert!(table_of(&machine, &t).is_empty());
    at_rest(&machine, 1);
}

#[test]
fn create_table_from_moves_handles_into_the_table() {
    let (machine, mut lua) = start();
    machine.borrow_mut().items = vec![(Ok(Slot::Integer(1)), Ok(Slot::Table(0)))];
    let t = lua.create_table_from().unwrap();
    assert_eq!(table_of(&machine, &t)[&Slot::Integer(1)], Slot::Table(0));
    at_rest(&machine, 1);
}

#[test]
fn create_table_from_stops_at_a_key_that_cannot_be_converted() {
    let (machine, mut lua) = start();
    machine.borrow_mut().items = vec![
        (Ok(Slot::Integer(1)), Ok(Slot::Integer(1))),
        (Err(5), Ok(Slot::Integer(1))),
        (Ok(Slot::Integer(1)), Ok(Slot::Integer(1))),
    ];
    assert!(matches!(lua.create_table_from(), Err(Error::Other(5))));
    assert_eq!(machine.borrow().position, 2);
    at_rest(&machine, 0);
}

#[test]
fn create_table_from_stops_at_a_value_that_cannot_be_converted() {
    let (machine, mut lua) = start();
    machine.borrow_mut().items = vec![(Ok(Slot::Table(0)), Err(6))];
    assert!(matches!(lua.create_table_from(), Err(Error::Other(6))));
    at_rest(&machine, 0);
}

#[test]
fn create_table_from_stops_at_a_key_that_is_nil() {
    let (machine, mut lua) = start();
    machine.borrow_mut().items = vec![(Ok(Slot::Nil), Ok(Slot::Integer(1)))];
    assert!(matches!(lua.create_table_from(), Err(Error::Other(77))));
    at_rest(&machine, 0);
}

#[test]
fn create_table_from_needs_room() {
    let (machine, mut lua) = start();
    machine.borrow_mut().full = true;
    assert!(matches!(lua.create_table_from(), Err(Error::Other(99))));
    at_rest(&machine, 0);
}

#[test]
fn create_sequence_from_counts_from_one() {
    let (machine, mut lua) = start();
    machine.borrow_mut().items = vec![
        (Err(0), Ok(Slot::Integer(30))),
        (Err(0), Ok(Slot::Integer(20))),
        (Err(0), Ok(Slot::Integer(10))),
    ];
    let t = lua.create_sequence_from().unwrap();
    let table = table_of(&machine, &t);
    assert_eq!(table.len(), 3);
    assert_eq!(table[&Slot::Integer(1)], Slot::Integer(30));
    assert_eq!(table[&Slot::Integer(2)], Slot::Integer(20));
    assert_eq!(table[&Slot::Integer(3)], Slot::Integer(10));
    at_rest(&machine, 1);
}

#[test]
fn globals_is_the_table_of_globals() {
    let (machine, mut lua) = start();
    let t = lua.globals();
    assert_eq!(machine.borrow().pinned(&t.0), Slot::Table(0));
    at_rest(&machine, 1);
}

#[test]
fn create_thread_moves_the_function() {
    let (machine, mut lua) = start();
    let f = lua.load("return 1".as_bytes(), None).unwrap();
    let body = machine.borrow().pinned(&f.0);
    let t = lua.create_thread(f).unwrap();
    match machine.borrow().pinned(&t.0) {
        Slot::Thread(id) => assert_eq!(machine.borrow().threads[&id], vec![body]),
        other => panic!("{:?} is no thread", other),
    }
    at_rest(&machine, 1);
}

#[test]
fn create_thread_can_fail() {
    let (machine, mut lua) = start();
    let f = lua.load("return 1".as_bytes(), None).unwrap();
    machine.borrow_mut().failing = Some(0);
    assert!(matches!(lua.create_thread(f), Err(Error::Other(88))));
    at_rest(&machine, 0);
}

#[test]
fn coerce_string_takes_numbers() {
    let (machine, mut lua) = start();
    let s = lua.coerce_string(Value::Integer(-12)).unwrap();
    assert_eq!(machine.borrow().pinned(&s.0), text("-12"));
    let s = lua.coerce_string(Value::Number(1.5f64.to_bits())).unwrap();
    assert_eq!(machine.borrow().pinned(&s.0), text("1.5"));
    at_rest(&machine, 2);
}

#[test]
fn coerce_string_leaves_strings_alone() {
    let (machine, mut lua) = start();
    let s = lua.create_string("abc".as_bytes()).unwrap();
    let index = s.0.index;
    let again = lua.coerce_string(Value::String(s)).unwrap();
    assert_eq!(again.0.index, index);
    at_rest(&machine, 1);
}

#[test]
fn coerce_string_refuses_the_rest() {
    let (machine, mut lua) = start();
    assert!(lua.coerce_string(Value::Nil).is_none());
    assert!(lua.coerce_string(Value::Boolean(true)).is_none());
    let t = lua.create_table().unwrap();
    assert!(lua.coerce_string(Value::Table(t)).is_none());
    at_rest(&machine, 0);
}

#[test]
fn coerce_integer_takes_exact_numbers_and_strings() {
    let (machine, mut lua) = start();
    assert_eq!(lua.coerce_integer(Value::Integer(3)), Some(3));
    assert_eq!(lua.coerce_integer(Value::Number(4.0f64.to_bits())), Some(4));
    assert_eq!(lua.coerce_integer(Value::Number(4.5f64.to_bits())), None);
    let s = lua.create_string("17".as_bytes()).unwrap();
    assert_eq!(lua.coerce_integer(Value::String(s)), Some(17));
    let s = lua.create_string("x".as_bytes()).unwrap();
    assert_eq!(lua.coerce_integer(Value::String(s)), None);
    assert_eq!(lua.coerce_integer(Value::Nil), None);
    at_rest(&machine, 0);
}

#[test]
fn coerce_number_takes_numbers_and_strings() {
    let (machine, mut lua) = start();
    assert_eq!(lua.coerce_number(Value::Number(7)), Some(7));
    assert_eq!(lua.coerce_number(Value::Integer(2)), Some(2.0f64.to_bits()));
    let s = lua.create_string("2.5".as_bytes()).unwrap();
    assert_eq!(lua.coerce_number(Value::String(s)), Some(2.5f64.to_bits()));
    assert_eq!(lua.coerce_number(Value::Boolean(false)), None);
    at_rest(&machine, 0);
}

#[test]
fn named_registry_values_come_back() {
    let (machine, mut lua) = start();
    lua.set_named_registry_value("a", Ok(Value::Integer(1))).unwrap();
    lua.set_named_registry_value("b", Ok(Value::Integer(2))).unwrap();
    lua.set_named_registry_value("a", Ok(Value::Integer(3))).unwrap();
    assert!(matches!(lua.named_registry_value("a"), Ok(Value::Integer(3))));
    assert!(matches!(lua.named_registry_value("b"), Ok(Value::Integer(2))));
    assert!(matches!(lua.named_registry_value("c"), Ok(Value::Nil)));
    at_rest(&machine, 0);
}

#[test]
fn names_are_nil_until_they_are_set() {
    let (machine, mut lua) = start();
    lua.exec("b = 4".as_bytes(), None).unwrap();
    let _key = lua.create_registry_value(Ok(Value::Integer(1))).unwrap();
    assert!(matches!(lua.named_registry_value("a"), Ok(Value::Nil)));
    // The libraries of Lua keep the modules that were loaded under a name.
    assert!(matches!(lua.named_registry_value("_LOADED"), Ok(Value::Table(_))));
    lua.set_named_registry_value("_LOADED", Ok(Value::Integer(5))).unwrap();
    assert!(matches!(lua.named_registry_value("_LOADED"), Ok(Value::Integer(5))));
    lua.unset_named_registry_value("_LOADED").unwrap();
    assert!(matches!(lua.named_registry_value("_LOADED"), Ok(Value::Nil)));
    at_rest(&machine, 1);
}

#[test]
fn unset_named_registry_value_is_nil() {
    let (machine, mut lua) = start();
    lua.set_named_registry_value("a", Ok(Value::Boolean(true))).unwrap();
    lua.set_named_registry_value("b", Ok(Value::Boolean(true))).unwrap();
    lua.unset_named_registry_value("a").unwrap();
    assert!(matches!(lua.named_registry_value("a"), Ok(Value::Nil)));
    assert!(matches!(lua.named_registry_value("b"), Ok(Value::Boolean(true))));
    assert_eq!(machine.borrow().named("a"), None);
    lua.set_named_registry_value("b", Ok(Value::Nil)).unwrap();
    assert_eq!(machine.borrow().named("b"), None);
    at_rest(&machine, 0);
}

#[test]
fn named_registry_value_passes_a_conversion_error_on() {
    let (machine, mut lua) = start();
    let r = lua.set_named_registry_value("a", Err(Error::Other(12)));
    assert!(matches!(r, Err(Error::Other(12))));
    assert_eq!(machine.borrow().named("a"), None);
}

#[test]
fn named_registry_values_can_fail() {
    let (machine, mut lua) = start();
    let t = lua.create_table().unwrap();
    machine.borrow_mut().failing = Some(0);
    let r = lua.set_named_registry_value("a", Ok(Value::Table(t)));
    assert!(matches!(r, Err(Error::Other(88))));
    at_rest(&machine, 0);
    let t = lua.create_table().unwrap();
    machine.borrow_mut().failing = Some(1);
    let r = lua.set_named_registry_value("a", Ok(Value::Table(t)));
    assert!(matches!(r, Err(Error::Other(88))));
    at_rest(&machine, 0);
    machine.borrow_mut().failing = Some(0);
    assert!(matches!(lua.named_registry_value("a"), Err(Error::Other(88))));
    machine.borrow_mut().failing = Some(1);
    assert!(matches!(lua.named_registry_value("a"), Err(Error::Other(88))));
    at_rest(&machine, 0);
}

#[test]
fn every_kind_of_value_comes_back() {
    let (machine, mut lua) = start();
    lua.set_named_registry_value("v", Ok(Value::Boolean(false))).unwrap();
    assert!(matches!(lua.named_registry_value("v"), Ok(Value::Boolean(false))));
    lua.set_named_registry_value("v", Ok(Value::LightUserData(LightUserData(64)))).unwrap();
    match lua.named_registry_value("v") {
        Ok(Value::LightUserData(p)) => assert_eq!(p.0, 64),
        other => panic!("{:?}", other),
    }
    lua.set_named_registry_value("v", Ok(Value::Number(5))).unwrap();
    assert!(matches!(lua.named_registry_value("v"), Ok(Value::Number(5))));
    lua.set_named_registry_value("v", Ok(Value::Error(Error::CallbackDestructed))).unwrap();
    match lua.named_registry_value("v") {
        Ok(Value::Error(Error::CallbackDestructed)) => {}
        other => panic!("{:?}", other),
    }
    let s = lua.create_string("s".as_bytes()).unwrap();
    lua.set_named_registry_value("v", Ok(Value::String(s))).unwrap();
    match lua.named_registry_value("v") {
        Ok(Value::String(s)) => assert_eq!(machine.borrow().pinned(&s.0), text("s")),
        other => panic!("{:?}", other),
    }
    let t = lua.globals();
    lua.set_named_registry_value("v", Ok(Value::Table(t))).unwrap();
    match lua.named_registry_value("v") {
        Ok(Value::Table(t)) => assert_eq!(machine.borrow().pinned(&t.0), Slot::Table(0)),
        other => panic!("{:?}", other),
    }
    let f = lua.create_function(1).unwrap();
    let slot = machine.borrow().pinned(&f.0);
    let t = lua.create_thread(f).unwrap();
    lua.set_named_registry_value("v", Ok(Value::Thread(t))).unwrap();
    assert!(matches!(lua.named_registry_value("v"), Ok(Value::Thread(_))));
    assert!(matches!(slot, Slot::Function(_)));
    let u = lua.create_userdata(1, 2).unwrap();
    let slot = machine.borrow().pinned(&u.0);
    lua.set_named_registry_value("v", Ok(Value::UserData(u))).unwrap();
    match lua.named_registry_value("v") {
        Ok(Value::UserData(u)) => assert_eq!(machine.borrow().pinned(&u.0), slot),
        other => panic!("{:?}", other),
    }
    at_rest(&machine, 4);
}

#[test]
fn placed_registry_values_come_back() {
    let (machine, mut lua) = start();
    let a = lua.create_registry_value(Ok(Value::Integer(1))).unwrap();
    let b = lua.create_registry_value(Ok(Value::Integer(2))).unwrap();
    assert_ne!(a.registry_id, b.registry_id);
    assert_eq!(a.unref_list, UNREF_LIST);
    lua.set_named_registry_value("a", Ok(Value::Integer(9))).unwrap();
    assert!(matches!(lua.registry_value(&a), Ok(Value::Integer(1))));
    assert!(matches!(lua.registry_value(&b), Ok(Value::Integer(2))));
    assert!(lua.owns_registry_value(&a));
    lua.remove_registry_value(a).unwrap();
    assert!(matches!(lua.registry_value(&b), Ok(Value::Integer(2))));
    assert!(matches!(lua.named_registry_value("a"), Ok(Value::Integer(9))));
    at_rest(&machine, 0);
}

#[test]
fn removed_registry_value_is_gone() {
    let (machine, mut lua) = start();
    let a = lua.create_registry_value(Ok(Value::Integer(1))).unwrap();
    let id = a.registry_id;
    lua.remove_registry_value(a).unwrap();
    assert!(!machine.borrow().places.contains(&id));
    assert!(machine.borrow().registry.get(&Slot::Integer(id as i64)).is_none());
}

#[test]
fn cleared_places_are_given_out_again() {
    let (machine, mut lua) = start();
    let a = lua.create_registry_value(Ok(Value::Boolean(true))).unwrap();
    let b = lua.create_registry_value(Ok(Value::Boolean(false))).unwrap();
    let c = lua.create_registry_value(Ok(Value::Boolean(true))).unwrap();
    let (first, second) = (a.registry_id, b.registry_id);
    lua.remove_registry_value(a).unwrap();
    lua.remove_registry_value(b).unwrap();
    // Of two cleared places, the later one leads to the earlier one.
    let left = machine.borrow().registry[&Slot::Integer(second as i64)].clone();
    assert_eq!(left, Slot::Integer(first as i64));
    let d = lua.create_registry_value(Ok(Value::Integer(4))).unwrap();
    let e = lua.create_registry_value(Ok(Value::Integer(5))).unwrap();
    assert_eq!((d.registry_id, e.registry_id), (second, first));
    assert!(matches!(lua.registry_value(&c), Ok(Value::Boolean(true))));
    assert!(matches!(lua.registry_value(&d), Ok(Value::Integer(4))));
    assert!(matches!(lua.registry_value(&e), Ok(Value::Integer(5))));
    at_rest(&machine, 0);
}

#[test]
fn registry_values_outlive_a_chunk() {
    let (machine, mut lua) = start();
    let key = lua.create_registry_value(Ok(Value::Integer(1))).unwrap();
    lua.set_named_registry_value("a", Ok(Value::Integer(2))).unwrap();
    lua.set_named_registry_value("b", Ok(Value::Integer(3))).unwrap();
    lua.exec("b = 4".as_bytes(), None).unwrap();
    assert!(lua.owns_registry_value(&key));
    assert!(matches!(lua.registry_value(&key), Ok(Value::Integer(1))));
    assert!(matches!(lua.named_registry_value("a"), Ok(Value::Integer(2))));
    assert!(matches!(lua.named_registry_value("b"), Ok(Value::Integer(4))));
    lua.exec("return fail 41".as_bytes(), None).unwrap_err();
    assert!(matches!(lua.registry_value(&key), Ok(Value::Integer(1))));
    assert!(matches!(lua.named_registry_value("a"), Ok(Value::Integer(2))));
    lua.remove_registry_value(key).unwrap();
    at_rest(&machine, 0);
}

#[test]
fn globals_and_types_outlive_a_chunk() {
    let (machine, mut lua) = start();
    machine.borrow_mut().methods.insert(7, vec![(0, "get".as_bytes().to_vec(), 1)]);
    let before = lua.globals();
    let a = lua.create_userdata(7, 100).unwrap();
    lua.exec("x = 1".as_bytes(), None).unwrap();
    let after = lua.globals();
    let b = lua.create_userdata(7, 200).unwrap();
    let m = machine.borrow();
    assert_eq!(m.pinned(&before.0), m.pinned(&after.0));
    assert_eq!(m.metatables[&m.pinned(&a.0)], m.metatables[&m.pinned(&b.0)]);
    assert_eq!(m.added, vec![7]);
}

#[test]
fn nil_takes_no_place_in_the_registry() {
    let (_machine, mut lua) = start();
    let key = lua.create_registry_value(Ok(Value::Nil)).unwrap();
    assert_eq!(key.registry_id, -1);
    assert!(matches!(lua.registry_value(&key), Ok(Value::Nil)));
    lua.remove_registry_value(key).unwrap();
}

#[test]
fn placed_registry_value_passes_a_conversion_error_on() {
    let (_machine, mut lua) = start();
    let r = lua.create_registry_value(Err(Error::Other(12)));
    assert!(matches!(r, Err(Error::Other(12))));
}

#[test]
fn mismatched_registry_keys_are_refused() {
    let (machine, mut lua) = start();
    let key = RegistryKey { registry_id: 3, unref_list: UNREF_LIST + 1 };
    assert!(!lua.owns_registry_value(&key));
    assert!(matches!(lua.registry_value(&key), Err(Error::MismatchedRegistryKey)));
    assert!(matches!(lua.remove_registry_value(key), Err(Error::MismatchedRegistryKey)));
    assert_eq!(machine.borrow().dropped_keys, vec![3]);
    at_rest(&machine, 0);
}

#[test]
fn expired_registry_values_are_gone() {
    let (machine, mut lua) = start();
    let a = lua.create_registry_value(Ok(Value::Integer(1))).unwrap();
    let b = lua.create_registry_value(Ok(Value::Integer(2))).unwrap();
    let c = lua.create_registry_value(Ok(Value::Integer(3))).unwrap();
    machine.borrow_mut().unref = Some(vec![a.registry_id, c.registry_id]);
    lua.expire_registry_values();
    assert!(!machine.borrow().places.contains(&a.registry_id));
    assert!(!machine.borrow().places.contains(&c.registry_id));
    assert!(machine.borrow().places.contains(&b.registry_id));
    assert!(matches!(lua.registry_value(&b), Ok(Value::Integer(2))));
    assert_eq!(machine.borrow().unref, Some(Vec::new()));
    lua.expire_registry_values();
    assert!(matches!(lua.registry_value(&b), Ok(Value::Integer(2))));
    at_rest(&machine, 0);
}

#[test]
fn keys_leave_the_auxiliary_thread_alone() {
    let (machine, mut lua) = start();
    let key = lua.create_registry_value(Ok(Value::Integer(1))).unwrap();
    assert_ne!(key.registry_id, 3);
    lua.remove_registry_value(key).unwrap();
    lua.expire_registry_values();
    assert!(matches!(machine.borrow().registry.get(&Slot::Integer(3)), Some(Slot::Thread(_))));
    at_rest(&machine, 0);
}

#[test]
fn expiring_without_a_list_panics() {
    let (machine, mut lua) = start();
    machine.borrow_mut().unref = None;
    lua.expire_registry_values();
    assert_eq!(machine.borrow().panics, vec!["unref list not set".to_string()]);
}

#[test]
fn hooks_are_set_and_removed() {
    let (machine, mut lua) = start();
    lua.remove_hook();
    assert_eq!(machine.borrow().hook, None);
    lua.set_shared_hook(HookOptions { mask: 4, count: 0 }, 11);
    assert_eq!(machine.borrow().hook, Some((4, 0)));
    assert_eq!(machine.borrow().extra.as_ref().unwrap().hook_callback, Some(11));
    lua.set_mut_hook(HookOptions { mask: 8, count: 100 }, 12);
    assert_eq!(machine.borrow().hook, Some((8, 100)));
    assert_eq!(machine.borrow().extra.as_ref().unwrap().hook_callback, Some(12));
    lua.remove_hook();
    assert_eq!(machine.borrow().hook, None);
    assert_eq!(machine.borrow().extra.as_ref().unwrap().hook_callback, None);
    at_rest(&machine, 0);
}

/// The callback that a function of the machine carries.
fn carried(machine: &Shared, f: &Function) -> (Slot, Callback) {
    let m = machine.borrow();
    match m.pinned(&f.0) {
        Slot::Function(id) => match &m.functions[id] {
            Code::Runs(Slot::UserData(boxed)) => {
                (Slot::UserData(*boxed), m.boxed[*boxed].unwrap())
            }
            other => panic!("{:?}", other),
        },
        other => panic!("{:?} is no function", other),
    }
}

#[test]
fn create_function_carries_its_callback() {
    let (machine, mut lua) = start();
    let f = lua.create_function(5).unwrap();
    let (boxed, callback) = carried(&machine, &f);
    assert_eq!(callback, Callback::Function(5));
    let m = machine.borrow();
    assert_eq!(m.metatables.get(&boxed), m.registry.get(&Slot::Light(FUNCTION_KEY)));
}

#[test]
fn create_function_mut_carries_its_callback() {
    let (machine, mut lua) = start();
    let f = lua.create_function_mut(6).unwrap();
    assert_eq!(carried(&machine, &f).1, Callback::FunctionMut(6));
    at_rest(&machine, 1);
}

#[test]
fn create_function_can_fail() {
    let (machine, mut lua) = start();
    machine.borrow_mut().failing = Some(0);
    assert!(matches!(lua.create_function(5), Err(Error::Other(88))));
    machine.borrow_mut().failing = Some(1);
    assert!(matches!(lua.create_function(5), Err(Error::Other(88))));
    at_rest(&machine, 0);
}

/// Lets the machine run a function with these arguments on its stack.
fn enter(machine: &Shared, lua: &mut Lua<impl Fn(Op) -> Reply>, args: Vec<Slot>) {
    let f = lua.create_function(5).unwrap();
    let upvalue = carried(machine, &f).0;
    lua.drop_ref(f.0);
    let mut m = machine.borrow_mut();
    m.upvalue = Some(upvalue);
    m.limit = args.len() + LUA_MINSTACK as usize;
    m.stack = args;
}

#[test]
fn call_callback_hands_arguments_and_results_over() {
    let (machine, mut lua) = start();
    enter(&machine, &mut lua, vec![Slot::Integer(1), text("two"), Slot::Table(0), Slot::Nil]);
    machine.borrow_mut().results = vec![Slot::Boolean(true), Slot::Table(0)];
    let mut callee = Lua::attach(driver(&machine), MAIN, FUNCTION_KEY);
    assert_eq!(callee.call_callback().unwrap(), 2);
    let m = machine.borrow();
    assert_eq!(
        m.called,
        vec![vec![Slot::Integer(1), text("two"), Slot::Table(0), Slot::Nil]]
    );
    assert_eq!(m.stack, vec![Slot::Boolean(true), Slot::Table(0)]);
    assert_eq!(m.held(), 0);
}

#[test]
fn call_callback_without_arguments_and_results() {
    let (machine, mut lua) = start();
    enter(&machine, &mut lua, Vec::new());
    assert_eq!(lua.call_callback().unwrap(), 0);
    assert_eq!(machine.borrow().called, vec![Vec::new()]);
    at_rest(&machine, 0);
}

#[test]
fn call_callback_takes_many_arguments_without_asking_for_room() {
    let (machine, mut lua) = start();
    let args: Vec<Slot> = (0..40).map(Slot::Integer).collect();
    enter(&machine, &mut lua, args.clone());
    assert_eq!(lua.call_callback().unwrap(), 0);
    assert_eq!(machine.borrow().called, vec![args]);
    // Only the results need room, none of them and one slot to work with.
    assert_eq!(machine.borrow().checks, vec![1]);
}

#[test]
fn call_callback_gives_the_error_of_the_callback() {
    let (machine, mut lua) = start();
    enter(&machine, &mut lua, vec![Slot::Table(0)]);
    machine.borrow_mut().failing = Some(0);
    assert!(matches!(lua.call_callback(), Err(Error::Other(66))));
    at_rest(&machine, 0);
}

#[test]
fn call_callback_refuses_a_destructed_callback() {
    let (machine, mut lua) = start();
    enter(&machine, &mut lua, vec![Slot::Integer(1)]);
    machine.borrow_mut().upvalue = None;
    assert!(matches!(lua.call_callback(), Err(Error::CallbackDestructed)));
    assert!(machine.borrow().called.is_empty());
    assert_eq!(machine.borrow().stack, vec![Slot::Integer(1)]);
}

#[test]
fn results_of_a_callback_are_put_on_the_stack() {
    let (machine, mut lua) = start();
    let t = lua.globals();
    let mut results = MultiValue::new();
    results.push_back(Value::Table(t));
    results.push_back(Value::Error(Error::Other(5)));
    assert!(matches!(lua.return_results(Ok(results)), Ok(2)));
    assert_eq!(machine.borrow().stack[0], Slot::Table(0));
    assert!(matches!(machine.borrow().stack[1], Slot::Wrapped(_)));
    machine.borrow_mut().stack.clear();
    assert!(matches!(lua.return_results(Err(Error::Other(6))), Err(Error::Other(6))));
    machine.borrow_mut().full = true;
    let mut results = MultiValue::new();
    results.push_back(Value::Nil);
    assert!(matches!(lua.return_results(Ok(results)), Err(Error::Other(99))));
    at_rest(&machine, 0);
}

#[test]
fn call_callback_needs_room() {
    let (machine, mut lua) = start();
    enter(&machine, &mut lua, vec![Slot::Integer(1)]);
    machine.borrow_mut().full = true;
    assert!(matches!(lua.call_callback(), Err(Error::Other(99))));
    assert!(machine.borrow().called.is_empty());
}

#[test]
fn call_callback_needs_room_for_the_results() {
    let (machine, mut lua) = start();
    let args: Vec<Slot> = (0..20).map(Slot::Integer).collect();
    enter(&machine, &mut lua, args);
    machine.borrow_mut().full = true;
    machine.borrow_mut().results = vec![Slot::Table(0), Slot::Table(0)];
    assert!(matches!(lua.call_callback(), Err(Error::Other(99))));
    assert_eq!(machine.borrow().called.len(), 1);
    at_rest(&machine, 0);
}

#[test]
fn userdata_has_the_metatable_of_its_type() {
    let (machine, mut lua) = start();
    machine.borrow_mut().methods.insert(
        7,
        vec![(0, "get".as_bytes().to_vec(), 1), (1, "set".as_bytes().to_vec(), 2)],
    );
    let a = lua.create_userdata(7, 100).unwrap();
    let b = lua.create_userdata(7, 200).unwrap();
    let m = machine.borrow();
    let (a, b) = (m.pinned(&a.0), m.pinned(&b.0));
    assert_ne!(a, b);
    match (&a, &b) {
        (Slot::UserData(x), Slot::UserData(y)) => {
            assert_eq!(m.payloads[x], 100);
            assert_eq!(m.payloads[y], 200);
        }
        other => panic!("{:?}", other),
    }
    assert_eq!(m.metatables[&a], m.metatables[&b]);
    assert_eq!(m.added, vec![7]);
    let id = m.extra.as_ref().unwrap().registered_userdata[&7];
    assert_eq!(m.registry[&Slot::Integer(id as i64)], m.metatables[&a]);
    let members = match &m.metatables[&a] {
        Slot::Table(t) => match &m.tables[*t][&text("__index")] {
            Slot::Table(members) => m.tables[*members].clone(),
            other => panic!("{:?} is no table", other),
        },
        other => panic!("{:?} is no table", other),
    };
    assert_eq!(members.len(), 2);
    for (name, callback) in [("get", Callback::Method(1)), ("set", Callback::MethodMut(2))] {
        match &members[&text(name)] {
            Slot::Function(f) => match &m.functions[*f] {
                Code::Runs(Slot::UserData(boxed)) => assert_eq!(m.boxed[*boxed], Some(callback)),
                other => panic!("{:?}", other),
            },
            other => panic!("{:?} is no function", other),
        }
    }
    assert_eq!(m.held(), 2);
}

#[test]
fn userdata_types_have_metatables_of_their_own() {
    let (machine, mut lua) = start();
    machine.borrow_mut().methods.insert(2, vec![(9, "__add".as_bytes().to_vec(), 5)]);
    let a = lua.create_userdata(1, 100).unwrap();
    let b = lua.create_userdata(2, 100).unwrap();
    let m = machine.borrow();
    let (a, b) = (m.pinned(&a.0), m.pinned(&b.0));
    assert_ne!(m.metatables[&a], m.metatables[&b]);
    match (&m.metatables[&a], &m.metatables[&b]) {
        (Slot::Table(x), Slot::Table(y)) => {
            assert!(m.tables[*x].is_empty());
            assert_eq!(m.tables[*y].len(), 1);
            assert!(matches!(m.tables[*y][&text("__add")], Slot::Function(_)));
        }
        other => panic!("{:?}", other),
    }
}

#[test]
fn userdata_can_fail_at_every_step() {
    for step in 0..12 {
        let (machine, mut lua) = start();
        machine.borrow_mut().methods.insert(
            7,
            vec![(0, "get".as_bytes().to_vec(), 1), (9, "__add".as_bytes().to_vec(), 2)],
        );
        machine.borrow_mut().failing = Some(step);
        assert!(matches!(lua.create_userdata(7, 100), Err(Error::Other(88))), "{}", step);
        at_rest(&machine, 0);
        let known = machine.borrow().extra.as_ref().unwrap().registered_userdata.len();
        assert_eq!(known, if step == 11 { 1 } else { 0 });
    }
}

#[test]
fn references_are_reused_last_first() {
    let (machine, mut lua) = start();
    let a = lua.create_table().unwrap();
    let b = lua.create_table().unwrap();
    let c = lua.create_table().unwrap();
    assert_eq!((a.0.index, b.0.index, c.0.index), (1, 2, 3));
    lua.drop_ref(a.0);
    lua.drop_ref(b.0);
    at_rest(&machine, 1);
    assert_eq!(lua.create_table().unwrap().0.index, 2);
    assert_eq!(lua.create_table().unwrap().0.index, 1);
    assert_eq!(lua.create_table().unwrap().0.index, 4);
    at_rest(&machine, 4);
}

#[test]
fn free_slots_are_all_slots_when_nothing_is_held() {
    let (machine, mut lua) = start();
    let refs: Vec<LuaRef> = (0..30).map(|_| lua.globals().0).collect();
    for (i, lref) in refs.into_iter().enumerate() {
        let index = lref.index;
        lua.drop_ref(lref);
        let m = machine.borrow();
        let extra = m.extra.as_ref().unwrap();
        assert_eq!(extra.ref_free.len(), i + 1);
        assert_eq!(extra.ref_free[i], index);
        assert_eq!(extra.ref_stack_max, 30);
        assert_eq!(extra.ref_stack_size, 38);
    }
    let mut free = machine.borrow().extra.as_ref().unwrap().ref_free.clone();
    free.sort();
    assert_eq!(free, (1..31).collect::<Vec<i32>>());
}

#[test]
fn known_type_is_not_asked_for_its_methods_again() {
    let (machine, mut lua) = start();
    lua.create_userdata(1, 100).unwrap();
    lua.create_userdata(1, 101).unwrap();
    lua.create_userdata(2, 102).unwrap();
    lua.create_userdata(1, 103).unwrap();
    assert_eq!(machine.borrow().added, vec![1, 2]);
    let m = machine.borrow();
    let types = &m.extra.as_ref().unwrap().registered_userdata;
    assert_ne!(types[&1], types[&2]);
}

#[test]
fn integer_comes_back_from_its_text() {
    let (machine, mut lua) = start();
    for i in [0, -1, 7, i64::MAX, i64::MIN] {
        let s = lua.coerce_string(Value::Integer(i)).unwrap();
        let again = s.0.index;
        assert_eq!(lua.coerce_integer(Value::String(s)), Some(i));
        assert_eq!(again, 1);
        assert_eq!(lua.coerce_number(Value::Integer(i)), Some((i as f64).to_bits()));
    }
    at_rest(&machine, 0);
}

#[test]
fn cloned_reference_points_to_the_same() {
    let (machine, mut lua) = start();
    let a = lua.create_table().unwrap();
    let b = lua.clone_ref(&a.0);
    let slot = machine.borrow().pinned(&a.0);
    assert_ne!(a.0.index, b.index);
    assert_eq!(machine.borrow().pinned(&b), slot);
    lua.drop_ref(a.0);
    assert_eq!(machine.borrow().pinned(&b), slot);
    at_rest(&machine, 1);
}

#[test]
fn auxiliary_stack_doubles() {
    let (machine, mut lua) = start();
    let mut held = Vec::new();
    for _ in 0..100 {
        held.push(lua.globals());
    }
    assert_eq!(machine.borrow().aux_checks, vec![19, 38, 76]);
    assert_eq!(machine.borrow().extra.as_ref().unwrap().ref_stack_size, 152);
    for (i, t) in held.iter().enumerate() {
        assert_eq!(t.0.index as usize, i + 1);
    }
    at_rest(&machine, 100);
    for t in held {
        lua.drop_ref(t.0);
    }
    at_rest(&machine, 0);
}

#[test]
fn too_many_references_panic() {
    let (machine, mut lua) = start();
    for _ in 0..19 {
        lua.globals();
    }
    assert!(machine.borrow().panics.is_empty());
    machine.borrow_mut().aux_full = true;
    lua.globals();
    assert_eq!(
        machine.borrow().panics,
        vec!["cannot create a Lua reference, out of auxiliary stack space".to_string()]
    );
}

#[test]
fn dropped_values_leave_nothing_behind() {
    let (machine, mut lua) = start();
    let mut values = MultiValue::new();
    values.push_back(Value::Table(lua.globals()));
    values.push_back(Value::Integer(1));
    values.push_back(Value::Table(lua.globals()));
    at_rest(&machine, 2);
    lua.drop_values(values);
    at_rest(&machine, 0);
    lua.drop_value(Value::Integer(1));
    let t = lua.globals();
    lua.drop_value(Value::Table(t));
    at_rest(&machine, 0);
}

#[test]
fn values_know_their_state() {
    let (_machine, mut lua) = start();
    let t = lua.globals();
    assert!(lua.owns_value(&Value::Table(t)));
    assert!(lua.owns_value(&Value::Integer(1)));
    let foreign = LuaRef { main_state: MAIN + 1, index: 1 };
    assert!(!lua.owns_value(&Value::Table(Table(foreign))));
}

#[test]
fn dropped_state_is_closed() {
    let (machine, mut lua) = start();
    let t = lua.globals();
    lua.drop_ref(t.0);
    lua.drop();
    let m = machine.borrow();
    assert!(m.closed);
    assert!(m.leaks.is_empty());
    assert_eq!(m.unref, None);
}

#[test]
fn dropped_state_reports_a_leak() {
    let (machine, mut lua) = start();
    let _t = lua.globals();
    lua.drop();
    let m = machine.borrow();
    assert!(m.closed);
    assert_eq!(m.leaks, vec!["reference leak detected".to_string()]);
}

#[test]
fn attached_handle_does_not_close_the_state() {
    let (machine, mut lua) = start();
    let t = lua.globals();
    let mut other = Lua::attach(driver(&machine), MAIN, FUNCTION_KEY);
    assert_eq!(other.main_state(), MAIN);
    other.set_named_registry_value("a", Ok(Value::Integer(1))).unwrap();
    other.drop();
    assert!(!machine.borrow().closed);
    assert!(machine.borrow().leaks.is_empty());
    assert!(matches!(lua.named_registry_value("a"), Ok(Value::Integer(1))));
    lua.drop_ref(t.0);
    at_rest(&machine, 0);
}

#[test]
fn shared_handle_reads_what_was_set() {
    let (machine, mut lua) = start();
    let key = lua.create_registry_value(Ok(Value::Integer(1))).unwrap();
    lua.set_named_registry_value("a", Ok(Value::Integer(2))).unwrap();
    let mut other = lua.share(driver(&machine));
    assert_eq!(other.main_state(), MAIN);
    assert!(other.owns_registry_value(&key));
    assert!(matches!(other.registry_value(&key), Ok(Value::Integer(1))));
    assert!(matches!(other.named_registry_value("a"), Ok(Value::Integer(2))));
    other.drop();
    assert!(!machine.borrow().closed);
    lua.drop();
    assert!(machine.borrow().closed);
}

#[test]
fn pushed_value_is_popped() {
    let (machine, mut lua) = start();
    let t = lua.globals();
    lua.push_value(Value::Table(t));
    lua.push_value(Value::Integer(5));
    assert_eq!(machine.borrow().stack, vec![Slot::Table(0), Slot::Integer(5)]);
    assert!(matches!(lua.pop_value(), Value::Integer(5)));
    assert!(matches!(lua.pop_value(), Value::Table(_)));
    at_rest(&machine, 1);
}

#[test]
fn scope_is_closed_after_the_function() {
    let (_machine, lua) = start();
    let steps = RefCell::new(Vec::new());
    let r = lua.scope(
        || {
            steps.borrow_mut().push("open");
            7
        },
        |scope: &i32| {
            steps.borrow_mut().push("run");
            *scope + 1
        },
        |scope: i32| {
            assert_eq!(scope, 7);
            steps.borrow_mut().push("close");
        },
    );
    assert_eq!(r, 8);
    assert_eq!(*steps.borrow(), vec!["open", "run", "close"]);
}

#[test]
fn conversions_are_passed_on() {
    let (_machine, lua) = start();
    assert!(matches!(lua.pack(3, |n| Ok(Value::Integer(n))), Ok(Value::Integer(3))));
    assert!(matches!(lua.pack(3, |_| Err(Error::Other(3))), Err(Error::Other(3))));
    let r = lua.unpack(Value::Boolean(true), |value| Ok(matches!(value, Value::Boolean(true))));
    assert!(matches!(r, Ok(true)));
    let r = lua.pack_multi(2, |n| {
        let mut values = MultiValue::new();
        for i in 0..n {
            values.push_back(Value::Integer(i));
        }
        Ok(values)
    });
    assert_eq!(integers(r.unwrap()), vec![0, 1]);
    let mut values = MultiValue::new();
    values.push_back(Value::Nil);
    assert!(matches!(lua.unpack_multi(values, |values| Ok(values.len())), Ok(1)));
}

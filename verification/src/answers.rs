//! What the Lua machine answers to the calls through the driver, and what it is after them.
use crate::extra::{LUAI_MAXSTACK, LUA_MINSTACK};
use crate::machine::{
    Attempt, CallRecord, Chunk, Heap, LUA_ERRSYNTAX, LUA_OK, LUA_REFNIL, LUA_TNONE, Machine, Slot,
    handle_count,
};
use crate::protocol::{Op, Reply};
use crate::value::{ErrorView, MultiValue, Value};
use vstd::prelude::*;

verus! {

/// The name of a chunk.
pub open spec fn name_view(name: Option<Vec<u8>>) -> Option<Seq<u8>> {
    match name {
        Some(text) => Some(text@),
        None => None,
    }
}

/// The values that a call returned, if it did not fail.
pub open spec fn returned(got: Option<Seq<Value>>) -> Seq<Value> {
    match got {
        Some(values) => values,
        None => Seq::empty(),
    }
}

/// The slots of the auxiliary stack that these values hold.
pub open spec fn slots_held(values: Seq<Value>) -> Set<int> {
    Set::new(
        |i: int|
            exists|k: int|
                0 <= k < values.len() && (#[trigger] values[k]).handle() is Some
                    && values[k].handle()->0.index == i,
    )
}

impl Machine {
    /// What `lua_type` answers for the top.
    pub open spec fn top_tag(self) -> i32 {
        if self.stack.len() == 0 {
            LUA_TNONE
        } else {
            self.top(0).tag()
        }
    }

    /// The number is the height of the stack, if that can be counted.
    pub open spec fn counted(self, n: usize) -> bool {
        self.stack.len() <= usize::MAX ==> n == self.stack.len()
    }

    /// Lua code that runs now, while the machine is at rest, can have these slots given away and
    /// these values handed out.
    pub open spec fn can_run(self, given: Set<int>, got: Seq<Value>) -> bool {
        self.ready() ==> exists|later: Machine| #[trigger] self.ran(later, given, got)
    }

    /// Rust code that converts values now, while the machine is at rest, can hand out these.
    pub open spec fn can_grow(self, got: Seq<Value>) -> bool {
        self.ready() ==> exists|later: Machine| #[trigger] self.grown(later, got)
    }

    /// The machine can answer this to this call.
    pub open spec fn answers(self, op: Op, reply: Reply) -> bool {
        match op {
            Op::ExtraData => reply matches Reply::Extra(extra) && extra@ == self.extra,
            Op::Panic(_) => true,
            Op::StackGuard => reply matches Reply::Count(n) && self.counted(n),
            Op::GetTop => reply matches Reply::Count(n) && self.counted(n),
            Op::CheckStack(n) => match reply {
                Reply::Done => self.stack.len() + n <= LUAI_MAXSTACK,
                Reply::Failed(_) => true,
                _ => false,
            },
            Op::Protect(_, body) => match reply {
                Reply::Done => !self.run(body@).raised,
                Reply::Failed(_) => true,
                _ => false,
            },
            Op::Boot(body) => match reply {
                Reply::Thread(handle) => {
                    let booted = self.run(body@);
                    !booted.raised && !booted.heap.handles.contains_key(handle)
                },
                Reply::Failed(_) => true,
                _ => false,
            },
            Op::NewThread => match reply {
                Reply::Thread(handle) => !self.heap.handles.contains_key(handle),
                Reply::Failed(_) => true,
                _ => false,
            },
            Op::PushString(_) => reply is Done || reply is Failed,
            Op::PushCallback(_) => reply is Done || reply is Failed,
            Op::PushUserData(_) => reply is Done || reply is Failed,
            Op::InitUserdataMetatable(_) => reply is Done || reply is Failed,
            Op::AddMethods(kind) => reply matches Reply::Methods(methods) && methods.wf()
                && methods@ == (self.laws.methods_of)(kind),
            Op::LoadBuffer(source, _) => reply matches Reply::Status(status) && {
                &&& status == LUA_OK ==> (self.laws.compiles)(source@)
                &&& status == LUA_ERRSYNTAX ==> !(self.laws.compiles)(source@)
            },
            Op::PopError(_) => reply is Raised,
            Op::Type => reply matches Reply::Int(tag) && tag == self.top_tag(),
            Op::UpvalueType => reply matches Reply::Int(tag) && tag == self.upvalue.tag(),
            Op::ToBoolean => reply matches Reply::Int(b) && (b != 0 <==> !(self.top(0) is Nil
                || self.top(0) == Slot::Boolean(false))),
            Op::IsInteger => reply matches Reply::Int(b) && (b != 0 <==> self.top(0) is Integer),
            Op::ToInteger => reply matches Reply::Integer(i) && i
                == match self.laws.to_integer(self.top(0)) {
                Some(integer) => integer,
                None => 0,
            },
            Op::ToNumber => reply matches Reply::Number(n) && n
                == match self.laws.to_number(self.top(0)) {
                Some(number) => number,
                None => 0,
            },
            Op::ToUserData => reply matches Reply::Address(address) && (self.top(
                0,
            ) matches Slot::LightUserData(held) ==> address == held),
            Op::GetWrappedError => reply matches Reply::Wrapped(wrapped) && match self.top(0) {
                Slot::WrappedError(held) => wrapped matches Some(error) && error@ == held,
                _ => wrapped is None,
            },
            Op::ToStringValue => reply matches Reply::Flag(b) && b == (self.laws.to_text(
                self.top(0),
            ) is Some),
            Op::ToIntegerX => reply matches Reply::IntegerX(i, exact) && match self.laws.to_integer(
                self.top(0),
            ) {
                Some(integer) => exact != 0 && i == integer,
                None => exact == 0,
            },
            Op::ToNumberX => reply matches Reply::NumberX(n, exact) && match self.laws.to_number(
                self.top(0),
            ) {
                Some(number) => exact != 0 && n == number,
                None => exact == 0,
            },
            Op::Ref => reply matches Reply::Int(id) && if self.top(0) is Nil {
                id == LUA_REFNIL
            } else {
                self.heap.allottable(id) || self.heap.crowded()
            },
            Op::ReplaceUnrefList => reply matches Reply::List(list) && match list {
                Some(ids) => {
                    &&& self.unref_open
                    &&& self.unref.is_prefix_of(ids@)
                    &&& self.droppable(self.unref) ==> self.droppable(ids@)
                },
                None => !self.unref_open,
            },
            Op::AuxCheckStack(thread, n) => reply matches Reply::Int(granted) && (granted != 0
                ==> self.aux.len() + n <= LUAI_MAXSTACK),
            Op::AuxGetTop(thread) => reply matches Reply::Int(n) && (self.aux.len() <= i32::MAX
                ==> n == self.aux.len()),
            Op::Call(index, args) => match reply {
                Reply::Values(got) => self.can_run(slots_held(args@), returned(Some(got@))),
                Reply::Failed(_) => self.can_run(slots_held(args@), returned(None)),
                _ => false,
            },
            Op::Invoke(args) => match reply {
                Reply::Values(got) => self.can_run(slots_held(args@), returned(Some(got@))),
                Reply::Failed(_) => self.can_run(slots_held(args@), returned(None)),
                _ => false,
            },
            Op::NextItem => reply matches Reply::Flag(more) && self.can_grow(Seq::empty()) && (more
                ==> self.items.len() < u64::MAX),
            Op::ItemKey => match reply {
                Reply::Value(got) => self.can_grow(seq![got]),
                Reply::Failed(_) => self.can_grow(Seq::empty()),
                _ => false,
            },
            Op::ItemValue => match reply {
                Reply::Value(got) => self.can_grow(seq![got]),
                Reply::Failed(_) => self.can_grow(Seq::empty()),
                _ => false,
            },
            Op::IndexToLua(position) => match reply {
                Reply::Value(got) => if position <= i64::MAX {
                    got == Value::Integer(position as i64)
                } else {
                    got.handle() is None
                },
                Reply::Failed(_) => position > i64::MAX,
                _ => false,
            },
            _ => reply is Done,
        }
    }

    /// The machine after this call, to which it answered this.
    pub open spec fn after(self, op: Op, reply: Reply) -> Machine {
        match op {
            Op::ExtraData => Machine { lent: true, misused: self.misused || self.lent, ..self },
            Op::SetExtraData(extra) => Machine { lent: false, extra: extra@, ..self },
            Op::Panic(_) => Machine { panicked: true, ..self },
            Op::DebugPanic(_) => Machine { leaked: true, ..self },
            Op::EndStackGuard(n) => Machine {
                stack: if n < self.stack.len() {
                    self.stack.take(n as int)
                } else {
                    self.stack
                },
                ..self
            },
            Op::AssertStack(n) => self.reserving(n as int),
            Op::CheckStack(n) => match reply {
                Reply::Failed(e) => self.fault(Attempt::CheckStack(n), e@),
                _ => self.reserve(n as int),
            },
            Op::Do(instr) => self.apply(instr),
            Op::Protect(args, body) => match reply {
                Reply::Failed(e) => self.alone().popping(args as int).fault(
                    Attempt::Protect(self.top_slots(args as int), body@),
                    e@,
                ),
                _ => self.alone().run(body@),
            },
            Op::Boot(body) => match reply {
                Reply::Thread(handle) => self.run(body@).booted(handle),
                Reply::Failed(e) => Machine {
                    exhausted: self.exhausted || self.aux_limit == 0 && !self.run(body@).raised,
                    ..self.fault(Attempt::Boot(body@), e@)
                },
                _ => self,
            },
            Op::NewThread => match reply {
                Reply::Thread(handle) => Machine {
                    heap: Heap {
                        handles: self.heap.handles.insert(handle, self.heap.next),
                        ..self.heap.with_thread()
                    },
                    ..self.alone().pushing(Slot::Thread(self.heap.next))
                },
                Reply::Failed(e) => self.alone().fault(Attempt::NewThread, e@),
                _ => self,
            },
            Op::PushString(bytes) => match reply {
                Reply::Failed(e) => self.alone().fault(Attempt::PushString(bytes@), e@),
                _ => self.alone().pushing(Slot::Str(bytes@)),
            },
            Op::PushWrappedError(error) => self.working(2).push(Slot::WrappedError(error@)),
            Op::GetWrappedError => self.working(2),
            Op::PushCallback(callback) => match reply {
                Reply::Failed(e) => self.alone().fault(Attempt::PushCallback(callback), e@),
                _ => Machine {
                    heap: self.heap.with_callback(callback),
                    ..self.alone().pushing(Slot::UserData(self.heap.next))
                },
            },
            Op::PushUserData(payload) => match reply {
                Reply::Failed(e) => self.alone().fault(Attempt::PushUserData(payload), e@),
                _ => Machine {
                    heap: self.heap.with_payload(payload),
                    ..self.alone().pushing(Slot::UserData(self.heap.next))
                },
            },
            Op::InitUserdataMetatable(members) => match reply {
                Reply::Failed(e) => self.alone().fault(Attempt::InitUserdataMetatable(members), e@),
                _ => self.alone().init_userdata_metatable(members),
            },
            Op::AddMethods(kind) => Machine {
                registrations: self.registrations.push(kind),
                ..self
            },
            Op::LoadBuffer(source, name) => match reply {
                Reply::Status(status) => self.with_loaded(
                    Chunk { source: source@, name: name_view(name) },
                    status,
                ),
                _ => self,
            },
            Op::PopError(status) => match reply {
                Reply::Raised(e) => self.with_error_popped(status, e@),
                _ => self,
            },
            Op::ToStringValue => match self.laws.to_text(self.top(0)) {
                Some(text) => self.popping(1).push(text),
                None => self,
            },
            Op::Ref => match reply {
                Reply::Int(id) => self.referenced(id),
                _ => self,
            },
            Op::Unref(id) => Machine {
                heap: self.heap.release(id),
                misused: self.misused || !(id < 0 || self.heap.allotted.contains(id)),
                ..self
            },
            Op::ReplaceUnrefList => match reply {
                Reply::List(Some(ids)) => Machine {
                    unref: Seq::empty(),
                    dropped: self.dropped.push(ids@),
                    ..self
                },
                _ => self,
            },
            Op::DropKey(key) => if key.unref_list == self.extra.registry_unref_list {
                Machine {
                    unref: self.unref.push(key.registry_id),
                    misused: self.misused || !self.holds_key(key),
                    ..self
                }
            } else {
                Machine {
                    discarded: self.discarded.push((key.registry_id, key.unref_list)),
                    ..self
                }
            },
            Op::CloseUnrefList => Machine { unref_open: false, unref: Seq::empty(), ..self },
            Op::AuxCheckStack(thread, n) => match reply {
                Reply::Int(granted) => if granted == 0 {
                    Machine {
                        exhausted: self.exhausted || self.needs_room(n),
                        misused: self.misused || thread != self.aux_thread,
                        ..self
                    }
                } else {
                    Machine {
                        aux_limit: if self.aux.len() + n > self.aux_limit {
                            self.aux.len() + n
                        } else {
                            self.aux_limit
                        },
                        misused: self.misused || thread != self.aux_thread,
                        ..self
                    }
                },
                _ => self,
            },
            Op::Call(index, args) => self.call_answered(self.pinned(index as int), args, reply),
            Op::Invoke(args) => self.call_answered(self.upvalue, args, reply),
            Op::NextItem => match reply {
                Reply::Flag(more) => {
                    let later = self.converted(Seq::empty());
                    if more {
                        Machine { yields: later.yields + 1, ..later }
                    } else {
                        Machine { ends: later.ends + 1, ..later }
                    }
                },
                _ => self,
            },
            Op::ItemKey => match reply {
                Reply::Value(got) => {
                    let later = self.converted(seq![got]);
                    Machine { item_key: later.slot_of(got), ..later }
                },
                Reply::Failed(e) => self.converted(Seq::empty()).fault(Attempt::ItemKey, e@),
                _ => self,
            },
            Op::ItemValue => match reply {
                Reply::Value(got) => {
                    let later = self.converted(seq![got]);
                    Machine {
                        items: later.items.push((later.item_key, later.slot_of(got))),
                        ..later
                    }
                },
                Reply::Failed(e) => self.converted(Seq::empty()).fault(Attempt::ItemValue, e@),
                _ => self,
            },
            Op::IndexToLua(position) => match reply {
                Reply::Value(got) => Machine { item_key: self.slot_of(got), ..self },
                Reply::Failed(e) => self.fault(Attempt::Position(position), e@),
                _ => self,
            },
            Op::SetHook(mask, count) => Machine { hook: Some((mask, count)), ..self },
            Op::ClearHook => Machine { hook: None, ..self },
            Op::Close => Machine { closed: true, ..self },
            _ => self,
        }
    }

    /// A value waits on the auxiliary stack for a slot, all slots are taken, and room for so many
    /// values more would only double their number.
    pub open spec fn needs_room(self, n: i32) -> bool {
        &&& self.lent
        &&& self.extra.full()
        &&& self.aux.len() == self.extra.ref_stack_max + 1
        &&& n <= self.extra.ref_stack_size
    }

    /// With the value on the top in this place of the registry. Where the registry has no place left
    /// there is no memory for it either, and the program ends.
    pub open spec fn referenced(self, id: i32) -> Machine {
        if self.heap.crowded() && !(self.top(0) is Nil) {
            Machine { exhausted: true, panicked: true, ..self }
        } else {
            Machine { heap: self.heap.allot(id, self.top(0)), ..self.popping(1) }
        }
    }

    /// Calls that can run code of others must not be made while the extra data is taken out.
    pub open spec fn alone(self) -> Machine {
        Machine { misused: self.misused || self.lent, ..self }
    }

    /// With room for so many values more, or panicked where the stack cannot have that.
    pub open spec fn reserving(self, n: int) -> Machine {
        if self.stack.len() + n <= LUAI_MAXSTACK {
            self.reserve(n)
        } else {
            Machine { panicked: true, ..self }
        }
    }

    /// With this handle to the thread that was made last, which is the auxiliary one. The registry
    /// keeps it from being collected.
    pub open spec fn booted(self, handle: usize) -> Machine {
        Machine {
            aux_thread: handle,
            aux_limit: LUA_MINSTACK as int,
            anchor: choose|id: i32| #[trigger]
                self.heap.allotted.contains(id) && self.heap.registry[Slot::Integer(id as i64)]
                    == Slot::Thread(self.heap.last_thread),
            heap: Heap {
                handles: self.heap.handles.insert(handle, self.heap.last_thread),
                ..self.heap
            },
            ..self
        }
    }

    /// With a chunk loaded, or what is left by one that could not be.
    pub open spec fn with_loaded(self, chunk: Chunk, status: i32) -> Machine {
        if status == LUA_OK {
            Machine {
                heap: self.heap.with_chunk(chunk),
                ..self.pushing(Slot::Function(self.heap.next))
            }
        } else {
            self.pushing(Slot::Raised(chunk, status))
        }
    }

    /// With the error taken from the top that a chunk left which could not be loaded, with this
    /// status.
    pub open spec fn with_error_popped(self, status: i32, error: ErrorView) -> Machine {
        if self.stack.len() > 0 && self.top(0) is Raised && self.top(0)->Raised_1 == status {
            self.pop(1).fault(Attempt::Load(self.top(0)->Raised_0, status), error)
        } else {
            Machine { misused: true, ..self }
        }
    }

    /// With so many slots of the stack in use for a moment, for which there must be room.
    pub open spec fn working(self, n: int) -> Machine {
        Machine { misused: self.misused || self.stack.len() + n > self.limit, ..self }
    }

    /// With a value pushed, for which there must be room.
    pub open spec fn pushing(self, slot: Slot) -> Machine {
        Machine { misused: self.misused || self.stack.len() >= self.limit, ..self.push(slot) }
    }

    /// With values taken from the top, which must be there.
    pub open spec fn popping(self, n: int) -> Machine {
        Machine { misused: self.misused || self.stack.len() < n, ..self.pop(n) }
    }

    /// With the metatable of a userdata type finished.
    pub open spec fn init_userdata_metatable(self, members: bool) -> Machine {
        let below: int = if members { 1 } else { 0 };
        if self.stack.len() > below && self.top(below) is Table && self.heap.tables.contains_key(
            self.top(below)->Table_0,
        ) && (members ==> self.top(0) is Table) {
            let table = self.top(below)->Table_0;
            let contents = (self.laws.userdata_metatable)(
                self.heap.tables[table],
                if members {
                    Some(self.top(0)->Table_0)
                } else {
                    None
                },
            );
            Machine { heap: self.heap.with_contents(table, contents), ..self }
        } else {
            Machine { misused: true, ..self }
        }
    }

    /// With a function called, to which this was the answer.
    pub open spec fn call_answered(self, target: Slot, args: MultiValue, reply: Reply) -> Machine {
        match reply {
            Reply::Values(got) => self.called(target, args@, Some(got@)),
            Reply::Failed(e) => self.called(target, args@, None).fault(
                Attempt::Call(target, self.slots_of(args@)),
                e@,
            ),
            _ => self,
        }
    }

    /// With a function called, which returned these values or failed. Code of others must not run
    /// unless the machine is at rest. The references to the arguments are given away, and those that
    /// are new, other than those to the values that were returned, are of others.
    pub open spec fn called(
        self,
        target: Slot,
        args: Seq<Value>,
        got: Option<Seq<Value>>,
    ) -> Machine {
        if self.ready() {
            let later = choose|later: Machine| self.ran(later, slots_held(args), returned(got));
            Machine {
                calls: self.calls.push(
                    CallRecord {
                        target,
                        chunk: self.heap.chunk_of(target),
                        args: self.slots_of(args),
                        results: match got {
                            Some(values) => Some(later.slots_of(values)),
                            None => None,
                        },
                    },
                ),
                others: self.others + later.refs().len() - self.refs().len() + handle_count(args)
                    - handle_count(returned(got)),
                ..later
            }
        } else {
            Machine { misused: true, ..self }
        }
    }

    /// With values converted by Rust code, which must not run unless the machine is at rest. The
    /// references that it made, other than those to the values that it handed out, are its own.
    pub open spec fn converted(self, got: Seq<Value>) -> Machine {
        if self.ready() {
            let later = choose|later: Machine| self.grown(later, got);
            Machine {
                others: self.others + later.refs().len() - self.refs().len() - handle_count(got),
                ..later
            }
        } else {
            Machine { misused: true, ..self }
        }
    }
}

} // verus!

//! A Lua state as the library sees it: the driver, and in ghost state the machine that its answers
//! have shown so far.
use crate::answers::{name_view, returned, slots_held};
use crate::extra::{ExtraData, LUAI_MAXSTACK, LUA_MINSTACK};
use crate::machine::{
    Attempt, Chunk, Heap, LUA_ERRSYNTAX, LUA_OK, LUA_REFNIL, LUA_TNONE, Laws, Machine, Slot,
};
use crate::protocol::{Instr, Op, Reply};
use crate::userdata::StaticUserDataMethods;
use crate::value::{Callback, Error, MultiValue, RegistryKey, Value};
use vstd::prelude::*;

verus! {

/// A Lua state.
///
/// Every call goes through the driver. In ghost state the state follows the model of the Lua machine,
/// and notes whether each answer so far was one that the machine gives.
pub struct State<F> {
    driver: F,
    machine: Ghost<Machine>,
    honest: Ghost<bool>,
}

/// The driver was called once from one state to the next: its answer is judged by the machine, and
/// leads from one machine to the next.
#[verifier::opaque]
pub open spec fn asked<F: Fn(Op) -> Reply>(pre: State<F>, post: State<F>, op: Op) -> bool {
    exists|reply: Reply|
        {
            &&& #[trigger] call_ensures(pre.driver(), (op,), reply)
            &&& post.honest() == (pre.honest() && pre.machine().answers(op, reply))
            &&& post.machine() == pre.machine().after(op, reply)
        }
}

/// From one state to the next the driver is the same, and if it answered as the machine does, the
/// machine is now this one. What has panicked stays so.
pub open spec fn leads<F: Fn(Op) -> Reply>(pre: State<F>, post: State<F>, to: Machine) -> bool {
    &&& post.wf()
    &&& post.driver() == pre.driver()
    &&& post.honest() ==> {
        &&& pre.honest()
        &&& post.machine() == to
        &&& pre.machine().panicked ==> post.machine().panicked
    }
}

/// As `leads`, and nothing was found to be exhausted.
pub open spec fn steps<F: Fn(Op) -> Reply>(pre: State<F>, post: State<F>, to: Machine) -> bool {
    &&& leads(pre, post, to)
    &&& post.honest() ==> post.machine().exhausted == pre.machine().exhausted
}

/// The machine after a call that answers `Done` or an error.
pub open spec fn outcome(
    r: Result<(), Error>,
    done: Machine,
    failed: Machine,
    attempt: Attempt,
) -> Machine {
    match r {
        Ok(_) => done,
        Err(e) => failed.fault(attempt, e@),
    }
}

impl Op {
    /// The call cannot show that the state has run out of something.
    pub open spec fn sparing(self) -> bool {
        !(self is AuxCheckStack || self is Boot || self is Ref)
    }
}

/// Calls in protected mode show nothing to be exhausted, and do not undo a panic.
proof fn lemma_run(m: Machine, body: Seq<Instr>)
    ensures
        m.run(body).exhausted == m.exhausted,
        m.run(body).panicked == m.panicked,
    decreases body.len(),
{
    if body.len() > 0 {
        lemma_run(m, body.drop_last());
    }
}

/// A call does not exhaust anything, and does not undo a panic.
proof fn lemma_apply(m: Machine, instr: Instr)
    ensures
        m.apply(instr).exhausted == m.exhausted,
        m.apply(instr).panicked == m.panicked,
{
}

/// Code that is called does not exhaust anything.
proof fn lemma_calm(m: Machine, target: Slot, args: Seq<Value>, got: Option<Seq<Value>>)
    requires
        m.can_run(slots_held(args), returned(got)),
    ensures
        m.called(target, args, got).exhausted == m.exhausted,
        m.panicked ==> m.called(target, args, got).panicked,
{
    if m.ready() {
        let later = choose|later: Machine| m.ran(later, slots_held(args), returned(got));
        assert(m.ran(later, slots_held(args), returned(got)));
    }
}

/// Only few calls show something to be exhausted, and none undoes a panic.
#[verifier::rlimit(60)]
#[verifier::spinoff_prover]
proof fn lemma_after(m: Machine, op: Op, reply: Reply)
    requires
        m.answers(op, reply),
    ensures
        op.sparing() ==> m.after(op, reply).exhausted == m.exhausted,
        m.panicked ==> m.after(op, reply).panicked,
{
    match op {
        Op::Do(instr) => {
            lemma_apply(m, instr);
        },
        Op::Protect(_, body) => {
            lemma_run(m.alone(), body@);
        },
        Op::Boot(body) => {
            lemma_run(m, body@);
        },
        Op::Call(index, args) => {
            match reply {
                Reply::Values(got) => {
                    lemma_calm(m, m.pinned(index as int), args@, Some(got@));
                },
                _ => {
                    lemma_calm(m, m.pinned(index as int), args@, None);
                },
            }
        },
        Op::Invoke(args) => {
            match reply {
                Reply::Values(got) => {
                    lemma_calm(m, m.upvalue, args@, Some(got@));
                },
                _ => {
                    lemma_calm(m, m.upvalue, args@, None);
                },
            }
        },
        Op::NextItem => {
            lemma_grown(m, Seq::empty());
        },
        Op::ItemKey => {
            match reply {
                Reply::Value(got) => {
                    lemma_grown(m, seq![got]);
                },
                _ => {
                    lemma_grown(m, Seq::empty());
                },
            }
        },
        Op::ItemValue => {
            match reply {
                Reply::Value(got) => {
                    lemma_grown(m, seq![got]);
                },
                _ => {
                    lemma_grown(m, Seq::empty());
                },
            }
        },
        _ => {},
    }
}

/// Rust code that converts values does not exhaust anything.
proof fn lemma_grown(m: Machine, got: Seq<Value>)
    requires
        m.can_grow(got),
    ensures
        m.converted(got).exhausted == m.exhausted,
        m.converted(got).panicked == m.panicked,
{
    if m.ready() {
        let later = choose|later: Machine| m.grown(later, got);
        assert(m.grown(later, got));
    }
}

/// One call is all that a body of one call does.
proof fn lemma_run_one(m: Machine, body: Seq<Instr>)
    requires
        body.len() == 1,
    ensures
        m.run(body) == m.apply(body[0]),
{
    assert(body.drop_last().len() == 0);
    assert(m.run(body.drop_last()) == m);
}

/// There is something for Lua to compute from numbers and texts.
proof fn lemma_some_laws_are_sound()
    ensures
        exists|laws: Laws| #[trigger] laws.sound(),
{
    let some: Laws = arbitrary();
    let laws = Laws {
        integral: |bits: u64| None,
        integer_text: |i: i64| tally(i),
        text_integer: |text: Seq<u8>| untally(text),
        text_number: |text: Seq<u8>| Some(0u64),
        widened: |i: i64| 0u64,
        ..some
    };
    assert forall|i: i64| (laws.text_integer)(#[trigger] (laws.integer_text)(i)) == Some(i) by {
        lemma_tally(i);
    }
    assert(laws.sound());
}

/// A text that stands for an integer.
spec fn tally(i: i64) -> Seq<u8> {
    Seq::new((i - i64::MIN) as nat, |k: int| 0u8)
}

/// The integer that a text stands for.
spec fn untally(text: Seq<u8>) -> Option<i64> {
    if text.len() <= i64::MAX - i64::MIN {
        Some((text.len() + i64::MIN) as i64)
    } else {
        None
    }
}

/// A text stands for the integer that it was made for.
proof fn lemma_tally(i: i64)
    ensures
        untally(tally(i)) == Some(i),
{
}

/// A machine that a function which Lua has just called may find: it is at rest, and has as much room
/// on its stack as Lua offers to every function.
pub open spec fn resumable(m: Machine, main_state: usize, function_key: usize) -> bool {
    &&& m.main_state == main_state
    &&& m.function_key == function_key
    &&& !m.exhausted
    &&& m.ready()
    &&& m.stack.len() + LUA_MINSTACK <= m.limit
}

/// There is a machine at rest on every main state.
proof fn lemma_some_machine_is_ready(main_state: usize, function_key: usize)
    ensures
        exists|m: Machine| #[trigger] resumable(m, main_state, function_key),
{
    lemma_some_laws_are_sound();
    let laws: Laws = choose|laws: Laws| #[trigger] laws.sound();
    let newborn = Machine::newborn(main_state, function_key, laws);
    let keyed = newborn.heap.with_registry(Slot::LightUserData(function_key), Slot::Table(1));
    let m = Machine {
        lent: false,
        aux_limit: LUA_MINSTACK as int,
        anchor: 3,
        heap: Heap {
            handles: Map::empty().insert(0, 0),
            ..keyed.allot(3, Slot::Thread(0))
        },
        ..newborn
    };
    assert(m.ready());
    assert(resumable(m, main_state, function_key));
}

impl<F: Fn(Op) -> Reply> State<F> {
    /// The driver takes every call.
    pub closed spec fn wf(&self) -> bool {
        forall|op: Op| call_requires(self.driver, (op,))
    }

    /// The function that makes the calls.
    pub closed spec fn driver(&self) -> F {
        self.driver
    }

    /// The machine that the calls so far have led to.
    pub closed spec fn machine(&self) -> Machine {
        self.machine@
    }

    /// Each answer so far was one that the machine gives.
    pub closed spec fn honest(&self) -> bool {
        self.honest@
    }

    /// A state that `lua_newstate` has just made. What Lua computes from numbers and texts is not
    /// known but for what Lua promises: what holds of the state holds whatever it is.
    pub fn newborn(driver: F, main_state: usize, function_key: usize) -> (r: Self)
        requires
            forall|op: Op| call_requires(driver, (op,)),
        ensures
            r.wf(),
            r.driver() == driver,
            r.honest(),
            r.machine() == Machine::newborn(main_state, function_key, r.machine().laws),
            r.machine().laws.sound(),
    {
        let ghost laws: Laws = choose|laws: Laws| #[trigger] laws.sound();
        proof {
            lemma_some_laws_are_sound();
        }
        State {
            driver,
            machine: Ghost(Machine::newborn(main_state, function_key, laws)),
            honest: Ghost(true),
        }
    }

    /// A state that is already in use and at rest. Which machine it is, is not known: what holds of
    /// the state holds for every machine at rest.
    pub fn resume(driver: F, main_state: usize, function_key: usize) -> (r: Self)
        requires
            forall|op: Op| call_requires(driver, (op,)),
        ensures
            r.wf(),
            r.driver() == driver,
            r.honest(),
            resumable(r.machine(), main_state, function_key),
    {
        let ghost machine: Machine = choose|m: Machine| #[trigger]
            resumable(m, main_state, function_key);
        proof {
            lemma_some_machine_is_ready(main_state, function_key);
        }
        State { driver, machine: Ghost(machine), honest: Ghost(true) }
    }

    /// The same state through another driver.
    pub fn share<G: Fn(Op) -> Reply>(&self, driver: G) -> (r: State<G>)
        requires
            forall|op: Op| call_requires(driver, (op,)),
        ensures
            r.wf(),
            r.driver() == driver,
            r.honest() == self.honest(),
            r.machine() == self.machine(),
    {
        State { driver, machine: Ghost(self.machine@), honest: Ghost(self.honest@) }
    }

    /// Makes a call.
    fn call(&mut self, op: Op) -> (reply: Reply)
        requires
            old(self).wf(),
        ensures
            asked(*old(self), *final(self), op),
            leads(*old(self), *final(self), old(self).machine().after(op, reply)),
            final(self).honest() ==> {
                &&& old(self).machine().answers(op, reply)
                &&& op.sparing() ==> final(self).machine().exhausted
                    == old(self).machine().exhausted
            },
    {
        let ghost asked_for = op;
        let reply = (self.driver)(op);
        proof {
            let m = self.machine@;
            self.honest@ = self.honest@ && m.answers(asked_for, reply);
            self.machine@ = m.after(asked_for, reply);
            if m.answers(asked_for, reply) {
                lemma_after(m, asked_for, reply);
            }
            reveal(asked);
            assert(call_ensures(old(self).driver(), (asked_for,), reply));
        }
        reply
    }

    /// The extra data, taken out of the state until `set_extra_data` puts it back.
    pub(crate) fn extra_data(&mut self) -> (r: ExtraData)
        requires
            old(self).wf(),
        ensures
            asked(*old(self), *final(self), Op::ExtraData),
            steps(
                *old(self),
                *final(self),
                Machine {
                    lent: true,
                    misused: old(self).machine().misused || old(self).machine().lent,
                    ..old(self).machine()
                },
            ),
            final(self).honest() ==> r@ == old(self).machine().extra,
    {
        match self.call(Op::ExtraData) {
            Reply::Extra(r) => r,
            _ => ExtraData::new(0, 0),
        }
    }

    /// Puts the extra data back.
    pub(crate) fn set_extra_data(&mut self, extra: ExtraData)
        requires
            old(self).wf(),
        ensures
            asked(*old(self), *final(self), Op::SetExtraData(extra)),
            steps(
                *old(self),
                *final(self),
                Machine { lent: false, extra: extra@, ..old(self).machine() },
            ),
    {
        let _ = self.call(Op::SetExtraData(extra));
    }

    /// Panics.
    pub(crate) fn panic(&mut self, message: &'static str)
        requires
            old(self).wf(),
        ensures
            asked(*old(self), *final(self), Op::Panic(message)),
            steps(*old(self), *final(self), Machine { panicked: true, ..old(self).machine() }),
    {
        let _ = self.call(Op::Panic(message));
    }

    /// Panics where debug assertions are checked.
    pub(crate) fn debug_panic(&mut self, message: &'static str)
        requires
            old(self).wf(),
        ensures
            asked(*old(self), *final(self), Op::DebugPanic(message)),
            steps(*old(self), *final(self), Machine { leaked: true, ..old(self).machine() }),
    {
        let _ = self.call(Op::DebugPanic(message));
    }

    /// Notes the height of the stack.
    pub(crate) fn stack_guard(&mut self) -> (r: usize)
        requires
            old(self).wf(),
        ensures
            asked(*old(self), *final(self), Op::StackGuard),
            steps(*old(self), *final(self), old(self).machine()),
            final(self).honest() ==> old(self).machine().counted(r),
    {
        match self.call(Op::StackGuard) {
            Reply::Count(r) => r,
            _ => 0,
        }
    }

    /// Cuts the stack back to the height that was noted.
    pub(crate) fn end_stack_guard(&mut self, height: usize)
        requires
            old(self).wf(),
        ensures
            asked(*old(self), *final(self), Op::EndStackGuard(height)),
            steps(
                *old(self),
                *final(self),
                Machine {
                    stack: if height < old(self).machine().stack.len() {
                        old(self).machine().stack.take(height as int)
                    } else {
                        old(self).machine().stack
                    },
                    ..old(self).machine()
                },
            ),
    {
        let _ = self.call(Op::EndStackGuard(height));
    }

    /// Reserves slots of the stack, or panics.
    pub(crate) fn assert_stack(&mut self, amount: usize)
        requires
            old(self).wf(),
        ensures
            asked(*old(self), *final(self), Op::AssertStack(amount)),
            steps(*old(self), *final(self), old(self).machine().reserving(amount as int)),
    {
        let _ = self.call(Op::AssertStack(amount));
    }

    /// Reserves slots of the stack.
    pub(crate) fn check_stack(&mut self, amount: usize) -> (r: Result<(), Error>)
        requires
            old(self).wf(),
        ensures
            asked(*old(self), *final(self), Op::CheckStack(amount)),
            steps(
                *old(self),
                *final(self),
                outcome(
                    r,
                    old(self).machine().reserve(amount as int),
                    old(self).machine(),
                    Attempt::CheckStack(amount),
                ),
            ),
            final(self).honest() && r is Ok ==> old(self).machine().stack.len() + amount
                <= LUAI_MAXSTACK,
    {
        match self.call(Op::CheckStack(amount)) {
            Reply::Failed(e) => Err(e),
            _ => Ok(()),
        }
    }

    /// `lua_gettop`
    pub(crate) fn lua_gettop(&mut self) -> (r: usize)
        requires
            old(self).wf(),
        ensures
            asked(*old(self), *final(self), Op::GetTop),
            steps(*old(self), *final(self), old(self).machine()),
            final(self).honest() ==> old(self).machine().counted(r),
    {
        match self.call(Op::GetTop) {
            Reply::Count(r) => r,
            _ => 0,
        }
    }

    /// Makes one call that answers nothing.
    pub(crate) fn run(&mut self, instr: Instr)
        requires
            old(self).wf(),
        ensures
            asked(*old(self), *final(self), Op::Do(instr)),
            steps(*old(self), *final(self), old(self).machine().apply(instr)),
    {
        let _ = self.call(Op::Do(instr));
    }

    /// Makes calls in protected mode.
    pub(crate) fn protect(&mut self, args: usize, body: Vec<Instr>) -> (r: Result<(), Error>)
        requires
            old(self).wf(),
        ensures
            asked(*old(self), *final(self), Op::Protect(args, body)),
            steps(
                *old(self),
                *final(self),
                outcome(
                    r,
                    old(self).machine().alone().run(body@),
                    old(self).machine().alone().popping(args as int),
                    Attempt::Protect(old(self).machine().top_slots(args as int), body@),
                ),
            ),
            final(self).honest() && r is Ok ==> !old(self).machine().run(body@).raised,
    {
        match self.call(Op::Protect(args, body)) {
            Reply::Failed(e) => Err(e),
            _ => Ok(()),
        }
    }

    /// Makes one call in protected mode.
    pub(crate) fn protect_one(&mut self, args: usize, instr: Instr) -> (r: Result<(), Error>)
        requires
            old(self).wf(),
        ensures
            exists|body: Vec<Instr>|
                body@ == seq![instr] && #[trigger] asked(
                    *old(self),
                    *final(self),
                    Op::Protect(args, body),
                ),
            steps(
                *old(self),
                *final(self),
                outcome(
                    r,
                    old(self).machine().alone().apply(instr),
                    old(self).machine().alone().popping(args as int),
                    Attempt::Protect(old(self).machine().top_slots(args as int), seq![instr]),
                ),
            ),
            final(self).honest() && r is Ok ==> !old(self).machine().apply(instr).raised,
    {
        let mut body: Vec<Instr> = Vec::new();
        body.push(instr);
        proof {
            assert(body@ =~= seq![instr]);
            lemma_run_one(old(self).machine(), body@);
            lemma_run_one(old(self).machine().alone(), body@);
        }
        self.protect(args, body)
    }

    /// Sets up a new state in protected mode, and gives the handle of its auxiliary thread.
    pub(crate) fn boot(&mut self, body: Vec<Instr>) -> (r: Result<usize, Error>)
        requires
            old(self).wf(),
        ensures
            asked(*old(self), *final(self), Op::Boot(body)),
            leads(
                *old(self),
                *final(self),
                match r {
                    Ok(handle) => old(self).machine().run(body@).booted(handle),
                    Err(e) => Machine {
                        exhausted: old(self).machine().exhausted || old(self).machine().aux_limit
                            == 0 && !old(self).machine().run(body@).raised,
                        ..old(self).machine().fault(Attempt::Boot(body@), e@)
                    },
                },
            ),
            final(self).honest() ==> (r matches Ok(handle) ==> {
                let booted = old(self).machine().run(body@);
                !booted.raised && !booted.heap.handles.contains_key(handle)
            }),
    {
        match self.call(Op::Boot(body)) {
            Reply::Thread(handle) => Ok(handle),
            Reply::Failed(e) => Err(e),
            _ => Ok(0),
        }
    }

    /// `lua_newthread` in protected mode.
    pub(crate) fn new_thread(&mut self) -> (r: Result<usize, Error>)
        requires
            old(self).wf(),
        ensures
            asked(*old(self), *final(self), Op::NewThread),
            steps(
                *old(self),
                *final(self),
                match r {
                    Ok(handle) => Machine {
                        heap: Heap {
                            handles: old(self).machine().heap.handles.insert(
                                handle,
                                old(self).machine().heap.next,
                            ),
                            ..old(self).machine().heap.with_thread()
                        },
                        ..old(self).machine().alone().pushing(
                            Slot::Thread(old(self).machine().heap.next),
                        )
                    },
                    Err(e) => old(self).machine().alone().fault(Attempt::NewThread, e@),
                },
            ),
            final(self).honest() ==> (r matches Ok(handle)
                ==> !old(self).machine().heap.handles.contains_key(handle)),
    {
        match self.call(Op::NewThread) {
            Reply::Thread(handle) => Ok(handle),
            Reply::Failed(e) => Err(e),
            _ => Ok(0),
        }
    }

    /// Pushes a string in protected mode.
    pub(crate) fn push_string(&mut self, bytes: Vec<u8>) -> (r: Result<(), Error>)
        requires
            old(self).wf(),
        ensures
            asked(*old(self), *final(self), Op::PushString(bytes)),
            steps(
                *old(self),
                *final(self),
                outcome(
                    r,
                    old(self).machine().alone().pushing(Slot::Str(bytes@)),
                    old(self).machine().alone(),
                    Attempt::PushString(bytes@),
                ),
            ),
    {
        match self.call(Op::PushString(bytes)) {
            Reply::Failed(e) => Err(e),
            _ => Ok(()),
        }
    }

    /// Pushes a userdata that wraps an error.
    pub(crate) fn push_wrapped_error(&mut self, error: Error)
        requires
            old(self).wf(),
        ensures
            asked(*old(self), *final(self), Op::PushWrappedError(error)),
            steps(
                *old(self),
                *final(self),
                old(self).machine().working(2).push(Slot::WrappedError(error@)),
            ),
    {
        let _ = self.call(Op::PushWrappedError(error));
    }

    /// Pushes a userdata that holds a callback in protected mode.
    pub(crate) fn push_callback(&mut self, callback: Callback) -> (r: Result<(), Error>)
        requires
            old(self).wf(),
        ensures
            asked(*old(self), *final(self), Op::PushCallback(callback)),
            steps(
                *old(self),
                *final(self),
                outcome(
                    r,
                    Machine {
                        heap: old(self).machine().heap.with_callback(callback),
                        ..old(self).machine().alone().pushing(
                            Slot::UserData(old(self).machine().heap.next),
                        )
                    },
                    old(self).machine().alone(),
                    Attempt::PushCallback(callback),
                ),
            ),
    {
        match self.call(Op::PushCallback(callback)) {
            Reply::Failed(e) => Err(e),
            _ => Ok(()),
        }
    }

    /// Pushes a userdata that holds a Rust value in protected mode.
    pub(crate) fn push_userdata(&mut self, payload: usize) -> (r: Result<(), Error>)
        requires
            old(self).wf(),
        ensures
            asked(*old(self), *final(self), Op::PushUserData(payload)),
            steps(
                *old(self),
                *final(self),
                outcome(
                    r,
                    Machine {
                        heap: old(self).machine().heap.with_payload(payload),
                        ..old(self).machine().alone().pushing(
                            Slot::UserData(old(self).machine().heap.next),
                        )
                    },
                    old(self).machine().alone(),
                    Attempt::PushUserData(payload),
                ),
            ),
    {
        match self.call(Op::PushUserData(payload)) {
            Reply::Failed(e) => Err(e),
            _ => Ok(()),
        }
    }

    /// Finishes the metatable of a userdata type.
    pub(crate) fn init_userdata_metatable(&mut self, members: bool) -> (r: Result<(), Error>)
        requires
            old(self).wf(),
        ensures
            asked(*old(self), *final(self), Op::InitUserdataMetatable(members)),
            steps(
                *old(self),
                *final(self),
                outcome(
                    r,
                    old(self).machine().alone().init_userdata_metatable(members),
                    old(self).machine().alone(),
                    Attempt::InitUserdataMetatable(members),
                ),
            ),
    {
        match self.call(Op::InitUserdataMetatable(members)) {
            Reply::Failed(e) => Err(e),
            _ => Ok(()),
        }
    }

    /// Lets a userdata type register its methods.
    pub(crate) fn add_methods(&mut self, kind: u64) -> (r: StaticUserDataMethods)
        requires
            old(self).wf(),
        ensures
            asked(*old(self), *final(self), Op::AddMethods(kind)),
            steps(
                *old(self),
                *final(self),
                Machine {
                    registrations: old(self).machine().registrations.push(kind),
                    ..old(self).machine()
                },
            ),
            final(self).honest() ==> r.wf() && r@ == (old(self).machine().laws.methods_of)(kind),
    {
        match self.call(Op::AddMethods(kind)) {
            Reply::Methods(r) => r,
            _ => StaticUserDataMethods::default(),
        }
    }

    /// `luaL_loadbuffer`
    pub(crate) fn load_buffer(&mut self, source: Vec<u8>, name: Option<Vec<u8>>) -> (r: i32)
        requires
            old(self).wf(),
        ensures
            asked(*old(self), *final(self), Op::LoadBuffer(source, name)),
            steps(
                *old(self),
                *final(self),
                old(self).machine().with_loaded(
                    Chunk { source: source@, name: name_view(name) },
                    r,
                ),
            ),
            final(self).honest() ==> {
                &&& r == LUA_OK ==> (old(self).machine().laws.compiles)(source@)
                &&& r == LUA_ERRSYNTAX ==> !(old(self).machine().laws.compiles)(source@)
            },
    {
        match self.call(Op::LoadBuffer(source, name)) {
            Reply::Status(r) => r,
            _ => LUA_OK,
        }
    }

    /// Takes the error that came with a status from the top.
    pub(crate) fn pop_error(&mut self, status: i32) -> (r: Error)
        requires
            old(self).wf(),
        ensures
            asked(*old(self), *final(self), Op::PopError(status)),
            steps(*old(self), *final(self), old(self).machine().with_error_popped(status, r@)),
    {
        match self.call(Op::PopError(status)) {
            Reply::Raised(e) => e,
            _ => Error::Other(0),
        }
    }

    /// `lua_type` of the top
    pub(crate) fn lua_type(&mut self) -> (r: i32)
        requires
            old(self).wf(),
        ensures
            asked(*old(self), *final(self), Op::Type),
            steps(*old(self), *final(self), old(self).machine()),
            final(self).honest() ==> r == old(self).machine().top_tag(),
    {
        match self.call(Op::Type) {
            Reply::Int(r) => r,
            _ => LUA_TNONE,
        }
    }

    /// `lua_type` of the first upvalue
    pub(crate) fn upvalue_type(&mut self) -> (r: i32)
        requires
            old(self).wf(),
        ensures
            asked(*old(self), *final(self), Op::UpvalueType),
            steps(*old(self), *final(self), old(self).machine()),
            final(self).honest() ==> r == old(self).machine().upvalue.tag(),
    {
        match self.call(Op::UpvalueType) {
            Reply::Int(r) => r,
            _ => LUA_TNONE,
        }
    }

    /// `lua_toboolean` of the top
    pub(crate) fn lua_toboolean(&mut self) -> (r: i32)
        requires
            old(self).wf(),
        ensures
            asked(*old(self), *final(self), Op::ToBoolean),
            steps(*old(self), *final(self), old(self).machine()),
            final(self).honest() ==> (r != 0 <==> !(old(self).machine().top(0) is Nil
                || old(self).machine().top(0) == Slot::Boolean(false))),
    {
        match self.call(Op::ToBoolean) {
            Reply::Int(r) => r,
            _ => 0,
        }
    }

    /// `lua_isinteger` of the top
    pub(crate) fn lua_isinteger(&mut self) -> (r: i32)
        requires
            old(self).wf(),
        ensures
            asked(*old(self), *final(self), Op::IsInteger),
            steps(*old(self), *final(self), old(self).machine()),
            final(self).honest() ==> (r != 0 <==> old(self).machine().top(0) is Integer),
    {
        match self.call(Op::IsInteger) {
            Reply::Int(r) => r,
            _ => 0,
        }
    }

    /// `lua_tointeger` of the top
    pub(crate) fn lua_tointeger(&mut self) -> (r: i64)
        requires
            old(self).wf(),
        ensures
            asked(*old(self), *final(self), Op::ToInteger),
            steps(*old(self), *final(self), old(self).machine()),
            final(self).honest() ==> r == match old(self).machine().laws.to_integer(
                old(self).machine().top(0),
            ) {
                Some(integer) => integer,
                None => 0,
            },
    {
        match self.call(Op::ToInteger) {
            Reply::Integer(r) => r,
            _ => 0,
        }
    }

    /// `lua_tonumber` of the top
    pub(crate) fn lua_tonumber(&mut self) -> (r: u64)
        requires
            old(self).wf(),
        ensures
            asked(*old(self), *final(self), Op::ToNumber),
            steps(*old(self), *final(self), old(self).machine()),
            final(self).honest() ==> r == match old(self).machine().laws.to_number(
                old(self).machine().top(0),
            ) {
                Some(number) => number,
                None => 0,
            },
    {
        match self.call(Op::ToNumber) {
            Reply::Number(r) => r,
            _ => 0,
        }
    }

    /// `lua_touserdata` of the top
    pub(crate) fn lua_touserdata(&mut self) -> (r: usize)
        requires
            old(self).wf(),
        ensures
            asked(*old(self), *final(self), Op::ToUserData),
            steps(*old(self), *final(self), old(self).machine()),
            final(self).honest() ==> (old(self).machine().top(
                0,
            ) matches Slot::LightUserData(held) ==> r == held),
    {
        match self.call(Op::ToUserData) {
            Reply::Address(r) => r,
            _ => 0,
        }
    }

    /// The error that the top wraps
    pub(crate) fn get_wrapped_error(&mut self) -> (r: Option<Error>)
        requires
            old(self).wf(),
        ensures
            asked(*old(self), *final(self), Op::GetWrappedError),
            steps(*old(self), *final(self), old(self).machine().working(2)),
            final(self).honest() ==> match old(self).machine().top(0) {
                Slot::WrappedError(held) => r matches Some(error) && error@ == held,
                _ => r is None,
            },
    {
        match self.call(Op::GetWrappedError) {
            Reply::Wrapped(r) => r,
            _ => None,
        }
    }

    /// `lua_tostring` of the top: whether there is a string now
    pub(crate) fn lua_tostring(&mut self) -> (r: bool)
        requires
            old(self).wf(),
        ensures
            asked(*old(self), *final(self), Op::ToStringValue),
            steps(
                *old(self),
                *final(self),
                match old(self).machine().laws.to_text(old(self).machine().top(0)) {
                    Some(text) => old(self).machine().popping(1).push(text),
                    None => old(self).machine(),
                },
            ),
            final(self).honest() ==> r == (old(self).machine().laws.to_text(
                old(self).machine().top(0),
            ) is Some),
    {
        match self.call(Op::ToStringValue) {
            Reply::Flag(r) => r,
            _ => false,
        }
    }

    /// `lua_tointegerx` of the top
    pub(crate) fn lua_tointegerx(&mut self) -> (r: (i64, i32))
        requires
            old(self).wf(),
        ensures
            asked(*old(self), *final(self), Op::ToIntegerX),
            steps(*old(self), *final(self), old(self).machine()),
            final(self).honest() ==> match old(self).machine().laws.to_integer(
                old(self).machine().top(0),
            ) {
                Some(exact) => r.1 != 0 && r.0 == exact,
                None => r.1 == 0,
            },
    {
        match self.call(Op::ToIntegerX) {
            Reply::IntegerX(value, exact) => (value, exact),
            _ => (0, 0),
        }
    }

    /// `lua_tonumberx` of the top
    pub(crate) fn lua_tonumberx(&mut self) -> (r: (u64, i32))
        requires
            old(self).wf(),
        ensures
            asked(*old(self), *final(self), Op::ToNumberX),
            steps(*old(self), *final(self), old(self).machine()),
            final(self).honest() ==> match old(self).machine().laws.to_number(
                old(self).machine().top(0),
            ) {
                Some(exact) => r.1 != 0 && r.0 == exact,
                None => r.1 == 0,
            },
    {
        match self.call(Op::ToNumberX) {
            Reply::NumberX(value, exact) => (value, exact),
            _ => (0, 0),
        }
    }

    /// `luaL_ref` on the registry
    pub(crate) fn lua_ref(&mut self) -> (r: i32)
        requires
            old(self).wf(),
        ensures
            asked(*old(self), *final(self), Op::Ref),
            leads(
                *old(self),
                *final(self),
                old(self).machine().referenced(r),
            ),
            final(self).honest() ==> if old(self).machine().top(0) is Nil {
                r == LUA_REFNIL
            } else {
                old(self).machine().heap.allottable(r) || old(self).machine().heap.crowded()
            },
    {
        match self.call(Op::Ref) {
            Reply::Int(r) => r,
            _ => LUA_REFNIL,
        }
    }

    /// `luaL_unref` on the registry
    pub(crate) fn lua_unref(&mut self, id: i32)
        requires
            old(self).wf(),
        ensures
            asked(*old(self), *final(self), Op::Unref(id)),
            steps(
                *old(self),
                *final(self),
                Machine {
                    heap: old(self).machine().heap.release(id),
                    misused: old(self).machine().misused || !(id < 0
                        || old(self).machine().heap.allotted.contains(id)),
                    ..old(self).machine()
                },
            ),
    {
        let _ = self.call(Op::Unref(id));
    }

    /// Puts an empty list in the place of the list of registry places to clear.
    pub(crate) fn replace_unref_list(&mut self) -> (r: Option<Vec<i32>>)
        requires
            old(self).wf(),
        ensures
            asked(*old(self), *final(self), Op::ReplaceUnrefList),
            steps(
                *old(self),
                *final(self),
                match r {
                    Some(ids) => Machine {
                        unref: Seq::empty(),
                        dropped: old(self).machine().dropped.push(ids@),
                        ..old(self).machine()
                    },
                    None => old(self).machine(),
                },
            ),
            final(self).honest() ==> match r {
                Some(ids) => {
                    &&& old(self).machine().unref_open
                    &&& old(self).machine().unref.is_prefix_of(ids@)
                    &&& old(self).machine().droppable(old(self).machine().unref)
                        ==> old(self).machine().droppable(ids@)
                },
                None => !old(self).machine().unref_open,
            },
    {
        match self.call(Op::ReplaceUnrefList) {
            Reply::List(r) => r,
            _ => None,
        }
    }

    /// Closes the list of registry places to clear.
    pub(crate) fn close_unref_list(&mut self)
        requires
            old(self).wf(),
        ensures
            asked(*old(self), *final(self), Op::CloseUnrefList),
            steps(
                *old(self),
                *final(self),
                Machine { unref_open: false, unref: Seq::empty(), ..old(self).machine() },
            ),
    {
        let _ = self.call(Op::CloseUnrefList);
    }

    /// Drops a registry key.
    pub(crate) fn drop_key(&mut self, key: RegistryKey)
        requires
            old(self).wf(),
        ensures
            asked(*old(self), *final(self), Op::DropKey(key)),
            steps(
                *old(self),
                *final(self),
                old(self).machine().after(Op::DropKey(key), Reply::Done),
            ),
    {
        let _ = self.call(Op::DropKey(key));
    }

    /// `lua_checkstack` on the auxiliary stack
    pub(crate) fn aux_check_stack(&mut self, thread: usize, amount: i32) -> (r: i32)
        requires
            old(self).wf(),
        ensures
            asked(*old(self), *final(self), Op::AuxCheckStack(thread, amount)),
            leads(
                *old(self),
                *final(self),
                if r == 0 {
                    Machine {
                        exhausted: old(self).machine().exhausted
                            || old(self).machine().needs_room(amount),
                        misused: old(self).machine().misused || thread
                            != old(self).machine().aux_thread,
                        ..old(self).machine()
                    }
                } else {
                    Machine {
                        aux_limit: if old(self).machine().aux.len() + amount
                            > old(self).machine().aux_limit {
                            old(self).machine().aux.len() + amount
                        } else {
                            old(self).machine().aux_limit
                        },
                        misused: old(self).machine().misused || thread
                            != old(self).machine().aux_thread,
                        ..old(self).machine()
                    }
                },
            ),
            final(self).honest() && r != 0 ==> old(self).machine().aux.len() + amount
                <= LUAI_MAXSTACK,
    {
        match self.call(Op::AuxCheckStack(thread, amount)) {
            Reply::Int(r) => r,
            _ => 0,
        }
    }

    /// `lua_gettop` of the auxiliary stack
    pub(crate) fn aux_gettop(&mut self, thread: usize) -> (r: i32)
        requires
            old(self).wf(),
        ensures
            asked(*old(self), *final(self), Op::AuxGetTop(thread)),
            steps(*old(self), *final(self), old(self).machine()),
            final(self).honest() && old(self).machine().aux.len() <= i32::MAX ==> r
                == old(self).machine().aux.len(),
    {
        match self.call(Op::AuxGetTop(thread)) {
            Reply::Int(r) => r,
            _ => 0,
        }
    }

    /// Calls a function.
    pub(crate) fn call_function(&mut self, index: i32, args: MultiValue) -> (r: Result<
        MultiValue,
        Error,
    >)
        requires
            old(self).wf(),
        ensures
            asked(*old(self), *final(self), Op::Call(index, args)),
            steps(
                *old(self),
                *final(self),
                match r {
                    Ok(got) => old(self).machine().called(
                        old(self).machine().pinned(index as int),
                        args@,
                        Some(got@),
                    ),
                    Err(e) => old(self).machine().called(
                        old(self).machine().pinned(index as int),
                        args@,
                        None,
                    ).fault(
                        Attempt::Call(
                            old(self).machine().pinned(index as int),
                            old(self).machine().slots_of(args@),
                        ),
                        e@,
                    ),
                },
            ),
            final(self).honest() ==> match r {
                Ok(got) => old(self).machine().can_run(slots_held(args@), returned(Some(got@))),
                Err(_) => old(self).machine().can_run(slots_held(args@), returned(None)),
            },
    {
        match self.call(Op::Call(index, args)) {
            Reply::Values(got) => Ok(got),
            Reply::Failed(e) => Err(e),
            _ => Ok(MultiValue::new()),
        }
    }

    /// Runs the callback in the first upvalue.
    pub(crate) fn invoke(&mut self, args: MultiValue) -> (r: Result<MultiValue, Error>)
        requires
            old(self).wf(),
        ensures
            asked(*old(self), *final(self), Op::Invoke(args)),
            steps(
                *old(self),
                *final(self),
                match r {
                    Ok(got) => old(self).machine().called(
                        old(self).machine().upvalue,
                        args@,
                        Some(got@),
                    ),
                    Err(e) => old(self).machine().called(
                        old(self).machine().upvalue,
                        args@,
                        None,
                    ).fault(
                        Attempt::Call(
                            old(self).machine().upvalue,
                            old(self).machine().slots_of(args@),
                        ),
                        e@,
                    ),
                },
            ),
            final(self).honest() ==> match r {
                Ok(got) => old(self).machine().can_run(slots_held(args@), returned(Some(got@))),
                Err(_) => old(self).machine().can_run(slots_held(args@), returned(None)),
            },
    {
        match self.call(Op::Invoke(args)) {
            Reply::Values(got) => Ok(got),
            Reply::Failed(e) => Err(e),
            _ => Ok(MultiValue::new()),
        }
    }

    /// Advances the iterator that fills a table.
    pub(crate) fn next_item(&mut self) -> (r: bool)
        requires
            old(self).wf(),
        ensures
            asked(*old(self), *final(self), Op::NextItem),
            steps(
                *old(self),
                *final(self),
                if r {
                    let later = old(self).machine().converted(Seq::empty());
                    Machine { yields: later.yields + 1, ..later }
                } else {
                    let later = old(self).machine().converted(Seq::empty());
                    Machine { ends: later.ends + 1, ..later }
                },
            ),
            final(self).honest() ==> old(self).machine().can_grow(Seq::empty()) && (r
                ==> old(self).machine().items.len() < u64::MAX),
    {
        match self.call(Op::NextItem) {
            Reply::Flag(r) => r,
            _ => false,
        }
    }

    /// The key of the item.
    pub(crate) fn item_key(&mut self) -> (r: Result<Value, Error>)
        requires
            old(self).wf(),
        ensures
            asked(*old(self), *final(self), Op::ItemKey),
            steps(
                *old(self),
                *final(self),
                match r {
                    Ok(got) => {
                        let later = old(self).machine().converted(seq![got]);
                        Machine { item_key: later.slot_of(got), ..later }
                    },
                    Err(e) => old(self).machine().converted(Seq::empty()).fault(
                        Attempt::ItemKey,
                        e@,
                    ),
                },
            ),
            final(self).honest() ==> match r {
                Ok(got) => old(self).machine().can_grow(seq![got]),
                Err(_) => old(self).machine().can_grow(Seq::empty()),
            },
    {
        match self.call(Op::ItemKey) {
            Reply::Value(got) => Ok(got),
            Reply::Failed(e) => Err(e),
            _ => Ok(Value::Nil),
        }
    }

    /// The value of the item.
    pub(crate) fn item_value(&mut self) -> (r: Result<Value, Error>)
        requires
            old(self).wf(),
        ensures
            asked(*old(self), *final(self), Op::ItemValue),
            steps(
                *old(self),
                *final(self),
                match r {
                    Ok(got) => {
                        let later = old(self).machine().converted(seq![got]);
                        Machine {
                            items: later.items.push((later.item_key, later.slot_of(got))),
                            ..later
                        }
                    },
                    Err(e) => old(self).machine().converted(Seq::empty()).fault(
                        Attempt::ItemValue,
                        e@,
                    ),
                },
            ),
            final(self).honest() ==> match r {
                Ok(got) => old(self).machine().can_grow(seq![got]),
                Err(_) => old(self).machine().can_grow(Seq::empty()),
            },
    {
        match self.call(Op::ItemValue) {
            Reply::Value(got) => Ok(got),
            Reply::Failed(e) => Err(e),
            _ => Ok(Value::Nil),
        }
    }

    /// Converts a position in a sequence.
    pub(crate) fn index_to_lua(&mut self, position: u64) -> (r: Result<Value, Error>)
        requires
            old(self).wf(),
        ensures
            asked(*old(self), *final(self), Op::IndexToLua(position)),
            steps(
                *old(self),
                *final(self),
                match r {
                    Ok(got) => Machine {
                        item_key: old(self).machine().slot_of(got),
                        ..old(self).machine()
                    },
                    Err(e) => old(self).machine().fault(Attempt::Position(position), e@),
                },
            ),
            final(self).honest() ==> match r {
                Ok(got) => if position <= i64::MAX {
                    got == Value::Integer(position as i64)
                } else {
                    got.handle() is None
                },
                Err(_) => position > i64::MAX,
            },
    {
        match self.call(Op::IndexToLua(position)) {
            Reply::Value(got) => Ok(got),
            Reply::Failed(e) => Err(e),
            _ => Ok(Value::Nil),
        }
    }

    /// `lua_sethook` with the hook of the library
    pub(crate) fn lua_sethook(&mut self, mask: i32, count: i32)
        requires
            old(self).wf(),
        ensures
            asked(*old(self), *final(self), Op::SetHook(mask, count)),
            steps(
                *old(self),
                *final(self),
                Machine { hook: Some((mask, count)), ..old(self).machine() },
            ),
    {
        let _ = self.call(Op::SetHook(mask, count));
    }

    /// `lua_sethook` without a hook
    pub(crate) fn lua_clearhook(&mut self)
        requires
            old(self).wf(),
        ensures
            asked(*old(self), *final(self), Op::ClearHook),
            steps(*old(self), *final(self), Machine { hook: None, ..old(self).machine() }),
    {
        let _ = self.call(Op::ClearHook);
    }

    /// `lua_close`
    pub(crate) fn lua_close(&mut self)
        requires
            old(self).wf(),
        ensures
            asked(*old(self), *final(self), Op::Close),
            steps(*old(self), *final(self), Machine { closed: true, ..old(self).machine() }),
    {
        let _ = self.call(Op::Close);
    }
}

} // verus!

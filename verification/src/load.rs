//! Loading and running chunks of Lua code.
use crate::answers::returned;
use crate::laws::law_exec_is_load_and_call;
use crate::lua::{Lua, lemma_at_rest, lemma_types_elsewhere, spent_only_if, steady};
use crate::machine::{
    Attempt, CallRecord, Chunk, Fault, LUA_ERRSYNTAX, LUA_OK, Machine, Slot, handle_count,
};
use crate::protocol::{Op, Reply};
use crate::relations::{
    lemma_called, lemma_cut, lemma_droppable_elsewhere, lemma_one_handle, lemma_one_less_held,
    lemma_outlives, lemma_same_rest,
};
use crate::value::{Error, ErrorView, Function, MultiValue, Value};
use vstd::prelude::*;
use vstd::slice::slice_to_vec;
use vstd::string::StringExecFns;
use vstd::utf8::encode_utf8;

verus! {

/// A number in decimal.
pub open spec fn decimal(n: nat) -> Seq<char>
    decreases n,
{
    if n < 10 {
        digit(n)
    } else {
        decimal(n / 10) + digit(n % 10)
    }
}

/// A decimal digit.
pub open spec fn digit(n: nat) -> Seq<char> {
    if n == 0 {
        "0"@
    } else if n == 1 {
        "1"@
    } else if n == 2 {
        "2"@
    } else if n == 3 {
        "3"@
    } else if n == 4 {
        "4"@
    } else if n == 5 {
        "5"@
    } else if n == 6 {
        "6"@
    } else if n == 7 {
        "7"@
    } else if n == 8 {
        "8"@
    } else {
        "9"@
    }
}

/// The first null byte is in this place.
pub open spec fn first_nul(bytes: Seq<u8>, place: int) -> bool {
    &&& 0 <= place < bytes.len()
    &&& bytes[place] == 0
    &&& forall|i: int| 0 <= i < place ==> bytes[i] != 0
}

/// The error for a name that cannot be handed to C, because this place of it holds a null byte.
pub open spec fn nul_error(place: nat) -> ErrorView {
    ErrorView::ToLuaConversionError {
        from: "&str"@,
        to: "string"@,
        message: Some("nul byte found in provided data at position: "@ + decimal(place)),
    }
}

/// The bytes of the name of a chunk.
pub open spec fn name_bytes(name: Option<&str>) -> Option<Seq<u8>> {
    match name {
        Some(text) => Some(encode_utf8(text@)),
        None => None,
    }
}

/// The name of a chunk holds a null byte.
pub open spec fn name_broken(name: Option<&str>) -> bool {
    name matches Some(text) && encode_utf8(text@).contains(0)
}

/// The error for a name that holds a null byte.
pub open spec fn name_error(name: Option<&str>) -> ErrorView {
    nul_error((choose|place: int| first_nul(name_bytes(name)->0, place)) as nat)
}

/// The source of a chunk that returns the value of an expression.
pub open spec fn return_source(source: Seq<u8>) -> Seq<u8> {
    encode_utf8("return "@) + source
}

impl Machine {
    /// The step from an earlier machine to this one ran Lua code and kept the stack and the
    /// references.
    pub open spec fn keeps(self, earlier: Machine) -> bool {
        &&& self.stack == earlier.stack
        &&& earlier.refs().submap_of(self.refs())
    }

    /// The values were handed out by the step from an earlier machine to this one.
    pub open spec fn hands_out_all(self, earlier: Machine, values: Seq<Value>) -> bool {
        &&& self.holds_all(values)
        &&& forall|i: int|
            0 <= i < values.len() && (#[trigger] values[i]).handle() is Some ==> !earlier.live(
                values[i].handle()->0.index as int,
            )
    }

    /// What a call with this result returned, unless it failed.
    pub open spec fn results_of(self, r: Result<MultiValue, Error>) -> Option<Seq<Slot>> {
        match r {
            Ok(values) => Some(self.slots_of(values@)),
            Err(_) => None,
        }
    }

    /// A function was made from a chunk, which compiles, by the step from an earlier machine to this
    /// one.
    pub open spec fn loaded_chunk(self, earlier: Machine, chunk: Chunk, f: Function) -> bool {
        &&& (earlier.laws.compiles)(chunk.source)
        &&& self.agrees(Machine { heap: earlier.heap.with_chunk(chunk), ..earlier })
        &&& self.hands_out(earlier, Value::Function(f), Slot::Function(earlier.heap.next))
    }

    /// A chunk was handed to Lua by the step from an earlier machine to this one, and could not be
    /// loaded: it does not compile, or something else is the matter, as the status says.
    pub open spec fn load_failed(self, earlier: Machine, chunk: Chunk, e: Error) -> bool {
        &&& self.faults.last().attempt matches Attempt::Load(tried, status)
        &&& tried == chunk
        &&& status != LUA_OK
        &&& status == LUA_ERRSYNTAX ==> !(earlier.laws.compiles)(chunk.source)
        &&& self.failed_with(earlier, Attempt::Load(chunk, status), e)
    }

    /// A function was called without arguments, with this result, and its handle was given up. The
    /// machine is what the function has left.
    pub open spec fn ran_function(
        self,
        earlier: Machine,
        func: Function,
        r: Result<MultiValue, Error>,
    ) -> bool {
        let target = earlier.slot_of(Value::Function(func));
        &&& self.agrees(
            match r {
                Ok(values) => earlier.called(target, Seq::empty(), Some(values@)),
                Err(e) => earlier.called(target, Seq::empty(), None).fault(
                    Attempt::Call(target, Seq::empty()),
                    e@,
                ),
            },
        )
        &&& earlier.outlives(self)
        &&& self.stack == earlier.stack
        &&& earlier.refs().remove(func.0.index as int).submap_of(self.refs())
        &&& self.calls == earlier.calls.push(
            CallRecord {
                target,
                chunk: earlier.heap.chunk_of(target),
                args: Seq::empty(),
                results: self.results_of(r),
            },
        )
        &&& match r {
            Ok(values) => {
                &&& self.faults == earlier.faults
                &&& self.hands_out_all(earlier, values@)
                &&& self.settled(earlier, handle_count(values@) - 1)
            },
            Err(e) => {
                &&& self.faults == earlier.faults.push(
                    Fault { attempt: Attempt::Call(target, Seq::empty()), error: e@ },
                )
                &&& self.settled(earlier, -1)
            },
        }
    }

    /// A function was called without arguments that was loaded from this chunk.
    pub open spec fn calls_chunk(self, earlier: Machine, chunk: Chunk) -> bool {
        &&& self.calls.len() == earlier.calls.len() + 1
        &&& self.calls.drop_last() == earlier.calls
        &&& self.calls.last().chunk == Some(chunk)
        &&& self.calls.last().args.len() == 0
    }

    /// A chunk was run from the earlier machine to this one, with this result: it was loaded, and the
    /// function was called. The machine is what the chunk has left, and no references are left but
    /// those to its values.
    pub open spec fn ran_chunk(
        self,
        earlier: Machine,
        chunk: Chunk,
        r: Result<MultiValue, Error>,
    ) -> bool {
        &&& exists|loaded: Machine, f: Function|
            {
                &&& #[trigger] loaded.loaded_chunk(earlier, chunk, f)
                &&& self.ran_function(loaded, f, r)
            }
        &&& earlier.outlives(self)
        &&& self.keeps(earlier)
        &&& self.calls_chunk(earlier, chunk)
        &&& self.calls.last().results == self.results_of(r)
        &&& match r {
            Ok(values) => {
                &&& self.faults == earlier.faults
                &&& self.hands_out_all(earlier, values@)
                &&& self.settled(earlier, handle_count(values@) as int)
            },
            Err(e) => {
                &&& self.faults == earlier.faults.push(
                    Fault {
                        attempt: Attempt::Call(self.calls.last().target, Seq::empty()),
                        error: e@,
                    },
                )
                &&& self.settled(earlier, 0)
            },
        }
    }
}

impl Machine {
    /// A source was evaluated from the earlier machine to this one, with this result: the expression
    /// was run; or it could not be loaded, and the statement was run, or could not be loaded either.
    pub open spec fn evaluated(
        self,
        earlier: Machine,
        expression: Chunk,
        statement: Chunk,
        r: Result<MultiValue, Error>,
    ) -> bool {
        ||| (earlier.laws.compiles)(expression.source) && self.ran_chunk(earlier, expression, r)
        ||| exists|tried: Machine, first: Error|
            {
                &&& #[trigger] tried.load_failed(earlier, expression, first)
                &&& {
                    ||| r matches Err(e) && self.load_failed(tried, statement, e)
                    ||| (earlier.laws.compiles)(statement.source) && self.ran_chunk(
                        tried,
                        statement,
                        r,
                    )
                }
            }
    }
}

/// Appends a number in decimal to a text.
fn append_decimal(text: &mut String, n: usize)
    ensures
        final(text)@ == old(text)@ + decimal(n as nat),
    decreases n,
{
    if n >= 10 {
        append_decimal(text, n / 10);
    }
    let last = n % 10;
    let symbol = if last == 0 {
        "0"
    } else if last == 1 {
        "1"
    } else if last == 2 {
        "2"
    } else if last == 3 {
        "3"
    } else if last == 4 {
        "4"
    } else if last == 5 {
        "5"
    } else if last == 6 {
        "6"
    } else if last == 7 {
        "7"
    } else if last == 8 {
        "8"
    } else {
        "9"
    };
    text.append(symbol);
    assert(text@ =~= old(text)@ + decimal(n as nat));
}

/// Finds the first null byte.
fn find_nul(bytes: &[u8]) -> (r: Option<usize>)
    ensures
        match r {
            Some(place) => first_nul(bytes@, place as int),
            None => !bytes@.contains(0),
        },
{
    let mut i: usize = 0;
    while i < bytes.len()
        invariant
            i <= bytes.len(),
            forall|j: int| 0 <= j < i ==> bytes@[j] != 0,
        decreases bytes.len() - i,
    {
        if bytes[i] == 0 {
            return Some(i);
        }
        i += 1;
    }
    None
}

/// The name of a chunk as C takes it.
fn chunk_name(name: Option<&str>) -> (r: Result<Option<Vec<u8>>, Error>)
    ensures
        match r {
            Ok(bytes) => !name_broken(name) && crate::answers::name_view(bytes) == name_bytes(name),
            Err(e) => name_broken(name) && e@ == name_error(name),
        },
{
    match name {
        None => Ok(None),
        Some(text) => {
            let bytes = text.as_bytes();
            match find_nul(bytes) {
                Some(place) => {
                    let mut message = String::from_str(
                        "nul byte found in provided data at position: ",
                    );
                    append_decimal(&mut message, place);
                    proof {
                        let chosen = choose|p: int| first_nul(name_bytes(name)->0, p);
                        assert(first_nul(bytes@, place as int));
                        assert(chosen == place);
                        assert(bytes@[place as int] == 0);
                    }
                    Err(
                        Error::ToLuaConversionError {
                            from: "&str",
                            to: "string",
                            message: Some(message),
                        },
                    )
                },
                None => Ok(Some(slice_to_vec(bytes))),
            }
        },
    }
}

impl<F: Fn(Op) -> Reply> Lua<F> {
    /// Loads a chunk of Lua code and returns it as a function.
    ///
    /// The source can be named by setting the `name` parameter. This is generally recommended as it
    /// results in better error traces.
    ///
    /// Equivalent to Lua's `load` function.
    pub fn load(&mut self, source: &[u8], name: Option<&str>) -> (r: Result<Function, Error>)
        requires
            old(self).inv(),
            old(self).roomy(1),
        ensures
            final(self).inv(),
            final(self).identity() == old(self).identity(),
            spent_only_if(old(self).machine().extra.full(), *old(self), *final(self)),
            r matches Ok(f) ==> final(self).accepts(Value::Function(f)),
            name_broken(name) ==> (r matches Err(e) && e@ == name_error(name)),
            final(self).good() ==> {
                let m = old(self).machine();
                let post = final(self).machine();
                let chunk = Chunk { source: source@, name: name_bytes(name) };
                &&& old(self).good()
                &&& r is Err ==> post.extra == m.extra
                &&& if name_broken(name) {
                    post.agrees(m) && post.refs() == m.refs()
                } else {
                    match r {
                        Ok(f) => post.loaded_chunk(m, chunk, f),
                        Err(e) => post.load_failed(m, chunk, e),
                    }
                }
            },
    {
        let guard = self.enter(1);
        let ghost entered = self.machine();
        let r = match chunk_name(name) {
            Err(e) => Err(e),
            Ok(bytes) => {
                let status = self.state.load_buffer(slice_to_vec(source), bytes);
                proof {
                    if self.good() {
                        lemma_loaded(entered, self.machine(), status);
                    }
                }
                self.take_loaded(status)
            },
        };
        let ghost left = self.machine();
        self.leave(guard);
        proof {
            if self.good() {
                let m = old(self).machine();
                lemma_cut(left.stack, m.stack);
                if r is Ok {
                    let index = (r->Ok_0).0.index as int;
                    assert(self.machine().refs().contains_key(index));
                    assert(self.machine().refs()[index] == Slot::Function(m.heap.next));
                }
            }
        }
        r
    }

    /// Takes what loading a chunk has left on the top of the stack, as the status says: the function,
    /// or an error.
    pub fn take_loaded(&mut self, status: i32) -> (r: Result<Function, Error>)
        requires
            old(self).inv(),
            old(self).good() ==> {
                let m = old(self).machine();
                &&& m.stack.len() > 0
                &&& if status == LUA_OK {
                    m.top(0) is Function
                } else {
                    m.top(0) is Raised && m.top(0)->Raised_1 == status
                }
            },
        ensures
            final(self).inv(),
            final(self).identity() == old(self).identity(),
            spent_only_if(old(self).machine().extra.full(), *old(self), *final(self)),
            r is Ok <==> status == LUA_OK,
            r matches Ok(f) ==> final(self).accepts(Value::Function(f)),
            final(self).good() ==> {
                let m = old(self).machine();
                let post = final(self).machine();
                &&& old(self).good()
                &&& r is Err ==> post.extra == m.extra
                &&& match r {
                    Ok(f) => post.agrees(m.pop(1)) && post.hands_out(
                        m,
                        Value::Function(f),
                        m.top(0),
                    ),
                    Err(e) => post.failed_with(
                        m.pop(1),
                        Attempt::Load(m.top(0)->Raised_0, status),
                        e,
                    ) && post.refs() == m.refs(),
                }
            },
    {
        if status == LUA_OK {
            let lref = self.pop_ref();
            proof {
                if self.good() {
                    assert(self.machine().refs().contains_key(lref.index as int));
                    assert(self.machine().refs()[lref.index as int] == old(self).machine().top(0));
                }
            }
            Ok(Function(lref))
        } else {
            let e = self.state.pop_error(status);
            proof {
                if self.good() {
                    let m = old(self).machine();
                    assert(self.machine().refs() =~= m.refs());
                    assert(m.pop(1).refs() =~= m.refs());
                    lemma_at_rest(m, m.pop(1));
                    lemma_same_rest(m.pop(1), self.machine());
                }
            }
            Err(e)
        }
    }

    /// Calls a function without arguments, and gives its handle up.
    fn call_chunk(&mut self, func: Function) -> (r: Result<MultiValue, Error>)
        requires
            old(self).inv(),
            old(self).accepts(Value::Function(func)),
        ensures
            final(self).inv(),
            final(self).identity() == old(self).identity(),
            steady(*old(self), *final(self)),
            final(self).good() ==> {
                let m = old(self).machine();
                let post = final(self).machine();
                old(self).good() && post.ran_function(m, func, r)
            },
    {
        let args = MultiValue::new();
        let ghost given = args;
        let index = func.0.index;
        let r = self.state.call_function(index, args);
        let ghost called = self.machine();
        proof {
            let m = old(self).machine();
            let target = m.slot_of(Value::Function(func));
            if self.good() {
                let got = if r is Ok {
                    Some((r->Ok_0)@)
                } else {
                    None
                };
                lemma_called(m, target, given@, got);
                assert(given@ =~= Seq::empty());
                assert(m.slots_of(given@) =~= Seq::empty());
                let quiet = m.called(target, given@, got);
                lemma_same_rest(quiet, called);
                lemma_outlives(m, m, Machine { calls: m.calls, ..quiet }, called);
                assert forall|i: int| m.live(i) implies called.live(i) && called.pinned(i)
                    == m.pinned(i) by {
                }
                assert(called.holds(Value::Function(func))) by {
                    assert(called.live(index as int));
                    assert(m.holds(Value::Function(func)));
                }
                assert(called.holds_all(returned(got))) by {
                    assert forall|i: int| 0 <= i < returned(got).len() implies called.holds(
                        #[trigger] returned(got)[i],
                    ) by {
                        assert(quiet.holds(returned(got)[i]));
                    }
                }
            }
        }
        self.drop_ref(func.0);
        proof {
            if self.good() {
                let m = old(self).machine();
                let post = self.machine();
                lemma_outlives(m, m, called, post);
                lemma_one_less_held(called, post, Value::Function(func));
                lemma_one_handle(Value::Function(func));
                assert forall|i: int| #[trigger] m.refs().remove(index as int).contains_key(
                    i,
                ) implies (#[trigger] post.refs().contains_key(i)) && m.refs().remove(
                    index as int,
                )[i] == post.refs()[i] by {
                    assert(m.live(i));
                    assert(called.refs().contains_key(i));
                }
                if r is Ok {
                    let got = (r->Ok_0)@;
                    assert forall|i: int| 0 <= i < got.len() implies post.holds(
                        #[trigger] got[i],
                    ) && (got[i].handle() is Some ==> !m.live(
                        got[i].handle()->0.index as int,
                    )) by {
                        assert(called.holds(got[i]));
                        if got[i].handle() is Some {
                            let k = got[i].handle()->0.index as int;
                            assert(!m.live(k));
                            assert(called.refs().contains_key(k));
                            assert(post.refs().contains_key(k));
                            assert(post.refs()[k] == called.refs()[k]);
                        }
                    }
                    assert(post.slots_of(got) =~= called.slots_of(got)) by {
                        assert forall|i: int| 0 <= i < got.len() implies post.slot_of(
                            #[trigger] got[i],
                        ) == called.slot_of(got[i]) by {
                            if got[i].handle() is Some {
                                let k = got[i].handle()->0.index as int;
                                assert(called.holds(got[i]));
                                assert(called.refs().contains_key(k));
                                assert(post.refs()[k] == called.refs()[k]);
                            }
                        }
                    }
                }
            }
        }
        r
    }

    /// Execute a chunk of Lua code.
    ///
    /// This is equivalent to simply loading the source with `load` and then calling the resulting
    /// function with no arguments.
    ///
    /// Returns the values returned by the chunk.
    pub fn exec(&mut self, source: &[u8], name: Option<&str>) -> (r: Result<MultiValue, Error>)
        requires
            old(self).inv(),
            old(self).roomy(1),
        ensures
            final(self).inv(),
            final(self).identity() == old(self).identity(),
            spent_only_if(old(self).machine().extra.full(), *old(self), *final(self)),
            name_broken(name) ==> (r matches Err(e) && e@ == name_error(name)),
            final(self).good() ==> {
                let m = old(self).machine();
                let post = final(self).machine();
                let chunk = Chunk { source: source@, name: name_bytes(name) };
                &&& old(self).good()
                &&& if name_broken(name) {
                    post.agrees(m) && post.refs() == m.refs()
                } else {
                    ||| r matches Err(e) && post.load_failed(m, chunk, e)
                    ||| (m.laws.compiles)(chunk.source) && post.ran_chunk(m, chunk, r)
                }
            },
    {
        match self.load(source, name) {
            Err(e) => Err(e),
            Ok(func) => {
                let ghost loaded = self.machine();
                let ghost f = func;
                let r = self.call_chunk(func);
                proof {
                    if self.good() {
                        let chunk = Chunk { source: source@, name: name_bytes(name) };
                        law_exec_is_load_and_call(
                            old(self).machine(),
                            loaded,
                            self.machine(),
                            chunk,
                            f,
                            r,
                        );
                    }
                }
                r
            },
        }
    }

    /// Evaluate the given expression or chunk inside this Lua state.
    ///
    /// If `source` is an expression, returns the value it evaluates to. Otherwise, returns the
    /// values returned by the chunk (if any).
    pub fn eval(&mut self, source: &[u8], name: Option<&str>) -> (r: Result<MultiValue, Error>)
        requires
            old(self).inv(),
            old(self).roomy(1),
        ensures
            final(self).inv(),
            final(self).identity() == old(self).identity(),
            spent_only_if(old(self).machine().extra.full(), *old(self), *final(self)),
            name_broken(name) ==> (r matches Err(e) && e@ == name_error(name)),
            final(self).good() ==> {
                let m = old(self).machine();
                let post = final(self).machine();
                let expression = Chunk {
                    source: return_source(source@),
                    name: name_bytes(name),
                };
                let statement = Chunk { source: source@, name: name_bytes(name) };
                &&& old(self).good()
                &&& if name_broken(name) {
                    post.agrees(m) && post.refs() == m.refs()
                } else {
                    post.evaluated(m, expression, statement, r)
                }
            },
    {
        // First, try interpreting the lua as an expression by adding "return", then as a
        // statement.  This is the same thing the actual lua repl does.
        let mut return_source = slice_to_vec("return ".as_bytes());
        return_source.extend_from_slice(source);
        proof {
            assert(return_source@ =~= self::return_source(source@));
        }
        match self.load(return_source.as_slice(), name) {
            Ok(func) => {
                let ghost loaded = self.machine();
                let ghost f = func;
                let r = self.call_chunk(func);
                proof {
                    if self.good() {
                        let chunk = Chunk {
                            source: self::return_source(source@),
                            name: name_bytes(name),
                        };
                        law_exec_is_load_and_call(
                            old(self).machine(),
                            loaded,
                            self.machine(),
                            chunk,
                            f,
                            r,
                        );
                    }
                }
                r
            },
            Err(first) => {
                let ghost failed = self.machine();
                match self.load(source, name) {
                    Err(e) => {
                        proof {
                            if self.good() && !name_broken(name) {
                                let chunk = Chunk {
                                    source: self::return_source(source@),
                                    name: name_bytes(name),
                                };
                                assert(failed.load_failed(old(self).machine(), chunk, first));
                            }
                        }
                        Err(e)
                    },
                    Ok(func) => {
                        let ghost loaded = self.machine();
                        let ghost f = func;
                        let r = self.call_chunk(func);
                        proof {
                            if self.good() {
                                let m = old(self).machine();
                                let chunk = Chunk { source: source@, name: name_bytes(name) };
                                let expression = Chunk {
                                    source: self::return_source(source@),
                                    name: name_bytes(name),
                                };
                                assert(failed.load_failed(m, expression, first));
                                law_exec_is_load_and_call(
                                    failed,
                                    loaded,
                                    self.machine(),
                                    chunk,
                                    f,
                                    r,
                                );
                            }
                        }
                        r
                    },
                }
            },
        }
    }
}

/// The machine is at rest with what loading a chunk has left on its stack.
proof fn lemma_loaded(m: Machine, post: Machine, status: i32)
    requires
        m.ready(),
        m.stack.len() < m.limit,
        exists|chunk: Chunk| post == #[trigger] m.with_loaded(chunk, status),
    ensures
        post.ready(),
        post.refs() == m.refs(),
{
    assert(post.refs() =~= m.refs());
    lemma_droppable_elsewhere(m, post, m.unref);
    lemma_types_elsewhere(m, post);
}

} // verus!

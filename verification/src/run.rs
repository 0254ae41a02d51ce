//! How Rust functions are run on behalf of Lua.
//!
//! The functions here fix the order in which arguments are converted, a function that must not be
//! entered twice is claimed, the function is called, and its results are converted, and which error
//! ends this. What the single steps do is given to them. A step that comes after another one, or while
//! something is held, is shown what the other one brought, or what is held.
use crate::lua::Lua;
use crate::machine::LUA_OK;
use crate::protocol::{Op, Reply};
use crate::userdata::StaticUserDataMethods;
use crate::value::{Error, ErrorView, MultiValue, Value};
use std::collections::VecDeque;
use vstd::prelude::*;

verus! {

/// A function was called, and what it returned was converted.
pub open spec fn called_with<A, R, O, Q, S>(
    a: A,
    function: Q,
    to_lua: S,
    r: Result<O, Error>,
) -> bool where Q: FnOnce(A) -> Result<R, Error>, S: FnOnce(R) -> Result<O, Error> {
    exists|b: Result<R, Error>| #[trigger]
        call_ensures(function, (a,), b) && match b {
            Err(e) => r == Err::<O, Error>(e),
            Ok(returned) => call_ensures(to_lua, (returned,), r),
        }
}

/// Arguments were converted, a function was called with them, and what it returned was converted.
pub open spec fn function_ran<V, A, R, O, P, Q, S>(
    args: V,
    from_lua: P,
    function: Q,
    to_lua: S,
    r: Result<O, Error>,
) -> bool where
    P: FnOnce(V) -> Result<A, Error>,
    Q: FnOnce(A) -> Result<R, Error>,
    S: FnOnce(R) -> Result<O, Error>,
 {
    exists|a: Result<A, Error>| #[trigger]
        call_ensures(from_lua, (args,), a) && match a {
            Err(e) => r == Err::<O, Error>(e),
            Ok(converted) => called_with(converted, function, to_lua, r),
        }
}

/// A function was called with something that it owns meanwhile, and what it returned was converted.
pub open spec fn called_owning<G, A, R, O, Q, S>(
    owned: G,
    a: A,
    function: Q,
    to_lua: S,
    r: Result<O, Error>,
) -> bool where Q: FnOnce(G, A) -> Result<R, Error>, S: FnOnce(R) -> Result<O, Error> {
    exists|b: Result<R, Error>| #[trigger]
        call_ensures(function, (owned, a), b) && match b {
            Err(e) => r == Err::<O, Error>(e),
            Ok(returned) => call_ensures(to_lua, (returned,), r),
        }
}

/// A function was called with something that it hands back, and what it returned was converted by
/// someone who was shown what is still held.
pub open spec fn called_holding<G, A, R, O, Q, S>(
    owned: G,
    a: A,
    function: Q,
    to_lua: S,
    r: Result<O, Error>,
) -> bool where Q: FnOnce(G, A) -> (G, Result<R, Error>), S: FnOnce(&G, R) -> Result<O, Error> {
    exists|b: (G, Result<R, Error>)| #[trigger]
        call_ensures(function, (owned, a), b) && match b.1 {
            Err(e) => r == Err::<O, Error>(e),
            Ok(returned) => call_ensures(to_lua, (&b.0, returned), r),
        }
}

/// Arguments were converted, and a function was called with them and with something that was held
/// meanwhile: who converted the arguments was shown it, and so was who converted the results.
pub open spec fn holding_ran<G, V, A, R, O, P, Q, S>(
    owned: G,
    args: V,
    from_lua: P,
    function: Q,
    to_lua: S,
    r: Result<O, Error>,
) -> bool where
    P: FnOnce(&G, V) -> Result<A, Error>,
    Q: FnOnce(G, A) -> (G, Result<R, Error>),
    S: FnOnce(&G, R) -> Result<O, Error>,
 {
    exists|a: Result<A, Error>| #[trigger]
        call_ensures(from_lua, (&owned, args), a) && match a {
            Err(e) => r == Err::<O, Error>(e),
            Ok(converted) => called_holding(owned, converted, function, to_lua, r),
        }
}

/// A function that must not be entered twice was run: its arguments were converted, and it was claimed
/// for them.
pub open spec fn function_mut_ran<G, V, A, R, O, C, P, Q, S>(
    args: V,
    from_lua: P,
    claim: C,
    function: Q,
    to_lua: S,
    r: Result<O, Error>,
) -> bool where
    C: FnOnce(&A) -> Option<G>,
    P: FnOnce(V) -> Result<A, Error>,
    Q: FnOnce(G, A) -> Result<R, Error>,
    S: FnOnce(R) -> Result<O, Error>,
 {
    exists|a: Result<A, Error>| #[trigger]
        call_ensures(from_lua, (args,), a) && match a {
            Err(e) => r == Err::<O, Error>(e),
            Ok(converted) => exists|g: Option<G>| #[trigger]
                call_ensures(claim, (&converted,), g) && match g {
                    None => r == Err::<O, Error>(Error::RecursiveMutCallback),
                    Some(owned) => called_owning(owned, converted, function, to_lua, r),
                },
        }
}

/// A function of a userdata type that must not be entered twice was run: it was claimed, and the claim
/// was held while its arguments and its results were converted.
pub open spec fn static_function_mut_ran<G, V, A, R, O, C, P, Q, S>(
    args: V,
    claim: C,
    from_lua: P,
    function: Q,
    to_lua: S,
    r: Result<O, Error>,
) -> bool where
    C: FnOnce() -> Option<G>,
    P: FnOnce(&G, V) -> Result<A, Error>,
    Q: FnOnce(G, A) -> (G, Result<R, Error>),
    S: FnOnce(&G, R) -> Result<O, Error>,
 {
    exists|g: Option<G>| #[trigger]
        call_ensures(claim, (), g) && match g {
            None => r == Err::<O, Error>(Error::RecursiveMutCallback),
            Some(owned) => holding_ran(owned, args, from_lua, function, to_lua, r),
        }
}

/// The error for a method that was called without its userdata.
pub open spec fn missing_userdata() -> ErrorView {
    ErrorView::FromLuaConversionError {
        from: "missing argument"@,
        to: "userdata"@,
        message: None,
    }
}

/// The userdata that a method is called on was borrowed, or could not be.
pub open spec fn borrowed<V, W, U, T, B>(
    front: V,
    to_userdata: T,
    borrow: B,
    u: Result<U, Error>,
) -> bool where T: FnOnce(V) -> Result<W, Error>, B: FnOnce(W) -> Result<U, Error> {
    exists|w: Result<W, Error>| #[trigger]
        call_ensures(to_userdata, (front,), w) && match w {
            Err(e) => u == Err::<U, Error>(e),
            Ok(userdata) => call_ensures(borrow, (userdata,), u),
        }
}

/// A method that reads its userdata was run: the first argument was borrowed, and the borrow was held
/// while the other arguments and the results were converted.
pub open spec fn method_ran<V, W, U, A, R, O, T, B, P, Q, S>(
    args: Seq<V>,
    to_userdata: T,
    borrow: B,
    from_lua: P,
    method: Q,
    to_lua: S,
    r: Result<O, Error>,
) -> bool where
    T: FnOnce(V) -> Result<W, Error>,
    B: FnOnce(W) -> Result<U, Error>,
    P: FnOnce(&U, VecDeque<V>) -> Result<A, Error>,
    Q: FnOnce(U, A) -> (U, Result<R, Error>),
    S: FnOnce(&U, R) -> Result<O, Error>,
 {
    if args.len() == 0 {
        r matches Err(e) && e@ == missing_userdata()
    } else {
        exists|u: Result<U, Error>, rest: VecDeque<V>|
            {
                &&& #[trigger] borrowed(args[0], to_userdata, borrow, u)
                &&& #[trigger] rest@ == args.drop_first()
                &&& match u {
                    Err(e) => r == Err::<O, Error>(e),
                    Ok(owned) => holding_ran(owned, rest, from_lua, method, to_lua, r),
                }
            }
    }
}

/// A method that changes its userdata was run: the first argument was borrowed, the method was claimed
/// while the borrow was held, and both were held while the other arguments and the results were
/// converted.
pub open spec fn method_mut_ran<V, W, U, G, A, R, O, T, B, C, P, Q, S>(
    args: Seq<V>,
    to_userdata: T,
    borrow: B,
    claim: C,
    from_lua: P,
    method: Q,
    to_lua: S,
    r: Result<O, Error>,
) -> bool where
    T: FnOnce(V) -> Result<W, Error>,
    B: FnOnce(W) -> Result<U, Error>,
    C: FnOnce(&U) -> Option<G>,
    P: FnOnce(&(U, G), VecDeque<V>) -> Result<A, Error>,
    Q: FnOnce((U, G), A) -> ((U, G), Result<R, Error>),
    S: FnOnce(&(U, G), R) -> Result<O, Error>,
 {
    if args.len() == 0 {
        r matches Err(e) && e@ == missing_userdata()
    } else {
        exists|u: Result<U, Error>, rest: VecDeque<V>|
            {
                &&& #[trigger] borrowed(args[0], to_userdata, borrow, u)
                &&& #[trigger] rest@ == args.drop_first()
                &&& match u {
                    Err(e) => r == Err::<O, Error>(e),
                    Ok(owned) => exists|g: Option<G>| #[trigger]
                        call_ensures(claim, (&owned,), g) && match g {
                            None => r == Err::<O, Error>(Error::RecursiveMutCallback),
                            Some(claimed) => holding_ran(
                                (owned, claimed),
                                rest,
                                from_lua,
                                method,
                                to_lua,
                                r,
                            ),
                        },
                }
            }
    }
}

/// Runs a function: converts its arguments, calls it, and converts what it returns.
pub fn run_function<V, A, R, O, P, Q, S>(
    args: V,
    from_lua: P,
    function: Q,
    to_lua: S,
) -> (r: Result<O, Error>) where
    P: FnOnce(V) -> Result<A, Error>,
    Q: FnOnce(A) -> Result<R, Error>,
    S: FnOnce(R) -> Result<O, Error>,

    requires
        call_requires(from_lua, (args,)),
        forall|a: A| call_requires(function, (a,)),
        forall|b: R| call_requires(to_lua, (b,)),
    ensures
        function_ran(args, from_lua, function, to_lua, r),
{
    let converted = from_lua(args);
    assert(call_ensures(from_lua, (args,), converted));
    match converted {
        Err(e) => Err(e),
        Ok(a) => {
            let returned = function(a);
            assert(call_ensures(function, (a,), returned));
            match returned {
                Err(e) => Err(e),
                Ok(b) => to_lua(b),
            }
        },
    }
}

/// Runs a function that must not be entered again while it runs: converts its arguments, claims it,
/// calls it, and converts what it returns.
pub fn run_function_mut<G, V, A, R, O, C, P, Q, S>(
    args: V,
    from_lua: P,
    claim: C,
    function: Q,
    to_lua: S,
) -> (r: Result<O, Error>) where
    C: FnOnce(&A) -> Option<G>,
    P: FnOnce(V) -> Result<A, Error>,
    Q: FnOnce(G, A) -> Result<R, Error>,
    S: FnOnce(R) -> Result<O, Error>,

    requires
        forall|a: A| call_requires(claim, (&a,)),
        call_requires(from_lua, (args,)),
        forall|g: G, a: A| call_requires(function, (g, a)),
        forall|b: R| call_requires(to_lua, (b,)),
    ensures
        function_mut_ran(args, from_lua, claim, function, to_lua, r),
{
    let converted = from_lua(args);
    assert(call_ensures(from_lua, (args,), converted));
    match converted {
        Err(e) => Err(e),
        Ok(a) => {
            let claimed = claim(&a);
            assert(call_ensures(claim, (&a,), claimed));
            match claimed {
                None => Err(Error::RecursiveMutCallback),
                Some(owned) => call_owning(owned, a, function, to_lua),
            }
        },
    }
}

/// Calls a function with something that it owns meanwhile, and converts what it returns.
fn call_owning<G, A, R, O, Q, S>(owned: G, a: A, function: Q, to_lua: S) -> (r: Result<
    O,
    Error,
>) where Q: FnOnce(G, A) -> Result<R, Error>, S: FnOnce(R) -> Result<O, Error>
    requires
        call_requires(function, (owned, a)),
        forall|b: R| call_requires(to_lua, (b,)),
    ensures
        called_owning(owned, a, function, to_lua, r),
{
    let returned = function(owned, a);
    assert(call_ensures(function, (owned, a), returned));
    match returned {
        Err(e) => Err(e),
        Ok(b) => to_lua(b),
    }
}

/// Converts arguments while something is held, calls a function with both, which hands back what is
/// held, and converts what it returns while that is still held.
fn run_holding<G, V, A, R, O, P, Q, S>(
    owned: G,
    args: V,
    from_lua: P,
    function: Q,
    to_lua: S,
) -> (r: Result<O, Error>) where
    P: FnOnce(&G, V) -> Result<A, Error>,
    Q: FnOnce(G, A) -> (G, Result<R, Error>),
    S: FnOnce(&G, R) -> Result<O, Error>,

    requires
        call_requires(from_lua, (&owned, args)),
        forall|a: A| call_requires(function, (owned, a)),
        forall|g: G, b: R| call_requires(to_lua, (&g, b)),
    ensures
        holding_ran(owned, args, from_lua, function, to_lua, r),
{
    let converted = from_lua(&owned, args);
    assert(call_ensures(from_lua, (&owned, args), converted));
    match converted {
        Err(e) => Err(e),
        Ok(a) => {
            let b = function(owned, a);
            assert(call_ensures(function, (owned, a), b));
            let (held, returned) = b;
            match returned {
                Err(e) => Err(e),
                Ok(b) => to_lua(&held, b),
            }
        },
    }
}

/// Borrows the userdata that a method is called on.
fn borrow_front<V, W, U, T, B>(front: V, to_userdata: T, borrow: B) -> (u: Result<U, Error>) where
    T: FnOnce(V) -> Result<W, Error>,
    B: FnOnce(W) -> Result<U, Error>,

    requires
        call_requires(to_userdata, (front,)),
        forall|w: W| call_requires(borrow, (w,)),
    ensures
        borrowed(front, to_userdata, borrow, u),
{
    let userdata = to_userdata(front);
    assert(call_ensures(to_userdata, (front,), userdata));
    match userdata {
        Err(e) => Err(e),
        Ok(w) => borrow(w),
    }
}

impl StaticUserDataMethods {
    /// Runs a function of a userdata type.
    pub fn box_function<V, A, R, O, P, Q, S>(
        args: V,
        from_lua: P,
        function: Q,
        to_lua: S,
    ) -> (r: Result<O, Error>) where
        P: FnOnce(V) -> Result<A, Error>,
        Q: FnOnce(A) -> Result<R, Error>,
        S: FnOnce(R) -> Result<O, Error>,

        requires
            call_requires(from_lua, (args,)),
            forall|a: A| call_requires(function, (a,)),
            forall|b: R| call_requires(to_lua, (b,)),
        ensures
            function_ran(args, from_lua, function, to_lua, r),
    {
        run_function(args, from_lua, function, to_lua)
    }

    /// Runs a function of a userdata type that must not be entered again while it runs or its results
    /// are converted.
    pub fn box_function_mut<G, V, A, R, O, C, P, Q, S>(
        args: V,
        claim: C,
        from_lua: P,
        function: Q,
        to_lua: S,
    ) -> (r: Result<O, Error>) where
        C: FnOnce() -> Option<G>,
        P: FnOnce(&G, V) -> Result<A, Error>,
        Q: FnOnce(G, A) -> (G, Result<R, Error>),
        S: FnOnce(&G, R) -> Result<O, Error>,

        requires
            call_requires(claim, ()),
            forall|g: G| call_requires(from_lua, (&g, args)),
            forall|g: G, a: A| call_requires(function, (g, a)),
            forall|g: G, b: R| call_requires(to_lua, (&g, b)),
        ensures
            static_function_mut_ran(args, claim, from_lua, function, to_lua, r),
    {
        let claimed = claim();
        assert(call_ensures(claim, (), claimed));
        match claimed {
            None => Err(Error::RecursiveMutCallback),
            Some(owned) => run_holding(owned, args, from_lua, function, to_lua),
        }
    }

    /// Runs a method that reads its userdata, which stays borrowed until the results are converted.
    pub fn box_method<V, W, U, A, R, O, T, B, P, Q, S>(
        args: VecDeque<V>,
        to_userdata: T,
        borrow: B,
        from_lua: P,
        method: Q,
        to_lua: S,
    ) -> (r: Result<O, Error>) where
        T: FnOnce(V) -> Result<W, Error>,
        B: FnOnce(W) -> Result<U, Error>,
        P: FnOnce(&U, VecDeque<V>) -> Result<A, Error>,
        Q: FnOnce(U, A) -> (U, Result<R, Error>),
        S: FnOnce(&U, R) -> Result<O, Error>,

        requires
            forall|v: V| call_requires(to_userdata, (v,)),
            forall|w: W| call_requires(borrow, (w,)),
            forall|u: U, rest: VecDeque<V>| call_requires(from_lua, (&u, rest)),
            forall|u: U, a: A| call_requires(method, (u, a)),
            forall|u: U, b: R| call_requires(to_lua, (&u, b)),
        ensures
            method_ran(args@, to_userdata, borrow, from_lua, method, to_lua, r),
    {
        let ghost all = args@;
        let mut args = args;
        match args.pop_front() {
            None => Err(
                Error::FromLuaConversionError {
                    from: "missing argument",
                    to: "userdata",
                    message: None,
                },
            ),
            Some(front) => {
                assert(args@ =~= all.drop_first());
                let userdata = borrow_front(front, to_userdata, borrow);
                assert(borrowed(all[0], to_userdata, borrow, userdata));
                match userdata {
                    Err(e) => Err(e),
                    Ok(u) => run_holding(u, args, from_lua, method, to_lua),
                }
            },
        }
    }

    /// Runs a method that changes its userdata, and must not be entered again, nor the userdata
    /// borrowed again, while it runs or its results are converted.
    pub fn box_method_mut<V, W, U, G, A, R, O, T, B, C, P, Q, S>(
        args: VecDeque<V>,
        to_userdata: T,
        borrow: B,
        claim: C,
        from_lua: P,
        method: Q,
        to_lua: S,
    ) -> (r: Result<O, Error>) where
        T: FnOnce(V) -> Result<W, Error>,
        B: FnOnce(W) -> Result<U, Error>,
        C: FnOnce(&U) -> Option<G>,
        P: FnOnce(&(U, G), VecDeque<V>) -> Result<A, Error>,
        Q: FnOnce((U, G), A) -> ((U, G), Result<R, Error>),
        S: FnOnce(&(U, G), R) -> Result<O, Error>,

        requires
            forall|v: V| call_requires(to_userdata, (v,)),
            forall|w: W| call_requires(borrow, (w,)),
            forall|u: U| call_requires(claim, (&u,)),
            forall|owned: (U, G), rest: VecDeque<V>| call_requires(from_lua, (&owned, rest)),
            forall|owned: (U, G), a: A| call_requires(method, (owned, a)),
            forall|owned: (U, G), b: R| call_requires(to_lua, (&owned, b)),
        ensures
            method_mut_ran(args@, to_userdata, borrow, claim, from_lua, method, to_lua, r),
    {
        let ghost all = args@;
        let mut args = args;
        match args.pop_front() {
            None => Err(
                Error::FromLuaConversionError {
                    from: "missing argument",
                    to: "userdata",
                    message: None,
                },
            ),
            Some(front) => {
                assert(args@ =~= all.drop_first());
                let userdata = borrow_front(front, to_userdata, borrow);
                assert(borrowed(all[0], to_userdata, borrow, userdata));
                match userdata {
                    Err(e) => Err(e),
                    Ok(u) => {
                        let claimed = claim(&u);
                        assert(call_ensures(claim, (&u,), claimed));
                        match claimed {
                            None => Err(Error::RecursiveMutCallback),
                            Some(owned) => run_holding((u, owned), args, from_lua, method, to_lua),
                        }
                    },
                }
            },
        }
    }
}

impl<F: Fn(Op) -> Reply> Lua<F> {
    /// Calls the given function with a scope, giving the function the ability to create userdata
    /// and callbacks that last only until the completion of this call: on completion the scope is
    /// closed, whatever the function returned.
    pub fn scope<C, R, O, B, D>(&self, open: O, f: B, close: D) -> (r: R) where
        O: FnOnce() -> C,
        B: FnOnce(&C) -> R,
        D: FnOnce(C),

        requires
            call_requires(open, ()),
            forall|scope: C| call_requires(f, (&scope,)),
            forall|scope: C| call_requires(close, (scope,)),
        ensures
            exists|scope: C|
                {
                    &&& #[trigger] call_ensures(open, (), scope)
                    &&& call_ensures(f, (&scope,), r)
                    &&& call_ensures(close, (scope,), ())
                },
    {
        let scope = open();
        let r = f(&scope);
        let ghost opened = scope;
        close(scope);
        assert(call_ensures(open, (), opened));
        r
    }

    /// Converts a Rust value into a `Value` instance.
    pub fn pack<T, S: FnOnce(T) -> Result<Value, Error>>(&self, t: T, to_lua: S) -> (r: Result<
        Value,
        Error,
    >)
        requires
            call_requires(to_lua, (t,)),
        ensures
            call_ensures(to_lua, (t,), r),
    {
        to_lua(t)
    }

    /// Converts a `Value` instance into a Rust value.
    pub fn unpack<T, P: FnOnce(Value) -> Result<T, Error>>(&self, value: Value, from_lua: P) -> (r:
        Result<T, Error>)
        requires
            call_requires(from_lua, (value,)),
        ensures
            call_ensures(from_lua, (value,), r),
    {
        from_lua(value)
    }

    /// Converts a Rust value into a `MultiValue` instance.
    pub fn pack_multi<T, S: FnOnce(T) -> Result<MultiValue, Error>>(
        &self,
        t: T,
        to_lua_multi: S,
    ) -> (r: Result<MultiValue, Error>)
        requires
            call_requires(to_lua_multi, (t,)),
        ensures
            call_ensures(to_lua_multi, (t,), r),
    {
        to_lua_multi(t)
    }

    /// Converts a `MultiValue` instance into a Rust value.
    pub fn unpack_multi<T, P: FnOnce(MultiValue) -> Result<T, Error>>(
        &self,
        value: MultiValue,
        from_lua_multi: P,
    ) -> (r: Result<T, Error>)
        requires
            call_requires(from_lua_multi, (value,)),
        ensures
            call_ensures(from_lua_multi, (value,), r),
    {
        from_lua_multi(value)
    }
}

/// What a protected call that a script made comes to.
#[derive(Debug, Clone, Copy, PartialEq, Eq, Structural)]
pub enum Protected {
    /// The script gets true and the results.
    Returned,
    /// The script gets false and the error.
    Failed,
    /// The script gets nothing: the error goes on to the Rust code that called it.
    Unwinding,
}

/// What `pcall` and `xpcall` make of the status of the call that they protect, and of whether its
/// error is a Rust panic. Errors of Lua and errors of callbacks are caught, panics never are.
pub open spec fn protected_outcome(status: i32, panicked: bool) -> Protected {
    if status == LUA_OK {
        Protected::Returned
    } else if panicked {
        Protected::Unwinding
    } else {
        Protected::Failed
    }
}

/// Decides what `pcall` and `xpcall` hand to the script.
pub fn pcall_outcome(status: i32, panicked: bool) -> (r: Protected)
    ensures
        r == protected_outcome(status, panicked),
{
    if status == LUA_OK {
        Protected::Returned
    } else if panicked {
        Protected::Unwinding
    } else {
        Protected::Failed
    }
}

/// Gives Lua memory: frees a block where no size is asked for, and resizes it otherwise. Out of
/// memory the program is aborted, so that Lua never has to handle it.
pub fn allocator<E, A, B>(
    ptr: usize,
    nsize: usize,
    free: E,
    realloc: A,
    abort: B,
) -> (r: usize) where
    E: FnOnce(usize),
    A: FnOnce(usize, usize) -> usize,
    B: FnOnce() -> usize,

    requires
        call_requires(free, (ptr,)),
        call_requires(realloc, (ptr, nsize)),
        call_requires(abort, ()),
    ensures
        nsize == 0 ==> r == 0 && call_ensures(free, (ptr,), ()),
        nsize != 0 ==> {
            ||| r != 0 && call_ensures(realloc, (ptr, nsize), r)
            ||| call_ensures(realloc, (ptr, nsize), 0) && call_ensures(abort, (), r)
        },
{
    if nsize == 0 {
        free(ptr);
        0
    } else {
        let p = realloc(ptr, nsize);
        if p == 0 {
            abort()
        } else {
            p
        }
    }
}

} // verus!

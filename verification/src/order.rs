//! What the functions that run Rust functions hand on: every argument, every result and every error,
//! for whatever steps they are given.
use crate::run::{
    function_mut_ran, function_ran, method_mut_ran, method_ran, static_function_mut_ran,
};
use crate::value::{Error, ErrorView};
use std::collections::VecDeque;
use vstd::prelude::*;

verus! {

/// A function gets what its arguments were converted into, and the caller what its results were
/// converted into, or the first error on the way.
pub proof fn law_function_hands_everything_on<V, A, R, O, P, Q, S>(
    args: V,
    from_lua: P,
    function: Q,
    to_lua: S,
    r: Result<O, Error>,
) where
    P: FnOnce(V) -> Result<A, Error>,
    Q: FnOnce(A) -> Result<R, Error>,
    S: FnOnce(R) -> Result<O, Error>,

    requires
        function_ran(args, from_lua, function, to_lua, r),
    ensures
        exists|a: Result<A, Error>| #[trigger]
            call_ensures(from_lua, (args,), a) && match a {
                Err(e) => r == Err::<O, Error>(e),
                Ok(x) => exists|b: Result<R, Error>| #[trigger]
                    call_ensures(function, (x,), b) && match b {
                        Err(e) => r == Err::<O, Error>(e),
                        Ok(y) => call_ensures(to_lua, (y,), r),
                    },
            },
{
}

/// A function that must not be entered twice gets what its arguments were converted into, if it could
/// be claimed for them, and is an error of its own if not.
pub proof fn law_function_mut_hands_everything_on<G, V, A, R, O, C, P, Q, S>(
    args: V,
    from_lua: P,
    claim: C,
    function: Q,
    to_lua: S,
    r: Result<O, Error>,
) where
    C: FnOnce(&A) -> Option<G>,
    P: FnOnce(V) -> Result<A, Error>,
    Q: FnOnce(G, A) -> Result<R, Error>,
    S: FnOnce(R) -> Result<O, Error>,

    requires
        function_mut_ran(args, from_lua, claim, function, to_lua, r),
    ensures
        exists|a: Result<A, Error>| #[trigger]
            call_ensures(from_lua, (args,), a) && match a {
                Err(e) => r == Err::<O, Error>(e),
                Ok(x) => exists|g: Option<G>| #[trigger]
                    call_ensures(claim, (&x,), g) && match g {
                        None => r == Err::<O, Error>(Error::RecursiveMutCallback),
                        Some(owned) => exists|b: Result<R, Error>| #[trigger]
                            call_ensures(function, (owned, x), b) && match b {
                                Err(e) => r == Err::<O, Error>(e),
                                Ok(y) => call_ensures(to_lua, (y,), r),
                            },
                    },
            },
{
}

/// A function of a userdata type that must not be entered twice is claimed first, gets what all its
/// arguments were converted into, and is an error of its own if it could not be claimed.
pub proof fn law_static_function_mut_hands_everything_on<G, V, A, R, O, C, P, Q, S>(
    args: V,
    claim: C,
    from_lua: P,
    function: Q,
    to_lua: S,
    r: Result<O, Error>,
) where
    C: FnOnce() -> Option<G>,
    P: FnOnce(&G, V) -> Result<A, Error>,
    Q: FnOnce(G, A) -> (G, Result<R, Error>),
    S: FnOnce(&G, R) -> Result<O, Error>,

    requires
        static_function_mut_ran(args, claim, from_lua, function, to_lua, r),
    ensures
        exists|g: Option<G>| #[trigger]
            call_ensures(claim, (), g) && match g {
                None => r == Err::<O, Error>(Error::RecursiveMutCallback),
                Some(owned) => exists|a: Result<A, Error>| #[trigger]
                    call_ensures(from_lua, (&owned, args), a) && match a {
                        Err(e) => r == Err::<O, Error>(e),
                        Ok(x) => exists|b: (G, Result<R, Error>)| #[trigger]
                            call_ensures(function, (owned, x), b) && match b.1 {
                                Err(e) => r == Err::<O, Error>(e),
                                Ok(y) => call_ensures(to_lua, (&b.0, y), r),
                            },
                    },
            },
{
}

/// The rest of a list of arguments is all of them but the first, in order.
pub open spec fn all_but_first<V>(args: Seq<V>, rest: Seq<V>) -> bool {
    &&& rest.len() + 1 == args.len()
    &&& forall|i: int| 0 <= i < rest.len() ==> #[trigger] rest[i] == args[i + 1]
}

/// A method is run on its first argument, and gets what all the others were converted into: none is
/// lost, added or moved. Without a first argument it is an error.
pub proof fn law_method_gets_every_argument<V, W, U, A, R, O, T, B, P, Q, S>(
    args: Seq<V>,
    to_userdata: T,
    borrow: B,
    from_lua: P,
    method: Q,
    to_lua: S,
    r: Result<O, Error>,
) where
    T: FnOnce(V) -> Result<W, Error>,
    B: FnOnce(W) -> Result<U, Error>,
    P: FnOnce(&U, VecDeque<V>) -> Result<A, Error>,
    Q: FnOnce(U, A) -> (U, Result<R, Error>),
    S: FnOnce(&U, R) -> Result<O, Error>,

    requires
        method_ran(args, to_userdata, borrow, from_lua, method, to_lua, r),
    ensures
        args.len() == 0 ==> (r matches Err(e) && e@ == (ErrorView::FromLuaConversionError {
            from: "missing argument"@,
            to: "userdata"@,
            message: None,
        })),
        args.len() > 0 ==> exists|w: Result<W, Error>| #[trigger]
            call_ensures(to_userdata, (args[0],), w) && match w {
                Err(e) => r == Err::<O, Error>(e),
                Ok(userdata) => exists|u: Result<U, Error>| #[trigger]
                    call_ensures(borrow, (userdata,), u) && match u {
                        Err(e) => r == Err::<O, Error>(e),
                        Ok(owned) => exists|rest: VecDeque<V>, a: Result<A, Error>| #[trigger]
                            call_ensures(from_lua, (&owned, rest), a) && all_but_first(args, rest@)
                                && match a {
                                Err(e) => r == Err::<O, Error>(e),
                                Ok(x) => exists|b: (U, Result<R, Error>)| #[trigger]
                                    call_ensures(method, (owned, x), b) && match b.1 {
                                        Err(e) => r == Err::<O, Error>(e),
                                        Ok(y) => call_ensures(to_lua, (&b.0, y), r),
                                    },
                            },
                    },
            },
{
}

/// A method that changes its userdata is run on its first argument, once it could be claimed, and gets
/// what all the others were converted into: none is lost, added or moved. Without a first argument it
/// is an error.
pub proof fn law_method_mut_gets_every_argument<V, W, U, G, A, R, O, T, B, C, P, Q, S>(
    args: Seq<V>,
    to_userdata: T,
    borrow: B,
    claim: C,
    from_lua: P,
    method: Q,
    to_lua: S,
    r: Result<O, Error>,
) where
    T: FnOnce(V) -> Result<W, Error>,
    B: FnOnce(W) -> Result<U, Error>,
    C: FnOnce(&U) -> Option<G>,
    P: FnOnce(&(U, G), VecDeque<V>) -> Result<A, Error>,
    Q: FnOnce((U, G), A) -> ((U, G), Result<R, Error>),
    S: FnOnce(&(U, G), R) -> Result<O, Error>,

    requires
        method_mut_ran(args, to_userdata, borrow, claim, from_lua, method, to_lua, r),
    ensures
        args.len() == 0 ==> (r matches Err(e) && e@ == (ErrorView::FromLuaConversionError {
            from: "missing argument"@,
            to: "userdata"@,
            message: None,
        })),
        args.len() > 0 ==> exists|w: Result<W, Error>| #[trigger]
            call_ensures(to_userdata, (args[0],), w) && match w {
                Err(e) => r == Err::<O, Error>(e),
                Ok(userdata) => exists|u: Result<U, Error>| #[trigger]
                    call_ensures(borrow, (userdata,), u) && match u {
                        Err(e) => r == Err::<O, Error>(e),
                        Ok(owned) => exists|g: Option<G>| #[trigger]
                            call_ensures(claim, (&owned,), g) && match g {
                                None => r == Err::<O, Error>(Error::RecursiveMutCallback),
                                Some(claimed) => exists|rest: VecDeque<V>, a: Result<A, Error>|
                                    #[trigger]
                                    call_ensures(from_lua, (&(owned, claimed), rest), a)
                                        && all_but_first(args, rest@) && match a {
                                        Err(e) => r == Err::<O, Error>(e),
                                        Ok(x) => exists|b: ((U, G), Result<R, Error>)| #[trigger]
                                            call_ensures(method, ((owned, claimed), x), b)
                                                && match b.1 {
                                                Err(e) => r == Err::<O, Error>(e),
                                                Ok(y) => call_ensures(to_lua, (&b.0, y), r),
                                            },
                                    },
                            },
                    },
            },
{
}

} // verus!

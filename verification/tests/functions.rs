//! The order in which functions are run, the methods of userdata types, and the allocator.
use rlua::run::{allocator, pcall_outcome, run_function, run_function_mut, Protected};
use rlua::userdata::{MetaMethod, StaticUserDataMethods};
use rlua::value::{Callback, Error, MultiValue, Value};
use std::cell::{Cell, RefCell};
use std::collections::VecDeque;

fn name(s: &str) -> Vec<u8> {
    s.as_bytes().to_vec()
}

#[test]
fn function_converts_calls_and_converts() {
    let r = run_function(
        4,
        |n: i32| Ok(n + 1),
        |n: i32| Ok(n * 10),
        |n: i32| Ok(format!("{}", n)),
    );
    assert_eq!(r.unwrap(), "50");
}

#[test]
fn function_stops_at_the_first_error() {
    let steps = RefCell::new(Vec::new());
    let run = |failing: usize| -> Result<i32, Error> {
        steps.borrow_mut().clear();
        let step = |number: usize, n: i32| {
            steps.borrow_mut().push(number);
            if number == failing {
                Err(Error::Other(number))
            } else {
                Ok(n)
            }
        };
        run_function(1, |n| step(1, n), |n| step(2, n), |n| step(3, n))
    };
    assert!(matches!(run(1), Err(Error::Other(1))));
    assert_eq!(*steps.borrow(), vec![1]);
    assert!(matches!(run(2), Err(Error::Other(2))));
    assert_eq!(*steps.borrow(), vec![1, 2]);
    assert!(matches!(run(3), Err(Error::Other(3))));
    assert_eq!(*steps.borrow(), vec![1, 2, 3]);
    assert!(matches!(run(0), Ok(1)));
}

#[test]
fn mutable_function_is_claimed_after_the_conversion() {
    let claimed = Cell::new(false);
    let r: Result<i32, Error> = run_function_mut(
        1,
        |_: i32| Err::<i32, Error>(Error::Other(1)),
        |_: &i32| {
            claimed.set(true);
            Some(())
        },
        |_, n: i32| Ok(n),
        |n: i32| Ok(n),
    );
    assert!(matches!(r, Err(Error::Other(1))));
    assert!(!claimed.get());
}

#[test]
fn mutable_function_cannot_be_entered_twice() {
    let r: Result<i32, Error> = run_function_mut(
        1,
        |n: i32| Ok(n),
        |_: &i32| None::<()>,
        |_, n: i32| Ok(n),
        |n: i32| Ok(n),
    );
    assert!(matches!(r, Err(Error::RecursiveMutCallback)));
    let r = run_function_mut(
        1,
        |n: i32| Ok(n),
        |n: &i32| Some(n + 4),
        |g, n: i32| Ok(g + n),
        |n: i32| Ok(n),
    );
    assert!(matches!(r, Ok(6)));
}

#[test]
fn static_function_is_run_like_a_function() {
    let r = StaticUserDataMethods::box_function(1, |n: i32| Ok(n), |n| Ok(n + 1), |n: i32| Ok(n));
    assert!(matches!(r, Ok(2)));
}

#[test]
fn static_mutable_function_is_claimed_before_the_conversion() {
    let converted = Cell::new(false);
    let r: Result<i32, Error> = StaticUserDataMethods::box_function_mut(
        1,
        || None::<()>,
        |_: &(), n: i32| {
            converted.set(true);
            Ok(n)
        },
        |g, n: i32| (g, Ok(n)),
        |_: &(), n: i32| Ok(n),
    );
    assert!(matches!(r, Err(Error::RecursiveMutCallback)));
    assert!(!converted.get());
    let r = StaticUserDataMethods::box_function_mut(
        1,
        || Some(7),
        |g: &i32, n: i32| Ok(n + 10 * g),
        |g, n: i32| (g + 1, Ok(g + n)),
        |g: &i32, n: i32| Ok(n + 100 * g),
    );
    assert!(matches!(r, Ok(878)));
}

fn missing(r: Result<i32, Error>) {
    match r {
        Err(Error::FromLuaConversionError { from, to, message }) => {
            assert_eq!(from, "missing argument");
            assert_eq!(to, "userdata");
            assert_eq!(message, None);
        }
        other => panic!("{:?}", other),
    }
}

#[test]
fn method_needs_its_userdata() {
    missing(StaticUserDataMethods::box_method(
        VecDeque::<i32>::new(),
        |n| Ok(n),
        |n: i32| Ok(n),
        |_: &i32, rest: VecDeque<i32>| Ok(rest.len()),
        |u, _: usize| (u, Ok(0)),
        |_: &i32, n: i32| Ok(n),
    ));
    missing(StaticUserDataMethods::box_method_mut(
        VecDeque::<i32>::new(),
        |n| Ok(n),
        |n: i32| Ok(n),
        |_: &i32| Some(()),
        |_: &(i32, ()), rest: VecDeque<i32>| Ok(rest.len()),
        |u, _: usize| (u, Ok(0)),
        |_: &(i32, ()), n: i32| Ok(n),
    ));
}

#[test]
fn method_gets_its_userdata_and_the_other_arguments() {
    let r = StaticUserDataMethods::box_method(
        VecDeque::from(vec![10, 20, 30]),
        |n| Ok(n + 1),
        |n: i32| Ok(n * 100),
        |_: &i32, rest: VecDeque<i32>| Ok(rest.into_iter().collect::<Vec<i32>>()),
        |u, rest: Vec<i32>| (u, Ok((u, rest))),
        |_: &i32, r: (i32, Vec<i32>)| Ok(r),
    );
    assert_eq!(r.unwrap(), (1100, vec![20, 30]));
}

#[test]
fn method_borrows_before_it_converts() {
    let converted = Cell::new(false);
    let r: Result<i32, Error> = StaticUserDataMethods::box_method(
        VecDeque::from(vec![1]),
        |n| Ok(n),
        |_: i32| Err::<i32, Error>(Error::Other(2)),
        |_: &i32, _: VecDeque<i32>| {
            converted.set(true);
            Ok(())
        },
        |u, ()| (u, Ok(u)),
        |_: &i32, n: i32| Ok(n),
    );
    assert!(matches!(r, Err(Error::Other(2))));
    assert!(!converted.get());
}

#[test]
fn mutable_method_is_claimed_between_borrowing_and_converting() {
    let steps = RefCell::new(Vec::new());
    let run = |free: bool| -> Result<i32, Error> {
        steps.borrow_mut().clear();
        StaticUserDataMethods::box_method_mut(
            VecDeque::from(vec![1, 2]),
            |n| {
                steps.borrow_mut().push("userdata");
                Ok(n)
            },
            |n: i32| {
                steps.borrow_mut().push("borrow");
                Ok(n)
            },
            |_: &i32| {
                steps.borrow_mut().push("claim");
                if free {
                    Some(1000)
                } else {
                    None
                }
            },
            |_: &(i32, i32), rest: VecDeque<i32>| {
                steps.borrow_mut().push("convert");
                Ok(rest[0])
            },
            |(u, g), a: i32| ((u, g), Ok(g + 10 * u + a)),
            |_: &(i32, i32), n: i32| Ok(n),
        )
    };
    assert!(matches!(run(false), Err(Error::RecursiveMutCallback)));
    assert_eq!(*steps.borrow(), vec!["userdata", "borrow", "claim"]);
    assert!(matches!(run(true), Ok(1012)));
    assert_eq!(*steps.borrow(), vec!["userdata", "borrow", "claim", "convert"]);
}

/// Notes when it goes.
struct Guard<'a>(&'a Cell<bool>);

impl<'a> Drop for Guard<'a> {
    fn drop(&mut self) {
        self.0.set(false);
    }
}

fn hold(held: &Cell<bool>) -> Guard {
    held.set(true);
    Guard(held)
}

#[test]
fn borrow_and_claim_are_held_while_results_are_converted() {
    let (borrowed, claimed) = (Cell::new(false), Cell::new(false));
    let r = StaticUserDataMethods::box_method(
        VecDeque::from(vec![1]),
        |n: i32| Ok(n),
        |_: i32| Ok(hold(&borrowed)),
        |_: &Guard, _: VecDeque<i32>| Ok(()),
        |u, ()| (u, Ok(())),
        |_: &Guard, ()| Ok(borrowed.get()),
    );
    assert!(matches!(r, Ok(true)));
    assert!(!borrowed.get());
    let r = StaticUserDataMethods::box_method_mut(
        VecDeque::from(vec![1]),
        |n: i32| Ok(n),
        |_: i32| Ok(hold(&borrowed)),
        |_: &Guard| Some(hold(&claimed)),
        |_: &(Guard, Guard), _: VecDeque<i32>| Ok(()),
        |owned, ()| (owned, Ok(())),
        |_: &(Guard, Guard), ()| Ok((borrowed.get(), claimed.get())),
    );
    assert!(matches!(r, Ok((true, true))));
    assert!(!borrowed.get() && !claimed.get());
    let r = StaticUserDataMethods::box_function_mut(
        1,
        || Some(hold(&claimed)),
        |_: &Guard, n: i32| Ok(n),
        |g, n: i32| (g, Ok(n)),
        |_: &Guard, _: i32| Ok(claimed.get()),
    );
    assert!(matches!(r, Ok(true)));
    assert!(!claimed.get());
}

#[test]
fn claim_of_a_function_ends_before_results_are_converted() {
    let claimed = Cell::new(false);
    let r = run_function_mut(
        1,
        |n: i32| Ok(n),
        |_: &i32| Some(hold(&claimed)),
        |_: Guard, n: i32| Ok(n),
        |_: i32| Ok(claimed.get()),
    );
    assert!(matches!(r, Ok(false)));
}

#[test]
fn panics_are_never_caught() {
    assert_eq!(pcall_outcome(0, false), Protected::Returned);
    assert_eq!(pcall_outcome(2, false), Protected::Failed);
    assert_eq!(pcall_outcome(2, true), Protected::Unwinding);
}

#[test]
fn methods_are_kept_by_name() {
    let mut methods = StaticUserDataMethods::default();
    assert!(methods.methods.is_empty());
    assert!(methods.meta_methods.is_empty());
    methods.add_method(name("a"), 1);
    methods.add_method_mut(name("b"), 2);
    methods.add_function(name("c"), 3);
    methods.add_function_mut(name("d"), 4);
    methods.add_meta_method(MetaMethod { name: name("a") }, 5);
    methods.add_meta_method_mut(MetaMethod { name: name("b") }, 6);
    methods.add_meta_function(MetaMethod { name: name("c") }, 7);
    methods.add_meta_function_mut(MetaMethod { name: name("d") }, 8);
    let found: Vec<(Vec<u8>, Callback)> =
        methods.methods.iter().map(|e| (e.name.clone(), e.callback)).collect();
    assert_eq!(
        found,
        vec![
            (name("a"), Callback::Method(1)),
            (name("b"), Callback::MethodMut(2)),
            (name("c"), Callback::Function(3)),
            (name("d"), Callback::StaticFunctionMut(4)),
        ]
    );
    let found: Vec<(Vec<u8>, Callback)> =
        methods.meta_methods.iter().map(|e| (e.name.clone(), e.callback)).collect();
    assert_eq!(
        found,
        vec![
            (name("a"), Callback::Method(5)),
            (name("b"), Callback::MethodMut(6)),
            (name("c"), Callback::Function(7)),
            (name("d"), Callback::StaticFunctionMut(8)),
        ]
    );
}

#[test]
fn a_method_replaces_one_of_the_same_name() {
    let mut methods = StaticUserDataMethods::default();
    methods.add_method(name("a"), 1);
    methods.add_method(name("ab"), 2);
    methods.add_function(name("a"), 3);
    assert_eq!(methods.methods.len(), 2);
    assert_eq!(methods.methods[0].callback, Callback::Function(3));
    assert_eq!(methods.methods[1].callback, Callback::Method(2));
}

#[test]
fn several_values_are_in_order() {
    let mut values = MultiValue::new();
    assert_eq!(values.len(), 0);
    assert!(values.pop_front().is_none());
    values.push_back(Value::Integer(2));
    values.push_front(Value::Integer(1));
    values.push_back(Value::Integer(3));
    assert_eq!(values.len(), 3);
    for expected in 1..4 {
        match values.pop_front() {
            Some(Value::Integer(i)) => assert_eq!(i, expected),
            other => panic!("{:?}", other),
        }
    }
    assert!(values.pop_front().is_none());
}

#[test]
fn allocator_frees_what_has_no_size() {
    let freed = Cell::new(0);
    let r = allocator(8, 0, |p| freed.set(p), |_, _| 5, || 6);
    assert_eq!(r, 0);
    assert_eq!(freed.get(), 8);
}

#[test]
fn allocator_resizes() {
    let freed = Cell::new(0);
    let r = allocator(8, 16, |p| freed.set(p), |p, n| p * 100 + n, || 6);
    assert_eq!(r, 816);
    assert_eq!(freed.get(), 0);
}

#[test]
fn allocator_aborts_when_memory_is_out() {
    let aborted = Cell::new(false);
    allocator(
        8,
        16,
        |_| {},
        |_, _| 0,
        || {
            aborted.set(true);
            0
        },
    );
    assert!(aborted.get());
}

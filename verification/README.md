# rlua

The logic of a Lua binding for Rust programs, verified with Verus.

A program holds handles to Lua objects: strings, tables, functions, threads, userdata. Each handle
owns a slot of the stack of an auxiliary Lua thread, which keeps the object from being collected. On
top of this bookkeeping the library moves values to the Lua stack and back, makes objects, loads and
runs chunks, wraps Rust functions, keeps values in the registry, sets hooks, and sets up and takes
down whole states.

## How it is put together

The library does not call Lua's C API itself. It is given a function, the *driver*, and hands it each
call as a value. This keeps raw pointers and foreign functions out of the verified part, and lets the
tests run the library on a small machine in memory.

What the calls mean is written down as a mathematical model of the Lua machine: two stacks, the
registry, the objects, and a log of what was called and what failed. In ghost code each state follows
this model, and notes whether every answer of the driver was one that the machine gives. The contracts
say what a method does to the machine in that case. Nothing is assumed of the driver, and the machine
has an answer to every call, so that no method can bring the other case about.

A state can run out of something: it cannot be set up, or its auxiliary stack or its registry cannot
grow. Then the library panics. Each contract says for what cause its method may come to that, if at
all.

A call that fails is logged with what it was to do, and an error that a method returns is one of these.
The references that a method makes are accounted for: what is left is what it hands out.

| module | what it holds |
| --- | --- |
| `protocol` | the calls that the library makes, and their answers |
| `machine`, `answers` | the model of the Lua machine |
| `state` | a state: the driver and, in ghost code, the machine |
| `relations` | how machines before and after an operation are compared |
| `lua` | handles to a state, and the references of the auxiliary stack |
| `convert` | values on their way to the Lua stack and back, coercions |
| `create`, `tables` | new strings, tables and threads; tables from iterators |
| `load` | chunks: load, exec, eval |
| `callback`, `run` | Rust functions as Lua functions, and how they are run |
| `userdata`, `metatable` | the methods of userdata types, their metatables, userdata |
| `registry` | named and keyed values in the registry |
| `hook` | hooks |
| `boot` | how a state is set up and taken down |
| `laws`, `history` | what holds of several operations together, and what lasts over many of them |

`app/` is ordinary Rust around the library: the driver that performs the calls on a real Lua state,
and the typed interface with lifetimes, conversions and closures.

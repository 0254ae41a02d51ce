//! The logic of a Lua binding for Rust programs.
//!
//! A program holds handles to Lua objects. The objects that handles point to are kept alive by
//! references, and references are slots of the stack of an auxiliary Lua thread. This library does
//! the bookkeeping of these slots, moves values to the Lua stack and back, makes objects, loads and
//! runs chunks, runs Rust functions on behalf of Lua, keeps values in the registry, and sets up and
//! takes down whole states.
//!
//! It never touches a Lua state itself. Every call of Lua's C API is handed to a function that the
//! program supplies, the driver ([`protocol`]). What the calls mean is said by a model of the Lua
//! machine ([`machine`], [`answers`]), which each state follows in ghost code ([`state`]). The
//! contracts of [`lua::Lua`] say what its methods achieve on this machine as long as the driver answers
//! as the machine does; what several of them achieve together is in [`laws`] and [`history`]. What the
//! words of the contracts come to on the fields of the machine is in [`effects`], [`order`], [`values`]
//! and [`calls`].
pub mod answers;
pub mod boot;
pub mod callback;
pub mod calls;
pub mod convert;
pub mod create;
pub mod effects;
pub mod extra;
pub mod history;
pub mod hook;
pub mod laws;
pub mod load;
pub mod lua;
pub mod machine;
pub mod metatable;
pub mod order;
pub mod protocol;
pub mod registry;
pub mod relations;
pub mod run;
pub mod state;
pub mod tables;
pub mod userdata;
pub mod value;
pub mod values;

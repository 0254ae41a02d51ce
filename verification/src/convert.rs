//! Values on their way to the Lua stack and back.
use crate::lua::{Lua, spent_only_if, steady};
use crate::machine::{
    LUA_TBOOLEAN, LUA_TFUNCTION, LUA_TLIGHTUSERDATA, LUA_TNIL, LUA_TNUMBER, LUA_TSTRING,
    LUA_TTABLE, LUA_TTHREAD, LUA_TUSERDATA,
};
use crate::protocol::{Instr, Op, Reply};
use crate::relations::{lemma_cut, slot_freed, without};
use crate::value::{
    AnyUserData, Function, Integer, LightUserData, LuaRef, LuaString, Number, Table, Thread, Value,
};
use vstd::prelude::*;

verus! {

impl<F: Fn(Op) -> Reply> Lua<F> {
    /// Returns true if the value is no handle, or a handle of this main state. Only such values may
    /// be handed to the other methods.
    pub fn owns_value(&self, value: &Value) -> (r: bool)
        ensures
            r == (value.handle() matches Some(h) ==> h.main_state == self.identity().main_state),
    {
        match value {
            Value::String(s) => s.0.main_state == self.main_state,
            Value::Table(t) => t.0.main_state == self.main_state,
            Value::Function(f) => f.0.main_state == self.main_state,
            Value::Thread(t) => t.0.main_state == self.main_state,
            Value::UserData(ud) => ud.0.main_state == self.main_state,
            _ => true,
        }
    }

    /// Pushes what a reference points to, and gives the reference up.
    fn push_handle(&mut self, lref: LuaRef)
        requires
            old(self).inv(),
            lref.main_state == old(self).identity().main_state,
            old(self).good() ==> old(self).machine().live(lref.index as int)
                && old(self).machine().stack.len() < old(self).machine().limit,
        ensures
            final(self).inv(),
            final(self).identity() == old(self).identity(),
            steady(*old(self), *final(self)),
            final(self).good() ==> {
                let m = old(self).machine();
                let post = final(self).machine();
                &&& old(self).good()
                &&& post.agrees(m.push(m.pinned(lref.index as int)))
                &&& post.extra == m.extra.unpinned(lref.index)
                &&& post.refs() == m.refs().remove(lref.index as int)
            },
    {
        self.push_ref(&lref);
        proof {
            if self.good() {
                assert(self.machine().refs() =~= old(self).machine().refs());
            }
        }
        self.drop_ref(lref);
    }

    /// Pushes a value onto the stack, uses 2 stack spaces, does not reserve them.
    pub fn push_value(&mut self, value: Value)
        requires
            old(self).inv(),
            old(self).accepts(value),
            old(self).good() ==> old(self).machine().stack.len() + 2 <= old(self).machine().limit,
        ensures
            final(self).inv(),
            final(self).identity() == old(self).identity(),
            steady(*old(self), *final(self)),
            final(self).good() ==> {
                let m = old(self).machine();
                let post = final(self).machine();
                &&& old(self).good()
                &&& post.agrees(m.push(m.slot_of(value)))
                &&& post.extra == slot_freed(m.extra, value)
                &&& post.refs() == without(m.refs(), value)
            },
    {
        match value {
            Value::Nil => {
                self.state.run(Instr::PushNil);
            },
            Value::Boolean(b) => {
                self.state.run(Instr::PushBoolean(b));
            },
            Value::LightUserData(ud) => {
                self.state.run(Instr::PushLightUserData(ud.0));
            },
            Value::Integer(i) => {
                self.state.run(Instr::PushInteger(i));
            },
            Value::Number(n) => {
                self.state.run(Instr::PushNumber(n));
            },
            Value::String(s) => {
                self.push_handle(s.0);
            },
            Value::Table(t) => {
                self.push_handle(t.0);
            },
            Value::Function(f) => {
                self.push_handle(f.0);
            },
            Value::Thread(t) => {
                self.push_handle(t.0);
            },
            Value::UserData(ud) => {
                self.push_handle(ud.0);
            },
            Value::Error(e) => {
                self.state.push_wrapped_error(e);
            },
        }
        proof {
            if self.good() && value.handle() is None {
                assert(self.machine().refs() =~= old(self).machine().refs());
            }
        }
    }

    /// Gives up the reference that a value holds, if it is a handle.
    pub fn drop_value(&mut self, value: Value)
        requires
            old(self).inv(),
            old(self).good() ==> old(self).machine().holds(value),
        ensures
            final(self).inv(),
            final(self).identity() == old(self).identity(),
            steady(*old(self), *final(self)),
            final(self).good() ==> {
                let m = old(self).machine();
                let post = final(self).machine();
                &&& old(self).good()
                &&& post.agrees(m)
                &&& post.extra == slot_freed(m.extra, value)
                &&& post.refs() == without(m.refs(), value)
            },
    {
        match value {
            Value::String(s) => {
                self.drop_ref(s.0);
            },
            Value::Table(t) => {
                self.drop_ref(t.0);
            },
            Value::Function(f) => {
                self.drop_ref(f.0);
            },
            Value::Thread(t) => {
                self.drop_ref(t.0);
            },
            Value::UserData(ud) => {
                self.drop_ref(ud.0);
            },
            _ => {},
        }
    }

    /// Pushes a value onto the stack that came from outside: it must belong to this state.
    pub(crate) fn push_foreign_value(&mut self, value: Value)
        requires
            old(self).inv(),
            old(self).good() ==> old(self).machine().holds(value) && old(self).machine().stack.len()
                + 2 <= old(self).machine().limit,
        ensures
            final(self).inv(),
            final(self).identity() == old(self).identity(),
            steady(*old(self), *final(self)),
            final(self).good() ==> {
                let m = old(self).machine();
                let post = final(self).machine();
                &&& old(self).good()
                &&& post.agrees(m.push(m.slot_of(value)))
                &&& post.refs() == without(m.refs(), value)
            },
    {
        if self.owns_value(&value) {
            self.push_value(value);
        } else {
            self.state.panic(
                "rlua::Lua instance passed reference created from a different main Lua state",
            );
        }
    }

    /// Takes the value from the top of the stack, uses 2 stack spaces, does not reserve them.
    pub fn pop_value(&mut self) -> (r: Value)
        requires
            old(self).inv(),
            old(self).good() ==> old(self).machine().stack.len() > 0,
            old(self).good() ==> old(self).machine().stack.len() + 2 <= old(self).machine().limit,
        ensures
            final(self).inv(),
            final(self).identity() == old(self).identity(),
            spent_only_if(old(self).machine().extra.full(), *old(self), *final(self)),
            final(self).accepts(r),
            final(self).good() ==> {
                let m = old(self).machine();
                let post = final(self).machine();
                &&& old(self).good()
                &&& post.agrees(m.pop(1))
                &&& post.hands_out(m, r, m.top(0))
            },
    {
        let tag = self.state.lua_type();
        let r = if tag == LUA_TNIL {
            self.state.run(Instr::Pop(1));
            Value::Nil
        } else if tag == LUA_TBOOLEAN {
            let b = Value::Boolean(self.state.lua_toboolean() != 0);
            self.state.run(Instr::Pop(1));
            b
        } else if tag == LUA_TLIGHTUSERDATA {
            let ud = Value::LightUserData(LightUserData(self.state.lua_touserdata()));
            self.state.run(Instr::Pop(1));
            ud
        } else if tag == LUA_TNUMBER {
            if self.state.lua_isinteger() != 0 {
                let i = Value::Integer(self.state.lua_tointeger());
                self.state.run(Instr::Pop(1));
                i
            } else {
                let n = Value::Number(self.state.lua_tonumber());
                self.state.run(Instr::Pop(1));
                n
            }
        } else if tag == LUA_TSTRING {
            Value::String(LuaString(self.pop_ref()))
        } else if tag == LUA_TTABLE {
            Value::Table(Table(self.pop_ref()))
        } else if tag == LUA_TFUNCTION {
            Value::Function(Function(self.pop_ref()))
        } else if tag == LUA_TUSERDATA {
            // It should not be possible to interact with userdata types other than custom userdata
            // types or a wrapped error.
            match self.state.get_wrapped_error() {
                Some(err) => {
                    self.state.run(Instr::Pop(1));
                    Value::Error(err)
                },
                None => Value::UserData(AnyUserData(self.pop_ref())),
            }
        } else if tag == LUA_TTHREAD {
            Value::Thread(Thread(self.pop_ref()))
        } else {
            self.state.panic("LUA_TNONE in pop_value");
            Value::Nil
        };
        proof {
            if self.good() {
                let m = old(self).machine();
                let post = self.machine();
                match r.handle() {
                    Some(h) => {
                        assert(post.refs().contains_key(h.index as int));
                        assert(post.refs()[h.index as int] == m.top(0));
                    },
                    None => {
                        assert(post.refs() =~= m.refs());
                    },
                }
            }
        }
        r
    }

    /// Attempts to coerce a Lua value into a string in a manner consistent with Lua's internal
    /// behavior.
    ///
    /// To succeed, the value must be a string (in which case this is a no-op), an integer, or a
    /// number.
    pub fn coerce_string(&mut self, v: Value) -> (r: Option<LuaString>)
        requires
            old(self).inv(),
            old(self).roomy(4),
            old(self).accepts(v),
        ensures
            final(self).inv(),
            final(self).identity() == old(self).identity(),
            spent_only_if(old(self).machine().extra.full(), *old(self), *final(self)),
            r matches Some(s) ==> final(self).accepts(Value::String(s)),
            v matches Value::String(s) ==> r == Some(s) && *final(self) == *old(self),
            final(self).good() && !(v is String) ==> {
                let m = old(self).machine();
                let post = final(self).machine();
                &&& old(self).good()
                &&& post.agrees(m)
                &&& match m.laws.to_text(m.slot_of(v)) {
                    Some(text) => {
                        &&& r matches Some(s)
                        &&& post.slot_of(Value::String(s)) == text
                        &&& !without(m.refs(), v).contains_key(s.0.index as int)
                        &&& post.refs() == without(m.refs(), v).insert(s.0.index as int, text)
                    },
                    None => r is None && post.refs() == without(m.refs(), v),
                }
            },
    {
        match v {
            Value::String(s) => Some(s),
            v => {
                let guard = self.enter(4);
                self.push_value(v);
                let ghost pushed = self.machine();
                let is_string = self.state.lua_tostring();
                let r = if !is_string {
                    None
                } else {
                    Some(LuaString(self.pop_ref()))
                };
                let ghost popped = self.machine();
                self.leave(guard);
                proof {
                    if self.good() {
                        let m = old(self).machine();
                        lemma_cut(popped.stack, m.stack);
                        if r is Some {
                            let index = (r->0).0.index as int;
                            assert(m.laws.to_text(m.slot_of(v)) is Some);
                            assert(self.machine().refs().contains_key(index));
                            assert(self.machine().refs()[index] == m.laws.to_text(m.slot_of(v))->0);
                            assert(!pushed.refs().contains_key(index));
                        }
                    }
                }
                r
            },
        }
    }

    /// Attempts to coerce a Lua value into an integer in a manner consistent with Lua's internal
    /// behavior.
    ///
    /// To succeed, the value must be an integer, a floating point number that has an exact
    /// representation as an integer, or a string that can be converted to an integer. Refer to the
    /// Lua manual for details.
    pub fn coerce_integer(&mut self, v: Value) -> (r: Option<Integer>)
        requires
            old(self).inv(),
            old(self).roomy(2),
            old(self).accepts(v),
        ensures
            final(self).inv(),
            final(self).identity() == old(self).identity(),
            steady(*old(self), *final(self)),
            v matches Value::Integer(i) ==> r == Some(i) && *final(self) == *old(self),
            final(self).good() ==> {
                let m = old(self).machine();
                let post = final(self).machine();
                &&& old(self).good()
                &&& r == m.laws.to_integer(m.slot_of(v))
                &&& post.agrees(m)
                &&& post.refs() == without(m.refs(), v)
            },
    {
        match v {
            Value::Integer(i) => Some(i),
            v => {
                let guard = self.enter(2);
                self.push_value(v);
                let ghost pushed = self.machine();
                let (i, isint) = self.state.lua_tointegerx();
                let r = if isint == 0 {
                    None
                } else {
                    Some(i)
                };
                self.leave(guard);
                proof {
                    if self.good() {
                        let m = old(self).machine();
                        lemma_cut(pushed.stack, m.stack);
                    }
                }
                r
            },
        }
    }

    /// Attempts to coerce a Lua value into a number in a manner consistent with Lua's internal
    /// behavior.
    ///
    /// To succeed, the value must be a number or a string that can be converted to a number. Refer
    /// to the Lua manual for details.
    pub fn coerce_number(&mut self, v: Value) -> (r: Option<Number>)
        requires
            old(self).inv(),
            old(self).roomy(2),
            old(self).accepts(v),
        ensures
            final(self).inv(),
            final(self).identity() == old(self).identity(),
            steady(*old(self), *final(self)),
            v matches Value::Number(n) ==> r == Some(n) && *final(self) == *old(self),
            final(self).good() ==> {
                let m = old(self).machine();
                let post = final(self).machine();
                &&& old(self).good()
                &&& r == m.laws.to_number(m.slot_of(v))
                &&& post.agrees(m)
                &&& post.refs() == without(m.refs(), v)
            },
    {
        match v {
            Value::Number(n) => Some(n),
            v => {
                let guard = self.enter(2);
                self.push_value(v);
                let ghost pushed = self.machine();
                let (n, isnum) = self.state.lua_tonumberx();
                let r = if isnum == 0 {
                    None
                } else {
                    Some(n)
                };
                self.leave(guard);
                proof {
                    if self.good() {
                        let m = old(self).machine();
                        lemma_cut(pushed.stack, m.stack);
                    }
                }
                r
            },
        }
    }
}

} // verus!

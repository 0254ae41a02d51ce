//! The hook that Lua calls while it runs.
use crate::extra::ExtraView;
use crate::lua::{Lua, lemma_types_elsewhere, steady};
use crate::machine::{Machine, Slot};
use crate::protocol::{Op, Reply};
use crate::relations::lemma_droppable_elsewhere;
use vstd::prelude::*;

verus! {

/// When Lua calls the hook: a mask of events, and the number of instructions between two calls.
#[derive(Debug, Clone, Copy)]
pub struct HookOptions {
    pub mask: i32,
    pub count: i32,
}

impl<F: Fn(Op) -> Reply> Lua<F> {
    /// Sets a function, given by its number, for Lua to call on the conditions that the options
    /// specify. This always succeeds, but the hook itself can raise an error if necessary.
    pub fn set_shared_hook(&mut self, options: HookOptions, callback: usize)
        requires
            old(self).inv(),
        ensures
            final(self).inv(),
            final(self).identity() == old(self).identity(),
            steady(*old(self), *final(self)),
            final(self).good() ==> {
                let m = old(self).machine();
                &&& old(self).good()
                &&& final(self).machine() == m.with_hook(callback, options.mask, options.count)
                &&& final(self).machine().hook == Some((options.mask, options.count))
                &&& final(self).machine().extra.hook_callback == Some(callback)
            },
    {
        self.set_mut_hook(options, callback)
    }

    /// Sets a function for Lua the same way as `set_shared_hook`, but allows the use of a mutable
    /// function. The behavior is the same otherwise.
    pub fn set_mut_hook(&mut self, options: HookOptions, callback: usize)
        requires
            old(self).inv(),
        ensures
            final(self).inv(),
            final(self).identity() == old(self).identity(),
            steady(*old(self), *final(self)),
            final(self).good() ==> {
                let m = old(self).machine();
                &&& old(self).good()
                &&& final(self).machine() == m.with_hook(callback, options.mask, options.count)
                &&& final(self).machine().hook == Some((options.mask, options.count))
                &&& final(self).machine().extra.hook_callback == Some(callback)
            },
    {
        let mut extra = self.state.extra_data();
        extra.hook_callback = Some(callback);
        self.state.set_extra_data(extra);
        self.state.lua_sethook(options.mask, options.count);
        proof {
            if self.good() {
                lemma_hook_aside(old(self).machine(), self.machine());
            }
        }
    }

    /// Removes any hook previously set. This function has no effect if no hook was set.
    pub fn remove_hook(&mut self)
        requires
            old(self).inv(),
        ensures
            final(self).inv(),
            final(self).identity() == old(self).identity(),
            steady(*old(self), *final(self)),
            final(self).good() ==> {
                let m = old(self).machine();
                &&& old(self).good()
                &&& final(self).machine() == m.without_hook()
                &&& final(self).machine().hook is None
                &&& final(self).machine().extra.hook_callback is None
            },
    {
        let mut extra = self.state.extra_data();
        extra.hook_callback = None;
        self.state.set_extra_data(extra);
        self.state.lua_clearhook();
        proof {
            if self.good() {
                lemma_hook_aside(old(self).machine(), self.machine());
            }
        }
    }
}

impl Machine {
    /// With a hook that calls the function of this number.
    pub open spec fn with_hook(self, callback: usize, mask: i32, count: i32) -> Machine {
        Machine {
            extra: ExtraView { hook_callback: Some(callback), ..self.extra },
            hook: Some((mask, count)),
            ..self
        }
    }

    /// Without a hook.
    pub open spec fn without_hook(self) -> Machine {
        Machine { extra: ExtraView { hook_callback: None, ..self.extra }, hook: None, ..self }
    }
}

/// Whether the machine is at rest does not depend on the hook.
proof fn lemma_hook_aside(m: Machine, post: Machine)
    requires
        m.ready(),
        post == (Machine {
            extra: ExtraView { hook_callback: post.extra.hook_callback, ..m.extra },
            hook: post.hook,
            ..m
        }),
    ensures
        post.ready(),
{
    lemma_droppable_elsewhere(m, post, m.unref);
    lemma_types_elsewhere(m, post);
    assert forall|i: int|
        0 <= i < post.aux.len() && !post.extra.live(i + 1) implies #[trigger] post.aux[i]
        == Slot::Nil by {
        assert(!m.extra.live(i + 1));
        assert(m.aux[i] == Slot::Nil);
    }
}

} // verus!

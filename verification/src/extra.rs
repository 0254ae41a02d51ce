//! What is kept beside each main Lua state.
use std::collections::HashMap;
use vstd::prelude::*;

verus! {

/// The number of stack slots that Lua offers to every function it calls.
pub const LUA_MINSTACK: i32 = 20;

/// The largest number of slots that the stack of one Lua thread can have.
pub const LUAI_MAXSTACK: i32 = 1000000;

/// Data associated with a main Lua state, and shared by all `Lua` instances on it.
#[derive(Debug)]
pub struct ExtraData {
    /// The place in the registry of the metatable of each userdata type, by the type's number.
    pub registered_userdata: HashMap<u64, i32>,
    /// The address of the list of registry places whose keys are gone.
    pub registry_unref_list: usize,
    /// The auxiliary thread whose stack holds what references point to.
    pub ref_thread: usize,
    /// The number of references for which the auxiliary stack has room.
    pub ref_stack_size: i32,
    /// The number of slots of the auxiliary stack that have ever been in use.
    pub ref_stack_max: i32,
    /// The slots below that number that are free.
    pub ref_free: Vec<i32>,
    /// The function that the hook calls.
    pub hook_callback: Option<usize>,
}

/// An [`ExtraData`] as a mathematical value.
#[verifier::ext_equal]
pub struct ExtraView {
    pub registered_userdata: Map<u64, i32>,
    pub registry_unref_list: usize,
    pub ref_thread: usize,
    pub ref_stack_size: i32,
    pub ref_stack_max: i32,
    pub ref_free: Seq<i32>,
    pub hook_callback: Option<usize>,
}

impl View for ExtraData {
    type V = ExtraView;

    open spec fn view(&self) -> ExtraView {
        ExtraView {
            registered_userdata: self.registered_userdata@,
            registry_unref_list: self.registry_unref_list,
            ref_thread: self.ref_thread,
            ref_stack_size: self.ref_stack_size,
            ref_stack_max: self.ref_stack_max,
            ref_free: self.ref_free@,
            hook_callback: self.hook_callback,
        }
    }
}

impl ExtraView {
    /// The extra data of a state on which nothing has happened yet.
    pub open spec fn fresh(ref_thread: usize, registry_unref_list: usize) -> ExtraView {
        ExtraView {
            registered_userdata: Map::empty(),
            registry_unref_list,
            ref_thread,
            ref_stack_size: (LUA_MINSTACK - 1) as i32,
            ref_stack_max: 0,
            ref_free: Seq::empty(),
            hook_callback: None,
        }
    }

    /// The slot is held by a reference.
    pub open spec fn live(self, index: int) -> bool {
        &&& 1 <= index <= self.ref_stack_max
        &&& !self.ref_free.contains(index as i32)
    }

    /// Every slot that there is room for is taken.
    pub open spec fn full(self) -> bool {
        &&& self.ref_free.len() == 0
        &&& self.ref_stack_max >= self.ref_stack_size
    }

    /// A slot is taken for a reference: the one that was freed last, or a new one where none is
    /// free, for which the room is doubled where it is used up.
    pub open spec fn pins(self, later: ExtraView, index: i32) -> bool {
        if self.ref_free.len() > 0 {
            &&& index == self.ref_free.last()
            &&& later == ExtraView { ref_free: self.ref_free.drop_last(), ..self }
        } else {
            &&& index == self.ref_stack_max + 1
            &&& later == ExtraView {
                ref_stack_max: index,
                ref_stack_size: later.ref_stack_size,
                ..self
            }
            &&& later.ref_stack_size == if self.ref_stack_max < self.ref_stack_size {
                self.ref_stack_size as int
            } else {
                2 * self.ref_stack_size
            }
        }
    }

    /// A slot is free again.
    pub open spec fn unpinned(self, index: i32) -> ExtraView {
        ExtraView { ref_free: self.ref_free.push(index), ..self }
    }

    /// The bookkeeping of the auxiliary stack is in order: it has room for what it counts, and no
    /// slot is free twice.
    pub open spec fn wf(self) -> bool {
        &&& 0 <= self.ref_stack_max <= self.ref_stack_size
        &&& LUA_MINSTACK - 1 <= self.ref_stack_size <= LUAI_MAXSTACK
        &&& self.ref_free.no_duplicates()
        &&& forall|i: int|
            0 <= i < self.ref_free.len() ==> 1 <= #[trigger] self.ref_free[i] <= self.ref_stack_max
    }
}

impl ExtraData {
    /// The extra data of a new state.
    pub fn new(ref_thread: usize, registry_unref_list: usize) -> (r: ExtraData)
        ensures
            r@ == ExtraView::fresh(ref_thread, registry_unref_list),
            r@.wf(),
    {
        ExtraData {
            registered_userdata: HashMap::new(),
            registry_unref_list,
            ref_thread,
            // One slot more is needed to move values in and out of the auxiliary stack.
            ref_stack_size: LUA_MINSTACK - 1,
            ref_stack_max: 0,
            ref_free: Vec::new(),
            hook_callback: None,
        }
    }
}

} // verus!

//! How the machine before an operation and the machine after it are compared.
use crate::answers::{returned, slots_held};
use crate::extra::ExtraView;
use crate::machine::{
    Attempt, CallRecord, Heap, Machine, Slot, handle_count, refs_grown,
};
use crate::value::{Error, Value};
use vstd::prelude::*;

verus! {

/// References without the one that this value holds, if it is a handle.
pub open spec fn without(refs: Map<int, Slot>, value: Value) -> Map<int, Slot> {
    match value.handle() {
        Some(r) => refs.remove(r.index as int),
        None => refs,
    }
}

/// The bookkeeping of the auxiliary stack after the slot was freed that this value holds, if it is a
/// handle.
pub open spec fn slot_freed(extra: ExtraView, value: Value) -> ExtraView {
    match value.handle() {
        Some(r) => extra.unpinned(r.index),
        None => extra,
    }
}

impl Machine {
    /// This machine is the expected one, apart from references, and has no less room on the stack.
    pub open spec fn agrees(self, expected: Machine) -> bool {
        &&& self == Machine {
            limit: self.limit,
            aux: self.aux,
            aux_limit: self.aux_limit,
            extra: ExtraView {
                ref_stack_size: self.extra.ref_stack_size,
                ref_stack_max: self.extra.ref_stack_max,
                ref_free: self.extra.ref_free,
                ..expected.extra
            },
            ..expected
        }
        &&& expected.limit <= self.limit
    }

    /// The step from an earlier machine to this one failed with this error when it attempted this,
    /// and did nothing else.
    pub open spec fn failed_with(self, earlier: Machine, attempt: Attempt, error: Error) -> bool {
        self.agrees(earlier.fault(attempt, error@)) && self.refs() == earlier.refs()
    }

    /// The step from an earlier machine to this one left so many references behind, other than those
    /// that code of others has made for itself.
    pub open spec fn settled(self, earlier: Machine, left: int) -> bool {
        self.refs().len() - self.others == earlier.refs().len() - earlier.others + left
    }

    /// This value was handed out by the step from an earlier machine to this one: it stands for the
    /// slot, and if it is a handle, it holds a reference that the earlier machine did not have. No
    /// other reference changed.
    pub open spec fn hands_out(self, earlier: Machine, value: Value, slot: Slot) -> bool {
        &&& self.holds(value)
        &&& self.slot_of(value) == slot
        &&& match value.handle() {
            Some(r) => {
                &&& !earlier.live(r.index as int)
                &&& self.refs() == earlier.refs().insert(r.index as int, slot)
            },
            None => self.refs() == earlier.refs(),
        }
    }
}

/// What is left of the stack after a guard ends.
pub(crate) proof fn lemma_cut(stack: Seq<Slot>, below: Seq<Slot>)
    requires
        below.is_prefix_of(stack),
    ensures
        stack.take(below.len() as int) == below,
{
    assert(stack.take(below.len() as int) =~= below);
}

/// A call leaves the machine at rest, and keeps the references that were not given away.
pub(crate) proof fn lemma_called(
    m: Machine,
    target: Slot,
    args: Seq<Value>,
    got: Option<Seq<Value>>,
)
    requires
        m.can_run(slots_held(args), returned(got)),
    ensures
        m.called(target, args, got).exhausted == m.exhausted,
        m.ready() ==> {
            let post = m.called(target, args, got);
            &&& post.calls == m.calls.push(
                CallRecord {
                    target,
                    chunk: m.heap.chunk_of(target),
                    args: m.slots_of(args),
                    results: match got {
                        Some(values) => Some(post.slots_of(values)),
                        None => None,
                    },
                },
            )
            &&& m.ran(Machine { calls: m.calls, ..post }, slots_held(args), returned(got))
            &&& post.ready()
            &&& post.holds_all(returned(got))
            &&& post.settled(m, handle_count(returned(got)) - handle_count(args))
        },
{
    let given = slots_held(args);
    let values = returned(got);
    if m.ready() {
        let later = choose|later: Machine| m.ran(later, given, values);
        assert(m.ran(later, given, values));
        let post = m.called(target, args, got);
        let quiet = Machine { calls: m.calls, ..post };
        lemma_outlives(m, m, later, quiet);
        lemma_same_rest(later, post);
        lemma_same_rest(later, quiet);
        assert(post.slots_of(values) =~= later.slots_of(values));
        assert forall|i: int| 0 <= i < values.len() implies post.holds(#[trigger] values[i])
            && quiet.holds(values[i]) by {
            assert(later.holds(values[i]));
        }
        assert(refs_grown(m, quiet, given, values)) by {
            assert(refs_grown(m, later, given, values));
            assert forall|i: int| #[trigger] m.live(i) && !given.contains(i) implies quiet.live(i)
                && quiet.pinned(i) == m.pinned(i) by {
                assert(later.live(i));
            }
        }
    }
}

/// What is kept twice is kept.
pub(crate) proof fn lemma_kept(first: Heap, second: Heap, third: Heap)
    requires
        first.kept_in(second),
        second.kept_in(third),
    ensures
        first.kept_in(third),
{
    broadcast use vstd::map_lib::lemma_submap_of_trans;

}

/// Rust code that converts values leaves the machine at rest, keeps what was there, and accounts for
/// the references that it makes.
pub(crate) proof fn lemma_converted(m: Machine, post: Machine, got: Seq<Value>)
    requires
        m.can_grow(got),
        post == (Machine {
            yields: post.yields,
            item_key: post.item_key,
            items: post.items,
            ends: post.ends,
            faults: post.faults,
            ..m.converted(got)
        }),
    ensures
        post.exhausted == m.exhausted,
        m.ready() ==> {
            &&& post.ready()
            &&& post == Machine {
                limit: post.limit,
                aux: post.aux,
                aux_limit: post.aux_limit,
                extra: ExtraView {
                    ref_stack_size: post.extra.ref_stack_size,
                    ref_stack_max: post.extra.ref_stack_max,
                    ref_free: post.extra.ref_free,
                    ..m.extra
                },
                heap: post.heap,
                yields: post.yields,
                item_key: post.item_key,
                items: post.items,
                ends: post.ends,
                others: post.others,
                faults: post.faults,
                ..m
            }
            &&& m.limit <= post.limit
            &&& m.heap.kept_in(post.heap)
            &&& m.refs().submap_of(post.refs())
            &&& post.refs().len() - post.others == m.refs().len() - m.others + handle_count(got)
            &&& forall|k: int|
                0 <= k < got.len() ==> post.holds(#[trigger] got[k]) && (got[k].handle() is Some
                    ==> !m.refs().contains_key(got[k].handle()->0.index as int))
        },
{
    if m.ready() {
        let later = choose|later: Machine| m.grown(later, got);
        assert(m.grown(later, got));
        assert(post.refs() =~= later.refs());
        assert forall|i: int| #[trigger] m.refs().contains_key(i) implies (
        #[trigger] post.refs().contains_key(i)) && m.refs()[i] == post.refs()[i] by {
            assert(m.live(i));
            assert(later.live(i));
            assert(later.pinned(i) == m.pinned(i));
        }
        assert(m.refs().submap_of(post.refs()));
        assert forall|k: int| 0 <= k < got.len() implies post.holds(#[trigger] got[k]) && (
        got[k].handle() is Some ==> !m.refs().contains_key(got[k].handle()->0.index as int)) by {
            assert(later.holds(got[k]));
        }
        lemma_same_rest(later, post);
    }
}

/// Whether a machine is at rest depends on its stacks, its objects and its bookkeeping alone.
pub(crate) proof fn lemma_same_rest(m: Machine, post: Machine)
    requires
        m.ready(),
        post == (Machine {
            yields: post.yields,
            item_key: post.item_key,
            items: post.items,
            ends: post.ends,
            others: post.others,
            registrations: post.registrations,
            faults: post.faults,
            disturbed: post.disturbed,
            calls: post.calls,
            ..m
        }),
    ensures
        post.ready(),
        post.refs() == m.refs(),
{
    assert(post.refs() =~= m.refs());
    lemma_droppable_elsewhere(m, post, m.unref);
    assert(post.types_stored()) by {
        assert(m.types_stored());
    }
}

/// Two machines have the same in what outlives code of others.
pub open spec fn same_lasting(m: Machine, other: Machine) -> bool {
    &&& m.main_state == other.main_state
    &&& m.function_key == other.function_key
    &&& m.laws == other.laws
    &&& m.aux_thread == other.aux_thread
    &&& m.anchor == other.anchor
    &&& m.extra.registry_unref_list == other.extra.registry_unref_list
    &&& m.extra.registered_userdata == other.extra.registered_userdata
    &&& m.heap.registry == other.heap.registry
    &&& m.heap.allotted == other.heap.allotted
    &&& m.unref == other.unref
    &&& m.disturbed == other.disturbed
}

/// What outlives code of others does not depend on the rest of the machine.
pub(crate) proof fn lemma_outlives(m: Machine, before: Machine, after: Machine, post: Machine)
    requires
        same_lasting(m, before),
        before.outlives(after),
        same_lasting(after, post),
    ensures
        m.outlives(post),
{
    let touched = post.disturbed.last();
    assert forall|id: i32|
        #![trigger post.heap.allotted.contains(id)]
        #![trigger post.owned_place(id)]
        !touched.contains(Slot::Integer(id as i64)) implies {
        &&& post.heap.allotted.contains(id) == m.heap.allotted.contains(id)
        &&& m.owned_place(id) ==> post.owned_place(id)
    } by {
        assert(after.heap.allotted.contains(id) == before.heap.allotted.contains(id));
        assert(before.owned_place(id) ==> after.owned_place(id));
    }
}

/// Which places of the registry may be cleared depends on what was given out for what.
pub(crate) proof fn lemma_droppable_elsewhere(m: Machine, post: Machine, ids: Seq<i32>)
    requires
        m.droppable(ids),
        forall|i: int| 0 <= i < ids.len() && m.key_place(#[trigger] ids[i]) ==> post.key_place(ids[i]),
    ensures
        post.droppable(ids),
{
    assert forall|i: int| 0 <= i < ids.len() implies (#[trigger] ids[i]) < 0 || post.key_place(
        ids[i],
    ) by {
        assert(ids[i] < 0 || m.key_place(ids[i]));
    }
}

/// There are only so many references.
pub(crate) proof fn lemma_refs_finite(m: Machine)
    requires
        m.extra.wf(),
    ensures
        m.refs().dom().finite(),
{
    let max = m.extra.ref_stack_max as int;
    let range = vstd::set_lib::set_int_range(1, max + 1);
    vstd::set_lib::lemma_int_range(1, max + 1);
    assert forall|i: int| m.refs().dom().contains(i) implies range.contains(i) by {
        assert(m.extra.live(i));
    }
    vstd::set_lib::lemma_len_subset(m.refs().dom(), range);
}

/// One value is one handle or none.
pub(crate) proof fn lemma_one_handle(value: Value)
    ensures
        handle_count(seq![value]) == if value.handle() is Some {
            1int
        } else {
            0
        },
{
    reveal_with_fuel(handle_count, 2);
    assert(seq![value].last() == value);
    assert(seq![value].drop_last().len() == 0);
}

/// The handles among several values are those among the first and those among the rest.
pub(crate) proof fn lemma_more_handles(first: Seq<Value>, rest: Seq<Value>)
    ensures
        handle_count(first + rest) == handle_count(first) + handle_count(rest),
    decreases rest.len(),
{
    if rest.len() == 0 {
        assert(first + rest =~= first);
    } else {
        lemma_more_handles(first, rest.drop_last());
        assert((first + rest).drop_last() =~= first + rest.drop_last());
    }
}

/// How many references there are after a value was handed out.
pub(crate) proof fn lemma_one_more_held(m: Machine, post: Machine, value: Value)
    requires
        m.extra.wf(),
        exists|slot: Slot| #[trigger] post.hands_out(m, value, slot),
    ensures
        post.refs().len() == m.refs().len() + handle_count(seq![value]),
{
    let slot = choose|slot: Slot| #[trigger] post.hands_out(m, value, slot);
    lemma_refs_finite(m);
    lemma_one_handle(value);
    if value.handle() is Some {
        let index = value.handle()->0.index as int;
        assert(!m.refs().contains_key(index));
        assert(post.refs().dom() =~= m.refs().dom().insert(index));
    }
}

/// How many references there are after that of a value was given up.
pub(crate) proof fn lemma_one_less_held(m: Machine, post: Machine, value: Value)
    requires
        m.extra.wf(),
        m.holds(value),
        post.refs() == without(m.refs(), value),
    ensures
        post.refs().len() == m.refs().len() - handle_count(seq![value]),
{
    lemma_refs_finite(m);
    lemma_one_handle(value);
    if value.handle() is Some {
        let index = value.handle()->0.index as int;
        assert(m.refs().contains_key(index));
        assert(post.refs().dom() =~= m.refs().dom().remove(index));
    }
}

} // verus!

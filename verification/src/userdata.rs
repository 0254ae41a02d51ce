//! The methods of a userdata type.
use crate::value::Callback;
use vstd::prelude::*;

verus! {

/// A method that Lua looks up in the metatable of a value, by its name there.
#[derive(Debug)]
pub struct MetaMethod {
    pub name: Vec<u8>,
}

/// One method: its name and the callback behind it.
#[derive(Debug)]
pub struct Entry {
    pub name: Vec<u8>,
    pub callback: Callback,
}

/// The callbacks by name that a list of methods stands for.
pub open spec fn table_of(entries: Seq<Entry>) -> Map<Seq<u8>, Callback>
    decreases entries.len(),
{
    if entries.len() == 0 {
        Map::empty()
    } else {
        table_of(entries.drop_last()).insert(entries.last().name@, entries.last().callback)
    }
}

/// No name occurs twice.
pub open spec fn names_distinct(entries: Seq<Entry>) -> bool {
    forall|i: int, j: int|
        0 <= i < j < entries.len() ==> #[trigger] entries[i].name@ != #[trigger] entries[j].name@
}

/// What a list of methods holds under a name, for each of its entries.
pub(crate) proof fn lemma_table_of(entries: Seq<Entry>)
    requires
        names_distinct(entries),
    ensures
        forall|i: int|
            0 <= i < entries.len() ==> table_of(entries).contains_key(
                #[trigger] entries[i].name@,
            ) && table_of(entries)[entries[i].name@] == entries[i].callback,
        forall|name: Seq<u8>| #[trigger]
            table_of(entries).contains_key(name) ==> exists|i: int|
                0 <= i < entries.len() && #[trigger] entries[i].name@ == name,
    decreases entries.len(),
{
    if entries.len() > 0 {
        let rest = entries.drop_last();
        assert forall|i: int, j: int| 0 <= i < j < rest.len() implies #[trigger] rest[i].name@
            != #[trigger] rest[j].name@ by {
            assert(rest[i] == entries[i] && rest[j] == entries[j]);
        }
        lemma_table_of(rest);
        assert forall|i: int| 0 <= i < entries.len() implies table_of(entries).contains_key(
            #[trigger] entries[i].name@,
        ) && table_of(entries)[entries[i].name@] == entries[i].callback by {
            if i < entries.len() - 1 {
                assert(rest[i] == entries[i]);
                assert(entries[i].name@ != entries[entries.len() - 1].name@);
            }
        }
        assert forall|name: Seq<u8>| #[trigger] table_of(entries).contains_key(name) implies exists|
            i: int,
        | 0 <= i < entries.len() && #[trigger] entries[i].name@ == name by {
            if name == entries.last().name@ {
                assert(entries[entries.len() - 1].name@ == name);
            } else {
                assert(table_of(rest).contains_key(name));
                let i = choose|i: int| 0 <= i < rest.len() && #[trigger] rest[i].name@ == name;
                assert(entries[i].name@ == name);
            }
        }
    }
}

/// Compares two names byte by byte.
fn same_name(a: &Vec<u8>, b: &Vec<u8>) -> (r: bool)
    ensures
        r == (a@ == b@),
{
    if a.len() != b.len() {
        return false;
    }
    let mut i: usize = 0;
    while i < a.len()
        invariant
            a.len() == b.len(),
            i <= a.len(),
            forall|j: int| 0 <= j < i ==> a@[j] == b@[j],
        decreases a.len() - i,
    {
        if a[i] != b[i] {
            return false;
        }
        i += 1;
    }
    assert(a@ =~= b@);
    true
}

/// Puts a method into a list, in the place of one with the same name if there is one.
fn insert_entry(entries: &mut Vec<Entry>, name: Vec<u8>, callback: Callback)
    requires
        names_distinct(old(entries)@),
    ensures
        names_distinct(final(entries)@),
        table_of(final(entries)@) == table_of(old(entries)@).insert(name@, callback),
{
    let ghost before = entries@;
    let mut i: usize = 0;
    while i < entries.len()
        invariant
            i <= entries.len(),
            entries@ == before,
            before == old(entries)@,
            names_distinct(before),
            forall|j: int| 0 <= j < i ==> #[trigger] before[j].name@ != name@,
        decreases entries.len() - i,
    {
        if same_name(&entries[i].name, &name) {
            let ghost key = name@;
            entries.set(i, Entry { name, callback });
            proof {
                let after = entries@;
                assert(after[i as int].name@ == key);
                assert forall|a: int, b: int| 0 <= a < b < after.len() implies #[trigger] after[
                    a
                ].name@ != #[trigger] after[b].name@ by {
                    assert(before[a].name@ != before[b].name@);
                }
                lemma_table_of(before);
                lemma_table_of(after);
                let expected = table_of(before).insert(key, callback);
                assert forall|k: Seq<u8>| #[trigger] table_of(after).contains_key(
                    k,
                ) implies expected.contains_key(k) && table_of(after)[k] == expected[k] by {
                    let j = choose|j: int| 0 <= j < after.len() && #[trigger] after[j].name@ == k;
                    assert(before[j].name@ == k);
                }
                assert forall|k: Seq<u8>| #[trigger] expected.contains_key(k) implies table_of(
                    after,
                ).contains_key(k) by {
                    if k == key {
                        assert(after[i as int].name@ == k);
                    } else {
                        let j = choose|j: int|
                            0 <= j < before.len() && #[trigger] before[j].name@ == k;
                        assert(after[j].name@ == k);
                    }
                }
                assert(table_of(after) =~= expected);
            }
            return ;
        }
        i += 1;
    }
    entries.push(Entry { name, callback });
    proof {
        let after = entries@;
        assert(after.drop_last() =~= before);
        assert forall|a: int, b: int| 0 <= a < b < after.len() implies #[trigger] after[a].name@
            != #[trigger] after[b].name@ by {
            assert(after[a] == before[a]);
            if b < before.len() {
                assert(after[b] == before[b]);
            }
        }
    }
}

/// The methods of one userdata type, as the type registers them.
#[derive(Debug)]
pub struct StaticUserDataMethods {
    pub methods: Vec<Entry>,
    pub meta_methods: Vec<Entry>,
}

/// The methods of one userdata type by name.
#[verifier::ext_equal]
pub struct MethodsView {
    pub methods: Map<Seq<u8>, Callback>,
    pub meta_methods: Map<Seq<u8>, Callback>,
}

impl View for StaticUserDataMethods {
    type V = MethodsView;

    open spec fn view(&self) -> MethodsView {
        MethodsView {
            methods: table_of(self.methods@),
            meta_methods: table_of(self.meta_methods@),
        }
    }
}

impl Default for StaticUserDataMethods {
    fn default() -> (r: StaticUserDataMethods)
        ensures
            r.wf(),
            r@ == (MethodsView { methods: Map::empty(), meta_methods: Map::empty() }),
    {
        StaticUserDataMethods { methods: Vec::new(), meta_methods: Vec::new() }
    }
}

impl StaticUserDataMethods {
    /// No method occurs twice.
    pub open spec fn wf(&self) -> bool {
        names_distinct(self.methods@) && names_distinct(self.meta_methods@)
    }

    /// Adds a method that reads its userdata.
    pub fn add_method(&mut self, name: Vec<u8>, method: usize)
        requires
            old(self).wf(),
        ensures
            final(self).wf(),
            final(self)@ == (MethodsView {
                methods: old(self)@.methods.insert(name@, Callback::Method(method)),
                ..old(self)@
            }),
    {
        insert_entry(&mut self.methods, name, Callback::Method(method));
    }

    /// Adds a method that changes its userdata.
    pub fn add_method_mut(&mut self, name: Vec<u8>, method: usize)
        requires
            old(self).wf(),
        ensures
            final(self).wf(),
            final(self)@ == (MethodsView {
                methods: old(self)@.methods.insert(name@, Callback::MethodMut(method)),
                ..old(self)@
            }),
    {
        insert_entry(&mut self.methods, name, Callback::MethodMut(method));
    }

    /// Adds a function.
    pub fn add_function(&mut self, name: Vec<u8>, function: usize)
        requires
            old(self).wf(),
        ensures
            final(self).wf(),
            final(self)@ == (MethodsView {
                methods: old(self)@.methods.insert(name@, Callback::Function(function)),
                ..old(self)@
            }),
    {
        insert_entry(&mut self.methods, name, Callback::Function(function));
    }

    /// Adds a function that must not be entered again while it runs.
    pub fn add_function_mut(&mut self, name: Vec<u8>, function: usize)
        requires
            old(self).wf(),
        ensures
            final(self).wf(),
            final(self)@ == (MethodsView {
                methods: old(self)@.methods.insert(name@, Callback::StaticFunctionMut(function)),
                ..old(self)@
            }),
    {
        insert_entry(&mut self.methods, name, Callback::StaticFunctionMut(function));
    }

    /// Adds a metamethod that reads its userdata.
    pub fn add_meta_method(&mut self, meta: MetaMethod, method: usize)
        requires
            old(self).wf(),
        ensures
            final(self).wf(),
            final(self)@ == (MethodsView {
                meta_methods: old(self)@.meta_methods.insert(meta.name@, Callback::Method(method)),
                ..old(self)@
            }),
    {
        insert_entry(&mut self.meta_methods, meta.name, Callback::Method(method));
    }

    /// Adds a metamethod that changes its userdata.
    pub fn add_meta_method_mut(&mut self, meta: MetaMethod, method: usize)
        requires
            old(self).wf(),
        ensures
            final(self).wf(),
            final(self)@ == (MethodsView {
                meta_methods: old(self)@.meta_methods.insert(
                    meta.name@,
                    Callback::MethodMut(method),
                ),
                ..old(self)@
            }),
    {
        insert_entry(&mut self.meta_methods, meta.name, Callback::MethodMut(method));
    }

    /// Adds a function as a metamethod.
    pub fn add_meta_function(&mut self, meta: MetaMethod, function: usize)
        requires
            old(self).wf(),
        ensures
            final(self).wf(),
            final(self)@ == (MethodsView {
                meta_methods: old(self)@.meta_methods.insert(
                    meta.name@,
                    Callback::Function(function),
                ),
                ..old(self)@
            }),
    {
        insert_entry(&mut self.meta_methods, meta.name, Callback::Function(function));
    }

    /// Adds a function that must not be entered again while it runs as a metamethod.
    pub fn add_meta_function_mut(&mut self, meta: MetaMethod, function: usize)
        requires
            old(self).wf(),
        ensures
            final(self).wf(),
            final(self)@ == (MethodsView {
                meta_methods: old(self)@.meta_methods.insert(
                    meta.name@,
                    Callback::StaticFunctionMut(function),
                ),
                ..old(self)@
            }),
    {
        insert_entry(&mut self.meta_methods, meta.name, Callback::StaticFunctionMut(function));
    }
}

} // verus!

use vstd::prelude::*;
use vstd::std_specs::iter::IteratorSpec;

verus! {

/// The index of the first entry whose name is `name`, if any.
pub open spec fn first_index<T>(entries: Seq<(Seq<char>, T)>, name: Seq<char>) -> Option<int> {
    if exists|i: int| is_first_index(entries, name, i) {
        Some(choose|i: int| is_first_index(entries, name, i))
    } else {
        None
    }
}

pub open spec fn is_first_index<T>(entries: Seq<(Seq<char>, T)>, name: Seq<char>, i: int) -> bool {
    &&& 0 <= i < entries.len()
    &&& entries[i].0 == name
    &&& forall|j: int| 0 <= j < i ==> entries[j].0 != name
}

/// The value stored under `name` in a single table: the first entry with that name wins.
pub open spec fn table_lookup<T>(entries: Seq<(Seq<char>, T)>, name: Seq<char>) -> Option<T> {
    match first_index(entries, name) {
        Some(i) => Some(entries[i].1),
        None => None,
    }
}

/// A table after `name` is bound to `val`: the first entry with that name is overwritten,
/// or a new entry is appended at the end.
pub open spec fn table_assign<T>(entries: Seq<(Seq<char>, T)>, name: Seq<char>, val: T) -> Seq<(Seq<char>, T)> {
    match first_index(entries, name) {
        Some(i) => entries.update(i, (name, val)),
        None => entries.push((name, val)),
    }
}

/// The value `name` has in a stack of tables, searched from the most recently pushed one.
pub open spec fn scopes_lookup<T>(tables: Seq<Seq<(Seq<char>, T)>>, name: Seq<char>) -> Option<T>
    decreases tables.len(),
{
    if tables.len() == 0 {
        None
    } else {
        match table_lookup(tables.last(), name) {
            Some(v) => Some(v),
            None => scopes_lookup(tables.drop_last(), name),
        }
    }
}

pub proof fn lemma_first_index_unique<T>(entries: Seq<(Seq<char>, T)>, name: Seq<char>, i: int)
    requires
        is_first_index(entries, name, i),
    ensures
        first_index(entries, name) == Some(i),
{
    let k = choose|k: int| is_first_index(entries, name, k);
    assert(is_first_index(entries, name, k));
    if k < i {
        assert(entries[k].0 != name);
    } else if i < k {
        assert(entries[i].0 != name);
    }
}

pub proof fn lemma_first_index_none<T>(entries: Seq<(Seq<char>, T)>, name: Seq<char>)
    requires
        forall|j: int| 0 <= j < entries.len() ==> entries[j].0 != name,
    ensures
        first_index(entries, name) is None,
{
}

/// Finds the first position of `name` in `entries`, or `None`.
pub fn position_of<T>(entries: &Vec<(String, T)>, name: &String) -> (r: Option<usize>)
    ensures
        match r {
            Some(i) => first_index(entries_model(entries@), name@) == Some(i as int),
            None => first_index(entries_model(entries@), name@) is None,
        },
{
    let ghost m = entries_model(entries@);
    let mut i: usize = 0;
    while i < entries.len()
        invariant
            i <= entries.len(),
            m == entries_model(entries@),
            forall|j: int| 0 <= j < i ==> m[j].0 != name@,
        decreases entries.len() - i,
    {
        if entries[i].0 == *name {
            proof {
                lemma_first_index_unique(m, name@, i as int);
            }
            return Some(i);
        }
        i = i + 1;
    }
    proof {
        lemma_first_index_none(m, name@);
    }
    None
}

pub open spec fn entries_model<T>(entries: Seq<(String, T)>) -> Seq<(Seq<char>, T)> {
    Seq::new(entries.len(), |i: int| (entries[i].0@, entries[i].1))
}

/// An ordered table of named values; insertion order is kept.
pub struct NamedArgsList<T> {
    args: Vec<(String, T)>,
}

impl<T> View for NamedArgsList<T> {
    type V = Seq<(Seq<char>, T)>;

    closed spec fn view(&self) -> Seq<(Seq<char>, T)> {
        entries_model(self.args@)
    }
}

impl<T: Clone> NamedArgsList<T> {
    /// An empty table.
    pub fn new() -> (r: Self)
        ensures
            r@ == Seq::<(Seq<char>, T)>::empty(),
    {
        let r = Self { args: Vec::new() };
        assert(r@ =~= Seq::<(Seq<char>, T)>::empty());
        r
    }

    /// A copy of the value of the entry at position `ind`.
    pub fn get_ith_val(&self, ind: usize) -> (r: T)
        requires
            ind < self@.len(),
        ensures
            cloned(self@[ind as int].1, r),
    {
        self.args[ind].1.clone()
    }

    /// A copy of the value of the first entry named `name`, if there is one.
    pub fn find_by_name(&self, name: &str) -> (r: Option<T>)
        ensures
            match table_lookup(self@, name@) {
                Some(v) => r is Some && cloned(v, r->Some_0),
                None => r is None,
            },
    {
        let key = name.to_owned();
        match position_of(&self.args, &key) {
            Some(i) => Some(self.args[i].1.clone()),
            None => None,
        }
    }

    pub fn len(&self) -> (r: usize)
        ensures
            r == self@.len(),
    {
        self.args.len()
    }

    pub fn is_empty(&self) -> (r: bool)
        ensures
            r == (self@.len() == 0),
    {
        self.args.len() == 0
    }

    /// Iterates over the entries in insertion order.
    pub fn iter(&self) -> (r: std::slice::Iter<'_, (String, T)>)
        ensures
            r.remaining().len() == self@.len(),
            forall|i: int|
                0 <= i < self@.len() ==> (#[trigger] r.remaining()[i]).0@ == self@[i].0
                    && r.remaining()[i].1 == self@[i].1,
    {
        self.args.iter()
    }

    /// Copies of the values, in insertion order.
    pub fn copy_values(&self) -> (r: Vec<T>)
        ensures
            r@.len() == self@.len(),
            forall|i: int| 0 <= i < r@.len() ==> cloned(self@[i].1, #[trigger] r@[i]),
    {
        let mut res: Vec<T> = Vec::new();
        let mut i: usize = 0;
        while i < self.args.len()
            invariant
                i <= self.args@.len(),
                res@.len() == i,
                forall|j: int| 0 <= j < i ==> cloned(self@[j].1, #[trigger] res@[j]),
            decreases self.args@.len() - i,
        {
            res.push(self.args[i].1.clone());
            i = i + 1;
        }
        res
    }

    /// Binds `name` to `val`: overwrites the first entry with that name, or appends one.
    pub fn add_or_assign(&mut self, name: &str, val: T)
        ensures
            final(self)@ == table_assign(old(self)@, name@, val),
    {
        let key = name.to_owned();
        match position_of(&self.args, &key) {
            Some(i) => {
                self.args.set(i, (key, val));
            },
            None => {
                self.args.push((key, val));
            },
        }
        proof {
            assert(self@ =~= table_assign(old(self)@, name@, val));
        }
    }
}

impl<T: Clone> Default for NamedArgsList<T> {
    fn default() -> (r: Self)
        ensures
            r@ == Seq::<(Seq<char>, T)>::empty(),
    {
        Self::new()
    }
}

/// A stack of tables. The first table pushed is the global one and always stays.
pub struct VariablesSet<T> {
    sets: Vec<NamedArgsList<T>>,
}

impl<T> View for VariablesSet<T> {
    type V = Seq<Seq<(Seq<char>, T)>>;

    closed spec fn view(&self) -> Seq<Seq<(Seq<char>, T)>> {
        Seq::new(self.sets@.len(), |i: int| self.sets@[i]@)
    }
}

impl<T: Clone> VariablesSet<T> {
    /// Holds one table or more.
    pub open spec fn wf(&self) -> bool {
        self@.len() >= 1
    }

    /// A stack holding one empty (global) table.
    pub fn new() -> (r: Self)
        ensures
            r@ == seq![Seq::<(Seq<char>, T)>::empty()],
            r.wf(),
    {
        let mut res = VariablesSet { sets: Vec::new() };
        res.sets.push(NamedArgsList::<T>::new());
        assert(res@ =~= seq![Seq::<(Seq<char>, T)>::empty()]);
        res
    }

    /// A copy of the value `name` has, searching from the most recently pushed table.
    pub fn find_var(&self, name: &str) -> (r: Option<T>)
        ensures
            match scopes_lookup(self@, name@) {
                Some(v) => r is Some && cloned(v, r->Some_0),
                None => r is None,
            },
    {
        let mut k: usize = self.sets.len();
        assert(self@.subrange(0, k as int) =~= self@);
        while k > 0
            invariant
                k <= self.sets@.len(),
                scopes_lookup(self@, name@) == scopes_lookup(self@.subrange(0, k as int), name@),
            decreases k,
        {
            let val = self.sets[k - 1].find_by_name(name);
            proof {
                let pre = self@.subrange(0, k as int);
                assert(pre.last() == self@[k - 1]);
                assert(pre.drop_last() =~= self@.subrange(0, k - 1));
            }
            if val.is_some() {
                return val;
            }
            k = k - 1;
        }
        None
    }

    /// Binds `name` to `val` in the most recently pushed table.
    pub fn add_or_assign_var(&mut self, name: &str, val: T)
        requires
            old(self).wf(),
        ensures
            final(self).wf(),
            final(self)@ == old(self)@.update(
                old(self)@.len() - 1,
                table_assign(old(self)@.last(), name@, val),
            ),
    {
        let mut top = self.sets.pop().unwrap();
        top.add_or_assign(name, val);
        self.sets.push(top);
        proof {
            assert(self@ =~= old(self)@.update(
                old(self)@.len() - 1,
                table_assign(old(self)@.last(), name@, val),
            ));
        }
    }

    /// Pushes a table that is searched before the others.
    pub fn add_set(&mut self, container: NamedArgsList<T>)
        requires
            old(self).wf(),
        ensures
            final(self).wf(),
            final(self)@ == old(self)@.push(container@),
    {
        self.sets.push(container);
        assert(self@ =~= old(self)@.push(container@));
    }

    /// Removes the most recently pushed table; the global table is never removed.
    pub fn pop_set(&mut self)
        requires
            old(self).wf(),
        ensures
            final(self).wf(),
            old(self)@.len() > 1 ==> final(self)@ == old(self)@.drop_last(),
            old(self)@.len() == 1 ==> final(self)@ == old(self)@,
    {
        if self.sets.len() > 1 {
            self.sets.pop();
            assert(self@ =~= old(self)@.drop_last());
        }
    }
}

impl<T: Clone> Default for VariablesSet<T> {
    fn default() -> (r: Self)
        ensures
            r@ == seq![Seq::<(Seq<char>, T)>::empty()],
    {
        Self::new()
    }
}

} // verus!

use vstd::prelude::*;

verus! {

/// The model of a sequence of bindings: each name maps to the value of its
/// last binding.
pub open spec fn map_of(s: Seq<(String, i64)>) -> Map<Seq<char>, i64>
    decreases s.len(),
{
    if s.len() == 0 {
        Map::empty()
    } else {
        map_of(s.drop_last()).insert(s.last().0@, s.last().1)
    }
}

/// No name is bound by two entries.
pub open spec fn names_unique(s: Seq<(String, i64)>) -> bool {
    forall|i: int, j: int| 0 <= i < j < s.len() ==> (#[trigger] s[i]).0@ != (#[trigger] s[j]).0@
}

/// No entry after index `i` binds `k`.
pub open spec fn last_binding(s: Seq<(String, i64)>, i: int, k: Seq<char>) -> bool {
    &&& 0 <= i < s.len()
    &&& s[i].0@ == k
    &&& forall|j: int| i < j < s.len() ==> (#[trigger] s[j]).0@ != k
}

proof fn lemma_map_of_contains(s: Seq<(String, i64)>, k: Seq<char>)
    ensures
        map_of(s).contains_key(k) <==> exists|i: int| 0 <= i < s.len() && (#[trigger] s[i]).0@ == k,
        forall|i: int| #[trigger] last_binding(s, i, k) ==> map_of(s)[k] == s[i].1,
    decreases s.len(),
{
    if s.len() > 0 {
        let t = s.drop_last();
        lemma_map_of_contains(t, k);
        if map_of(s).contains_key(k) && s.last().0@ != k {
            let i = choose|i: int| 0 <= i < t.len() && (#[trigger] t[i]).0@ == k;
            assert(s[i] == t[i]);
        }
        assert forall|i: int| #[trigger] last_binding(s, i, k) implies map_of(s)[k] == s[i].1 by {
            if i < s.len() - 1 {
                assert(s[i] == t[i]);
                assert(s[s.len() - 1].0@ != k);
                assert forall|j: int| i < j < t.len() implies (#[trigger] t[j]).0@ != k by {
                    assert(t[j] == s[j]);
                }
                assert(last_binding(t, i, k));
            }
        }
        if exists|i: int| 0 <= i < s.len() && (#[trigger] s[i]).0@ == k {
            let i = choose|i: int| 0 <= i < s.len() && (#[trigger] s[i]).0@ == k;
            if i < s.len() - 1 {
                assert(t[i] == s[i]);
            }
        }
    }
}

proof fn lemma_map_of_len(s: Seq<(String, i64)>)
    requires
        names_unique(s),
    ensures
        map_of(s).dom().finite(),
        map_of(s).len() == s.len(),
    decreases s.len(),
{
    if s.len() > 0 {
        let t = s.drop_last();
        assert(names_unique(t)) by {
            assert forall|i: int, j: int| 0 <= i < j < t.len() implies (#[trigger] t[i]).0@ != (
            #[trigger] t[j]).0@ by {
                assert(t[i] == s[i] && t[j] == s[j]);
            }
        }
        lemma_map_of_len(t);
        lemma_map_of_contains(t, s.last().0@);
        if map_of(t).contains_key(s.last().0@) {
            let i = choose|i: int| 0 <= i < t.len() && (#[trigger] t[i]).0@ == s.last().0@;
            assert(t[i] == s[i]);
        }
    }
}

proof fn lemma_map_of_update(s: Seq<(String, i64)>, i: int, e: (String, i64))
    requires
        last_binding(s, i, e.0@),
    ensures
        map_of(s.update(i, e)) =~= map_of(s).insert(e.0@, e.1),
    decreases s.len(),
{
    let u = s.update(i, e);
    let t = s.drop_last();
    if i == s.len() - 1 {
        assert(u.drop_last() =~= t);
    } else {
        assert forall|j: int| i < j < t.len() implies (#[trigger] t[j]).0@ != e.0@ by {
            assert(t[j] == s[j]);
        }
        lemma_map_of_update(t, i, e);
        assert(u.drop_last() =~= t.update(i, e));
        assert(s[s.len() - 1].0@ != e.0@);
    }
}

/// The variables of an interpreter: each name bound to its last assigned
/// value, kept in the order in which names were first assigned: assigning a
/// name again replaces its entry in place.
#[derive(Debug)]
pub struct Variables {
    entries: Vec<(String, i64)>,
}

impl View for Variables {
    type V = Map<Seq<char>, i64>;

    closed spec fn view(&self) -> Map<Seq<char>, i64> {
        map_of(self.entries@)
    }
}

impl Variables {
    #[verifier::type_invariant]
    spec fn inv(&self) -> bool {
        names_unique(self.entries@)
    }

    /// The bindings in the order in which their names were first assigned.
    pub closed spec fn bindings(&self) -> Seq<(String, i64)> {
        self.entries@
    }

    /// No variables.
    pub fn new() -> (r: Variables)
        ensures
            r@ == Map::<Seq<char>, i64>::empty(),
            r.bindings() == Seq::<(String, i64)>::empty(),
    {
        Variables { entries: Vec::new() }
    }

    /// The last entry that binds `name`.
    fn position(&self, name: &String) -> (r: Option<usize>)
        ensures
            match r {
                Some(i) => last_binding(self.entries@, i as int, name@),
                None => forall|i: int|
                    0 <= i < self.entries@.len() ==> (#[trigger] self.entries@[i]).0@ != name@,
            },
    {
        let mut i: usize = self.entries.len();
        while i > 0
            invariant
                i <= self.entries@.len(),
                forall|j: int| i <= j < self.entries@.len() ==> (#[trigger] self.entries@[j]).0@ != name@,
            decreases i,
        {
            i = i - 1;
            if self.entries[i].0 == *name {
                return Some(i);
            }
        }
        None
    }

    /// The value bound to `name`, if any.
    pub fn get(&self, name: &str) -> (r: Option<&i64>)
        ensures
            match r {
                Some(v) => self@.contains_key(name@) && *v == self@[name@],
                None => !self@.contains_key(name@),
            },
    {
        proof {
            lemma_map_of_contains(self.entries@, name@);
        }
        let key = name.to_owned();
        match self.position(&key) {
            Some(i) => Some(&self.entries[i].1),
            None => None,
        }
    }

    /// Each binding, once, in the order in which names were first assigned.
    pub fn entries(&self) -> (r: &Vec<(String, i64)>)
        ensures
            r@ == self.bindings(),
            map_of(r@) == self@,
            names_unique(r@),
    {
        proof {
            use_type_invariant(self);
        }
        &self.entries
    }

    /// The number of variables.
    pub fn len(&self) -> (r: usize)
        ensures
            r == self@.len(),
    {
        proof {
            use_type_invariant(self);
            lemma_map_of_len(self.entries@);
        }
        self.entries.len()
    }

    /// Binds `name` to `value`. A name bound before keeps its place among the
    /// bindings; a new name is added after all others.
    pub fn insert(&mut self, name: String, value: i64)
        ensures
            final(self)@ == old(self)@.insert(name@, value),
            forall|i: int|
                0 <= i < old(self).bindings().len() && (#[trigger] old(self).bindings()[i]).0@
                    == name@ ==> final(self).bindings() == old(self).bindings().update(
                    i,
                    (name, value),
                ),
            (forall|i: int|
                0 <= i < old(self).bindings().len() ==> (#[trigger] old(self).bindings()[i]).0@
                    != name@) ==> final(self).bindings() == old(self).bindings().push(
                (name, value),
            ),
    {
        proof {
            use_type_invariant(&*self);
        }
        let mut taken = Variables::new();
        std::mem::swap(self, &mut taken);
        proof {
            use_type_invariant(&taken);
        }
        let ghost before = taken.entries@;
        let pos = taken.position(&name);
        let mut entries = taken.entries;
        match pos {
            Some(i) => {
                proof {
                    lemma_map_of_update(entries@, i as int, (name, value));
                }
                entries.set(i, (name, value));
                assert(names_unique(entries@)) by {
                    assert forall|j: int, k: int| 0 <= j < k < entries@.len() implies (
                    #[trigger] entries@[j]).0@ != (#[trigger] entries@[k]).0@ by {
                        assert(before[j].0@ != before[k].0@);
                    }
                }
            },
            None => {
                entries.push((name, value));
                proof {
                    assert(entries@.drop_last() =~= before);
                }
                assert(names_unique(entries@)) by {
                    assert forall|j: int, k: int| 0 <= j < k < entries@.len() implies (
                    #[trigger] entries@[j]).0@ != (#[trigger] entries@[k]).0@ by {
                        if k < before.len() {
                            assert(before[j].0@ != before[k].0@);
                        } else {
                            assert(before[j].0@ != name@);
                        }
                    }
                }
            },
        }
        *self = Variables { entries };
    }
}

} // verus!

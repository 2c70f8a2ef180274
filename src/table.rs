use vstd::prelude::*;

verus! {

/// The position of the last entry named `k`, or -1 where there is none.
pub open spec fn index_of<V>(s: Seq<(String, V)>, k: Seq<char>) -> int
    decreases s.len(),
{
    if s.len() == 0 {
        -1
    } else if s.last().0@ == k {
        s.len() - 1
    } else {
        index_of(s.drop_last(), k)
    }
}

pub proof fn lemma_index_of_bounds<V>(s: Seq<(String, V)>, k: Seq<char>)
    ensures
        -1 <= index_of(s, k) < s.len(),
        index_of(s, k) >= 0 ==> s[index_of(s, k)].0@ == k,
    decreases s.len(),
{
    if s.len() > 0 && s.last().0@ != k {
        lemma_index_of_bounds(s.drop_last(), k);
    }
}

/// Replacing an entry by one of the same name moves no name.
pub proof fn lemma_index_of_update<V>(s: Seq<(String, V)>, i: int, e: (String, V), k: Seq<char>)
    requires
        0 <= i < s.len(),
        e.0@ == s[i].0@,
    ensures
        index_of(s.update(i, e), k) == index_of(s, k),
    decreases s.len(),
{
    let t = s.update(i, e);
    if i < s.len() - 1 {
        assert(t.drop_last() =~= s.drop_last().update(i, e));
        lemma_index_of_update(s.drop_last(), i, e, k);
    } else {
        assert(t.drop_last() =~= s.drop_last());
    }
}

/// Changing the value of the entry that a name finds stores the new value
/// under that name and changes nothing else.
pub proof fn lemma_table_update<V>(a: NameTable<V>, b: NameTable<V>, i: int)
    requires
        0 <= i < a.entries@.len(),
        b.entries@.len() == a.entries@.len(),
        b.entries@[i].0@ == a.entries@[i].0@,
        i == index_of(a.entries@, a.entries@[i].0@),
        forall|j: int| 0 <= j < a.entries@.len() && j != i ==> b.entries@[j] == a.entries@[j],
    ensures
        b@ == a@.insert(a.entries@[i].0@, b.entries@[i].1),
{
    let k = a.entries@[i].0@;
    assert(b.entries@ =~= a.entries@.update(i, b.entries@[i]));
    assert forall|x: Seq<char>| #[trigger] index_of(b.entries@, x) == index_of(a.entries@, x) by {
        lemma_index_of_update(a.entries@, i, b.entries@[i], x);
    }
    assert forall|x: Seq<char>| x != k && #[trigger] index_of(a.entries@, x) >= 0 implies
        b.entries@[index_of(a.entries@, x)] == a.entries@[index_of(a.entries@, x)] by {
        lemma_index_of_bounds(a.entries@, x);
    }
    assert(b@ =~= a@.insert(k, b.entries@[i].1));
}

/// Values stored by name; a name stands for at most one value.
pub struct NameTable<V> {
    pub entries: Vec<(String, V)>,
}

impl<V> NameTable<V> {
    /// The value stored under each name.
    pub open spec fn view(&self) -> Map<Seq<char>, V> {
        Map::new(
            |k: Seq<char>| index_of(self.entries@, k) >= 0,
            |k: Seq<char>| self.entries@[index_of(self.entries@, k)].1,
        )
    }

    pub fn new() -> (r: Self)
        ensures
            r@ == Map::<Seq<char>, V>::empty(),
    {
        let r = NameTable { entries: Vec::new() };
        assert(r@ =~= Map::<Seq<char>, V>::empty());
        r
    }

    /// The position of the entry named `key`, if there is one.
    pub fn find(&self, key: &String) -> (r: Option<usize>)
        ensures
            r is Some <==> self@.contains_key(key@),
            r matches Some(i) ==> i == index_of(self.entries@, key@) && i < self.entries@.len()
                && self.entries@[i as int].0@ == key@,
    {
        proof {
            assert(self.entries@.take(self.entries@.len() as int) =~= self.entries@);
            lemma_index_of_bounds(self.entries@, key@);
        }
        let mut i: usize = self.entries.len();
        while i > 0
            invariant
                i <= self.entries@.len(),
                index_of(self.entries@, key@) == index_of(self.entries@.take(i as int), key@),
            decreases i,
        {
            proof {
                assert(self.entries@.take(i as int).drop_last() =~= self.entries@.take(i - 1));
            }
            if self.entries[i - 1].0 == *key {
                return Some(i - 1);
            }
            i -= 1;
        }
        None
    }

    /// The value stored under `key`, if any.
    pub fn get(&self, key: &String) -> (r: Option<&V>)
        ensures
            r is Some <==> self@.contains_key(key@),
            r matches Some(v) ==> *v == self@[key@],
    {
        match self.find(key) {
            Some(i) => Some(&self.entries[i].1),
            None => None,
        }
    }

    /// Stores `value` under `key`, in place of what was stored there.
    pub fn insert(&mut self, key: String, value: V)
        ensures
            final(self)@ == old(self)@.insert(key@, value),
    {
        match self.find(&key) {
            Some(i) => {
                let ghost before = self.entries@;
                proof {
                    lemma_index_of_bounds(before, key@);
                }
                self.entries.set(i, (key, value));
                proof {
                    assert forall|k: Seq<char>| #[trigger] index_of(self.entries@, k) == index_of(before, k) by {
                        lemma_index_of_update(before, i as int, self.entries@[i as int], k);
                    }
                    assert forall|k: Seq<char>| k != key@ && #[trigger] index_of(before, k) >= 0 implies
                        self.entries@[index_of(before, k)] == before[index_of(before, k)] by {
                        lemma_index_of_bounds(before, k);
                    }
                    assert(self@ =~= old(self)@.insert(key@, value));
                }
            },
            None => {
                let ghost before = self.entries@;
                self.entries.push((key, value));
                proof {
                    assert(self.entries@.drop_last() =~= before);
                    assert forall|k: Seq<char>| k != key@ implies #[trigger] index_of(self.entries@, k) == index_of(before, k) by {
                        lemma_index_of_bounds(before, k);
                    }
                    assert forall|k: Seq<char>| k != key@ && #[trigger] index_of(before, k) >= 0 implies
                        self.entries@[index_of(before, k)] == before[index_of(before, k)] by {
                        lemma_index_of_bounds(before, k);
                    }
                    assert(self@ =~= old(self)@.insert(key@, value));
                }
            },
        }
    }
}

} // verus!

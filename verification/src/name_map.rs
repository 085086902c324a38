//! A map from names to values that keeps the order in which names came.

use vstd::prelude::*;

use crate::strings::{chars_of, code, same};

verus! {

/// How many buckets names are spread over.
const BUCKETS: usize = 1024;

/// The bucket of a name.
spec fn bucket(name: Seq<char>) -> int
    decreases name.len(),
{
    if name.len() == 0 {
        0
    } else {
        (bucket(name.drop_last()) * 31 + name.last() as int) % 1024
    }
}

fn bucket_of(name: &str) -> (r: usize)
    ensures
        r == bucket(name@),
        r < BUCKETS,
{
    let chars = chars_of(name);
    let mut h: u32 = 0;
    let mut i: usize = 0;
    assert(name@.take(0) == Seq::<char>::empty());
    while i < chars.len()
        invariant
            chars@ == name@,
            i <= chars@.len(),
            h == bucket(name@.take(i as int)),
            h < 1024,
        decreases chars@.len() - i,
    {
        assert(name@.take(i as int + 1).drop_last() == name@.take(i as int));
        h = (h * 31 + code(chars[i])) % 1024;
        i = i + 1;
    }
    assert(name@.take(name@.len() as int) == name@);
    h as usize
}

/// The value of the entry for `name`.
spec fn value_of<V>(entries: Seq<(String, V)>, name: Seq<char>) -> V {
    entries[choose|i: int| 0 <= i < entries.len() && (#[trigger] entries[i]).0@ == name].1
}

/// Whether there is an entry for `name`.
spec fn bound<V>(entries: Seq<(String, V)>, name: Seq<char>) -> bool {
    exists|i: int| 0 <= i < entries.len() && (#[trigger] entries[i]).0@ == name
}

/// Names bound to values, at most one value per name.
pub struct NameMap<V> {
    /// The bindings, in the order in which their names were first bound.
    entries: Vec<(String, V)>,
    /// For each bucket, the places in `entries` of its names. Empty as long as
    /// nothing is bound.
    index: Vec<Vec<usize>>,
}

impl<V> View for NameMap<V> {
    type V = Map<Seq<char>, V>;

    closed spec fn view(&self) -> Map<Seq<char>, V> {
        Map::new(|k: Seq<char>| bound(self.entries@, k), |k: Seq<char>| value_of(self.entries@, k))
    }
}

impl<V> NameMap<V> {
    #[verifier::type_invariant]
    spec fn inv(self) -> bool {
        &&& self.index@.len() == 0 || self.index@.len() == 1024
        &&& self.index@.len() == 0 ==> self.entries@.len() == 0
        &&& self.index@.len() == 1024 ==> indexed(self.entries@, self.index@)
        &&& distinct(self.entries@)
    }
}

impl<V: Copy> NameMap<V> {
    /// The map that binds nothing.
    pub fn new() -> (r: Self)
        ensures
            r@ == Map::<Seq<char>, V>::empty(),
    {
        let r = NameMap { entries: Vec::new(), index: Vec::new() };
        assert(r@ =~= Map::<Seq<char>, V>::empty());
        r
    }

    /// The bindings in the order in which their names were first bound.
    pub closed spec fn bindings(self) -> Seq<(Seq<char>, V)> {
        Seq::new(self.entries@.len(), |i: int| (self.entries@[i].0@, self.entries@[i].1))
    }

    /// Every bound name has a binding.
    pub proof fn lemma_bindings_cover(&self)
        ensures
            forall|name: Seq<char>| #[trigger]
                self@.dom().contains(name) ==> exists|i: int|
                    0 <= i < self.bindings().len() && (#[trigger] self.bindings()[i]).0 == name,
    {
        assert forall|name: Seq<char>| #[trigger] self@.dom().contains(name) implies exists|i: int|
            0 <= i < self.bindings().len() && (#[trigger] self.bindings()[i]).0 == name by {
            let i = choose|i: int|
                0 <= i < self.entries@.len() && (#[trigger] self.entries@[i]).0@ == name;
            assert(self.bindings()[i].0 == name);
        }
    }

    /// How many names are bound.
    pub fn len(&self) -> (r: usize)
        ensures
            r == self@.dom().len(),
            r == self.bindings().len(),
            self@.dom().finite(),
    {
        proof {
            use_type_invariant(&*self);
            lemma_count(self.entries@, self@);
        }
        self.entries.len()
    }

    /// Binding `i`, in the order in which names were first bound.
    pub fn entry(&self, i: usize) -> (r: (&str, V))
        requires
            i < self.bindings().len(),
        ensures
            (r.0@, r.1) == self.bindings()[i as int],
            self@.dom().contains(r.0@),
            self@[r.0@] == r.1,
    {
        let e = &self.entries[i];
        proof {
            use_type_invariant(&*self);
            lemma_value(self.entries@, i as int);
        }
        (e.0.as_str(), e.1)
    }

    /// Where the binding of `name` is.
    fn find(&self, name: &str) -> (r: Option<usize>)
        ensures
            match r {
                Some(i) => i < self.entries@.len() && self.entries@[i as int].0@ == name@,
                None => !bound(self.entries@, name@),
            },
    {
        proof {
            use_type_invariant(&*self);
        }
        if self.index.len() == 0 {
            return None;
        }
        let b = bucket_of(name);
        let places = &self.index[b];
        let mut k: usize = 0;
        while k < places.len()
            invariant
                k <= places@.len(),
                indexed(self.entries@, self.index@),
                self.index@.len() == 1024,
                b < 1024,
                *places == self.index@[b as int],
                forall|j: int|
                    0 <= j < k ==> self.entries@[#[trigger] places@[j] as int].0@ != name@,
            decreases places@.len() - k,
        {
            let i = places[k];
            assert(self.index@[b as int]@[k as int] == i);
            if same(self.entries[i].0.as_str(), name) {
                return Some(i);
            }
            k = k + 1;
        }
        proof {
            if bound(self.entries@, name@) {
                let i = choose|i: int|
                    0 <= i < self.entries@.len() && (#[trigger] self.entries@[i]).0@ == name@;
                assert(listed(self.entries@, self.index@, i));
            }
        }
        None
    }

    /// The value bound to `name`.
    pub fn get(&self, name: &str) -> (r: Option<V>)
        ensures
            r == (if self@.dom().contains(name@) {
                Some(self@[name@])
            } else {
                None
            }),
    {
        match self.find(name) {
            Some(i) => {
                proof {
                    use_type_invariant(&*self);
                    lemma_value(self.entries@, i as int);
                }
                Some(self.entries[i].1)
            },
            None => None,
        }
    }

    /// Bind `name` to `value`, giving the value it replaces, if any.
    pub fn insert(&mut self, name: &str, value: V) -> (r: Option<V>)
        ensures
            final(self)@ == old(self)@.insert(name@, value),
            r == (if old(self)@.dom().contains(name@) {
                Some(old(self)@[name@])
            } else {
                None
            }),
            old(self)@.dom().contains(name@) ==> final(self).bindings().len() == old(
                self,
            ).bindings().len(),
            !old(self)@.dom().contains(name@) ==> final(self).bindings() == old(
                self,
            ).bindings().push((name@, value)),
    {
        let mut whole = NameMap::new();
        std::mem::swap(&mut whole, self);
        let found = whole.find(name);
        proof {
            use_type_invariant(&whole);
        }
        let ghost before = whole@;
        let NameMap { mut entries, mut index } = whole;
        let ghost old_entries = entries@;
        match found {
            Some(i) => {
                let previous = entries[i].1;
                let key = entries[i].0.clone();
                entries.set(i, (key, value));
                proof {
                    lemma_replace(old_entries, entries@, i as int);
                    if index@.len() == 1024 {
                        assert forall|k: int| 0 <= k < entries@.len() implies listed(
                            entries@,
                            index@,
                            k,
                        ) by {
                            assert(listed(old_entries, index@, k));
                            assert(entries@[k].0@ == old_entries[k].0@);
                        }
                    }
                }
                *self = NameMap { entries, index };
                assert(self@ =~= before.insert(name@, value)) by {
                    lemma_insert_view(old_entries, entries@, i as int);
                }
                proof {
                    lemma_value(old_entries, i as int);
                }
                Some(previous)
            },
            None => {
                if index.len() == 0 {
                    index = empty_index();
                }
                let b = bucket_of(name);
                let n: usize = entries.len();
                let ghost old_index = index@;
                let mut places: Vec<usize> = Vec::new();
                std::mem::swap(&mut places, &mut index[b]);
                places.push(n);
                index.set(b, places);
                entries.push((name.to_owned(), value));
                proof {
                    assert(entries@ =~= old_entries.push(entries@[n as int]));
                    assert forall|k: int| 0 <= k < entries@.len() implies listed(
                        entries@,
                        index@,
                        k,
                    ) by {
                        if k < n {
                            assert(listed(old_entries, old_index, k));
                            let bk = bucket(entries@[k].0@);
                            let j = choose|j: int|
                                0 <= j < old_index[bk]@.len() && #[trigger] old_index[bk]@[j] == k;
                            assert(entries@[k].0@ == old_entries[k].0@);
                            assert(index@[bk]@[j] == k);
                        } else {
                            assert(entries@[k].0@ == name@);
                            assert(index@[bucket(entries@[k].0@)]@[places@.len() - 1] == n);
                        }
                    }
                    assert forall|c: int, j: int|
                        0 <= c < index@.len() && 0 <= j < index@[c]@.len() implies (
                    #[trigger] index@[c]@[j]) < entries@.len() by {
                        if c != b || j < places@.len() - 1 {
                            assert(index@[c]@[j] == old_index[c]@[j]);
                        }
                    }
                    assert(entries@.drop_last() =~= old_entries);
                    lemma_extend(old_entries, entries@);
                }
                *self = NameMap { entries, index };
                assert(self@ =~= before.insert(name@, value)) by {
                    lemma_insert_view(old_entries, entries@, n as int);
                }
                assert(self.bindings() =~= old(self).bindings().push((name@, value)));
                None
            },
        }
    }
}

/// Whether entry `i` is in the bucket of its name.
spec fn listed<V>(entries: Seq<(String, V)>, index: Seq<Vec<usize>>, i: int) -> bool {
    exists|j: int|
        0 <= j < index[bucket(entries[i].0@)]@.len()
            && #[trigger] index[bucket(entries[i].0@)]@[j] == i
}

/// Whether every entry is in the bucket of its name, and buckets hold places of
/// entries only.
spec fn indexed<V>(entries: Seq<(String, V)>, index: Seq<Vec<usize>>) -> bool {
    &&& forall|i: int| 0 <= i < entries.len() ==> #[trigger] listed(entries, index, i)
    &&& forall|b: int, j: int|
        0 <= b < index.len() && 0 <= j < index[b]@.len() ==> (#[trigger] index[b]@[j])
            < entries.len()
}

/// Whether no name has two entries.
spec fn distinct<V>(entries: Seq<(String, V)>) -> bool {
    forall|i: int, j: int|
        0 <= i < j < entries.len() ==> (#[trigger] entries[i]).0@ != (#[trigger] entries[j]).0@
}

proof fn lemma_value<V>(entries: Seq<(String, V)>, i: int)
    requires
        distinct(entries),
        0 <= i < entries.len(),
    ensures
        bound(entries, entries[i].0@),
        value_of(entries, entries[i].0@) == entries[i].1,
{
    let k = choose|k: int| 0 <= k < entries.len() && (#[trigger] entries[k]).0@ == entries[i].0@;
    assert(k == i);
}

proof fn lemma_replace<V>(old_entries: Seq<(String, V)>, entries: Seq<(String, V)>, i: int)
    requires
        distinct(old_entries),
        0 <= i < entries.len(),
        entries.len() == old_entries.len(),
        forall|k: int| 0 <= k < entries.len() ==> (#[trigger] entries[k]).0@ == old_entries[k].0@,
    ensures
        distinct(entries),
{
}

proof fn lemma_extend<V>(old_entries: Seq<(String, V)>, entries: Seq<(String, V)>)
    requires
        distinct(old_entries),
        entries.len() == old_entries.len() + 1,
        entries.drop_last() == old_entries,
        !bound(old_entries, entries.last().0@),
    ensures
        distinct(entries),
{
    assert forall|i: int, j: int| 0 <= i < j < entries.len() implies (#[trigger] entries[i]).0@ != (
    #[trigger] entries[j]).0@ by {
        assert(entries[i] == old_entries[i]);
        if j < old_entries.len() {
            assert(entries[j] == old_entries[j]);
        }
    }
}

/// Changing or adding entry `i` changes or adds the binding of its name alone.
proof fn lemma_insert_view<V>(old_entries: Seq<(String, V)>, entries: Seq<(String, V)>, i: int)
    requires
        distinct(old_entries),
        distinct(entries),
        0 <= i < entries.len(),
        old_entries.len() <= entries.len() <= old_entries.len() + 1,
        i == old_entries.len() || entries.len() == old_entries.len(),
        forall|k: int|
            0 <= k < old_entries.len() ==> (#[trigger] entries[k]).0@ == old_entries[k].0@,
        forall|k: int|
            0 <= k < old_entries.len() && k != i ==> (#[trigger] entries[k]) == old_entries[k],
    ensures
        forall|name: Seq<char>|
            #[trigger] bound(entries, name) <==> (bound(old_entries, name) || name
                == entries[i].0@),
        forall|name: Seq<char>|
            #[trigger] bound(old_entries, name) && name != entries[i].0@ ==> value_of(entries, name)
                == value_of(old_entries, name),
        value_of(entries, entries[i].0@) == entries[i].1,
{
    assert forall|name: Seq<char>| #[trigger] bound(entries, name) <==> (bound(old_entries, name)
        || name == entries[i].0@) by {
        if bound(old_entries, name) {
            let k = choose|k: int|
                0 <= k < old_entries.len() && (#[trigger] old_entries[k]).0@ == name;
            assert(entries[k].0@ == name);
        }
        if bound(entries, name) {
            let k = choose|k: int| 0 <= k < entries.len() && (#[trigger] entries[k]).0@ == name;
            if k < old_entries.len() {
                assert(old_entries[k].0@ == name);
            }
        }
    }
    assert forall|name: Seq<char>|
        #[trigger] bound(old_entries, name) && name != entries[i].0@ implies value_of(entries, name)
        == value_of(old_entries, name) by {
        let k = choose|k: int| 0 <= k < old_entries.len() && (#[trigger] old_entries[k]).0@ == name;
        assert(entries[k].0@ == name);
        lemma_value(entries, k);
        lemma_value(old_entries, k);
    }
    lemma_value(entries, i);
}

/// The number of names is the number of entries.
proof fn lemma_count<V>(entries: Seq<(String, V)>, m: Map<Seq<char>, V>)
    requires
        distinct(entries),
        m == Map::new(|k: Seq<char>| bound(entries, k), |k: Seq<char>| value_of(entries, k)),
    ensures
        m.dom().finite(),
        m.dom().len() == entries.len(),
{
    let names = Seq::new(entries.len(), |i: int| entries[i].0@);
    assert(names.no_duplicates());
    names.unique_seq_to_set();
    assert(m.dom() =~= names.to_set()) by {
        assert forall|k: Seq<char>| m.dom().contains(k) <==> names.to_set().contains(k) by {
            if bound(entries, k) {
                let i = choose|i: int| 0 <= i < entries.len() && (#[trigger] entries[i]).0@ == k;
                assert(names[i] == k);
            }
            if names.contains(k) {
                let i = choose|i: int| 0 <= i < names.len() && names[i] == k;
                assert(entries[i].0@ == k);
            }
        }
    }
}

fn empty_index() -> (r: Vec<Vec<usize>>)
    ensures
        r@.len() == 1024,
        forall|b: int| 0 <= b < 1024 ==> (#[trigger] r@[b])@.len() == 0,
{
    let mut index: Vec<Vec<usize>> = Vec::new();
    let mut b: usize = 0;
    while b < BUCKETS
        invariant
            b <= BUCKETS,
            index@.len() == b,
            forall|c: int| 0 <= c < b ==> (#[trigger] index@[c])@.len() == 0,
        decreases BUCKETS - b,
    {
        index.push(Vec::new());
        b = b + 1;
    }
    index
}

} // verus!

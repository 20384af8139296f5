//! Maps and sets that are keyed by text.
use crate::text;
use vstd::prelude::*;

verus! {

/// The map that the entries give, a later entry for a key in place of an earlier one.
pub open spec fn map_of<V>(entries: Seq<(String, V)>) -> Map<Seq<char>, V>
    decreases entries.len(),
{
    if entries.len() == 0 {
        Map::empty()
    } else {
        map_of(entries.drop_last()).insert(entries.last().0@, entries.last().1)
    }
}

proof fn lemma_map_of_skip<V>(entries: Seq<(String, V)>, i: int, key: Seq<char>)
    requires
        0 <= i <= entries.len(),
        forall|j: int| i <= j < entries.len() ==> (#[trigger] entries[j]).0@ != key,
    ensures
        map_of(entries).contains_key(key) == map_of(entries.take(i)).contains_key(key),
        map_of(entries.take(i)).contains_key(key) ==> map_of(entries)[key] == map_of(
            entries.take(i),
        )[key],
    decreases entries.len(),
{
    if i < entries.len() {
        lemma_map_of_skip(entries.drop_last(), i, key);
        assert(entries.drop_last().take(i) == entries.take(i));
    } else {
        assert(entries.take(i) == entries);
    }
}

proof fn lemma_map_of_remove<V>(entries: Seq<(String, V)>, i: int)
    requires
        0 <= i < entries.len(),
    ensures
        map_of(entries.remove(i)).remove(entries[i].0@) == map_of(entries).remove(entries[i].0@),
    decreases entries.len(),
{
    let key = entries[i].0@;
    if i == entries.len() - 1 {
        assert(entries.remove(i) == entries.drop_last());
        assert(map_of(entries.drop_last()).insert(key, entries.last().1).remove(key) == map_of(
            entries.drop_last(),
        ).remove(key));
    } else {
        lemma_map_of_remove(entries.drop_last(), i);
        let removed = entries.remove(i);
        assert(removed.drop_last() == entries.drop_last().remove(i));
        assert(removed.last() == entries.last());
        let k = entries.last().0@;
        let v = entries.last().1;
        let a = map_of(removed.drop_last());
        let b = map_of(entries.drop_last());
        assert(a.remove(key) == b.remove(key));
        let l = a.insert(k, v).remove(key);
        let r = b.insert(k, v).remove(key);
        assert forall|x: Seq<char>| l.dom().contains(x) == r.dom().contains(x) by {
            assert(a.remove(key).dom().contains(x) == b.remove(key).dom().contains(x));
        }
        assert forall|x: Seq<char>| l.dom().contains(x) implies #[trigger] l[x] == r[x] by {
            if x != k {
                assert(a.remove(key)[x] == b.remove(key)[x]);
            }
        }
        assert(l =~= r);
    }
}

/// A map from text to values.
#[derive(Debug)]
pub struct TextMap<V> {
    entries: Vec<(String, V)>,
}

impl<V> View for TextMap<V> {
    type V = Map<Seq<char>, V>;

    closed spec fn view(&self) -> Map<Seq<char>, V> {
        map_of(self.entries@)
    }
}

impl<V> TextMap<V> {
    /// The map without entries.
    pub fn new() -> (r: TextMap<V>)
        ensures
            r@ == Map::<Seq<char>, V>::empty(),
    {
        TextMap { entries: Vec::new() }
    }

    /// The value for `key`.
    pub fn get(&self, key: &str) -> (r: Option<&V>)
        ensures
            match r {
                Some(v) => self@.contains_key(key@) && *v == self@[key@],
                None => !self@.contains_key(key@),
            },
    {
        let mut i: usize = self.entries.len();
        while i > 0
            invariant
                i <= self.entries@.len(),
                forall|j: int|
                    i <= j < self.entries@.len() ==> (#[trigger] self.entries@[j]).0@ != key@,
            decreases i,
        {
            if text::same(self.entries[i - 1].0.as_str(), key) {
                proof {
                    lemma_map_of_skip(self.entries@, i as int, key@);
                    assert(self.entries@.take(i as int).last() == self.entries@[i - 1]);
                }
                return Some(&self.entries[i - 1].1);
            }
            i -= 1;
        }
        proof {
            lemma_map_of_skip(self.entries@, 0, key@);
            assert(self.entries@.take(0) == Seq::<(String, V)>::empty());
        }
        None
    }

    /// Whether there is a value for `key`.
    pub fn contains_key(&self, key: &str) -> (r: bool)
        ensures
            r == self@.contains_key(key@),
    {
        self.get(key).is_some()
    }

    /// Takes the value for `key` out.
    pub fn remove(&mut self, key: &str) -> (r: Option<V>)
        ensures
            final(self)@ == old(self)@.remove(key@),
            match r {
                Some(v) => old(self)@.contains_key(key@) && v == old(self)@[key@],
                None => !old(self)@.contains_key(key@),
            },
    {
        let ghost before = self.entries@;
        let mut found: Option<V> = None;
        let mut i: usize = 0;
        proof {
            assert(before.take(0) == Seq::<(String, V)>::empty());
            assert(before.skip(0) == before);
        }
        let ghost mut seen: int = 0;
        while i < self.entries.len()
            invariant
                i <= self.entries@.len(),
                0 <= seen <= before.len(),
                self.entries@.len() - i == before.len() - seen,
                forall|j: int|
                    0 <= j < before.len() - seen ==> self.entries@[i + j] == #[trigger] before[seen
                        + j],
                forall|j: int| 0 <= j < i ==> (#[trigger] self.entries@[j]).0@ != key@,
                map_of(self.entries@).remove(key@) == map_of(before).remove(key@),
                match found {
                    Some(v) => map_of(before.take(seen)).contains_key(key@) && v == map_of(
                        before.take(seen),
                    )[key@],
                    None => !map_of(before.take(seen)).contains_key(key@),
                },
            decreases self.entries@.len() - i,
        {
            assert(self.entries@[i as int] == before[seen + 0]);
            proof {
                assert(before.take(seen + 1).drop_last() == before.take(seen));
                assert(before.take(seen + 1).last() == before[seen]);
            }
            if text::same(self.entries[i].0.as_str(), key) {
                proof {
                    lemma_map_of_remove(self.entries@, i as int);
                }
                let ghost current = self.entries@;
                let entry = self.entries.remove(i);
                found = Some(entry.1);
                assert forall|j: int| 0 <= j < before.len() - seen - 1 implies self.entries@[i + j]
                    == #[trigger] before[seen + 1 + j] by {
                    assert(self.entries@[i + j] == current[i + (j + 1)]);
                    assert(current[i + (j + 1)] == before[seen + (j + 1)]);
                }
                proof {
                    seen = seen + 1;
                }
            } else {
                assert forall|j: int| 0 <= j < before.len() - seen - 1 implies self.entries@[i + 1
                    + j] == #[trigger] before[seen + 1 + j] by {
                    assert(self.entries@[i + (j + 1)] == before[seen + (j + 1)]);
                }
                i += 1;
                proof {
                    seen = seen + 1;
                }
            }
        }
        proof {
            assert(before.take(seen) == before);
            lemma_map_of_skip(self.entries@, 0, key@);
            assert(self.entries@.take(0) == Seq::<(String, V)>::empty());
            assert(map_of(self.entries@).remove(key@) =~= map_of(self.entries@));
        }
        found
    }

    /// Sets the value for `key`.
    pub fn insert(&mut self, key: &str, value: V)
        ensures
            final(self)@ == old(self)@.insert(key@, value),
    {
        let _ = self.remove(key);
        let ghost before = self.entries@;
        self.entries.push((key.to_owned(), value));
        assert(self.entries@.drop_last() == before);
        assert(old(self)@.remove(key@).insert(key@, value) =~= old(self)@.insert(key@, value));
    }

    /// Whether there is no entry.
    pub fn is_empty(&self) -> (r: bool)
        ensures
            r == (self@ == Map::<Seq<char>, V>::empty()),
    {
        proof {
            if self.entries@.len() > 0 {
                assert(self@.contains_key(self.entries@.last().0@));
            }
        }
        self.entries.len() == 0
    }

    /// The keys, each once.
    pub fn keys(&self) -> (r: Vec<String>)
        ensures
            forall|k: Seq<char>|
                self@.contains_key(k) <==> #[trigger] text::texts(r@).contains(k),
            text::texts(r@).no_duplicates(),
    {
        let mut seen = TextSet::new();
        let mut out: Vec<String> = Vec::new();
        let mut i: usize = 0;
        proof {
            assert(self.entries@.take(0) == Seq::<(String, V)>::empty());
        }
        while i < self.entries.len()
            invariant
                i <= self.entries@.len(),
                seen@ == map_of(self.entries@.take(i as int)).dom(),
                forall|k: Seq<char>| seen@.contains(k) <==> #[trigger] text::texts(out@).contains(k),
                text::texts(out@).no_duplicates(),
            decreases self.entries@.len() - i,
        {
            let key = self.entries[i].0.as_str();
            proof {
                assert(self.entries@.take(i + 1).drop_last() == self.entries@.take(i as int));
                assert(self.entries@.take(i + 1).last() == self.entries@[i as int]);
                assert(map_of(self.entries@.take(i + 1)).dom() =~= seen@.insert(key@));
            }
            let ghost before = text::texts(out@);
            if seen.insert(key) {
                text::push_text(&mut out, key);
                let ghost after = text::texts(out@);
                assert(after == before.push(key@));
                assert forall|k: Seq<char>| seen@.contains(k) <==> #[trigger] after.contains(k) by {
                    if before.contains(k) {
                        let j = choose|j: int| 0 <= j < before.len() && before[j] == k;
                        assert(after[j] == k);
                    }
                    assert(after[before.len() as int] == key@);
                    if after.contains(k) && k != key@ {
                        let j = choose|j: int| 0 <= j < after.len() && after[j] == k;
                        assert(before[j] == k);
                    }
                }
                assert(!before.contains(key@));
                assert(after.no_duplicates());
            } else {
                assert(seen@ =~= seen@.insert(key@));
            }
            i += 1;
        }
        proof {
            assert(self.entries@.take(i as int) == self.entries@);
        }
        out
    }

    /// Takes every entry out.
    pub fn clear(&mut self)
        ensures
            final(self)@ == Map::<Seq<char>, V>::empty(),
    {
        self.entries.clear();
    }
}

/// A set of texts.
#[derive(Debug)]
pub struct TextSet {
    items: TextMap<()>,
}

impl View for TextSet {
    type V = Set<Seq<char>>;

    closed spec fn view(&self) -> Set<Seq<char>> {
        self.items@.dom()
    }
}

impl TextSet {
    /// The set without texts.
    pub fn new() -> (r: TextSet)
        ensures
            r@ == Set::<Seq<char>>::empty(),
    {
        let items = TextMap::new();
        assert(items@.dom() =~= Set::<Seq<char>>::empty());
        TextSet { items }
    }

    /// Whether `s` is in the set.
    pub fn contains(&self, s: &str) -> (r: bool)
        ensures
            r == self@.contains(s@),
    {
        self.items.contains_key(s)
    }

    /// Puts `s` into the set, and says whether it was not there.
    pub fn insert(&mut self, s: &str) -> (r: bool)
        ensures
            final(self)@ == old(self)@.insert(s@),
            r == !old(self)@.contains(s@),
    {
        let new = !self.items.contains_key(s);
        self.items.insert(s, ());
        assert(self@ =~= old(self)@.insert(s@));
        new
    }

    /// Takes `s` out of the set, and says whether it was there.
    pub fn remove(&mut self, s: &str) -> (r: bool)
        ensures
            final(self)@ == old(self)@.remove(s@),
            r == old(self)@.contains(s@),
    {
        let found = self.items.remove(s).is_some();
        assert(self@ =~= old(self)@.remove(s@));
        found
    }

    /// Whether there is no text.
    pub fn is_empty(&self) -> (r: bool)
        ensures
            r == (self@ == Set::<Seq<char>>::empty()),
    {
        proof {
            if self@ == Set::<Seq<char>>::empty() {
                assert(self.items@ =~= Map::<Seq<char>, ()>::empty());
            } else {
                assert(self@ =~= Set::<Seq<char>>::empty() || exists|s: Seq<char>| self@.contains(s));
            }
        }
        self.items.is_empty()
    }

    /// The texts, each once.
    pub fn items(&self) -> (r: Vec<String>)
        ensures
            forall|s: Seq<char>| self@.contains(s) <==> #[trigger] text::texts(r@).contains(s),
            text::texts(r@).no_duplicates(),
    {
        let r = self.items.keys();
        assert forall|s: Seq<char>| self@.contains(s) <==> #[trigger] text::texts(r@).contains(s) by {
            assert(self@.contains(s) == self.items@.contains_key(s));
        }
        r
    }

    /// Takes every text out.
    pub fn clear(&mut self)
        ensures
            final(self)@ == Set::<Seq<char>>::empty(),
    {
        self.items.clear();
        assert(self@ =~= Set::<Seq<char>>::empty());
    }
}

/// A set of bytes.
pub struct ByteSet {
    flags: [bool; 256],
}

impl View for ByteSet {
    type V = Set<u8>;

    closed spec fn view(&self) -> Set<u8> {
        Set::new(|b: u8| self.flags@[b as int])
    }
}

impl ByteSet {
    /// The set without bytes.
    pub fn new() -> (r: ByteSet)
        ensures
            r@ == Set::<u8>::empty(),
    {
        let r = ByteSet { flags: [false; 256] };
        assert(r@ =~= Set::<u8>::empty());
        r
    }

    /// Whether `b` is in the set.
    pub fn contains(&self, b: u8) -> (r: bool)
        ensures
            r == self@.contains(b),
    {
        self.flags[b as usize]
    }

    /// Puts `b` into the set.
    pub fn insert(&mut self, b: u8)
        ensures
            final(self)@ == old(self)@.insert(b),
    {
        self.flags[b as usize] = true;
        assert(self@ =~= old(self)@.insert(b));
    }

    /// Takes `b` out of the set.
    pub fn remove(&mut self, b: u8)
        ensures
            final(self)@ == old(self)@.remove(b),
    {
        self.flags[b as usize] = false;
        assert(self@ =~= old(self)@.remove(b));
    }
}

} // verus!

//! Small sets and maps keyed by text.

use vstd::prelude::*;

use crate::text;

verus! {

/// A set of texts.
pub struct TextSet {
    pub items: Vec<String>,
}

impl View for TextSet {
    type V = Set<Seq<char>>;

    open spec fn view(&self) -> Set<Seq<char>> {
        text::views(self.items@).to_set()
    }
}

impl TextSet {
    pub fn new() -> (r: Self)
        ensures
            r@ == Set::<Seq<char>>::empty(),
    {
        let r = TextSet { items: Vec::new() };
        proof {
            assert(text::views(r.items@) =~= Seq::empty());
            assert(r@ =~= Set::empty());
        }
        r
    }

    pub fn contains(&self, id: &str) -> (r: bool)
        ensures
            r == self@.contains(id@),
    {
        text::holds_text(&self.items, id)
    }

    pub fn is_empty(&self) -> (r: bool)
        ensures
            r == (self@ =~= Set::<Seq<char>>::empty()),
    {
        proof {
            if self.items@.len() > 0 {
                assert(text::views(self.items@)[0] == self.items@[0]@);
                assert(self@.contains(self.items@[0]@));
            }
        }
        self.items.len() == 0
    }

    pub fn insert(&mut self, id: &str)
        ensures
            final(self)@ == old(self)@.insert(id@),
    {
        let ghost before = text::views(self.items@);
        if !self.contains(id) {
            text::push_text(&mut self.items, text::owned(id));
        }
        proof {
            let after = text::views(self.items@);
            assert forall|x: Seq<char>| self@.contains(x) <==> old(self)@.insert(id@).contains(
                x,
            ) by {
                if before.contains(x) {
                    let k = choose|k: int| 0 <= k < before.len() && before[k] == x;
                    assert(after[k] == x);
                }
                if after.len() > before.len() {
                    assert(after[before.len() as int] == id@);
                    if after.contains(x) && x != id@ {
                        let k = choose|k: int| 0 <= k < after.len() && after[k] == x;
                        assert(before[k] == x);
                    }
                }
            }
            assert(self@ =~= old(self)@.insert(id@));
        }
    }

    pub fn remove(&mut self, id: &str)
        ensures
            final(self)@ == old(self)@.remove(id@),
    {
        let ghost before = text::views(self.items@);
        let mut kept: Vec<String> = Vec::new();
        let mut i: usize = 0;
        while i < self.items.len()
            invariant
                i <= self.items@.len(),
                self.items@ == old(self).items@,
                before == text::views(self.items@),
                forall|x: Seq<char>|
                    #![trigger text::views(kept@).contains(x)]
                    text::views(kept@).contains(x) <==> before.take(i as int).contains(x) && x
                        != id@,
            decreases self.items@.len() - i,
        {
            let ghost seen = before.take(i as int);
            let ghost more = before.take(i + 1);
            let ghost prior = text::views(kept@);
            let keep = !text::text_is(self.items[i].as_str(), id);
            if keep {
                text::push_text(&mut kept, self.items[i].clone());
            }
            proof {
                let item = self.items@[i as int]@;
                let after = text::views(kept@);
                assert(more =~= seen.push(item));
                assert forall|x: Seq<char>|
                    #![trigger after.contains(x)]
                    after.contains(x) <==> more.contains(x) && x != id@ by {
                    assert(prior.contains(x) <==> seen.contains(x) && x != id@);
                    if seen.contains(x) {
                        let k = choose|k: int| 0 <= k < seen.len() && seen[k] == x;
                        assert(more[k] == x);
                    }
                    assert(more[i as int] == item);
                    if more.contains(x) && x != item {
                        let k = choose|k: int| 0 <= k < more.len() && more[k] == x;
                        assert(seen[k] == x);
                    }
                    if keep {
                        assert(after[prior.len() as int] == item);
                        if prior.contains(x) {
                            let k = choose|k: int| 0 <= k < prior.len() && prior[k] == x;
                            assert(after[k] == x);
                        }
                        if after.contains(x) && x != item {
                            let k = choose|k: int| 0 <= k < after.len() && after[k] == x;
                            assert(prior[k] == x);
                        }
                    }
                }
            }
            i += 1;
        }
        proof {
            assert(before.take(before.len() as int) =~= before);
        }
        self.items = kept;
        proof {
            assert forall|x: Seq<char>| self@.contains(x) <==> old(self)@.remove(id@).contains(
                x,
            ) by {
                assert(text::views(kept@).contains(x) <==> before.contains(x) && x != id@);
            }
            assert(self@ =~= old(self)@.remove(id@));
        }
    }
}

/// A map from texts to values. No key occurs twice.
pub struct TextMap<T> {
    pub entries: Vec<(String, T)>,
}

/// The position of a key, or the number of entries.
pub open spec fn key_index<T>(entries: Seq<(String, T)>, key: Seq<char>) -> int
    decreases entries.len(),
{
    if entries.len() == 0 || entries[0].0@ == key {
        0
    } else {
        1 + key_index(entries.skip(1), key)
    }
}

pub proof fn lemma_key_index<T>(entries: Seq<(String, T)>, key: Seq<char>)
    ensures
        0 <= key_index(entries, key) <= entries.len(),
        key_index(entries, key) < entries.len() ==> entries[key_index(entries, key)].0@ == key,
        forall|k: int|
            0 <= k < key_index(entries, key) ==> (#[trigger] entries[k]).0@ != key,
    decreases entries.len(),
{
    if entries.len() > 0 && entries[0].0@ != key {
        let rest = entries.skip(1);
        lemma_key_index(rest, key);
        assert forall|k: int| 0 <= k < key_index(entries, key) implies (#[trigger] entries[k]).0@
            != key by {
            if k > 0 {
                assert(rest[k - 1] == entries[k]);
            }
        }
    }
}

impl<T> TextMap<T> {
    pub open spec fn wf(&self) -> bool {
        forall|i: int, j: int|
            0 <= i < j < self.entries@.len() ==> (#[trigger] self.entries@[i]).0@ != (
            #[trigger] self.entries@[j]).0@
    }

    /// The value under a key.
    pub open spec fn value(&self, key: Seq<char>) -> Option<T> {
        let i = key_index(self.entries@, key);
        if 0 <= i < self.entries@.len() {
            Some(self.entries@[i].1)
        } else {
            None
        }
    }

    pub fn new() -> (r: Self)
        ensures
            r.wf(),
            forall|k: Seq<char>| r.value(k) is None,
    {
        TextMap { entries: Vec::new() }
    }

    fn position(&self, key: &str) -> (r: usize)
        ensures
            r == key_index(self.entries@, key@),
            r <= self.entries@.len(),
    {
        let mut i: usize = 0;
        proof {
            assert(self.entries@.skip(0) =~= self.entries@);
        }
        while i < self.entries.len() && !text::text_is(self.entries[i].0.as_str(), key)
            invariant
                i <= self.entries@.len(),
                i + key_index(self.entries@.skip(i as int), key@) == key_index(
                    self.entries@,
                    key@,
                ),
            decreases self.entries@.len() - i,
        {
            proof {
                assert(self.entries@.skip(i as int)[0] == self.entries@[i as int]);
                assert(self.entries@.skip(i as int).skip(1) =~= self.entries@.skip(i + 1));
            }
            i += 1;
        }
        proof {
            if i < self.entries@.len() {
                assert(self.entries@.skip(i as int)[0] == self.entries@[i as int]);
            }
        }
        i
    }

    /// Puts a value under a key, in place of the one that was there.
    pub fn insert(&mut self, key: &str, value: T)
        requires
            old(self).wf(),
        ensures
            final(self).wf(),
            final(self).value(key@) == Some(value),
            forall|k: Seq<char>| k != key@ ==> final(self).value(k) == old(self).value(k),
    {
        let i = self.position(key);
        let ghost before = self.entries@;
        proof {
            lemma_key_index(before, key@);
        }
        if i < self.entries.len() {
            self.entries.set(i, (text::owned(key), value));
        } else {
            self.entries.push((text::owned(key), value));
        }
        proof {
            let after = self.entries@;
            lemma_key_index(after, key@);
            assert(after[i as int].0@ == key@);
            assert forall|k: Seq<char>| k != key@ implies self.value(k) == old(self).value(k) by {
                lemma_key_index(before, k);
                lemma_key_index(after, k);
                let a = key_index(before, k);
                let b = key_index(after, k);
                if a < before.len() {
                    assert(after[a] == before[a]);
                }
                if b < after.len() {
                    assert(b != i);
                    assert(before[b] == after[b]);
                }
                if a < b && a < before.len() {
                    assert(after[a].0@ == k);
                }
                if b < a && b < after.len() {
                    assert(before[b].0@ == k);
                }
            }
        }
    }

    /// Takes the value under a key out.
    pub fn remove(&mut self, key: &str) -> (r: Option<T>)
        requires
            old(self).wf(),
        ensures
            final(self).wf(),
            r == old(self).value(key@),
            final(self).value(key@) is None,
            forall|k: Seq<char>| k != key@ ==> final(self).value(k) == old(self).value(k),
    {
        let i = self.position(key);
        let ghost before = self.entries@;
        proof {
            lemma_key_index(before, key@);
        }
        if i >= self.entries.len() {
            return None;
        }
        let (_, value) = self.entries.remove(i);
        proof {
            let after = self.entries@;
            lemma_key_index(after, key@);
            if key_index(after, key@) < after.len() {
                let b = key_index(after, key@);
                if b < i {
                    assert(after[b] == before[b]);
                } else {
                    assert(after[b] == before[b + 1]);
                    assert(before[i as int].0@ != before[b + 1].0@);
                }
            }
            assert forall|k: Seq<char>| k != key@ implies self.value(k) == old(self).value(k) by {
                lemma_key_index(before, k);
                lemma_key_index(after, k);
                let a = key_index(before, k);
                let b = key_index(after, k);
                let moved = if a < i {
                    a
                } else {
                    a - 1
                };
                if a < before.len() {
                    assert(a != i);
                    assert(after[moved] == before[a]);
                    if b < moved {
                        if b < i {
                            assert(before[b] == after[b]);
                        } else {
                            assert(before[b + 1] == after[b]);
                        }
                        assert(false);
                    }
                    assert(b == moved);
                } else if b < after.len() {
                    if b < i {
                        assert(before[b] == after[b]);
                    } else {
                        assert(before[b + 1] == after[b]);
                    }
                    assert(false);
                }
            }
        }
        Some(value)
    }
}

} // verus!

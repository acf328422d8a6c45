//! A map from texts, small enough to be looked through.

use crate::text;
use crate::text::same;
use vstd::prelude::*;
use vstd::string::*;

verus! {

/// A map from texts: its entries, one for each text.
#[derive(Debug)]
pub struct TextMap<V> {
    entries: Vec<(String, V)>,
}

/// What a list of entries says: the value of each, by its text.
spec fn by_key<V>(entries: Seq<(String, V)>) -> Map<Seq<char>, V>
    decreases entries.len(),
{
    if entries.len() == 0 {
        Map::empty()
    } else {
        by_key(entries.drop_last()).insert(entries.last().0@, entries.last().1)
    }
}

/// No text is listed twice.
spec fn once<V>(entries: Seq<(String, V)>) -> bool {
    forall|i: int, j: int|
        0 <= i < j < entries.len() ==> (#[trigger] entries[i]).0@ != (#[trigger] entries[j]).0@
}

proof fn lemma_by_key<V>(entries: Seq<(String, V)>)
    requires
        once(entries),
    ensures
        forall|i: int|
            0 <= i < entries.len() ==> by_key(entries).dom().contains((#[trigger] entries[i]).0@)
                && by_key(entries)[entries[i].0@] == entries[i].1,
        forall|k: Seq<char>|
            by_key(entries).dom().contains(k) ==> exists|i: int|
                0 <= i < entries.len() && (#[trigger] entries[i]).0@ == k,
    decreases entries.len(),
{
    if entries.len() > 0 {
        let rest = entries.drop_last();
        assert forall|i: int, j: int| 0 <= i < j < rest.len() implies (#[trigger] rest[i]).0@ != (
        #[trigger] rest[j]).0@ by {
            assert(rest[i] == entries[i] && rest[j] == entries[j]);
        }
        lemma_by_key(rest);
        assert forall|i: int| 0 <= i < entries.len() implies by_key(entries).dom().contains(
            (#[trigger] entries[i]).0@,
        ) && by_key(entries)[entries[i].0@] == entries[i].1 by {
            if i < rest.len() {
                assert(rest[i] == entries[i]);
                assert(entries[i].0@ != entries[entries.len() - 1].0@);
            }
        }
        assert forall|k: Seq<char>| by_key(entries).dom().contains(k) implies exists|i: int|
            0 <= i < entries.len() && (#[trigger] entries[i]).0@ == k by {
            if k == entries.last().0@ {
                assert(entries[entries.len() - 1].0@ == k);
            } else {
                assert(by_key(rest).dom().contains(k));
                let i = choose|i: int| 0 <= i < rest.len() && (#[trigger] rest[i]).0@ == k;
                assert(entries[i].0@ == k);
            }
        }
    }
}

proof fn lemma_updated<V>(before: Seq<(String, V)>, after: Seq<(String, V)>, at: int)
    requires
        once(before),
        0 <= at < before.len(),
        after == before.update(at, after[at]),
        after[at].0@ == before[at].0@,
    ensures
        once(after),
        by_key(after) == by_key(before).insert(before[at].0@, after[at].1),
{
    assert forall|i: int, j: int| 0 <= i < j < after.len() implies (#[trigger] after[i]).0@ != (
    #[trigger] after[j]).0@ by {
        assert(after[i].0@ == before[i].0@ && after[j].0@ == before[j].0@);
    }
    lemma_by_key(before);
    lemma_by_key(after);
    let want = by_key(before).insert(before[at].0@, after[at].1);
    assert forall|k: Seq<char>| by_key(after).dom().contains(k) <==> want.dom().contains(k) by {
        if by_key(after).dom().contains(k) {
            let i = choose|i: int| 0 <= i < after.len() && (#[trigger] after[i]).0@ == k;
            assert(before[i].0@ == k);
        }
        if want.dom().contains(k) && k != before[at].0@ {
            let i = choose|i: int| 0 <= i < before.len() && (#[trigger] before[i]).0@ == k;
            assert(after[i].0@ == k);
        }
    }
    assert forall|k: Seq<char>| by_key(after).dom().contains(k) implies by_key(after)[k]
        == want[k] by {
        let i = choose|i: int| 0 <= i < after.len() && (#[trigger] after[i]).0@ == k;
        if i != at {
            assert(after[i] == before[i]);
            assert(k != before[at].0@) by {
                if i < at {
                    assert(before[i].0@ != before[at].0@);
                } else {
                    assert(before[at].0@ != before[i].0@);
                }
            }
        }
    }
    assert(by_key(after) =~= want);
}

proof fn lemma_removed<V>(before: Seq<(String, V)>, after: Seq<(String, V)>, at: int)
    requires
        once(before),
        0 <= at < before.len(),
        after == before.remove(at),
    ensures
        once(after),
        by_key(after) == by_key(before).remove(before[at].0@),
{
    assert forall|i: int| 0 <= i < after.len() implies #[trigger] after[i] == before[if i < at {
        i
    } else {
        i + 1
    }] by {}
    assert forall|i: int, j: int| 0 <= i < j < after.len() implies (#[trigger] after[i]).0@ != (
    #[trigger] after[j]).0@ by {
        let bi = if i < at {
            i
        } else {
            i + 1
        };
        let bj = if j < at {
            j
        } else {
            j + 1
        };
        assert(after[i] == before[bi] && after[j] == before[bj]);
    }
    lemma_by_key(before);
    lemma_by_key(after);
    let gone = before[at].0@;
    let want = by_key(before).remove(gone);
    assert forall|i: int| 0 <= i < after.len() implies (#[trigger] after[i]).0@ != gone by {
        if i < at {
            assert(after[i] == before[i]);
        } else {
            assert(after[i] == before[i + 1]);
        }
    }
    assert forall|k: Seq<char>| by_key(after).dom().contains(k) <==> want.dom().contains(k) by {
        if by_key(after).dom().contains(k) {
            let i = choose|i: int| 0 <= i < after.len() && (#[trigger] after[i]).0@ == k;
            let b = if i < at {
                i
            } else {
                i + 1
            };
            assert(after[i] == before[b]);
        }
        if want.dom().contains(k) {
            let i = choose|i: int| 0 <= i < before.len() && (#[trigger] before[i]).0@ == k;
            if i < at {
                assert(after[i] == before[i]);
            } else {
                assert(after[i - 1] == before[i]);
            }
        }
    }
    assert forall|k: Seq<char>| by_key(after).dom().contains(k) implies by_key(after)[k]
        == want[k] by {
        let i = choose|i: int| 0 <= i < after.len() && (#[trigger] after[i]).0@ == k;
        let b = if i < at {
            i
        } else {
            i + 1
        };
        assert(after[i] == before[b]);
    }
    assert(by_key(after) =~= want);
}

impl<V> View for TextMap<V> {
    type V = Map<Seq<char>, V>;

    closed spec fn view(&self) -> Map<Seq<char>, V> {
        by_key(self.entries@)
    }
}

impl<V> TextMap<V> {
    /// No text has two entries.
    pub closed spec fn wf(self) -> bool {
        once(self.entries@)
    }

    pub fn new() -> (r: TextMap<V>)
        ensures
            r.wf(),
            r@ == Map::<Seq<char>, V>::empty(),
    {
        TextMap { entries: Vec::new() }
    }

    /// The position of an entry, or the length where there is none.
    fn position(&self, key: &str) -> (r: usize)
        requires
            self.wf(),
        ensures
            r <= self.entries@.len(),
            r < self.entries@.len() <==> self@.dom().contains(key@),
            r < self.entries@.len() ==> self.entries@[r as int].0@ == key@ && self@[key@]
                == self.entries@[r as int].1,
    {
        proof {
            lemma_by_key(self.entries@);
        }
        for i in 0..self.entries.len()
            invariant
                self.wf(),
                forall|j: int| 0 <= j < i ==> (#[trigger] self.entries@[j]).0@ != key@,
        {
            if same(self.entries[i].0.as_str(), key) {
                proof {
                    lemma_by_key(self.entries@);
                }
                return i;
            }
        }
        self.entries.len()
    }

    /// The value of a text, if it has one.
    pub fn get(&self, key: &str) -> (r: Option<&V>)
        requires
            self.wf(),
        ensures
            match r {
                Some(v) => self@.dom().contains(key@) && self@[key@] == *v,
                None => !self@.dom().contains(key@),
            },
    {
        let at: usize = self.position(key);
        if at < self.entries.len() {
            Some(&self.entries[at].1)
        } else {
            None
        }
    }

    /// Gives a text this value, in the stead of the one it had.
    pub fn insert(&mut self, key: &str, value: V)
        requires
            old(self).wf(),
        ensures
            final(self).wf(),
            final(self)@ == old(self)@.insert(key@, value),
    {
        let ghost before = self.entries@;
        let at: usize = self.position(key);
        proof {
            lemma_by_key(before);
        }
        if at < self.entries.len() {
            self.entries.set(at, (key.to_owned(), value));
            proof {
                lemma_updated(before, self.entries@, at as int);
            }
        } else {
            self.entries.push((key.to_owned(), value));
            proof {
                let after = self.entries@;
                assert forall|i: int, j: int| 0 <= i < j < after.len() implies (
                #[trigger] after[i]).0@ != (#[trigger] after[j]).0@ by {
                    if j == before.len() {
                        assert(after[i] == before[i]);
                    }
                }
                assert(after.drop_last() =~= before);
            }
        }
    }

    /// Takes the value of a text away.
    pub fn remove(&mut self, key: &str)
        requires
            old(self).wf(),
        ensures
            final(self).wf(),
            final(self)@ == old(self)@.remove(key@),
    {
        let ghost before = self.entries@;
        let at: usize = self.position(key);
        if at < self.entries.len() {
            let _gone = self.entries.remove(at);
            proof {
                assert(self.entries@ =~= before.remove(at as int));
                lemma_removed(before, self.entries@, at as int);
            }
        } else {
            assert(by_key(before).remove(key@) =~= by_key(before));
        }
    }

    /// The texts that have a value, each once.
    pub fn keys(&self) -> (r: Vec<String>)
        requires
            self.wf(),
        ensures
            text::texts(r@).no_duplicates(),
            forall|k: Seq<char>| text::texts(r@).contains(k) <==> self@.dom().contains(k),
    {
        let mut r: Vec<String> = Vec::new();
        for i in 0..self.entries.len()
            invariant
                r@.len() == i,
                forall|j: int| 0 <= j < i ==> (#[trigger] r@[j])@ == self.entries@[j].0@,
        {
            r.push(self.entries[i].0.clone());
        }
        proof {
            lemma_by_key(self.entries@);
            let all = text::texts(r@);
            assert forall|k: Seq<char>| all.contains(k) <==> self@.dom().contains(k) by {
                if all.contains(k) {
                    let i = choose|i: int| 0 <= i < all.len() && all[i] == k;
                    assert(r@[i]@ == self.entries@[i].0@);
                }
                if self@.dom().contains(k) {
                    let i = choose|i: int|
                        0 <= i < self.entries@.len() && (#[trigger] self.entries@[i]).0@ == k;
                    assert(r@[i]@ == k);
                    assert(all[i] == k);
                }
            }
            assert forall|i: int, j: int| 0 <= i < j < all.len() implies all[i] != all[j] by {
                assert(r@[i]@ == self.entries@[i].0@ && r@[j]@ == self.entries@[j].0@);
            }
        }
        r
    }
}

} // verus!

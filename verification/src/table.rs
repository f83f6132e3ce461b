//! Tables from texts to values.

use vstd::prelude::*;

use crate::text::same_text;

verus! {

broadcast use vstd::seq_lib::group_seq_properties;

/// A table from texts to values, in the order in which its keys were first put in.
#[derive(Debug)]
pub struct TextMap<V> {
    pub entries: Vec<(String, V)>,
}

/// Where the key `k` first stands among the entries, or their number where it stands nowhere.
pub open spec fn slot<V>(e: Seq<(String, V)>, k: Seq<char>) -> int
    decreases e.len(),
{
    if e.len() == 0 {
        0
    } else if e[0].0@ == k {
        0
    } else {
        1 + slot(e.drop_first(), k)
    }
}

/// What `slot` finds.
pub proof fn lemma_slot<V>(e: Seq<(String, V)>, k: Seq<char>)
    ensures
        0 <= slot(e, k) <= e.len(),
        slot(e, k) < e.len() ==> e[slot(e, k)].0@ == k,
        forall|j: int| 0 <= j < slot(e, k) ==> (#[trigger] e[j]).0@ != k,
    decreases e.len(),
{
    if e.len() > 0 && e[0].0@ != k {
        lemma_slot(e.drop_first(), k);
        assert forall|j: int| 0 <= j < slot(e, k) implies (#[trigger] e[j]).0@ != k by {
            if j > 0 {
                assert(e.drop_first()[j - 1] == e[j]);
            }
        }
    }
}

/// `slot` is the first index at which the key stands.
pub proof fn lemma_slot_is<V>(e: Seq<(String, V)>, k: Seq<char>, i: int)
    requires
        0 <= i <= e.len(),
        i < e.len() ==> e[i].0@ == k,
        forall|j: int| 0 <= j < i ==> (#[trigger] e[j]).0@ != k,
    ensures
        slot(e, k) == i,
{
    lemma_slot(e, k);
}

/// The texts behind the values of a table of strings.
pub open spec fn text_values(m: Map<Seq<char>, String>) -> Map<Seq<char>, Seq<char>> {
    Map::new(|k: Seq<char>| m.contains_key(k), |k: Seq<char>| m[k]@)
}

/// The value at `k`, or the empty text where there is none.
pub open spec fn text_at(m: Map<Seq<char>, Seq<char>>, k: Seq<char>) -> Seq<char> {
    if m.contains_key(k) {
        m[k]
    } else {
        seq![]
    }
}

/// A string put into a table is its text put into the table's texts.
pub proof fn lemma_text_values_insert(m: Map<Seq<char>, String>, k: Seq<char>, s: String)
    ensures
        text_values(m.insert(k, s)) == text_values(m).insert(k, s@),
{
    assert(text_values(m.insert(k, s)) =~= text_values(m).insert(k, s@));
}

impl TextMap<String> {
    /// The texts that the table holds.
    pub open spec fn text_map(&self) -> Map<Seq<char>, Seq<char>> {
        text_values(self@)
    }

    /// The string at `key`, or an empty one where there is none.
    pub fn text_or_empty(&self, key: &str) -> (r: String)
        ensures
            r@ == text_at(self.text_map(), key@),
    {
        match self.get(key) {
            Some(s) => s.clone(),
            None => String::new(),
        }
    }
}

impl<V> View for TextMap<V> {
    type V = Map<Seq<char>, V>;

    open spec fn view(&self) -> Map<Seq<char>, V> {
        Map::new(
            |k: Seq<char>| slot(self.entries@, k) < self.entries@.len(),
            |k: Seq<char>| self.entries@[slot(self.entries@, k)].1,
        )
    }
}

impl<V> TextMap<V> {
    /// The keys, in order.
    pub open spec fn keys(&self) -> Seq<Seq<char>> {
        Seq::new(self.entries@.len(), |i: int| self.entries@[i].0@)
    }

    /// No key stands twice.
    pub open spec fn wf(&self) -> bool {
        self.keys().no_duplicates()
    }

    /// The key at `i` is one of the map's.
    pub proof fn lemma_key(&self, i: int)
        requires
            0 <= i < self.entries@.len(),
        ensures
            self@.contains_key(self.entries@[i].0@),
            self.wf() ==> self@[self.entries@[i].0@] == self.entries@[i].1,
            self.keys()[i] == self.entries@[i].0@,
    {
        let k = self.entries@[i].0@;
        lemma_slot(self.entries@, k);
        if slot(self.entries@, k) >= self.entries@.len() {
            assert(self.entries@[i].0@ != k);
        }
        if self.wf() {
            let s = slot(self.entries@, k);
            assert(self.keys()[s] == self.keys()[i]);
        }
    }

    /// The keys of the map are those of the entries.
    pub proof fn lemma_keys(&self)
        ensures
            forall|k: Seq<char>| self@.contains_key(k) <==> self.keys().contains(k),
    {
        assert forall|k: Seq<char>| self@.contains_key(k) <==> self.keys().contains(k) by {
            lemma_slot(self.entries@, k);
            if self@.contains_key(k) {
                assert(self.keys()[slot(self.entries@, k)] == k);
            }
            if self.keys().contains(k) {
                let i = choose|i: int| 0 <= i < self.keys().len() && self.keys()[i] == k;
                self.lemma_key(i);
            }
        }
    }

    /// The empty table.
    pub fn new() -> (r: Self)
        ensures
            r@ == Map::<Seq<char>, V>::empty(),
            r.wf(),
            r.entries@.len() == 0,
    {
        let r = TextMap { entries: Vec::new() };
        assert(r@ =~= Map::<Seq<char>, V>::empty());
        r
    }

    /// Where the key first stands, or the number of entries.
    pub fn find(&self, key: &str) -> (r: usize)
        ensures
            r == slot(self.entries@, key@),
            r <= self.entries@.len(),
            r < self.entries@.len() <==> self@.contains_key(key@),
            r < self.entries@.len() ==> self@[key@] == self.entries@[r as int].1,
    {
        let mut i: usize = 0;
        while i < self.entries.len()
            invariant
                i <= self.entries@.len(),
                forall|j: int| 0 <= j < i ==> (#[trigger] self.entries@[j]).0@ != key@,
            decreases self.entries@.len() - i,
        {
            if same_text(self.entries[i].0.as_str(), key) {
                proof {
                    lemma_slot_is(self.entries@, key@, i as int);
                }
                return i;
            }
            i += 1;
        }
        proof {
            lemma_slot_is(self.entries@, key@, i as int);
        }
        i
    }

    /// The value at `key`.
    pub fn get(&self, key: &str) -> (r: Option<&V>)
        ensures
            match r {
                Some(v) => self@.contains_key(key@) && *v == self@[key@],
                None => !self@.contains_key(key@),
            },
    {
        let i = self.find(key);
        if i < self.entries.len() {
            Some(&self.entries[i].1)
        } else {
            None
        }
    }

    /// Whether `key` has a value.
    pub fn contains_key(&self, key: &str) -> (r: bool)
        ensures
            r == self@.contains_key(key@),
    {
        self.find(key) < self.entries.len()
    }

    /// Puts `value` at `key`, in place of the value that stood there.
    pub fn insert(&mut self, key: String, value: V)
        ensures
            final(self)@ == old(self)@.insert(key@, value),
            old(self).wf() ==> final(self).wf(),
            final(self).keys() == (if old(self)@.contains_key(key@) {
                old(self).keys()
            } else {
                old(self).keys().push(key@)
            }),
    {
        let ghost before = *self;
        let i = self.find(key.as_str());
        if i < self.entries.len() {
            let ghost old_key = self.entries@[i as int].0;
            proof {
                lemma_slot(self.entries@, key@);
            }
            self.entries[i] = (key, value);
            proof {
                let e = self.entries@;
                assert(e == before.entries@.update(i as int, (key, value)));
                assert(self.keys() =~= before.keys());
                assert forall|k: Seq<char>|
                    #[trigger] slot(e, k) == slot(before.entries@, k) && 0 <= slot(e, k) && (slot(e, k)
                        < e.len() ==> e[slot(e, k)].0@ == k) by {
                    lemma_slot(before.entries@, k);
                    lemma_slot(e, k);
                    let s = slot(before.entries@, k);
                    assert forall|j: int| 0 <= j < s implies (#[trigger] e[j]).0@ != k by {
                        assert(before.entries@[j].0@ != k);
                    }
                    lemma_slot_is(e, k, s);
                }
                assert(self@ =~= before@.insert(key@, value));
            }
        } else {
            proof {
                lemma_slot(self.entries@, key@);
            }
            self.entries.push((key, value));
            proof {
                let e = self.entries@;
                let b = before.entries@;
                assert(e == b.push((key, value)));
                assert(self.keys() =~= before.keys().push(key@));
                before.lemma_keys();
                assert forall|k: Seq<char>|
                    #[trigger] slot(e, k) == (if slot(b, k) < b.len() || k == key@ {
                        slot(b, k)
                    } else {
                        b.len() as int + 1
                    }) && 0 <= slot(e, k) && (slot(b, k) < b.len() ==> b[slot(b, k)].0@ == k) by {
                    lemma_slot(b, k);
                    let s = if slot(b, k) < b.len() || k == key@ {
                        slot(b, k)
                    } else {
                        b.len() as int + 1
                    };
                    assert forall|j: int| 0 <= j < s implies (#[trigger] e[j]).0@ != k by {
                        if j < b.len() {
                            assert(b[j].0@ != k);
                        }
                    }
                    lemma_slot_is(e, k, s);
                }
                assert(self@ =~= before@.insert(key@, value));
                if before.wf() {
                    assert(!before.keys().contains(key@));
                }
            }
        }
    }
}

impl<T> TextMap<Vec<T>> {
    /// Puts `item` behind the list at `key`, which starts empty.
    pub fn push_at(&mut self, key: String, item: T)
        ensures
            old(self).wf() ==> final(self).wf(),
            final(self)@.dom() == old(self)@.dom().insert(key@),
            final(self)@[key@]@ == (if old(self)@.contains_key(key@) {
                old(self)@[key@]@
            } else {
                Seq::empty()
            }).push(item),
            forall|k: Seq<char>|
                k != key@ && old(self)@.contains_key(k) ==> #[trigger] final(self)@[k] == old(
                    self,
                )@[k],
    {
        let ghost before = *self;
        let i = self.find(key.as_str());
        if i < self.entries.len() {
            proof {
                lemma_slot(self.entries@, key@);
            }
            self.entries[i].1.push(item);
            proof {
                let e = self.entries@;
                let b = before.entries@;
                assert(e[i as int].0 == b[i as int].0);
                assert(self.keys() =~= before.keys());
                assert forall|k: Seq<char>|
                    #[trigger] slot(e, k) == slot(b, k) && 0 <= slot(e, k) && (slot(e, k) < e.len()
                        ==> e[slot(e, k)].0@ == k) by {
                    lemma_slot(b, k);
                    lemma_slot(e, k);
                    let s = slot(b, k);
                    assert forall|j: int| 0 <= j < s implies (#[trigger] e[j]).0@ != k by {
                        assert(b[j].0@ != k);
                    }
                    lemma_slot_is(e, k, s);
                }
                assert(self@.dom() =~= before@.dom().insert(key@));
            }
        } else {
            let mut list: Vec<T> = Vec::new();
            list.push(item);
            self.insert(key, list);
        }
    }
}

} // verus!

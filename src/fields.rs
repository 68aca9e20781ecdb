//! A small ordered map from field names to text values, as carried by
//! product records (`custom`) and by events (`metadata`).
use vstd::prelude::*;
use crate::validation::{byte_len, str_len};

verus! {

/// The entries of a field map, in the order in which their keys were first set.
pub type FieldsView = Seq<(Seq<char>, Seq<char>)>;

/// No key occurs twice.
pub open spec fn keys_unique(s: FieldsView) -> bool {
    forall|i: int, j: int| 0 <= i < j < s.len() ==> #[trigger] s[i].0 != #[trigger] s[j].0
}

/// The value stored under `k`, if any.
pub open spec fn lookup(s: FieldsView, k: Seq<char>) -> Option<Seq<char>> {
    if exists|i: int| 0 <= i < s.len() && s[i].0 == k {
        Some(s[choose|i: int| 0 <= i < s.len() && s[i].0 == k].1)
    } else {
        None
    }
}

/// Every value holds at most `max` bytes.
pub open spec fn values_within(s: FieldsView, max: u32) -> bool {
    forall|i: int| 0 <= i < s.len() ==> byte_len(#[trigger] s[i].1) <= max
}

proof fn lemma_lookup_at(s: FieldsView, i: int)
    requires
        keys_unique(s),
        0 <= i < s.len(),
    ensures
        lookup(s, s[i].0) == Some(s[i].1),
{
    let k = s[i].0;
    assert(0 <= i < s.len() && s[i].0 == k);
    let j = choose|j: int| 0 <= j < s.len() && s[j].0 == k;
    if j < i {
        assert(s[j].0 != s[i].0);
    } else if i < j {
        assert(s[i].0 != s[j].0);
    }
}

/// Field names mapped to text values; setting a name again replaces its value.
#[derive(Clone, Debug, PartialEq, Eq)]
pub struct FieldMap {
    entries: Vec<(String, String)>,
}

impl View for FieldMap {
    type V = FieldsView;

    closed spec fn view(&self) -> FieldsView {
        self.entries@.map_values(|e: (String, String)| (e.0@, e.1@))
    }
}

impl FieldMap {
    /// Keys are unique.
    pub open spec fn wf(&self) -> bool {
        keys_unique(self@)
    }

    /// An empty map.
    pub fn new() -> (r: FieldMap)
        ensures
            r@ == Seq::<(Seq<char>, Seq<char>)>::empty(),
            r.wf(),
    {
        let r = FieldMap { entries: Vec::new() };
        assert(r@ =~= Seq::<(Seq<char>, Seq<char>)>::empty());
        r
    }

    /// Number of entries.
    pub fn len(&self) -> (r: usize)
        ensures
            r == self@.len(),
    {
        self.entries.len()
    }

    /// Position of the entry whose key is `key`, if any.
    fn position(&self, key: &String) -> (r: Option<usize>)
        ensures
            match r {
                Some(i) => i < self@.len() && self@[i as int].0 == key@,
                None => forall|i: int| 0 <= i < self@.len() ==> self@[i].0 != key@,
            },
    {
        let mut i: usize = 0;
        while i < self.entries.len()
            invariant
                i <= self@.len(),
                self@.len() == self.entries@.len(),
                forall|j: int| 0 <= j < i ==> self@[j].0 != key@,
            decreases self.entries.len() - i,
        {
            if self.entries[i].0 == *key {
                return Some(i);
            }
            i += 1;
        }
        None
    }

    /// The value stored under `key`, if any.
    pub fn get(&self, key: &String) -> (r: Option<String>)
        requires
            self.wf(),
        ensures
            match r {
                Some(v) => lookup(self@, key@) == Some(v@),
                None => lookup(self@, key@) is None,
            },
    {
        match self.position(key) {
            Some(i) => {
                proof {
                    lemma_lookup_at(self@, i as int);
                }
                Some(self.entries[i].1.clone())
            },
            None => None,
        }
    }

    /// Stores `value` under `key`, replacing what was there.
    pub fn set(&mut self, key: String, value: String)
        requires
            old(self).wf(),
        ensures
            final(self).wf(),
            forall|k: Seq<char>|
                #[trigger] lookup(final(self)@, k) == if k == key@ {
                    Some(value@)
                } else {
                    lookup(old(self)@, k)
                },
    {
        let ghost s0 = self@;
        let ghost k0 = key@;
        let ghost v0 = value@;
        match self.position(&key) {
            Some(i) => {
                self.entries.set(i, (key, value));
                proof {
                    let s1 = self@;
                    assert(s1 =~= s0.update(i as int, (k0, v0)));
                    assert forall|a: int, b: int| 0 <= a < b < s1.len() implies #[trigger] s1[a].0
                        != #[trigger] s1[b].0 by {
                        assert(s0[a].0 != s0[b].0);
                    }
                    assert forall|k: Seq<char>|
                        #[trigger] lookup(s1, k) == if k == k0 {
                            Some(v0)
                        } else {
                            lookup(s0, k)
                        } by {
                        if k == k0 {
                            lemma_lookup_at(s1, i as int);
                        } else if exists|j: int| 0 <= j < s0.len() && s0[j].0 == k {
                            let j = choose|j: int| 0 <= j < s0.len() && s0[j].0 == k;
                            lemma_lookup_at(s0, j);
                            lemma_lookup_at(s1, j);
                        } else {
                            assert forall|j: int| 0 <= j < s1.len() implies s1[j].0 != k by {
                                if j != i {
                                    assert(s1[j] == s0[j]);
                                }
                            }
                        }
                    }
                }
            },
            None => {
                self.entries.push((key, value));
                proof {
                    let s1 = self@;
                    assert(s1 =~= s0.push((k0, v0)));
                    assert forall|k: Seq<char>|
                        #[trigger] lookup(s1, k) == if k == k0 {
                            Some(v0)
                        } else {
                            lookup(s0, k)
                        } by {
                        if k == k0 {
                            lemma_lookup_at(s1, s0.len() as int);
                        } else if exists|j: int| 0 <= j < s0.len() && s0[j].0 == k {
                            let j = choose|j: int| 0 <= j < s0.len() && s0[j].0 == k;
                            lemma_lookup_at(s0, j);
                            lemma_lookup_at(s1, j);
                        } else {
                            assert forall|j: int| 0 <= j < s1.len() implies s1[j].0 != k by {
                                if j < s0.len() {
                                    assert(s1[j] == s0[j]);
                                }
                            }
                        }
                    }
                }
            },
        }
    }

    /// True when every value holds at most `max` bytes.
    pub fn values_within(&self, max: u32) -> (r: bool)
        ensures
            r == values_within(self@, max),
    {
        let mut i: usize = 0;
        while i < self.entries.len()
            invariant
                i <= self@.len(),
                self@.len() == self.entries@.len(),
                forall|j: int| 0 <= j < i ==> byte_len(#[trigger] self@[j].1) <= max,
            decreases self.entries.len() - i,
        {
            if str_len(&self.entries[i].1) > max as usize {
                assert(self@[i as int].1 == self.entries@[i as int].1@);
                return false;
            }
            i += 1;
        }
        true
    }

    /// A copy of this map.
    pub fn duplicate(&self) -> (r: FieldMap)
        ensures
            r@ == self@,
    {
        let mut entries: Vec<(String, String)> = Vec::new();
        let mut i: usize = 0;
        while i < self.entries.len()
            invariant
                i <= self.entries@.len(),
                entries@.len() == i,
                forall|j: int|
                    0 <= j < i ==> (#[trigger] entries@[j]).0@ == self.entries@[j].0@
                        && entries@[j].1@ == self.entries@[j].1@,
            decreases self.entries.len() - i,
        {
            let k = self.entries[i].0.clone();
            let v = self.entries[i].1.clone();
            entries.push((k, v));
            i += 1;
        }
        let r = FieldMap { entries };
        assert(r@ =~= self@);
        r
    }

    /// The entries, in the order in which their keys were first set.
    pub fn to_pairs(&self) -> (r: Vec<(String, String)>)
        ensures
            r@.map_values(|e: (String, String)| (e.0@, e.1@)) == self@,
    {
        self.duplicate().entries
    }
}

} // verus!

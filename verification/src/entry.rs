//! One table row: a mapping from column name to string-encoded value,
//! stored as a list of pairs whose keys occur at most once and viewed as a
//! mathematical map.
use vstd::prelude::*;

use vstd::pervasive::VecAdditionalExecFns;

use crate::text::str_eq;

verus! {

/// One row of a table. Inserting under an existing key replaces that
/// key's value, as a map insertion does.
pub struct Entry {
    pairs: Vec<(String, String)>,
}

/// The index at which `ps` holds key `k`, provided some index does.
spec fn pair_index(ps: Seq<(String, String)>, k: Seq<char>) -> int {
    choose|i: int| 0 <= i < ps.len() && ps[i].0@ == k
}

impl View for Entry {
    type V = Map<Seq<char>, Seq<char>>;

    closed spec fn view(&self) -> Map<Seq<char>, Seq<char>> {
        Map::new(
            |k: Seq<char>| exists|i: int| 0 <= i < self.pairs@.len() && self.pairs@[i].0@ == k,
            |k: Seq<char>| self.pairs@[pair_index(self.pairs@, k)].1@,
        )
    }
}

/// A key held at some index determines the entry's value for that key.
proof fn lemma_lookup(e: Entry, i: int)
    requires
        e.wf(),
        0 <= i < e.pairs@.len(),
    ensures
        e@.contains_key(e.pairs@[i].0@),
        e@[e.pairs@[i].0@] == e.pairs@[i].1@,
{
    let k = e.pairs@[i].0@;
    assert(e@.dom().contains(k));
    let j = pair_index(e.pairs@, k);
    assert(0 <= j < e.pairs@.len() && e.pairs@[j].0@ == k);
    if j < i {
        assert(e.pairs@[j].0@ != e.pairs@[i].0@);
    }
    if i < j {
        assert(e.pairs@[i].0@ != e.pairs@[j].0@);
    }
}

impl Entry {
    /// Each column name is stored at most once.
    pub closed spec fn wf(&self) -> bool {
        forall|i: int, j: int|
            0 <= i < j < self.pairs@.len() ==> self.pairs@[i].0@ != self.pairs@[j].0@
    }

    /// An entry with no columns.
    pub fn new() -> (e: Entry)
        ensures
            e.wf(),
            e@ == Map::<Seq<char>, Seq<char>>::empty(),
    {
        let e = Entry { pairs: Vec::new() };
        proof {
            assert(e@ =~= Map::<Seq<char>, Seq<char>>::empty());
        }
        e
    }

    /// Looks the value stored under `key` up.
    pub fn get(&self, key: &str) -> (r: Option<&String>)
        requires
            self.wf(),
        ensures
            (match r {
                Option::Some(v) => self@.contains_key(key@) && v@ == self@[key@],
                Option::None => !self@.contains_key(key@),
            }),
    {
        let mut i: usize = 0;
        while i < self.pairs.len()
            invariant
                i <= self.pairs@.len(),
                self.wf(),
                forall|j: int| 0 <= j < i ==> self.pairs@[j].0@ != key@,
            decreases self.pairs@.len() - i,
        {
            let p = &self.pairs[i];
            if str_eq(p.0.as_str(), key) {
                proof {
                    lemma_lookup(*self, i as int);
                }
                return Option::Some(&p.1);
            }
            i += 1;
        }
        proof {
            assert(!self@.dom().contains(key@));
        }
        Option::None
    }

    /// The index at which `key` is stored, if any index holds it.
    fn find(&self, key: &str) -> (r: Option<usize>)
        ensures
            (match r {
                Option::Some(i) => i < self.pairs@.len() && self.pairs@[i as int].0@ == key@,
                Option::None => forall|j: int|
                    0 <= j < self.pairs@.len() ==> self.pairs@[j].0@ != key@,
            }),
    {
        let mut i: usize = 0;
        while i < self.pairs.len()
            invariant
                i <= self.pairs@.len(),
                forall|j: int| 0 <= j < i ==> self.pairs@[j].0@ != key@,
            decreases self.pairs@.len() - i,
        {
            let p = &self.pairs[i];
            if str_eq(p.0.as_str(), key) {
                return Option::Some(i);
            }
            i += 1;
        }
        Option::None
    }

    /// Stores `value` under `key`, replacing any value the key held.
    pub fn insert(&mut self, key: String, value: String)
        requires
            old(self).wf(),
        ensures
            final(self).wf(),
            final(self)@ == old(self)@.insert(key@, value@),
    {
        let ghost gk = key@;
        let ghost gv = value@;
        match self.find(key.as_str()) {
            Option::Some(i) => {
                self.pairs.set(i, (key, value));
                proof {
                    let ii = i as int;
                    let np = self.pairs@;
                    let op = old(self).pairs@;
                    assert(np[ii].0@ == gk && np[ii].1@ == gv);
                    assert(op[ii].0@ == gk);
                    assert(forall|x: int| 0 <= x < np.len() ==> #[trigger] np[x].0@ == op[x].0@);
                    assert(self.wf());
                    assert forall|k: Seq<char>| #[trigger] self@.dom().contains(k) implies old(
                        self,
                    )@.insert(gk, gv).dom().contains(k) && self@[k] == old(self)@.insert(
                        gk,
                        gv,
                    )[k] by {
                        let x = choose|x: int| 0 <= x < np.len() && np[x].0@ == k;
                        lemma_lookup(*self, x);
                        lemma_lookup(*old(self), x);
                        if x != ii {
                            assert(op[x].0@ != op[ii].0@);
                        }
                    }
                    assert forall|k: Seq<char>| #[trigger] old(self)@.insert(gk, gv).dom().contains(
                        k,
                    ) implies self@.dom().contains(k) by {
                        if k == gk {
                            assert(np[ii].0@ == k);
                        } else {
                            let x = choose|x: int| 0 <= x < op.len() && op[x].0@ == k;
                            assert(np[x].0@ == k);
                        }
                    }
                    assert(self@ =~= old(self)@.insert(gk, gv));
                }
            },
            Option::None => {
                self.pairs.push((key, value));
                proof {
                    let np = self.pairs@;
                    let op = old(self).pairs@;
                    let last = np.len() - 1;
                    assert(np[last].0@ == gk && np[last].1@ == gv);
                    assert(forall|x: int| 0 <= x < op.len() ==> np[x] == op[x]);
                    assert(self.wf());
                    assert forall|k: Seq<char>| #[trigger] self@.dom().contains(k) implies old(
                        self,
                    )@.insert(gk, gv).dom().contains(k) && self@[k] == old(self)@.insert(
                        gk,
                        gv,
                    )[k] by {
                        let x = choose|x: int| 0 <= x < np.len() && np[x].0@ == k;
                        lemma_lookup(*self, x);
                        if x != last {
                            assert(op[x].0@ == k);
                            lemma_lookup(*old(self), x);
                            assert(op[x].0@ != gk);
                        }
                    }
                    assert forall|k: Seq<char>| #[trigger] old(self)@.insert(gk, gv).dom().contains(
                        k,
                    ) implies self@.dom().contains(k) by {
                        if k == gk {
                            assert(np[last].0@ == k);
                        } else {
                            let x = choose|x: int| 0 <= x < op.len() && op[x].0@ == k;
                            assert(np[x].0@ == k);
                        }
                    }
                    assert(self@ =~= old(self)@.insert(gk, gv));
                }
            },
        }
    }

    /// An independent copy of this entry.
    pub fn duplicate(&self) -> (r: Entry)
        requires
            self.wf(),
        ensures
            r.wf(),
            r@ == self@,
    {
        let mut ps: Vec<(String, String)> = Vec::new();
        let mut i: usize = 0;
        while i < self.pairs.len()
            invariant
                i <= self.pairs@.len(),
                ps@ == self.pairs@.subrange(0, i as int),
            decreases self.pairs@.len() - i,
        {
            let p = &self.pairs[i];
            ps.push((p.0.clone(), p.1.clone()));
            proof {
                assert(ps@ =~= self.pairs@.subrange(0, i as int + 1));
            }
            i += 1;
        }
        proof {
            assert(self.pairs@.subrange(0, self.pairs@.len() as int) =~= self.pairs@);
        }
        let r = Entry { pairs: ps };
        proof {
            assert(r@ =~= self@);
        }
        r
    }

    /// The stored (column, value) pairs; each key occurs exactly once and
    /// agrees with the entry's map view.
    pub fn items(&self) -> (ps: &Vec<(String, String)>)
        requires
            self.wf(),
        ensures
            forall|i: int|
                0 <= i < ps@.len() ==> self@.contains_key(#[trigger] ps@[i].0@) && self@[ps@[i].0@]
                    == ps@[i].1@,
            forall|k: Seq<char>|
                self@.contains_key(k) ==> exists|i: int|
                    0 <= i < ps@.len() && #[trigger] ps@[i].0@ == k,
            forall|i: int, j: int| 0 <= i < j < ps@.len() ==> ps@[i].0@ != ps@[j].0@,
    {
        proof {
            assert forall|i: int| 0 <= i < self.pairs@.len() implies self@.contains_key(
                #[trigger] self.pairs@[i].0@,
            ) && self@[self.pairs@[i].0@] == self.pairs@[i].1@ by {
                lemma_lookup(*self, i);
            }
        }
        &self.pairs
    }
}

} // verus!

//! The daemon's in-memory key/value storage: association entries with unique
//! keys, owned by the daemon loop alone, so no mutation path exists outside
//! single-threaded dispatch.
use vstd::prelude::*;

verus! {

/// The keys of a run of entries, in entry order.
pub open spec fn skeys(es: Seq<(Seq<char>, Seq<char>)>) -> Seq<Seq<char>> {
    es.map_values(|e: (Seq<char>, Seq<char>)| e.0)
}

/// The value the first entry with key `k` holds, if any.
pub open spec fn slookup(es: Seq<(Seq<char>, Seq<char>)>, k: Seq<char>) -> Option<Seq<char>>
    decreases es.len(),
{
    if es.len() == 0 {
        None
    } else if es[0].0 == k {
        Some(es[0].1)
    } else {
        slookup(es.drop_first(), k)
    }
}

/// No key occurs twice.
pub open spec fn unique_keys(es: Seq<(Seq<char>, Seq<char>)>) -> bool {
    forall|i: int, j: int| 0 <= i < j < es.len() ==> es[i].0 != es[j].0
}

/// Dropping the first entry keeps the remaining keys unique.
proof fn lemma_unique_drop_first(es: Seq<(Seq<char>, Seq<char>)>)
    requires
        unique_keys(es),
        es.len() > 0,
    ensures
        unique_keys(es.drop_first()),
{
    assert forall|i: int, j: int|
        0 <= i < j < es.drop_first().len() implies es.drop_first()[i].0 != es.drop_first()[j].0 by {
        assert(es.drop_first()[i] == es[i + 1]);
        assert(es.drop_first()[j] == es[j + 1]);
    }
}

/// Under unique keys, the entry at `i` is what lookup of its key finds.
proof fn lemma_slookup_at(es: Seq<(Seq<char>, Seq<char>)>, i: int)
    requires
        unique_keys(es),
        0 <= i < es.len(),
    ensures
        slookup(es, es[i].0) == Some(es[i].1),
    decreases i,
{
    if i == 0 {
    } else {
        assert(es[0].0 != es[i].0);
        assert(es.drop_first()[i - 1] == es[i]);
        lemma_unique_drop_first(es);
        lemma_slookup_at(es.drop_first(), i - 1);
    }
}

/// A key no entry holds looks up to nothing.
proof fn lemma_slookup_none(es: Seq<(Seq<char>, Seq<char>)>, k: Seq<char>)
    requires
        forall|i: int| 0 <= i < es.len() ==> (#[trigger] es[i]).0 != k,
    ensures
        slookup(es, k) is None,
    decreases es.len(),
{
    if es.len() == 0 {
    } else {
        assert(es[0].0 != k);
        assert forall|i: int| 0 <= i < es.drop_first().len() implies (#[trigger] es.drop_first()[i]).0
            != k by {
            assert(es.drop_first()[i] == es[i + 1]);
        }
        lemma_slookup_none(es.drop_first(), k);
    }
}

/// If lookup finds nothing, no entry holds the key.
proof fn lemma_slookup_none_rev(es: Seq<(Seq<char>, Seq<char>)>, k: Seq<char>)
    requires
        slookup(es, k) is None,
    ensures
        forall|i: int| 0 <= i < es.len() ==> (#[trigger] es[i]).0 != k,
    decreases es.len(),
{
    if es.len() == 0 {
    } else {
        lemma_slookup_none_rev(es.drop_first(), k);
        assert forall|i: int| 0 <= i < es.len() implies (#[trigger] es[i]).0 != k by {
            if i > 0 {
                assert(es.drop_first()[i - 1] == es[i]);
            }
        }
    }
}

/// Replacing the value at `i` changes the lookup of that entry's key alone.
proof fn lemma_slookup_update(
    es: Seq<(Seq<char>, Seq<char>)>,
    i: int,
    kv: (Seq<char>, Seq<char>),
    k2: Seq<char>,
)
    requires
        0 <= i < es.len(),
        kv.0 == es[i].0,
        k2 != es[i].0,
    ensures
        slookup(es.update(i, kv), k2) == slookup(es, k2),
    decreases es.len(),
{
    let es2 = es.update(i, kv);
    if i == 0 {
        assert(es2.drop_first() =~= es.drop_first());
    } else {
        assert(es2[0] == es[0]);
        if es[0].0 == k2 {
        } else {
            assert(es2.drop_first() =~= es.drop_first().update(i - 1, kv));
            lemma_slookup_update(es.drop_first(), i - 1, kv, k2);
        }
    }
}

/// Appending a fresh entry changes the lookup of its key alone.
proof fn lemma_slookup_push(es: Seq<(Seq<char>, Seq<char>)>, kv: (Seq<char>, Seq<char>), k2: Seq<char>)
    ensures
        slookup(es.push(kv), k2) == if slookup(es, k2) is Some {
            slookup(es, k2)
        } else if k2 == kv.0 {
            Some(kv.1)
        } else {
            None
        },
    decreases es.len(),
{
    if es.len() == 0 {
        assert(es.push(kv)[0] == kv);
        assert(es.push(kv).drop_first() =~= Seq::<(Seq<char>, Seq<char>)>::empty());
    } else {
        assert(es.push(kv)[0] == es[0]);
        assert(es.push(kv).drop_first() =~= es.drop_first().push(kv));
        lemma_slookup_push(es.drop_first(), kv, k2);
    }
}

/// The daemon's key/value store.
pub struct Store {
    entries: Vec<(String, String)>,
}

impl View for Store {
    type V = Seq<(Seq<char>, Seq<char>)>;

    closed spec fn view(&self) -> Seq<(Seq<char>, Seq<char>)> {
        self.entries@.map_values(|e: (String, String)| (e.0@, e.1@))
    }
}

impl Store {
    /// A store is well formed when its keys are unique.
    pub open spec fn wf(&self) -> bool {
        unique_keys(self@)
    }

    /// An empty store.
    pub fn new() -> (s: Store)
        ensures
            s@ == Seq::<(Seq<char>, Seq<char>)>::empty(),
            s.wf(),
    {
        let s = Store { entries: Vec::new() };
        proof {
            assert(s@ =~= Seq::<(Seq<char>, Seq<char>)>::empty());
        }
        s
    }

    /// Looks a key up; `None` exactly when no entry holds it.
    pub fn get(&self, k: &String) -> (r: Option<String>)
        requires
            self.wf(),
        ensures
            match slookup(self@, k@) {
                Some(v) => r is Some && r->0@ == v,
                None => r is None,
            },
    {
        let n = self.entries.len();
        let mut i: usize = 0;
        while i < n
            invariant
                n == self.entries@.len(),
                i <= n,
                self.wf(),
                forall|j: int| 0 <= j < i ==> (#[trigger] self@[j]).0 != k@,
            decreases n - i,
        {
            if self.entries[i].0.eq(k) {
                proof {
                    lemma_slookup_at(self@, i as int);
                }
                return Some(self.entries[i].1.clone());
            }
            i = i + 1;
        }
        proof {
            lemma_slookup_none(self@, k@);
        }
        None
    }

    /// Binds a key to a value: an existing entry is overwritten in place, a
    /// fresh key is appended, and every other binding stays as it was.
    pub fn insert(&mut self, k: String, v: String)
        requires
            old(self).wf(),
        ensures
            final(self).wf(),
            slookup(final(self)@, k@) == Some(v@),
            forall|k2: Seq<char>| k2 != k@ ==> slookup(final(self)@, k2) == slookup(old(self)@, k2),
            (slookup(old(self)@, k@) is Some ==> skeys(final(self)@) == skeys(old(self)@)),
            (slookup(old(self)@, k@) is None ==> skeys(final(self)@) == skeys(old(self)@).push(k@)),
    {
        let n = self.entries.len();
        let mut i: usize = 0;
        while i < n
            invariant
                n == self.entries@.len(),
                i <= n,
                self.wf(),
                self@ == old(self)@,
                forall|j: int| 0 <= j < i ==> (#[trigger] self@[j]).0 != k@,
            decreases n - i,
        {
            if self.entries[i].0.eq(&k) {
                proof {
                    lemma_slookup_at(self@, i as int);
                }
                let ghost es = self@;
                let ghost idx = i as int;
                self.entries.remove(i);
                self.entries.insert(i, (k, v));
                proof {
                    let kv = (es[idx].0, self.entries@[idx].1@);
                    assert(self@ =~= es.update(idx, kv));
                    let es2 = self@;
                    assert forall|a: int, b: int| 0 <= a < b < es2.len() implies es2[a].0
                        != es2[b].0 by {
                        assert(es2[a].0 == es[a].0);
                        assert(es2[b].0 == es[b].0);
                    }
                    lemma_slookup_at(es2, idx);
                    assert forall|k2: Seq<char>| k2 != es[idx].0 implies slookup(es2, k2)
                        == slookup(es, k2) by {
                        lemma_slookup_update(es, idx, kv, k2);
                    }
                    assert(skeys(es2) =~= skeys(es));
                }
                return ;
            }
            i = i + 1;
        }
        proof {
            lemma_slookup_none(self@, k@);
        }
        let ghost es = self@;
        let ghost kview = k@;
        let ghost vview = v@;
        self.entries.push((k, v));
        proof {
            let kv = (kview, vview);
            assert(self@ =~= es.push(kv));
            let es2 = self@;
            assert forall|k2: Seq<char>| true implies slookup(es2, k2) == (if slookup(es, k2)
                is Some {
                slookup(es, k2)
            } else if k2 == kv.0 {
                Some(kv.1)
            } else {
                None
            }) by {
                lemma_slookup_push(es, kv, k2);
            }
            assert forall|a: int, b: int| 0 <= a < b < es2.len() implies es2[a].0 != es2[b].0 by {
                if b < es.len() {
                    assert(es2[a].0 == es[a].0);
                    assert(es2[b].0 == es[b].0);
                } else {
                    assert(es2[a].0 == es[a].0);
                    assert(es2[b] == kv);
                }
            }
            assert(skeys(es2) =~= skeys(es).push(kview));
        }
    }

    /// The stored keys, in entry order.
    pub fn keys(&self) -> (r: Vec<String>)
        ensures
            r.deep_view() == skeys(self@),
    {
        let n = self.entries.len();
        let mut r: Vec<String> = Vec::new();
        let mut i: usize = 0;
        while i < n
            invariant
                n == self.entries@.len(),
                i <= n,
                r.deep_view() == skeys(self@.take(i as int)),
            decreases n - i,
        {
            let ghost prev = r.deep_view();
            r.push(self.entries[i].0.clone());
            proof {
                assert(r.deep_view() =~= prev.push(r@[r@.len() - 1]@));
                assert(skeys(self@.take(i + 1 as int)) =~= skeys(self@.take(i as int)).push(
                    self@[i as int].0,
                ));
            }
            i = i + 1;
        }
        proof {
            assert(self@.take(n as int) =~= self@);
        }
        r
    }

    /// The number of stored entries.
    pub fn len(&self) -> (n: usize)
        ensures
            n == self@.len(),
    {
        self.entries.len()
    }
}

} // verus!

//! An ordered key/value store kept as a sequence of bindings with pairwise
//! distinct keys. The insertion position of a key is stable: overwriting a
//! key keeps its place, a new key is appended. Keeping the order fixed is
//! what lets independent replicas that apply the same transactions end up
//! with identical stores, and what makes snapshot chunks reproducible.

use vstd::prelude::*;

verus! {

/// One key/value binding held by the application.
pub type StoreEntry = (Vec<u8>, Vec<u8>);

/// The mathematical value of a store: its bindings in order.
pub type StoreModel = Seq<(Seq<u8>, Seq<u8>)>;

/// Whether some binding of `s` has key `k`.
pub open spec fn store_contains_key(s: StoreModel, k: Seq<u8>) -> bool {
    exists|i: int| 0 <= i < s.len() && s[i].0 == k
}

/// The value bound to `k`: the first binding with that key, if any.
pub open spec fn store_get(s: StoreModel, k: Seq<u8>) -> Option<Seq<u8>>
    decreases s.len(),
{
    if s.len() == 0 {
        None
    } else if s[0].0 == k {
        Some(s[0].1)
    } else {
        store_get(s.drop_first(), k)
    }
}

/// `s` with `k` bound to `v`: the first binding with key `k` is replaced in
/// place; if none exists the binding is appended.
pub open spec fn store_insert(s: StoreModel, k: Seq<u8>, v: Seq<u8>) -> StoreModel
    decreases s.len(),
{
    if s.len() == 0 {
        seq![(k, v)]
    } else if s[0].0 == k {
        seq![(k, v)] + s.drop_first()
    } else {
        seq![s[0]] + store_insert(s.drop_first(), k, v)
    }
}

/// All bindings of `es` inserted into `s`, first to last.
pub open spec fn store_insert_all(s: StoreModel, es: StoreModel) -> StoreModel
    decreases es.len(),
{
    if es.len() == 0 {
        s
    } else {
        store_insert_all(store_insert(s, es[0].0, es[0].1), es.drop_first())
    }
}

/// No two bindings share a key.
pub open spec fn store_keys_unique(s: StoreModel) -> bool {
    forall|i: int, j: int| 0 <= i < j < s.len() ==> s[i].0 != s[j].0
}

/// Every key and every value is short enough for the 4-byte length prefix of
/// the snapshot chunk encoding.
pub open spec fn store_lengths_bounded(s: StoreModel) -> bool {
    forall|i: int| 0 <= i < s.len() ==> #[trigger] s[i].0.len() < 0x1_0000_0000
        && s[i].1.len() < 0x1_0000_0000
}

/// A well-formed store: distinct keys, encodable lengths.
pub open spec fn store_wf(s: StoreModel) -> bool {
    store_keys_unique(s) && store_lengths_bounded(s)
}

/// A store sharing a first binding decomposes `store_contains_key` into a
/// look at that binding and a look at the rest.
pub proof fn lemma_contains_cons(x: (Seq<u8>, Seq<u8>), rest: StoreModel, q: Seq<u8>)
    ensures
        store_contains_key(seq![x] + rest, q) <==> (x.0 == q || store_contains_key(rest, q)),
{
    let t = seq![x] + rest;
    assert(t[0] == x);
    assert(forall|i: int| 0 <= i < rest.len() ==> t[i + 1] == rest[i]);
    if store_contains_key(t, q) {
        let i = choose|i: int| 0 <= i < t.len() && t[i].0 == q;
        if i > 0 {
            assert(rest[i - 1].0 == q);
        }
    }
    if x.0 == q {
        assert(t[0].0 == q);
    }
    if store_contains_key(rest, q) {
        let i = choose|i: int| 0 <= i < rest.len() && rest[i].0 == q;
        assert(t[i + 1].0 == q);
    }
}

/// Inserting into a store that does not contain the key appends the binding.
pub proof fn lemma_store_insert_fresh(s: StoreModel, k: Seq<u8>, v: Seq<u8>)
    requires
        !store_contains_key(s, k),
    ensures
        store_insert(s, k, v) == s.push((k, v)),
    decreases s.len(),
{
    if s.len() == 0 {
        assert(store_insert(s, k, v) =~= s.push((k, v)));
    } else {
        assert(s[0].0 != k);
        assert(!store_contains_key(s.drop_first(), k)) by {
            assert(forall|i: int| 0 <= i < s.drop_first().len() ==> s.drop_first()[i] == s[i
                + 1]);
        }
        lemma_store_insert_fresh(s.drop_first(), k, v);
        assert(store_insert(s, k, v) =~= s.push((k, v)));
    }
}

/// An insertion always leaves its own key present.
pub proof fn lemma_store_insert_has_key(s: StoreModel, k: Seq<u8>, v: Seq<u8>)
    ensures
        store_contains_key(store_insert(s, k, v), k),
    decreases s.len(),
{
    let t = store_insert(s, k, v);
    if s.len() == 0 {
        assert(t[0].0 == k);
    } else if s[0].0 == k {
        assert(t[0].0 == k);
    } else {
        lemma_store_insert_has_key(s.drop_first(), k, v);
        let t1 = store_insert(s.drop_first(), k, v);
        let i = choose|i: int| 0 <= i < t1.len() && t1[i].0 == k;
        assert(t[i + 1] == t1[i]);
        assert(t[i + 1].0 == k);
    }
}

/// Insertion leaves the set of keys as the old keys plus the new one; in
/// particular it preserves key uniqueness.
pub proof fn lemma_store_insert_keys(s: StoreModel, k: Seq<u8>, v: Seq<u8>)
    ensures
        forall|q: Seq<u8>| store_contains_key(store_insert(s, k, v), q) <==> (q == k
            || store_contains_key(s, q)),
        store_keys_unique(s) ==> store_keys_unique(store_insert(s, k, v)),
        store_lengths_bounded(s) && k.len() < 0x1_0000_0000 && v.len() < 0x1_0000_0000
            ==> store_lengths_bounded(store_insert(s, k, v)),
    decreases s.len(),
{
    if s.len() == 0 {
        let t = store_insert(s, k, v);
        assert(t == seq![(k, v)]);
        assert forall|q: Seq<u8>| store_contains_key(t, q) implies (q == k || store_contains_key(
            s,
            q,
        )) by {
            let i = choose|i: int| 0 <= i < t.len() && t[i].0 == q;
            assert(i == 0);
        }
        assert(t[0].0 == k);
    } else if s[0].0 == k {
        let t = store_insert(s, k, v);
        assert(t == seq![(k, v)] + s.drop_first());
        assert(t.len() == s.len());
        assert forall|i: int| 0 <= i < t.len() implies t[i].0 == s[i].0 by {
            if i == 0 {
                assert(t[0] == (k, v));
            } else {
                assert(t[i] == s.drop_first()[i - 1]);
                assert(s.drop_first()[i - 1] == s[i]);
            }
        }
        assert forall|i: int| 0 <= i < t.len() implies (t[i] == (k, v) || t[i] == s[i]) by {
            if i > 0 {
                assert(t[i] == s.drop_first()[i - 1]);
                assert(s.drop_first()[i - 1] == s[i]);
            }
        }
        assert forall|q: Seq<u8>| store_contains_key(t, q) implies (q == k || store_contains_key(
            s,
            q,
        )) by {
            let i = choose|i: int| 0 <= i < t.len() && t[i].0 == q;
            assert(s[i].0 == q);
        }
        assert forall|q: Seq<u8>| (q == k || store_contains_key(s, q)) implies store_contains_key(
            t,
            q,
        ) by {
            if q == k {
                assert(t[0].0 == q);
            } else {
                let i = choose|i: int| 0 <= i < s.len() && s[i].0 == q;
                assert(t[i].0 == q);
            }
        }
    } else {
        lemma_store_insert_keys(s.drop_first(), k, v);
        let t = store_insert(s, k, v);
        let t1 = store_insert(s.drop_first(), k, v);
        assert(t == seq![s[0]] + t1);
        assert(t[0] == s[0]);
        assert(forall|i: int| 0 <= i < t1.len() ==> t[i + 1] == t1[i]);
        assert(forall|i: int| 0 <= i < s.drop_first().len() ==> s.drop_first()[i] == s[i + 1]);
        lemma_contains_cons(s[0], t1, k);
        assert(seq![s[0]] + t1 == t);
        assert forall|q: Seq<u8>| store_contains_key(t, q) implies (q == k || store_contains_key(
            s,
            q,
        )) by {
            lemma_contains_cons(s[0], t1, q);
            if s[0].0 == q {
                assert(s[0].0 == q);
            } else {
                assert(store_contains_key(t1, q));
                if q != k {
                    assert(store_contains_key(s.drop_first(), q));
                    let i = choose|i: int|
                        0 <= i < s.drop_first().len() && s.drop_first()[i].0 == q;
                    assert(s[i + 1].0 == q);
                }
            }
        }
        assert forall|q: Seq<u8>| (q == k || store_contains_key(s, q)) implies store_contains_key(
            t,
            q,
        ) by {
            lemma_contains_cons(s[0], t1, q);
            if q == k {
                lemma_store_insert_has_key(s.drop_first(), k, v);
                assert(store_contains_key(t1, q));
            } else {
                let i = choose|i: int| 0 <= i < s.len() && s[i].0 == q;
                if i == 0 {
                    assert(s[0].0 == q);
                } else {
                    assert(s.drop_first()[i - 1].0 == q);
                    assert(store_contains_key(s.drop_first(), q));
                    assert(store_contains_key(t1, q));
                }
            }
        }
        if store_keys_unique(s) {
            assert(store_keys_unique(s.drop_first())) by {
                assert(forall|i: int, j: int| 0 <= i < j < s.drop_first().len()
                    ==> s.drop_first()[i] == s[i + 1] && s.drop_first()[j] == s[j + 1]);
            }
            assert(store_keys_unique(t1));
            assert(!store_contains_key(s.drop_first(), s[0].0)) by {
                if store_contains_key(s.drop_first(), s[0].0) {
                    let i = choose|i: int|
                        0 <= i < s.drop_first().len() && s.drop_first()[i].0 == s[0].0;
                    assert(s[i + 1].0 == s[0].0);
                }
            }
            assert(!store_contains_key(t1, s[0].0));
            assert forall|i: int, j: int| 0 <= i < j < t.len() implies t[i].0 != t[j].0 by {
                if i == 0 {
                    assert(t[j] == t1[j - 1]);
                    if t[0].0 == t[j].0 {
                        assert(t1[j - 1].0 == s[0].0);
                        assert(store_contains_key(t1, s[0].0));
                    }
                } else {
                    assert(t[i] == t1[i - 1] && t[j] == t1[j - 1]);
                }
            }
        }
        if store_lengths_bounded(s) && k.len() < 0x1_0000_0000 && v.len() < 0x1_0000_0000 {
            assert(store_lengths_bounded(s.drop_first())) by {
                assert(forall|i: int| 0 <= i < s.drop_first().len() ==> s.drop_first()[i] == s[i
                    + 1]);
            }
            assert(store_lengths_bounded(t1));
            assert forall|i: int| 0 <= i < t.len() implies #[trigger] t[i].0.len() < 0x1_0000_0000
                && t[i].1.len() < 0x1_0000_0000 by {
                if i > 0 {
                    assert(t[i] == t1[i - 1]);
                }
            }
        }
    }
}

/// What a lookup finds after an insertion: the inserted value at the
/// inserted key, the old binding elsewhere.
pub proof fn lemma_store_insert_get(s: StoreModel, k: Seq<u8>, v: Seq<u8>, q: Seq<u8>)
    ensures
        store_get(store_insert(s, k, v), q) == if q == k {
            Some(v)
        } else {
            store_get(s, q)
        },
    decreases s.len(),
{
    let t = store_insert(s, k, v);
    if s.len() == 0 {
        assert(t == seq![(k, v)]);
        assert(t[0] == (k, v));
        assert(t.drop_first() =~= Seq::<(Seq<u8>, Seq<u8>)>::empty());
        if q == k {
            assert(store_get(t, q) == Some(v));
        } else {
            assert(store_get(t, q) == store_get(t.drop_first(), q));
            assert(store_get(t, q) is None);
        }
    } else if s[0].0 == k {
        assert(t == seq![(k, v)] + s.drop_first());
        assert(t[0] == (k, v));
        assert(t.drop_first() =~= s.drop_first());
        if q == k {
            assert(store_get(t, q) == Some(v));
        } else {
            assert(store_get(t, q) == store_get(t.drop_first(), q));
            assert(store_get(s, q) == store_get(s.drop_first(), q));
        }
    } else {
        assert(t == seq![s[0]] + store_insert(s.drop_first(), k, v));
        assert(t[0] == s[0]);
        assert(t.drop_first() =~= store_insert(s.drop_first(), k, v));
        lemma_store_insert_get(s.drop_first(), k, v, q);
        if s[0].0 == q {
            assert(store_get(t, q) == Some(t[0].1));
            assert(store_get(s, q) == Some(s[0].1));
        } else {
            assert(store_get(t, q) == store_get(t.drop_first(), q));
            assert(store_get(s, q) == store_get(s.drop_first(), q));
        }
    }
}

/// Insertion grows a store by at most one binding.
pub proof fn lemma_store_insert_len(s: StoreModel, k: Seq<u8>, v: Seq<u8>)
    ensures
        s.len() <= store_insert(s, k, v).len() <= s.len() + 1,
    decreases s.len(),
{
    if s.len() == 0 {
    } else if s[0].0 == k {
    } else {
        lemma_store_insert_len(s.drop_first(), k, v);
    }
}

/// Inserting a well-formed batch into a well-formed store yields a
/// well-formed store no larger than the two together.
pub proof fn lemma_store_insert_all_wf(s: StoreModel, es: StoreModel)
    requires
        store_keys_unique(s),
        store_lengths_bounded(s),
        store_lengths_bounded(es),
    ensures
        store_keys_unique(store_insert_all(s, es)),
        store_lengths_bounded(store_insert_all(s, es)),
        store_insert_all(s, es).len() <= s.len() + es.len(),
    decreases es.len(),
{
    if es.len() == 0 {
    } else {
        let e = es[0];
        assert(e.0.len() < 0x1_0000_0000 && e.1.len() < 0x1_0000_0000);
        lemma_store_insert_keys(s, e.0, e.1);
        lemma_store_insert_len(s, e.0, e.1);
        assert(store_lengths_bounded(es.drop_first())) by {
            assert(forall|i: int| 0 <= i < es.drop_first().len() ==> es.drop_first()[i] == es[i
                + 1]);
        }
        lemma_store_insert_all_wf(store_insert(s, e.0, e.1), es.drop_first());
    }
}

/// A prefix of a well-formed binding sequence is well-formed.
pub proof fn lemma_store_prefix_wf(s: StoreModel, n: int)
    requires
        0 <= n <= s.len(),
        store_keys_unique(s),
        store_lengths_bounded(s),
    ensures
        store_keys_unique(s.take(n)),
        store_lengths_bounded(s.take(n)),
{
    assert(forall|i: int| 0 <= i < n ==> s.take(n)[i] == s[i]);
}

/// Inserting a batch and then one more binding is inserting the extended
/// batch.
pub proof fn lemma_store_insert_all_snoc(s: StoreModel, es: StoreModel, e: (Seq<u8>, Seq<u8>))
    ensures
        store_insert_all(s, es.push(e)) == store_insert(store_insert_all(s, es), e.0, e.1),
    decreases es.len(),
{
    let p = es.push(e);
    if es.len() == 0 {
        assert(p[0] == e);
        assert(p.drop_first() =~= Seq::<(Seq<u8>, Seq<u8>)>::empty());
        assert(store_insert_all(store_insert(s, e.0, e.1), p.drop_first()) == store_insert(
            s,
            e.0,
            e.1,
        ));
    } else {
        assert(p[0] == es[0]);
        assert(p.drop_first() =~= es.drop_first().push(e));
        lemma_store_insert_all_snoc(store_insert(s, es[0].0, es[0].1), es.drop_first(), e);
    }
}

/// Replaying a store's own bindings into an empty store rebuilds it
/// binding for binding, provided its keys are distinct.
pub proof fn lemma_store_rebuild(acc: StoreModel, es: StoreModel)
    requires
        store_keys_unique(acc + es),
    ensures
        store_insert_all(acc, es) == acc + es,
    decreases es.len(),
{
    if es.len() == 0 {
        assert(store_insert_all(acc, es) =~= acc + es);
    } else {
        let e = es[0];
        let whole = acc + es;
        assert(whole[acc.len() as int] == e);
        assert(!store_contains_key(acc, e.0)) by {
            if store_contains_key(acc, e.0) {
                let i = choose|i: int| 0 <= i < acc.len() && acc[i].0 == e.0;
                assert(whole[i] == acc[i]);
            }
        }
        lemma_store_insert_fresh(acc, e.0, e.1);
        assert(acc.push(e) + es.drop_first() =~= acc + es);
        lemma_store_rebuild(acc.push(e), es.drop_first());
    }
}

/// Exact byte-for-byte equality of two byte vectors.
pub fn bytes_eq(a: &Vec<u8>, b: &Vec<u8>) -> (r: bool)
    ensures
        r == (a@ == b@),
{
    if a.len() != b.len() {
        return false;
    }
    let mut i: usize = 0;
    while i < a.len()
        invariant
            0 <= i <= a.len(),
            a.len() == b.len(),
            forall|j: int| 0 <= j < i ==> a@[j] == b@[j],
        decreases a.len() - i,
    {
        if a[i] != b[i] {
            return false;
        }
        i += 1;
    }
    proof {
        assert(a@ =~= b@);
    }
    true
}

/// The executable store. Its value is the sequence of bindings it holds.
pub struct Store {
    pub entries: Vec<StoreEntry>,
}

impl View for Store {
    type V = StoreModel;

    open spec fn view(&self) -> StoreModel {
        self.entries.deep_view()
    }
}

/// How the store's value relates to the vector it is kept in: binding by
/// binding, each byte vector by its byte sequence.
pub proof fn lemma_entries_view(v: Vec<StoreEntry>)
    ensures
        v.deep_view().len() == v@.len(),
        forall|j: int| 0 <= j < v@.len() ==> v.deep_view()[j] == (v@[j].0@, v@[j].1@),
{
    assert forall|j: int| 0 <= j < v@.len() implies v.deep_view()[j] == (v@[j].0@, v@[j].1@) by {
        assert(v@[j].0.deep_view() =~= v@[j].0@);
        assert(v@[j].1.deep_view() =~= v@[j].1@);
    }
}

impl Store {
    /// An empty store.
    pub fn new() -> (s: Store)
        ensures
            s@ == Seq::<(Seq<u8>, Seq<u8>)>::empty(),
    {
        let s = Store { entries: Vec::new() };
        proof {
            assert(s@ =~= Seq::<(Seq<u8>, Seq<u8>)>::empty());
        }
        s
    }

    /// Look up the value bound to `key`, cloned out of the store.
    pub fn get(&self, key: &Vec<u8>) -> (r: Option<Vec<u8>>)
        ensures
            r matches Some(v) ==> store_get(self@, key@) == Some(v@),
            r is None ==> store_get(self@, key@) is None,
    {
        proof {
            lemma_entries_view(self.entries);
            assert(self@.skip(0) =~= self@);
        }
        let n = self.entries.len();
        let mut i: usize = 0;
        while i < n
            invariant
                0 <= i <= n,
                n == self.entries.len(),
                self@.len() == n,
                forall|j: int| 0 <= j < n ==> self@[j] == (self.entries@[j].0@,
                    self.entries@[j].1@),
                store_get(self@.skip(i as int), key@) == store_get(self@, key@),
                forall|j: int| 0 <= j < i ==> self@[j].0 != key@,
            decreases n - i,
        {
            proof {
                assert(self@.skip(i as int)[0] == self@[i as int]);
                assert(self@.skip(i as int).drop_first() =~= self@.skip(i as int + 1));
            }
            if bytes_eq(&self.entries[i].0, key) {
                return Some(self.entries[i].1.clone());
            }
            i += 1;
        }
        proof {
            assert(self@.skip(n as int) =~= Seq::<(Seq<u8>, Seq<u8>)>::empty());
        }
        None
    }

    /// How many bindings the store holds.
    pub fn len(&self) -> (n: usize)
        ensures
            n == self@.len(),
    {
        self.entries.len()
    }

    /// A copy of the binding at position `i`.
    pub fn entry_at(&self, i: usize) -> (e: (Vec<u8>, Vec<u8>))
        requires
            i < self@.len(),
        ensures
            e.0@ == self@[i as int].0,
            e.1@ == self@[i as int].1,
    {
        proof {
            lemma_entries_view(self.entries);
        }
        (self.entries[i].0.clone(), self.entries[i].1.clone())
    }

    /// Drop every binding.
    pub fn clear(&mut self) -> (r: ())
        ensures
            final(self)@ == Seq::<(Seq<u8>, Seq<u8>)>::empty(),
    {
        self.entries.clear();
        proof {
            lemma_entries_view(self.entries);
            assert(self@ =~= Seq::<(Seq<u8>, Seq<u8>)>::empty());
        }
    }

    /// Bind `key` to `value`, replacing its binding in place if present and
    /// appending it otherwise.
    pub fn insert(&mut self, key: Vec<u8>, value: Vec<u8>) -> (r: ())
        ensures
            final(self)@ == store_insert(old(self)@, key@, value@),
    {
        let ghost orig = self@;
        proof {
            lemma_entries_view(self.entries);
            assert(orig.skip(0) =~= orig);
            assert(orig.take(0) + store_insert(orig.skip(0), key@, value@) =~= store_insert(
                orig,
                key@,
                value@,
            ));
        }
        let n = self.entries.len();
        let mut i: usize = 0;
        while i < n
            invariant
                0 <= i <= n,
                n == self.entries.len(),
                self@ == orig,
                orig == old(self)@,
                orig.len() == n,
                forall|j: int| 0 <= j < n ==> self@[j] == (self.entries@[j].0@,
                    self.entries@[j].1@),
                forall|j: int| 0 <= j < i ==> orig[j].0 != key@,
                store_insert(orig, key@, value@) == orig.take(i as int) + store_insert(
                    orig.skip(i as int),
                    key@,
                    value@,
                ),
            decreases n - i,
        {
            proof {
                assert(orig.skip(i as int)[0] == orig[i as int]);
                assert(orig.skip(i as int).drop_first() =~= orig.skip(i as int + 1));
            }
            if bytes_eq(&self.entries[i].0, &key) {
                proof {
                    let rest = orig.skip(i as int);
                    assert(store_insert(rest, key@, value@) =~= seq![(key@, value@)]
                        + rest.drop_first());
                    assert(store_insert(orig, key@, value@) =~= orig.update(
                        i as int,
                        (key@, value@),
                    ));
                }
                self.entries.set(i, (key, value));
                proof {
                    lemma_entries_view(self.entries);
                    assert(self@ =~= orig.update(i as int, (key@, value@)));
                    assert(orig == old(self)@);
                    assert(store_insert(orig, key@, value@) == orig.update(
                        i as int,
                        (key@, value@),
                    ));
                    assert(self@ == store_insert(old(self)@, key@, value@));
                }
                return ;
            }
            proof {
                let rest = orig.skip(i as int);
                assert(store_insert(rest, key@, value@) =~= seq![rest[0]] + store_insert(
                    rest.drop_first(),
                    key@,
                    value@,
                ));
                assert(orig.take(i as int) + seq![orig[i as int]] =~= orig.take(i as int + 1));
                assert(orig.take(i as int) + store_insert(rest, key@, value@) =~= orig.take(
                    i as int + 1,
                ) + store_insert(orig.skip(i as int + 1), key@, value@));
            }
            i += 1;
        }
        proof {
            assert(orig.skip(n as int) =~= Seq::<(Seq<u8>, Seq<u8>)>::empty());
            assert(store_insert(orig, key@, value@) =~= orig.push((key@, value@)));
        }
        self.entries.push((key, value));
        proof {
            lemma_entries_view(self.entries);
            assert(self@ =~= orig.push((key@, value@)));
        }
    }
}

} // verus!

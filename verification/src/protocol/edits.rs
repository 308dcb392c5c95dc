//! Staged setting edits: a map from setting id to the value the user wants,
//! kept ordered by id.
use vstd::prelude::*;

use crate::protocol::registry::{FieldValue, FieldValueModel};
use crate::text::chars_of;

verus! {

/// Lexicographic order on character sequences (a proper prefix comes first).
pub open spec fn chars_lt(a: Seq<char>, b: Seq<char>) -> bool
    decreases a.len(),
{
    if a.len() == 0 {
        b.len() > 0
    } else if b.len() == 0 {
        false
    } else if a[0] != b[0] {
        a[0] < b[0]
    } else {
        chars_lt(a.drop_first(), b.drop_first())
    }
}

/// The order is strict and total.
pub proof fn lemma_chars_lt_total(a: Seq<char>, b: Seq<char>)
    ensures
        !(chars_lt(a, b) && chars_lt(b, a)),
        a != b ==> chars_lt(a, b) || chars_lt(b, a),
        !chars_lt(a, a),
    decreases a.len(),
{
    if a.len() > 0 && b.len() > 0 && a[0] == b[0] {
        lemma_chars_lt_total(a.drop_first(), b.drop_first());
        if a != b {
            assert(a.drop_first() != b.drop_first()) by {
                if a.drop_first() == b.drop_first() {
                    assert(a =~= seq![a[0]] + a.drop_first());
                    assert(b =~= seq![b[0]] + b.drop_first());
                }
            }
        }
    }
    if a.len() > 0 {
        lemma_chars_lt_total(a.drop_first(), a.drop_first());
    }
    if a.len() == 0 && b.len() == 0 {
        assert(a =~= b);
    }
}

/// The order is transitive.
pub proof fn lemma_chars_lt_trans(a: Seq<char>, b: Seq<char>, c: Seq<char>)
    requires
        chars_lt(a, b),
        chars_lt(b, c),
    ensures
        chars_lt(a, c),
    decreases a.len(),
{
    if a.len() > 0 && b.len() > 0 && c.len() > 0 && a[0] == b[0] && b[0] == c[0] {
        lemma_chars_lt_trans(a.drop_first(), b.drop_first(), c.drop_first());
    }
}

/// Comparing from position `i` on decides the order when the first `i`
/// characters agree.
proof fn lemma_chars_lt_skip(a: Seq<char>, b: Seq<char>, i: int)
    requires
        0 <= i <= a.len(),
        i <= b.len(),
        forall|j: int| 0 <= j < i ==> a[j] == b[j],
    ensures
        chars_lt(a, b) == chars_lt(a.subrange(i, a.len() as int), b.subrange(i, b.len() as int)),
    decreases i,
{
    if i > 0 {
        lemma_chars_lt_skip(a.drop_first(), b.drop_first(), i - 1);
        assert(a.drop_first().subrange(i - 1, a.len() - 1) =~= a.subrange(i, a.len() as int));
        assert(b.drop_first().subrange(i - 1, b.len() - 1) =~= b.subrange(i, b.len() as int));
    } else {
        assert(a.subrange(0, a.len() as int) =~= a);
        assert(b.subrange(0, b.len() as int) =~= b);
    }
}

/// Whether `a` comes strictly before `b`.
pub fn chars_less(a: &Vec<char>, b: &Vec<char>) -> (r: bool)
    ensures
        r == chars_lt(a@, b@),
{
    let mut i: usize = 0;
    while i < a.len() && i < b.len()
        invariant
            i <= a@.len(),
            i <= b@.len(),
            forall|j: int| 0 <= j < i ==> a@[j] == b@[j],
        decreases a@.len() - i,
    {
        if a[i] != b[i] {
            proof {
                lemma_chars_lt_skip(a@, b@, i as int);
                let sa = a@.subrange(i as int, a@.len() as int);
                let sb = b@.subrange(i as int, b@.len() as int);
                assert(sa[0] == a@[i as int]);
                assert(sb[0] == b@[i as int]);
            }
            return a[i] < b[i];
        }
        i = i + 1;
    }
    proof {
        lemma_chars_lt_skip(a@, b@, i as int);
    }
    i < b.len()
}

/// The keys of a list of entries, in order.
pub open spec fn entry_keys(es: Seq<(String, FieldValue)>) -> Seq<Seq<char>> {
    es.map_values(|e: (String, FieldValue)| e.0@)
}

/// Whether a list of entries is strictly ordered by key.
pub open spec fn keys_sorted(keys: Seq<Seq<char>>) -> bool {
    forall|i: int, j: int| 0 <= i < j < keys.len() ==> chars_lt(#[trigger] keys[i], #[trigger] keys[j])
}

/// The map that a list of entries with distinct keys stands for.
pub open spec fn entries_map(es: Seq<(String, FieldValue)>) -> Map<Seq<char>, FieldValueModel> {
    Map::new(
        |k: Seq<char>| entry_keys(es).contains(k),
        |k: Seq<char>| es[entry_keys(es).index_of(k)].1@,
    )
}

/// Staged edits: setting ids mapped to the values the user wants, kept in
/// increasing order of id.
#[derive(Debug)]
pub struct StagedEdits {
    entries: Vec<(String, FieldValue)>,
}

impl View for StagedEdits {
    type V = Map<Seq<char>, FieldValueModel>;

    closed spec fn view(&self) -> Map<Seq<char>, FieldValueModel> {
        entries_map(self.entries@)
    }
}

/// In a strictly sorted key list, a key occurs at one index only.
proof fn lemma_sorted_unique(keys: Seq<Seq<char>>, i: int, j: int)
    requires
        keys_sorted(keys),
        0 <= i < keys.len(),
        0 <= j < keys.len(),
        keys[i] == keys[j],
    ensures
        i == j,
{
    if i < j {
        lemma_chars_lt_total(keys[i], keys[j]);
    } else if j < i {
        lemma_chars_lt_total(keys[j], keys[i]);
    }
}

impl StagedEdits {
    #[verifier::type_invariant]
    closed spec fn sorted(&self) -> bool {
        keys_sorted(entry_keys(self.entries@))
    }

    /// The ids in increasing order, with the staged values.
    pub closed spec fn ordered(&self) -> Seq<(Seq<char>, FieldValueModel)> {
        self.entries@.map_values(|e: (String, FieldValue)| (e.0@, e.1@))
    }

    /// No edits.
    pub fn new() -> (r: Self)
        ensures
            r@ == Map::<Seq<char>, FieldValueModel>::empty(),
    {
        let r = StagedEdits { entries: Vec::new() };
        assert(r@ =~= Map::<Seq<char>, FieldValueModel>::empty());
        r
    }

    /// The index of `key`, if it is staged.
    fn find(&self, key: &Vec<char>) -> (r: Option<usize>)
        ensures
            match r {
                Some(i) => i < self.entries@.len() && entry_keys(self.entries@)[i as int] == key@,
                None => !entry_keys(self.entries@).contains(key@),
            },
    {
        let ghost keys = entry_keys(self.entries@);
        let mut i: usize = 0;
        while i < self.entries.len()
            invariant
                keys == entry_keys(self.entries@),
                i <= self.entries@.len(),
                forall|j: int| 0 <= j < i ==> keys[j] != key@,
            decreases self.entries@.len() - i,
        {
            let k = chars_of(self.entries[i].0.as_str());
            if !chars_less(&k, key) && !chars_less(key, &k) {
                proof {
                    lemma_chars_lt_total(k@, key@);
                }
                return Some(i);
            }
            proof {
                lemma_chars_lt_total(k@, key@);
            }
            i = i + 1;
        }
        None
    }

    /// The staged value for `key`, if any.
    pub fn get(&self, key: &String) -> (r: Option<&FieldValue>)
        ensures
            match r {
                Some(v) => self@.contains_key(key@) && v@ == self@[key@],
                None => !self@.contains_key(key@),
            },
    {
        proof {
            use_type_invariant(self);
        }
        match self.find(&chars_of(key.as_str())) {
            Some(i) => {
                proof {
                    let keys = entry_keys(self.entries@);
                    assert(keys.contains(key@));
                    lemma_sorted_unique(keys, i as int, keys.index_of(key@));
                }
                Some(&self.entries[i].1)
            },
            None => None,
        }
    }

    /// Whether `key` has a staged value.
    pub fn contains_key(&self, key: &String) -> (r: bool)
        ensures
            r == self@.contains_key(key@),
    {
        self.get(key).is_some()
    }

    /// The number of staged edits.
    pub fn len(&self) -> (r: usize)
        ensures
            r == self@.len(),
    {
        proof {
            use_type_invariant(self);
            let keys = entry_keys(self.entries@);
            assert(keys.no_duplicates()) by {
                assert forall|i: int, j: int|
                    0 <= i < keys.len() && 0 <= j < keys.len() && i != j implies keys[i]
                    != keys[j] by {
                    if keys[i] == keys[j] {
                        lemma_sorted_unique(keys, i, j);
                    }
                }
            }
            keys.unique_seq_to_set();
            assert(self@.dom() =~= keys.to_set());
        }
        self.entries.len()
    }

    /// Whether nothing is staged.
    pub fn is_empty(&self) -> (r: bool)
        ensures
            r == (self@.len() == 0),
    {
        self.len() == 0
    }

    /// Drops every staged edit.
    pub fn clear(&mut self)
        ensures
            final(self)@ == Map::<Seq<char>, FieldValueModel>::empty(),
    {
        self.entries = Vec::new();
        assert(self@ =~= Map::<Seq<char>, FieldValueModel>::empty());
    }

    /// Takes the entries out, leaving none.
    fn take_entries(&mut self) -> (r: Vec<(String, FieldValue)>)
        ensures
            r@ == old(self).entries@,
            final(self).entries@.len() == 0,
            keys_sorted(entry_keys(r@)),
    {
        proof {
            use_type_invariant(&*self);
        }
        let mut tmp: Vec<(String, FieldValue)> = Vec::new();
        std::mem::swap(&mut tmp, &mut self.entries);
        tmp
    }

    /// Stages `value` for `key`, replacing what was staged for it.
    pub fn insert(&mut self, key: String, value: FieldValue)
        ensures
            final(self)@ == old(self)@.insert(key@, value@),
    {
        let mut es = self.take_entries();
        let ghost old_es = es@;
        let ghost keys = entry_keys(es@);
        let kc = chars_of(key.as_str());
        let mut p: usize = 0;
        while p < es.len() && chars_less(&chars_of(es[p].0.as_str()), &kc)
            invariant
                es@ == old_es,
                keys == entry_keys(es@),
                p <= es@.len(),
                kc@ == key@,
                forall|j: int| 0 <= j < p ==> chars_lt(#[trigger] keys[j], key@),
            decreases es@.len() - p,
        {
            p = p + 1;
        }
        let ghost kv = key@;
        let ghost vv = value@;
        if p < es.len() && es[p].0 == key {
            es.set(p, (key, value));
            proof {
                let nkeys = entry_keys(es@);
                assert(nkeys =~= keys);
                assert(keys[p as int] == kv);
                assert(keys.contains(kv));
                assert forall|q: Seq<char>| #![trigger nkeys.contains(q)]
                    nkeys.contains(q) implies es@[nkeys.index_of(q)].1@ == old(self)@.insert(kv, vv)[q] by {
                    let i = nkeys.index_of(q);
                    assert(keys[i] == q);
                    if q == kv {
                        lemma_sorted_unique(keys, i, p as int);
                    } else {
                        assert(i != p);
                        assert(keys.index_of(q) == i) by {
                            lemma_sorted_unique(keys, i, keys.index_of(q));
                        }
                    }
                }
                assert(entries_map(es@) =~= old(self)@.insert(kv, vv));
            }
        } else {
            proof {
                if p < es@.len() {
                    lemma_chars_lt_total(keys[p as int], kv);
                }
            }
            es.insert(p, (key, value));
            proof {
                let nkeys = entry_keys(es@);
                assert(nkeys =~= keys.insert(p as int, kv));
                assert forall|i: int, j: int| 0 <= i < j < nkeys.len() implies chars_lt(
                    #[trigger] nkeys[i],
                    #[trigger] nkeys[j],
                ) by {
                    if i < p && j > p {
                        if j - 1 > p {
                            lemma_chars_lt_trans(kv, keys[p as int], keys[j - 1]);
                        }
                        lemma_chars_lt_trans(keys[i], kv, nkeys[j]);
                    } else if i == p && j - 1 > p {
                        lemma_chars_lt_trans(kv, keys[p as int], keys[j - 1]);
                    } else if i > p {
                        assert(nkeys[i] == keys[i - 1]);
                        assert(nkeys[j] == keys[j - 1]);
                    }
                }
                assert(!keys.contains(kv)) by {
                    if keys.contains(kv) {
                        let t = keys.index_of(kv);
                        if t < p {
                            lemma_chars_lt_total(kv, kv);
                        } else if t > p {
                            lemma_chars_lt_trans(kv, keys[p as int], keys[t]);
                            lemma_chars_lt_total(kv, kv);
                        }
                    }
                }
                assert forall|q: Seq<char>| #![trigger nkeys.contains(q)]
                    nkeys.contains(q) implies es@[nkeys.index_of(q)].1@ == old(self)@.insert(kv, vv)[q] by {
                    let i = nkeys.index_of(q);
                    if q == kv {
                        lemma_sorted_unique(nkeys, i, p as int);
                    } else {
                        let t = keys.index_of(q);
                        assert(keys.contains(q)) by {
                            if i < p {
                                assert(keys[i] == q);
                            } else {
                                assert(keys[i - 1] == q);
                            }
                        }
                        let t2 = if t < p { t } else { t + 1 };
                        assert(nkeys[t2] == q);
                        lemma_sorted_unique(nkeys, i, t2);
                    }
                }
                assert forall|q: Seq<char>| nkeys.contains(q) <==> (q == kv || keys.contains(q)) by {
                    if keys.contains(q) {
                        let t = keys.index_of(q);
                        let t2 = if t < p { t } else { t + 1 };
                        assert(nkeys[t2] == q);
                    }
                    if nkeys.contains(q) && q != kv {
                        let i = nkeys.index_of(q);
                        if i < p {
                            assert(keys[i] == q);
                        } else {
                            assert(keys[i - 1] == q);
                        }
                    }
                    if q == kv {
                        assert(nkeys[p as int] == q);
                    }
                }
                assert(entries_map(es@) =~= old(self)@.insert(kv, vv));
            }
        }
        self.entries = es;
    }

    /// Drops the edit staged for `key`, handing back its value.
    pub fn remove(&mut self, key: &String) -> (r: Option<FieldValue>)
        ensures
            final(self)@ == old(self)@.remove(key@),
            match r {
                Some(v) => old(self)@.contains_key(key@) && v@ == old(self)@[key@],
                None => !old(self)@.contains_key(key@),
            },
    {
        proof {
            use_type_invariant(&*self);
        }
        match self.find(&chars_of(key.as_str())) {
            None => {
                assert(old(self)@.remove(key@) =~= old(self)@);
                None
            },
            Some(i) => {
                let mut es = self.take_entries();
                let ghost keys = entry_keys(es@);
                proof {
                    lemma_sorted_unique(keys, i as int, keys.index_of(key@));
                }
                let (_k, v) = es.remove(i);
                proof {
                    let nkeys = entry_keys(es@);
                    assert(nkeys =~= keys.remove(i as int));
                    assert forall|a: int, b: int| 0 <= a < b < nkeys.len() implies chars_lt(
                        #[trigger] nkeys[a],
                        #[trigger] nkeys[b],
                    ) by {
                        let a2 = if a < i { a } else { a + 1 };
                        let b2 = if b < i { b } else { b + 1 };
                        assert(nkeys[a] == keys[a2]);
                        assert(nkeys[b] == keys[b2]);
                    }
                    assert forall|q: Seq<char>| nkeys.contains(q) <==> (q != key@ && keys.contains(q)) by {
                        if keys.contains(q) && q != key@ {
                            let t = keys.index_of(q);
                            assert(t != i);
                            let t2 = if t < i { t } else { t - 1 };
                            assert(nkeys[t2] == q);
                        }
                        if nkeys.contains(q) {
                            let a = nkeys.index_of(q);
                            let a2 = if a < i { a } else { a + 1 };
                            assert(keys[a2] == q);
                            if q == key@ {
                                lemma_sorted_unique(keys, a2, i as int);
                            }
                        }
                    }
                    assert forall|q: Seq<char>| #![trigger nkeys.contains(q)]
                        nkeys.contains(q) implies es@[nkeys.index_of(q)].1@ == old(self)@[q] by {
                        let a = nkeys.index_of(q);
                        let a2 = if a < i { a } else { a + 1 };
                        assert(keys[a2] == q);
                        lemma_sorted_unique(keys, a2, keys.index_of(q));
                    }
                    assert(entries_map(es@) =~= old(self)@.remove(key@));
                }
                self.entries = es;
                Some(v)
            },
        }
    }

    /// The number of entries, for walking them in order.
    pub fn entry_count(&self) -> (r: usize)
        ensures
            r == self.ordered().len(),
            forall|i: int| 0 <= i < self.ordered().len() ==> self@.contains_key(#[trigger] self.ordered()[i].0)
                && self@[self.ordered()[i].0] == self.ordered()[i].1,
            forall|i: int, j: int|
                0 <= i < j < self.ordered().len() ==> chars_lt(#[trigger] self.ordered()[i].0, #[trigger] self.ordered()[j].0),
            self.ordered().len() == self@.len(),
    {
        proof {
    use_type_invariant(self);
        let keys = entry_keys(self.entries@);
        assert forall|i: int| 0 <= i < self.ordered().len() implies self@.contains_key(#[trigger] self.ordered()[i].0)
            && self@[self.ordered()[i].0] == self.ordered()[i].1 by {
            assert(keys[i] == self.ordered()[i].0);
            assert(keys.contains(keys[i]));
            lemma_sorted_unique(keys, i, keys.index_of(keys[i]));
        }
        assert forall|i: int, j: int|
            0 <= i < j < self.ordered().len() implies chars_lt(#[trigger] self.ordered()[i].0, #[trigger] self.ordered()[j].0) by {
            assert(keys[i] == self.ordered()[i].0);
            assert(keys[j] == self.ordered()[j].0);
        }
        assert(keys.no_duplicates()) by {
            assert forall|i: int, j: int|
                0 <= i < keys.len() && 0 <= j < keys.len() && i != j implies keys[i] != keys[j] by {
                if keys[i] == keys[j] {
                    lemma_sorted_unique(keys, i, j);
                }
            }
        }
        keys.unique_seq_to_set();
        assert(self@.dom() =~= keys.to_set());
    
        }
        self.entries.len()
    }

    /// The `i`-th edit in increasing order of id.
    pub fn entry_at(&self, i: usize) -> (r: (&String, &FieldValue))
        requires
            i < self.ordered().len(),
        ensures
            (r.0@, r.1@) == self.ordered()[i as int],
    {
        (&self.entries[i].0, &self.entries[i].1)
    }
}

} // verus!

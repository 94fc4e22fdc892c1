//! Tag maps: string keys to string values, kept ordered by key.
//!
//! Entries are held sorted by key, each key once, so that two maps holding
//! the same pairs hold them in the same order and serialize to the same
//! text, whatever order the tags were inserted in.
use vstd::prelude::*;
use vstd::string::*;

verus! {

/// Lexicographic order on keys, character by character.
pub open spec fn key_lt(a: Seq<char>, b: Seq<char>) -> bool
    decreases a.len(),
{
    if a.len() == 0 {
        b.len() > 0
    } else if b.len() == 0 {
        false
    } else if a[0] != b[0] {
        a[0] < b[0]
    } else {
        key_lt(a.drop_first(), b.drop_first())
    }
}

pub proof fn lemma_key_lt_irreflexive(a: Seq<char>)
    ensures
        !key_lt(a, a),
    decreases a.len(),
{
    if a.len() > 0 {
        lemma_key_lt_irreflexive(a.drop_first());
    }
}

pub proof fn lemma_key_lt_transitive(a: Seq<char>, b: Seq<char>, c: Seq<char>)
    requires
        key_lt(a, b),
        key_lt(b, c),
    ensures
        key_lt(a, c),
    decreases a.len(),
{
    if a.len() > 0 && b.len() > 0 && c.len() > 0 && a[0] == b[0] && b[0] == c[0] {
        lemma_key_lt_transitive(a.drop_first(), b.drop_first(), c.drop_first());
    }
}

pub proof fn lemma_key_lt_total(a: Seq<char>, b: Seq<char>)
    requires
        a != b,
    ensures
        key_lt(a, b) || key_lt(b, a),
    decreases a.len(),
{
    if a.len() > 0 && b.len() > 0 && a[0] == b[0] {
        assert(a =~= seq![a[0]] + a.drop_first());
        assert(b =~= seq![b[0]] + b.drop_first());
        lemma_key_lt_total(a.drop_first(), b.drop_first());
    } else if a.len() > 0 && b.len() > 0 {
    } else if a.len() == 0 && b.len() == 0 {
        assert(a =~= b);
    }
}

/// The pairs of `s`, as character sequences.
pub open spec fn pairs_view(s: Seq<(String, String)>) -> Seq<(Seq<char>, Seq<char>)> {
    s.map_values(|p: (String, String)| (p.0@, p.1@))
}

/// Whether the keys of `s` strictly increase.
pub open spec fn sorted_by_key(s: Seq<(Seq<char>, Seq<char>)>) -> bool {
    forall|i: int, j: int| 0 <= i < j < s.len() ==> key_lt(s[i].0, s[j].0)
}

/// The text of `s`: `key:value` for each pair, separated by commas.
pub open spec fn serialized(s: Seq<(Seq<char>, Seq<char>)>) -> Seq<char>
    decreases s.len(),
{
    if s.len() == 0 {
        Seq::empty()
    } else if s.len() == 1 {
        s[0].0 + seq![':'] + s[0].1
    } else {
        serialized(s.drop_last()) + seq![','] + s.last().0 + seq![':'] + s.last().1
    }
}

/// An ordered mapping from tag keys to tag values.
#[derive(Clone, Debug, PartialEq, Eq)]
pub struct TagMap {
    entries: Vec<(String, String)>,
}

impl View for TagMap {
    type V = Seq<(Seq<char>, Seq<char>)>;

    /// The entries, sorted by key.
    closed spec fn view(&self) -> Seq<(Seq<char>, Seq<char>)> {
        pairs_view(self.entries@)
    }
}

/// Whether `a` comes before `b` in key order.
pub fn key_less(a: &String, b: &String) -> (r: bool)
    ensures
        r == key_lt(a@, b@),
{
    let sa = a.as_str();
    let sb = b.as_str();
    let la = sa.unicode_len();
    let lb = sb.unicode_len();
    let mut i: usize = 0;
    assert(a@.skip(0) =~= a@);
    assert(b@.skip(0) =~= b@);
    while i < la && i < lb
        invariant
            la == a@.len(),
            lb == b@.len(),
            sa@ == a@,
            sb@ == b@,
            i <= la,
            i <= lb,
            key_lt(a@, b@) == key_lt(a@.skip(i as int), b@.skip(i as int)),
        decreases la - i,
    {
        let ca = sa.get_char(i);
        let cb = sb.get_char(i);
        proof {
            let ra = a@.skip(i as int);
            let rb = b@.skip(i as int);
            assert(ra[0] == ca);
            assert(rb[0] == cb);
            assert(ra.drop_first() =~= a@.skip(i + 1));
            assert(rb.drop_first() =~= b@.skip(i + 1));
        }
        if ca != cb {
            return ca < cb;
        }
        i = i + 1;
    }
    i < lb
}

impl TagMap {
    pub open spec fn wf(&self) -> bool {
        sorted_by_key(self@)
    }

    /// A map with no tags.
    pub fn new() -> (r: TagMap)
        ensures
            r.wf(),
            r@ == Seq::<(Seq<char>, Seq<char>)>::empty(),
    {
        let r = TagMap { entries: Vec::new() };
        assert(r@ =~= Seq::<(Seq<char>, Seq<char>)>::empty());
        r
    }

    /// The entries, in key order.
    pub fn pairs(&self) -> (r: &Vec<(String, String)>)
        ensures
            pairs_view(r@) == self@,
    {
        &self.entries
    }

    /// The number of tags.
    pub fn len(&self) -> (r: usize)
        ensures
            r == self@.len(),
    {
        self.entries.len()
    }

    /// The value of `key`, if the map holds it.
    pub fn get(&self, key: &String) -> (r: Option<String>)
        requires
            self.wf(),
        ensures
            r is None <==> forall|i: int| 0 <= i < self@.len() ==> self@[i].0 != key@,
            r matches Some(v) ==> exists|i: int| 0 <= i < self@.len() && self@[i] == (key@, v@),
    {
        let mut i: usize = 0;
        while i < self.entries.len()
            invariant
                i <= self@.len(),
                forall|j: int| 0 <= j < i ==> self@[j].0 != key@,
            decreases self.entries.len() - i,
        {
            if self.entries[i].0 == *key {
                let v = self.entries[i].1.clone();
                assert(self@[i as int] == (key@, v@));
                return Some(v);
            }
            i = i + 1;
        }
        None
    }

    /// Set `key` to `value`, replacing the value it had.
    pub fn insert(&mut self, key: String, value: String)
        requires
            old(self).wf(),
        ensures
            final(self).wf(),
            final(self)@.to_set() == old(self)@.to_set().filter(|p: (Seq<char>, Seq<char>)| p.0 != key@).insert(
                (key@, value@),
            ),
    {
        let ghost s = self@;
        let mut i: usize = 0;
        while i < self.entries.len() && key_less(&self.entries[i].0, &key)
            invariant
                self@ == s,
                sorted_by_key(s),
                i <= s.len(),
                forall|j: int| 0 <= j < i ==> key_lt(#[trigger] s[j].0, key@),
            decreases self.entries.len() - i,
        {
            i = i + 1;
        }
        let ghost p = (key@, value@);
        if i < self.entries.len() && self.entries[i].0 == key {
            self.entries.set(i, (key, value));
            proof {
                assert(self@ =~= s.update(i as int, p));
                assert forall|a: int, b: int| 0 <= a < b < self@.len() implies key_lt(self@[a].0, self@[b].0) by {
                    assert(self@[a].0 == s[a].0);
                    assert(self@[b].0 == s[b].0);
                }
                assert forall|q: (Seq<char>, Seq<char>)| #[trigger] self@.to_set().contains(q) == s.to_set().filter(
                    |p: (Seq<char>, Seq<char>)| p.0 != key@,
                ).insert(p).contains(q) by {
                    if self@.contains(q) {
                        let k = choose|k: int| 0 <= k < self@.len() && self@[k] == q;
                        if k != i {
                            assert(s[k] == q);
                            if k < i {
                                assert(key_lt(s[k].0, s[i as int].0));
                            } else {
                                assert(key_lt(s[i as int].0, s[k].0));
                            }
                            lemma_key_lt_irreflexive(key@);
                        }
                    }
                    if s.contains(q) && q.0 != key@ {
                        let k = choose|k: int| 0 <= k < s.len() && s[k] == q;
                        assert(self@[k] == q);
                    }
                    if q == p {
                        assert(self@[i as int] == q);
                    }
                }
                assert(self@.to_set() =~= s.to_set().filter(|p: (Seq<char>, Seq<char>)| p.0 != key@).insert(p));
            }
        } else {
            proof {
                if i < s.len() {
                    lemma_key_lt_total(s[i as int].0, key@);
                }
            }
            self.entries.insert(i, (key, value));
            proof {
                assert(self@ =~= s.insert(i as int, p));
                assert forall|a: int, b: int| 0 <= a < b < self@.len() implies key_lt(self@[a].0, self@[b].0) by {
                    if a < i && b > i {
                        assert(self@[b] == s[b - 1]);
                        if b - 1 > i {
                            lemma_key_lt_transitive(key@, s[i as int].0, s[b - 1].0);
                        }
                        lemma_key_lt_transitive(s[a].0, key@, s[b - 1].0);
                    } else if a == i && b > i + 1 {
                        lemma_key_lt_transitive(key@, s[i as int].0, s[b - 1].0);
                    } else if a > i {
                        assert(self@[a] == s[a - 1]);
                        assert(self@[b] == s[b - 1]);
                    }
                }
                assert forall|q: (Seq<char>, Seq<char>)| #[trigger] self@.to_set().contains(q) == s.to_set().filter(
                    |p: (Seq<char>, Seq<char>)| p.0 != key@,
                ).insert(p).contains(q) by {
                    if self@.contains(q) {
                        let k = choose|k: int| 0 <= k < self@.len() && self@[k] == q;
                        if k < i {
                            assert(s[k] == q);
                            lemma_key_lt_irreflexive(key@);
                        } else if k > i {
                            assert(s[k - 1] == q);
                            lemma_key_lt_irreflexive(key@);
                            if k - 1 > i {
                                lemma_key_lt_transitive(key@, s[i as int].0, s[k - 1].0);
                            }
                        }
                    }
                    if s.contains(q) && q.0 != key@ {
                        let k = choose|k: int| 0 <= k < s.len() && s[k] == q;
                        if k < i {
                            assert(self@[k] == q);
                        } else {
                            assert(self@[k + 1] == q);
                        }
                    }
                    if q == p {
                        assert(self@[i as int] == q);
                    }
                }
                assert(self@.to_set() =~= s.to_set().filter(|p: (Seq<char>, Seq<char>)| p.0 != key@).insert(p));
            }
        }
    }

    /// The tags as text: `key:value` for each, in key order, separated by
    /// commas.
    pub fn serialize(&self) -> (r: String)
        ensures
            r@ == serialized(self@),
    {
        let mut out = String::new();
        let mut i: usize = 0;
        while i < self.entries.len()
            invariant
                i <= self@.len(),
                out@ == serialized(self@.take(i as int)),
            decreases self.entries.len() - i,
        {
            let ghost pre = self@.take(i as int);
            let ghost cur = self@.take(i + 1);
            proof {
                reveal_strlit(",");
                reveal_strlit(":");
                assert(cur.drop_last() =~= pre);
                assert(cur.last() == self@[i as int]);
                assert(self@[i as int] == (self.entries@[i as int].0@, self.entries@[i as int].1@));
            }
            if i > 0 {
                out.append(",");
            }
            out.append(self.entries[i].0.as_str());
            out.append(":");
            out.append(self.entries[i].1.as_str());
            proof {
                if i == 0 {
                    assert(pre.len() == 0);
                    assert(out@ =~= serialized(cur));
                } else {
                    assert(out@ =~= serialized(cur));
                }
            }
            i = i + 1;
        }
        assert(self@.take(i as int) =~= self@);
        out
    }
}

/// Two sequences sorted strictly by key that hold the same pairs are the
/// same sequence.
pub proof fn lemma_sorted_pairs_determined(a: Seq<(Seq<char>, Seq<char>)>, b: Seq<(Seq<char>, Seq<char>)>)
    requires
        sorted_by_key(a),
        sorted_by_key(b),
        a.to_set() == b.to_set(),
    ensures
        a == b,
    decreases a.len(),
{
    if a.len() == 0 {
        if b.len() > 0 {
            assert(b.to_set().contains(b[0]));
        }
        assert(a =~= b);
    } else {
        if b.len() == 0 {
            assert(a.to_set().contains(a[0]));
        }
        assert(a.to_set().contains(a[0]));
        assert(b.to_set().contains(b[0]));
        let j = choose|j: int| 0 <= j < b.len() && b[j] == a[0];
        let i = choose|i: int| 0 <= i < a.len() && a[i] == b[0];
        if j > 0 {
            lemma_key_lt_irreflexive(a[0].0);
            if i > 0 {
                lemma_key_lt_transitive(a[0].0, a[i].0, a[0].0);
            }
        }
        assert(a[0] == b[0]);
        let ta = a.drop_first();
        let tb = b.drop_first();
        assert forall|q: (Seq<char>, Seq<char>)| ta.to_set().contains(q) == tb.to_set().contains(q) by {
            if ta.contains(q) {
                let k = choose|k: int| 0 <= k < ta.len() && ta[k] == q;
                assert(a[k + 1] == q);
                assert(b.to_set().contains(q));
                let m = choose|m: int| 0 <= m < b.len() && b[m] == q;
                lemma_key_lt_irreflexive(a[0].0);
                if m == 0 {
                    assert(key_lt(a[0].0, a[k + 1].0));
                }
                assert(tb[m - 1] == q);
            }
            if tb.contains(q) {
                let k = choose|k: int| 0 <= k < tb.len() && tb[k] == q;
                assert(b[k + 1] == q);
                assert(a.to_set().contains(q));
                let m = choose|m: int| 0 <= m < a.len() && a[m] == q;
                lemma_key_lt_irreflexive(b[0].0);
                if m == 0 {
                    assert(key_lt(b[0].0, b[k + 1].0));
                }
                assert(ta[m - 1] == q);
            }
        }
        assert(ta.to_set() =~= tb.to_set());
        lemma_sorted_pairs_determined(ta, tb);
        assert(a =~= seq![a[0]] + ta);
        assert(b =~= seq![b[0]] + tb);
    }
}

/// Two well-formed tag maps that hold the same key-value pairs serialize to
/// the same text.
pub proof fn lemma_serialization_canonical(x: TagMap, y: TagMap)
    requires
        x.wf(),
        y.wf(),
        x@.to_set() == y@.to_set(),
    ensures
        serialized(x@) == serialized(y@),
{
    lemma_sorted_pairs_determined(x@, y@);
}

} // verus!

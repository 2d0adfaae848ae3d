use vstd::prelude::*;

verus! {

/// Strict lexicographic order on strings, by code point; the order in which
/// `String`'s `Ord` compares (UTF-8 byte order agrees with code point order).
pub open spec fn str_lt(a: Seq<char>, b: Seq<char>) -> bool
    decreases a.len(),
{
    if b.len() == 0 {
        false
    } else if a.len() == 0 {
        true
    } else if (a[0] as int) < (b[0] as int) {
        true
    } else if a[0] == b[0] {
        str_lt(a.drop_first(), b.drop_first())
    } else {
        false
    }
}

pub proof fn lemma_str_lt_irreflexive(a: Seq<char>)
    ensures
        !str_lt(a, a),
    decreases a.len(),
{
    if a.len() > 0 {
        lemma_str_lt_irreflexive(a.drop_first());
    }
}

pub proof fn lemma_str_lt_trichotomy(a: Seq<char>, b: Seq<char>)
    ensures
        a == b || str_lt(a, b) || str_lt(b, a),
        !(str_lt(a, b) && str_lt(b, a)),
    decreases a.len(),
{
    if a.len() > 0 && b.len() > 0 && a[0] == b[0] {
        lemma_str_lt_trichotomy(a.drop_first(), b.drop_first());
        if a.drop_first() == b.drop_first() {
            assert forall|k: int| 0 <= k < a.len() implies a[k] == b[k] by {
                if k > 0 {
                    assert(a[k] == a.drop_first()[k - 1]);
                    assert(b[k] == b.drop_first()[k - 1]);
                }
            }
            assert(a =~= b);
        }
    }
    if a.len() == 0 && b.len() == 0 {
        assert(a =~= b);
    }
    if a.len() > 0 && b.len() > 0 && a[0] != b[0] {
        assert((a[0] as int) != (b[0] as int));
    }
}

pub proof fn lemma_str_lt_transitive(a: Seq<char>, b: Seq<char>, c: Seq<char>)
    requires
        str_lt(a, b),
        str_lt(b, c),
    ensures
        str_lt(a, c),
    decreases a.len(),
{
    if a.len() > 0 && a[0] == b[0] && b[0] == c[0] {
        lemma_str_lt_transitive(a.drop_first(), b.drop_first(), c.drop_first());
    }
}

/// Compares two strings in the order of `str_lt`: negative, zero or positive.
pub fn compare_str(a: &str, b: &str) -> (r: i8)
    ensures
        r < 0 <==> str_lt(a@, b@),
        r == 0 <==> a@ == b@,
        r > 0 <==> str_lt(b@, a@),
{
    proof {
        lemma_str_lt_trichotomy(a@, b@);
        lemma_str_lt_irreflexive(a@);
    }
    let la = a.unicode_len();
    let lb = b.unicode_len();
    let mut i: usize = 0;
    assert(a@.skip(0) =~= a@);
    assert(b@.skip(0) =~= b@);
    while i < la && i < lb
        invariant
            la == a@.len(),
            lb == b@.len(),
            i <= la,
            i <= lb,
            a@.take(i as int) == b@.take(i as int),
            str_lt(a@, b@) == str_lt(a@.skip(i as int), b@.skip(i as int)),
            str_lt(b@, a@) == str_lt(b@.skip(i as int), a@.skip(i as int)),
        decreases la - i,
    {
        let ca = a.get_char(i);
        let cb = b.get_char(i);
        assert(a@.skip(i as int)[0] == ca);
        assert(b@.skip(i as int)[0] == cb);
        if (ca as u32) < (cb as u32) {
            return -1;
        }
        if (cb as u32) < (ca as u32) {
            return 1;
        }
        assert(ca == cb);
        assert(a@.skip(i as int).drop_first() =~= a@.skip(i + 1));
        assert(b@.skip(i as int).drop_first() =~= b@.skip(i + 1));
        assert(a@.take(i + 1) =~= a@.take(i as int).push(ca));
        assert(b@.take(i + 1) =~= b@.take(i as int).push(cb));
        i = i + 1;
    }
    if la == lb {
        assert(a@ =~= a@.take(i as int));
        assert(b@ =~= b@.take(i as int));
        0
    } else if la < lb {
        assert(a@.skip(i as int).len() == 0);
        -1
    } else {
        assert(b@.skip(i as int).len() == 0);
        1
    }
}

/// An attribute set as a sequence of (name, values) pairs.
pub type AttrPairs = Seq<(Seq<char>, Seq<Seq<char>>)>;

/// Names strictly ascending: unique, in canonical alphabetical order.
pub open spec fn keys_sorted(s: AttrPairs) -> bool {
    forall|i: int, j: int| 0 <= i < j < s.len() ==> str_lt(#[trigger] s[i].0, #[trigger] s[j].0)
}

pub open spec fn has_key(s: AttrPairs, k: Seq<char>) -> bool {
    exists|i: int| 0 <= i < s.len() && #[trigger] s[i].0 == k
}

/// The position of a pair named `k` (of one of them, were there several).
pub open spec fn key_index(s: AttrPairs, k: Seq<char>) -> int {
    choose|i: int| 0 <= i < s.len() && #[trigger] s[i].0 == k
}

/// The values of the pair named `k`.
pub open spec fn values_of(s: AttrPairs, k: Seq<char>) -> Seq<Seq<char>> {
    s[key_index(s, k)].1
}

/// The mapping from name to values that a sequence of pairs stands for.
pub open spec fn pairs_to_map(s: AttrPairs) -> Map<Seq<char>, Seq<Seq<char>>> {
    Map::new(|k: Seq<char>| has_key(s, k), |k: Seq<char>| values_of(s, k))
}

pub proof fn lemma_pairs_to_map_at(s: AttrPairs, idx: int)
    requires
        keys_sorted(s),
        0 <= idx < s.len(),
    ensures
        pairs_to_map(s).contains_key(s[idx].0),
        pairs_to_map(s)[s[idx].0] == s[idx].1,
{
    let k = s[idx].0;
    assert(has_key(s, k));
    let i = key_index(s, k);
    assert(0 <= i < s.len() && s[i].0 == k);
    assert(pairs_to_map(s).dom().contains(k));
    assert(pairs_to_map(s)[k] == values_of(s, k));
    if i < idx {
        assert(str_lt(s[i].0, s[idx].0));
        lemma_str_lt_irreflexive(k);
    } else if idx < i {
        assert(str_lt(s[idx].0, s[i].0));
        lemma_str_lt_irreflexive(k);
    }
    assert(values_of(s, k) == s[i].1);
}

/// The attributes of a directory entry: a mapping from name to an ordered
/// sequence of values, kept in canonical alphabetical order of names.
#[derive(Debug)]
pub struct Attributes {
    pairs: Vec<(String, Vec<String>)>,
}

impl View for Attributes {
    type V = AttrPairs;

    closed spec fn view(&self) -> AttrPairs {
        self.pairs.deep_view()
    }
}

impl Attributes {
    /// Names unique and in canonical alphabetical order.
    pub open spec fn wf(&self) -> bool {
        keys_sorted(self@)
    }

    /// The mapping this set stands for.
    pub open spec fn map_view(&self) -> Map<Seq<char>, Seq<Seq<char>>> {
        pairs_to_map(self@)
    }

    pub fn new() -> (r: Self)
        ensures
            r.wf(),
            r@ == Seq::<(Seq<char>, Seq<Seq<char>>)>::empty(),
    {
        let r = Attributes { pairs: Vec::new() };
        assert(r@ =~= Seq::<(Seq<char>, Seq<Seq<char>>)>::empty());
        r
    }

    /// The number of attribute names.
    pub fn len(&self) -> (r: usize)
        ensures
            r == self@.len(),
    {
        self.pairs.len()
    }

    /// The pairs in canonical order.
    pub fn pairs(&self) -> (r: &Vec<(String, Vec<String>)>)
        ensures
            r.deep_view() == self@,
    {
        &self.pairs
    }

    /// Sets the values of `name`, replacing any it had.
    pub fn insert(&mut self, name: String, values: Vec<String>)
        requires
            old(self).wf(),
        ensures
            final(self).wf(),
            final(self).map_view() == old(self).map_view().insert(name@, values.deep_view()),
    {
        let ghost s = self@;
        let ghost k = name@;
        let ghost v = values.deep_view();
        let n = self.pairs.len();
        let mut p: usize = 0;
        while p < n && compare_str(self.pairs[p].0.as_str(), name.as_str()) < 0
            invariant
                n == self.pairs@.len(),
                name@ == k,
                self@ == s,
                keys_sorted(s),
                p <= n,
                forall|i: int| 0 <= i < p ==> str_lt(#[trigger] s[i].0, k),
            decreases n - p,
        {
            assert(s[p as int].0 == self.pairs@[p as int].0@);
            p = p + 1;
        }
        let found = p < n && compare_str(self.pairs[p].0.as_str(), name.as_str()) == 0;
        if p < n {
            assert(s[p as int].0 == self.pairs@[p as int].0@);
            proof { lemma_str_lt_trichotomy(s[p as int].0, k); }
        }
        proof {
            lemma_str_lt_trichotomy(k, k);
            lemma_str_lt_irreflexive(k);
        }
        if found {
            self.pairs[p] = (name, values);
            let ghost t = self@;
            assert(t =~= s.update(p as int, (k, v)));
            assert(keys_sorted(t)) by {
                assert forall|i: int, j: int| 0 <= i < j < t.len() implies str_lt(
                    #[trigger] t[i].0,
                    #[trigger] t[j].0,
                ) by {
                    assert(str_lt(s[i].0, s[j].0));
                }
            }
            proof { self.lemma_insert_map(s, p as int, k, v, false); }
        } else {
            self.pairs.insert(p, (name, values));
            let ghost t = self@;
            assert(t =~= s.insert(p as int, (k, v)));
            assert(keys_sorted(t)) by {
                assert forall|i: int, j: int| 0 <= i < j < t.len() implies str_lt(
                    #[trigger] t[i].0,
                    #[trigger] t[j].0,
                ) by {
                    if j < p {
                        assert(str_lt(s[i].0, s[j].0));
                    } else if j == p {
                        assert(str_lt(s[i].0, k));
                    } else if i < p {
                        assert(str_lt(s[i].0, k));
                        assert(str_lt(k, s[p as int].0));
                        if j - 1 > p {
                            assert(str_lt(s[p as int].0, s[j - 1].0));
                            lemma_str_lt_transitive(k, s[p as int].0, s[j - 1].0);
                        }
                        lemma_str_lt_transitive(s[i].0, k, s[j - 1].0);
                    } else if i == p {
                        assert(str_lt(k, s[p as int].0));
                        if j - 1 > p {
                            assert(str_lt(s[p as int].0, s[j - 1].0));
                            lemma_str_lt_transitive(k, s[p as int].0, s[j - 1].0);
                        }
                    } else {
                        assert(str_lt(s[i - 1].0, s[j - 1].0));
                    }
                }
            }
            proof { self.lemma_insert_map(s, p as int, k, v, true); }
        }
    }

    proof fn lemma_insert_map(&self, s: AttrPairs, p: int, k: Seq<char>, v: Seq<Seq<char>>, fresh: bool)
        requires
            keys_sorted(s),
            self.wf(),
            0 <= p <= s.len(),
            fresh ==> self@ == s.insert(p, (k, v)),
            !fresh ==> p < s.len() && s[p].0 == k && self@ == s.update(p, (k, v)),
        ensures
            self.map_view() == pairs_to_map(s).insert(k, v),
    {
        let t = self@;
        let m = pairs_to_map(s).insert(k, v);
        let pos = |i: int| if fresh && i >= p { i + 1 } else { i };
        assert forall|kk: Seq<char>| #[trigger] m.contains_key(kk) implies pairs_to_map(t).contains_key(kk)
            && pairs_to_map(t)[kk] == m[kk] by {
            if kk == k {
                assert(t[p].0 == k);
                lemma_pairs_to_map_at(t, p);
            } else {
                assert(has_key(s, kk));
                let i = choose|i: int| 0 <= i < s.len() && #[trigger] s[i].0 == kk;
                lemma_pairs_to_map_at(s, i);
                assert(t[pos(i)] == s[i]);
                lemma_pairs_to_map_at(t, pos(i));
            }
        }
        assert forall|kk: Seq<char>| #[trigger] pairs_to_map(t).contains_key(kk) implies m.contains_key(kk) by {
            assert(has_key(t, kk));
            let j = choose|j: int| 0 <= j < t.len() && #[trigger] t[j].0 == kk;
            if kk != k {
                let i = if fresh && j > p { j - 1 } else { j };
                assert(s[i].0 == kk);
                assert(has_key(s, kk));
            }
        }
        assert(pairs_to_map(t) =~= m);
    }

    /// The values stored under exactly `name`.
    pub fn get(&self, name: &str) -> (r: Option<&Vec<String>>)
        requires
            self.wf(),
        ensures
            match r {
                Some(v) => self.map_view().contains_key(name@) && v.deep_view() == self.map_view()[name@],
                None => !self.map_view().contains_key(name@),
            },
    {
        let n = self.pairs.len();
        let mut i: usize = 0;
        while i < n
            invariant
                n == self@.len(),
                self.wf(),
                i <= n,
                forall|j: int| 0 <= j < i ==> #[trigger] self@[j].0 != name@,
            decreases n - i,
        {
            if compare_str(self.pairs[i].0.as_str(), name) == 0 {
                proof { lemma_pairs_to_map_at(self@, i as int); }
                return Some(&self.pairs[i].1);
            }
            i = i + 1;
        }
        None
    }
}

/// A copy of a sequence of values.
pub fn clone_values(v: &Vec<String>) -> (r: Vec<String>)
    ensures
        r.deep_view() == v.deep_view(),
{
    let r = v.clone();
    assert(r.deep_view() =~= v.deep_view());
    r
}

impl Attributes {
    /// An attribute set made of pairs already in canonical order.
    pub fn from_sorted(pairs: Vec<(String, Vec<String>)>) -> (r: Self)
        requires
            keys_sorted(pairs.deep_view()),
        ensures
            r.wf(),
            r@ == pairs.deep_view(),
    {
        Attributes { pairs }
    }

    /// A copy of this attribute set.
    pub fn duplicate(&self) -> (r: Self)
        requires
            self.wf(),
        ensures
            r.wf(),
            r@ == self@,
    {
        let n = self.pairs.len();
        let mut out: Vec<(String, Vec<String>)> = Vec::new();
        let mut i: usize = 0;
        while i < n
            invariant
                n == self@.len(),
                i <= n,
                out.deep_view() == self@.take(i as int),
            decreases n - i,
        {
            let name = self.pairs[i].0.clone();
            let values = clone_values(&self.pairs[i].1);
            assert(self@[i as int] == (self.pairs@[i as int].0@, self.pairs@[i as int].1.deep_view()));
            let ghost prev = out.deep_view();
            out.push((name, values));
            assert(out.deep_view() =~= prev.push(self@[i as int]));
            assert(out.deep_view() =~= self@.take(i + 1));
            i = i + 1;
        }
        assert(self@.take(n as int) =~= self@);
        Attributes { pairs: out }
    }
}

} // verus!

//! Pattern values and rules.
//!
//! A [`Value`] assigns one pattern or an ordered list of patterns to a field
//! selector. A [`Rule`] is an AND-combination of field constraints, held as
//! an association list kept strictly sorted by key so that two rules with the
//! same content always have the same representation, whatever order their
//! pairs were inserted in.

use vstd::prelude::*;
use vstd::string::*;

verus! {

/// The value assigned to a field selector: one pattern source, an ordered
/// list of pattern sources, or a plain flag (which is not a pattern and makes
/// compilation fail for the rule's filter).
#[derive(Debug, Clone)]
pub enum Value {
    Single(String),
    Multiple(Vec<String>),
    Flag(bool),
}

/// The mathematical content of a [`Value`].
pub ghost enum ValueV {
    Single(Seq<char>),
    Multiple(Seq<Seq<char>>),
    Flag(bool),
}

impl View for Value {
    type V = ValueV;

    open spec fn view(&self) -> ValueV {
        match self {
            Value::Single(s) => ValueV::Single(s@),
            Value::Multiple(ps) => ValueV::Multiple(ps.deep_view()),
            Value::Flag(b) => ValueV::Flag(*b),
        }
    }
}

/// The pattern sources a value stands for, or `None` if it is no pattern.
pub open spec fn patterns_of(v: ValueV) -> Option<Seq<Seq<char>>> {
    match v {
        ValueV::Single(s) => Some(seq![s]),
        ValueV::Multiple(ps) => Some(ps),
        ValueV::Flag(_) => None,
    }
}

/// Strict lexicographic order on key character sequences, by code point.
pub open spec fn lex_lt(a: Seq<char>, b: Seq<char>) -> bool
    decreases a.len() + b.len(),
{
    if b.len() == 0 {
        false
    } else if a.len() == 0 {
        true
    } else if a[0] != b[0] {
        (a[0] as u32) < (b[0] as u32)
    } else {
        lex_lt(a.drop_first(), b.drop_first())
    }
}

/// Distinct characters have distinct code points.
pub proof fn lemma_char_cast_injective(c: char, d: char)
    ensures
        c != d ==> (c as u32) != (d as u32),
{
}

/// `lex_lt` is irreflexive.
pub proof fn lemma_lex_irrefl(a: Seq<char>)
    ensures
        !lex_lt(a, a),
    decreases a.len(),
{
    if a.len() > 0 {
        lemma_lex_irrefl(a.drop_first());
    }
}

/// `lex_lt` is connex: two sequences are ordered one way or the other, or
/// they are equal.
pub proof fn lemma_lex_connex(a: Seq<char>, b: Seq<char>)
    ensures
        lex_lt(a, b) || lex_lt(b, a) || a =~= b,
    decreases a.len() + b.len(),
{
    if a.len() == 0 && b.len() == 0 {
        assert(a =~= b);
    } else if b.len() == 0 {
        assert(lex_lt(b, a));
    } else if a.len() == 0 {
        assert(lex_lt(a, b));
    } else if a[0] != b[0] {
        lemma_char_cast_injective(a[0], b[0]);
        if (a[0] as u32) < (b[0] as u32) {
            assert(lex_lt(a, b));
        } else {
            assert(lex_lt(b, a));
        }
    } else {
        lemma_lex_connex(a.drop_first(), b.drop_first());
        if a.drop_first() =~= b.drop_first() {
            assert forall|i: int| 0 <= i < a.len() implies a[i] == b[i] by {
                if i > 0 {
                    assert(a.drop_first()[i - 1] == a[i]);
                    assert(b.drop_first()[i - 1] == b[i]);
                }
            }
            assert(a =~= b);
        }
    }
}

/// `lex_lt` is asymmetric.
pub proof fn lemma_lex_asym(a: Seq<char>, b: Seq<char>)
    ensures
        !(lex_lt(a, b) && lex_lt(b, a)),
    decreases a.len() + b.len(),
{
    if a.len() > 0 && b.len() > 0 && a[0] == b[0] {
        lemma_lex_asym(a.drop_first(), b.drop_first());
    }
}

/// `lex_lt` is transitive.
pub proof fn lemma_lex_trans(a: Seq<char>, b: Seq<char>, c: Seq<char>)
    ensures
        lex_lt(a, b) && lex_lt(b, c) ==> lex_lt(a, c),
    decreases a.len() + b.len() + c.len(),
{
    if a.len() > 0 && b.len() > 0 && c.len() > 0 {
        lemma_lex_trans(a.drop_first(), b.drop_first(), c.drop_first());
    }
}

/// True iff `a` comes strictly before `b` in lexicographic key order.
pub fn str_lex_lt(a: &str, b: &str) -> (r: bool)
    ensures
        r == lex_lt(a@, b@),
{
    let an = a.unicode_len();
    let bn = b.unicode_len();
    let mut i: usize = 0;
    proof {
        assert(a@.skip(0) =~= a@);
        assert(b@.skip(0) =~= b@);
    }
    loop
        invariant
            i <= an,
            i <= bn,
            an == a@.len(),
            bn == b@.len(),
            forall|k: int| 0 <= k < i ==> a@[k] == b@[k],
            lex_lt(a@, b@) == lex_lt(a@.skip(i as int), b@.skip(i as int)),
        decreases an - i,
    {
        if i == bn {
            assert(b@.skip(i as int).len() == 0);
            return false;
        }
        if i == an {
            assert(a@.skip(i as int).len() == 0);
            return true;
        }
        let ca = a.get_char(i);
        let cb = b.get_char(i);
        if ca as u32 != cb as u32 {
            assert(a@.skip(i as int)[0] == a@[i as int]);
            assert(b@.skip(i as int)[0] == b@[i as int]);
            return (ca as u32) < (cb as u32);
        }
        proof {
            assert(a@.skip(i as int)[0] == a@[i as int]);
            assert(b@.skip(i as int)[0] == b@[i as int]);
            assert(a@.skip(i as int).drop_first() =~= a@.skip(i + 1));
            assert(b@.skip(i as int).drop_first() =~= b@.skip(i + 1));
        }
        i += 1;
    }
}

/// An AND-combination of field constraints: a mapping from field selectors
/// to pattern values, kept strictly sorted by selector.
#[derive(Debug, Clone)]
pub struct Rule {
    pub pairs: Vec<(String, Value)>,
}

impl View for Rule {
    type V = Seq<(Seq<char>, ValueV)>;

    open spec fn view(&self) -> Seq<(Seq<char>, ValueV)> {
        self.pairs@.map(|_i: int, p: (String, Value)| (p.0@, p.1@))
    }
}

/// The first value bound to key `k`, if any.
pub open spec fn spec_lookup(pairs: Seq<(Seq<char>, ValueV)>, k: Seq<char>) -> Option<ValueV>
    decreases pairs.len(),
{
    if pairs.len() == 0 {
        None
    } else if pairs[0].0 == k {
        Some(pairs[0].1)
    } else {
        spec_lookup(pairs.drop_first(), k)
    }
}

/// Keys strictly increase along the list.
pub open spec fn spec_sorted(pairs: Seq<(Seq<char>, ValueV)>) -> bool {
    forall|i: int, j: int| 0 <= i < j < pairs.len() ==> lex_lt(#[trigger] pairs[i].0, #[trigger] pairs[j].0)
}

impl Rule {
    /// The canonical-order invariant: selectors strictly increase.
    pub open spec fn wf(&self) -> bool {
        spec_sorted(self@)
    }

    /// An empty rule.
    pub fn new() -> (r: Rule)
        ensures
            r@ =~= Seq::<(Seq<char>, ValueV)>::empty(),
            r.wf(),
    {
        Rule { pairs: Vec::new() }
    }

    /// How many field constraints the rule holds.
    pub fn len(&self) -> (r: usize)
        ensures
            r == self@.len(),
    {
        self.pairs.len()
    }

    /// The position the key sits at or would be inserted at, and whether it
    /// is present there.
    fn find_pos(&self, key: &String) -> (r: (usize, bool))
        requires
            self.wf(),
        ensures
            r.0 <= self@.len(),
            forall|k: int| 0 <= k < r.0 ==> lex_lt(#[trigger] self@[k].0, key@),
            r.0 < self@.len() ==> !lex_lt(self@[r.0 as int].0, key@),
            r.1 <==> (r.0 < self@.len() && self@[r.0 as int].0 == key@),
    {
        let n = self.pairs.len();
        let mut i: usize = 0;
        while i < n
            invariant
                i <= n,
                n == self@.len(),
                self.wf(),
                forall|k: int| 0 <= k < i ==> lex_lt(#[trigger] self@[k].0, key@),
            decreases n - i,
        {
            if str_lex_lt(self.pairs[i].0.as_str(), key.as_str()) {
                i += 1;
            } else {
                let eq = self.pairs[i].0 == *key;
                return (i, eq);
            }
        }
        (i, false)
    }

    /// Bind `key` to `value`, replacing any existing binding, and keep the
    /// canonical order.
    pub fn insert(&mut self, key: String, value: Value)
        requires
            old(self).wf(),
        ensures
            final(self).wf(),
            spec_lookup(final(self)@, key@) == Some(value@),
            forall|k: Seq<char>| k != key@ ==> spec_lookup(final(self)@, k) == spec_lookup(
                old(self)@,
                k,
            ),
    {
        let (i, found) = self.find_pos(&key);
        let ghost old_view = self@;
        if found {
            self.pairs.remove(i);
            proof {
                assert(self@ =~= old_view.remove(i as int));
            }
        }
        let ghost mid_view = self@;
        self.pairs.insert(i, (key, value));
        proof {
            assert(self@ =~= mid_view.insert(i as int, (key@, value@)));
            self.lemma_insert_shape(old_view, mid_view, i as int, found, key@, value@);
        }
    }

    /// The sortedness and lookup facts behind [`Rule::insert`].
    proof fn lemma_insert_shape(
        &self,
        old_view: Seq<(Seq<char>, ValueV)>,
        mid_view: Seq<(Seq<char>, ValueV)>,
        i: int,
        found: bool,
        key: Seq<char>,
        value: ValueV,
    )
        requires
            spec_sorted(old_view),
            0 <= i <= old_view.len(),
            forall|k: int| 0 <= k < i ==> lex_lt(#[trigger] old_view[k].0, key),
            i < old_view.len() ==> !lex_lt(old_view[i].0, key),
            found <==> (i < old_view.len() && old_view[i].0 == key),
            mid_view == if found {
                old_view.remove(i)
            } else {
                old_view
            },
            self@ == mid_view.insert(i, (key, value)),
        ensures
            self.wf(),
            spec_lookup(self@, key) == Some(value),
            forall|k: Seq<char>| k != key ==> spec_lookup(self@, k) == spec_lookup(old_view, k),
    {
        let v = self@;
        assert forall|p: int, q: int| 0 <= p < q < v.len() implies lex_lt(v[p].0, v[q].0) by {
            if p < i && q == i {
            } else if p == i && q > i {
                let w = if found {
                    old_view[q]
                } else {
                    old_view[q - 1]
                };
                assert(v[q] == w);
                if found {
                    assert(lex_lt(key, w.0)) by {
                        assert(lex_lt(old_view[i].0, old_view[q].0));
                        assert(old_view[i].0 == key);
                    }
                } else {
                    if q - 1 == i {
                        lemma_lex_connex(old_view[i].0, key);
                    } else {
                        lemma_lex_connex(old_view[i].0, key);
                        assert(lex_lt(old_view[i].0, old_view[q - 1].0));
                        lemma_lex_trans(key, old_view[i].0, old_view[q - 1].0);
                    }
                }
            } else if p < i && q > i {
                let wp = old_view[p];
                let wq = if found {
                    old_view[q]
                } else {
                    old_view[q - 1]
                };
                assert(v[p] == wp && v[q] == wq);
                if found {
                    assert(lex_lt(wp.0, wq.0));
                } else {
                    if q - 1 == p {
                        assert(lex_lt(wp.0, key));
                        lemma_lex_connex(old_view[i].0, key);
                    } else {
                        assert(lex_lt(wp.0, wq.0));
                    }
                }
            } else if p > i && q > i {
                if found {
                    assert(v[p] == old_view[p] && v[q] == old_view[q]);
                } else {
                    assert(v[p] == old_view[p - 1] && v[q] == old_view[q - 1]);
                }
            } else if p == i && q == i {
            }
        }
        lemma_lookup_sorted_insert(old_view, v, i, found, key, value);
    }

    /// Read the value bound to `key`.
    pub fn get(&self, key: &String) -> (r: Option<&Value>)
        requires
            self.wf(),
        ensures
            match r {
                Some(v) => spec_lookup(self@, key@) == Some(v@),
                None => spec_lookup(self@, key@) is None,
            },
    {
        let (i, found) = self.find_pos(key);
        if found {
            proof {
                lemma_lookup_at(self@, i as int, key@);
            }
            Some(&self.pairs[i].1)
        } else {
            proof {
                lemma_lookup_absent(self@, i as int, key@);
            }
            None
        }
    }
}

/// Looking a key up in a sorted list finds the pair that sits at its
/// position.
proof fn lemma_lookup_at(pairs: Seq<(Seq<char>, ValueV)>, i: int, k: Seq<char>)
    requires
        spec_sorted(pairs),
        0 <= i < pairs.len(),
        pairs[i].0 == k,
    ensures
        spec_lookup(pairs, k) == Some(pairs[i].1),
    decreases i,
{
    if i > 0 {
        assert(lex_lt(pairs[0].0, k));
        lemma_lex_irrefl(k);
        assert(pairs.drop_first()[i - 1] == pairs[i]);
        assert(spec_sorted(pairs.drop_first())) by {
            assert forall|p: int, q: int|
                0 <= p < q < pairs.drop_first().len() implies lex_lt(
                #[trigger] pairs.drop_first()[p].0,
                #[trigger] pairs.drop_first()[q].0,
            ) by {
                assert(pairs.drop_first()[p] == pairs[p + 1]);
                assert(pairs.drop_first()[q] == pairs[q + 1]);
            }
        }
        lemma_lookup_at(pairs.drop_first(), i - 1, k);
    }
}

/// A key that would sit at position `i` but is not there is bound nowhere in
/// a sorted list.
proof fn lemma_lookup_absent(pairs: Seq<(Seq<char>, ValueV)>, i: int, k: Seq<char>)
    requires
        spec_sorted(pairs),
        0 <= i <= pairs.len(),
        forall|p: int| 0 <= p < i ==> lex_lt(#[trigger] pairs[p].0, k),
        i < pairs.len() ==> !lex_lt(pairs[i].0, k),
        !(i < pairs.len() && pairs[i].0 == k),
    ensures
        spec_lookup(pairs, k) is None,
    decreases pairs.len(),
{
    if pairs.len() > 0 {
        lemma_lex_irrefl(k);
        if pairs[0].0 == k {
            if i == 0 {
            } else {
                assert(lex_lt(pairs[0].0, k));
            }
            assert(false);
        }
        assert(spec_sorted(pairs.drop_first())) by {
            assert forall|p: int, q: int|
                0 <= p < q < pairs.drop_first().len() implies lex_lt(
                #[trigger] pairs.drop_first()[p].0,
                #[trigger] pairs.drop_first()[q].0,
            ) by {
                assert(pairs.drop_first()[p] == pairs[p + 1]);
                assert(pairs.drop_first()[q] == pairs[q + 1]);
            }
        }
        if i == 0 {
            // k sorts before every later key too
            lemma_lex_connex(pairs[0].0, k);
            assert(lex_lt(k, pairs[0].0));
            assert forall|p: int| 0 <= p < 0 implies lex_lt(#[trigger] pairs.drop_first()[p].0, k) by {}
            assert(pairs.drop_first().len() > 0 ==> !lex_lt(pairs.drop_first()[0].0, k)) by {
                if pairs.len() > 1 {
                    assert(pairs.drop_first()[0] == pairs[1]);
                    assert(lex_lt(pairs[0].0, pairs[1].0));
                    lemma_lex_trans(k, pairs[0].0, pairs[1].0);
                    lemma_lex_asym(k, pairs[1].0);
                }
            }
            assert(!(pairs.drop_first().len() > 0 && pairs.drop_first()[0].0 == k)) by {
                if pairs.len() > 1 {
                    assert(pairs.drop_first()[0] == pairs[1]);
                    assert(lex_lt(pairs[0].0, pairs[1].0));
                    lemma_lex_trans(k, pairs[0].0, pairs[1].0);
                    lemma_lex_irrefl(k);
                }
            }
            lemma_lookup_absent(pairs.drop_first(), 0, k);
        } else {
            assert forall|p: int| 0 <= p < i - 1 implies lex_lt(#[trigger] pairs.drop_first()[p].0, k) by {
                assert(pairs.drop_first()[p] == pairs[p + 1]);
            }
            assert(i - 1 < pairs.drop_first().len() ==> !lex_lt(pairs.drop_first()[i - 1].0, k)) by {
                if i < pairs.len() {
                    assert(pairs.drop_first()[i - 1] == pairs[i]);
                }
            }
            assert(!(i - 1 < pairs.drop_first().len() && pairs.drop_first()[i - 1].0 == k)) by {
                if i < pairs.len() {
                    assert(pairs.drop_first()[i - 1] == pairs[i]);
                }
            }
            lemma_lookup_absent(pairs.drop_first(), i - 1, k);
        }
    }
}

/// What inserting a pair at its sorted position does to every lookup.
proof fn lemma_lookup_sorted_insert(
    old_view: Seq<(Seq<char>, ValueV)>,
    v: Seq<(Seq<char>, ValueV)>,
    i: int,
    found: bool,
    key: Seq<char>,
    value: ValueV,
)
    requires
        spec_sorted(old_view),
        spec_sorted(v),
        0 <= i <= old_view.len(),
        forall|k: int| 0 <= k < i ==> lex_lt(#[trigger] old_view[k].0, key),
        i < old_view.len() ==> !lex_lt(old_view[i].0, key),
        found <==> (i < old_view.len() && old_view[i].0 == key),
        v == if found {
            old_view.remove(i).insert(i, (key, value))
        } else {
            old_view.insert(i, (key, value))
        },
    ensures
        spec_lookup(v, key) == Some(value),
        forall|k: Seq<char>| k != key ==> spec_lookup(v, k) == spec_lookup(old_view, k),
    decreases old_view.len(),
{
    assert(v[i] == (key, value));
    lemma_lookup_at(v, i, key);
    assert forall|k: Seq<char>| k != key implies spec_lookup(v, k) == spec_lookup(old_view, k) by {
        lemma_lookup_shift(old_view, v, i, found, key, value, k);
    }
}

/// Lookup of any other key is unchanged by a sorted insert.
proof fn lemma_lookup_shift(
    old_view: Seq<(Seq<char>, ValueV)>,
    v: Seq<(Seq<char>, ValueV)>,
    i: int,
    found: bool,
    key: Seq<char>,
    value: ValueV,
    k: Seq<char>,
)
    requires
        spec_sorted(old_view),
        spec_sorted(v),
        0 <= i <= old_view.len(),
        found <==> (i < old_view.len() && old_view[i].0 == key),
        v == if found {
            old_view.remove(i).insert(i, (key, value))
        } else {
            old_view.insert(i, (key, value))
        },
        k != key,
    ensures
        spec_lookup(v, k) == spec_lookup(old_view, k),
{
    if exists|p: int| 0 <= p < old_view.len() && old_view[p].0 == k {
        let p = choose|p: int| 0 <= p < old_view.len() && old_view[p].0 == k;
        lemma_lookup_at(old_view, p, k);
        if found {
            if p == i {
                assert(old_view[p].0 == key);
                assert(false);
            } else if p < i {
                assert(v[p] == old_view[p]);
                lemma_lookup_at(v, p, k);
            } else {
                assert(v[p] == old_view[p]);
                lemma_lookup_at(v, p, k);
            }
        } else {
            if p < i {
                assert(v[p] == old_view[p]);
                lemma_lookup_at(v, p, k);
            } else {
                assert(v[p + 1] == old_view[p]);
                lemma_lookup_at(v, p + 1, k);
            }
        }
    } else {
        lemma_lookup_none_of_absent(old_view, k);
        assert forall|q: int| 0 <= q < v.len() implies v[q].0 != k by {
            if q < i {
                assert(v[q] == old_view[q]);
            } else if q == i {
            } else {
                if found {
                    assert(v[q] == old_view[q]);
                } else {
                    assert(v[q] == old_view[q - 1]);
                }
            }
        }
        lemma_lookup_none_of_absent(v, k);
    }
}

/// A key bound at no position looks up to `None`.
proof fn lemma_lookup_none_of_absent(pairs: Seq<(Seq<char>, ValueV)>, k: Seq<char>)
    requires
        forall|p: int| 0 <= p < pairs.len() ==> (#[trigger] pairs[p]).0 != k,
    ensures
        spec_lookup(pairs, k) is None,
    decreases pairs.len(),
{
    if pairs.len() > 0 {
        assert forall|p: int| 0 <= p < pairs.drop_first().len() implies (#[trigger] pairs.drop_first()[p]).0
            != k by {
            assert(pairs.drop_first()[p] == pairs[p + 1]);
        }
        lemma_lookup_none_of_absent(pairs.drop_first(), k);
    }
}


/// Two canonically sorted rules that bind every key alike are the same
/// sequence of pairs.
pub proof fn lemma_sorted_lookup_unique(a: Seq<(Seq<char>, ValueV)>, b: Seq<(Seq<char>, ValueV)>)
    requires
        spec_sorted(a),
        spec_sorted(b),
        forall|k: Seq<char>| #[trigger] spec_lookup(a, k) == spec_lookup(b, k),
    ensures
        a =~= b,
    decreases a.len() + b.len(),
{
    if a.len() == 0 && b.len() == 0 {
    } else if a.len() == 0 {
        lemma_lookup_at(b, 0, b[0].0);
        assert(spec_lookup(a, b[0].0) is None);
        assert(false);
    } else if b.len() == 0 {
        lemma_lookup_at(a, 0, a[0].0);
        assert(spec_lookup(b, a[0].0) is None);
        assert(false);
    } else {
        let ka = a[0].0;
        let kb = b[0].0;
        lemma_lookup_at(a, 0, ka);
        lemma_lookup_at(b, 0, kb);
        if ka != kb {
            lemma_lex_connex(ka, kb);
            if lex_lt(ka, kb) {
                // ka is bound in b, yet sorts before b's least key
                assert(spec_lookup(b, ka) == Some(a[0].1));
                lemma_lookup_member(b, ka);
                let p = choose|p: int| 0 <= p < b.len() && b[p].0 == ka;
                if p == 0 {
                    assert(false);
                } else {
                    assert(lex_lt(b[0].0, b[p].0));
                    lemma_lex_asym(ka, kb);
                    assert(false);
                }
            } else {
                assert(spec_lookup(a, kb) == Some(b[0].1));
                lemma_lookup_member(a, kb);
                let p = choose|p: int| 0 <= p < a.len() && a[p].0 == kb;
                if p == 0 {
                    assert(false);
                } else {
                    assert(lex_lt(a[0].0, a[p].0));
                    lemma_lex_asym(kb, ka);
                    assert(false);
                }
            }
        } else {
            assert(a[0].1 == b[0].1);
            let ta = a.drop_first();
            let tb = b.drop_first();
            lemma_drop_first_sorted(a);
            lemma_drop_first_sorted(b);
            assert forall|k: Seq<char>| #[trigger] spec_lookup(ta, k) == spec_lookup(tb, k) by {
                if k == ka {
                    assert forall|p: int| 0 <= p < ta.len() implies (#[trigger] ta[p]).0 != k by {
                        assert(ta[p] == a[p + 1]);
                        assert(lex_lt(a[0].0, a[p + 1].0));
                        lemma_lex_irrefl(k);
                    }
                    lemma_lookup_none_of_absent(ta, k);
                    assert forall|p: int| 0 <= p < tb.len() implies (#[trigger] tb[p]).0 != k by {
                        assert(tb[p] == b[p + 1]);
                        assert(lex_lt(b[0].0, b[p + 1].0));
                        lemma_lex_irrefl(k);
                    }
                    lemma_lookup_none_of_absent(tb, k);
                } else {
                    assert(spec_lookup(a, k) == spec_lookup(ta, k));
                    assert(spec_lookup(b, k) == spec_lookup(tb, k));
                    assert(spec_lookup(a, k) == spec_lookup(b, k));
                }
            }
            lemma_sorted_lookup_unique(ta, tb);
            assert forall|i: int| 0 <= i < a.len() implies a[i] == b[i] by {
                if i > 0 {
                    assert(ta[i - 1] == a[i]);
                    assert(tb[i - 1] == b[i]);
                }
            }
        }
    }
}

/// A key that looks up to a value is bound at some position.
proof fn lemma_lookup_member(pairs: Seq<(Seq<char>, ValueV)>, k: Seq<char>)
    requires
        spec_lookup(pairs, k) is Some,
    ensures
        exists|p: int| 0 <= p < pairs.len() && (#[trigger] pairs[p]).0 == k,
    decreases pairs.len(),
{
    if pairs.len() > 0 {
        if pairs[0].0 == k {
            assert(pairs[0].0 == k);
        } else {
            lemma_lookup_member(pairs.drop_first(), k);
            let p = choose|p: int|
                0 <= p < pairs.drop_first().len() && (#[trigger] pairs.drop_first()[p]).0 == k;
            assert(pairs[p + 1] == pairs.drop_first()[p]);
        }
    }
}

/// Dropping the first pair keeps the list sorted.
proof fn lemma_drop_first_sorted(pairs: Seq<(Seq<char>, ValueV)>)
    requires
        spec_sorted(pairs),
        pairs.len() > 0,
    ensures
        spec_sorted(pairs.drop_first()),
{
    assert forall|p: int, q: int| 0 <= p < q < pairs.drop_first().len() implies lex_lt(
        (#[trigger] pairs.drop_first()[p]).0,
        (#[trigger] pairs.drop_first()[q]).0,
    ) by {
        assert(pairs.drop_first()[p] == pairs[p + 1]);
        assert(pairs.drop_first()[q] == pairs[q + 1]);
    }
}

} // verus!

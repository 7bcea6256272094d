//! The plain view of a message, and the tagging operations applied when a
//! filter matches.
//!
//! The engine never talks to a mail store directly: the caller hands it a
//! message's extracted data (headers, tags, backing file names, raw bytes,
//! and the tags of its containing thread where one was resolved), and takes
//! the updated tag list back.

use vstd::prelude::*;
use vstd::string::*;

verus! {

/// A message as the engine sees it: plain extracted data.
///
/// Header lookup is an exact, case-sensitive match on the stored names: a
/// caller whose store treats header names case-insensitively must hand the
/// names over in the case its rules use (or canonicalize both).
///
/// `thread_tags` is `Some` when the containing thread was resolved by the
/// caller, `None` when no thread was found; a rule's `@thread-tags` field is
/// skipped in the latter case. `None` stands only for an empty query
/// result: a store that FAILS to run the thread query must abort the whole
/// evaluation at the caller, never map the failure to `None`.
pub struct MessageView {
    pub headers: Vec<(String, String)>,
    pub tags: Vec<String>,
    pub filenames: Vec<String>,
    pub raw: Vec<u8>,
    pub thread_tags: Option<Vec<String>>,
}

/// The first header value stored under `name`, if any.
pub open spec fn spec_header(hs: Seq<(Seq<char>, Seq<char>)>, name: Seq<char>) -> Option<Seq<char>>
    decreases hs.len(),
{
    if hs.len() == 0 {
        None
    } else if hs[0].0 == name {
        Some(hs[0].1)
    } else {
        spec_header(hs.drop_first(), name)
    }
}

impl MessageView {
    /// Look a header up by name, as specified by [`spec_header`]: the first
    /// pair whose name is exactly equal.
    pub fn header(&self, name: &String) -> (r: Option<&String>)
        ensures
            match r {
                Some(v) => spec_header(self.headers.deep_view(), name@) == Some(v@),
                None => spec_header(self.headers.deep_view(), name@) is None,
            },
    {
        let ghost hv = self.headers.deep_view();
        let mut i: usize = 0;
        proof {
            assert(hv.skip(0) =~= hv);
        }
        while i < self.headers.len()
            invariant
                i <= self.headers@.len(),
                hv == self.headers.deep_view(),
                hv.len() == self.headers@.len(),
                spec_header(hv, name@) == spec_header(hv.skip(i as int), name@),
            decreases self.headers@.len() - i,
        {
            proof {
                assert(hv.skip(i as int)[0] == hv[i as int]);
                assert(hv.skip(i as int).drop_first() =~= hv.skip(i + 1));
                assert(hv[i as int] == (self.headers@[i as int].0@, self.headers@[i as int].1@));
            }
            if self.headers[i].0 == *name {
                return Some(&self.headers[i].1);
            }
            i += 1;
        }
        proof {
            assert(hv.skip(hv.len() as int) =~= Seq::<(Seq<char>, Seq<char>)>::empty());
        }
        None
    }
}

/// Whether `x` occurs in `v`.
pub(crate) fn vec_contains(v: &Vec<String>, x: &String) -> (r: bool)
    ensures
        r == v.deep_view().contains(x@),
{
    let ghost vv = v.deep_view();
    let mut i: usize = 0;
    while i < v.len()
        invariant
            i <= v@.len(),
            vv == v.deep_view(),
            vv.len() == v@.len(),
            forall|k: int| 0 <= k < i ==> vv[k] != x@,
        decreases v@.len() - i,
    {
        proof {
            assert(vv[i as int] == v@[i as int]@);
        }
        if v[i] == *x {
            proof {
                assert(vv.contains(x@));
            }
            return true;
        }
        i += 1;
    }
    proof {
        assert(!vv.contains(x@));
    }
    false
}

/// Whether two string vectors hold the same strings in the same order.
pub(crate) fn vec_str_eq(a: &Vec<String>, b: &Vec<String>) -> (r: bool)
    ensures
        r == (a.deep_view() == b.deep_view()),
{
    if a.len() != b.len() {
        proof {
            assert(a.deep_view().len() == a@.len());
            assert(b.deep_view().len() == b@.len());
        }
        return false;
    }
    let mut i: usize = 0;
    while i < a.len()
        invariant
            i <= a@.len(),
            a@.len() == b@.len(),
            forall|k: int| 0 <= k < i ==> a.deep_view()[k] == b.deep_view()[k],
        decreases a@.len() - i,
    {
        proof {
            assert(a.deep_view()[i as int] == a@[i as int]@);
            assert(b.deep_view()[i as int] == b@[i as int]@);
        }
        if !(a[i] == b[i]) {
            proof {
                assert(a.deep_view()[i as int] != b.deep_view()[i as int]);
            }
            return false;
        }
        i += 1;
    }
    proof {
        assert(a.deep_view() =~= b.deep_view());
    }
    true
}

/// Tags to add and tags to remove when a filter matches.
///
/// Adding a tag already present and removing a tag already absent are
/// no-ops; the report says whether anything actually changed.
#[derive(Debug, Clone)]
pub struct Operations {
    pub add: Vec<String>,
    pub rm: Vec<String>,
}

/// `tags` with each tag of `add` appended unless already present.
pub open spec fn spec_add_tags(tags: Seq<Seq<char>>, add: Seq<Seq<char>>) -> Seq<Seq<char>>
    decreases add.len(),
{
    if add.len() == 0 {
        tags
    } else {
        spec_add_tags(
            if tags.contains(add[0]) {
                tags
            } else {
                tags.push(add[0])
            },
            add.drop_first(),
        )
    }
}

/// `tags` with every tag of `rm` removed.
pub open spec fn spec_rm_tags(tags: Seq<Seq<char>>, rm: Seq<Seq<char>>) -> Seq<Seq<char>>
    decreases tags.len(),
{
    if tags.len() == 0 {
        Seq::empty()
    } else {
        let rest = spec_rm_tags(tags.drop_first(), rm);
        if rm.contains(tags[0]) {
            rest
        } else {
            seq![tags[0]] + rest
        }
    }
}

/// What an operation set does to a tag list: additions first, removals
/// second.
pub open spec fn spec_apply_ops(
    tags: Seq<Seq<char>>,
    add: Seq<Seq<char>>,
    rm: Seq<Seq<char>>,
) -> Seq<Seq<char>> {
    spec_rm_tags(spec_add_tags(tags, add), rm)
}

impl Operations {
    /// An empty operation set.
    pub fn new() -> (r: Operations)
        ensures
            r.add@ =~= Seq::<String>::empty(),
            r.rm@ =~= Seq::<String>::empty(),
            r.add.deep_view() =~= Seq::<Seq<char>>::empty(),
            r.rm.deep_view() =~= Seq::<Seq<char>>::empty(),
    {
        Operations { add: Vec::new(), rm: Vec::new() }
    }

    /// Apply the operation set to a tag list, as specified by
    /// [`spec_apply_ops`], and report whether anything changed.
    pub fn apply(&self, tags: &mut Vec<String>) -> (changed: bool)
        ensures
            final(tags).deep_view() == spec_apply_ops(
                old(tags).deep_view(),
                self.add.deep_view(),
                self.rm.deep_view(),
            ),
            changed == (final(tags).deep_view() != old(tags).deep_view()),
    {
        let ghost tv = tags.deep_view();
        let ghost av = self.add.deep_view();
        let ghost rv = self.rm.deep_view();

        // a working copy of the tag list
        let mut grown: Vec<String> = Vec::new();
        let mut k: usize = 0;
        while k < tags.len()
            invariant
                k <= tags@.len(),
                tv == tags.deep_view(),
                tv.len() == tags@.len(),
                grown.deep_view() == tv.take(k as int),
            decreases tags@.len() - k,
        {
            let ghost before = grown.deep_view();
            let t = tags[k].clone();
            grown.push(t);
            proof {
                assert(tv[k as int] == tags@[k as int]@);
                assert(grown.deep_view() =~= before.push(tv[k as int]));
                assert(tv.take(k + 1) =~= tv.take(k as int).push(tv[k as int]));
            }
            k += 1;
        }
        proof {
            assert(tv.take(tv.len() as int) =~= tv);
        }

        // additions
        let mut i: usize = 0;
        proof {
            assert(av.skip(0) =~= av);
        }
        while i < self.add.len()
            invariant
                i <= self.add@.len(),
                av == self.add.deep_view(),
                av.len() == self.add@.len(),
                spec_add_tags(tv, av) == spec_add_tags(grown.deep_view(), av.skip(i as int)),
            decreases self.add@.len() - i,
        {
            proof {
                assert(av.skip(i as int)[0] == av[i as int]);
                assert(av.skip(i as int).drop_first() =~= av.skip(i + 1));
                assert(av[i as int] == self.add@[i as int]@);
            }
            let ghost before = grown.deep_view();
            if !vec_contains(&grown, &self.add[i]) {
                let t = self.add[i].clone();
                grown.push(t);
                proof {
                    assert(grown.deep_view() =~= before.push(av[i as int]));
                }
            }
            i += 1;
        }
        proof {
            assert(av.skip(av.len() as int) =~= Seq::<Seq<char>>::empty());
            assert(spec_add_tags(tv, av) == grown.deep_view());
        }

        // removals
        let ghost added = grown.deep_view();
        let mut kept: Vec<String> = Vec::new();
        let mut j: usize = 0;
        proof {
            assert(added.skip(0) =~= added);
            assert(kept.deep_view() + spec_rm_tags(added, rv) =~= spec_rm_tags(added, rv));
        }
        while j < grown.len()
            invariant
                j <= grown@.len(),
                added == grown.deep_view(),
                added.len() == grown@.len(),
                rv == self.rm.deep_view(),
                spec_rm_tags(added, rv) == kept.deep_view() + spec_rm_tags(
                    added.skip(j as int),
                    rv,
                ),
            decreases grown@.len() - j,
        {
            proof {
                assert(added.skip(j as int)[0] == added[j as int]);
                assert(added.skip(j as int).drop_first() =~= added.skip(j + 1));
                assert(added[j as int] == grown@[j as int]@);
            }
            let ghost before = kept.deep_view();
            if !vec_contains(&self.rm, &grown[j]) {
                let t = grown[j].clone();
                kept.push(t);
                proof {
                    assert(kept.deep_view() =~= before.push(added[j as int]));
                    assert(before + (seq![added[j as int]] + spec_rm_tags(added.skip(j + 1), rv))
                        =~= kept.deep_view() + spec_rm_tags(added.skip(j + 1), rv));
                }
            }
            j += 1;
        }
        proof {
            assert(added.skip(added.len() as int) =~= Seq::<Seq<char>>::empty());
            assert(kept.deep_view() + Seq::<Seq<char>>::empty() =~= kept.deep_view());
            assert(spec_rm_tags(added, rv) == kept.deep_view());
        }

        let changed = !vec_str_eq(tags, &kept);
        *tags = kept;
        changed
    }
}

} // verus!

//! The trusted boundary to the `regex` crate, and the verified pattern-set
//! matching helpers built on it.
//!
//! A compiled matcher is opaque; what `is_match` returns is named by the
//! uninterpreted function [`re_match`], keyed on the pattern source and the
//! haystack alone. That key is sound because every matcher in this library
//! is built by the crate-private [`regex_new`], which uses `Regex::new`'s
//! default configuration: with the configuration fixed, matching is a pure
//! function of the pattern source and the haystack. A matcher built through
//! `RegexBuilder` with other settings could behave differently for the same
//! source, which is why the wrappers are not public.

use vstd::prelude::*;

verus! {

#[verifier::external_type_specification]
#[verifier::external_body]
pub struct ExRegex(regex::Regex);

/// Whether `regex::Regex::new` accepts this pattern source.
pub uninterp spec fn regex_ok(pattern: Seq<char>) -> bool;

/// The pattern source a compiled `regex::Regex` was built from.
pub uninterp spec fn re_pattern(re: regex::Regex) -> Seq<char>;

/// What `regex::Regex::is_match` returns for a pattern source and a haystack.
pub uninterp spec fn re_match(pattern: Seq<char>, text: Seq<char>) -> bool;

/// Relies on `regex::Regex::new`: it returns `Ok` exactly when the pattern is
/// a valid regular expression (within the default size limit), and the
/// returned matcher is determined by the pattern source alone. The error
/// value is dropped here; callers report the offending source string.
#[verifier::external_body]
pub(crate) fn regex_new(pattern: &str) -> (r: Option<regex::Regex>)
    ensures
        (r is Some) == regex_ok(pattern@),
        r matches Some(re) ==> re_pattern(re) == pattern@,
{
    regex::Regex::new(pattern).ok()
}

/// Relies on `regex::Regex::is_match`: a pure function of the pattern the
/// matcher was built from and the haystack.
#[verifier::external_body]
pub(crate) fn regex_is_match(re: &regex::Regex, text: &str) -> (r: bool)
    ensures
        r == re_match(re_pattern(*re), text@),
{
    re.is_match(text)
}

/// The pattern sources of a sequence of compiled matchers.
pub open spec fn sources_of(res: Seq<regex::Regex>) -> Seq<Seq<char>> {
    res.map(|_i: int, re: regex::Regex| re_pattern(re))
}

/// ANY value matches ANY pattern.
pub open spec fn spec_any_match(pats: Seq<Seq<char>>, vals: Seq<Seq<char>>) -> bool {
    exists|i: int, j: int|
        0 <= i < vals.len() && 0 <= j < pats.len() && re_match(pats[j], vals[i])
}

/// The single value matches ALL patterns.
pub open spec fn spec_all_match(pats: Seq<Seq<char>>, val: Seq<char>) -> bool {
    forall|j: int| 0 <= j < pats.len() ==> re_match(pats[j], val)
}

/// True iff any of `vals` matches any of `res`.
pub(crate) fn any_match(res: &Vec<regex::Regex>, vals: &Vec<String>) -> (r: bool)
    ensures
        r == spec_any_match(sources_of(res@), vals.deep_view()),
{
    let mut i: usize = 0;
    while i < vals.len()
        invariant
            i <= vals.len(),
            !spec_any_match(sources_of(res@), vals.deep_view().take(i as int)),
        decreases vals.len() - i,
    {
        let mut j: usize = 0;
        while j < res.len()
            invariant
                i < vals.len(),
                j <= res.len(),
                !spec_any_match(sources_of(res@), vals.deep_view().take(i as int)),
                forall|k: int| 0 <= k < j ==> !re_match(sources_of(res@)[k], vals.deep_view()[i as int]),
            decreases res.len() - j,
        {
            if regex_is_match(&res[j], vals[i].as_str()) {
                assert(re_match(sources_of(res@)[j as int], vals.deep_view()[i as int]));
                return true;
            }
            j += 1;
        }
        proof {
            let pv = sources_of(res@);
            let vv = vals.deep_view();
            assert forall|a: int, b: int|
                0 <= a < vv.take(i + 1).len() && 0 <= b < pv.len() implies !(#[trigger] re_match(
                pv[b],
                vv.take(i + 1)[a],
            )) by {
                if a < i {
                    assert(vv.take(i as int)[a] == vv.take(i + 1)[a]);
                    assert(!spec_any_match(pv, vv.take(i as int)));
                }
            }
        }
        i += 1;
    }
    proof {
        assert(vals.deep_view().take(vals.len() as int) =~= vals.deep_view());
    }
    false
}

/// True iff `val` matches every matcher in `res`.
pub(crate) fn all_match(res: &Vec<regex::Regex>, val: &String) -> (r: bool)
    ensures
        r == spec_all_match(sources_of(res@), val@),
{
    let mut j: usize = 0;
    while j < res.len()
        invariant
            j <= res.len(),
            forall|k: int| 0 <= k < j ==> re_match(sources_of(res@)[k], val@),
        decreases res.len() - j,
    {
        if !regex_is_match(&res[j], val.as_str()) {
            assert(!re_match(sources_of(res@)[j as int], val@));
            return false;
        }
        j += 1;
    }
    true
}

} // verus!

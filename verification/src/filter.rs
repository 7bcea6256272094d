//! Filters: compilation, match evaluation, and the apply step.
//!
//! A filter holds an ordered list of rules (an OR-combination) and an
//! operation set. Its raw patterns must be compiled once before matching;
//! `is_match` checks that the compiled cache lines up with the rule list and
//! evaluates rules in order, returning at the first rule whose fields all
//! hold. The whole evaluation is specified by `spec_is_match`.

use crate::error::Error;
use crate::fingerprint::{fingerprint, rules_view, spec_fingerprint};
use crate::message::{spec_apply_ops, spec_header, MessageView, Operations};
use crate::mime::{
    attachment_names, attachment_texts, mime_body, mime_ok, mime_parts, parse_mime, parts_view,
    spec_attachment_names, spec_attachment_texts,
};
use crate::patterns::{
    all_match, any_match, regex_new, sources_of, spec_all_match, spec_any_match,
};
use crate::rule::{patterns_of, Rule, ValueV};
use vstd::prelude::*;
use vstd::string::*;

verus! {

/// Why a filter refuses to compile: an invalid pattern source, or a value
/// that is no pattern at all.
pub ghost enum CompileIssue {
    BadPattern(Seq<char>),
    NotPattern,
}

/// The first pattern in the list that the regex engine refuses.
pub open spec fn first_bad_pattern(ps: Seq<Seq<char>>) -> Option<Seq<char>>
    decreases ps.len(),
{
    if ps.len() == 0 {
        None
    } else if !crate::patterns::regex_ok(ps[0]) {
        Some(ps[0])
    } else {
        first_bad_pattern(ps.drop_first())
    }
}

/// The first problem with one field value.
pub open spec fn value_issue(v: ValueV) -> Option<CompileIssue> {
    match patterns_of(v) {
        None => Some(CompileIssue::NotPattern),
        Some(ps) => match first_bad_pattern(ps) {
            Some(p) => Some(CompileIssue::BadPattern(p)),
            None => None,
        },
    }
}

/// The first problem in one rule, in key order.
pub open spec fn rule_issue(rv: Seq<(Seq<char>, ValueV)>) -> Option<CompileIssue>
    decreases rv.len(),
{
    if rv.len() == 0 {
        None
    } else {
        match value_issue(rv[0].1) {
            Some(i) => Some(i),
            None => rule_issue(rv.drop_first()),
        }
    }
}

/// The first problem in a rule list, in source order.
pub open spec fn rules_issue(rsv: Seq<Seq<(Seq<char>, ValueV)>>) -> Option<CompileIssue>
    decreases rsv.len(),
{
    if rsv.len() == 0 {
        None
    } else {
        match rule_issue(rsv[0]) {
            Some(i) => Some(i),
            None => rules_issue(rsv.drop_first()),
        }
    }
}

/// The mathematical content of one compiled rule: each field's selector and
/// the pattern sources of its matchers.
pub open spec fn crule_view(cr: Seq<(String, Vec<regex::Regex>)>) -> Seq<
    (Seq<char>, Seq<Seq<char>>),
> {
    cr.map(|_i: int, f: (String, Vec<regex::Regex>)| (f.0@, sources_of(f.1@)))
}

/// A compiled rule mirrors a raw rule: same selectors in the same order,
/// and each matcher list built from exactly the raw pattern sources.
pub open spec fn compiled_mirrors(
    cv: Seq<(Seq<char>, Seq<Seq<char>>)>,
    rv: Seq<(Seq<char>, ValueV)>,
) -> bool {
    &&& cv.len() == rv.len()
    &&& forall|j: int|
        0 <= j < cv.len() ==> (#[trigger] cv[j]).0 == rv[j].0 && patterns_of(rv[j].1) == Some(
            cv[j].1,
        )
}

/// The mathematical content of the compiled cache.
pub open spec fn compiled_view(compiled: Seq<Vec<(String, Vec<regex::Regex>)>>) -> Seq<
    Seq<(Seq<char>, Seq<Seq<char>>)>,
> {
    compiled.map(|_i: int, cr: Vec<(String, Vec<regex::Regex>)>| crule_view(cr@))
}

/// What evaluating one field of a rule yields: a boolean that is ANDed into
/// the rule's result, nothing (the field is skipped), or a failure that
/// aborts the whole evaluation.
pub ghost enum FieldEval {
    Hit(bool),
    Skip,
    Fail,
}

/// One field's result against a message.
///
/// Value-list fields (`@path`, `@tags`, `@thread-tags`, `@attachment`,
/// `@attachment-body`) hold when ANY extracted value matches ANY pattern.
/// A literal header and `@body` carry a single value, which must match ALL
/// of the field's patterns. `@thread-tags` without a resolved thread, and
/// unrecognized `@` selectors, are skipped.
pub open spec fn spec_eval_field(m: MessageView, key: Seq<char>, pats: Seq<Seq<char>>) -> FieldEval {
    if key == "@path"@ {
        FieldEval::Hit(spec_any_match(pats, m.filenames.deep_view()))
    } else if key == "@tags"@ {
        FieldEval::Hit(spec_any_match(pats, m.tags.deep_view()))
    } else if key == "@thread-tags"@ {
        match m.thread_tags {
            None => FieldEval::Skip,
            Some(ts) => FieldEval::Hit(spec_any_match(pats, ts.deep_view())),
        }
    } else if key == "@body"@ {
        if !mime_ok(m.raw@) {
            FieldEval::Fail
        } else {
            match mime_body(m.raw@) {
                None => FieldEval::Fail,
                Some(b) => FieldEval::Hit(spec_all_match(pats, b)),
            }
        }
    } else if key == "@attachment"@ {
        if !mime_ok(m.raw@) {
            FieldEval::Fail
        } else {
            FieldEval::Hit(spec_any_match(pats, spec_attachment_names(mime_parts(m.raw@))))
        }
    } else if key == "@attachment-body"@ {
        if !mime_ok(m.raw@) {
            FieldEval::Fail
        } else {
            match spec_attachment_texts(mime_parts(m.raw@)) {
                Err(_) => FieldEval::Fail,
                Ok(bs) => FieldEval::Hit(spec_any_match(pats, bs)),
            }
        }
    } else if key.len() > 0 && key[0] == '@' {
        FieldEval::Skip
    } else {
        match spec_header(m.headers.deep_view(), key) {
            None => FieldEval::Hit(false),
            Some(v) => FieldEval::Hit(spec_all_match(pats, v)),
        }
    }
}

/// A rule's result, folding its fields in order into `acc`.
pub open spec fn spec_eval_rule_from(
    m: MessageView,
    rule: Seq<(Seq<char>, Seq<Seq<char>>)>,
    acc: bool,
) -> Result<bool, ()>
    decreases rule.len(),
{
    if rule.len() == 0 {
        Ok(acc)
    } else {
        match spec_eval_field(m, rule[0].0, rule[0].1) {
            FieldEval::Fail => Err(()),
            FieldEval::Skip => spec_eval_rule_from(m, rule.drop_first(), acc),
            FieldEval::Hit(b) => spec_eval_rule_from(m, rule.drop_first(), acc && b),
        }
    }
}

/// A rule's result: the AND of its evaluated fields, vacuously true.
pub open spec fn spec_eval_rule(m: MessageView, rule: Seq<(Seq<char>, Seq<Seq<char>>)>) -> Result<
    bool,
    (),
> {
    spec_eval_rule_from(m, rule, true)
}

/// A rule list's result: the first rule that fails or matches decides;
/// an empty list never matches.
pub open spec fn spec_eval_rules(
    m: MessageView,
    rules: Seq<Seq<(Seq<char>, Seq<Seq<char>>)>>,
) -> Result<bool, ()>
    decreases rules.len(),
{
    if rules.len() == 0 {
        Ok(false)
    } else {
        match spec_eval_rule(m, rules[0]) {
            Err(e) => Err(e),
            Ok(true) => Ok(true),
            Ok(false) => spec_eval_rules(m, rules.drop_first()),
        }
    }
}

/// A named or fingerprinted set of alternative rules, the operations to run
/// on a match, and the compiled-pattern cache.
#[derive(Debug)]
pub struct Filter {
    /// The user-assigned name, if any; [`Filter::name`] falls back to the
    /// content fingerprint.
    pub name: Option<String>,
    /// A free-form description, kept for the user's benefit.
    pub desc: Option<String>,
    /// The rules; the filter matches when ANY of them does.
    pub rules: Vec<Rule>,
    /// The operations applied when a rule matches.
    pub op: Operations,
    /// The compiled matchers, one entry per rule after a single
    /// [`Filter::compile`]; never serialized.
    pub compiled: Vec<Vec<(String, Vec<regex::Regex>)>>,
}

impl Filter {
    /// Each compiled entry mirrors the rule it stands for.
    pub open spec fn wf(&self) -> bool {
        forall|i: int|
            0 <= i < self.compiled@.len() && i < self.rules@.len() ==> compiled_mirrors(
                crule_view((#[trigger] self.compiled@[i])@),
                self.rules@[i]@,
            )
    }

    /// The filter's identity: its name, or the fingerprint of its rules.
    pub open spec fn spec_name(&self) -> Seq<char> {
        match self.name {
            Some(n) => n@,
            None => spec_fingerprint(rules_view(self.rules@)),
        }
    }

    /// What [`Filter::is_match`] returns: the uncompiled error when the
    /// cache does not line up with the rules, else the rules' result, with
    /// an evaluation failure surfaced as a parse error.
    pub open spec fn spec_is_match(&self, m: MessageView) -> Result<bool, Error> {
        if self.compiled@.len() != self.rules@.len() {
            Err(Error::Uncompiled)
        } else {
            match spec_eval_rules(m, compiled_view(self.compiled@)) {
                Ok(b) => Ok(b),
                Err(_) => Err(Error::MimeParse),
            }
        }
    }

    /// An empty, unnamed filter.
    pub fn new() -> (r: Filter)
        ensures
            r.name is None,
            r.desc is None,
            r.rules@ =~= Seq::<Rule>::empty(),
            r.compiled@ =~= Seq::<Vec<(String, Vec<regex::Regex>)>>::empty(),
            r.op.add@ =~= Seq::<String>::empty(),
            r.op.rm@ =~= Seq::<String>::empty(),
            r.wf(),
    {
        Filter {
            name: None,
            desc: None,
            rules: Vec::new(),
            op: Operations::new(),
            compiled: Vec::new(),
        }
    }

    /// A raw filter assembled from its parts: the compiled cache starts
    /// empty, so it must be compiled before matching.
    pub fn from_parts(name: Option<String>, desc: Option<String>, rules: Vec<Rule>, op: Operations) -> (r:
        Filter)
        ensures
            r.name == name,
            r.desc == desc,
            r.rules == rules,
            r.op == op,
            r.compiled@ =~= Seq::<Vec<(String, Vec<regex::Regex>)>>::empty(),
            r.wf(),
    {
        Filter { name, desc, rules, op, compiled: Vec::new() }
    }

    /// The set name, or the stable fingerprint of the rules' content.
    pub fn name(&self) -> (r: String)
        ensures
            r@ == self.spec_name(),
    {
        match &self.name {
            Some(n) => n.clone(),
            None => fingerprint(&self.rules),
        }
    }

    /// Assign a name.
    pub fn set_name(&mut self, name: &str)
        ensures
            final(self).name matches Some(n) && n@ == name@,
            final(self).desc == old(self).desc,
            final(self).rules == old(self).rules,
            final(self).op == old(self).op,
            final(self).compiled == old(self).compiled,
    {
        self.name = Some(name.to_owned());
    }

    /// Compile every pattern of every rule, appending one compiled entry per
    /// rule. Fails on the first invalid pattern (carrying its source) or on
    /// the first value that is no pattern; on failure nothing is returned.
    pub fn compile(self) -> (r: Result<Filter, Error>)
        ensures
            (r is Ok) <==> rules_issue(rules_view(self.rules@)) is None,
            r matches Ok(f) ==> {
                &&& f.name == self.name
                &&& f.desc == self.desc
                &&& f.op == self.op
                &&& f.rules == self.rules
                &&& f.compiled@.len() == self.compiled@.len() + self.rules@.len()
                &&& forall|i: int|
                    0 <= i < self.compiled@.len() ==> f.compiled@[i] == self.compiled@[i]
                &&& forall|i: int|
                    0 <= i < self.rules@.len() ==> compiled_mirrors(
                        crule_view((#[trigger] f.compiled@[self.compiled@.len() + i])@),
                        self.rules@[i]@,
                    )
            },
            r matches Err(e) ==> match rules_issue(rules_view(self.rules@)) {
                Some(CompileIssue::BadPattern(p)) => e matches Error::PatternCompile(s) && s@ == p,
                Some(CompileIssue::NotPattern) => e is UnsupportedValue,
                None => false,
            },
    {
        let mut this = self;
        let ghost orig = this;
        let ghost rsv = rules_view(orig.rules@);
        let n = this.rules.len();
        let mut i: usize = 0;
        proof {
            assert(rsv.skip(0) =~= rsv);
        }
        while i < n
            invariant
                orig == self,
                i <= n,
                n == orig.rules@.len(),
                rsv == rules_view(orig.rules@),
                rsv.len() == n,
                this.name == orig.name,
                this.desc == orig.desc,
                this.op == orig.op,
                this.rules == orig.rules,
                this.compiled@.len() == orig.compiled@.len() + i,
                forall|k: int| 0 <= k < orig.compiled@.len() ==> this.compiled@[k] == orig.compiled@[k],
                forall|k: int|
                    0 <= k < i ==> compiled_mirrors(
                        crule_view((#[trigger] this.compiled@[orig.compiled@.len() + k])@),
                        orig.rules@[k]@,
                    ),
                rules_issue(rsv) == rules_issue(rsv.skip(i as int)),
            decreases n - i,
        {
            proof {
                assert(rsv.skip(i as int)[0] == rsv[i as int]);
                assert(rsv.skip(i as int).drop_first() =~= rsv.skip(i + 1));
                assert(rsv[i as int] == orig.rules@[i as int]@);
            }
            let ghost rv = orig.rules@[i as int]@;
            let m = this.rules[i].pairs.len();
            let mut cr: Vec<(String, Vec<regex::Regex>)> = Vec::new();
            let mut j: usize = 0;
            proof {
                assert(rv.skip(0) =~= rv);
            }
            while j < m
                invariant
                    orig == self,
                    j <= m,
                    i < n,
                    n == orig.rules@.len(),
                    rsv == rules_view(orig.rules@),
                    rsv.len() == n,
                    rsv[i as int] == orig.rules@[i as int]@,
                    this.rules == orig.rules,
                    rv == orig.rules@[i as int]@,
                    m == rv.len(),
                    rule_issue(rv) == rule_issue(rv.skip(j as int)),
                    crule_view(cr@).len() == j,
                    forall|k: int|
                        0 <= k < j ==> (#[trigger] crule_view(cr@)[k]).0 == rv[k].0 && patterns_of(
                            rv[k].1,
                        ) == Some(crule_view(cr@)[k].1),
                    rules_issue(rsv) == rules_issue(rsv.skip(i as int)),
                decreases m - j,
            {
                proof {
                    assert(rv.skip(j as int)[0] == rv[j as int]);
                    assert(rv.skip(j as int).drop_first() =~= rv.skip(j + 1));
                    assert(rv[j as int] == (
                        this.rules@[i as int].pairs@[j as int].0@,
                        this.rules@[i as int].pairs@[j as int].1@,
                    ));
                }
                let ghost before_cr = crule_view(cr@);
                let key = this.rules[i].pairs[j].0.clone();
                let mut res: Vec<regex::Regex> = Vec::new();
                match &this.rules[i].pairs[j].1 {
                    crate::rule::Value::Single(s) => {
                        match regex_new(s.as_str()) {
                            Some(re) => {
                                res.push(re);
                                proof {
                                    assert(sources_of(res@) =~= seq![s@]);
                                    assert(seq![s@].drop_first() =~= Seq::<Seq<char>>::empty());
                                    assert(first_bad_pattern(Seq::<Seq<char>>::empty()) is None);
                                    assert(first_bad_pattern(seq![s@]) is None);
                                    assert(rv[j as int].1 == ValueV::Single(s@));
                                    assert(value_issue(rv[j as int].1) is None);
                                }
                            },
                            None => {
                                proof {
                                    assert(first_bad_pattern(seq![s@]) == Some(s@));
                                    assert(rv[j as int].1 == ValueV::Single(s@));
                                    assert(value_issue(rv[j as int].1) == Some(
                                        CompileIssue::BadPattern(s@),
                                    ));
                                    assert(rule_issue(rv.skip(j as int)) == Some(
                                        CompileIssue::BadPattern(s@),
                                    ));
                                    assert(rule_issue(rv) == Some(CompileIssue::BadPattern(s@)));
                                    assert(rule_issue(rsv[i as int]) == Some(
                                        CompileIssue::BadPattern(s@),
                                    ));
                                    assert(rsv.skip(i as int)[0] == rsv[i as int]);
                                    assert(rules_issue(rsv.skip(i as int)) == Some(
                                        CompileIssue::BadPattern(s@),
                                    ));
                                    assert(rules_issue(rsv) == Some(CompileIssue::BadPattern(s@)));
                                }
                                proof {
                                    assert(rsv == rules_view(self.rules@));
                                }
                                return Err(Error::PatternCompile(s.clone()));
                            },
                        }
                    },
                    crate::rule::Value::Multiple(ps) => {
                        let ghost pv = ps.deep_view();
                        let mut k: usize = 0;
                        proof {
                            assert(pv.skip(0) =~= pv);
                            assert(pv.take(0) =~= sources_of(res@));
                            assert(rv[j as int].1 == ValueV::Multiple(pv));
                        }
                        while k < ps.len()
                            invariant
                                orig == self,
                                k <= ps@.len(),
                                pv == ps.deep_view(),
                                pv.len() == ps@.len(),
                                sources_of(res@) == pv.take(k as int),
                                first_bad_pattern(pv) == first_bad_pattern(pv.skip(k as int)),
                                i < n,
                                j < m,
                                m == rv.len(),
                                n == rsv.len(),
                                rsv == rules_view(orig.rules@),
                                rv == orig.rules@[i as int]@,
                                rsv[i as int] == rv,
                                rv[j as int].1 == ValueV::Multiple(pv),
                                rules_issue(rsv) == rules_issue(rsv.skip(i as int)),
                                rule_issue(rv) == rule_issue(rv.skip(j as int)),
                            decreases ps@.len() - k,
                        {
                            proof {
                                assert(pv.skip(k as int)[0] == pv[k as int]);
                                assert(pv.skip(k as int).drop_first() =~= pv.skip(k + 1));
                                assert(pv[k as int] == ps@[k as int]@);
                            }
                            match regex_new(ps[k].as_str()) {
                                Some(re) => {
                                    let ghost before = sources_of(res@);
                                    res.push(re);
                                    proof {
                                        assert(sources_of(res@) =~= before.push(pv[k as int]));
                                        assert(pv.take(k + 1) =~= pv.take(k as int).push(
                                            pv[k as int],
                                        ));
                                    }
                                },
                                None => {
                                    proof {
                                        assert(pv.skip(k as int)[0] == pv[k as int]);
                                        assert(first_bad_pattern(pv.skip(k as int)) == Some(
                                            pv[k as int],
                                        ));
                                        assert(first_bad_pattern(pv) == Some(pv[k as int]));
                                        assert(rv.skip(j as int)[0] == rv[j as int]);
                                        assert(rsv.skip(i as int)[0] == rsv[i as int]);
                                        assert(rv[j as int].1 == ValueV::Multiple(pv));
                                        assert(value_issue(rv[j as int].1) == Some(
                                            CompileIssue::BadPattern(pv[k as int]),
                                        ));
                                        assert(rule_issue(rv.skip(j as int)) == Some(
                                            CompileIssue::BadPattern(pv[k as int]),
                                        ));
                                        assert(rule_issue(rv) == Some(
                                            CompileIssue::BadPattern(pv[k as int]),
                                        ));
                                        assert(rule_issue(rsv[i as int]) == Some(
                                            CompileIssue::BadPattern(pv[k as int]),
                                        ));
                                        assert(rules_issue(rsv.skip(i as int)) == Some(
                                            CompileIssue::BadPattern(pv[k as int]),
                                        ));
                                        assert(rules_issue(rsv) == Some(
                                            CompileIssue::BadPattern(pv[k as int]),
                                        ));
                                    }
                                    proof {
                                        assert(rsv == rules_view(self.rules@));
                                    }
                                    return Err(Error::PatternCompile(ps[k].clone()));
                                },
                            }
                            k += 1;
                        }
                        proof {
                            assert(pv.take(pv.len() as int) =~= pv);
                            assert(pv.skip(pv.len() as int) =~= Seq::<Seq<char>>::empty());
                            assert(first_bad_pattern(Seq::<Seq<char>>::empty()) is None);
                            assert(first_bad_pattern(pv) is None);
                            assert(rv[j as int].1 == ValueV::Multiple(pv));
                            assert(value_issue(rv[j as int].1) is None);
                        }
                    },
                    crate::rule::Value::Flag(_) => {
                        proof {
                            assert(value_issue(rv[j as int].1) == Some(CompileIssue::NotPattern));
                            assert(rule_issue(rv.skip(j as int)) == Some(CompileIssue::NotPattern));
                            assert(rule_issue(rv) == Some(CompileIssue::NotPattern));
                            assert(rule_issue(rsv[i as int]) == Some(CompileIssue::NotPattern));
                            assert(rsv.skip(i as int)[0] == rsv[i as int]);
                            assert(rules_issue(rsv.skip(i as int)) == Some(CompileIssue::NotPattern));
                            assert(rules_issue(rsv) == Some(CompileIssue::NotPattern));
                        }
                        proof {
                            assert(rsv == rules_view(self.rules@));
                        }
                        return Err(Error::UnsupportedValue);
                    },
                }
                cr.push((key, res));
                proof {
                    assert(crule_view(cr@) =~= before_cr.push(
                        (rv[j as int].0, patterns_of(rv[j as int].1)->Some_0),
                    ));
                }
                j += 1;
            }
            proof {
                assert(rv.skip(rv.len() as int) =~= Seq::<(Seq<char>, ValueV)>::empty());
                assert(rule_issue(rv) is None);
                assert(compiled_mirrors(crule_view(cr@), rv));
            }
            let ghost before_compiled = this.compiled@;
            this.compiled.push(cr);
            proof {
                assert(this.compiled@ =~= before_compiled.push(cr));
            }
            i += 1;
        }
        proof {
            assert(rsv.skip(rsv.len() as int) =~= Seq::<Seq<(Seq<char>, ValueV)>>::empty());
            assert(rules_issue(rsv) is None);
            assert(rsv == rules_view(self.rules@));
        }
        Ok(this)
    }

    /// Check whether the message matches any rule, as specified by
    /// [`Filter::spec_is_match`].
    pub fn is_match(&self, msg: &MessageView) -> (r: Result<bool, Error>)
        requires
            self.wf(),
        ensures
            r == self.spec_is_match(*msg),
    {
        if self.compiled.len() != self.rules.len() {
            return Err(Error::Uncompiled);
        }
        let ghost cv = compiled_view(self.compiled@);
        let mut i: usize = 0;
        proof {
            assert(cv.skip(0) =~= cv);
        }
        while i < self.compiled.len()
            invariant
                i <= self.compiled@.len(),
                self.wf(),
                self.compiled@.len() == self.rules@.len(),
                cv == compiled_view(self.compiled@),
                cv.len() == self.compiled@.len(),
                spec_eval_rules(*msg, cv) == spec_eval_rules(*msg, cv.skip(i as int)),
            decreases self.compiled@.len() - i,
        {
            proof {
                assert(cv.skip(i as int)[0] == cv[i as int]);
                assert(cv.skip(i as int).drop_first() =~= cv.skip(i + 1));
                assert(cv[i as int] == crule_view(self.compiled@[i as int]@));
            }
            match eval_rule(&self.compiled[i], msg) {
                Err(e) => {
                    proof {
                        assert(spec_eval_rule(*msg, cv[i as int]) is Err);
                        assert(spec_eval_rules(*msg, cv.skip(i as int)) is Err);
                        assert(spec_eval_rules(*msg, cv) is Err);
                    }
                    return Err(e);
                },
                Ok(true) => {
                    proof {
                        assert(spec_eval_rule(*msg, cv[i as int]) == Ok::<bool, ()>(true));
                        assert(spec_eval_rules(*msg, cv.skip(i as int)) == Ok::<bool, ()>(true));
                        assert(spec_eval_rules(*msg, cv) == Ok::<bool, ()>(true));
                    }
                    return Ok(true);
                },
                Ok(false) => {
                    proof {
                        assert(spec_eval_rule(*msg, cv[i as int]) == Ok::<bool, ()>(false));
                        assert(spec_eval_rules(*msg, cv.skip(i as int)) == spec_eval_rules(
                            *msg,
                            cv.skip(i + 1),
                        ));
                    }
                },
            }
            i += 1;
        }
        proof {
            assert(cv.skip(cv.len() as int) =~= Seq::<Seq<(Seq<char>, Seq<Seq<char>>)>>::empty());
        }
        Ok(false)
    }

    /// Combine [`Filter::is_match`] and the operation set: on a match, apply
    /// the operations to the message's tags and report whether anything
    /// changed; otherwise leave the message untouched.
    pub fn apply_if_match(&self, msg: &mut MessageView) -> (r: Result<bool, Error>)
        requires
            self.wf(),
        ensures
            match self.spec_is_match(*old(msg)) {
                Err(e) => r == Err::<bool, Error>(e) && *final(msg) == *old(msg),
                Ok(false) => r == Ok::<bool, Error>(false) && *final(msg) == *old(msg),
                Ok(true) => {
                    &&& final(msg).tags.deep_view() == spec_apply_ops(
                        old(msg).tags.deep_view(),
                        self.op.add.deep_view(),
                        self.op.rm.deep_view(),
                    )
                    &&& final(msg).headers == old(msg).headers
                    &&& final(msg).filenames == old(msg).filenames
                    &&& final(msg).raw == old(msg).raw
                    &&& final(msg).thread_tags == old(msg).thread_tags
                    &&& r == Ok::<bool, Error>(
                        final(msg).tags.deep_view() != old(msg).tags.deep_view(),
                    )
                },
            },
    {
        match self.is_match(msg) {
            Err(e) => Err(e),
            Ok(false) => Ok(false),
            Ok(true) => {
                let changed = self.op.apply(&mut msg.tags);
                Ok(changed)
            },
        }
    }
}

/// Evaluate one compiled rule: the AND of its evaluated fields, a skipped
/// field contributing nothing, a failing field aborting.
fn eval_rule(cr: &Vec<(String, Vec<regex::Regex>)>, msg: &MessageView) -> (r: Result<bool, Error>)
    ensures
        r == (match spec_eval_rule(*msg, crule_view(cr@)) {
            Ok(b) => Ok::<bool, Error>(b),
            Err(_) => Err::<bool, Error>(Error::MimeParse),
        }),
{
    let ghost rv = crule_view(cr@);
    let mut acc = true;
    let mut j: usize = 0;
    proof {
        assert(rv.skip(0) =~= rv);
    }
    while j < cr.len()
        invariant
            j <= cr@.len(),
            rv == crule_view(cr@),
            rv.len() == cr@.len(),
            spec_eval_rule_from(*msg, rv, true) == spec_eval_rule_from(
                *msg,
                rv.skip(j as int),
                acc,
            ),
        decreases cr@.len() - j,
    {
        proof {
            assert(rv.skip(j as int)[0] == rv[j as int]);
            assert(rv.skip(j as int).drop_first() =~= rv.skip(j + 1));
            assert(rv[j as int] == (cr@[j as int].0@, sources_of(cr@[j as int].1@)));
        }
        match eval_field(&cr[j].0, &cr[j].1, msg) {
            Err(e) => {
                return Err(e);
            },
            Ok(None) => {},
            Ok(Some(b)) => {
                acc = acc && b;
            },
        }
        j += 1;
    }
    proof {
        assert(rv.skip(rv.len() as int) =~= Seq::<(Seq<char>, Seq<Seq<char>>)>::empty());
    }
    Ok(acc)
}

/// Whether the selector begins with the reserved virtual-field prefix.
fn starts_with_at(key: &String) -> (r: bool)
    ensures
        r == (key@.len() > 0 && key@[0] == '@'),
{
    if key.as_str().unicode_len() == 0 {
        false
    } else {
        key.as_str().get_char(0) == '@'
    }
}

/// Evaluate one field of a rule against the message, as specified by
/// [`spec_eval_field`] (`Ok(Some(b))` for a result, `Ok(None)` for a
/// skipped field, `Err` for an evaluation failure).
fn eval_field(key: &String, res: &Vec<regex::Regex>, msg: &MessageView) -> (r: Result<
    Option<bool>,
    Error,
>)
    ensures
        r == (match spec_eval_field(*msg, key@, sources_of(res@)) {
            FieldEval::Hit(b) => Ok::<Option<bool>, Error>(Some(b)),
            FieldEval::Skip => Ok::<Option<bool>, Error>(None),
            FieldEval::Fail => Err::<Option<bool>, Error>(Error::MimeParse),
        }),
{
    let at_path: String = "@path".to_owned();
    let at_tags: String = "@tags".to_owned();
    let at_thread_tags: String = "@thread-tags".to_owned();
    let at_body: String = "@body".to_owned();
    let at_attachment: String = "@attachment".to_owned();
    let at_attachment_body: String = "@attachment-body".to_owned();
    if *key == at_path {
        Ok(Some(any_match(res, &msg.filenames)))
    } else if *key == at_tags {
        Ok(Some(any_match(res, &msg.tags)))
    } else if *key == at_thread_tags {
        match &msg.thread_tags {
            None => Ok(None),
            Some(ts) => Ok(Some(any_match(res, ts))),
        }
    } else if *key == at_body || *key == at_attachment || *key == at_attachment_body {
        match parse_mime(&msg.raw) {
            None => Err(Error::MimeParse),
            Some(mail) => {
                if *key == at_body {
                    match &mail.body {
                        None => Err(Error::MimeParse),
                        Some(b) => Ok(Some(all_match(res, b))),
                    }
                } else if *key == at_attachment {
                    let names = attachment_names(&mail.parts);
                    proof {
                        assert(parts_view(mail.parts) == mime_parts(msg.raw@));
                    }
                    Ok(Some(any_match(res, &names)))
                } else {
                    proof {
                        assert(parts_view(mail.parts) == mime_parts(msg.raw@));
                    }
                    match attachment_texts(&mail.parts) {
                        Err(e) => Err(e),
                        Ok(bs) => Ok(Some(any_match(res, &bs))),
                    }
                }
            },
        }
    } else if starts_with_at(key) {
        Ok(None)
    } else {
        match msg.header(key) {
            None => Ok(Some(false)),
            Some(v) => Ok(Some(all_match(res, v))),
        }
    }
}

} // verus!

//! The engine's general guarantees, stated and proved over the match
//! evaluator's and the fingerprint's specifications.

use crate::error::Error;
use crate::filter::{
    spec_eval_field, spec_eval_rule, spec_eval_rule_from, spec_eval_rules, FieldEval, Filter,
};
use crate::fingerprint::rules_view;
use crate::message::MessageView;
use crate::mime::{mime_ok, mime_parts, spec_attachment_names, spec_attachment_texts};
use crate::patterns::spec_any_match;
use crate::rule::{lemma_sorted_lookup_unique, spec_lookup};
use vstd::prelude::*;

verus! {

/// A filter with an empty rule list never matches any message: the OR over
/// zero rules is vacuously false.
pub proof fn lemma_empty_filter_never_matches(f: Filter, m: MessageView)
    requires
        f.rules@.len() == 0,
        f.compiled@.len() == 0,
    ensures
        f.spec_is_match(m) == Ok::<bool, Error>(false),
{
    assert(crate::filter::compiled_view(f.compiled@).len() == 0);
}

/// A filter whose compiled cache does not line up with its rule count —
/// never compiled, or compiled more than once — always fails with the
/// uncompiled error, for every message.
pub proof fn lemma_uncompiled_always_errors(f: Filter, m: MessageView)
    requires
        f.compiled@.len() != f.rules@.len(),
    ensures
        f.spec_is_match(m) == Err::<bool, Error>(Error::Uncompiled),
{
}

/// Whether one evaluated field leaves the rule true: a skipped field always
/// does, a hit field by its own result.
pub open spec fn field_holds(m: MessageView, f: (Seq<char>, Seq<Seq<char>>)) -> bool {
    match spec_eval_field(m, f.0, f.1) {
        FieldEval::Hit(h) => h,
        _ => true,
    }
}

/// Folding a rule's fields in order is the same as conjoining them as a
/// set: the fold from `acc` succeeds with `true` exactly when `acc` holds
/// and every field holds.
proof fn lemma_rule_fold_is_conjunction(
    m: MessageView,
    rule: Seq<(Seq<char>, Seq<Seq<char>>)>,
    acc: bool,
)
    requires
        spec_eval_rule_from(m, rule, acc) is Ok,
    ensures
        spec_eval_rule_from(m, rule, acc)->Ok_0 <==> (acc && forall|j: int|
            0 <= j < rule.len() ==> field_holds(m, #[trigger] rule[j])),
    decreases rule.len(),
{
    if rule.len() > 0 {
        let tail = rule.drop_first();
        match spec_eval_field(m, rule[0].0, rule[0].1) {
            FieldEval::Fail => {
                assert(false);
            },
            FieldEval::Skip => {
                lemma_rule_fold_is_conjunction(m, tail, acc);
                assert(field_holds(m, rule[0]));
            },
            FieldEval::Hit(b) => {
                lemma_rule_fold_is_conjunction(m, tail, acc && b);
                assert(field_holds(m, rule[0]) == b);
            },
        }
        assert forall|j: int| 0 <= j < tail.len() implies #[trigger] tail[j] == rule[j + 1] by {}
        assert forall|j: int|
            0 <= j < rule.len() && (forall|p: int|
                0 <= p < tail.len() ==> field_holds(m, #[trigger] tail[p])) && field_holds(
                m,
                rule[0],
            ) implies field_holds(m, #[trigger] rule[j]) by {
            if j > 0 {
                assert(tail[j - 1] == rule[j]);
                assert(field_holds(m, tail[j - 1]));
            }
        }
        assert forall|p: int|
            0 <= p < tail.len() && (forall|j: int|
                0 <= j < rule.len() ==> field_holds(m, #[trigger] rule[j])) implies field_holds(
            m,
            #[trigger] tail[p],
        ) by {
            assert(tail[p] == rule[p + 1]);
            assert(field_holds(m, rule[p + 1]));
        }
    }
}

/// Field evaluation order within a rule never affects its boolean result:
/// AND is commutative and associative, so a successfully evaluated rule
/// holds exactly when every one of its evaluated fields holds, an
/// order-free characterization.
pub proof fn lemma_rule_order_free(m: MessageView, rule: Seq<(Seq<char>, Seq<Seq<char>>)>, b: bool)
    requires
        spec_eval_rule(m, rule) == Ok::<bool, ()>(b),
    ensures
        b <==> (forall|j: int| 0 <= j < rule.len() ==> field_holds(m, #[trigger] rule[j])),
{
    lemma_rule_fold_is_conjunction(m, rule, true);
}

/// The value-list fields hold exactly when ANY extracted value matches ANY
/// of the field's patterns.
pub proof fn lemma_any_value_any_pattern(m: MessageView, pats: Seq<Seq<char>>)
    ensures
        spec_eval_field(m, "@path"@, pats) == FieldEval::Hit(
            spec_any_match(pats, m.filenames.deep_view()),
        ),
        spec_eval_field(m, "@tags"@, pats) == FieldEval::Hit(
            spec_any_match(pats, m.tags.deep_view()),
        ),
        m.thread_tags matches Some(ts) ==> spec_eval_field(m, "@thread-tags"@, pats)
            == FieldEval::Hit(spec_any_match(pats, ts.deep_view())),
        mime_ok(m.raw@) ==> spec_eval_field(m, "@attachment"@, pats) == FieldEval::Hit(
            spec_any_match(pats, spec_attachment_names(mime_parts(m.raw@))),
        ),
        mime_ok(m.raw@) && spec_attachment_texts(mime_parts(m.raw@)) is Ok ==> spec_eval_field(
            m,
            "@attachment-body"@,
            pats,
        ) == FieldEval::Hit(
            spec_any_match(pats, spec_attachment_texts(mime_parts(m.raw@))->Ok_0),
        ),
{
    lemma_selector_literals_distinct();
}

/// The reserved selectors are pairwise distinct strings.
proof fn lemma_selector_literals_distinct()
    ensures
        "@path"@ != "@tags"@,
        "@path"@ != "@thread-tags"@,
        "@path"@ != "@body"@,
        "@path"@ != "@attachment"@,
        "@path"@ != "@attachment-body"@,
        "@tags"@ != "@thread-tags"@,
        "@tags"@ != "@body"@,
        "@tags"@ != "@attachment"@,
        "@tags"@ != "@attachment-body"@,
        "@thread-tags"@ != "@body"@,
        "@thread-tags"@ != "@attachment"@,
        "@thread-tags"@ != "@attachment-body"@,
        "@body"@ != "@attachment"@,
        "@body"@ != "@attachment-body"@,
        "@attachment"@ != "@attachment-body"@,
{
    reveal_strlit("@path");
    reveal_strlit("@tags");
    reveal_strlit("@thread-tags");
    reveal_strlit("@body");
    reveal_strlit("@attachment");
    reveal_strlit("@attachment-body");
    assert("@path"@.len() == 5 && "@tags"@.len() == 5 && "@body"@.len() == 5);
    assert("@thread-tags"@.len() == 12 && "@attachment"@.len() == 11);
    assert("@attachment-body"@.len() == 16);
    assert("@path"@[1] != "@tags"@[1]);
    assert("@path"@[1] != "@body"@[1]);
    assert("@tags"@[1] != "@body"@[1]);
    assert("@tags"@.len() != "@thread-tags"@.len());
    assert("@thread-tags"@.len() != "@attachment"@.len());
    assert("@thread-tags"@.len() != "@attachment-body"@.len());
    assert("@attachment"@.len() != "@attachment-body"@.len());
}

/// `@thread-tags` with no resolvable thread is skipped: it leaves the
/// rule's running result exactly as it was, neither confirming nor forcing
/// failure.
pub proof fn lemma_thread_tags_skip(
    m: MessageView,
    rule: Seq<(Seq<char>, Seq<Seq<char>>)>,
    acc: bool,
)
    requires
        m.thread_tags is None,
    ensures
        forall|pats: Seq<Seq<char>>| #[trigger] spec_eval_field(m, "@thread-tags"@, pats)
            == FieldEval::Skip,
        (rule.len() > 0 && rule[0].0 == "@thread-tags"@) ==> spec_eval_rule_from(m, rule, acc)
            == spec_eval_rule_from(m, rule.drop_first(), acc),
{
    lemma_selector_literals_distinct();
}

/// `name()` is stable: two unnamed filters whose rules bind every selector
/// alike, rule for rule — whatever order the pairs were inserted in —
/// fingerprint to the same identity string.
pub proof fn lemma_name_stable(f1: Filter, f2: Filter)
    requires
        f1.name is None,
        f2.name is None,
        f1.rules@.len() == f2.rules@.len(),
        forall|i: int| 0 <= i < f1.rules@.len() ==> (#[trigger] f1.rules@[i]).wf(),
        forall|i: int| 0 <= i < f2.rules@.len() ==> (#[trigger] f2.rules@[i]).wf(),
        forall|i: int, k: Seq<char>|
            0 <= i < f1.rules@.len() ==> #[trigger] spec_lookup(f1.rules@[i]@, k) == spec_lookup(
                f2.rules@[i]@,
                k,
            ),
    ensures
        f1.spec_name() == f2.spec_name(),
{
    assert forall|i: int| 0 <= i < f1.rules@.len() implies (#[trigger] f1.rules@[i])@
        == f2.rules@[i]@ by {
        assert forall|k: Seq<char>| #[trigger] spec_lookup(f1.rules@[i]@, k) == spec_lookup(
            f2.rules@[i]@,
            k,
        ) by {}
        lemma_sorted_lookup_unique(f1.rules@[i]@, f2.rules@[i]@);
    }
    assert(rules_view(f1.rules@) =~= rules_view(f2.rules@));
}

/// A filter rebuilt from its persisted parts — name, description, rules and
/// operations, with the compiled cache never serialized — keeps its
/// identity, and must be freshly compiled before any match: with rules
/// present and an empty cache, matching always yields the uncompiled error.
pub proof fn lemma_rebuilt_filter(f: Filter, g: Filter, m: MessageView)
    requires
        g.name == f.name,
        g.desc == f.desc,
        g.rules == f.rules,
        g.op == f.op,
        g.compiled@.len() == 0,
        f.rules@.len() > 0,
    ensures
        g.spec_name() == f.spec_name(),
        g.spec_is_match(m) == Err::<bool, Error>(Error::Uncompiled),
{
}


/// A filter's OR over its rules is order-free where no rule fails: the
/// rule list matches exactly when SOME rule holds, and misses exactly when
/// none does.
pub proof fn lemma_rules_or(
    m: MessageView,
    rules: Seq<Seq<(Seq<char>, Seq<Seq<char>>)>>,
    b: bool,
)
    requires
        spec_eval_rules(m, rules) == Ok::<bool, ()>(b),
    ensures
        b <==> exists|i: int|
            0 <= i < rules.len() && #[trigger] spec_eval_rule(m, rules[i]) == Ok::<bool, ()>(true),
    decreases rules.len(),
{
    if rules.len() > 0 {
        let tail = rules.drop_first();
        match spec_eval_rule(m, rules[0]) {
            Err(_) => {
                assert(false);
            },
            Ok(hit) => {
                if hit {
                    assert(spec_eval_rule(m, rules[0]) == Ok::<bool, ()>(true));
                } else {
                    lemma_rules_or(m, tail, b);
                    assert forall|i: int| 0 <= i < tail.len() implies #[trigger] tail[i]
                        == rules[i + 1] by {}
                    if b {
                        let i = choose|i: int|
                            0 <= i < tail.len() && #[trigger] spec_eval_rule(m, tail[i])
                                == Ok::<bool, ()>(true);
                        assert(spec_eval_rule(m, rules[i + 1]) == Ok::<bool, ()>(true));
                    } else {
                        assert forall|i: int|
                            0 <= i < rules.len() implies #[trigger] spec_eval_rule(m, rules[i])
                            != Ok::<bool, ()>(true) by {
                            if i > 0 {
                                assert(tail[i - 1] == rules[i]);
                            }
                        }
                    }
                }
            },
        }
    }
}

} // verus!

//! The content-derived identity of a filter.
//!
//! A filter without a user-assigned name is identified by a fingerprint: its
//! rules are flattened into a canonical byte string (keys are already in
//! canonical order inside each rule), hashed with 64-bit FNV-1a, and printed
//! as lowercase hexadecimal. The encoding and the hash are fully specified
//! here, so the fingerprint is reproducible and depends on nothing but the
//! rules' content.

use crate::rule::{Rule, ValueV};
use vstd::prelude::*;
use vstd::string::*;

verus! {

/// The FNV-1a 64-bit offset basis.
pub const FNV_OFFSET: u64 = 0xcbf2_9ce4_8422_2325;

/// The FNV-1a 64-bit prime.
pub const FNV_PRIME: u64 = 0x0000_0100_0000_01b3;

/// One FNV-1a step: fold a byte into the running hash.
pub open spec fn fnv_step(h: u64, b: u8) -> u64 {
    vstd::wrapping::u64_specs::wrapping_mul(h ^ (b as u64), FNV_PRIME)
}

/// FNV-1a folded over `bytes`, starting from `h`.
pub open spec fn fnv1a_from(h: u64, bytes: Seq<u8>) -> u64
    decreases bytes.len(),
{
    if bytes.len() == 0 {
        h
    } else {
        fnv1a_from(fnv_step(h, bytes[0]), bytes.drop_first())
    }
}

/// The FNV-1a 64-bit hash of a byte string.
pub open spec fn fnv1a(bytes: Seq<u8>) -> u64 {
    fnv1a_from(FNV_OFFSET, bytes)
}

/// The FNV-1a 64-bit hash, computed as specified by [`fnv1a`].
pub fn fnv1a_hash(bytes: &Vec<u8>) -> (r: u64)
    ensures
        r == fnv1a(bytes@),
{
    let mut h: u64 = FNV_OFFSET;
    let mut i: usize = 0;
    proof {
        assert(bytes@.skip(0) =~= bytes@);
    }
    while i < bytes.len()
        invariant
            i <= bytes@.len(),
            fnv1a(bytes@) == fnv1a_from(h, bytes@.skip(i as int)),
        decreases bytes@.len() - i,
    {
        proof {
            assert(bytes@.skip(i as int)[0] == bytes@[i as int]);
            assert(bytes@.skip(i as int).drop_first() =~= bytes@.skip(i + 1));
        }
        h = (h ^ (bytes[i] as u64)).wrapping_mul(FNV_PRIME);
        i += 1;
    }
    h
}

/// The hexadecimal digit for a value below 16.
pub open spec fn spec_hex_digit(d: nat) -> char {
    if d == 0 { '0' } else if d == 1 { '1' } else if d == 2 { '2' } else if d == 3 { '3' }
    else if d == 4 { '4' } else if d == 5 { '5' } else if d == 6 { '6' } else if d == 7 { '7' }
    else if d == 8 { '8' } else if d == 9 { '9' } else if d == 10 { 'a' } else if d == 11 { 'b' }
    else if d == 12 { 'c' } else if d == 13 { 'd' } else if d == 14 { 'e' } else { 'f' }
}

/// Lowercase hexadecimal digits of `n`, most significant first, with no
/// leading zeroes (`0` itself prints as one digit).
pub open spec fn spec_hex(n: nat) -> Seq<char>
    decreases n,
{
    if n < 16 {
        seq![spec_hex_digit(n)]
    } else {
        spec_hex(n / 16).push(spec_hex_digit(n % 16))
    }
}

/// The one-character string for a hexadecimal digit.
fn hex_digit_str(d: u64) -> (r: &'static str)
    requires
        d < 16,
    ensures
        r@ =~= seq![spec_hex_digit(d as nat)],
{
    proof {
        reveal_strlit("0");
        reveal_strlit("1");
        reveal_strlit("2");
        reveal_strlit("3");
        reveal_strlit("4");
        reveal_strlit("5");
        reveal_strlit("6");
        reveal_strlit("7");
        reveal_strlit("8");
        reveal_strlit("9");
        reveal_strlit("a");
        reveal_strlit("b");
        reveal_strlit("c");
        reveal_strlit("d");
        reveal_strlit("e");
        reveal_strlit("f");
    }
    if d == 0 { "0" } else if d == 1 { "1" } else if d == 2 { "2" } else if d == 3 { "3" }
    else if d == 4 { "4" } else if d == 5 { "5" } else if d == 6 { "6" } else if d == 7 { "7" }
    else if d == 8 { "8" } else if d == 9 { "9" } else if d == 10 { "a" } else if d == 11 { "b" }
    else if d == 12 { "c" } else if d == 13 { "d" } else if d == 14 { "e" } else { "f" }
}

/// `n` printed as lowercase hexadecimal, as specified by [`spec_hex`].
pub fn hex_string(n: u64) -> (r: String)
    ensures
        r@ == spec_hex(n as nat),
    decreases n,
{
    if n < 16 {
        String::from_str(hex_digit_str(n))
    } else {
        let mut s = hex_string(n / 16);
        s.append(hex_digit_str(n % 16));
        proof {
            assert(s@ =~= spec_hex((n / 16) as nat).push(spec_hex_digit((n % 16) as nat)));
        }
        s
    }
}

/// The mathematical content of a rule list.
pub open spec fn rules_view(rules: Seq<Rule>) -> Seq<Seq<(Seq<char>, ValueV)>> {
    rules.map(|_i: int, ru: Rule| ru@)
}

/// A string's canonical bytes: its UTF-8 encoding.
pub open spec fn enc_str(s: Seq<char>) -> Seq<u8> {
    vstd::utf8::encode_utf8(s)
}

/// A pattern list's canonical bytes: each pattern closed by `0xff`, the
/// whole list closed by `0xfd`. Neither byte occurs in any UTF-8 encoding,
/// so both where a pattern ends and where the list ends are decidable.
pub open spec fn enc_pats(ps: Seq<Seq<char>>) -> Seq<u8>
    decreases ps.len(),
{
    if ps.len() == 0 {
        seq![0xfdu8]
    } else {
        enc_str(ps[0]) + seq![0xffu8] + enc_pats(ps.drop_first())
    }
}

/// A value's canonical bytes: a variant tag, then its content. Every
/// variant's content is self-delimiting, so the encoding of a rule is
/// prefix-free: no two distinct pair sequences share an encoding.
pub open spec fn enc_value(v: ValueV) -> Seq<u8> {
    match v {
        ValueV::Single(s) => seq![1u8] + enc_str(s) + seq![0xffu8],
        ValueV::Multiple(ps) => seq![2u8] + enc_pats(ps),
        ValueV::Flag(b) => seq![3u8, if b { 1u8 } else { 0u8 }],
    }
}

/// A field constraint's canonical bytes: the key, `0xff`, the value.
pub open spec fn enc_pair(p: (Seq<char>, ValueV)) -> Seq<u8> {
    enc_str(p.0) + seq![0xffu8] + enc_value(p.1)
}

/// A rule's canonical bytes: its pairs in canonical order, closed by `0xfe`.
pub open spec fn enc_rule(pairs: Seq<(Seq<char>, ValueV)>) -> Seq<u8>
    decreases pairs.len(),
{
    if pairs.len() == 0 {
        seq![0xfeu8]
    } else {
        enc_pair(pairs[0]) + enc_rule(pairs.drop_first())
    }
}

/// A rule list's canonical bytes.
pub open spec fn enc_rules(rules: Seq<Seq<(Seq<char>, ValueV)>>) -> Seq<u8>
    decreases rules.len(),
{
    if rules.len() == 0 {
        Seq::empty()
    } else {
        enc_rule(rules[0]) + enc_rules(rules.drop_first())
    }
}

/// Append a string's canonical bytes.
fn push_str_bytes(out: &mut Vec<u8>, s: &str)
    ensures
        final(out)@ == old(out)@ + enc_str(s@),
{
    let bs = s.as_bytes_vec();
    let mut i: usize = 0;
    while i < bs.len()
        invariant
            i <= bs@.len(),
            bs@ == enc_str(s@),
            out@ == old(out)@ + bs@.take(i as int),
        decreases bs@.len() - i,
    {
        out.push(bs[i]);
        proof {
            assert(old(out)@ + bs@.take(i + 1) =~= (old(out)@ + bs@.take(i as int)).push(
                bs@[i as int],
            ));
        }
        i += 1;
    }
    proof {
        assert(bs@.take(bs@.len() as int) =~= bs@);
    }
}

/// Append a pattern list's canonical bytes.
fn push_pats(out: &mut Vec<u8>, ps: &Vec<String>)
    ensures
        final(out)@ == old(out)@ + enc_pats(ps.deep_view()),
{
    let mut i: usize = 0;
    proof {
        assert(ps.deep_view().skip(0) =~= ps.deep_view());
    }
    while i < ps.len()
        invariant
            i <= ps@.len(),
            ps.deep_view().len() == ps@.len(),
            out@ + enc_pats(ps.deep_view().skip(i as int)) == old(out)@ + enc_pats(ps.deep_view()),
        decreases ps@.len() - i,
    {
        push_str_bytes(out, ps[i].as_str());
        out.push(0xffu8);
        proof {
            let pv = ps.deep_view();
            assert(pv.skip(i as int)[0] == pv[i as int]);
            assert(pv.skip(i as int).drop_first() =~= pv.skip(i + 1));
            assert(pv[i as int] == ps@[i as int]@);
            assert(enc_pats(pv.skip(i as int)) == enc_str(pv[i as int]) + seq![0xffu8] + enc_pats(
                pv.skip(i + 1),
            ));
        }
        i += 1;
    }
    out.push(0xfdu8);
    proof {
        assert(ps.deep_view().skip(ps@.len() as int) =~= Seq::<Seq<char>>::empty());
        assert(out@ =~= old(out)@ + enc_pats(ps.deep_view()));
    }
}

/// Append a rule's canonical bytes.
fn push_rule(out: &mut Vec<u8>, rule: &Rule)
    ensures
        final(out)@ == old(out)@ + enc_rule(rule@),
{
    let n = rule.pairs.len();
    let mut i: usize = 0;
    proof {
        assert(rule@.skip(0) =~= rule@);
    }
    while i < n
        invariant
            i <= n,
            n == rule@.len(),
            out@ + enc_rule(rule@.skip(i as int)) == old(out)@ + enc_rule(rule@),
        decreases n - i,
    {
        proof {
            assert(rule@.skip(i as int)[0] == rule@[i as int]);
            assert(rule@.skip(i as int).drop_first() =~= rule@.skip(i + 1));
        }
        let ghost before = out@;
        let ghost p = rule@[i as int];
        push_str_bytes(out, rule.pairs[i].0.as_str());
        out.push(0xffu8);
        proof {
            assert(p.0 == rule.pairs@[i as int].0@);
            assert(p.1 == rule.pairs@[i as int].1@);
            assert(out@ =~= before + enc_str(p.0) + seq![0xffu8]);
        }
        match &rule.pairs[i].1 {
            crate::rule::Value::Single(s) => {
                out.push(1u8);
                push_str_bytes(out, s.as_str());
                out.push(0xffu8);
                proof {
                    assert(enc_value(p.1) =~= seq![1u8] + enc_str(s@) + seq![0xffu8]);
                    assert(out@ =~= before + enc_pair(p));
                }
            },
            crate::rule::Value::Multiple(ps) => {
                out.push(2u8);
                push_pats(out, ps);
                proof {
                    assert(enc_value(p.1) =~= seq![2u8] + enc_pats(ps.deep_view()));
                    assert(out@ =~= before + enc_pair(p));
                }
            },
            crate::rule::Value::Flag(b) => {
                out.push(3u8);
                out.push(if *b { 1u8 } else { 0u8 });
                proof {
                    assert(enc_value(p.1) =~= seq![3u8, if *b { 1u8 } else { 0u8 }]);
                    assert(out@ =~= before + enc_pair(p));
                }
            },
        }
        proof {
            assert(enc_rule(rule@.skip(i as int)) == enc_pair(p) + enc_rule(rule@.skip(i + 1)));
            assert(out@ + enc_rule(rule@.skip(i + 1)) =~= before + enc_rule(rule@.skip(i as int)));
        }
        i += 1;
    }
    out.push(0xfeu8);
    proof {
        assert(rule@.skip(rule@.len() as int) =~= Seq::<(Seq<char>, ValueV)>::empty());
        assert(out@ =~= old(out)@ + enc_rule(rule@));
    }
}

/// The canonical bytes of a rule list, as specified by [`enc_rules`].
pub fn encode_rules(rules: &Vec<Rule>) -> (r: Vec<u8>)
    ensures
        r@ == enc_rules(rules_view(rules@)),
{
    let ghost rv = rules_view(rules@);
    let mut out: Vec<u8> = Vec::new();
    let mut i: usize = 0;
    proof {
        assert(rv.skip(0) =~= rv);
        assert(out@ + enc_rules(rv.skip(0)) =~= Seq::<u8>::empty() + enc_rules(rv));
    }
    while i < rules.len()
        invariant
            i <= rules@.len(),
            rv == rules_view(rules@),
            rv.len() == rules@.len(),
            out@ + enc_rules(rv.skip(i as int)) == Seq::<u8>::empty() + enc_rules(rv),
        decreases rules@.len() - i,
    {
        proof {
            assert(rv.skip(i as int)[0] == rv[i as int]);
            assert(rv.skip(i as int).drop_first() =~= rv.skip(i + 1));
            assert(rv[i as int] == rules@[i as int]@);
        }
        push_rule(&mut out, &rules[i]);
        proof {
            assert(out@ + enc_rules(rv.skip(i + 1)) =~= Seq::<u8>::empty() + enc_rules(rv));
        }
        i += 1;
    }
    proof {
        assert(rv.skip(rv.len() as int) =~= Seq::<Seq<(Seq<char>, ValueV)>>::empty());
        assert(out@ =~= Seq::<u8>::empty() + enc_rules(rv));
    }
    out
}

/// The fingerprint of a rule list: FNV-1a over the canonical bytes, printed
/// as lowercase hexadecimal.
pub open spec fn spec_fingerprint(rules: Seq<Seq<(Seq<char>, ValueV)>>) -> Seq<char> {
    spec_hex(fnv1a(enc_rules(rules)) as nat)
}

/// The fingerprint of a rule list, as specified by [`spec_fingerprint`].
pub fn fingerprint(rules: &Vec<Rule>) -> (r: String)
    ensures
        r@ == spec_fingerprint(rules_view(rules@)),
{
    let bytes = encode_rules(rules);
    hex_string(fnv1a_hash(&bytes))
}

} // verus!

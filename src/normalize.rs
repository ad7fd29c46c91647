//! Rewriting of known mirror hosts to the canonical streaming host.

use vstd::prelude::*;

verus! {

/// Number of mirror rules in the rewrite table.
pub const RULE_COUNT: usize = 4;

/// True when `p` occurs as a contiguous run of characters in `s`.
pub open spec fn contains_sub(s: Seq<char>, p: Seq<char>) -> bool {
    exists|i: int| 0 <= i && i + p.len() <= s.len() && #[trigger] s.subrange(i, i + p.len()) == p
}

/// Every non-overlapping occurrence of `from`, scanned left to right, replaced by `to`.
pub open spec fn replace_all(s: Seq<char>, from: Seq<char>, to: Seq<char>) -> Seq<char>
    decreases s.len(),
{
    if from.len() == 0 || s.len() < from.len() {
        s
    } else if s.subrange(0, from.len() as int) == from {
        to + replace_all(s.subrange(from.len() as int, s.len() as int), from, to)
    } else {
        seq![s[0]] + replace_all(s.subrange(1, s.len() as int), from, to)
    }
}

/// The mirror substring of rule `i`.
pub open spec fn rule_from(i: int) -> Seq<char> {
    if i == 0 {
        "monochrome.tf/#"@
    } else if i == 1 {
        "monochrome.prigoana.com/#"@
    } else if i == 2 {
        "tidal.squid.wtf"@
    } else {
        "tidal.qqdl.site"@
    }
}

/// The replacement text of rule `i`.
pub open spec fn rule_to(i: int) -> Seq<char> {
    if i == 0 || i == 1 {
        "listen.tidal.com/#"@
    } else {
        "listen.tidal.com"@
    }
}

/// The result of applying the first rule, at index `i` or later, whose mirror occurs in `s`.
pub open spec fn normalized_from(s: Seq<char>, i: int) -> Seq<char>
    decreases RULE_COUNT - i,
{
    if i < 0 || i >= RULE_COUNT {
        s
    } else if contains_sub(s, rule_from(i)) {
        replace_all(s, rule_from(i), rule_to(i))
    } else {
        normalized_from(s, i + 1)
    }
}

/// The normalized form of a URL.
pub open spec fn normalized(s: Seq<char>) -> Seq<char> {
    normalized_from(s, 0)
}

/// Relies on str::contains with a `&str` pattern: true iff the pattern occurs in the text.
#[verifier::external_body]
fn text_contains(s: &str, p: &str) -> (r: bool)
    ensures
        r == contains_sub(s@, p@),
{
    s.contains(p)
}

/// Relies on str::replace with a `&str` pattern: each non-overlapping match,
/// found left to right, is replaced.
#[verifier::external_body]
fn text_replace(s: &str, from: &str, to: &str) -> (r: String)
    requires
        from@.len() > 0,
    ensures
        r@ == replace_all(s@, from@, to@),
{
    s.replace(from, to)
}

fn rule(i: usize) -> (r: (&'static str, &'static str))
    requires
        i < RULE_COUNT,
    ensures
        r.0@ == rule_from(i as int),
        r.1@ == rule_to(i as int),
        r.0@.len() > 0,
{
    proof {
        reveal_strlit("monochrome.tf/#");
        reveal_strlit("monochrome.prigoana.com/#");
        reveal_strlit("tidal.squid.wtf");
        reveal_strlit("tidal.qqdl.site");
    }
    if i == 0 {
        ("monochrome.tf/#", "listen.tidal.com/#")
    } else if i == 1 {
        ("monochrome.prigoana.com/#", "listen.tidal.com/#")
    } else if i == 2 {
        ("tidal.squid.wtf", "listen.tidal.com")
    } else {
        ("tidal.qqdl.site", "listen.tidal.com")
    }
}

/// Rewrites the first mirror (in table order) that occurs in `url` to the
/// canonical host; a URL with no known mirror comes back unchanged.
pub fn normalize_url(url: &str) -> (r: String)
    ensures
        r@ == normalized(url@),
{
    let mut i: usize = 0;
    while i < RULE_COUNT
        invariant
            i <= RULE_COUNT,
            normalized(url@) == normalized_from(url@, i as int),
        decreases RULE_COUNT - i,
    {
        let (from, to) = rule(i);
        if text_contains(url, from) {
            return text_replace(url, from, to);
        }
        i = i + 1;
    }
    url.to_string()
}

/// Where `from` occurs, replacing it leaves `to` in the result.
pub proof fn lemma_replacement_present(s: Seq<char>, from: Seq<char>, to: Seq<char>)
    requires
        from.len() > 0,
        contains_sub(s, from),
    ensures
        contains_sub(replace_all(s, from, to), to),
    decreases s.len(),
{
    let r = replace_all(s, from, to);
    let i = choose|i: int| 0 <= i && i + from.len() <= s.len() && #[trigger] s.subrange(i, i + from.len()) == from;
    if s.subrange(0, from.len() as int) == from {
        let rest = replace_all(s.subrange(from.len() as int, s.len() as int), from, to);
        assert(r == to + rest);
        assert(r.subrange(0, 0 + to.len() as int) =~= to);
    } else {
        assert(i > 0);
        let t = s.subrange(1, s.len() as int);
        assert(t.subrange(i - 1, i - 1 + from.len()) =~= s.subrange(i, i + from.len()));
        lemma_replacement_present(t, from, to);
        let x = replace_all(t, from, to);
        let j = choose|j: int| 0 <= j && j + to.len() <= x.len() && #[trigger] x.subrange(j, j + to.len()) == to;
        assert(r == seq![s[0]] + x);
        assert(r.subrange(j + 1, j + 1 + to.len()) =~= x.subrange(j, j + to.len()));
    }
}

/// Rules before `i` whose mirrors do not occur in `s` are passed over.
proof fn lemma_skip_unmatched(s: Seq<char>, k: int, i: int)
    requires
        0 <= k <= i <= RULE_COUNT,
        forall|j: int| 0 <= j < i ==> !contains_sub(s, #[trigger] rule_from(j)),
    ensures
        normalized_from(s, k) == normalized_from(s, i),
    decreases i - k,
{
    if k < i {
        assert(!contains_sub(s, rule_from(k)));
        lemma_skip_unmatched(s, k + 1, i);
    }
}

/// When rule `i` is the first whose mirror occurs in `s`, normalization
/// replaces that mirror by its canonical text and applies no other rule.
pub proof fn lemma_first_matching_rule_applies(s: Seq<char>, i: int)
    requires
        0 <= i < RULE_COUNT,
        contains_sub(s, rule_from(i)),
        forall|j: int| 0 <= j < i ==> !contains_sub(s, #[trigger] rule_from(j)),
    ensures
        normalized(s) == replace_all(s, rule_from(i), rule_to(i)),
        contains_sub(normalized(s), rule_to(i)),
{
    lemma_skip_unmatched(s, 0, i);
    reveal_strlit("monochrome.tf/#");
    reveal_strlit("monochrome.prigoana.com/#");
    reveal_strlit("tidal.squid.wtf");
    reveal_strlit("tidal.qqdl.site");
    lemma_replacement_present(s, rule_from(i), rule_to(i));
}

/// A URL in which no mirror occurs is left as it is.
pub proof fn lemma_unmatched_unchanged(s: Seq<char>)
    requires
        forall|j: int| 0 <= j < RULE_COUNT ==> !contains_sub(s, #[trigger] rule_from(j)),
    ensures
        normalized(s) == s,
{
    lemma_skip_unmatched(s, 0, RULE_COUNT as int);
}

} // verus!

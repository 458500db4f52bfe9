//! Domain names: validation, extraction from user identifiers and from free
//! text, and seed-list handling.

use vstd::prelude::*;

use crate::strutil::{
    ends_with, has_char, str_ends_with, str_has_char, trim_end_ch, trim_end_char,
    vec_contains_str,
};

verus! {

// ---------------------------------------------------------------------------
// Validation
// ---------------------------------------------------------------------------

/// A domain is acceptable to the index when it is non-empty and carries
/// neither a path separator nor a port separator.
pub open spec fn spec_valid_domain(s: Seq<char>) -> bool {
    &&& s.len() > 0
    &&& forall|i: int| 0 <= i < s.len() ==> s[i] != '/' && s[i] != ':'
}

/// Validate a submitted domain: non-empty, no `/`, no `:`.
pub fn is_valid_domain(domain: &str) -> (r: bool)
    ensures
        r == spec_valid_domain(domain@),
{
    let n = domain.unicode_len();
    if n == 0 {
        return false;
    }
    let mut i: usize = 0;
    while i < n
        invariant
            n == domain@.len(),
            0 <= i <= n,
            forall|k: int| 0 <= k < i ==> domain@[k] != '/' && domain@[k] != ':',
        decreases n - i,
    {
        let c = domain.get_char(i);
        if c == '/' || c == ':' {
            return false;
        }
        i = i + 1;
    }
    true
}

// ---------------------------------------------------------------------------
// User identifiers
// ---------------------------------------------------------------------------

/// Position of the first `:` in `s`; the length when there is none.
pub open spec fn spec_first_colon(s: Seq<char>) -> int
    decreases s.len(),
{
    if s.len() == 0 {
        0
    } else if s[0] == ':' {
        0
    } else {
        1 + spec_first_colon(s.skip(1))
    }
}

proof fn lemma_first_colon_at(s: Seq<char>, i: int)
    requires
        0 <= i < s.len(),
        s[i] == ':',
        forall|k: int| 0 <= k < i ==> s[k] != ':',
    ensures
        spec_first_colon(s) == i,
    decreases i,
{
    if i > 0 {
        assert(s[0] != ':');
        assert(forall|k: int| 0 <= k < i - 1 ==> s.skip(1)[k] == s[k + 1]);
        lemma_first_colon_at(s.skip(1), i - 1);
    }
}

/// The host part of a user identifier `@local:host`: everything after the
/// first `:`, provided the identifier starts with `@` and has one.
pub open spec fn spec_mxid_host(s: Seq<char>) -> Option<Seq<char>> {
    if s.len() > 0 && s[0] == '@' && has_char(s, ':') {
        Some(s.skip(spec_first_colon(s) + 1))
    } else {
        None
    }
}

/// Extract the host part of a user identifier of the form `@local:host`.
pub fn extract_domain_from_mxid(mxid: &str) -> (r: Option<String>)
    ensures
        r.deep_view() == spec_mxid_host(mxid@),
{
    let n = mxid.unicode_len();
    if n == 0 {
        return None;
    }
    if mxid.get_char(0) != '@' {
        return None;
    }
    match crate::strutil::str_find_char(mxid, ':') {
        Some(i) => {
            let host = mxid.substring_char(i + 1, n);
            let d = String::from_str(host);
            proof {
                assert(has_char(mxid@, ':'));
                lemma_first_colon_at(mxid@, i as int);
                assert(mxid@.subrange(i + 1 as int, n as int) =~= mxid@.skip(i + 1));
            }
            Some(d)
        },
        None => {
            proof {
                assert(!has_char(mxid@, ':'));
            }
            None
        },
    }
}

// ---------------------------------------------------------------------------
// Free text
// ---------------------------------------------------------------------------

/// The matches that the domain pattern finds in `text`: non-overlapping,
/// in order of appearance.
pub uninterp spec fn regex_matches(pattern: Seq<char>, text: Seq<char>) -> Seq<Seq<char>>;

/// Relies on regex::Regex::new and Regex::find_iter: compiles `pattern` and
/// hands back the non-overlapping matches found in `text`, in order of
/// appearance; `None` when `pattern` is not a valid regular expression.
/// Regex::new fails only for an invalid or oversized pattern, and the fixed
/// domain pattern is valid and small, so for it a result is always returned.
#[verifier::external_body]
fn regex_find_all(pattern: &str, text: &str) -> (r: Option<Vec<String>>)
    ensures
        r matches Some(v) ==> v.deep_view() == regex_matches(pattern@, text@),
        pattern@ == domain_pattern() ==> r is Some,
{
    match regex::Regex::new(pattern) {
        Ok(re) => Some(re.find_iter(text).map(|m| m.as_str().to_string()).collect()),
        Err(_) => None,
    }
}

/// The pattern for domain-like tokens in room topics.
pub open spec fn domain_pattern() -> Seq<char> {
    "[a-zA-Z0-9][-a-zA-Z0-9]*\\.[a-zA-Z]{2,}[/:]?"@
}

/// A trimmed token is kept when it still has a dot and is not a `.onion`
/// address.
pub open spec fn keep_domain_token(t: Seq<char>) -> bool {
    has_char(t, '.') && !ends_with(t, ".onion"@)
}

/// Matched tokens, each stripped of trailing `/`, those not kept removed.
pub open spec fn clean_domain_tokens(ms: Seq<Seq<char>>) -> Seq<Seq<char>>
    decreases ms.len(),
{
    if ms.len() == 0 {
        Seq::empty()
    } else {
        let rest = clean_domain_tokens(ms.drop_last());
        let t = trim_end_ch(ms.last(), '/');
        if keep_domain_token(t) {
            rest.push(t)
        } else {
            rest
        }
    }
}

/// The domain-like tokens of a text: the cleaned matches of the domain
/// pattern.
pub open spec fn spec_text_domains(text: Seq<char>) -> Seq<Seq<char>> {
    clean_domain_tokens(regex_matches(domain_pattern(), text))
}

/// Domain-like tokens found in free text, stripped of trailing `/`,
/// `.onion` addresses and dot-free tokens excluded.
pub fn extract_domains_from_text(text: &str) -> (r: Vec<String>)
    ensures
        r.deep_view() == spec_text_domains(text@),
{
    let found = regex_find_all("[a-zA-Z0-9][-a-zA-Z0-9]*\\.[a-zA-Z]{2,}[/:]?", text);
    match found {
        None => {
            // unreachable: the wrapper always answers for the fixed pattern
            proof {
                assert(false);
            }
            Vec::new()
        },
        Some(ms) => {
            let ghost mv = ms.deep_view();
            let mut out: Vec<String> = Vec::new();
            let mut i: usize = 0;
            proof {
                assert(out.deep_view() =~= clean_domain_tokens(mv.take(0)));
            }
            while i < ms.len()
                invariant
                    mv == ms.deep_view(),
                    mv.len() == ms.len(),
                    forall|k: int| 0 <= k < ms.len() ==> mv[k] == ms[k]@,
                    0 <= i <= ms.len(),
                    out.deep_view() == clean_domain_tokens(mv.take(i as int)),
                decreases ms.len() - i,
            {
                let t = trim_end_char(ms[i].as_str(), '/');
                let ghost pre = out.deep_view();
                if str_has_char(t.as_str(), '.') && !str_ends_with(t.as_str(), ".onion") {
                    out.push(t);
                    proof {
                        assert(out.deep_view() =~= pre.push(trim_end_ch(mv[i as int], '/')));
                    }
                }
                proof {
                    assert(mv.take(i + 1 as int).drop_last() =~= mv.take(i as int));
                    assert(mv.take(i + 1 as int).last() == mv[i as int]);
                }
                i = i + 1;
            }
            proof {
                assert(mv.take(ms.len() as int) =~= mv);
            }
            out
        },
    }
}

// ---------------------------------------------------------------------------
// Seed lists
// ---------------------------------------------------------------------------

/// `s` split at every occurrence of `c`; empty pieces are preserved, and the
/// empty string splits to one empty piece.
pub open spec fn split_ch(s: Seq<char>, c: char) -> Seq<Seq<char>>
    decreases s.len(),
{
    if s.len() == 0 {
        seq![Seq::<char>::empty()]
    } else if s[0] == c {
        seq![Seq::<char>::empty()] + split_ch(s.skip(1), c)
    } else {
        let rest = split_ch(s.skip(1), c);
        seq![seq![s[0]] + rest[0]] + rest.skip(1)
    }
}

proof fn lemma_split_len(s: Seq<char>, c: char)
    ensures
        split_ch(s, c).len() >= 1,
    decreases s.len(),
{
    if s.len() > 0 {
        lemma_split_len(s.skip(1), c);
    }
}

/// Appending the separator appends one empty piece.
proof fn lemma_split_append_sep(s: Seq<char>, c: char)
    ensures
        split_ch(s.push(c), c) =~~= split_ch(s, c).push(Seq::<char>::empty()),
    decreases s.len(),
{
    lemma_split_len(s, c);
    if s.len() == 0 {
        assert(s.push(c)[0] == c);
        assert(s.push(c).skip(1) =~= s);
    } else {
        assert(s.push(c)[0] == s[0]);
        assert(s.push(c).skip(1) =~= s.skip(1).push(c));
        lemma_split_append_sep(s.skip(1), c);
        lemma_split_len(s.skip(1), c);
    }
}

/// Appending an ordinary character extends the last piece.
proof fn lemma_split_append_char(s: Seq<char>, c: char, d: char)
    requires
        d != c,
    ensures
        split_ch(s.push(d), c) =~~= split_ch(s, c).update(
            split_ch(s, c).len() - 1,
            split_ch(s, c).last().push(d),
        ),
    decreases s.len(),
{
    lemma_split_len(s, c);
    if s.len() == 0 {
        assert(s.push(d)[0] == d);
        assert(s.push(d).skip(1) =~= s);
    } else {
        assert(s.push(d)[0] == s[0]);
        assert(s.push(d).skip(1) =~= s.skip(1).push(d));
        lemma_split_append_char(s.skip(1), c, d);
        lemma_split_len(s.skip(1), c);
    }
}

/// Split a comma-separated seed list into its pieces.
pub fn split_seed_servers(s: &str) -> (r: Vec<String>)
    ensures
        r.deep_view() == split_ch(s@, ','),
{
    let n = s.unicode_len();
    let mut out: Vec<String> = Vec::new();
    let mut cur = String::new();
    let mut i: usize = 0;
    proof {
        assert(s@.take(0) =~= Seq::<char>::empty());
        assert(out.deep_view().push(cur@) =~= split_ch(s@.take(0), ','));
    }
    while i < n
        invariant
            n == s@.len(),
            0 <= i <= n,
            out.deep_view().push(cur@) == split_ch(s@.take(i as int), ','),
        decreases n - i,
    {
        let c = s.get_char(i);
        let ghost prefix = s@.take(i as int);
        proof {
            assert(s@.take(i + 1 as int) =~= prefix.push(s@[i as int]));
            lemma_split_len(prefix, ',');
        }
        if c == ',' {
            proof {
                lemma_split_append_sep(prefix, ',');
            }
            out.push(cur);
            cur = String::new();
            proof {
                assert(out.deep_view().push(cur@) =~= split_ch(s@.take(i + 1 as int), ','));
            }
        } else {
            let piece = s.substring_char(i, i + 1);
            proof {
                lemma_split_append_char(prefix, ',', s@[i as int]);
                assert(s@.subrange(i as int, i + 1 as int) =~= seq![s@[i as int]]);
            }
            let ghost pre_out = out.deep_view();
            let ghost pre_cur = cur@;
            cur.append(piece);
            proof {
                assert(cur@ =~= pre_cur.push(s@[i as int]));
                assert(pre_out.push(cur@) =~= split_ch(s@.take(i as int), ',').update(
                    split_ch(s@.take(i as int), ',').len() - 1,
                    split_ch(s@.take(i as int), ',').last().push(s@[i as int]),
                ));
            }
        }
        i = i + 1;
    }
    proof {
        assert(s@.take(n as int) =~= s@);
    }
    out.push(cur);
    out
}

// ---------------------------------------------------------------------------
// Order-preserving de-duplication
// ---------------------------------------------------------------------------

/// `s` with every later repetition of an element removed.
pub open spec fn dedup_first(s: Seq<Seq<char>>) -> Seq<Seq<char>>
    decreases s.len(),
{
    if s.len() == 0 {
        s
    } else {
        let rest = dedup_first(s.drop_last());
        if rest.contains(s.last()) {
            rest
        } else {
            rest.push(s.last())
        }
    }
}

/// De-duplication keeps membership and never repeats an element.
pub proof fn lemma_dedup_first(s: Seq<Seq<char>>)
    ensures
        forall|x: Seq<char>| dedup_first(s).contains(x) == s.contains(x),
        forall|i: int, j: int|
            0 <= i < j < dedup_first(s).len() ==> dedup_first(s)[i] != dedup_first(s)[j],
    decreases s.len(),
{
    if s.len() > 0 {
        let sub = s.drop_last();
        lemma_dedup_first(sub);
        let rest = dedup_first(sub);
        let d = dedup_first(s);
        assert(s.last() == s[s.len() - 1]);
        assert forall|x: Seq<char>| d.contains(x) implies s.contains(x) by {
            let i = choose|i: int| 0 <= i < d.len() && d[i] == x;
            if !rest.contains(s.last()) && i == rest.len() {
                assert(s[s.len() - 1] == x);
            } else {
                assert(rest[i] == x);
                assert(rest.contains(x));
                assert(sub.contains(x));
                let k = choose|k: int| 0 <= k < sub.len() && sub[k] == x;
                assert(s[k] == x);
            }
        }
        assert forall|x: Seq<char>| s.contains(x) implies d.contains(x) by {
            let k = choose|k: int| 0 <= k < s.len() && s[k] == x;
            if k < s.len() - 1 {
                assert(sub[k] == x);
                assert(sub.contains(x));
                assert(rest.contains(x));
                let i = choose|i: int| 0 <= i < rest.len() && rest[i] == x;
                assert(d[i] == x);
                assert(d.contains(x));
            } else {
                if rest.contains(s.last()) {
                    assert(d.contains(x));
                } else {
                    assert(d[d.len() - 1] == x);
                    assert(d.contains(x));
                }
            }
        }
        assert forall|i: int, j: int| 0 <= i < j < d.len() implies d[i] != d[j] by {
            if !rest.contains(s.last()) && j == rest.len() {
                assert(d[i] == rest[i]);
                if rest[i] == s.last() {
                    assert(rest.contains(s.last()));
                }
            }
        }
    }
}

/// Keep the first occurrence of each string, dropping later repetitions.
pub fn dedup_strings(v: &Vec<String>) -> (r: Vec<String>)
    ensures
        r.deep_view() == dedup_first(v.deep_view()),
{
    let ghost dv = v.deep_view();
    let mut out: Vec<String> = Vec::new();
    let mut i: usize = 0;
    proof {
        assert(out.deep_view() =~= dedup_first(dv.take(0)));
    }
    while i < v.len()
        invariant
            dv == v.deep_view(),
            dv.len() == v.len(),
            forall|k: int| 0 <= k < v.len() ==> dv[k] == v[k]@,
            0 <= i <= v.len(),
            out.deep_view() == dedup_first(dv.take(i as int)),
        decreases v.len() - i,
    {
        let ghost pre = out.deep_view();
        if !vec_contains_str(&out, v[i].as_str()) {
            out.push(v[i].clone());
            proof {
                assert(out.deep_view() =~= pre.push(dv[i as int]));
            }
        }
        proof {
            assert(dv.take(i + 1 as int).drop_last() =~= dv.take(i as int));
            assert(dv.take(i + 1 as int).last() == dv[i as int]);
        }
        i = i + 1;
    }
    proof {
        assert(dv.take(v.len() as int) =~= dv);
    }
    out
}

} // verus!

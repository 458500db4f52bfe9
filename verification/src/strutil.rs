//! Verified string helpers: equality, case folding, substring search,
//! lexicographic comparison, decimal rendering, joining and trimming.

use vstd::prelude::*;

verus! {

// ---------------------------------------------------------------------------
// Equality
// ---------------------------------------------------------------------------

/// Character-by-character equality of two string slices.
pub fn str_eq(a: &str, b: &str) -> (r: bool)
    ensures
        r == (a@ == b@),
{
    let an = a.unicode_len();
    let bn = b.unicode_len();
    if an != bn {
        return false;
    }
    let mut i: usize = 0;
    while i < an
        invariant
            an == a@.len(),
            bn == b@.len(),
            an == bn,
            0 <= i <= an,
            forall|k: int| 0 <= k < i ==> a@[k] == b@[k],
        decreases an - i,
    {
        if a.get_char(i) != b.get_char(i) {
            return false;
        }
        i = i + 1;
    }
    proof {
        assert(a@ =~= b@);
    }
    true
}

// ---------------------------------------------------------------------------
// ASCII case folding
// ---------------------------------------------------------------------------

/// Code point of `c`, with an ASCII capital letter folded to its small form.
pub open spec fn lower_code(c: char) -> u32 {
    if 65 <= c as u32 && c as u32 <= 90 {
        (c as u32 + 32) as u32
    } else {
        c as u32
    }
}

/// Two character sequences are equal up to ASCII case. Folding is
/// deliberately ASCII-only: domain names are ASCII, and non-ASCII text is
/// compared character for character.
pub open spec fn ci_eq(a: Seq<char>, b: Seq<char>) -> bool {
    &&& a.len() == b.len()
    &&& forall|i: int| 0 <= i < a.len() ==> lower_code(a[i]) == lower_code(b[i])
}

/// Folded code point of a character.
pub fn char_lower_code(c: char) -> (r: u32)
    ensures
        r == lower_code(c),
{
    let u = c as u32;
    if 65 <= u && u <= 90 {
        u + 32
    } else {
        u
    }
}

/// Equality of two strings up to ASCII case.
pub fn str_eq_ci(a: &str, b: &str) -> (r: bool)
    ensures
        r == ci_eq(a@, b@),
{
    let an = a.unicode_len();
    let bn = b.unicode_len();
    if an != bn {
        return false;
    }
    let mut i: usize = 0;
    while i < an
        invariant
            an == a@.len(),
            bn == b@.len(),
            an == bn,
            0 <= i <= an,
            forall|k: int| 0 <= k < i ==> lower_code(a@[k]) == lower_code(b@[k]),
        decreases an - i,
    {
        if char_lower_code(a.get_char(i)) != char_lower_code(b.get_char(i)) {
            return false;
        }
        i = i + 1;
    }
    true
}

// ---------------------------------------------------------------------------
// Substring search
// ---------------------------------------------------------------------------

/// `needle` occurs in `hay` starting at position `i` (exact characters).
pub open spec fn sub_at(hay: Seq<char>, needle: Seq<char>, i: int) -> bool {
    &&& 0 <= i
    &&& i + needle.len() <= hay.len()
    &&& forall|j: int| 0 <= j < needle.len() ==> hay[i + j] == needle[j]
}

/// `needle` occurs somewhere in `hay` (exact characters).
pub open spec fn has_sub(hay: Seq<char>, needle: Seq<char>) -> bool {
    exists|i: int| sub_at(hay, needle, i)
}

/// `needle` occurs in `hay` starting at position `i`, up to ASCII case.
pub open spec fn sub_at_ci(hay: Seq<char>, needle: Seq<char>, i: int) -> bool {
    &&& 0 <= i
    &&& i + needle.len() <= hay.len()
    &&& forall|j: int| 0 <= j < needle.len() ==> lower_code(hay[i + j]) == lower_code(needle[j])
}

/// `needle` occurs somewhere in `hay`, up to ASCII case.
pub open spec fn has_sub_ci(hay: Seq<char>, needle: Seq<char>) -> bool {
    exists|i: int| sub_at_ci(hay, needle, i)
}

fn match_at(hay: &str, needle: &str, i: usize) -> (r: bool)
    requires
        i + needle@.len() <= hay@.len(),
    ensures
        r == sub_at(hay@, needle@, i as int),
{
    let hn = hay.unicode_len();
    let nn = needle.unicode_len();
    let mut j: usize = 0;
    while j < nn
        invariant
            hn == hay@.len(),
            nn == needle@.len(),
            i + nn <= hn,
            0 <= j <= nn,
            forall|k: int| 0 <= k < j ==> hay@[i + k] == needle@[k],
        decreases nn - j,
    {
        if hay.get_char(i + j) != needle.get_char(j) {
            return false;
        }
        j = j + 1;
    }
    true
}

fn match_at_ci(hay: &str, needle: &str, i: usize) -> (r: bool)
    requires
        i + needle@.len() <= hay@.len(),
    ensures
        r == sub_at_ci(hay@, needle@, i as int),
{
    let hn = hay.unicode_len();
    let nn = needle.unicode_len();
    let mut j: usize = 0;
    while j < nn
        invariant
            hn == hay@.len(),
            nn == needle@.len(),
            i + nn <= hn,
            0 <= j <= nn,
            forall|k: int| 0 <= k < j ==> lower_code(hay@[i + k]) == lower_code(needle@[k]),
        decreases nn - j,
    {
        if char_lower_code(hay.get_char(i + j)) != char_lower_code(needle.get_char(j)) {
            return false;
        }
        j = j + 1;
    }
    true
}

/// Exact substring containment.
pub fn str_contains(hay: &str, needle: &str) -> (r: bool)
    ensures
        r == has_sub(hay@, needle@),
{
    let hn = hay.unicode_len();
    let nn = needle.unicode_len();
    if nn > hn {
        proof {
            assert(forall|i: int| !sub_at(hay@, needle@, i));
        }
        return false;
    }
    let mut i: usize = 0;
    while i <= hn - nn
        invariant
            hn == hay@.len(),
            nn == needle@.len(),
            nn <= hn,
            0 <= i <= hn - nn + 1,
            forall|k: int| 0 <= k < i ==> !sub_at(hay@, needle@, k),
        decreases hn + 1 - nn - i,
    {
        if match_at(hay, needle, i) {
            proof {
                assert(sub_at(hay@, needle@, i as int));
            }
            return true;
        }
        i = i + 1;
    }
    proof {
        assert forall|k: int| !sub_at(hay@, needle@, k) by {
            if k >= i {
                assert(k + needle@.len() > hay@.len());
            }
        }
    }
    false
}

/// Substring containment up to ASCII case.
pub fn str_contains_ci(hay: &str, needle: &str) -> (r: bool)
    ensures
        r == has_sub_ci(hay@, needle@),
{
    let hn = hay.unicode_len();
    let nn = needle.unicode_len();
    if nn > hn {
        proof {
            assert(forall|i: int| !sub_at_ci(hay@, needle@, i));
        }
        return false;
    }
    let mut i: usize = 0;
    while i <= hn - nn
        invariant
            hn == hay@.len(),
            nn == needle@.len(),
            nn <= hn,
            0 <= i <= hn - nn + 1,
            forall|k: int| 0 <= k < i ==> !sub_at_ci(hay@, needle@, k),
        decreases hn + 1 - nn - i,
    {
        if match_at_ci(hay, needle, i) {
            proof {
                assert(sub_at_ci(hay@, needle@, i as int));
            }
            return true;
        }
        i = i + 1;
    }
    proof {
        assert forall|k: int| !sub_at_ci(hay@, needle@, k) by {
            if k >= i {
                assert(k + needle@.len() > hay@.len());
            }
        }
    }
    false
}

// ---------------------------------------------------------------------------
// Character membership and lookup
// ---------------------------------------------------------------------------

/// The character `c` occurs in `s`.
pub open spec fn has_char(s: Seq<char>, c: char) -> bool {
    exists|i: int| 0 <= i < s.len() && s[i] == c
}

/// Whether `c` occurs in `s`.
pub fn str_has_char(s: &str, c: char) -> (r: bool)
    ensures
        r == has_char(s@, c),
{
    let n = s.unicode_len();
    let mut i: usize = 0;
    while i < n
        invariant
            n == s@.len(),
            0 <= i <= n,
            forall|k: int| 0 <= k < i ==> s@[k] != c,
        decreases n - i,
    {
        if s.get_char(i) == c {
            return true;
        }
        i = i + 1;
    }
    false
}

/// Position of the first occurrence of `c` in `s`, if any.
pub fn str_find_char(s: &str, c: char) -> (r: Option<usize>)
    ensures
        match r {
            Some(i) => i < s@.len() && s@[i as int] == c && forall|k: int| 0 <= k < i ==> s@[k] != c,
            None => forall|k: int| 0 <= k < s@.len() ==> s@[k] != c,
        },
{
    let n = s.unicode_len();
    let mut i: usize = 0;
    while i < n
        invariant
            n == s@.len(),
            0 <= i <= n,
            forall|k: int| 0 <= k < i ==> s@[k] != c,
        decreases n - i,
    {
        if s.get_char(i) == c {
            return Some(i);
        }
        i = i + 1;
    }
    None
}

/// `s` ends with the suffix `suf` (exact characters).
pub open spec fn ends_with(s: Seq<char>, suf: Seq<char>) -> bool {
    &&& s.len() >= suf.len()
    &&& forall|j: int| 0 <= j < suf.len() ==> s[s.len() - suf.len() + j] == suf[j]
}

/// Whether `s` ends with `suf`.
pub fn str_ends_with(s: &str, suf: &str) -> (r: bool)
    ensures
        r == ends_with(s@, suf@),
{
    let sn = s.unicode_len();
    let fn_ = suf.unicode_len();
    if fn_ > sn {
        return false;
    }
    let base = sn - fn_;
    let mut j: usize = 0;
    while j < fn_
        invariant
            sn == s@.len(),
            fn_ == suf@.len(),
            fn_ <= sn,
            base == sn - fn_,
            0 <= j <= fn_,
            forall|k: int| 0 <= k < j ==> s@[base + k] == suf@[k],
        decreases fn_ - j,
    {
        if s.get_char(base + j) != suf.get_char(j) {
            return false;
        }
        j = j + 1;
    }
    true
}

// ---------------------------------------------------------------------------
// Lexicographic order (by code point)
// ---------------------------------------------------------------------------

/// Strict lexicographic order on character sequences, by code point.
pub open spec fn lex_lt(a: Seq<char>, b: Seq<char>) -> bool
    decreases a.len(),
{
    if b.len() == 0 {
        false
    } else if a.len() == 0 {
        true
    } else if (a[0] as u32) < (b[0] as u32) {
        true
    } else if a[0] == b[0] {
        lex_lt(a.skip(1), b.skip(1))
    } else {
        false
    }
}

proof fn lemma_lex_common_prefix(a: Seq<char>, b: Seq<char>, i: int)
    requires
        0 <= i <= a.len(),
        i <= b.len(),
        forall|k: int| 0 <= k < i ==> a[k] == b[k],
    ensures
        lex_lt(a, b) == lex_lt(a.skip(i), b.skip(i)),
    decreases i,
{
    if i > 0 {
        assert(a.len() > 0 && b.len() > 0);
        assert(a[0] == b[0]);
        lemma_lex_common_prefix(a.skip(1), b.skip(1), i - 1);
        assert(a.skip(1).skip(i - 1) =~= a.skip(i));
        assert(b.skip(1).skip(i - 1) =~= b.skip(i));
    } else {
        assert(a.skip(0) =~= a);
        assert(b.skip(0) =~= b);
    }
}

/// Strict lexicographic comparison of two strings, by code point.
pub fn str_lt(a: &str, b: &str) -> (r: bool)
    ensures
        r == lex_lt(a@, b@),
{
    let an = a.unicode_len();
    let bn = b.unicode_len();
    let mut i: usize = 0;
    while i < an && i < bn
        invariant
            an == a@.len(),
            bn == b@.len(),
            0 <= i <= an,
            i <= bn,
            forall|k: int| 0 <= k < i ==> a@[k] == b@[k],
        decreases an - i,
    {
        let ca = a.get_char(i);
        let cb = b.get_char(i);
        if ca != cb {
            proof {
                lemma_lex_common_prefix(a@, b@, i as int);
            }
            return (ca as u32) < (cb as u32);
        }
        i = i + 1;
    }
    proof {
        lemma_lex_common_prefix(a@, b@, i as int);
    }
    an < bn
}

// ---------------------------------------------------------------------------
// Decimal rendering
// ---------------------------------------------------------------------------

/// The decimal digit character for `d` in `0 ..= 9`.
pub open spec fn digit_char(d: int) -> char {
    if d == 0 {
        '0'
    } else if d == 1 {
        '1'
    } else if d == 2 {
        '2'
    } else if d == 3 {
        '3'
    } else if d == 4 {
        '4'
    } else if d == 5 {
        '5'
    } else if d == 6 {
        '6'
    } else if d == 7 {
        '7'
    } else if d == 8 {
        '8'
    } else {
        '9'
    }
}

/// Decimal rendering of a non-negative integer.
pub open spec fn dec_str(n: int) -> Seq<char>
    decreases n,
{
    if n < 10 {
        seq![digit_char(n)]
    } else {
        dec_str(n / 10).push(digit_char(n % 10))
    }
}

/// Decimal rendering of an integer, with a leading minus sign when negative.
pub open spec fn int_str(v: int) -> Seq<char> {
    if v < 0 {
        seq!['-'] + dec_str(-v)
    } else {
        dec_str(v)
    }
}

fn digit_string(d: u64) -> (r: String)
    requires
        d < 10,
    ensures
        r@ =~= seq![digit_char(d as int)],
{
    proof {
        reveal_strlit("0");
        reveal_strlit("1");
        reveal_strlit("2");
        reveal_strlit("3");
        reveal_strlit("4");
        reveal_strlit("5");
        reveal_strlit("6");
        reveal_strlit("7");
        reveal_strlit("8");
        reveal_strlit("9");
    }
    if d == 0 {
        String::from_str("0")
    } else if d == 1 {
        String::from_str("1")
    } else if d == 2 {
        String::from_str("2")
    } else if d == 3 {
        String::from_str("3")
    } else if d == 4 {
        String::from_str("4")
    } else if d == 5 {
        String::from_str("5")
    } else if d == 6 {
        String::from_str("6")
    } else if d == 7 {
        String::from_str("7")
    } else if d == 8 {
        String::from_str("8")
    } else {
        String::from_str("9")
    }
}

/// Render an unsigned integer in decimal.
pub fn u64_to_string(n: u64) -> (r: String)
    ensures
        r@ == dec_str(n as int),
    decreases n,
{
    if n < 10 {
        let r = digit_string(n);
        proof {
            assert(r@ =~= dec_str(n as int));
        }
        r
    } else {
        let mut s = u64_to_string(n / 10);
        let d = digit_string(n % 10);
        s.append(d.as_str());
        proof {
            assert(s@ =~= dec_str(n as int));
        }
        s
    }
}

/// Render a signed integer in decimal.
pub fn i64_to_string(v: i64) -> (r: String)
    ensures
        r@ == int_str(v as int),
{
    if v >= 0 {
        u64_to_string(v as u64)
    } else {
        let mag: u64 = if v == i64::MIN {
            9223372036854775808u64
        } else {
            (-v) as u64
        };
        proof {
            reveal_strlit("-");
        }
        let mut s = String::from_str("-");
        let rest = u64_to_string(mag);
        s.append(rest.as_str());
        proof {
            assert(mag as int == -(v as int));
            assert(s@ =~= int_str(v as int));
        }
        s
    }
}

// ---------------------------------------------------------------------------
// Joining and trimming
// ---------------------------------------------------------------------------

/// The parts joined with the separator between consecutive parts.
pub open spec fn join_sep(parts: Seq<Seq<char>>, sep: Seq<char>) -> Seq<char>
    decreases parts.len(),
{
    if parts.len() == 0 {
        Seq::empty()
    } else if parts.len() == 1 {
        parts[0]
    } else {
        join_sep(parts.drop_last(), sep) + sep + parts.last()
    }
}

/// Join a list of strings with a separator.
pub fn join_strings(parts: &Vec<String>, sep: &str) -> (r: String)
    ensures
        r@ == join_sep(parts.deep_view(), sep@),
{
    let ghost pv = parts.deep_view();
    let mut r = String::new();
    proof {
        assert(r@ =~= join_sep(pv.take(0), sep@));
    }
    let mut i: usize = 0;
    while i < parts.len()
        invariant
            pv == parts.deep_view(),
            pv.len() == parts.len(),
            forall|k: int| 0 <= k < parts.len() ==> pv[k] == parts[k]@,
            0 <= i <= parts.len(),
            r@ == join_sep(pv.take(i as int), sep@),
        decreases parts.len() - i,
    {
        if i > 0 {
            r.append(sep);
        }
        r.append(parts[i].as_str());
        proof {
            let t = pv.take(i + 1 as int);
            assert(t.drop_last() =~= pv.take(i as int));
            assert(t.last() == pv[i as int]);
        }
        i = i + 1;
    }
    proof {
        assert(pv.take(parts.len() as int) =~= pv);
    }
    r
}

/// `s` with every trailing occurrence of `c` removed.
pub open spec fn trim_end_ch(s: Seq<char>, c: char) -> Seq<char>
    decreases s.len(),
{
    if s.len() > 0 && s.last() == c {
        trim_end_ch(s.drop_last(), c)
    } else {
        s
    }
}

/// Remove every trailing occurrence of `c` from `s`.
pub fn trim_end_char(s: &str, c: char) -> (r: String)
    ensures
        r@ == trim_end_ch(s@, c),
{
    let n = s.unicode_len();
    let mut k: usize = n;
    proof {
        assert(s@.take(n as int) =~= s@);
    }
    while k > 0 && s.get_char(k - 1) == c
        invariant
            n == s@.len(),
            0 <= k <= n,
            trim_end_ch(s@, c) == trim_end_ch(s@.take(k as int), c),
        decreases k,
    {
        proof {
            let t = s@.take(k as int);
            assert(t.last() == s@[k - 1]);
            assert(t.drop_last() =~= s@.take(k - 1));
        }
        k = k - 1;
    }
    let cut = s.substring_char(0, k);
    proof {
        let t = s@.take(k as int);
        if k > 0 {
            assert(t.last() != c);
        }
        assert(trim_end_ch(s@.take(k as int), c) == s@.take(k as int));
        assert(s@.subrange(0, k as int) =~= s@.take(k as int));
    }
    String::from_str(cut)
}

// ---------------------------------------------------------------------------
// Vectors of strings
// ---------------------------------------------------------------------------

/// Copy a vector of strings.
pub fn dup_string_vec(v: &Vec<String>) -> (r: Vec<String>)
    ensures
        r@ == v@,
{
    let mut r: Vec<String> = Vec::new();
    let mut i: usize = 0;
    while i < v.len()
        invariant
            0 <= i <= v.len(),
            r@ =~= v@.take(i as int),
        decreases v.len() - i,
    {
        r.push(v[i].clone());
        i = i + 1;
    }
    proof {
        assert(v@.take(v.len() as int) =~= v@);
    }
    r
}

/// Whether some element of `v` equals `s` character for character.
pub fn vec_contains_str(v: &Vec<String>, s: &str) -> (r: bool)
    ensures
        r == v.deep_view().contains(s@),
{
    let ghost dv = v.deep_view();
    let mut i: usize = 0;
    while i < v.len()
        invariant
            dv == v.deep_view(),
            dv.len() == v.len(),
            forall|k: int| 0 <= k < v.len() ==> dv[k] == v[k]@,
            0 <= i <= v.len(),
            forall|k: int| 0 <= k < i ==> dv[k] != s@,
        decreases v.len() - i,
    {
        if str_eq(v[i].as_str(), s) {
            proof {
                assert(dv[i as int] == s@);
            }
            return true;
        }
        i = i + 1;
    }
    false
}

} // verus!

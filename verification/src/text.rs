//! Character-level helpers shared by the parsers: conversion between strings
//! and character vectors, ASCII classification, and searching.

use vstd::prelude::*;

verus! {

/// Index of the first occurrence of `c` in `s`, or -1 if absent.
pub open spec fn find_char(s: Seq<char>, c: char) -> int
    decreases s.len(),
{
    if s.len() == 0 {
        -1
    } else if s[0] == c {
        0
    } else {
        let r = find_char(s.skip(1), c);
        if r < 0 {
            -1
        } else {
            r + 1
        }
    }
}

pub proof fn lemma_find_char(s: Seq<char>, c: char)
    ensures
        find_char(s, c) >= 0 ==> find_char(s, c) < s.len() && s[find_char(s, c)] == c
            && (forall|j: int| 0 <= j < find_char(s, c) ==> s[j] != c),
        find_char(s, c) < 0 ==> (forall|j: int| 0 <= j < s.len() ==> s[j] != c),
    decreases s.len(),
{
    if s.len() > 0 && s[0] != c {
        lemma_find_char(s.skip(1), c);
        assert forall|j: int| 0 <= j < s.len() && find_char(s, c) < 0 implies s[j] != c by {
            if j > 0 {
                assert(s.skip(1)[j - 1] == s[j]);
            }
        }
        if find_char(s, c) >= 0 {
            assert(s.skip(1)[find_char(s, c) - 1] == s[find_char(s, c)]);
            assert forall|j: int| 0 <= j < find_char(s, c) implies s[j] != c by {
                if j > 0 {
                    assert(s.skip(1)[j - 1] == s[j]);
                }
            }
        }
    }
}


/// `find_char` returns the first occurrence.
pub proof fn lemma_find_char_at(s: Seq<char>, c: char, j: int)
    requires
        0 <= j < s.len(),
        s[j] == c,
        forall|k: int| 0 <= k < j ==> s[k] != c,
    ensures
        find_char(s, c) == j,
    decreases j,
{
    if j > 0 {
        assert(s[0] != c);
        assert forall|k: int| 0 <= k < j - 1 implies s.skip(1)[k] != c by {
            assert(s.skip(1)[k] == s[k + 1]);
        }
        assert(s.skip(1)[j - 1] == s[j]);
        lemma_find_char_at(s.skip(1), c, j - 1);
    }
}

/// First position of `c` in `v`, if any.
pub fn find_in_chars(v: &Vec<char>, c: char) -> (r: Option<usize>)
    ensures
        match r {
            Some(i) => i < v@.len() && find_char(v@, c) == i,
            None => find_char(v@, c) < 0,
        },
{
    let n = v.len();
    let mut i: usize = 0;
    while i < n
        invariant
            i <= n,
            n == v@.len(),
            forall|k: int| 0 <= k < i ==> v@[k] != c,
        decreases n - i,
    {
        if v[i] == c {
            proof {
                lemma_find_char_at(v@, c, i as int);
            }
            return Some(i);
        }
        i = i + 1;
    }
    proof {
        lemma_find_char(v@, c);
    }
    None
}

/// Collect the characters of a string slice into a vector.
pub fn str_to_chars(s: &str) -> (v: Vec<char>)
    ensures
        v@ == s@,
{
    let n = s.unicode_len();
    let mut v: Vec<char> = Vec::new();
    let mut i: usize = 0;
    while i < n
        invariant
            i <= n,
            n == s@.len(),
            v@ == s@.subrange(0, i as int),
        decreases n - i,
    {
        v.push(s.get_char(i));
        i = i + 1;
        proof {
            assert(v@ =~= s@.subrange(0, i as int));
        }
    }
    proof {
        assert(v@ =~= s@);
    }
    v
}

/// Relies on `String::from_iter` over `char`: the collected string holds
/// exactly the characters of the iterator, in order.
#[verifier::external_body]
pub fn chars_to_string(v: &Vec<char>) -> (s: String)
    ensures
        s@ == v@,
{
    v.iter().collect()
}

/// Character-for-character equality of two vectors.
pub fn eq_chars(a: &Vec<char>, b: &Vec<char>) -> (r: bool)
    ensures
        r == (a@ == b@),
{
    if a.len() != b.len() {
        return false;
    }
    let n = a.len();
    let mut i: usize = 0;
    while i < n
        invariant
            i <= n,
            n == a@.len() == b@.len(),
            forall|j: int| 0 <= j < i ==> a@[j] == b@[j],
        decreases n - i,
    {
        if a[i] != b[i] {
            return false;
        }
        i = i + 1;
    }
    proof {
        assert(a@ =~= b@);
    }
    true
}

/// Is `p` a prefix of `s`?
pub fn is_prefix_chars(p: &Vec<char>, s: &Vec<char>) -> (r: bool)
    ensures
        r == p@.is_prefix_of(s@),
{
    if p.len() > s.len() {
        return false;
    }
    let n = p.len();
    let mut i: usize = 0;
    while i < n
        invariant
            i <= n,
            n == p@.len(),
            n <= s@.len(),
            forall|j: int| 0 <= j < i ==> p@[j] == s@[j],
        decreases n - i,
    {
        if p[i] != s[i] {
            proof {
                assert(!p@.is_prefix_of(s@)) by {
                    assert(s@.subrange(0, p@.len() as int)[i as int] == s@[i as int]);
                }
            }
            return false;
        }
        i = i + 1;
    }
    proof {
        assert(p@ =~= s@.subrange(0, p@.len() as int));
    }
    true
}

/// Does some element of `v` read as `s`?
pub fn contains_string(v: &Vec<String>, s: &String) -> (r: bool)
    ensures
        r == v.deep_view().contains(s@),
{
    let target = str_to_chars(s.as_str());
    let n = v.len();
    let mut i: usize = 0;
    while i < n
        invariant
            i <= n,
            n == v@.len(),
            target@ == s@,
            forall|j: int| 0 <= j < i ==> v@[j]@ != s@,
        decreases n - i,
    {
        let e = str_to_chars(v[i].as_str());
        if eq_chars(&e, &target) {
            proof {
                assert(v.deep_view()[i as int] == s@);
            }
            return true;
        }
        i = i + 1;
    }
    proof {
        assert(forall|j: int| 0 <= j < v.deep_view().len() ==> v.deep_view()[j] != s@);
    }
    false
}

/// `rfind_char` returns the last occurrence.
pub proof fn lemma_rfind_char_at(s: Seq<char>, c: char, j: int)
    requires
        0 <= j < s.len(),
        s[j] == c,
        forall|k: int| j < k < s.len() ==> s[k] != c,
    ensures
        rfind_char(s, c) == j,
    decreases s.len(),
{
    if j < s.len() - 1 {
        lemma_rfind_char_at(s.drop_last(), c, j);
    }
}

/// Where `c` does not occur, `rfind_char` reports -1.
pub proof fn lemma_rfind_char_none(s: Seq<char>, c: char)
    requires
        forall|k: int| 0 <= k < s.len() ==> s[k] != c,
    ensures
        rfind_char(s, c) == -1,
    decreases s.len(),
{
    if s.len() > 0 {
        lemma_rfind_char_none(s.drop_last(), c);
    }
}

/// `s` with every trailing `c` removed.
pub open spec fn strip_trailing(s: Seq<char>, c: char) -> Seq<char>
    decreases s.len(),
{
    if s.len() > 0 && s.last() == c {
        strip_trailing(s.drop_last(), c)
    } else {
        s
    }
}

/// Index of the last occurrence of `c` in `s`, or -1 if absent.
pub open spec fn rfind_char(s: Seq<char>, c: char) -> int
    decreases s.len(),
{
    if s.len() == 0 {
        -1
    } else if s.last() == c {
        s.len() - 1
    } else {
        rfind_char(s.drop_last(), c)
    }
}

/// Append the characters of `s` to `out`.
pub fn push_str_chars(s: &str, out: &mut Vec<char>)
    ensures
        final(out)@ == old(out)@ + s@,
{
    let chars = str_to_chars(s);
    let n = chars.len();
    let mut i: usize = 0;
    while i < n
        invariant
            i <= n,
            n == chars@.len(),
            chars@ == s@,
            out@ == old(out)@ + chars@.take(i as int),
        decreases n - i,
    {
        out.push(chars[i]);
        proof {
            assert(out@ =~= old(out)@ + chars@.take(i + 1));
        }
        i = i + 1;
    }
    proof {
        assert(chars@.take(n as int) =~= chars@);
    }
}

/// `needle` occurs in `hay` starting at `i`.
pub open spec fn contains_seq_at(hay: Seq<char>, needle: Seq<char>, i: int) -> bool {
    0 <= i && i + needle.len() <= hay.len() && hay.subrange(i, i + needle.len()) == needle
}

/// `needle` occurs somewhere in `hay`.
pub open spec fn contains_seq(hay: Seq<char>, needle: Seq<char>) -> bool {
    exists|i: int| contains_seq_at(hay, needle, i)
}

/// Search for `needle` inside `hay`.
pub fn contains_chars(hay: &Vec<char>, needle: &Vec<char>) -> (r: bool)
    ensures
        r == contains_seq(hay@, needle@),
{
    let hn = hay.len();
    let nn = needle.len();
    if nn == 0 {
        proof {
            assert(hay@.subrange(0, 0) =~= needle@);
            assert(contains_seq_at(hay@, needle@, 0));
        }
        return true;
    }
    if nn > hn {
        proof {
            assert(!contains_seq(hay@, needle@)) by {
                if contains_seq(hay@, needle@) {
                    let i = choose|i: int| contains_seq_at(hay@, needle@, i);
                    assert(i + needle@.len() <= hay@.len());
                }
            }
        }
        return false;
    }
    let mut i: usize = 0;
    while i <= hn - nn
        invariant
            1 <= nn <= hn,
            i <= hn - nn + 1,
            hn == hay@.len(),
            nn == needle@.len(),
            forall|j: int| 0 <= j < i ==> !contains_seq_at(hay@, needle@, j),
        decreases hn - nn - i + 1,
    {
        let mut k: usize = 0;
        let mut hit = true;
        while k < nn
            invariant
                k <= nn,
                i + nn <= hn,
                hn == hay@.len(),
                nn == needle@.len(),
                hit ==> forall|t: int| 0 <= t < k ==> hay@[i + t] == needle@[t],
                !hit ==> !contains_seq_at(hay@, needle@, i as int),
            decreases nn - k,
        {
            if hay[i + k] != needle[k] {
                proof {
                    assert(!contains_seq_at(hay@, needle@, i as int)) by {
                        if contains_seq_at(hay@, needle@, i as int) {
                            assert(hay@.subrange(i as int, i + nn)[k as int] == hay@[i + k]);
                        }
                    }
                }
                hit = false;
                k = nn;
            } else {
                k = k + 1;
            }
        }
        if hit {
            proof {
                assert(hay@.subrange(i as int, i + nn) =~= needle@);
                assert(contains_seq_at(hay@, needle@, i as int));
            }
            return true;
        }
        i = i + 1;
    }
    proof {
        assert(!contains_seq(hay@, needle@)) by {
            if contains_seq(hay@, needle@) {
                let j = choose|j: int| contains_seq_at(hay@, needle@, j);
                assert(0 <= j <= hn - nn);
            }
        }
    }
    false
}

/// Lexicographic order on texts, by code point.
pub open spec fn str_le(a: Seq<char>, b: Seq<char>) -> bool
    decreases a.len(),
{
    if a.len() == 0 {
        true
    } else if b.len() == 0 {
        false
    } else if (a[0] as u32) < (b[0] as u32) {
        true
    } else if (a[0] as u32) > (b[0] as u32) {
        false
    } else {
        str_le(a.skip(1), b.skip(1))
    }
}

pub proof fn lemma_str_le_total(a: Seq<char>, b: Seq<char>)
    ensures
        str_le(a, b) || str_le(b, a),
    decreases a.len(),
{
    if a.len() > 0 && b.len() > 0 && (a[0] as u32) == (b[0] as u32) {
        lemma_str_le_total(a.skip(1), b.skip(1));
    }
}

pub proof fn lemma_str_le_trans(a: Seq<char>, b: Seq<char>, c: Seq<char>)
    requires
        str_le(a, b),
        str_le(b, c),
    ensures
        str_le(a, c),
    decreases a.len(),
{
    if a.len() > 0 && b.len() > 0 && c.len() > 0 && (a[0] as u32) == (b[0] as u32) && (
    b[0] as u32) == (c[0] as u32) {
        lemma_str_le_trans(a.skip(1), b.skip(1), c.skip(1));
    }
}

/// Compare two texts in the lexicographic order.
pub fn str_le_exec(a: &Vec<char>, b: &Vec<char>) -> (r: bool)
    ensures
        r == str_le(a@, b@),
{
    let an = a.len();
    let bn = b.len();
    let mut k: usize = 0;
    proof {
        assert(a@.skip(0) =~= a@);
        assert(b@.skip(0) =~= b@);
    }
    while k < an && k < bn
        invariant
            k <= an,
            k <= bn,
            an == a@.len(),
            bn == b@.len(),
            str_le(a@, b@) == str_le(a@.skip(k as int), b@.skip(k as int)),
            str_le(b@, a@) == str_le(b@.skip(k as int), a@.skip(k as int)),
        decreases an - k,
    {
        let ca = a[k];
        let cb = b[k];
        proof {
            assert(a@.skip(k as int)[0] == ca);
            assert(b@.skip(k as int)[0] == cb);
            assert(a@.skip(k as int).skip(1) =~= a@.skip(k + 1));
            assert(b@.skip(k as int).skip(1) =~= b@.skip(k + 1));
        }
        if (ca as u32) < (cb as u32) {
            return true;
        }
        if (ca as u32) > (cb as u32) {
            return false;
        }
        k = k + 1;
    }
    proof {
        if k >= an {
            assert(a@.skip(k as int).len() == 0);
        } else {
            assert(b@.skip(k as int).len() == 0);
            assert(a@.skip(k as int).len() > 0);
        }
    }
    an <= bn
}

/// Parts joined with newlines.
pub open spec fn join_lines(parts: Seq<Seq<char>>) -> Seq<char>
    decreases parts.len(),
{
    if parts.len() == 0 {
        Seq::empty()
    } else if parts.len() == 1 {
        parts[0]
    } else {
        parts[0] + "\n"@ + join_lines(parts.skip(1))
    }
}

/// `join_lines` of one more part.
pub proof fn lemma_join_lines_snoc(parts: Seq<Seq<char>>, t: Seq<char>)
    ensures
        join_lines(parts.push(t)) == (if parts.len() == 0 {
            t
        } else {
            join_lines(parts) + "\n"@ + t
        }),
    decreases parts.len(),
{
    let w = parts.push(t);
    if parts.len() == 0 {
        assert(w.len() == 1);
        assert(w[0] == t);
    } else {
        lemma_join_lines_snoc(parts.skip(1), t);
        assert(w.skip(1) =~= parts.skip(1).push(t));
        assert(w[0] == parts[0]);
        if parts.len() == 1 {
            assert(parts.skip(1).len() == 0);
            assert(join_lines(w) == w[0] + "\n"@ + join_lines(w.skip(1)));
            assert(join_lines(w) =~= join_lines(parts) + "\n"@ + t);
        } else {
            assert(join_lines(w) == w[0] + "\n"@ + join_lines(w.skip(1)));
            assert(join_lines(parts) == parts[0] + "\n"@ + join_lines(parts.skip(1)));
            assert(join_lines(w) =~= join_lines(parts) + "\n"@ + t);
        }
    }
}

/// Join text parts with newlines.
pub fn join_string_parts(parts: &Vec<String>) -> (r: String)
    ensures
        r@ == join_lines(parts.deep_view()),
{
    let n = parts.len();
    let mut out: Vec<char> = Vec::new();
    let mut i: usize = 0;
    proof {
        assert(parts.deep_view().take(0) =~= Seq::<Seq<char>>::empty());
    }
    while i < n
        invariant
            i <= n,
            n == parts@.len(),
            out@ == join_lines(parts.deep_view().take(i as int)),
        decreases n - i,
    {
        let ghost pv = parts.deep_view();
        proof {
            assert(pv.take(i + 1).drop_last() =~= pv.take(i as int));
            assert(pv.take(i + 1).last() == pv[i as int]);
            assert(pv.take(i + 1) =~= pv.take(i as int).push(pv[i as int]));
            lemma_join_lines_snoc(pv.take(i as int), pv[i as int]);
        }
        if i > 0 {
            out.push('\n');
            proof {
                reveal_strlit("\n");
                assert(out@ =~= join_lines(pv.take(i as int)) + "\n"@);
            }
        }
        push_str_chars(parts[i].as_str(), &mut out);
        proof {
            assert(pv[i as int] == parts@[i as int]@);
            if i == 0 {
                assert(pv.take(0).len() == 0);
                assert(out@ =~= pv[i as int]);
            }
            assert(out@ == join_lines(pv.take(i + 1)));
        }
        i = i + 1;
    }
    proof {
        assert(parts.deep_view().take(n as int) =~= parts.deep_view());
    }
    chars_to_string(&out)
}

/// Texts in non-decreasing lexicographic order.
pub open spec fn sorted_strs(ss: Seq<Seq<char>>) -> bool {
    forall|i: int, j: int| 0 <= i < j < ss.len() ==> str_le(#[trigger] ss[i], #[trigger] ss[j])
}

/// Sort texts lexicographically; the result is a sorted permutation.
pub fn sort_lines(lines: Vec<Vec<char>>) -> (r: Vec<Vec<char>>)
    ensures
        sorted_strs(r.deep_view()),
        r.deep_view().to_multiset() == lines.deep_view().to_multiset(),
{
    broadcast use vstd::seq_lib::group_to_multiset_ensures;

    let ghost src_deep = lines.deep_view();
    let n = lines.len();
    let mut out: Vec<Vec<char>> = Vec::new();
    let mut i: usize = 0;
    proof {
        assert(out.deep_view() =~= Seq::<Seq<char>>::empty());
        assert(src_deep.take(0) =~= Seq::<Seq<char>>::empty());
        assert(out.deep_view().to_multiset() =~= src_deep.take(0).to_multiset());
    }
    while i < n
        invariant
            i <= n,
            n == lines@.len(),
            src_deep == lines.deep_view(),
            sorted_strs(out.deep_view()),
            out.deep_view().to_multiset() == src_deep.take(i as int).to_multiset(),
        decreases n - i,
    {
        let d = crate::text::subrange_chars(&lines[i], 0, lines[i].len());
        proof {
            assert(d@ =~= src_deep[i as int]);
        }
        // Find the insertion point: the first kept line the new one precedes.
        let m = out.len();
        let mut p: usize = 0;
        while p < m && !str_le_exec(&d, &out[p])
            invariant
                p <= m,
                m == out@.len(),
                forall|j: int| 0 <= j < p ==> !str_le(d@, #[trigger] out.deep_view()[j]),
            decreases m - p,
        {
            proof {
                assert(out.deep_view()[p as int] == out@[p as int]@);
            }
            p = p + 1;
        }
        let ghost pre = out.deep_view();
        let ghost dv = d@;
        proof {
            assert(pre.len() == m);
            if p < m {
                assert(pre[p as int] == out@[p as int]@);
                assert(str_le(dv, pre[p as int]));
            }
        }
        out.insert(p, d);
        proof {
            assert(out.deep_view() =~~= pre.insert(p as int, dv));
            vstd::seq_lib::to_multiset_insert(pre, p as int, dv);
            assert(src_deep.take(i + 1).drop_last() =~= src_deep.take(i as int));
            assert(src_deep.take(i + 1) =~= src_deep.take(i as int).push(dv));
            vstd::seq_lib::to_multiset_build(src_deep.take(i as int), dv);
            assert(out.deep_view().to_multiset() =~= src_deep.take(i + 1).to_multiset());
            assert forall|a: int, b: int| 0 <= a < b < out.deep_view().len() implies str_le(
                #[trigger] out.deep_view()[a],
                #[trigger] out.deep_view()[b],
            ) by {
                if b < p {
                    assert(out.deep_view()[a] == pre[a] && out.deep_view()[b] == pre[b]);
                } else if a < p && b == p {
                    assert(out.deep_view()[a] == pre[a]);
                    lemma_str_le_total(dv, pre[a]);
                } else if a < p && b > p {
                    assert(out.deep_view()[a] == pre[a] && out.deep_view()[b] == pre[b - 1]);
                } else if a == p && b > p {
                    assert(out.deep_view()[b] == pre[b - 1]);
                    if b - 1 > p {
                        lemma_str_le_trans(dv, pre[p as int], pre[b - 1]);
                    }
                } else {
                    assert(out.deep_view()[a] == pre[a - 1] && out.deep_view()[b] == pre[b - 1]);
                }
            }
        }
        i = i + 1;
    }
    proof {
        assert(src_deep.take(n as int) =~= src_deep);
    }
    out
}

// ── Splitting and trimming ──────────────────────────────────────────────────

/// `s` split on every occurrence of `c`; n separators give n + 1 pieces.
pub open spec fn split_char_seq(s: Seq<char>, c: char) -> Seq<Seq<char>>
    decreases s.len(),
{
    let i = find_char(s, c);
    if 0 <= i < s.len() {
        seq![s.take(i)] + split_char_seq(s.skip(i + 1), c)
    } else {
        seq![s]
    }
}

/// A split has at least one piece.
pub proof fn lemma_split_nonempty(s: Seq<char>, c: char)
    ensures
        split_char_seq(s, c).len() >= 1,
    decreases s.len(),
{
    let i = find_char(s, c);
    if 0 <= i < s.len() {
        lemma_split_nonempty(s.skip(i + 1), c);
    }
}

/// The horizontal whitespace this library trims: blank, tab and carriage
/// return.
pub open spec fn is_space(c: char) -> bool {
    c == ' ' || c == '\t' || c == '\r'
}

pub open spec fn trim_start_spec(s: Seq<char>) -> Seq<char>
    decreases s.len(),
{
    if s.len() > 0 && is_space(s[0]) {
        trim_start_spec(s.skip(1))
    } else {
        s
    }
}

pub open spec fn trim_end_spec(s: Seq<char>) -> Seq<char>
    decreases s.len(),
{
    if s.len() > 0 && is_space(s.last()) {
        trim_end_spec(s.drop_last())
    } else {
        s
    }
}

/// `s` without leading and trailing whitespace.
pub open spec fn trim_spec(s: Seq<char>) -> Seq<char> {
    trim_end_spec(trim_start_spec(s))
}

fn is_space_exec(c: char) -> (r: bool)
    ensures
        r == is_space(c),
{
    c == ' ' || c == '\t' || c == '\r'
}

/// Trim whitespace from both ends.
pub fn trim_chars(v: &Vec<char>) -> (r: Vec<char>)
    ensures
        r@ == trim_spec(v@),
{
    let n = v.len();
    let mut lo: usize = 0;
    proof {
        assert(v@.skip(0) =~= v@);
    }
    while lo < n && is_space_exec(v[lo])
        invariant
            lo <= n,
            n == v@.len(),
            trim_start_spec(v@) == trim_start_spec(v@.skip(lo as int)),
        decreases n - lo,
    {
        proof {
            assert(v@.skip(lo as int).skip(1) =~= v@.skip(lo + 1));
        }
        lo = lo + 1;
    }
    proof {
        if lo == n {
            assert(v@.skip(lo as int).len() == 0);
        }
        assert(trim_start_spec(v@) == v@.skip(lo as int));
    }
    let mut hi: usize = n;
    while hi > lo && is_space_exec(v[hi - 1])
        invariant
            lo <= hi <= n,
            n == v@.len(),
            trim_start_spec(v@) == v@.skip(lo as int),
            trim_end_spec(v@.skip(lo as int)) == trim_end_spec(v@.subrange(lo as int, hi as int)),
        decreases hi,
    {
        proof {
            assert(v@.subrange(lo as int, hi as int).drop_last() =~= v@.subrange(
                lo as int,
                hi - 1,
            ));
        }
        hi = hi - 1;
    }
    proof {
        assert(v@.skip(lo as int) =~= v@.subrange(lo as int, n as int));
        assert(trim_end_spec(v@.subrange(lo as int, hi as int)) == v@.subrange(
            lo as int,
            hi as int,
        ));
    }
    subrange_chars(v, lo, hi)
}

/// The lines of a text: pieces between newlines, a trailing newline closing
/// the last line rather than opening an empty one.
pub open spec fn lines_of(s: Seq<char>) -> Seq<Seq<char>> {
    if s.len() == 0 {
        Seq::empty()
    } else if s.last() == '\n' {
        split_char_seq(s.drop_last(), '\n')
    } else {
        split_char_seq(s, '\n')
    }
}

/// Split `v` on every occurrence of `c`.
pub fn split_on_char(v: &Vec<char>, c: char) -> (r: Vec<Vec<char>>)
    ensures
        r.deep_view() == split_char_seq(v@, c),
{
    let mut r: Vec<Vec<char>> = Vec::new();
    let n = v.len();
    let mut cur: Vec<char> = Vec::new();
    let mut i: usize = 0;
    proof {
        assert(r.deep_view() =~= Seq::<Seq<char>>::empty());
        assert(cur@ =~= v@.subrange(0, 0));
        assert(v@.skip(0) =~= v@);
        assert(Seq::<Seq<char>>::empty() + split_char_seq(v@, c) =~= split_char_seq(v@, c));
    }
    while i < n
        invariant
            i <= n,
            n == v@.len(),
            cur@.len() <= i,
            cur@ == v@.subrange(i - cur@.len(), i as int),
            forall|k: int| 0 <= k < cur@.len() ==> cur@[k] != c,
            split_char_seq(v@, c) == r.deep_view() + split_char_seq(v@.skip(i - cur@.len()), c),
        decreases n - i,
    {
        let ch = v[i];
        if ch == c {
            let ghost rest = v@.skip(i - cur@.len());
            proof {
                lemma_find_char(rest, c);
                assert(rest[cur@.len() as int] == c);
                assert(forall|k: int| 0 <= k < cur@.len() ==> rest[k] == cur@[k]);
                assert(find_char(rest, c) == cur@.len());
                assert(rest.take(cur@.len() as int) =~= cur@);
                assert(rest.skip(cur@.len() as int + 1) =~= v@.skip(i + 1));
            }
            let ghost pre_r = r.deep_view();
            let ghost cur_v = cur@;
            r.push(cur);
            cur = Vec::new();
            proof {
                assert(r.deep_view() =~~= pre_r.push(cur_v));
                assert(cur@ =~= v@.subrange(i + 1, i + 1));
            }
        } else {
            cur.push(ch);
            proof {
                assert(cur@ =~= v@.subrange(i + 1 - cur@.len(), i + 1));
            }
        }
        i = i + 1;
    }
    let ghost rest = v@.skip(i - cur@.len());
    proof {
        lemma_find_char(rest, c);
        assert(rest =~= cur@);
        assert(find_char(rest, c) < 0);
        assert(split_char_seq(rest, c) =~= seq![cur@]);
    }
    let ghost pre_r = r.deep_view();
    let ghost cur_v = cur@;
    r.push(cur);
    proof {
        assert(r.deep_view() =~~= pre_r.push(cur_v));
        assert(r.deep_view() =~= split_char_seq(v@, c));
    }
    r
}

/// Split a text into its lines.
pub fn split_lines(v: &Vec<char>) -> (r: Vec<Vec<char>>)
    ensures
        r.deep_view() == lines_of(v@),
{
    let n = v.len();
    if n == 0 {
        let r: Vec<Vec<char>> = Vec::new();
        proof {
            assert(r.deep_view() =~= lines_of(v@));
        }
        return r;
    }
    let w: usize = if v[n - 1] == '\n' {
        n - 1
    } else {
        n
    };
    let body = subrange_chars(v, 0, w);
    proof {
        if v@.last() == '\n' {
            assert(body@ =~= v@.drop_last());
        } else {
            assert(body@ =~= v@);
        }
    }
    split_on_char(&body, '\n')
}


/// Copy the characters `v[from..to]` into a fresh vector.
pub fn subrange_chars(v: &Vec<char>, from: usize, to: usize) -> (r: Vec<char>)
    requires
        from <= to <= v@.len(),
    ensures
        r@ == v@.subrange(from as int, to as int),
{
    let mut r: Vec<char> = Vec::new();
    let mut i: usize = from;
    while i < to
        invariant
            from <= i <= to <= v@.len(),
            r@ == v@.subrange(from as int, i as int),
        decreases to - i,
    {
        r.push(v[i]);
        proof {
            assert(r@ =~= v@.subrange(from as int, i + 1));
        }
        i = i + 1;
    }
    r
}

} // verus!

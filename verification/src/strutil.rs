//! Verified helpers on strings and sequences of strings: equality,
//! concatenation, character search, substring matching, placeholder
//! replacement, ASCII case folding and order-preserving deduplication.
//! Contracts are stated over the `Seq<char>` views of the strings.

use vstd::prelude::*;

verus! {

/// The views of a sequence of strings, as a sequence of character sequences.
pub open spec fn views(v: Seq<String>) -> Seq<Seq<char>> {
    v.map_values(|s: String| s@)
}

/// Whether two string slices hold the same characters.
pub fn str_eq(a: &str, b: &str) -> (r: bool)
    ensures
        r == (a@ == b@),
{
    let oa = a.to_owned();
    let ob = b.to_owned();
    oa == ob
}

/// The concatenation of two string slices.
pub fn concat_str(a: &str, b: &str) -> (r: String)
    ensures
        r@ == a@ + b@,
{
    let mut s = a.to_owned();
    s.append(b);
    s
}

/// The concatenation of three string slices.
pub fn concat3(a: &str, b: &str, c: &str) -> (r: String)
    ensures
        r@ == a@ + b@ + c@,
{
    let mut s = a.to_owned();
    s.append(b);
    s.append(c);
    s
}

/// Joins a directory path and an entry name with a forward slash.
pub fn join_path(dir: &str, name: &str) -> (r: String)
    ensures
        r@ == dir@ + "/"@ + name@,
{
    concat3(dir, "/", name)
}

/// Whether the string holds the character `c` anywhere.
pub fn contains_char(s: &str, c: char) -> (r: bool)
    ensures
        r == s@.contains(c),
{
    let n = s.unicode_len();
    let mut i: usize = 0;
    while i < n
        invariant
            n == s@.len(),
            i <= n,
            forall|j: int| 0 <= j < i ==> s@[j] != c,
        decreases n - i,
    {
        if s.get_char(i) == c {
            assert(s@[i as int] == c);
            return true;
        }
        i += 1;
    }
    false
}

/// The index of the last occurrence of `c` in the string, if any.
pub fn find_last(s: &str, c: char) -> (r: Option<usize>)
    ensures
        match r {
            Some(i) => s@.index_of_last(c) == Some(i as int),
            None => s@.index_of_last(c) is None,
        },
{
    let n = s.unicode_len();
    let mut best: Option<usize> = None;
    let mut i: usize = 0;
    while i < n
        invariant
            n == s@.len(),
            i <= n,
            match best {
                Some(k) => k < i && s@[k as int] == c && (forall|j: int|
                    k < j < i ==> s@[j] != c),
                None => forall|j: int| 0 <= j < i ==> s@[j] != c,
            },
        decreases n - i,
    {
        if s.get_char(i) == c {
            best = Some(i);
        }
        i += 1;
    }
    proof {
        s@.index_of_last_ensures(c);
        match best {
            Some(k) => {
                assert(s@.contains(c)) by {
                    assert(s@[k as int] == c);
                }
            },
            None => {
                assert(!s@.contains(c)) by {
                    assert forall|j: int| 0 <= j < s@.len() implies s@[j] != c by {}
                }
            },
        }
    }
    best
}

/// The index of the first occurrence of `c` in the string, if any.
pub fn find_first(s: &str, c: char) -> (r: Option<usize>)
    ensures
        match r {
            Some(i) => s@.index_of_first(c) == Some(i as int),
            None => s@.index_of_first(c) is None,
        },
{
    let n = s.unicode_len();
    let mut i: usize = 0;
    while i < n
        invariant
            n == s@.len(),
            i <= n,
            forall|j: int| 0 <= j < i ==> s@[j] != c,
        decreases n - i,
    {
        if s.get_char(i) == c {
            proof {
                assert(s@[i as int] == c);
                s@.index_of_first_ensures(c);
            }
            return Some(i);
        }
        i += 1;
    }
    proof {
        assert(!s@.contains(c)) by {
            assert forall|j: int| 0 <= j < s@.len() implies s@[j] != c by {}
        }
        s@.index_of_first_ensures(c);
    }
    None
}

/// Splits a file name at its last dot into stem and extension, by the usual
/// file-name convention: a name without a dot, or whose only dot leads it,
/// has no extension.
pub open spec fn ext_split(name: Seq<char>) -> Option<(Seq<char>, Seq<char>)> {
    match name.index_of_last('.') {
        Some(i) => if i > 0 {
            Some((name.take(i), name.skip(i + 1)))
        } else {
            None
        },
        None => None,
    }
}

/// Splits a file name into stem and extension, if it has one.
pub fn split_extension(name: &str) -> (r: Option<(String, String)>)
    ensures
        match r {
            Some(se) => ext_split(name@) == Some((se.0@, se.1@)),
            None => ext_split(name@) is None,
        },
{
    let n = name.unicode_len();
    match find_last(name, '.') {
        Some(i) if i > 0 => {
            proof {
                name@.index_of_last_ensures('.');
            }
            let stem = name.substring_char(0, i).to_owned();
            let ext = name.substring_char(i + 1, n).to_owned();
            proof {
                assert(stem@ =~= name@.take(i as int));
                assert(ext@ =~= name@.skip(i + 1));
            }
            Some((stem, ext))
        },
        _ => None,
    }
}

/// Whether the characters of `pat` stand in `s` at offset `i`.
pub fn matches_at(s: &str, i: usize, pat: &str) -> (r: bool)
    requires
        s@.len() <= usize::MAX,
        i + pat@.len() <= s@.len(),
    ensures
        r == (s@.subrange(i as int, i + pat@.len()) == pat@),
{
    let p = pat.unicode_len();
    let mut j: usize = 0;
    while j < p
        invariant
            p == pat@.len(),
            s@.len() <= usize::MAX,
            i + p <= s@.len(),
            j <= p,
            forall|k: int| 0 <= k < j ==> s@[i + k] == pat@[k],
        decreases p - j,
    {
        if s.get_char(i + j) != pat.get_char(j) {
            assert(s@.subrange(i as int, i + pat@.len())[j as int] != pat@[j as int]);
            return false;
        }
        j += 1;
    }
    proof {
        assert(s@.subrange(i as int, i + pat@.len()) =~= pat@);
    }
    true
}

/// `s` with every occurrence of `pat` replaced by `rep`, scanning from the
/// left and never rescanning replaced text. An empty pattern replaces
/// nothing.
pub open spec fn replace_all(s: Seq<char>, pat: Seq<char>, rep: Seq<char>) -> Seq<char>
    decreases s.len(),
{
    if pat.len() == 0 || s.len() < pat.len() {
        s
    } else if s.take(pat.len() as int) == pat {
        rep + replace_all(s.skip(pat.len() as int), pat, rep)
    } else {
        s.take(1) + replace_all(s.skip(1), pat, rep)
    }
}

/// Replaces every occurrence of `pat` in `s` by `rep`.
pub fn replace_all_str(s: &str, pat: &str, rep: &str) -> (r: String)
    requires
        pat@.len() > 0,
    ensures
        r@ == replace_all(s@, pat@, rep@),
{
    let n = s.unicode_len();
    let p = pat.unicode_len();
    let mut r = String::new();
    let mut i: usize = 0;
    proof {
        assert(s@.skip(0) =~= s@);
        assert(r@ + replace_all(s@, pat@, rep@) =~= replace_all(s@, pat@, rep@));
    }
    while i < n
        invariant
            n == s@.len(),
            p == pat@.len(),
            p > 0,
            i <= n,
            replace_all(s@, pat@, rep@) == r@ + replace_all(s@.skip(i as int), pat@, rep@),
        decreases n - i,
    {
        let ghost rest = s@.skip(i as int);
        if n - i >= p && matches_at(s, i, pat) {
            proof {
                assert(rest.take(p as int) =~= s@.subrange(i as int, i + p));
                assert(rest.skip(p as int) =~= s@.skip(i + p));
                assert(replace_all(rest, pat@, rep@) == rep@ + replace_all(
                    s@.skip(i + p),
                    pat@,
                    rep@,
                ));
            }
            r.append(rep);
            i += p;
        } else {
            let c = s.substring_char(i, i + 1);
            proof {
                assert(rest.take(1) =~= s@.subrange(i as int, i + 1));
                assert(rest.skip(1) =~= s@.skip(i + 1));
                if rest.len() >= p {
                    assert(rest.take(p as int) =~= s@.subrange(i as int, i + p));
                    assert(rest.take(p as int) != pat@);
                    assert(replace_all(rest, pat@, rep@) == rest.take(1) + replace_all(
                        s@.skip(i + 1),
                        pat@,
                        rep@,
                    ));
                } else {
                    assert(replace_all(rest, pat@, rep@) == rest);
                    assert(rest =~= rest.take(1) + rest.skip(1));
                    assert(replace_all(s@.skip(i + 1), pat@, rep@) == s@.skip(i + 1));
                }
            }
            r.append(c);
            i += 1;
        }
    }
    proof {
        assert(s@.skip(n as int) =~= Seq::<char>::empty());
        assert(replace_all(s@.skip(n as int), pat@, rep@) == Seq::<char>::empty());
        assert(r@ + Seq::<char>::empty() =~= r@);
    }
    r
}

/// ASCII lower-casing of one character; other characters are unchanged.
pub open spec fn lower_char(c: char) -> char {
    if 'A' <= c && c <= 'Z' {
        ((c as u8) + 32) as char
    } else {
        c
    }
}

/// ASCII lower-casing of a character sequence.
pub open spec fn lower(s: Seq<char>) -> Seq<char> {
    s.map_values(|c: char| lower_char(c))
}

/// Whether two strings are equal after ASCII case folding.
pub fn eq_ignore_case(a: &str, b: &str) -> (r: bool)
    ensures
        r == (lower(a@) == lower(b@)),
{
    let n = a.unicode_len();
    let m = b.unicode_len();
    if n != m {
        proof {
            assert(lower(a@).len() != lower(b@).len());
        }
        return false;
    }
    let mut i: usize = 0;
    while i < n
        invariant
            n == a@.len(),
            n == b@.len(),
            i <= n,
            forall|j: int| 0 <= j < i ==> lower(a@)[j] == lower(b@)[j],
        decreases n - i,
    {
        let ca = a.get_char(i);
        let cb = b.get_char(i);
        let la = if 'A' <= ca && ca <= 'Z' {
            ((ca as u8) + 32) as char
        } else {
            ca
        };
        let lb = if 'A' <= cb && cb <= 'Z' {
            ((cb as u8) + 32) as char
        } else {
            cb
        };
        if la != lb {
            assert(lower(a@)[i as int] != lower(b@)[i as int]);
            return false;
        }
        assert(lower(a@)[i as int] == lower(b@)[i as int]);
        i += 1;
    }
    proof {
        assert(lower(a@) =~= lower(b@));
    }
    true
}

/// Whether some string of `v` holds the same characters as `s`.
pub fn contains_string(v: &Vec<String>, s: &str) -> (r: bool)
    ensures
        r == views(v@).contains(s@),
{
    let mut i: usize = 0;
    while i < v.len()
        invariant
            i <= v@.len(),
            forall|j: int| 0 <= j < i ==> views(v@)[j] != s@,
        decreases v@.len() - i,
    {
        if str_eq(v[i].as_str(), s) {
            assert(views(v@)[i as int] == s@);
            return true;
        }
        assert(views(v@)[i as int] != s@);
        i += 1;
    }
    false
}

/// Appends the strings of `src` to `dst`, in order.
pub fn append_strings(dst: &mut Vec<String>, src: &Vec<String>)
    ensures
        views(final(dst)@) == views(old(dst)@) + views(src@),
{
    let ghost base = dst@;
    let mut j: usize = 0;
    while j < src.len()
        invariant
            j <= src@.len(),
            dst@.len() == base.len() + j,
            forall|k: int| 0 <= k < base.len() ==> #[trigger] dst@[k] == base[k],
            forall|k: int|
                base.len() <= k < base.len() + j ==> #[trigger] dst@[k]@ == src@[k - base.len()]@,
        decreases src@.len() - j,
    {
        dst.push(src[j].clone());
        j += 1;
    }
    proof {
        assert forall|k: int| 0 <= k < dst@.len() implies views(dst@)[k] == (views(base) + views(
            src@,
        ))[k] by {
            assert(views(dst@)[k] == dst@[k]@);
            if k < base.len() {
                assert(dst@[k] == base[k]);
                assert((views(base) + views(src@))[k] == views(base)[k]);
                assert(views(base)[k] == base[k]@);
            } else {
                assert(dst@[k]@ == src@[k - base.len()]@);
                assert((views(base) + views(src@))[k] == views(src@)[k - base.len()]);
                assert(views(src@)[k - base.len()] == src@[k - base.len()]@);
            }
        }
        assert(views(dst@) =~= views(base) + views(src@));
    }
}

/// Order-preserving deduplication: keeps the first occurrence of each
/// element and drops every later one.
pub open spec fn dedup_seq<T>(s: Seq<T>) -> Seq<T>
    decreases s.len(),
{
    if s.len() == 0 {
        Seq::empty()
    } else {
        let prev = dedup_seq(s.drop_last());
        if prev.contains(s.last()) {
            prev
        } else {
            prev.push(s.last())
        }
    }
}

/// Deduplication never invents nor loses elements.
pub proof fn lemma_dedup_membership<T>(s: Seq<T>, x: T)
    ensures
        dedup_seq(s).contains(x) == s.contains(x),
    decreases s.len(),
{
    if s.len() > 0 {
        lemma_dedup_membership(s.drop_last(), x);
        let prev = dedup_seq(s.drop_last());
        if s.contains(x) {
            let i = choose|i: int| 0 <= i < s.len() && s[i] == x;
            if i < s.len() - 1 {
                assert(s.drop_last()[i] == x);
                assert(s.drop_last().contains(x));
                if !prev.contains(s.last()) {
                    let j = choose|j: int| 0 <= j < prev.len() && prev[j] == x;
                    assert(prev.push(s.last())[j] == x);
                }
            } else {
                if !prev.contains(s.last()) {
                    assert(prev.push(s.last()).last() == x);
                }
            }
        } else {
            assert(!s.drop_last().contains(x)) by {
                if s.drop_last().contains(x) {
                    let i = choose|i: int| 0 <= i < s.drop_last().len() && s.drop_last()[i] == x;
                    assert(s[i] == x);
                }
            }
            assert(s.last() != x) by {
                assert(s[s.len() - 1] == s.last());
            }
            if !prev.contains(s.last()) {
                if prev.push(s.last()).contains(x) {
                    let j = choose|j: int|
                        0 <= j < prev.push(s.last()).len() && prev.push(s.last())[j] == x;
                    if j < prev.len() {
                        assert(prev[j] == x);
                    }
                }
            }
        }
    }
}

/// The result of deduplication has no duplicate elements.
pub proof fn lemma_dedup_no_duplicates<T>(s: Seq<T>)
    ensures
        dedup_seq(s).no_duplicates(),
    decreases s.len(),
{
    if s.len() > 0 {
        lemma_dedup_no_duplicates(s.drop_last());
        let prev = dedup_seq(s.drop_last());
        if !prev.contains(s.last()) {
            let out = prev.push(s.last());
            assert forall|i: int, j: int| 0 <= i < j < out.len() implies out[i] != out[j] by {
                if j < out.len() - 1 {
                    assert(out[i] == prev[i] && out[j] == prev[j]);
                } else {
                    assert(out[j] == s.last());
                    assert(out[i] == prev[i]);
                    assert(!prev.contains(s.last()));
                    if prev[i] == s.last() {
                        assert(prev.contains(s.last()));
                    }
                }
            }
        }
    }
}

/// A later duplicate occurrence leaves the deduplicated sequence unchanged.
pub proof fn lemma_dedup_push_duplicate<T>(s: Seq<T>, x: T)
    requires
        s.contains(x),
    ensures
        dedup_seq(s.push(x)) == dedup_seq(s),
{
    assert(s.push(x).drop_last() =~= s);
    lemma_dedup_membership(s, x);
    assert(dedup_seq(s).contains(x));
    assert(s.push(x).last() == x);
}

/// How many elements of `s` satisfy `pred`.
pub open spec fn count_matching<T>(s: Seq<T>, pred: spec_fn(T) -> bool) -> nat
    decreases s.len(),
{
    if s.len() == 0 {
        0
    } else {
        count_matching(s.drop_last(), pred) + if pred(s.last()) {
            1nat
        } else {
            0nat
        }
    }
}

/// Counting distributes over concatenation.
pub proof fn lemma_count_matching_concat<T>(a: Seq<T>, b: Seq<T>, pred: spec_fn(T) -> bool)
    ensures
        count_matching(a + b, pred) == count_matching(a, pred) + count_matching(b, pred),
    decreases b.len(),
{
    if b.len() == 0 {
        assert(a + b =~= a);
    } else {
        assert((a + b).drop_last() =~= a + b.drop_last());
        assert((a + b).last() == b.last());
        lemma_count_matching_concat(a, b.drop_last(), pred);
    }
}

/// Nothing is counted when no element satisfies the predicate.
pub proof fn lemma_count_matching_zero<T>(s: Seq<T>, pred: spec_fn(T) -> bool)
    requires
        forall|i: int| 0 <= i < s.len() ==> !pred(s[i]),
    ensures
        count_matching(s, pred) == 0,
    decreases s.len(),
{
    if s.len() > 0 {
        assert(!pred(s.last())) by {
            assert(s.last() == s[s.len() - 1]);
        }
        lemma_count_matching_zero(s.drop_last(), pred);
    }
}

/// In a duplicate-free sequence, a predicate that picks out exactly the
/// element `x` counts one occurrence when `x` is present and none otherwise.
pub proof fn lemma_count_matching_unique<T>(s: Seq<T>, pred: spec_fn(T) -> bool, x: T)
    requires
        s.no_duplicates(),
        forall|y: T| #[trigger] pred(y) <==> y == x,
    ensures
        count_matching(s, pred) == if s.contains(x) {
            1nat
        } else {
            0nat
        },
    decreases s.len(),
{
    if s.len() > 0 {
        let rest = s.drop_last();
        assert(rest.no_duplicates());
        lemma_count_matching_unique(rest, pred, x);
        if s.last() == x {
            assert(!rest.contains(x)) by {
                if rest.contains(x) {
                    let i = choose|i: int| 0 <= i < rest.len() && rest[i] == x;
                    assert(s[i] == x && s[s.len() - 1] == x);
                }
            }
            assert(s.contains(x)) by {
                assert(s[s.len() - 1] == x);
            }
        } else {
            assert(s.contains(x) == rest.contains(x)) by {
                if s.contains(x) {
                    let i = choose|i: int| 0 <= i < s.len() && s[i] == x;
                    assert(s[s.len() - 1] == s.last());
                    assert(i < s.len() - 1);
                    assert(rest[i] == x);
                }
                if rest.contains(x) {
                    let i = choose|i: int| 0 <= i < rest.len() && rest[i] == x;
                    assert(s[i] == x);
                }
            }
        }
    }
}

/// Deduplicates a vector of strings, keeping first occurrences in order.
pub fn dedup_strings(v: &Vec<String>) -> (r: Vec<String>)
    ensures
        views(r@) == dedup_seq(views(v@)),
{
    let mut r: Vec<String> = Vec::new();
    let mut i: usize = 0;
    proof {
        assert(views(r@) =~= Seq::<Seq<char>>::empty());
        assert(views(v@).take(0) =~= Seq::<Seq<char>>::empty());
    }
    while i < v.len()
        invariant
            i <= v@.len(),
            views(r@) == dedup_seq(views(v@).take(i as int)),
        decreases v@.len() - i,
    {
        let ghost pre = views(v@).take(i as int);
        let present = contains_string(&r, v[i].as_str());
        if !present {
            r.push(v[i].clone());
        }
        proof {
            assert(views(v@).take(i + 1).drop_last() =~= pre);
            assert(views(v@).take(i + 1).last() == views(v@)[i as int]);
            assert(views(v@)[i as int] == v@[i as int]@);
            if present {
                assert(views(r@) == dedup_seq(views(v@).take(i + 1)));
            } else {
                assert(views(r@) =~= dedup_seq(pre).push(v@[i as int]@));
            }
        }
        i += 1;
    }
    proof {
        assert(views(v@).take(v@.len() as int) =~= views(v@));
    }
    r
}

} // verus!

//! Searching, replacing and trimming in text, as `str::find`,
//! `str::replace`, `str::trim_start_matches`, `str::trim_end_matches` and
//! `str::trim` do it.

use vstd::prelude::*;

verus! {

/// Position of the first occurrence of `p` in `s`, or -1.
pub open spec fn find(s: Seq<char>, p: Seq<char>) -> int
    decreases s.len(),
{
    if p.is_prefix_of(s) {
        0
    } else if s.len() == 0 {
        -1
    } else {
        let r = find(s.drop_first(), p);
        if r < 0 { -1 } else { r + 1 }
    }
}

/// `p` occurs in `s` at position `k`.
pub open spec fn occurs_at(s: Seq<char>, p: Seq<char>, k: int) -> bool {
    0 <= k && p.is_prefix_of(s.skip(k))
}

/// The first occurrence of `p` in `s` is at `k` when it occurs there and
/// nowhere before; `p` does not occur when it occurs nowhere up to the end.
pub proof fn lemma_find(s: Seq<char>, p: Seq<char>, k: int)
    requires
        0 <= k <= s.len(),
        forall|j: int| 0 <= j < k ==> !#[trigger] occurs_at(s, p, j),
    ensures
        occurs_at(s, p, k) ==> find(s, p) == k,
        k == s.len() && !occurs_at(s, p, k) ==> find(s, p) == -1,
    decreases k,
{
    assert(s.skip(0) =~= s);
    if k > 0 {
        assert(!occurs_at(s, p, 0));
        let d = s.drop_first();
        assert forall|j: int| 0 <= j < k - 1 implies !#[trigger] occurs_at(d, p, j) by {
            assert(d.skip(j) =~= s.skip(j + 1));
            assert(!occurs_at(s, p, j + 1));
        }
        assert(d.skip(k - 1) =~= s.skip(k));
        lemma_find(d, p, k - 1);
    }
}

/// `find` gives an occurrence, and the first one.
pub proof fn lemma_find_is_first(s: Seq<char>, p: Seq<char>)
    ensures
        -1 <= find(s, p) <= s.len(),
        find(s, p) >= 0 ==> occurs_at(s, p, find(s, p)),
        forall|j: int| 0 <= j < find(s, p) ==> !#[trigger] occurs_at(s, p, j),
        find(s, p) == -1 ==> forall|j: int| 0 <= j <= s.len() ==> !#[trigger] occurs_at(s, p, j),
    decreases s.len(),
{
    assert(s.skip(0) =~= s);
    if !p.is_prefix_of(s) && s.len() > 0 {
        let d = s.drop_first();
        lemma_find_is_first(d, p);
        assert forall|j: int| 1 <= j <= s.len() implies occurs_at(s, p, j) == occurs_at(d, p, j - 1) by {
            assert(d.skip(j - 1) =~= s.skip(j));
        }
        assert forall|j: int| 0 <= j < find(s, p) implies !#[trigger] occurs_at(s, p, j) by {
            if j >= 1 {
                assert(occurs_at(s, p, j) == occurs_at(d, p, j - 1));
            }
        }
        if find(s, p) == -1 {
            assert forall|j: int| 0 <= j <= s.len() implies !#[trigger] occurs_at(s, p, j) by {
                if j >= 1 {
                    assert(occurs_at(s, p, j) == occurs_at(d, p, j - 1));
                }
            }
        }
    } else if !p.is_prefix_of(s) {
        assert forall|j: int| 0 <= j <= s.len() implies !#[trigger] occurs_at(s, p, j) by {}
    }
}

/// The text before and the text after the first occurrence of `p` in `s`,
/// if `p` occurs in `s`.
pub open spec fn split_once(s: Seq<char>, p: Seq<char>) -> Option<(Seq<char>, Seq<char>)> {
    let k = find(s, p);
    if k >= 0 {
        Some((s.take(k), s.skip(k + p.len())))
    } else {
        None
    }
}

/// `s` with every occurrence of `from` replaced by `to`, the occurrences
/// taken from left to right without overlap; `from` is not empty.
pub open spec fn replace_all(s: Seq<char>, from: Seq<char>, to: Seq<char>) -> Seq<char>
    decreases s.len(),
{
    if s.len() == 0 {
        seq![]
    } else if from.len() > 0 && from.is_prefix_of(s) {
        to + replace_all(s.skip(from.len() as int), from, to)
    } else {
        seq![s[0]] + replace_all(s.drop_first(), from, to)
    }
}

/// `s` with every leading occurrence of `p` removed; `p` is not empty.
pub open spec fn trim_start_pat(s: Seq<char>, p: Seq<char>) -> Seq<char>
    decreases s.len(),
{
    if p.len() > 0 && p.is_prefix_of(s) {
        trim_start_pat(s.skip(p.len() as int), p)
    } else {
        s
    }
}

/// `s` with every trailing occurrence of `p` removed; `p` is not empty.
pub open spec fn trim_end_pat(s: Seq<char>, p: Seq<char>) -> Seq<char>
    decreases s.len(),
{
    if p.len() > 0 && p.is_suffix_of(s) {
        trim_end_pat(s.take(s.len() - p.len()), p)
    } else {
        s
    }
}

/// `c` has the Unicode property White_Space, as `char::is_whitespace` tests.
pub open spec fn is_ws(c: char) -> bool {
    let u = c as u32;
    (9 <= u <= 13) || u == 32 || u == 0x85 || u == 0xa0 || u == 0x1680 || (0x2000 <= u <= 0x200a)
        || u == 0x2028 || u == 0x2029 || u == 0x202f || u == 0x205f || u == 0x3000
}

/// `s` without its leading white space.
pub open spec fn trim_start_ws(s: Seq<char>) -> Seq<char>
    decreases s.len(),
{
    if s.len() > 0 && is_ws(s[0]) {
        trim_start_ws(s.drop_first())
    } else {
        s
    }
}

/// `s` without its trailing white space.
pub open spec fn trim_end_ws(s: Seq<char>) -> Seq<char>
    decreases s.len(),
{
    if s.len() > 0 && is_ws(s.last()) {
        trim_end_ws(s.drop_last())
    } else {
        s
    }
}

/// `s` without its leading and trailing white space.
pub open spec fn trim_ws(s: Seq<char>) -> Seq<char> {
    trim_end_ws(trim_start_ws(s))
}

/// `trim_start_ws` removes a prefix and leaves no leading white space.
pub proof fn lemma_trim_start_ws(s: Seq<char>)
    ensures
        exists|k: int| 0 <= k <= s.len() && trim_start_ws(s) == s.skip(k),
        trim_start_ws(s).len() > 0 ==> !is_ws(trim_start_ws(s)[0]),
    decreases s.len(),
{
    if s.len() > 0 && is_ws(s[0]) {
        lemma_trim_start_ws(s.drop_first());
        let k = choose|k: int| 0 <= k <= s.drop_first().len() && trim_start_ws(s.drop_first()) == s.drop_first().skip(k);
        assert(s.drop_first().skip(k) =~= s.skip(k + 1));
    } else {
        assert(s.skip(0) =~= s);
    }
}

/// `trim_end_ws` removes a suffix and leaves no trailing white space; it
/// keeps a first character that is not white space.
pub proof fn lemma_trim_end_ws(s: Seq<char>)
    ensures
        exists|m: int| 0 <= m <= s.len() && trim_end_ws(s) == s.take(m),
        trim_end_ws(s).len() > 0 ==> !is_ws(trim_end_ws(s).last()),
        s.len() > 0 && !is_ws(s[0]) ==> trim_end_ws(s).len() > 0 && trim_end_ws(s)[0] == s[0],
    decreases s.len(),
{
    if s.len() > 0 && is_ws(s.last()) {
        lemma_trim_end_ws(s.drop_last());
        let m = choose|m: int| 0 <= m <= s.drop_last().len() && trim_end_ws(s.drop_last()) == s.drop_last().take(m);
        assert(s.drop_last().take(m) =~= s.take(m));
    } else {
        assert(s.take(s.len() as int) =~= s);
    }
}

/// What `trim_ws` gives has no white space at either end.
pub proof fn lemma_trim_ws_ends(s: Seq<char>)
    ensures
        trim_ws(s).len() > 0 ==> !is_ws(trim_ws(s)[0]) && !is_ws(trim_ws(s).last()),
{
    lemma_trim_start_ws(s);
    lemma_trim_end_ws(trim_start_ws(s));
}

/// Trimming a text with no white space at its ends, framed by line breaks,
/// gives the text back.
pub proof fn lemma_trim_framed(t: Seq<char>)
    requires
        t.len() > 0 ==> !is_ws(t[0]) && !is_ws(t.last()),
    ensures
        trim_ws(seq!['\n'] + t + seq!['\n']) == t,
{
    let s = seq!['\n'] + t + seq!['\n'];
    assert(is_ws('\n'));
    assert(s.drop_first() =~= t + seq!['\n']);
    let u = t + seq!['\n'];
    if t.len() > 0 {
        assert(u[0] == t[0]);
        assert(s[0] == '\n');
        assert(trim_start_ws(s) == trim_start_ws(s.drop_first()));
        assert(trim_start_ws(u) == u);
        assert(trim_start_ws(s) == u);
        assert(u.last() == '\n');
        assert(u.drop_last() =~= t);
        assert(trim_end_ws(u) == trim_end_ws(t));
        assert(trim_end_ws(t) == t);
    } else {
        assert(u =~= seq!['\n']);
        assert(u[0] == '\n');
        assert(u.drop_first() =~= Seq::<char>::empty());
        assert(trim_start_ws(u.drop_first()) =~= Seq::<char>::empty());
        assert(trim_start_ws(u) == trim_start_ws(u.drop_first()));
        assert(s[0] == '\n');
        assert(trim_start_ws(s) == trim_start_ws(s.drop_first()));
        assert(trim_start_ws(s) =~= Seq::<char>::empty());
        assert(t =~= Seq::<char>::empty());
    }
}

/// A pattern that does not occur in `s` does not occur in a part of it.
pub proof fn lemma_find_subrange(s: Seq<char>, p: Seq<char>, k: int, l: int)
    requires
        find(s, p) == -1,
        0 <= k <= l <= s.len(),
    ensures
        find(s.subrange(k, l), p) == -1,
{
    lemma_find_is_first(s, p);
    let sub = s.subrange(k, l);
    assert forall|j: int| 0 <= j <= sub.len() implies !#[trigger] occurs_at(sub, p, j) by {
        if occurs_at(sub, p, j) {
            assert(sub.skip(j).subrange(0, p.len() as int) =~= s.skip(k + j).subrange(0, p.len() as int));
            assert(occurs_at(s, p, k + j));
        }
    }
    lemma_find(sub, p, sub.len() as int);
}

/// What `trim_ws` gives is a part of its argument.
pub proof fn lemma_trim_ws_part(s: Seq<char>)
    ensures
        exists|k: int, l: int| 0 <= k <= l <= s.len() && trim_ws(s) == s.subrange(k, l),
{
    lemma_trim_start_ws(s);
    let k = choose|k: int| 0 <= k <= s.len() && trim_start_ws(s) == s.skip(k);
    lemma_trim_end_ws(trim_start_ws(s));
    let m = choose|m: int| 0 <= m <= trim_start_ws(s).len() && trim_end_ws(trim_start_ws(s)) == trim_start_ws(s).take(m);
    assert(s.skip(k).take(m) =~= s.subrange(k, k + m));
}

/// Trimming what is already trimmed changes nothing.
pub proof fn lemma_trim_ws_idempotent(s: Seq<char>)
    ensures
        trim_ws(trim_ws(s)) == trim_ws(s),
{
    let t = trim_ws(s);
    lemma_trim_ws_ends(s);
    assert(trim_start_ws(t) == t);
    if t.len() > 0 {
        assert(trim_end_ws(t) == t);
    } else {
        assert(trim_end_ws(t) == t);
    }
}

// ---------------------------------------------------------------------
// Executable versions
// ---------------------------------------------------------------------

/// Whether `p` occurs in `s` at position `i`.
pub fn matches_at(s: &Vec<char>, i: usize, p: &Vec<char>) -> (r: bool)
    requires
        i <= s.len(),
    ensures
        r == occurs_at(s@, p@, i as int),
{
    if p.len() > s.len() - i {
        return false;
    }
    let n = p.len();
    let sl = s.len();
    let mut k: usize = 0;
    while k < n
        invariant
            n == p@.len(),
            sl == s@.len(),
            i + n <= s@.len(),
            k <= n,
            forall|j: int| 0 <= j < k ==> s@[i + j] == p@[j],
        decreases n - k,
    {
        if s[i + k] != p[k] {
            return false;
        }
        k = k + 1;
    }
    assert(s@.skip(i as int).take(n as int) =~= p@);
    true
}

/// Position of the first occurrence of `p` in `s`, if any.
pub fn find_chars(s: &Vec<char>, p: &Vec<char>) -> (r: Option<usize>)
    ensures
        match r {
            Some(k) => find(s@, p@) == k as int,
            None => find(s@, p@) == -1,
        },
{
    let n = s.len();
    let mut i: usize = 0;
    while i <= n
        invariant
            n == s@.len(),
            forall|j: int| 0 <= j < i ==> !#[trigger] occurs_at(s@, p@, j),
        decreases n + 1 - i,
    {
        if matches_at(s, i, p) {
            proof {
                lemma_find(s@, p@, i as int);
            }
            return Some(i);
        }
        if i == n {
            proof {
                lemma_find(s@, p@, i as int);
            }
            return None;
        }
        i = i + 1;
    }
    proof {
        lemma_find(s@, p@, n as int);
    }
    None
}

/// The characters `s[from..to]`.
pub fn slice_chars(s: &Vec<char>, from: usize, to: usize) -> (r: Vec<char>)
    requires
        from <= to <= s.len(),
    ensures
        r@ == s@.subrange(from as int, to as int),
{
    let mut r: Vec<char> = Vec::new();
    let mut i = from;
    while i < to
        invariant
            from <= i <= to <= s@.len(),
            r@ == s@.subrange(from as int, i as int),
        decreases to - i,
    {
        r.push(s[i]);
        assert(s@.subrange(from as int, i + 1) =~= s@.subrange(from as int, i as int).push(s@[i as int]));
        i = i + 1;
    }
    r
}

/// The text before and the text after the first occurrence of `p` in `s`.
pub fn split_once_chars(s: &Vec<char>, p: &Vec<char>) -> (r: Option<(Vec<char>, Vec<char>)>)
    ensures
        match r {
            Some((a, b)) => split_once(s@, p@) == Some((a@, b@)),
            None => split_once(s@, p@) is None,
        },
{
    match find_chars(s, p) {
        Some(k) => {
            proof {
                lemma_find_is_first(s@, p@);
                assert(occurs_at(s@, p@, k as int));
                assert(p@.len() <= s@.skip(k as int).len());
            }
            let a = slice_chars(s, 0, k);
            let plen = p.len();
            let sl = s.len();
            assert(k + plen <= sl);
            let b = slice_chars(s, k + plen, sl);
            assert(a@ =~= s@.take(k as int));
            assert(b@ =~= s@.skip(k + p@.len()));
            Some((a, b))
        },
        None => None,
    }
}

/// `s` with every occurrence of `from` replaced by `to`.
pub fn replace_chars(s: &Vec<char>, from: &Vec<char>, to: &Vec<char>) -> (r: Vec<char>)
    requires
        from.len() > 0,
    ensures
        r@ == replace_all(s@, from@, to@),
{
    let n = s.len();
    let mut out: Vec<char> = Vec::new();
    let mut i: usize = 0;
    assert(s@.skip(0) =~= s@);
    while i < n
        invariant
            n == s@.len(),
            from@.len() > 0,
            i <= n,
            out@ + replace_all(s@.skip(i as int), from@, to@) == replace_all(s@, from@, to@),
        decreases n - i,
    {
        let ghost rest = s@.skip(i as int);
        if matches_at(s, i, from) {
            crate::text::push_chars(&mut out, to);
            assert(rest.skip(from@.len() as int) =~= s@.skip(i + from@.len()));
            assert(out@ + replace_all(s@.skip(i + from@.len()), from@, to@) =~= replace_all(s@, from@, to@));
            i = i + from.len();
        } else {
            out.push(s[i]);
            assert(rest.drop_first() =~= s@.skip(i + 1));
            assert(out@ + replace_all(s@.skip(i + 1), from@, to@) =~= replace_all(s@, from@, to@));
            i = i + 1;
        }
    }
    assert(s@.skip(n as int) =~= Seq::<char>::empty());
    assert(out@ =~= replace_all(s@, from@, to@));
    out
}

/// `s` with every leading occurrence of `p` removed.
pub fn trim_start_chars(s: &Vec<char>, p: &Vec<char>) -> (r: Vec<char>)
    requires
        p.len() > 0,
    ensures
        r@ == trim_start_pat(s@, p@),
{
    let n = s.len();
    let mut i: usize = 0;
    assert(s@.skip(0) =~= s@);
    while i < n && matches_at(s, i, p)
        invariant
            n == s@.len(),
            p@.len() > 0,
            i <= n,
            trim_start_pat(s@.skip(i as int), p@) == trim_start_pat(s@, p@),
        decreases n - i,
    {
        assert(s@.skip(i as int).skip(p@.len() as int) =~= s@.skip(i + p@.len()));
        i = i + p.len();
    }
    if i == n {
        assert(s@.skip(i as int) =~= Seq::<char>::empty());
        assert(!p@.is_prefix_of(s@.skip(i as int)));
    }
    let r = slice_chars(s, i, n);
    assert(r@ =~= s@.skip(i as int));
    r
}

/// `s` with every trailing occurrence of `p` removed.
pub fn trim_end_chars(s: &Vec<char>, p: &Vec<char>) -> (r: Vec<char>)
    requires
        p.len() > 0,
    ensures
        r@ == trim_end_pat(s@, p@),
{
    let mut j: usize = s.len();
    let plen = p.len();
    assert(s@.take(j as int) =~= s@);
    while j >= plen && matches_at(s, j - plen, p)
        invariant
            j <= s@.len(),
            plen == p@.len() > 0,
            trim_end_pat(s@.take(j as int), p@) == trim_end_pat(s@, p@),
        decreases j,
    {
        let ghost t = s@.take(j as int);
        assert(s@.skip(j - plen).take(plen as int) =~= t.subrange(j - plen, j as int));
        assert(p@.is_suffix_of(t));
        assert(t.take(t.len() - p@.len()) =~= s@.take(j - plen));
        j = j - plen;
    }
    let ghost t = s@.take(j as int);
    if j >= plen {
        assert(s@.skip(j - plen).take(plen as int) =~= t.subrange(j - plen, j as int));
        assert(!p@.is_suffix_of(t));
    }
    let r = slice_chars(s, 0, j);
    assert(r@ =~= t);
    r
}

/// Whether `c` is white space.
pub fn is_whitespace(c: char) -> (r: bool)
    ensures
        r == is_ws(c),
{
    let u = c as u32;
    (9 <= u && u <= 13) || u == 32 || u == 0x85 || u == 0xa0 || u == 0x1680 || (0x2000 <= u && u <= 0x200a)
        || u == 0x2028 || u == 0x2029 || u == 0x202f || u == 0x205f || u == 0x3000
}

/// `s` without its leading and trailing white space.
pub fn trim_chars(s: &Vec<char>) -> (r: Vec<char>)
    ensures
        r@ == trim_ws(s@),
{
    let n = s.len();
    let mut i: usize = 0;
    assert(s@.skip(0) =~= s@);
    while i < n && is_whitespace(s[i])
        invariant
            n == s@.len(),
            i <= n,
            trim_start_ws(s@.skip(i as int)) == trim_start_ws(s@),
        decreases n - i,
    {
        assert(s@.skip(i as int).drop_first() =~= s@.skip(i + 1));
        i = i + 1;
    }
    let ghost a = s@.skip(i as int);
    assert(trim_start_ws(a) == a);
    let mut j: usize = n;
    assert(a.take((j - i) as int) =~= a);
    while j > i && is_whitespace(s[j - 1])
        invariant
            n == s@.len(),
            i <= j <= n,
            a == s@.skip(i as int),
            trim_end_ws(a.take(j - i)) == trim_end_ws(a),
        decreases j,
    {
        assert(a.take(j - i).drop_last() =~= a.take(j - 1 - i));
        j = j - 1;
    }
    let r = slice_chars(s, i, j);
    assert(r@ =~= a.take(j - i));
    r
}

} // verus!

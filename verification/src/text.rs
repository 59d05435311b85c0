//! Character-level string operations: whitespace, trimming, splitting into
//! words, searching and replacing, all over the characters of a string.
use vstd::prelude::*;

verus! {

/// The characters with the Unicode property `White_Space`: U+0009 to U+000D,
/// U+0020, U+0085, U+00A0, U+1680, U+2000 to U+200A, U+2028, U+2029, U+202F,
/// U+205F and U+3000.
pub open spec fn is_white_space(c: char) -> bool {
    let n: u32 = c as u32;
    ||| 0x9 <= n <= 0xd
    ||| n == 0x20
    ||| n == 0x85
    ||| n == 0xa0
    ||| n == 0x1680
    ||| 0x2000 <= n <= 0x200a
    ||| n == 0x2028
    ||| n == 0x2029
    ||| n == 0x202f
    ||| n == 0x205f
    ||| n == 0x3000
}

/// Whether `c` is white space (the Unicode property `White_Space`), as
/// `char::is_whitespace` tells it.
pub fn char_is_whitespace(c: char) -> (r: bool)
    ensures
        r == is_white_space(c),
{
    let n: u32 = c as u32;
    (0x9 <= n && n <= 0xd) || n == 0x20 || n == 0x85 || n == 0xa0 || n == 0x1680 || (0x2000 <= n
        && n <= 0x200a) || n == 0x2028 || n == 0x2029 || n == 0x202f || n == 0x205f || n == 0x3000
}

/// `String::push`. Claimed: `c` is appended.
#[verifier::external_body]
pub(crate) fn push_char(s: &mut String, c: char)
    ensures
        final(s)@ == old(s)@.push(c),
{
    s.push(c);
}

/// What `str::to_lowercase` returns for `s` (Unicode lowercase mapping).
pub uninterp spec fn lowercase(s: Seq<char>) -> Seq<char>;

/// `str::to_lowercase`. Claimed: the result is the named lowercase of `s`.
#[verifier::external_body]
pub(crate) fn to_lowercase(s: &str) -> (r: String)
    ensures
        r@ == lowercase(s@),
{
    s.to_lowercase()
}

/// The characters of `s`, in order.
pub fn chars_of(s: &str) -> (v: Vec<char>)
    ensures
        v@ == s@,
{
    let mut v: Vec<char> = Vec::new();
    for c in it: s.chars()
        invariant
            v@ == it.seq().take(it.index() as int),
            it.seq() == s@,
    {
        v.push(c);
    }
    v
}

/// The string made of `v[lo..hi]`.
pub fn string_of_range(v: &Vec<char>, lo: usize, hi: usize) -> (s: String)
    requires
        lo <= hi <= v.len(),
    ensures
        s@ == v@.subrange(lo as int, hi as int),
{
    let mut s = String::new();
    let mut i: usize = lo;
    while i < hi
        invariant
            lo <= i <= hi <= v.len(),
            s@ == v@.subrange(lo as int, i as int),
        decreases hi - i,
    {
        push_char(&mut s, v[i]);
        assert(v@.subrange(lo as int, i + 1) =~= v@.subrange(lo as int, i as int).push(v@[i as int]));
        i = i + 1;
    }
    s
}

/// The string made of all of `v`.
pub fn string_of(v: &Vec<char>) -> (s: String)
    ensures
        s@ == v@,
{
    let s = string_of_range(v, 0, v.len());
    assert(v@.subrange(0, v@.len() as int) =~= v@);
    s
}

/// `s` without its leading white space.
pub open spec fn trim_start(s: Seq<char>) -> Seq<char>
    decreases s.len(),
{
    if s.len() > 0 && is_white_space(s[0]) {
        trim_start(s.drop_first())
    } else {
        s
    }
}

/// `s` without its trailing white space.
pub open spec fn trim_end(s: Seq<char>) -> Seq<char>
    decreases s.len(),
{
    if s.len() > 0 && is_white_space(s.last()) {
        trim_end(s.drop_last())
    } else {
        s
    }
}

/// `s` without leading and trailing white space, as `str::trim` gives it.
pub open spec fn trim(s: Seq<char>) -> Seq<char> {
    trim_end(trim_start(s))
}

/// Removes leading and trailing white space.
pub fn trim_str(s: &str) -> (r: String)
    ensures
        r@ == trim(s@),
{
    let v = chars_of(s);
    let n: usize = v.len();
    let mut lo: usize = 0;
    assert(v@.skip(0) =~= v@);
    while lo < n && char_is_whitespace(v[lo])
        invariant
            lo <= n == v@.len(),
            v@ == s@,
            trim_start(s@) == trim_start(v@.skip(lo as int)),
        decreases n - lo,
    {
        assert(v@.skip(lo as int).drop_first() =~= v@.skip(lo + 1));
        lo = lo + 1;
    }
    let ghost rest = v@.skip(lo as int);
    assert(trim_start(s@) == rest) by {
        if lo == n {
            assert(rest.len() == 0);
        } else {
            assert(rest[0] == v@[lo as int]);
        }
    }
    let mut hi: usize = n;
    assert(v@.subrange(lo as int, n as int) =~= rest);
    while hi > lo && char_is_whitespace(v[hi - 1])
        invariant
            lo <= hi <= n == v@.len(),
            v@ == s@,
            rest == v@.skip(lo as int),
            trim_end(rest) == trim_end(v@.subrange(lo as int, hi as int)),
        decreases hi - lo,
    {
        assert(v@.subrange(lo as int, hi as int).drop_last() =~= v@.subrange(lo as int, hi - 1));
        hi = hi - 1;
    }
    assert(trim_end(rest) == v@.subrange(lo as int, hi as int)) by {
        if hi > lo {
            assert(v@.subrange(lo as int, hi as int).last() == v@[hi - 1]);
        }
    }
    string_of_range(&v, lo, hi)
}

/// The maximal runs of characters that are not white space, in order: what
/// `str::split_whitespace` yields.
pub open spec fn words(s: Seq<char>) -> Seq<Seq<char>>
    decreases s.len(),
{
    if s.len() == 0 {
        Seq::empty()
    } else {
        let prev = words(s.drop_last());
        let c = s.last();
        if is_white_space(c) {
            prev
        } else if s.len() >= 2 && !is_white_space(s[s.len() - 2]) {
            prev.drop_last().push(prev.last().push(c))
        } else {
            prev.push(seq![c])
        }
    }
}

/// The views of a sequence of strings.
pub open spec fn views(v: Seq<String>) -> Seq<Seq<char>> {
    v.map_values(|w: String| w@)
}

/// Splits `s` into its words, separated by any amount of white space.
pub fn split_whitespace(s: &str) -> (r: Vec<String>)
    ensures
        views(r@) == words(s@),
{
    let v = chars_of(s);
    let n: usize = v.len();
    let mut out: Vec<String> = Vec::new();
    let mut cur: Vec<char> = Vec::new();
    for i in 0..n
        invariant
            n == v@.len(),
            v@ == s@,
            views(out@) + (if cur@.len() > 0 {
                seq![cur@]
            } else {
                Seq::<Seq<char>>::empty()
            }) == words(v@.take(i as int)),
            i > 0 ==> (cur@.len() > 0 <==> !is_white_space(v@[i - 1])),
            i == 0 ==> cur@.len() == 0,
    {
        let c = v[i];
        let ghost prev = words(v@.take(i as int));
        let ghost t = v@.take(i + 1);
        assert(t.drop_last() =~= v@.take(i as int));
        assert(t.last() == c);
        if char_is_whitespace(c) {
            assert(words(t) == prev);
            if cur.len() > 0 {
                let w = string_of(&cur);
                let ghost before_out = out@;
                out.push(w);
                assert(views(out@) =~= views(before_out).push(w@));
                cur = Vec::new();
                assert(views(out@) + Seq::<Seq<char>>::empty() =~= prev);
            } else {
                assert(views(out@) + Seq::<Seq<char>>::empty() =~= prev);
            }
        } else {
            if cur.len() > 0 {
                assert(t[i - 1] == v@[i - 1]);
                let ghost before = cur@;
                cur.push(c);
                assert(prev.drop_last() =~= views(out@));
                assert(prev.last() == before);
                assert(words(t) == prev.drop_last().push(prev.last().push(c)));
                assert(views(out@) + seq![cur@] =~= words(t));
            } else {
                if i > 0 {
                    assert(t[i - 1] == v@[i - 1]);
                }
                cur.push(c);
                assert(cur@ =~= seq![c]);
                assert(prev =~= views(out@));
                assert(words(t) == prev.push(seq![c]));
                assert(views(out@) + seq![cur@] =~= words(t));
            }
        }
    }
    assert(v@.take(n as int) =~= v@);
    if cur.len() > 0 {
        let w = string_of(&cur);
        let ghost before_out = out@;
        out.push(w);
        assert(views(out@) =~= views(before_out).push(w@));
    }
    assert(views(out@) =~= words(s@));
    out
}

/// `trim_start` keeps a suffix of `s` that does not begin with white space.
proof fn lemma_trim_start(s: Seq<char>)
    ensures
        trim_start(s).len() <= s.len(),
        trim_start(s) == s.skip(s.len() - trim_start(s).len()),
        trim_start(s).len() > 0 ==> !is_white_space(trim_start(s)[0]),
    decreases s.len(),
{
    if s.len() > 0 && is_white_space(s[0]) {
        lemma_trim_start(s.drop_first());
        assert(s.drop_first().skip(s.drop_first().len() - trim_start(s.drop_first()).len())
            =~= s.skip(s.len() - trim_start(s).len()));
    } else {
        assert(s.skip(0) =~= s);
    }
}

/// `trim_end` keeps a prefix of `s` that does not end with white space.
proof fn lemma_trim_end(s: Seq<char>)
    ensures
        trim_end(s).len() <= s.len(),
        trim_end(s) == s.take(trim_end(s).len() as int),
        trim_end(s).len() > 0 ==> !is_white_space(trim_end(s).last()),
    decreases s.len(),
{
    if s.len() > 0 && is_white_space(s.last()) {
        lemma_trim_end(s.drop_last());
        assert(s.drop_last().take(trim_end(s.drop_last()).len() as int)
            =~= s.take(trim_end(s).len() as int));
    } else {
        assert(s.take(s.len() as int) =~= s);
    }
}

/// A trimmed string neither begins nor ends with white space, is a piece of
/// the given string, and trimming it again changes nothing.
pub proof fn lemma_trim(s: Seq<char>)
    ensures
        trim(s).len() > 0 ==> !is_white_space(trim(s)[0]) && !is_white_space(trim(s).last()),
        exists|i: int| 0 <= i <= s.len() - trim(s).len() && trim(s) == #[trigger] s.subrange(i, i + trim(s).len()),
        trim(trim(s)) == trim(s),
{
    let a = trim_start(s);
    let b = trim_end(a);
    lemma_trim_start(s);
    lemma_trim_end(a);
    if b.len() > 0 {
        assert(b[0] == a[0]);
    }
    let i: int = s.len() - a.len();
    assert(b =~= s.subrange(i, i + b.len()));
    assert(trim_start(b) == b);
    assert(trim_end(b) == b);
}

/// Every word is non-empty and holds no white space.
pub proof fn lemma_words_hold_no_white_space(s: Seq<char>)
    ensures
        forall|i: int| 0 <= i < words(s).len() ==> #[trigger] words(s)[i].len() > 0,
        forall|i: int, j: int|
            0 <= i < words(s).len() && 0 <= j < words(s)[i].len() ==> !is_white_space(#[trigger] words(s)[i][j]),
        s.len() > 0 && !is_white_space(s.last()) ==> words(s).len() > 0 && words(s).last().last() == s.last(),
    decreases s.len(),
{
    if s.len() > 0 {
        let prev = words(s.drop_last());
        lemma_words_hold_no_white_space(s.drop_last());
        let c = s.last();
        if !is_white_space(c) && s.len() >= 2 && !is_white_space(s[s.len() - 2]) {
            assert(s.drop_last().last() == s[s.len() - 2]);
            let w = prev.last().push(c);
            let r = prev.drop_last().push(w);
            assert(prev.len() > 0);
            assert forall|i: int, j: int| 0 <= i < r.len() && 0 <= j < r[i].len() implies !is_white_space(#[trigger] r[i][j]) by {
                if i < r.len() - 1 {
                    assert(r[i] == prev[i]);
                } else if j < w.len() - 1 {
                    assert(r[i][j] == prev[prev.len() - 1][j]);
                }
            }
            assert forall|i: int| 0 <= i < r.len() implies #[trigger] r[i].len() > 0 by {
                if i < r.len() - 1 {
                    assert(r[i] == prev[i]);
                }
            }
        } else if !is_white_space(c) {
            let r = prev.push(seq![c]);
            assert forall|i: int, j: int| 0 <= i < r.len() && 0 <= j < r[i].len() implies !is_white_space(#[trigger] r[i][j]) by {
                if i < r.len() - 1 {
                    assert(r[i] == prev[i]);
                }
            }
            assert forall|i: int| 0 <= i < r.len() implies #[trigger] r[i].len() > 0 by {
                if i < r.len() - 1 {
                    assert(r[i] == prev[i]);
                }
            }
        }
    }
}

/// A non-empty string without white space is a single word.
pub proof fn lemma_single_word(s: Seq<char>)
    requires
        s.len() > 0,
        forall|i: int| 0 <= i < s.len() ==> !is_white_space(#[trigger] s[i]),
    ensures
        words(s) == seq![s],
    decreases s.len(),
{
    assert(!is_white_space(s[s.len() - 1]));
    if s.len() == 1 {
        assert(s.drop_last().len() == 0);
        assert(words(s.drop_last()) == Seq::<Seq<char>>::empty());
        assert(s =~= seq![s.last()]);
        assert(words(s) =~= seq![s]);
    } else {
        let t = s.drop_last();
        assert forall|i: int| 0 <= i < t.len() implies !is_white_space(#[trigger] t[i]) by {
            assert(t[i] == s[i]);
        }
        lemma_single_word(t);
        assert(s[s.len() - 1] == s.last());
        assert(!is_white_space(s[s.len() - 2]));
        assert(t.push(s.last()) =~= s);
        assert(seq![t].drop_last() =~= Seq::<Seq<char>>::empty());
        assert(words(s) =~= seq![s]);
    }
}

/// `p` occurs in `s` starting at index `i`.
pub open spec fn occurs_at(s: Seq<char>, p: Seq<char>, i: int) -> bool {
    0 <= i && i + p.len() <= s.len() && s.subrange(i, i + p.len()) == p
}

/// `p` occurs somewhere in `s`.
pub open spec fn contains_seq(s: Seq<char>, p: Seq<char>) -> bool {
    exists|i: int| occurs_at(s, p, i)
}

/// Whether `p` occurs in `v` at index `i`.
fn matches_at(v: &Vec<char>, p: &Vec<char>, i: usize) -> (r: bool)
    ensures
        r == occurs_at(v@, p@, i as int),
{
    if i > v.len() || p.len() > v.len() - i {
        return false;
    }
    let mut j: usize = 0;
    while j < p.len()
        invariant
            i + p.len() <= v.len(),
            j <= p.len(),
            forall|k: int| 0 <= k < j ==> v@[i + k] == p@[k],
        decreases p.len() - j,
    {
        if v[i + j] != p[j] {
            assert(v@.subrange(i as int, i + p.len())[j as int] != p@[j as int]);
            return false;
        }
        j = j + 1;
    }
    assert(v@.subrange(i as int, i + p.len()) =~= p@);
    true
}

/// Whether `p` occurs in `s`, as `str::contains` with a string pattern.
pub fn contains_str(s: &str, p: &str) -> (r: bool)
    ensures
        r == contains_seq(s@, p@),
{
    let v = chars_of(s);
    let pv = chars_of(p);
    if pv.len() > v.len() {
        return false;
    }
    let last: usize = v.len() - pv.len();
    let mut i: usize = 0;
    loop
        invariant
            v@ == s@,
            pv@ == p@,
            last == v@.len() - pv@.len(),
            i <= last,
            forall|k: int| 0 <= k < i ==> !occurs_at(s@, p@, k),
        decreases last - i,
    {
        if matches_at(&v, &pv, i) {
            return true;
        }
        if i == last {
            return false;
        }
        i = i + 1;
    }
}

/// Whether the character `c` occurs in `s`, as `str::contains` with a `char`.
pub fn contains_char(s: &str, c: char) -> (r: bool)
    ensures
        r == s@.contains(c),
{
    let v = chars_of(s);
    let mut i: usize = 0;
    while i < v.len()
        invariant
            v@ == s@,
            i <= v.len(),
            forall|k: int| 0 <= k < i ==> v@[k] != c,
        decreases v.len() - i,
    {
        if v[i] == c {
            return true;
        }
        i = i + 1;
    }
    false
}

/// `s` with every occurrence of `p` replaced by `r`, the occurrences taken
/// from the left without overlap, as `str::replace` does it. An empty `p`
/// leaves `s` as it is (the library never replaces an empty pattern).
pub open spec fn replace_all(s: Seq<char>, p: Seq<char>, r: Seq<char>) -> Seq<char>
    decreases s.len(),
{
    if s.len() == 0 || p.len() == 0 {
        s
    } else if p.len() <= s.len() && s.take(p.len() as int) == p {
        r + replace_all(s.skip(p.len() as int), p, r)
    } else {
        seq![s[0]] + replace_all(s.drop_first(), p, r)
    }
}

/// Replaces every occurrence of `from` in `s` by `to`, from the left and
/// without overlap.
pub fn replace_str(s: &str, from: &str, to: &str) -> (r: String)
    requires
        from@.len() > 0,
    ensures
        r@ == replace_all(s@, from@, to@),
{
    let v = chars_of(s);
    let pv = chars_of(from);
    let mut out = String::new();
    let mut i: usize = 0;
    assert(v@.skip(0) =~= v@);
    while i < v.len()
        invariant
            v@ == s@,
            pv@ == from@,
            pv@.len() > 0,
            i <= v.len(),
            replace_all(s@, from@, to@) == out@ + replace_all(v@.skip(i as int), from@, to@),
        decreases v.len() - i,
    {
        let ghost rest = v@.skip(i as int);
        if matches_at(&v, &pv, i) {
            assert(rest.take(pv@.len() as int) =~= v@.subrange(i as int, i + pv@.len()));
            assert(rest.skip(pv@.len() as int) =~= v@.skip(i + pv@.len()));
            out.append(to);
            i = i + pv.len();
        } else {
            assert(rest.len() >= pv@.len() ==> rest.take(pv@.len() as int) =~= v@.subrange(i as int, i + pv@.len()));
            assert(rest.drop_first() =~= v@.skip(i + 1));
            assert(rest[0] == v@[i as int]);
            push_char(&mut out, v[i]);
            i = i + 1;
        }
    }
    assert(v@.skip(i as int).len() == 0);
    assert(out@ + Seq::<char>::empty() =~= out@);
    out
}

/// Replacing a pattern that does not occur changes nothing.
pub proof fn lemma_replace_all_absent(s: Seq<char>, p: Seq<char>, r: Seq<char>)
    requires
        !contains_seq(s, p),
    ensures
        replace_all(s, p, r) == s,
    decreases s.len(),
{
    if s.len() > 0 && p.len() > 0 {
        if p.len() <= s.len() && s.take(p.len() as int) == p {
            assert(s.subrange(0, p.len() as int) =~= s.take(p.len() as int));
            assert(occurs_at(s, p, 0));
        } else {
            let t = s.drop_first();
            assert(!contains_seq(t, p)) by {
                if contains_seq(t, p) {
                    let k: int = choose|k: int| occurs_at(t, p, k);
                    assert(s.subrange(k + 1, k + 1 + p.len()) =~= t.subrange(k, k + p.len()));
                    assert(occurs_at(s, p, k + 1));
                }
            }
            lemma_replace_all_absent(t, p, r);
            assert(seq![s[0]] + t =~= s);
        }
    }
}

} // verus!

//! Character-level text utilities with their mathematical meaning.
use vstd::prelude::*;
use vstd::string::*;

verus! {

/// The characters of `s`, in order.
pub fn chars_of(s: &str) -> (v: Vec<char>)
    ensures
        v@ == s@,
{
    let mut v: Vec<char> = Vec::new();
    for c in it: s.chars()
        invariant
            v@ == it.seq().take(it.index()),
    {
        v.push(c);
    }
    v
}

/// The Unicode `White_Space` property, as `char::is_whitespace` tests it.
pub open spec fn is_white_space(c: char) -> bool {
    let u = c as u32;
    ||| 0x9 <= u <= 0xD
    ||| u == 0x20
    ||| u == 0x85
    ||| u == 0xA0
    ||| u == 0x1680
    ||| 0x2000 <= u <= 0x200A
    ||| u == 0x2028
    ||| u == 0x2029
    ||| u == 0x202F
    ||| u == 0x205F
    ||| u == 0x3000
}

/// Tests whether `c` is white space.
pub fn white_space(c: char) -> (b: bool)
    ensures
        b == is_white_space(c),
{
    let u = c as u32;
    (0x9 <= u && u <= 0xD) || u == 0x20 || u == 0x85 || u == 0xA0 || u == 0x1680 || (0x2000 <= u
        && u <= 0x200A) || u == 0x2028 || u == 0x2029 || u == 0x202F || u == 0x205F || u == 0x3000
}

/// Number of white-space characters at the start of `s`.
pub open spec fn leading_ws_len(s: Seq<char>) -> nat
    decreases s.len(),
{
    if s.len() > 0 && is_white_space(s[0]) {
        1 + leading_ws_len(s.drop_first())
    } else {
        0
    }
}

/// Number of white-space characters at the end of `s`.
pub open spec fn trailing_ws_len(s: Seq<char>) -> nat
    decreases s.len(),
{
    if s.len() > 0 && is_white_space(s.last()) {
        1 + trailing_ws_len(s.drop_last())
    } else {
        0
    }
}

/// The white space at the start of `s`.
pub open spec fn indentation(s: Seq<char>) -> Seq<char> {
    s.take(leading_ws_len(s) as int)
}

/// `s` without its leading and trailing white space, as `str::trim` gives it.
pub open spec fn trimmed(s: Seq<char>) -> Seq<char> {
    let t = s.skip(leading_ws_len(s) as int);
    t.take(t.len() - trailing_ws_len(t))
}

/// `s` begins with `p`.
pub open spec fn has_prefix(s: Seq<char>, p: Seq<char>) -> bool {
    p.len() <= s.len() && s.take(p.len() as int) == p
}

/// `s` ends with `p`.
pub open spec fn has_suffix(s: Seq<char>, p: Seq<char>) -> bool {
    p.len() <= s.len() && s.skip(s.len() - p.len()) == p
}

/// Among ASCII characters exactly tab, line feed, vertical tab, form feed,
/// carriage return and space are white space; every white-space character is
/// at most U+3000.
pub proof fn law_ascii_white_space(c: char)
    ensures
        (c as u32) < 128 ==> (is_white_space(c) <==> (c == '\t' || c == '\n' || c == '\x0B' || c
            == '\x0C' || c == '\r' || c == ' ')),
        is_white_space(c) ==> (c as u32) <= 0x3000,
{
}

proof fn lemma_leading_ws(s: Seq<char>)
    ensures
        leading_ws_len(s) <= s.len(),
        forall|j: int| 0 <= j < leading_ws_len(s) ==> is_white_space(#[trigger] s[j]),
        leading_ws_len(s) < s.len() ==> !is_white_space(s[leading_ws_len(s) as int]),
    decreases s.len(),
{
    if s.len() > 0 && is_white_space(s[0]) {
        let r = s.drop_first();
        lemma_leading_ws(r);
        assert forall|j: int| 0 <= j < leading_ws_len(s) implies is_white_space(#[trigger] s[j]) by {
            if j > 0 {
                assert(s[j] == r[j - 1]);
            }
        }
        if leading_ws_len(s) < s.len() {
            assert(s[leading_ws_len(s) as int] == r[leading_ws_len(r) as int]);
        }
    }
}

proof fn lemma_trailing_ws(s: Seq<char>)
    ensures
        trailing_ws_len(s) <= s.len(),
        forall|j: int| s.len() - trailing_ws_len(s) <= j < s.len() ==> is_white_space(#[trigger] s[j]),
        trailing_ws_len(s) < s.len() ==> !is_white_space(s[s.len() - trailing_ws_len(s) - 1]),
    decreases s.len(),
{
    if s.len() > 0 && is_white_space(s.last()) {
        let r = s.drop_last();
        lemma_trailing_ws(r);
        assert forall|j: int| s.len() - trailing_ws_len(s) <= j < s.len() implies is_white_space(
            #[trigger] s[j],
        ) by {
            if j < s.len() - 1 {
                assert(s[j] == r[j]);
            }
        }
        if trailing_ws_len(s) < s.len() {
            assert(s[s.len() - trailing_ws_len(s) - 1] == r[r.len() - trailing_ws_len(r) - 1]);
        }
    }
}

/// A text is its indentation, then its trimmed text, then trailing white
/// space: the indentation and the tail are all white space, and the trimmed
/// text, when not empty, starts and ends with a character that is not white
/// space; an all-white-space text trims to nothing.
pub proof fn law_trim_splits_text(s: Seq<char>)
    ensures
        s == indentation(s) + trimmed(s) + s.skip((indentation(s).len() + trimmed(s).len()) as int),
        forall|k: int| 0 <= k < indentation(s).len() ==> is_white_space(#[trigger] indentation(s)[k]),
        forall|k: int|
            indentation(s).len() + trimmed(s).len() <= k < s.len() ==> is_white_space(#[trigger] s[k]),
        trimmed(s).len() > 0 ==> !is_white_space(trimmed(s)[0]) && !is_white_space(
            trimmed(s).last(),
        ),
        trimmed(s).len() == 0 ==> forall|k: int| 0 <= k < s.len() ==> is_white_space(#[trigger] s[k]),
{
    let k = leading_ws_len(s) as int;
    lemma_leading_ws(s);
    let t = s.skip(k);
    lemma_trailing_ws(t);
    let m = trailing_ws_len(t) as int;
    let tr = trimmed(s);
    assert(tr == t.take(t.len() - m));
    assert(indentation(s).len() == k);
    assert(tr.len() == t.len() - m);
    assert(s =~= indentation(s) + tr + s.skip(k + tr.len()));
    assert forall|j: int| 0 <= j < indentation(s).len() implies is_white_space(
        #[trigger] indentation(s)[j],
    ) by {
        assert(indentation(s)[j] == s[j]);
    }
    assert forall|j: int| k + tr.len() <= j < s.len() implies is_white_space(#[trigger] s[j]) by {
        assert(s[j] == t[j - k]);
    }
    if tr.len() > 0 {
        assert(tr[0] == s[k]);
        assert(tr.last() == t[t.len() - m - 1]);
    } else {
        assert forall|j: int| 0 <= j < s.len() implies is_white_space(#[trigger] s[j]) by {
            if j >= k {
                assert(s[j] == t[j - k]);
            }
        }
    }
}

/// `s` begins with `p` exactly when it is `p` followed by the rest of `s`;
/// likewise for ends.
pub proof fn law_prefix_and_suffix_meaning(s: Seq<char>, p: Seq<char>, q: Seq<char>)
    ensures
        has_prefix(p + q, p),
        has_suffix(q + p, p),
        has_prefix(s, p) ==> s == p + s.skip(p.len() as int),
        has_suffix(s, p) ==> s == s.take(s.len() - p.len()) + p,
{
    assert((p + q).take(p.len() as int) =~= p);
    assert((q + p).skip(q.len() as int) =~= p);
    if has_prefix(s, p) {
        assert(s =~= s.take(p.len() as int) + s.skip(p.len() as int));
    }
    if has_suffix(s, p) {
        assert(s =~= s.take(s.len() - p.len()) + s.skip(s.len() - p.len()));
    }
}

/// Index just past the white space that starts `v[lo..hi]`.
pub fn skip_leading_ws(v: &Vec<char>, lo: usize, hi: usize) -> (a: usize)
    requires
        lo <= hi <= v@.len(),
    ensures
        lo <= a <= hi,
        a - lo == leading_ws_len(v@.subrange(lo as int, hi as int)),
{
    let mut a = lo;
    while a < hi && white_space(v[a])
        invariant
            lo <= a <= hi <= v@.len(),
            leading_ws_len(v@.subrange(lo as int, hi as int)) == (a - lo) + leading_ws_len(
                v@.subrange(a as int, hi as int),
            ),
        decreases hi - a,
    {
        assert(v@.subrange(a as int, hi as int).drop_first() =~= v@.subrange(a + 1, hi as int));
        a = a + 1;
    }
    a
}

/// Index where the white space that ends `v[lo..hi]` begins.
pub fn skip_trailing_ws(v: &Vec<char>, lo: usize, hi: usize) -> (b: usize)
    requires
        lo <= hi <= v@.len(),
    ensures
        lo <= b <= hi,
        hi - b == trailing_ws_len(v@.subrange(lo as int, hi as int)),
{
    let mut b = hi;
    while b > lo && white_space(v[b - 1])
        invariant
            lo <= b <= hi <= v@.len(),
            trailing_ws_len(v@.subrange(lo as int, hi as int)) == (hi - b) + trailing_ws_len(
                v@.subrange(lo as int, b as int),
            ),
        decreases b - lo,
    {
        assert(v@.subrange(lo as int, b as int).drop_last() =~= v@.subrange(lo as int, b - 1));
        b = b - 1;
    }
    b
}

/// Whether `v[lo..hi]` begins with `p`.
pub fn range_has_prefix(v: &Vec<char>, lo: usize, hi: usize, p: &Vec<char>) -> (b: bool)
    requires
        lo <= hi <= v@.len(),
    ensures
        b == has_prefix(v@.subrange(lo as int, hi as int), p@),
{
    let ghost s = v@.subrange(lo as int, hi as int);
    if p.len() > hi - lo {
        return false;
    }
    let mut i: usize = 0;
    while i < p.len()
        invariant
            i <= p@.len() <= hi - lo,
            lo <= hi <= v@.len(),
            s == v@.subrange(lo as int, hi as int),
            forall|k: int| 0 <= k < i ==> s[k] == p@[k],
        decreases p@.len() - i,
    {
        if v[lo + i] != p[i] {
            assert(s.take(p@.len() as int)[i as int] != p@[i as int]);
            return false;
        }
        i = i + 1;
    }
    assert(s.take(p@.len() as int) =~= p@);
    true
}

/// Whether `v[lo..hi]` ends with `p`.
pub fn range_has_suffix(v: &Vec<char>, lo: usize, hi: usize, p: &Vec<char>) -> (b: bool)
    requires
        lo <= hi <= v@.len(),
    ensures
        b == has_suffix(v@.subrange(lo as int, hi as int), p@),
{
    if p.len() > hi - lo {
        return false;
    }
    let start = hi - p.len();
    let r = range_has_prefix(v, start, hi, p);
    proof {
        let s = v@.subrange(lo as int, hi as int);
        assert(s.skip(s.len() - p@.len()) =~= v@.subrange(start as int, hi as int));
        assert(v@.subrange(start as int, hi as int).take(p@.len() as int) =~= v@.subrange(
            start as int,
            hi as int,
        ));
    }
    r
}

/// Whether `a` and `b` hold the same characters.
pub fn same_text(a: &str, b: &str) -> (r: bool)
    ensures
        r == (a@ == b@),
{
    let x = chars_of(a);
    let y = chars_of(b);
    if x.len() != y.len() {
        return false;
    }
    let mut i: usize = 0;
    while i < x.len()
        invariant
            x@ == a@,
            y@ == b@,
            x@.len() == y@.len(),
            i <= x@.len(),
            forall|k: int| 0 <= k < i ==> x@[k] == y@[k],
        decreases x@.len() - i,
    {
        if x[i] != y[i] {
            assert(x@[i as int] != y@[i as int]);
            return false;
        }
        i = i + 1;
    }
    assert(x@ =~= y@);
    true
}

/// `s` with every occurrence of `pat` replaced by `rep`, taking occurrences
/// from left to right without overlap, as `str::replace` does for a
/// non-empty `pat`.
pub open spec fn replace_all(s: Seq<char>, pat: Seq<char>, rep: Seq<char>) -> Seq<char>
    decreases s.len(),
{
    if pat.len() == 0 || s.len() < pat.len() {
        s
    } else if s.take(pat.len() as int) == pat {
        rep + replace_all(s.skip(pat.len() as int), pat, rep)
    } else {
        seq![s[0]] + replace_all(s.drop_first(), pat, rep)
    }
}

/// An occurrence at the front is replaced, and a stretch of text in which no
/// occurrence starts is kept as it is.
pub proof fn law_replace_keeps_unmatched_text(
    x: Seq<char>,
    y: Seq<char>,
    pat: Seq<char>,
    rep: Seq<char>,
)
    requires
        pat.len() > 0,
        forall|i: int|
            0 <= i < x.len() && i + pat.len() <= x.len() + y.len() ==> #[trigger] (x + y).subrange(
                i,
                i + pat.len(),
            ) != pat,
    ensures
        replace_all(x + y, pat, rep) == x + replace_all(y, pat, rep),
        replace_all(pat + y, pat, rep) == rep + replace_all(y, pat, rep),
    decreases x.len(),
{
    assert((pat + y).take(pat.len() as int) =~= pat);
    assert((pat + y).skip(pat.len() as int) =~= y);
    if x.len() == 0 {
        assert(x + y =~= y);
    } else {
        let s = x + y;
        if s.len() < pat.len() {
            assert(y.len() < pat.len());
        } else {
            let first = s.subrange(0, 0int + pat.len());
            assert(first != pat);
            assert(first =~= s.take(pat.len() as int));
            let x1 = x.drop_first();
            assert(s.drop_first() =~= x1 + y);
            assert forall|i: int|
                0 <= i < x1.len() && i + pat.len() <= x1.len() + y.len() implies #[trigger] (x1
                + y).subrange(i, i + pat.len()) != pat by {
                assert((x1 + y).subrange(i, i + pat.len()) =~= s.subrange(i + 1, i + 1 + pat.len()));
            }
            law_replace_keeps_unmatched_text(x1, y, pat, rep);
            assert(seq![s[0]] + (x1 + replace_all(y, pat, rep)) =~= x + replace_all(y, pat, rep));
        }
    }
}

/// Replaces every occurrence of the non-empty `pat` in `s` by `rep`.
pub fn replace_text(s: &str, pat: &str, rep: &str) -> (res: String)
    requires
        pat@.len() > 0,
    ensures
        res@ == replace_all(s@, pat@, rep@),
{
    let v = chars_of(s);
    let p = chars_of(pat);
    let n = v.len();
    let plen = p.len();
    let mut out = String::new();
    let mut seg: usize = 0;
    let mut i: usize = 0;
    assert(v@.skip(0) =~= v@);
    while i < n && plen <= n - i
        invariant
            v@ == s@,
            p@ == pat@,
            n == v@.len(),
            plen == p@.len(),
            plen > 0,
            seg <= i <= n,
            out@ + v@.subrange(seg as int, i as int) + replace_all(v@.skip(i as int), p@, rep@)
                == replace_all(v@, p@, rep@),
        decreases n - i,
    {
        let ghost rest = v@.skip(i as int);
        let ghost old_out = out@;
        assert(v@.subrange(i as int, n as int) =~= rest);
        if range_has_prefix(&v, i, n, &p) {
            let piece = s.substring_char(seg, i);
            out.append(piece);
            out.append(rep);
            assert(rest.skip(plen as int) =~= v@.skip(i + plen));
            assert(out@ + v@.subrange((i + plen) as int, (i + plen) as int) =~= old_out
                + v@.subrange(seg as int, i as int) + rep@);
            i = i + plen;
            seg = i;
        } else {
            assert(rest.drop_first() =~= v@.skip(i + 1));
            assert(rest[0] == v@[i as int]);
            assert(v@.subrange(seg as int, i + 1) =~= v@.subrange(seg as int, i as int) + seq![
                v@[i as int],
            ]);
            i = i + 1;
        }
    }
    let tail = s.substring_char(seg, n);
    assert(v@.subrange(seg as int, i as int) + v@.skip(i as int) =~= v@.subrange(
        seg as int,
        n as int,
    ));
    out.append(tail);
    out
}

} // verus!

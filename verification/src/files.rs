//! Choosing the files a setup list offers: those with a given extension,
//! in the order `String`'s `Ord` gives.
use vstd::prelude::*;
use vstd::string::*;
use vstd::multiset::Multiset;
use crate::text::{chars_of, has_suffix, range_has_suffix};

verus! {

broadcast use vstd::seq_lib::group_to_multiset_ensures;

/// `a` comes strictly before `b` in lexicographic order of code points,
/// which is the order of `String` (UTF-8 byte order agrees with code point order).
pub open spec fn text_lt(a: Seq<char>, b: Seq<char>) -> bool
    decreases a.len(),
{
    if b.len() == 0 {
        false
    } else if a.len() == 0 {
        true
    } else if a[0] != b[0] {
        (a[0] as int) < (b[0] as int)
    } else {
        text_lt(a.drop_first(), b.drop_first())
    }
}

/// `a` comes no later than `b`.
pub open spec fn text_le(a: Seq<char>, b: Seq<char>) -> bool {
    !text_lt(b, a)
}

/// The texts are in ascending order.
pub open spec fn texts_sorted(s: Seq<Seq<char>>) -> bool {
    forall|i: int, j: int| 0 <= i < j < s.len() ==> text_le(#[trigger] s[i], #[trigger] s[j])
}

/// The characters of each string.
pub open spec fn string_views(s: Seq<String>) -> Seq<Seq<char>> {
    s.map_values(|x: String| x@)
}

/// The names in `names` that end with `ext`, in their order.
pub open spec fn with_suffix(names: Seq<Seq<char>>, ext: Seq<char>) -> Seq<Seq<char>>
    decreases names.len(),
{
    if names.len() == 0 {
        seq![]
    } else {
        let rest = with_suffix(names.drop_last(), ext);
        if has_suffix(names.last(), ext) {
            rest.push(names.last())
        } else {
            rest
        }
    }
}

pub proof fn lemma_text_lt_asymmetric(a: Seq<char>, b: Seq<char>)
    ensures
        text_lt(a, b) ==> !text_lt(b, a),
    decreases a.len(),
{
    if a.len() > 0 && b.len() > 0 && a[0] == b[0] {
        lemma_text_lt_asymmetric(a.drop_first(), b.drop_first());
    }
}

pub proof fn lemma_text_lt_split(a: Seq<char>, b: Seq<char>, c: Seq<char>)
    ensures
        text_lt(a, c) ==> text_lt(a, b) || text_lt(b, c),
    decreases a.len(),
{
    if a.len() > 0 && b.len() > 0 && c.len() > 0 && a[0] == b[0] && b[0] == c[0] {
        lemma_text_lt_split(a.drop_first(), b.drop_first(), c.drop_first());
    }
}

/// Texts are ordered from the front: at the first position where they differ,
/// the smaller character comes first.
pub proof fn law_text_order_first_difference(a: Seq<char>, b: Seq<char>, k: int)
    requires
        0 <= k < a.len(),
        k < b.len(),
        forall|j: int| 0 <= j < k ==> a[j] == b[j],
        a[k] != b[k],
    ensures
        text_lt(a, b) == ((a[k] as int) < (b[k] as int)),
    decreases k,
{
    if k > 0 {
        assert(a[0] == b[0]);
        let a1 = a.drop_first();
        let b1 = b.drop_first();
        assert forall|j: int| 0 <= j < k - 1 implies a1[j] == b1[j] by {
            assert(a[j + 1] == b[j + 1]);
        }
        law_text_order_first_difference(a1, b1, k - 1);
    }
}

/// A text comes before every longer text it begins, and no text comes before
/// itself.
pub proof fn law_text_order_prefix_first(a: Seq<char>, b: Seq<char>)
    ensures
        !text_lt(a, a),
        a.len() < b.len() && b.take(a.len() as int) == a ==> text_lt(a, b) && !text_lt(b, a),
    decreases a.len(),
{
    if a.len() > 0 {
        law_text_order_prefix_first(a.drop_first(), b.drop_first());
        if a.len() < b.len() && b.take(a.len() as int) == a {
            assert(b[0] == b.take(a.len() as int)[0]);
            assert(b.drop_first().take(a.drop_first().len() as int) =~= a.drop_first()) by {
                assert forall|j: int| 0 <= j < a.len() - 1 implies b.drop_first()[j]
                    == a.drop_first()[j] by {
                    assert(b.take(a.len() as int)[j + 1] == b[j + 1]);
                }
            }
        }
    }
}

/// `text_le` is a total order's "no later than".
pub proof fn lemma_text_le_transitive(a: Seq<char>, b: Seq<char>, c: Seq<char>)
    requires
        text_le(a, b),
        text_le(b, c),
    ensures
        text_le(a, c),
{
    lemma_text_lt_split(c, b, a);
}

proof fn lemma_with_suffix_members(names: Seq<Seq<char>>, ext: Seq<char>)
    ensures
        forall|i: int|
            0 <= i < with_suffix(names, ext).len() ==> has_suffix(
                #[trigger] with_suffix(names, ext)[i],
                ext,
            ),
    decreases names.len(),
{
    if names.len() > 0 {
        lemma_with_suffix_members(names.drop_last(), ext);
        let rest = with_suffix(names.drop_last(), ext);
        let w = with_suffix(names, ext);
        assert forall|i: int| 0 <= i < w.len() implies has_suffix(#[trigger] w[i], ext) by {
            if i < rest.len() {
                assert(w[i] == rest[i]);
            }
        }
    }
}

/// A name is among those kept exactly when it is one of the names and ends
/// with the extension.
pub proof fn law_with_suffix_membership(names: Seq<Seq<char>>, ext: Seq<char>, x: Seq<char>)
    ensures
        with_suffix(names, ext).contains(x) <==> names.contains(x) && has_suffix(x, ext),
    decreases names.len(),
{
    if names.len() > 0 {
        let n0 = names.drop_last();
        law_with_suffix_membership(n0, ext, x);
        let w0 = with_suffix(n0, ext);
        let w = with_suffix(names, ext);
        if names.contains(x) && has_suffix(x, ext) {
            let i = choose|i: int| 0 <= i < names.len() && names[i] == x;
            if i < names.len() - 1 {
                assert(n0[i] == x);
                let j = choose|j: int| 0 <= j < w0.len() && w0[j] == x;
                if has_suffix(names.last(), ext) {
                    assert(w[j] == x);
                }
            } else {
                assert(w[w.len() - 1] == x);
            }
        }
        if w.contains(x) {
            let j = choose|j: int| 0 <= j < w.len() && w[j] == x;
            if j < w0.len() {
                assert(w0[j] == x);
                let i = choose|i: int| 0 <= i < n0.len() && n0[i] == x;
                assert(names[i] == x);
            } else {
                assert(x == names.last());
                assert(names[names.len() - 1] == x);
            }
        }
    }
}

/// Every file offered has the extension, and as many are offered as there
/// are names with it; each of those names is offered.
pub proof fn law_selected_files_have_extension(
    selected: Seq<Seq<char>>,
    names: Seq<Seq<char>>,
    ext: Seq<char>,
)
    requires
        selected.to_multiset() == with_suffix(names, ext).to_multiset(),
    ensures
        forall|i: int| 0 <= i < selected.len() ==> has_suffix(#[trigger] selected[i], ext),
        selected.len() == with_suffix(names, ext).len(),
        forall|x: Seq<char>| with_suffix(names, ext).contains(x) ==> #[trigger] selected.contains(x),
{
    let w = with_suffix(names, ext);
    lemma_with_suffix_members(names, ext);
    assert(selected.to_multiset().len() == w.to_multiset().len());
    assert forall|i: int| 0 <= i < selected.len() implies has_suffix(#[trigger] selected[i], ext) by {
        let x = selected[i];
        assert(selected.contains(x));
        assert(w.to_multiset().count(x) > 0);
        assert(w.contains(x));
        let j = choose|j: int| 0 <= j < w.len() && w[j] == x;
        assert(has_suffix(w[j], ext));
    }
    assert forall|x: Seq<char>| w.contains(x) implies #[trigger] selected.contains(x) by {
        assert(w.to_multiset().count(x) > 0);
    }
}

/// Whether `a` comes strictly before `b`.
pub fn text_less(a: &Vec<char>, b: &Vec<char>) -> (r: bool)
    ensures
        r == text_lt(a@, b@),
{
    let mut i: usize = 0;
    assert(a@.skip(0) =~= a@);
    assert(b@.skip(0) =~= b@);
    while i < a.len() && i < b.len() && a[i] == b[i]
        invariant
            i <= a@.len(),
            i <= b@.len(),
            text_lt(a@, b@) == text_lt(a@.skip(i as int), b@.skip(i as int)),
        decreases a@.len() - i,
    {
        assert(a@.skip(i as int).drop_first() =~= a@.skip(i + 1));
        assert(b@.skip(i as int).drop_first() =~= b@.skip(i + 1));
        i = i + 1;
    }
    if i == b.len() {
        false
    } else if i == a.len() {
        true
    } else {
        assert(a@.skip(i as int)[0] == a@[i as int]);
        assert(b@.skip(i as int)[0] == b@[i as int]);
        a[i] < b[i]
    }
}

proof fn lemma_insert_multiset<A>(s: Seq<A>, pos: int, x: A)
    requires
        0 <= pos <= s.len(),
    ensures
        s.insert(pos, x).to_multiset() =~= s.to_multiset().insert(x),
{
    let t = s.insert(pos, x);
    assert(t.remove(pos) =~= s);
    assert(t[pos] == x);
    assert(t.contains(x));
    assert(t.to_multiset().count(x) > 0);
    assert forall|y: A| #[trigger] t.to_multiset().count(y) == s.to_multiset().insert(x).count(y) by {
        assert(s.to_multiset() =~= t.to_multiset().remove(x));
    }
}

/// The file names among `names` that end with `ext`, sorted in ascending
/// order.
pub fn select_files(names: Vec<String>, ext: &str) -> (res: Vec<String>)
    ensures
        texts_sorted(string_views(res@)),
        string_views(res@).to_multiset() == with_suffix(string_views(names@), ext@).to_multiset(),
{
    let e = chars_of(ext);
    let mut res: Vec<String> = Vec::new();
    let mut keys: Vec<Vec<char>> = Vec::new();
    let ghost all = string_views(names@);
    for name in it: names
        invariant
            it.seq() == names@,
            e@ == ext@,
            all == string_views(names@),
            res@.len() == keys@.len(),
            forall|k: int| 0 <= k < keys@.len() ==> #[trigger] keys@[k]@ == res@[k]@,
            texts_sorted(string_views(res@)),
            string_views(res@).to_multiset() == with_suffix(
                all.take(it.index() as int),
                ext@,
            ).to_multiset(),
    {
        let ghost idx = it.index();
        let key = chars_of(name.as_str());
        let keep = range_has_suffix(&key, 0, key.len(), &e);
        proof {
            assert(key@.subrange(0, key@.len() as int) =~= key@);
            assert(all.take(idx + 1).drop_last() =~= all.take(idx as int));
            assert(all.take(idx + 1).last() == name@);
        }
        if keep {
            let mut pos: usize = 0;
            while pos < keys.len() && !text_less(&key, &keys[pos])
                invariant
                    pos <= keys@.len(),
                    res@.len() == keys@.len(),
                    forall|k: int| 0 <= k < keys@.len() ==> #[trigger] keys@[k]@ == res@[k]@,
                    forall|k: int| 0 <= k < pos ==> text_le(#[trigger] keys@[k]@, key@),
                decreases keys@.len() - pos,
            {
                pos = pos + 1;
            }
            let ghost old_views = string_views(res@);
            proof {
                if pos < keys@.len() {
                    lemma_text_lt_asymmetric(key@, keys@[pos as int]@);
                    assert forall|j: int| pos <= j < old_views.len() implies text_le(
                        key@,
                        #[trigger] old_views[j],
                    ) by {
                        assert(old_views[pos as int] == keys@[pos as int]@);
                        if j > pos {
                            lemma_text_le_transitive(key@, old_views[pos as int], old_views[j]);
                        }
                    }
                }
            }
            res.insert(pos, name);
            keys.insert(pos, key);
            proof {
                let nv = string_views(res@);
                assert(nv =~= old_views.insert(pos as int, key@));
                lemma_insert_multiset(old_views, pos as int, key@);
                assert forall|i: int, j: int| 0 <= i < j < nv.len() implies text_le(
                    #[trigger] nv[i],
                    #[trigger] nv[j],
                ) by {
                    if i < pos && j > pos {
                        assert(old_views[i] == keys@[i]@);
                        assert(text_le(old_views[i], key@));
                        lemma_text_le_transitive(old_views[i], key@, old_views[j - 1]);
                    } else if i < pos && j == pos {
                        assert(old_views[i] == keys@[i]@);
                    } else if i == pos && j > pos {
                    } else if i < pos {
                        assert(old_views[i] == nv[i] && old_views[j] == nv[j]);
                    } else {
                        assert(old_views[i - 1] == nv[i] && old_views[j - 1] == nv[j]);
                    }
                }
                assert forall|k: int| 0 <= k < keys@.len() implies #[trigger] keys@[k]@ == res@[k]@ by {
                    assert(nv[k] == res@[k]@);
                }
            }
        } else {
            proof {
                assert(with_suffix(all.take(idx + 1), ext@) == with_suffix(all.take(idx as int), ext@));
            }
        }
    }
    proof {
        assert(all.take(names@.len() as int) =~= all);
    }
    res
}

} // verus!

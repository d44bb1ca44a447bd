//! Lexicographic order on text, as `String`'s `Ord` compares it, and sorted
//! sets of text kept in vectors.
use vstd::prelude::*;

verus! {

broadcast use vstd::seq_lib::group_seq_properties;

/// Code-point lexicographic order; for UTF-8 text it coincides with the byte
/// order that `str::cmp` uses.
pub open spec fn text_less(a: Seq<char>, b: Seq<char>) -> bool
    decreases a.len(),
{
    if a.len() == 0 {
        b.len() > 0
    } else if b.len() == 0 {
        false
    } else if a[0] != b[0] {
        a[0] < b[0]
    } else {
        text_less(a.drop_first(), b.drop_first())
    }
}

pub proof fn lemma_text_less_trichotomy(a: Seq<char>, b: Seq<char>)
    ensures
        a == b || text_less(a, b) || text_less(b, a),
        !(text_less(a, b) && text_less(b, a)),
        !text_less(a, a),
    decreases a.len(),
{
    if a.len() > 0 && b.len() > 0 && a[0] == b[0] {
        lemma_text_less_trichotomy(a.drop_first(), b.drop_first());
        if a.drop_first() == b.drop_first() {
            assert(a =~= seq![a[0]] + a.drop_first());
            assert(b =~= seq![b[0]] + b.drop_first());
        }
    }
    if a.len() > 0 {
        lemma_text_less_trichotomy(a.drop_first(), a.drop_first());
    }
    if a.len() == 0 && b.len() == 0 {
        assert(a =~= b);
    }
}

pub proof fn lemma_text_less_transitive(a: Seq<char>, b: Seq<char>, c: Seq<char>)
    requires
        text_less(a, b),
        text_less(b, c),
    ensures
        text_less(a, c),
    decreases a.len(),
{
    if a.len() > 0 && b.len() > 0 && c.len() > 0 && a[0] == b[0] && b[0] == c[0] {
        lemma_text_less_transitive(a.drop_first(), b.drop_first(), c.drop_first());
    }
}

/// Strictly ascending and therefore free of duplicates.
pub open spec fn ascending(s: Seq<Seq<char>>) -> bool {
    forall|i: int, j: int| 0 <= i < j < s.len() ==> text_less(#[trigger] s[i], #[trigger] s[j])
}

pub open spec fn texts(v: Seq<String>) -> Seq<Seq<char>> {
    v.map_values(|x: String| x@)
}

pub fn seq_less(a: &[char], b: &[char]) -> (r: bool)
    ensures
        r == text_less(a@, b@),
{
    let mut i: usize = 0;
    assert(a@.skip(0) =~= a@);
    assert(b@.skip(0) =~= b@);
    while i < a.len() && i < b.len() && a[i] == b[i]
        invariant
            i <= a.len(),
            i <= b.len(),
            text_less(a@, b@) == text_less(a@.skip(i as int), b@.skip(i as int)),
        decreases a.len() - i,
    {
        assert(a@.skip(i as int).drop_first() =~= a@.skip(i + 1));
        assert(b@.skip(i as int).drop_first() =~= b@.skip(i + 1));
        i = i + 1;
    }
    if i == a.len() {
        assert(a@.skip(i as int).len() == 0);
        i < b.len()
    } else if i == b.len() {
        false
    } else {
        assert(a@.skip(i as int)[0] == a@[i as int]);
        assert(b@.skip(i as int)[0] == b@[i as int]);
        a[i] < b[i]
    }
}

pub fn text_lt(a: &str, b: &str) -> (r: bool)
    ensures
        r == text_less(a@, b@),
{
    let x = crate::text::chars_of(a);
    let y = crate::text::chars_of(b);
    seq_less(x.as_slice(), y.as_slice())
}

/// Inserts `x` into an ascending vector unless an equal text is present.
pub fn insert_sorted_unique(v: &mut Vec<String>, x: String)
    requires
        ascending(texts(old(v)@)),
    ensures
        ascending(texts(final(v)@)),
        forall|y: Seq<char>| #[trigger] texts(final(v)@).contains(y) <==> (texts(old(v)@).contains(y) || y == x@),
{
    let ghost old_texts = texts(v@);
    let mut k: usize = 0;
    while k < v.len() && text_lt(v[k].as_str(), x.as_str())
        invariant
            k <= v.len(),
            texts(v@) == old_texts,
            forall|i: int| 0 <= i < k ==> text_less(#[trigger] texts(v@)[i], x@),
        decreases v.len() - k,
    {
        k = k + 1;
    }
    if k < v.len() {
        proof {
            lemma_text_less_trichotomy(v@[k as int]@, x@);
        }
        if crate::text::text_eq(v[k].as_str(), x.as_str()) {
            assert(texts(v@)[k as int] == x@);
            assert forall|y: Seq<char>| #[trigger] texts(v@).contains(y) <==> (old_texts.contains(y) || y == x@) by {
                if y == x@ {
                    assert(texts(v@)[k as int] == y);
                }
            }
            return;
        }
    }
    let ghost xv = x@;
    v.insert(k, x);
    assert(texts(v@) =~= old_texts.insert(k as int, xv));
    assert forall|i: int, j: int| 0 <= i < j < texts(v@).len() implies text_less(
        #[trigger] texts(v@)[i],
        #[trigger] texts(v@)[j],
    ) by {
        let t = texts(v@);
        if j < k {
            assert(t[i] == old_texts[i] && t[j] == old_texts[j]);
        } else if j == k {
            assert(t[i] == old_texts[i]);
        } else if i == k {
            assert(t[j] == old_texts[j - 1]);
            if j - 1 > k {
                lemma_text_less_transitive(xv, old_texts[k as int], old_texts[j - 1]);
            }
        } else if i < k {
            assert(t[i] == old_texts[i] && t[j] == old_texts[j - 1]);
        } else {
            assert(t[i] == old_texts[i - 1] && t[j] == old_texts[j - 1]);
        }
    }
    assert forall|y: Seq<char>| #[trigger] texts(v@).contains(y) <==> (old_texts.contains(y) || y == xv) by {
        let t = texts(v@);
        if y == xv {
            assert(t[k as int] == y);
        }
        if old_texts.contains(y) {
            let i = choose|i: int| 0 <= i < old_texts.len() && old_texts[i] == y;
            if i < k {
                assert(t[i] == y);
            } else {
                assert(t[i + 1] == y);
            }
        }
        if t.contains(y) {
            let i = choose|i: int| 0 <= i < t.len() && t[i] == y;
            if i < k {
                assert(old_texts[i] == y);
            } else if i > k {
                assert(old_texts[i - 1] == y);
            }
        }
    }
}

/// Appending a text above the last keeps a sequence ascending.
pub proof fn lemma_ascending_push(s: Seq<Seq<char>>, t: Seq<char>)
    requires
        ascending(s),
        s.len() > 0 ==> text_less(s.last(), t),
    ensures
        ascending(s.push(t)),
{
    assert forall|i: int, j: int| 0 <= i < j < s.push(t).len() implies text_less(
        #[trigger] s.push(t)[i],
        #[trigger] s.push(t)[j],
    ) by {
        if j == s.len() && i < s.len() - 1 {
            lemma_text_less_transitive(s[i], s.last(), t);
        }
    }
}

} // verus!

//! The values a provider's diagnostics must never show, in the order they
//! are redacted: longest first by UTF-8 length, then in text order, each once.
use vstd::prelude::*;

use crate::execution::redactions_valid;
use crate::json::utf8_encoding;
use crate::order::{lemma_text_less_transitive, lemma_text_less_trichotomy, text_less, texts};

verus! {

broadcast use vstd::seq_lib::group_seq_properties;

/// The number of bytes of a text's UTF-8 encoding.
pub open spec fn utf8_length(s: Seq<char>) -> nat
    decreases s.len(),
{
    if s.len() == 0 {
        0
    } else {
        utf8_length(s.drop_last()) + utf8_encoding(s.last()).len()
    }
}

/// `a` is redacted before `b`: it is longer in UTF-8, or as long and
/// earlier in text order.
pub open spec fn redacted_before(a: Seq<char>, b: Seq<char>) -> bool {
    utf8_length(a) > utf8_length(b) || (utf8_length(a) == utf8_length(b) && text_less(a, b))
}

/// Every value is redacted before every later one, so none occurs twice.
pub open spec fn redaction_ordered(s: Seq<Seq<char>>) -> bool {
    forall|i: int, j: int| 0 <= i < j < s.len() ==> redacted_before(#[trigger] s[i], #[trigger] s[j])
}

proof fn lemma_redacted_before_order(a: Seq<char>, b: Seq<char>, c: Seq<char>)
    ensures
        a == b || redacted_before(a, b) || redacted_before(b, a),
        !(redacted_before(a, b) && redacted_before(b, a)),
        !redacted_before(a, a),
        redacted_before(a, b) && redacted_before(b, c) ==> redacted_before(a, c),
{
    lemma_text_less_trichotomy(a, b);
    lemma_text_less_trichotomy(a, a);
    if text_less(a, b) && text_less(b, c) {
        lemma_text_less_transitive(a, b, c);
    }
}

fn char_utf8_length(c: char) -> (n: u128)
    ensures
        n == utf8_encoding(c).len(),
{
    let v = c as u32;
    if v < 0x80 {
        1
    } else if v < 0x800 {
        2
    } else if v < 0x10000 {
        3
    } else {
        4
    }
}

/// The number of bytes of the text's UTF-8 encoding.
pub fn text_utf8_length(s: &str) -> (n: u128)
    ensures
        n == utf8_length(s@),
{
    let chars = crate::text::chars_of(s);
    let mut n: u128 = 0;
    let mut i: usize = 0;
    while i < chars.len()
        invariant
            i <= chars.len(),
            chars@ == s@,
            n == utf8_length(chars@.take(i as int)),
            n <= 4 * i,
        decreases chars.len() - i,
    {
        assert(chars@.take(i + 1).drop_last() =~= chars@.take(i as int));
        n = n + char_utf8_length(chars[i]);
        i = i + 1;
    }
    assert(chars@.take(chars@.len() as int) =~= chars@);
    n
}

/// The sensitive values in redaction order: the empty ones dropped, each
/// other value once, the longest in UTF-8 first and values of one length in
/// text order.
pub fn order_sensitive_values(values: Vec<String>) -> (r: Vec<String>)
    ensures
        redaction_ordered(texts(r@)),
        redactions_valid(texts(r@)),
        forall|x: Seq<char>| #[trigger] texts(r@).contains(x) <==> (x.len() > 0 && texts(values@).contains(x)),
{
    let mut sorted: Vec<String> = Vec::new();
    let mut i: usize = 0;
    while i < values.len()
        invariant
            i <= values.len(),
            redaction_ordered(texts(sorted@)),
            forall|x: Seq<char>| #[trigger] texts(sorted@).contains(x) <==> (x.len() > 0 && texts(values@.take(i as int)).contains(x)),
        decreases values.len() - i,
    {
        let value = &values[i];
        let ghost before = texts(sorted@);
        assert(texts(values@.take(i + 1)) =~= texts(values@.take(i as int)).push(value@));
        let chars = crate::text::chars_of(value.as_str());
        if chars.len() > 0 {
            let length = text_utf8_length(value.as_str());
            let mut p: usize = 0;
            while p < sorted.len() && (text_utf8_length(sorted[p].as_str()) > length || (text_utf8_length(
                sorted[p].as_str(),
            ) == length && crate::order::text_lt(sorted[p].as_str(), value.as_str())))
                invariant
                    p <= sorted.len(),
                    texts(sorted@) == before,
                    length == utf8_length(value@),
                    forall|j: int| 0 <= j < p ==> redacted_before(#[trigger] before[j], value@),
                decreases sorted.len() - p,
            {
                p = p + 1;
            }
            if p < sorted.len() && crate::text::text_eq(sorted[p].as_str(), value.as_str()) {
                assert(before[p as int] == value@);
            } else {
                proof {
                    if p < sorted.len() {
                        lemma_redacted_before_order(before[p as int], value@, value@);
                    }
                    assert forall|j: int| p <= j < before.len() implies redacted_before(value@, #[trigger] before[j]) by {
                        lemma_redacted_before_order(value@, before[p as int], before[j]);
                        lemma_redacted_before_order(before[p as int], value@, before[j]);
                    }
                }
                let ghost inserted = before.insert(p as int, value@);
                sorted.insert(p, value.clone());
                proof {
                    assert(texts(sorted@) =~= inserted);
                    assert forall|a: int, b: int| 0 <= a < b < inserted.len() implies redacted_before(
                        #[trigger] inserted[a],
                        #[trigger] inserted[b],
                    ) by {
                        if a < p && b > p {
                            assert(inserted[b] == before[b - 1]);
                            if b - 1 > a {
                                assert(redacted_before(before[a], before[b - 1]));
                            }
                        } else if a == p && b > p {
                            assert(inserted[b] == before[b - 1]);
                        } else if a > p {
                            assert(inserted[a] == before[a - 1] && inserted[b] == before[b - 1]);
                            assert(redacted_before(before[a - 1], before[b - 1]));
                        } else if b < p {
                            assert(redacted_before(before[a], before[b]));
                        }
                    }
                    assert forall|x: Seq<char>| #[trigger] inserted.contains(x) <==> (before.contains(x) || x == value@) by {
                        if inserted.contains(x) {
                            let w = choose|w: int| 0 <= w < inserted.len() && inserted[w] == x;
                            if w < p {
                                assert(before[w] == x);
                            } else if w > p {
                                assert(before[w - 1] == x);
                            }
                        }
                        if before.contains(x) {
                            let w = choose|w: int| 0 <= w < before.len() && before[w] == x;
                            if w < p {
                                assert(inserted[w] == x);
                            } else {
                                assert(inserted[w + 1] == x);
                            }
                        }
                        if x == value@ {
                            assert(inserted[p as int] == x);
                        }
                    }
                }
            }
        }
        i = i + 1;
    }
    proof {
        assert(values@.take(values@.len() as int) =~= values@);
        assert forall|k: int| 0 <= k < texts(sorted@).len() implies (#[trigger] texts(sorted@)[k]).len() > 0 by {
            assert(texts(sorted@).contains(texts(sorted@)[k]));
        }
    }
    sorted
}

} // verus!

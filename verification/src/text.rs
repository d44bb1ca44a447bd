//! Character classes and small string routines shared by every contract.
//!
//! Identifiers in aniflow contracts are ASCII, so byte-wise checks of the
//! documents coincide with the character-wise predicates stated here.
use vstd::prelude::*;

verus! {

broadcast use vstd::seq_lib::group_seq_properties;

pub open spec fn is_lower(c: char) -> bool {
    'a' <= c && c <= 'z'
}

pub open spec fn is_upper(c: char) -> bool {
    'A' <= c && c <= 'Z'
}

pub open spec fn is_digit(c: char) -> bool {
    '0' <= c && c <= '9'
}

pub open spec fn is_alnum(c: char) -> bool {
    is_lower(c) || is_upper(c) || is_digit(c)
}

pub open spec fn is_hex_lower(c: char) -> bool {
    is_digit(c) || ('a' <= c && c <= 'f')
}

/// Unicode general category Cc, which is what `char::is_control` tests.
pub open spec fn is_control(c: char) -> bool {
    (c as u32) <= 0x1f || (0x7f <= (c as u32) && (c as u32) <= 0x9f)
}

/// The Unicode White_Space property, which is what `char::is_whitespace` tests.
pub open spec fn is_space(c: char) -> bool {
    let n = c as u32;
    ||| 0x09 <= n && n <= 0x0d
    ||| n == 0x20
    ||| n == 0x85
    ||| n == 0xa0
    ||| n == 0x1680
    ||| 0x2000 <= n && n <= 0x200a
    ||| n == 0x2028
    ||| n == 0x2029
    ||| n == 0x202f
    ||| n == 0x205f
    ||| n == 0x3000
}

/// A value whose trimmed form is empty.
pub open spec fn is_blank(s: Seq<char>) -> bool {
    forall|i: int| 0 <= i < s.len() ==> is_space(#[trigger] s[i])
}

pub open spec fn has_control(s: Seq<char>) -> bool {
    exists|i: int| 0 <= i < s.len() && is_control(#[trigger] s[i])
}

pub open spec fn has_space(s: Seq<char>) -> bool {
    exists|i: int| 0 <= i < s.len() && is_space(#[trigger] s[i])
}

/// Non-blank and free of control characters.
pub open spec fn is_printable_text(s: Seq<char>) -> bool {
    !is_blank(s) && !has_control(s)
}

/// A non-empty value without whitespace.
pub open spec fn is_token(s: Seq<char>) -> bool {
    s.len() > 0 && !has_space(s)
}

pub open spec fn is_local_id_char(c: char) -> bool {
    is_lower(c) || is_digit(c) || c == '-' || c == '_'
}

/// Starts with a lowercase letter; then lowercase letters, digits, `-` or `_`.
pub open spec fn is_local_id(s: Seq<char>) -> bool {
    &&& s.len() > 0
    &&& is_lower(s[0])
    &&& forall|i: int| 0 <= i < s.len() ==> is_local_id_char(#[trigger] s[i])
}

pub open spec fn is_segment_char(c: char) -> bool {
    is_lower(c) || is_digit(c) || c == '-'
}

/// Starts with a lowercase letter; then lowercase letters, digits, or `-`.
pub open spec fn is_name_segment(s: Seq<char>) -> bool {
    &&& s.len() > 0
    &&& is_lower(s[0])
    &&& forall|i: int| 0 <= i < s.len() ==> is_segment_char(#[trigger] s[i])
}

/// Every `.`-separated part is a name segment.
pub open spec fn is_dotted_name(s: Seq<char>) -> bool {
    &&& s.len() > 0
    &&& is_lower(s[0])
    &&& forall|i: int| 0 <= i < s.len() ==> is_segment_char(#[trigger] s[i]) || s[i] == '.'
    &&& forall|i: int| 0 <= i < s.len() && #[trigger] s[i] == '.' ==> i + 1 < s.len() && is_lower(s[i + 1])
}

/// A lowercase 64-character hexadecimal SHA-256 digest.
pub open spec fn is_sha256_hex(s: Seq<char>) -> bool {
    s.len() == 64 && forall|i: int| 0 <= i < s.len() ==> is_hex_lower(#[trigger] s[i])
}

pub open spec fn occurs_at(s: Seq<char>, pat: Seq<char>, i: int) -> bool {
    0 <= i && i + pat.len() <= s.len() && s.subrange(i, i + pat.len()) == pat
}

pub open spec fn contains_text(s: Seq<char>, pat: Seq<char>) -> bool {
    exists|i: int| occurs_at(s, pat, i)
}

pub open spec fn starts_with(s: Seq<char>, pat: Seq<char>) -> bool {
    pat.len() <= s.len() && s.subrange(0, pat.len() as int) == pat
}

pub open spec fn ascii_lower(c: char) -> char {
    if is_upper(c) {
        ((c as u8) + 32) as char
    } else {
        c
    }
}

pub open spec fn ascii_upper(c: char) -> char {
    if is_lower(c) {
        ((c as u8) - 32) as char
    } else {
        c
    }
}

/// Left-to-right, non-overlapping replacement of every occurrence of `pat`.
pub open spec fn replace_all(s: Seq<char>, pat: Seq<char>, rep: Seq<char>) -> Seq<char>
    decreases s.len(),
{
    if s.len() == 0 || pat.len() == 0 {
        s
    } else if starts_with(s, pat) {
        rep + replace_all(s.skip(pat.len() as int), pat, rep)
    } else {
        seq![s[0]] + replace_all(s.drop_first(), pat, rep)
    }
}

pub open spec fn digit_char(d: nat) -> char {
    if d == 0 { '0' }
    else if d == 1 { '1' }
    else if d == 2 { '2' }
    else if d == 3 { '3' }
    else if d == 4 { '4' }
    else if d == 5 { '5' }
    else if d == 6 { '6' }
    else if d == 7 { '7' }
    else if d == 8 { '8' }
    else { '9' }
}

/// The decimal rendering of a natural number, as `to_string` writes it.
pub open spec fn decimal(n: nat) -> Seq<char>
    decreases n,
{
    if n < 10 {
        seq![digit_char(n)]
    } else {
        decimal(n / 10).push(digit_char(n % 10))
    }
}

pub fn char_ascii_lower(c: char) -> (r: char)
    ensures
        r == ascii_lower(c),
{
    if 'A' <= c && c <= 'Z' {
        ((c as u8) + 32) as char
    } else {
        c
    }
}

pub fn char_ascii_upper(c: char) -> (r: char)
    ensures
        r == ascii_upper(c),
{
    if 'a' <= c && c <= 'z' {
        ((c as u8) - 32) as char
    } else {
        c
    }
}

pub fn char_is_lower(c: char) -> (r: bool)
    ensures
        r == is_lower(c),
{
    'a' <= c && c <= 'z'
}

pub fn char_is_digit(c: char) -> (r: bool)
    ensures
        r == is_digit(c),
{
    '0' <= c && c <= '9'
}

pub fn char_is_alnum(c: char) -> (r: bool)
    ensures
        r == is_alnum(c),
{
    ('a' <= c && c <= 'z') || ('A' <= c && c <= 'Z') || ('0' <= c && c <= '9')
}

pub fn char_is_control(c: char) -> (r: bool)
    ensures
        r == is_control(c),
{
    let n = c as u32;
    n <= 0x1f || (0x7f <= n && n <= 0x9f)
}

pub fn char_is_space(c: char) -> (r: bool)
    ensures
        r == is_space(c),
{
    let n = c as u32;
    (0x09 <= n && n <= 0x0d) || n == 0x20 || n == 0x85 || n == 0xa0 || n == 0x1680 || (0x2000 <= n
        && n <= 0x200a) || n == 0x2028 || n == 0x2029 || n == 0x202f || n == 0x205f || n == 0x3000
}

/// The characters of a string slice, in order.
pub fn chars_of(s: &str) -> (v: Vec<char>)
    ensures
        v@ == s@,
{
    let mut v: Vec<char> = Vec::new();
    for c in it: s.chars()
        invariant
            v@ == it.seq().take(it.index() as int),
            it.seq() == s@,
    {
        v.push(c);
    }
    v
}

/// Appends one character to a string.
#[verifier::external_body]
pub(crate) fn push_char(s: &mut String, c: char)
    ensures
        final(s)@ == old(s)@.push(c),
{
    s.push(c);
}

/// Builds an owned string from its characters.
pub fn string_from_chars(v: &[char]) -> (s: String)
    ensures
        s@ == v@,
{
    let mut s = String::new();
    let mut i: usize = 0;
    while i < v.len()
        invariant
            i <= v.len(),
            s@ == v@.take(i as int),
        decreases v.len() - i,
    {
        push_char(&mut s, v[i]);
        assert(v@.take(i + 1) == v@.take(i as int).push(v@[i as int]));
        i = i + 1;
    }
    assert(v@.take(v.len() as int) == v@);
    s
}

/// An owned copy of a string slice.
pub fn owned(s: &str) -> (r: String)
    ensures
        r@ == s@,
{
    s.to_owned()
}

/// Concatenation of two string slices.
pub fn join2(a: &str, b: &str) -> (r: String)
    ensures
        r@ == a@ + b@,
{
    let mut r = a.to_owned();
    r.append(b);
    r
}

/// Concatenation of three string slices.
pub fn join3(a: &str, b: &str, c: &str) -> (r: String)
    ensures
        r@ == a@ + b@ + c@,
{
    let mut r = a.to_owned();
    r.append(b);
    r.append(c);
    r
}

pub fn seq_eq(a: &[char], b: &[char]) -> (r: bool)
    ensures
        r == (a@ == b@),
{
    if a.len() != b.len() {
        return false;
    }
    let mut i: usize = 0;
    while i < a.len()
        invariant
            a.len() == b.len(),
            i <= a.len(),
            forall|j: int| 0 <= j < i ==> a@[j] == b@[j],
        decreases a.len() - i,
    {
        if a[i] != b[i] {
            return false;
        }
        i = i + 1;
    }
    assert(a@ =~= b@);
    true
}

/// Character-wise equality of two string slices.
pub fn text_eq(a: &str, b: &str) -> (r: bool)
    ensures
        r == (a@ == b@),
{
    let x = chars_of(a);
    let y = chars_of(b);
    seq_eq(x.as_slice(), y.as_slice())
}

pub fn seq_is_blank(s: &[char]) -> (r: bool)
    ensures
        r == is_blank(s@),
{
    let mut i: usize = 0;
    while i < s.len()
        invariant
            i <= s.len(),
            forall|j: int| 0 <= j < i ==> is_space(#[trigger] s@[j]),
        decreases s.len() - i,
    {
        if !char_is_space(s[i]) {
            return false;
        }
        i = i + 1;
    }
    true
}

pub fn seq_has_control(s: &[char]) -> (r: bool)
    ensures
        r == has_control(s@),
{
    let mut i: usize = 0;
    while i < s.len()
        invariant
            i <= s.len(),
            forall|j: int| 0 <= j < i ==> !is_control(#[trigger] s@[j]),
        decreases s.len() - i,
    {
        if char_is_control(s[i]) {
            return true;
        }
        i = i + 1;
    }
    false
}

pub fn seq_has_space(s: &[char]) -> (r: bool)
    ensures
        r == has_space(s@),
{
    let mut i: usize = 0;
    while i < s.len()
        invariant
            i <= s.len(),
            forall|j: int| 0 <= j < i ==> !is_space(#[trigger] s@[j]),
        decreases s.len() - i,
    {
        if char_is_space(s[i]) {
            return true;
        }
        i = i + 1;
    }
    false
}

/// Whether the trimmed value is empty.
pub fn text_is_blank(s: &str) -> (r: bool)
    ensures
        r == is_blank(s@),
{
    let v = chars_of(s);
    seq_is_blank(v.as_slice())
}

pub fn text_has_control(s: &str) -> (r: bool)
    ensures
        r == has_control(s@),
{
    let v = chars_of(s);
    seq_has_control(v.as_slice())
}

pub fn text_has_space(s: &str) -> (r: bool)
    ensures
        r == has_space(s@),
{
    let v = chars_of(s);
    seq_has_space(v.as_slice())
}

pub fn text_is_printable(s: &str) -> (r: bool)
    ensures
        r == is_printable_text(s@),
{
    let v = chars_of(s);
    !seq_is_blank(v.as_slice()) && !seq_has_control(v.as_slice())
}

pub fn text_is_token(s: &str) -> (r: bool)
    ensures
        r == is_token(s@),
{
    let v = chars_of(s);
    v.len() > 0 && !seq_has_space(v.as_slice())
}

pub fn seq_is_local_id(s: &[char]) -> (r: bool)
    ensures
        r == is_local_id(s@),
{
    if s.len() == 0 || !char_is_lower(s[0]) {
        return false;
    }
    let mut i: usize = 0;
    while i < s.len()
        invariant
            i <= s.len(),
            forall|j: int| 0 <= j < i ==> is_local_id_char(#[trigger] s@[j]),
        decreases s.len() - i,
    {
        let c = s[i];
        if !(char_is_lower(c) || char_is_digit(c) || c == '-' || c == '_') {
            return false;
        }
        i = i + 1;
    }
    true
}

pub fn text_is_local_id(s: &str) -> (r: bool)
    ensures
        r == is_local_id(s@),
{
    let v = chars_of(s);
    seq_is_local_id(v.as_slice())
}

pub fn seq_is_name_segment(s: &[char]) -> (r: bool)
    ensures
        r == is_name_segment(s@),
{
    if s.len() == 0 || !char_is_lower(s[0]) {
        return false;
    }
    let mut i: usize = 0;
    while i < s.len()
        invariant
            i <= s.len(),
            forall|j: int| 0 <= j < i ==> is_segment_char(#[trigger] s@[j]),
        decreases s.len() - i,
    {
        let c = s[i];
        if !(char_is_lower(c) || char_is_digit(c) || c == '-') {
            return false;
        }
        i = i + 1;
    }
    true
}

pub fn seq_is_dotted_name(s: &[char]) -> (r: bool)
    ensures
        r == is_dotted_name(s@),
{
    if s.len() == 0 || !char_is_lower(s[0]) {
        return false;
    }
    let mut i: usize = 0;
    while i < s.len()
        invariant
            i <= s.len(),
            s.len() > 0,
            forall|j: int| 0 <= j < i ==> is_segment_char(#[trigger] s@[j]) || s@[j] == '.',
            forall|j: int| 0 <= j < i && #[trigger] s@[j] == '.' ==> j + 1 < s.len() && is_lower(s@[j + 1]),
        decreases s.len() - i,
    {
        let c = s[i];
        if c == '.' {
            if i + 1 >= s.len() || !char_is_lower(s[i + 1]) {
                return false;
            }
        } else if !(char_is_lower(c) || char_is_digit(c) || c == '-') {
            return false;
        }
        i = i + 1;
    }
    true
}

pub fn text_is_sha256(s: &str) -> (r: bool)
    ensures
        r == is_sha256_hex(s@),
{
    let v = chars_of(s);
    if v.len() != 64 {
        return false;
    }
    let mut i: usize = 0;
    while i < v.len()
        invariant
            i <= v.len(),
            v@ == s@,
            v.len() == 64,
            forall|j: int| 0 <= j < i ==> is_hex_lower(#[trigger] v@[j]),
        decreases v.len() - i,
    {
        let c = v[i];
        if !(('0' <= c && c <= '9') || ('a' <= c && c <= 'f')) {
            assert(!is_hex_lower(v@[i as int]));
            assert(!is_sha256_hex(v@));
            return false;
        }
        i = i + 1;
    }
    true
}

/// Whether `pat` occurs in `s` at index `i`.
pub fn seq_occurs_at(s: &[char], pat: &[char], i: usize) -> (r: bool)
    ensures
        r == occurs_at(s@, pat@, i as int),
{
    if i > s.len() || pat.len() > s.len() - i {
        return false;
    }
    let mut k: usize = 0;
    while k < pat.len()
        invariant
            i + pat.len() <= s.len(),
            k <= pat.len(),
            forall|j: int| 0 <= j < k ==> s@[i + j] == pat@[j],
        decreases pat.len() - k,
    {
        if s[i + k] != pat[k] {
            assert(s@.subrange(i as int, i + pat.len())[k as int] != pat@[k as int]);
            return false;
        }
        k = k + 1;
    }
    assert(s@.subrange(i as int, i + pat.len()) =~= pat@);
    true
}

pub fn seq_contains(s: &[char], pat: &[char]) -> (r: bool)
    ensures
        r == contains_text(s@, pat@),
{
    if pat.len() == 0 {
        assert(occurs_at(s@, pat@, 0));
        return true;
    }
    if pat.len() > s.len() {
        return false;
    }
    let last = s.len() - pat.len();
    let mut i: usize = 0;
    while i <= last
        invariant
            last == s.len() - pat.len(),
            pat.len() > 0,
            i <= last + 1,
            forall|j: int| 0 <= j < i ==> !occurs_at(s@, pat@, j),
        decreases last + 1 - i,
    {
        if seq_occurs_at(s, pat, i) {
            return true;
        }
        i = i + 1;
    }
    assert forall|j: int| !occurs_at(s@, pat@, j) by {
        if 0 <= j && j + pat.len() <= s.len() {
            assert(j < i);
        }
    }
    false
}

pub fn text_contains(s: &str, pat: &str) -> (r: bool)
    ensures
        r == contains_text(s@, pat@),
{
    let a = chars_of(s);
    let b = chars_of(pat);
    seq_contains(a.as_slice(), b.as_slice())
}

pub fn seq_starts_with(s: &[char], pat: &[char]) -> (r: bool)
    ensures
        r == starts_with(s@, pat@),
{
    seq_occurs_at(s, pat, 0)
}

pub fn text_starts_with(s: &str, pat: &str) -> (r: bool)
    ensures
        r == starts_with(s@, pat@),
{
    let a = chars_of(s);
    let b = chars_of(pat);
    seq_starts_with(a.as_slice(), b.as_slice())
}

proof fn lemma_replace_step(s: Seq<char>, pat: Seq<char>, rep: Seq<char>, i: int)
    requires
        0 <= i < s.len(),
        pat.len() > 0,
    ensures
        occurs_at(s, pat, i) ==> replace_all(s.skip(i), pat, rep) == rep + replace_all(
            s.skip(i + pat.len()),
            pat,
            rep,
        ),
        !occurs_at(s, pat, i) ==> replace_all(s.skip(i), pat, rep) == seq![s[i]]
            + replace_all(s.skip(i + 1), pat, rep),
{
    let t = s.skip(i);
    assert(t.len() > 0);
    if pat.len() <= s.len() - i {
        assert(t.subrange(0, pat.len() as int) =~= s.subrange(i, i + pat.len()));
    }
    assert(starts_with(t, pat) == occurs_at(s, pat, i));
    if starts_with(t, pat) {
        assert(t.skip(pat.len() as int) =~= s.skip(i + pat.len()));
    } else {
        assert(t.drop_first() =~= s.skip(i + 1));
        assert(t[0] == s[i]);
    }
}

/// Left-to-right replacement of every occurrence of `pat` by `rep`.
#[verifier::rlimit(40)]
#[verifier::spinoff_prover]
pub fn replace_text(s: &str, pat: &str, rep: &str) -> (r: String)
    requires
        pat@.len() > 0,
    ensures
        r@ == replace_all(s@, pat@, rep@),
{
    let v = chars_of(s);
    let p = chars_of(pat);
    let mut r = String::new();
    let mut i: usize = 0;
    assert(v@.skip(0) =~= v@);
    while i < v.len()
        invariant
            i <= v.len(),
            v@ == s@,
            p@ == pat@,
            p@.len() > 0,
            r@ + replace_all(v@.skip(i as int), p@, rep@) == replace_all(v@, p@, rep@),
        decreases v.len() - i,
    {
        let ghost before = r@;
        let m = seq_occurs_at(v.as_slice(), p.as_slice(), i);
        proof {
            lemma_replace_step(v@, p@, rep@, i as int);
        }
        if m {
            r.append(rep);
            assert(before + (rep@ + replace_all(v@.skip(i + p@.len()), p@, rep@)) =~= r@
                + replace_all(v@.skip(i + p@.len()), p@, rep@));
            i = i + p.len();
        } else {
            push_char(&mut r, v[i]);
            assert(before + (seq![v@[i as int]] + replace_all(v@.skip(i + 1), p@, rep@)) =~= r@
                + replace_all(v@.skip(i + 1), p@, rep@));
            i = i + 1;
        }
    }
    assert(v@.skip(i as int) =~= Seq::<char>::empty());
    assert(r@ + replace_all(Seq::<char>::empty(), p@, rep@) =~= r@);
    r
}

pub fn digit_to_char(d: u64) -> (c: char)
    requires
        d < 10,
    ensures
        c == digit_char(d as nat),
{
    if d == 0 { '0' }
    else if d == 1 { '1' }
    else if d == 2 { '2' }
    else if d == 3 { '3' }
    else if d == 4 { '4' }
    else if d == 5 { '5' }
    else if d == 6 { '6' }
    else if d == 7 { '7' }
    else if d == 8 { '8' }
    else { '9' }
}

/// Decimal rendering of an unsigned integer.
pub fn decimal_string(n: u64) -> (s: String)
    ensures
        s@ == decimal(n as nat),
    decreases n,
{
    if n < 10 {
        let mut s = String::new();
        push_char(&mut s, digit_to_char(n));
        assert(s@ =~= seq![digit_char(n as nat)]);
        s
    } else {
        let mut s = decimal_string(n / 10);
        push_char(&mut s, digit_to_char(n % 10));
        s
    }
}

/// The path of a field of a list member: `list[index]` followed by `rest`.
pub open spec fn member_path(list: Seq<char>, index: nat, rest: Seq<char>) -> Seq<char> {
    list + "["@ + decimal(index) + "]"@ + rest
}

pub fn member_field(list: &str, index: usize, rest: &str) -> (s: String)
    ensures
        s@ == member_path(list@, index as nat, rest@),
{
    let mut s = join2(list, "[");
    let digits = decimal_string(index as u64);
    s.append(digits.as_str());
    s.append("]");
    s.append(rest);
    s
}

/// The decimal text of an integer, with a leading minus when negative.
pub open spec fn signed_decimal(n: int) -> Seq<char> {
    if n < 0 {
        seq!['-'] + decimal((-n) as nat)
    } else {
        decimal(n as nat)
    }
}

pub fn signed_decimal_string(n: i64) -> (s: String)
    ensures
        s@ == signed_decimal(n as int),
{
    if n < 0 {
        let magnitude: u64 = if n == i64::MIN {
            9223372036854775808u64
        } else {
            (-n) as u64
        };
        let digits = decimal_string(magnitude);
        let mut s = String::new();
        push_char(&mut s, '-');
        s.append(digits.as_str());
        assert(s@ =~= seq!['-'] + decimal((-n) as nat));
        s
    } else {
        decimal_string(n as u64)
    }
}

} // verus!

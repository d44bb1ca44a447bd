//! Content identities of directories: the digest over the sorted list of
//! their entries, under which pipeline inputs and provider outputs are
//! recorded.
use vstd::prelude::*;

use crate::canonical::{jnum, jstr, member};
use crate::json::{
    Json, JsonValue, canonical_digest, encodable_sha256, json_items, json_members, json_of, lemma_decimal_ascii,
    lemma_items_push, lemma_object_push_encodable, value_encodable,
};
use crate::error::ErrorCategory;
use crate::execution::{ProviderExecutionFailure, ProviderExecutionFailureCode, execution_failure};
use crate::order::{text_less, text_lt, texts};
use crate::outputs::joined;
use crate::planning::{
    AuthoredPipelineInput, PipelineInputIdentity, PipelineInputKind, PipelinePlanningDiagnosticCode,
    PipelinePlanningFailure, is_portable_path_segment, lowercase, planning_failure, portable_segment, single_failure,
    unicode_lowercase,
};
use crate::text::{chars_of, decimal, join3, owned, push_char, text_eq};

verus! {

broadcast use vstd::seq_lib::group_seq_properties;

/// One entry of a directory's content list.
#[derive(Debug)]
pub struct ContentRecord {
    pub relative_path: String,
    pub is_file: bool,
    pub byte_count: u64,
    pub sha256: Option<String>,
}

/// A content record by value.
pub type RecordView = (Seq<char>, bool, u64, Option<Seq<char>>);

pub open spec fn record_view(r: ContentRecord) -> RecordView {
    (
        r.relative_path@,
        r.is_file,
        r.byte_count,
        match r.sha256 {
            Some(d) => Some(d@),
            None => None,
        },
    )
}

pub open spec fn record_views(rs: Seq<ContentRecord>) -> Seq<RecordView> {
    rs.map_values(|r: ContentRecord| record_view(r))
}

// ---------------------------------------------------------------------------
// Sorting by path
// ---------------------------------------------------------------------------

/// Insert after every record whose path is not greater: the step of a
/// stable insertion sort.
pub open spec fn insert_by_path(s: Seq<RecordView>, x: RecordView) -> Seq<RecordView>
    decreases s.len(),
{
    if s.len() == 0 || !text_less(x.0, s.last().0) {
        s.push(x)
    } else {
        insert_by_path(s.drop_last(), x).push(s.last())
    }
}

/// The records in ascending path order; records with equal paths keep
/// their order, as a stable sort leaves them.
pub open spec fn sort_by_path(s: Seq<RecordView>) -> Seq<RecordView>
    decreases s.len(),
{
    if s.len() == 0 {
        s
    } else {
        insert_by_path(sort_by_path(s.drop_last()), s.last())
    }
}

proof fn lemma_insert_at(s: Seq<RecordView>, x: RecordView, p: int)
    requires
        0 <= p <= s.len(),
        forall|k: int| p <= k < s.len() ==> text_less(x.0, (#[trigger] s[k]).0),
        p == 0 || !text_less(x.0, s[p - 1].0),
    ensures
        insert_by_path(s, x) == s.insert(p, x),
    decreases s.len() - p,
{
    if p == s.len() {
        assert(s.push(x) =~= s.insert(p, x));
    } else {
        lemma_insert_at(s.drop_last(), x, p);
        assert(s.drop_last().insert(p, x).push(s.last()) =~= s.insert(p, x));
    }
}

/// Insert a record at its place by path, after any record with an equal
/// path.
fn insert_record(v: &mut Vec<ContentRecord>, x: ContentRecord)
    ensures
        record_views(final(v)@) == insert_by_path(record_views(old(v)@), record_view(x)),
{
    let ghost s = record_views(v@);
    let mut p: usize = v.len();
    while p > 0 && text_lt(x.relative_path.as_str(), v[p - 1].relative_path.as_str())
        invariant
            p <= v.len(),
            s == record_views(v@),
            forall|k: int| p <= k < v@.len() ==> text_less(x.relative_path@, (#[trigger] v@[k]).relative_path@),
        decreases p,
    {
        p = p - 1;
    }
    proof {
        assert forall|k: int| p <= k < s.len() implies text_less(record_view(x).0, (#[trigger] s[k]).0) by {
            assert(s[k] == record_view(v@[k]));
        }
        if p > 0 {
            assert(s[p - 1] == record_view(v@[p - 1]));
        }
        lemma_insert_at(s, record_view(x), p as int);
    }
    let ghost xv = record_view(x);
    v.insert(p, x);
    assert(record_views(v@) =~= s.insert(p as int, xv));
}

/// No two records share a path.
pub open spec fn paths_distinct(s: Seq<RecordView>) -> bool {
    forall|i: int, j: int| 0 <= i < j < s.len() ==> (#[trigger] s[i]).0 != (#[trigger] s[j]).0
}

/// Paths strictly ascend.
pub open spec fn paths_ascending(s: Seq<RecordView>) -> bool {
    forall|i: int, j: int| 0 <= i < j < s.len() ==> text_less((#[trigger] s[i]).0, (#[trigger] s[j]).0)
}

proof fn lemma_insert_multiset(s: Seq<RecordView>, x: RecordView)
    ensures
        insert_by_path(s, x).to_multiset() == s.to_multiset().insert(x),
    decreases s.len(),
{
    broadcast use vstd::multiset::group_multiset_axioms, vstd::seq_lib::to_multiset_build;

    if s.len() > 0 && text_less(x.0, s.last().0) {
        lemma_insert_multiset(s.drop_last(), x);
        assert(s.drop_last().push(s.last()) =~= s);
        assert(insert_by_path(s, x).to_multiset() =~= s.to_multiset().insert(x));
    }
}

proof fn lemma_sort_multiset(s: Seq<RecordView>)
    ensures
        sort_by_path(s).to_multiset() == s.to_multiset(),
    decreases s.len(),
{
    broadcast use vstd::multiset::group_multiset_axioms, vstd::seq_lib::to_multiset_build;

    if s.len() > 0 {
        lemma_sort_multiset(s.drop_last());
        lemma_insert_multiset(sort_by_path(s.drop_last()), s.last());
        assert(s.drop_last().push(s.last()) =~= s);
    }
}

/// What a sequence holds, it holds by its multiset.
proof fn lemma_member_of(s: Seq<RecordView>, t: Seq<RecordView>, k: int)
    requires
        s.to_multiset() == t.to_multiset(),
        0 <= k < s.len(),
    ensures
        t.contains(s[k]),
{
    broadcast use vstd::seq_lib::to_multiset_contains;

    assert(s.contains(s[k]));
    assert(s.to_multiset().count(s[k]) > 0);
}

proof fn lemma_insert_ascending(s: Seq<RecordView>, x: RecordView)
    requires
        paths_ascending(s),
        forall|i: int| 0 <= i < s.len() ==> (#[trigger] s[i]).0 != x.0,
    ensures
        paths_ascending(insert_by_path(s, x)),
    decreases s.len(),
{
    broadcast use vstd::multiset::group_multiset_axioms, vstd::seq_lib::to_multiset_build;

    if s.len() == 0 || !text_less(x.0, s.last().0) {
        if s.len() > 0 {
            crate::order::lemma_text_less_trichotomy(x.0, s.last().0);
            assert forall|i: int| 0 <= i < s.len() implies text_less((#[trigger] s[i]).0, x.0) by {
                if i < s.len() - 1 {
                    crate::order::lemma_text_less_transitive(s[i].0, s.last().0, x.0);
                }
            }
        }
    } else {
        let rest = s.drop_last();
        let last = s.last();
        lemma_insert_ascending(rest, x);
        let inserted = insert_by_path(rest, x);
        lemma_insert_multiset(rest, x);
        assert forall|i: int| 0 <= i < inserted.len() implies text_less((#[trigger] inserted[i]).0, last.0) by {
            broadcast use vstd::seq_lib::to_multiset_contains;

            assert(inserted.contains(inserted[i]));
            assert(inserted.to_multiset().count(inserted[i]) > 0);
            if inserted[i] != x {
                assert(rest.to_multiset().count(inserted[i]) > 0);
                assert(rest.contains(inserted[i]));
                let k = choose|k: int| 0 <= k < rest.len() && rest[k] == inserted[i];
                assert(s[k] == rest[k]);
            }
        }
    }
}

proof fn lemma_sort_ascending(s: Seq<RecordView>)
    requires
        paths_distinct(s),
    ensures
        paths_ascending(sort_by_path(s)),
    decreases s.len(),
{
    if s.len() > 0 {
        let rest = s.drop_last();
        lemma_sort_ascending(rest);
        lemma_sort_multiset(rest);
        let sorted = sort_by_path(rest);
        assert forall|i: int| 0 <= i < sorted.len() implies (#[trigger] sorted[i]).0 != s.last().0 by {
            broadcast use vstd::seq_lib::to_multiset_contains;

            assert(sorted.contains(sorted[i]));
            assert(sorted.to_multiset().count(sorted[i]) > 0);
            assert(rest.contains(sorted[i]));
            let k = choose|k: int| 0 <= k < rest.len() && rest[k] == sorted[i];
            assert(s[k] == rest[k]);
        }
        lemma_insert_ascending(sorted, s.last());
    }
}

/// Two strictly ascending lists with the same records are the same list.
proof fn lemma_ascending_unique(a: Seq<RecordView>, b: Seq<RecordView>)
    requires
        paths_ascending(a),
        paths_ascending(b),
        a.to_multiset() == b.to_multiset(),
    ensures
        a == b,
    decreases a.len(),
{
    broadcast use vstd::multiset::group_multiset_axioms, vstd::seq_lib::to_multiset_build,
        vstd::seq_lib::to_multiset_len, vstd::seq_lib::to_multiset_contains;

    assert(a.len() == a.to_multiset().len());
    assert(b.len() == b.to_multiset().len());
    if a.len() == 0 {
        assert(a =~= b);
    } else {
        let n = a.len() - 1;
        lemma_member_of(a, b, n);
        lemma_member_of(b, a, n);
        let k = choose|k: int| 0 <= k < b.len() && b[k] == a[n];
        let m = choose|m: int| 0 <= m < a.len() && a[m] == b[n];
        if k < n {
            assert(text_less(b[k].0, b[n].0));
            if m < n {
                assert(text_less(a[m].0, a[n].0));
                crate::order::lemma_text_less_trichotomy(a[n].0, b[n].0);
            } else {
                crate::order::lemma_text_less_trichotomy(a[n].0, a[n].0);
            }
        }
        assert(a[n] == b[n]);
        assert(a.drop_last().push(a[n]) =~= a);
        assert(b.drop_last().push(b[n]) =~= b);
        assert(a.drop_last().to_multiset() =~= a.to_multiset().remove(a[n]));
        assert(b.drop_last().to_multiset() =~= b.to_multiset().remove(b[n]));
        lemma_ascending_unique(a.drop_last(), b.drop_last());
    }
}

/// A directory's content identity does not depend on the order in which
/// a walk met its entries: two content lists holding the same records,
/// neither with a path twice, have the same digest.
pub proof fn lemma_content_digest_order_free(a: Seq<RecordView>, b: Seq<RecordView>, input: bool)
    requires
        a.to_multiset() == b.to_multiset(),
        paths_distinct(a),
        paths_distinct(b),
    ensures
        content_digest(a, input) == content_digest(b, input),
{
    lemma_sort_multiset(a);
    lemma_sort_multiset(b);
    lemma_sort_ascending(a);
    lemma_sort_ascending(b);
    lemma_ascending_unique(sort_by_path(a), sort_by_path(b));
}

// ---------------------------------------------------------------------------
// The serialized content list
// ---------------------------------------------------------------------------

/// The member that holds an entry's digest: `content_sha256` in input
/// identities, `sha256` in output identities.
pub open spec fn digest_key(input: bool) -> Seq<char> {
    if input {
        "content_sha256"@
    } else {
        "sha256"@
    }
}

pub open spec fn kind_name(is_file: bool) -> Seq<char> {
    if is_file {
        "file"@
    } else {
        "directory"@
    }
}

/// One entry as a JSON object, members in key order; the digest member is
/// left out when the entry has none.
pub open spec fn record_json(r: RecordView, input: bool) -> Json {
    let count = ("byte_count"@, Json::Number(decimal(r.1 as nat)));
    let kind = ("kind"@, Json::Str(kind_name(r.1)));
    let path = ("relative_path"@, Json::Str(r.0));
    Json::Object(
        match r.3 {
            Some(d) => if input {
                seq![(count.0, Json::Number(decimal(r.2 as nat))), ("content_sha256"@, Json::Str(d)), kind, path]
            } else {
                seq![(count.0, Json::Number(decimal(r.2 as nat))), kind, path, ("sha256"@, Json::Str(d))]
            },
            None => seq![(count.0, Json::Number(decimal(r.2 as nat))), kind, path],
        },
    )
}

pub open spec fn records_json(rs: Seq<RecordView>, input: bool) -> Json {
    Json::Array(rs.map_values(|r: RecordView| record_json(r, input)))
}

/// The identity digest of a content list: the canonical JSON digest of its
/// entries in path order.
pub open spec fn content_digest(rs: Seq<RecordView>, input: bool) -> Seq<char> {
    canonical_digest(records_json(sort_by_path(rs), input))
}

proof fn lemma_record_encodable(r: RecordView, input: bool)
    ensures
        value_encodable(record_json(r, input)),
{
    lemma_decimal_ascii(r.2 as nat);
    reveal_strlit("byte_count");
    reveal_strlit("content_sha256");
    reveal_strlit("kind");
    reveal_strlit("relative_path");
    reveal_strlit("sha256");
    reveal_with_fuel(text_less, 3);
    let count = ("byte_count"@, Json::Number(decimal(r.2 as nat)));
    let kind = ("kind"@, Json::Str(kind_name(r.1)));
    let path = ("relative_path"@, Json::Str(r.0));
    let m0 = Seq::<(Seq<char>, Json)>::empty();
    lemma_object_push_encodable(m0, count.0, count.1);
    let m1 = m0.push(count);
    match r.3 {
        Some(d) => {
            if input {
                assert(text_less("byte_count"@, "content_sha256"@));
                lemma_object_push_encodable(m1, "content_sha256"@, Json::Str(d));
                let m2 = m1.push(("content_sha256"@, Json::Str(d)));
                assert(text_less("content_sha256"@, "kind"@));
                lemma_object_push_encodable(m2, kind.0, kind.1);
                let m3 = m2.push(kind);
                assert(text_less("kind"@, "relative_path"@));
                lemma_object_push_encodable(m3, path.0, path.1);
                assert(m3.push(path) =~= seq![count, ("content_sha256"@, Json::Str(d)), kind, path]);
            } else {
                assert(text_less("byte_count"@, "kind"@));
                lemma_object_push_encodable(m1, kind.0, kind.1);
                let m2 = m1.push(kind);
                assert(text_less("kind"@, "relative_path"@));
                lemma_object_push_encodable(m2, path.0, path.1);
                let m3 = m2.push(path);
                assert(text_less("relative_path"@, "sha256"@));
                lemma_object_push_encodable(m3, "sha256"@, Json::Str(d));
                assert(m3.push(("sha256"@, Json::Str(d))) =~= seq![count, kind, path, ("sha256"@, Json::Str(d))]);
            }
        },
        None => {
            assert(text_less("byte_count"@, "kind"@));
            lemma_object_push_encodable(m1, kind.0, kind.1);
            let m2 = m1.push(kind);
            assert(text_less("kind"@, "relative_path"@));
            lemma_object_push_encodable(m2, path.0, path.1);
            assert(m2.push(path) =~= seq![count, kind, path]);
        },
    }
}

proof fn lemma_records_encodable(rs: Seq<RecordView>, input: bool)
    ensures
        value_encodable(records_json(rs, input)),
    decreases rs.len(),
{
    let items = rs.map_values(|r: RecordView| record_json(r, input));
    if rs.len() > 0 {
        lemma_records_encodable(rs.drop_last(), input);
        lemma_record_encodable(rs.last(), input);
        assert(rs.drop_last().map_values(|r: RecordView| record_json(r, input)) =~= items.drop_last());
        lemma_items_push(items.drop_last(), items.last());
        assert(items.drop_last().push(items.last()) =~= items);
    }
}

fn record_value(r: &ContentRecord, input: bool) -> (v: JsonValue)
    ensures
        json_of(v) == record_json(record_view(*r), input),
{
    proof {
        reveal_strlit("file");
        reveal_strlit("directory");
    }
    let mut m: Vec<(String, JsonValue)> = Vec::new();
    member(&mut m, "byte_count", jnum(r.byte_count));
    let kind = if r.is_file { "file" } else { "directory" };
    match &r.sha256 {
        Some(d) => {
            if input {
                member(&mut m, "content_sha256", jstr(d.as_str()));
                member(&mut m, "kind", jstr(kind));
                member(&mut m, "relative_path", jstr(r.relative_path.as_str()));
            } else {
                member(&mut m, "kind", jstr(kind));
                member(&mut m, "relative_path", jstr(r.relative_path.as_str()));
                member(&mut m, "sha256", jstr(d.as_str()));
            }
        },
        None => {
            member(&mut m, "kind", jstr(kind));
            member(&mut m, "relative_path", jstr(r.relative_path.as_str()));
        },
    }
    assert(json_members(m@) =~= match record_json(record_view(*r), input) {
        Json::Object(ms) => ms,
        _ => Seq::empty(),
    });
    JsonValue::Object(m)
}

/// The identity digest of records already in path order.
fn sorted_records_digest(records: &Vec<ContentRecord>, input: bool) -> (d: String)
    ensures
        d@ == canonical_digest(records_json(record_views(records@), input)),
{
    let mut items: Vec<JsonValue> = Vec::new();
    let mut i: usize = 0;
    while i < records.len()
        invariant
            i <= records.len(),
            json_items(items@) == record_views(records@).take(i as int).map_values(
                |r: RecordView| record_json(r, input),
            ),
        decreases records.len() - i,
    {
        let value = record_value(&records[i], input);
        let ghost before = items@;
        items.push(value);
        assert(items@.drop_last() =~= before);
        assert(record_views(records@).take(i + 1).map_values(|r: RecordView| record_json(r, input)) =~= record_views(
            records@,
        ).take(i as int).map_values(|r: RecordView| record_json(r, input)).push(
            record_json(record_view(records@[i as int]), input),
        ));
        i = i + 1;
    }
    assert(record_views(records@).take(records.len() as int) =~= record_views(records@));
    let v = JsonValue::Array(items);
    proof {
        lemma_records_encodable(record_views(records@), input);
    }
    encodable_sha256(&v)
}

/// Sort the records by path and digest them.
fn content_list_digest(records: Vec<ContentRecord>, input: bool) -> (d: String)
    ensures
        d@ == content_digest(record_views(records@), input),
{
    let mut sorted: Vec<ContentRecord> = Vec::new();
    let mut rest = records;
    let ghost all = record_views(rest@);
    let mut taken: usize = 0;
    assert(all.take(0) =~= Seq::<RecordView>::empty());
    let count = rest.len();
    assert(all.len() == count);
    while rest.len() > 0
        invariant
            taken + rest@.len() == all.len(),
            all.len() <= usize::MAX,
            record_views(rest@) == all.skip(taken as int),
            record_views(sorted@) == sort_by_path(all.take(taken as int)),
        decreases rest@.len(),
    {
        let x = rest.remove(0);
        proof {
            assert(all.skip(taken as int)[0] == record_view(x));
            assert(all.take(taken + 1).drop_last() =~= all.take(taken as int));
            assert(all.take(taken + 1).last() == record_view(x));
        }
        insert_record(&mut sorted, x);
        taken = taken + 1;
        assert(record_views(rest@) =~= all.skip(taken as int));
    }
    assert(all.take(taken as int) =~= all);
    sorted_records_digest(&sorted, input)
}

// ---------------------------------------------------------------------------
// Walked entries
// ---------------------------------------------------------------------------

/// What one entry beneath a walked directory is.
#[derive(Debug)]
pub enum EntryContent {
    /// A regular file: its byte count and digest, or `None` when it could
    /// not be read.
    File(Option<(u64, String)>),
    /// A directory.
    Directory,
    /// Anything else.
    Other,
}

/// One entry a walk beneath a directory found, in walk order.
#[derive(Debug)]
pub enum WalkedEntry {
    /// The walk, or the entry's metadata, could not be read.
    Unreadable,
    /// A symbolic link.
    Symlink,
    /// An entry by its path components below the walked directory (`None`
    /// when a component is not a plain name in UTF-8).
    Found { components: Option<Vec<String>>, content: EntryContent },
}

/// The path of an input entry: its components, each portable, joined by
/// `/`.
pub open spec fn input_entry_path(components: Option<Vec<String>>) -> Option<Seq<char>> {
    match components {
        Some(cs) => if cs@.len() > 0 && forall|i: int| 0 <= i < cs@.len() ==> is_portable_path_segment(#[trigger] cs@[i]@) {
            Some(joined(texts(cs@)))
        } else {
            None
        },
        None => None,
    }
}

/// The path of an output entry: its components, none holding a backslash,
/// joined by `/`.
pub open spec fn output_entry_path(components: Option<Vec<String>>) -> Option<Seq<char>> {
    match components {
        Some(cs) => if forall|i: int, j: int|
            0 <= i < cs@.len() && 0 <= j < cs@[i]@.len() ==> #[trigger] cs@[i]@[j] != '\\' {
            Some(joined(texts(cs@)))
        } else {
            None
        },
        None => None,
    }
}

fn join_components(cs: &Vec<String>) -> (r: String)
    ensures
        r@ == joined(texts(cs@)),
{
    let mut r = String::new();
    let mut i: usize = 0;
    while i < cs.len()
        invariant
            i <= cs.len(),
            r@ == joined(texts(cs@).take(i as int)),
        decreases cs.len() - i,
    {
        let ghost before = r@;
        assert(texts(cs@).take(i + 1).drop_last() =~= texts(cs@).take(i as int));
        assert(texts(cs@).take(i + 1).last() == cs@[i as int]@);
        if i > 0 {
            push_char(&mut r, '/');
        }
        r.append(cs[i].as_str());
        if i == 0 {
            assert(texts(cs@).take(1) =~= seq![cs@[0]@]);
            assert(r@ =~= cs@[0]@);
        } else {
            assert(r@ =~= before + seq!['/'] + cs@[i as int]@);
        }
        i = i + 1;
    }
    assert(texts(cs@).take(cs.len() as int) =~= texts(cs@));
    r
}

fn input_path_of(components: &Option<Vec<String>>) -> (r: Option<String>)
    ensures
        match r {
            Some(p) => input_entry_path(*components) == Some(p@),
            None => input_entry_path(*components) is None,
        },
{
    match components {
        Some(cs) => {
            if cs.len() == 0 {
                return None;
            }
            let mut i: usize = 0;
            while i < cs.len()
                invariant
                    i <= cs.len(),
                    *components == Some(*cs),
                    forall|k: int| 0 <= k < i ==> is_portable_path_segment(#[trigger] cs@[k]@),
                decreases cs.len() - i,
            {
                let chars = chars_of(cs[i].as_str());
                if !portable_segment(chars.as_slice()) {
                    return None;
                }
                i = i + 1;
            }
            Some(join_components(cs))
        },
        None => None,
    }
}

fn output_path_of(components: &Option<Vec<String>>) -> (r: Option<String>)
    ensures
        match r {
            Some(p) => output_entry_path(*components) == Some(p@),
            None => output_entry_path(*components) is None,
        },
{
    match components {
        Some(cs) => {
            let mut i: usize = 0;
            while i < cs.len()
                invariant
                    i <= cs.len(),
                    *components == Some(*cs),
                    forall|a: int, b: int| 0 <= a < i && 0 <= b < cs@[a]@.len() ==> #[trigger] cs@[a]@[b] != '\\',
                decreases cs.len() - i,
            {
                let chars = chars_of(cs[i].as_str());
                let mut k: usize = 0;
                while k < chars.len()
                    invariant
                        k <= chars.len(),
                        i < cs.len(),
                        *components == Some(*cs),
                        chars@ == cs@[i as int]@,
                        forall|b: int| 0 <= b < k ==> chars@[b] != '\\',
                    decreases chars.len() - k,
                {
                    if chars[k] == '\\' {
                        assert(cs@[i as int]@[k as int] == '\\');
                        return None;
                    }
                    k = k + 1;
                }
                i = i + 1;
            }
            Some(join_components(cs))
        },
        None => None,
    }
}

// ---------------------------------------------------------------------------
// Input directories
// ---------------------------------------------------------------------------

/// The walk of an input directory after its first `n` entries: the first
/// failure, the case-folded paths seen, the content records, and the file
/// and byte counts.
pub open spec fn input_walk(entries: Seq<WalkedEntry>, n: int) -> (
    Option<PipelinePlanningDiagnosticCode>,
    Seq<Seq<char>>,
    Seq<RecordView>,
    int,
    int,
)
    decreases n,
{
    if n <= 0 {
        (None, Seq::empty(), Seq::empty(), 0, 0)
    } else {
        let prev = input_walk(entries, n - 1);
        let fail = |code: PipelinePlanningDiagnosticCode| (Some(code), prev.1, prev.2, prev.3, prev.4);
        if prev.0 is Some {
            prev
        } else {
            match entries[n - 1] {
                WalkedEntry::Unreadable => fail(PipelinePlanningDiagnosticCode::InputUnavailable),
                WalkedEntry::Symlink => fail(PipelinePlanningDiagnosticCode::SymlinkInput),
                WalkedEntry::Found { components, content } => match input_entry_path(components) {
                    None => fail(PipelinePlanningDiagnosticCode::UnsupportedInputKind),
                    Some(p) => {
                        let folded = unicode_lowercase(p);
                        if prev.1.contains(folded) {
                            fail(PipelinePlanningDiagnosticCode::UnsupportedInputKind)
                        } else {
                            match content {
                                EntryContent::File(Some((b, d))) => if prev.3 + 1 > u64::MAX || prev.4 + b > u64::MAX {
                                    fail(PipelinePlanningDiagnosticCode::InputUnavailable)
                                } else {
                                    (None, prev.1.push(folded), prev.2.push((p, true, b, Some(d@))), prev.3 + 1, prev.4 + b)
                                },
                                EntryContent::File(None) => fail(PipelinePlanningDiagnosticCode::InputUnavailable),
                                EntryContent::Directory => (
                                    None,
                                    prev.1.push(folded),
                                    prev.2.push((p, false, 0u64, None)),
                                    prev.3,
                                    prev.4,
                                ),
                                EntryContent::Other => fail(PipelinePlanningDiagnosticCode::UnsupportedInputKind),
                            }
                        }
                    },
                },
            }
        }
    }
}

proof fn lemma_input_walk_sticky(entries: Seq<WalkedEntry>, m: int, n: int)
    requires
        0 <= m <= n,
        input_walk(entries, m).0 is Some,
    ensures
        input_walk(entries, n) == input_walk(entries, m),
    decreases n - m,
{
    if n > m {
        lemma_input_walk_sticky(entries, m, n - 1);
    }
}

/// The case-folded paths of an input walk are its records' paths folded,
/// no two alike; so no two records share a path.
pub proof fn lemma_input_walk_paths_distinct(entries: Seq<WalkedEntry>, n: int)
    ensures
        input_walk(entries, n).1 == input_walk(entries, n).2.map_values(|r: RecordView| unicode_lowercase(r.0)),
        forall|i: int, j: int|
            0 <= i < j < input_walk(entries, n).1.len() ==> (#[trigger] input_walk(entries, n).1[i]) != (
            #[trigger] input_walk(entries, n).1[j]),
        paths_distinct(input_walk(entries, n).2),
    decreases n,
{
    if n > 0 {
        lemma_input_walk_paths_distinct(entries, n - 1);
        let prev = input_walk(entries, n - 1);
        let cur = input_walk(entries, n);
        if cur.2 != prev.2 {
            let x = cur.2.last();
            assert(cur.2 == prev.2.push(x));
            assert(cur.1 == prev.1.push(unicode_lowercase(x.0)));
            assert(!prev.1.contains(unicode_lowercase(x.0)));
            assert(cur.1 =~= cur.2.map_values(|r: RecordView| unicode_lowercase(r.0)));
            assert forall|i: int, j: int| 0 <= i < j < cur.1.len() implies cur.1[i] != cur.1[j] by {
                if j == cur.1.len() - 1 {
                    assert(prev.1[i] == cur.1[i]);
                }
            }
            assert forall|i: int, j: int| 0 <= i < j < cur.2.len() implies (#[trigger] cur.2[i]).0 != (#[trigger] cur.2[j]).0 by {
                assert(cur.1[i] == unicode_lowercase(cur.2[i].0));
                assert(cur.1[j] == unicode_lowercase(cur.2[j].0));
            }
        }
    }
}

/// Two walks of an input directory that found the same records, in any
/// order, give it the same content digest.
pub proof fn lemma_input_identity_order_free(a: Seq<WalkedEntry>, b: Seq<WalkedEntry>)
    requires
        input_walk(a, a.len() as int).2.to_multiset() == input_walk(b, b.len() as int).2.to_multiset(),
    ensures
        content_digest(input_walk(a, a.len() as int).2, true) == content_digest(input_walk(b, b.len() as int).2, true),
{
    lemma_input_walk_paths_distinct(a, a.len() as int);
    lemma_input_walk_paths_distinct(b, b.len() as int);
    lemma_content_digest_order_free(input_walk(a, a.len() as int).2, input_walk(b, b.len() as int).2, true);
}

fn input_failure(code: PipelinePlanningDiagnosticCode, artifact_id: &str, detail: &str) -> (f: PipelinePlanningFailure)
    ensures
        f.category == ErrorCategory::Input,
        f.diagnostics@.len() == 1,
        f.diagnostics@[0].code == code,
        single_failure(f, ErrorCategory::Input, code, "declared input "@ + artifact_id@ + detail@, None, Some(artifact_id@)),
{
    planning_failure(
        ErrorCategory::Input,
        code,
        join3("declared input ", artifact_id, detail),
        None,
        Some(owned(artifact_id)),
        Vec::new(),
    )
}

fn contains_text(seen: &Vec<String>, t: &str) -> (r: bool)
    ensures
        r == texts(seen@).contains(t@),
{
    let mut i: usize = 0;
    while i < seen.len()
        invariant
            i <= seen.len(),
            forall|k: int| 0 <= k < i ==> seen@[k]@ != t@,
        decreases seen.len() - i,
    {
        if text_eq(seen[i].as_str(), t) {
            assert(texts(seen@)[i as int] == t@);
            return true;
        }
        i = i + 1;
    }
    assert(!texts(seen@).contains(t@)) by {
        if texts(seen@).contains(t@) {
            let k = choose|k: int| 0 <= k < texts(seen@).len() && texts(seen@)[k] == t@;
            assert(seen@[k]@ == t@);
        }
    }
    false
}

/// The content identity of an input directory from what a walk beneath it
/// found: its file count, byte count, and the digest of its content list.
/// Entries are checked in walk order and the first that breaks a rule
/// decides the failure; paths must be portable and distinct under case
/// folding, and the counts must fit in `u64`.
pub fn input_directory_identity(artifact_id: &str, entries: &Vec<WalkedEntry>) -> (r: Result<
    (u64, u64, String),
    PipelinePlanningFailure,
>)
    ensures
        ({
            let walk = input_walk(entries@, entries@.len() as int);
            &&& (r is Ok <==> walk.0 is None)
            &&& (r matches Err(f) ==> f.category == ErrorCategory::Input && f.diagnostics@.len() == 1 && walk.0
                == Some(f.diagnostics@[0].code))
            &&& (r matches Ok((files, bytes, digest)) ==> files == walk.3 && bytes == walk.4 && digest@
                == content_digest(walk.2, true))
        }),
{
    let ghost n = entries@.len() as int;
    let mut seen: Vec<String> = Vec::new();
    let mut records: Vec<ContentRecord> = Vec::new();
    let mut files: u64 = 0;
    let mut bytes: u64 = 0;
    let mut i: usize = 0;
    while i < entries.len()
        invariant
            n == entries@.len(),
            i <= entries.len(),
            input_walk(entries@, i as int).0 is None,
            texts(seen@) == input_walk(entries@, i as int).1,
            record_views(records@) == input_walk(entries@, i as int).2,
            files == input_walk(entries@, i as int).3,
            bytes == input_walk(entries@, i as int).4,
        decreases entries.len() - i,
    {
        let ghost prev = input_walk(entries@, i as int);
        match &entries[i] {
            WalkedEntry::Unreadable => {
                proof { lemma_input_walk_sticky(entries@, i + 1, n); }
                return Err(input_failure(PipelinePlanningDiagnosticCode::InputUnavailable, artifact_id, " could not be traversed"));
            },
            WalkedEntry::Symlink => {
                proof { lemma_input_walk_sticky(entries@, i + 1, n); }
                return Err(input_failure(PipelinePlanningDiagnosticCode::SymlinkInput, artifact_id, " contains a symbolic link"));
            },
            WalkedEntry::Found { components, content } => {
                let path = match input_path_of(components) {
                    Some(p) => p,
                    None => {
                        proof { lemma_input_walk_sticky(entries@, i + 1, n); }
                        return Err(
                            input_failure(PipelinePlanningDiagnosticCode::UnsupportedInputKind, artifact_id, " contains a non-portable path"),
                        );
                    },
                };
                let folded = lowercase(path.as_str());
                if contains_text(&seen, folded.as_str()) {
                    proof { lemma_input_walk_sticky(entries@, i + 1, n); }
                    return Err(input_failure(
                        PipelinePlanningDiagnosticCode::UnsupportedInputKind,
                        artifact_id,
                        " contains paths that collide under portable case folding",
                    ));
                }
                let record = match content {
                    EntryContent::File(Some((b, d))) => {
                        if files == u64::MAX || bytes > u64::MAX - *b {
                            proof { lemma_input_walk_sticky(entries@, i + 1, n); }
                            return Err(input_failure(PipelinePlanningDiagnosticCode::InputUnavailable, artifact_id, " is too large to identify"));
                        }
                        files = files + 1;
                        bytes = bytes + *b;
                        ContentRecord { relative_path: path, is_file: true, byte_count: *b, sha256: Some(d.clone()) }
                    },
                    EntryContent::File(None) => {
                        proof { lemma_input_walk_sticky(entries@, i + 1, n); }
                        return Err(input_failure(PipelinePlanningDiagnosticCode::InputUnavailable, artifact_id, " contains an unreadable file"));
                    },
                    EntryContent::Directory => ContentRecord { relative_path: path, is_file: false, byte_count: 0, sha256: None },
                    EntryContent::Other => {
                        proof { lemma_input_walk_sticky(entries@, i + 1, n); }
                        return Err(input_failure(
                            PipelinePlanningDiagnosticCode::UnsupportedInputKind,
                            artifact_id,
                            " contains an unsupported filesystem entry",
                        ));
                    },
                };
                let ghost before_seen = seen@;
                let ghost before_records = records@;
                seen.push(folded);
                records.push(record);
                assert(texts(seen@) =~= texts(before_seen).push(unicode_lowercase(path@)));
                assert(record_views(records@) =~= record_views(before_records).push(record_view(records@.last())));
            },
        }
        i = i + 1;
    }
    let digest = content_list_digest(records, true);
    Ok((files, bytes, digest))
}

/// The content identity of one declared input from what was found at its
/// bound path: a regular file (its byte count and digest, or `None` when
/// it could not be read), a directory (what a walk beneath it found), or
/// something else.
#[derive(Debug)]
pub enum InputProbe {
    /// Its metadata could not be read.
    Unavailable,
    /// A symbolic link.
    Symlink,
    File(Option<(u64, String)>),
    Directory(Vec<WalkedEntry>),
    Other,
}

/// Why an input probe fails, if it does.
pub open spec fn input_probe_failure(probe: InputProbe) -> Option<PipelinePlanningDiagnosticCode> {
    match probe {
        InputProbe::Unavailable => Some(PipelinePlanningDiagnosticCode::InputUnavailable),
        InputProbe::Symlink => Some(PipelinePlanningDiagnosticCode::SymlinkInput),
        InputProbe::File(None) => Some(PipelinePlanningDiagnosticCode::InputUnavailable),
        InputProbe::File(Some(_)) => None,
        InputProbe::Directory(entries) => input_walk(entries@, entries@.len() as int).0,
        InputProbe::Other => Some(PipelinePlanningDiagnosticCode::UnsupportedInputKind),
    }
}

/// Identify one declared input: its declared contract with the kind, file
/// count, byte count, and content digest of what lies at its path.
pub fn input_identity(declaration: &AuthoredPipelineInput, probe: &InputProbe) -> (r: Result<
    PipelineInputIdentity,
    PipelinePlanningFailure,
>)
    ensures
        r is Ok <==> input_probe_failure(*probe) is None,
        r matches Err(f) ==> f.category == ErrorCategory::Input && f.diagnostics@.len() == 1 && input_probe_failure(
            *probe,
        ) == Some(f.diagnostics@[0].code),
        r matches Ok(identity) ==> {
            &&& identity.id@ == declaration.id@
            &&& identity.artifact_type@ == declaration.artifact_type@
            &&& identity.artifact_role == declaration.artifact_role
            &&& identity.stream_role == declaration.stream_role
            &&& match *probe {
                InputProbe::File(Some((b, d))) => identity.kind == PipelineInputKind::File && identity.file_count == 1
                    && identity.byte_count == b && identity.content_sha256@ == d@,
                InputProbe::Directory(entries) => {
                    let walk = input_walk(entries@, entries@.len() as int);
                    &&& identity.kind == PipelineInputKind::Directory
                    &&& identity.file_count == walk.3
                    &&& identity.byte_count == walk.4
                    &&& identity.content_sha256@ == content_digest(walk.2, true)
                },
                _ => false,
            }
        },
{
    let id = declaration.id.as_str();
    let (kind, file_count, byte_count, digest) = match probe {
        InputProbe::Unavailable => {
            return Err(input_failure(PipelinePlanningDiagnosticCode::InputUnavailable, id, " could not be inspected"));
        },
        InputProbe::Symlink => {
            return Err(input_failure(PipelinePlanningDiagnosticCode::SymlinkInput, id, " cannot be a symbolic link"));
        },
        InputProbe::File(Some((b, d))) => (PipelineInputKind::File, 1u64, *b, d.clone()),
        InputProbe::File(None) => {
            return Err(input_failure(PipelinePlanningDiagnosticCode::InputUnavailable, id, " could not be read"));
        },
        InputProbe::Directory(entries) => {
            let (files, bytes, digest) = input_directory_identity(id, entries)?;
            (PipelineInputKind::Directory, files, bytes, digest)
        },
        InputProbe::Other => {
            return Err(input_failure(
                PipelinePlanningDiagnosticCode::UnsupportedInputKind,
                id,
                " must be a regular file or directory",
            ));
        },
    };
    Ok(PipelineInputIdentity {
        id: declaration.id.clone(),
        artifact_type: declaration.artifact_type.clone(),
        artifact_role: declaration.artifact_role,
        stream_role: declaration.stream_role,
        kind,
        file_count,
        byte_count,
        content_sha256: digest,
    })
}

// ---------------------------------------------------------------------------
// Output directories
// ---------------------------------------------------------------------------

/// `a + b`, held at `u64::MAX`.
pub open spec fn held_sum(a: int, b: int) -> int {
    if a + b > u64::MAX { u64::MAX as int } else { a + b }
}

/// The walk of an output directory after its first `n` entries: the first
/// failure, the content records, and the file and byte counts (held at
/// `u64::MAX`).
pub open spec fn output_walk(entries: Seq<WalkedEntry>, n: int) -> (
    Option<ProviderExecutionFailureCode>,
    Seq<RecordView>,
    int,
    int,
)
    decreases n,
{
    if n <= 0 {
        (None, Seq::empty(), 0, 0)
    } else {
        let prev = output_walk(entries, n - 1);
        let fail = |code: ProviderExecutionFailureCode| (Some(code), prev.1, prev.2, prev.3);
        if prev.0 is Some {
            prev
        } else {
            match entries[n - 1] {
                WalkedEntry::Unreadable => fail(ProviderExecutionFailureCode::OutputReadFailed),
                WalkedEntry::Symlink => fail(ProviderExecutionFailureCode::SymlinkOutput),
                WalkedEntry::Found { components, content } => match output_entry_path(components) {
                    None => fail(ProviderExecutionFailureCode::OutputReadFailed),
                    Some(p) => match content {
                        EntryContent::File(Some((b, d))) => (
                            None,
                            prev.1.push((p, true, b, Some(d@))),
                            held_sum(prev.2, 1),
                            held_sum(prev.3, b as int),
                        ),
                        EntryContent::File(None) => fail(ProviderExecutionFailureCode::OutputReadFailed),
                        EntryContent::Directory => (None, prev.1.push((p, false, 0u64, None)), prev.2, prev.3),
                        EntryContent::Other => fail(ProviderExecutionFailureCode::InvalidOutputType),
                    },
                },
            }
        }
    }
}

proof fn lemma_output_walk_sticky(entries: Seq<WalkedEntry>, m: int, n: int)
    requires
        0 <= m <= n,
        output_walk(entries, m).0 is Some,
    ensures
        output_walk(entries, n) == output_walk(entries, m),
    decreases n - m,
{
    if n > m {
        lemma_output_walk_sticky(entries, m, n - 1);
    }
}

/// Why an output directory's walk fails, if it does: the first entry that
/// breaks a rule, or, when none does, an empty directory.
pub open spec fn output_walk_failure(entries: Seq<WalkedEntry>) -> Option<ProviderExecutionFailureCode> {
    let walk = output_walk(entries, entries.len() as int);
    if walk.0 is Some {
        walk.0
    } else if walk.2 == 0 || walk.3 == 0 {
        Some(ProviderExecutionFailureCode::EmptyOutput)
    } else {
        None
    }
}

fn output_failure(code: ProviderExecutionFailureCode, port: &str, detail: &str) -> (f: ProviderExecutionFailure)
    ensures
        f.code == code,
        f.detail@ == "output port "@ + port@ + detail@,
{
    execution_failure(code, join3("output port ", port, detail))
}

/// The content identity of a directory a provider produced for an output
/// port, from what a walk beneath it found: its file count, byte count
/// (both held at `u64::MAX`), and the digest of its content list. The
/// first entry that breaks a rule decides the failure, and a directory
/// without files or bytes is empty.
pub fn output_directory_identity(port: &str, entries: &Vec<WalkedEntry>) -> (r: Result<
    (u64, u64, String),
    ProviderExecutionFailure,
>)
    ensures
        r is Ok <==> output_walk_failure(entries@) is None,
        r matches Err(f) ==> output_walk_failure(entries@) == Some(f.code),
        r matches Ok((files, bytes, digest)) ==> {
            let walk = output_walk(entries@, entries@.len() as int);
            files == walk.2 && bytes == walk.3 && digest@ == content_digest(walk.1, false)
        },
{
    let ghost n = entries@.len() as int;
    let mut records: Vec<ContentRecord> = Vec::new();
    let mut files: u64 = 0;
    let mut bytes: u64 = 0;
    let mut i: usize = 0;
    while i < entries.len()
        invariant
            n == entries@.len(),
            i <= entries.len(),
            output_walk(entries@, i as int).0 is None,
            record_views(records@) == output_walk(entries@, i as int).1,
            files == output_walk(entries@, i as int).2,
            bytes == output_walk(entries@, i as int).3,
        decreases entries.len() - i,
    {
        match &entries[i] {
            WalkedEntry::Unreadable => {
                proof { lemma_output_walk_sticky(entries@, i + 1, n); }
                return Err(output_failure(ProviderExecutionFailureCode::OutputReadFailed, port, " could not be traversed"));
            },
            WalkedEntry::Symlink => {
                proof { lemma_output_walk_sticky(entries@, i + 1, n); }
                return Err(output_failure(ProviderExecutionFailureCode::SymlinkOutput, port, " contains a symbolic link"));
            },
            WalkedEntry::Found { components, content } => {
                let path = match output_path_of(components) {
                    Some(p) => p,
                    None => {
                        proof { lemma_output_walk_sticky(entries@, i + 1, n); }
                        return Err(
                            output_failure(ProviderExecutionFailureCode::OutputReadFailed, port, " contains a non-portable relative path"),
                        );
                    },
                };
                let record = match content {
                    EntryContent::File(Some((b, d))) => {
                        files = files.saturating_add(1);
                        bytes = bytes.saturating_add(*b);
                        ContentRecord { relative_path: path, is_file: true, byte_count: *b, sha256: Some(d.clone()) }
                    },
                    EntryContent::File(None) => {
                        proof { lemma_output_walk_sticky(entries@, i + 1, n); }
                        return Err(output_failure(ProviderExecutionFailureCode::OutputReadFailed, port, " contains an unreadable file"));
                    },
                    EntryContent::Directory => ContentRecord { relative_path: path, is_file: false, byte_count: 0, sha256: None },
                    EntryContent::Other => {
                        proof { lemma_output_walk_sticky(entries@, i + 1, n); }
                        return Err(output_failure(
                            ProviderExecutionFailureCode::InvalidOutputType,
                            port,
                            " contains an unsupported filesystem entry",
                        ));
                    },
                };
                let ghost before = records@;
                records.push(record);
                assert(record_views(records@) =~= record_views(before).push(record_view(records@.last())));
            },
        }
        i = i + 1;
    }
    if files == 0 || bytes == 0 {
        return Err(output_failure(ProviderExecutionFailureCode::EmptyOutput, port, " is empty"));
    }
    let digest = content_list_digest(records, false);
    Ok((files, bytes, digest))
}

} // verus!

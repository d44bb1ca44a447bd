//! The stages a resumed run rebuilds when one stage's checkpoint is refused:
//! that stage and every stage that depends on it, directly or through others.
use vstd::prelude::*;

use crate::error::{Error, ErrorCategory};
use crate::order::texts;
use crate::planning::ResolvedPipelineStage;
use crate::text::{join3, text_eq};

verus! {

broadcast use vstd::seq_lib::group_seq_properties;

/// The stage depends on a stage named in the set.
pub open spec fn depends_on_any(stage: ResolvedPipelineStage, set: Set<Seq<char>>) -> bool {
    exists|d: int| 0 <= d < stage.depends_on@.len() && set.contains(#[trigger] stage.depends_on@[d]@)
}

/// A set of ids that holds the refused stage and every stage that depends
/// on a member.
pub open spec fn frontier_closed(stages: Seq<ResolvedPipelineStage>, root: Seq<char>, set: Set<Seq<char>>) -> bool {
    &&& set.contains(root)
    &&& forall|k: int| 0 <= k < stages.len() && depends_on_any(stages[k], set) ==> set.contains(#[trigger] stages[k].id@)
}

/// The id is invalidated with the refused stage: every closed set holds it.
pub open spec fn invalidated_with(stages: Seq<ResolvedPipelineStage>, root: Seq<char>, id: Seq<char>) -> bool {
    forall|set: Set<Seq<char>>| #[trigger] frontier_closed(stages, root, set) ==> set.contains(id)
}

/// The ids of the invalidated stages among `prefix`, in order.
pub open spec fn ordered_ids(
    prefix: Seq<ResolvedPipelineStage>,
    stages: Seq<ResolvedPipelineStage>,
    root: Seq<char>,
) -> Seq<Seq<char>>
    decreases prefix.len(),
{
    if prefix.len() == 0 {
        Seq::empty()
    } else {
        let rest = ordered_ids(prefix.drop_last(), stages, root);
        if invalidated_with(stages, root, prefix.last().id@) {
            rest.push(prefix.last().id@)
        } else {
            rest
        }
    }
}

/// The invalidated stages' ids in plan order.
pub open spec fn frontier_order(stages: Seq<ResolvedPipelineStage>, root: Seq<char>) -> Seq<Seq<char>> {
    ordered_ids(stages, stages, root)
}

/// Each invalidated id names exactly one stage.
pub open spec fn frontier_named_once(stages: Seq<ResolvedPipelineStage>, root: Seq<char>) -> bool {
    &&& exists|k: int| 0 <= k < stages.len() && #[trigger] stages[k].id@ == root
    &&& forall|i: int, j: int|
        0 <= i < j < stages.len() && invalidated_with(stages, root, #[trigger] stages[i].id@) ==> stages[i].id@
            != #[trigger] stages[j].id@
}

/// The number of unmarked stages.
pub open spec fn unmarked(marks: Seq<bool>) -> nat
    decreases marks.len(),
{
    if marks.len() == 0 {
        0
    } else {
        unmarked(marks.drop_last()) + if marks.last() {
            0nat
        } else {
            1nat
        }
    }
}

proof fn lemma_mark(marks: Seq<bool>, k: int)
    requires
        0 <= k < marks.len(),
        !marks[k],
    ensures
        unmarked(marks) >= 1,
        unmarked(marks.update(k, true)) + 1 == unmarked(marks),
    decreases marks.len(),
{
    let u = marks.update(k, true);
    if k < marks.len() - 1 {
        assert(u.drop_last() =~= marks.drop_last().update(k, true));
        lemma_mark(marks.drop_last(), k);
    } else {
        assert(u.drop_last() =~= marks.drop_last());
    }
}

/// The set an exploration has found: the refused stage and every marked
/// stage.
pub open spec fn found(stages: Seq<ResolvedPipelineStage>, root: Seq<char>, marks: Seq<bool>) -> Set<Seq<char>> {
    Set::new(|x: Seq<char>| x == root || exists|j: int| 0 <= j < stages.len() && marks[j] && #[trigger] stages[j].id@ == x)
}

fn depends_on_text(stage: &ResolvedPipelineStage, id: &str) -> (r: bool)
    ensures
        r <==> exists|d: int| 0 <= d < stage.depends_on@.len() && #[trigger] stage.depends_on@[d]@ == id@,
{
    let mut d: usize = 0;
    while d < stage.depends_on.len()
        invariant
            d <= stage.depends_on.len(),
            forall|e: int| 0 <= e < d ==> (#[trigger] stage.depends_on@[e])@ != id@,
        decreases stage.depends_on.len() - d,
    {
        if text_eq(stage.depends_on[d].as_str(), id) {
            return true;
        }
        d = d + 1;
    }
    false
}

/// The refused stage and every stage that depends on it, directly or
/// through others, in plan order; refused unless the refused stage is a
/// stage of the plan and every invalidated id names one stage.
pub fn invalidation_frontier(stages: &Vec<ResolvedPipelineStage>, root: &str) -> (r: Result<Vec<String>, Error>)
    ensures
        r is Ok <==> frontier_named_once(stages@, root@),
        r matches Ok(ids) ==> texts(ids@) == frontier_order(stages@, root@),
        r matches Err(e) ==> e.spec_category() == ErrorCategory::State,
{
    let n = stages.len();
    let mut marks: Vec<bool> = Vec::new();
    let mut i: usize = 0;
    while i < n
        invariant
            i <= n,
            n == stages@.len(),
            marks@.len() == i,
            forall|j: int| 0 <= j < i ==> !marks@[j],
        decreases n - i,
    {
        marks.push(false);
        i = i + 1;
    }
    let mut work: Vec<String> = Vec::new();
    work.push(root.to_owned());
    let ghost mut processed: Set<Seq<char>> = Set::empty();
    let mut remaining: usize = n;
    proof {
        assert forall|k: int| 0 <= k <= n implies unmarked(marks@.take(k)) == k by {
            lemma_unmarked_prefix(marks@, k);
        }
        assert(marks@.take(n as int) =~= marks@);
        assert(texts(work@)[0] == root@);
        assert forall|x: Seq<char>| #[trigger] found(stages@, root@, marks@).contains(x) implies processed.contains(x)
            || texts(work@).contains(x) by {
            if x != root@ {
                let j = choose|j: int| 0 <= j < stages@.len() && marks@[j] && #[trigger] stages@[j].id@ == x;
                assert(!marks@[j]);
            }
        }
    }
    while work.len() > 0
        invariant
            n == stages@.len(),
            marks@.len() == n,
            remaining == unmarked(marks@),
            forall|j: int| 0 <= j < n && marks@[j] ==> invalidated_with(stages@, root@, #[trigger] stages@[j].id@),
            forall|w: int| 0 <= w < work@.len() ==> invalidated_with(stages@, root@, #[trigger] work@[w]@),
            forall|x: Seq<char>, k: int|
                #![trigger processed.contains(x), stages@[k]]
                processed.contains(x) && 0 <= k < n && (exists|d: int|
                    0 <= d < stages@[k].depends_on@.len() && #[trigger] stages@[k].depends_on@[d]@ == x) ==> marks@[k],
            forall|x: Seq<char>| #[trigger] found(stages@, root@, marks@).contains(x) ==> processed.contains(x)
                || texts(work@).contains(x),
        decreases remaining, work.len(),
    {
        let ghost old_work = work@;
        let ghost old_marks = marks@;
        let ghost old_processed = processed;
        let id = work.pop().unwrap();
        let ghost before_marks = marks@;
        let ghost before_work = work@;
        assert(old_work =~= before_work.push(id));
        assert forall|w: int| 0 <= w < before_work.len() implies texts(work@).contains(#[trigger] before_work[w]@) by {
            assert(texts(work@)[w] == work@[w]@);
        }
        let mut k: usize = 0;
        while k < n
            invariant
                k <= n,
                n == stages@.len(),
                marks@.len() == n,
                remaining == unmarked(marks@),
                remaining <= unmarked(before_marks),
                remaining == unmarked(before_marks) ==> work@ == before_work,
                invalidated_with(stages@, root@, id@),
                forall|j: int| 0 <= j < n && marks@[j] ==> invalidated_with(stages@, root@, #[trigger] stages@[j].id@),
                forall|w: int| 0 <= w < work@.len() ==> invalidated_with(stages@, root@, #[trigger] work@[w]@),
                forall|j: int| 0 <= j < n && before_marks[j] ==> #[trigger] marks@[j],
                forall|j: int| 0 <= j < n && marks@[j] && !before_marks[j] ==> texts(work@).contains(#[trigger] stages@[j].id@),
                forall|w: int| 0 <= w < before_work.len() ==> texts(work@).contains(#[trigger] before_work[w]@),
                forall|j: int|
                    0 <= j < k && (exists|d: int|
                        0 <= d < stages@[j].depends_on@.len() && #[trigger] stages@[j].depends_on@[d]@ == id@) ==> #[trigger] marks@[j],
            decreases n - k,
        {
            if !marks[k] && depends_on_text(&stages[k], id.as_str()) {
                proof {
                    lemma_mark(marks@, k as int);
                    assert forall|set: Set<Seq<char>>| #[trigger] frontier_closed(stages@, root@, set) implies set.contains(
                        stages@[k as int].id@,
                    ) by {
                        let d = choose|d: int|
                            0 <= d < stages@[k as int].depends_on@.len() && #[trigger] stages@[k as int].depends_on@[d]@
                                == id@;
                        assert(set.contains(stages@[k as int].depends_on@[d]@));
                        assert(depends_on_any(stages@[k as int], set));
                    }
                }
                marks.set(k, true);
                remaining = remaining - 1;
                let ghost w0 = work@;
                work.push(stages[k].id.clone());
                proof {
                    assert forall|w: int| 0 <= w < w0.len() implies texts(work@).contains(#[trigger] w0[w]@) by {
                        assert(work@[w] == w0[w]);
                        assert(texts(work@)[w] == work@[w]@);
                    }
                    assert(texts(work@)[w0.len() as int] == stages@[k as int].id@);
                }
            }
            k = k + 1;
        }
        proof {
            processed = processed.insert(id@);
            assert forall|x: Seq<char>| #[trigger] found(stages@, root@, marks@).contains(x) implies processed.contains(x)
                || texts(work@).contains(x) by {
                let was_found = x == root@ || exists|j: int|
                    0 <= j < stages@.len() && old_marks[j] && #[trigger] stages@[j].id@ == x;
                if was_found {
                    assert(found(stages@, root@, old_marks).contains(x));
                    if !old_processed.contains(x) && x != id@ {
                        let w = choose|w: int| 0 <= w < old_work.len() && #[trigger] texts(old_work)[w] == x;
                        assert(texts(old_work)[w] == old_work[w]@);
                        assert(w < before_work.len());
                        assert(before_work[w] == old_work[w]);
                    }
                } else {
                    let j = choose|j: int| 0 <= j < stages@.len() && marks@[j] && #[trigger] stages@[j].id@ == x;
                    assert(!before_marks[j]);
                }
            }
        }
    }
    let ghost set = found(stages@, root@, marks@);
    proof {
        assert forall|x: Seq<char>| #[trigger] set.contains(x) implies invalidated_with(stages@, root@, x) by {
            if x != root@ {
                let j = choose|j: int| 0 <= j < stages@.len() && marks@[j] && #[trigger] stages@[j].id@ == x;
            }
        }
        assert(frontier_closed(stages@, root@, set)) by {
            assert forall|k: int| 0 <= k < stages@.len() && depends_on_any(stages@[k], set) implies set.contains(
                #[trigger] stages@[k].id@,
            ) by {
                let d = choose|d: int| 0 <= d < stages@[k].depends_on@.len() && set.contains(#[trigger] stages@[k].depends_on@[d]@);
                let x = stages@[k].depends_on@[d]@;
                assert(processed.contains(x));
                assert(marks@[k]);
            }
        }
    }
    let mut members: Vec<bool> = Vec::new();
    let mut ordered: Vec<String> = Vec::new();
    let mut named = false;
    let mut k: usize = 0;
    while k < n
        invariant
            k <= n,
            n == stages@.len(),
            marks@.len() == n,
            set == found(stages@, root@, marks@),
            forall|x: Seq<char>| #[trigger] set.contains(x) <==> invalidated_with(stages@, root@, x),
            members@.len() == k,
            forall|m: int| 0 <= m < k ==> (#[trigger] members@[m] <==> invalidated_with(stages@, root@, stages@[m].id@)),
            named <==> exists|m: int| 0 <= m < k && #[trigger] stages@[m].id@ == root@,
            texts(ordered@) == ordered_ids(stages@.take(k as int), stages@, root@),
        decreases n - k,
    {
        let id = stages[k].id.as_str();
        let is_root = text_eq(id, root);
        let mut member = is_root;
        let mut j: usize = 0;
        while j < n && !member
            invariant
                j <= n,
                n == stages@.len(),
                marks@.len() == n,
                id@ == stages@[k as int].id@,
                member <==> (id@ == root@ || exists|m: int| 0 <= m < j && marks@[m] && #[trigger] stages@[m].id@ == id@),
            decreases n - j,
        {
            if marks[j] && text_eq(stages[j].id.as_str(), id) {
                member = true;
            }
            j = j + 1;
        }
        proof {
            assert(member <==> set.contains(id@));
            assert(stages@.take(k + 1).drop_last() =~= stages@.take(k as int));
        }
        members.push(member);
        if member {
            ordered.push(stages[k].id.clone());
        }
        if is_root {
            named = true;
        }
        proof {
            assert(texts(ordered@) =~= ordered_ids(stages@.take(k + 1), stages@, root@));
        }
        k = k + 1;
    }
    assert(stages@.take(n as int) =~= stages@);
    let mut repeated = false;
    let mut a: usize = 0;
    while a < n
        invariant
            a <= n,
            n == stages@.len(),
            members@.len() == n,
            forall|m: int| 0 <= m < n ==> (#[trigger] members@[m] <==> invalidated_with(stages@, root@, stages@[m].id@)),
            repeated <==> exists|i: int, j: int|
                0 <= i < a && i < j < n && members@[i] && #[trigger] stages@[i].id@ == #[trigger] stages@[j].id@,
        decreases n - a,
    {
        if members[a] {
            let mut b: usize = a + 1;
            while b < n
                invariant
                    a < n,
                    a + 1 <= b <= n,
                    n == stages@.len(),
                    members@.len() == n,
                    members@[a as int],
                    repeated <==> (exists|i: int, j: int|
                        0 <= i < a && i < j < n && members@[i] && #[trigger] stages@[i].id@ == #[trigger] stages@[j].id@)
                        || exists|j: int| a < j < b && stages@[a as int].id@ == #[trigger] stages@[j].id@,
                decreases n - b,
            {
                if text_eq(stages[a].id.as_str(), stages[b].id.as_str()) {
                    repeated = true;
                }
                b = b + 1;
            }
        }
        a = a + 1;
    }
    if !named || repeated {
        return Err(Error::from_string(
            ErrorCategory::State,
            join3("Pipeline v3 invalidation frontier contains unknown stage ", root, ""),
        ));
    }
    Ok(ordered)
}

proof fn lemma_unmarked_prefix(marks: Seq<bool>, k: int)
    requires
        0 <= k <= marks.len(),
        forall|j: int| 0 <= j < marks.len() ==> !marks[j],
    ensures
        unmarked(marks.take(k)) == k,
    decreases k,
{
    if k > 0 {
        assert(marks.take(k).drop_last() =~= marks.take(k - 1));
        lemma_unmarked_prefix(marks, k - 1);
    }
}

} // verus!

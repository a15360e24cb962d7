//! Which modules a learner may take, what comes next, and how far along they are.

use vstd::prelude::*;
use crate::curriculum::{module_ids, module_index, module_order, lemma_module_ids_distinct};
use crate::models::{UserProgress, QuizResult, after_record};
use crate::text::{same_text, text_contains, occurs_in};

verus! {

/// Every module before position `k` of the curriculum is in `done`.
pub open spec fn passed_before(done: Set<Seq<char>>, k: int) -> bool {
    forall|i: int| 0 <= i < k ==> done.contains(#[trigger] module_ids()[i])
}

/// The gating rule: the first module is always open; any other module of the
/// curriculum opens once every module before it has been passed; an id outside the
/// curriculum is never open.
pub open spec fn unlocked(done: Set<Seq<char>>, module_id: Seq<char>) -> bool {
    module_id == module_ids()[0] || exists|k: int|
        0 <= k < module_ids().len() && #[trigger] module_ids()[k] == module_id && passed_before(
            done,
            k,
        )
}

/// Position `k` holds the first module of the curriculum not yet passed.
pub open spec fn first_unpassed(done: Set<Seq<char>>, k: int) -> bool {
    0 <= k < module_ids().len() && !done.contains(module_ids()[k]) && passed_before(done, k)
}

/// Every module of the curriculum has been passed.
pub open spec fn curriculum_complete(done: Set<Seq<char>>) -> bool {
    passed_before(done, module_ids().len() as int)
}

/// How many of the first `n` modules of the curriculum are in `done`.
pub open spec fn passed_count(done: Set<Seq<char>>, n: int) -> nat
    decreases n,
{
    if n <= 0 {
        0
    } else {
        passed_count(done, n - 1) + if done.contains(module_ids()[n - 1]) {
            1nat
        } else {
            0nat
        }
    }
}

/// The id "major" that names a major-quiz milestone.
pub open spec fn major_marker() -> Seq<char> {
    seq!['m', 'a', 'j', 'o', 'r']
}

/// The id "complete" that marks a finished curriculum.
pub open spec fn complete_marker() -> Seq<char> {
    seq!['c', 'o', 'm', 'p', 'l', 'e', 't', 'e']
}

/// Where the learner resumes: the first module not yet passed, or "complete".
pub open spec fn resume_point(done: Set<Seq<char>>) -> Seq<char> {
    if exists|k: int| first_unpassed(done, k) {
        module_ids()[choose|k: int| first_unpassed(done, k)]
    } else {
        complete_marker()
    }
}

/// At most one position is the first module not yet passed.
pub proof fn lemma_first_unpassed_unique(done: Set<Seq<char>>, a: int, b: int)
    requires
        first_unpassed(done, a),
        first_unpassed(done, b),
    ensures
        a == b,
{
    if a < b {
        assert(done.contains(module_ids()[a]));
    } else if b < a {
        assert(done.contains(module_ids()[b]));
    }
}

/// The first module is always open.
pub proof fn lemma_first_module_always_unlocked(done: Set<Seq<char>>)
    ensures
        unlocked(done, module_ids()[0]),
{
}

/// A module of the curriculum is open exactly when every module before it is passed.
pub proof fn lemma_unlocked_iff_prior_passed(done: Set<Seq<char>>, k: int)
    requires
        0 <= k < module_ids().len(),
    ensures
        unlocked(done, module_ids()[k]) <==> passed_before(done, k),
{
    lemma_module_ids_distinct();
    if unlocked(done, module_ids()[k]) {
        if module_ids()[k] == module_ids()[0] {
            assert(k == 0);
        } else {
            let w = choose|w: int|
                0 <= w < module_ids().len() && #[trigger] module_ids()[w] == module_ids()[k]
                    && passed_before(done, w);
            assert(w == k);
        }
    }
}

/// A module not yet passed (a major quiz, say) keeps every later module locked.
pub proof fn lemma_unpassed_module_locks_later(done: Set<Seq<char>>, k: int, j: int)
    requires
        0 <= k < j < module_ids().len(),
        !done.contains(module_ids()[k]),
    ensures
        !unlocked(done, module_ids()[j]),
{
    lemma_unlocked_iff_prior_passed(done, j);
}

/// Passing more modules never locks a module that was open.
pub proof fn lemma_unlock_monotone(done: Set<Seq<char>>, more: Set<Seq<char>>, module_id: Seq<char>)
    requires
        done.subset_of(more),
        unlocked(done, module_id),
    ensures
        unlocked(more, module_id),
{
    if module_id != module_ids()[0] {
        let k = choose|k: int|
            0 <= k < module_ids().len() && #[trigger] module_ids()[k] == module_id && passed_before(
                done,
                k,
            );
        assert(passed_before(more, k));
    }
}

/// Recording a quiz attempt never locks a module that was open.
pub proof fn lemma_recording_never_locks(
    completed: Map<Seq<char>, QuizResult>,
    result: QuizResult,
    module_id: Seq<char>,
)
    requires
        unlocked(completed.dom(), module_id),
    ensures
        unlocked(after_record(completed, result).dom(), module_id),
{
    lemma_unlock_monotone(completed.dom(), after_record(completed, result).dom(), module_id);
}

/// The module to take next is always open.
pub proof fn lemma_next_module_is_unlocked(done: Set<Seq<char>>, k: int)
    requires
        first_unpassed(done, k),
    ensures
        unlocked(done, module_ids()[k]),
{
    lemma_unlocked_iff_prior_passed(done, k);
}

/// The curriculum is complete exactly when no module is left to take next.
pub proof fn lemma_complete_iff_nothing_next(done: Set<Seq<char>>)
    ensures
        curriculum_complete(done) <==> !exists|k: int| first_unpassed(done, k),
{
    if !curriculum_complete(done) {
        // the first module of the curriculum that is not passed
        let bad = choose|i: int|
            0 <= i < module_ids().len() && !done.contains(#[trigger] module_ids()[i]);
        lemma_exists_first_unpassed(done, bad);
    } else {
        assert forall|k: int| !first_unpassed(done, k) by {
            if first_unpassed(done, k) {
                assert(done.contains(module_ids()[k]));
            }
        }
    }
}

/// Below a module that is not passed there is a first module that is not passed.
proof fn lemma_exists_first_unpassed(done: Set<Seq<char>>, bad: int)
    requires
        0 <= bad < module_ids().len(),
        !done.contains(module_ids()[bad]),
    ensures
        exists|k: int| first_unpassed(done, k),
    decreases bad,
{
    if passed_before(done, bad) {
        assert(first_unpassed(done, bad));
    } else {
        let i = choose|i: int| 0 <= i < bad && !done.contains(#[trigger] module_ids()[i]);
        lemma_exists_first_unpassed(done, i);
    }
}

/// Passing the module to take next opens the module after it.
pub proof fn lemma_passing_next_unlocks_following(
    completed: Map<Seq<char>, QuizResult>,
    result: QuizResult,
    k: int,
)
    requires
        first_unpassed(completed.dom(), k),
        k + 1 < module_ids().len(),
        result.passed,
        result.module_id@ == module_ids()[k],
    ensures
        unlocked(after_record(completed, result).dom(), module_ids()[k + 1]),
{
    let after = after_record(completed, result).dom();
    assert(passed_before(after, k + 1)) by {
        assert forall|i: int| 0 <= i < k + 1 implies after.contains(#[trigger] module_ids()[i]) by {
            if i < k {
                assert(completed.dom().contains(module_ids()[i]));
            }
        }
    }
    lemma_unlocked_iff_prior_passed(after, k + 1);
}

/// At most every module of the curriculum is counted as passed, and all of them
/// exactly when the curriculum is complete.
pub proof fn lemma_passed_count_bounds(done: Set<Seq<char>>, n: int)
    requires
        0 <= n <= module_ids().len(),
    ensures
        passed_count(done, n) <= n,
        passed_count(done, n) == n <==> passed_before(done, n),
    decreases n,
{
    if n > 0 {
        lemma_passed_count_bounds(done, n - 1);
        if passed_count(done, n) == n {
            assert(passed_before(done, n - 1));
            assert forall|i: int| 0 <= i < n implies done.contains(#[trigger] module_ids()[i]) by {
                if i < n - 1 {
                    assert(passed_before(done, n - 1));
                }
            }
        }
    }
}

/// Passing one more module of the curriculum, not passed before, adds exactly one to
/// the count of passed modules.
pub proof fn lemma_new_pass_counts_once(done: Set<Seq<char>>, k: int, n: int)
    requires
        0 <= k < module_ids().len(),
        !done.contains(module_ids()[k]),
        0 <= n <= module_ids().len(),
    ensures
        passed_count(done.insert(module_ids()[k]), n) == passed_count(done, n) + if k < n {
            1int
        } else {
            0int
        },
    decreases n,
{
    lemma_module_ids_distinct();
    if n > 0 {
        lemma_new_pass_counts_once(done, k, n - 1);
        if n - 1 != k {
            assert(module_ids()[n - 1] != module_ids()[k]);
        }
    }
}

/// The modules that are open always form a leading run of the curriculum: up to and
/// including the first module not passed, or all of them.
pub proof fn lemma_unlocked_modules_form_prefix(done: Set<Seq<char>>, k: int)
    requires
        first_unpassed(done, k) || (k == module_ids().len() - 1 && curriculum_complete(done)),
    ensures
        module_ids().filter(|id: Seq<char>| unlocked(done, id)) == module_ids().take(k + 1),
{
    lemma_filter_prefix(done, k, module_ids().len() as int);
    assert(module_ids().take(module_ids().len() as int) =~= module_ids());
}

/// The open modules among the first `i` are the first `min(i, k + 1)`.
proof fn lemma_filter_prefix(done: Set<Seq<char>>, k: int, i: int)
    requires
        first_unpassed(done, k) || (k == module_ids().len() - 1 && curriculum_complete(done)),
        0 <= i <= module_ids().len(),
    ensures
        module_ids().take(i).filter(|id: Seq<char>| unlocked(done, id)) == module_ids().take(
            if i < k + 1 {
                i
            } else {
                k + 1
            },
        ),
    decreases i,
{
    let pred = |id: Seq<char>| unlocked(done, id);
    if i == 0 {
        reveal_with_fuel(Seq::<_>::filter, 1);
        assert(module_ids().take(0) =~= Seq::<Seq<char>>::empty());
    } else {
        lemma_filter_prefix(done, k, i - 1);
        let prefix = module_ids().take(i);
        assert(prefix.drop_last() =~= module_ids().take(i - 1));
        assert(prefix.filter(pred) == if pred(prefix.last()) {
            prefix.drop_last().filter(pred).push(prefix.last())
        } else {
            prefix.drop_last().filter(pred)
        }) by {
            reveal_with_fuel(Seq::<_>::filter, 1);
        }
        lemma_unlocked_iff_prior_passed(done, i - 1);
        if i - 1 <= k {
            assert(passed_before(done, i - 1));
            assert(module_ids().take(i - 1).push(module_ids()[i - 1]) =~= module_ids().take(i));
        } else {
            assert(!done.contains(module_ids()[k]));
            assert(!passed_before(done, i - 1));
        }
    }
}

/// An id outside the curriculum is never open.
pub proof fn lemma_outside_ids_never_unlocked(done: Set<Seq<char>>, module_id: Seq<char>)
    requires
        !module_ids().contains(module_id),
    ensures
        !unlocked(done, module_id),
{
    assert(module_ids()[0] == module_ids()[0]);
    if unlocked(done, module_id) {
        if module_id == module_ids()[0] {
            assert(module_ids().contains(module_id));
        } else {
            let k = choose|k: int|
                0 <= k < module_ids().len() && #[trigger] module_ids()[k] == module_id
                    && passed_before(done, k);
            assert(module_ids().contains(module_id));
        }
    }
}

/// With nothing passed, the count of passed modules is zero.
pub proof fn lemma_nothing_passed_counts_zero(n: int)
    ensures
        passed_count(Set::<Seq<char>>::empty(), n) == 0,
    decreases n,
{
    if n > 0 {
        lemma_nothing_passed_counts_zero(n - 1);
    }
}

/// Passing an id outside the curriculum does not change the count of passed modules.
pub proof fn lemma_outside_pass_not_counted(done: Set<Seq<char>>, module_id: Seq<char>, n: int)
    requires
        !module_ids().contains(module_id),
        n <= module_ids().len(),
    ensures
        passed_count(done.insert(module_id), n) == passed_count(done, n),
    decreases n,
{
    if n > 0 {
        lemma_outside_pass_not_counted(done, module_id, n - 1);
        if module_ids()[n - 1] == module_id {
            assert(module_ids().contains(module_id));
        }
    }
}

/// Where the learner resumes: "complete" exactly when every module is passed, and
/// otherwise a module that is not passed while every module before it is.
pub proof fn lemma_resume_point_cases(done: Set<Seq<char>>)
    ensures
        curriculum_complete(done) ==> resume_point(done) == complete_marker(),
        !curriculum_complete(done) ==> exists|k: int|
            0 <= k < module_ids().len() && #[trigger] module_ids()[k] == resume_point(done)
                && !done.contains(module_ids()[k]) && passed_before(done, k),
{
    lemma_complete_iff_nothing_next(done);
}

/// Whether `module_id` is open to the learner (see `unlocked`).
pub fn is_module_unlocked(progress: &UserProgress, module_id: &str) -> (r: bool)
    requires
        progress.wf(),
    ensures
        r == unlocked(progress@.completed.dom(), module_id@),
{
    let done = Ghost(progress@.completed.dom());
    proof {
        lemma_module_ids_distinct();
    }
    let ids = module_order();
    if same_text(module_id, ids[0]) {
        return true;
    }
    let target = match module_index(module_id) {
        Some(k) => k,
        None => {
            return false;
        },
    };
    for i in 0..target
        invariant
            target < module_ids().len(),
            module_ids()[target as int] == module_id@,
            module_id@ != module_ids()[0],
            ids@.len() == module_ids().len(),
            forall|j: int| 0 <= j < ids@.len() ==> #[trigger] ids@[j]@ == module_ids()[j],
            passed_before(done@, i as int),
            done@ == progress@.completed.dom(),
            progress.wf(),
            forall|a: int, b: int|
                0 <= a < 10 && 0 <= b < 10 && a != b ==> #[trigger] module_ids()[a]
                    != #[trigger] module_ids()[b],
    {
        if !progress.is_completed(ids[i]) {
            assert(!unlocked(done@, module_id@)) by {
                if exists|k: int|
                    0 <= k < module_ids().len() && #[trigger] module_ids()[k] == module_id@
                        && passed_before(done@, k) {
                    let k = choose|k: int|
                        0 <= k < module_ids().len() && #[trigger] module_ids()[k] == module_id@
                            && passed_before(done@, k);
                    assert(module_ids()[k] == module_ids()[target as int]);
                    assert(done@.contains(module_ids()[i as int]));
                }
            }
            return false;
        }
    }
    assert(module_ids()[target as int] == module_id@);
    true
}

/// The module the learner should take next: the first one of the curriculum not yet
/// passed, or `None` when all are passed.
pub fn next_module_id(progress: &UserProgress) -> (r: Option<&'static str>)
    requires
        progress.wf(),
    ensures
        match r {
            Some(id) => exists|k: int|
                first_unpassed(progress@.completed.dom(), k) && #[trigger] module_ids()[k] == id@,
            None => curriculum_complete(progress@.completed.dom()),
        },
{
    let ids = module_order();
    let n = ids.len();
    for i in 0..n
        invariant
            n == ids@.len(),
            ids@.len() == module_ids().len(),
            forall|j: int| 0 <= j < ids@.len() ==> #[trigger] ids@[j]@ == module_ids()[j],
            passed_before(progress@.completed.dom(), i as int),
            progress.wf(),
    {
        if !progress.is_completed(ids[i]) {
            assert(first_unpassed(progress@.completed.dom(), i as int));
            assert(module_ids()[i as int] == ids@[i as int]@);
            return Some(ids[i]);
        }
    }
    None
}

/// Whether `module_id` names a major-quiz milestone: its id contains "major".
pub fn is_major_milestone(module_id: &str) -> (r: bool)
    ensures
        r == occurs_in(module_id@, major_marker()),
{
    let marker = "major";
    proof {
        reveal_strlit("major");
        assert(marker@ =~= major_marker());
    }
    text_contains(module_id, marker)
}

/// The modules open to the learner, in curriculum order.
pub fn unlocked_modules(progress: &UserProgress) -> (r: Vec<&'static str>)
    requires
        progress.wf(),
    ensures
        r@.map_values(|s: &str| s@) == module_ids().filter(
            |id: Seq<char>| unlocked(progress@.completed.dom(), id),
        ),
{
    let ghost pred = |id: Seq<char>| unlocked(progress@.completed.dom(), id);
    let ids = module_order();
    let n = ids.len();
    let mut r: Vec<&'static str> = Vec::new();
    for i in 0..n
        invariant
            n == ids@.len(),
            ids@.len() == module_ids().len(),
            forall|j: int| 0 <= j < ids@.len() ==> #[trigger] ids@[j]@ == module_ids()[j],
            progress.wf(),
            pred == (|id: Seq<char>| unlocked(progress@.completed.dom(), id)),
            r@.map_values(|s: &str| s@) =~= module_ids().take(i as int).filter(pred),
    {
        let ghost before = r@;
        let ghost prefix = module_ids().take(i + 1);
        assert(prefix.drop_last() =~= module_ids().take(i as int));
        assert(prefix.last() == ids@[i as int]@);
        assert(prefix.filter(pred) == if pred(prefix.last()) {
            prefix.drop_last().filter(pred).push(prefix.last())
        } else {
            prefix.drop_last().filter(pred)
        }) by {
            reveal_with_fuel(Seq::<_>::filter, 1);
        }
        if is_module_unlocked(progress, ids[i]) {
            r.push(ids[i]);
            assert(r@ == before.push(ids@[i as int]));
            assert(r@.map_values(|s: &str| s@) =~= before.map_values(|s: &str| s@).push(
                ids@[i as int]@,
            ));
        }
    }
    assert(module_ids().take(n as int) =~= module_ids());
    r
}

/// Whether every module of the curriculum has been passed.
pub fn is_curriculum_complete(progress: &UserProgress) -> (r: bool)
    requires
        progress.wf(),
    ensures
        r == curriculum_complete(progress@.completed.dom()),
{
    let ids = module_order();
    let n = ids.len();
    for i in 0..n
        invariant
            n == ids@.len(),
            ids@.len() == module_ids().len(),
            forall|j: int| 0 <= j < ids@.len() ==> #[trigger] ids@[j]@ == module_ids()[j],
            passed_before(progress@.completed.dom(), i as int),
            progress.wf(),
    {
        if !progress.is_completed(ids[i]) {
            assert(!progress@.completed.dom().contains(module_ids()[i as int]));
            return false;
        }
    }
    true
}

/// Progress through the curriculum as (modules passed, modules in the curriculum).
pub fn progress_fraction(progress: &UserProgress) -> (r: (usize, usize))
    requires
        progress.wf(),
    ensures
        r.0 == passed_count(progress@.completed.dom(), module_ids().len() as int),
        r.1 == module_ids().len(),
{
    let ids = module_order();
    let n = ids.len();
    let mut count: usize = 0;
    for i in 0..n
        invariant
            n == ids@.len(),
            ids@.len() == module_ids().len(),
            forall|j: int| 0 <= j < ids@.len() ==> #[trigger] ids@[j]@ == module_ids()[j],
            count == passed_count(progress@.completed.dom(), i as int),
            count <= i,
            progress.wf(),
    {
        if progress.is_completed(ids[i]) {
            count = count + 1;
        }
    }
    (count, n)
}

/// Records a finished quiz and, when it was passed, moves the learner on to the first
/// module not yet passed (or to "complete" when none is left).
pub fn apply_quiz_result(progress: &mut UserProgress, result: &QuizResult)
    requires
        old(progress).wf(),
        old(progress)@.total_attempts < u32::MAX,
    ensures
        final(progress).wf(),
        final(progress)@.username == old(progress)@.username,
        final(progress)@.total_attempts == old(progress)@.total_attempts + 1,
        final(progress)@.completed == after_record(old(progress)@.completed, *result),
        final(progress)@.current_module_id == if result.passed {
            resume_point(final(progress)@.completed.dom())
        } else {
            old(progress)@.current_module_id
        },
{
    progress.record_result(result);
    if result.passed {
        let ghost done = progress@.completed.dom();
        match next_module_id(progress) {
            Some(id) => {
                proof {
                    let k = choose|k: int| first_unpassed(done, k) && #[trigger] module_ids()[k] == id@;
                    let c = choose|k: int| first_unpassed(done, k);
                    lemma_first_unpassed_unique(done, k, c);
                }
                progress.set_current_module_id(id);
            },
            None => {
                let marker = "complete";
                proof {
                    reveal_strlit("complete");
                    assert(marker@ =~= complete_marker());
                    assert forall|k: int| !first_unpassed(done, k) by {
                        if first_unpassed(done, k) {
                            assert(done.contains(module_ids()[k]));
                        }
                    }
                }
                progress.set_current_module_id(marker);
            },
        }
    }
}

} // verus!

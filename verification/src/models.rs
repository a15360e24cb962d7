//! The course's data: questions and modules, quiz results, and a learner's progress record.

use vstd::prelude::*;

verus! {

/// One multiple-choice quiz question.
#[derive(Debug)]
pub struct Question {
    /// The question text shown to the learner.
    pub question: String,
    /// The answer choices.
    pub options: Vec<String>,
    /// Zero-based index of the right answer in `options`.
    pub correct: usize,
    /// Explanation shown after the learner answers.
    pub explanation: String,
}

/// One teaching module: a lesson and its quiz.
#[derive(Debug)]
pub struct Module {
    /// Identifier such as "01" or "05_major".
    pub id: String,
    /// Display title.
    pub title: String,
    /// The lesson text.
    pub lesson: String,
    /// Whether this module is a major quiz covering several modules.
    pub is_major_quiz: bool,
    /// The quiz questions.
    pub questions: Vec<Question>,
}

/// The outcome of one quiz attempt.
///
/// The percentage score is `correct / total * 100` (zero when `total` is zero); it is
/// not stored, so two results are compared exactly, as fractions.
#[derive(Debug)]
pub struct QuizResult {
    /// The module the attempt belongs to.
    pub module_id: String,
    /// Number of questions answered correctly.
    pub correct: usize,
    /// Number of questions in the quiz.
    pub total: usize,
    /// Whether the attempt met the passing threshold.
    pub passed: bool,
}

/// The passing threshold in percent: 90 for a major quiz, 95 for a module quiz.
pub open spec fn passing_percent(is_major: bool) -> int {
    if is_major {
        90
    } else {
        95
    }
}

/// A quiz with `total` questions of which `correct` were right passes: its score,
/// `correct / total * 100`, is at least the threshold (an empty quiz scores zero).
pub open spec fn meets_threshold(correct: int, total: int, is_major: bool) -> bool {
    total > 0 && correct * 100 >= passing_percent(is_major) * total
}

/// The score of `a` is strictly higher than the score of `b`, each score being
/// `correct / total` (zero when `total` is zero), compared as exact fractions.
pub open spec fn score_exceeds(a: QuizResult, b: QuizResult) -> bool {
    if a.total == 0 {
        false
    } else if b.total == 0 {
        a.correct > 0
    } else {
        a.correct * b.total > b.correct * a.total
    }
}

/// A product of two machine words fits in 128 bits.
proof fn lemma_word_product_fits(a: usize, b: usize)
    ensures
        (a as int) * (b as int) <= u128::MAX,
{
    assert((a as int) * (b as int) <= u128::MAX) by (nonlinear_arith)
        requires
            a as int <= 0xffff_ffff_ffff_ffff,
            b as int <= 0xffff_ffff_ffff_ffff,
            0 <= a as int,
            0 <= b as int,
    ;
}

impl QuizResult {
    /// Builds the result of an attempt and decides pass or fail: a major quiz needs 90%,
    /// a module quiz 95%.
    pub fn new(module_id: &str, correct: usize, total: usize, is_major: bool) -> (r: Self)
        ensures
            r.module_id@ == module_id@,
            r.correct == correct,
            r.total == total,
            r.passed == meets_threshold(correct as int, total as int, is_major),
    {
        let needed: u128 = if is_major {
            90 * (total as u128)
        } else {
            95 * (total as u128)
        };
        let passed = total > 0 && (correct as u128) * 100 >= needed;
        QuizResult { module_id: module_id.to_owned(), correct, total, passed }
    }

    /// The passing threshold in percent.
    pub fn passing_threshold(is_major: bool) -> (t: u64)
        ensures
            t == passing_percent(is_major),
    {
        if is_major {
            90
        } else {
            95
        }
    }

    /// Whether this result's score is strictly higher than `other`'s.
    pub fn has_higher_score_than(&self, other: &QuizResult) -> (r: bool)
        ensures
            r == score_exceeds(*self, *other),
    {
        if self.total == 0 {
            false
        } else if other.total == 0 {
            self.correct > 0
        } else {
            proof {
                lemma_word_product_fits(self.correct, other.total);
                lemma_word_product_fits(other.correct, self.total);
            }
            (self.correct as u128) * (other.total as u128) > (other.correct as u128) * (
            self.total as u128)
        }
    }

    /// A field-by-field copy.
    pub fn duplicate(&self) -> (r: QuizResult)
        ensures
            r == *self,
    {
        QuizResult {
            module_id: self.module_id.clone(),
            correct: self.correct,
            total: self.total,
            passed: self.passed,
        }
    }
}

/// The completed modules recorded in `results`, each module id mapped to its result;
/// a later entry for the same id replaces an earlier one.
pub open spec fn results_map(results: Seq<QuizResult>) -> Map<Seq<char>, QuizResult>
    decreases results.len(),
{
    if results.len() == 0 {
        Map::empty()
    } else {
        results_map(results.drop_last()).insert(results.last().module_id@, results.last())
    }
}

/// No two entries of `results` belong to the same module.
pub open spec fn unique_modules(results: Seq<QuizResult>) -> bool {
    forall|i: int, j: int|
        0 <= i < results.len() && 0 <= j < results.len() && i != j ==> results[i].module_id@
            != results[j].module_id@
}

/// A module id is recorded exactly when some entry carries it.
pub proof fn lemma_results_map_dom(results: Seq<QuizResult>, k: Seq<char>)
    ensures
        results_map(results).dom().contains(k) <==> exists|i: int|
            0 <= i < results.len() && #[trigger] results[i].module_id@ == k,
    decreases results.len(),
{
    if results.len() > 0 {
        let init = results.drop_last();
        lemma_results_map_dom(init, k);
        if results_map(results).dom().contains(k) && k != results.last().module_id@ {
            let i = choose|i: int| 0 <= i < init.len() && #[trigger] init[i].module_id@ == k;
            assert(results[i].module_id@ == k);
        }
        if exists|i: int| 0 <= i < results.len() && #[trigger] results[i].module_id@ == k {
            let i = choose|i: int| 0 <= i < results.len() && #[trigger] results[i].module_id@ == k;
            if i < init.len() {
                assert(init[i].module_id@ == k);
            }
        }
    }
}

/// With unique module ids, each entry is what the map holds for its module.
pub proof fn lemma_results_map_value(results: Seq<QuizResult>, i: int)
    requires
        unique_modules(results),
        0 <= i < results.len(),
    ensures
        results_map(results).dom().contains(results[i].module_id@),
        results_map(results)[results[i].module_id@] == results[i],
    decreases results.len(),
{
    let init = results.drop_last();
    if i < results.len() - 1 {
        assert(init[i] == results[i]);
        lemma_results_map_value(init, i);
    }
}

/// With unique module ids, the map has finitely many keys, one per entry.
pub proof fn lemma_results_map_len(results: Seq<QuizResult>)
    requires
        unique_modules(results),
    ensures
        results_map(results).dom().finite(),
        results_map(results).dom().len() == results.len(),
    decreases results.len(),
{
    if results.len() > 0 {
        let init = results.drop_last();
        lemma_results_map_len(init);
        lemma_results_map_dom(init, results.last().module_id@);
        if results_map(init).dom().contains(results.last().module_id@) {
            let i = choose|i: int|
                0 <= i < init.len() && #[trigger] init[i].module_id@ == results.last().module_id@;
            assert(results[i].module_id@ == results[results.len() - 1].module_id@);
        }
    }
}

/// Replacing an entry by a result for the same module replaces that module's value.
pub proof fn lemma_results_map_update(results: Seq<QuizResult>, i: int, r: QuizResult)
    requires
        unique_modules(results),
        0 <= i < results.len(),
        r.module_id@ == results[i].module_id@,
    ensures
        unique_modules(results.update(i, r)),
        results_map(results.update(i, r)) == results_map(results).insert(r.module_id@, r),
    decreases results.len(),
{
    let updated = results.update(i, r);
    assert(unique_modules(updated)) by {
        assert forall|a: int, b: int|
            0 <= a < updated.len() && 0 <= b < updated.len() && a != b implies updated[a].module_id@
            != updated[b].module_id@ by {
            assert(updated[a].module_id@ == results[a].module_id@);
            assert(updated[b].module_id@ == results[b].module_id@);
        }
    }
    let init = results.drop_last();
    if i == results.len() - 1 {
        assert(updated.drop_last() =~= init);
        lemma_results_map_dom(init, r.module_id@);
        assert(!results_map(init).dom().contains(r.module_id@)) by {
            if results_map(init).dom().contains(r.module_id@) {
                let j = choose|j: int| 0 <= j < init.len() && #[trigger] init[j].module_id@ == r.module_id@;
                assert(results[j].module_id@ == results[i].module_id@);
            }
        }
        assert(results_map(updated) =~= results_map(results).insert(r.module_id@, r));
    } else {
        assert(updated.drop_last() =~= init.update(i, r));
        assert(init[i] == results[i]);
        lemma_results_map_update(init, i, r);
        assert(results.last().module_id@ != r.module_id@);
        assert(results_map(updated) =~= results_map(results).insert(r.module_id@, r));
    }
}

/// The completed modules after an attempt `result` is recorded: a passed attempt
/// becomes its module's entry when the module had none or when it scores strictly
/// higher than the entry; otherwise nothing changes.
pub open spec fn after_record(completed: Map<Seq<char>, QuizResult>, result: QuizResult) -> Map<
    Seq<char>,
    QuizResult,
> {
    if result.passed && (!completed.dom().contains(result.module_id@) || score_exceeds(
        result,
        completed[result.module_id@],
    )) {
        completed.insert(result.module_id@, result)
    } else {
        completed
    }
}

/// A quiz answered entirely right passes, whatever its kind.
pub proof fn lemma_full_marks_pass(total: int, is_major: bool)
    requires
        total > 0,
    ensures
        meets_threshold(total, total, is_major),
{
}

/// A quiz without questions never passes.
pub proof fn lemma_empty_quiz_never_passes(correct: int, is_major: bool)
    ensures
        !meets_threshold(correct, 0, is_major),
{
}

/// A score that passes a module quiz also passes a major quiz.
pub proof fn lemma_major_threshold_is_lower(correct: int, total: int)
    requires
        meets_threshold(correct, total, false),
    ensures
        meets_threshold(correct, total, true),
{
}

/// A failed attempt leaves the completed modules as they were.
pub proof fn lemma_failed_attempt_changes_nothing(
    completed: Map<Seq<char>, QuizResult>,
    result: QuizResult,
)
    requires
        !result.passed,
    ensures
        after_record(completed, result) == completed,
{
}

/// A passed attempt leaves its module completed.
pub proof fn lemma_pass_completes_module(completed: Map<Seq<char>, QuizResult>, result: QuizResult)
    requires
        result.passed,
    ensures
        after_record(completed, result).dom().contains(result.module_id@),
{
}

/// Recording an attempt never removes a completed module, and never lowers the score
/// stored for any module.
pub proof fn lemma_record_keeps_best_scores(
    completed: Map<Seq<char>, QuizResult>,
    result: QuizResult,
    k: Seq<char>,
)
    requires
        completed.dom().contains(k),
    ensures
        after_record(completed, result).dom().contains(k),
        !score_exceeds(completed[k], after_record(completed, result)[k]),
{
}

/// Pass or fail is decided by the score alone: a quiz passes exactly when it has
/// questions and `correct / total` is at least 90% for a major quiz, 95% otherwise.
pub proof fn lemma_pass_iff_score_reaches_threshold(correct: int, total: int, is_major: bool)
    ensures
        meets_threshold(correct, total, is_major) <==> (total > 0 && correct * 100 >= (
        if is_major {
            90int
        } else {
            95int
        }) * total),
        passing_percent(true) == 90,
        passing_percent(false) == 95,
{
}

/// One question short of the threshold fails: a score below 90% never passes, and a
/// module quiz below 95% never passes.
pub proof fn lemma_below_threshold_fails(correct: int, total: int, is_major: bool)
    requires
        total > 0,
        correct * 100 < (if is_major {
            90int
        } else {
            95int
        }) * total,
    ensures
        !meets_threshold(correct, total, is_major),
{
}

/// For two results with questions, one scores strictly higher than the other exactly
/// when its fraction of right answers is larger: `a.correct / a.total > b.correct / b.total`.
/// A result without questions scores zero: it never beats anything, and anything with a
/// right answer beats it.
pub proof fn lemma_score_order_is_fraction_order(a: QuizResult, b: QuizResult)
    ensures
        a.total > 0 && b.total > 0 ==> (score_exceeds(a, b) <==> a.correct * b.total > b.correct
            * a.total),
        a.total == 0 ==> !score_exceeds(a, b),
        a.total > 0 && b.total == 0 ==> (score_exceeds(a, b) <==> a.correct > 0),
{
}

/// The first passed attempt at a module is stored exactly as it was made.
pub proof fn lemma_first_pass_stored_as_is(completed: Map<Seq<char>, QuizResult>, result: QuizResult)
    requires
        result.passed,
        !completed.dom().contains(result.module_id@),
    ensures
        after_record(completed, result).dom().contains(result.module_id@),
        after_record(completed, result)[result.module_id@] == result,
{
}

/// A passed retake whose fraction of right answers is strictly larger than the stored
/// result's replaces the stored result.
pub proof fn lemma_better_retake_replaces(completed: Map<Seq<char>, QuizResult>, result: QuizResult)
    requires
        result.passed,
        completed.dom().contains(result.module_id@),
        result.total > 0,
        completed[result.module_id@].total > 0,
        result.correct * completed[result.module_id@].total > completed[result.module_id@].correct
            * result.total,
    ensures
        after_record(completed, result) == completed.insert(result.module_id@, result),
{
}

/// A retake whose fraction of right answers is not larger than the stored result's
/// leaves the stored results unchanged.
pub proof fn lemma_no_better_retake_keeps(completed: Map<Seq<char>, QuizResult>, result: QuizResult)
    requires
        completed.dom().contains(result.module_id@),
        completed[result.module_id@].total > 0,
        result.correct * completed[result.module_id@].total <= completed[result.module_id@].correct
            * result.total,
    ensures
        after_record(completed, result) == completed,
{
}

/// Recording an attempt touches at most the attempt's own module, and what that module
/// then holds is either what it held before or the attempt itself.
pub proof fn lemma_record_touches_only_its_module(
    completed: Map<Seq<char>, QuizResult>,
    result: QuizResult,
    k: Seq<char>,
)
    ensures
        k != result.module_id@ ==> (after_record(completed, result).dom().contains(k)
            <==> completed.dom().contains(k)),
        k != result.module_id@ && completed.dom().contains(k) ==> after_record(completed, result)[k]
            == completed[k],
        after_record(completed, result).dom().contains(k) ==> (after_record(completed, result)[k]
            == result || (completed.dom().contains(k) && after_record(completed, result)[k]
            == completed[k])),
{
}

/// What a progress record holds, as mathematical values.
pub struct ProgressView {
    /// The learner's name.
    pub username: Seq<char>,
    /// Each passed module's id mapped to its best result.
    pub completed: Map<Seq<char>, QuizResult>,
    /// The module the learner should work on next ("complete" at the end).
    pub current_module_id: Seq<char>,
    /// Number of quiz attempts over all modules.
    pub total_attempts: nat,
}

/// A learner's progress: passed modules with their best results, and attempt count.
pub struct UserProgress {
    username: String,
    completed: Vec<QuizResult>,
    current_module_id: String,
    total_attempts: u32,
}

impl View for UserProgress {
    type V = ProgressView;

    closed spec fn view(&self) -> ProgressView {
        ProgressView {
            username: self.username@,
            completed: results_map(self.completed@),
            current_module_id: self.current_module_id@,
            total_attempts: self.total_attempts as nat,
        }
    }
}

impl UserProgress {
    /// The record is consistent: at most one stored result per module.
    pub closed spec fn wf(&self) -> bool {
        unique_modules(self.completed@)
    }

    /// A fresh record: nothing passed, starting at module "01", no attempts.
    pub fn new(username: &str) -> (p: Self)
        ensures
            p.wf(),
            p@.username == username@,
            p@.completed == Map::<Seq<char>, QuizResult>::empty(),
            p@.current_module_id == seq!['0', '1'],
            p@.total_attempts == 0,
    {
        let start = "01";
        proof {
            reveal_strlit("01");
            assert(start@ =~= seq!['0', '1']);
        }
        UserProgress {
            username: username.to_owned(),
            completed: Vec::new(),
            current_module_id: start.to_owned(),
            total_attempts: 0,
        }
    }

    /// The index of the stored result for `module_id`, if any.
    fn position_of(&self, module_id: &str) -> (r: Option<usize>)
        requires
            self.wf(),
        ensures
            match r {
                Some(i) => i < self.completed@.len() && self.completed@[i as int].module_id@
                    == module_id@,
                None => !self@.completed.dom().contains(module_id@),
            },
    {
        let key: String = module_id.to_owned();
        let n = self.completed.len();
        for i in 0..n
            invariant
                n == self.completed@.len(),
                key@ == module_id@,
                forall|j: int| 0 <= j < i ==> self.completed@[j].module_id@ != module_id@,
        {
            if self.completed[i].module_id == key {
                return Some(i);
            }
        }
        proof {
            lemma_results_map_dom(self.completed@, module_id@);
        }
        None
    }

    /// Whether the learner has passed `module_id`.
    pub fn is_completed(&self, module_id: &str) -> (r: bool)
        requires
            self.wf(),
        ensures
            r == self@.completed.dom().contains(module_id@),
    {
        match self.position_of(module_id) {
            Some(i) => {
                proof {
                    lemma_results_map_value(self.completed@, i as int);
                }
                true
            },
            None => false,
        }
    }

    /// The best passing result stored for `module_id`, if any.
    pub fn completed_result(&self, module_id: &str) -> (r: Option<&QuizResult>)
        requires
            self.wf(),
        ensures
            match r {
                Some(res) => self@.completed.dom().contains(module_id@) && *res
                    == self@.completed[module_id@],
                None => !self@.completed.dom().contains(module_id@),
            },
    {
        match self.position_of(module_id) {
            Some(i) => {
                proof {
                    lemma_results_map_value(self.completed@, i as int);
                }
                Some(&self.completed[i])
            },
            None => None,
        }
    }

    /// Records a quiz attempt. A passed attempt becomes the module's stored result when
    /// the module had none or when it scores strictly higher than the stored one.
    pub fn record_result(&mut self, result: &QuizResult)
        requires
            old(self).wf(),
            old(self)@.total_attempts < u32::MAX,
        ensures
            final(self).wf(),
            final(self)@.username == old(self)@.username,
            final(self)@.current_module_id == old(self)@.current_module_id,
            final(self)@.total_attempts == old(self)@.total_attempts + 1,
            final(self)@.completed == after_record(old(self)@.completed, *result),
    {
        self.total_attempts = self.total_attempts + 1;
        if result.passed {
            match self.position_of(result.module_id.as_str()) {
                Some(i) => {
                    proof {
                        lemma_results_map_value(self.completed@, i as int);
                    }
                    if result.has_higher_score_than(&self.completed[i]) {
                        let copy = result.duplicate();
                        proof {
                            lemma_results_map_update(self.completed@, i as int, copy);
                        }
                        self.completed.set(i, copy);
                    }
                },
                None => {
                    let copy = result.duplicate();
                    proof {
                        lemma_results_map_dom(self.completed@, copy.module_id@);
                    }
                    self.completed.push(copy);
                    proof {
                        let s = self.completed@;
                        assert(s.drop_last() =~= old(self).completed@);
                        assert forall|a: int, b: int|
                            0 <= a < s.len() && 0 <= b < s.len() && a != b implies s[a].module_id@
                            != s[b].module_id@ by {
                            if a == s.len() - 1 {
                                assert(old(self).completed@[b].module_id@ == s[b].module_id@);
                            } else if b == s.len() - 1 {
                                assert(old(self).completed@[a].module_id@ == s[a].module_id@);
                            }
                        }
                    }
                },
            }
        }
    }

    /// Rebuilds a record from stored parts; `None` when two results name the same module.
    pub fn restore(
        username: String,
        results: Vec<QuizResult>,
        current_module_id: String,
        total_attempts: u32,
    ) -> (r: Option<UserProgress>)
        ensures
            r is Some <==> unique_modules(results@),
            r matches Some(p) ==> p.wf() && p@.username == username@ && p@.completed
                == results_map(results@) && p@.current_module_id == current_module_id@
                && p@.total_attempts == total_attempts,
    {
        let n = results.len();
        for i in 0..n
            invariant
                n == results@.len(),
                forall|a: int, b: int|
                    0 <= a < i && 0 <= b < n && a != b ==> results@[a].module_id@
                        != results@[b].module_id@,
        {
            for j in 0..n
                invariant
                    n == results@.len(),
                    i < n,
                    forall|a: int, b: int|
                        0 <= a < i && 0 <= b < n && a != b ==> results@[a].module_id@
                            != results@[b].module_id@,
                    forall|b: int|
                        0 <= b < j && b != i ==> results@[i as int].module_id@
                            != results@[b].module_id@,
            {
                if j != i && results[i].module_id == results[j].module_id {
                    return None;
                }
            }
        }
        Some(UserProgress { username, completed: results, current_module_id, total_attempts })
    }

    /// The learner's name.
    pub fn username(&self) -> (r: &String)
        ensures
            r@ == self@.username,
    {
        &self.username
    }

    /// The module the learner should work on next.
    pub fn current_module_id(&self) -> (r: &String)
        ensures
            r@ == self@.current_module_id,
    {
        &self.current_module_id
    }

    /// Sets the module the learner should work on next.
    pub fn set_current_module_id(&mut self, module_id: &str)
        ensures
            final(self)@ == (ProgressView { current_module_id: module_id@, ..old(self)@ }),
            final(self).wf() == old(self).wf(),
    {
        self.current_module_id = module_id.to_owned();
    }

    /// Number of quiz attempts over all modules.
    pub fn total_attempts(&self) -> (r: u32)
        ensures
            r == self@.total_attempts,
    {
        self.total_attempts
    }

    /// The stored results, one per passed module, in no particular order.
    pub fn completed_results(&self) -> (r: &Vec<QuizResult>)
        requires
            self.wf(),
        ensures
            unique_modules(r@),
            results_map(r@) == self@.completed,
    {
        &self.completed
    }

    /// Number of distinct modules the learner has passed.
    pub fn modules_passed(&self) -> (n: usize)
        requires
            self.wf(),
        ensures
            self@.completed.dom().finite(),
            n == self@.completed.dom().len(),
    {
        proof {
            lemma_results_map_len(self.completed@);
        }
        self.completed.len()
    }
}

} // verus!

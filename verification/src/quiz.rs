//! Grading of a quiz: which choice was picked, whether it was right, and the result.

use vstd::prelude::*;
use crate::models::{Module, Question, QuizResult, meets_threshold};

verus! {

/// How many of the questions were answered with their right choice.
pub open spec fn correct_answers(questions: Seq<Question>, selections: Seq<usize>) -> nat
    decreases questions.len(),
{
    if questions.len() == 0 || selections.len() == 0 {
        0
    } else {
        correct_answers(questions.drop_last(), selections.drop_last()) + if selections.last()
            == questions.last().correct {
            1nat
        } else {
            0nat
        }
    }
}

/// Answering every question with its right choice counts every question.
pub proof fn lemma_all_right_counts_all(questions: Seq<Question>, selections: Seq<usize>)
    requires
        selections.len() == questions.len(),
        forall|i: int| 0 <= i < questions.len() ==> selections[i] == #[trigger] questions[i].correct,
    ensures
        correct_answers(questions, selections) == questions.len(),
    decreases questions.len(),
{
    if questions.len() > 0 {
        let qs = questions.drop_last();
        let ss = selections.drop_last();
        assert forall|i: int| 0 <= i < qs.len() implies ss[i] == #[trigger] qs[i].correct by {
            assert(selections[i] == questions[i].correct);
        }
        lemma_all_right_counts_all(qs, ss);
        assert(selections.last() == questions[questions.len() - 1].correct);
    }
}

/// Answering every question with a wrong choice counts nothing.
pub proof fn lemma_all_wrong_counts_none(questions: Seq<Question>, selections: Seq<usize>)
    requires
        selections.len() == questions.len(),
        forall|i: int| 0 <= i < questions.len() ==> selections[i] != #[trigger] questions[i].correct,
    ensures
        correct_answers(questions, selections) == 0,
    decreases questions.len(),
{
    if questions.len() > 0 {
        let qs = questions.drop_last();
        let ss = selections.drop_last();
        assert forall|i: int| 0 <= i < qs.len() implies ss[i] != #[trigger] qs[i].correct by {
            assert(selections[i] != questions[i].correct);
        }
        lemma_all_wrong_counts_none(qs, ss);
        assert(selections.last() != questions[questions.len() - 1].correct);
    }
}

/// Changing the answer to any one question (the first included) from its right choice
/// to a wrong one lowers the count by exactly one.
pub proof fn lemma_one_wrong_answer_counts_one_less(
    questions: Seq<Question>,
    selections: Seq<usize>,
    i: int,
    wrong: usize,
)
    requires
        selections.len() == questions.len(),
        0 <= i < questions.len(),
        selections[i] == questions[i].correct,
        wrong != questions[i].correct,
    ensures
        correct_answers(questions, selections.update(i, wrong)) + 1 == correct_answers(
            questions,
            selections,
        ),
    decreases questions.len(),
{
    let changed = selections.update(i, wrong);
    if i == questions.len() - 1 {
        assert(changed.drop_last() =~= selections.drop_last());
    } else {
        assert(changed.drop_last() =~= selections.drop_last().update(i, wrong));
        lemma_one_wrong_answer_counts_one_less(
            questions.drop_last(),
            selections.drop_last(),
            i,
            wrong,
        );
    }
}

/// The count never exceeds the number of questions.
pub proof fn lemma_count_at_most_questions(questions: Seq<Question>, selections: Seq<usize>)
    ensures
        correct_answers(questions, selections) <= questions.len(),
    decreases questions.len(),
{
    if questions.len() > 0 && selections.len() > 0 {
        lemma_count_at_most_questions(questions.drop_last(), selections.drop_last());
    }
}

/// The index of the choice whose label is `selection`: the first label equal to it,
/// or 0 when no label matches.
pub fn selected_index(labels: &Vec<String>, selection: &String) -> (r: usize)
    ensures
        (r < labels@.len() && labels@[r as int]@ == selection@ && forall|j: int|
            0 <= j < r ==> labels@[j]@ != selection@) || (r == 0 && forall|j: int|
            0 <= j < labels@.len() ==> labels@[j]@ != selection@),
{
    let n = labels.len();
    for i in 0..n
        invariant
            n == labels@.len(),
            forall|j: int| 0 <= j < i ==> labels@[j]@ != selection@,
    {
        if labels[i] == *selection {
            return i;
        }
    }
    0
}

/// Whether the choice at `selected` is the question's right answer.
pub fn answer_is_correct(question: &Question, selected: usize) -> (r: bool)
    ensures
        r == (selected == question.correct),
{
    selected == question.correct
}

/// The letter that labels the choice at `index`: 'A' for the first, 'B' for the next,
/// counting with the index taken modulo 256.
pub fn option_letter(index: usize) -> (c: char)
    requires
        index % 256 < 191,
    ensures
        c as int == 65 + index % 256,
{
    let low: u8 = (index % 256) as u8;
    let code: u8 = 65 + low;
    code as char
}

/// The result of a quiz in which `selections[i]` is the choice picked for question `i`.
pub fn grade_quiz(module: &Module, selections: &Vec<usize>) -> (r: QuizResult)
    requires
        selections@.len() == module.questions@.len(),
    ensures
        r.module_id@ == module.id@,
        r.correct == correct_answers(module.questions@, selections@),
        r.total == module.questions@.len(),
        r.passed == meets_threshold(
            correct_answers(module.questions@, selections@) as int,
            module.questions@.len() as int,
            module.is_major_quiz,
        ),
{
    let total = module.questions.len();
    let mut correct_count: usize = 0;
    for i in 0..total
        invariant
            total == module.questions@.len(),
            selections@.len() == total,
            correct_count == correct_answers(
                module.questions@.take(i as int),
                selections@.take(i as int),
            ),
            correct_count <= i,
    {
        proof {
            let qs = module.questions@.take(i + 1);
            let ss = selections@.take(i + 1);
            assert(qs.drop_last() =~= module.questions@.take(i as int));
            assert(ss.drop_last() =~= selections@.take(i as int));
        }
        if answer_is_correct(&module.questions[i], selections[i]) {
            correct_count = correct_count + 1;
        }
    }
    proof {
        assert(module.questions@.take(total as int) =~= module.questions@);
        assert(selections@.take(total as int) =~= selections@);
    }
    QuizResult::new(module.id.as_str(), correct_count, total, module.is_major_quiz)
}

} // verus!

use sql_teacher::models::{Module, Question, UserProgress, QuizResult};
use sql_teacher::quiz::{answer_is_correct, grade_quiz, option_letter, selected_index};
use sql_teacher::ui::{menu_choice_for, module_choice, module_status, progress_bar_cells, MenuChoice, ModuleStatus};

fn question(correct: usize) -> Question {
    Question {
        question: "Q?".to_string(),
        options: vec!["a".to_string(), "b".to_string(), "c".to_string(), "d".to_string()],
        correct,
        explanation: String::new(),
    }
}

fn quiz(n: usize, is_major: bool) -> Module {
    Module {
        id: "07".to_string(),
        title: "T".to_string(),
        lesson: String::new(),
        is_major_quiz: is_major,
        questions: (0..n).map(|i| question(i % 4)).collect(),
    }
}

#[test]
fn selected_index_finds_first_equal_label() {
    let labels = vec!["A. x".to_string(), "B. y".to_string(), "B. y".to_string()];
    assert_eq!(selected_index(&labels, &"B. y".to_string()), 1);
    assert_eq!(selected_index(&labels, &"A. x".to_string()), 0);
    assert_eq!(selected_index(&labels, &"Z".to_string()), 0);
}

#[test]
fn answers_and_letters() {
    assert!(answer_is_correct(&question(2), 2));
    assert!(!answer_is_correct(&question(2), 1));
    assert_eq!(option_letter(0), 'A');
    assert_eq!(option_letter(3), 'D');
    assert_eq!(option_letter(25), 'Z');
    assert_eq!(option_letter(256), 'A');
}

#[test]
fn grading_counts_right_answers() {
    let m = quiz(20, false);
    let all_right: Vec<usize> = (0..20).map(|i| i % 4).collect();
    let r = grade_quiz(&m, &all_right);
    assert_eq!((r.correct, r.total, r.passed), (20, 20, true));
    assert_eq!(r.module_id, "07");
    let mut one_wrong = all_right.clone();
    one_wrong[3] = 0;
    let r = grade_quiz(&m, &one_wrong);
    assert_eq!((r.correct, r.passed), (19, true));
    one_wrong[4] = 3;
    let r = grade_quiz(&m, &one_wrong);
    assert_eq!((r.correct, r.passed), (18, false));
    let r = grade_quiz(&quiz(20, true), &one_wrong);
    assert_eq!((r.correct, r.passed), (18, true));
    let r = grade_quiz(&quiz(0, false), &Vec::new());
    assert_eq!((r.correct, r.total, r.passed), (0, 0, false));
}

#[test]
fn menu_labels_map_to_actions() {
    assert_eq!(menu_choice_for("📖  Next Lesson"), MenuChoice::NextLesson);
    assert_eq!(menu_choice_for("🎓  Review Lessons (Complete!)"), MenuChoice::NextLesson);
    assert_eq!(menu_choice_for("📊  View Progress"), MenuChoice::ViewProgress);
    assert_eq!(menu_choice_for("📂  Select Module"), MenuChoice::SelectModule);
    assert_eq!(menu_choice_for("🔄  Reset Progress"), MenuChoice::ResetProgress);
    assert_eq!(menu_choice_for("🚪  Quit"), MenuChoice::Quit);
    assert_eq!(menu_choice_for("anything else"), MenuChoice::Quit);
}

#[test]
fn statuses_follow_the_gate() {
    let mut p = UserProgress::new("a");
    p.record_result(&QuizResult::new("01", 10, 10, false));
    assert_eq!(module_status(&p, "01"), ModuleStatus::Completed);
    assert_eq!(module_status(&p, "02"), ModuleStatus::Available);
    assert_eq!(module_status(&p, "03"), ModuleStatus::Locked);
}

#[test]
fn progress_bar_splits_thirty_cells() {
    assert_eq!(progress_bar_cells(0, 10), (0, 30));
    assert_eq!(progress_bar_cells(3, 10), (9, 21));
    assert_eq!(progress_bar_cells(10, 10), (30, 0));
    assert_eq!(progress_bar_cells(1, 3), (10, 20));
    assert_eq!(progress_bar_cells(5, 0), (0, 30));
}

#[test]
fn module_choice_pairs_labels_with_ids() {
    let ids = vec!["01", "02"];
    let labels = vec!["✅ [01] A".to_string(), "🔓 [02] B".to_string()];
    assert_eq!(module_choice(&ids, &labels, "🔓 [02] B"), Some("02".to_string()));
    assert_eq!(module_choice(&ids, &labels, "✅ [01] A"), Some("01".to_string()));
    assert_eq!(module_choice(&ids, &labels, "← Back to menu"), None);
    assert_eq!(module_choice(&ids, &labels, "nothing"), None);
}

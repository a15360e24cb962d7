use sql_teacher::gate::apply_quiz_result;
use sql_teacher::models::{QuizResult, UserProgress};

#[test]
fn module_quiz_needs_ninety_five_percent() {
    assert!(QuizResult::new("01", 19, 20, false).passed);
    assert!(!QuizResult::new("01", 18, 20, false).passed);
    assert!(QuizResult::new("01", 20, 20, false).passed);
}

#[test]
fn major_quiz_needs_ninety_percent() {
    assert!(QuizResult::new("05_major", 18, 20, true).passed);
    assert!(QuizResult::new("05_major", 9, 10, true).passed);
    assert!(!QuizResult::new("05_major", 17, 20, true).passed);
}

#[test]
fn empty_quiz_never_passes() {
    assert!(!QuizResult::new("01", 0, 0, false).passed);
    assert!(!QuizResult::new("05_major", 0, 0, true).passed);
}

#[test]
fn result_keeps_its_inputs() {
    let r = QuizResult::new("07", 3, 4, false);
    assert_eq!(r.module_id, "07");
    assert_eq!(r.correct, 3);
    assert_eq!(r.total, 4);
}

#[test]
fn passing_thresholds() {
    assert_eq!(QuizResult::passing_threshold(true), 90);
    assert_eq!(QuizResult::passing_threshold(false), 95);
}

#[test]
fn scores_compare_as_fractions() {
    let a = QuizResult::new("01", 19, 20, false);
    let b = QuizResult::new("01", 20, 20, false);
    let c = QuizResult::new("01", 38, 40, false);
    let empty = QuizResult::new("01", 0, 0, false);
    assert!(b.has_higher_score_than(&a));
    assert!(!a.has_higher_score_than(&b));
    assert!(!a.has_higher_score_than(&c));
    assert!(!c.has_higher_score_than(&a));
    assert!(a.has_higher_score_than(&empty));
    assert!(!empty.has_higher_score_than(&a));
}

#[test]
fn new_progress_starts_at_first_module() {
    let p = UserProgress::new("ada");
    assert_eq!(p.username(), "ada");
    assert_eq!(p.current_module_id(), "01");
    assert_eq!(p.total_attempts(), 0);
    assert_eq!(p.modules_passed(), 0);
    assert!(!p.is_completed("01"));
}

#[test]
fn failed_attempt_only_counts_the_attempt() {
    let mut p = UserProgress::new("ada");
    p.record_result(&QuizResult::new("01", 5, 10, false));
    assert_eq!(p.total_attempts(), 1);
    assert_eq!(p.modules_passed(), 0);
    assert!(p.completed_result("01").is_none());
}

#[test]
fn best_score_is_kept() {
    let mut p = UserProgress::new("ada");
    p.record_result(&QuizResult::new("01", 19, 20, false));
    p.record_result(&QuizResult::new("01", 20, 20, false));
    assert_eq!(p.completed_result("01").unwrap().correct, 20);
    // A lower passing score does not replace the stored one.
    p.record_result(&QuizResult::new("01", 39, 40, false));
    assert_eq!(p.completed_result("01").unwrap().correct, 20);
    // An equal score does not replace it either.
    p.record_result(&QuizResult::new("01", 40, 40, false));
    assert_eq!(p.completed_result("01").unwrap().total, 20);
    assert_eq!(p.total_attempts(), 4);
    assert_eq!(p.modules_passed(), 1);
}

#[test]
fn results_outside_the_curriculum_are_recorded() {
    let mut p = UserProgress::new("ada");
    p.record_result(&QuizResult::new("bonus", 1, 1, false));
    assert!(p.is_completed("bonus"));
    assert_eq!(p.modules_passed(), 1);
}

#[test]
fn restore_rejects_duplicate_modules() {
    let twice = vec![QuizResult::new("01", 1, 1, false), QuizResult::new("01", 2, 2, false)];
    assert!(UserProgress::restore("a".to_string(), twice, "02".to_string(), 2).is_none());
    let ok = vec![QuizResult::new("01", 1, 1, false), QuizResult::new("02", 2, 2, false)];
    let p = UserProgress::restore("a".to_string(), ok, "03".to_string(), 5).unwrap();
    assert_eq!(p.modules_passed(), 2);
    assert_eq!(p.total_attempts(), 5);
    assert_eq!(p.current_module_id(), "03");
    assert_eq!(p.completed_results().len(), 2);
}

#[test]
fn duplicate_copies_every_field() {
    let r = QuizResult::new("09", 7, 8, false);
    let d = r.duplicate();
    assert_eq!(d.module_id, "09");
    assert_eq!((d.correct, d.total, d.passed), (7, 8, false));
}

#[test]
fn set_current_module_id_changes_only_it() {
    let mut p = UserProgress::new("ada");
    p.set_current_module_id("04");
    assert_eq!(p.current_module_id(), "04");
    assert_eq!(p.username(), "ada");
}

#[test]
fn passing_moves_the_learner_on() {
    let mut p = UserProgress::new("ada");
    apply_quiz_result(&mut p, &QuizResult::new("01", 10, 10, false));
    assert_eq!(p.current_module_id(), "02");
    apply_quiz_result(&mut p, &QuizResult::new("02", 1, 10, false));
    assert_eq!(p.current_module_id(), "02");
    assert_eq!(p.total_attempts(), 2);
}

#[test]
fn passing_the_last_module_marks_completion() {
    let mut p = UserProgress::new("ada");
    for id in ["01", "02", "03", "04", "05_major", "06", "07", "08", "09"] {
        apply_quiz_result(&mut p, &QuizResult::new(id, 10, 10, id.contains("major")));
    }
    assert_eq!(p.current_module_id(), "10_major");
    apply_quiz_result(&mut p, &QuizResult::new("10_major", 9, 10, true));
    assert_eq!(p.current_module_id(), "complete");
}

#[test]
fn reviewing_an_earlier_module_points_back_to_the_first_gap() {
    let mut p = UserProgress::new("ada");
    apply_quiz_result(&mut p, &QuizResult::new("03", 10, 10, false));
    assert_eq!(p.current_module_id(), "01");
}

#[test]
fn a_record_restored_from_its_parts_behaves_the_same() {
    let mut p = UserProgress::new("ada");
    apply_quiz_result(&mut p, &QuizResult::new("01", 10, 10, false));
    apply_quiz_result(&mut p, &QuizResult::new("02", 3, 10, false));
    let parts: Vec<QuizResult> = p.completed_results().iter().map(|r| r.duplicate()).collect();
    let q = UserProgress::restore(p.username().clone(), parts, p.current_module_id().clone(), p.total_attempts())
        .unwrap();
    assert_eq!(q.username(), "ada");
    assert_eq!(q.current_module_id(), "02");
    assert_eq!(q.total_attempts(), 2);
    assert!(q.is_completed("01"));
    assert!(!q.is_completed("02"));
    assert_eq!(q.modules_passed(), p.modules_passed());
}

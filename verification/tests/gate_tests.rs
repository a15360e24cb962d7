use sql_teacher::gate::{
    is_curriculum_complete, is_major_milestone, is_module_unlocked, next_module_id,
    progress_fraction, unlocked_modules,
};
use sql_teacher::models::{QuizResult, UserProgress};

fn make_progress_with(completed: &[&str]) -> UserProgress {
    let mut p = UserProgress::new("tester");
    for &id in completed {
        let is_major = is_major_milestone(id);
        let result = QuizResult::new(id, 10, 10, is_major);
        p.record_result(&result);
    }
    p
}

#[test]
fn test_first_module_always_unlocked() {
    let progress = UserProgress::new("newbie");
    assert!(is_module_unlocked(&progress, "01"));
}

#[test]
fn test_second_module_locked_without_first() {
    let progress = UserProgress::new("newbie");
    assert!(!is_module_unlocked(&progress, "02"));
}

#[test]
fn test_second_module_unlocked_after_first() {
    let progress = make_progress_with(&["01"]);
    assert!(is_module_unlocked(&progress, "02"));
}

#[test]
fn test_major_quiz_gates_next_section() {
    // Completed 01–04 but NOT the major quiz 05
    let progress = make_progress_with(&["01", "02", "03", "04"]);
    assert!(is_module_unlocked(&progress, "05_major"));
    assert!(!is_module_unlocked(&progress, "06"));
}

#[test]
fn test_major_quiz_passed_unlocks_next() {
    let progress = make_progress_with(&["01", "02", "03", "04", "05_major"]);
    assert!(is_module_unlocked(&progress, "06"));
}

#[test]
fn test_next_module_id_new_user() {
    let progress = UserProgress::new("newbie");
    assert_eq!(next_module_id(&progress), Some("01"));
}

#[test]
fn test_next_module_after_partial() {
    let progress = make_progress_with(&["01", "02"]);
    assert_eq!(next_module_id(&progress), Some("03"));
}

#[test]
fn test_curriculum_complete() {
    let progress = make_progress_with(&[
        "01", "02", "03", "04", "05_major", "06", "07", "08", "09", "10_major",
    ]);
    assert!(is_curriculum_complete(&progress));
    assert_eq!(next_module_id(&progress), None);
}

#[test]
fn test_progress_fraction() {
    let progress = make_progress_with(&["01", "02", "03"]);
    let (done, total) = progress_fraction(&progress);
    assert_eq!(done, 3);
    assert_eq!(total, 10);
}

#[test]
fn unknown_module_is_never_unlocked() {
    let progress = make_progress_with(&["01", "02", "03", "04", "05_major", "06", "07", "08", "09", "10_major"]);
    assert!(!is_module_unlocked(&progress, "11"));
    assert!(!is_module_unlocked(&progress, ""));
}

#[test]
fn unlocked_modules_form_a_leading_run() {
    let fresh = UserProgress::new("a");
    assert_eq!(unlocked_modules(&fresh), vec!["01"]);
    let progress = make_progress_with(&["01", "02"]);
    assert_eq!(unlocked_modules(&progress), vec!["01", "02", "03"]);
    let all = make_progress_with(&["01", "02", "03", "04", "05_major", "06", "07", "08", "09", "10_major"]);
    assert_eq!(unlocked_modules(&all).len(), 10);
}

#[test]
fn out_of_order_pass_does_not_open_later_modules() {
    // "03" passed without "02": "04" stays locked, "02" is next.
    let progress = make_progress_with(&["01", "03"]);
    assert!(!is_module_unlocked(&progress, "04"));
    assert_eq!(next_module_id(&progress), Some("02"));
    assert_eq!(unlocked_modules(&progress), vec!["01", "02"]);
    assert_eq!(progress_fraction(&progress), (2, 10));
}

#[test]
fn unlocked_module_stays_unlocked_after_a_failed_attempt() {
    let mut progress = make_progress_with(&["01"]);
    assert!(is_module_unlocked(&progress, "02"));
    progress.record_result(&QuizResult::new("02", 1, 10, false));
    assert!(is_module_unlocked(&progress, "02"));
    assert_eq!(progress.total_attempts(), 2);
}

#[test]
fn major_milestones_are_named_by_major() {
    assert!(is_major_milestone("05_major"));
    assert!(is_major_milestone("10_major"));
    assert!(!is_major_milestone("05"));
    assert!(!is_major_milestone("majo"));
    assert!(is_major_milestone("major"));
}

#[test]
fn complete_curriculum_counts_all_modules() {
    let all = make_progress_with(&["01", "02", "03", "04", "05_major", "06", "07", "08", "09", "10_major"]);
    assert_eq!(progress_fraction(&all), (10, 10));
    let fresh = UserProgress::new("a");
    assert!(!is_curriculum_complete(&fresh));
    assert_eq!(progress_fraction(&fresh), (0, 10));
}

#[test]
fn next_module_is_always_unlocked() {
    for done in [&[][..], &["01"][..], &["01", "02", "03", "04"][..], &["01", "03"][..]] {
        let progress = make_progress_with(done);
        let next = next_module_id(&progress).unwrap();
        assert!(is_module_unlocked(&progress, next));
    }
}

#[test]
fn new_pass_adds_one_to_the_count_and_repeats_add_none() {
    let mut progress = make_progress_with(&["01", "02"]);
    assert_eq!(progress_fraction(&progress), (2, 10));
    progress.record_result(&QuizResult::new("03", 10, 10, false));
    assert_eq!(progress_fraction(&progress), (3, 10));
    progress.record_result(&QuizResult::new("03", 10, 10, false));
    assert_eq!(progress_fraction(&progress), (3, 10));
    progress.record_result(&QuizResult::new("bonus", 10, 10, false));
    assert_eq!(progress_fraction(&progress), (3, 10));
}

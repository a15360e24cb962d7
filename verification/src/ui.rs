//! The decisions behind the terminal screens: menu choices, module states, the
//! progress bar, and module selection.

use vstd::prelude::*;
use crate::gate::{is_module_unlocked, unlocked};
use crate::models::UserProgress;
use crate::text::{text_contains, occurs_in};

verus! {

/// The actions offered by the main menu.
#[derive(Debug, PartialEq, Eq, Structural, Clone, Copy)]
pub enum MenuChoice {
    NextLesson,
    ViewProgress,
    SelectModule,
    ResetProgress,
    Quit,
}

/// How a module appears in the progress overview.
#[derive(Debug, PartialEq, Eq, Structural, Clone, Copy)]
pub enum ModuleStatus {
    /// Passed.
    Completed,
    /// Open but not yet passed.
    Available,
    /// Not yet open.
    Locked,
}

/// The action a menu label stands for, by the words it contains.
pub open spec fn menu_choice_of(label: Seq<char>) -> MenuChoice {
    if occurs_in(label, "Next Lesson"@) || occurs_in(label, "Review Lessons"@) {
        MenuChoice::NextLesson
    } else if occurs_in(label, "View Progress"@) {
        MenuChoice::ViewProgress
    } else if occurs_in(label, "Select Module"@) {
        MenuChoice::SelectModule
    } else if occurs_in(label, "Reset"@) {
        MenuChoice::ResetProgress
    } else {
        MenuChoice::Quit
    }
}

/// Width of the progress bar, in cells.
pub open spec fn bar_width() -> int {
    30
}

/// Maps the label the learner picked in the main menu to its action.
pub fn menu_choice_for(label: &str) -> (c: MenuChoice)
    ensures
        c == menu_choice_of(label@),
{
    if text_contains(label, "Next Lesson") || text_contains(label, "Review Lessons") {
        MenuChoice::NextLesson
    } else if text_contains(label, "View Progress") {
        MenuChoice::ViewProgress
    } else if text_contains(label, "Select Module") {
        MenuChoice::SelectModule
    } else if text_contains(label, "Reset") {
        MenuChoice::ResetProgress
    } else {
        MenuChoice::Quit
    }
}

/// How `module_id` shows in the progress overview: passed, open, or locked.
pub fn module_status(progress: &UserProgress, module_id: &str) -> (s: ModuleStatus)
    requires
        progress.wf(),
    ensures
        s == if progress@.completed.dom().contains(module_id@) {
            ModuleStatus::Completed
        } else if unlocked(progress@.completed.dom(), module_id@) {
            ModuleStatus::Available
        } else {
            ModuleStatus::Locked
        },
{
    if progress.is_completed(module_id) {
        ModuleStatus::Completed
    } else if is_module_unlocked(progress, module_id) {
        ModuleStatus::Available
    } else {
        ModuleStatus::Locked
    }
}

/// The filled and empty cells of a 30-cell bar showing `done` out of `total`:
/// `done * 30 / total` filled (none when `total` is zero), the rest empty.
pub fn progress_bar_cells(done: usize, total: usize) -> (cells: (usize, usize))
    requires
        done * 30 <= usize::MAX,
        total > 0 ==> (done * 30) / (total as int) <= bar_width(),
    ensures
        cells.0 == if total > 0 {
            (done * 30) / (total as int)
        } else {
            0
        },
        cells.0 + cells.1 == bar_width(),
{
    let filled: usize = if total > 0 {
        (done * 30) / total
    } else {
        0
    };
    (filled, 30 - filled)
}

/// The module the learner picked in the module selector: `None` when the label asks to
/// go back to the menu, else the id paired with the first label equal to `selection`
/// (ids and labels paired by position), or `None` when no label matches.
pub fn module_choice(ids: &Vec<&str>, labels: &Vec<String>, selection: &str) -> (r: Option<
    String,
>)
    ensures
        occurs_in(selection@, "Back to menu"@) ==> r is None,
        !occurs_in(selection@, "Back to menu"@) ==> match r {
            Some(id) => exists|i: int|
                0 <= i < ids@.len() && i < labels@.len() && labels@[i]@ == selection@ && id@
                    == ids@[i]@ && forall|j: int|
                    0 <= j < i ==> labels@[j]@ != selection@,
            None => forall|i: int|
                0 <= i < ids@.len() && i < labels@.len() ==> labels@[i]@ != selection@,
        },
{
    if text_contains(selection, "Back to menu") {
        return None;
    }
    let wanted: String = selection.to_owned();
    let n = if ids.len() < labels.len() {
        ids.len()
    } else {
        labels.len()
    };
    for i in 0..n
        invariant
            n <= ids@.len(),
            n <= labels@.len(),
            n == ids@.len() || n == labels@.len(),
            wanted@ == selection@,
            !occurs_in(selection@, "Back to menu"@),
            forall|j: int| 0 <= j < i ==> labels@[j]@ != selection@,
    {
        if labels[i] == wanted {
            return Some(ids[i].to_owned());
        }
    }
    None
}

} // verus!

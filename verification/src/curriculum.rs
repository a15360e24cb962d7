//! The fixed order of the curriculum's modules, and lookups in it.

use vstd::prelude::*;
use crate::models::Module;
use crate::text::same_text;

verus! {

/// The curriculum's module ids in teaching order: four module quizzes, a major quiz,
/// four more module quizzes, and a second major quiz.
pub open spec fn module_ids() -> Seq<Seq<char>> {
    seq![
        seq!['0', '1'],
        seq!['0', '2'],
        seq!['0', '3'],
        seq!['0', '4'],
        seq!['0', '5', '_', 'm', 'a', 'j', 'o', 'r'],
        seq!['0', '6'],
        seq!['0', '7'],
        seq!['0', '8'],
        seq!['0', '9'],
        seq!['1', '0', '_', 'm', 'a', 'j', 'o', 'r'],
    ]
}

/// No module id occurs twice in the curriculum.
pub proof fn lemma_module_ids_distinct()
    ensures
        module_ids().len() == 10,
        forall|i: int, j: int|
            0 <= i < 10 && 0 <= j < 10 && i != j ==> #[trigger] module_ids()[i]
                != #[trigger] module_ids()[j],
{
    let ids = module_ids();
    assert forall|i: int, j: int|
        0 <= i < 10 && 0 <= j < 10 && i != j implies #[trigger] ids[i] != #[trigger] ids[j] by {
        if ids[i] == ids[j] {
            assert(ids[i].len() == ids[j].len());
            assert(ids[i][0] == ids[j][0]);
            assert(ids[i][1] == ids[j][1]);
        }
    }
}

/// The curriculum's module ids in teaching order.
pub fn module_order() -> (ids: Vec<&'static str>)
    ensures
        ids@.len() == module_ids().len(),
        forall|i: int| 0 <= i < ids@.len() ==> #[trigger] ids@[i]@ == module_ids()[i],
{
    let ids = vec!["01", "02", "03", "04", "05_major", "06", "07", "08", "09", "10_major"];
    proof {
        reveal_strlit("01");
        reveal_strlit("02");
        reveal_strlit("03");
        reveal_strlit("04");
        reveal_strlit("05_major");
        reveal_strlit("06");
        reveal_strlit("07");
        reveal_strlit("08");
        reveal_strlit("09");
        reveal_strlit("10_major");
        assert(ids@[0]@ =~= module_ids()[0]);
        assert(ids@[1]@ =~= module_ids()[1]);
        assert(ids@[2]@ =~= module_ids()[2]);
        assert(ids@[3]@ =~= module_ids()[3]);
        assert(ids@[4]@ =~= module_ids()[4]);
        assert(ids@[5]@ =~= module_ids()[5]);
        assert(ids@[6]@ =~= module_ids()[6]);
        assert(ids@[7]@ =~= module_ids()[7]);
        assert(ids@[8]@ =~= module_ids()[8]);
        assert(ids@[9]@ =~= module_ids()[9]);
    }
    ids
}

/// The first module in `modules` whose id is `module_id`.
pub fn find_module<'a>(modules: &'a [Module], module_id: &str) -> (r: Option<&'a Module>)
    ensures
        match r {
            Some(m) => exists|i: int|
                0 <= i < modules@.len() && *m == modules@[i] && modules@[i].id@ == module_id@
                    && forall|j: int| 0 <= j < i ==> modules@[j].id@ != module_id@,
            None => forall|i: int| 0 <= i < modules@.len() ==> modules@[i].id@ != module_id@,
        },
{
    let n = modules.len();
    for i in 0..n
        invariant
            n == modules@.len(),
            forall|j: int| 0 <= j < i ==> modules@[j].id@ != module_id@,
    {
        if same_text(modules[i].id.as_str(), module_id) {
            return Some(&modules[i]);
        }
    }
    None
}

/// The position of `module_id` in the curriculum order, if it belongs to it.
pub fn module_index(module_id: &str) -> (r: Option<usize>)
    ensures
        match r {
            Some(k) => k < module_ids().len() && module_ids()[k as int] == module_id@,
            None => !module_ids().contains(module_id@),
        },
{
    let ids = module_order();
    let n = ids.len();
    for k in 0..n
        invariant
            n == ids@.len(),
            n == module_ids().len(),
            forall|i: int| 0 <= i < ids@.len() ==> #[trigger] ids@[i]@ == module_ids()[i],
            forall|j: int| 0 <= j < k ==> module_ids()[j] != module_id@,
    {
        if same_text(ids[k], module_id) {
            return Some(k);
        }
    }
    None
}

/// The number of modules in the curriculum.
pub fn total_modules() -> (n: usize)
    ensures
        n == module_ids().len(),
{
    10
}

/// The name of the file that holds a module's definition: its id followed by ".toml".
pub fn module_file_name(module_id: &str) -> (name: String)
    ensures
        name@ == module_id@ + seq!['.', 't', 'o', 'm', 'l'],
{
    let suffix = ".toml";
    proof {
        reveal_strlit(".toml");
        assert(suffix@ =~= seq!['.', 't', 'o', 'm', 'l']);
    }
    let mut name = String::from_str(module_id);
    name.append(suffix);
    name
}

} // verus!

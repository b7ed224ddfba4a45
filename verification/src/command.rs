//! Choosing which stored projects a command runs against.
use crate::cli;
use crate::config::Project;
use crate::error::Error;
use crate::strings::str_eq;
use vstd::prelude::*;
use vstd::string::StrSliceExecFns;

verus! {

/// Runs commands against the stored configuration of the named application.
pub struct CommandRunner {
    pub app_name: String,
}

/// How a command runs: against one chosen project, or against several with
/// the project at the front as the main one.
pub enum RunPlan {
    Single(Project),
    Multi(Vec<Project>),
}

/// Case-insensitive equality of two characters, folding English letters only.
pub open spec fn chars_eq_ignore_case(a: char, b: char) -> bool {
    ||| a == b
    ||| (65 <= a as u32 && a as u32 <= 90 && a as u32 + 32 == b as u32)
    ||| (65 <= b as u32 && b as u32 <= 90 && b as u32 + 32 == a as u32)
}

/// Case-insensitive equality of two strings, folding English letters only.
pub open spec fn eq_ignore_case(a: Seq<char>, b: Seq<char>) -> bool {
    a.len() == b.len() && forall|i: int|
        0 <= i < a.len() ==> chars_eq_ignore_case(#[trigger] a[i], b[i])
}

/// Executable twin of `eq_ignore_case`.
pub fn str_eq_ignore_case(a: &str, b: &str) -> (r: bool)
    ensures
        r == eq_ignore_case(a@, b@),
{
    let alen = a.unicode_len();
    if alen != b.unicode_len() {
        return false;
    }
    let mut i: usize = 0;
    while i < alen
        invariant
            i <= alen,
            alen == a@.len(),
            alen == b@.len(),
            forall|j: int| 0 <= j < i ==> chars_eq_ignore_case(#[trigger] a@[j], b@[j]),
        decreases alen - i,
    {
        let x = a.get_char(i) as u32;
        let y = b.get_char(i) as u32;
        let same = x == y || (65 <= x && x <= 90 && x + 32 == y) || (65 <= y && y <= 90 && y + 32
            == x);
        if !same {
            return false;
        }
        i = i + 1;
    }
    true
}

/// First stored project whose name matches, ignoring English letter case.
pub open spec fn match_index(projects: Seq<Project>, name: Seq<char>) -> Option<int>
    decreases projects.len(),
{
    if projects.len() == 0 {
        None
    } else if eq_ignore_case(projects[0].name@, name) {
        Some(0int)
    } else {
        match match_index(projects.skip(1), name) {
            None => None,
            Some(i) => Some(i + 1),
        }
    }
}

proof fn lemma_match_index(projects: Seq<Project>, name: Seq<char>)
    ensures
        match match_index(projects, name) {
            Some(i) => 0 <= i < projects.len() && eq_ignore_case(projects[i].name@, name) && (
            forall|j: int| 0 <= j < i ==> !eq_ignore_case(projects[j].name@, name)),
            None => forall|j: int|
                0 <= j < projects.len() ==> !eq_ignore_case(projects[j].name@, name),
        },
    decreases projects.len(),
{
    if projects.len() > 0 && !eq_ignore_case(projects[0].name@, name) {
        lemma_match_index(projects.skip(1), name);
        assert(forall|j: int|
            0 <= j < projects.len() - 1 ==> projects.skip(1)[j] == projects[j + 1]);
        match match_index(projects.skip(1), name) {
            Some(i) => {
                assert(projects[i + 1] == projects.skip(1)[i]);
                assert forall|j: int| 0 <= j < i + 1 implies !eq_ignore_case(
                    projects[j].name@,
                    name,
                ) by {
                    if j > 0 {
                        assert(projects[j] == projects.skip(1)[j - 1]);
                    }
                }
            },
            None => {
                assert forall|j: int| 0 <= j < projects.len() implies !eq_ignore_case(
                    projects[j].name@,
                    name,
                ) by {
                    if j > 0 {
                        assert(projects[j] == projects.skip(1)[j - 1]);
                    }
                }
            },
        }
    }
}

impl CommandRunner {
    pub fn new(app_name: String) -> (r: CommandRunner)
        ensures
            r.app_name == app_name,
    {
        CommandRunner { app_name }
    }

    /// Decides which stored projects a command runs against: the one the
    /// arguments name; or all of them with the named main project brought to
    /// the front; or all of them as stored. An empty registry, or a name no
    /// stored project matches (ignoring English letter case), is refused.
    pub fn plan(projects: Vec<Project>, arguments: &cli::Project) -> (r: Result<RunPlan, Error>)
        ensures
            match r {
                Ok(plan) => {
                    &&& projects@.len() > 0
                    &&& match plan {
                        RunPlan::Single(p) => {
                            &&& arguments.project is Some
                            &&& match_index(projects@, arguments.project->Some_0@) is Some
                            &&& p == projects@[match_index(
                                projects@,
                                arguments.project->Some_0@,
                            )->Some_0]
                        },
                        RunPlan::Multi(list) => {
                            &&& arguments.project is None
                            &&& match arguments.main {
                                Some(main) => {
                                    let i = match_index(projects@, main@)->Some_0;
                                    &&& match_index(projects@, main@) is Some
                                    &&& list@ == seq![projects@[i]] + projects@.remove(i)
                                },
                                None => list@ == projects@,
                            }
                        },
                    }
                },
                Err(_) => projects@.len() == 0 || (arguments.project is Some && match_index(
                    projects@,
                    arguments.project->Some_0@,
                ) is None) || (arguments.project is None && arguments.main is Some && match_index(
                    projects@,
                    arguments.main->Some_0@,
                ) is None),
            },
    {
        if projects.len() == 0 {
            return Err(Error::new("Projects are empty! Add projects to projects.json file."));
        }
        match &arguments.project {
            Some(project_name) => {
                match Self::find_match(&projects, project_name.as_str()) {
                    Some(i) => {
                        let mut projects = projects;
                        let chosen = projects.remove(i);
                        Ok(RunPlan::Single(chosen))
                    },
                    None => {
                        let mut message = String::new();
                        message.append("Project ");
                        message.append(project_name.as_str());
                        message.append(" was not found");
                        Err(Error { message })
                    },
                }
            },
            None => {
                match &arguments.main {
                    Some(main_name) => {
                        match Self::find_match(&projects, main_name.as_str()) {
                            Some(i) => {
                                let ghost orig = projects@;
                                let mut projects = projects;
                                let main = projects.remove(i);
                                projects.insert(0, main);
                                proof {
                                    assert(projects@ =~= seq![orig[i as int]] + orig.remove(
                                        i as int,
                                    ));
                                }
                                Ok(RunPlan::Multi(projects))
                            },
                            None => {
                                let mut message = String::new();
                                message.append("Project ");
                                message.append(main_name.as_str());
                                message.append(" was not found");
                                Err(Error { message })
                            },
                        }
                    },
                    None => Ok(RunPlan::Multi(projects)),
                }
            },
        }
    }

    /// Position of the first stored project matching the name, ignoring
    /// English letter case.
    fn find_match(projects: &Vec<Project>, name: &str) -> (r: Option<usize>)
        ensures
            match r {
                Some(i) => match_index(projects@, name@) == Some(i as int) && i < projects@.len(),
                None => match_index(projects@, name@) is None,
            },
    {
        let mut i: usize = 0;
        while i < projects.len()
            invariant
                i <= projects@.len(),
                forall|j: int| 0 <= j < i ==> !eq_ignore_case(projects@[j].name@, name@),
            decreases projects@.len() - i,
        {
            if str_eq_ignore_case(projects[i].name.as_str(), name) {
                proof {
                    lemma_match_index(projects@, name@);
                    match match_index(projects@, name@) {
                        Some(k) => {
                            if k < i {
                                assert(!eq_ignore_case(projects@[k].name@, name@));
                            }
                            if (i as int) < k {
                                assert(!eq_ignore_case(projects@[i as int].name@, name@));
                            }
                        },
                        None => {
                            assert(!eq_ignore_case(projects@[i as int].name@, name@));
                        },
                    }
                }
                return Some(i);
            }
            i = i + 1;
        }
        proof {
            lemma_match_index(projects@, name@);
            if let Some(k) = match_index(projects@, name@) {
                assert(!eq_ignore_case(projects@[k].name@, name@));
            }
        }
        None
    }
}

} // verus!

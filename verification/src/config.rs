//! The stored project registry: the projects a command can run against.
use vstd::prelude::*;
use vstd::string::StringExecFns;

verus! {

/// A registered project: its display name, the application identifiers used
/// for app-scoped conditions, and the number addressing it on the service.
#[derive(Debug, Clone, PartialEq)]
pub struct Project {
    pub name: String,
    pub app_ids: Vec<String>,
    pub project_number: String,
}

/// The whole stored configuration.
#[derive(Debug, Clone, PartialEq)]
pub struct Config {
    pub projects: Vec<Project>,
}

/// The service endpoint of a project's remote-config document.
pub open spec fn url_of(project_number: Seq<char>) -> Seq<char> {
    "https://firebaseremoteconfig.googleapis.com/v1/projects/"@ + project_number
        + "/remoteConfig"@
}

impl Project {
    pub fn new(name: String, project_number: String, app_ids: Vec<String>) -> (r: Project)
        ensures
            r.name == name,
            r.app_ids == app_ids,
            r.project_number == project_number,
    {
        Project { name, project_number, app_ids }
    }

    /// The endpoint the project's document is fetched from and written to.
    pub fn url(&self) -> (r: String)
        ensures
            r@ == url_of(self.project_number@),
    {
        let mut out = String::new();
        out.append("https://firebaseremoteconfig.googleapis.com/v1/projects/");
        out.append(self.project_number.as_str());
        out.append("/remoteConfig");
        out
    }
}

impl Config {
    /// Appends a project to the registry.
    pub fn add_project(&mut self, project: Project)
        ensures
            final(self).projects@ == old(self).projects@.push(project),
    {
        self.projects.push(project);
    }

    /// Drops every project bearing the name.
    pub fn remove_project(&mut self, project_name: &str)
        ensures
            final(self).projects@ == old(self).projects@.filter(
                |p: Project| p.name@ != project_name@,
            ),
    {
        let ghost orig = self.projects@;
        let total = self.projects.len();
        let mut kept: Vec<Project> = Vec::new();
        let mut i: usize = 0;
        proof {
            reveal(Seq::filter);
            assert(orig.take(0) =~= Seq::<Project>::empty());
            assert(kept@ =~= orig.take(0).filter(|p: Project| p.name@ != project_name@));
        }
        while self.projects.len() > 0
            invariant
                i <= orig.len(),
                orig.len() == total,
                self.projects@ == orig.skip(i as int),
                kept@ == orig.take(i as int).filter(|p: Project| p.name@ != project_name@),
            decreases orig.len() - i,
        {
            let p = self.projects.remove(0);
            proof {
                assert(p == orig[i as int]);
                assert(orig.skip(i as int).remove(0) =~= orig.skip(i + 1));
            }
            let keep = !crate::strings::str_eq(p.name.as_str(), project_name);
            if keep {
                kept.push(p);
            }
            proof {
                reveal(Seq::filter);
                let t = orig.take(i + 1);
                assert(t.drop_last() =~= orig.take(i as int));
                assert(t.last() == orig[i as int]);
            }
            i = i + 1;
        }
        proof {
            assert(orig.take(orig.len() as int) =~= orig);
            assert(i == orig.len());
        }
        self.projects = kept;
    }
}

impl Default for Config {
    fn default() -> (r: Config)
        ensures
            r.projects@ == Seq::<Project>::empty(),
    {
        Config { projects: Vec::new() }
    }
}

} // verus!

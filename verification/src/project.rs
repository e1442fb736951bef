//! Workspace rows ("projects"). The library creates one default workspace
//! alongside each brand-new account; everything else about workspaces is
//! plain storage traffic.
use vstd::prelude::*;

verus! {

/// A workspace row. `deadline` is seconds since the Unix epoch.
pub struct Project {
    pub project_id: String,
    pub user_id: String,
    pub project_name: String,
    pub colour: String,
    pub deadline: Option<i64>,
    pub priority: Option<i32>,
}

impl Project {
    pub fn new(
        user_id: String,
        project_id: String,
        project_name: String,
        colour: String,
        deadline: Option<i64>,
        priority: Option<i32>,
    ) -> (r: Project)
        ensures
            r.user_id == user_id,
            r.project_id == project_id,
            r.project_name == project_name,
            r.colour == colour,
            r.deadline == deadline,
            r.priority == priority,
    {
        Project { user_id, project_id, project_name, colour, deadline, priority }
    }
}

/// A default workspace is named "Unset", coloured "grey", and carries no
/// deadline and no priority.
pub open spec fn is_default_project(p: Project, user_id: Seq<char>, project_id: Seq<char>) -> bool {
    &&& p.user_id@ == user_id
    &&& p.project_id@ == project_id
    &&& p.project_name@ == "Unset"@
    &&& p.colour@ == "grey"@
    &&& p.deadline is None
    &&& p.priority is None
}

/// Build the default workspace for a new account.
pub fn default_project(user_id: String, project_id: String) -> (r: Project)
    ensures
        is_default_project(r, user_id@, project_id@),
{
    Project::new(
        user_id,
        project_id,
        String::from_str("Unset"),
        String::from_str("grey"),
        None,
        None,
    )
}

} // verus!

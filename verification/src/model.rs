//! The configuration data model: tabs, workspaces and the workspace table,
//! with case-insensitive name lookup and duplicate-name validation.

use vstd::prelude::*;

use crate::text::{eq_ci, eq_ignore_case};

verus! {

/// One terminal tab (or pane) of a leaf workspace, as it stands in the
/// configuration document.
#[derive(Debug, PartialEq, Eq)]
pub struct Tab {
    pub title: Option<String>,
    pub starting_directory: String,
    pub commands: Option<Vec<String>>,
    pub split_pane: Option<bool>,
}

/// The mathematical value of a [`Tab`].
pub struct TabV {
    pub title: Option<Seq<char>>,
    pub starting_directory: Seq<char>,
    pub commands: Option<Seq<Seq<char>>>,
    pub split_pane: Option<bool>,
}

impl View for Tab {
    type V = TabV;

    open spec fn view(&self) -> TabV {
        TabV {
            title: self.title.deep_view(),
            starting_directory: self.starting_directory@,
            commands: self.commands.deep_view(),
            split_pane: self.split_pane,
        }
    }
}

impl DeepView for Tab {
    type V = TabV;

    open spec fn deep_view(&self) -> TabV {
        self.view()
    }
}

/// A workspace is either a leaf, directly composed of tabs, or a group of
/// references to other workspaces' names.
#[derive(Debug, PartialEq, Eq)]
pub enum Workspace {
    Leaf { name: String, tabs: Vec<Tab> },
    Group { name: String, members: Vec<String> },
}

/// The mathematical value of a [`Workspace`].
pub enum WorkspaceV {
    Leaf { name: Seq<char>, tabs: Seq<TabV> },
    Group { name: Seq<char>, members: Seq<Seq<char>> },
}

impl View for Workspace {
    type V = WorkspaceV;

    open spec fn view(&self) -> WorkspaceV {
        match self {
            Workspace::Leaf { name, tabs } => WorkspaceV::Leaf {
                name: name@,
                tabs: tabs.deep_view(),
            },
            Workspace::Group { name, members } => WorkspaceV::Group {
                name: name@,
                members: members.deep_view(),
            },
        }
    }
}

impl DeepView for Workspace {
    type V = WorkspaceV;

    open spec fn deep_view(&self) -> WorkspaceV {
        self.view()
    }
}

/// The name of a workspace value, common to both variants.
pub open spec fn name_of(w: WorkspaceV) -> Seq<char> {
    match w {
        WorkspaceV::Leaf { name, .. } => name,
        WorkspaceV::Group { name, .. } => name,
    }
}

impl Workspace {
    /// The workspace's name, whichever variant it is.
    pub fn name(&self) -> (r: &String)
        ensures
            r@ == name_of(self@),
    {
        match self {
            Workspace::Leaf { name, .. } => name,
            Workspace::Group { name, .. } => name,
        }
    }
}

/// The loaded configuration: an ordered table of workspaces.
pub struct Config {
    pub workspace: Vec<Workspace>,
}

impl View for Config {
    type V = Seq<WorkspaceV>;

    open spec fn view(&self) -> Seq<WorkspaceV> {
        self.workspace.deep_view()
    }
}

/// The first workspace whose name equals `name` without regard to ASCII
/// case, or `None` when no name matches.
pub open spec fn lookup(ws: Seq<WorkspaceV>, name: Seq<char>) -> Option<WorkspaceV>
    decreases ws.len(),
{
    if ws.len() == 0 {
        None
    } else if eq_ci(name_of(ws[0]), name) {
        Some(ws[0])
    } else {
        lookup(ws.drop_first(), name)
    }
}

/// Law: lookups of names with equal lowercased forms agree, whatever the
/// table holds.
pub proof fn lemma_lookup_ci(ws: Seq<WorkspaceV>, s1: Seq<char>, s2: Seq<char>)
    requires
        eq_ci(s1, s2),
    ensures
        lookup(ws, s1) == lookup(ws, s2),
    decreases ws.len(),
{
    if ws.len() > 0 {
        if !eq_ci(name_of(ws[0]), s1) {
            lemma_lookup_ci(ws.drop_first(), s1, s2);
        }
    }
}

/// Law: a lookup succeeds exactly when some workspace's name matches the
/// requested one case-insensitively, and what it returns is the first such
/// workspace in declaration order.
pub proof fn lemma_lookup_first_match(ws: Seq<WorkspaceV>, name: Seq<char>)
    ensures
        (lookup(ws, name) is Some) <==> (exists|k: int|
            0 <= k < ws.len() && eq_ci(name_of(ws[k]), name)),
        lookup(ws, name) is Some ==> exists|k: int|
            0 <= k < ws.len() && ws[k] == lookup(ws, name)->Some_0 && eq_ci(name_of(ws[k]), name)
                && (forall|j: int| 0 <= j < k ==> !eq_ci(name_of(ws[j]), name)),
    decreases ws.len(),
{
    if ws.len() > 0 {
        if eq_ci(name_of(ws[0]), name) {
            let k = 0int;
            assert(0 <= k < ws.len() && eq_ci(name_of(ws[k]), name));
            assert(ws[k] == lookup(ws, name)->Some_0 && (forall|j: int|
                0 <= j < k ==> !eq_ci(name_of(ws[j]), name)));
        } else {
            let t = ws.drop_first();
            lemma_lookup_first_match(t, name);
            assert(forall|j: int| 0 <= j < t.len() ==> t[j] == ws[j + 1]);
            if lookup(ws, name) is Some {
                let k = choose|k: int|
                    0 <= k < t.len() && t[k] == lookup(t, name)->Some_0 && eq_ci(
                        name_of(t[k]),
                        name,
                    ) && (forall|j: int| 0 <= j < k ==> !eq_ci(name_of(t[j]), name));
                assert(ws[k + 1] == lookup(ws, name)->Some_0 && eq_ci(name_of(ws[k + 1]), name));
                assert forall|j: int| 0 <= j < k + 1 implies !eq_ci(name_of(ws[j]), name) by {
                    if j > 0 {
                        assert(ws[j] == t[j - 1]);
                        assert(!eq_ci(name_of(t[j - 1]), name));
                    }
                }
            } else {
                assert forall|k: int|
                    0 <= k < ws.len() implies !eq_ci(name_of(ws[k]), name) by {
                    if k > 0 {
                        assert(ws[k] == t[k - 1]);
                    }
                }
            }
        }
    }
}

proof fn lemma_lookup_skip(ws: Seq<WorkspaceV>, name: Seq<char>, i: int)
    requires
        0 <= i <= ws.len(),
        forall|j: int| 0 <= j < i ==> !eq_ci(name_of(ws[j]), name),
    ensures
        lookup(ws, name) == lookup(ws.skip(i), name),
    decreases i,
{
    if i == 0 {
        assert(ws.skip(0) =~= ws);
    } else {
        let t = ws.drop_first();
        assert(forall|j: int| 0 <= j < i - 1 ==> t[j] == ws[j + 1]);
        lemma_lookup_skip(t, name, i - 1);
        assert(t.skip(i - 1) =~= ws.skip(i));
    }
}

/// Finds the first workspace whose name matches `workspace_string`,
/// compared case-insensitively.
pub fn get_workspace(config: &Config, workspace_string: String) -> (r: Option<&Workspace>)
    ensures
        match r {
            Some(w) => lookup(config@, workspace_string@) == Some(w@),
            None => lookup(config@, workspace_string@) is None,
        },
{
    let n = config.workspace.len();
    for i in 0..n
        invariant
            n == config@.len(),
            forall|j: int| 0 <= j < i ==> !eq_ci(name_of(config@[j]), workspace_string@),
    {
        let w = &config.workspace[i];
        if eq_ignore_case(w.name().as_str(), workspace_string.as_str()) {
            proof {
                lemma_lookup_skip(config@, workspace_string@, i as int);
                assert(config@.skip(i as int)[0] == config@[i as int]);
            }
            return Some(w);
        }
    }
    proof {
        lemma_lookup_skip(config@, workspace_string@, config@.len() as int);
        assert(config@.skip(config@.len() as int) =~= Seq::<WorkspaceV>::empty());
    }
    None
}

/// The names of all workspaces, in declaration order.
pub fn workspace_names(config: &Config) -> (r: Vec<String>)
    ensures
        r.deep_view() == config@.map_values(|w: WorkspaceV| name_of(w)),
{
    let n = config.workspace.len();
    let mut r: Vec<String> = Vec::new();
    for i in 0..n
        invariant
            n == config@.len(),
            r.deep_view() =~~= config@.take(i as int).map_values(|w: WorkspaceV| name_of(w)),
    {
        let ghost prev = r.deep_view();
        r.push(config.workspace[i].name().clone());
        proof {
            assert(r.deep_view() =~~= prev.push(name_of(config@[i as int])));
            assert(config@.take(i + 1).map_values(|w: WorkspaceV| name_of(w)) =~~= config@.take(
                i as int,
            ).map_values(|w: WorkspaceV| name_of(w)).push(name_of(config@[i as int])));
        }
    }
    proof {
        assert(config@.take(n as int) =~= config@);
    }
    r
}

/// No two workspaces share a name, compared case-insensitively.
pub open spec fn names_unique(ws: Seq<WorkspaceV>) -> bool {
    forall|i: int, j: int|
        0 <= i < j < ws.len() ==> !eq_ci(name_of(ws[i]), name_of(ws[j]))
}

/// Checks the workspace table for duplicate names. Returns the name of a
/// workspace that repeats an earlier one, or `None` when all names are
/// distinct (case-insensitively), as a configuration is required to be.
pub fn find_duplicate_name(config: &Config) -> (r: Option<String>)
    ensures
        match r {
            None => names_unique(config@),
            Some(n) => exists|i: int, j: int|
                0 <= i < j < config@.len() && eq_ci(name_of(config@[i]), name_of(config@[j]))
                    && n@ == name_of(config@[j]),
        },
{
    let n = config.workspace.len();
    for j in 0..n
        invariant
            n == config@.len(),
            forall|a: int, b: int| 0 <= a < b < j ==> !eq_ci(name_of(config@[a]), name_of(config@[b])),
    {
        for i in 0..j
            invariant
                n == config@.len(),
                j < n,
                forall|a: int, b: int|
                    0 <= a < b < j ==> !eq_ci(name_of(config@[a]), name_of(config@[b])),
                forall|a: int| 0 <= a < i ==> !eq_ci(name_of(config@[a]), name_of(config@[j as int])),
        {
            if eq_ignore_case(
                config.workspace[i].name().as_str(),
                config.workspace[j].name().as_str(),
            ) {
                let dup = config.workspace[j].name().clone();
                proof {
                    let a = i as int;
                    let b = j as int;
                    assert(0 <= a < b < config@.len() && eq_ci(
                        name_of(config@[a]),
                        name_of(config@[b]),
                    ) && dup@ == name_of(config@[b]));
                }
                return Some(dup);
            }
        }
    }
    None
}

} // verus!

//! The workspace resolver: recursive expansion of group workspaces into an
//! ordered sequence of launch directives, with detection of cyclic group
//! references on the active expansion path.

use vstd::prelude::*;

use crate::model::{Config, Tab, TabV, Workspace, WorkspaceV, get_workspace, lookup, name_of};
use crate::text::{eq_ci, eq_ignore_case};

verus! {

/// The flattened, launch-ready form of one tab of one resolved leaf
/// workspace.
#[derive(Debug, PartialEq, Eq)]
pub struct LaunchDirective {
    pub title: Option<String>,
    pub starting_directory: String,
    pub commands: Vec<String>,
    pub split_pane: bool,
    pub is_first_overall: bool,
}

/// The mathematical value of a [`LaunchDirective`].
#[verifier::ext_equal]
pub struct DirectiveV {
    pub title: Option<Seq<char>>,
    pub starting_directory: Seq<char>,
    pub commands: Seq<Seq<char>>,
    pub split_pane: bool,
    pub is_first_overall: bool,
}

impl View for LaunchDirective {
    type V = DirectiveV;

    open spec fn view(&self) -> DirectiveV {
        DirectiveV {
            title: self.title.deep_view(),
            starting_directory: self.starting_directory@,
            commands: self.commands.deep_view(),
            split_pane: self.split_pane,
            is_first_overall: self.is_first_overall,
        }
    }
}

impl DeepView for LaunchDirective {
    type V = DirectiveV;

    open spec fn deep_view(&self) -> DirectiveV {
        self.view()
    }
}

/// Why a resolution failed: an unknown workspace or member name, attributed
/// to the requested top-level name, or a cyclic group reference, reported
/// with the expansion path on which the repeat was seen.
#[derive(Debug, PartialEq, Eq)]
pub enum ResolveError {
    NotFound { name: String, member: Option<String> },
    CyclicReference { path: Vec<String> },
}

/// The mathematical value of a [`ResolveError`].
#[verifier::ext_equal]
pub enum ResolveErrorV {
    NotFound { name: Seq<char>, member: Option<Seq<char>> },
    CyclicReference { path: Seq<Seq<char>> },
}

impl View for ResolveError {
    type V = ResolveErrorV;

    open spec fn view(&self) -> ResolveErrorV {
        match self {
            ResolveError::NotFound { name, member } => ResolveErrorV::NotFound {
                name: name@,
                member: member.deep_view(),
            },
            ResolveError::CyclicReference { path } => ResolveErrorV::CyclicReference {
                path: path.deep_view(),
            },
        }
    }
}

/// The error carried while expansion is in progress: the missing name, or
/// the cyclic path. Attribution to the top-level name happens at the top.
#[verifier::ext_equal]
pub enum InnerErrV {
    Missing { missing: Seq<char> },
    Cycle { path: Seq<Seq<char>> },
}

/// The directive a tab flattens to, before any directive is marked first.
pub open spec fn directive_of_tab(t: TabV) -> DirectiveV {
    DirectiveV {
        title: t.title,
        starting_directory: t.starting_directory,
        commands: match t.commands {
            Some(cs) => cs,
            None => Seq::empty(),
        },
        split_pane: match t.split_pane {
            Some(b) => b,
            None => false,
        },
        is_first_overall: false,
    }
}

/// `name` occurs in `path`, compared without regard to ASCII case.
pub open spec fn contains_ci(path: Seq<Seq<char>>, name: Seq<char>) -> bool {
    exists|k: int| 0 <= k < path.len() && eq_ci(path[k], name)
}

/// How many workspaces of the table are not yet on the expansion path:
/// the measure by which expansion terminates.
pub open spec fn unvisited_count(ws: Seq<WorkspaceV>, path: Seq<Seq<char>>) -> nat
    decreases ws.len(),
{
    if ws.len() == 0 {
        0
    } else {
        unvisited_count(ws.drop_last(), path) + (if contains_ci(path, name_of(ws.last())) {
            0nat
        } else {
            1nat
        })
    }
}

pub proof fn lemma_unvisited_push_le(ws: Seq<WorkspaceV>, path: Seq<Seq<char>>, x: Seq<char>)
    ensures
        unvisited_count(ws, path.push(x)) <= unvisited_count(ws, path),
    decreases ws.len(),
{
    if ws.len() > 0 {
        lemma_unvisited_push_le(ws.drop_last(), path, x);
        if contains_ci(path, name_of(ws.last())) {
            let k = choose|k: int| 0 <= k < path.len() && eq_ci(path[k], name_of(ws.last()));
            assert(path.push(x)[k] == path[k]);
            assert(contains_ci(path.push(x), name_of(ws.last())));
        }
    }
}

pub proof fn lemma_unvisited_push_lt(ws: Seq<WorkspaceV>, path: Seq<Seq<char>>, x: Seq<char>)
    requires
        !contains_ci(path, x),
        exists|k: int| 0 <= k < ws.len() && eq_ci(name_of(ws[k]), x),
    ensures
        unvisited_count(ws, path.push(x)) < unvisited_count(ws, path),
    decreases ws.len(),
{
    let k = choose|k: int| 0 <= k < ws.len() && eq_ci(name_of(ws[k]), x);
    if k == ws.len() - 1 {
        lemma_unvisited_push_le(ws.drop_last(), path, x);
        // the last workspace was not on the path, and now is
        if contains_ci(path, name_of(ws.last())) {
            let k2 = choose|k2: int| 0 <= k2 < path.len() && eq_ci(path[k2], name_of(ws.last()));
            assert(eq_ci(path[k2], x));
            assert(false);
        }
        assert(path.push(x)[path.len() as int] == x);
        assert(contains_ci(path.push(x), name_of(ws.last())));
    } else {
        assert(ws.drop_last()[k] == ws[k]);
        lemma_unvisited_push_lt(ws.drop_last(), path, x);
        if contains_ci(path, name_of(ws.last())) {
            let k2 = choose|k2: int| 0 <= k2 < path.len() && eq_ci(path[k2], name_of(ws.last()));
            assert(path.push(x)[k2] == path[k2]);
            assert(contains_ci(path.push(x), name_of(ws.last())));
        }
    }
}

pub proof fn lemma_lookup_found(ws: Seq<WorkspaceV>, name: Seq<char>)
    requires
        lookup(ws, name) is Some,
    ensures
        exists|k: int| 0 <= k < ws.len() && ws[k] == lookup(ws, name)->Some_0,
        eq_ci(name_of(lookup(ws, name)->Some_0), name),
    decreases ws.len(),
{
    if ws.len() > 0 {
        if eq_ci(name_of(ws[0]), name) {
            assert(ws[0] == lookup(ws, name)->Some_0);
        } else {
            lemma_lookup_found(ws.drop_first(), name);
            let k = choose|k: int|
                0 <= k < ws.drop_first().len() && ws.drop_first()[k] == lookup(
                    ws.drop_first(),
                    name,
                )->Some_0;
            assert(ws[k + 1] == lookup(ws, name)->Some_0);
        }
    }
}

/// The directive sequence a name expands to, `path` being the group names
/// already being expanded on the current recursion path. No directive is
/// marked first here; the top level marks the first one.
pub open spec fn resolve_name_spec(
    ws: Seq<WorkspaceV>,
    name: Seq<char>,
    path: Seq<Seq<char>>,
) -> Result<Seq<DirectiveV>, InnerErrV>
    decreases unvisited_count(ws, path), 0nat,
{
    match lookup(ws, name) {
        None => Err(InnerErrV::Missing { missing: name }),
        Some(w) => match w {
            WorkspaceV::Leaf { tabs, .. } => Ok(
                tabs.map_values(|t: TabV| directive_of_tab(t)),
            ),
            WorkspaceV::Group { name: gname, members } => {
                if contains_ci(path, gname) {
                    Err(InnerErrV::Cycle { path: path.push(gname) })
                } else {
                    proof {
                        lemma_lookup_found(ws, name);
                        let k = choose|k: int|
                            0 <= k < ws.len() && ws[k] == lookup(ws, name)->Some_0;
                        assert(eq_ci(name_of(ws[k]), gname));
                        lemma_unvisited_push_lt(ws, path, gname);
                    }
                    resolve_members_spec(ws, members, path.push(gname))
                }
            },
        },
    }
}

/// The concatenation, left to right, of what each member name expands to.
pub open spec fn resolve_members_spec(
    ws: Seq<WorkspaceV>,
    members: Seq<Seq<char>>,
    path: Seq<Seq<char>>,
) -> Result<Seq<DirectiveV>, InnerErrV>
    decreases unvisited_count(ws, path), members.len() + 1,
{
    if members.len() == 0 {
        Ok(Seq::empty())
    } else {
        match resolve_name_spec(ws, members[0], path) {
            Err(e) => Err(e),
            Ok(ds) => match resolve_members_spec(ws, members.drop_first(), path) {
                Err(e) => Err(e),
                Ok(rest) => Ok(ds + rest),
            },
        }
    }
}

/// The resolved sequence with only its very first directive marked as the
/// first overall.
pub open spec fn mark_first(ds: Seq<DirectiveV>) -> Seq<DirectiveV> {
    if ds.len() == 0 {
        ds
    } else {
        ds.update(0, DirectiveV { is_first_overall: true, ..ds[0] })
    }
}

/// `Ok` results are prepended with `a`; errors pass through.
pub open spec fn ok_concat(a: Seq<DirectiveV>, r: Result<Seq<DirectiveV>, InnerErrV>) -> Result<
    Seq<DirectiveV>,
    InnerErrV,
> {
    match r {
        Ok(b) => Ok(a + b),
        Err(e) => Err(e),
    }
}

/// The error carried while expansion is in progress.
enum InnerErr {
    Missing { missing: String },
    Cycle { path: Vec<String> },
}

impl View for InnerErr {
    type V = InnerErrV;

    closed spec fn view(&self) -> InnerErrV {
        match self {
            InnerErr::Missing { missing } => InnerErrV::Missing { missing: missing@ },
            InnerErr::Cycle { path } => InnerErrV::Cycle { path: path.deep_view() },
        }
    }
}

fn clone_strings(v: &Vec<String>) -> (r: Vec<String>)
    ensures
        r.deep_view() == v.deep_view(),
{
    let n = v.len();
    let mut r: Vec<String> = Vec::new();
    proof {
        assert(r.deep_view() =~~= v.deep_view().take(0));
    }
    for i in 0..n
        invariant
            n == v@.len(),
            r.deep_view() == v.deep_view().take(i as int),
    {
        let ghost prev = r.deep_view();
        r.push(v[i].clone());
        proof {
            assert(r.deep_view() =~~= prev.push(v@[i as int]@));
            assert(prev.push(v@[i as int]@) =~~= v.deep_view().take(i + 1));
        }
    }
    proof {
        assert(v.deep_view().take(n as int) =~= v.deep_view());
    }
    r
}

fn path_contains(path: &Vec<String>, name: &str) -> (r: bool)
    ensures
        r == contains_ci(path.deep_view(), name@),
{
    let n = path.len();
    for i in 0..n
        invariant
            n == path@.len(),
            forall|j: int| 0 <= j < i ==> !eq_ci(path.deep_view()[j], name@),
    {
        if eq_ignore_case(path[i].as_str(), name) {
            proof {
                assert(0 <= i < path.deep_view().len() && eq_ci(
                    path.deep_view()[i as int],
                    name@,
                ));
            }
            return true;
        }
    }
    false
}

/// Flattens the tabs of one leaf workspace, none of them marked first yet.
fn directives_of_tabs(tabs: &Vec<Tab>) -> (r: Vec<LaunchDirective>)
    ensures
        r.deep_view() == tabs.deep_view().map_values(|t: TabV| directive_of_tab(t)),
{
    let n = tabs.len();
    let mut r: Vec<LaunchDirective> = Vec::new();
    proof {
        assert(r.deep_view() =~~= tabs.deep_view().take(0).map_values(
            |t: TabV| directive_of_tab(t),
        ));
    }
    for i in 0..n
        invariant
            n == tabs@.len(),
            r.deep_view() == tabs.deep_view().take(i as int).map_values(
                |t: TabV| directive_of_tab(t),
            ),
    {
        let t = &tabs[i];
        let title = match &t.title {
            Some(s) => Some(s.clone()),
            None => None,
        };
        let commands = match &t.commands {
            Some(cs) => clone_strings(cs),
            None => Vec::new(),
        };
        let split_pane = match t.split_pane {
            Some(b) => b,
            None => false,
        };
        let d = LaunchDirective {
            title,
            starting_directory: t.starting_directory.clone(),
            commands,
            split_pane,
            is_first_overall: false,
        };
        let ghost prev = r.deep_view();
        proof {
            assert(d@ =~~= directive_of_tab(tabs.deep_view()[i as int]));
        }
        r.push(d);
        proof {
            assert(r.deep_view() =~~= prev.push(directive_of_tab(tabs.deep_view()[i as int])));
            assert(prev.push(directive_of_tab(tabs.deep_view()[i as int])) =~~= tabs.deep_view()
                .take(i + 1).map_values(|t: TabV| directive_of_tab(t)));
        }
    }
    proof {
        assert(tabs.deep_view().take(n as int) =~= tabs.deep_view());
    }
    r
}

/// Expands one name against the table, `path` being the group names already
/// being expanded on the current recursion path.
fn resolve_name(config: &Config, name: &str, path: &Vec<String>) -> (r: Result<
    Vec<LaunchDirective>,
    InnerErr,
>)
    ensures
        ({
            let s = resolve_name_spec(config@, name@, path.deep_view());
            match r {
                Ok(ds) => s is Ok && ds.deep_view() == s->Ok_0,
                Err(e) => s is Err && e@ == s->Err_0,
            }
        }),
    decreases unvisited_count(config@, path.deep_view()),
{
    let found = get_workspace(config, name.to_owned());
    match found {
        None => Err(InnerErr::Missing { missing: name.to_owned() }),
        Some(w) => match w {
            Workspace::Leaf { tabs, .. } => Ok(directives_of_tabs(tabs)),
            Workspace::Group { name: gname, members } => {
                if path_contains(path, gname.as_str()) {
                    let mut p = clone_strings(path);
                    let ghost prev = p.deep_view();
                    p.push(gname.clone());
                    proof {
                        assert(p.deep_view() =~~= prev.push(gname@));
                    }
                    Err(InnerErr::Cycle { path: p })
                } else {
                    let mut path2 = clone_strings(path);
                    let ghost prev = path2.deep_view();
                    path2.push(gname.clone());
                    proof {
                        assert(path2.deep_view() =~~= prev.push(gname@));
                    }
                    let ghost ws = config@;
                    let ghost mem = members.deep_view();
                    let ghost p2 = path2.deep_view();
                    let n = members.len();
                    let mut acc: Vec<LaunchDirective> = Vec::new();
                    proof {
                        lemma_lookup_found(ws, name@);
                        let k = choose|k: int| 0 <= k < ws.len() && ws[k] == lookup(ws, name@)->Some_0;
                        assert(eq_ci(name_of(ws[k]), gname@));
                        lemma_unvisited_push_lt(ws, path.deep_view(), gname@);
                        assert(mem.skip(0) =~= mem);
                        assert(acc.deep_view() =~~= Seq::<DirectiveV>::empty());
                        assert(resolve_name_spec(config@, name@, path.deep_view())
                            == resolve_members_spec(ws, mem, p2));
                        if resolve_members_spec(ws, mem, p2) is Ok {
                            assert(Seq::<DirectiveV>::empty() + resolve_members_spec(
                                ws,
                                mem,
                                p2,
                            )->Ok_0 =~~= resolve_members_spec(ws, mem, p2)->Ok_0);
                        }
                    }
                    for i in 0..n
                        invariant
                            n == mem.len(),
                            ws == config@,
                            p2 == path2.deep_view(),
                            mem == members.deep_view(),
                            resolve_name_spec(config@, name@, path.deep_view()) == ok_concat(
                                acc.deep_view(),
                                resolve_members_spec(ws, mem.skip(i as int), p2),
                            ),
                            unvisited_count(ws, p2) < unvisited_count(ws, path.deep_view()),
                    {
                        let ghost rest = mem.skip(i as int);
                        proof {
                            assert(rest[0] == mem[i as int]);
                            assert(rest.drop_first() =~= mem.skip(i + 1));
                        }
                        match resolve_name(config, members[i].as_str(), &path2) {
                            Err(e) => {
                                return Err(e);
                            },
                            Ok(mut ds) => {
                                let ghost prev_acc = acc.deep_view();
                                let ghost dsv = ds.deep_view();
                                acc.append(&mut ds);
                                proof {
                                    assert(acc.deep_view() =~~= prev_acc + dsv);
                                    if resolve_members_spec(ws, mem.skip(i + 1), p2) is Ok {
                                        assert((prev_acc + dsv) + resolve_members_spec(
                                            ws,
                                            mem.skip(i + 1),
                                            p2,
                                        )->Ok_0 =~~= prev_acc + (dsv + resolve_members_spec(
                                            ws,
                                            mem.skip(i + 1),
                                            p2,
                                        )->Ok_0));
                                    }
                                }
                            },
                        }
                    }
                    proof {
                        assert(mem.skip(n as int) =~= Seq::<Seq<char>>::empty());
                        assert(acc.deep_view() + Seq::<DirectiveV>::empty() =~~= acc.deep_view());
                    }
                    Ok(acc)
                }
            },
        },
    }
}

/// What `resolve` returns: the expansion of `name` against the table, with
/// the first directive marked, and inner failures attributed to `name`.
pub open spec fn resolve_result_spec(ws: Seq<WorkspaceV>, name: Seq<char>) -> Result<
    Seq<DirectiveV>,
    ResolveErrorV,
> {
    match resolve_name_spec(ws, name, Seq::empty()) {
        Ok(ds) => Ok(mark_first(ds)),
        Err(InnerErrV::Missing { missing }) => Err(
            ResolveErrorV::NotFound {
                name,
                member: if eq_ci(missing, name) {
                    None
                } else {
                    Some(missing)
                },
            },
        ),
        Err(InnerErrV::Cycle { path }) => Err(ResolveErrorV::CyclicReference { path }),
    }
}

/// Expands the workspace named `name` (case-insensitively) into the ordered
/// sequence of launch directives, depth-first and left-to-right through
/// groups, marking only the very first directive as the first overall.
/// Fails with `NotFound` when `name` or a group member is unknown, and with
/// `CyclicReference` when a group is reached again while it is still being
/// expanded.
pub fn resolve(config: &Config, name: &str) -> (r: Result<Vec<LaunchDirective>, ResolveError>)
    ensures
        ({
            let s = resolve_result_spec(config@, name@);
            match r {
                Ok(ds) => s is Ok && ds.deep_view() == s->Ok_0,
                Err(e) => s is Err && e@ == s->Err_0,
            }
        }),
{
    let empty_path: Vec<String> = Vec::new();
    proof {
        assert(empty_path.deep_view() =~~= Seq::<Seq<char>>::empty());
    }
    match resolve_name(config, name, &empty_path) {
        Ok(mut ds) => {
            let ghost plain = ds.deep_view();
            if ds.len() > 0 {
                let mut first = ds.remove(0);
                first.is_first_overall = true;
                let ghost marked = first@;
                ds.insert(0, first);
                proof {
                    assert(marked =~~= DirectiveV { is_first_overall: true, ..plain[0] });
                    assert(ds.deep_view() =~~= mark_first(plain));
                }
            }
            Ok(ds)
        },
        Err(InnerErr::Missing { missing }) => {
            let member = if eq_ignore_case(missing.as_str(), name) {
                None
            } else {
                Some(missing)
            };
            Err(ResolveError::NotFound { name: name.to_owned(), member })
        },
        Err(InnerErr::Cycle { path }) => Err(ResolveError::CyclicReference { path }),
    }
}

/// Law: resolving a name that matches a leaf workspace yields one directive
/// per tab, in declaration order, with only the very first directive marked
/// as the first overall.
pub proof fn lemma_resolve_leaf(
    ws: Seq<WorkspaceV>,
    name: Seq<char>,
    lname: Seq<char>,
    tabs: Seq<TabV>,
)
    requires
        lookup(ws, name) == Some(WorkspaceV::Leaf { name: lname, tabs }),
    ensures
        resolve_result_spec(ws, name) is Ok,
        resolve_result_spec(ws, name)->Ok_0.len() == tabs.len(),
        forall|i: int|
            0 <= i < tabs.len() ==> resolve_result_spec(ws, name)->Ok_0[i] == (DirectiveV {
                is_first_overall: i == 0,
                ..directive_of_tab(tabs[i])
            }),
{
    let ds = tabs.map_values(|t: TabV| directive_of_tab(t));
    assert(resolve_name_spec(ws, name, Seq::empty()) == Ok::<Seq<DirectiveV>, InnerErrV>(ds));
    let out = resolve_result_spec(ws, name)->Ok_0;
    assert(out == mark_first(ds));
    assert forall|i: int| 0 <= i < tabs.len() implies out[i] == (DirectiveV {
        is_first_overall: i == 0,
        ..directive_of_tab(tabs[i])
    }) by {
        if i == 0 {
            assert(out[0] == DirectiveV { is_first_overall: true, ..ds[0] });
        } else {
            assert(out[i] == ds[i]);
            assert(ds[i] =~~= (DirectiveV { is_first_overall: false, ..directive_of_tab(tabs[i]) }));
        }
    }
}

/// Law: resolving a group of two leaf members yields the concatenation of
/// the first member's directives and then the second's, with the first
/// directive of the whole sequence alone marked as the first overall.
pub proof fn lemma_resolve_group_concat(
    ws: Seq<WorkspaceV>,
    name: Seq<char>,
    gname: Seq<char>,
    m1: Seq<char>,
    m2: Seq<char>,
    n1: Seq<char>,
    tabs1: Seq<TabV>,
    n2: Seq<char>,
    tabs2: Seq<TabV>,
)
    requires
        lookup(ws, name) == Some(WorkspaceV::Group { name: gname, members: seq![m1, m2] }),
        lookup(ws, m1) == Some(WorkspaceV::Leaf { name: n1, tabs: tabs1 }),
        lookup(ws, m2) == Some(WorkspaceV::Leaf { name: n2, tabs: tabs2 }),
    ensures
        resolve_result_spec(ws, name) == Ok::<Seq<DirectiveV>, ResolveErrorV>(
            mark_first(
                tabs1.map_values(|t: TabV| directive_of_tab(t)) + tabs2.map_values(
                    |t: TabV| directive_of_tab(t),
                ),
            ),
        ),
{
    let ds1 = tabs1.map_values(|t: TabV| directive_of_tab(t));
    let ds2 = tabs2.map_values(|t: TabV| directive_of_tab(t));
    let members = seq![m1, m2];
    let p = Seq::<Seq<char>>::empty().push(gname);
    assert(!contains_ci(Seq::empty(), gname));
    assert(resolve_name_spec(ws, name, Seq::empty()) == resolve_members_spec(ws, members, p));
    assert(resolve_name_spec(ws, m1, p) == Ok::<Seq<DirectiveV>, InnerErrV>(ds1));
    assert(resolve_name_spec(ws, m2, p) == Ok::<Seq<DirectiveV>, InnerErrV>(ds2));
    assert(members.drop_first() =~= seq![m2]);
    assert(seq![m2].drop_first() =~= Seq::<Seq<char>>::empty());
    assert(resolve_members_spec(ws, Seq::empty(), p) == Ok::<Seq<DirectiveV>, InnerErrV>(
        Seq::empty(),
    ));
    assert(resolve_members_spec(ws, seq![m2], p) == Ok::<Seq<DirectiveV>, InnerErrV>(
        ds2 + Seq::empty(),
    ));
    assert(ds2 + Seq::<DirectiveV>::empty() =~= ds2);
    assert(resolve_members_spec(ws, members, p) == Ok::<Seq<DirectiveV>, InnerErrV>(ds1 + ds2));
}

proof fn lemma_members_first_err(
    ws: Seq<WorkspaceV>,
    members: Seq<Seq<char>>,
    path: Seq<Seq<char>>,
    j: int,
)
    requires
        0 <= j < members.len(),
        forall|i: int| 0 <= i < j ==> resolve_name_spec(ws, members[i], path) is Ok,
        resolve_name_spec(ws, members[j], path) is Err,
    ensures
        resolve_members_spec(ws, members, path) == resolve_name_spec(ws, members[j], path),
    decreases j,
{
    let rest = members.drop_first();
    if j == 0 {
    } else {
        assert(forall|i: int| 0 <= i < j - 1 ==> rest[i] == members[i + 1]);
        lemma_members_first_err(ws, rest, path, j - 1);
    }
}

/// Law: a group that names itself among its members fails with a cyclic
/// reference carrying the expansion path — rather than expanding without
/// bound — provided each member before the self-reference resolves.
pub proof fn lemma_resolve_self_cycle(
    ws: Seq<WorkspaceV>,
    name: Seq<char>,
    gname: Seq<char>,
    members: Seq<Seq<char>>,
    j: int,
)
    requires
        lookup(ws, name) == Some(WorkspaceV::Group { name: gname, members }),
        0 <= j < members.len(),
        forall|i: int|
            0 <= i < j ==> resolve_name_spec(ws, members[i], seq![gname]) is Ok,
        lookup(ws, members[j]) == Some(WorkspaceV::Group { name: gname, members }),
    ensures
        resolve_result_spec(ws, name) == Err::<Seq<DirectiveV>, ResolveErrorV>(
            ResolveErrorV::CyclicReference { path: seq![gname, gname] },
        ),
{
    let p = Seq::<Seq<char>>::empty().push(gname);
    assert(p =~= seq![gname]);
    assert(!contains_ci(Seq::empty(), gname));
    assert(resolve_name_spec(ws, name, Seq::empty()) == resolve_members_spec(ws, members, p));
    assert(p[0] == gname && eq_ci(p[0], gname));
    assert(contains_ci(p, gname));
    assert(resolve_name_spec(ws, members[j], p) == Err::<Seq<DirectiveV>, InnerErrV>(
        InnerErrV::Cycle { path: p.push(gname) },
    ));
    lemma_members_first_err(ws, members, p, j);
    assert(p.push(gname) =~= seq![gname, gname]);
}

/// Law: a group reached again through another group — an indirect cycle —
/// fails with a cyclic reference carrying the whole expansion path.
pub proof fn lemma_resolve_indirect_cycle(
    ws: Seq<WorkspaceV>,
    name: Seq<char>,
    g1: Seq<char>,
    ms1: Seq<Seq<char>>,
    g2: Seq<char>,
    ms2: Seq<Seq<char>>,
)
    requires
        lookup(ws, name) == Some(WorkspaceV::Group { name: g1, members: ms1 }),
        ms1.len() > 0,
        lookup(ws, ms1[0]) == Some(WorkspaceV::Group { name: g2, members: ms2 }),
        !eq_ci(g1, g2),
        ms2.len() > 0,
        lookup(ws, ms2[0]) == Some(WorkspaceV::Group { name: g1, members: ms1 }),
    ensures
        resolve_result_spec(ws, name) == Err::<Seq<DirectiveV>, ResolveErrorV>(
            ResolveErrorV::CyclicReference { path: seq![g1, g2, g1] },
        ),
{
    let p1 = Seq::<Seq<char>>::empty().push(g1);
    assert(!contains_ci(Seq::empty(), g1));
    assert(resolve_name_spec(ws, name, Seq::empty()) == resolve_members_spec(ws, ms1, p1));
    assert(forall|k: int| 0 <= k < p1.len() ==> p1[k] == g1);
    assert(!contains_ci(p1, g2));
    let p2 = p1.push(g2);
    assert(resolve_name_spec(ws, ms1[0], p1) == resolve_members_spec(ws, ms2, p2));
    assert(p2[0] == g1 && eq_ci(p2[0], g1));
    assert(contains_ci(p2, g1));
    assert(resolve_name_spec(ws, ms2[0], p2) == Err::<Seq<DirectiveV>, InnerErrV>(
        InnerErrV::Cycle { path: p2.push(g1) },
    ));
    assert(p2.push(g1) =~= seq![g1, g2, g1]);
}

} // verus!

//! Operation plans: what an operation on a set of projects would touch, the
//! warnings it raises and the confirmation token it asks for, worked out
//! without touching Docker.
use vstd::prelude::*;
use crate::domain::{
    find_project, is_active_spec, pviews, ContainerView, DockerSnapshot, OperationAction, Project,
    ProjectKind, ProjectView,
};
use crate::sorted::{is_sorted_set_of, set_extend, set_insert, strictly_sorted, strs};
use crate::text::{decimal, decimal_string, owned, push_str};

verus! {

/// What an operation would do.
#[derive(Debug, Clone, PartialEq, Eq)]
pub struct OperationPlan {
    pub action: OperationAction,
    pub projects: Vec<String>,
    pub containers: Vec<String>,
    pub networks: Vec<String>,
    pub volumes: Vec<String>,
    pub images: Vec<String>,
    pub confirmation_token: Option<String>,
    pub summary: String,
    pub warnings: Vec<String>,
}

/// What an executed operation achieved.
#[derive(Debug, Clone, PartialEq, Eq)]
pub struct OperationResult {
    pub action: OperationAction,
    pub success: Vec<String>,
    pub failed: Vec<OperationFailure>,
}

/// A target an operation failed on, with the engine's message.
#[derive(Debug, Clone, PartialEq, Eq)]
pub struct OperationFailure {
    pub target: String,
    pub message: String,
}

/// Why no plan could be made.
#[derive(Debug, Clone, PartialEq, Eq)]
pub enum PlanError {
    /// No project was named for an operation that needs one.
    NoProjectSelected,
    /// A named project is not in the snapshot.
    ProjectNotFound(String),
}

pub open spec fn plan_error_text(e: PlanError) -> Seq<char> {
    match e {
        PlanError::NoProjectSelected => "请至少选择一个项目。"@,
        PlanError::ProjectNotFound(n) => "未找到项目: "@ + n@,
    }
}

impl PlanError {
    /// The message shown for the error.
    pub fn message(&self) -> (r: String)
        ensures
            r@ == plan_error_text(*self),
    {
        match self {
            PlanError::NoProjectSelected => owned("请至少选择一个项目。"),
            PlanError::ProjectNotFound(n) => {
                let mut s = owned("未找到项目: ");
                push_str(&mut s, n.as_str());
                s
            },
        }
    }
}

/// Works out operation plans against one snapshot.
pub struct OperationPlanner<'a> {
    snapshot: &'a DockerSnapshot,
}

// ---------------------------------------------------------------------------
// What each project contributes
// ---------------------------------------------------------------------------

/// The ids of the containers an action touches in a project: all of them for
/// start, restart, remove and purge; the active ones for stop and rescue;
/// none for prune.
pub open spec fn touched_ids(cs: Seq<ContainerView>, action: OperationAction) -> Set<Seq<char>>
    decreases cs.len(),
{
    if cs.len() == 0 {
        Set::empty()
    } else {
        let rest = touched_ids(cs.drop_last(), action);
        let c = cs.last();
        let takes = match action {
            OperationAction::Start | OperationAction::Restart | OperationAction::Remove
            | OperationAction::Purge => true,
            OperationAction::Stop | OperationAction::Rescue => is_active_spec(c.state),
            OperationAction::Prune => false,
        };
        if takes {
            rest.insert(c.id)
        } else {
            rest
        }
    }
}

/// The networks an action removes with a project: those of a Compose or
/// stack project, for remove and purge. A standalone group's networks count
/// as shared.
pub open spec fn touched_networks(p: ProjectView, action: OperationAction) -> Set<Seq<char>> {
    if (action == OperationAction::Remove || action == OperationAction::Purge) && p.kind
        != ProjectKind::Standalone {
        p.networks.to_set()
    } else {
        Set::empty()
    }
}

/// The volumes an action removes with a project: all of them, for purge only.
pub open spec fn touched_volumes(p: ProjectView, action: OperationAction) -> Set<Seq<char>> {
    if action == OperationAction::Purge {
        p.volumes.to_set()
    } else {
        Set::empty()
    }
}

/// The images an action removes with a project: all of them, for purge only.
pub open spec fn touched_images(p: ProjectView, action: OperationAction) -> Set<Seq<char>> {
    if action == OperationAction::Purge {
        p.images.to_set()
    } else {
        Set::empty()
    }
}

/// The warnings a project raises for an action.
pub open spec fn project_warnings(p: ProjectView, action: OperationAction) -> Seq<Seq<char>> {
    match action {
        OperationAction::Rescue => if p.unhealthy == 0 && p.restarting == 0 {
            seq!["项目 "@ + p.name + " 没有明显异常，rescue 将按 restart 处理。"@]
        } else {
            seq!["项目 "@ + p.name + " 异常信号: "@ + rescue_signals(p)]
        },
        OperationAction::Remove | OperationAction::Purge => if p.kind == ProjectKind::Standalone {
            seq!["项目 "@ + p.name + " 是 standalone 分组，网络默认视为共享资源，不会自动删除。"@]
        } else {
            Seq::empty()
        },
        _ => Seq::empty(),
    }
}

/// The abnormal signals of a project: unhealthy and restarting counts.
pub open spec fn rescue_signals(p: ProjectView) -> Seq<char> {
    let u = decimal(p.unhealthy as nat) + " unhealthy"@;
    let r = decimal(p.restarting as nat) + " restarting"@;
    if p.unhealthy > 0 && p.restarting > 0 {
        u + ", "@ + r
    } else if p.unhealthy > 0 {
        u
    } else {
        r
    }
}

/// Union of a per-project contribution over the projects.
pub open spec fn ids_of(ps: Seq<ProjectView>, action: OperationAction) -> Set<Seq<char>>
    decreases ps.len(),
{
    if ps.len() == 0 {
        Set::empty()
    } else {
        ids_of(ps.drop_last(), action) + touched_ids(ps.last().containers, action)
    }
}

pub open spec fn networks_of(ps: Seq<ProjectView>, action: OperationAction) -> Set<Seq<char>>
    decreases ps.len(),
{
    if ps.len() == 0 {
        Set::empty()
    } else {
        networks_of(ps.drop_last(), action) + touched_networks(ps.last(), action)
    }
}

pub open spec fn volumes_of(ps: Seq<ProjectView>, action: OperationAction) -> Set<Seq<char>>
    decreases ps.len(),
{
    if ps.len() == 0 {
        Set::empty()
    } else {
        volumes_of(ps.drop_last(), action) + touched_volumes(ps.last(), action)
    }
}

pub open spec fn images_of(ps: Seq<ProjectView>, action: OperationAction) -> Set<Seq<char>>
    decreases ps.len(),
{
    if ps.len() == 0 {
        Set::empty()
    } else {
        images_of(ps.drop_last(), action) + touched_images(ps.last(), action)
    }
}

pub open spec fn warnings_of(ps: Seq<ProjectView>, action: OperationAction) -> Seq<Seq<char>>
    decreases ps.len(),
{
    if ps.len() == 0 {
        Seq::empty()
    } else {
        warnings_of(ps.drop_last(), action) + project_warnings(ps.last(), action)
    }
}

/// The two notes a prune plan always carries.
pub open spec fn prune_notes() -> Seq<Seq<char>> {
    seq![
        "safe-prune executes stopped containers, unused networks, and dangling images only; volumes are excluded."@,
        "执行前请确认没有依赖 stopped containers 或 dangling images 的离线调试流程。"@,
    ]
}

// ---------------------------------------------------------------------------
// Token and summary
// ---------------------------------------------------------------------------

/// The token an action must be confirmed with: `REMOVE-<project>` or
/// `REMOVE-BATCH-<n>` for remove, `DELETE-<project>` or `DELETE-BATCH-<n>`
/// for purge, `PRUNE` for prune; none for the others.
pub open spec fn token_spec(action: OperationAction, names: Seq<Seq<char>>) -> Option<Seq<char>> {
    match action {
        OperationAction::Remove => Some(
            if names.len() == 1 {
                "REMOVE-"@ + names[0]
            } else {
                "REMOVE-BATCH-"@ + decimal(names.len())
            },
        ),
        OperationAction::Purge => Some(
            if names.len() == 1 {
                "DELETE-"@ + names[0]
            } else {
                "DELETE-BATCH-"@ + decimal(names.len())
            },
        ),
        OperationAction::Prune => Some("PRUNE"@),
        _ => None,
    }
}

pub open spec fn opt_chars(o: Option<String>) -> Option<Seq<char>> {
    match o {
        Some(s) => Some(s@),
        None => None,
    }
}

/// The confirmation token of an action on the named projects.
pub fn confirmation_token(action: OperationAction, projects: &Vec<String>) -> (r: Option<String>)
    ensures
        opt_chars(r) == token_spec(action, strs(projects@)),
{
    match action {
        OperationAction::Remove => {
            if projects.len() == 1 {
                let mut s = owned("REMOVE-");
                push_str(&mut s, projects[0].as_str());
                Some(s)
            } else {
                let mut s = owned("REMOVE-BATCH-");
                let n = decimal_string(projects.len() as u128);
                push_str(&mut s, n.as_str());
                Some(s)
            }
        },
        OperationAction::Purge => {
            if projects.len() == 1 {
                let mut s = owned("DELETE-");
                push_str(&mut s, projects[0].as_str());
                Some(s)
            } else {
                let mut s = owned("DELETE-BATCH-");
                let n = decimal_string(projects.len() as u128);
                push_str(&mut s, n.as_str());
                Some(s)
            }
        },
        OperationAction::Prune => Some(owned("PRUNE")),
        _ => None,
    }
}

/// The one-line summary of a plan with the given resource counts.
pub open spec fn summary_spec(action: OperationAction, c: nat, n: nat, v: nat, i: nat) -> Seq<char> {
    match action {
        OperationAction::Start => "将启动 "@ + decimal(c) + " 个容器。"@,
        OperationAction::Stop => "将停止 "@ + decimal(c) + " 个活动容器。"@,
        OperationAction::Restart => "将重启 "@ + decimal(c) + " 个容器。"@,
        OperationAction::Remove => "将删除 "@ + decimal(c) + " 个容器、"@ + decimal(n)
            + " 个网络，保留卷和镜像。"@,
        OperationAction::Purge => "将完全删除 "@ + decimal(c) + " 个容器、"@ + decimal(n)
            + " 个网络、"@ + decimal(v) + " 个卷、"@ + decimal(i) + " 个镜像。"@,
        OperationAction::Prune => "Safe-prune will target stopped containers, unused networks, and dangling images; volumes are excluded."@,
        OperationAction::Rescue => "将对 "@ + decimal(c) + " 个异常/活动容器执行恢复重启。"@,
    }
}

fn push_count(s: &mut String, n: usize)
    ensures
        final(s)@ == old(s)@ + decimal(n as nat),
{
    let d = decimal_string(n as u128);
    push_str(s, d.as_str());
}

/// The summary line of a plan.
pub fn plan_summary(
    action: OperationAction,
    containers: &Vec<String>,
    networks: &Vec<String>,
    volumes: &Vec<String>,
    images: &Vec<String>,
) -> (r: String)
    ensures
        r@ == summary_spec(
            action,
            containers@.len(),
            networks@.len(),
            volumes@.len(),
            images@.len(),
        ),
{
    match action {
        OperationAction::Start => {
            let mut s = owned("将启动 ");
            push_count(&mut s, containers.len());
            push_str(&mut s, " 个容器。");
            s
        },
        OperationAction::Stop => {
            let mut s = owned("将停止 ");
            push_count(&mut s, containers.len());
            push_str(&mut s, " 个活动容器。");
            s
        },
        OperationAction::Restart => {
            let mut s = owned("将重启 ");
            push_count(&mut s, containers.len());
            push_str(&mut s, " 个容器。");
            s
        },
        OperationAction::Remove => {
            let mut s = owned("将删除 ");
            push_count(&mut s, containers.len());
            push_str(&mut s, " 个容器、");
            push_count(&mut s, networks.len());
            push_str(&mut s, " 个网络，保留卷和镜像。");
            s
        },
        OperationAction::Purge => {
            let mut s = owned("将完全删除 ");
            push_count(&mut s, containers.len());
            push_str(&mut s, " 个容器、");
            push_count(&mut s, networks.len());
            push_str(&mut s, " 个网络、");
            push_count(&mut s, volumes.len());
            push_str(&mut s, " 个卷、");
            push_count(&mut s, images.len());
            push_str(&mut s, " 个镜像。");
            s
        },
        OperationAction::Prune => owned(
            "Safe-prune will target stopped containers, unused networks, and dangling images; volumes are excluded.",
        ),
        OperationAction::Rescue => {
            let mut s = owned("将对 ");
            push_count(&mut s, containers.len());
            push_str(&mut s, " 个异常/活动容器执行恢复重启。");
            s
        },
    }
}


// ---------------------------------------------------------------------------
// Collecting a project's resources
// ---------------------------------------------------------------------------

fn project_warnings_exec(project: &Project, action: OperationAction, warnings: &mut Vec<String>)
    ensures
        strs(final(warnings)@) == strs(old(warnings)@) + project_warnings(project@, action),
{
    let ghost w0 = strs(warnings@);
    match action {
        OperationAction::Rescue => {
            let mut s = owned("项目 ");
            push_str(&mut s, project.name.as_str());
            if project.unhealthy == 0 && project.restarting == 0 {
                push_str(&mut s, " 没有明显异常，rescue 将按 restart 处理。");
                assert(s@ =~= "项目 "@ + project.name@ + " 没有明显异常，rescue 将按 restart 处理。"@);
            } else {
                push_str(&mut s, " 异常信号: ");
                let ghost head = s@;
                let mut sig = String::new();
                if project.unhealthy > 0 {
                    push_count(&mut sig, project.unhealthy);
                    push_str(&mut sig, " unhealthy");
                }
                if project.unhealthy > 0 && project.restarting > 0 {
                    push_str(&mut sig, ", ");
                }
                if project.restarting > 0 {
                    push_count(&mut sig, project.restarting);
                    push_str(&mut sig, " restarting");
                }
                assert(sig@ =~= rescue_signals(project@));
                push_str(&mut s, sig.as_str());
                assert(s@ =~= "项目 "@ + project.name@ + " 异常信号: "@ + rescue_signals(project@));
            }
            warnings.push(s);
            assert(strs(warnings@) =~= w0 + project_warnings(project@, action));
        },
        OperationAction::Remove | OperationAction::Purge => {
            if project.kind == ProjectKind::Standalone {
                let mut s = owned("项目 ");
                push_str(&mut s, project.name.as_str());
                push_str(&mut s, " 是 standalone 分组，网络默认视为共享资源，不会自动删除。");
                assert(s@ =~= "项目 "@ + project.name@ + " 是 standalone 分组，网络默认视为共享资源，不会自动删除。"@);
                warnings.push(s);
                assert(strs(warnings@) =~= w0 + project_warnings(project@, action));
            } else {
                assert(strs(warnings@) =~= w0 + project_warnings(project@, action));
            }
        },
        _ => {
            assert(strs(warnings@) =~= w0 + project_warnings(project@, action));
        },
    }
}

/// Adds what an action touches in one project to the plan's sets and
/// warnings.
pub fn collect_project_resources(
    project: &Project,
    action: OperationAction,
    containers: &mut Vec<String>,
    networks: &mut Vec<String>,
    volumes: &mut Vec<String>,
    images: &mut Vec<String>,
    warnings: &mut Vec<String>,
)
    requires
        strictly_sorted(strs(old(containers)@)),
        strictly_sorted(strs(old(networks)@)),
        strictly_sorted(strs(old(volumes)@)),
        strictly_sorted(strs(old(images)@)),
    ensures
        strictly_sorted(strs(final(containers)@)),
        strictly_sorted(strs(final(networks)@)),
        strictly_sorted(strs(final(volumes)@)),
        strictly_sorted(strs(final(images)@)),
        strs(final(containers)@).to_set() == strs(old(containers)@).to_set() + touched_ids(
            project@.containers,
            action,
        ),
        strs(final(networks)@).to_set() == strs(old(networks)@).to_set() + touched_networks(
            project@,
            action,
        ),
        strs(final(volumes)@).to_set() == strs(old(volumes)@).to_set() + touched_volumes(
            project@,
            action,
        ),
        strs(final(images)@).to_set() == strs(old(images)@).to_set() + touched_images(
            project@,
            action,
        ),
        strs(final(warnings)@) == strs(old(warnings)@) + project_warnings(project@, action),
{
    let ghost cs = project@.containers;
    let ghost c0 = strs(containers@).to_set();
    let mut i: usize = 0;
    proof {
        assert(cs.take(0) =~= Seq::<ContainerView>::empty());
        assert(touched_ids(cs.take(0), action) =~= Set::empty());
        assert(c0 + Set::empty() =~= c0);
    }
    while i < project.containers.len()
        invariant
            i <= project.containers.len(),
            cs == project@.containers,
            strictly_sorted(strs(containers@)),
            strs(containers@).to_set() == c0 + touched_ids(cs.take(i as int), action),
        decreases project.containers.len() - i,
    {
        let c = &project.containers[i];
        proof {
            let t1 = cs.take(i + 1);
            assert(t1.drop_last() =~= cs.take(i as int));
            assert(t1.last() == c@);
        }
        let takes = match action {
            OperationAction::Start | OperationAction::Restart | OperationAction::Remove
            | OperationAction::Purge => true,
            OperationAction::Stop | OperationAction::Rescue => c.state.is_active(),
            OperationAction::Prune => false,
        };
        let ghost before = strs(containers@).to_set();
        if takes {
            set_insert(containers, c.id.clone());
            assert(strs(containers@).to_set() =~= c0 + touched_ids(cs.take(i + 1), action));
        } else {
            assert(strs(containers@).to_set() =~= c0 + touched_ids(cs.take(i + 1), action));
        }
        i += 1;
    }
    assert(cs.take(i as int) =~= cs);
    let ghost n0 = strs(networks@).to_set();
    let ghost v0 = strs(volumes@).to_set();
    let ghost i0 = strs(images@).to_set();
    if (action == OperationAction::Remove || action == OperationAction::Purge) && project.kind
        != ProjectKind::Standalone {
        set_extend(networks, &project.networks);
    } else {
        assert(n0 + Set::empty() =~= n0);
    }
    if action == OperationAction::Purge {
        set_extend(volumes, &project.volumes);
        set_extend(images, &project.images);
    } else {
        assert(v0 + Set::empty() =~= v0);
        assert(i0 + Set::empty() =~= i0);
    }
    project_warnings_exec(project, action, warnings);
}

// ---------------------------------------------------------------------------
// Plans
// ---------------------------------------------------------------------------

/// The projects the names select, in the order named.
pub open spec fn selected(ps: Seq<ProjectView>, names: Seq<Seq<char>>) -> Seq<ProjectView> {
    Seq::new(names.len(), |i: int| ps[find_project(ps, names[i], 0)])
}

/// Index of the first name (from `i` on) that no project has, or the number
/// of names.
pub open spec fn first_missing(ps: Seq<ProjectView>, names: Seq<Seq<char>>, i: int) -> int
    decreases names.len() - i,
{
    if i < 0 || i >= names.len() {
        names.len() as int
    } else if find_project(ps, names[i], 0) >= ps.len() {
        i
    } else {
        first_missing(ps, names, i + 1)
    }
}

/// `r` is the plan of `action` on the projects `names` selects.
pub open spec fn is_plan(
    r: OperationPlan,
    ps: Seq<ProjectView>,
    names: Seq<Seq<char>>,
    action: OperationAction,
) -> bool {
    let sel = selected(ps, names);
    &&& r.action == action
    &&& strs(r.projects@) == names
    &&& is_sorted_set_of(strs(r.containers@), ids_of(sel, action))
    &&& is_sorted_set_of(strs(r.networks@), networks_of(sel, action))
    &&& is_sorted_set_of(strs(r.volumes@), volumes_of(sel, action))
    &&& is_sorted_set_of(strs(r.images@), images_of(sel, action))
    &&& opt_chars(r.confirmation_token) == token_spec(action, names)
    &&& r.summary@ == summary_spec(
        action,
        r.containers@.len(),
        r.networks@.len(),
        r.volumes@.len(),
        r.images@.len(),
    )
    &&& strs(r.warnings@) == warnings_of(sel, action) + if action == OperationAction::Prune {
        prune_notes()
    } else {
        Seq::empty()
    }
}

proof fn lemma_find_project_bounds(ps: Seq<ProjectView>, name: Seq<char>, i: int)
    requires
        0 <= i <= ps.len(),
    ensures
        i <= find_project(ps, name, i) <= ps.len(),
        find_project(ps, name, i) < ps.len() ==> ps[find_project(ps, name, i)].name == name,
    decreases ps.len() - i,
{
    if i < ps.len() && ps[i].name != name {
        lemma_find_project_bounds(ps, name, i + 1);
    }
}

proof fn lemma_first_missing(ps: Seq<ProjectView>, names: Seq<Seq<char>>, i: int)
    requires
        0 <= i <= names.len(),
    ensures
        i <= first_missing(ps, names, i) <= names.len(),
        first_missing(ps, names, i) < names.len() ==> find_project(
            ps,
            names[first_missing(ps, names, i)],
            0,
        ) >= ps.len(),
        forall|k: int|
            i <= k < first_missing(ps, names, i) ==> find_project(ps, #[trigger] names[k], 0)
                < ps.len(),
    decreases names.len() - i,
{
    if i < names.len() && find_project(ps, names[i], 0) < ps.len() {
        lemma_first_missing(ps, names, i + 1);
    }
}

impl<'a> OperationPlanner<'a> {
    pub fn new(snapshot: &'a DockerSnapshot) -> (r: Self)
        ensures
            r.snapshot_view() == snapshot@,
    {
        OperationPlanner { snapshot }
    }

    /// The snapshot plans are made against.
    pub closed spec fn snapshot_view(&self) -> crate::domain::SnapshotView {
        self.snapshot@
    }

    /// Plans `action` on the named projects. Every operation but prune needs
    /// at least one project; every name must be that of a project.
    pub fn plan(&self, action: OperationAction, project_names: &[String]) -> (r: Result<
        OperationPlan,
        PlanError,
    >)
        ensures
            ({
                let ps = self.snapshot_view().projects;
                let names = strs(project_names@);
                if names.len() == 0 && action != OperationAction::Prune {
                    r == Err::<OperationPlan, PlanError>(PlanError::NoProjectSelected)
                } else if first_missing(ps, names, 0) < names.len() {
                    r matches Err(PlanError::ProjectNotFound(n)) && n@ == names[first_missing(
                        ps,
                        names,
                        0,
                    )]
                } else {
                    r matches Ok(plan) && is_plan(plan, ps, names, action)
                }
            }),
    {
        let ghost ps = self.snapshot@.projects;
        let ghost names = strs(project_names@);
        if project_names.len() == 0 && !matches!(action, OperationAction::Prune) {
            return Err(PlanError::NoProjectSelected);
        }
        let mut picked: Vec<usize> = Vec::new();
        let mut i: usize = 0;
        while i < project_names.len()
            invariant
                i <= project_names@.len(),
                names == strs(project_names@),
                ps == self.snapshot@.projects,
                picked@.len() == i,
                forall|k: int|
                    0 <= k < i ==> #[trigger] picked@[k] == find_project(ps, names[k], 0)
                        && picked@[k] < ps.len(),
                first_missing(ps, names, 0) == first_missing(ps, names, i as int),
            decreases project_names.len() - i,
        {
            let mut j: usize = 0;
            let mut hit = false;
            proof {
                lemma_find_project_bounds(ps, names[i as int], 0);
            }
            while !hit && j < self.snapshot.projects.len()
                invariant
                    j <= self.snapshot.projects.len(),
                    ps == self.snapshot@.projects,
                    i < project_names@.len(),
                    names == strs(project_names@),
                    find_project(ps, names[i as int], 0) == find_project(
                        ps,
                        names[i as int],
                        j as int,
                    ),
                    hit ==> j < ps.len() && find_project(ps, names[i as int], 0) == j,
                decreases self.snapshot.projects.len() - j + if hit {
                    0int
                } else {
                    1int
                },
            {
                if crate::text::string_eq(&self.snapshot.projects[j].name, &project_names[i]) {
                    hit = true;
                } else {
                    j += 1;
                }
            }
            if !hit {
                assert(first_missing(ps, names, i as int) == i);
                return Err(PlanError::ProjectNotFound(project_names[i].clone()));
            }
            picked.push(j);
            i += 1;
        }
        proof {
            lemma_first_missing(ps, names, 0);
        }
        let mut containers: Vec<String> = Vec::new();
        let mut networks: Vec<String> = Vec::new();
        let mut volumes: Vec<String> = Vec::new();
        let mut images: Vec<String> = Vec::new();
        let mut warnings: Vec<String> = Vec::new();
        let ghost sel = selected(ps, names);
        proof {
            assert(sel.take(0) =~= Seq::<ProjectView>::empty());
            assert(strs(containers@).to_set() =~= Set::empty());
            assert(strs(networks@).to_set() =~= Set::empty());
            assert(strs(volumes@).to_set() =~= Set::empty());
            assert(strs(images@).to_set() =~= Set::empty());
            assert(strs(warnings@) =~= Seq::<Seq<char>>::empty());
        }
        let mut k: usize = 0;
        while k < picked.len()
            invariant
                k <= picked@.len(),
                picked@.len() == names.len(),
                sel == selected(ps, names),
                ps == self.snapshot@.projects,
                forall|t: int|
                    0 <= t < picked@.len() ==> #[trigger] picked@[t] == find_project(
                        ps,
                        names[t],
                        0,
                    ) && picked@[t] < ps.len(),
                strictly_sorted(strs(containers@)),
                strictly_sorted(strs(networks@)),
                strictly_sorted(strs(volumes@)),
                strictly_sorted(strs(images@)),
                strs(containers@).to_set() == ids_of(sel.take(k as int), action),
                strs(networks@).to_set() == networks_of(sel.take(k as int), action),
                strs(volumes@).to_set() == volumes_of(sel.take(k as int), action),
                strs(images@).to_set() == images_of(sel.take(k as int), action),
                strs(warnings@) == warnings_of(sel.take(k as int), action),
            decreases picked.len() - k,
        {
            let idx = picked[k];
            let project = &self.snapshot.projects[idx];
            proof {
                let t1 = sel.take(k + 1);
                assert(t1.drop_last() =~= sel.take(k as int));
                assert(t1.last() == project@);
            }
            collect_project_resources(
                project,
                action,
                &mut containers,
                &mut networks,
                &mut volumes,
                &mut images,
                &mut warnings,
            );
            k += 1;
        }
        assert(sel.take(k as int) =~= sel);
        if matches!(action, OperationAction::Prune) {
            let ghost w0 = strs(warnings@);
            warnings.push(
                owned(
                    "safe-prune executes stopped containers, unused networks, and dangling images only; volumes are excluded.",
                ),
            );
            warnings.push(owned("执行前请确认没有依赖 stopped containers 或 dangling images 的离线调试流程。"));
            assert(strs(warnings@) =~= w0 + prune_notes());
        } else {
            assert(strs(warnings@) =~= strs(warnings@) + Seq::<Seq<char>>::empty());
        }
        let mut projects: Vec<String> = Vec::new();
        let mut t: usize = 0;
        while t < project_names.len()
            invariant
                t <= project_names@.len(),
                names == strs(project_names@),
                strs(projects@) == names.take(t as int),
                projects@.len() == t,
            decreases project_names.len() - t,
        {
            let x = project_names[t].clone();
            let ghost p0 = projects@;
            projects.push(x);
            proof {
                assert forall|q: int| 0 <= q < t + 1 implies #[trigger] strs(projects@)[q] == names[q] by {
                    if q < t {
                        assert(projects@[q] == p0[q]);
                        assert(strs(p0)[q] == names.take(t as int)[q]);
                    }
                }
            }
            t += 1;
            assert(strs(projects@) =~= names.take(t as int));
        }
        assert(names.take(t as int) =~= names);
        let confirmation_token = confirmation_token(action, &projects);
        let summary = plan_summary(action, &containers, &networks, &volumes, &images);
        Ok(
            OperationPlan {
                action,
                projects,
                containers,
                networks,
                volumes,
                images,
                confirmation_token,
                summary,
                warnings,
            },
        )
    }
}

} // verus!

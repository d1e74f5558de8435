//! The project model: containers as Docker reports them, grouped into
//! Compose projects, Swarm stacks and standalone groups, with their state
//! counts and the resources they use.
use vstd::prelude::*;
use crate::config::{AppConfig, GroupConfig};
use crate::sorted::{
    is_sorted_set_of, lookup_str, pair_get, pairs, set_insert, strictly_sorted, strs,
    unique_sorted,
};
use crate::text::{
    ascii_lower, chars_of, compare_strings, contains_str, eq_str, has_infix, has_prefix,
    lemma_lex_asymmetric, lemma_lex_irreflexive, lemma_lex_transitive, lex_lt, lower_of,
    lower_seq, occurs_at, occurs_at_exec, starts_with, string_of, sub_chars, Order,
};

verus! {

/// How a project came to be grouped.
#[derive(Debug, Clone, Copy, PartialEq, Eq, Structural, PartialOrd, Ord)]
pub enum ProjectKind {
    Compose,
    Stack,
    Standalone,
}

/// The state of one container.
#[derive(Debug, Clone, Copy, PartialEq, Eq, Structural)]
pub enum ContainerState {
    Running,
    Restarting,
    Paused,
    Exited,
    Created,
    Dead,
    Unhealthy,
    Unknown,
}

/// `state`, ASCII lower-cased, names this state.
pub open spec fn state_named(name: Seq<char>) -> ContainerState {
    if name == "running"@ {
        ContainerState::Running
    } else if name == "restarting"@ {
        ContainerState::Restarting
    } else if name == "paused"@ {
        ContainerState::Paused
    } else if name == "exited"@ {
        ContainerState::Exited
    } else if name == "created"@ {
        ContainerState::Created
    } else if name == "dead"@ {
        ContainerState::Dead
    } else {
        ContainerState::Unknown
    }
}

/// The state of a container from Docker's state word and status text: a
/// status that reports `(unhealthy)` (in any ASCII case) wins.
pub open spec fn docker_state_spec(state: Seq<char>, status: Seq<char>) -> ContainerState {
    if has_infix(lower_seq(status), "(unhealthy)"@) {
        ContainerState::Unhealthy
    } else {
        state_named(lower_seq(state))
    }
}

/// The four-letter state code of a container state.
pub open spec fn state_code_spec(s: ContainerState) -> Seq<char> {
    match s {
        ContainerState::Running => "UP"@,
        ContainerState::Restarting => "RSTR"@,
        ContainerState::Paused => "PAUS"@,
        ContainerState::Unhealthy => "UNHL"@,
        ContainerState::Exited | ContainerState::Created | ContainerState::Dead => "DOWN"@,
        ContainerState::Unknown => "UNKN"@,
    }
}

/// Running, restarting, paused or unhealthy: the container holds resources.
pub open spec fn is_active_spec(s: ContainerState) -> bool {
    s == ContainerState::Running || s == ContainerState::Restarting || s
        == ContainerState::Paused || s == ContainerState::Unhealthy
}

impl ContainerState {
    pub fn from_docker_state(state: &str, status: &str) -> (r: Self)
        ensures
            r == docker_state_spec(state@, status@),
    {
        let st = lower_of(status);
        if contains_str(&st, "(unhealthy)") {
            return ContainerState::Unhealthy;
        }
        let s = lower_of(state);
        if eq_str(&s, "running") {
            ContainerState::Running
        } else if eq_str(&s, "restarting") {
            ContainerState::Restarting
        } else if eq_str(&s, "paused") {
            ContainerState::Paused
        } else if eq_str(&s, "exited") {
            ContainerState::Exited
        } else if eq_str(&s, "created") {
            ContainerState::Created
        } else if eq_str(&s, "dead") {
            ContainerState::Dead
        } else {
            ContainerState::Unknown
        }
    }

    pub fn is_active(self) -> (r: bool)
        ensures
            r == is_active_spec(self),
    {
        match self {
            ContainerState::Running | ContainerState::Restarting | ContainerState::Paused
            | ContainerState::Unhealthy => true,
            _ => false,
        }
    }

    pub fn state_code(self) -> (r: &'static str)
        ensures
            r@ == state_code_spec(self),
    {
        match self {
            ContainerState::Running => "UP",
            ContainerState::Restarting => "RSTR",
            ContainerState::Paused => "PAUS",
            ContainerState::Unhealthy => "UNHL",
            ContainerState::Exited | ContainerState::Created | ContainerState::Dead => "DOWN",
            ContainerState::Unknown => "UNKN",
        }
    }
}

/// One container as Docker lists it. `labels` are key/value pairs; a later
/// pair for the same key wins.
#[derive(Debug, Clone, PartialEq, Eq)]
pub struct Container {
    pub id: String,
    pub name: String,
    pub image: String,
    pub state: ContainerState,
    pub status: String,
    pub compose_project: Option<String>,
    pub stack_namespace: Option<String>,
    pub labels: Vec<(String, String)>,
    pub networks: Vec<String>,
    pub volumes: Vec<String>,
    pub ports: Vec<String>,
}

/// The contents of a container, every text as its characters.
pub struct ContainerView {
    pub id: Seq<char>,
    pub name: Seq<char>,
    pub image: Seq<char>,
    pub state: ContainerState,
    pub status: Seq<char>,
    pub compose_project: Option<Seq<char>>,
    pub stack_namespace: Option<Seq<char>>,
    pub labels: Seq<(Seq<char>, Seq<char>)>,
    pub networks: Seq<Seq<char>>,
    pub volumes: Seq<Seq<char>>,
    pub ports: Seq<Seq<char>>,
}

pub open spec fn opt_chars(o: Option<String>) -> Option<Seq<char>> {
    match o {
        Some(s) => Some(s@),
        None => None,
    }
}

impl View for Container {
    type V = ContainerView;

    open spec fn view(&self) -> ContainerView {
        ContainerView {
            id: self.id@,
            name: self.name@,
            image: self.image@,
            state: self.state,
            status: self.status@,
            compose_project: opt_chars(self.compose_project),
            stack_namespace: opt_chars(self.stack_namespace),
            labels: pairs(self.labels@),
            networks: strs(self.networks@),
            volumes: strs(self.volumes@),
            ports: strs(self.ports@),
        }
    }
}

/// The contents of each container.
pub open spec fn cviews(s: Seq<Container>) -> Seq<ContainerView> {
    Seq::new(s.len(), |i: int| s[i]@)
}

/// A Docker object that an operation touches.
#[derive(Debug, Clone, PartialEq, Eq)]
pub struct ResourceRef {
    pub id: String,
    pub name: String,
    pub kind: ResourceKind,
    pub project: Option<String>,
}

#[derive(Debug, Clone, Copy, PartialEq, Eq, Structural)]
pub enum ResourceKind {
    Container,
    Network,
    Volume,
    Image,
}

/// A group of containers with their state counts and the networks, volumes,
/// images and published ports they use (each sorted, without duplicates).
#[derive(Debug, Clone, PartialEq, Eq)]
pub struct Project {
    pub name: String,
    pub kind: ProjectKind,
    pub containers: Vec<Container>,
    pub running: usize,
    pub restarting: usize,
    pub paused: usize,
    pub unhealthy: usize,
    pub stopped: usize,
    pub networks: Vec<String>,
    pub volumes: Vec<String>,
    pub images: Vec<String>,
    pub ports: Vec<String>,
}

/// The contents of a project, every text as its characters.
pub struct ProjectView {
    pub name: Seq<char>,
    pub kind: ProjectKind,
    pub containers: Seq<ContainerView>,
    pub running: usize,
    pub restarting: usize,
    pub paused: usize,
    pub unhealthy: usize,
    pub stopped: usize,
    pub networks: Seq<Seq<char>>,
    pub volumes: Seq<Seq<char>>,
    pub images: Seq<Seq<char>>,
    pub ports: Seq<Seq<char>>,
}

impl View for Project {
    type V = ProjectView;

    open spec fn view(&self) -> ProjectView {
        ProjectView {
            name: self.name@,
            kind: self.kind,
            containers: cviews(self.containers@),
            running: self.running,
            restarting: self.restarting,
            paused: self.paused,
            unhealthy: self.unhealthy,
            stopped: self.stopped,
            networks: strs(self.networks@),
            volumes: strs(self.volumes@),
            images: strs(self.images@),
            ports: strs(self.ports@),
        }
    }
}

/// The contents of each project.
pub open spec fn pviews(s: Seq<Project>) -> Seq<ProjectView> {
    Seq::new(s.len(), |i: int| s[i]@)
}

/// The active count of a project fits in a `usize`.
pub open spec fn counts_fit(p: ProjectView) -> bool {
    p.running + p.restarting + p.paused + p.unhealthy <= usize::MAX
}

pub open spec fn active_spec(p: ProjectView) -> int {
    p.running + p.restarting + p.paused + p.unhealthy
}

/// Rank of the most severe state in the project: unhealthy 6, restarting 5,
/// paused 4, running 3, only stopped containers 2, no containers 1.
pub open spec fn severity_spec(p: ProjectView) -> int {
    if p.unhealthy > 0 {
        6
    } else if p.restarting > 0 {
        5
    } else if p.paused > 0 {
        4
    } else if p.running > 0 {
        3
    } else if p.containers.len() > 0 {
        2
    } else {
        1
    }
}

/// The state code of a project, from its most severe state.
pub open spec fn project_code_spec(p: ProjectView) -> Seq<char> {
    if p.unhealthy > 0 {
        "UNHL"@
    } else if p.restarting > 0 {
        "RSTR"@
    } else if p.paused > 0 {
        "PAUS"@
    } else if p.running > 0 {
        "UP"@
    } else if p.containers.len() > 0 {
        "DOWN"@
    } else {
        "IDLE"@
    }
}

impl Project {
    /// Containers that are running, restarting, paused or unhealthy.
    pub fn active(&self) -> (r: usize)
        requires
            counts_fit(self@),
        ensures
            r == active_spec(self@),
    {
        self.running + self.restarting + self.paused + self.unhealthy
    }

    pub fn severity_rank(&self) -> (r: usize)
        ensures
            r == severity_spec(self@),
    {
        if self.unhealthy > 0 {
            return 6;
        }
        if self.restarting > 0 {
            return 5;
        }
        if self.paused > 0 {
            return 4;
        }
        if self.running > 0 {
            return 3;
        }
        if self.containers.len() > 0 {
            return 2;
        }
        1
    }

    pub fn state_code(&self) -> (r: &'static str)
        ensures
            r@ == project_code_spec(self@),
    {
        if self.unhealthy > 0 {
            return "UNHL";
        }
        if self.restarting > 0 {
            return "RSTR";
        }
        if self.paused > 0 {
            return "PAUS";
        }
        if self.running > 0 {
            return "UP";
        }
        if self.containers.len() > 0 {
            return "DOWN";
        }
        "IDLE"
    }
}

/// Ordering of project lists.
#[derive(Debug, Clone, Copy, PartialEq, Eq, Structural)]
pub enum SortMode {
    Severity,
    NameAsc,
    ActiveDesc,
}

/// Operations on projects.
#[derive(Debug, Clone, Copy, PartialEq, Eq, Structural)]
pub enum OperationAction {
    Start,
    Stop,
    Restart,
    Remove,
    Purge,
    Prune,
    Rescue,
}

/// The diagnosis of one project.
#[derive(Debug, Clone, PartialEq, Eq)]
pub struct ProjectHealth {
    pub project: String,
    pub status: HealthStatus,
    pub findings: Vec<String>,
}

#[derive(Debug, Clone, Copy, PartialEq, Eq, Structural)]
pub enum HealthStatus {
    Healthy,
    Warning,
    Critical,
}


// ---------------------------------------------------------------------------
// Copies
// ---------------------------------------------------------------------------

pub fn copy_strings(v: &Vec<String>) -> (r: Vec<String>)
    ensures
        r@ == v@,
        strs(r@) == strs(v@),
{
    let r = v.clone();
    assert(r@ =~= v@);
    r
}

pub fn copy_pairs(v: &Vec<(String, String)>) -> (r: Vec<(String, String)>)
    ensures
        pairs(r@) == pairs(v@),
{
    let mut r: Vec<(String, String)> = Vec::new();
    let mut i: usize = 0;
    while i < v.len()
        invariant
            i <= v.len(),
            pairs(r@) == pairs(v@).subrange(0, i as int),
            r@.len() == i,
        decreases v.len() - i,
    {
        let a = v[i].0.clone();
        let b = v[i].1.clone();
        let ghost r0 = r@;
        r.push((a, b));
        proof {
            assert forall|k: int| 0 <= k < i + 1 implies #[trigger] pairs(r@)[k] == pairs(v@)[k] by {
                if k < i {
                    assert(r@[k] == r0[k]);
                    assert(pairs(r0)[k] == pairs(v@).subrange(0, i as int)[k]);
                }
            }
        }
        i += 1;
        assert(pairs(r@) =~= pairs(v@).subrange(0, i as int));
    }
    assert(pairs(v@).subrange(0, v.len() as int) =~= pairs(v@));
    r
}

pub fn copy_opt(o: &Option<String>) -> (r: Option<String>)
    ensures
        opt_chars(r) == opt_chars(*o),
{
    match o {
        Some(s) => Some(s.clone()),
        None => None,
    }
}

/// A field-by-field copy of a container.
pub fn copy_container(c: &Container) -> (r: Container)
    ensures
        r@ == c@,
{
    Container {
        id: c.id.clone(),
        name: c.name.clone(),
        image: c.image.clone(),
        state: c.state,
        status: c.status.clone(),
        compose_project: copy_opt(&c.compose_project),
        stack_namespace: copy_opt(&c.stack_namespace),
        labels: copy_pairs(&c.labels),
        networks: copy_strings(&c.networks),
        volumes: copy_strings(&c.volumes),
        ports: copy_strings(&c.ports),
    }
}

pub fn copy_containers(v: &Vec<Container>) -> (r: Vec<Container>)
    ensures
        cviews(r@) == cviews(v@),
{
    let mut r: Vec<Container> = Vec::new();
    let mut i: usize = 0;
    while i < v.len()
        invariant
            i <= v.len(),
            cviews(r@) == cviews(v@).subrange(0, i as int),
            r@.len() == i,
        decreases v.len() - i,
    {
        let x = copy_container(&v[i]);
        let ghost r0 = r@;
        r.push(x);
        proof {
            assert forall|k: int| 0 <= k < i + 1 implies #[trigger] cviews(r@)[k] == cviews(v@)[k] by {
                if k < i {
                    assert(r@[k] == r0[k]);
                    assert(cviews(r0)[k] == cviews(v@).subrange(0, i as int)[k]);
                }
            }
        }
        i += 1;
        assert(cviews(r@) =~= cviews(v@).subrange(0, i as int));
    }
    assert(cviews(v@).subrange(0, v.len() as int) =~= cviews(v@));
    r
}

/// A field-by-field copy of a project.
pub fn copy_project(p: &Project) -> (r: Project)
    ensures
        r@ == p@,
{
    Project {
        name: p.name.clone(),
        kind: p.kind,
        containers: copy_containers(&p.containers),
        running: p.running,
        restarting: p.restarting,
        paused: p.paused,
        unhealthy: p.unhealthy,
        stopped: p.stopped,
        networks: copy_strings(&p.networks),
        volumes: copy_strings(&p.volumes),
        images: copy_strings(&p.images),
        ports: copy_strings(&p.ports),
    }
}

pub fn copy_projects(v: &Vec<Project>) -> (r: Vec<Project>)
    ensures
        pviews(r@) == pviews(v@),
{
    let mut r: Vec<Project> = Vec::new();
    let mut i: usize = 0;
    while i < v.len()
        invariant
            i <= v.len(),
            pviews(r@) == pviews(v@).subrange(0, i as int),
            r@.len() == i,
        decreases v.len() - i,
    {
        let x = copy_project(&v[i]);
        let ghost r0 = r@;
        r.push(x);
        proof {
            assert forall|k: int| 0 <= k < i + 1 implies #[trigger] pviews(r@)[k] == pviews(v@)[k] by {
                if k < i {
                    assert(r@[k] == r0[k]);
                    assert(pviews(r0)[k] == pviews(v@).subrange(0, i as int)[k]);
                }
            }
        }
        i += 1;
        assert(pviews(r@) =~= pviews(v@).subrange(0, i as int));
    }
    assert(pviews(v@).subrange(0, v.len() as int) =~= pviews(v@));
    r
}

// ---------------------------------------------------------------------------
// Classification
// ---------------------------------------------------------------------------

/// The value of a label, if the container has it.
pub open spec fn label_of(c: ContainerView, key: Seq<char>) -> Option<Seq<char>> {
    pair_get(c.labels, key)
}

/// `o` holds a non-empty text.
pub open spec fn filled(o: Option<Seq<char>>) -> bool {
    o is Some && o->0.len() > 0
}

/// Start of the last occurrence of `n` in `s` starting at or before `j`, or -1.
pub open spec fn last_occurrence(s: Seq<char>, n: Seq<char>, j: int) -> int
    decreases j + 1,
{
    if j < 0 {
        -1
    } else if occurs_at(s, n, j) {
        j
    } else {
        last_occurrence(s, n, j - 1)
    }
}

pub open spec fn all_digits(s: Seq<char>) -> bool {
    forall|i: int| 0 <= i < s.len() ==> '0' <= #[trigger] s[i] && s[i] <= '9'
}

/// The project part of a container name `<project><sep><service><sep><n>`
/// (last occurrence of the marker; `<n>` made of ASCII digits, maybe none).
pub open spec fn infer_with(name: Seq<char>, service: Seq<char>, sep: char) -> Option<Seq<char>> {
    let marker = seq![sep] + service + seq![sep];
    let i = last_occurrence(name, marker, name.len() - marker.len());
    if i < 0 {
        None
    } else {
        let project = name.subrange(0, i);
        let index = name.subrange(i + marker.len(), name.len() as int);
        if project.len() > 0 && all_digits(index) {
            Some(project)
        } else {
            None
        }
    }
}

/// The Compose project a container name implies for a service, trying `-`
/// and then `_` as separator.
pub open spec fn infer_spec(name: Seq<char>, service: Seq<char>) -> Option<Seq<char>> {
    match infer_with(name, service, '-') {
        Some(p) => Some(p),
        None => infer_with(name, service, '_'),
    }
}

proof fn lemma_last_occurrence(s: Seq<char>, n: Seq<char>, j: int)
    ensures
        -1 <= last_occurrence(s, n, j) <= if j < -1 { -1 } else { j },
        last_occurrence(s, n, j) >= 0 ==> occurs_at(s, n, last_occurrence(s, n, j)),
    decreases j + 1,
{
    if j >= 0 && !occurs_at(s, n, j) {
        lemma_last_occurrence(s, n, j - 1);
    }
}

fn all_digits_exec(v: &Vec<char>) -> (r: bool)
    ensures
        r == all_digits(v@),
{
    let mut k: usize = 0;
    while k < v.len()
        invariant
            k <= v.len(),
            forall|t: int| 0 <= t < k ==> '0' <= #[trigger] v@[t] && v@[t] <= '9',
        decreases v.len() - k,
    {
        if !('0' <= v[k] && v[k] <= '9') {
            return false;
        }
        k += 1;
    }
    true
}

fn infer_with_exec(name: &Vec<char>, service: &Vec<char>, sep: char) -> (r: Option<Vec<char>>)
    ensures
        match r {
            Some(p) => infer_with(name@, service@, sep) == Some(p@),
            None => infer_with(name@, service@, sep) is None,
        },
{
    let mut marker: Vec<char> = Vec::new();
    marker.push(sep);
    crate::text::extend_chars(&mut marker, service);
    marker.push(sep);
    assert(marker@ =~= seq![sep] + service@ + seq![sep]);
    if marker.len() > name.len() {
        assert(last_occurrence(name@, marker@, name@.len() - marker@.len()) == -1);
        return None;
    }
    let mut j: usize = name.len() - marker.len();
    let ghost start = name@.len() - marker@.len();
    loop
        invariant
            j <= start,
            start == name@.len() - marker@.len(),
            marker@ == seq![sep] + service@ + seq![sep],
            last_occurrence(name@, marker@, start) == last_occurrence(name@, marker@, j as int),
        ensures
            last_occurrence(name@, marker@, start) == j as int,
            occurs_at(name@, marker@, j as int),
            j <= start,
            marker@ == seq![sep] + service@ + seq![sep],
        decreases j,
    {
        if occurs_at_exec(name, &marker, j) {
            break;
        }
        if j == 0 {
            assert(last_occurrence(name@, marker@, -1) == -1);
            return None;
        }
        j -= 1;
    }
    let i = j;
    let project = sub_chars(name, 0, i);
    let index = sub_chars(name, i + marker.len(), name.len());
    if project.len() == 0 {
        return None;
    }
    if !all_digits_exec(&index) {
        return None;
    }
    Some(project)
}

/// The Compose project that a container name implies for a service.
pub fn infer_compose_project_from_name(name: &str, service: &str) -> (r: Option<String>)
    ensures
        opt_chars(r) == infer_spec(name@, service@),
{
    let n = chars_of(name);
    let s = chars_of(service);
    match infer_with_exec(&n, &s, '-') {
        Some(p) => Some(string_of(&p)),
        None => match infer_with_exec(&n, &s, '_') {
            Some(p) => Some(string_of(&p)),
            None => None,
        },
    }
}

/// The group of the first rule whose prefix starts `s`.
pub open spec fn first_prefix_group(rules: Seq<(Seq<char>, Seq<char>)>, s: Seq<char>) -> Option<
    Seq<char>,
>
    decreases rules.len(),
{
    if rules.len() == 0 {
        None
    } else if has_prefix(s, rules[0].0) {
        Some(rules[0].1)
    } else {
        first_prefix_group(rules.drop_first(), s)
    }
}

fn first_prefix_group_exec(rules: &Vec<(String, String)>, s: &Vec<char>) -> (r: Option<String>)
    ensures
        opt_chars(r) == first_prefix_group(pairs(rules@), s@),
{
    let mut i: usize = 0;
    assert(pairs(rules@).skip(0) =~= pairs(rules@));
    while i < rules.len()
        invariant
            i <= rules.len(),
            first_prefix_group(pairs(rules@), s@) == first_prefix_group(
                pairs(rules@).skip(i as int),
                s@,
            ),
        decreases rules.len() - i,
    {
        let p = chars_of(rules[i].0.as_str());
        let ghost t = pairs(rules@).skip(i as int);
        assert(t[0] == (rules@[i as int].0@, rules@[i as int].1@));
        if starts_with(s, &p) {
            return Some(rules[i].1.clone());
        }
        assert(t.drop_first() =~= pairs(rules@).skip(i + 1));
        i += 1;
    }
    None
}

/// The group of a standalone container: an exact rule for its name, else the
/// first name-prefix rule, else the first image-prefix rule, else its name.
pub open spec fn standalone_spec(c: ContainerView, g: GroupConfig) -> Seq<char> {
    match pair_get(pairs(g.exact@), c.name) {
        Some(x) => x,
        None => match first_prefix_group(pairs(g.prefix@), c.name) {
            Some(x) => x,
            None => match first_prefix_group(pairs(g.image_prefix@), c.image) {
                Some(x) => x,
                None => c.name,
            },
        },
    }
}

pub fn standalone_group_name(container: &Container, config: &AppConfig) -> (r: String)
    ensures
        r@ == standalone_spec(container@, config.groups),
{
    let name = chars_of(container.name.as_str());
    if let Some(group) = crate::sorted::lookup(&config.groups.exact, &name) {
        return group;
    }
    if let Some(group) = first_prefix_group_exec(&config.groups.prefix, &name) {
        return group;
    }
    let image = chars_of(container.image.as_str());
    if let Some(group) = first_prefix_group_exec(&config.groups.image_prefix, &image) {
        return group;
    }
    container.name.clone()
}

/// The kind and name of the project a container belongs to: its Compose
/// project (field, then label), its stack (field, then label), a Compose
/// project implied by its service label and name, else its standalone group.
pub open spec fn classify_spec(c: ContainerView, g: GroupConfig) -> (ProjectKind, Seq<char>) {
    if filled(c.compose_project) {
        (ProjectKind::Compose, c.compose_project->0)
    } else if filled(label_of(c, "com.docker.compose.project"@)) {
        (ProjectKind::Compose, label_of(c, "com.docker.compose.project"@)->0)
    } else if filled(c.stack_namespace) {
        (ProjectKind::Stack, c.stack_namespace->0)
    } else if filled(label_of(c, "com.docker.stack.namespace"@)) {
        (ProjectKind::Stack, label_of(c, "com.docker.stack.namespace"@)->0)
    } else if filled(label_of(c, "com.docker.compose.service"@)) && infer_spec(
        c.name,
        label_of(c, "com.docker.compose.service"@)->0,
    ) is Some {
        (
            ProjectKind::Compose,
            infer_spec(c.name, label_of(c, "com.docker.compose.service"@)->0)->0,
        )
    } else {
        (ProjectKind::Standalone, standalone_spec(c, g))
    }
}

pub fn classify_container(container: &Container, config: &AppConfig) -> (r: (ProjectKind, String))
    ensures
        r.0 == classify_spec(container@, config.groups).0,
        r.1@ == classify_spec(container@, config.groups).1,
{
    if let Some(p) = &container.compose_project {
        if !p.as_str().is_empty() {
            return (ProjectKind::Compose, p.clone());
        }
    }
    if let Some(p) = lookup_str(&container.labels, "com.docker.compose.project") {
        if !p.as_str().is_empty() {
            return (ProjectKind::Compose, p);
        }
    }
    if let Some(p) = &container.stack_namespace {
        if !p.as_str().is_empty() {
            return (ProjectKind::Stack, p.clone());
        }
    }
    if let Some(p) = lookup_str(&container.labels, "com.docker.stack.namespace") {
        if !p.as_str().is_empty() {
            return (ProjectKind::Stack, p);
        }
    }
    if let Some(service) = lookup_str(&container.labels, "com.docker.compose.service") {
        if !service.as_str().is_empty() {
            if let Some(project) = infer_compose_project_from_name(
                container.name.as_str(),
                service.as_str(),
            ) {
                return (ProjectKind::Compose, project);
            }
        }
    }
    (ProjectKind::Standalone, standalone_group_name(container, config))
}


// ---------------------------------------------------------------------------
// Grouping containers into projects
// ---------------------------------------------------------------------------

/// The project name a container is grouped under.
pub open spec fn group_of(c: ContainerView, g: GroupConfig) -> Seq<char> {
    classify_spec(c, g).1
}

/// The containers grouped under `name`, in input order.
pub open spec fn members(cs: Seq<ContainerView>, name: Seq<char>, g: GroupConfig) -> Seq<
    ContainerView,
> {
    cs.filter(|c: ContainerView| group_of(c, g) == name)
}

/// The project names the containers are grouped under.
pub open spec fn group_names(cs: Seq<ContainerView>, g: GroupConfig) -> Set<Seq<char>> {
    cs.map_values(|c: ContainerView| group_of(c, g)).to_set()
}

/// How many of the containers are in state `st`.
pub open spec fn count_state(cs: Seq<ContainerView>, st: ContainerState) -> nat
    decreases cs.len(),
{
    if cs.len() == 0 {
        0
    } else {
        count_state(cs.drop_last(), st) + if cs.last().state == st {
            1nat
        } else {
            0nat
        }
    }
}

/// How many of the containers are exited, created, dead or of unknown state.
pub open spec fn count_stopped(cs: Seq<ContainerView>) -> nat
    decreases cs.len(),
{
    if cs.len() == 0 {
        0
    } else {
        count_stopped(cs.drop_last()) + if !is_active_spec(cs.last().state) {
            1nat
        } else {
            0nat
        }
    }
}

/// Every network some container is attached to.
pub open spec fn network_set(cs: Seq<ContainerView>) -> Set<Seq<char>>
    decreases cs.len(),
{
    if cs.len() == 0 {
        Set::empty()
    } else {
        network_set(cs.drop_last()) + cs.last().networks.to_set()
    }
}

/// Every volume some container mounts.
pub open spec fn volume_set(cs: Seq<ContainerView>) -> Set<Seq<char>>
    decreases cs.len(),
{
    if cs.len() == 0 {
        Set::empty()
    } else {
        volume_set(cs.drop_last()) + cs.last().volumes.to_set()
    }
}

/// Every port mapping some container publishes.
pub open spec fn port_set(cs: Seq<ContainerView>) -> Set<Seq<char>>
    decreases cs.len(),
{
    if cs.len() == 0 {
        Set::empty()
    } else {
        port_set(cs.drop_last()) + cs.last().ports.to_set()
    }
}

/// Every image some container runs.
pub open spec fn image_set(cs: Seq<ContainerView>) -> Set<Seq<char>>
    decreases cs.len(),
{
    if cs.len() == 0 {
        Set::empty()
    } else {
        image_set(cs.drop_last()).insert(cs.last().image)
    }
}

/// `p` is the project made of the containers `m` (in that order): its kind is
/// that of the first of them, its counts and resource lists are theirs.
pub open spec fn is_project_for(p: ProjectView, m: Seq<ContainerView>, g: GroupConfig) -> bool {
    &&& m.len() > 0
    &&& p.containers == m
    &&& p.kind == classify_spec(m[0], g).0
    &&& p.running == count_state(m, ContainerState::Running)
    &&& p.restarting == count_state(m, ContainerState::Restarting)
    &&& p.paused == count_state(m, ContainerState::Paused)
    &&& p.unhealthy == count_state(m, ContainerState::Unhealthy)
    &&& p.stopped == count_stopped(m)
    &&& is_sorted_set_of(p.networks, network_set(m))
    &&& is_sorted_set_of(p.volumes, volume_set(m))
    &&& is_sorted_set_of(p.ports, port_set(m))
    &&& is_sorted_set_of(p.images, image_set(m))
}

/// Every container is counted in exactly one of the five state counts.
pub proof fn lemma_counts_total(m: Seq<ContainerView>)
    ensures
        count_state(m, ContainerState::Running) + count_state(m, ContainerState::Restarting)
            + count_state(m, ContainerState::Paused) + count_state(m, ContainerState::Unhealthy)
            + count_stopped(m) == m.len(),
    decreases m.len(),
{
    if m.len() > 0 {
        lemma_counts_total(m.drop_last());
    }
}

/// The names of the projects, in order.
pub open spec fn names_of(ps: Seq<ProjectView>) -> Seq<Seq<char>> {
    Seq::new(ps.len(), |i: int| ps[i].name)
}

/// `ps` are the projects the containers form: one per group name, sorted by
/// name, each made of the containers grouped under it.
pub open spec fn grouped_from(ps: Seq<ProjectView>, cs: Seq<ContainerView>, g: GroupConfig) -> bool {
    &&& strictly_sorted(names_of(ps))
    &&& names_of(ps).to_set() == group_names(cs, g)
    &&& forall|i: int|
        0 <= i < ps.len() ==> is_project_for(#[trigger] ps[i], members(cs, ps[i].name, g), g)
}

proof fn lemma_members_len(cs: Seq<ContainerView>, name: Seq<char>, g: GroupConfig)
    ensures
        members(cs, name, g).len() <= cs.len(),
{
    cs.lemma_filter_len(|c: ContainerView| group_of(c, g) == name);
}

proof fn lemma_members_push(p: Seq<ContainerView>, c: ContainerView, n: Seq<char>, g: GroupConfig)
    ensures
        members(p.push(c), n, g) == if group_of(c, g) == n {
            members(p, n, g).push(c)
        } else {
            members(p, n, g)
        },
{
    reveal(Seq::filter);
    assert(p.push(c).drop_last() =~= p);
}

proof fn lemma_group_names_push(p: Seq<ContainerView>, c: ContainerView, g: GroupConfig)
    ensures
        group_names(p.push(c), g) == group_names(p, g).insert(group_of(c, g)),
{
    let f = |x: ContainerView| group_of(x, g);
    assert(p.push(c).map_values(f) =~= p.map_values(f).push(f(c)));
    p.map_values(f).lemma_push_to_set_commute(f(c));
}

proof fn lemma_members_absent(p: Seq<ContainerView>, n: Seq<char>, g: GroupConfig)
    requires
        !group_names(p, g).contains(n),
    ensures
        members(p, n, g).len() == 0,
{
    let f = |c: ContainerView| group_of(c, g) == n;
    if members(p, n, g).len() > 0 {
        let e = members(p, n, g)[0];
        p.lemma_filter_pred(f, 0);
        assert(members(p, n, g).contains(e));
        p.lemma_filter_contains_rev(f, e);
        let k = choose|k: int| 0 <= k < p.len() && p[k] == e;
        assert(p.map_values(|x: ContainerView| group_of(x, g))[k] == n);
    }
}

/// The group lists `names`, `groups` hold the containers `p`.
pub open spec fn groups_hold(
    groups: Seq<(String, ProjectKind, Vec<Container>)>,
    p: Seq<ContainerView>,
    g: GroupConfig,
) -> bool {
    let names = Seq::new(groups.len(), |k: int| groups[k].0@);
    &&& strictly_sorted(names)
    &&& names.to_set() == group_names(p, g)
    &&& forall|k: int|
        0 <= k < groups.len() ==> {
            let m = members(p, (#[trigger] groups[k]).0@, g);
            &&& cviews(groups[k].2@) == m
            &&& m.len() > 0
            &&& groups[k].1 == classify_spec(m[0], g).0
        }
}

fn group_containers(containers: &Vec<Container>, config: &AppConfig) -> (groups: Vec<
    (String, ProjectKind, Vec<Container>),
>)
    ensures
        groups_hold(groups@, cviews(containers@), config.groups),
{
    let ghost g = config.groups;
    let ghost cs = cviews(containers@);
    let mut groups: Vec<(String, ProjectKind, Vec<Container>)> = Vec::new();
    proof {
        assert(Seq::new(groups@.len(), |k: int| groups@[k].0@) =~= Seq::<Seq<char>>::empty());
        assert(cs.take(0).map_values(|c: ContainerView| group_of(c, g)) =~= Seq::<
            Seq<char>,
        >::empty());
        assert(group_names(cs.take(0), g) =~= Set::empty());
    }
    let mut i: usize = 0;
    while i < containers.len()
        invariant
            i <= containers.len(),
            cs == cviews(containers@),
            g == config.groups,
            groups_hold(groups@, cs.take(i as int), g),
        decreases containers.len() - i,
    {
        let ghost p = cs.take(i as int);
        let ghost p1 = cs.take(i + 1);
        let x = copy_container(&containers[i]);
        let ghost cv = x@;
        assert(cv == cs[i as int]);
        assert(p1 =~= p.push(cv));
        let (kind, name) = classify_container(&x, config);
        let ghost nv = name@;
        let ghost names0 = Seq::new(groups@.len(), |k: int| groups@[k].0@);
        proof {
            lemma_group_names_push(p, cv, g);
        }
        let mut k: usize = 0;
        let mut found = false;
        let mut stop = false;
        while !stop && k < groups.len()
            invariant
                k <= groups.len(),
                names0 == Seq::new(groups@.len(), |j: int| groups@[j].0@),
                strictly_sorted(names0),
                nv == name@,
                forall|j: int| 0 <= j < k ==> lex_lt(#[trigger] names0[j], nv),
                stop ==> k < groups.len(),
                stop && found ==> names0[k as int] == nv,
                stop && !found ==> lex_lt(nv, names0[k as int]),
                !stop ==> !found,
            decreases groups.len() - k + if stop {
                0int
            } else {
                1int
            },
        {
            match compare_strings(&groups[k].0, &name) {
                Order::Before => {
                    k += 1;
                },
                Order::Same => {
                    found = true;
                    stop = true;
                },
                Order::After => {
                    stop = true;
                },
            }
        }
        proof {
            assert forall|j: int| 0 <= j < names0.len() && j != k implies names0[j] != nv by {
                if j < k {
                    lemma_lex_asymmetric(names0[j], nv);
                } else if k < names0.len() {
                    assert(lex_lt(names0[k as int], names0[j]));
                    if found {
                        lemma_lex_asymmetric(nv, names0[j]);
                    } else {
                        lemma_lex_transitive(nv, names0[k as int], names0[j]);
                        lemma_lex_asymmetric(nv, names0[j]);
                    }
                }
            }
            if !found && k < names0.len() {
                lemma_lex_asymmetric(nv, names0[k as int]);
            }
        }
        let ghost g0 = groups@;
        if found {
            let (gn, gk, mut gm) = groups.remove(k);
            let ghost gm0 = cviews(gm@);
            gm.push(x);
            assert(cviews(gm@) =~= gm0.push(cv));
            groups.insert(k, (gn, gk, gm));
            proof {
                assert(groups@ =~= g0.update(k as int, groups@[k as int]));
                let names1 = Seq::new(groups@.len(), |j: int| groups@[j].0@);
                assert(names1 =~= names0);
                assert(group_names(p, g).contains(nv)) by {
                    assert(names0[k as int] == nv);
                    assert(names0.to_set().contains(nv));
                }
                assert(group_names(p1, g) =~= group_names(p, g));
                assert forall|j: int| 0 <= j < groups@.len() implies {
                    let m = members(p1, (#[trigger] groups@[j]).0@, g);
                    &&& cviews(groups@[j].2@) == m
                    &&& m.len() > 0
                    &&& groups@[j].1 == classify_spec(m[0], g).0
                } by {
                    lemma_members_push(p, cv, groups@[j].0@, g);
                    if j != k {
                        assert(groups@[j] == g0[j]);
                        assert(names0[j] != nv);
                    } else {
                        assert(members(p1, nv, g) == members(p, nv, g).push(cv));
                        assert(members(p1, nv, g)[0] == members(p, nv, g)[0]);
                    }
                }
            }
        } else {
            let mut gm: Vec<Container> = Vec::new();
            gm.push(x);
            assert(cviews(gm@) =~= seq![cv]);
            groups.insert(k, (name, kind, gm));
            proof {
                assert(groups@ =~= g0.insert(k as int, groups@[k as int]));
                let names1 = Seq::new(groups@.len(), |j: int| groups@[j].0@);
                assert(names1 =~= names0.insert(k as int, nv));
                assert(!group_names(p, g).contains(nv)) by {
                    if group_names(p, g).contains(nv) {
                        assert(names0.to_set().contains(nv));
                        let j = choose|j: int| 0 <= j < names0.len() && names0[j] == nv;
                    }
                }
                assert forall|a: int, b: int| 0 <= a < b < names1.len() implies lex_lt(
                    #[trigger] names1[a],
                    #[trigger] names1[b],
                ) by {
                    if b < k {
                        assert(names1[a] == names0[a] && names1[b] == names0[b]);
                    } else if b == k {
                        assert(names1[a] == names0[a]);
                    } else if a == k {
                        assert(names1[b] == names0[b - 1]);
                        if b - 1 > k {
                            assert(lex_lt(names0[k as int], names0[b - 1]));
                            lemma_lex_transitive(nv, names0[k as int], names0[b - 1]);
                        }
                    } else if a < k {
                        assert(names1[a] == names0[a] && names1[b] == names0[b - 1]);
                    } else {
                        assert(names1[a] == names0[a - 1] && names1[b] == names0[b - 1]);
                    }
                }
                assert forall|y: Seq<char>| names1.to_set().contains(y) <==> group_names(
                    p1,
                    g,
                ).contains(y) by {
                    if names1.to_set().contains(y) {
                        let j = choose|j: int| 0 <= j < names1.len() && names1[j] == y;
                        if j < k {
                            assert(names0[j] == y);
                            assert(names0.to_set().contains(y));
                        } else if j > k {
                            assert(names0[j - 1] == y);
                            assert(names0.to_set().contains(y));
                        }
                    }
                    if group_names(p, g).contains(y) {
                        assert(names0.to_set().contains(y));
                        let j = choose|j: int| 0 <= j < names0.len() && names0[j] == y;
                        if j < k {
                            assert(names1[j] == y);
                        } else {
                            assert(names1[j + 1] == y);
                        }
                    }
                    if y == nv {
                        assert(names1[k as int] == y);
                    }
                }
                assert(names1.to_set() =~= group_names(p1, g));
                lemma_members_absent(p, nv, g);
                assert forall|j: int| 0 <= j < groups@.len() implies {
                    let m = members(p1, (#[trigger] groups@[j]).0@, g);
                    &&& cviews(groups@[j].2@) == m
                    &&& m.len() > 0
                    &&& groups@[j].1 == classify_spec(m[0], g).0
                } by {
                    lemma_members_push(p, cv, groups@[j].0@, g);
                    if j < k {
                        assert(groups@[j] == g0[j]);
                        assert(names0[j] != nv);
                    } else if j > k {
                        assert(groups@[j] == g0[j - 1]);
                        assert(names0[j - 1] != nv);
                    } else {
                        assert(members(p, nv, g) =~= Seq::<ContainerView>::empty());
                        assert(members(p1, nv, g) =~= seq![cv]);
                    }
                }
            }
        }
        i += 1;
    }
    assert(cs.take(i as int) =~= cs);
    groups
}


fn build_project(name: String, kind: ProjectKind, ms: Vec<Container>) -> (r: Project)
    ensures
        r@.name == name@,
        r@.kind == kind,
        r@.containers == cviews(ms@),
        r@.running == count_state(cviews(ms@), ContainerState::Running),
        r@.restarting == count_state(cviews(ms@), ContainerState::Restarting),
        r@.paused == count_state(cviews(ms@), ContainerState::Paused),
        r@.unhealthy == count_state(cviews(ms@), ContainerState::Unhealthy),
        r@.stopped == count_stopped(cviews(ms@)),
        is_sorted_set_of(r@.networks, network_set(cviews(ms@))),
        is_sorted_set_of(r@.volumes, volume_set(cviews(ms@))),
        is_sorted_set_of(r@.ports, port_set(cviews(ms@))),
        is_sorted_set_of(r@.images, image_set(cviews(ms@))),
{
    let ghost m = cviews(ms@);
    let mut networks: Vec<String> = Vec::new();
    let mut volumes: Vec<String> = Vec::new();
    let mut images: Vec<String> = Vec::new();
    let mut ports: Vec<String> = Vec::new();
    let mut running: usize = 0;
    let mut restarting: usize = 0;
    let mut paused: usize = 0;
    let mut unhealthy: usize = 0;
    let mut stopped: usize = 0;
    proof {
        assert(m.take(0) =~= Seq::<ContainerView>::empty());
        assert(strs(networks@).to_set() =~= Set::empty());
        assert(strs(volumes@).to_set() =~= Set::empty());
        assert(strs(images@).to_set() =~= Set::empty());
        assert(strs(ports@).to_set() =~= Set::empty());
    }
    let mut i: usize = 0;
    while i < ms.len()
        invariant
            i <= ms.len(),
            m == cviews(ms@),
            running == count_state(m.take(i as int), ContainerState::Running),
            restarting == count_state(m.take(i as int), ContainerState::Restarting),
            paused == count_state(m.take(i as int), ContainerState::Paused),
            unhealthy == count_state(m.take(i as int), ContainerState::Unhealthy),
            stopped == count_stopped(m.take(i as int)),
            running + restarting + paused + unhealthy + stopped == i,
            strictly_sorted(strs(networks@)),
            strictly_sorted(strs(volumes@)),
            strictly_sorted(strs(images@)),
            strictly_sorted(strs(ports@)),
            strs(networks@).to_set() == network_set(m.take(i as int)),
            strs(volumes@).to_set() == volume_set(m.take(i as int)),
            strs(images@).to_set() == image_set(m.take(i as int)),
            strs(ports@).to_set() == port_set(m.take(i as int)),
        decreases ms.len() - i,
    {
        let c = &ms[i];
        let ghost p = m.take(i as int);
        let ghost p1 = m.take(i + 1);
        proof {
            assert(p1 =~= p.push(c@));
            assert(p1.drop_last() =~= p);
        }
        match c.state {
            ContainerState::Running => {
                running += 1;
            },
            ContainerState::Restarting => {
                restarting += 1;
            },
            ContainerState::Paused => {
                paused += 1;
            },
            ContainerState::Unhealthy => {
                unhealthy += 1;
            },
            ContainerState::Exited | ContainerState::Created | ContainerState::Dead
            | ContainerState::Unknown => {
                stopped += 1;
            },
        }
        set_insert(&mut images, c.image.clone());
        crate::sorted::set_extend(&mut networks, &c.networks);
        crate::sorted::set_extend(&mut volumes, &c.volumes);
        crate::sorted::set_extend(&mut ports, &c.ports);
        i += 1;
    }
    assert(m.take(i as int) =~= m);
    Project {
        name,
        kind,
        containers: ms,
        running,
        restarting,
        paused,
        unhealthy,
        stopped,
        networks,
        volumes,
        images,
        ports,
    }
}

/// What the Docker engine reports, grouped into projects.
#[derive(Debug, Clone, PartialEq, Eq)]
pub struct DockerSnapshot {
    pub projects: Vec<Project>,
    pub networks: Vec<String>,
    pub volumes: Vec<String>,
    pub images: Vec<String>,
}

pub struct SnapshotView {
    pub projects: Seq<ProjectView>,
    pub networks: Seq<Seq<char>>,
    pub volumes: Seq<Seq<char>>,
    pub images: Seq<Seq<char>>,
}

impl View for DockerSnapshot {
    type V = SnapshotView;

    open spec fn view(&self) -> SnapshotView {
        SnapshotView {
            projects: pviews(self.projects@),
            networks: strs(self.networks@),
            volumes: strs(self.volumes@),
            images: strs(self.images@),
        }
    }
}

/// The snapshot that the containers and the engine's network, volume and
/// image names make: the projects the containers form, and each name list
/// sorted without duplicates.
pub open spec fn is_snapshot_of(
    r: SnapshotView,
    cs: Seq<ContainerView>,
    networks: Seq<Seq<char>>,
    volumes: Seq<Seq<char>>,
    images: Seq<Seq<char>>,
    g: GroupConfig,
) -> bool {
    &&& grouped_from(r.projects, cs, g)
    &&& is_sorted_set_of(r.networks, networks.to_set())
    &&& is_sorted_set_of(r.volumes, volumes.to_set())
    &&& is_sorted_set_of(r.images, images.to_set())
}

/// Index of the first project named `name`, or the number of projects.
pub open spec fn find_project(ps: Seq<ProjectView>, name: Seq<char>, i: int) -> int
    decreases ps.len() - i,
{
    if i < 0 || i >= ps.len() {
        ps.len() as int
    } else if ps[i].name == name {
        i
    } else {
        find_project(ps, name, i + 1)
    }
}

impl DockerSnapshot {
    pub fn empty() -> (r: Self)
        ensures
            r@.projects.len() == 0,
            r@.networks.len() == 0,
            r@.volumes.len() == 0,
            r@.images.len() == 0,
    {
        DockerSnapshot {
            projects: Vec::new(),
            networks: Vec::new(),
            volumes: Vec::new(),
            images: Vec::new(),
        }
    }

    /// Groups the containers into projects (Compose, stack or standalone
    /// group), in one pass, and records the engine's networks, volumes and
    /// images.
    pub fn from_containers(
        containers: Vec<Container>,
        networks: Vec<String>,
        volumes: Vec<String>,
        images: Vec<String>,
        config: &AppConfig,
    ) -> (r: Self)
        ensures
            all_counts_fit(r@.projects),
            is_snapshot_of(
                r@,
                cviews(containers@),
                strs(networks@),
                strs(volumes@),
                strs(images@),
                config.groups,
            ),
    {
        let ghost cs = cviews(containers@);
        let ghost g = config.groups;
        let total = containers.len();
        let mut groups = group_containers(&containers, config);
        let ghost gs = groups@;
        let n = groups.len();
        let mut projects: Vec<Project> = Vec::new();
        let mut k: usize = 0;
        while k < n
            invariant
                n == gs.len(),
                k <= n,
                groups@ == gs.subrange(k as int, n as int),
                groups_hold(gs, cs, g),
                projects@.len() == k,
                forall|j: int|
                    0 <= j < k ==> (#[trigger] projects@[j])@.name == gs[j].0@ && is_project_for(
                        projects@[j]@,
                        members(cs, gs[j].0@, g),
                        g,
                    ),
            decreases n - k,
        {
            let (name, kind, ms) = groups.remove(0);
            assert(gs[k as int] == (name, kind, ms));
            let p = build_project(name, kind, ms);
            projects.push(p);
            k += 1;
            assert(groups@ =~= gs.subrange(k as int, n as int));
        }
        proof {
            let names = Seq::new(gs.len(), |j: int| gs[j].0@);
            assert(names_of(pviews(projects@)) =~= names);
            assert forall|j: int| 0 <= j < pviews(projects@).len() implies counts_fit(
                #[trigger] pviews(projects@)[j],
            ) by {
                let m = members(cs, gs[j].0@, g);
                assert(is_project_for(projects@[j]@, m, g));
                lemma_counts_total(m);
                lemma_members_len(cs, gs[j].0@, g);
                assert(cs.len() == total);
                assert(pviews(projects@)[j] == projects@[j]@);
            }
        }
        DockerSnapshot {
            projects,
            networks: unique_sorted(networks),
            volumes: unique_sorted(volumes),
            images: unique_sorted(images),
        }
    }

    /// The first project with the given name.
    pub fn project(&self, name: &str) -> (r: Option<&Project>)
        ensures
            match r {
                Some(p) => {
                    let i = find_project(self@.projects, name@, 0);
                    i < self@.projects.len() && p@ == self@.projects[i]
                },
                None => find_project(self@.projects, name@, 0) == self@.projects.len(),
            },
    {
        let mut i: usize = 0;
        while i < self.projects.len()
            invariant
                i <= self.projects.len(),
                find_project(self@.projects, name@, 0) == find_project(
                    self@.projects,
                    name@,
                    i as int,
                ),
            decreases self.projects.len() - i,
        {
            if crate::text::string_eq_str(&self.projects[i].name, name) {
                return Some(&self.projects[i]);
            }
            i += 1;
        }
        None
    }
}


// ---------------------------------------------------------------------------
// Ordering projects
// ---------------------------------------------------------------------------

/// `a` sorts strictly before `b` in the given mode. Severity: more severe
/// first, then more active containers, then more containers, then by name.
/// NameAsc: by name. ActiveDesc: more active containers first, then more
/// severe, then by name.
pub open spec fn project_before(a: ProjectView, b: ProjectView, mode: SortMode) -> bool {
    match mode {
        SortMode::Severity => {
            ||| severity_spec(a) > severity_spec(b)
            ||| severity_spec(a) == severity_spec(b) && active_spec(a) > active_spec(b)
            ||| severity_spec(a) == severity_spec(b) && active_spec(a) == active_spec(b)
                && a.containers.len() > b.containers.len()
            ||| severity_spec(a) == severity_spec(b) && active_spec(a) == active_spec(b)
                && a.containers.len() == b.containers.len() && lex_lt(a.name, b.name)
        },
        SortMode::NameAsc => lex_lt(a.name, b.name),
        SortMode::ActiveDesc => {
            ||| active_spec(a) > active_spec(b)
            ||| active_spec(a) == active_spec(b) && severity_spec(a) > severity_spec(b)
            ||| active_spec(a) == active_spec(b) && severity_spec(a) == severity_spec(b)
                && lex_lt(a.name, b.name)
        },
    }
}

/// Position of the first project in `t` (from `j` on) that `x` sorts before.
pub open spec fn insert_point(t: Seq<ProjectView>, x: ProjectView, mode: SortMode, j: int) -> int
    decreases t.len() - j,
{
    if j < 0 || j >= t.len() {
        t.len() as int
    } else if project_before(x, t[j], mode) {
        j
    } else {
        insert_point(t, x, mode, j + 1)
    }
}

/// The stable sort of `s` (`slice::sort_by`): each project, taken in order,
/// goes after every project it does not sort before.
pub open spec fn sorted_by(s: Seq<ProjectView>, mode: SortMode) -> Seq<ProjectView>
    decreases s.len(),
{
    if s.len() == 0 {
        s
    } else {
        let t = sorted_by(s.drop_last(), mode);
        t.insert(insert_point(t, s.last(), mode, 0), s.last())
    }
}

proof fn lemma_insert_point(t: Seq<ProjectView>, x: ProjectView, mode: SortMode, j: int)
    requires
        0 <= j <= t.len(),
    ensures
        j <= insert_point(t, x, mode, j) <= t.len(),
    decreases t.len() - j,
{
    if j < t.len() && !project_before(x, t[j], mode) {
        lemma_insert_point(t, x, mode, j + 1);
    }
}

proof fn lemma_sorted_by_len(s: Seq<ProjectView>, mode: SortMode)
    ensures
        sorted_by(s, mode).len() == s.len(),
    decreases s.len(),
{
    if s.len() > 0 {
        lemma_sorted_by_len(s.drop_last(), mode);
        lemma_insert_point(sorted_by(s.drop_last(), mode), s.last(), mode, 0);
    }
}

/// Sorting keeps the projects: the result is a rearrangement of the input.
pub proof fn lemma_sorted_by_permutation(s: Seq<ProjectView>, mode: SortMode)
    ensures
        sorted_by(s, mode).to_multiset() == s.to_multiset(),
    decreases s.len(),
{
    broadcast use vstd::seq_lib::to_multiset_insert, vstd::seq_lib::to_multiset_build;

    if s.len() > 0 {
        let t = sorted_by(s.drop_last(), mode);
        lemma_sorted_by_permutation(s.drop_last(), mode);
        lemma_sorted_by_len(s.drop_last(), mode);
        lemma_insert_point(t, s.last(), mode, 0);
        assert(s.drop_last().push(s.last()) =~= s);
    }
}

/// Every project of the sorted list is one of the input's.
pub proof fn lemma_sorted_by_members(s: Seq<ProjectView>, mode: SortMode)
    ensures
        forall|k: int|
            0 <= k < sorted_by(s, mode).len() ==> s.contains(#[trigger] sorted_by(s, mode)[k]),
{
    broadcast use vstd::seq_lib::to_multiset_contains;

    lemma_sorted_by_permutation(s, mode);
    assert forall|k: int| 0 <= k < sorted_by(s, mode).len() implies s.contains(
        #[trigger] sorted_by(s, mode)[k],
    ) by {
        let x = sorted_by(s, mode)[k];
        assert(sorted_by(s, mode).contains(x));
        assert(sorted_by(s, mode).to_multiset().count(x) > 0);
    }
}

fn name_before(a: &String, b: &String) -> (r: bool)
    ensures
        r == lex_lt(a@, b@),
{
    match compare_strings(a, b) {
        Order::Before => true,
        Order::Same => {
            proof {
                lemma_lex_irreflexive(a@);
            }
            false
        },
        Order::After => {
            proof {
                lemma_lex_asymmetric(b@, a@);
            }
            false
        },
    }
}

fn project_before_exec(a: &Project, b: &Project, mode: SortMode) -> (r: bool)
    requires
        counts_fit(a@),
        counts_fit(b@),
    ensures
        r == project_before(a@, b@, mode),
{
    match mode {
        SortMode::Severity => {
            let (sa, sb) = (a.severity_rank(), b.severity_rank());
            if sa != sb {
                return sa > sb;
            }
            let (aa, ab) = (a.active(), b.active());
            if aa != ab {
                return aa > ab;
            }
            if a.containers.len() != b.containers.len() {
                return a.containers.len() > b.containers.len();
            }
            name_before(&a.name, &b.name)
        },
        SortMode::NameAsc => name_before(&a.name, &b.name),
        SortMode::ActiveDesc => {
            let (aa, ab) = (a.active(), b.active());
            if aa != ab {
                return aa > ab;
            }
            let (sa, sb) = (a.severity_rank(), b.severity_rank());
            if sa != sb {
                return sa > sb;
            }
            name_before(&a.name, &b.name)
        },
    }
}

/// Every project's active count fits in a `usize`.
pub open spec fn all_counts_fit(ps: Seq<ProjectView>) -> bool {
    forall|i: int| 0 <= i < ps.len() ==> counts_fit(#[trigger] ps[i])
}

/// Sorts the projects in place, stably, in the given order.
pub fn sort_projects(projects: &mut Vec<Project>, mode: SortMode)
    requires
        all_counts_fit(pviews(old(projects)@)),
    ensures
        pviews(final(projects)@) == sorted_by(pviews(old(projects)@), mode),
{
    let ghost s = pviews(projects@);
    let mut src: Vec<Project> = Vec::new();
    std::mem::swap(&mut src, projects);
    let n = src.len();
    let mut out: Vec<Project> = Vec::new();
    let mut i: usize = 0;
    proof {
        assert(s.take(0) =~= Seq::<ProjectView>::empty());
        assert(pviews(out@) =~= sorted_by(s.take(0), mode));
        assert(pviews(src@) =~= s.subrange(0, n as int));
    }
    while i < n
        invariant
            n == s.len(),
            i <= n,
            pviews(src@) == s.subrange(i as int, n as int),
            src@.len() == n - i,
            pviews(out@) == sorted_by(s.take(i as int), mode),
            all_counts_fit(s),
            all_counts_fit(pviews(out@)),
        decreases n - i,
    {
        assert(pviews(src@)[0] == s[i as int]);
        let ghost src0 = src@;
        let x = src.remove(0);
        assert(x@ == s[i as int]);
        assert(src@ =~= src0.subrange(1, src0.len() as int));
        assert forall|k: int| 0 <= k < src@.len() implies #[trigger] pviews(src@)[k] == s[i + 1 + k] by {
            assert(src@[k] == src0[k + 1]);
            assert(pviews(src0)[k + 1] == s.subrange(i as int, n as int)[k + 1]);
        }
        assert(pviews(src@) =~= s.subrange(i + 1, n as int));
        let ghost t = pviews(out@);
        let mut j: usize = 0;
        proof {
            lemma_insert_point(t, x@, mode, 0);
        }
        while j < out.len() && !project_before_exec(&x, &out[j], mode)
            invariant
                j <= out.len(),
                t == pviews(out@),
                all_counts_fit(t),
                counts_fit(x@),
                insert_point(t, x@, mode, 0) == insert_point(t, x@, mode, j as int),
            decreases out.len() - j,
        {
            j += 1;
        }
        let ghost xv = x@;
        out.insert(j, x);
        proof {
            let s1 = s.take(i + 1);
            assert(s1.drop_last() =~= s.take(i as int));
            assert(s1.last() == xv);
            assert(pviews(out@) =~= t.insert(j as int, xv));
            assert forall|k: int| 0 <= k < pviews(out@).len() implies counts_fit(
                #[trigger] pviews(out@)[k],
            ) by {
                if k < j {
                    assert(pviews(out@)[k] == t[k]);
                } else if k > j {
                    assert(pviews(out@)[k] == t[k - 1]);
                }
            }
        }
        i += 1;
    }
    assert(s.take(n as int) =~= s);
    *projects = out;
}

impl DockerSnapshot {
    /// A copy of the projects in the given order.
    pub fn projects_sorted(&self, mode: SortMode) -> (r: Vec<Project>)
        requires
            all_counts_fit(self@.projects),
        ensures
            pviews(r@) == sorted_by(self@.projects, mode),
    {
        let mut projects = copy_projects(&self.projects);
        sort_projects(&mut projects, mode);
        projects
    }
}


/// Label pairs collected into a map: one entry per key, keys sorted, a
/// later pair for the same key winning.
pub fn labels_from_pairs(items: Vec<(String, String)>) -> (r: Vec<(String, String)>)
    ensures
        strictly_sorted(crate::sorted::keys(pairs(r@))),
        forall|k: Seq<char>| #[trigger] pair_get(pairs(r@), k) == pair_get(pairs(items@), k),
{
    let mut r: Vec<(String, String)> = Vec::new();
    let mut i: usize = 0;
    proof {
        assert(crate::sorted::keys(pairs(r@)) =~= Seq::<Seq<char>>::empty());
        assert forall|k: Seq<char>| #[trigger] pair_get(pairs(r@), k) == pair_get(
            pairs(items@).take(0),
            k,
        ) by {
            assert(pairs(r@).len() == 0);
            assert(pairs(items@).take(0).len() == 0);
        }
    }
    while i < items.len()
        invariant
            i <= items.len(),
            strictly_sorted(crate::sorted::keys(pairs(r@))),
            forall|k: Seq<char>| #[trigger]
                pair_get(pairs(r@), k) == pair_get(pairs(items@).take(i as int), k),
        decreases items.len() - i,
    {
        let k = items[i].0.clone();
        let v = items[i].1.clone();
        let ghost r0 = pairs(r@);
        crate::sorted::put_pair(&mut r, k, v);
        proof {
            let t1 = pairs(items@).take(i + 1);
            assert(t1.drop_last() =~= pairs(items@).take(i as int));
            assert(t1.last() == (items@[i as int].0@, items@[i as int].1@));
            assert forall|key: Seq<char>| #[trigger]
                pair_get(pairs(r@), key) == pair_get(t1, key) by {
                assert(pair_get(r0, key) == pair_get(pairs(items@).take(i as int), key));
            }
        }
        i += 1;
    }
    assert(pairs(items@).take(i as int) =~= pairs(items@));
    r
}

} // verus!

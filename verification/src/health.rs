//! Diagnosis: per-project findings and status, findings across projects
//! (shared host ports, orphan networks and volumes, image bloat), and risk
//! fingerprints with a suggested next command.
use vstd::prelude::*;
use crate::domain::{
    is_active_spec, label_of, ContainerState, ContainerView, DockerSnapshot, HealthStatus,
    Project, ProjectHealth, ProjectKind, ProjectView,
};
use crate::sorted::{lookup_str, set_insert, strictly_sorted, strs};
use crate::text::{
    chars_of, contains_chars, contains_str, cvs, decimal, decimal_string, eq_str, find_str,
    first_occurrence, has_infix, has_prefix, join_strings_with, join_with, lemma_first_occurrence,
    lemma_rfind_bounds, lower_chars, lower_seq, owned, push_str, rfind, split_char, split_from,
    starts_with_str, string_of, sub_chars,
};

verus! {

/// The whole report of the health command.
#[derive(Debug, Clone, PartialEq, Eq)]
pub struct HealthReport {
    pub docker_cli: bool,
    pub docker_daemon: bool,
    pub projects: Vec<ProjectHealth>,
    pub findings: Vec<String>,
    pub fingerprints: Vec<ProjectFingerprint>,
}

/// The risk of one project: a score out of 100, the signals it rests on
/// (sorted, without duplicates), and the next command to run.
#[derive(Debug, Clone, PartialEq, Eq)]
pub struct ProjectFingerprint {
    pub project: String,
    pub risk_score: u16,
    pub signals: Vec<String>,
    pub suggested_command: String,
}

// ---------------------------------------------------------------------------
// Small predicates
// ---------------------------------------------------------------------------

/// The host port of a port mapping `<ip>:<port>-><private>/<proto>`: the
/// text before the first `->`, after its last `:`.
pub open spec fn host_port_spec(port: Seq<char>) -> Option<Seq<char>> {
    let i = first_occurrence(port, "->"@, 0);
    if i < 0 {
        None
    } else {
        let host = port.subrange(0, i);
        let c = rfind(host, ':', host.len() as int);
        Some(host.subrange(c + 1, host.len() as int))
    }
}

pub fn host_port_key(port: &str) -> (r: Option<String>)
    ensures
        crate::domain::opt_chars(r) == host_port_spec(port@),
{
    let p = chars_of(port);
    let arrow = chars_of("->");
    match find_str(&p, &arrow) {
        None => None,
        Some(i) => {
            proof {
                lemma_first_occurrence(p@, arrow@, 0);
            }
            let host = sub_chars(&p, 0, i);
            let mut c: usize = host.len();
            proof {
                lemma_rfind_bounds(host@, ':', host@.len() as int);
            }
            while c > 0 && host[c - 1] != ':'
                invariant
                    c <= host.len(),
                    rfind(host@, ':', host@.len() as int) == rfind(host@, ':', c as int),
                decreases c,
            {
                c -= 1;
            }
            let key = sub_chars(&host, c, host.len());
            Some(string_of(&key))
        },
    }
}

pub open spec fn is_hex(c: char) -> bool {
    ('0' <= c && c <= '9') || ('a' <= c && c <= 'f') || ('A' <= c && c <= 'F')
}

/// A volume name of at least 32 hex digits, as Docker gives anonymous
/// volumes.
pub open spec fn anonymous_spec(v: Seq<char>) -> bool {
    v.len() >= 32 && forall|i: int| 0 <= i < v.len() ==> is_hex(#[trigger] v[i])
}

pub fn looks_anonymous_volume(volume: &str) -> (r: bool)
    ensures
        r == anonymous_spec(volume@),
{
    let v = chars_of(volume);
    if v.len() < 32 {
        return false;
    }
    let mut i: usize = 0;
    while i < v.len()
        invariant
            i <= v.len(),
            v@ == volume@,
            v@.len() >= 32,
            forall|k: int| 0 <= k < i ==> is_hex(#[trigger] v@[k]),
        decreases v.len() - i,
    {
        let c = v[i];
        if !(('0' <= c && c <= '9') || ('a' <= c && c <= 'f') || ('A' <= c && c <= 'F')) {
            return false;
        }
        i += 1;
    }
    true
}

/// The non-empty words, in order.
pub open spec fn keep_nonempty(s: Seq<Seq<char>>) -> Seq<Seq<char>>
    decreases s.len(),
{
    if s.len() == 0 {
        s
    } else if s.last().len() > 0 {
        keep_nonempty(s.drop_last()).push(s.last())
    } else {
        keep_nonempty(s.drop_last())
    }
}

/// The security risks recorded on a container: the non-empty
/// comma-separated words of its `hugdocker.security` label.
pub open spec fn risks_spec(c: ContainerView) -> Seq<Seq<char>> {
    match label_of(c, "hugdocker.security"@) {
        Some(v) => keep_nonempty(split_from(v, ',', 0)),
        None => Seq::empty(),
    }
}

pub fn container_security_risks(container: &crate::domain::Container) -> (r: Vec<String>)
    ensures
        strs(r@) == risks_spec(container@),
{
    let mut r: Vec<String> = Vec::new();
    match lookup_str(&container.labels, "hugdocker.security") {
        None => {
            assert(strs(r@) =~= Seq::<Seq<char>>::empty());
        },
        Some(value) => {
            let v = chars_of(value.as_str());
            let pieces = split_char(&v, ',');
            let ghost ps = cvs(pieces@);
            let mut i: usize = 0;
            proof {
                assert(ps.take(0) =~= Seq::<Seq<char>>::empty());
                assert(strs(r@) =~= Seq::<Seq<char>>::empty());
            }
            while i < pieces.len()
                invariant
                    i <= pieces.len(),
                    ps == cvs(pieces@),
                    strs(r@) == keep_nonempty(ps.take(i as int)),
                decreases pieces.len() - i,
            {
                let ghost t1 = ps.take(i + 1);
                proof {
                    assert(t1.drop_last() =~= ps.take(i as int));
                    assert(t1.last() == pieces@[i as int]@);
                }
                if pieces[i].len() > 0 {
                    let ghost r0 = strs(r@);
                    r.push(string_of(&pieces[i]));
                    assert(strs(r@) =~= r0.push(pieces@[i as int]@));
                }
                i += 1;
            }
            assert(ps.take(i as int) =~= ps);
        },
    }
    r
}

/// Two of the mappings publish the same host port.
pub open spec fn dup_ports_spec(ports: Seq<Seq<char>>) -> bool {
    exists|i: int, j: int|
        0 <= i < j < ports.len() && host_port_spec(#[trigger] ports[i]) is Some && host_port_spec(
            ports[i],
        ) == host_port_spec(#[trigger] ports[j])
}

pub fn has_duplicate_ports(ports: &Vec<String>) -> (r: bool)
    ensures
        r == dup_ports_spec(strs(ports@)),
{
    let ghost ps = strs(ports@);
    let mut seen: Vec<String> = Vec::new();
    let mut i: usize = 0;
    while i < ports.len()
        invariant
            i <= ports.len(),
            ps == strs(ports@),
            strictly_sorted(strs(seen@)),
            forall|y: Seq<char>|
                strs(seen@).contains(y) <==> exists|k: int|
                    0 <= k < i && host_port_spec(#[trigger] ps[k]) == Some(y),
            forall|a: int, b: int|
                0 <= a < b < i && host_port_spec(#[trigger] ps[a]) is Some ==> host_port_spec(
                    ps[a],
                ) != host_port_spec(#[trigger] ps[b]),
        decreases ports.len() - i,
    {
        if let Some(key) = host_port_key(ports[i].as_str()) {
            let ghost kv = key@;
            let ghost s0 = strs(seen@);
            let added = set_insert(&mut seen, key);
            if !added {
                proof {
                    let k = choose|k: int| 0 <= k < i && host_port_spec(#[trigger] ps[k]) == Some(kv);
                    assert(host_port_spec(ps[i as int]) == Some(kv));
                }
                return true;
            }
            proof {
                assert forall|y: Seq<char>|
                    strs(seen@).contains(y) <==> exists|k: int|
                        0 <= k < i + 1 && host_port_spec(#[trigger] ps[k]) == Some(y) by {
                    assert(strs(seen@).to_set().contains(y) == s0.to_set().insert(kv).contains(y));
                    if y == kv {
                        assert(host_port_spec(ps[i as int]) == Some(y));
                    }
                    if s0.contains(y) {
                        assert(s0.to_set().contains(y));
                    }
                    if strs(seen@).contains(y) {
                        assert(strs(seen@).to_set().contains(y));
                    }
                    if exists|k: int| 0 <= k < i + 1 && host_port_spec(#[trigger] ps[k]) == Some(y) {
                        let k = choose|k: int| 0 <= k < i + 1 && host_port_spec(#[trigger] ps[k]) == Some(y);
                        if k < i {
                            assert(s0.contains(y));
                        }
                    }
                }
                assert forall|a: int, b: int|
                    0 <= a < b < i + 1 && host_port_spec(#[trigger] ps[a]) is Some implies host_port_spec(
                        ps[a],
                    ) != host_port_spec(#[trigger] ps[b]) by {
                    if b == i && host_port_spec(ps[a]) == host_port_spec(ps[b]) {
                        assert(s0.contains(kv));
                    }
                }
            }
        }
        i += 1;
    }
    proof {
        if dup_ports_spec(ps) {
            let (a, b) = choose|a: int, b: int|
                0 <= a < b < ps.len() && host_port_spec(#[trigger] ps[a]) is Some && host_port_spec(
                    ps[a],
                ) == host_port_spec(#[trigger] ps[b]);
        }
    }
    false
}

/// A stopped container whose status says it stopped a day or more ago.
pub open spec fn stale_spec(state: ContainerState, status: Seq<char>) -> bool {
    !is_active_spec(state) && (has_infix(lower_seq(status), " day"@) || has_infix(
        lower_seq(status),
        " week"@,
    ) || has_infix(lower_seq(status), " month"@) || has_infix(lower_seq(status), " year"@))
}

pub fn looks_stale_stopped(state: ContainerState, status: &str) -> (r: bool)
    ensures
        r == stale_spec(state, status@),
{
    if state.is_active() {
        return false;
    }
    let s = crate::text::lower_of(status);
    contains_str(&s, " day") || contains_str(&s, " week") || contains_str(&s, " month")
        || contains_str(&s, " year")
}

/// `bridge`, `host` and `none`: networks Docker always has.
pub open spec fn default_network_spec(n: Seq<char>) -> bool {
    n == "bridge"@ || n == "host"@ || n == "none"@
}

pub fn is_default_network(network: &str) -> (r: bool)
    ensures
        r == default_network_spec(network@),
{
    let v = chars_of(network);
    eq_str(&v, "bridge") || eq_str(&v, "host") || eq_str(&v, "none")
}


// ---------------------------------------------------------------------------
// Per-project findings
// ---------------------------------------------------------------------------

/// A mapping published on all host addresses.
pub open spec fn public_port(p: Seq<char>) -> bool {
    has_prefix(p, "0.0.0.0:"@)
}

pub open spec fn public_findings(ports: Seq<Seq<char>>) -> Seq<Seq<char>>
    decreases ports.len(),
{
    if ports.len() == 0 {
        Seq::empty()
    } else if public_port(ports.last()) {
        public_findings(ports.drop_last()).push("公网监听端口暴露: "@ + ports.last())
    } else {
        public_findings(ports.drop_last())
    }
}

pub open spec fn risk_findings(name: Seq<char>, risks: Seq<Seq<char>>) -> Seq<Seq<char>> {
    Seq::new(risks.len(), |i: int| "security risk: "@ + name + " "@ + risks[i])
}

pub open spec fn anon_findings(vols: Seq<Seq<char>>) -> Seq<Seq<char>>
    decreases vols.len(),
{
    if vols.len() == 0 {
        Seq::empty()
    } else if anonymous_spec(vols.last()) {
        anon_findings(vols.drop_last()).push("疑似匿名卷: "@ + vols.last())
    } else {
        anon_findings(vols.drop_last())
    }
}

/// What one container contributes: a restart loop, its security risks, its
/// anonymous volumes.
pub open spec fn container_findings(c: ContainerView) -> Seq<Seq<char>> {
    (if c.state == ContainerState::Restarting {
        seq!["restart loop: "@ + c.name]
    } else {
        Seq::empty()
    }) + risk_findings(c.name, risks_spec(c)) + anon_findings(c.volumes)
}

pub open spec fn containers_findings(cs: Seq<ContainerView>) -> Seq<Seq<char>>
    decreases cs.len(),
{
    if cs.len() == 0 {
        Seq::empty()
    } else {
        containers_findings(cs.drop_last()) + container_findings(cs.last())
    }
}

/// Some network of the project is not `bridge`.
pub open spec fn custom_network(p: ProjectView) -> bool {
    exists|i: int| 0 <= i < p.networks.len() && p.networks[i] != "bridge"@
}

pub open spec fn when(b: bool, s: Seq<char>) -> Seq<Seq<char>> {
    if b {
        seq![s]
    } else {
        Seq::empty()
    }
}

/// The findings of a project, in the order the doctor lists them.
pub open spec fn findings_spec(p: ProjectView) -> Seq<Seq<char>> {
    when(p.unhealthy > 0, decimal(p.unhealthy as nat) + " 个 unhealthy 容器"@) + when(
        p.restarting > 0,
        decimal(p.restarting as nat) + " 个 restarting 容器"@,
    ) + when(p.paused > 0, decimal(p.paused as nat) + " 个 paused 容器"@) + when(
        dup_ports_spec(p.ports),
        "检测到项目内端口重复映射"@,
    ) + public_findings(p.ports) + containers_findings(p.containers) + when(
        p.kind == ProjectKind::Standalone && custom_network(p),
        "standalone 项目使用自定义网络，删除前确认是否共享。"@,
    )
}

/// Some finding mentions `needle`.
pub open spec fn any_mentions(fs: Seq<Seq<char>>, needle: Seq<char>) -> bool {
    exists|i: int| 0 <= i < fs.len() && has_infix(#[trigger] fs[i], needle)
}

/// Critical with unhealthy or restarting containers; a warning with paused
/// containers, duplicate host ports, public ports or security risks;
/// healthy otherwise.
pub open spec fn status_spec(p: ProjectView, fs: Seq<Seq<char>>) -> HealthStatus {
    if p.unhealthy > 0 || p.restarting > 0 {
        HealthStatus::Critical
    } else if p.paused > 0 || dup_ports_spec(p.ports) || any_mentions(fs, "公网监听"@)
        || any_mentions(fs, "security risk"@) {
        HealthStatus::Warning
    } else {
        HealthStatus::Healthy
    }
}

pub fn any_mentions_exec(fs: &Vec<String>, needle: &str) -> (r: bool)
    ensures
        r == any_mentions(strs(fs@), needle@),
{
    let n = chars_of(needle);
    let mut i: usize = 0;
    while i < fs.len()
        invariant
            i <= fs.len(),
            n@ == needle@,
            forall|k: int| 0 <= k < i ==> !has_infix(#[trigger] strs(fs@)[k], needle@),
        decreases fs.len() - i,
    {
        let f = chars_of(fs[i].as_str());
        if contains_chars(&f, &n) {
            assert(has_infix(strs(fs@)[i as int], needle@));
            return true;
        }
        i += 1;
    }
    false
}

fn push_text(v: &mut Vec<String>, s: String)
    ensures
        strs(final(v)@) == strs(old(v)@).push(s@),
{
    let ghost v0 = strs(v@);
    v.push(s);
    assert(strs(v@) =~= v0.push(s@));
}

fn count_line(n: usize, tail: &str) -> (r: String)
    ensures
        r@ == decimal(n as nat) + tail@,
{
    let mut s = decimal_string(n as u128);
    push_str(&mut s, tail);
    s
}

fn container_findings_exec(c: &crate::domain::Container, out: &mut Vec<String>)
    ensures
        strs(final(out)@) == strs(old(out)@) + container_findings(c@),
{
    let ghost o0 = strs(out@);
    let ghost restart = if c@.state == ContainerState::Restarting {
        seq!["restart loop: "@ + c@.name]
    } else {
        Seq::<Seq<char>>::empty()
    };
    if matches!(c.state, ContainerState::Restarting) {
        let mut s = owned("restart loop: ");
        push_str(&mut s, c.name.as_str());
        push_text(out, s);
    }
    assert(strs(out@) =~= o0 + restart);
    let risks = container_security_risks(c);
    let ghost rs = strs(risks@);
    let mut i: usize = 0;
    while i < risks.len()
        invariant
            i <= risks.len(),
            rs == strs(risks@),
            rs == risks_spec(c@),
            strs(out@) == o0 + restart + risk_findings(c@.name, rs.take(i as int)),
        decreases risks.len() - i,
    {
        let mut s = owned("security risk: ");
        push_str(&mut s, c.name.as_str());
        push_str(&mut s, " ");
        push_str(&mut s, risks[i].as_str());
        push_text(out, s);
        i += 1;
        assert(strs(out@) =~= o0 + restart + risk_findings(c@.name, rs.take(i as int)));
    }
    assert(rs.take(i as int) =~= rs);
    let ghost mid = strs(out@);
    let ghost vs = c@.volumes;
    let mut j: usize = 0;
    assert(vs.take(0) =~= Seq::<Seq<char>>::empty());
    assert(mid + anon_findings(vs.take(0)) =~= mid);
    while j < c.volumes.len()
        invariant
            j <= c.volumes.len(),
            vs == c@.volumes,
            strs(out@) == mid + anon_findings(vs.take(j as int)),
        decreases c.volumes.len() - j,
    {
        let ghost t1 = vs.take(j + 1);
        assert(t1.drop_last() =~= vs.take(j as int));
        if looks_anonymous_volume(c.volumes[j].as_str()) {
            let mut s = owned("疑似匿名卷: ");
            push_str(&mut s, c.volumes[j].as_str());
            push_text(out, s);
        }
        j += 1;
        assert(strs(out@) =~= mid + anon_findings(vs.take(j as int)));
    }
    assert(vs.take(j as int) =~= vs);
}

/// The diagnosis of one project.
#[verifier::rlimit(40)]
pub fn analyze_project(project: &Project) -> (r: ProjectHealth)
    ensures
        r.project@ == project@.name,
        strs(r.findings@) == findings_spec(project@),
        r.status == status_spec(project@, findings_spec(project@)),
{
    let ghost p = project@;
    let mut fs: Vec<String> = Vec::new();
    let ghost f0 = when(p.unhealthy > 0, decimal(p.unhealthy as nat) + " 个 unhealthy 容器"@)
        + when(p.restarting > 0, decimal(p.restarting as nat) + " 个 restarting 容器"@) + when(
        p.paused > 0,
        decimal(p.paused as nat) + " 个 paused 容器"@,
    );
    if project.unhealthy > 0 {
        push_text(&mut fs, count_line(project.unhealthy, " 个 unhealthy 容器"));
    }
    if project.restarting > 0 {
        push_text(&mut fs, count_line(project.restarting, " 个 restarting 容器"));
    }
    if project.paused > 0 {
        push_text(&mut fs, count_line(project.paused, " 个 paused 容器"));
    }
    assert(strs(fs@) =~= f0);
    let dup = has_duplicate_ports(&project.ports);
    if dup {
        push_text(&mut fs, owned("检测到项目内端口重复映射"));
    }
    let ghost f1 = f0 + when(dup_ports_spec(p.ports), "检测到项目内端口重复映射"@);
    assert(strs(fs@) =~= f1);
    let mut i: usize = 0;
    assert(p.ports.take(0) =~= Seq::<Seq<char>>::empty());
    assert(f1 + public_findings(p.ports.take(0)) =~= f1);
    while i < project.ports.len()
        invariant
            i <= project.ports.len(),
            p == project@,
            strs(fs@) == f1 + public_findings(p.ports.take(i as int)),
        decreases project.ports.len() - i,
    {
        let ghost t1 = p.ports.take(i + 1);
        assert(t1.drop_last() =~= p.ports.take(i as int));
        let pc = chars_of(project.ports[i].as_str());
        if starts_with_str(&pc, "0.0.0.0:") {
            let mut s = owned("公网监听端口暴露: ");
            push_str(&mut s, project.ports[i].as_str());
            push_text(&mut fs, s);
        }
        i += 1;
        assert(strs(fs@) =~= f1 + public_findings(p.ports.take(i as int)));
    }
    assert(p.ports.take(i as int) =~= p.ports);
    let ghost f2 = f1 + public_findings(p.ports);
    let mut k: usize = 0;
    assert(p.containers.take(0) =~= Seq::<ContainerView>::empty());
    assert(f2 + containers_findings(p.containers.take(0)) =~= f2);
    while k < project.containers.len()
        invariant
            k <= project.containers.len(),
            p == project@,
            strs(fs@) == f2 + containers_findings(p.containers.take(k as int)),
        decreases project.containers.len() - k,
    {
        let ghost t1 = p.containers.take(k + 1);
        assert(t1.drop_last() =~= p.containers.take(k as int));
        assert(t1.last() == project.containers@[k as int]@);
        container_findings_exec(&project.containers[k], &mut fs);
        k += 1;
        assert(strs(fs@) =~= f2 + containers_findings(p.containers.take(k as int)));
    }
    assert(p.containers.take(k as int) =~= p.containers);
    let ghost f3 = f2 + containers_findings(p.containers);
    if matches!(project.kind, ProjectKind::Standalone) {
        let mut custom = false;
        let mut n: usize = 0;
        while n < project.networks.len()
            invariant
                n <= project.networks.len(),
                p == project@,
                custom == exists|t: int| 0 <= t < n && p.networks[t] != "bridge"@,
            decreases project.networks.len() - n,
        {
            assert(p.networks[n as int] == project.networks@[n as int]@);
            if !crate::text::string_eq_str(&project.networks[n], "bridge") {
                custom = true;
            }
            proof {
                if p.networks[n as int] == "bridge"@ {
                    assert((exists|t: int| 0 <= t < n + 1 && p.networks[t] != "bridge"@) == (exists|
                        t: int,
                    | 0 <= t < n && p.networks[t] != "bridge"@));
                }
            }
            n += 1;
        }
        if custom {
            push_text(&mut fs, owned("standalone 项目使用自定义网络，删除前确认是否共享。"));
        }
    }
    assert(strs(fs@) =~= findings_spec(p));
    let status = if project.unhealthy > 0 || project.restarting > 0 {
        HealthStatus::Critical
    } else if project.paused > 0 || dup || any_mentions_exec(&fs, "公网监听")
        || any_mentions_exec(&fs, "security risk") {
        HealthStatus::Warning
    } else {
        HealthStatus::Healthy
    };
    ProjectHealth { project: project.name.clone(), status, findings: fs }
}

/// The diagnosis of every project, in snapshot order.
pub fn analyze_snapshot(snapshot: &DockerSnapshot) -> (r: Vec<ProjectHealth>)
    ensures
        r@.len() == snapshot@.projects.len(),
        forall|i: int|
            0 <= i < r@.len() ==> {
                let p = snapshot@.projects[i];
                &&& (#[trigger] r@[i]).project@ == p.name
                &&& strs(r@[i].findings@) == findings_spec(p)
                &&& r@[i].status == status_spec(p, findings_spec(p))
            },
{
    let mut r: Vec<ProjectHealth> = Vec::new();
    let mut i: usize = 0;
    while i < snapshot.projects.len()
        invariant
            i <= snapshot.projects.len(),
            r@.len() == i,
            forall|k: int|
                0 <= k < i ==> {
                    let p = snapshot@.projects[k];
                    &&& (#[trigger] r@[k]).project@ == p.name
                    &&& strs(r@[k].findings@) == findings_spec(p)
                    &&& r@[k].status == status_spec(p, findings_spec(p))
                },
        decreases snapshot.projects.len() - i,
    {
        let h = analyze_project(&snapshot.projects[i]);
        r.push(h);
        i += 1;
    }
    r
}


// ---------------------------------------------------------------------------
// Findings across projects
// ---------------------------------------------------------------------------

/// The project publishes a mapping whose host port is `k`.
pub open spec fn has_port_key(p: ProjectView, k: Seq<char>) -> bool {
    exists|j: int| 0 <= j < p.ports.len() && host_port_spec(#[trigger] p.ports[j]) == Some(k)
}

/// Every host port some project publishes.
pub open spec fn port_keys(ps: Seq<ProjectView>) -> Set<Seq<char>> {
    Set::new(|k: Seq<char>| exists|i: int| 0 <= i < ps.len() && has_port_key(#[trigger] ps[i], k))
}

/// The names of the projects publishing host port `k`.
pub open spec fn port_owners(ps: Seq<ProjectView>, k: Seq<char>) -> Set<Seq<char>> {
    Set::new(
        |n: Seq<char>|
            exists|i: int| 0 <= i < ps.len() && (#[trigger] ps[i]).name == n && has_port_key(ps[i], k),
    )
}

/// The names of the projects mounting volume `v`.
pub open spec fn volume_owners(ps: Seq<ProjectView>, v: Seq<char>) -> Set<Seq<char>> {
    Set::new(
        |n: Seq<char>|
            exists|i: int|
                0 <= i < ps.len() && (#[trigger] ps[i]).name == n && ps[i].volumes.contains(v),
    )
}

pub open spec fn bloat_findings(ps: Seq<ProjectView>) -> Seq<Seq<char>>
    decreases ps.len(),
{
    if ps.len() == 0 {
        Seq::empty()
    } else if ps.last().images.len() >= 5 {
        bloat_findings(ps.drop_last()).push(
            "项目 "@ + ps.last().name + " 引用 "@ + decimal(ps.last().images.len())
                + " 个镜像，疑似镜像膨胀。"@,
        )
    } else {
        bloat_findings(ps.drop_last())
    }
}

/// One line per host port (in port order) that more than one project
/// publishes, naming the projects in name order.
pub open spec fn conflict_lines(ks: Seq<Seq<char>>, ps: Seq<ProjectView>) -> Seq<Seq<char>>
    decreases ks.len(),
{
    if ks.len() == 0 {
        Seq::empty()
    } else if port_owners(ps, ks.last()).len() > 1 {
        conflict_lines(ks.drop_last(), ps).push(
            "端口 "@ + ks.last() + " 同时出现在多个项目: "@ + join_with(
                crate::sorted::sorted_of(port_owners(ps, ks.last())),
                ", "@,
            ),
        )
    } else {
        conflict_lines(ks.drop_last(), ps)
    }
}

/// Every network some project uses.
pub open spec fn used_networks(ps: Seq<ProjectView>) -> Set<Seq<char>> {
    Set::new(|n: Seq<char>| exists|i: int| 0 <= i < ps.len() && (#[trigger] ps[i]).networks.contains(n))
}

/// Every volume some project mounts.
pub open spec fn used_volumes(ps: Seq<ProjectView>) -> Set<Seq<char>> {
    Set::new(|n: Seq<char>| exists|i: int| 0 <= i < ps.len() && (#[trigger] ps[i]).volumes.contains(n))
}

/// The names, in order, that are not in `used` (and, when asked, not a
/// default network).
pub open spec fn unused(names: Seq<Seq<char>>, used: Set<Seq<char>>, skip_default: bool) -> Seq<
    Seq<char>,
>
    decreases names.len(),
{
    if names.len() == 0 {
        Seq::empty()
    } else if !used.contains(names.last()) && !(skip_default && default_network_spec(
        names.last(),
    )) {
        unused(names.drop_last(), used, skip_default).push(names.last())
    } else {
        unused(names.drop_last(), used, skip_default)
    }
}

/// The first five of `names`.
pub open spec fn first_five(names: Seq<Seq<char>>) -> Seq<Seq<char>> {
    if names.len() <= 5 {
        names
    } else {
        names.take(5)
    }
}

pub open spec fn orphan_line(label: Seq<char>, names: Seq<Seq<char>>) -> Seq<Seq<char>> {
    if names.len() == 0 {
        Seq::empty()
    } else {
        seq![label + join_with(names, ", "@)]
    }
}

/// The findings across projects: image bloat (five images or more), host
/// ports that several projects publish, and up to five networks and five
/// volumes that no project uses.
pub open spec fn global_spec(s: crate::domain::SnapshotView) -> Seq<Seq<char>> {
    bloat_findings(s.projects) + conflict_lines(
        crate::sorted::sorted_of(port_keys(s.projects)),
        s.projects,
    ) + orphan_line(
        "疑似孤儿网络: "@,
        first_five(unused(s.networks, used_networks(s.projects), true)),
    ) + orphan_line("疑似孤儿卷: "@, first_five(unused(s.volumes, used_volumes(s.projects), false)))
}

/// `x` is in the strictly sorted string set `v`.
pub fn set_contains(v: &Vec<String>, x: &String) -> (r: bool)
    ensures
        r == strs(v@).contains(x@),
{
    let mut i: usize = 0;
    while i < v.len()
        invariant
            i <= v.len(),
            forall|k: int| 0 <= k < i ==> strs(v@)[k] != x@,
        decreases v.len() - i,
    {
        if crate::text::string_eq(&v[i], x) {
            assert(strs(v@)[i as int] == x@);
            return true;
        }
        i += 1;
    }
    false
}

fn has_port_key_exec(p: &Project, k: &String) -> (r: bool)
    ensures
        r == has_port_key(p@, k@),
{
    let mut j: usize = 0;
    while j < p.ports.len()
        invariant
            j <= p.ports.len(),
            forall|t: int| 0 <= t < j ==> host_port_spec(#[trigger] p@.ports[t]) != Some(k@),
        decreases p.ports.len() - j,
    {
        match host_port_key(p.ports[j].as_str()) {
            Some(key) => {
                if crate::text::string_eq(&key, k) {
                    assert(host_port_spec(p@.ports[j as int]) == Some(k@));
                    return true;
                }
            },
            None => {},
        }
        j += 1;
    }
    false
}

/// The sorted names of the projects publishing host port `k`.
fn port_owners_exec(ps: &Vec<Project>, k: &String) -> (r: Vec<String>)
    ensures
        crate::sorted::is_sorted_set_of(strs(r@), port_owners(crate::domain::pviews(ps@), k@)),
{
    let ghost pv = crate::domain::pviews(ps@);
    let mut r: Vec<String> = Vec::new();
    let mut i: usize = 0;
    assert(strs(r@).to_set() =~= Set::empty());
    while i < ps.len()
        invariant
            i <= ps.len(),
            pv == crate::domain::pviews(ps@),
            strictly_sorted(strs(r@)),
            strs(r@).to_set() == Set::new(
                |n: Seq<char>|
                    exists|t: int| 0 <= t < i && (#[trigger] pv[t]).name == n && has_port_key(pv[t], k@),
            ),
        decreases ps.len() - i,
    {
        let ghost before = strs(r@).to_set();
        if has_port_key_exec(&ps[i], k) {
            set_insert(&mut r, ps[i].name.clone());
        }
        proof {
            assert(pv[i as int] == ps@[i as int]@);
            assert(strs(r@).to_set() =~= Set::new(
                |n: Seq<char>|
                    exists|t: int| 0 <= t < i + 1 && (#[trigger] pv[t]).name == n && has_port_key(pv[t], k@),
            ));
        }
        i += 1;
    }
    assert(strs(r@).to_set() =~= port_owners(pv, k@));
    r
}

/// The sorted host ports the project publishes.
fn project_port_keys(p: &Project) -> (r: Vec<String>)
    ensures
        strictly_sorted(strs(r@)),
        strs(r@).to_set() == Set::new(|k: Seq<char>| has_port_key(p@, k)),
{
    let mut r: Vec<String> = Vec::new();
    let mut j: usize = 0;
    assert(strs(r@).to_set() =~= Set::empty());
    while j < p.ports.len()
        invariant
            j <= p.ports.len(),
            strictly_sorted(strs(r@)),
            strs(r@).to_set() == Set::new(
                |k: Seq<char>|
                    exists|t: int| 0 <= t < j && host_port_spec(#[trigger] p@.ports[t]) == Some(k),
            ),
        decreases p.ports.len() - j,
    {
        assert(p@.ports[j as int] == p.ports@[j as int]@);
        let ghost before = strs(r@).to_set();
        match host_port_key(p.ports[j].as_str()) {
            Some(key) => {
                set_insert(&mut r, key);
            },
            None => {},
        }
        proof {
            assert forall|k: Seq<char>|
                strs(r@).to_set().contains(k) <==> exists|t: int|
                    0 <= t < j + 1 && host_port_spec(#[trigger] p@.ports[t]) == Some(k) by {
                if host_port_spec(p@.ports[j as int]) == Some(k) {
                    assert(strs(r@).to_set().contains(k));
                }
                if exists|t: int| 0 <= t < j + 1 && host_port_spec(#[trigger] p@.ports[t]) == Some(k) {
                    let t = choose|t: int| 0 <= t < j + 1 && host_port_spec(#[trigger] p@.ports[t]) == Some(k);
                    if t < j {
                        assert(before.contains(k));
                    }
                }
            }
            assert(strs(r@).to_set() =~= Set::new(
                |k: Seq<char>|
                    exists|t: int| 0 <= t < j + 1 && host_port_spec(#[trigger] p@.ports[t]) == Some(k),
            ));
        }
        j += 1;
    }
    assert(strs(r@).to_set() =~= Set::new(|k: Seq<char>| has_port_key(p@, k)));
    r
}

/// The first five strings (all of them when there are fewer).
fn first_five_exec(v: &Vec<String>) -> (r: Vec<String>)
    ensures
        strs(r@) == first_five(strs(v@)),
{
    let mut r: Vec<String> = Vec::new();
    let mut i: usize = 0;
    while i < v.len() && i < 5
        invariant
            i <= v.len(),
            i <= 5,
            strs(r@) == strs(v@).take(i as int),
        decreases v.len() - i,
    {
        push_text(&mut r, v[i].clone());
        i += 1;
        assert(strs(r@) =~= strs(v@).take(i as int));
    }
    assert(strs(v@).len() <= 5 ==> strs(v@).take(i as int) =~= strs(v@));
    r
}

fn unused_exec(names: &Vec<String>, used: &Vec<String>, skip_default: bool) -> (r: Vec<String>)
    requires
        strictly_sorted(strs(used@)),
    ensures
        strs(r@) == unused(strs(names@), strs(used@).to_set(), skip_default),
{
    let ghost ns = strs(names@);
    let ghost us = strs(used@).to_set();
    let mut r: Vec<String> = Vec::new();
    let mut i: usize = 0;
    assert(ns.take(0) =~= Seq::<Seq<char>>::empty());
    assert(strs(r@) =~= Seq::<Seq<char>>::empty());
    while i < names.len()
        invariant
            i <= names.len(),
            ns == strs(names@),
            us == strs(used@).to_set(),
            strs(r@) == unused(ns.take(i as int), us, skip_default),
        decreases names.len() - i,
    {
        let ghost t1 = ns.take(i + 1);
        assert(t1.drop_last() =~= ns.take(i as int));
        assert(t1.last() == names@[i as int]@);
        let inside = set_contains(used, &names[i]);
        proof {
            assert(inside == us.contains(names@[i as int]@));
        }
        if !inside && !(skip_default && is_default_network(names[i].as_str())) {
            push_text(&mut r, names[i].clone());
        }
        i += 1;
    }
    assert(ns.take(i as int) =~= ns);
    r
}

fn orphan_line_exec(out: &mut Vec<String>, label: &str, names: &Vec<String>)
    ensures
        strs(final(out)@) == strs(old(out)@) + orphan_line(label@, strs(names@)),
{
    let ghost o0 = strs(out@);
    if names.len() > 0 {
        let mut s = owned(label);
        let j = join_strings_with(names, ", ");
        push_str(&mut s, j.as_str());
        push_text(out, s);
        assert(strs(out@) =~= o0 + orphan_line(label@, strs(names@)));
    } else {
        assert(strs(out@) =~= o0 + orphan_line(label@, strs(names@)));
    }
}

/// The findings that concern several projects or none.
/// The image-bloat line of a project.
pub open spec fn bloat_line(p: ProjectView) -> Seq<char> {
    "项目 "@ + p.name + " 引用 "@ + decimal(p.images.len()) + " 个镜像，疑似镜像膨胀。"@
}

/// The line naming the projects that publish host port `k`.
pub open spec fn conflict_line(k: Seq<char>, ps: Seq<ProjectView>) -> Seq<char> {
    "端口 "@ + k + " 同时出现在多个项目: "@ + join_with(crate::sorted::sorted_of(port_owners(ps, k)), ", "@)
}

proof fn lemma_bloat_lines(ps: Seq<ProjectView>)
    ensures
        forall|i: int|
            0 <= i < ps.len() && (#[trigger] ps[i]).images.len() >= 5 ==> bloat_findings(ps).contains(
                bloat_line(ps[i]),
            ),
        forall|t: Seq<char>|
            #[trigger] bloat_findings(ps).contains(t) ==> exists|i: int|
                0 <= i < ps.len() && ps[i].images.len() >= 5 && t == bloat_line(#[trigger] ps[i]),
    decreases ps.len(),
{
    if ps.len() > 0 {
        let q = ps.drop_last();
        lemma_bloat_lines(q);
        let b = bloat_findings(ps);
        let bq = bloat_findings(q);
        assert forall|i: int|
            0 <= i < ps.len() && (#[trigger] ps[i]).images.len() >= 5 implies b.contains(bloat_line(ps[i])) by {
            if i < q.len() {
                assert(q[i] == ps[i]);
                assert(bq.contains(bloat_line(q[i])));
                let j = choose|j: int| 0 <= j < bq.len() && bq[j] == bloat_line(q[i]);
                assert(b[j] == bq[j]);
            } else {
                assert(b[b.len() - 1] == bloat_line(ps[i]));
            }
        }
        assert forall|t: Seq<char>| #[trigger] b.contains(t) implies exists|i: int|
            0 <= i < ps.len() && ps[i].images.len() >= 5 && t == bloat_line(#[trigger] ps[i]) by {
            let j = choose|j: int| 0 <= j < b.len() && b[j] == t;
            if j < bq.len() {
                assert(b[j] == bq[j]);
                assert(bq.contains(t));
                let i = choose|i: int| 0 <= i < q.len() && q[i].images.len() >= 5 && t == bloat_line(#[trigger] q[i]);
                assert(ps[i] == q[i]);
            } else {
                assert(ps[ps.len() - 1] == ps.last());
            }
        }
    }
}

proof fn lemma_conflict_lines(ks: Seq<Seq<char>>, ps: Seq<ProjectView>)
    ensures
        forall|k: Seq<char>|
            ks.contains(k) && port_owners(ps, k).len() > 1 ==> #[trigger] conflict_lines(ks, ps).contains(
                conflict_line(k, ps),
            ),
        forall|t: Seq<char>| #[trigger] conflict_lines(ks, ps).contains(t) ==> t.len() > 0 && t[0] == '端',
    decreases ks.len(),
{
    reveal_strlit("端口 ");
    if ks.len() > 0 {
        let q = ks.drop_last();
        lemma_conflict_lines(q, ps);
        let c = conflict_lines(ks, ps);
        let cq = conflict_lines(q, ps);
        assert forall|k: Seq<char>|
            ks.contains(k) && port_owners(ps, k).len() > 1 implies #[trigger] c.contains(conflict_line(k, ps)) by {
            if q.contains(k) {
                assert(cq.contains(conflict_line(k, ps)));
                let j = choose|j: int| 0 <= j < cq.len() && cq[j] == conflict_line(k, ps);
                assert(c[j] == cq[j]);
            } else {
                let j = choose|j: int| 0 <= j < ks.len() && ks[j] == k;
                if j < q.len() {
                    assert(q[j] == ks[j]);
                }
                assert(k == ks.last());
                assert(c[c.len() - 1] == conflict_line(k, ps));
            }
        }
        assert forall|t: Seq<char>| #[trigger] c.contains(t) implies t.len() > 0 && t[0] == '端' by {
            let j = choose|j: int| 0 <= j < c.len() && c[j] == t;
            if j < cq.len() {
                assert(c[j] == cq[j]);
                assert(cq.contains(t));
            } else {
                assert(t == conflict_line(ks.last(), ps));
            }
        }
    }
}

pub fn global_findings(snapshot: &DockerSnapshot) -> (r: Vec<String>)
    ensures
        strs(r@) == global_spec(snapshot@),
        forall|i: int|
            0 <= i < snapshot@.projects.len() && (#[trigger] snapshot@.projects[i]).images.len() >= 5
                ==> strs(r@).contains(bloat_line(snapshot@.projects[i])),
        forall|t: Seq<char>|
            #[trigger] strs(r@).contains(t) && has_prefix(t, "项目 "@) ==> exists|i: int|
                0 <= i < snapshot@.projects.len() && snapshot@.projects[i].images.len() >= 5 && t
                    == bloat_line(#[trigger] snapshot@.projects[i]),
        forall|k: Seq<char>|
            port_owners(snapshot@.projects, k).len() > 1 ==> #[trigger] strs(r@).contains(
                conflict_line(k, snapshot@.projects),
            ),
{
    let ghost ps = snapshot@.projects;
    let mut findings: Vec<String> = Vec::new();
    let mut keys: Vec<String> = Vec::new();
    let mut nets: Vec<String> = Vec::new();
    let mut vols: Vec<String> = Vec::new();
    let mut i: usize = 0;
    proof {
        assert(ps.take(0) =~= Seq::<ProjectView>::empty());
        assert(strs(findings@) =~= Seq::<Seq<char>>::empty());
        assert(strs(keys@).to_set() =~= Set::empty());
        assert(strs(nets@).to_set() =~= Set::empty());
        assert(strs(vols@).to_set() =~= Set::empty());
    }
    while i < snapshot.projects.len()
        invariant
            i <= snapshot.projects.len(),
            ps == snapshot@.projects,
            strs(findings@) == bloat_findings(ps.take(i as int)),
            strictly_sorted(strs(keys@)),
            strictly_sorted(strs(nets@)),
            strictly_sorted(strs(vols@)),
            strs(keys@).to_set() == Set::new(
                |k: Seq<char>| exists|t: int| 0 <= t < i && has_port_key(#[trigger] ps[t], k),
            ),
            strs(nets@).to_set() == Set::new(
                |n: Seq<char>| exists|t: int| 0 <= t < i && (#[trigger] ps[t]).networks.contains(n),
            ),
            strs(vols@).to_set() == Set::new(
                |n: Seq<char>| exists|t: int| 0 <= t < i && (#[trigger] ps[t]).volumes.contains(n),
            ),
        decreases snapshot.projects.len() - i,
    {
        let p = &snapshot.projects[i];
        let ghost t1 = ps.take(i + 1);
        assert(t1.drop_last() =~= ps.take(i as int));
        assert(t1.last() == p@);
        assert(ps[i as int] == p@);
        if p.images.len() >= 5 {
            let mut s = owned("项目 ");
            push_str(&mut s, p.name.as_str());
            push_str(&mut s, " 引用 ");
            let d = decimal_string(p.images.len() as u128);
            push_str(&mut s, d.as_str());
            push_str(&mut s, " 个镜像，疑似镜像膨胀。");
            push_text(&mut findings, s);
        }
        let pk = project_port_keys(p);
        crate::sorted::set_extend(&mut keys, &pk);
        crate::sorted::set_extend(&mut nets, &p.networks);
        crate::sorted::set_extend(&mut vols, &p.volumes);
        proof {
            assert(strs(keys@).to_set() =~= Set::new(
                |k: Seq<char>| exists|t: int| 0 <= t < i + 1 && has_port_key(#[trigger] ps[t], k),
            ));
            assert(strs(nets@).to_set() =~= Set::new(
                |n: Seq<char>| exists|t: int| 0 <= t < i + 1 && (#[trigger] ps[t]).networks.contains(n),
            ));
            assert(strs(vols@).to_set() =~= Set::new(
                |n: Seq<char>| exists|t: int| 0 <= t < i + 1 && (#[trigger] ps[t]).volumes.contains(n),
            ));
        }
        i += 1;
    }
    proof {
        assert(ps.take(i as int) =~= ps);
        assert(strs(keys@).to_set() =~= port_keys(ps));
        assert(strs(nets@).to_set() =~= used_networks(ps));
        assert(strs(vols@).to_set() =~= used_volumes(ps));
        crate::sorted::lemma_sorted_of(strs(keys@), port_keys(ps));
    }
    let ghost f1 = strs(findings@);
    let ghost ks = strs(keys@);
    let mut k: usize = 0;
    assert(ks.take(0) =~= Seq::<Seq<char>>::empty());
    assert(f1 + conflict_lines(ks.take(0), ps) =~= f1);
    while k < keys.len()
        invariant
            k <= keys.len(),
            ks == strs(keys@),
            ps == snapshot@.projects,
            strs(findings@) == f1 + conflict_lines(ks.take(k as int), ps),
        decreases keys.len() - k,
    {
        let ghost t1 = ks.take(k + 1);
        assert(t1.drop_last() =~= ks.take(k as int));
        assert(t1.last() == keys@[k as int]@);
        let owners = port_owners_exec(&snapshot.projects, &keys[k]);
        proof {
            crate::sorted::lemma_sorted_no_dup(strs(owners@));
            strs(owners@).unique_seq_to_set();
            crate::sorted::lemma_sorted_of(strs(owners@), port_owners(ps, keys@[k as int]@));
        }
        if owners.len() > 1 {
            let mut s = owned("端口 ");
            push_str(&mut s, keys[k].as_str());
            push_str(&mut s, " 同时出现在多个项目: ");
            let j = join_strings_with(&owners, ", ");
            push_str(&mut s, j.as_str());
            push_text(&mut findings, s);
        }
        k += 1;
        assert(strs(findings@) =~= f1 + conflict_lines(ks.take(k as int), ps));
    }
    assert(ks.take(k as int) =~= ks);
    let on = unused_exec(&snapshot.networks, &nets, true);
    let on5 = first_five_exec(&on);
    orphan_line_exec(&mut findings, "疑似孤儿网络: ", &on5);
    let ov = unused_exec(&snapshot.volumes, &vols, false);
    let ov5 = first_five_exec(&ov);
    orphan_line_exec(&mut findings, "疑似孤儿卷: ", &ov5);
    proof {
        lemma_global_lines(snapshot@, ks);
        assert forall|k: Seq<char>| port_owners(ps, k).len() > 1 implies #[trigger] strs(findings@).contains(
            conflict_line(k, ps),
        ) by {
            assert(global_spec(snapshot@).contains(conflict_line(k, ps)));
        }
    }
    findings
}

proof fn lemma_global_lines(s: crate::domain::SnapshotView, ks: Seq<Seq<char>>)
    requires
        ks == crate::sorted::sorted_of(port_keys(s.projects)),
        crate::sorted::is_sorted_set_of(ks, port_keys(s.projects)),
    ensures
        forall|i: int|
            0 <= i < s.projects.len() && (#[trigger] s.projects[i]).images.len() >= 5
                ==> global_spec(s).contains(bloat_line(s.projects[i])),
        forall|t: Seq<char>|
            #[trigger] global_spec(s).contains(t) && has_prefix(t, "项目 "@) ==> exists|i: int|
                0 <= i < s.projects.len() && s.projects[i].images.len() >= 5 && t
                    == bloat_line(#[trigger] s.projects[i]),
        forall|k: Seq<char>|
            port_owners(s.projects, k).len() > 1 ==> #[trigger] global_spec(s).contains(
                conflict_line(k, s.projects),
            ),
{
    let ps = s.projects;
    let b = bloat_findings(ps);
    let c = conflict_lines(ks, ps);
    let o1 = orphan_line("疑似孤儿网络: "@, first_five(unused(s.networks, used_networks(ps), true)));
    let o2 = orphan_line("疑似孤儿卷: "@, first_five(unused(s.volumes, used_volumes(ps), false)));
    let g = global_spec(s);
    assert(g == b + c + o1 + o2);
    lemma_bloat_lines(ps);
    lemma_conflict_lines(ks, ps);
    reveal_strlit("疑似孤儿网络: ");
    reveal_strlit("疑似孤儿卷: ");
    reveal_strlit("项目 ");
    assert forall|i: int|
        0 <= i < ps.len() && (#[trigger] ps[i]).images.len() >= 5 implies g.contains(bloat_line(ps[i])) by {
        let j = choose|j: int| 0 <= j < b.len() && b[j] == bloat_line(ps[i]);
        assert(g[j] == b[j]);
    }
    assert forall|k: Seq<char>| port_owners(ps, k).len() > 1 implies #[trigger] g.contains(conflict_line(k, ps)) by {
        if !port_owners(ps, k).is_empty() {
            let n = port_owners(ps, k).choose();
            assert(port_owners(ps, k).contains(n));
            let i = choose|i: int| 0 <= i < ps.len() && (#[trigger] ps[i]).name == n && has_port_key(ps[i], k);
            assert(port_keys(ps).contains(k));
            assert(ks.to_set().contains(k));
            assert(ks.contains(k));
            assert(c.contains(conflict_line(k, ps)));
            let j = choose|j: int| 0 <= j < c.len() && c[j] == conflict_line(k, ps);
            assert(g[b.len() + j] == c[j]);
        } else {
            assert(port_owners(ps, k) =~= Set::<Seq<char>>::empty());
        }
    }
    assert forall|t: Seq<char>| #[trigger] g.contains(t) && has_prefix(t, "项目 "@) implies exists|i: int|
        0 <= i < ps.len() && ps[i].images.len() >= 5 && t == bloat_line(#[trigger] ps[i]) by {
        let j = choose|j: int| 0 <= j < g.len() && g[j] == t;
        assert(t.subrange(0, 3)[0] == t[0]);
        assert("项目 "@[0] == '项');
        if j < b.len() {
            assert(g[j] == b[j]);
            assert(b.contains(t));
        } else if j < b.len() + c.len() {
            assert(g[j] == c[j - b.len()]);
            assert(c.contains(t));
        } else if j < b.len() + c.len() + o1.len() {
            assert(g[j] == o1[j - b.len() - c.len()]);
            assert(t[0] == '疑');
        } else {
            assert(g[j] == o2[j - b.len() - c.len() - o1.len()]);
            assert(t[0] == '疑');
        }
    }
}


// ---------------------------------------------------------------------------
// Risk fingerprints
// ---------------------------------------------------------------------------

/// The kinds of signal that the risk score counts.
#[derive(Debug, Clone, Copy, PartialEq, Eq, Structural)]
pub enum SignalKind {
    PublicListen,
    AnonymousVolume,
    PublicBind,
    ImageBloat,
    PortConflict,
    SharedVolume,
    StaleStopped,
    Security,
}

pub open spec fn signal_is(kind: SignalKind, s: Seq<char>) -> bool {
    match kind {
        SignalKind::PublicListen => has_infix(s, "公网监听"@),
        SignalKind::AnonymousVolume => has_infix(s, "匿名卷"@),
        SignalKind::PublicBind => s == "public_bind"@,
        SignalKind::ImageBloat => s == "image_bloat"@,
        SignalKind::PortConflict => has_prefix(s, "port_conflict:"@),
        SignalKind::SharedVolume => has_prefix(s, "shared_volume:"@),
        SignalKind::StaleStopped => has_prefix(s, "stale_stopped:"@),
        SignalKind::Security => has_prefix(s, "security:"@),
    }
}

/// How many signals are of the given kind.
pub open spec fn count_kind(sg: Seq<Seq<char>>, kind: SignalKind) -> nat
    decreases sg.len(),
{
    if sg.len() == 0 {
        0
    } else {
        count_kind(sg.drop_last(), kind) + if signal_is(kind, sg.last()) {
            1nat
        } else {
            0nat
        }
    }
}

pub open spec fn u16_of(n: nat) -> int {
    (n as u16) as int
}

/// The weighted sum behind the risk score (each count taken as a `u16`):
/// unhealthy 40, restarting 35, paused 10, public listen 10, anonymous
/// volume 8, public bind 8, image bloat 6, port conflict 15, shared volume
/// 12, stale stopped 10, security 12.
pub open spec fn risk_raw(p: ProjectView, sg: Seq<Seq<char>>) -> int {
    u16_of(p.unhealthy as nat) * 40 + u16_of(p.restarting as nat) * 35 + u16_of(p.paused as nat)
        * 10 + u16_of(count_kind(sg, SignalKind::PublicListen)) * 10 + u16_of(
        count_kind(sg, SignalKind::AnonymousVolume),
    ) * 8 + u16_of(count_kind(sg, SignalKind::PublicBind)) * 8 + u16_of(
        count_kind(sg, SignalKind::ImageBloat),
    ) * 6 + u16_of(count_kind(sg, SignalKind::PortConflict)) * 15 + u16_of(
        count_kind(sg, SignalKind::SharedVolume),
    ) * 12 + u16_of(count_kind(sg, SignalKind::StaleStopped)) * 10 + u16_of(
        count_kind(sg, SignalKind::Security),
    ) * 12
}

/// The risk score: the weighted sum, capped at 100.
pub open spec fn risk_spec(p: ProjectView, sg: Seq<Seq<char>>) -> int {
    if risk_raw(p, sg) < 100 {
        risk_raw(p, sg)
    } else {
        100
    }
}

fn signal_is_exec(kind: SignalKind, s: &Vec<char>) -> (r: bool)
    ensures
        r == signal_is(kind, s@),
{
    match kind {
        SignalKind::PublicListen => contains_str(s, "公网监听"),
        SignalKind::AnonymousVolume => contains_str(s, "匿名卷"),
        SignalKind::PublicBind => eq_str(s, "public_bind"),
        SignalKind::ImageBloat => eq_str(s, "image_bloat"),
        SignalKind::PortConflict => starts_with_str(s, "port_conflict:"),
        SignalKind::SharedVolume => starts_with_str(s, "shared_volume:"),
        SignalKind::StaleStopped => starts_with_str(s, "stale_stopped:"),
        SignalKind::Security => starts_with_str(s, "security:"),
    }
}

fn count_kind_exec(signals: &Vec<String>, kind: SignalKind) -> (r: usize)
    ensures
        r == count_kind(strs(signals@), kind),
{
    let ghost sg = strs(signals@);
    let mut n: usize = 0;
    let mut i: usize = 0;
    assert(sg.take(0) =~= Seq::<Seq<char>>::empty());
    while i < signals.len()
        invariant
            i <= signals.len(),
            sg == strs(signals@),
            n == count_kind(sg.take(i as int), kind),
            n <= i,
        decreases signals.len() - i,
    {
        let ghost t1 = sg.take(i + 1);
        assert(t1.drop_last() =~= sg.take(i as int));
        assert(t1.last() == signals@[i as int]@);
        let v = chars_of(signals[i].as_str());
        if signal_is_exec(kind, &v) {
            n += 1;
        }
        i += 1;
    }
    assert(sg.take(i as int) =~= sg);
    n
}

/// The risk score of a project with the given signals.
pub fn project_risk_score(project: &Project, signals: &Vec<String>) -> (r: u16)
    requires
        risk_raw(project@, strs(signals@)) <= u16::MAX,
    ensures
        r == risk_spec(project@, strs(signals@)),
{
    let ghost sg = strs(signals@);
    let mut score: u16 = 0;
    score += (project.unhealthy as u16) * 40;
    score += (project.restarting as u16) * 35;
    score += (project.paused as u16) * 10;
    score += (count_kind_exec(signals, SignalKind::PublicListen) as u16) * 10;
    score += (count_kind_exec(signals, SignalKind::AnonymousVolume) as u16) * 8;
    score += (count_kind_exec(signals, SignalKind::PublicBind) as u16) * 8;
    score += (count_kind_exec(signals, SignalKind::ImageBloat) as u16) * 6;
    score += (count_kind_exec(signals, SignalKind::PortConflict) as u16) * 15;
    score += (count_kind_exec(signals, SignalKind::SharedVolume) as u16) * 12;
    score += (count_kind_exec(signals, SignalKind::StaleStopped) as u16) * 10;
    score += (count_kind_exec(signals, SignalKind::Security) as u16) * 12;
    if score < 100 {
        score
    } else {
        100
    }
}

/// Some signal has the given kind.
pub open spec fn any_kind(sg: Seq<Seq<char>>, kind: SignalKind) -> bool {
    exists|i: int| 0 <= i < sg.len() && signal_is(kind, #[trigger] sg[i])
}

/// The next command for a project: rescue when it has unhealthy or
/// restarting containers, a safe prune when it has long-stopped containers,
/// an inspection when it shares volumes, a remove plan when it is inactive,
/// an inspection otherwise.
pub open spec fn suggested_spec(p: ProjectView, sg: Seq<Seq<char>>) -> Seq<char> {
    if p.unhealthy > 0 || p.restarting > 0 {
        "hugdocker rescue "@ + p.name + " --dry-run"@
    } else if any_kind(sg, SignalKind::StaleStopped) {
        "hugdocker safe-prune --dry-run"@
    } else if any_kind(sg, SignalKind::SharedVolume) {
        "hugdocker inspect "@ + p.name
    } else if sg.contains("inactive"@) {
        "hugdocker plan remove "@ + p.name
    } else {
        "hugdocker inspect "@ + p.name
    }
}

fn any_kind_exec(signals: &Vec<String>, kind: SignalKind) -> (r: bool)
    ensures
        r == any_kind(strs(signals@), kind),
{
    let mut i: usize = 0;
    while i < signals.len()
        invariant
            i <= signals.len(),
            forall|k: int| 0 <= k < i ==> !signal_is(kind, #[trigger] strs(signals@)[k]),
        decreases signals.len() - i,
    {
        let v = chars_of(signals[i].as_str());
        if signal_is_exec(kind, &v) {
            assert(signal_is(kind, strs(signals@)[i as int]));
            return true;
        }
        i += 1;
    }
    false
}

pub fn suggested_command(project: &Project, signals: &Vec<String>) -> (r: String)
    ensures
        r@ == suggested_spec(project@, strs(signals@)),
{
    if project.unhealthy > 0 || project.restarting > 0 {
        let mut s = owned("hugdocker rescue ");
        push_str(&mut s, project.name.as_str());
        push_str(&mut s, " --dry-run");
        return s;
    }
    if any_kind_exec(signals, SignalKind::StaleStopped) {
        return owned("hugdocker safe-prune --dry-run");
    }
    if any_kind_exec(signals, SignalKind::SharedVolume) {
        let mut s = owned("hugdocker inspect ");
        push_str(&mut s, project.name.as_str());
        return s;
    }
    let inactive = owned("inactive");
    if set_contains(signals, &inactive) {
        let mut s = owned("hugdocker plan remove ");
        push_str(&mut s, project.name.as_str());
        return s;
    }
    let mut s = owned("hugdocker inspect ");
    push_str(&mut s, project.name.as_str());
    s
}


/// How many containers stopped a day or more ago.
pub open spec fn stale_count(cs: Seq<ContainerView>) -> nat
    decreases cs.len(),
{
    if cs.len() == 0 {
        0
    } else {
        stale_count(cs.drop_last()) + if stale_spec(cs.last().state, cs.last().status) {
            1nat
        } else {
            0nat
        }
    }
}

pub open spec fn flag(b: bool, s: Seq<char>) -> Set<Seq<char>> {
    if b {
        Set::empty().insert(s)
    } else {
        Set::empty()
    }
}

/// `security:<risk>` for every security risk of every container.
pub open spec fn security_signals(p: ProjectView) -> Set<Seq<char>> {
    Set::new(
        |s: Seq<char>|
            exists|ci: int, ri: int|
                0 <= ci < p.containers.len() && 0 <= ri < risks_spec(p.containers[ci]).len() && s
                    == "security:"@ + #[trigger] risks_spec(p.containers[ci])[ri],
    )
}

/// `port_conflict:<port>` for every host port that the named project and
/// another project publish.
pub open spec fn conflict_signals(ps: Seq<ProjectView>, name: Seq<char>) -> Set<Seq<char>> {
    Set::new(
        |s: Seq<char>|
            exists|k: Seq<char>|
                s == "port_conflict:"@ + k && #[trigger] port_owners(ps, k).contains(name)
                    && port_owners(ps, k).len() > 1,
    )
}

/// `shared_volume:<volume>` for every volume that the named project and
/// another project mount.
pub open spec fn shared_signals(ps: Seq<ProjectView>, name: Seq<char>) -> Set<Seq<char>> {
    Set::new(
        |s: Seq<char>|
            exists|v: Seq<char>|
                s == "shared_volume:"@ + v && #[trigger] volume_owners(ps, v).contains(name)
                    && volume_owners(ps, v).len() > 1,
    )
}

/// Some mapping of the project is published on all host addresses.
pub open spec fn any_public(p: ProjectView) -> bool {
    exists|j: int| 0 <= j < p.ports.len() && public_port(#[trigger] p.ports[j])
}

/// Everything that the fingerprint of project `i` rests on: the doctor's
/// findings for its name, and the signals `inactive`, `public_bind`,
/// `image_bloat`, `security:*`, `stale_stopped:<n>`, `port_conflict:*` and
/// `shared_volume:*`.
pub open spec fn signal_set(ps: Seq<ProjectView>, i: int) -> Set<Seq<char>> {
    let p = ps[i];
    findings_spec(ps[find_project_spec(ps, p.name)]).to_set() + flag(
        crate::domain::active_spec(p) == 0,
        "inactive"@,
    ) + flag(any_public(p), "public_bind"@) + flag(p.images.len() >= 5, "image_bloat"@)
        + security_signals(p) + flag(
        stale_count(p.containers) > 0,
        "stale_stopped:"@ + decimal(stale_count(p.containers)),
    ) + conflict_signals(ps, p.name) + shared_signals(ps, p.name)
}

pub open spec fn find_project_spec(ps: Seq<ProjectView>, name: Seq<char>) -> int {
    crate::domain::find_project(ps, name, 0)
}

/// The signals of project `i`, sorted, without duplicates.
pub open spec fn signals_spec(ps: Seq<ProjectView>, i: int) -> Seq<Seq<char>> {
    crate::sorted::sorted_of(signal_set(ps, i))
}

/// The contents of a fingerprint.
pub struct FingerprintView {
    pub project: Seq<char>,
    pub risk_score: int,
    pub signals: Seq<Seq<char>>,
    pub suggested_command: Seq<char>,
}

impl View for ProjectFingerprint {
    type V = FingerprintView;

    open spec fn view(&self) -> FingerprintView {
        FingerprintView {
            project: self.project@,
            risk_score: self.risk_score as int,
            signals: strs(self.signals@),
            suggested_command: self.suggested_command@,
        }
    }
}

/// The fingerprint of project `i`.
pub open spec fn fingerprint_spec(ps: Seq<ProjectView>, i: int) -> FingerprintView {
    FingerprintView {
        project: ps[i].name,
        risk_score: risk_spec(ps[i], signals_spec(ps, i)),
        signals: signals_spec(ps, i),
        suggested_command: suggested_spec(ps[i], signals_spec(ps, i)),
    }
}

/// The risk sums of every project fit in a `u16`.
pub open spec fn scores_fit(ps: Seq<ProjectView>) -> bool {
    forall|i: int| 0 <= i < ps.len() ==> risk_raw(#[trigger] ps[i], signals_spec(ps, i)) <= u16::MAX
}

fn insert_text(sig: &mut Vec<String>, s: String)
    requires
        strictly_sorted(strs(old(sig)@)),
    ensures
        strictly_sorted(strs(final(sig)@)),
        strs(final(sig)@).to_set() == strs(old(sig)@).to_set() + Set::empty().insert(s@),
{
    let ghost s0 = strs(sig@).to_set();
    set_insert(sig, s);
    assert(strs(sig@).to_set() =~= s0 + Set::empty().insert(s@));
}

fn add_security(sig: &mut Vec<String>, p: &Project)
    requires
        strictly_sorted(strs(old(sig)@)),
    ensures
        strictly_sorted(strs(final(sig)@)),
        strs(final(sig)@).to_set() == strs(old(sig)@).to_set() + security_signals(p@),
{
    let ghost s0 = strs(sig@).to_set();
    let ghost pv = p@;
    let mut ci: usize = 0;
    assert(s0 + Set::empty() =~= s0);
    while ci < p.containers.len()
        invariant
            ci <= p.containers.len(),
            pv == p@,
            strictly_sorted(strs(sig@)),
            strs(sig@).to_set() == s0 + Set::new(
                |s: Seq<char>|
                    exists|c: int, r: int|
                        0 <= c < ci && 0 <= r < risks_spec(pv.containers[c]).len() && s
                            == "security:"@ + #[trigger] risks_spec(pv.containers[c])[r],
            ),
        decreases p.containers.len() - ci,
    {
        let risks = container_security_risks(&p.containers[ci]);
        assert(pv.containers[ci as int] == p.containers@[ci as int]@);
        let ghost mid = strs(sig@).to_set();
        let mut ri: usize = 0;
        while ri < risks.len()
            invariant
                ri <= risks.len(),
                ci < p.containers.len(),
                pv == p@,
                strs(risks@) == risks_spec(pv.containers[ci as int]),
                strictly_sorted(strs(sig@)),
                strs(sig@).to_set() == mid + Set::new(
                    |s: Seq<char>|
                        exists|r: int|
                            0 <= r < ri && s == "security:"@ + #[trigger] risks_spec(
                                pv.containers[ci as int],
                            )[r],
                ),
            decreases risks.len() - ri,
        {
            let mut t = owned("security:");
            push_str(&mut t, risks[ri].as_str());
            let ghost tv = t@;
            let ghost before = strs(sig@).to_set();
            set_insert(sig, t);
            proof {
                assert(tv == "security:"@ + risks_spec(pv.containers[ci as int])[ri as int]);
                assert(strs(sig@).to_set() =~= mid + Set::new(
                    |s: Seq<char>|
                        exists|r: int|
                            0 <= r < ri + 1 && s == "security:"@ + #[trigger] risks_spec(
                                pv.containers[ci as int],
                            )[r],
                ));
            }
            ri += 1;
        }
        proof {
            assert(strs(sig@).to_set() =~= s0 + Set::new(
                |s: Seq<char>|
                    exists|c: int, r: int|
                        0 <= c < ci + 1 && 0 <= r < risks_spec(pv.containers[c]).len() && s
                            == "security:"@ + #[trigger] risks_spec(pv.containers[c])[r],
            ));
        }
        ci += 1;
    }
    assert(strs(sig@).to_set() =~= s0 + security_signals(pv));
}

fn stale_count_exec(p: &Project) -> (r: usize)
    ensures
        r == stale_count(p@.containers),
{
    let ghost cs = p@.containers;
    let mut n: usize = 0;
    let mut i: usize = 0;
    assert(cs.take(0) =~= Seq::<ContainerView>::empty());
    while i < p.containers.len()
        invariant
            i <= p.containers.len(),
            cs == p@.containers,
            n == stale_count(cs.take(i as int)),
            n <= i,
        decreases p.containers.len() - i,
    {
        let ghost t1 = cs.take(i + 1);
        assert(t1.drop_last() =~= cs.take(i as int));
        assert(t1.last() == p.containers@[i as int]@);
        if looks_stale_stopped(p.containers[i].state, p.containers[i].status.as_str()) {
            n += 1;
        }
        i += 1;
    }
    assert(cs.take(i as int) =~= cs);
    n
}

/// The sorted names of the projects mounting volume `v`.
fn volume_owners_exec(ps: &Vec<Project>, v: &String) -> (r: Vec<String>)
    ensures
        crate::sorted::is_sorted_set_of(strs(r@), volume_owners(crate::domain::pviews(ps@), v@)),
{
    let ghost pv = crate::domain::pviews(ps@);
    let mut r: Vec<String> = Vec::new();
    let mut i: usize = 0;
    assert(strs(r@).to_set() =~= Set::empty());
    while i < ps.len()
        invariant
            i <= ps.len(),
            pv == crate::domain::pviews(ps@),
            strictly_sorted(strs(r@)),
            strs(r@).to_set() == Set::new(
                |n: Seq<char>|
                    exists|t: int|
                        0 <= t < i && (#[trigger] pv[t]).name == n && pv[t].volumes.contains(v@),
            ),
        decreases ps.len() - i,
    {
        assert(pv[i as int] == ps@[i as int]@);
        if set_contains(&ps[i].volumes, v) {
            set_insert(&mut r, ps[i].name.clone());
        }
        proof {
            assert(strs(r@).to_set() =~= Set::new(
                |n: Seq<char>|
                    exists|t: int|
                        0 <= t < i + 1 && (#[trigger] pv[t]).name == n && pv[t].volumes.contains(v@),
            ));
        }
        i += 1;
    }
    assert(strs(r@).to_set() =~= volume_owners(pv, v@));
    r
}

fn add_conflicts(sig: &mut Vec<String>, ps: &Vec<Project>, name: &String, keys: &Vec<String>)
    requires
        strictly_sorted(strs(old(sig)@)),
        strs(keys@).to_set() == port_keys(crate::domain::pviews(ps@)),
    ensures
        strictly_sorted(strs(final(sig)@)),
        strs(final(sig)@).to_set() == strs(old(sig)@).to_set() + conflict_signals(
            crate::domain::pviews(ps@),
            name@,
        ),
{
    let ghost pv = crate::domain::pviews(ps@);
    let ghost ks = strs(keys@);
    let ghost s0 = strs(sig@).to_set();
    let mut i: usize = 0;
    assert(s0 + Set::empty() =~= s0);
    while i < keys.len()
        invariant
            i <= keys.len(),
            pv == crate::domain::pviews(ps@),
            ks == strs(keys@),
            strictly_sorted(strs(sig@)),
            strs(sig@).to_set() == s0 + Set::new(
                |s: Seq<char>|
                    exists|t: int|
                        0 <= t < i && s == "port_conflict:"@ + ks[t] && #[trigger] port_owners(
                            pv,
                            ks[t],
                        ).contains(name@) && port_owners(pv, ks[t]).len() > 1,
            ),
        decreases keys.len() - i,
    {
        let owners = port_owners_exec(ps, &keys[i]);
        proof {
            crate::sorted::lemma_sorted_no_dup(strs(owners@));
            strs(owners@).unique_seq_to_set();
        }
        let ghost before = strs(sig@).to_set();
        let ghost cur = ks[i as int];
        let ghost cond = port_owners(pv, cur).contains(name@) && port_owners(pv, cur).len() > 1;
        assert(keys@[i as int]@ == cur);
        let hit = owners.len() > 1 && set_contains(&owners, name);
        proof {
            assert(strs(owners@).to_set().contains(name@) == strs(owners@).contains(name@));
            assert(hit == cond);
        }
        if hit {
            let mut t = owned("port_conflict:");
            push_str(&mut t, keys[i].as_str());
            set_insert(sig, t);
        }
        proof {
            assert forall|s: Seq<char>|
                strs(sig@).to_set().contains(s) <==> (s0 + Set::new(
                    |s: Seq<char>|
                        exists|t: int|
                            0 <= t < i + 1 && s == "port_conflict:"@ + ks[t] && #[trigger] port_owners(
                                pv,
                                ks[t],
                            ).contains(name@) && port_owners(pv, ks[t]).len() > 1,
                )).contains(s) by {
                if cond && s == "port_conflict:"@ + cur {
                    assert(strs(sig@).to_set().contains(s));
                }
                if exists|t: int|
                    0 <= t < i + 1 && s == "port_conflict:"@ + ks[t] && #[trigger] port_owners(
                        pv,
                        ks[t],
                    ).contains(name@) && port_owners(pv, ks[t]).len() > 1 {
                    let t = choose|t: int|
                        0 <= t < i + 1 && s == "port_conflict:"@ + ks[t] && #[trigger] port_owners(
                            pv,
                            ks[t],
                        ).contains(name@) && port_owners(pv, ks[t]).len() > 1;
                    if t < i {
                        assert(before.contains(s));
                    }
                }
            }
            assert(strs(sig@).to_set() =~= s0 + Set::new(
                |s: Seq<char>|
                    exists|t: int|
                        0 <= t < i + 1 && s == "port_conflict:"@ + ks[t] && #[trigger] port_owners(
                            pv,
                            ks[t],
                        ).contains(name@) && port_owners(pv, ks[t]).len() > 1,
            ));
        }
        i += 1;
    }
    proof {
        assert forall|s: Seq<char>|
            conflict_signals(pv, name@).contains(s) implies exists|t: int|
                0 <= t < ks.len() && s == "port_conflict:"@ + ks[t] && #[trigger] port_owners(
                    pv,
                    ks[t],
                ).contains(name@) && port_owners(pv, ks[t]).len() > 1 by {
            let k = choose|k: Seq<char>|
                s == "port_conflict:"@ + k && #[trigger] port_owners(pv, k).contains(name@)
                    && port_owners(pv, k).len() > 1;
            let w = choose|w: int|
                0 <= w < pv.len() && (#[trigger] pv[w]).name == name@ && has_port_key(pv[w], k);
            assert(port_keys(pv).contains(k));
            assert(ks.to_set().contains(k));
            let t = choose|t: int| 0 <= t < ks.len() && ks[t] == k;
        }
        assert(strs(sig@).to_set() =~= s0 + conflict_signals(pv, name@));
    }
}

fn add_shared(sig: &mut Vec<String>, ps: &Vec<Project>, name: &String, vols: &Vec<String>)
    requires
        strictly_sorted(strs(old(sig)@)),
        strs(vols@).to_set() == used_volumes(crate::domain::pviews(ps@)),
    ensures
        strictly_sorted(strs(final(sig)@)),
        strs(final(sig)@).to_set() == strs(old(sig)@).to_set() + shared_signals(
            crate::domain::pviews(ps@),
            name@,
        ),
{
    let ghost pv = crate::domain::pviews(ps@);
    let ghost vs = strs(vols@);
    let ghost s0 = strs(sig@).to_set();
    let mut i: usize = 0;
    assert(s0 + Set::empty() =~= s0);
    while i < vols.len()
        invariant
            i <= vols.len(),
            pv == crate::domain::pviews(ps@),
            vs == strs(vols@),
            strictly_sorted(strs(sig@)),
            strs(sig@).to_set() == s0 + Set::new(
                |s: Seq<char>|
                    exists|t: int|
                        0 <= t < i && s == "shared_volume:"@ + vs[t] && #[trigger] volume_owners(
                            pv,
                            vs[t],
                        ).contains(name@) && volume_owners(pv, vs[t]).len() > 1,
            ),
        decreases vols.len() - i,
    {
        let owners = volume_owners_exec(ps, &vols[i]);
        proof {
            crate::sorted::lemma_sorted_no_dup(strs(owners@));
            strs(owners@).unique_seq_to_set();
        }
        let ghost before = strs(sig@).to_set();
        let ghost cur = vs[i as int];
        let ghost cond = volume_owners(pv, cur).contains(name@) && volume_owners(pv, cur).len() > 1;
        assert(vols@[i as int]@ == cur);
        let hit = owners.len() > 1 && set_contains(&owners, name);
        proof {
            assert(strs(owners@).to_set().contains(name@) == strs(owners@).contains(name@));
            assert(hit == cond);
        }
        if hit {
            let mut t = owned("shared_volume:");
            push_str(&mut t, vols[i].as_str());
            set_insert(sig, t);
        }
        proof {
            assert forall|s: Seq<char>|
                strs(sig@).to_set().contains(s) <==> (s0 + Set::new(
                    |s: Seq<char>|
                        exists|t: int|
                            0 <= t < i + 1 && s == "shared_volume:"@ + vs[t] && #[trigger] volume_owners(
                                pv,
                                vs[t],
                            ).contains(name@) && volume_owners(pv, vs[t]).len() > 1,
                )).contains(s) by {
                if cond && s == "shared_volume:"@ + cur {
                    assert(strs(sig@).to_set().contains(s));
                }
                if exists|t: int|
                    0 <= t < i + 1 && s == "shared_volume:"@ + vs[t] && #[trigger] volume_owners(
                        pv,
                        vs[t],
                    ).contains(name@) && volume_owners(pv, vs[t]).len() > 1 {
                    let t = choose|t: int|
                        0 <= t < i + 1 && s == "shared_volume:"@ + vs[t] && #[trigger] volume_owners(
                            pv,
                            vs[t],
                        ).contains(name@) && volume_owners(pv, vs[t]).len() > 1;
                    if t < i {
                        assert(before.contains(s));
                    }
                }
            }
            assert(strs(sig@).to_set() =~= s0 + Set::new(
                |s: Seq<char>|
                    exists|t: int|
                        0 <= t < i + 1 && s == "shared_volume:"@ + vs[t] && #[trigger] volume_owners(
                            pv,
                            vs[t],
                        ).contains(name@) && volume_owners(pv, vs[t]).len() > 1,
            ));
        }
        i += 1;
    }
    proof {
        assert forall|s: Seq<char>|
            shared_signals(pv, name@).contains(s) implies exists|t: int|
                0 <= t < vs.len() && s == "shared_volume:"@ + vs[t] && #[trigger] volume_owners(
                    pv,
                    vs[t],
                ).contains(name@) && volume_owners(pv, vs[t]).len() > 1 by {
            let v = choose|v: Seq<char>|
                s == "shared_volume:"@ + v && #[trigger] volume_owners(pv, v).contains(name@)
                    && volume_owners(pv, v).len() > 1;
            let w = choose|w: int|
                0 <= w < pv.len() && (#[trigger] pv[w]).name == name@ && pv[w].volumes.contains(v);
            assert(used_volumes(pv).contains(v));
            assert(vs.to_set().contains(v));
            let t = choose|t: int| 0 <= t < vs.len() && vs[t] == v;
        }
        assert(strs(sig@).to_set() =~= s0 + shared_signals(pv, name@));
    }
}


fn first_with_name(ps: &Vec<Project>, name: &String) -> (r: usize)
    ensures
        r == crate::domain::find_project(crate::domain::pviews(ps@), name@, 0),
{
    let ghost pv = crate::domain::pviews(ps@);
    let mut j: usize = 0;
    while j < ps.len()
        invariant
            j <= ps.len(),
            pv == crate::domain::pviews(ps@),
            crate::domain::find_project(pv, name@, 0) == crate::domain::find_project(
                pv,
                name@,
                j as int,
            ),
        decreases ps.len() - j,
    {
        assert(pv[j as int] == ps@[j as int]@);
        if crate::text::string_eq(&ps[j].name, name) {
            return j;
        }
        j += 1;
    }
    j
}

proof fn lemma_find_project_le(ps: Seq<ProjectView>, name: Seq<char>, j: int, i: int)
    requires
        0 <= j <= i < ps.len(),
        ps[i].name == name,
    ensures
        j <= crate::domain::find_project(ps, name, j) <= i,
    decreases i - j,
{
    if ps[j].name != name {
        lemma_find_project_le(ps, name, j + 1, i);
    }
}

fn any_public_exec(p: &Project) -> (r: bool)
    ensures
        r == any_public(p@),
{
    let mut j: usize = 0;
    while j < p.ports.len()
        invariant
            j <= p.ports.len(),
            forall|t: int| 0 <= t < j ==> !public_port(#[trigger] p@.ports[t]),
        decreases p.ports.len() - j,
    {
        let v = chars_of(p.ports[j].as_str());
        assert(p@.ports[j as int] == p.ports@[j as int]@);
        if starts_with_str(&v, "0.0.0.0:") {
            return true;
        }
        j += 1;
    }
    false
}

fn signals_for(ps: &Vec<Project>, i: usize, keys: &Vec<String>, vols: &Vec<String>) -> (r: Vec<
    String,
>)
    requires
        i < ps.len(),
        crate::domain::all_counts_fit(crate::domain::pviews(ps@)),
        strs(keys@).to_set() == port_keys(crate::domain::pviews(ps@)),
        strs(vols@).to_set() == used_volumes(crate::domain::pviews(ps@)),
    ensures
        strs(r@) == signals_spec(crate::domain::pviews(ps@), i as int),
        crate::sorted::is_sorted_set_of(strs(r@), signal_set(crate::domain::pviews(ps@), i as int)),
{
    let ghost pv = crate::domain::pviews(ps@);
    let p = &ps[i];
    assert(pv[i as int] == p@);
    let j = first_with_name(ps, &p.name);
    proof {
        lemma_find_project_le(pv, p@.name, 0, i as int);
    }
    let h = analyze_project(&ps[j]);
    assert(pv[j as int] == ps@[j as int]@);
    let mut sig: Vec<String> = Vec::new();
    assert(strs(sig@).to_set() =~= Set::empty());
    crate::sorted::set_extend(&mut sig, &h.findings);
    assert(strs(sig@).to_set() =~= findings_spec(pv[find_project_spec(pv, p@.name)]).to_set());
    let ghost s1 = strs(sig@).to_set();
    if p.active() == 0 {
        insert_text(&mut sig, owned("inactive"));
    } else {
        assert(s1 + Set::empty() =~= s1);
    }
    let ghost s2 = strs(sig@).to_set();
    if any_public_exec(p) {
        insert_text(&mut sig, owned("public_bind"));
    } else {
        assert(s2 + Set::empty() =~= s2);
    }
    let ghost s3 = strs(sig@).to_set();
    if p.images.len() >= 5 {
        insert_text(&mut sig, owned("image_bloat"));
    } else {
        assert(s3 + Set::empty() =~= s3);
    }
    add_security(&mut sig, p);
    let ghost s5 = strs(sig@).to_set();
    let stale = stale_count_exec(p);
    if stale > 0 {
        let mut t = owned("stale_stopped:");
        let d = decimal_string(stale as u128);
        push_str(&mut t, d.as_str());
        insert_text(&mut sig, t);
    } else {
        assert(s5 + Set::empty() =~= s5);
    }
    add_conflicts(&mut sig, ps, &p.name, keys);
    add_shared(&mut sig, ps, &p.name, vols);
    proof {
        assert(strs(sig@).to_set() == signal_set(pv, i as int));
        crate::sorted::lemma_sorted_of(strs(sig@), signal_set(pv, i as int));
    }
    sig
}

fn fingerprint_for(ps: &Vec<Project>, i: usize, keys: &Vec<String>, vols: &Vec<String>) -> (r:
    ProjectFingerprint)
    requires
        i < ps.len(),
        crate::domain::all_counts_fit(crate::domain::pviews(ps@)),
        strs(keys@).to_set() == port_keys(crate::domain::pviews(ps@)),
        strs(vols@).to_set() == used_volumes(crate::domain::pviews(ps@)),
        risk_raw(crate::domain::pviews(ps@)[i as int], signals_spec(crate::domain::pviews(ps@), i as int))
            <= u16::MAX,
    ensures
        r@ == fingerprint_spec(crate::domain::pviews(ps@), i as int),
        crate::sorted::is_sorted_set_of(
            signals_spec(crate::domain::pviews(ps@), i as int),
            signal_set(crate::domain::pviews(ps@), i as int),
        ),
{
    let ghost pv = crate::domain::pviews(ps@);
    let p = &ps[i];
    assert(pv[i as int] == p@);
    let sig = signals_for(ps, i, keys, vols);
    let risk_score = project_risk_score(p, &sig);
    let suggested = suggested_command(p, &sig);
    ProjectFingerprint {
        project: p.name.clone(),
        risk_score,
        signals: sig,
        suggested_command: suggested,
    }
}

/// `a` sorts before `b`: higher score first, then by project name.
pub open spec fn fingerprint_before(a: FingerprintView, b: FingerprintView) -> bool {
    a.risk_score > b.risk_score || (a.risk_score == b.risk_score && crate::text::lex_lt(
        a.project,
        b.project,
    ))
}

pub open spec fn fp_insert_point(t: Seq<FingerprintView>, x: FingerprintView, j: int) -> int
    decreases t.len() - j,
{
    if j < 0 || j >= t.len() {
        t.len() as int
    } else if fingerprint_before(x, t[j]) {
        j
    } else {
        fp_insert_point(t, x, j + 1)
    }
}

/// The stable sort of fingerprints by score (highest first), then name.
pub open spec fn sorted_fingerprints(s: Seq<FingerprintView>) -> Seq<FingerprintView>
    decreases s.len(),
{
    if s.len() == 0 {
        s
    } else {
        let t = sorted_fingerprints(s.drop_last());
        t.insert(fp_insert_point(t, s.last(), 0), s.last())
    }
}

pub open spec fn fviews(s: Seq<ProjectFingerprint>) -> Seq<FingerprintView> {
    Seq::new(s.len(), |i: int| s[i]@)
}

proof fn lemma_fp_insert_point(t: Seq<FingerprintView>, x: FingerprintView, j: int)
    requires
        0 <= j <= t.len(),
    ensures
        j <= fp_insert_point(t, x, j) <= t.len(),
    decreases t.len() - j,
{
    if j < t.len() && !fingerprint_before(x, t[j]) {
        lemma_fp_insert_point(t, x, j + 1);
    }
}

fn fingerprint_before_exec(a: &ProjectFingerprint, b: &ProjectFingerprint) -> (r: bool)
    ensures
        r == fingerprint_before(a@, b@),
{
    if a.risk_score != b.risk_score {
        return a.risk_score > b.risk_score;
    }
    match crate::text::compare_strings(&a.project, &b.project) {
        crate::text::Order::Before => true,
        crate::text::Order::Same => {
            proof {
                crate::text::lemma_lex_irreflexive(a@.project);
            }
            false
        },
        crate::text::Order::After => {
            proof {
                crate::text::lemma_lex_asymmetric(b@.project, a@.project);
            }
            false
        },
    }
}

/// The host-port keys and the volumes used across all projects.
fn keys_and_volumes(snapshot: &DockerSnapshot) -> (r: (Vec<String>, Vec<String>))
    ensures
        strs(r.0@).to_set() == port_keys(snapshot@.projects),
        strs(r.1@).to_set() == used_volumes(snapshot@.projects),
{
    let ghost ps = snapshot@.projects;
    let mut keys: Vec<String> = Vec::new();
    let mut vols: Vec<String> = Vec::new();
    let mut i: usize = 0;
    assert(strs(keys@).to_set() =~= Set::empty());
    assert(strs(vols@).to_set() =~= Set::empty());
    while i < snapshot.projects.len()
        invariant
            i <= snapshot.projects.len(),
            ps == snapshot@.projects,
            strictly_sorted(strs(keys@)),
            strictly_sorted(strs(vols@)),
            strs(keys@).to_set() == Set::new(
                |k: Seq<char>| exists|t: int| 0 <= t < i && has_port_key(#[trigger] ps[t], k),
            ),
            strs(vols@).to_set() == Set::new(
                |n: Seq<char>| exists|t: int| 0 <= t < i && (#[trigger] ps[t]).volumes.contains(n),
            ),
        decreases snapshot.projects.len() - i,
    {
        let p = &snapshot.projects[i];
        assert(ps[i as int] == p@);
        let pk = project_port_keys(p);
        crate::sorted::set_extend(&mut keys, &pk);
        crate::sorted::set_extend(&mut vols, &p.volumes);
        proof {
            assert(strs(keys@).to_set() =~= Set::new(
                |k: Seq<char>| exists|t: int| 0 <= t < i + 1 && has_port_key(#[trigger] ps[t], k),
            ));
            assert(strs(vols@).to_set() =~= Set::new(
                |n: Seq<char>| exists|t: int| 0 <= t < i + 1 && (#[trigger] ps[t]).volumes.contains(n),
            ));
        }
        i += 1;
    }
    assert(strs(keys@).to_set() =~= port_keys(ps));
    assert(strs(vols@).to_set() =~= used_volumes(ps));
    (keys, vols)
}

/// The risk fingerprint of every project, highest score first (then by
/// name).
#[verifier::rlimit(40)]
pub fn project_fingerprints(snapshot: &DockerSnapshot) -> (r: Vec<ProjectFingerprint>)
    requires
        crate::domain::all_counts_fit(snapshot@.projects),
        scores_fit(snapshot@.projects),
    ensures
        fviews(r@) == sorted_fingerprints(
            Seq::new(
                snapshot@.projects.len(),
                |i: int| fingerprint_spec(snapshot@.projects, i),
            ),
        ),
        forall|k: int|
            0 <= k < r@.len() ==> exists|i: int|
                0 <= i < snapshot@.projects.len() && (#[trigger] fviews(r@)[k]) == fingerprint_spec(
                    snapshot@.projects,
                    i,
                ) && crate::sorted::is_sorted_set_of(
                    fviews(r@)[k].signals,
                    signal_set(snapshot@.projects, i),
                ),
{
    let ghost ps = snapshot@.projects;
    let ghost all = Seq::new(ps.len(), |i: int| fingerprint_spec(ps, i));
    let (keys, vols) = keys_and_volumes(snapshot);
    let mut out: Vec<ProjectFingerprint> = Vec::new();
    let mut k: usize = 0;
    assert(all.take(0) =~= Seq::<FingerprintView>::empty());
    assert(fviews(out@) =~= sorted_fingerprints(all.take(0)));
    while k < snapshot.projects.len()
        invariant
            k <= snapshot.projects.len(),
            ps == snapshot@.projects,
            all == Seq::new(ps.len(), |i: int| fingerprint_spec(ps, i)),
            crate::domain::all_counts_fit(ps),
            scores_fit(ps),
            strs(keys@).to_set() == port_keys(ps),
            strs(vols@).to_set() == used_volumes(ps),
            fviews(out@) == sorted_fingerprints(all.take(k as int)),
            forall|t: int|
                0 <= t < k ==> crate::sorted::is_sorted_set_of(
                    #[trigger] signals_spec(ps, t),
                    signal_set(ps, t),
                ),
        decreases snapshot.projects.len() - k,
    {
        let x = fingerprint_for(&snapshot.projects, k, &keys, &vols);
        let ghost t = fviews(out@);
        let mut j: usize = 0;
        proof {
            lemma_fp_insert_point(t, x@, 0);
        }
        while j < out.len() && !fingerprint_before_exec(&x, &out[j])
            invariant
                j <= out.len(),
                t == fviews(out@),
                fp_insert_point(t, x@, 0) == fp_insert_point(t, x@, j as int),
            decreases out.len() - j,
        {
            j += 1;
        }
        let ghost xv = x@;
        out.insert(j, x);
        proof {
            let a1 = all.take(k + 1);
            assert(a1.drop_last() =~= all.take(k as int));
            assert(a1.last() == xv);
            assert(fviews(out@) =~= t.insert(j as int, xv));
        }
        k += 1;
    }
    assert(all.take(k as int) =~= all);
    proof {
        broadcast use vstd::seq_lib::to_multiset_contains;

        crate::laws::law_fingerprints_are_an_ordered_permutation(ps);
        assert(all == crate::laws::all_fingerprints(ps));
        assert forall|k: int| 0 <= k < out@.len() implies exists|i: int|
            0 <= i < ps.len() && (#[trigger] fviews(out@)[k]) == fingerprint_spec(ps, i)
                && crate::sorted::is_sorted_set_of(fviews(out@)[k].signals, signal_set(ps, i)) by {
            let f = fviews(out@)[k];
            assert(fviews(out@).contains(f));
            assert(fviews(out@).to_multiset().count(f) > 0);
            assert(all.contains(f));
            let i = choose|i: int| 0 <= i < all.len() && all[i] == f;
            assert(signals_spec(ps, i) == f.signals);
        }
    }
    out
}


fn raw_score(project: &Project, signals: &Vec<String>) -> (r: u64)
    ensures
        r == risk_raw(project@, strs(signals@)),
{
    let a = (project.unhealthy as u16) as u64 * 40 + (project.restarting as u16) as u64 * 35
        + (project.paused as u16) as u64 * 10;
    let b = (count_kind_exec(signals, SignalKind::PublicListen) as u16) as u64 * 10 + (
    count_kind_exec(signals, SignalKind::AnonymousVolume) as u16) as u64 * 8 + (count_kind_exec(
        signals,
        SignalKind::PublicBind,
    ) as u16) as u64 * 8 + (count_kind_exec(signals, SignalKind::ImageBloat) as u16) as u64 * 6;
    let c = (count_kind_exec(signals, SignalKind::PortConflict) as u16) as u64 * 15 + (
    count_kind_exec(signals, SignalKind::SharedVolume) as u16) as u64 * 12 + (count_kind_exec(
        signals,
        SignalKind::StaleStopped,
    ) as u16) as u64 * 10 + (count_kind_exec(signals, SignalKind::Security) as u16) as u64 * 12;
    a + b + c
}

/// Every project's weighted risk sum fits in a `u16`, so that its
/// fingerprint can be computed (`scores_fit`).
pub fn fingerprints_fit(snapshot: &DockerSnapshot) -> (r: bool)
    requires
        crate::domain::all_counts_fit(snapshot@.projects),
    ensures
        r == scores_fit(snapshot@.projects),
{
    let ghost ps = snapshot@.projects;
    let (keys, vols) = keys_and_volumes(snapshot);
    let mut i: usize = 0;
    while i < snapshot.projects.len()
        invariant
            i <= snapshot.projects.len(),
            ps == snapshot@.projects,
            crate::domain::all_counts_fit(ps),
            strs(keys@).to_set() == port_keys(ps),
            strs(vols@).to_set() == used_volumes(ps),
            forall|t: int| 0 <= t < i ==> risk_raw(#[trigger] ps[t], signals_spec(ps, t)) <= u16::MAX,
        decreases snapshot.projects.len() - i,
    {
        let sig = signals_for(&snapshot.projects, i, &keys, &vols);
        let raw = raw_score(&snapshot.projects[i], &sig);
        assert(ps[i as int] == snapshot.projects@[i as int]@);
        if raw > 65535 {
            return false;
        }
        i += 1;
    }
    true
}


/// The health report: whether the engine's command line and daemon answer,
/// and the diagnosis, global findings and fingerprints of the snapshot.
pub fn health_report(docker_cli: bool, docker_daemon: bool, snapshot: &DockerSnapshot) -> (r:
    HealthReport)
    requires
        crate::domain::all_counts_fit(snapshot@.projects),
        scores_fit(snapshot@.projects),
    ensures
        r.docker_cli == docker_cli,
        r.docker_daemon == docker_daemon,
        r.projects@.len() == snapshot@.projects.len(),
        forall|i: int|
            0 <= i < r.projects@.len() ==> {
                let p = snapshot@.projects[i];
                &&& (#[trigger] r.projects@[i]).project@ == p.name
                &&& strs(r.projects@[i].findings@) == findings_spec(p)
                &&& r.projects@[i].status == status_spec(p, findings_spec(p))
            },
        strs(r.findings@) == global_spec(snapshot@),
        fviews(r.fingerprints@) == sorted_fingerprints(
            Seq::new(
                snapshot@.projects.len(),
                |i: int| fingerprint_spec(snapshot@.projects, i),
            ),
        ),
{
    HealthReport {
        docker_cli,
        docker_daemon,
        projects: analyze_snapshot(snapshot),
        findings: global_findings(snapshot),
        fingerprints: project_fingerprints(snapshot),
    }
}

} // verus!

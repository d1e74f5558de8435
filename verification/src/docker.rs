//! The decisions around the Docker engine: which engine calls an operation
//! plan makes and in what order, how each reply is recorded, how listing and
//! inspection replies become a `Container`, and how log lines are coloured.
//! The engine calls themselves are made by the application, step by step.
use vstd::prelude::*;
use crate::domain::{Container, ContainerState, OperationAction, docker_state_spec};
use crate::ops::{OperationPlan, OperationResult, OperationFailure};
use crate::sorted::{strs, pairs, keys, pair_get, strictly_sorted, is_sorted_set_of, unique_sorted, put_pair, lookup_str};
use crate::text::{
    has_infix, lower_seq, lower_of, contains_str, chars_of, string_of, owned, push_str,
    decimal, decimal_string, join_with, join_strings_with, trim_start_char, trim_start_char_exec,
    eq_str, extend_str,
};
use crate::domain::labels_from_pairs;

verus! {

// ---------------------------------------------------------------------------
// Log colouring
// ---------------------------------------------------------------------------

/// A log line that reports an error: it mentions `error`, `panic` or `fatal`
/// in any ASCII case.
pub open spec fn is_error_line(line: Seq<char>) -> bool {
    has_infix(lower_seq(line), "error"@) || has_infix(lower_seq(line), "panic"@) || has_infix(
        lower_seq(line),
        "fatal"@,
    )
}

/// Error lines in red, other lines that mention `warn` in yellow, the rest
/// unchanged (ANSI colour escapes).
pub open spec fn highlight_spec(line: Seq<char>) -> Seq<char> {
    if is_error_line(line) {
        "\x1b[31m"@ + line + "\x1b[0m"@
    } else if has_infix(lower_seq(line), "warn"@) {
        "\x1b[33m"@ + line + "\x1b[0m"@
    } else {
        line
    }
}

/// A log line with its severity colour.
pub fn highlight_log_line(line: &str) -> (r: String)
    ensures
        r@ == highlight_spec(line@),
{
    let lower = lower_of(line);
    if contains_str(&lower, "error") || contains_str(&lower, "panic") || contains_str(
        &lower,
        "fatal",
    ) {
        let mut s = owned("\x1b[31m");
        push_str(&mut s, line);
        push_str(&mut s, "\x1b[0m");
        s
    } else if contains_str(&lower, "warn") {
        let mut s = owned("\x1b[33m");
        push_str(&mut s, line);
        push_str(&mut s, "\x1b[0m");
        s
    } else {
        owned(line)
    }
}

// ---------------------------------------------------------------------------
// Executing a plan: the engine calls, and the record of their replies
// ---------------------------------------------------------------------------

/// One engine call made while executing a plan.
#[derive(Debug, Clone, PartialEq, Eq)]
pub enum DockerStep {
    StartContainer(String),
    StopContainer(String),
    RestartContainer(String),
    RemoveContainer(String),
    RemoveVolume(String),
    RemoveImage(String),
    PruneContainers,
    PruneNetworks,
    PruneDanglingImages,
}

/// An engine call, its target as characters.
pub enum StepView {
    StartContainer(Seq<char>),
    StopContainer(Seq<char>),
    RestartContainer(Seq<char>),
    RemoveContainer(Seq<char>),
    RemoveVolume(Seq<char>),
    RemoveImage(Seq<char>),
    PruneContainers,
    PruneNetworks,
    PruneDanglingImages,
}

impl View for DockerStep {
    type V = StepView;

    open spec fn view(&self) -> StepView {
        match self {
            DockerStep::StartContainer(t) => StepView::StartContainer(t@),
            DockerStep::StopContainer(t) => StepView::StopContainer(t@),
            DockerStep::RestartContainer(t) => StepView::RestartContainer(t@),
            DockerStep::RemoveContainer(t) => StepView::RemoveContainer(t@),
            DockerStep::RemoveVolume(t) => StepView::RemoveVolume(t@),
            DockerStep::RemoveImage(t) => StepView::RemoveImage(t@),
            DockerStep::PruneContainers => StepView::PruneContainers,
            DockerStep::PruneNetworks => StepView::PruneNetworks,
            DockerStep::PruneDanglingImages => StepView::PruneDanglingImages,
        }
    }
}

pub open spec fn step_views(s: Seq<DockerStep>) -> Seq<StepView> {
    Seq::new(s.len(), |i: int| s[i]@)
}

/// The calls on each target of a list, one per target, in order.
#[derive(Clone, Copy)]
enum TargetCall {
    Start,
    Stop,
    Restart,
    RemoveContainer,
    RemoveVolume,
    RemoveImage,
}

spec fn target_step(call: TargetCall, t: Seq<char>) -> StepView {
    match call {
        TargetCall::Start => StepView::StartContainer(t),
        TargetCall::Stop => StepView::StopContainer(t),
        TargetCall::Restart => StepView::RestartContainer(t),
        TargetCall::RemoveContainer => StepView::RemoveContainer(t),
        TargetCall::RemoveVolume => StepView::RemoveVolume(t),
        TargetCall::RemoveImage => StepView::RemoveImage(t),
    }
}

pub open spec fn starts(ts: Seq<Seq<char>>) -> Seq<StepView> {
    ts.map_values(|t: Seq<char>| StepView::StartContainer(t))
}

pub open spec fn stops(ts: Seq<Seq<char>>) -> Seq<StepView> {
    ts.map_values(|t: Seq<char>| StepView::StopContainer(t))
}

pub open spec fn restarts(ts: Seq<Seq<char>>) -> Seq<StepView> {
    ts.map_values(|t: Seq<char>| StepView::RestartContainer(t))
}

pub open spec fn container_removals(ts: Seq<Seq<char>>) -> Seq<StepView> {
    ts.map_values(|t: Seq<char>| StepView::RemoveContainer(t))
}

pub open spec fn volume_removals(ts: Seq<Seq<char>>) -> Seq<StepView> {
    ts.map_values(|t: Seq<char>| StepView::RemoveVolume(t))
}

pub open spec fn image_removals(ts: Seq<Seq<char>>) -> Seq<StepView> {
    ts.map_values(|t: Seq<char>| StepView::RemoveImage(t))
}

spec fn calls_on(call: TargetCall, ts: Seq<Seq<char>>) -> Seq<StepView> {
    ts.map_values(|t: Seq<char>| target_step(call, t))
}

proof fn lemma_calls_on(call: TargetCall, ts: Seq<Seq<char>>)
    ensures
        calls_on(call, ts) == match call {
            TargetCall::Start => starts(ts),
            TargetCall::Stop => stops(ts),
            TargetCall::Restart => restarts(ts),
            TargetCall::RemoveContainer => container_removals(ts),
            TargetCall::RemoveVolume => volume_removals(ts),
            TargetCall::RemoveImage => image_removals(ts),
        },
{
    match call {
        TargetCall::Start => assert(calls_on(call, ts) =~= starts(ts)),
        TargetCall::Stop => assert(calls_on(call, ts) =~= stops(ts)),
        TargetCall::Restart => assert(calls_on(call, ts) =~= restarts(ts)),
        TargetCall::RemoveContainer => assert(calls_on(call, ts) =~= container_removals(ts)),
        TargetCall::RemoveVolume => assert(calls_on(call, ts) =~= volume_removals(ts)),
        TargetCall::RemoveImage => assert(calls_on(call, ts) =~= image_removals(ts)),
    }
}

/// The engine calls that executing a plan makes, in order: none for a dry
/// run; otherwise one call per planned container (start, stop or restart;
/// removal for remove and purge), then for a purge one removal per planned
/// volume and per planned image; a prune makes the three prune calls
/// (stopped containers, unused networks, dangling images).
pub open spec fn execution_steps_spec(
    action: OperationAction,
    dry_run: bool,
    containers: Seq<Seq<char>>,
    volumes: Seq<Seq<char>>,
    images: Seq<Seq<char>>,
) -> Seq<StepView> {
    if dry_run {
        Seq::empty()
    } else {
        match action {
            OperationAction::Start => starts(containers),
            OperationAction::Stop => stops(containers),
            OperationAction::Restart | OperationAction::Rescue => restarts(containers),
            OperationAction::Remove => container_removals(containers),
            OperationAction::Purge => container_removals(containers) + volume_removals(volumes)
                + image_removals(images),
            OperationAction::Prune => seq![
                StepView::PruneContainers,
                StepView::PruneNetworks,
                StepView::PruneDanglingImages,
            ],
        }
    }
}

fn push_calls(out: &mut Vec<DockerStep>, targets: &Vec<String>, call: TargetCall)
    ensures
        step_views(final(out)@) == step_views(old(out)@) + match call {
            TargetCall::Start => starts(strs(targets@)),
            TargetCall::Stop => stops(strs(targets@)),
            TargetCall::Restart => restarts(strs(targets@)),
            TargetCall::RemoveContainer => container_removals(strs(targets@)),
            TargetCall::RemoveVolume => volume_removals(strs(targets@)),
            TargetCall::RemoveImage => image_removals(strs(targets@)),
        },
{
    let ghost o0 = step_views(out@);
    let mut i: usize = 0;
    while i < targets.len()
        invariant
            i <= targets.len(),
            step_views(out@) == o0 + calls_on(call, strs(targets@).take(i as int)),
        decreases targets.len() - i,
    {
        let t = targets[i].clone();
        let step = match call {
            TargetCall::Start => DockerStep::StartContainer(t),
            TargetCall::Stop => DockerStep::StopContainer(t),
            TargetCall::Restart => DockerStep::RestartContainer(t),
            TargetCall::RemoveContainer => DockerStep::RemoveContainer(t),
            TargetCall::RemoveVolume => DockerStep::RemoveVolume(t),
            TargetCall::RemoveImage => DockerStep::RemoveImage(t),
        };
        assert(step@ == target_step(call, targets@[i as int]@));
        assert(strs(targets@).take(i + 1) =~= strs(targets@).take(i as int).push(
            targets@[i as int]@,
        ));
        let ghost before = out@;
        out.push(step);
        proof {
            let nt = strs(targets@).take(i + 1);
            let lhs = step_views(out@);
            let rhs = o0 + calls_on(call, nt);
            assert(calls_on(call, nt).len() == nt.len());
            assert(step_views(before).len() == before.len());
            assert(calls_on(call, strs(targets@).take(i as int)).len() == i);
            assert(before.len() == o0.len() + i);
            assert(lhs.len() == rhs.len());
            assert forall|k: int| 0 <= k < lhs.len() implies lhs[k] == rhs[k] by {
                if k < before.len() {
                    assert(out@[k] == before[k]);
                    assert(step_views(before)[k] == lhs[k]);
                } else {
                    assert(calls_on(call, nt)[k - o0.len()] == target_step(call, nt[k - o0.len()]));
                }
            }
            assert(lhs =~= rhs);
        }
        i += 1;
    }
    assert(strs(targets@).take(i as int) =~= strs(targets@));
    proof {
        lemma_calls_on(call, strs(targets@));
    }
}

/// The engine calls to make for a plan (see `execution_steps_spec`).
pub fn execution_steps(plan: &OperationPlan, dry_run: bool) -> (r: Vec<DockerStep>)
    ensures
        step_views(r@) == execution_steps_spec(
            plan.action,
            dry_run,
            strs(plan.containers@),
            strs(plan.volumes@),
            strs(plan.images@),
        ),
{
    let mut out: Vec<DockerStep> = Vec::new();
    assert(step_views(out@) =~= Seq::<StepView>::empty());
    if dry_run {
        return out;
    }
    match plan.action {
        OperationAction::Start => push_calls(&mut out, &plan.containers, TargetCall::Start),
        OperationAction::Stop => push_calls(&mut out, &plan.containers, TargetCall::Stop),
        OperationAction::Restart | OperationAction::Rescue => push_calls(
            &mut out,
            &plan.containers,
            TargetCall::Restart,
        ),
        OperationAction::Remove => push_calls(
            &mut out,
            &plan.containers,
            TargetCall::RemoveContainer,
        ),
        OperationAction::Purge => {
            push_calls(&mut out, &plan.containers, TargetCall::RemoveContainer);
            push_calls(&mut out, &plan.volumes, TargetCall::RemoveVolume);
            push_calls(&mut out, &plan.images, TargetCall::RemoveImage);
        },
        OperationAction::Prune => {
            out.push(DockerStep::PruneContainers);
            out.push(DockerStep::PruneNetworks);
            out.push(DockerStep::PruneDanglingImages);
        },
    }
    assert(step_views(out@) =~= execution_steps_spec(
        plan.action,
        dry_run,
        strs(plan.containers@),
        strs(plan.volumes@),
        strs(plan.images@),
    ));
    out
}

/// The target and message of each failure.
pub open spec fn failure_views(s: Seq<OperationFailure>) -> Seq<(Seq<char>, Seq<char>)> {
    Seq::new(s.len(), |i: int| (s[i].target@, s[i].message@))
}

/// The result of an operation before any engine call: nothing done, nothing
/// failed.
pub fn empty_result(action: OperationAction) -> (r: OperationResult)
    ensures
        r.action == action,
        r.success@.len() == 0,
        r.failed@.len() == 0,
{
    OperationResult { action, success: Vec::new(), failed: Vec::new() }
}

/// Records the reply to a call on one target: the target joins the
/// successes, or the failures with the engine's message.
pub fn collect_result(target: &str, outcome: Result<(), String>, result: &mut OperationResult)
    ensures
        final(result).action == old(result).action,
        match outcome {
            Ok(_) => strs(final(result).success@) == strs(old(result).success@).push(target@)
                && failure_views(final(result).failed@) == failure_views(old(result).failed@),
            Err(m) => strs(final(result).success@) == strs(old(result).success@)
                && failure_views(final(result).failed@) == failure_views(
                old(result).failed@,
            ).push((target@, m@)),
        },
{
    let ghost s0 = strs(result.success@);
    let ghost f0 = failure_views(result.failed@);
    match outcome {
        Ok(_) => {
            result.success.push(owned(target));
            assert(strs(result.success@) =~= s0.push(target@));
            assert(failure_views(result.failed@) =~= f0);
        },
        Err(m) => {
            result.failed.push(OperationFailure { target: owned(target), message: m });
            assert(strs(result.success@) =~= s0);
            assert(failure_views(result.failed@) =~= f0.push((target@, m@)));
        },
    }
}

/// `prefix:id` for each id.
pub open spec fn tagged(prefix: Seq<char>, ids: Seq<Seq<char>>) -> Seq<Seq<char>> {
    ids.map_values(|id: Seq<char>| prefix + ":"@ + id)
}

/// Records the reply to a prune call: each removed object joins the
/// successes as `prefix:id`, or the call fails as a whole under `target`.
pub fn collect_pruned(
    prefix: &str,
    target: &str,
    outcome: Result<Vec<String>, String>,
    result: &mut OperationResult,
)
    ensures
        final(result).action == old(result).action,
        match outcome {
            Ok(ids) => strs(final(result).success@) == strs(old(result).success@) + tagged(
                prefix@,
                strs(ids@),
            ) && failure_views(final(result).failed@) == failure_views(old(result).failed@),
            Err(m) => strs(final(result).success@) == strs(old(result).success@)
                && failure_views(final(result).failed@) == failure_views(
                old(result).failed@,
            ).push((target@, m@)),
        },
{
    let ghost s0 = strs(result.success@);
    let ghost f0 = failure_views(result.failed@);
    match outcome {
        Ok(ids) => {
            let mut i: usize = 0;
            while i < ids.len()
                invariant
                    i <= ids.len(),
                    result.action == old(result).action,
                    strs(result.success@) == s0 + tagged(prefix@, strs(ids@).take(i as int)),
                    failure_views(result.failed@) == f0,
                decreases ids.len() - i,
            {
                let mut s = owned(prefix);
                push_str(&mut s, ":");
                push_str(&mut s, ids[i].as_str());
                assert(strs(ids@).take(i + 1) =~= strs(ids@).take(i as int).push(ids@[i as int]@));
                let ghost before = result.success@;
                result.success.push(s);
                proof {
                    let nt = strs(ids@).take(i + 1);
                    let lhs = strs(result.success@);
                    let rhs = s0 + tagged(prefix@, nt);
                    assert(strs(before).len() == before.len());
                    assert(tagged(prefix@, strs(ids@).take(i as int)).len() == i);
                    assert(before.len() == s0.len() + i);
                    assert(lhs.len() == rhs.len());
                    assert forall|k: int| 0 <= k < lhs.len() implies lhs[k] == rhs[k] by {
                        if k < before.len() {
                            assert(result.success@[k] == before[k]);
                            assert(strs(before)[k] == lhs[k]);
                            if k >= s0.len() {
                                let j = k - s0.len();
                                assert(tagged(prefix@, strs(ids@).take(i as int))[j] == prefix@ + ":"@
                                    + strs(ids@).take(i as int)[j]);
                                assert(tagged(prefix@, nt)[j] == prefix@ + ":"@ + nt[j]);
                            }
                        } else {
                            assert(tagged(prefix@, nt)[k - s0.len()] == prefix@ + ":"@ + nt[k - s0.len()]);
                        }
                    }
                    assert(lhs =~= rhs);
                }
                i += 1;
            }
            assert(strs(ids@).take(i as int) =~= strs(ids@));
        },
        Err(m) => {
            result.failed.push(OperationFailure { target: owned(target), message: m });
            assert(strs(result.success@) =~= s0);
            assert(failure_views(result.failed@) =~= f0.push((target@, m@)));
        },
    }
}

/// The audit status of an executed operation: `ok` when nothing failed,
/// else `error` with the message `N 个目标失败`.
pub open spec fn audit_status_spec(failed: nat) -> (Seq<char>, Seq<char>) {
    if failed == 0 {
        ("ok"@, Seq::empty())
    } else {
        ("error"@, decimal(failed) + " 个目标失败"@)
    }
}

pub fn audit_status(result: &OperationResult) -> (r: (String, String))
    ensures
        (r.0@, r.1@) == audit_status_spec(result.failed@.len()),
{
    if result.failed.len() == 0 {
        (owned("ok"), String::new())
    } else {
        let mut m = decimal_string(result.failed.len() as u128);
        push_str(&mut m, " 个目标失败");
        (owned("error"), m)
    }
}


// ---------------------------------------------------------------------------
// From engine listings to containers
// ---------------------------------------------------------------------------

/// A published port as the container listing reports it.
#[derive(Debug, Clone, PartialEq, Eq)]
pub struct PortInfo {
    pub ip: Option<String>,
    pub private_port: u16,
    pub public_port: Option<u16>,
    pub typ: Option<String>,
}

/// A mount as container inspection reports it.
#[derive(Debug, Clone, PartialEq, Eq)]
pub struct MountInfo {
    pub kind: Option<String>,
    pub name: Option<String>,
    pub source: Option<String>,
    pub destination: Option<String>,
}

pub open spec fn unwrap_or_empty(o: Option<Seq<char>>) -> Seq<char> {
    match o {
        Some(v) => v,
        None => Seq::empty(),
    }
}

/// `ip:public->private/typ`, or `public->private/typ` without an address;
/// nothing for a port that is not published. The protocol defaults to `tcp`.
pub open spec fn port_label_spec(p: PortInfo) -> Option<Seq<char>> {
    let typ = match p.typ {
        Some(t) => t@,
        None => "tcp"@,
    };
    match p.public_port {
        Some(public) => match p.ip {
            Some(ip) => Some(ip@ + ":"@ + decimal(public as nat) + "->"@ + decimal(
                p.private_port as nat,
            ) + "/"@ + typ),
            None => Some(decimal(public as nat) + "->"@ + decimal(p.private_port as nat) + "/"@
                + typ),
        },
        None => None,
    }
}

/// The labels of the published ports, in order.
pub open spec fn port_labels_spec(ps: Seq<PortInfo>) -> Seq<Seq<char>>
    decreases ps.len(),
{
    if ps.len() == 0 {
        Seq::empty()
    } else {
        let rest = port_labels_spec(ps.drop_last());
        match port_label_spec(ps.last()) {
            Some(l) => rest.push(l),
            None => rest,
        }
    }
}

pub fn port_label(p: &PortInfo) -> (r: Option<String>)
    ensures
        match r {
            Some(x) => port_label_spec(*p) == Some(x@),
            None => port_label_spec(*p) is None,
        },
{
    match p.public_port {
        Some(public) => {
            let mut s = match &p.ip {
                Some(ip) => {
                    let mut s = ip.clone();
                    push_str(&mut s, ":");
                    s
                },
                None => String::new(),
            };
            let d = decimal_string(public as u128);
            push_str(&mut s, d.as_str());
            push_str(&mut s, "->");
            let d2 = decimal_string(p.private_port as u128);
            push_str(&mut s, d2.as_str());
            push_str(&mut s, "/");
            match &p.typ {
                Some(t) => push_str(&mut s, t.as_str()),
                None => push_str(&mut s, "tcp"),
            }
            Some(s)
        },
        None => None,
    }
}

fn port_labels(ports: &Vec<PortInfo>) -> (r: Vec<String>)
    ensures
        strs(r@) == port_labels_spec(ports@),
{
    let mut out: Vec<String> = Vec::new();
    let mut i: usize = 0;
    assert(strs(out@) =~= port_labels_spec(ports@.take(0)));
    while i < ports.len()
        invariant
            i <= ports.len(),
            strs(out@) == port_labels_spec(ports@.take(i as int)),
        decreases ports.len() - i,
    {
        assert(ports@.take(i + 1).drop_last() =~= ports@.take(i as int));
        match port_label(&ports[i]) {
            Some(l) => {
                out.push(l);
                assert(strs(out@) =~= port_labels_spec(ports@.take(i + 1)));
            },
            None => {},
        }
        i += 1;
    }
    assert(ports@.take(i as int) =~= ports@);
    out
}

pub open spec fn opt_is(o: Option<String>, lit: Seq<char>) -> bool {
    match o {
        Some(s) => s@ == lit,
        None => false,
    }
}

fn opt_is_exec(o: &Option<String>, lit: &str) -> (r: bool)
    ensures
        r == opt_is(*o, lit@),
{
    match o {
        Some(s) => crate::text::string_eq_str(s, lit),
        None => false,
    }
}

/// A path whose mounting into a container exposes the host.
pub open spec fn is_sensitive_path(o: Option<String>) -> bool {
    opt_is(o, "/etc"@) || opt_is(o, "/root"@) || opt_is(o, "/var/lib/docker"@)
}

pub open spec fn mounts_docker_sock(ms: Seq<MountInfo>) -> bool {
    exists|i: int|
        0 <= i < ms.len() && (opt_is(#[trigger] ms[i].destination, "/var/run/docker.sock"@)
            || opt_is(ms[i].source, "/var/run/docker.sock"@))
}

pub open spec fn mounts_sensitive_path(ms: Seq<MountInfo>) -> bool {
    exists|i: int|
        0 <= i < ms.len() && (is_sensitive_path(#[trigger] ms[i].destination) || is_sensitive_path(
            ms[i].source,
        ))
}

pub open spec fn when(b: bool, s: Seq<char>) -> Seq<Seq<char>> {
    if b {
        seq![s]
    } else {
        Seq::empty()
    }
}

/// The security signals of an inspected container, in this order:
/// `privileged`, `host_network` (network mode `host`), `root_user` (no user
/// set), `docker_sock` (the engine socket mounted), `sensitive_mount`
/// (`/etc`, `/root` or `/var/lib/docker` mounted).
pub open spec fn security_spec(
    privileged: Option<bool>,
    network_mode: Option<String>,
    user: Option<String>,
    mounts: Seq<MountInfo>,
) -> Seq<Seq<char>> {
    when(privileged == Some(true), "privileged"@) + when(
        opt_is(network_mode, "host"@),
        "host_network"@,
    ) + when(
        match user {
            Some(u) => u@.len() == 0,
            None => true,
        },
        "root_user"@,
    ) + when(mounts_docker_sock(mounts), "docker_sock"@) + when(
        mounts_sensitive_path(mounts),
        "sensitive_mount"@,
    )
}

fn any_mount(mounts: &Vec<MountInfo>, sensitive: bool) -> (r: bool)
    ensures
        sensitive ==> r == mounts_sensitive_path(mounts@),
        !sensitive ==> r == mounts_docker_sock(mounts@),
{
    let mut i: usize = 0;
    while i < mounts.len()
        invariant
            i <= mounts.len(),
            forall|j: int|
                0 <= j < i ==> !(if sensitive {
                    is_sensitive_path(#[trigger] mounts@[j].destination) || is_sensitive_path(
                        mounts@[j].source,
                    )
                } else {
                    opt_is(mounts@[j].destination, "/var/run/docker.sock"@) || opt_is(
                        mounts@[j].source,
                        "/var/run/docker.sock"@,
                    )
                }),
        decreases mounts.len() - i,
    {
        let m = &mounts[i];
        let hit = if sensitive {
            opt_is_exec(&m.destination, "/etc") || opt_is_exec(&m.destination, "/root")
                || opt_is_exec(&m.destination, "/var/lib/docker") || opt_is_exec(&m.source, "/etc")
                || opt_is_exec(&m.source, "/root") || opt_is_exec(&m.source, "/var/lib/docker")
        } else {
            opt_is_exec(&m.destination, "/var/run/docker.sock") || opt_is_exec(
                &m.source,
                "/var/run/docker.sock",
            )
        };
        if hit {
            return true;
        }
        i += 1;
    }
    false
}

fn push_when(out: &mut Vec<String>, b: bool, s: &str)
    ensures
        strs(final(out)@) == strs(old(out)@) + when(b, s@),
{
    if b {
        out.push(owned(s));
    }
    assert(strs(out@) =~= strs(old(out)@) + when(b, s@));
}

/// The security signals of an inspected container (see `security_spec`).
pub fn security_signals(
    privileged: Option<bool>,
    network_mode: &Option<String>,
    user: &Option<String>,
    mounts: &Vec<MountInfo>,
) -> (r: Vec<String>)
    ensures
        strs(r@) == security_spec(privileged, *network_mode, *user, mounts@),
{
    let mut out: Vec<String> = Vec::new();
    assert(strs(out@) =~= Seq::<Seq<char>>::empty());
    let p = match privileged {
        Some(b) => b,
        None => false,
    };
    push_when(&mut out, p, "privileged");
    let host = opt_is_exec(network_mode, "host");
    push_when(&mut out, host, "host_network");
    let root = match user {
        Some(u) => u.as_str().is_empty(),
        None => true,
    };
    proof {
        if let Some(u) = user {
            assert(root == (u@.len() == 0));
        }
    }
    push_when(&mut out, root, "root_user");
    let sock = any_mount(mounts, false);
    push_when(&mut out, sock, "docker_sock");
    let sensitive = any_mount(mounts, true);
    push_when(&mut out, sensitive, "sensitive_mount");
    assert(strs(out@) =~= security_spec(privileged, *network_mode, *user, mounts@));
    out
}

/// The names of the named volumes among the mounts, in order.
pub open spec fn volume_mounts_spec(ms: Seq<MountInfo>) -> Seq<Seq<char>>
    decreases ms.len(),
{
    if ms.len() == 0 {
        Seq::empty()
    } else {
        let rest = volume_mounts_spec(ms.drop_last());
        let m = ms.last();
        if opt_is(m.kind, "volume"@) && m.name is Some {
            rest.push(m.name->0@)
        } else {
            rest
        }
    }
}

fn volume_mounts(mounts: &Vec<MountInfo>) -> (r: Vec<String>)
    ensures
        strs(r@) == volume_mounts_spec(mounts@),
{
    let mut out: Vec<String> = Vec::new();
    let mut i: usize = 0;
    assert(strs(out@) =~= volume_mounts_spec(mounts@.take(0)));
    while i < mounts.len()
        invariant
            i <= mounts.len(),
            strs(out@) == volume_mounts_spec(mounts@.take(i as int)),
        decreases mounts.len() - i,
    {
        assert(mounts@.take(i + 1).drop_last() =~= mounts@.take(i as int));
        if opt_is_exec(&mounts[i].kind, "volume") {
            match &mounts[i].name {
                Some(n) => {
                    out.push(n.clone());
                    assert(strs(out@) =~= volume_mounts_spec(mounts@.take(i + 1)));
                },
                None => {},
            }
        }
        i += 1;
    }
    assert(mounts@.take(i as int) =~= mounts@);
    out
}

/// What inspecting a container contributes to it: its networks and its
/// named volumes (each sorted, without duplicates) and its security signals.
pub fn inspect_summary(
    network_names: Vec<String>,
    mounts: &Vec<MountInfo>,
    privileged: Option<bool>,
    network_mode: &Option<String>,
    user: &Option<String>,
) -> (r: (Vec<String>, Vec<String>, Vec<String>))
    ensures
        is_sorted_set_of(strs(r.0@), strs(network_names@).to_set()),
        is_sorted_set_of(strs(r.1@), volume_mounts_spec(mounts@).to_set()),
        strs(r.2@) == security_spec(privileged, *network_mode, *user, mounts@),
{
    let networks = unique_sorted(network_names);
    let vols = volume_mounts(mounts);
    let volumes = unique_sorted(vols);
    let security = security_signals(privileged, network_mode, user, mounts);
    (networks, volumes, security)
}

pub open spec fn nonempty(o: Option<Seq<char>>) -> Option<Seq<char>> {
    match o {
        Some(v) => if v.len() > 0 {
            Some(v)
        } else {
            None
        },
        None => None,
    }
}

/// The label that carries a container's security signals.
pub open spec fn security_label() -> Seq<char> {
    "hugdocker.security"@
}

/// The labels of a listed container: its own, and when it has security
/// signals, `hugdocker.security` set to them joined by commas.
pub open spec fn listing_label(
    labels: Seq<(Seq<char>, Seq<char>)>,
    security: Seq<Seq<char>>,
    k: Seq<char>,
) -> Option<Seq<char>> {
    if k == security_label() && security.len() > 0 {
        Some(join_with(security, ","@))
    } else {
        pair_get(labels, k)
    }
}

fn opt_text(o: &Option<String>) -> (r: String)
    ensures
        r@ == unwrap_or_empty(crate::domain::opt_chars(*o)),
{
    match o {
        Some(s) => s.clone(),
        None => String::new(),
    }
}

fn nonempty_exec(o: Option<String>) -> (r: Option<String>)
    ensures
        crate::domain::opt_chars(r) == nonempty(crate::domain::opt_chars(o)),
{
    match o {
        Some(v) => if v.as_str().is_empty() {
            None
        } else {
            Some(v)
        },
        None => None,
    }
}

/// A container from its listing entry and what inspecting it gave
/// (`networks`, `volumes`, `security`, as `inspect_summary` returns them).
pub fn container_from_listing(
    id: Option<String>,
    names: &Vec<String>,
    image: Option<String>,
    state: Option<String>,
    status: Option<String>,
    labels: Vec<(String, String)>,
    ports: &Vec<PortInfo>,
    networks: Vec<String>,
    volumes: Vec<String>,
    security: &Vec<String>,
) -> (c: Container)
    ensures
        c@.id == unwrap_or_empty(crate::domain::opt_chars(id)),
        c@.name == trim_start_char(
            if names@.len() > 0 {
                names@[0]@
            } else {
                Seq::empty()
            },
            '/',
        ),
        c@.image == unwrap_or_empty(crate::domain::opt_chars(image)),
        c@.status == unwrap_or_empty(crate::domain::opt_chars(status)),
        c@.state == docker_state_spec(
            unwrap_or_empty(crate::domain::opt_chars(state)),
            unwrap_or_empty(crate::domain::opt_chars(status)),
        ),
        strictly_sorted(keys(c@.labels)),
        forall|k: Seq<char>| #[trigger]
            pair_get(c@.labels, k) == listing_label(pairs(labels@), strs(security@), k),
        c@.compose_project == nonempty(pair_get(pairs(labels@), "com.docker.compose.project"@)),
        c@.stack_namespace == nonempty(pair_get(pairs(labels@), "com.docker.stack.namespace"@)),
        c@.networks == strs(networks@),
        c@.volumes == strs(volumes@),
        c@.ports == port_labels_spec(ports@),
{
    let mut ls = labels_from_pairs(labels);
    if security.len() > 0 {
        let joined = join_strings_with(security, ",");
        put_pair(&mut ls, owned("hugdocker.security"), joined);
    }
    proof {
        reveal_strlit("hugdocker.security");
        reveal_strlit("com.docker.compose.project");
        reveal_strlit("com.docker.stack.namespace");
        assert("hugdocker.security"@[0] != "com.docker.compose.project"@[0]);
        assert("hugdocker.security"@[0] != "com.docker.stack.namespace"@[0]);
    }
    let compose_project = nonempty_exec(lookup_str(&ls, "com.docker.compose.project"));
    let stack_namespace = nonempty_exec(lookup_str(&ls, "com.docker.stack.namespace"));
    let name = if names.len() > 0 {
        let v = chars_of(names[0].as_str());
        let t = trim_start_char_exec(&v, '/');
        string_of(&t)
    } else {
        let v: Vec<char> = Vec::new();
        let t = trim_start_char_exec(&v, '/');
        assert(v@ =~= Seq::<char>::empty());
        string_of(&t)
    };
    let status_text = opt_text(&status);
    let state_text = opt_text(&state);
    let st = ContainerState::from_docker_state(state_text.as_str(), status_text.as_str());
    let c = Container {
        id: opt_text(&id),
        name,
        image: opt_text(&image),
        state: st,
        status: status_text,
        compose_project,
        stack_namespace,
        labels: ls,
        networks,
        volumes,
        ports: port_labels(ports),
    };
    c
}


// ---------------------------------------------------------------------------
// Stats sample totals
// ---------------------------------------------------------------------------

pub open spec fn opt_u64(o: Option<u64>) -> int {
    match o {
        Some(v) => v as int,
        None => 0,
    }
}

/// The bytes received (`.0`) or sent (`.1`) over all network interfaces,
/// an interface without a count counting as zero.
pub open spec fn network_sum(ns: Seq<(Option<u64>, Option<u64>)>, sent: bool) -> int
    decreases ns.len(),
{
    if ns.len() == 0 {
        0
    } else {
        network_sum(ns.drop_last(), sent) + if sent {
            opt_u64(ns.last().1)
        } else {
            opt_u64(ns.last().0)
        }
    }
}

proof fn lemma_network_sum_nonneg(ns: Seq<(Option<u64>, Option<u64>)>, sent: bool, k: int)
    requires
        0 <= k <= ns.len(),
    ensures
        0 <= network_sum(ns.take(k), sent) <= network_sum(ns, sent),
    decreases ns.len() - k,
{
    if k < ns.len() {
        lemma_network_sum_nonneg(ns, sent, k + 1);
        assert(ns.take(k + 1).drop_last() =~= ns.take(k));
        lemma_network_sum_ge0(ns.take(k), sent);
    } else {
        assert(ns.take(k) =~= ns);
        lemma_network_sum_ge0(ns, sent);
    }
}

proof fn lemma_network_sum_ge0(ns: Seq<(Option<u64>, Option<u64>)>, sent: bool)
    ensures
        0 <= network_sum(ns, sent),
    decreases ns.len(),
{
    if ns.len() > 0 {
        lemma_network_sum_ge0(ns.drop_last(), sent);
    }
}

/// The received and sent byte totals of a stats sample's interfaces.
pub fn network_totals(ns: &Vec<(Option<u64>, Option<u64>)>) -> (r: (u64, u64))
    requires
        network_sum(ns@, false) <= u64::MAX,
        network_sum(ns@, true) <= u64::MAX,
    ensures
        r.0 == network_sum(ns@, false),
        r.1 == network_sum(ns@, true),
{
    let mut rx: u64 = 0;
    let mut tx: u64 = 0;
    let mut i: usize = 0;
    while i < ns.len()
        invariant
            i <= ns@.len(),
            network_sum(ns@, false) <= u64::MAX,
            network_sum(ns@, true) <= u64::MAX,
            rx == network_sum(ns@.take(i as int), false),
            tx == network_sum(ns@.take(i as int), true),
        decreases ns.len() - i,
    {
        proof {
            assert(ns@.take(i + 1).drop_last() =~= ns@.take(i as int));
            lemma_network_sum_nonneg(ns@, false, i + 1);
            lemma_network_sum_nonneg(ns@, true, i + 1);
        }
        let a = match ns[i].0 {
            Some(v) => v,
            None => 0,
        };
        let b = match ns[i].1 {
            Some(v) => v,
            None => 0,
        };
        rx = rx + a;
        tx = tx + b;
        i += 1;
    }
    assert(ns@.take(i as int) =~= ns@);
    (rx, tx)
}

/// The bytes of the block-I/O entries whose operation is `op` (ASCII case
/// ignored), an entry without a value counting as zero.
pub open spec fn block_sum(es: Seq<(Option<String>, Option<u64>)>, op: Seq<char>) -> int
    decreases es.len(),
{
    if es.len() == 0 {
        0
    } else {
        let e = es.last();
        block_sum(es.drop_last(), op) + match e.0 {
            Some(o) => if lower_seq(o@) == op {
                opt_u64(e.1)
            } else {
                0
            },
            None => 0,
        }
    }
}

proof fn lemma_block_sum_ge0(es: Seq<(Option<String>, Option<u64>)>, op: Seq<char>)
    ensures
        0 <= block_sum(es, op),
    decreases es.len(),
{
    if es.len() > 0 {
        lemma_block_sum_ge0(es.drop_last(), op);
    }
}

proof fn lemma_block_sum_take(es: Seq<(Option<String>, Option<u64>)>, op: Seq<char>, k: int)
    requires
        0 <= k <= es.len(),
    ensures
        0 <= block_sum(es.take(k), op) <= block_sum(es, op),
    decreases es.len() - k,
{
    if k < es.len() {
        lemma_block_sum_take(es, op, k + 1);
        assert(es.take(k + 1).drop_last() =~= es.take(k));
        lemma_block_sum_ge0(es.take(k), op);
    } else {
        assert(es.take(k) =~= es);
        lemma_block_sum_ge0(es, op);
    }
}

/// The bytes read and written according to a stats sample's block-I/O
/// entries.
pub fn block_io_totals(es: &Vec<(Option<String>, Option<u64>)>) -> (r: (u64, u64))
    requires
        block_sum(es@, "read"@) <= u64::MAX,
        block_sum(es@, "write"@) <= u64::MAX,
    ensures
        r.0 == block_sum(es@, "read"@),
        r.1 == block_sum(es@, "write"@),
{
    let mut read: u64 = 0;
    let mut write: u64 = 0;
    let mut i: usize = 0;
    while i < es.len()
        invariant
            i <= es@.len(),
            block_sum(es@, "read"@) <= u64::MAX,
            block_sum(es@, "write"@) <= u64::MAX,
            read == block_sum(es@.take(i as int), "read"@),
            write == block_sum(es@.take(i as int), "write"@),
        decreases es.len() - i,
    {
        proof {
            assert(es@.take(i + 1).drop_last() =~= es@.take(i as int));
            lemma_block_sum_take(es@, "read"@, i + 1);
            lemma_block_sum_take(es@, "write"@, i + 1);
        }
        let v = match es[i].1 {
            Some(v) => v,
            None => 0,
        };
        match &es[i].0 {
            Some(o) => {
                let l = lower_of(o.as_str());
                if eq_str(&l, "read") {
                    read = read + v;
                } else if eq_str(&l, "write") {
                    write = write + v;
                }
                proof {
                    reveal_strlit("read");
                    reveal_strlit("write");
                    assert("read"@[0] != "write"@[0]);
                }
            },
            None => {},
        }
        i += 1;
    }
    assert(es@.take(i as int) =~= es@);
    (read, write)
}

} // verus!

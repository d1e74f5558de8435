//! The decisions behind the command line: argument values and their
//! meaning, the confirmation rule for executing plans, and the commands
//! shown for Compose operations.
use vstd::prelude::*;
use crate::config::AppConfig;
use crate::domain::{OperationAction, SortMode};
use crate::ops::{opt_chars, OperationPlan};
use crate::sorted::strs;
use crate::text::{
    chars_of, decimal, decimal_string, eq_str, has_prefix, owned, push_str, starts_with, sub_chars,
};

verus! {

/// Arguments of the project operations.
#[derive(Debug, Clone, PartialEq, Eq)]
pub struct OperationArgs {
    pub projects: Vec<String>,
    pub dry_run: bool,
    pub yes: bool,
    pub confirm_token: Option<String>,
}

/// Arguments of the prune commands.
#[derive(Debug, Clone, PartialEq, Eq)]
pub struct PruneArgs {
    pub json: bool,
    pub dry_run: bool,
    pub yes: bool,
    pub confirm_token: Option<String>,
}

/// Sort order given on the command line.
#[derive(Debug, Clone, Copy, PartialEq, Eq, Structural)]
pub enum SortArg {
    Severity,
    Name,
    Active,
}

/// Operation given on the command line.
#[derive(Debug, Clone, Copy, PartialEq, Eq, Structural)]
pub enum ActionArg {
    Start,
    Stop,
    Restart,
    Remove,
    Purge,
    Prune,
    Rescue,
}

/// Compose operation given on the command line.
#[derive(Debug, Clone, Copy, PartialEq, Eq, Structural)]
pub enum ComposeActionArg {
    Pull,
    Up,
    Down,
    Rebuild,
    Restart,
    Watch,
    Diff,
    Rollback,
}

/// Docker context subcommands.
#[derive(Debug, Clone, Copy, PartialEq, Eq)]
pub enum ContextCommand {
    Ls { json: bool },
    Current,
}

/// Audit log subcommands.
#[derive(Debug, Clone, Copy, PartialEq, Eq)]
pub enum AuditCommand {
    Export { tail: usize, json: bool },
}

pub open spec fn sort_mode_of(value: SortArg) -> SortMode {
    match value {
        SortArg::Severity => SortMode::Severity,
        SortArg::Name => SortMode::NameAsc,
        SortArg::Active => SortMode::ActiveDesc,
    }
}

impl From<SortArg> for SortMode {
    fn from(value: SortArg) -> (r: SortMode) {
        match value {
            SortArg::Severity => SortMode::Severity,
            SortArg::Name => SortMode::NameAsc,
            SortArg::Active => SortMode::ActiveDesc,
        }
    }
}

impl vstd::std_specs::convert::FromSpecImpl<SortArg> for SortMode {
    open spec fn obeys_from_spec() -> bool {
        true
    }

    open spec fn from_spec(v: SortArg) -> SortMode {
        sort_mode_of(v)
    }
}

pub open spec fn action_of(value: ActionArg) -> OperationAction {
    match value {
        ActionArg::Start => OperationAction::Start,
        ActionArg::Stop => OperationAction::Stop,
        ActionArg::Restart => OperationAction::Restart,
        ActionArg::Remove => OperationAction::Remove,
        ActionArg::Purge => OperationAction::Purge,
        ActionArg::Prune => OperationAction::Prune,
        ActionArg::Rescue => OperationAction::Rescue,
    }
}

impl From<ActionArg> for OperationAction {
    fn from(value: ActionArg) -> (r: OperationAction) {
        match value {
            ActionArg::Start => OperationAction::Start,
            ActionArg::Stop => OperationAction::Stop,
            ActionArg::Restart => OperationAction::Restart,
            ActionArg::Remove => OperationAction::Remove,
            ActionArg::Purge => OperationAction::Purge,
            ActionArg::Prune => OperationAction::Prune,
            ActionArg::Rescue => OperationAction::Rescue,
        }
    }
}

impl vstd::std_specs::convert::FromSpecImpl<ActionArg> for OperationAction {
    open spec fn obeys_from_spec() -> bool {
        true
    }

    open spec fn from_spec(v: ActionArg) -> OperationAction {
        action_of(v)
    }
}

/// The operation a word names; `safe-prune` is another name of `prune`.
pub open spec fn action_named(value: Seq<char>) -> Option<ActionArg> {
    if value == "start"@ {
        Some(ActionArg::Start)
    } else if value == "stop"@ {
        Some(ActionArg::Stop)
    } else if value == "restart"@ {
        Some(ActionArg::Restart)
    } else if value == "remove"@ {
        Some(ActionArg::Remove)
    } else if value == "purge"@ {
        Some(ActionArg::Purge)
    } else if value == "prune"@ || value == "safe-prune"@ {
        Some(ActionArg::Prune)
    } else if value == "rescue"@ {
        Some(ActionArg::Rescue)
    } else {
        None
    }
}

impl ActionArg {
    /// Reads an operation word; an unknown word gives `未知动作: <word>`.
    pub fn parse(value: &str) -> (r: Result<ActionArg, String>)
        ensures
            match action_named(value@) {
                Some(a) => r == Ok::<ActionArg, String>(a),
                None => r matches Err(e) && e@ == "未知动作: "@ + value@,
            },
    {
        let v = chars_of(value);
        if eq_str(&v, "start") {
            Ok(ActionArg::Start)
        } else if eq_str(&v, "stop") {
            Ok(ActionArg::Stop)
        } else if eq_str(&v, "restart") {
            Ok(ActionArg::Restart)
        } else if eq_str(&v, "remove") {
            Ok(ActionArg::Remove)
        } else if eq_str(&v, "purge") {
            Ok(ActionArg::Purge)
        } else if eq_str(&v, "prune") || eq_str(&v, "safe-prune") {
            Ok(ActionArg::Prune)
        } else if eq_str(&v, "rescue") {
            Ok(ActionArg::Rescue)
        } else {
            let mut e = owned("未知动作: ");
            push_str(&mut e, value);
            Err(e)
        }
    }
}

impl std::str::FromStr for ActionArg {
    type Err = String;

    fn from_str(value: &str) -> (r: Result<Self, Self::Err>)
        ensures
            match action_named(value@) {
                Some(a) => r == Ok::<ActionArg, String>(a),
                None => r matches Err(e) && e@ == "未知动作: "@ + value@,
            },
    {
        ActionArg::parse(value)
    }
}

/// The word naming an operation in messages.
pub open spec fn action_name_spec(action: OperationAction) -> Seq<char> {
    match action {
        OperationAction::Start => "start"@,
        OperationAction::Stop => "stop"@,
        OperationAction::Restart => "restart"@,
        OperationAction::Remove => "remove"@,
        OperationAction::Purge => "purge"@,
        OperationAction::Prune => "safe-prune"@,
        OperationAction::Rescue => "rescue"@,
    }
}

pub fn action_name(action: OperationAction) -> (r: &'static str)
    ensures
        r@ == action_name_spec(action),
{
    match action {
        OperationAction::Start => "start",
        OperationAction::Stop => "stop",
        OperationAction::Restart => "restart",
        OperationAction::Remove => "remove",
        OperationAction::Purge => "purge",
        OperationAction::Prune => "safe-prune",
        OperationAction::Rescue => "rescue",
    }
}

/// Whether a plan may run now or needs the token typed in.
#[derive(Debug, Clone, Copy, PartialEq, Eq, Structural)]
pub enum ConfirmationDecision {
    Execute,
    Prompt,
}

/// The confirmation rule: a plan without a token runs; a given token must
/// match (else `确认令牌不匹配，已取消。`); `--yes` alone runs a plan unless it
/// purges or prunes, which need the token itself; otherwise the user is
/// asked for the token.
pub open spec fn decision_spec(
    action: OperationAction,
    token: Option<Seq<char>>,
    yes: bool,
    given: Option<Seq<char>>,
) -> Result<ConfirmationDecision, Seq<char>> {
    match token {
        None => Ok(ConfirmationDecision::Execute),
        Some(required) => match given {
            Some(input) => if input == required {
                Ok(ConfirmationDecision::Execute)
            } else {
                Err("确认令牌不匹配，已取消。"@)
            },
            None => if yes {
                if action == OperationAction::Purge || action == OperationAction::Prune {
                    Err(
                        action_name_spec(action) + " 需要显式 --confirm-token "@ + required
                            + "，不能只用 --yes。"@,
                    )
                } else {
                    Ok(ConfirmationDecision::Execute)
                }
            } else {
                Ok(ConfirmationDecision::Prompt)
            },
        },
    }
}

pub open spec fn opt_str(o: Option<&str>) -> Option<Seq<char>> {
    match o {
        Some(s) => Some(s@),
        None => None,
    }
}

/// Decides whether a plan may run, from `--yes` and `--confirm-token`.
pub fn confirmation_decision(plan: &OperationPlan, yes: bool, confirm_token: Option<&str>) -> (r:
    Result<ConfirmationDecision, String>)
    ensures
        match decision_spec(plan.action, opt_chars(plan.confirmation_token), yes, opt_str(confirm_token)) {
            Ok(d) => r == Ok::<ConfirmationDecision, String>(d),
            Err(m) => r matches Err(e) && e@ == m,
        },
{
    let required = match &plan.confirmation_token {
        None => {
            return Ok(ConfirmationDecision::Execute);
        },
        Some(t) => t,
    };
    if let Some(input) = confirm_token {
        let iv = chars_of(input);
        if eq_str(&iv, required.as_str()) {
            return Ok(ConfirmationDecision::Execute);
        }
        return Err(owned("确认令牌不匹配，已取消。"));
    }
    if yes {
        if matches!(plan.action, OperationAction::Purge | OperationAction::Prune) {
            let mut e = owned(action_name(plan.action));
            push_str(&mut e, " 需要显式 --confirm-token ");
            push_str(&mut e, required.as_str());
            push_str(&mut e, "，不能只用 --yes。");
            return Err(e);
        }
        return Ok(ConfirmationDecision::Execute);
    }
    Ok(ConfirmationDecision::Prompt)
}

/// The `docker compose` arguments of a Compose operation, for the whole
/// project or one service.
pub open spec fn compose_args_spec(action: ComposeActionArg, service: Option<Seq<char>>) -> Seq<
    Seq<char>,
> {
    let svc = match service {
        Some(s) => seq![s],
        None => Seq::empty(),
    };
    match action {
        ComposeActionArg::Pull => seq!["pull"@] + svc,
        ComposeActionArg::Up => seq!["up"@, "-d"@] + svc,
        ComposeActionArg::Down => seq!["down"@],
        ComposeActionArg::Rebuild => seq!["up"@, "-d"@, "--build"@] + svc,
        ComposeActionArg::Restart => seq!["restart"@] + svc,
        ComposeActionArg::Watch => seq!["watch"@] + svc,
        ComposeActionArg::Diff => seq!["config"@],
        ComposeActionArg::Rollback => seq!["up"@, "-d"@, "--force-recreate"@] + svc,
    }
}

pub open spec fn strs_of(v: Seq<&str>) -> Seq<Seq<char>> {
    Seq::new(v.len(), |i: int| v[i]@)
}

fn with_service<'a>(mut v: Vec<&'a str>, service: Option<&'a str>) -> (r: Vec<&'a str>)
    ensures
        strs_of(r@) == strs_of(v@) + match opt_str(service) {
            Some(s) => seq![s],
            None => Seq::<Seq<char>>::empty(),
        },
{
    let ghost v0 = v@;
    match service {
        Some(s) => {
            v.push(s);
            assert(strs_of(v@) =~= strs_of(v0) + seq![s@]);
        },
        None => {
            assert(strs_of(v@) =~= strs_of(v0) + Seq::<Seq<char>>::empty());
        },
    }
    v
}

pub fn compose_args<'a>(action: ComposeActionArg, service: Option<&'a str>) -> (r: Vec<&'a str>)
    ensures
        strs_of(r@) == compose_args_spec(action, opt_str(service)),
{
    let r = match action {
        ComposeActionArg::Pull => with_service(vec!["pull"], service),
        ComposeActionArg::Up => with_service(vec!["up", "-d"], service),
        ComposeActionArg::Down => with_service(vec!["down"], None),
        ComposeActionArg::Rebuild => with_service(vec!["up", "-d", "--build"], service),
        ComposeActionArg::Restart => with_service(vec!["restart"], service),
        ComposeActionArg::Watch => with_service(vec!["watch"], service),
        ComposeActionArg::Diff => with_service(vec!["config"], None),
        ComposeActionArg::Rollback => with_service(vec!["up", "-d", "--force-recreate"], service),
    };
    proof {
        assert(strs_of(r@) =~= compose_args_spec(action, opt_str(service)));
    }
    r
}

/// The words joined with single spaces.
pub open spec fn join_words(words: Seq<Seq<char>>) -> Seq<char>
    decreases words.len(),
{
    if words.len() == 0 {
        Seq::empty()
    } else if words.len() == 1 {
        words[0]
    } else {
        join_words(words.drop_last()) + " "@ + words.last()
    }
}

/// The `docker compose` command line that a Compose operation runs: the
/// host (or else the context) of the configuration when set and non-empty,
/// the project, and the arguments.
pub open spec fn compose_command_spec(
    host: Option<Seq<char>>,
    context: Option<Seq<char>>,
    project: Seq<char>,
    args: Seq<Seq<char>>,
) -> Seq<char> {
    let target = if host is Some && host->0.len() > 0 {
        seq!["--host"@, host->0]
    } else if context is Some && context->0.len() > 0 {
        seq!["--context"@, context->0]
    } else {
        Seq::empty()
    };
    join_words(seq!["docker"@] + target + seq!["compose"@, "-p"@, project] + args)
}

fn join_strings(words: &Vec<String>) -> (r: String)
    ensures
        r@ == join_words(strs(words@)),
{
    let mut r = String::new();
    let mut i: usize = 0;
    while i < words.len()
        invariant
            i <= words.len(),
            r@ == join_words(strs(words@).take(i as int)),
        decreases words.len() - i,
    {
        let ghost t1 = strs(words@).take(i + 1);
        assert(t1.drop_last() =~= strs(words@).take(i as int));
        if i > 0 {
            push_str(&mut r, " ");
        }
        push_str(&mut r, words[i].as_str());
        proof {
            if i == 0 {
                assert(r@ =~= join_words(t1));
            }
        }
        i += 1;
    }
    assert(strs(words@).take(i as int) =~= strs(words@));
    r
}

pub fn compose_preview_command(config: &AppConfig, project: &str, args: &[&str]) -> (r: String)
    ensures
        r@ == compose_command_spec(
            opt_chars(config.docker.host),
            opt_chars(config.docker.context),
            project@,
            Seq::new(args@.len(), |i: int| args@[i]@),
        ),
{
    let mut parts: Vec<String> = Vec::new();
    parts.push(owned("docker"));
    let mut done = false;
    if let Some(host) = &config.docker.host {
        if !host.as_str().is_empty() {
            parts.push(owned("--host"));
            parts.push(host.clone());
            done = true;
        }
    }
    if !done {
        if let Some(context) = &config.docker.context {
            if !context.as_str().is_empty() {
                parts.push(owned("--context"));
                parts.push(context.clone());
            }
        }
    }
    parts.push(owned("compose"));
    parts.push(owned("-p"));
    parts.push(owned(project));
    let ghost head = strs(parts@);
    let mut i: usize = 0;
    while i < args.len()
        invariant
            i <= args@.len(),
            strs(parts@) == head + Seq::new(i as nat, |k: int| args@[k]@),
            parts@.len() == head.len() + i,
        decreases args.len() - i,
    {
        let x = owned(args[i]);
        let ghost p0 = parts@;
        parts.push(x);
        proof {
            let want = head + Seq::new((i + 1) as nat, |k: int| args@[k]@);
            assert forall|q: int| 0 <= q < parts@.len() implies #[trigger] strs(parts@)[q] == want[q] by {
                if q < parts@.len() - 1 {
                    assert(parts@[q] == p0[q]);
                    assert(strs(p0)[q] == (head + Seq::new(i as nat, |k: int| args@[k]@))[q]);
                }
            }
        }
        i += 1;
        assert(strs(parts@) =~= head + Seq::new(i as nat, |k: int| args@[k]@));
    }
    let ghost target = if opt_chars(config.docker.host) is Some && opt_chars(
        config.docker.host,
    )->0.len() > 0 {
        seq!["--host"@, opt_chars(config.docker.host)->0]
    } else if opt_chars(config.docker.context) is Some && opt_chars(config.docker.context)->0.len()
        > 0 {
        seq!["--context"@, opt_chars(config.docker.context)->0]
    } else {
        Seq::empty()
    };
    assert(strs(parts@) =~= seq!["docker"@] + target + seq!["compose"@, "-p"@, project@]
        + Seq::new(args@.len(), |k: int| args@[k]@));
    join_strings(&parts)
}

/// A profile pattern matches a project: `*` matches everything, a pattern
/// ending in `*` matches names that start with the rest, any other pattern
/// matches its own name.
pub open spec fn pattern_matches(pattern: Seq<char>, project: Seq<char>) -> bool {
    ||| pattern == "*"@
    ||| pattern == project
    ||| (pattern.len() > 0 && pattern.last() == '*' && has_prefix(project, pattern.drop_last()))
}

pub fn profile_pattern_matches(pattern: &str, project: &str) -> (r: bool)
    ensures
        r == pattern_matches(pattern@, project@),
{
    let p = chars_of(pattern);
    let q = chars_of(project);
    if eq_str(&p, "*") {
        return true;
    }
    if eq_str(&q, pattern) {
        return true;
    }
    if p.len() > 0 && p[p.len() - 1] == '*' {
        let stem = sub_chars(&p, 0, p.len() - 1);
        assert(stem@ =~= p@.drop_last());
        return starts_with(&q, &stem);
    }
    false
}

/// One line of a container's resource counters.
pub open spec fn stats_line_spec(
    name: Seq<char>,
    memory_usage: u64,
    memory_limit: u64,
    cpu_total: u64,
    network_rx_bytes: u64,
    network_tx_bytes: u64,
    block_read_bytes: u64,
    block_write_bytes: u64,
) -> Seq<char> {
    name + " mem "@ + decimal(memory_usage as nat) + "/"@ + decimal(memory_limit as nat)
        + " cpu_total "@ + decimal(cpu_total as nat) + " net_rx "@ + decimal(
        network_rx_bytes as nat,
    ) + " net_tx "@ + decimal(network_tx_bytes as nat) + " io_read "@ + decimal(
        block_read_bytes as nat,
    ) + " io_write "@ + decimal(block_write_bytes as nat)
}

fn push_u64(s: &mut String, n: u64)
    ensures
        final(s)@ == old(s)@ + decimal(n as nat),
{
    let d = decimal_string(n as u128);
    push_str(s, d.as_str());
}

/// The one-line rendering of a stats sample's counters.
pub fn format_stats_line(
    name: &str,
    memory_usage: u64,
    memory_limit: u64,
    cpu_total: u64,
    network_rx_bytes: u64,
    network_tx_bytes: u64,
    block_read_bytes: u64,
    block_write_bytes: u64,
) -> (r: String)
    ensures
        r@ == stats_line_spec(
            name@,
            memory_usage,
            memory_limit,
            cpu_total,
            network_rx_bytes,
            network_tx_bytes,
            block_read_bytes,
            block_write_bytes,
        ),
{
    let mut s = owned(name);
    push_str(&mut s, " mem ");
    push_u64(&mut s, memory_usage);
    push_str(&mut s, "/");
    push_u64(&mut s, memory_limit);
    push_str(&mut s, " cpu_total ");
    push_u64(&mut s, cpu_total);
    push_str(&mut s, " net_rx ");
    push_u64(&mut s, network_rx_bytes);
    push_str(&mut s, " net_tx ");
    push_u64(&mut s, network_tx_bytes);
    push_str(&mut s, " io_read ");
    push_u64(&mut s, block_read_bytes);
    push_str(&mut s, " io_write ");
    push_u64(&mut s, block_write_bytes);
    s
}


// ---------------------------------------------------------------------------
// Plan output and confirmation
// ---------------------------------------------------------------------------

pub open spec fn when_some(b: bool, line: Seq<char>) -> Seq<Seq<char>> {
    if b {
        seq![line]
    } else {
        Seq::empty()
    }
}

pub open spec fn warning_entries(ws: Seq<Seq<char>>) -> Seq<Seq<char>> {
    ws.map_values(|w: Seq<char>| "警告: "@ + w)
}

proof fn lemma_warning_entries_push(ws: Seq<Seq<char>>, w: Seq<char>)
    ensures
        warning_entries(ws.push(w)) == warning_entries(ws).push("警告: "@ + w),
{
    assert(warning_entries(ws.push(w)) =~= warning_entries(ws).push("警告: "@ + w));
}

/// The lines a plan prints as: its summary, each non-empty resource list,
/// its warnings, and the token it needs.
pub open spec fn plan_lines_spec(
    summary: Seq<char>,
    containers: Seq<Seq<char>>,
    networks: Seq<Seq<char>>,
    volumes: Seq<Seq<char>>,
    images: Seq<Seq<char>>,
    warnings: Seq<Seq<char>>,
    token: Option<Seq<char>>,
) -> Seq<Seq<char>> {
    seq![summary] + when_some(containers.len() > 0, "容器: "@ + crate::text::join_with(containers, ", "@))
        + when_some(networks.len() > 0, "网络: "@ + crate::text::join_with(networks, ", "@))
        + when_some(volumes.len() > 0, "卷: "@ + crate::text::join_with(volumes, ", "@))
        + when_some(images.len() > 0, "镜像: "@ + crate::text::join_with(images, ", "@))
        + warning_entries(warnings) + match token {
        Some(t) => seq!["确认令牌: "@ + t],
        None => Seq::empty(),
    }
}

fn push_list(out: &mut Vec<String>, label: &str, items: &Vec<String>)
    ensures
        strs(final(out)@) == strs(old(out)@) + when_some(
            items@.len() > 0,
            label@ + crate::text::join_with(strs(items@), ", "@),
        ),
{
    if items.len() > 0 {
        let mut line = owned(label);
        let j = crate::text::join_strings_with(items, ", ");
        push_str(&mut line, j.as_str());
        out.push(line);
    }
    assert(strs(out@) =~= strs(old(out)@) + when_some(
        items@.len() > 0,
        label@ + crate::text::join_with(strs(items@), ", "@),
    ));
}

/// The lines printed for a plan (see `plan_lines_spec`).
pub fn plan_lines(plan: &OperationPlan) -> (r: Vec<String>)
    ensures
        strs(r@) == plan_lines_spec(
            plan.summary@,
            strs(plan.containers@),
            strs(plan.networks@),
            strs(plan.volumes@),
            strs(plan.images@),
            strs(plan.warnings@),
            opt_chars(plan.confirmation_token),
        ),
{
    let mut out: Vec<String> = Vec::new();
    out.push(plan.summary.clone());
    assert(strs(out@) =~= seq![plan.summary@]);
    push_list(&mut out, "容器: ", &plan.containers);
    push_list(&mut out, "网络: ", &plan.networks);
    push_list(&mut out, "卷: ", &plan.volumes);
    push_list(&mut out, "镜像: ", &plan.images);
    let ghost head = strs(out@);
    let ghost ws = strs(plan.warnings@);
    let mut i: usize = 0;
    while i < plan.warnings.len()
        invariant
            i <= plan.warnings@.len(),
            ws == strs(plan.warnings@),
            strs(out@) == head + warning_entries(ws.take(i as int)),
        decreases plan.warnings.len() - i,
    {
        let mut line = owned("警告: ");
        push_str(&mut line, plan.warnings[i].as_str());
        proof {
            assert(ws.take(i + 1) =~= ws.take(i as int).push(ws[i as int]));
            lemma_warning_entries_push(ws.take(i as int), ws[i as int]);
            crate::sorted::lemma_strs_push(out@, line);
            assert((head + warning_entries(ws.take(i as int))).push(line@) =~= head
                + warning_entries(ws.take(i as int)).push(line@));
        }
        out.push(line);
        i += 1;
        assert(strs(out@) =~= head + warning_entries(ws.take(i as int)));
    }
    assert(ws.take(i as int) =~= ws);
    match &plan.confirmation_token {
        Some(t) => {
            let mut line = owned("确认令牌: ");
            push_str(&mut line, t.as_str());
            out.push(line);
        },
        None => {},
    }
    assert(strs(out@) =~= plan_lines_spec(
        plan.summary@,
        strs(plan.containers@),
        strs(plan.networks@),
        strs(plan.volumes@),
        strs(plan.images@),
        strs(plan.warnings@),
        opt_chars(plan.confirmation_token),
    ));
    out
}

/// The typed answer to a confirmation prompt matches the token: equal once
/// surrounding white space is trimmed.
pub fn token_matches(input: &str, token: &str) -> (r: bool)
    ensures
        r == (crate::text::trim(input@) == token@),
{
    let v = chars_of(input);
    let t = crate::text::trim_chars(&v);
    eq_str(&t, token)
}

/// The steps of the safe update flow before the restart plan's own lines:
/// a pull per project.
pub open spec fn pull_lines(projects: Seq<Seq<char>>) -> Seq<Seq<char>> {
    projects.map_values(|p: Seq<char>| "pull: docker compose -p "@ + p + " pull"@)
}

proof fn lemma_pull_lines_push(ps: Seq<Seq<char>>, p: Seq<char>)
    ensures
        pull_lines(ps.push(p)) == pull_lines(ps).push("pull: docker compose -p "@ + p + " pull"@),
{
    assert(pull_lines(ps.push(p)) =~= pull_lines(ps).push("pull: docker compose -p "@ + p + " pull"@));
}

/// The lines the safe update flow prints for a restart plan: its title, a
/// pull per project, the plan, and the health check to run afterwards.
pub fn update_flow_lines(plan: &OperationPlan) -> (r: Vec<String>)
    ensures
        strs(r@) == seq!["Safe Update Flow"@] + pull_lines(strs(plan.projects@)) + plan_lines_spec(
            plan.summary@,
            strs(plan.containers@),
            strs(plan.networks@),
            strs(plan.volumes@),
            strs(plan.images@),
            strs(plan.warnings@),
            opt_chars(plan.confirmation_token),
        ) + seq!["health: hugdocker doctor"@],
{
    let mut out: Vec<String> = Vec::new();
    out.push(owned("Safe Update Flow"));
    let ghost ps = strs(plan.projects@);
    let mut i: usize = 0;
    assert(strs(out@) =~= seq!["Safe Update Flow"@] + pull_lines(ps.take(0)));
    while i < plan.projects.len()
        invariant
            i <= plan.projects@.len(),
            ps == strs(plan.projects@),
            strs(out@) == seq!["Safe Update Flow"@] + pull_lines(ps.take(i as int)),
        decreases plan.projects.len() - i,
    {
        let mut line = owned("pull: docker compose -p ");
        push_str(&mut line, plan.projects[i].as_str());
        push_str(&mut line, " pull");
        proof {
            assert(ps.take(i + 1) =~= ps.take(i as int).push(ps[i as int]));
            lemma_pull_lines_push(ps.take(i as int), ps[i as int]);
            crate::sorted::lemma_strs_push(out@, line);
            assert((seq!["Safe Update Flow"@] + pull_lines(ps.take(i as int))).push(line@) =~= seq![
                "Safe Update Flow"@,
            ] + pull_lines(ps.take(i as int)).push(line@));
        }
        out.push(line);
        i += 1;
        assert(strs(out@) =~= seq!["Safe Update Flow"@] + pull_lines(ps.take(i as int)));
    }
    assert(ps.take(i as int) =~= ps);
    let ghost mid = strs(out@);
    let lines = plan_lines(plan);
    let mut k: usize = 0;
    while k < lines.len()
        invariant
            k <= lines@.len(),
            strs(out@) == mid + strs(lines@).take(k as int),
        decreases lines.len() - k,
    {
        proof {
            assert(strs(lines@).take(k + 1) =~= strs(lines@).take(k as int).push(strs(lines@)[k as int]));
            assert((mid + strs(lines@).take(k as int)).push(strs(lines@)[k as int]) =~= mid + strs(
                lines@,
            ).take(k as int).push(strs(lines@)[k as int]));
        }
        let item = lines[k].clone();
        proof {
            crate::sorted::lemma_strs_push(out@, item);
        }
        out.push(item);
        k += 1;
        assert(strs(out@) =~= mid + strs(lines@).take(k as int));
    }
    assert(strs(lines@).take(k as int) =~= strs(lines@));
    out.push(owned("health: hugdocker doctor"));
    assert(strs(out@) =~= seq!["Safe Update Flow"@] + pull_lines(strs(plan.projects@))
        + plan_lines_spec(
        plan.summary@,
        strs(plan.containers@),
        strs(plan.networks@),
        strs(plan.volumes@),
        strs(plan.images@),
        strs(plan.warnings@),
        opt_chars(plan.confirmation_token),
    ) + seq!["health: hugdocker doctor"@]);
    out
}


// ---------------------------------------------------------------------------
// Profiles
// ---------------------------------------------------------------------------

/// The configured profiles: each name with its patterns.
pub open spec fn group_views(g: Seq<(String, Vec<String>)>) -> Seq<(Seq<char>, Seq<Seq<char>>)> {
    Seq::new(g.len(), |i: int| (g[i].0@, strs(g[i].1@)))
}

pub open spec fn any_pattern(patterns: Seq<Seq<char>>, name: Seq<char>) -> bool {
    exists|k: int| 0 <= k < patterns.len() && pattern_matches(#[trigger] patterns[k], name)
}

/// The first profile from the `i`-th on with a pattern that matches `name`.
pub open spec fn profile_from(groups: Seq<(Seq<char>, Seq<Seq<char>>)>, name: Seq<char>, i: int) -> Option<
    Seq<char>,
>
    decreases groups.len() - i,
{
    if i < 0 || i >= groups.len() {
        None
    } else if any_pattern(groups[i].1, name) {
        Some(groups[i].0)
    } else {
        profile_from(groups, name, i + 1)
    }
}

/// The profile of a project: the first configured profile that matches its
/// name, else the name of its kind.
pub open spec fn profile_of(groups: Seq<(Seq<char>, Seq<Seq<char>>)>, p: crate::domain::ProjectView) -> Seq<char> {
    match profile_from(groups, p.name, 0) {
        Some(n) => n,
        None => crate::output::kind_name(p.kind),
    }
}

/// The names of the projects in profile `k`, in order.
pub open spec fn members_of(
    ps: Seq<crate::domain::ProjectView>,
    groups: Seq<(Seq<char>, Seq<Seq<char>>)>,
    k: Seq<char>,
) -> Seq<Seq<char>>
    decreases ps.len(),
{
    if ps.len() == 0 {
        Seq::empty()
    } else {
        let rest = members_of(ps.drop_last(), groups, k);
        if profile_of(groups, ps.last()) == k {
            rest.push(ps.last().name)
        } else {
            rest
        }
    }
}

fn any_pattern_exec(patterns: &Vec<String>, name: &str) -> (r: bool)
    ensures
        r == any_pattern(strs(patterns@), name@),
{
    let mut k: usize = 0;
    while k < patterns.len()
        invariant
            k <= patterns@.len(),
            forall|j: int| 0 <= j < k ==> !pattern_matches(#[trigger] strs(patterns@)[j], name@),
        decreases patterns.len() - k,
    {
        if profile_pattern_matches(patterns[k].as_str(), name) {
            assert(pattern_matches(strs(patterns@)[k as int], name@));
            return true;
        }
        k += 1;
    }
    false
}

fn profile_exec(groups: &Vec<(String, Vec<String>)>, project: &crate::domain::Project) -> (r: String)
    ensures
        r@ == profile_of(group_views(groups@), project@),
{
    let ghost gv = group_views(groups@);
    let mut i: usize = 0;
    while i < groups.len()
        invariant
            i <= groups@.len(),
            gv == group_views(groups@),
            profile_from(gv, project@.name, 0) == profile_from(gv, project@.name, i as int),
        decreases groups.len() - i,
    {
        if any_pattern_exec(&groups[i].1, project.name.as_str()) {
            return groups[i].0.clone();
        }
        i += 1;
    }
    owned(
        match project.kind {
            crate::domain::ProjectKind::Compose => "Compose",
            crate::domain::ProjectKind::Stack => "Stack",
            crate::domain::ProjectKind::Standalone => "Standalone",
        },
    )
}

/// The projects grouped by profile, the profiles sorted by name, the
/// projects of each in name order.
pub fn profile_groups(snapshot: &crate::domain::DockerSnapshot, config: &AppConfig) -> (r: Vec<(String, Vec<String>)>)
    requires
        crate::domain::all_counts_fit(snapshot@.projects),
    ensures
        ({
            let ps = crate::domain::sorted_by(snapshot@.projects, SortMode::NameAsc);
            let gv = group_views(config.profiles.groups@);
            &&& crate::sorted::is_sorted_set_of(
                Seq::new(r@.len(), |i: int| r@[i].0@),
                ps.map_values(|p: crate::domain::ProjectView| profile_of(gv, p)).to_set(),
            )
            &&& forall|i: int|
                0 <= i < r@.len() ==> strs(#[trigger] r@[i].1@) == members_of(ps, gv, r@[i].0@)
        }),
{
    let projects = snapshot.projects_sorted(SortMode::NameAsc);
    let ghost ps = crate::domain::pviews(projects@);
    let ghost gv = group_views(config.profiles.groups@);
    let ghost profs_spec = ps.map_values(|p: crate::domain::ProjectView| profile_of(gv, p));
    let mut profs: Vec<String> = Vec::new();
    let mut i: usize = 0;
    while i < projects.len()
        invariant
            i <= projects@.len(),
            ps == crate::domain::pviews(projects@),
            gv == group_views(config.profiles.groups@),
            profs_spec == ps.map_values(|p: crate::domain::ProjectView| profile_of(gv, p)),
            strs(profs@) == profs_spec.take(i as int),
        decreases projects.len() - i,
    {
        let p = profile_exec(&config.profiles.groups, &projects[i]);
        proof {
            crate::sorted::lemma_strs_push(profs@, p);
            assert(profs_spec.take(i + 1) =~= profs_spec.take(i as int).push(profs_spec[i as int]));
        }
        profs.push(p);
        i += 1;
    }
    assert(profs_spec.take(i as int) =~= profs_spec);
    assert(profs@.len() == projects@.len());
    let keys = crate::sorted::unique_sorted(crate::domain::copy_strings(&profs));
    let mut out: Vec<(String, Vec<String>)> = Vec::new();
    let mut k: usize = 0;
    while k < keys.len()
        invariant
            k <= keys@.len(),
            ps == crate::domain::pviews(projects@),
            gv == group_views(config.profiles.groups@),
            strs(profs@) == profs_spec,
            profs@.len() == projects@.len(),
            profs_spec == ps.map_values(|p: crate::domain::ProjectView| profile_of(gv, p)),
            out@.len() == k,
            forall|j: int| 0 <= j < k ==> (#[trigger] out@[j]).0@ == strs(keys@)[j],
            forall|j: int| 0 <= j < k ==> strs((#[trigger] out@[j]).1@) == members_of(ps, gv, out@[j].0@),
        decreases keys.len() - k,
    {
        let key = keys[k].clone();
        let mut names: Vec<String> = Vec::new();
        let mut j: usize = 0;
        assert(ps.take(0) =~= Seq::<crate::domain::ProjectView>::empty());
        while j < projects.len()
            invariant
                j <= projects@.len(),
                ps == crate::domain::pviews(projects@),
                gv == group_views(config.profiles.groups@),
                strs(profs@) == profs_spec,
                profs@.len() == projects@.len(),
                profs_spec == ps.map_values(|p: crate::domain::ProjectView| profile_of(gv, p)),
                strs(names@) == members_of(ps.take(j as int), gv, key@),
            decreases projects.len() - j,
        {
            assert(ps.take(j + 1).drop_last() =~= ps.take(j as int));
            assert(ps.take(j + 1).last() == ps[j as int]);
            assert(strs(profs@)[j as int] == profile_of(gv, ps[j as int]));
            if crate::text::string_eq(&profs[j], &key) {
                let n = projects[j].name.clone();
                proof {
                    crate::sorted::lemma_strs_push(names@, n);
                }
                names.push(n);
            }
            j += 1;
        }
        assert(ps.take(j as int) =~= ps);
        out.push((key, names));
        k += 1;
    }
    assert(Seq::new(out@.len(), |i: int| out@[i].0@) =~= strs(keys@));
    out
}

} // verus!

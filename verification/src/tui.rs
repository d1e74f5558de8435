//! The dashboard's state and its rules: which panel shows, what a click or a
//! key does to the selection, the context menu and the execution prompt, and
//! the texts the panels show. Drawing and terminal input stay with the
//! application.
use vstd::prelude::*;
use crate::domain::{
    Container, DockerSnapshot, OperationAction, Project, ProjectKind, ProjectView, SortMode,
    counts_fit, project_code_spec, is_active_spec, cviews, pviews, all_counts_fit, sorted_by,
    active_spec,
};
use crate::sorted::{strictly_sorted, set_insert, set_remove};
use crate::text::has_infix;
use crate::ops::{OperationPlan, OperationPlanner, PlanError, is_plan, first_missing, opt_chars};
use crate::config::ThemeName;
use crate::domain::HealthStatus;
use crate::health::{
    analyze_snapshot, global_findings, project_fingerprints, fviews, FingerprintView, ProjectFingerprint,
    sorted_fingerprints, fingerprint_spec, findings_spec, status_spec, global_spec, scores_fit,
};
use crate::sorted::strs;
use crate::text::{
    join_with, join_strings_with, owned, push_str, push_chars, decimal, decimal_string,
    chars_of, string_of,
};

verus! {

// ---------------------------------------------------------------------------
// Panels, menu items, mouse actions
// ---------------------------------------------------------------------------

/// The panel shown beside the project list.
#[derive(Debug, Clone, Copy, PartialEq, Eq, Structural)]
pub enum TuiPanel {
    Inbox,
    Detail,
    Doctor,
    Logs,
    Resources,
    CommandPalette,
    Plan(OperationAction),
    Help,
}

/// The right-click menu of a project row.
#[derive(Debug, Clone, PartialEq, Eq)]
pub struct ContextMenuState {
    pub project: String,
    pub row: usize,
    pub x: u16,
    pub y: u16,
    pub selected_index: usize,
}

/// A pending execution and the confirmation token typed so far.
#[derive(Debug, Clone, PartialEq, Eq)]
pub struct ExecutionPrompt {
    pub action: OperationAction,
    pub token_input: String,
}

/// The entries of the context menu.
#[derive(Debug, Clone, Copy, PartialEq, Eq, Structural)]
pub enum ContextMenuItem {
    Inspect,
    Doctor,
    Start,
    Stop,
    Restart,
    Rescue,
    Logs,
    Resources,
    Exec,
    Remove,
    Purge,
}

/// The context menu entries, top to bottom.
pub open spec fn menu_items() -> Seq<ContextMenuItem> {
    seq![
        ContextMenuItem::Inspect,
        ContextMenuItem::Doctor,
        ContextMenuItem::Start,
        ContextMenuItem::Stop,
        ContextMenuItem::Restart,
        ContextMenuItem::Rescue,
        ContextMenuItem::Logs,
        ContextMenuItem::Resources,
        ContextMenuItem::Exec,
        ContextMenuItem::Remove,
        ContextMenuItem::Purge,
    ]
}

pub open spec fn item_label(item: ContextMenuItem) -> Seq<char> {
    match item {
        ContextMenuItem::Inspect => "Inspect"@,
        ContextMenuItem::Doctor => "Doctor"@,
        ContextMenuItem::Start => "Start"@,
        ContextMenuItem::Stop => "Stop"@,
        ContextMenuItem::Restart => "Restart"@,
        ContextMenuItem::Rescue => "Rescue"@,
        ContextMenuItem::Logs => "Logs"@,
        ContextMenuItem::Resources => "Resources"@,
        ContextMenuItem::Exec => "Exec"@,
        ContextMenuItem::Remove => "Remove"@,
        ContextMenuItem::Purge => "Purge"@,
    }
}

pub open spec fn item_description(item: ContextMenuItem) -> Seq<char> {
    match item {
        ContextMenuItem::Inspect => "details"@,
        ContextMenuItem::Doctor => "diagnose"@,
        ContextMenuItem::Start => "plan start"@,
        ContextMenuItem::Stop => "plan stop"@,
        ContextMenuItem::Restart => "plan restart"@,
        ContextMenuItem::Rescue => "restart risky"@,
        ContextMenuItem::Logs => "log lens"@,
        ContextMenuItem::Resources => "resource view"@,
        ContextMenuItem::Exec => "container shell"@,
        ContextMenuItem::Remove => "confirm remove"@,
        ContextMenuItem::Purge => "confirm purge"@,
    }
}

/// The panel a menu entry opens; the exec entry opens the exec picker
/// instead.
pub open spec fn item_panel(item: ContextMenuItem) -> Option<TuiPanel> {
    match item {
        ContextMenuItem::Inspect => Some(TuiPanel::Detail),
        ContextMenuItem::Doctor => Some(TuiPanel::Doctor),
        ContextMenuItem::Start => Some(TuiPanel::Plan(OperationAction::Start)),
        ContextMenuItem::Stop => Some(TuiPanel::Plan(OperationAction::Stop)),
        ContextMenuItem::Restart => Some(TuiPanel::Plan(OperationAction::Restart)),
        ContextMenuItem::Rescue => Some(TuiPanel::Plan(OperationAction::Rescue)),
        ContextMenuItem::Logs => Some(TuiPanel::Logs),
        ContextMenuItem::Resources => Some(TuiPanel::Resources),
        ContextMenuItem::Exec => None,
        ContextMenuItem::Remove => Some(TuiPanel::Plan(OperationAction::Remove)),
        ContextMenuItem::Purge => Some(TuiPanel::Plan(OperationAction::Purge)),
    }
}

impl ContextMenuItem {
    pub fn label(self) -> (r: &'static str)
        ensures
            r@ == item_label(self),
    {
        match self {
            ContextMenuItem::Inspect => "Inspect",
            ContextMenuItem::Doctor => "Doctor",
            ContextMenuItem::Start => "Start",
            ContextMenuItem::Stop => "Stop",
            ContextMenuItem::Restart => "Restart",
            ContextMenuItem::Rescue => "Rescue",
            ContextMenuItem::Logs => "Logs",
            ContextMenuItem::Resources => "Resources",
            ContextMenuItem::Exec => "Exec",
            ContextMenuItem::Remove => "Remove",
            ContextMenuItem::Purge => "Purge",
        }
    }

    pub fn description(self) -> (r: &'static str)
        ensures
            r@ == item_description(self),
    {
        match self {
            ContextMenuItem::Inspect => "details",
            ContextMenuItem::Doctor => "diagnose",
            ContextMenuItem::Start => "plan start",
            ContextMenuItem::Stop => "plan stop",
            ContextMenuItem::Restart => "plan restart",
            ContextMenuItem::Rescue => "restart risky",
            ContextMenuItem::Logs => "log lens",
            ContextMenuItem::Resources => "resource view",
            ContextMenuItem::Exec => "container shell",
            ContextMenuItem::Remove => "confirm remove",
            ContextMenuItem::Purge => "confirm purge",
        }
    }

    pub fn panel(self) -> (r: Option<TuiPanel>)
        ensures
            r == item_panel(self),
    {
        match self {
            ContextMenuItem::Inspect => Some(TuiPanel::Detail),
            ContextMenuItem::Doctor => Some(TuiPanel::Doctor),
            ContextMenuItem::Start => Some(TuiPanel::Plan(OperationAction::Start)),
            ContextMenuItem::Stop => Some(TuiPanel::Plan(OperationAction::Stop)),
            ContextMenuItem::Restart => Some(TuiPanel::Plan(OperationAction::Restart)),
            ContextMenuItem::Rescue => Some(TuiPanel::Plan(OperationAction::Rescue)),
            ContextMenuItem::Logs => Some(TuiPanel::Logs),
            ContextMenuItem::Resources => Some(TuiPanel::Resources),
            ContextMenuItem::Exec => None,
            ContextMenuItem::Remove => Some(TuiPanel::Plan(OperationAction::Remove)),
            ContextMenuItem::Purge => Some(TuiPanel::Plan(OperationAction::Purge)),
        }
    }
}

/// The context menu entries, top to bottom.
pub fn context_menu_items() -> (r: Vec<ContextMenuItem>)
    ensures
        r@ == menu_items(),
{
    let r = vec![
        ContextMenuItem::Inspect,
        ContextMenuItem::Doctor,
        ContextMenuItem::Start,
        ContextMenuItem::Stop,
        ContextMenuItem::Restart,
        ContextMenuItem::Rescue,
        ContextMenuItem::Logs,
        ContextMenuItem::Resources,
        ContextMenuItem::Exec,
        ContextMenuItem::Remove,
        ContextMenuItem::Purge,
    ];
    assert(r@ =~= menu_items());
    r
}

/// The row of a menu entry.
pub fn context_menu_item_index(item: ContextMenuItem) -> (r: usize)
    ensures
        r < menu_items().len(),
        menu_items()[r as int] == item,
        forall|j: int| 0 <= j < r ==> menu_items()[j] != item,
{
    match item {
        ContextMenuItem::Inspect => 0,
        ContextMenuItem::Doctor => 1,
        ContextMenuItem::Start => 2,
        ContextMenuItem::Stop => 3,
        ContextMenuItem::Restart => 4,
        ContextMenuItem::Rescue => 5,
        ContextMenuItem::Logs => 6,
        ContextMenuItem::Resources => 7,
        ContextMenuItem::Exec => 8,
        ContextMenuItem::Remove => 9,
        ContextMenuItem::Purge => 10,
    }
}

/// The highlighted entry of an open menu (the first one when the index is
/// out of range).
pub open spec fn selected_item_spec(index: usize) -> ContextMenuItem {
    if index < menu_items().len() {
        menu_items()[index as int]
    } else {
        ContextMenuItem::Inspect
    }
}

pub fn context_menu_selected_item(menu: &ContextMenuState) -> (r: ContextMenuItem)
    ensures
        r == selected_item_spec(menu.selected_index),
{
    let items = context_menu_items();
    if menu.selected_index < items.len() {
        items[menu.selected_index]
    } else {
        ContextMenuItem::Inspect
    }
}

/// What a mouse event on the dashboard asks for.
#[derive(Debug, Clone, Copy, PartialEq, Eq, Structural)]
pub enum MouseAction {
    ProjectRowClick { row: usize },
    PanelClick { slot: usize },
    OpenContextMenu { row: usize, x: u16, y: u16 },
    ContextMenuClick { item: ContextMenuItem },
    ContextMenuHover { item: ContextMenuItem },
    CloseContextMenu,
    ScrollUp,
    ScrollDown,
}

// ---------------------------------------------------------------------------
// Labels
// ---------------------------------------------------------------------------

pub open spec fn op_label(action: OperationAction) -> Seq<char> {
    match action {
        OperationAction::Start => "Start"@,
        OperationAction::Stop => "Stop"@,
        OperationAction::Restart => "Restart"@,
        OperationAction::Remove => "Remove"@,
        OperationAction::Purge => "Purge"@,
        OperationAction::Prune => "Prune"@,
        OperationAction::Rescue => "Rescue"@,
    }
}

pub fn operation_label(action: OperationAction) -> (r: &'static str)
    ensures
        r@ == op_label(action),
{
    match action {
        OperationAction::Start => "Start",
        OperationAction::Stop => "Stop",
        OperationAction::Restart => "Restart",
        OperationAction::Remove => "Remove",
        OperationAction::Purge => "Purge",
        OperationAction::Prune => "Prune",
        OperationAction::Rescue => "Rescue",
    }
}

/// Remove, purge and prune delete things.
pub open spec fn destructive(action: OperationAction) -> bool {
    action == OperationAction::Remove || action == OperationAction::Purge || action
        == OperationAction::Prune
}

pub fn is_destructive_action(action: OperationAction) -> (r: bool)
    ensures
        r == destructive(action),
{
    match action {
        OperationAction::Remove | OperationAction::Purge | OperationAction::Prune => true,
        _ => false,
    }
}

/// `[CODE]` from the project's state code.
pub fn status_pill(project: &Project) -> (r: String)
    ensures
        r@ == "["@ + project_code_spec(project@) + "]"@,
{
    let mut s = owned("[");
    push_str(&mut s, project.state_code());
    push_str(&mut s, "]");
    s
}

pub open spec fn kind_label(k: ProjectKind) -> Seq<char> {
    match k {
        ProjectKind::Compose => "compose"@,
        ProjectKind::Stack => "stack"@,
        ProjectKind::Standalone => "single"@,
    }
}

pub fn project_kind_label(project: &Project) -> (r: &'static str)
    ensures
        r@ == kind_label(project.kind),
{
    match project.kind {
        ProjectKind::Compose => "compose",
        ProjectKind::Stack => "stack",
        ProjectKind::Standalone => "single",
    }
}

pub open spec fn update_hint_spec(name: Option<Seq<char>>) -> Seq<char> {
    match name {
        Some(n) => "Update 预案: 先执行 hugdocker update "@ + n + " --dry-run，再确认 restart。"@,
        None => "当前没有项目可更新。"@,
    }
}

/// The hint shown for the update key.
pub fn current_project_update_hint(project: Option<&Project>) -> (r: String)
    ensures
        r@ == update_hint_spec(
            match project {
                Some(p) => Some(p.name@),
                None => None,
            },
        ),
{
    match project {
        Some(p) => {
            let mut s = owned("Update 预案: 先执行 hugdocker update ");
            push_str(&mut s, p.name.as_str());
            push_str(&mut s, " --dry-run，再确认 restart。");
            s
        },
        None => owned("当前没有项目可更新。"),
    }
}

pub open spec fn help_lines() -> Seq<Seq<char>> {
    seq![
        "hugdocker TUI"@,
        ""@,
        "鼠标左键项目行: 选择/反选"@,
        "鼠标右键项目行: 打开管理菜单"@,
        "鼠标滚轮: 移动项目"@,
        "j/k 或 ↑/↓: 移动"@,
        "space: 多选；a: 全选/反选；c: 清空选择"@,
        "/: 输入过滤；Backspace 删除过滤字符"@,
        "x: 仅活动项目；o: 切换排序；r: 刷新"@,
        "b: inbox；i: 详情；d: doctor；l: logs；m: resources"@,
        ": 命令面板；e: exec；u: update 预案"@,
        "1/2/3/4/5: start/stop/restart/remove/purge 预演"@,
        "Enter: 在计划面板打开执行确认；确认中再次 Enter 执行"@,
        "q/Esc: 退出；确认中 Esc 取消执行"@,
        ""@,
        "Remove/Purge 必须输入确认令牌；普通动作需要二次 Enter。"@,
    ]
}

/// The key and mouse reference, one line per entry.
pub fn help_text() -> (r: String)
    ensures
        r@ == join_with(help_lines(), "\n"@),
{
    let lines = vec![
        owned("hugdocker TUI"),
        owned(""),
        owned("鼠标左键项目行: 选择/反选"),
        owned("鼠标右键项目行: 打开管理菜单"),
        owned("鼠标滚轮: 移动项目"),
        owned("j/k 或 ↑/↓: 移动"),
        owned("space: 多选；a: 全选/反选；c: 清空选择"),
        owned("/: 输入过滤；Backspace 删除过滤字符"),
        owned("x: 仅活动项目；o: 切换排序；r: 刷新"),
        owned("b: inbox；i: 详情；d: doctor；l: logs；m: resources"),
        owned(": 命令面板；e: exec；u: update 预案"),
        owned("1/2/3/4/5: start/stop/restart/remove/purge 预演"),
        owned("Enter: 在计划面板打开执行确认；确认中再次 Enter 执行"),
        owned("q/Esc: 退出；确认中 Esc 取消执行"),
        owned(""),
        owned("Remove/Purge 必须输入确认令牌；普通动作需要二次 Enter。"),
    ];
    assert(strs(lines@) =~= help_lines());
    join_strings_with(&lines, "\n")
}

// ---------------------------------------------------------------------------
// Plan texts
// ---------------------------------------------------------------------------

/// The recovery playbook shown under a rescue plan.
pub open spec fn rescue_playbook_spec(projects: Seq<Seq<char>>) -> Seq<char> {
    let target = join_with(projects, " "@);
    "\nRecovery Playbook\n异常信号: 优先处理 unhealthy / restarting / active 容器。\n执行策略: 先生成恢复重启预案，TUI 中需二次确认后才执行。\n验证命令: hugdocker rescue "@
        + target + " --dry-run\n执行命令: hugdocker rescue "@ + target
        + "\n回滚提示: 若恢复后仍异常，先查看 hugdocker logs 和 doctor 输出，再考虑 remove/purge。\n"@
}

pub fn format_rescue_playbook(plan: &OperationPlan) -> (r: String)
    ensures
        r@ == rescue_playbook_spec(strs(plan.projects@)),
{
    let target = join_strings_with(&plan.projects, " ");
    let mut s = owned(
        "\nRecovery Playbook\n异常信号: 优先处理 unhealthy / restarting / active 容器。\n执行策略: 先生成恢复重启预案，TUI 中需二次确认后才执行。\n验证命令: hugdocker rescue ",
    );
    push_str(&mut s, target.as_str());
    push_str(&mut s, " --dry-run\n执行命令: hugdocker rescue ");
    push_str(&mut s, target.as_str());
    push_str(
        &mut s,
        "\n回滚提示: 若恢复后仍异常，先查看 hugdocker logs 和 doctor 输出，再考虑 remove/purge。\n",
    );
    s
}

pub open spec fn token_or_placeholder(token: Option<Seq<char>>) -> Seq<char> {
    match token {
        Some(t) => t,
        None => "required-token"@,
    }
}

/// The safety rail shown under a destructive plan.
pub open spec fn safety_rail_spec(action: OperationAction, token: Option<Seq<char>>) -> Seq<char> {
    "\nSafety Rail\ndestructive action: "@ + op_label(action) + "\nrequired token: "@
        + token_or_placeholder(token)
        + "\nmouse cannot execute destructive actions\nuse Enter confirmation only after reviewing containers/networks/volumes/images above\n"@
}

pub fn format_safety_rail(plan: &OperationPlan) -> (r: String)
    ensures
        r@ == safety_rail_spec(plan.action, opt_chars(plan.confirmation_token)),
{
    let mut s = owned("\nSafety Rail\ndestructive action: ");
    push_str(&mut s, operation_label(plan.action));
    push_str(&mut s, "\nrequired token: ");
    match &plan.confirmation_token {
        Some(t) => push_str(&mut s, t.as_str()),
        None => push_str(&mut s, "required-token"),
    }
    push_str(
        &mut s,
        "\nmouse cannot execute destructive actions\nuse Enter confirmation only after reviewing containers/networks/volumes/images above\n",
    );
    s
}

/// The prompt part of a plan text: how to open the confirmation, or, when a
/// prompt for this action is open, the token typed so far or the request to
/// press Enter again.
pub open spec fn execution_prompt_spec(
    action: OperationAction,
    token: Option<Seq<char>>,
    prompt: Option<(OperationAction, Seq<char>)>,
) -> Seq<char> {
    match prompt {
        Some((a, typed)) if a == action => {
            let title = "\nExecute "@ + op_label(action) + "\n"@;
            match token {
                Some(t) => title + "确认令牌: "@ + t + "\n已输入: "@ + typed
                    + "\n输入完整令牌后按 Enter 执行；Esc to cancel。\n"@,
                None => title + "Enter again to execute; Esc to cancel.\n"@,
            }
        },
        _ => "\nTUI 执行: 按 Enter 打开执行确认。\n"@,
    }
}

pub open spec fn prompt_view(p: Option<&ExecutionPrompt>) -> Option<(OperationAction, Seq<char>)> {
    match p {
        Some(p) => Some((p.action, p.token_input@)),
        None => None,
    }
}

pub fn format_execution_prompt(plan: &OperationPlan, prompt: Option<&ExecutionPrompt>) -> (r:
    String)
    ensures
        r@ == execution_prompt_spec(
            plan.action,
            opt_chars(plan.confirmation_token),
            prompt_view(prompt),
        ),
{
    match prompt {
        Some(p) => {
            if p.action != plan.action {
                return owned("\nTUI 执行: 按 Enter 打开执行确认。\n");
            }
            let mut s = owned("\nExecute ");
            push_str(&mut s, operation_label(plan.action));
            push_str(&mut s, "\n");
            match &plan.confirmation_token {
                Some(t) => {
                    push_str(&mut s, "确认令牌: ");
                    push_str(&mut s, t.as_str());
                    push_str(&mut s, "\n已输入: ");
                    push_str(&mut s, p.token_input.as_str());
                    push_str(&mut s, "\n输入完整令牌后按 Enter 执行；Esc to cancel。\n");
                },
                None => push_str(&mut s, "Enter again to execute; Esc to cancel.\n"),
            }
            s
        },
        None => owned("\nTUI 执行: 按 Enter 打开执行确认。\n"),
    }
}

pub open spec fn list_line(label: Seq<char>, items: Seq<Seq<char>>) -> Seq<char> {
    if items.len() == 0 {
        Seq::empty()
    } else {
        label + join_with(items, ", "@) + "\n"@
    }
}

pub open spec fn warning_lines(ws: Seq<Seq<char>>) -> Seq<char>
    decreases ws.len(),
{
    if ws.len() == 0 {
        Seq::empty()
    } else {
        warning_lines(ws.drop_last()) + "警告: "@ + ws.last() + "\n"@
    }
}

/// The plan panel: the summary, the projects, each non-empty resource list,
/// the warnings, the recovery playbook for a rescue, the CLI token, the
/// safety rail for a destructive action, and the execution prompt.
pub open spec fn plan_text_spec(
    action: OperationAction,
    summary: Seq<char>,
    projects: Seq<Seq<char>>,
    containers: Seq<Seq<char>>,
    networks: Seq<Seq<char>>,
    volumes: Seq<Seq<char>>,
    images: Seq<Seq<char>>,
    warnings: Seq<Seq<char>>,
    token: Option<Seq<char>>,
    prompt: Option<(OperationAction, Seq<char>)>,
) -> Seq<char> {
    summary + "\n\n项目: "@ + join_with(projects, ", "@) + "\n"@ + list_line("容器: "@, containers)
        + list_line("网络: "@, networks) + list_line("卷: "@, volumes) + list_line(
        "镜像: "@,
        images,
    ) + warning_lines(warnings) + (if action == OperationAction::Rescue {
        rescue_playbook_spec(projects)
    } else {
        Seq::empty()
    }) + (match token {
        Some(t) => "\nCLI 执行需确认令牌: "@ + t + "\n"@,
        None => Seq::empty(),
    }) + (if destructive(action) {
        safety_rail_spec(action, token)
    } else {
        Seq::empty()
    }) + execution_prompt_spec(action, token, prompt)
}

fn push_list_line(s: &mut String, label: &str, items: &Vec<String>)
    ensures
        final(s)@ == old(s)@ + list_line(label@, strs(items@)),
{
    if items.len() > 0 {
        push_str(s, label);
        let j = join_strings_with(items, ", ");
        push_str(s, j.as_str());
        push_str(s, "\n");
    } else {
        assert(list_line(label@, strs(items@)) =~= Seq::<char>::empty());
    }
}

/// The plan panel's text (see `plan_text_spec`).
pub fn format_plan(plan: OperationPlan, prompt: Option<&ExecutionPrompt>) -> (r: String)
    ensures
        r@ == plan_text_spec(
            plan.action,
            plan.summary@,
            strs(plan.projects@),
            strs(plan.containers@),
            strs(plan.networks@),
            strs(plan.volumes@),
            strs(plan.images@),
            strs(plan.warnings@),
            opt_chars(plan.confirmation_token),
            prompt_view(prompt),
        ),
{
    let mut s = plan.summary.clone();
    push_str(&mut s, "\n\n项目: ");
    let p = join_strings_with(&plan.projects, ", ");
    push_str(&mut s, p.as_str());
    push_str(&mut s, "\n");
    push_list_line(&mut s, "容器: ", &plan.containers);
    push_list_line(&mut s, "网络: ", &plan.networks);
    push_list_line(&mut s, "卷: ", &plan.volumes);
    push_list_line(&mut s, "镜像: ", &plan.images);
    let ghost before_w = s@;
    let ghost ws = strs(plan.warnings@);
    let mut i: usize = 0;
    assert(ws.take(0) =~= Seq::<Seq<char>>::empty());
    while i < plan.warnings.len()
        invariant
            i <= plan.warnings.len(),
            ws == strs(plan.warnings@),
            s@ == before_w + warning_lines(ws.take(i as int)),
        decreases plan.warnings.len() - i,
    {
        assert(ws.take(i + 1).drop_last() =~= ws.take(i as int));
        push_str(&mut s, "警告: ");
        push_str(&mut s, plan.warnings[i].as_str());
        push_str(&mut s, "\n");
        i += 1;
    }
    assert(ws.take(i as int) =~= ws);
    let ghost after_w = s@;
    if plan.action == OperationAction::Rescue {
        let r = format_rescue_playbook(&plan);
        push_str(&mut s, r.as_str());
    }
    let ghost after_r = s@;
    match &plan.confirmation_token {
        Some(t) => {
            push_str(&mut s, "\nCLI 执行需确认令牌: ");
            push_str(&mut s, t.as_str());
            push_str(&mut s, "\n");
        },
        None => {},
    }
    let ghost after_t = s@;
    if is_destructive_action(plan.action) {
        let r = format_safety_rail(&plan);
        push_str(&mut s, r.as_str());
    }
    let ghost after_d = s@;
    let e = format_execution_prompt(&plan, prompt);
    push_str(&mut s, e.as_str());
    assert(s@ =~= plan_text_spec(
        plan.action,
        plan.summary@,
        strs(plan.projects@),
        strs(plan.containers@),
        strs(plan.networks@),
        strs(plan.volumes@),
        strs(plan.images@),
        strs(plan.warnings@),
        opt_chars(plan.confirmation_token),
        prompt_view(prompt),
    ));
    s
}


// ---------------------------------------------------------------------------
// Dashboard state: the model
// ---------------------------------------------------------------------------

/// The lowercase of a text, as `str::to_lowercase` computes it.
pub uninterp spec fn lowercase(s: Seq<char>) -> Seq<char>;

/// `str::to_lowercase`. Its result is the name `lowercase` applied to the
/// argument's characters; which characters the Unicode case rules map to what
/// is not stated.
#[verifier::external_body]
fn to_lowercase(s: &str) -> (r: String)
    ensures
        r@ == lowercase(s@),
{
    s.to_lowercase()
}

/// The dashboard: the snapshot, the projects the filter lets through in the
/// chosen order, the selected project names (sorted, without duplicates),
/// the highlighted row, and what the panels and prompts show.
pub struct DashboardState {
    pub snapshot: DockerSnapshot,
    pub filtered: Vec<Project>,
    pub selected: Vec<String>,
    pub selected_row: Option<usize>,
    pub filter: String,
    pub running_only: bool,
    pub sort_mode: SortMode,
    pub theme: ThemeName,
    pub panel: TuiPanel,
    pub status: String,
    pub context_menu: Option<ContextMenuState>,
    pub execution_prompt: Option<ExecutionPrompt>,
    pub log_container_index: usize,
    pub exec_container_index: Option<usize>,
}

#[verifier::ext_equal]
pub struct MenuView {
    pub project: Seq<char>,
    pub row: usize,
    pub x: u16,
    pub y: u16,
    pub selected_index: usize,
}

/// The dashboard as values: texts as characters, the selection as a set.
#[verifier::ext_equal]
pub struct DashView {
    pub snapshot: crate::domain::SnapshotView,
    pub filtered: Seq<ProjectView>,
    pub selected: Set<Seq<char>>,
    pub selected_row: Option<usize>,
    pub filter: Seq<char>,
    pub running_only: bool,
    pub sort_mode: SortMode,
    pub theme: ThemeName,
    pub panel: TuiPanel,
    pub status: Seq<char>,
    pub context_menu: Option<MenuView>,
    pub execution_prompt: Option<(OperationAction, Seq<char>)>,
    pub log_container_index: usize,
    pub exec_container_index: Option<usize>,
}

pub open spec fn menu_view(m: Option<ContextMenuState>) -> Option<MenuView> {
    match m {
        Some(m) => Some(
            MenuView {
                project: m.project@,
                row: m.row,
                x: m.x,
                y: m.y,
                selected_index: m.selected_index,
            },
        ),
        None => None,
    }
}

pub open spec fn prompt_of(p: Option<ExecutionPrompt>) -> Option<(OperationAction, Seq<char>)> {
    match p {
        Some(p) => Some((p.action, p.token_input@)),
        None => None,
    }
}

impl View for DashboardState {
    type V = DashView;

    open spec fn view(&self) -> DashView {
        DashView {
            snapshot: self.snapshot@,
            filtered: pviews(self.filtered@),
            selected: strs(self.selected@).to_set(),
            selected_row: self.selected_row,
            filter: self.filter@,
            running_only: self.running_only,
            sort_mode: self.sort_mode,
            theme: self.theme,
            panel: self.panel,
            status: self.status@,
            context_menu: menu_view(self.context_menu),
            execution_prompt: prompt_of(self.execution_prompt),
            log_container_index: self.log_container_index,
            exec_container_index: self.exec_container_index,
        }
    }
}

/// The counts of every project fit in a `usize`, and no index is at the top
/// of its range (each can be stepped forward).
pub open spec fn dash_ok(v: DashView) -> bool {
    &&& all_counts_fit(v.snapshot.projects)
    &&& all_counts_fit(v.filtered)
    &&& v.selected_row != Some(usize::MAX)
    &&& v.log_container_index < usize::MAX
    &&& v.exec_container_index != Some(usize::MAX)
    &&& (v.context_menu matches Some(m) ==> m.selected_index < usize::MAX)
}

impl DashboardState {
    /// The state is well formed: `dash_ok`, and the selection is kept
    /// sorted without duplicates.
    pub open spec fn wf(&self) -> bool {
        dash_ok(self@) && strictly_sorted(strs(self.selected@))
    }
}

/// The names of the projects, in order.
pub open spec fn pnames(ps: Seq<ProjectView>) -> Seq<Seq<char>> {
    ps.map_values(|p: ProjectView| p.name)
}

/// A project passes the filter: active when only running projects are
/// shown, and its lowercase name contains the lowercase filter text.
pub open spec fn keep_spec(p: ProjectView, running_only: bool, needle: Seq<char>) -> bool {
    (!running_only || active_spec(p) > 0) && (needle.len() == 0 || has_infix(
        lowercase(p.name),
        needle,
    ))
}

pub open spec fn row_after_rebuild(row: Option<usize>, n: nat) -> Option<usize> {
    if n == 0 {
        None
    } else {
        match row {
            None => Some(0),
            Some(i) => Some(
                if i < n {
                    i
                } else {
                    (n - 1) as usize
                },
            ),
        }
    }
}

/// The projects that pass the filter, in the chosen order.
pub open spec fn filtered_spec(v: DashView) -> Seq<ProjectView> {
    sorted_by(v.snapshot.projects, v.sort_mode).filter(
        |p: ProjectView| keep_spec(p, v.running_only, lowercase(v.filter)),
    )
}

/// Recomputing the list: the filtered projects, the selection cut down to
/// them, the highlighted row kept within the list.
pub open spec fn rebuild_spec(v: DashView) -> DashView {
    let f = filtered_spec(v);
    DashView {
        filtered: f,
        selected: v.selected.intersect(pnames(f).to_set()),
        selected_row: row_after_rebuild(v.selected_row, f.len()),
        ..v
    }
}

pub open spec fn next_spec(v: DashView) -> DashView {
    if v.filtered.len() == 0 {
        v
    } else {
        DashView {
            selected_row: Some(
                match v.selected_row {
                    Some(i) => if i + 1 < v.filtered.len() {
                        (i + 1) as usize
                    } else {
                        (v.filtered.len() - 1) as usize
                    },
                    None => 0,
                },
            ),
            ..v
        }
    }
}

pub open spec fn previous_spec(v: DashView) -> DashView {
    DashView {
        selected_row: Some(
            match v.selected_row {
                Some(i) => if i > 0 {
                    (i - 1) as usize
                } else {
                    0
                },
                None => 0,
            },
        ),
        ..v
    }
}

/// The highlighted project, if the row is in the list.
pub open spec fn current_spec(v: DashView) -> Option<ProjectView> {
    match v.selected_row {
        Some(i) => if i < v.filtered.len() {
            Some(v.filtered[i as int])
        } else {
            None
        },
        None => None,
    }
}

/// The containers one can open a shell in: active, with an id.
pub open spec fn exec_candidates(p: ProjectView) -> Seq<crate::domain::ContainerView> {
    p.containers.filter(
        |c: crate::domain::ContainerView| is_active_spec(c.state) && c.id.len() > 0,
    )
}

pub open spec fn candidate_count(v: DashView) -> nat {
    match current_spec(v) {
        Some(p) => exec_candidates(p).len(),
        None => 0,
    }
}

pub open spec fn open_picker_spec(v: DashView) -> DashView {
    match current_spec(v) {
        None => DashView {
            exec_container_index: None,
            status: "当前没有项目可进入。"@,
            ..v
        },
        Some(p) => {
            let n = exec_candidates(p).len();
            if n == 0 {
                DashView {
                    exec_container_index: None,
                    status: "当前项目没有 active 容器可进入。"@,
                    ..v
                }
            } else {
                DashView {
                    exec_container_index: Some(0),
                    status: "Exec 选择器已打开: "@ + decimal(n) + " 个 active 容器。"@,
                    ..v
                }
            }
        },
    }
}

/// One step up (saturating at 0) or down (stopping at the last of `n`).
pub open spec fn step_index(cur: usize, up: bool, n: nat) -> usize {
    if up {
        if cur > 0 {
            (cur - 1) as usize
        } else {
            0
        }
    } else {
        if cur + 1 < n {
            (cur + 1) as usize
        } else {
            (n - 1) as usize
        }
    }
}

pub open spec fn shift_exec_spec(v: DashView, up: bool) -> DashView {
    let n = candidate_count(v);
    if n == 0 {
        DashView { exec_container_index: None, ..v }
    } else {
        let cur = match v.exec_container_index {
            Some(i) => i,
            None => 0,
        };
        let k = step_index(cur, up, n);
        DashView {
            exec_container_index: Some(k),
            status: "Exec 容器 "@ + decimal((k + 1) as nat) + "/"@ + decimal(n)
                + "，Enter 进入，Esc 取消。"@,
            ..v
        }
    }
}

pub open spec fn shift_log_spec(v: DashView, up: bool) -> DashView {
    let n = match current_spec(v) {
        Some(p) => p.containers.len(),
        None => 0,
    };
    if n == 0 {
        DashView { log_container_index: 0, ..v }
    } else {
        let k = step_index(v.log_container_index, up, n);
        DashView {
            log_container_index: k,
            status: "Log Lens 容器 "@ + decimal((k + 1) as nat) + "/"@ + decimal(n)
                + "，使用 / 更新关键字过滤。"@,
            ..v
        }
    }
}

pub open spec fn toggle_name(sel: Set<Seq<char>>, n: Seq<char>) -> Set<Seq<char>> {
    if sel.contains(n) {
        sel.remove(n)
    } else {
        sel.insert(n)
    }
}

pub open spec fn toggle_selected_spec(v: DashView) -> DashView {
    match current_spec(v) {
        None => v,
        Some(p) => DashView { selected: toggle_name(v.selected, p.name), ..v },
    }
}

pub open spec fn toggle_all_spec(v: DashView) -> DashView {
    let names = pnames(v.filtered).to_set();
    if v.filtered.len() > 0 && names.subset_of(v.selected) {
        DashView { selected: Set::empty(), ..v }
    } else {
        DashView { selected: names, ..v }
    }
}

pub open spec fn begin_prompt_spec(v: DashView) -> DashView {
    match v.panel {
        TuiPanel::Plan(a) => DashView {
            context_menu: None,
            execution_prompt: Some((a, Seq::empty())),
            status: if destructive(a) {
                "输入确认令牌后按 Enter 执行，Esc 取消。"@
            } else {
                "再次按 Enter 执行 "@ + op_label(a) + "，Esc 取消。"@
            },
            ..v
        },
        _ => v,
    }
}

pub open spec fn cancel_prompt_spec(v: DashView) -> DashView {
    DashView { execution_prompt: None, status: "已取消 TUI 执行。"@, ..v }
}

pub open spec fn push_token_spec(v: DashView, c: char) -> DashView {
    match v.execution_prompt {
        Some((a, t)) => DashView { execution_prompt: Some((a, t.push(c))), ..v },
        None => v,
    }
}

/// The text without its last character (unchanged when empty).
pub open spec fn pop_last(t: Seq<char>) -> Seq<char> {
    if t.len() > 0 {
        t.drop_last()
    } else {
        t
    }
}

pub open spec fn pop_token_spec(v: DashView) -> DashView {
    match v.execution_prompt {
        Some((a, t)) => DashView { execution_prompt: Some((a, pop_last(t))), ..v },
        None => v,
    }
}

pub open spec fn item_index(item: ContextMenuItem) -> usize {
    match item {
        ContextMenuItem::Inspect => 0,
        ContextMenuItem::Doctor => 1,
        ContextMenuItem::Start => 2,
        ContextMenuItem::Stop => 3,
        ContextMenuItem::Restart => 4,
        ContextMenuItem::Rescue => 5,
        ContextMenuItem::Logs => 6,
        ContextMenuItem::Resources => 7,
        ContextMenuItem::Exec => 8,
        ContextMenuItem::Remove => 9,
        ContextMenuItem::Purge => 10,
    }
}

pub open spec fn slot_panel(slot: usize) -> TuiPanel {
    if slot == 0 {
        TuiPanel::Detail
    } else if slot == 1 {
        TuiPanel::Doctor
    } else if slot == 2 {
        TuiPanel::Logs
    } else if slot == 3 {
        TuiPanel::Resources
    } else {
        TuiPanel::Help
    }
}

pub open spec fn closed(v: DashView) -> DashView {
    DashView { context_menu: None, execution_prompt: None, ..v }
}

/// What a mouse action does to the dashboard.
pub open spec fn mouse_spec(v: DashView, action: MouseAction) -> DashView {
    match action {
        MouseAction::ProjectRowClick { row } => if row < v.filtered.len() {
            DashView {
                selected_row: Some(row),
                selected: toggle_name(v.selected, v.filtered[row as int].name),
                ..closed(v)
            }
        } else {
            closed(v)
        },
        MouseAction::PanelClick { slot } => DashView { panel: slot_panel(slot), ..closed(v) },
        MouseAction::OpenContextMenu { row, x, y } => if row < v.filtered.len() {
            let n = v.filtered[row as int].name;
            DashView {
                execution_prompt: None,
                selected_row: Some(row),
                selected: if v.selected == Set::<Seq<char>>::empty() || !v.selected.contains(n) {
                    Set::empty().insert(n)
                } else {
                    v.selected
                },
                context_menu: Some(MenuView { project: n, row, x, y, selected_index: 0 }),
                status: "右键管理菜单已打开: "@ + n,
                ..v
            }
        } else {
            v
        },
        MouseAction::ContextMenuHover { item } => match v.context_menu {
            Some(m) => DashView {
                context_menu: Some(MenuView { selected_index: item_index(item), ..m }),
                ..v
            },
            None => v,
        },
        MouseAction::ContextMenuClick { item } => match item_panel(item) {
            Some(p) => DashView {
                panel: p,
                status: "已选择右键菜单动作: "@ + item_label(item),
                ..closed(v)
            },
            None => open_picker_spec(closed(v)),
        },
        MouseAction::CloseContextMenu => DashView { context_menu: None, ..v },
        MouseAction::ScrollUp => previous_spec(closed(v)),
        MouseAction::ScrollDown => next_spec(closed(v)),
    }
}


/// A key press, as far as the dashboard tells keys apart.
#[derive(Debug, Clone, Copy, PartialEq, Eq, Structural)]
pub enum Key {
    Char(char),
    Up,
    Down,
    Enter,
    Esc,
    Backspace,
    Other,
}

/// What the application does after a key: keep going, quit, reload the
/// snapshot, open a shell in the picked container, or execute the confirmed
/// plan.
#[derive(Debug, Clone, Copy, PartialEq, Eq, Structural)]
pub enum KeyOutcome {
    Continue,
    Quit,
    Refresh,
    ExecContainer,
    ExecutePlan,
}

/// A control character (general category Cc), as `char::is_control` tells.
pub open spec fn is_control_spec(c: char) -> bool {
    (c as u32) <= 0x1f || (0x7f <= (c as u32) && (c as u32) <= 0x9f)
}

pub open spec fn next_sort(m: SortMode) -> SortMode {
    match m {
        SortMode::Severity => SortMode::NameAsc,
        SortMode::NameAsc => SortMode::ActiveDesc,
        SortMode::ActiveDesc => SortMode::Severity,
    }
}

pub open spec fn with_panel(v: DashView, p: TuiPanel) -> DashView {
    DashView { panel: p, ..v }
}

/// A key while the execution prompt is open: Esc cancels, Backspace
/// deletes the last token character, Enter asks to execute, a printable
/// character extends the token.
pub open spec fn prompt_key_spec(v: DashView, key: Key) -> (DashView, KeyOutcome) {
    match key {
        Key::Esc => (cancel_prompt_spec(v), KeyOutcome::Continue),
        Key::Backspace => (pop_token_spec(v), KeyOutcome::Continue),
        Key::Enter => (v, KeyOutcome::ExecutePlan),
        Key::Char(c) => if !is_control_spec(c) {
            (push_token_spec(v, c), KeyOutcome::Continue)
        } else {
            (v, KeyOutcome::Continue)
        },
        _ => (v, KeyOutcome::Continue),
    }
}

/// A key while the exec picker is open.
pub open spec fn picker_key_spec(v: DashView, key: Key) -> (DashView, KeyOutcome) {
    match key {
        Key::Esc => (
            DashView { exec_container_index: None, status: "已取消进入容器。"@, ..v },
            KeyOutcome::Continue,
        ),
        Key::Up => (shift_exec_spec(v, true), KeyOutcome::Continue),
        Key::Down => (shift_exec_spec(v, false), KeyOutcome::Continue),
        Key::Char(c) => if c == 'k' {
            (shift_exec_spec(v, true), KeyOutcome::Continue)
        } else if c == 'j' {
            (shift_exec_spec(v, false), KeyOutcome::Continue)
        } else {
            (v, KeyOutcome::Continue)
        },
        Key::Enter => (v, KeyOutcome::ExecContainer),
        _ => (v, KeyOutcome::Continue),
    }
}

pub open spec fn menu_moved(v: DashView, m: MenuView, up: bool) -> DashView {
    let i = m.selected_index;
    let k: usize = if up {
        if i > 0 {
            (i - 1) as usize
        } else {
            0
        }
    } else {
        if i + 1 < 10 {
            (i + 1) as usize
        } else {
            10
        }
    };
    DashView { context_menu: Some(MenuView { selected_index: k, ..m }), ..v }
}

/// A key while the context menu is open: Esc closes it, up and down move
/// the highlight, Enter runs the highlighted entry.
pub open spec fn menu_key_spec(v: DashView, m: MenuView, key: Key) -> DashView {
    match key {
        Key::Esc => DashView { context_menu: None, ..v },
        Key::Up => menu_moved(v, m, true),
        Key::Down => menu_moved(v, m, false),
        Key::Char(c) => if c == 'k' {
            menu_moved(v, m, true)
        } else if c == 'j' {
            menu_moved(v, m, false)
        } else {
            v
        },
        Key::Enter => {
            let item = selected_item_spec(m.selected_index);
            if item == ContextMenuItem::Exec {
                open_picker_spec(closed(v))
            } else {
                mouse_spec(v, MouseAction::ContextMenuClick { item })
            }
        },
        _ => v,
    }
}

pub open spec fn current_name(v: DashView) -> Option<Seq<char>> {
    match current_spec(v) {
        Some(p) => Some(p.name),
        None => None,
    }
}

/// A character key on the dashboard itself.
pub open spec fn char_key_spec(v: DashView, c: char) -> (DashView, KeyOutcome) {
    if c == 'q' {
        (v, KeyOutcome::Quit)
    } else if c == 'j' {
        (next_spec(v), KeyOutcome::Continue)
    } else if c == 'k' {
        (previous_spec(v), KeyOutcome::Continue)
    } else if c == ' ' {
        (toggle_selected_spec(v), KeyOutcome::Continue)
    } else if c == 'a' {
        (toggle_all_spec(v), KeyOutcome::Continue)
    } else if c == 'c' {
        (DashView { selected: Set::empty(), ..v }, KeyOutcome::Continue)
    } else if c == 'r' {
        (v, KeyOutcome::Refresh)
    } else if c == 'x' {
        (rebuild_spec(DashView { running_only: !v.running_only, ..v }), KeyOutcome::Continue)
    } else if c == 'o' {
        (rebuild_spec(DashView { sort_mode: next_sort(v.sort_mode), ..v }), KeyOutcome::Continue)
    } else if c == '/' {
        (
            DashView { status: "输入过滤字符；退格删除，Enter 确认，Esc 清空。"@, ..v },
            KeyOutcome::Continue,
        )
    } else if c == '1' {
        (with_panel(v, TuiPanel::Plan(OperationAction::Start)), KeyOutcome::Continue)
    } else if c == '2' {
        (with_panel(v, TuiPanel::Plan(OperationAction::Stop)), KeyOutcome::Continue)
    } else if c == '3' {
        (with_panel(v, TuiPanel::Plan(OperationAction::Restart)), KeyOutcome::Continue)
    } else if c == '4' {
        (with_panel(v, TuiPanel::Plan(OperationAction::Remove)), KeyOutcome::Continue)
    } else if c == '5' {
        (with_panel(v, TuiPanel::Plan(OperationAction::Purge)), KeyOutcome::Continue)
    } else if c == 'b' {
        (with_panel(v, TuiPanel::Inbox), KeyOutcome::Continue)
    } else if c == 'd' {
        (with_panel(v, TuiPanel::Doctor), KeyOutcome::Continue)
    } else if c == 'l' {
        (with_panel(v, TuiPanel::Logs), KeyOutcome::Continue)
    } else if c == 'e' {
        (open_picker_spec(v), KeyOutcome::Continue)
    } else if c == 'n' && v.panel == TuiPanel::Logs {
        (shift_log_spec(v, false), KeyOutcome::Continue)
    } else if c == 'p' && v.panel == TuiPanel::Logs {
        (shift_log_spec(v, true), KeyOutcome::Continue)
    } else if c == 'm' {
        (with_panel(v, TuiPanel::Resources), KeyOutcome::Continue)
    } else if c == ':' {
        (with_panel(v, TuiPanel::CommandPalette), KeyOutcome::Continue)
    } else if c == 'u' {
        (
            DashView {
                panel: TuiPanel::Plan(OperationAction::Restart),
                status: update_hint_spec(current_name(v)),
                ..v
            },
            KeyOutcome::Continue,
        )
    } else if c == 'i' {
        (with_panel(v, TuiPanel::Detail), KeyOutcome::Continue)
    } else if c == 'h' || c == '?' {
        (with_panel(v, TuiPanel::Help), KeyOutcome::Continue)
    } else if !is_control_spec(c) {
        (rebuild_spec(DashView { filter: v.filter.push(c), ..v }), KeyOutcome::Continue)
    } else {
        (v, KeyOutcome::Continue)
    }
}

/// What a key does: the open execution prompt takes it first, then the exec
/// picker, then the context menu, then the dashboard.
pub open spec fn key_spec(v: DashView, key: Key) -> (DashView, KeyOutcome) {
    if v.execution_prompt is Some {
        prompt_key_spec(v, key)
    } else if v.exec_container_index is Some {
        picker_key_spec(v, key)
    } else if v.context_menu is Some {
        (menu_key_spec(v, v.context_menu->0, key), KeyOutcome::Continue)
    } else {
        match key {
            Key::Esc => (v, KeyOutcome::Quit),
            Key::Down => (next_spec(v), KeyOutcome::Continue),
            Key::Up => (previous_spec(v), KeyOutcome::Continue),
            Key::Backspace => (
                rebuild_spec(DashView { filter: pop_last(v.filter), ..v }),
                KeyOutcome::Continue,
            ),
            Key::Enter => if v.panel is Plan {
                (begin_prompt_spec(v), KeyOutcome::Continue)
            } else {
                (with_panel(v, TuiPanel::Plan(OperationAction::Stop)), KeyOutcome::Continue)
            },
            Key::Char(c) => char_key_spec(v, c),
            Key::Other => (v, KeyOutcome::Continue),
        }
    }
}


// ---------------------------------------------------------------------------
// Dashboard state: the operations
// ---------------------------------------------------------------------------

/// The filter test on a project name already in lowercase: an empty needle
/// lets every name through, otherwise the name must contain it.
pub fn name_matches(lower_name: &str, needle: &str) -> (r: bool)
    ensures
        r == (needle@.len() == 0 || has_infix(lower_name@, needle@)),
{
    let n = chars_of(needle);
    if n.len() == 0 {
        return true;
    }
    let v = chars_of(lower_name);
    crate::text::contains_chars(&v, &n)
}

fn project_passes(project: &Project, running_only: bool, needle: &str) -> (r: bool)
    requires
        counts_fit(project@),
    ensures
        r == keep_spec(project@, running_only, needle@),
{
    if running_only && project.active() == 0 {
        return false;
    }
    let lower = to_lowercase(project.name.as_str());
    name_matches(lower.as_str(), needle)
}

/// The name is that of one of the projects.
fn name_in(ps: &Vec<Project>, name: &String) -> (r: bool)
    ensures
        r == pnames(pviews(ps@)).contains(name@),
{
    let mut i: usize = 0;
    while i < ps.len()
        invariant
            i <= ps.len(),
            forall|k: int| 0 <= k < i ==> pnames(pviews(ps@))[k] != name@,
        decreases ps.len() - i,
    {
        if crate::text::string_eq(&ps[i].name, name) {
            assert(pnames(pviews(ps@))[i as int] == name@);
            return true;
        }
        i += 1;
    }
    false
}

/// The projects that pass the filter, in order (see `filtered_spec`).
fn filtered_projects(
    snapshot: &DockerSnapshot,
    mode: SortMode,
    running_only: bool,
    filter: &String,
) -> (r: Vec<Project>)
    requires
        all_counts_fit(snapshot@.projects),
    ensures
        pviews(r@) == sorted_by(snapshot@.projects, mode).filter(
            |p: ProjectView| keep_spec(p, running_only, lowercase(filter@)),
        ),
        all_counts_fit(pviews(r@)),
{
    let needle = to_lowercase(filter.as_str());
    let sorted = snapshot.projects_sorted(mode);
    let ghost sv = pviews(sorted@);
    let ghost pred = |p: ProjectView| keep_spec(p, running_only, lowercase(filter@));
    proof {
        crate::domain::lemma_sorted_by_members(snapshot@.projects, mode);
        assert forall|k: int| 0 <= k < sv.len() implies counts_fit(#[trigger] sv[k]) by {
            assert(snapshot@.projects.contains(sv[k]));
        }
    }
    let mut f: Vec<Project> = Vec::new();
    let mut i: usize = 0;
    proof {
        reveal(Seq::filter);
        assert(sv.take(0).filter(pred) =~= Seq::<ProjectView>::empty());
        assert(pviews(f@) =~= Seq::<ProjectView>::empty());
    }
    while i < sorted.len()
        invariant
            i <= sorted.len(),
            sv == pviews(sorted@),
            all_counts_fit(sv),
            needle@ == lowercase(filter@),
            pred == (|p: ProjectView| keep_spec(p, running_only, lowercase(filter@))),
            pviews(f@) == sv.take(i as int).filter(pred),
            all_counts_fit(pviews(f@)),
        decreases sorted.len() - i,
    {
        proof {
            reveal(Seq::filter);
            assert(sv.take(i + 1).drop_last() =~= sv.take(i as int));
            assert(sv.take(i + 1).last() == sv[i as int]);
        }
        assert(counts_fit(sv[i as int]));
        if project_passes(&sorted[i], running_only, needle.as_str()) {
            let c = crate::domain::copy_project(&sorted[i]);
            f.push(c);
            assert(pviews(f@) =~= sv.take(i + 1).filter(pred));
        } else {
            assert(pviews(f@) =~= sv.take(i + 1).filter(pred));
        }
        i += 1;
    }
    assert(sv.take(i as int) =~= sv);
    f
}

/// The selected names that are names of the given projects.
fn selection_within(selected: &Vec<String>, ps: &Vec<Project>) -> (r: Vec<String>)
    ensures
        strictly_sorted(strs(r@)),
        strs(r@).to_set() == strs(selected@).to_set().intersect(pnames(pviews(ps@)).to_set()),
{
    let mut r: Vec<String> = Vec::new();
    let ghost sv = strs(selected@);
    let ghost names = pnames(pviews(ps@)).to_set();
    let mut k: usize = 0;
    assert(strs(r@).to_set() =~= sv.take(0).to_set().intersect(names));
    while k < selected.len()
        invariant
            k <= selected.len(),
            sv == strs(selected@),
            names == pnames(pviews(ps@)).to_set(),
            strictly_sorted(strs(r@)),
            strs(r@).to_set() == sv.take(k as int).to_set().intersect(names),
        decreases selected.len() - k,
    {
        assert(sv.take(k + 1) =~= sv.take(k as int).push(sv[k as int]));
        proof {
            sv.take(k as int).lemma_push_to_set_commute(sv[k as int]);
        }
        if name_in(ps, &selected[k]) {
            let n = selected[k].clone();
            set_insert(&mut r, n);
        }
        assert(strs(r@).to_set() =~= sv.take(k + 1).to_set().intersect(names));
        k += 1;
    }
    assert(sv.take(k as int) =~= sv);
    r
}

pub open spec fn initial_view(snapshot: crate::domain::SnapshotView, mode: SortMode) -> DashView {
    DashView {
        snapshot,
        filtered: Seq::empty(),
        selected: Set::empty(),
        selected_row: None,
        filter: Seq::empty(),
        running_only: false,
        sort_mode: mode,
        theme: ThemeName::Industrial,
        panel: TuiPanel::Inbox,
        status: Seq::empty(),
        context_menu: None,
        execution_prompt: None,
        log_container_index: 0,
        exec_container_index: None,
    }
}

impl DashboardState {
    /// A dashboard over the snapshot: nothing selected, no filter, the
    /// inbox panel, the first project highlighted.
    pub fn from_snapshot(snapshot: DockerSnapshot, sort_mode: SortMode) -> (r: Self)
        requires
            all_counts_fit(snapshot@.projects),
        ensures
            r.wf(),
            r@ == rebuild_spec(initial_view(snapshot@, sort_mode)),
    {
        let mut state = DashboardState {
            snapshot,
            filtered: Vec::new(),
            selected: Vec::new(),
            selected_row: None,
            filter: String::new(),
            running_only: false,
            sort_mode,
            theme: ThemeName::Industrial,
            panel: TuiPanel::Inbox,
            status: String::new(),
            context_menu: None,
            execution_prompt: None,
            log_container_index: 0,
            exec_container_index: None,
        };
        proof {
            assert(pviews(state.filtered@) =~= Seq::<ProjectView>::empty());
            assert(strs(state.selected@) =~= Seq::<Seq<char>>::empty());
            assert(strs(state.selected@).to_set() =~= Set::<Seq<char>>::empty());
            assert(state@ =~= initial_view(state.snapshot@, sort_mode));
        }
        state.rebuild_filtered();
        state
    }

    /// Recomputes the filtered list, the selection and the highlighted row
    /// (see `rebuild_spec`).
    pub fn rebuild_filtered(&mut self)
        requires
            old(self).wf(),
        ensures
            final(self).wf(),
            final(self)@ == rebuild_spec(old(self)@),
    {
        let f = filtered_projects(&self.snapshot, self.sort_mode, self.running_only, &self.filter);
        let sel = selection_within(&self.selected, &f);
        let n = f.len();
        let row = if n == 0 {
            None
        } else {
            match self.selected_row {
                None => Some(0),
                Some(i) => Some(
                    if i < n {
                        i
                    } else {
                        n - 1
                    },
                ),
            }
        };
        self.filtered = f;
        self.selected = sel;
        self.selected_row = row;
        assert(self@ =~= rebuild_spec(old(self)@));
    }

    /// Takes a new snapshot and recomputes the list.
    pub fn replace_snapshot(&mut self, snapshot: DockerSnapshot)
        requires
            old(self).wf(),
            all_counts_fit(snapshot@.projects),
        ensures
            final(self).wf(),
            final(self)@ == rebuild_spec(DashView { snapshot: snapshot@, ..old(self)@ }),
    {
        self.snapshot = snapshot;
        self.rebuild_filtered();
    }

    /// The highlighted project, if the row is in the list.
    pub fn current_project(&self) -> (r: Option<&Project>)
        ensures
            match r {
                Some(p) => current_spec(self@) == Some(p@),
                None => current_spec(self@) is None,
            },
    {
        match self.selected_row {
            Some(i) => if i < self.filtered.len() {
                Some(&self.filtered[i])
            } else {
                None
            },
            None => None,
        }
    }

    /// Moves the highlight one row down (stopping at the last row).
    pub fn next(&mut self)
        requires
            old(self).wf(),
        ensures
            final(self).wf(),
            final(self)@ == next_spec(old(self)@),
    {
        if self.filtered.len() == 0 {
            return;
        }
        let n = self.filtered.len();
        let next = match self.selected_row {
            Some(i) => if i + 1 < n {
                i + 1
            } else {
                n - 1
            },
            None => 0,
        };
        self.selected_row = Some(next);
        assert(self@ =~= next_spec(old(self)@));
    }

    /// Moves the highlight one row up (stopping at the first row).
    pub fn previous(&mut self)
        requires
            old(self).wf(),
        ensures
            final(self).wf(),
            final(self)@ == previous_spec(old(self)@),
    {
        let previous = match self.selected_row {
            Some(i) => if i > 0 {
                i - 1
            } else {
                0
            },
            None => 0,
        };
        self.selected_row = Some(previous);
        assert(self@ =~= previous_spec(old(self)@));
    }
}


/// The names an action applies to: the selected projects in list order, or
/// the highlighted project when nothing is selected.
pub open spec fn targets_spec(v: DashView) -> Seq<Seq<char>> {
    if v.selected == Set::<Seq<char>>::empty() {
        match current_spec(v) {
            Some(p) => seq![p.name],
            None => Seq::empty(),
        }
    } else {
        pnames(v.filtered).filter(|n: Seq<char>| v.selected.contains(n))
    }
}

/// What planning `action` on `names` against the projects `ps` gives (the
/// contract of `OperationPlanner::plan`).
pub open spec fn plan_result(
    r: Result<OperationPlan, PlanError>,
    ps: Seq<ProjectView>,
    names: Seq<Seq<char>>,
    action: OperationAction,
) -> bool {
    if names.len() == 0 && action != OperationAction::Prune {
        r == Err::<OperationPlan, PlanError>(PlanError::NoProjectSelected)
    } else if first_missing(ps, names, 0) < names.len() {
        r matches Err(PlanError::ProjectNotFound(n)) && n@ == names[first_missing(ps, names, 0)]
    } else {
        r matches Ok(plan) && is_plan(plan, ps, names, action)
    }
}

fn selection_is_empty(v: &Vec<String>) -> (r: bool)
    ensures
        r == (strs(v@).to_set() == Set::<Seq<char>>::empty()),
{
    if v.len() == 0 {
        assert(strs(v@).to_set() =~= Set::<Seq<char>>::empty());
        true
    } else {
        assert(strs(v@).to_set().contains(strs(v@)[0]));
        false
    }
}

impl DashboardState {
    /// Selects the highlighted project, or unselects it if it was selected.
    pub fn toggle_selected(&mut self)
        requires
            old(self).wf(),
        ensures
            final(self).wf(),
            final(self)@ == toggle_selected_spec(old(self)@),
    {
        let name = match self.current_project() {
            Some(p) => p.name.clone(),
            None => return ,
        };
        let mut sel = Vec::new();
        std::mem::swap(&mut sel, &mut self.selected);
        if !set_insert(&mut sel, name.clone()) {
            set_remove(&mut sel, &name);
        }
        self.selected = sel;
        assert(self@ =~= toggle_selected_spec(old(self)@));
    }

    /// Unselects everything when every listed project is selected, else
    /// selects every listed project.
    pub fn toggle_all(&mut self)
        requires
            old(self).wf(),
        ensures
            final(self).wf(),
            final(self)@ == toggle_all_spec(old(self)@),
    {
        let ghost names = pnames(pviews(self.filtered@));
        let n = self.filtered.len();
        let mut all = n > 0;
        let mut i: usize = 0;
        while i < n && all
            invariant
                n == self.filtered@.len(),
                names == pnames(pviews(self.filtered@)),
                i <= n,
                all == (n > 0 && forall|k: int|
                    0 <= k < i ==> strs(self.selected@).contains(#[trigger] names[k])),
                !all ==> (n == 0 || exists|k: int|
                    0 <= k < i && !strs(self.selected@).contains(#[trigger] names[k])),
            decreases n - i,
        {
            if !crate::health::set_contains(&self.selected, &self.filtered[i].name) {
                all = false;
                assert(!strs(self.selected@).contains(names[i as int]));
            }
            i += 1;
        }
        proof {
            let sel = strs(self.selected@).to_set();
            if all {
                assert forall|x: Seq<char>| names.to_set().contains(x) implies sel.contains(x) by {
                    let k = choose|k: int| 0 <= k < names.len() && names[k] == x;
                    assert(strs(self.selected@).contains(names[k]));
                }
            } else if n > 0 {
                let k = choose|k: int| 0 <= k < i && !strs(self.selected@).contains(names[k]);
                assert(names.to_set().contains(names[k]));
                assert(!sel.contains(names[k]));
            }
        }
        if all {
            self.selected = Vec::new();
            assert(strs(self.selected@).to_set() =~= Set::<Seq<char>>::empty());
        } else {
            let mut sel: Vec<String> = Vec::new();
            let mut k: usize = 0;
            assert(strs(sel@).to_set() =~= names.take(0).to_set());
            while k < n
                invariant
                    n == self.filtered@.len(),
                    names == pnames(pviews(self.filtered@)),
                    k <= n,
                    strictly_sorted(strs(sel@)),
                    strs(sel@).to_set() == names.take(k as int).to_set(),
                decreases n - k,
            {
                assert(names.take(k + 1) =~= names.take(k as int).push(names[k as int]));
                proof {
                    names.take(k as int).lemma_push_to_set_commute(names[k as int]);
                }
                set_insert(&mut sel, self.filtered[k].name.clone());
                k += 1;
            }
            assert(names.take(k as int) =~= names);
            self.selected = sel;
        }
        assert(self@ =~= toggle_all_spec(old(self)@));
    }

    /// Unselects everything.
    pub fn clear_selection(&mut self)
        requires
            old(self).wf(),
        ensures
            final(self).wf(),
            final(self)@ == (DashView { selected: Set::empty(), ..old(self)@ }),
    {
        self.selected = Vec::new();
        assert(strs(self.selected@).to_set() =~= Set::<Seq<char>>::empty());
        assert(self@ =~= DashView { selected: Set::empty(), ..old(self)@ });
    }

    /// The project names an action applies to (see `targets_spec`).
    pub fn action_targets(&self) -> (r: Vec<String>)
        ensures
            strs(r@) == targets_spec(self@),
    {
        if selection_is_empty(&self.selected) {
            let mut r: Vec<String> = Vec::new();
            match self.current_project() {
                Some(p) => {
                    r.push(p.name.clone());
                },
                None => {},
            }
            assert(strs(r@) =~= targets_spec(self@));
            return r;
        }
        let ghost names = pnames(pviews(self.filtered@));
        let ghost sel = strs(self.selected@).to_set();
        let ghost pred = |n: Seq<char>| sel.contains(n);
        let mut r: Vec<String> = Vec::new();
        let mut i: usize = 0;
        proof {
            reveal(Seq::filter);
            assert(names.take(0).filter(pred) =~= Seq::<Seq<char>>::empty());
        }
        while i < self.filtered.len()
            invariant
                i <= self.filtered@.len(),
                names == pnames(pviews(self.filtered@)),
                sel == strs(self.selected@).to_set(),
                pred == (|n: Seq<char>| sel.contains(n)),
                strs(r@) == names.take(i as int).filter(pred),
            decreases self.filtered.len() - i,
        {
            proof {
                reveal(Seq::filter);
                assert(names.take(i + 1).drop_last() =~= names.take(i as int));
            }
            if crate::health::set_contains(&self.selected, &self.filtered[i].name) {
                r.push(self.filtered[i].name.clone());
            }
            assert(strs(r@) =~= names.take(i + 1).filter(pred));
            i += 1;
        }
        assert(names.take(i as int) =~= names);
        r
    }

    /// The plan of `action` on the action targets.
    pub fn plan_for(&self, action: OperationAction) -> (r: Result<OperationPlan, PlanError>)
        ensures
            plan_result(r, self@.snapshot.projects, targets_spec(self@), action),
    {
        let targets = self.action_targets();
        let planner = OperationPlanner::new(&self.snapshot);
        planner.plan(action, targets.as_slice())
    }
}

/// Opens the execution prompt for the plan panel's action.
pub fn begin_execution_prompt(state: &mut DashboardState)
    requires
        old(state).wf(),
    ensures
        final(state).wf(),
        final(state)@ == begin_prompt_spec(old(state)@),
{
    match state.panel {
        TuiPanel::Plan(action) => {
            state.context_menu = None;
            state.execution_prompt = Some(ExecutionPrompt { action, token_input: String::new() });
            state.status = if is_destructive_action(action) {
                owned("输入确认令牌后按 Enter 执行，Esc 取消。")
            } else {
                let mut s = owned("再次按 Enter 执行 ");
                push_str(&mut s, operation_label(action));
                push_str(&mut s, "，Esc 取消。");
                s
            };
            assert(state@ =~= begin_prompt_spec(old(state)@));
        },
        _ => {},
    }
}

/// Closes the execution prompt without executing.
pub fn cancel_execution_prompt(state: &mut DashboardState)
    requires
        old(state).wf(),
    ensures
        final(state).wf(),
        final(state)@ == cancel_prompt_spec(old(state)@),
{
    state.execution_prompt = None;
    state.status = owned("已取消 TUI 执行。");
    assert(state@ =~= cancel_prompt_spec(old(state)@));
}

/// Adds a character to the typed token.
pub fn push_execution_token(state: &mut DashboardState, ch: char)
    requires
        old(state).wf(),
    ensures
        final(state).wf(),
        final(state)@ == push_token_spec(old(state)@, ch),
{
    let next = match &state.execution_prompt {
        Some(p) => {
            let mut t = p.token_input.clone();
            crate::text::push_char(&mut t, ch);
            Some(ExecutionPrompt { action: p.action, token_input: t })
        },
        None => None,
    };
    if next.is_some() {
        state.execution_prompt = next;
    }
    assert(state@ =~= push_token_spec(old(state)@, ch));
}

fn pop_string(t: &String) -> (r: String)
    ensures
        r@ == pop_last(t@),
{
    let v = chars_of(t.as_str());
    if v.len() == 0 {
        return t.clone();
    }
    let w = crate::text::sub_chars(&v, 0, v.len() - 1);
    assert(w@ =~= v@.drop_last());
    string_of(&w)
}

/// Deletes the last character of the typed token.
pub fn pop_execution_token(state: &mut DashboardState)
    requires
        old(state).wf(),
    ensures
        final(state).wf(),
        final(state)@ == pop_token_spec(old(state)@),
{
    let next = match &state.execution_prompt {
        Some(p) => Some(ExecutionPrompt { action: p.action, token_input: pop_string(&p.token_input) }),
        None => None,
    };
    if next.is_some() {
        state.execution_prompt = next;
    }
    assert(state@ =~= pop_token_spec(old(state)@));
}

/// The plan to execute once the prompt is confirmed: none without a prompt;
/// the plan's error when it cannot be made; the plan when it needs no token
/// or the typed token is its token; none when the token does not match.
pub open spec fn confirmed_spec(r: Result<Option<OperationPlan>, PlanError>, v: DashView) -> bool {
    match v.execution_prompt {
        None => r == Ok::<Option<OperationPlan>, PlanError>(None),
        Some((a, typed)) => {
            let ps = v.snapshot.projects;
            let names = targets_spec(v);
            if names.len() == 0 && a != OperationAction::Prune {
                r == Err::<Option<OperationPlan>, PlanError>(PlanError::NoProjectSelected)
            } else if first_missing(ps, names, 0) < names.len() {
                r matches Err(PlanError::ProjectNotFound(n)) && n@ == names[first_missing(
                    ps,
                    names,
                    0,
                )]
            } else {
                match r {
                    Ok(Some(plan)) => is_plan(plan, ps, names, a) && (crate::ops::token_spec(
                        a,
                        names,
                    ) matches Some(t) ==> t == typed),
                    Ok(None) => crate::ops::token_spec(a, names) matches Some(t) && t != typed,
                    Err(_) => false,
                }
            }
        },
    }
}

pub fn execution_plan_if_confirmed(state: &DashboardState) -> (r: Result<
    Option<OperationPlan>,
    PlanError,
>)
    ensures
        confirmed_spec(r, state@),
{
    match &state.execution_prompt {
        None => Ok(None),
        Some(p) => {
            match state.plan_for(p.action) {
                Err(e) => Err(e),
                Ok(plan) => {
                    let ok = match &plan.confirmation_token {
                        Some(t) => crate::text::string_eq(&p.token_input, t),
                        None => true,
                    };
                    if ok {
                        Ok(Some(plan))
                    } else {
                        Ok(None)
                    }
                },
            }
        },
    }
}

pub open spec fn confirm_status(r: Result<Option<OperationPlan>, PlanError>) -> Option<Seq<char>> {
    match r {
        Ok(None) => Some("确认令牌未匹配，继续输入或按 Esc 取消。"@),
        Ok(Some(plan)) => Some("正在执行 "@ + op_label(plan.action) + " ..."@),
        Err(_) => None,
    }
}

/// Enter in the execution prompt: the plan to execute, if confirmed, with
/// the status line saying what happens.
pub fn confirm_execution(state: &mut DashboardState) -> (r: Result<Option<OperationPlan>, PlanError>)
    requires
        old(state).wf(),
    ensures
        final(state).wf(),
        confirmed_spec(r, old(state)@),
        final(state)@ == match confirm_status(r) {
            Some(st) => DashView { status: st, ..old(state)@ },
            None => old(state)@,
        },
{
    let r = execution_plan_if_confirmed(state);
    match &r {
        Ok(None) => {
            state.status = owned("确认令牌未匹配，继续输入或按 Esc 取消。");
        },
        Ok(Some(plan)) => {
            let mut s = owned("正在执行 ");
            push_str(&mut s, operation_label(plan.action));
            push_str(&mut s, " ...");
            state.status = s;
        },
        Err(_) => {},
    }
    assert(state@ =~= match confirm_status(r) {
        Some(st) => DashView { status: st, ..old(state)@ },
        None => old(state)@,
    });
    r
}

pub open spec fn finished_status(action: OperationAction, succeeded: nat, failed: nat) -> Seq<char> {
    op_label(action) + " 执行完成: 成功 "@ + decimal(succeeded) + " 个，失败 "@ + decimal(failed)
        + " 个。"@
}

/// After executing: the prompt closes and the status reports the counts.
pub fn finish_execution(state: &mut DashboardState, action: OperationAction, succeeded: usize, failed: usize)
    requires
        old(state).wf(),
    ensures
        final(state).wf(),
        final(state)@ == (DashView {
            execution_prompt: None,
            status: finished_status(action, succeeded as nat, failed as nat),
            ..old(state)@
        }),
{
    let mut s = owned(operation_label(action));
    push_str(&mut s, " 执行完成: 成功 ");
    let a = decimal_string(succeeded as u128);
    push_str(&mut s, a.as_str());
    push_str(&mut s, " 个，失败 ");
    let b = decimal_string(failed as u128);
    push_str(&mut s, b.as_str());
    push_str(&mut s, " 个。");
    state.execution_prompt = None;
    state.status = s;
    assert(state@ =~= DashView {
        execution_prompt: None,
        status: finished_status(action, succeeded as nat, failed as nat),
        ..old(state)@
    });
}


/// The containers of a project one can open a shell in (see
/// `exec_candidates`).
pub fn active_exec_containers(project: &Project) -> (r: Vec<Container>)
    ensures
        cviews(r@) == exec_candidates(project@),
{
    let ghost cs = project@.containers;
    let ghost pred = |c: crate::domain::ContainerView| is_active_spec(c.state) && c.id.len() > 0;
    let mut r: Vec<Container> = Vec::new();
    let mut i: usize = 0;
    proof {
        reveal(Seq::filter);
        assert(cs.take(0).filter(pred) =~= Seq::<crate::domain::ContainerView>::empty());
        assert(cviews(r@) =~= Seq::<crate::domain::ContainerView>::empty());
    }
    while i < project.containers.len()
        invariant
            i <= project.containers@.len(),
            cs == project@.containers,
            cs == cviews(project.containers@),
            pred == (|c: crate::domain::ContainerView| is_active_spec(c.state) && c.id.len() > 0),
            cviews(r@) == cs.take(i as int).filter(pred),
        decreases project.containers.len() - i,
    {
        proof {
            reveal(Seq::filter);
            assert(cs.take(i + 1).drop_last() =~= cs.take(i as int));
        }
        let c = &project.containers[i];
        if c.state.is_active() && !c.id.as_str().is_empty() {
            r.push(crate::domain::copy_container(c));
        }
        assert(cviews(r@) =~= cs.take(i + 1).filter(pred));
        i += 1;
    }
    assert(cs.take(i as int) =~= cs);
    r
}

fn candidates_of_current(state: &DashboardState) -> (r: usize)
    ensures
        r == candidate_count(state@),
{
    match state.current_project() {
        Some(p) => active_exec_containers(p).len(),
        None => 0,
    }
}

/// Opens the exec picker on the highlighted project's first candidate.
pub fn open_exec_picker(state: &mut DashboardState)
    requires
        old(state).wf(),
    ensures
        final(state).wf(),
        final(state)@ == open_picker_spec(old(state)@),
{
    let has_project = state.current_project().is_some();
    if !has_project {
        state.exec_container_index = None;
        state.status = owned("当前没有项目可进入。");
        assert(state@ =~= open_picker_spec(old(state)@));
        return;
    }
    let n = candidates_of_current(state);
    if n == 0 {
        state.exec_container_index = None;
        state.status = owned("当前项目没有 active 容器可进入。");
    } else {
        state.exec_container_index = Some(0);
        let mut s = owned("Exec 选择器已打开: ");
        let d = decimal_string(n as u128);
        push_str(&mut s, d.as_str());
        push_str(&mut s, " 个 active 容器。");
        state.status = s;
    }
    assert(state@ =~= open_picker_spec(old(state)@));
}

fn step_index_exec(cur: usize, up: bool, n: usize) -> (r: usize)
    requires
        n > 0,
    ensures
        r == step_index(cur, up, n as nat),
        r < n || (up && r == cur - 1) || (up && r == 0),
{
    if up {
        if cur > 0 {
            cur - 1
        } else {
            0
        }
    } else {
        if cur < n - 1 {
            cur + 1
        } else {
            n - 1
        }
    }
}

/// Moves the exec picker's highlight up or down.
pub fn shift_exec_container(state: &mut DashboardState, up: bool)
    requires
        old(state).wf(),
    ensures
        final(state).wf(),
        final(state)@ == shift_exec_spec(old(state)@, up),
{
    let n = candidates_of_current(state);
    if n == 0 {
        state.exec_container_index = None;
        assert(state@ =~= shift_exec_spec(old(state)@, up));
        return;
    }
    let cur = match state.exec_container_index {
        Some(i) => i,
        None => 0,
    };
    let k = step_index_exec(cur, up, n);
    let mut s = owned("Exec 容器 ");
    let d = decimal_string(k as u128 + 1);
    push_str(&mut s, d.as_str());
    push_str(&mut s, "/");
    let d2 = decimal_string(n as u128);
    push_str(&mut s, d2.as_str());
    push_str(&mut s, "，Enter 进入，Esc 取消。");
    state.exec_container_index = Some(k);
    state.status = s;
    assert(state@ =~= shift_exec_spec(old(state)@, up));
}

/// Moves the log panel to the previous or next container of the project.
pub fn shift_log_container(state: &mut DashboardState, up: bool)
    requires
        old(state).wf(),
    ensures
        final(state).wf(),
        final(state)@ == shift_log_spec(old(state)@, up),
{
    let n = match state.current_project() {
        Some(p) => p.containers.len(),
        None => 0,
    };
    if n == 0 {
        state.log_container_index = 0;
        assert(state@ =~= shift_log_spec(old(state)@, up));
        return;
    }
    let k = step_index_exec(state.log_container_index, up, n);
    let mut s = owned("Log Lens 容器 ");
    let d = decimal_string(k as u128 + 1);
    push_str(&mut s, d.as_str());
    push_str(&mut s, "/");
    let d2 = decimal_string(n as u128);
    push_str(&mut s, d2.as_str());
    push_str(&mut s, "，使用 / 更新关键字过滤。");
    state.log_container_index = k;
    state.status = s;
    assert(state@ =~= shift_log_spec(old(state)@, up));
}

fn slot_panel_exec(slot: usize) -> (r: TuiPanel)
    ensures
        r == slot_panel(slot),
{
    if slot == 0 {
        TuiPanel::Detail
    } else if slot == 1 {
        TuiPanel::Doctor
    } else if slot == 2 {
        TuiPanel::Logs
    } else if slot == 3 {
        TuiPanel::Resources
    } else {
        TuiPanel::Help
    }
}

/// Applies a mouse action to the dashboard (see `mouse_spec`).
pub fn apply_mouse_action(state: &mut DashboardState, action: MouseAction)
    requires
        old(state).wf(),
    ensures
        final(state).wf(),
        final(state)@ == mouse_spec(old(state)@, action),
{
    match action {
        MouseAction::ProjectRowClick { row } => {
            state.context_menu = None;
            state.execution_prompt = None;
            if row < state.filtered.len() {
                state.selected_row = Some(row);
                let name = state.filtered[row].name.clone();
                let mut sel = Vec::new();
                std::mem::swap(&mut sel, &mut state.selected);
                if !set_insert(&mut sel, name.clone()) {
                    set_remove(&mut sel, &name);
                }
                state.selected = sel;
            }
            assert(state@ =~= mouse_spec(old(state)@, action));
        },
        MouseAction::PanelClick { slot } => {
            state.context_menu = None;
            state.execution_prompt = None;
            state.panel = slot_panel_exec(slot);
            assert(state@ =~= mouse_spec(old(state)@, action));
        },
        MouseAction::OpenContextMenu { row, x, y } => {
            if row < state.filtered.len() {
                state.execution_prompt = None;
                state.selected_row = Some(row);
                let name = state.filtered[row].name.clone();
                let empty = selection_is_empty(&state.selected);
                if empty || !crate::health::set_contains(&state.selected, &name) {
                    let mut sel: Vec<String> = Vec::new();
                    assert(strs(sel@).to_set() =~= Set::<Seq<char>>::empty());
                    set_insert(&mut sel, name.clone());
                    state.selected = sel;
                }
                let mut s = owned("右键管理菜单已打开: ");
                push_str(&mut s, name.as_str());
                state.context_menu = Some(
                    ContextMenuState { project: name, row, x, y, selected_index: 0 },
                );
                state.status = s;
            }
            assert(state@ =~= mouse_spec(old(state)@, action));
        },
        MouseAction::ContextMenuHover { item } => {
            let next = match &state.context_menu {
                Some(m) => Some(
                    ContextMenuState {
                        project: m.project.clone(),
                        row: m.row,
                        x: m.x,
                        y: m.y,
                        selected_index: context_menu_item_index(item),
                    },
                ),
                None => None,
            };
            if next.is_some() {
                state.context_menu = next;
            }
            assert(state@ =~= mouse_spec(old(state)@, action));
        },
        MouseAction::ContextMenuClick { item } => {
            state.context_menu = None;
            state.execution_prompt = None;
            match item.panel() {
                Some(panel) => {
                    state.panel = panel;
                    let mut s = owned("已选择右键菜单动作: ");
                    push_str(&mut s, item.label());
                    state.status = s;
                },
                None => {
                    assert(state@ =~= closed(old(state)@));
                    open_exec_picker(state);
                },
            }
            assert(state@ =~= mouse_spec(old(state)@, action));
        },
        MouseAction::CloseContextMenu => {
            state.context_menu = None;
            assert(state@ =~= mouse_spec(old(state)@, action));
        },
        MouseAction::ScrollUp => {
            state.context_menu = None;
            state.execution_prompt = None;
            assert(state@ =~= closed(old(state)@));
            state.previous();
        },
        MouseAction::ScrollDown => {
            state.context_menu = None;
            state.execution_prompt = None;
            assert(state@ =~= closed(old(state)@));
            state.next();
        },
    }
}


fn is_control(c: char) -> (r: bool)
    ensures
        r == is_control_spec(c),
{
    let u = c as u32;
    u <= 0x1f || (0x7f <= u && u <= 0x9f)
}

fn set_panel(state: &mut DashboardState, p: TuiPanel)
    requires
        old(state).wf(),
    ensures
        final(state).wf(),
        final(state)@ == with_panel(old(state)@, p),
{
    state.panel = p;
    assert(state@ =~= with_panel(old(state)@, p));
}

fn move_menu(state: &mut DashboardState, up: bool)
    requires
        old(state).wf(),
        old(state).context_menu is Some,
    ensures
        final(state).wf(),
        final(state)@ == menu_moved(old(state)@, old(state)@.context_menu->0, up),
{
    let next = match &state.context_menu {
        Some(m) => {
            let i = m.selected_index;
            let k: usize = if up {
                if i > 0 {
                    i - 1
                } else {
                    0
                }
            } else {
                if i + 1 < 10 {
                    i + 1
                } else {
                    10
                }
            };
            Some(ContextMenuState { project: m.project.clone(), row: m.row, x: m.x, y: m.y, selected_index: k })
        },
        None => None,
    };
    state.context_menu = next;
    assert(state@ =~= menu_moved(old(state)@, old(state)@.context_menu->0, up));
}

fn prompt_key(state: &mut DashboardState, key: Key) -> (r: KeyOutcome)
    requires
        old(state).wf(),
    ensures
        final(state).wf(),
        (final(state)@, r) == prompt_key_spec(old(state)@, key),
{
    match key {
        Key::Esc => {
            cancel_execution_prompt(state);
            KeyOutcome::Continue
        },
        Key::Backspace => {
            pop_execution_token(state);
            KeyOutcome::Continue
        },
        Key::Enter => KeyOutcome::ExecutePlan,
        Key::Char(c) => {
            if !is_control(c) {
                push_execution_token(state, c);
            }
            KeyOutcome::Continue
        },
        _ => KeyOutcome::Continue,
    }
}

fn picker_key(state: &mut DashboardState, key: Key) -> (r: KeyOutcome)
    requires
        old(state).wf(),
    ensures
        final(state).wf(),
        (final(state)@, r) == picker_key_spec(old(state)@, key),
{
    match key {
        Key::Esc => {
            state.exec_container_index = None;
            state.status = owned("已取消进入容器。");
            assert(state@ =~= picker_key_spec(old(state)@, key).0);
            KeyOutcome::Continue
        },
        Key::Up => {
            shift_exec_container(state, true);
            KeyOutcome::Continue
        },
        Key::Down => {
            shift_exec_container(state, false);
            KeyOutcome::Continue
        },
        Key::Char(c) => {
            if c == 'k' {
                shift_exec_container(state, true);
            } else if c == 'j' {
                shift_exec_container(state, false);
            }
            KeyOutcome::Continue
        },
        Key::Enter => KeyOutcome::ExecContainer,
        _ => KeyOutcome::Continue,
    }
}

fn menu_key(state: &mut DashboardState, key: Key)
    requires
        old(state).wf(),
        old(state).context_menu is Some,
    ensures
        final(state).wf(),
        final(state)@ == menu_key_spec(old(state)@, old(state)@.context_menu->0, key),
{
    match key {
        Key::Esc => {
            state.context_menu = None;
            assert(state@ =~= menu_key_spec(old(state)@, old(state)@.context_menu->0, key));
        },
        Key::Up => move_menu(state, true),
        Key::Down => move_menu(state, false),
        Key::Char(c) => {
            if c == 'k' {
                move_menu(state, true);
            } else if c == 'j' {
                move_menu(state, false);
            }
        },
        Key::Enter => {
            let item = match &state.context_menu {
                Some(m) => context_menu_selected_item(m),
                None => ContextMenuItem::Inspect,
            };
            if item == ContextMenuItem::Exec {
                state.context_menu = None;
                state.execution_prompt = None;
                assert(state@ =~= closed(old(state)@));
                open_exec_picker(state);
            } else {
                apply_mouse_action(state, MouseAction::ContextMenuClick { item });
            }
        },
        _ => {},
    }
}

fn pop_filter(state: &mut DashboardState)
    requires
        old(state).wf(),
    ensures
        final(state).wf(),
        final(state)@ == (DashView { filter: pop_last(old(state)@.filter), ..old(state)@ }),
{
    state.filter = pop_string(&state.filter);
    assert(state@ =~= DashView { filter: pop_last(old(state)@.filter), ..old(state)@ });
}

fn push_filter(state: &mut DashboardState, c: char)
    requires
        old(state).wf(),
    ensures
        final(state).wf(),
        final(state)@ == (DashView { filter: old(state)@.filter.push(c), ..old(state)@ }),
{
    let mut f = state.filter.clone();
    crate::text::push_char(&mut f, c);
    state.filter = f;
    assert(state@ =~= DashView { filter: old(state)@.filter.push(c), ..old(state)@ });
}

fn char_key(state: &mut DashboardState, c: char) -> (r: KeyOutcome)
    requires
        old(state).wf(),
    ensures
        final(state).wf(),
        (final(state)@, r) == char_key_spec(old(state)@, c),
{
    if c == 'q' {
        KeyOutcome::Quit
    } else if c == 'j' {
        state.next();
        KeyOutcome::Continue
    } else if c == 'k' {
        state.previous();
        KeyOutcome::Continue
    } else if c == ' ' {
        state.toggle_selected();
        KeyOutcome::Continue
    } else if c == 'a' {
        state.toggle_all();
        KeyOutcome::Continue
    } else if c == 'c' {
        state.clear_selection();
        KeyOutcome::Continue
    } else if c == 'r' {
        KeyOutcome::Refresh
    } else if c == 'x' {
        state.running_only = !state.running_only;
        state.rebuild_filtered();
        KeyOutcome::Continue
    } else if c == 'o' {
        state.sort_mode = match state.sort_mode {
            SortMode::Severity => SortMode::NameAsc,
            SortMode::NameAsc => SortMode::ActiveDesc,
            SortMode::ActiveDesc => SortMode::Severity,
        };
        state.rebuild_filtered();
        KeyOutcome::Continue
    } else if c == '/' {
        state.status = owned("输入过滤字符；退格删除，Enter 确认，Esc 清空。");
        assert(state@ =~= char_key_spec(old(state)@, c).0);
        KeyOutcome::Continue
    } else if c == '1' {
        set_panel(state, TuiPanel::Plan(OperationAction::Start));
        KeyOutcome::Continue
    } else if c == '2' {
        set_panel(state, TuiPanel::Plan(OperationAction::Stop));
        KeyOutcome::Continue
    } else if c == '3' {
        set_panel(state, TuiPanel::Plan(OperationAction::Restart));
        KeyOutcome::Continue
    } else if c == '4' {
        set_panel(state, TuiPanel::Plan(OperationAction::Remove));
        KeyOutcome::Continue
    } else if c == '5' {
        set_panel(state, TuiPanel::Plan(OperationAction::Purge));
        KeyOutcome::Continue
    } else if c == 'b' {
        set_panel(state, TuiPanel::Inbox);
        KeyOutcome::Continue
    } else if c == 'd' {
        set_panel(state, TuiPanel::Doctor);
        KeyOutcome::Continue
    } else if c == 'l' {
        set_panel(state, TuiPanel::Logs);
        KeyOutcome::Continue
    } else if c == 'e' {
        open_exec_picker(state);
        KeyOutcome::Continue
    } else if c == 'n' && state.panel == TuiPanel::Logs {
        shift_log_container(state, false);
        KeyOutcome::Continue
    } else if c == 'p' && state.panel == TuiPanel::Logs {
        shift_log_container(state, true);
        KeyOutcome::Continue
    } else if c == 'm' {
        set_panel(state, TuiPanel::Resources);
        KeyOutcome::Continue
    } else if c == ':' {
        set_panel(state, TuiPanel::CommandPalette);
        KeyOutcome::Continue
    } else if c == 'u' {
        let hint = current_project_update_hint(state.current_project());
        state.panel = TuiPanel::Plan(OperationAction::Restart);
        state.status = hint;
        assert(state@ =~= char_key_spec(old(state)@, c).0);
        KeyOutcome::Continue
    } else if c == 'i' {
        set_panel(state, TuiPanel::Detail);
        KeyOutcome::Continue
    } else if c == 'h' || c == '?' {
        set_panel(state, TuiPanel::Help);
        KeyOutcome::Continue
    } else if !is_control(c) {
        push_filter(state, c);
        state.rebuild_filtered();
        KeyOutcome::Continue
    } else {
        KeyOutcome::Continue
    }
}

/// Applies a key press to the dashboard and says what the application
/// should do next (see `key_spec`).
pub fn handle_key(state: &mut DashboardState, key: Key) -> (r: KeyOutcome)
    requires
        old(state).wf(),
    ensures
        final(state).wf(),
        (final(state)@, r) == key_spec(old(state)@, key),
{
    if state.execution_prompt.is_some() {
        return prompt_key(state, key);
    }
    if state.exec_container_index.is_some() {
        return picker_key(state, key);
    }
    if state.context_menu.is_some() {
        menu_key(state, key);
        return KeyOutcome::Continue;
    }
    match key {
        Key::Esc => KeyOutcome::Quit,
        Key::Down => {
            state.next();
            KeyOutcome::Continue
        },
        Key::Up => {
            state.previous();
            KeyOutcome::Continue
        },
        Key::Backspace => {
            pop_filter(state);
            state.rebuild_filtered();
            KeyOutcome::Continue
        },
        Key::Enter => {
            match state.panel {
                TuiPanel::Plan(_) => begin_execution_prompt(state),
                _ => set_panel(state, TuiPanel::Plan(OperationAction::Stop)),
            }
            KeyOutcome::Continue
        },
        Key::Char(c) => char_key(state, c),
        Key::Other => KeyOutcome::Continue,
    }
}


// ---------------------------------------------------------------------------
// Panel texts
// ---------------------------------------------------------------------------

pub open spec fn detail_container_lines(cs: Seq<crate::domain::ContainerView>) -> Seq<char>
    decreases cs.len(),
{
    if cs.len() == 0 {
        Seq::empty()
    } else {
        let c = cs.last();
        detail_container_lines(cs.drop_last()) + "- "@ + c.name + " ["@ + crate::domain::state_code_spec(
            c.state,
        ) + "] "@ + c.image + "\n  "@ + c.status + "\n"@
    }
}

/// The detail panel: the highlighted project's kind, state, counts and
/// resources, then one entry per container.
pub open spec fn detail_spec(v: DashView) -> Seq<char> {
    match current_spec(v) {
        None => "No project matches current filter."@,
        Some(p) => p.name + "\nkind: "@ + crate::output::kind_name(p.kind) + "\nstate: "@
            + project_code_spec(p) + "\ncontainers: "@ + decimal(p.containers.len()) + " active:"@
            + decimal(active_spec(p) as nat) + " stopped:"@ + decimal(p.stopped as nat)
            + "\nnetworks: "@ + join_with(p.networks, ", "@) + "\nvolumes: "@ + join_with(
            p.volumes,
            ", "@,
        ) + "\nimages: "@ + join_with(p.images, ", "@) + "\nports: "@ + join_with(
            p.ports,
            ", "@,
        ) + "\n\n"@ + detail_container_lines(p.containers),
    }
}

fn push_usize(s: &mut String, n: usize)
    ensures
        final(s)@ == old(s)@ + decimal(n as nat),
{
    let d = decimal_string(n as u128);
    push_str(s, d.as_str());
}

fn push_joined(s: &mut String, items: &Vec<String>)
    ensures
        final(s)@ == old(s)@ + join_with(strs(items@), ", "@),
{
    let j = join_strings_with(items, ", ");
    push_str(s, j.as_str());
}

pub fn detail_text(state: &DashboardState) -> (r: String)
    requires
        state.wf(),
    ensures
        r@ == detail_spec(state@),
{
    let project = match state.current_project() {
        Some(p) => p,
        None => return owned("No project matches current filter."),
    };
    proof {
        let i = state.selected_row->0;
        assert(pviews(state.filtered@)[i as int] == project@);
        assert(counts_fit(project@));
    }
    let mut s = project.name.clone();
    push_str(&mut s, "\nkind: ");
    push_str(&mut s, match project.kind {
        ProjectKind::Compose => "Compose",
        ProjectKind::Stack => "Stack",
        ProjectKind::Standalone => "Standalone",
    });
    push_str(&mut s, "\nstate: ");
    push_str(&mut s, project.state_code());
    push_str(&mut s, "\ncontainers: ");
    push_usize(&mut s, project.containers.len());
    push_str(&mut s, " active:");
    push_usize(&mut s, project.active());
    push_str(&mut s, " stopped:");
    push_usize(&mut s, project.stopped);
    push_str(&mut s, "\nnetworks: ");
    push_joined(&mut s, &project.networks);
    push_str(&mut s, "\nvolumes: ");
    push_joined(&mut s, &project.volumes);
    push_str(&mut s, "\nimages: ");
    push_joined(&mut s, &project.images);
    push_str(&mut s, "\nports: ");
    push_joined(&mut s, &project.ports);
    push_str(&mut s, "\n\n");
    let ghost head = s@;
    let ghost cs = project@.containers;
    let mut i: usize = 0;
    assert(cs.take(0) =~= Seq::<crate::domain::ContainerView>::empty());
    while i < project.containers.len()
        invariant
            i <= project.containers@.len(),
            cs == project@.containers,
            cs == cviews(project.containers@),
            s@ == head + detail_container_lines(cs.take(i as int)),
        decreases project.containers.len() - i,
    {
        assert(cs.take(i + 1).drop_last() =~= cs.take(i as int));
        let c = &project.containers[i];
        push_str(&mut s, "- ");
        push_str(&mut s, c.name.as_str());
        push_str(&mut s, " [");
        push_str(&mut s, c.state.state_code());
        push_str(&mut s, "] ");
        push_str(&mut s, c.image.as_str());
        push_str(&mut s, "\n  ");
        push_str(&mut s, c.status.as_str());
        push_str(&mut s, "\n");
        i += 1;
    }
    assert(cs.take(i as int) =~= cs);
    assert(s@ =~= detail_spec(state@));
    s
}

pub open spec fn log_container_lines(cs: Seq<crate::domain::ContainerView>) -> Seq<char>
    decreases cs.len(),
{
    if cs.len() == 0 {
        Seq::empty()
    } else {
        let c = cs.last();
        log_container_lines(cs.drop_last()) + "- "@ + c.name + " ["@ + crate::domain::state_code_spec(
            c.state,
        ) + "] "@ + c.status + "\n"@
    }
}

/// The container a project's commands aim at: its first container, or the
/// project itself when it has none.
pub open spec fn first_target(p: ProjectView) -> Seq<char> {
    if p.containers.len() > 0 {
        p.containers[0].id
    } else {
        p.name
    }
}

/// The log panel: the project, the filter, the keys and the command to
/// follow the logs, then one entry per container.
pub open spec fn logs_spec(v: DashView) -> Seq<char> {
    match current_spec(v) {
        None => "Log Lens\nNo project matches current filter."@,
        Some(p) => "Log Lens\nproject: "@ + p.name + "\ncontainers: "@ + decimal(p.containers.len())
            + "\ntail: 200 lines\nfilter: "@ + (if v.filter.len() == 0 {
            "none"@
        } else {
            v.filter
        }) + "\nmode: container-switch + keyword-highlight\n\ncontrols\nl: open this panel\n/: update shared filter\nn/p: switch container\nerror/warn: highlighted in output plan\n\ncommands\nhugdocker logs "@
            + first_target(p) + " --tail 200\n"@ + log_container_lines(p.containers),
    }
}

fn first_target_exec(project: &Project) -> (r: String)
    ensures
        r@ == first_target(project@),
{
    if project.containers.len() > 0 {
        project.containers[0].id.clone()
    } else {
        project.name.clone()
    }
}

pub fn logs_text(state: &DashboardState) -> (r: String)
    ensures
        r@ == logs_spec(state@),
{
    let project = match state.current_project() {
        Some(p) => p,
        None => return owned("Log Lens\nNo project matches current filter."),
    };
    let target = first_target_exec(project);
    let mut s = owned("Log Lens\nproject: ");
    push_str(&mut s, project.name.as_str());
    push_str(&mut s, "\ncontainers: ");
    push_usize(&mut s, project.containers.len());
    push_str(&mut s, "\ntail: 200 lines\nfilter: ");
    if state.filter.as_str().is_empty() {
        push_str(&mut s, "none");
    } else {
        push_str(&mut s, state.filter.as_str());
    }
    push_str(
        &mut s,
        "\nmode: container-switch + keyword-highlight\n\ncontrols\nl: open this panel\n/: update shared filter\nn/p: switch container\nerror/warn: highlighted in output plan\n\ncommands\nhugdocker logs ",
    );
    push_str(&mut s, target.as_str());
    push_str(&mut s, " --tail 200\n");
    let ghost head = s@;
    let ghost cs = project@.containers;
    let mut i: usize = 0;
    assert(cs.take(0) =~= Seq::<crate::domain::ContainerView>::empty());
    while i < project.containers.len()
        invariant
            i <= project.containers@.len(),
            cs == project@.containers,
            cs == cviews(project.containers@),
            s@ == head + log_container_lines(cs.take(i as int)),
        decreases project.containers.len() - i,
    {
        assert(cs.take(i + 1).drop_last() =~= cs.take(i as int));
        let c = &project.containers[i];
        push_str(&mut s, "- ");
        push_str(&mut s, c.name.as_str());
        push_str(&mut s, " [");
        push_str(&mut s, c.state.state_code());
        push_str(&mut s, "] ");
        push_str(&mut s, c.status.as_str());
        push_str(&mut s, "\n");
        i += 1;
    }
    assert(cs.take(i as int) =~= cs);
    assert(s@ =~= logs_spec(state@));
    s
}

/// The resource panel: the project's counts and the commands that sample
/// its containers.
pub open spec fn resources_spec(v: DashView) -> Seq<char> {
    match current_spec(v) {
        None => "Resource Monitor\nNo project matches current filter."@,
        Some(p) => "Resource Monitor\nproject: "@ + p.name + "\ncontainers: "@ + decimal(
            p.containers.len(),
        ) + " total / "@ + decimal(active_spec(p) as nat)
            + " active\nCPU: use hugdocker stats for live sample\nMEM: use hugdocker stats for live sample\nNET: "@
            + decimal(p.networks.len()) + " networks, "@ + decimal(p.ports.len())
            + " published ports\nIO: "@ + decimal(p.volumes.len()) + " volumes mounted\nimages: "@
            + join_with(p.images, ", "@) + "\n\ncommands\nhugdocker stats "@ + first_target(p)
            + "\nhugdocker stats "@ + first_target(p)
            + " --json\n\nnote: v0.4.0 feeds resource pressure and risk fingerprints into Ops Inbox.\n"@,
    }
}

pub fn resources_text(state: &DashboardState) -> (r: String)
    requires
        state.wf(),
    ensures
        r@ == resources_spec(state@),
{
    let project = match state.current_project() {
        Some(p) => p,
        None => return owned("Resource Monitor\nNo project matches current filter."),
    };
    proof {
        let i = state.selected_row->0;
        assert(pviews(state.filtered@)[i as int] == project@);
    }
    let target = first_target_exec(project);
    let mut s = owned("Resource Monitor\nproject: ");
    push_str(&mut s, project.name.as_str());
    push_str(&mut s, "\ncontainers: ");
    push_usize(&mut s, project.containers.len());
    push_str(&mut s, " total / ");
    push_usize(&mut s, project.active());
    push_str(
        &mut s,
        " active\nCPU: use hugdocker stats for live sample\nMEM: use hugdocker stats for live sample\nNET: ",
    );
    push_usize(&mut s, project.networks.len());
    push_str(&mut s, " networks, ");
    push_usize(&mut s, project.ports.len());
    push_str(&mut s, " published ports\nIO: ");
    push_usize(&mut s, project.volumes.len());
    push_str(&mut s, " volumes mounted\nimages: ");
    push_joined(&mut s, &project.images);
    push_str(&mut s, "\n\ncommands\nhugdocker stats ");
    push_str(&mut s, target.as_str());
    push_str(&mut s, "\nhugdocker stats ");
    push_str(&mut s, target.as_str());
    push_str(
        &mut s,
        " --json\n\nnote: v0.4.0 feeds resource pressure and risk fingerprints into Ops Inbox.\n",
    );
    assert(s@ =~= resources_spec(state@));
    s
}

/// The container the command palette aims at: the log panel's container
/// (the last one when the index is past the end), or the project itself
/// when it has no container.
pub open spec fn palette_target(p: ProjectView, log_index: usize) -> Seq<char> {
    if p.containers.len() > 0 {
        let k = if log_index < p.containers.len() {
            log_index as int
        } else {
            p.containers.len() - 1
        };
        p.containers[k].id
    } else {
        p.name
    }
}

/// The index of the log panel's container among `n`: the chosen one, the
/// last one when the index is past the end, 0 when there is none.
pub open spec fn log_index_spec(n: nat, log_index: usize) -> int {
    if log_index < n {
        log_index as int
    } else if n > 0 {
        n - 1
    } else {
        0
    }
}

/// The log panel's choice for a project: the index of the container shown
/// (the last one when the index is past the end), its number counted from 1
/// (0 when the project has no container), and the target of the log command
/// (that container's id, or the project's name when it has none).
pub fn log_selection(project: &Project, log_index: usize) -> (r: (usize, usize, String))
    ensures
        r.0 == log_index_spec(project@.containers.len(), log_index),
        r.1 == if project@.containers.len() == 0 {
            0
        } else {
            r.0 + 1
        },
        r.2@ == palette_target(project@, log_index),
{
    let n = project.containers.len();
    assert(project@.containers.len() == n);
    if n == 0 {
        (0, 0, project.name.clone())
    } else {
        let k = if log_index < n {
            log_index
        } else {
            n - 1
        };
        assert(project@.containers[k as int] == project.containers@[k as int]@);
        (k, k + 1, project.containers[k].id.clone())
    }
}

/// The command palette: the keys for the highlighted project and their
/// command-line equivalents.
pub open spec fn palette_spec(v: DashView) -> Seq<char> {
    match current_spec(v) {
        None => "Command Palette\nNo project matches current filter."@,
        Some(p) => {
            let t = palette_target(p, v.log_container_index);
            "Command Palette\n\ntarget project: "@ + p.name
                + "\n\nFast actions\n  e                open exec container picker\n  u                update plan: pull -> restart -> doctor\n  1/2/3            start / stop / restart plan\n  d/l/m            doctor / logs / resources\n\nCLI equivalents\n  hugdocker logs "@
                + t + " --tail 200 --follow\n  hugdocker logs "@ + t
                + " --filter error\n  hugdocker compose "@ + p.name
                + " pull --dry-run\n  hugdocker update "@ + p.name
                + " --dry-run\n  hugdocker doctor --json | jq '.projects[] | select(.project==\""@
                + p.name + "\")'"@
        },
    }
}

pub fn command_palette_text(state: &DashboardState) -> (r: String)
    ensures
        r@ == palette_spec(state@),
{
    let project = match state.current_project() {
        Some(p) => p,
        None => return owned("Command Palette\nNo project matches current filter."),
    };
    let n = project.containers.len();
    let target = if n > 0 {
        let k = if state.log_container_index < n {
            state.log_container_index
        } else {
            n - 1
        };
        project.containers[k].id.clone()
    } else {
        project.name.clone()
    };
    let mut s = owned("Command Palette\n\ntarget project: ");
    push_str(&mut s, project.name.as_str());
    push_str(
        &mut s,
        "\n\nFast actions\n  e                open exec container picker\n  u                update plan: pull -> restart -> doctor\n  1/2/3            start / stop / restart plan\n  d/l/m            doctor / logs / resources\n\nCLI equivalents\n  hugdocker logs ",
    );
    push_str(&mut s, target.as_str());
    push_str(&mut s, " --tail 200 --follow\n  hugdocker logs ");
    push_str(&mut s, target.as_str());
    push_str(&mut s, " --filter error\n  hugdocker compose ");
    push_str(&mut s, project.name.as_str());
    push_str(&mut s, " pull --dry-run\n  hugdocker update ");
    push_str(&mut s, project.name.as_str());
    push_str(&mut s, " --dry-run\n  hugdocker doctor --json | jq '.projects[] | select(.project==\"");
    push_str(&mut s, project.name.as_str());
    push_str(&mut s, "\")'");
    assert(s@ =~= palette_spec(state@));
    s
}


// ---------------------------------------------------------------------------
// Doctor panel
// ---------------------------------------------------------------------------

pub open spec fn at_most(s: Seq<FingerprintView>, n: nat) -> Seq<FingerprintView> {
    if s.len() <= n {
        s
    } else {
        s.take(n as int)
    }
}

/// The fingerprints with a positive score, in order.
pub open spec fn risky(fs: Seq<FingerprintView>) -> Seq<FingerprintView> {
    fs.filter(|f: FingerprintView| f.risk_score > 0)
}

pub open spec fn fingerprint_lines(fs: Seq<FingerprintView>) -> Seq<char>
    decreases fs.len(),
{
    if fs.len() == 0 {
        Seq::empty()
    } else {
        let f = fs.last();
        fingerprint_lines(fs.drop_last()) + "- "@ + f.project + " score="@ + decimal(
            f.risk_score as nat,
        ) + " signals="@ + join_with(f.signals, ", "@) + "\n  next: "@ + f.suggested_command
            + "\n"@
    }
}

pub open spec fn status_name(st: HealthStatus) -> Seq<char> {
    match st {
        HealthStatus::Healthy => "Healthy"@,
        HealthStatus::Warning => "Warning"@,
        HealthStatus::Critical => "Critical"@,
    }
}

pub open spec fn prefixed_lines(prefix: Seq<char>, items: Seq<Seq<char>>) -> Seq<char>
    decreases items.len(),
{
    if items.len() == 0 {
        Seq::empty()
    } else {
        prefixed_lines(prefix, items.drop_last()) + prefix + items.last() + "\n"@
    }
}

pub open spec fn health_lines(ps: Seq<ProjectView>) -> Seq<char>
    decreases ps.len(),
{
    if ps.len() == 0 {
        Seq::empty()
    } else {
        let p = ps.last();
        let fs = findings_spec(p);
        health_lines(ps.drop_last()) + status_name(status_spec(p, fs)) + " "@ + p.name + "\n"@
            + prefixed_lines("  - "@, fs)
    }
}

/// The doctor panel: up to five fingerprints with a positive score, then
/// each project's status and findings, then the global findings; a calm
/// line when there is nothing to say.
pub open spec fn doctor_spec(
    fps: Seq<FingerprintView>,
    ps: Seq<ProjectView>,
    globals: Seq<Seq<char>>,
) -> Seq<char> {
    let top = at_most(risky(fps), 5);
    let text = (if top.len() > 0 {
        "Risk Fingerprints\n"@ + fingerprint_lines(top) + "\n"@
    } else {
        Seq::empty()
    }) + health_lines(ps) + prefixed_lines("global: "@, globals);
    if text.len() == 0 {
        "No obvious risk found."@
    } else {
        text
    }
}

fn push_prefixed(s: &mut String, prefix: &str, items: &Vec<String>)
    ensures
        final(s)@ == old(s)@ + prefixed_lines(prefix@, strs(items@)),
{
    let ghost head = s@;
    let ghost its = strs(items@);
    let mut i: usize = 0;
    assert(its.take(0) =~= Seq::<Seq<char>>::empty());
    while i < items.len()
        invariant
            i <= items@.len(),
            its == strs(items@),
            s@ == head + prefixed_lines(prefix@, its.take(i as int)),
        decreases items.len() - i,
    {
        assert(its.take(i + 1).drop_last() =~= its.take(i as int));
        push_str(s, prefix);
        push_str(s, items[i].as_str());
        push_str(s, "\n");
        i += 1;
    }
    assert(its.take(i as int) =~= its);
}

fn status_name_exec(st: HealthStatus) -> (r: &'static str)
    ensures
        r@ == status_name(st),
{
    match st {
        HealthStatus::Healthy => "Healthy",
        HealthStatus::Warning => "Warning",
        HealthStatus::Critical => "Critical",
    }
}

pub fn doctor_text(snapshot: &DockerSnapshot) -> (r: String)
    requires
        all_counts_fit(snapshot@.projects),
        scores_fit(snapshot@.projects),
    ensures
        r@ == doctor_spec(
            sorted_fingerprints(
                Seq::new(
                    snapshot@.projects.len(),
                    |i: int| fingerprint_spec(snapshot@.projects, i),
                ),
            ),
            snapshot@.projects,
            global_spec(snapshot@),
        ),
{
    let fps = project_fingerprints(snapshot);
    let ghost fv = fviews(fps@);
    let ghost pred = |f: FingerprintView| f.risk_score > 0;
    let mut lines = String::new();
    let mut count: usize = 0;
    let mut i: usize = 0;
    proof {
        reveal(Seq::filter);
        assert(fv.take(0).filter(pred) =~= Seq::<FingerprintView>::empty());
    }
    while i < fps.len()
        invariant
            i <= fps@.len(),
            fv == fviews(fps@),
            pred == (|f: FingerprintView| f.risk_score > 0),
            count == at_most(fv.take(i as int).filter(pred), 5).len(),
            count <= 5,
            lines@ == fingerprint_lines(at_most(fv.take(i as int).filter(pred), 5)),
        decreases fps.len() - i,
    {
        let ghost before = fv.take(i as int).filter(pred);
        proof {
            reveal(Seq::filter);
            assert(fv.take(i + 1).drop_last() =~= fv.take(i as int));
        }
        if fps[i].risk_score > 0 {
            assert(fv.take(i + 1).filter(pred) == before.push(fv[i as int]));
            if count < 5 {
                assert(at_most(before.push(fv[i as int]), 5) =~= at_most(before, 5).push(
                    fv[i as int],
                ));
                assert(at_most(before, 5).push(fv[i as int]).drop_last() =~= at_most(before, 5));
                let f = &fps[i];
                push_str(&mut lines, "- ");
                push_str(&mut lines, f.project.as_str());
                push_str(&mut lines, " score=");
                let d = decimal_string(f.risk_score as u128);
                push_str(&mut lines, d.as_str());
                push_str(&mut lines, " signals=");
                push_joined(&mut lines, &f.signals);
                push_str(&mut lines, "\n  next: ");
                push_str(&mut lines, f.suggested_command.as_str());
                push_str(&mut lines, "\n");
                count += 1;
            } else {
                assert(at_most(before.push(fv[i as int]), 5) =~= at_most(before, 5));
            }
        } else {
            assert(fv.take(i + 1).filter(pred) == before);
        }
        i += 1;
    }
    assert(fv.take(i as int) =~= fv);
    let mut text = String::new();
    if count > 0 {
        push_str(&mut text, "Risk Fingerprints\n");
        push_str(&mut text, lines.as_str());
        push_str(&mut text, "\n");
    }
    let ghost head = text@;
    let reports = analyze_snapshot(snapshot);
    let ghost ps = snapshot@.projects;
    let mut k: usize = 0;
    assert(ps.take(0) =~= Seq::<ProjectView>::empty());
    while k < reports.len()
        invariant
            k <= reports@.len(),
            reports@.len() == ps.len(),
            ps == snapshot@.projects,
            forall|j: int|
                0 <= j < reports@.len() ==> {
                    &&& (#[trigger] reports@[j]).project@ == ps[j].name
                    &&& strs(reports@[j].findings@) == findings_spec(ps[j])
                    &&& reports@[j].status == status_spec(ps[j], findings_spec(ps[j]))
                },
            text@ == head + health_lines(ps.take(k as int)),
        decreases reports.len() - k,
    {
        assert(ps.take(k + 1).drop_last() =~= ps.take(k as int));
        let h = &reports[k];
        push_str(&mut text, status_name_exec(h.status));
        push_str(&mut text, " ");
        push_str(&mut text, h.project.as_str());
        push_str(&mut text, "\n");
        push_prefixed(&mut text, "  - ", &h.findings);
        k += 1;
    }
    assert(ps.take(k as int) =~= ps);
    let globals = global_findings(snapshot);
    push_prefixed(&mut text, "global: ", &globals);
    if text.as_str().is_empty() {
        owned("No obvious risk found.")
    } else {
        text
    }
}


fn copy_fingerprint(f: &ProjectFingerprint) -> (r: ProjectFingerprint)
    ensures
        r@ == f@,
{
    ProjectFingerprint {
        project: f.project.clone(),
        risk_score: f.risk_score,
        signals: crate::domain::copy_strings(&f.signals),
        suggested_command: f.suggested_command.clone(),
    }
}

/// The first five fingerprints with a positive score, in order: those the
/// doctor and health reports show.
pub fn top_risky_fingerprints(fps: &Vec<ProjectFingerprint>) -> (r: Vec<ProjectFingerprint>)
    ensures
        fviews(r@) == at_most(risky(fviews(fps@)), 5),
{
    let ghost fv = fviews(fps@);
    let ghost pred = |f: FingerprintView| f.risk_score > 0;
    let mut out: Vec<ProjectFingerprint> = Vec::new();
    let mut i: usize = 0;
    proof {
        reveal(Seq::filter);
        assert(fv.take(0).filter(pred) =~= Seq::<FingerprintView>::empty());
        assert(fviews(out@) =~= at_most(fv.take(0).filter(pred), 5));
    }
    while i < fps.len()
        invariant
            i <= fps@.len(),
            fv == fviews(fps@),
            pred == (|f: FingerprintView| f.risk_score > 0),
            fviews(out@) == at_most(fv.take(i as int).filter(pred), 5),
            out@.len() <= 5,
        decreases fps.len() - i,
    {
        let ghost before = fv.take(i as int).filter(pred);
        proof {
            reveal(Seq::filter);
            assert(fv.take(i + 1).drop_last() =~= fv.take(i as int));
        }
        if fps[i].risk_score > 0 {
            assert(fv.take(i + 1).filter(pred) == before.push(fv[i as int]));
            if out.len() < 5 {
                assert(at_most(before.push(fv[i as int]), 5) =~= at_most(before, 5).push(
                    fv[i as int],
                ));
                let c = copy_fingerprint(&fps[i]);
                out.push(c);
                assert(fviews(out@) =~= at_most(before, 5).push(fv[i as int]));
            } else {
                assert(at_most(before.push(fv[i as int]), 5) =~= at_most(before, 5));
            }
        } else {
            assert(fv.take(i + 1).filter(pred) == before);
        }
        i += 1;
    }
    assert(fv.take(i as int) =~= fv);
    out
}


// ---------------------------------------------------------------------------
// Mouse hit-testing
// ---------------------------------------------------------------------------

pub const HEADER_ROWS: u16 = 3;
pub const METRIC_ROWS: u16 = 5;
pub const FOOTER_ROWS: u16 = 3;
pub const PROJECT_HEADER_ROWS: u16 = 2;
pub const CONTEXT_MENU_WIDTH: u16 = 36;
pub const MIN_TUI_WIDTH: u16 = 90;
pub const MIN_TUI_HEIGHT: u16 = 22;

/// A mouse event, as far as the dashboard tells them apart.
#[derive(Debug, Clone, Copy, PartialEq, Eq, Structural)]
pub enum MouseKind {
    LeftDown,
    RightDown,
    OtherDown,
    Moved,
    Drag,
    ScrollUp,
    ScrollDown,
    Other,
}

/// The terminal is too small for the dashboard.
pub open spec fn compact_spec(cols: u16, rows: u16) -> bool {
    cols < MIN_TUI_WIDTH || rows < MIN_TUI_HEIGHT
}

pub fn is_compact_terminal_size(cols: u16, rows: u16) -> (r: bool)
    ensures
        r == compact_spec(cols, rows),
{
    cols < MIN_TUI_WIDTH || rows < MIN_TUI_HEIGHT
}

pub open spec fn min_int(a: int, b: int) -> int {
    if a < b {
        a
    } else {
        b
    }
}

pub open spec fn max_int(a: int, b: int) -> int {
    if a > b {
        a
    } else {
        b
    }
}

/// The context menu's box on a `cols` x `rows` screen: at the click, moved
/// left and up as far as needed to fit, at most 36 wide and 13 high
/// (`x`, `y`, `width`, `height`).
pub open spec fn menu_rect_spec(cols: u16, rows: u16, mx: u16, my: u16) -> (int, int, int, int) {
    let width = min_int(CONTEXT_MENU_WIDTH as int, max_int(cols as int, 1));
    let height = min_int(menu_items().len() + 2 as int, max_int(rows as int, 1));
    let max_x = max_int(cols - width, 0);
    let max_y = max_int(rows - height, 0);
    (min_int(mx as int, max_x), min_int(my as int, max_y), width, height)
}

/// The menu entry under the pointer: inside the box's border, the row
/// below the top border picks the entry.
pub open spec fn menu_item_at_spec(cols: u16, rows: u16, m: MenuView, column: u16, row: u16) -> Option<
    ContextMenuItem,
> {
    let (x, y, w, h) = menu_rect_spec(cols, rows, m.x, m.y);
    if column <= x || column >= x + max_int(w - 1, 0) || row <= y || row >= y + max_int(h - 1, 0) {
        None
    } else {
        let k = row - (y + 1);
        if k < menu_items().len() {
            Some(menu_items()[k])
        } else {
            None
        }
    }
}

/// The context menu's box on a `cols` x `rows` screen (`x`, `y`, `width`,
/// `height`; see `menu_rect_spec`).
pub fn context_menu_rect(cols: u16, rows: u16, menu: &ContextMenuState) -> (r: (u16, u16, u16, u16))
    ensures
        (r.0 as int, r.1 as int, r.2 as int, r.3 as int) == menu_rect_spec(cols, rows, menu.x, menu.y),
{
    let width: u16 = if cols > CONTEXT_MENU_WIDTH {
        CONTEXT_MENU_WIDTH
    } else if cols > 1 {
        cols
    } else {
        1
    };
    let height: u16 = if rows > 13 {
        13
    } else if rows > 1 {
        rows
    } else {
        1
    };
    let max_x: u16 = if cols > width {
        cols - width
    } else {
        0
    };
    let max_y: u16 = if rows > height {
        rows - height
    } else {
        0
    };
    let x = if menu.x < max_x {
        menu.x
    } else {
        max_x
    };
    let y = if menu.y < max_y {
        menu.y
    } else {
        max_y
    };
    (x, y, width, height)
}

pub fn context_menu_item_at(cols: u16, rows: u16, menu: &ContextMenuState, column: u16, row: u16) -> (r:
    Option<ContextMenuItem>)
    ensures
        r == menu_item_at_spec(cols, rows, menu_view(Some(*menu))->0, column, row),
{
    let (x, y, width, height) = context_menu_rect(cols, rows, menu);
    let right: u32 = x as u32 + (width - 1) as u32;
    let bottom: u32 = y as u32 + (height - 1) as u32;
    if column <= x || column as u32 >= right || row <= y || row as u32 >= bottom {
        return None;
    }
    let k = (row - (y + 1)) as usize;
    let items = context_menu_items();
    if k < items.len() {
        Some(items[k])
    } else {
        None
    }
}

/// The project row under the pointer: inside the main area (below the
/// header and metric rows, above the footer), in the left 48 percent, below
/// the table's header, and within the listed projects.
pub open spec fn project_row_spec(cols: u16, rows: u16, column: u16, row: u16, visible: usize) -> Option<
    usize,
> {
    if rows <= HEADER_ROWS + METRIC_ROWS + FOOTER_ROWS {
        None
    } else {
        let main_y = HEADER_ROWS + METRIC_ROWS;
        let main_bottom = rows - FOOTER_ROWS;
        let left_width = max_int((cols as int * 48) / 100, 1);
        if row < main_y || row >= main_bottom || column >= left_width {
            None
        } else {
            let r = max_int(row - (main_y + PROJECT_HEADER_ROWS), 0);
            if r < visible {
                Some(r as usize)
            } else {
                None
            }
        }
    }
}

pub fn project_row_for_mouse(cols: u16, rows: u16, column: u16, row: u16, visible: usize) -> (r:
    Option<usize>)
    ensures
        r == project_row_spec(cols, rows, column, row, visible),
{
    if rows <= HEADER_ROWS + METRIC_ROWS + FOOTER_ROWS {
        return None;
    }
    let main_y = HEADER_ROWS + METRIC_ROWS;
    let main_bottom = rows - FOOTER_ROWS;
    let scaled: u32 = (cols as u32 * 48) / 100;
    let left_width: u32 = if scaled > 1 {
        scaled
    } else {
        1
    };
    if row < main_y || row >= main_bottom || column as u32 >= left_width {
        return None;
    }
    let top = main_y + PROJECT_HEADER_ROWS;
    let r: usize = if row > top {
        (row - top) as usize
    } else {
        0
    };
    if r < visible {
        Some(r)
    } else {
        None
    }
}

/// What a mouse event asks for: nothing on a compact terminal; with the
/// menu open, a left click picks the entry under the pointer or closes the
/// menu, and a move highlights the entry under it; the wheel scrolls; a
/// right click on a project row opens its menu (else closes an open menu);
/// a left click on a project row toggles it.
pub open spec fn mouse_action_spec(
    kind: MouseKind,
    column: u16,
    row: u16,
    cols: u16,
    rows: u16,
    visible: usize,
    menu: Option<MenuView>,
) -> Option<MouseAction> {
    if compact_spec(cols, rows) {
        None
    } else if kind == MouseKind::LeftDown && menu is Some {
        match menu_item_at_spec(cols, rows, menu->0, column, row) {
            Some(item) => Some(MouseAction::ContextMenuClick { item }),
            None => Some(MouseAction::CloseContextMenu),
        }
    } else if (kind == MouseKind::Moved || kind == MouseKind::Drag) && menu is Some {
        match menu_item_at_spec(cols, rows, menu->0, column, row) {
            Some(item) => Some(MouseAction::ContextMenuHover { item }),
            None => None,
        }
    } else {
        match kind {
            MouseKind::ScrollUp => Some(MouseAction::ScrollUp),
            MouseKind::ScrollDown => Some(MouseAction::ScrollDown),
            MouseKind::RightDown => match project_row_spec(cols, rows, column, row, visible) {
                Some(r) => Some(MouseAction::OpenContextMenu { row: r, x: column, y: row }),
                None => if menu is Some {
                    Some(MouseAction::CloseContextMenu)
                } else {
                    None
                },
            },
            MouseKind::LeftDown => match project_row_spec(cols, rows, column, row, visible) {
                Some(r) => Some(MouseAction::ProjectRowClick { row: r }),
                None => None,
            },
            _ => None,
        }
    }
}

pub fn mouse_action_for_event(
    kind: MouseKind,
    column: u16,
    row: u16,
    cols: u16,
    rows: u16,
    visible: usize,
    context_menu: Option<&ContextMenuState>,
) -> (r: Option<MouseAction>)
    ensures
        r == mouse_action_spec(
            kind,
            column,
            row,
            cols,
            rows,
            visible,
            match context_menu {
                Some(m) => menu_view(Some(*m)),
                None => None,
            },
        ),
{
    if is_compact_terminal_size(cols, rows) {
        return None;
    }
    if kind == MouseKind::LeftDown {
        if let Some(menu) = context_menu {
            return match context_menu_item_at(cols, rows, menu, column, row) {
                Some(item) => Some(MouseAction::ContextMenuClick { item }),
                None => Some(MouseAction::CloseContextMenu),
            };
        }
    }
    if kind == MouseKind::Moved || kind == MouseKind::Drag {
        if let Some(menu) = context_menu {
            return match context_menu_item_at(cols, rows, menu, column, row) {
                Some(item) => Some(MouseAction::ContextMenuHover { item }),
                None => None,
            };
        }
    }
    match kind {
        MouseKind::ScrollUp => Some(MouseAction::ScrollUp),
        MouseKind::ScrollDown => Some(MouseAction::ScrollDown),
        MouseKind::RightDown => match project_row_for_mouse(cols, rows, column, row, visible) {
            Some(r) => Some(MouseAction::OpenContextMenu { row: r, x: column, y: row }),
            None => if context_menu.is_some() {
                Some(MouseAction::CloseContextMenu)
            } else {
                None
            },
        },
        MouseKind::LeftDown => match project_row_for_mouse(cols, rows, column, row, visible) {
            Some(r) => Some(MouseAction::ProjectRowClick { row: r }),
            None => None,
        },
        _ => None,
    }
}


// ---------------------------------------------------------------------------
// Metrics and the exec picker's choice
// ---------------------------------------------------------------------------

pub open spec fn count_active_projects(ps: Seq<ProjectView>) -> nat
    decreases ps.len(),
{
    if ps.len() == 0 {
        0
    } else {
        count_active_projects(ps.drop_last()) + if active_spec(ps.last()) > 0 {
            1nat
        } else {
            0nat
        }
    }
}

pub open spec fn count_risky_projects(ps: Seq<ProjectView>) -> nat
    decreases ps.len(),
{
    if ps.len() == 0 {
        0
    } else {
        count_risky_projects(ps.drop_last()) + if ps.last().unhealthy > 0 || ps.last().restarting
            > 0 {
            1nat
        } else {
            0nat
        }
    }
}

/// The numbers on the dashboard's metric bar: projects, active projects,
/// projects with unhealthy or restarting containers, selected projects,
/// listed projects.
pub fn dashboard_metrics(state: &DashboardState) -> (r: (usize, usize, usize, usize, usize))
    requires
        state.wf(),
    ensures
        r.0 == state@.snapshot.projects.len(),
        r.1 == count_active_projects(state@.snapshot.projects),
        r.2 == count_risky_projects(state@.snapshot.projects),
        r.3 == state.selected@.len(),
        r.4 == state@.filtered.len(),
{
    let ghost ps = state@.snapshot.projects;
    let mut active: usize = 0;
    let mut risky: usize = 0;
    let mut i: usize = 0;
    while i < state.snapshot.projects.len()
        invariant
            i <= state.snapshot.projects@.len(),
            ps == state@.snapshot.projects,
            all_counts_fit(ps),
            active == count_active_projects(ps.take(i as int)),
            risky == count_risky_projects(ps.take(i as int)),
            active <= i,
            risky <= i,
        decreases state.snapshot.projects.len() - i,
    {
        assert(ps.take(i + 1).drop_last() =~= ps.take(i as int));
        let p = &state.snapshot.projects[i];
        assert(ps[i as int] == p@);
        assert(counts_fit(ps[i as int]));
        if p.active() > 0 {
            active += 1;
        }
        if p.unhealthy > 0 || p.restarting > 0 {
            risky += 1;
        }
        i += 1;
    }
    assert(ps.take(i as int) =~= ps);
    (state.snapshot.projects.len(), active, risky, state.selected.len(), state.filtered.len())
}

/// The container the exec picker points at: the highlighted candidate, or
/// the last one when the index is past the end.
pub open spec fn exec_choice_spec(v: DashView) -> Option<crate::domain::ContainerView> {
    match current_spec(v) {
        None => None,
        Some(p) => {
            let cands = exec_candidates(p);
            let i = match v.exec_container_index {
                Some(i) => i as int,
                None => 0,
            };
            let k = if cands.len() == 0 {
                0
            } else if i < cands.len() {
                i
            } else {
                cands.len() - 1
            };
            if k < cands.len() {
                Some(cands[k])
            } else {
                None
            }
        },
    }
}

pub fn current_exec_container(state: &DashboardState) -> (r: Option<Container>)
    ensures
        match r {
            Some(c) => exec_choice_spec(state@) == Some(c@),
            None => exec_choice_spec(state@) is None,
        },
{
    let project = match state.current_project() {
        Some(p) => p,
        None => return None,
    };
    let cands = active_exec_containers(project);
    let i = match state.exec_container_index {
        Some(i) => i,
        None => 0,
    };
    let n = cands.len();
    let k = if n == 0 {
        0
    } else if i < n {
        i
    } else {
        n - 1
    };
    if k < n {
        assert(cviews(cands@)[k as int] == cands@[k as int]@);
        Some(crate::domain::copy_container(&cands[k]))
    } else {
        None
    }
}

pub open spec fn exec_status_spec(name: Seq<char>, outcome: Result<Seq<char>, Seq<char>>) -> Seq<char> {
    match outcome {
        Ok(shell) => "已退出容器 shell: "@ + name + " ("@ + shell + ")"@,
        Err(e) => "无法执行 docker exec: "@ + e,
    }
}

/// After the shell in a container ends: the picker closes and the status
/// says which shell ran, or why none could.
pub fn exec_finished(state: &mut DashboardState, name: &str, outcome: Result<String, String>)
    requires
        old(state).wf(),
    ensures
        final(state).wf(),
        final(state)@ == (DashView {
            exec_container_index: None,
            status: exec_status_spec(
                name@,
                match outcome {
                    Ok(s) => Ok(s@),
                    Err(e) => Err(e@),
                },
            ),
            ..old(state)@
        }),
{
    let s = match &outcome {
        Ok(shell) => {
            let mut s = owned("已退出容器 shell: ");
            push_str(&mut s, name);
            push_str(&mut s, " (");
            push_str(&mut s, shell.as_str());
            push_str(&mut s, ")");
            s
        },
        Err(e) => {
            let mut s = owned("无法执行 docker exec: ");
            push_str(&mut s, e.as_str());
            s
        },
    };
    state.status = s;
    state.exec_container_index = None;
    assert(state@ =~= DashView {
        exec_container_index: None,
        status: exec_status_spec(
            name@,
            match outcome {
                Ok(s) => Ok(s@),
                Err(e) => Err(e@),
            },
        ),
        ..old(state)@
    });
}


// ---------------------------------------------------------------------------
// Tones: which colour of the theme a row or a line takes
// ---------------------------------------------------------------------------

/// The theme colour roles.
#[derive(Debug, Clone, Copy, PartialEq, Eq, Structural)]
pub enum Tone {
    Danger,
    Warning,
    Accent,
    Success,
    Muted,
}

/// A project's tone: unhealthy first, then restarting, paused, active,
/// idle.
pub open spec fn project_tone_spec(p: ProjectView) -> Tone {
    if p.unhealthy > 0 {
        Tone::Danger
    } else if p.restarting > 0 {
        Tone::Warning
    } else if p.paused > 0 {
        Tone::Accent
    } else if active_spec(p) > 0 {
        Tone::Success
    } else {
        Tone::Muted
    }
}

pub open spec fn risk_label_spec(p: ProjectView) -> Seq<char> {
    match project_tone_spec(p) {
        Tone::Danger => "HIGH"@,
        Tone::Warning => "LOOP"@,
        Tone::Accent => "PAUSE"@,
        Tone::Success => "LOW"@,
        Tone::Muted => "IDLE"@,
    }
}

/// The tone of a project row and its risk label.
pub fn project_risk(project: &Project) -> (r: (&'static str, Tone))
    requires
        counts_fit(project@),
    ensures
        r.0@ == risk_label_spec(project@),
        r.1 == project_tone_spec(project@),
{
    if project.unhealthy > 0 {
        ("HIGH", Tone::Danger)
    } else if project.restarting > 0 {
        ("LOOP", Tone::Warning)
    } else if project.paused > 0 {
        ("PAUSE", Tone::Accent)
    } else if project.active() > 0 {
        ("LOW", Tone::Success)
    } else {
        ("IDLE", Tone::Muted)
    }
}

pub open spec fn state_tone_spec(st: crate::domain::ContainerState) -> Tone {
    match st {
        crate::domain::ContainerState::Unhealthy | crate::domain::ContainerState::Restarting
        | crate::domain::ContainerState::Dead => Tone::Danger,
        crate::domain::ContainerState::Paused => Tone::Warning,
        crate::domain::ContainerState::Running => Tone::Success,
        _ => Tone::Muted,
    }
}

/// The tone of a container's state in the log panel.
pub fn log_state_tone(st: crate::domain::ContainerState) -> (r: Tone)
    ensures
        r == state_tone_spec(st),
{
    match st {
        crate::domain::ContainerState::Unhealthy | crate::domain::ContainerState::Restarting
        | crate::domain::ContainerState::Dead => Tone::Danger,
        crate::domain::ContainerState::Paused => Tone::Warning,
        crate::domain::ContainerState::Running => Tone::Success,
        _ => Tone::Muted,
    }
}

/// A status text's tone: errors, panics and unhealthy containers in the
/// danger colour, warnings and restarts in the warning colour (ASCII case
/// ignored).
pub open spec fn status_tone_spec(status: Seq<char>) -> Tone {
    let l = crate::text::lower_seq(status);
    if has_infix(l, "error"@) || has_infix(l, "panic"@) || has_infix(l, "unhealthy"@) {
        Tone::Danger
    } else if has_infix(l, "warn"@) || has_infix(l, "restart"@) {
        Tone::Warning
    } else {
        Tone::Muted
    }
}

pub fn log_status_tone(status: &str) -> (r: Tone)
    ensures
        r == status_tone_spec(status@),
{
    let l = crate::text::lower_of(status);
    if crate::text::contains_str(&l, "error") || crate::text::contains_str(&l, "panic")
        || crate::text::contains_str(&l, "unhealthy") {
        Tone::Danger
    } else if crate::text::contains_str(&l, "warn") || crate::text::contains_str(&l, "restart") {
        Tone::Warning
    } else {
        Tone::Muted
    }
}

} // verus!

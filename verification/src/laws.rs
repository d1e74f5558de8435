//! Properties of the library as a whole: what holds across its operations,
//! stated over the same models their contracts use.
use vstd::prelude::*;
use crate::cli::{decision_spec, ConfirmationDecision};
use crate::docker::{execution_steps_spec, StepView};
use crate::domain::{
    ContainerView, OperationAction, ProjectView, SortMode, grouped_from, members, group_of,
    names_of, project_before, sorted_by, insert_point, severity_spec, active_spec,
};
use crate::config::GroupConfig;
use crate::health::{
    findings_spec, container_findings, containers_findings, public_findings, risk_findings,
    anon_findings,
    FingerprintView, fingerprint_before, fingerprint_spec, fp_insert_point, sorted_fingerprints,
};
use crate::ops::{
    OperationPlan, is_plan, selected, touched_ids, ids_of, networks_of, volumes_of, images_of,
    token_spec, touched_networks, touched_volumes, touched_images,
};
use crate::sorted::{strs, is_sorted_set_of, lemma_sorted_set_unique, lemma_sorted_no_dup};
use crate::text::{has_prefix, decimal, digit_char, lex_lt, lemma_lex_asymmetric, lemma_lex_transitive, lemma_lex_irreflexive};
use crate::tui::{
    DashView, mouse_spec, MouseAction, push_token_spec, pop_token_spec, toggle_selected_spec,
    rebuild_spec, pnames, next_spec, destructive,
};

verus! {

// ---------------------------------------------------------------------------
// Confirmation and destructive operations
// ---------------------------------------------------------------------------

/// Every destructive plan (remove, purge, prune) carries a confirmation
/// token; the others carry none.
pub proof fn law_destructive_plans_need_a_token(action: OperationAction, names: Seq<Seq<char>>)
    ensures
        destructive(action) <==> token_spec(action, names) is Some,
{
}

/// On the command line, `--yes` never stands in for the token of a purge or
/// a prune: without a given token such a plan is refused.
pub proof fn law_yes_does_not_bypass_purge_or_prune(
    action: OperationAction,
    token: Seq<char>,
    yes: bool,
)
    requires
        action == OperationAction::Purge || action == OperationAction::Prune,
    ensures
        decision_spec(action, Some(token), yes, None) is Err
            || decision_spec(action, Some(token), yes, None) == Ok::<
            ConfirmationDecision,
            Seq<char>,
        >(ConfirmationDecision::Prompt),
        yes ==> decision_spec(action, Some(token), yes, None) is Err,
{
}

/// A plan with a token runs only when exactly that token is given, or when
/// `--yes` is given for an action other than purge and prune.
pub proof fn law_execution_needs_matching_token(
    action: OperationAction,
    token: Seq<char>,
    yes: bool,
    given: Option<Seq<char>>,
)
    ensures
        decision_spec(action, Some(token), yes, given) == Ok::<ConfirmationDecision, Seq<char>>(
            ConfirmationDecision::Execute,
        ) <==> (given == Some(token) || (given is None && yes && action != OperationAction::Purge
            && action != OperationAction::Prune)),
{
}

/// A dry run makes no engine call.
pub proof fn law_dry_run_touches_nothing(
    action: OperationAction,
    containers: Seq<Seq<char>>,
    volumes: Seq<Seq<char>>,
    images: Seq<Seq<char>>,
)
    ensures
        execution_steps_spec(action, true, containers, volumes, images).len() == 0,
{
}

/// Safe-prune removes only stopped containers, unused networks and dangling
/// images, through the engine's prune calls: it never names a volume.
pub proof fn law_prune_never_names_a_volume(
    containers: Seq<Seq<char>>,
    volumes: Seq<Seq<char>>,
    images: Seq<Seq<char>>,
)
    ensures
        execution_steps_spec(OperationAction::Prune, false, containers, volumes, images) == seq![
            StepView::PruneContainers,
            StepView::PruneNetworks,
            StepView::PruneDanglingImages,
        ],
{
}

proof fn lemma_remove_purge_sets(sel: Seq<ProjectView>)
    ensures
        ids_of(sel, OperationAction::Remove) == ids_of(sel, OperationAction::Purge),
        networks_of(sel, OperationAction::Remove) == networks_of(sel, OperationAction::Purge),
        volumes_of(sel, OperationAction::Remove) == Set::<Seq<char>>::empty(),
        images_of(sel, OperationAction::Remove) == Set::<Seq<char>>::empty(),
    decreases sel.len(),
{
    if sel.len() > 0 {
        lemma_remove_purge_sets(sel.drop_last());
        lemma_touched_ids_remove_purge(sel.last().containers);
        assert(volumes_of(sel, OperationAction::Remove) =~= Set::<Seq<char>>::empty());
        assert(images_of(sel, OperationAction::Remove) =~= Set::<Seq<char>>::empty());
    }
}

proof fn lemma_touched_ids_remove_purge(cs: Seq<ContainerView>)
    ensures
        touched_ids(cs, OperationAction::Remove) == touched_ids(cs, OperationAction::Purge),
    decreases cs.len(),
{
    if cs.len() > 0 {
        lemma_touched_ids_remove_purge(cs.drop_last());
    }
}

/// A purge removes exactly what a remove of the same projects removes (the
/// same containers and networks), and in addition their volumes and images,
/// which a remove keeps.
pub proof fn law_purge_extends_remove(
    remove: OperationPlan,
    purge: OperationPlan,
    ps: Seq<ProjectView>,
    names: Seq<Seq<char>>,
)
    requires
        is_plan(remove, ps, names, OperationAction::Remove),
        is_plan(purge, ps, names, OperationAction::Purge),
    ensures
        strs(purge.containers@) == strs(remove.containers@),
        strs(purge.networks@) == strs(remove.networks@),
        remove.volumes@.len() == 0,
        remove.images@.len() == 0,
        strs(purge.volumes@).to_set() == volumes_of(selected(ps, names), OperationAction::Purge),
        strs(purge.images@).to_set() == images_of(selected(ps, names), OperationAction::Purge),
{
    let sel = selected(ps, names);
    lemma_remove_purge_sets(sel);
    lemma_sorted_set_unique(strs(purge.containers@), strs(remove.containers@));
    lemma_sorted_set_unique(strs(purge.networks@), strs(remove.networks@));
    if remove.volumes@.len() > 0 {
        assert(strs(remove.volumes@).to_set().contains(strs(remove.volumes@)[0]));
    }
    if remove.images@.len() > 0 {
        assert(strs(remove.images@).to_set().contains(strs(remove.images@)[0]));
    }
}

proof fn lemma_prune_sets(sel: Seq<ProjectView>)
    ensures
        ids_of(sel, OperationAction::Prune) == Set::<Seq<char>>::empty(),
        networks_of(sel, OperationAction::Prune) == Set::<Seq<char>>::empty(),
        volumes_of(sel, OperationAction::Prune) == Set::<Seq<char>>::empty(),
        images_of(sel, OperationAction::Prune) == Set::<Seq<char>>::empty(),
    decreases sel.len(),
{
    if sel.len() > 0 {
        lemma_prune_sets(sel.drop_last());
        lemma_touched_ids_prune(sel.last().containers);
        assert(ids_of(sel, OperationAction::Prune) =~= Set::<Seq<char>>::empty());
        assert(networks_of(sel, OperationAction::Prune) =~= Set::<Seq<char>>::empty());
        assert(volumes_of(sel, OperationAction::Prune) =~= Set::<Seq<char>>::empty());
        assert(images_of(sel, OperationAction::Prune) =~= Set::<Seq<char>>::empty());
    }
}

proof fn lemma_touched_ids_prune(cs: Seq<ContainerView>)
    ensures
        touched_ids(cs, OperationAction::Prune) == Set::<Seq<char>>::empty(),
    decreases cs.len(),
{
    if cs.len() > 0 {
        lemma_touched_ids_prune(cs.drop_last());
        assert(touched_ids(cs, OperationAction::Prune) =~= Set::<Seq<char>>::empty());
    }
}

/// A prune plan lists no container, network, volume or image of its own:
/// what it removes is left to the engine's prune calls, and it needs the
/// token `PRUNE`.
pub proof fn law_prune_plan_lists_nothing(plan: OperationPlan, ps: Seq<ProjectView>, names: Seq<Seq<char>>)
    requires
        is_plan(plan, ps, names, OperationAction::Prune),
    ensures
        plan.containers@.len() == 0,
        plan.networks@.len() == 0,
        plan.volumes@.len() == 0,
        plan.images@.len() == 0,
        crate::ops::opt_chars(plan.confirmation_token) == Some("PRUNE"@),
{
    lemma_prune_sets(selected(ps, names));
    if plan.containers@.len() > 0 {
        assert(strs(plan.containers@).to_set().contains(strs(plan.containers@)[0]));
    }
    if plan.networks@.len() > 0 {
        assert(strs(plan.networks@).to_set().contains(strs(plan.networks@)[0]));
    }
    if plan.volumes@.len() > 0 {
        assert(strs(plan.volumes@).to_set().contains(strs(plan.volumes@)[0]));
    }
    if plan.images@.len() > 0 {
        assert(strs(plan.images@).to_set().contains(strs(plan.images@)[0]));
    }
}

// ---------------------------------------------------------------------------
// Dashboard
// ---------------------------------------------------------------------------

/// No mouse action opens an execution prompt, so the mouse alone never
/// executes anything: the prompt after a mouse action is closed or the one
/// that was open.
pub proof fn law_mouse_never_executes(v: DashView, action: MouseAction)
    ensures
        mouse_spec(v, action).execution_prompt is None || mouse_spec(v, action).execution_prompt
            == v.execution_prompt,
{
}

/// Deleting the character just typed into the token restores the prompt.
pub proof fn law_token_typing_undoes(v: DashView, c: char)
    ensures
        pop_token_spec(push_token_spec(v, c)) == v,
{
    match v.execution_prompt {
        Some((a, t)) => {
            assert(t.push(c).drop_last() =~= t);
            assert(pop_token_spec(push_token_spec(v, c)) =~= v);
        },
        None => {},
    }
}

/// Selecting the highlighted project twice leaves the selection as it was.
pub proof fn law_toggle_twice_restores(v: DashView)
    ensures
        toggle_selected_spec(toggle_selected_spec(v)) == v,
{
    match crate::tui::current_spec(v) {
        Some(p) => {
            let n = p.name;
            if v.selected.contains(n) {
                assert(v.selected.remove(n).insert(n) =~= v.selected);
            } else {
                assert(v.selected.insert(n).remove(n) =~= v.selected);
            }
            assert(toggle_selected_spec(toggle_selected_spec(v)) =~= v);
        },
        None => {},
    }
}

/// After the list is recomputed, only listed projects stay selected and the
/// highlighted row is in the list.
pub proof fn law_rebuild_keeps_selection_listed(v: DashView)
    ensures
        rebuild_spec(v).selected.subset_of(pnames(rebuild_spec(v).filtered).to_set()),
        rebuild_spec(v).selected.subset_of(v.selected),
        match rebuild_spec(v).selected_row {
            Some(i) => i < rebuild_spec(v).filtered.len(),
            None => rebuild_spec(v).filtered.len() == 0,
        },
{
}

/// Moving down never leaves the list.
pub proof fn law_next_stays_in_list(v: DashView)
    requires
        v.filtered.len() > 0,
    ensures
        next_spec(v).selected_row matches Some(i) && i < v.filtered.len(),
{
}


// ---------------------------------------------------------------------------
// Grouping containers into projects
// ---------------------------------------------------------------------------

/// Grouping puts every container into exactly one project (the one named
/// after its group) and invents none: a snapshot's projects partition the
/// listed containers.
pub proof fn law_each_container_in_exactly_one_project(
    ps: Seq<ProjectView>,
    cs: Seq<ContainerView>,
    g: GroupConfig,
    k: int,
)
    requires
        grouped_from(ps, cs, g),
        0 <= k < cs.len(),
    ensures
        exists|i: int|
            0 <= i < ps.len() && (#[trigger] ps[i]).containers.contains(cs[k]) && ps[i].name
                == group_of(cs[k], g),
        forall|i: int, j: int|
            0 <= i < ps.len() && 0 <= j < ps.len() && (#[trigger] ps[i]).containers.contains(cs[k])
                && (#[trigger] ps[j]).containers.contains(cs[k]) ==> i == j,
{
    let c = cs[k];
    let n = group_of(c, g);
    let f = |x: ContainerView| group_of(x, g);
    assert(cs.map_values(f)[k] == n);
    assert(crate::domain::group_names(cs, g).contains(n));
    assert(names_of(ps).to_set().contains(n));
    let i = choose|i: int| 0 <= i < names_of(ps).len() && names_of(ps)[i] == n;
    assert(crate::domain::is_project_for(ps[i], members(cs, ps[i].name, g), g));
    let pred = |x: ContainerView| group_of(x, g) == n;
    cs.lemma_filter_contains(pred, k);
    assert(members(cs, n, g) == cs.filter(pred));
    assert(ps[i].containers.contains(c));
    lemma_sorted_no_dup(names_of(ps));
    assert forall|a: int, b: int|
        0 <= a < ps.len() && 0 <= b < ps.len() && (#[trigger] ps[a]).containers.contains(c)
            && (#[trigger] ps[b]).containers.contains(c) implies a == b by {
        lemma_member_group(ps, cs, g, a, c);
        lemma_member_group(ps, cs, g, b, c);
        assert(names_of(ps)[a] == names_of(ps)[b]);
    }
}

/// How often `x` occurs in `s`.
pub open spec fn occurrences(s: Seq<ContainerView>, x: ContainerView) -> nat
    decreases s.len(),
{
    if s.len() == 0 {
        0
    } else {
        occurrences(s.drop_last(), x) + if s.last() == x {
            1nat
        } else {
            0nat
        }
    }
}

/// The containers of all the projects, one project after the other.
pub open spec fn project_containers(ps: Seq<ProjectView>) -> Seq<ContainerView>
    decreases ps.len(),
{
    if ps.len() == 0 {
        Seq::empty()
    } else {
        project_containers(ps.drop_last()) + ps.last().containers
    }
}

proof fn lemma_occurrences_concat(a: Seq<ContainerView>, b: Seq<ContainerView>, x: ContainerView)
    ensures
        occurrences(a + b, x) == occurrences(a, x) + occurrences(b, x),
    decreases b.len(),
{
    if b.len() == 0 {
        assert(a + b =~= a);
    } else {
        lemma_occurrences_concat(a, b.drop_last(), x);
        assert((a + b).drop_last() =~= a + b.drop_last());
        assert((a + b).last() == b.last());
    }
}

proof fn lemma_occurrences_filter(cs: Seq<ContainerView>, pred: spec_fn(ContainerView) -> bool, x: ContainerView)
    ensures
        occurrences(cs.filter(pred), x) == if pred(x) {
            occurrences(cs, x)
        } else {
            0
        },
    decreases cs.len(),
{
    if cs.len() == 0 {
        assert(cs.filter(pred) =~= Seq::<ContainerView>::empty()) by {
            reveal(Seq::filter);
        }
    } else {
        let t = cs.drop_last();
        lemma_occurrences_filter(t, pred, x);
        assert(t.push(cs.last()) =~= cs);
        t.lemma_filter_push(cs.last(), pred);
        if pred(cs.last()) {
            assert(t.filter(pred).push(cs.last()).drop_last() =~= t.filter(pred));
        }
    }
}

proof fn lemma_occurrences_prefix(ps: Seq<ProjectView>, cs: Seq<ContainerView>, g: GroupConfig, x: ContainerView, n: int)
    requires
        grouped_from(ps, cs, g),
        0 <= n <= ps.len(),
    ensures
        occurrences(project_containers(ps.take(n)), x) == if exists|i: int|
            0 <= i < n && (#[trigger] ps[i]).name == group_of(x, g) {
            occurrences(cs, x)
        } else {
            0
        },
    decreases n,
{
    if n == 0 {
        assert(ps.take(0) =~= Seq::<ProjectView>::empty());
    } else {
        lemma_occurrences_prefix(ps, cs, g, x, n - 1);
        let t = ps.take(n);
        assert(t.drop_last() =~= ps.take(n - 1));
        assert(t.last() == ps[n - 1]);
        lemma_occurrences_concat(project_containers(ps.take(n - 1)), ps[n - 1].containers, x);
        assert(crate::domain::is_project_for(ps[n - 1], members(cs, ps[n - 1].name, g), g));
        let pred = |c: ContainerView| group_of(c, g) == ps[n - 1].name;
        assert(members(cs, ps[n - 1].name, g) == cs.filter(pred));
        lemma_occurrences_filter(cs, pred, x);
        lemma_sorted_no_dup(names_of(ps));
        if ps[n - 1].name == group_of(x, g) {
            assert forall|i: int| 0 <= i < n - 1 implies (#[trigger] ps[i]).name != group_of(x, g) by {
                assert(names_of(ps)[i] != names_of(ps)[n - 1]);
            }
        }
    }
}

/// Grouping neither loses nor duplicates a container: taken together, the
/// projects' container lists hold every listed container exactly as often
/// as the list does, and each project holds its containers in list order.
pub proof fn law_grouping_is_a_permutation(ps: Seq<ProjectView>, cs: Seq<ContainerView>, g: GroupConfig)
    requires
        grouped_from(ps, cs, g),
    ensures
        forall|x: ContainerView|
            #[trigger] occurrences(project_containers(ps), x) == occurrences(cs, x),
        forall|i: int|
            0 <= i < ps.len() ==> (#[trigger] ps[i]).containers == cs.filter(
                |c: ContainerView| group_of(c, g) == ps[i].name,
            ),
{
    assert forall|x: ContainerView| #[trigger] occurrences(project_containers(ps), x) == occurrences(cs, x) by {
        lemma_occurrences_prefix(ps, cs, g, x, ps.len() as int);
        assert(ps.take(ps.len() as int) =~= ps);
        if occurrences(cs, x) > 0 {
            lemma_occurs_contains(cs, x);
            let k = choose|k: int| 0 <= k < cs.len() && cs[k] == x;
            law_each_container_in_exactly_one_project(ps, cs, g, k);
        }
    }
    assert forall|i: int| 0 <= i < ps.len() implies (#[trigger] ps[i]).containers == cs.filter(
        |c: ContainerView| group_of(c, g) == ps[i].name,
    ) by {
        assert(crate::domain::is_project_for(ps[i], members(cs, ps[i].name, g), g));
    }
}

proof fn lemma_occurs_contains(s: Seq<ContainerView>, x: ContainerView)
    requires
        occurrences(s, x) > 0,
    ensures
        exists|k: int| 0 <= k < s.len() && s[k] == x,
    decreases s.len(),
{
    if s.last() == x {
        assert(s[s.len() - 1] == x);
    } else {
        lemma_occurs_contains(s.drop_last(), x);
        let k = choose|k: int| 0 <= k < s.drop_last().len() && s.drop_last()[k] == x;
        assert(s[k] == x);
    }
}

proof fn lemma_member_group(ps: Seq<ProjectView>, cs: Seq<ContainerView>, g: GroupConfig, a: int, c: ContainerView)
    requires
        grouped_from(ps, cs, g),
        0 <= a < ps.len(),
        ps[a].containers.contains(c),
    ensures
        group_of(c, g) == ps[a].name,
        cs.contains(c),
{
    assert(crate::domain::is_project_for(ps[a], members(cs, ps[a].name, g), g));
    let pred = |x: ContainerView| group_of(x, g) == ps[a].name;
    assert(members(cs, ps[a].name, g) == cs.filter(pred));
    let j = choose|j: int| 0 <= j < ps[a].containers.len() && ps[a].containers[j] == c;
    cs.lemma_filter_pred(pred, j);
    cs.lemma_filter_contains_rev(pred, c);
}

/// Every container of every project is one of the listed containers.
pub proof fn law_projects_hold_only_listed_containers(
    ps: Seq<ProjectView>,
    cs: Seq<ContainerView>,
    g: GroupConfig,
    a: int,
    c: ContainerView,
)
    requires
        grouped_from(ps, cs, g),
        0 <= a < ps.len(),
        ps[a].containers.contains(c),
    ensures
        cs.contains(c),
        group_of(c, g) == ps[a].name,
{
    lemma_member_group(ps, cs, g, a, c);
}

// ---------------------------------------------------------------------------
// Ordering projects
// ---------------------------------------------------------------------------

proof fn lemma_before_asymmetric(a: ProjectView, b: ProjectView, mode: SortMode)
    requires
        project_before(a, b, mode),
    ensures
        !project_before(b, a, mode),
{
    if lex_lt(a.name, b.name) {
        lemma_lex_asymmetric(a.name, b.name);
    }
}

proof fn lemma_before_transitive(a: ProjectView, b: ProjectView, c: ProjectView, mode: SortMode)
    requires
        project_before(a, b, mode),
        project_before(b, c, mode),
    ensures
        project_before(a, c, mode),
{
    if lex_lt(a.name, b.name) && lex_lt(b.name, c.name) {
        lemma_lex_transitive(a.name, b.name, c.name);
    }
}

/// No project of the list sorts strictly before an earlier one.
pub open spec fn is_ordered(s: Seq<ProjectView>, mode: SortMode) -> bool {
    forall|i: int, j: int|
        0 <= i < j < s.len() ==> !project_before(#[trigger] s[j], #[trigger] s[i], mode)
}

proof fn lemma_insert_point_facts(t: Seq<ProjectView>, x: ProjectView, mode: SortMode, j: int)
    requires
        0 <= j <= t.len(),
        forall|k: int| 0 <= k < j ==> !project_before(x, #[trigger] t[k], mode),
    ensures
        j <= insert_point(t, x, mode, j) <= t.len(),
        forall|k: int| 0 <= k < insert_point(t, x, mode, j) ==> !project_before(x, #[trigger] t[k], mode),
        insert_point(t, x, mode, j) < t.len() ==> project_before(
            x,
            t[insert_point(t, x, mode, j)],
            mode,
        ),
    decreases t.len() - j,
{
    if j < t.len() && !project_before(x, t[j], mode) {
        lemma_insert_point_facts(t, x, mode, j + 1);
    }
}

proof fn lemma_sorted_by_ordered(s: Seq<ProjectView>, mode: SortMode)
    ensures
        is_ordered(sorted_by(s, mode), mode),
        sorted_by(s, mode).len() == s.len(),
    decreases s.len(),
{
    if s.len() > 0 {
        let t = sorted_by(s.drop_last(), mode);
        let x = s.last();
        lemma_sorted_by_ordered(s.drop_last(), mode);
        lemma_insert_point_facts(t, x, mode, 0);
        let p = insert_point(t, x, mode, 0);
        let r = t.insert(p, x);
        assert(r == sorted_by(s, mode));
        assert forall|i: int, j: int| 0 <= i < j < r.len() implies !project_before(
            #[trigger] r[j],
            #[trigger] r[i],
            mode,
        ) by {
            if j < p {
                assert(r[i] == t[i] && r[j] == t[j]);
            } else if j == p {
                assert(r[i] == t[i] && r[j] == x);
            } else if i < p {
                assert(r[i] == t[i] && r[j] == t[j - 1]);
            } else if i == p {
                assert(r[i] == x && r[j] == t[j - 1]);
                if project_before(t[j - 1], x, mode) {
                    assert(project_before(x, t[p], mode));
                    if j - 1 == p {
                        lemma_before_asymmetric(x, t[p], mode);
                    } else {
                        lemma_before_transitive(t[j - 1], x, t[p], mode);
                    }
                }
            } else {
                assert(r[i] == t[i - 1] && r[j] == t[j - 1]);
            }
        }
    }
}

/// Listing projects in any order rearranges them without losing or adding
/// any, and leaves no project after one that it sorts strictly before.
pub proof fn law_sorting_is_an_ordered_permutation(s: Seq<ProjectView>, mode: SortMode)
    ensures
        sorted_by(s, mode).to_multiset() == s.to_multiset(),
        is_ordered(sorted_by(s, mode), mode),
{
    crate::domain::lemma_sorted_by_permutation(s, mode);
    lemma_sorted_by_ordered(s, mode);
}

/// In the default (severity) order, a project with a more severe state comes
/// first.
pub proof fn law_severe_projects_first(s: Seq<ProjectView>, i: int, j: int)
    requires
        0 <= i < j < sorted_by(s, SortMode::Severity).len(),
    ensures
        severity_spec(sorted_by(s, SortMode::Severity)[i]) >= severity_spec(
            sorted_by(s, SortMode::Severity)[j],
        ),
{
    lemma_sorted_by_ordered(s, SortMode::Severity);
    let r = sorted_by(s, SortMode::Severity);
    assert(!project_before(r[j], r[i], SortMode::Severity));
}

// ---------------------------------------------------------------------------
// Risk
// ---------------------------------------------------------------------------

/// Risk scores are capped at 100.
pub proof fn law_risk_score_at_most_100(p: ProjectView, signals: Seq<Seq<char>>)
    ensures
        0 <= crate::health::risk_spec(p, signals) <= 100,
{
}


// ---------------------------------------------------------------------------
// What stop and rescue touch
// ---------------------------------------------------------------------------

proof fn lemma_touched_active(cs: Seq<ContainerView>, action: OperationAction, id: Seq<char>)
    requires
        action == OperationAction::Stop || action == OperationAction::Rescue,
        touched_ids(cs, action).contains(id),
    ensures
        exists|k: int|
            0 <= k < cs.len() && (#[trigger] cs[k]).id == id && crate::domain::is_active_spec(
                cs[k].state,
            ),
    decreases cs.len(),
{
    if cs.len() > 0 {
        let rest = cs.drop_last();
        if touched_ids(rest, action).contains(id) {
            lemma_touched_active(rest, action, id);
            let k = choose|k: int|
                0 <= k < rest.len() && (#[trigger] rest[k]).id == id && crate::domain::is_active_spec(
                    rest[k].state,
                );
            assert(cs[k] == rest[k]);
        } else {
            assert(cs[cs.len() - 1] == cs.last());
        }
    }
}

/// Stop and rescue act on running, restarting, paused and unhealthy
/// containers only: every container they plan for is active.
pub proof fn law_stop_and_rescue_touch_only_active(
    sel: Seq<ProjectView>,
    action: OperationAction,
    id: Seq<char>,
)
    requires
        action == OperationAction::Stop || action == OperationAction::Rescue,
        ids_of(sel, action).contains(id),
    ensures
        exists|i: int, k: int|
            0 <= i < sel.len() && 0 <= k < sel[i].containers.len()
                && #[trigger] sel[i].containers[k].id == id && crate::domain::is_active_spec(
                sel[i].containers[k].state,
            ),
    decreases sel.len(),
{
    if sel.len() > 0 {
        let rest = sel.drop_last();
        if ids_of(rest, action).contains(id) {
            law_stop_and_rescue_touch_only_active(rest, action, id);
            let (i, k) = choose|i: int, k: int|
                0 <= i < rest.len() && 0 <= k < rest[i].containers.len()
                    && #[trigger] rest[i].containers[k].id == id && crate::domain::is_active_spec(
                    rest[i].containers[k].state,
                );
            assert(sel[i] == rest[i]);
            assert(sel[i].containers[k].id == id);
        } else {
            let last = sel.len() - 1;
            assert(sel[last] == sel.last());
            lemma_touched_active(sel.last().containers, action, id);
            let k = choose|k: int|
                0 <= k < sel.last().containers.len() && (#[trigger] sel.last().containers[k]).id == id
                    && crate::domain::is_active_spec(sel.last().containers[k].state);
            assert(sel[last].containers[k].id == id);
        }
    }
}

// ---------------------------------------------------------------------------
// Executing from the dashboard
// ---------------------------------------------------------------------------

/// A key asks to execute a plan only from an open execution prompt, with
/// Enter.
pub proof fn law_execute_only_from_open_prompt(v: DashView, key: crate::tui::Key)
    ensures
        crate::tui::key_spec(v, key).1 == crate::tui::KeyOutcome::ExecutePlan ==> (
        v.execution_prompt is Some && key == crate::tui::Key::Enter),
{
}

/// A key opens the execution prompt only as Enter on a plan panel, and the
/// prompt it opens is for that panel's action with nothing typed yet.
pub proof fn law_prompt_opens_only_from_plan_panel(v: DashView, key: crate::tui::Key)
    requires
        v.execution_prompt is None,
        crate::tui::key_spec(v, key).0.execution_prompt is Some,
    ensures
        key == crate::tui::Key::Enter,
        v.panel matches crate::tui::TuiPanel::Plan(a) && crate::tui::key_spec(
            v,
            key,
        ).0.execution_prompt == Some((a, Seq::<char>::empty())),
{
}

// ---------------------------------------------------------------------------
// Ordering fingerprints
// ---------------------------------------------------------------------------

/// No fingerprint of the list sorts strictly before an earlier one.
pub open spec fn fingerprints_ordered(s: Seq<FingerprintView>) -> bool {
    forall|i: int, j: int|
        0 <= i < j < s.len() ==> !fingerprint_before(#[trigger] s[j], #[trigger] s[i])
}

proof fn lemma_fp_before_asymmetric(a: FingerprintView, b: FingerprintView)
    requires
        fingerprint_before(a, b),
    ensures
        !fingerprint_before(b, a),
{
    if a.risk_score == b.risk_score {
        lemma_lex_asymmetric(a.project, b.project);
    }
}

proof fn lemma_fp_before_transitive(a: FingerprintView, b: FingerprintView, c: FingerprintView)
    requires
        fingerprint_before(a, b),
        fingerprint_before(b, c),
    ensures
        fingerprint_before(a, c),
{
    if a.risk_score == b.risk_score && b.risk_score == c.risk_score {
        lemma_lex_transitive(a.project, b.project, c.project);
    }
}

proof fn lemma_fp_insert_facts(t: Seq<FingerprintView>, x: FingerprintView, j: int)
    requires
        0 <= j <= t.len(),
        forall|k: int| 0 <= k < j ==> !fingerprint_before(x, #[trigger] t[k]),
    ensures
        j <= fp_insert_point(t, x, j) <= t.len(),
        forall|k: int| 0 <= k < fp_insert_point(t, x, j) ==> !fingerprint_before(x, #[trigger] t[k]),
        fp_insert_point(t, x, j) < t.len() ==> fingerprint_before(x, t[fp_insert_point(t, x, j)]),
    decreases t.len() - j,
{
    if j < t.len() && !fingerprint_before(x, t[j]) {
        lemma_fp_insert_facts(t, x, j + 1);
    }
}

proof fn lemma_sorted_fingerprints_facts(s: Seq<FingerprintView>)
    ensures
        fingerprints_ordered(sorted_fingerprints(s)),
        sorted_fingerprints(s).to_multiset() == s.to_multiset(),
        sorted_fingerprints(s).len() == s.len(),
    decreases s.len(),
{
    broadcast use vstd::seq_lib::to_multiset_insert, vstd::seq_lib::to_multiset_build;

    if s.len() > 0 {
        let t = sorted_fingerprints(s.drop_last());
        let x = s.last();
        lemma_sorted_fingerprints_facts(s.drop_last());
        lemma_fp_insert_facts(t, x, 0);
        let p = fp_insert_point(t, x, 0);
        let r = t.insert(p, x);
        assert(r == sorted_fingerprints(s));
        assert(s.drop_last().push(x) =~= s);
        assert forall|i: int, j: int| 0 <= i < j < r.len() implies !fingerprint_before(
            #[trigger] r[j],
            #[trigger] r[i],
        ) by {
            if j < p {
                assert(r[i] == t[i] && r[j] == t[j]);
            } else if j == p {
                assert(r[i] == t[i] && r[j] == x);
            } else if i < p {
                assert(r[i] == t[i] && r[j] == t[j - 1]);
            } else if i == p {
                assert(r[i] == x && r[j] == t[j - 1]);
                if fingerprint_before(t[j - 1], x) {
                    if j - 1 == p {
                        lemma_fp_before_asymmetric(x, t[p]);
                    } else {
                        lemma_fp_before_transitive(t[j - 1], x, t[p]);
                    }
                }
            } else {
                assert(r[i] == t[i - 1] && r[j] == t[j - 1]);
            }
        }
    }
}

/// The fingerprints of a snapshot's projects, in the projects' order.
pub open spec fn all_fingerprints(ps: Seq<ProjectView>) -> Seq<FingerprintView> {
    Seq::new(ps.len(), |i: int| fingerprint_spec(ps, i))
}

/// The fingerprint list that `project_fingerprints` returns.
pub open spec fn fingerprint_list(ps: Seq<ProjectView>) -> Seq<FingerprintView> {
    sorted_fingerprints(all_fingerprints(ps))
}

/// The fingerprint list (`project_fingerprints`) has one fingerprint per
/// project, for that project's name, rearranged without losing or adding
/// any, highest score first and, among equal scores, by project name.
pub proof fn law_fingerprints_are_an_ordered_permutation(ps: Seq<ProjectView>)
    ensures
        sorted_fingerprints(all_fingerprints(ps)).to_multiset() == all_fingerprints(ps).to_multiset(),
        sorted_fingerprints(all_fingerprints(ps)).len() == ps.len(),
        forall|i: int| 0 <= i < ps.len() ==> (#[trigger] all_fingerprints(ps)[i]).project == ps[i].name,
        fingerprints_ordered(sorted_fingerprints(all_fingerprints(ps))),
        forall|i: int, j: int|
            0 <= i < j < ps.len() ==> (#[trigger] fingerprint_list(ps)[i]).risk_score > (
            #[trigger] fingerprint_list(ps)[j]).risk_score || (fingerprint_list(ps)[i].risk_score
                == fingerprint_list(ps)[j].risk_score && (fingerprint_list(ps)[i].project
                == fingerprint_list(ps)[j].project || lex_lt(
                fingerprint_list(ps)[i].project,
                fingerprint_list(ps)[j].project,
            ))),
{
    let f = fingerprint_list(ps);
    lemma_sorted_fingerprints_facts(all_fingerprints(ps));
    assert forall|i: int, j: int| 0 <= i < j < ps.len() implies (#[trigger] f[i]).risk_score > (
    #[trigger] f[j]).risk_score || (f[i].risk_score == f[j].risk_score && (f[i].project
        == f[j].project || lex_lt(f[i].project, f[j].project))) by {
        assert(!fingerprint_before(f[j], f[i]));
        crate::text::lemma_lex_total(f[i].project, f[j].project);
    }
}

// ---------------------------------------------------------------------------
// Findings
// ---------------------------------------------------------------------------

/// The number of texts in `fs` that begin with `pre`.
pub open spec fn count_prefixed(fs: Seq<Seq<char>>, pre: Seq<char>) -> nat
    decreases fs.len(),
{
    if fs.len() == 0 {
        0
    } else {
        count_prefixed(fs.drop_last(), pre) + if has_prefix(fs.last(), pre) {
            1nat
        } else {
            0nat
        }
    }
}

proof fn lemma_count_prefixed_concat(a: Seq<Seq<char>>, b: Seq<Seq<char>>, pre: Seq<char>)
    ensures
        count_prefixed(a + b, pre) == count_prefixed(a, pre) + count_prefixed(b, pre),
    decreases b.len(),
{
    if b.len() == 0 {
        assert(a + b =~= a);
    } else {
        lemma_count_prefixed_concat(a, b.drop_last(), pre);
        assert((a + b).drop_last() =~= a + b.drop_last());
        assert((a + b).last() == b.last());
    }
}

proof fn lemma_not_restart_loop(s: Seq<char>)
    requires
        s.len() > 0,
        s[0] != 'r',
    ensures
        !has_prefix(s, "restart loop: "@),
{
    reveal_strlit("restart loop: ");
    if has_prefix(s, "restart loop: "@) {
        assert(s.subrange(0, 14)[0] == s[0]);
    }
}

proof fn lemma_decimal_first(n: nat)
    ensures
        decimal(n).len() > 0,
        decimal(n)[0] != 'r',
        (decimal(n)[0] as u32) < ('a' as u32),
    decreases n,
{
    if n < 10 {
        assert((digit_char(n) as u32) < 'a' as u32);
    } else {
        lemma_decimal_first(n / 10);
    }
}

proof fn lemma_when_no_restart(b: bool, s: Seq<char>)
    requires
        s.len() > 0,
        s[0] != 'r',
    ensures
        count_prefixed(crate::health::when(b, s), "restart loop: "@) == 0,
{
    let w = crate::health::when(b, s);
    assert(count_prefixed(Seq::<Seq<char>>::empty(), "restart loop: "@) == 0);
    if b {
        lemma_not_restart_loop(s);
        assert(w.drop_last() =~= Seq::<Seq<char>>::empty());
        assert(w.last() == s);
    } else {
        assert(w =~= Seq::<Seq<char>>::empty());
    }
}

proof fn lemma_public_no_restart(ports: Seq<Seq<char>>)
    ensures
        count_prefixed(public_findings(ports), "restart loop: "@) == 0,
    decreases ports.len(),
{
    if ports.len() > 0 {
        lemma_public_no_restart(ports.drop_last());
        if crate::health::public_port(ports.last()) {
            reveal_strlit("公网监听端口暴露: ");
            let t = "公网监听端口暴露: "@ + ports.last();
            assert(t[0] == '公');
            lemma_not_restart_loop(t);
            assert(public_findings(ports).drop_last() =~= public_findings(ports.drop_last()));
        }
    }
}

proof fn lemma_anon_no_restart(vols: Seq<Seq<char>>)
    ensures
        count_prefixed(anon_findings(vols), "restart loop: "@) == 0,
    decreases vols.len(),
{
    if vols.len() > 0 {
        lemma_anon_no_restart(vols.drop_last());
        if crate::health::anonymous_spec(vols.last()) {
            reveal_strlit("疑似匿名卷: ");
            let t = "疑似匿名卷: "@ + vols.last();
            assert(t[0] == '疑');
            lemma_not_restart_loop(t);
            assert(anon_findings(vols).drop_last() =~= anon_findings(vols.drop_last()));
        }
    }
}

proof fn lemma_risk_no_restart(name: Seq<char>, risks: Seq<Seq<char>>)
    ensures
        count_prefixed(risk_findings(name, risks), "restart loop: "@) == 0,
    decreases risks.len(),
{
    if risks.len() > 0 {
        lemma_risk_no_restart(name, risks.drop_last());
        assert(risk_findings(name, risks).drop_last() =~= risk_findings(name, risks.drop_last()));
        reveal_strlit("security risk: ");
        let t = "security risk: "@ + name + " "@ + risks.last();
        assert(t[0] == 's');
        assert(risk_findings(name, risks).last() == t);
        lemma_not_restart_loop(t);
    }
}

proof fn lemma_container_restart(c: ContainerView)
    ensures
        count_prefixed(container_findings(c), "restart loop: "@) == if c.state
            == crate::domain::ContainerState::Restarting {
            1nat
        } else {
            0nat
        },
{
    let head: Seq<Seq<char>> = if c.state == crate::domain::ContainerState::Restarting {
        seq!["restart loop: "@ + c.name]
    } else {
        Seq::empty()
    };
    lemma_count_prefixed_concat(head, risk_findings(c.name, crate::health::risks_spec(c)), "restart loop: "@);
    lemma_count_prefixed_concat(
        head + risk_findings(c.name, crate::health::risks_spec(c)),
        anon_findings(c.volumes),
        "restart loop: "@,
    );
    lemma_risk_no_restart(c.name, crate::health::risks_spec(c));
    lemma_anon_no_restart(c.volumes);
    assert(container_findings(c) == head + risk_findings(c.name, crate::health::risks_spec(c))
        + anon_findings(c.volumes));
    assert(count_prefixed(Seq::<Seq<char>>::empty(), "restart loop: "@) == 0);
    if c.state == crate::domain::ContainerState::Restarting {
        let t = "restart loop: "@ + c.name;
        assert(t.subrange(0, "restart loop: "@.len() as int) =~= "restart loop: "@);
        assert(has_prefix(t, "restart loop: "@));
        assert(head.drop_last() =~= Seq::<Seq<char>>::empty());
        assert(head.last() == t);
    } else {
        assert(head =~= Seq::<Seq<char>>::empty());
    }
}

proof fn lemma_containers_restart(cs: Seq<ContainerView>)
    ensures
        count_prefixed(containers_findings(cs), "restart loop: "@) == crate::domain::count_state(
            cs,
            crate::domain::ContainerState::Restarting,
        ),
    decreases cs.len(),
{
    if cs.len() > 0 {
        lemma_containers_restart(cs.drop_last());
        lemma_container_restart(cs.last());
        lemma_count_prefixed_concat(
            containers_findings(cs.drop_last()),
            container_findings(cs.last()),
            "restart loop: "@,
        );
    }
}

/// The diagnosis of a project (`analyze_snapshot`, `analyze_project`)
/// reports exactly one `restart loop: <name>` finding per restarting
/// container of the project.
pub proof fn law_one_restart_loop_finding_per_restarting_container(p: ProjectView)
    ensures
        count_prefixed(findings_spec(p), "restart loop: "@) == crate::domain::count_state(
            p.containers,
            crate::domain::ContainerState::Restarting,
        ),
{
    let pre = "restart loop: "@;
    let a = crate::health::when(p.unhealthy > 0, decimal(p.unhealthy as nat) + " 个 unhealthy 容器"@);
    let b = crate::health::when(p.restarting > 0, decimal(p.restarting as nat) + " 个 restarting 容器"@);
    let c = crate::health::when(p.paused > 0, decimal(p.paused as nat) + " 个 paused 容器"@);
    let d = crate::health::when(crate::health::dup_ports_spec(p.ports), "检测到项目内端口重复映射"@);
    let e = public_findings(p.ports);
    let f = containers_findings(p.containers);
    let g = crate::health::when(
        p.kind == crate::domain::ProjectKind::Standalone && crate::health::custom_network(p),
        "standalone 项目使用自定义网络，删除前确认是否共享。"@,
    );
    assert(findings_spec(p) == a + b + c + d + e + f + g);
    lemma_decimal_first(p.unhealthy as nat);
    lemma_decimal_first(p.restarting as nat);
    lemma_decimal_first(p.paused as nat);
    lemma_when_no_restart(p.unhealthy > 0, decimal(p.unhealthy as nat) + " 个 unhealthy 容器"@);
    lemma_when_no_restart(p.restarting > 0, decimal(p.restarting as nat) + " 个 restarting 容器"@);
    lemma_when_no_restart(p.paused > 0, decimal(p.paused as nat) + " 个 paused 容器"@);
    reveal_strlit("检测到项目内端口重复映射");
    reveal_strlit("standalone 项目使用自定义网络，删除前确认是否共享。");
    lemma_when_no_restart(crate::health::dup_ports_spec(p.ports), "检测到项目内端口重复映射"@);
    lemma_when_no_restart(
        p.kind == crate::domain::ProjectKind::Standalone && crate::health::custom_network(p),
        "standalone 项目使用自定义网络，删除前确认是否共享。"@,
    );
    lemma_public_no_restart(p.ports);
    lemma_containers_restart(p.containers);
    lemma_count_prefixed_concat(a, b, pre);
    lemma_count_prefixed_concat(a + b, c, pre);
    lemma_count_prefixed_concat(a + b + c, d, pre);
    lemma_count_prefixed_concat(a + b + c + d, e, pre);
    lemma_count_prefixed_concat(a + b + c + d + e, f, pre);
    lemma_count_prefixed_concat(a + b + c + d + e + f, g, pre);
}

// ---------------------------------------------------------------------------
// Health status
// ---------------------------------------------------------------------------

proof fn lemma_mentions_concat(a: Seq<Seq<char>>, b: Seq<Seq<char>>, n: Seq<char>)
    ensures
        crate::health::any_mentions(a + b, n) == (crate::health::any_mentions(a, n)
            || crate::health::any_mentions(b, n)),
{
    if crate::health::any_mentions(a + b, n) {
        let i = choose|i: int| 0 <= i < (a + b).len() && crate::text::has_infix(#[trigger] (a + b)[i], n);
        if i < a.len() {
            assert((a + b)[i] == a[i]);
        } else {
            assert((a + b)[i] == b[i - a.len()]);
        }
    }
    if crate::health::any_mentions(a, n) {
        let i = choose|i: int| 0 <= i < a.len() && crate::text::has_infix(#[trigger] a[i], n);
        assert((a + b)[i] == a[i]);
    }
    if crate::health::any_mentions(b, n) {
        let i = choose|i: int| 0 <= i < b.len() && crate::text::has_infix(#[trigger] b[i], n);
        assert((a + b)[a.len() + i] == b[i]);
    }
}

proof fn lemma_mentions_push(a: Seq<Seq<char>>, x: Seq<char>, n: Seq<char>)
    ensures
        crate::health::any_mentions(a.push(x), n) == (crate::health::any_mentions(a, n)
            || crate::text::has_infix(x, n)),
{
    lemma_mentions_concat(a, seq![x], n);
    assert(a.push(x) =~= a + seq![x]);
    if crate::health::any_mentions(seq![x], n) {
        let i = choose|i: int| 0 <= i < 1 && crate::text::has_infix(#[trigger] seq![x][i], n);
        assert(i == 0);
    }
    if crate::text::has_infix(x, n) {
        assert(seq![x][0] == x);
    }
}

proof fn lemma_mentions_empty(n: Seq<char>)
    ensures
        !crate::health::any_mentions(Seq::<Seq<char>>::empty(), n),
{
}

/// A text in which some character of `n` never occurs does not contain `n`.
proof fn lemma_no_infix(s: Seq<char>, n: Seq<char>, j: int)
    requires
        0 <= j < n.len(),
        forall|k: int| 0 <= k < s.len() ==> s[k] != n[j],
    ensures
        !crate::text::has_infix(s, n),
{
    if crate::text::has_infix(s, n) {
        let i = choose|i: int| crate::text::occurs_at(s, n, i);
        assert(s.subrange(i, i + n.len())[j] == s[i + j]);
    }
}

proof fn lemma_starts_infix(a: Seq<char>, b: Seq<char>)
    ensures
        crate::text::has_infix(a + b, a),
{
    assert((a + b).subrange(0, a.len() as int) =~= a);
    assert(crate::text::occurs_at(a + b, a, 0));
}

proof fn lemma_public_mentions(ports: Seq<Seq<char>>)
    ensures
        crate::health::any_mentions(public_findings(ports), "公网监听"@) == exists|j: int|
            0 <= j < ports.len() && crate::health::public_port(#[trigger] ports[j]),
        !crate::health::any_mentions(public_findings(ports), "公网监听"@) ==> public_findings(ports).len() == 0,
    decreases ports.len(),
{
    let t = ports.drop_last();
    if ports.len() > 0 {
        lemma_public_mentions(t);
        if crate::health::public_port(ports.last()) {
            reveal_strlit("公网监听端口暴露: ");
            reveal_strlit("公网监听");
            let x = "公网监听端口暴露: "@ + ports.last();
            assert(x.subrange(0, 4) =~= "公网监听"@);
            assert(crate::text::occurs_at(x, "公网监听"@, 0));
            lemma_mentions_push(public_findings(t), x, "公网监听"@);
            assert(ports[ports.len() - 1] == ports.last());
        } else {
            assert forall|j: int| 0 <= j < ports.len() && crate::health::public_port(#[trigger] ports[j])
                implies 0 <= j < t.len() && crate::health::public_port(t[j]) by {
                assert(j != ports.len() - 1);
                assert(t[j] == ports[j]);
            }
        }
        if exists|j: int| 0 <= j < t.len() && crate::health::public_port(#[trigger] t[j]) {
            let j = choose|j: int| 0 <= j < t.len() && crate::health::public_port(#[trigger] t[j]);
            assert(ports[j] == t[j]);
        }
    }
}

proof fn lemma_anon_mentions_none(vols: Seq<Seq<char>>)
    ensures
        !crate::health::any_mentions(anon_findings(vols), "公网监听"@),
        !crate::health::any_mentions(anon_findings(vols), "security risk"@),
    decreases vols.len(),
{
    if vols.len() > 0 {
        lemma_anon_mentions_none(vols.drop_last());
        if crate::health::anonymous_spec(vols.last()) {
            reveal_strlit("疑似匿名卷: ");
            reveal_strlit("公网监听");
            reveal_strlit("security risk");
            let v = vols.last();
            let x = "疑似匿名卷: "@ + v;
            let lit = "疑似匿名卷: "@;
            assert(lit.len() == 7);
            assert forall|k: int| 0 <= k < x.len() implies x[k] != '公' && x[k] != 'y' by {
                if k < 7 {
                    assert(x[k] == lit[k]);
                } else {
                    assert(x[k] == v[k - 7]);
                    assert(crate::health::is_hex(v[k - 7]));
                }
            }
            assert("公网监听"@[0] == '公');
            assert("security risk"@[7] == 'y');
            lemma_no_infix(x, "公网监听"@, 0);
            lemma_no_infix(x, "security risk"@, 7);
            lemma_mentions_push(anon_findings(vols.drop_last()), x, "公网监听"@);
            lemma_mentions_push(anon_findings(vols.drop_last()), x, "security risk"@);
        }
    }
}

/// A container with a security risk makes the findings mention one; with no
/// risk and no restart loop, its findings mention neither a public port nor
/// a security risk.
proof fn lemma_container_mentions(c: ContainerView)
    ensures
        crate::health::risks_spec(c).len() > 0 ==> crate::health::any_mentions(
            container_findings(c),
            "security risk"@,
        ),
        c.state != crate::domain::ContainerState::Restarting && crate::health::risks_spec(c).len()
            == 0 ==> !crate::health::any_mentions(container_findings(c), "公网监听"@)
            && !crate::health::any_mentions(container_findings(c), "security risk"@),
{
    let rs = crate::health::risks_spec(c);
    let head: Seq<Seq<char>> = if c.state == crate::domain::ContainerState::Restarting {
        seq!["restart loop: "@ + c.name]
    } else {
        Seq::empty()
    };
    let rf = risk_findings(c.name, rs);
    assert(container_findings(c) == head + rf + anon_findings(c.volumes));
    lemma_mentions_concat(head + rf, anon_findings(c.volumes), "security risk"@);
    lemma_mentions_concat(head, rf, "security risk"@);
    lemma_mentions_concat(head + rf, anon_findings(c.volumes), "公网监听"@);
    lemma_mentions_concat(head, rf, "公网监听"@);
    lemma_anon_mentions_none(c.volumes);
    if rs.len() > 0 {
        reveal_strlit("security risk: ");
        reveal_strlit("security risk");
        let x = "security risk: "@ + c.name + " "@ + rs[0];
        assert(rf[0] == x);
        assert(x.subrange(0, 13) =~= "security risk"@);
        assert(crate::text::occurs_at(x, "security risk"@, 0));
        assert(crate::text::has_infix(rf[0], "security risk"@));
    } else {
        assert(rf =~= Seq::<Seq<char>>::empty());
        if c.state != crate::domain::ContainerState::Restarting {
            assert(head =~= Seq::<Seq<char>>::empty());
        }
    }
}

proof fn lemma_containers_mentions(cs: Seq<ContainerView>)
    ensures
        (exists|k: int| 0 <= k < cs.len() && crate::health::risks_spec(#[trigger] cs[k]).len() > 0)
            ==> crate::health::any_mentions(containers_findings(cs), "security risk"@),
        crate::domain::count_state(cs, crate::domain::ContainerState::Restarting) == 0 && (forall|k: int|
            0 <= k < cs.len() ==> crate::health::risks_spec(#[trigger] cs[k]).len() == 0)
            ==> !crate::health::any_mentions(containers_findings(cs), "公网监听"@)
            && !crate::health::any_mentions(containers_findings(cs), "security risk"@),
    decreases cs.len(),
{
    if cs.len() > 0 {
        let t = cs.drop_last();
        lemma_containers_mentions(t);
        lemma_container_mentions(cs.last());
        lemma_mentions_concat(containers_findings(t), container_findings(cs.last()), "security risk"@);
        lemma_mentions_concat(containers_findings(t), container_findings(cs.last()), "公网监听"@);
        if exists|k: int| 0 <= k < cs.len() && crate::health::risks_spec(#[trigger] cs[k]).len() > 0 {
            let k = choose|k: int| 0 <= k < cs.len() && crate::health::risks_spec(#[trigger] cs[k]).len() > 0;
            if k < t.len() {
                assert(t[k] == cs[k]);
            }
        }
        if forall|k: int| 0 <= k < cs.len() ==> crate::health::risks_spec(#[trigger] cs[k]).len() == 0 {
            assert forall|k: int| 0 <= k < t.len() implies crate::health::risks_spec(#[trigger] t[k]).len() == 0 by {
                assert(t[k] == cs[k]);
            }
            assert(crate::health::risks_spec(cs[cs.len() - 1]).len() == 0);
        }
    }
}

/// Some container of the project carries a security risk.
pub open spec fn has_security_risk(p: ProjectView) -> bool {
    exists|k: int| 0 <= k < p.containers.len() && crate::health::risks_spec(#[trigger] p.containers[k]).len() > 0
}

/// A project of a snapshot is critical exactly when it has unhealthy or
/// restarting containers, and healthy exactly when it has no unhealthy,
/// restarting or paused container, no host port mapped twice, no port
/// published on all addresses and no container with a security risk
/// (`analyze_snapshot`).
pub proof fn law_health_status(ps: Seq<ProjectView>, cs: Seq<ContainerView>, g: GroupConfig, i: int)
    requires
        grouped_from(ps, cs, g),
        0 <= i < ps.len(),
    ensures
        (crate::health::status_spec(ps[i], findings_spec(ps[i])) == crate::domain::HealthStatus::Critical)
            == (ps[i].unhealthy > 0 || ps[i].restarting > 0),
        (crate::health::status_spec(ps[i], findings_spec(ps[i])) == crate::domain::HealthStatus::Healthy)
            == (ps[i].unhealthy + ps[i].restarting + ps[i].paused == 0
            && !crate::health::dup_ports_spec(ps[i].ports) && !crate::health::any_public(ps[i])
            && !has_security_risk(ps[i])),
{
    let p = ps[i];
    let pub_n = "公网监听"@;
    let sec = "security risk"@;
    assert(crate::domain::is_project_for(p, members(cs, p.name, g), g));
    let a = crate::health::when(p.unhealthy > 0, decimal(p.unhealthy as nat) + " 个 unhealthy 容器"@);
    let b = crate::health::when(p.restarting > 0, decimal(p.restarting as nat) + " 个 restarting 容器"@);
    let c = crate::health::when(p.paused > 0, decimal(p.paused as nat) + " 个 paused 容器"@);
    let d = crate::health::when(crate::health::dup_ports_spec(p.ports), "检测到项目内端口重复映射"@);
    let e = public_findings(p.ports);
    let f = containers_findings(p.containers);
    let lit = "standalone 项目使用自定义网络，删除前确认是否共享。"@;
    let h = crate::health::when(
        p.kind == crate::domain::ProjectKind::Standalone && crate::health::custom_network(p),
        lit,
    );
    let fs = findings_spec(p);
    assert(fs == a + b + c + d + e + f + h);
    lemma_mentions_concat(a + b + c + d + e + f, h, pub_n);
    lemma_mentions_concat(a + b + c + d + e, f, pub_n);
    lemma_mentions_concat(a + b + c + d, e, pub_n);
    lemma_mentions_concat(a + b + c + d + e + f, h, sec);
    lemma_mentions_concat(a + b + c + d + e, f, sec);
    lemma_mentions_concat(a + b + c + d, e, sec);
    lemma_public_mentions(p.ports);
    lemma_containers_mentions(p.containers);
    if p.unhealthy + p.restarting + p.paused == 0 && !crate::health::dup_ports_spec(p.ports)
        && !crate::health::any_public(p) && !has_security_risk(p) {
        assert(a + b + c + d =~= Seq::<Seq<char>>::empty());
        assert(!crate::health::any_mentions(e, pub_n));
        assert(e.len() == 0);
        lemma_mentions_empty(pub_n);
        lemma_mentions_empty(sec);
        assert(a + b + c + d + e =~= Seq::<Seq<char>>::empty());
        reveal_strlit("standalone 项目使用自定义网络，删除前确认是否共享。");
        reveal_strlit("公网监听");
        reveal_strlit("security risk");
        assert(lit.len() == 31);
        assert forall|k: int| 0 <= k < lit.len() implies lit[k] != '公' && lit[k] != 'y' by {
        }
        assert(pub_n[0] == '公');
        assert(sec[7] == 'y');
        lemma_no_infix(lit, pub_n, 0);
        lemma_no_infix(lit, sec, 7);
        lemma_mentions_empty(pub_n);
        if p.kind == crate::domain::ProjectKind::Standalone && crate::health::custom_network(p) {
            lemma_mentions_push(Seq::<Seq<char>>::empty(), lit, pub_n);
            lemma_mentions_push(Seq::<Seq<char>>::empty(), lit, sec);
            assert(h =~= Seq::<Seq<char>>::empty().push(lit));
        } else {
            assert(h =~= Seq::<Seq<char>>::empty());
        }
    }
}

// ---------------------------------------------------------------------------
// Signals
// ---------------------------------------------------------------------------

/// Which kind of signal a text is: `inactive` (1), `public_bind` (2),
/// `image_bloat` (3), `stale_stopped:*` (4), `port_conflict:*` (5),
/// `shared_volume:*` (6), `security:*` (7), or none of them (0).
pub open spec fn signal_tag(s: Seq<char>) -> int {
    if s == "inactive"@ {
        1
    } else if s == "public_bind"@ {
        2
    } else if s == "image_bloat"@ {
        3
    } else if has_prefix(s, "stale_stopped:"@) {
        4
    } else if has_prefix(s, "port_conflict:"@) {
        5
    } else if has_prefix(s, "shared_volume:"@) {
        6
    } else if has_prefix(s, "security:"@) {
        7
    } else {
        0
    }
}

/// A text whose first character starts no signal word is no signal.
proof fn lemma_tag_first(s: Seq<char>)
    requires
        s.len() > 0,
        s[0] != 'i' && s[0] != 'p' && s[0] != 's',
    ensures
        signal_tag(s) == 0,
{
    reveal_strlit("inactive");
    reveal_strlit("public_bind");
    reveal_strlit("image_bloat");
    reveal_strlit("stale_stopped:");
    reveal_strlit("port_conflict:");
    reveal_strlit("shared_volume:");
    reveal_strlit("security:");
    assert("inactive"@[0] == 'i');
    assert("public_bind"@[0] == 'p');
    assert("image_bloat"@[0] == 'i');
    assert("stale_stopped:"@[0] == 's');
    assert("port_conflict:"@[0] == 'p');
    assert("shared_volume:"@[0] == 's');
    assert("security:"@[0] == 's');
    if has_prefix(s, "stale_stopped:"@) {
        assert(s.subrange(0, 14)[0] == s[0]);
    }
    if has_prefix(s, "port_conflict:"@) {
        assert(s.subrange(0, 14)[0] == s[0]);
    }
    if has_prefix(s, "shared_volume:"@) {
        assert(s.subrange(0, 14)[0] == s[0]);
    }
    if has_prefix(s, "security:"@) {
        assert(s.subrange(0, 9)[0] == s[0]);
    }
}

/// `security risk: ...` lines and the standalone-network line are no
/// signals.
proof fn lemma_tag_s_lines(s: Seq<char>)
    requires
        s.len() > 8,
        s[0] == 's',
        (s[1] == 'e' && s[8] == ' ') || (s[1] == 't' && s[3] == 'n'),
    ensures
        signal_tag(s) == 0,
{
    reveal_strlit("inactive");
    reveal_strlit("public_bind");
    reveal_strlit("image_bloat");
    reveal_strlit("stale_stopped:");
    reveal_strlit("port_conflict:");
    reveal_strlit("shared_volume:");
    reveal_strlit("security:");
    assert("inactive"@[0] == 'i');
    assert("public_bind"@[0] == 'p');
    assert("image_bloat"@[0] == 'i');
    assert("stale_stopped:"@[1] == 't' && "stale_stopped:"@[3] == 'l');
    assert("port_conflict:"@[0] == 'p');
    assert("shared_volume:"@[1] == 'h');
    assert("security:"@[1] == 'e' && "security:"@[8] == ':');
    if has_prefix(s, "stale_stopped:"@) {
        assert(s.subrange(0, 14)[1] == s[1] && s.subrange(0, 14)[3] == s[3]);
    }
    if has_prefix(s, "port_conflict:"@) {
        assert(s.subrange(0, 14)[0] == s[0]);
    }
    if has_prefix(s, "shared_volume:"@) {
        assert(s.subrange(0, 14)[1] == s[1]);
    }
    if has_prefix(s, "security:"@) {
        assert(s.subrange(0, 9)[1] == s[1] && s.subrange(0, 9)[8] == s[8]);
    }
}

/// No text of `fs` is a signal.
pub open spec fn all_plain(fs: Seq<Seq<char>>) -> bool {
    forall|k: int| 0 <= k < fs.len() ==> signal_tag(#[trigger] fs[k]) == 0
}

proof fn lemma_plain_concat(a: Seq<Seq<char>>, b: Seq<Seq<char>>)
    requires
        all_plain(a),
        all_plain(b),
    ensures
        all_plain(a + b),
{
    assert forall|k: int| 0 <= k < (a + b).len() implies signal_tag(#[trigger] (a + b)[k]) == 0 by {
        if k < a.len() {
            assert((a + b)[k] == a[k]);
        } else {
            assert((a + b)[k] == b[k - a.len()]);
        }
    }
}

proof fn lemma_plain_push(a: Seq<Seq<char>>, x: Seq<char>)
    requires
        all_plain(a),
        signal_tag(x) == 0,
    ensures
        all_plain(a.push(x)),
{
    assert forall|k: int| 0 <= k < a.push(x).len() implies signal_tag(#[trigger] a.push(x)[k]) == 0 by {
        if k < a.len() {
            assert(a.push(x)[k] == a[k]);
        }
    }
}

proof fn lemma_plain_when(b: bool, x: Seq<char>)
    requires
        signal_tag(x) == 0,
    ensures
        all_plain(crate::health::when(b, x)),
{
    if b {
        assert(crate::health::when(b, x)[0] == x);
    }
}

proof fn lemma_plain_count_line(n: nat, rest: Seq<char>)
    ensures
        signal_tag(decimal(n) + rest) == 0,
{
    lemma_decimal_first(n);
    let s = decimal(n) + rest;
    assert(s[0] == decimal(n)[0]);
    lemma_tag_first(s);
}

proof fn lemma_plain_public(ports: Seq<Seq<char>>)
    ensures
        all_plain(public_findings(ports)),
    decreases ports.len(),
{
    if ports.len() > 0 {
        lemma_plain_public(ports.drop_last());
        if crate::health::public_port(ports.last()) {
            reveal_strlit("公网监听端口暴露: ");
            let x = "公网监听端口暴露: "@ + ports.last();
            assert(x[0] == '公');
            lemma_tag_first(x);
            lemma_plain_push(public_findings(ports.drop_last()), x);
        }
    }
}

proof fn lemma_plain_anon(vols: Seq<Seq<char>>)
    ensures
        all_plain(anon_findings(vols)),
    decreases vols.len(),
{
    if vols.len() > 0 {
        lemma_plain_anon(vols.drop_last());
        if crate::health::anonymous_spec(vols.last()) {
            reveal_strlit("疑似匿名卷: ");
            let x = "疑似匿名卷: "@ + vols.last();
            assert(x[0] == '疑');
            lemma_tag_first(x);
            lemma_plain_push(anon_findings(vols.drop_last()), x);
        }
    }
}

proof fn lemma_plain_risks(name: Seq<char>, risks: Seq<Seq<char>>)
    ensures
        all_plain(risk_findings(name, risks)),
{
    reveal_strlit("security risk: ");
    assert forall|k: int| 0 <= k < risk_findings(name, risks).len() implies signal_tag(
        #[trigger] risk_findings(name, risks)[k],
    ) == 0 by {
        let x = "security risk: "@ + name + " "@ + risks[k];
        assert(risk_findings(name, risks)[k] == x);
        assert(x[0] == 's' && x[1] == 'e' && x[8] == ' ');
        lemma_tag_s_lines(x);
    }
}

proof fn lemma_plain_container(c: ContainerView)
    ensures
        all_plain(container_findings(c)),
{
    let rs = crate::health::risks_spec(c);
    let head: Seq<Seq<char>> = if c.state == crate::domain::ContainerState::Restarting {
        seq!["restart loop: "@ + c.name]
    } else {
        Seq::empty()
    };
    assert(container_findings(c) == head + risk_findings(c.name, rs) + anon_findings(c.volumes));
    if c.state == crate::domain::ContainerState::Restarting {
        reveal_strlit("restart loop: ");
        let x = "restart loop: "@ + c.name;
        assert(x[0] == 'r');
        lemma_tag_first(x);
        assert(head[0] == x);
    }
    lemma_plain_risks(c.name, rs);
    lemma_plain_anon(c.volumes);
    lemma_plain_concat(head, risk_findings(c.name, rs));
    lemma_plain_concat(head + risk_findings(c.name, rs), anon_findings(c.volumes));
}

proof fn lemma_plain_containers(cs: Seq<ContainerView>)
    ensures
        all_plain(containers_findings(cs)),
    decreases cs.len(),
{
    if cs.len() > 0 {
        lemma_plain_containers(cs.drop_last());
        lemma_plain_container(cs.last());
        lemma_plain_concat(containers_findings(cs.drop_last()), container_findings(cs.last()));
    }
}

/// No finding of a project's diagnosis is a signal word.
proof fn lemma_plain_findings(p: ProjectView)
    ensures
        all_plain(findings_spec(p)),
{
    let a = crate::health::when(p.unhealthy > 0, decimal(p.unhealthy as nat) + " 个 unhealthy 容器"@);
    let b = crate::health::when(p.restarting > 0, decimal(p.restarting as nat) + " 个 restarting 容器"@);
    let c = crate::health::when(p.paused > 0, decimal(p.paused as nat) + " 个 paused 容器"@);
    let d = crate::health::when(crate::health::dup_ports_spec(p.ports), "检测到项目内端口重复映射"@);
    let e = public_findings(p.ports);
    let f = containers_findings(p.containers);
    let lit = "standalone 项目使用自定义网络，删除前确认是否共享。"@;
    let h = crate::health::when(
        p.kind == crate::domain::ProjectKind::Standalone && crate::health::custom_network(p),
        lit,
    );
    assert(findings_spec(p) == a + b + c + d + e + f + h);
    lemma_plain_count_line(p.unhealthy as nat, " 个 unhealthy 容器"@);
    lemma_plain_count_line(p.restarting as nat, " 个 restarting 容器"@);
    lemma_plain_count_line(p.paused as nat, " 个 paused 容器"@);
    lemma_plain_when(p.unhealthy > 0, decimal(p.unhealthy as nat) + " 个 unhealthy 容器"@);
    lemma_plain_when(p.restarting > 0, decimal(p.restarting as nat) + " 个 restarting 容器"@);
    lemma_plain_when(p.paused > 0, decimal(p.paused as nat) + " 个 paused 容器"@);
    reveal_strlit("检测到项目内端口重复映射");
    assert("检测到项目内端口重复映射"@[0] == '检');
    lemma_tag_first("检测到项目内端口重复映射"@);
    lemma_plain_when(crate::health::dup_ports_spec(p.ports), "检测到项目内端口重复映射"@);
    reveal_strlit("standalone 项目使用自定义网络，删除前确认是否共享。");
    assert(lit[0] == 's' && lit[1] == 't' && lit[3] == 'n' && lit.len() > 8);
    lemma_tag_s_lines(lit);
    lemma_plain_when(
        p.kind == crate::domain::ProjectKind::Standalone && crate::health::custom_network(p),
        lit,
    );
    lemma_plain_public(p.ports);
    lemma_plain_containers(p.containers);
    lemma_plain_concat(a, b);
    lemma_plain_concat(a + b, c);
    lemma_plain_concat(a + b + c, d);
    lemma_plain_concat(a + b + c + d, e);
    lemma_plain_concat(a + b + c + d + e, f);
    lemma_plain_concat(a + b + c + d + e + f, h);
}

proof fn lemma_prefixed_tag(pre: Seq<char>, rest: Seq<char>)
    ensures
        pre == "stale_stopped:"@ ==> signal_tag(pre + rest) == 4,
        pre == "port_conflict:"@ ==> signal_tag(pre + rest) == 5,
        pre == "shared_volume:"@ ==> signal_tag(pre + rest) == 6,
        pre == "security:"@ ==> signal_tag(pre + rest) == 7,
{
    reveal_strlit("inactive");
    reveal_strlit("public_bind");
    reveal_strlit("image_bloat");
    reveal_strlit("stale_stopped:");
    reveal_strlit("port_conflict:");
    reveal_strlit("shared_volume:");
    reveal_strlit("security:");
    let s = pre + rest;
    assert(s.subrange(0, pre.len() as int) =~= pre);
    if pre == "stale_stopped:"@ || pre == "port_conflict:"@ || pre == "shared_volume:"@ || pre
        == "security:"@ {
        assert(s[0] == pre[0] && s[1] == pre[1]);
        assert(s.len() >= 9);
        assert(s[8] == pre[8]);
        assert(s != "inactive"@ && s != "public_bind"@ && s != "image_bloat"@) by {
            if s == "inactive"@ || s == "image_bloat"@ {
                assert(s[0] == 'i');
            }
            if s == "public_bind"@ {
                assert(s[1] == 'u');
            }
        }
        if has_prefix(s, "stale_stopped:"@) {
            assert(s.subrange(0, 14)[0] == s[0] && s.subrange(0, 14)[1] == s[1]);
        }
        if has_prefix(s, "port_conflict:"@) {
            assert(s.subrange(0, 14)[0] == s[0]);
        }
        if has_prefix(s, "shared_volume:"@) {
            assert(s.subrange(0, 14)[1] == s[1]);
        }
    }
}

proof fn lemma_word_tags()
    ensures
        signal_tag("inactive"@) == 1,
        signal_tag("public_bind"@) == 2,
        signal_tag("image_bloat"@) == 3,
{
    reveal_strlit("inactive");
    reveal_strlit("public_bind");
    reveal_strlit("image_bloat");
    reveal_strlit("stale_stopped:");
    reveal_strlit("port_conflict:");
    reveal_strlit("shared_volume:");
    reveal_strlit("security:");
    assert("public_bind"@ != "inactive"@) by {
        assert("public_bind"@.len() != "inactive"@.len());
    }
    assert("image_bloat"@ != "inactive"@) by {
        assert("image_bloat"@.len() != "inactive"@.len());
    }
    assert("image_bloat"@ != "public_bind"@) by {
        assert("image_bloat"@[0] != "public_bind"@[0]);
    }
}

proof fn lemma_cancel_prefix(pre: Seq<char>, a: Seq<char>, b: Seq<char>)
    requires
        pre + a == pre + b,
    ensures
        a == b,
{
    assert((pre + a).subrange(pre.len() as int, (pre + a).len() as int) =~= a);
    assert((pre + b).subrange(pre.len() as int, (pre + b).len() as int) =~= b);
}

/// Each signal of a project's fingerprint names its cause: `inactive`
/// exactly when no container is active, `public_bind` exactly when a port
/// is published on all addresses, `image_bloat` exactly when it uses five
/// images or more, `stale_stopped:<n>` exactly when `n` containers have been
/// stopped for a day or more and `n > 0`, `port_conflict:<k>` exactly when
/// the project and another one publish host port `k`, and
/// `shared_volume:<v>` exactly when the project and another one mount `v`.
/// (`project_fingerprints` lists each project's signal set, sorted.)
pub proof fn law_signals_name_their_causes(ps: Seq<ProjectView>, i: int, k: Seq<char>, v: Seq<char>)
    requires
        0 <= i < ps.len(),
    ensures
        crate::health::signal_set(ps, i).contains("inactive"@) == (active_spec(ps[i]) == 0),
        crate::health::signal_set(ps, i).contains("public_bind"@) == crate::health::any_public(ps[i]),
        crate::health::signal_set(ps, i).contains("image_bloat"@) == (ps[i].images.len() >= 5),
        crate::health::signal_set(ps, i).contains(
            "stale_stopped:"@ + decimal(crate::health::stale_count(ps[i].containers)),
        ) == (crate::health::stale_count(ps[i].containers) > 0),
        crate::health::signal_set(ps, i).contains("port_conflict:"@ + k) == (
        crate::health::port_owners(ps, k).contains(ps[i].name) && crate::health::port_owners(
            ps,
            k,
        ).len() > 1),
        crate::health::signal_set(ps, i).contains("shared_volume:"@ + v) == (
        crate::health::volume_owners(ps, v).contains(ps[i].name) && crate::health::volume_owners(
            ps,
            v,
        ).len() > 1),
{
    let p = ps[i];
    let q = ps[crate::health::find_project_spec(ps, p.name)];
    lemma_plain_findings(q);
    lemma_word_tags();
    let n = crate::health::stale_count(p.containers);
    let stale = "stale_stopped:"@ + decimal(n);
    lemma_prefixed_tag("stale_stopped:"@, decimal(n));
    lemma_prefixed_tag("port_conflict:"@, k);
    lemma_prefixed_tag("shared_volume:"@, v);
    let fset = findings_spec(q).to_set();
    // Findings hold no signal word.
    assert forall|t: Seq<char>| fset.contains(t) implies signal_tag(t) == 0 by {
        let j = choose|j: int| 0 <= j < findings_spec(q).len() && findings_spec(q)[j] == t;
        assert(signal_tag(findings_spec(q)[j]) == 0);
    }
    // Security signals are tagged 7.
    assert forall|t: Seq<char>| crate::health::security_signals(p).contains(t) implies signal_tag(t) == 7 by {
        let (ci, ri) = choose|ci: int, ri: int|
            0 <= ci < p.containers.len() && 0 <= ri < crate::health::risks_spec(p.containers[ci]).len()
                && t == "security:"@ + #[trigger] crate::health::risks_spec(p.containers[ci])[ri];
        lemma_prefixed_tag("security:"@, crate::health::risks_spec(p.containers[ci])[ri]);
    }
    // Conflict and shared signals are tagged 5 and 6.
    assert forall|t: Seq<char>| crate::health::conflict_signals(ps, p.name).contains(t) implies signal_tag(t) == 5 by {
        let k2 = choose|k2: Seq<char>|
            t == "port_conflict:"@ + k2 && #[trigger] crate::health::port_owners(ps, k2).contains(p.name)
                && crate::health::port_owners(ps, k2).len() > 1;
        lemma_prefixed_tag("port_conflict:"@, k2);
    }
    assert forall|t: Seq<char>| crate::health::shared_signals(ps, p.name).contains(t) implies signal_tag(t) == 6 by {
        let v2 = choose|v2: Seq<char>|
            t == "shared_volume:"@ + v2 && #[trigger] crate::health::volume_owners(ps, v2).contains(p.name)
                && crate::health::volume_owners(ps, v2).len() > 1;
        lemma_prefixed_tag("shared_volume:"@, v2);
    }
    // The exact port and volume signals.
    if crate::health::conflict_signals(ps, p.name).contains("port_conflict:"@ + k) {
        let k2 = choose|k2: Seq<char>|
            "port_conflict:"@ + k == "port_conflict:"@ + k2 && #[trigger] crate::health::port_owners(ps, k2).contains(p.name)
                && crate::health::port_owners(ps, k2).len() > 1;
        lemma_cancel_prefix("port_conflict:"@, k, k2);
    }
    if crate::health::port_owners(ps, k).contains(p.name) && crate::health::port_owners(ps, k).len() > 1 {
        assert(crate::health::conflict_signals(ps, p.name).contains("port_conflict:"@ + k));
    }
    if crate::health::shared_signals(ps, p.name).contains("shared_volume:"@ + v) {
        let v2 = choose|v2: Seq<char>|
            "shared_volume:"@ + v == "shared_volume:"@ + v2 && #[trigger] crate::health::volume_owners(ps, v2).contains(p.name)
                && crate::health::volume_owners(ps, v2).len() > 1;
        lemma_cancel_prefix("shared_volume:"@, v, v2);
    }
    if crate::health::volume_owners(ps, v).contains(p.name) && crate::health::volume_owners(ps, v).len() > 1 {
        assert(crate::health::shared_signals(ps, p.name).contains("shared_volume:"@ + v));
    }
}

/// The only stale-containers signal of a project is `stale_stopped:<n>` for
/// its count `n > 0`.
proof fn lemma_stale_signals(ps: Seq<ProjectView>, i: int, t: Seq<char>)
    requires
        0 <= i < ps.len(),
        crate::health::signal_set(ps, i).contains(t),
        has_prefix(t, "stale_stopped:"@),
    ensures
        crate::health::stale_count(ps[i].containers) > 0,
{
    reveal_strlit("inactive");
    reveal_strlit("public_bind");
    reveal_strlit("image_bloat");
    reveal_strlit("stale_stopped:");
    let p = ps[i];
    let q = ps[crate::health::find_project_spec(ps, p.name)];
    lemma_plain_findings(q);
    lemma_word_tags();
    assert(signal_tag(t) == 4) by {
        assert(t.len() >= 14);
    }
    if findings_spec(q).to_set().contains(t) {
        let j = choose|j: int| 0 <= j < findings_spec(q).len() && findings_spec(q)[j] == t;
        assert(signal_tag(findings_spec(q)[j]) == 0);
    }
    if crate::health::security_signals(p).contains(t) {
        let (ci, ri) = choose|ci: int, ri: int|
            0 <= ci < p.containers.len() && 0 <= ri < crate::health::risks_spec(p.containers[ci]).len()
                && t == "security:"@ + #[trigger] crate::health::risks_spec(p.containers[ci])[ri];
        lemma_prefixed_tag("security:"@, crate::health::risks_spec(p.containers[ci])[ri]);
    }
    if crate::health::conflict_signals(ps, p.name).contains(t) {
        let k2 = choose|k2: Seq<char>|
            t == "port_conflict:"@ + k2 && #[trigger] crate::health::port_owners(ps, k2).contains(p.name)
                && crate::health::port_owners(ps, k2).len() > 1;
        lemma_prefixed_tag("port_conflict:"@, k2);
    }
    if crate::health::shared_signals(ps, p.name).contains(t) {
        let v2 = choose|v2: Seq<char>|
            t == "shared_volume:"@ + v2 && #[trigger] crate::health::volume_owners(ps, v2).contains(p.name)
                && crate::health::volume_owners(ps, v2).len() > 1;
        lemma_prefixed_tag("shared_volume:"@, v2);
    }
}

/// The next command suggested for a project, given its signals listed in
/// any order (`project_fingerprints` lists them sorted): a rescue dry run
/// when it has unhealthy or restarting containers, else a safe-prune dry
/// run when containers have been stopped for a day or more, else an
/// inspection when it shares a volume, else a remove plan when no
/// container is active, else an inspection.
pub proof fn law_suggested_command(ps: Seq<ProjectView>, i: int, sg: Seq<Seq<char>>)
    requires
        0 <= i < ps.len(),
        sg.to_set() == crate::health::signal_set(ps, i),
    ensures
        crate::health::suggested_spec(ps[i], sg) == if ps[i].unhealthy > 0 || ps[i].restarting > 0 {
            "hugdocker rescue "@ + ps[i].name + " --dry-run"@
        } else if crate::health::stale_count(ps[i].containers) > 0 {
            "hugdocker safe-prune --dry-run"@
        } else if crate::health::any_kind(sg, crate::health::SignalKind::SharedVolume) {
            "hugdocker inspect "@ + ps[i].name
        } else if active_spec(ps[i]) == 0 {
            "hugdocker plan remove "@ + ps[i].name
        } else {
            "hugdocker inspect "@ + ps[i].name
        },
{
    let p = ps[i];
    let n = crate::health::stale_count(p.containers);
    law_signals_name_their_causes(ps, i, Seq::empty(), Seq::empty());
    assert(sg.contains("inactive"@) == sg.to_set().contains("inactive"@));
    if crate::health::any_kind(sg, crate::health::SignalKind::StaleStopped) {
        let j = choose|j: int| 0 <= j < sg.len() && crate::health::signal_is(
            crate::health::SignalKind::StaleStopped,
            #[trigger] sg[j],
        );
        assert(sg.to_set().contains(sg[j]));
        lemma_stale_signals(ps, i, sg[j]);
    }
    if n > 0 {
        let t = "stale_stopped:"@ + decimal(n);
        assert(sg.to_set().contains(t));
        let j = choose|j: int| 0 <= j < sg.len() && sg[j] == t;
        reveal_strlit("stale_stopped:");
        assert(t.subrange(0, 14) =~= "stale_stopped:"@);
        assert(crate::health::signal_is(crate::health::SignalKind::StaleStopped, sg[j]));
    }
}

// ---------------------------------------------------------------------------
// Orphan networks and volumes
// ---------------------------------------------------------------------------

/// The orphan candidates among `names` (`global_findings` names the first
/// five of them, networks and volumes apart) are exactly the names that no
/// project uses, and for networks that are no default network (`bridge`,
/// `host`, `none`), in the engine's order.
pub proof fn law_orphans_are_the_unused_names(
    names: Seq<Seq<char>>,
    used: Set<Seq<char>>,
    skip_default: bool,
)
    ensures
        crate::health::unused(names, used, skip_default) == names.filter(
            |n: Seq<char>| !used.contains(n) && !(skip_default && crate::health::default_network_spec(n)),
        ),
    decreases names.len(),
{
    let pred = |n: Seq<char>| !used.contains(n) && !(skip_default && crate::health::default_network_spec(n));
    if names.len() == 0 {
        assert(names.filter(pred) =~= Seq::<Seq<char>>::empty()) by {
            reveal(Seq::filter);
        }
    } else {
        let t = names.drop_last();
        law_orphans_are_the_unused_names(t, used, skip_default);
        assert(t.push(names.last()) =~= names);
        t.lemma_filter_push(names.last(), pred);
    }
}

// ---------------------------------------------------------------------------
// Shared ports and volumes
// ---------------------------------------------------------------------------

/// Of a set of names within a finite set, holding `a`: it has more than one
/// name exactly when it holds another name.
proof fn lemma_more_than_one(o: Set<Seq<char>>, all: Set<Seq<char>>, a: Seq<char>)
    requires
        all.finite(),
        o.subset_of(all),
        o.contains(a),
    ensures
        o.len() > 1 <==> exists|b: Seq<char>| b != a && #[trigger] o.contains(b),
{
    vstd::set_lib::lemma_len_subset(o, all);
    if exists|b: Seq<char>| b != a && #[trigger] o.contains(b) {
        let b = choose|b: Seq<char>| b != a && #[trigger] o.contains(b);
        let two = Set::empty().insert(a).insert(b);
        assert(two.len() == 2);
        vstd::set_lib::lemma_len_subset(two, o);
    } else {
        let one = Set::empty().insert(a);
        assert(o.subset_of(one));
        vstd::set_lib::lemma_len_subset(o, one);
    }
}

/// The names of the projects.
pub open spec fn project_names(ps: Seq<ProjectView>) -> Set<Seq<char>> {
    names_of(ps).to_set()
}

/// A project gets `port_conflict:<k>` exactly when it publishes host port
/// `k` and another project (by name) publishes it too, and
/// `shared_volume:<v>` exactly when it mounts `v` and another project
/// mounts it too (project names being unique, as in a snapshot).
pub proof fn law_conflicts_need_another_project(ps: Seq<ProjectView>, i: int, k: Seq<char>, v: Seq<char>)
    requires
        0 <= i < ps.len(),
        names_of(ps).no_duplicates(),
    ensures
        crate::health::signal_set(ps, i).contains("port_conflict:"@ + k) == (
        crate::health::has_port_key(ps[i], k) && exists|j: int|
            0 <= j < ps.len() && (#[trigger] ps[j]).name != ps[i].name && crate::health::has_port_key(
                ps[j],
                k,
            )),
        crate::health::signal_set(ps, i).contains("shared_volume:"@ + v) == (ps[i].volumes.contains(v)
            && exists|j: int|
            0 <= j < ps.len() && (#[trigger] ps[j]).name != ps[i].name && ps[j].volumes.contains(v)),
{
    broadcast use vstd::seq_lib::seq_to_set_is_finite;

    law_signals_name_their_causes(ps, i, k, v);
    let all = project_names(ps);
    let po = crate::health::port_owners(ps, k);
    let vo = crate::health::volume_owners(ps, v);
    assert(po.subset_of(all)) by {
        assert forall|n: Seq<char>| po.contains(n) implies all.contains(n) by {
            let t = choose|t: int| 0 <= t < ps.len() && (#[trigger] ps[t]).name == n && crate::health::has_port_key(ps[t], k);
            assert(names_of(ps)[t] == n);
        }
    }
    assert(vo.subset_of(all)) by {
        assert forall|n: Seq<char>| vo.contains(n) implies all.contains(n) by {
            let t = choose|t: int| 0 <= t < ps.len() && (#[trigger] ps[t]).name == n && ps[t].volumes.contains(v);
            assert(names_of(ps)[t] == n);
        }
    }
    let a = ps[i].name;
    if crate::health::has_port_key(ps[i], k) {
        assert(po.contains(a));
        lemma_more_than_one(po, all, a);
        if exists|j: int| 0 <= j < ps.len() && (#[trigger] ps[j]).name != a && crate::health::has_port_key(ps[j], k) {
            let j = choose|j: int| 0 <= j < ps.len() && (#[trigger] ps[j]).name != a && crate::health::has_port_key(ps[j], k);
            assert(po.contains(ps[j].name));
        }
        if exists|b: Seq<char>| b != a && #[trigger] po.contains(b) {
            let b = choose|b: Seq<char>| b != a && #[trigger] po.contains(b);
            let t = choose|t: int| 0 <= t < ps.len() && (#[trigger] ps[t]).name == b && crate::health::has_port_key(ps[t], k);
        }
    } else {
        if po.contains(a) {
            let t = choose|t: int| 0 <= t < ps.len() && (#[trigger] ps[t]).name == a && crate::health::has_port_key(ps[t], k);
            assert(names_of(ps)[t] == names_of(ps)[i]);
        }
    }
    if ps[i].volumes.contains(v) {
        assert(vo.contains(a));
        lemma_more_than_one(vo, all, a);
        if exists|j: int| 0 <= j < ps.len() && (#[trigger] ps[j]).name != a && ps[j].volumes.contains(v) {
            let j = choose|j: int| 0 <= j < ps.len() && (#[trigger] ps[j]).name != a && ps[j].volumes.contains(v);
            assert(vo.contains(ps[j].name));
        }
        if exists|b: Seq<char>| b != a && #[trigger] vo.contains(b) {
            let b = choose|b: Seq<char>| b != a && #[trigger] vo.contains(b);
            let t = choose|t: int| 0 <= t < ps.len() && (#[trigger] ps[t]).name == b && ps[t].volumes.contains(v);
        }
    } else {
        if vo.contains(a) {
            let t = choose|t: int| 0 <= t < ps.len() && (#[trigger] ps[t]).name == a && ps[t].volumes.contains(v);
            assert(names_of(ps)[t] == names_of(ps)[i]);
        }
    }
}

// ---------------------------------------------------------------------------
// What each operation touches
// ---------------------------------------------------------------------------

/// Whether an action acts on a container: start, restart, remove and purge
/// on every container, stop and rescue on the active ones, prune on none.
pub open spec fn acts_on(action: OperationAction, c: ContainerView) -> bool {
    match action {
        OperationAction::Prune => false,
        OperationAction::Stop | OperationAction::Rescue => crate::domain::is_active_spec(c.state),
        _ => true,
    }
}

/// The ids of the containers `cs` that the action acts on.
pub open spec fn acted_ids(cs: Seq<ContainerView>, action: OperationAction) -> Set<Seq<char>> {
    Set::new(
        |id: Seq<char>|
            exists|k: int| 0 <= k < cs.len() && (#[trigger] cs[k]).id == id && acts_on(action, cs[k]),
    )
}

/// The ids of the containers of the projects `ps` that the action acts on.
pub open spec fn acted_project_ids(ps: Seq<ProjectView>, action: OperationAction) -> Set<Seq<char>> {
    Set::new(
        |id: Seq<char>|
            exists|i: int, k: int|
                0 <= i < ps.len() && 0 <= k < ps[i].containers.len() && (#[trigger] ps[i].containers[k]).id
                    == id && acts_on(action, ps[i].containers[k]),
    )
}

proof fn lemma_touched_ids(cs: Seq<ContainerView>, action: OperationAction)
    ensures
        crate::ops::touched_ids(cs, action) == acted_ids(cs, action),
    decreases cs.len(),
{
    if cs.len() > 0 {
        let t = cs.drop_last();
        let c = cs.last();
        lemma_touched_ids(t, action);
        let next = if acts_on(action, c) {
            acted_ids(t, action).insert(c.id)
        } else {
            acted_ids(t, action)
        };
        assert forall|id: Seq<char>| acted_ids(cs, action).contains(id) <==> next.contains(id) by {
            if acted_ids(cs, action).contains(id) {
                let k = choose|k: int| 0 <= k < cs.len() && (#[trigger] cs[k]).id == id && acts_on(action, cs[k]);
                if k < t.len() {
                    assert(t[k] == cs[k]);
                }
            }
            if acted_ids(t, action).contains(id) {
                let k = choose|k: int| 0 <= k < t.len() && (#[trigger] t[k]).id == id && acts_on(action, t[k]);
                assert(cs[k] == t[k]);
            }
            if acts_on(action, c) && id == c.id {
                assert(cs[cs.len() - 1] == c);
            }
        }
        assert(acted_ids(cs, action) =~= next);
    } else {
        assert(acted_ids(cs, action) =~= Set::<Seq<char>>::empty());
    }
}

proof fn lemma_ids_of(ps: Seq<ProjectView>, action: OperationAction)
    ensures
        ids_of(ps, action) == acted_project_ids(ps, action),
    decreases ps.len(),
{
    if ps.len() > 0 {
        let t = ps.drop_last();
        lemma_ids_of(t, action);
        lemma_touched_ids(ps.last().containers, action);
        let l = ps.last().containers;
        assert forall|id: Seq<char>| acted_project_ids(ps, action).contains(id) <==> (acted_project_ids(t, action)
            + acted_ids(l, action)).contains(id) by {
            if acted_project_ids(ps, action).contains(id) {
                let (i, k) = choose|i: int, k: int|
                    0 <= i < ps.len() && 0 <= k < ps[i].containers.len() && (#[trigger] ps[i].containers[k]).id
                        == id && acts_on(action, ps[i].containers[k]);
                if i < t.len() {
                    assert(t[i] == ps[i]);
                    assert(t[i].containers[k].id == id);
                } else {
                    assert(l[k] == ps[i].containers[k]);
                }
            }
            if acted_project_ids(t, action).contains(id) {
                let (i, k) = choose|i: int, k: int|
                    0 <= i < t.len() && 0 <= k < t[i].containers.len() && (#[trigger] t[i].containers[k]).id
                        == id && acts_on(action, t[i].containers[k]);
                assert(ps[i] == t[i]);
                assert(ps[i].containers[k].id == id);
            }
            if acted_ids(l, action).contains(id) {
                let k = choose|k: int| 0 <= k < l.len() && (#[trigger] l[k]).id == id && acts_on(action, l[k]);
                assert(ps[ps.len() - 1].containers[k] == l[k]);
            }
        }
        assert(acted_project_ids(ps, action) =~= acted_project_ids(t, action) + acted_ids(l, action));
    } else {
        assert(acted_project_ids(ps, action) =~= Set::<Seq<char>>::empty());
    }
}

/// The containers a plan names are exactly those of the selected projects
/// that its action acts on: every one of them, whatever its state, for
/// start, restart, remove and purge; the running, restarting, paused and
/// unhealthy ones for stop and rescue; none for prune.
pub proof fn law_plans_name_the_containers_their_action_takes(
    r: OperationPlan,
    ps: Seq<ProjectView>,
    names: Seq<Seq<char>>,
    action: OperationAction,
)
    requires
        is_plan(r, ps, names, action),
    ensures
        forall|id: Seq<char>|
            #[trigger] strs(r.containers@).contains(id) <==> exists|i: int, k: int|
                0 <= i < names.len() && 0 <= k < selected(ps, names)[i].containers.len() && (
                #[trigger] selected(ps, names)[i].containers[k]).id == id && match action {
                    OperationAction::Prune => false,
                    OperationAction::Stop | OperationAction::Rescue => crate::domain::is_active_spec(
                        selected(ps, names)[i].containers[k].state,
                    ),
                    _ => true,
                },
{
    lemma_ids_of(selected(ps, names), action);
    assert forall|id: Seq<char>| #[trigger] strs(r.containers@).contains(id) <==> exists|i: int, k: int|
        0 <= i < names.len() && 0 <= k < selected(ps, names)[i].containers.len() && (
        #[trigger] selected(ps, names)[i].containers[k]).id == id && match action {
            OperationAction::Prune => false,
            OperationAction::Stop | OperationAction::Rescue => crate::domain::is_active_spec(
                selected(ps, names)[i].containers[k].state,
            ),
            _ => true,
        } by {
        assert(strs(r.containers@).contains(id) <==> strs(r.containers@).to_set().contains(id));
    }
}

// ---------------------------------------------------------------------------
// Engine calls per action
// ---------------------------------------------------------------------------

/// Executing a plan (not a dry run) makes one engine call per planned
/// container, in plan order: a start for start, a stop for stop, a restart
/// for restart and rescue, a removal for remove; purge removes the
/// containers, then the volumes, then the images.
pub proof fn law_one_engine_call_per_target(
    action: OperationAction,
    cs: Seq<Seq<char>>,
    vs: Seq<Seq<char>>,
    is: Seq<Seq<char>>,
)
    ensures
        action != OperationAction::Prune && action != OperationAction::Purge ==> execution_steps_spec(
            action,
            false,
            cs,
            vs,
            is,
        ).len() == cs.len(),
        forall|k: int|
            #![trigger cs[k]]
            0 <= k < cs.len() ==> (action == OperationAction::Start ==> execution_steps_spec(
                action,
                false,
                cs,
                vs,
                is,
            )[k] == StepView::StartContainer(cs[k])) && (action == OperationAction::Stop
                ==> execution_steps_spec(action, false, cs, vs, is)[k] == StepView::StopContainer(
                cs[k],
            )) && ((action == OperationAction::Restart || action == OperationAction::Rescue)
                ==> execution_steps_spec(action, false, cs, vs, is)[k] == StepView::RestartContainer(
                cs[k],
            )) && ((action == OperationAction::Remove || action == OperationAction::Purge)
                ==> execution_steps_spec(action, false, cs, vs, is)[k] == StepView::RemoveContainer(
                cs[k],
            )),
        action == OperationAction::Purge ==> execution_steps_spec(action, false, cs, vs, is).len()
            == cs.len() + vs.len() + is.len(),
        action == OperationAction::Purge ==> forall|k: int|
            0 <= k < vs.len() ==> #[trigger] execution_steps_spec(action, false, cs, vs, is)[cs.len()
                + k] == StepView::RemoveVolume(vs[k]),
        action == OperationAction::Purge ==> forall|k: int|
            0 <= k < is.len() ==> #[trigger] execution_steps_spec(action, false, cs, vs, is)[cs.len()
                + vs.len() + k] == StepView::RemoveImage(is[k]),
{
}

// ---------------------------------------------------------------------------
// Long-stopped containers
// ---------------------------------------------------------------------------

/// A container counts as stopped for long exactly when it is not active
/// and its status, in lower case, says it stopped days, weeks, months or
/// years ago (" day", " week", " month", " year").
pub proof fn law_long_stopped_containers(
    state: crate::domain::ContainerState,
    status: Seq<char>,
)
    ensures
        crate::health::stale_spec(state, status) == (!crate::domain::is_active_spec(state) && (
        crate::text::has_infix(crate::text::lower_seq(status), " day"@) || crate::text::has_infix(
            crate::text::lower_seq(status),
            " week"@,
        ) || crate::text::has_infix(crate::text::lower_seq(status), " month"@)
            || crate::text::has_infix(crate::text::lower_seq(status), " year"@))),
{
}

proof fn lemma_stale_count_positive(cs: Seq<ContainerView>, k: int)
    requires
        0 <= k < cs.len(),
        crate::health::stale_spec(cs[k].state, cs[k].status),
    ensures
        crate::health::stale_count(cs) > 0,
    decreases cs.len(),
{
    if k < cs.len() - 1 {
        lemma_stale_count_positive(cs.drop_last(), k);
    }
}

/// A project with a container that is not active and whose status says it
/// stopped weeks (or days, months, years) ago gets a `stale_stopped:<n>`
/// signal with `n > 0`.
pub proof fn law_long_stopped_container_gives_stale_signal(ps: Seq<ProjectView>, i: int, k: int)
    requires
        0 <= i < ps.len(),
        0 <= k < ps[i].containers.len(),
        !crate::domain::is_active_spec(ps[i].containers[k].state),
        crate::text::has_infix(crate::text::lower_seq(ps[i].containers[k].status), " day"@)
            || crate::text::has_infix(crate::text::lower_seq(ps[i].containers[k].status), " week"@)
            || crate::text::has_infix(crate::text::lower_seq(ps[i].containers[k].status), " month"@)
            || crate::text::has_infix(crate::text::lower_seq(ps[i].containers[k].status), " year"@),
    ensures
        crate::health::stale_count(ps[i].containers) > 0,
        crate::health::signal_set(ps, i).contains(
            "stale_stopped:"@ + decimal(crate::health::stale_count(ps[i].containers)),
        ),
{
    law_long_stopped_containers(ps[i].containers[k].state, ps[i].containers[k].status);
    lemma_stale_count_positive(ps[i].containers, k);
    law_signals_name_their_causes(ps, i, Seq::empty(), Seq::empty());
}

// ---------------------------------------------------------------------------
// Standalone groups
// ---------------------------------------------------------------------------

proof fn lemma_first_prefix_group(rules: Seq<(Seq<char>, Seq<char>)>, s: Seq<char>, j: int)
    requires
        -1 <= j < rules.len(),
        j >= 0 ==> has_prefix(s, rules[j].0),
        forall|t: int| 0 <= t < rules.len() && (j < 0 || t < j) ==> !has_prefix(s, #[trigger] rules[t].0),
    ensures
        crate::domain::first_prefix_group(rules, s) == if j >= 0 {
            Some(rules[j].1)
        } else {
            None::<Seq<char>>
        },
    decreases rules.len(),
{
    if rules.len() > 0 && j != 0 {
        let r = rules.drop_first();
        assert forall|t: int| 0 <= t < r.len() && (j - 1 < 0 || t < j - 1) implies !has_prefix(
            s,
            #[trigger] r[t].0,
        ) by {
            assert(r[t] == rules[t + 1]);
        }
        if j > 0 {
            assert(r[j - 1] == rules[j]);
            lemma_first_prefix_group(r, s, j - 1);
        } else {
            lemma_first_prefix_group(r, s, -1);
        }
    }
}

/// A standalone container that no exact or name-prefix rule groups is
/// grouped by its image: under the group of the first image-prefix rule
/// whose prefix starts the image; a container with no Compose or stack
/// name and no labels lands in the project of that name.
pub proof fn law_image_rules_group_by_image(c: ContainerView, g: GroupConfig, j: int)
    requires
        crate::sorted::pair_get(crate::sorted::pairs(g.exact@), c.name) is None,
        forall|t: int|
            0 <= t < g.prefix@.len() ==> !has_prefix(c.name, #[trigger] crate::sorted::pairs(g.prefix@)[t].0),
        0 <= j < g.image_prefix@.len(),
        has_prefix(c.image, crate::sorted::pairs(g.image_prefix@)[j].0),
        forall|t: int|
            0 <= t < j ==> !has_prefix(c.image, #[trigger] crate::sorted::pairs(g.image_prefix@)[t].0),
    ensures
        crate::domain::standalone_spec(c, g) == g.image_prefix@[j].1@,
        c.compose_project is None && c.stack_namespace is None && c.labels.len() == 0 ==> group_of(c, g)
            == g.image_prefix@[j].1@,
{
    lemma_first_prefix_group(crate::sorted::pairs(g.prefix@), c.name, -1);
    lemma_first_prefix_group(crate::sorted::pairs(g.image_prefix@), c.image, j);
}

/// The rules for standalone containers apply in order: a rule for the
/// exact container name wins; else the first rule whose prefix starts the
/// container name; else (see `law_image_rules_group_by_image`) the image
/// rules; with no rule at all the group is the container's own name.
pub proof fn law_standalone_rules_in_order(c: ContainerView, g: GroupConfig, j: int)
    requires
        crate::sorted::strictly_sorted(crate::sorted::keys(crate::sorted::pairs(g.exact@))),
    ensures
        0 <= j < g.exact@.len() && g.exact@[j].0@ == c.name ==> crate::domain::standalone_spec(c, g)
            == g.exact@[j].1@,
        (forall|t: int| 0 <= t < g.exact@.len() ==> (#[trigger] g.exact@[t]).0@ != c.name) && 0 <= j
            < g.prefix@.len() && has_prefix(c.name, g.prefix@[j].0@) && (forall|t: int|
            0 <= t < j ==> !has_prefix(c.name, (#[trigger] g.prefix@[t]).0@))
            ==> crate::domain::standalone_spec(c, g) == g.prefix@[j].1@,
        (forall|t: int| 0 <= t < g.exact@.len() ==> (#[trigger] g.exact@[t]).0@ != c.name) && (forall|
            t: int,
        | 0 <= t < g.prefix@.len() ==> !has_prefix(c.name, (#[trigger] g.prefix@[t]).0@)) && (forall|
            t: int,
        | 0 <= t < g.image_prefix@.len() ==> !has_prefix(c.image, (#[trigger] g.image_prefix@[t]).0@))
            ==> crate::domain::standalone_spec(c, g) == c.name,
{
    let ex = crate::sorted::pairs(g.exact@);
    let px = crate::sorted::pairs(g.prefix@);
    let ipx = crate::sorted::pairs(g.image_prefix@);
    if 0 <= j < g.exact@.len() && g.exact@[j].0@ == c.name {
        crate::sorted::lemma_pair_get_sorted(ex, j);
    }
    if forall|t: int| 0 <= t < g.exact@.len() ==> (#[trigger] g.exact@[t]).0@ != c.name {
        crate::sorted::lemma_pair_get_index(ex, c.name);
        assert forall|t: int| 0 <= t < ex.len() implies ex[t].0 != c.name by {
            assert(ex[t].0 == g.exact@[t].0@);
        }
        if 0 <= j < g.prefix@.len() && has_prefix(c.name, g.prefix@[j].0@) && (forall|t: int|
            0 <= t < j ==> !has_prefix(c.name, (#[trigger] g.prefix@[t]).0@)) {
            assert forall|t: int| 0 <= t < px.len() && t < j implies !has_prefix(c.name, #[trigger] px[t].0) by {
                assert(px[t].0 == g.prefix@[t].0@);
            }
            lemma_first_prefix_group(px, c.name, j);
        }
        if (forall|t: int| 0 <= t < g.prefix@.len() ==> !has_prefix(c.name, (#[trigger] g.prefix@[t]).0@))
            && (forall|t: int|
            0 <= t < g.image_prefix@.len() ==> !has_prefix(c.image, (#[trigger] g.image_prefix@[t]).0@)) {
            assert forall|t: int| 0 <= t < px.len() implies !has_prefix(c.name, #[trigger] px[t].0) by {
                assert(px[t].0 == g.prefix@[t].0@);
            }
            assert forall|t: int| 0 <= t < ipx.len() implies !has_prefix(c.image, #[trigger] ipx[t].0) by {
                assert(ipx[t].0 == g.image_prefix@[t].0@);
            }
            lemma_first_prefix_group(px, c.name, -1);
            lemma_first_prefix_group(ipx, c.image, -1);
        }
    }
}

// ---------------------------------------------------------------------------
// Severity order
// ---------------------------------------------------------------------------

/// In the default (severity) listing, a project with unhealthy containers
/// comes before every project without; after them, projects restarting,
/// then paused, then running, then with only stopped containers, then
/// empty ones.
pub proof fn law_unhealthy_projects_list_first(s: Seq<ProjectView>, i: int, j: int)
    requires
        0 <= i < j < sorted_by(s, SortMode::Severity).len(),
    ensures
        sorted_by(s, SortMode::Severity)[j].unhealthy > 0 ==> sorted_by(s, SortMode::Severity)[i].unhealthy
            > 0,
        sorted_by(s, SortMode::Severity)[j].restarting > 0 ==> sorted_by(s, SortMode::Severity)[i].unhealthy
            > 0 || sorted_by(s, SortMode::Severity)[i].restarting > 0,
        sorted_by(s, SortMode::Severity)[j].paused > 0 ==> sorted_by(s, SortMode::Severity)[i].unhealthy
            > 0 || sorted_by(s, SortMode::Severity)[i].restarting > 0 || sorted_by(
            s,
            SortMode::Severity,
        )[i].paused > 0,
        sorted_by(s, SortMode::Severity)[j].running > 0 ==> sorted_by(s, SortMode::Severity)[i].unhealthy
            > 0 || sorted_by(s, SortMode::Severity)[i].restarting > 0 || sorted_by(
            s,
            SortMode::Severity,
        )[i].paused > 0 || sorted_by(s, SortMode::Severity)[i].running > 0,
        sorted_by(s, SortMode::Severity)[j].containers.len() > 0 ==> sorted_by(
            s,
            SortMode::Severity,
        )[i].unhealthy > 0 || sorted_by(s, SortMode::Severity)[i].restarting > 0 || sorted_by(
            s,
            SortMode::Severity,
        )[i].paused > 0 || sorted_by(s, SortMode::Severity)[i].running > 0 || sorted_by(
            s,
            SortMode::Severity,
        )[i].containers.len() > 0,
{
    law_severe_projects_first(s, i, j);
}

/// Listing by name puts the names in lexicographic order; listing by
/// activity puts projects with more running, restarting, paused and
/// unhealthy containers first.
pub proof fn law_name_and_activity_orders(s: Seq<ProjectView>, i: int, j: int)
    requires
        0 <= i < j < s.len(),
    ensures
        !lex_lt(sorted_by(s, SortMode::NameAsc)[j].name, sorted_by(s, SortMode::NameAsc)[i].name),
        sorted_by(s, SortMode::ActiveDesc)[i].running + sorted_by(s, SortMode::ActiveDesc)[i].restarting
            + sorted_by(s, SortMode::ActiveDesc)[i].paused + sorted_by(s, SortMode::ActiveDesc)[i].unhealthy
            >= sorted_by(s, SortMode::ActiveDesc)[j].running + sorted_by(s, SortMode::ActiveDesc)[j].restarting
            + sorted_by(s, SortMode::ActiveDesc)[j].paused + sorted_by(s, SortMode::ActiveDesc)[j].unhealthy,
{
    lemma_sorted_by_ordered(s, SortMode::NameAsc);
    lemma_sorted_by_ordered(s, SortMode::ActiveDesc);
    let a = sorted_by(s, SortMode::NameAsc);
    let b = sorted_by(s, SortMode::ActiveDesc);
    assert(!project_before(a[j], a[i], SortMode::NameAsc));
    assert(!project_before(b[j], b[i], SortMode::ActiveDesc));
}

/// Confirmation tokens say what they confirm: for one project, a remove
/// token is `REMOVE-` and a purge token `DELETE-` followed by the project's
/// name, so that different projects have different tokens; and the purge
/// token of any selection is never its remove token.
pub proof fn law_tokens_name_what_they_confirm(names: Seq<Seq<char>>, other: Seq<Seq<char>>)
    ensures
        names.len() == 1 ==> token_spec(OperationAction::Remove, names) == Some("REMOVE-"@ + names[0]),
        names.len() == 1 ==> token_spec(OperationAction::Purge, names) == Some("DELETE-"@ + names[0]),
        names.len() == 1 && other.len() == 1 && names[0] != other[0] ==> token_spec(
            OperationAction::Remove,
            names,
        ) != token_spec(OperationAction::Remove, other) && token_spec(OperationAction::Purge, names)
            != token_spec(OperationAction::Purge, other),
        token_spec(OperationAction::Purge, names) != token_spec(OperationAction::Remove, names),
        token_spec(OperationAction::Prune, names) == Some("PRUNE"@),
{
    reveal_strlit("REMOVE-");
    reveal_strlit("DELETE-");
    reveal_strlit("REMOVE-BATCH-");
    reveal_strlit("DELETE-BATCH-");
    let p = token_spec(OperationAction::Purge, names)->0;
    let r = token_spec(OperationAction::Remove, names)->0;
    assert(p[0] == 'D' && r[0] == 'R');
    if names.len() == 1 && other.len() == 1 && names[0] != other[0] {
        if "REMOVE-"@ + names[0] == "REMOVE-"@ + other[0] {
            lemma_cancel_prefix("REMOVE-"@, names[0], other[0]);
        }
        if "DELETE-"@ + names[0] == "DELETE-"@ + other[0] {
            lemma_cancel_prefix("DELETE-"@, names[0], other[0]);
        }
    }
}

// ---------------------------------------------------------------------------
// Compose project names from container names
// ---------------------------------------------------------------------------

proof fn lemma_last_occurrence_is(s: Seq<char>, n: Seq<char>, j: int, target: int)
    requires
        -1 <= target <= j || (target == -1 && j < 0),
        target >= 0 ==> crate::text::occurs_at(s, n, target),
        forall|t: int| target < t <= j ==> !crate::text::occurs_at(s, n, t),
    ensures
        crate::domain::last_occurrence(s, n, j) == target,
    decreases j + 1,
{
    if j >= 0 && j != target {
        lemma_last_occurrence_is(s, n, j - 1, target);
    }
}

proof fn lemma_infer_with(project: Seq<char>, service: Seq<char>, d: Seq<char>, sep: char)
    requires
        project.len() > 0,
        crate::domain::all_digits(d),
        sep == '-' || sep == '_',
    ensures
        crate::domain::infer_with(project + seq![sep] + service + seq![sep] + d, service, sep)
            == Some(project),
{
    let marker = seq![sep] + service + seq![sep];
    let name = project + seq![sep] + service + seq![sep] + d;
    assert(name =~= project + marker + d);
    let p = project.len() as int;
    let m = marker.len() as int;
    assert(name.subrange(p, p + m) =~= marker);
    assert forall|t: int| p < t <= name.len() - m implies !crate::text::occurs_at(name, marker, t) by {
        if crate::text::occurs_at(name, marker, t) {
            assert(name.subrange(t, t + m)[m - 1] == name[t + m - 1]);
            assert(marker[m - 1] == sep);
            assert(name[t + m - 1] == d[t + m - 1 - p - m]);
        }
    }
    lemma_last_occurrence_is(name, marker, name.len() - m, p);
    assert(name.subrange(0, p) =~= project);
    assert(name.subrange(p + m, name.len() as int) =~= d);
}

/// A container whose name is `<project>-<service>-<n>` (Compose v2 naming)
/// for its service, with `<n>` made of digits, belongs to Compose project
/// `<project>`; so does `<project>_<service>_<n>` (Compose v1 naming) when
/// neither the project nor the service holds a `-`.
pub proof fn law_compose_names_give_the_project(project: Seq<char>, service: Seq<char>, d: Seq<char>)
    requires
        project.len() > 0,
        crate::domain::all_digits(d),
    ensures
        crate::domain::infer_spec(project + "-"@ + service + "-"@ + d, service) == Some(project),
        (forall|k: int| 0 <= k < project.len() ==> project[k] != '-') && (forall|k: int|
            0 <= k < service.len() ==> service[k] != '-') ==> crate::domain::infer_spec(
            project + "_"@ + service + "_"@ + d,
            service,
        ) == Some(project),
{
    reveal_strlit("-");
    reveal_strlit("_");
    assert("-"@ =~= seq!['-']);
    assert("_"@ =~= seq!['_']);
    lemma_infer_with(project, service, d, '-');
    lemma_infer_with(project, service, d, '_');
    if (forall|k: int| 0 <= k < project.len() ==> project[k] != '-') && (forall|k: int|
        0 <= k < service.len() ==> service[k] != '-') {
        let name = project + "_"@ + service + "_"@ + d;
        let marker = seq!['-'] + service + seq!['-'];
        assert forall|t: int| t <= name.len() - marker.len() implies !crate::text::occurs_at(name, marker, t) by {
            if crate::text::occurs_at(name, marker, t) {
                assert(name.subrange(t, t + marker.len())[0] == name[t]);
                let p = project.len() as int;
                let sl = service.len() as int;
                if t < p {
                    assert(name[t] == project[t]);
                } else if t == p {
                    assert(name[t] == '_');
                } else if t < p + 1 + sl {
                    assert(name[t] == service[t - p - 1]);
                } else if t == p + 1 + sl {
                    assert(name[t] == '_');
                } else {
                    assert(name[t] == d[t - p - 2 - sl]);
                }
            }
        }
        lemma_last_occurrence_is(name, marker, name.len() - marker.len(), -1);
    }
}

} // verus!

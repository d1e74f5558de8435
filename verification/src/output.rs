//! The one-line text rendering of a project used by the list views.
use vstd::prelude::*;
use crate::domain::{
    Project, ProjectKind, ProjectView, active_spec, all_counts_fit, copy_project, counts_fit,
    project_code_spec, pviews,
};
use crate::text::{decimal, decimal_chars, extend_chars, extend_str, string_of};

verus! {

/// `n` spaces.
pub open spec fn spaces(n: nat) -> Seq<char> {
    Seq::new(n, |_i: int| ' ')
}

/// `s` padded with spaces on the right to at least `w` characters (`{:<w}`).
pub open spec fn pad_right(s: Seq<char>, w: nat) -> Seq<char> {
    if s.len() >= w {
        s
    } else {
        s + spaces((w - s.len()) as nat)
    }
}

/// `s` padded with spaces on the left to at least `w` characters (`{:>w}`).
pub open spec fn pad_left(s: Seq<char>, w: nat) -> Seq<char> {
    if s.len() >= w {
        s
    } else {
        spaces((w - s.len()) as nat) + s
    }
}

/// The debug name of a project kind.
pub open spec fn kind_name(k: ProjectKind) -> Seq<char> {
    match k {
        ProjectKind::Compose => "Compose"@,
        ProjectKind::Stack => "Stack"@,
        ProjectKind::Standalone => "Standalone"@,
    }
}

/// `[CODE|Kind] name active A/T stopped S networks N volumes V`, with the
/// name padded to 24 characters and the counts to two.
pub open spec fn project_line_spec(p: ProjectView) -> Seq<char> {
    "["@ + project_code_spec(p) + "|"@ + kind_name(p.kind) + "] "@ + pad_right(p.name, 24)
        + " active "@ + pad_left(decimal(active_spec(p) as nat), 2) + "/"@ + pad_right(
        decimal(p.containers.len()),
        2,
    ) + " stopped "@ + pad_left(decimal(p.stopped as nat), 2) + " networks "@ + pad_left(
        decimal(p.networks.len()),
        2,
    ) + " volumes "@ + pad_left(decimal(p.volumes.len()), 2)
}

fn push_spaces(dst: &mut Vec<char>, n: usize)
    ensures
        final(dst)@ == old(dst)@ + spaces(n as nat),
{
    let ghost d0 = dst@;
    let mut i: usize = 0;
    while i < n
        invariant
            i <= n,
            dst@ == d0 + spaces(i as nat),
        decreases n - i,
    {
        dst.push(' ');
        i += 1;
        assert(dst@ =~= d0 + spaces(i as nat));
    }
}

fn push_pad_right(dst: &mut Vec<char>, s: &Vec<char>, w: usize)
    ensures
        final(dst)@ == old(dst)@ + pad_right(s@, w as nat),
{
    extend_chars(dst, s);
    if s.len() < w {
        push_spaces(dst, w - s.len());
    }
    assert(dst@ =~= old(dst)@ + pad_right(s@, w as nat));
}

fn push_pad_left(dst: &mut Vec<char>, s: &Vec<char>, w: usize)
    ensures
        final(dst)@ == old(dst)@ + pad_left(s@, w as nat),
{
    if s.len() < w {
        push_spaces(dst, w - s.len());
    }
    extend_chars(dst, s);
    assert(dst@ =~= old(dst)@ + pad_left(s@, w as nat));
}

fn kind_name_exec(k: ProjectKind) -> (r: &'static str)
    ensures
        r@ == kind_name(k),
{
    match k {
        ProjectKind::Compose => "Compose",
        ProjectKind::Stack => "Stack",
        ProjectKind::Standalone => "Standalone",
    }
}

/// The list-view line of a project.
pub fn project_line(project: &Project) -> (r: String)
    requires
        counts_fit(project@),
    ensures
        r@ == project_line_spec(project@),
{
    let mut v: Vec<char> = Vec::new();
    extend_str(&mut v, "[");
    extend_str(&mut v, project.state_code());
    extend_str(&mut v, "|");
    extend_str(&mut v, kind_name_exec(project.kind));
    extend_str(&mut v, "] ");
    let name = crate::text::chars_of(project.name.as_str());
    push_pad_right(&mut v, &name, 24);
    extend_str(&mut v, " active ");
    let active = decimal_chars(project.active() as u128);
    push_pad_left(&mut v, &active, 2);
    extend_str(&mut v, "/");
    let total = decimal_chars(project.containers.len() as u128);
    push_pad_right(&mut v, &total, 2);
    extend_str(&mut v, " stopped ");
    let stopped = decimal_chars(project.stopped as u128);
    push_pad_left(&mut v, &stopped, 2);
    extend_str(&mut v, " networks ");
    let networks = decimal_chars(project.networks.len() as u128);
    push_pad_left(&mut v, &networks, 2);
    extend_str(&mut v, " volumes ");
    let volumes = decimal_chars(project.volumes.len() as u128);
    push_pad_left(&mut v, &volumes, 2);
    let r = string_of(&v);
    proof {
        assert(project@.containers.len() == project.containers@.len());
        assert(project@.networks.len() == project.networks@.len());
        assert(project@.volumes.len() == project.volumes@.len());
    }
    assert(r@ =~= project_line_spec(project@));
    r
}


/// The projects with at least one active container, in their order.
pub open spec fn running_spec(ps: Seq<ProjectView>) -> Seq<ProjectView>
    decreases ps.len(),
{
    if ps.len() == 0 {
        Seq::empty()
    } else {
        let rest = running_spec(ps.drop_last());
        if active_spec(ps.last()) > 0 {
            rest.push(ps.last())
        } else {
            rest
        }
    }
}

/// The projects that have at least one active container, in the given order
/// (the `running` views of the command line).
pub fn running_projects(projects: &Vec<Project>) -> (r: Vec<Project>)
    requires
        all_counts_fit(pviews(projects@)),
    ensures
        pviews(r@) == running_spec(pviews(projects@)),
{
    let mut r: Vec<Project> = Vec::new();
    let mut i: usize = 0;
    while i < projects.len()
        invariant
            i <= projects.len(),
            all_counts_fit(pviews(projects@)),
            pviews(r@) == running_spec(pviews(projects@).subrange(0, i as int)),
        decreases projects.len() - i,
    {
        let ghost pre = pviews(projects@).subrange(0, i as int);
        let ghost next = pviews(projects@).subrange(0, i + 1);
        assert(next.drop_last() =~= pre);
        assert(next.last() == projects@[i as int]@);
        assert(counts_fit(pviews(projects@)[i as int]));
        if projects[i].active() > 0 {
            let ghost r0 = r@;
            r.push(copy_project(&projects[i]));
            assert(pviews(r@) =~= pviews(r0).push(projects@[i as int]@));
        }
        i += 1;
    }
    assert(pviews(projects@).subrange(0, projects.len() as int) =~= pviews(projects@));
    r
}

} // verus!

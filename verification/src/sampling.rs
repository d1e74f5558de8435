//! When the dashboard samples the resources of the highlighted project: the
//! decisions of the sampling schedule, from plain facts about the panel,
//! the running sample and the last one.
use vstd::prelude::*;
use crate::text::{chars_of, eq_str};

verus! {

/// What the sampler does on a turn of the event loop.
#[derive(Debug, Clone, Copy, PartialEq, Eq, Structural)]
pub enum SamplingStep {
    /// Nothing changes.
    Idle,
    /// The resources panel is closed: the running sample is dropped.
    Abort,
    /// No project is highlighted: the samples on screen are cleared.
    Clear,
    /// A new sample of the highlighted project starts; with
    /// `fresh_project` the last sample was of another project (or there was
    /// none), so no earlier sample of this one is kept for comparison.
    Sample { fresh_project: bool },
}

/// The sampling schedule: nothing but dropping a running sample while the
/// resources panel is closed; nothing while a sample runs; clearing when no
/// project is highlighted; otherwise a new sample when the last one is of
/// another project (or there is none) or the refresh interval has passed.
pub open spec fn sampling_spec(
    on_resources_panel: bool,
    task_running: bool,
    current: Option<Seq<char>>,
    sampled: Option<Seq<char>>,
    due: bool,
) -> SamplingStep {
    if !on_resources_panel {
        if task_running {
            SamplingStep::Abort
        } else {
            SamplingStep::Idle
        }
    } else if task_running {
        SamplingStep::Idle
    } else {
        match current {
            None => SamplingStep::Clear,
            Some(name) => {
                let fresh = sampled != Some(name);
                if !fresh && !due {
                    SamplingStep::Idle
                } else {
                    SamplingStep::Sample { fresh_project: fresh }
                }
            },
        }
    }
}

fn same_name(a: Option<&str>, b: &str) -> (r: bool)
    ensures
        r == (match a {
            Some(x) => x@ == b@,
            None => false,
        }),
{
    match a {
        Some(x) => {
            let v = chars_of(x);
            eq_str(&v, b)
        },
        None => false,
    }
}

/// The sampler's step, given whether the resources panel is open, whether
/// a sample is running, the highlighted project, the project of the last
/// sample, and whether the refresh interval has passed since it.
pub fn sampling_step(
    on_resources_panel: bool,
    task_running: bool,
    current: Option<&str>,
    sampled: Option<&str>,
    due: bool,
) -> (r: SamplingStep)
    ensures
        r == sampling_spec(
            on_resources_panel,
            task_running,
            match current {
                Some(x) => Some(x@),
                None => None,
            },
            match sampled {
                Some(x) => Some(x@),
                None => None,
            },
            due,
        ),
{
    if !on_resources_panel {
        if task_running {
            SamplingStep::Abort
        } else {
            SamplingStep::Idle
        }
    } else if task_running {
        SamplingStep::Idle
    } else {
        match current {
            None => SamplingStep::Clear,
            Some(name) => {
                let fresh = !same_name(sampled, name);
                if !fresh && !due {
                    SamplingStep::Idle
                } else {
                    SamplingStep::Sample { fresh_project: fresh }
                }
            },
        }
    }
}

/// What the panel shows while a new sample of `project` is taken.
#[derive(Debug, Clone, Copy, PartialEq, Eq, Structural)]
pub enum PendingView {
    /// No project: no panel data.
    Nothing,
    /// The last sample of the same project stays on screen, marked stale.
    KeepStale,
    /// A loading panel for the project.
    Loading,
}

/// The last sample stays, marked stale, when it is of the same project and
/// was taken (a sample time after the epoch); an empty project name shows
/// nothing; otherwise the panel shows loading.
pub open spec fn pending_spec(project: Seq<char>, last: Option<(Seq<char>, u128)>) -> PendingView {
    if project.len() == 0 {
        PendingView::Nothing
    } else {
        match last {
            Some((p, at)) => if p == project && at > 0 {
                PendingView::KeepStale
            } else {
                PendingView::Loading
            },
            None => PendingView::Loading,
        }
    }
}

/// The panel shown while `project` is sampled again, given the project and
/// sample time of the data on screen.
pub fn pending_view(project: &str, last: Option<(&str, u128)>) -> (r: PendingView)
    ensures
        r == pending_spec(
            project@,
            match last {
                Some((p, at)) => Some((p@, at)),
                None => None,
            },
        ),
{
    let v = chars_of(project);
    if v.len() == 0 {
        return PendingView::Nothing;
    }
    match last {
        Some((p, at)) => {
            let pv = chars_of(p);
            if eq_str(&pv, project) && at > 0 {
                PendingView::KeepStale
            } else {
                PendingView::Loading
            }
        },
        None => PendingView::Loading,
    }
}

/// Whether the sample on screen is kept to compare the next one with: it
/// is of the same project and is no loading placeholder.
pub fn keeps_previous(previous: Option<(&str, bool)>, next_project: &str) -> (r: bool)
    ensures
        r == (match previous {
            Some((p, loading)) => p@ == next_project@ && !loading,
            None => false,
        }),
{
    match previous {
        Some((p, loading)) => {
            let pv = chars_of(p);
            eq_str(&pv, next_project) && !loading
        },
        None => false,
    }
}

} // verus!

//! What holds of every projection, stated over the transition function.

use vstd::prelude::*;
use crate::binding::BindingView;
use crate::projector::{
    aborted, initial, inv, next, report, EventView, Phase, ProjectorView,
};

verus! {

/// The state reached from `s` by the events of `events`, in order.
pub open spec fn run(s: ProjectorView, events: Seq<EventView>) -> ProjectorView
    decreases events.len(),
{
    if events.len() == 0 {
        s
    } else {
        next(run(s, events.drop_last()), events.last())
    }
}

/// Running over one more event is one more transition.
pub proof fn lemma_run_push(s: ProjectorView, events: Seq<EventView>, e: EventView)
    ensures
        run(s, events.push(e)) == next(run(s, events), e),
{
    assert(events.push(e).drop_last() =~= events);
}

/// Running over two sequences in turn is running over them joined.
pub proof fn lemma_run_join(s: ProjectorView, first: Seq<EventView>, second: Seq<EventView>)
    ensures
        run(s, first + second) == run(run(s, first), second),
    decreases second.len(),
{
    if second.len() == 0 {
        assert(first + second =~= first);
    } else {
        lemma_run_join(s, first, second.drop_last());
        assert((first + second).drop_last() =~= first + second.drop_last());
    }
}

/// The initial state satisfies the invariant.
pub proof fn lemma_initial_inv()
    ensures
        inv(initial()),
{
}

/// A transition keeps the invariant, whatever the event.
pub proof fn lemma_next_keeps_inv(s: ProjectorView, e: EventView)
    requires
        inv(s),
    ensures
        inv(next(s, e)),
{
}

/// Every state that a projection reaches satisfies the invariant.
pub proof fn lemma_run_keeps_inv(events: Seq<EventView>)
    ensures
        inv(run(initial(), events)),
    decreases events.len(),
{
    if events.len() > 0 {
        lemma_run_keeps_inv(events.drop_last());
        lemma_next_keeps_inv(run(initial(), events.drop_last()), events.last());
    }
}

/// A file that cannot be read is left out and nothing else happens: the
/// projection goes on to the subdirectory's next entry with the binding
/// being filled, and the bindings completed, as they were.
pub proof fn lemma_unreadable_file_is_skipped(s: ProjectorView, reason: Seq<char>)
    requires
        s.phase == Phase::Reading,
    ensures
        next(s, EventView::Failed(reason)) == (ProjectorView { phase: Phase::ScanningBinding, ..s }),
        next(s, EventView::Failed(reason)).phase != Phase::Failed,
        next(s, EventView::Failed(reason)).current == s.current,
        next(s, EventView::Failed(reason)).done == s.done,
{
}

/// A file that was read is stored under its base name in the binding being
/// filled, and only there.
pub proof fn lemma_readable_file_is_stored(s: ProjectorView, text: Seq<char>)
    requires
        s.phase == Phase::Reading,
    ensures
        next(s, EventView::Text(text)).phase == Phase::ScanningBinding,
        next(s, EventView::Text(text)).current.name == s.current.name,
        next(s, EventView::Text(text)).current.info == s.current.info.insert(s.file, text),
        next(s, EventView::Text(text)).done == s.done,
{
}

/// A failure to list a directory, to take a listing's next entry or to
/// look up an entry's metadata aborts the projection: it reports that
/// failure and no binding.
pub proof fn lemma_listing_failure_aborts(s: ProjectorView, reason: Seq<char>)
    requires
        s.phase != Phase::Reading,
        s.phase != Phase::Finished,
        s.phase != Phase::Failed,
    ensures
        next(s, EventView::Failed(reason)) == aborted(s, reason),
        report(next(s, EventView::Failed(reason))) == Some(
            Err::<Seq<BindingView>, Seq<char>>(reason),
        ),
{
}

/// Once a projection has finished or failed, no event changes what it
/// reports.
pub proof fn lemma_report_is_final(s: ProjectorView, events: Seq<EventView>)
    requires
        report(s) is Some,
    ensures
        run(s, events) == s,
    decreases events.len(),
{
    if events.len() > 0 {
        lemma_report_is_final(s, events.drop_last());
    }
}

/// A finished projection reports one binding for each root entry found to
/// be a directory, in enumeration order, under the entry's base name.
pub proof fn lemma_finished_names(events: Seq<EventView>)
    requires
        run(initial(), events).phase == Phase::Finished,
    ensures
        ({
            let s = run(initial(), events);
            &&& report(s) == Some(Ok::<Seq<BindingView>, Seq<char>>(s.done))
            &&& s.done.len() == s.kept.len()
            &&& forall|j: int|
                0 <= j < s.done.len() ==> (#[trigger] s.done[j]).name == s.roots[s.kept[j]]
            &&& forall|i: int, j: int|
                0 <= i < j < s.kept.len() ==> 0 <= (#[trigger] s.kept[i]) < (#[trigger] s.kept[j])
                    < s.roots.len()
        }),
{
    lemma_run_keeps_inv(events);
}

/// What a projection reports depends on nothing but what the file system
/// answered: two projections that are given the same answers report the
/// same.
pub proof fn lemma_same_answers_same_report(first: Seq<EventView>, second: Seq<EventView>)
    requires
        first =~= second,
    ensures
        report(run(initial(), first)) == report(run(initial(), second)),
{
}

} // verus!

//! What holds of a resolution pass, proved over its transition function.
use vstd::prelude::*;
use crate::bundle::{bundle_of, ResourceOptionView};
use crate::errors::RegistryErrorView;
use crate::generate::{
    accepts, finish, registry_after, spec_step, ActionView, EventView, SolverResultView,
    StateView, StreamView,
};
use crate::metasources::at_place;
use crate::registry::{after_release, RegistryView};
use crate::source::first_required;

verus! {

/// What every pass keeps true: a pass that is over holds no claim and has no
/// locale in progress, and it has begun no more locales than were requested.
pub open spec fn stream_valid(m: StreamView) -> bool {
    &&& m.done ==> !m.claim && m.state is Idle
    &&& m.next_locale <= m.locales.len()
}

/// Whether an event reports that the search of a group ended without an
/// order.
pub open spec fn ends_search(event: EventView) -> bool {
    match event {
        EventView::Solver(SolverResultView::Unsatisfied(_)) => true,
        EventView::Solver(SolverResultView::Exhausted) => true,
        _ => false,
    }
}

/// The number of events that report a search ended without an order.
pub open spec fn searches_ended(events: Seq<EventView>) -> nat
    decreases events.len(),
{
    if events.len() == 0 {
        0
    } else {
        searches_ended(events.drop_last()) + if ends_search(events.last()) {
            1nat
        } else {
            0nat
        }
    }
}

/// A pass and the registry that it runs on.
pub struct Run<P, B> {
    pub pass: StreamView,
    pub registry: RegistryView<P, B>,
}

/// The pass and its registry after the events were handed in, one after the
/// other.
pub open spec fn run<P, B>(m: StreamView, reg: RegistryView<P, B>, events: Seq<EventView>) -> Run<
    P,
    B,
>
    decreases events.len(),
{
    if events.len() == 0 {
        Run { pass: m, registry: reg }
    } else {
        let before = run(m, reg, events.drop_last());
        let next = spec_step(before.pass, before.registry, events.last()).next;
        Run { pass: next, registry: registry_after(before.pass, next, before.registry) }
    }
}

/// Whether each of the events is the one that the pass waits for when it is
/// handed in.
pub open spec fn run_accepted<P, B>(
    m: StreamView,
    reg: RegistryView<P, B>,
    events: Seq<EventView>,
) -> bool
    decreases events.len(),
{
    if events.len() == 0 {
        true
    } else {
        let before = run(m, reg, events.drop_last());
        run_accepted(m, reg, events.drop_last()) && accepts(
            before.pass,
            before.registry,
            events.last(),
        )
    }
}

/// Whether a pass works on the locale that was begun as number `begun`.
pub open spec fn in_locale(m: StreamView, begun: nat) -> bool {
    !(m.state is Idle) && m.next_locale == begun
}

/// A step keeps a pass valid.
pub proof fn law_step_keeps_valid<P, B>(m: StreamView, reg: RegistryView<P, B>, event: EventView)
    requires
        stream_valid(m),
        accepts(m, reg, event),
    ensures
        stream_valid(spec_step(m, reg, event).next),
{
}

/// What a pass does next depends on the registry by its store alone, but for
/// the errors that come with the end of the pass: on the same store the same
/// request takes the same steps.
pub proof fn law_resolution_is_determined<P, B>(
    m: StreamView,
    one: RegistryView<P, B>,
    other: RegistryView<P, B>,
    event: EventView,
)
    requires
        one.store == other.store,
    ensures
        spec_step(m, one, event).next == spec_step(m, other, event).next,
        spec_step(m, one, event).action is Finished <==> spec_step(m, other, event).action
            is Finished,
        !(spec_step(m, one, event).action is Finished) ==> spec_step(m, one, event).action
            == spec_step(m, other, event).action,
{
}

/// A pass gives its claim back once: in the step that ends it. A pass that
/// holds no claim takes none, and leaves the registry as it is.
pub proof fn law_claim_is_released_once<P, B>(
    m: StreamView,
    reg: RegistryView<P, B>,
    event: EventView,
)
    requires
        stream_valid(m),
        accepts(m, reg, event),
    ensures
        ({
            let outcome = spec_step(m, reg, event);
            let after = registry_after(m, outcome.next, reg);
            &&& !m.claim ==> !outcome.next.claim && after == reg
            &&& outcome.action is Finished ==> !outcome.next.claim && outcome.next.done
            &&& m.claim && outcome.action is Finished ==> after == after_release(reg)
            &&& m.claim && !(outcome.action is Finished) ==> outcome.next.claim && after == reg
        }),
{
}

/// A pass that is cancelled holds no claim, and where it held one the
/// registry has one claim fewer.
pub proof fn law_cancel_releases<P, B>(m: StreamView, reg: RegistryView<P, B>)
    requires
        m.claim ==> reg.locks > 0,
    ensures
        !finish(m, reg).next.claim,
        finish(m, reg).next.done,
        m.claim ==> registry_after(m, finish(m, reg).next, reg).locks == reg.locks - 1,
        !m.claim ==> registry_after(m, finish(m, reg).next, reg) == reg,
{
}

/// A locale is begun at the last group of the store.
pub proof fn law_locale_begins_at_last_group<P, B>(m: StreamView, reg: RegistryView<P, B>)
    requires
        m.state is Idle,
    ensures
        ({
            let outcome = spec_step(m, reg, EventView::Resume);
            !(outcome.next.state is Idle) ==> {
                &&& outcome.next.state == StateView::Searching(m.locales[m.next_locale as int])
                &&& outcome.next.next_locale == m.next_locale + 1
                &&& outcome.next.current_metasource == reg.store.len() - 1
                &&& outcome.action == (ActionView::Search {
                    resources: m.resource_ids.len(),
                    sources: reg.store[reg.store.len() - 1].len(),
                })
            }
        }),
{
}

/// The resources of an order are loaded from the group that is searched, each
/// from the source at its place in the search order.
pub proof fn law_order_loads_from_current_group<P, B>(
    m: StreamView,
    reg: RegistryView<P, B>,
    order: Seq<usize>,
    i: int,
)
    requires
        accepts(m, reg, EventView::Solver(SolverResultView::Order(order))),
        0 <= i < order.len(),
    ensures
        ({
            let outcome = spec_step(m, reg, EventView::Solver(SolverResultView::Order(order)));
            &&& outcome.action is Load
            &&& outcome.action->Load_targets.len() == m.resource_ids.len()
            &&& outcome.action->Load_targets[i].resource == m.resource_ids[i]
            &&& outcome.action->Load_targets[i].metasource == m.current_metasource
            &&& outcome.action->Load_targets[i].source == at_place(
                reg.store[m.current_metasource as int],
                order[i] as int,
            ).name
            &&& outcome.next.current_metasource == m.current_metasource
        }),
{
}

/// On a store without groups a pass searches nothing: a locale that is left
/// is answered with one report, which names the locale and the first required
/// resource of the request, and no bundle. The claim is kept until the pass
/// ends, which it does on the next `Resume` where this was the last locale.
pub proof fn law_empty_store_reports_missing<P, B>(m: StreamView, reg: RegistryView<P, B>)
    requires
        m.state is Idle,
        !m.done,
        m.next_locale < m.locales.len(),
        reg.store.len() == 0,
        first_required(m.resource_ids) < m.resource_ids.len(),
    ensures
        ({
            let first = spec_step(m, reg, EventView::Resume);
            let after = registry_after(m, first.next, reg);
            let second = spec_step(first.next, after, EventView::Resume);
            &&& first.action == ActionView::Report(
                RegistryErrorView::MissingResource {
                    locale: m.locales[m.next_locale as int],
                    resource_id: m.resource_ids[first_required(m.resource_ids)],
                },
            )
            &&& first.next == (StreamView { next_locale: m.next_locale + 1, ..m })
            &&& after == reg
            &&& m.next_locale + 1 == m.locales.len() ==> {
                &&& second.action is Finished
                &&& second.next.done
                &&& !second.next.claim
                &&& m.claim ==> registry_after(first.next, second.next, after) == after_release(
                    reg,
                )
            }
        }),
{
}

/// On a store with groups a missing resource is reported only when the search
/// of the first group, the last to be searched, ends and names the resource;
/// the report names the locale in progress, and the pass goes on with the next
/// locale.
pub proof fn law_report_follows_last_search<P, B>(
    m: StreamView,
    reg: RegistryView<P, B>,
    event: EventView,
)
    requires
        accepts(m, reg, event),
        reg.store.len() > 0,
        spec_step(m, reg, event).action is Report,
    ensures
        m.current_metasource == 0,
        event matches EventView::Solver(SolverResultView::Unsatisfied(index))
            && spec_step(m, reg, event).action == ActionView::Report(
            RegistryErrorView::MissingResource {
                locale: m.state.locale(),
                resource_id: m.resource_ids[index as int],
            },
        ),
        spec_step(m, reg, event).next.state is Idle,
        spec_step(m, reg, event).next.claim == m.claim,
        spec_step(m, reg, event).next.next_locale == m.next_locale,
{
}

/// When the resources of an order give no bundle, the same search of the same
/// group is polled again, unless the failures in a row have reached the
/// limit: then the locale is given up.
pub proof fn law_failures_are_bounded<P, B>(
    m: StreamView,
    reg: RegistryView<P, B>,
    loaded: Seq<ResourceOptionView>,
)
    requires
        accepts(m, reg, EventView::Loaded(loaded)),
        bundle_of(m.state.locale(), loaded) is None,
    ensures
        ({
            let outcome = spec_step(m, reg, EventView::Loaded(loaded));
            if m.failed + 1 < m.retry_limit {
                &&& outcome.action == ActionView::Poll
                &&& outcome.next == (StreamView {
                    state: StateView::Searching(m.state.locale()),
                    failed: m.failed + 1,
                    ..m
                })
            } else {
                !in_locale(outcome.next, m.next_locale)
            }
        }),
{
}

/// While a locale is in progress, each search that ends without an order
/// moves the pass one group down, and nothing else moves it: the group that is
/// searched is the one where the events began, less the searches that ended.
/// So a group is searched, and a bundle loaded from it, only after every group
/// of higher priority was searched to its end without an order. The store is
/// the same all the while.
pub proof fn law_groups_in_priority_order<P, B>(
    m: StreamView,
    reg: RegistryView<P, B>,
    events: Seq<EventView>,
)
    requires
        !(m.state is Idle),
        run_accepted(m, reg, events),
    ensures
        run(m, reg, events).pass.next_locale >= m.next_locale,
        in_locale(run(m, reg, events).pass, m.next_locale) ==> {
            &&& run(m, reg, events).pass.current_metasource + searches_ended(events)
                == m.current_metasource
            &&& run(m, reg, events).registry == reg
        },
    decreases events.len(),
{
    if events.len() > 0 {
        law_groups_in_priority_order(m, reg, events.drop_last());
    }
}

} // verus!

//! What holds of the registry's operations, proved over its mathematical
//! value.
use vstd::prelude::*;
use crate::metasources::{has_name, Store};
use crate::errors::SetupErrorView;
use crate::registry::{
    add_all, after_release, apply_all, apply_mutation, failures, first_failure,
    lemma_apply_all_well_formed, lemma_failures_push, lemma_first_failure_bounds,
    lemma_prefix_is_found, registry_valid, release_errors, update_all, MutationView,
    RegistryView,
};
use crate::source::FileSourceView;
use crate::store_laws::{law_removed_names_are_gone, lemma_add_has_name};

verus! {

/// Registration removes no source: what was in the store is in it afterwards.
pub proof fn law_registration_keeps_sources(
    ms: Store,
    sources: Seq<FileSourceView>,
    name: Seq<char>,
)
    requires
        has_name(ms, name),
    ensures
        has_name(add_all(ms, sources), name),
    decreases sources.len(),
{
    if sources.len() > 0 {
        law_registration_keeps_sources(ms, sources.drop_last(), name);
        lemma_add_has_name(add_all(ms, sources.drop_last()), sources.last(), name);
    }
}

/// Each source that is registered is in the store afterwards.
pub proof fn law_registered_sources_are_found(ms: Store, sources: Seq<FileSourceView>, i: int)
    requires
        0 <= i < sources.len(),
    ensures
        has_name(add_all(ms, sources), sources[i].name),
    decreases sources.len(),
{
    let before = add_all(ms, sources.drop_last());
    if i == sources.len() - 1 {
        lemma_add_has_name(before, sources.last(), sources[i].name);
    } else {
        law_registered_sources_are_found(ms, sources.drop_last(), i);
        lemma_add_has_name(before, sources.last(), sources[i].name);
    }
}

/// A change that is queued later is applied later.
pub proof fn law_queue_keeps_order(ms: Store, queue: Seq<MutationView>, change: MutationView)
    ensures
        apply_all(ms, queue.push(change)) == apply_mutation(apply_all(ms, queue), change),
{
    assert(queue.push(change).drop_last() =~= queue);
}

/// When a valid registry gets a claim back, no update that waited fails.
pub proof fn law_valid_release_has_no_errors<P, B>(v: RegistryView<P, B>)
    requires
        registry_valid(v),
    ensures
        release_errors(v) == Seq::<SetupErrorView>::empty(),
{
    assert(failures(v.store, v.pending) =~= Seq::<SetupErrorView>::empty());
}

/// An update that is asked for while a pass holds a claim is answered as it
/// will turn out: it is judged on the store as it will be once the changes
/// before it are applied, and what it queues is found, source by source, when
/// its turn comes.
pub proof fn law_queued_update_is_found(
    ms: Store,
    queue: Seq<MutationView>,
    sources: Seq<FileSourceView>,
)
    ensures
        ({
            let to_come = apply_all(ms, queue);
            let found = first_failure(to_come, sources);
            let queued = queue.push(MutationView::Update(sources.take(found)));
            &&& 0 <= found <= sources.len()
            &&& first_failure(to_come, sources.take(found)) == found
            &&& apply_all(ms, queued) == update_all(to_come, sources)
            &&& failures(ms, queued) == failures(ms, queue)
        }),
{
    let to_come = apply_all(ms, queue);
    let found = first_failure(to_come, sources);
    lemma_first_failure_bounds(to_come, sources);
    lemma_prefix_is_found(to_come, sources, found);
    lemma_failures_push(ms, queue, MutationView::Update(sources.take(found)));
    assert(failures(ms, queue) + Seq::<SetupErrorView>::empty() =~= failures(ms, queue));
}

/// Giving a claim back keeps the registry valid.
pub proof fn law_release_keeps_valid<P, B>(v: RegistryView<P, B>)
    requires
        registry_valid(v),
        v.locks > 0,
    ensures
        registry_valid(after_release(v)),
{
    lemma_apply_all_well_formed(v.store, v.pending);
}

/// A removal that is asked for while one pass holds a claim leaves the store
/// as it is until the pass gives the claim back; from then on no source goes
/// by a removed name.
pub proof fn law_removal_waits_for_pass<P, B>(
    v: RegistryView<P, B>,
    names: Seq<Seq<char>>,
    name: Seq<char>,
)
    requires
        v.locks == 1,
        names.contains(name),
    ensures
        ({
            let queued = RegistryView { pending: v.pending.push(MutationView::Remove(names)), ..v };
            &&& queued.store == v.store
            &&& after_release(queued).locks == 0
            &&& after_release(queued).pending.len() == 0
            &&& !has_name(after_release(queued).store, name)
        }),
{
    law_queue_keeps_order(v.store, v.pending, MutationView::Remove(names));
    law_removed_names_are_gone(apply_all(v.store, v.pending), names, name);
}

} // verus!

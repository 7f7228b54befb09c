//! The registry: the store of sources, the passes that share it, and the
//! changes that wait for them.
//!
//! A change to the sources needs the store for itself. While a resolution
//! pass holds a claim on the store, a change is not refused for that: it is
//! queued, and the queue is replayed in order of arrival when the last claim
//! is released. An update is answered at once all the same: it is judged on
//! the store as the queue will have made it, and fails with `UnknownSource`
//! where it will not find a source.
use vstd::prelude::*;
use crate::bundle::BundleAdapter;
use crate::errors::{setup_error_views, L10nRegistrySetupError, SetupErrorView};
use crate::metasources::{
    add_source, copy_sources, group_view, has_name, named_from, names_of, ref_views,
    remove_names, update_source, well_formed, MetaSources, Store,
};
use crate::source::{FileSource, FileSourceView};
use crate::store_laws::{lemma_add_well_formed, lemma_remove_well_formed, lemma_update_well_formed};
use crate::text::{distinct, holds_string, texts};

verus! {

/// The store after the sources were added one after the other.
pub open spec fn add_all(ms: Store, sources: Seq<FileSourceView>) -> Store
    decreases sources.len(),
{
    if sources.len() == 0 {
        ms
    } else {
        add_source(add_all(ms, sources.drop_last()), sources.last())
    }
}

/// The index of the first of the sources that an update in turn does not
/// find; their number where it finds them all.
pub open spec fn first_failure(ms: Store, sources: Seq<FileSourceView>) -> int
    decreases sources.len(), 1int,
{
    if sources.len() == 0 {
        0
    } else {
        let earlier = first_failure(ms, sources.drop_last());
        if earlier < sources.len() - 1 {
            earlier
        } else if update_source(update_all(ms, sources.drop_last()), sources.last()).is_some() {
            sources.len() as int
        } else {
            sources.len() - 1
        }
    }
}

/// The store after the sources were replaced one after the other, up to the
/// first that is not found.
pub open spec fn update_all(ms: Store, sources: Seq<FileSourceView>) -> Store
    decreases sources.len(), 0int,
{
    if sources.len() == 0 {
        ms
    } else {
        let before = update_all(ms, sources.drop_last());
        if first_failure(ms, sources.drop_last()) < sources.len() - 1 {
            before
        } else {
            match update_source(before, sources.last()) {
                Some(after) => after,
                None => before,
            }
        }
    }
}

/// The locales that the sources advertise, source after source.
pub open spec fn all_locales(sources: Seq<FileSourceView>) -> Seq<Seq<char>> {
    sources.map_values(|s: FileSourceView| s.locales).flatten()
}

/// A change to the store that waits for the store to be free.
#[derive(Debug, PartialEq, Eq)]
pub enum RegistryMutations {
    RegisterSources(Vec<FileSource>),
    UpdateSources(Vec<FileSource>),
    RemoveSources(Vec<String>),
    ClearSources,
}

/// The mathematical value of a [`RegistryMutations`].
pub enum MutationView {
    Register(Seq<FileSourceView>),
    Update(Seq<FileSourceView>),
    Remove(Seq<Seq<char>>),
    Clear,
}

impl View for RegistryMutations {
    type V = MutationView;

    open spec fn view(&self) -> MutationView {
        match self {
            RegistryMutations::RegisterSources(sources) => MutationView::Register(
                group_view(sources@),
            ),
            RegistryMutations::UpdateSources(sources) => MutationView::Update(group_view(sources@)),
            RegistryMutations::RemoveSources(names) => MutationView::Remove(texts(names@)),
            RegistryMutations::ClearSources => MutationView::Clear,
        }
    }
}

/// The views of a queue of changes.
pub open spec fn mutation_views(q: Seq<RegistryMutations>) -> Seq<MutationView> {
    q.map_values(|m: RegistryMutations| m@)
}

/// The store after one change.
pub open spec fn apply_mutation(ms: Store, m: MutationView) -> Store {
    match m {
        MutationView::Register(sources) => add_all(ms, sources),
        MutationView::Update(sources) => update_all(ms, sources),
        MutationView::Remove(names) => remove_names(ms, names),
        MutationView::Clear => Seq::empty(),
    }
}

/// The store after the changes of a queue, first come first applied.
pub open spec fn apply_all(ms: Store, q: Seq<MutationView>) -> Store
    decreases q.len(),
{
    if q.len() == 0 {
        ms
    } else {
        apply_mutation(apply_all(ms, q.drop_last()), q.last())
    }
}

/// The error of one change, if it is an update that does not find a source.
pub open spec fn mutation_failure(ms: Store, m: MutationView) -> Seq<SetupErrorView> {
    match m {
        MutationView::Update(sources) => {
            let at = first_failure(ms, sources);
            if at < sources.len() {
                seq![SetupErrorView::UnknownSource { name: sources[at].name }]
            } else {
                Seq::empty()
            }
        },
        _ => Seq::empty(),
    }
}

/// The errors of the updates of a queue, in the queue's order.
pub open spec fn failures(ms: Store, q: Seq<MutationView>) -> Seq<SetupErrorView>
    decreases q.len(),
{
    if q.len() == 0 {
        Seq::empty()
    } else {
        failures(ms, q.drop_last()) + mutation_failure(apply_all(ms, q.drop_last()), q.last())
    }
}

/// Adding sources keeps the store well formed.
pub proof fn lemma_add_all_well_formed(ms: Store, sources: Seq<FileSourceView>)
    requires
        well_formed(ms),
    ensures
        well_formed(add_all(ms, sources)),
    decreases sources.len(),
{
    if sources.len() > 0 {
        lemma_add_all_well_formed(ms, sources.drop_last());
        lemma_add_well_formed(add_all(ms, sources.drop_last()), sources.last());
    }
}

/// Replacing sources keeps the store well formed, and the first failure lies
/// within the list or at its end.
pub proof fn lemma_update_all_well_formed(ms: Store, sources: Seq<FileSourceView>)
    requires
        well_formed(ms),
    ensures
        well_formed(update_all(ms, sources)),
        0 <= first_failure(ms, sources) <= sources.len(),
    decreases sources.len(),
{
    if sources.len() > 0 {
        lemma_update_all_well_formed(ms, sources.drop_last());
        let before = update_all(ms, sources.drop_last());
        if update_source(before, sources.last()).is_some() {
            lemma_update_well_formed(before, sources.last());
        }
    }
}

/// A queue of changes keeps the store well formed.
pub proof fn lemma_apply_all_well_formed(ms: Store, q: Seq<MutationView>)
    requires
        well_formed(ms),
    ensures
        well_formed(apply_all(ms, q)),
    decreases q.len(),
{
    if q.len() > 0 {
        lemma_apply_all_well_formed(ms, q.drop_last());
        let before = apply_all(ms, q.drop_last());
        match q.last() {
            MutationView::Register(sources) => lemma_add_all_well_formed(before, sources),
            MutationView::Update(sources) => lemma_update_all_well_formed(before, sources),
            MutationView::Remove(names) => lemma_remove_well_formed(before, names),
            MutationView::Clear => {},
        }
    }
}

/// The sources before the first that an update does not find are all found.
pub proof fn lemma_prefix_is_found(ms: Store, sources: Seq<FileSourceView>, upto: int)
    requires
        0 <= upto <= first_failure(ms, sources),
        upto <= sources.len(),
    ensures
        first_failure(ms, sources.take(upto)) == upto,
        upto == first_failure(ms, sources) ==> update_all(ms, sources.take(upto)) == update_all(
            ms,
            sources,
        ),
    decreases sources.len(),
{
    if upto == sources.len() {
        assert(sources.take(upto) =~= sources);
    } else {
        assert(sources.drop_last().take(upto) =~= sources.take(upto));
        lemma_first_failure_bounds(ms, sources.drop_last());
        lemma_prefix_is_found(ms, sources.drop_last(), upto);
    }
}

/// The first failure of an update lies within the list or at its end.
pub proof fn lemma_first_failure_bounds(ms: Store, sources: Seq<FileSourceView>)
    ensures
        0 <= first_failure(ms, sources) <= sources.len(),
    decreases sources.len(),
{
    if sources.len() > 0 {
        lemma_first_failure_bounds(ms, sources.drop_last());
    }
}

/// The errors of a queue with one more change.
pub proof fn lemma_failures_push(ms: Store, queue: Seq<MutationView>, change: MutationView)
    ensures
        failures(ms, queue.push(change)) == failures(ms, queue) + mutation_failure(
            apply_all(ms, queue),
            change,
        ),
        apply_all(ms, queue.push(change)) == apply_mutation(apply_all(ms, queue), change),
{
    assert(queue.push(change).drop_last() =~= queue);
}

/// Once an update has failed, the sources after it change nothing.
pub proof fn lemma_failure_stops(ms: Store, sources: Seq<FileSourceView>, at: int)
    requires
        0 <= at < sources.len(),
        first_failure(ms, sources.take(at + 1)) == at,
    ensures
        first_failure(ms, sources) == at,
        update_all(ms, sources) == update_all(ms, sources.take(at + 1)),
    decreases sources.len(),
{
    if sources.len() == at + 1 {
        assert(sources.take(at + 1) =~= sources);
    } else {
        assert(sources.drop_last().take(at + 1) =~= sources.take(at + 1));
        lemma_failure_stops(ms, sources.drop_last(), at);
    }
}

/// The part of a registry that its resolution passes read.
pub struct ShareableL10nRegistry<P, B> {
    metasources: MetaSources,
    provider: P,
    bundle_adapter: Option<B>,
}

impl<P, B> ShareableL10nRegistry<P, B> {
    /// The store's value.
    pub closed spec fn store(&self) -> Store {
        self.metasources@
    }

    /// The provider that the registry was made with.
    pub closed spec fn provider_value(&self) -> P {
        self.provider
    }

    /// The bundle adapter, where one was set.
    pub closed spec fn adapter_value(&self) -> Option<B> {
        self.bundle_adapter
    }

    /// The store of sources.
    pub fn metasources(&self) -> (res: &MetaSources)
        ensures
            res@ == self.store(),
    {
        &self.metasources
    }

    /// The provider that the registry was made with.
    pub fn provider(&self) -> (res: &P)
        ensures
            *res == self.provider_value(),
    {
        &self.provider
    }

    /// The bundle adapter, where one was set.
    pub fn bundle_adapter(&self) -> (res: &Option<B>)
        ensures
            *res == self.adapter_value(),
    {
        &self.bundle_adapter
    }
}

/// The mathematical value of a [`L10nRegistry`].
pub struct RegistryView<P, B> {
    /// The groups of sources.
    pub store: Store,
    /// The number of resolution passes that hold a claim on the store.
    pub locks: nat,
    /// The changes that wait for the store to be free, in order of arrival.
    pub pending: Seq<MutationView>,
    pub provider: P,
    pub bundle_adapter: Option<B>,
}

/// The store as it will be once the changes that wait are applied.
pub open spec fn store_to_come<P, B>(v: RegistryView<P, B>) -> Store {
    apply_all(v.store, v.pending)
}

/// What every registry keeps true: its store is well formed, changes wait
/// only while a pass holds a claim, and each update that waits will find its
/// sources.
pub open spec fn registry_valid<P, B>(v: RegistryView<P, B>) -> bool {
    &&& well_formed(v.store)
    &&& v.locks == 0 ==> v.pending.len() == 0
    &&& failures(v.store, v.pending).len() == 0
}

/// The registry after a pass gave back its claim: one claim fewer, and with
/// the last claim the queue applied.
pub open spec fn after_release<P, B>(v: RegistryView<P, B>) -> RegistryView<P, B> {
    if v.locks == 1 {
        RegistryView { store: apply_all(v.store, v.pending), locks: 0, pending: Seq::empty(), ..v }
    } else {
        RegistryView { locks: (v.locks - 1) as nat, ..v }
    }
}

/// The errors that come to light when a pass gives back its claim: with the
/// last claim, those of the updates that waited.
pub open spec fn release_errors<P, B>(v: RegistryView<P, B>) -> Seq<SetupErrorView> {
    if v.locks == 1 {
        failures(v.store, v.pending)
    } else {
        Seq::empty()
    }
}

/// The L10nRegistry is the main struct for owning the registry information.
///
/// `P` - A provider
/// `B` - A bundle adaptor
pub struct L10nRegistry<P, B> {
    shareable: ShareableL10nRegistry<P, B>,
    /// The number of resolution passes that hold a claim on the store.
    locks: usize,
    /// Changes that arrived while a pass held a claim.
    pending_mutations: Vec<RegistryMutations>,
}

impl<P, B> View for L10nRegistry<P, B> {
    type V = RegistryView<P, B>;

    closed spec fn view(&self) -> RegistryView<P, B> {
        RegistryView {
            store: self.shareable.metasources@,
            locks: self.locks as nat,
            pending: mutation_views(self.pending_mutations@),
            provider: self.shareable.provider,
            bundle_adapter: self.shareable.bundle_adapter,
        }
    }
}

impl<P, B> L10nRegistry<P, B> {
    /// Create a new [`L10nRegistry`] from a provider.
    pub fn with_provider(provider: P) -> (res: Self)
        ensures
            res@ == (RegistryView::<P, B> {
                store: Seq::empty(),
                locks: 0,
                pending: Seq::empty(),
                provider,
                bundle_adapter: None,
            }),
            registry_valid(res@),
    {
        let res = L10nRegistry {
            shareable: ShareableL10nRegistry {
                metasources: MetaSources::default(),
                provider,
                bundle_adapter: None,
            },
            locks: 0,
            pending_mutations: Vec::new(),
        };
        assert(res@.pending =~= Seq::empty());
        res
    }

    /// The part of the registry that resolution passes read.
    pub fn shared(&self) -> (res: &ShareableL10nRegistry<P, B>)
        ensures
            res.store() == self@.store,
            res.provider_value() == self@.provider,
            res.adapter_value() == self@.bundle_adapter,
    {
        &self.shareable
    }

    /// The number of resolution passes that hold a claim on the store.
    pub fn lock_count(&self) -> (res: usize)
        ensures
            res == self@.locks,
    {
        self.locks
    }

    /// Whether no pass holds a claim, so that changes apply at once.
    pub fn is_free(&self) -> (res: bool)
        ensures
            res == (self@.locks == 0),
    {
        self.locks == 0
    }

    /// The number of changes that wait for the store to be free.
    pub fn pending_len(&self) -> (res: usize)
        ensures
            res == self@.pending.len(),
    {
        self.pending_mutations.len()
    }

    /// Set the bundle adaptor. See [`BundleAdapter`] for more information. It
    /// is set once, and only while no pass holds a claim.
    pub fn set_bundle_adaptor(&mut self, bundle_adapter: B) -> (res: Result<
        (),
        L10nRegistrySetupError,
    >) where B: BundleAdapter
        ensures
            res is Ok <==> old(self)@.locks == 0 && old(self)@.bundle_adapter is None,
            res is Ok ==> final(self)@ == (RegistryView {
                bundle_adapter: Some(bundle_adapter),
                ..old(self)@
            }),
            res is Err ==> final(self)@ == old(self)@ && res.unwrap_err()@
                == SetupErrorView::RegistryLocked,
            registry_valid(old(self)@) ==> registry_valid(final(self)@),
    {
        if self.locks == 0 && self.shareable.bundle_adapter.is_none() {
            self.shareable.bundle_adapter = Some(bundle_adapter);
            Ok(())
        } else {
            Err(L10nRegistrySetupError::RegistryLocked)
        }
    }

    /// Adds new sources to the registry, each to its metasource. If the
    /// metasource of a source does not exist, then it is created. While a pass
    /// holds a claim the addition waits in the queue.
    pub fn register_sources(&mut self, new_sources: Vec<FileSource>)
        ensures
            old(self)@.locks == 0 ==> final(self)@ == (RegistryView {
                store: add_all(old(self)@.store, group_view(new_sources@)),
                ..old(self)@
            }),
            old(self)@.locks > 0 ==> final(self)@ == (RegistryView {
                pending: old(self)@.pending.push(MutationView::Register(group_view(new_sources@))),
                ..old(self)@
            }),
            registry_valid(old(self)@) ==> registry_valid(final(self)@),
    {
        if self.locks == 0 {
            proof {
                if well_formed(self@.store) {
                    lemma_add_all_well_formed(self@.store, group_view(new_sources@));
                }
            }
            add_filesources(&mut self.shareable.metasources, new_sources);
        } else {
            let ghost queued = self.pending_mutations@;
            proof {
                lemma_failures_push(
                    self@.store,
                    self@.pending,
                    MutationView::Register(group_view(new_sources@)),
                );
            }
            self.pending_mutations.push(RegistryMutations::RegisterSources(new_sources));
            assert(mutation_views(self.pending_mutations@) =~= mutation_views(queued).push(
                MutationView::Register(group_view(new_sources@)),
            ));
        }
    }

    /// Update the information about sources already stored in the registry.
    /// Each [`FileSource`] provided must exist in the group of its origin: the
    /// first that does not ends the update with an error, and those before it
    /// stay replaced. While a pass holds a claim the same is decided on the
    /// store as it will be once the changes that wait are applied: the caller
    /// gets the same answer at once, the store stays as it is, and the update of
    /// the sources before the first that is not found, of all where each is
    /// found, waits in the queue.
    pub fn update_sources(&mut self, new_sources: Vec<FileSource>) -> (res: Result<
        (),
        L10nRegistrySetupError,
    >)
        ensures
            old(self)@.locks == 0 ==> final(self)@ == (RegistryView {
                store: update_all(old(self)@.store, group_view(new_sources@)),
                ..old(self)@
            }),
            old(self)@.locks == 0 ==> (res is Ok <==> first_failure(
                old(self)@.store,
                group_view(new_sources@),
            ) == new_sources@.len()),
            old(self)@.locks == 0 && res is Err ==> res.unwrap_err()@
                == (SetupErrorView::UnknownSource {
                name: new_sources@[first_failure(
                    old(self)@.store,
                    group_view(new_sources@),
                )]@.name,
            }),
            old(self)@.locks > 0 ==> final(self)@ == (RegistryView {
                pending: old(self)@.pending.push(
                    MutationView::Update(
                        group_view(new_sources@).take(
                            first_failure(store_to_come(old(self)@), group_view(new_sources@)),
                        ),
                    ),
                ),
                ..old(self)@
            }),
            old(self)@.locks > 0 ==> (res is Ok <==> first_failure(
                store_to_come(old(self)@),
                group_view(new_sources@),
            ) == new_sources@.len()),
            old(self)@.locks > 0 && res is Err ==> res.unwrap_err()@
                == (SetupErrorView::UnknownSource {
                name: new_sources@[first_failure(
                    store_to_come(old(self)@),
                    group_view(new_sources@),
                )]@.name,
            }),
            old(self)@.locks > 0 ==> store_to_come(final(self)@) == update_all(
                store_to_come(old(self)@),
                group_view(new_sources@),
            ),
            registry_valid(old(self)@) ==> registry_valid(final(self)@),
    {
        if self.locks == 0 {
            proof {
                if well_formed(self@.store) {
                    lemma_update_all_well_formed(self@.store, group_view(new_sources@));
                }
            }
            match update_filesources(&mut self.shareable.metasources, new_sources) {
                Some(name) => Err(L10nRegistrySetupError::UnknownSource { name }),
                None => Ok(()),
            }
        } else {
            let ghost all = group_view(new_sources@);
            let ghost to_come = store_to_come(self@);
            let mut preview = self.shareable.metasources.clone();
            replay(&mut preview, &self.pending_mutations);
            let found = first_missing(&mut preview, &new_sources);
            let mut new_sources = new_sources;
            let missing = if found < new_sources.len() {
                assert(all[found as int] == new_sources@[found as int]@);
                Some(new_sources[found].name.clone())
            } else {
                None
            };
            new_sources.truncate(found);
            assert(group_view(new_sources@) =~= all.take(found as int));
            proof {
                lemma_prefix_is_found(to_come, all, found as int);
                lemma_failures_push(
                    self@.store,
                    self@.pending,
                    MutationView::Update(all.take(found as int)),
                );
            }
            let ghost queued = self.pending_mutations@;
            self.pending_mutations.push(RegistryMutations::UpdateSources(new_sources));
            assert(mutation_views(self.pending_mutations@) =~= mutation_views(queued).push(
                MutationView::Update(all.take(found as int)),
            ));
            match missing {
                Some(name) => Err(L10nRegistrySetupError::UnknownSource { name }),
                None => Ok(()),
            }
        }
    }

    /// Remove the provided sources. If a metasource becomes empty after this
    /// operation, the metasource is also removed. While a pass holds a claim
    /// the removal waits in the queue.
    pub fn remove_sources(&mut self, del_sources: Vec<String>)
        ensures
            old(self)@.locks == 0 ==> final(self)@ == (RegistryView {
                store: remove_names(old(self)@.store, texts(del_sources@)),
                ..old(self)@
            }),
            old(self)@.locks > 0 ==> final(self)@ == (RegistryView {
                pending: old(self)@.pending.push(MutationView::Remove(texts(del_sources@))),
                ..old(self)@
            }),
            registry_valid(old(self)@) ==> registry_valid(final(self)@),
    {
        if self.locks == 0 {
            proof {
                if well_formed(self@.store) {
                    lemma_remove_well_formed(self@.store, texts(del_sources@));
                }
            }
            self.shareable.metasources.remove_filesources(&del_sources);
        } else {
            let ghost queued = self.pending_mutations@;
            proof {
                lemma_failures_push(
                    self@.store,
                    self@.pending,
                    MutationView::Remove(texts(del_sources@)),
                );
            }
            self.pending_mutations.push(RegistryMutations::RemoveSources(del_sources));
            assert(mutation_views(self.pending_mutations@) =~= mutation_views(queued).push(
                MutationView::Remove(texts(del_sources@)),
            ));
        }
    }

    /// Clears out all metasources and sources. While a pass holds a claim the
    /// clearing waits in the queue.
    pub fn clear_sources(&mut self)
        ensures
            old(self)@.locks == 0 ==> final(self)@ == (RegistryView {
                store: Seq::empty(),
                ..old(self)@
            }),
            old(self)@.locks > 0 ==> final(self)@ == (RegistryView {
                pending: old(self)@.pending.push(MutationView::Clear),
                ..old(self)@
            }),
            registry_valid(old(self)@) ==> registry_valid(final(self)@),
    {
        if self.locks == 0 {
            self.shareable.metasources.clear();
        } else {
            let ghost queued = self.pending_mutations@;
            proof {
                lemma_failures_push(self@.store, self@.pending, MutationView::Clear);
            }
            self.pending_mutations.push(RegistryMutations::ClearSources);
            assert(mutation_views(self.pending_mutations@) =~= mutation_views(queued).push(
                MutationView::Clear,
            ));
        }
    }

    /// Flattens out all metasources and returns the complete list of source
    /// names.
    pub fn get_source_names(&self) -> (res: Result<Vec<String>, L10nRegistrySetupError>)
        ensures
            res is Ok,
            texts(res.unwrap()@) == names_of(self@.store.flatten()),
    {
        let sources = self.shareable.metasources.filesources();
        let mut names: Vec<String> = Vec::new();
        let mut i: usize = 0;
        while i < sources.len()
            invariant
                i <= sources.len(),
                names.len() == i,
                forall|k: int| 0 <= k < i ==> names@[k]@ == sources@[k]@.name,
            decreases sources.len() - i,
        {
            names.push(sources[i].name.clone());
            i += 1;
        }
        assert(texts(names@) =~= names_of(ref_views(sources@)));
        Ok(names)
    }

    /// Checks if any metasource has a source, by the name.
    pub fn has_source(&self, name: &str) -> (res: Result<bool, L10nRegistrySetupError>)
        ensures
            res is Ok,
            res.unwrap() == has_name(self@.store, name@),
    {
        let wanted = name.to_owned();
        let sources = self.shareable.metasources.filesources();
        let ghost flat = ref_views(sources@);
        let mut i: usize = 0;
        while i < sources.len()
            invariant
                i <= sources.len(),
                wanted@ == name@,
                flat == ref_views(sources@),
                flat == self@.store.flatten(),
                forall|k: int| 0 <= k < i ==> sources@[k]@.name != name@,
            decreases sources.len() - i,
        {
            if sources[i].name == wanted {
                assert(names_of(flat)[i as int] == name@);
                return Ok(true);
            }
            i += 1;
        }
        assert forall|k: int| 0 <= k < names_of(flat).len() implies names_of(flat)[k] != name@ by {
            assert(names_of(flat)[k] == sources@[k]@.name);
        }
        Ok(false)
    }

    /// Gets a source by the name, from any metasource: a copy of the first of
    /// that name, in the order of the groups.
    pub fn get_source(&self, name: &str) -> (res: Result<
        Option<FileSource>,
        L10nRegistrySetupError,
    >)
        ensures
            res is Ok,
            ({
                let all = self@.store.flatten();
                let at = named_from(all, name@, 0);
                match res.unwrap() {
                    Some(source) => at < all.len() && source@ == all[at],
                    None => at == all.len(),
                }
            }),
    {
        let wanted = name.to_owned();
        let sources = self.shareable.metasources.filesources();
        let ghost flat = ref_views(sources@);
        let mut i: usize = 0;
        while i < sources.len()
            invariant
                i <= sources.len(),
                wanted@ == name@,
                flat == ref_views(sources@),
                flat == self@.store.flatten(),
                named_from(flat, name@, 0) == named_from(flat, name@, i as int),
            decreases sources.len() - i,
        {
            assert(flat[i as int] == sources@[i as int]@);
            if sources[i].name == wanted {
                return Ok(Some(sources[i].clone()));
            }
            i += 1;
        }
        Ok(None)
    }

    /// Returns a unique list of locale names from all sources: each locale
    /// that a source advertises, once, at the place where it comes first.
    pub fn get_available_locales(&self) -> (res: Result<Vec<String>, L10nRegistrySetupError>)
        ensures
            res is Ok,
            texts(res.unwrap()@) == distinct(all_locales(self@.store.flatten())),
    {
        let sources = self.shareable.metasources.filesources();
        let ghost flat = ref_views(sources@);
        let mut result: Vec<String> = Vec::new();
        let mut i: usize = 0;
        assert(flat.take(0) =~= Seq::<FileSourceView>::empty());
        assert(all_locales(flat.take(0)) =~= Seq::<Seq<char>>::empty());
        while i < sources.len()
            invariant
                i <= sources.len(),
                flat == ref_views(sources@),
                texts(result@) == distinct(all_locales(flat.take(i as int))),
            decreases sources.len() - i,
        {
            let locales = sources[i].locales();
            let ghost seen = all_locales(flat.take(i as int));
            let ghost here = flat[i as int].locales;
            let mut j: usize = 0;
            assert(seen + here.take(0) =~= seen);
            while j < locales.len()
                invariant
                    j <= locales.len(),
                    here == texts(locales@),
                    texts(result@) == distinct(seen + here.take(j as int)),
                decreases locales.len() - j,
            {
                let ghost so_far = seen + here.take(j as int);
                let ghost before = texts(result@);
                proof {
                    assert((seen + here.take(j + 1)).drop_last() =~= so_far);
                    assert((seen + here.take(j + 1)).last() == locales@[j as int]@);
                }
                if !holds_string(&result, &locales[j]) {
                    result.push(locales[j].clone());
                    assert(texts(result@) =~= before.push(locales@[j as int]@));
                }
                j += 1;
            }
            proof {
                assert(here.take(j as int) =~= here);
                let lists = flat.take(i as int).map_values(|s: FileSourceView| s.locales);
                assert(flat.take(i + 1).map_values(|s: FileSourceView| s.locales) =~= lists.push(
                    here,
                ));
                lists.lemma_flatten_push(here);
            }
            i += 1;
        }
        assert(flat.take(i as int) =~= flat);
        Ok(result)
    }

    /// Takes a claim on the store for a resolution pass. Until the claim is
    /// released, changes to the sources wait in the queue.
    pub fn borrow(&mut self)
        requires
            old(self)@.locks < usize::MAX,
        ensures
            final(self)@ == (RegistryView { locks: old(self)@.locks + 1, ..old(self)@ }),
            registry_valid(old(self)@) ==> registry_valid(final(self)@),
    {
        self.locks = self.locks + 1;
    }

    /// Gives back a claim on the store. With the last claim the changes that
    /// waited are applied, in order of arrival; the errors of the updates among
    /// them are returned. A valid registry has none to return: an update waits
    /// only with sources that it will find.
    pub fn release(&mut self) -> (res: Vec<L10nRegistrySetupError>)
        requires
            old(self)@.locks > 0,
        ensures
            final(self)@ == after_release(old(self)@),
            setup_error_views(res@) == release_errors(old(self)@),
            registry_valid(old(self)@) ==> registry_valid(final(self)@),
    {
        proof {
            if well_formed(self@.store) {
                lemma_apply_all_well_formed(self@.store, self@.pending);
            }
        }
        self.locks = self.locks - 1;
        let errors = self.apply_mutations();
        assert(old(self)@.locks > 1 ==> setup_error_views(errors@) =~= Seq::empty());
        errors
    }

    /// Applies the changes that wait, if no pass holds a claim. Returns the
    /// errors of the updates among them.
    fn apply_mutations(&mut self) -> (res: Vec<L10nRegistrySetupError>)
        ensures
            old(self)@.locks > 0 ==> res@.len() == 0 && final(self)@ == old(self)@,
            old(self)@.locks == 0 ==> setup_error_views(res@) == failures(
                old(self)@.store,
                old(self)@.pending,
            ) && final(self)@ == (RegistryView {
                store: apply_all(old(self)@.store, old(self)@.pending),
                pending: Seq::empty(),
                ..old(self)@
            }),
    {
        let mut errors: Vec<L10nRegistrySetupError> = Vec::new();
        if self.locks > 0 {
            return errors;
        }
        let mut queue: Vec<RegistryMutations> = Vec::new();
        std::mem::swap(&mut self.pending_mutations, &mut queue);
        let ghost start = self@.store;
        let ghost all = mutation_views(queue@);
        assert(all.take(0) =~= Seq::<MutationView>::empty());
        assert(self@.pending =~= Seq::<MutationView>::empty());
        assert(setup_error_views(errors@) =~= Seq::<SetupErrorView>::empty());
        for mutation in it: queue
            invariant
                all == mutation_views(it.seq()),
                all == old(self)@.pending,
                start == old(self)@.store,
                self@ == (RegistryView {
                    store: apply_all(start, all.take(it.index() as int)),
                    pending: Seq::empty(),
                    ..old(self)@
                }),
                setup_error_views(errors@) == failures(start, all.take(it.index() as int)),
        {
            let ghost k = it.index() as int;
            let ghost found = setup_error_views(errors@);
            let ghost store_before = self@.store;
            proof {
                assert(all.take(k + 1).drop_last() =~= all.take(k));
                assert(all.take(k + 1).last() == mutation@);
                assert(failures(start, all.take(k + 1)) == found + mutation_failure(
                    store_before,
                    mutation@,
                ));
            }
            match mutation {
                RegistryMutations::RegisterSources(sources) => {
                    add_filesources(&mut self.shareable.metasources, sources);
                    assert(setup_error_views(errors@) =~= found + Seq::<SetupErrorView>::empty());
                },
                RegistryMutations::UpdateSources(sources) => {
                    match update_filesources(&mut self.shareable.metasources, sources) {
                        Some(name) => {
                            let ghost at = first_failure(store_before, group_view(sources@));
                            assert(group_view(sources@)[at] == sources@[at]@);
                            errors.push(L10nRegistrySetupError::UnknownSource { name });
                            assert(setup_error_views(errors@) =~= found + seq![
                                SetupErrorView::UnknownSource { name: name@ },
                            ]);
                        },
                        None => {
                            assert(setup_error_views(errors@) =~= found + Seq::<
                                SetupErrorView,
                            >::empty());
                        },
                    }
                },
                RegistryMutations::RemoveSources(names) => {
                    self.shareable.metasources.remove_filesources(&names);
                    assert(setup_error_views(errors@) =~= found + Seq::<SetupErrorView>::empty());
                },
                RegistryMutations::ClearSources => {
                    self.shareable.metasources.clear();
                    assert(setup_error_views(errors@) =~= found + Seq::<SetupErrorView>::empty());
                },
            }
        }
        assert(all.take(all.len() as int) =~= all);
        errors
    }
}

/// Applies the changes of a queue to a store, first come first applied. The
/// queue stays as it is.
fn replay(store: &mut MetaSources, queue: &Vec<RegistryMutations>)
    ensures
        final(store)@ == apply_all(old(store)@, mutation_views(queue@)),
{
    let ghost start = store@;
    let ghost all = mutation_views(queue@);
    assert(all.take(0) =~= Seq::<MutationView>::empty());
    let mut i: usize = 0;
    while i < queue.len()
        invariant
            i <= queue.len(),
            all == mutation_views(queue@),
            store@ == apply_all(start, all.take(i as int)),
        decreases queue.len() - i,
    {
        proof {
            assert(all.take(i + 1).drop_last() =~= all.take(i as int));
            assert(all.take(i + 1).last() == queue@[i as int]@);
        }
        match &queue[i] {
            RegistryMutations::RegisterSources(sources) => {
                add_filesources(store, copy_sources(sources));
            },
            RegistryMutations::UpdateSources(sources) => {
                let _ = first_missing(store, sources);
            },
            RegistryMutations::RemoveSources(names) => {
                store.remove_filesources(names);
            },
            RegistryMutations::ClearSources => {
                store.clear();
            },
        }
        i += 1;
    }
    assert(all.take(all.len() as int) =~= all);
}

/// Replaces the sources in the store by copies, one after the other, up to
/// the first that the store does not hold. Returns the index of that one, or
/// the number of sources where the store holds them all.
fn first_missing(store: &mut MetaSources, sources: &Vec<FileSource>) -> (res: usize)
    ensures
        final(store)@ == update_all(old(store)@, group_view(sources@)),
        res == first_failure(old(store)@, group_view(sources@)),
        res <= sources@.len(),
{
    let ghost start = store@;
    let ghost all = group_view(sources@);
    assert(all.take(0) =~= Seq::<FileSourceView>::empty());
    let mut i: usize = 0;
    while i < sources.len()
        invariant
            i <= sources.len(),
            all == group_view(sources@),
            start == old(store)@,
            store@ == update_all(start, all.take(i as int)),
            first_failure(start, all.take(i as int)) == i,
        decreases sources.len() - i,
    {
        proof {
            assert(all.take(i + 1).drop_last() =~= all.take(i as int));
            assert(all.take(i + 1).last() == sources@[i as int]@);
        }
        if !store.update_filesource(&sources[i]) {
            proof {
                assert(first_failure(start, all.take(i + 1)) == i);
                assert(update_all(start, all.take(i + 1)) == store@);
                lemma_failure_stops(start, all, i as int);
            }
            return i;
        }
        i += 1;
    }
    assert(all.take(all.len() as int) =~= all);
    i
}

/// Adds the sources to the store, one after the other.
fn add_filesources(store: &mut MetaSources, sources: Vec<FileSource>)
    ensures
        final(store)@ == add_all(old(store)@, group_view(sources@)),
{
    let ghost start = store@;
    let ghost all = group_view(sources@);
    assert(all.take(0) =~= Seq::<FileSourceView>::empty());
    for source in it: sources
        invariant
            all == group_view(it.seq()),
            store@ == add_all(start, all.take(it.index() as int)),
    {
        proof {
            let k = it.index() as int;
            assert(all.take(k + 1).drop_last() =~= all.take(k));
            assert(all.take(k + 1).last() == source@);
        }
        store.add_filesource(source);
    }
    assert(all.take(all.len() as int) =~= all);
}

/// Replaces the sources in the store, one after the other, up to the first
/// that the store does not hold. Returns the name of that one.
fn update_filesources(store: &mut MetaSources, sources: Vec<FileSource>) -> (res: Option<String>)
    ensures
        final(store)@ == update_all(old(store)@, group_view(sources@)),
        0 <= first_failure(old(store)@, group_view(sources@)) <= sources@.len(),
        res is None <==> first_failure(old(store)@, group_view(sources@)) == sources@.len(),
        res is Some ==> res.unwrap()@ == sources@[first_failure(
            old(store)@,
            group_view(sources@),
        )]@.name,
{
    let ghost start = store@;
    let ghost all = group_view(sources@);
    assert(all.take(0) =~= Seq::<FileSourceView>::empty());
    for source in it: sources
        invariant
            all == group_view(it.seq()),
            it.seq() == sources@,
            start == old(store)@,
            store@ == update_all(start, all.take(it.index() as int)),
            first_failure(start, all.take(it.index() as int)) == it.index(),
    {
        let ghost k = it.index() as int;
        proof {
            assert(all.take(k + 1).drop_last() =~= all.take(k));
            assert(all.take(k + 1).last() == source@);
        }
        if !store.update_filesource(&source) {
            proof {
                assert(first_failure(start, all.take(k + 1)) == k);
                assert(update_all(start, all.take(k + 1)) == store@);
                lemma_failure_stops(start, all, k);
            }
            return Some(source.name);
        }
    }
    assert(all.take(all.len() as int) =~= all);
    None
}

} // verus!

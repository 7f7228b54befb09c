//! The generation of bundles, as a state machine.
//!
//! For each requested locale the origin groups are searched from the last
//! registered to the first. The search itself, the loading of resources and
//! the reporting of errors are the driver's work: the machine is handed an
//! [`Event`] and answers with the [`Action`] that the driver is to take next.
//!
//! | action      | the driver ...                                   | and hands back   |
//! |-------------|--------------------------------------------------|------------------|
//! | `Search`    | starts a search of the given size and polls it   | `Event::Solver`  |
//! | `Poll`      | polls the search that is under way               | `Event::Solver`  |
//! | `Suspend`   | waits to be woken, then polls the search         | `Event::Solver`  |
//! | `Load`      | loads each resource from its chosen source       | `Event::Loaded`  |
//! | `Yield`     | hands the bundle out, then polls the search      | `Event::Solver`  |
//! | `Report`    | reports the error                                | `Event::Resume`  |
//! | `Finished`  | stops                                            |                  |
//!
//! A pass begins with `Event::Resume`. Where the store has no group at all,
//! no search is made: each locale is answered with a report of the first
//! required resource of the request. When a bundle cannot be put together
//! although the search had found an order, the same search is polled again,
//! without a change of group; after [`DEFAULT_RETRY_LIMIT`] such failures in a
//! row the locale is given up without a report.
use vstd::prelude::*;
use crate::bundle::{
    bundle_from_loaded, bundle_of, bundle_result_view, option_views, Bundle, BundleAdapter,
    BundleView, ResourceOption, ResourceOptionView,
};
use crate::errors::{
    setup_error_views, L10nRegistryError, L10nRegistrySetupError, RegistryErrorView,
    SetupErrorView,
};
use crate::metasources::{at_place, MetaSources, Store};
use crate::registry::{
    after_release, registry_valid, release_errors, L10nRegistry, RegistryView,
};
use crate::source::{
    find_first_required, first_required, resource_views, ResourceId, ResourceIdView,
};
use crate::text::texts;

verus! {

/// The number of failed attempts in a row to put a bundle together after which
/// a pass gives a locale up, unless another limit is set.
pub const DEFAULT_RETRY_LIMIT: usize = 8;

/// What a poll of the search gave.
#[derive(Debug, PartialEq, Eq)]
pub enum SolverResult {
    /// The search waits for the answers to its probes.
    Pending,
    /// For each requested resource, in the order of the request, the place of
    /// its source in the group's search order.
    Order(Vec<usize>),
    /// The search is at its end, and the resource at this index is the first
    /// that no source of the group supplies.
    Unsatisfied(usize),
    /// The search is at its end, and no resource stands out as missing.
    Exhausted,
}

/// The mathematical value of a [`SolverResult`].
pub enum SolverResultView {
    Pending,
    Order(Seq<usize>),
    Unsatisfied(usize),
    Exhausted,
}

impl View for SolverResult {
    type V = SolverResultView;

    open spec fn view(&self) -> SolverResultView {
        match self {
            SolverResult::Pending => SolverResultView::Pending,
            SolverResult::Order(order) => SolverResultView::Order(order@),
            SolverResult::Unsatisfied(index) => SolverResultView::Unsatisfied(*index),
            SolverResult::Exhausted => SolverResultView::Exhausted,
        }
    }
}

/// What the driver hands to the machine.
#[derive(Debug, PartialEq, Eq)]
pub enum Event {
    /// The pass begins, or goes on after a report.
    Resume,
    /// The search was polled.
    Solver(SolverResult),
    /// The resources of an order were loaded: one entry for each requested
    /// resource, in the order of the request.
    Loaded(Vec<ResourceOption>),
}

/// The mathematical value of an [`Event`].
pub enum EventView {
    Resume,
    Solver(SolverResultView),
    Loaded(Seq<ResourceOptionView>),
}

impl View for Event {
    type V = EventView;

    open spec fn view(&self) -> EventView {
        match self {
            Event::Resume => EventView::Resume,
            Event::Solver(result) => EventView::Solver(result@),
            Event::Loaded(loaded) => EventView::Loaded(option_views(loaded@)),
        }
    }
}

/// A resource and the source to probe or to load it from.
#[derive(Debug, PartialEq, Eq)]
pub struct Target {
    pub resource: ResourceId,
    /// The index of the source's group.
    pub metasource: usize,
    /// The place of the source in the group's search order: 0 is the source
    /// that was added last.
    pub filesource: usize,
    /// The name of the source.
    pub source: String,
}

/// The mathematical value of a [`Target`].
pub struct TargetView {
    pub resource: ResourceIdView,
    pub metasource: nat,
    pub filesource: nat,
    pub source: Seq<char>,
}

impl View for Target {
    type V = TargetView;

    open spec fn view(&self) -> TargetView {
        TargetView {
            resource: self.resource@,
            metasource: self.metasource as nat,
            filesource: self.filesource as nat,
            source: self.source@,
        }
    }
}

/// The views of a list of targets.
pub open spec fn target_views(v: Seq<Target>) -> Seq<TargetView> {
    v.map_values(|t: Target| t@)
}

/// What the machine asks of the driver.
#[derive(Debug, PartialEq, Eq)]
pub enum Action {
    /// Start a search over this many resources and this many sources.
    Search { resources: usize, sources: usize },
    /// Poll the search that is under way.
    Poll,
    /// The search waits for its probes: come back when they have answered.
    Suspend,
    /// Load each resource from its source.
    Load { locale: String, targets: Vec<Target> },
    /// A bundle: alone where its resources parsed cleanly, else with the
    /// errors that parsing met.
    Yield(Result<Bundle, (Bundle, Vec<String>)>),
    /// Report the error. The pass goes on.
    Report(L10nRegistryError),
    /// The pass is over. With it come the errors of the updates that had
    /// waited for the pass and found no source.
    Finished(Vec<L10nRegistrySetupError>),
}

/// The mathematical value of an [`Action`].
pub enum ActionView {
    Search { resources: nat, sources: nat },
    Poll,
    Suspend,
    Load { locale: Seq<char>, targets: Seq<TargetView> },
    Yield(Result<BundleView, (BundleView, Seq<Seq<char>>)>),
    Report(RegistryErrorView),
    Finished(Seq<SetupErrorView>),
}

impl View for Action {
    type V = ActionView;

    open spec fn view(&self) -> ActionView {
        match self {
            Action::Search { resources, sources } => ActionView::Search {
                resources: *resources as nat,
                sources: *sources as nat,
            },
            Action::Poll => ActionView::Poll,
            Action::Suspend => ActionView::Suspend,
            Action::Load { locale, targets } => ActionView::Load {
                locale: locale@,
                targets: target_views(targets@),
            },
            Action::Yield(bundle) => ActionView::Yield(bundle_result_view(*bundle)),
            Action::Report(error) => ActionView::Report(error@),
            Action::Finished(errors) => ActionView::Finished(setup_error_views(errors@)),
        }
    }
}

/// Where a pass stands.
#[derive(Debug, PartialEq, Eq)]
pub enum State {
    /// No locale is in progress.
    Idle,
    /// A locale is in progress and its search has given an order: the
    /// resources of the order are being loaded.
    LocaleSelected(String),
    /// A locale is in progress and its search is under way.
    Searching(String),
}

/// The mathematical value of a [`State`].
pub enum StateView {
    Idle,
    LocaleSelected(Seq<char>),
    Searching(Seq<char>),
}

impl View for State {
    type V = StateView;

    open spec fn view(&self) -> StateView {
        match self {
            State::Idle => StateView::Idle,
            State::LocaleSelected(locale) => StateView::LocaleSelected(locale@),
            State::Searching(locale) => StateView::Searching(locale@),
        }
    }
}

impl StateView {
    /// The state with the search taken out where it was under way, and put
    /// back where it was taken out.
    pub open spec fn turned(self) -> StateView {
        match self {
            StateView::Idle => StateView::Idle,
            StateView::LocaleSelected(locale) => StateView::Searching(locale),
            StateView::Searching(locale) => StateView::LocaleSelected(locale),
        }
    }

    /// The locale in progress.
    pub open spec fn locale(self) -> Seq<char>
        recommends
            !(self is Idle),
    {
        match self {
            StateView::Idle => Seq::empty(),
            StateView::LocaleSelected(locale) => locale,
            StateView::Searching(locale) => locale,
        }
    }
}

impl State {
    /// The locale in progress.
    pub fn get_locale(&self) -> (res: &String)
        requires
            !(self@ is Idle),
        ensures
            res@ == self@.locale(),
    {
        match self {
            State::LocaleSelected(locale) => locale,
            State::Searching(locale) => locale,
            State::Idle => vstd::pervasive::unreached(),
        }
    }

    /// The state with the search taken out where it was under way, and put
    /// back where it was taken out.
    fn turned(self) -> (res: State)
        ensures
            res@ == self@.turned(),
    {
        match self {
            State::Searching(locale) => State::LocaleSelected(locale),
            State::LocaleSelected(locale) => State::Searching(locale),
            State::Idle => State::Idle,
        }
    }

    /// Turns the state in its place, by `replace_with::replace_with_or_default`:
    /// the value is taken out of its place and handed to the closure, and what
    /// the closure returns is put there. The closure is [`State::turned`],
    /// which does not panic, so the default never takes the place.
    #[verifier::external_body]
    fn turn(&mut self)
        ensures
            final(self)@ == old(self)@.turned(),
    {
        replace_with::replace_with_or_default(self, |state| state.turned());
    }

    /// Takes the search out of the state: its order is to be loaded.
    fn take_solver(&mut self)
        requires
            old(self)@ is Searching,
        ensures
            final(self)@ == StateView::LocaleSelected(old(self)@.locale()),
    {
        self.turn();
    }

    /// Puts the search back into the state: it is to be polled again.
    fn put_back_solver(&mut self)
        requires
            old(self)@ is LocaleSelected,
        ensures
            final(self)@ == StateView::Searching(old(self)@.locale()),
    {
        self.turn();
    }
}

impl Default for State {
    fn default() -> (res: Self)
        ensures
            res@ == StateView::Idle,
    {
        State::Idle
    }
}

/// The mathematical value of a [`GenerateBundles`].
pub struct StreamView {
    pub state: StateView,
    /// The requested locales, in the caller's order.
    pub locales: Seq<Seq<char>>,
    /// The number of locales that were begun.
    pub next_locale: nat,
    /// The index of the group that is searched for the locale in progress.
    pub current_metasource: nat,
    /// The requested resources.
    pub resource_ids: Seq<ResourceIdView>,
    /// Whether the pass holds a claim on the registry's store.
    pub claim: bool,
    /// Whether the pass is over.
    pub done: bool,
    /// The number of orders in a row that gave no bundle.
    pub failed: nat,
    /// The number of such failures in a row at which the locale is given up.
    pub retry_limit: nat,
}

/// The new value of a pass and what the driver is to do.
pub struct Outcome {
    pub next: StreamView,
    pub action: ActionView,
}

/// The target for a resource of the request and a place in the search order
/// of the current group: place 0 is the group's last source.
pub open spec fn target_of(m: StreamView, store: Store, resource: int, place: int) -> TargetView {
    TargetView {
        resource: m.resource_ids[resource],
        metasource: m.current_metasource,
        filesource: place as nat,
        source: at_place(store[m.current_metasource as int], place).name,
    }
}

/// The targets of an order: for each requested resource its chosen source.
pub open spec fn targets_for(m: StreamView, store: Store, order: Seq<usize>) -> Seq<TargetView> {
    Seq::new(order.len(), |i: int| target_of(m, store, i, order[i] as int))
}

/// The end of a pass: its claim, if it holds one, is given back.
pub open spec fn finish<P, B>(m: StreamView, reg: RegistryView<P, B>) -> Outcome {
    Outcome {
        next: StreamView { state: StateView::Idle, claim: false, done: true, ..m },
        action: ActionView::Finished(
            if m.claim {
                release_errors(reg)
            } else {
                Seq::empty()
            },
        ),
    }
}

/// What follows when no locale is in progress. Where a locale is left and
/// the store has a group: the search of the locale's last group. Where a
/// locale is left and the store has no group: no group can supply anything,
/// so the locale is done with a report of the first required resource of the
/// request; where the request requires none, nothing is missing and the pass
/// ends. Where no locale is left, the pass ends.
pub open spec fn begin_locale<P, B>(m: StreamView, reg: RegistryView<P, B>) -> Outcome {
    if m.done {
        Outcome { next: m, action: ActionView::Finished(Seq::empty()) }
    } else if m.next_locale >= m.locales.len() {
        finish(m, reg)
    } else if reg.store.len() == 0 {
        let missing = first_required(m.resource_ids);
        if missing < m.resource_ids.len() {
            Outcome {
                next: StreamView {
                    state: StateView::Idle,
                    next_locale: m.next_locale + 1,
                    ..m
                },
                action: ActionView::Report(
                    RegistryErrorView::MissingResource {
                        locale: m.locales[m.next_locale as int],
                        resource_id: m.resource_ids[missing],
                    },
                ),
            }
        } else {
            finish(m, reg)
        }
    } else {
        let last = (reg.store.len() - 1) as nat;
        Outcome {
            next: StreamView {
                state: StateView::Searching(m.locales[m.next_locale as int]),
                next_locale: m.next_locale + 1,
                current_metasource: last,
                failed: 0,
                ..m
            },
            action: ActionView::Search {
                resources: m.resource_ids.len(),
                sources: reg.store[last as int].len(),
            },
        }
    }
}

/// What follows when the locale in progress is given up.
pub open spec fn leave_locale<P, B>(m: StreamView, reg: RegistryView<P, B>) -> Outcome {
    begin_locale(StreamView { state: StateView::Idle, failed: 0, ..m }, reg)
}

/// What follows when the search of a group ends without an order: the search
/// of the group before it; after the first group, a report of the missing
/// resource where the search named one, else the next locale.
pub open spec fn on_no_order<P, B>(
    m: StreamView,
    reg: RegistryView<P, B>,
    missing: Option<usize>,
) -> Outcome {
    if m.current_metasource > 0 {
        let before = (m.current_metasource - 1) as nat;
        Outcome {
            next: StreamView { current_metasource: before, failed: 0, ..m },
            action: ActionView::Search {
                resources: m.resource_ids.len(),
                sources: reg.store[before as int].len(),
            },
        }
    } else {
        match missing {
            Some(index) => Outcome {
                next: StreamView { state: StateView::Idle, failed: 0, ..m },
                action: ActionView::Report(
                    RegistryErrorView::MissingResource {
                        locale: m.state.locale(),
                        resource_id: m.resource_ids[index as int],
                    },
                ),
            },
            None => leave_locale(m, reg),
        }
    }
}

/// What follows a poll of the search.
pub open spec fn on_solver<P, B>(
    m: StreamView,
    reg: RegistryView<P, B>,
    result: SolverResultView,
) -> Outcome {
    match result {
        SolverResultView::Pending => Outcome { next: m, action: ActionView::Suspend },
        SolverResultView::Order(order) => Outcome {
            next: StreamView { state: StateView::LocaleSelected(m.state.locale()), ..m },
            action: ActionView::Load {
                locale: m.state.locale(),
                targets: targets_for(m, reg.store, order),
            },
        },
        SolverResultView::Unsatisfied(index) => on_no_order(m, reg, Some(index)),
        SolverResultView::Exhausted => on_no_order(m, reg, None),
    }
}

/// What follows the loading of an order's resources: the bundle, where one
/// can be made; else another poll of the same search, or the next locale once
/// the limit of failures in a row is reached.
pub open spec fn on_loaded<P, B>(
    m: StreamView,
    reg: RegistryView<P, B>,
    loaded: Seq<ResourceOptionView>,
) -> Outcome {
    match bundle_of(m.state.locale(), loaded) {
        Some(bundle) => Outcome {
            next: StreamView { state: StateView::Searching(m.state.locale()), failed: 0, ..m },
            action: ActionView::Yield(bundle),
        },
        None => if m.failed + 1 >= m.retry_limit {
            leave_locale(m, reg)
        } else {
            Outcome {
                next: StreamView {
                    state: StateView::Searching(m.state.locale()),
                    failed: m.failed + 1,
                    ..m
                },
                action: ActionView::Poll,
            }
        },
    }
}

/// The transition function of a pass.
pub open spec fn spec_step<P, B>(m: StreamView, reg: RegistryView<P, B>, event: EventView) -> Outcome {
    match event {
        EventView::Resume => begin_locale(m, reg),
        EventView::Solver(result) => on_solver(m, reg, result),
        EventView::Loaded(loaded) => on_loaded(m, reg, loaded),
    }
}

/// Whether an order names, for each requested resource, a source of the
/// current group.
pub open spec fn order_fits(m: StreamView, store: Store, order: Seq<usize>) -> bool {
    &&& order.len() == m.resource_ids.len()
    &&& forall|i: int|
        0 <= i < order.len() ==> (#[trigger] order[i]) < store[m.current_metasource as int].len()
}

/// Whether an event is the one that a pass waits for, from a registry on which
/// the pass holds its claim.
pub open spec fn accepts<P, B>(m: StreamView, reg: RegistryView<P, B>, event: EventView) -> bool {
    &&& m.claim ==> reg.locks > 0
    &&& match event {
        EventView::Resume => m.state is Idle,
        EventView::Solver(result) => {
            &&& m.state is Searching
            &&& m.current_metasource < reg.store.len()
            &&& match result {
                SolverResultView::Order(order) => order_fits(m, reg.store, order),
                SolverResultView::Unsatisfied(index) => index < m.resource_ids.len(),
                _ => true,
            }
        },
        EventView::Loaded(loaded) => {
            &&& m.state is LocaleSelected
            &&& loaded.len() == m.resource_ids.len()
        },
    }
}

/// The registry after a step of a pass: the claim is given back in the step
/// that ends the pass.
pub open spec fn registry_after<P, B>(
    m: StreamView,
    next: StreamView,
    reg: RegistryView<P, B>,
) -> RegistryView<P, B> {
    if m.claim && !next.claim {
        after_release(reg)
    } else {
        reg
    }
}

/// Whether two actions are the same but for the bundle that they hand out.
pub open spec fn same_but_bundle(a: ActionView, b: ActionView) -> bool {
    match (a, b) {
        (ActionView::Yield(Ok(_)), ActionView::Yield(Ok(_))) => true,
        (ActionView::Yield(Err((_, before))), ActionView::Yield(Err((_, after)))) => before
            == after,
        _ => a == b,
    }
}

/// Whether the action `after` is the action `before` with its bundle, where
/// it hands one out, adapted by the adapter, where there is one. The errors
/// that come with a bundle, and every action without a bundle, stay as they
/// are.
pub open spec fn adapted_by<B: BundleAdapter>(
    adapter: Option<B>,
    before: ActionView,
    after: ActionView,
) -> bool {
    match adapter {
        None => after == before,
        Some(adapter) => match before {
            ActionView::Yield(Ok(bundle)) => after matches ActionView::Yield(Ok(adapted))
                && adapter.adapts(bundle, adapted),
            ActionView::Yield(Err((bundle, errors))) => after matches ActionView::Yield(
                Err((adapted, kept)),
            ) && adapter.adapts(bundle, adapted) && kept == errors,
            _ => after == before,
        },
    }
}

/// A resolution pass over the requested locales and resources.
pub struct GenerateBundles {
    locales: Vec<String>,
    next_locale: usize,
    current_metasource: usize,
    resource_ids: Vec<ResourceId>,
    state: State,
    claim: bool,
    done: bool,
    failed: usize,
    retry_limit: usize,
}

impl View for GenerateBundles {
    type V = StreamView;

    closed spec fn view(&self) -> StreamView {
        StreamView {
            state: self.state@,
            locales: texts(self.locales@),
            next_locale: self.next_locale as nat,
            current_metasource: self.current_metasource as nat,
            resource_ids: resource_views(self.resource_ids@),
            claim: self.claim,
            done: self.done,
            failed: self.failed as nat,
            retry_limit: self.retry_limit as nat,
        }
    }
}

impl GenerateBundles {
    /// A pass over the locales and resources that takes a claim on the
    /// registry's store: changes to the sources wait until the pass is over
    /// or cancelled.
    pub fn new<P, B>(
        reg: &mut L10nRegistry<P, B>,
        locales: Vec<String>,
        resource_ids: Vec<ResourceId>,
    ) -> (res: Self)
        requires
            old(reg)@.locks < usize::MAX,
        ensures
            final(reg)@ == (RegistryView { locks: old(reg)@.locks + 1, ..old(reg)@ }),
            registry_valid(old(reg)@) ==> registry_valid(final(reg)@),
            res@ == (StreamView {
                state: StateView::Idle,
                locales: texts(locales@),
                next_locale: 0,
                current_metasource: 0,
                resource_ids: resource_views(resource_ids@),
                claim: true,
                done: false,
                failed: 0,
                retry_limit: DEFAULT_RETRY_LIMIT as nat,
            }),
    {
        reg.borrow();
        GenerateBundles {
            locales,
            next_locale: 0,
            current_metasource: 0,
            resource_ids,
            state: State::Idle,
            claim: true,
            done: false,
            failed: 0,
            retry_limit: DEFAULT_RETRY_LIMIT,
        }
    }

    /// A pass that takes no claim on a store: for a caller that changes no
    /// source while the pass is under way.
    pub fn new_sync(locales: Vec<String>, resource_ids: Vec<ResourceId>) -> (res: Self)
        ensures
            res@ == (StreamView {
                state: StateView::Idle,
                locales: texts(locales@),
                next_locale: 0,
                current_metasource: 0,
                resource_ids: resource_views(resource_ids@),
                claim: false,
                done: false,
                failed: 0,
                retry_limit: DEFAULT_RETRY_LIMIT as nat,
            }),
    {
        GenerateBundles {
            locales,
            next_locale: 0,
            current_metasource: 0,
            resource_ids,
            state: State::Idle,
            claim: false,
            done: false,
            failed: 0,
            retry_limit: DEFAULT_RETRY_LIMIT,
        }
    }

    /// Sets the number of failures in a row to put a bundle together at which
    /// a locale is given up.
    pub fn set_retry_limit(&mut self, limit: usize)
        ensures
            final(self)@ == (StreamView { retry_limit: limit as nat, ..old(self)@ }),
    {
        self.retry_limit = limit;
    }

    /// Where the pass stands.
    pub fn state(&self) -> (res: &State)
        ensures
            res@ == self@.state,
    {
        &self.state
    }

    /// The index of the group that is searched for the locale in progress.
    pub fn current_metasource(&self) -> (res: usize)
        ensures
            res == self@.current_metasource,
    {
        self.current_metasource
    }

    /// Whether the pass holds a claim on a registry's store.
    pub fn holds_claim(&self) -> (res: bool)
        ensures
            res == self@.claim,
    {
        self.claim
    }

    /// Whether the pass is over.
    pub fn is_done(&self) -> (res: bool)
        ensures
            res == self@.done,
    {
        self.done
    }

    /// The target for one requested resource and one place in the search
    /// order of the current group.
    fn target(&self, store: &MetaSources, resource: usize, place: usize) -> (res: Target)
        requires
            self@.current_metasource < store@.len(),
            resource < self@.resource_ids.len(),
            place < store@[self@.current_metasource as int].len(),
        ensures
            res@ == target_of(self@, store@, resource as int, place as int),
    {
        let source = store.filesource(self.current_metasource, place);
        Target {
            resource: self.resource_ids[resource].clone(),
            metasource: self.current_metasource,
            filesource: place,
            source: source.name.clone(),
        }
    }

    /// The targets of the search's probes: for each pair of a resource's
    /// index in the request and a place in the search order of the current
    /// group, the resource and the source at that place.
    pub fn probe_targets(&self, store: &MetaSources, query: &Vec<(usize, usize)>) -> (res: Vec<
        Target,
    >)
        requires
            self@.current_metasource < store@.len(),
            forall|i: int|
                0 <= i < query@.len() ==> (#[trigger] query@[i]).0 < self@.resource_ids.len()
                    && query@[i].1 < store@[self@.current_metasource as int].len(),
        ensures
            res@.len() == query@.len(),
            forall|i: int|
                0 <= i < query@.len() ==> (#[trigger] res@[i])@ == target_of(
                    self@,
                    store@,
                    query@[i].0 as int,
                    query@[i].1 as int,
                ),
    {
        let mut res: Vec<Target> = Vec::new();
        let mut i: usize = 0;
        while i < query.len()
            invariant
                i <= query.len(),
                res@.len() == i,
                self@.current_metasource < store@.len(),
                forall|k: int|
                    0 <= k < query@.len() ==> (#[trigger] query@[k]).0 < self@.resource_ids.len()
                        && query@[k].1 < store@[self@.current_metasource as int].len(),
                forall|k: int|
                    0 <= k < i ==> (#[trigger] res@[k])@ == target_of(
                        self@,
                        store@,
                        query@[k].0 as int,
                        query@[k].1 as int,
                    ),
            decreases query.len() - i,
        {
            let pair = &query[i];
            res.push(self.target(store, pair.0, pair.1));
            i += 1;
        }
        res
    }

    /// The targets of an order.
    fn order_targets(&self, store: &MetaSources, order: &Vec<usize>) -> (res: Vec<Target>)
        requires
            self@.current_metasource < store@.len(),
            order_fits(self@, store@, order@),
        ensures
            target_views(res@) == targets_for(self@, store@, order@),
    {
        let mut res: Vec<Target> = Vec::new();
        let mut i: usize = 0;
        while i < order.len()
            invariant
                i <= order.len(),
                res@.len() == i,
                self@.current_metasource < store@.len(),
                order_fits(self@, store@, order@),
                forall|k: int|
                    0 <= k < i ==> (#[trigger] res@[k])@ == target_of(
                        self@,
                        store@,
                        k,
                        order@[k] as int,
                    ),
            decreases order.len() - i,
        {
            res.push(self.target(store, i, order[i]));
            i += 1;
        }
        assert(target_views(res@) =~= targets_for(self@, store@, order@));
        res
    }

    /// Ends the pass and gives its claim back, if it holds one.
    fn finish<P, B>(&mut self, reg: &mut L10nRegistry<P, B>) -> (action: Action)
        requires
            old(self)@.claim ==> old(reg)@.locks > 0,
        ensures
            final(self)@ == finish(old(self)@, old(reg)@).next,
            action@ == finish(old(self)@, old(reg)@).action,
            final(reg)@ == registry_after(old(self)@, final(self)@, old(reg)@),
            registry_valid(old(reg)@) ==> registry_valid(final(reg)@),
    {
        let errors = if self.claim {
            reg.release()
        } else {
            let none: Vec<L10nRegistrySetupError> = Vec::new();
            assert(setup_error_views(none@) =~= Seq::empty());
            none
        };
        self.state = State::Idle;
        self.claim = false;
        self.done = true;
        Action::Finished(errors)
    }

    /// Begins the next locale, or ends the pass.
    fn begin_locale<P, B>(&mut self, reg: &mut L10nRegistry<P, B>) -> (action: Action)
        requires
            old(self)@.claim ==> old(reg)@.locks > 0,
        ensures
            final(self)@ == begin_locale(old(self)@, old(reg)@).next,
            action@ == begin_locale(old(self)@, old(reg)@).action,
            final(reg)@ == registry_after(old(self)@, final(self)@, old(reg)@),
            registry_valid(old(reg)@) ==> registry_valid(final(reg)@),
    {
        if self.done {
            let none: Vec<L10nRegistrySetupError> = Vec::new();
            assert(setup_error_views(none@) =~= Seq::empty());
            return Action::Finished(none);
        }
        if self.next_locale >= self.locales.len() {
            return self.finish(reg);
        }
        let groups = reg.shared().metasources().len();
        if groups == 0 {
            let missing = find_first_required(&self.resource_ids);
            if missing >= self.resource_ids.len() {
                return self.finish(reg);
            }
            let locale = self.locales[self.next_locale].clone();
            let resource_id = self.resource_ids[missing].clone();
            assert(self@.locales[self@.next_locale as int] == locale@);
            assert(self@.resource_ids[missing as int] == resource_id@);
            self.state = State::Idle;
            self.next_locale = self.next_locale + 1;
            return Action::Report(L10nRegistryError::MissingResource { locale, resource_id });
        }
        let last = groups - 1;
        let sources = reg.shared().metasources().metasource(last).len();
        let locale = self.locales[self.next_locale].clone();
        assert(self@.locales[self@.next_locale as int] == locale@);
        self.state = State::Searching(locale);
        self.next_locale = self.next_locale + 1;
        self.current_metasource = last;
        self.failed = 0;
        Action::Search { resources: self.resource_ids.len(), sources }
    }

    /// Gives the locale in progress up.
    fn leave_locale<P, B>(&mut self, reg: &mut L10nRegistry<P, B>) -> (action: Action)
        requires
            old(self)@.claim ==> old(reg)@.locks > 0,
        ensures
            final(self)@ == leave_locale(old(self)@, old(reg)@).next,
            action@ == leave_locale(old(self)@, old(reg)@).action,
            final(reg)@ == registry_after(old(self)@, final(self)@, old(reg)@),
            registry_valid(old(reg)@) ==> registry_valid(final(reg)@),
    {
        self.state = State::Idle;
        self.failed = 0;
        self.begin_locale(reg)
    }

    /// Goes on after the search of a group ended without an order.
    fn no_order<P, B>(&mut self, reg: &mut L10nRegistry<P, B>, missing: Option<usize>) -> (action:
        Action)
        requires
            old(self)@.claim ==> old(reg)@.locks > 0,
            old(self)@.state is Searching,
            old(self)@.current_metasource < old(reg)@.store.len(),
            missing is Some ==> missing.unwrap() < old(self)@.resource_ids.len(),
        ensures
            final(self)@ == on_no_order(old(self)@, old(reg)@, missing).next,
            action@ == on_no_order(old(self)@, old(reg)@, missing).action,
            final(reg)@ == registry_after(old(self)@, final(self)@, old(reg)@),
            registry_valid(old(reg)@) ==> registry_valid(final(reg)@),
    {
        if self.current_metasource > 0 {
            self.current_metasource = self.current_metasource - 1;
            self.failed = 0;
            let sources = reg.shared().metasources().metasource(self.current_metasource).len();
            return Action::Search { resources: self.resource_ids.len(), sources };
        }
        match missing {
            Some(index) => {
                let locale = self.state.get_locale().clone();
                let resource_id = self.resource_ids[index].clone();
                self.state = State::Idle;
                self.failed = 0;
                Action::Report(L10nRegistryError::MissingResource { locale, resource_id })
            },
            None => self.leave_locale(reg),
        }
    }

    /// Goes on after the resources of an order were loaded.
    fn loaded<P, B>(&mut self, reg: &mut L10nRegistry<P, B>, loaded: Vec<ResourceOption>) -> (action:
        Action)
        requires
            old(self)@.claim ==> old(reg)@.locks > 0,
            old(self)@.state is LocaleSelected,
        ensures
            final(self)@ == on_loaded(old(self)@, old(reg)@, option_views(loaded@)).next,
            action@ == on_loaded(old(self)@, old(reg)@, option_views(loaded@)).action,
            final(reg)@ == registry_after(old(self)@, final(self)@, old(reg)@),
            registry_valid(old(reg)@) ==> registry_valid(final(reg)@),
    {
        let locale = self.state.get_locale().clone();
        match bundle_from_loaded(locale, loaded) {
            Some(bundle) => {
                self.state.put_back_solver();
                self.failed = 0;
                Action::Yield(bundle)
            },
            None => {
                if self.retry_limit == 0 || self.failed >= self.retry_limit - 1 {
                    self.leave_locale(reg)
                } else {
                    self.state.put_back_solver();
                    self.failed = self.failed + 1;
                    Action::Poll
                }
            },
        }
    }

    /// Takes the pass one step on: from the event that the driver hands in to
    /// the action that the driver is to take next.
    pub fn step<P, B>(&mut self, reg: &mut L10nRegistry<P, B>, event: Event) -> (action: Action)
        requires
            accepts(old(self)@, old(reg)@, event@),
        ensures
            final(self)@ == spec_step(old(self)@, old(reg)@, event@).next,
            action@ == spec_step(old(self)@, old(reg)@, event@).action,
            final(reg)@ == registry_after(old(self)@, final(self)@, old(reg)@),
            registry_valid(old(reg)@) ==> registry_valid(final(reg)@),
    {
        match event {
            Event::Resume => self.begin_locale(reg),
            Event::Solver(result) => match result {
                SolverResult::Pending => Action::Suspend,
                SolverResult::Order(order) => {
                    let targets = self.order_targets(reg.shared().metasources(), &order);
                    let locale = self.state.get_locale().clone();
                    self.state.take_solver();
                    Action::Load { locale, targets }
                },
                SolverResult::Unsatisfied(index) => self.no_order(reg, Some(index)),
                SolverResult::Exhausted => self.no_order(reg, None),
            },
            Event::Loaded(loaded) => self.loaded(reg, loaded),
        }
    }

    /// Whether the event is the one that the pass waits for, from a registry
    /// on which the pass holds its claim.
    pub fn accepts<P, B>(&self, reg: &L10nRegistry<P, B>, event: &Event) -> (res: bool)
        ensures
            res == accepts(self@, reg@, event@),
    {
        if self.claim && reg.lock_count() == 0 {
            return false;
        }
        match event {
            Event::Resume => matches!(self.state, State::Idle),
            Event::Solver(result) => {
                let store = reg.shared().metasources();
                if !matches!(self.state, State::Searching(_)) || self.current_metasource
                    >= store.len() {
                    return false;
                }
                match result {
                    SolverResult::Order(order) => {
                        if order.len() != self.resource_ids.len() {
                            return false;
                        }
                        let sources = store.metasource(self.current_metasource).len();
                        all_below(order, sources)
                    },
                    SolverResult::Unsatisfied(index) => *index < self.resource_ids.len(),
                    _ => true,
                }
            },
            Event::Loaded(loaded) => matches!(self.state, State::LocaleSelected(_)) && loaded.len()
                == self.resource_ids.len(),
        }
    }

    /// Takes the pass one step on if the event is the one that it waits for;
    /// else nothing changes and `None` is returned.
    pub fn try_step<P, B>(&mut self, reg: &mut L10nRegistry<P, B>, event: Event) -> (res: Option<
        Action,
    >)
        ensures
            res is Some <==> accepts(old(self)@, old(reg)@, event@),
            res is Some ==> final(self)@ == spec_step(old(self)@, old(reg)@, event@).next
                && res.unwrap()@ == spec_step(old(self)@, old(reg)@, event@).action && final(reg)@
                == registry_after(old(self)@, final(self)@, old(reg)@),
            res is None ==> final(self)@ == old(self)@ && final(reg)@ == old(reg)@,
            registry_valid(old(reg)@) ==> registry_valid(final(reg)@),
    {
        if self.accepts(reg, &event) {
            Some(self.step(reg, event))
        } else {
            None
        }
    }

    /// Takes the pass one step on, as [`GenerateBundles::step`] does, and lets
    /// the registry's bundle adapter, where one is set, adapt the bundle that
    /// the step hands out.
    pub fn poll_next<P, B: BundleAdapter>(
        &mut self,
        reg: &mut L10nRegistry<P, B>,
        event: Event,
    ) -> (action: Action)
        requires
            accepts(old(self)@, old(reg)@, event@),
        ensures
            final(self)@ == spec_step(old(self)@, old(reg)@, event@).next,
            adapted_by(
                old(reg)@.bundle_adapter,
                spec_step(old(self)@, old(reg)@, event@).action,
                action@,
            ),
            same_but_bundle(spec_step(old(self)@, old(reg)@, event@).action, action@),
            old(reg)@.bundle_adapter is None ==> action@ == spec_step(
                old(self)@,
                old(reg)@,
                event@,
            ).action,
            final(reg)@ == registry_after(old(self)@, final(self)@, old(reg)@),
            registry_valid(old(reg)@) ==> registry_valid(final(reg)@),
    {
        let action = self.step(reg, event);
        adapt_action(reg.shared().bundle_adapter(), action)
    }

    /// Ends the pass before its time and gives its claim back, if it holds
    /// one. Returns the errors of the updates that had waited for the claim.
    pub fn cancel<P, B>(&mut self, reg: &mut L10nRegistry<P, B>) -> (res: Vec<
        L10nRegistrySetupError,
    >)
        requires
            old(self)@.claim ==> old(reg)@.locks > 0,
        ensures
            final(self)@ == finish(old(self)@, old(reg)@).next,
            ActionView::Finished(setup_error_views(res@)) == finish(old(self)@, old(reg)@).action,
            final(reg)@ == registry_after(old(self)@, final(self)@, old(reg)@),
            registry_valid(old(reg)@) ==> registry_valid(final(reg)@),
    {
        match self.finish(reg) {
            Action::Finished(errors) => errors,
            _ => Vec::new(),
        }
    }

    /// The requested resources.
    pub fn resource_ids(&self) -> (res: &Vec<ResourceId>)
        ensures
            resource_views(res@) == self@.resource_ids,
    {
        &self.resource_ids
    }
}

/// Whether each entry of an order is below a bound.
fn all_below(order: &Vec<usize>, bound: usize) -> (res: bool)
    ensures
        res == forall|i: int| 0 <= i < order@.len() ==> (#[trigger] order@[i]) < bound,
{
    let mut i: usize = 0;
    while i < order.len()
        invariant
            i <= order.len(),
            forall|k: int| 0 <= k < i ==> (#[trigger] order@[k]) < bound,
        decreases order.len() - i,
    {
        if order[i] >= bound {
            return false;
        }
        i += 1;
    }
    true
}

/// Lets the adapter, where there is one, adapt the bundle that an action hands
/// out. Every other action is handed back as it is.
pub fn adapt_action<B: BundleAdapter>(adapter: &Option<B>, action: Action) -> (res: Action)
    ensures
        adapted_by(*adapter, action@, res@),
        same_but_bundle(action@, res@),
        adapter is None ==> res@ == action@,
{
    match adapter {
        Some(adapter) => match action {
            Action::Yield(Ok(bundle)) => {
                let mut bundle = bundle;
                adapter.adapt_bundle(&mut bundle);
                Action::Yield(Ok(bundle))
            },
            Action::Yield(Err((bundle, errors))) => {
                let mut bundle = bundle;
                adapter.adapt_bundle(&mut bundle);
                Action::Yield(Err((bundle, errors)))
            },
            other => other,
        },
        None => action,
    }
}

impl<P, B> L10nRegistry<P, B> {
    /// Begins a pass over one locale.
    pub fn generate_bundles_for_lang(&mut self, langid: String, resource_ids: Vec<ResourceId>) -> (res:
        GenerateBundles)
        requires
            old(self)@.locks < usize::MAX,
        ensures
            final(self)@ == (RegistryView { locks: old(self)@.locks + 1, ..old(self)@ }),
            registry_valid(old(self)@) ==> registry_valid(final(self)@),
            res@ == (StreamView {
                state: StateView::Idle,
                locales: seq![langid@],
                next_locale: 0,
                current_metasource: 0,
                resource_ids: resource_views(resource_ids@),
                claim: true,
                done: false,
                failed: 0,
                retry_limit: DEFAULT_RETRY_LIMIT as nat,
            }),
    {
        let mut lang_ids: Vec<String> = Vec::new();
        lang_ids.push(langid);
        assert(texts(lang_ids@) =~= seq![langid@]);
        GenerateBundles::new(self, lang_ids, resource_ids)
    }

    /// Begins a pass over the locales, in their order, that may be suspended
    /// while it waits for probes. The pass takes a claim on the store: changes
    /// to the sources wait until the pass is over or cancelled.
    pub fn generate_bundles(&mut self, locales: Vec<String>, resource_ids: Vec<ResourceId>) -> (res:
        GenerateBundles)
        requires
            old(self)@.locks < usize::MAX,
        ensures
            final(self)@ == (RegistryView { locks: old(self)@.locks + 1, ..old(self)@ }),
            registry_valid(old(self)@) ==> registry_valid(final(self)@),
            res@ == (StreamView {
                state: StateView::Idle,
                locales: texts(locales@),
                next_locale: 0,
                current_metasource: 0,
                resource_ids: resource_views(resource_ids@),
                claim: true,
                done: false,
                failed: 0,
                retry_limit: DEFAULT_RETRY_LIMIT as nat,
            }),
    {
        GenerateBundles::new(self, locales, resource_ids)
    }

    /// Begins a pass over the locales, in their order, for a caller that runs
    /// it to its end without changing a source meanwhile. The pass takes no
    /// claim on the store.
    pub fn generate_bundles_sync(&self, locales: Vec<String>, resource_ids: Vec<ResourceId>) -> (res:
        GenerateBundles)
        ensures
            res@ == (StreamView {
                state: StateView::Idle,
                locales: texts(locales@),
                next_locale: 0,
                current_metasource: 0,
                resource_ids: resource_views(resource_ids@),
                claim: false,
                done: false,
                failed: 0,
                retry_limit: DEFAULT_RETRY_LIMIT as nat,
            }),
    {
        GenerateBundles::new_sync(locales, resource_ids)
    }
}

} // verus!

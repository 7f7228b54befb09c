use l10nregistry::bundle::{
    bundle_from_loaded, probe_answers, Bundle, BundleAdapter, ResourceOption,
};
use l10nregistry::errors::{L10nRegistryError, L10nRegistrySetupError};
use l10nregistry::generate::{
    adapt_action, Action, Event, GenerateBundles, SolverResult, State, Target,
    DEFAULT_RETRY_LIMIT,
};
use l10nregistry::registry::L10nRegistry;
use l10nregistry::source::{FileSource, ResourceId, ResourceType};

struct Marker;

impl BundleAdapter for Marker {
    fn adapt_bundle(&self, bundle: &mut Bundle) {
        bundle.resources.push("adapted".to_string());
    }
}

type Registry = L10nRegistry<(), Marker>;

fn with_files(name: &str, group: &str, files: &[(&str, &str)]) -> FileSource {
    let mut source = FileSource::new(name.to_string(), group.to_string(), Vec::new());
    for (locale, resource) in files {
        source.record(locale.to_string(), resource.to_string(), true);
    }
    source
}

fn required(value: &str) -> ResourceId {
    ResourceId::new(value.to_string(), ResourceType::Required)
}

fn strings(list: &[&str]) -> Vec<String> {
    list.iter().map(|s| s.to_string()).collect()
}

fn locale_of(pass: &GenerateBundles) -> String {
    pass.state().get_locale().clone()
}

/// One search of the current group: for each resource the first place whose
/// source is known to have it.
fn search(reg: &Registry, pass: &GenerateBundles, resources: usize, sources: usize) -> SolverResult {
    let locale = locale_of(pass);
    let store = reg.shared().metasources();
    let mut order = Vec::new();
    for r in 0..resources {
        let resource = &pass.resource_ids()[r];
        let found = (0..sources).find(|p| {
            store.filesource(pass.current_metasource(), *p).has_file(&locale, resource)
                == Some(true)
        });
        match found {
            Some(place) => order.push(place),
            None => return SolverResult::Unsatisfied(r),
        }
    }
    SolverResult::Order(order)
}

fn load(locale: &str, targets: &[Target]) -> Vec<ResourceOption> {
    targets
        .iter()
        .map(|t| ResourceOption::Loaded {
            text: format!("{}:{}:{}", t.source, locale, t.resource.value),
            errors: Vec::new(),
        })
        .collect()
}

struct Log {
    bundles: Vec<Bundle>,
    reports: Vec<L10nRegistryError>,
    searched: Vec<(String, usize)>,
    finished: Vec<L10nRegistrySetupError>,
}

/// Runs a pass to its end. Each search gives its one order, then is at its
/// end.
fn run(reg: &mut Registry, pass: &mut GenerateBundles) -> Log {
    let mut log = Log { bundles: Vec::new(), reports: Vec::new(), searched: Vec::new(), finished: Vec::new() };
    let mut event = Event::Resume;
    loop {
        assert!(pass.accepts(reg, &event));
        let action = pass.step(reg, event);
        event = match action {
            Action::Search { resources, sources } => {
                log.searched.push((locale_of(pass), pass.current_metasource()));
                Event::Solver(search(reg, pass, resources, sources))
            }
            Action::Poll => Event::Solver(SolverResult::Exhausted),
            Action::Suspend => unreachable!(),
            Action::Load { locale, targets } => Event::Loaded(load(&locale, &targets)),
            Action::Yield(Ok(bundle)) => {
                log.bundles.push(bundle);
                Event::Solver(SolverResult::Exhausted)
            }
            Action::Yield(Err((bundle, _))) => {
                log.bundles.push(bundle);
                Event::Solver(SolverResult::Exhausted)
            }
            Action::Report(error) => {
                log.reports.push(error);
                Event::Resume
            }
            Action::Finished(errors) => {
                log.finished = errors;
                return log;
            }
        };
    }
}

fn two_groups() -> Registry {
    let mut reg: Registry = L10nRegistry::with_provider(());
    reg.register_sources(vec![
        with_files("app", "builtin", &[("pl", "menu.ftl"), ("pl", "main.ftl"), ("en", "menu.ftl")]),
        with_files("pack", "langpack", &[("pl", "menu.ftl")]),
    ]);
    reg
}

#[test]
fn no_sources_no_bundle_and_one_report() {
    let mut reg: Registry = L10nRegistry::with_provider(());
    let mut pass = reg.generate_bundles(strings(&["xx"]), vec![required("menu.ftl")]);
    assert_eq!(reg.lock_count(), 1);
    let action = pass.step(&mut reg, Event::Resume);
    assert_eq!(
        action,
        Action::Report(L10nRegistryError::MissingResource {
            locale: "xx".to_string(),
            resource_id: required("menu.ftl"),
        })
    );
    assert_eq!(pass.state(), &State::Idle);
    assert!(!pass.is_done());
    assert_eq!(reg.lock_count(), 1);
    assert_eq!(pass.step(&mut reg, Event::Resume), Action::Finished(Vec::new()));
    assert!(pass.is_done());
    assert!(!pass.holds_claim());
    assert_eq!(reg.lock_count(), 0);
}

#[test]
fn no_sources_scenario_run_to_the_end() {
    let mut reg: Registry = L10nRegistry::with_provider(());
    let mut pass = reg.generate_bundles(strings(&["xx"]), vec![required("menu.ftl")]);
    let log = run(&mut reg, &mut pass);
    assert!(log.bundles.is_empty());
    assert!(log.searched.is_empty());
    assert_eq!(
        log.reports,
        vec![L10nRegistryError::MissingResource {
            locale: "xx".to_string(),
            resource_id: required("menu.ftl"),
        }]
    );
    assert_eq!(reg.lock_count(), 0);
}

#[test]
fn no_sources_one_report_for_each_locale() {
    let mut reg: Registry = L10nRegistry::with_provider(());
    let optional = ResourceId::new("extra.ftl".to_string(), ResourceType::Optional);
    let mut pass = reg.generate_bundles_sync(
        strings(&["pl", "en"]),
        vec![optional, required("menu.ftl"), required("main.ftl")],
    );
    let log = run(&mut reg, &mut pass);
    assert!(log.bundles.is_empty());
    assert_eq!(
        log.reports,
        vec![
            L10nRegistryError::MissingResource {
                locale: "pl".to_string(),
                resource_id: required("menu.ftl"),
            },
            L10nRegistryError::MissingResource {
                locale: "en".to_string(),
                resource_id: required("menu.ftl"),
            },
        ]
    );
    assert!(pass.is_done());
}

#[test]
fn no_sources_and_nothing_required_ends_the_pass() {
    let mut reg: Registry = L10nRegistry::with_provider(());
    let optional = ResourceId::new("extra.ftl".to_string(), ResourceType::Optional);
    let mut pass = reg.generate_bundles(strings(&["pl"]), vec![optional]);
    assert_eq!(pass.step(&mut reg, Event::Resume), Action::Finished(Vec::new()));
    assert_eq!(reg.lock_count(), 0);
    let mut none = reg.generate_bundles(strings(&["pl"]), Vec::new());
    assert_eq!(none.step(&mut reg, Event::Resume), Action::Finished(Vec::new()));
    let mut no_locale = reg.generate_bundles(Vec::new(), vec![required("menu.ftl")]);
    assert_eq!(no_locale.step(&mut reg, Event::Resume), Action::Finished(Vec::new()));
    assert_eq!(reg.lock_count(), 0);
}

#[test]
fn missing_resource_is_reported_once() {
    let mut reg: Registry = L10nRegistry::with_provider(());
    reg.register_sources(vec![with_files("app", "builtin", &[("en", "menu.ftl")])]);
    let mut pass = reg.generate_bundles(strings(&["xx"]), vec![required("menu.ftl")]);
    let log = run(&mut reg, &mut pass);
    assert!(log.bundles.is_empty());
    assert_eq!(
        log.reports,
        vec![L10nRegistryError::MissingResource {
            locale: "xx".to_string(),
            resource_id: required("menu.ftl"),
        }]
    );
    assert_eq!(reg.lock_count(), 0);
}

#[test]
fn higher_priority_group_wins() {
    let mut reg = two_groups();
    let mut pass = reg.generate_bundles(strings(&["pl"]), vec![required("menu.ftl")]);
    let log = run(&mut reg, &mut pass);
    assert_eq!(log.bundles[0].locale, "pl");
    assert_eq!(log.bundles[0].resources, strings(&["pack:pl:menu.ftl"]));
    assert_eq!(log.searched[0], ("pl".to_string(), 1));
}

#[test]
fn lower_priority_group_is_the_fallback() {
    let mut reg = two_groups();
    let mut pass = reg.generate_bundles(strings(&["pl"]), vec![required("menu.ftl"), required("main.ftl")]);
    let log = run(&mut reg, &mut pass);
    assert_eq!(log.searched, vec![("pl".to_string(), 1), ("pl".to_string(), 0)]);
    assert_eq!(log.bundles.len(), 1);
    assert_eq!(log.bundles[0].resources, strings(&["app:pl:menu.ftl", "app:pl:main.ftl"]));
    assert!(log.reports.is_empty());
}

#[test]
fn later_source_of_a_group_wins() {
    let mut reg: Registry = L10nRegistry::with_provider(());
    reg.register_sources(vec![
        with_files("old", "builtin", &[("pl", "menu.ftl"), ("pl", "main.ftl")]),
        with_files("new", "builtin", &[("pl", "menu.ftl")]),
    ]);
    let mut pass = reg.generate_bundles_for_lang("pl".to_string(), vec![required("menu.ftl"), required("main.ftl")]);
    let log = run(&mut reg, &mut pass);
    assert_eq!(log.bundles[0].resources, strings(&["new:pl:menu.ftl", "old:pl:main.ftl"]));
}

#[test]
fn locales_are_resolved_in_the_callers_order() {
    let mut reg = two_groups();
    let mut pass = reg.generate_bundles(strings(&["en", "xx", "pl"]), vec![required("menu.ftl")]);
    let log = run(&mut reg, &mut pass);
    let locales: Vec<&str> = log.bundles.iter().map(|b| b.locale.as_str()).collect();
    assert_eq!(locales, vec!["en", "pl", "pl"]);
    assert_eq!(log.bundles[0].resources, strings(&["app:en:menu.ftl"]));
    assert_eq!(log.bundles[1].resources, strings(&["pack:pl:menu.ftl"]));
    assert_eq!(log.bundles[2].resources, strings(&["app:pl:menu.ftl"]));
    assert_eq!(
        log.reports,
        vec![L10nRegistryError::MissingResource {
            locale: "xx".to_string(),
            resource_id: required("menu.ftl"),
        }]
    );
    assert_eq!(
        log.searched,
        vec![
            ("en".to_string(), 1),
            ("en".to_string(), 0),
            ("xx".to_string(), 1),
            ("xx".to_string(), 0),
            ("pl".to_string(), 1),
            ("pl".to_string(), 0),
        ]
    );
}

#[test]
fn two_passes_resolve_alike() {
    let mut reg = two_groups();
    let request = || vec![required("menu.ftl"), required("main.ftl")];
    let mut first = reg.generate_bundles(strings(&["pl", "en"]), request());
    let one = run(&mut reg, &mut first);
    let mut second = reg.generate_bundles(strings(&["pl", "en"]), request());
    let two = run(&mut reg, &mut second);
    assert_eq!(one.bundles, two.bundles);
    assert_eq!(one.reports, two.reports);
    assert_eq!(one.searched, two.searched);
}

#[test]
fn an_order_is_loaded_from_the_places_it_names() {
    let mut reg: Registry = L10nRegistry::with_provider(());
    reg.register_sources(vec![
        with_files("first", "builtin", &[]),
        with_files("second", "builtin", &[]),
        with_files("third", "builtin", &[]),
    ]);
    let mut pass = reg.generate_bundles(strings(&["pl"]), vec![required("a.ftl"), required("b.ftl")]);
    assert_eq!(
        pass.step(&mut reg, Event::Resume),
        Action::Search { resources: 2, sources: 3 }
    );
    assert_eq!(pass.state(), &State::Searching("pl".to_string()));
    assert_eq!(pass.step(&mut reg, Event::Solver(SolverResult::Pending)), Action::Suspend);
    let action = pass.step(&mut reg, Event::Solver(SolverResult::Order(vec![2, 0])));
    assert_eq!(
        action,
        Action::Load {
            locale: "pl".to_string(),
            targets: vec![
                Target { resource: required("a.ftl"), metasource: 0, filesource: 2, source: "first".to_string() },
                Target { resource: required("b.ftl"), metasource: 0, filesource: 0, source: "third".to_string() },
            ],
        }
    );
    assert_eq!(pass.state(), &State::LocaleSelected("pl".to_string()));
}

#[test]
fn probes_map_places_to_sources() {
    let mut reg: Registry = L10nRegistry::with_provider(());
    reg.register_sources(vec![with_files("first", "builtin", &[]), with_files("second", "builtin", &[])]);
    let mut pass = reg.generate_bundles(strings(&["pl"]), vec![required("a.ftl"), required("b.ftl")]);
    pass.step(&mut reg, Event::Resume);
    let targets = pass.probe_targets(reg.shared().metasources(), &vec![(1, 0), (0, 1), (1, 1)]);
    let seen: Vec<(&str, &str)> = targets.iter().map(|t| (t.resource.value.as_str(), t.source.as_str())).collect();
    assert_eq!(seen, vec![("b.ftl", "second"), ("a.ftl", "first"), ("b.ftl", "first")]);
    assert_eq!(targets[0].filesource, 0);
    assert_eq!(targets[1].filesource, 1);
    assert_eq!(targets[0].metasource, 0);
}

#[test]
fn probe_answers_accept_all_but_missing_required() {
    let results = vec![
        ResourceOption::Loaded { text: "a".to_string(), errors: Vec::new() },
        ResourceOption::MissingOptional,
        ResourceOption::MissingRequired,
    ];
    assert_eq!(probe_answers(&results), vec![true, true, false]);
    assert!(results[2].is_required_and_missing());
    assert!(!results[1].is_required_and_missing());
    assert_eq!(probe_answers(&Vec::new()), Vec::<bool>::new());
}

#[test]
fn a_bundle_skips_missing_optional_resources() {
    let loaded = vec![
        ResourceOption::Loaded { text: "one".to_string(), errors: Vec::new() },
        ResourceOption::MissingOptional,
        ResourceOption::Loaded { text: "two".to_string(), errors: Vec::new() },
    ];
    assert_eq!(
        bundle_from_loaded("pl".to_string(), loaded),
        Some(Ok(Bundle { locale: "pl".to_string(), resources: strings(&["one", "two"]) }))
    );
}

#[test]
fn a_bundle_comes_with_its_parse_errors() {
    let loaded = vec![
        ResourceOption::Loaded { text: "one".to_string(), errors: strings(&["e1", "e2"]) },
        ResourceOption::Loaded { text: "two".to_string(), errors: Vec::new() },
        ResourceOption::Loaded { text: "three".to_string(), errors: strings(&["e3"]) },
    ];
    assert_eq!(
        bundle_from_loaded("pl".to_string(), loaded),
        Some(Err((
            Bundle { locale: "pl".to_string(), resources: strings(&["one", "two", "three"]) },
            strings(&["e1", "e2", "e3"])
        )))
    );
}

#[test]
fn no_partial_bundle() {
    let loaded = vec![
        ResourceOption::Loaded { text: "one".to_string(), errors: Vec::new() },
        ResourceOption::MissingRequired,
    ];
    assert_eq!(bundle_from_loaded("pl".to_string(), loaded), None);
    assert_eq!(
        bundle_from_loaded("pl".to_string(), Vec::new()),
        Some(Ok(Bundle { locale: "pl".to_string(), resources: Vec::new() }))
    );
}

fn searching_pass(reg: &mut Registry) -> GenerateBundles {
    let mut pass = reg.generate_bundles(strings(&["pl", "en"]), vec![required("menu.ftl")]);
    assert_eq!(pass.step(reg, Event::Resume), Action::Search { resources: 1, sources: 1 });
    pass
}

fn fail_once(reg: &mut Registry, pass: &mut GenerateBundles) -> Action {
    let action = pass.step(reg, Event::Solver(SolverResult::Order(vec![0])));
    assert!(matches!(action, Action::Load { .. }));
    pass.step(reg, Event::Loaded(vec![ResourceOption::MissingRequired]))
}

#[test]
fn a_failed_assembly_polls_the_same_search_again() {
    let mut reg = two_groups();
    let mut pass = searching_pass(&mut reg);
    assert_eq!(fail_once(&mut reg, &mut pass), Action::Poll);
    assert_eq!(pass.current_metasource(), 1);
    assert_eq!(pass.state(), &State::Searching("pl".to_string()));
}

#[test]
fn a_locale_is_given_up_at_the_retry_limit() {
    let mut reg = two_groups();
    let mut pass = searching_pass(&mut reg);
    for _ in 1..DEFAULT_RETRY_LIMIT {
        assert_eq!(fail_once(&mut reg, &mut pass), Action::Poll);
    }
    assert_eq!(fail_once(&mut reg, &mut pass), Action::Search { resources: 1, sources: 1 });
    assert_eq!(pass.state(), &State::Searching("en".to_string()));
    assert_eq!(pass.current_metasource(), 1);
}

#[test]
fn a_bundle_resets_the_count_of_failures() {
    let mut reg = two_groups();
    let mut pass = searching_pass(&mut reg);
    pass.set_retry_limit(2);
    assert_eq!(fail_once(&mut reg, &mut pass), Action::Poll);
    pass.step(&mut reg, Event::Solver(SolverResult::Order(vec![0])));
    let loaded = vec![ResourceOption::Loaded { text: "t".to_string(), errors: Vec::new() }];
    assert!(matches!(pass.step(&mut reg, Event::Loaded(loaded)), Action::Yield(Ok(_))));
    assert_eq!(fail_once(&mut reg, &mut pass), Action::Poll);
    assert_eq!(fail_once(&mut reg, &mut pass), Action::Search { resources: 1, sources: 1 });
    assert_eq!(pass.state(), &State::Searching("en".to_string()));
}

#[test]
fn a_retry_limit_of_zero_gives_up_at_once() {
    let mut reg = two_groups();
    let mut pass = reg.generate_bundles(strings(&["pl"]), vec![required("menu.ftl")]);
    pass.set_retry_limit(0);
    pass.step(&mut reg, Event::Resume);
    assert_eq!(fail_once(&mut reg, &mut pass), Action::Finished(Vec::new()));
    assert_eq!(reg.lock_count(), 0);
}

#[test]
fn exhausted_first_group_goes_on_silently() {
    let mut reg: Registry = L10nRegistry::with_provider(());
    reg.register_sources(vec![with_files("app", "builtin", &[])]);
    let mut pass = reg.generate_bundles(strings(&["pl", "en"]), vec![required("menu.ftl")]);
    pass.step(&mut reg, Event::Resume);
    assert_eq!(
        pass.step(&mut reg, Event::Solver(SolverResult::Exhausted)),
        Action::Search { resources: 1, sources: 1 }
    );
    assert_eq!(pass.state(), &State::Searching("en".to_string()));
    assert_eq!(
        pass.step(&mut reg, Event::Solver(SolverResult::Unsatisfied(0))),
        Action::Report(L10nRegistryError::MissingResource {
            locale: "en".to_string(),
            resource_id: required("menu.ftl"),
        })
    );
    assert_eq!(pass.state(), &State::Idle);
    assert_eq!(pass.step(&mut reg, Event::Resume), Action::Finished(Vec::new()));
}

#[test]
fn a_failing_index_is_ignored_above_the_first_group() {
    let mut reg = two_groups();
    let mut pass = searching_pass(&mut reg);
    assert_eq!(
        pass.step(&mut reg, Event::Solver(SolverResult::Unsatisfied(0))),
        Action::Search { resources: 1, sources: 1 }
    );
    assert_eq!(pass.current_metasource(), 0);
    assert_eq!(pass.state(), &State::Searching("pl".to_string()));
}

#[test]
fn events_out_of_turn_are_not_accepted() {
    let mut reg = two_groups();
    let mut pass = reg.generate_bundles(strings(&["pl"]), vec![required("menu.ftl")]);
    assert!(!pass.accepts(&reg, &Event::Solver(SolverResult::Pending)));
    assert!(!pass.accepts(&reg, &Event::Loaded(vec![ResourceOption::MissingOptional])));
    assert_eq!(pass.try_step(&mut reg, Event::Solver(SolverResult::Pending)), None);
    assert_eq!(pass.state(), &State::Idle);
    assert_eq!(
        pass.try_step(&mut reg, Event::Resume),
        Some(Action::Search { resources: 1, sources: 1 })
    );
    assert!(!pass.accepts(&reg, &Event::Resume));
    assert!(!pass.accepts(&reg, &Event::Solver(SolverResult::Order(vec![1]))));
    assert!(!pass.accepts(&reg, &Event::Solver(SolverResult::Order(vec![0, 0]))));
    assert!(!pass.accepts(&reg, &Event::Solver(SolverResult::Unsatisfied(1))));
    assert!(pass.accepts(&reg, &Event::Solver(SolverResult::Unsatisfied(0))));
    assert!(pass.accepts(&reg, &Event::Solver(SolverResult::Order(vec![0]))));
    pass.step(&mut reg, Event::Solver(SolverResult::Order(vec![0])));
    assert!(!pass.accepts(&reg, &Event::Loaded(Vec::new())));
    assert!(pass.accepts(&reg, &Event::Loaded(vec![ResourceOption::MissingOptional])));
}

#[test]
fn a_pass_is_not_accepted_by_a_registry_it_has_no_claim_on() {
    let mut reg = two_groups();
    let pass = reg.generate_bundles(strings(&["pl"]), vec![required("menu.ftl")]);
    let other = two_groups();
    assert!(pass.accepts(&reg, &Event::Resume));
    assert!(!pass.accepts(&other, &Event::Resume));
}

#[test]
fn removal_during_a_pass_waits_for_its_end() {
    let mut reg: Registry = L10nRegistry::with_provider(());
    reg.register_sources(vec![
        with_files("a", "builtin", &[("pl", "menu.ftl")]),
        with_files("b", "builtin", &[]),
    ]);
    let mut pass = reg.generate_bundles(strings(&["pl"]), vec![required("menu.ftl")]);
    pass.step(&mut reg, Event::Resume);
    reg.remove_sources(strings(&["a"]));
    assert_eq!(reg.get_source_names(), Ok(strings(&["a", "b"])));
    let action = pass.step(&mut reg, Event::Solver(SolverResult::Order(vec![1])));
    assert!(matches!(&action, Action::Load { targets, .. } if targets[0].source == "a"));
    pass.step(&mut reg, Event::Loaded(vec![ResourceOption::Loaded { text: "t".to_string(), errors: Vec::new() }]));
    assert_eq!(reg.get_source_names(), Ok(strings(&["a", "b"])));
    pass.step(&mut reg, Event::Solver(SolverResult::Exhausted));
    assert!(pass.is_done());
    assert_eq!(reg.get_source_names(), Ok(strings(&["b"])));
}

#[test]
fn an_unknown_update_during_a_pass_fails_at_once() {
    let mut reg = two_groups();
    let mut pass = reg.generate_bundles(Vec::new(), vec![required("menu.ftl")]);
    assert_eq!(
        reg.update_sources(vec![with_files("nowhere", "builtin", &[])]),
        Err(L10nRegistrySetupError::UnknownSource { name: "nowhere".to_string() })
    );
    assert_eq!(reg.get_source_names(), Ok(strings(&["app", "pack"])));
    assert_eq!(pass.step(&mut reg, Event::Resume), Action::Finished(Vec::new()));
    assert_eq!(reg.get_source_names(), Ok(strings(&["app", "pack"])));
}

#[test]
fn cancelling_a_pass_frees_the_registry() {
    let mut reg = two_groups();
    let mut pass = searching_pass(&mut reg);
    reg.register_sources(vec![with_files("late", "builtin", &[])]);
    assert_eq!(reg.has_source("late"), Ok(false));
    assert_eq!(pass.cancel(&mut reg), Vec::new());
    assert_eq!(reg.lock_count(), 0);
    assert!(!pass.holds_claim());
    assert!(pass.is_done());
    assert_eq!(reg.has_source("late"), Ok(true));
    reg.register_sources(vec![with_files("later", "builtin", &[])]);
    assert_eq!(reg.has_source("later"), Ok(true));
    assert_eq!(pass.cancel(&mut reg), Vec::new());
    assert_eq!(reg.lock_count(), 0);
    assert_eq!(pass.step(&mut reg, Event::Resume), Action::Finished(Vec::new()));
    assert_eq!(reg.lock_count(), 0);
}

#[test]
fn the_claim_is_given_back_once() {
    let mut reg = two_groups();
    let mut first = reg.generate_bundles(Vec::new(), Vec::new());
    let mut second = reg.generate_bundles(Vec::new(), Vec::new());
    assert_eq!(reg.lock_count(), 2);
    assert_eq!(first.step(&mut reg, Event::Resume), Action::Finished(Vec::new()));
    assert_eq!(reg.lock_count(), 1);
    assert_eq!(first.step(&mut reg, Event::Resume), Action::Finished(Vec::new()));
    assert_eq!(first.cancel(&mut reg), Vec::new());
    assert_eq!(reg.lock_count(), 1);
    assert_eq!(second.cancel(&mut reg), Vec::new());
    assert_eq!(reg.lock_count(), 0);
}

#[test]
fn a_synchronous_pass_takes_no_claim() {
    let mut reg = two_groups();
    let mut pass = reg.generate_bundles_sync(strings(&["pl"]), vec![required("menu.ftl")]);
    assert_eq!(reg.lock_count(), 0);
    assert!(!pass.holds_claim());
    let log = run(&mut reg, &mut pass);
    assert_eq!(log.bundles[0].resources, strings(&["pack:pl:menu.ftl"]));
    assert!(pass.is_done());
    assert_eq!(reg.lock_count(), 0);
}

#[test]
fn an_update_shows_in_the_next_pass() {
    let mut reg: Registry = L10nRegistry::with_provider(());
    reg.register_sources(vec![
        with_files("old", "builtin", &[("pl", "menu.ftl")]),
        with_files("new", "builtin", &[]),
    ]);
    let mut before = reg.generate_bundles(strings(&["pl"]), vec![required("menu.ftl")]);
    let log = run(&mut reg, &mut before);
    assert_eq!(log.bundles[0].resources, strings(&["old:pl:menu.ftl"]));
    assert_eq!(reg.update_sources(vec![with_files("new", "builtin", &[("pl", "menu.ftl")])]), Ok(()));
    let mut after = reg.generate_bundles(strings(&["pl"]), vec![required("menu.ftl")]);
    let log = run(&mut reg, &mut after);
    assert_eq!(log.bundles[0].resources, strings(&["new:pl:menu.ftl"]));
}

#[test]
fn the_adapter_is_set_once_and_only_on_a_free_registry() {
    let mut reg = two_groups();
    reg.borrow();
    assert_eq!(reg.set_bundle_adaptor(Marker), Err(L10nRegistrySetupError::RegistryLocked));
    assert!(reg.shared().bundle_adapter().is_none());
    reg.release();
    assert_eq!(reg.set_bundle_adaptor(Marker), Ok(()));
    assert!(reg.shared().bundle_adapter().is_some());
    assert_eq!(reg.set_bundle_adaptor(Marker), Err(L10nRegistrySetupError::RegistryLocked));
}

#[test]
fn the_adapter_adapts_each_bundle() {
    let mut reg = two_groups();
    assert_eq!(reg.set_bundle_adaptor(Marker), Ok(()));
    let mut pass = searching_pass(&mut reg);
    assert!(matches!(
        pass.poll_next(&mut reg, Event::Solver(SolverResult::Order(vec![0]))),
        Action::Load { .. }
    ));
    let loaded = vec![ResourceOption::Loaded { text: "t".to_string(), errors: strings(&["e"]) }];
    assert_eq!(
        pass.poll_next(&mut reg, Event::Loaded(loaded)),
        Action::Yield(Err((
            Bundle { locale: "pl".to_string(), resources: strings(&["t", "adapted"]) },
            strings(&["e"])
        )))
    );
}

#[test]
fn without_an_adapter_a_bundle_stays_as_it_is() {
    let bundle = Bundle { locale: "pl".to_string(), resources: strings(&["t"]) };
    let none: Option<Marker> = None;
    assert_eq!(
        adapt_action(&none, Action::Yield(Ok(Bundle { locale: "pl".to_string(), resources: strings(&["t"]) }))),
        Action::Yield(Ok(bundle))
    );
    assert_eq!(adapt_action(&Some(Marker), Action::Poll), Action::Poll);
    assert_eq!(
        adapt_action(&Some(Marker), Action::Yield(Ok(Bundle { locale: "pl".to_string(), resources: Vec::new() }))),
        Action::Yield(Ok(Bundle { locale: "pl".to_string(), resources: strings(&["adapted"]) }))
    );
}

#[test]
fn a_miss_weighs_as_the_resource_is_required() {
    let optional = ResourceId::new("extra.ftl".to_string(), ResourceType::Optional);
    assert_eq!(
        l10nregistry::bundle::resource_option(&required("menu.ftl"), None, Vec::new()),
        ResourceOption::MissingRequired
    );
    assert_eq!(
        l10nregistry::bundle::resource_option(&optional, None, Vec::new()),
        ResourceOption::MissingOptional
    );
    assert_eq!(
        l10nregistry::bundle::resource_option(&optional, Some("text".to_string()), strings(&["e"])),
        ResourceOption::Loaded { text: "text".to_string(), errors: strings(&["e"]) }
    );
}

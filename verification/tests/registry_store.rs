use l10nregistry::errors::L10nRegistrySetupError;
use l10nregistry::registry::L10nRegistry;
use l10nregistry::source::FileSource;

fn source(name: &str, group: &str, locales: &[&str]) -> FileSource {
    FileSource::new(
        name.to_string(),
        group.to_string(),
        locales.iter().map(|l| l.to_string()).collect(),
    )
}

fn names(list: &[&str]) -> Vec<String> {
    list.iter().map(|n| n.to_string()).collect()
}

fn registry() -> L10nRegistry<(), ()> {
    L10nRegistry::with_provider(())
}

#[test]
fn new_registry_is_empty_and_free() {
    let reg = registry();
    assert_eq!(reg.get_source_names(), Ok(Vec::<String>::new()));
    assert_eq!(reg.get_available_locales(), Ok(Vec::<String>::new()));
    assert_eq!(reg.lock_count(), 0);
    assert!(reg.is_free());
    assert_eq!(reg.pending_len(), 0);
    assert!(reg.shared().metasources().is_empty());
    assert_eq!(reg.shared().provider(), &());
    assert_eq!(reg.shared().bundle_adapter(), &None);
}

#[test]
fn register_then_has_source() {
    let mut reg = registry();
    reg.register_sources(vec![source("toolkit", "app", &["en-US"])]);
    assert_eq!(reg.has_source("toolkit"), Ok(true));
    assert_eq!(reg.has_source("browser"), Ok(false));
    reg.remove_sources(names(&["toolkit"]));
    assert_eq!(reg.has_source("toolkit"), Ok(false));
    assert_eq!(reg.get_source_names(), Ok(Vec::<String>::new()));
}

#[test]
fn every_registered_source_is_found() {
    let mut reg = registry();
    reg.register_sources(vec![
        source("toolkit", "app", &["en-US"]),
        source("browser", "app", &["en-US"]),
        source("langpack-pl", "langpack", &["pl"]),
    ]);
    for name in ["toolkit", "browser", "langpack-pl"] {
        assert_eq!(reg.has_source(name), Ok(true));
    }
    assert_eq!(
        reg.get_source_names(),
        Ok(names(&["toolkit", "browser", "langpack-pl"]))
    );
}

#[test]
fn same_origin_shares_one_group() {
    let mut reg = registry();
    reg.register_sources(vec![source("toolkit", "app", &["en-US"])]);
    reg.register_sources(vec![source("langpack-pl", "langpack", &["pl"])]);
    reg.register_sources(vec![source("browser", "app", &["en-US"])]);
    let store = reg.shared().metasources();
    assert_eq!(store.len(), 2);
    assert_eq!(store.metasource(0).len(), 2);
    assert_eq!(store.metasource(0)[0].name, "toolkit");
    assert_eq!(store.metasource(0)[1].name, "browser");
    assert_eq!(store.metasource(1).len(), 1);
    assert_eq!(store.metasource(1)[0].name, "langpack-pl");
    assert_eq!(
        reg.get_source_names(),
        Ok(names(&["toolkit", "browser", "langpack-pl"]))
    );
}

#[test]
fn registration_does_not_deduplicate() {
    let mut reg = registry();
    reg.register_sources(vec![source("toolkit", "app", &["en-US"])]);
    reg.register_sources(vec![source("toolkit", "app", &["pl"])]);
    assert_eq!(reg.get_source_names(), Ok(names(&["toolkit", "toolkit"])));
    let found = reg.get_source("toolkit").unwrap().unwrap();
    assert_eq!(found.locales, names(&["en-US"]));
}

#[test]
fn search_order_is_newest_first() {
    let mut reg = registry();
    reg.register_sources(vec![
        source("first", "app", &[]),
        source("second", "app", &[]),
        source("third", "app", &[]),
    ]);
    let store = reg.shared().metasources();
    assert_eq!(store.filesource(0, 0).name, "third");
    assert_eq!(store.filesource(0, 1).name, "second");
    assert_eq!(store.filesource(0, 2).name, "first");
}

#[test]
fn removing_a_whole_group_deletes_it() {
    let mut reg = registry();
    reg.register_sources(vec![
        source("toolkit", "app", &["en-US"]),
        source("langpack-pl", "langpack", &["pl"]),
        source("browser", "app", &["en-US"]),
        source("extra", "addon", &["de"]),
    ]);
    assert_eq!(reg.shared().metasources().len(), 3);
    reg.remove_sources(names(&["toolkit", "browser"]));
    let store = reg.shared().metasources();
    assert_eq!(store.len(), 2);
    assert_eq!(store.metasource(0)[0].name, "langpack-pl");
    assert_eq!(store.metasource(1)[0].name, "extra");
    assert_eq!(reg.get_source_names(), Ok(names(&["langpack-pl", "extra"])));
    assert_eq!(reg.has_source("toolkit"), Ok(false));
    assert_eq!(reg.has_source("browser"), Ok(false));
}

#[test]
fn removing_part_of_a_group_keeps_it() {
    let mut reg = registry();
    reg.register_sources(vec![
        source("toolkit", "app", &["en-US"]),
        source("browser", "app", &["en-US"]),
    ]);
    reg.remove_sources(names(&["toolkit", "unknown"]));
    assert_eq!(reg.shared().metasources().len(), 1);
    assert_eq!(reg.get_source_names(), Ok(names(&["browser"])));
}

#[test]
fn removing_a_name_removes_it_from_every_group() {
    let mut reg = registry();
    reg.register_sources(vec![
        source("shared", "app", &[]),
        source("shared", "langpack", &[]),
        source("other", "langpack", &[]),
    ]);
    reg.remove_sources(names(&["shared"]));
    assert_eq!(reg.get_source_names(), Ok(names(&["other"])));
    assert_eq!(reg.shared().metasources().len(), 1);
}

#[test]
fn clear_removes_all_groups() {
    let mut reg = registry();
    reg.register_sources(vec![
        source("toolkit", "app", &["en-US"]),
        source("langpack-pl", "langpack", &["pl"]),
    ]);
    reg.clear_sources();
    assert!(reg.shared().metasources().is_empty());
    assert_eq!(reg.get_source_names(), Ok(Vec::<String>::new()));
}

#[test]
fn update_replaces_the_matching_source() {
    let mut reg = registry();
    reg.register_sources(vec![
        source("toolkit", "app", &["en-US"]),
        source("browser", "app", &["en-US"]),
    ]);
    let mut newer = source("toolkit", "app", &["en-US", "pl"]);
    newer.record("pl".to_string(), "menu.ftl".to_string(), true);
    assert_eq!(reg.update_sources(vec![newer]), Ok(()));
    assert_eq!(reg.get_source_names(), Ok(names(&["toolkit", "browser"])));
    let found = reg.get_source("toolkit").unwrap().unwrap();
    assert_eq!(found.locales, names(&["en-US", "pl"]));
    assert_eq!(found.files.len(), 1);
    let untouched = reg.get_source("browser").unwrap().unwrap();
    assert_eq!(untouched.locales, names(&["en-US"]));
}

#[test]
fn update_of_unknown_source_fails() {
    let mut reg = registry();
    reg.register_sources(vec![source("toolkit", "app", &["en-US"])]);
    assert_eq!(
        reg.update_sources(vec![source("browser", "app", &["pl"])]),
        Err(L10nRegistrySetupError::UnknownSource { name: "browser".to_string() })
    );
    assert_eq!(reg.get_source_names(), Ok(names(&["toolkit"])));
}

#[test]
fn update_matches_the_name_within_its_origin_only() {
    let mut reg = registry();
    reg.register_sources(vec![source("toolkit", "app", &["en-US"])]);
    assert_eq!(
        reg.update_sources(vec![source("toolkit", "langpack", &["pl"])]),
        Err(L10nRegistrySetupError::UnknownSource { name: "toolkit".to_string() })
    );
    let found = reg.get_source("toolkit").unwrap().unwrap();
    assert_eq!(found.metasource, "app");
    assert_eq!(found.locales, names(&["en-US"]));
}

#[test]
fn update_stops_at_the_first_unknown_source() {
    let mut reg = registry();
    reg.register_sources(vec![
        source("a", "app", &["en-US"]),
        source("c", "app", &["en-US"]),
    ]);
    let res = reg.update_sources(vec![
        source("a", "app", &["pl"]),
        source("b", "app", &["pl"]),
        source("c", "app", &["pl"]),
    ]);
    assert_eq!(res, Err(L10nRegistrySetupError::UnknownSource { name: "b".to_string() }));
    assert_eq!(reg.get_source("a").unwrap().unwrap().locales, names(&["pl"]));
    assert_eq!(reg.get_source("c").unwrap().unwrap().locales, names(&["en-US"]));
}

#[test]
fn get_source_of_unknown_name_is_none() {
    let mut reg = registry();
    reg.register_sources(vec![source("toolkit", "app", &["en-US"])]);
    assert_eq!(reg.get_source("browser"), Ok(None));
}

#[test]
fn available_locales_are_deduplicated() {
    let mut reg = registry();
    reg.register_sources(vec![
        source("toolkit", "app", &["en-US", "pl"]),
        source("browser", "app", &["pl", "de", "en-US"]),
        source("langpack-fr", "langpack", &["fr", "de"]),
    ]);
    assert_eq!(
        reg.get_available_locales(),
        Ok(names(&["en-US", "pl", "de", "fr"]))
    );
}

#[test]
fn borrow_and_release_count_claims() {
    let mut reg = registry();
    reg.borrow();
    reg.borrow();
    assert_eq!(reg.lock_count(), 2);
    assert!(!reg.is_free());
    assert_eq!(reg.release(), Vec::new());
    assert_eq!(reg.lock_count(), 1);
    assert_eq!(reg.release(), Vec::new());
    assert_eq!(reg.lock_count(), 0);
    assert!(reg.is_free());
}

#[test]
fn changes_wait_while_a_claim_is_held() {
    let mut reg = registry();
    reg.register_sources(vec![source("a", "app", &["en-US"])]);
    reg.borrow();
    reg.remove_sources(names(&["a"]));
    reg.register_sources(vec![source("b", "app", &["pl"])]);
    assert_eq!(reg.pending_len(), 2);
    assert_eq!(reg.get_source_names(), Ok(names(&["a"])));
    assert_eq!(reg.has_source("a"), Ok(true));
    assert_eq!(reg.has_source("b"), Ok(false));
    assert_eq!(reg.release(), Vec::new());
    assert_eq!(reg.pending_len(), 0);
    assert_eq!(reg.get_source_names(), Ok(names(&["b"])));
    assert_eq!(reg.has_source("a"), Ok(false));
}

#[test]
fn waiting_changes_apply_in_order_of_arrival() {
    let mut reg = registry();
    reg.borrow();
    reg.register_sources(vec![source("a", "app", &[])]);
    reg.clear_sources();
    reg.register_sources(vec![source("b", "app", &[])]);
    reg.register_sources(vec![source("c", "other", &[])]);
    reg.remove_sources(names(&["c"]));
    assert_eq!(reg.get_source_names(), Ok(Vec::<String>::new()));
    assert_eq!(reg.release(), Vec::new());
    assert_eq!(reg.get_source_names(), Ok(names(&["b"])));
    assert_eq!(reg.shared().metasources().len(), 1);
}

#[test]
fn changes_wait_for_the_last_claim() {
    let mut reg = registry();
    reg.borrow();
    reg.borrow();
    reg.register_sources(vec![source("a", "app", &[])]);
    assert_eq!(reg.release(), Vec::new());
    assert_eq!(reg.pending_len(), 1);
    assert_eq!(reg.has_source("a"), Ok(false));
    assert_eq!(reg.release(), Vec::new());
    assert_eq!(reg.has_source("a"), Ok(true));
}

#[test]
fn unknown_update_fails_at_once_while_a_claim_is_held() {
    let mut reg = registry();
    reg.register_sources(vec![source("a", "app", &["en-US"])]);
    reg.borrow();
    assert_eq!(
        reg.update_sources(vec![source("missing", "app", &[])]),
        Err(L10nRegistrySetupError::UnknownSource { name: "missing".to_string() })
    );
    assert_eq!(reg.update_sources(vec![source("a", "app", &["pl"])]), Ok(()));
    assert_eq!(reg.get_source("a").unwrap().unwrap().locales, names(&["en-US"]));
    assert_eq!(reg.release(), Vec::new());
    assert_eq!(reg.get_source("a").unwrap().unwrap().locales, names(&["pl"]));
    assert_eq!(reg.get_source_names(), Ok(names(&["a"])));
}

#[test]
fn waiting_update_is_judged_on_the_store_to_come() {
    let mut reg = registry();
    reg.register_sources(vec![source("a", "app", &["en-US"])]);
    reg.borrow();
    reg.register_sources(vec![source("b", "app", &["en-US"])]);
    assert_eq!(reg.update_sources(vec![source("b", "app", &["pl"])]), Ok(()));
    reg.remove_sources(names(&["a"]));
    assert_eq!(
        reg.update_sources(vec![source("a", "app", &["pl"])]),
        Err(L10nRegistrySetupError::UnknownSource { name: "a".to_string() })
    );
    assert_eq!(reg.get_source_names(), Ok(names(&["a"])));
    assert_eq!(reg.release(), Vec::new());
    assert_eq!(reg.get_source_names(), Ok(names(&["b"])));
    assert_eq!(reg.get_source("b").unwrap().unwrap().locales, names(&["pl"]));
}

#[test]
fn waiting_update_keeps_the_sources_before_the_unknown_one() {
    let mut reg = registry();
    reg.register_sources(vec![
        source("a", "app", &["en-US"]),
        source("c", "app", &["en-US"]),
    ]);
    reg.borrow();
    let res = reg.update_sources(vec![
        source("a", "app", &["pl"]),
        source("b", "app", &["pl"]),
        source("c", "app", &["pl"]),
    ]);
    assert_eq!(res, Err(L10nRegistrySetupError::UnknownSource { name: "b".to_string() }));
    assert_eq!(reg.pending_len(), 1);
    assert_eq!(reg.get_source("a").unwrap().unwrap().locales, names(&["en-US"]));
    assert_eq!(reg.release(), Vec::new());
    assert_eq!(reg.get_source("a").unwrap().unwrap().locales, names(&["pl"]));
    assert_eq!(reg.get_source("c").unwrap().unwrap().locales, names(&["en-US"]));
}

#[test]
fn get_source_gives_the_first_of_a_name_after_an_update() {
    let mut reg = registry();
    reg.register_sources(vec![
        source("a", "app", &["en-US"]),
        source("a", "langpack", &["de"]),
    ]);
    assert_eq!(reg.update_sources(vec![source("a", "langpack", &["pl"])]), Ok(()));
    assert_eq!(reg.get_source("a").unwrap().unwrap().locales, names(&["en-US"]));
    assert_eq!(reg.shared().metasources().metasource(1)[0].locales, names(&["pl"]));
    assert_eq!(reg.update_sources(vec![source("a", "app", &["fr"])]), Ok(()));
    assert_eq!(reg.get_source("a").unwrap().unwrap().locales, names(&["fr"]));
    assert_eq!(reg.get_source_names(), Ok(names(&["a", "a"])));
    assert_eq!(reg.shared().metasources().len(), 2);
}

#[test]
fn a_source_is_added_at_the_end_of_its_group() {
    let mut reg = registry();
    reg.register_sources(vec![
        source("a", "app", &[]),
        source("b", "langpack", &[]),
        source("c", "addon", &[]),
    ]);
    reg.register_sources(vec![source("d", "langpack", &[])]);
    let store = reg.shared().metasources();
    assert_eq!(store.len(), 3);
    assert_eq!(store.metasource(0).len(), 1);
    assert_eq!(store.metasource(1).len(), 2);
    assert_eq!(store.metasource(1)[0].name, "b");
    assert_eq!(store.metasource(1)[1].name, "d");
    assert_eq!(store.metasource(2)[0].name, "c");
}

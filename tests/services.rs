use odyssey::read_only::RO;
use odyssey::registry::{
    cache_name, exchange_source, kind_from_lowercase, kind_of, include_allowed, register_database, remove_database,
    DatabaseInfos, DatabaseKind, ExchangeError, ImportDatabaseArgs, RemoveDatabaseArgs, Source,
};
use odyssey::search::{
    query_clauses, result_line, single_match, Clause, Field, InventoryItem, MatchError, Occur,
    SearchCommand,
};

fn s(x: &str) -> String {
    x.to_string()
}

fn entry(version: &str, path: &str) -> ImportDatabaseArgs {
    ImportDatabaseArgs { mersion: s(version), path: s(path), kind: DatabaseKind::Ecoinvent }
}

fn view(c: &[(Occur, Clause)]) -> Vec<(Occur, Option<Field>, String)> {
    c.iter()
        .map(|(o, cl)| match cl {
            Clause::Text(t) => (*o, None, t.clone()),
            Clause::Term(f, t) => (*o, Some(*f), t.clone()),
        })
        .collect()
}

#[test]
fn import_twice_keeps_one_entry() {
    let mut entries = vec![];
    assert!(register_database(&mut entries, entry("3.10", "/data/a")));
    assert!(!register_database(&mut entries, entry("3.10", "/data/b")));
    assert_eq!(entries.len(), 1);
    assert_eq!(entries[0].path, "/data/a");
    assert!(register_database(&mut entries, entry("3.9", "/data/c")));
    assert_eq!(entries.len(), 2);
}

#[test]
fn remove_drops_the_entry() {
    let mut entries = vec![entry("3.10", "/a"), entry("3.9", "/b")];
    let gone = RemoveDatabaseArgs { version: s("3.10"), kind: DatabaseKind::Ecoinvent };
    assert!(remove_database(&mut entries, &gone));
    assert_eq!(entries.len(), 1);
    assert_eq!(entries[0].mersion, "3.9");
    assert!(!remove_database(&mut entries, &gone));
    assert_eq!(entries.len(), 1);
}

#[test]
fn remove_after_import_restores_the_manifest() {
    let mut entries = vec![entry("3.9", "/b")];
    assert!(register_database(&mut entries, entry("3.10", "/a")));
    let gone = RemoveDatabaseArgs { version: s("3.10"), kind: DatabaseKind::Ecoinvent };
    assert!(remove_database(&mut entries, &gone));
    assert_eq!(entries.len(), 1);
    assert_eq!(entries[0].mersion, "3.9");
    assert_eq!(entries[0].path, "/b");
}

#[test]
fn names_of_caches_and_databases() {
    assert_eq!(cache_name(DatabaseKind::Ecoinvent, "3.10"), "Ecoinvent_3.10");
    assert_eq!(DatabaseKind::Ecoinvent.name(), "Ecoinvent");
    let infos = DatabaseInfos { name: s("Ecoinvent"), version: s("3.10") };
    assert_eq!(infos.key(), "Ecoinvent_3.10");
}

#[test]
fn database_kinds_by_name() {
    assert_eq!(kind_of("EcoInvent"), Some(DatabaseKind::Ecoinvent));
    assert_eq!(kind_of("ecoinvent"), Some(DatabaseKind::Ecoinvent));
    assert_eq!(kind_of("agribalyse"), None);
    assert_eq!(kind_from_lowercase(&s("ecoinvent")), Some(DatabaseKind::Ecoinvent));
    assert_eq!(kind_from_lowercase(&s("Ecoinvent")), None);
}

#[test]
fn exchanges_name_one_source() {
    assert_eq!(exchange_source(true, false), Ok(Source::Database));
    assert_eq!(exchange_source(false, true), Ok(Source::File));
    assert_eq!(exchange_source(true, true), Err(ExchangeError::BothSources));
    assert_eq!(exchange_source(false, false), Err(ExchangeError::NoSource));
    assert!(include_allowed(32));
    assert!(!include_allowed(33));
}

#[test]
fn exact_query_has_must_clauses_for_facets() {
    let c = query_clauses("market for x", Some(s("Ecoinvent_3.10")), None, Some(s("kWh")), true);
    assert_eq!(
        view(&c),
        vec![
            (Occur::Should, None, s("market for x")),
            (Occur::Must, Some(Field::ExactName), s("market for x")),
            (Occur::Must, Some(Field::Database), s("Ecoinvent_3.10")),
            (Occur::Must, Some(Field::Unit), s("kWh")),
        ]
    );
}

#[test]
fn free_query_from_the_command() {
    let cmd = SearchCommand {
        unit: None,
        location: Some(s("CH")),
        database: None,
        json: false,
        query: s("steel"),
    };
    assert_eq!(
        view(&cmd.clauses()),
        vec![(Occur::Should, None, s("steel")), (Occur::Must, Some(Field::Location), s("CH"))]
    );
}

#[test]
fn documents_hold_the_item_fields() {
    let item = InventoryItem {
        id: s("a_b"),
        database: s("Ecoinvent_3.10"),
        name: s("make y"),
        alt_name: None,
        location: Some(s("GLO")),
        unit: s("kg"),
    };
    assert_eq!(
        item.document_fields(),
        vec![
            (Field::Id, s("a_b")),
            (Field::Name, s("make y")),
            (Field::ExactName, s("make y")),
            (Field::Database, s("Ecoinvent_3.10")),
            (Field::Location, s("GLO")),
            (Field::Unit, s("kg")),
        ]
    );
}

#[test]
fn result_lines() {
    assert_eq!(result_line("D", "n", Some("alt"), Some("CH"), "kg"), "[D] n (alt) CH kg");
    assert_eq!(result_line("D", "n", None, None, "kg"), "[D] n kg");
}

#[test]
fn a_search_must_find_exactly_one() {
    assert_eq!(single_match(vec![]), Err(MatchError::NoMatch));
    assert_eq!(single_match(vec![s("a"), s("b")]), Err(MatchError::MultipleMatches));
    assert_eq!(single_match(vec![s("a")]), Ok(s("a")));
}

#[test]
fn read_only_values() {
    let r = RO::new(41u32);
    assert_eq!(*r.read().ok().unwrap(), 41);
}

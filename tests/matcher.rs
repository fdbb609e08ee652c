use rcr::cache::Cache;
use rcr::matcher::{check_rom_matches, classify_file, renamed_record, ScanOptions};
use rcr::models::{DataFile, Game, HashType, Header, MatchType, Rom};
use rcr::session::{game_report, FoundGames};

fn rom(name: &str, sha1: &str) -> Rom {
    Rom { name: name.to_string(), size: 4, crc: None, md5: None, sha1: Some(sha1.to_string()) }
}

fn catalog(games: Vec<(&str, Vec<Rom>)>) -> Cache {
    let mut cache = Cache::new();
    let data = DataFile {
        header: Header { name: "h".to_string(), description: "d".to_string(), version: "1".to_string() },
        games: games
            .into_iter()
            .map(|(n, roms)| Game { name: n.to_string(), description: String::new(), roms })
            .collect(),
    };
    cache.merge_data(&data);
    cache
}

const DEFAULTS: ScanOptions = ScanOptions { first_match: false, ignore_partial: true, fix: false };

#[test]
fn exact_takes_precedence_over_partial() {
    let cache = catalog(vec![("Foo", vec![rom("foo.bin", "X")]), ("Bar", vec![rom("other.bin", "X")])]);
    let results = cache.search_by_hash(HashType::Sha1, "X").unwrap();
    let plan = classify_file("/d", "/d/foo.bin", "foo.bin", "X", HashType::Sha1, &results, &DEFAULTS, true);
    assert_eq!(plan.records.len(), 1);
    assert_eq!(plan.records[0].match_type, MatchType::Exact);
    assert_eq!(plan.records[0].game_name.as_deref(), Some("Foo"));
    assert_eq!(plan.records[0].rom_name.as_deref(), Some("foo.bin"));
    assert!(plan.rename_to.is_none());
    let keep_partial = ScanOptions { ignore_partial: false, ..DEFAULTS };
    let plan = classify_file("/d", "/d/foo.bin", "foo.bin", "X", HashType::Sha1, &results, &keep_partial, true);
    assert_eq!(plan.records.len(), 2);
    assert_eq!(plan.records[1].match_type, MatchType::Partial);
    assert_eq!(plan.records[1].game_name.as_deref(), Some("Bar"));
}

#[test]
fn end_to_end_exact_then_fix_renames_back() {
    let cache = catalog(vec![("Foo", vec![rom("foo.bin", "X")])]);
    let results = cache.search_by_hash(HashType::Sha1, "X").unwrap();
    let plan = classify_file("/d", "/d/foo.bin", "foo.bin", "X", HashType::Sha1, &results, &DEFAULTS, true);
    assert_eq!(plan.records.len(), 1);
    assert_eq!(plan.records[0].match_type, MatchType::Exact);

    let mut found = FoundGames::new();
    let m = check_rom_matches("foo.bin", &results);
    for (g, r) in &m.exact {
        found.record(g, r, &"foo.bin".to_string(), true);
    }
    let declared = cache.search_by_game_name("Foo")[0].roms.clone();
    let report = game_report(&found.games[0], &declared).unwrap();
    assert!(report.full);
    assert_eq!(report.exact_count, 1);
    assert!(report.missing.is_empty());

    let fix = ScanOptions { fix: true, ..DEFAULTS };
    let plan = classify_file("/d", "/d/bar.bin", "bar.bin", "X", HashType::Sha1, &results, &fix, true);
    assert_eq!(plan.rename_to.as_deref(), Some("foo.bin"));
    assert_eq!(plan.records.len(), 1);
    assert_eq!(plan.records[0].match_type, MatchType::Partial);
    let renamed = renamed_record(&plan.records[0], "/d/foo.bin");
    assert_eq!(renamed.match_type, MatchType::Exact);
    assert_eq!(renamed.path, "/d/foo.bin");
    assert_eq!(renamed.rom_name.as_deref(), Some("foo.bin"));
    // archive members are never renamed
    let plan = classify_file("/d", "/d/a.zip/bar.bin", "bar.bin", "X", HashType::Sha1, &results, &fix, false);
    assert!(plan.rename_to.is_none());
}

#[test]
fn duplicate_catalog_entries_give_one_exact_row_per_game() {
    let cache = catalog(vec![("Foo", vec![rom("dup.bin", "X")]), ("Baz", vec![rom("dup.bin", "X")])]);
    let results = cache.search_by_hash(HashType::Sha1, "X").unwrap();
    let plan = classify_file("/d", "/d/dup.bin", "dup.bin", "X", HashType::Sha1, &results, &DEFAULTS, true);
    assert_eq!(plan.records.len(), 2);
    assert!(plan.records.iter().all(|r| r.match_type == MatchType::Exact));
    assert_eq!(plan.records[0].game_name.as_deref(), Some("Foo"));
    assert_eq!(plan.records[1].game_name.as_deref(), Some("Baz"));
    let first = ScanOptions { first_match: true, ..DEFAULTS };
    let plan = classify_file("/d", "/d/dup.bin", "dup.bin", "X", HashType::Sha1, &results, &first, true);
    assert_eq!(plan.records.len(), 1);
    assert_eq!(plan.records[0].game_name.as_deref(), Some("Foo"));
}

#[test]
fn no_candidate_is_a_miss() {
    let cache = catalog(vec![("Foo", vec![rom("foo.bin", "X")])]);
    let results = cache.search_by_hash(HashType::Sha1, "Y").unwrap();
    let plan = classify_file("/d", "/d/q.bin", "q.bin", "Y", HashType::Sha1, &results, &DEFAULTS, true);
    assert_eq!(plan.records.len(), 1);
    assert_eq!(plan.records[0].match_type, MatchType::Miss);
    assert_eq!(plan.records[0].hash, "Y");
    assert_eq!(plan.records[0].base_path, "/d");
    assert!(plan.records[0].game_name.is_none());
}

#[test]
fn several_partials_are_all_recorded_without_rename() {
    let cache = catalog(vec![("Foo", vec![rom("a.bin", "X"), rom("b.bin", "X")])]);
    let results = cache.search_by_hash(HashType::Sha1, "X").unwrap();
    let fix = ScanOptions { fix: true, ..DEFAULTS };
    let plan = classify_file("/d", "/d/c.bin", "c.bin", "X", HashType::Sha1, &results, &fix, true);
    assert_eq!(plan.records.len(), 2);
    assert!(plan.records.iter().all(|r| r.match_type == MatchType::Partial));
    assert!(plan.rename_to.is_none());
}

#[test]
fn records_after_rename_follow_the_outcome() {
    let cache = catalog(vec![("Foo", vec![rom("foo.bin", "X")])]);
    let results = cache.search_by_hash(HashType::Sha1, "X").unwrap();
    let fix = ScanOptions { fix: true, ..DEFAULTS };
    let plan = classify_file("/d", "/d/bar.bin", "bar.bin", "X", HashType::Sha1, &results, &fix, true);
    let done = plan.records_after_rename(Some("/d/foo.bin"));
    assert_eq!(done.len(), 1);
    assert_eq!(done[0].path, "/d/foo.bin");
    assert_eq!(done[0].match_type, MatchType::Exact);
    let failed = plan.records_after_rename(None);
    assert_eq!(failed.len(), 1);
    assert_eq!(failed[0].path, "/d/bar.bin");
    assert_eq!(failed[0].match_type, MatchType::Partial);
}

#[test]
fn aggregate_notes_every_candidate() {
    let cache = catalog(vec![("Foo", vec![rom("foo.bin", "X"), rom("alt.bin", "X")]), ("Bar", vec![rom("b.bin", "X")])]);
    let results = cache.search_by_hash(HashType::Sha1, "X").unwrap();
    let m = check_rom_matches("foo.bin", &results);
    let mut found = FoundGames::new();
    found.record_pairs(&m.exact, &"foo.bin".to_string(), true);
    found.record_pairs(&m.partial, &"foo.bin".to_string(), false);
    assert_eq!(found.games.len(), 2);
    assert_eq!(found.games[0].name, "Foo");
    assert_eq!(found.games[0].exact_matches, vec![("foo.bin".to_string(), "foo.bin".to_string())]);
    assert_eq!(found.games[0].partial_matches, vec![("alt.bin".to_string(), "foo.bin".to_string())]);
    assert_eq!(found.games[1].partial_matches, vec![("b.bin".to_string(), "foo.bin".to_string())]);
}

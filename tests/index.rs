use rcr::cache::{CatalogError, Cache};
use rcr::models::{DataFile, Game, HashType, Header, MatchType, Rom, ScannedFile};
use rcr::session::Disposition;

fn rom(name: &str, crc: Option<&str>, sha1: Option<&str>) -> Rom {
    Rom {
        name: name.to_string(),
        size: 16,
        crc: crc.map(|s| s.to_string()),
        md5: None,
        sha1: sha1.map(|s| s.to_string()),
    }
}

fn game(name: &str, roms: Vec<Rom>) -> Game {
    Game { name: name.to_string(), description: format!("{name} description"), roms }
}

fn datafile(games: Vec<Game>) -> DataFile {
    DataFile {
        header: Header { name: "set".to_string(), description: "a set".to_string(), version: "1".to_string() },
        games,
    }
}

fn record(base: &str, path: &str, hash: &str) -> ScannedFile {
    ScannedFile {
        base_path: base.to_string(),
        path: path.to_string(),
        hash: hash.to_string(),
        hash_type: HashType::Sha1,
        match_type: MatchType::Miss,
        game_name: None,
        rom_name: None,
    }
}

fn sample_cache() -> Cache {
    let mut cache = Cache::new();
    cache.merge_data(&datafile(vec![
        game("Foo", vec![rom("foo.bin", Some("11111111"), Some("aaaa")), rom("foo2.bin", None, Some("bbbb"))]),
        game("Bar", vec![rom("other.bin", Some("22222222"), Some("aaaa"))]),
    ]));
    cache
}

fn flatten(r: &[(Game, Vec<Rom>)]) -> Vec<(String, String)> {
    let mut out = Vec::new();
    for (g, roms) in r {
        for rom in roms {
            out.push((g.name.clone(), rom.name.clone()));
        }
    }
    out.sort();
    out
}

#[test]
fn empty_index_finds_nothing() {
    let cache = Cache::new();
    assert!(cache.search_by_game_name("Foo").is_empty());
    assert!(cache.search_by_hash(HashType::Sha1, "aaaa").unwrap().is_empty());
}

#[test]
fn name_search_exact_and_later_game_overrides() {
    let mut cache = sample_cache();
    let found = cache.search_by_game_name("Foo");
    assert_eq!(found.len(), 1);
    assert_eq!(found[0].roms.len(), 2);
    assert!(cache.search_by_game_name("Fo").is_empty());
    cache.merge_data(&datafile(vec![game("Foo", vec![rom("new.bin", None, Some("cccc"))])]));
    let found = cache.search_by_game_name("Foo");
    assert_eq!(found.len(), 1);
    assert_eq!(found[0].roms[0].name, "new.bin");
}

#[test]
fn hash_search_returns_exactly_the_matching_pairs() {
    let cache = sample_cache();
    let r = cache.search_by_hash(HashType::Sha1, "aaaa").unwrap();
    assert_eq!(r.len(), 2);
    assert_eq!(
        flatten(&r),
        vec![("Bar".to_string(), "other.bin".to_string()), ("Foo".to_string(), "foo.bin".to_string())]
    );
    assert_eq!(flatten(&cache.search_by_hash(HashType::Sha1, "bbbb").unwrap()), vec![("Foo".to_string(), "foo2.bin".to_string())]);
    assert!(cache.search_by_hash(HashType::Sha1, "zzzz").unwrap().is_empty());
}

#[test]
fn hash_search_for_other_type_is_a_mismatch() {
    let mut cache = sample_cache();
    assert_eq!(
        cache.search_by_hash(HashType::Crc, "11111111").unwrap_err(),
        CatalogError::TypeMismatch { expected: HashType::Sha1, got: HashType::Crc }
    );
    cache.build_hash_index(HashType::Crc);
    assert_eq!(flatten(&cache.search_by_hash(HashType::Crc, "11111111").unwrap()), vec![("Foo".to_string(), "foo.bin".to_string())]);
    assert!(cache.search_by_hash(HashType::Sha1, "aaaa").is_err());
    // a rom without a CRC is not found under an empty hash
    assert!(cache.search_by_hash(HashType::Crc, "").unwrap().is_empty());
}

#[test]
fn save_then_load_gives_same_search_results() {
    let mut cache = sample_cache();
    cache.store_file(&record("/d", "/d/a.bin", "aaaa"));
    let (games, files) = cache.to_records();
    assert_eq!(games.len(), cache.catalog().len());
    let loaded = Cache::from_records(games, files);
    assert_eq!(loaded.search_by_game_name("Foo").len(), 1);
    assert_eq!(loaded.search_by_game_name("Foo")[0].roms.len(), cache.search_by_game_name("Foo")[0].roms.len());
    assert_eq!(
        flatten(&loaded.search_by_hash(HashType::Sha1, "aaaa").unwrap()),
        flatten(&cache.search_by_hash(HashType::Sha1, "aaaa").unwrap())
    );
    assert_eq!(loaded.scanned().len(), 1);
    assert_eq!(loaded.scanned()[0].path, "/d/a.bin");
}

#[test]
fn store_file_upserts_by_path() {
    let mut cache = Cache::new();
    cache.store_file(&record("/d", "/d/a.bin", "1"));
    cache.store_file(&record("/d", "/d/a.bin", "2"));
    assert_eq!(cache.scanned().len(), 1);
    assert_eq!(cache.scanned()[0].hash, "2");
}

#[test]
fn clear_and_base_path_queries() {
    let mut cache = Cache::new();
    cache.store_file(&record("/d", "/d/a.bin", "1"));
    cache.store_file(&record("/d/sub", "/d/sub/b.bin", "2"));
    cache.store_file(&record("/e", "/e/c.bin", "3"));
    assert_eq!(cache.get_files_by_base_path("/d").len(), 1);
    assert_eq!(cache.get_files_under_base_path("/d").len(), 2);
    cache.clear_files_by_base_path("/d");
    assert_eq!(cache.scanned().len(), 2);
    assert!(cache.get_files_by_base_path("/d").is_empty());
    cache.delete_file("/e/c.bin");
    assert_eq!(cache.scanned().len(), 1);
    assert_eq!(cache.scanned()[0].path, "/d/sub/b.bin");
}

#[test]
fn rescan_is_idempotent() {
    let mut cache = sample_cache();
    cache.store_file(&record("/other", "/other/x.bin", "9"));
    let records = vec![record("/d", "/d/a.bin", "1"), record("/d", "/d/b.bin", "2")];
    for _ in 0..2 {
        cache.clear_files_by_base_path("/d");
        for r in &records {
            cache.store_file(r);
        }
    }
    let mut paths: Vec<String> = cache.scanned().iter().map(|f| format!("{}:{}", f.path, f.hash)).collect();
    paths.sort();
    assert_eq!(paths, vec!["/d/a.bin:1", "/d/b.bin:2", "/other/x.bin:9"]);
}

#[test]
fn update_deletes_uniquely_moved_record() {
    let mut cache = Cache::new();
    cache.store_file(&record("/d", "/d/old.bin", "H"));
    cache.store_file(&record("/d", "/d/new.bin", "H"));
    let stale = vec![record("/d", "/d/old.bin", "H")];
    let fresh = vec![("H".to_string(), "/d/new.bin".to_string())];
    let d = cache.apply_moves(&stale, &fresh);
    assert_eq!(d, vec![Disposition::Moved]);
    assert_eq!(cache.scanned().len(), 1);
    assert_eq!(cache.scanned()[0].path, "/d/new.bin");
}

#[test]
fn update_keeps_ambiguous_record_as_gone() {
    let mut cache = Cache::new();
    cache.store_file(&record("/d", "/d/old.bin", "H"));
    let stale = vec![record("/d", "/d/old.bin", "H")];
    let fresh = vec![("H".to_string(), "/d/new.bin".to_string()), ("H".to_string(), "/d/copy.bin".to_string())];
    let d = cache.apply_moves(&stale, &fresh);
    assert_eq!(d, vec![Disposition::Gone]);
    assert_eq!(cache.scanned().len(), 1);
    assert_eq!(cache.scanned()[0].path, "/d/old.bin");
    let none: Vec<(String, String)> = Vec::new();
    assert_eq!(cache.apply_moves(&stale, &none), vec![Disposition::Gone]);
}

use rcr::models::{HashType, MatchType, Rom, ScannedFile};
use rcr::session::{check_file, duplicate_exact, game_report, resolve_missing, CheckStatus, Disposition, FoundGames, StoredSet};

fn stored(path: &str, hash: &str, m: MatchType) -> ScannedFile {
    let named = m != MatchType::Miss;
    ScannedFile {
        base_path: "/d".to_string(),
        path: path.to_string(),
        hash: hash.to_string(),
        hash_type: HashType::Crc,
        match_type: m,
        game_name: if named { Some("G".to_string()) } else { None },
        rom_name: if named { Some("r1".to_string()) } else { None },
    }
}

#[test]
fn check_compares_hash_then_kind() {
    assert_eq!(check_file("h", &stored("/d/a", "h", MatchType::Exact)), CheckStatus::Exact);
    assert_eq!(check_file("h", &stored("/d/a", "h", MatchType::Partial)), CheckStatus::Partial);
    assert_eq!(check_file("h", &stored("/d/a", "h", MatchType::Miss)), CheckStatus::Miss);
    assert_eq!(check_file("z", &stored("/d/a", "h", MatchType::Exact)), CheckStatus::Changed);
}

#[test]
fn stored_set_takes_met_files() {
    let mut set = StoredSet::new();
    set.add_stored(vec![stored("/d/a", "1", MatchType::Miss), stored("/d/b", "2", MatchType::Miss)]);
    assert_eq!(set.take_stored("/d/a").unwrap().hash, "1");
    assert!(set.take_stored("/d/a").is_none());
    assert_eq!(set.remaining().len(), 1);
    assert_eq!(set.remaining()[0].path, "/d/b");
}

#[test]
fn resolve_missing_per_record() {
    let stale = vec![stored("/d/a", "1", MatchType::Miss), stored("/d/b", "2", MatchType::Miss), stored("/d/c", "3", MatchType::Miss)];
    let fresh = vec![
        ("1".to_string(), "/d/a2".to_string()),
        ("2".to_string(), "/d/b2".to_string()),
        ("2".to_string(), "/d/b3".to_string()),
    ];
    assert_eq!(resolve_missing(&stale, &fresh), vec![Disposition::Moved, Disposition::Gone, Disposition::Gone]);
}

#[test]
fn report_counts_and_missing() {
    let r = |n: &str| Rom { name: n.to_string(), size: 0, crc: None, md5: None, sha1: None };
    let declared = vec![r("r1"), r("r2"), r("r3")];
    let mut found = FoundGames::new();
    found.update_found_file(&"a".to_string(), &stored("/d/a", "1", MatchType::Exact));
    found.update_found_file(&"b".to_string(), &stored("/d/b", "1", MatchType::Miss));
    found.record(&"G".to_string(), &"r2".to_string(), &"c".to_string(), false);
    assert_eq!(found.games.len(), 1);
    let rep = game_report(&found.games[0], &declared).unwrap();
    assert!(!rep.full);
    assert_eq!(rep.exact_count, 1);
    assert_eq!(rep.partial_count, 1);
    assert_eq!(rep.missing, vec!["r3".to_string()]);

    let mut only_partial = FoundGames::new();
    only_partial.record(&"H".to_string(), &"r1".to_string(), &"x".to_string(), false);
    assert!(game_report(&only_partial.games[0], &declared).is_none());
    assert!(game_report(&only_partial.games[0], &vec![r("r1")]).is_some());
}

#[test]
fn duplicates_are_exact_roms_with_several_files() {
    let mut found = FoundGames::new();
    let g = "G".to_string();
    found.record(&g, &"r1".to_string(), &"a".to_string(), true);
    found.record(&g, &"r1".to_string(), &"b".to_string(), true);
    found.record(&g, &"r1".to_string(), &"a".to_string(), true);
    found.record(&g, &"r2".to_string(), &"c".to_string(), true);
    assert_eq!(found.games[0].exact_matches.len(), 3);
    let d = duplicate_exact(&found.games[0]);
    assert_eq!(d, vec![("r1".to_string(), "a".to_string()), ("r1".to_string(), "b".to_string())]);
}

use rcr::cache::CatalogError;
use rcr::models::{Game, Rom};
use rcr::store::{group_rows, search_roms, RomColumn};

#[test]
fn search_without_terms_is_invalid() {
    assert_eq!(search_roms(&None, &None, &None, &None).err(), Some(CatalogError::InvalidQuery));
}

#[test]
fn search_terms_split_into_exact_and_fuzzy() {
    let q = search_roms(&Some("mario".to_string()), &None, &Some("m".to_string()), &Some("s".to_string())).unwrap();
    assert_eq!(q.fuzzy.len(), 1);
    assert_eq!(q.fuzzy[0].0, RomColumn::Name);
    let cols: Vec<RomColumn> = q.exact.iter().map(|c| c.0).collect();
    assert_eq!(cols, vec![RomColumn::Md5, RomColumn::Sha1]);
    let q = search_roms(&Some("mario".to_string()), &None, &None, &None).unwrap();
    assert!(q.exact.is_empty());
}

#[test]
fn rows_are_grouped_per_game() {
    let g = |n: &str| Game { name: n.to_string(), description: String::new(), roms: vec![] };
    let r = |n: &str| Rom { name: n.to_string(), size: 0, crc: None, md5: None, sha1: None };
    let rows = vec![(g("A"), r("1")), (g("B"), r("2")), (g("A"), r("3"))];
    let grouped = group_rows(rows);
    assert_eq!(grouped.len(), 2);
    assert_eq!(grouped[0].0.name, "A");
    assert_eq!(grouped[0].1.iter().map(|x| x.name.as_str()).collect::<Vec<_>>(), vec!["1", "3"]);
    assert_eq!(grouped[1].0.name, "B");
}

use rcr::models::{DataFile, Game, Header, Rom};
use rcr::naming::{entry_kind, EntryKind, extension, is_excluded, is_zip_file, parse_key_val, remap_datafile, should_skip_file, KeyValError};

#[test]
fn extension_follows_last_dot() {
    assert_eq!(extension("a.tar.gz").as_deref(), Some("gz"));
    assert_eq!(extension("foo.").as_deref(), Some(""));
    assert_eq!(extension("noext"), None);
    assert_eq!(extension(".hidden"), None);
    assert_eq!(extension(".."), None);
}

#[test]
fn skip_rules() {
    let exclude = vec!["m3u".to_string(), "dat".to_string()];
    assert!(should_skip_file("list.m3u", &exclude));
    assert!(should_skip_file("README", &exclude));
    assert!(should_skip_file(".secret.bin", &exclude));
    assert!(!should_skip_file("game.bin", &exclude));
    assert!(is_excluded("x.dat", &exclude));
    assert!(!is_excluded("x", &exclude));
}

#[test]
fn zip_detection_ignores_case() {
    assert!(is_zip_file("a.zip"));
    assert!(is_zip_file("a.ZiP"));
    assert!(!is_zip_file("a.zipx"));
    assert!(!is_zip_file("zip"));
}

#[test]
fn remap_replaces_known_extensions() {
    let mk = |n: &str| Rom { name: n.to_string(), size: 1, crc: None, md5: None, sha1: None };
    let mut data = DataFile {
        header: Header { name: "n".to_string(), description: "d".to_string(), version: "v".to_string() },
        games: vec![Game { name: "G".to_string(), description: "".to_string(), roms: vec![mk("a.3ds"), mk("b.bin"), mk(".3ds"), mk("plain"), mk("c.x.3ds")] }],
    };
    let table = vec![("3ds".to_string(), "cci".to_string()), ("bin".to_string(), "nes".to_string()), ("bin".to_string(), "sfc".to_string())];
    remap_datafile(&mut data, &table);
    let names: Vec<&str> = data.games[0].roms.iter().map(|r| r.name.as_str()).collect();
    assert_eq!(names, vec!["a.cci", "b.sfc", ".3ds", "plain", "c.x.cci"]);
}

#[test]
fn key_val_splits_at_first_equals() {
    assert_eq!(parse_key_val("3ds=cci").unwrap(), ("3ds".to_string(), "cci".to_string()));
    assert_eq!(parse_key_val("a=b=c").unwrap(), ("a".to_string(), "b=c".to_string()));
    assert_eq!(parse_key_val("=x").unwrap(), ("".to_string(), "x".to_string()));
    assert_eq!(parse_key_val("nokey").unwrap_err(), KeyValError::MissingSeparator);
}

#[test]
fn entry_kinds() {
    let exclude = vec!["dat".to_string()];
    assert_eq!(entry_kind("sub", true, false, &exclude), EntryKind::Directory);
    assert_eq!(entry_kind("pack.ZIP", false, true, &exclude), EntryKind::Archive);
    assert_eq!(entry_kind("game.bin", false, true, &exclude), EntryKind::File);
    assert_eq!(entry_kind("game.dat", false, true, &exclude), EntryKind::Skipped);
    assert_eq!(entry_kind("pipe.bin", false, false, &exclude), EntryKind::Skipped);
}

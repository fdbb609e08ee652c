use rcr::hashing::calculate_hash;
use rcr::models::HashType;

#[test]
fn crc32_of_check_string() {
    assert_eq!(calculate_hash(b"123456789", HashType::Crc), "cbf43926");
    assert_eq!(calculate_hash(b"", HashType::Crc), "00000000");
}

#[test]
fn md5_of_empty_and_abc() {
    assert_eq!(calculate_hash(b"", HashType::Md5), "d41d8cd98f00b204e9800998ecf8427e");
    assert_eq!(calculate_hash(b"abc", HashType::Md5), "900150983cd24fb0d6963f7d28e17f72");
}

#[test]
fn sha1_of_abc() {
    assert_eq!(calculate_hash(b"abc", HashType::Sha1), "a9993e364706816aba3e25717850c26c9cd0d89d");
}

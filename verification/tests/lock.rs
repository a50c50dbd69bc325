use arielosbom::lock::{ChecksumTable, LockPackage};
use cargo_lock::Checksum;
use semver::Version;

fn sum(byte: u8) -> Checksum {
    Checksum::from([byte; 32])
}

#[test]
fn empty_table_finds_nothing() {
    let table = ChecksumTable::new();
    assert_eq!(table.get(&"libfoo".to_string(), &Version::new(1, 2, 0)), None);
}

#[test]
fn checksum_is_found_by_name_and_version() {
    let mut table = ChecksumTable::new();
    table.insert("libfoo".to_string(), &Version::new(1, 2, 0), sum(7));
    assert_eq!(table.get(&"libfoo".to_string(), &Version::new(1, 2, 0)), Some(&sum(7)));
    assert_eq!(table.get(&"libfoo".to_string(), &Version::new(1, 2, 1)), None);
    assert_eq!(table.get(&"libbar".to_string(), &Version::new(1, 2, 0)), None);
}

#[test]
fn later_checksum_replaces_earlier_one() {
    let mut table = ChecksumTable::new();
    table.insert("libfoo".to_string(), &Version::new(1, 2, 0), sum(1));
    table.insert("other".to_string(), &Version::new(1, 2, 0), sum(2));
    table.insert("libfoo".to_string(), &Version::new(1, 2, 0), sum(3));
    assert_eq!(table.get(&"libfoo".to_string(), &Version::new(1, 2, 0)), Some(&sum(3)));
    assert_eq!(table.get(&"other".to_string(), &Version::new(1, 2, 0)), Some(&sum(2)));
}

#[test]
fn versions_are_told_apart_by_their_text() {
    let plain = Version::parse("1.0.0").unwrap();
    let pre = Version::parse("1.0.0-rc.1").unwrap();
    let built = Version::parse("1.0.0+build.5").unwrap();
    let mut table = ChecksumTable::new();
    table.insert("x".to_string(), &pre, sum(1));
    table.insert("x".to_string(), &built, sum(2));
    assert_eq!(table.get(&"x".to_string(), &plain), None);
    assert_eq!(table.get(&"x".to_string(), &pre), Some(&sum(1)));
    assert_eq!(table.get(&"x".to_string(), &built), Some(&sum(2)));
}

#[test]
fn lockfile_packages_without_checksum_add_nothing() {
    let packages = vec![
        LockPackage { name: "a".to_string(), version: Version::new(0, 1, 0), checksum: None },
        LockPackage {
            name: "b".to_string(),
            version: Version::new(0, 2, 0),
            checksum: Some(sum(9)),
        },
        LockPackage {
            name: "b".to_string(),
            version: Version::new(0, 3, 0),
            checksum: Some(sum(10)),
        },
    ];
    let table = ChecksumTable::from_lock(&packages);
    assert_eq!(table.get(&"a".to_string(), &Version::new(0, 1, 0)), None);
    assert_eq!(table.get(&"b".to_string(), &Version::new(0, 2, 0)), Some(&sum(9)));
    assert_eq!(table.get(&"b".to_string(), &Version::new(0, 3, 0)), Some(&sum(10)));
}

#[test]
fn lockfile_later_package_counts() {
    let packages = vec![
        LockPackage {
            name: "b".to_string(),
            version: Version::new(0, 2, 0),
            checksum: Some(sum(1)),
        },
        LockPackage {
            name: "b".to_string(),
            version: Version::new(0, 2, 0),
            checksum: Some(sum(2)),
        },
        LockPackage { name: "b".to_string(), version: Version::new(0, 2, 0), checksum: None },
    ];
    let table = ChecksumTable::from_lock(&packages);
    assert_eq!(table.get(&"b".to_string(), &Version::new(0, 2, 0)), Some(&sum(2)));
}

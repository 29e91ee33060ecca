use velvet::checksum::{check_save, checksum_hex, hex_string, migrated_version, SaveIssue};

#[test]
fn checksum_is_sha256_hex() {
    assert_eq!(
        checksum_hex(b"abc"),
        "ba7816bf8f01cfea414140de5dae2223b00361a396177a9cb410ff61f20015ad"
    );
    assert_eq!(
        checksum_hex(b""),
        "e3b0c44298fc1c149afbf4c8996fb92427ae41e4649b934ca495991b7852b855"
    );
    assert_eq!(hex_string(&[0x00, 0xff, 0x1a]), "00ff1a");
}

#[test]
fn save_checks() {
    assert_eq!(check_save(2, "", b"x"), Err(SaveIssue::Version { found: 2, max: 1 }));
    assert_eq!(check_save(1, "", b"x"), Ok(()));
    assert_eq!(check_save(1, "bad", b"abc"), Err(SaveIssue::Checksum));
    let good = checksum_hex(b"abc");
    assert_eq!(check_save(1, &good, b"abc"), Ok(()));
    assert_eq!(check_save(0, &good, b"abd"), Err(SaveIssue::Checksum));
}

#[test]
fn migration_versions() {
    assert_eq!(migrated_version(0), Ok(1));
    assert_eq!(migrated_version(1), Ok(1));
    assert_eq!(migrated_version(5), Err(SaveIssue::Version { found: 5, max: 1 }));
}

//! Path layout: sharding, reverse mapping and identifier round trips.

use hagrid_fs::fs::Filesystem;
use hagrid_fs::fspath::{path_merge, path_split, FsPath};
use hagrid_fs::ident::{Email, Fingerprint, KeyID};

fn base() -> FsPath {
    FsPath::from_parts(vec![String::from("base")])
}

fn store() -> Filesystem {
    Filesystem::new_from_base(&base()).unwrap()
}

#[test]
fn init() {
    let _ = Filesystem::new_from_base(&base()).unwrap();
}

#[test]
fn reverse_fingerprint_to_path() {
    let db = store();

    let fp: Fingerprint =
        Fingerprint::from_str("CBCD8F030588653EEDD7E2659B7DD433F254904A").unwrap();

    assert_eq!(
        Filesystem::path_to_fingerprint(&db.link_by_fingerprint(&fp)),
        Some(fp.clone())
    );
    db.check_consistency(&vec![]).expect("inconsistent database");
}

#[test]
fn split_long_string_into_three_shards() {
    let p = path_split("ABCDEF0123");
    assert_eq!(p.depth(), 3);
    assert_eq!(p.comp_at(0), "AB");
    assert_eq!(p.comp_at(1), "CD");
    assert_eq!(p.comp_at(2), "EF0123");
}

#[test]
fn split_short_string_stays_whole() {
    let p = path_split("ABCD");
    assert_eq!(p.depth(), 1);
    assert_eq!(p.comp_at(0), "ABCD");
}

#[test]
fn merge_concatenates_last_three_components() {
    let prefix = FsPath::from_parts(vec![String::from("x"), String::from("y")]);
    let p = prefix.join(&path_split("ABCDEF0123"));
    assert_eq!(path_merge(&p), "ABCDEF0123");
    assert_eq!(path_merge(&path_split("ABCD")), "ABCD");
}

#[test]
fn reverse_keyid_to_path() {
    let db = store();
    let kid = KeyID::from_str("9B7DD433F254904A").unwrap();
    assert_eq!(
        Filesystem::path_to_keyid(&db.link_by_keyid(&kid)),
        Some(kid.clone())
    );
}

#[test]
fn reverse_email_to_path() {
    let db = store();
    let email = Email::from_str("test.address+tag@invalid.example.org").unwrap();
    assert_eq!(
        Filesystem::path_to_email(&db.link_by_email(&email)),
        Some(email.clone())
    );
}

#[test]
fn email_link_is_percent_encoded() {
    let db = store();
    let email = Email::from_str("a b@example.org");
    // A space is not a canonical email character.
    assert!(email.is_none());

    let email = Email::from_str("a+b@example.org").unwrap();
    let link = db.link_by_email(&email);
    // base / keys / links / by-email / shard(encoded)
    assert_eq!(link.comp_at(0), "base");
    assert_eq!(link.comp_at(1), "keys");
    assert_eq!(link.comp_at(2), "links");
    assert_eq!(link.comp_at(3), "by-email");
    assert_eq!(link.comp_at(4), "a%");
    assert_eq!(link.comp_at(5), "2B");
    assert_eq!(link.comp_at(6), "b%40example.org");
}

#[test]
fn fingerprint_rejects_malformed_input() {
    assert!(Fingerprint::from_str("CBCD8F030588653EEDD7E2659B7DD433F254904A").is_some());
    // Too short.
    assert!(Fingerprint::from_str("CBCD8F03").is_none());
    // Lower-case is not canonical.
    assert!(Fingerprint::from_str("cbcd8f030588653eedd7e2659b7dd433f254904a").is_none());
    // Not hex.
    assert!(Fingerprint::from_str("GBCD8F030588653EEDD7E2659B7DD433F254904X").is_none());
    assert!(Fingerprint::from_str("").is_none());
}

#[test]
fn keyid_rejects_malformed_input() {
    assert!(KeyID::from_str("9B7DD433F254904A").is_some());
    assert!(KeyID::from_str("9B7DD433").is_none());
    assert!(KeyID::from_str("9b7dd433f254904a").is_none());
}

#[test]
fn email_rejects_malformed_input() {
    assert!(Email::from_str("a@b").is_some());
    // No interior at sign.
    assert!(Email::from_str("ab.example.org").is_none());
    assert!(Email::from_str("@example.org").is_none());
    assert!(Email::from_str("user@").is_none());
    // Dots at the ends or doubled.
    assert!(Email::from_str(".user@example.org").is_none());
    assert!(Email::from_str("user@example.org.").is_none());
    assert!(Email::from_str("us..er@example.org").is_none());
    // Not printable ASCII.
    assert!(Email::from_str("usér@example.org").is_none());
    assert!(Email::from_str("").is_none());
}

#[test]
fn keyid_is_fingerprint_tail() {
    let fp = Fingerprint::from_str("CBCD8F030588653EEDD7E2659B7DD433F254904A").unwrap();
    assert_eq!(fp.keyid().as_str(), "9B7DD433F254904A");
}

#[test]
fn identifier_accessors_agree() {
    let fp = Fingerprint::from_str("CBCD8F030588653EEDD7E2659B7DD433F254904A").unwrap();
    assert_eq!(fp.to_string(), "CBCD8F030588653EEDD7E2659B7DD433F254904A");
    assert_eq!(fp.duplicate(), fp);
    assert!(fp.equals(&fp.duplicate()));
    assert!(!fp.equals(&Fingerprint::from_str("7A329471CF7D7A0CDD0E3B5CBCFD2BA1C9EB20D5").unwrap()));

    let email = Email::from_str("a@invalid.example.org").unwrap();
    assert_eq!(email.to_string(), "a@invalid.example.org");
    assert!(email.equals(&email.duplicate()));

    let kid = KeyID::from_str("9B7DD433F254904A").unwrap();
    assert_eq!(kid.to_string(), "9B7DD433F254904A");
    assert!(kid.equals(&kid.duplicate()));
}

#[test]
fn path_to_primary_follows_one_symlink() {
    let mut db = store();
    let fp = Fingerprint::from_str("CBCD8F030588653EEDD7E2659B7DD433F254904A").unwrap();
    let staged = db.write_to_temp("record").unwrap();
    db.move_tmp_to_published(staged, &fp).unwrap();
    db.link_fpr(&fp, &fp).unwrap();

    // A plain record resolves to its own path's fingerprint.
    let published = db.fingerprint_to_path_published(&fp);
    assert_eq!(db.path_to_primary(&published), Some(fp.clone()));
    // An index entry resolves through its target.
    let link = db.link_by_fingerprint(&fp);
    assert_eq!(db.path_to_primary(&link), Some(fp.clone()));
    // A path with no entry resolves to nothing.
    let other = Fingerprint::from_str("7A329471CF7D7A0CDD0E3B5CBCFD2BA1C9EB20D5").unwrap();
    assert_eq!(db.path_to_primary(&db.link_by_fingerprint(&other)), None);
}

//! The consistency checker on intact and damaged stores.

use hagrid_fs::fs::{Cert, Filesystem, Node};
use hagrid_fs::fspath::FsPath;
use hagrid_fs::ident::{Email, Fingerprint};
use hagrid_fs::Error;

const PRIMARY: &str = "CBCD8F030588653EEDD7E2659B7DD433F254904A";
const SUBKEY: &str = "19B10B43B9F5D2C1B3A09C0A0B6DA8F3B1C2D3E4";
const OTHER: &str = "7A329471CF7D7A0CDD0E3B5CBCFD2BA1C9EB20D5";

fn base() -> FsPath {
    FsPath::from_parts(vec![String::from("base")])
}

fn fpr(s: &str) -> Fingerprint {
    Fingerprint::from_str(s).unwrap()
}

fn email(s: &str) -> Email {
    Email::from_str(s).unwrap()
}

/// A store holding one published certificate with one capable subkey and
/// one user-id email, fully indexed, and its capability list.
fn consistent_store() -> (Filesystem, Vec<Cert>) {
    let mut db = Filesystem::new_from_base(&base()).unwrap();
    let primary = fpr(PRIMARY);
    let subkey = fpr(SUBKEY);
    let addr = email("a@invalid.example.org");

    let staged = db.write_to_temp("certificate record").unwrap();
    db.move_tmp_to_published(staged, &primary).unwrap();
    db.link_fpr(&primary, &primary).unwrap();
    db.link_fpr(&subkey, &primary).unwrap();
    db.link_email(&addr, &primary).unwrap();

    let cert = Cert {
        primary: primary.clone(),
        keys: vec![primary.clone(), subkey.clone()],
        capable_keys: vec![primary, subkey],
        emails: vec![addr],
    };
    (db, vec![cert])
}

#[test]
fn consistent_store_passes() {
    let (db, certs) = consistent_store();
    assert_eq!(db.check_consistency(&certs), Ok(()));
}

#[test]
fn empty_store_passes() {
    let db = Filesystem::new_from_base(&base()).unwrap();
    assert_eq!(db.check_consistency(&vec![]), Ok(()));
}

#[test]
fn missing_email_link_is_reported() {
    let (mut db, certs) = consistent_store();
    let link = db.link_by_email(&email("a@invalid.example.org"));
    db.remove_entry(&link);
    let err = db.check_consistency(&certs).unwrap_err();
    // Exactly the missing email link is reported: the record it belongs
    // to, its owner, and the address whose entry is absent.
    assert_eq!(err.kind, Error::MissingLink);
    assert_eq!(err.path, db.fingerprint_to_path_published(&fpr(PRIMARY)));
    assert_eq!(err.expected, PRIMARY);
    assert_eq!(err.found, "a@invalid.example.org");
}

#[test]
fn missing_subkey_link_is_reported() {
    let (mut db, certs) = consistent_store();
    let link = db.link_by_fingerprint(&fpr(SUBKEY));
    db.remove_entry(&link);
    let err = db.check_consistency(&certs).unwrap_err();
    assert_eq!(err.kind, Error::MissingLink);
    assert_eq!(err.path, db.fingerprint_to_path_published(&fpr(PRIMARY)));
    assert_eq!(err.expected, PRIMARY);
    assert_eq!(err.found, SUBKEY);
}

#[test]
fn record_under_foreign_path_is_reported() {
    let (mut db, certs) = consistent_store();
    // Move the published record under the path of a fingerprint no
    // certificate has: its decoded owner is unknown.
    let right = db.fingerprint_to_path_published(&fpr(PRIMARY));
    let wrong = db.fingerprint_to_path_published(&fpr(OTHER));
    db.set_entry(
        &wrong,
        Node::File { content: String::from("certificate record"), world_readable: true },
    );
    db.remove_entry(&right);
    let err = db.check_consistency(&certs).unwrap_err();
    assert_eq!(err.kind, Error::UnknownCert);
    assert_eq!(err.path, wrong);
    assert_eq!(err.expected, OTHER);
    assert_eq!(err.found, "");
}

#[test]
fn record_resolving_to_wrong_owner_is_reported() {
    let (mut db, mut certs) = consistent_store();
    certs.push(Cert {
        primary: fpr(OTHER),
        keys: vec![fpr(OTHER)],
        capable_keys: vec![],
        emails: vec![],
    });
    // A symlink under the published path of OTHER that resolves to the
    // record of PRIMARY: the path's own fingerprint and the resolved
    // owner disagree.
    let wrong = db.fingerprint_to_path_published(&fpr(OTHER));
    let target = db.fingerprint_to_path_published(&fpr(PRIMARY));
    db.set_entry(&wrong, Node::Symlink(target));
    let err = db.check_consistency(&certs).unwrap_err();
    // The offending path and the expected and found fingerprints.
    assert_eq!(err.kind, Error::WrongOwner);
    assert_eq!(err.path, wrong);
    assert_eq!(err.expected, PRIMARY);
    assert_eq!(err.found, OTHER);
}

#[test]
fn malformed_published_path_is_reported() {
    let (mut db, certs) = consistent_store();
    let keys = base().child("keys");
    let stray = keys.child("pub").child("stray");
    db.set_entry(&stray, Node::File { content: String::from("junk"), world_readable: true });
    let err = db.check_consistency(&certs).unwrap_err();
    assert_eq!(err.kind, Error::MalformedPath);
    assert_eq!(err.path, stray);
    // The undecodable merged tail of the path.
    assert_eq!(err.found, "keyspubstray");
}

#[test]
fn foreign_email_link_is_reported() {
    let (mut db, certs) = consistent_store();
    // An extra by-email entry whose address the certificate does not
    // carry.
    db.link_email(&email("b@invalid.example.org"), &fpr(PRIMARY)).unwrap();
    let err = db.check_consistency(&certs).unwrap_err();
    // The offending entry and the foreign identifier it encodes.
    assert_eq!(err.kind, Error::WrongOwner);
    assert_eq!(err.path, db.link_by_email(&email("b@invalid.example.org")));
    assert_eq!(err.expected, PRIMARY);
    assert_eq!(err.found, "b@invalid.example.org");
}

#[test]
fn foreign_subkey_link_is_reported() {
    let (mut db, certs) = consistent_store();
    // An extra by-fingerprint entry for a key the certificate does not
    // contain.
    db.link_fpr(&fpr(OTHER), &fpr(PRIMARY)).unwrap();
    let err = db.check_consistency(&certs).unwrap_err();
    assert_eq!(err.kind, Error::WrongOwner);
    assert_eq!(err.expected, PRIMARY);
    // Both new entries are foreign; whichever is met first is reported
    // with its own encoded identifier.
    assert!(err.found == OTHER || err.found == &OTHER[24..]);
}

#[test]
fn dangling_subkey_link_is_collision_free_but_incomplete() {
    // A store with links but no published record: resolving the links
    // finds nothing, which is not a collision; the subkey check still
    // reports the pair as missing.
    let mut db = Filesystem::new_from_base(&base()).unwrap();
    let primary = fpr(PRIMARY);
    db.link_fpr(&primary, &primary).unwrap();
    assert_eq!(db.check_link_fpr(&primary, &primary), Ok(None));
}

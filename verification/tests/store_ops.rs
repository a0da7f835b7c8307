//! Store operations: tier writes, reads, index links and unlinks.

use hagrid_fs::fs::Filesystem;
use hagrid_fs::fspath::FsPath;
use hagrid_fs::ident::{Email, Fingerprint, Query};
use hagrid_fs::Error;

const FPR1: &str = "CBCD8F030588653EEDD7E2659B7DD433F254904A";
const FPR2: &str = "7A329471CF7D7A0CDD0E3B5CBCFD2BA1C9EB20D5";
const SUB1: &str = "19B10B43B9F5D2C1B3A09C0A0B6DA8F3B1C2D3E4";

fn base() -> FsPath {
    FsPath::from_parts(vec![String::from("base")])
}

fn store() -> Filesystem {
    Filesystem::new_from_base(&base()).unwrap()
}

fn fpr(s: &str) -> Fingerprint {
    Fingerprint::from_str(s).unwrap()
}

#[test]
fn write_then_read_full() {
    let mut db = store();
    let f = fpr(FPR1);

    assert_eq!(db.by_fpr_full(&f), None);
    let staged = db.write_to_temp("record one").unwrap();
    db.move_tmp_to_full(staged, &f).unwrap();
    assert_eq!(db.by_fpr_full(&f), Some(String::from("record one")));

    // Replacing leaves no residue of the first write.
    let staged = db.write_to_temp("record two").unwrap();
    db.move_tmp_to_full(staged, &f).unwrap();
    assert_eq!(db.by_fpr_full(&f), Some(String::from("record two")));
}

#[test]
fn write_then_read_published() {
    let mut db = store();
    let f = fpr(FPR1);
    let staged = db.write_to_temp("published record").unwrap();
    db.move_tmp_to_published(staged, &f).unwrap();
    assert_eq!(db.by_primary_fpr(&f), Some(String::from("published record")));
    // The full tier is untouched.
    assert_eq!(db.by_fpr_full(&f), None);
}

#[test]
fn quarantine_write_is_stored() {
    let mut db = store();
    let f = fpr(FPR1);
    db.write_to_quarantine(&f, "suspicious").unwrap();
    let path = db.fingerprint_to_path_quarantined(&f);
    assert!(db.get_node(&path).is_some());
    // Quarantine is never indexed or published.
    assert_eq!(db.by_primary_fpr(&f), None);
}

#[test]
fn dry_run_elides_full_and_published_but_not_quarantine() {
    let keys = base().child("keys");
    let tmp = base().child("tmp");
    let mut db = Filesystem::new_internal(&keys, &keys, &tmp, true).unwrap();
    let f = fpr(FPR1);

    let staged = db.write_to_temp("full record").unwrap();
    db.move_tmp_to_full(staged, &f).unwrap();
    assert_eq!(db.by_fpr_full(&f), None);

    let staged = db.write_to_temp("published record").unwrap();
    db.move_tmp_to_published(staged, &f).unwrap();
    assert_eq!(db.by_primary_fpr(&f), None);

    db.write_to_quarantine(&f, "suspicious").unwrap();
    let path = db.fingerprint_to_path_quarantined(&f);
    assert!(db.get_node(&path).is_some());

    // Links are elided too.
    let email = Email::from_str("a@invalid.example.org").unwrap();
    db.link_email(&email, &f).unwrap();
    assert_eq!(db.by_email(&email), None);
}

#[test]
fn read_through_fingerprint_link() {
    let mut db = store();
    let f = fpr(FPR1);
    let staged = db.write_to_temp("published record").unwrap();
    db.move_tmp_to_published(staged, &f).unwrap();
    db.link_fpr(&f, &f).unwrap();

    assert_eq!(db.by_fpr(&f), Some(String::from("published record")));
    assert_eq!(db.by_kid(&f.keyid()), Some(String::from("published record")));
    assert_eq!(
        db.lookup_primary_fingerprint(&Query::ByFingerprint(f.clone())),
        Some(f.clone())
    );
    assert_eq!(
        db.lookup_primary_fingerprint(&Query::ByKeyID(f.keyid())),
        Some(f.clone())
    );
}

#[test]
fn read_through_email_link() {
    let mut db = store();
    let f = fpr(FPR1);
    let email = Email::from_str("a@invalid.example.org").unwrap();
    let staged = db.write_to_temp("published record").unwrap();
    db.move_tmp_to_published(staged, &f).unwrap();
    db.link_email(&email, &f).unwrap();

    assert_eq!(db.by_email(&email), Some(String::from("published record")));
    assert_eq!(
        db.lookup_primary_fingerprint(&Query::ByEmail(email.clone())),
        Some(f.clone())
    );
}

#[test]
fn link_email_twice_is_idempotent() {
    let mut db = store();
    let f = fpr(FPR1);
    let email = Email::from_str("a@invalid.example.org").unwrap();
    let staged = db.write_to_temp("record").unwrap();
    db.move_tmp_to_published(staged, &f).unwrap();

    db.link_email(&email, &f).unwrap();
    // The second call never errors and leaves exactly the same entry.
    db.link_email(&email, &f).unwrap();
    assert_eq!(db.by_email(&email), Some(String::from("record")));
    assert_eq!(
        db.lookup_primary_fingerprint(&Query::ByEmail(email.clone())),
        Some(f.clone())
    );
}

#[test]
fn unlink_email_removes_only_matching_link() {
    let mut db = store();
    let f1 = fpr(FPR1);
    let f2 = fpr(FPR2);
    let email = Email::from_str("a@invalid.example.org").unwrap();
    let staged = db.write_to_temp("record").unwrap();
    db.move_tmp_to_published(staged, &f1).unwrap();
    db.link_email(&email, &f1).unwrap();

    // Unlinking under the wrong primary fingerprint leaves the link.
    db.unlink_email(&email, &f2).unwrap();
    assert_eq!(
        db.lookup_primary_fingerprint(&Query::ByEmail(email.clone())),
        Some(f1.clone())
    );

    // Unlinking under the right one removes it.
    db.unlink_email(&email, &f1).unwrap();
    assert_eq!(db.lookup_primary_fingerprint(&Query::ByEmail(email.clone())), None);
    // A second unlink of a missing link is a quiet no-op.
    db.unlink_email(&email, &f1).unwrap();
}

#[test]
fn unlink_fpr_removes_only_matching_links() {
    let mut db = store();
    let f1 = fpr(FPR1);
    let f2 = fpr(FPR2);
    let staged = db.write_to_temp("record").unwrap();
    db.move_tmp_to_published(staged, &f1).unwrap();
    db.link_fpr(&f1, &f1).unwrap();

    db.unlink_fpr(&f1, &f2).unwrap();
    assert_eq!(db.by_fpr(&f1), Some(String::from("record")));

    db.unlink_fpr(&f1, &f1).unwrap();
    assert_eq!(db.by_fpr(&f1), None);
    assert_eq!(db.by_kid(&f1.keyid()), None);
}

#[test]
fn check_link_fpr_reports_missing_and_present_links() {
    let mut db = store();
    let f = fpr(FPR1);
    let sub = fpr(SUB1);
    let staged = db.write_to_temp("record").unwrap();
    db.move_tmp_to_published(staged, &f).unwrap();

    // Nothing linked yet: the caller should link this fingerprint.
    assert_eq!(db.check_link_fpr(&sub, &f), Ok(Some(sub.clone())));

    db.link_fpr(&sub, &f).unwrap();
    assert_eq!(db.check_link_fpr(&sub, &f), Ok(None));
}

#[test]
fn check_link_fpr_detects_collision() {
    let mut db = store();
    let f1 = fpr(FPR1);
    let f2 = fpr(FPR2);
    let sub = fpr(SUB1);
    let staged = db.write_to_temp("record one").unwrap();
    db.move_tmp_to_published(staged, &f1).unwrap();
    db.link_fpr(&sub, &f1).unwrap();

    // A second certificate claiming the same subkey must not relink it.
    assert_eq!(db.check_link_fpr(&sub, &f2), Err(Error::Collision));
    // The original link is untouched.
    assert_eq!(db.by_fpr(&sub), Some(String::from("record one")));
}

#[test]
fn lookup_path_is_relative_to_external_root() {
    let mut db = store();
    let f = fpr(FPR1);
    let staged = db.write_to_temp("record").unwrap();
    db.move_tmp_to_published(staged, &f).unwrap();
    db.link_fpr(&f, &f).unwrap();

    let p = db.lookup_path(&Query::ByFingerprint(f.clone())).unwrap();
    // base/keys is the external root: the result starts below it.
    assert_eq!(p.comp_at(0), "links");
    assert_eq!(p.comp_at(1), "by-fpr");
    assert_eq!(p.comp_at(2), "CB");
    assert_eq!(p.comp_at(3), "CD");
    assert_eq!(p.comp_at(4), "8F030588653EEDD7E2659B7DD433F254904A");

    assert!(db.lookup_path(&Query::ByFingerprint(fpr(FPR2))).is_none());
}

#[test]
fn bad_configuration_is_rejected() {
    // One root nested inside the other.
    let outer = FsPath::from_parts(vec![String::from("base")]);
    let inner = outer.child("keys").child("full");
    let tmp = outer.child("tmp");
    assert_eq!(
        Filesystem::new_internal(&outer, &inner, &tmp, false).err(),
        Some(Error::BadConfiguration)
    );

    // A component that is not a plain directory name.
    let bad = FsPath::from_parts(vec![String::from("..")]);
    assert_eq!(
        Filesystem::new_internal(&bad, &bad, &tmp, false).err(),
        Some(Error::BadConfiguration)
    );
}

#[test]
fn tier_permission_classes() {
    let mut db = store();
    let f = fpr(FPR1);

    let staged = db.write_to_temp("full record").unwrap();
    db.move_tmp_to_full(staged, &f).unwrap();
    let full = db.fingerprint_to_path_full(&f);
    assert!(matches!(
        db.get_node(&full),
        Some(hagrid_fs::fs::Node::File { world_readable: false, .. })
    ));

    db.write_to_quarantine(&f, "quarantined record").unwrap();
    let quarantined = db.fingerprint_to_path_quarantined(&f);
    assert!(matches!(
        db.get_node(&quarantined),
        Some(hagrid_fs::fs::Node::File { world_readable: false, .. })
    ));

    let staged = db.write_to_temp("published record").unwrap();
    db.move_tmp_to_published(staged, &f).unwrap();
    let published = db.fingerprint_to_path_published(&f);
    assert!(matches!(
        db.get_node(&published),
        Some(hagrid_fs::fs::Node::File { world_readable: true, .. })
    ));
}

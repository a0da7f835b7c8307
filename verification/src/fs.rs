//! The certificate store: three record tiers and three symlink indices.
//!
//! The store's visible state is a tree of filesystem objects — plain files
//! holding record text and symlinks holding relative targets — addressed by
//! [`FsPath`] keys.  Every operation is specified against the [`Map`] view
//! of that tree, so that replacing a record, publishing a link, or refusing
//! to delete a link that points elsewhere is an exact statement about the
//! whole state.  The shell that mirrors this state onto a real disk with
//! atomic renames performs no decision of its own.

use vstd::prelude::*;
use vstd::utf8::is_ascii_chars;
use crate::Error;
use crate::encode::{decode_input_ok, form_decode, form_encode, form_urldecode, form_urlencode};
use crate::encode::{decode_safe, no_form_separators};
use crate::fspath::{
    diff_paths, diff_spec, is_path_prefix, is_path_suffix, normalize_spec, path_merge, path_normal,
    path_split, roots_disjoint, split_spec, FsPath,
};
use crate::fspath::{lemma_extend_disjoint, lemma_split_normal_encoded, lemma_split_normal_hex, merge_spec};
use crate::ident::{
    email_valid, fingerprint_valid, keyid_valid, lemma_email_is_ascii, lemma_hex_is_ascii, Email,
    Fingerprint, KeyID, Query,
};

verus! {

/// One object in the store tree: a record file or an index symlink.
///
/// A record file carries its permission class: internal-tier records are
/// not world-readable, published records are.
pub enum Node {
    File { content: String, world_readable: bool },
    Symlink(FsPath),
}

/// The mathematical value of a node.
pub enum NodeV {
    File { content: Seq<char>, world_readable: bool },
    Link { target: Seq<Seq<char>> },
}

impl View for Node {
    type V = NodeV;

    open spec fn view(&self) -> NodeV {
        match self {
            Node::File { content, world_readable } => NodeV::File {
                content: content@,
                world_readable: *world_readable,
            },
            Node::Symlink(p) => NodeV::Link { target: p@ },
        }
    }
}

/// A record staged in scratch space, not yet published under a final name.
pub struct TmpFile {
    content: String,
}

impl View for TmpFile {
    type V = Seq<char>;

    closed spec fn view(&self) -> Seq<char> {
        self.content@
    }
}

/// The read-only capability over one parsed certificate that the
/// consistency checker needs: its primary fingerprint, all of its key
/// fingerprints, the certification- or signing-capable ones among them,
/// and its user-id email addresses.
pub struct Cert {
    pub primary: Fingerprint,
    pub keys: Vec<Fingerprint>,
    pub capable_keys: Vec<Fingerprint>,
    pub emails: Vec<Email>,
}

impl Cert {
    /// Validity of all identifiers inside.
    pub open spec fn wf(&self) -> bool {
        &&& self.primary.wf()
        &&& forall|i: int| 0 <= i < self.keys@.len() ==> (#[trigger] self.keys@[i]).wf()
        &&& forall|i: int|
            0 <= i < self.capable_keys@.len() ==> (#[trigger] self.capable_keys@[i]).wf()
        &&& forall|i: int| 0 <= i < self.emails@.len() ==> (#[trigger] self.emails@[i]).wf()
    }
}

/// One violation found by the consistency checker.
///
/// `kind` names the taxonomy entry, `path` the offending store object.
/// `expected` holds the primary fingerprint the object resolves to (empty
/// when none could be resolved); `found` holds the identifier at issue:
/// the undecodable merged tail for a malformed path, the path's own
/// fingerprint for a path-identity mismatch, the foreign identifier of an
/// index entry, or the identifier whose link is missing or colliding.
#[derive(Debug, Clone, PartialEq, Eq)]
pub struct Violation {
    pub kind: Error,
    pub path: FsPath,
    pub expected: String,
    pub found: String,
}

/// The map view of an entry list: later entries shadow earlier ones, but
/// well-formed stores keep their paths unique.
pub open spec fn entries_tree(s: Seq<(FsPath, Node)>) -> Map<Seq<Seq<char>>, NodeV>
    decreases s.len(),
{
    if s.len() == 0 {
        Map::empty()
    } else {
        entries_tree(s.drop_last()).insert(s.last().0@, s.last().1@)
    }
}

/// No two entries share a path.
pub open spec fn entries_unique(s: Seq<(FsPath, Node)>) -> bool {
    forall|i: int, j: int| 0 <= i < j < s.len() ==> (#[trigger] s[i]).0@ != (#[trigger] s[j]).0@
}

/// The tree holds exactly the entries' paths, each with its node.
proof fn lemma_tree_props(s: Seq<(FsPath, Node)>)
    requires
        entries_unique(s),
    ensures
        forall|i: int|
            0 <= i < s.len() ==> entries_tree(s).contains_key((#[trigger] s[i]).0@)
                && entries_tree(s)[s[i].0@] == s[i].1@,
        forall|p: Seq<Seq<char>>|
            entries_tree(s).contains_key(p) ==> exists|i: int|
                0 <= i < s.len() && (#[trigger] s[i]).0@ == p,
    decreases s.len(),
{
    if s.len() > 0 {
        let d = s.drop_last();
        assert(entries_unique(d)) by {
            assert forall|i: int, j: int| 0 <= i < j < d.len() implies (#[trigger] d[i]).0@ != (
            #[trigger] d[j]).0@ by {
                assert(d[i] == s[i] && d[j] == s[j]);
            }
        }
        lemma_tree_props(d);
        assert forall|i: int|
            0 <= i < s.len() implies entries_tree(s).contains_key((#[trigger] s[i]).0@)
            && entries_tree(s)[s[i].0@] == s[i].1@ by {
            if i < s.len() - 1 {
                assert(d[i] == s[i]);
                assert(s[i].0@ != s.last().0@);
            }
        }
        assert forall|p: Seq<Seq<char>>| entries_tree(s).contains_key(p) implies exists|i: int|
            0 <= i < s.len() && (#[trigger] s[i]).0@ == p by {
            if p != s.last().0@ {
                assert(entries_tree(d).contains_key(p));
                let i = choose|i: int| 0 <= i < d.len() && (#[trigger] d[i]).0@ == p;
                assert(s[i].0@ == p);
            } else {
                assert(s[s.len() - 1].0@ == p);
            }
        }
    }
}

/// Appending an entry inserts its pair into the tree.
proof fn lemma_tree_push(s: Seq<(FsPath, Node)>, e: (FsPath, Node))
    ensures
        entries_tree(s.push(e)) == entries_tree(s).insert(e.0@, e.1@),
{
    assert(s.push(e).drop_last() =~= s);
    assert(s.push(e).last() == e);
}

/// Removing the entry at `i` removes its path from the tree.
proof fn lemma_tree_remove(s: Seq<(FsPath, Node)>, i: int)
    requires
        entries_unique(s),
        0 <= i < s.len(),
    ensures
        entries_tree(s.remove(i)) == entries_tree(s).remove(s[i].0@),
        entries_unique(s.remove(i)),
    decreases s.len(),
{
    lemma_tree_props(s);
    let r = s.remove(i);
    assert(entries_unique(r)) by {
        assert forall|a: int, b: int| 0 <= a < b < r.len() implies (#[trigger] r[a]).0@ != (
        #[trigger] r[b]).0@ by {
            let sa = if a < i {
                a
            } else {
                a + 1
            };
            let sb = if b < i {
                b
            } else {
                b + 1
            };
            assert(r[a] == s[sa] && r[b] == s[sb]);
        }
    }
    if i == s.len() - 1 {
        assert(r =~= s.drop_last());
        let d = s.drop_last();
        assert(entries_unique(d)) by {
            assert forall|a: int, b: int| 0 <= a < b < d.len() implies (#[trigger] d[a]).0@ != (
            #[trigger] d[b]).0@ by {
                assert(d[a] == s[a] && d[b] == s[b]);
            }
        }
        lemma_tree_props(d);
        assert(!entries_tree(d).contains_key(s[i].0@)) by {
            if entries_tree(d).contains_key(s[i].0@) {
                let j = choose|j: int| 0 <= j < d.len() && (#[trigger] d[j]).0@ == s[i].0@;
                assert(s[j].0@ == s[i].0@);
            }
        }
        assert(entries_tree(s) == entries_tree(d).insert(s[i].0@, s[i].1@));
        assert(entries_tree(r) =~= entries_tree(s).remove(s[i].0@));
    } else {
        let d = s.drop_last();
        assert(entries_unique(d)) by {
            assert forall|a: int, b: int| 0 <= a < b < d.len() implies (#[trigger] d[a]).0@ != (
            #[trigger] d[b]).0@ by {
                assert(d[a] == s[a] && d[b] == s[b]);
            }
        }
        lemma_tree_remove(d, i);
        assert(r.drop_last() =~= d.remove(i));
        assert(r.last() == s.last());
        assert(entries_tree(r) == entries_tree(d.remove(i)).insert(s.last().0@, s.last().1@));
        assert(entries_tree(r) == entries_tree(d).remove(s[i].0@).insert(s.last().0@, s.last().1@));
        assert(s[i].0@ != s.last().0@);
        assert(entries_tree(d).remove(s[i].0@).insert(s.last().0@, s.last().1@) =~= entries_tree(
            d,
        ).insert(s.last().0@, s.last().1@).remove(s[i].0@));
    }
}

/// The filesystem-backed certificate store.
///
/// Records live in three tiers: *full* (internal, sharded), *quarantined*
/// (internal, unsharded) and *published* (external, sharded).  Three
/// symlink indices under the external root resolve secondary identifiers
/// to published records.  Under `dry_run`, writes to the full and
/// published tiers and index link creation are elided; quarantine writes
/// and unlinking always take effect.
pub struct Filesystem {
    tmp_dir: FsPath,
    keys_internal_dir: FsPath,
    keys_external_dir: FsPath,
    keys_dir_full: FsPath,
    keys_dir_quarantined: FsPath,
    keys_dir_published: FsPath,
    links_dir_by_fingerprint: FsPath,
    links_dir_by_keyid: FsPath,
    links_dir_by_email: FsPath,
    dry_run: bool,
    entries: Vec<(FsPath, Node)>,
}

/// Two storage roots can back one store if they are the same directory or
/// neither contains the other.
pub open spec fn bases_compatible(a: Seq<Seq<char>>, b: Seq<Seq<char>>) -> bool {
    a == b || roots_disjoint(a, b)
}

impl Filesystem {
    /// The internal root.
    pub closed spec fn internal_dir(&self) -> Seq<Seq<char>> {
        self.keys_internal_dir@
    }

    /// The external root.
    pub closed spec fn external_dir(&self) -> Seq<Seq<char>> {
        self.keys_external_dir@
    }

    /// The scratch directory.
    pub closed spec fn tmp_path(&self) -> Seq<Seq<char>> {
        self.tmp_dir@
    }

    /// The full-tier directory.
    pub closed spec fn full_dir(&self) -> Seq<Seq<char>> {
        self.keys_dir_full@
    }

    /// The quarantine-tier directory.
    pub closed spec fn quarantined_dir(&self) -> Seq<Seq<char>> {
        self.keys_dir_quarantined@
    }

    /// The published-tier directory.
    pub closed spec fn published_dir(&self) -> Seq<Seq<char>> {
        self.keys_dir_published@
    }

    /// The by-fingerprint index directory.
    pub closed spec fn by_fpr_dir(&self) -> Seq<Seq<char>> {
        self.links_dir_by_fingerprint@
    }

    /// The by-keyid index directory.
    pub closed spec fn by_keyid_dir(&self) -> Seq<Seq<char>> {
        self.links_dir_by_keyid@
    }

    /// The by-email index directory.
    pub closed spec fn by_email_dir(&self) -> Seq<Seq<char>> {
        self.links_dir_by_email@
    }

    /// Whether mutations to the full and published tiers are elided.
    pub closed spec fn is_dry_run(&self) -> bool {
        self.dry_run
    }

    /// The store tree: every record file and index symlink by its path.
    pub closed spec fn tree(&self) -> Map<Seq<Seq<char>>, NodeV> {
        entries_tree(self.entries@)
    }

    /// The entry list keeps paths unique.
    pub closed spec fn entries_ok(&self) -> bool {
        entries_unique(self.entries@)
    }

    /// Well-formedness: the six managed directories hang off the two roots
    /// under their fixed names, all of them are normal paths, no root
    /// reaches into another, and the entry list is a map.
    pub open spec fn wf(&self) -> bool {
        &&& path_normal(self.internal_dir())
        &&& path_normal(self.external_dir())
        &&& path_normal(self.tmp_path())
        &&& bases_compatible(self.internal_dir(), self.external_dir())
        &&& self.full_dir() == self.internal_dir().push("full"@)
        &&& self.quarantined_dir() == self.internal_dir().push("quarantined"@)
        &&& self.published_dir() == self.external_dir().push("pub"@)
        &&& self.by_fpr_dir() == self.external_dir() + seq!["links"@, "by-fpr"@]
        &&& self.by_keyid_dir() == self.external_dir() + seq!["links"@, "by-keyid"@]
        &&& self.by_email_dir() == self.external_dir() + seq!["links"@, "by-email"@]
        &&& path_normal(self.full_dir())
        &&& path_normal(self.quarantined_dir())
        &&& path_normal(self.published_dir())
        &&& path_normal(self.by_fpr_dir())
        &&& path_normal(self.by_keyid_dir())
        &&& path_normal(self.by_email_dir())
        &&& roots_disjoint(self.full_dir(), self.quarantined_dir())
        &&& roots_disjoint(self.full_dir(), self.published_dir())
        &&& roots_disjoint(self.full_dir(), self.by_fpr_dir())
        &&& roots_disjoint(self.full_dir(), self.by_keyid_dir())
        &&& roots_disjoint(self.full_dir(), self.by_email_dir())
        &&& roots_disjoint(self.quarantined_dir(), self.published_dir())
        &&& roots_disjoint(self.quarantined_dir(), self.by_fpr_dir())
        &&& roots_disjoint(self.quarantined_dir(), self.by_keyid_dir())
        &&& roots_disjoint(self.quarantined_dir(), self.by_email_dir())
        &&& roots_disjoint(self.published_dir(), self.by_fpr_dir())
        &&& roots_disjoint(self.published_dir(), self.by_keyid_dir())
        &&& roots_disjoint(self.published_dir(), self.by_email_dir())
        &&& roots_disjoint(self.by_fpr_dir(), self.by_keyid_dir())
        &&& roots_disjoint(self.by_fpr_dir(), self.by_email_dir())
        &&& roots_disjoint(self.by_keyid_dir(), self.by_email_dir())
        &&& self.entries_ok()
    }

    /// The same configuration: equal directories and the same dry-run
    /// setting, whatever the trees hold.
    pub open spec fn same_config(&self, other: &Filesystem) -> bool {
        &&& self.internal_dir() == other.internal_dir()
        &&& self.external_dir() == other.external_dir()
        &&& self.tmp_path() == other.tmp_path()
        &&& self.full_dir() == other.full_dir()
        &&& self.quarantined_dir() == other.quarantined_dir()
        &&& self.published_dir() == other.published_dir()
        &&& self.by_fpr_dir() == other.by_fpr_dir()
        &&& self.by_keyid_dir() == other.by_keyid_dir()
        &&& self.by_email_dir() == other.by_email_dir()
        &&& self.is_dry_run() == other.is_dry_run()
    }

    /// Opens a store under a single base directory: records and links
    /// under `base/keys`, scratch space under `base/tmp`.
    pub fn new_from_base(base_dir: &FsPath) -> (r: Result<Filesystem, Error>)
        ensures
            r is Ok <==> path_normal(base_dir@),
            r matches Ok(fs) ==> fs.wf() && fs.tree() == Map::<Seq<Seq<char>>, NodeV>::empty()
                && !fs.is_dry_run() && fs.internal_dir() == base_dir@.push("keys"@)
                && fs.external_dir() == base_dir@.push("keys"@) && fs.tmp_path()
                == base_dir@.push("tmp"@),
    {
        let keys_dir = base_dir.child("keys");
        let tmp_dir = base_dir.child("tmp");
        let r = Filesystem::new(&keys_dir, &keys_dir, &tmp_dir);
        proof {
            if path_normal(base_dir@) {
                lemma_root_literals();
                assert(path_normal(base_dir@.push("keys"@))) by {
                    lemma_push_normal(base_dir@, "keys"@);
                }
                assert(path_normal(base_dir@.push("tmp"@))) by {
                    lemma_push_normal(base_dir@, "tmp"@);
                }
            } else {
                let i = choose|i: int|
                    0 <= i < base_dir@.len() && !crate::fspath::comp_normal(#[trigger] base_dir@[i]);
                assert(base_dir@.push("keys"@)[i] == base_dir@[i]);
            }
        }
        r
    }

    /// Opens a store with the given internal and external roots.
    pub fn new(
        keys_internal_dir: &FsPath,
        keys_external_dir: &FsPath,
        tmp_dir: &FsPath,
    ) -> (r: Result<Filesystem, Error>)
        ensures
            r is Ok <==> path_normal(keys_internal_dir@) && path_normal(keys_external_dir@)
                && path_normal(tmp_dir@) && bases_compatible(
                keys_internal_dir@,
                keys_external_dir@,
            ),
            r matches Ok(fs) ==> fs.wf() && fs.tree() == Map::<Seq<Seq<char>>, NodeV>::empty()
                && !fs.is_dry_run() && fs.internal_dir() == keys_internal_dir@
                && fs.external_dir() == keys_external_dir@ && fs.tmp_path() == tmp_dir@,
    {
        Filesystem::new_internal(keys_internal_dir, keys_external_dir, tmp_dir, false)
    }

    /// Opens a store, optionally in dry-run mode.
    ///
    /// The roots are rejected if a component is not a plain directory name
    /// or one root reaches into the other: every path later built from an
    /// identifier must stay inside its own subtree.
    pub fn new_internal(
        keys_internal_dir: &FsPath,
        keys_external_dir: &FsPath,
        tmp_dir: &FsPath,
        dry_run: bool,
    ) -> (r: Result<Filesystem, Error>)
        ensures
            r is Ok <==> path_normal(keys_internal_dir@) && path_normal(keys_external_dir@)
                && path_normal(tmp_dir@) && bases_compatible(
                keys_internal_dir@,
                keys_external_dir@,
            ),
            r matches Ok(fs) ==> fs.wf() && fs.tree() == Map::<Seq<Seq<char>>, NodeV>::empty()
                && fs.is_dry_run() == dry_run && fs.internal_dir() == keys_internal_dir@
                && fs.external_dir() == keys_external_dir@ && fs.tmp_path() == tmp_dir@,
    {
        if !path_is_normal(keys_internal_dir) || !path_is_normal(keys_external_dir)
            || !path_is_normal(tmp_dir) {
            return Err(Error::BadConfiguration);
        }
        if !(keys_internal_dir.equals(keys_external_dir) || (!keys_internal_dir.starts_with(
            keys_external_dir,
        ) && !keys_external_dir.starts_with(keys_internal_dir))) {
            return Err(Error::BadConfiguration);
        }
        let keys_dir_full = keys_internal_dir.child("full");
        let keys_dir_quarantined = keys_internal_dir.child("quarantined");
        let keys_dir_published = keys_external_dir.child("pub");
        let links_dir = keys_external_dir.child("links");
        let links_dir_by_keyid = links_dir.child("by-keyid");
        let links_dir_by_fingerprint = links_dir.child("by-fpr");
        let links_dir_by_email = links_dir.child("by-email");
        let fs = Filesystem {
            tmp_dir: tmp_dir.duplicate(),
            keys_internal_dir: keys_internal_dir.duplicate(),
            keys_external_dir: keys_external_dir.duplicate(),
            keys_dir_full,
            keys_dir_quarantined,
            keys_dir_published,
            links_dir_by_fingerprint,
            links_dir_by_keyid,
            links_dir_by_email,
            dry_run,
            entries: Vec::new(),
        };
        proof {
            lemma_root_literals();
            let ib = keys_internal_dir@;
            let eb = keys_external_dir@;
            assert(fs.by_fpr_dir() =~= eb + seq!["links"@, "by-fpr"@]);
            assert(fs.by_keyid_dir() =~= eb + seq!["links"@, "by-keyid"@]);
            assert(fs.by_email_dir() =~= eb + seq!["links"@, "by-email"@]);
            lemma_push_normal(ib, "full"@);
            lemma_push_normal(ib, "quarantined"@);
            lemma_push_normal(eb, "pub"@);
            lemma_push_normal(eb, "links"@);
            lemma_push_normal(eb.push("links"@), "by-fpr"@);
            lemma_push_normal(eb.push("links"@), "by-keyid"@);
            lemma_push_normal(eb.push("links"@), "by-email"@);
            assert(eb.push("links"@).push("by-fpr"@) =~= eb + seq!["links"@, "by-fpr"@]);
            assert(eb.push("links"@).push("by-keyid"@) =~= eb + seq!["links"@, "by-keyid"@]);
            assert(eb.push("links"@).push("by-email"@) =~= eb + seq!["links"@, "by-email"@]);
            lemma_config_disjoint(ib, eb);
            assert(ib.push("full"@) =~= ib + seq!["full"@]);
            assert(ib.push("quarantined"@) =~= ib + seq!["quarantined"@]);
            assert(eb.push("pub"@) =~= eb + seq!["pub"@]);
            assert(fs.tree() =~= Map::<Seq<Seq<char>>, NodeV>::empty());
        }
        Ok(fs)
    }
}

/// Whether every component of `p` is a plain directory name.
pub fn path_is_normal(p: &FsPath) -> (r: bool)
    ensures
        r == path_normal(p@),
{
    let n = p.depth();
    let mut i: usize = 0;
    while i < n
        invariant
            i <= n,
            n == p@.len(),
            forall|j: int| 0 <= j < i ==> crate::fspath::comp_normal(#[trigger] p@[j]),
        decreases n - i,
    {
        if !comp_is_normal(p.comp_at(i)) {
            return false;
        }
        i += 1;
    }
    true
}

/// Whether `s` is a plain directory name: non-empty ASCII without `/`,
/// and neither `.` nor `..`.
fn comp_is_normal(s: &str) -> (r: bool)
    ensures
        r == crate::fspath::comp_normal(s@),
{
    if !s.is_ascii() {
        return false;
    }
    let n = s.unicode_len();
    if n == 0 {
        return false;
    }
    let mut i: usize = 0;
    let mut all_dots = true;
    while i < n
        invariant
            i <= n,
            n == s@.len(),
            forall|j: int| 0 <= j < i ==> #[trigger] s@[j] != '/',
            all_dots <==> forall|j: int| 0 <= j < i ==> #[trigger] s@[j] == '.',
        decreases n - i,
    {
        let c = s.get_char(i);
        if c == '/' {
            return false;
        }
        if c != '.' {
            all_dots = false;
        }
        i += 1;
    }
    if all_dots && n <= 2 {
        proof {
            if n == 1 {
                assert(s@ =~= crate::fspath::dot());
            } else {
                assert(s@ =~= crate::fspath::dotdot());
            }
        }
        return false;
    }
    proof {
        if s@ == crate::fspath::dot() {
            assert(s@[0] == '.');
            assert(forall|j: int| 0 <= j < s@.len() ==> #[trigger] s@[j] == '.');
        }
        if s@ == crate::fspath::dotdot() {
            assert(s@[0] == '.' && s@[1] == '.');
            assert(forall|j: int| 0 <= j < s@.len() ==> #[trigger] s@[j] == '.');
        }
    }
    true
}

/// A normal path stays normal under one more normal component.
proof fn lemma_push_normal(p: Seq<Seq<char>>, c: Seq<char>)
    requires
        path_normal(p),
        crate::fspath::comp_normal(c),
    ensures
        path_normal(p.push(c)),
{
    assert forall|i: int| 0 <= i < p.push(c).len() implies crate::fspath::comp_normal(
        #[trigger] p.push(c)[i],
    ) by {
        if i < p.len() {
            assert(p.push(c)[i] == p[i]);
        } else {
            assert(p.push(c)[i] == c);
        }
    }
}

/// The fixed directory names are plain components and pairwise distinct
/// where it matters.
proof fn lemma_root_literals()
    ensures
        crate::fspath::comp_normal("keys"@),
        crate::fspath::comp_normal("tmp"@),
        crate::fspath::comp_normal("full"@),
        crate::fspath::comp_normal("quarantined"@),
        crate::fspath::comp_normal("pub"@),
        crate::fspath::comp_normal("links"@),
        crate::fspath::comp_normal("by-fpr"@),
        crate::fspath::comp_normal("by-keyid"@),
        crate::fspath::comp_normal("by-email"@),
        "full"@ != "quarantined"@,
        "full"@ != "pub"@,
        "full"@ != "links"@,
        "quarantined"@ != "pub"@,
        "quarantined"@ != "links"@,
        "pub"@ != "links"@,
        "by-fpr"@ != "by-keyid"@,
        "by-fpr"@ != "by-email"@,
        "by-keyid"@ != "by-email"@,
{
    reveal_strlit("keys");
    reveal_strlit("tmp");
    reveal_strlit("full");
    reveal_strlit("quarantined");
    reveal_strlit("pub");
    reveal_strlit("links");
    reveal_strlit("by-fpr");
    reveal_strlit("by-keyid");
    reveal_strlit("by-email");
    assert(crate::fspath::comp_normal("keys"@)) by {
        lemma_comp_lit("keys"@);
    }
    assert(crate::fspath::comp_normal("tmp"@)) by {
        lemma_comp_lit("tmp"@);
    }
    assert(crate::fspath::comp_normal("full"@)) by {
        lemma_comp_lit("full"@);
    }
    assert(crate::fspath::comp_normal("quarantined"@)) by {
        lemma_comp_lit("quarantined"@);
    }
    assert(crate::fspath::comp_normal("pub"@)) by {
        lemma_comp_lit("pub"@);
    }
    assert(crate::fspath::comp_normal("links"@)) by {
        lemma_comp_lit("links"@);
    }
    assert(crate::fspath::comp_normal("by-fpr"@)) by {
        lemma_comp_lit("by-fpr"@);
    }
    assert(crate::fspath::comp_normal("by-keyid"@)) by {
        lemma_comp_lit("by-keyid"@);
    }
    assert(crate::fspath::comp_normal("by-email"@)) by {
        lemma_comp_lit("by-email"@);
    }
    assert("by-fpr"@[3] != "by-keyid"@[3]);
    assert("by-fpr"@[3] != "by-email"@[3]);
    assert("by-keyid"@[3] != "by-email"@[3]);
}

/// A revealed literal made of letters and dashes is a plain component.
proof fn lemma_comp_lit(c: Seq<char>)
    requires
        c.len() > 0,
        forall|i: int|
            0 <= i < c.len() ==> (('a' <= #[trigger] c[i] && c[i] <= 'z') || c[i] == '-'),
    ensures
        crate::fspath::comp_normal(c),
{
    assert forall|i: int| 0 <= i < c.len() implies '\0' <= #[trigger] c[i] <= '\u{7f}' && c[i]
        != '/' by {
        assert(('a' <= c[i] && c[i] <= 'z') || c[i] == '-');
    }
    assert(c != crate::fspath::dot()) by {
        if c == crate::fspath::dot() {
            assert(c[0] == '.');
        }
    }
    assert(c != crate::fspath::dotdot()) by {
        if c == crate::fspath::dotdot() {
            assert(c[0] == '.');
        }
    }
}

/// With compatible bases the six managed directories are pairwise
/// disjoint roots.
proof fn lemma_config_disjoint(ib: Seq<Seq<char>>, eb: Seq<Seq<char>>)
    requires
        bases_compatible(ib, eb),
    ensures
        roots_disjoint(ib + seq!["full"@], ib + seq!["quarantined"@]),
        roots_disjoint(ib + seq!["full"@], eb + seq!["pub"@]),
        roots_disjoint(ib + seq!["full"@], eb + seq!["links"@, "by-fpr"@]),
        roots_disjoint(ib + seq!["full"@], eb + seq!["links"@, "by-keyid"@]),
        roots_disjoint(ib + seq!["full"@], eb + seq!["links"@, "by-email"@]),
        roots_disjoint(ib + seq!["quarantined"@], eb + seq!["pub"@]),
        roots_disjoint(ib + seq!["quarantined"@], eb + seq!["links"@, "by-fpr"@]),
        roots_disjoint(ib + seq!["quarantined"@], eb + seq!["links"@, "by-keyid"@]),
        roots_disjoint(ib + seq!["quarantined"@], eb + seq!["links"@, "by-email"@]),
        roots_disjoint(eb + seq!["pub"@], eb + seq!["links"@, "by-fpr"@]),
        roots_disjoint(eb + seq!["pub"@], eb + seq!["links"@, "by-keyid"@]),
        roots_disjoint(eb + seq!["pub"@], eb + seq!["links"@, "by-email"@]),
        roots_disjoint(eb + seq!["links"@, "by-fpr"@], eb + seq!["links"@, "by-keyid"@]),
        roots_disjoint(eb + seq!["links"@, "by-fpr"@], eb + seq!["links"@, "by-email"@]),
        roots_disjoint(eb + seq!["links"@, "by-keyid"@], eb + seq!["links"@, "by-email"@]),
{
    lemma_root_literals();
    assert(seq!["full"@][0] == "full"@);
    assert(seq!["quarantined"@][0] == "quarantined"@);
    assert(seq!["pub"@][0] == "pub"@);
    assert(seq!["links"@, "by-fpr"@][0] == "links"@);
    assert(seq!["links"@, "by-keyid"@][0] == "links"@);
    assert(seq!["links"@, "by-email"@][0] == "links"@);
    assert(seq!["links"@, "by-fpr"@][1] == "by-fpr"@);
    assert(seq!["links"@, "by-keyid"@][1] == "by-keyid"@);
    assert(seq!["links"@, "by-email"@][1] == "by-email"@);
    lemma_extend_disjoint(ib, seq!["full"@], ib, seq!["quarantined"@]);
    lemma_extend_disjoint(ib, seq!["full"@], eb, seq!["pub"@]);
    lemma_extend_disjoint(ib, seq!["full"@], eb, seq!["links"@, "by-fpr"@]);
    lemma_extend_disjoint(ib, seq!["full"@], eb, seq!["links"@, "by-keyid"@]);
    lemma_extend_disjoint(ib, seq!["full"@], eb, seq!["links"@, "by-email"@]);
    lemma_extend_disjoint(ib, seq!["quarantined"@], eb, seq!["pub"@]);
    lemma_extend_disjoint(ib, seq!["quarantined"@], eb, seq!["links"@, "by-fpr"@]);
    lemma_extend_disjoint(ib, seq!["quarantined"@], eb, seq!["links"@, "by-keyid"@]);
    lemma_extend_disjoint(ib, seq!["quarantined"@], eb, seq!["links"@, "by-email"@]);
    lemma_extend_disjoint(eb, seq!["pub"@], eb, seq!["links"@, "by-fpr"@]);
    lemma_extend_disjoint(eb, seq!["pub"@], eb, seq!["links"@, "by-keyid"@]);
    lemma_extend_disjoint(eb, seq!["pub"@], eb, seq!["links"@, "by-email"@]);
    lemma_extend_disjoint(eb, seq!["links"@, "by-fpr"@], eb, seq!["links"@, "by-keyid"@]);
    lemma_extend_disjoint(eb, seq!["links"@, "by-fpr"@], eb, seq!["links"@, "by-email"@]);
    lemma_extend_disjoint(eb, seq!["links"@, "by-keyid"@], eb, seq!["links"@, "by-email"@]);
}

impl Filesystem {
    /// The full-tier path of a fingerprint: sharded under the full
    /// directory.
    pub open spec fn full_path(&self, f: Seq<char>) -> Seq<Seq<char>> {
        self.full_dir() + split_spec(f)
    }

    /// The quarantine-tier path of a fingerprint: unsharded.
    pub open spec fn quarantined_path(&self, f: Seq<char>) -> Seq<Seq<char>> {
        self.quarantined_dir().push(f)
    }

    /// The published-tier path of a fingerprint: sharded under the
    /// published directory.
    pub open spec fn published_path(&self, f: Seq<char>) -> Seq<Seq<char>> {
        self.published_dir() + split_spec(f)
    }

    /// The by-fingerprint index entry of a fingerprint.
    pub open spec fn fpr_link_path(&self, hex: Seq<char>) -> Seq<Seq<char>> {
        self.by_fpr_dir() + split_spec(hex)
    }

    /// The by-keyid index entry of a key id.
    pub open spec fn keyid_link_path(&self, hex: Seq<char>) -> Seq<Seq<char>> {
        self.by_keyid_dir() + split_spec(hex)
    }

    /// The by-email index entry of an email address, percent-encoded.
    pub open spec fn email_link_path(&self, e: Seq<char>) -> Seq<Seq<char>> {
        self.by_email_dir() + split_spec(form_encode(e))
    }

    /// Returns the full-tier path of the given fingerprint.
    pub fn fingerprint_to_path_full(&self, fingerprint: &Fingerprint) -> (r: FsPath)
        requires
            self.wf(),
            fingerprint.wf(),
        ensures
            r@ == self.full_path(fingerprint@),
    {
        proof {
            lemma_hex_is_ascii(fingerprint@);
        }
        self.keys_dir_full.join(&path_split(fingerprint.as_str()))
    }

    /// Returns the quarantine-tier path of the given fingerprint.
    pub fn fingerprint_to_path_quarantined(&self, fingerprint: &Fingerprint) -> (r: FsPath)
        requires
            self.wf(),
            fingerprint.wf(),
        ensures
            r@ == self.quarantined_path(fingerprint@),
    {
        self.keys_dir_quarantined.child(fingerprint.as_str())
    }

    /// Returns the published-tier path of the given fingerprint.
    pub fn fingerprint_to_path_published(&self, fingerprint: &Fingerprint) -> (r: FsPath)
        requires
            self.wf(),
            fingerprint.wf(),
        ensures
            r@ == self.published_path(fingerprint@),
    {
        proof {
            lemma_hex_is_ascii(fingerprint@);
        }
        self.keys_dir_published.join(&path_split(fingerprint.as_str()))
    }

    /// Returns the by-keyid index entry path of the given key id.
    pub fn link_by_keyid(&self, keyid: &KeyID) -> (r: FsPath)
        requires
            self.wf(),
            keyid.wf(),
        ensures
            r@ == self.keyid_link_path(keyid@),
    {
        proof {
            lemma_hex_is_ascii(keyid@);
        }
        self.links_dir_by_keyid.join(&path_split(keyid.as_str()))
    }

    /// Returns the by-fingerprint index entry path of the given
    /// fingerprint.
    pub fn link_by_fingerprint(&self, fingerprint: &Fingerprint) -> (r: FsPath)
        requires
            self.wf(),
            fingerprint.wf(),
        ensures
            r@ == self.fpr_link_path(fingerprint@),
    {
        proof {
            lemma_hex_is_ascii(fingerprint@);
        }
        self.links_dir_by_fingerprint.join(&path_split(fingerprint.as_str()))
    }

    /// Returns the by-email index entry path of the given email address.
    pub fn link_by_email(&self, email: &Email) -> (r: FsPath)
        requires
            self.wf(),
            email.wf(),
        ensures
            r@ == self.email_link_path(email@),
    {
        proof {
            lemma_email_is_ascii(email@);
            crate::encode::lemma_form_encode_shape(email@);
            assert forall|j: int| 0 <= j < form_encode(email@).len() implies '\0' <= #[trigger] form_encode(
                email@,
            )[j] <= '\u{7f}' by {
                assert(crate::encode::is_unreserved_char(form_encode(email@)[j]) || form_encode(
                    email@,
                )[j] == '+' || form_encode(email@)[j] == '%');
            }
        }
        let encoded = form_urlencode(email.as_str());
        self.links_dir_by_email.join(&path_split(encoded.as_str()))
    }

    /// Finds the entry holding `path`, if any.
    fn find_entry(&self, path: &FsPath) -> (r: Option<usize>)
        requires
            self.wf(),
        ensures
            r matches Some(i) ==> i < self.entries@.len() && self.entries@[i as int].0@ == path@
                && self.tree().contains_key(path@),
            r is None ==> !self.tree().contains_key(path@),
    {
        proof {
            lemma_tree_props(self.entries@);
        }
        let n = self.entries.len();
        let mut i: usize = 0;
        while i < n
            invariant
                self.wf(),
                i <= n,
                n == self.entries@.len(),
                forall|j: int| 0 <= j < i ==> (#[trigger] self.entries@[j]).0@ != path@,
            decreases n - i,
        {
            if self.entries[i].0.equals(path) {
                proof {
                    lemma_tree_props(self.entries@);
                    assert(self.entries@[i as int].0@ == path@);
                    assert(self.tree().contains_key(self.entries@[i as int].0@));
                }
                return Some(i);
            }
            i += 1;
        }
        proof {
            if self.tree().contains_key(path@) {
                let j = choose|j: int|
                    0 <= j < self.entries@.len() && (#[trigger] self.entries@[j]).0@ == path@;
                assert(false);
            }
        }
        None
    }

    /// The node stored at `path`, if any.
    pub fn get_node(&self, path: &FsPath) -> (r: Option<&Node>)
        requires
            self.wf(),
        ensures
            r is Some <==> self.tree().contains_key(path@),
            r matches Some(n) ==> n@ == self.tree()[path@],
    {
        proof {
            lemma_tree_props(self.entries@);
        }
        match self.find_entry(path) {
            Some(i) => Some(&self.entries[i].1),
            None => None,
        }
    }

    /// Puts `node` at `path`, replacing whatever was there.
    ///
    /// This is the raw tree mutation: the shell uses it to load the state
    /// found on disk, and tests use it to build damaged stores for the
    /// consistency checker.
    pub fn set_entry(&mut self, path: &FsPath, node: Node)
        requires
            old(self).wf(),
        ensures
            final(self).wf(),
            final(self).same_config(old(self)),
            final(self).tree() == old(self).tree().insert(path@, node@),
    {
        let ghost olds = self.entries@;
        match self.find_entry(path) {
            Some(i) => {
                proof {
                    lemma_tree_remove(olds, i as int);
                    lemma_tree_props(olds);
                }
                self.entries.remove(i);
                let ghost mids = self.entries@;
                proof {
                    assert forall|j: int| 0 <= j < mids.len() implies (#[trigger] mids[j]).0@
                        != path@ by {
                        let sj = if j < i {
                            j
                        } else {
                            j + 1
                        };
                        assert(mids[j] == olds[sj]);
                    }
                }
                let p2 = path.duplicate();
                let ghost pair = (p2, node);
                self.entries.push((p2, node));
                proof {
                    lemma_tree_push(mids, pair);
                    lemma_unique_push(mids, pair.0, pair.1);
                    assert(final(self).tree() =~= old(self).tree().insert(path@, node@));
                }
            },
            None => {
                proof {
                    lemma_tree_props(olds);
                    assert forall|j: int| 0 <= j < olds.len() implies (#[trigger] olds[j]).0@
                        != path@ by {}
                }
                let p2 = path.duplicate();
                let ghost pair = (p2, node);
                self.entries.push((p2, node));
                proof {
                    lemma_tree_push(olds, pair);
                    lemma_unique_push(olds, pair.0, pair.1);
                }
            },
        }
    }

    /// Removes the entry at `path`, if one exists.
    ///
    /// Like [`Filesystem::set_entry`], this is the raw mutation under the
    /// verified operations.
    pub fn remove_entry(&mut self, path: &FsPath)
        requires
            old(self).wf(),
        ensures
            final(self).wf(),
            final(self).same_config(old(self)),
            final(self).tree() == old(self).tree().remove(path@),
    {
        let ghost olds = self.entries@;
        match self.find_entry(path) {
            Some(i) => {
                proof {
                    lemma_tree_remove(olds, i as int);
                }
                self.entries.remove(i);
            },
            None => {
                proof {
                    assert(final(self).tree() =~= old(self).tree().remove(path@));
                }
            },
        }
    }

    /// Stages record text for a later move into a tier.
    ///
    /// The scratch file has no name of its own in the store tree; only its
    /// content matters.
    pub fn write_to_temp(&self, content: &str) -> (r: Result<TmpFile, Error>)
        ensures
            r is Ok,
            r matches Ok(t) ==> t@ == content@,
    {
        Ok(TmpFile { content: content.to_owned() })
    }
}

/// Appending an entry with a fresh path keeps the list a map.
proof fn lemma_unique_push(s: Seq<(FsPath, Node)>, path: FsPath, node: Node)
    requires
        entries_unique(s),
        forall|j: int| 0 <= j < s.len() ==> (#[trigger] s[j]).0@ != path@,
    ensures
        entries_unique(s.push((path, node))),
{
    let r = s.push((path, node));
    assert forall|a: int, b: int| 0 <= a < b < r.len() implies (#[trigger] r[a]).0@ != (
    #[trigger] r[b]).0@ by {
        if b < s.len() {
            assert(r[a] == s[a] && r[b] == s[b]);
        } else {
            assert(r[a] == s[a] && r[b] == (path, node));
        }
    }
}

impl Filesystem {
    /// Publishes staged content into the full tier, replacing any record
    /// already there.  Elided under dry-run.
    pub fn move_tmp_to_full(&mut self, file: TmpFile, fpr: &Fingerprint) -> (r: Result<(), Error>)
        requires
            old(self).wf(),
            fpr.wf(),
        ensures
            r is Ok,
            final(self).wf(),
            final(self).same_config(old(self)),
            old(self).is_dry_run() ==> final(self).tree() == old(self).tree(),
            !old(self).is_dry_run() ==> final(self).tree() == old(self).tree().insert(
                old(self).full_path(fpr@),
                (NodeV::File { content: file@, world_readable: false }),
            ),
    {
        if self.dry_run {
            return Ok(());
        }
        let target = self.fingerprint_to_path_full(fpr);
        self.set_entry(&target, Node::File { content: file.content, world_readable: false });
        Ok(())
    }

    /// Publishes staged content into the published tier, replacing any
    /// record already there.  Elided under dry-run.
    pub fn move_tmp_to_published(&mut self, file: TmpFile, fpr: &Fingerprint) -> (r: Result<
        (),
        Error,
    >)
        requires
            old(self).wf(),
            fpr.wf(),
        ensures
            r is Ok,
            final(self).wf(),
            final(self).same_config(old(self)),
            old(self).is_dry_run() ==> final(self).tree() == old(self).tree(),
            !old(self).is_dry_run() ==> final(self).tree() == old(self).tree().insert(
                old(self).published_path(fpr@),
                (NodeV::File { content: file@, world_readable: true }),
            ),
    {
        if self.dry_run {
            return Ok(());
        }
        let target = self.fingerprint_to_path_published(fpr);
        self.set_entry(&target, Node::File { content: file.content, world_readable: true });
        Ok(())
    }

    /// Writes a record into quarantine.  Never elided: callers must not
    /// rely on quarantine writes disappearing under dry-run.
    pub fn write_to_quarantine(&mut self, fpr: &Fingerprint, content: &str) -> (r: Result<
        (),
        Error,
    >)
        requires
            old(self).wf(),
            fpr.wf(),
        ensures
            r is Ok,
            final(self).wf(),
            final(self).same_config(old(self)),
            final(self).tree() == old(self).tree().insert(
                old(self).quarantined_path(fpr@),
                (NodeV::File { content: content@, world_readable: false }),
            ),
    {
        let staged = match self.write_to_temp(content) {
            Ok(t) => t,
            Err(e) => {
                return Err(e);
            },
        };
        let target = self.fingerprint_to_path_quarantined(fpr);
        self.set_entry(&target, Node::File { content: staged.content, world_readable: false });
        Ok(())
    }

    /// Creates the symlink `symlink_name` pointing at `symlink_content`,
    /// atomically replacing whatever link was there before.
    pub fn symlink(&mut self, symlink_content: &FsPath, symlink_name: &FsPath) -> (r: Result<
        (),
        Error,
    >)
        requires
            old(self).wf(),
        ensures
            r is Ok,
            final(self).wf(),
            final(self).same_config(old(self)),
            final(self).tree() == old(self).tree().insert(
                symlink_name@,
                (NodeV::Link { target: symlink_content@ }),
            ),
    {
        self.set_entry(symlink_name, Node::Symlink(symlink_content.duplicate()));
        Ok(())
    }

    /// What a read at `p` returns: the file there, or the file its
    /// symlink resolves to after one level.
    pub open spec fn read_at(self, p: Seq<Seq<char>>) -> Option<Seq<char>> {
        if !self.tree().contains_key(p) {
            None
        } else {
            match self.tree()[p] {
                NodeV::File { content, .. } => Some(content),
                NodeV::Link { target } => {
                    let parent = if p.len() > 0 {
                        p.drop_last()
                    } else {
                        p
                    };
                    let res = normalize_spec(parent + target);
                    if self.tree().contains_key(res) {
                        match self.tree()[res] {
                            NodeV::File { content, .. } => Some(content),
                            NodeV::Link { .. } => None,
                        }
                    } else {
                        None
                    }
                },
            }
        }
    }

    /// Reads the record at `path`, following at most one symlink.
    ///
    /// The path must lie under the external root, or under the internal
    /// root when `allow_internal` is set: a path that escapes the
    /// configured roots is a logic error, not a runtime condition.
    pub fn read_from_path(&self, path: &FsPath, allow_internal: bool) -> (r: Option<String>)
        requires
            self.wf(),
            is_path_prefix(self.external_dir(), path@) || (allow_internal && is_path_prefix(
                self.internal_dir(),
                path@,
            )),
        ensures
            r is Some <==> self.read_at(path@) is Some,
            r matches Some(s) ==> Some(s@) == self.read_at(path@),
    {
        match self.get_node(path) {
            None => None,
            Some(node) => match node {
                Node::File { content, .. } => Some(content.clone()),
                Node::Symlink(target) => {
                    let parent = if path.depth() > 0 {
                        path.parent()
                    } else {
                        path.duplicate()
                    };
                    let resolved = parent.join(target).normalize();
                    match self.get_node(&resolved) {
                        Some(Node::File { content, .. }) => Some(content.clone()),
                        _ => None,
                    }
                },
            },
        }
    }

    /// Returns the fingerprint the given path encodes.
    pub fn path_to_fingerprint(path: &FsPath) -> (r: Option<Fingerprint>)
        ensures
            r is Some <==> fingerprint_valid(merge_spec(path@)),
            r matches Some(f) ==> f@ == merge_spec(path@) && f.wf(),
    {
        let merged = path_merge(path);
        Fingerprint::from_str(merged.as_str())
    }

    /// Returns the key id the given path encodes.
    pub fn path_to_keyid(path: &FsPath) -> (r: Option<KeyID>)
        ensures
            r is Some <==> keyid_valid(merge_spec(path@)),
            r matches Some(k) ==> k@ == merge_spec(path@) && k.wf(),
    {
        let merged = path_merge(path);
        KeyID::from_str(merged.as_str())
    }

    /// Whether a path's merged tail decodes to a canonical email address.
    pub open spec fn email_path_ok(p: Seq<Seq<char>>) -> bool {
        let m = merge_spec(p);
        &&& m.len() > 0
        &&& is_ascii_chars(m)
        &&& no_form_separators(m)
        &&& decode_safe(m)
        &&& email_valid(form_decode(m))
    }

    /// Returns the email address the given path encodes.
    pub fn path_to_email(path: &FsPath) -> (r: Option<Email>)
        ensures
            r is Some <==> Filesystem::email_path_ok(path@),
            r matches Some(e) ==> e@ == form_decode(merge_spec(path@)) && e.wf(),
    {
        let merged = path_merge(path);
        if !decode_input_ok(merged.as_str()) {
            return None;
        }
        match form_urldecode(merged.as_str()) {
            Some(decoded) => Email::from_str(decoded.as_str()),
            None => None,
        }
    }

    /// The primary fingerprint a path stands for: the target of its
    /// symlink, or the path itself for a plain record.
    pub open spec fn primary_hex_of(self, p: Seq<Seq<char>>) -> Option<Seq<char>> {
        if !self.tree().contains_key(p) {
            None
        } else {
            match self.tree()[p] {
                NodeV::Link { target } => if fingerprint_valid(merge_spec(target)) {
                    Some(merge_spec(target))
                } else {
                    None
                },
                NodeV::File { .. } => if fingerprint_valid(merge_spec(p)) {
                    Some(merge_spec(p))
                } else {
                    None
                },
            }
        }
    }

    /// Returns the backing primary fingerprint for any key path.
    pub fn path_to_primary(&self, path: &FsPath) -> (r: Option<Fingerprint>)
        requires
            self.wf(),
        ensures
            r is Some <==> self.primary_hex_of(path@) is Some,
            r matches Some(f) ==> Some(f@) == self.primary_hex_of(path@) && f.wf(),
    {
        match self.get_node(path) {
            None => None,
            Some(node) => match node {
                Node::Symlink(target) => Filesystem::path_to_fingerprint(target),
                Node::File { .. } => Filesystem::path_to_fingerprint(path),
            },
        }
    }

    /// Reads a full-tier record.
    pub fn by_fpr_full(&self, fpr: &Fingerprint) -> (r: Option<String>)
        requires
            self.wf(),
            fpr.wf(),
        ensures
            r is Some <==> self.read_at(self.full_path(fpr@)) is Some,
            r matches Some(s) ==> Some(s@) == self.read_at(self.full_path(fpr@)),
    {
        let path = self.fingerprint_to_path_full(fpr);
        proof {
            assert(self.full_dir() + split_spec(fpr@) =~= self.internal_dir() + (seq!["full"@]
                + split_spec(fpr@)));
            crate::fspath::lemma_prefix_extend(
                self.internal_dir(),
                seq!["full"@] + split_spec(fpr@),
            );
        }
        self.read_from_path(&path, true)
    }

    /// Reads a published record by its primary fingerprint.
    pub fn by_primary_fpr(&self, fpr: &Fingerprint) -> (r: Option<String>)
        requires
            self.wf(),
            fpr.wf(),
        ensures
            r is Some <==> self.read_at(self.published_path(fpr@)) is Some,
            r matches Some(s) ==> Some(s@) == self.read_at(self.published_path(fpr@)),
    {
        let path = self.fingerprint_to_path_published(fpr);
        proof {
            assert(self.published_dir() + split_spec(fpr@) =~= self.external_dir() + (seq!["pub"@]
                + split_spec(fpr@)));
            crate::fspath::lemma_prefix_extend(
                self.external_dir(),
                seq!["pub"@] + split_spec(fpr@),
            );
        }
        self.read_from_path(&path, false)
    }

    /// Reads a published record through the by-fingerprint index.
    pub fn by_fpr(&self, fpr: &Fingerprint) -> (r: Option<String>)
        requires
            self.wf(),
            fpr.wf(),
        ensures
            r is Some <==> self.read_at(self.fpr_link_path(fpr@)) is Some,
            r matches Some(s) ==> Some(s@) == self.read_at(self.fpr_link_path(fpr@)),
    {
        let path = self.link_by_fingerprint(fpr);
        proof {
            assert(self.by_fpr_dir() + split_spec(fpr@) =~= self.external_dir() + (seq![
                "links"@,
                "by-fpr"@,
            ] + split_spec(fpr@)));
            crate::fspath::lemma_prefix_extend(
                self.external_dir(),
                seq!["links"@, "by-fpr"@] + split_spec(fpr@),
            );
        }
        self.read_from_path(&path, false)
    }

    /// Reads a published record through the by-email index.
    pub fn by_email(&self, email: &Email) -> (r: Option<String>)
        requires
            self.wf(),
            email.wf(),
        ensures
            r is Some <==> self.read_at(self.email_link_path(email@)) is Some,
            r matches Some(s) ==> Some(s@) == self.read_at(self.email_link_path(email@)),
    {
        let path = self.link_by_email(email);
        proof {
            assert(self.by_email_dir() + split_spec(form_encode(email@)) =~= self.external_dir()
                + (seq!["links"@, "by-email"@] + split_spec(form_encode(email@))));
            crate::fspath::lemma_prefix_extend(
                self.external_dir(),
                seq!["links"@, "by-email"@] + split_spec(form_encode(email@)),
            );
        }
        self.read_from_path(&path, false)
    }

    /// Reads a published record through the by-keyid index.
    pub fn by_kid(&self, kid: &KeyID) -> (r: Option<String>)
        requires
            self.wf(),
            kid.wf(),
        ensures
            r is Some <==> self.read_at(self.keyid_link_path(kid@)) is Some,
            r matches Some(s) ==> Some(s@) == self.read_at(self.keyid_link_path(kid@)),
    {
        let path = self.link_by_keyid(kid);
        proof {
            assert(self.by_keyid_dir() + split_spec(kid@) =~= self.external_dir() + (seq![
                "links"@,
                "by-keyid"@,
            ] + split_spec(kid@)));
            crate::fspath::lemma_prefix_extend(
                self.external_dir(),
                seq!["links"@, "by-keyid"@] + split_spec(kid@),
            );
        }
        self.read_from_path(&path, false)
    }
}

/// Paths built from a hex identifier are normal.
proof fn lemma_hex_paths_normal(fs: &Filesystem, hex: Seq<char>)
    requires
        fs.wf(),
        hex.len() > 0,
        forall|i: int| 0 <= i < hex.len() ==> crate::ident::is_hex_char(#[trigger] hex[i]),
    ensures
        path_normal(fs.full_path(hex)),
        path_normal(fs.published_path(hex)),
        path_normal(fs.fpr_link_path(hex)),
        path_normal(fs.keyid_link_path(hex)),
{
    lemma_split_normal_hex(hex);
    crate::fspath::lemma_concat_normal(fs.full_dir(), split_spec(hex));
    crate::fspath::lemma_concat_normal(fs.published_dir(), split_spec(hex));
    crate::fspath::lemma_concat_normal(fs.by_fpr_dir(), split_spec(hex));
    crate::fspath::lemma_concat_normal(fs.by_keyid_dir(), split_spec(hex));
}

/// The by-email entry path of a canonical address is normal and three
/// components deep under its index directory.
proof fn lemma_email_path_normal(fs: &Filesystem, e: Seq<char>)
    requires
        fs.wf(),
        email_valid(e),
    ensures
        path_normal(fs.email_link_path(e)),
        fs.email_link_path(e).len() == fs.by_email_dir().len() + 3,
{
    lemma_split_normal_encoded(e);
    crate::fspath::lemma_concat_normal(fs.by_email_dir(), split_spec(form_encode(e)));
}

impl Filesystem {
    /// The relative target an index entry at `link` must carry to point
    /// at the published record of `primary`.
    pub open spec fn expected_target(self, link: Seq<Seq<char>>, primary: Seq<char>) -> Seq<
        Seq<char>,
    > {
        diff_spec(self.published_path(primary), link.drop_last())
    }

    /// A tree after removing `k`, but only if it carries exactly `v`.
    pub open spec fn remove_if_holds(
        m: Map<Seq<Seq<char>>, NodeV>,
        k: Seq<Seq<char>>,
        v: NodeV,
    ) -> Map<Seq<Seq<char>>, NodeV> {
        if m.contains_key(k) && m[k] == v {
            m.remove(k)
        } else {
            m
        }
    }

    /// Links an email address to a primary fingerprint's published
    /// record.  A no-op when the entry already carries exactly the
    /// expected target, and under dry-run.
    pub fn link_email(&mut self, email: &Email, fpr: &Fingerprint) -> (r: Result<(), Error>)
        requires
            old(self).wf(),
            email.wf(),
            fpr.wf(),
        ensures
            r is Ok,
            final(self).wf(),
            final(self).same_config(old(self)),
            old(self).is_dry_run() ==> final(self).tree() == old(self).tree(),
            !old(self).is_dry_run() ==> final(self).tree() == old(self).tree().insert(
                old(self).email_link_path(email@),
                (NodeV::Link {
                    target: old(self).expected_target(old(self).email_link_path(email@), fpr@),
                }),
            ),
    {
        if self.dry_run {
            return Ok(());
        }
        let link = self.link_by_email(email);
        let published = self.fingerprint_to_path_published(fpr);
        proof {
            lemma_email_path_normal(self, email@);
            lemma_hex_paths_normal(self, fpr@);
            crate::fspath::lemma_drop_last_normal(link@);
        }
        let parent = link.parent();
        let target = diff_paths(&published, &parent);
        let existing_matches: bool = match self.get_node(&link) {
            Some(Node::Symlink(t)) => t.equals(&target),
            _ => false,
        };
        if existing_matches {
            proof {
                assert(final(self).tree() =~= old(self).tree().insert(
                    old(self).email_link_path(email@),
                    (NodeV::Link {
                        target: old(self).expected_target(old(self).email_link_path(email@), fpr@),
                    }),
                ));
            }
            return Ok(());
        }
        self.symlink(&target, &link)
    }

    /// Removes the email entry, but only when it still points at the
    /// published record of `fpr`; a missing or reassigned entry is left
    /// alone.
    pub fn unlink_email(&mut self, email: &Email, fpr: &Fingerprint) -> (r: Result<(), Error>)
        requires
            old(self).wf(),
            email.wf(),
            fpr.wf(),
        ensures
            r is Ok,
            final(self).wf(),
            final(self).same_config(old(self)),
            final(self).tree() == Filesystem::remove_if_holds(
                old(self).tree(),
                old(self).email_link_path(email@),
                (NodeV::Link {
                    target: old(self).expected_target(old(self).email_link_path(email@), fpr@),
                }),
            ),
    {
        let link = self.link_by_email(email);
        let published = self.fingerprint_to_path_published(fpr);
        proof {
            lemma_email_path_normal(self, email@);
            lemma_hex_paths_normal(self, fpr@);
            crate::fspath::lemma_drop_last_normal(link@);
        }
        let parent = link.parent();
        let expected = diff_paths(&published, &parent);
        let existing_matches: bool = match self.get_node(&link) {
            Some(Node::Symlink(t)) => t.equals(&expected),
            _ => false,
        };
        if existing_matches {
            self.remove_entry(&link);
        }
        Ok(())
    }

    /// Links a (sub)key fingerprint to a primary fingerprint's published
    /// record: both the by-fingerprint and the by-keyid entries are
    /// created or replaced.  Elided under dry-run.
    pub fn link_fpr(&mut self, from: &Fingerprint, primary_fpr: &Fingerprint) -> (r: Result<
        (),
        Error,
    >)
        requires
            old(self).wf(),
            from.wf(),
            primary_fpr.wf(),
        ensures
            r is Ok,
            final(self).wf(),
            final(self).same_config(old(self)),
            old(self).is_dry_run() ==> final(self).tree() == old(self).tree(),
            !old(self).is_dry_run() ==> final(self).tree() == old(self).tree().insert(
                old(self).fpr_link_path(from@),
                (NodeV::Link {
                    target: old(self).expected_target(old(self).fpr_link_path(from@), primary_fpr@),
                }),
            ).insert(
                old(self).keyid_link_path(from@.subrange(24, 40)),
                (NodeV::Link {
                    target: old(self).expected_target(old(self).fpr_link_path(from@), primary_fpr@),
                }),
            ),
    {
        if self.dry_run {
            return Ok(());
        }
        let link_fpr = self.link_by_fingerprint(from);
        let keyid = from.keyid();
        let link_keyid = self.link_by_keyid(&keyid);
        let published = self.fingerprint_to_path_published(primary_fpr);
        proof {
            lemma_hex_paths_normal(self, from@);
            lemma_hex_paths_normal(self, primary_fpr@);
            crate::fspath::lemma_drop_last_normal(link_fpr@);
        }
        let parent = link_fpr.parent();
        let target = diff_paths(&published, &parent);
        match self.symlink(&target, &link_fpr) {
            Ok(()) => {},
            Err(e) => {
                return Err(e);
            },
        }
        self.symlink(&target, &link_keyid)
    }

    /// Removes the by-fingerprint and by-keyid entries of `from`, each
    /// only when it still points at the published record of
    /// `primary_fpr`.
    pub fn unlink_fpr(&mut self, from: &Fingerprint, primary_fpr: &Fingerprint) -> (r: Result<
        (),
        Error,
    >)
        requires
            old(self).wf(),
            from.wf(),
            primary_fpr.wf(),
        ensures
            r is Ok,
            final(self).wf(),
            final(self).same_config(old(self)),
            final(self).tree() == Filesystem::remove_if_holds(
                Filesystem::remove_if_holds(
                    old(self).tree(),
                    old(self).fpr_link_path(from@),
                    (NodeV::Link {
                        target: old(self).expected_target(
                            old(self).fpr_link_path(from@),
                            primary_fpr@,
                        ),
                    }),
                ),
                old(self).keyid_link_path(from@.subrange(24, 40)),
                (NodeV::Link {
                    target: old(self).expected_target(old(self).fpr_link_path(from@), primary_fpr@),
                }),
            ),
    {
        let link_fpr = self.link_by_fingerprint(from);
        let keyid = from.keyid();
        let link_keyid = self.link_by_keyid(&keyid);
        let published = self.fingerprint_to_path_published(primary_fpr);
        proof {
            lemma_hex_paths_normal(self, from@);
            lemma_hex_paths_normal(self, primary_fpr@);
            crate::fspath::lemma_drop_last_normal(link_fpr@);
        }
        let parent = link_fpr.parent();
        let expected = diff_paths(&published, &parent);
        let fpr_matches: bool = match self.get_node(&link_fpr) {
            Some(Node::Symlink(t)) => t.equals(&expected),
            _ => false,
        };
        if fpr_matches {
            self.remove_entry(&link_fpr);
        }
        let keyid_matches: bool = match self.get_node(&link_keyid) {
            Some(Node::Symlink(t)) => t.equals(&expected),
            _ => false,
        };
        if keyid_matches {
            self.remove_entry(&link_keyid);
        }
        Ok(())
    }

    /// What resolving `p` against the store gives: the path itself for a
    /// plain file, the normalized target of an existing symlink when that
    /// target exists, nothing otherwise.
    pub open spec fn canonicalize_spec(self, p: Seq<Seq<char>>) -> Option<Seq<Seq<char>>> {
        if !self.tree().contains_key(p) {
            None
        } else {
            match self.tree()[p] {
                NodeV::File { .. } => Some(p),
                NodeV::Link { target } => {
                    let parent = if p.len() > 0 {
                        p.drop_last()
                    } else {
                        p
                    };
                    let res = normalize_spec(parent + target);
                    if self.tree().contains_key(res) {
                        Some(res)
                    } else {
                        None
                    }
                },
            }
        }
    }

    /// Resolves an existing path to what it finally names.
    pub fn canonicalize(&self, path: &FsPath) -> (r: Option<FsPath>)
        requires
            self.wf(),
        ensures
            r is Some <==> self.canonicalize_spec(path@) is Some,
            r matches Some(c) ==> Some(c@) == self.canonicalize_spec(path@),
    {
        match self.get_node(path) {
            None => None,
            Some(node) => match node {
                Node::File { .. } => Some(path.duplicate()),
                Node::Symlink(target) => {
                    let parent = if path.depth() > 0 {
                        path.parent()
                    } else {
                        path.duplicate()
                    };
                    let resolved = parent.join(target).normalize();
                    if self.get_node(&resolved).is_some() {
                        Some(resolved)
                    } else {
                        None
                    }
                },
            },
        }
    }

    /// Whether the entry at `link` resolves somewhere that is not the
    /// published record of `target_fpr`.
    pub open spec fn link_collides(self, link: Seq<Seq<char>>, target_fpr: Seq<char>) -> bool {
        match self.canonicalize_spec(link) {
            Some(c) => !is_path_suffix(self.published_path(target_fpr), c),
            None => false,
        }
    }

    /// Checks the two subkey entries of `fpr` before linking it to
    /// `fpr_target`: an entry resolving to a different published record
    /// is a collision and is never overwritten.  Returns the fingerprint
    /// when at least one of the two entries still has to be linked, and
    /// nothing when both are already in place.
    pub fn check_link_fpr(&self, fpr: &Fingerprint, fpr_target: &Fingerprint) -> (r: Result<
        Option<Fingerprint>,
        Error,
    >)
        requires
            self.wf(),
            fpr.wf(),
            fpr_target.wf(),
        ensures
            r is Err <==> self.link_collides(self.fpr_link_path(fpr@), fpr_target@)
                || self.link_collides(self.keyid_link_path(fpr@.subrange(24, 40)), fpr_target@),
            r matches Err(e) ==> e == Error::Collision,
            r matches Ok(o) ==> ((o is Some) <==> !(self.tree().contains_key(
                self.fpr_link_path(fpr@),
            ) && self.tree().contains_key(self.keyid_link_path(fpr@.subrange(24, 40))))),
            r matches Ok(o) ==> (o matches Some(f) ==> f@ == fpr@ && f.wf()),
    {
        let link_fpr = self.link_by_fingerprint(fpr);
        let keyid = fpr.keyid();
        let link_keyid = self.link_by_keyid(&keyid);
        let path_published = self.fingerprint_to_path_published(fpr_target);
        match self.canonicalize(&link_fpr) {
            Some(resolved) => {
                if !resolved.ends_with(&path_published) {
                    return Err(Error::Collision);
                }
            },
            None => {},
        }
        match self.canonicalize(&link_keyid) {
            Some(resolved) => {
                if !resolved.ends_with(&path_published) {
                    return Err(Error::Collision);
                }
            },
            None => {},
        }
        let have_fpr = self.get_node(&link_fpr).is_some();
        let have_keyid = self.get_node(&link_keyid).is_some();
        if !have_fpr || !have_keyid {
            Ok(Some(fpr.duplicate()))
        } else {
            Ok(None)
        }
    }

    /// The index entry path a query resolves through.
    pub open spec fn query_link_path(self, term: Query) -> Seq<Seq<char>> {
        match term {
            Query::ByFingerprint(f) => self.fpr_link_path(f@),
            Query::ByKeyID(k) => self.keyid_link_path(k@),
            Query::ByEmail(e) => self.email_link_path(e@),
        }
    }

    /// The fingerprint encoded in the target of the entry at `lp`.
    pub open spec fn link_target_hex(self, lp: Seq<Seq<char>>) -> Option<Seq<char>> {
        if self.tree().contains_key(lp) {
            match self.tree()[lp] {
                NodeV::Link { target } => if fingerprint_valid(merge_spec(target)) {
                    Some(merge_spec(target))
                } else {
                    None
                },
                NodeV::File { .. } => None,
            }
        } else {
            None
        }
    }

    /// Resolves a query to the primary fingerprint its index entry names.
    pub fn lookup_primary_fingerprint(&self, term: &Query) -> (r: Option<Fingerprint>)
        requires
            self.wf(),
            term.wf(),
        ensures
            r is Some <==> self.link_target_hex(self.query_link_path(*term)) is Some,
            r matches Some(f) ==> Some(f@) == self.link_target_hex(self.query_link_path(*term))
                && f.wf(),
    {
        let path = match term {
            Query::ByFingerprint(fp) => self.link_by_fingerprint(fp),
            Query::ByKeyID(keyid) => self.link_by_keyid(keyid),
            Query::ByEmail(email) => self.link_by_email(email),
        };
        match self.get_node(&path) {
            Some(Node::Symlink(target)) => Filesystem::path_to_fingerprint(target),
            _ => None,
        }
    }

    /// Returns the path of a query's index entry relative to the external
    /// root, if the entry exists.
    pub fn lookup_path(&self, term: &Query) -> (r: Option<FsPath>)
        requires
            self.wf(),
            term.wf(),
        ensures
            r is Some <==> self.tree().contains_key(self.query_link_path(*term)),
            r matches Some(p) ==> p@ == diff_spec(self.query_link_path(*term), self.external_dir()),
    {
        let path = match term {
            Query::ByFingerprint(fp) => self.link_by_fingerprint(fp),
            Query::ByKeyID(keyid) => self.link_by_keyid(keyid),
            Query::ByEmail(email) => self.link_by_email(email),
        };
        if self.get_node(&path).is_some() {
            proof {
                match term {
                    Query::ByFingerprint(fp) => {
                        lemma_hex_paths_normal(self, fp@);
                    },
                    Query::ByKeyID(k) => {
                        lemma_split_normal_hex(k@);
                        crate::fspath::lemma_concat_normal(self.by_keyid_dir(), split_spec(k@));
                    },
                    Query::ByEmail(e) => {
                        lemma_email_path_normal(self, e@);
                    },
                }
            }
            Some(diff_paths(&path, &self.keys_external_dir))
        } else {
            None
        }
    }
}

/// The first certificate with the given primary fingerprint.
pub open spec fn spec_cert_for(certs: Seq<Cert>, f: Seq<char>) -> Option<Cert>
    decreases certs.len(),
{
    if certs.len() == 0 {
        None
    } else if certs[0].primary@ == f {
        Some(certs[0])
    } else {
        spec_cert_for(certs.skip(1), f)
    }
}

/// Validity of a whole capability list.
pub open spec fn certs_wf(certs: Seq<Cert>) -> bool {
    forall|i: int| 0 <= i < certs.len() ==> (#[trigger] certs[i]).wf()
}

/// Looks up the certificate with the given primary fingerprint.
fn cert_for<'a>(certs: &'a Vec<Cert>, f: &Fingerprint) -> (r: Option<&'a Cert>)
    ensures
        r is Some <==> spec_cert_for(certs@, f@) is Some,
        r matches Some(c) ==> spec_cert_for(certs@, f@) == Some(*c),
{
    let n = certs.len();
    let mut i: usize = 0;
    proof {
        assert(certs@.skip(0) =~= certs@);
    }
    while i < n
        invariant
            i <= n,
            n == certs@.len(),
            spec_cert_for(certs@, f@) == spec_cert_for(certs@.skip(i as int), f@),
        decreases n - i,
    {
        if certs[i].primary.equals(f) {
            proof {
                assert(certs@.skip(i as int)[0] == certs@[i as int]);
            }
            return Some(&certs[i]);
        }
        proof {
            assert(certs@.skip(i as int)[0] == certs@[i as int]);
            assert(certs@.skip(i as int).skip(1) =~= certs@.skip(i + 1));
        }
        i += 1;
    }
    proof {
        assert(certs@.skip(n as int).len() == 0);
    }
    None
}

/// A well-formed certificate found for `f` is well-formed.
proof fn lemma_cert_for_wf(certs: Seq<Cert>, f: Seq<char>)
    requires
        certs_wf(certs),
    ensures
        spec_cert_for(certs, f) matches Some(c) ==> c.wf(),
    decreases certs.len(),
{
    if certs.len() > 0 {
        assert(certs[0].wf());
        assert(certs_wf(certs.skip(1))) by {
            assert forall|i: int| 0 <= i < certs.skip(1).len() implies (
            #[trigger] certs.skip(1)[i]).wf() by {
                assert(certs.skip(1)[i] == certs[i + 1]);
            }
        }
        lemma_cert_for_wf(certs.skip(1), f);
    }
}

impl Filesystem {
    /// Both index entries of subkey `k` exist and resolve to the
    /// published record of `f`.
    pub open spec fn subkey_linked(self, k: Seq<char>, f: Seq<char>) -> bool {
        &&& !self.link_collides(self.fpr_link_path(k), f)
        &&& !self.link_collides(self.keyid_link_path(k.subrange(24, 40)), f)
        &&& self.tree().contains_key(self.fpr_link_path(k))
        &&& self.tree().contains_key(self.keyid_link_path(k.subrange(24, 40)))
    }

    /// The certificate the record or entry at `p` resolves to.
    pub open spec fn entry_cert(self, certs: Seq<Cert>, p: Seq<Seq<char>>) -> Cert {
        spec_cert_for(certs, self.primary_hex_of(p)->0)->0
    }

    /// What must hold of one published record: it resolves to its own
    /// fingerprint, a certificate is known for it, every capable subkey
    /// is indexed, and every user-id email is indexed.
    pub open spec fn published_entry_ok(self, certs: Seq<Cert>, p: Seq<Seq<char>>) -> bool {
        &&& self.primary_hex_of(p) is Some
        &&& spec_cert_for(certs, self.primary_hex_of(p)->0) is Some
        &&& fingerprint_valid(merge_spec(p))
        &&& merge_spec(p) == self.primary_hex_of(p)->0
        &&& forall|k: int|
            0 <= k < self.entry_cert(certs, p).capable_keys@.len() ==> self.subkey_linked(
                (#[trigger] self.entry_cert(certs, p).capable_keys@[k])@,
                self.primary_hex_of(p)->0,
            )
        &&& forall|k: int|
            0 <= k < self.entry_cert(certs, p).emails@.len() ==> self.tree().contains_key(
                self.email_link_path((#[trigger] self.entry_cert(certs, p).emails@[k])@),
            )
    }

    /// What must hold of one by-fingerprint entry: it decodes to a
    /// fingerprint that belongs to the certificate it resolves to.
    pub open spec fn fpr_entry_ok(self, certs: Seq<Cert>, p: Seq<Seq<char>>) -> bool {
        &&& fingerprint_valid(merge_spec(p))
        &&& self.primary_hex_of(p) is Some
        &&& spec_cert_for(certs, self.primary_hex_of(p)->0) is Some
        &&& exists|j: int|
            0 <= j < self.entry_cert(certs, p).keys@.len() && (#[trigger] self.entry_cert(
                certs,
                p,
            ).keys@[j])@ == merge_spec(p)
    }

    /// What must hold of one by-keyid entry: it decodes to the key id of
    /// a key of the certificate it resolves to.
    pub open spec fn keyid_entry_ok(self, certs: Seq<Cert>, p: Seq<Seq<char>>) -> bool {
        &&& keyid_valid(merge_spec(p))
        &&& self.primary_hex_of(p) is Some
        &&& spec_cert_for(certs, self.primary_hex_of(p)->0) is Some
        &&& exists|j: int|
            0 <= j < self.entry_cert(certs, p).keys@.len() && (#[trigger] self.entry_cert(
                certs,
                p,
            ).keys@[j])@.subrange(24, 40) == merge_spec(p)
    }

    /// What must hold of one by-email entry: it decodes to a user-id
    /// email of the certificate it resolves to.
    pub open spec fn email_entry_ok(self, certs: Seq<Cert>, p: Seq<Seq<char>>) -> bool {
        &&& Filesystem::email_path_ok(p)
        &&& self.primary_hex_of(p) is Some
        &&& spec_cert_for(certs, self.primary_hex_of(p)->0) is Some
        &&& exists|j: int|
            0 <= j < self.entry_cert(certs, p).emails@.len() && (#[trigger] self.entry_cert(
                certs,
                p,
            ).emails@[j])@ == form_decode(merge_spec(p))
    }

    /// The conditions one store object must meet, by the index or tier
    /// it lies in.
    pub open spec fn entry_consistent(self, certs: Seq<Cert>, p: Seq<Seq<char>>) -> bool {
        &&& is_path_prefix(self.published_dir(), p) ==> self.published_entry_ok(certs, p)
        &&& is_path_prefix(self.by_fpr_dir(), p) ==> self.fpr_entry_ok(certs, p)
        &&& is_path_prefix(self.by_keyid_dir(), p) ==> self.keyid_entry_ok(certs, p)
        &&& is_path_prefix(self.by_email_dir(), p) ==> self.email_entry_ok(certs, p)
    }

    /// The whole store is consistent with the given certificates.
    pub open spec fn consistent_with(self, certs: Seq<Cert>) -> bool {
        forall|p: Seq<Seq<char>>|
            #[trigger] self.tree().contains_key(p) ==> self.entry_consistent(certs, p)
    }

    /// What a violation reported for the published record at `p` says,
    /// by its kind: the stated mismatch really holds and the payload
    /// carries the identifiers of that mismatch.
    pub open spec fn published_violation(self, certs: Seq<Cert>, p: Seq<Seq<char>>, v: Violation) -> bool {
        match v.kind {
            Error::MalformedPath => (!fingerprint_valid(merge_spec(p)) || !(self.primary_hex_of(p)
                is Some)) && v.found@ == merge_spec(p) && v.expected@ == Seq::<char>::empty(),
            Error::WrongOwner => fingerprint_valid(merge_spec(p)) && self.primary_hex_of(p)
                is Some && merge_spec(p) != self.primary_hex_of(p)->0 && v.found@ == merge_spec(p)
                && v.expected@ == self.primary_hex_of(p)->0,
            Error::UnknownCert => self.primary_hex_of(p) is Some && !(spec_cert_for(
                certs,
                self.primary_hex_of(p)->0,
            ) is Some) && v.expected@ == self.primary_hex_of(p)->0 && v.found@
                == Seq::<char>::empty(),
            Error::Collision => self.primary_hex_of(p) is Some && spec_cert_for(
                certs,
                self.primary_hex_of(p)->0,
            ) is Some && v.expected@ == self.primary_hex_of(p)->0 && (exists|j: int|
                0 <= j < self.entry_cert(certs, p).capable_keys@.len() && (
                #[trigger] self.entry_cert(certs, p).capable_keys@[j])@ == v.found@ && (
                self.link_collides(self.fpr_link_path(v.found@), self.primary_hex_of(p)->0)
                    || self.link_collides(
                    self.keyid_link_path(v.found@.subrange(24, 40)),
                    self.primary_hex_of(p)->0,
                ))),
            Error::MissingLink => self.primary_hex_of(p) is Some && spec_cert_for(
                certs,
                self.primary_hex_of(p)->0,
            ) is Some && v.expected@ == self.primary_hex_of(p)->0 && ((exists|j: int|
                0 <= j < self.entry_cert(certs, p).capable_keys@.len() && (
                #[trigger] self.entry_cert(certs, p).capable_keys@[j])@ == v.found@ && !(
                self.tree().contains_key(self.fpr_link_path(v.found@)) && self.tree().contains_key(
                    self.keyid_link_path(v.found@.subrange(24, 40)),
                ))) || (exists|j: int|
                0 <= j < self.entry_cert(certs, p).emails@.len() && (#[trigger] self.entry_cert(
                    certs,
                    p,
                ).emails@[j])@ == v.found@ && !self.tree().contains_key(
                    self.email_link_path(v.found@),
                ))),
            _ => false,
        }
    }

    /// What a violation reported for the by-fingerprint entry at `p`
    /// says, by its kind.
    pub open spec fn fpr_violation(self, certs: Seq<Cert>, p: Seq<Seq<char>>, v: Violation) -> bool {
        match v.kind {
            Error::MalformedPath => (!fingerprint_valid(merge_spec(p)) || !(self.primary_hex_of(p)
                is Some)) && v.found@ == merge_spec(p) && v.expected@ == Seq::<char>::empty(),
            Error::UnknownCert => fingerprint_valid(merge_spec(p)) && self.primary_hex_of(p)
                is Some && !(spec_cert_for(certs, self.primary_hex_of(p)->0) is Some)
                && v.expected@ == self.primary_hex_of(p)->0 && v.found@ == merge_spec(p),
            Error::WrongOwner => fingerprint_valid(merge_spec(p)) && self.primary_hex_of(p)
                is Some && spec_cert_for(certs, self.primary_hex_of(p)->0) is Some && !(exists|
                j: int,
            |
                0 <= j < self.entry_cert(certs, p).keys@.len() && (#[trigger] self.entry_cert(
                    certs,
                    p,
                ).keys@[j])@ == merge_spec(p)) && v.found@ == merge_spec(p) && v.expected@
                == self.primary_hex_of(p)->0,
            _ => false,
        }
    }

    /// What a violation reported for the by-keyid entry at `p` says, by
    /// its kind.
    pub open spec fn keyid_violation(self, certs: Seq<Cert>, p: Seq<Seq<char>>, v: Violation) -> bool {
        match v.kind {
            Error::MalformedPath => (!keyid_valid(merge_spec(p)) || !(self.primary_hex_of(p)
                is Some)) && v.found@ == merge_spec(p) && v.expected@ == Seq::<char>::empty(),
            Error::UnknownCert => keyid_valid(merge_spec(p)) && self.primary_hex_of(p) is Some
                && !(spec_cert_for(certs, self.primary_hex_of(p)->0) is Some) && v.expected@
                == self.primary_hex_of(p)->0 && v.found@ == merge_spec(p),
            Error::WrongOwner => keyid_valid(merge_spec(p)) && self.primary_hex_of(p) is Some
                && spec_cert_for(certs, self.primary_hex_of(p)->0) is Some && !(exists|j: int|
                0 <= j < self.entry_cert(certs, p).keys@.len() && (#[trigger] self.entry_cert(
                    certs,
                    p,
                ).keys@[j])@.subrange(24, 40) == merge_spec(p)) && v.found@ == merge_spec(p)
                && v.expected@ == self.primary_hex_of(p)->0,
            _ => false,
        }
    }

    /// What a violation reported for the by-email entry at `p` says, by
    /// its kind.
    pub open spec fn email_violation(self, certs: Seq<Cert>, p: Seq<Seq<char>>, v: Violation) -> bool {
        match v.kind {
            Error::MalformedPath => (!Filesystem::email_path_ok(p) || !(self.primary_hex_of(p)
                is Some)) && v.found@ == merge_spec(p) && v.expected@ == Seq::<char>::empty(),
            Error::UnknownCert => Filesystem::email_path_ok(p) && self.primary_hex_of(p) is Some
                && !(spec_cert_for(certs, self.primary_hex_of(p)->0) is Some) && v.expected@
                == self.primary_hex_of(p)->0 && v.found@ == form_decode(merge_spec(p)),
            Error::WrongOwner => Filesystem::email_path_ok(p) && self.primary_hex_of(p) is Some
                && spec_cert_for(certs, self.primary_hex_of(p)->0) is Some && !(exists|j: int|
                0 <= j < self.entry_cert(certs, p).emails@.len() && (#[trigger] self.entry_cert(
                    certs,
                    p,
                ).emails@[j])@ == form_decode(merge_spec(p))) && v.found@ == form_decode(
                merge_spec(p),
            ) && v.expected@ == self.primary_hex_of(p)->0,
            _ => false,
        }
    }

    /// A violation report describes a real mismatch at its path, under
    /// whichever tier or index the path lies in.
    pub open spec fn violation_describes(self, certs: Seq<Cert>, p: Seq<Seq<char>>, v: Violation) -> bool {
        ||| (is_path_prefix(self.published_dir(), p) && self.published_violation(certs, p, v))
        ||| (is_path_prefix(self.by_fpr_dir(), p) && self.fpr_violation(certs, p, v))
        ||| (is_path_prefix(self.by_keyid_dir(), p) && self.keyid_violation(certs, p, v))
        ||| (is_path_prefix(self.by_email_dir(), p) && self.email_violation(certs, p, v))
    }

    /// Checks one published record.
    #[verifier::rlimit(60)]
    fn check_published_entry(&self, path: &FsPath, certs: &Vec<Cert>) -> (r: Result<
        (),
        Violation,
    >)
        requires
            self.wf(),
            certs_wf(certs@),
        ensures
            r is Ok <==> self.published_entry_ok(certs@, path@),
            r matches Err(v) ==> v.path@ == path@ && self.published_violation(certs@, path@, v),
    {
        let merged = path_merge(path);
        let fp = match Filesystem::path_to_fingerprint(path) {
            Some(f) => f,
            None => {
                return Err(Violation {
                    kind: Error::MalformedPath,
                    path: path.duplicate(),
                    expected: String::new(),
                    found: merged,
                });
            },
        };
        let primary = match self.path_to_primary(path) {
            Some(f) => f,
            None => {
                return Err(Violation {
                    kind: Error::MalformedPath,
                    path: path.duplicate(),
                    expected: String::new(),
                    found: merged,
                });
            },
        };
        if !fp.equals(&primary) {
            return Err(Violation {
                kind: Error::WrongOwner,
                path: path.duplicate(),
                expected: primary.to_string(),
                found: merged,
            });
        }
        let cert = match cert_for(certs, &primary) {
            Some(c) => c,
            None => {
                return Err(Violation {
                    kind: Error::UnknownCert,
                    path: path.duplicate(),
                    expected: primary.to_string(),
                    found: String::new(),
                });
            },
        };
        proof {
            lemma_cert_for_wf(certs@, primary@);
        }
        let nk = cert.capable_keys.len();
        let mut k: usize = 0;
        while k < nk
            invariant
                self.wf(),
                certs_wf(certs@),
                primary.wf(),
                cert.wf(),
                Some(primary@) == self.primary_hex_of(path@),
                spec_cert_for(certs@, primary@) == Some(*cert),
                fingerprint_valid(merge_spec(path@)),
                merge_spec(path@) == primary@,
                k <= nk,
                nk == cert.capable_keys@.len(),
                forall|j: int|
                    0 <= j < k ==> self.subkey_linked((#[trigger] cert.capable_keys@[j])@, primary@),
            decreases nk - k,
        {
            match self.check_link_fpr(&cert.capable_keys[k], &primary) {
                Err(_) => {
                    proof {
                        assert(!self.subkey_linked(cert.capable_keys@[k as int]@, primary@));
                        assert(self.entry_cert(certs@, path@) == *cert);
                        assert(!self.published_entry_ok(certs@, path@));
                    }
                    return Err(Violation {
                        kind: Error::Collision,
                        path: path.duplicate(),
                        expected: primary.to_string(),
                        found: cert.capable_keys[k].to_string(),
                    });
                },
                Ok(Some(_)) => {
                    proof {
                        assert(!self.subkey_linked(cert.capable_keys@[k as int]@, primary@));
                        assert(self.entry_cert(certs@, path@) == *cert);
                        assert(!self.published_entry_ok(certs@, path@));
                    }
                    return Err(Violation {
                        kind: Error::MissingLink,
                        path: path.duplicate(),
                        expected: primary.to_string(),
                        found: cert.capable_keys[k].to_string(),
                    });
                },
                Ok(None) => {},
            }
            k += 1;
        }
        let ne = cert.emails.len();
        let mut e: usize = 0;
        while e < ne
            invariant
                self.wf(),
                certs_wf(certs@),
                primary.wf(),
                cert.wf(),
                Some(primary@) == self.primary_hex_of(path@),
                spec_cert_for(certs@, primary@) == Some(*cert),
                fingerprint_valid(merge_spec(path@)),
                merge_spec(path@) == primary@,
                forall|j: int|
                    0 <= j < cert.capable_keys@.len() ==> self.subkey_linked(
                        (#[trigger] cert.capable_keys@[j])@,
                        primary@,
                    ),
                e <= ne,
                ne == cert.emails@.len(),
                forall|j: int|
                    0 <= j < e ==> self.tree().contains_key(
                        self.email_link_path((#[trigger] cert.emails@[j])@),
                    ),
            decreases ne - e,
        {
            let link = self.link_by_email(&cert.emails[e]);
            if self.get_node(&link).is_none() {
                proof {
                    assert(!self.tree().contains_key(
                        self.email_link_path(cert.emails@[e as int]@),
                    ));
                    assert(self.entry_cert(certs@, path@) == *cert);
                    assert(!self.published_entry_ok(certs@, path@));
                }
                return Err(Violation {
                    kind: Error::MissingLink,
                    path: path.duplicate(),
                    expected: primary.to_string(),
                    found: cert.emails[e].to_string(),
                });
            }
            e += 1;
        }
        Ok(())
    }

    /// Checks one by-fingerprint index entry.
    #[verifier::rlimit(60)]
    fn check_by_fpr_entry(&self, path: &FsPath, certs: &Vec<Cert>) -> (r: Result<(), Violation>)
        requires
            self.wf(),
            certs_wf(certs@),
        ensures
            r is Ok <==> self.fpr_entry_ok(certs@, path@),
            r matches Err(v) ==> v.path@ == path@ && self.fpr_violation(certs@, path@, v),
    {
        let merged = path_merge(path);
        let id = match Filesystem::path_to_fingerprint(path) {
            Some(f) => f,
            None => {
                return Err(Violation {
                    kind: Error::MalformedPath,
                    path: path.duplicate(),
                    expected: String::new(),
                    found: merged,
                });
            },
        };
        let primary = match self.path_to_primary(path) {
            Some(f) => f,
            None => {
                return Err(Violation {
                    kind: Error::MalformedPath,
                    path: path.duplicate(),
                    expected: String::new(),
                    found: merged,
                });
            },
        };
        let cert = match cert_for(certs, &primary) {
            Some(c) => c,
            None => {
                return Err(Violation {
                    kind: Error::UnknownCert,
                    path: path.duplicate(),
                    expected: primary.to_string(),
                    found: merged,
                });
            },
        };
        let nk = cert.keys.len();
        let mut k: usize = 0;
        while k < nk
            invariant
                self.wf(),
                k <= nk,
                nk == cert.keys@.len(),
                id.wf(),
                id@ == merge_spec(path@),
                Some(primary@) == self.primary_hex_of(path@),
                spec_cert_for(certs@, primary@) == Some(*cert),
                forall|j: int| 0 <= j < k ==> (#[trigger] cert.keys@[j])@ != id@,
            decreases nk - k,
        {
            if cert.keys[k].equals(&id) {
                proof {
                    assert(self.entry_cert(certs@, path@) == *cert);
                    assert((self.entry_cert(certs@, path@).keys@[k as int])@ == merge_spec(path@));
                    assert(self.fpr_entry_ok(certs@, path@));
                }
                return Ok(());
            }
            k += 1;
        }
        proof {
            assert(self.entry_cert(certs@, path@) == *cert);
        }
        Err(Violation {
            kind: Error::WrongOwner,
            path: path.duplicate(),
            expected: primary.to_string(),
            found: merged,
        })
    }

    /// Checks one by-keyid index entry.
    #[verifier::rlimit(60)]
    fn check_by_keyid_entry(&self, path: &FsPath, certs: &Vec<Cert>) -> (r: Result<(), Violation>)
        requires
            self.wf(),
            certs_wf(certs@),
        ensures
            r is Ok <==> self.keyid_entry_ok(certs@, path@),
            r matches Err(v) ==> v.path@ == path@ && self.keyid_violation(certs@, path@, v),
    {
        let merged = path_merge(path);
        let id = match Filesystem::path_to_keyid(path) {
            Some(k) => k,
            None => {
                return Err(Violation {
                    kind: Error::MalformedPath,
                    path: path.duplicate(),
                    expected: String::new(),
                    found: merged,
                });
            },
        };
        let primary = match self.path_to_primary(path) {
            Some(f) => f,
            None => {
                return Err(Violation {
                    kind: Error::MalformedPath,
                    path: path.duplicate(),
                    expected: String::new(),
                    found: merged,
                });
            },
        };
        let cert = match cert_for(certs, &primary) {
            Some(c) => c,
            None => {
                return Err(Violation {
                    kind: Error::UnknownCert,
                    path: path.duplicate(),
                    expected: primary.to_string(),
                    found: merged,
                });
            },
        };
        proof {
            lemma_cert_for_wf(certs@, primary@);
        }
        let nk = cert.keys.len();
        let mut k: usize = 0;
        while k < nk
            invariant
                self.wf(),
                k <= nk,
                nk == cert.keys@.len(),
                cert.wf(),
                id.wf(),
                id@ == merge_spec(path@),
                Some(primary@) == self.primary_hex_of(path@),
                spec_cert_for(certs@, primary@) == Some(*cert),
                forall|j: int| 0 <= j < k ==> (#[trigger] cert.keys@[j])@.subrange(24, 40) != id@,
            decreases nk - k,
        {
            let kid = cert.keys[k].keyid();
            if kid.equals(&id) {
                proof {
                    assert(self.entry_cert(certs@, path@) == *cert);
                    assert((self.entry_cert(certs@, path@).keys@[k as int])@.subrange(24, 40)
                        == merge_spec(path@));
                    assert(self.keyid_entry_ok(certs@, path@));
                }
                return Ok(());
            }
            k += 1;
        }
        proof {
            assert(self.entry_cert(certs@, path@) == *cert);
        }
        Err(Violation {
            kind: Error::WrongOwner,
            path: path.duplicate(),
            expected: primary.to_string(),
            found: merged,
        })
    }

    /// Checks one by-email index entry.
    #[verifier::rlimit(60)]
    fn check_by_email_entry(&self, path: &FsPath, certs: &Vec<Cert>) -> (r: Result<(), Violation>)
        requires
            self.wf(),
            certs_wf(certs@),
        ensures
            r is Ok <==> self.email_entry_ok(certs@, path@),
            r matches Err(v) ==> v.path@ == path@ && self.email_violation(certs@, path@, v),
    {
        let merged = path_merge(path);
        let id = match Filesystem::path_to_email(path) {
            Some(e) => e,
            None => {
                return Err(Violation {
                    kind: Error::MalformedPath,
                    path: path.duplicate(),
                    expected: String::new(),
                    found: merged,
                });
            },
        };
        let primary = match self.path_to_primary(path) {
            Some(f) => f,
            None => {
                return Err(Violation {
                    kind: Error::MalformedPath,
                    path: path.duplicate(),
                    expected: String::new(),
                    found: merged,
                });
            },
        };
        let cert = match cert_for(certs, &primary) {
            Some(c) => c,
            None => {
                return Err(Violation {
                    kind: Error::UnknownCert,
                    path: path.duplicate(),
                    expected: primary.to_string(),
                    found: id.to_string(),
                });
            },
        };
        let ne = cert.emails.len();
        let mut e: usize = 0;
        while e < ne
            invariant
                self.wf(),
                e <= ne,
                ne == cert.emails@.len(),
                id@ == form_decode(merge_spec(path@)),
                Filesystem::email_path_ok(path@),
                Some(primary@) == self.primary_hex_of(path@),
                spec_cert_for(certs@, primary@) == Some(*cert),
                forall|j: int| 0 <= j < e ==> (#[trigger] cert.emails@[j])@ != id@,
            decreases ne - e,
        {
            if cert.emails[e].equals(&id) {
                proof {
                    assert(self.entry_cert(certs@, path@) == *cert);
                    assert((self.entry_cert(certs@, path@).emails@[e as int])@ == form_decode(
                        merge_spec(path@),
                    ));
                    assert(self.email_entry_ok(certs@, path@));
                }
                return Ok(());
            }
            e += 1;
        }
        proof {
            assert(self.entry_cert(certs@, path@) == *cert);
        }
        Err(Violation {
            kind: Error::WrongOwner,
            path: path.duplicate(),
            expected: primary.to_string(),
            found: id.to_string(),
        })
    }

    /// Checks one store object against the conditions of its tier or
    /// index.
    #[verifier::rlimit(60)]
    fn check_entry(&self, path: &FsPath, certs: &Vec<Cert>) -> (r: Result<(), Violation>)
        requires
            self.wf(),
            certs_wf(certs@),
        ensures
            r is Ok <==> self.entry_consistent(certs@, path@),
            r matches Err(v) ==> v.path@ == path@ && self.violation_describes(certs@, path@, v),
    {
        if path.starts_with(&self.keys_dir_published) {
            proof {
                lemma_prefix_excl(self.published_dir(), self.by_fpr_dir(), path@);
                lemma_prefix_excl(self.published_dir(), self.by_keyid_dir(), path@);
                lemma_prefix_excl(self.published_dir(), self.by_email_dir(), path@);
            }
            self.check_published_entry(path, certs)
        } else if path.starts_with(&self.links_dir_by_fingerprint) {
            proof {
                lemma_prefix_excl(self.by_fpr_dir(), self.by_keyid_dir(), path@);
                lemma_prefix_excl(self.by_fpr_dir(), self.by_email_dir(), path@);
            }
            self.check_by_fpr_entry(path, certs)
        } else if path.starts_with(&self.links_dir_by_keyid) {
            proof {
                lemma_prefix_excl(self.by_keyid_dir(), self.by_email_dir(), path@);
            }
            self.check_by_keyid_entry(path, certs)
        } else if path.starts_with(&self.links_dir_by_email) {
            self.check_by_email_entry(path, certs)
        } else {
            Ok(())
        }
    }

    /// Checks the store for consistency: every published record and
    /// every index entry meets the invariants, against the given
    /// certificate capabilities.  Read-only; the first violation found
    /// aborts the pass, reported with its offending path and the
    /// expected and found identifiers, and nothing is repaired.
    #[verifier::rlimit(60)]
    pub fn check_consistency(&self, certs: &Vec<Cert>) -> (r: Result<(), Violation>)
        requires
            self.wf(),
            certs_wf(certs@),
        ensures
            r is Ok <==> self.consistent_with(certs@),
            r matches Err(v) ==> self.tree().contains_key(v.path@) && !self.entry_consistent(
                certs@,
                v.path@,
            ) && self.violation_describes(certs@, v.path@, v),
    {
        let n = self.entries.len();
        let mut i: usize = 0;
        while i < n
            invariant
                self.wf(),
                certs_wf(certs@),
                i <= n,
                n == self.entries@.len(),
                forall|j: int|
                    0 <= j < i ==> self.entry_consistent(certs@, (#[trigger] self.entries@[j]).0@),
            decreases n - i,
        {
            match self.check_entry(&self.entries[i].0, certs) {
                Ok(()) => {},
                Err(v) => {
                    proof {
                        lemma_tree_props(self.entries@);
                        assert(self.tree().contains_key(self.entries@[i as int].0@));
                    }
                    return Err(v);
                },
            }
            i += 1;
        }
        proof {
            lemma_tree_props(self.entries@);
            assert forall|p: Seq<Seq<char>>| #[trigger] self.tree().contains_key(
                p,
            ) implies self.entry_consistent(certs@, p) by {
                let j = choose|j: int|
                    0 <= j < self.entries@.len() && (#[trigger] self.entries@[j]).0@ == p;
            }
        }
        Ok(())
    }
}


/// A path under one root is not under a disjoint one.
proof fn lemma_prefix_excl(a: Seq<Seq<char>>, b: Seq<Seq<char>>, p: Seq<Seq<char>>)
    requires
        roots_disjoint(a, b),
        is_path_prefix(a, p),
    ensures
        !is_path_prefix(b, p),
{
    if is_path_prefix(b, p) {
        if a.len() <= b.len() {
            crate::fspath::lemma_prefix_total(a, b, p);
        } else {
            crate::fspath::lemma_prefix_total(b, a, p);
        }
    }
}

/// The published path of a fingerprint is a normal path of three
/// components under the published directory.
pub proof fn lemma_published_normal(fs: &Filesystem, f: Seq<char>)
    requires
        fs.wf(),
        fingerprint_valid(f),
    ensures
        path_normal(fs.published_path(f)),
        fs.published_path(f).len() == fs.published_dir().len() + 3,
{
    lemma_hex_paths_normal(fs, f);
}

/// The by-fingerprint entry path of a fingerprint is a normal path of
/// three components under its index directory.
pub proof fn lemma_fpr_link_structure(fs: &Filesystem, f: Seq<char>)
    requires
        fs.wf(),
        fingerprint_valid(f),
    ensures
        path_normal(fs.fpr_link_path(f)),
        fs.fpr_link_path(f).len() == fs.by_fpr_dir().len() + 3,
{
    lemma_hex_paths_normal(fs, f);
}

/// The by-email entry path of a canonical address is a normal path of
/// three components under its index directory.
pub proof fn lemma_email_link_structure(fs: &Filesystem, e: Seq<char>)
    requires
        fs.wf(),
        email_valid(e),
    ensures
        path_normal(fs.email_link_path(e)),
        fs.email_link_path(e).len() == fs.by_email_dir().len() + 3,
{
    lemma_email_path_normal(fs, e);
}

/// The by-keyid entry path of a key id is a normal path of three
/// components under its index directory.
pub proof fn lemma_keyid_link_structure(fs: &Filesystem, k: Seq<char>)
    requires
        fs.wf(),
        keyid_valid(k),
    ensures
        path_normal(fs.keyid_link_path(k)),
        fs.keyid_link_path(k).len() == fs.by_keyid_dir().len() + 3,
{
    lemma_split_normal_hex(k);
    crate::fspath::lemma_concat_normal(fs.by_keyid_dir(), split_spec(k));
}

/// The tail of a fingerprint is a key id.
pub proof fn lemma_keyid_of_fingerprint(f: Seq<char>)
    requires
        fingerprint_valid(f),
    ensures
        keyid_valid(f.subrange(24, 40)),
{
    assert forall|i: int| 0 <= i < f.subrange(24, 40).len() implies crate::ident::is_hex_char(
        #[trigger] f.subrange(24, 40)[i],
    ) by {
        assert(f.subrange(24, 40)[i] == f[i + 24]);
    }
}

} // verus!

//! The store's guarantees, stated and proved once for all inputs.
//!
//! Each law here is phrased over the spec functions that the operations'
//! own contracts use, so that together with those contracts it applies to
//! every run of the executable code.

use vstd::prelude::*;
use crate::encode::{form_decode, form_encode, lemma_form_decode_encode, lemma_form_encode_shape};
use crate::fs::{Filesystem, NodeV};
use crate::fspath::{
    is_path_prefix, is_path_suffix, lemma_append_cancel, lemma_drop_last_normal,
    lemma_merge_split, lemma_prefix_extend, lemma_resolve_diff, merge_spec, split_spec,
};
use crate::ident::{
    email_valid, fingerprint_valid, keyid_valid, lemma_email_is_ascii, Query,
};

verus! {

/// Round trip: the reverse path mapping recovers exactly the identifier
/// the forward mapping was applied to, for every identifier of every kind.
pub proof fn lemma_path_round_trip(fs: Filesystem, q: Query)
    requires
        fs.wf(),
        q.wf(),
    ensures
        q matches Query::ByFingerprint(f) ==> fingerprint_valid(
            merge_spec(fs.fpr_link_path(f@)),
        ) && merge_spec(fs.fpr_link_path(f@)) == f@,
        q matches Query::ByKeyID(k) ==> keyid_valid(merge_spec(fs.keyid_link_path(k@)))
            && merge_spec(fs.keyid_link_path(k@)) == k@,
        q matches Query::ByEmail(e) ==> Filesystem::email_path_ok(fs.email_link_path(e@))
            && form_decode(merge_spec(fs.email_link_path(e@))) == e@,
{
    match q {
        Query::ByFingerprint(f) => {
            lemma_merge_split(fs.by_fpr_dir(), f@);
        },
        Query::ByKeyID(k) => {
            lemma_merge_split(fs.by_keyid_dir(), k@);
        },
        Query::ByEmail(e) => {
            lemma_email_is_ascii(e@);
            crate::fspath::lemma_split_normal_encoded(e@);
            lemma_merge_split(fs.by_email_dir(), form_encode(e@));
            lemma_form_encode_shape(e@);
            lemma_form_decode_encode(e@);
            assert(merge_spec(fs.email_link_path(e@)) == form_encode(e@));
            assert(vstd::utf8::is_ascii_chars(form_encode(e@))) by {
                assert forall|j: int| 0 <= j < form_encode(e@).len() implies '\0'
                    <= #[trigger] form_encode(e@)[j] <= '\u{7f}' by {
                    assert(crate::encode::is_unreserved_char(form_encode(e@)[j]) || form_encode(
                        e@,
                    )[j] == '+' || form_encode(e@)[j] == '%');
                }
            }
            assert(form_encode(e@).len() > 0);
        },
    }
}

/// Writing a record and reading it back gives exactly the written
/// content; a second write replaces it with no residue of the first.
pub proof fn lemma_write_then_read_full(
    fs0: Filesystem,
    fs1: Filesystem,
    f: Seq<char>,
    b: Seq<char>,
)
    requires
        fs1.same_config(&fs0),
        fs1.tree() == fs0.tree().insert(fs0.full_path(f), (NodeV::File { content: b, world_readable: false })),
    ensures
        fs1.read_at(fs1.full_path(f)) == Some(b),
{
    assert(fs1.tree().contains_key(fs1.full_path(f)));
    assert(fs1.tree()[fs1.full_path(f)] == (NodeV::File { content: b, world_readable: false }));
}

/// Replacing a record leaves the store as if only the second write had
/// happened.
pub proof fn lemma_replace_leaves_no_residue(
    fs0: Filesystem,
    fs1: Filesystem,
    fs2: Filesystem,
    f: Seq<char>,
    b1: Seq<char>,
    b2: Seq<char>,
)
    requires
        fs1.same_config(&fs0),
        fs2.same_config(&fs1),
        fs1.tree() == fs0.tree().insert(fs0.full_path(f), (NodeV::File { content: b1, world_readable: false })),
        fs2.tree() == fs1.tree().insert(fs1.full_path(f), (NodeV::File { content: b2, world_readable: false })),
    ensures
        fs2.tree() == fs0.tree().insert(fs0.full_path(f), (NodeV::File { content: b2, world_readable: false })),
        fs2.read_at(fs2.full_path(f)) == Some(b2),
{
    assert(fs2.tree() =~= fs0.tree().insert(fs0.full_path(f), (NodeV::File { content: b2, world_readable: false })));
}

/// Create-or-replace is idempotent: linking the same identifier to the
/// same record twice leaves the store exactly as after the first link.
pub proof fn lemma_link_email_idempotent(
    fs0: Filesystem,
    fs1: Filesystem,
    fs2: Filesystem,
    e: Seq<char>,
    f: Seq<char>,
)
    requires
        fs1.same_config(&fs0),
        fs2.same_config(&fs1),
        fs1.tree() == fs0.tree().insert(
            fs0.email_link_path(e),
            (NodeV::Link { target: fs0.expected_target(fs0.email_link_path(e), f) }),
        ),
        fs2.tree() == fs1.tree().insert(
            fs1.email_link_path(e),
            (NodeV::Link { target: fs1.expected_target(fs1.email_link_path(e), f) }),
        ),
    ensures
        fs2.tree() == fs1.tree(),
{
    assert(fs2.tree() =~= fs1.tree());
}

/// Distinct fingerprints have distinct published paths, and distinct
/// expected link targets from any one link.
pub proof fn lemma_published_paths_distinct(fs: Filesystem, f1: Seq<char>, f2: Seq<char>)
    requires
        fs.wf(),
        fingerprint_valid(f1),
        fingerprint_valid(f2),
        f1 != f2,
    ensures
        fs.published_path(f1) != fs.published_path(f2),
{
    if fs.published_path(f1) == fs.published_path(f2) {
        lemma_append_cancel(fs.published_dir(), split_spec(f1), split_spec(f2));
        lemma_merge_split(fs.published_dir(), f1);
        lemma_merge_split(fs.published_dir(), f2);
    }
}

/// Unlink removes only a matching link: an entry linking `e` to `f1`
/// survives an unlink that names a different fingerprint `f2`.
pub proof fn lemma_unlink_email_non_matching(
    fs: Filesystem,
    e: Seq<char>,
    f1: Seq<char>,
    f2: Seq<char>,
)
    requires
        fs.wf(),
        email_valid(e),
        fingerprint_valid(f1),
        fingerprint_valid(f2),
        f1 != f2,
        fs.tree().contains_key(fs.email_link_path(e)),
        fs.tree()[fs.email_link_path(e)] == (NodeV::Link {
            target: fs.expected_target(fs.email_link_path(e), f1),
        }),
    ensures
        Filesystem::remove_if_holds(
            fs.tree(),
            fs.email_link_path(e),
            (NodeV::Link { target: fs.expected_target(fs.email_link_path(e), f2) }),
        ) == fs.tree(),
{
    let link = fs.email_link_path(e);
    crate::fs::lemma_email_link_structure(&fs, e);
    let parent = link.drop_last();
    lemma_drop_last_normal(link);
    crate::fs::lemma_published_normal(&fs, f1);
    crate::fs::lemma_published_normal(&fs, f2);
    if fs.expected_target(link, f1) == fs.expected_target(link, f2) {
        lemma_resolve_diff(fs.published_path(f1), parent);
        lemma_resolve_diff(fs.published_path(f2), parent);
        assert(fs.published_path(f1) == fs.published_path(f2));
        lemma_published_paths_distinct(fs, f1, f2);
    }
}

/// Collision detection: an index entry that already resolves to the
/// published record of `f1` collides with any attempt to claim it for a
/// different primary `f2`, so the pre-link check refuses to relink.
pub proof fn lemma_collision_detected(fs: Filesystem, e: Seq<char>, f1: Seq<char>, f2: Seq<char>)
    requires
        fs.wf(),
        fingerprint_valid(e),
        fingerprint_valid(f1),
        fingerprint_valid(f2),
        f1 != f2,
        fs.tree().contains_key(fs.fpr_link_path(e)),
        fs.tree()[fs.fpr_link_path(e)] == (NodeV::Link {
            target: fs.expected_target(fs.fpr_link_path(e), f1),
        }),
        fs.tree().contains_key(fs.published_path(f1)),
    ensures
        fs.link_collides(fs.fpr_link_path(e), f2),
{
    let link = fs.fpr_link_path(e);
    crate::fs::lemma_fpr_link_structure(&fs, e);
    let parent = link.drop_last();
    lemma_drop_last_normal(link);
    crate::fs::lemma_published_normal(&fs, f1);
    crate::fs::lemma_published_normal(&fs, f2);
    lemma_resolve_diff(fs.published_path(f1), parent);
    assert(link.len() > 0);
    assert(fs.canonicalize_spec(link) == Some(fs.published_path(f1)));
    if is_path_suffix(fs.published_path(f2), fs.published_path(f1)) {
        assert(fs.published_path(f1).len() == fs.published_dir().len() + 3);
        assert(fs.published_path(f2).len() == fs.published_dir().len() + 3);
        assert(fs.published_path(f2) == fs.published_path(f1).subrange(
            0,
            fs.published_path(f1).len() as int,
        ));
        assert(fs.published_path(f1).subrange(0, fs.published_path(f1).len() as int) =~= fs
            .published_path(f1));
        lemma_published_paths_distinct(fs, f1, f2);
    }
}

/// Path confinement: every path the layout builds from an identifier
/// lies inside the subtree of its own tier or index, so no identifier
/// can name a file outside the configured roots.
pub proof fn lemma_identifier_paths_confined(fs: Filesystem, q: Query)
    requires
        fs.wf(),
        q.wf(),
    ensures
        q matches Query::ByFingerprint(f) ==> is_path_prefix(fs.internal_dir(), fs.full_path(f@))
            && is_path_prefix(fs.internal_dir(), fs.quarantined_path(f@)) && is_path_prefix(
            fs.external_dir(),
            fs.published_path(f@),
        ) && is_path_prefix(fs.external_dir(), fs.fpr_link_path(f@)),
        q matches Query::ByKeyID(k) ==> is_path_prefix(fs.external_dir(), fs.keyid_link_path(k@)),
        q matches Query::ByEmail(e) ==> is_path_prefix(fs.external_dir(), fs.email_link_path(e@)),
{
    match q {
        Query::ByFingerprint(f) => {
            assert(fs.full_path(f@) =~= fs.internal_dir() + (seq!["full"@] + split_spec(f@)));
            lemma_prefix_extend(fs.internal_dir(), seq!["full"@] + split_spec(f@));
            assert(fs.quarantined_path(f@) =~= fs.internal_dir() + (seq!["quarantined"@, f@]));
            lemma_prefix_extend(fs.internal_dir(), seq!["quarantined"@, f@]);
            assert(fs.published_path(f@) =~= fs.external_dir() + (seq!["pub"@] + split_spec(f@)));
            lemma_prefix_extend(fs.external_dir(), seq!["pub"@] + split_spec(f@));
            assert(fs.fpr_link_path(f@) =~= fs.external_dir() + (seq!["links"@, "by-fpr"@]
                + split_spec(f@)));
            lemma_prefix_extend(fs.external_dir(), seq!["links"@, "by-fpr"@] + split_spec(f@));
        },
        Query::ByKeyID(k) => {
            assert(fs.keyid_link_path(k@) =~= fs.external_dir() + (seq!["links"@, "by-keyid"@]
                + split_spec(k@)));
            lemma_prefix_extend(fs.external_dir(), seq!["links"@, "by-keyid"@] + split_spec(k@));
        },
        Query::ByEmail(e) => {
            assert(fs.email_link_path(e@) =~= fs.external_dir() + (seq!["links"@, "by-email"@]
                + split_spec(form_encode(e@))));
            lemma_prefix_extend(
                fs.external_dir(),
                seq!["links"@, "by-email"@] + split_spec(form_encode(e@)),
            );
        },
    }
}

/// Create-or-replace is idempotent for subkey links too: linking the
/// same fingerprint to the same record twice leaves the store exactly as
/// after the first link.
pub proof fn lemma_link_fpr_idempotent(
    fs0: Filesystem,
    fs1: Filesystem,
    fs2: Filesystem,
    e: Seq<char>,
    f: Seq<char>,
)
    requires
        fs1.same_config(&fs0),
        fs2.same_config(&fs1),
        fs1.tree() == fs0.tree().insert(
            fs0.fpr_link_path(e),
            (NodeV::Link { target: fs0.expected_target(fs0.fpr_link_path(e), f) }),
        ).insert(
            fs0.keyid_link_path(e.subrange(24, 40)),
            (NodeV::Link { target: fs0.expected_target(fs0.fpr_link_path(e), f) }),
        ),
        fs2.tree() == fs1.tree().insert(
            fs1.fpr_link_path(e),
            (NodeV::Link { target: fs1.expected_target(fs1.fpr_link_path(e), f) }),
        ).insert(
            fs1.keyid_link_path(e.subrange(24, 40)),
            (NodeV::Link { target: fs1.expected_target(fs1.fpr_link_path(e), f) }),
        ),
    ensures
        fs2.tree() == fs1.tree(),
{
    assert(fs2.tree() =~= fs1.tree());
}

/// Unlink removes only matching subkey links: entries linking `e` to
/// `f1` survive an unlink that names a different fingerprint `f2`.
pub proof fn lemma_unlink_fpr_non_matching(
    fs: Filesystem,
    e: Seq<char>,
    f1: Seq<char>,
    f2: Seq<char>,
)
    requires
        fs.wf(),
        fingerprint_valid(e),
        fingerprint_valid(f1),
        fingerprint_valid(f2),
        f1 != f2,
        fs.tree().contains_key(fs.fpr_link_path(e)),
        fs.tree()[fs.fpr_link_path(e)] == (NodeV::Link {
            target: fs.expected_target(fs.fpr_link_path(e), f1),
        }),
        fs.tree().contains_key(fs.keyid_link_path(e.subrange(24, 40))),
        fs.tree()[fs.keyid_link_path(e.subrange(24, 40))] == (NodeV::Link {
            target: fs.expected_target(fs.fpr_link_path(e), f1),
        }),
    ensures
        Filesystem::remove_if_holds(
            Filesystem::remove_if_holds(
                fs.tree(),
                fs.fpr_link_path(e),
                (NodeV::Link { target: fs.expected_target(fs.fpr_link_path(e), f2) }),
            ),
            fs.keyid_link_path(e.subrange(24, 40)),
            (NodeV::Link { target: fs.expected_target(fs.fpr_link_path(e), f2) }),
        ) == fs.tree(),
{
    let link = fs.fpr_link_path(e);
    crate::fs::lemma_fpr_link_structure(&fs, e);
    let parent = link.drop_last();
    lemma_drop_last_normal(link);
    crate::fs::lemma_published_normal(&fs, f1);
    crate::fs::lemma_published_normal(&fs, f2);
    if fs.expected_target(link, f1) == fs.expected_target(link, f2) {
        lemma_resolve_diff(fs.published_path(f1), parent);
        lemma_resolve_diff(fs.published_path(f2), parent);
        assert(fs.published_path(f1) == fs.published_path(f2));
        lemma_published_paths_distinct(fs, f1, f2);
    }
}

/// After linking a subkey, the pre-link check finds both entries in
/// place and resolving to the right published record: no collision and
/// nothing missing.  The by-keyid entry carries the same relative target
/// as the by-fingerprint one, computed from the latter's directory; both
/// index directories sit at the same depth, so the shared target resolves
/// to the same published record from either.
pub proof fn lemma_linked_subkey_checks_clean(fs: Filesystem, e: Seq<char>, f: Seq<char>)
    requires
        fs.wf(),
        fingerprint_valid(e),
        fingerprint_valid(f),
        fs.tree().contains_key(fs.fpr_link_path(e)),
        fs.tree()[fs.fpr_link_path(e)] == (NodeV::Link {
            target: fs.expected_target(fs.fpr_link_path(e), f),
        }),
        fs.tree().contains_key(fs.keyid_link_path(e.subrange(24, 40))),
        fs.tree()[fs.keyid_link_path(e.subrange(24, 40))] == (NodeV::Link {
            target: fs.expected_target(fs.fpr_link_path(e), f),
        }),
        fs.tree().contains_key(fs.published_path(f)),
    ensures
        fs.subkey_linked(e, f),
{
    let link = fs.fpr_link_path(e);
    let kid = e.subrange(24, 40);
    let kid_link = fs.keyid_link_path(kid);
    let published = fs.published_path(f);
    crate::fs::lemma_fpr_link_structure(&fs, e);
    crate::fs::lemma_keyid_of_fingerprint(e);
    crate::fs::lemma_keyid_link_structure(&fs, kid);
    crate::fs::lemma_published_normal(&fs, f);
    let parent = link.drop_last();
    let home = kid_link.drop_last();
    lemma_drop_last_normal(link);
    lemma_drop_last_normal(kid_link);
    assert(is_path_suffix(published, published)) by {
        assert(published.subrange(0, published.len() as int) =~= published);
    }
    // The by-fingerprint entry resolves to the published record.
    lemma_resolve_diff(published, parent);
    assert(fs.canonicalize_spec(link) == Some(published));
    // The by-keyid entry shares the target and resolves there as well.
    let ext = fs.external_dir();
    assert(published =~= ext + (seq!["pub"@] + split_spec(f)));
    assert(parent =~= ext + seq!["links"@, "by-fpr"@, split_spec(e)[0], split_spec(e)[1]]) by {
        assert(link =~= ext + seq![
            "links"@,
            "by-fpr"@,
            split_spec(e)[0],
            split_spec(e)[1],
            split_spec(e)[2],
        ]);
    }
    assert(home =~= ext + seq![
        "links"@,
        "by-keyid"@,
        split_spec(kid)[0],
        split_spec(kid)[1],
    ]) by {
        assert(kid_link =~= ext + seq![
            "links"@,
            "by-keyid"@,
            split_spec(kid)[0],
            split_spec(kid)[1],
            split_spec(kid)[2],
        ]);
    }
    let k = crate::fspath::common_prefix_len(published, parent);
    assert(k == ext.len()) by {
        crate::fspath::lemma_common_prefix_extend(
            ext,
            seq!["pub"@] + split_spec(f),
            seq!["links"@, "by-fpr"@, split_spec(e)[0], split_spec(e)[1]],
        );
        reveal_strlit("pub");
        reveal_strlit("links");
        assert((seq!["pub"@] + split_spec(f))[0] == "pub"@);
        assert(seq!["links"@, "by-fpr"@, split_spec(e)[0], split_spec(e)[1]][0] == "links"@);
        assert("pub"@.len() != "links"@.len());
    }
    assert(home.take(k) =~= published.take(k));
    crate::fspath::lemma_resolve_diff_other(published, parent, home);
    assert(fs.canonicalize_spec(kid_link) == Some(published));
}

/// A replacement is atomic at the level of whole records: after one
/// write, every path holds either exactly what it held before or exactly
/// the new record — no path ever holds a mixture of old and new content.
/// A reader racing the writer therefore observes one of the two complete
/// states; that the on-disk rename exposes no third state is the shell's
/// obligation, not provable here.
pub proof fn lemma_replace_exposes_whole_records(
    fs0: Filesystem,
    fs1: Filesystem,
    f: Seq<char>,
    b: Seq<char>,
)
    requires
        fs1.same_config(&fs0),
        fs1.tree() == fs0.tree().insert(fs0.published_path(f), (NodeV::File { content: b, world_readable: true })),
    ensures
        forall|q: Seq<Seq<char>>|
            #[trigger] fs1.tree().contains_key(q) ==> (q == fs0.published_path(f)
                && fs1.tree()[q] == (NodeV::File { content: b, world_readable: true })) || (fs0.tree().contains_key(q)
                && fs1.tree()[q] == fs0.tree()[q]),
{
}

} // verus!

//! Front-end context types and the email encoding helpers.

use hagrid_fs::encode::{decode_input_ok, form_urldecode, form_urlencode};
use hagrid_fs::web::{Confirm, Delete, Domain, FiveHundred, General, Index, Search, Verify, XAccelRedirect};

#[test]
fn index_context_carries_error() {
    let ctx = Index::new(Some(String::from("Key not found")));
    assert_eq!(ctx.error, Some(String::from("Key not found")));
    assert_eq!(ctx.version, "");
    assert_eq!(ctx.commit, "");

    let ctx = Index::new(None);
    assert_eq!(ctx.error, None);
}

#[test]
fn context_types_hold_their_fields() {
    let v = Verify {
        verified: true,
        userid: String::from("a@invalid.example.org"),
        fpr: String::from("CBCD8F03"),
        domain: String::from("invalid.example.org"),
        commit: String::new(),
        version: String::new(),
    };
    assert!(v.verified);

    let d = Delete {
        token: String::from("token"),
        fpr: String::from("CBCD8F03"),
        commit: String::new(),
        version: String::new(),
    };
    assert_eq!(d.token, "token");

    let s = Search {
        query: String::from("q"),
        fpr: None,
        domain: None,
        commit: String::new(),
        version: String::new(),
    };
    assert_eq!(s.query, "q");

    let c = Confirm { deleted: false, commit: String::new(), version: String::new() };
    assert!(!c.deleted);

    let e = FiveHundred {
        error: String::from("boom"),
        commit: String::new(),
        version: String::new(),
    };
    assert_eq!(e.error, "boom");

    let g = General { commit: String::new(), version: String::new() };
    assert_eq!(g.commit, "");

    let Domain(domain) = Domain(String::from("invalid.example.org"));
    assert_eq!(domain, "invalid.example.org");

    let XAccelRedirect(enabled) = XAccelRedirect(true);
    assert!(enabled);
}

#[test]
fn form_encoding_has_exact_shape() {
    assert_eq!(form_urlencode("a+b c@x.y"), "a%2Bb+c%40x.y");
    assert_eq!(form_urlencode("plain-name_0.9*"), "plain-name_0.9*");
    assert_eq!(form_urlencode(""), "");
}

#[test]
fn form_decoding_inverts_encoding() {
    let encoded = form_urlencode("a+b c@x.y");
    assert_eq!(form_urldecode(&encoded), Some(String::from("a+b c@x.y")));
    assert_eq!(form_urldecode("a%40b"), Some(String::from("a@b")));
}

#[test]
fn decode_input_guard_rejects_unsafe_strings() {
    assert!(decode_input_ok("a%40b"));
    assert!(!decode_input_ok(""));
    // Form separators would split the input into several pairs.
    assert!(!decode_input_ok("a=b"));
    assert!(!decode_input_ok("a&b"));
    // An escape above ASCII would not decode losslessly.
    assert!(!decode_input_ok("a%FFb"));
    // An incomplete escape is kept literally and is fine.
    assert!(decode_input_ok("a%zqb"));
}

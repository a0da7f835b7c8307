//! Identifier types: fingerprints, key ids and email addresses.
//!
//! Identifiers are opaque, already-validated value types with a canonical
//! string form.  A fingerprint is 40 upper-case hex characters, a key id is
//! the last 16 hex characters of a fingerprint, and an email address is a
//! printable ASCII string with an interior `@`.

use vstd::prelude::*;
use vstd::utf8::is_ascii_chars;

verus! {

/// A canonical hex digit: decimal or upper-case.
pub open spec fn is_hex_char(c: char) -> bool {
    ('0' <= c && c <= '9') || ('A' <= c && c <= 'F')
}

/// A string of exactly `n` canonical hex digits.
pub open spec fn is_hex_string(s: Seq<char>, n: nat) -> bool {
    s.len() == n && forall|i: int| 0 <= i < s.len() ==> is_hex_char(#[trigger] s[i])
}

/// The canonical form of a fingerprint: 40 hex digits.
pub open spec fn fingerprint_valid(s: Seq<char>) -> bool {
    is_hex_string(s, 40)
}

/// The canonical form of a key id: 16 hex digits.
pub open spec fn keyid_valid(s: Seq<char>) -> bool {
    is_hex_string(s, 16)
}

/// Characters admitted in a canonical email address: printable ASCII
/// without the space character.
pub open spec fn email_char_ok(c: char) -> bool {
    '!' <= c && c <= '~'
}

/// The canonical form of an email address: printable ASCII with a
/// non-empty local part, an interior `@`, and a non-empty domain; neither
/// end is a dot and no two dots are adjacent, as in unquoted address syntax.
pub open spec fn email_valid(s: Seq<char>) -> bool {
    &&& 3 <= s.len()
    &&& forall|i: int| 0 <= i < s.len() ==> email_char_ok(#[trigger] s[i])
    &&& exists|i: int| 0 < i < s.len() - 1 && s[i] == '@'
    &&& s[0] != '.'
    &&& s[s.len() - 1] != '.'
    &&& forall|i: int| 0 <= i < s.len() - 1 ==> !(#[trigger] s[i] == '.' && s[i + 1] == '.')
}

/// Hex strings are ASCII.
pub proof fn lemma_hex_is_ascii(s: Seq<char>)
    requires
        forall|i: int| 0 <= i < s.len() ==> is_hex_char(#[trigger] s[i]),
    ensures
        is_ascii_chars(s),
{
    assert forall|i: int| 0 <= i < s.len() implies '\0' <= #[trigger] s[i] <= '\u{7f}' by {
        assert(is_hex_char(s[i]));
    }
}

/// Valid email strings are ASCII.
pub proof fn lemma_email_is_ascii(s: Seq<char>)
    requires
        forall|i: int| 0 <= i < s.len() ==> email_char_ok(#[trigger] s[i]),
    ensures
        is_ascii_chars(s),
{
    assert forall|i: int| 0 <= i < s.len() implies '\0' <= #[trigger] s[i] <= '\u{7f}' by {
        assert(email_char_ok(s[i]));
    }
}

/// The primary identifier of a certificate: 40 canonical hex characters.
#[derive(Debug, Clone, PartialEq, Eq)]
pub struct Fingerprint {
    hex: String,
}

impl View for Fingerprint {
    type V = Seq<char>;

    closed spec fn view(&self) -> Seq<char> {
        self.hex@
    }
}

impl Fingerprint {
    /// The canonical-form invariant.
    pub open spec fn wf(&self) -> bool {
        fingerprint_valid(self@)
    }

    /// Parses the canonical form; rejects anything else.
    pub fn from_str(s: &str) -> (r: Option<Fingerprint>)
        ensures
            r is Some <==> fingerprint_valid(s@),
            r matches Some(f) ==> f@ == s@ && f.wf(),
    {
        if check_hex(s, 40) {
            Some(Fingerprint { hex: s.to_owned() })
        } else {
            None
        }
    }

    /// The canonical string form.
    pub fn as_str(&self) -> (r: &str)
        ensures
            r@ == self@,
    {
        self.hex.as_str()
    }

    /// The canonical string form, as an owned string.
    pub fn to_string(&self) -> (r: String)
        ensures
            r@ == self@,
    {
        self.hex.clone()
    }

    /// An exact copy.
    pub fn duplicate(&self) -> (r: Fingerprint)
        ensures
            r@ == self@,
    {
        Fingerprint { hex: self.hex.clone() }
    }

    /// Equality on the canonical form.
    pub fn equals(&self, other: &Fingerprint) -> (r: bool)
        ensures
            r == (self@ == other@),
    {
        self.hex == other.hex
    }

    /// The key id of this fingerprint: its last 16 hex characters.
    pub fn keyid(&self) -> (r: KeyID)
        requires
            self.wf(),
        ensures
            r@ == self@.subrange(24, 40),
            r.wf(),
    {
        proof {
            lemma_hex_is_ascii(self@);
        }
        let tail = self.hex.as_str().substring_ascii(24, 40);
        KeyID { hex: tail.to_owned() }
    }
}

/// The short identifier of a key: 16 canonical hex characters.
#[derive(Debug, Clone, PartialEq, Eq)]
pub struct KeyID {
    hex: String,
}

impl View for KeyID {
    type V = Seq<char>;

    closed spec fn view(&self) -> Seq<char> {
        self.hex@
    }
}

impl KeyID {
    /// The canonical-form invariant.
    pub open spec fn wf(&self) -> bool {
        keyid_valid(self@)
    }

    /// Parses the canonical form; rejects anything else.
    pub fn from_str(s: &str) -> (r: Option<KeyID>)
        ensures
            r is Some <==> keyid_valid(s@),
            r matches Some(k) ==> k@ == s@ && k.wf(),
    {
        if check_hex(s, 16) {
            Some(KeyID { hex: s.to_owned() })
        } else {
            None
        }
    }

    /// The canonical string form.
    pub fn as_str(&self) -> (r: &str)
        ensures
            r@ == self@,
    {
        self.hex.as_str()
    }

    /// The canonical string form, as an owned string.
    pub fn to_string(&self) -> (r: String)
        ensures
            r@ == self@,
    {
        self.hex.clone()
    }

    /// An exact copy.
    pub fn duplicate(&self) -> (r: KeyID)
        ensures
            r@ == self@,
    {
        KeyID { hex: self.hex.clone() }
    }

    /// Equality on the canonical form.
    pub fn equals(&self, other: &KeyID) -> (r: bool)
        ensures
            r == (self@ == other@),
    {
        self.hex == other.hex
    }
}

/// A canonical email address.
#[derive(Debug, Clone, PartialEq, Eq)]
pub struct Email {
    addr: String,
}

impl View for Email {
    type V = Seq<char>;

    closed spec fn view(&self) -> Seq<char> {
        self.addr@
    }
}

impl Email {
    /// The canonical-form invariant.
    pub open spec fn wf(&self) -> bool {
        email_valid(self@)
    }

    /// Parses the canonical form; rejects anything else.
    pub fn from_str(s: &str) -> (r: Option<Email>)
        ensures
            r is Some <==> email_valid(s@),
            r matches Some(e) ==> e@ == s@ && e.wf(),
    {
        if check_email(s) {
            Some(Email { addr: s.to_owned() })
        } else {
            None
        }
    }

    /// The canonical string form.
    pub fn as_str(&self) -> (r: &str)
        ensures
            r@ == self@,
    {
        self.addr.as_str()
    }

    /// The canonical string form, as an owned string.
    pub fn to_string(&self) -> (r: String)
        ensures
            r@ == self@,
    {
        self.addr.clone()
    }

    /// An exact copy.
    pub fn duplicate(&self) -> (r: Email)
        ensures
            r@ == self@,
    {
        Email { addr: self.addr.clone() }
    }

    /// Equality on the canonical form.
    pub fn equals(&self, other: &Email) -> (r: bool)
        ensures
            r == (self@ == other@),
    {
        self.addr == other.addr
    }
}

/// A lookup query: one identifier of any of the three kinds.
#[derive(Debug, Clone, PartialEq, Eq)]
pub enum Query {
    ByFingerprint(Fingerprint),
    ByKeyID(KeyID),
    ByEmail(Email),
}

impl Query {
    /// Validity of the identifier inside.
    pub open spec fn wf(&self) -> bool {
        match self {
            Query::ByFingerprint(f) => f.wf(),
            Query::ByKeyID(k) => k.wf(),
            Query::ByEmail(e) => e.wf(),
        }
    }
}

/// Checks that `s` is exactly `n` canonical hex digits.
fn check_hex(s: &str, n: usize) -> (r: bool)
    ensures
        r == is_hex_string(s@, n as nat),
{
    let len = s.unicode_len();
    if len != n {
        return false;
    }
    let mut i: usize = 0;
    while i < len
        invariant
            len == s@.len(),
            i <= len,
            forall|j: int| 0 <= j < i ==> is_hex_char(#[trigger] s@[j]),
        decreases len - i,
    {
        let c = s.get_char(i);
        if !(('0' <= c && c <= '9') || ('A' <= c && c <= 'F')) {
            return false;
        }
        i += 1;
    }
    true
}

/// Checks that `s` is a canonical email address.
fn check_email(s: &str) -> (r: bool)
    ensures
        r == email_valid(s@),
{
    let len = s.unicode_len();
    if len < 3 {
        return false;
    }
    if s.get_char(0) == '.' {
        return false;
    }
    if s.get_char(len - 1) == '.' {
        return false;
    }
    let mut i: usize = 0;
    let mut found_at = false;
    while i < len
        invariant
            len == s@.len(),
            3 <= len,
            i <= len,
            forall|j: int| 0 <= j < i ==> email_char_ok(#[trigger] s@[j]),
            found_at <==> exists|j: int| 0 < j < i && j < len - 1 && s@[j] == '@',
            forall|j: int| 0 <= j < i && j < len - 1 ==> !(#[trigger] s@[j] == '.' && s@[j + 1] == '.'),
        decreases len - i,
    {
        let c = s.get_char(i);
        if !('!' <= c && c <= '~') {
            return false;
        }
        if c == '@' && i > 0 && i + 1 < len {
            found_at = true;
        }
        if c == '.' && i + 1 < len {
            if s.get_char(i + 1) == '.' {
                return false;
            }
        }
        i += 1;
    }
    found_at
}

} // verus!

//! Form-urlencoding of email addresses.
//!
//! Email identifiers are percent-encoded before they are split into path
//! components, so that a symlink name is always a plain ASCII path segment
//! and round-trips losslessly through encode and decode.  The encoding is
//! the `application/x-www-form-urlencoded` byte serialization, performed by
//! the `url` crate; the spec functions here state it exactly, and the
//! round-trip law is proved over them.

use vstd::prelude::*;
use vstd::utf8::is_ascii_chars;

verus! {

/// A byte the form-urlencoded serializer passes through unchanged:
/// alphanumerics and `*`, `-`, `.`, `_`.
pub open spec fn is_unreserved_char(c: char) -> bool {
    ||| c == '*'
    ||| c == '-'
    ||| c == '.'
    ||| c == '_'
    ||| ('0' <= c && c <= '9')
    ||| ('A' <= c && c <= 'Z')
    ||| ('a' <= c && c <= 'z')
}

/// A hex digit of either case.
pub open spec fn is_any_hex_char(c: char) -> bool {
    ||| ('0' <= c && c <= '9')
    ||| ('A' <= c && c <= 'F')
    ||| ('a' <= c && c <= 'f')
}

/// The value of a hex digit of either case.
pub open spec fn hex_char_value(c: char) -> u32
    recommends
        is_any_hex_char(c),
{
    if '0' <= c && c <= '9' {
        (c as u32 - 48) as u32
    } else if 'A' <= c && c <= 'F' {
        (c as u32 - 55) as u32
    } else if 'a' <= c && c <= 'f' {
        (c as u32 - 87) as u32
    } else {
        0
    }
}

/// The upper-case hex digit for a value below 16.
pub open spec fn upper_hex_char(v: u32) -> char
    recommends
        v < 16,
{
    if v < 10 {
        ((48 + v) as u32) as char
    } else {
        ((55 + v) as u32) as char
    }
}

/// The form-urlencoding of one ASCII character: unchanged if unreserved,
/// `+` for a space, a `%`-escape with two upper-case hex digits otherwise.
pub open spec fn encode_char(c: char) -> Seq<char>
    recommends
        (c as u32) < 128,
{
    if c == ' ' {
        seq!['+']
    } else if is_unreserved_char(c) {
        seq![c]
    } else {
        seq!['%', upper_hex_char(c as u32 / 16), upper_hex_char(c as u32 % 16)]
    }
}

/// The form-urlencoding of an ASCII string, character by character.
pub open spec fn form_encode(s: Seq<char>) -> Seq<char>
    decreases s.len(),
{
    if s.len() == 0 {
        Seq::empty()
    } else {
        encode_char(s[0]) + form_encode(s.skip(1))
    }
}

/// Form-urldecoding: `+` becomes a space, a `%` followed by two hex digits
/// becomes the character they spell, and everything else stays.
pub open spec fn form_decode(s: Seq<char>) -> Seq<char>
    decreases s.len(),
{
    if s.len() == 0 {
        Seq::empty()
    } else if s[0] == '%' && s.len() >= 3 && is_any_hex_char(s[1]) && is_any_hex_char(s[2]) {
        seq![((16 * hex_char_value(s[1]) + hex_char_value(s[2])) as u32) as char] + form_decode(
            s.skip(3),
        )
    } else if s[0] == '+' {
        seq![' '] + form_decode(s.skip(1))
    } else {
        seq![s[0]] + form_decode(s.skip(1))
    }
}

/// No `&` or `=`: the input decodes as one name with an empty value.
pub open spec fn no_form_separators(s: Seq<char>) -> bool {
    forall|i: int| 0 <= i < s.len() ==> #[trigger] s[i] != '&' && s[i] != '='
}

/// Every complete `%`-escape spells an ASCII character, so decoding stays
/// within ASCII and is lossless.
pub open spec fn decode_safe(s: Seq<char>) -> bool {
    forall|i: int|
        0 <= i && i + 2 < s.len() && #[trigger] s[i] == '%' && is_any_hex_char(s[i + 1])
            && is_any_hex_char(s[i + 2]) ==> 16 * hex_char_value(s[i + 1]) + hex_char_value(
            s[i + 2],
        ) < 128
}

/// Relies on `url::form_urlencoded::byte_serialize`: each input byte is
/// serialized on its own — alphanumerics and `*-._` unchanged, a space as
/// `+`, any other byte as `%` and two upper-case hex digits.
#[verifier::external_body]
pub fn form_urlencode(s: &str) -> (r: String)
    requires
        s.is_ascii(),
    ensures
        r@ == form_encode(s@),
{
    url::form_urlencoded::byte_serialize(s.as_bytes()).collect()
}

/// Relies on `url::form_urlencoded::parse`: a non-empty input without `&`
/// or `=` yields exactly one pair whose name is the input with `+` turned
/// into a space and every complete `%`-escape decoded.
#[verifier::external_body]
pub fn form_urldecode(s: &str) -> (r: Option<String>)
    requires
        s.is_ascii(),
        s@.len() > 0,
        no_form_separators(s@),
        decode_safe(s@),
    ensures
        r is Some,
        r matches Some(d) ==> d@ == form_decode(s@),
{
    url::form_urlencoded::parse(s.as_bytes()).next().map(|(k, _v)| k.into_owned())
}

/// The value of a hex digit, computed.
pub fn hex_value(c: char) -> (r: u32)
    ensures
        is_any_hex_char(c) ==> r == hex_char_value(c),
{
    if '0' <= c && c <= '9' {
        c as u32 - 48
    } else if 'A' <= c && c <= 'F' {
        c as u32 - 55
    } else if 'a' <= c && c <= 'f' {
        c as u32 - 87
    } else {
        0
    }
}

/// Whether `c` is a hex digit, computed.
pub fn is_hex(c: char) -> (r: bool)
    ensures
        r == is_any_hex_char(c),
{
    ('0' <= c && c <= '9') || ('A' <= c && c <= 'F') || ('a' <= c && c <= 'f')
}

/// Checks that a string may be handed to [`form_urldecode`]: non-empty
/// ASCII, no form separators, and no `%`-escape above ASCII.
pub fn decode_input_ok(s: &str) -> (r: bool)
    ensures
        r == (s@.len() > 0 && is_ascii_chars(s@) && no_form_separators(s@) && decode_safe(s@)),
{
    if !s.is_ascii() {
        return false;
    }
    let n = s.unicode_len();
    if n == 0 {
        return false;
    }
    let mut i: usize = 0;
    while i < n
        invariant
            n == s@.len(),
            i <= n,
            is_ascii_chars(s@),
            forall|j: int| 0 <= j < i ==> #[trigger] s@[j] != '&' && s@[j] != '=',
            forall|j: int|
                0 <= j < i && j + 2 < n && #[trigger] s@[j] == '%' && is_any_hex_char(s@[j + 1])
                    && is_any_hex_char(s@[j + 2]) ==> 16 * hex_char_value(s@[j + 1])
                    + hex_char_value(s@[j + 2]) < 128,
        decreases n - i,
    {
        let c = s.get_char(i);
        if c == '&' || c == '=' {
            return false;
        }
        if c == '%' && n - i > 2 {
            let c1 = s.get_char(i + 1);
            let c2 = s.get_char(i + 2);
            if is_hex(c1) && is_hex(c2) {
                if 16 * hex_value(c1) + hex_value(c2) >= 128 {
                    return false;
                }
            }
        }
        i += 1;
    }
    true
}

/// Facts about the encoding of one ASCII character: it is short, it is made
/// of unreserved characters, `+` and `%` only, and a `%` opens a complete
/// ASCII escape.
proof fn lemma_encode_char_shape(c: char)
    requires
        (c as u32) < 128,
    ensures
        1 <= encode_char(c).len() <= 3,
        forall|j: int|
            0 <= j < encode_char(c).len() ==> is_unreserved_char(#[trigger] encode_char(c)[j])
                || encode_char(c)[j] == '+' || encode_char(c)[j] == '%',
        encode_char(c)[0] == '%' ==> encode_char(c).len() == 3 && is_any_hex_char(encode_char(c)[1])
            && is_any_hex_char(encode_char(c)[2]) && 16 * hex_char_value(encode_char(c)[1])
            + hex_char_value(encode_char(c)[2]) == c as u32,
        encode_char(c)[0] != '%' ==> encode_char(c).len() == 1,
{
    if c != ' ' && !is_unreserved_char(c) {
        let hi = upper_hex_char(c as u32 / 16);
        let lo = upper_hex_char(c as u32 % 16);
        lemma_upper_hex_char(c as u32 / 16);
        lemma_upper_hex_char(c as u32 % 16);
        assert(16 * hex_char_value(hi) + hex_char_value(lo) == c as u32);
    }
}

/// An upper-case hex digit for a value below 16 is a hex digit with that
/// value, and is alphanumeric.
proof fn lemma_upper_hex_char(v: u32)
    requires
        v < 16,
    ensures
        is_any_hex_char(upper_hex_char(v)),
        is_unreserved_char(upper_hex_char(v)),
        hex_char_value(upper_hex_char(v)) == v,
{
}

/// The encoding of an ASCII string consists of unreserved characters, `+`
/// and `%`; it never shrinks; every `%` opens a complete ASCII escape; and
/// it holds no form separators.
pub proof fn lemma_form_encode_shape(s: Seq<char>)
    requires
        is_ascii_chars(s),
    ensures
        form_encode(s).len() >= s.len(),
        forall|j: int|
            0 <= j < form_encode(s).len() ==> is_unreserved_char(#[trigger] form_encode(s)[j])
                || form_encode(s)[j] == '+' || form_encode(s)[j] == '%',
        no_form_separators(form_encode(s)),
        decode_safe(form_encode(s)),
        forall|i: int|
            0 <= i < s.len() && !is_unreserved_char(#[trigger] s[i]) && s[i] != ' '
                ==> form_encode(s).len() >= s.len() + 2,
    decreases s.len(),
{
    if s.len() == 0 {
    } else {
        let c = s[0];
        let e = encode_char(c);
        let rest = form_encode(s.skip(1));
        assert(is_ascii_chars(s.skip(1))) by {
            assert forall|i: int| 0 <= i < s.skip(1).len() implies '\0' <= #[trigger] s.skip(1)[i]
                <= '\u{7f}' by {
                assert(s.skip(1)[i] == s[i + 1]);
            }
        }
        lemma_form_encode_shape(s.skip(1));
        lemma_encode_char_shape(c);
        assert(form_encode(s) == e + rest);
        // Character set.
        assert forall|j: int| 0 <= j < form_encode(s).len() implies is_unreserved_char(
            #[trigger] form_encode(s)[j],
        ) || form_encode(s)[j] == '+' || form_encode(s)[j] == '%' by {
            if j < e.len() {
                assert(form_encode(s)[j] == e[j]);
            } else {
                assert(form_encode(s)[j] == rest[j - e.len()]);
            }
        }
        // No separators follows from the character set.
        assert forall|j: int| 0 <= j < form_encode(s).len() implies #[trigger] form_encode(s)[j]
            != '&' && form_encode(s)[j] != '=' by {
            assert(is_unreserved_char(form_encode(s)[j]) || form_encode(s)[j] == '+' || form_encode(
                s,
            )[j] == '%');
        }
        // Every complete escape is ASCII.
        assert forall|i: int|
            0 <= i && i + 2 < form_encode(s).len() && #[trigger] form_encode(s)[i] == '%'
                && is_any_hex_char(form_encode(s)[i + 1]) && is_any_hex_char(
                form_encode(s)[i + 2],
            ) implies 16 * hex_char_value(form_encode(s)[i + 1]) + hex_char_value(
            form_encode(s)[i + 2],
        ) < 128 by {
            if i < e.len() {
                // A `%` inside `e` stands at its head, and its escape spells `c`.
                assert(e[i] == form_encode(s)[i]);
                if e[0] == '%' {
                    assert(i == 0 || !(e[i] == '%'));
                    if i == 0 {
                        assert(form_encode(s)[1] == e[1]);
                        assert(form_encode(s)[2] == e[2]);
                    }
                } else {
                    assert(e.len() == 1 && i == 0);
                    assert(!(e[0] == '%'));
                }
            } else {
                let k = i - e.len();
                assert(form_encode(s)[i] == rest[k]);
                assert(form_encode(s)[i + 1] == rest[k + 1]);
                assert(form_encode(s)[i + 2] == rest[k + 2]);
                assert(decode_safe(rest));
            }
        }
        // Length growth.
        assert forall|i: int|
            0 <= i < s.len() && !is_unreserved_char(#[trigger] s[i]) && s[i] != ' ' implies
        form_encode(s).len() >= s.len() + 2 by {
            if i == 0 {
                assert(e.len() == 3);
            } else {
                assert(s.skip(1)[i - 1] == s[i]);
                assert(rest.len() >= s.skip(1).len() + 2);
            }
        }
    }
}

/// A dot in the encoding stands for a dot of the input: encoding keeps a
/// dot-free boundary and never creates two adjacent dots.
pub proof fn lemma_form_encode_dots(s: Seq<char>)
    requires
        is_ascii_chars(s),
        s.len() > 0,
        forall|i: int| 0 <= i < s.len() - 1 ==> !(#[trigger] s[i] == '.' && s[i + 1] == '.'),
    ensures
        form_encode(s).len() > 0,
        (form_encode(s)[0] == '.') == (s[0] == '.'),
        (form_encode(s)[form_encode(s).len() - 1] == '.') == (s[s.len() - 1] == '.'),
        forall|i: int|
            0 <= i < form_encode(s).len() - 1 ==> !(#[trigger] form_encode(s)[i] == '.'
                && form_encode(s)[i + 1] == '.'),
    decreases s.len(),
{
    let c = s[0];
    let e = encode_char(c);
    let whole = form_encode(s);
    lemma_encode_char_shape(c);
    assert((e[0] == '.') == (c == '.'));
    assert((e[e.len() - 1] == '.') == (c == '.'));
    assert(forall|i: int| 0 <= i < e.len() - 1 ==> !(#[trigger] e[i] == '.' && e[i + 1] == '.'));
    if s.len() == 1 {
        assert(whole == e + form_encode(s.skip(1)));
        assert(s.skip(1).len() == 0);
        assert(form_encode(s.skip(1)) =~= Seq::<char>::empty());
        assert(whole =~= e);
    } else {
        let rest = form_encode(s.skip(1));
        assert(is_ascii_chars(s.skip(1))) by {
            assert forall|i: int| 0 <= i < s.skip(1).len() implies '\0' <= #[trigger] s.skip(1)[i]
                <= '\u{7f}' by {
                assert(s.skip(1)[i] == s[i + 1]);
            }
        }
        assert(forall|i: int|
            0 <= i < s.skip(1).len() - 1 ==> !(#[trigger] s.skip(1)[i] == '.' && s.skip(1)[i + 1]
                == '.')) by {
            assert forall|i: int|
                0 <= i < s.skip(1).len() - 1 implies !(#[trigger] s.skip(1)[i] == '.' && s.skip(
                1,
            )[i + 1] == '.') by {
                assert(s.skip(1)[i] == s[i + 1]);
                assert(s.skip(1)[i + 1] == s[i + 2]);
            }
        }
        lemma_form_encode_dots(s.skip(1));
        assert(whole == e + rest);
        assert(rest.len() > 0);
        assert(whole[0] == e[0]);
        assert(whole[whole.len() - 1] == rest[rest.len() - 1]);
        assert(s.skip(1)[s.skip(1).len() - 1] == s[s.len() - 1]);
        assert forall|i: int| 0 <= i < whole.len() - 1 implies !(#[trigger] whole[i] == '.'
            && whole[i + 1] == '.') by {
            if i + 1 < e.len() {
                assert(whole[i] == e[i] && whole[i + 1] == e[i + 1]);
            } else if i == e.len() - 1 {
                assert(whole[i] == e[i] && whole[i + 1] == rest[0]);
                assert((rest[0] == '.') == (s.skip(1)[0] == '.'));
                assert(s.skip(1)[0] == s[1]);
                assert(!(s[0] == '.' && s[1] == '.'));
                assert((e[e.len() - 1] == '.') == (s[0] == '.'));
            } else {
                let k = i - e.len();
                assert(whole[i] == rest[k] && whole[i + 1] == rest[k + 1]);
            }
        }
    }
}

/// Round trip: decoding the encoding of an ASCII string gives it back.
pub proof fn lemma_form_decode_encode(s: Seq<char>)
    requires
        is_ascii_chars(s),
    ensures
        form_decode(form_encode(s)) == s,
    decreases s.len(),
{
    if s.len() == 0 {
        assert(form_decode(form_encode(s)) =~= s);
    } else {
        let c = s[0];
        let e = encode_char(c);
        let rest = form_encode(s.skip(1));
        let whole = form_encode(s);
        assert(is_ascii_chars(s.skip(1))) by {
            assert forall|i: int| 0 <= i < s.skip(1).len() implies '\0' <= #[trigger] s.skip(1)[i]
                <= '\u{7f}' by {
                assert(s.skip(1)[i] == s[i + 1]);
            }
        }
        lemma_form_decode_encode(s.skip(1));
        lemma_encode_char_shape(c);
        assert(whole == e + rest);
        if c == ' ' {
            assert(whole[0] == '+');
            assert(whole.skip(1) =~= rest);
            assert(form_decode(whole) == seq![' '] + form_decode(rest));
            assert(form_decode(whole) =~= s);
        } else if is_unreserved_char(c) {
            assert(whole[0] == c);
            assert(c != '%' && c != '+');
            assert(whole.skip(1) =~= rest);
            assert(form_decode(whole) == seq![c] + form_decode(rest));
            assert(form_decode(whole) =~= s);
        } else {
            assert(whole[0] == '%');
            assert(whole.len() >= 3);
            assert(whole[1] == e[1] && whole[2] == e[2]);
            assert(16 * hex_char_value(whole[1]) + hex_char_value(whole[2]) == c as u32);
            assert(((c as u32) as char) == c) by {
                vstd::utf8::char_u32_cast(c, c as u32);
            }
            assert(whole.skip(3) =~= rest);
            assert(form_decode(whole) == seq![c] + form_decode(rest));
            assert(form_decode(whole) =~= s);
        }
    }
}

/// The encoding is injective on ASCII strings.
pub proof fn lemma_form_encode_injective(a: Seq<char>, b: Seq<char>)
    requires
        is_ascii_chars(a),
        is_ascii_chars(b),
        form_encode(a) == form_encode(b),
    ensures
        a == b,
{
    lemma_form_decode_encode(a);
    lemma_form_decode_encode(b);
}

} // verus!

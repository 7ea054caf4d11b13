//! Identifiers: what they look like, how new ones are made, and how a string
//! is told from one.
//!
//! An identifier has the form `did:<method>:<id>`, with a method and an id
//! that are not empty and a method without a colon.

use crate::random::random_bytes;
use vstd::prelude::*;
use vstd::string::StringExecFns;

verus! {

/// Whether `s` has the form of an identifier: `did:`, a method that is not
/// empty and holds no colon, a colon, and an id that is not empty.
pub open spec fn is_identifier(s: Seq<char>) -> bool {
    exists|colon: int|
        {
            &&& 4 < colon < s.len() - 1
            &&& s.subrange(0, 4) == "did:"@
            &&& #[trigger] s[colon] == ':'
            &&& forall|i: int| 4 <= i < colon ==> s[i] != ':'
        }
}

/// A digit of lower-case hexadecimal.
pub open spec fn is_lower_hex(c: char) -> bool {
    ('0' <= c && c <= '9') || ('a' <= c && c <= 'f')
}

/// The text of a UUID: five groups of lower-case hexadecimal digits,
/// 8-4-4-4-12, with hyphens between them.
pub open spec fn is_uuid_text(s: Seq<char>) -> bool {
    &&& s.len() == 36
    &&& forall|i: int|
        0 <= i < 36 ==> if i == 8 || i == 13 || i == 18 || i == 23 {
            s[i] == '-'
        } else {
            is_lower_hex(#[trigger] s[i])
        }
}

/// The lower-case hexadecimal digit for a number from 0 to 15.
pub open spec fn hex_digit(nibble: int) -> char {
    if nibble < 10 {
        (('0' as u8) + nibble) as u8 as char
    } else {
        (('a' as u8) + nibble - 10) as u8 as char
    }
}

/// The number of hyphens in the text of a UUID before position `i`.
pub open spec fn hyphens_before(i: int) -> int {
    if i < 8 {
        0
    } else if i < 13 {
        1
    } else if i < 18 {
        2
    } else if i < 23 {
        3
    } else {
        4
    }
}

/// The text of the UUID made of 16 bytes: each byte as two hexadecimal digits,
/// the high half first, in the order of the bytes, with hyphens after the
/// fourth, sixth, eighth and tenth byte.
pub open spec fn uuid_text_of(bytes: Seq<u8>) -> Seq<char> {
    Seq::new(
        36,
        |i: int|
            if i == 8 || i == 13 || i == 18 || i == 23 {
                '-'
            } else {
                let digit = i - hyphens_before(i);
                let byte = bytes[digit / 2] as int;
                if digit % 2 == 0 {
                    hex_digit(byte / 16)
                } else {
                    hex_digit(byte % 16)
                }
            },
    )
}

/// What every generated identifier looks like: `did:example:` and the text of
/// a UUID.
pub open spec fn is_generated_did(s: Seq<char>) -> bool {
    &&& s.len() == 48
    &&& s.subrange(0, 12) == "did:example:"@
    &&& is_uuid_text(s.subrange(12, 48))
}

/// A generated identifier has the form of an identifier.
pub proof fn lemma_generated_is_identifier(s: Seq<char>)
    requires
        is_generated_did(s),
    ensures
        is_identifier(s),
{
    reveal_strlit("did:example:");
    reveal_strlit("did:");
    let prefix = s.subrange(0, 12);
    assert forall|i: int| 0 <= i < 12 implies s[i] == "did:example:"@[i] by {
        assert(s[i] == prefix[i]);
    }
    assert(s.subrange(0, 4) =~= "did:"@);
    assert(s[11] == ':');
}

/// The text of the UUID made of any 16 bytes has the shape of a UUID's text.
pub proof fn lemma_uuid_text_shape(bytes: Seq<u8>)
    requires
        bytes.len() == 16,
    ensures
        is_uuid_text(uuid_text_of(bytes)),
{
    let text = uuid_text_of(bytes);
    assert forall|i: int| 0 <= i < 36 && !(i == 8 || i == 13 || i == 18 || i == 23) implies
        is_lower_hex(#[trigger] text[i]) by {
        let digit = i - hyphens_before(i);
        let byte = bytes[digit / 2] as int;
        assert(0 <= byte / 16 < 16 && 0 <= byte % 16 < 16);
    }
}

/// Calls `uuid::Uuid::from_slice`, which takes any 16 bytes as a UUID, and
/// formats the result with `to_string`: lower-case hexadecimal, hyphenated.
#[verifier::external_body]
fn uuid_text(bytes: &Vec<u8>) -> (text: String)
    requires
        bytes@.len() == 16,
    ensures
        text@ == uuid_text_of(bytes@),
{
    uuid::Uuid::from_slice(bytes).unwrap().to_string()
}

/// The identifier with the given text of a UUID as its last part.
pub fn identifier_from_uuid_text(uuid_text: &str) -> (did: String)
    ensures
        did@ == "did:example:"@ + uuid_text@,
        is_uuid_text(uuid_text@) ==> is_generated_did(did@) && is_identifier(did@),
{
    let mut did = "did:example:".to_owned();
    proof {
        reveal_strlit("did:example:");
    }
    did.append(uuid_text);
    proof {
        if is_uuid_text(uuid_text@) {
            assert(did@.subrange(0, 12) =~= "did:example:"@);
            assert(did@.subrange(12, 48) =~= uuid_text@);
            lemma_generated_is_identifier(did@);
        }
    }
    did
}

/// The identifier made of the given 16 bytes: `did:example:` and the text of
/// the UUID that the bytes are. Any other number of bytes makes none.
pub fn identifier_from_bytes(bytes: &Vec<u8>) -> (did: Option<String>)
    ensures
        did is Some <==> bytes@.len() == 16,
        did matches Some(d) ==> {
            &&& d@ == "did:example:"@ + uuid_text_of(bytes@)
            &&& is_generated_did(d@)
            &&& is_identifier(d@)
        },
{
    if bytes.len() != 16 {
        return None;
    }
    proof {
        lemma_uuid_text_shape(bytes@);
    }
    let text = uuid_text(bytes);
    Some(identifier_from_uuid_text(text.as_str()))
}

/// A new identifier, made of 16 bytes drawn at random: all 128 bits of its
/// last part are random.
pub fn generate() -> (did: String)
    ensures
        is_generated_did(did@),
        is_identifier(did@),
{
    let bytes = random_bytes(16);
    proof {
        lemma_uuid_text_shape(bytes@);
    }
    let text = uuid_text(&bytes);
    identifier_from_uuid_text(text.as_str())
}

/// The characters of `s`.
fn chars_of(s: &str) -> (chars: Vec<char>)
    ensures
        chars@ == s@,
{
    let mut chars: Vec<char> = Vec::new();
    for c in it: s.chars()
        invariant
            chars@ == it.seq().take(it.index() as int),
            it.seq() == s@,
    {
        chars.push(c);
    }
    chars
}

/// Whether `did` has the form of an identifier.
pub fn is_well_formed(did: &str) -> (ok: bool)
    ensures
        ok == is_identifier(did@),
{
    let chars = chars_of(did);
    let n = chars.len();
    proof {
        reveal_strlit("did:");
    }
    if n < 4 || chars[0] != 'd' || chars[1] != 'i' || chars[2] != 'd' || chars[3] != ':' {
        assert(!is_identifier(did@)) by {
            if is_identifier(did@) {
                let prefix = did@.subrange(0, 4);
                assert(prefix.len() == 4);
                assert(prefix[0] == did@[0] && prefix[1] == did@[1] && prefix[2] == did@[2]
                    && prefix[3] == did@[3]);
            }
        }
        return false;
    }
    assert(did@.subrange(0, 4) =~= "did:"@);
    let mut colon: usize = 4;
    while colon < n && chars[colon] != ':'
        invariant
            4 <= colon <= n,
            n == chars@.len(),
            chars@ == did@,
            forall|i: int| 4 <= i < colon ==> did@[i] != ':',
        decreases n - colon,
    {
        colon += 1;
    }
    let ok = 4 < colon && colon < n - 1;
    proof {
        if ok {
            assert(did@[colon as int] == ':');
        } else if is_identifier(did@) {
            let c = choose|c: int|
                {
                    &&& 4 < c < did@.len() - 1
                    &&& did@.subrange(0, 4) == "did:"@
                    &&& #[trigger] did@[c] == ':'
                    &&& forall|i: int| 4 <= i < c ==> did@[i] != ':'
                };
            assert(c == colon) by {
                if c < colon {
                    assert(did@[c] != ':');
                } else if colon < c {
                    assert(did@[colon as int] != ':');
                }
            }
        }
    }
    ok
}

} // verus!

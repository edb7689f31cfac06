//! Session tokens: an identity written as bytes, signed with a secret, and
//! carried as text; and the reading of such a text back into the identity,
//! which fails on any text that was not signed with the same secret.

use crate::hex::{
    bytes_of_hex, digit_value, from_hex, hex_of, is_hex, lemma_hex_canonical,
    lemma_hex_round_trip, to_hex,
};
use crate::text::{
    find_char, first_index_of, lemma_first_index_of, lemma_first_index_of_is, optional_text,
    same_bytes,
};
use hmac::Mac;
use vstd::bytes::{
    lemma_auto_spec_u64_to_from_le_bytes, spec_u64_from_le_bytes, spec_u64_to_le_bytes,
    u64_from_le_bytes, u64_to_le_bytes,
};
use vstd::prelude::*;
use vstd::slice::{slice_subrange, slice_to_vec};
use vstd::utf8::{decode_utf8, encode_utf8, valid_utf8};

verus! {

/// The identity that a session token carries.
#[derive(Debug, PartialEq, Eq)]
pub struct Token {
    pub username: String,
    pub email: Option<String>,
}

/// Who a user is, as contracts speak of it: what a `Token` carries.
pub struct Identity {
    pub username: Seq<char>,
    pub email: Option<Seq<char>>,
}

impl View for Token {
    type V = Identity;

    open spec fn view(&self) -> Identity {
        Identity { username: self.username@, email: optional_text(self.email) }
    }
}

/// Why a text was not accepted as a session token.
#[derive(Debug, Clone, Copy, PartialEq, Eq)]
pub enum DecodeError {
    /// The text is not a payload with the signature that the secret gives
    /// it.
    InvalidToken,
    /// The signature is right, but the payload does not hold an identity.
    MalformedToken,
}

/// The HMAC-SHA256 authentication code of `message` under `key`.
pub uninterp spec fn hmac_sha256(key: Seq<u8>, message: Seq<u8>) -> Seq<u8>;

/// Computes the authentication code of `message` under `key` with the
/// `hmac` crate's `Hmac<Sha256>`: `new_from_slice`, which takes a key of any
/// length, then `update` and `finalize`. The contract claims only that the
/// code is a function of the key and the message.
#[verifier::external_body]
fn authentication_code(key: &[u8], message: &[u8]) -> (code: Vec<u8>)
    ensures
        code@ == hmac_sha256(key@, message@),
{
    let mut mac = hmac::Hmac::<sha2::Sha256>::new_from_slice(key).expect("a key of any length");
    mac.update(message);
    mac.finalize().into_bytes().to_vec()
}

/// Reads `bytes` as text with std's `String::from_utf8`, which accepts
/// exactly the valid UTF-8 and keeps the bytes as they are.
#[verifier::external_body]
fn text_of_utf8(bytes: Vec<u8>) -> (text: Option<String>)
    ensures
        text is Some <==> valid_utf8(bytes@),
        text matches Some(t) ==> encode_utf8(t@) == bytes@,
{
    match String::from_utf8(bytes) {
        Ok(t) => Some(t),
        Err(_) => None,
    }
}

/// Whether the identity can be written as a payload: the length of the
/// user name in bytes is written in eight bytes.
pub open spec fn writable(t: Identity) -> bool {
    encode_utf8(t.username).len() <= u64::MAX
}

/// The identity as bytes: one byte that tells whether there is an email,
/// the length of the user name in eight bytes, the user name, the email.
pub open spec fn payload_of(t: Identity) -> Seq<u8> {
    let name = encode_utf8(t.username);
    let has_email: u8 = if t.email is Some { 1 } else { 0 };
    let email = match t.email {
        Some(e) => encode_utf8(e),
        None => Seq::empty(),
    };
    seq![has_email] + spec_u64_to_le_bytes(name.len() as u64) + name + email
}

/// The identity that a payload holds, if it holds one.
pub open spec fn parse_payload(p: Seq<u8>) -> Option<Identity> {
    if p.len() < 9 {
        None
    } else {
        let n = spec_u64_from_le_bytes(p.subrange(1, 9)) as int;
        if p[0] > 1 || n > p.len() - 9 {
            None
        } else {
            let name = p.subrange(9, 9 + n);
            let email = p.subrange(9 + n, p.len() as int);
            if !valid_utf8(name) || !valid_utf8(email) || (p[0] == 0 && email.len() > 0) {
                None
            } else {
                Some(
                    Identity {
                        username: decode_utf8(name),
                        email: if p[0] == 1 {
                            Some(decode_utf8(email))
                        } else {
                            None
                        },
                    },
                )
            }
        }
    }
}

/// The text of a token: the payload and its authentication code, each in
/// hexadecimal, with a full stop between them.
pub open spec fn token_text(payload: Seq<u8>, code: Seq<u8>) -> Seq<char> {
    hex_of(payload) + seq!['.'] + hex_of(code)
}

/// The payload and the code that a text holds, if it has the form of a
/// token.
pub open spec fn token_parts(text: Seq<char>) -> Option<(Seq<u8>, Seq<u8>)> {
    let dot = first_index_of(text, '.');
    if dot >= text.len() {
        None
    } else {
        let left = text.take(dot);
        let right = text.skip(dot + 1);
        if is_hex(left) && is_hex(right) {
            Some((bytes_of_hex(left), bytes_of_hex(right)))
        } else {
            None
        }
    }
}

/// The token of an identity under a secret.
pub open spec fn encoded(t: Identity, secret: Seq<char>) -> Seq<char> {
    token_text(payload_of(t), hmac_sha256(encode_utf8(secret), payload_of(t)))
}

/// What a payload that came with `code` gives, where `expected` is the code
/// that the secret gives it: the identity it holds, or the reason for which
/// it is refused.
pub open spec fn accepted(payload: Seq<u8>, code: Seq<u8>, expected: Seq<u8>) -> Result<
    Identity,
    DecodeError,
> {
    if code != expected {
        Err(DecodeError::InvalidToken)
    } else {
        match parse_payload(payload) {
            None => Err(DecodeError::MalformedToken),
            Some(t) => Ok(t),
        }
    }
}

/// What reading a text under a secret gives: the identity, or the reason
/// for which the text is refused.
pub open spec fn decoded(text: Seq<char>, secret: Seq<char>) -> Result<Identity, DecodeError> {
    match token_parts(text) {
        None => Err(DecodeError::InvalidToken),
        Some((payload, code)) => accepted(
            payload,
            code,
            hmac_sha256(encode_utf8(secret), payload),
        ),
    }
}

/// A text put together from a payload and a code comes apart into the
/// same two.
pub proof fn lemma_token_parts_of_text(payload: Seq<u8>, code: Seq<u8>)
    ensures
        token_parts(token_text(payload, code)) == Some((payload, code)),
{
    let text = token_text(payload, code);
    let dot = hex_of(payload).len() as int;
    lemma_hex_round_trip(payload);
    lemma_hex_round_trip(code);
    assert forall|j: int| 0 <= j < dot implies #[trigger] text[j] != '.' by {
        assert(text[j] == hex_of(payload)[j]);
        assert(digit_value(hex_of(payload)[j]) is Some);
    }
    lemma_first_index_of_is(text, '.', dot);
    assert(text.take(dot) =~= hex_of(payload));
    assert(text.skip(dot + 1) =~= hex_of(code));
}

/// A text that comes apart into a payload and a code is the text put
/// together from them: no other text holds the same two.
pub proof fn lemma_text_of_token_parts(text: Seq<char>)
    requires
        token_parts(text) is Some,
    ensures
        text == token_text(token_parts(text).unwrap().0, token_parts(text).unwrap().1),
{
    let dot = first_index_of(text, '.');
    lemma_first_index_of(text, '.');
    lemma_hex_canonical(text.take(dot));
    lemma_hex_canonical(text.skip(dot + 1));
    assert(text =~= text.take(dot) + seq!['.'] + text.skip(dot + 1));
}

/// The payload written for an identity holds that identity.
pub proof fn lemma_parse_payload_of(t: Identity)
    requires
        writable(t),
    ensures
        parse_payload(payload_of(t)) == Some(t),
{
    broadcast use {vstd::utf8::encode_utf8_valid_utf8, vstd::utf8::encode_utf8_decode_utf8};

    lemma_auto_spec_u64_to_from_le_bytes();
    let name = encode_utf8(t.username);
    let email = match t.email {
        Some(e) => encode_utf8(e),
        None => Seq::empty(),
    };
    let p = payload_of(t);
    let width = spec_u64_to_le_bytes(name.len() as u64);
    assert(p.subrange(1, 9) =~= width);
    let split = 9 + name.len() as int;
    assert(p.subrange(9, split) =~= name);
    assert(p.subrange(split, p.len() as int) =~= email);
    assert(valid_utf8(Seq::<u8>::empty()));
}

/// A payload that holds an identity is the payload written for it: no
/// other bytes hold the same identity.
pub proof fn lemma_payload_of_parsed(p: Seq<u8>)
    requires
        parse_payload(p) is Some,
    ensures
        writable(parse_payload(p).unwrap()),
        payload_of(parse_payload(p).unwrap()) == p,
{
    broadcast use vstd::utf8::decode_utf8_encode_utf8;

    lemma_auto_spec_u64_to_from_le_bytes();
    let t = parse_payload(p).unwrap();
    let n = spec_u64_from_le_bytes(p.subrange(1, 9)) as int;
    let name = p.subrange(9, 9 + n);
    let email = p.subrange(9 + n, p.len() as int);
    assert(encode_utf8(t.username) == name);
    assert(spec_u64_to_le_bytes(n as u64) == p.subrange(1, 9));
    if p[0] == 0 {
        assert(email =~= Seq::<u8>::empty());
    }
    assert(payload_of(t) =~= p);
}

/// Reading a token with the secret it was written with gives back the
/// identity it was written for.
pub proof fn lemma_round_trip(t: Identity, secret: Seq<char>)
    requires
        writable(t),
    ensures
        decoded(encoded(t, secret), secret) == Ok::<Identity, DecodeError>(t),
{
    let p = payload_of(t);
    lemma_token_parts_of_text(p, hmac_sha256(encode_utf8(secret), p));
    lemma_parse_payload_of(t);
}

/// A text is read as an identity only if it is the token written for that
/// identity with the same secret.
pub proof fn lemma_decoded_is_encoded(text: Seq<char>, secret: Seq<char>)
    requires
        decoded(text, secret) is Ok,
    ensures
        writable(decoded(text, secret).unwrap()),
        text == encoded(decoded(text, secret).unwrap(), secret),
{
    lemma_text_of_token_parts(text);
    lemma_payload_of_parsed(token_parts(text).unwrap().0);
}

/// A text that is not the token of an identity is never read as that
/// identity; where it is read as another, it is the token of that other one.
pub proof fn lemma_changed_token(t: Identity, secret: Seq<char>, text: Seq<char>)
    requires
        text != encoded(t, secret),
    ensures
        decoded(text, secret) != Ok::<Identity, DecodeError>(t),
        decoded(text, secret) matches Ok(other) ==> other != t && text == encoded(other, secret),
{
    if decoded(text, secret) is Ok {
        lemma_decoded_is_encoded(text, secret);
    }
}

/// Reading a token with another secret fails with `InvalidToken`, unless
/// the other secret gives the payload the same authentication code.
pub proof fn lemma_other_secret(t: Identity, secret: Seq<char>, other: Seq<char>)
    requires
        writable(t),
        hmac_sha256(encode_utf8(other), payload_of(t)) != hmac_sha256(
            encode_utf8(secret),
            payload_of(t),
        ),
    ensures
        decoded(encoded(t, secret), other) == Err::<Identity, DecodeError>(
            DecodeError::InvalidToken,
        ),
{
    let p = payload_of(t);
    lemma_token_parts_of_text(p, hmac_sha256(encode_utf8(secret), p));
}

/// Text made of hexadecimal digits holds no full stop.
proof fn lemma_hex_has_no_dot(s: Seq<char>, len: int)
    requires
        0 <= len <= s.len(),
        forall|j: int| 0 <= j < len ==> digit_value(#[trigger] s[j]) is Some,
    ensures
        forall|j: int| 0 <= j < len ==> #[trigger] s[j] != '.',
{
    assert forall|j: int| 0 <= j < len implies #[trigger] s[j] != '.' by {
        assert(digit_value(s[j]) is Some);
    }
}

/// A token cut short at any place is refused with `InvalidToken`.
pub proof fn lemma_truncated(t: Identity, secret: Seq<char>, keep: int)
    requires
        writable(t),
        0 <= keep < encoded(t, secret).len(),
    ensures
        decoded(encoded(t, secret).take(keep), secret) == Err::<Identity, DecodeError>(
            DecodeError::InvalidToken,
        ),
{
    let p = payload_of(t);
    let code = hmac_sha256(encode_utf8(secret), p);
    let text = encoded(t, secret);
    let cut = text.take(keep);
    let dot = hex_of(p).len() as int;
    lemma_hex_round_trip(p);
    lemma_hex_round_trip(code);
    lemma_hex_has_no_dot(hex_of(p), dot);
    if keep <= dot {
        assert forall|j: int| 0 <= j < keep implies #[trigger] cut[j] != '.' by {
            assert(cut[j] == hex_of(p)[j]);
        }
        lemma_first_index_of_is(cut, '.', keep);
    } else {
        assert forall|j: int| 0 <= j < dot implies #[trigger] cut[j] != '.' by {
            assert(cut[j] == hex_of(p)[j]);
        }
        lemma_first_index_of_is(cut, '.', dot);
        assert(cut.take(dot) =~= hex_of(p));
        let right = cut.skip(dot + 1);
        assert(right.len() < hex_of(code).len());
        if is_hex(right) {
            lemma_hex_canonical(right);
            assert(bytes_of_hex(right).len() < code.len());
        }
    }
}

/// A token in which one character was replaced by another is refused with
/// `InvalidToken`. The one case left out: the replacement stands in the
/// payload, leaves it in hexadecimal, and the secret gives the payload so
/// changed the same authentication code as the original one.
pub proof fn lemma_one_character_changed(t: Identity, secret: Seq<char>, at: int, c: char)
    requires
        writable(t),
        0 <= at < encoded(t, secret).len(),
        c != encoded(t, secret)[at],
        ({
            let dot = 2 * payload_of(t).len() as int;
            let left = encoded(t, secret).update(at, c).take(dot);
            at < dot && is_hex(left) ==> hmac_sha256(
                encode_utf8(secret),
                bytes_of_hex(left),
            ) != hmac_sha256(encode_utf8(secret), payload_of(t))
        }),
    ensures
        decoded(encoded(t, secret).update(at, c), secret) == Err::<Identity, DecodeError>(
            DecodeError::InvalidToken,
        ),
{
    let p = payload_of(t);
    let key = encode_utf8(secret);
    let code = hmac_sha256(key, p);
    let text = encoded(t, secret);
    let changed = text.update(at, c);
    let dot = hex_of(p).len() as int;
    lemma_hex_round_trip(p);
    lemma_hex_round_trip(code);
    lemma_hex_has_no_dot(hex_of(p), dot);
    lemma_hex_has_no_dot(hex_of(code), hex_of(code).len() as int);
    assert(forall|j: int| 0 <= j < dot ==> text[j] == hex_of(p)[j]);
    assert(forall|j: int| dot < j < text.len() ==> text[j] == hex_of(code)[j - dot - 1]);
    if at < dot && c == '.' {
        lemma_first_index_of_is(changed, '.', at);
        let right = changed.skip(at + 1);
        assert(right[dot - at - 1] == '.');
        assert(digit_value(right[dot - at - 1]) is None);
    } else if at < dot {
        lemma_first_index_of_is(changed, '.', dot);
        let left = changed.take(dot);
        assert(changed.skip(dot + 1) =~= hex_of(code));
        if is_hex(left) {
            lemma_hex_canonical(left);
            assert(left[at] != hex_of(p)[at]);
            assert(bytes_of_hex(left) != p);
        }
    } else if at == dot {
        assert forall|j: int| 0 <= j < changed.len() implies #[trigger] changed[j] != '.' by {
            if j < dot {
                assert(changed[j] == hex_of(p)[j]);
            } else if j > dot {
                assert(changed[j] == hex_of(code)[j - dot - 1]);
            }
        }
        lemma_first_index_of_is(changed, '.', changed.len() as int);
    } else {
        lemma_first_index_of_is(changed, '.', dot);
        assert(changed.take(dot) =~= hex_of(p));
        let right = changed.skip(dot + 1);
        if is_hex(right) {
            lemma_hex_canonical(right);
            assert(right[at - dot - 1] != hex_of(code)[at - dot - 1]);
            assert(bytes_of_hex(right) != code);
        }
    }
}

/// Adds `more` at the end of `out`.
fn append_bytes(out: &mut Vec<u8>, more: &[u8])
    ensures
        final(out)@ == old(out)@ + more@,
{
    let mut i: usize = 0;
    while i < more.len()
        invariant
            i <= more@.len(),
            out@ == old(out)@ + more@.take(i as int),
        decreases more@.len() - i,
    {
        out.push(more[i]);
        assert(out@ =~= old(out)@ + more@.take(i + 1));
        i = i + 1;
    }
    assert(more@.take(i as int) == more@);
}

/// Writes the text of a token from its payload and its code.
pub fn join_token(payload: &[u8], code: &[u8]) -> (text: String)
    ensures
        text@ == token_text(payload@, code@),
{
    let mut text = to_hex(payload);
    text.append(".");
    text.append(to_hex(code).as_str());
    proof {
        reveal_strlit(".");
        assert("."@ =~= seq!['.']);
    }
    text
}

/// Takes a text apart into the payload and the code it holds; `None` where
/// it has not the form of a token.
pub fn split_token(text: &str) -> (parts: Option<(Vec<u8>, Vec<u8>)>)
    ensures
        match parts {
            Some((payload, code)) => token_parts(text@) == Some((payload@, code@)),
            None => token_parts(text@) is None,
        },
{
    let n = text.unicode_len();
    let dot = find_char(text, '.');
    if dot >= n {
        return None;
    }
    let left = from_hex(text.substring_char(0, dot));
    let right = from_hex(text.substring_char(dot + 1, n));
    match (left, right) {
        (Some(payload), Some(code)) => Some((payload, code)),
        _ => None,
    }
}

/// Decides on a payload that came with `code`, where `expected` is the code
/// that the secret gives it: `InvalidToken` where the two codes differ,
/// `MalformedToken` where they agree and the payload holds no identity, else
/// the identity.
pub fn accept(payload: &[u8], code: &[u8], expected: &[u8]) -> (r: Result<Token, DecodeError>)
    ensures
        match r {
            Ok(t) => accepted(payload@, code@, expected@) == Ok::<Identity, DecodeError>(t@),
            Err(e) => accepted(payload@, code@, expected@) == Err::<Identity, DecodeError>(e),
        },
{
    if !same_bytes(code, expected) {
        return Err(DecodeError::InvalidToken);
    }
    match Token::from_payload(payload) {
        Some(t) => Ok(t),
        None => Err(DecodeError::MalformedToken),
    }
}

impl Token {
    /// The identity as the bytes that are signed.
    pub fn payload(&self) -> (p: Vec<u8>)
        ensures
            writable(self@),
            p@ == payload_of(self@),
    {
        let name = self.username.as_str().as_bytes();
        let mut p: Vec<u8> = Vec::new();
        match &self.email {
            Some(_) => p.push(1),
            None => p.push(0),
        }
        let width = u64_to_le_bytes(name.len() as u64);
        append_bytes(&mut p, width.as_slice());
        append_bytes(&mut p, name);
        match &self.email {
            Some(e) => append_bytes(&mut p, e.as_str().as_bytes()),
            None => {},
        }
        assert(p@ =~= payload_of(self@));
        p
    }

    /// Reads the identity that a payload holds; `None` where it holds none.
    pub fn from_payload(p: &[u8]) -> (r: Option<Token>)
        ensures
            match r {
                Some(t) => parse_payload(p@) == Some(t@),
                None => parse_payload(p@) is None,
            },
    {
        broadcast use vstd::utf8::encode_utf8_decode_utf8;

        if p.len() < 9 {
            return None;
        }
        let n = u64_from_le_bytes(slice_subrange(p, 1, 9));
        if p[0] > 1 || n > (p.len() - 9) as u64 {
            return None;
        }
        let split: usize = 9 + n as usize;
        let name = text_of_utf8(slice_to_vec(slice_subrange(p, 9, split)));
        let email = text_of_utf8(slice_to_vec(slice_subrange(p, split, p.len())));
        match (name, email) {
            (Some(username), Some(email)) => {
                if p[0] == 1 {
                    Some(Token { username, email: Some(email) })
                } else if email.as_str().is_empty() {
                    Some(Token { username, email: None })
                } else {
                    None
                }
            },
            _ => None,
        }
    }

    /// Writes the token of this identity under `secret`. Reading it under
    /// the same secret gives the identity back.
    pub fn encode(&self, secret: &str) -> (text: String)
        ensures
            writable(self@),
            text@ == encoded(self@, secret@),
            decoded(text@, secret@) == Ok::<Identity, DecodeError>(self@),
    {
        let payload = self.payload();
        let code = authentication_code(secret.as_bytes(), payload.as_slice());
        proof {
            lemma_round_trip(self@, secret@);
        }
        join_token(payload.as_slice(), code.as_slice())
    }

    /// Reads a token under `secret`: the identity it was written for, where
    /// the text is a payload with the code that `secret` gives it and the
    /// payload holds an identity.
    pub fn decode(text: &str, secret: &str) -> (r: Result<Token, DecodeError>)
        ensures
            match r {
                Ok(t) => decoded(text@, secret@) == Ok::<Identity, DecodeError>(t@),
                Err(e) => decoded(text@, secret@) == Err::<Identity, DecodeError>(e),
            },
    {
        match split_token(text) {
            Some((payload, code)) => {
                let expected = authentication_code(secret.as_bytes(), payload.as_slice());
                accept(payload.as_slice(), code.as_slice(), expected.as_slice())
            },
            None => Err(DecodeError::InvalidToken),
        }
    }
}

} // verus!

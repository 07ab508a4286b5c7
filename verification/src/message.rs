//! Plaintext messages: an optional phrase followed by random bytes in
//! lowercase hexadecimal.

use vstd::prelude::*;
use rand::rngs::StdRng;
use crate::entropy::{random_byte, random_flag};

verus! {

/// The number of random bytes in a message, before they are written in hexadecimal.
pub const NONCE_LEN: usize = 32;

/// The ASCII code of the lowercase hexadecimal digit for a value below sixteen.
pub open spec fn hex_digit(value: u8) -> u8 {
    if value < 10 {
        (48 + value) as u8
    } else {
        (87 + value) as u8
    }
}

/// Lowercase hexadecimal: two digits for each byte, the high half first.
pub open spec fn hex_of(bytes: Seq<u8>) -> Seq<u8> {
    Seq::new(
        2 * bytes.len(),
        |i: int|
            if i % 2 == 0 {
                hex_digit(bytes[i / 2] / 16)
            } else {
                hex_digit(bytes[i / 2] % 16)
            },
    )
}

/// A message: the phrase, then the nonce in hexadecimal.
pub open spec fn message_of(phrase: Seq<u8>, nonce: Seq<u8>) -> Seq<u8> {
    phrase + hex_of(nonce)
}

/// `message` is one of the two forms that a message with this nonce can
/// take: the bare one, or the one that starts with `phrase`.
pub open spec fn has_message_form(message: Seq<u8>, phrase: Seq<u8>, nonce: Seq<u8>) -> bool {
    message == hex_of(nonce) || message == message_of(phrase, nonce)
}

/// `message` is a message that [`random_message`] can draw for `phrase`.
pub open spec fn is_message_for(message: Seq<u8>, phrase: Seq<u8>) -> bool {
    exists|nonce: Seq<u8>|
        nonce.len() == NONCE_LEN && #[trigger] has_message_form(message, phrase, nonce)
}

fn digit(value: u8) -> (c: u8)
    requires
        value < 16,
    ensures
        c == hex_digit(value),
{
    if value < 10 {
        48 + value
    } else {
        87 + value
    }
}

/// Writes `bytes` in lowercase hexadecimal.
pub fn hex_encode(bytes: &[u8]) -> (text: Vec<u8>)
    ensures
        text@ == hex_of(bytes@),
{
    let mut text: Vec<u8> = Vec::new();
    let mut i: usize = 0;
    while i < bytes.len()
        invariant
            i <= bytes.len(),
            text@.len() == 2 * i,
            forall|k: int| 0 <= k < text@.len() ==> text@[k] == hex_of(bytes@)[k],
        decreases bytes.len() - i,
    {
        let b = bytes[i];
        text.push(digit(b / 16));
        text.push(digit(b % 16));
        i = i + 1;
    }
    text
}

/// Builds a message from a phrase and a nonce. An empty phrase gives the
/// bare hexadecimal form.
pub fn compose_message(phrase: &[u8], nonce: &[u8]) -> (message: Vec<u8>)
    ensures
        message@ == message_of(phrase@, nonce@),
{
    let mut message: Vec<u8> = Vec::new();
    let mut i: usize = 0;
    while i < phrase.len()
        invariant
            i <= phrase.len(),
            message@ == phrase@.subrange(0, i as int),
        decreases phrase.len() - i,
    {
        message.push(phrase[i]);
        i = i + 1;
    }
    let mut tail = hex_encode(nonce);
    message.append(&mut tail);
    message
}

/// Draws a message: with probability one half the bare form, else the form
/// that starts with `phrase`; in both, [`NONCE_LEN`] random bytes.
pub fn random_message(phrase: &[u8], rng: &mut StdRng) -> (message: Vec<u8>)
    ensures
        is_message_for(message@, phrase@),
{
    let bare = random_flag(rng);
    let mut nonce: Vec<u8> = Vec::new();
    let mut i: usize = 0;
    while i < NONCE_LEN
        invariant
            i <= NONCE_LEN,
            nonce@.len() == i,
        decreases NONCE_LEN - i,
    {
        nonce.push(random_byte(rng));
        i = i + 1;
    }
    let none: Vec<u8> = Vec::new();
    let message = if bare {
        compose_message(none.as_slice(), nonce.as_slice())
    } else {
        compose_message(phrase, nonce.as_slice())
    };
    proof {
        assert(message_of(none@, nonce@) =~= hex_of(nonce@));
        assert(has_message_form(message@, phrase@, nonce@));
    }
    message
}

} // verus!

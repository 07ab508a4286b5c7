//! How numbers and byte strings go into each other.
//!
//! A message becomes a number by reading its bytes most significant first, and
//! the number becomes bytes again, in the shortest form, when the key is
//! derived. The two agree on every byte string that does not start with a
//! zero byte, which every message does not.

use vstd::prelude::*;
use crate::natural::{be_value, be_bytes};
use crate::message::{hex_digit, hex_of, message_of, is_message_for, has_message_form, NONCE_LEN};

verus! {

/// Reading the shortest encoding of a number gives the number back.
pub proof fn lemma_value_of_bytes(n: nat)
    ensures
        be_value(be_bytes(n)) == n,
    decreases n,
{
    if n < 256 {
        let one_byte = seq![n as u8];
        assert(one_byte.drop_last() =~= Seq::<u8>::empty());
        assert(be_value(one_byte.drop_last()) == 0);
    } else {
        let front = be_bytes(n / 256);
        let all = front.push((n % 256) as u8);
        lemma_value_of_bytes(n / 256);
        assert(all.drop_last() =~= front);
    }
}

/// A byte string that does not start with a zero byte is the shortest
/// encoding of the number it denotes.
pub proof fn lemma_bytes_of_value(bytes: Seq<u8>)
    requires
        bytes.len() > 0,
        bytes[0] != 0,
    ensures
        be_bytes(be_value(bytes)) == bytes,
        be_value(bytes) > 0,
    decreases bytes.len(),
{
    let front = bytes.drop_last();
    if bytes.len() == 1 {
        assert(front =~= Seq::<u8>::empty());
        assert(be_value(front) == 0);
        assert(be_bytes(bytes[0] as nat) =~= bytes);
    } else {
        lemma_bytes_of_value(front);
        let v = be_value(front) * 256 + bytes.last() as nat;
        assert(v / 256 == be_value(front) && v % 256 == bytes.last());
        assert(be_bytes(v) =~= bytes);
    }
}

/// A message starts with a nonzero byte, unless the phrase starts with a
/// zero byte, so its bytes are the shortest encoding of its number: what is
/// hashed for the key is the message itself.
pub proof fn lemma_message_survives(message: Seq<u8>, phrase: Seq<u8>)
    requires
        is_message_for(message, phrase),
        phrase.len() > 0 ==> phrase[0] != 0,
    ensures
        be_bytes(be_value(message)) == message,
{
    let nonce = choose|nonce: Seq<u8>|
        nonce.len() == NONCE_LEN && #[trigger] has_message_form(message, phrase, nonce);
    let text = hex_of(nonce);
    assert(text.len() == 64);
    assert(text[0] == hex_digit(nonce[0] / 16));
    assert(text[0] != 0);
    if message == text {
        lemma_bytes_of_value(message);
    } else {
        assert(message == message_of(phrase, nonce));
        if phrase.len() > 0 {
            assert(message[0] == phrase[0]);
        } else {
            assert(message[0] == text[0]);
        }
        lemma_bytes_of_value(message);
    }
}

} // verus!

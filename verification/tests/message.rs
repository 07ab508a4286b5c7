use rand::rngs::StdRng;
use rand::SeedableRng;
use ring_puzzle::message::{compose_message, hex_encode, random_message, NONCE_LEN};

fn is_lower_hex(byte: u8) -> bool {
    byte.is_ascii_digit() || (b'a'..=b'f').contains(&byte)
}

#[test]
fn hex_is_lowercase_two_digits_per_byte() {
    assert_eq!(hex_encode(&[0x00, 0x0f, 0xa5, 0xff, 0x10, 0x9a]), b"000fa5ff109a".to_vec());
    assert_eq!(hex_encode(&[]), Vec::<u8>::new());
    assert_eq!(hex_encode(&[0x0a]), b"0a".to_vec());
}

#[test]
fn hex_of_every_byte() {
    for value in 0u16..256 {
        let byte = value as u8;
        assert_eq!(hex_encode(&[byte]), format!("{:02x}", byte).into_bytes());
    }
}

#[test]
fn message_is_phrase_then_hex() {
    assert_eq!(
        compose_message(b"One Ring to find them", &[0xde, 0xad, 0xbe, 0xef]),
        b"One Ring to find themdeadbeef".to_vec()
    );
    assert_eq!(compose_message(b"", &[0x01, 0x23]), b"0123".to_vec());
    assert_eq!(compose_message(b"alone", &[]), b"alone".to_vec());
}

#[test]
fn drawn_message_has_one_of_two_forms() {
    let mut rng = StdRng::seed_from_u64(41);
    let phrase = b"One Ring to rule them all";
    let mut bare = 0;
    let mut prefixed = 0;
    for _ in 0..200 {
        let message = random_message(phrase, &mut rng);
        if message.len() == 2 * NONCE_LEN {
            bare += 1;
            assert!(message.iter().all(|b| is_lower_hex(*b)));
        } else {
            prefixed += 1;
            assert_eq!(message.len(), phrase.len() + 2 * NONCE_LEN);
            assert_eq!(&message[..phrase.len()], &phrase[..]);
            assert!(message[phrase.len()..].iter().all(|b| is_lower_hex(*b)));
        }
    }
    assert!(bare > 50 && prefixed > 50);
}

#[test]
fn drawn_messages_differ() {
    let mut rng = StdRng::seed_from_u64(42);
    let first = random_message(b"x", &mut rng);
    let second = random_message(b"x", &mut rng);
    assert_ne!(first[first.len() - 64..], second[second.len() - 64..]);
}

#[test]
fn nonce_is_thirty_two_bytes() {
    assert_eq!(NONCE_LEN, 32);
}

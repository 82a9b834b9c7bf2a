use airwire::crypto::{
    finish_exchange, normalize_spake_key, open_group, open_pair, random_key, seal_group, seal_pair,
    start_exchange, wipe_key, OpenError, SealError,
};
use airwire::protocol::{Sealed, MAX_RELAY_PACKET};
use chacha20poly1305::aead::{Aead, KeyInit, Payload};
use chacha20poly1305::{XChaCha20Poly1305, XNonce};
use spake2::{Ed25519Group, Identity, Password, Spake2};

#[test]
fn group_packets_are_authenticated_to_sender() {
    let key = random_key();
    let sender = [7; 16];
    let other = [8; 16];
    let packet = seal_group(&key, &sender, "hello".as_bytes()).unwrap();
    let opened = open_group(&key, &sender, &packet).unwrap();
    assert_eq!(opened, "hello".as_bytes());
    assert!(open_group(&key, &other, &packet).is_err());
}

#[test]
fn tampering_is_rejected() {
    let key = random_key();
    let mut packet = seal_pair(&key, &42_u64.to_le_bytes()).unwrap();
    packet.ciphertext[0] ^= 1;
    assert!(open_pair(&key, &packet).is_err());
}

#[test]
fn wrong_room_code_cannot_open_pair_channel() {
    let identity = Identity::new(b"airwire-room-v1");
    let (host, host_message) =
        Spake2::<Ed25519Group>::start_symmetric(&Password::new(b"aB3xY9"), &identity);
    let (guest, guest_message) =
        Spake2::<Ed25519Group>::start_symmetric(&Password::new(b"aB3xNO"), &identity);
    let host_key = normalize_spake_key(&host.finish(&guest_message).unwrap());
    let guest_key = normalize_spake_key(&guest.finish(&host_message).unwrap());
    assert_ne!(host_key, guest_key);
    let packet = seal_pair(&host_key, "room key".as_bytes()).unwrap();
    assert!(open_pair(&guest_key, &packet).is_err());
}

#[test]
fn both_sides_of_an_exchange_arrive_at_one_key() {
    let host = start_exchange("aB3xY9");
    let guest = start_exchange("aB3xY9");
    assert_eq!(host.message.len(), 33);
    assert_ne!(host.message, guest.message);
    let host_key = finish_exchange("aB3xY9", &host.secret, &guest.message).unwrap();
    let guest_key = finish_exchange("aB3xY9", &guest.secret, &host.message).unwrap();
    assert_eq!(host_key, guest_key);
    let other = finish_exchange("aB3xNO", &guest.secret, &host.message).unwrap();
    assert_ne!(host_key, other);
}

#[test]
fn exchanges_follow_the_protocol() {
    let ours = start_exchange("aB3xY9");
    let (theirs, message) = Spake2::<Ed25519Group>::start_symmetric(
        &Password::new(b"aB3xY9"),
        &Identity::new(b"airwire-room-v1"),
    );
    let our_key = finish_exchange("aB3xY9", &ours.secret, &message).unwrap();
    let their_key = normalize_spake_key(&theirs.finish(&ours.message).unwrap());
    assert_eq!(our_key, their_key);
}

#[test]
fn unacceptable_exchange_messages_are_refused() {
    let exchange = start_exchange("aB3xY9");
    assert!(finish_exchange("aB3xY9", &exchange.secret, &[]).is_none());
    assert!(finish_exchange("aB3xY9", &exchange.secret, &[0; 33]).is_none());
    let mut short = start_exchange("aB3xY9").message;
    short.pop();
    assert!(finish_exchange("aB3xY9", &exchange.secret, &short).is_none());
}

#[test]
fn exchange_keys_are_hashed_with_a_label() {
    let key = normalize_spake_key(b"shared");
    assert_eq!(
        hex::encode(key),
        "07cfb3512a8de495b1b19fced86ab96246dd961ee15e2b2f63b31dda25ba57c3"
    );
}

#[test]
fn sealed_packets_use_their_context() {
    let key = random_key();
    let sealed = seal_pair(&key, b"payload").unwrap();
    assert_eq!(sealed.ciphertext.len(), 7 + 16);
    let cipher = XChaCha20Poly1305::new_from_slice(&key).unwrap();
    let opened = cipher
        .decrypt(
            XNonce::from_slice(&sealed.nonce),
            Payload { msg: &sealed.ciphertext, aad: b"airwire/v1/pair" },
        )
        .unwrap();
    assert_eq!(opened, b"payload");

    let sender = [9; 16];
    let sealed = seal_group(&key, &sender, b"payload").unwrap();
    let mut aad = b"airwire/v1/group".to_vec();
    aad.extend_from_slice(&sender);
    let opened = cipher
        .decrypt(
            XNonce::from_slice(&sealed.nonce),
            Payload { msg: &sealed.ciphertext, aad: &aad },
        )
        .unwrap();
    assert_eq!(opened, b"payload");
}

#[test]
fn pair_and_group_packets_are_not_exchangeable() {
    let key = random_key();
    let sealed = seal_pair(&key, b"payload").unwrap();
    assert_eq!(open_group(&key, &[0; 16], &sealed), Err(OpenError::NotAuthentic));
    assert_eq!(open_pair(&key, &sealed).unwrap(), b"payload");
}

#[test]
fn every_packet_gets_its_own_nonce() {
    let key = random_key();
    let a = seal_pair(&key, b"same").unwrap();
    let b = seal_pair(&key, b"same").unwrap();
    assert_ne!(a.nonce, b.nonce);
    assert_ne!(a.ciphertext, b.ciphertext);
}

#[test]
fn short_packets_are_refused() {
    let key = random_key();
    let sealed = Sealed { nonce: [0; 24], ciphertext: vec![0; 15] };
    let why = open_pair(&key, &sealed).unwrap_err();
    assert_eq!(why, OpenError::TooShort);
    assert_eq!(why.message(), "encrypted packet is too short");
    let sealed = Sealed { nonce: [0; 24], ciphertext: vec![0; 16] };
    let why = open_pair(&key, &sealed).unwrap_err();
    assert_eq!(why, OpenError::NotAuthentic);
    assert_eq!(why.message(), "packet authentication failed");
}

#[test]
fn oversized_packets_are_not_sealed() {
    let key = random_key();
    assert!(seal_pair(&key, &vec![0; MAX_RELAY_PACKET]).is_ok());
    assert_eq!(
        seal_pair(&key, &vec![0; MAX_RELAY_PACKET + 1]).err(),
        Some(SealError::TooLarge)
    );
    assert_eq!(
        seal_group(&key, &[0; 16], &vec![0; MAX_RELAY_PACKET + 1]).err(),
        Some(SealError::TooLarge)
    );
}

#[test]
fn keys_are_random_and_can_be_wiped() {
    let mut key = random_key();
    assert_ne!(key, random_key());
    wipe_key(&mut key);
    assert_eq!(key, [0; 32]);
}

use airwire::protocol::{
    copy_bytes, generate_code, rendezvous_id, same_id, same_peer, validate_code,
    validate_rendezvous, PeerId,
};

#[test]
fn generated_codes_are_valid_and_random_shaped() {
    for _ in 0..100 {
        let code = generate_code();
        assert!(validate_code(&code));
    }
}

#[test]
fn rejects_malformed_codes() {
    assert!(!validate_code("abc"));
    assert!(!validate_code("abcdef!"));
    assert!(!validate_code("ébc123"));
    assert!(validate_code("aB3xY9"));
    assert_eq!(rendezvous_id("aB3xY9"), "aB");
    assert!(validate_rendezvous("aB"));
    assert!(!validate_rendezvous("aB3"));
}

#[test]
fn generated_codes_differ() {
    let codes: Vec<String> = (0..20).map(|_| generate_code()).collect();
    assert!(codes.iter().any(|code| code != &codes[0]));
}

#[test]
fn the_rendezvous_of_a_code_is_its_beginning() {
    assert_eq!(rendezvous_id("x"), "x");
    assert_eq!(rendezvous_id(""), "");
    assert_eq!(rendezvous_id("éè123"), "éè");
    assert_eq!(rendezvous_id("aB3xY9"), rendezvous_id("aBzzzz"));
    assert!(validate_rendezvous(&rendezvous_id("aB3xY9")));
    assert!(!validate_rendezvous("é"));
    assert!(!validate_rendezvous(""));
}

#[test]
fn peers_are_written_in_hexadecimal() {
    let mut bytes = [0u8; 16];
    bytes[0] = 0xab;
    bytes[1] = 0x0f;
    bytes[2] = 0x90;
    bytes[3] = 0xff;
    assert_eq!(PeerId(bytes).short(), "ab0f90");
    assert_eq!(PeerId(bytes).debug_text(), "PeerId(\"ab0f90\")");
}

#[test]
fn random_peers_differ() {
    let a = PeerId::random();
    let b = PeerId::random();
    assert!(!same_peer(&a, &b));
    assert!(same_peer(&a, &a));
    assert!(same_id(&a.0, &a.0));
}

#[test]
fn bytes_are_copied() {
    assert_eq!(copy_bytes(&vec![1, 2, 3]), vec![1, 2, 3]);
}

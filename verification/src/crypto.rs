//! Keys, sealed packets and the key exchange between a host and a guest.

use vstd::prelude::*;
use vstd::string::*;

use chacha20poly1305::aead::{Aead, KeyInit, Payload};
use chacha20poly1305::{XChaCha20Poly1305, XNonce};
use rand::rngs::StdRng;
use rand::{RngCore, SeedableRng};
use sha2::Digest;
use spake2::{Ed25519Group, Identity, Password, Spake2};
use zeroize::Zeroize;

use crate::protocol::{Sealed, SealedView, MAX_RELAY_PACKET};

verus! {

/// The number of bytes by which a ciphertext is longer than its plaintext.
pub const TAG_LEN: usize = 16;

/// The longest text, in bytes, that the cipher can work on: all blocks that
/// its 32-bit counter can still reach, of 64 bytes each.
pub const MAX_CIPHER_TEXT: u64 = 274877906816;

// ---------------------------------------------------------------------------
// Outside functions: randomness and erasure
// ---------------------------------------------------------------------------
/// `RngCore::fill_bytes` of `rand::thread_rng`. Any bytes may come back, so
/// nothing is claimed of them.
#[verifier::external_body]
fn random_array<const N: usize>() -> [u8; N] {
    let mut bytes = [0u8; N];
    rand::thread_rng().fill_bytes(&mut bytes);
    bytes
}

/// `Zeroize::zeroize` on a key: every byte is zero afterwards.
#[verifier::external_body]
fn zeroize_key(key: &mut [u8; 32])
    ensures
        final(key)@ == zero_key(),
{
    key.zeroize()
}

/// A key of which nothing is left.
pub open spec fn zero_key() -> Seq<u8> {
    Seq::new(32, |i: int| 0u8)
}

/// Erases a key from memory.
pub fn wipe_key(key: &mut [u8; 32])
    ensures
        final(key)@ == zero_key(),
{
    zeroize_key(key)
}

/// A fresh random key. Any value may come back.
pub fn random_key() -> [u8; 32] {
    random_array::<32>()
}

// ---------------------------------------------------------------------------
// Outside functions: SHA-256
// ---------------------------------------------------------------------------
/// What `sha2::Sha256` returns for `data`: its SHA-256 digest.
pub uninterp spec fn sha256(data: Seq<u8>) -> Seq<u8>;

/// A SHA-256 computation under way: a `sha2::Sha256`, which takes in bytes and
/// gives back the digest of all of them.
#[verifier::external_body]
pub struct Sha256Stream {
    inner: sha2::Sha256,
}

/// The bytes that a `sha2::Sha256` has taken in, in order.
pub uninterp spec fn absorbed(stream: Sha256Stream) -> Seq<u8>;

impl Sha256Stream {
    /// `Sha256::new`: nothing has been taken in.
    #[verifier::external_body]
    pub(crate) fn new() -> (r: Sha256Stream)
        ensures
            absorbed(r) == Seq::<u8>::empty(),
    {
        Sha256Stream { inner: sha2::Sha256::new() }
    }

    /// `Digest::update`: `data` is taken in after what came before.
    #[verifier::external_body]
    pub(crate) fn update(&mut self, data: &[u8])
        ensures
            absorbed(*final(self)) == absorbed(*old(self)) + data@,
    {
        self.inner.update(data)
    }

    /// `Digest::finalize`: the digest of everything that was taken in.
    #[verifier::external_body]
    pub(crate) fn finalize(self) -> (r: [u8; 32])
        ensures
            r@ == sha256(absorbed(self)),
    {
        self.inner.finalize().into()
    }
}

// ---------------------------------------------------------------------------
// Outside functions: XChaCha20-Poly1305
// ---------------------------------------------------------------------------
/// What `XChaCha20Poly1305::encrypt` returns.
pub uninterp spec fn xchacha_seal(
    key: Seq<u8>,
    nonce: Seq<u8>,
    aad: Seq<u8>,
    plaintext: Seq<u8>,
) -> Seq<u8>;

/// What `XChaCha20Poly1305::decrypt` returns: the plaintext of an authentic
/// ciphertext, and nothing for any other.
pub uninterp spec fn xchacha_open(
    key: Seq<u8>,
    nonce: Seq<u8>,
    aad: Seq<u8>,
    ciphertext: Seq<u8>,
) -> Option<Seq<u8>>;

/// The error of `chacha20poly1305`, which tells nothing.
#[verifier::external_type_specification]
#[verifier::external_body]
pub struct ExAeadError(chacha20poly1305::Error);

/// `XChaCha20Poly1305::encrypt`. A text that the cipher can work on is always
/// encrypted; the ciphertext is sixteen bytes longer, and decrypting it under
/// the same key, nonce and associated data gives the text back.
#[verifier::external_body]
fn aead_encrypt(key: &[u8; 32], nonce: &[u8; 24], aad: &[u8], plaintext: &[u8]) -> (r: Result<
    Vec<u8>,
    chacha20poly1305::Error,
>)
    requires
        plaintext@.len() <= MAX_RELAY_PACKET,
    ensures
        match r {
            Ok(c) => c@ == xchacha_seal(key@, nonce@, aad@, plaintext@) && c@.len()
                == plaintext@.len() + TAG_LEN && xchacha_open(key@, nonce@, aad@, c@) == Some(
                plaintext@,
            ),
            Err(_) => false,
        },
{
    XChaCha20Poly1305::new_from_slice(key).expect("32-byte key").encrypt(
        XNonce::from_slice(nonce),
        Payload { msg: plaintext, aad },
    )
}

/// `XChaCha20Poly1305::decrypt`. The plaintext of an authentic ciphertext is
/// sixteen bytes shorter than it.
#[verifier::external_body]
fn aead_decrypt(key: &[u8; 32], nonce: &[u8; 24], aad: &[u8], ciphertext: &[u8]) -> (r: Result<
    Vec<u8>,
    chacha20poly1305::Error,
>)
    requires
        ciphertext@.len() <= MAX_CIPHER_TEXT,
    ensures
        match r {
            Ok(p) => xchacha_open(key@, nonce@, aad@, ciphertext@) == Some(p@) && p@.len() + TAG_LEN
                == ciphertext@.len(),
            Err(_) => xchacha_open(key@, nonce@, aad@, ciphertext@) is None,
        },
{
    XChaCha20Poly1305::new_from_slice(key).expect("32-byte key").decrypt(
        XNonce::from_slice(nonce),
        Payload { msg: ciphertext, aad },
    )
}

// ---------------------------------------------------------------------------
// Outside functions: SPAKE2
// ---------------------------------------------------------------------------
/// The message that a symmetric SPAKE2 exchange over Ed25519 sends when its
/// secret scalar is drawn from the generator seeded with `secret`.
pub uninterp spec fn spake_message(
    password: Seq<u8>,
    identity: Seq<u8>,
    secret: Seq<u8>,
) -> Seq<u8>;

/// The key that such an exchange arrives at when it receives `message`, if the
/// message is acceptable.
pub uninterp spec fn spake_key(
    password: Seq<u8>,
    identity: Seq<u8>,
    secret: Seq<u8>,
    message: Seq<u8>,
) -> Option<Seq<u8>>;

/// The error of `spake2`: why a message is not acceptable.
#[verifier::external_type_specification]
#[verifier::external_body]
pub struct ExSpakeError(spake2::Error);

/// `Spake2::start_symmetric_with_rng`: the message to send, a marker byte and
/// an encoded point. The generator is `StdRng` seeded with `secret`, so the
/// message is a function of the arguments.
#[verifier::external_body]
fn spake_start(password: &[u8], identity: &[u8], secret: &[u8; 32]) -> (r: Vec<u8>)
    ensures
        r@ == spake_message(password@, identity@, secret@),
        r@.len() == 33,
{
    let rng = StdRng::from_seed(*secret);
    Spake2::<Ed25519Group>::start_symmetric_with_rng(
        &Password::new(password),
        &Identity::new(identity),
        rng,
    ).1
}

/// `Spake2::finish` on the exchange that [`spake_start`] begins: the key, of
/// thirty-two bytes, or an error if the message is not acceptable. When the
/// message is that of an exchange with the same password and identity, both
/// exchanges arrive at the same key.
#[verifier::external_body]
fn spake_finish(password: &[u8], identity: &[u8], secret: &[u8; 32], message: &[u8]) -> (r: Result<
    Vec<u8>,
    spake2::Error,
>)
    ensures
        match r {
            Ok(k) => spake_key(password@, identity@, secret@, message@) == Some(k@) && k@.len()
                == 32,
            Err(_) => spake_key(password@, identity@, secret@, message@) is None,
        },
        forall|other: Seq<u8>|
            other.len() == 32 && message@ == #[trigger] spake_message(
                password@,
                identity@,
                other,
            ) ==> match r {
                Ok(k) => spake_key(
                    password@,
                    identity@,
                    other,
                    spake_message(password@, identity@, secret@),
                ) == Some(k@),
                Err(_) => false,
            },
{
    let rng = StdRng::from_seed(*secret);
    Spake2::<Ed25519Group>::start_symmetric_with_rng(
        &Password::new(password),
        &Identity::new(identity),
        rng,
    ).0.finish(message)
}

// ---------------------------------------------------------------------------
// Contexts
// ---------------------------------------------------------------------------
/// The associated data of a packet between a host and a guest.
pub open spec fn pair_context() -> Seq<u8> {
    "airwire/v1/pair".spec_bytes()
}

/// The associated data of a packet that `sender` sends to the room.
pub open spec fn group_context(sender: Seq<u8>) -> Seq<u8> {
    "airwire/v1/group".spec_bytes() + sender
}

/// What the key of an exchange is hashed with.
pub open spec fn spake_key_label() -> Seq<u8> {
    "airwire/v1/spake-key".spec_bytes()
}

/// The identity that both sides of an exchange use.
pub open spec fn room_identity() -> Seq<u8> {
    "airwire-room-v1".spec_bytes()
}

/// The associated data of a packet that `sender` sends to the room.
fn group_aad(sender: &[u8; 16]) -> (r: Vec<u8>)
    ensures
        r@ == group_context(sender@),
{
    let mut aad: Vec<u8> = "airwire/v1/group".as_bytes_vec();
    let mut i: usize = 0;
    while i < 16
        invariant
            i <= 16,
            aad@ == "airwire/v1/group".spec_bytes() + sender@.take(i as int),
        decreases 16 - i,
    {
        aad.push(sender[i]);
        assert(sender@.take(i + 1) =~= sender@.take(i as int).push(sender@[i as int]));
        assert(aad@ =~= "airwire/v1/group".spec_bytes() + sender@.take(i + 1));
        i += 1;
    }
    assert(sender@.take(16) =~= sender@);
    aad
}

/// The contexts keep packets apart: a packet of a pair is never one of a
/// group, and packets of different senders have different contexts.
pub proof fn law_contexts_are_distinct(a: Seq<u8>, b: Seq<u8>)
    requires
        a.len() == 16,
        b.len() == 16,
    ensures
        pair_context() != group_context(a),
        a != b ==> group_context(a) != group_context(b),
{
    reveal_strlit("airwire/v1/pair");
    reveal_strlit("airwire/v1/group");
    is_ascii_spec_bytes("airwire/v1/pair");
    is_ascii_spec_bytes("airwire/v1/group");
    assert(is_ascii("airwire/v1/pair"));
    assert(is_ascii("airwire/v1/group"));
    let label = "airwire/v1/group".spec_bytes();
    assert(label.len() == 16);
    assert(pair_context().len() == 15);
    assert(group_context(a).len() == 32);
    if group_context(a) == group_context(b) {
        assert(a =~= group_context(a).skip(16));
        assert(b =~= group_context(b).skip(16));
    }
}

// ---------------------------------------------------------------------------
// Sealing and opening
// ---------------------------------------------------------------------------
/// Why nothing was sealed.
#[derive(Clone, Copy, Debug, PartialEq, Eq, Structural)]
pub enum SealError {
    /// The plaintext is longer than a packet may be.
    TooLarge,
}

/// Why a sealed packet was not opened.
#[derive(Clone, Copy, Debug, PartialEq, Eq, Structural)]
pub enum OpenError {
    TooShort,
    NotAuthentic,
}

impl OpenError {
    /// How the error is reported.
    pub open spec fn text(self) -> Seq<char> {
        match self {
            OpenError::TooShort => "encrypted packet is too short"@,
            OpenError::NotAuthentic => "packet authentication failed"@,
        }
    }

    /// How the error is reported.
    pub fn message(&self) -> (r: String)
        ensures
            r@ == self.text(),
    {
        match self {
            OpenError::TooShort => "encrypted packet is too short".to_owned(),
            OpenError::NotAuthentic => "packet authentication failed".to_owned(),
        }
    }
}

/// What `sealed` holds for someone with `key` who expects the context `aad`.
pub open spec fn opened(key: Seq<u8>, aad: Seq<u8>, sealed: SealedView) -> Result<
    Seq<u8>,
    OpenError,
> {
    if sealed.ciphertext.len() < TAG_LEN {
        Err(OpenError::TooShort)
    } else if sealed.ciphertext.len() > MAX_CIPHER_TEXT {
        Err(OpenError::NotAuthentic)
    } else {
        match xchacha_open(key, sealed.nonce, aad, sealed.ciphertext) {
            Some(plaintext) => Ok(plaintext),
            None => Err(OpenError::NotAuthentic),
        }
    }
}

/// `sealed` is what encrypting `plaintext` under `key`, its own nonce and
/// `aad` gives, and it can be opened again.
pub open spec fn seals(
    key: Seq<u8>,
    aad: Seq<u8>,
    plaintext: Seq<u8>,
    sealed: SealedView,
) -> bool {
    &&& sealed.nonce.len() == 24
    &&& sealed.ciphertext == xchacha_seal(key, sealed.nonce, aad, plaintext)
    &&& sealed.ciphertext.len() == plaintext.len() + TAG_LEN
    &&& opened(key, aad, sealed) == Ok::<Seq<u8>, OpenError>(plaintext)
}

/// Seals `plaintext` under a fresh random nonce. Only a plaintext longer than
/// a packet is refused. Which nonce is drawn is left open.
fn seal(key: &[u8; 32], aad: &[u8], plaintext: &[u8]) -> (r: Result<Sealed, SealError>)
    ensures
        match r {
            Ok(sealed) => plaintext@.len() <= MAX_RELAY_PACKET && seals(
                key@,
                aad@,
                plaintext@,
                sealed@,
            ),
            Err(SealError::TooLarge) => plaintext@.len() > MAX_RELAY_PACKET,
        },
{
    if plaintext.len() > MAX_RELAY_PACKET {
        return Err(SealError::TooLarge);
    }
    let nonce = random_array::<24>();
    match aead_encrypt(key, &nonce, aad, plaintext) {
        Ok(ciphertext) => Ok(Sealed { nonce, ciphertext }),
        Err(_) => Err(SealError::TooLarge),
    }
}

/// Opens a sealed packet.
fn open_sealed(key: &[u8; 32], aad: &[u8], sealed: &Sealed) -> (r: Result<Vec<u8>, OpenError>)
    ensures
        match r {
            Ok(plaintext) => opened(key@, aad@, sealed@) == Ok::<Seq<u8>, OpenError>(plaintext@),
            Err(why) => opened(key@, aad@, sealed@) == Err::<Seq<u8>, OpenError>(why),
        },
{
    if sealed.ciphertext.len() < TAG_LEN {
        return Err(OpenError::TooShort);
    }
    if sealed.ciphertext.len() as u64 > MAX_CIPHER_TEXT {
        return Err(OpenError::NotAuthentic);
    }
    match aead_decrypt(key, &sealed.nonce, aad, sealed.ciphertext.as_slice()) {
        Ok(plaintext) => Ok(plaintext),
        Err(_) => Err(OpenError::NotAuthentic),
    }
}

/// Seals `plaintext` for the other side of a key exchange.
pub fn seal_pair(key: &[u8; 32], plaintext: &[u8]) -> (r: Result<Sealed, SealError>)
    ensures
        match r {
            Ok(sealed) => plaintext@.len() <= MAX_RELAY_PACKET && seals(
                key@,
                pair_context(),
                plaintext@,
                sealed@,
            ),
            Err(SealError::TooLarge) => plaintext@.len() > MAX_RELAY_PACKET,
        },
{
    seal(key, "airwire/v1/pair".as_bytes(), plaintext)
}

/// Opens what the other side of a key exchange sealed.
pub fn open_pair(key: &[u8; 32], sealed: &Sealed) -> (r: Result<Vec<u8>, OpenError>)
    ensures
        match r {
            Ok(plaintext) => opened(key@, pair_context(), sealed@) == Ok::<Seq<u8>, OpenError>(
                plaintext@,
            ),
            Err(why) => opened(key@, pair_context(), sealed@) == Err::<Seq<u8>, OpenError>(why),
        },
{
    open_sealed(key, "airwire/v1/pair".as_bytes(), sealed)
}

/// Seals `plaintext` for the room, as coming from `sender`.
pub fn seal_group(key: &[u8; 32], sender: &[u8; 16], plaintext: &[u8]) -> (r: Result<
    Sealed,
    SealError,
>)
    ensures
        match r {
            Ok(sealed) => plaintext@.len() <= MAX_RELAY_PACKET && seals(
                key@,
                group_context(sender@),
                plaintext@,
                sealed@,
            ),
            Err(SealError::TooLarge) => plaintext@.len() > MAX_RELAY_PACKET,
        },
{
    let aad = group_aad(sender);
    seal(key, aad.as_slice(), plaintext)
}

/// Opens what `sender` sealed for the room.
pub fn open_group(key: &[u8; 32], sender: &[u8; 16], sealed: &Sealed) -> (r: Result<
    Vec<u8>,
    OpenError,
>)
    ensures
        match r {
            Ok(plaintext) => opened(key@, group_context(sender@), sealed@) == Ok::<
                Seq<u8>,
                OpenError,
            >(plaintext@),
            Err(why) => opened(key@, group_context(sender@), sealed@) == Err::<Seq<u8>, OpenError>(
                why,
            ),
        },
{
    let aad = group_aad(sender);
    open_sealed(key, aad.as_slice(), sealed)
}

// ---------------------------------------------------------------------------
// The key exchange
// ---------------------------------------------------------------------------
/// The key that a pair uses once SPAKE2 has given it `shared`.
pub open spec fn normalized_key(shared: Seq<u8>) -> Seq<u8> {
    sha256(spake_key_label() + shared)
}

/// The key that a pair uses once SPAKE2 has given it `shared`.
pub fn normalize_spake_key(shared: &[u8]) -> (r: [u8; 32])
    ensures
        r@ == normalized_key(shared@),
{
    let mut hasher = Sha256Stream::new();
    hasher.update("airwire/v1/spake-key".as_bytes());
    hasher.update(shared);
    assert(absorbed(hasher) =~= spake_key_label() + shared@);
    hasher.finalize()
}

/// What the side of an exchange that knows `code` and keeps `secret` sends.
pub open spec fn exchange_message(code: Seq<char>, secret: Seq<u8>) -> Seq<u8> {
    spake_message(vstd::utf8::encode_utf8(code), room_identity(), secret)
}

/// The key that the side of an exchange that knows `code` and keeps `secret`
/// shares with whoever sent `message`.
pub open spec fn pair_key(code: Seq<char>, secret: Seq<u8>, message: Seq<u8>) -> Option<Seq<u8>> {
    match spake_key(vstd::utf8::encode_utf8(code), room_identity(), secret, message) {
        Some(shared) => Some(normalized_key(shared)),
        None => None,
    }
}

/// One side of a key exchange that has begun.
pub struct Exchange {
    /// What the side keeps.
    pub secret: [u8; 32],
    /// What the side sends.
    pub message: Vec<u8>,
}

/// Begins a key exchange with a fresh secret. Which secret is left open.
pub fn start_exchange(code: &str) -> (r: Exchange)
    ensures
        r.message@ == exchange_message(code@, r.secret@),
{
    let secret = random_array::<32>();
    let message = spake_start(code.as_bytes(), "airwire-room-v1".as_bytes(), &secret);
    Exchange { secret, message }
}

/// The key that the side of an exchange that kept `secret` shares with whoever
/// sent `message`, or nothing if the message is not acceptable.
///
/// If the message comes from a side that knows the same room code, it is
/// acceptable, and that side arrives at the same key.
pub fn finish_exchange(code: &str, secret: &[u8; 32], message: &[u8]) -> (r: Option<[u8; 32]>)
    ensures
        match r {
            Some(key) => pair_key(code@, secret@, message@) == Some(key@),
            None => pair_key(code@, secret@, message@) is None,
        },
        forall|other: Seq<u8>|
            other.len() == 32 && message@ == #[trigger] exchange_message(code@, other) ==> (
            r matches Some(key) && pair_key(code@, other, exchange_message(code@, secret@)) == Some(
                key@,
            )),
{
    match spake_finish(code.as_bytes(), "airwire-room-v1".as_bytes(), secret, message) {
        Ok(shared) => {
            let key = normalize_spake_key(shared.as_slice());
            Some(key)
        },
        Err(_) => None,
    }
}

/// A sealed packet is sixteen bytes longer than what it holds, has a nonce of
/// twenty-four bytes, and opens again with the same key in the same context.
pub proof fn law_sealed_packets_open_again(
    key: Seq<u8>,
    aad: Seq<u8>,
    plaintext: Seq<u8>,
    sealed: SealedView,
)
    requires
        seals(key, aad, plaintext, sealed),
    ensures
        opened(key, aad, sealed) == Ok::<Seq<u8>, OpenError>(plaintext),
        sealed.ciphertext.len() == plaintext.len() + 16,
        sealed.nonce.len() == 24,
        sealed.ciphertext == xchacha_seal(key, sealed.nonce, aad, plaintext),
{
}

/// Nothing is taken out of a packet but what the cipher finds authentic under
/// this very key, nonce and context: a packet of at least sixteen bytes opens
/// exactly if the cipher opens it, and a shorter one never.
pub proof fn law_only_authentic_packets_open(key: Seq<u8>, aad: Seq<u8>, sealed: SealedView)
    ensures
        opened(key, aad, sealed) is Ok ==> xchacha_open(key, sealed.nonce, aad, sealed.ciphertext)
            == Some(opened(key, aad, sealed)->Ok_0),
        16 <= sealed.ciphertext.len() <= 0x3f_ffff_ff80 && xchacha_open(
            key,
            sealed.nonce,
            aad,
            sealed.ciphertext,
        ) is Some ==> opened(key, aad, sealed) is Ok,
        sealed.ciphertext.len() < 16 <==> opened(key, aad, sealed) == Err::<Seq<u8>, OpenError>(
            OpenError::TooShort,
        ),
{
}

/// Every context names the program and the version of its protocol, a packet for
/// the room also names its sender behind that, and the keys of pairs are hashed
/// under a label of their own.
pub proof fn law_contexts_name_their_use(sender: Seq<u8>, shared: Seq<u8>)
    ensures
        pair_context() == "airwire/v1/pair".spec_bytes(),
        group_context(sender) == "airwire/v1/group".spec_bytes() + sender,
        normalized_key(shared) == sha256("airwire/v1/spake-key".spec_bytes() + shared),
        room_identity() == "airwire-room-v1".spec_bytes(),
{
}

/// Both sides of an exchange use the room code as the password and nothing else,
/// and the key of the pair is the hash of the one that the exchange gives.
pub proof fn law_exchanges_use_the_room_code(code: Seq<char>, secret: Seq<u8>, message: Seq<u8>)
    ensures
        exchange_message(code, secret) == spake_message(
            vstd::utf8::encode_utf8(code),
            "airwire-room-v1".spec_bytes(),
            secret,
        ),
        pair_key(code, secret, message) is Some <==> spake_key(
            vstd::utf8::encode_utf8(code),
            "airwire-room-v1".spec_bytes(),
            secret,
            message,
        ) is Some,
        pair_key(code, secret, message) is Some ==> pair_key(code, secret, message)->0 == sha256(
            "airwire/v1/spake-key".spec_bytes() + spake_key(
                vstd::utf8::encode_utf8(code),
                "airwire-room-v1".spec_bytes(),
                secret,
                message,
            )->0,
        ),
{
}

/// Nothing is left of an erased key.
pub proof fn law_erased_keys_are_zero(i: int)
    requires
        0 <= i < 32,
    ensures
        zero_key().len() == 32,
        zero_key()[i] == 0,
{
}

/// What each failure to open a packet says.
pub proof fn law_open_errors_are_worded(why: OpenError)
    ensures
        why.text() == match why {
            OpenError::TooShort => "encrypted packet is too short"@,
            OpenError::NotAuthentic => "packet authentication failed"@,
        },
{
}

} // verus!

//! Key derivation and management for QUIC: initial keys from a connection identifier, key
//! sets by encryption level, and AEAD payload encryption.

use vstd::prelude::*;
use vstd::string::StringSliceAdditionalSpecFns;
use crate::error::{H3Error, H3Result, TlsError};
use crate::transport::connection::ConnectionId;
use crate::transport::wire::{be64, push_be64};

verus! {

/// The error that *ring* reports (`ring::error::Unspecified`).
#[verifier::external_type_specification]
#[verifier::external_body]
pub struct ExUnspecified(ring::error::Unspecified);

/// HMAC-SHA256 of `msg` under `key` (the 32-byte tag).
pub uninterp spec fn hmac_sha256(key: Seq<u8>, msg: Seq<u8>) -> Seq<u8>;

/// HKDF-Expand with SHA-256 of the pseudorandom key `prk` and `info`, `len` bytes long.
pub uninterp spec fn hkdf_sha256_expand(prk: Seq<u8>, info: Seq<u8>, len: nat) -> Seq<u8>;

/// AES-128-GCM sealing of `plaintext`: the ciphertext followed by the tag.
pub uninterp spec fn aes128gcm_seal(
    key: Seq<u8>,
    nonce: Seq<u8>,
    aad: Seq<u8>,
    plaintext: Seq<u8>,
) -> Seq<u8>;

/// AES-128-GCM opening of `sealed`: the plaintext, or `None` when it does not authenticate.
pub uninterp spec fn aes128gcm_open(
    key: Seq<u8>,
    nonce: Seq<u8>,
    aad: Seq<u8>,
    sealed: Seq<u8>,
) -> Option<Seq<u8>>;

/// HMAC-SHA256 with *ring* (`hmac::Key::new` with `HMAC_SHA256`, then `hmac::sign`). The tag
/// is `hmac_sha256(key, msg)`, 32 bytes long. (*ring* panics only for inputs beyond SHA-256's
/// length limit, which the bounds leave out.)
#[verifier::external_body]
fn hmac_sha256_tag(key: &[u8], msg: &[u8]) -> (tag: Vec<u8>)
    requires
        key@.len() <= 64,
        msg@.len() <= 0x1000_0000,
    ensures
        tag@ == hmac_sha256(key@, msg@),
        tag@.len() == 32,
{
    let k = ring::hmac::Key::new(ring::hmac::HMAC_SHA256, key);
    ring::hmac::sign(&k, msg).as_ref().to_vec()
}

/// HKDF-Expand to 32 bytes with *ring* (`hkdf::Prk::new_less_safe` with `HKDF_SHA256`,
/// `Prk::expand` with the SHA-256 output length, `Okm::fill`). The source shows that expanding
/// fails only beyond 255 blocks and filling only for a buffer of another length, so the result
/// is `Ok`, holding `hkdf_sha256_expand(prk, info, 32)`.
#[verifier::external_body]
fn hkdf_sha256_expand32(prk: &[u8], info: &[u8]) -> (r: Result<
    Vec<u8>,
    ring::error::Unspecified,
>)
    requires
        prk@.len() <= 64,
        info@.len() <= 0x1000_0000,
    ensures
        r is Ok,
        r.unwrap()@ == hkdf_sha256_expand(prk@, info@, 32),
        r.unwrap()@.len() == 32,
{
    let prk = ring::hkdf::Prk::new_less_safe(ring::hkdf::HKDF_SHA256, prk);
    let info = [info];
    let okm = prk.expand(&info, ring::hkdf::HKDF_SHA256)?;
    let mut out = vec![0u8; 32];
    okm.fill(&mut out)?;
    Ok(out)
}

/// Whether *ring* accepts `key` as an AES-128-GCM key (`aead::UnboundKey::new`), which its
/// documentation says fails exactly when the key is not 16 bytes long.
#[verifier::external_body]
fn aes128gcm_accepts(key: &[u8]) -> (b: bool)
    ensures
        b == (key@.len() == 16),
{
    ring::aead::UnboundKey::new(&ring::aead::AES_128_GCM, key).is_ok()
}

/// The most bytes that AES-128-GCM seals under one nonce: 2^32 - 2 blocks of 16 bytes.
pub const GCM_MAX_DATA: u64 = 68_719_476_704;

/// The most bytes of additional data whose length in bits fits in a `u64`.
pub const GCM_MAX_AAD: u64 = 0x1fff_ffff_ffff_ffff;

/// AES-128-GCM sealing with *ring* (`LessSafeKey::seal_in_place_append_tag` on a copy of
/// `data`, the key made from `key` with `UnboundKey::new`). When it succeeds the result is
/// `aes128gcm_seal(..)`, and opening it with the same key, nonce and additional data gives
/// `data` back. It fails only when the data is longer than GCM's limit (2^36 - 32 bytes) or
/// the additional data's length in bits overflows a `u64`; within both it succeeds.
#[verifier::external_body]
fn aes128gcm_seal_bytes(key: &[u8], nonce: &[u8; 12], aad: &[u8], data: &[u8]) -> (r: Result<
    Vec<u8>,
    ring::error::Unspecified,
>)
    requires
        key@.len() == 16,
    ensures
        r is Ok ==> r.unwrap()@ == aes128gcm_seal(key@, nonce@, aad@, data@),
        r is Ok ==> aes128gcm_open(key@, nonce@, aad@, r.unwrap()@) == Some(data@),
        data@.len() <= GCM_MAX_DATA && aad@.len() <= GCM_MAX_AAD ==> r is Ok,
{
    let k = ring::aead::LessSafeKey::new(ring::aead::UnboundKey::new(&ring::aead::AES_128_GCM, key)?);
    let mut in_out = data.to_vec();
    k.seal_in_place_append_tag(
        ring::aead::Nonce::assume_unique_for_key(*nonce),
        ring::aead::Aad::from(aad),
        &mut in_out,
    )?;
    Ok(in_out)
}

/// AES-128-GCM opening with *ring* (`LessSafeKey::open_in_place` on a copy of `sealed`, the
/// key made from `key` with `UnboundKey::new`): the plaintext when `aes128gcm_open(..)` gives
/// one, an error when it gives none.
#[verifier::external_body]
fn aes128gcm_open_bytes(key: &[u8], nonce: &[u8; 12], aad: &[u8], sealed: &[u8]) -> (r: Result<
    Vec<u8>,
    ring::error::Unspecified,
>)
    requires
        key@.len() == 16,
    ensures
        aes128gcm_open(key@, nonce@, aad@, sealed@) is Some ==> r is Ok && r.unwrap()@
            == aes128gcm_open(key@, nonce@, aad@, sealed@).unwrap(),
        aes128gcm_open(key@, nonce@, aad@, sealed@) is None ==> r is Err,
{
    let k = ring::aead::LessSafeKey::new(ring::aead::UnboundKey::new(&ring::aead::AES_128_GCM, key)?);
    let mut in_out = sealed.to_vec();
    let plain = k.open_in_place(
        ring::aead::Nonce::assume_unique_for_key(*nonce),
        ring::aead::Aad::from(aad),
        &mut in_out,
    )?;
    Ok(plain.to_vec())
}

/// QUIC key phase.
#[derive(Debug, Clone, Copy, PartialEq, Eq, Structural)]
pub enum KeyPhase {
    /// Initial keys
    Initial,
    /// Handshake keys
    Handshake,
    /// 0-RTT keys
    ZeroRTT,
    /// 1-RTT keys (phase 0)
    OneRTTPhase0,
    /// 1-RTT keys (phase 1)
    OneRTTPhase1,
}

/// QUIC encryption level.
#[derive(Debug, Clone, Copy, PartialEq, Eq, Structural)]
pub enum EncryptionLevel {
    /// Initial encryption
    Initial,
    /// 0-RTT encryption
    ZeroRTT,
    /// Handshake encryption
    Handshake,
    /// 1-RTT encryption
    OneRTT,
}

/// QUIC key set.
#[derive(Debug)]
pub struct KeySet {
    /// Encryption level
    pub level: EncryptionLevel,
    /// Key phase
    pub phase: KeyPhase,
    /// Client write key
    pub client_key: Vec<u8>,
    /// Server write key
    pub server_key: Vec<u8>,
    /// Client write IV
    pub client_iv: Vec<u8>,
    /// Server write IV
    pub server_iv: Vec<u8>,
    /// Header protection key
    pub hp_key: Vec<u8>,
}

/// The value of a key set, keys as byte sequences.
pub struct KeySetModel {
    pub level: EncryptionLevel,
    pub phase: KeyPhase,
    pub client_key: Seq<u8>,
    pub server_key: Seq<u8>,
    pub client_iv: Seq<u8>,
    pub server_iv: Seq<u8>,
    pub hp_key: Seq<u8>,
}

impl View for KeySet {
    type V = KeySetModel;

    open spec fn view(&self) -> KeySetModel {
        KeySetModel {
            level: self.level,
            phase: self.phase,
            client_key: self.client_key@,
            server_key: self.server_key@,
            client_iv: self.client_iv@,
            server_iv: self.server_iv@,
            hp_key: self.hp_key@,
        }
    }
}

impl KeySet {
    /// Create a new key set with empty keys.
    pub fn new(level: EncryptionLevel, phase: KeyPhase) -> (k: Self)
        ensures
            k@ == (KeySetModel {
                level,
                phase,
                client_key: Seq::empty(),
                server_key: Seq::empty(),
                client_iv: Seq::empty(),
                server_iv: Seq::empty(),
                hp_key: Seq::empty(),
            }),
    {
        KeySet {
            level,
            phase,
            client_key: Vec::new(),
            server_key: Vec::new(),
            client_iv: Vec::new(),
            server_iv: Vec::new(),
            hp_key: Vec::new(),
        }
    }

    /// Get the write key for the specified role: the client's key for a client.
    pub fn write_key(&self, is_client: bool) -> (k: &[u8])
        ensures
            k@ == (if is_client {
                self.client_key@
            } else {
                self.server_key@
            }),
    {
        if is_client {
            self.client_key.as_slice()
        } else {
            self.server_key.as_slice()
        }
    }

    /// Get the read key for the specified role: the server's key for a client.
    pub fn read_key(&self, is_client: bool) -> (k: &[u8])
        ensures
            k@ == (if is_client {
                self.server_key@
            } else {
                self.client_key@
            }),
    {
        if is_client {
            self.server_key.as_slice()
        } else {
            self.client_key.as_slice()
        }
    }

    /// Get the write IV for the specified role.
    pub fn write_iv(&self, is_client: bool) -> (k: &[u8])
        ensures
            k@ == (if is_client {
                self.client_iv@
            } else {
                self.server_iv@
            }),
    {
        if is_client {
            self.client_iv.as_slice()
        } else {
            self.server_iv.as_slice()
        }
    }

    /// Get the read IV for the specified role.
    pub fn read_iv(&self, is_client: bool) -> (k: &[u8])
        ensures
            k@ == (if is_client {
                self.server_iv@
            } else {
                self.client_iv@
            }),
    {
        if is_client {
            self.server_iv.as_slice()
        } else {
            self.client_iv.as_slice()
        }
    }
}

/// The QUIC version 1 initial salt.
pub open spec fn quic_v1_initial_salt() -> Seq<u8> {
    seq![
        0x38u8, 0x76, 0x2c, 0xf7, 0xf5, 0x59, 0x34, 0xb3, 0x4d, 0x17, 0x9a, 0xe6, 0xa4, 0xc8, 0x0c,
        0xad, 0xcc, 0xbb, 0x7f, 0x0a,
    ]
}

/// The HKDF info for a label: the output length 32 as two bytes, the label's length and the
/// label, the context's length and the context (lengths cut to one byte).
pub open spec fn label_info_bytes(label: Seq<u8>, context: Seq<u8>) -> Seq<u8> {
    seq![0u8, 32u8, label.len() as u8] + label + seq![context.len() as u8] + context
}

/// 32 bytes expanded from `secret` for `label` with an empty context.
pub open spec fn expand_label_value(secret: Seq<u8>, label: Seq<u8>) -> Seq<u8> {
    hkdf_sha256_expand(secret, label_info_bytes(label, Seq::empty()), 32)
}

/// The initial key set derived from an initial secret: client and server secrets expanded
/// from it ("client in", "server in"), each side's key and IV expanded from its secret
/// ("quic key", "quic iv"), and the header protection key from the initial secret
/// ("quic hp").
pub open spec fn initial_keys_model(initial_secret: Seq<u8>) -> KeySetModel {
    let client = expand_label_value(initial_secret, "client in".spec_bytes());
    let server = expand_label_value(initial_secret, "server in".spec_bytes());
    KeySetModel {
        level: EncryptionLevel::Initial,
        phase: KeyPhase::Initial,
        client_key: expand_label_value(client, "quic key".spec_bytes()),
        server_key: expand_label_value(server, "quic key".spec_bytes()),
        client_iv: expand_label_value(client, "quic iv".spec_bytes()),
        server_iv: expand_label_value(server, "quic iv".spec_bytes()),
        hp_key: expand_label_value(initial_secret, "quic hp".spec_bytes()),
    }
}

/// The key and IV of one side: both expanded ("quic key", "quic iv") from one and the same
/// secret, the expansion of the initial secret for that side's label.
pub open spec fn side_key_and_iv(initial_secret: Seq<u8>, side_label: Seq<u8>) -> (Seq<u8>, Seq<u8>) {
    let side_secret = expand_label_value(initial_secret, side_label);
    (
        expand_label_value(side_secret, "quic key".spec_bytes()),
        expand_label_value(side_secret, "quic iv".spec_bytes()),
    )
}

/// The two sides of the initial keys are derived alike and differ only in the side's label:
/// the client's key and IV both come from the "client in" secret, the server's key and IV both
/// from the "server in" secret (so no server value comes from the client's secret), the two
/// labels differ, and the header protection key comes from the initial secret itself.
pub proof fn lemma_initial_keys_per_side(initial_secret: Seq<u8>)
    ensures
        ({
            let k = initial_keys_model(initial_secret);
            &&& (k.client_key, k.client_iv) == side_key_and_iv(
                initial_secret,
                "client in".spec_bytes(),
            )
            &&& (k.server_key, k.server_iv) == side_key_and_iv(
                initial_secret,
                "server in".spec_bytes(),
            )
            &&& "client in".spec_bytes() != "server in".spec_bytes()
            &&& k.hp_key == expand_label_value(initial_secret, "quic hp".spec_bytes())
        }),
{
    broadcast use vstd::string::is_ascii_spec_bytes;

    reveal_strlit("client in");
    reveal_strlit("server in");
    assert(vstd::string::is_ascii("client in"));
    assert(vstd::string::is_ascii("server in"));
    assert("client in".spec_bytes()[0] != "server in".spec_bytes()[0]);
}

/// Whether every key and IV of a key set is 32 bytes long.
pub open spec fn all_keys_32_bytes(k: KeySetModel) -> bool {
    &&& k.client_key.len() == 32
    &&& k.server_key.len() == 32
    &&& k.client_iv.len() == 32
    &&& k.server_iv.len() == 32
    &&& k.hp_key.len() == 32
}

/// The AEAD after `init` with `write_key` and `read_key`, and whether `init` succeeds: each
/// key must be 16 bytes long; the write key is taken (with a fresh nonce) before the read key
/// is checked.
pub open spec fn init_outcome(m: AeadModel, write_key: Seq<u8>, read_key: Seq<u8>) -> (
    AeadModel,
    bool,
) {
    if write_key.len() != 16 {
        (m, false)
    } else if read_key.len() != 16 {
        (AeadModel { write_key: Some(write_key), seal_nonce: zero_nonce(), ..m }, false)
    } else {
        (
            AeadModel {
                write_key: Some(write_key),
                read_key: Some(read_key),
                seal_nonce: zero_nonce(),
                open_nonce: zero_nonce(),
            },
            true,
        )
    }
}

/// The initial secret of a connection: HMAC-SHA256 of its identifier under the initial salt.
pub open spec fn initial_secret_of(connection_id: Seq<u8>) -> Seq<u8> {
    hmac_sha256(quic_v1_initial_salt(), connection_id)
}

fn initial_salt() -> (s: Vec<u8>)
    ensures
        s@ == quic_v1_initial_salt(),
{
    let s = vec![
        0x38u8, 0x76, 0x2c, 0xf7, 0xf5, 0x59, 0x34, 0xb3, 0x4d, 0x17, 0x9a, 0xe6, 0xa4, 0xc8, 0x0c,
        0xad, 0xcc, 0xbb, 0x7f, 0x0a,
    ];
    assert(s@ =~= quic_v1_initial_salt());
    s
}

/// The HKDF info for a label and a context.
pub fn label_info(label: &[u8], context: &[u8]) -> (info: Vec<u8>)
    ensures
        info@ == label_info_bytes(label@, context@),
{
    let mut info: Vec<u8> = Vec::new();
    info.push(0);
    info.push(32);
    info.push(label.len() as u8);
    for i in 0..label.len()
        invariant
            info@ == seq![0u8, 32u8, label@.len() as u8] + label@.take(i as int),
    {
        info.push(label[i]);
        assert(info@ =~= seq![0u8, 32u8, label@.len() as u8] + label@.take(i + 1));
    }
    assert(label@.take(label.len() as int) =~= label@);
    info.push(context.len() as u8);
    let ghost head = info@;
    for i in 0..context.len()
        invariant
            info@ == head + context@.take(i as int),
    {
        info.push(context[i]);
        assert(info@ =~= head + context@.take(i + 1));
    }
    assert(context@.take(context.len() as int) =~= context@);
    assert(info@ =~= label_info_bytes(label@, context@));
    info
}

/// QUIC key derivation.
#[derive(Debug)]
pub struct KeyDerivation;

impl KeyDerivation {
    /// Derive the initial keys of a connection from its identifier.
    pub fn derive_initial_keys(connection_id: &ConnectionId) -> (res: H3Result<KeySet>)
        ensures
            res matches Ok(ks) && ks@ == initial_keys_model(initial_secret_of(connection_id.0@))
                && all_keys_32_bytes(ks@),
    {
        let salt = initial_salt();
        let initial_secret = hmac_sha256_tag(salt.as_slice(), connection_id.0.as_slice());
        Self::keys_from_initial_secret(initial_secret.as_slice())
    }

    /// Derive the initial key set from an initial secret.
    pub fn keys_from_initial_secret(initial_secret: &[u8]) -> (res: H3Result<KeySet>)
        requires
            initial_secret@.len() <= 64,
        ensures
            res matches Ok(ks) && ks@ == initial_keys_model(initial_secret@) && all_keys_32_bytes(
                ks@,
            ),
    {
        broadcast use vstd::string::is_ascii_spec_bytes;

        proof {
            reveal_strlit("client in");
            reveal_strlit("server in");
            reveal_strlit("quic key");
            reveal_strlit("quic iv");
            reveal_strlit("quic hp");
            assert(vstd::string::is_ascii("client in"));
            assert(vstd::string::is_ascii("server in"));
            assert(vstd::string::is_ascii("quic key"));
            assert(vstd::string::is_ascii("quic iv"));
            assert(vstd::string::is_ascii("quic hp"));
        }
        let client_secret = Self::expand_label(initial_secret, "client in".as_bytes(), &[])?;
        let server_secret = Self::expand_label(initial_secret, "server in".as_bytes(), &[])?;
        let mut key_set = KeySet::new(EncryptionLevel::Initial, KeyPhase::Initial);
        key_set.client_key = Self::expand_label(client_secret.as_slice(), "quic key".as_bytes(), &[])?;
        key_set.client_iv = Self::expand_label(client_secret.as_slice(), "quic iv".as_bytes(), &[])?;
        key_set.server_key = Self::expand_label(server_secret.as_slice(), "quic key".as_bytes(), &[])?;
        key_set.server_iv = Self::expand_label(server_secret.as_slice(), "quic iv".as_bytes(), &[])?;
        key_set.hp_key = Self::expand_label(initial_secret, "quic hp".as_bytes(), &[])?;
        Ok(key_set)
    }

    /// Expand a label: 32 bytes of HKDF-Expand output for its info.
    fn expand_label(prk: &[u8], label: &[u8], context: &[u8]) -> (res: H3Result<Vec<u8>>)
        requires
            prk@.len() <= 64,
            label@.len() <= 255,
            context@.len() <= 255,
        ensures
            res matches Ok(okm) && okm@ == hkdf_sha256_expand(
                prk@,
                label_info_bytes(label@, context@),
                32,
            ) && okm@.len() == 32,
    {
        let info = label_info(label, context);
        match hkdf_sha256_expand32(prk, info.as_slice()) {
            Ok(okm) => Ok(okm),
            Err(_) => Err(H3Error::Tls(TlsError::KeyDerivationFailed)),
        }
    }
}

/// A nonce after mixing in a packet number: its last eight bytes XORed with the packet
/// number's eight bytes, most significant first.
pub open spec fn nonce_with(n: Seq<u8>, packet_number: u64) -> Seq<u8> {
    Seq::new(12, |i: int| if i < 4 { n[i] } else { n[i] ^ be64(packet_number)[i - 4] })
}

/// Twelve zero bytes.
pub open spec fn zero_nonce() -> Seq<u8> {
    Seq::new(12, |i: int| 0u8)
}

/// The state of an AEAD: the keys it was given, and the nonce of each direction.
pub struct AeadModel {
    pub write_key: Option<Seq<u8>>,
    pub read_key: Option<Seq<u8>>,
    pub seal_nonce: Seq<u8>,
    pub open_nonce: Seq<u8>,
}

/// AES-128-GCM encryption and decryption of packet payloads.
#[derive(Debug)]
pub struct Aead {
    write_key: Option<Vec<u8>>,
    read_key: Option<Vec<u8>>,
    seal_nonce: [u8; 12],
    open_nonce: [u8; 12],
}

impl View for Aead {
    type V = AeadModel;

    closed spec fn view(&self) -> AeadModel {
        AeadModel {
            write_key: match &self.write_key {
                Some(k) => Some(k@),
                None => None,
            },
            read_key: match &self.read_key {
                Some(k) => Some(k@),
                None => None,
            },
            seal_nonce: self.seal_nonce@,
            open_nonce: self.open_nonce@,
        }
    }
}

/// Whether the keys of an AEAD model are usable AES-128 keys.
pub open spec fn keys_well_sized(m: AeadModel) -> bool {
    &&& m.write_key matches Some(k) ==> k.len() == 16
    &&& m.read_key matches Some(k) ==> k.len() == 16
}

fn mix_packet_number(nonce: &mut [u8; 12], packet_number: u64)
    ensures
        final(nonce)@ == nonce_with(old(nonce)@, packet_number),
{
    let mut pn_bytes: Vec<u8> = Vec::new();
    push_be64(&mut pn_bytes, packet_number);
    assert(pn_bytes@ =~= be64(packet_number));
    for i in 0..8
        invariant
            pn_bytes@ == be64(packet_number),
            forall|k: int|
                0 <= k < 12 ==> #[trigger] nonce@[k] == (if 4 <= k < 4 + i {
                    old(nonce)@[k] ^ be64(packet_number)[k - 4]
                } else {
                    old(nonce)@[k]
                }),
    {
        nonce[4 + i] = nonce[4 + i] ^ pn_bytes[i];
    }
    assert(nonce@ =~= nonce_with(old(nonce)@, packet_number));
}

impl Aead {
    /// Create a new AEAD instance without keys.
    pub fn new() -> (a: Self)
        ensures
            a@ == (AeadModel {
                write_key: None,
                read_key: None,
                seal_nonce: zero_nonce(),
                open_nonce: zero_nonce(),
            }),
    {
        let a = Aead { write_key: None, read_key: None, seal_nonce: [0u8; 12], open_nonce: [0u8; 12] };
        assert(a@.seal_nonce =~= zero_nonce());
        assert(a@.open_nonce =~= zero_nonce());
        a
    }

    /// Initialize with keys. Each key must be an AES-128 key (16 bytes); the write key is set
    /// (with a fresh nonce) before the read key is checked.
    pub fn init(&mut self, write_key: &[u8], read_key: &[u8]) -> (res: H3Result<()>)
        ensures
            final(self)@ == init_outcome(old(self)@, write_key@, read_key@).0,
            init_outcome(old(self)@, write_key@, read_key@).1 ==> res is Ok,
            !init_outcome(old(self)@, write_key@, read_key@).1 ==> (res matches Err(
                H3Error::Tls(TlsError::KeyDerivationFailed),
            )),
            keys_well_sized(old(self)@) ==> keys_well_sized(final(self)@),
    {
        if !aes128gcm_accepts(write_key) {
            return Err(H3Error::Tls(TlsError::KeyDerivationFailed));
        }
        self.write_key = Some(vstd::slice::slice_to_vec(write_key));
        self.seal_nonce = [0u8; 12];
        assert(self@.seal_nonce =~= zero_nonce());
        if !aes128gcm_accepts(read_key) {
            return Err(H3Error::Tls(TlsError::KeyDerivationFailed));
        }
        self.read_key = Some(vstd::slice::slice_to_vec(read_key));
        self.open_nonce = [0u8; 12];
        assert(self@.open_nonce =~= zero_nonce());
        Ok(())
    }

    /// Seal (encrypt) data for a packet number: the packet number is first mixed into the
    /// sealing nonce (which keeps it), then the data is sealed with `aad`. Refused without a
    /// write key.
    pub fn seal(&mut self, packet_number: u64, data: &[u8], aad_data: &[u8]) -> (res: H3Result<
        Vec<u8>,
    >)
        requires
            keys_well_sized(old(self)@),
        ensures
            keys_well_sized(final(self)@),
            old(self)@.write_key is None ==> final(self)@ == old(self)@ && (res matches Err(
                H3Error::Tls(TlsError::EncryptionFailed),
            )),
            old(self)@.write_key matches Some(k) ==> {
                let n = nonce_with(old(self)@.seal_nonce, packet_number);
                &&& final(self)@ == AeadModel { seal_nonce: n, ..old(self)@ }
                &&& res matches Ok(c) ==> c@ == aes128gcm_seal(k, n, aad_data@, data@)
                    && aes128gcm_open(k, n, aad_data@, c@) == Some(data@)
                &&& res matches Err(e) ==> e matches H3Error::Tls(TlsError::EncryptionFailed)
            },
            old(self)@.write_key is Some && data@.len() <= GCM_MAX_DATA && aad_data@.len()
                <= GCM_MAX_AAD ==> res is Ok,
    {
        match &self.write_key {
            None => Err(H3Error::Tls(TlsError::EncryptionFailed)),
            Some(key) => {
                mix_packet_number(&mut self.seal_nonce, packet_number);
                match aes128gcm_seal_bytes(key.as_slice(), &self.seal_nonce, aad_data, data) {
                    Ok(c) => Ok(c),
                    Err(_) => Err(H3Error::Tls(TlsError::EncryptionFailed)),
                }
            },
        }
    }

    /// Open (decrypt) data for a packet number: the packet number is first mixed into the
    /// opening nonce (which keeps it), then the data is opened with `aad`. Refused without a
    /// read key, and when the data does not authenticate.
    pub fn open(&mut self, packet_number: u64, data: &[u8], aad_data: &[u8]) -> (res: H3Result<
        Vec<u8>,
    >)
        requires
            keys_well_sized(old(self)@),
        ensures
            keys_well_sized(final(self)@),
            old(self)@.read_key is None ==> final(self)@ == old(self)@ && (res matches Err(
                H3Error::Tls(TlsError::DecryptionFailed),
            )),
            old(self)@.read_key matches Some(k) ==> {
                let n = nonce_with(old(self)@.open_nonce, packet_number);
                &&& final(self)@ == AeadModel { open_nonce: n, ..old(self)@ }
                &&& match aes128gcm_open(k, n, aad_data@, data@) {
                    Some(p) => res matches Ok(v) && v@ == p,
                    None => res matches Err(H3Error::Tls(TlsError::DecryptionFailed)),
                }
            },
    {
        match &self.read_key {
            None => Err(H3Error::Tls(TlsError::DecryptionFailed)),
            Some(key) => {
                mix_packet_number(&mut self.open_nonce, packet_number);
                match aes128gcm_open_bytes(key.as_slice(), &self.open_nonce, aad_data, data) {
                    Ok(p) => Ok(p),
                    Err(_) => Err(H3Error::Tls(TlsError::DecryptionFailed)),
                }
            },
        }
    }
}

impl Default for Aead {
    fn default() -> (a: Self)
        ensures
            a@ == (AeadModel {
                write_key: None,
                read_key: None,
                seal_nonce: zero_nonce(),
                open_nonce: zero_nonce(),
            }),
    {
        Aead::new()
    }
}

/// What one side seals for a packet number, the other side opens: when the sender's write key
/// is the receiver's read key and their nonces agree, the receiver opens what the sender's
/// `seal` gave (whose contract says it opens under the sender's key and nonce) back to the data.
pub proof fn lemma_seal_then_open(
    sender: AeadModel,
    receiver: AeadModel,
    packet_number: u64,
    aad: Seq<u8>,
    data: Seq<u8>,
    sealed: Seq<u8>,
)
    requires
        sender.write_key is Some,
        receiver.read_key == sender.write_key,
        receiver.open_nonce == sender.seal_nonce,
        aes128gcm_open(
            sender.write_key.unwrap(),
            nonce_with(sender.seal_nonce, packet_number),
            aad,
            sealed,
        ) == Some(data),
    ensures
        aes128gcm_open(
            receiver.read_key.unwrap(),
            nonce_with(receiver.open_nonce, packet_number),
            aad,
            sealed,
        ) == Some(data),
{
}

} // verus!

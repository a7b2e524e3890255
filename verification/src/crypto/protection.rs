//! QUIC packet protection: payload encryption with the current keys, and header protection.

use vstd::prelude::*;
use crate::crypto::tls::TlsSession;
use crate::crypto::keys::{
    Aead, AeadModel, EncryptionLevel, KeyDerivation, KeySet, KeySetModel, aes128gcm_open,
    aes128gcm_seal, init_outcome, GCM_MAX_DATA, GCM_MAX_AAD, keys_well_sized, nonce_with,
};
use crate::error::{H3Error, H3Result, TlsError};
use crate::transport::connection::ConnectionId;

verus! {

/// The state of packet protection.
pub struct ProtectionModel {
    pub initial_keys: Option<KeySetModel>,
    pub handshake_keys: Option<KeySetModel>,
    pub one_rtt_keys: Option<KeySetModel>,
    pub aead: AeadModel,
    pub is_client: bool,
}

/// QUIC packet protection.
#[derive(Debug)]
pub struct PacketProtection {
    tls: TlsSession,
    initial_keys: Option<KeySet>,
    handshake_keys: Option<KeySet>,
    one_rtt_keys: Option<KeySet>,
    aead: Aead,
    is_client: bool,
}

/// The value of an optional key set.
pub open spec fn key_set_view(k: Option<KeySet>) -> Option<KeySetModel> {
    match k {
        Some(ks) => Some(ks@),
        None => None,
    }
}

impl View for PacketProtection {
    type V = ProtectionModel;

    closed spec fn view(&self) -> ProtectionModel {
        ProtectionModel {
            initial_keys: key_set_view(self.initial_keys),
            handshake_keys: key_set_view(self.handshake_keys),
            one_rtt_keys: key_set_view(self.one_rtt_keys),
            aead: self.aead@,
            is_client: self.is_client,
        }
    }
}

/// The header protection mask for a sample: its first five bytes XORed with 0x55 (zero where
/// the sample is shorter).
pub open spec fn mask_of(sample: Seq<u8>) -> Seq<u8> {
    Seq::new(5, |i: int| if i < sample.len() { sample[i] ^ 0x55u8 } else { 0u8 })
}

/// A header with header protection applied: the low four bits of the first byte (five for a
/// short header, whose high bit is clear) XORed with the mask's first byte, and the next four
/// bytes XORed with the rest of the mask.
pub open spec fn protected_header(h: Seq<u8>, sample: Seq<u8>) -> Seq<u8> {
    if h.len() == 0 {
        h
    } else {
        let m = mask_of(sample);
        let bits: u8 = if h[0] & 0x80u8 != 0 { 0x0f } else { 0x1f };
        Seq::new(
            h.len(),
            |i: int|
                if i == 0 {
                    h[0] ^ (m[0] & bits)
                } else if i < 5 {
                    h[i] ^ m[i]
                } else {
                    h[i]
                },
        )
    }
}

/// The key set that `update_keys` stores for a level (0-RTT keys are not stored).
pub open spec fn with_level_keys(m: ProtectionModel, level: EncryptionLevel, k: KeySetModel) -> ProtectionModel {
    match level {
        EncryptionLevel::Initial => ProtectionModel { initial_keys: Some(k), ..m },
        EncryptionLevel::Handshake => ProtectionModel { handshake_keys: Some(k), ..m },
        EncryptionLevel::OneRTT => ProtectionModel { one_rtt_keys: Some(k), ..m },
        EncryptionLevel::ZeroRTT => m,
    }
}

/// The write key of a key set for a role.
pub open spec fn write_key_of(k: KeySetModel, is_client: bool) -> Seq<u8> {
    if is_client {
        k.client_key
    } else {
        k.server_key
    }
}

/// The read key of a key set for a role.
pub open spec fn read_key_of(k: KeySetModel, is_client: bool) -> Seq<u8> {
    if is_client {
        k.server_key
    } else {
        k.client_key
    }
}

fn header_protection_mask(sample: &[u8]) -> (mask: [u8; 5])
    ensures
        mask@ == mask_of(sample@),
{
    let mut mask = [0u8; 5];
    for i in 0..5
        invariant
            forall|k: int|
                0 <= k < 5 ==> #[trigger] mask@[k] == (if k < i && k < sample@.len() {
                    sample@[k] ^ 0x55u8
                } else {
                    0u8
                }),
    {
        if i < sample.len() {
            mask[i] = sample[i] ^ 0x55;
        }
    }
    assert(mask@ =~= mask_of(sample@));
    mask
}

/// Apply header protection in place; applying it again removes it.
fn apply_header_protection(header: &mut Vec<u8>, sample: &[u8])
    ensures
        final(header)@ == protected_header(old(header)@, sample@),
{
    let mask = header_protection_mask(sample);
    if header.len() == 0 {
        return;
    }
    let mask_bits: u8 = if (header[0] & 0x80) != 0 {
        0x0f
    } else {
        0x1f
    };
    let first = header[0] ^ (mask[0] & mask_bits);
    header.set(0, first);
    let n = if header.len() < 5 {
        header.len()
    } else {
        5
    };
    for i in 1..n
        invariant
            n <= 5,
            n <= header@.len(),
            header@.len() == old(header)@.len(),
            forall|k: int|
                0 <= k < header@.len() ==> #[trigger] header@[k] == (if k == 0 {
                    old(header)@[0] ^ (mask@[0] & mask_bits)
                } else if k < i {
                    old(header)@[k] ^ mask@[k]
                } else {
                    old(header)@[k]
                }),
    {
        let b = header[i] ^ mask[i];
        header.set(i, b);
    }
    assert(header@ =~= protected_header(old(header)@, sample@));
}

/// Removing header protection is applying it again.
fn remove_header_protection(header: &mut Vec<u8>, sample: &[u8])
    ensures
        final(header)@ == protected_header(old(header)@, sample@),
{
    apply_header_protection(header, sample);
}

/// Header protection undoes itself: applying it twice with the same sample gives the header
/// back.
pub proof fn lemma_header_protection_involution(h: Seq<u8>, sample: Seq<u8>)
    ensures
        protected_header(protected_header(h, sample), sample) == h,
{
    if h.len() > 0 {
        let m = mask_of(sample);
        let bits: u8 = if h[0] & 0x80u8 != 0 { 0x0f } else { 0x1f };
        let p = protected_header(h, sample);
        let h0 = h[0];
        let m0 = m[0];
        assert((h0 ^ (m0 & bits)) & 0x80u8 == h0 & 0x80u8) by (bit_vector)
            requires
                bits == 0x0fu8 || bits == 0x1fu8,
        ;
        assert((h0 ^ (m0 & bits)) ^ (m0 & bits) == h0) by (bit_vector);
        assert forall|i: int| 1 <= i < 5 && i < h.len() implies (#[trigger] h[i] ^ m[i]) ^ m[i]
            == h[i] by {
            let a = h[i];
            let b = m[i];
            assert((a ^ b) ^ b == a) by (bit_vector);
        }
        assert(protected_header(p, sample) =~= h);
    }
}

impl PacketProtection {
    /// Create packet protection for a connection: derive its initial keys and initialize
    /// the AEAD with this side's keys. The derived keys are 32 bytes long, which AES-128-GCM
    /// does not accept, so this always fails with `KeyDerivationFailed`.
    pub fn new(tls: TlsSession, connection_id: ConnectionId, is_client: bool) -> (res: H3Result<Self>)
        ensures
            res matches Err(H3Error::Tls(TlsError::KeyDerivationFailed)),
    {
        let initial_keys = KeyDerivation::derive_initial_keys(&connection_id)?;
        let mut aead = Aead::new();
        aead.init(initial_keys.write_key(is_client), initial_keys.read_key(is_client))?;
        Ok(
            PacketProtection {
                tls,
                initial_keys: Some(initial_keys),
                handshake_keys: None,
                one_rtt_keys: None,
                aead,
                is_client,
            },
        )
    }

    /// Protect a packet: the header followed by the payload sealed with the header as
    /// additional data.
    pub fn protect_packet(&mut self, packet_number: u64, header: &[u8], payload: &[u8]) -> (res:
        H3Result<Vec<u8>>)
        requires
            keys_well_sized(old(self)@.aead),
        ensures
            keys_well_sized(final(self)@.aead),
            old(self)@.aead.write_key is None ==> final(self)@ == old(self)@ && (res matches Err(
                H3Error::Tls(TlsError::EncryptionFailed),
            )),
            old(self)@.aead.write_key matches Some(k) ==> {
                let n = nonce_with(old(self)@.aead.seal_nonce, packet_number);
                &&& final(self)@ == ProtectionModel {
                    aead: AeadModel { seal_nonce: n, ..old(self)@.aead },
                    ..old(self)@
                }
                &&& res matches Ok(b) ==> b@ == header@ + aes128gcm_seal(k, n, header@, payload@)
                &&& res matches Err(e) ==> e matches H3Error::Tls(TlsError::EncryptionFailed)
            },
            old(self)@.aead.write_key is Some && payload@.len() <= GCM_MAX_DATA && header@.len()
                <= GCM_MAX_AAD ==> res is Ok,
    {
        let encrypted_payload = self.aead.seal(packet_number, payload, header)?;
        let mut buffer = vstd::slice::slice_to_vec(header);
        for i in 0..encrypted_payload.len()
            invariant
                buffer@ == header@ + encrypted_payload@.take(i as int),
        {
            buffer.push(encrypted_payload[i]);
            assert(buffer@ =~= header@ + encrypted_payload@.take(i + 1));
        }
        assert(encrypted_payload@.take(encrypted_payload.len() as int) =~= encrypted_payload@);
        Ok(buffer)
    }

    /// Unprotect a packet: its first 20 bytes are the header, the rest the payload opened
    /// with the header as additional data. Refused for fewer than 20 bytes.
    pub fn unprotect_packet(&mut self, packet_number: u64, data: &[u8]) -> (res: H3Result<
        (Vec<u8>, Vec<u8>),
    >)
        requires
            keys_well_sized(old(self)@.aead),
        ensures
            keys_well_sized(final(self)@.aead),
            data@.len() < 20 ==> final(self)@ == old(self)@ && (res matches Err(
                H3Error::Tls(TlsError::DecryptionFailed),
            )),
            data@.len() >= 20 && old(self)@.aead.read_key is None ==> final(self)@ == old(self)@
                && (res matches Err(H3Error::Tls(TlsError::DecryptionFailed))),
            data@.len() >= 20 && old(self)@.aead.read_key is Some ==> {
                let k = old(self)@.aead.read_key.unwrap();
                let n = nonce_with(old(self)@.aead.open_nonce, packet_number);
                let header = data@.subrange(0, 20);
                let body = data@.subrange(20, data@.len() as int);
                &&& final(self)@ == ProtectionModel {
                    aead: AeadModel { open_nonce: n, ..old(self)@.aead },
                    ..old(self)@
                }
                &&& match aes128gcm_open(k, n, header, body) {
                    Some(p) => res matches Ok((h, v)) && h@ == header && v@ == p,
                    None => res matches Err(H3Error::Tls(TlsError::DecryptionFailed)),
                }
            },
    {
        if data.len() < 20 {
            return Err(H3Error::Tls(TlsError::DecryptionFailed));
        }
        let header = vstd::slice::slice_to_vec(vstd::slice::slice_subrange(data, 0, 20));
        let encrypted_payload = vstd::slice::slice_subrange(data, 20, data.len());
        let decrypted_payload = self.aead.open(packet_number, encrypted_payload, header.as_slice())?;
        Ok((header, decrypted_payload))
    }

    /// Update with keys for a new encryption level: the key set is kept for its level (0-RTT
    /// keys are not kept), and the AEAD is initialized with this side's keys of the set.
    pub fn update_keys(&mut self, level: EncryptionLevel, keys: KeySet) -> (res: H3Result<()>)
        requires
            keys_well_sized(old(self)@.aead),
        ensures
            ({
                let (a, ok) = init_outcome(
                    old(self)@.aead,
                    write_key_of(keys@, old(self)@.is_client),
                    read_key_of(keys@, old(self)@.is_client),
                );
                &&& final(self)@ == ProtectionModel {
                    aead: a,
                    ..with_level_keys(old(self)@, level, keys@)
                }
                &&& ok ==> res is Ok
                &&& !ok ==> (res matches Err(H3Error::Tls(TlsError::KeyDerivationFailed)))
            }),
            keys_well_sized(final(self)@.aead),
    {
        let r = self.aead.init(keys.write_key(self.is_client), keys.read_key(self.is_client));
        match level {
            EncryptionLevel::Initial => {
                self.initial_keys = Some(keys);
            },
            EncryptionLevel::Handshake => {
                self.handshake_keys = Some(keys);
            },
            EncryptionLevel::OneRTT => {
                self.one_rtt_keys = Some(keys);
            },
            EncryptionLevel::ZeroRTT => {},
        }
        r
    }
}

} // verus!

//! Nonce discipline and authenticated encryption of datagrams.
//!
//! A datagram on the wire is the eight low octets of the nonce, then the
//! ciphertext, then a sixteen-octet authentication tag. The full nonce is
//! four zero octets followed by those eight.

use crate::bytes::{
    copy_range, extend_bytes, lemma_u64_be_roundtrip, read_u64_be, spec_u64_be, spec_u64_from_be,
};
use vstd::prelude::*;
use vstd::string::StringSliceAdditionalSpecFns;

verus! {

/// Length of the nonce handed to the cipher.
pub const NONCE_LEN: usize = 12;

/// Length of the part of the nonce that travels with the datagram.
pub const NONCE_WIRE_LEN: usize = 8;

/// Length of the authentication tag.
pub const TAG_LEN: usize = 16;

/// Shortest datagram that can hold a nonce and a tag.
pub const MIN_DATAGRAM_LEN: usize = 24;

/// Length of the textual form of a key.
pub const KEY_TEXT_LEN: usize = 22;

/// The low 63 bits of a nonce value: the sequence number.
pub const SEQUENCE_MASK: u64 = 0x7FFF_FFFF_FFFF_FFFF;

/// Which peer a datagram is addressed to. The sender's direction is the top
/// bit of every nonce it produces.
#[derive(Debug, Clone, Copy, PartialEq, Eq, Structural)]
pub enum Direction {
    /// Client to server: top bit clear.
    ToServer,
    /// Server to client: top bit set.
    ToClient,
}

impl Direction {
    /// The direction as the value of the nonce's top bit.
    pub open spec fn spec_bit(self) -> u64 {
        match self {
            Direction::ToServer => 0,
            Direction::ToClient => 1,
        }
    }

    /// The direction as the value of the nonce's top bit.
    pub fn bit(self) -> (b: u64)
        ensures
            b == self.spec_bit(),
    {
        match self {
            Direction::ToServer => 0,
            Direction::ToClient => 1,
        }
    }
}

/// Why a key was refused or a datagram could not be opened.
#[derive(Debug, Clone, Copy, PartialEq, Eq, Structural)]
pub enum CryptoError {
    /// The textual key is not exactly 22 octets long.
    KeyLength,
    /// The textual key is not valid base64, or does not decode to 16 octets.
    KeyEncoding,
    /// The datagram is shorter than a nonce and a tag.
    TooShort,
    /// The authentication tag does not match.
    Integrity,
    /// The message or datagram is longer than the cipher takes.
    TooLong,
    /// The cipher has refused to seal the message.
    Cipher,
}

/// What the standard base64 alphabet, with padding required, decodes `text`
/// to; `None` where `text` is not a valid encoding.
pub uninterp spec fn base64_decoded(text: Seq<u8>) -> Option<Seq<u8>>;

/// The ciphertext and tag that AES-128-OCB3 produces for `plaintext` under
/// `key` and a twelve-octet `nonce`, with no associated data; `None` where
/// the cipher reports an error.
pub uninterp spec fn ocb3_sealed(key: Seq<u8>, nonce: Seq<u8>, plaintext: Seq<u8>) -> Option<
    Seq<u8>,
>;

/// The plaintext that AES-128-OCB3 recovers from `sealed` under `key` and
/// `nonce`; `None` where the tag does not authenticate it.
pub uninterp spec fn ocb3_opened(key: Seq<u8>, nonce: Seq<u8>, sealed: Seq<u8>) -> Option<
    Seq<u8>,
>;

/// Longest message the cipher takes: one octet less than 2^36 on a 64-bit
/// machine, and than 2^20 on a 32-bit one. The cipher numbers the blocks
/// of sixteen octets from one and keeps a table for the numbers below 2^32,
/// or 2^16: a message of 2^36, or 2^20, octets has a block past it.
pub open spec fn max_message_len() -> int {
    if usize::BITS == 64 {
        0xF_FFFF_FFFF
    } else {
        0xF_FFFF
    }
}

/// Whether a message of `len` octets is within what the cipher takes.
pub fn within_cipher_limit(len: usize) -> (within: bool)
    ensures
        within == (len <= max_message_len()),
{
    if usize::BITS == 64 {
        len as u64 <= 0xF_FFFF_FFFF
    } else {
        len as u64 <= 0xF_FFFF
    }
}

/// Calls `base64::Engine::decode` on the `STANDARD` engine. The contract
/// claims only that the outcome is a function of the text: it names it.
#[verifier::external_body]
fn base64_decode(text: &[u8]) -> (out: Option<Vec<u8>>)
    ensures
        match out {
            Some(v) => base64_decoded(text@) == Some(v@),
            None => base64_decoded(text@).is_none(),
        },
{
    base64::Engine::decode(&base64::engine::general_purpose::STANDARD, text).ok()
}

/// Calls `ocb3::Ocb3::<Aes128, U12>::new` and `aead::Aead::encrypt`. The
/// contract claims that the outcome is a function of key, nonce and
/// message, that a sealed message is the message's length plus a tag, and
/// that it opens again to the message under the same key and nonce. A
/// message longer than the cipher takes is left out.
#[verifier::external_body]
fn ocb3_seal(key: &[u8; 16], nonce: &[u8; 12], plaintext: &[u8]) -> (sealed: Option<Vec<u8>>)
    requires
        plaintext@.len() <= max_message_len(),
    ensures
        match sealed {
            Some(c) => ocb3_sealed(key@, nonce@, plaintext@) == Some(c@) && c@.len()
                == plaintext@.len() + TAG_LEN && ocb3_opened(key@, nonce@, c@) == Some(
                plaintext@,
            ),
            None => ocb3_sealed(key@, nonce@, plaintext@).is_none(),
        },
{
    let cipher: ocb3::Ocb3<aes::Aes128, aead::consts::U12> = aead::KeyInit::new(
        aead::generic_array::GenericArray::from_slice(key),
    );
    let nonce = aead::generic_array::GenericArray::from_slice(nonce);
    aead::Aead::encrypt(&cipher, nonce, plaintext).ok()
}

/// Calls `ocb3::Ocb3::<Aes128, U12>::new` and `aead::Aead::decrypt`. The
/// contract claims that the outcome is a function of key, nonce and input,
/// and that a recovered message is the input without its tag in length. An
/// input longer than the cipher takes, with a tag, is left out.
#[verifier::external_body]
fn ocb3_open(key: &[u8; 16], nonce: &[u8; 12], sealed: &[u8]) -> (opened: Option<Vec<u8>>)
    requires
        sealed@.len() <= max_message_len() + TAG_LEN,
    ensures
        match opened {
            Some(p) => ocb3_opened(key@, nonce@, sealed@) == Some(p@) && p@.len() + TAG_LEN
                == sealed@.len(),
            None => ocb3_opened(key@, nonce@, sealed@).is_none(),
        },
{
    let cipher: ocb3::Ocb3<aes::Aes128, aead::consts::U12> = aead::KeyInit::new(
        aead::generic_array::GenericArray::from_slice(key),
    );
    let nonce = aead::generic_array::GenericArray::from_slice(nonce);
    aead::Aead::decrypt(&cipher, nonce, sealed).ok()
}

/// A sixteen-octet symmetric key.
#[derive(Clone, Copy)]
pub struct Base64Key {
    key: [u8; 16],
}

impl View for Base64Key {
    type V = Seq<u8>;

    closed spec fn view(&self) -> Seq<u8> {
        self.key@
    }
}

/// The text with the two padding characters that the 22-character form
/// leaves out.
pub open spec fn spec_padded_key_text(text: Seq<u8>) -> Seq<u8> {
    text + seq![0x3Du8, 0x3Du8]
}

/// The key that a textual form stands for, or the reason it stands for none.
pub open spec fn spec_key_from_text(text: Seq<u8>) -> Result<Seq<u8>, CryptoError> {
    if text.len() != KEY_TEXT_LEN {
        Err(CryptoError::KeyLength)
    } else {
        match base64_decoded(spec_padded_key_text(text)) {
            Some(k) => if k.len() == 16 {
                Ok(k)
            } else {
                Err(CryptoError::KeyEncoding)
            },
            None => Err(CryptoError::KeyEncoding),
        }
    }
}

impl Base64Key {
    /// Parses the 22-character textual form of a key.
    pub fn from_str(s: &str) -> (parsed: Result<Base64Key, CryptoError>)
        ensures
            match parsed {
                Ok(k) => spec_key_from_text(s.spec_bytes()) == Ok::<Seq<u8>, CryptoError>(k@),
                Err(e) => spec_key_from_text(s.spec_bytes()) == Err::<Seq<u8>, CryptoError>(e),
            },
    {
        let text = s.as_bytes();
        if text.len() != KEY_TEXT_LEN {
            return Err(CryptoError::KeyLength);
        }
        let mut padded: Vec<u8> = Vec::new();
        extend_bytes(&mut padded, text);
        padded.push(0x3D);
        padded.push(0x3D);
        assert(padded@ =~= spec_padded_key_text(text@));
        match base64_decode(padded.as_slice()) {
            Some(decoded) => {
                if decoded.len() != 16 {
                    return Err(CryptoError::KeyEncoding);
                }
                let key = Base64Key::from_octets(decoded.as_slice());
                Ok(key)
            },
            None => Err(CryptoError::KeyEncoding),
        }
    }

    /// Makes a key of sixteen given octets.
    pub fn from_octets(octets: &[u8]) -> (k: Base64Key)
        requires
            octets@.len() == 16,
        ensures
            k@ == octets@,
    {
        let key: [u8; 16] = [
            octets[0],
            octets[1],
            octets[2],
            octets[3],
            octets[4],
            octets[5],
            octets[6],
            octets[7],
            octets[8],
            octets[9],
            octets[10],
            octets[11],
            octets[12],
            octets[13],
            octets[14],
            octets[15],
        ];
        assert(key@ =~= octets@);
        Base64Key { key }
    }

    /// The sixteen octets of the key.
    pub fn as_bytes(&self) -> (k: &[u8; 16])
        ensures
            k@ == self@,
            k@.len() == 16,
    {
        &self.key
    }
}

/// The 64-bit value of a nonce: the direction in the top bit, the sequence
/// number in the low 63.
pub open spec fn spec_nonce_value(direction: Direction, seq: u64) -> u64 {
    (direction.spec_bit() << 63) | (seq & SEQUENCE_MASK)
}

/// The direction and sequence number that a nonce value holds.
pub open spec fn spec_nonce_fields(value: u64) -> (Direction, u64) {
    (
        if value >> 63 == 1 {
            Direction::ToClient
        } else {
            Direction::ToServer
        },
        value & SEQUENCE_MASK,
    )
}

/// The full nonce: four zero octets, then the value, most significant octet
/// first.
pub open spec fn spec_make_nonce(direction: Direction, seq: u64) -> Seq<u8> {
    seq![0u8, 0u8, 0u8, 0u8] + spec_u64_be(spec_nonce_value(direction, seq))
}

/// The full nonce that a wire nonce stands for.
pub open spec fn spec_wire_to_nonce(wire: Seq<u8>) -> Seq<u8> {
    seq![0u8, 0u8, 0u8, 0u8] + wire
}

/// The part of a full nonce that goes on the wire.
pub open spec fn spec_nonce_to_wire(nonce: Seq<u8>) -> Seq<u8> {
    nonce.subrange(4, 12)
}

/// Whether a full nonce begins with the four zero octets that a receiver
/// will put there.
pub open spec fn nonce_is_canonical(nonce: Seq<u8>) -> bool {
    nonce.len() == 12 && nonce[0] == 0 && nonce[1] == 0 && nonce[2] == 0 && nonce[3] == 0
}

/// Builds the twelve-octet nonce for a direction and a sequence number.
pub fn make_nonce(direction: Direction, seq: u64) -> (nonce: [u8; 12])
    ensures
        nonce@ == spec_make_nonce(direction, seq),
        nonce_is_canonical(nonce@),
{
    let val: u64 = (direction.bit() << 63) | (seq & SEQUENCE_MASK);
    let nonce: [u8; 12] = [
        0,
        0,
        0,
        0,
        (val >> 56) as u8,
        ((val >> 48) & 0xff) as u8,
        ((val >> 40) & 0xff) as u8,
        ((val >> 32) & 0xff) as u8,
        ((val >> 24) & 0xff) as u8,
        ((val >> 16) & 0xff) as u8,
        ((val >> 8) & 0xff) as u8,
        (val & 0xff) as u8,
    ];
    assert(nonce@ =~= spec_make_nonce(direction, seq));
    nonce
}

/// Takes the eight wire octets out of a full nonce.
pub fn nonce_to_wire(nonce: &[u8; 12]) -> (wire: [u8; 8])
    ensures
        wire@ == spec_nonce_to_wire(nonce@),
{
    let wire: [u8; 8] = [
        nonce[4],
        nonce[5],
        nonce[6],
        nonce[7],
        nonce[8],
        nonce[9],
        nonce[10],
        nonce[11],
    ];
    assert(wire@ =~= spec_nonce_to_wire(nonce@));
    wire
}

/// Puts the four zero octets back in front of a wire nonce.
pub fn wire_to_nonce(wire: &[u8; 8]) -> (nonce: [u8; 12])
    ensures
        nonce@ == spec_wire_to_nonce(wire@),
        nonce_is_canonical(nonce@),
{
    let nonce: [u8; 12] = [
        0,
        0,
        0,
        0,
        wire[0],
        wire[1],
        wire[2],
        wire[3],
        wire[4],
        wire[5],
        wire[6],
        wire[7],
    ];
    assert(nonce@ =~= spec_wire_to_nonce(wire@));
    nonce
}

/// Reads the direction and the sequence number out of a wire nonce.
pub fn parse_nonce(wire_nonce: &[u8; 8]) -> (fields: (Direction, u64))
    ensures
        fields == spec_nonce_fields(spec_u64_from_be(wire_nonce@)),
{
    let val: u64 = read_u64_be(wire_nonce.as_slice(), 0);
    assert(wire_nonce@.subrange(0, 8) =~= wire_nonce@);
    let direction = if val >> 63 == 1 {
        Direction::ToClient
    } else {
        Direction::ToServer
    };
    (direction, val & SEQUENCE_MASK)
}

/// A nonce carries its direction in the top bit and its sequence number,
/// reduced to 63 bits, below it: reading the wire form of a fresh nonce
/// gives both back.
pub proof fn lemma_nonce_carries_direction_and_sequence(direction: Direction, seq: u64)
    ensures
        spec_nonce_value(direction, seq) >> 63 == direction.spec_bit(),
        spec_nonce_value(direction, seq) & SEQUENCE_MASK == seq & SEQUENCE_MASK,
        seq <= SEQUENCE_MASK ==> spec_nonce_value(direction, seq) & SEQUENCE_MASK == seq,
        spec_nonce_fields(
            spec_u64_from_be(spec_nonce_to_wire(spec_make_nonce(direction, seq))),
        ) == (direction, seq & SEQUENCE_MASK),
{
    let bit = direction.spec_bit();
    let v = spec_nonce_value(direction, seq);
    assert(bit == 0 || bit == 1);
    assert((bit == 0 || bit == 1) ==> ((bit << 63) | (seq & 0x7FFF_FFFF_FFFF_FFFFu64)) >> 63
        == bit) by (bit_vector);
    assert((bit == 0 || bit == 1) ==> ((bit << 63) | (seq & 0x7FFF_FFFF_FFFF_FFFFu64))
        & 0x7FFF_FFFF_FFFF_FFFFu64 == seq & 0x7FFF_FFFF_FFFF_FFFFu64) by (bit_vector);
    assert(seq <= 0x7FFF_FFFF_FFFF_FFFFu64 ==> seq & 0x7FFF_FFFF_FFFF_FFFFu64 == seq)
        by (bit_vector);
    lemma_u64_be_roundtrip(v);
    assert(spec_nonce_to_wire(spec_make_nonce(direction, seq)) =~= spec_u64_be(v));
}

/// A session key, ready to seal and open datagrams.
#[derive(Clone, Copy)]
pub struct Session {
    key: Base64Key,
}

impl Session {
    /// The key of the session.
    pub closed spec fn spec_key(&self) -> Seq<u8> {
        self.key@
    }

    /// The datagram that sealing `plaintext` under `nonce` gives: the wire
    /// nonce, then ciphertext and tag; or the reason there is none: the
    /// message is longer than the cipher takes, or the cipher refuses it.
    pub open spec fn spec_encrypt(&self, nonce: Seq<u8>, plaintext: Seq<u8>) -> Result<
        Seq<u8>,
        CryptoError,
    > {
        if plaintext.len() > max_message_len() {
            Err(CryptoError::TooLong)
        } else {
            match ocb3_sealed(self.spec_key(), nonce, plaintext) {
                Some(c) => Ok(spec_nonce_to_wire(nonce) + c),
                None => Err(CryptoError::Cipher),
            }
        }
    }

    /// The nonce and message that a datagram opens to, or the reason it
    /// does not open: it is shorter than a nonce and a tag, or longer than
    /// the cipher takes, or its tag does not match.
    pub open spec fn spec_decrypt(&self, datagram: Seq<u8>) -> Result<
        (Seq<u8>, Seq<u8>),
        CryptoError,
    > {
        if datagram.len() < MIN_DATAGRAM_LEN {
            Err(CryptoError::TooShort)
        } else if datagram.len() > max_message_len() + MIN_DATAGRAM_LEN {
            Err(CryptoError::TooLong)
        } else {
            let nonce = spec_wire_to_nonce(datagram.subrange(0, 8));
            match ocb3_opened(
                self.spec_key(),
                nonce,
                datagram.subrange(8, datagram.len() as int),
            ) {
                Some(p) => Ok((nonce, p)),
                None => Err(CryptoError::Integrity),
            }
        }
    }

    /// Starts a session on a key.
    pub fn from_key(key: &Base64Key) -> (session: Session)
        ensures
            session.spec_key() == key@,
    {
        Session { key: *key }
    }

    /// Starts a session on a key; this never fails.
    pub fn new(key: &Base64Key) -> (made: Result<Session, CryptoError>)
        ensures
            made is Ok,
            made->Ok_0.spec_key() == key@,
    {
        Ok(Session::from_key(key))
    }

    /// Seals `plaintext` under `nonce` and frames it as a datagram: the
    /// wire nonce, then ciphertext and tag. With a nonce that begins with
    /// four zero octets, the datagram opens again to the same nonce and
    /// message. A message longer than the cipher takes gives `TooLong`,
    /// one that the cipher refuses `Cipher`.
    pub fn encrypt(&self, nonce: &[u8; 12], plaintext: &[u8]) -> (sealed: Result<
        Vec<u8>,
        CryptoError,
    >)
        ensures
            match sealed {
                Ok(datagram) => self.spec_encrypt(nonce@, plaintext@) == Ok::<Seq<u8>, CryptoError>(
                    datagram@,
                ) && datagram@.len() == plaintext@.len() + MIN_DATAGRAM_LEN && (nonce_is_canonical(
                    nonce@,
                ) ==> self.spec_decrypt(datagram@) == Ok::<(Seq<u8>, Seq<u8>), CryptoError>(
                    (nonce@, plaintext@),
                )),
                Err(e) => self.spec_encrypt(nonce@, plaintext@) == Err::<Seq<u8>, CryptoError>(e),
            },
    {
        if !within_cipher_limit(plaintext.len()) {
            return Err(CryptoError::TooLong);
        }
        let ciphertext = match ocb3_seal(self.key.as_bytes(), nonce, plaintext) {
            Some(c) => c,
            None => {
                return Err(CryptoError::Cipher);
            },
        };
        let wire = nonce_to_wire(nonce);
        let mut datagram: Vec<u8> = Vec::new();
        extend_bytes(&mut datagram, wire.as_slice());
        extend_bytes(&mut datagram, ciphertext.as_slice());
        proof {
            let d = datagram@;
            assert(d.subrange(0, 8) =~= spec_nonce_to_wire(nonce@));
            assert(d.subrange(8, d.len() as int) =~= ciphertext@);
            if nonce_is_canonical(nonce@) {
                assert(spec_wire_to_nonce(spec_nonce_to_wire(nonce@)) =~= nonce@);
            }
        }
        Ok(datagram)
    }

    /// Opens a datagram: gives back the full nonce and the message, or
    /// `TooShort` for fewer than 24 octets, `TooLong` for more than the
    /// cipher takes, or `Integrity` where the tag does not match.
    pub fn decrypt(&self, datagram: &[u8]) -> (opened: Result<([u8; 12], Vec<u8>), CryptoError>)
        ensures
            match opened {
                Ok((nonce, plaintext)) => self.spec_decrypt(datagram@) == Ok::<
                    (Seq<u8>, Seq<u8>),
                    CryptoError,
                >((nonce@, plaintext@)) && plaintext@.len() + MIN_DATAGRAM_LEN
                    == datagram@.len() && nonce_is_canonical(nonce@),
                Err(e) => self.spec_decrypt(datagram@) == Err::<(Seq<u8>, Seq<u8>), CryptoError>(e),
            },
    {
        if datagram.len() < MIN_DATAGRAM_LEN {
            return Err(CryptoError::TooShort);
        }
        if !within_cipher_limit(datagram.len() - MIN_DATAGRAM_LEN) {
            return Err(CryptoError::TooLong);
        }
        let wire: [u8; 8] = [
            datagram[0],
            datagram[1],
            datagram[2],
            datagram[3],
            datagram[4],
            datagram[5],
            datagram[6],
            datagram[7],
        ];
        assert(wire@ =~= datagram@.subrange(0, 8));
        let nonce = wire_to_nonce(&wire);
        let ciphertext = copy_range(datagram, NONCE_WIRE_LEN, datagram.len());
        match ocb3_open(self.key.as_bytes(), &nonce, ciphertext.as_slice()) {
            Some(plaintext) => Ok((nonce, plaintext)),
            None => Err(CryptoError::Integrity),
        }
    }
}

} // verus!

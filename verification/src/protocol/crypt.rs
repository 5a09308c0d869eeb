//! Stream encryption for an authenticated connection.
//!
//! The post-login byte stream is encrypted with AES-128 in CFB-8 mode, keyed
//! and IV'd by the same 16-byte shared secret. Each byte is combined with the
//! first byte of the enciphered shift register, and the ciphertext byte is then
//! shifted in. The state is therefore the secret and the last sixteen bytes of
//! ciphertext.

use aes::Aes128;
use cfb8::cipher::generic_array::GenericArray;
use cfb8::cipher::{BlockDecryptMut, BlockEncryptMut, KeyIvInit};
use vstd::prelude::*;

use crate::protocol::json;

verus! {

/// Length of the shared secret, which doubles as the IV.
pub const SHARED_SECRET_LEN: usize = 16;

/// Error returned when a shared secret is not exactly 16 bytes.
#[derive(Debug)]
pub struct BadSecretLength(pub usize);

impl BadSecretLength {
    /// The text to show.
    #[must_use]
    pub fn message(&self) -> (text: String)
        ensures
            text@ == "shared secret must be 16 bytes, got "@ + json::decimal(self.0 as int),
    {
        let mut text = "shared secret must be 16 bytes, got ".to_owned();
        text.append(json::number(self.0 as i128).as_str());
        text
    }
}

/// The first byte of the AES-128 encryption of `block` under the key `secret`.
pub uninterp spec fn aes_first_byte(secret: Seq<u8>, block: Seq<u8>) -> u8;

/// Calls `encrypt_block_mut` of `cfb8::Encryptor<Aes128>` with the register as
/// IV, which combines the byte with the first byte of the enciphered register.
#[verifier::external_body]
fn encrypt_byte(secret: &[u8], register: &[u8], byte: u8) -> (out: u8)
    requires
        secret@.len() == SHARED_SECRET_LEN,
        register@.len() == SHARED_SECRET_LEN,
    ensures
        out == byte ^ aes_first_byte(secret@, register@),
{
    let mut block = [byte];
    cfb8::Encryptor::<Aes128>::new_from_slices(secret, register)
        .expect("both lengths are sixteen")
        .encrypt_block_mut(GenericArray::from_mut_slice(&mut block));
    block[0]
}

/// Calls `decrypt_block_mut` of `cfb8::Decryptor<Aes128>` with the register as
/// IV, which combines the byte with the first byte of the enciphered register.
#[verifier::external_body]
fn decrypt_byte(secret: &[u8], register: &[u8], byte: u8) -> (out: u8)
    requires
        secret@.len() == SHARED_SECRET_LEN,
        register@.len() == SHARED_SECRET_LEN,
    ensures
        out == byte ^ aes_first_byte(secret@, register@),
{
    let mut block = [byte];
    cfb8::Decryptor::<Aes128>::new_from_slices(secret, register)
        .expect("both lengths are sixteen")
        .decrypt_block_mut(GenericArray::from_mut_slice(&mut block));
    block[0]
}

/// The register after one byte of ciphertext.
pub open spec fn shifted(register: Seq<u8>, byte: u8) -> Seq<u8> {
    register.skip(1).push(byte)
}

/// The register after some ciphertext.
pub open spec fn advanced(register: Seq<u8>, cipher: Seq<u8>) -> Seq<u8>
    decreases cipher.len(),
{
    if cipher.len() == 0 {
        register
    } else {
        advanced(shifted(register, cipher[0]), cipher.skip(1))
    }
}

/// The ciphertext of `plain`.
pub open spec fn enciphered(secret: Seq<u8>, register: Seq<u8>, plain: Seq<u8>) -> Seq<u8>
    decreases plain.len(),
{
    if plain.len() == 0 {
        Seq::empty()
    } else {
        let c = plain[0] ^ aes_first_byte(secret, register);
        seq![c] + enciphered(secret, shifted(register, c), plain.skip(1))
    }
}

/// The plaintext of `cipher`.
pub open spec fn deciphered(secret: Seq<u8>, register: Seq<u8>, cipher: Seq<u8>) -> Seq<u8>
    decreases cipher.len(),
{
    if cipher.len() == 0 {
        Seq::empty()
    } else {
        let p = cipher[0] ^ aes_first_byte(secret, register);
        seq![p] + deciphered(secret, shifted(register, cipher[0]), cipher.skip(1))
    }
}

/// Outbound cipher. Stateful: each byte depends on the bytes before it, so one
/// instance must be kept for the life of the connection.
pub struct Encryptor {
    secret: [u8; 16],
    register: [u8; 16],
}

impl Encryptor {
    pub closed spec fn secret(&self) -> Seq<u8> {
        self.secret@
    }

    /// The last sixteen bytes of ciphertext, at first the secret.
    pub closed spec fn register(&self) -> Seq<u8> {
        self.register@
    }

    pub fn new(secret: &[u8]) -> (made: Result<Self, BadSecretLength>)
        ensures
            match made {
                Ok(made) => secret@.len() == SHARED_SECRET_LEN && made.secret() == secret@
                    && made.register() == secret@,
                Err(e) => secret@.len() != SHARED_SECRET_LEN && e.0 == secret@.len(),
            },
    {
        if secret.len() != SHARED_SECRET_LEN {
            return Err(BadSecretLength(secret.len()));
        }
        let secret = sixteen(secret);
        Ok(Self { secret, register: secret })
    }

    /// Encrypts in place, advancing the keystream.
    pub fn encrypt(&mut self, data: &mut [u8])
        ensures
            final(self).secret() == old(self).secret(),
            final(data)@ == enciphered(old(self).secret(), old(self).register(), old(data)@),
            final(self).register() == advanced(old(self).register(), final(data)@),
    {
        let ghost given = data@;
        let ghost whole = enciphered(self.secret(), self.register(), given);
        let mut i: usize = 0;
        assert(given.skip(0) =~= given);
        while i < data.len()
            invariant
                i <= data@.len(),
                data@.len() == given.len(),
                given == old(data)@,
                self.secret() == old(self).secret(),
                whole == enciphered(old(self).secret(), old(self).register(), given),
                forall|k: int| i <= k < data@.len() ==> data@[k] == given[k],
                whole == data@.take(i as int) + enciphered(
                    self.secret(),
                    self.register(),
                    given.skip(i as int),
                ),
                self.register() == advanced(old(self).register(), data@.take(i as int)),
            decreases data@.len() - i,
        {
            let ghost before = data@;
            let ghost register = self.register();
            let out: u8 = encrypt_byte(self.secret.as_slice(), self.register.as_slice(), data[i]);
            let shifted_in: u8 = out;
            data[i] = out;
            self.register = push_register(self.register, shifted_in);
            proof {
                let left = given.skip(i as int);
                let rest = enciphered(self.secret(), self.register(), left.skip(1));
                assert(left.skip(1) =~= given.skip(i + 1));
                assert(before.take(i as int) + (seq![out] + rest) =~= data@.take(i + 1) + rest);
                lemma_advanced_push(old(self).register(), before.take(i as int), shifted_in);
                assert(data@.take(i + 1) =~= before.take(i as int).push(shifted_in));
            }
            i += 1;
        }
        assert(given.skip(i as int) =~= Seq::<u8>::empty());
        assert(data@.take(i as int) =~= data@);
        assert(data@ + Seq::<u8>::empty() =~= data@);
        assert(given.take(i as int) =~= given);
    }
}

/// Inbound cipher, the mirror of [`Encryptor`].
pub struct Decryptor {
    secret: [u8; 16],
    register: [u8; 16],
}

impl Decryptor {
    pub closed spec fn secret(&self) -> Seq<u8> {
        self.secret@
    }

    /// The last sixteen bytes of ciphertext, at first the secret.
    pub closed spec fn register(&self) -> Seq<u8> {
        self.register@
    }

    pub fn new(secret: &[u8]) -> (made: Result<Self, BadSecretLength>)
        ensures
            match made {
                Ok(made) => secret@.len() == SHARED_SECRET_LEN && made.secret() == secret@
                    && made.register() == secret@,
                Err(e) => secret@.len() != SHARED_SECRET_LEN && e.0 == secret@.len(),
            },
    {
        if secret.len() != SHARED_SECRET_LEN {
            return Err(BadSecretLength(secret.len()));
        }
        let secret = sixteen(secret);
        Ok(Self { secret, register: secret })
    }

    /// Decrypts in place, advancing the keystream.
    pub fn decrypt(&mut self, data: &mut [u8])
        ensures
            final(self).secret() == old(self).secret(),
            final(data)@ == deciphered(old(self).secret(), old(self).register(), old(data)@),
            final(self).register() == advanced(old(self).register(), old(data)@),
    {
        let ghost given = data@;
        let ghost whole = deciphered(self.secret(), self.register(), given);
        let mut i: usize = 0;
        assert(given.skip(0) =~= given);
        while i < data.len()
            invariant
                i <= data@.len(),
                data@.len() == given.len(),
                given == old(data)@,
                self.secret() == old(self).secret(),
                whole == deciphered(old(self).secret(), old(self).register(), given),
                forall|k: int| i <= k < data@.len() ==> data@[k] == given[k],
                whole == data@.take(i as int) + deciphered(
                    self.secret(),
                    self.register(),
                    given.skip(i as int),
                ),
                self.register() == advanced(old(self).register(), given.take(i as int)),
            decreases data@.len() - i,
        {
            let ghost before = data@;
            let ghost register = self.register();
            let out: u8 = decrypt_byte(self.secret.as_slice(), self.register.as_slice(), data[i]);
            let shifted_in: u8 = data[i];
            data[i] = out;
            self.register = push_register(self.register, shifted_in);
            proof {
                let left = given.skip(i as int);
                let rest = deciphered(self.secret(), self.register(), left.skip(1));
                assert(left.skip(1) =~= given.skip(i + 1));
                assert(before.take(i as int) + (seq![out] + rest) =~= data@.take(i + 1) + rest);
                lemma_advanced_push(old(self).register(), given.take(i as int), shifted_in);
                assert(given.take(i + 1) =~= given.take(i as int).push(shifted_in));
            }
            i += 1;
        }
        assert(given.skip(i as int) =~= Seq::<u8>::empty());
        assert(data@.take(i as int) =~= data@);
        assert(data@ + Seq::<u8>::empty() =~= data@);
        assert(given.take(i as int) =~= given);
    }
}

/// The sixteen bytes of a slice.
fn sixteen(b: &[u8]) -> (array: [u8; 16])
    requires
        b@.len() == 16,
    ensures
        array@ == b@,
{
    let array: [u8; 16] = [
        b[0],
        b[1],
        b[2],
        b[3],
        b[4],
        b[5],
        b[6],
        b[7],
        b[8],
        b[9],
        b[10],
        b[11],
        b[12],
        b[13],
        b[14],
        b[15],
    ];
    assert(array@ =~= b@);
    array
}

/// The register with its oldest byte gone and `byte` added.
fn push_register(r: [u8; 16], byte: u8) -> (next: [u8; 16])
    ensures
        next@ == shifted(r@, byte),
{
    let next: [u8; 16] = [
        r[1],
        r[2],
        r[3],
        r[4],
        r[5],
        r[6],
        r[7],
        r[8],
        r[9],
        r[10],
        r[11],
        r[12],
        r[13],
        r[14],
        r[15],
        byte,
    ];
    assert(next@ =~= shifted(r@, byte));
    next
}

proof fn lemma_advanced_push(register: Seq<u8>, cipher: Seq<u8>, byte: u8)
    ensures
        advanced(register, cipher.push(byte)) == shifted(advanced(register, cipher), byte),
    decreases cipher.len(),
{
    let all = cipher.push(byte);
    if cipher.len() == 0 {
        assert(all.skip(1) =~= Seq::<u8>::empty());
        assert(advanced(shifted(register, byte), all.skip(1)) == shifted(register, byte));
    } else {
        assert(all.skip(1) =~= cipher.skip(1).push(byte));
        lemma_advanced_push(shifted(register, cipher[0]), cipher.skip(1), byte);
    }
}

/// Deciphering gives back what was enciphered under the same secret and from
/// the same register, byte for byte.
pub proof fn law_cipher_round_trip(secret: Seq<u8>, register: Seq<u8>, plain: Seq<u8>)
    ensures
        enciphered(secret, register, plain).len() == plain.len(),
        deciphered(secret, register, enciphered(secret, register, plain)) == plain,
    decreases plain.len(),
{
    let cipher = enciphered(secret, register, plain);
    if plain.len() == 0 {
        assert(plain =~= Seq::<u8>::empty());
    } else {
        let (p, k) = (plain[0], aes_first_byte(secret, register));
        let next = shifted(register, cipher[0]);
        assert((p ^ k) ^ k == p) by (bit_vector);
        assert(cipher.skip(1) =~= enciphered(secret, next, plain.skip(1)));
        law_cipher_round_trip(secret, next, plain.skip(1));
        assert(seq![p] + plain.skip(1) =~= plain);
    }
}

/// The keystream is continuous: enciphering or deciphering two pieces, one
/// after the other, gives what the whole gives at once, and leaves the same
/// register.
pub proof fn law_keystream_continuous(
    secret: Seq<u8>,
    register: Seq<u8>,
    first: Seq<u8>,
    second: Seq<u8>,
)
    ensures
        ({
            let c = enciphered(secret, register, first);
            enciphered(secret, register, first + second) == c + enciphered(
                secret,
                advanced(register, c),
                second,
            )
        }),
        deciphered(secret, register, first + second) == deciphered(secret, register, first)
            + deciphered(secret, advanced(register, first), second),
        advanced(register, first + second) == advanced(advanced(register, first), second),
    decreases first.len(),
{
    let c = enciphered(secret, register, first);
    let d = deciphered(secret, register, first);
    if first.len() == 0 {
        assert(first + second =~= second);
        assert(c + enciphered(secret, register, second) =~= enciphered(secret, register, second));
        assert(d + deciphered(secret, register, second) =~= deciphered(secret, register, second));
    } else {
        let next = shifted(register, c[0]);
        let other = shifted(register, first[0]);
        assert((first + second).skip(1) =~= first.skip(1) + second);
        law_keystream_continuous(secret, next, first.skip(1), second);
        law_keystream_continuous(secret, other, first.skip(1), second);
        assert(c.skip(1) =~= enciphered(secret, next, first.skip(1)));
        let tail = enciphered(secret, advanced(next, c.skip(1)), second);
        assert(seq![c[0]] + (c.skip(1) + tail) =~= c + tail);
        let rest = deciphered(secret, other, first.skip(1));
        let end = deciphered(secret, advanced(other, first.skip(1)), second);
        assert(seq![d[0]] + (rest + end) =~= (seq![d[0]] + rest) + end);
    }
}

} // verus!

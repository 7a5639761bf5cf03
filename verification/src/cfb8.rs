//! AES-128 in CFB8 mode: a stream cipher that handles one byte at a time.
//!
//! The cipher keeps a 16-byte register, which starts as the IV. For every byte
//! the register is encrypted with AES, the first byte of the result is XORed
//! onto the data byte, and the ciphertext byte is shifted into the register
//! from the right. The register therefore always holds the last 16 bytes of
//! ciphertext, on the sending and on the receiving side alike.
//!
//! Only the AES block function itself is taken on trust; the chaining is
//! verified here.

use aes::cipher::generic_array::GenericArray;
use aes::cipher::BlockEncrypt;
use aes::cipher::KeyInit;
use vstd::prelude::*;

verus! {

/// The length of a key, of an IV and of an AES block.
pub const BYTES_SIZE: usize = 16;

/// Which of the two inputs of a cipher an error is about.
#[derive(Debug, Copy, Clone, PartialEq, Eq, Hash, Structural)]
pub enum CipherComponent {
    Key,
    Iv,
}

/// Why a cipher could not be made or installed.
#[derive(Debug, Copy, Clone, PartialEq, Eq, Structural)]
pub enum CipherError {
    /// A cipher is installed already and cannot be replaced.
    AlreadyEnabled,
    /// The key or the IV is not 16 bytes long.
    BadSize { size: usize, component: CipherComponent },
}

/// What the functions of this module answer.
pub type CraftCipherResult<T> = Result<T, CipherError>;

impl CipherError {
    /// The error for a key or an IV of `size` bytes.
    pub fn bad_size(component: CipherComponent, size: usize) -> (e: Self)
        ensures
            e == (CipherError::BadSize { size, component }),
    {
        CipherError::BadSize { size, component }
    }

    /// The error for a slot that holds a cipher already.
    pub fn already_enabled() -> (e: Self)
        ensures
            e == CipherError::AlreadyEnabled,
    {
        CipherError::AlreadyEnabled
    }
}

/// The AES-128 encryption of one 16-byte block under a 16-byte key.
pub uninterp spec fn aes128_encrypt_block(key: Seq<u8>, block: Seq<u8>) -> Seq<u8>;

/// Calls `Aes128::new` from the `aes` crate on `key` and then `encrypt_block` on a
/// copy of `block`. The contract only gives the result its name: AES is a
/// function of key and block.
#[verifier::external_body]
fn aes128_encrypt(key: &[u8; 16], block: &[u8; 16]) -> (out: [u8; 16])
    ensures
        out@ == aes128_encrypt_block(key@, block@),
{
    let cipher = aes::Aes128::new(GenericArray::from_slice(key));
    let mut out = GenericArray::clone_from_slice(block);
    cipher.encrypt_block(&mut out);
    out.into()
}

/// The byte that is XORed onto the next data byte.
pub open spec fn keystream_byte(key: Seq<u8>, register: Seq<u8>) -> u8 {
    aes128_encrypt_block(key, register)[0]
}

/// The register after the ciphertext bytes `wire` have gone through: the old
/// register with `wire` shifted in from the right.
pub open spec fn register_after(register: Seq<u8>, wire: Seq<u8>) -> Seq<u8> {
    (register + wire).skip(wire.len() as int)
}

/// The ciphertext of `plain` for a cipher whose register holds `register`.
pub open spec fn cfb8_encrypt(key: Seq<u8>, register: Seq<u8>, plain: Seq<u8>) -> Seq<u8>
    decreases plain.len(),
{
    if plain.len() == 0 {
        Seq::<u8>::empty()
    } else {
        let before = cfb8_encrypt(key, register, plain.drop_last());
        before.push(plain.last() ^ keystream_byte(key, register_after(register, before)))
    }
}

/// The plaintext of `wire` for a cipher whose register holds `register`.
pub open spec fn cfb8_decrypt(key: Seq<u8>, register: Seq<u8>, wire: Seq<u8>) -> Seq<u8> {
    Seq::new(
        wire.len(),
        |i: int| wire[i] ^ keystream_byte(key, register_after(register, wire.take(i))),
    )
}

/// What a cipher is, as far as its behaviour goes.
pub struct CipherState {
    pub key: Seq<u8>,
    pub register: Seq<u8>,
    pub encrypting: bool,
}

impl CipherState {
    /// The state after the ciphertext bytes `wire` have gone through.
    pub open spec fn advance(self, wire: Seq<u8>) -> CipherState {
        CipherState { register: register_after(self.register, wire), ..self }
    }

    /// The ciphertext of `plain` from this state on.
    pub open spec fn encrypt(self, plain: Seq<u8>) -> Seq<u8> {
        cfb8_encrypt(self.key, self.register, plain)
    }

    /// The plaintext of `wire` from this state on.
    pub open spec fn decrypt(self, wire: Seq<u8>) -> Seq<u8> {
        cfb8_decrypt(self.key, self.register, wire)
    }
}

/// What `CraftCipher::new` answers to a key, an IV and a direction.
pub open spec fn cipher_for(key: Seq<u8>, iv: Seq<u8>, encryption: bool) -> Result<
    CipherState,
    CipherError,
> {
    if iv.len() != 16 {
        Err(CipherError::BadSize { size: iv.len() as usize, component: CipherComponent::Iv })
    } else if key.len() != 16 {
        Err(CipherError::BadSize { size: key.len() as usize, component: CipherComponent::Key })
    } else {
        Ok(CipherState { key, register: iv, encrypting: encryption })
    }
}

/// The register stays 16 bytes long, and shifting bytes in piece by piece is
/// the same as shifting them in at once.
pub proof fn lemma_register_after(register: Seq<u8>, first: Seq<u8>, second: Seq<u8>)
    ensures
        register_after(register, first).len() == register.len(),
        register_after(register, Seq::<u8>::empty()) == register,
        register_after(register_after(register, first), second) == register_after(
            register,
            first + second,
        ),
{
    assert(register_after(register, Seq::<u8>::empty()) =~= register);
    assert(register_after(register_after(register, first), second) =~= register_after(
        register,
        first + second,
    ));
}

proof fn lemma_xor_twice(a: u8, k: u8)
    ensures
        (a ^ k) ^ k == a,
{
    assert((a ^ k) ^ k == a) by (bit_vector);
}

/// Ciphertext is as long as plaintext, and a prefix of the plaintext gives the
/// same prefix of the ciphertext.
pub proof fn lemma_encrypt_prefix(key: Seq<u8>, register: Seq<u8>, plain: Seq<u8>, n: int)
    requires
        0 <= n <= plain.len(),
    ensures
        cfb8_encrypt(key, register, plain).len() == plain.len(),
        cfb8_encrypt(key, register, plain.take(n)) == cfb8_encrypt(key, register, plain).take(n),
    decreases plain.len(),
{
    let wire = cfb8_encrypt(key, register, plain);
    if plain.len() == 0 {
        assert(plain.take(n) =~= plain);
        assert(wire.take(n) =~= wire);
    } else {
        let shorter = plain.drop_last();
        lemma_encrypt_prefix(key, register, shorter, shorter.len() as int);
        if n == plain.len() {
            assert(plain.take(n) =~= plain);
            assert(wire.take(n) =~= wire);
        } else {
            lemma_encrypt_prefix(key, register, shorter, n);
            assert(plain.take(n) =~= shorter.take(n));
            assert(wire.take(n) =~= cfb8_encrypt(key, register, shorter).take(n));
        }
    }
}

/// Decrypting what was encrypted, from the same key and register, gives the
/// plaintext back.
pub proof fn lemma_decrypt_encrypt(key: Seq<u8>, register: Seq<u8>, plain: Seq<u8>)
    ensures
        cfb8_decrypt(key, register, cfb8_encrypt(key, register, plain)) == plain,
{
    let wire = cfb8_encrypt(key, register, plain);
    lemma_encrypt_prefix(key, register, plain, 0);
    assert forall|i: int| 0 <= i < plain.len() implies cfb8_decrypt(key, register, wire)[i]
        == plain[i] by {
        lemma_encrypt_prefix(key, register, plain, i);
        lemma_encrypt_prefix(key, register, plain, i + 1);
        let upto = plain.take(i + 1);
        assert(upto.drop_last() =~= plain.take(i));
        assert(upto.last() == plain[i]);
        let stream = keystream_byte(key, register_after(register, wire.take(i)));
        assert(wire.take(i + 1)[i] == plain[i] ^ stream);
        lemma_xor_twice(plain[i], stream);
    }
    assert(cfb8_decrypt(key, register, wire) =~= plain);
}

/// Encrypting two pieces one after the other, the second from the register
/// that the first left behind, gives the ciphertext of the whole.
pub proof fn lemma_encrypt_split(key: Seq<u8>, register: Seq<u8>, first: Seq<u8>, second: Seq<u8>)
    ensures
        cfb8_encrypt(key, register, first + second) == cfb8_encrypt(key, register, first)
            + cfb8_encrypt(
            key,
            register_after(register, cfb8_encrypt(key, register, first)),
            second,
        ),
    decreases second.len(),
{
    let head = cfb8_encrypt(key, register, first);
    let middle = register_after(register, head);
    if second.len() == 0 {
        assert(first + second =~= first);
        assert(head + cfb8_encrypt(key, middle, second) =~= head);
    } else {
        let shorter = second.drop_last();
        lemma_encrypt_split(key, register, first, shorter);
        assert((first + second).drop_last() =~= first + shorter);
        lemma_register_after(register, head, cfb8_encrypt(key, middle, shorter));
        assert(cfb8_encrypt(key, register, first + second) =~= head + cfb8_encrypt(
            key,
            middle,
            second,
        ));
    }
}

/// Decrypting two pieces one after the other, the second from the register
/// that the first left behind, gives the plaintext of the whole.
pub proof fn lemma_decrypt_split(key: Seq<u8>, register: Seq<u8>, first: Seq<u8>, second: Seq<u8>)
    ensures
        cfb8_decrypt(key, register, first + second) == cfb8_decrypt(key, register, first)
            + cfb8_decrypt(key, register_after(register, first), second),
{
    let whole = first + second;
    let joined = cfb8_decrypt(key, register, first) + cfb8_decrypt(
        key,
        register_after(register, first),
        second,
    );
    assert forall|i: int| 0 <= i < whole.len() implies cfb8_decrypt(key, register, whole)[i]
        == joined[i] by {
        if i < first.len() {
            assert(whole.take(i) =~= first.take(i));
        } else {
            let j = i - first.len();
            assert(whole.take(i) =~= first + second.take(j));
            lemma_register_after(register, first, second.take(j));
        }
    }
    assert(cfb8_decrypt(key, register, whole) =~= joined);
}

/// An AES-128/CFB8 cipher for one direction of one connection.
#[derive(Debug)]
pub struct CraftCipher {
    key: [u8; 16],
    register: [u8; 16],
    encrypting: bool,
}

impl View for CraftCipher {
    type V = CipherState;

    closed spec fn view(&self) -> CipherState {
        CipherState { key: self.key@, register: self.register@, encrypting: self.encrypting }
    }
}

/// What a slot for a cipher holds, as far as behaviour goes.
pub open spec fn slot_state(slot: Option<CraftCipher>) -> Option<CipherState> {
    match slot {
        Some(cipher) => Some(cipher@),
        None => None,
    }
}

/// Copies the 16 bytes of `bytes` into an array.
fn to_block(bytes: &[u8]) -> (block: [u8; 16])
    requires
        bytes@.len() == 16,
    ensures
        block@ == bytes@,
{
    let mut block: [u8; 16] = [0u8; 16];
    let mut i: usize = 0;
    while i < 16
        invariant
            i <= 16,
            bytes@.len() == 16,
            forall|j: int| 0 <= j < i ==> block@[j] == bytes@[j],
        decreases 16 - i,
    {
        block[i] = bytes[i];
        i += 1;
    }
    assert(block@ =~= bytes@);
    block
}

impl CraftCipher {
    /// Makes a cipher from a key and an IV of 16 bytes each, for encryption or
    /// for decryption. The IV is looked at first.
    pub fn new(key: &[u8], iv: &[u8], encryption: bool) -> (r: CraftCipherResult<Self>)
        ensures
            match cipher_for(key@, iv@, encryption) {
                Ok(state) => r is Ok && r->Ok_0@ == state,
                Err(e) => r is Err && r->Err_0 == e,
            },
    {
        if iv.len() != BYTES_SIZE {
            return Err(CipherError::bad_size(CipherComponent::Iv, iv.len()));
        }
        if key.len() != BYTES_SIZE {
            return Err(CipherError::bad_size(CipherComponent::Key, key.len()));
        }
        Ok(CraftCipher { key: to_block(key), register: to_block(iv), encrypting: encryption })
    }

    /// Whether this cipher was made for encryption.
    pub fn is_encryptor(&self) -> (b: bool)
        ensures
            b == self@.encrypting,
    {
        self.encrypting
    }

    /// Shifts one ciphertext byte into the register.
    fn shift_in(&mut self, byte: u8)
        ensures
            final(self)@ == old(self)@.advance(seq![byte]),
    {
        let r = self.register;
        self.register = [
            r[1], r[2], r[3], r[4], r[5], r[6], r[7], r[8], r[9], r[10], r[11], r[12], r[13],
            r[14], r[15], byte,
        ];
        assert(self.register@ =~= register_after(r@, seq![byte]));
    }

    /// Encrypts `data` in place, byte by byte, and moves the register on.
    /// Calling it on a slice or on its pieces in turn gives the same bytes.
    pub fn encrypt(&mut self, data: &mut [u8])
        requires
            old(self)@.encrypting,
        ensures
            final(data)@ == old(self)@.encrypt(old(data)@),
            final(self)@ == old(self)@.advance(final(data)@),
    {
        let n: usize = data.len();
        let mut i: usize = 0;
        proof {
            lemma_register_after(self@.register, Seq::<u8>::empty(), Seq::<u8>::empty());
            assert(data@.take(0) =~= Seq::<u8>::empty());
        }
        while i < n
            invariant
                i <= n,
                n == data@.len(),
                n == old(data)@.len(),
                data@.take(i as int) == old(self)@.encrypt(old(data)@.take(i as int)),
                forall|j: int| i <= j < n ==> data@[j] == old(data)@[j],
                self@ == old(self)@.advance(data@.take(i as int)),
            decreases n - i,
        {
            let stream = aes128_encrypt(&self.key, &self.register);
            let byte: u8 = data[i] ^ stream[0];
            proof {
                let upto = old(data)@.take(i + 1);
                assert(upto.drop_last() =~= old(data)@.take(i as int));
                assert(upto.last() == data@[i as int]);
            }
            let ghost before = data@;
            data[i] = byte;
            self.shift_in(byte);
            proof {
                assert(data@.take(i + 1) =~= before.take(i as int).push(byte));
                assert(before.take(i as int).push(byte) =~= before.take(i as int) + seq![byte]);
                lemma_register_after(old(self)@.register, before.take(i as int), seq![byte]);
            }
            i += 1;
        }
        proof {
            assert(data@.take(n as int) =~= data@);
            assert(old(data)@.take(n as int) =~= old(data)@);
        }
    }

    /// Decrypts `data` in place, byte by byte, and moves the register on.
    /// Calling it on a slice or on its pieces in turn gives the same bytes.
    pub fn decrypt(&mut self, data: &mut [u8])
        requires
            !old(self)@.encrypting,
        ensures
            final(data)@ == old(self)@.decrypt(old(data)@),
            final(self)@ == old(self)@.advance(old(data)@),
    {
        let n: usize = data.len();
        let mut i: usize = 0;
        proof {
            lemma_register_after(self@.register, Seq::<u8>::empty(), Seq::<u8>::empty());
            assert(old(data)@.take(0) =~= Seq::<u8>::empty());
        }
        while i < n
            invariant
                i <= n,
                n == data@.len(),
                n == old(data)@.len(),
                forall|j: int| 0 <= j < i ==> data@[j] == old(self)@.decrypt(old(data)@)[j],
                forall|j: int| i <= j < n ==> data@[j] == old(data)@[j],
                self@ == old(self)@.advance(old(data)@.take(i as int)),
            decreases n - i,
        {
            let stream = aes128_encrypt(&self.key, &self.register);
            let wire: u8 = data[i];
            data[i] = wire ^ stream[0];
            self.shift_in(wire);
            proof {
                assert(old(data)@.take(i + 1) =~= old(data)@.take(i as int) + seq![wire]);
                lemma_register_after(old(self)@.register, old(data)@.take(i as int), seq![wire]);
            }
            i += 1;
        }
        proof {
            assert(old(data)@.take(n as int) =~= old(data)@);
            assert(data@ =~= old(self)@.decrypt(old(data)@));
        }
    }
}

/// Puts a new cipher into an empty slot. A slot that holds one already keeps
/// it, and so does the slot if key or IV are refused.
pub fn setup_craft_cipher(
    target: &mut Option<CraftCipher>,
    key: &[u8],
    iv: &[u8],
    encryption: bool,
) -> (r: Result<(), CipherError>)
    ensures
        old(target).is_some() ==> r == Err::<(), CipherError>(CipherError::AlreadyEnabled)
            && *final(target) == *old(target),
        old(target).is_none() ==> match cipher_for(key@, iv@, encryption) {
            Ok(state) => r is Ok && slot_state(*final(target)) == Some(state),
            Err(e) => r == Err::<(), CipherError>(e) && final(target).is_none(),
        },
{
    if target.is_some() {
        Err(CipherError::already_enabled())
    } else {
        match CraftCipher::new(key, iv, encryption) {
            Ok(cipher) => {
                *target = Some(cipher);
                Ok(())
            },
            Err(e) => Err(e),
        }
    }
}

} // verus!

//! AES-256 decryption of 7z folders: CBC with a stored vector, and a key that is
//! the SHA-256 of many rounds of salt, password and counter.

use vstd::prelude::*;
use vstd::arithmetic::power2::pow2;
use aes::cipher::{BlockModeDecrypt, InnerIvInit, KeyInit};
use sha2::Digest;
use zeroize::Zeroize;
use crate::bytes::copy_at;
use crate::codec::{CodecStatus, CodecStep, EndOfInput};
use crate::utf8::{lossy_utf16, to_lossy_utf16};

verus! {

/// Length of a cipher block.
pub const BLOCK: usize = 16;

/// Largest work factor that is accepted.
pub const MAX_CYCLES_POWER: u8 = 24;

// ---------------------------------------------------------------------------
// Outside functions
// ---------------------------------------------------------------------------

/// The SHA-256 hash of a byte string.
pub uninterp spec fn sha256(data: Seq<u8>) -> Seq<u8>;

/// The AES-256 decryption of one block under a key.
pub uninterp spec fn aes256_decrypted(key: Seq<u8>, block: Seq<u8>) -> Seq<u8>;

/// The state of a SHA-256 computation.
#[verifier::external_type_specification]
#[verifier::external_body]
pub struct ExSha256(sha2::Sha256);

/// AES-256 with its key schedule.
#[verifier::external_type_specification]
#[verifier::external_body]
pub struct ExAes256(aes::Aes256);

/// A SHA-256 computation.
pub struct Sha256Hash {
    state: sha2::Sha256,
    data: Ghost<Seq<u8>>,
}

impl Sha256Hash {
    /// The bytes absorbed so far.
    pub closed spec fn data(&self) -> Seq<u8> {
        self.data@
    }

    /// `sha2::Sha256::new`. Claimed: the state has absorbed nothing.
    #[verifier::external_body]
    pub(crate) fn new() -> (hash: Self)
        ensures
            hash.data().len() == 0,
    {
        Sha256Hash { state: sha2::Sha256::new(), data: Ghost(Seq::empty()) }
    }

    /// `sha2::Digest::update`. Claimed: the bytes come behind those absorbed
    /// before.
    #[verifier::external_body]
    pub(crate) fn absorb(&mut self, bytes: &[u8])
        ensures
            final(self).data() == old(self).data() + bytes@,
    {
        self.state.update(bytes);
    }

    /// `sha2::Digest::finalize` on a copy of the state. Claimed: the named hash
    /// of the bytes absorbed.
    #[verifier::external_body]
    pub(crate) fn digest(&self) -> (value: [u8; 32])
        ensures
            value@ == sha256(self.data()),
    {
        self.state.clone().finalize().into()
    }
}

/// The SHA-256 hash of `bytes`.
pub fn sha256_of(bytes: &[u8]) -> (value: [u8; 32])
    ensures
        value@ == sha256(bytes@),
{
    let mut hash = Sha256Hash::new();
    hash.absorb(bytes);
    proof {
        assert(hash.data() =~= bytes@);
    }
    hash.digest()
}

/// `zeroize::Zeroize::zeroize` on a vector. Claimed: the vector is empty then.
#[verifier::external_body]
pub(crate) fn wipe_bytes(bytes: &mut Vec<u8>)
    ensures
        final(bytes)@.len() == 0,
{
    bytes.zeroize();
}

/// `zeroize::Zeroize::zeroize` on a key. Claimed: every byte is zero then.
#[verifier::external_body]
fn wipe_key(key: &mut [u8; 32])
    ensures
        forall|i: int| 0 <= i < 32 ==> final(key)@[i] == 0,
{
    key.zeroize();
}

/// A cipher with its key.
pub struct Cipher {
    schedule: aes::Aes256,
    key: Ghost<Seq<u8>>,
}

/// The plain bytes of one CBC block.
pub open spec fn cbc_block(key: Seq<u8>, vector: Seq<u8>, block: Seq<u8>) -> Seq<u8> {
    combined(aes256_decrypted(key, block), vector)
}

/// Two blocks combined byte by byte with exclusive or.
pub open spec fn combined(block: Seq<u8>, vector: Seq<u8>) -> Seq<u8> {
    Seq::new(16, |i: int| block[i] ^ vector[i])
}

impl Cipher {
    /// The cipher's key.
    pub closed spec fn key(&self) -> Seq<u8> {
        self.key@
    }

    /// `aes::Aes256::new`. Claimed: the schedule is that of the key.
    #[verifier::external_body]
    pub(crate) fn new(key: &[u8; 32]) -> (cipher: Self)
        ensures
            cipher.key() == key@,
    {
        Cipher { schedule: aes::Aes256::new(key.into()), key: Ghost(key@) }
    }

    /// `cbc::Decryptor` over `aes::Aes256`, set to `vector`, applied to one
    /// block with `decrypt_block`. Claimed: the AES decryption of the block, each
    /// byte combined with that of the vector by exclusive or.
    #[verifier::external_body]
    pub(crate) fn decrypt(&self, vector: &[u8; 16], block: &[u8; 16]) -> (plain: [u8; 16])
        ensures
            plain@ == combined(aes256_decrypted(self.key(), block@), vector@),
    {
        let mut plain = *block;
        let mut decryptor = cbc::Decryptor::inner_iv_init(self.schedule.clone(), vector.into());
        decryptor.decrypt_block((&mut plain).into());
        plain
    }
}

// ---------------------------------------------------------------------------
// Properties and key
// ---------------------------------------------------------------------------

/// Parsed coder properties.
#[derive(Clone, Copy, Debug)]
pub struct AesParams {
    /// Binary logarithm of the number of key rounds.
    pub ncp: u8,
    pub salt: [u8; 16],
    pub salt_len: usize,
    pub iv: [u8; 16],
}

/// The declared salt length.
pub open spec fn salt_size(props: Seq<u8>) -> nat {
    (props[0] / 128 + second_property(props) / 16) as nat
}

/// The declared vector length.
pub open spec fn iv_size(props: Seq<u8>) -> nat {
    ((props[0] / 64) % 2 + second_property(props) % 16) as nat
}

/// The second property byte, zero if there is none.
pub open spec fn second_property(props: Seq<u8>) -> u8 {
    if props.len() > 1 {
        props[1]
    } else {
        0
    }
}

/// Whether properties can be used: a work factor within the bound, and salt and
/// vector of at most a block each that are all there.
pub open spec fn props_usable(props: Seq<u8>) -> bool {
    &&& props.len() > 0
    &&& props[0] % 64 <= MAX_CYCLES_POWER
    &&& salt_size(props) <= 16
    &&& iv_size(props) <= 16
    &&& 2 + salt_size(props) + iv_size(props) <= props.len()
}

/// `bytes` followed by zeros up to a block.
pub open spec fn padded_block(bytes: Seq<u8>) -> Seq<u8> {
    Seq::new(
        16,
        |i: int|
            if i < bytes.len() {
                bytes[i]
            } else {
                0u8
            },
    )
}

fn block_from(source: &[u8], from: usize, count: usize) -> (block: [u8; 16])
    requires
        count <= 16,
        from + count <= source.len(),
    ensures
        block@ == padded_block(source@.subrange(from as int, from + count)),
{
    let mut block: [u8; 16] = [0; 16];
    let mut i: usize = 0;
    while i < count
        invariant
            i <= count,
            count <= 16,
            from + count <= source.len(),
            block@.len() == 16,
            forall|j: int| 0 <= j < i ==> block@[j] == source@[from + j],
            forall|j: int| i <= j < 16 ==> block@[j] == 0,
        decreases count - i,
    {
        block[i] = source[from + i];
        i += 1;
    }
    proof {
        assert(block@ =~= padded_block(source@.subrange(from as int, from + count)));
    }
    block
}

impl AesParams {
    /// The salt is within its block and the work factor within its bound.
    pub open spec fn wf(self) -> bool {
        self.salt_len <= 16 && self.ncp <= MAX_CYCLES_POWER
    }

    /// Parses coder properties: the work factor with two length bits, the low
    /// parts of the lengths, the salt and the vector.
    pub fn parse(props: &[u8]) -> (params: Option<Self>)
        ensures
            params is Some <==> props_usable(props@),
            params matches Some(p) ==> {
                &&& p.wf()
                &&& p.ncp == props@[0] % 64
                &&& p.salt_len == salt_size(props@)
                &&& p.salt@ == padded_block(props@.subrange(2, (2 + salt_size(props@)) as int))
                &&& p.iv@ == padded_block(
                    props@.subrange(
                        (2 + salt_size(props@)) as int,
                        (2 + salt_size(props@) + iv_size(props@)) as int,
                    ),
                )
            },
    {
        if props.len() == 0 {
            return None;
        }
        let b0: u8 = props[0];
        let ncp: u8 = b0 % 64;
        if ncp > MAX_CYCLES_POWER {
            return None;
        }
        let b1: u8 = if props.len() > 1 {
            props[1]
        } else {
            0
        };
        let iv_len: usize = ((b0 / 64) % 2 + b1 % 16) as usize;
        let salt_len: usize = (b0 / 128 + b1 / 16) as usize;
        if salt_len > BLOCK || iv_len > BLOCK {
            return None;
        }
        let end: usize = 2 + salt_len + iv_len;
        if end > props.len() {
            return None;
        }
        Some(
            AesParams {
                ncp,
                salt: block_from(props, 2, salt_len),
                salt_len,
                iv: block_from(props, 2 + salt_len, iv_len),
            },
        )
    }
}

/// Encodes a password as the UTF-16 bytes that are hashed.
pub fn password_utf16le(password: &[u8]) -> (out: Vec<u8>)
    ensures
        out@ == lossy_utf16(password@),
{
    to_lossy_utf16(password)
}

/// The eight bytes of a number, least significant first.
pub open spec fn counter_bytes(value: nat) -> Seq<u8> {
    Seq::new(8, |i: int| (value as int / pow256(i) % 256) as u8)
}

/// The weight of byte `i` of a number.
pub open spec fn pow256(i: int) -> int {
    if i <= 0 {
        1
    } else if i == 1 {
        0x100
    } else if i == 2 {
        0x1_0000
    } else if i == 3 {
        0x100_0000
    } else if i == 4 {
        0x1_0000_0000
    } else if i == 5 {
        0x100_0000_0000
    } else if i == 6 {
        0x1_0000_0000_0000
    } else {
        0x100_0000_0000_0000
    }
}

fn counter_array(value: u64) -> (bytes: [u8; 8])
    ensures
        bytes@ == counter_bytes(value as nat),
{
    let bytes: [u8; 8] = [
        (value % 256) as u8,
        (value / 0x100 % 256) as u8,
        (value / 0x1_0000 % 256) as u8,
        (value / 0x100_0000 % 256) as u8,
        (value / 0x1_0000_0000 % 256) as u8,
        (value / 0x100_0000_0000 % 256) as u8,
        (value / 0x1_0000_0000_0000 % 256) as u8,
        (value / 0x100_0000_0000_0000 % 256) as u8,
    ];
    proof {
        assert(bytes@ =~= counter_bytes(value as nat));
    }
    bytes
}

/// What is hashed in `rounds` rounds: salt, password and the round's number each.
pub open spec fn key_material(salt: Seq<u8>, password: Seq<u8>, rounds: nat) -> Seq<u8>
    decreases rounds,
{
    if rounds == 0 {
        Seq::empty()
    } else {
        key_material(salt, password, (rounds - 1) as nat) + salt + password + counter_bytes(
            (rounds - 1) as nat,
        )
    }
}

/// The key of a password: the hash of two to the power `ncp` rounds.
pub open spec fn derived_key(ncp: u8, salt: Seq<u8>, password: Seq<u8>) -> Seq<u8> {
    sha256(key_material(salt, password, pow2(ncp as nat)))
}

fn round_count(ncp: u8) -> (rounds: u64)
    requires
        ncp < 64,
    ensures
        rounds == pow2(ncp as nat),
{
    proof {
        vstd::arithmetic::power2::lemma2_to64();
        vstd::arithmetic::power2::lemma2_to64_rest();
        if ncp < 63 {
            vstd::arithmetic::power2::lemma_pow2_strictly_increases(ncp as nat, 63);
        }
        vstd::bits::lemma_u64_shl_is_mul(1, ncp as u64);
    }
    1u64 << (ncp as u64)
}

/// Derives the key of a password.
pub fn derive_key(ncp: u8, salt: &[u8], password: &[u8]) -> (key: [u8; 32])
    requires
        ncp < 64,
    ensures
        key@ == derived_key(ncp, salt@, password@),
{
    let rounds: u64 = round_count(ncp);
    let mut hash = Sha256Hash::new();
    let mut counter: u64 = 0;
    proof {
        assert(hash.data() =~= key_material(salt@, password@, 0));
    }
    while counter < rounds
        invariant
            counter <= rounds,
            hash.data() == key_material(salt@, password@, counter as nat),
        decreases rounds - counter,
    {
        let ghost before = hash.data();
        hash.absorb(salt);
        hash.absorb(password);
        hash.absorb(&counter_array(counter));
        counter += 1;
    }
    hash.digest()
}

// ---------------------------------------------------------------------------
// The decoder
// ---------------------------------------------------------------------------

/// The plain bytes of whole CBC blocks.
pub open spec fn cbc_plain(key: Seq<u8>, vector: Seq<u8>, cipher: Seq<u8>) -> Seq<u8>
    decreases cipher.len(),
{
    if cipher.len() < 16 {
        Seq::empty()
    } else {
        cbc_plain(key, vector, cipher.take(cipher.len() - 16)) + cbc_block(
            key,
            chain_vector(vector, cipher.take(cipher.len() - 16)),
            cipher.skip(cipher.len() - 16),
        )
    }
}

/// The vector behind whole blocks: the last of them, or the first vector.
pub open spec fn chain_vector(vector: Seq<u8>, cipher: Seq<u8>) -> Seq<u8> {
    if cipher.len() < 16 {
        vector
    } else {
        cipher.skip(cipher.len() - 16)
    }
}

/// The mathematical content of an [`AesDecoder`].
#[verifier::ext_equal]
pub struct AesModel {
    pub key: Seq<u8>,
    pub vector: Seq<u8>,
    /// Bytes of an incomplete block.
    pub partial: Seq<u8>,
    /// Decrypted bytes not handed out.
    pub ready: Seq<u8>,
    /// Bytes still to be handed out.
    pub remaining: u64,
}

/// What a call comes to.
#[verifier::ext_equal]
pub struct AesMove {
    pub model: AesModel,
    pub consumed: nat,
    pub written: Seq<u8>,
    pub done: bool,
}

/// The least of three counts.
pub open spec fn least3(a: nat, b: nat, c: nat) -> nat {
    if a <= b && a <= c {
        a
    } else if b <= c {
        b
    } else {
        c
    }
}

impl AesModel {
    /// How many bytes of input go to the incomplete block.
    pub open spec fn filling(self, input_len: nat) -> nat {
        let missing = (16 - self.partial.len()) as nat;
        if input_len < missing {
            input_len
        } else {
            missing
        }
    }

    /// Hands decrypted bytes out, fills and decrypts blocks, until the output is
    /// full, the input is used up, or all bytes have been handed out.
    pub open spec fn run(self, input: Seq<u8>, room: nat) -> AesMove
        decreases input.len() + room,
    {
        if self.remaining == 0 {
            AesMove { model: self, consumed: 0, written: Seq::empty(), done: true }
        } else if self.ready.len() > 0 {
            let count = least3(self.ready.len(), room, self.remaining as nat);
            if count == 0 || count > room {
                AesMove { model: self, consumed: 0, written: Seq::empty(), done: false }
            } else {
                let rest = AesModel {
                    ready: self.ready.skip(count as int),
                    remaining: (self.remaining - count) as u64,
                    ..self
                }.run(input, (room - count) as nat);
                AesMove { written: self.ready.take(count as int) + rest.written, ..rest }
            }
        } else {
            let count = self.filling(input.len());
            let block = self.partial + input.take(count as int);
            if block.len() < 16 || count == 0 {
                AesMove {
                    model: AesModel { partial: block, ..self },
                    consumed: count,
                    written: Seq::empty(),
                    done: false,
                }
            } else {
                let rest = AesModel {
                    partial: Seq::empty(),
                    ready: cbc_block(self.key, self.vector, block),
                    vector: block,
                    ..self
                }.run(input.skip(count as int), room);
                AesMove { consumed: count + rest.consumed, ..rest }
            }
        }
    }
}

/// What a call that came to `step` tells the caller.
pub open spec fn aes_status(step: AesMove, end: EndOfInput) -> CodecStatus {
    if step.done {
        CodecStatus::Done
    } else if step.written.len() != 0 || step.consumed != 0 || end is More {
        CodecStatus::NeedInput
    } else {
        CodecStatus::Done
    }
}

/// Streaming AES-256-CBC decoder. At most one incomplete and one decrypted block
/// are retained.
pub struct AesDecoder {
    pub cipher: Cipher,
    pub vector: [u8; 16],
    pub in_block: [u8; 16],
    pub in_len: usize,
    pub out_block: [u8; 16],
    pub out_pos: usize,
    pub out_len: usize,
    pub remaining: u64,
    /// The first vector, all input taken and all output given so far.
    pub origin: Ghost<Seq<u8>>,
    pub taken: Ghost<Seq<u8>>,
    pub given: Ghost<Seq<u8>>,
}

impl View for AesDecoder {
    type V = AesModel;

    open spec fn view(&self) -> AesModel {
        AesModel {
            key: self.cipher.key(),
            vector: self.vector@,
            partial: self.in_block@.take(self.in_len as int),
            ready: self.out_block@.subrange(self.out_pos as int, self.out_len as int),
            remaining: self.remaining,
        }
    }
}

impl AesDecoder {
    /// Whatever the pieces were: what was given out and what is ready is the
    /// decryption of the whole blocks taken so far.
    pub open spec fn wf(self) -> bool {
        &&& self.in_len < 16
        &&& self.out_pos <= self.out_len <= 16
        &&& self.in_len <= self.taken@.len()
        &&& ({
            let whole = self.taken@.take(self.taken@.len() - self.in_len);
            &&& whole.len() % 16 == 0
            &&& self@.partial == self.taken@.skip(self.taken@.len() - self.in_len)
            &&& self.vector@ == chain_vector(self.origin@, whole)
            &&& self.given@ + self@.ready == cbc_plain(self.cipher.key(), self.origin@, whole)
        })
    }

    /// A decoder for the given properties and password, of which `out_size`
    /// bytes are to be handed out.
    pub fn new(params: AesParams, out_size: u64, password: &[u8]) -> (decoder: Self)
        requires
            params.wf(),
        ensures
            decoder.wf(),
            decoder@ == (AesModel {
                key: derived_key(
                    params.ncp,
                    params.salt@.take(params.salt_len as int),
                    lossy_utf16(password@),
                ),
                vector: params.iv@,
                partial: Seq::empty(),
                ready: Seq::empty(),
                remaining: out_size,
            }),
            decoder.origin@ == params.iv@,
            decoder.taken@.len() == 0,
            decoder.given@.len() == 0,
    {
        let mut encoded = password_utf16le(password);
        let salt = &params.salt.as_slice()[0..params.salt_len];
        proof {
            assert(salt@ =~= params.salt@.take(params.salt_len as int));
        }
        let mut key: [u8; 32] = derive_key(params.ncp, salt, encoded.as_slice());
        wipe_bytes(&mut encoded);
        let cipher = Cipher::new(&key);
        wipe_key(&mut key);
        let decoder = AesDecoder {
            cipher,
            vector: params.iv,
            in_block: [0; 16],
            in_len: 0,
            out_block: [0; 16],
            out_pos: 0,
            out_len: 0,
            remaining: out_size,
            origin: Ghost(params.iv@),
            taken: Ghost(Seq::empty()),
            given: Ghost(Seq::empty()),
        };
        proof {
            assert(decoder@.partial =~= Seq::<u8>::empty());
            assert(decoder@.ready =~= Seq::<u8>::empty());
            let whole = decoder.taken@.take(0);
            assert(whole =~= Seq::<u8>::empty());
            assert(decoder.taken@.skip(0) =~= Seq::<u8>::empty());
            assert(decoder.given@ + decoder@.ready =~= cbc_plain(
                decoder.cipher.key(),
                decoder.origin@,
                whole,
            ));
        }
        decoder
    }

    /// Copies decrypted bytes out.
    fn drain(&mut self, output: &mut [u8], produced: usize, count: usize)
        requires
            old(self).wf(),
            count <= old(self).out_len - old(self).out_pos,
            count <= old(self).remaining,
            produced + count <= old(output).len(),
        ensures
            final(self).wf(),
            final(self)@ == (AesModel {
                ready: old(self)@.ready.skip(count as int),
                remaining: (old(self).remaining - count) as u64,
                ..old(self)@
            }),
            final(output)@.len() == old(output)@.len(),
            final(output)@.take(produced + count) == old(output)@.take(produced as int) + old(
                self,
            )@.ready.take(count as int),
            final(self).origin == old(self).origin,
            final(self).taken == old(self).taken,
            final(self).given@ == old(self).given@ + old(self)@.ready.take(count as int),
    {
        let ghost ready = self@.ready;
        copy_at(output, produced, self.out_block.as_slice(), self.out_pos, count);
        proof {
            let at = self.out_pos as int;
            assert(self.out_block@.subrange(at, at + count) =~= ready.take(count as int));
            assert(output@.take(produced + count) =~= old(output)@.take(produced as int)
                + ready.take(count as int));
        }
        self.out_pos = self.out_pos + count;
        self.remaining = self.remaining - count as u64;
        self.given = Ghost(self.given@ + ready.take(count as int));
        proof {
            assert(self@.ready =~= ready.skip(count as int));
            assert(self.given@ + self@.ready =~= old(self).given@ + ready);
        }
    }

    /// Moves `count` bytes of input to the incomplete block.
    fn fill(&mut self, input: &[u8], from: usize, count: usize)
        requires
            old(self).in_len + count <= 16,
            from + count <= input.len(),
        ensures
            *final(self) == (AesDecoder {
                in_block: final(self).in_block,
                in_len: (old(self).in_len + count) as usize,
                taken: final(self).taken,
                ..*old(self)
            }),
            final(self)@.partial == old(self)@.partial + input@.subrange(
                from as int,
                from + count,
            ),
            final(self).taken@ == old(self).taken@ + input@.subrange(from as int, from + count),
    {
        let start: usize = self.in_len;
        let mut i: usize = 0;
        while i < count
            invariant
                i <= count,
                start + count <= 16,
                from + count <= input.len(),
                *self == (AesDecoder { in_block: self.in_block, ..*old(self) }),
                start == old(self).in_len,
                forall|j: int| 0 <= j < start ==> self.in_block@[j] == old(self).in_block@[j],
                forall|j: int|
                    start <= j < start + i ==> self.in_block@[j] == input@[from + j - start],
            decreases count - i,
        {
            self.in_block[start + i] = input[from + i];
            i += 1;
        }
        self.in_len = start + count;
        self.taken = Ghost(self.taken@ + input@.subrange(from as int, from + count));
        proof {
            assert(self@.partial =~= old(self)@.partial + input@.subrange(
                from as int,
                from + count,
            ));
        }
    }

    /// Decrypts the block once it is complete.
    fn decrypt(&mut self)
        requires
            old(self).in_len == 16,
            old(self)@.ready.len() == 0,
            old(self).out_pos <= old(self).out_len <= 16,
            old(self).taken@.len() >= 16,
            ({
                let whole = old(self).taken@.take(old(self).taken@.len() - 16);
                &&& whole.len() % 16 == 0
                &&& old(self).in_block@ == old(self).taken@.skip(old(self).taken@.len() - 16)
                &&& old(self).vector@ == chain_vector(old(self).origin@, whole)
                &&& old(self).given@ == cbc_plain(
                    old(self).cipher.key(),
                    old(self).origin@,
                    whole,
                )
            }),
        ensures
            final(self).wf(),
            final(self)@ == (AesModel {
                partial: Seq::empty(),
                ready: cbc_block(old(self)@.key, old(self)@.vector, old(self).in_block@),
                vector: old(self).in_block@,
                ..old(self)@
            }),
            final(self).origin == old(self).origin,
            final(self).taken == old(self).taken,
            final(self).given == old(self).given,
    {
        let plain: [u8; 16] = self.cipher.decrypt(&self.vector, &self.in_block);
        self.vector = self.in_block;
        self.out_block = plain;
        self.out_pos = 0;
        self.out_len = 16;
        self.in_len = 0;
        proof {
            let whole = self.taken@;
            assert(whole.take(whole.len() as int) =~= whole);
            assert(whole.skip(whole.len() as int) =~= Seq::<u8>::empty());
            assert(self@.partial =~= Seq::<u8>::empty());
            assert(self@.ready =~= plain@);
        }
    }

    /// Fills the block from `input[consumed..]` and decrypts it if it is complete.
    fn take_block(&mut self, input: &[u8], consumed: usize) -> (count: usize)
        requires
            old(self).wf(),
            old(self)@.ready.len() == 0,
            consumed <= input.len(),
        ensures
            final(self).wf(),
            consumed + count <= input.len(),
            count == old(self)@.filling((input@.len() - consumed) as nat),
            ({
                let block = old(self)@.partial + input@.subrange(
                    consumed as int,
                    consumed + count,
                );
                if block.len() < 16 {
                    final(self)@ == (AesModel { partial: block, ..old(self)@ })
                } else {
                    &&& count > 0
                    &&& final(self)@ == (AesModel {
                        partial: Seq::empty(),
                        ready: cbc_block(old(self)@.key, old(self)@.vector, block),
                        vector: block,
                        ..old(self)@
                    })
                }
            }),
            final(self).origin == old(self).origin,
            final(self).taken@ == old(self).taken@ + input@.subrange(
                consumed as int,
                consumed + count,
            ),
            final(self).given == old(self).given,
    {
        let missing: usize = BLOCK - self.in_len;
        let left: usize = input.len() - consumed;
        let count: usize = if left < missing {
            left
        } else {
            missing
        };
        let ghost taken = self.taken@;
        let ghost in_len = self.in_len as int;
        proof {
            assert(self.given@ + self@.ready =~= self.given@);
        }
        self.fill(input, consumed, count);
        proof {
            let all = self.taken@;
            assert(all.take(all.len() - self.in_len) =~= taken.take(taken.len() - in_len));
            assert(all.skip(all.len() - self.in_len) =~= self@.partial);
        }
        if self.in_len == BLOCK {
            proof {
                assert(self.in_block@ =~= self@.partial);
            }
            self.decrypt();
        } else {
            proof {
                assert(self@.ready =~= old(self)@.ready);
            }
        }
        count
    }

    /// Decrypts from `input` to `output`. What is given out in all calls is the
    /// beginning of the decryption of all input taken; it ends where `out_size`
    /// bytes have been given out.
    #[verifier::rlimit(40)]
    #[verifier::spinoff_prover]
    pub fn process(&mut self, input: &[u8], output: &mut [u8], end: EndOfInput) -> (step: CodecStep)
        requires
            old(self).wf(),
        ensures
            final(self).wf(),
            step.fits(input@.len(), old(output)@.len()),
            final(output)@.len() == old(output)@.len(),
            ({
                let expected = old(self)@.run(input@, old(output)@.len());
                &&& final(self)@ == expected.model
                &&& step.consumed == expected.consumed
                &&& final(output)@.take(step.produced as int) == expected.written
                &&& step.status == aes_status(expected, end)
            }),
            final(self).origin == old(self).origin,
            final(self).taken@ == old(self).taken@ + input@.take(step.consumed as int),
            final(self).given@ == old(self).given@ + final(output)@.take(step.produced as int),
    {
        let mut consumed: usize = 0;
        let mut produced: usize = 0;
        let ghost expected = self@.run(input@, output@.len());
        let mut done = false;
        let mut going = true;
        proof {
            assert(input@.skip(0) =~= input@);
            assert(output@.take(0) =~= Seq::<u8>::empty());
            assert(input@.take(0) =~= Seq::<u8>::empty());
            assert(output@.take(0) + expected.written =~= expected.written);
            assert(self.taken@ + input@.take(0) =~= self.taken@);
            assert(self.given@ + output@.take(0) =~= self.given@);
        }
        while going
            invariant
                self.wf(),
                consumed <= input.len(),
                produced <= output.len(),
                output@.len() == old(output)@.len(),
                expected == old(self)@.run(input@, old(output)@.len()),
                going ==> !done && ({
                    let rest = self@.run(
                        input@.skip(consumed as int),
                        (output@.len() - produced) as nat,
                    );
                    &&& expected.model == rest.model
                    &&& expected.done == rest.done
                    &&& expected.consumed == consumed + rest.consumed
                    &&& expected.written == output@.take(produced as int) + rest.written
                }),
                !going ==> {
                    &&& expected.model == self@
                    &&& expected.done == done
                    &&& expected.consumed == consumed
                    &&& expected.written == output@.take(produced as int)
                },
                self.origin == old(self).origin,
                self.taken@ == old(self).taken@ + input@.take(consumed as int),
                self.given@ == old(self).given@ + output@.take(produced as int),
            decreases input@.len() - consumed + (output@.len() - produced), going as int,
        {
            proof {
                assert(output@.take(produced as int) + Seq::<u8>::empty() =~= output@.take(
                    produced as int,
                ));
            }
            if self.remaining == 0 {
                done = true;
                going = false;
            } else if self.out_pos < self.out_len {
                let available: usize = self.out_len - self.out_pos;
                let room: usize = output.len() - produced;
                let mut count: usize = if available <= room {
                    available
                } else {
                    room
                };
                if count as u64 > self.remaining {
                    count = self.remaining as usize;
                }
                if count == 0 {
                    going = false;
                } else {
                    let ghost ready = self@.ready;
                    let ghost before = output@.take(produced as int);
                    self.drain(output, produced, count);
                    proof {
                        let rest = self@.run(
                            input@.skip(consumed as int),
                            (output@.len() - produced - count) as nat,
                        );
                        assert(before + (ready.take(count as int) + rest.written)
                            =~= output@.take(produced + count) + rest.written);
                        assert(old(self).given@ + before + ready.take(count as int) =~= old(
                            self,
                        ).given@ + output@.take(produced + count));
                    }
                    produced = produced + count;
                }
            } else {
                let ghost tail = input@.skip(consumed as int);
                let count: usize = self.take_block(input, consumed);
                proof {
                    assert(input@.subrange(consumed as int, consumed + count) =~= tail.take(
                        count as int,
                    ));
                    assert(tail.skip(count as int) =~= input@.skip(consumed + count));
                    assert(old(self).taken@ + input@.take(consumed as int) + tail.take(count as int)
                        =~= old(self).taken@ + input@.take(consumed + count));
                }
                consumed = consumed + count;
                if self.out_pos == self.out_len {
                    going = false;
                }
            }
        }
        if done {
            return CodecStep { consumed, produced, status: CodecStatus::Done };
        }
        if produced != 0 || consumed != 0 {
            return CodecStep { consumed, produced, status: CodecStatus::NeedInput };
        }
        let status = match end {
            EndOfInput::End => CodecStatus::Done,
            EndOfInput::More => CodecStatus::NeedInput,
        };
        CodecStep { consumed: 0, produced: 0, status }
    }
}

/// A call that runs to the end of its budget hands out exactly the bytes that
/// were left of it.
pub proof fn law_budget_is_spent(model: AesModel, input: Seq<u8>, room: nat)
    ensures
        model.run(input, room).written.len() + model.run(input, room).model.remaining
            == model.remaining,
        model.run(input, room).done <==> model.run(input, room).model.remaining == 0,
    decreases input.len() + room,
{
    if model.remaining > 0 {
        if model.ready.len() > 0 {
            let count = least3(model.ready.len(), room, model.remaining as nat);
            if 0 < count <= room {
                law_budget_is_spent(
                    AesModel {
                        ready: model.ready.skip(count as int),
                        remaining: (model.remaining - count) as u64,
                        ..model
                    },
                    input,
                    (room - count) as nat,
                );
            }
        } else {
            let count = model.filling(input.len());
            let block = model.partial + input.take(count as int);
            if block.len() >= 16 && count > 0 {
                law_budget_is_spent(
                    AesModel {
                        partial: Seq::empty(),
                        ready: cbc_block(model.key, model.vector, block),
                        vector: block,
                        ..model
                    },
                    input.skip(count as int),
                    room,
                );
            }
        }
    }
}

/// Whole blocks enciphered in CBC mode with a block cipher.
pub open spec fn cbc_cipher(
    encrypt: spec_fn(Seq<u8>) -> Seq<u8>,
    vector: Seq<u8>,
    plain: Seq<u8>,
) -> Seq<u8>
    decreases plain.len(),
{
    if plain.len() < 16 {
        Seq::empty()
    } else {
        let before = cbc_cipher(encrypt, vector, plain.take(plain.len() - 16));
        before + encrypt(combined(plain.skip(plain.len() - 16), chain_vector(vector, before)))
    }
}

proof fn lemma_combined_twice(block: Seq<u8>, vector: Seq<u8>)
    requires
        block.len() == 16,
    ensures
        combined(combined(block, vector), vector) == block,
{
    assert forall|i: int| 0 <= i < 16 implies #[trigger] combined(combined(block, vector), vector)[i]
        == block[i] by {
        let a = block[i];
        let b = vector[i];
        assert((a ^ b) ^ b == a) by (bit_vector);
    }
    assert(combined(combined(block, vector), vector) =~= block);
}

/// Decryption gives back what was enciphered in CBC mode with any block cipher
/// that AES decryption under the key undoes.
pub proof fn law_decryption_undoes_encryption(
    encrypt: spec_fn(Seq<u8>) -> Seq<u8>,
    key: Seq<u8>,
    vector: Seq<u8>,
    plain: Seq<u8>,
)
    requires
        plain.len() % 16 == 0,
        forall|block: Seq<u8>| #[trigger]
            encrypt(block).len() == 16 && (block.len() == 16 ==> aes256_decrypted(
                key,
                encrypt(block),
            ) == block),
    ensures
        cbc_cipher(encrypt, vector, plain).len() == plain.len(),
        cbc_plain(key, vector, cbc_cipher(encrypt, vector, plain)) == plain,
    decreases plain.len(),
{
    if plain.len() >= 16 {
        let head = plain.take(plain.len() - 16);
        let block = plain.skip(plain.len() - 16);
        law_decryption_undoes_encryption(encrypt, key, vector, head);
        let before = cbc_cipher(encrypt, vector, head);
        let chained = chain_vector(vector, before);
        let last = encrypt(combined(block, chained));
        let all = cbc_cipher(encrypt, vector, plain);
        assert(all =~= before + last);
        assert(all.take(all.len() - 16) =~= before);
        assert(all.skip(all.len() - 16) =~= last);
        assert(combined(block, chained).len() == 16);
        assert(aes256_decrypted(key, last) == combined(block, chained));
        lemma_combined_twice(block, chained);
        assert(cbc_block(key, chained, last) == block);
        assert(plain =~= head + block);
    } else {
        assert(plain =~= Seq::<u8>::empty());
        assert(cbc_plain(key, vector, Seq::empty()) =~= Seq::<u8>::empty());
    }
}

} // verus!

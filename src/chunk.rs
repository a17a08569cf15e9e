use vstd::prelude::*;

use aes::Aes256;
use cbc::cipher::block_padding::Pkcs7;
use cbc::cipher::{BlockDecryptMut, BlockEncryptMut, KeyIvInit};

use crate::bytes::{append_range, le_u32_bytes, lemma_le_u32_round_trip, push_le_u32};
use crate::error::CokacencError;
use crate::framer::{data_part, declared_len, metadata_complete, metadata_part, MetadataSplitWriter};
use crate::plan::{chunk_len_of, chunk_offset_of, lemma_reassembly, reassembled, total_chunks_of};
use crate::header::{
    has_valid_header, header_bytes, lemma_header_round_trip, read_header, write_header, HEADER_LEN,
    SALT_LEN,
};

verus! {

/// Iterations of the key derivation.
pub const KDF_ROUNDS: u32 = 100000;

/// Length of a derived key.
pub const KEY_LEN: usize = 32;

/// What PBKDF2-HMAC-SHA512 derives: `len` bytes from a password, a salt and a round count.
pub uninterp spec fn pbkdf2_sha512_of(password: Seq<u8>, salt: Seq<u8>, rounds: u32, len: nat) -> Seq<u8>;

/// AES-256-CBC with PKCS#7 padding of `plaintext` under `key` and `iv`.
pub uninterp spec fn aes256_cbc_of(key: Seq<u8>, iv: Seq<u8>, plaintext: Seq<u8>) -> Seq<u8>;

/// Relies on pbkdf2::pbkdf2_hmac over sha2::Sha512: it fills the output buffer
/// with bytes that depend on the password, the salt and the round count alone.
#[verifier::external_body]
fn pbkdf2_sha512(password: &[u8], salt: &[u8], rounds: u32, len: usize) -> (r: Vec<u8>)
    ensures
        r@ == pbkdf2_sha512_of(password@, salt@, rounds, len as nat),
        r@.len() == len,
{
    let mut out = vec![0u8; len];
    pbkdf2::pbkdf2_hmac::<sha2::Sha512>(password, salt, rounds, &mut out);
    out
}

/// Relies on cbc::Encryptor<aes::Aes256>::encrypt_padded_vec_mut with PKCS#7:
/// deterministic in key, IV and plaintext.
#[verifier::external_body]
fn cbc_encrypt(key: &[u8], iv: &[u8], plaintext: &[u8]) -> (r: Vec<u8>)
    requires
        key@.len() == KEY_LEN,
        iv@.len() == SALT_LEN,
    ensures
        r@ == aes256_cbc_of(key@, iv@, plaintext@),
{
    cbc::Encryptor::<Aes256>::new(key.into(), iv.into()).encrypt_padded_vec_mut::<Pkcs7>(plaintext)
}

/// Relies on cbc::Decryptor<aes::Aes256>::decrypt_padded_vec_mut with PKCS#7: it
/// fails on misaligned input or malformed padding, and what it returns encrypts
/// back to its input; a ciphertext that some plaintext encrypts to decrypts to it.
#[verifier::external_body]
fn cbc_decrypt(key: &[u8], iv: &[u8], ciphertext: &[u8]) -> (r: Option<Vec<u8>>)
    requires
        key@.len() == KEY_LEN,
        iv@.len() == SALT_LEN,
    ensures
        r is Some ==> aes256_cbc_of(key@, iv@, r->Some_0@) == ciphertext@,
        forall|p: Seq<u8>|
            #[trigger] aes256_cbc_of(key@, iv@, p) == ciphertext@ ==> r is Some && r->Some_0@ == p,
{
    cbc::Decryptor::<Aes256>::new(key.into(), iv.into()).decrypt_padded_vec_mut::<Pkcs7>(
        ciphertext,
    ).ok()
}

/// Fresh random bytes for a chunk's salt or IV.
pub fn random_block() -> (r: Vec<u8>)
    ensures
        r@.len() == SALT_LEN,
{
    let raw: [u8; 16] = rand::random::<[u8; 16]>();
    let r = vstd::slice::slice_to_vec(raw.as_slice());
    r
}

/// The key for a chunk whose header holds `salt`.
pub open spec fn key_of(password: Seq<u8>, salt: Seq<u8>) -> Seq<u8> {
    pbkdf2_sha512_of(password, salt, KDF_ROUNDS, KEY_LEN as nat)
}

/// Derives the symmetric key from the password and a chunk's salt.
pub fn derive_key(password: &[u8], salt: &[u8]) -> (r: Vec<u8>)
    ensures
        r@ == key_of(password@, salt@),
        r@.len() == KEY_LEN,
{
    pbkdf2_sha512(password, salt, KDF_ROUNDS, KEY_LEN)
}

/// Key derivation is deterministic: the same password and salt give the same key.
pub proof fn lemma_derive_key_deterministic(password: Seq<u8>, s1: Seq<u8>, s2: Seq<u8>)
    ensures
        s1 == s2 ==> key_of(password, s1) == key_of(password, s2),
{
}

/// The plaintext of a chunk: metadata length, metadata record, file data.
pub open spec fn frame(meta: Seq<u8>, data: Seq<u8>) -> Seq<u8> {
    le_u32_bytes(meta.len() as int) + meta + data
}

/// The bytes of a chunk file.
pub open spec fn sealed_chunk(
    password: Seq<u8>,
    salt: Seq<u8>,
    iv: Seq<u8>,
    meta: Seq<u8>,
    data: Seq<u8>,
) -> Seq<u8> {
    header_bytes(salt, iv) + aes256_cbc_of(key_of(password, salt), iv, frame(meta, data))
}

/// Prefixes the metadata record with its length and appends the file data.
pub fn frame_plaintext(meta: &[u8], data: &[u8]) -> (r: Vec<u8>)
    requires
        meta@.len() <= u32::MAX,
    ensures
        r@ == frame(meta@, data@),
{
    let mut out: Vec<u8> = Vec::new();
    push_le_u32(&mut out, meta.len() as u32);
    append_range(&mut out, meta, 0, meta.len());
    append_range(&mut out, data, 0, data.len());
    assert(meta@.subrange(0, meta@.len() as int) =~= meta@);
    assert(data@.subrange(0, data@.len() as int) =~= data@);
    out
}

/// Encrypts one chunk: header, then the framed metadata and data under the
/// key derived from `password` and `salt`.
pub fn seal_chunk(password: &[u8], salt: &[u8], iv: &[u8], meta: &[u8], data: &[u8]) -> (r: Vec<
    u8,
>)
    requires
        salt@.len() == SALT_LEN,
        iv@.len() == SALT_LEN,
        meta@.len() <= u32::MAX,
    ensures
        r@ == sealed_chunk(password@, salt@, iv@, meta@, data@),
{
    let key = derive_key(password, salt);
    let plain = frame_plaintext(meta, data);
    let ct = cbc_encrypt(key.as_slice(), iv, plain.as_slice());
    let mut out = write_header(salt, iv);
    append_range(&mut out, ct.as_slice(), 0, ct.len());
    assert(ct@.subrange(0, ct@.len() as int) =~= ct@);
    out
}

/// The salt, IV and ciphertext of a chunk with a valid header.
pub open spec fn chunk_salt(c: Seq<u8>) -> Seq<u8> {
    c.subrange(12, 28)
}

pub open spec fn chunk_iv(c: Seq<u8>) -> Seq<u8> {
    c.subrange(28, 44)
}

pub open spec fn chunk_body(c: Seq<u8>) -> Seq<u8> {
    c.subrange(44, c.len() as int)
}

/// Whether `p` is a plaintext that the chunk `c` encrypts under `password`.
pub open spec fn decrypts_to(password: Seq<u8>, c: Seq<u8>, p: Seq<u8>) -> bool {
    aes256_cbc_of(key_of(password, chunk_salt(c)), chunk_iv(c), p) == chunk_body(c)
}

/// Decrypts one chunk and splits its plaintext into metadata record and file data.
pub fn open_chunk(password: &[u8], c: &[u8]) -> (r: Result<(Vec<u8>, Vec<u8>), CokacencError>)
    ensures
        !has_valid_header(c@) ==> r == Err::<(Vec<u8>, Vec<u8>), CokacencError>(
            CokacencError::Format,
        ),
        has_valid_header(c@) && (forall|p: Seq<u8>| !#[trigger] decrypts_to(password@, c@, p))
            ==> r == Err::<(Vec<u8>, Vec<u8>), CokacencError>(CokacencError::Crypto),
        forall|p: Seq<u8>|
            has_valid_header(c@) && #[trigger] decrypts_to(password@, c@, p) ==> if metadata_complete(
                p,
            ) {
                r is Ok && r->Ok_0.0@ == metadata_part(p) && r->Ok_0.1@ == data_part(p)
            } else {
                r == Err::<(Vec<u8>, Vec<u8>), CokacencError>(CokacencError::IncompleteMetadata)
            },
{
    let (salt, iv) = match read_header(c) {
        Ok(h) => h,
        Err(e) => {
            return Err(e);
        },
    };
    let key = derive_key(password, salt.as_slice());
    let mut body: Vec<u8> = Vec::new();
    append_range(&mut body, c, HEADER_LEN, c.len());
    let plain = match cbc_decrypt(key.as_slice(), iv.as_slice(), body.as_slice()) {
        Some(p) => p,
        None => {
            assert(forall|p: Seq<u8>| !#[trigger] decrypts_to(password@, c@, p));
            return Err(CokacencError::Crypto);
        },
    };
    assert(decrypts_to(password@, c@, plain@));
    let mut split = MetadataSplitWriter::new();
    let mut data: Vec<u8> = Vec::new();
    split.write(plain.as_slice(), &mut data);
    assert(Seq::<u8>::empty() + plain@ =~= plain@);
    assert(data@ =~= data_part(plain@));
    match split.take_metadata_bytes() {
        Ok(meta) => Ok((meta, data)),
        Err(e) => Err(e),
    }
}

/// A framed plaintext splits back into the metadata record and the data.
pub proof fn lemma_frame_round_trip(meta: Seq<u8>, data: Seq<u8>)
    requires
        meta.len() <= u32::MAX,
    ensures
        metadata_complete(frame(meta, data)),
        metadata_part(frame(meta, data)) == meta,
        data_part(frame(meta, data)) == data,
{
    let f = frame(meta, data);
    let n = meta.len() as int;
    lemma_le_u32_round_trip(n);
    assert(f.subrange(0, 4) =~= le_u32_bytes(n));
    assert(declared_len(f) == n);
    assert(metadata_part(f) =~= meta);
    assert(data_part(f) =~= data);
}

/// A sealed chunk carries a valid header, the salt and IV it was sealed with,
/// and a body that decrypts under the same password to the framed record and
/// data, which split back into exactly those.
pub proof fn lemma_seal_open_round_trip(
    password: Seq<u8>,
    salt: Seq<u8>,
    iv: Seq<u8>,
    meta: Seq<u8>,
    data: Seq<u8>,
)
    requires
        salt.len() == SALT_LEN,
        iv.len() == SALT_LEN,
        meta.len() <= u32::MAX,
    ensures
        has_valid_header(sealed_chunk(password, salt, iv, meta, data)),
        decrypts_to(password, sealed_chunk(password, salt, iv, meta, data), frame(meta, data)),
        metadata_complete(frame(meta, data)),
        metadata_part(frame(meta, data)) == meta,
        data_part(frame(meta, data)) == data,
{
    let body = aes256_cbc_of(key_of(password, salt), iv, frame(meta, data));
    lemma_header_round_trip(salt, iv, body);
    let c = sealed_chunk(password, salt, iv, meta, data);
    assert(chunk_body(c) =~= body);
    lemma_frame_round_trip(meta, data);
}

/// The data slice that chunk `i` of the file `d` carries.
pub open spec fn chunk_slice(d: Seq<u8>, split: int, i: int) -> Seq<u8> {
    d.subrange(chunk_offset_of(i, split), chunk_offset_of(i, split) + chunk_len_of(i, split, d.len() as int))
}

/// Packing then unpacking a file gives it back: each chunk, sealed over its
/// slice under any salt and IV, has a valid header and decrypts under the same
/// password to a plaintext whose record and data are the ones sealed, and the
/// data of the chunks, in order, is the file.
pub proof fn lemma_file_round_trip(
    password: Seq<u8>,
    d: Seq<u8>,
    split: int,
    salts: Seq<Seq<u8>>,
    ivs: Seq<Seq<u8>>,
    metas: Seq<Seq<u8>>,
)
    requires
        split > 0,
        salts.len() == total_chunks_of(d.len() as int, split),
        ivs.len() == salts.len(),
        metas.len() == salts.len(),
        forall|i: int| 0 <= i < salts.len() ==> (#[trigger] salts[i]).len() == SALT_LEN,
        forall|i: int| 0 <= i < ivs.len() ==> (#[trigger] ivs[i]).len() == SALT_LEN,
        forall|i: int| 0 <= i < metas.len() ==> (#[trigger] metas[i]).len() <= u32::MAX,
    ensures
        forall|i: int|
            0 <= i < salts.len() ==> {
                let c = #[trigger] sealed_chunk(password, salts[i], ivs[i], metas[i], chunk_slice(d, split, i));
                &&& has_valid_header(c)
                &&& decrypts_to(password, c, frame(metas[i], chunk_slice(d, split, i)))
                &&& metadata_part(frame(metas[i], chunk_slice(d, split, i))) == metas[i]
                &&& data_part(frame(metas[i], chunk_slice(d, split, i))) == chunk_slice(d, split, i)
            },
        reassembled(d, split, total_chunks_of(d.len() as int, split)) == d,
{
    assert forall|i: int| 0 <= i < salts.len() implies {
        let c = #[trigger] sealed_chunk(password, salts[i], ivs[i], metas[i], chunk_slice(d, split, i));
        &&& has_valid_header(c)
        &&& decrypts_to(password, c, frame(metas[i], chunk_slice(d, split, i)))
        &&& metadata_part(frame(metas[i], chunk_slice(d, split, i))) == metas[i]
        &&& data_part(frame(metas[i], chunk_slice(d, split, i))) == chunk_slice(d, split, i)
    } by {
        lemma_seal_open_round_trip(password, salts[i], ivs[i], metas[i], chunk_slice(d, split, i));
    }
    lemma_reassembly(d, split);
}

} // verus!

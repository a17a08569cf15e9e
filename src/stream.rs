use vstd::prelude::*;

use aes::cipher::generic_array::GenericArray;
use aes::Aes256;
use cbc::cipher::block_padding::Pkcs7;
use cbc::cipher::{BlockDecryptMut, BlockEncryptMut, KeyIvInit};

use crate::bytes::{append_all, append_range, push_le_u32};
use crate::chunk::{aes256_cbc_of, chunk_iv, chunk_salt, derive_key, frame, key_of, sealed_chunk, KEY_LEN};
use crate::error::CokacencError;
use crate::framer::{data_part, metadata_complete, metadata_part, MetadataSplitWriter};
use crate::header::{has_valid_header, header_bytes, read_header, write_header, SALT_LEN};

verus! {

/// AES-256-CBC without padding over a plaintext of whole 16-byte blocks.
pub uninterp spec fn cbc_blocks_of(key: Seq<u8>, iv: Seq<u8>, blocks: Seq<u8>) -> Seq<u8>;

/// A cbc::Encryptor<aes::Aes256> in the middle of a message. Verus refuses a
/// declaration of the type itself (its bounds are the cipher crate's traits), so
/// it is held here, opaque.
#[verifier::external_body]
pub struct CbcEncState {
    inner: cbc::Encryptor<Aes256>,
}

/// A cbc::Decryptor<aes::Aes256> in the middle of a message, held opaque as above.
#[verifier::external_body]
pub struct CbcDecState {
    inner: cbc::Decryptor<Aes256>,
}

/// The key and IV an encryptor was made with, and the whole blocks it has encrypted.
pub uninterp spec fn enc_key(s: CbcEncState) -> Seq<u8>;

pub uninterp spec fn enc_iv(s: CbcEncState) -> Seq<u8>;

pub uninterp spec fn enc_done(s: CbcEncState) -> Seq<u8>;

/// The key and IV a decryptor was made with, the ciphertext blocks it has
/// consumed, and the plaintext blocks it has produced.
pub uninterp spec fn dec_key(s: CbcDecState) -> Seq<u8>;

pub uninterp spec fn dec_iv(s: CbcDecState) -> Seq<u8>;

pub uninterp spec fn dec_seen(s: CbcDecState) -> Seq<u8>;

pub uninterp spec fn dec_done(s: CbcDecState) -> Seq<u8>;

/// Relies on cbc::Encryptor::<aes::Aes256>::new (KeyIvInit): an encryptor at the
/// start of a message.
#[verifier::external_body]
fn cbc_enc_new(key: &[u8], iv: &[u8]) -> (r: CbcEncState)
    requires
        key@.len() == KEY_LEN,
        iv@.len() == SALT_LEN,
    ensures
        enc_key(r) == key@,
        enc_iv(r) == iv@,
        enc_done(r) == Seq::<u8>::empty(),
        cbc_blocks_of(enc_key(r), enc_iv(r), enc_done(r)) == Seq::<u8>::empty(),
{
    CbcEncState { inner: cbc::Encryptor::<Aes256>::new(key.into(), iv.into()) }
}

/// Relies on BlockEncryptMut::encrypt_block_mut of cbc::Encryptor: encrypts the
/// next block, chained to the ones before.
#[verifier::external_body]
fn cbc_enc_block(s: &mut CbcEncState, block: &[u8]) -> (r: Vec<u8>)
    requires
        block@.len() == 16,
    ensures
        enc_key(*final(s)) == enc_key(*old(s)),
        enc_iv(*final(s)) == enc_iv(*old(s)),
        enc_done(*final(s)) == enc_done(*old(s)) + block@,
        cbc_blocks_of(enc_key(*final(s)), enc_iv(*final(s)), enc_done(*final(s))) == cbc_blocks_of(
            enc_key(*old(s)),
            enc_iv(*old(s)),
            enc_done(*old(s)),
        ) + r@,
{
    let mut b = GenericArray::clone_from_slice(block);
    s.inner.encrypt_block_mut(&mut b);
    b.to_vec()
}

/// Relies on BlockEncryptMut::encrypt_padded_vec_mut with PKCS#7 of cbc::Encryptor:
/// pads and encrypts the rest of the message, chained to the blocks before.
#[verifier::external_body]
fn cbc_enc_finish(s: CbcEncState, tail: &[u8]) -> (r: Vec<u8>)
    requires
        tail@.len() < 16,
    ensures
        aes256_cbc_of(enc_key(s), enc_iv(s), enc_done(s) + tail@) == cbc_blocks_of(
            enc_key(s),
            enc_iv(s),
            enc_done(s),
        ) + r@,
{
    s.inner.encrypt_padded_vec_mut::<Pkcs7>(tail)
}

/// Relies on cbc::Decryptor::<aes::Aes256>::new (KeyIvInit): a decryptor at the
/// start of a message.
#[verifier::external_body]
fn cbc_dec_new(key: &[u8], iv: &[u8]) -> (r: CbcDecState)
    requires
        key@.len() == KEY_LEN,
        iv@.len() == SALT_LEN,
    ensures
        dec_key(r) == key@,
        dec_iv(r) == iv@,
        dec_seen(r) == Seq::<u8>::empty(),
        dec_done(r) == Seq::<u8>::empty(),
        cbc_blocks_of(dec_key(r), dec_iv(r), dec_done(r)) == dec_seen(r),
{
    CbcDecState { inner: cbc::Decryptor::<Aes256>::new(key.into(), iv.into()) }
}

/// Relies on BlockDecryptMut::decrypt_block_mut of cbc::Decryptor: decrypts the
/// next block, chained to the ones before, inverting the encryption.
#[verifier::external_body]
fn cbc_dec_block(s: &mut CbcDecState, block: &[u8]) -> (r: Vec<u8>)
    requires
        block@.len() == 16,
    ensures
        dec_key(*final(s)) == dec_key(*old(s)),
        dec_iv(*final(s)) == dec_iv(*old(s)),
        dec_seen(*final(s)) == dec_seen(*old(s)) + block@,
        dec_done(*final(s)) == dec_done(*old(s)) + r@,
        cbc_blocks_of(dec_key(*old(s)), dec_iv(*old(s)), dec_done(*old(s))) == dec_seen(*old(s))
            ==> cbc_blocks_of(dec_key(*final(s)), dec_iv(*final(s)), dec_done(*final(s)))
            == dec_seen(*final(s)),
{
    let mut b = GenericArray::clone_from_slice(block);
    s.inner.decrypt_block_mut(&mut b);
    b.to_vec()
}

/// Relies on BlockDecryptMut::decrypt_padded_vec_mut with PKCS#7 of
/// cbc::Decryptor: decrypts and unpads the last part of a message, which is not
/// empty unless nothing came before it (an empty input is refused, and no
/// plaintext encrypts to nothing). It fails on misaligned input or malformed
/// padding; what it returns completes a plaintext that encrypts to the whole
/// message, and a message that some plaintext encrypts to decrypts to it.
#[verifier::external_body]
fn cbc_dec_finish(s: CbcDecState, rest: &[u8]) -> (r: Option<Vec<u8>>)
    requires
        cbc_blocks_of(dec_key(s), dec_iv(s), dec_done(s)) == dec_seen(s),
        rest@.len() > 0 || dec_seen(s).len() == 0,
    ensures
        r is Some ==> aes256_cbc_of(dec_key(s), dec_iv(s), dec_done(s) + r->Some_0@) == dec_seen(s)
            + rest@,
        forall|p: Seq<u8>|
            #[trigger] aes256_cbc_of(dec_key(s), dec_iv(s), p) == dec_seen(s) + rest@ ==> r is Some
                && dec_done(s) + r->Some_0@ == p,
{
    s.inner.decrypt_padded_vec_mut::<Pkcs7>(rest).ok()
}

/// AES-256-CBC with PKCS#7 over a plaintext fed in spans of any size.
pub struct StreamEncryptor {
    state: CbcEncState,
    pending: Vec<u8>,
    out: Ghost<Seq<u8>>,
}

impl StreamEncryptor {
    pub closed spec fn key(&self) -> Seq<u8> {
        enc_key(self.state)
    }

    pub closed spec fn iv(&self) -> Seq<u8> {
        enc_iv(self.state)
    }

    /// The plaintext fed so far.
    pub closed spec fn fed(&self) -> Seq<u8> {
        enc_done(self.state) + self.pending@
    }

    /// The ciphertext handed out so far.
    pub closed spec fn out(&self) -> Seq<u8> {
        self.out@
    }

    pub closed spec fn wf(&self) -> bool {
        &&& self.pending@.len() < 16
        &&& self.out@ == cbc_blocks_of(enc_key(self.state), enc_iv(self.state), enc_done(self.state))
    }

    pub fn new(key: &[u8], iv: &[u8]) -> (r: Self)
        requires
            key@.len() == KEY_LEN,
            iv@.len() == SALT_LEN,
        ensures
            r.wf(),
            r.key() == key@,
            r.iv() == iv@,
            r.fed() == Seq::<u8>::empty(),
            r.out() == Seq::<u8>::empty(),
    {
        let state = cbc_enc_new(key, iv);
        let r = StreamEncryptor { state, pending: Vec::new(), out: Ghost(Seq::empty()) };
        assert(r.fed() =~= Seq::<u8>::empty());
        r
    }

    /// Feeds `data`; returns the ciphertext of the whole blocks it completes.
    pub fn update(&mut self, data: &[u8]) -> (r: Vec<u8>)
        requires
            old(self).wf(),
        ensures
            final(self).wf(),
            final(self).key() == old(self).key(),
            final(self).iv() == old(self).iv(),
            final(self).fed() == old(self).fed() + data@,
            final(self).out() == old(self).out() + r@,
    {
        let ghost fed0 = self.fed();
        let ghost out0 = self.out@;
        let mut r: Vec<u8> = Vec::new();
        let mut pos: usize = 0;
        while pos < data.len()
            invariant
                0 <= pos <= data@.len(),
                self.wf(),
                self.key() == old(self).key(),
                self.iv() == old(self).iv(),
                self.fed() == fed0 + data@.subrange(0, pos as int),
                self.out@ == out0 + r@,
            decreases data@.len() - pos,
        {
            let ghost f = self.fed();
            let need = 16 - self.pending.len();
            let take = if need < data.len() - pos {
                need
            } else {
                data.len() - pos
            };
            let ghost pos0 = pos as int;
            let ghost pend0 = self.pending@;
            append_range(&mut self.pending, data, pos, pos + take);
            pos = pos + take;
            assert(self.pending@ == pend0 + data@.subrange(pos0, pos as int));
            assert(data@.subrange(0, pos as int) =~= data@.subrange(0, pos0) + data@.subrange(
                pos0,
                pos as int,
            ));
            assert(self.fed() =~= f + data@.subrange(pos0, pos as int));
            assert(f == fed0 + data@.subrange(0, pos0));
            assert(self.fed() =~= fed0 + data@.subrange(0, pos as int));
            if self.pending.len() == 16 {
                let ghost done0 = enc_done(self.state);
                let ghost p0 = self.pending@;
                let ghost r0 = r@;
                let c = cbc_enc_block(&mut self.state, self.pending.as_slice());
                assert(c@.subrange(0, c@.len() as int) =~= c@);
                append_range(&mut r, c.as_slice(), 0, c.len());
                assert(r@ == r0 + c@);
                self.pending = Vec::new();
                self.out = Ghost(self.out@ + c@);
                assert(self.fed() =~= done0 + p0);
                assert(self.out@ =~= out0 + r@);
            }
        }
        assert(data@.subrange(0, data@.len() as int) =~= data@);
        r
    }

    /// Pads and encrypts what is pending; with everything handed out before, the
    /// ciphertext is AES-256-CBC of all bytes fed.
    pub fn finish(self) -> (r: Vec<u8>)
        requires
            self.wf(),
        ensures
            self.out() + r@ == aes256_cbc_of(self.key(), self.iv(), self.fed()),
    {
        cbc_enc_finish(self.state, self.pending.as_slice())
    }
}

/// AES-256-CBC decryption with PKCS#7 over a ciphertext fed in spans of any
/// size; the last block is held back until the end, where its padding is checked.
pub struct StreamDecryptor {
    state: CbcDecState,
    held: Vec<u8>,
}

impl StreamDecryptor {
    pub closed spec fn key(&self) -> Seq<u8> {
        dec_key(self.state)
    }

    pub closed spec fn iv(&self) -> Seq<u8> {
        dec_iv(self.state)
    }

    /// The ciphertext fed so far.
    pub closed spec fn fed(&self) -> Seq<u8> {
        dec_seen(self.state) + self.held@
    }

    /// The plaintext handed out so far.
    pub closed spec fn out(&self) -> Seq<u8> {
        dec_done(self.state)
    }

    pub closed spec fn wf(&self) -> bool {
        &&& self.held@.len() <= 16
        &&& self.held@.len() == 0 ==> dec_seen(self.state).len() == 0
        &&& cbc_blocks_of(dec_key(self.state), dec_iv(self.state), dec_done(self.state)) == dec_seen(
            self.state,
        )
    }

    pub fn new(key: &[u8], iv: &[u8]) -> (r: Self)
        requires
            key@.len() == KEY_LEN,
            iv@.len() == SALT_LEN,
        ensures
            r.wf(),
            r.key() == key@,
            r.iv() == iv@,
            r.fed() == Seq::<u8>::empty(),
            r.out() == Seq::<u8>::empty(),
    {
        let state = cbc_dec_new(key, iv);
        let r = StreamDecryptor { state, held: Vec::new() };
        assert(r.fed() =~= Seq::<u8>::empty());
        r
    }

    /// Feeds `ct`; returns the plaintext of the blocks before the last one held.
    pub fn update(&mut self, ct: &[u8]) -> (r: Vec<u8>)
        requires
            old(self).wf(),
        ensures
            final(self).wf(),
            final(self).key() == old(self).key(),
            final(self).iv() == old(self).iv(),
            final(self).fed() == old(self).fed() + ct@,
            final(self).out() == old(self).out() + r@,
    {
        let ghost fed0 = self.fed();
        let ghost out0 = self.out();
        let mut r: Vec<u8> = Vec::new();
        let mut pos: usize = 0;
        while pos < ct.len()
            invariant
                0 <= pos <= ct@.len(),
                self.wf(),
                self.key() == old(self).key(),
                self.iv() == old(self).iv(),
                self.fed() == fed0 + ct@.subrange(0, pos as int),
                self.out() == out0 + r@,
            decreases ct@.len() - pos,
        {
            if self.held.len() == 16 {
                let ghost seen0 = dec_seen(self.state);
                let ghost h0 = self.held@;
                let ghost r0 = r@;
                let p = cbc_dec_block(&mut self.state, self.held.as_slice());
                assert(p@.subrange(0, p@.len() as int) =~= p@);
                append_range(&mut r, p.as_slice(), 0, p.len());
                self.held = Vec::new();
                assert(self.fed() =~= seen0 + h0);
                assert(self.out() =~= out0 + r@);
            }
            let ghost f = self.fed();
            let ghost pos0 = pos as int;
            let ghost h1 = self.held@;
            let need = 16 - self.held.len();
            let take = if need < ct.len() - pos {
                need
            } else {
                ct.len() - pos
            };
            append_range(&mut self.held, ct, pos, pos + take);
            pos = pos + take;
            assert(self.held@ == h1 + ct@.subrange(pos0, pos as int));
            assert(ct@.subrange(0, pos as int) =~= ct@.subrange(0, pos0) + ct@.subrange(
                pos0,
                pos as int,
            ));
            assert(self.fed() =~= f + ct@.subrange(pos0, pos as int));
            assert(self.fed() =~= fed0 + ct@.subrange(0, pos as int));
        }
        assert(ct@.subrange(0, ct@.len() as int) =~= ct@);
        r
    }

    /// Decrypts what is held and checks the padding. A result completes a
    /// plaintext that encrypts to all bytes fed; where some plaintext encrypts
    /// to them, that plaintext is what comes out.
    pub fn finish(self) -> (r: Option<Vec<u8>>)
        requires
            self.wf(),
        ensures
            r is Some ==> aes256_cbc_of(self.key(), self.iv(), self.out() + r->Some_0@)
                == self.fed(),
            forall|p: Seq<u8>|
                #[trigger] aes256_cbc_of(self.key(), self.iv(), p) == self.fed() ==> r is Some
                    && self.out() + r->Some_0@ == p,
    {
        cbc_dec_finish(self.state, self.held.as_slice())
    }
}

/// Writes one chunk a span at a time: header, then the framed metadata record
/// and file data under the key derived from the password and salt.
pub struct ChunkSealer {
    enc: StreamEncryptor,
    password: Ghost<Seq<u8>>,
    salt: Ghost<Seq<u8>>,
    iv: Ghost<Seq<u8>>,
    meta: Ghost<Seq<u8>>,
    data: Ghost<Seq<u8>>,
    emitted: Ghost<Seq<u8>>,
}

impl ChunkSealer {
    pub closed spec fn password(&self) -> Seq<u8> {
        self.password@
    }

    pub closed spec fn salt(&self) -> Seq<u8> {
        self.salt@
    }

    pub closed spec fn iv(&self) -> Seq<u8> {
        self.iv@
    }

    pub closed spec fn meta(&self) -> Seq<u8> {
        self.meta@
    }

    /// The file data fed so far.
    pub closed spec fn data(&self) -> Seq<u8> {
        self.data@
    }

    /// The chunk bytes handed out so far.
    pub closed spec fn emitted(&self) -> Seq<u8> {
        self.emitted@
    }

    pub closed spec fn wf(&self) -> bool {
        &&& self.enc.wf()
        &&& self.enc.key() == key_of(self.password@, self.salt@)
        &&& self.enc.iv() == self.iv@
        &&& self.enc.fed() == frame(self.meta@, self.data@)
        &&& self.emitted@ == header_bytes(self.salt@, self.iv@) + self.enc.out()
    }

    /// Starts a chunk; returns the sealer and the first bytes of the chunk.
    pub fn new(password: &[u8], salt: &[u8], iv: &[u8], meta: &[u8]) -> (r: (Self, Vec<u8>))
        requires
            salt@.len() == SALT_LEN,
            iv@.len() == SALT_LEN,
            meta@.len() <= u32::MAX,
        ensures
            r.0.wf(),
            r.0.password() == password@,
            r.0.salt() == salt@,
            r.0.iv() == iv@,
            r.0.meta() == meta@,
            r.0.data() == Seq::<u8>::empty(),
            r.0.emitted() == r.1@,
    {
        let key = derive_key(password, salt);
        let mut enc = StreamEncryptor::new(key.as_slice(), iv);
        let mut prefix: Vec<u8> = Vec::new();
        push_le_u32(&mut prefix, meta.len() as u32);
        append_all(&mut prefix, meta);
        assert(prefix@ =~= frame(meta@, Seq::<u8>::empty()));
        let c = enc.update(prefix.as_slice());
        let mut out = write_header(salt, iv);
        append_all(&mut out, c.as_slice());
        assert(enc.fed() =~= frame(meta@, Seq::<u8>::empty()));
        let s = ChunkSealer {
            enc,
            password: Ghost(password@),
            salt: Ghost(salt@),
            iv: Ghost(iv@),
            meta: Ghost(meta@),
            data: Ghost(Seq::empty()),
            emitted: Ghost(out@),
        };
        (s, out)
    }

    /// Feeds file data; returns the chunk bytes it completes.
    pub fn update(&mut self, data: &[u8]) -> (r: Vec<u8>)
        requires
            old(self).wf(),
        ensures
            final(self).wf(),
            final(self).password() == old(self).password(),
            final(self).salt() == old(self).salt(),
            final(self).iv() == old(self).iv(),
            final(self).meta() == old(self).meta(),
            final(self).data() == old(self).data() + data@,
            final(self).emitted() == old(self).emitted() + r@,
    {
        let c = self.enc.update(data);
        self.data = Ghost(self.data@ + data@);
        self.emitted = Ghost(self.emitted@ + c@);
        assert(self.enc.fed() =~= frame(self.meta@, self.data@));
        assert(self.emitted@ =~= header_bytes(self.salt@, self.iv@) + self.enc.out());
        c
    }

    /// Ends the chunk; with everything handed out before, the bytes are the
    /// chunk sealed over all data fed.
    pub fn finish(self) -> (r: Vec<u8>)
        requires
            self.wf(),
        ensures
            self.emitted() + r@ == sealed_chunk(
                self.password(),
                self.salt(),
                self.iv(),
                self.meta(),
                self.data(),
            ),
    {
        let ghost out0 = self.enc.out();
        let r = self.enc.finish();
        assert(self.emitted@ + r@ =~= header_bytes(self.salt@, self.iv@) + (out0 + r@));
        r
    }
}

/// Reads one chunk a span at a time: the header first, then the ciphertext,
/// whose plaintext is split into metadata record and file data as it comes.
pub struct ChunkOpener {
    dec: StreamDecryptor,
    split: MetadataSplitWriter,
}

impl ChunkOpener {
    pub closed spec fn key(&self) -> Seq<u8> {
        self.dec.key()
    }

    pub closed spec fn iv(&self) -> Seq<u8> {
        self.dec.iv()
    }

    /// The ciphertext fed so far.
    pub closed spec fn body(&self) -> Seq<u8> {
        self.dec.fed()
    }

    /// The plaintext decrypted so far.
    pub closed spec fn plain(&self) -> Seq<u8> {
        self.dec.out()
    }

    pub closed spec fn wf(&self) -> bool {
        &&& self.dec.wf()
        &&& self.split.wf()
        &&& self.split.consumed() == self.dec.out()
    }

    /// Reads the chunk header and derives the chunk's key.
    pub fn new(password: &[u8], header: &[u8]) -> (r: Result<Self, CokacencError>)
        ensures
            !has_valid_header(header@) ==> r is Err && r->Err_0 == CokacencError::Format,
            has_valid_header(header@) ==> r is Ok && r->Ok_0.wf() && r->Ok_0.key() == key_of(
                password@,
                chunk_salt(header@),
            ) && r->Ok_0.iv() == chunk_iv(header@) && r->Ok_0.body() == Seq::<u8>::empty()
                && r->Ok_0.plain() == Seq::<u8>::empty(),
    {
        let (salt, iv) = match read_header(header) {
            Ok(h) => h,
            Err(e) => {
                return Err(e);
            },
        };
        let key = derive_key(password, salt.as_slice());
        let dec = StreamDecryptor::new(key.as_slice(), iv.as_slice());
        Ok(ChunkOpener { dec, split: MetadataSplitWriter::new() })
    }

    /// Feeds ciphertext; file data it completes is appended to `sink`.
    pub fn update(&mut self, ct: &[u8], sink: &mut Vec<u8>)
        requires
            old(self).wf(),
        ensures
            final(self).wf(),
            final(self).key() == old(self).key(),
            final(self).iv() == old(self).iv(),
            final(self).body() == old(self).body() + ct@,
            final(self).plain().len() >= old(self).plain().len(),
            final(sink)@ == old(sink)@ + data_part(final(self).plain()).subrange(
                data_part(old(self).plain()).len() as int,
                data_part(final(self).plain()).len() as int,
            ),
    {
        let p = self.dec.update(ct);
        self.split.write(p.as_slice(), sink);
    }

    /// Ends the chunk: checks the padding and returns the metadata record; the
    /// rest of the file data is appended to `sink`.
    pub fn finish(self, sink: &mut Vec<u8>) -> (r: Result<Vec<u8>, CokacencError>)
        requires
            self.wf(),
        ensures
            (forall|p: Seq<u8>| !(#[trigger] aes256_cbc_of(self.key(), self.iv(), p) == self.body()))
                ==> r is Err && r->Err_0 == CokacencError::Crypto,
            forall|p: Seq<u8>|
                #[trigger] aes256_cbc_of(self.key(), self.iv(), p) == self.body() ==> if metadata_complete(
                    p,
                ) {
                    r is Ok && r->Ok_0@ == metadata_part(p) && final(sink)@ == old(sink)@
                        + data_part(p).subrange(
                        data_part(self.plain()).len() as int,
                        data_part(p).len() as int,
                    )
                } else {
                    r is Err && r->Err_0 == CokacencError::IncompleteMetadata
                },
    {
        let ghost body = self.body();
        let ghost plain0 = self.plain();
        let ghost key = self.key();
        let ghost iv = self.iv();
        let mut split = self.split;
        match self.dec.finish() {
            None => {
                assert(forall|p: Seq<u8>| !(#[trigger] aes256_cbc_of(key, iv, p) == body));
                Err(CokacencError::Crypto)
            },
            Some(t) => {
                split.write(t.as_slice(), sink);
                assert forall|p: Seq<u8>| #[trigger] aes256_cbc_of(key, iv, p) == body implies p
                    == split.consumed() by {
                    assert(plain0 + t@ == p);
                }
                split.take_metadata_bytes()
            },
        }
    }
}

} // verus!

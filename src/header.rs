use vstd::prelude::*;

use crate::bytes::{
    append_range, le_u32_bytes, le_u32_value, lemma_le_u32_round_trip, push_le_u32, read_le_u32,
};
use crate::error::CokacencError;

verus! {

/// Size of the unencrypted chunk preamble.
pub const HEADER_LEN: usize = 44;

/// Chunk format version.
pub const FORMAT_VERSION: u32 = 2;

/// Length of the KDF salt and of the cipher IV.
pub const SALT_LEN: usize = 16;

/// The magic constant "COKACENC".
pub open spec fn magic() -> Seq<u8> {
    seq![67u8, 79u8, 75u8, 65u8, 67u8, 69u8, 78u8, 67u8]
}

/// The 44-byte preamble: magic, version, salt, IV.
pub open spec fn header_bytes(salt: Seq<u8>, iv: Seq<u8>) -> Seq<u8> {
    magic() + le_u32_bytes(FORMAT_VERSION as int) + salt + iv
}

/// Whether `c` starts with a preamble of this format.
pub open spec fn has_valid_header(c: Seq<u8>) -> bool {
    &&& c.len() >= HEADER_LEN
    &&& c.subrange(0, 8) == magic()
    &&& le_u32_value(c.subrange(8, 12)) == FORMAT_VERSION
}

fn push_magic(dst: &mut Vec<u8>)
    ensures
        final(dst)@ == old(dst)@ + magic(),
{
    dst.push(67);
    dst.push(79);
    dst.push(75);
    dst.push(65);
    dst.push(67);
    dst.push(69);
    dst.push(78);
    dst.push(67);
    assert(dst@ =~= old(dst)@ + magic());
}

/// Emits the preamble for a chunk encrypted under `salt` and `iv`.
pub fn write_header(salt: &[u8], iv: &[u8]) -> (r: Vec<u8>)
    requires
        salt@.len() == SALT_LEN,
        iv@.len() == SALT_LEN,
    ensures
        r@ == header_bytes(salt@, iv@),
        r@.len() == HEADER_LEN,
{
    let mut out: Vec<u8> = Vec::new();
    push_magic(&mut out);
    push_le_u32(&mut out, FORMAT_VERSION);
    append_range(&mut out, salt, 0, salt.len());
    append_range(&mut out, iv, 0, iv.len());
    assert(salt@.subrange(0, 16) =~= salt@);
    assert(iv@.subrange(0, 16) =~= iv@);
    out
}

/// Parses the preamble of a chunk into its salt and IV.
pub fn read_header(c: &[u8]) -> (r: Result<(Vec<u8>, Vec<u8>), CokacencError>)
    ensures
        has_valid_header(c@) ==> r is Ok && r->Ok_0.0@ == c@.subrange(12, 28) && r->Ok_0.1@
            == c@.subrange(28, 44),
        !has_valid_header(c@) ==> r == Err::<(Vec<u8>, Vec<u8>), CokacencError>(
            CokacencError::Format,
        ),
{
    if c.len() < HEADER_LEN {
        return Err(CokacencError::Format);
    }
    let mut m: Vec<u8> = Vec::new();
    push_magic(&mut m);
    let mut k: usize = 0;
    while k < 8
        invariant
            0 <= k <= 8,
            c@.len() >= HEADER_LEN,
            m@ == magic(),
            forall|j: int| 0 <= j < k ==> c@[j] == #[trigger] magic()[j],
        decreases 8 - k,
    {
        if c[k] != m[k] {
            assert(c@.subrange(0, 8)[k as int] != magic()[k as int]);
            return Err(CokacencError::Format);
        }
        k = k + 1;
    }
    assert(c@.subrange(0, 8) =~= magic());
    let v = read_le_u32(c, 8);
    if v != FORMAT_VERSION {
        return Err(CokacencError::Format);
    }
    let mut salt: Vec<u8> = Vec::new();
    append_range(&mut salt, c, 12, 28);
    let mut iv: Vec<u8> = Vec::new();
    append_range(&mut iv, c, 28, 44);
    Ok((salt, iv))
}

/// Reading back an emitted preamble gives its salt and IV.
pub proof fn lemma_header_round_trip(salt: Seq<u8>, iv: Seq<u8>, body: Seq<u8>)
    requires
        salt.len() == SALT_LEN,
        iv.len() == SALT_LEN,
    ensures
        has_valid_header(header_bytes(salt, iv) + body),
        (header_bytes(salt, iv) + body).subrange(12, 28) == salt,
        (header_bytes(salt, iv) + body).subrange(28, 44) == iv,
        (header_bytes(salt, iv) + body).subrange(44, 44 + body.len() as int) == body,
{
    let c = header_bytes(salt, iv) + body;
    let v = FORMAT_VERSION as int;
    lemma_le_u32_round_trip(v);
    assert(c.subrange(0, 8) =~= magic());
    assert(c.subrange(8, 12) =~= le_u32_bytes(v));
    assert(c.subrange(12, 28) =~= salt);
    assert(c.subrange(28, 44) =~= iv);
    assert(c.subrange(44, 44 + body.len() as int) =~= body);
}

} // verus!

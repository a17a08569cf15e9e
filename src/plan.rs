use vstd::prelude::*;

use crate::error::CokacencError;
use crate::seq::SEQ_CAPACITY;

verus! {

/// Bytes in a mebibyte.
pub const MIB: u64 = 1048576;

/// Metadata record format version.
pub const METADATA_VERSION: u32 = 2;

/// The split size in bytes for a size given in mebibytes; 0 means one chunk per file.
pub fn split_size_bytes(split_size_mb: u64) -> (r: u64)
    ensures
        split_size_mb == 0 ==> r == u64::MAX,
        split_size_mb > 0 ==> r as int == if split_size_mb * MIB <= u64::MAX {
            split_size_mb * MIB
        } else {
            u64::MAX as int
        },
{
    if split_size_mb == 0 {
        u64::MAX
    } else if split_size_mb <= u64::MAX / MIB {
        split_size_mb * MIB
    } else {
        u64::MAX
    }
}

/// Chunks of a file of `size` bytes: at least one, else ceil(size / split).
pub open spec fn total_chunks_of(size: int, split: int) -> int {
    if size == 0 {
        1
    } else {
        (size + split - 1) / split
    }
}

/// Where chunk `i` starts in the source file.
pub open spec fn chunk_offset_of(i: int, split: int) -> int {
    i * split
}

/// How many source bytes chunk `i` holds.
pub open spec fn chunk_len_of(i: int, split: int, size: int) -> int {
    if size == 0 {
        0
    } else if split <= size - i * split {
        split
    } else {
        size - i * split
    }
}

/// The number of chunks for a file of `size` bytes.
pub fn total_chunks(size: u64, split: u64) -> (r: u64)
    requires
        split > 0,
    ensures
        r == total_chunks_of(size as int, split as int),
{
    if size == 0 {
        return 1;
    }
    let q = size / split;
    let r = size % split;
    let ghost z = size as int;
    let ghost d = split as int;
    let ghost extra: int = if r == 0 {
        0
    } else {
        1
    };
    assert((z + d - 1) / d == q + extra) by (nonlinear_arith)
        requires
            d > 0,
            z > 0,
            q == z / d,
            r == z % d,
            extra == (if r == 0 { 0int } else { 1int }),
    {
        assert(z == q * d + r);
    }
    if r == 0 {
        q
    } else {
        assert(q < u64::MAX) by (nonlinear_arith)
            requires
                d > 0,
                r > 0,
                q == z / d,
                r == z % d,
                z <= u64::MAX,
        {
            assert(z == q * d + r);
            assert(d >= 2);
            assert(q * d >= q * 2);
        }
        q + 1
    }
}

proof fn lemma_offset_bound(i: int, split: int, size: int)
    requires
        split > 0,
        size > 0,
        0 <= i < total_chunks_of(size, split),
    ensures
        0 <= i * split < size,
{
    assert(0 <= i * split < size) by (nonlinear_arith)
        requires
            split > 0,
            size > 0,
            0 <= i,
            i < (size + split - 1) / split,
    {
        assert((size + split - 1) / split * split <= size + split - 1);
        assert(i + 1 <= (size + split - 1) / split);
        assert((i + 1) * split <= (size + split - 1) / split * split);
    }
}

/// The offset and length of chunk `i`.
pub fn chunk_span(i: u64, split: u64, size: u64) -> (r: (u64, u64))
    requires
        split > 0,
        i < total_chunks_of(size as int, split as int),
    ensures
        r.0 == chunk_offset_of(i as int, split as int),
        r.1 == chunk_len_of(i as int, split as int, size as int),
{
    if size == 0 {
        return (0, 0);
    }
    proof {
        lemma_offset_bound(i as int, split as int, size as int);
    }
    let off = i * split;
    let len = if split <= size - off {
        split
    } else {
        size - off
    };
    (off, len)
}

/// Consecutive chunks tile the file: each starts where the previous ends, each
/// but an empty file's single chunk holds at least one byte and at most the split
/// size, and the last ends at the end of the file.
pub proof fn lemma_chunks_tile(size: int, split: int, i: int)
    requires
        size >= 0,
        split > 0,
        0 <= i < total_chunks_of(size, split),
    ensures
        chunk_len_of(i, split, size) <= split,
        size > 0 ==> 0 < chunk_len_of(i, split, size),
        chunk_offset_of(i, split) + chunk_len_of(i, split, size) <= size || size == 0,
        i + 1 < total_chunks_of(size, split) ==> chunk_len_of(i, split, size) == split
            && chunk_offset_of(i + 1, split) == chunk_offset_of(i, split) + chunk_len_of(
            i,
            split,
            size,
        ),
        i + 1 == total_chunks_of(size, split) && size > 0 ==> chunk_offset_of(i, split)
            + chunk_len_of(i, split, size) == size,
{
    if size > 0 {
        lemma_offset_bound(i, split, size);
        if i + 1 < total_chunks_of(size, split) {
            lemma_offset_bound(i + 1, split, size);
            assert((i + 1) * split == i * split + split) by (nonlinear_arith);
        }
        if i + 1 == total_chunks_of(size, split) {
            assert(size - i * split <= split) by (nonlinear_arith)
                requires
                    split > 0,
                    size > 0,
                    i + 1 == (size + split - 1) / split,
            {
                assert((size + split - 1) / split * split > size + split - 1 - split);
                assert((i + 1) * split == i * split + split);
            }
        }
    }
}

/// An empty file packs to exactly one chunk that holds no data.
pub proof fn lemma_empty_file_one_chunk(split: int)
    requires
        split > 0,
    ensures
        total_chunks_of(0, split) == 1,
        chunk_offset_of(0, split) == 0,
        chunk_len_of(0, split, 0) == 0,
{
}

/// A file of exactly the split size is one chunk; one byte more makes two,
/// of the split size and of one byte.
pub proof fn lemma_exact_multiple_boundary(split: int)
    requires
        split > 0,
    ensures
        total_chunks_of(split, split) == 1,
        chunk_len_of(0, split, split) == split,
        total_chunks_of(split + 1, split) == 2,
        chunk_len_of(0, split, split + 1) == split,
        chunk_len_of(1, split, split + 1) == 1,
{
    assert((split + split - 1) / split == 1) by (nonlinear_arith)
        requires
            split > 0,
    {
        assert(split <= split + split - 1 < 2 * split);
    }
    assert((split + 1 + split - 1) / split == 2) by (nonlinear_arith)
        requires
            split > 0,
    {
        assert(split + 1 + split - 1 == 2 * split);
    }
}

/// The data of chunks 0..n of `d`, concatenated in order.
pub open spec fn reassembled(d: Seq<u8>, split: int, n: int) -> Seq<u8>
    decreases n,
{
    if n <= 0 {
        Seq::empty()
    } else {
        reassembled(d, split, n - 1) + d.subrange(
            chunk_offset_of(n - 1, split),
            chunk_offset_of(n - 1, split) + chunk_len_of(n - 1, split, d.len() as int),
        )
    }
}

proof fn lemma_reassembled_prefix(d: Seq<u8>, split: int, n: int)
    requires
        split > 0,
        d.len() > 0,
        0 <= n <= total_chunks_of(d.len() as int, split),
    ensures
        n < total_chunks_of(d.len() as int, split) ==> reassembled(d, split, n) == d.subrange(
            0,
            n * split,
        ),
        n == total_chunks_of(d.len() as int, split) ==> reassembled(d, split, n) == d,
    decreases n,
{
    let size = d.len() as int;
    if n == 0 {
        assert(d.subrange(0, 0) =~= Seq::<u8>::empty());
        assert((size + split - 1) / split >= 1) by (nonlinear_arith)
            requires
                size > 0,
                split > 0,
        {
            assert(size + split - 1 >= split);
        }
    } else {
        lemma_reassembled_prefix(d, split, n - 1);
        lemma_chunks_tile(size, split, n - 1);
        assert((n - 1) * split + split == n * split) by (nonlinear_arith);
        let off = chunk_offset_of(n - 1, split);
        let len = chunk_len_of(n - 1, split, size);
        assert(d.subrange(0, off) + d.subrange(off, off + len) =~= d.subrange(0, off + len));
        assert(reassembled(d, split, n) == reassembled(d, split, n - 1) + d.subrange(off, off + len));
        assert(reassembled(d, split, n - 1) == d.subrange(0, off));
        if n == total_chunks_of(size, split) {
            assert(off + len == size);
            assert(d.subrange(0, size) =~= d);
        } else {
            assert(len == split);
        }
    }
}

/// Reassembling the chunks' data slices in order reproduces the file byte for byte.
pub proof fn lemma_reassembly(d: Seq<u8>, split: int)
    requires
        split > 0,
    ensures
        reassembled(d, split, total_chunks_of(d.len() as int, split)) == d,
{
    if d.len() == 0 {
        assert(reassembled(d, split, 0) =~= Seq::<u8>::empty());
        assert(d.subrange(0, 0) =~= d);
        assert(reassembled(d, split, 1) =~= d);
    } else {
        lemma_reassembled_prefix(d, split, total_chunks_of(d.len() as int, split));
    }
}

/// How many bytes reading chunks 0..i in order takes from the file.
pub open spec fn read_before(size: int, split: int, i: int) -> int
    decreases i,
{
    if i <= 0 {
        0
    } else {
        read_before(size, split, i - 1) + chunk_len_of(i - 1, split, size)
    }
}

/// Reading the chunks' lengths one after another from the start of the file
/// puts every chunk at its planned offset, and the last read ends at the end
/// of the file.
pub proof fn lemma_sequential_reads(size: int, split: int, i: int)
    requires
        size >= 0,
        split > 0,
        0 <= i <= total_chunks_of(size, split),
    ensures
        i < total_chunks_of(size, split) ==> read_before(size, split, i) == chunk_offset_of(i, split),
        i == total_chunks_of(size, split) ==> read_before(size, split, i) == size,
    decreases i,
{
    if i > 0 {
        lemma_sequential_reads(size, split, i - 1);
        lemma_chunks_tile(size, split, i - 1);
        assert((i - 1) * split + split == i * split) by (nonlinear_arith);
        if size == 0 {
            assert(total_chunks_of(size, split) == 1);
        }
    } else if size > 0 {
        assert((size + split - 1) / split >= 1) by (nonlinear_arith)
            requires
                size > 0,
                split > 0,
        {
            assert(size + split - 1 >= split);
        }
    }
}

/// What pass one learns of a source file.
#[derive(Debug, Clone, PartialEq, Eq)]
pub struct FileInfo {
    pub size: u64,
    /// Lowercase hex content hash; empty when it was not computed.
    pub md5: Vec<u8>,
    pub modified: i64,
    pub permissions: u32,
}

/// The record embedded at the start of every chunk's plaintext.
#[derive(Debug, Clone, PartialEq, Eq)]
pub struct ChunkMetadata {
    pub version: u32,
    pub group_id: Vec<u8>,
    pub filename: Vec<u8>,
    pub file_size: u64,
    pub file_md5: Vec<u8>,
    pub modified: i64,
    pub permissions: u32,
    pub total_chunks: usize,
    pub chunk_index: usize,
    pub chunk_offset: u64,
    pub chunk_data_size: u64,
}

/// Whether `m` is the record of chunk `i` of a file described by `info`.
pub open spec fn is_chunk_record(
    m: ChunkMetadata,
    group_id: Seq<u8>,
    filename: Seq<u8>,
    info: FileInfo,
    split: int,
    i: int,
) -> bool {
    &&& m.version == METADATA_VERSION
    &&& m.group_id@ == group_id
    &&& m.filename@ == filename
    &&& m.file_size == info.size
    &&& m.file_md5@ == info.md5@
    &&& m.modified == info.modified
    &&& m.permissions == info.permissions
    &&& m.total_chunks == total_chunks_of(info.size as int, split)
    &&& m.chunk_index == i
    &&& m.chunk_offset == chunk_offset_of(i, split)
    &&& m.chunk_data_size == chunk_len_of(i, split, info.size as int)
}

/// The records of every chunk of a file, in order; a file that needs more
/// chunks than there are sequence labels is refused.
pub fn plan_chunks(group_id: &Vec<u8>, filename: &Vec<u8>, info: &FileInfo, split: u64) -> (r:
    Result<Vec<ChunkMetadata>, CokacencError>)
    requires
        split > 0,
    ensures
        total_chunks_of(info.size as int, split as int) > SEQ_CAPACITY ==> r is Err && r->Err_0
            == CokacencError::SeqOverflow(SEQ_CAPACITY),
        total_chunks_of(info.size as int, split as int) <= SEQ_CAPACITY ==> r is Ok && r->Ok_0@.len()
            == total_chunks_of(info.size as int, split as int) && forall|i: int|
            0 <= i < r->Ok_0@.len() ==> is_chunk_record(
                #[trigger] r->Ok_0@[i],
                group_id@,
                filename@,
                *info,
                split as int,
                i,
            ),
{
    let total = total_chunks(info.size, split);
    if total > SEQ_CAPACITY as u64 {
        return Err(CokacencError::SeqOverflow(SEQ_CAPACITY));
    }
    let mut out: Vec<ChunkMetadata> = Vec::new();
    let mut i: u64 = 0;
    while i < total
        invariant
            split > 0,
            total == total_chunks_of(info.size as int, split as int),
            total <= SEQ_CAPACITY,
            0 <= i <= total,
            out@.len() == i,
            forall|k: int|
                0 <= k < i ==> is_chunk_record(
                    #[trigger] out@[k],
                    group_id@,
                    filename@,
                    *info,
                    split as int,
                    k,
                ),
        decreases total - i,
    {
        let (off, len) = chunk_span(i, split, info.size);
        let m = ChunkMetadata {
            version: METADATA_VERSION,
            group_id: group_id.clone(),
            filename: filename.clone(),
            file_size: info.size,
            file_md5: info.md5.clone(),
            modified: info.modified,
            permissions: info.permissions,
            total_chunks: total as usize,
            chunk_index: i as usize,
            chunk_offset: off,
            chunk_data_size: len,
        };
        out.push(m);
        i = i + 1;
    }
    Ok(out)
}

} // verus!

use vstd::prelude::*;

use crate::bytes::bytes_eq;
use crate::error::CokacencError;
use crate::hasher::ContentHasher;
use crate::hex::hex_of;
use crate::naming::md5_of;
use crate::plan::ChunkMetadata;
use crate::seq::{label_of, seq_label, SEQ_CAPACITY};

verus! {

/// Whether position `k` is the first where `idx` departs from 0, 1, 2, ...
pub open spec fn is_first_gap(idx: Seq<usize>, k: int) -> bool {
    &&& 0 <= k < idx.len()
    &&& idx[k] != k
    &&& forall|j: int| 0 <= j < k ==> #[trigger] idx[j] == j
}

/// Checks that the sorted sequence indices of a group are exactly 0..n; a gap
/// names the label of the first absent chunk.
pub fn check_sequence(idx: &Vec<usize>) -> (r: Result<(), CokacencError>)
    ensures
        idx@.len() == 0 ==> r == Err::<(), CokacencError>(CokacencError::NoEncFiles),
        idx@.len() > 0 && (forall|j: int| 0 <= j < idx@.len() ==> #[trigger] idx@[j] == j) ==> r
            is Ok,
        forall|k: int|
            #[trigger] is_first_gap(idx@, k) ==> if k < SEQ_CAPACITY {
                r is Err && r->Err_0 is MissingChunk && r->Err_0->MissingChunk_0@ == label_of(k)
            } else {
                r == Err::<(), CokacencError>(CokacencError::SeqOverflow(k as usize))
            },
{
    if idx.len() == 0 {
        return Err(CokacencError::NoEncFiles);
    }
    let mut i: usize = 0;
    while i < idx.len()
        invariant
            0 <= i <= idx@.len(),
            forall|j: int| 0 <= j < i ==> #[trigger] idx@[j] == j,
        decreases idx@.len() - i,
    {
        if idx[i] != i {
            assert(is_first_gap(idx@, i as int));
            assert forall|k: int| #[trigger] is_first_gap(idx@, k) implies k == i by {
                if k < i {
                } else if k > i {
                    assert(idx@[i as int] == i);
                }
            }
            return match seq_label(i) {
                Ok(l) => Err(CokacencError::MissingChunk(l)),
                Err(e) => Err(e),
            };
        }
        i = i + 1;
    }
    Ok(())
}

/// Whether chunk `i`'s record agrees with the group's first record: its index
/// is `i`, and after the first chunk its file name, and its content hash where
/// the first declares one, match.
pub open spec fn record_consistent(i: int, first: ChunkMetadata, meta: ChunkMetadata) -> bool {
    &&& meta.chunk_index == i
    &&& i == 0 || (meta.filename@ == first.filename@ && (first.file_md5@.len() == 0
        || meta.file_md5@ == first.file_md5@))
}

/// Checks chunk `i`'s record against the group's first record.
pub fn check_chunk_metadata(i: usize, first: &ChunkMetadata, meta: &ChunkMetadata) -> (r: Result<
    (),
    CokacencError,
>)
    ensures
        record_consistent(i as int, *first, *meta) ==> r is Ok,
        !record_consistent(i as int, *first, *meta) ==> r == Err::<(), CokacencError>(
            CokacencError::MetadataInconsistency,
        ),
{
    if meta.chunk_index != i {
        return Err(CokacencError::MetadataInconsistency);
    }
    if i == 0 {
        return Ok(());
    }
    if !bytes_eq(meta.filename.as_slice(), first.filename.as_slice()) {
        return Err(CokacencError::MetadataInconsistency);
    }
    if first.file_md5.len() > 0 && !bytes_eq(meta.file_md5.as_slice(), first.file_md5.as_slice()) {
        return Err(CokacencError::MetadataInconsistency);
    }
    Ok(())
}

/// Validates merged content: its hex content hash against the declared hash
/// (skipped when none was declared), then its size against the declared size.
pub fn verify_merged(expected_md5: &Vec<u8>, actual_md5: &Vec<u8>, expected_size: u64, actual_size: u64) -> (r:
    Result<(), CokacencError>)
    ensures
        expected_md5@.len() > 0 && expected_md5@ != actual_md5@ ==> r is Err && r->Err_0
            is HashMismatch && r->Err_0->HashMismatch_0@ == expected_md5@
            && r->Err_0->HashMismatch_1@ == actual_md5@,
        (expected_md5@.len() == 0 || expected_md5@ == actual_md5@) && expected_size != actual_size
            ==> r == Err::<(), CokacencError>(CokacencError::SizeMismatch(expected_size, actual_size)),
        (expected_md5@.len() == 0 || expected_md5@ == actual_md5@) && expected_size == actual_size
            ==> r is Ok,
        r is Ok && expected_md5@.len() > 0 ==> expected_md5@ == actual_md5@,
{
    if expected_md5.len() > 0 && !bytes_eq(expected_md5.as_slice(), actual_md5.as_slice()) {
        return Err(CokacencError::HashMismatch(expected_md5.clone(), actual_md5.clone()));
    }
    if expected_size != actual_size {
        return Err(CokacencError::SizeMismatch(expected_size, actual_size));
    }
    Ok(())
}

/// The state of merging one group's chunks in sequence order: how many were
/// accepted, the record of the first, and the content hash of the data merged.
pub struct UnpackSession {
    accepted: usize,
    first: Option<ChunkMetadata>,
    hasher: ContentHasher,
}

impl UnpackSession {
    pub closed spec fn accepted(&self) -> nat {
        self.accepted as nat
    }

    pub closed spec fn first(&self) -> Option<ChunkMetadata> {
        self.first
    }

    /// The data of the accepted chunks, in order.
    pub closed spec fn merged(&self) -> Seq<u8> {
        self.hasher.fed()
    }

    /// The record every later chunk is checked against: the first one, or
    /// `meta` itself while there is none.
    pub open spec fn reference(&self, meta: ChunkMetadata) -> ChunkMetadata {
        match self.first() {
            Some(f) => f,
            None => meta,
        }
    }

    /// A session that has accepted no chunk.
    pub fn new() -> (r: Self)
        ensures
            r.accepted() == 0,
            r.first() is None,
            r.merged() == Seq::<u8>::empty(),
    {
        UnpackSession { accepted: 0, first: None, hasher: ContentHasher::new() }
    }

    /// Adds file data to the merge, in order.
    pub fn feed(&mut self, data: &[u8])
        ensures
            final(self).accepted() == old(self).accepted(),
            final(self).first() == old(self).first(),
            final(self).merged() == old(self).merged() + data@,
    {
        self.hasher.update(data);
    }

    /// Accepts the record of the next chunk, or refuses it and leaves the
    /// session as it was.
    pub fn accept(&mut self, meta: ChunkMetadata) -> (r: Result<(), CokacencError>)
        requires
            old(self).accepted() < usize::MAX,
            old(self).accepted() == 0 <==> old(self).first() is None,
        ensures
            r is Ok <==> record_consistent(
                old(self).accepted() as int,
                old(self).reference(meta),
                meta,
            ),
            r is Ok ==> final(self).accepted() == old(self).accepted() + 1 && final(self).first()
                == Some(old(self).reference(meta)) && final(self).merged() == old(self).merged(),
            r is Err ==> r == Err::<(), CokacencError>(CokacencError::MetadataInconsistency)
                && final(self).accepted() == old(self).accepted() && final(self).first() == old(
                self,
            ).first() && final(self).merged() == old(self).merged(),
            final(self).accepted() == 0 <==> final(self).first() is None,
    {
        let checked = match &self.first {
            Some(f) => check_chunk_metadata(self.accepted, f, &meta),
            None => check_chunk_metadata(self.accepted, &meta, &meta),
        };
        match checked {
            Ok(()) => {
                if self.first.is_none() {
                    self.first = Some(meta);
                }
                self.accepted = self.accepted + 1;
                Ok(())
            },
            Err(e) => Err(e),
        }
    }

    /// Ends the merge: the first record, once the content hash of the merged
    /// data and the merged size pass against it.
    pub fn finish(self, actual_size: u64) -> (r: Result<ChunkMetadata, CokacencError>)
        ensures
            self.first() is None ==> r == Err::<ChunkMetadata, CokacencError>(
                CokacencError::NoEncFiles,
            ),
            self.first() is Some ==> {
                let f = self.first()->Some_0;
                let h = hex_of(md5_of(self.merged()));
                let declared_ok = f.file_md5@.len() == 0 || f.file_md5@ == h;
                &&& !declared_ok ==> r is Err && r->Err_0 is HashMismatch
                    && r->Err_0->HashMismatch_0@ == f.file_md5@ && r->Err_0->HashMismatch_1@ == h
                &&& declared_ok && f.file_size != actual_size ==> r == Err::<
                    ChunkMetadata,
                    CokacencError,
                >(CokacencError::SizeMismatch(f.file_size, actual_size))
                &&& declared_ok && f.file_size == actual_size ==> r == Ok::<
                    ChunkMetadata,
                    CokacencError,
                >(f)
            },
            r is Ok && r->Ok_0.file_md5@.len() > 0 ==> r->Ok_0.file_md5@ == hex_of(
                md5_of(self.merged()),
            ),
    {
        match self.first {
            None => Err(CokacencError::NoEncFiles),
            Some(f) => {
                let actual = self.hasher.finish();
                match verify_merged(&f.file_md5, &actual, f.file_size, actual_size) {
                    Ok(()) => Ok(f),
                    Err(e) => Err(e),
                }
            },
        }
    }
}

} // verus!

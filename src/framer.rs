use vstd::prelude::*;

use crate::bytes::{append_range, le_u32_value, read_le_u32};
use crate::error::CokacencError;

verus! {

/// The length that a plaintext declares for its metadata record.
pub open spec fn declared_len(s: Seq<u8>) -> int {
    le_u32_value(s)
}

/// Whether the length prefix and the whole metadata record are in `s`.
pub open spec fn metadata_complete(s: Seq<u8>) -> bool {
    s.len() >= 4 && s.len() >= 4 + declared_len(s)
}

/// The metadata record of a plaintext whose record is complete.
pub open spec fn metadata_part(s: Seq<u8>) -> Seq<u8> {
    s.subrange(4, 4 + declared_len(s))
}

/// The file data of a plaintext: what follows a complete record, else nothing.
pub open spec fn data_part(s: Seq<u8>) -> Seq<u8> {
    if metadata_complete(s) {
        s.subrange(4 + declared_len(s), s.len() as int)
    } else {
        Seq::empty()
    }
}

/// The phase of the demultiplexer.
#[derive(Debug, Clone, Copy, PartialEq, Eq)]
pub enum SplitState {
    ReadingLen,
    ReadingMeta,
    Data,
}

/// Splits a plaintext, fed in spans of any size, into its metadata record
/// and the file data that follows it.
pub struct MetadataSplitWriter {
    state: SplitState,
    len_buf: Vec<u8>,
    meta_buf: Vec<u8>,
    meta_len: usize,
    consumed: Ghost<Seq<u8>>,
}

impl MetadataSplitWriter {
    /// All bytes fed so far.
    pub closed spec fn consumed(&self) -> Seq<u8> {
        self.consumed@
    }

    pub closed spec fn wf(&self) -> bool {
        let s = self.consumed@;
        match self.state {
            SplitState::ReadingLen => s.len() < 4 && self.len_buf@ == s,
            SplitState::ReadingMeta => {
                &&& s.len() >= 4
                &&& self.meta_len == declared_len(s)
                &&& s.len() < 4 + declared_len(s)
                &&& self.meta_buf@ == s.subrange(4, s.len() as int)
            },
            SplitState::Data => {
                &&& metadata_complete(s)
                &&& self.meta_buf@ == metadata_part(s)
            },
        }
    }

    /// A demultiplexer that has been fed nothing.
    pub fn new() -> (r: Self)
        ensures
            r.wf(),
            r.consumed() == Seq::<u8>::empty(),
    {
        MetadataSplitWriter {
            state: SplitState::ReadingLen,
            len_buf: Vec::new(),
            meta_buf: Vec::new(),
            meta_len: 0,
            consumed: Ghost(Seq::empty()),
        }
    }

    /// What one step of the automaton owes: it consumes `buf[pos..np]` and
    /// forwards the file data that those bytes complete.
    pub open spec fn step_post(
        pre: Self,
        post: Self,
        buf: Seq<u8>,
        pos: int,
        np: int,
        sink0: Seq<u8>,
        sink1: Seq<u8>,
    ) -> bool {
        &&& post.wf()
        &&& pos < np <= buf.len()
        &&& post.consumed() == pre.consumed() + buf.subrange(pos, np)
        &&& data_part(pre.consumed()).len() <= data_part(post.consumed()).len()
        &&& sink1 == sink0 + data_part(post.consumed()).subrange(
            data_part(pre.consumed()).len() as int,
            data_part(post.consumed()).len() as int,
        )
    }

    fn step_len(&mut self, buf: &[u8], pos: usize, sink: &Vec<u8>) -> (np: usize)
        requires
            old(self).wf(),
            old(self).state == SplitState::ReadingLen,
            pos < buf@.len(),
        ensures
            Self::step_post(*old(self), *final(self), buf@, pos as int, np as int, sink@, sink@),
    {
        let ghost before = self.consumed@;
        let need = 4 - self.len_buf.len();
        let take = if need < buf.len() - pos {
            need
        } else {
            buf.len() - pos
        };
        append_range(&mut self.len_buf, buf, pos, pos + take);
        let np = pos + take;
        self.consumed = Ghost(before + buf@.subrange(pos as int, np as int));
        assert(self.len_buf@ =~= self.consumed@);
        if self.len_buf.len() == 4 {
            let l = read_le_u32(self.len_buf.as_slice(), 0);
            assert(self.len_buf@.subrange(0, 4) =~= self.len_buf@);
            self.meta_len = l as usize;
            self.meta_buf = Vec::new();
            if self.meta_len == 0 {
                self.state = SplitState::Data;
                assert(metadata_part(self.consumed@) =~= self.meta_buf@);
            } else {
                self.state = SplitState::ReadingMeta;
                assert(self.consumed@.subrange(4, 4) =~= self.meta_buf@);
            }
        }
        assert(data_part(self.consumed@) =~= Seq::<u8>::empty());
        assert(sink@ =~= sink@ + data_part(self.consumed@).subrange(
            data_part(before).len() as int,
            data_part(self.consumed@).len() as int,
        ));
        np
    }

    fn step_meta(&mut self, buf: &[u8], pos: usize, sink: &Vec<u8>) -> (np: usize)
        requires
            old(self).wf(),
            old(self).state == SplitState::ReadingMeta,
            pos < buf@.len(),
        ensures
            Self::step_post(*old(self), *final(self), buf@, pos as int, np as int, sink@, sink@),
    {
        let ghost before = self.consumed@;
        let need = self.meta_len - self.meta_buf.len();
        let take = if need < buf.len() - pos {
            need
        } else {
            buf.len() - pos
        };
        append_range(&mut self.meta_buf, buf, pos, pos + take);
        let np = pos + take;
        self.consumed = Ghost(before + buf@.subrange(pos as int, np as int));
        assert(self.consumed@.subrange(0, 4) =~= before.subrange(0, 4));
        assert(self.meta_buf@ =~= self.consumed@.subrange(4, self.consumed@.len() as int));
        assert(declared_len(self.consumed@) == declared_len(before));
        if self.meta_buf.len() == self.meta_len {
            self.state = SplitState::Data;
            assert(self.meta_buf@ =~= metadata_part(self.consumed@));
        }
        assert(data_part(self.consumed@) =~= Seq::<u8>::empty());
        assert(sink@ =~= sink@ + data_part(self.consumed@).subrange(
            data_part(before).len() as int,
            data_part(self.consumed@).len() as int,
        ));
        np
    }

    fn step_data(&mut self, buf: &[u8], pos: usize, sink: &mut Vec<u8>) -> (np: usize)
        requires
            old(self).wf(),
            old(self).state == SplitState::Data,
            pos < buf@.len(),
        ensures
            Self::step_post(*old(self), *final(self), buf@, pos as int, np as int, old(sink)@, final(sink)@),
    {
        let ghost before = self.consumed@;
        append_range(sink, buf, pos, buf.len());
        let np = buf.len();
        self.consumed = Ghost(before + buf@.subrange(pos as int, np as int));
        let ghost c = self.consumed@;
        assert(c.subrange(0, 4) =~= before.subrange(0, 4));
        assert(declared_len(c) == declared_len(before));
        assert(metadata_part(c) =~= metadata_part(before));
        assert(data_part(c) =~= data_part(before) + buf@.subrange(pos as int, np as int));
        assert(sink@ =~= old(sink)@ + data_part(c).subrange(
            data_part(before).len() as int,
            data_part(c).len() as int,
        ));
        np
    }

    /// Feeds `buf`; the file data that it completes is appended to `sink`.
    pub fn write(&mut self, buf: &[u8], sink: &mut Vec<u8>)
        requires
            old(self).wf(),
        ensures
            final(self).wf(),
            final(self).consumed() == old(self).consumed() + buf@,
            final(sink)@ == old(sink)@ + data_part(final(self).consumed()).subrange(
                data_part(old(self).consumed()).len() as int,
                data_part(final(self).consumed()).len() as int,
            ),
    {
        let total = buf.len();
        let mut pos: usize = 0;
        let ghost s0 = self.consumed@;
        let ghost sink0 = sink@;
        while pos < total
            invariant
                0 <= pos <= total == buf@.len(),
                self.wf(),
                self.consumed@ == s0 + buf@.subrange(0, pos as int),
                data_part(s0).len() <= data_part(self.consumed@).len(),
                sink@ == sink0 + data_part(self.consumed@).subrange(
                    data_part(s0).len() as int,
                    data_part(self.consumed@).len() as int,
                ),
            decreases total - pos,
        {
            let ghost pre = *self;
            let ghost sink_pre = sink@;
            let np = match self.state {
                SplitState::ReadingLen => self.step_len(buf, pos, sink),
                SplitState::ReadingMeta => self.step_meta(buf, pos, sink),
                SplitState::Data => self.step_data(buf, pos, sink),
            };
            assert(self.consumed@ =~= s0 + buf@.subrange(0, np as int));
            let ghost d0 = data_part(s0);
            let ghost d1 = data_part(pre.consumed@);
            let ghost d2 = data_part(self.consumed@);
            assert(d2.subrange(0, d1.len() as int) == d1);
            assert(sink@ =~= sink0 + d2.subrange(d0.len() as int, d2.len() as int));
            pos = np;
        }
        assert(buf@.subrange(0, total as int) =~= buf@);
    }

    /// The metadata record, once the whole record has been fed.
    pub fn take_metadata_bytes(self) -> (r: Result<Vec<u8>, CokacencError>)
        requires
            self.wf(),
        ensures
            metadata_complete(self.consumed()) ==> r is Ok && r->Ok_0@ == metadata_part(
                self.consumed(),
            ),
            !metadata_complete(self.consumed()) ==> r == Err::<Vec<u8>, CokacencError>(
                CokacencError::IncompleteMetadata,
            ),
    {
        match self.state {
            SplitState::Data => Ok(self.meta_buf),
            _ => Err(CokacencError::IncompleteMetadata),
        }
    }
}

} // verus!

//! Per-connection record reader: a growable byte buffer with an explicit
//! consumed index, fed by whatever the stream delivers, decoded record by
//! record.
//!
//! The reader never performs I/O.  The caller reads the stream, hands every
//! delivery to `push`, and asks `next_record` for the next whole record;
//! `NeedMoreBytes` means the window holds no whole record yet and nothing
//! was consumed.  Because a settled decode never changes when more bytes
//! arrive (`lemma_spec_decode_extend`), the records that come out depend
//! only on the concatenation of the deliveries, never on how the stream
//! split them — single bytes at a time included.

use vstd::prelude::*;

use crate::fastcgi::{spec_decode, FastCGI, ReadStatus, StatusModel};

verus! {

/// The buffered prefix of one connection's byte stream.
pub struct RecordReader {
    buf: Vec<u8>,
    consumed: usize,
}

impl RecordReader {
    /// The bytes delivered and not yet consumed, in arrival order.
    pub closed spec fn window(&self) -> Seq<u8> {
        self.buf@.skip(self.consumed as int)
    }

    /// The consumed index never passes the filled end.
    pub closed spec fn wf(&self) -> bool {
        self.consumed <= self.buf@.len()
    }

    pub fn new() -> (r: RecordReader)
        ensures
            r.wf(),
            r.window() == Seq::<u8>::empty(),
    {
        let r = RecordReader { buf: Vec::new(), consumed: 0 };
        assert(r.window() =~= Seq::<u8>::empty());
        r
    }

    /// Takes one delivery from the stream into the window.
    pub fn push(&mut self, chunk: &[u8])
        requires
            old(self).wf(),
        ensures
            final(self).wf(),
            final(self).window() == old(self).window() + chunk@,
    {
        self.buf.extend_from_slice(chunk);
        assert(self.buf@.skip(self.consumed as int) =~= old(self).window() + chunk@);
    }

    /// Moves the unconsumed bytes to the buffer's head, freeing the space
    /// of everything already consumed.
    pub fn compact(&mut self)
        requires
            old(self).wf(),
        ensures
            final(self).wf(),
            final(self).window() == old(self).window(),
    {
        let tail = self.buf.split_off(self.consumed);
        self.buf = tail;
        self.consumed = 0;
        assert(self.buf@.skip(0) =~= self.buf@);
    }

    /// Decodes the record standing at the window's head, consuming its
    /// bytes; a window without a whole record, or one holding a protocol
    /// violation, consumes nothing.
    pub fn next_record(&mut self) -> (r: ReadStatus)
        requires
            old(self).wf(),
        ensures
            final(self).wf(),
            r@ == spec_decode(old(self).window()),
            match r@ {
                StatusModel::Decoded(_, n) => final(self).window() == old(self).window().skip(n),
                _ => final(self).window() == old(self).window(),
            },
    {
        let r = FastCGI::read(self.buf.as_slice(), self.consumed);
        match r {
            ReadStatus::Decoded(rec, n) => {
                let filled = self.buf.len();
                proof {
                    lemma_spec_decode_len(old(self).window());
                    assert(self.consumed + n <= filled);
                }
                self.consumed = self.consumed + n;
                assert(self.buf@.skip(self.consumed as int) =~= old(self).window().skip(n as int));
                ReadStatus::Decoded(rec, n)
            },
            other => other,
        }
    }
}

/// A decoded record covers at least its header and no more than the window.
proof fn lemma_spec_decode_len(s: Seq<u8>)
    ensures
        match spec_decode(s) {
            StatusModel::Decoded(_, n) => 8 <= n <= s.len(),
            _ => true,
        },
{
}

} // verus!

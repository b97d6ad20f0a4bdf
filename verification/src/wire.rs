//! Reading from the bytes that a connection has delivered: one line at a
//! time, or a block of a given length.

use vstd::prelude::*;
use crate::bytes::{find, first_occurrence, lemma_first_occurrence, text_bytes, CR, LF};

verus! {

/// Why no request could be read from a connection.
#[derive(Debug, Clone, Copy, PartialEq, Eq, Structural)]
pub enum ConnectionError {
    /// The bytes end before the line or the block that was asked for does.
    UnexpectedEof,
    /// The request line does not consist of a method, a target and a version.
    MalformedRequestLine,
}

/// The line terminator: a carriage return and a line feed.
pub open spec fn crlf() -> Seq<u8> {
    seq![CR, LF]
}

/// Where the line that starts at `from` ends: the index of its terminator.
pub open spec fn line_end(buf: Seq<u8>, from: int) -> Option<int> {
    first_occurrence(buf, crlf(), from)
}

/// A line ends at or after its start, and its terminator lies in the buffer.
pub proof fn lemma_line_end(buf: Seq<u8>, from: int)
    requires
        0 <= from,
    ensures
        line_end(buf, from) matches Some(end) ==> {
            &&& from <= end
            &&& end + 2 <= buf.len()
            &&& buf[end] == CR
            &&& buf[end + 1] == LF
            &&& forall|j: int| from <= j < end ==> !(#[trigger] buf[j] == CR && buf[j + 1] == LF)
        },
{
    lemma_first_occurrence(buf, crlf(), from);
    if let Some(end) = line_end(buf, from) {
        assert(buf.subrange(end, end + 2)[0] == CR);
        assert(buf.subrange(end, end + 2)[1] == LF);
        assert forall|j: int| from <= j < end implies !(#[trigger] buf[j] == CR && buf[j + 1]
            == LF) by {
            if buf[j] == CR && buf[j + 1] == LF {
                assert(buf.subrange(j, j + 2) =~= crlf());
                assert(crate::bytes::occurs_at(buf, crlf(), j));
            }
        }
    }
}

/// A line without a carriage return ends at the terminator behind it.
pub proof fn lemma_line_end_here(buf: Seq<u8>, from: int, end: int)
    requires
        0 <= from <= end,
        end + 2 <= buf.len(),
        buf[end] == CR,
        buf[end + 1] == LF,
        forall|j: int| from <= j < end ==> #[trigger] buf[j] != CR,
    ensures
        line_end(buf, from) == Some(end),
{
    lemma_first_occurrence(buf, crlf(), from);
    assert(buf.subrange(end, end + 2) =~= crlf());
    assert(crate::bytes::occurs_at(buf, crlf(), end));
    if let Some(at) = line_end(buf, from) {
        if at < end {
            assert(buf.subrange(at, at + 2)[0] == CR);
        }
    }
}

/// The bytes of the line terminator.
fn crlf_bytes() -> (bytes: &'static [u8])
    ensures
        bytes@ == crlf(),
{
    let s = "\r\n";
    proof {
        reveal_strlit("\r\n");
        vstd::string::is_ascii_spec_bytes(s);
    }
    let bytes = text_bytes(s);
    assert(bytes@ =~= crlf());
    bytes
}

/// A position in the bytes received so far.
pub struct WireReader<'a> {
    buf: &'a [u8],
    pos: usize,
}

impl<'a> WireReader<'a> {
    #[verifier::type_invariant]
    spec fn in_bounds(self) -> bool {
        self.pos <= self.buf@.len()
    }

    /// The bytes received.
    pub closed spec fn buffer(&self) -> Seq<u8> {
        self.buf@
    }

    /// How many of them have been read.
    pub closed spec fn offset(&self) -> int {
        self.pos as int
    }

    /// A reader at the start of `buf`.
    pub fn new(buf: &'a [u8]) -> (reader: WireReader<'a>)
        ensures
            reader.buffer() == buf@,
            reader.offset() == 0,
    {
        WireReader { buf, pos: 0 }
    }

    /// The number of bytes read so far.
    pub fn position(&self) -> (pos: usize)
        ensures
            pos == self.offset(),
            pos <= self.buffer().len(),
    {
        proof {
            use_type_invariant(self);
        }
        self.pos
    }

    /// Reads one line and steps over its terminator, which is not part of
    /// the line. Where the bytes hold no terminator after the current
    /// position, nothing is read.
    pub fn read_line(&mut self) -> (line: Result<&'a [u8], ConnectionError>)
        ensures
            final(self).buffer() == old(self).buffer(),
            match line {
                Ok(bytes) => {
                    &&& line_end(old(self).buffer(), old(self).offset()) matches Some(end)
                    &&& bytes@ == old(self).buffer().subrange(old(self).offset(), end)
                    &&& final(self).offset() == end + 2
                },
                Err(error) => {
                    &&& error == ConnectionError::UnexpectedEof
                    &&& line_end(old(self).buffer(), old(self).offset()) is None
                    &&& final(self).offset() == old(self).offset()
                },
            },
    {
        proof {
            use_type_invariant(&*self);
            lemma_line_end(self.buf@, self.pos as int);
        }
        let n = self.buf.len();
        match find(self.buf, crlf_bytes(), self.pos) {
            Some(end) => {
                assert(end + 2 <= n);
                let bytes = vstd::slice::slice_subrange(self.buf, self.pos, end);
                self.pos = end + 2;
                Ok(bytes)
            },
            None => Err(ConnectionError::UnexpectedEof),
        }
    }

    /// Reads the next `n` bytes. Where fewer are left, nothing is read.
    pub fn read_exact(&mut self, n: usize) -> (block: Result<&'a [u8], ConnectionError>)
        ensures
            final(self).buffer() == old(self).buffer(),
            match block {
                Ok(bytes) => {
                    &&& old(self).offset() + n <= old(self).buffer().len()
                    &&& bytes@ == old(self).buffer().subrange(
                        old(self).offset(),
                        old(self).offset() + n,
                    )
                    &&& final(self).offset() == old(self).offset() + n
                },
                Err(error) => {
                    &&& error == ConnectionError::UnexpectedEof
                    &&& old(self).offset() + n > old(self).buffer().len()
                    &&& final(self).offset() == old(self).offset()
                },
            },
    {
        proof {
            use_type_invariant(&*self);
        }
        if n <= self.buf.len() - self.pos {
            let end = self.pos + n;
            let bytes = vstd::slice::slice_subrange(self.buf, self.pos, end);
            self.pos = end;
            Ok(bytes)
        } else {
            Err(ConnectionError::UnexpectedEof)
        }
    }

    /// Goes back to an earlier position.
    pub(crate) fn rewind(&mut self, pos: usize)
        requires
            pos <= old(self).offset(),
        ensures
            final(self).buffer() == old(self).buffer(),
            final(self).offset() == pos,
    {
        proof {
            use_type_invariant(&*self);
        }
        self.pos = pos;
    }
}

} // verus!

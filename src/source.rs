//! The byte sources that the detector and the tokenizer read from.
use vstd::prelude::*;

verus! {

/// `std::io::Error` is carried through the library unchanged: a failed read of a
/// source is handed to the consumer as it came.
#[verifier::external_type_specification]
#[verifier::external_body]
pub struct ExIoError(std::io::Error);

/// What one read of a single byte gives.
pub enum ReadOutcome {
    /// The next byte of the stream.
    Byte(u8),
    /// The stream has no more bytes.
    End,
    /// The underlying read failed.
    Failed(std::io::Error),
}

/// A readable and seekable source of octets.
///
/// `data` is the stream's content and `pos` the read position. A verified source
/// defines both; the defaults describe nothing, and a source that keeps them
/// cannot meet the contracts of `read_byte` and `seek_to`. A read may always fail;
/// when it succeeds it gives the byte at the position, or the end of the stream.
pub trait ByteSource {
    open spec fn data(&self) -> Seq<u8> {
        Seq::empty()
    }

    open spec fn pos(&self) -> int {
        0
    }

    /// Reads the byte at the current position and advances past it.
    fn read_byte(&mut self) -> (r: ReadOutcome)
        ensures
            final(self).data() == old(self).data(),
            r matches ReadOutcome::Byte(b) ==> 0 <= old(self).pos() < old(self).data().len() && b
                == old(self).data()[old(self).pos()] && final(self).pos() == old(self).pos() + 1,
            r is End ==> old(self).pos() >= old(self).data().len() && final(self).pos() == old(
                self,
            ).pos(),
    ;

    /// Moves the read position to `offset` bytes from the start.
    fn seek_to(&mut self, offset: u64) -> (r: Result<(), std::io::Error>)
        ensures
            final(self).data() == old(self).data(),
            r is Ok ==> final(self).pos() == offset,
    ;
}

/// A byte source over bytes held in memory.
pub struct MemorySource {
    data: Vec<u8>,
    pos: u64,
}

impl MemorySource {
    /// A source positioned at the start of `data`.
    pub fn new(data: Vec<u8>) -> (r: MemorySource)
        ensures
            r.data() == data@,
            r.pos() == 0,
    {
        MemorySource { data, pos: 0 }
    }
}

impl ByteSource for MemorySource {
    closed spec fn data(&self) -> Seq<u8> {
        self.data@
    }

    closed spec fn pos(&self) -> int {
        self.pos as int
    }

    fn read_byte(&mut self) -> (r: ReadOutcome)
        ensures
            old(self).pos() < old(self).data().len() ==> r == ReadOutcome::Byte(
                old(self).data()[old(self).pos()],
            ) && final(self).pos() == old(self).pos() + 1,
            old(self).pos() >= old(self).data().len() ==> r is End && final(self).pos() == old(
                self,
            ).pos(),
            final(self).data() == old(self).data(),
    {
        if self.pos < self.data.len() as u64 {
            let b = self.data[self.pos as usize];
            self.pos = self.pos + 1;
            ReadOutcome::Byte(b)
        } else {
            ReadOutcome::End
        }
    }

    fn seek_to(&mut self, offset: u64) -> (r: Result<(), std::io::Error>)
        ensures
            r is Ok,
            final(self).pos() == offset,
            final(self).data() == old(self).data(),
    {
        self.pos = offset;
        Ok(())
    }
}

} // verus!

//! Delimiter detection from the fixed-layout `ISA` segment.
use vstd::prelude::*;
use crate::segments::is_segment_starter;
use crate::segments::segment_starter;
use crate::source::ByteSource;
use crate::source::ReadOutcome;

verus! {

/// Element delimiters in an `ISA` segment, the one at offset 3 included.
pub const ISA_ELEMENT_DELIMITERS: u8 = 16;

/// Bytes after the element delimiter that may be read while counting the
/// delimiters of `ISA` before the stream is taken to be too short.
pub const MAX_ISA_READS: u8 = 212;

/// Offset of the element delimiter: just past the tag `ISA`.
pub const ELEMENT_DELIMITER_OFFSET: u64 = 3;

/// The delimiters one document uses.
pub struct Delimiters {
    pub element_delimiter: Vec<u8>,
    pub segment_delimiter: Vec<u8>,
}

impl Delimiters {
    /// One element delimiter byte, and a segment delimiter of one or more bytes
    /// none of which is a letter.
    pub open spec fn wf(&self) -> bool {
        &&& self.element_delimiter@.len() == 1
        &&& self.segment_delimiter@.len() > 0
        &&& forall|i: int|
            0 <= i < self.segment_delimiter@.len() ==> !is_segment_starter(
                #[trigger] self.segment_delimiter@[i],
            )
    }
}

/// Why no delimiters were found.
pub enum DetectError {
    /// The stream ended before the delimiters could be read.
    UnexpectedEof,
    /// Reading or seeking the source failed.
    Io(std::io::Error),
}

impl DetectError {
    pub fn is_unexpected_eof(&self) -> (r: bool)
        ensures
            r == (self is UnexpectedEof),
    {
        match self {
            DetectError::UnexpectedEof => true,
            DetectError::Io(_) => false,
        }
    }
}

pub enum DelimiterResult {
    DelimiterReadError(DetectError),
    DelimitersFound(Delimiters),
}

/// Where the delimiter scan stands.
#[derive(PartialEq, Eq, Structural)]
pub enum ScanPhase {
    /// Waiting for the element delimiter, the byte at offset 3.
    Element,
    /// Counting the element delimiters of `ISA`.
    Counting,
    /// Waiting for the data byte of the last `ISA` element.
    LastElement,
    /// Waiting for the first byte of the segment delimiter.
    Terminator,
    /// Collecting the segment delimiter until a letter starts the next segment.
    Accumulating,
    /// Both delimiters are known.
    Found,
    /// The stream cannot hold the delimiters.
    TooShort,
}

/// The scan's state: the bytes it reads are those from offset 3 on.
pub struct DelimiterScan {
    pub phase: ScanPhase,
    pub element: u8,
    pub count: u8,
    pub reads: u8,
    pub segment: Vec<u8>,
}

pub struct ScanView {
    pub phase: ScanPhase,
    pub element: u8,
    pub count: int,
    pub reads: int,
    pub segment: Seq<u8>,
}

impl View for DelimiterScan {
    type V = ScanView;

    open spec fn view(&self) -> ScanView {
        ScanView {
            phase: self.phase,
            element: self.element,
            count: self.count as int,
            reads: self.reads as int,
            segment: self.segment@,
        }
    }
}

pub open spec fn scan_start() -> ScanView {
    ScanView { phase: ScanPhase::Element, element: 0, count: 0, reads: 0, segment: Seq::empty() }
}

/// The scan's move on the next byte.
pub open spec fn scan_byte(st: ScanView, b: u8) -> ScanView {
    match st.phase {
        ScanPhase::Element => ScanView {
            phase: ScanPhase::Counting,
            element: b,
            count: 1,
            reads: 0,
            ..st
        },
        ScanPhase::Counting => {
            let count = if b == st.element {
                st.count + 1
            } else {
                st.count
            };
            let reads = st.reads + 1;
            ScanView {
                phase: if count >= ISA_ELEMENT_DELIMITERS {
                    ScanPhase::LastElement
                } else if reads > MAX_ISA_READS {
                    ScanPhase::TooShort
                } else {
                    ScanPhase::Counting
                },
                count,
                reads,
                ..st
            }
        },
        ScanPhase::LastElement => ScanView { phase: ScanPhase::Terminator, ..st },
        ScanPhase::Terminator => if is_segment_starter(b) {
            ScanView { phase: ScanPhase::TooShort, ..st }
        } else {
            ScanView { phase: ScanPhase::Accumulating, segment: seq![b], ..st }
        },
        ScanPhase::Accumulating => if is_segment_starter(b) {
            ScanView { phase: ScanPhase::Found, ..st }
        } else {
            ScanView { segment: st.segment.push(b), ..st }
        },
        _ => st,
    }
}

/// The scan's move at end of stream: a segment delimiter being collected is
/// complete; anything earlier is too short.
pub open spec fn scan_end(st: ScanView) -> ScanView {
    match st.phase {
        ScanPhase::Accumulating => ScanView { phase: ScanPhase::Found, ..st },
        ScanPhase::Found => st,
        _ => ScanView { phase: ScanPhase::TooShort, ..st },
    }
}

/// The scan after reading the bytes `s` from offset 3 on.
pub open spec fn scan_all(s: Seq<u8>) -> ScanView
    decreases s.len(),
{
    if s.len() == 0 {
        scan_start()
    } else {
        scan_byte(scan_all(s.drop_last()), s.last())
    }
}

/// The scan after reading `s`, and then the end of stream if `ended`.
pub open spec fn scan_outcome(s: Seq<u8>, ended: bool) -> ScanView {
    if ended {
        scan_end(scan_all(s))
    } else {
        scan_all(s)
    }
}

pub open spec fn scan_inv(st: ScanView) -> bool {
    &&& st.count <= ISA_ELEMENT_DELIMITERS
    &&& st.reads <= MAX_ISA_READS + 1
    &&& st.phase == ScanPhase::Counting ==> st.count < ISA_ELEMENT_DELIMITERS && st.reads
        <= MAX_ISA_READS
    &&& (st.phase == ScanPhase::Accumulating || st.phase == ScanPhase::Found) ==> {
        &&& st.segment.len() > 0
        &&& forall|i: int| 0 <= i < st.segment.len() ==> !is_segment_starter(#[trigger] st.segment[i])
    }
}

pub proof fn lemma_scan_inv(st: ScanView, b: u8)
    requires
        scan_inv(st),
    ensures
        scan_inv(scan_byte(st, b)),
        scan_inv(scan_end(st)),
{
    let n = scan_byte(st, b);
    if st.phase == ScanPhase::Terminator && !is_segment_starter(b) {
        assert(n.segment[0] == b);
    }
    if st.phase == ScanPhase::Accumulating && !is_segment_starter(b) {
        assert forall|i: int| 0 <= i < n.segment.len() implies !is_segment_starter(
            #[trigger] n.segment[i],
        ) by {
            if i < st.segment.len() {
                assert(n.segment[i] == st.segment[i]);
            }
        }
    }
}

impl DelimiterScan {
    pub fn new() -> (r: DelimiterScan)
        ensures
            r@ == scan_start(),
    {
        let r = DelimiterScan {
            phase: ScanPhase::Element,
            element: 0,
            count: 0,
            reads: 0,
            segment: Vec::new(),
        };
        assert(r@.segment =~= Seq::empty());
        r
    }

    /// Moves the scan on the next byte of the stream.
    pub fn feed(&mut self, b: u8)
        requires
            scan_inv(old(self)@),
        ensures
            final(self)@ == scan_byte(old(self)@, b),
    {
        match self.phase {
            ScanPhase::Element => {
                self.phase = ScanPhase::Counting;
                self.element = b;
                self.count = 1;
                self.reads = 0;
            },
            ScanPhase::Counting => {
                if b == self.element {
                    self.count = self.count + 1;
                }
                self.reads = self.reads + 1;
                if self.count >= ISA_ELEMENT_DELIMITERS {
                    self.phase = ScanPhase::LastElement;
                } else if self.reads > MAX_ISA_READS {
                    self.phase = ScanPhase::TooShort;
                }
            },
            ScanPhase::LastElement => {
                self.phase = ScanPhase::Terminator;
            },
            ScanPhase::Terminator => {
                if segment_starter(b) {
                    self.phase = ScanPhase::TooShort;
                } else {
                    self.phase = ScanPhase::Accumulating;
                    self.segment = Vec::new();
                    self.segment.push(b);
                    assert(self@.segment =~= seq![b]);
                }
            },
            ScanPhase::Accumulating => {
                if segment_starter(b) {
                    self.phase = ScanPhase::Found;
                } else {
                    self.segment.push(b);
                }
            },
            _ => {},
        }
    }

    /// Moves the scan on the end of the stream.
    pub fn finish(&mut self)
        ensures
            final(self)@ == scan_end(old(self)@),
    {
        match self.phase {
            ScanPhase::Accumulating => {
                self.phase = ScanPhase::Found;
            },
            ScanPhase::Found => {},
            _ => {
                self.phase = ScanPhase::TooShort;
            },
        }
    }

    /// Whether the scan has come to a result.
    pub fn is_settled(&self) -> (r: bool)
        ensures
            r == (self@.phase == ScanPhase::Found || self@.phase == ScanPhase::TooShort),
    {
        self.phase == ScanPhase::Found || self.phase == ScanPhase::TooShort
    }
}

/// The scan of a whole stream held in memory: every byte from offset 3 on, then
/// the end of stream. The result is `Found` or `TooShort`.
pub open spec fn delimiter_scan(data: Seq<u8>) -> ScanView {
    if data.len() <= ELEMENT_DELIMITER_OFFSET {
        scan_end(scan_start())
    } else {
        scan_end(scan_all(data.subrange(ELEMENT_DELIMITER_OFFSET as int, data.len() as int)))
    }
}

pub open spec fn is_settled(st: ScanView) -> bool {
    st.phase == ScanPhase::Found || st.phase == ScanPhase::TooShort
}

/// Once the scan has come to a result, further bytes and the end of the stream
/// leave it as it is.
pub proof fn lemma_scan_settled(s: Seq<u8>, rest: Seq<u8>)
    requires
        is_settled(scan_all(s)),
    ensures
        scan_all(s + rest) == scan_all(s),
        scan_end(scan_all(s + rest)) == scan_all(s),
    decreases rest.len(),
{
    if rest.len() == 0 {
        assert(s + rest =~= s);
    } else {
        assert((s + rest).drop_last() =~= s + rest.drop_last());
        assert((s + rest).last() == rest.last());
        lemma_scan_settled(s, rest.drop_last());
    }
}

/// Turns a settled scan into the result; on success the source is rewound.
fn settle<T: ByteSource>(scan: DelimiterScan, ioish: &mut T) -> (r: DelimiterResult)
    requires
        scan_inv(scan@),
        is_settled(scan@),
    ensures
        final(ioish).data() == old(ioish).data(),
        r matches DelimiterResult::DelimitersFound(d) ==> {
            &&& d.wf()
            &&& scan@.phase == ScanPhase::Found
            &&& d.element_delimiter@ == seq![scan@.element]
            &&& d.segment_delimiter@ == scan@.segment
            &&& final(ioish).pos() == 0
        },
        r matches DelimiterResult::DelimiterReadError(DetectError::UnexpectedEof) <==> scan@.phase
            == ScanPhase::TooShort,
{
    if scan.phase == ScanPhase::Found {
        match ioish.seek_to(0) {
            Ok(()) => {},
            Err(e) => return DelimiterResult::DelimiterReadError(DetectError::Io(e)),
        }
        let mut element_delimiter: Vec<u8> = Vec::new();
        element_delimiter.push(scan.element);
        assert(element_delimiter@ =~= seq![scan.element]);
        let d = Delimiters { element_delimiter, segment_delimiter: scan.segment };
        DelimiterResult::DelimitersFound(d)
    } else {
        DelimiterResult::DelimiterReadError(DetectError::UnexpectedEof)
    }
}

/// Infers the element and segment delimiters from the leading `ISA` segment and
/// rewinds the source to its start.
///
/// The element delimiter is the byte at offset 3. Sixteen of them end the last
/// element but one of `ISA`; if they do not all come within the element
/// delimiter and the 213 bytes after it, the stream is too short. After the data
/// byte of the last element, the segment delimiter is every byte up to the next
/// letter or the end of the stream; it must not be empty. Unless a read or seek
/// fails (`Io`, with the source's error), the result is what `delimiter_scan`
/// gives on the source's content, and found delimiters leave the source at
/// offset 0.
pub fn detect_delimiters<T: ByteSource>(ioish: &mut T) -> (r: DelimiterResult)
    ensures
        final(ioish).data() == old(ioish).data(),
        r matches DelimiterResult::DelimitersFound(d) ==> d.wf() && final(ioish).pos() == 0,
        old(ioish).data().len() < u64::MAX ==> {
            let v = delimiter_scan(old(ioish).data());
            &&& (r matches DelimiterResult::DelimitersFound(d) ==> v.phase == ScanPhase::Found
                && d.element_delimiter@ == seq![v.element] && d.segment_delimiter@ == v.segment)
            &&& (r matches DelimiterResult::DelimiterReadError(DetectError::UnexpectedEof)
                ==> v.phase == ScanPhase::TooShort)
            &&& (v.phase == ScanPhase::Found ==> r is DelimitersFound || r matches DelimiterResult::DelimiterReadError(DetectError::Io(_)))
            &&& (v.phase == ScanPhase::TooShort ==> r is DelimiterReadError)
        },
{
    let ghost data = ioish.data();
    match ioish.seek_to(ELEMENT_DELIMITER_OFFSET) {
        Ok(()) => {},
        Err(e) => return DelimiterResult::DelimiterReadError(DetectError::Io(e)),
    }
    let mut scan = DelimiterScan::new();
    let mut pos: u64 = ELEMENT_DELIMITER_OFFSET;
    let ghost mut read: Seq<u8> = Seq::empty();
    proof {
        if data.len() >= 3 {
            assert(read =~= data.subrange(3, 3));
        }
    }
    loop
        invariant
            scan@ == scan_all(read),
            scan_inv(scan@),
            ioish.data() == data,
            data == old(ioish).data(),
            ioish.pos() == pos,
            3 <= pos,
            data.len() >= 3 ==> pos <= data.len() && read == data.subrange(3, pos as int),
            data.len() < 3 ==> read.len() == 0,
        decreases u64::MAX - pos,
    {
        if scan.is_settled() {
            proof {
                if data.len() >= 3 {
                    let rest = data.subrange(pos as int, data.len() as int);
                    assert(data.subrange(3, data.len() as int) =~= read + rest);
                    lemma_scan_settled(read, rest);
                }
            }
            let r = settle(scan, ioish);
            return r;
        }
        if pos == u64::MAX {
            // Offsets end here: no further byte can be addressed.
            proof {
                lemma_scan_inv(scan@, 0);
            }
            scan.finish();
            let r = settle(scan, ioish);
            return r;
        }
        match ioish.read_byte() {
            ReadOutcome::Byte(b) => {
                proof {
                    lemma_scan_inv(scan@, b);
                    assert(read.push(b).drop_last() =~= read);
                    read = read.push(b);
                    assert(read =~= data.subrange(3, pos + 1));
                }
                scan.feed(b);
                pos = pos + 1;
            },
            ReadOutcome::End => {
                proof {
                    lemma_scan_inv(scan@, 0);
                    if data.len() >= 3 {
                        assert(read == data.subrange(3, data.len() as int));
                    } else {
                        assert(read =~= Seq::<u8>::empty());
                    }
                }
                scan.finish();
                let r = settle(scan, ioish);
                return r;
            },
            ReadOutcome::Failed(e) => {
                return DelimiterResult::DelimiterReadError(DetectError::Io(e));
            },
        }
    }
}

/// The element delimiter the scan holds, once it has read a byte, is the first
/// byte it read.
pub proof fn lemma_scan_element(s: Seq<u8>)
    requires
        s.len() > 0,
    ensures
        scan_all(s).element == s[0],
        scan_end(scan_all(s)).element == s[0],
        scan_all(s).phase != ScanPhase::Element,
    decreases s.len(),
{
    let prev = scan_all(s.drop_last());
    assert(scan_all(s) == scan_byte(prev, s.last()));
    if s.len() > 1 {
        lemma_scan_element(s.drop_last());
        assert(s.drop_last()[0] == s[0]);
        assert(prev.element == s[0]);
    } else {
        assert(s.drop_last() =~= Seq::<u8>::empty());
        assert(prev == scan_start());
        assert(s.last() == s[0]);
    }
}

/// Infers the delimiters of a stream held in memory, as `detect_delimiters` does
/// on a source over the same bytes.
pub fn detect_delimiters_in(data: &[u8]) -> (r: DelimiterResult)
    ensures
        delimiter_scan(data@).phase == ScanPhase::Found <==> r is DelimitersFound,
        r matches DelimiterResult::DelimitersFound(d) ==> d.wf() && d.element_delimiter@ == seq![
            delimiter_scan(data@).element,
        ] && d.segment_delimiter@ == delimiter_scan(data@).segment,
        r matches DelimiterResult::DelimitersFound(d) ==> data@.len() > 3
            && d.element_delimiter@ == seq![data@[3]],
        r matches DelimiterResult::DelimiterReadError(e) ==> e is UnexpectedEof,
{
    let mut scan = DelimiterScan::new();
    let mut i: usize = 3;
    if data.len() > 3 {
        while i < data.len()
            invariant
                3 <= i <= data.len(),
                scan@ == scan_all(data@.subrange(3, i as int)),
                scan_inv(scan@),
            decreases data.len() - i,
        {
            proof {
                lemma_scan_inv(scan@, data@[i as int]);
                assert(data@.subrange(3, i + 1).drop_last() =~= data@.subrange(3, i as int));
            }
            scan.feed(data[i]);
            i = i + 1;
        }
    }
    proof {
        lemma_scan_inv(scan@, 0);
    }
    scan.finish();
    if scan.phase == ScanPhase::Found {
        proof {
            if data.len() > 3 {
                lemma_scan_element(data@.subrange(3, data.len() as int));
            }
        }
        let mut element_delimiter: Vec<u8> = Vec::new();
        element_delimiter.push(scan.element);
        assert(element_delimiter@ =~= seq![scan.element]);
        DelimiterResult::DelimitersFound(
            Delimiters { element_delimiter, segment_delimiter: scan.segment },
        )
    } else {
        DelimiterResult::DelimiterReadError(DetectError::UnexpectedEof)
    }
}

} // verus!

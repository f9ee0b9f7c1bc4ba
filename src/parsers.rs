//! The envelope interpreter: drives a consumer with segment and envelope events.
use vstd::prelude::*;
use crate::delimiters::detect_delimiters;
use crate::delimiters::delimiter_scan;
use crate::delimiters::ScanPhase;
use crate::delimiters::DelimiterResult;
use crate::delimiters::DetectError;
use crate::segments::create_segment_iterator;
use crate::segments::ParserIterator;
use crate::segments::PState;
use crate::segments::Segment;
use crate::segments::SegmentView;
use crate::source::ByteSource;

verus! {

/// The view of a consumer's optional segment argument.
pub open spec fn opt_segment_view(segment: Option<&Segment>) -> Option<SegmentView> {
    match segment {
        Some(s) => Some(s@),
        None => None,
    }
}

/// The consumer surface the interpreter drives.
///
/// `calls` is the consumer's record of the calls it has received, in order; each
/// callback appends its own event to it. The interpreter's contracts are stated
/// over that record. A verified consumer defines `calls`; it cannot meet the
/// callbacks' contracts with the default, which records nothing.
pub trait StreamParser {
    open spec fn calls(&self) -> Seq<Event> {
        Seq::empty()
    }

    /// A property of the consumer's state that every callback keeps.
    open spec fn inv(&self) -> bool {
        true
    }

    /// Every segment, in stream order.
    fn segment(&mut self, segment: &Segment)
        ensures
            old(self).inv() ==> final(self).inv(),
            final(self).calls() == old(self).calls().push(Event::Segment(segment@)),
    ;

    fn interchange_start(&mut self, segment: &Segment)
        ensures
            old(self).inv() ==> final(self).inv(),
            final(self).calls() == old(self).calls().push(
                Event::Start(Envelope::Interchange, segment@),
            ),
    ;

    /// `None` when the close is synthesized.
    fn interchange_end(&mut self, segment: Option<&Segment>)
        ensures
            old(self).inv() ==> final(self).inv(),
            final(self).calls() == old(self).calls().push(
                Event::End(Envelope::Interchange, opt_segment_view(segment)),
            ),
    ;

    fn functional_group_start(&mut self, segment: &Segment)
        ensures
            old(self).inv() ==> final(self).inv(),
            final(self).calls() == old(self).calls().push(
                Event::Start(Envelope::FunctionalGroup, segment@),
            ),
    ;

    /// `None` when the close is synthesized.
    fn functional_group_end(&mut self, segment: Option<&Segment>)
        ensures
            old(self).inv() ==> final(self).inv(),
            final(self).calls() == old(self).calls().push(
                Event::End(Envelope::FunctionalGroup, opt_segment_view(segment)),
            ),
    ;

    fn transaction_start(&mut self, segment: &Segment)
        ensures
            old(self).inv() ==> final(self).inv(),
            final(self).calls() == old(self).calls().push(
                Event::Start(Envelope::Transaction, segment@),
            ),
    ;

    /// `None` when the close is synthesized.
    fn transaction_end(&mut self, segment: Option<&Segment>)
        ensures
            old(self).inv() ==> final(self).inv(),
            final(self).calls() == old(self).calls().push(
                Event::End(Envelope::Transaction, opt_segment_view(segment)),
            ),
    ;

    /// Called once, after the last segment and the synthesized closes.
    fn stream_end(&mut self)
        ensures
            old(self).inv() ==> final(self).inv(),
            final(self).calls() == old(self).calls().push(Event::StreamEnd),
    ;

    /// Called at most once, when the segment source fails; driving stops there.
    fn error(&mut self, error: std::io::Error)
        ensures
            old(self).inv() ==> final(self).inv(),
            final(self).calls() == old(self).calls().push(Event::Error),
    ;

    fn in_interchange(&self) -> bool;

    fn in_functional_group(&self) -> bool;

    fn in_transaction(&self) -> bool;
}

/// The interpreter's level. Being in a transaction implies being in a functional
/// group and in an interchange.
#[derive(PartialEq, Eq, Structural, Clone, Copy)]
pub enum Level {
    Nothing,
    InInterchange,
    InFunctionalGroup,
    InTransaction,
}

/// The three envelopes, outermost first.
#[derive(PartialEq, Eq, Structural, Clone, Copy)]
pub enum Envelope {
    Interchange,
    FunctionalGroup,
    Transaction,
}

/// The nesting depth of a level: 0 outside any interchange.
pub open spec fn level_depth(l: Level) -> int {
    match l {
        Level::Nothing => 0,
        Level::InInterchange => 1,
        Level::InFunctionalGroup => 2,
        Level::InTransaction => 3,
    }
}

/// The depth an envelope opens: 1 for an interchange.
pub open spec fn envelope_depth(e: Envelope) -> int {
    match e {
        Envelope::Interchange => 1,
        Envelope::FunctionalGroup => 2,
        Envelope::Transaction => 3,
    }
}

/// One call on the consumer.
pub enum Event {
    Segment(SegmentView),
    Start(Envelope, SegmentView),
    /// `None` for a synthesized close.
    End(Envelope, Option<SegmentView>),
    StreamEnd,
    Error,
}

/// The tags the interpreter acts on.
#[derive(PartialEq, Eq, Structural, Clone, Copy)]
pub enum TagKind {
    Isa,
    Iea,
    Gs,
    Ge,
    St,
    Se,
    Other,
}

pub open spec fn tag_kind(t: Seq<u8>) -> TagKind {
    // I = 73, S = 83, A = 65, E = 69, G = 71, T = 84
    if t == seq![73u8, 83u8, 65u8] {
        TagKind::Isa
    } else if t == seq![73u8, 69u8, 65u8] {
        TagKind::Iea
    } else if t == seq![71u8, 83u8] {
        TagKind::Gs
    } else if t == seq![71u8, 69u8] {
        TagKind::Ge
    } else if t == seq![83u8, 84u8] {
        TagKind::St
    } else if t == seq![83u8, 69u8] {
        TagKind::Se
    } else {
        TagKind::Other
    }
}

/// Recognizes the envelope tags `ISA`, `IEA`, `GS`, `GE`, `ST` and `SE`.
pub fn classify_tag(tag: &Vec<u8>) -> (k: TagKind)
    ensures
        k == tag_kind(tag@),
{
    if tag.len() == 3 && tag[0] == 73 && tag[1] == 83 && tag[2] == 65 {
        assert(tag@ =~= seq![73u8, 83u8, 65u8]);
        TagKind::Isa
    } else if tag.len() == 3 && tag[0] == 73 && tag[1] == 69 && tag[2] == 65 {
        assert(tag@ =~= seq![73u8, 69u8, 65u8]);
        TagKind::Iea
    } else if tag.len() == 2 && tag[0] == 71 && tag[1] == 83 {
        assert(tag@ =~= seq![71u8, 83u8]);
        TagKind::Gs
    } else if tag.len() == 2 && tag[0] == 71 && tag[1] == 69 {
        assert(tag@ =~= seq![71u8, 69u8]);
        TagKind::Ge
    } else if tag.len() == 2 && tag[0] == 83 && tag[1] == 84 {
        assert(tag@ =~= seq![83u8, 84u8]);
        TagKind::St
    } else if tag.len() == 2 && tag[0] == 83 && tag[1] == 69 {
        assert(tag@ =~= seq![83u8, 69u8]);
        TagKind::Se
    } else {
        TagKind::Other
    }
}

/// The dispatch table: the level after a segment with tag kind `k`, and the calls
/// made on the consumer, in order.
pub open spec fn dispatch(l: Level, k: TagKind, s: SegmentView) -> (Level, Seq<Event>) {
    let seg = Event::Segment(s);
    let iend = Event::End(Envelope::Interchange, None);
    let gend = Event::End(Envelope::FunctionalGroup, None);
    let tend = Event::End(Envelope::Transaction, None);
    let istart = Event::Start(Envelope::Interchange, s);
    let gstart = Event::Start(Envelope::FunctionalGroup, s);
    let tstart = Event::Start(Envelope::Transaction, s);
    match l {
        Level::Nothing => match k {
            TagKind::Isa => (Level::InInterchange, seq![istart, seg]),
            _ => (l, seq![seg]),
        },
        Level::InInterchange => match k {
            TagKind::Isa => (Level::InInterchange, seq![iend, istart, seg]),
            TagKind::Iea => (Level::Nothing, seq![seg, Event::End(Envelope::Interchange, Some(s))]),
            TagKind::Gs => (Level::InFunctionalGroup, seq![gstart, seg]),
            _ => (l, seq![seg]),
        },
        Level::InFunctionalGroup => match k {
            TagKind::Isa => (Level::InInterchange, seq![gend, iend, istart, seg]),
            TagKind::Iea => (
                Level::Nothing,
                seq![gend, seg, Event::End(Envelope::Interchange, Some(s))],
            ),
            TagKind::Gs => (Level::InFunctionalGroup, seq![gend, gstart, seg]),
            TagKind::Ge => (
                Level::InInterchange,
                seq![seg, Event::End(Envelope::FunctionalGroup, Some(s))],
            ),
            TagKind::St => (Level::InTransaction, seq![tstart, seg]),
            _ => (l, seq![seg]),
        },
        Level::InTransaction => match k {
            TagKind::Isa => (Level::InInterchange, seq![tend, gend, iend, istart, seg]),
            TagKind::Iea => (
                Level::Nothing,
                seq![tend, gend, seg, Event::End(Envelope::Interchange, Some(s))],
            ),
            TagKind::Gs => (Level::InFunctionalGroup, seq![tend, gend, gstart, seg]),
            TagKind::Ge => (
                Level::InInterchange,
                seq![tend, seg, Event::End(Envelope::FunctionalGroup, Some(s))],
            ),
            TagKind::St => (Level::InTransaction, seq![tend, tstart, seg]),
            TagKind::Se => (
                Level::InFunctionalGroup,
                seq![seg, Event::End(Envelope::Transaction, Some(s))],
            ),
            _ => (l, seq![seg]),
        },
    }
}

/// The synthesized closes at end of stream, innermost first.
pub open spec fn closing(l: Level) -> Seq<Event> {
    let iend = Event::End(Envelope::Interchange, None);
    let gend = Event::End(Envelope::FunctionalGroup, None);
    let tend = Event::End(Envelope::Transaction, None);
    match l {
        Level::Nothing => Seq::empty(),
        Level::InInterchange => seq![iend],
        Level::InFunctionalGroup => seq![gend, iend],
        Level::InTransaction => seq![tend, gend, iend],
    }
}

/// The level and the calls after the segments `segs`, from outside any interchange.
pub open spec fn interpret(segs: Seq<SegmentView>) -> (Level, Seq<Event>)
    decreases segs.len(),
{
    if segs.len() == 0 {
        (Level::Nothing, Seq::empty())
    } else {
        let prev = interpret(segs.drop_last());
        let d = dispatch(prev.0, tag_kind(segs.last().tag), segs.last());
        (d.0, prev.1 + d.1)
    }
}

/// Hands a segment to the consumer at level `Nothing`: the row of the dispatch
/// table for that level.
fn consume_segment_in_nothing<U: StreamParser>(stream_parser: &mut U, segment: &Segment) -> (r: Level)
    ensures
        old(stream_parser).inv() ==> final(stream_parser).inv(),
        r == dispatch(Level::Nothing, tag_kind(segment.tag@), segment@).0,
        final(stream_parser).calls() == old(stream_parser).calls() + dispatch(
            Level::Nothing,
            tag_kind(segment.tag@),
            segment@,
        ).1,
{
    let k = classify_tag(&segment.tag);
    let ghost s = segment@;
    if k == TagKind::Isa {
        stream_parser.interchange_start(segment);
        stream_parser.segment(segment);
        assert(stream_parser.calls() =~= old(stream_parser).calls() + seq![Event::Start(Envelope::Interchange, s), Event::Segment(s)]);
        Level::InInterchange
    } else {
        stream_parser.segment(segment);
        assert(stream_parser.calls() =~= old(stream_parser).calls() + seq![Event::Segment(s)]);
        Level::Nothing
    }
}

/// Hands a segment to the consumer at level `InInterchange`: the row of the dispatch
/// table for that level.
fn consume_segment_in_interchange<U: StreamParser>(stream_parser: &mut U, segment: &Segment) -> (r: Level)
    ensures
        old(stream_parser).inv() ==> final(stream_parser).inv(),
        r == dispatch(Level::InInterchange, tag_kind(segment.tag@), segment@).0,
        final(stream_parser).calls() == old(stream_parser).calls() + dispatch(
            Level::InInterchange,
            tag_kind(segment.tag@),
            segment@,
        ).1,
{
    let k = classify_tag(&segment.tag);
    let ghost s = segment@;
    if k == TagKind::Gs {
        stream_parser.functional_group_start(segment);
        stream_parser.segment(segment);
        assert(stream_parser.calls() =~= old(stream_parser).calls() + seq![Event::Start(Envelope::FunctionalGroup, s), Event::Segment(s)]);
        Level::InFunctionalGroup
    } else if k == TagKind::Iea {
        stream_parser.segment(segment);
        stream_parser.interchange_end(Some(segment));
        assert(stream_parser.calls() =~= old(stream_parser).calls() + seq![Event::Segment(s), Event::End(Envelope::Interchange, Some(s))]);
        Level::Nothing
    } else if k == TagKind::Isa {
        stream_parser.interchange_end(None);
        stream_parser.interchange_start(segment);
        stream_parser.segment(segment);
        assert(stream_parser.calls() =~= old(stream_parser).calls() + seq![Event::End(Envelope::Interchange, None), Event::Start(Envelope::Interchange, s), Event::Segment(s)]);
        Level::InInterchange
    } else {
        stream_parser.segment(segment);
        assert(stream_parser.calls() =~= old(stream_parser).calls() + seq![Event::Segment(s)]);
        Level::InInterchange
    }
}

/// Hands a segment to the consumer at level `InFunctionalGroup`: the row of the dispatch
/// table for that level.
fn consume_segment_in_functional_group<U: StreamParser>(stream_parser: &mut U, segment: &Segment) -> (r: Level)
    ensures
        old(stream_parser).inv() ==> final(stream_parser).inv(),
        r == dispatch(Level::InFunctionalGroup, tag_kind(segment.tag@), segment@).0,
        final(stream_parser).calls() == old(stream_parser).calls() + dispatch(
            Level::InFunctionalGroup,
            tag_kind(segment.tag@),
            segment@,
        ).1,
{
    let k = classify_tag(&segment.tag);
    let ghost s = segment@;
    if k == TagKind::Gs {
        stream_parser.functional_group_end(None);
        stream_parser.functional_group_start(segment);
        stream_parser.segment(segment);
        assert(stream_parser.calls() =~= old(stream_parser).calls() + seq![Event::End(Envelope::FunctionalGroup, None), Event::Start(Envelope::FunctionalGroup, s), Event::Segment(s)]);
        Level::InFunctionalGroup
    } else if k == TagKind::Ge {
        stream_parser.segment(segment);
        stream_parser.functional_group_end(Some(segment));
        assert(stream_parser.calls() =~= old(stream_parser).calls() + seq![Event::Segment(s), Event::End(Envelope::FunctionalGroup, Some(s))]);
        Level::InInterchange
    } else if k == TagKind::St {
        stream_parser.transaction_start(segment);
        stream_parser.segment(segment);
        assert(stream_parser.calls() =~= old(stream_parser).calls() + seq![Event::Start(Envelope::Transaction, s), Event::Segment(s)]);
        Level::InTransaction
    } else if k == TagKind::Iea {
        stream_parser.functional_group_end(None);
        stream_parser.segment(segment);
        stream_parser.interchange_end(Some(segment));
        assert(stream_parser.calls() =~= old(stream_parser).calls() + seq![Event::End(Envelope::FunctionalGroup, None), Event::Segment(s), Event::End(Envelope::Interchange, Some(s))]);
        Level::Nothing
    } else if k == TagKind::Isa {
        // A new interchange inside a group closes the group and its interchange.
        stream_parser.functional_group_end(None);
        stream_parser.interchange_end(None);
        stream_parser.interchange_start(segment);
        stream_parser.segment(segment);
        assert(stream_parser.calls() =~= old(stream_parser).calls() + seq![Event::End(Envelope::FunctionalGroup, None), Event::End(Envelope::Interchange, None), Event::Start(Envelope::Interchange, s), Event::Segment(s)]);
        Level::InInterchange
    } else {
        stream_parser.segment(segment);
        assert(stream_parser.calls() =~= old(stream_parser).calls() + seq![Event::Segment(s)]);
        Level::InFunctionalGroup
    }
}

/// Hands a segment to the consumer at level `InTransaction`: the row of the dispatch
/// table for that level.
fn consume_segment_in_transaction<U: StreamParser>(stream_parser: &mut U, segment: &Segment) -> (r: Level)
    ensures
        old(stream_parser).inv() ==> final(stream_parser).inv(),
        r == dispatch(Level::InTransaction, tag_kind(segment.tag@), segment@).0,
        final(stream_parser).calls() == old(stream_parser).calls() + dispatch(
            Level::InTransaction,
            tag_kind(segment.tag@),
            segment@,
        ).1,
{
    let k = classify_tag(&segment.tag);
    let ghost s = segment@;
    if k == TagKind::Se {
        stream_parser.segment(segment);
        stream_parser.transaction_end(Some(segment));
        assert(stream_parser.calls() =~= old(stream_parser).calls() + seq![Event::Segment(s), Event::End(Envelope::Transaction, Some(s))]);
        Level::InFunctionalGroup
    } else if k == TagKind::St {
        stream_parser.transaction_end(None);
        stream_parser.transaction_start(segment);
        stream_parser.segment(segment);
        assert(stream_parser.calls() =~= old(stream_parser).calls() + seq![Event::End(Envelope::Transaction, None), Event::Start(Envelope::Transaction, s), Event::Segment(s)]);
        Level::InTransaction
    } else if k == TagKind::Ge {
        stream_parser.transaction_end(None);
        stream_parser.segment(segment);
        stream_parser.functional_group_end(Some(segment));
        assert(stream_parser.calls() =~= old(stream_parser).calls() + seq![Event::End(Envelope::Transaction, None), Event::Segment(s), Event::End(Envelope::FunctionalGroup, Some(s))]);
        Level::InInterchange
    } else if k == TagKind::Gs {
        stream_parser.transaction_end(None);
        stream_parser.functional_group_end(None);
        stream_parser.functional_group_start(segment);
        stream_parser.segment(segment);
        assert(stream_parser.calls() =~= old(stream_parser).calls() + seq![Event::End(Envelope::Transaction, None), Event::End(Envelope::FunctionalGroup, None), Event::Start(Envelope::FunctionalGroup, s), Event::Segment(s)]);
        Level::InFunctionalGroup
    } else if k == TagKind::Iea {
        stream_parser.transaction_end(None);
        stream_parser.functional_group_end(None);
        stream_parser.segment(segment);
        stream_parser.interchange_end(Some(segment));
        assert(stream_parser.calls() =~= old(stream_parser).calls() + seq![Event::End(Envelope::Transaction, None), Event::End(Envelope::FunctionalGroup, None), Event::Segment(s), Event::End(Envelope::Interchange, Some(s))]);
        Level::Nothing
    } else if k == TagKind::Isa {
        stream_parser.transaction_end(None);
        stream_parser.functional_group_end(None);
        stream_parser.interchange_end(None);
        stream_parser.interchange_start(segment);
        stream_parser.segment(segment);
        assert(stream_parser.calls() =~= old(stream_parser).calls() + seq![Event::End(Envelope::Transaction, None), Event::End(Envelope::FunctionalGroup, None), Event::End(Envelope::Interchange, None), Event::Start(Envelope::Interchange, s), Event::Segment(s)]);
        Level::InInterchange
    } else {
        stream_parser.segment(segment);
        assert(stream_parser.calls() =~= old(stream_parser).calls() + seq![Event::Segment(s)]);
        Level::InTransaction
    }
}

/// Hands one segment to the consumer, with the envelope events its tag calls for
/// at level `level`.
fn consume_segment<U: StreamParser>(stream_parser: &mut U, level: Level, segment: &Segment) -> (r: Level)
    ensures
        old(stream_parser).inv() ==> final(stream_parser).inv(),
        r == dispatch(level, tag_kind(segment.tag@), segment@).0,
        final(stream_parser).calls() == old(stream_parser).calls() + dispatch(
            level,
            tag_kind(segment.tag@),
            segment@,
        ).1,
{
    match level {
        Level::InTransaction => consume_segment_in_transaction(stream_parser, segment),
        Level::InFunctionalGroup => consume_segment_in_functional_group(stream_parser, segment),
        Level::InInterchange => consume_segment_in_interchange(stream_parser, segment),
        Level::Nothing => consume_segment_in_nothing(stream_parser, segment),
    }
}

/// Closes what is still open, innermost first, then ends the stream.
fn complete_parsing<U: StreamParser>(stream_parser: &mut U, level: Level)
    ensures
        old(stream_parser).inv() ==> final(stream_parser).inv(),
        final(stream_parser).calls() == old(stream_parser).calls() + closing(level).push(
            Event::StreamEnd,
        ),
{
    if level == Level::InTransaction {
        stream_parser.transaction_end(None);
        stream_parser.functional_group_end(None);
        stream_parser.interchange_end(None);
    } else if level == Level::InFunctionalGroup {
        stream_parser.functional_group_end(None);
        stream_parser.interchange_end(None);
    } else if level == Level::InInterchange {
        stream_parser.interchange_end(None);
    }
    stream_parser.stream_end();
    assert(stream_parser.calls() =~= old(stream_parser).calls() + closing(level).push(
        Event::StreamEnd,
    ));
}

/// The segments a run delivered: those emitted after the `before` first ones.
pub open spec fn delivered(before: Seq<SegmentView>, after: Seq<SegmentView>) -> Seq<SegmentView> {
    after.subrange(before.len() as int, after.len() as int)
}

/// Pulls every segment from `parser_iterator` and drives `stream_parser`.
///
/// Each segment goes through the dispatch table from the level the previous ones
/// left. If the source fails, `error` is the last call and `stream_end` is never
/// made; otherwise the open envelopes are closed, innermost first, and
/// `stream_end` is the last call. The calls the consumer receives are exactly
/// those, appended to what it had received before.
pub fn execute_streaming_parser<T: ByteSource, U: StreamParser>(
    parser_iterator: &mut ParserIterator<T>,
    stream_parser: &mut U,
)
    requires
        old(parser_iterator).wf(),
    ensures
        final(parser_iterator).wf(),
        final(parser_iterator).is_done(),
        old(stream_parser).inv() ==> final(stream_parser).inv(),
        old(parser_iterator).emitted().is_prefix_of(final(parser_iterator).emitted()),
        ({
            let segs = delivered(old(parser_iterator).emitted(), final(parser_iterator).emitted());
            let failed = final(parser_iterator).mode() == PState::Errored
                && old(parser_iterator).mode() != PState::Errored;
            &&& failed ==> final(stream_parser).calls() == old(stream_parser).calls() + interpret(
                segs,
            ).1.push(Event::Error)
            &&& !failed ==> final(stream_parser).calls() == old(stream_parser).calls() + (
            interpret(segs).1 + closing(interpret(segs).0).push(Event::StreamEnd))
        }),
{
    let ghost start = parser_iterator.emitted();
    let ghost calls0 = stream_parser.calls();
    let mut level = Level::Nothing;
    proof {
        assert(delivered(start, parser_iterator.emitted()) =~= Seq::empty());
        assert(stream_parser.calls() =~= calls0 + Seq::<Event>::empty());
    }
    loop
        invariant
            parser_iterator.wf(),
            start.is_prefix_of(parser_iterator.emitted()),
            old(parser_iterator).emitted() == start,
            calls0 == old(stream_parser).calls(),
            old(stream_parser).inv() ==> stream_parser.inv(),
            level == interpret(delivered(start, parser_iterator.emitted())).0,
            stream_parser.calls() == calls0 + interpret(
                delivered(start, parser_iterator.emitted()),
            ).1,
            old(parser_iterator).mode() == PState::Errored <==> parser_iterator.mode()
                == PState::Errored,
        decreases parser_iterator.fuel(),
    {
        let ghost before = parser_iterator.emitted();
        let ghost calls_before = stream_parser.calls();
        let pr = parser_iterator.next();
        match pr {
            None => {
                complete_parsing(stream_parser, level);
                proof {
                    let t = interpret(delivered(start, parser_iterator.emitted())).1;
                    assert(stream_parser.calls() =~= calls0 + (t + closing(level).push(
                        Event::StreamEnd,
                    )));
                }
                return ;
            },
            Some(Err(e)) => {
                stream_parser.error(e);
                proof {
                    let t = interpret(delivered(start, parser_iterator.emitted())).1;
                    assert(stream_parser.calls() =~= calls0 + t.push(Event::Error));
                }
                return ;
            },
            Some(Ok(segment)) => {
                let next_level = consume_segment(stream_parser, level, &segment);
                proof {
                    let segs = delivered(start, parser_iterator.emitted());
                    assert(segs.drop_last() =~= delivered(start, before));
                    assert(segs.last() == segment@);
                    let d = dispatch(level, tag_kind(segment@.tag), segment@);
                    assert(stream_parser.calls() =~= calls0 + (interpret(
                        delivered(start, before),
                    ).1 + d.1));
                    assert(interpret(segs).1 == interpret(delivered(start, before)).1 + d.1);
                }
                level = next_level;
            },
        }
    }
}

/// Detects the delimiters of `ioish` and returns a segment producer over it,
/// positioned at the start of the stream. A detection failure is returned as it
/// came from the detector, and no producer is made.
pub fn create_edi_streamer<T: ByteSource>(mut ioish: T) -> (r: Result<ParserIterator<T>, DetectError>)
    ensures
        r matches Ok(it) ==> {
            &&& it.wf()
            &&& !it.is_done()
            &&& it.inputs() == Seq::<Option<u8>>::empty()
            &&& it.source().data() == ioish.data()
            &&& it.source().pos() == 0
            &&& it.origin() == 0
        },
        ioish.data().len() < u64::MAX ==> {
            let v = delimiter_scan(ioish.data());
            &&& (r matches Ok(it) ==> v.phase == ScanPhase::Found && it.element_byte() == v.element
                && it.segment_byte() == v.segment[0])
            &&& (r matches Err(DetectError::UnexpectedEof) ==> v.phase == ScanPhase::TooShort)
            &&& (v.phase == ScanPhase::Found ==> r is Ok || r matches Err(DetectError::Io(_)))
            &&& (v.phase == ScanPhase::TooShort ==> r is Err)
        },
{
    let delim_result = detect_delimiters(&mut ioish);
    match delim_result {
        DelimiterResult::DelimiterReadError(e) => Err(e),
        DelimiterResult::DelimitersFound(d) => {
            let it = create_segment_iterator(ioish, d.element_delimiter, d.segment_delimiter);
            Ok(it)
        },
    }
}

/// The depth after one event at depth `d`, or `None` if the event cannot come
/// there: a start only opens the envelope right below the current one, an end only
/// closes the innermost open one, and the stream ends only outside any interchange.
pub open spec fn nest_step(d: int, ev: Event) -> Option<int> {
    match ev {
        Event::Start(e, _) => if d == envelope_depth(e) - 1 {
            Some(envelope_depth(e))
        } else {
            None
        },
        Event::End(e, _) => if d == envelope_depth(e) {
            Some(d - 1)
        } else {
            None
        },
        Event::StreamEnd => if d == 0 {
            Some(d)
        } else {
            None
        },
        _ => Some(d),
    }
}

/// The depth after the events `evs` from depth `d`, if each can come where it does.
pub open spec fn nest(d: int, evs: Seq<Event>) -> Option<int>
    decreases evs.len(),
{
    if evs.len() == 0 {
        Some(d)
    } else {
        match nest_step(d, evs[0]) {
            Some(d2) => nest(d2, evs.skip(1)),
            None => None,
        }
    }
}

pub proof fn lemma_nest_append(d: int, a: Seq<Event>, b: Seq<Event>)
    ensures
        nest(d, a + b) == match nest(d, a) {
            Some(d2) => nest(d2, b),
            None => None,
        },
    decreases a.len(),
{
    if a.len() > 0 {
        assert((a + b).skip(1) =~= a.skip(1) + b);
        assert((a + b)[0] == a[0]);
        if let Some(d2) = nest_step(d, a[0]) {
            lemma_nest_append(d2, a.skip(1), b);
        }
    } else {
        assert(a + b =~= b);
    }
}

pub proof fn lemma_dispatch_nests(l: Level, k: TagKind, s: SegmentView)
    ensures
        nest(level_depth(l), dispatch(l, k, s).1) == Some(level_depth(dispatch(l, k, s).0)),
{
    reveal_with_fuel(nest, 6);
    let evs = dispatch(l, k, s).1;
    assert(evs.len() <= 5);
    if evs.len() > 1 {
        assert(evs.skip(1).skip(1) =~= evs.subrange(2, evs.len() as int));
    }
    if evs.len() > 2 {
        assert(evs.skip(1).skip(1).skip(1) =~= evs.subrange(3, evs.len() as int));
    }
    if evs.len() > 3 {
        assert(evs.skip(1).skip(1).skip(1).skip(1) =~= evs.subrange(4, evs.len() as int));
    }
    if evs.len() > 4 {
        assert(evs.skip(1).skip(1).skip(1).skip(1).skip(1) =~= evs.subrange(5, evs.len() as int));
    }
}

pub proof fn lemma_interpret_nests(segs: Seq<SegmentView>)
    ensures
        nest(0, interpret(segs).1) == Some(level_depth(interpret(segs).0)),
        forall|i: int|
            0 <= i < interpret(segs).1.len() ==> !(#[trigger] interpret(segs).1[i] is StreamEnd)
                && !(interpret(segs).1[i] is Error),
    decreases segs.len(),
{
    if segs.len() > 0 {
        let prev = interpret(segs.drop_last());
        lemma_interpret_nests(segs.drop_last());
        let d = dispatch(prev.0, tag_kind(segs.last().tag), segs.last());
        lemma_dispatch_nests(prev.0, tag_kind(segs.last().tag), segs.last());
        lemma_nest_append(0, prev.1, d.1);
        assert forall|i: int| 0 <= i < interpret(segs).1.len() implies !(
        #[trigger] interpret(segs).1[i] is StreamEnd) && !(interpret(segs).1[i] is Error) by {
            if i >= prev.1.len() {
                assert(interpret(segs).1[i] == d.1[i - prev.1.len()]);
            } else {
                assert(interpret(segs).1[i] == prev.1[i]);
            }
        }
    }
}

pub proof fn lemma_closing_nests(l: Level)
    ensures
        nest(level_depth(l), closing(l).push(Event::StreamEnd)) == Some(0int),
{
    reveal_with_fuel(nest, 5);
    let evs = closing(l).push(Event::StreamEnd);
    if evs.len() > 1 {
        assert(evs.skip(1).skip(1) =~= evs.subrange(2, evs.len() as int));
    }
    if evs.len() > 2 {
        assert(evs.skip(1).skip(1).skip(1) =~= evs.subrange(3, evs.len() as int));
    }
    if evs.len() > 3 {
        assert(evs.skip(1).skip(1).skip(1).skip(1) =~= evs.subrange(4, evs.len() as int));
    }
}

/// The calls a run makes on a consumer are well nested: no envelope is ended
/// unless it is the innermost open one, no envelope is started but right inside the
/// open ones, and when `stream_end` comes every envelope has been closed. On the
/// error path the calls are well nested too.
pub proof fn lemma_trace_well_nested(segs: Seq<SegmentView>)
    ensures
        nest(0, interpret(segs).1 + closing(interpret(segs).0).push(Event::StreamEnd))
            == Some(0int),
        nest(0, interpret(segs).1.push(Event::Error)) is Some,
{
    lemma_interpret_nests(segs);
    lemma_closing_nests(interpret(segs).0);
    lemma_nest_append(
        0,
        interpret(segs).1,
        closing(interpret(segs).0).push(Event::StreamEnd),
    );
    lemma_nest_append(0, interpret(segs).1, seq![Event::Error]);
    assert(interpret(segs).1.push(Event::Error) =~= interpret(segs).1 + seq![Event::Error]);
    reveal_with_fuel(nest, 2);
}

/// How many events of `evs` satisfy `p`.
pub open spec fn count_events(evs: Seq<Event>, p: spec_fn(Event) -> bool) -> nat
    decreases evs.len(),
{
    if evs.len() == 0 {
        0
    } else {
        (if p(evs[0]) {
            1nat
        } else {
            0nat
        }) + count_events(evs.skip(1), p)
    }
}

pub proof fn lemma_count_none(evs: Seq<Event>, p: spec_fn(Event) -> bool)
    requires
        forall|i: int| 0 <= i < evs.len() ==> !p(#[trigger] evs[i]),
    ensures
        count_events(evs, p) == 0,
    decreases evs.len(),
{
    if evs.len() > 0 {
        assert forall|i: int| 0 <= i < evs.skip(1).len() implies !p(#[trigger] evs.skip(1)[i]) by {
            assert(evs.skip(1)[i] == evs[i + 1]);
        }
        lemma_count_none(evs.skip(1), p);
    }
}

pub proof fn lemma_count_append(a: Seq<Event>, b: Seq<Event>, p: spec_fn(Event) -> bool)
    ensures
        count_events(a + b, p) == count_events(a, p) + count_events(b, p),
    decreases a.len(),
{
    if a.len() > 0 {
        assert((a + b).skip(1) =~= a.skip(1) + b);
        assert((a + b)[0] == a[0]);
        lemma_count_append(a.skip(1), b, p);
    } else {
        assert(a + b =~= b);
    }
}

/// On the error path `error` is called exactly once, last, and `stream_end` is
/// never called; otherwise `stream_end` is called exactly once, last, and `error`
/// never.
pub proof fn lemma_terminal_calls(segs: Seq<SegmentView>)
    ensures
        ({
            let t = interpret(segs).1.push(Event::Error);
            &&& count_events(t, |e: Event| e is Error) == 1
            &&& count_events(t, |e: Event| e is StreamEnd) == 0
            &&& t.last() is Error
        }),
        ({
            let t = interpret(segs).1 + closing(interpret(segs).0).push(Event::StreamEnd);
            &&& count_events(t, |e: Event| e is StreamEnd) == 1
            &&& count_events(t, |e: Event| e is Error) == 0
            &&& t.last() is StreamEnd
        }),
{
    let is_error = |e: Event| e is Error;
    let is_end = |e: Event| e is StreamEnd;
    lemma_interpret_nests(segs);
    let body = interpret(segs).1;
    let t1 = body.push(Event::Error);
    lemma_count_none(body, is_error);
    lemma_count_none(body, is_end);
    lemma_count_append(body, seq![Event::Error], is_error);
    lemma_count_append(body, seq![Event::Error], is_end);
    assert(t1 =~= body + seq![Event::Error]);
    reveal_with_fuel(count_events, 2);
    let c = closing(interpret(segs).0);
    let t2 = body + c.push(Event::StreamEnd);
    let pre = body + c;
    assert(t2 =~= pre + seq![Event::StreamEnd]);
    lemma_count_append(pre, seq![Event::StreamEnd], is_error);
    lemma_count_append(pre, seq![Event::StreamEnd], is_end);
    assert forall|i: int| 0 <= i < pre.len() implies !is_end(#[trigger] pre[i]) && !is_error(
        pre[i],
    ) by {
        if i >= body.len() {
            assert(pre[i] == c[i - body.len()]);
        } else {
            assert(pre[i] == body[i]);
        }
    }
    lemma_count_none(pre, is_error);
    lemma_count_none(pre, is_end);
}

pub open spec fn is_start_of(ev: Event, e: Envelope) -> bool {
    ev matches Event::Start(f, _) && f == e
}

pub open spec fn is_end_of(ev: Event, e: Envelope) -> bool {
    ev matches Event::End(f, _) && f == e
}

/// Along events that start no envelope `e`, from depth `d`: if `e` is open at
/// first, it is ended once exactly when it is closed at last, else never.
pub proof fn lemma_ends_without_starts(d: int, x: Seq<Event>, e: Envelope)
    requires
        nest(d, x) is Some,
        forall|i: int| 0 <= i < x.len() ==> !is_start_of(#[trigger] x[i], e),
    ensures
        d >= envelope_depth(e) ==> count_events(x, |ev: Event| is_end_of(ev, e)) == if nest(
            d,
            x,
        )->Some_0 >= envelope_depth(e) {
            0nat
        } else {
            1nat
        },
        d < envelope_depth(e) ==> count_events(x, |ev: Event| is_end_of(ev, e)) == 0 && nest(
            d,
            x,
        )->Some_0 < envelope_depth(e),
    decreases x.len(),
{
    if x.len() > 0 {
        let d1 = nest_step(d, x[0])->Some_0;
        assert forall|i: int| 0 <= i < x.skip(1).len() implies !is_start_of(
            #[trigger] x.skip(1)[i],
            e,
        ) by {
            assert(x.skip(1)[i] == x[i + 1]);
        }
        assert(!is_start_of(x[0], e));
        lemma_ends_without_starts(d1, x.skip(1), e);
    }
}

/// In well-nested events, every start of an envelope is followed, before the next
/// start of the same envelope or the end of the events, by exactly one end of it.
pub proof fn lemma_start_ended_once(evs: Seq<Event>, e: Envelope, i: int, j: int)
    requires
        nest(0, evs) == Some(0int),
        0 <= i < j <= evs.len(),
        is_start_of(evs[i], e),
        j < evs.len() ==> is_start_of(evs[j], e),
        forall|m: int| i < m < j ==> !is_start_of(#[trigger] evs[m], e),
    ensures
        count_events(evs.subrange(i + 1, j), |ev: Event| is_end_of(ev, e)) == 1,
{
    let a = evs.subrange(0, i);
    let b = evs.subrange(i, evs.len() as int);
    let mid = evs.subrange(i + 1, j);
    let rest = evs.subrange(j, evs.len() as int);
    assert(evs =~= a + b);
    lemma_nest_append(0, a, b);
    let da = nest(0, a)->Some_0;
    assert(b[0] == evs[i]);
    assert(b.skip(1) =~= mid + rest);
    lemma_nest_append(envelope_depth(e), mid, rest);
    assert forall|m: int| 0 <= m < mid.len() implies !is_start_of(#[trigger] mid[m], e) by {
        assert(mid[m] == evs[i + 1 + m]);
    }
    lemma_ends_without_starts(envelope_depth(e), mid, e);
    if j < evs.len() {
        assert(rest[0] == evs[j]);
    }
}

/// Every envelope a run starts is ended exactly once, possibly by a synthesized
/// close, before the next start of the same envelope or, for the last one, before
/// `stream_end`.
pub proof fn lemma_run_starts_ended_once(segs: Seq<SegmentView>, e: Envelope, i: int, j: int)
    requires
        ({
            let t = interpret(segs).1 + closing(interpret(segs).0).push(Event::StreamEnd);
            &&& 0 <= i < j <= t.len()
            &&& is_start_of(t[i], e)
            &&& j < t.len() ==> is_start_of(t[j], e)
            &&& forall|m: int| i < m < j ==> !is_start_of(#[trigger] t[m], e)
        }),
    ensures
        count_events(
            (interpret(segs).1 + closing(interpret(segs).0).push(Event::StreamEnd)).subrange(
                i + 1,
                j,
            ),
            |ev: Event| is_end_of(ev, e),
        ) == 1,
{
    lemma_trace_well_nested(segs);
    lemma_start_ended_once(
        interpret(segs).1 + closing(interpret(segs).0).push(Event::StreamEnd),
        e,
        i,
        j,
    );
}

} // verus!

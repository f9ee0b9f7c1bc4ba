//! The byte-level segment tokenizer.
use vstd::prelude::*;
use crate::source::ByteSource;
use crate::source::ReadOutcome;

verus! {

/// ASCII letters, the bytes that may begin a segment.
pub open spec fn is_segment_starter(b: u8) -> bool {
    (65 <= b && b <= 90) || (97 <= b && b <= 122)
}

/// Tests whether `b` is an ASCII letter.
pub fn segment_starter(b: u8) -> (r: bool)
    ensures
        r == is_segment_starter(b),
{
    (65 <= b && b <= 90) || (97 <= b && b <= 122)
}

/// The delimiters a tokenizer splits on; only the first byte of each is matched.
pub struct ParserConfig {
    pub element_delimiter: Vec<u8>,
    pub segment_delimiter: Vec<u8>,
}

impl ParserConfig {
    pub open spec fn wf(&self) -> bool {
        self.element_delimiter@.len() > 0 && self.segment_delimiter@.len() > 0
    }

    pub open spec fn element_byte(&self) -> u8 {
        self.element_delimiter@[0]
    }

    pub open spec fn segment_byte(&self) -> u8 {
        self.segment_delimiter@[0]
    }
}

/// The tokenizer's mode.
#[derive(PartialEq, Eq, Structural)]
pub enum PState {
    InField,
    InSegTerm,
    EOF,
    Errored,
}

/// The tokenizer's cursor and accumulators.
pub struct ParserState {
    /// Number of bytes consumed so far; the index of the next byte.
    pub byte_index: u64,
    /// Index of the first byte of the segment being accumulated.
    pub start_of_last_segment: u64,
    pub state: PState,
    /// Ordinal of the segment being accumulated.
    pub segment_index: u64,
    /// Raw bytes of the segment being accumulated.
    pub current_string: Vec<u8>,
    /// Bytes of the field being accumulated.
    pub current_field: Vec<u8>,
    /// Fields closed so far in the segment being accumulated.
    pub current_segment: Vec<Vec<u8>>,
}

/// One segment of the stream.
pub struct Segment {
    pub tag: Vec<u8>,
    pub fields: Vec<Vec<u8>>,
    pub start_offset: u64,
    pub end_offset: u64,
    pub segment_index: u64,
    pub raw: Vec<u8>,
}

/// The mathematical value of a segment.
pub struct SegmentView {
    pub tag: Seq<u8>,
    pub fields: Seq<Seq<u8>>,
    pub start_offset: int,
    pub end_offset: int,
    pub segment_index: int,
    pub raw: Seq<u8>,
}

/// The mathematical value of the tokenizer's state.
pub struct TokenizerView {
    pub byte_index: int,
    pub start: int,
    pub mode: PState,
    pub segment_index: int,
    pub raw: Seq<u8>,
    pub field: Seq<u8>,
    pub fields: Seq<Seq<u8>>,
}

pub open spec fn fields_view(v: Seq<Vec<u8>>) -> Seq<Seq<u8>> {
    v.map_values(|f: Vec<u8>| f@)
}

impl View for Segment {
    type V = SegmentView;

    open spec fn view(&self) -> SegmentView {
        SegmentView {
            tag: self.tag@,
            fields: fields_view(self.fields@),
            start_offset: self.start_offset as int,
            end_offset: self.end_offset as int,
            segment_index: self.segment_index as int,
            raw: self.raw@,
        }
    }
}

impl View for ParserState {
    type V = TokenizerView;

    open spec fn view(&self) -> TokenizerView {
        TokenizerView {
            byte_index: self.byte_index as int,
            start: self.start_of_last_segment as int,
            mode: self.state,
            segment_index: self.segment_index as int,
            raw: self.current_string@,
            field: self.current_field@,
            fields: fields_view(self.current_segment@),
        }
    }
}

/// The segment made of `fields` and `raw`: its tag is the first field, or empty.
pub open spec fn segment_of(
    fields: Seq<Seq<u8>>,
    raw: Seq<u8>,
    start: int,
    end: int,
    index: int,
) -> SegmentView {
    SegmentView {
        tag: if fields.len() > 0 { fields[0] } else { Seq::empty() },
        fields,
        start_offset: start,
        end_offset: end,
        segment_index: index,
        raw,
    }
}

/// The tokenizer's move on the byte `b`, with the segment it completes, if any.
pub open spec fn next_on_byte(ed: u8, sd: u8, st: TokenizerView, b: u8) -> (
    TokenizerView,
    Option<SegmentView>,
) {
    let i = st.byte_index;
    if b == ed {
        (
            TokenizerView {
                byte_index: i + 1,
                mode: PState::InField,
                raw: st.raw.push(b),
                field: Seq::empty(),
                fields: st.fields.push(st.field),
                ..st
            },
            None,
        )
    } else if b == sd {
        (
            TokenizerView {
                byte_index: i + 1,
                mode: PState::InSegTerm,
                raw: st.raw.push(b),
                fields: st.fields.push(st.field),
                ..st
            },
            None,
        )
    } else if st.mode == PState::InSegTerm && is_segment_starter(b) {
        (
            TokenizerView {
                byte_index: i + 1,
                start: i,
                mode: PState::InField,
                segment_index: st.segment_index + 1,
                raw: seq![b],
                field: seq![b],
                fields: Seq::empty(),
            },
            Some(segment_of(st.fields, st.raw, st.start, i - 1, st.segment_index)),
        )
    } else if st.mode == PState::InSegTerm {
        (TokenizerView { byte_index: i + 1, raw: st.raw.push(b), ..st }, None)
    } else {
        (TokenizerView { byte_index: i + 1, raw: st.raw.push(b), field: st.field.push(b), ..st }, None)
    }
}

/// The fields of the pending segment once the stream has ended: the open field is
/// closed unless a segment terminator closed it already.
pub open spec fn fields_at_end(st: TokenizerView) -> Seq<Seq<u8>> {
    if st.mode == PState::InSegTerm {
        st.fields
    } else {
        st.fields.push(st.field)
    }
}

/// The tokenizer's move at end of stream: the pending segment is flushed, if any
/// byte of it was read.
pub open spec fn next_on_end(st: TokenizerView) -> (TokenizerView, Option<SegmentView>) {
    (
        TokenizerView { mode: PState::EOF, fields: fields_at_end(st), ..st },
        if st.raw.len() == 0 {
            None
        } else {
            Some(
                segment_of(fields_at_end(st), st.raw, st.start, st.byte_index - 1, st.segment_index),
            )
        },
    )
}

/// The tokenizer's move on one input: a byte, or the end of the stream.
pub open spec fn next_on(ed: u8, sd: u8, st: TokenizerView, input: Option<u8>) -> (
    TokenizerView,
    Option<SegmentView>,
) {
    match input {
        Some(b) => next_on_byte(ed, sd, st, b),
        None => next_on_end(st),
    }
}

impl ParserState {
    /// A fresh tokenizer state, before any byte.
    pub fn new() -> (r: ParserState)
        ensures
            r@ == fresh_state(),
    {
        let r = ParserState {
            byte_index: 0,
            start_of_last_segment: 0,
            segment_index: 0,
            state: PState::InField,
            current_string: Vec::new(),
            current_field: Vec::new(),
            current_segment: Vec::new(),
        };
        assert(r@.fields =~= Seq::empty());
        r
    }
}

pub open spec fn fresh_state() -> TokenizerView {
    TokenizerView {
        byte_index: 0,
        start: 0,
        mode: PState::InField,
        segment_index: 0,
        raw: Seq::empty(),
        field: Seq::empty(),
        fields: Seq::empty(),
    }
}

/// The raw buffer holds every byte from the segment's start on, and a segment
/// terminator has been seen only once some byte of the segment was.
pub open spec fn state_wf(st: TokenizerView) -> bool {
    &&& 0 <= st.segment_index <= st.start <= st.byte_index
    &&& st.raw.len() == st.byte_index - st.start
    &&& st.mode == PState::InSegTerm ==> st.raw.len() > 0 && st.fields.len() > 0
}

/// What holds of every segment the tokenizer emits: the tag is the first field,
/// and the offsets span the raw bytes.
pub open spec fn segment_ok(s: SegmentView) -> bool {
    &&& s.fields.len() > 0
    &&& s.fields[0] == s.tag
    &&& 0 <= s.start_offset <= s.end_offset
    &&& s.raw.len() == s.end_offset - s.start_offset + 1
}

/// Each move keeps the state well formed, and every segment it emits is well formed.
pub proof fn lemma_next_on_wf(ed: u8, sd: u8, st: TokenizerView, input: Option<u8>)
    requires
        state_wf(st),
        input is Some ==> st.byte_index < u64::MAX,
    ensures
        state_wf(next_on(ed, sd, st, input).0),
        next_on(ed, sd, st, input).1 matches Some(s) ==> segment_ok(s) && s.segment_index
            == st.segment_index,
        next_on(ed, sd, st, input).1 is Some && input is Some ==> next_on(ed, sd, st, input).0.segment_index
            == st.segment_index + 1,
        input is Some && next_on(ed, sd, st, input).1 is None ==> next_on(ed, sd, st, input).0.segment_index
            == st.segment_index,
        input is Some ==> next_on(ed, sd, st, input).0.byte_index == st.byte_index + 1,
        input is Some && st.mode != PState::EOF ==> next_on(ed, sd, st, input).0.mode
            != PState::EOF,
        input is None ==> next_on(ed, sd, st, input).0.mode == PState::EOF,
{
}

/// Makes a segment from its accumulated parts.
pub fn build_segment(
    fields: Vec<Vec<u8>>,
    raw: Vec<u8>,
    start_index: u64,
    end_index: u64,
    segment_index: u64,
) -> (r: Segment)
    ensures
        r@ == segment_of(
            fields_view(fields@),
            raw@,
            start_index as int,
            end_index as int,
            segment_index as int,
        ),
{
    let tag: Vec<u8> = if fields.len() > 0 {
        fields[0].clone()
    } else {
        Vec::new()
    };
    Segment {
        tag,
        fields,
        start_offset: start_index,
        end_offset: end_index,
        segment_index,
        raw,
    }
}

pub open spec fn opt_view(o: Option<Segment>) -> Option<SegmentView> {
    match o {
        Some(s) => Some(s@),
        None => None,
    }
}

/// A copy of a byte buffer.
pub fn copy_bytes(v: &Vec<u8>) -> (r: Vec<u8>)
    ensures
        r@ == v@,
{
    let r = v.clone();
    assert(r@ =~= v@);
    r
}

/// A copy of a list of fields.
pub fn copy_fields(v: &Vec<Vec<u8>>) -> (r: Vec<Vec<u8>>)
    ensures
        fields_view(r@) == fields_view(v@),
{
    let mut r: Vec<Vec<u8>> = Vec::new();
    let mut i: usize = 0;
    while i < v.len()
        invariant
            i <= v.len(),
            r@.len() == i,
            forall|j: int| 0 <= j < i ==> #[trigger] r@[j]@ == v@[j]@,
        decreases v.len() - i,
    {
        let f = copy_bytes(&v[i]);
        r.push(f);
        i = i + 1;
    }
    assert(fields_view(r@) =~= fields_view(v@));
    r
}

/// Moves the tokenizer on the byte `b`; returns the segment that `b` completes.
pub fn step_byte(pc: &ParserConfig, ps: &mut ParserState, b: u8) -> (r: Option<Segment>)
    requires
        pc.wf(),
        state_wf(old(ps)@),
        old(ps).byte_index < u64::MAX,
    ensures
        (final(ps)@, opt_view(r)) == next_on_byte(pc.element_byte(), pc.segment_byte(), old(ps)@, b),
{
    let current_index = ps.byte_index;
    ps.byte_index = ps.byte_index + 1;
    let ed = pc.element_delimiter[0];
    let sd = pc.segment_delimiter[0];
    if b == ed {
        ps.state = PState::InField;
        ps.current_string.push(b);
        let f = copy_bytes(&ps.current_field);
        ps.current_field = Vec::new();
        ps.current_segment.push(f);
        assert(ps@.fields =~= old(ps)@.fields.push(old(ps)@.field));
        assert(ps@.field =~= Seq::empty());
        None
    } else if b == sd {
        ps.state = PState::InSegTerm;
        ps.current_string.push(b);
        let f = copy_bytes(&ps.current_field);
        ps.current_segment.push(f);
        assert(ps@.fields =~= old(ps)@.fields.push(old(ps)@.field));
        None
    } else if ps.state == PState::InSegTerm && segment_starter(b) {
        let fields = copy_fields(&ps.current_segment);
        let raw = copy_bytes(&ps.current_string);
        let seg = build_segment(
            fields,
            raw,
            ps.start_of_last_segment,
            current_index - 1,
            ps.segment_index,
        );
        ps.current_string = Vec::new();
        ps.current_field = Vec::new();
        ps.current_segment = Vec::new();
        ps.current_string.push(b);
        ps.current_field.push(b);
        ps.state = PState::InField;
        ps.start_of_last_segment = current_index;
        ps.segment_index = ps.segment_index + 1;
        assert(ps@.fields =~= Seq::empty());
        assert(ps@.raw =~= seq![b]);
        assert(ps@.field =~= seq![b]);
        Some(seg)
    } else if ps.state == PState::InSegTerm {
        ps.current_string.push(b);
        None
    } else {
        ps.current_string.push(b);
        ps.current_field.push(b);
        None
    }
}

/// Flushes the pending segment at end of stream.
pub fn step_end(ps: &mut ParserState) -> (r: Option<Segment>)
    requires
        state_wf(old(ps)@),
    ensures
        (final(ps)@, opt_view(r)) == next_on_end(old(ps)@),
{
    if ps.state != PState::InSegTerm {
        let f = copy_bytes(&ps.current_field);
        ps.current_segment.push(f);
        assert(ps@.fields =~= old(ps)@.fields.push(old(ps)@.field));
    }
    ps.state = PState::EOF;
    if ps.current_string.len() == 0 {
        None
    } else {
        let fields = copy_fields(&ps.current_segment);
        let raw = copy_bytes(&ps.current_string);
        Some(
            build_segment(
                fields,
                raw,
                ps.start_of_last_segment,
                ps.byte_index - 1,
                ps.segment_index,
            ),
        )
    }
}

/// What a read at `i` gives on the content `data`: the byte there, or the end.
pub open spec fn source_input(data: Seq<u8>, i: int) -> Option<u8> {
    if 0 <= i < data.len() {
        Some(data[i])
    } else {
        None
    }
}

/// The source went from `a` to `b` by one successful read that gave `input`.
pub open spec fn read_gave<T: ByteSource>(a: T, b: T, input: Option<u8>) -> bool {
    &&& b.data() == a.data()
    &&& input == source_input(a.data(), a.pos())
    &&& b.pos() == if input is Some {
        a.pos() + 1
    } else {
        a.pos()
    }
    &&& input is None ==> a.pos() >= a.data().len()
}

/// Reads one byte from `ioish` and moves the tokenizer on it, or flushes at end of
/// stream. A failed read leaves the state as it was.
pub fn step<T: ByteSource>(pc: &ParserConfig, ps: &mut ParserState, ioish: &mut T) -> (r: Result<
    Option<Segment>,
    std::io::Error,
>)
    requires
        pc.wf(),
        state_wf(old(ps)@),
        old(ps).byte_index < u64::MAX,
    ensures
        final(ioish).data() == old(ioish).data(),
        r matches Ok(o) ==> exists|input: Option<u8>|
            (final(ps)@, opt_view(o)) == #[trigger] next_on(
                pc.element_byte(),
                pc.segment_byte(),
                old(ps)@,
                input,
            ) && read_gave(*old(ioish), *final(ioish), input),
        r is Err ==> final(ps)@ == old(ps)@,
{
    match ioish.read_byte() {
        ReadOutcome::Byte(b) => {
            let o = step_byte(pc, ps, b);
            assert(next_on(pc.element_byte(), pc.segment_byte(), old(ps)@, Some(b)) == (
                ps@,
                opt_view(o),
            ));
            assert(read_gave(*old(ioish), *ioish, Some(b)));
            Ok(o)
        },
        ReadOutcome::End => {
            let o = step_end(ps);
            assert(next_on(pc.element_byte(), pc.segment_byte(), old(ps)@, None) == (
                ps@,
                opt_view(o),
            ));
            assert(read_gave(*old(ioish), *ioish, None));
            Ok(o)
        },
        ReadOutcome::Failed(e) => Err(e),
    }
}

/// The tokenizer's state and the segments emitted, after the inputs `inputs` from
/// a fresh state.
pub open spec fn run(ed: u8, sd: u8, inputs: Seq<Option<u8>>) -> (TokenizerView, Seq<SegmentView>)
    decreases inputs.len(),
{
    if inputs.len() == 0 {
        (fresh_state(), Seq::empty())
    } else {
        let prev = run(ed, sd, inputs.drop_last());
        let next = next_on(ed, sd, prev.0, inputs.last());
        (
            next.0,
            match next.1 {
                Some(seg) => prev.1.push(seg),
                None => prev.1,
            },
        )
    }
}

/// A lazy producer of the segments of a byte source.
pub struct ParserIterator<T: ByteSource> {
    io_source: T,
    parser_state: ParserState,
    parser_config: ParserConfig,
    /// Every input the tokenizer has moved on so far: a byte, or the end of stream.
    inputs: Ghost<Seq<Option<u8>>>,
    /// Every segment emitted so far.
    emitted: Ghost<Seq<SegmentView>>,
    /// The source's position when the producer was made.
    origin: Ghost<int>,
}

impl<T: ByteSource> ParserIterator<T> {
    pub closed spec fn element_byte(&self) -> u8 {
        self.parser_config.element_byte()
    }

    pub closed spec fn segment_byte(&self) -> u8 {
        self.parser_config.segment_byte()
    }

    /// The inputs consumed so far.
    pub closed spec fn inputs(&self) -> Seq<Option<u8>> {
        self.inputs@
    }

    /// The segments emitted so far, in order.
    pub closed spec fn emitted(&self) -> Seq<SegmentView> {
        self.emitted@
    }

    /// The byte source.
    pub closed spec fn source(&self) -> T {
        self.io_source
    }

    /// The source's position when the producer was made.
    pub closed spec fn origin(&self) -> int {
        self.origin@
    }

    /// The tokenizer's mode.
    pub closed spec fn mode(&self) -> PState {
        self.parser_state.state
    }

    /// Once the stream has ended or a read has failed, nothing more is produced.
    pub open spec fn is_done(&self) -> bool {
        self.mode() == PState::EOF || self.mode() == PState::Errored
    }

    /// A bound on the number of further pulls that can produce anything.
    pub closed spec fn fuel(&self) -> nat {
        if self.is_done() {
            0
        } else {
            (u64::MAX - self.parser_state.byte_index + 1) as nat
        }
    }

    pub closed spec fn wf(&self) -> bool {
        let r = run(self.element_byte(), self.segment_byte(), self.inputs@);
        &&& self.parser_config.wf()
        &&& state_wf(self.parser_state@)
        &&& self.emitted@ == r.1
        &&& self.parser_state.state != PState::Errored ==> self.parser_state@ == r.0
        &&& !self.is_done() ==> self.parser_state.segment_index == self.emitted@.len()
        &&& forall|k: int|
            0 <= k < self.emitted@.len() ==> (#[trigger] self.emitted@[k]).segment_index == k
                && segment_ok(self.emitted@[k])
        &&& self.inputs@.len() > 0 && self.inputs@.last() is None ==> self.parser_state.state
            != PState::InField && self.parser_state.state != PState::InSegTerm
        &&& !self.is_done() ==> self.inputs@.len() == self.parser_state.byte_index
        &&& self.reads_in_order()
    }

    /// Unless a read failed, the inputs are the source's bytes from the origin on,
    /// and the source stands right after the last byte read.
    pub closed spec fn reads_in_order(&self) -> bool {
        (self.parser_state.state != PState::Errored && 0 <= self.origin@
            && self.io_source.data().len() <= u64::MAX) ==> {
            &&& self.io_source.pos() == self.origin@ + self.parser_state.byte_index
            &&& forall|k: int|
                0 <= k < self.inputs@.len() ==> #[trigger] self.inputs@[k] == source_input(
                    self.io_source.data(),
                    self.origin@ + k,
                )
        }
    }

    /// The pull: the next segment, a failed read, or `None` once the stream is done.
    /// After a failed read the producer yields `None` for good.
    pub fn next(&mut self) -> (r: Option<Result<Segment, std::io::Error>>)
        requires
            old(self).wf(),
        ensures
            final(self).wf(),
            final(self).element_byte() == old(self).element_byte(),
            final(self).segment_byte() == old(self).segment_byte(),
            old(self).inputs().is_prefix_of(final(self).inputs()),
            old(self).is_done() ==> r is None && final(self).emitted() == old(self).emitted()
                && final(self).inputs() == old(self).inputs(),
            r is None ==> final(self).is_done() && final(self).emitted() == old(self).emitted(),
            r matches Some(Ok(s)) ==> final(self).emitted() == old(self).emitted().push(s@),
            r matches Some(Err(_)) ==> final(self).mode() == PState::Errored
                && final(self).emitted() == old(self).emitted(),
            r is Some ==> final(self).fuel() < old(self).fuel(),
            final(self).source().data() == old(self).source().data(),
            final(self).origin() == old(self).origin(),
            final(self).inputs().len() > 0 && final(self).inputs().last() is None ==> final(self).is_done(),
            r matches Some(Ok(_)) ==> final(self).mode() != PState::Errored,
            r is None && final(self).mode() == PState::Errored ==> old(self).mode() == PState::Errored,
    {
        parser_next(self)
    }
}

/// A producer over `ioish` that splits on the first bytes of the two delimiters.
pub fn create_segment_iterator<T: ByteSource>(
    ioish: T,
    element_delimiter: Vec<u8>,
    segment_delimiter: Vec<u8>,
) -> (r: ParserIterator<T>)
    requires
        element_delimiter@.len() > 0,
        segment_delimiter@.len() > 0,
    ensures
        r.wf(),
        r.element_byte() == element_delimiter@[0],
        r.segment_byte() == segment_delimiter@[0],
        r.inputs() == Seq::<Option<u8>>::empty(),
        !r.is_done(),
        r.source() == ioish,
        r.origin() == ioish.pos(),
{
    let ghost origin = ioish.pos();
    let pc = ParserConfig { element_delimiter, segment_delimiter };
    let ps = ParserState::new();
    ParserIterator {
        io_source: ioish,
        parser_state: ps,
        parser_config: pc,
        inputs: Ghost(Seq::empty()),
        emitted: Ghost(Seq::empty()),
        origin: Ghost(origin),
    }
}

fn parser_next<T: ByteSource>(pi: &mut ParserIterator<T>) -> (r: Option<Result<Segment, std::io::Error>>)
    requires
        old(pi).wf(),
    ensures
        final(pi).wf(),
        final(pi).element_byte() == old(pi).element_byte(),
        final(pi).segment_byte() == old(pi).segment_byte(),
        old(pi).inputs().is_prefix_of(final(pi).inputs()),
        old(pi).is_done() ==> r is None && final(pi).emitted() == old(pi).emitted()
            && final(pi).inputs() == old(pi).inputs(),
        r is None ==> final(pi).is_done() && final(pi).emitted() == old(pi).emitted(),
        r matches Some(Ok(s)) ==> final(pi).emitted() == old(pi).emitted().push(s@),
        r matches Some(Err(_)) ==> final(pi).mode() == PState::Errored && final(pi).emitted()
            == old(pi).emitted(),
        r is Some ==> final(pi).fuel() < old(pi).fuel(),
        final(pi).source().data() == old(pi).source().data(),
        final(pi).origin() == old(pi).origin(),
        final(pi).inputs().len() > 0 && final(pi).inputs().last() is None ==> final(pi).is_done(),
        r matches Some(Ok(_)) ==> final(pi).mode() != PState::Errored,
        r is None && final(pi).mode() == PState::Errored ==> old(pi).mode() == PState::Errored,
{
    loop
        invariant
            pi.wf(),
            pi.element_byte() == old(pi).element_byte(),
            pi.segment_byte() == old(pi).segment_byte(),
            old(pi).inputs().is_prefix_of(pi.inputs()),
            pi.emitted() == old(pi).emitted(),
            pi.fuel() <= old(pi).fuel(),
            pi.source().data() == old(pi).source().data(),
            pi.origin() == old(pi).origin(),
            old(pi).is_done() ==> pi.inputs() == old(pi).inputs() && pi.is_done(),
            pi.mode() == PState::Errored ==> old(pi).mode() == PState::Errored,
        decreases pi.fuel(),
    {
        if pi.parser_state.state == PState::EOF || pi.parser_state.state == PState::Errored {
            return None;
        }
        let ghost before = pi.parser_state@;
        let ghost src_before = pi.io_source;
        let ghost ed = pi.element_byte();
        let ghost sd = pi.segment_byte();
        let res = if pi.parser_state.byte_index == u64::MAX {
            // No byte can be counted past this one: the stream ends here.
            let o = step_end(&mut pi.parser_state);
            proof {
                assert(next_on(ed, sd, before, None) == (pi.parser_state@, opt_view(o)));
            }
            Ok(o)
        } else {
            step(&pi.parser_config, &mut pi.parser_state, &mut pi.io_source)
        };
        match res {
            Ok(o) => {
                let ghost input = choose|input: Option<u8>|
                    (pi.parser_state@, opt_view(o)) == #[trigger] next_on(ed, sd, before, input)
                        && (read_gave(src_before, pi.io_source, input) || (before.byte_index
                        == u64::MAX && input is None && pi.io_source == src_before));
                proof {
                    lemma_next_on_wf(ed, sd, before, input);
                    let old_inputs = pi.inputs@;
                    let new_inputs = old_inputs.push(input);
                    assert(new_inputs.drop_last() =~= old_inputs);
                    pi.inputs = Ghost(new_inputs);
                    assert(old(pi).inputs().is_prefix_of(new_inputs));
                }
                match o {
                    Some(seg) => {
                        proof {
                            pi.emitted = Ghost(pi.emitted@.push(seg@));
                        }
                        return Some(Ok(seg));
                    },
                    None => {},
                }
            },
            Err(e) => {
                pi.parser_state.state = PState::Errored;
                return Some(Err(e));
            },
        }
    }
}

/// Unless a read failed, the producer has consumed the source's bytes from its
/// origin on, in order, and what it emitted is what `run` gives on them.
pub proof fn lemma_reads_source<T: ByteSource>(it: &ParserIterator<T>)
    requires
        it.wf(),
        it.mode() != PState::Errored,
        it.origin() >= 0,
        it.source().data().len() <= u64::MAX,
    ensures
        forall|k: int|
            0 <= k < it.inputs().len() ==> #[trigger] it.inputs()[k] == source_input(
                it.source().data(),
                it.origin() + k,
            ),
        it.emitted() == run(it.element_byte(), it.segment_byte(), it.inputs()).1,
{
}

/// Every emitted segment has at least one field and its tag as first field and `start_offset <=
/// end_offset`, and the segments are numbered `0, 1, 2, ...` in emission order.
pub proof fn lemma_emitted_segments_well_formed<T: ByteSource>(it: &ParserIterator<T>)
    requires
        it.wf(),
    ensures
        forall|k: int|
            0 <= k < it.emitted().len() ==> {
                let s = #[trigger] it.emitted()[k];
                &&& s.fields.len() > 0
                &&& s.fields[0] == s.tag
                &&& s.start_offset <= s.end_offset
                &&& s.segment_index == k
            },
{
    assert forall|k: int| 0 <= k < it.emitted().len() implies {
        let s = #[trigger] it.emitted()[k];
        &&& s.fields.len() > 0
        &&& s.fields[0] == s.tag
        &&& s.start_offset <= s.end_offset
        &&& s.segment_index == k
    } by {
        assert(segment_ok(it.emitted()[k]));
    }
}

/// The segments emitted are a function of the delimiters and of the bytes read:
/// two producers that read the same bytes emit the same segments, those that
/// `run` gives.
pub proof fn lemma_rerun_identical<T: ByteSource, U: ByteSource>(
    a: &ParserIterator<T>,
    b: &ParserIterator<U>,
)
    requires
        a.wf(),
        b.wf(),
        a.element_byte() == b.element_byte(),
        a.segment_byte() == b.segment_byte(),
        a.inputs() == b.inputs(),
    ensures
        a.emitted() == b.emitted(),
        a.emitted() == run(a.element_byte(), a.segment_byte(), a.inputs()).1,
{
}

} // verus!

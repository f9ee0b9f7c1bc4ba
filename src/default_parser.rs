//! A consumer that aggregates the stream into interchanges, functional groups and
//! transactions. Segments are kept once, in a flat list; the aggregates refer to
//! them by their position in it.
use vstd::prelude::*;
use crate::parsers::Envelope;
use crate::parsers::Event;
use crate::parsers::Level;
use crate::parsers::opt_segment_view;
use crate::parsers::count_events;
use crate::parsers::is_end_of;
use crate::parsers::lemma_count_append;
use crate::parsers::lemma_nest_append;
use crate::parsers::level_depth;
use crate::parsers::nest;
use crate::parsers::nest_step;
use crate::parsers::closing;
use crate::parsers::interpret;
use crate::parsers::lemma_trace_well_nested;
use crate::segments::SegmentView;
use crate::parsers::StreamParser;
use crate::segments::copy_bytes;
use crate::segments::copy_fields;
use crate::segments::Segment;

verus! {

/// A closed transaction: the positions of its segments in the flat list.
pub struct Transaction {
    pub segments: Vec<usize>,
}

/// A closed functional group.
pub struct FunctionalGroup {
    pub transactions: Vec<Transaction>,
    pub segments: Vec<usize>,
}

/// A closed interchange.
pub struct Interchange {
    pub functional_groups: Vec<FunctionalGroup>,
    pub segments: Vec<usize>,
}

pub struct DefaultParser {
    state: Level,
    interchanges: Vec<Interchange>,
    current_interchange: Option<Interchange>,
    current_functional_group: Option<FunctionalGroup>,
    current_transaction: Option<Transaction>,
    segments: Vec<Segment>,
    /// The calls received so far.
    log: Ghost<Seq<Event>>,
}

/// A copy of a segment.
pub fn copy_segment(segment: &Segment) -> (r: Segment)
    ensures
        r@ == segment@,
{
    Segment {
        tag: copy_bytes(&segment.tag),
        fields: copy_fields(&segment.fields),
        start_offset: segment.start_offset,
        end_offset: segment.end_offset,
        segment_index: segment.segment_index,
        raw: copy_bytes(&segment.raw),
    }
}

/// The effect of one more call on the nesting depth and on the count of
/// interchange ends.
pub proof fn lemma_push_event(calls: Seq<Event>, ev: Event)
    ensures
        nest(0, calls.push(ev)) == match nest(0, calls) {
            Some(d) => nest_step(d, ev),
            None => None,
        },
        count_events(calls.push(ev), |e: Event| is_end_of(e, Envelope::Interchange)) == count_events(
            calls,
            |e: Event| is_end_of(e, Envelope::Interchange),
        ) + if is_end_of(ev, Envelope::Interchange) {
            1nat
        } else {
            0nat
        },
{
    assert(calls.push(ev) =~= calls + seq![ev]);
    lemma_nest_append(0, calls, seq![ev]);
    lemma_count_append(calls, seq![ev], |e: Event| is_end_of(e, Envelope::Interchange));
    reveal_with_fuel(nest, 2);
    reveal_with_fuel(count_events, 2);
    assert(seq![ev].skip(1) =~= Seq::<Event>::empty());
}

impl DefaultParser {
    /// While the calls received are well nested, the level is their depth, the
    /// open aggregates are those of the open envelopes, and one interchange has
    /// been closed for each `interchange_end` received.
    pub closed spec fn consistent(&self) -> bool {
        nest(0, self.log@) matches Some(d) ==> {
            &&& level_depth(self.state) == d
            &&& (self.current_interchange is Some <==> d >= 1)
            &&& (self.current_functional_group is Some <==> d >= 2)
            &&& (self.current_transaction is Some <==> d >= 3)
            &&& self.interchanges@.len() == count_events(
                self.log@,
                |e: Event| is_end_of(e, Envelope::Interchange),
            )
        }
    }

    pub closed spec fn level(&self) -> Level {
        self.state
    }

    /// Every segment received, in order.
    pub closed spec fn all_segments(&self) -> Seq<Segment> {
        self.segments@
    }

    /// The interchanges closed so far.
    pub closed spec fn closed_interchanges(&self) -> Seq<Interchange> {
        self.interchanges@
    }

    pub closed spec fn open_interchange(&self) -> Option<Interchange> {
        self.current_interchange
    }

    pub closed spec fn open_group(&self) -> Option<FunctionalGroup> {
        self.current_functional_group
    }

    pub closed spec fn open_transaction(&self) -> Option<Transaction> {
        self.current_transaction
    }

    pub fn new() -> (r: Self)
        ensures
            r.level() == Level::Nothing,
            r.all_segments().len() == 0,
            r.closed_interchanges().len() == 0,
            r.open_interchange() is None,
            r.open_group() is None,
            r.open_transaction() is None,
            r.calls() == Seq::<Event>::empty(),
            r.inv(),
    {
        DefaultParser {
            state: Level::Nothing,
            interchanges: Vec::new(),
            current_interchange: None,
            current_functional_group: None,
            current_transaction: None,
            segments: Vec::new(),
            log: Ghost(Seq::empty()),
        }
    }

    /// The interchanges closed so far, in order.
    pub fn interchanges(&self) -> (r: &Vec<Interchange>)
        ensures
            r@ == self.closed_interchanges(),
    {
        &self.interchanges
    }

    /// Every segment received, in order; the aggregates hold positions in it.
    pub fn segments(&self) -> (r: &Vec<Segment>)
        ensures
            r@ == self.all_segments(),
    {
        &self.segments
    }
}

/// Whether the level is inside the envelope at depth `depth` (1 for an
/// interchange, 2 for a group, 3 for a transaction).
pub open spec fn level_within(l: Level, depth: int) -> bool {
    crate::parsers::level_depth(l) >= depth
}

/// The aggregate `after` is `before` with the segment at position `i` appended,
/// where the level says the aggregate is open; otherwise it is unchanged.
pub open spec fn appended(before: Option<Seq<usize>>, after: Option<Seq<usize>>, open: bool, i: int) -> bool {
    match before {
        Some(b) => after matches Some(a) && a == if open {
            b.push(i as usize)
        } else {
            b
        },
        None => after is None,
    }
}

pub open spec fn transaction_segments(t: Option<Transaction>) -> Option<Seq<usize>> {
    match t {
        Some(t) => Some(t.segments@),
        None => None,
    }
}

pub open spec fn group_segments(g: Option<FunctionalGroup>) -> Option<Seq<usize>> {
    match g {
        Some(g) => Some(g.segments@),
        None => None,
    }
}

pub open spec fn interchange_segments(c: Option<Interchange>) -> Option<Seq<usize>> {
    match c {
        Some(c) => Some(c.segments@),
        None => None,
    }
}

/// Records a segment at the end of the flat list, and its position there in each
/// open aggregate that the level says is open.
fn consume_segment(parser: &mut DefaultParser, segment: &Segment)
    requires
        old(parser).all_segments().len() < usize::MAX,
    ensures
        final(parser).log == old(parser).log,
        final(parser).all_segments().len() == old(parser).all_segments().len() + 1,
        final(parser).all_segments().last()@ == segment@,
        final(parser).all_segments().drop_last() == old(parser).all_segments(),
        final(parser).level() == old(parser).level(),
        final(parser).closed_interchanges() == old(parser).closed_interchanges(),
        appended(
            transaction_segments(old(parser).open_transaction()),
            transaction_segments(final(parser).open_transaction()),
            level_within(old(parser).level(), 3),
            old(parser).all_segments().len() as int,
        ),
        appended(
            group_segments(old(parser).open_group()),
            group_segments(final(parser).open_group()),
            level_within(old(parser).level(), 2),
            old(parser).all_segments().len() as int,
        ),
        appended(
            interchange_segments(old(parser).open_interchange()),
            interchange_segments(final(parser).open_interchange()),
            level_within(old(parser).level(), 1),
            old(parser).all_segments().len() as int,
        ),
        final(parser).open_group() matches Some(g) ==> g.transactions == old(
            parser,
        ).open_group()->Some_0.transactions,
        final(parser).open_interchange() matches Some(c) ==> c.functional_groups == old(
            parser,
        ).open_interchange()->Some_0.functional_groups,
{
    let i = parser.segments.len();
    let s = copy_segment(segment);
    parser.segments.push(s);
    assert(parser.segments@.drop_last() =~= old(parser).segments@);
    let in_transaction = parser.state == Level::InTransaction;
    let in_group = in_transaction || parser.state == Level::InFunctionalGroup;
    let in_interchange = in_group || parser.state == Level::InInterchange;
    if in_transaction {
        match parser.current_transaction.take() {
            Some(mut t) => {
                t.segments.push(i);
                parser.current_transaction = Some(t);
            },
            None => {},
        }
    }
    if in_group {
        match parser.current_functional_group.take() {
            Some(mut g) => {
                g.segments.push(i);
                parser.current_functional_group = Some(g);
            },
            None => {},
        }
    }
    if in_interchange {
        match parser.current_interchange.take() {
            Some(mut c) => {
                c.segments.push(i);
                parser.current_interchange = Some(c);
            },
            None => {},
        }
    }
}

impl StreamParser for DefaultParser {
    closed spec fn calls(&self) -> Seq<Event> {
        self.log@
    }

    closed spec fn inv(&self) -> bool {
        self.consistent()
    }

    fn transaction_start(&mut self, _segment: &Segment)
        ensures
            final(self).level() == Level::InTransaction,
            final(self).open_transaction() matches Some(t) && t.segments@.len() == 0,
            final(self).open_group() == old(self).open_group(),
            final(self).open_interchange() == old(self).open_interchange(),
            final(self).all_segments() == old(self).all_segments(),
    {
        proof {
            self.log = Ghost(self.log@.push(Event::Start(Envelope::Transaction, _segment@)));
            lemma_push_event(old(self).log@, Event::Start(Envelope::Transaction, _segment@));
        }
        self.state = Level::InTransaction;
        self.current_transaction = Some(Transaction { segments: Vec::new() });
    }

    /// Closes the open transaction into the open functional group.
    fn transaction_end(&mut self, _segment: Option<&Segment>)
        ensures
            final(self).level() == Level::InFunctionalGroup,
            final(self).open_transaction() is None,
            final(self).open_interchange() == old(self).open_interchange(),
            final(self).all_segments() == old(self).all_segments(),
            final(self).closed_interchanges() == old(self).closed_interchanges(),
            old(self).open_transaction() matches Some(t) ==> old(self).open_group() matches Some(g)
                ==> final(self).open_group() matches Some(g2) && g2.transactions@
                == g.transactions@.push(t) && g2.segments == g.segments,
            old(self).open_transaction() is None || old(self).open_group() is None
                ==> final(self).open_group() == old(self).open_group(),
    {
        proof {
            self.log = Ghost(self.log@.push(Event::End(Envelope::Transaction, opt_segment_view(_segment))));
            lemma_push_event(old(self).log@, Event::End(Envelope::Transaction, opt_segment_view(_segment)));
        }
        self.state = Level::InFunctionalGroup;
        let t = self.current_transaction.take();
        match t {
            Some(t) => match self.current_functional_group.take() {
                Some(mut g) => {
                    g.transactions.push(t);
                    self.current_functional_group = Some(g);
                },
                None => {},
            },
            None => {},
        }
    }

    fn functional_group_start(&mut self, _segment: &Segment)
        ensures
            final(self).level() == Level::InFunctionalGroup,
            final(self).open_group() matches Some(g) && g.transactions@.len() == 0
                && g.segments@.len() == 0,
            final(self).open_interchange() == old(self).open_interchange(),
            final(self).all_segments() == old(self).all_segments(),
    {
        proof {
            self.log = Ghost(self.log@.push(Event::Start(Envelope::FunctionalGroup, _segment@)));
            lemma_push_event(old(self).log@, Event::Start(Envelope::FunctionalGroup, _segment@));
        }
        self.state = Level::InFunctionalGroup;
        self.current_functional_group = Some(
            FunctionalGroup { transactions: Vec::new(), segments: Vec::new() },
        );
    }

    /// Closes the open functional group into the open interchange.
    fn functional_group_end(&mut self, _segment: Option<&Segment>)
        ensures
            final(self).level() == Level::InInterchange,
            final(self).open_group() is None,
            final(self).all_segments() == old(self).all_segments(),
            final(self).closed_interchanges() == old(self).closed_interchanges(),
            old(self).open_group() matches Some(g) ==> old(self).open_interchange() matches Some(c)
                ==> final(self).open_interchange() matches Some(c2)
                && c2.functional_groups@ == c.functional_groups@.push(g) && c2.segments
                == c.segments,
            old(self).open_group() is None || old(self).open_interchange() is None
                ==> final(self).open_interchange() == old(self).open_interchange(),
    {
        proof {
            self.log = Ghost(self.log@.push(Event::End(Envelope::FunctionalGroup, opt_segment_view(_segment))));
            lemma_push_event(old(self).log@, Event::End(Envelope::FunctionalGroup, opt_segment_view(_segment)));
        }
        self.state = Level::InInterchange;
        let g = self.current_functional_group.take();
        match g {
            Some(g) => match self.current_interchange.take() {
                Some(mut c) => {
                    c.functional_groups.push(g);
                    self.current_interchange = Some(c);
                },
                None => {},
            },
            None => {},
        }
    }

    fn interchange_start(&mut self, _segment: &Segment)
        ensures
            final(self).level() == Level::InInterchange,
            final(self).open_interchange() matches Some(c) && c.functional_groups@.len() == 0
                && c.segments@.len() == 0,
            final(self).all_segments() == old(self).all_segments(),
            final(self).closed_interchanges() == old(self).closed_interchanges(),
    {
        proof {
            self.log = Ghost(self.log@.push(Event::Start(Envelope::Interchange, _segment@)));
            lemma_push_event(old(self).log@, Event::Start(Envelope::Interchange, _segment@));
        }
        self.state = Level::InInterchange;
        self.current_interchange = Some(
            Interchange { functional_groups: Vec::new(), segments: Vec::new() },
        );
    }

    /// Closes the open interchange into the list of closed ones.
    fn interchange_end(&mut self, _segment: Option<&Segment>)
        ensures
            final(self).level() == Level::Nothing,
            final(self).open_interchange() is None,
            final(self).all_segments() == old(self).all_segments(),
            old(self).open_interchange() matches Some(c) ==> final(self).closed_interchanges()
                == old(self).closed_interchanges().push(c),
            old(self).open_interchange() is None ==> final(self).closed_interchanges() == old(
                self,
            ).closed_interchanges(),
    {
        proof {
            self.log = Ghost(self.log@.push(Event::End(Envelope::Interchange, opt_segment_view(_segment))));
            lemma_push_event(old(self).log@, Event::End(Envelope::Interchange, opt_segment_view(_segment)));
        }
        self.state = Level::Nothing;
        match self.current_interchange.take() {
            Some(c) => {
                self.interchanges.push(c);
            },
            None => {},
        }
    }

    fn error(&mut self, _error: std::io::Error) {
        proof {
            self.log = Ghost(self.log@.push(Event::Error));
            lemma_push_event(old(self).log@, Event::Error);
        }
    }

    fn stream_end(&mut self) {
        proof {
            self.log = Ghost(self.log@.push(Event::StreamEnd));
            lemma_push_event(old(self).log@, Event::StreamEnd);
        }
    }

    /// Records the segment; a parser that already holds `usize::MAX` segments
    /// cannot number another and ignores it.
    fn segment(&mut self, segment: &Segment)
        ensures
            old(self).all_segments().len() < usize::MAX ==> {
                &&& final(self).all_segments().len() == old(self).all_segments().len() + 1
                &&& final(self).all_segments().last()@ == segment@
                &&& appended(
                    transaction_segments(old(self).open_transaction()),
                    transaction_segments(final(self).open_transaction()),
                    level_within(old(self).level(), 3),
                    old(self).all_segments().len() as int,
                )
                &&& appended(
                    group_segments(old(self).open_group()),
                    group_segments(final(self).open_group()),
                    level_within(old(self).level(), 2),
                    old(self).all_segments().len() as int,
                )
                &&& appended(
                    interchange_segments(old(self).open_interchange()),
                    interchange_segments(final(self).open_interchange()),
                    level_within(old(self).level(), 1),
                    old(self).all_segments().len() as int,
                )
            },
            final(self).level() == old(self).level(),
            final(self).closed_interchanges() == old(self).closed_interchanges(),
    {
        proof {
            self.log = Ghost(self.log@.push(Event::Segment(segment@)));
            lemma_push_event(old(self).log@, Event::Segment(segment@));
        }
        if self.segments.len() < usize::MAX {
            consume_segment(self, segment);
        }
    }

    fn in_interchange(&self) -> (r: bool)
        ensures
            r == (self.level() != Level::Nothing),
    {
        self.state == Level::InTransaction || self.state == Level::InFunctionalGroup
            || self.state == Level::InInterchange
    }

    fn in_functional_group(&self) -> (r: bool)
        ensures
            r == (self.level() == Level::InTransaction || self.level()
                == Level::InFunctionalGroup),
    {
        self.state == Level::InTransaction || self.state == Level::InFunctionalGroup
    }

    fn in_transaction(&self) -> (r: bool)
        ensures
            r == (self.level() == Level::InTransaction),
    {
        self.state == Level::InTransaction
    }
}

/// After a run that ended normally on a parser that had received nothing before,
/// no envelope is left open, the level is back outside any interchange, and one
/// interchange has been closed for each `interchange_end` call of the run.
pub proof fn lemma_default_parser_after_run(p: &DefaultParser, segs: Seq<SegmentView>)
    requires
        p.inv(),
        p.calls() == interpret(segs).1 + closing(interpret(segs).0).push(Event::StreamEnd),
    ensures
        p.level() == Level::Nothing,
        p.open_interchange() is None,
        p.open_group() is None,
        p.open_transaction() is None,
        p.closed_interchanges().len() == count_events(
            p.calls(),
            |e: Event| is_end_of(e, Envelope::Interchange),
        ),
{
    lemma_trace_well_nested(segs);
}

} // verus!

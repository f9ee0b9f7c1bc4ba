use edi_stream::create_edi_streamer;
use edi_stream::execute_streaming_parser;
use edi_stream::ByteSource;
use edi_stream::DefaultParser;
use edi_stream::MemorySource;
use edi_stream::ReadOutcome;
use edi_stream::Segment;
use edi_stream::StreamParser;

const ISA: &str = "ISA*00*TSI       *01*92511930  *01*ME             *12*BRADLEY        *970815*1732*U*00201*000000050*0*T*>~";

fn source(text: &str) -> MemorySource {
    MemorySource::new(text.as_bytes().to_vec())
}

fn tag_text(s: &Segment) -> String {
    String::from_utf8_lossy(s.tag.as_slice()).to_string()
}

fn first_interchange_tag(dp: &DefaultParser) -> String {
    tag_text(&dp.segments()[dp.interchanges()[0].segments[0]])
}

/// Writes every call down as a line of text.
struct Recorder {
    calls: Vec<String>,
}

fn opt_tag(s: Option<&Segment>) -> String {
    match s {
        Some(s) => tag_text(s),
        None => String::from("-"),
    }
}

impl StreamParser for Recorder {
    fn segment(&mut self, segment: &Segment) {
        self.calls.push(format!("segment({})", tag_text(segment)));
    }
    fn interchange_start(&mut self, segment: &Segment) {
        self.calls.push(format!("istart({})", tag_text(segment)));
    }
    fn interchange_end(&mut self, segment: Option<&Segment>) {
        self.calls.push(format!("iend({})", opt_tag(segment)));
    }
    fn functional_group_start(&mut self, segment: &Segment) {
        self.calls.push(format!("gstart({})", tag_text(segment)));
    }
    fn functional_group_end(&mut self, segment: Option<&Segment>) {
        self.calls.push(format!("gend({})", opt_tag(segment)));
    }
    fn transaction_start(&mut self, segment: &Segment) {
        self.calls.push(format!("tstart({})", tag_text(segment)));
    }
    fn transaction_end(&mut self, segment: Option<&Segment>) {
        self.calls.push(format!("tend({})", opt_tag(segment)));
    }
    fn stream_end(&mut self) {
        self.calls.push(String::from("stream_end"));
    }
    fn error(&mut self, _error: std::io::Error) {
        self.calls.push(String::from("error"));
    }
    fn in_interchange(&self) -> bool {
        false
    }
    fn in_functional_group(&self) -> bool {
        false
    }
    fn in_transaction(&self) -> bool {
        false
    }
}

fn record(text: &str) -> Vec<String> {
    let mut rec = Recorder { calls: Vec::new() };
    match create_edi_streamer(source(text)) {
        Ok(mut pi) => {
            execute_streaming_parser(&mut pi, &mut rec);
        }
        Err(_) => panic!("FAILED TO CREATE PARSER"),
    }
    rec.calls
}

/// A source that fails once `fail_at` bytes have been read.
struct FailingSource {
    inner: MemorySource,
    read: usize,
    fail_at: usize,
}

impl ByteSource for FailingSource {
    fn read_byte(&mut self) -> ReadOutcome {
        if self.read == self.fail_at {
            return ReadOutcome::Failed(std::io::Error::new(std::io::ErrorKind::Other, "broken"));
        }
        self.read += 1;
        self.inner.read_byte()
    }

    fn seek_to(&mut self, offset: u64) -> Result<(), std::io::Error> {
        self.read = offset as usize;
        self.inner.seek_to(offset)
    }
}

#[test]
fn simple_interchange_test() {
    let mut dp = DefaultParser::new();
    let edis = &mut create_edi_streamer(source("ISA*00*TSI       *01*92511930  *01*ME             *12*BRADLEY        *970815*1732*U*00201*000000050*0*T*>~\n"));
    match edis {
        Ok(pi) => {
            execute_streaming_parser(pi, &mut dp);
            assert_eq!("ISA", first_interchange_tag(&dp));
        }
        Err(_e) => panic!("FAILED TO CREATE PARSER"),
    }
}

#[test]
fn fg_and_transaction_simple_test() {
    let raw = "\
ISA*00*TSI       *01*92511930  *01*ME             *12*BRADLEY        *970815*1732*U*00201*000000050*0*T*>~
GS**~
ST~
SE~
GE~
IEA~
    ";
    let mut dp = DefaultParser::new();
    let edis = &mut create_edi_streamer(source(raw));
    match edis {
        Ok(pi) => {
            execute_streaming_parser(pi, &mut dp);
            assert_eq!("ISA", first_interchange_tag(&dp));
            assert_eq!(dp.interchanges()[0].functional_groups.len(), 1);
            assert_eq!(dp.interchanges()[0].functional_groups[0].transactions.len(), 1);
        }
        Err(_e) => panic!("FAILED TO CREATE PARSER"),
    }
}

#[test]
fn fg_and_transaction_weird_test() {
    let raw = "\
ISA*00*TSI       *01*92511930  *01*ME             *12*BRADLEY        *970815*1732*U*00201*000000050*0*T*>~
ISA~
GS~
ISA~
GS~
ST~
ISA~
GS~
ST~
GE~
ISA~
GS~
ST~
GS~
ISA~
GS~
ST~
ST~
GE~
IEA~
";
    let mut dp = DefaultParser::new();
    let edis = &mut create_edi_streamer(source(raw));
    match edis {
        Ok(pi) => {
            execute_streaming_parser(pi, &mut dp);
            assert_eq!("ISA", first_interchange_tag(&dp));
            assert_eq!(dp.interchanges().len(), 6);
            assert_eq!(dp.interchanges()[4].functional_groups.len(), 2);
            assert_eq!(dp.interchanges()[5].functional_groups[0].transactions.len(), 2);
        }
        Err(_e) => panic!("FAILED TO CREATE PARSER"),
    }
}

#[test]
fn single_isa_events() {
    let calls = record(ISA);
    assert_eq!(calls, vec!["istart(ISA)", "segment(ISA)", "iend(-)", "stream_end"]);
}

#[test]
fn single_isa_with_newline_events() {
    let calls = record(&format!("{}\n", ISA));
    assert_eq!(calls, vec!["istart(ISA)", "segment(ISA)", "iend(-)", "stream_end"]);
}

#[test]
fn single_isa_has_seventeen_fields() {
    let mut dp = DefaultParser::new();
    let mut pi = match create_edi_streamer(source(ISA)) {
        Ok(pi) => pi,
        Err(_) => panic!("FAILED TO CREATE PARSER"),
    };
    execute_streaming_parser(&mut pi, &mut dp);
    assert_eq!(dp.segments().len(), 1);
    assert_eq!(dp.segments()[0].fields.len(), 17);
    assert_eq!(dp.segments()[0].end_offset as usize, ISA.len() - 1);
}

#[test]
fn full_envelope_events() {
    let calls = record(&format!("{}\nGS**~\nST~\nSE~\nGE~\nIEA~\n", ISA));
    assert_eq!(
        calls,
        vec![
            "istart(ISA)", "segment(ISA)", "gstart(GS)", "segment(GS)", "tstart(ST)", "segment(ST)",
            "segment(SE)", "tend(SE)", "segment(GE)", "gend(GE)", "segment(IEA)", "iend(IEA)",
            "stream_end",
        ]
    );
}

#[test]
fn cascading_interchanges() {
    let calls = record(&format!("{}\nISA~\nGS~\nISA~\nGS~\nST~\nIEA~", ISA));
    assert_eq!(calls.iter().filter(|c| c.starts_with("istart")).count(), 3);
    assert_eq!(
        calls,
        vec![
            "istart(ISA)", "segment(ISA)",
            "iend(-)", "istart(ISA)", "segment(ISA)",
            "gstart(GS)", "segment(GS)",
            "gend(-)", "iend(-)", "istart(ISA)", "segment(ISA)",
            "gstart(GS)", "segment(GS)",
            "tstart(ST)", "segment(ST)",
            "tend(-)", "gend(-)", "segment(IEA)", "iend(IEA)",
            "stream_end",
        ]
    );
}

#[test]
fn isa_inside_group_closes_group_and_interchange() {
    let calls = record(&format!("{}GS~ISA~", ISA));
    assert_eq!(
        calls,
        vec![
            "istart(ISA)", "segment(ISA)", "gstart(GS)", "segment(GS)",
            "gend(-)", "iend(-)", "istart(ISA)", "segment(ISA)", "iend(-)", "stream_end",
        ]
    );
}

#[test]
fn open_transaction_closed_at_stream_end() {
    let calls = record(&format!("{}GS~ST~X~", ISA));
    assert_eq!(
        &calls[calls.len() - 4..],
        &["tend(-)", "gend(-)", "iend(-)", "stream_end"]
    );
}

#[test]
fn segments_outside_interchange_are_delivered() {
    let calls = record(&format!("{}IEA~IEA~GS~", ISA));
    assert_eq!(
        calls,
        vec![
            "istart(ISA)", "segment(ISA)", "segment(IEA)", "iend(IEA)",
            "segment(IEA)", "segment(GS)", "stream_end",
        ]
    );
}

#[test]
fn read_failure_after_first_segment() {
    let text = format!("{}GS~ST~", ISA);
    // The detector reads from offset 3; the failure comes once the tokenizer has
    // read the first segment and the first byte of the next one.
    let src = FailingSource { inner: source(&text), read: 0, fail_at: ISA.len() + 1 };
    let mut rec = Recorder { calls: Vec::new() };
    match create_edi_streamer(src) {
        Ok(mut pi) => {
            execute_streaming_parser(&mut pi, &mut rec);
            assert!(pi.next().is_none());
        }
        Err(_) => panic!("FAILED TO CREATE PARSER"),
    }
    assert_eq!(rec.calls, vec!["istart(ISA)", "segment(ISA)", "error"]);
}

#[test]
fn create_streamer_reports_short_input() {
    match create_edi_streamer(source("ISA*00")) {
        Ok(_) => panic!("parser created on a truncated ISA"),
        Err(e) => assert!(e.is_unexpected_eof()),
    }
}

#[test]
fn create_streamer_reports_read_failure() {
    let src = FailingSource { inner: source(ISA), read: 0, fail_at: 10 };
    match create_edi_streamer(src) {
        Ok(_) => panic!("parser created over a failing source"),
        Err(e) => assert!(!e.is_unexpected_eof()),
    }
}

use edi_stream::detect_delimiters;
use edi_stream::DelimiterResult;
use edi_stream::ByteSource;
use edi_stream::MemorySource;
use edi_stream::ReadOutcome;

const ISA: &str = "ISA*00*TSI       *01*92511930  *01*ME             *12*BRADLEY        *970815*1732*U*00201*000000050*0*T*>";

fn source(text: &str) -> MemorySource {
    MemorySource::new(text.as_bytes().to_vec())
}

#[test]
fn not_long_enough_for_field_delimiter() {
    let mut ioish = source("");
    let res = detect_delimiters(&mut ioish);
    match res {
        DelimiterResult::DelimiterReadError(e) => assert!(e.is_unexpected_eof()),
        _ => panic!("Delimiters found - should have been an error instead"),
    }
}

#[test]
fn not_long_enough_for_segment_delimiter() {
    let mut ioish = source("ISA*00*TSI       *01*92511930  *01*ME             *12*BRADLEY        *970815*1732*U*00201*000000050*0*T>~");
    let res = detect_delimiters(&mut ioish);
    match res {
        DelimiterResult::DelimiterReadError(e) => assert!(e.is_unexpected_eof()),
        _ => panic!("Delimiters found - should have been an error instead"),
    }
}

#[test]
fn weird_missing_delimiter() {
    let mut ioish = source("ISA*00*TSI       *01*92511930  *01*ME             *12*BRADLEY        *970815*1732*U*00201*000000050*0*T*>ISA");
    let res = detect_delimiters(&mut ioish);
    match res {
        DelimiterResult::DelimiterReadError(e) => assert!(e.is_unexpected_eof()),
        _ => panic!("Delimiters found - should have been an error instead"),
    }
}

#[test]
fn simple_delimiter_set() {
    let mut ioish = source("ISA*00*TSI       *01*92511930  *01*ME             *12*BRADLEY        *970815*1732*U*00201*000000050*0*T*>~");
    let res = detect_delimiters(&mut ioish);
    match res {
        DelimiterResult::DelimiterReadError(_) => panic!("Delimiters not found"),
        DelimiterResult::DelimitersFound(x) => {
            assert_eq!(x.element_delimiter, Vec::from([b'*']));
            assert_eq!(x.segment_delimiter, Vec::from([b'~']));
        }
    }
}

#[test]
fn multibyte_delimiter_set_eof() {
    let mut ioish = source("ISA*00*TSI       *01*92511930  *01*ME             *12*BRADLEY        *970815*1732*U*00201*000000050*0*T*>~\n");
    let res = detect_delimiters(&mut ioish);
    match res {
        DelimiterResult::DelimiterReadError(_) => panic!("Delimiters not found"),
        DelimiterResult::DelimitersFound(x) => {
            assert_eq!(x.element_delimiter, Vec::from([b'*']));
            assert_eq!(x.segment_delimiter, Vec::from([b'~', b'\n']));
        }
    }
}

#[test]
fn multibyte_delimiter_set() {
    let mut ioish = source("ISA*00*TSI       *01*92511930  *01*ME             *12*BRADLEY        *970815*1732*U*00201*000000050*0*T*>~\nIEA");
    let res = detect_delimiters(&mut ioish);
    match res {
        DelimiterResult::DelimiterReadError(_) => panic!("Delimiters not found"),
        DelimiterResult::DelimitersFound(x) => {
            assert_eq!(x.element_delimiter, Vec::from([b'*']));
            assert_eq!(x.segment_delimiter, Vec::from([b'~', b'\n']));
        }
    }
}

#[test]
fn detector_rewinds_source_on_success() {
    let text = format!("{}~\nGS~", ISA);
    let mut ioish = source(&text);
    match detect_delimiters(&mut ioish) {
        DelimiterResult::DelimitersFound(_) => {}
        DelimiterResult::DelimiterReadError(_) => panic!("Delimiters not found"),
    }
    match ioish.read_byte() {
        ReadOutcome::Byte(b) => assert_eq!(b, b'I'),
        _ => panic!("source not rewound"),
    }
}

#[test]
fn detector_accepts_crlf_terminator() {
    let text = format!("{}~\r\nGS~", ISA);
    let mut ioish = source(&text);
    match detect_delimiters(&mut ioish) {
        DelimiterResult::DelimitersFound(x) => {
            assert_eq!(x.segment_delimiter, vec![b'~', b'\r', b'\n']);
        }
        DelimiterResult::DelimiterReadError(_) => panic!("Delimiters not found"),
    }
}

#[test]
fn detector_fails_mid_isa() {
    let mut ioish = source("ISA*00*TSI       *01*92511930");
    match detect_delimiters(&mut ioish) {
        DelimiterResult::DelimiterReadError(e) => assert!(e.is_unexpected_eof()),
        DelimiterResult::DelimitersFound(_) => panic!("Delimiters found - should have been an error instead"),
    }
}

#[test]
fn detector_gives_up_on_overlong_isa() {
    // The sixteenth delimiter is the 214th byte after the first one.
    let mut text = String::from("ISA*");
    text.push_str(&"x".repeat(199));
    text.push_str(&"*".repeat(15));
    text.push_str(">~");
    let mut ioish = source(&text);
    match detect_delimiters(&mut ioish) {
        DelimiterResult::DelimiterReadError(e) => assert!(e.is_unexpected_eof()),
        DelimiterResult::DelimitersFound(_) => panic!("Delimiters found - should have been an error instead"),
    }
}

#[test]
fn detector_accepts_isa_at_read_limit() {
    // The sixteenth delimiter is the 213th byte after the first one.
    let mut text = String::from("ISA*");
    text.push_str(&"x".repeat(198));
    text.push_str(&"*".repeat(15));
    text.push_str(">~");
    let mut ioish = source(&text);
    match detect_delimiters(&mut ioish) {
        DelimiterResult::DelimitersFound(x) => assert_eq!(x.segment_delimiter, vec![b'~']),
        DelimiterResult::DelimiterReadError(_) => panic!("Delimiters not found"),
    }
}

#[test]
fn in_memory_detection_matches_source_detection() {
    for text in [
        format!("{}~", ISA),
        format!("{}~\n", ISA),
        format!("{}~\r\nGS~", ISA),
        format!("{}ISA", ISA),
        String::from(""),
        String::from("ISA"),
        String::from("ISA*00"),
    ] {
        let from_source = detect_delimiters(&mut source(&text));
        let from_memory = edi_stream::detect_delimiters_in(text.as_bytes());
        match (from_source, from_memory) {
            (DelimiterResult::DelimitersFound(a), DelimiterResult::DelimitersFound(b)) => {
                assert_eq!(a.element_delimiter, b.element_delimiter);
                assert_eq!(a.segment_delimiter, b.segment_delimiter);
            }
            (DelimiterResult::DelimiterReadError(a), DelimiterResult::DelimiterReadError(b)) => {
                assert!(a.is_unexpected_eof());
                assert!(b.is_unexpected_eof());
            }
            _ => panic!("detectors disagree on {:?}", text),
        }
    }
}

#[test]
fn in_memory_detection_other_delimiters() {
    let text = ISA.replace('*', "|").replace('>', ":") + "\u{7}GS|1\u{7}";
    match edi_stream::detect_delimiters_in(text.as_bytes()) {
        DelimiterResult::DelimitersFound(x) => {
            assert_eq!(x.element_delimiter, vec![b'|']);
            assert_eq!(x.segment_delimiter, vec![7u8]);
        }
        DelimiterResult::DelimiterReadError(_) => panic!("Delimiters not found"),
    }
}

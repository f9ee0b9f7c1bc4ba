use edi_stream::create_segment_iterator;
use edi_stream::step;
use edi_stream::MemorySource;
use edi_stream::ParserConfig;
use edi_stream::ParserState;
use edi_stream::PState;
use edi_stream::Segment;

fn vectorize_string_for_compare(vec_string: &str) -> Vec<u8> {
    Vec::from(vec_string.as_bytes())
}

fn source(text: &str) -> MemorySource {
    MemorySource::new(text.as_bytes().to_vec())
}

fn all_segments(text: &str, element: &str, segment: &str) -> Vec<Segment> {
    let mut pi = create_segment_iterator(
        source(text),
        element.as_bytes().to_vec(),
        segment.as_bytes().to_vec(),
    );
    let mut out = Vec::new();
    while let Some(r) = pi.next() {
        match r {
            Ok(s) => out.push(s),
            Err(_) => panic!("read failed"),
        }
    }
    out
}

#[test]
fn multi_step_test() {
    let mut ioish = source("ISA");
    let config = ParserConfig {
        segment_delimiter: "~\n".bytes().collect(),
        element_delimiter: "*".bytes().collect(),
    };
    let mut start = ParserState {
        byte_index: 0,
        start_of_last_segment: 0,
        segment_index: 0,
        state: PState::InField,
        current_string: Vec::new(),
        current_field: Vec::new(),
        current_segment: Vec::new(),
    };
    let expected_vec = Vec::from([vectorize_string_for_compare("ISA")]);
    _ = step(&config, &mut start, &mut ioish);
    _ = step(&config, &mut start, &mut ioish);
    _ = step(&config, &mut start, &mut ioish);
    match step(&config, &mut start, &mut ioish) {
        Ok(x) => match x {
            Some(seg) => assert_eq!(seg.fields, expected_vec),
            None => {
                panic!("Error")
            }
        },
        Err(_x) => {
            panic!("Error")
        }
    }
}

#[test]
fn first_iteration_test() {
    let mut pi = create_segment_iterator(
        source("ISA*ABCD~GS"),
        "*".bytes().collect(),
        "~\n".bytes().collect(),
    );
    let result = pi.next();
    match result {
        None => panic!("NOTHING"),
        Some(x) => {
            let expected_vec = Vec::from([
                vectorize_string_for_compare("ISA"),
                vectorize_string_for_compare("ABCD"),
            ]);
            match x {
                Ok(y) => {
                    assert_eq!(y.fields, expected_vec);
                    assert_eq!(y.start_offset, 0);
                    assert_eq!(y.end_offset, 8);
                }
                Err(_) => panic!("Wrong thing"),
            }
        }
    }
}

#[test]
fn segments_carry_tag_raw_offsets_and_index() {
    let segs = all_segments("ISA*AB~GS*C*~", "*", "~");
    assert_eq!(segs.len(), 2);
    assert_eq!(segs[0].tag, b"ISA".to_vec());
    assert_eq!(segs[0].raw, b"ISA*AB~".to_vec());
    assert_eq!((segs[0].start_offset, segs[0].end_offset, segs[0].segment_index), (0, 6, 0));
    // The trailing empty field before the terminator is kept.
    assert_eq!(segs[1].fields, vec![b"GS".to_vec(), b"C".to_vec(), Vec::new()]);
    assert_eq!(segs[1].tag, b"GS".to_vec());
    assert_eq!((segs[1].start_offset, segs[1].end_offset, segs[1].segment_index), (7, 12, 1));
}

#[test]
fn multibyte_terminator_absorbed() {
    let segs = all_segments("ISA*1~\nGS*2~\n", "*", "~\n");
    assert_eq!(segs.len(), 2);
    assert_eq!(segs[0].raw, b"ISA*1~\n".to_vec());
    assert_eq!(segs[0].end_offset, 6);
    assert_eq!(segs[1].tag, b"GS".to_vec());
    assert_eq!(segs[1].start_offset, 7);
    assert_eq!(segs[1].fields, vec![b"GS".to_vec(), b"2".to_vec()]);
    assert_eq!(segs[1].end_offset, 12);
}

#[test]
fn eof_flush_without_terminator() {
    let segs = all_segments("ISA*1~GS*2*X", "*", "~");
    assert_eq!(segs.len(), 2);
    assert_eq!(segs[1].fields, vec![b"GS".to_vec(), b"2".to_vec(), b"X".to_vec()]);
    assert_eq!(segs[1].start_offset, 6);
    assert_eq!(segs[1].end_offset, 11);
}

#[test]
fn empty_input_emits_nothing() {
    let segs = all_segments("", "*", "~");
    assert_eq!(segs.len(), 0);
}

#[test]
fn segment_indices_have_no_gaps() {
    let segs = all_segments("A~B~C~D", "*", "~");
    let idx: Vec<u64> = segs.iter().map(|s| s.segment_index).collect();
    assert_eq!(idx, vec![0, 1, 2, 3]);
    for s in &segs {
        assert_eq!(s.fields[0], s.tag);
        assert!(s.start_offset <= s.end_offset);
    }
}

#[test]
fn rerun_gives_identical_segments() {
    let text = "ISA*1*2~\nGS*3~\nST~SE~GE~IEA";
    let a = all_segments(text, "*", "~\n");
    let b = all_segments(text, "*", "~\n");
    assert_eq!(a.len(), b.len());
    for (x, y) in a.iter().zip(b.iter()) {
        assert_eq!(x.fields, y.fields);
        assert_eq!(x.raw, y.raw);
        assert_eq!(x.tag, y.tag);
        assert_eq!((x.start_offset, x.end_offset, x.segment_index), (y.start_offset, y.end_offset, y.segment_index));
    }
}

#[test]
fn producer_is_fused_after_end() {
    let mut pi = create_segment_iterator(source("ISA~"), b"*".to_vec(), b"~".to_vec());
    assert!(matches!(pi.next(), Some(Ok(_))));
    assert!(pi.next().is_none());
    assert!(pi.next().is_none());
}

use ruvsim::sim_parser::Parser;
use ruvsim::sim_types::LineType;

#[test]
fn parse_chunk_trim_and_filter() {
    let chunk = "  line1\n\nline2  \n   \n#comment\n";
    let lines = Parser::parse_chunk_lines(chunk);
    assert_eq!(
        lines,
        vec![
            "line1".to_string(),
            "line2".to_string(),
            "#comment".to_string()
        ]
    );
}

#[test]
fn new_with_reader_reads_lines_and_classifies() {
    let data = "Hello world\n# comment\nVSIM 5>\n";
    let mut parser = Parser::from_output_bytes(data.as_bytes());

    let mut got = 0;
    for _ in 0..10 {
        if parser.get_next_line().unwrap() {
            got += 1;
        } else {
            break;
        }
    }

    assert!(got >= 3, "expected at least 3 lines parsed, got {}", got);

    let parsed = parser.parsed_buffer();
    assert_eq!(parsed.len(), got as usize);

    assert_eq!(parsed[0].content, "Hello world");
    assert!(matches!(parsed[1].line_type, LineType::Log));
    assert!(matches!(parsed[2].line_type, LineType::Prompt));
}

fn lines(v: &[&str]) -> Vec<String> {
    v.iter().map(|s| s.to_string()).collect()
}

#[test]
fn prompt_search_takes_lines_up_to_the_prompt() {
    let mut p = Parser::from_lines(lines(&["hello", "# note", "VSIM 3>", "after"]));
    let prompt = p.get_next_prompt().unwrap().unwrap();
    assert_eq!(prompt.line, "VSIM 3>");
    assert_eq!(prompt.suffix, "3");
    assert_eq!(p.parsed_buffer().len(), 3);
    assert_eq!(p.latest_buffer(), &vec![0usize, 1, 2]);

    // The next search starts after the prompt and finds none.
    assert!(p.get_next_prompt().unwrap().is_none());
    assert_eq!(p.parsed_buffer().len(), 4);
    assert_eq!(p.latest_buffer(), &vec![3usize]);
    assert!(!p.get_next_line().unwrap());
}

#[test]
fn prompt_search_stops_at_the_exit_banner() {
    let mut p = Parser::from_lines(lines(&[
        "x",
        "# End time: 1 ns, Elapsed time: 0:0:0",
        "VSIM 1>",
    ]));
    assert!(p.get_next_prompt().unwrap().is_none());
    assert_eq!(p.parsed_buffer().len(), 2);
    assert!(matches!(p.parsed_buffer()[1].line_type, LineType::Exit));
}

#[test]
fn chunks_queue_their_lines() {
    let mut p = Parser::from_lines(Vec::new());
    p.feed_chunk("  a  \n\n b\n");
    p.feed_chunk("VSIM 7>\n");
    assert!(p.get_next_line().unwrap());
    assert_eq!(p.parsed_buffer()[0].content, "a");
    let prompt = p.get_next_prompt().unwrap().unwrap();
    assert_eq!(prompt.suffix, "7");
    assert_eq!(p.parsed_buffer().len(), 3);
    assert_eq!(p.parsed_buffer()[1].content, "b");
}

#[test]
fn output_bytes_are_cut_per_read() {
    let p = Parser::from_output_bytes(b"one\ntwo\n");
    let mut p = p;
    assert!(p.get_next_line().unwrap());
    assert!(p.get_next_line().unwrap());
    assert!(!p.get_next_line().unwrap());
    assert_eq!(p.parsed_buffer()[1].content, "two");

    // A line split across two reads of 4096 bytes comes out as two lines.
    let mut data = vec![b'a'; 4095];
    data.extend_from_slice(b"bc\n");
    let mut p = Parser::from_output_bytes(&data);
    let mut n = 0;
    while p.get_next_line().unwrap() {
        n += 1;
    }
    assert_eq!(n, 2);
    assert_eq!(p.parsed_buffer()[0].content.len(), 4096);
    assert!(p.parsed_buffer()[0].content.ends_with("ab"));
    assert_eq!(p.parsed_buffer()[1].content, "c");
}

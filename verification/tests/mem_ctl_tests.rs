use ruvsim::sim_ctl::mem_ctl::MemCtl;
use ruvsim::sim_types::{ParsedLine, SimError, SimMemory, SimSignalBounds};

fn mem(name: &str, width: usize) -> SimMemory {
    SimMemory { name: name.to_string(), size: SimSignalBounds { left: 0, right: 3 }, width }
}

#[test]
fn memories_come_from_the_listing() {
    assert_eq!(MemCtl::list_command(), "mem list -r");
    let mut ctl = MemCtl::new();
    assert!(ctl.memories().is_empty());
    ctl.refresh(&[
        ParsedLine::new("# Verilog: /tb/mem [0:63] x 8 w"),
        ParsedLine::new("# something else"),
        ParsedLine::new("# Verilog: /tb/rom [15:0] x 32 w"),
    ]);
    let names: Vec<String> = ctl.memories_copy().into_iter().map(|m| m.name).collect();
    assert_eq!(names, vec!["/tb/mem", "/tb/rom"]);
    assert_eq!(ctl.memories()[1].width, 32);
}

#[test]
fn writes_force_one_bit_each() {
    let cmds = MemCtl::write_commands(&mem("/tb/mem", 8), 0, &vec![0x81]);
    assert_eq!(cmds.len(), 8);
    assert_eq!(cmds[0], "force -freeze /tb/mem[0][0] 1");
    assert_eq!(cmds[1], "force -freeze /tb/mem[0][1] 0");
    assert_eq!(cmds[7], "force -freeze /tb/mem[0][7] 1");

    let cmds = MemCtl::write_commands(&mem("/tb/mem", 4), 2, &vec![0x01, 0x80]);
    assert_eq!(cmds.len(), 16);
    // Bit 0 of the number is bit 0 of the last byte, at position 2.
    assert_eq!(cmds[0], "force -freeze /tb/mem[0][2] 0");
    assert_eq!(cmds[7], "force -freeze /tb/mem[2][1] 1");
    assert_eq!(cmds[8], "force -freeze /tb/mem[2][2] 1");

    let cmds = MemCtl::write_commands(&mem("/tb/bits", 1), 3, &vec![0x02]);
    assert_eq!(cmds[1], "force -freeze /tb/bits[4] 1");
    assert!(MemCtl::write_commands(&mem("/tb/mem", 8), 0, &Vec::new()).is_empty());
}

#[test]
fn reads_ask_for_the_display_on_one_line() {
    assert_eq!(
        MemCtl::read_command(&mem("/tb/mem", 8)),
        "puts \"MEM_DATA:[string map {\\n ;} [mem display /tb/mem]]\\n\""
    );
}

#[test]
fn displayed_words_read_back_low_byte_first() {
    let buf = vec![
        ParsedLine::new("MEM_DATA:0: 00AABBCC DDEEFF00"),
        ParsedLine::new("VSIM 2>"),
    ];
    assert_eq!(
        MemCtl::read_output(&buf).unwrap(),
        vec![0xcc, 0xbb, 0xaa, 0x00, 0x00, 0xff, 0xee, 0xdd]
    );
    let buf = vec![ParsedLine::new("MEM_DATA:0: xz1f;2: abc")];
    assert_eq!(MemCtl::read_output(&buf).unwrap(), vec![0x1f, 0x00, 0x0c, 0xab]);
    let buf = vec![
        ParsedLine::new("MEM_DATA:0: 11"),
        ParsedLine::new("MEM_DATA:0: 22"),
    ];
    assert_eq!(MemCtl::read_output(&buf).unwrap(), vec![0x22]);
}

#[test]
fn bad_digits_are_reported() {
    let buf = vec![ParsedLine::new("MEM_DATA:0: 0g")];
    match MemCtl::read_output(&buf) {
        Err(SimError::CommandError(m)) => {
            let e = u8::from_str_radix("0g", 16).unwrap_err();
            assert_eq!(m, format!("Failed to parse byte from memory data: {}", e));
        }
        _ => panic!("expected a parse failure"),
    }
}

#[test]
fn split_characters_are_reported() {
    // `é` takes two bytes; read two at a time from the end, the last byte
    // stands alone and is no UTF-8 text.
    let buf = vec![ParsedLine::new("MEM_DATA:0: aé")];
    match MemCtl::read_output(&buf) {
        Err(SimError::CommandError(m)) => {
            let e = std::str::from_utf8(&[0xa9u8]).unwrap_err();
            assert_eq!(m, format!("Invalid UTF-8 in memory data: {}", e));
        }
        _ => panic!("expected a decoding failure"),
    }
}

#[test]
fn no_display_answer_is_an_error() {
    let buf = vec![ParsedLine::new("# MEM_DATA:0: 11"), ParsedLine::new("VSIM 1>")];
    match MemCtl::read_output(&buf) {
        Err(SimError::CommandError(m)) => assert_eq!(m, "No answer starting with MEM_DATA:"),
        _ => panic!("expected a missing answer"),
    }
}

#[test]
fn memory_data_needs_an_address_in_every_piece() {
    let good = vec![ParsedLine::new("MEM_DATA:0: 00AA;4: BBCC"), ParsedLine::new("VSIM 2>")];
    assert!(MemCtl::read_output_addressed(&good));
    let bad = vec![ParsedLine::new("MEM_DATA:0: 00AA;BBCC"), ParsedLine::new("VSIM 2>")];
    assert!(!MemCtl::read_output_addressed(&bad));
    let none = vec![ParsedLine::new("VSIM 2>")];
    assert!(MemCtl::read_output_addressed(&none));
}

#[test]
fn writes_must_keep_every_bit_address_in_range() {
    let m = mem("/tb/mem", 8);
    assert!(MemCtl::write_allowed(&m, 0, &vec![1, 2]));
    assert!(MemCtl::write_allowed(&m, usize::MAX - 15, &vec![1, 2]));
    assert!(!MemCtl::write_allowed(&m, usize::MAX - 14, &vec![1, 2]));
    assert!(MemCtl::write_allowed(&mem("/tb/none", 0), 5, &vec![]));
    assert!(!MemCtl::write_allowed(&mem("/tb/none", 0), 5, &vec![7]));
    assert_eq!(MemCtl::write_commands(&m, usize::MAX - 7, &vec![1]).len(), 8);
}

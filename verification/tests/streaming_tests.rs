//! Tests of the streaming dump: a `Hexdump` is fed one line's bytes at a
//! time, as a bounded reader would supply them.

use hexdump_rust::args::Args;
use hexdump_rust::hexdump::Hexdump;

/// The bytes of a four-byte file holding the text `1234`.
fn small_input() -> Vec<u8> {
    vec![0x31, 0x32, 0x33, 0x34]
}

/// The bytes of a 256-byte file: every byte value once, in order.
fn file_256b() -> Vec<u8> {
    let mut v: Vec<u8> = Vec::new();
    let mut b: u16 = 0;
    while b < 256 {
        v.push(b as u8);
        b += 1;
    }
    v
}

/// The text of a printable-ASCII file: no control characters at all.
fn ascii_text() -> &'static str {
    "hello world. this file is printable ascii text for the dump tests."
}

/// Drives a `Hexdump` over the given file contents, returning the rendered
/// lines; mirrors a reader that seeks to `start` and reads line by line.
fn run_lines(args: Args, content: &[u8]) -> Result<Vec<String>, hexdump_rust::hexdump::LengthError> {
    let start = args.start as usize;
    let mut hd = Hexdump::new(args, content.len() as u64)?;
    let mut pos = start;
    let mut lines = Vec::new();
    while hd.has_next() {
        let n = hd.next_len();
        let buf = content[pos..pos + n].to_vec();
        lines.push(hd.read_next(&buf));
        pos += n;
    }
    Ok(lines)
}

/// Test: Core functionality
///  Brute force checks a small file to see if the bytes printed
///  match that of the contents
#[test]
fn tests_test_small_input() {
    // All defaults
    let args = Args {
        file: "src/test-small-input.bin".to_string(),
        ..Default::default()
    };

    let content = small_input();
    let mut hd = Hexdump::new(args, content.len() as u64).unwrap();
    assert!(hd.has_next());
    let n = hd.next_len();
    assert_eq!("00000000  3132 3334 ", hd.read_next(&content[0..n].to_vec()).as_str());
    assert!(!hd.has_next());
}

/// Test: Core functionality
///  To verify that the offset values are correct, enumerate the
///  lines and check if the offsets are all multiples of 16
#[test]
fn tests_test_offset() {
    // All defaults
    let args = Args {
        file: "src/test-256B.bin".to_string(),
        ..Default::default()
    };

    let lines = run_lines(args, &file_256b()).unwrap();

    let mut calculated_offset = 0;

    for line in lines {
        let offset = line.split("  ").collect::<Vec<&str>>()[0];
        // Format the current offset to 8-digit Hex with zeros as padding & compare
        assert_eq!(format!("{:08x}", calculated_offset), offset);
        calculated_offset += 16;
    }
}

// Test: -n flag
// Request 65 out of the full 256 bytes. Then just check to make sure that the last
// offset line reads 64 (0x00000040) and that the last line has only 1 byte.
#[test]
fn tests_test_custom_length() {
    // -n 65
    let args = Args {
        file: "src/test-256B.bin".to_string(),
        num: Some(65),
        ..Default::default()
    };

    let total = run_lines(args, &file_256b()).unwrap();
    let last_line = total.last().unwrap().trim();
    let (offset, vals) = last_line.split_once("  ").unwrap();
    assert_eq!(format!("{:08x}", 64), offset);
    assert_eq!(2, vals.len());
}

/// Test: -t flag
/// Hexdump a text file and verify the string built by the
/// translation matches that of the text file.
#[test]
fn tests_test_translate() {
    // -t
    let args = Args {
        file: "src/test-ASCII.txt".to_string(),
        translate: true,
        ..Default::default()
    };

    let output = run_lines(args, ascii_text().as_bytes()).unwrap();

    // Find all characters located within | | and collect them into a string.
    let translated_string: String = output
        .iter()
        .map(|line| line.split('|').collect::<Vec<&str>>()[1])
        .collect();

    assert_eq!(ascii_text(), translated_string);
}

/// Test: -o flag
/// Ensure that offset is not present in output.
/// This can be done via brute force with small input.
#[test]
fn tests_test_no_offset() {
    // -o
    let args = Args {
        file: "src/test-small-input.bin".to_string(),
        offset: false,
        ..Default::default()
    };

    let content = small_input();
    let mut hd = Hexdump::new(args, content.len() as u64).unwrap();
    let n = hd.next_len();
    assert_eq!("3132 3334 ", hd.read_next(&content[0..n].to_vec()).as_str());
}

/// Test: -c flag
/// Ensure that there are chunks of length 1 byte each.
/// Also check that total number of bytes matches length of file.
/// (Disables offset for simplicity)
#[test]
fn tests_test_chunk_size() {
    // -o -c 1
    let args = Args {
        file: "src/test-ASCII.txt".to_string(),
        chunk_size: 1,
        offset: false,
        ..Default::default()
    };

    let file_len = ascii_text().len() as u64;
    let output: String = run_lines(args, ascii_text().as_bytes())
        .unwrap()
        .iter()
        .map(|line| format!("{}\n", line))
        .collect();

    let all_chunks_str: String = output.trim().split('\n').collect();
    let all_chunks_vec: Vec<&str> = all_chunks_str.split(' ').collect();

    // Assert that size of file == number of chunks
    assert_eq!(file_len, all_chunks_vec.len() as u64);

    // Assert each chunk is 1 byte (2 ASCIIs)
    all_chunks_vec
        .iter()
        .for_each(|&chunk| assert_eq!(2, chunk.len()));
}

/// Test: -w flag
/// Ensure each line has only 8 bytes instead of 16
/// (Disables offset for simplicity)
#[test]
fn tests_test_width() {
    // -o -w 8
    let args = Args {
        file: "src/test-256B.bin".to_string(),
        width: 8,
        offset: false,
        ..Default::default()
    };

    run_lines(args, &file_256b()).unwrap().iter().for_each(|line| {
        let joined: String = line.split(' ').collect();
        assert_eq!(16, joined.len());
    });
}

/// Test: -s flag
/// Ensure that the first bytes read "world".
/// (Disables offset for simplicity)
#[test]
fn tests_test_start_offset() {
    // -o -s 6
    let args = Args {
        file: "src/test-ASCII.txt".to_string(),
        start: 6,
        offset: false,
        ..Default::default()
    };

    let output: String = run_lines(args, ascii_text().as_bytes()).unwrap().concat();

    // Assert output starts with "world"
    assert!(output.starts_with("776f 726c 642e"));
}

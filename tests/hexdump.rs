use hexdump::{hexdump_iter, sanitize_byte, Line};
use std::collections::HashSet;
use std::convert::TryFrom;

const CHUNK_LENGTH: usize = 16;

fn forward(bytes: &[u8]) -> Vec<String> {
    let mut it = hexdump_iter(bytes);
    let mut out = Vec::new();
    while let Some(line) = it.next() {
        out.push(line.as_str().to_string());
    }
    out
}

fn alternating(bytes: &[u8]) -> Vec<String> {
    let mut it = hexdump_iter(bytes);
    let mut front = Vec::new();
    let mut back = Vec::new();
    let mut from_front = true;
    loop {
        let next = if from_front { it.next() } else { it.next_back() };
        match next {
            Some(line) => {
                if from_front {
                    front.push(line.as_str().to_string());
                } else {
                    back.push(line.as_str().to_string());
                }
            }
            None => break,
        }
        from_front = !from_front;
    }
    back.reverse();
    front.extend(back);
    front
}

fn length(bytes: Vec<u8>) -> bool {
    let len = hexdump_iter(b"").next().unwrap().len();
    forward(&bytes).iter().all(|s| s.len() == len)
}

fn ascii_only_no_cc(bytes: Vec<u8>) -> bool {
    forward(&bytes).iter().all(|s| s.bytes().all(|b| 0x20 <= b && b < 0x7f))
}

fn summary(bytes: Vec<u8>) -> bool {
    let lines = forward(&bytes);
    usize::from_str_radix(lines.last().unwrap().trim(), 16).ok() == Some(bytes.len())
}

fn chars_existent(bytes: Vec<u8>) -> bool {
    let printable_chars: HashSet<_> = bytes
        .iter()
        .filter(|&&b| 0x20 <= b && b < 0x7f)
        .map(|&b| b as char)
        .collect();
    let lines = forward(&bytes);
    let printed_chars: HashSet<_> = lines.iter().flat_map(|l| l.chars()).collect();
    printable_chars.is_subset(&printed_chars)
}

fn line_count(bytes: Vec<u8>) -> bool {
    let expected = (bytes.len() + CHUNK_LENGTH - 1) / CHUNK_LENGTH + 1;
    hexdump_iter(&bytes).len() == expected && forward(&bytes).len() == expected
}

fn both_ends(bytes: Vec<u8>) -> bool {
    alternating(&bytes) == forward(&bytes)
}

#[test]
fn test_sanitize_byte() {
    for i in 0..256u16 {
        let i = u8::try_from(i).unwrap();
        assert!(sanitize_byte(i) == '.' || sanitize_byte(i) == i as char);
    }
}

#[test]
fn sanitize_byte_edges() {
    assert_eq!(sanitize_byte(b' '), ' ');
    assert_eq!(sanitize_byte(b'~'), '~');
    assert_eq!(sanitize_byte(0x1f), '.');
    assert_eq!(sanitize_byte(0x7f), '.');
    assert_eq!(sanitize_byte(0x00), '.');
    assert_eq!(sanitize_byte(0xff), '.');
    assert_eq!(sanitize_byte(b'A'), 'A');
}

#[test]
fn quickcheck_length() {
    quickcheck::quickcheck(length as fn(Vec<u8>) -> bool);
}

#[test]
fn quickcheck_ascii_only_no_cc() {
    quickcheck::quickcheck(ascii_only_no_cc as fn(Vec<u8>) -> bool);
}

#[test]
fn quickcheck_summary() {
    quickcheck::quickcheck(summary as fn(Vec<u8>) -> bool);
}

#[test]
fn quickcheck_chars_existent() {
    quickcheck::quickcheck(chars_existent as fn(Vec<u8>) -> bool);
}

#[test]
fn quickcheck_line_count() {
    quickcheck::quickcheck(line_count as fn(Vec<u8>) -> bool);
}

#[test]
fn quickcheck_both_ends() {
    quickcheck::quickcheck(both_ends as fn(Vec<u8>) -> bool);
}

#[test]
fn example_dump() {
    let lines = forward(b"12345\0\r\n\t .abcdef");
    assert_eq!(
        lines,
        vec![
            "|31323334 35000d0a 09202e61 62636465| 12345.... .abcde 00000000".to_string(),
            "|66|                                  f                00000010".to_string(),
            "                                                       00000011".to_string(),
        ]
    );
}

#[test]
fn empty_input() {
    let mut it = hexdump_iter(b"");
    assert_eq!(it.len(), 1);
    let line = it.next().unwrap();
    assert_eq!(line.as_str().trim(), "00000000");
    assert_eq!(line.len(), 63);
    assert!(it.next().is_none());
    assert!(it.next_back().is_none());
    assert_eq!(it.len(), 0);
}

#[test]
fn exact_chunk_boundary() {
    let bytes: Vec<u8> = (0u8..32).collect();
    let lines = forward(&bytes);
    assert_eq!(lines.len(), 3);
    assert_eq!(
        lines[0],
        "|00010203 04050607 08090a0b 0c0d0e0f| ................ 00000000"
    );
    assert_eq!(
        lines[1],
        "|10111213 14151617 18191a1b 1c1d1e1f| ................ 00000010"
    );
    assert_eq!(
        lines[2],
        "                                                       00000020"
    );
}

#[test]
fn short_chunk_spanning_groups() {
    let lines = forward(b"ABCDEFGHI");
    assert_eq!(
        lines[0],
        "|41424344 45464748 49|                ABCDEFGHI        00000000"
    );
    assert_eq!(lines[0].len(), lines[1].len());
}

#[test]
fn group_boundary_lengths() {
    let lines = forward(b"wxyz");
    assert_eq!(
        lines[0],
        "|7778797a|                            wxyz             00000000"
    );
    let lines = forward(b"wxyzv");
    assert_eq!(
        lines[0],
        "|7778797a 76|                         wxyzv            00000000"
    );
}

#[test]
fn back_first_gives_summary() {
    let bytes = b"12345\0\r\n\t .abcdef";
    let mut it = hexdump_iter(bytes);
    assert_eq!(it.size_hint(), (3, Some(3)));
    let last = it.next_back().unwrap();
    assert_eq!(last.as_str().trim(), "00000011");
    let second = it.next_back().unwrap();
    assert!(second.as_str().ends_with("00000010"));
    assert_eq!(it.len(), 1);
    let first = it.next().unwrap();
    assert!(first.as_str().starts_with("|31323334"));
    assert!(it.next().is_none());
    assert!(it.next_back().is_none());
}

#[test]
fn alternating_pulls_match_forward() {
    let bytes: Vec<u8> = (0u8..=200).collect();
    assert_eq!(alternating(&bytes), forward(&bytes));
}

#[test]
fn line_clone_keeps_text() {
    let line: Line = hexdump_iter(b"hi").next().unwrap();
    let copy = line.clone();
    assert_eq!(copy.as_str(), line.as_str());
    assert_eq!(copy.as_str(), "|6869|                                hi               00000000");
}

//! What replies and listings say.

use aftp::answers::{
    checked_file_size, checked_modification_time, checked_passive_address, current_directory,
    extend_listing, file_size, modification_time, passive_address,
};
use aftp::data_stream::DataStream;
use aftp::patterns::{find_passive, find_time_stamp, find_trailing_number};
use aftp::reply::{can_cut, has_code, take_line, unexpected_reply, Fed, Head};
use aftp::text::{chars_of, decimal_string, parse_unsigned, string_of};
use aftp::types::{FtpError, SocketAddress};

fn strings(items: &[&str]) -> Vec<String> {
    items.iter().map(|s| s.to_string()).collect()
}

fn lines_of(text: &str) -> Vec<String> {
    let mut lines = Vec::new();
    extend_listing(&mut lines, text);
    lines
}

#[test]
fn passive_groups_are_found() {
    let groups = strings(&["127", "0", "0", "1", "195", "80"]);
    assert_eq!(find_passive("227 Ok (127,0,0,1,195,80)."), Some(groups.clone()));
    // the leftmost complete one counts
    assert_eq!(
        find_passive("(1,2) ((127,0,0,1,195,80) (9,9,9,9,9,9)"),
        Some(groups)
    );
    assert_eq!(find_passive("127,0,0,1,195,80"), None);
    assert_eq!(find_passive("(127, 0, 0, 1, 195, 80)"), None);
    assert_eq!(find_passive("(127,0,0,1,195)"), None);
    assert_eq!(find_passive("(127,0,0,1,195,80,3)"), None);
    // digits of other scripts are found
    assert_eq!(
        find_passive("(\u{661},2,3,4,5,\u{1e959})"),
        Some(strings(&["\u{661}", "2", "3", "4", "5", "\u{1e959}"]))
    );
}

#[test]
fn passive_addresses() {
    let read = |line: &str| checked_passive_address(line).unwrap().unwrap();
    assert_eq!(
        read("227 Entering Passive Mode (172,25,82,139,4,1)."),
        SocketAddress { h1: 172, h2: 25, h3: 82, h4: 139, port: 1025 }
    );
    assert_eq!(
        read("(0,00,000,255,255,255)"),
        SocketAddress { h1: 0, h2: 0, h3: 0, h4: 255, port: 65535 }
    );
    assert!(checked_passive_address("(1,2,3,4,5,256)").is_none());
    assert!(checked_passive_address("(1,2,3,4,5,\u{661})").is_none());
    match checked_passive_address("227 none") {
        Some(Err(FtpError::InvalidResponse(message))) => {
            assert_eq!(message, "Invalid PASV response: 227 none")
        }
        other => panic!("{:?}", other),
    }
}

#[test]
fn passive_address_of_given_groups() {
    let found = Some(strings(&["10", "20", "30", "40", "1", "2"]));
    assert_eq!(
        passive_address("", &found).unwrap(),
        SocketAddress { h1: 10, h2: 20, h3: 30, h4: 40, port: 258 }
    );
    assert!(passive_address("x", &None).is_err());
}

#[test]
fn time_stamps_are_found() {
    let groups = strings(&["2020", "01", "02", "03", "04", "05"]);
    assert_eq!(find_time_stamp("213 20200102030405\r\n"), Some(groups.clone()));
    assert_eq!(find_time_stamp("20200102030405"), Some(groups.clone()));
    assert_eq!(find_time_stamp("213 20200102030405.123\r\n"), Some(groups.clone()));
    // other word characters must not touch it
    assert_eq!(find_time_stamp("213 x20200102030405\r\n"), None);
    assert_eq!(find_time_stamp("213 20200102030405_\r\n"), None);
    assert_eq!(find_time_stamp("213 202001020304056\r\n"), None);
    assert_eq!(find_time_stamp("213 2020010203040\r\n"), None);
    assert_eq!(find_time_stamp("213 \u{e9}20200102030405\r\n"), None);
    assert_eq!(find_time_stamp("213 \u{661}20200102030405\r\n"), None);
    assert_eq!(find_time_stamp("213 \u{20ac}20200102030405\r\n"), Some(groups));
}

#[test]
fn modification_times() {
    let read = |content: &str| checked_modification_time(content);
    assert_eq!(read("213 19700101000000\r\n"), Some(Some(0)));
    assert_eq!(read("213 20010909014640\r\n"), Some(Some(1_000_000_000)));
    assert_eq!(read("213 20000229235959\r\n"), Some(Some(951_868_799)));
    assert_eq!(read("213 19691231235959\r\n"), Some(Some(-1)));
    assert_eq!(read("213 99991231235959\r\n"), Some(Some(253_402_300_799)));
    assert_eq!(read("213 00000101000000\r\n"), Some(Some(-62_167_219_200)));
    assert_eq!(read("213 never\r\n"), Some(None));
    assert_eq!(read("213 20010229000000\r\n"), None);
    assert_eq!(read("213 19000229000000\r\n"), None);
    assert_eq!(read("213 20011301000000\r\n"), None);
    assert_eq!(read("213 20010100000000\r\n"), None);
    assert_eq!(read("213 20010101240000\r\n"), None);
    assert_eq!(read("213 20010101006000\r\n"), None);
    assert_eq!(read("213 20010101000060\r\n"), None);
    assert_eq!(read("213 \u{662}0010101000000\r\n"), None);
}

#[test]
fn modification_time_of_given_groups() {
    let found = Some(strings(&["1970", "01", "02", "00", "00", "01"]));
    assert_eq!(modification_time(&found), Some(86401));
    assert_eq!(modification_time(&None), None);
}

#[test]
fn trailing_numbers_are_found() {
    assert_eq!(find_trailing_number("213 42\r\n"), Some(strings(&["42"])));
    assert_eq!(find_trailing_number("213 \t 42"), Some(strings(&["42"])));
    assert_eq!(find_trailing_number("213 1 42 \r\n"), Some(strings(&["42"])));
    assert_eq!(find_trailing_number("213\u{a0}42\u{3000}"), Some(strings(&["42"])));
    assert_eq!(find_trailing_number("213 \u{661}"), Some(strings(&["\u{661}"])));
    assert_eq!(find_trailing_number("42"), None);
    assert_eq!(find_trailing_number("213 42 bytes\r\n"), None);
    assert_eq!(find_trailing_number("213 x42\r\n"), None);
}

#[test]
fn file_sizes() {
    assert_eq!(checked_file_size("213 0\r\n"), Some(Some(0)));
    assert_eq!(checked_file_size("213 007\r\n"), Some(Some(7)));
    assert_eq!(checked_file_size("213 4294967295\r\n"), Some(Some(4294967295)));
    assert_eq!(
        checked_file_size(&format!("213 {}\r\n", usize::MAX)),
        Some(Some(usize::MAX))
    );
    assert_eq!(checked_file_size("213 18446744073709551616\r\n"), None);
    assert_eq!(checked_file_size("213 \u{661}\r\n"), None);
    assert_eq!(checked_file_size("213 -1\r\n"), Some(None));
    assert_eq!(file_size(&Some(strings(&["12"]))), Some(12));
    assert_eq!(file_size(&None), None);
}

#[test]
fn directories() {
    assert_eq!(current_directory("257 \"/a\" x\r\n").unwrap(), "/a");
    assert_eq!(current_directory("257 \"/\"\r\n").unwrap(), "/");
    assert_eq!(current_directory("257 \"\"\r\n").unwrap(), "");
    assert_eq!(current_directory("257 \"a\"b\"c\"\r\n").unwrap(), "a\"b\"c");
    assert_eq!(current_directory("257 \"/\u{e9}\u{1f600}\"\r\n").unwrap(), "/\u{e9}\u{1f600}");
    for content in ["257 \"/a\r\n", "257 /a\r\n", ""] {
        match current_directory(content) {
            Err(FtpError::InvalidResponse(message)) => {
                assert_eq!(message, format!("Invalid PWD Response: {}", content))
            }
            other => panic!("{:?}", other),
        }
    }
}

#[test]
fn lines_of_listings() {
    assert_eq!(lines_of("a\r\nb\r\n"), strings(&["a", "b"]));
    assert_eq!(lines_of("a\r\nb"), strings(&["a", "b"]));
    assert_eq!(lines_of("\r\n\r\na\r\n\r\n"), strings(&["a"]));
    assert_eq!(lines_of(""), strings(&[]));
    assert_eq!(lines_of("a\nb\rc\r\r\nd\n\r"), strings(&["a\nb\rc\r", "d\n\r"]));
    assert_eq!(lines_of("\u{e9}\r\n\u{20ac}"), strings(&["\u{e9}", "\u{20ac}"]));
    let mut lines = strings(&["before"]);
    extend_listing(&mut lines, "x\r\ny");
    assert_eq!(lines, strings(&["before", "x", "y"]));
}

#[test]
fn lines_of_a_reply() {
    let head = Head { b1: 50, b2: 50, b3: 48, code: 220 };
    assert!(matches!(take_line(None, "220-a\r\n".to_string()), Fed::More(h) if h == head));
    assert!(matches!(take_line(Some(head), "221 a\r\n".to_string()), Fed::More(h) if h == head));
    match take_line(Some(head), "220 a\r\n".to_string()) {
        Fed::Complete(line) => {
            assert_eq!(line.0, 220);
            assert_eq!(line.1, "220 a\r\n");
        }
        other => panic!("{:?}", other),
    }
    assert!(matches!(
        take_line(None, "220".to_string()),
        Fed::Broken(FtpError::InvalidResponse(_))
    ));
    assert!(can_cut(None, "\u{e9}\u{e9}"));
    assert!(!can_cut(None, "\u{e9}\u{e9}a"));
    assert!(can_cut(Some(head), "\u{e9}\u{e9}a"));
    assert!(!can_cut(Some(head), "a\u{e9}\u{e9}"));
}

#[test]
fn codes() {
    assert!(has_code(&vec![1, 2, 3], 3));
    assert!(!has_code(&vec![1, 2, 3], 4));
    assert!(!has_code(&vec![], 0));
    match unexpected_reply(&vec![1, 20, 4294967295], "x") {
        FtpError::InvalidResponse(message) => {
            assert_eq!(message, "Expected code [1, 20, 4294967295], got response: x")
        }
        other => panic!("{:?}", other),
    }
}

#[test]
fn numerals() {
    assert_eq!(decimal_string(0), "0");
    assert_eq!(decimal_string(1000), "1000");
    assert_eq!(decimal_string(u32::MAX), "4294967295");
    assert_eq!(parse_unsigned("255", 255), Some(255));
    assert_eq!(parse_unsigned("256", 255), None);
    assert_eq!(parse_unsigned("+7", 255), Some(7));
    assert_eq!(parse_unsigned("000000000000000000000000000001", 1), Some(1));
    assert_eq!(parse_unsigned("18446744073709551615", u64::MAX), Some(u64::MAX));
    assert_eq!(parse_unsigned("18446744073709551616", u64::MAX), None);
    for s in ["", "+", "-1", " 1", "1 ", "++1", "\u{661}"] {
        assert_eq!(parse_unsigned(s, 255), None);
    }
}

#[test]
fn characters() {
    let chars = chars_of("a\u{e9}b");
    assert_eq!(chars, vec!['a', '\u{e9}', 'b']);
    assert_eq!(string_of(&chars, 1, 3), "\u{e9}b");
    assert_eq!(string_of(&chars, 2, 2), "");
}

#[test]
fn data_streams() {
    let plain: DataStream<u8, (u8, bool)> = DataStream::Tcp(1);
    assert!(!plain.is_ssl());
    assert_eq!(*plain.get_ref(|s| &s.0), 1);
    assert_eq!(plain.into_tcp_stream(), Some(1));
    let secured: DataStream<u8, (u8, bool)> = DataStream::Ssl((2, true));
    assert!(secured.is_ssl());
    assert_eq!(*secured.get_ref(|s| &s.0), 2);
    assert_eq!(secured.into_tcp_stream(), None);
}

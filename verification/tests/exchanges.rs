//! Exchanges, event by event.

use std::io::{Error, ErrorKind};

use aftp::exchange::{Action, Event, Exchange, Outcome, Progress};
use aftp::ftp::FtpStream;
use aftp::types::{FileType, FormatControl, FtpError, SocketAddress};

fn line(text: &str) -> Event {
    Event::Line(text.to_string())
}

fn text(text: &str) -> Event {
    Event::Text(text.to_string())
}

/// Starts the exchange and tells it of the events: what it asks for on the way,
/// and how it ends, if it does.
fn play(exchange: Exchange, events: Vec<Event>) -> (Vec<String>, Option<Result<Outcome, FtpError>>) {
    let mut asked = Vec::new();
    let mut events = events.into_iter();
    let mut step = exchange.advance(Event::Start).expect("started");
    loop {
        match step {
            Progress::Perform(action, next) => {
                asked.push(spelling(action));
                match events.next() {
                    Some(event) => step = next.advance(event).expect("a way on"),
                    None => return (asked, None),
                }
            }
            Progress::Done(result) => {
                assert!(events.next().is_none(), "ended before the last event");
                return (asked, Some(result));
            }
        }
    }
}

/// Plays all events, of which the last has no way on.
fn is_stuck(exchange: Exchange, events: Vec<Event>) -> bool {
    let mut step = exchange.advance(Event::Start);
    for event in events {
        step = match step {
            Some(Progress::Perform(_, next)) => next.advance(event),
            _ => panic!("ended before the last event"),
        };
    }
    step.is_none()
}

fn spelling(action: Action) -> String {
    match action {
        Action::Send(text) => text,
        Action::OpenData(address) => format!("open {}", address.to_string()),
        other => format!("{:?}", other),
    }
}

fn session() -> FtpStream {
    match play(FtpStream::connect(), vec![Event::Opened, line("220 Ready\r\n")]) {
        (_, Some(Ok(Outcome::Session(stream)))) => stream,
        other => panic!("{:?}", other),
    }
}

fn secured() -> FtpStream {
    let events = vec![
        Event::Sent,
        line("234 Go\r\n"),
        Event::Secured,
        Event::Sent,
        line("200 Ok\r\n"),
        Event::Sent,
        line("200 Ok\r\n"),
    ];
    match play(session().into_secure(), events) {
        (_, Some(Ok(Outcome::Session(stream)))) => stream,
        other => panic!("{:?}", other),
    }
}

fn is_unit(result: &Option<Result<Outcome, FtpError>>) -> bool {
    matches!(result, Some(Ok(Outcome::Unit)))
}

fn invalid(result: Option<Result<Outcome, FtpError>>) -> String {
    match result {
        Some(Err(FtpError::InvalidResponse(message))) => message,
        other => panic!("{:?}", other),
    }
}

#[test]
fn connect_opens_and_waits_for_the_greeting() {
    let (asked, result) = play(FtpStream::connect(), vec![Event::Opened, line("220 Ready\r\n")]);
    assert_eq!(asked, vec!["OpenControl", "ReadLine"]);
    assert!(matches!(result, Some(Ok(Outcome::Session(_)))));

    let events = vec![Event::Opened, line("421 Too many users\r\n")];
    let (_, result) = play(FtpStream::connect(), events);
    assert_eq!(
        invalid(result),
        "Expected code [220], got response: 421 Too many users\r\n"
    );
}

#[test]
fn commands_of_one_line() {
    let s = session();
    let ok = |asked: &str, exchange: Exchange, reply: &str| {
        let (actions, result) = play(exchange, vec![Event::Sent, line(reply)]);
        assert_eq!(actions, vec![asked, "ReadLine"]);
        assert!(is_unit(&result), "{:?}", result);
    };
    ok("CWD a b\r\n", s.cwd("a b"), "250 Ok\r\n");
    ok("CDUP\r\n", s.cdup(), "200 Ok\r\n");
    ok("CDUP\r\n", s.cdup(), "250 Ok\r\n");
    ok("NOOP\r\n", s.noop(), "200 Ok\r\n");
    ok("MKD d\r\n", s.mkdir("d"), "257 \"d\"\r\n");
    ok("RMD d\r\n", s.rmdir("d"), "250 Ok\r\n");
    ok("DELE f\r\n", s.rm("f"), "250 Ok\r\n");
    ok("QUIT\r\n", s.quit(), "221 Bye\r\n");
    ok("TYPE I\r\n", s.transfer_type(FileType::Binary), "200 Ok\r\n");
    ok("TYPE I\r\n", s.transfer_type(FileType::Image), "200 Ok\r\n");
    ok(
        "TYPE A N\r\n",
        s.transfer_type(FileType::Ascii(FormatControl::Default)),
        "200 Ok\r\n",
    );
    ok(
        "TYPE E T\r\n",
        s.transfer_type(FileType::Ebcdic(FormatControl::Telnet)),
        "200 Ok\r\n",
    );
    ok(
        "TYPE A C\r\n",
        s.transfer_type(FileType::Ascii(FormatControl::Asa)),
        "200 Ok\r\n",
    );
    ok("TYPE L 8\r\n", s.transfer_type(FileType::Local(8)), "200 Ok\r\n");
}

#[test]
fn another_code_is_an_error() {
    let (asked, result) = play(session().cdup(), vec![Event::Sent, line("550 No\r\n")]);
    assert_eq!(asked, vec!["CDUP\r\n", "ReadLine"]);
    assert_eq!(
        invalid(result),
        "Expected code [200, 250], got response: 550 No\r\n"
    );
}

#[test]
fn password_is_sent_only_if_asked_for() {
    let (asked, result) = play(session().login("u", "p"), vec![Event::Sent, line("230 In\r\n")]);
    assert_eq!(asked, vec!["USER u\r\n", "ReadLine"]);
    assert!(is_unit(&result));

    let events = vec![Event::Sent, line("331 Password\r\n"), Event::Sent, line("230 In\r\n")];
    let (asked, result) = play(session().login("u", "p"), events);
    assert_eq!(asked, vec!["USER u\r\n", "ReadLine", "PASS p\r\n", "ReadLine"]);
    assert!(is_unit(&result));

    let (asked, result) = play(session().login("u", "p"), vec![Event::Sent, line("530 No\r\n")]);
    assert_eq!(asked, vec!["USER u\r\n", "ReadLine"]);
    assert_eq!(
        invalid(result),
        "Expected code [230, 331], got response: 530 No\r\n"
    );
}

#[test]
fn rename_sends_the_new_name_once_the_old_is_accepted() {
    let events = vec![Event::Sent, line("350 Ready\r\n"), Event::Sent, line("250 Done\r\n")];
    let (asked, result) = play(session().rename("a", "b"), events);
    assert_eq!(asked, vec!["RNFR a\r\n", "ReadLine", "RNTO b\r\n", "ReadLine"]);
    assert!(is_unit(&result));

    let (asked, result) = play(session().rename("a", "b"), vec![Event::Sent, line("550 No\r\n")]);
    assert_eq!(asked, vec!["RNFR a\r\n", "ReadLine"]);
    assert_eq!(
        invalid(result),
        "Expected code [350], got response: 550 No\r\n"
    );
}

#[test]
fn reply_of_many_lines() {
    let events = vec![
        line("211-Features:\r\n"),
        line(" SIZE\r\n"),
        line("\r\n"),
        line("212 not the end\r\n"),
        line("211\r\n"),
        line("211-more\r\n"),
        line("211 \r\n"),
    ];
    let (asked, result) = play(session().read_response(211), events);
    assert_eq!(asked.len(), 7);
    match result {
        Some(Ok(Outcome::Reply(reply))) => {
            assert_eq!(reply.0, 211);
            assert_eq!(reply.1, "211 \r\n");
        }
        other => panic!("{:?}", other),
    }
}

#[test]
fn reply_with_one_of_several_codes() {
    let codes: [u32; 3] = [226, 250, 100];
    for code in ["226", "250", "100"] {
        let events = vec![line(&format!("{} Ok\r\n", code))];
        match play(session().read_response_in(&codes), events).1 {
            Some(Ok(Outcome::Reply(reply))) => assert_eq!(reply.0.to_string(), code),
            other => panic!("{:?}", other),
        }
    }
    let (_, result) = play(session().read_response_in(&codes), vec![line("500 What\r\n")]);
    assert_eq!(
        invalid(result),
        "Expected code [226, 250, 100], got response: 500 What\r\n"
    );
    let none: [u32; 0] = [];
    let (_, result) = play(session().read_response_in(&none), vec![line("200 Ok\r\n")]);
    assert_eq!(invalid(result), "Expected code [], got response: 200 Ok\r\n");
}

#[test]
fn a_code_with_a_plus_sign() {
    match play(session().read_response(20), vec![line("+20 odd\r\n")]).1 {
        Some(Ok(Outcome::Reply(reply))) => assert_eq!(reply.0, 20),
        other => panic!("{:?}", other),
    }
}

#[test]
fn no_reply() {
    for short in ["", "2", "220\n", "\r\n"] {
        let (_, result) = play(session().read_response(220), vec![line(short)]);
        assert_eq!(invalid(result), "error: could not read reply code");
    }
    for other in ["hello\r\n", "2x0 hi\r\n", "++1 hi\r\n", "-20 hi\r\n", " 20 hi\r\n"] {
        let (_, result) = play(session().read_response(220), vec![line(other)]);
        assert_eq!(
            invalid(result),
            "error: could not parse reply code: invalid digit found in string"
        );
    }
}

#[test]
fn a_line_cut_inside_a_character_has_no_way_on() {
    // the third byte lies inside a character
    assert!(is_stuck(session().read_response(220), vec![line("22\u{e9} hi\r\n")]));
    // the fourth byte lies inside a character
    assert!(is_stuck(session().read_response(220), vec![line("220\u{e9} hi\r\n")]));
    assert!(is_stuck(
        session().read_response(220),
        vec![line("220-hi\r\n"), line("abc\u{e9}\r\n")]
    ));
    // a character that begins after the code and the space is all right
    let (_, result) = play(session().read_response(220), vec![line("220 \u{e9}\r\n")]);
    assert!(matches!(result, Some(Ok(Outcome::Reply(_)))));
    // so is one that ends with the third byte, though it is no code
    let (_, result) = play(session().read_response(220), vec![line("1\u{e9}00\r\n")]);
    assert_eq!(
        invalid(result),
        "error: could not parse reply code: invalid digit found in string"
    );
}

#[test]
fn data_connection_goes_to_the_announced_address() {
    let events = vec![
        Event::Sent,
        line("227 Entering Passive Mode (10,0,0,1,4,1).\r\n"),
        Event::Sent,
        Event::Opened,
        line("150 Sending\r\n"),
    ];
    let (asked, result) = play(session().get("f"), events);
    assert_eq!(
        asked,
        vec!["PASV\r\n", "ReadLine", "RETR f\r\n", "open 10.0.0.1:1025", "ReadLine"]
    );
    assert!(is_unit(&result));
}

#[test]
fn get_needs_the_one_code() {
    let events = vec![
        Event::Sent,
        line("227 (10,0,0,1,4,1)\r\n"),
        Event::Sent,
        Event::Opened,
        line("125 Already open\r\n"),
    ];
    let (_, result) = play(session().get("f"), events);
    assert_eq!(
        invalid(result),
        "Expected code [150], got response: 125 Already open\r\n"
    );
}

#[test]
fn data_connection_of_a_secured_session_is_secured() {
    let events = vec![
        Event::Sent,
        line("227 (10,0,0,1,4,1)\r\n"),
        Event::Sent,
        Event::Opened,
        Event::Secured,
        line("150 Sending\r\n"),
        Event::Contents(vec![1, 2, 3]),
        line("250 Done\r\n"),
    ];
    let (asked, result) = play(secured().simple_retr("f"), events);
    assert_eq!(
        asked,
        vec![
            "PASV\r\n",
            "ReadLine",
            "RETR f\r\n",
            "open 10.0.0.1:1025",
            "SecureData",
            "ReadLine",
            "ReadContents",
            "ReadLine",
        ]
    );
    match result {
        Some(Ok(Outcome::Contents(bytes))) => assert_eq!(bytes, vec![1, 2, 3]),
        other => panic!("{:?}", other),
    }
}

#[test]
fn failed_handshakes() {
    let events = vec![
        Event::Sent,
        line("234 Go\r\n"),
        Event::HandshakeFailed("bad certificate".to_string()),
    ];
    assert!(is_stuck(session().into_secure(), events));
    let events = vec![
        Event::Sent,
        line("227 (10,0,0,1,4,1)\r\n"),
        Event::Sent,
        Event::Opened,
        Event::HandshakeFailed("bad certificate".to_string()),
    ];
    match play(secured().get("f"), events).1 {
        Some(Err(FtpError::SecureError(message))) => assert_eq!(message, "bad certificate"),
        other => panic!("{:?}", other),
    }
}

#[test]
fn securing_a_session() {
    let events = vec![
        Event::Sent,
        line("234 Go\r\n"),
        Event::Secured,
        Event::Sent,
        line("200 Ok\r\n"),
        Event::Sent,
        line("200 Ok\r\n"),
    ];
    let (asked, result) = play(session().into_secure(), events);
    assert_eq!(
        asked,
        vec![
            "AUTH TLS\r\n",
            "ReadLine",
            "SecureControl",
            "PBSZ 0\r\n",
            "ReadLine",
            "PROT P\r\n",
            "ReadLine",
        ]
    );
    assert!(matches!(result, Some(Ok(Outcome::Session(_)))));

    let (asked, result) = play(secured().into_secure(), vec![]);
    assert!(asked.is_empty());
    assert!(matches!(result, Some(Ok(Outcome::Session(_)))));
}

#[test]
fn session_stays_as_it_is_between_switches() {
    let opened = |stream: &FtpStream| {
        let events = vec![
            Event::Sent,
            line("227 (10,0,0,1,4,1)\r\n"),
            Event::Sent,
            Event::Opened,
        ];
        let (asked, _) = play(stream.put("f"), events);
        asked[4].clone()
    };
    let plain = session();
    assert_eq!(opened(&plain), "ReadLine");
    play(plain.cwd("d"), vec![Event::Sent, line("550 No\r\n")]);
    play(plain.noop(), vec![]);
    assert_eq!(opened(&plain), "ReadLine");
    let stream = secured();
    assert_eq!(opened(&stream), "SecureData");
    play(stream.cwd("d"), vec![Event::Sent, line("550 No\r\n")]);
    assert_eq!(opened(&stream), "SecureData");
    match play(stream.into_secure(), vec![]).1 {
        Some(Ok(Outcome::Session(again))) => assert_eq!(opened(&again), "SecureData"),
        other => panic!("{:?}", other),
    }
}

#[test]
fn no_address() {
    let events = vec![Event::Sent, line("227 Entering Passive Mode\r\n")];
    let (asked, result) = play(session().put("f"), events);
    assert_eq!(asked, vec!["PASV\r\n", "ReadLine"]);
    assert_eq!(
        invalid(result),
        "Invalid PASV response: 227 Entering Passive Mode\r\n"
    );
    // a number that is no byte has no way on
    assert!(is_stuck(
        session().put("f"),
        vec![Event::Sent, line("227 (10,0,0,256,4,1)\r\n")]
    ));
}

#[test]
fn put_writes_once_the_transfer_begins() {
    for begin in ["125 Open\r\n", "150 Opening\r\n"] {
        for end in ["226 Done\r\n", "250 Done\r\n"] {
            let events = vec![
                Event::Sent,
                line("227 (10,0,0,1,4,1)\r\n"),
                Event::Sent,
                Event::Opened,
                line(begin),
                Event::Uploaded,
                line(end),
            ];
            let (asked, result) = play(session().put("f"), events);
            assert_eq!(asked[2], "STOR f\r\n");
            assert_eq!(asked[4..], ["ReadLine", "Upload", "ReadLine"]);
            assert!(is_unit(&result));
        }
    }
    let events = vec![
        Event::Sent,
        line("227 (10,0,0,1,4,1)\r\n"),
        Event::Sent,
        Event::Opened,
        line("553 Not allowed\r\n"),
    ];
    let (asked, result) = play(session().put("f"), events);
    assert!(!asked.contains(&"Upload".to_string()));
    assert_eq!(
        invalid(result),
        "Expected code [125, 150], got response: 553 Not allowed\r\n"
    );
}

#[test]
fn reader_of_the_caller() {
    let begun = || {
        vec![
            Event::Sent,
            line("227 (10,0,0,1,4,1)\r\n"),
            Event::Sent,
            Event::Opened,
            line("125 Open\r\n"),
        ]
    };
    let mut events = begun();
    events.push(Event::Handled);
    events.push(line("226 Done\r\n"));
    let (asked, result) = play(session().retr("f"), events);
    assert_eq!(asked[2], "RETR f\r\n");
    assert_eq!(asked[5..], ["HandOver", "ReadLine"]);
    assert!(is_unit(&result));

    let mut events = begun();
    events.push(Event::ReaderFailed(FtpError::InvalidResponse("mine".to_string())));
    assert_eq!(invalid(play(session().retr("f"), events).1), "mine");

    let mut events = begun();
    events.push(Event::Handled);
    events.push(line("426 Aborted\r\n"));
    assert_eq!(
        invalid(play(session().retr("f"), events).1),
        "Expected code [226, 250], got response: 426 Aborted\r\n"
    );
}

#[test]
fn listing() {
    let begun = || {
        vec![
            Event::Sent,
            line("227 (10,0,0,1,4,1)\r\n"),
            Event::Sent,
            Event::Opened,
            line("150 Here it comes\r\n"),
        ]
    };
    let mut events = begun();
    events.push(text("a\r\n\r\nb c\r\nd"));
    events.push(text(""));
    events.push(Event::Closed);
    events.push(line("226 Done\r\n"));
    let (asked, result) = play(session().list(None), events);
    assert_eq!(asked[2], "LIST\r\n");
    assert_eq!(asked[5..], ["ReadText", "ReadText", "CloseData", "ReadLine"]);
    match result {
        Some(Ok(Outcome::Listing(lines))) => assert_eq!(lines, vec!["a", "b c", "d"]),
        other => panic!("{:?}", other),
    }

    let mut events = begun();
    events.push(text(""));
    events.push(Event::Closed);
    events.push(line("250 Done\r\n"));
    let (asked, result) = play(session().nlst(Some("x")), events);
    assert_eq!(asked[2], "NLST x\r\n");
    match result {
        Some(Ok(Outcome::Listing(lines))) => assert!(lines.is_empty()),
        other => panic!("{:?}", other),
    }
}

#[test]
fn current_directory_of_the_server() {
    let events = vec![Event::Sent, line("257 \"/a \"\"b\"\"\" is it\r\n")];
    let (asked, result) = play(session().pwd(), events);
    assert_eq!(asked, vec!["PWD\r\n", "ReadLine"]);
    match result {
        Some(Ok(Outcome::Directory(path))) => assert_eq!(path, "/a \"\"b\"\""),
        other => panic!("{:?}", other),
    }
    let events = vec![Event::Sent, line("257 /a\r\n")];
    assert_eq!(
        invalid(play(session().pwd(), events).1),
        "Invalid PWD Response: 257 /a\r\n"
    );
}

#[test]
fn questions_on_a_file() {
    let s = session();
    let size = |reply: &str| match play(s.size("f"), vec![Event::Sent, line(reply)]) {
        (asked, Some(Ok(Outcome::FileSize(size)))) => {
            assert_eq!(asked, vec!["SIZE f\r\n", "ReadLine"]);
            size
        }
        other => panic!("{:?}", other),
    };
    assert_eq!(size("213 12345\r\n"), Some(12345));
    assert_eq!(size("213 no number\r\n"), None);
    assert_eq!(size("550 No such file\r\n"), None);

    let time = |reply: &str| match play(s.mdtm("f"), vec![Event::Sent, line(reply)]) {
        (asked, Some(Ok(Outcome::ModificationTime(time)))) => {
            assert_eq!(asked, vec!["MDTM f\r\n", "ReadLine"]);
            time
        }
        other => panic!("{:?}", other),
    };
    assert_eq!(time("213 20010909014640\r\n"), Some(1_000_000_000));
    assert_eq!(time("213 no time\r\n"), None);
    assert_eq!(time("550 No such file\r\n"), None);

    for exchange in [s.size("f"), s.mdtm("f")] {
        let (_, result) = play(exchange, vec![Event::Sent, line("500 What\r\n")]);
        assert_eq!(
            invalid(result),
            "Expected code [213], got response: 500 What\r\n"
        );
    }
    assert!(is_stuck(
        s.size("f"),
        vec![Event::Sent, line("213 99999999999999999999999999\r\n")]
    ));
    assert!(is_stuck(s.mdtm("f"), vec![Event::Sent, line("213 20010229000000\r\n")]));
}

#[test]
fn failed_connections() {
    let broken = || Event::Failed(Error::new(ErrorKind::BrokenPipe, "gone"));
    let fails = |exchange: Exchange, events: Vec<Event>| match play(exchange, events).1 {
        Some(Err(FtpError::ConnectionError(e))) => assert_eq!(e.kind(), ErrorKind::BrokenPipe),
        other => panic!("{:?}", other),
    };
    fails(FtpStream::connect(), vec![broken()]);
    fails(session().noop(), vec![broken()]);
    fails(session().noop(), vec![Event::Sent, broken()]);
    fails(
        session().get("f"),
        vec![Event::Sent, line("227 (10,0,0,1,4,1)\r\n"), Event::Sent, broken()],
    );
    fails(
        session().simple_retr("f"),
        vec![
            Event::Sent,
            line("227 (10,0,0,1,4,1)\r\n"),
            Event::Sent,
            Event::Opened,
            line("150 Sending\r\n"),
            broken(),
        ],
    );
}

#[test]
fn events_that_answer_nothing() {
    assert!(session().noop().advance(Event::Sent).is_none());
    assert!(session()
        .noop()
        .advance(Event::Failed(Error::new(ErrorKind::Other, "x")))
        .is_none());
    assert!(is_stuck(session().noop(), vec![Event::Opened]));
    assert!(is_stuck(session().noop(), vec![Event::Start]));
    assert!(is_stuck(session().noop(), vec![Event::Sent, text("200 Ok\r\n")]));
}

#[test]
fn spelled_address() {
    let address = SocketAddress { h1: 192, h2: 168, h3: 0, h4: 10, port: 65535 };
    assert_eq!(address.to_string(), "192.168.0.10:65535");
    let address = SocketAddress { h1: 0, h2: 0, h3: 0, h4: 0, port: 0 };
    assert_eq!(address.to_string(), "0.0.0.0:0");
}

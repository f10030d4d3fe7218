//! A whole session, with a small server in memory.

use std::collections::BTreeMap;

use aftp::exchange::{Action, Event, Exchange, Outcome, Progress};
use aftp::ftp::FtpStream;
use aftp::types::{FtpError, SocketAddress};

/// A server with directories and files, and one data connection.
struct Server {
    directories: Vec<String>,
    files: BTreeMap<String, Vec<u8>>,
    current: String,
    user: String,
    logged_in: bool,
    secure: bool,
    replies: Vec<String>,
    pending: Option<(String, String)>,
    data_open: bool,
    data_secure: bool,
    text_left: Option<String>,
    upload: Vec<u8>,
    commands: Vec<String>,
}

impl Server {
    fn new() -> Server {
        Server {
            directories: vec!["/".to_string()],
            files: BTreeMap::new(),
            current: "/".to_string(),
            user: String::new(),
            logged_in: false,
            secure: false,
            replies: Vec::new(),
            pending: None,
            data_open: false,
            data_secure: false,
            text_left: None,
            upload: Vec::new(),
            commands: Vec::new(),
        }
    }

    fn reply(&mut self, line: &str) {
        self.replies.push(format!("{}\r\n", line));
    }

    fn path_of(&self, name: &str) -> String {
        if self.current == "/" {
            format!("/{}", name)
        } else {
            format!("{}/{}", self.current, name)
        }
    }

    fn command(&mut self, text: &str) {
        let line = text.strip_suffix("\r\n").expect("a command ends its line");
        self.commands.push(line.to_string());
        let (verb, argument) = match line.split_once(' ') {
            Some((verb, argument)) => (verb, argument),
            None => (line, ""),
        };
        let path = self.path_of(argument);
        match verb {
            "USER" => {
                self.user = argument.to_string();
                self.reply("331 Please specify the password.");
            }
            "PASS" => {
                self.logged_in = self.user == "Doe" && argument == "mumble";
                if self.logged_in {
                    self.reply("230-Welcome.");
                    self.reply(" Be nice.");
                    self.reply("230 Login successful.");
                } else {
                    self.reply("530 Login incorrect.");
                }
            }
            "AUTH" => self.reply("234 Proceed with negotiation."),
            "PBSZ" => self.reply("200 PBSZ set to 0."),
            "PROT" => self.reply("200 PROT now Private."),
            "MKD" => {
                self.directories.push(path.clone());
                self.reply(&format!("257 \"{}\" created", path));
            }
            "RMD" => {
                if self.directories.contains(&path) {
                    self.directories.retain(|d| *d != path);
                    self.reply("250 Remove directory operation successful.");
                } else {
                    self.reply("550 Remove directory operation failed.");
                }
            }
            "CWD" => {
                if self.directories.contains(&path) {
                    self.current = path;
                    self.reply("250 Directory successfully changed.");
                } else {
                    self.reply("550 Failed to change directory.");
                }
            }
            "CDUP" => {
                let parent = self.current.rfind('/').unwrap();
                self.current = if parent == 0 {
                    "/".to_string()
                } else {
                    self.current[..parent].to_string()
                };
                self.reply("250 Directory successfully changed.");
            }
            "PWD" => {
                let reply = format!("257 \"{}\" is the current directory", self.current);
                self.reply(&reply);
            }
            "PASV" => self.reply("227 Entering Passive Mode (127,0,0,1,195,80)."),
            "STOR" | "RETR" | "LIST" | "NLST" => {
                self.pending = Some((verb.to_string(), path));
            }
            "DELE" => {
                if self.files.remove(&path).is_some() {
                    self.reply("250 Delete operation successful.");
                } else {
                    self.reply("550 Delete operation failed.");
                }
            }
            "SIZE" => match self.files.get(&path) {
                Some(file) => {
                    let reply = format!("213 {}", file.len());
                    self.reply(&reply);
                }
                None => self.reply("550 Could not get file size."),
            },
            "QUIT" => self.reply("221 Goodbye."),
            other => panic!("no such command: {}", other),
        }
    }

    fn perform(&mut self, action: Action) -> Event {
        match action {
            Action::OpenControl => {
                self.reply("220 Ready.");
                Event::Opened
            }
            Action::Send(text) => {
                self.command(&text);
                Event::Sent
            }
            Action::ReadLine => Event::Line(self.replies.remove(0)),
            Action::OpenData(address) => {
                let expected = SocketAddress { h1: 127, h2: 0, h3: 0, h4: 1, port: 50000 };
                assert_eq!(address, expected);
                let (verb, path) = self.pending.clone().expect("the command was sent before");
                self.data_open = true;
                self.data_secure = false;
                if verb == "RETR" && !self.files.contains_key(&path) {
                    self.reply("550 Failed to open file.");
                } else {
                    self.reply("150 Ok to send data.");
                }
                Event::Opened
            }
            Action::SecureControl => {
                self.secure = true;
                Event::Secured
            }
            Action::SecureData => {
                self.data_secure = true;
                Event::Secured
            }
            Action::ReadContents => {
                assert_eq!(self.data_secure, self.secure);
                let (_, path) = self.pending.take().unwrap();
                self.data_open = false;
                self.reply("226 Transfer complete.");
                Event::Contents(self.files[&path].clone())
            }
            Action::ReadText => {
                let text = match self.text_left.take() {
                    Some(rest) => rest,
                    None => {
                        self.text_left = Some(String::new());
                        self.files.keys().map(|name| format!("{}\r\n", name)).collect()
                    }
                };
                Event::Text(text)
            }
            Action::CloseData => {
                self.data_open = false;
                self.pending = None;
                self.text_left = None;
                self.reply("226 Directory send OK.");
                Event::Closed
            }
            Action::Upload => {
                assert_eq!(self.data_secure, self.secure);
                let (_, path) = self.pending.take().unwrap();
                self.files.insert(path, self.upload.clone());
                self.data_open = false;
                self.reply("226 Transfer complete.");
                Event::Uploaded
            }
            Action::HandOver => unreachable!(),
        }
    }

    fn run(&mut self, exchange: Exchange) -> Result<Outcome, FtpError> {
        let mut exchange = exchange;
        let mut event = Event::Start;
        loop {
            match exchange.advance(event).expect("the exchange goes on") {
                Progress::Perform(action, next) => {
                    event = self.perform(action);
                    exchange = next;
                }
                Progress::Done(result) => return result,
            }
        }
    }

    fn run_unit(&mut self, exchange: Exchange) {
        let result = self.run(exchange);
        assert!(matches!(result, Ok(Outcome::Unit)), "{:?}", result);
    }

    fn session(&mut self) -> FtpStream {
        match self.run(FtpStream::connect()) {
            Ok(Outcome::Session(stream)) => stream,
            other => panic!("{:?}", other),
        }
    }
}

#[test]
fn test_ftp() {
    let mut server = Server::new();
    let ftp_stream = server.session();
    server.run_unit(ftp_stream.login("Doe", "mumble"));
    assert!(server.logged_in);

    server.run_unit(ftp_stream.mkdir("test_dir"));
    server.run_unit(ftp_stream.cwd("test_dir"));
    match server.run(ftp_stream.pwd()) {
        Ok(Outcome::Directory(pwd)) => assert!(pwd.ends_with("/test_dir")),
        other => panic!("{:?}", other),
    }

    // store a file
    let file_data = "test data\n";
    server.upload = file_data.as_bytes().to_vec();
    server.run_unit(ftp_stream.put("test_file.txt"));

    // retrieve file
    match server.run(ftp_stream.simple_retr("test_file.txt")) {
        Ok(Outcome::Contents(bytes)) => assert_eq!(bytes, file_data.as_bytes()),
        other => panic!("{:?}", other),
    }

    // remove file
    server.run_unit(ftp_stream.rm("test_file.txt"));

    // cleanup: go up, remove folder, and quit
    server.run_unit(ftp_stream.cdup());

    server.run_unit(ftp_stream.rmdir("test_dir"));
    server.run_unit(ftp_stream.quit());

    assert!(server.files.is_empty());
    assert_eq!(server.directories, vec!["/".to_string()]);
    assert!(!server.data_open);
    assert!(server.replies.is_empty());
}

#[test]
fn secured_session() {
    let mut server = Server::new();
    let plain = server.session();
    let stream = match server.run(plain.into_secure()) {
        Ok(Outcome::Session(stream)) => stream,
        other => panic!("{:?}", other),
    };
    assert!(server.secure);
    assert_eq!(server.commands, vec!["AUTH TLS", "PBSZ 0", "PROT P"]);

    // securing it again does nothing
    let stream = match server.run(stream.into_secure()) {
        Ok(Outcome::Session(stream)) => stream,
        other => panic!("{:?}", other),
    };
    assert_eq!(server.commands.len(), 3);

    server.run_unit(stream.login("Doe", "mumble"));
    server.upload = vec![0, 255, 13, 10];
    server.run_unit(stream.put("bytes"));
    match server.run(stream.simple_retr("bytes")) {
        Ok(Outcome::Contents(bytes)) => assert_eq!(bytes, vec![0, 255, 13, 10]),
        other => panic!("{:?}", other),
    }
    match server.run(stream.size("bytes")) {
        Ok(Outcome::FileSize(size)) => assert_eq!(size, Some(4)),
        other => panic!("{:?}", other),
    }
    match server.run(stream.size("nothing")) {
        Ok(Outcome::FileSize(size)) => assert_eq!(size, None),
        other => panic!("{:?}", other),
    }
}

#[test]
fn listing_of_stored_files() {
    let mut server = Server::new();
    let stream = server.session();
    server.run_unit(stream.login("Doe", "mumble"));
    match server.run(stream.nlst(None)) {
        Ok(Outcome::Listing(lines)) => assert!(lines.is_empty()),
        other => panic!("{:?}", other),
    }
    server.run_unit(stream.put("b"));
    server.run_unit(stream.put("a"));
    match server.run(stream.list(Some("."))) {
        Ok(Outcome::Listing(lines)) => assert_eq!(lines, vec!["/a", "/b"]),
        other => panic!("{:?}", other),
    }
    assert!(server.commands.contains(&"NLST".to_string()));
    assert!(server.commands.contains(&"LIST .".to_string()));
}

#[test]
fn refused_requests() {
    let mut server = Server::new();
    let stream = server.session();
    match server.run(stream.login("Doe", "wrong")) {
        Err(FtpError::InvalidResponse(message)) => assert_eq!(
            message,
            "Expected code [230], got response: 530 Login incorrect.\r\n"
        ),
        other => panic!("{:?}", other),
    }
    match server.run(stream.cwd("nowhere")) {
        Err(FtpError::InvalidResponse(message)) => assert_eq!(
            message,
            "Expected code [250], got response: 550 Failed to change directory.\r\n"
        ),
        other => panic!("{:?}", other),
    }
    match server.run(stream.simple_retr("nothing")) {
        Err(FtpError::InvalidResponse(message)) => assert_eq!(
            message,
            "Expected code [150, 125], got response: 550 Failed to open file.\r\n"
        ),
        other => panic!("{:?}", other),
    }
}

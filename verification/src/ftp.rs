//! FTP commands, each as the exchange with the server that it takes.

use vstd::prelude::*;
use vstd::slice::slice_to_vec;

use crate::exchange::{steps_view, Exchange, ExchangeView, Reading, Step, StepView};
use crate::session_laws::CommandView;
use crate::status;
use crate::types::FileType;

verus! {

/// A session with an FTP server: what of the state of the control connection
/// decides how commands are carried out.
#[derive(Debug)]
pub struct FtpStream {
    secure: bool,
}

impl View for FtpStream {
    type V = bool;

    /// Whether the session is secured.
    closed spec fn view(&self) -> bool {
        self.secure
    }
}

/// A command without an argument, with its line end.
pub open spec fn bare_command(verb: Seq<char>) -> Seq<char> {
    verb + "\r\n"@
}

/// A command with an argument, and with its line end.
pub open spec fn command(verb: Seq<char>, argument: Seq<char>) -> Seq<char> {
    verb + " "@ + argument + "\r\n"@
}

/// A command of which the argument may be missing.
pub open spec fn command_on(verb: Seq<char>, argument: Option<Seq<char>>) -> Seq<char> {
    match argument {
        Some(a) => command(verb, a),
        None => bare_command(verb),
    }
}

/// An optional text, taken by its view.
pub open spec fn optional_view(s: Option<&str>) -> Option<Seq<char>> {
    match s {
        Some(t) => Some(t@),
        None => None,
    }
}

/// The steps of a command that is one line, answered by one of `codes`.
pub open spec fn ask(line: Seq<char>, codes: Seq<u32>) -> Seq<StepView> {
    seq![StepView::Send(line), StepView::Expect(codes)]
}

/// The steps that open a data connection for the command `line`: the server is
/// asked for an address, told the command, and called at that address. In a
/// secured session the data connection is then secured.
pub open spec fn data_steps(secure: bool, line: Seq<char>) -> Seq<StepView> {
    ask(bare_command("PASV"@), seq![status::PASSIVE_MODE]) + seq![StepView::OpenData(line)] + (
    if secure {
        seq![StepView::SecureData]
    } else {
        Seq::empty()
    })
}

/// The codes of a reply that says that a transfer begins.
pub open spec fn transfer_begins() -> Seq<u32> {
    seq![status::ABOUT_TO_SEND, status::ALREADY_OPEN]
}

/// The codes of a reply that says that a transfer is over.
pub open spec fn transfer_over() -> Seq<u32> {
    seq![status::CLOSING_DATA_CONNECTION, status::REQUESTED_FILE_ACTION_OK]
}

/// The steps of a listing.
pub open spec fn list_steps(
    secure: bool,
    line: Seq<char>,
    open_code: u32,
    close_codes: Seq<u32>,
) -> Seq<StepView> {
    data_steps(secure, line) + seq![
        StepView::Expect(seq![open_code, status::ALREADY_OPEN]),
        StepView::List,
        StepView::CloseData,
        StepView::Expect(close_codes),
    ]
}

/// The steps of an upload, up to the end of the transfer.
pub open spec fn put_steps(secure: bool, file: Seq<char>) -> Seq<StepView> {
    data_steps(secure, command("STOR"@, file)) + seq![
        StepView::Expect(seq![status::ALREADY_OPEN, status::ABOUT_TO_SEND]),
        StepView::Upload,
    ]
}

/// The steps that retrieve a file, of which the contents are the matter of the
/// step `transfer`.
pub open spec fn retrieve_steps(
    secure: bool,
    file: Seq<char>,
    transfer: StepView,
) -> Seq<StepView> {
    data_steps(secure, command("RETR"@, file)) + seq![
        StepView::Expect(transfer_begins()),
        transfer,
        StepView::Expect(transfer_over()),
    ]
}

/// The steps that create a session.
pub open spec fn connect_steps() -> Seq<StepView> {
    seq![
        StepView::OpenControl,
        StepView::Expect(seq![status::READY]),
        StepView::Read(Reading::Session { secure: false }),
    ]
}

/// The steps that secure a session.
pub open spec fn into_secure_steps(secure: bool) -> Seq<StepView> {
    if secure {
        seq![StepView::Read(Reading::Session { secure: true })]
    } else {
        ask(command("AUTH"@, "TLS"@), seq![status::AUTH_OK]) + seq![StepView::SecureControl] + ask(
            command("PBSZ"@, "0"@),
            seq![status::COMMAND_OK],
        ) + ask(command("PROT"@, "P"@), seq![status::COMMAND_OK]) + seq![
            StepView::Read(Reading::Session { secure: true }),
        ]
    }
}

/// The steps of a login.
pub open spec fn login_steps(user: Seq<char>, password: Seq<char>) -> Seq<StepView> {
    seq![
        StepView::Send(command("USER"@, user)),
        StepView::Expect(seq![status::LOGGED_IN, status::NEED_PASSWORD]),
        StepView::StopUnless(status::NEED_PASSWORD),
        StepView::Send(command("PASS"@, password)),
        StepView::Expect(seq![status::LOGGED_IN]),
    ]
}

/// The steps of a question on a file.
pub open spec fn file_steps(line: Seq<char>, reading: Reading) -> Seq<StepView> {
    seq![StepView::Send(line), StepView::ExpectFile, StepView::Read(reading)]
}

/// The steps that read a reply.
pub open spec fn response_steps(codes: Seq<u32>) -> Seq<StepView> {
    seq![StepView::Expect(codes), StepView::Read(Reading::Reply)]
}

/// The step that sends a command without an argument.
fn send_bare(verb: &str) -> (r: Step)
    ensures
        r@ == StepView::Send(bare_command(verb@)),
{
    Step::Send(verb.to_owned().concat("\r\n"))
}

/// A command with an argument, and with its line end.
fn command_line(verb: &str, argument: &str) -> (r: String)
    ensures
        r@ == command(verb@, argument@),
{
    verb.to_owned().concat(" ").concat(argument).concat("\r\n")
}

/// A command of which the argument may be missing.
fn command_line_on(verb: &str, argument: Option<&str>) -> (r: String)
    ensures
        r@ == command_on(verb@, optional_view(argument)),
{
    match argument {
        Some(a) => command_line(verb, a),
        None => verb.to_owned().concat("\r\n"),
    }
}

/// The step that sends a command with an argument.
fn send(verb: &str, argument: &str) -> (r: Step)
    ensures
        r@ == StepView::Send(command(verb@, argument@)),
{
    Step::Send(command_line(verb, argument))
}

/// The step that reads a reply with the code `code`.
fn expect(code: u32) -> (r: Step)
    ensures
        r@ == StepView::Expect(seq![code]),
{
    let codes: Vec<u32> = vec![code];
    assert(codes@ == seq![code]);
    Step::Expect(codes)
}

/// The step that reads a reply with one of two codes.
fn expect_either(first: u32, second: u32) -> (r: Step)
    ensures
        r@ == StepView::Expect(seq![first, second]),
{
    let codes: Vec<u32> = vec![first, second];
    assert(codes@ == seq![first, second]);
    Step::Expect(codes)
}

/// The exchange of two steps.
fn exchange_of_two(first: Step, second: Step) -> (r: Exchange)
    ensures
        r@ == ExchangeView::of(seq![first@, second@]),
{
    let steps: Vec<Step> = vec![first, second];
    assert(steps_view(steps@) == seq![first@, second@]);
    Exchange::new(steps)
}

impl FtpStream {
    pub(crate) fn new(secure: bool) -> (r: FtpStream)
        ensures
            r@ == secure,
    {
        FtpStream { secure }
    }

    /// Creates a session: opens the control connection, on which the server has to
    /// say that it is ready.
    pub fn connect() -> (r: Exchange)
        ensures
            r@ == ExchangeView::of(connect_steps()),
    {
        let steps: Vec<Step> = vec![
            Step::OpenControl,
            expect(status::READY),
            Step::Read(Reading::Session { secure: false }),
        ];
        assert(steps_view(steps@) == connect_steps());
        Exchange::new(steps)
    }

    /// Switches to a secure mode: asks the server for it, secures the control
    /// connection, and has data connections protected too. Does nothing if the
    /// session is already secured. There is no way on if the control connection
    /// cannot be secured.
    pub fn into_secure(self) -> (r: Exchange)
        ensures
            r@ == ExchangeView::of(into_secure_steps(self@)),
    {
        let mut steps: Vec<Step> = Vec::new();
        if !self.secure {
            steps.push(send("AUTH", "TLS"));
            steps.push(expect(status::AUTH_OK));
            steps.push(Step::SecureControl);
            steps.push(send("PBSZ", "0"));
            steps.push(expect(status::COMMAND_OK));
            steps.push(send("PROT", "P"));
            steps.push(expect(status::COMMAND_OK));
        }
        steps.push(Step::Read(Reading::Session { secure: true }));
        assert(steps_view(steps@) == into_secure_steps(self@));
        Exchange::new(steps)
    }

    /// The steps that ask the server for the address of a data connection.
    fn pasv(&self) -> (r: Vec<Step>)
        ensures
            steps_view(r@) == ask(bare_command("PASV"@), seq![status::PASSIVE_MODE]),
    {
        let steps: Vec<Step> = vec![send_bare("PASV"), expect(status::PASSIVE_MODE)];
        assert(steps_view(steps@) == ask(bare_command("PASV"@), seq![status::PASSIVE_MODE]));
        steps
    }

    /// The steps of a command that sends data in a connection of its own, up to the
    /// opening of that connection.
    fn data_command(&self, cmd: String) -> (r: Vec<Step>)
        ensures
            steps_view(r@) == data_steps(self@, cmd@),
    {
        let mut steps: Vec<Step> = self.pasv();
        let ghost asked = steps_view(steps@);
        steps.push(Step::OpenData(cmd));
        assert(steps_view(steps@) == asked + seq![StepView::OpenData(cmd@)]);
        if self.secure {
            let ghost opened = steps_view(steps@);
            steps.push(Step::SecureData);
            assert(steps_view(steps@) == opened + seq![StepView::SecureData]);
        }
        assert(steps_view(steps@) == data_steps(self@, cmd@));
        steps
    }

    /// Logs in to the server. The password is sent only if the server asks for it.
    pub fn login(&self, user: &str, password: &str) -> (r: Exchange)
        ensures
            r@ == ExchangeView::of(login_steps(user@, password@)),
            r@ == ExchangeView::of(
                (CommandView::Login { user: user@, password: password@ }).steps(self@),
            ),
    {
        let steps: Vec<Step> = vec![
            send("USER", user),
            expect_either(status::LOGGED_IN, status::NEED_PASSWORD),
            Step::StopUnless(status::NEED_PASSWORD),
            send("PASS", password),
            expect(status::LOGGED_IN),
        ];
        assert(steps_view(steps@) == login_steps(user@, password@));
        Exchange::new(steps)
    }

    /// Changes the current directory to the path specified.
    pub fn cwd(&self, path: &str) -> (r: Exchange)
        ensures
            r@ == ExchangeView::of(
                ask(command("CWD"@, path@), seq![status::REQUESTED_FILE_ACTION_OK]),
            ),
            r@ == ExchangeView::of(CommandView::Cwd(path@).steps(self@)),
    {
        exchange_of_two(send("CWD", path), expect(status::REQUESTED_FILE_ACTION_OK))
    }

    /// Moves the current directory to the parent directory.
    pub fn cdup(&self) -> (r: Exchange)
        ensures
            r@ == ExchangeView::of(
                ask(
                    bare_command("CDUP"@),
                    seq![status::COMMAND_OK, status::REQUESTED_FILE_ACTION_OK],
                ),
            ),
            r@ == ExchangeView::of(CommandView::Cdup.steps(self@)),
    {
        exchange_of_two(
            send_bare("CDUP"),
            expect_either(status::COMMAND_OK, status::REQUESTED_FILE_ACTION_OK),
        )
    }

    /// Gets the current directory.
    pub fn pwd(&self) -> (r: Exchange)
        ensures
            r@ == ExchangeView::of(
                ask(bare_command("PWD"@), seq![status::PATH_CREATED]).push(
                    StepView::Read(Reading::Directory),
                ),
            ),
            r@ == ExchangeView::of(CommandView::Pwd.steps(self@)),
    {
        let steps: Vec<Step> = vec![
            send_bare("PWD"),
            expect(status::PATH_CREATED),
            Step::Read(Reading::Directory),
        ];
        assert(steps_view(steps@) == ask(bare_command("PWD"@), seq![status::PATH_CREATED]).push(
            StepView::Read(Reading::Directory),
        ));
        Exchange::new(steps)
    }

    /// Does nothing. This is usually just used to keep the connection open.
    pub fn noop(&self) -> (r: Exchange)
        ensures
            r@ == ExchangeView::of(ask(bare_command("NOOP"@), seq![status::COMMAND_OK])),
            r@ == ExchangeView::of(CommandView::Noop.steps(self@)),
    {
        exchange_of_two(send_bare("NOOP"), expect(status::COMMAND_OK))
    }

    /// Creates a new directory on the server.
    pub fn mkdir(&self, pathname: &str) -> (r: Exchange)
        ensures
            r@ == ExchangeView::of(ask(command("MKD"@, pathname@), seq![status::PATH_CREATED])),
            r@ == ExchangeView::of(CommandView::Mkdir(pathname@).steps(self@)),
    {
        exchange_of_two(send("MKD", pathname), expect(status::PATH_CREATED))
    }

    /// Sets the type of file to be transferred.
    pub fn transfer_type(&self, file_type: FileType) -> (r: Exchange)
        ensures
            r@ == ExchangeView::of(
                ask(command("TYPE"@, file_type.argument()), seq![status::COMMAND_OK]),
            ),
            r@ == ExchangeView::of(CommandView::TransferType(file_type).steps(self@)),
    {
        exchange_of_two(
            send("TYPE", file_type.to_string().as_str()),
            expect(status::COMMAND_OK),
        )
    }

    /// Quits the session.
    pub fn quit(&self) -> (r: Exchange)
        ensures
            r@ == ExchangeView::of(ask(bare_command("QUIT"@), seq![status::CLOSING])),
            r@ == ExchangeView::of(CommandView::Quit.steps(self@)),
    {
        exchange_of_two(send_bare("QUIT"), expect(status::CLOSING))
    }

    /// Renames the file `from_name` to `to_name`.
    pub fn rename(&self, from_name: &str, to_name: &str) -> (r: Exchange)
        ensures
            r@ == ExchangeView::of(
                ask(command("RNFR"@, from_name@), seq![status::REQUEST_FILE_PENDING]) + ask(
                    command("RNTO"@, to_name@),
                    seq![status::REQUESTED_FILE_ACTION_OK],
                ),
            ),
            r@ == ExchangeView::of(
                (CommandView::Rename { from: from_name@, to: to_name@ }).steps(self@),
            ),
    {
        let steps: Vec<Step> = vec![
            send("RNFR", from_name),
            expect(status::REQUEST_FILE_PENDING),
            send("RNTO", to_name),
            expect(status::REQUESTED_FILE_ACTION_OK),
        ];
        assert(steps_view(steps@) == ask(
            command("RNFR"@, from_name@),
            seq![status::REQUEST_FILE_PENDING],
        ) + ask(command("RNTO"@, to_name@), seq![status::REQUESTED_FILE_ACTION_OK]));
        Exchange::new(steps)
    }

    /// Retrieves a file in the more complicated way: the exchange ends when the
    /// transfer begins. The data connection is left to the caller, who has to read
    /// it, and then the reply that the transfer is over.
    pub fn get(&self, file_name: &str) -> (r: Exchange)
        ensures
            r@ == ExchangeView::of(
                data_steps(self@, command("RETR"@, file_name@)).push(
                    StepView::Expect(seq![status::ABOUT_TO_SEND]),
                ),
            ),
            r@ == ExchangeView::of(CommandView::Get(file_name@).steps(self@)),
    {
        let mut steps: Vec<Step> = self.data_command(command_line("RETR", file_name));
        let ghost opened = steps_view(steps@);
        steps.push(expect(status::ABOUT_TO_SEND));
        assert(steps_view(steps@) == opened.push(StepView::Expect(seq![status::ABOUT_TO_SEND])));
        Exchange::new(steps)
    }

    /// The exchange that retrieves a file, of which the contents are the matter of
    /// the step `transfer`.
    fn retrieve(&self, file_name: &str, transfer: Step) -> (r: Exchange)
        ensures
            r@ == ExchangeView::of(retrieve_steps(self@, file_name@, transfer@)),
    {
        let mut steps: Vec<Step> = self.data_command(command_line("RETR", file_name));
        let ghost opened = steps_view(steps@);
        steps.push(expect_either(status::ABOUT_TO_SEND, status::ALREADY_OPEN));
        steps.push(transfer);
        steps.push(
            expect_either(status::CLOSING_DATA_CONNECTION, status::REQUESTED_FILE_ACTION_OK),
        );
        assert(steps_view(steps@) == opened + seq![
            StepView::Expect(transfer_begins()),
            transfer@,
            StepView::Expect(transfer_over()),
        ]);
        Exchange::new(steps)
    }

    /// Retrieves a file, of which a reader of the caller reads the contents.
    pub fn retr(&self, filename: &str) -> (r: Exchange)
        ensures
            r@ == ExchangeView::of(retrieve_steps(self@, filename@, StepView::HandOver)),
            r@ == ExchangeView::of(CommandView::Retr(filename@).steps(self@)),
    {
        self.retrieve(filename, Step::HandOver)
    }

    /// Retrieves a file in the simple way: it is held in memory.
    pub fn simple_retr(&self, file_name: &str) -> (r: Exchange)
        ensures
            r@ == ExchangeView::of(retrieve_steps(self@, file_name@, StepView::Download)),
            r@ == ExchangeView::of(CommandView::SimpleRetr(file_name@).steps(self@)),
    {
        self.retrieve(file_name, Step::Download)
    }

    /// Removes the directory `pathname` from the server.
    pub fn rmdir(&self, pathname: &str) -> (r: Exchange)
        ensures
            r@ == ExchangeView::of(
                ask(command("RMD"@, pathname@), seq![status::REQUESTED_FILE_ACTION_OK]),
            ),
            r@ == ExchangeView::of(CommandView::Rmdir(pathname@).steps(self@)),
    {
        exchange_of_two(send("RMD", pathname), expect(status::REQUESTED_FILE_ACTION_OK))
    }

    /// Removes the file `filename` from the server.
    pub fn rm(&self, filename: &str) -> (r: Exchange)
        ensures
            r@ == ExchangeView::of(
                ask(command("DELE"@, filename@), seq![status::REQUESTED_FILE_ACTION_OK]),
            ),
            r@ == ExchangeView::of(CommandView::Rm(filename@).steps(self@)),
    {
        exchange_of_two(send("DELE", filename), expect(status::REQUESTED_FILE_ACTION_OK))
    }

    /// The steps of an upload, up to the end of the transfer.
    fn put_file(&self, filename: &str) -> (r: Vec<Step>)
        ensures
            steps_view(r@) == put_steps(self@, filename@),
    {
        let mut steps: Vec<Step> = self.data_command(command_line("STOR", filename));
        let ghost opened = steps_view(steps@);
        steps.push(expect_either(status::ALREADY_OPEN, status::ABOUT_TO_SEND));
        steps.push(Step::Upload);
        assert(steps_view(steps@) == opened + seq![
            StepView::Expect(seq![status::ALREADY_OPEN, status::ABOUT_TO_SEND]),
            StepView::Upload,
        ]);
        steps
    }

    /// Stores a file on the server.
    pub fn put(&self, filename: &str) -> (r: Exchange)
        ensures
            r@ == ExchangeView::of(
                put_steps(self@, filename@).push(StepView::Expect(transfer_over())),
            ),
            r@ == ExchangeView::of(CommandView::Put(filename@).steps(self@)),
    {
        let mut steps: Vec<Step> = self.put_file(filename);
        let ghost stored = steps_view(steps@);
        steps.push(
            expect_either(status::CLOSING_DATA_CONNECTION, status::REQUESTED_FILE_ACTION_OK),
        );
        assert(steps_view(steps@) == stored.push(StepView::Expect(transfer_over())));
        Exchange::new(steps)
    }

    /// The exchange of a command that gives a list of lines in a connection of its
    /// own.
    fn list_command(&self, cmd: String, open_code: u32, close_code: Vec<u32>) -> (r: Exchange)
        ensures
            r@ == ExchangeView::of(list_steps(self@, cmd@, open_code, close_code@)),
    {
        let mut steps: Vec<Step> = self.data_command(cmd);
        let ghost opened = steps_view(steps@);
        steps.push(expect_either(open_code, status::ALREADY_OPEN));
        steps.push(Step::List);
        steps.push(Step::CloseData);
        steps.push(Step::Expect(close_code));
        assert(steps_view(steps@) == opened + seq![
            StepView::Expect(seq![open_code, status::ALREADY_OPEN]),
            StepView::List,
            StepView::CloseData,
            StepView::Expect(close_code@),
        ]);
        Exchange::new(steps)
    }

    /// Lists the files on `pathname`, or in the current directory, in detail and in
    /// a human readable format.
    pub fn list(&self, pathname: Option<&str>) -> (r: Exchange)
        ensures
            r@ == ExchangeView::of(
                list_steps(
                    self@,
                    command_on("LIST"@, optional_view(pathname)),
                    status::ABOUT_TO_SEND,
                    transfer_over(),
                ),
            ),
            r@ == ExchangeView::of(CommandView::List(optional_view(pathname)).steps(self@)),
    {
        let close_code: Vec<u32> = vec![
            status::CLOSING_DATA_CONNECTION,
            status::REQUESTED_FILE_ACTION_OK,
        ];
        assert(close_code@ == transfer_over());
        self.list_command(command_line_on("LIST", pathname), status::ABOUT_TO_SEND, close_code)
    }

    /// Lists the names of the files on `pathname`, or in the current directory.
    pub fn nlst(&self, pathname: Option<&str>) -> (r: Exchange)
        ensures
            r@ == ExchangeView::of(
                list_steps(
                    self@,
                    command_on("NLST"@, optional_view(pathname)),
                    status::ABOUT_TO_SEND,
                    transfer_over(),
                ),
            ),
            r@ == ExchangeView::of(CommandView::Nlst(optional_view(pathname)).steps(self@)),
    {
        let close_code: Vec<u32> = vec![
            status::CLOSING_DATA_CONNECTION,
            status::REQUESTED_FILE_ACTION_OK,
        ];
        assert(close_code@ == transfer_over());
        self.list_command(command_line_on("NLST", pathname), status::ABOUT_TO_SEND, close_code)
    }

    /// Retrieves the modification time of the file at `pathname`. If the file does
    /// not exist, there is none.
    pub fn mdtm(&self, pathname: &str) -> (r: Exchange)
        ensures
            r@ == ExchangeView::of(
                file_steps(command("MDTM"@, pathname@), Reading::ModificationTime),
            ),
            r@ == ExchangeView::of(CommandView::Mdtm(pathname@).steps(self@)),
    {
        let steps: Vec<Step> = vec![
            send("MDTM", pathname),
            Step::ExpectFile,
            Step::Read(Reading::ModificationTime),
        ];
        assert(steps_view(steps@) == file_steps(
            command("MDTM"@, pathname@),
            Reading::ModificationTime,
        ));
        Exchange::new(steps)
    }

    /// Retrieves the size in bytes of the file at `pathname`. If the file does not
    /// exist, there is none.
    pub fn size(&self, pathname: &str) -> (r: Exchange)
        ensures
            r@ == ExchangeView::of(file_steps(command("SIZE"@, pathname@), Reading::FileSize)),
            r@ == ExchangeView::of(CommandView::Size(pathname@).steps(self@)),
    {
        let steps: Vec<Step> = vec![
            send("SIZE", pathname),
            Step::ExpectFile,
            Step::Read(Reading::FileSize),
        ];
        assert(steps_view(steps@) == file_steps(
            command("SIZE"@, pathname@),
            Reading::FileSize,
        ));
        Exchange::new(steps)
    }

    /// Reads a reply, which has to have the code `expected_code`.
    pub fn read_response(&self, expected_code: u32) -> (r: Exchange)
        ensures
            r@ == ExchangeView::of(response_steps(seq![expected_code])),
            r@ == ExchangeView::of(CommandView::ReadResponse(seq![expected_code]).steps(self@)),
    {
        exchange_of_two(expect(expected_code), Step::Read(Reading::Reply))
    }

    /// Reads a reply, which has to have one of the codes in `expected_code`.
    pub fn read_response_in(&self, expected_code: &[u32]) -> (r: Exchange)
        ensures
            r@ == ExchangeView::of(response_steps(expected_code@)),
            r@ == ExchangeView::of(CommandView::ReadResponse(expected_code@).steps(self@)),
    {
        exchange_of_two(Step::Expect(slice_to_vec(expected_code)), Step::Read(Reading::Reply))
    }
}

} // verus!

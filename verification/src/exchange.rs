//! A command as an exchange with the server: what is done next, and what comes
//! of each event.
//!
//! An exchange owns no connection. It asks its driver for one action at a time
//! and is told of the event in which the action ended. The control connection
//! carries commands and replies; the data connection, which an exchange may have
//! opened, carries files and listings.

use vstd::prelude::*;

use crate::answers::{
    checked_file_size, checked_modification_time, checked_passive_address, current_directory,
    directory_result, extend_listing, listing, passive_fits, passive_result, size_fits,
    size_result, size_view, time_fits, time_result, time_view,
};
use crate::ftp::FtpStream;
use crate::patterns::{passive_groups, time_stamp_groups, trailing_number_groups};
use crate::reply::{
    can_cut, has_code, is_cuttable, reply_step, take_line, unexpected, unexpected_reply, Fed,
    FedView, Head,
};
use crate::status::{FILE, FILE_UNAVAILABLE};
use crate::text::texts;
use crate::types::{ErrorView, FtpError, Line, LineView, SocketAddress};

verus! {

/// What the last reply of an exchange is read for.
#[derive(Debug, Clone, Copy, PartialEq, Eq, Structural)]
pub enum Reading {
    /// Nothing but that the connection is now a session, secured or not.
    Session { secure: bool },
    /// The reply itself.
    Reply,
    /// The name of a directory.
    Directory,
    /// The modification time of a file.
    ModificationTime,
    /// The size of a file.
    FileSize,
}

/// One step of an exchange.
#[derive(Debug)]
pub enum Step {
    /// Open the control connection.
    OpenControl,
    /// Write a command to the control connection.
    Send(String),
    /// Read a reply, which has to have one of these codes.
    Expect(Vec<u32>),
    /// Read a reply on the status of a file, which may be that there is none.
    ExpectFile,
    /// End the exchange, unless the last reply has this code.
    StopUnless(u32),
    /// Write a command to the control connection, then open the data connection to
    /// the address that the last reply announced.
    OpenData(String),
    /// Secure the control connection.
    SecureControl,
    /// Secure the data connection.
    SecureData,
    /// Give the data connection to the caller's reader.
    HandOver,
    /// Read the data connection to its end.
    Download,
    /// Read a listing from the data connection.
    List,
    /// Close the data connection.
    CloseData,
    /// Write the caller's file to the data connection.
    Upload,
    /// Read what the last reply says.
    Read(Reading),
}

/// What a `Step` holds.
pub enum StepView {
    OpenControl,
    Send(Seq<char>),
    Expect(Seq<u32>),
    ExpectFile,
    StopUnless(u32),
    OpenData(Seq<char>),
    SecureControl,
    SecureData,
    HandOver,
    Download,
    List,
    CloseData,
    Upload,
    Read(Reading),
}

impl View for Step {
    type V = StepView;

    open spec fn view(&self) -> StepView {
        match *self {
            Step::OpenControl => StepView::OpenControl,
            Step::Send(command) => StepView::Send(command@),
            Step::Expect(codes) => StepView::Expect(codes@),
            Step::ExpectFile => StepView::ExpectFile,
            Step::StopUnless(code) => StepView::StopUnless(code),
            Step::OpenData(command) => StepView::OpenData(command@),
            Step::SecureControl => StepView::SecureControl,
            Step::SecureData => StepView::SecureData,
            Step::HandOver => StepView::HandOver,
            Step::Download => StepView::Download,
            Step::List => StepView::List,
            Step::CloseData => StepView::CloseData,
            Step::Upload => StepView::Upload,
            Step::Read(reading) => StepView::Read(reading),
        }
    }
}

/// What a sequence of steps holds.
pub open spec fn steps_view(steps: Seq<Step>) -> Seq<StepView> {
    steps.map_values(|s: Step| s@)
}

/// What the driver of an exchange is asked to do.
#[derive(Debug)]
pub enum Action {
    /// Open the control connection to the server.
    OpenControl,
    /// Write the text to the control connection.
    Send(String),
    /// Read a line, with its end, from the control connection; at the end of the
    /// connection the line is empty.
    ReadLine,
    /// Open the data connection to the address.
    OpenData(SocketAddress),
    /// Secure the control connection.
    SecureControl,
    /// Secure the data connection.
    SecureData,
    /// Let the caller's reader have the data connection.
    HandOver,
    /// Read the data connection to its end, as bytes, and close it.
    ReadContents,
    /// Read the data connection to its end, as text. Whatever it held, it is read
    /// once more, and then there is no more text.
    ReadText,
    /// Close the data connection.
    CloseData,
    /// Write the caller's file to the data connection, and close it.
    Upload,
}

/// What an `Action` holds.
pub enum ActionView {
    OpenControl,
    Send(Seq<char>),
    ReadLine,
    OpenData(SocketAddress),
    SecureControl,
    SecureData,
    HandOver,
    ReadContents,
    ReadText,
    CloseData,
    Upload,
}

impl View for Action {
    type V = ActionView;

    open spec fn view(&self) -> ActionView {
        match *self {
            Action::OpenControl => ActionView::OpenControl,
            Action::Send(text) => ActionView::Send(text@),
            Action::ReadLine => ActionView::ReadLine,
            Action::OpenData(address) => ActionView::OpenData(address),
            Action::SecureControl => ActionView::SecureControl,
            Action::SecureData => ActionView::SecureData,
            Action::HandOver => ActionView::HandOver,
            Action::ReadContents => ActionView::ReadContents,
            Action::ReadText => ActionView::ReadText,
            Action::CloseData => ActionView::CloseData,
            Action::Upload => ActionView::Upload,
        }
    }
}

/// What came of an action.
#[derive(Debug)]
pub enum Event {
    /// The exchange starts; no action went before.
    Start,
    /// The text was written.
    Sent,
    /// The line was read.
    Line(String),
    /// The connection is open.
    Opened,
    /// The connection is secured.
    Secured,
    /// The connection could not be secured. For the control connection this has no
    /// way on: it is neither a plain nor a secured one any more.
    HandshakeFailed(String),
    /// The reader is done.
    Handled,
    /// The reader failed.
    ReaderFailed(FtpError),
    /// The data connection held these bytes.
    Contents(Vec<u8>),
    /// The data connection held this text, up to its end. At most one text of an
    /// exchange is not empty: a text is the whole of what the connection held, no
    /// portion of it, and what follows it is empty.
    Text(String),
    /// The data connection is closed.
    Closed,
    /// The file was written.
    Uploaded,
    /// A connection failed.
    Failed(std::io::Error),
}

/// What an `Event` holds.
pub enum EventView {
    Start,
    Sent,
    Line(Seq<char>),
    Opened,
    Secured,
    HandshakeFailed(Seq<char>),
    Handled,
    ReaderFailed(ErrorView),
    Contents(Seq<u8>),
    Text(Seq<char>),
    Closed,
    Uploaded,
    Failed(std::io::Error),
}

impl View for Event {
    type V = EventView;

    open spec fn view(&self) -> EventView {
        match *self {
            Event::Start => EventView::Start,
            Event::Sent => EventView::Sent,
            Event::Line(line) => EventView::Line(line@),
            Event::Opened => EventView::Opened,
            Event::Secured => EventView::Secured,
            Event::HandshakeFailed(message) => EventView::HandshakeFailed(message@),
            Event::Handled => EventView::Handled,
            Event::ReaderFailed(e) => EventView::ReaderFailed(e@),
            Event::Contents(bytes) => EventView::Contents(bytes@),
            Event::Text(text) => EventView::Text(text@),
            Event::Closed => EventView::Closed,
            Event::Uploaded => EventView::Uploaded,
            Event::Failed(e) => EventView::Failed(e),
        }
    }
}

/// What a successful exchange gives.
#[derive(Debug)]
pub enum Outcome {
    /// Nothing but its success.
    Unit,
    /// A session with the server.
    Session(FtpStream),
    /// A reply.
    Reply(Line),
    /// The name of a directory.
    Directory(String),
    /// The modification time of a file, in seconds from the beginning of 1970.
    ModificationTime(Option<i64>),
    /// The size of a file.
    FileSize(Option<usize>),
    /// The lines of a listing.
    Listing(Vec<String>),
    /// The bytes of a file.
    Contents(Vec<u8>),
}

/// What an `Outcome` holds.
pub enum OutcomeView {
    Unit,
    Session { secure: bool },
    Reply(LineView),
    Directory(Seq<char>),
    ModificationTime(Option<int>),
    FileSize(Option<nat>),
    Listing(Seq<Seq<char>>),
    Contents(Seq<u8>),
}

impl View for Outcome {
    type V = OutcomeView;

    open spec fn view(&self) -> OutcomeView {
        match *self {
            Outcome::Unit => OutcomeView::Unit,
            Outcome::Session(session) => OutcomeView::Session { secure: session@ },
            Outcome::Reply(line) => OutcomeView::Reply(line@),
            Outcome::Directory(path) => OutcomeView::Directory(path@),
            Outcome::ModificationTime(time) => OutcomeView::ModificationTime(time_view(time)),
            Outcome::FileSize(size) => OutcomeView::FileSize(size_view(size)),
            Outcome::Listing(lines) => OutcomeView::Listing(texts(lines@)),
            Outcome::Contents(bytes) => OutcomeView::Contents(bytes@),
        }
    }
}

/// The event that an exchange waits for.
#[derive(Debug)]
enum Awaited {
    Start,
    Sent,
    Reply { codes: Vec<u32>, missing: bool, head: Option<Head> },
    CommandSent(SocketAddress),
    Opened,
    ControlSecured,
    DataSecured,
    Handled,
    Contents,
    Text { buffer: String, lines: Vec<String> },
    Closed,
    Uploaded,
}

/// What an exchange waits for.
pub enum AwaitedView {
    /// That it is started.
    Start,
    /// That a command is written.
    Sent,
    /// A line of a reply. The reply has to have one of `codes`, or, where `missing`
    /// holds, the code for a file that is not there. If lines of it were read
    /// before, the first of them began with `head`.
    Reply { codes: Seq<u32>, missing: bool, head: Option<Head> },
    /// That the command for a data connection to this address is written.
    CommandSent(SocketAddress),
    /// That a connection is opened.
    Opened,
    /// That the control connection is secured.
    ControlSecured,
    /// That the data connection is secured.
    DataSecured,
    /// That the caller's reader is done.
    Handled,
    /// The bytes of the data connection.
    Contents,
    /// The text of the data connection, or its end after the text `buffer`, which gave
    /// `lines`.
    Text { buffer: Seq<char>, lines: Seq<Seq<char>> },
    /// That the data connection is closed.
    Closed,
    /// That the caller's file is written.
    Uploaded,
}

impl View for Awaited {
    type V = AwaitedView;

    closed spec fn view(&self) -> AwaitedView {
        match *self {
            Awaited::Start => AwaitedView::Start,
            Awaited::Sent => AwaitedView::Sent,
            Awaited::Reply { codes, missing, head } => AwaitedView::Reply {
                codes: codes@,
                missing,
                head,
            },
            Awaited::CommandSent(address) => AwaitedView::CommandSent(address),
            Awaited::Opened => AwaitedView::Opened,
            Awaited::ControlSecured => AwaitedView::ControlSecured,
            Awaited::DataSecured => AwaitedView::DataSecured,
            Awaited::Handled => AwaitedView::Handled,
            Awaited::Contents => AwaitedView::Contents,
            Awaited::Text { buffer, lines } => AwaitedView::Text {
                buffer: buffer@,
                lines: texts(lines@),
            },
            Awaited::Closed => AwaitedView::Closed,
            Awaited::Uploaded => AwaitedView::Uploaded,
        }
    }
}

/// A command under way.
#[derive(Debug)]
pub struct Exchange {
    steps: Vec<Step>,
    awaited: Awaited,
    reply: Line,
    outcome: Outcome,
}

/// What an `Exchange` holds: the event that it waits for, the steps that follow,
/// the last reply, and what it gives if it ends now.
pub struct ExchangeView {
    pub awaited: AwaitedView,
    pub steps: Seq<StepView>,
    pub reply: LineView,
    pub outcome: OutcomeView,
}

impl View for Exchange {
    type V = ExchangeView;

    closed spec fn view(&self) -> ExchangeView {
        ExchangeView {
            awaited: self.awaited@,
            steps: steps_view(self.steps@),
            reply: self.reply@,
            outcome: self.outcome@,
        }
    }
}

/// How an exchange goes on.
#[derive(Debug)]
pub enum Progress {
    /// The action is to be performed, and the exchange told of what came of it.
    Perform(Action, Exchange),
    /// The exchange is over.
    Done(Result<Outcome, FtpError>),
}

/// What a `Progress` holds.
pub enum ProgressView {
    Perform(ActionView, ExchangeView),
    Done(Result<OutcomeView, ErrorView>),
}

impl View for Progress {
    type V = ProgressView;

    open spec fn view(&self) -> ProgressView {
        match *self {
            Progress::Perform(action, exchange) => ProgressView::Perform(action@, exchange@),
            Progress::Done(Ok(outcome)) => ProgressView::Done(Ok(outcome@)),
            Progress::Done(Err(e)) => ProgressView::Done(Err(e@)),
        }
    }
}

/// How an exchange goes on that is left with the steps `steps` after the reply
/// `reply`, and gives `outcome` if it ends now.
///
/// There is no way on, `None`, where the reply is read for a number that does not
/// fit its type or for a date that does not exist.
pub open spec fn proceed(
    steps: Seq<StepView>,
    reply: LineView,
    outcome: OutcomeView,
) -> Option<ProgressView>
    decreases steps.len(),
{
    if steps.len() == 0 {
        Some(ProgressView::Done(Ok(outcome)))
    } else {
        let rest = steps.drop_first();
        let perform = |action: ActionView, awaited: AwaitedView|
            Some(
                ProgressView::Perform(
                    action,
                    ExchangeView { awaited, steps: rest, reply, outcome },
                ),
            );
        match steps[0] {
            StepView::OpenControl => perform(ActionView::OpenControl, AwaitedView::Opened),
            StepView::Send(command) => perform(ActionView::Send(command), AwaitedView::Sent),
            StepView::Expect(codes) => perform(
                ActionView::ReadLine,
                AwaitedView::Reply { codes, missing: false, head: None },
            ),
            StepView::ExpectFile => perform(
                ActionView::ReadLine,
                AwaitedView::Reply { codes: seq![FILE], missing: true, head: None },
            ),
            StepView::StopUnless(code) => if reply.code == code {
                proceed(rest, reply, outcome)
            } else {
                Some(ProgressView::Done(Ok(outcome)))
            },
            StepView::OpenData(command) => {
                let found = passive_groups(reply.text);
                if !passive_fits(found) {
                    None
                } else {
                    match passive_result(reply.text, found) {
                        Ok(address) => perform(
                            ActionView::Send(command),
                            AwaitedView::CommandSent(address),
                        ),
                        Err(e) => Some(ProgressView::Done(Err(e))),
                    }
                }
            },
            StepView::SecureControl => perform(
                ActionView::SecureControl,
                AwaitedView::ControlSecured,
            ),
            StepView::SecureData => perform(ActionView::SecureData, AwaitedView::DataSecured),
            StepView::HandOver => perform(ActionView::HandOver, AwaitedView::Handled),
            StepView::Download => perform(ActionView::ReadContents, AwaitedView::Contents),
            StepView::List => perform(
                ActionView::ReadText,
                AwaitedView::Text { buffer: Seq::empty(), lines: Seq::empty() },
            ),
            StepView::CloseData => perform(ActionView::CloseData, AwaitedView::Closed),
            StepView::Upload => perform(ActionView::Upload, AwaitedView::Uploaded),
            StepView::Read(reading) => match read_reply(reading, reply) {
                Some(Ok(read)) => proceed(rest, reply, read),
                Some(Err(e)) => Some(ProgressView::Done(Err(e))),
                None => None,
            },
        }
    }
}

/// What a reply says, if it is read for `reading`; `None` where a number in it does
/// not fit its type, or a date in it does not exist.
pub open spec fn read_reply(reading: Reading, reply: LineView) -> Option<
    Result<OutcomeView, ErrorView>,
> {
    match reading {
        Reading::Session { secure } => Some(Ok(OutcomeView::Session { secure })),
        Reading::Reply => Some(Ok(OutcomeView::Reply(reply))),
        Reading::Directory => match directory_result(reply.text) {
            Ok(path) => Some(Ok(OutcomeView::Directory(path))),
            Err(e) => Some(Err(e)),
        },
        Reading::ModificationTime => {
            let found = time_stamp_groups(reply.text);
            if reply.code == FILE_UNAVAILABLE {
                Some(Ok(OutcomeView::ModificationTime(None)))
            } else if time_fits(found) {
                Some(Ok(OutcomeView::ModificationTime(time_result(found))))
            } else {
                None
            }
        },
        Reading::FileSize => {
            let found = trailing_number_groups(reply.text);
            if reply.code == FILE_UNAVAILABLE {
                Some(Ok(OutcomeView::FileSize(None)))
            } else if size_fits(found) {
                Some(Ok(OutcomeView::FileSize(size_result(found))))
            } else {
                None
            }
        },
    }
}

impl ExchangeView {
    /// A command that takes the steps `steps`, not started.
    pub open spec fn of(steps: Seq<StepView>) -> ExchangeView {
        ExchangeView {
            awaited: AwaitedView::Start,
            steps,
            reply: LineView { code: 0, text: Seq::empty() },
            outcome: OutcomeView::Unit,
        }
    }

    /// The exchange, waiting for something else.
    pub open spec fn awaiting(self, awaited: AwaitedView) -> ExchangeView {
        ExchangeView { awaited, ..self }
    }

    /// How the exchange goes on after an event.
    ///
    /// There is no way on, `None`, after an event that no answer to the last action
    /// can be, after a line with a character that lies across the end of the code,
    /// where the control connection could not be secured, and where `proceed` says
    /// so.
    pub open spec fn advance(self, event: EventView) -> Option<ProgressView> {
        match (self.awaited, event) {
            (AwaitedView::Start, EventView::Start) => proceed(
                self.steps,
                self.reply,
                self.outcome,
            ),
            (AwaitedView::Start, _) => None,
            (_, EventView::Failed(e)) => Some(ProgressView::Done(Err(ErrorView::Connection(e)))),
            (AwaitedView::Reply { codes, missing, head }, EventView::Line(line)) => if !is_cuttable(
                head,
                line,
            ) {
                None
            } else {
                match reply_step(head, line) {
                    FedView::More(h) => Some(
                        ProgressView::Perform(
                            ActionView::ReadLine,
                            self.awaiting(AwaitedView::Reply { codes, missing, head: Some(h) }),
                        ),
                    ),
                    FedView::Complete(reply) => if codes.contains(reply.code) || (missing
                        && reply.code == FILE_UNAVAILABLE) {
                        proceed(self.steps, reply, self.outcome)
                    } else {
                        Some(ProgressView::Done(Err(unexpected(codes, reply.text))))
                    },
                    FedView::Broken(e) => Some(ProgressView::Done(Err(e))),
                }
            },
            (AwaitedView::CommandSent(address), EventView::Sent) => Some(
                ProgressView::Perform(
                    ActionView::OpenData(address),
                    self.awaiting(AwaitedView::Opened),
                ),
            ),
            (AwaitedView::Sent, EventView::Sent)
            | (AwaitedView::Opened, EventView::Opened)
            | (AwaitedView::ControlSecured, EventView::Secured)
            | (AwaitedView::DataSecured, EventView::Secured)
            | (AwaitedView::Handled, EventView::Handled)
            | (AwaitedView::Closed, EventView::Closed)
            | (AwaitedView::Uploaded, EventView::Uploaded) => proceed(
                self.steps,
                self.reply,
                self.outcome,
            ),
            (AwaitedView::DataSecured, EventView::HandshakeFailed(message)) => Some(
                ProgressView::Done(Err(ErrorView::Secure(message))),
            ),
            (AwaitedView::Handled, EventView::ReaderFailed(e)) => Some(ProgressView::Done(Err(e))),
            (AwaitedView::Contents, EventView::Contents(bytes)) => proceed(
                self.steps,
                self.reply,
                OutcomeView::Contents(bytes),
            ),
            (AwaitedView::Text { buffer, lines }, EventView::Text(text)) => if text.len() == 0 {
                proceed(self.steps, self.reply, OutcomeView::Listing(lines))
            } else {
                Some(
                    ProgressView::Perform(
                        ActionView::ReadText,
                        self.awaiting(
                            AwaitedView::Text {
                                buffer: buffer + text,
                                lines: lines + listing(buffer + text),
                            },
                        ),
                    ),
                )
            },
            _ => None,
        }
    }
}

/// The progress of an exchange, as far as there is any.
pub open spec fn progress_view(r: Option<Progress>) -> Option<ProgressView> {
    match r {
        Some(p) => Some(p@),
        None => None,
    }
}

/// A reading of a reply, taken by its view.
pub open spec fn reading_view(r: Option<Result<Outcome, FtpError>>) -> Option<
    Result<OutcomeView, ErrorView>,
> {
    match r {
        Some(Ok(outcome)) => Some(Ok(outcome@)),
        Some(Err(e)) => Some(Err(e@)),
        None => None,
    }
}

/// What the reply `reply` says, if it is read for `reading`.
fn read(reading: Reading, reply: &Line) -> (r: Option<Result<Outcome, FtpError>>)
    ensures
        reading_view(r) == read_reply(reading, reply@),
{
    match reading {
        Reading::Session { secure } => Some(Ok(Outcome::Session(FtpStream::new(secure)))),
        Reading::Reply => Some(Ok(Outcome::Reply(Line(reply.0, reply.1.clone())))),
        Reading::Directory => match current_directory(reply.1.as_str()) {
            Ok(path) => Some(Ok(Outcome::Directory(path))),
            Err(e) => Some(Err(e)),
        },
        Reading::ModificationTime => if reply.0 == FILE_UNAVAILABLE {
            Some(Ok(Outcome::ModificationTime(None)))
        } else {
            match checked_modification_time(reply.1.as_str()) {
                Some(time) => Some(Ok(Outcome::ModificationTime(time))),
                None => None,
            }
        },
        Reading::FileSize => if reply.0 == FILE_UNAVAILABLE {
            Some(Ok(Outcome::FileSize(None)))
        } else {
            match checked_file_size(reply.1.as_str()) {
                Some(size) => Some(Ok(Outcome::FileSize(size))),
                None => None,
            }
        },
    }
}

/// Goes on with the steps `steps` after the reply `reply`.
fn take_steps(steps: Vec<Step>, reply: Line, outcome: Outcome) -> (r: Option<Progress>)
    ensures
        progress_view(r) == proceed(steps_view(steps@), reply@, outcome@),
    decreases steps@.len(),
{
    let mut rest: Vec<Step> = steps;
    if rest.len() == 0 {
        return Some(Progress::Done(Ok(outcome)));
    }
    let ghost all = steps_view(rest@);
    let step: Step = rest.remove(0);
    proof {
        assert(step@ == all[0]);
        assert(steps_view(rest@) == all.drop_first());
    }
    let (action, awaited): (Action, Awaited) = match step {
        Step::OpenControl => (Action::OpenControl, Awaited::Opened),
        Step::Send(command) => (Action::Send(command), Awaited::Sent),
        Step::Expect(codes) => (
            Action::ReadLine,
            Awaited::Reply { codes, missing: false, head: None },
        ),
        Step::ExpectFile => {
            let mut codes: Vec<u32> = Vec::new();
            codes.push(FILE);
            assert(codes@ == seq![FILE]);
            (Action::ReadLine, Awaited::Reply { codes, missing: true, head: None })
        },
        Step::StopUnless(code) => {
            return if reply.0 == code {
                take_steps(rest, reply, outcome)
            } else {
                Some(Progress::Done(Ok(outcome)))
            };
        },
        Step::OpenData(command) => match checked_passive_address(reply.1.as_str()) {
            Some(Ok(address)) => (Action::Send(command), Awaited::CommandSent(address)),
            Some(Err(e)) => {
                return Some(Progress::Done(Err(e)));
            },
            None => {
                return None;
            },
        },
        Step::SecureControl => (Action::SecureControl, Awaited::ControlSecured),
        Step::SecureData => (Action::SecureData, Awaited::DataSecured),
        Step::HandOver => (Action::HandOver, Awaited::Handled),
        Step::Download => (Action::ReadContents, Awaited::Contents),
        Step::List => {
            let lines: Vec<String> = Vec::new();
            assert(texts(lines@) == Seq::<Seq<char>>::empty());
            (Action::ReadText, Awaited::Text { buffer: String::new(), lines })
        },
        Step::CloseData => (Action::CloseData, Awaited::Closed),
        Step::Upload => (Action::Upload, Awaited::Uploaded),
        Step::Read(reading) => {
            return match read(reading, &reply) {
                Some(Ok(outcome)) => take_steps(rest, reply, outcome),
                Some(Err(e)) => Some(Progress::Done(Err(e))),
                None => None,
            };
        },
    };
    Some(Progress::Perform(action, Exchange { steps: rest, awaited, reply, outcome }))
}

impl Exchange {
    /// A command that takes the steps `steps`. It waits for the event that starts
    /// it.
    pub(crate) fn new(steps: Vec<Step>) -> (r: Exchange)
        ensures
            r@ == ExchangeView::of(steps_view(steps@)),
    {
        let reply: Line = Line(0, String::new());
        Exchange { steps, awaited: Awaited::Start, reply, outcome: Outcome::Unit }
    }

    /// Goes on after the event, or gives `None` where there is no way on.
    pub fn advance(self, event: Event) -> (r: Option<Progress>)
        ensures
            progress_view(r) == self@.advance(event@),
    {
        let Exchange { steps, awaited, reply, outcome } = self;
        match (awaited, event) {
            (Awaited::Start, Event::Start) => take_steps(steps, reply, outcome),
            (Awaited::Start, _) => None,
            (_, Event::Failed(e)) => Some(Progress::Done(Err(FtpError::ConnectionError(e)))),
            (Awaited::Reply { codes, missing, head }, Event::Line(line)) => {
                if !can_cut(head, line.as_str()) {
                    return None;
                }
                match take_line(head, line) {
                    Fed::More(h) => Some(
                        Progress::Perform(
                            Action::ReadLine,
                            Exchange {
                                steps,
                                awaited: Awaited::Reply { codes, missing, head: Some(h) },
                                reply,
                                outcome,
                            },
                        ),
                    ),
                    Fed::Complete(answer) => if has_code(&codes, answer.0) || (missing && answer.0
                        == FILE_UNAVAILABLE) {
                        take_steps(steps, answer, outcome)
                    } else {
                        Some(Progress::Done(Err(unexpected_reply(&codes, answer.1.as_str()))))
                    },
                    Fed::Broken(e) => Some(Progress::Done(Err(e))),
                }
            },
            (Awaited::CommandSent(address), Event::Sent) => Some(
                Progress::Perform(
                    Action::OpenData(address),
                    Exchange { steps, awaited: Awaited::Opened, reply, outcome },
                ),
            ),
            (Awaited::Sent, Event::Sent)
            | (Awaited::Opened, Event::Opened)
            | (Awaited::ControlSecured, Event::Secured)
            | (Awaited::DataSecured, Event::Secured)
            | (Awaited::Handled, Event::Handled)
            | (Awaited::Closed, Event::Closed)
            | (Awaited::Uploaded, Event::Uploaded) => take_steps(steps, reply, outcome),
            (Awaited::DataSecured, Event::HandshakeFailed(message)) => Some(
                Progress::Done(Err(FtpError::SecureError(message))),
            ),
            (Awaited::Handled, Event::ReaderFailed(e)) => Some(Progress::Done(Err(e))),
            (Awaited::Contents, Event::Contents(bytes)) => take_steps(
                steps,
                reply,
                Outcome::Contents(bytes),
            ),
            (Awaited::Text { buffer, lines }, Event::Text(text)) => {
                if text.as_str().is_empty() {
                    return take_steps(steps, reply, Outcome::Listing(lines));
                }
                let mut buffer: String = buffer;
                let mut lines: Vec<String> = lines;
                buffer.append(text.as_str());
                extend_listing(&mut lines, buffer.as_str());
                Some(
                    Progress::Perform(
                        Action::ReadText,
                        Exchange {
                            steps,
                            awaited: Awaited::Text { buffer, lines },
                            reply,
                            outcome,
                        },
                    ),
                )
            },
            _ => None,
        }
    }
}

} // verus!

//! What holds of whole sessions: which of their data connections are secured.

use vstd::prelude::*;

use crate::exchange::{
    proceed, read_reply, ActionView, EventView, ExchangeView, OutcomeView, ProgressView, Reading,
    StepView,
};
use crate::ftp::{
    ask, bare_command, command, command_on, connect_steps, data_steps, file_steps,
    into_secure_steps, list_steps, login_steps, put_steps, response_steps, retrieve_steps,
    transfer_over,
};
use crate::laws::{
    after, awaits, law_action_awaited, lemma_after_concat, lemma_after_one, performs, run,
};
use crate::status;
use crate::types::{ErrorView, FileType, LineView};

verus! {

/// A command of a session, with its arguments.
pub enum CommandView {
    Login { user: Seq<char>, password: Seq<char> },
    Cwd(Seq<char>),
    Cdup,
    Pwd,
    Noop,
    Mkdir(Seq<char>),
    TransferType(FileType),
    Quit,
    Rename { from: Seq<char>, to: Seq<char> },
    Get(Seq<char>),
    Retr(Seq<char>),
    SimpleRetr(Seq<char>),
    Rmdir(Seq<char>),
    Rm(Seq<char>),
    Put(Seq<char>),
    List(Option<Seq<char>>),
    Nlst(Option<Seq<char>>),
    Mdtm(Seq<char>),
    Size(Seq<char>),
    ReadResponse(Seq<u32>),
}

impl CommandView {
    /// The steps of the command, in a session that is secured or not.
    pub open spec fn steps(self, secure: bool) -> Seq<StepView> {
        match self {
            CommandView::Login { user, password } => login_steps(user, password),
            CommandView::Cwd(path) => ask(
                command("CWD"@, path),
                seq![status::REQUESTED_FILE_ACTION_OK],
            ),
            CommandView::Cdup => ask(
                bare_command("CDUP"@),
                seq![status::COMMAND_OK, status::REQUESTED_FILE_ACTION_OK],
            ),
            CommandView::Pwd => ask(bare_command("PWD"@), seq![status::PATH_CREATED]).push(
                StepView::Read(Reading::Directory),
            ),
            CommandView::Noop => ask(bare_command("NOOP"@), seq![status::COMMAND_OK]),
            CommandView::Mkdir(path) => ask(command("MKD"@, path), seq![status::PATH_CREATED]),
            CommandView::TransferType(file_type) => ask(
                command("TYPE"@, file_type.argument()),
                seq![status::COMMAND_OK],
            ),
            CommandView::Quit => ask(bare_command("QUIT"@), seq![status::CLOSING]),
            CommandView::Rename { from, to } => ask(
                command("RNFR"@, from),
                seq![status::REQUEST_FILE_PENDING],
            ) + ask(command("RNTO"@, to), seq![status::REQUESTED_FILE_ACTION_OK]),
            CommandView::Get(file) => data_steps(secure, command("RETR"@, file)).push(
                StepView::Expect(seq![status::ABOUT_TO_SEND]),
            ),
            CommandView::Retr(file) => retrieve_steps(secure, file, StepView::HandOver),
            CommandView::SimpleRetr(file) => retrieve_steps(secure, file, StepView::Download),
            CommandView::Rmdir(path) => ask(
                command("RMD"@, path),
                seq![status::REQUESTED_FILE_ACTION_OK],
            ),
            CommandView::Rm(file) => ask(
                command("DELE"@, file),
                seq![status::REQUESTED_FILE_ACTION_OK],
            ),
            CommandView::Put(file) => put_steps(secure, file).push(
                StepView::Expect(transfer_over()),
            ),
            CommandView::List(path) => list_steps(
                secure,
                command_on("LIST"@, path),
                status::ABOUT_TO_SEND,
                transfer_over(),
            ),
            CommandView::Nlst(path) => list_steps(
                secure,
                command_on("NLST"@, path),
                status::ABOUT_TO_SEND,
                transfer_over(),
            ),
            CommandView::Mdtm(path) => file_steps(
                command("MDTM"@, path),
                Reading::ModificationTime,
            ),
            CommandView::Size(path) => file_steps(command("SIZE"@, path), Reading::FileSize),
            CommandView::ReadResponse(codes) => response_steps(codes),
        }
    }

    /// Whether the command sends data in a connection of its own.
    pub open spec fn has_data_connection(self) -> bool {
        ||| self is Get || self is Retr || self is SimpleRetr
        ||| self is Put || self is List || self is Nlst
    }
}

/// What is done with a session, and the events that happen to it.
pub enum CallView {
    /// The session is switched to a secure mode.
    IntoSecure { events: Seq<EventView> },
    /// A command is carried out, to its end or not.
    Command { command: CommandView, events: Seq<EventView> },
}

/// Whether the session is secured that an exchange gave, if it gave one.
pub open spec fn session_given(p: Option<ProgressView>) -> Option<bool> {
    match p {
        Some(ProgressView::Done(Ok(OutcomeView::Session { secure }))) => Some(secure),
        _ => None,
    }
}

/// Whether the session is secured that was created in the events `opened`, and with
/// which `calls` were made since; `None` if there is no such session, because it was
/// not created or did not survive the switch to a secure mode.
///
/// A switch takes the session and gives another. A command leaves it as it is,
/// whatever comes of the command.
pub open spec fn session(opened: Seq<EventView>, calls: Seq<CallView>) -> Option<bool>
    decreases calls.len(),
{
    if calls.len() == 0 {
        session_given(run(connect_steps(), opened))
    } else {
        match (session(opened, calls.drop_last()), calls.last()) {
            (Some(secure), CallView::IntoSecure { events }) => session_given(
                run(into_secure_steps(secure), events),
            ),
            (s, CallView::Command { .. }) => s,
            (None, _) => None,
        }
    }
}

/// Whether a switch to a secure mode is among `calls`.
pub open spec fn was_secured(calls: Seq<CallView>) -> bool {
    exists|k: int| 0 <= k < calls.len() && #[trigger] calls[k] is IntoSecure
}

/// Whether an exchange that came to `p` uses its data connection next, or has
/// succeeded.
pub open spec fn uses_data(p: Option<ProgressView>) -> bool {
    match p {
        Some(ProgressView::Perform(action, _)) => {
            ||| action is HandOver || action is ReadContents
            ||| action is ReadText || action is Upload
        },
        Some(ProgressView::Done(Ok(_))) => true,
        _ => false,
    }
}

/// Whether the data connection of an exchange was secured in the course of `events`:
/// the exchange asked for it, and it was done.
pub open spec fn data_was_secured(steps: Seq<StepView>, events: Seq<EventView>) -> bool {
    exists|k: int|
        0 <= k < events.len() && #[trigger] events[k] is Secured && performs(
            run(steps, events.take(k)),
            ActionView::SecureData,
        )
}

/// Whether `steps` end with giving a session, after steps that give nothing and
/// cannot be left out.
spec fn gives_session(steps: Seq<StepView>, secure: bool) -> bool
    decreases steps.len(),
{
    if steps.len() == 0 {
        false
    } else if steps.len() == 1 {
        steps[0] == StepView::Read(Reading::Session { secure })
    } else {
        &&& steps[0] is OpenControl || steps[0] is Send || steps[0] is Expect
            || steps[0] is SecureControl
        &&& gives_session(steps.drop_first(), secure)
    }
}

/// Whether an exchange that came to `p` gives a session, if it succeeds.
spec fn will_give_session(p: Option<ProgressView>, secure: bool) -> bool {
    match p {
        Some(ProgressView::Perform(_, x)) => gives_session(x.steps, secure),
        Some(ProgressView::Done(Ok(o))) => o == (OutcomeView::Session { secure }),
        _ => true,
    }
}

/// Steps that give a session go on to give it.
proof fn lemma_gives_session(steps: Seq<StepView>, secure: bool)
    requires
        gives_session(steps, secure),
    ensures
        forall|reply: LineView, outcome: OutcomeView|
            will_give_session(#[trigger] proceed(steps, reply, outcome), secure),
{
    if steps.len() == 1 {
        assert(steps.drop_first() == Seq::<StepView>::empty());
        reveal_with_fuel(proceed, 2);
    }
}

/// An exchange of such steps gives the session, whatever happens, if it succeeds.
proof fn lemma_session_given(steps: Seq<StepView>, secure: bool, events: Seq<EventView>)
    requires
        gives_session(steps, secure),
    ensures
        will_give_session(run(steps, events), secure),
    decreases events.len(),
{
    let p = ExchangeView::of(steps).advance(EventView::Start);
    if events.len() == 0 {
        lemma_gives_session(steps, secure);
    } else {
        let before = events.drop_last();
        lemma_session_given(steps, secure, before);
        assert(events == before + seq![events.last()]);
        lemma_after_concat(p, before, seq![events.last()]);
        lemma_after_one(after(p, before), events.last());
        if let Some(ProgressView::Perform(_, x)) = after(p, before) {
            lemma_gives_session(x.steps, secure);
        }
    }
}

/// A session is created plain.
proof fn lemma_connect_is_plain(events: Seq<EventView>)
    ensures
        session_given(run(connect_steps(), events)) matches Some(secure) ==> !secure,
{
    reveal_with_fuel(gives_session, 4);
    lemma_session_given(connect_steps(), false, events);
}

/// A switch to a secure mode gives a secured session.
proof fn lemma_switch_is_secure(before: bool, events: Seq<EventView>)
    ensures
        session_given(run(into_secure_steps(before), events)) matches Some(secure) ==> secure,
{
    reveal_with_fuel(gives_session, 9);
    lemma_session_given(into_secure_steps(before), true, events);
}

/// Whether no step secures a data connection.
spec fn is_plain(steps: Seq<StepView>) -> bool {
    forall|i: int| 0 <= i < steps.len() ==> !(#[trigger] steps[i] is SecureData)
}

/// Whether an exchange that came to `p` secures no data connection now or later.
spec fn stays_plain(p: Option<ProgressView>) -> bool {
    match p {
        Some(ProgressView::Perform(action, x)) => !(action is SecureData) && is_plain(x.steps),
        _ => true,
    }
}

/// Steps that secure no data connection go on to secure none.
proof fn lemma_plain_steps(steps: Seq<StepView>, reply: LineView, outcome: OutcomeView)
    requires
        is_plain(steps),
    ensures
        stays_plain(proceed(steps, reply, outcome)),
    decreases steps.len(),
{
    if steps.len() > 0 {
        let rest = steps.drop_first();
        assert forall|i: int| 0 <= i < rest.len() implies !(#[trigger] rest[i] is SecureData) by {
            assert(rest[i] == steps[i + 1]);
        }
        lemma_plain_steps(rest, reply, outcome);
        if let StepView::Read(reading) = steps[0] {
            if let Some(Ok(read)) = read_reply(reading, reply) {
                lemma_plain_steps(rest, reply, read);
            }
        }
    }
}

/// An exchange of such steps secures no data connection, whatever happens.
proof fn lemma_plain_run(steps: Seq<StepView>, events: Seq<EventView>)
    requires
        is_plain(steps),
    ensures
        stays_plain(run(steps, events)),
    decreases events.len(),
{
    let start = ExchangeView::of(steps);
    let p = start.advance(EventView::Start);
    if events.len() == 0 {
        lemma_plain_steps(steps, start.reply, start.outcome);
    } else {
        let before = events.drop_last();
        lemma_plain_run(steps, before);
        assert(events == before + seq![events.last()]);
        lemma_after_concat(p, before, seq![events.last()]);
        lemma_after_one(after(p, before), events.last());
        if let Some(ProgressView::Perform(_, x)) = after(p, before) {
            assert forall|reply: LineView, outcome: OutcomeView| stays_plain(
                #[trigger] proceed(x.steps, reply, outcome),
            ) by {
                lemma_plain_steps(x.steps, reply, outcome);
            }
        }
    }
}

/// Whether the steps come to securing the data connection before anything is done
/// with it and before they can end.
spec fn is_locked(steps: Seq<StepView>) -> bool
    decreases steps.len(),
{
    if steps.len() == 0 {
        false
    } else if steps[0] is SecureData {
        true
    } else {
        &&& steps[0] is Send || steps[0] is Expect || steps[0] is OpenData
        &&& is_locked(steps.drop_first())
    }
}

/// Whether an exchange that came to `p` has failed, or has its data connection still
/// to secure.
spec fn stays_locked(p: Option<ProgressView>) -> bool {
    match p {
        Some(ProgressView::Perform(action, x)) => {
            ||| action is SecureData && x.awaited is DataSecured
            ||| {
                &&& action is Send || action is ReadLine || action is OpenData
                &&& x.awaited is Sent || x.awaited is Reply || x.awaited is CommandSent
                    || x.awaited is Opened
                &&& is_locked(x.steps)
            }
        },
        Some(ProgressView::Done(Ok(_))) => false,
        _ => true,
    }
}

/// Steps that come to securing the data connection go on to secure it.
proof fn lemma_locked_steps(steps: Seq<StepView>)
    requires
        is_locked(steps),
    ensures
        forall|reply: LineView, outcome: OutcomeView|
            stays_locked(#[trigger] proceed(steps, reply, outcome)),
{
}

/// An exchange of such steps has failed or has its data connection still to secure,
/// unless the connection was secured.
proof fn lemma_locked_run(steps: Seq<StepView>, events: Seq<EventView>)
    requires
        is_locked(steps),
    ensures
        stays_locked(run(steps, events)) || data_was_secured(steps, events),
    decreases events.len(),
{
    let p = ExchangeView::of(steps).advance(EventView::Start);
    if events.len() == 0 {
        lemma_locked_steps(steps);
    } else {
        let before = events.drop_last();
        let last = events.len() - 1;
        lemma_locked_run(steps, before);
        assert(events == before + seq![events.last()]);
        assert(events.take(last) == before);
        lemma_after_concat(p, before, seq![events.last()]);
        lemma_after_one(after(p, before), events.last());
        if data_was_secured(steps, before) {
            let k = choose|k: int|
                0 <= k < before.len() && #[trigger] before[k] is Secured && performs(
                    run(steps, before.take(k)),
                    ActionView::SecureData,
                );
            assert(before.take(k) == events.take(k));
            assert(events[k] is Secured);
        } else if let Some(ProgressView::Perform(action, x)) = after(p, before) {
            if action is SecureData {
                if events[last] is Secured {
                    assert(performs(run(steps, events.take(last)), ActionView::SecureData));
                }
            } else {
                lemma_locked_steps(x.steps);
            }
        }
    }
}

/// The steps of a command secure no data connection in a plain session, and come to
/// securing it in a secured one.
proof fn lemma_command_steps(c: CommandView, secure: bool)
    ensures
        !secure || !c.has_data_connection() ==> is_plain(c.steps(secure)),
        secure && c.has_data_connection() ==> is_locked(c.steps(secure)),
{
    let steps = c.steps(secure);
    if secure && c.has_data_connection() {
        assert(steps[0] is Send && steps[1] is Expect && steps[2] is OpenData);
        assert(steps[3] is SecureData);
        let s1 = steps.drop_first();
        let s2 = s1.drop_first();
        let s3 = s2.drop_first();
        assert(s1[0] == steps[1] && s2[0] == steps[2] && s3[0] == steps[3]);
        reveal_with_fuel(is_locked, 5);
    }
}

/// An exchange that asks for an action waits for what comes of it, whatever has
/// happened.
proof fn lemma_run_awaits(steps: Seq<StepView>, events: Seq<EventView>)
    ensures
        run(steps, events) matches Some(ProgressView::Perform(action, x)) ==> awaits(
            action,
            x.awaited,
        ),
{
    let start = ExchangeView::of(steps);
    if events.len() == 0 {
        law_action_awaited(start, EventView::Start);
    } else {
        let p = start.advance(EventView::Start);
        let before = events.drop_last();
        assert(events == before + seq![events.last()]);
        lemma_after_concat(p, before, seq![events.last()]);
        lemma_after_one(after(p, before), events.last());
        if let Some(ProgressView::Perform(_, x)) = after(p, before) {
            law_action_awaited(x, events.last());
        }
    }
}

/// A session is secured if and only if it was switched to a secure mode; it is plain
/// from its creation up to that switch, and no command changes what it is.
pub proof fn law_session(opened: Seq<EventView>, calls: Seq<CallView>)
    ensures
        session(opened, calls) matches Some(secure) ==> secure == was_secured(calls),
    decreases calls.len(),
{
    if calls.len() == 0 {
        lemma_connect_is_plain(opened);
    } else {
        let before = calls.drop_last();
        law_session(opened, before);
        let last = calls.len() - 1;
        match calls.last() {
            CallView::IntoSecure { events } => {
                if let Some(secure) = session(opened, before) {
                    lemma_switch_is_secure(secure, events);
                }
                assert(calls[last] is IntoSecure);
            },
            CallView::Command { .. } => {
                if was_secured(before) {
                    let k = choose|k: int|
                        0 <= k < before.len() && #[trigger] before[k] is IntoSecure;
                    assert(calls[k] is IntoSecure);
                }
                if was_secured(calls) {
                    let k = choose|k: int|
                        0 <= k < calls.len() && #[trigger] calls[k] is IntoSecure;
                    assert(before[k] is IntoSecure);
                }
            },
        }
    }
}

/// In a session, a data connection is secured if and only if the session was switched
/// to a secure mode before.
///
/// If it was not, no command ever asks for a data connection to be secured, whatever
/// happens. If it was, no command uses its data connection, or succeeds, before the
/// connection was secured. Where the connection cannot be secured, the command fails
/// with the reason.
#[verifier::spinoff_prover]
#[verifier::rlimit(60)]
pub proof fn law_session_data(
    opened: Seq<EventView>,
    calls: Seq<CallView>,
    c: CommandView,
    events: Seq<EventView>,
    reason: Seq<char>,
)
    requires
        session(opened, calls) is Some,
    ensures
        ({
            let steps = c.steps(session(opened, calls)->0);
            let p = run(steps, events);
            &&& !was_secured(calls) ==> !performs(p, ActionView::SecureData)
            &&& c.has_data_connection() && uses_data(p) ==> (data_was_secured(steps, events)
                <==> was_secured(calls))
            &&& performs(p, ActionView::SecureData) ==> run(
                steps,
                events.push(EventView::HandshakeFailed(reason)),
            ) == Some(ProgressView::Done(Err(ErrorView::Secure(reason))))
        }),
{
    let secure = session(opened, calls)->0;
    let steps = c.steps(secure);
    law_session(opened, calls);
    lemma_command_steps(c, secure);
    if secure && c.has_data_connection() {
        lemma_locked_run(steps, events);
    } else {
        assert forall|k: int| 0 <= k <= events.len() implies !performs(
            run(steps, #[trigger] events.take(k)),
            ActionView::SecureData,
        ) by {
            lemma_plain_run(steps, events.take(k));
        }
        assert(events.take(events.len() as int) == events);
    }
    if performs(run(steps, events), ActionView::SecureData) {
        let p = ExchangeView::of(steps).advance(EventView::Start);
        let failed = seq![EventView::HandshakeFailed(reason)];
        lemma_run_awaits(steps, events);
        assert(events.push(failed[0]) == events + failed);
        lemma_after_concat(p, events, failed);
        lemma_after_one(after(p, events), failed[0]);
    }
}

} // verus!

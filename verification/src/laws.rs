//! What holds of whole exchanges.

use vstd::prelude::*;
use vstd::utf8::encode_utf8;

use crate::answers::{directory_result, listing, nonempty, passive_fits, passive_result, pieces};
use crate::exchange::{
    proceed, read_reply, ActionView, AwaitedView, EventView, ExchangeView, OutcomeView,
    ProgressView, Reading, StepView,
};
use crate::ftp::{
    ask, bare_command, command, connect_steps, data_steps, file_steps, into_secure_steps,
    list_steps, login_steps, put_steps, response_steps, retrieve_steps, transfer_begins,
    transfer_over,
};
use crate::patterns::passive_groups;
use crate::reply::{code_value, ends_reply, is_cuttable, reply_step, unexpected, FedView, Head};
use crate::status;
use crate::types::{ErrorView, LineView, SocketAddress};

verus! {

/// How an exchange goes on that came to `p`, and to which then `events` happen.
/// There is no way on after the end of the exchange.
pub open spec fn after(p: Option<ProgressView>, events: Seq<EventView>) -> Option<ProgressView>
    decreases events.len(),
{
    if events.len() == 0 {
        p
    } else {
        match p {
            Some(ProgressView::Perform(_, x)) => after(x.advance(events[0]), events.drop_first()),
            _ => None,
        }
    }
}

/// How an exchange of the steps `steps` goes on after it was started and `events`
/// have happened.
pub open spec fn run(steps: Seq<StepView>, events: Seq<EventView>) -> Option<ProgressView> {
    after(ExchangeView::of(steps).advance(EventView::Start), events)
}

/// Whether an exchange that came to `p` next performs `action`.
pub open spec fn performs(p: Option<ProgressView>, action: ActionView) -> bool {
    p matches Some(ProgressView::Perform(a, _)) && a == action
}

/// Lines that are read one after the other.
pub open spec fn read(lines: Seq<Seq<char>>) -> Seq<EventView> {
    lines.map_values(|l: Seq<char>| EventView::Line(l))
}

/// The code at the beginning of `line`, if it spells the number `code`.
pub open spec fn head_of(line: Seq<char>, code: u32) -> Head {
    let b = encode_utf8(line);
    Head { b1: b[0], b2: b[1], b3: b[2], code }
}

/// Whether `lines` are the lines of one reply with the code `code`: the first
/// begins with the code, and only the last begins with the same code and a space.
pub open spec fn is_reply(lines: Seq<Seq<char>>, code: u32) -> bool {
    &&& lines.len() > 0
    &&& ({
        let b = encode_utf8(lines[0]);
        b.len() >= 5 && code_value(b[0], b[1], b[2]) == Some(code)
    })
    &&& forall|i: int|
        0 <= i < lines.len() - 1 ==> !ends_reply(head_of(lines[0], code), #[trigger] lines[i])
    &&& ends_reply(head_of(lines[0], code), lines.last())
    &&& is_cuttable(None, lines[0])
    &&& forall|i: int|
        0 < i < lines.len() ==> is_cuttable(
            Some(head_of(lines[0], code)),
            #[trigger] lines[i],
        )
}

/// How an exchange goes on that waited for a reply with one of `codes`, and read
/// `reply`.
pub open spec fn answered(
    x: ExchangeView,
    codes: Seq<u32>,
    missing: bool,
    reply: LineView,
) -> Option<ProgressView> {
    if codes.contains(reply.code) || (missing && reply.code == status::FILE_UNAVAILABLE) {
        proceed(x.steps, reply, x.outcome)
    } else {
        Some(ProgressView::Done(Err(unexpected(codes, reply.text))))
    }
}

/// Events that happen in two portions.
pub(crate) proof fn lemma_after_concat(
    p: Option<ProgressView>,
    a: Seq<EventView>,
    b: Seq<EventView>,
)
    ensures
        after(p, a + b) == after(after(p, a), b),
    decreases a.len(),
{
    if a.len() == 0 {
        assert(a + b == b);
    } else {
        assert((a + b).drop_first() == a.drop_first() + b);
        assert((a + b)[0] == a[0]);
        match p {
            Some(ProgressView::Perform(_, x)) => {
                lemma_after_concat(x.advance(a[0]), a.drop_first(), b);
            },
            _ => {},
        }
    }
}

/// One event.
pub(crate) proof fn lemma_after_one(p: Option<ProgressView>, e: EventView)
    ensures
        after(p, seq![e]) == match p {
            Some(ProgressView::Perform(_, x)) => x.advance(e),
            _ => None,
        },
{
    assert(seq![e].drop_first() == Seq::<EventView>::empty());
    reveal_with_fuel(after, 2);
}

/// The lines of a reply after the first.
proof fn lemma_reply_rest(
    x: ExchangeView,
    lines: Seq<Seq<char>>,
    k: int,
    codes: Seq<u32>,
    missing: bool,
    code: u32,
)
    requires
        is_reply(lines, code),
        1 <= k < lines.len(),
        x.awaited == (AwaitedView::Reply {
            codes,
            missing,
            head: Some(head_of(lines[0], code)),
        }),
    ensures
        after(Some(ProgressView::Perform(ActionView::ReadLine, x)), read(lines.skip(k)))
            == answered(x, codes, missing, LineView { code, text: lines.last() }),
    decreases lines.len() - k,
{
    let p = Some(ProgressView::Perform(ActionView::ReadLine, x));
    let events = read(lines.skip(k));
    assert(events[0] == EventView::Line(lines[k]));
    assert(events.drop_first() == read(lines.skip(k + 1)));
    let head = head_of(lines[0], code);
    if k == lines.len() - 1 {
        assert(events.drop_first() == Seq::<EventView>::empty());
        reveal_with_fuel(after, 2);
        assert(reply_step(Some(head), lines[k]) == FedView::Complete(
            LineView { code, text: lines[k] },
        ));
    } else {
        assert(reply_step(Some(head), lines[k]) == FedView::More(head));
        let next = x.awaiting(AwaitedView::Reply { codes, missing, head: Some(head) });
        assert(x.advance(events[0]) == Some(ProgressView::Perform(ActionView::ReadLine, next)));
        lemma_reply_rest(next, lines, k + 1, codes, missing, code);
    }
}

/// A reply is read to its last line, however many lines it has. If its code is one
/// of those expected, the exchange goes on with that line. If not, the exchange
/// ends there with an error that says which codes were expected, and nothing more
/// is sent.
pub proof fn law_reply(
    x: ExchangeView,
    lines: Seq<Seq<char>>,
    codes: Seq<u32>,
    missing: bool,
    code: u32,
)
    requires
        is_reply(lines, code),
        x.awaited == (AwaitedView::Reply { codes, missing, head: None }),
    ensures
        after(Some(ProgressView::Perform(ActionView::ReadLine, x)), read(lines)) == answered(
            x,
            codes,
            missing,
            LineView { code, text: lines.last() },
        ),
{
    let events = read(lines);
    let head = head_of(lines[0], code);
    assert(events[0] == EventView::Line(lines[0]));
    assert(events.drop_first() == read(lines.skip(1)));
    if lines.len() == 1 {
        assert(lines.last() == lines[0]);
        assert(events.drop_first() == Seq::<EventView>::empty());
        reveal_with_fuel(after, 2);
    } else {
        assert(!ends_reply(head, lines[0]));
        assert(reply_step(None, lines[0]) == FedView::More(head));
        let next = x.awaiting(AwaitedView::Reply { codes, missing, head: Some(head) });
        lemma_reply_rest(next, lines, 1, codes, missing, code);
    }
}

/// A step that sends a command: the command is what is performed, and once it is
/// sent the exchange goes on with the steps that follow.
proof fn lemma_send(line: Seq<char>, rest: Seq<StepView>, reply: LineView, outcome: OutcomeView)
    ensures
        performs(
            proceed(seq![StepView::Send(line)] + rest, reply, outcome),
            ActionView::Send(line),
        ),
        after(
            proceed(seq![StepView::Send(line)] + rest, reply, outcome),
            seq![EventView::Sent],
        ) == proceed(rest, reply, outcome),
{
    let steps = seq![StepView::Send(line)] + rest;
    assert(steps.drop_first() == rest);
    lemma_after_one(proceed(steps, reply, outcome), EventView::Sent);
}

/// A step that reads a reply.
proof fn lemma_expect(
    codes: Seq<u32>,
    rest: Seq<StepView>,
    reply: LineView,
    outcome: OutcomeView,
    lines: Seq<Seq<char>>,
    code: u32,
)
    requires
        is_reply(lines, code),
    ensures
        after(proceed(seq![StepView::Expect(codes)] + rest, reply, outcome), read(lines)) == if
        codes.contains(code) {
            proceed(rest, LineView { code, text: lines.last() }, outcome)
        } else {
            Some(ProgressView::Done(Err(unexpected(codes, lines.last()))))
        },
{
    let steps = seq![StepView::Expect(codes)] + rest;
    assert(steps.drop_first() == rest);
    let x = ExchangeView {
        awaited: AwaitedView::Reply { codes, missing: false, head: None },
        steps: rest,
        reply,
        outcome,
    };
    assert(proceed(steps, reply, outcome) == Some(
        ProgressView::Perform(ActionView::ReadLine, x),
    ));
    law_reply(x, lines, codes, false, code);
}

/// A command that is one line and its answer, with more steps to follow.
pub(crate) proof fn lemma_ask(
    line: Seq<char>,
    codes: Seq<u32>,
    rest: Seq<StepView>,
    reply: LineView,
    outcome: OutcomeView,
    lines: Seq<Seq<char>>,
    code: u32,
)
    requires
        is_reply(lines, code),
    ensures
        performs(proceed(ask(line, codes) + rest, reply, outcome), ActionView::Send(line)),
        after(
            proceed(ask(line, codes) + rest, reply, outcome),
            seq![EventView::Sent] + read(lines),
        ) == if codes.contains(code) {
            proceed(rest, LineView { code, text: lines.last() }, outcome)
        } else {
            Some(ProgressView::Done(Err(unexpected(codes, lines.last()))))
        },
{
    let steps = ask(line, codes) + rest;
    let then = seq![StepView::Expect(codes)] + rest;
    assert(steps == seq![StepView::Send(line)] + then);
    lemma_send(line, then, reply, outcome);
    lemma_expect(codes, rest, reply, outcome, lines, code);
    lemma_after_concat(proceed(steps, reply, outcome), seq![EventView::Sent], read(lines));
}

/// A command that is one line succeeds if the server answers with a code that the
/// command expects, and fails with any other code.
pub proof fn law_ask(line: Seq<char>, codes: Seq<u32>, lines: Seq<Seq<char>>, code: u32)
    requires
        is_reply(lines, code),
    ensures
        performs(run(ask(line, codes), Seq::empty()), ActionView::Send(line)),
        run(ask(line, codes), seq![EventView::Sent] + read(lines)) == Some(
            ProgressView::Done(
                if codes.contains(code) {
                    Ok(OutcomeView::Unit)
                } else {
                    Err(unexpected(codes, lines.last()))
                },
            ),
        ),
{
    let x = ExchangeView::of(ask(line, codes));
    assert(ask(line, codes) + Seq::<StepView>::empty() == ask(line, codes));
    lemma_ask(line, codes, Seq::empty(), x.reply, x.outcome, lines, code);
}

/// The events of an answered command: it is sent, and the lines of its reply are
/// read.
pub open spec fn sent_and_read(lines: Seq<Seq<char>>) -> Seq<EventView> {
    seq![EventView::Sent] + read(lines)
}

/// The reply that `lines` amount to.
pub open spec fn reply_of(lines: Seq<Seq<char>>, code: u32) -> LineView {
    LineView { code, text: lines.last() }
}

/// Whether `lines` are a passive reply that announces `address`.
pub open spec fn announces(lines: Seq<Seq<char>>, address: SocketAddress) -> bool {
    &&& is_reply(lines, status::PASSIVE_MODE)
    &&& passive_fits(passive_groups(lines.last()))
    &&& passive_result(lines.last(), passive_groups(lines.last())) == Ok::<
        SocketAddress,
        ErrorView,
    >(address)
}

/// The events that open a data connection, in a session that is secured or not.
pub open spec fn data_opened(secure: bool, lines: Seq<Seq<char>>) -> Seq<EventView> {
    sent_and_read(lines) + seq![EventView::Sent, EventView::Opened] + (if secure {
        seq![EventView::Secured]
    } else {
        Seq::empty()
    })
}

/// How a data connection is opened, with more steps to follow.
proof fn lemma_data(
    secure: bool,
    line: Seq<char>,
    rest: Seq<StepView>,
    reply: LineView,
    outcome: OutcomeView,
    lines: Seq<Seq<char>>,
    address: SocketAddress,
)
    requires
        announces(lines, address),
    ensures
        ({
            let p = proceed(data_steps(secure, line) + rest, reply, outcome);
            let asked = sent_and_read(lines);
            &&& performs(p, ActionView::Send(bare_command("PASV"@)))
            &&& performs(after(p, asked), ActionView::Send(line))
            &&& performs(after(p, asked + seq![EventView::Sent]), ActionView::OpenData(address))
            &&& secure ==> performs(
                after(p, asked + seq![EventView::Sent, EventView::Opened]),
                ActionView::SecureData,
            )
            &&& after(p, data_opened(secure, lines)) == proceed(
                rest,
                reply_of(lines, status::PASSIVE_MODE),
                outcome,
            )
        }),
{
    let codes = seq![status::PASSIVE_MODE];
    assert(codes.contains(codes[0]));
    let securing = if secure {
        seq![StepView::SecureData]
    } else {
        Seq::empty()
    };
    let then = securing + rest;
    let opening = seq![StepView::OpenData(line)] + then;
    let steps = data_steps(secure, line) + rest;
    assert(steps == ask(bare_command("PASV"@), codes) + opening);
    lemma_ask(bare_command("PASV"@), codes, opening, reply, outcome, lines, codes[0]);
    let p = proceed(steps, reply, outcome);
    let asked = sent_and_read(lines);
    let announced = reply_of(lines, status::PASSIVE_MODE);
    let p1 = after(p, asked);
    assert(p1 == proceed(opening, announced, outcome));
    assert(opening.drop_first() == then);
    lemma_after_concat(p, asked, seq![EventView::Sent]);
    lemma_after_one(p1, EventView::Sent);
    let p2 = after(p, asked + seq![EventView::Sent]);
    lemma_after_one(p2, EventView::Opened);
    lemma_after_concat(p, asked + seq![EventView::Sent], seq![EventView::Opened]);
    assert(asked + seq![EventView::Sent] + seq![EventView::Opened] == asked + seq![
        EventView::Sent,
        EventView::Opened,
    ]);
    let p3 = after(p, asked + seq![EventView::Sent, EventView::Opened]);
    assert(p3 == proceed(then, announced, outcome));
    if secure {
        assert(then.drop_first() == rest);
        lemma_after_one(p3, EventView::Secured);
        lemma_after_concat(
            p,
            asked + seq![EventView::Sent, EventView::Opened],
            seq![EventView::Secured],
        );
    } else {
        assert(then == rest);
        assert(data_opened(secure, lines) == asked + seq![EventView::Sent, EventView::Opened]);
    }
}

/// A command that needs a data connection first asks the server for an address,
/// then sends the command, and then opens the connection to the address that the
/// server announced. The connection is secured if and only if the session is.
pub proof fn law_data_connection(
    secure: bool,
    line: Seq<char>,
    rest: Seq<StepView>,
    lines: Seq<Seq<char>>,
    address: SocketAddress,
)
    requires
        announces(lines, address),
    ensures
        ({
            let steps = data_steps(secure, line) + rest;
            let asked = sent_and_read(lines);
            &&& performs(run(steps, Seq::empty()), ActionView::Send(bare_command("PASV"@)))
            &&& performs(run(steps, asked), ActionView::Send(line))
            &&& performs(run(steps, asked + seq![EventView::Sent]), ActionView::OpenData(address))
            &&& secure ==> performs(
                run(steps, asked + seq![EventView::Sent, EventView::Opened]),
                ActionView::SecureData,
            )
            &&& run(steps, data_opened(secure, lines)) == proceed(
                rest,
                reply_of(lines, status::PASSIVE_MODE),
                OutcomeView::Unit,
            )
        }),
{
    let x = ExchangeView::of(Seq::empty());
    lemma_data(secure, line, rest, x.reply, x.outcome, lines, address);
}

/// A passive reply in which no address is found ends the exchange with an error,
/// and the command is not sent.
pub proof fn law_no_address(
    secure: bool,
    line: Seq<char>,
    rest: Seq<StepView>,
    lines: Seq<Seq<char>>,
)
    requires
        is_reply(lines, status::PASSIVE_MODE),
        passive_groups(lines.last()) is None,
    ensures
        run(data_steps(secure, line) + rest, sent_and_read(lines)) == Some(
            ProgressView::Done(
                Err(ErrorView::InvalidResponse("Invalid PASV response: "@ + lines.last())),
            ),
        ),
{
    let codes = seq![status::PASSIVE_MODE];
    assert(codes.contains(codes[0]));
    let steps = data_steps(secure, line) + rest;
    let opening = steps.skip(2);
    assert(steps == ask(bare_command("PASV"@), codes) + opening);
    let x = ExchangeView::of(steps);
    lemma_ask(bare_command("PASV"@), codes, opening, x.reply, x.outcome, lines, codes[0]);
    assert(opening[0] == StepView::OpenData(line));
}

/// The user name is sent first. If the server answers that the user is logged in,
/// the login is over and the password is never sent. If it asks for the password,
/// the password is sent, and the login succeeds if and only if the server then
/// answers that the user is logged in. Any other answer to the user name ends the
/// login with an error, and the password is never sent.
#[verifier::spinoff_prover]
#[verifier::rlimit(60)]
pub proof fn law_login(
    user: Seq<char>,
    password: Seq<char>,
    first: Seq<Seq<char>>,
    first_code: u32,
    second: Seq<Seq<char>>,
    second_code: u32,
)
    requires
        is_reply(first, first_code),
        is_reply(second, second_code),
    ensures
        ({
            let steps = login_steps(user, password);
            let p = run(steps, sent_and_read(first));
            &&& performs(run(steps, Seq::empty()), ActionView::Send(command("USER"@, user)))
            &&& first_code == status::LOGGED_IN ==> p == Some(
                ProgressView::Done(Ok(OutcomeView::Unit)),
            )
            &&& first_code == status::NEED_PASSWORD ==> {
                &&& performs(p, ActionView::Send(command("PASS"@, password)))
                &&& run(steps, sent_and_read(first) + sent_and_read(second)) == Some(
                    ProgressView::Done(
                        if second_code == status::LOGGED_IN {
                            Ok(OutcomeView::Unit)
                        } else {
                            Err(unexpected(seq![status::LOGGED_IN], second.last()))
                        },
                    ),
                )
            }
            &&& first_code != status::LOGGED_IN && first_code != status::NEED_PASSWORD ==> p
                == Some(
                ProgressView::Done(
                    Err(
                        unexpected(
                            seq![status::LOGGED_IN, status::NEED_PASSWORD],
                            first.last(),
                        ),
                    ),
                ),
            )
        }),
{
    let steps = login_steps(user, password);
    let x = ExchangeView::of(steps);
    let codes = seq![status::LOGGED_IN, status::NEED_PASSWORD];
    let logged_in = seq![status::LOGGED_IN];
    assert(codes.contains(codes[0]) && codes.contains(codes[1]));
    assert(logged_in.contains(logged_in[0]));
    let pass = ask(command("PASS"@, password), logged_in) + Seq::<StepView>::empty();
    let then = seq![StepView::StopUnless(status::NEED_PASSWORD)] + pass;
    assert(steps == ask(command("USER"@, user), codes) + then);
    lemma_ask(command("USER"@, user), codes, then, x.reply, x.outcome, first, first_code);
    assert(then.drop_first() == pass);
    if first_code == status::NEED_PASSWORD {
        let reply = reply_of(first, first_code);
        assert(run(steps, sent_and_read(first)) == proceed(then, reply, x.outcome));
        assert(proceed(then, reply, x.outcome) == proceed(pass, reply, x.outcome));
        lemma_ask(
            command("PASS"@, password),
            logged_in,
            Seq::empty(),
            reply,
            x.outcome,
            second,
            second_code,
        );
        lemma_after_concat(
            x.advance(EventView::Start),
            sent_and_read(first),
            sent_and_read(second),
        );
    }
}

/// A file is renamed in two commands; the new name is sent only after the server
/// has accepted the old one.
#[verifier::spinoff_prover]
#[verifier::rlimit(60)]
pub proof fn law_rename(
    from: Seq<char>,
    to: Seq<char>,
    first: Seq<Seq<char>>,
    first_code: u32,
    second: Seq<Seq<char>>,
    second_code: u32,
)
    requires
        is_reply(first, first_code),
        is_reply(second, second_code),
    ensures
        ({
            let pending = seq![status::REQUEST_FILE_PENDING];
            let okay = seq![status::REQUESTED_FILE_ACTION_OK];
            let steps = ask(command("RNFR"@, from), pending) + ask(command("RNTO"@, to), okay);
            let p = run(steps, sent_and_read(first));
            &&& performs(run(steps, Seq::empty()), ActionView::Send(command("RNFR"@, from)))
            &&& if first_code == status::REQUEST_FILE_PENDING {
                &&& performs(p, ActionView::Send(command("RNTO"@, to)))
                &&& run(steps, sent_and_read(first) + sent_and_read(second)) == Some(
                    ProgressView::Done(
                        if second_code == status::REQUESTED_FILE_ACTION_OK {
                            Ok(OutcomeView::Unit)
                        } else {
                            Err(unexpected(okay, second.last()))
                        },
                    ),
                )
            } else {
                p == Some(ProgressView::Done(Err(unexpected(pending, first.last()))))
            }
        }),
{
    let pending = seq![status::REQUEST_FILE_PENDING];
    let okay = seq![status::REQUESTED_FILE_ACTION_OK];
    assert(pending.contains(pending[0]) && okay.contains(okay[0]));
    let none = Seq::<StepView>::empty();
    let then = ask(command("RNTO"@, to), okay) + none;
    let steps = ask(command("RNFR"@, from), pending) + ask(command("RNTO"@, to), okay);
    assert(steps == ask(command("RNFR"@, from), pending) + then);
    let x = ExchangeView::of(steps);
    lemma_ask(command("RNFR"@, from), pending, then, x.reply, x.outcome, first, first_code);
    let reply = reply_of(first, first_code);
    lemma_ask(command("RNTO"@, to), okay, none, reply, x.outcome, second, second_code);
    lemma_after_concat(x.advance(EventView::Start), sent_and_read(first), sent_and_read(second));
}

/// To secure a session that is already secured does nothing: no action is
/// performed, and the session is what it was.
pub proof fn law_already_secure()
    ensures
        run(into_secure_steps(true), Seq::empty()) == Some(
            ProgressView::Done(Ok(OutcomeView::Session { secure: true })),
        ),
{
    let steps = into_secure_steps(true);
    assert(steps.drop_first() == Seq::<StepView>::empty());
    reveal_with_fuel(proceed, 2);
}

/// The events of a successful switch to a secure mode.
pub open spec fn secured(
    auth: Seq<Seq<char>>,
    pbsz: Seq<Seq<char>>,
    prot: Seq<Seq<char>>,
) -> Seq<EventView> {
    sent_and_read(auth) + seq![EventView::Secured] + sent_and_read(pbsz) + sent_and_read(prot)
}

/// A session becomes secured once the server has accepted the security mechanism,
/// the control connection is secured, and the server has accepted the protection
/// of data connections. If the control connection cannot be secured, there is no
/// way on, neither to a session nor to an error.
#[verifier::spinoff_prover]
#[verifier::rlimit(60)]
pub proof fn law_into_secure(
    auth: Seq<Seq<char>>,
    pbsz: Seq<Seq<char>>,
    prot: Seq<Seq<char>>,
    reason: Seq<char>,
)
    requires
        is_reply(auth, status::AUTH_OK),
        is_reply(pbsz, status::COMMAND_OK),
        is_reply(prot, status::COMMAND_OK),
    ensures
        ({
            let steps = into_secure_steps(false);
            &&& performs(
                run(steps, Seq::empty()),
                ActionView::Send(command("AUTH"@, "TLS"@)),
            )
            &&& performs(run(steps, sent_and_read(auth)), ActionView::SecureControl)
            &&& run(steps, sent_and_read(auth) + seq![EventView::HandshakeFailed(reason)]) is None
            &&& performs(
                run(steps, sent_and_read(auth) + seq![EventView::Secured]),
                ActionView::Send(command("PBSZ"@, "0"@)),
            )
            &&& performs(
                run(steps, sent_and_read(auth) + seq![EventView::Secured] + sent_and_read(pbsz)),
                ActionView::Send(command("PROT"@, "P"@)),
            )
            &&& run(steps, secured(auth, pbsz, prot)) == Some(
                ProgressView::Done(Ok(OutcomeView::Session { secure: true })),
            )
        }),
{
    let steps = into_secure_steps(false);
    let x = ExchangeView::of(steps);
    let p = x.advance(EventView::Start);
    let auth_ok = seq![status::AUTH_OK];
    let okay = seq![status::COMMAND_OK];
    assert(auth_ok.contains(auth_ok[0]) && okay.contains(okay[0]));
    let last = seq![StepView::Read(Reading::Session { secure: true })];
    let protecting = ask(command("PROT"@, "P"@), okay) + last;
    let sizing = ask(command("PBSZ"@, "0"@), okay) + protecting;
    let securing = seq![StepView::SecureControl] + sizing;
    assert(steps == ask(command("AUTH"@, "TLS"@), auth_ok) + securing);
    let r1 = reply_of(auth, status::AUTH_OK);
    let r2 = reply_of(pbsz, status::COMMAND_OK);
    let r3 = reply_of(prot, status::COMMAND_OK);
    lemma_ask(
        command("AUTH"@, "TLS"@),
        auth_ok,
        securing,
        x.reply,
        x.outcome,
        auth,
        status::AUTH_OK,
    );
    assert(securing.drop_first() == sizing);
    let e1 = sent_and_read(auth);
    let e2 = e1 + seq![EventView::Secured];
    let e3 = e2 + sent_and_read(pbsz);
    lemma_after_concat(p, e1, seq![EventView::HandshakeFailed(reason)]);
    lemma_after_one(after(p, e1), EventView::HandshakeFailed(reason));
    lemma_after_concat(p, e1, seq![EventView::Secured]);
    lemma_after_one(after(p, e1), EventView::Secured);
    assert(after(p, e2) == proceed(sizing, r1, x.outcome));
    lemma_ask(
        command("PBSZ"@, "0"@),
        okay,
        protecting,
        r1,
        x.outcome,
        pbsz,
        status::COMMAND_OK,
    );
    lemma_after_concat(p, e2, sent_and_read(pbsz));
    assert(after(p, e3) == proceed(protecting, r2, x.outcome));
    lemma_ask(command("PROT"@, "P"@), okay, last, r2, x.outcome, prot, status::COMMAND_OK);
    lemma_after_concat(p, e3, sent_and_read(prot));
    assert(last.drop_first() == Seq::<StepView>::empty());
    assert(proceed(last, r3, x.outcome) == Some(
        ProgressView::Done(Ok(OutcomeView::Session { secure: true })),
    )) by {
        reveal_with_fuel(proceed, 2);
    }
}

/// A session begins, not secured, when the control connection is open and the
/// server has said that it is ready.
pub proof fn law_connect(lines: Seq<Seq<char>>, code: u32)
    requires
        is_reply(lines, code),
    ensures
        performs(run(connect_steps(), Seq::empty()), ActionView::OpenControl),
        run(connect_steps(), seq![EventView::Opened] + read(lines)) == Some(
            ProgressView::Done(
                if code == status::READY {
                    Ok(OutcomeView::Session { secure: false })
                } else {
                    Err(unexpected(seq![status::READY], lines.last()))
                },
            ),
        ),
{
    let steps = connect_steps();
    let x = ExchangeView::of(steps);
    let p = x.advance(EventView::Start);
    let ready = seq![status::READY];
    assert(ready.contains(ready[0]));
    let last = seq![StepView::Read(Reading::Session { secure: false })];
    let then = seq![StepView::Expect(ready)] + last;
    assert(steps.drop_first() == then);
    lemma_after_one(p, EventView::Opened);
    lemma_expect(ready, last, x.reply, x.outcome, lines, code);
    lemma_after_concat(p, seq![EventView::Opened], read(lines));
    assert(last.drop_first() == Seq::<StepView>::empty());
    reveal_with_fuel(proceed, 2);
}

/// When a connection fails, the command under way ends with that failure.
pub proof fn law_connection_failure(x: ExchangeView, e: std::io::Error)
    requires
        x.awaited !is Start,
    ensures
        x.advance(EventView::Failed(e)) == Some(
            ProgressView::Done(Err(ErrorView::Connection(e))),
        ),
{
}

/// Where a reply should begin, a line of less than five bytes, such as the empty one
/// at the end of the connection, ends the exchange with an error.
pub proof fn law_no_reply(x: ExchangeView, codes: Seq<u32>, missing: bool, line: Seq<char>)
    requires
        x.awaited == (AwaitedView::Reply { codes, missing, head: None }),
        encode_utf8(line).len() < 5,
    ensures
        x.advance(EventView::Line(line)) == Some(
            ProgressView::Done(
                Err(ErrorView::InvalidResponse("error: could not read reply code"@)),
            ),
        ),
{
}

/// Whether an exchange that has asked for `action` waits for what comes of it.
pub open spec fn awaits(action: ActionView, awaited: AwaitedView) -> bool {
    match action {
        ActionView::OpenControl | ActionView::OpenData(_) => awaited is Opened,
        ActionView::Send(_) => awaited is Sent || awaited is CommandSent,
        ActionView::ReadLine => awaited is Reply,
        ActionView::SecureControl => awaited is ControlSecured,
        ActionView::SecureData => awaited is DataSecured,
        ActionView::HandOver => awaited is Handled,
        ActionView::ReadContents => awaited is Contents,
        ActionView::ReadText => awaited is Text,
        ActionView::CloseData => awaited is Closed,
        ActionView::Upload => awaited is Uploaded,
    }
}

/// Whether `event` is something that can come of `action`.
pub open spec fn is_answer(action: ActionView, event: EventView) -> bool {
    event is Failed || match action {
        ActionView::OpenControl | ActionView::OpenData(_) => event is Opened,
        ActionView::Send(_) => event is Sent,
        ActionView::ReadLine => event is Line,
        ActionView::SecureControl | ActionView::SecureData => event is Secured
            || event is HandshakeFailed,
        ActionView::HandOver => event is Handled || event is ReaderFailed,
        ActionView::ReadContents => event is Contents,
        ActionView::ReadText => event is Text,
        ActionView::CloseData => event is Closed,
        ActionView::Upload => event is Uploaded,
    }
}

/// The steps of an exchange ask for an action and wait for what comes of it.
proof fn lemma_proceed_awaits(steps: Seq<StepView>, reply: LineView, outcome: OutcomeView)
    ensures
        proceed(steps, reply, outcome) matches Some(ProgressView::Perform(action, x)) ==> awaits(
            action,
            x.awaited,
        ),
    decreases steps.len(),
{
    if steps.len() > 0 {
        let rest = steps.drop_first();
        lemma_proceed_awaits(rest, reply, outcome);
        if let StepView::Read(reading) = steps[0] {
            if let Some(Ok(read)) = read_reply(reading, reply) {
                lemma_proceed_awaits(rest, reply, read);
            }
        }
    }
}

/// An exchange that asks for an action waits for what comes of that action.
pub proof fn law_action_awaited(x: ExchangeView, event: EventView)
    ensures
        x.advance(event) matches Some(ProgressView::Perform(action, y)) ==> awaits(
            action,
            y.awaited,
        ),
{
    lemma_proceed_awaits(x.steps, x.reply, x.outcome);
    match event {
        EventView::Line(line) => {
            if let AwaitedView::Reply { head, .. } = x.awaited {
                if let FedView::Complete(reply) = reply_step(head, line) {
                    lemma_proceed_awaits(x.steps, reply, x.outcome);
                }
            }
        },
        EventView::Contents(bytes) => {
            lemma_proceed_awaits(x.steps, x.reply, OutcomeView::Contents(bytes));
        },
        EventView::Text(_) => {
            if let AwaitedView::Text { lines, .. } = x.awaited {
                lemma_proceed_awaits(x.steps, x.reply, OutcomeView::Listing(lines));
            }
        },
        _ => {},
    }
}

/// Whatever comes of the action that an exchange has asked for, the exchange goes
/// on or ends. There is no way on only after a line that cannot be cut, where the
/// control connection could not be secured, and where the steps that follow read a
/// number that does not fit or a date that does not exist.
pub proof fn law_answer_is_taken(action: ActionView, x: ExchangeView, event: EventView)
    requires
        awaits(action, x.awaited),
        is_answer(action, event),
        x.advance(event) is None,
    ensures
        match (x.awaited, event) {
            (AwaitedView::Reply { head, .. }, EventView::Line(line)) => {
                ||| !is_cuttable(head, line)
                ||| reply_step(head, line) matches FedView::Complete(reply) && proceed(
                    x.steps,
                    reply,
                    x.outcome,
                ) is None
            },
            (AwaitedView::Contents, EventView::Contents(bytes)) => proceed(
                x.steps,
                x.reply,
                OutcomeView::Contents(bytes),
            ) is None,
            (AwaitedView::Text { lines, .. }, EventView::Text(_)) => proceed(
                x.steps,
                x.reply,
                OutcomeView::Listing(lines),
            ) is None,
            _ => {
                ||| action is SecureControl && event is HandshakeFailed
                ||| proceed(x.steps, x.reply, x.outcome) is None
            },
        },
{
}

/// A listing is read until there is no more text. Then the data connection was read to its
/// end, and the outcome is the lines that were found, no line more and none less.
pub proof fn law_listing_is_read_to_its_end(
    x: ExchangeView,
    buffer: Seq<char>,
    lines: Seq<Seq<char>>,
    text: Seq<char>,
)
    requires
        x.awaited == (AwaitedView::Text { buffer, lines }),
    ensures
        x.advance(EventView::Text(Seq::empty())) == proceed(
            x.steps,
            x.reply,
            OutcomeView::Listing(lines),
        ),
        text.len() > 0 ==> (x.advance(EventView::Text(text)) matches Some(
            ProgressView::Perform(ActionView::ReadText, y),
        ) && y.steps == x.steps && y.reply == x.reply && y.outcome == x.outcome && y.awaited == (
        AwaitedView::Text { buffer: buffer + text, lines: lines + listing(buffer + text) })),
{
}

/// An event that cannot come of the action that an exchange has asked for has no way
/// on, and neither has any but the start of an exchange that is not started, nor the
/// start of one that is.
pub proof fn law_other_event_is_refused(action: ActionView, x: ExchangeView, event: EventView)
    ensures
        awaits(action, x.awaited) && !is_answer(action, event) ==> x.advance(event) is None,
        x.awaited is Start && !(event is Start) ==> x.advance(event) is None,
        !(x.awaited is Start) && event is Start ==> x.advance(event) is None,
{
}

/// How a transfer goes on, with more steps to follow, after its data connection is
/// open and the server has answered.
proof fn lemma_transfer(
    secure: bool,
    line: Seq<char>,
    codes: Seq<u32>,
    rest: Seq<StepView>,
    lines: Seq<Seq<char>>,
    address: SocketAddress,
    begin: Seq<Seq<char>>,
    begin_code: u32,
)
    requires
        announces(lines, address),
        is_reply(begin, begin_code),
    ensures
        run(
            data_steps(secure, line) + (seq![StepView::Expect(codes)] + rest),
            data_opened(secure, lines) + read(begin),
        ) == if codes.contains(begin_code) {
            proceed(rest, reply_of(begin, begin_code), OutcomeView::Unit)
        } else {
            Some(ProgressView::Done(Err(unexpected(codes, begin.last()))))
        },
{
    let then = seq![StepView::Expect(codes)] + rest;
    let steps = data_steps(secure, line) + then;
    law_data_connection(secure, line, then, lines, address);
    lemma_expect(
        codes,
        rest,
        reply_of(lines, status::PASSIVE_MODE),
        OutcomeView::Unit,
        begin,
        begin_code,
    );
    lemma_after_concat(
        ExchangeView::of(steps).advance(EventView::Start),
        data_opened(secure, lines),
        read(begin),
    );
}

/// How the last reply of a transfer ends it.
pub open spec fn transfer_ended(
    end: Seq<Seq<char>>,
    end_code: u32,
    outcome: OutcomeView,
) -> Option<ProgressView> {
    Some(
        ProgressView::Done(
            if transfer_over().contains(end_code) {
                Ok(outcome)
            } else {
                Err(unexpected(transfer_over(), end.last()))
            },
        ),
    )
}

/// The exchange that retrieves a file, after the server has answered that the
/// transfer begins.
proof fn lemma_retrieve(
    secure: bool,
    file: Seq<char>,
    transfer: StepView,
    lines: Seq<Seq<char>>,
    address: SocketAddress,
    begin: Seq<Seq<char>>,
    begin_code: u32,
)
    requires
        announces(lines, address),
        is_reply(begin, begin_code),
    ensures
        run(
            retrieve_steps(secure, file, transfer),
            data_opened(secure, lines) + read(begin),
        ) == if transfer_begins().contains(begin_code) {
            proceed(
                seq![transfer, StepView::Expect(transfer_over())],
                reply_of(begin, begin_code),
                OutcomeView::Unit,
            )
        } else {
            Some(ProgressView::Done(Err(unexpected(transfer_begins(), begin.last()))))
        },
{
    let rest = seq![transfer, StepView::Expect(transfer_over())];
    let line = command("RETR"@, file);
    assert(retrieve_steps(secure, file, transfer) == data_steps(secure, line) + (seq![
        StepView::Expect(transfer_begins()),
    ] + rest));
    lemma_transfer(
        secure,
        line,
        transfer_begins(),
        rest,
        lines,
        address,
        begin,
        begin_code,
    );
}

/// The last step of a transfer: a reply that says that it is over.
proof fn lemma_transfer_end(
    reply: LineView,
    outcome: OutcomeView,
    end: Seq<Seq<char>>,
    end_code: u32,
)
    requires
        is_reply(end, end_code),
    ensures
        after(proceed(seq![StepView::Expect(transfer_over())], reply, outcome), read(end))
            == transfer_ended(end, end_code, outcome),
{
    let none = Seq::<StepView>::empty();
    assert(seq![StepView::Expect(transfer_over())] + none == seq![
        StepView::Expect(transfer_over()),
    ]);
    lemma_expect(transfer_over(), none, reply, outcome, end, end_code);
}

/// What is retrieved is what the data connection held: when the server has
/// answered that the transfer begins, the data connection is read to its end, and
/// when the server then answers that the transfer is over, those bytes are the
/// outcome. If the server refuses the file, the data connection is not read.
#[verifier::spinoff_prover]
#[verifier::rlimit(60)]
pub proof fn law_simple_retr(
    secure: bool,
    file: Seq<char>,
    lines: Seq<Seq<char>>,
    address: SocketAddress,
    begin: Seq<Seq<char>>,
    begin_code: u32,
    bytes: Seq<u8>,
    end: Seq<Seq<char>>,
    end_code: u32,
)
    requires
        announces(lines, address),
        is_reply(begin, begin_code),
        is_reply(end, end_code),
    ensures
        ({
            let steps = retrieve_steps(secure, file, StepView::Download);
            let begun = data_opened(secure, lines) + read(begin);
            if transfer_begins().contains(begin_code) {
                &&& performs(run(steps, begun), ActionView::ReadContents)
                &&& run(steps, begun + (seq![EventView::Contents(bytes)] + read(end)))
                    == transfer_ended(end, end_code, OutcomeView::Contents(bytes))
            } else {
                run(steps, begun) == Some(
                    ProgressView::Done(Err(unexpected(transfer_begins(), begin.last()))),
                )
            }
        }),
{
    let steps = retrieve_steps(secure, file, StepView::Download);
    lemma_retrieve(secure, file, StepView::Download, lines, address, begin, begin_code);
    let p = ExchangeView::of(steps).advance(EventView::Start);
    let begun = data_opened(secure, lines) + read(begin);
    let over = seq![StepView::Expect(transfer_over())];
    assert(seq![StepView::Download, StepView::Expect(transfer_over())].drop_first() == over);
    let held = seq![EventView::Contents(bytes)];
    lemma_after_concat(p, begun, held + read(end));
    lemma_after_concat(after(p, begun), held, read(end));
    lemma_after_one(after(p, begun), held[0]);
    lemma_transfer_end(
        reply_of(begin, begin_code),
        OutcomeView::Contents(bytes),
        end,
        end_code,
    );
}

/// A file is retrieved by a reader of the caller: when the server has answered that
/// the transfer begins, the reader has the data connection. Where the reader
/// fails, the command fails as it did; where it succeeds, the server has to answer
/// that the transfer is over.
#[verifier::spinoff_prover]
#[verifier::rlimit(60)]
pub proof fn law_retr(
    secure: bool,
    file: Seq<char>,
    lines: Seq<Seq<char>>,
    address: SocketAddress,
    begin: Seq<Seq<char>>,
    begin_code: u32,
    failure: ErrorView,
    end: Seq<Seq<char>>,
    end_code: u32,
)
    requires
        announces(lines, address),
        is_reply(begin, begin_code),
        is_reply(end, end_code),
    ensures
        ({
            let steps = retrieve_steps(secure, file, StepView::HandOver);
            let begun = data_opened(secure, lines) + read(begin);
            if transfer_begins().contains(begin_code) {
                &&& performs(run(steps, begun), ActionView::HandOver)
                &&& run(steps, begun + seq![EventView::ReaderFailed(failure)]) == Some(
                    ProgressView::Done(Err(failure)),
                )
                &&& run(steps, begun + (seq![EventView::Handled] + read(end))) == transfer_ended(
                    end,
                    end_code,
                    OutcomeView::Unit,
                )
            } else {
                run(steps, begun) == Some(
                    ProgressView::Done(Err(unexpected(transfer_begins(), begin.last()))),
                )
            }
        }),
{
    let steps = retrieve_steps(secure, file, StepView::HandOver);
    lemma_retrieve(secure, file, StepView::HandOver, lines, address, begin, begin_code);
    let p = ExchangeView::of(steps).advance(EventView::Start);
    let begun = data_opened(secure, lines) + read(begin);
    let over = seq![StepView::Expect(transfer_over())];
    assert(seq![StepView::HandOver, StepView::Expect(transfer_over())].drop_first() == over);
    let failed = seq![EventView::ReaderFailed(failure)];
    lemma_after_concat(p, begun, failed);
    lemma_after_one(after(p, begun), failed[0]);
    let handled = seq![EventView::Handled];
    lemma_after_concat(p, begun, handled + read(end));
    lemma_after_concat(after(p, begun), handled, read(end));
    lemma_after_one(after(p, begun), handled[0]);
    lemma_transfer_end(reply_of(begin, begin_code), OutcomeView::Unit, end, end_code);
}

/// A file retrieved in the more complicated way: the command succeeds when the
/// server answers that it is about to send, with the data connection open.
pub proof fn law_get(
    secure: bool,
    file: Seq<char>,
    lines: Seq<Seq<char>>,
    address: SocketAddress,
    begin: Seq<Seq<char>>,
    begin_code: u32,
)
    requires
        announces(lines, address),
        is_reply(begin, begin_code),
    ensures
        ({
            let codes = seq![status::ABOUT_TO_SEND];
            run(
                data_steps(secure, command("RETR"@, file)).push(StepView::Expect(codes)),
                data_opened(secure, lines) + read(begin),
            ) == Some(
                ProgressView::Done(
                    if begin_code == status::ABOUT_TO_SEND {
                        Ok(OutcomeView::Unit)
                    } else {
                        Err(unexpected(codes, begin.last()))
                    },
                ),
            )
        }),
{
    let codes = seq![status::ABOUT_TO_SEND];
    assert(codes.contains(codes[0]));
    let none = Seq::<StepView>::empty();
    let line = command("RETR"@, file);
    assert(data_steps(secure, line).push(StepView::Expect(codes)) == data_steps(secure, line) + (
    seq![StepView::Expect(codes)] + none));
    lemma_transfer(secure, line, codes, none, lines, address, begin, begin_code);
}

/// A file is written to the data connection only when the server has answered that
/// the transfer begins, and it is stored when the server answers that the transfer
/// is over.
#[verifier::spinoff_prover]
#[verifier::rlimit(60)]
pub proof fn law_put(
    secure: bool,
    file: Seq<char>,
    lines: Seq<Seq<char>>,
    address: SocketAddress,
    begin: Seq<Seq<char>>,
    begin_code: u32,
    end: Seq<Seq<char>>,
    end_code: u32,
)
    requires
        announces(lines, address),
        is_reply(begin, begin_code),
        is_reply(end, end_code),
    ensures
        ({
            let steps = put_steps(secure, file).push(StepView::Expect(transfer_over()));
            let begun = data_opened(secure, lines) + read(begin);
            let codes = seq![status::ALREADY_OPEN, status::ABOUT_TO_SEND];
            if codes.contains(begin_code) {
                &&& performs(run(steps, begun), ActionView::Upload)
                &&& run(steps, begun + (seq![EventView::Uploaded] + read(end))) == transfer_ended(
                    end,
                    end_code,
                    OutcomeView::Unit,
                )
            } else {
                run(steps, begun) == Some(
                    ProgressView::Done(Err(unexpected(codes, begin.last()))),
                )
            }
        }),
{
    let steps = put_steps(secure, file).push(StepView::Expect(transfer_over()));
    let codes = seq![status::ALREADY_OPEN, status::ABOUT_TO_SEND];
    let over = seq![StepView::Expect(transfer_over())];
    let rest = seq![StepView::Upload] + over;
    let line = command("STOR"@, file);
    assert(steps == data_steps(secure, line) + (seq![StepView::Expect(codes)] + rest));
    lemma_transfer(secure, line, codes, rest, lines, address, begin, begin_code);
    let p = ExchangeView::of(steps).advance(EventView::Start);
    let begun = data_opened(secure, lines) + read(begin);
    assert(rest.drop_first() == over);
    let uploaded = seq![EventView::Uploaded];
    lemma_after_concat(p, begun, uploaded + read(end));
    lemma_after_concat(after(p, begun), uploaded, read(end));
    lemma_after_one(after(p, begun), uploaded[0]);
    lemma_transfer_end(reply_of(begin, begin_code), OutcomeView::Unit, end, end_code);
}

/// The events in which a listing is read that is the text `text`: the text, if
/// there is any, and the end.
pub open spec fn text_read(text: Seq<char>) -> Seq<EventView> {
    if text.len() == 0 {
        seq![EventView::Text(text)]
    } else {
        seq![EventView::Text(text), EventView::Text(Seq::empty())]
    }
}

/// The lines that a listing gives are the lines of the text that the data
/// connection held. They are given when the server has answered that the transfer
/// is over, which is read after the data connection is closed.
#[verifier::spinoff_prover]
#[verifier::rlimit(60)]
pub proof fn law_list(
    secure: bool,
    line: Seq<char>,
    open_code: u32,
    lines: Seq<Seq<char>>,
    address: SocketAddress,
    begin: Seq<Seq<char>>,
    begin_code: u32,
    text: Seq<char>,
    end: Seq<Seq<char>>,
    end_code: u32,
)
    requires
        announces(lines, address),
        is_reply(begin, begin_code),
        is_reply(end, end_code),
    ensures
        ({
            let steps = list_steps(secure, line, open_code, transfer_over());
            let begun = data_opened(secure, lines) + read(begin);
            let codes = seq![open_code, status::ALREADY_OPEN];
            if codes.contains(begin_code) {
                &&& performs(run(steps, begun), ActionView::ReadText)
                &&& performs(run(steps, begun + text_read(text)), ActionView::CloseData)
                &&& run(
                    steps,
                    begun + text_read(text) + (seq![EventView::Closed] + read(end)),
                ) == transfer_ended(end, end_code, OutcomeView::Listing(listing(text)))
            } else {
                run(steps, begun) == Some(
                    ProgressView::Done(Err(unexpected(codes, begin.last()))),
                )
            }
        }),
{
    let steps = list_steps(secure, line, open_code, transfer_over());
    let codes = seq![open_code, status::ALREADY_OPEN];
    let over = seq![StepView::Expect(transfer_over())];
    let closing = seq![StepView::CloseData] + over;
    let rest = seq![StepView::List] + closing;
    assert(steps == data_steps(secure, line) + (seq![StepView::Expect(codes)] + rest));
    lemma_transfer(secure, line, codes, rest, lines, address, begin, begin_code);
    assert(rest.drop_first() == closing);
    assert(closing.drop_first() == over);
    if codes.contains(begin_code) {
        let begun = data_opened(secure, lines) + read(begin);
        let p = ExchangeView::of(steps).advance(EventView::Start);
        let reply = reply_of(begin, begin_code);
        let p1 = after(p, begun);
        let none = Seq::<Seq<char>>::empty();
        lemma_after_concat(p, begun, text_read(text));
        if text.len() == 0 {
            lemma_after_one(p1, EventView::Text(text));
            assert(listing(text) == none) by {
                assert(pieces(text) == seq![text.skip(0)]);
                assert(pieces(text).drop_first() == none);
                reveal_with_fuel(nonempty, 2);
            }
        } else {
            assert(text_read(text) == seq![EventView::Text(text)] + seq![
                EventView::Text(Seq::empty()),
            ]);
            lemma_after_concat(
                p1,
                seq![EventView::Text(text)],
                seq![EventView::Text(Seq::empty())],
            );
            lemma_after_one(p1, EventView::Text(text));
            assert(Seq::<char>::empty() + text == text);
            assert(none + listing(text) == listing(text));
            let p2 = after(p1, seq![EventView::Text(text)]);
            lemma_after_one(p2, EventView::Text(Seq::empty()));
        }
        let p3 = after(p, begun + text_read(text));
        assert(p3 == proceed(closing, reply, OutcomeView::Listing(listing(text))));
        let closed = seq![EventView::Closed];
        lemma_after_concat(p, begun + text_read(text), closed + read(end));
        lemma_after_concat(p3, closed, read(end));
        lemma_after_one(p3, closed[0]);
        lemma_transfer_end(reply, OutcomeView::Listing(listing(text)), end, end_code);
    }
}

/// A question on a file is answered from the reply on its status. If the server
/// says that there is no such file, there is no modification time and no size; any
/// other reply is an error.
pub proof fn law_file(
    line: Seq<char>,
    reading: Reading,
    lines: Seq<Seq<char>>,
    code: u32,
)
    requires
        is_reply(lines, code),
        reading is ModificationTime || reading is FileSize,
    ensures
        ({
            let steps = file_steps(line, reading);
            let p = run(steps, sent_and_read(lines));
            &&& performs(run(steps, Seq::empty()), ActionView::Send(line))
            &&& code == status::FILE_UNAVAILABLE ==> p == Some(
                ProgressView::Done(
                    Ok(
                        if reading is FileSize {
                            OutcomeView::FileSize(None)
                        } else {
                            OutcomeView::ModificationTime(None)
                        },
                    ),
                ),
            )
            &&& code == status::FILE ==> p == match read_reply(reading, reply_of(lines, code)) {
                Some(r) => Some(ProgressView::Done(r)),
                None => None,
            }
            &&& code != status::FILE && code != status::FILE_UNAVAILABLE ==> p == Some(
                ProgressView::Done(Err(unexpected(seq![status::FILE], lines.last()))),
            )
        }),
{
    let steps = file_steps(line, reading);
    let x = ExchangeView::of(steps);
    let codes = seq![status::FILE];
    assert(codes.contains(codes[0]));
    let last = seq![StepView::Read(reading)];
    let then = seq![StepView::ExpectFile] + last;
    assert(steps == seq![StepView::Send(line)] + then);
    lemma_send(line, then, x.reply, x.outcome);
    assert(then.drop_first() == last);
    let y = ExchangeView {
        awaited: AwaitedView::Reply { codes, missing: true, head: None },
        steps: last,
        reply: x.reply,
        outcome: x.outcome,
    };
    assert(proceed(then, x.reply, x.outcome) == Some(
        ProgressView::Perform(ActionView::ReadLine, y),
    ));
    law_reply(y, lines, codes, true, code);
    lemma_after_concat(x.advance(EventView::Start), seq![EventView::Sent], read(lines));
    assert(last.drop_first() == Seq::<StepView>::empty());
    reveal_with_fuel(proceed, 2);
}

/// The current directory is what the reply names, and a reply that names none is an
/// error.
pub proof fn law_pwd(lines: Seq<Seq<char>>, code: u32)
    requires
        is_reply(lines, code),
    ensures
        run(
            ask(bare_command("PWD"@), seq![status::PATH_CREATED]).push(
                StepView::Read(Reading::Directory),
            ),
            sent_and_read(lines),
        ) == Some(
            ProgressView::Done(
                if code != status::PATH_CREATED {
                    Err(unexpected(seq![status::PATH_CREATED], lines.last()))
                } else {
                    match directory_result(lines.last()) {
                        Ok(path) => Ok(OutcomeView::Directory(path)),
                        Err(e) => Err(e),
                    }
                },
            ),
        ),
{
    let codes = seq![status::PATH_CREATED];
    assert(codes.contains(codes[0]));
    let last = seq![StepView::Read(Reading::Directory)];
    let line = bare_command("PWD"@);
    let steps = ask(line, codes).push(StepView::Read(Reading::Directory));
    assert(steps == ask(line, codes) + last);
    let x = ExchangeView::of(steps);
    lemma_ask(line, codes, last, x.reply, x.outcome, lines, code);
    assert(last.drop_first() == Seq::<StepView>::empty());
    reveal_with_fuel(proceed, 2);
}

/// A reply that is read for its own sake is given as it is: its code, and its last
/// line.
pub proof fn law_response(codes: Seq<u32>, lines: Seq<Seq<char>>, code: u32)
    requires
        is_reply(lines, code),
    ensures
        performs(run(response_steps(codes), Seq::empty()), ActionView::ReadLine),
        run(response_steps(codes), read(lines)) == Some(
            ProgressView::Done(
                if codes.contains(code) {
                    Ok(OutcomeView::Reply(reply_of(lines, code)))
                } else {
                    Err(unexpected(codes, lines.last()))
                },
            ),
        ),
{
    let last = seq![StepView::Read(Reading::Reply)];
    let steps = response_steps(codes);
    assert(steps == seq![StepView::Expect(codes)] + last);
    let x = ExchangeView::of(steps);
    lemma_expect(codes, last, x.reply, x.outcome, lines, code);
    assert(last.drop_first() == Seq::<StepView>::empty());
    reveal_with_fuel(proceed, 2);
}

} // verus!

//! What each command sends, and what each reply makes of it, in the words of the
//! protocol.

use vstd::prelude::*;

use crate::answer_laws::law_directory;
use crate::answers::listing;
use crate::exchange::{
    proceed, ActionView, EventView, ExchangeView, OutcomeView, ProgressView, Reading, StepView,
};
use crate::ftp::{
    ask, bare_command, command, command_on, connect_steps, data_steps, into_secure_steps,
    transfer_begins, transfer_over,
};
use crate::laws::{
    after, announces, data_opened, is_reply, law_ask, law_connect, law_data_connection, law_file,
    law_get, law_list, law_login, law_no_address, law_put, law_pwd, law_rename, law_response,
    law_retr, law_simple_retr, lemma_after_concat, lemma_after_one, lemma_ask, performs, read,
    reply_of, run, sent_and_read, text_read,
};
use crate::patterns::passive_groups;
use crate::reply::unexpected;
use crate::session_laws::CommandView;
use crate::text::decimal;
use crate::text_laws::{law_decimal, law_unexpected_text};
use crate::types::{ErrorView, FileType, SocketAddress};

verus! {

/// The numeral of a code of three digits.
proof fn lemma_code_numeral(code: u32, a: char, b: char, c: char)
    requires
        100 <= code < 1000,
        a as int == 48 + code / 100,
        b as int == 48 + code / 10 % 10,
        c as int == 48 + code % 10,
    ensures
        decimal(code as nat) == seq![a, b, c],
{
    let n = code as nat;
    law_decimal(n);
    law_decimal(n / 10);
    law_decimal(n / 10 / 10);
    let s = decimal(n);
    let t = s.drop_last();
    let u = t.drop_last();
    assert(u.len() == 1 && u[0] == u.last());
    assert(t.len() == 2 && t[0] == u[0] && t[1] == t.last());
    assert(s.len() == 3 && s[0] == t[0] && s[1] == t[1] && s[2] == s.last());
    assert(s =~= seq![a, b, c]);
}

/// The error for a reply where one code was expected.
proof fn lemma_one_code(code: u32, text: Seq<char>, line: Seq<char>)
    requires
        text == "Expected code ["@ + decimal(code as nat) + "], got response: "@,
    ensures
        unexpected(seq![code], line) == ErrorView::InvalidResponse(text + line),
{
    law_unexpected_text(Seq::empty(), code, line);
}

/// The error for a reply where one of two codes was expected.
proof fn lemma_two_codes(first: u32, second: u32, text: Seq<char>, line: Seq<char>)
    requires
        text == "Expected code ["@ + (decimal(first as nat) + seq![',', ' '] + decimal(
            second as nat,
        )) + "], got response: "@,
    ensures
        unexpected(seq![first, second], line) == ErrorView::InvalidResponse(text + line),
{
    law_unexpected_text(seq![first], first, line);
    law_unexpected_text(seq![first], second, line);
    let listed = decimal(first as nat);
    assert(unexpected(seq![first], line) == ErrorView::InvalidResponse(
        "Expected code ["@ + listed + "], got response: "@ + line,
    ));
    assert(seq![first].push(second) =~= seq![first, second]);
}

proof fn lemma_expected_150(line: Seq<char>)
    ensures
        unexpected(seq![150u32], line) == ErrorView::InvalidResponse(
            "Expected code [150], got response: "@ + line,
        ),
{
    reveal_strlit("Expected code [");
    reveal_strlit("], got response: ");
    reveal_strlit("Expected code [150], got response: ");
    lemma_code_numeral(150, '1', '5', '0');
    let text = "Expected code [150], got response: "@;
    assert(text =~= "Expected code ["@ + decimal(150) + "], got response: "@);
    lemma_one_code(150, text, line);
}

proof fn lemma_expected_200(line: Seq<char>)
    ensures
        unexpected(seq![200u32], line) == ErrorView::InvalidResponse(
            "Expected code [200], got response: "@ + line,
        ),
{
    reveal_strlit("Expected code [");
    reveal_strlit("], got response: ");
    reveal_strlit("Expected code [200], got response: ");
    lemma_code_numeral(200, '2', '0', '0');
    let text = "Expected code [200], got response: "@;
    assert(text =~= "Expected code ["@ + decimal(200) + "], got response: "@);
    lemma_one_code(200, text, line);
}

proof fn lemma_expected_213(line: Seq<char>)
    ensures
        unexpected(seq![213u32], line) == ErrorView::InvalidResponse(
            "Expected code [213], got response: "@ + line,
        ),
{
    reveal_strlit("Expected code [");
    reveal_strlit("], got response: ");
    reveal_strlit("Expected code [213], got response: ");
    lemma_code_numeral(213, '2', '1', '3');
    let text = "Expected code [213], got response: "@;
    assert(text =~= "Expected code ["@ + decimal(213) + "], got response: "@);
    lemma_one_code(213, text, line);
}

proof fn lemma_expected_220(line: Seq<char>)
    ensures
        unexpected(seq![220u32], line) == ErrorView::InvalidResponse(
            "Expected code [220], got response: "@ + line,
        ),
{
    reveal_strlit("Expected code [");
    reveal_strlit("], got response: ");
    reveal_strlit("Expected code [220], got response: ");
    lemma_code_numeral(220, '2', '2', '0');
    let text = "Expected code [220], got response: "@;
    assert(text =~= "Expected code ["@ + decimal(220) + "], got response: "@);
    lemma_one_code(220, text, line);
}

proof fn lemma_expected_221(line: Seq<char>)
    ensures
        unexpected(seq![221u32], line) == ErrorView::InvalidResponse(
            "Expected code [221], got response: "@ + line,
        ),
{
    reveal_strlit("Expected code [");
    reveal_strlit("], got response: ");
    reveal_strlit("Expected code [221], got response: ");
    lemma_code_numeral(221, '2', '2', '1');
    let text = "Expected code [221], got response: "@;
    assert(text =~= "Expected code ["@ + decimal(221) + "], got response: "@);
    lemma_one_code(221, text, line);
}

proof fn lemma_expected_227(line: Seq<char>)
    ensures
        unexpected(seq![227u32], line) == ErrorView::InvalidResponse(
            "Expected code [227], got response: "@ + line,
        ),
{
    reveal_strlit("Expected code [");
    reveal_strlit("], got response: ");
    reveal_strlit("Expected code [227], got response: ");
    lemma_code_numeral(227, '2', '2', '7');
    let text = "Expected code [227], got response: "@;
    assert(text =~= "Expected code ["@ + decimal(227) + "], got response: "@);
    lemma_one_code(227, text, line);
}

proof fn lemma_expected_230(line: Seq<char>)
    ensures
        unexpected(seq![230u32], line) == ErrorView::InvalidResponse(
            "Expected code [230], got response: "@ + line,
        ),
{
    reveal_strlit("Expected code [");
    reveal_strlit("], got response: ");
    reveal_strlit("Expected code [230], got response: ");
    lemma_code_numeral(230, '2', '3', '0');
    let text = "Expected code [230], got response: "@;
    assert(text =~= "Expected code ["@ + decimal(230) + "], got response: "@);
    lemma_one_code(230, text, line);
}

proof fn lemma_expected_234(line: Seq<char>)
    ensures
        unexpected(seq![234u32], line) == ErrorView::InvalidResponse(
            "Expected code [234], got response: "@ + line,
        ),
{
    reveal_strlit("Expected code [");
    reveal_strlit("], got response: ");
    reveal_strlit("Expected code [234], got response: ");
    lemma_code_numeral(234, '2', '3', '4');
    let text = "Expected code [234], got response: "@;
    assert(text =~= "Expected code ["@ + decimal(234) + "], got response: "@);
    lemma_one_code(234, text, line);
}

proof fn lemma_expected_250(line: Seq<char>)
    ensures
        unexpected(seq![250u32], line) == ErrorView::InvalidResponse(
            "Expected code [250], got response: "@ + line,
        ),
{
    reveal_strlit("Expected code [");
    reveal_strlit("], got response: ");
    reveal_strlit("Expected code [250], got response: ");
    lemma_code_numeral(250, '2', '5', '0');
    let text = "Expected code [250], got response: "@;
    assert(text =~= "Expected code ["@ + decimal(250) + "], got response: "@);
    lemma_one_code(250, text, line);
}

proof fn lemma_expected_257(line: Seq<char>)
    ensures
        unexpected(seq![257u32], line) == ErrorView::InvalidResponse(
            "Expected code [257], got response: "@ + line,
        ),
{
    reveal_strlit("Expected code [");
    reveal_strlit("], got response: ");
    reveal_strlit("Expected code [257], got response: ");
    lemma_code_numeral(257, '2', '5', '7');
    let text = "Expected code [257], got response: "@;
    assert(text =~= "Expected code ["@ + decimal(257) + "], got response: "@);
    lemma_one_code(257, text, line);
}

proof fn lemma_expected_350(line: Seq<char>)
    ensures
        unexpected(seq![350u32], line) == ErrorView::InvalidResponse(
            "Expected code [350], got response: "@ + line,
        ),
{
    reveal_strlit("Expected code [");
    reveal_strlit("], got response: ");
    reveal_strlit("Expected code [350], got response: ");
    lemma_code_numeral(350, '3', '5', '0');
    let text = "Expected code [350], got response: "@;
    assert(text =~= "Expected code ["@ + decimal(350) + "], got response: "@);
    lemma_one_code(350, text, line);
}

proof fn lemma_expected_230_or_331(line: Seq<char>)
    ensures
        unexpected(seq![230u32, 331u32], line) == ErrorView::InvalidResponse(
            "Expected code [230, 331], got response: "@ + line,
        ),
{
    reveal_strlit("Expected code [");
    reveal_strlit("], got response: ");
    reveal_strlit("Expected code [230, 331], got response: ");
    lemma_code_numeral(230, '2', '3', '0');
    lemma_code_numeral(331, '3', '3', '1');
    let text = "Expected code [230, 331], got response: "@;
    assert(text =~= "Expected code ["@ + (decimal(230) + seq![',', ' '] + decimal(331))
        + "], got response: "@);
    lemma_two_codes(230, 331, text, line);
}

proof fn lemma_expected_200_or_250(line: Seq<char>)
    ensures
        unexpected(seq![200u32, 250u32], line) == ErrorView::InvalidResponse(
            "Expected code [200, 250], got response: "@ + line,
        ),
{
    reveal_strlit("Expected code [");
    reveal_strlit("], got response: ");
    reveal_strlit("Expected code [200, 250], got response: ");
    lemma_code_numeral(200, '2', '0', '0');
    lemma_code_numeral(250, '2', '5', '0');
    let text = "Expected code [200, 250], got response: "@;
    assert(text =~= "Expected code ["@ + (decimal(200) + seq![',', ' '] + decimal(250))
        + "], got response: "@);
    lemma_two_codes(200, 250, text, line);
}

proof fn lemma_expected_150_or_125(line: Seq<char>)
    ensures
        unexpected(seq![150u32, 125u32], line) == ErrorView::InvalidResponse(
            "Expected code [150, 125], got response: "@ + line,
        ),
{
    reveal_strlit("Expected code [");
    reveal_strlit("], got response: ");
    reveal_strlit("Expected code [150, 125], got response: ");
    lemma_code_numeral(150, '1', '5', '0');
    lemma_code_numeral(125, '1', '2', '5');
    let text = "Expected code [150, 125], got response: "@;
    assert(text =~= "Expected code ["@ + (decimal(150) + seq![',', ' '] + decimal(125))
        + "], got response: "@);
    lemma_two_codes(150, 125, text, line);
}

proof fn lemma_expected_226_or_250(line: Seq<char>)
    ensures
        unexpected(seq![226u32, 250u32], line) == ErrorView::InvalidResponse(
            "Expected code [226, 250], got response: "@ + line,
        ),
{
    reveal_strlit("Expected code [");
    reveal_strlit("], got response: ");
    reveal_strlit("Expected code [226, 250], got response: ");
    lemma_code_numeral(226, '2', '2', '6');
    lemma_code_numeral(250, '2', '5', '0');
    let text = "Expected code [226, 250], got response: "@;
    assert(text =~= "Expected code ["@ + (decimal(226) + seq![',', ' '] + decimal(250))
        + "], got response: "@);
    lemma_two_codes(226, 250, text, line);
}

proof fn lemma_expected_125_or_150(line: Seq<char>)
    ensures
        unexpected(seq![125u32, 150u32], line) == ErrorView::InvalidResponse(
            "Expected code [125, 150], got response: "@ + line,
        ),
{
    reveal_strlit("Expected code [");
    reveal_strlit("], got response: ");
    reveal_strlit("Expected code [125, 150], got response: ");
    lemma_code_numeral(125, '1', '2', '5');
    lemma_code_numeral(150, '1', '5', '0');
    let text = "Expected code [125, 150], got response: "@;
    assert(text =~= "Expected code ["@ + (decimal(125) + seq![',', ' '] + decimal(150))
        + "], got response: "@);
    lemma_two_codes(125, 150, text, line);
}

/// The current directory is changed with `CWD` and the path as it is, and that has
/// succeeded if and only if the server answers with code 250.
pub proof fn law_cwd(path: Seq<char>, secure: bool, lines: Seq<Seq<char>>, code: u32)
    requires
        is_reply(lines, code),
    ensures
        ({
            let steps = CommandView::Cwd(path).steps(secure);
            &&& performs(run(steps, Seq::empty()), ActionView::Send("CWD "@ + path + "\r\n"@))
            &&& run(steps, sent_and_read(lines)) == Some(
                ProgressView::Done(
                    if code == 250 {
                        Ok(OutcomeView::Unit)
                    } else {
                        Err(
                            ErrorView::InvalidResponse(
                                "Expected code [250], got response: "@ + lines.last(),
                            ),
                        )
                    },
                ),
            )
        }),
{
    reveal_strlit("CWD");
    reveal_strlit("CWD ");
    reveal_strlit("\r\n");
    reveal_strlit(" ");
    let codes = seq![250u32];
    let line = command("CWD"@, path);
    assert(line =~= "CWD "@ + path + "\r\n"@);
    assert(codes.contains(codes[0]));
    lemma_expected_250(lines.last());
    law_ask(line, codes, lines, code);
}

/// The parent directory is entered with `CDUP`, and that has succeeded if and only if
/// the server answers with code 200 or 250.
pub proof fn law_cdup(secure: bool, lines: Seq<Seq<char>>, code: u32)
    requires
        is_reply(lines, code),
    ensures
        ({
            let steps = CommandView::Cdup.steps(secure);
            &&& performs(run(steps, Seq::empty()), ActionView::Send("CDUP\r\n"@))
            &&& run(steps, sent_and_read(lines)) == Some(
                ProgressView::Done(
                    if code == 200 || code == 250 {
                        Ok(OutcomeView::Unit)
                    } else {
                        Err(
                            ErrorView::InvalidResponse(
                                "Expected code [200, 250], got response: "@ + lines.last(),
                            ),
                        )
                    },
                ),
            )
        }),
{
    reveal_strlit("CDUP");
    reveal_strlit("CDUP\r\n");
    reveal_strlit("\r\n");
    let codes = seq![200u32, 250u32];
    let line = bare_command("CDUP"@);
    assert(line =~= "CDUP\r\n"@);
    assert(codes.contains(codes[0]));
    assert(codes.contains(codes[1]));
    lemma_expected_200_or_250(lines.last());
    law_ask(line, codes, lines, code);
}

/// Nothing is done with `NOOP`, and that has succeeded if and only if the server
/// answers with code 200.
pub proof fn law_noop(secure: bool, lines: Seq<Seq<char>>, code: u32)
    requires
        is_reply(lines, code),
    ensures
        ({
            let steps = CommandView::Noop.steps(secure);
            &&& performs(run(steps, Seq::empty()), ActionView::Send("NOOP\r\n"@))
            &&& run(steps, sent_and_read(lines)) == Some(
                ProgressView::Done(
                    if code == 200 {
                        Ok(OutcomeView::Unit)
                    } else {
                        Err(
                            ErrorView::InvalidResponse(
                                "Expected code [200], got response: "@ + lines.last(),
                            ),
                        )
                    },
                ),
            )
        }),
{
    reveal_strlit("NOOP");
    reveal_strlit("NOOP\r\n");
    reveal_strlit("\r\n");
    let codes = seq![200u32];
    let line = bare_command("NOOP"@);
    assert(line =~= "NOOP\r\n"@);
    assert(codes.contains(codes[0]));
    lemma_expected_200(lines.last());
    law_ask(line, codes, lines, code);
}

/// A directory is created with `MKD` and the path as it is, and that has succeeded if
/// and only if the server answers with code 257.
pub proof fn law_mkdir(path: Seq<char>, secure: bool, lines: Seq<Seq<char>>, code: u32)
    requires
        is_reply(lines, code),
    ensures
        ({
            let steps = CommandView::Mkdir(path).steps(secure);
            &&& performs(run(steps, Seq::empty()), ActionView::Send("MKD "@ + path + "\r\n"@))
            &&& run(steps, sent_and_read(lines)) == Some(
                ProgressView::Done(
                    if code == 257 {
                        Ok(OutcomeView::Unit)
                    } else {
                        Err(
                            ErrorView::InvalidResponse(
                                "Expected code [257], got response: "@ + lines.last(),
                            ),
                        )
                    },
                ),
            )
        }),
{
    reveal_strlit("MKD");
    reveal_strlit("MKD ");
    reveal_strlit("\r\n");
    reveal_strlit(" ");
    let codes = seq![257u32];
    let line = command("MKD"@, path);
    assert(line =~= "MKD "@ + path + "\r\n"@);
    assert(codes.contains(codes[0]));
    lemma_expected_257(lines.last());
    law_ask(line, codes, lines, code);
}

/// A directory is removed with `RMD` and the path as it is, and that has succeeded if
/// and only if the server answers with code 250.
pub proof fn law_rmdir(path: Seq<char>, secure: bool, lines: Seq<Seq<char>>, code: u32)
    requires
        is_reply(lines, code),
    ensures
        ({
            let steps = CommandView::Rmdir(path).steps(secure);
            &&& performs(run(steps, Seq::empty()), ActionView::Send("RMD "@ + path + "\r\n"@))
            &&& run(steps, sent_and_read(lines)) == Some(
                ProgressView::Done(
                    if code == 250 {
                        Ok(OutcomeView::Unit)
                    } else {
                        Err(
                            ErrorView::InvalidResponse(
                                "Expected code [250], got response: "@ + lines.last(),
                            ),
                        )
                    },
                ),
            )
        }),
{
    reveal_strlit("RMD");
    reveal_strlit("RMD ");
    reveal_strlit("\r\n");
    reveal_strlit(" ");
    let codes = seq![250u32];
    let line = command("RMD"@, path);
    assert(line =~= "RMD "@ + path + "\r\n"@);
    assert(codes.contains(codes[0]));
    lemma_expected_250(lines.last());
    law_ask(line, codes, lines, code);
}

/// A file is removed with `DELE` and the path as it is, and that has succeeded if and
/// only if the server answers with code 250.
pub proof fn law_rm(path: Seq<char>, secure: bool, lines: Seq<Seq<char>>, code: u32)
    requires
        is_reply(lines, code),
    ensures
        ({
            let steps = CommandView::Rm(path).steps(secure);
            &&& performs(run(steps, Seq::empty()), ActionView::Send("DELE "@ + path + "\r\n"@))
            &&& run(steps, sent_and_read(lines)) == Some(
                ProgressView::Done(
                    if code == 250 {
                        Ok(OutcomeView::Unit)
                    } else {
                        Err(
                            ErrorView::InvalidResponse(
                                "Expected code [250], got response: "@ + lines.last(),
                            ),
                        )
                    },
                ),
            )
        }),
{
    reveal_strlit("DELE");
    reveal_strlit("DELE ");
    reveal_strlit("\r\n");
    reveal_strlit(" ");
    let codes = seq![250u32];
    let line = command("DELE"@, path);
    assert(line =~= "DELE "@ + path + "\r\n"@);
    assert(codes.contains(codes[0]));
    lemma_expected_250(lines.last());
    law_ask(line, codes, lines, code);
}

/// A session is quit with `QUIT`, and that has succeeded if and only if the server
/// answers with code 221.
pub proof fn law_quit(secure: bool, lines: Seq<Seq<char>>, code: u32)
    requires
        is_reply(lines, code),
    ensures
        ({
            let steps = CommandView::Quit.steps(secure);
            &&& performs(run(steps, Seq::empty()), ActionView::Send("QUIT\r\n"@))
            &&& run(steps, sent_and_read(lines)) == Some(
                ProgressView::Done(
                    if code == 221 {
                        Ok(OutcomeView::Unit)
                    } else {
                        Err(
                            ErrorView::InvalidResponse(
                                "Expected code [221], got response: "@ + lines.last(),
                            ),
                        )
                    },
                ),
            )
        }),
{
    reveal_strlit("QUIT");
    reveal_strlit("QUIT\r\n");
    reveal_strlit("\r\n");
    let codes = seq![221u32];
    let line = bare_command("QUIT"@);
    assert(line =~= "QUIT\r\n"@);
    assert(codes.contains(codes[0]));
    lemma_expected_221(lines.last());
    law_ask(line, codes, lines, code);
}

/// The transfer type is set with `TYPE` and the argument of the type, and that has
/// succeeded if and only if the server answers with code 200.
pub proof fn law_transfer_type(file_type: FileType, secure: bool, lines: Seq<Seq<char>>, code: u32)
    requires
        is_reply(lines, code),
    ensures
        ({
            let steps = CommandView::TransferType(file_type).steps(secure);
            &&& performs(
                run(steps, Seq::empty()),
                ActionView::Send("TYPE "@ + file_type.argument() + "\r\n"@),
            )
            &&& run(steps, sent_and_read(lines)) == Some(
                ProgressView::Done(
                    if code == 200 {
                        Ok(OutcomeView::Unit)
                    } else {
                        Err(
                            ErrorView::InvalidResponse(
                                "Expected code [200], got response: "@ + lines.last(),
                            ),
                        )
                    },
                ),
            )
        }),
{
    reveal_strlit("TYPE");
    reveal_strlit("TYPE ");
    reveal_strlit("\r\n");
    reveal_strlit(" ");
    let codes = seq![200u32];
    let line = command("TYPE"@, file_type.argument());
    assert(line =~= "TYPE "@ + file_type.argument() + "\r\n"@);
    assert(codes.contains(codes[0]));
    lemma_expected_200(lines.last());
    law_ask(line, codes, lines, code);
}

/// A session is created when the server's greeting has code 220, plain, and with any
/// other greeting it is not.
pub proof fn law_greeting(lines: Seq<Seq<char>>, code: u32)
    requires
        is_reply(lines, code),
    ensures
        performs(run(connect_steps(), Seq::empty()), ActionView::OpenControl),
        performs(run(connect_steps(), seq![EventView::Opened]), ActionView::ReadLine),
        run(connect_steps(), seq![EventView::Opened] + read(lines)) == Some(
            ProgressView::Done(
                if code == 220 {
                    Ok(OutcomeView::Session { secure: false })
                } else {
                    Err(
                        ErrorView::InvalidResponse(
                            "Expected code [220], got response: "@ + lines.last(),
                        ),
                    )
                },
            ),
        ),
{
    lemma_expected_220(lines.last());
    law_connect(lines, code);
    let p = ExchangeView::of(connect_steps()).advance(EventView::Start);
    lemma_after_one(p, EventView::Opened);
}

/// A plain session is switched to a secure mode in three commands and a handshake.
/// Each command is sent only if the server has accepted the one before: `AUTH TLS` with
/// code 234, `PBSZ 0` and `PROT P` with code 200. Any other code ends the switch with
/// an error; in particular the control connection is not secured if the server refuses
/// `AUTH TLS`. A handshake that fails leaves no way on.
#[verifier::spinoff_prover]
#[verifier::rlimit(60)]
pub proof fn law_switch(
    auth: Seq<Seq<char>>,
    auth_code: u32,
    pbsz: Seq<Seq<char>>,
    pbsz_code: u32,
    prot: Seq<Seq<char>>,
    prot_code: u32,
    reason: Seq<char>,
)
    requires
        is_reply(auth, auth_code),
        is_reply(pbsz, pbsz_code),
        is_reply(prot, prot_code),
    ensures
        ({
            let steps = into_secure_steps(false);
            let e1 = sent_and_read(auth);
            let e2 = e1 + seq![EventView::Secured];
            let e3 = e2 + sent_and_read(pbsz);
            let e4 = e3 + sent_and_read(prot);
            &&& performs(run(steps, Seq::empty()), ActionView::Send("AUTH TLS\r\n"@))
            &&& auth_code != 234 ==> run(steps, e1) == Some(
                ProgressView::Done(
                    Err(
                        ErrorView::InvalidResponse(
                            "Expected code [234], got response: "@ + auth.last(),
                        ),
                    ),
                ),
            )
            &&& auth_code == 234 ==> {
                &&& performs(run(steps, e1), ActionView::SecureControl)
                &&& run(steps, e1 + seq![EventView::HandshakeFailed(reason)]) is None
                &&& performs(run(steps, e2), ActionView::Send("PBSZ 0\r\n"@))
                &&& pbsz_code != 200 ==> run(steps, e3) == Some(
                    ProgressView::Done(
                        Err(
                            ErrorView::InvalidResponse(
                                "Expected code [200], got response: "@ + pbsz.last(),
                            ),
                        ),
                    ),
                )
                &&& pbsz_code == 200 ==> {
                    &&& performs(run(steps, e3), ActionView::Send("PROT P\r\n"@))
                    &&& run(steps, e4) == Some(
                        ProgressView::Done(
                            if prot_code == 200 {
                                Ok(OutcomeView::Session { secure: true })
                            } else {
                                Err(
                                    ErrorView::InvalidResponse(
                                        "Expected code [200], got response: "@ + prot.last(),
                                    ),
                                )
                            },
                        ),
                    )
                }
            }
        }),
{
    reveal_strlit("AUTH");
    reveal_strlit("TLS");
    reveal_strlit("AUTH TLS\r\n");
    reveal_strlit("PBSZ");
    reveal_strlit("0");
    reveal_strlit("PBSZ 0\r\n");
    reveal_strlit("PROT");
    reveal_strlit("P");
    reveal_strlit("PROT P\r\n");
    reveal_strlit(" ");
    reveal_strlit("\r\n");
    let l1 = command("AUTH"@, "TLS"@);
    let l2 = command("PBSZ"@, "0"@);
    let l3 = command("PROT"@, "P"@);
    assert(l1 =~= "AUTH TLS\r\n"@);
    assert(l2 =~= "PBSZ 0\r\n"@);
    assert(l3 =~= "PROT P\r\n"@);
    lemma_expected_234(auth.last());
    lemma_expected_200(pbsz.last());
    lemma_expected_200(prot.last());
    let steps = into_secure_steps(false);
    let x = ExchangeView::of(steps);
    let p = x.advance(EventView::Start);
    let accepted = seq![234u32];
    let okay = seq![200u32];
    assert(accepted.contains(accepted[0]) && okay.contains(okay[0]));
    let last = seq![StepView::Read(Reading::Session { secure: true })];
    let protecting = ask(l3, okay) + last;
    let sizing = ask(l2, okay) + protecting;
    let securing = seq![StepView::SecureControl] + sizing;
    assert(steps =~= ask(l1, accepted) + securing);
    assert(securing.drop_first() =~= sizing);
    assert(last.drop_first() =~= Seq::<StepView>::empty());
    let r1 = reply_of(auth, auth_code);
    let r2 = reply_of(pbsz, pbsz_code);
    let r3 = reply_of(prot, prot_code);
    let e1 = sent_and_read(auth);
    let e2 = e1 + seq![EventView::Secured];
    let e3 = e2 + sent_and_read(pbsz);
    lemma_ask(l1, accepted, securing, x.reply, x.outcome, auth, auth_code);
    if auth_code == 234 {
        lemma_after_concat(p, e1, seq![EventView::HandshakeFailed(reason)]);
        lemma_after_one(after(p, e1), EventView::HandshakeFailed(reason));
        lemma_after_concat(p, e1, seq![EventView::Secured]);
        lemma_after_one(after(p, e1), EventView::Secured);
        assert(after(p, e2) == proceed(sizing, r1, x.outcome));
        lemma_ask(l2, okay, protecting, r1, x.outcome, pbsz, pbsz_code);
        lemma_after_concat(p, e2, sent_and_read(pbsz));
        if pbsz_code == 200 {
            assert(after(p, e3) == proceed(protecting, r2, x.outcome));
            lemma_ask(l3, okay, last, r2, x.outcome, prot, prot_code);
            lemma_after_concat(p, e3, sent_and_read(prot));
            assert(proceed(last, r3, x.outcome) == Some(
                ProgressView::Done(Ok(OutcomeView::Session { secure: true })),
            )) by {
                reveal_with_fuel(proceed, 2);
            }
        }
    }
}

/// A login sends `USER` and the user name as it is. Code 230 ends it. Code 331 has
/// `PASS` and the password as it is sent, which has to be answered with code 230. Any
/// other code is an error, and the password is not sent.
pub proof fn law_login_in_words(
    user: Seq<char>,
    password: Seq<char>,
    secure: bool,
    first: Seq<Seq<char>>,
    first_code: u32,
    second: Seq<Seq<char>>,
    second_code: u32,
)
    requires
        is_reply(first, first_code),
        is_reply(second, second_code),
    ensures
        ({
            let steps = (CommandView::Login { user, password }).steps(secure);
            let p = run(steps, sent_and_read(first));
            &&& performs(
                run(steps, Seq::empty()),
                ActionView::Send("USER "@ + user + "\r\n"@),
            )
            &&& first_code == 230 ==> p == Some(ProgressView::Done(Ok(OutcomeView::Unit)))
            &&& first_code == 331 ==> {
                &&& performs(p, ActionView::Send("PASS "@ + password + "\r\n"@))
                &&& run(steps, sent_and_read(first) + sent_and_read(second)) == Some(
                    ProgressView::Done(
                        if second_code == 230 {
                            Ok(OutcomeView::Unit)
                        } else {
                            Err(
                                ErrorView::InvalidResponse(
                                    "Expected code [230], got response: "@ + second.last(),
                                ),
                            )
                        },
                    ),
                )
            }
            &&& first_code != 230 && first_code != 331 ==> p == Some(
                ProgressView::Done(
                    Err(
                        ErrorView::InvalidResponse(
                            "Expected code [230, 331], got response: "@ + first.last(),
                        ),
                    ),
                ),
            )
        }),
{
    reveal_strlit("USER");
    reveal_strlit("USER ");
    reveal_strlit("PASS");
    reveal_strlit("PASS ");
    reveal_strlit(" ");
    reveal_strlit("\r\n");
    assert(command("USER"@, user) =~= "USER "@ + user + "\r\n"@);
    assert(command("PASS"@, password) =~= "PASS "@ + password + "\r\n"@);
    lemma_expected_230_or_331(first.last());
    lemma_expected_230(second.last());
    law_login(user, password, first, first_code, second, second_code);
}

/// A file is renamed with `RNFR` and its name as it is, which has to be answered with
/// code 350, and then `RNTO` and its new name as it is, which has to be answered with
/// code 250.
pub proof fn law_rename_in_words(
    from: Seq<char>,
    to: Seq<char>,
    secure: bool,
    first: Seq<Seq<char>>,
    first_code: u32,
    second: Seq<Seq<char>>,
    second_code: u32,
)
    requires
        is_reply(first, first_code),
        is_reply(second, second_code),
    ensures
        ({
            let steps = (CommandView::Rename { from, to }).steps(secure);
            let p = run(steps, sent_and_read(first));
            &&& performs(
                run(steps, Seq::empty()),
                ActionView::Send("RNFR "@ + from + "\r\n"@),
            )
            &&& if first_code == 350 {
                &&& performs(p, ActionView::Send("RNTO "@ + to + "\r\n"@))
                &&& run(steps, sent_and_read(first) + sent_and_read(second)) == Some(
                    ProgressView::Done(
                        if second_code == 250 {
                            Ok(OutcomeView::Unit)
                        } else {
                            Err(
                                ErrorView::InvalidResponse(
                                    "Expected code [250], got response: "@ + second.last(),
                                ),
                            )
                        },
                    ),
                )
            } else {
                p == Some(
                    ProgressView::Done(
                        Err(
                            ErrorView::InvalidResponse(
                                "Expected code [350], got response: "@ + first.last(),
                            ),
                        ),
                    ),
                )
            }
        }),
{
    reveal_strlit("RNFR");
    reveal_strlit("RNFR ");
    reveal_strlit("RNTO");
    reveal_strlit("RNTO ");
    reveal_strlit(" ");
    reveal_strlit("\r\n");
    assert(command("RNFR"@, from) =~= "RNFR "@ + from + "\r\n"@);
    assert(command("RNTO"@, to) =~= "RNTO "@ + to + "\r\n"@);
    lemma_expected_350(first.last());
    lemma_expected_250(second.last());
    law_rename(from, to, first, first_code, second, second_code);
}

/// The current directory is asked for with `PWD`. It is what stands between the first
/// and the last quotation mark of a reply with code 257. A reply with fewer than two
/// quotation marks, or with any other code, is an error.
#[verifier::spinoff_prover]
#[verifier::rlimit(60)]
pub proof fn law_pwd_in_words(
    secure: bool,
    before: Seq<char>,
    path: Seq<char>,
    behind: Seq<char>,
    lines: Seq<Seq<char>>,
    code: u32,
)
    requires
        is_reply(lines, code),
        !before.contains('"'),
        !behind.contains('"'),
    ensures
        ({
            let steps = CommandView::Pwd.steps(secure);
            let p = run(steps, sent_and_read(lines));
            let named = before + seq!['"'] + path + seq!['"'] + behind;
            let unnamed = before + seq!['"'] + behind;
            &&& performs(run(steps, Seq::empty()), ActionView::Send("PWD\r\n"@))
            &&& code == 257 && lines.last() == named ==> p == Some(
                ProgressView::Done(Ok(OutcomeView::Directory(path))),
            )
            &&& code == 257 && (lines.last() == before || lines.last() == unnamed) ==> p == Some(
                ProgressView::Done(
                    Err(
                        ErrorView::InvalidResponse(
                            "Invalid PWD Response: "@ + lines.last(),
                        ),
                    ),
                ),
            )
            &&& code != 257 ==> p == Some(
                ProgressView::Done(
                    Err(
                        ErrorView::InvalidResponse(
                            "Expected code [257], got response: "@ + lines.last(),
                        ),
                    ),
                ),
            )
        }),
{
    reveal_strlit("PWD");
    reveal_strlit("PWD\r\n");
    reveal_strlit("\r\n");
    let line = bare_command("PWD"@);
    assert(line =~= "PWD\r\n"@);
    lemma_expected_257(lines.last());
    law_pwd(lines, code);
    law_directory(before, path, behind);
    let steps = CommandView::Pwd.steps(secure);
    assert(steps[0] == StepView::Send(line));
    before.index_of_first_ensures('"');
    let s = before + seq!['"'] + behind;
    let n = before.len() as int;
    s.index_of_first_ensures('"');
    s.index_of_last_ensures('"');
    assert(s[n] == '"');
    assert forall|k: int| 0 <= k < s.len() && k != n implies s[k] != '"' by {
        if k < n {
            assert(s[k] == before[k]);
            assert(before.contains(before[k]));
        } else {
            assert(s[k] == behind[k - n - 1]);
            assert(behind.contains(behind[k - n - 1]));
        }
    }
}

/// A reply that is read for its own sake is given with its code and its last line, if
/// its code is the one expected.
pub proof fn law_response_in_words(
    expected: u32,
    secure: bool,
    lines: Seq<Seq<char>>,
    code: u32,
)
    requires
        is_reply(lines, code),
    ensures
        ({
            let steps = CommandView::ReadResponse(seq![expected]).steps(secure);
            let p = run(steps, read(lines));
            &&& performs(run(steps, Seq::empty()), ActionView::ReadLine)
            &&& code == expected ==> (p matches Some(
                ProgressView::Done(Ok(OutcomeView::Reply(reply))),
            ) && reply.code == code && reply.text == lines.last())
            &&& code != expected ==> p == Some(
                ProgressView::Done(
                    Err(
                        ErrorView::InvalidResponse(
                            "Expected code ["@ + decimal(expected as nat)
                                + "], got response: "@ + lines.last(),
                        ),
                    ),
                ),
            )
        }),
{
    let codes = seq![expected];
    assert(codes.contains(codes[0]));
    law_unexpected_text(Seq::empty(), expected, lines.last());
    law_response(codes, lines, code);
}

/// A reply with any of several expected codes is given, and any other is an error that lists
/// them.
pub proof fn law_responses_in_words(
    expected: Seq<u32>,
    secure: bool,
    lines: Seq<Seq<char>>,
    code: u32,
)
    requires
        is_reply(lines, code),
    ensures
        ({
            let steps = CommandView::ReadResponse(expected).steps(secure);
            let p = run(steps, read(lines));
            &&& expected.contains(code) ==> (p matches Some(
                ProgressView::Done(Ok(OutcomeView::Reply(reply))),
            ) && reply.code == code && reply.text == lines.last())
            &&& !expected.contains(code) ==> p == Some(
                ProgressView::Done(Err(unexpected(expected, lines.last()))),
            )
        }),
{
    law_response(expected, lines, code);
}

/// The size of a file is asked for with `SIZE`, and its modification time with `MDTM`,
/// and its name as it is. Code 213 has an answer read from the reply, code 550 says
/// that there is none, and any other code is an error.
#[verifier::spinoff_prover]
#[verifier::rlimit(60)]
pub proof fn law_file_in_words(
    pathname: Seq<char>,
    secure: bool,
    lines: Seq<Seq<char>>,
    code: u32,
)
    requires
        is_reply(lines, code),
    ensures
        ({
            let size = CommandView::Size(pathname).steps(secure);
            let time = CommandView::Mdtm(pathname).steps(secure);
            let s = run(size, sent_and_read(lines));
            let t = run(time, sent_and_read(lines));
            let failed = Some(
                ProgressView::Done(
                    Err(
                        ErrorView::InvalidResponse(
                            "Expected code [213], got response: "@ + lines.last(),
                        ),
                    ),
                ),
            );
            &&& performs(
                run(size, Seq::empty()),
                ActionView::Send("SIZE "@ + pathname + "\r\n"@),
            )
            &&& performs(
                run(time, Seq::empty()),
                ActionView::Send("MDTM "@ + pathname + "\r\n"@),
            )
            &&& code == 550 ==> s == Some(ProgressView::Done(Ok(OutcomeView::FileSize(None))))
            &&& code == 550 ==> t == Some(
                ProgressView::Done(Ok(OutcomeView::ModificationTime(None))),
            )
            &&& code == 213 ==> s is None || (s matches Some(
                ProgressView::Done(Ok(OutcomeView::FileSize(_))),
            ))
            &&& code == 213 ==> t is None || (t matches Some(
                ProgressView::Done(Ok(OutcomeView::ModificationTime(_))),
            ))
            &&& code != 213 && code != 550 ==> s == failed && t == failed
        }),
{
    reveal_strlit("SIZE");
    reveal_strlit("SIZE ");
    reveal_strlit("MDTM");
    reveal_strlit("MDTM ");
    reveal_strlit(" ");
    reveal_strlit("\r\n");
    assert(command("SIZE"@, pathname) =~= "SIZE "@ + pathname + "\r\n"@);
    assert(command("MDTM"@, pathname) =~= "MDTM "@ + pathname + "\r\n"@);
    lemma_expected_213(lines.last());
    law_file(command("SIZE"@, pathname), Reading::FileSize, lines, code);
    law_file(command("MDTM"@, pathname), Reading::ModificationTime, lines, code);
}

/// Whether `text` is the line that a command with a data connection sends: `RETR` to
/// retrieve a file, `STOR` to store one, each with the name as it is; `LIST` or `NLST` to
/// list files, with the path as it is if there is one, and alone if there is none.
pub open spec fn is_data_line(c: CommandView, text: Seq<char>) -> bool {
    match c {
        CommandView::Get(file) | CommandView::Retr(file) | CommandView::SimpleRetr(file) => text
            == "RETR "@ + file + "\r\n"@,
        CommandView::Put(file) => text == "STOR "@ + file + "\r\n"@,
        CommandView::List(Some(path)) => text == "LIST "@ + path + "\r\n"@,
        CommandView::List(None) => text == "LIST\r\n"@,
        CommandView::Nlst(Some(path)) => text == "NLST "@ + path + "\r\n"@,
        CommandView::Nlst(None) => text == "NLST\r\n"@,
        _ => false,
    }
}

/// The steps of a command with a data connection begin with those that open it.
pub(crate) proof fn lemma_data_line(c: CommandView, secure: bool) -> (parts: (
    Seq<char>,
    Seq<StepView>,
))
    requires
        c.has_data_connection(),
    ensures
        is_data_line(c, parts.0),
        c.steps(secure) == data_steps(secure, parts.0) + parts.1,
        parts.1.len() > 0,
        parts.1[0] is Expect,
{
    reveal_strlit("RETR");
    reveal_strlit("RETR ");
    reveal_strlit("STOR");
    reveal_strlit("STOR ");
    reveal_strlit("LIST");
    reveal_strlit("LIST ");
    reveal_strlit("LIST\r\n");
    reveal_strlit("NLST");
    reveal_strlit("NLST ");
    reveal_strlit("NLST\r\n");
    reveal_strlit(" ");
    reveal_strlit("\r\n");
    let steps = c.steps(secure);
    let line = steps[2]->OpenData_0;
    let rest = steps.skip(data_steps(secure, line).len() as int);
    assert(steps =~= data_steps(secure, line) + rest);
    match c {
        CommandView::Get(file) | CommandView::Retr(file) | CommandView::SimpleRetr(file) => {
            assert(line == command("RETR"@, file));
            assert(line =~= "RETR "@ + file + "\r\n"@);
        },
        CommandView::Put(file) => {
            assert(line == command("STOR"@, file));
            assert(line =~= "STOR "@ + file + "\r\n"@);
        },
        CommandView::List(Some(path)) => {
            assert(line == command("LIST"@, path));
            assert(line =~= "LIST "@ + path + "\r\n"@);
        },
        CommandView::List(None) => {
            assert(line == bare_command("LIST"@));
            assert(line =~= "LIST\r\n"@);
        },
        CommandView::Nlst(Some(path)) => {
            assert(line == command("NLST"@, path));
            assert(line =~= "NLST "@ + path + "\r\n"@);
        },
        CommandView::Nlst(None) => {
            assert(line == bare_command("NLST"@));
            assert(line =~= "NLST\r\n"@);
        },
        _ => {},
    }
    (line, rest)
}

/// A command with a data connection sends `PASV`. If the server answers with code 227
/// and an address, the command sends its own line, with the name or the path as it is:
/// `RETR`, `STOR`, `LIST` or `NLST`, the last two without a path if none is given. It
/// opens the data connection to that address, secures it if and only if the session is
/// secured, and then reads a reply. If the server answers with code 227 and no address,
/// or with any other code, the command ends with an error and its own line is not sent.
#[verifier::spinoff_prover]
#[verifier::rlimit(60)]
pub proof fn law_data_command(
    c: CommandView,
    secure: bool,
    lines: Seq<Seq<char>>,
    address: SocketAddress,
    nowhere: Seq<Seq<char>>,
    refusal: Seq<Seq<char>>,
    code: u32,
)
    requires
        c.has_data_connection(),
        announces(lines, address),
        is_reply(nowhere, 227),
        passive_groups(nowhere.last()) is None,
        is_reply(refusal, code),
        code != 227,
    ensures
        ({
            let steps = c.steps(secure);
            let asked = sent_and_read(lines);
            let opened = asked + seq![EventView::Sent, EventView::Opened];
            &&& performs(run(steps, Seq::empty()), ActionView::Send("PASV\r\n"@))
            &&& performs(
                run(steps, asked),
                ActionView::Send(
                    match c {
                        CommandView::Put(file) => "STOR "@ + file + "\r\n"@,
                        CommandView::List(Some(path)) => "LIST "@ + path + "\r\n"@,
                        CommandView::List(None) => "LIST\r\n"@,
                        CommandView::Nlst(Some(path)) => "NLST "@ + path + "\r\n"@,
                        CommandView::Nlst(None) => "NLST\r\n"@,
                        CommandView::Get(file) => "RETR "@ + file + "\r\n"@,
                        CommandView::Retr(file) => "RETR "@ + file + "\r\n"@,
                        CommandView::SimpleRetr(file) => "RETR "@ + file + "\r\n"@,
                        _ => Seq::empty(),
                    },
                ),
            )
            &&& performs(run(steps, asked + seq![EventView::Sent]), ActionView::OpenData(address))
            &&& secure ==> performs(run(steps, opened), ActionView::SecureData)
            &&& secure ==> performs(
                run(steps, opened + seq![EventView::Secured]),
                ActionView::ReadLine,
            )
            &&& !secure ==> performs(run(steps, opened), ActionView::ReadLine)
            &&& run(steps, sent_and_read(nowhere)) == Some(
                ProgressView::Done(
                    Err(
                        ErrorView::InvalidResponse(
                            "Invalid PASV response: "@ + nowhere.last(),
                        ),
                    ),
                ),
            )
            &&& run(steps, sent_and_read(refusal)) == Some(
                ProgressView::Done(
                    Err(
                        ErrorView::InvalidResponse(
                            "Expected code [227], got response: "@ + refusal.last(),
                        ),
                    ),
                ),
            )
        }),
{
    reveal_strlit("PASV");
    reveal_strlit("PASV\r\n");
    reveal_strlit("\r\n");
    let pasv = bare_command("PASV"@);
    assert(pasv =~= "PASV\r\n"@);
    lemma_expected_227(refusal.last());
    let (line, rest) = lemma_data_line(c, secure);
    let steps = c.steps(secure);
    law_data_connection(secure, line, rest, lines, address);
    law_no_address(secure, line, rest, nowhere);
    let codes = seq![227u32];
    let opening = steps.skip(2);
    assert(steps =~= ask(pasv, codes) + opening);
    let x = ExchangeView::of(steps);
    lemma_ask(pasv, codes, opening, x.reply, x.outcome, refusal, code);
    let opened = sent_and_read(lines) + seq![EventView::Sent, EventView::Opened];
    if secure {
        assert(data_opened(secure, lines) =~= opened + seq![EventView::Secured]);
    } else {
        assert(data_opened(secure, lines) =~= opened);
    }
    let reply = reply_of(lines, 227);
    assert(performs(proceed(rest, reply, OutcomeView::Unit), ActionView::ReadLine));
}

/// How a transfer ends: it has succeeded if and only if the server answers with code 226
/// or 250.
proof fn lemma_over(code: u32, line: Seq<char>)
    ensures
        transfer_over().contains(code) == (code == 226 || code == 250),
        unexpected(transfer_over(), line) == ErrorView::InvalidResponse(
            "Expected code [226, 250], got response: "@ + line,
        ),
{
    let codes = transfer_over();
    assert(codes =~= seq![226u32, 250u32]);
    assert(codes[0] == 226 && codes[1] == 250);
    assert(codes.contains(codes[0]) && codes.contains(codes[1]));
    lemma_expected_226_or_250(line);
}

/// How a retrieval begins: if and only if the server answers with code 150 or 125.
proof fn lemma_begins(code: u32, line: Seq<char>)
    ensures
        transfer_begins().contains(code) == (code == 150 || code == 125),
        unexpected(transfer_begins(), line) == ErrorView::InvalidResponse(
            "Expected code [150, 125], got response: "@ + line,
        ),
{
    let codes = transfer_begins();
    assert(codes =~= seq![150u32, 125u32]);
    assert(codes[0] == 150 && codes[1] == 125);
    assert(codes.contains(codes[0]) && codes.contains(codes[1]));
    lemma_expected_150_or_125(line);
}

/// A file is retrieved into memory: after code 150 or 125 the data connection is read,
/// and after code 226 or 250 the outcome is what was read, byte for byte. Any other code
/// is an error.
pub proof fn law_download(
    file: Seq<char>,
    secure: bool,
    lines: Seq<Seq<char>>,
    address: SocketAddress,
    begin: Seq<Seq<char>>,
    begin_code: u32,
    bytes: Seq<u8>,
    end: Seq<Seq<char>>,
    end_code: u32,
)
    requires
        announces(lines, address),
        is_reply(begin, begin_code),
        is_reply(end, end_code),
    ensures
        ({
            let steps = CommandView::SimpleRetr(file).steps(secure);
            let begun = data_opened(secure, lines) + read(begin);
            if begin_code == 150 || begin_code == 125 {
                &&& performs(run(steps, begun), ActionView::ReadContents)
                &&& run(steps, begun + (seq![EventView::Contents(bytes)] + read(end))) == Some(
                    ProgressView::Done(
                        if end_code == 226 || end_code == 250 {
                            Ok(OutcomeView::Contents(bytes))
                        } else {
                            Err(
                                ErrorView::InvalidResponse(
                                    "Expected code [226, 250], got response: "@ + end.last(),
                                ),
                            )
                        },
                    ),
                )
            } else {
                run(steps, begun) == Some(
                    ProgressView::Done(
                        Err(
                            ErrorView::InvalidResponse(
                                "Expected code [150, 125], got response: "@ + begin.last(),
                            ),
                        ),
                    ),
                )
            }
        }),
{
    lemma_begins(begin_code, begin.last());
    lemma_over(end_code, end.last());
    law_simple_retr(
        secure,
        file,
        lines,
        address,
        begin,
        begin_code,
        bytes,
        end,
        end_code,
    );
}

/// A file is retrieved by a reader of the caller: after code 150 or 125 the reader has the
/// data connection. If it fails, the command fails as it did; if it succeeds, code 226 or
/// 250 ends the command, and any other code is an error.
pub proof fn law_retr_in_words(
    file: Seq<char>,
    secure: bool,
    lines: Seq<Seq<char>>,
    address: SocketAddress,
    begin: Seq<Seq<char>>,
    begin_code: u32,
    failure: ErrorView,
    end: Seq<Seq<char>>,
    end_code: u32,
)
    requires
        announces(lines, address),
        is_reply(begin, begin_code),
        is_reply(end, end_code),
    ensures
        ({
            let steps = CommandView::Retr(file).steps(secure);
            let begun = data_opened(secure, lines) + read(begin);
            if begin_code == 150 || begin_code == 125 {
                &&& performs(run(steps, begun), ActionView::HandOver)
                &&& run(steps, begun + seq![EventView::ReaderFailed(failure)]) == Some(
                    ProgressView::Done(Err(failure)),
                )
                &&& run(steps, begun + (seq![EventView::Handled] + read(end))) == Some(
                    ProgressView::Done(
                        if end_code == 226 || end_code == 250 {
                            Ok(OutcomeView::Unit)
                        } else {
                            Err(
                                ErrorView::InvalidResponse(
                                    "Expected code [226, 250], got response: "@ + end.last(),
                                ),
                            )
                        },
                    ),
                )
            } else {
                run(steps, begun) == Some(
                    ProgressView::Done(
                        Err(
                            ErrorView::InvalidResponse(
                                "Expected code [150, 125], got response: "@ + begin.last(),
                            ),
                        ),
                    ),
                )
            }
        }),
{
    lemma_begins(begin_code, begin.last());
    lemma_over(end_code, end.last());
    law_retr(
        secure,
        file,
        lines,
        address,
        begin,
        begin_code,
        failure,
        end,
        end_code,
    );
}

/// A file whose data connection is left to the caller: the command succeeds if and only if
/// the server answers with code 150.
pub proof fn law_get_in_words(
    file: Seq<char>,
    secure: bool,
    lines: Seq<Seq<char>>,
    address: SocketAddress,
    begin: Seq<Seq<char>>,
    begin_code: u32,
)
    requires
        announces(lines, address),
        is_reply(begin, begin_code),
    ensures
        run(
            CommandView::Get(file).steps(secure),
            data_opened(secure, lines) + read(begin),
        ) == Some(
            ProgressView::Done(
                if begin_code == 150 {
                    Ok(OutcomeView::Unit)
                } else {
                    Err(
                        ErrorView::InvalidResponse(
                            "Expected code [150], got response: "@ + begin.last(),
                        ),
                    )
                },
            ),
        ),
{
    lemma_expected_150(begin.last());
    law_get(secure, file, lines, address, begin, begin_code);
}

/// A file is stored: after code 125 or 150 it is written to the data connection, and code
/// 226 or 250 then ends the command. Any other code is an error, and in place of the first
/// it has nothing written.
pub proof fn law_put_in_words(
    file: Seq<char>,
    secure: bool,
    lines: Seq<Seq<char>>,
    address: SocketAddress,
    begin: Seq<Seq<char>>,
    begin_code: u32,
    end: Seq<Seq<char>>,
    end_code: u32,
)
    requires
        announces(lines, address),
        is_reply(begin, begin_code),
        is_reply(end, end_code),
    ensures
        ({
            let steps = CommandView::Put(file).steps(secure);
            let begun = data_opened(secure, lines) + read(begin);
            if begin_code == 125 || begin_code == 150 {
                &&& performs(run(steps, begun), ActionView::Upload)
                &&& run(steps, begun + (seq![EventView::Uploaded] + read(end))) == Some(
                    ProgressView::Done(
                        if end_code == 226 || end_code == 250 {
                            Ok(OutcomeView::Unit)
                        } else {
                            Err(
                                ErrorView::InvalidResponse(
                                    "Expected code [226, 250], got response: "@ + end.last(),
                                ),
                            )
                        },
                    ),
                )
            } else {
                run(steps, begun) == Some(
                    ProgressView::Done(
                        Err(
                            ErrorView::InvalidResponse(
                                "Expected code [125, 150], got response: "@ + begin.last(),
                            ),
                        ),
                    ),
                )
            }
        }),
{
    let codes = seq![125u32, 150u32];
    assert(codes.contains(codes[0]) && codes.contains(codes[1]));
    lemma_expected_125_or_150(begin.last());
    lemma_over(end_code, end.last());
    law_put(secure, file, lines, address, begin, begin_code, end, end_code);
}

/// Files are listed: after code 150 or 125 the data connection is read as a text and then
/// closed, and after code 226 or 250 the outcome is the lines of that text. Any other code
/// is an error.
#[verifier::spinoff_prover]
#[verifier::rlimit(60)]
pub proof fn law_list_in_words(
    path: Option<Seq<char>>,
    names_only: bool,
    secure: bool,
    lines: Seq<Seq<char>>,
    address: SocketAddress,
    begin: Seq<Seq<char>>,
    begin_code: u32,
    text: Seq<char>,
    end: Seq<Seq<char>>,
    end_code: u32,
)
    requires
        announces(lines, address),
        is_reply(begin, begin_code),
        is_reply(end, end_code),
    ensures
        ({
            let c = if names_only {
                CommandView::Nlst(path)
            } else {
                CommandView::List(path)
            };
            let steps = c.steps(secure);
            let begun = data_opened(secure, lines) + read(begin);
            if begin_code == 150 || begin_code == 125 {
                &&& performs(run(steps, begun), ActionView::ReadText)
                &&& performs(run(steps, begun + text_read(text)), ActionView::CloseData)
                &&& run(
                    steps,
                    begun + text_read(text) + (seq![EventView::Closed] + read(end)),
                ) == Some(
                    ProgressView::Done(
                        if end_code == 226 || end_code == 250 {
                            Ok(OutcomeView::Listing(listing(text)))
                        } else {
                            Err(
                                ErrorView::InvalidResponse(
                                    "Expected code [226, 250], got response: "@ + end.last(),
                                ),
                            )
                        },
                    ),
                )
            } else {
                run(steps, begun) == Some(
                    ProgressView::Done(
                        Err(
                            ErrorView::InvalidResponse(
                                "Expected code [150, 125], got response: "@ + begin.last(),
                            ),
                        ),
                    ),
                )
            }
        }),
{
    let codes = seq![150u32, 125u32];
    assert(codes.contains(codes[0]) && codes.contains(codes[1]));
    lemma_expected_150_or_125(begin.last());
    lemma_over(end_code, end.last());
    let line = command_on(
        if names_only {
            "NLST"@
        } else {
            "LIST"@
        },
        path,
    );
    law_list(secure, line, 150, lines, address, begin, begin_code, text, end, end_code);
}

} // verus!

//! What is read from replies, number by number.

use vstd::prelude::*;

use crate::answer_laws::{
    law_one_line_reply, lemma_decimal_is_number, lemma_four_digits, lemma_two_digits,
    stamp_numbers, three_digits, two_digits,
};
use crate::answers::{passive_fits, passive_result, size_fits, time_fits};
use crate::calendar::{days_before_month, days_before_year, days_in_month, is_leap, Moment};
use crate::command_laws::lemma_data_line;
use crate::exchange::{ExchangeView, OutcomeView, ProgressView, Reading, StepView};
use crate::ftp::{ask, bare_command, command};
use crate::laws::{announces, is_reply, law_file, lemma_ask, run, sent_and_read};
use crate::patterns::{
    is_blank, is_decimal, is_number, is_space, law_leftmost_trailing_number,
    lemma_decimal_is_no_space, lemma_found, lemma_passive_unique, passive_at, passive_groups,
    passive_text, time_stamp_groups, trailing_number_at, trailing_number_groups,
};
use crate::session_laws::CommandView;
use crate::text::{decimal, unsigned_value};
use crate::text_laws::{law_no_number, law_number_within_limit};
use crate::types::{ErrorView, SocketAddress};

verus! {

/// Six numbers between brackets are what is found, if no bracket opens before them.
proof fn lemma_numbers_found(before: Seq<char>, g: Seq<Seq<char>>, behind: Seq<char>)
    requires
        !before.contains('('),
        g.len() == 6,
        forall|k: int| 0 <= k < 6 ==> is_number(#[trigger] g[k]),
    ensures
        passive_groups(before + passive_text(g) + behind) == Some(g),
{
    let t = passive_text(g);
    let s = before + t + behind;
    let start = before.len() as int;
    assert(t =~= s.skip(start).subrange(0, t.len() as int));
    assert(passive_at(s, start, g));
    let at = |i: int, h: Seq<Seq<char>>| passive_at(s, i, h);
    assert forall|j: int, h: Seq<Seq<char>>| #[trigger] at(j, h) implies start <= j by {
        if j < start {
            let u = passive_text(h);
            assert(u[0] == '(');
            assert(s.skip(j).subrange(0, u.len() as int)[0] == s[j]);
            assert(s[j] == before[j]);
            assert(before.contains(before[j]));
        }
    }
    assert forall|i: int, a: Seq<Seq<char>>, b: Seq<Seq<char>>| #[trigger]
        at(i, a) && #[trigger] at(i, b) implies a == b by {
        lemma_passive_unique(s, i, a, b);
    }
    lemma_found(at, start, g);
}

/// In `(h1,h2,h3,h4,p1,p2)`, before which no other bracket opens, the numbers are the host
/// `h1.h2.h3.h4` and the port `p1 * 256 + p2`, if each of them is at most 255. If any of
/// them is greater, they are no address.
#[verifier::spinoff_prover]
#[verifier::rlimit(60)]
pub proof fn law_numbers_of_an_address(
    before: Seq<char>,
    h1: nat,
    h2: nat,
    h3: nat,
    h4: nat,
    p1: nat,
    p2: nat,
    behind: Seq<char>,
)
    requires
        !before.contains('('),
    ensures
        ({
            let s = before + seq!['('] + decimal(h1) + seq![','] + decimal(h2) + seq![',']
                + decimal(h3) + seq![','] + decimal(h4) + seq![','] + decimal(p1) + seq![',']
                + decimal(p2) + seq![')'] + behind;
            let found = passive_groups(s);
            &&& passive_fits(found) <==> h1 <= 255 && h2 <= 255 && h3 <= 255 && h4 <= 255 && p1
                <= 255 && p2 <= 255
            &&& passive_fits(found) ==> (passive_result(s, found) matches Ok(address)
                && address.h1 == h1 && address.h2 == h2 && address.h3 == h3 && address.h4 == h4
                && address.port == p1 * 256 + p2)
        }),
{
    let g = seq![
        decimal(h1),
        decimal(h2),
        decimal(h3),
        decimal(h4),
        decimal(p1),
        decimal(p2),
    ];
    let s = before + seq!['('] + decimal(h1) + seq![','] + decimal(h2) + seq![','] + decimal(h3)
        + seq![','] + decimal(h4) + seq![','] + decimal(p1) + seq![','] + decimal(p2) + seq![')']
        + behind;
    lemma_decimal_is_number(h1);
    lemma_decimal_is_number(h2);
    lemma_decimal_is_number(h3);
    lemma_decimal_is_number(h4);
    lemma_decimal_is_number(p1);
    lemma_decimal_is_number(p2);
    assert(s =~= before + passive_text(g) + behind);
    lemma_numbers_found(before, g, behind);
    law_number_within_limit(h1, 255);
    law_number_within_limit(h2, 255);
    law_number_within_limit(h3, 255);
    law_number_within_limit(h4, 255);
    law_number_within_limit(p1, 255);
    law_number_within_limit(p2, 255);
    assert(g[0] == decimal(h1) && g[1] == decimal(h2) && g[2] == decimal(h3));
    assert(g[3] == decimal(h4) && g[4] == decimal(p1) && g[5] == decimal(p2));
}

/// A reply `227` with `(h1,h2,h3,h4,p1,p2)` announces the address of those six bytes.
#[verifier::spinoff_prover]
#[verifier::rlimit(60)]
pub proof fn law_announced_in_words(
    before: Seq<char>,
    h1: u8,
    h2: u8,
    h3: u8,
    h4: u8,
    p1: u8,
    p2: u8,
    behind: Seq<char>,
)
    requires
        !before.contains('('),
    ensures
        announces(
            seq![
                "227 "@ + before + seq!['('] + decimal(h1 as nat) + seq![','] + decimal(h2 as nat)
                    + seq![','] + decimal(h3 as nat) + seq![','] + decimal(h4 as nat) + seq![',']
                    + decimal(p1 as nat) + seq![','] + decimal(p2 as nat) + seq![')'] + behind,
            ],
            SocketAddress { h1, h2, h3, h4, port: (p1 * 256 + p2) as u16 },
        ),
{
    reveal_strlit("227 ");
    let code = three_digits(227) + seq![' '];
    assert(code =~= "227 "@);
    let rest = before + seq!['('] + decimal(h1 as nat) + seq![','] + decimal(h2 as nat) + seq![',']
        + decimal(h3 as nat) + seq![','] + decimal(h4 as nat) + seq![','] + decimal(p1 as nat)
        + seq![','] + decimal(p2 as nat) + seq![')'] + behind;
    let line = "227 "@ + before + seq!['('] + decimal(h1 as nat) + seq![','] + decimal(h2 as nat)
        + seq![','] + decimal(h3 as nat) + seq![','] + decimal(h4 as nat) + seq![','] + decimal(
        p1 as nat,
    ) + seq![','] + decimal(p2 as nat) + seq![')'] + behind;
    assert(code + rest =~= line);
    let first = "227 "@ + before;
    assert forall|i: int| 0 <= i < first.len() implies first[i] != '(' by {
        if i >= 4 {
            assert(before.contains(before[i - 4]));
        }
    }
    law_numbers_of_an_address(
        first,
        h1 as nat,
        h2 as nat,
        h3 as nat,
        h4 as nat,
        p1 as nat,
        p2 as nat,
        behind,
    );
    assert(rest[before.len() as int] == '(');
    law_one_line_reply(227, rest);
}

/// A text in which no bracket opens holds no address.
pub proof fn law_no_bracket_no_address(s: Seq<char>)
    requires
        !s.contains('('),
    ensures
        passive_groups(s) is None,
        passive_result(s, passive_groups(s)) == Err::<SocketAddress, ErrorView>(
            ErrorView::InvalidResponse("Invalid PASV response: "@ + s),
        ),
        passive_fits(passive_groups(s)),
{
    let at = |i: int, h: Seq<Seq<char>>| passive_at(s, i, h);
    assert forall|j: int, h: Seq<Seq<char>>| !#[trigger] at(j, h) by {
        if at(j, h) {
            let u = passive_text(h);
            assert(u[0] == '(');
            assert(s.skip(j).subrange(0, u.len() as int)[0] == s[j]);
            assert(s.contains(s[j]));
        }
    }
}

/// The address of six groups that were found: each is read as a number of at most 255, and
/// the last two make up the port. Where one of them is no such number, there is no way on:
/// the line of the command is not sent.
#[verifier::spinoff_prover]
#[verifier::rlimit(60)]
pub proof fn law_address_of_groups(
    c: CommandView,
    secure: bool,
    lines: Seq<Seq<char>>,
    g: Seq<Seq<char>>,
)
    requires
        c.has_data_connection(),
        is_reply(lines, 227),
        g.len() == 6,
        passive_groups(lines.last()) == Some(g),
    ensures
        ({
            let v = |k: int| unsigned_value(g[k], 255);
            let all = v(0) is Some && v(1) is Some && v(2) is Some && v(3) is Some && v(4) is Some
                && v(5) is Some;
            &&& !all ==> run(c.steps(secure), sent_and_read(lines)) is None
            &&& all ==> (passive_result(lines.last(), Some(g)) matches Ok(a) && a.h1 == v(0)->0
                && a.h2 == v(1)->0 && a.h3 == v(2)->0 && a.h4 == v(3)->0 && a.port == v(4)->0 * 256
                + v(5)->0)
            &&& all ==> announces(lines, passive_result(lines.last(), Some(g))->Ok_0)
        }),
{
    let v = |k: int| unsigned_value(g[k], 255);
    let codes = seq![227u32];
    assert(codes.contains(codes[0]));
    let (line, rest) = lemma_data_line(c, secure);
    let steps = c.steps(secure);
    let opening = steps.skip(2);
    let pasv = bare_command("PASV"@);
    assert(steps =~= ask(pasv, codes) + opening);
    let x = ExchangeView::of(steps);
    lemma_ask(pasv, codes, opening, x.reply, x.outcome, lines, 227);
    assert(opening[0] == StepView::OpenData(line));
    let all = v(0) is Some && v(1) is Some && v(2) is Some && v(3) is Some && v(4) is Some && v(5)
        is Some;
    assert(all == (forall|k: int| 0 <= k < 6 ==> unsigned_value(#[trigger] g[k], 255) is Some)) by {
        if all {
            assert forall|k: int| 0 <= k < 6 implies unsigned_value(
                #[trigger] g[k],
                255,
            ) is Some by {
                assert(k == 0 || k == 1 || k == 2 || k == 3 || k == 4 || k == 5);
                assert(v(k) is Some);
            }
        } else {
            assert(g[0] == g[0] && g[1] == g[1] && g[2] == g[2]);
            assert(g[3] == g[3] && g[4] == g[4] && g[5] == g[5]);
        }
    }
}

/// Two numbers before the blank end of one text, each behind a blank, are the same.
proof fn lemma_number_at_end(
    t: Seq<char>,
    x1: Seq<char>,
    n1: Seq<char>,
    b1: Seq<char>,
    x2: Seq<char>,
    n2: Seq<char>,
    b2: Seq<char>,
)
    requires
        t == x1 + n1 + b1,
        t == x2 + n2 + b2,
        x1.len() > 0,
        x2.len() > 0,
        is_space(x1.last()),
        is_space(x2.last()),
        is_number(n1),
        is_number(n2),
        is_blank(b1),
        is_blank(b2),
    ensures
        n1 == n2,
{
    let e1 = (x1.len() + n1.len()) as int;
    let e2 = (x2.len() + n2.len()) as int;
    assert(t.len() == e1 + b1.len());
    assert(t.len() == e2 + b2.len());
    assert(t[e1 - 1] == n1.last());
    assert(t[e2 - 1] == n2.last());
    assert(is_decimal(n1[n1.len() - 1]) && is_decimal(n2[n2.len() - 1]));
    lemma_decimal_is_no_space(t[e1 - 1]);
    lemma_decimal_is_no_space(t[e2 - 1]);
    if e1 < e2 {
        assert((x1 + n1 + b1)[e2 - 1] == b1[e2 - 1 - e1]);
        assert(is_space(b1[e2 - 1 - e1]));
    } else if e2 < e1 {
        assert((x2 + n2 + b2)[e1 - 1] == b2[e1 - 1 - e2]);
        assert(is_space(b2[e1 - 1 - e2]));
    }
    assert(t[x1.len() - 1] == x1.last());
    assert(t[x2.len() - 1] == x2.last());
    if x1.len() < x2.len() {
        let k = x2.len() - 1 - x1.len();
        assert(t[x2.len() - 1] == n1[k]);
        lemma_decimal_is_no_space(n1[k]);
    } else if x2.len() < x1.len() {
        let k = x1.len() - 1 - x2.len();
        assert(t[x1.len() - 1] == n2[k]);
        lemma_decimal_is_no_space(n2[k]);
    }
    assert(n1 =~= t.subrange(x1.len() as int, e1));
    assert(n2 =~= t.subrange(x2.len() as int, e2));
}

/// The size that a reply with code 213 gives is the number at its end, behind a blank,
/// whatever stands before: if it fits in a `usize`, it is the outcome, and if it does not,
/// there is no way on.
#[verifier::spinoff_prover]
#[verifier::rlimit(60)]
pub proof fn law_size_at_end(
    pathname: Seq<char>,
    secure: bool,
    lines: Seq<Seq<char>>,
    before: Seq<char>,
    blank: char,
    n: nat,
    behind: Seq<char>,
)
    requires
        is_reply(lines, 213),
        lines.last() == before + seq![blank] + decimal(n) + behind,
        is_space(blank),
        is_blank(behind),
    ensures
        run(CommandView::Size(pathname).steps(secure), sent_and_read(lines)) == if n
            <= usize::MAX {
            Some(ProgressView::Done(Ok(OutcomeView::FileSize(Some(n)))))
        } else {
            None
        },
{
    let s = lines.last();
    let x = before + seq![blank];
    let d = decimal(n);
    lemma_decimal_is_number(n);
    law_number_within_limit(n, usize::MAX as nat);
    law_leftmost_trailing_number(s);
    let start = before.len() as int;
    assert(s.skip(start) =~= seq![blank] + d + behind);
    assert(is_blank(seq![blank]));
    assert(seq![d][0] == d);
    assert(trailing_number_at(s, start, seq![d]));
    let g = trailing_number_groups(s)->0;
    let i = choose|i: int| #[trigger] trailing_number_at(s, i, g);
    let (a, b) = choose|a: Seq<char>, b: Seq<char>|
        a.len() > 0 && is_blank(a) && is_blank(b) && s.skip(i) == #[trigger] (a + g[0] + b);
    let x2 = s.take(i) + a;
    assert(s =~= s.take(i) + s.skip(i));
    assert(s =~= x2 + g[0] + b);
    assert(x2.last() == a.last());
    assert(is_space(a[a.len() - 1]));
    assert(x.last() == blank);
    lemma_number_at_end(s, x, d, behind, x2, g[0], b);
    law_file(command("SIZE"@, pathname), Reading::FileSize, lines, 213);
}

/// A reply with code 213 that has no number at its end gives no size, and one without a
/// time stamp gives no modification time.
pub proof fn law_nothing_found(pathname: Seq<char>, secure: bool, lines: Seq<Seq<char>>)
    requires
        is_reply(lines, 213),
    ensures
        trailing_number_groups(lines.last()) is None ==> run(
            CommandView::Size(pathname).steps(secure),
            sent_and_read(lines),
        ) == Some(ProgressView::Done(Ok(OutcomeView::FileSize(None)))),
        time_stamp_groups(lines.last()) is None ==> run(
            CommandView::Mdtm(pathname).steps(secure),
            sent_and_read(lines),
        ) == Some(ProgressView::Done(Ok(OutcomeView::ModificationTime(None)))),
{
    law_file(command("SIZE"@, pathname), Reading::FileSize, lines, 213);
    law_file(command("MDTM"@, pathname), Reading::ModificationTime, lines, 213);
}

/// The modification time that a reply with code 213 gives is the moment of its time stamp:
/// four digits of the year, and two each of the month, the day, the hour, the minute and the
/// second. If there is such a moment, its seconds from the beginning of 1970 are the outcome,
/// and if there is none, there is no way on.
#[verifier::spinoff_prover]
#[verifier::rlimit(60)]
pub proof fn law_time_of_stamp(
    pathname: Seq<char>,
    secure: bool,
    lines: Seq<Seq<char>>,
    m: Moment,
)
    requires
        is_reply(lines, 213),
        m.year < 10000,
        m.month < 100,
        m.day < 100,
        m.hour < 100,
        m.minute < 100,
        m.second < 100,
        time_stamp_groups(lines.last()) == Some(
            seq![
                two_digits(m.year / 100) + two_digits(m.year),
                two_digits(m.month),
                two_digits(m.day),
                two_digits(m.hour),
                two_digits(m.minute),
                two_digits(m.second),
            ],
        ),
    ensures
        run(CommandView::Mdtm(pathname).steps(secure), sent_and_read(lines)) == if 1 <= m.month
            <= 12 && 1 <= m.day <= days_in_month(m.year, m.month) && m.hour < 24 && m.minute < 60
            && m.second < 60 {
            Some(ProgressView::Done(Ok(OutcomeView::ModificationTime(Some(m.unix_seconds())))))
        } else {
            None
        },
{
    let g = stamp_numbers(m);
    lemma_four_digits(m.year);
    lemma_two_digits(m.month);
    lemma_two_digits(m.day);
    lemma_two_digits(m.hour);
    lemma_two_digits(m.minute);
    lemma_two_digits(m.second);
    assert forall|k: int| 0 <= k < 6 implies unsigned_value(
        #[trigger] g[k],
        u32::MAX as nat,
    ) is Some by {
        assert(k == 0 || k == 1 || k == 2 || k == 3 || k == 4 || k == 5);
    }
    law_file(command("MDTM"@, pathname), Reading::ModificationTime, lines, 213);
}

/// The digits of a two-digit number in a time stamp.
pub proof fn law_two_digits(n: nat)
    requires
        n < 100,
    ensures
        two_digits(n).len() == 2,
        two_digits(n)[0] as int == 48 + n / 10,
        two_digits(n)[1] as int == 48 + n % 10,
{
}

/// A number with a digit of another script is no size, no part of an address and no part of a
/// time: there is no way on.
pub proof fn law_other_digits(g: Seq<Seq<char>>, k: int, i: int)
    requires
        0 <= k < g.len(),
        0 <= i < g[k].len(),
        g[k][i] > '\u{7f}',
    ensures
        !passive_fits(Some(g)),
        !time_fits(Some(g)),
        g.len() == 1 ==> !size_fits(Some(g)),
{
    law_no_number(g[k], i, 255);
    law_no_number(g[k], i, u32::MAX as nat);
    law_no_number(g[k], i, usize::MAX as nat);
    if g.len() == 6 {
        assert(unsigned_value(g[k], u8::MAX as nat) is None);
        assert(unsigned_value(g[k], u32::MAX as nat) is None);
    }
}

/// The length of a year, from its beginning to that of the next.
#[verifier::spinoff_prover]
proof fn lemma_year(y: nat)
    ensures
        days_before_year(y + 1) - days_before_year(y) == if is_leap(y) {
            366int
        } else {
            365
        },
{
    assert((y + 1 + 3) / 4 - (y + 3) / 4 == if y % 4 == 0 {
        1int
    } else {
        0
    });
    assert((y + 1 + 99) / 100 - (y + 99) / 100 == if y % 100 == 0 {
        1int
    } else {
        0
    });
    assert((y + 1 + 399) / 400 - (y + 399) / 400 == if y % 400 == 0 {
        1int
    } else {
        0
    });
}

/// The length of a year, as the sum of those of its months.
#[verifier::spinoff_prover]
proof fn lemma_months(y: nat)
    ensures
        days_before_month(y, 12) + 31 == if is_leap(y) {
            366int
        } else {
            365
        },
{
    let february = days_in_month(y, 2);
    assert(days_before_month(y, 1) == 0);
    assert(days_before_month(y, 2) == 31);
    assert(days_before_month(y, 3) == 31 + february);
    assert(days_before_month(y, 4) == 62 + february);
    assert(days_before_month(y, 5) == 92 + february);
    assert(days_before_month(y, 6) == 123 + february);
    assert(days_before_month(y, 7) == 153 + february);
    assert(days_before_month(y, 8) == 184 + february);
    assert(days_before_month(y, 9) == 215 + february);
    assert(days_before_month(y, 10) == 245 + february);
    assert(days_before_month(y, 11) == 276 + february);
    assert(days_before_month(y, 12) == 306 + february);
}

/// The calendar: the count of seconds begins with 1970; a day has 86400 seconds; the day after
/// the last of a month is the first of the next, and the day after the last of December is the
/// first of January of the next year; every fourth year has a 29th of February, but of the
/// hundredth years only every fourth.
#[verifier::spinoff_prover]
#[verifier::rlimit(60)]
pub proof fn law_calendar(y: nat, m: nat, d: nat)
    requires
        1 <= m <= 12,
        1 <= d,
    ensures
        ({
            let at = |year: nat, month: nat, day: nat, hour: nat, minute: nat, second: nat|
                (Moment { year, month, day, hour, minute, second }).unix_seconds();
            &&& at(1970, 1, 1, 0, 0, 0) == 0
            &&& forall|hour: nat, minute: nat, second: nat| #[trigger]
                at(y, m, d, hour, minute, second) == at(y, m, d, 0, 0, 0) + 3600 * hour + 60
                    * minute + second
            &&& at(y, m, d + 1, 0, 0, 0) == at(y, m, d, 0, 0, 0) + 86400
            &&& m < 12 ==> at(y, m + 1, 1, 0, 0, 0) == at(y, m, days_in_month(y, m), 0, 0, 0)
                + 86400
            &&& at(y + 1, 1, 1, 0, 0, 0) == at(y, 12, 31, 0, 0, 0) + 86400
        }),
        days_in_month(y, m) == if m == 2 {
            if is_leap(y) {
                29nat
            } else {
                28
            }
        } else if m == 4 || m == 6 || m == 9 || m == 11 {
            30
        } else {
            31
        },
        is_leap(y) == (y % 400 == 0 || (y % 4 == 0 && y % 100 != 0)),
{
    lemma_year(y);
    lemma_months(y);
    assert(days_before_month(1970, 1) == 0);
    assert(days_before_month(y + 1, 1) == 0);
    assert((m + 1) as nat - 1 == m);
    if m < 12 {
        assert(days_before_month(y, m + 1) == days_before_month(y, m) + days_in_month(y, m));
    }
}

} // verus!

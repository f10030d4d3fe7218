//! What holds of the texts of replies and listings.

use vstd::prelude::*;
use vstd::utf8::{
    encode_scalar, encode_utf8, encode_utf8_first_scalar, encode_utf8_valid_utf8,
    is_ascii_chars, is_ascii_chars_encode_utf8, is_char_boundary, leading_byte_width_1,
    pop_first_scalar,
};

use crate::answers::{
    address_of, crlf_at, directory_result, lemma_next_crlf, listing, next_crlf, nonempty,
    passive_fits, passive_result, pieces, pieces_from, size_fits, size_result, time_fits,
    time_result,
};
use crate::calendar::Moment;
use crate::exchange::{OutcomeView, ProgressView, Reading, StepView};
use crate::ftp::{ask, bare_command, command, file_steps};
use crate::laws::{announces, head_of, is_reply, law_file, law_pwd, run, sent_and_read};
use crate::patterns::{
    is_blank, is_decimal, is_number, is_space, lemma_found, lemma_passive_unique,
    lemma_time_stamp_unique, lemma_trailing_number_unique, passive_at, passive_groups,
    passive_text, time_digits_at, time_stamp_at, time_stamp_groups, trailing_number_at,
    trailing_number_groups,
};
use crate::reply::{code_value, ends_reply, is_cuttable, Head};
use crate::status;
use crate::text::{
    all_digits, decimal, digit_char, is_digit, lemma_decimal, lemma_unsigned_value_of_decimal,
    numeral_value, unsigned_value,
};
use crate::types::{ErrorView, SocketAddress};

verus! {

/// A path in quotation marks is read as it is, whatever it holds, if no other
/// quotation mark stands before or behind it.
pub proof fn law_directory(before: Seq<char>, path: Seq<char>, behind: Seq<char>)
    requires
        !before.contains('"'),
        !behind.contains('"'),
    ensures
        directory_result(before + seq!['"'] + path + seq!['"'] + behind) == Ok::<
            Seq<char>,
            ErrorView,
        >(path),
{
    let s = before + seq!['"'] + path + seq!['"'] + behind;
    let begin = before.len() as int;
    let end = begin + 1 + path.len();
    s.index_of_first_ensures('"');
    s.index_of_last_ensures('"');
    assert(s[begin] == '"');
    assert(s[end] == '"');
    assert forall|k: int| 0 <= k < begin implies s[k] != '"' by {
        assert(s[k] == before[k]);
        assert(before.contains(before[k]));
    }
    assert forall|k: int| end < k < s.len() implies s[k] != '"' by {
        assert(s[k] == behind[k - end - 1]);
        assert(behind.contains(behind[k - end - 1]));
    }
    assert(s.subrange(begin + 1, end) == path);
}

/// The six numbers in which a passive reply spells an address.
pub open spec fn address_numbers(a: SocketAddress) -> Seq<Seq<char>> {
    seq![
        decimal(a.h1 as nat),
        decimal(a.h2 as nat),
        decimal(a.h3 as nat),
        decimal(a.h4 as nat),
        decimal((a.port / 256) as nat),
        decimal((a.port % 256) as nat),
    ]
}

/// A numeral is a number.
pub(crate) proof fn lemma_decimal_is_number(n: nat)
    ensures
        is_number(decimal(n)),
{
    lemma_decimal(n);
    assert forall|i: int| 0 <= i < decimal(n).len() implies is_decimal(
        #[trigger] decimal(n)[i],
    ) by {
        assert(is_digit(decimal(n)[i]));
    }
}

/// The address that a passive reply announces, as `(h1,h2,h3,h4,p1,p2)`, is the
/// address that is read from it: the host is `h1.h2.h3.h4` and the port is
/// `p1 * 256 + p2`. Whatever stands around it does not matter, as long as no
/// opening bracket stands before it.
#[verifier::spinoff_prover]
#[verifier::rlimit(60)]
pub proof fn law_passive_address(before: Seq<char>, address: SocketAddress, behind: Seq<char>)
    requires
        !before.contains('('),
    ensures
        ({
            let s = before + passive_text(address_numbers(address)) + behind;
            &&& passive_fits(passive_groups(s))
            &&& passive_result(s, passive_groups(s)) == Ok::<SocketAddress, ErrorView>(address)
        }),
{
    let g = address_numbers(address);
    let t = passive_text(g);
    let s = before + t + behind;
    lemma_decimal_is_number(address.h1 as nat);
    lemma_decimal_is_number(address.h2 as nat);
    lemma_decimal_is_number(address.h3 as nat);
    lemma_decimal_is_number(address.h4 as nat);
    lemma_decimal_is_number((address.port / 256) as nat);
    lemma_decimal_is_number((address.port % 256) as nat);
    let start = before.len() as int;
    assert(t =~= s.skip(start).subrange(0, t.len() as int));
    assert(passive_at(s, start, g));
    let at = |i: int, h: Seq<Seq<char>>| passive_at(s, i, h);
    assert forall|j: int, h: Seq<Seq<char>>| #[trigger] at(j, h) implies start <= j by {
        if j < start {
            let u = passive_text(h);
            assert(u[0] == '(');
            assert(s.skip(j).subrange(0, u.len() as int)[0] == s[j]);
            assert(s[j] == before[j]);
            assert(before.contains(before[j]));
        }
    }
    assert forall|i: int, a: Seq<Seq<char>>, b: Seq<Seq<char>>| #[trigger]
        at(i, a) && #[trigger] at(i, b) implies a == b by {
        lemma_passive_unique(s, i, a, b);
    }
    lemma_found(at, start, g);
    lemma_unsigned_value_of_decimal(address.h1 as nat, u8::MAX as nat);
    lemma_unsigned_value_of_decimal(address.h2 as nat, u8::MAX as nat);
    lemma_unsigned_value_of_decimal(address.h3 as nat, u8::MAX as nat);
    lemma_unsigned_value_of_decimal(address.h4 as nat, u8::MAX as nat);
    lemma_unsigned_value_of_decimal((address.port / 256) as nat, u8::MAX as nat);
    lemma_unsigned_value_of_decimal((address.port % 256) as nat, u8::MAX as nat);
    assert(address_of(g) == address);
}

/// The size in a reply on the status of a file, `213` and the size, is the size that
/// is read from it.
pub proof fn law_size(n: nat)
    requires
        n <= usize::MAX,
    ensures
        ({
            let s = "213 "@ + decimal(n) + "\r\n"@;
            &&& size_fits(trailing_number_groups(s))
            &&& size_result(trailing_number_groups(s)) == Some(n)
        }),
{
    reveal_strlit("213 ");
    reveal_strlit("\r\n");
    let s = "213 "@ + decimal(n) + "\r\n"@;
    let g = seq![decimal(n)];
    lemma_decimal_is_number(n);
    let before = seq![' '];
    let behind = "\r\n"@;
    assert(s.skip(3) =~= before + g[0] + behind);
    assert(is_blank(before) && is_blank(behind));
    assert(trailing_number_at(s, 3, g));
    let at = |i: int, h: Seq<Seq<char>>| trailing_number_at(s, i, h);
    assert forall|j: int, h: Seq<Seq<char>>| #[trigger] at(j, h) implies 3 <= j by {
        let (a, b) = choose|a: Seq<char>, b: Seq<char>|
            a.len() > 0 && is_blank(a) && is_blank(b) && s.skip(j) == #[trigger] (a + h[0] + b);
        assert(is_space(a[0]));
        assert(s.skip(j)[0] == a[0]);
        if j < 3 {
            assert(s[j] == "213 "@[j]);
        }
    }
    assert forall|i: int, a: Seq<Seq<char>>, b: Seq<Seq<char>>| #[trigger]
        at(i, a) && #[trigger] at(i, b) implies a == b by {
        lemma_trailing_number_unique(s, i, a, b);
    }
    lemma_found(at, 3, g);
    lemma_unsigned_value_of_decimal(n, usize::MAX as nat);
}

/// The last two decimal digits of `n`.
pub open spec fn two_digits(n: nat) -> Seq<char> {
    seq![digit_char(n / 10 % 10), digit_char(n % 10)]
}

/// The six numbers in which a time stamp spells a date and time.
pub open spec fn stamp_numbers(m: Moment) -> Seq<Seq<char>> {
    seq![
        two_digits(m.year / 100) + two_digits(m.year),
        two_digits(m.month),
        two_digits(m.day),
        two_digits(m.hour),
        two_digits(m.minute),
        two_digits(m.second),
    ]
}

/// The time stamp of a date and time: `YYYYMMDDhhmmss`.
pub open spec fn time_stamp(m: Moment) -> Seq<char> {
    let g = stamp_numbers(m);
    g[0] + g[1] + g[2] + g[3] + g[4] + g[5]
}

/// A number of two digits is read as what it is.
pub(crate) proof fn lemma_two_digits(n: nat)
    requires
        n < 100,
    ensures
        is_number(two_digits(n)),
        unsigned_value(two_digits(n), u32::MAX as nat) == Some(n),
{
    let s = two_digits(n);
    assert(s.drop_last() == seq![digit_char(n / 10 % 10)]);
    assert(s.drop_last().drop_last() == Seq::<char>::empty());
    reveal_with_fuel(numeral_value, 3);
    assert(numeral_value(s) == n);
    assert(is_digit(s[0]) && is_digit(s[1]));
    assert(all_digits(s));
}

/// A number of four digits is read as what it is.
pub(crate) proof fn lemma_four_digits(n: nat)
    requires
        n < 10000,
    ensures
        is_number(two_digits(n / 100) + two_digits(n)),
        unsigned_value(two_digits(n / 100) + two_digits(n), u32::MAX as nat) == Some(n),
{
    let s = two_digits(n / 100) + two_digits(n);
    let a = digit_char(n / 100 / 10 % 10);
    let b = digit_char(n / 100 % 10);
    let c = digit_char(n / 10 % 10);
    let d = digit_char(n % 10);
    assert(s == seq![a, b, c, d]);
    assert(s.drop_last() == seq![a, b, c]);
    assert(seq![a, b, c].drop_last() == seq![a, b]);
    assert(seq![a, b].drop_last() == seq![a]);
    assert(seq![a].drop_last() == Seq::<char>::empty());
    reveal_with_fuel(numeral_value, 5);
    assert(numeral_value(s) == n);
    assert(is_digit(s[0]) && is_digit(s[1]) && is_digit(s[2]) && is_digit(s[3]));
    assert(all_digits(s));
}

/// The modification time in a reply on the status of a file, `213` and a time stamp,
/// is the time that is read from it.
#[verifier::spinoff_prover]
#[verifier::rlimit(60)]
pub proof fn law_modification_time(m: Moment)
    requires
        m.year <= 9999,
        m.exists_in_calendar(),
    ensures
        ({
            let s = "213 "@ + time_stamp(m) + "\r\n"@;
            &&& time_fits(time_stamp_groups(s))
            &&& time_result(time_stamp_groups(s)) == Some(m.unix_seconds())
        }),
{
    reveal_strlit("213 ");
    reveal_strlit("\r\n");
    let t = time_stamp(m);
    let s = "213 "@ + t + "\r\n"@;
    let g = stamp_numbers(m);
    lemma_four_digits(m.year);
    lemma_two_digits(m.month);
    lemma_two_digits(m.day);
    lemma_two_digits(m.hour);
    lemma_two_digits(m.minute);
    lemma_two_digits(m.second);
    assert(t =~= s.skip(4).subrange(0, 14));
    assert(time_digits_at(s, 4, g));
    assert(s[3] == ' ' && s[18] == '\r');
    assert(time_stamp_at(s, 4, g));
    let at = |i: int, h: Seq<Seq<char>>| time_stamp_at(s, i, h);
    assert forall|j: int, h: Seq<Seq<char>>| #[trigger] at(j, h) implies 4 <= j by {
        if j < 4 {
            let u = h[0] + h[1] + h[2] + h[3] + h[4] + h[5];
            assert(u[3 - j] == s.skip(j).subrange(0, 14)[3 - j]);
            assert(u[3 - j] == s[3]);
            assert(u[3 - j] == h[0][3 - j]);
            assert(is_number(h[0]));
        }
    }
    assert forall|i: int, a: Seq<Seq<char>>, b: Seq<Seq<char>>| #[trigger]
        at(i, a) && #[trigger] at(i, b) implies a == b by {
        lemma_time_stamp_unique(s, i, a, b);
    }
    lemma_found(at, 4, g);
}

/// Whether `s` holds no line end.
pub open spec fn is_one_line(s: Seq<char>) -> bool {
    forall|i: int| !#[trigger] crlf_at(s, i)
}

/// Lines, each with its line end.
pub open spec fn with_line_ends(lines: Seq<Seq<char>>) -> Seq<char>
    decreases lines.len(),
{
    if lines.len() == 0 {
        Seq::empty()
    } else {
        lines[0] + seq!['\r', '\n'] + with_line_ends(lines.drop_first())
    }
}

/// Pieces, with a line end between any two of them.
pub open spec fn joined(p: Seq<Seq<char>>) -> Seq<char>
    decreases p.len(),
{
    if p.len() == 0 {
        Seq::empty()
    } else if p.len() == 1 {
        p[0]
    } else {
        p[0] + seq!['\r', '\n'] + joined(p.drop_first())
    }
}

/// What stands behind a prefix is searched as it would be alone.
proof fn lemma_next_crlf_behind(a: Seq<char>, b: Seq<char>, i: int)
    requires
        0 <= i <= b.len(),
    ensures
        next_crlf(a + b, a.len() + i) == a.len() + next_crlf(b, i),
    decreases b.len() - i,
{
    let s = a + b;
    if i < b.len() {
        assert(crlf_at(s, a.len() + i) == crlf_at(b, i));
        if !crlf_at(b, i) {
            lemma_next_crlf_behind(a, b, i + 1);
        }
    }
}

/// What stands behind a prefix is cut as it would be alone.
pub(crate) proof fn lemma_pieces_behind(a: Seq<char>, b: Seq<char>, i: int)
    requires
        0 <= i <= b.len(),
    ensures
        pieces_from(a + b, a.len() + i) == pieces_from(b, i),
    decreases b.len() - i,
{
    let s = a + b;
    lemma_next_crlf_behind(a, b, i);
    lemma_next_crlf(b, i);
    let end = next_crlf(b, i);
    if end + 2 > b.len() {
        assert(s.skip(a.len() + i) == b.skip(i));
    } else {
        lemma_pieces_behind(a, b, end + 2);
        assert(s.subrange(a.len() + i, a.len() + end) == b.subrange(i, end));
    }
}

/// A listing of lines is read as those lines: no line is lost, split, joined or
/// reordered.
pub proof fn law_listing(lines: Seq<Seq<char>>)
    requires
        forall|i: int|
            0 <= i < lines.len() ==> (#[trigger] lines[i]).len() > 0 && is_one_line(lines[i]),
    ensures
        listing(with_line_ends(lines)) == lines,
    decreases lines.len(),
{
    let s = with_line_ends(lines);
    if lines.len() == 0 {
        assert(pieces(s) == seq![s.skip(0)]);
        assert(pieces(s).drop_first() == Seq::<Seq<char>>::empty());
        reveal_with_fuel(nonempty, 2);
        assert(lines == Seq::<Seq<char>>::empty());
    } else {
        let line = lines[0];
        let rest = lines.drop_first();
        let prefix = line + seq!['\r', '\n'];
        let tail = with_line_ends(rest);
        let n = line.len() as int;
        assert(s == prefix + tail);
        lemma_next_crlf(s, 0);
        assert(crlf_at(s, n));
        assert forall|k: int| 0 <= k < n implies !crlf_at(s, k) by {
            assert(!crlf_at(line, k));
            assert(s[k] == line[k]);
            if k + 1 < n {
                assert(s[k + 1] == line[k + 1]);
            } else {
                assert(s[k + 1] == '\r');
            }
        }
        assert(next_crlf(s, 0) == n);
        lemma_pieces_behind(prefix, tail, 0);
        assert(s.subrange(0, n) == line);
        assert(pieces(s) == seq![line] + pieces(tail));
        assert(pieces(s).drop_first() == pieces(tail));
        assert forall|i: int| 0 <= i < rest.len() implies (#[trigger] rest[i]).len() > 0
            && is_one_line(rest[i]) by {
            assert(rest[i] == lines[i + 1]);
        }
        law_listing(rest);
        assert(listing(s) == seq![line] + listing(tail));
        assert(lines == seq![line] + rest);
    }
}

/// The pieces of a text from index `i` on hold no line end, and joined by line ends
/// they are the text from there on.
proof fn lemma_pieces(s: Seq<char>, i: int)
    requires
        0 <= i <= s.len(),
    ensures
        pieces_from(s, i).len() > 0,
        forall|k: int|
            0 <= k < pieces_from(s, i).len() ==> is_one_line(#[trigger] pieces_from(s, i)[k]),
        joined(pieces_from(s, i)) == s.skip(i),
    decreases s.len() - i,
{
    lemma_next_crlf(s, i);
    let end = next_crlf(s, i);
    let p = pieces_from(s, i);
    if end + 2 > s.len() {
        let piece = s.skip(i);
        assert forall|k: int| !#[trigger] crlf_at(piece, k) by {
            if crlf_at(piece, k) {
                assert(crlf_at(s, i + k));
            }
        }
        assert(p == seq![piece]);
    } else {
        let piece = s.subrange(i, end);
        let q = pieces_from(s, end + 2);
        lemma_pieces(s, end + 2);
        assert forall|k: int| !#[trigger] crlf_at(piece, k) by {
            if crlf_at(piece, k) {
                assert(crlf_at(s, i + k));
            }
        }
        assert(p == seq![piece] + q);
        assert(p.drop_first() == q);
        assert forall|k: int| 0 <= k < p.len() implies is_one_line(#[trigger] p[k]) by {
            if k > 0 {
                assert(p[k] == q[k - 1]);
            }
        }
        assert(s[end] == '\r' && s[end + 1] == '\n');
        assert(joined(p) == s.skip(i));
    }
}

/// Pieces that are not empty are pieces, and not empty.
proof fn lemma_nonempty(p: Seq<Seq<char>>)
    ensures
        forall|k: int|
            0 <= k < nonempty(p).len() ==> p.contains(#[trigger] nonempty(p)[k]) && nonempty(
                p,
            )[k].len() > 0,
    decreases p.len(),
{
    if p.len() > 0 {
        let q = p.drop_first();
        lemma_nonempty(q);
        assert forall|k: int| 0 <= k < nonempty(p).len() implies p.contains(
            #[trigger] nonempty(p)[k],
        ) && nonempty(p)[k].len() > 0 by {
            let x = nonempty(p)[k];
            if p[0].len() > 0 && k == 0 {
                assert(p[0] == x);
            } else {
                let j = if p[0].len() > 0 {
                    k - 1
                } else {
                    k
                };
                assert(x == nonempty(q)[j]);
                assert(q.contains(x));
                let n = choose|n: int| 0 <= n < q.len() && q[n] == x;
                assert(p[n + 1] == x);
            }
        }
    }
}

/// Whatever text a listing is, none of its lines is empty or holds a line end, and
/// the pieces that they are taken from are all of the text but its line ends.
pub proof fn law_listing_lines(s: Seq<char>)
    ensures
        joined(pieces(s)) == s,
        forall|k: int|
            0 <= k < listing(s).len() ==> (#[trigger] listing(s)[k]).len() > 0 && is_one_line(
                listing(s)[k],
            ) && pieces(s).contains(listing(s)[k]),
{
    lemma_pieces(s, 0);
    lemma_nonempty(pieces(s));
    assert(s.skip(0) == s);
    assert forall|k: int| 0 <= k < listing(s).len() implies is_one_line(
        #[trigger] listing(s)[k],
    ) by {
        let x = listing(s)[k];
        assert(pieces(s).contains(x));
        let n = choose|n: int| 0 <= n < pieces(s).len() && pieces(s)[n] == x;
        assert(is_one_line(pieces(s)[n]));
    }
}

/// Every command that is sent ends with a line end, and holds no other if its verb
/// and its argument hold no character of one.
pub proof fn law_command_is_a_line(verb: Seq<char>, argument: Seq<char>)
    ensures
        crlf_at(bare_command(verb), verb.len() as int),
        bare_command(verb).len() == verb.len() + 2,
        crlf_at(command(verb, argument), verb.len() as int + 1 + argument.len()),
        command(verb, argument).len() == verb.len() + argument.len() + 3,
        !verb.contains('\n') && !argument.contains('\n') ==> forall|i: int| #[trigger]
            crlf_at(command(verb, argument), i) ==> i == verb.len() + 1 + argument.len(),
{
    reveal_strlit("\r\n");
    reveal_strlit(" ");
    let c = command(verb, argument);
    if !verb.contains('\n') && !argument.contains('\n') {
        assert forall|i: int| #[trigger] crlf_at(c, i) implies i == verb.len() + 1
            + argument.len() by {
            let n = verb.len() as int;
            if i + 1 < n {
                assert(c[i + 1] == verb[i + 1]);
                assert(verb.contains(verb[i + 1]));
            } else if n < i + 1 < n + 1 + argument.len() {
                assert(c[i + 1] == argument[i - n]);
                assert(argument.contains(argument[i - n]));
            }
        }
    }
}

/// The first `k` characters of a text, where they are ASCII ones, are its first `k`
/// bytes, and no character lies across the end of them.
pub(crate) proof fn lemma_ascii_prefix(s: Seq<char>, k: int)
    requires
        0 <= k <= s.len(),
        forall|i: int| 0 <= i < k ==> '\0' <= #[trigger] s[i] <= '\u{7f}',
    ensures
        encode_utf8(s).len() >= s.len(),
        is_char_boundary(encode_utf8(s), k),
        forall|i: int| 0 <= i < k ==> #[trigger] encode_utf8(s)[i] == s[i] as u8,
    decreases s.len(),
{
    let b = encode_utf8(s);
    encode_utf8_valid_utf8(s);
    if s.len() > 0 {
        let t = s.drop_first();
        let rest = encode_utf8(t);
        let c = s[0] as u32;
        lemma_ascii_prefix(
            t,
            if k > 0 {
                k - 1
            } else {
                0
            },
        );
        assert(b == encode_scalar(c) + rest);
        assert(encode_scalar(c).len() >= 1);
        if k > 0 {
            assert(c as u8 == leading_byte_width_1(c)) by (bit_vector)
                requires
                    c <= 0x7f,
            ;
            encode_utf8_first_scalar(s);
            assert(pop_first_scalar(b) == rest);
            assert forall|i: int| 0 <= i < k implies #[trigger] b[i] == s[i] as u8 by {
                if i > 0 {
                    assert(b[i] == rest[i - 1]);
                    assert(t[i - 1] == s[i]);
                }
            }
        }
    }
}

/// The three digits of a reply code.
pub open spec fn three_digits(code: u32) -> Seq<char> {
    seq![
        digit_char((code / 100) as nat),
        digit_char((code / 10 % 10) as nat),
        digit_char((code % 10) as nat),
    ]
}

/// The bytes that a line begins with which begins with a code and one more ASCII
/// character.
proof fn lemma_code(code: u32, c: char, text: Seq<char>)
    requires
        code < 1000,
        c <= '\u{7f}',
        text.len() > 0,
    ensures
        ({
            let line = three_digits(code) + seq![c] + text;
            let b = encode_utf8(line);
            &&& b.len() >= 5
            &&& b[0] == 48 + code / 100
            &&& b[1] == 48 + code / 10 % 10
            &&& b[2] == 48 + code % 10
            &&& b[3] == c as u8
            &&& is_char_boundary(b, 3)
            &&& is_char_boundary(b, 4)
            &&& code_value(b[0], b[1], b[2]) == Some(code)
            &&& ends_reply(head_of(line, code), line) == (c == ' ')
        }),
{
    let line = three_digits(code) + seq![c] + text;
    assert(line[0] == three_digits(code)[0]);
    assert(line[1] == three_digits(code)[1]);
    assert(line[2] == three_digits(code)[2]);
    assert(line[3] == c);
    lemma_ascii_prefix(line, 3);
    lemma_ascii_prefix(line, 4);
    let b = encode_utf8(line);
    assert(b[0] == line[0] as u8 && b[1] == line[1] as u8 && b[2] == line[2] as u8);
    assert(b[3] == c as u8);
}

/// A line of a code, a space and some text is a reply with that code.
pub proof fn law_one_line_reply(code: u32, text: Seq<char>)
    requires
        code < 1000,
        text.len() > 0,
    ensures
        is_reply(seq![three_digits(code) + seq![' '] + text], code),
{
    lemma_code(code, ' ', text);
}

/// Whether a line may stand between the first and the last line of a reply with
/// the code `code`: its first four characters are ASCII ones, and it does not begin
/// with the code, a space and more.
pub open spec fn is_inner_line(code: u32, line: Seq<char>) -> bool {
    &&& forall|i: int| 0 <= i < 4 && i < line.len() ==> '\0' <= #[trigger] line[i] <= '\u{7f}'
    &&& line.len() >= 5 ==> line.take(4) != three_digits(code) + seq![' ']
}

/// An inner line neither ends the reply nor is cut inside a character.
proof fn lemma_inner_line(code: u32, head: Head, line: Seq<char>)
    requires
        code < 1000,
        is_inner_line(code, line),
        head.b1 == 48 + code / 100,
        head.b2 == 48 + code / 10 % 10,
        head.b3 == 48 + code % 10,
    ensures
        !ends_reply(head, line),
        is_cuttable(Some(head), line),
{
    let b = encode_utf8(line);
    if line.len() < 5 {
        assert(is_ascii_chars(line));
        is_ascii_chars_encode_utf8(line);
    } else {
        lemma_ascii_prefix(line, 4);
        if ends_reply(head, line) {
            assert(b[0] == line[0] as u8 && b[1] == line[1] as u8);
            assert(b[2] == line[2] as u8 && b[3] == line[3] as u8);
            assert(line.take(4) == three_digits(code) + seq![' ']);
        }
    }
}

/// A reply of several lines: the code, a hyphen and some text; any lines that do not
/// begin with the code and a space; and the code, a space and some text. All of them
/// are one reply with that code.
#[verifier::spinoff_prover]
#[verifier::rlimit(60)]
pub proof fn law_many_line_reply(
    code: u32,
    first: Seq<char>,
    inner: Seq<Seq<char>>,
    last: Seq<char>,
)
    requires
        code < 1000,
        first.len() > 0,
        last.len() > 0,
        forall|i: int| 0 <= i < inner.len() ==> is_inner_line(code, #[trigger] inner[i]),
    ensures
        is_reply(
            seq![three_digits(code) + seq!['-'] + first] + inner + seq![
                three_digits(code) + seq![' '] + last,
            ],
            code,
        ),
{
    let begin = three_digits(code) + seq!['-'] + first;
    let end = three_digits(code) + seq![' '] + last;
    let lines = seq![begin] + inner + seq![end];
    lemma_code(code, '-', first);
    lemma_code(code, ' ', last);
    let head = head_of(begin, code);
    assert forall|i: int| 0 <= i < lines.len() - 1 implies !ends_reply(
        head,
        #[trigger] lines[i],
    ) by {
        if i > 0 {
            assert(lines[i] == inner[i - 1]);
            lemma_inner_line(code, head, lines[i]);
        }
    }
    assert forall|i: int| 0 < i < lines.len() implies is_cuttable(
        Some(head),
        #[trigger] lines[i],
    ) by {
        if i < lines.len() - 1 {
            assert(lines[i] == inner[i - 1]);
            lemma_inner_line(code, head, lines[i]);
        }
    }
    assert(lines.last() == end);
}

/// The size of a file is what the server says: asked for it, the server answers
/// `213` and the size, and that number is the outcome.
#[verifier::spinoff_prover]
#[verifier::rlimit(60)]
pub proof fn law_size_answer(pathname: Seq<char>, n: nat)
    requires
        n <= usize::MAX,
    ensures
        run(
            file_steps(command("SIZE"@, pathname), Reading::FileSize),
            sent_and_read(seq!["213 "@ + decimal(n) + "\r\n"@]),
        ) == Some(ProgressView::Done(Ok(OutcomeView::FileSize(Some(n))))),
{
    reveal_strlit("213 ");
    reveal_strlit("\r\n");
    let line = "213 "@ + decimal(n) + "\r\n"@;
    law_size(n);
    law_one_line_reply(213, decimal(n) + "\r\n"@);
    assert(three_digits(213) + seq![' '] + (decimal(n) + "\r\n"@) == line);
    law_file(command("SIZE"@, pathname), Reading::FileSize, seq![line], 213);
}

/// The modification time of a file is what the server says: asked for it, the server
/// answers `213` and a time stamp, and that time is the outcome.
#[verifier::spinoff_prover]
#[verifier::rlimit(60)]
pub proof fn law_modification_time_answer(pathname: Seq<char>, m: Moment)
    requires
        m.year <= 9999,
        m.exists_in_calendar(),
    ensures
        run(
            file_steps(command("MDTM"@, pathname), Reading::ModificationTime),
            sent_and_read(seq!["213 "@ + time_stamp(m) + "\r\n"@]),
        ) == Some(ProgressView::Done(Ok(OutcomeView::ModificationTime(Some(m.unix_seconds()))))),
{
    reveal_strlit("213 ");
    reveal_strlit("\r\n");
    let line = "213 "@ + time_stamp(m) + "\r\n"@;
    law_modification_time(m);
    law_one_line_reply(213, time_stamp(m) + "\r\n"@);
    assert(three_digits(213) + seq![' '] + (time_stamp(m) + "\r\n"@) == line);
    law_file(command("MDTM"@, pathname), Reading::ModificationTime, seq![line], 213);
}

/// The current directory is what the server says: asked for it, the server answers
/// `257` and a path in quotation marks, and that path is the outcome, whatever it
/// holds.
#[verifier::spinoff_prover]
#[verifier::rlimit(60)]
pub proof fn law_directory_answer(path: Seq<char>, behind: Seq<char>)
    requires
        !behind.contains('"'),
    ensures
        run(
            ask(bare_command("PWD"@), seq![status::PATH_CREATED]).push(
                StepView::Read(Reading::Directory),
            ),
            sent_and_read(seq!["257 \""@ + path + "\""@ + behind]),
        ) == Some(ProgressView::Done(Ok(OutcomeView::Directory(path)))),
{
    reveal_strlit("257 \"");
    reveal_strlit("\"");
    let line = "257 \""@ + path + "\""@ + behind;
    let before = three_digits(257) + seq![' '];
    let rest = seq!['"'] + path + seq!['"'] + behind;
    assert(before + seq!['"'] + path + seq!['"'] + behind == line);
    assert(before + rest == line);
    law_directory(before, path, behind);
    law_one_line_reply(257, rest);
    law_pwd(seq![line], 257);
}

/// The address that a server announces is the one that is called: a reply `227` with
/// the address in brackets, before which no other bracket opens, announces it.
#[verifier::spinoff_prover]
#[verifier::rlimit(60)]
pub proof fn law_announced(before: Seq<char>, address: SocketAddress, behind: Seq<char>)
    requires
        !before.contains('('),
    ensures
        announces(
            seq!["227 "@ + before + passive_text(address_numbers(address)) + behind],
            address,
        ),
{
    reveal_strlit("227 ");
    let t = passive_text(address_numbers(address));
    let line = "227 "@ + before + t + behind;
    let code = three_digits(227) + seq![' '];
    assert(code == "227 "@);
    assert forall|i: int| 0 <= i < (code + before).len() implies (code + before)[i] != '(' by {
        if i >= 4 {
            assert(before.contains(before[i - 4]));
        }
    }
    law_passive_address(code + before, address, behind);
    assert(t[0] == '(');
    law_one_line_reply(227, before + t + behind);
    assert(code + (before + t + behind) == line);
}

} // verus!

//! What holds of the texts that are sent, and of numerals, character by character.

use vstd::prelude::*;

use crate::answer_laws::lemma_pieces_behind;
use crate::answers::{crlf_at, lemma_next_crlf, listing, next_crlf, nonempty, pieces, pieces_from};
use crate::ftp::{bare_command, command, command_on};
use crate::reply::{joined_codes, unexpected};
use crate::text::{
    all_digits, decimal, is_digit, lemma_decimal, numeral_value, unsigned_digits, unsigned_value,
};
use crate::types::{ErrorView, FileType, FormatControl, SocketAddress};

verus! {

/// A command line with an argument is the verb, one space, the argument unchanged,
/// and `\r\n`: every character of both is where it belongs, and there is no other.
pub proof fn law_command_text(verb: Seq<char>, argument: Seq<char>)
    ensures
        ({
            let line = command(verb, argument);
            let n = verb.len() as int;
            let end = n + 1 + argument.len();
            &&& line.len() == end + 2
            &&& forall|i: int| 0 <= i < n ==> #[trigger] line[i] == verb[i]
            &&& line[n] == ' '
            &&& forall|i: int| 0 <= i < argument.len() ==> #[trigger] argument[i] == line[n + 1 + i]
            &&& line[end] == '\r'
            &&& line[end + 1] == '\n'
        }),
{
    reveal_strlit(" ");
    reveal_strlit("\r\n");
}

/// A command line without an argument is the verb and `\r\n`.
pub proof fn law_bare_command_text(verb: Seq<char>)
    ensures
        ({
            let line = bare_command(verb);
            let n = verb.len() as int;
            &&& line.len() == n + 2
            &&& forall|i: int| 0 <= i < n ==> #[trigger] line[i] == verb[i]
            &&& line[n] == '\r'
            &&& line[n + 1] == '\n'
        }),
{
    reveal_strlit("\r\n");
}

/// A command of which the argument may be missing has the argument, unchanged, if
/// there is one, and nothing in its place if there is none.
pub proof fn law_optional_argument_text(verb: Seq<char>, argument: Seq<char>)
    ensures
        command_on(verb, Some(argument)) == verb + seq![' '] + argument + seq!['\r', '\n'],
        command_on(verb, None) == verb + seq!['\r', '\n'],
{
    reveal_strlit(" ");
    reveal_strlit("\r\n");
    assert(command_on(verb, Some(argument)) =~= verb + seq![' '] + argument + seq!['\r', '\n']);
    assert(command_on(verb, None) =~= verb + seq!['\r', '\n']);
}

/// Commands with different arguments are different, and so are those with the same
/// argument and different verbs.
pub proof fn law_command_tells_its_parts(
    verb: Seq<char>,
    a: Seq<char>,
    other: Seq<char>,
    b: Seq<char>,
)
    requires
        command(verb, a) == command(other, b),
        verb.len() == other.len(),
    ensures
        verb == other,
        a == b,
{
    law_command_text(verb, a);
    law_command_text(other, b);
    let line = command(verb, a);
    assert forall|i: int| 0 <= i < verb.len() implies verb[i] == other[i] by {
        assert(line[i] == verb[i]);
    }
    assert(verb =~= other);
    assert(a =~= b);
}

/// The decimal numeral of a number is written in the ten digits, has no leading zero,
/// ends with the last digit of the number, and before that is the numeral of a tenth
/// of it.
pub proof fn law_decimal(n: nat)
    ensures
        ({
            let s = decimal(n);
            &&& s.len() > 0
            &&& forall|i: int| 0 <= i < s.len() ==> '0' <= #[trigger] s[i] <= '9'
            &&& s.len() > 1 ==> s[0] != '0'
            &&& s.last() as int == 48 + n % 10
            &&& n < 10 <==> s.len() == 1
            &&& n >= 10 ==> s.drop_last() == decimal(n / 10)
        }),
    decreases n,
{
    lemma_decimal(n);
    let s = decimal(n);
    assert forall|i: int| 0 <= i < s.len() implies '0' <= #[trigger] s[i] <= '9' by {
        assert(is_digit(s[i]));
    }
    if n >= 10 {
        let t = decimal(n / 10);
        law_decimal(n / 10);
        assert(s.drop_last() == t);
        assert(s[0] == t[0]);
        if t.len() == 1 {
            assert(t[0] == t.last());
            assert(n / 10 % 10 == n / 10);
        }
    }
}

/// The value of a numeral, digit by digit.
pub proof fn law_numeral_value(s: Seq<char>, c: char)
    requires
        '0' <= c <= '9',
    ensures
        numeral_value(Seq::empty()) == 0,
        numeral_value(s.push(c)) == 10 * numeral_value(s) + (c as int - 48),
{
    assert(s.push(c).drop_last() == s);
}

/// A number is read from its decimal numeral if it is no greater than the limit, and
/// not otherwise.
pub proof fn law_number_within_limit(n: nat, max: nat)
    ensures
        unsigned_value(decimal(n), max) == if n <= max {
            Some(n)
        } else {
            None
        },
{
    lemma_decimal(n);
    law_decimal(n);
    assert(decimal(n)[0] != '+');
    assert(unsigned_digits(decimal(n)) == decimal(n));
}

/// A numeral behind a zero is worth what it is worth alone.
proof fn lemma_leading_zero(s: Seq<char>)
    requires
        forall|i: int| 0 <= i < s.len() ==> '0' <= #[trigger] s[i] <= '9',
    ensures
        numeral_value(seq!['0'] + s) == numeral_value(s),
    decreases s.len(),
{
    let z = seq!['0'] + s;
    if s.len() == 0 {
        assert(z == Seq::<char>::empty().push('0'));
        law_numeral_value(Seq::empty(), '0');
    } else {
        let t = s.drop_last();
        assert forall|i: int| 0 <= i < t.len() implies '0' <= #[trigger] t[i] <= '9' by {
            assert(t[i] == s[i]);
        }
        lemma_leading_zero(t);
        assert(z == (seq!['0'] + t).push(s.last()));
        assert(s == t.push(s.last()));
        law_numeral_value(seq!['0'] + t, s.last());
        law_numeral_value(t, s.last());
    }
}

/// Leading zeros, or one plus sign, do not change what digits spell.
pub proof fn law_leading_zeros(s: Seq<char>, max: nat)
    requires
        s.len() > 0,
        forall|i: int| 0 <= i < s.len() ==> '0' <= #[trigger] s[i] <= '9',
    ensures
        unsigned_value(seq!['0'] + s, max) == unsigned_value(s, max),
        unsigned_value(seq!['+'] + s, max) == unsigned_value(s, max),
{
    lemma_leading_zero(s);
    let z = seq!['0'] + s;
    let p = seq!['+'] + s;
    assert(s[0] != '+');
    assert(z[0] == '0');
    assert(p[0] == '+');
    assert(p.drop_first() == s);
    assert forall|i: int| 0 <= i < z.len() implies is_digit(#[trigger] z[i]) by {
        if i > 0 {
            assert(z[i] == s[i - 1]);
        }
    }
    assert(all_digits(z));
    assert(all_digits(s));
}

/// What is spelled with any other character is no number, and neither is the empty
/// text or a plus sign alone.
pub proof fn law_no_number(s: Seq<char>, i: int, max: nat)
    requires
        0 <= i < s.len(),
        !('0' <= s[i] <= '9'),
        i == 0 ==> s[i] != '+',
    ensures
        unsigned_value(s, max) is None,
        unsigned_value(Seq::empty(), max) is None,
        unsigned_value(seq!['+'], max) is None,
{
    let d = unsigned_digits(s);
    if s[0] == '+' {
        assert(d[i - 1] == s[i]);
        assert(!is_digit(d[i - 1]));
    } else {
        assert(!is_digit(d[i]));
    }
    assert(seq!['+'].drop_first().len() == 0);
}

/// Two numerals that stand before the same separator at the beginning of one text
/// are the same, and so is what stands behind it.
proof fn lemma_separated(
    a: Seq<char>,
    x: Seq<char>,
    b: Seq<char>,
    y: Seq<char>,
    separator: char,
)
    requires
        a + seq![separator] + x == b + seq![separator] + y,
        !('0' <= separator <= '9'),
        forall|i: int| 0 <= i < a.len() ==> '0' <= #[trigger] a[i] <= '9',
        forall|i: int| 0 <= i < b.len() ==> '0' <= #[trigger] b[i] <= '9',
    ensures
        a == b,
        x == y,
{
    let s = a + seq![separator] + x;
    let t = b + seq![separator] + y;
    if a.len() < b.len() {
        assert(s[a.len() as int] == separator);
        assert(t[a.len() as int] == b[a.len() as int]);
    } else if b.len() < a.len() {
        assert(t[b.len() as int] == separator);
        assert(s[b.len() as int] == a[b.len() as int]);
    }
    assert forall|i: int| 0 <= i < a.len() implies a[i] == b[i] by {
        assert(s[i] == a[i] && t[i] == b[i]);
    }
    assert(a =~= b);
    let n = a.len() as int + 1;
    assert(s.skip(n) =~= x);
    assert(t.skip(n) =~= y);
}

/// Whether `s` consists of ASCII digits.
pub open spec fn is_in_digits(s: Seq<char>) -> bool {
    forall|i: int| 0 <= i < s.len() ==> '0' <= #[trigger] s[i] <= '9'
}

/// Five texts with separators between them, from the first on and from the last on.
#[verifier::spinoff_prover]
proof fn lemma_regrouped(
    n1: Seq<char>,
    n2: Seq<char>,
    n3: Seq<char>,
    n4: Seq<char>,
    n5: Seq<char>,
    dot: Seq<char>,
    colon: Seq<char>,
)
    ensures
        n1 + dot + n2 + dot + n3 + dot + n4 + colon + n5 == n1 + dot + (n2 + dot + (n3 + dot + (n4
            + colon + n5))),
{
    let a = n1 + dot;
    let b = n2 + dot;
    let c = n3 + dot;
    let d = n4 + colon;
    assert(a + n2 + dot =~= a + b);
    assert(a + b + n3 + dot =~= a + b + c);
    assert(a + b + c + n4 + colon =~= a + b + c + d);
    assert(a + b + c + d + n5 =~= a + b + c + (d + n5));
    assert(a + b + c + (d + n5) =~= a + b + (c + (d + n5)));
    assert(a + b + (c + (d + n5)) =~= a + (b + (c + (d + n5))));
}

/// The spelling of an address can be read back: whatever five numerals are found in it,
/// separated by three dots and a colon, their values are the four numbers of the host
/// and the port, in that order.
#[verifier::spinoff_prover]
#[verifier::rlimit(60)]
pub proof fn law_address_is_read_back(
    address: SocketAddress,
    d1: Seq<char>,
    d2: Seq<char>,
    d3: Seq<char>,
    d4: Seq<char>,
    d5: Seq<char>,
)
    requires
        is_in_digits(d1),
        is_in_digits(d2),
        is_in_digits(d3),
        is_in_digits(d4),
        is_in_digits(d5),
        address.spelling() == d1 + seq!['.'] + d2 + seq!['.'] + d3 + seq!['.'] + d4 + seq![':']
            + d5,
    ensures
        numeral_value(d1) == address.h1,
        numeral_value(d2) == address.h2,
        numeral_value(d3) == address.h3,
        numeral_value(d4) == address.h4,
        numeral_value(d5) == address.port,
{
    reveal_strlit(".");
    reveal_strlit(":");
    let n1 = decimal(address.h1 as nat);
    let n2 = decimal(address.h2 as nat);
    let n3 = decimal(address.h3 as nat);
    let n4 = decimal(address.h4 as nat);
    let n5 = decimal(address.port as nat);
    law_decimal(address.h1 as nat);
    law_decimal(address.h2 as nat);
    law_decimal(address.h3 as nat);
    law_decimal(address.h4 as nat);
    lemma_decimal(address.h1 as nat);
    lemma_decimal(address.h2 as nat);
    lemma_decimal(address.h3 as nat);
    lemma_decimal(address.h4 as nat);
    lemma_decimal(address.port as nat);
    let x4 = n5;
    let y4 = d5;
    let x3 = n4 + seq![':'] + x4;
    let y3 = d4 + seq![':'] + y4;
    let x2 = n3 + seq!['.'] + x3;
    let y2 = d3 + seq!['.'] + y3;
    let x1 = n2 + seq!['.'] + x2;
    let y1 = d2 + seq!['.'] + y2;
    assert("."@ =~= seq!['.']);
    assert(":"@ =~= seq![':']);
    lemma_regrouped(n1, n2, n3, n4, n5, seq!['.'], seq![':']);
    lemma_regrouped(d1, d2, d3, d4, d5, seq!['.'], seq![':']);
    assert(address.spelling() == n1 + seq!['.'] + x1);
    assert(address.spelling() == d1 + seq!['.'] + y1);
    lemma_separated(n1, x1, d1, y1, '.');
    lemma_separated(n2, x2, d2, y2, '.');
    lemma_separated(n3, x3, d3, y3, '.');
    lemma_separated(n4, x4, d4, y4, ':');
}

/// Five numerals without leading zeros, three dots and a colon are what an address is
/// spelled with.
pub proof fn law_address_has_its_parts(address: SocketAddress)
    ensures
        address.spelling() == decimal(address.h1 as nat) + seq!['.'] + decimal(address.h2 as nat)
            + seq!['.'] + decimal(address.h3 as nat) + seq!['.'] + decimal(address.h4 as nat)
            + seq![':'] + decimal(address.port as nat),
        is_in_digits(decimal(address.h1 as nat)),
        is_in_digits(decimal(address.h2 as nat)),
        is_in_digits(decimal(address.h3 as nat)),
        is_in_digits(decimal(address.h4 as nat)),
        is_in_digits(decimal(address.port as nat)),
{
    reveal_strlit(".");
    reveal_strlit(":");
    assert("."@ =~= seq!['.']);
    assert(":"@ =~= seq![':']);
    law_decimal(address.h1 as nat);
    law_decimal(address.h2 as nat);
    law_decimal(address.h3 as nat);
    law_decimal(address.h4 as nat);
    law_decimal(address.port as nat);
}

/// Two addresses that are spelled alike are the same address.
pub proof fn law_addresses_are_told_apart(a: SocketAddress, b: SocketAddress)
    requires
        a.spelling() == b.spelling(),
    ensures
        a == b,
{
    law_address_has_its_parts(b);
    law_address_has_its_parts(a);
    let (d1, d2, d3, d4, d5) = (
        decimal(b.h1 as nat),
        decimal(b.h2 as nat),
        decimal(b.h3 as nat),
        decimal(b.h4 as nat),
        decimal(b.port as nat),
    );
    law_address_is_read_back(a, d1, d2, d3, d4, d5);
    law_address_is_read_back(b, d1, d2, d3, d4, d5);
}

/// The letters of the formats: `N` for no vertical format, which is also the default,
/// `T` for Telnet and `C` for carriage control.
pub proof fn law_format_letter(format: FormatControl)
    ensures
        format.letter() == match format {
            FormatControl::Default => seq!['N'],
            FormatControl::NonPrint => seq!['N'],
            FormatControl::Telnet => seq!['T'],
            FormatControl::Asa => seq!['C'],
        },
{
    reveal_strlit("N");
    reveal_strlit("T");
    reveal_strlit("C");
    assert(format.letter() =~= match format {
        FormatControl::Default => seq!['N'],
        FormatControl::NonPrint => seq!['N'],
        FormatControl::Telnet => seq!['T'],
        FormatControl::Asa => seq!['C'],
    });
}

/// Formats have the same letter only if they are the same, or one is the default and
/// the other is what the default stands for.
pub proof fn law_formats_are_told_apart(a: FormatControl, b: FormatControl)
    requires
        a.letter() == b.letter(),
    ensures
        a == b || {
            &&& a is Default || a is NonPrint
            &&& b is Default || b is NonPrint
        },
{
    law_format_letter(a);
    law_format_letter(b);
    let (n, t, c) = (seq!['N'], seq!['T'], seq!['C']);
    assert(n[0] == 'N' && t[0] == 'T' && c[0] == 'C');
    assert(n != t && n != c && t != c);
}

/// The argument of `TYPE`: a letter for the type, and for a text a space and the letter
/// of its format, for bytes of a given size a space and that size.
pub proof fn law_file_type_argument(file_type: FileType)
    ensures
        match file_type {
            FileType::Ascii(format) => {
                &&& file_type.argument().len() == 3
                &&& file_type.argument()[0] == 'A'
                &&& file_type.argument()[1] == ' '
                &&& file_type.argument()[2] == match format {
                    FormatControl::Default => 'N',
                    FormatControl::NonPrint => 'N',
                    FormatControl::Telnet => 'T',
                    FormatControl::Asa => 'C',
                }
            },
            FileType::Ebcdic(format) => {
                &&& file_type.argument().len() == 3
                &&& file_type.argument()[0] == 'E'
                &&& file_type.argument()[1] == ' '
                &&& file_type.argument()[2] == match format {
                    FormatControl::Default => 'N',
                    FormatControl::NonPrint => 'N',
                    FormatControl::Telnet => 'T',
                    FormatControl::Asa => 'C',
                }
            },
            FileType::Image => file_type.argument() == seq!['I'],
            FileType::Binary => file_type.argument() == seq!['I'],
            FileType::Local(bits) => {
                &&& file_type.argument()[0] == 'L'
                &&& file_type.argument()[1] == ' '
                &&& file_type.argument().skip(2) == decimal(bits as nat)
            },
        },
{
    reveal_strlit("A ");
    reveal_strlit("E ");
    reveal_strlit("I");
    reveal_strlit("L ");
    match file_type {
        FileType::Ascii(format) => law_format_letter(format),
        FileType::Ebcdic(format) => law_format_letter(format),
        FileType::Local(bits) => {
            law_decimal(bits as nat);
            assert(file_type.argument().skip(2) =~= decimal(bits as nat));
        },
        _ => {
            assert(file_type.argument() =~= seq!['I']);
        },
    }
}

/// The error for a reply with an unexpected code lists the expected codes, in their
/// order, as numerals with a comma and a space between them, and ends with the reply.
#[verifier::spinoff_prover]
#[verifier::rlimit(60)]
pub proof fn law_unexpected_text(codes: Seq<u32>, code: u32, line: Seq<char>)
    ensures
        unexpected(Seq::empty(), line) == ErrorView::InvalidResponse(
            "Expected code [], got response: "@ + line,
        ),
        unexpected(seq![code], line) == ErrorView::InvalidResponse(
            "Expected code ["@ + decimal(code as nat) + "], got response: "@ + line,
        ),
        codes.len() > 0 ==> forall|listed: Seq<char>|
            unexpected(codes, line) == ErrorView::InvalidResponse(
                #[trigger] ("Expected code ["@ + listed + "], got response: "@ + line),
            ) ==> unexpected(codes.push(code), line) == ErrorView::InvalidResponse(
                "Expected code ["@ + (listed + seq![',', ' '] + decimal(code as nat))
                    + "], got response: "@ + line,
            ),
{
    reveal_strlit("Expected code [], got response: ");
    reveal_strlit("Expected code [");
    reveal_strlit("], got response: ");
    reveal_strlit(", ");
    let none = Seq::<u32>::empty();
    let b = "Expected code ["@;
    let e = "], got response: "@;
    assert(joined_codes(none) == Seq::<char>::empty());
    assert(b + Seq::<char>::empty() + e + line =~= "Expected code [], got response: "@ + line);
    if codes.len() > 0 {
        let joined = joined_codes(codes);
        assert(codes.push(code).drop_last() == codes);
        let longer = joined_codes(codes.push(code));
        assert(longer =~= joined + seq![',', ' '] + decimal(code as nat));
        assert forall|listed: Seq<char>|
            unexpected(codes, line) == ErrorView::InvalidResponse(
                #[trigger] (b + listed + e + line),
            ) implies unexpected(codes.push(code), line) == ErrorView::InvalidResponse(
            b + (listed + seq![',', ' '] + decimal(code as nat)) + e + line,
        ) by {
            let s = b + joined + e + line;
            assert(s == b + listed + e + line);
            assert(s.len() == (b + listed + e + line).len());
            assert(joined =~= s.subrange(b.len() as int, b.len() as int + joined.len()));
            assert(listed =~= s.subrange(b.len() as int, b.len() as int + listed.len()));
        }
    }
}

/// The pieces of two texts with a line end between them are the pieces of the one and
/// then those of the other.
proof fn lemma_pieces_of_two(a: Seq<char>, b: Seq<char>, i: int)
    requires
        0 <= i <= a.len(),
    ensures
        pieces_from(a + seq!['\r', '\n'] + b, i) == pieces_from(a, i) + pieces(b),
    decreases a.len() - i,
{
    let prefix = a + seq!['\r', '\n'];
    let s = prefix + b;
    let n = a.len() as int;
    lemma_next_crlf(s, i);
    lemma_next_crlf(a, i);
    let end = next_crlf(a, i);
    assert(crlf_at(s, n));
    assert forall|k: int| 0 <= k < n implies crlf_at(s, k) == crlf_at(a, k) by {
        assert(s[k] == a[k]);
        if k + 1 < n {
            assert(s[k + 1] == a[k + 1]);
        } else {
            assert(s[k + 1] == '\r');
        }
    }
    if end < n {
        assert(crlf_at(a, end));
        assert(crlf_at(s, end));
        assert(next_crlf(s, i) == end);
        lemma_pieces_of_two(a, b, end + 2);
        assert(s.subrange(i, end) =~= a.subrange(i, end));
        assert(pieces_from(s, i) =~= pieces_from(a, i) + pieces(b));
    } else {
        assert(next_crlf(s, i) == n) by {
            let m = next_crlf(s, i);
            if m < n {
                assert(crlf_at(s, m));
                assert(crlf_at(a, m));
            }
        }
        lemma_pieces_behind(prefix, b, 0);
        assert(s.subrange(i, n) =~= a.skip(i));
        assert(pieces_from(a, i) =~= seq![a.skip(i)]);
        assert(pieces_from(s, i) =~= pieces_from(a, i) + pieces(b));
    }
}

/// The pieces that are not empty, of two lists of pieces.
proof fn lemma_nonempty_of_two(p: Seq<Seq<char>>, q: Seq<Seq<char>>)
    ensures
        nonempty(p + q) == nonempty(p) + nonempty(q),
    decreases p.len(),
{
    if p.len() == 0 {
        assert(p + q =~= q);
        assert(nonempty(p) + nonempty(q) =~= nonempty(q));
    } else {
        assert((p + q).drop_first() =~= p.drop_first() + q);
        assert((p + q)[0] == p[0]);
        lemma_nonempty_of_two(p.drop_first(), q);
        assert(nonempty(p + q) =~= nonempty(p) + nonempty(q));
    }
}

/// The listing of any two texts with a line end between them is the listing of the one
/// and then that of the other.
pub proof fn law_listing_of_two(a: Seq<char>, b: Seq<char>)
    ensures
        listing(a + seq!['\r', '\n'] + b) == listing(a) + listing(b),
{
    lemma_pieces_of_two(a, b, 0);
    lemma_nonempty_of_two(pieces(a), pieces(b));
}

/// A text without a line end is one line, whatever else it holds, and no line if it is
/// empty.
pub proof fn law_listing_of_one(s: Seq<char>)
    requires
        forall|i: int| 0 <= i < s.len() - 1 && #[trigger] s[i] == '\r' ==> s[i + 1] != '\n',
    ensures
        listing(s) == if s.len() == 0 {
            Seq::<Seq<char>>::empty()
        } else {
            seq![s]
        },
{
    lemma_next_crlf(s, 0);
    let end = next_crlf(s, 0);
    if end < s.len() {
        assert(crlf_at(s, end));
        assert(s[end] == '\r');
    }
    assert(s.skip(0) =~= s);
    assert(pieces(s) =~= seq![s]);
    assert(pieces(s).drop_first() =~= Seq::<Seq<char>>::empty());
    reveal_with_fuel(nonempty, 2);
    if s.len() > 0 {
        assert(nonempty(pieces(s)) =~= seq![s]);
    }
}

} // verus!

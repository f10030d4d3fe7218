//! What holds of the lines of a reply, character by character.

use vstd::prelude::*;
use vstd::utf8::{
    char_u32_cast, encode_scalar, encode_utf8, encode_utf8_first_scalar, is_char_boundary,
    leading_byte_width_1, leading_byte_width_2, leading_byte_width_3, leading_byte_width_4,
};

use crate::answer_laws::lemma_ascii_prefix;
use crate::exchange::{proceed, ActionView, AwaitedView, EventView, ExchangeView, ProgressView};
use crate::laws::is_reply;
use crate::reply::{code_value, unexpected, Head};
use crate::types::{ErrorView, LineView};

verus! {

/// The number that three characters spell that are digits, or of which the first is a
/// plus sign.
pub open spec fn number_of_three(d1: char, d2: char, d3: char) -> int {
    (if d1 == '+' {
        0
    } else {
        100 * (d1 as int - 48)
    }) + 10 * (d2 as int - 48) + (d3 as int - 48)
}

/// Whether three characters are digits, or a plus sign and two digits.
pub open spec fn is_three(d1: char, d2: char, d3: char) -> bool {
    &&& '0' <= d1 <= '9' || d1 == '+'
    &&& '0' <= d2 <= '9'
    &&& '0' <= d3 <= '9'
}

/// The bytes of a line that begins with a code and one more ASCII character.
proof fn lemma_begin(d1: char, d2: char, d3: char, c: char, text: Seq<char>)
    requires
        is_three(d1, d2, d3),
        c <= '\u{7f}',
        text.len() > 0,
    ensures
        ({
            let b = encode_utf8(seq![d1, d2, d3, c] + text);
            &&& b.len() >= 5
            &&& b[0] == d1 as u8 && b[1] == d2 as u8 && b[2] == d3 as u8 && b[3] == c as u8
            &&& is_char_boundary(b, 3)
            &&& is_char_boundary(b, 4)
            &&& code_value(b[0], b[1], b[2]) is Some
            &&& code_value(b[0], b[1], b[2])->0 == number_of_three(d1, d2, d3)
        }),
{
    let line = seq![d1, d2, d3, c] + text;
    assert(line[0] == d1 && line[1] == d2 && line[2] == d3 && line[3] == c);
    lemma_ascii_prefix(line, 3);
    lemma_ascii_prefix(line, 4);
    let b = encode_utf8(line);
    assert(b[0] == line[0] as u8 && b[1] == line[1] as u8);
    assert(b[2] == line[2] as u8 && b[3] == line[3] as u8);
}

/// A line of three digits, a space and some text is a whole reply. If the number that the
/// digits spell is expected, the exchange goes on with that number and with the line as it
/// is; if not, it ends with the error for that line.
pub proof fn law_line_is_a_reply(
    x: ExchangeView,
    codes: Seq<u32>,
    missing: bool,
    d1: char,
    d2: char,
    d3: char,
    text: Seq<char>,
    code: u32,
)
    requires
        x.awaited == (AwaitedView::Reply { codes, missing, head: None }),
        is_three(d1, d2, d3),
        code == number_of_three(d1, d2, d3),
        text.len() > 0,
    ensures
        ({
            let line = seq![d1, d2, d3, ' '] + text;
            &&& is_reply(seq![line], code)
            &&& x.advance(EventView::Line(line)) == if codes.contains(code) || (missing && code
                == 550) {
                proceed(x.steps, LineView { code, text: line }, x.outcome)
            } else {
                Some(ProgressView::Done(Err(unexpected(codes, line))))
            }
        }),
{
    lemma_begin(d1, d2, d3, ' ', text);
}

/// A line of three digits, another ASCII character and some text begins a reply of more
/// lines: another line is read, and nothing else changes.
pub proof fn law_reply_has_more_lines(
    x: ExchangeView,
    codes: Seq<u32>,
    missing: bool,
    d1: char,
    d2: char,
    d3: char,
    c: char,
    text: Seq<char>,
    code: u32,
)
    requires
        x.awaited == (AwaitedView::Reply { codes, missing, head: None }),
        is_three(d1, d2, d3),
        code == number_of_three(d1, d2, d3),
        c <= '\u{7f}',
        c != ' ',
        text.len() > 0,
    ensures
        ({
            let line = seq![d1, d2, d3, c] + text;
            let head = Head { b1: d1 as u8, b2: d2 as u8, b3: d3 as u8, code };
            x.advance(EventView::Line(line)) == Some(
                ProgressView::Perform(
                    ActionView::ReadLine,
                    ExchangeView {
                        awaited: AwaitedView::Reply { codes, missing, head: Some(head) },
                        ..x
                    },
                ),
            )
        }),
{
    lemma_begin(d1, d2, d3, c, text);
}

/// A text of which the first byte is an ASCII one begins with that character.
proof fn lemma_first_byte(s: Seq<char>)
    requires
        encode_utf8(s).len() > 0,
        encode_utf8(s)[0] <= 0x7f,
    ensures
        s.len() > 0,
        s[0] == encode_utf8(s)[0] as char,
        encode_utf8(s).skip(1) == encode_utf8(s.drop_first()),
{
    let b = encode_utf8(s);
    let c = s[0] as u32;
    encode_utf8_first_scalar(s);
    char_u32_cast(s[0], c);
    assert(b == encode_scalar(c) + encode_utf8(s.drop_first()));
    assert(leading_byte_width_2(c) > 0x7f) by (bit_vector);
    assert(leading_byte_width_3(c) > 0x7f) by (bit_vector);
    assert(leading_byte_width_4(c) > 0x7f) by (bit_vector);
    assert(b[0] == encode_scalar(c)[0]);
    assert(encode_scalar(c) == seq![leading_byte_width_1(c)]);
    assert(leading_byte_width_1(c) == c) by (bit_vector)
        requires
            c <= 0x7f,
    ;
    assert(b.skip(1) =~= encode_utf8(s.drop_first()));
}

/// In a reply of more lines, only a line that begins with the digits of the first, a space
/// and more ends it, and the reply has the code of the first line and the text of the last.
/// Any other line is passed over, unless a character lies across its fourth byte; then there
/// is no way on.
#[verifier::spinoff_prover]
#[verifier::rlimit(60)]
pub proof fn law_line_within_a_reply(
    x: ExchangeView,
    codes: Seq<u32>,
    missing: bool,
    d1: char,
    d2: char,
    d3: char,
    code: u32,
    line: Seq<char>,
)
    requires
        is_three(d1, d2, d3),
        code == number_of_three(d1, d2, d3),
        x.awaited == (AwaitedView::Reply {
            codes,
            missing,
            head: Some(Head { b1: d1 as u8, b2: d2 as u8, b3: d3 as u8, code }),
        }),
    ensures
        ({
            let p = x.advance(EventView::Line(line));
            let b = encode_utf8(line);
            if b.len() >= 5 && !is_char_boundary(b, 4) {
                p is None
            } else if line.len() >= 5 && line[0] == d1 && line[1] == d2 && line[2] == d3 && line[3]
                == ' ' {
                p == if codes.contains(code) || (missing && code == 550) {
                    proceed(x.steps, LineView { code, text: line }, x.outcome)
                } else {
                    Some(ProgressView::Done(Err(unexpected(codes, line))))
                }
            } else {
                p == Some(ProgressView::Perform(ActionView::ReadLine, x))
            }
        }),
{
    let b = encode_utf8(line);
    if line.len() >= 5 && line[0] == d1 && line[1] == d2 && line[2] == d3 && line[3] == ' ' {
        assert(line =~= seq![d1, d2, d3, ' '] + line.skip(4));
        lemma_begin(d1, d2, d3, ' ', line.skip(4));
    } else if b.len() >= 5 && b[0] == d1 as u8 && b[1] == d2 as u8 && b[2] == d3 as u8 && b[3]
        == 32 {
        let l1 = line.drop_first();
        let l2 = l1.drop_first();
        let l3 = l2.drop_first();
        let l4 = l3.drop_first();
        lemma_first_byte(line);
        assert(b.skip(1)[0] == b[1]);
        lemma_first_byte(l1);
        assert(b.skip(1).skip(1)[0] == b[2]);
        lemma_first_byte(l2);
        assert(b.skip(1).skip(1).skip(1)[0] == b[3]);
        lemma_first_byte(l3);
        assert(b.skip(1).skip(1).skip(1).skip(1).len() > 0);
        assert(encode_utf8(l4).len() > 0);
        assert(l4.len() > 0);
        assert(line[1] == l1[0] && line[2] == l2[0] && line[3] == l3[0]);
    }
}

/// Where a reply should begin, a line that does not begin with a number of three
/// characters is an error, and one with a character across its third byte, or across the
/// fourth behind a number, has no way on.
pub proof fn law_line_is_no_reply(
    x: ExchangeView,
    codes: Seq<u32>,
    missing: bool,
    line: Seq<char>,
)
    requires
        x.awaited == (AwaitedView::Reply { codes, missing, head: None }),
        encode_utf8(line).len() >= 5,
    ensures
        ({
            let p = x.advance(EventView::Line(line));
            let b = encode_utf8(line);
            let is_number = 48 <= b[1] <= 57 && 48 <= b[2] <= 57 && (48 <= b[0] <= 57 || b[0]
                == 43);
            &&& !is_char_boundary(b, 3) ==> p is None
            &&& is_number && !is_char_boundary(b, 4) ==> p is None
            &&& !is_number && is_char_boundary(b, 3) ==> p == Some(
                ProgressView::Done(
                    Err(
                        ErrorView::InvalidResponse(
                            "error: could not parse reply code: invalid digit found in string"@,
                        ),
                    ),
                ),
            )
        }),
{
}

} // verus!

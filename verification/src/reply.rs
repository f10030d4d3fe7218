//! Reading one reply of the server, line by line.

use vstd::prelude::*;
use vstd::utf8::{encode_utf8, is_char_boundary};

use crate::text::{decimal, decimal_string};
use crate::types::{ErrorView, FtpError, Line, LineView};

verus! {

/// The code that the first line of a reply begins with: its three bytes, and the
/// number that they spell.
#[derive(Debug, Clone, Copy, PartialEq, Eq, Structural)]
pub struct Head {
    pub b1: u8,
    pub b2: u8,
    pub b3: u8,
    pub code: u32,
}

/// What one more line makes of a reply.
#[derive(Debug)]
pub enum Fed {
    /// The reply goes on; its first line began with this code.
    More(Head),
    /// The line ends the reply.
    Complete(Line),
    /// The line is no beginning of a reply.
    Broken(FtpError),
}

/// What a `Fed` holds.
pub enum FedView {
    More(Head),
    Complete(LineView),
    Broken(ErrorView),
}

impl View for Fed {
    type V = FedView;

    open spec fn view(&self) -> FedView {
        match *self {
            Fed::More(head) => FedView::More(head),
            Fed::Complete(line) => FedView::Complete(line@),
            Fed::Broken(e) => FedView::Broken(e@),
        }
    }
}

/// Whether a byte is an ASCII digit.
pub open spec fn is_digit_byte(b: u8) -> bool {
    48 <= b <= 57
}

/// The number that three bytes spell: three digits, or a plus sign and two
/// digits.
pub open spec fn code_value(b1: u8, b2: u8, b3: u8) -> Option<u32> {
    if is_digit_byte(b2) && is_digit_byte(b3) && (is_digit_byte(b1) || b1 == 43) {
        let hundreds = if b1 == 43 { 0int } else { b1 - 48 };
        Some((100 * hundreds + 10 * (b2 - 48) + (b3 - 48)) as u32)
    } else {
        None
    }
}

/// Whether a line begins with the code `head` and a space, and is long enough to
/// end a reply.
pub open spec fn ends_reply(head: Head, line: Seq<char>) -> bool {
    let b = encode_utf8(line);
    b.len() >= 5 && b[0] == head.b1 && b[1] == head.b2 && b[2] == head.b3 && b[3] == 32
}

/// What a line makes of a reply of which the first line began with `head`, or of
/// which it is the first line.
///
/// A reply begins with a line of at least five bytes that begins with a code. It
/// ends with the first line that begins with the same code and a space.
pub open spec fn reply_step(head: Option<Head>, line: Seq<char>) -> FedView {
    let b = encode_utf8(line);
    match head {
        Some(h) => if ends_reply(h, line) {
            FedView::Complete(LineView { code: h.code, text: line })
        } else {
            FedView::More(h)
        },
        None => if b.len() < 5 {
            FedView::Broken(ErrorView::InvalidResponse("error: could not read reply code"@))
        } else {
            match code_value(b[0], b[1], b[2]) {
                Some(code) => {
                    let h = Head { b1: b[0], b2: b[1], b3: b[2], code };
                    if ends_reply(h, line) {
                        FedView::Complete(LineView { code, text: line })
                    } else {
                        FedView::More(h)
                    }
                },
                None => FedView::Broken(
                    ErrorView::InvalidResponse(
                        "error: could not parse reply code: invalid digit found in string"@,
                    ),
                ),
            }
        },
    }
}

/// Whether the code, and the code with what follows it, can be cut off a line: no
/// character of the line lies across the cut.
pub open spec fn is_cuttable(head: Option<Head>, line: Seq<char>) -> bool {
    let b = encode_utf8(line);
    b.len() >= 5 ==> match head {
        Some(_) => is_char_boundary(b, 4),
        None => is_char_boundary(b, 3) && (code_value(b[0], b[1], b[2]) is Some
            ==> is_char_boundary(b, 4)),
    }
}

/// The number that three bytes spell.
fn parse_code(b1: u8, b2: u8, b3: u8) -> (r: Option<u32>)
    ensures
        r == code_value(b1, b2, b3),
{
    if b2 < 48 || b2 > 57 || b3 < 48 || b3 > 57 {
        return None;
    }
    let tail: u32 = (b2 - 48) as u32 * 10 + (b3 - 48) as u32;
    if b1 == 43 {
        Some(tail)
    } else if 48 <= b1 && b1 <= 57 {
        Some((b1 - 48) as u32 * 100 + tail)
    } else {
        None
    }
}

/// Whether the code can be cut off the line.
pub fn can_cut(head: Option<Head>, line: &str) -> (r: bool)
    ensures
        r == is_cuttable(head, line@),
{
    let b: &[u8] = line.as_bytes();
    if b.len() < 5 {
        return true;
    }
    match head {
        Some(_) => line.is_char_boundary(4),
        None => line.is_char_boundary(3) && (parse_code(b[0], b[1], b[2]).is_none()
            || line.is_char_boundary(4)),
    }
}

/// Takes the next line of a reply of which the first line began with `head`, or
/// the first line.
pub fn take_line(head: Option<Head>, line: String) -> (r: Fed)
    requires
        is_cuttable(head, line@),
    ensures
        r@ == reply_step(head, line@),
{
    let b: &[u8] = line.as_str().as_bytes();
    let h: Head = match head {
        Some(h) => h,
        None => {
            if b.len() < 5 {
                return Fed::Broken(
                    FtpError::InvalidResponse("error: could not read reply code".to_owned()),
                );
            }
            match parse_code(b[0], b[1], b[2]) {
                Some(code) => Head { b1: b[0], b2: b[1], b3: b[2], code },
                None => {
                    return Fed::Broken(
                        FtpError::InvalidResponse(
                            "error: could not parse reply code: invalid digit found in string".to_owned(),
                        ),
                    );
                },
            }
        },
    };
    if b.len() >= 5 && b[0] == h.b1 && b[1] == h.b2 && b[2] == h.b3 && b[3] == 32 {
        Fed::Complete(Line(h.code, line))
    } else {
        Fed::More(h)
    }
}

/// The codes, separated by a comma and a space.
pub open spec fn joined_codes(codes: Seq<u32>) -> Seq<char>
    decreases codes.len(),
{
    if codes.len() == 0 {
        Seq::empty()
    } else if codes.len() == 1 {
        decimal(codes[0] as nat)
    } else {
        joined_codes(codes.drop_last()) + ", "@ + decimal(codes.last() as nat)
    }
}

/// The error for a reply with a code that is none of those expected.
pub open spec fn unexpected(codes: Seq<u32>, line: Seq<char>) -> ErrorView {
    ErrorView::InvalidResponse(
        "Expected code ["@ + joined_codes(codes) + "], got response: "@ + line,
    )
}

/// Whether `code` is one of `codes`.
pub fn has_code(codes: &Vec<u32>, code: u32) -> (r: bool)
    ensures
        r == codes@.contains(code),
{
    let mut i: usize = 0;
    while i < codes.len()
        invariant
            0 <= i <= codes@.len(),
            forall|k: int| 0 <= k < i ==> codes@[k] != code,
        decreases codes@.len() - i,
    {
        if codes[i] == code {
            assert(codes@[i as int] == code);
            return true;
        }
        i = i + 1;
    }
    false
}

/// The error for the reply `line`, of which the code is none of `codes`.
pub fn unexpected_reply(codes: &Vec<u32>, line: &str) -> (r: FtpError)
    ensures
        r@ == unexpected(codes@, line@),
{
    let mut list: String = String::new();
    let mut i: usize = 0;
    while i < codes.len()
        invariant
            0 <= i <= codes@.len(),
            list@ == joined_codes(codes@.take(i as int)),
        decreases codes@.len() - i,
    {
        proof {
            let next = codes@.take(i + 1);
            assert(next.drop_last() == codes@.take(i as int));
            assert(next.last() == codes@[i as int]);
            assert(next.len() == 1 ==> next[0] == codes@[i as int]);
        }
        if i > 0 {
            list.append(", ");
        }
        list.append(decimal_string(codes[i]).as_str());
        i = i + 1;
    }
    assert(codes@.take(codes@.len() as int) == codes@);
    FtpError::InvalidResponse(
        "Expected code [".to_owned().concat(list.as_str()).concat("], got response: ").concat(line),
    )
}

} // verus!

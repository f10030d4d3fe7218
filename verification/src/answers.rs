//! What the text of a reply, or of a listing, says.

use vstd::prelude::*;

use crate::calendar::{utc_seconds, Moment};
use crate::patterns::{
    find_passive, find_time_stamp, find_trailing_number, groups_view, passive_groups,
    time_stamp_groups, trailing_number_groups,
};
use crate::text::{chars_of, parse_unsigned, string_of, texts, unsigned_value};
use crate::types::{ErrorView, FtpError, SocketAddress};

verus! {

/// Whether the six groups of a passive reply are numbers of one byte each.
pub open spec fn are_bytes(g: Seq<Seq<char>>) -> bool {
    g.len() == 6 && forall|k: int|
        0 <= k < 6 ==> unsigned_value(#[trigger] g[k], u8::MAX as nat) is Some
}

/// The number of one byte that a group of a passive reply spells.
pub open spec fn byte_of(s: Seq<char>) -> u8 {
    unsigned_value(s, u8::MAX as nat)->0 as u8
}

/// The address that the groups of a passive reply spell: four numbers of the
/// host, then the high and the low byte of the port.
pub open spec fn address_of(g: Seq<Seq<char>>) -> SocketAddress {
    SocketAddress {
        h1: byte_of(g[0]),
        h2: byte_of(g[1]),
        h3: byte_of(g[2]),
        h4: byte_of(g[3]),
        port: (byte_of(g[4]) * 256 + byte_of(g[5])) as u16,
    }
}

/// What a passive reply `line` says, if the search for an address in it gave
/// `found`.
pub open spec fn passive_result(
    line: Seq<char>,
    found: Option<Seq<Seq<char>>>,
) -> Result<SocketAddress, ErrorView> {
    match found {
        Some(g) => Ok(address_of(g)),
        None => Err(ErrorView::InvalidResponse("Invalid PASV response: "@ + line)),
    }
}

/// Whether the numbers in the address of a passive reply, if it has one, fit.
pub open spec fn passive_fits(found: Option<Seq<Seq<char>>>) -> bool {
    found matches Some(g) ==> are_bytes(g)
}

/// A result of which the error is taken by its view.
pub open spec fn result_view<T>(r: Result<T, FtpError>) -> Result<T, ErrorView> {
    match r {
        Ok(v) => Ok(v),
        Err(e) => Err(e@),
    }
}

/// The number of one byte that `s` spells.
fn byte_in(s: &String) -> (r: u8)
    requires
        unsigned_value(s@, u8::MAX as nat) is Some,
    ensures
        r == byte_of(s@),
{
    match parse_unsigned(s.as_str(), u8::MAX as u64) {
        Some(n) => n as u8,
        None => 0,
    }
}

/// The address that a passive reply announces, if the search for it in `line`
/// gave `found`.
pub fn passive_address(line: &str, found: &Option<Vec<String>>) -> (r: Result<
    SocketAddress,
    FtpError,
>)
    requires
        passive_fits(groups_view(*found)),
    ensures
        result_view(r) == passive_result(line@, groups_view(*found)),
{
    match found {
        Some(g) => {
            let ghost t = texts(g@);
            assert(forall|k: int| 0 <= k < 6 ==> t[k] == #[trigger] g@[k]@);
            assert(forall|k: int| 0 <= k < 6 ==> unsigned_value(#[trigger] t[k], u8::MAX as nat)
                is Some);
            let high: u8 = byte_in(&g[4]);
            let low: u8 = byte_in(&g[5]);
            let port: u16 = high as u16 * 256 + low as u16;
            Ok(
                SocketAddress {
                    h1: byte_in(&g[0]),
                    h2: byte_in(&g[1]),
                    h3: byte_in(&g[2]),
                    h4: byte_in(&g[3]),
                    port,
                },
            )
        },
        None => Err(
            FtpError::InvalidResponse("Invalid PASV response: ".to_owned().concat(line)),
        ),
    }
}

/// The address that the passive reply `line` announces, or `None` where a number
/// in it does not fit in a byte.
pub fn checked_passive_address(line: &str) -> (r: Option<Result<SocketAddress, FtpError>>)
    ensures
        r is Some <==> passive_fits(passive_groups(line@)),
        r matches Some(answer) ==> result_view(answer) == passive_result(
            line@,
            passive_groups(line@),
        ),
{
    let found: Option<Vec<String>> = find_passive(line);
    if let Some(g) = &found {
        let ghost t = texts(g@);
        if g.len() != 6 {
            return None;
        }
        let mut k: usize = 0;
        while k < 6
            invariant
                0 <= k <= 6,
                g@.len() == 6,
                t == texts(g@),
                groups_view(found) == Some(t),
                groups_view(found) == passive_groups(line@),
                forall|j: int|
                    0 <= j < k ==> unsigned_value(#[trigger] t[j], u8::MAX as nat) is Some,
            decreases 6 - k,
        {
            assert(t[k as int] == g@[k as int]@);
            if parse_unsigned(g[k].as_str(), u8::MAX as u64).is_none() {
                return None;
            }
            k = k + 1;
        }
    }
    Some(passive_address(line, &found))
}

/// Whether the six groups of a time stamp are ASCII numerals.
pub open spec fn are_numerals(g: Seq<Seq<char>>) -> bool {
    g.len() == 6 && forall|k: int|
        0 <= k < 6 ==> unsigned_value(#[trigger] g[k], u32::MAX as nat) is Some
}

/// The number that a group of a time stamp spells.
pub open spec fn number_of(s: Seq<char>) -> nat {
    unsigned_value(s, u32::MAX as nat)->0
}

/// The date and time that the groups of a time stamp spell.
pub open spec fn moment_of(g: Seq<Seq<char>>) -> Moment {
    Moment {
        year: number_of(g[0]),
        month: number_of(g[1]),
        day: number_of(g[2]),
        hour: number_of(g[3]),
        minute: number_of(g[4]),
        second: number_of(g[5]),
    }
}

/// The modification time of a file, in seconds from the beginning of 1970, if
/// the search for a time stamp in the reply gave `found`.
pub open spec fn time_result(found: Option<Seq<Seq<char>>>) -> Option<int> {
    match found {
        Some(g) => Some(moment_of(g).unix_seconds()),
        None => None,
    }
}

/// Whether the time stamp of a reply, if it has one, is a date and time that
/// exists.
pub open spec fn time_fits(found: Option<Seq<Seq<char>>>) -> bool {
    found matches Some(g) ==> are_numerals(g) && number_of(g[0]) <= 9999
        && moment_of(g).exists_in_calendar()
}

/// The value of an optional number.
pub open spec fn time_view(r: Option<i64>) -> Option<int> {
    match r {
        Some(t) => Some(t as int),
        None => None,
    }
}

/// The number that `s` spells.
fn number_in(s: &String) -> (r: u32)
    requires
        unsigned_value(s@, u32::MAX as nat) is Some,
    ensures
        r == number_of(s@),
{
    match parse_unsigned(s.as_str(), u32::MAX as u64) {
        Some(n) => n as u32,
        None => 0,
    }
}

/// The seconds from the beginning of 1970 to the time stamp with the groups `g`,
/// or `None` if there is no such date or time.
fn seconds_of(g: &Vec<String>) -> (r: Option<i64>)
    requires
        are_numerals(texts(g@)),
        number_of(texts(g@)[0]) <= 9999,
    ensures
        match r {
            Some(t) => moment_of(texts(g@)).exists_in_calendar() && t == moment_of(
                texts(g@),
            ).unix_seconds(),
            None => !moment_of(texts(g@)).exists_in_calendar(),
        },
{
    let ghost t = texts(g@);
    assert(forall|k: int| 0 <= k < 6 ==> t[k] == #[trigger] g@[k]@);
    assert(forall|k: int| 0 <= k < 6 ==> unsigned_value(#[trigger] t[k], u32::MAX as nat) is Some);
    let year: u32 = number_in(&g[0]);
    utc_seconds(
        year as i32,
        number_in(&g[1]),
        number_in(&g[2]),
        number_in(&g[3]),
        number_in(&g[4]),
        number_in(&g[5]),
    )
}

/// The modification time of a file, if the search for a time stamp in the reply
/// gave `found`: in seconds from the beginning of 1970.
pub fn modification_time(found: &Option<Vec<String>>) -> (r: Option<i64>)
    requires
        time_fits(groups_view(*found)),
    ensures
        time_view(r) == time_result(groups_view(*found)),
{
    match found {
        Some(g) => seconds_of(g),
        None => None,
    }
}

/// The modification time that the reply `content` gives, or `None` where its time
/// stamp is no date and time that exists.
pub fn checked_modification_time(content: &str) -> (r: Option<Option<i64>>)
    ensures
        r is Some <==> time_fits(time_stamp_groups(content@)),
        r matches Some(time) ==> time_view(time) == time_result(time_stamp_groups(content@)),
{
    let found: Option<Vec<String>> = find_time_stamp(content);
    if let Some(g) = &found {
        let ghost t = texts(g@);
        if g.len() != 6 {
            return None;
        }
        let mut k: usize = 0;
        while k < 6
            invariant
                0 <= k <= 6,
                g@.len() == 6,
                t == texts(g@),
                groups_view(found) == Some(t),
                groups_view(found) == time_stamp_groups(content@),
                forall|j: int|
                    0 <= j < k ==> unsigned_value(#[trigger] t[j], u32::MAX as nat) is Some,
            decreases 6 - k,
        {
            assert(t[k as int] == g@[k as int]@);
            if parse_unsigned(g[k].as_str(), u32::MAX as u64).is_none() {
                return None;
            }
            k = k + 1;
        }
        assert(t[0] == g@[0]@);
        if number_in(&g[0]) > 9999 || seconds_of(g).is_none() {
            return None;
        }
    }
    Some(modification_time(&found))
}

/// Whether the number of a size reply, if it has one, fits in a `usize`.
pub open spec fn size_fits(found: Option<Seq<Seq<char>>>) -> bool {
    found matches Some(g) ==> g.len() == 1 && unsigned_value(g[0], usize::MAX as nat) is Some
}

/// The size of a file, if the search for a number in the reply gave `found`.
pub open spec fn size_result(found: Option<Seq<Seq<char>>>) -> Option<nat> {
    match found {
        Some(g) => Some(unsigned_value(g[0], usize::MAX as nat)->0),
        None => None,
    }
}

/// The value of an optional size.
pub open spec fn size_view(r: Option<usize>) -> Option<nat> {
    match r {
        Some(n) => Some(n as nat),
        None => None,
    }
}

/// The size of a file, if the search for a number in the reply gave `found`.
pub fn file_size(found: &Option<Vec<String>>) -> (r: Option<usize>)
    requires
        size_fits(groups_view(*found)),
    ensures
        size_view(r) == size_result(groups_view(*found)),
{
    match found {
        Some(g) => {
            assert(texts(g@)[0] == g@[0]@);
            match parse_unsigned(g[0].as_str(), usize::MAX as u64) {
                Some(n) => Some(n as usize),
                None => None,
            }
        },
        None => None,
    }
}

/// The size that the reply `content` gives, or `None` where it does not fit in a
/// `usize`.
pub fn checked_file_size(content: &str) -> (r: Option<Option<usize>>)
    ensures
        r is Some <==> size_fits(trailing_number_groups(content@)),
        r matches Some(size) ==> size_view(size) == size_result(trailing_number_groups(content@)),
{
    let found: Option<Vec<String>> = find_trailing_number(content);
    if let Some(g) = &found {
        if g.len() != 1 {
            return None;
        }
        assert(texts(g@)[0] == g@[0]@);
        if parse_unsigned(g[0].as_str(), usize::MAX as u64).is_none() {
            return None;
        }
    }
    Some(file_size(&found))
}

/// The directory that a reply names: what stands between its first and its last
/// quotation mark, if it has two.
pub open spec fn directory_result(content: Seq<char>) -> Result<Seq<char>, ErrorView> {
    match (content.index_of_first('"'), content.index_of_last('"')) {
        (Some(begin), Some(end)) if begin < end => Ok(content.subrange(begin + 1, end)),
        _ => Err(ErrorView::InvalidResponse("Invalid PWD Response: "@ + content)),
    }
}

/// The directory that the reply `content` names.
pub fn current_directory(content: &str) -> (r: Result<String, FtpError>)
    ensures
        match r {
            Ok(path) => directory_result(content@) == Ok::<Seq<char>, ErrorView>(path@),
            Err(e) => directory_result(content@) == Err::<Seq<char>, ErrorView>(e@),
        },
{
    let chars: Vec<char> = chars_of(content);
    let mut begin: usize = 0;
    while begin < chars.len() && chars[begin] != '"'
        invariant
            begin <= chars@.len(),
            forall|k: int| 0 <= k < begin ==> chars@[k] != '"',
        decreases chars@.len() - begin,
    {
        begin = begin + 1;
    }
    let mut end: usize = chars.len();
    while end > 0 && chars[end - 1] != '"'
        invariant
            end <= chars@.len(),
            forall|k: int| end <= k < chars@.len() ==> chars@[k] != '"',
        decreases end,
    {
        end = end - 1;
    }
    proof {
        chars@.index_of_first_ensures('"');
        chars@.index_of_last_ensures('"');
    }
    if begin < chars.len() && begin + 1 < end {
        assert(chars@[begin as int] == '"' && chars@[end - 1] == '"');
        Ok(string_of(&chars, begin + 1, end - 1))
    } else {
        Err(FtpError::InvalidResponse("Invalid PWD Response: ".to_owned().concat(content)))
    }
}

/// Whether a line end, `\r\n`, stands at index `i` of `s`.
pub open spec fn crlf_at(s: Seq<char>, i: int) -> bool {
    0 <= i < s.len() - 1 && s[i] == '\r' && s[i + 1] == '\n'
}

/// The first index from `i` on at which a line end stands in `s`, or the length
/// of `s`.
pub open spec fn next_crlf(s: Seq<char>, i: int) -> int
    decreases s.len() - i,
{
    if i >= s.len() {
        s.len() as int
    } else if crlf_at(s, i) {
        i
    } else {
        next_crlf(s, i + 1)
    }
}

/// The pieces between the line ends of `s`, from index `i` on.
pub open spec fn pieces_from(s: Seq<char>, i: int) -> Seq<Seq<char>>
    decreases s.len() - i,
{
    let end = next_crlf(s, i);
    if end < i || end + 2 > s.len() {
        seq![s.skip(i)]
    } else {
        seq![s.subrange(i, end)] + pieces_from(s, end + 2)
    }
}

/// The pieces between the line ends of `s`.
pub open spec fn pieces(s: Seq<char>) -> Seq<Seq<char>> {
    pieces_from(s, 0)
}

/// The pieces that are not empty.
pub open spec fn nonempty(p: Seq<Seq<char>>) -> Seq<Seq<char>>
    decreases p.len(),
{
    if p.len() == 0 {
        Seq::empty()
    } else if p[0].len() == 0 {
        nonempty(p.drop_first())
    } else {
        seq![p[0]] + nonempty(p.drop_first())
    }
}

/// The lines of a listing: what stands between its line ends, where that is not
/// empty.
pub open spec fn listing(s: Seq<char>) -> Seq<Seq<char>> {
    nonempty(pieces(s))
}

/// The next line end is one, if there is any, and none stands before it.
pub proof fn lemma_next_crlf(s: Seq<char>, i: int)
    requires
        0 <= i <= s.len(),
    ensures
        i <= next_crlf(s, i) <= s.len(),
        next_crlf(s, i) < s.len() ==> crlf_at(s, next_crlf(s, i)),
        forall|k: int| i <= k < next_crlf(s, i) ==> !crlf_at(s, k),
    decreases s.len() - i,
{
    if i < s.len() && !crlf_at(s, i) {
        lemma_next_crlf(s, i + 1);
    }
}

/// Appends the lines of the listing `text` to `lines`.
pub fn extend_listing(lines: &mut Vec<String>, text: &str)
    ensures
        texts(final(lines)@) == texts(old(lines)@) + listing(text@),
{
    let chars: Vec<char> = chars_of(text);
    let ghost s = text@;
    let ghost before = texts(lines@);
    let mut start: usize = 0;
    let mut i: usize = 0;
    assert(before + nonempty(pieces_from(s, 0)) == texts(lines@) + nonempty(pieces_from(s, 0)));
    while i < chars.len()
        invariant
            chars@ == s,
            s == text@,
            start <= i <= s.len(),
            next_crlf(s, start as int) == next_crlf(s, i as int),
            before + listing(s) == texts(lines@) + nonempty(pieces_from(s, start as int)),
        decreases s.len() - i,
    {
        let ghost rest = pieces_from(s, start as int);
        if chars[i] == '\r' && i + 1 < chars.len() && chars[i + 1] == '\n' {
            proof {
                assert(crlf_at(s, i as int));
                assert(rest.drop_first() == pieces_from(s, i + 2));
                assert(rest[0] == s.subrange(start as int, i as int));
            }
            if start < i {
                let ghost held = texts(lines@);
                lines.push(string_of(&chars, start, i));
                proof {
                    assert(texts(lines@) == held.push(rest[0]));
                    assert(held + nonempty(rest) == texts(lines@) + nonempty(rest.drop_first()));
                }
            }
            start = i + 2;
            i = i + 2;
        } else {
            assert(!crlf_at(s, i as int));
            i = i + 1;
        }
    }
    proof {
        let rest = pieces_from(s, start as int);
        assert(next_crlf(s, i as int) == s.len());
        assert(rest == seq![s.skip(start as int)]);
        assert(rest.drop_first() == Seq::<Seq<char>>::empty());
        assert(nonempty(rest.drop_first()) == Seq::<Seq<char>>::empty());
        assert(nonempty(rest) == if start < s.len() {
            seq![s.skip(start as int)]
        } else {
            Seq::<Seq<char>>::empty()
        });
    }
    if start < chars.len() {
        let ghost held = texts(lines@);
        lines.push(string_of(&chars, start, chars.len()));
        proof {
            assert(s.subrange(start as int, s.len() as int) == s.skip(start as int));
            assert(texts(lines@) == held.push(s.skip(start as int)));
        }
    }
}

} // verus!

//! The regular expressions that replies are searched with.
//!
//! The search itself is the work of the `regex` crate. What it finds is stated
//! here for each of the three patterns that the client uses, and from that
//! statement the result of a search is proved to be one value only.

use regex::Regex;
use vstd::prelude::*;

use crate::text::texts;

verus! {

/// Six numbers between brackets, separated by commas: the address of a passive
/// reply.
pub const PASSIVE: &'static str = r"\((\d+),(\d+),(\d+),(\d+),(\d+),(\d+)\)";

/// The fourteen digits of a time stamp, standing apart from other word
/// characters.
pub const TIME_STAMP: &'static str = r"\b(\d{4})(\d{2})(\d{2})(\d{2})(\d{2})(\d{2})\b";

/// The number that a reply ends with.
pub const TRAILING_NUMBER: &'static str = r"\s+(\d+)\s*$";

/// The zeros of the decimal digits that are not ASCII ones, each followed by the
/// other nine of its script.
pub open spec fn other_zeros() -> Seq<int> {
    seq![
        0x660, 0x6f0, 0x7c0, 0x966, 0x9e6, 0xa66, 0xae6, 0xb66, 0xbe6, 0xc66, 0xce6, 0xd66, 0xde6,
        0xe50, 0xed0, 0xf20, 0x1040, 0x1090, 0x17e0, 0x1810, 0x1946, 0x19d0, 0x1a80, 0x1a90,
        0x1b50, 0x1bb0, 0x1c40, 0x1c50, 0xa620, 0xa8d0, 0xa900, 0xa9d0, 0xa9f0, 0xaa50, 0xabf0,
        0xff10, 0x104a0, 0x10d30, 0x10d40, 0x11066, 0x110f0, 0x11136, 0x111d0, 0x112f0, 0x11450,
        0x114d0, 0x11650, 0x116c0, 0x116d0, 0x116da, 0x11730, 0x118e0, 0x11950, 0x11bf0, 0x11c50,
        0x11d50, 0x11da0, 0x11f50, 0x16130, 0x16a60, 0x16ac0, 0x16b50, 0x16d70, 0x1ccf0, 0x1d7ce,
        0x1d7d8, 0x1d7e2, 0x1d7ec, 0x1d7f6, 0x1e140, 0x1e2f0, 0x1e4f0, 0x1e5f1, 0x1e950, 0x1fbf0,
    ]
}

/// What `\d` matches: the ten ASCII digits, and the decimal digits of Unicode.
pub open spec fn is_decimal(c: char) -> bool {
    if c <= '\u{7f}' {
        '0' <= c <= '9'
    } else {
        exists|k: int|
            0 <= k < other_zeros().len() && #[trigger] other_zeros()[k] <= c as int
                <= other_zeros()[k] + 9
    }
}

/// Whether `\w` matches the character `c`, as far as `c` is not an ASCII one.
pub uninterp spec fn unicode_word(c: char) -> bool;

/// Whether `c` is a word character, if `unicode` says so of one that is not an
/// ASCII character.
pub open spec fn is_word_if(c: char, unicode: bool) -> bool {
    if c <= '\u{7f}' {
        '0' <= c <= '9' || 'A' <= c <= 'Z' || 'a' <= c <= 'z' || c == '_'
    } else {
        unicode
    }
}

/// What `\w` matches.
pub open spec fn is_word(c: char) -> bool {
    is_word_if(c, unicode_word(c))
}

/// What `\s` matches.
pub open spec fn is_space(c: char) -> bool {
    ||| '\t' <= c <= '\r'
    ||| c == ' ' || c == '\u{85}' || c == '\u{a0}' || c == '\u{1680}'
    ||| '\u{2000}' <= c <= '\u{200a}'
    ||| c == '\u{2028}' || c == '\u{2029}' || c == '\u{202f}' || c == '\u{205f}' || c == '\u{3000}'
}

/// Whether `s` is a match of `\d+`.
pub open spec fn is_number(s: Seq<char>) -> bool {
    s.len() > 0 && forall|i: int| 0 <= i < s.len() ==> is_decimal(#[trigger] s[i])
}

/// Whether `s` is a match of `\s*`.
pub open spec fn is_blank(s: Seq<char>) -> bool {
    forall|i: int| 0 <= i < s.len() ==> is_space(#[trigger] s[i])
}

/// The text that `PASSIVE` matches with the groups `g`.
pub open spec fn passive_text(g: Seq<Seq<char>>) -> Seq<char> {
    seq!['('] + g[0] + seq![','] + g[1] + seq![','] + g[2] + seq![','] + g[3] + seq![','] + g[4]
        + seq![','] + g[5] + seq![')']
}

/// `PASSIVE` matches at index `i` of `s`, with the groups `g`.
pub open spec fn passive_at(s: Seq<char>, i: int, g: Seq<Seq<char>>) -> bool {
    &&& g.len() == 6
    &&& forall|k: int| 0 <= k < 6 ==> is_number(#[trigger] g[k])
    &&& 0 <= i <= s.len()
    &&& passive_text(g).is_prefix_of(s.skip(i))
}

/// At index `i` of `s` stand the fourteen digits of a time stamp, in the groups
/// `g`.
pub open spec fn time_digits_at(s: Seq<char>, i: int, g: Seq<Seq<char>>) -> bool {
    &&& g.len() == 6
    &&& forall|k: int| 0 <= k < 6 ==> is_number(#[trigger] g[k])
    &&& g[0].len() == 4
    &&& forall|k: int| 1 <= k < 6 ==> (#[trigger] g[k]).len() == 2
    &&& 0 <= i <= s.len()
    &&& (g[0] + g[1] + g[2] + g[3] + g[4] + g[5]).is_prefix_of(s.skip(i))
}

/// `TIME_STAMP` matches at index `i` of `s`, with the groups `g`: the digits, with
/// no word character before or after them.
pub open spec fn time_stamp_at(s: Seq<char>, i: int, g: Seq<Seq<char>>) -> bool {
    &&& time_digits_at(s, i, g)
    &&& i > 0 ==> !is_word(s[i - 1])
    &&& i + 14 < s.len() ==> !is_word(s[i + 14])
}

/// `TRAILING_NUMBER` matches at index `i` of `s`, with the groups `g`.
pub open spec fn trailing_number_at(s: Seq<char>, i: int, g: Seq<Seq<char>>) -> bool {
    &&& g.len() == 1
    &&& is_number(g[0])
    &&& 0 <= i <= s.len()
    &&& exists|before: Seq<char>, after: Seq<char>|
        before.len() > 0 && is_blank(before) && is_blank(after) && s.skip(i) == #[trigger] (before
            + g[0] + after)
}

/// `at` holds at index `i`, with the groups `g`, and at no smaller index.
pub open spec fn is_leftmost(
    at: spec_fn(int, Seq<Seq<char>>) -> bool,
    i: int,
    g: Seq<Seq<char>>,
) -> bool {
    at(i, g) && forall|j: int, h: Seq<Seq<char>>| #[trigger] at(j, h) ==> i <= j
}

/// `found` is what a search gives that looks for the leftmost index at which
/// `at` holds: the groups there, or nothing if `at` holds nowhere.
pub open spec fn is_first(
    at: spec_fn(int, Seq<Seq<char>>) -> bool,
    found: Option<Seq<Seq<char>>>,
) -> bool {
    &&& found is Some ==> exists|i: int| #[trigger] is_leftmost(at, i, found->0)
    &&& found is None ==> forall|i: int, g: Seq<Seq<char>>| !#[trigger] at(i, g)
}

/// The groups that a search found, as sequences of characters.
pub open spec fn groups_view(r: Option<Vec<String>>) -> Option<Seq<Seq<char>>> {
    match r {
        Some(v) => Some(texts(v@)),
        None => None,
    }
}

/// `Regex::captures`, on a pattern compiled by `Regex::new`: the explicit groups
/// of the leftmost match of `pattern` in `text`.
///
/// The contract claims that each of the three patterns compiles, and says what a
/// match of it is. In none of them can two matches begin at one index with
/// different groups, so that the leftmost index decides. `\d`, `\w` and `\s` are
/// the Unicode classes; what `\w` holds outside ASCII is only named.
#[verifier::external_body]
fn captures(pattern: &str, text: &str) -> (r: Option<Vec<String>>)
    requires
        pattern@ == PASSIVE@ || pattern@ == TIME_STAMP@ || pattern@ == TRAILING_NUMBER@,
    ensures
        pattern@ == PASSIVE@ ==> is_first(
            |i: int, g: Seq<Seq<char>>| passive_at(text@, i, g),
            groups_view(r),
        ),
        pattern@ == TIME_STAMP@ ==> is_first(
            |i: int, g: Seq<Seq<char>>|
                time_digits_at(text@, i, g) && (i > 0 ==> !is_word_if(
                    text@[i - 1],
                    unicode_word(text@[i - 1]),
                )) && (i + 14 < text@.len() ==> !is_word_if(
                    text@[i + 14],
                    unicode_word(text@[i + 14]),
                )),
            groups_view(r),
        ),
        pattern@ == TRAILING_NUMBER@ ==> is_first(
            |i: int, g: Seq<Seq<char>>| trailing_number_at(text@, i, g),
            groups_view(r),
        ),
{
    let compiled = Regex::new(pattern).unwrap();
    let found = compiled.captures(text)?;
    Some(found.iter().skip(1).map(|group| group.unwrap().as_str().to_string()).collect())
}

/// What a search for the leftmost index gives at which `at` holds.
pub open spec fn first(at: spec_fn(int, Seq<Seq<char>>) -> bool) -> Option<Seq<Seq<char>>> {
    if exists|i: int, g: Seq<Seq<char>>| #[trigger] at(i, g) {
        Some(choose|g: Seq<Seq<char>>| #[trigger] is_first(at, Some(g)))
    } else {
        None
    }
}

/// The groups of the leftmost match of `PASSIVE` in `s`.
pub open spec fn passive_groups(s: Seq<char>) -> Option<Seq<Seq<char>>> {
    first(|i: int, g: Seq<Seq<char>>| passive_at(s, i, g))
}

/// The groups of the leftmost match of `TIME_STAMP` in `s`.
pub open spec fn time_stamp_groups(s: Seq<char>) -> Option<Seq<Seq<char>>> {
    first(|i: int, g: Seq<Seq<char>>| time_stamp_at(s, i, g))
}

/// The groups of the leftmost match of `TRAILING_NUMBER` in `s`.
pub open spec fn trailing_number_groups(s: Seq<char>) -> Option<Seq<Seq<char>>> {
    first(|i: int, g: Seq<Seq<char>>| trailing_number_at(s, i, g))
}

/// Where matches that begin at one index have the same groups, a search has one
/// result.
proof fn lemma_first(
    at: spec_fn(int, Seq<Seq<char>>) -> bool,
    found: Option<Seq<Seq<char>>>,
)
    requires
        is_first(at, found),
        forall|i: int, g: Seq<Seq<char>>, h: Seq<Seq<char>>| #[trigger]
            at(i, g) && #[trigger] at(i, h) ==> g == h,
    ensures
        found == first(at),
{
    match found {
        Some(g) => {
            let h = choose|h: Seq<Seq<char>>| #[trigger] is_first(at, Some(h));
            assert(is_first(at, Some(g)));
            let i = choose|i: int| #[trigger] is_leftmost(at, i, g);
            let k = choose|k: int| #[trigger] is_leftmost(at, k, h);
            assert(at(i, g) && at(k, h));
            assert(i == k);
        },
        None => {},
    }
}

/// A match to the left of which there is none is what a search finds.
pub proof fn lemma_found(
    at: spec_fn(int, Seq<Seq<char>>) -> bool,
    i: int,
    g: Seq<Seq<char>>,
)
    requires
        at(i, g),
        forall|j: int, h: Seq<Seq<char>>| #[trigger] at(j, h) ==> i <= j,
        forall|k: int, f: Seq<Seq<char>>, h: Seq<Seq<char>>| #[trigger]
            at(k, f) && #[trigger] at(k, h) ==> f == h,
    ensures
        first(at) == Some(g),
{
    let found = Some(g);
    assert(is_leftmost(at, i, found->0));
    lemma_first(at, found);
}

/// Where `at` holds at some index that is not negative, it holds at a smallest one.
proof fn lemma_smallest(
    at: spec_fn(int, Seq<Seq<char>>) -> bool,
    i: int,
    g: Seq<Seq<char>>,
) -> (smallest: (int, Seq<Seq<char>>))
    requires
        at(i, g),
        forall|j: int, h: Seq<Seq<char>>| #[trigger] at(j, h) ==> 0 <= j,
    ensures
        is_leftmost(at, smallest.0, smallest.1),
    decreases i,
{
    if exists|j: int, h: Seq<Seq<char>>| #[trigger] at(j, h) && j < i {
        let (j, h) = choose|j: int, h: Seq<Seq<char>>| #[trigger] at(j, h) && j < i;
        lemma_smallest(at, j, h)
    } else {
        (i, g)
    }
}

/// A search gives what it looks for.
proof fn lemma_first_is_first(at: spec_fn(int, Seq<Seq<char>>) -> bool)
    requires
        forall|i: int, g: Seq<Seq<char>>, h: Seq<Seq<char>>| #[trigger]
            at(i, g) && #[trigger] at(i, h) ==> g == h,
        forall|j: int, h: Seq<Seq<char>>| #[trigger] at(j, h) ==> 0 <= j,
    ensures
        is_first(at, first(at)),
{
    if exists|i: int, g: Seq<Seq<char>>| #[trigger] at(i, g) {
        let (i, g) = choose|i: int, g: Seq<Seq<char>>| #[trigger] at(i, g);
        let (k, h) = lemma_smallest(at, i, g);
        lemma_found(at, k, h);
        let found = Some(h);
        assert(is_leftmost(at, k, found->0));
    }
}

/// What is found in a passive reply is the leftmost of all addresses in it, wherever it
/// stands, and nothing is found only if there is no address in it.
pub proof fn law_leftmost_address(s: Seq<char>)
    ensures
        passive_groups(s) matches Some(g) ==> exists|i: int| #[trigger] passive_at(s, i, g)
            && forall|j: int, h: Seq<Seq<char>>| #[trigger] passive_at(s, j, h) ==> i <= j,
        passive_groups(s) is None ==> forall|i: int, g: Seq<Seq<char>>|
            !#[trigger] passive_at(s, i, g),
{
    let at = |i: int, g: Seq<Seq<char>>| passive_at(s, i, g);
    assert forall|i: int, g: Seq<Seq<char>>, h: Seq<Seq<char>>| #[trigger]
        at(i, g) && #[trigger] at(i, h) implies g == h by {
        lemma_passive_unique(s, i, g, h);
    }
    lemma_first_is_first(at);
    if let Some(g) = passive_groups(s) {
        let i = choose|i: int| #[trigger] is_leftmost(at, i, g);
        assert(passive_at(s, i, g));
        assert forall|j: int, h: Seq<Seq<char>>| #[trigger] passive_at(s, j, h) implies i <= j by {
            assert(at(j, h));
        }
    } else {
        assert forall|i: int, g: Seq<Seq<char>>| !#[trigger] passive_at(s, i, g) by {
            assert(!at(i, g));
        }
    }
}

/// What is found in a reply on a modification time is the leftmost of all time stamps in
/// it, and nothing is found only if there is no time stamp in it.
pub proof fn law_leftmost_time_stamp(s: Seq<char>)
    ensures
        time_stamp_groups(s) matches Some(g) ==> exists|i: int| #[trigger] time_stamp_at(s, i, g)
            && forall|j: int, h: Seq<Seq<char>>| #[trigger] time_stamp_at(s, j, h) ==> i <= j,
        time_stamp_groups(s) is None ==> forall|i: int, g: Seq<Seq<char>>|
            !#[trigger] time_stamp_at(s, i, g),
{
    let at = |i: int, g: Seq<Seq<char>>| time_stamp_at(s, i, g);
    assert forall|i: int, g: Seq<Seq<char>>, h: Seq<Seq<char>>| #[trigger]
        at(i, g) && #[trigger] at(i, h) implies g == h by {
        lemma_time_stamp_unique(s, i, g, h);
    }
    lemma_first_is_first(at);
    if let Some(g) = time_stamp_groups(s) {
        let i = choose|i: int| #[trigger] is_leftmost(at, i, g);
        assert(time_stamp_at(s, i, g));
        assert forall|j: int, h: Seq<Seq<char>>| #[trigger] time_stamp_at(s, j, h) implies i
            <= j by {
            assert(at(j, h));
        }
    } else {
        assert forall|i: int, g: Seq<Seq<char>>| !#[trigger] time_stamp_at(s, i, g) by {
            assert(!at(i, g));
        }
    }
}

/// What is found in a reply on a size is the number at its end, and nothing is found only
/// if there is no such number.
pub proof fn law_leftmost_trailing_number(s: Seq<char>)
    ensures
        trailing_number_groups(s) matches Some(g) ==> exists|i: int| #[trigger]
            trailing_number_at(s, i, g) && forall|j: int, h: Seq<Seq<char>>| #[trigger]
                trailing_number_at(s, j, h) ==> i <= j,
        trailing_number_groups(s) is None ==> forall|i: int, g: Seq<Seq<char>>|
            !#[trigger] trailing_number_at(s, i, g),
{
    let at = |i: int, g: Seq<Seq<char>>| trailing_number_at(s, i, g);
    assert forall|i: int, g: Seq<Seq<char>>, h: Seq<Seq<char>>| #[trigger]
        at(i, g) && #[trigger] at(i, h) implies g == h by {
        lemma_trailing_number_unique(s, i, g, h);
    }
    lemma_first_is_first(at);
    if let Some(g) = trailing_number_groups(s) {
        let i = choose|i: int| #[trigger] is_leftmost(at, i, g);
        assert(trailing_number_at(s, i, g));
        assert forall|j: int, h: Seq<Seq<char>>| #[trigger] trailing_number_at(s, j, h) implies i
            <= j by {
            assert(at(j, h));
        }
    } else {
        assert forall|i: int, g: Seq<Seq<char>>| !#[trigger] trailing_number_at(s, i, g) by {
            assert(!at(i, g));
        }
    }
}

/// A number that stands before a character of no number is determined by where
/// it begins, and so is where the text behind that character begins.
proof fn lemma_number_end(
    s: Seq<char>,
    a: Seq<char>,
    b: Seq<char>,
    c: char,
    x: Seq<char>,
    y: Seq<char>,
)
    requires
        is_number(a),
        is_number(b),
        !is_decimal(c),
        (a + seq![c] + x).is_prefix_of(s),
        (b + seq![c] + y).is_prefix_of(s),
    ensures
        a == b,
        x.is_prefix_of(s.skip(a.len() as int + 1)),
        y.is_prefix_of(s.skip(a.len() as int + 1)),
{
    let ax = a + seq![c] + x;
    let by = b + seq![c] + y;
    let t = s.skip(a.len() as int + 1);
    assert(forall|k: int| 0 <= k < ax.len() ==> ax[k] == #[trigger] s[k]);
    assert(forall|k: int| 0 <= k < by.len() ==> by[k] == #[trigger] s[k]);
    if a.len() < b.len() {
        let k = a.len() as int;
        assert(s[k] == ax[k] == c);
        assert(s[k] == by[k] == b[k]);
    } else if b.len() < a.len() {
        let k = b.len() as int;
        assert(s[k] == by[k] == c);
        assert(s[k] == ax[k] == a[k]);
    }
    assert forall|k: int| 0 <= k < a.len() implies a[k] == b[k] by {
        assert(s[k] == ax[k] && s[k] == by[k]);
    }
    assert(a == b);
    assert forall|k: int| 0 <= k < x.len() implies x[k] == t[k] by {
        assert(ax[a.len() + 1 + k] == s[a.len() + 1 + k]);
    }
    assert forall|k: int| 0 <= k < y.len() implies y[k] == t[k] by {
        assert(by[a.len() + 1 + k] == s[a.len() + 1 + k]);
    }
    assert(x =~= t.subrange(0, x.len() as int));
    assert(y =~= t.subrange(0, y.len() as int));
}

/// What follows the opening bracket of `passive_text(g)`, from the group `k` on.
spec fn passive_rest(g: Seq<Seq<char>>, k: int) -> Seq<char>
    decreases 6 - k,
{
    if k >= 5 {
        g[5] + seq![')']
    } else {
        g[k] + seq![','] + passive_rest(g, k + 1)
    }
}

/// The text of an address is its opening bracket and what follows it.
proof fn lemma_passive_rest(g: Seq<Seq<char>>)
    ensures
        passive_text(g) == seq!['('] + passive_rest(g, 0),
{
    reveal_with_fuel(passive_rest, 6);
    assert(passive_text(g) =~= seq!['('] + passive_rest(g, 0));
}

/// Groups of which the text begins `s` in the same way are the same groups.
proof fn lemma_passive_groups_agree(s: Seq<char>, g: Seq<Seq<char>>, h: Seq<Seq<char>>, k: int)
    requires
        0 <= k < 6,
        g.len() == 6,
        h.len() == 6,
        forall|i: int| 0 <= i < 6 ==> is_number(#[trigger] g[i]),
        forall|i: int| 0 <= i < 6 ==> is_number(#[trigger] h[i]),
        passive_rest(g, k).is_prefix_of(s),
        passive_rest(h, k).is_prefix_of(s),
    ensures
        forall|i: int| k <= i < 6 ==> g[i] == #[trigger] h[i],
    decreases 6 - k,
{
    if k == 5 {
        let none = Seq::<char>::empty();
        assert(passive_rest(g, k) =~= g[5] + seq![')'] + none);
        assert(passive_rest(h, k) =~= h[5] + seq![')'] + none);
        lemma_number_end(s, g[5], h[5], ')', none, none);
    } else {
        let x = passive_rest(g, k + 1);
        let y = passive_rest(h, k + 1);
        lemma_number_end(s, g[k], h[k], ',', x, y);
        lemma_passive_groups_agree(s.skip(g[k].len() as int + 1), g, h, k + 1);
    }
}

/// `PASSIVE` matches at an index with one list of groups only.
pub proof fn lemma_passive_unique(s: Seq<char>, i: int, g: Seq<Seq<char>>, h: Seq<Seq<char>>)
    requires
        passive_at(s, i, g),
        passive_at(s, i, h),
    ensures
        g == h,
{
    lemma_passive_rest(g);
    lemma_passive_rest(h);
    let t = s.skip(i);
    let u = t.skip(1);
    let x = passive_rest(g, 0);
    let y = passive_rest(h, 0);
    assert forall|k: int| 0 <= k < x.len() implies x[k] == u[k] by {
        assert(passive_text(g)[k + 1] == t[k + 1]);
    }
    assert forall|k: int| 0 <= k < y.len() implies y[k] == u[k] by {
        assert(passive_text(h)[k + 1] == t[k + 1]);
    }
    assert(x =~= u.subrange(0, x.len() as int));
    assert(y =~= u.subrange(0, y.len() as int));
    lemma_passive_groups_agree(u, g, h, 0);
    assert(g =~= h);
}

/// `TIME_STAMP` matches at an index with one list of groups only.
pub proof fn lemma_time_stamp_unique(s: Seq<char>, i: int, g: Seq<Seq<char>>, h: Seq<Seq<char>>)
    requires
        time_digits_at(s, i, g),
        time_digits_at(s, i, h),
    ensures
        g == h,
{
    let t = s.skip(i);
    let x = g[0] + g[1] + g[2] + g[3] + g[4] + g[5];
    let y = h[0] + h[1] + h[2] + h[3] + h[4] + h[5];
    assert(x =~= y);
    assert forall|k: int| 0 <= k < 6 implies g[k] == h[k] by {
        let start = if k == 0 {
            0
        } else {
            2 + 2 * k
        };
        assert(g[k] =~= x.subrange(start, start + g[k].len()));
        assert(h[k] =~= y.subrange(start, start + h[k].len()));
    }
    assert(g =~= h);
}

/// A decimal digit is no white space.
pub(crate) proof fn lemma_decimal_is_no_space(c: char)
    requires
        is_decimal(c),
    ensures
        !is_space(c),
{
}

/// `TRAILING_NUMBER` matches at an index with one list of groups only.
pub proof fn lemma_trailing_number_unique(
    s: Seq<char>,
    i: int,
    g: Seq<Seq<char>>,
    h: Seq<Seq<char>>,
)
    requires
        trailing_number_at(s, i, g),
        trailing_number_at(s, i, h),
    ensures
        g == h,
{
    let t = s.skip(i);
    let (a, b) = choose|a: Seq<char>, b: Seq<char>|
        a.len() > 0 && is_blank(a) && is_blank(b) && t == #[trigger] (a + g[0] + b);
    let (c, d) = choose|c: Seq<char>, d: Seq<char>|
        c.len() > 0 && is_blank(c) && is_blank(d) && t == #[trigger] (c + h[0] + d);
    let x = g[0];
    let y = h[0];
    lemma_number_between_blanks(t, a, x, b, c, y, d);
    assert(g =~= h);
}

/// A number between blanks is determined by the text that they make up.
proof fn lemma_number_between_blanks(
    t: Seq<char>,
    a: Seq<char>,
    x: Seq<char>,
    b: Seq<char>,
    c: Seq<char>,
    y: Seq<char>,
    d: Seq<char>,
)
    requires
        is_blank(a),
        is_blank(b),
        is_blank(c),
        is_blank(d),
        is_number(x),
        is_number(y),
        t == a + x + b,
        t == c + y + d,
    ensures
        x == y,
{
    assert forall|k: int| 0 <= k < t.len() implies (#[trigger] is_space(t[k]) <==> !(a.len() <= k
        < a.len() + x.len())) by {
        if a.len() <= k < a.len() + x.len() {
            assert(t[k] == x[k - a.len()]);
            lemma_decimal_is_no_space(t[k]);
        } else if k < a.len() {
            assert(t[k] == a[k]);
        } else {
            assert(t[k] == b[k - a.len() - x.len()]);
        }
    }
    assert forall|k: int| 0 <= k < t.len() implies (#[trigger] is_space(t[k]) <==> !(c.len() <= k
        < c.len() + y.len())) by {
        if c.len() <= k < c.len() + y.len() {
            assert(t[k] == y[k - c.len()]);
            lemma_decimal_is_no_space(t[k]);
        } else if k < c.len() {
            assert(t[k] == c[k]);
        } else {
            assert(t[k] == d[k - c.len() - y.len()]);
        }
    }
    let first = if a.len() < c.len() {
        a.len() as int
    } else {
        c.len() as int
    };
    assert(a.len() == c.len()) by {
        let space = is_space(t[first]);
    }
    let last = if x.len() < y.len() {
        a.len() + y.len() - 1
    } else {
        a.len() + x.len() - 1
    };
    assert(x.len() == y.len()) by {
        let space = is_space(t[last]);
    }
    assert(x =~= t.subrange(a.len() as int, a.len() as int + x.len()));
    assert(y =~= t.subrange(c.len() as int, c.len() as int + y.len()));
}

/// Searches `text` for the address of a passive reply.
pub fn find_passive(text: &str) -> (r: Option<Vec<String>>)
    ensures
        groups_view(r) == passive_groups(text@),
{
    let r: Option<Vec<String>> = captures(PASSIVE, text);
    proof {
        let at = |i: int, g: Seq<Seq<char>>| passive_at(text@, i, g);
        assert forall|i: int, g: Seq<Seq<char>>, h: Seq<Seq<char>>| #[trigger]
            at(i, g) && #[trigger] at(i, h) implies g == h by {
            lemma_passive_unique(text@, i, g, h);
        }
        lemma_first(at, groups_view(r));
    }
    r
}

/// Searches `text` for the digits of a time stamp.
pub fn find_time_stamp(text: &str) -> (r: Option<Vec<String>>)
    ensures
        groups_view(r) == time_stamp_groups(text@),
{
    let r: Option<Vec<String>> = captures(TIME_STAMP, text);
    proof {
        let at = |i: int, g: Seq<Seq<char>>|
            time_digits_at(text@, i, g) && (i > 0 ==> !is_word_if(
                text@[i - 1],
                unicode_word(text@[i - 1]),
            )) && (i + 14 < text@.len() ==> !is_word_if(
                text@[i + 14],
                unicode_word(text@[i + 14]),
            ));
        assert(at =~= (|i: int, g: Seq<Seq<char>>| time_stamp_at(text@, i, g)));
        assert forall|i: int, g: Seq<Seq<char>>, h: Seq<Seq<char>>| #[trigger]
            at(i, g) && #[trigger] at(i, h) implies g == h by {
            lemma_time_stamp_unique(text@, i, g, h);
        }
        lemma_first(at, groups_view(r));
    }
    r
}

/// Searches `text` for the number at its end.
pub fn find_trailing_number(text: &str) -> (r: Option<Vec<String>>)
    ensures
        groups_view(r) == trailing_number_groups(text@),
{
    let r: Option<Vec<String>> = captures(TRAILING_NUMBER, text);
    proof {
        let at = |i: int, g: Seq<Seq<char>>| trailing_number_at(text@, i, g);
        assert forall|i: int, g: Seq<Seq<char>>, h: Seq<Seq<char>>| #[trigger]
            at(i, g) && #[trigger] at(i, h) implies g == h by {
            lemma_trailing_number_unique(text@, i, g, h);
        }
        lemma_first(at, groups_view(r));
    }
    r
}

} // verus!

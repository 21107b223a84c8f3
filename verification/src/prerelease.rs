//! Pre-release tags: their syntax, their order, and the next tag after a given one.

use std::cmp::Ordering;
use vstd::prelude::*;
use vstd::string::*;

verus! {

/// How one value stands to another in an order.
#[derive(Clone, Copy, PartialEq, Eq, Structural, Debug)]
pub enum Precedence {
    Lower,
    Same,
    Higher,
}

impl Precedence {
    /// The same comparison seen from the other side.
    pub open spec fn reversed(self) -> Precedence {
        match self {
            Precedence::Lower => Precedence::Higher,
            Precedence::Same => Precedence::Same,
            Precedence::Higher => Precedence::Lower,
        }
    }
}

/// An ASCII digit.
pub open spec fn is_digit(c: char) -> bool {
    '0' <= c && c <= '9'
}

/// A character that may stand in an identifier: an ASCII letter, a digit or a hyphen.
pub open spec fn is_identifier_char(c: char) -> bool {
    is_digit(c) || ('A' <= c && c <= 'Z') || ('a' <= c && c <= 'z') || c == '-'
}

/// Every character of `s` is a digit.
pub open spec fn all_digits(s: Seq<char>) -> bool {
    forall|i: int| 0 <= i < s.len() ==> is_digit(#[trigger] s[i])
}

/// Every character of `s` may stand in an identifier.
pub open spec fn all_identifier_chars(s: Seq<char>) -> bool {
    forall|i: int| 0 <= i < s.len() ==> is_identifier_char(#[trigger] s[i])
}

/// One identifier: not empty, made of identifier characters, and without a leading
/// zero where it is a number of more than one digit.
pub open spec fn is_identifier(s: Seq<char>) -> bool {
    &&& s.len() > 0
    &&& all_identifier_chars(s)
    &&& (all_digits(s) && s.len() > 1 ==> s[0] != '0')
}

/// The index of the last dot of `s`, or -1 where it has none.
pub open spec fn last_dot(s: Seq<char>) -> int
    decreases s.len(),
{
    if s.len() == 0 {
        -1
    } else if s.last() == '.' {
        s.len() - 1
    } else {
        last_dot(s.drop_last())
    }
}

/// One or more identifiers, separated by dots.
pub open spec fn is_identifier_list(s: Seq<char>) -> bool
    decreases s.len(),
{
    let k = last_dot(s);
    &&& is_identifier(s.subrange(k + 1, s.len() as int))
    &&& if 0 <= k < s.len() {
        is_identifier_list(s.subrange(0, k))
    } else {
        true
    }
}

/// The syntax of a pre-release tag: empty (a release), or a list of identifiers.
pub open spec fn is_prerelease(s: Seq<char>) -> bool {
    s.len() == 0 || is_identifier_list(s)
}

/// The longest text, in bytes, that this library hands to the `semver` crate,
/// which panics on texts that it cannot store: close to 2 GiB on a 32-bit
/// machine.
pub const MAX_TEXT_LENGTH: usize = 0x7fff_0000;

/// A pre-release tag that is short enough to be stored.
pub open spec fn is_tag(s: Seq<char>) -> bool {
    is_prerelease(s) && s.len() <= MAX_TEXT_LENGTH
}

/// The number that a digit stands for.
pub open spec fn digit_value(c: char) -> nat {
    (c as int - '0' as int) as nat
}

/// The number that a decimal numeral stands for.
pub open spec fn decimal_value(s: Seq<char>) -> nat
    decreases s.len(),
{
    if s.len() == 0 {
        0
    } else {
        decimal_value(s.drop_last()) * 10 + digit_value(s.last())
    }
}

/// The tag `b` is the tag `a` with more identifiers after it.
pub open spec fn extends(a: Seq<char>, b: Seq<char>) -> bool {
    &&& 0 < a.len() < b.len()
    &&& b.subrange(0, a.len() as int) == a
    &&& b[a.len() as int] == '.'
}

/// The tags `a` and `b` differ in their last identifier only, which is a number
/// in both and the greater number in `b`.
pub open spec fn counts_up(a: Seq<char>, b: Seq<char>) -> bool {
    let k = last_dot(a);
    let last_of_a = a.subrange(k + 1, a.len() as int);
    let last_of_b = b.subrange(k + 1, b.len() as int);
    &&& a.len() > 0
    &&& last_dot(b) == k
    &&& b.subrange(0, k + 1) == a.subrange(0, k + 1)
    &&& all_digits(last_of_a)
    &&& all_digits(last_of_b)
    &&& decimal_value(last_of_a) < decimal_value(last_of_b)
}

/// The order of two pre-release tags under semantic-version precedence, as the
/// `semver` crate computes it.
pub uninterp spec fn prerelease_order(a: Seq<char>, b: Seq<char>) -> Precedence;

/// Compares two pre-release tags.
///
/// Calls `semver::Prerelease::new` on each text and `Ord::cmp` on the two tags.
/// The contract claims that the crate takes every text of the documented syntax
/// as a tag, and stores it without a panic if it is no longer than
/// `MAX_TEXT_LENGTH`. It names the result of the comparison, and claims of it
/// what the crate documents of this order:
/// - it is total: equal texts compare as the same, swapping the sides reverses
///   the result, and what is not above `a` is below whatever `a` is below;
/// - no tag, which marks a release, is above every tag;
/// - a tag is below the same tag with more identifiers after it;
/// - identifiers that are numbers are compared as numbers.
#[verifier::external_body]
pub(crate) fn compare_prerelease(a: &str, b: &str) -> (r: Precedence)
    requires
        is_tag(a@),
        is_tag(b@),
    ensures
        r == prerelease_order(a@, b@),
        a@ == b@ ==> r is Same,
        r.reversed() == prerelease_order(b@, a@),
        r is Lower ==> forall|c: Seq<char>|
            is_prerelease(c) && !(#[trigger] prerelease_order(c, a@) is Higher)
                ==> prerelease_order(c, b@) is Lower,
        a@.len() == 0 && b@.len() > 0 ==> r is Higher,
        extends(a@, b@) ==> r is Lower,
        counts_up(a@, b@) ==> r is Lower,
{
    let left = semver::Prerelease::new(a).unwrap_or_default();
    let right = semver::Prerelease::new(b).unwrap_or_default();
    match left.cmp(&right) {
        Ordering::Less => Precedence::Lower,
        Ordering::Equal => Precedence::Same,
        Ordering::Greater => Precedence::Higher,
    }
}

/// The digit after `c`, for a digit below nine.
pub open spec fn next_digit(c: char) -> char {
    ((c as u32) + 1) as char
}

/// The decimal numeral after `s`: the numeral of the number of `s` plus one.
pub open spec fn successor(s: Seq<char>) -> Seq<char>
    decreases s.len(),
{
    if s.len() == 0 {
        seq!['1']
    } else if s.last() == '9' {
        successor(s.drop_last()).push('0')
    } else {
        s.drop_last().push(next_digit(s.last()))
    }
}

/// The numeral after a numeral stands for the number after its number.
pub proof fn lemma_successor_counts_up(s: Seq<char>)
    requires
        all_digits(s),
    ensures
        decimal_value(successor(s)) == decimal_value(s) + 1,
    decreases s.len(),
{
    if s.len() == 0 {
        let one = seq!['1'];
        assert(one.drop_last() =~= Seq::<char>::empty());
        assert(decimal_value(one.drop_last()) == 0);
    } else if s.last() == '9' {
        let rest = s.drop_last();
        assert forall|i: int| 0 <= i < rest.len() implies is_digit(#[trigger] rest[i]) by {
            assert(rest[i] == s[i]);
        }
        lemma_successor_counts_up(rest);
        assert(successor(rest).push('0').drop_last() =~= successor(rest));
    } else {
        let rest = s.drop_last();
        assert(is_digit(s.last()));
        assert(rest.push(next_digit(s.last())).drop_last() =~= rest);
    }
}

/// The tag after `s`: its last identifier counted up where that is a number, a
/// new counter `0` appended where it is not.
pub open spec fn next_prerelease(s: Seq<char>) -> Seq<char> {
    let k = last_dot(s);
    let tail = s.subrange(k + 1, s.len() as int);
    if s.len() == 0 {
        seq!['0']
    } else if all_digits(tail) {
        s.subrange(0, k + 1) + successor(tail)
    } else {
        s + seq!['.', '0']
    }
}

/// `m` times the character `c`.
pub open spec fn repeated(c: char, m: nat) -> Seq<char> {
    Seq::new(m, |i: int| c)
}

/// `last_dot` gives the index of a dot after which no dot follows.
pub proof fn lemma_last_dot(s: Seq<char>)
    ensures
        -1 <= last_dot(s) < s.len(),
        last_dot(s) >= 0 ==> s[last_dot(s)] == '.',
        forall|i: int| last_dot(s) < i < s.len() ==> #[trigger] s[i] != '.',
    decreases s.len(),
{
    if s.len() > 0 && s.last() != '.' {
        let d = s.drop_last();
        lemma_last_dot(d);
        assert forall|i: int| last_dot(s) < i < s.len() implies #[trigger] s[i] != '.' by {
            if i < d.len() {
                assert(s[i] == d[i]);
            }
        }
    }
}

/// An index with a dot, or -1, after which no dot follows is `last_dot`.
pub proof fn lemma_last_dot_is(s: Seq<char>, k: int)
    requires
        -1 <= k < s.len(),
        k >= 0 ==> s[k] == '.',
        forall|i: int| k < i < s.len() ==> #[trigger] s[i] != '.',
    ensures
        last_dot(s) == k,
    decreases s.len(),
{
    if s.len() > 0 && s.last() != '.' {
        lemma_last_dot_is(s.drop_last(), k);
    }
}

/// A range is all digits where its first character is a digit and the rest is
/// all digits; and likewise for identifier characters.
pub proof fn lemma_extend_left(s: Seq<char>, start: int, end: int)
    requires
        0 < start <= end <= s.len(),
    ensures
        all_digits(s.subrange(start - 1, end)) == (is_digit(s[start - 1]) && all_digits(
            s.subrange(start, end),
        )),
        all_identifier_chars(s.subrange(start - 1, end)) == (is_identifier_char(s[start - 1])
            && all_identifier_chars(s.subrange(start, end))),
{
    let shorter = s.subrange(start, end);
    let longer = s.subrange(start - 1, end);
    assert(longer[0] == s[start - 1]);
    assert forall|i: int| 0 <= i < shorter.len() implies shorter[i] == longer[i + 1] by {}
    if all_digits(longer) {
        assert forall|i: int| 0 <= i < shorter.len() implies is_digit(#[trigger] shorter[i]) by {
            assert(is_digit(longer[i + 1]));
        }
    }
    if all_digits(shorter) && is_digit(longer[0]) {
        assert forall|i: int| 0 <= i < longer.len() implies is_digit(#[trigger] longer[i]) by {
            if i > 0 {
                assert(is_digit(shorter[i - 1]));
            }
        }
    }
    if all_identifier_chars(longer) {
        assert forall|i: int| 0 <= i < shorter.len() implies is_identifier_char(
            #[trigger] shorter[i],
        ) by {
            assert(is_identifier_char(longer[i + 1]));
        }
    }
    if all_identifier_chars(shorter) && is_identifier_char(longer[0]) {
        assert forall|i: int| 0 <= i < longer.len() implies is_identifier_char(
            #[trigger] longer[i],
        ) by {
            if i > 0 {
                assert(is_identifier_char(shorter[i - 1]));
            }
        }
    }
}

/// A list of identifiers holds identifier characters and dots only.
pub proof fn lemma_identifier_list_chars(s: Seq<char>)
    requires
        is_identifier_list(s),
    ensures
        forall|i: int| 0 <= i < s.len() ==> is_identifier_char(#[trigger] s[i]) || s[i] == '.',
    decreases s.len(),
{
    let k = last_dot(s);
    lemma_last_dot(s);
    let tail = s.subrange(k + 1, s.len() as int);
    if k >= 0 {
        lemma_identifier_list_chars(s.subrange(0, k));
    }
    assert forall|i: int| 0 <= i < s.len() implies is_identifier_char(#[trigger] s[i]) || s[i]
        == '.' by {
        if i > k {
            assert(s[i] == tail[i - k - 1]);
        } else if i < k {
            assert(s[i] == s.subrange(0, k)[i]);
        }
    }
}

/// A pre-release tag is ASCII text.
pub proof fn lemma_prerelease_is_ascii(s: Seq<char>)
    requires
        is_prerelease(s),
    ensures
        vstd::utf8::is_ascii_chars(s),
{
    if s.len() > 0 {
        lemma_identifier_list_chars(s);
    }
}

/// The numeral after a numeral is a numeral, no shorter and longer by one digit
/// at most, and starts with no zero where the first did not.
pub proof fn lemma_successor_digits(t: Seq<char>)
    requires
        all_digits(t),
    ensures
        all_digits(successor(t)),
        t.len() <= successor(t).len() <= t.len() + 1,
        successor(t).len() >= 1,
        t.len() == 0 || t[0] != '0' ==> successor(t)[0] != '0',
    decreases t.len(),
{
    if t.len() == 0 {
    } else if t.last() == '9' {
        let d = t.drop_last();
        assert forall|i: int| 0 <= i < d.len() implies is_digit(#[trigger] d[i]) by {
            assert(d[i] == t[i]);
        }
        lemma_successor_digits(d);
    } else {
        assert(is_digit(t.last()));
        assert(is_digit(next_digit(t.last())));
        assert(next_digit(t.last()) != '0');
    }
}

/// Counting up past trailing nines turns them into zeros.
pub proof fn lemma_successor_nines(p: Seq<char>, m: nat)
    ensures
        successor(p + repeated('9', m)) == successor(p) + repeated('0', m),
    decreases m,
{
    let whole = p + repeated('9', m);
    if m == 0 {
        assert(whole =~= p);
        assert(successor(p) + repeated('0', m) =~= successor(p));
    } else {
        let less = (m - 1) as nat;
        assert(whole.last() == '9');
        assert(whole.drop_last() =~= p + repeated('9', less));
        lemma_successor_nines(p, less);
        assert((successor(p) + repeated('0', less)).push('0') =~= successor(p) + repeated(
            '0',
            m,
        ));
    }
}

/// The tag after a pre-release tag is a pre-release tag, longer by two
/// characters at most.
pub proof fn lemma_next_prerelease_valid(s: Seq<char>)
    requires
        is_prerelease(s),
    ensures
        is_prerelease(next_prerelease(s)),
        next_prerelease(s).len() <= s.len() + 2,
{
    let k = last_dot(s);
    let tail = s.subrange(k + 1, s.len() as int);
    let next = next_prerelease(s);
    lemma_last_dot(s);
    if s.len() == 0 {
        lemma_last_dot_is(next, -1);
        assert(next.subrange(0, 1) =~= next);
        assert(is_identifier(next));
    } else if all_digits(tail) {
        let up = successor(tail);
        lemma_successor_digits(tail);
        assert forall|i: int| k < i < next.len() implies #[trigger] next[i] != '.' by {
            assert(next[i] == up[i - k - 1]);
            assert(is_digit(up[i - k - 1]));
        }
        lemma_last_dot_is(next, k);
        assert(next.subrange(k + 1, next.len() as int) =~= up);
        assert(tail[0] == s[k + 1]);
        assert(is_identifier(up));
        if k >= 0 {
            assert(next.subrange(0, k) =~= s.subrange(0, k));
        }
    } else {
        let n = s.len() as int;
        lemma_last_dot_is(next, n);
        assert(next.subrange(n + 1, next.len() as int) =~= seq!['0']);
        assert(is_identifier(seq!['0']));
        assert(next.subrange(0, n) =~= s);
    }
}

/// The tag after a pre-release tag is that tag with a counter after it, or with
/// its last number counted up.
pub proof fn lemma_next_prerelease_follows(s: Seq<char>)
    requires
        is_prerelease(s),
        s.len() > 0,
    ensures
        extends(s, next_prerelease(s)) || counts_up(s, next_prerelease(s)),
{
    let k = last_dot(s);
    let tail = s.subrange(k + 1, s.len() as int);
    let next = next_prerelease(s);
    lemma_last_dot(s);
    if all_digits(tail) {
        let up = successor(tail);
        lemma_successor_digits(tail);
        lemma_successor_counts_up(tail);
        assert forall|i: int| k < i < next.len() implies #[trigger] next[i] != '.' by {
            assert(next[i] == up[i - k - 1]);
            assert(is_digit(up[i - k - 1]));
        }
        lemma_last_dot_is(next, k);
        assert(next.subrange(k + 1, next.len() as int) =~= up);
        assert(next.subrange(0, k + 1) =~= s.subrange(0, k + 1));
        assert(counts_up(s, next));
    } else {
        assert(next.subrange(0, s.len() as int) =~= s);
        assert(extends(s, next));
    }
}

/// The ASCII codes that the syntax of a tag speaks of.
const DOT: u8 = 46;

const HYPHEN: u8 = 45;

const ZERO: u8 = 48;

const NINE: u8 = 57;

const UPPER_A: u8 = 65;

const UPPER_Z: u8 = 90;

const LOWER_A: u8 = 97;

const LOWER_Z: u8 = 122;

/// The text of one digit, given as its ASCII code.
fn digit_text(code: u8) -> (text: &'static str)
    requires
        ZERO <= code <= NINE,
    ensures
        text@ == seq![code as char],
{
    proof {
        reveal_strlit("0");
        reveal_strlit("1");
        reveal_strlit("2");
        reveal_strlit("3");
        reveal_strlit("4");
        reveal_strlit("5");
        reveal_strlit("6");
        reveal_strlit("7");
        reveal_strlit("8");
        reveal_strlit("9");
    }
    let digit = code - ZERO;
    let text = if digit == 0 {
        "0"
    } else if digit == 1 {
        "1"
    } else if digit == 2 {
        "2"
    } else if digit == 3 {
        "3"
    } else if digit == 4 {
        "4"
    } else if digit == 5 {
        "5"
    } else if digit == 6 {
        "6"
    } else if digit == 7 {
        "7"
    } else if digit == 8 {
        "8"
    } else {
        "9"
    };
    assert(text@ =~= seq![code as char]);
    text
}

/// Appends `count` zeros to `text`.
fn append_zeros(text: &mut String, count: usize)
    ensures
        final(text)@ == old(text)@ + repeated('0', count as nat),
{
    let mut done: usize = 0;
    assert(text@ =~= old(text)@ + repeated('0', 0));
    while done < count
        invariant
            done <= count,
            text@ == old(text)@ + repeated('0', done as nat),
        decreases count - done,
    {
        text.append(digit_text(ZERO));
        done += 1;
        assert(text@ =~= old(text)@ + repeated('0', done as nat));
    }
}

/// The tag after the pre-release tag `pre`.
///
/// A tag that ends in a number has that number counted up (`rc.9` gives `rc.10`);
/// any other tag gets a counter of its own (`rc` gives `rc.0`, and no tag gives `0`).
#[verifier::rlimit(50)]
pub fn next_prerelease_text(pre: &str) -> (next: String)
    requires
        is_prerelease(pre@),
    ensures
        next@ == next_prerelease(pre@),
        is_prerelease(next@),
{
    broadcast use is_ascii_spec_bytes;

    proof {
        lemma_prerelease_is_ascii(pre@);
        lemma_next_prerelease_valid(pre@);
        lemma_last_dot(pre@);
        vstd::utf8::is_ascii_chars_encode_utf8(pre@);
    }
    let n = pre.as_bytes().len();
    if n == 0 {
        proof {
            reveal_strlit("0");
        }
        let next = String::from_str("0");
        assert(next@ =~= seq!['0']);
        return next;
    }
    let mut start: usize = n;
    let mut numeric = true;
    while start > 0
        invariant
            n == pre@.len(),
            is_ascii(pre),
            start <= n,
            forall|i: int| start <= i < n ==> #[trigger] pre@[i] != '.',
            numeric == all_digits(pre@.subrange(start as int, n as int)),
        ensures
            start <= n,
            start == 0 || pre@[start - 1] == '.',
            forall|i: int| start <= i < n ==> #[trigger] pre@[i] != '.',
            numeric == all_digits(pre@.subrange(start as int, n as int)),
        decreases start,
    {
        let code = pre.get_ascii(start - 1);
        if code == DOT {
            break ;
        }
        proof {
            lemma_extend_left(pre@, start as int, n as int);
        }
        if code < ZERO || code > NINE {
            numeric = false;
        }
        start -= 1;
    }
    proof {
        lemma_last_dot_is(pre@, start - 1);
    }
    let ghost tail = pre@.subrange(start as int, n as int);
    if !numeric {
        proof {
            reveal_strlit(".0");
        }
        let mut next = String::from_str(pre);
        next.append(".0");
        assert(next@ =~= pre@ + seq!['.', '0']);
        return next;
    }
    let mut cut: usize = n;
    while cut > start
        invariant
            n == pre@.len(),
            is_ascii(pre),
            start <= cut <= n,
            forall|i: int| cut <= i < n ==> #[trigger] pre@[i] == '9',
        ensures
            start <= cut <= n,
            cut == start || pre@[cut - 1] != '9',
            forall|i: int| cut <= i < n ==> #[trigger] pre@[i] == '9',
        decreases cut,
    {
        let code = pre.get_ascii(cut - 1);
        if code != NINE {
            break ;
        }
        cut -= 1;
    }
    let ghost head = pre@.subrange(start as int, cut as int);
    let ghost nines = (n - cut) as nat;
    proof {
        assert(tail =~= head + repeated('9', nines));
        lemma_successor_nines(head, nines);
    }
    let mut next;
    if cut == start {
        proof {
            reveal_strlit("1");
        }
        next = String::from_str(pre.substring_ascii(0, start));
        next.append("1");
        assert(head =~= Seq::<char>::empty());
        assert(next@ =~= pre@.subrange(0, start as int) + successor(head));
    } else {
        let code = pre.get_ascii(cut - 1);
        proof {
            assert(is_digit(tail[cut - 1 - start]));
            assert(head.last() == pre@[cut - 1]);
            assert(((code + 1) as u8) as char == next_digit(pre@[cut - 1]));
        }
        next = String::from_str(pre.substring_ascii(0, cut - 1));
        next.append(digit_text(code + 1));
        assert(next@ =~= pre@.subrange(0, start as int) + successor(head));
    }
    append_zeros(&mut next, n - cut);
    assert(next@ =~= pre@.subrange(0, start as int) + successor(tail));
    next
}

/// Whether `code` is the ASCII code of an identifier character.
fn is_identifier_code(code: u8) -> (ok: bool)
    requires
        code < 128,
    ensures
        ok == is_identifier_char(code as char),
{
    (ZERO <= code && code <= NINE) || (UPPER_A <= code && code <= UPPER_Z) || (LOWER_A <= code && code
        <= LOWER_Z) || code == HYPHEN
}

/// Whether `text` has the syntax of a pre-release tag: nothing, or identifiers
/// separated by dots, each of them a run of ASCII letters, digits and hyphens that
/// is not empty and, where it is a number of several digits, starts with no zero.
#[verifier::rlimit(50)]
pub fn is_prerelease_text(text: &str) -> (ok: bool)
    ensures
        ok == is_prerelease(text@),
{
    if !text.is_ascii() {
        proof {
            if is_prerelease(text@) {
                lemma_prerelease_is_ascii(text@);
            }
        }
        return false;
    }
    proof {
        vstd::utf8::is_ascii_chars_encode_utf8(text@);
    }
    let n = text.as_bytes().len();
    if n == 0 {
        return true;
    }
    assert(text@.subrange(0, n as int) =~= text@);
    let mut end: usize = n;
    loop
        invariant
            n == text@.len(),
            is_ascii(text),
            end <= n,
            is_prerelease(text@) == is_identifier_list(text@.subrange(0, end as int)),
        decreases end,
    {
        let ghost current = text@.subrange(0, end as int);
        let mut start: usize = end;
        let mut numeric = true;
        let mut clean = true;
        while start > 0
            invariant
                n == text@.len(),
                is_ascii(text),
                start <= end <= n,
                forall|i: int| start <= i < end ==> #[trigger] text@[i] != '.',
                numeric == all_digits(text@.subrange(start as int, end as int)),
                clean == all_identifier_chars(text@.subrange(start as int, end as int)),
            ensures
                start <= end,
                start == 0 || text@[start - 1] == '.',
                forall|i: int| start <= i < end ==> #[trigger] text@[i] != '.',
                numeric == all_digits(text@.subrange(start as int, end as int)),
                clean == all_identifier_chars(text@.subrange(start as int, end as int)),
            decreases start,
        {
            let code = text.get_ascii(start - 1);
            if code == DOT {
                break ;
            }
            proof {
                lemma_extend_left(text@, start as int, end as int);
            }
            if code < ZERO || code > NINE {
                numeric = false;
            }
            if !is_identifier_code(code) {
                clean = false;
            }
            start -= 1;
        }
        let ghost tail = text@.subrange(start as int, end as int);
        proof {
            lemma_last_dot_is(current, start - 1);
            assert(current.subrange(start as int, end as int) =~= tail);
            if start > 0 {
                assert(current.subrange(0, start - 1) =~= text@.subrange(0, start - 1));
            }
        }
        let length = end - start;
        if length == 0 || !clean {
            return false;
        }
        if numeric && length > 1 {
            let first = text.get_ascii(start);
            assert(tail[0] == text@[start as int]);
            if first == ZERO {
                return false;
            }
        }
        if start == 0 {
            return true;
        }
        end = start - 1;
    }
}

} // verus!

//! Small verified string routines shared by the other modules.

use vstd::prelude::*;
use vstd::string::*;

verus! {

/// The decimal digit `d` as a character; `d` is expected to be below ten.
pub open spec fn digit_char(d: int) -> char {
    if d == 0 {
        '0'
    } else if d == 1 {
        '1'
    } else if d == 2 {
        '2'
    } else if d == 3 {
        '3'
    } else if d == 4 {
        '4'
    } else if d == 5 {
        '5'
    } else if d == 6 {
        '6'
    } else if d == 7 {
        '7'
    } else if d == 8 {
        '8'
    } else {
        '9'
    }
}

/// Decimal notation of a natural number, without leading zeros.
pub open spec fn decimal_nat(n: nat) -> Seq<char>
    decreases n,
{
    if n < 10 {
        seq![digit_char(n as int)]
    } else {
        decimal_nat(n / 10).push(digit_char((n % 10) as int))
    }
}

/// Decimal notation of an integer, with a leading minus sign when negative.
pub open spec fn decimal(n: int) -> Seq<char> {
    if n < 0 {
        seq!['-'] + decimal_nat((-n) as nat)
    } else {
        decimal_nat(n as nat)
    }
}

fn digit_text(d: u64) -> (s: &'static str)
    requires
        d < 10,
    ensures
        s@ == seq![digit_char(d as int)],
{
    proof {
        reveal_strlit("0");
        reveal_strlit("1");
        reveal_strlit("2");
        reveal_strlit("3");
        reveal_strlit("4");
        reveal_strlit("5");
        reveal_strlit("6");
        reveal_strlit("7");
        reveal_strlit("8");
        reveal_strlit("9");
    }
    let s = if d == 0 {
        "0"
    } else if d == 1 {
        "1"
    } else if d == 2 {
        "2"
    } else if d == 3 {
        "3"
    } else if d == 4 {
        "4"
    } else if d == 5 {
        "5"
    } else if d == 6 {
        "6"
    } else if d == 7 {
        "7"
    } else if d == 8 {
        "8"
    } else {
        "9"
    };
    assert(s@ =~= seq![digit_char(d as int)]);
    s
}

/// Appends the decimal notation of `n` to `out`.
pub fn push_decimal(out: &mut String, n: u64)
    ensures
        final(out)@ == old(out)@ + decimal_nat(n as nat),
    decreases n,
{
    if n >= 10 {
        push_decimal(out, n / 10);
    }
    out.append(digit_text(n % 10));
    assert(out@ =~= old(out)@ + decimal_nat(n as nat));
}

/// The characters of `s`, in order.
pub fn chars_of(s: &str) -> (chars: Vec<char>)
    ensures
        chars@ == s@,
{
    let mut chars: Vec<char> = Vec::new();
    for c in it: s.chars()
        invariant
            it.seq() == s@,
            chars@ == s@.take(it.index() as int),
    {
        chars.push(c);
        assert(chars@ =~= s@.take(it.index() + 1));
    }
    assert(chars@ =~= s@);
    chars
}

/// The view of an optional text.
pub open spec fn text_view(text: Option<String>) -> Option<Seq<char>> {
    match text {
        Some(t) => Some(t@),
        None => None,
    }
}

/// Whether `prefix` stands at the start of `s`.
pub open spec fn has_prefix(s: Seq<char>, prefix: Seq<char>) -> bool {
    prefix.len() <= s.len() && s.subrange(0, prefix.len() as int) == prefix
}

/// Whether `s` starts with `prefix`.
pub fn starts_with(s: &str, prefix: &str) -> (found: bool)
    ensures
        found == has_prefix(s@, prefix@),
{
    let text = chars_of(s);
    let wanted = chars_of(prefix);
    if wanted.len() > text.len() {
        return false;
    }
    let mut k: usize = 0;
    while k < wanted.len()
        invariant
            k <= wanted.len() <= text.len(),
            text@ == s@,
            wanted@ == prefix@,
            forall|j: int| 0 <= j < k ==> text@[j] == wanted@[j],
        decreases wanted.len() - k,
    {
        if text[k] != wanted[k] {
            assert(s@.subrange(0, prefix@.len() as int)[k as int] != prefix@[k as int]);
            return false;
        }
        k = k + 1;
    }
    assert(s@.subrange(0, prefix@.len() as int) =~= prefix@);
    true
}

/// Whether `needle` occurs in `s` at position `at`.
pub open spec fn occurs_at(s: Seq<char>, needle: Seq<char>, at: int) -> bool {
    0 <= at && at + needle.len() <= s.len() && s.subrange(at, at + needle.len()) == needle
}

/// Whether `needle` occurs somewhere in `s`.
pub open spec fn has_infix(s: Seq<char>, needle: Seq<char>) -> bool {
    exists|at: int| occurs_at(s, needle, at)
}

/// Whether `s` contains `needle`.
pub fn contains(s: &str, needle: &str) -> (found: bool)
    ensures
        found == has_infix(s@, needle@),
{
    let text = chars_of(s);
    let wanted = chars_of(needle);
    if wanted.len() > text.len() {
        assert forall|at: int| !occurs_at(s@, needle@, at) by {}
        return false;
    }
    let last = text.len() - wanted.len();
    let mut at: usize = 0;
    while at <= last
        invariant
            at <= last + 1,
            last == text.len() - wanted.len(),
            text@ == s@,
            wanted@ == needle@,
            forall|before: int| 0 <= before < at ==> !occurs_at(s@, needle@, before),
        decreases last + 1 - at,
    {
        let mut k: usize = 0;
        while k < wanted.len() && text[at + k] == wanted[k]
            invariant
                k <= wanted.len(),
                at <= last,
                last == text.len() - wanted.len(),
                forall|j: int| 0 <= j < k ==> text@[at + j] == wanted@[j],
            decreases wanted.len() - k,
        {
            k = k + 1;
        }
        if k == wanted.len() {
            assert(s@.subrange(at as int, at + needle@.len()) =~= needle@);
            assert(occurs_at(s@, needle@, at as int));
            return true;
        }
        assert(!occurs_at(s@, needle@, at as int)) by {
            if occurs_at(s@, needle@, at as int) {
                assert(s@.subrange(at as int, at + needle@.len())[k as int] == needle@[k as int]);
            }
        }
        at = at + 1;
    }
    assert forall|any: int| !occurs_at(s@, needle@, any) by {}
    false
}

/// The position of the last `c` in `s`, or -1 where `s` holds none.
pub open spec fn last_index_of(s: Seq<char>, c: char) -> int
    decreases s.len(),
{
    if s.len() == 0 {
        -1
    } else if s.last() == c {
        s.len() - 1
    } else {
        last_index_of(s.drop_last(), c)
    }
}

/// What follows the last `c` in `s`; all of `s` where it holds none.
pub open spec fn after_last(s: Seq<char>, c: char) -> Seq<char> {
    s.subrange(last_index_of(s, c) + 1, s.len() as int)
}

/// The part of `s` that follows its last `c`.
pub fn text_after_last(s: &str, c: char) -> (tail: String)
    ensures
        tail@ == after_last(s@, c),
{
    let text = chars_of(s);
    let mut end: usize = text.len();
    assert(s@.take(s@.len() as int) =~= s@);
    while end > 0 && text[end - 1] != c
        invariant
            end <= text.len(),
            text@ == s@,
            last_index_of(s@, c) == last_index_of(s@.take(end as int), c),
        decreases end,
    {
        assert(s@.take(end as int).drop_last() =~= s@.take(end - 1));
        end = end - 1;
    }
    proof {
        if end > 0 {
            assert(s@.take(end as int).last() == c);
        }
        assert(last_index_of(s@, c) == end - 1);
    }
    String::from_str(s.substring_char(end, text.len()))
}

/// Whether `c` is white space: whether it has the Unicode property
/// White_Space, which these code points have and no others.
pub open spec fn is_whitespace(c: char) -> bool {
    let code = c as u32;
    ||| 0x09 <= code <= 0x0D
    ||| code == 0x20
    ||| code == 0x85
    ||| code == 0xA0
    ||| code == 0x1680
    ||| 0x2000 <= code <= 0x200A
    ||| code == 0x2028
    ||| code == 0x2029
    ||| code == 0x202F
    ||| code == 0x205F
    ||| code == 0x3000
}

/// Whether `c` is white space.
pub fn char_is_whitespace(c: char) -> (white: bool)
    ensures
        white == is_whitespace(c),
{
    let code: u32 = c as u32;
    (0x09 <= code && code <= 0x0D) || code == 0x20 || code == 0x85 || code == 0xA0 || code
        == 0x1680 || (0x2000 <= code && code <= 0x200A) || code == 0x2028 || code == 0x2029
        || code == 0x202F || code == 0x205F || code == 0x3000
}

/// The number of white-space characters at the start of `s`.
pub open spec fn leading_whitespace(s: Seq<char>) -> nat
    decreases s.len(),
{
    if s.len() > 0 && is_whitespace(s[0]) {
        1 + leading_whitespace(s.drop_first())
    } else {
        0
    }
}

/// The number of white-space characters at the end of `s`.
pub open spec fn trailing_whitespace(s: Seq<char>) -> nat
    decreases s.len(),
{
    if s.len() > 0 && is_whitespace(s.last()) {
        1 + trailing_whitespace(s.drop_last())
    } else {
        0
    }
}

/// `s` without the white space at its start and at its end.
pub open spec fn trimmed(s: Seq<char>) -> Seq<char> {
    if leading_whitespace(s) == s.len() {
        Seq::empty()
    } else {
        s.subrange(leading_whitespace(s) as int, s.len() - trailing_whitespace(s))
    }
}

/// Both counts stay within `s`, and where `s` is not white space throughout
/// they do not meet: a character that is none stands between them.
pub proof fn lemma_whitespace_counts(s: Seq<char>)
    ensures
        leading_whitespace(s) <= s.len(),
        trailing_whitespace(s) <= s.len(),
        forall|k: int| 0 <= k < leading_whitespace(s) ==> is_whitespace(#[trigger] s[k]),
        forall|k: int|
            s.len() - trailing_whitespace(s) <= k < s.len() ==> is_whitespace(#[trigger] s[k]),
        leading_whitespace(s) < s.len() ==> !is_whitespace(s[leading_whitespace(s) as int]),
        trailing_whitespace(s) < s.len() ==> !is_whitespace(
            s[s.len() - trailing_whitespace(s) - 1],
        ),
        leading_whitespace(s) < s.len() ==> leading_whitespace(s) + trailing_whitespace(s)
            < s.len(),
    decreases s.len(),
{
    if s.len() > 0 {
        let front = s.drop_first();
        let back = s.drop_last();
        lemma_whitespace_counts(front);
        lemma_whitespace_counts(back);
        if is_whitespace(s[0]) {
            assert forall|k: int| 0 <= k < leading_whitespace(s) implies is_whitespace(
                #[trigger] s[k],
            ) by {
                if k > 0 {
                    assert(s[k] == front[k - 1]);
                }
            }
            if leading_whitespace(s) < s.len() {
                assert(s[leading_whitespace(s) as int] == front[leading_whitespace(front) as int]);
            }
        }
        if is_whitespace(s.last()) {
            assert forall|k: int| s.len() - trailing_whitespace(s) <= k < s.len() implies is_whitespace(
                #[trigger] s[k],
            ) by {
                if k < s.len() - 1 {
                    assert(s[k] == back[k]);
                }
            }
            if trailing_whitespace(s) < s.len() {
                assert(s[s.len() - trailing_whitespace(s) - 1] == back[back.len()
                    - trailing_whitespace(back) - 1]);
            }
        }
        if leading_whitespace(s) < s.len() {
            let stop = leading_whitespace(s) as int;
            if s.len() - trailing_whitespace(s) <= stop {
                assert(is_whitespace(s[stop]));
            }
        }
    }
}

/// A trimmed text neither starts nor ends with white space.
pub proof fn lemma_trimmed_ends(s: Seq<char>)
    ensures
        trimmed(s).len() > 0 ==> !is_whitespace(trimmed(s)[0]) && !is_whitespace(trimmed(s).last()),
        leading_whitespace(trimmed(s)) == 0,
        trailing_whitespace(trimmed(s)) == 0,
{
    lemma_whitespace_counts(s);
}

/// Trimming a trimmed text changes nothing.
pub proof fn lemma_trimmed_idempotent(s: Seq<char>)
    ensures
        trimmed(trimmed(s)) == trimmed(s),
{
    lemma_trimmed_ends(s);
    let once = trimmed(s);
    if once.len() > 0 {
        assert(once.subrange(0, once.len() as int) =~= once);
    }
}

/// `s` without the white space at its start and at its end.
pub fn trim(s: &str) -> (out: String)
    ensures
        out@ == trimmed(s@),
{
    let text = chars_of(s);
    let mut start: usize = 0;
    assert(s@.skip(0) =~= s@);
    while start < text.len() && char_is_whitespace(text[start])
        invariant
            start <= text.len(),
            text@ == s@,
            leading_whitespace(s@) == start + leading_whitespace(s@.skip(start as int)),
        decreases text.len() - start,
    {
        assert(s@.skip(start as int).drop_first() =~= s@.skip(start + 1));
        start = start + 1;
    }
    assert(leading_whitespace(s@) == start) by {
        if start < text.len() {
            assert(s@.skip(start as int)[0] == text@[start as int]);
        }
    }
    if start == text.len() {
        return String::new();
    }
    let mut end: usize = text.len();
    assert(s@.take(s@.len() as int) =~= s@);
    proof {
        lemma_whitespace_counts(s@);
    }
    while end > start && char_is_whitespace(text[end - 1])
        invariant
            start <= end <= text.len(),
            text@ == s@,
            trailing_whitespace(s@) == (text.len() - end) + trailing_whitespace(
                s@.take(end as int),
            ),
            leading_whitespace(s@) == start,
            start + trailing_whitespace(s@) < s@.len(),
        decreases end,
    {
        assert(s@.take(end as int).drop_last() =~= s@.take(end - 1));
        end = end - 1;
    }
    assert(trailing_whitespace(s@) == text.len() - end) by {
        if end > 0 {
            assert(s@.take(end as int).last() == text@[end - 1]);
        }
    }
    String::from_str(s.substring_char(start, end))
}

/// What `str::to_lowercase` returns for a text.
pub uninterp spec fn lowercase(s: Seq<char>) -> Seq<char>;

/// `str::to_lowercase` of std returns the lowercase equivalent of a text as
/// Unicode defines it; the result is `lowercase` of the text.
#[verifier::external_body]
pub(crate) fn to_lowercase(s: &str) -> (lowered: String)
    ensures
        lowered@ == lowercase(s@),
{
    s.to_lowercase()
}

/// The hexadecimal digit `d`, in lower case; `d` is expected to be below 16.
pub open spec fn hex_digit(d: int) -> char {
    if d < 10 {
        digit_char(d)
    } else if d == 10 {
        'a'
    } else if d == 11 {
        'b'
    } else if d == 12 {
        'c'
    } else if d == 13 {
        'd'
    } else if d == 14 {
        'e'
    } else {
        'f'
    }
}

/// Lower-case hexadecimal notation of `bytes`, two digits for each byte.
pub open spec fn hex_lower(bytes: Seq<u8>) -> Seq<char>
    decreases bytes.len(),
{
    if bytes.len() == 0 {
        Seq::empty()
    } else {
        hex_lower(bytes.drop_last()) + seq![
            hex_digit(bytes.last() as int / 16),
            hex_digit(bytes.last() as int % 16),
        ]
    }
}

/// Hexadecimal notation takes two characters for each byte.
pub proof fn lemma_hex_lower_len(bytes: Seq<u8>)
    ensures
        hex_lower(bytes).len() == 2 * bytes.len(),
    decreases bytes.len(),
{
    if bytes.len() > 0 {
        lemma_hex_lower_len(bytes.drop_last());
    }
}

fn hex_digit_text(d: u8) -> (s: &'static str)
    requires
        d < 16,
    ensures
        s@ == seq![hex_digit(d as int)],
{
    if d < 10 {
        digit_text(d as u64)
    } else {
        proof {
            reveal_strlit("a");
            reveal_strlit("b");
            reveal_strlit("c");
            reveal_strlit("d");
            reveal_strlit("e");
            reveal_strlit("f");
        }
        let s = if d == 10 {
            "a"
        } else if d == 11 {
            "b"
        } else if d == 12 {
            "c"
        } else if d == 13 {
            "d"
        } else if d == 14 {
            "e"
        } else {
            "f"
        };
        assert(s@ =~= seq![hex_digit(d as int)]);
        s
    }
}

/// Appends the hexadecimal notation of the first `count` bytes of `bytes`.
pub fn push_hex(out: &mut String, bytes: &Vec<u8>, count: usize)
    requires
        count <= bytes.len(),
    ensures
        final(out)@ == old(out)@ + hex_lower(bytes@.take(count as int)),
{
    let mut k: usize = 0;
    assert(out@ =~= old(out)@ + hex_lower(bytes@.take(0)));
    while k < count
        invariant
            k <= count <= bytes.len(),
            out@ == old(out)@ + hex_lower(bytes@.take(k as int)),
        decreases count - k,
    {
        let byte = bytes[k];
        out.append(hex_digit_text(byte / 16));
        out.append(hex_digit_text(byte % 16));
        proof {
            let next = bytes@.take(k + 1);
            assert(next.drop_last() =~= bytes@.take(k as int));
            assert(next.last() == byte);
            assert(out@ =~= old(out)@ + hex_lower(next));
        }
        k = k + 1;
    }
}

} // verus!

//! Searching, trimming and reading short pieces of text.

use vstd::prelude::*;
use vstd::string::StrSliceExecFns;

verus! {

/// The text `part` stands in `text` from position `at` on.
pub open spec fn occurs_at(text: Seq<char>, part: Seq<char>, at: int) -> bool {
    &&& 0 <= at
    &&& at + part.len() <= text.len()
    &&& text.subrange(at, at + part.len()) == part
}

/// The text `part` stands somewhere in `text`.
pub open spec fn contains_text(text: Seq<char>, part: Seq<char>) -> bool {
    exists|at: int| occurs_at(text, part, at)
}

/// What is left of `s` once the longest run of characters in `set` is taken off its end.
pub open spec fn trim_end_of(s: Seq<char>, set: spec_fn(char) -> bool) -> Seq<char>
    decreases s.len(),
{
    if s.len() > 0 && set(s.last()) {
        trim_end_of(s.drop_last(), set)
    } else {
        s
    }
}

/// What is left of `s` once the longest run of characters in `set` is taken off its start.
pub open spec fn trim_start_of(s: Seq<char>, set: spec_fn(char) -> bool) -> Seq<char>
    decreases s.len(),
{
    if s.len() > 0 && set(s.first()) {
        trim_start_of(s.drop_first(), set)
    } else {
        s
    }
}

/// The characters with Unicode's `White_Space` property.
pub open spec fn is_white_space(c: char) -> bool {
    ||| 0x09 <= c as u32 <= 0x0d
    ||| c as u32 == 0x20
    ||| c as u32 == 0x85
    ||| c as u32 == 0xa0
    ||| c as u32 == 0x1680
    ||| 0x2000 <= c as u32 <= 0x200a
    ||| c as u32 == 0x2028
    ||| c as u32 == 0x2029
    ||| c as u32 == 0x202f
    ||| c as u32 == 0x205f
    ||| c as u32 == 0x3000
}

/// `s` without the white space around it.
pub open spec fn trimmed(s: Seq<char>) -> Seq<char> {
    trim_end_of(trim_start_of(s, |c: char| is_white_space(c)), |c: char| is_white_space(c))
}

/// Carriage return or line feed.
pub open spec fn is_line_end(c: char) -> bool {
    c == '\r' || c == '\n'
}

/// `s` without the carriage returns and line feeds at its end.
pub open spec fn without_line_end(s: Seq<char>) -> Seq<char> {
    trim_end_of(s, |c: char| is_line_end(c))
}

/// What follows the last `separator` in `s`: all of `s` where there is none.
pub open spec fn after_last(s: Seq<char>, separator: char) -> Seq<char>
    decreases s.len(),
{
    if s.len() == 0 {
        s
    } else if s.last() == separator {
        Seq::empty()
    } else {
        after_last(s.drop_last(), separator).push(s.last())
    }
}

/// One of the ten ASCII digits.
pub open spec fn is_digit(c: char) -> bool {
    '0' <= c <= '9'
}

/// The number that a run of ASCII digits writes in base ten.
pub open spec fn decimal_value(s: Seq<char>) -> nat
    decreases s.len(),
{
    if s.len() == 0 {
        0
    } else {
        decimal_value(s.drop_last()) * 10 + (s.last() as u32 - '0' as u32) as nat
    }
}

/// `s` without one leading plus sign.
pub open spec fn without_plus(s: Seq<char>) -> Seq<char> {
    if s.len() > 0 && s[0] == '+' {
        s.drop_first()
    } else {
        s
    }
}

/// The number that `s` writes: an optional plus sign, then only ASCII digits, at least one.
/// Nothing where `s` is no such text or where the number is above `u32::MAX`.
pub open spec fn u32_of_text(s: Seq<char>) -> Option<u32> {
    let digits = without_plus(s);
    if digits.len() > 0 && (forall|i: int| 0 <= i < digits.len() ==> is_digit(#[trigger] digits[i]))
        && decimal_value(digits) <= u32::MAX {
        Some(decimal_value(digits) as u32)
    } else {
        None
    }
}

/// Every character is an ASCII character.
pub open spec fn is_ascii_text(s: Seq<char>) -> bool {
    forall|i: int| 0 <= i < s.len() ==> #[trigger] s[i] as u32 <= 0x7f
}

/// `c`, with the letters A to Z turned into a to z.
pub open spec fn ascii_lower(c: char) -> char {
    if 'A' <= c <= 'Z' {
        (c as u32 + 32) as char
    } else {
        c
    }
}

/// What `str::to_lowercase` makes of a text.
pub uninterp spec fn lowercase(s: Seq<char>) -> Seq<char>;

/// What `String::from_utf8_lossy` reads in a run of bytes.
pub uninterp spec fn lossy_text(bytes: Seq<u8>) -> Seq<char>;

/// `str::to_lowercase`: the same text always has the same lower-case form, by the Unicode
/// tables and with no regard to a locale. In an ASCII text the letters A to Z become a to z
/// and nothing else changes. The form of other texts is left to the name.
pub assume_specification[ str::to_lowercase ](s: &str) -> (lower: String)
    ensures
        lower@ == lowercase(s@),
        is_ascii_text(s@) ==> lower@ == s@.map_values(|c: char| ascii_lower(c)),
;

/// `char::is_whitespace`: true of the characters with the `White_Space` property, and of no
/// other.
pub assume_specification[ char::is_whitespace ](c: char) -> (found: bool)
    ensures
        found == is_white_space(c),
;

/// `String::from_utf8_lossy`: bytes that are UTF-8 are read as UTF-8. Of other bytes the
/// result is named, not described.
#[verifier::external_body]
pub(crate) fn text_from_bytes(bytes: &[u8]) -> (text: String)
    ensures
        text@ == lossy_text(bytes@),
        vstd::utf8::valid_utf8(bytes@) ==> text@ == vstd::utf8::decode_utf8(bytes@),
{
    String::from_utf8_lossy(bytes).into_owned()
}

/// The characters of `s`, one by one.
pub fn chars_of(s: &str) -> (chars: Vec<char>)
    ensures
        chars@ == s@,
{
    let mut chars: Vec<char> = Vec::new();
    for c in it: s.chars()
        invariant
            chars@ == it.seq().take(it.index()),
            it.seq() == s@,
    {
        assert(it.seq().take(it.index() + 1) == it.seq().take(it.index()).push(c));
        chars.push(c);
    }
    assert(s@.take(s@.len() as int) == s@);
    chars
}

/// Are the two texts the same?
pub fn same(a: &str, b: &str) -> (equal: bool)
    ensures
        equal == (a@ == b@),
{
    a.to_owned() == b.to_owned()
}

/// Does `part` stand at position `at` of `text`?
fn stands_at(text: &Vec<char>, part: &Vec<char>, at: usize) -> (found: bool)
    requires
        at + part@.len() <= text@.len(),
    ensures
        found == occurs_at(text@, part@, at as int),
{
    let mut i: usize = 0;
    while i < part.len()
        invariant
            i <= part@.len(),
            at + part@.len() <= text.len(),
            forall|j: int| 0 <= j < i ==> text@[at + j] == part@[j],
        decreases part@.len() - i,
    {
        if text[at + i] != part[i] {
            assert(text@.subrange(at as int, at + part@.len())[i as int] != part@[i as int]);
            return false;
        }
        i += 1;
    }
    assert(text@.subrange(at as int, at + part@.len()) =~= part@);
    true
}

/// Does `part` stand anywhere in `text`? The empty text stands in every text.
pub fn contains(text: &str, part: &str) -> (found: bool)
    ensures
        found == contains_text(text@, part@),
{
    let whole = chars_of(text);
    let wanted = chars_of(part);
    if wanted.len() > whole.len() {
        return false;
    }
    let last: usize = whole.len() - wanted.len();
    let mut at: usize = 0;
    while at <= last
        invariant
            whole@ == text@,
            wanted@ == part@,
            at <= last,
            last + part@.len() == text@.len(),
            forall|i: int| 0 <= i < at ==> !occurs_at(text@, part@, i),
        decreases last - at,
    {
        if stands_at(&whole, &wanted, at) {
            return true;
        }
        if at == last {
            return false;
        }
        at += 1;
    }
    false
}

/// Only white space.
pub open spec fn is_blank(s: Seq<char>) -> bool {
    forall|i: int| 0 <= i < s.len() ==> is_white_space(#[trigger] s[i])
}

/// White space at the start is taken off up to the first other character.
proof fn lemma_trim_start(before: Seq<char>, s: Seq<char>)
    requires
        is_blank(before),
        s.len() > 0,
        !is_white_space(s[0]),
    ensures
        trim_start_of(before + s, |c: char| is_white_space(c)) == s,
    decreases before.len(),
{
    if before.len() == 0 {
        assert(before + s =~= s);
    } else {
        let rest = before.drop_first();
        assert(is_white_space(before[0]));
        assert forall|i: int| 0 <= i < rest.len() implies is_white_space(#[trigger] rest[i]) by {
            assert(rest[i] == before[i + 1]);
        }
        lemma_trim_start(rest, s);
        assert((before + s).drop_first() =~= rest + s);
    }
}

/// White space at the end is taken off down to the last other character.
proof fn lemma_trim_end(s: Seq<char>, after: Seq<char>)
    requires
        is_blank(after),
        s.len() > 0,
        !is_white_space(s.last()),
    ensures
        trim_end_of(s + after, |c: char| is_white_space(c)) == s,
    decreases after.len(),
{
    if after.len() == 0 {
        assert(s + after =~= s);
    } else {
        let rest = after.drop_last();
        assert(is_white_space(after[after.len() - 1]));
        assert forall|i: int| 0 <= i < rest.len() implies is_white_space(#[trigger] rest[i]) by {
            assert(rest[i] == after[i]);
        }
        lemma_trim_end(s, rest);
        assert((s + after).drop_last() =~= s + rest);
    }
}

/// Trimming takes off the white space around a text that neither starts nor ends with any.
pub proof fn law_trimmed(before: Seq<char>, s: Seq<char>, after: Seq<char>)
    requires
        is_blank(before),
        is_blank(after),
        s.len() > 0,
        !is_white_space(s[0]),
        !is_white_space(s.last()),
    ensures
        trimmed(before + s + after) == s,
{
    assert(before + s + after =~= before + (s + after));
    lemma_trim_start(before, s + after);
    lemma_trim_end(s, after);
}

/// `s` without the white space around it.
pub fn trim(s: &str) -> (out: &str)
    ensures
        out@ == trimmed(s@),
{
    let ghost set = |c: char| is_white_space(c);
    let chars = chars_of(s);
    let len: usize = chars.len();
    let mut from: usize = 0;
    assert(s@.skip(0) == s@);
    while from < len && chars[from].is_whitespace()
        invariant
            chars@ == s@,
            len == s@.len(),
            from <= len,
            set == |c: char| is_white_space(c),
            trim_start_of(s@, set) == trim_start_of(s@.skip(from as int), set),
        decreases len - from,
    {
        assert(s@.skip(from as int).drop_first() == s@.skip(from + 1));
        from += 1;
    }
    let mut to: usize = len;
    let ghost start = trim_start_of(s@, set);
    assert(start == s@.subrange(from as int, len as int)) by {
        assert(s@.skip(from as int) == s@.subrange(from as int, len as int));
    }
    while from < to && chars[to - 1].is_whitespace()
        invariant
            chars@ == s@,
            len == s@.len(),
            from <= to <= len,
            set == |c: char| is_white_space(c),
            trim_end_of(start, set) == trim_end_of(s@.subrange(from as int, to as int), set),
        decreases to - from,
    {
        assert(s@.subrange(from as int, to as int).drop_last() == s@.subrange(
            from as int,
            to - 1,
        ));
        to -= 1;
    }
    s.substring_char(from, to)
}

/// `s` without the carriage returns and line feeds at its end.
pub fn trim_line_end(s: &str) -> (out: &str)
    ensures
        out@ == without_line_end(s@),
{
    let ghost set = |c: char| is_line_end(c);
    let chars = chars_of(s);
    let mut to: usize = chars.len();
    assert(s@.take(s@.len() as int) == s@);
    while to > 0 && (chars[to - 1] == '\r' || chars[to - 1] == '\n')
        invariant
            chars@ == s@,
            to <= s@.len(),
            set == |c: char| is_line_end(c),
            trim_end_of(s@, set) == trim_end_of(s@.take(to as int), set),
        decreases to,
    {
        assert(s@.take(to as int).drop_last() == s@.take(to - 1));
        to -= 1;
    }
    assert(s@.take(to as int) == s@.subrange(0, to as int));
    s.substring_char(0, to)
}

/// Where the last `separator` of `s` is at `at`, `after_last` is what follows it.
proof fn lemma_after_last(s: Seq<char>, separator: char, from: int)
    requires
        0 <= from <= s.len(),
        from > 0 ==> s[from - 1] == separator,
        forall|i: int| from <= i < s.len() ==> s[i] != separator,
    ensures
        after_last(s, separator) == s.skip(from),
    decreases s.len(),
{
    if s.len() == 0 || s.last() == separator {
        assert(s.skip(from) =~= Seq::empty());
    } else {
        lemma_after_last(s.drop_last(), separator, from);
        assert(s.drop_last().skip(from).push(s.last()) =~= s.skip(from));
    }
}

/// What follows the last `separator` in `s`: all of `s` where there is none.
pub fn rest_after_last(s: &str, separator: char) -> (out: &str)
    ensures
        out@ == after_last(s@, separator),
{
    let chars = chars_of(s);
    let len: usize = chars.len();
    let mut from: usize = len;
    while from > 0 && chars[from - 1] != separator
        invariant
            chars@ == s@,
            len == s@.len(),
            from <= len,
            forall|i: int| from <= i < s@.len() ==> s@[i] != separator,
        decreases from,
    {
        from -= 1;
    }
    proof {
        lemma_after_last(s@, separator, from as int);
        assert(s@.skip(from as int) == s@.subrange(from as int, len as int));
    }
    s.substring_char(from, len)
}

/// Leaving digits off the end never makes the number larger.
proof fn lemma_decimal_prefix(s: Seq<char>, n: int)
    requires
        0 <= n <= s.len(),
    ensures
        decimal_value(s.take(n)) <= decimal_value(s),
    decreases s.len() - n,
{
    if n < s.len() {
        lemma_decimal_prefix(s, n + 1);
        assert(s.take(n + 1).drop_last() == s.take(n));
    } else {
        assert(s.take(n) == s);
    }
}

/// Reads a `u32` as `str::parse` does: an optional plus sign, then only ASCII digits.
pub fn parse_u32(s: &str) -> (out: Option<u32>)
    ensures
        out == u32_of_text(s@),
{
    let chars = chars_of(s);
    let len: usize = chars.len();
    let start: usize = if len > 0 && chars[0] == '+' {
        1
    } else {
        0
    };
    let ghost digits = without_plus(s@);
    assert(digits == s@.skip(start as int));
    if start == len {
        return None;
    }
    let mut value: u32 = 0;
    let mut i: usize = start;
    while i < len
        invariant
            chars@ == s@,
            len == s@.len(),
            start <= i <= len,
            start < len,
            digits == without_plus(s@),
            digits == s@.skip(start as int),
            value == decimal_value(digits.take(i - start)),
            forall|j: int| 0 <= j < i - start ==> is_digit(#[trigger] digits[j]),
        decreases len - i,
    {
        let c = chars[i];
        assert(digits[i - start] == c);
        if !('0' <= c && c <= '9') {
            return None;
        }
        let digit: u32 = c as u32 - '0' as u32;
        proof {
            assert(digits.take(i - start + 1).drop_last() == digits.take(i - start));
            lemma_decimal_prefix(digits, i - start + 1);
        }
        if value > (u32::MAX - digit) / 10 {
            return None;
        }
        value = value * 10 + digit;
        i += 1;
    }
    assert(digits.take(len - start) == digits);
    Some(value)
}

/// A text contains another exactly where it is that text with something, or nothing, in front and
/// behind.
pub proof fn law_contains(text: Seq<char>, part: Seq<char>)
    ensures
        contains_text(text, part) <==> exists|before: Seq<char>, after: Seq<char>|
            text == #[trigger] (before + part + after),
{
    if contains_text(text, part) {
        let at = choose|at: int| occurs_at(text, part, at);
        let before = text.take(at);
        let after = text.skip(at + part.len());
        assert(text =~= before + part + after);
    }
    if exists|before: Seq<char>, after: Seq<char>| text == #[trigger] (before + part + after) {
        let (before, after) = choose|before: Seq<char>, after: Seq<char>|
            text == #[trigger] (before + part + after);
        let at = before.len() as int;
        assert(text.subrange(at, at + part.len()) =~= part);
        assert(occurs_at(text, part, at));
    }
}

/// What is taken off the start are characters of the set, up to one that is not.
proof fn lemma_start_taken(s: Seq<char>, set: spec_fn(char) -> bool)
    ensures
        trim_start_of(s, set).len() <= s.len(),
        trim_start_of(s, set) == s.skip(s.len() - trim_start_of(s, set).len()),
        forall|i: int| 0 <= i < s.len() - trim_start_of(s, set).len() ==> set(#[trigger] s[i]),
        trim_start_of(s, set).len() > 0 ==> !set(trim_start_of(s, set)[0]),
    decreases s.len(),
{
    if s.len() > 0 && set(s.first()) {
        let rest = s.drop_first();
        lemma_start_taken(rest, set);
        let out = trim_start_of(s, set);
        assert(out =~= s.skip(s.len() - out.len()));
        assert forall|i: int| 0 <= i < s.len() - out.len() implies set(#[trigger] s[i]) by {
            if i > 0 {
                assert(rest[i - 1] == s[i]);
            }
        }
    } else {
        assert(s.skip(0) =~= s);
    }
}

/// What is taken off the end are characters of the set, down to one that is not.
proof fn lemma_end_taken(s: Seq<char>, set: spec_fn(char) -> bool)
    ensures
        trim_end_of(s, set).len() <= s.len(),
        trim_end_of(s, set) == s.take(trim_end_of(s, set).len() as int),
        forall|i: int| trim_end_of(s, set).len() <= i < s.len() ==> set(#[trigger] s[i]),
        trim_end_of(s, set).len() > 0 ==> !set(trim_end_of(s, set).last()),
    decreases s.len(),
{
    if s.len() > 0 && set(s.last()) {
        let rest = s.drop_last();
        lemma_end_taken(rest, set);
        let out = trim_end_of(s, set);
        assert(out =~= s.take(out.len() as int));
        assert forall|i: int| out.len() <= i < s.len() implies set(#[trigger] s[i]) by {
            if i < rest.len() {
                assert(rest[i] == s[i]);
            }
        }
    } else {
        assert(s.take(s.len() as int) =~= s);
    }
}

/// Trimming leaves a stretch of the text with only white space in front of it and behind it, which
/// itself neither starts nor ends with any.
pub proof fn law_trim(s: Seq<char>)
    ensures
        exists|n: int|
            {
                &&& 0 <= n <= s.len() - trimmed(s).len()
                &&& trimmed(s) == s.subrange(n, n + trimmed(s).len())
                &&& is_blank(#[trigger] s.take(n))
                &&& is_blank(s.skip(n + trimmed(s).len()))
            },
        trimmed(s).len() > 0 ==> !is_white_space(trimmed(s)[0]) && !is_white_space(
            trimmed(s).last(),
        ),
{
    let set = |c: char| is_white_space(c);
    lemma_start_taken(s, set);
    let start = trim_start_of(s, set);
    lemma_end_taken(start, set);
    let out = trimmed(s);
    assert(out == trim_end_of(start, set));
    let n = s.len() - start.len();
    assert(out =~= s.subrange(n, n + out.len()));
    assert forall|i: int| 0 <= i < s.take(n).len() implies is_white_space(
        #[trigger] s.take(n)[i],
    ) by {
        assert(set(s[i]));
    }
    let tail = s.skip(n + out.len());
    assert forall|i: int| 0 <= i < tail.len() implies is_white_space(#[trigger] tail[i]) by {
        assert(tail[i] == start[out.len() + i]);
        assert(set(start[out.len() + i]));
    }
    assert(is_blank(s.take(n)));
    if out.len() > 0 {
        assert(out[0] == start[0]);
        assert(!set(start[0]));
        assert(!set(out.last()));
    }
}

/// Taking off the line end leaves the start of the text up to its last character that is neither
/// carriage return nor line feed.
pub proof fn law_line_end(s: Seq<char>)
    ensures
        ({
            let out = without_line_end(s);
            &&& out.len() <= s.len()
            &&& out == s.take(out.len() as int)
            &&& out.len() > 0 ==> out.last() != '\r' && out.last() != '\n'
            &&& forall|i: int|
                out.len() <= i < s.len() ==> #[trigger] s[i] == '\r' || s[i] == '\n'
        }),
{
    let set = |c: char| is_line_end(c);
    lemma_end_taken(s, set);
    let out = without_line_end(s);
    assert(out == trim_end_of(s, set));
    assert forall|i: int| out.len() <= i < s.len() implies #[trigger] s[i] == '\r' || s[i]
        == '\n' by {
        assert(set(s[i]));
    }
    if out.len() > 0 {
        assert(!set(out.last()));
    }
}

/// What follows the last separator is the longest end of the text without a separator.
pub proof fn law_after_last(s: Seq<char>, separator: char)
    ensures
        ({
            let out = after_last(s, separator);
            let from = s.len() - out.len();
            &&& 0 <= from
            &&& out == s.skip(from)
            &&& !out.contains(separator)
            &&& from > 0 ==> s[from - 1] == separator
        }),
    decreases s.len(),
{
    let out = after_last(s, separator);
    if s.len() > 0 && s.last() != separator {
        law_after_last(s.drop_last(), separator);
        let before = after_last(s.drop_last(), separator);
        assert(out =~= s.skip(s.len() - out.len()));
        if out.contains(separator) {
            let i = choose|i: int| 0 <= i < out.len() && out[i] == separator;
            assert(before[i] == separator);
        }
    } else {
        assert(out =~= s.skip(s.len() - out.len()));
    }
}

/// The number that a text writes, by its last character: a digit makes it ten times the number in
/// front of it and the digit, where that is still a `u32`; in front of the first digit there may
/// stand a plus sign. Any other last character makes it no number, and so does an empty text.
pub proof fn law_number(s: Seq<char>, c: char)
    ensures
        u32_of_text(Seq::empty()) is None,
        !('0' <= c <= '9') ==> u32_of_text(s.push(c)) is None,
        '0' <= c <= '9' && (s.len() == 0 || s == seq!['+']) ==> u32_of_text(s.push(c)) == Some(
            (c as u32 - 48) as u32,
        ),
        '0' <= c <= '9' && s.len() > 0 && s != seq!['+'] ==> u32_of_text(s.push(c)) == (
        match u32_of_text(s) {
            Some(n) => if 10 * n + (c as u32 - 48) <= 0xffff_ffff {
                Some((10 * n + (c as u32 - 48)) as u32)
            } else {
                None
            },
            None => None,
        }),
{
    let whole = s.push(c);
    let digits = without_plus(whole);
    if s.len() == 0 {
        assert(whole =~= seq![c]);
        if c == '+' {
            assert(digits =~= Seq::<char>::empty());
        } else {
            assert(digits == whole);
            assert(digits.drop_last() =~= Seq::<char>::empty());
            assert(decimal_value(Seq::<char>::empty()) == 0);
            assert(digits[0] == c);
        }
    } else {
        let front = without_plus(s);
        assert(digits =~= front.push(c));
        assert(digits.drop_last() =~= front);
        assert(digits[front.len() as int] == c);
        if s =~= seq!['+'] {
            assert(front =~= Seq::<char>::empty());
            assert(decimal_value(front) == 0);
            assert(digits =~= seq![c]);
        } else {
            if front.len() == 0 {
                assert(s =~= seq!['+']);
            }
            if is_digit(c) {
                assert(decimal_value(digits) == decimal_value(front) * 10 + (c as u32 - '0' as u32));
            }
            if forall|i: int| 0 <= i < digits.len() ==> is_digit(#[trigger] digits[i]) {
                assert forall|i: int| 0 <= i < front.len() implies is_digit(#[trigger] front[i]) by {
                    assert(digits[i] == front[i]);
                }
            }
            if is_digit(c) && (forall|i: int|
                0 <= i < front.len() ==> is_digit(#[trigger] front[i])) {
                assert forall|i: int| 0 <= i < digits.len() implies is_digit(
                    #[trigger] digits[i],
                ) by {
                    if i < front.len() {
                        assert(digits[i] == front[i]);
                    }
                }
            }
        }
    }
}

/// Only the letters A to Z have another lower-case form among the ASCII characters: the letter
/// that stands as far behind `a` as they behind `A`.
pub proof fn law_ascii_lower(c: char)
    ensures
        'A' <= c <= 'Z' ==> 'a' <= ascii_lower(c) <= 'z' && ascii_lower(c) as u32 - 97 == c as u32
            - 65,
        !('A' <= c <= 'Z') ==> ascii_lower(c) == c,
{
}

/// White space is tab to carriage return, space, next line, no-break space, and Unicode's other
/// spaces and separators.
pub proof fn law_white_space(c: char)
    ensures
        is_white_space(c) <==> '\t' <= c <= '\r' || c == ' ' || c == '\u{85}' || c == '\u{a0}' || c
            == '\u{1680}' || '\u{2000}' <= c <= '\u{200a}' || c == '\u{2028}' || c == '\u{2029}' || c
            == '\u{202f}' || c == '\u{205f}' || c == '\u{3000}',
{
}

/// Blank is what holds only white space, and ASCII what holds only characters up to 7F.
pub proof fn law_kinds_of_text(s: Seq<char>, c: char)
    ensures
        is_blank(Seq::empty()) && is_ascii_text(Seq::empty()),
        is_blank(s.push(c)) <==> is_blank(s) && is_white_space(c),
        is_ascii_text(s.push(c)) <==> is_ascii_text(s) && c as u32 <= 0x7f,
{
    let more = s.push(c);
    assert(more[s.len() as int] == c);
    assert forall|i: int| 0 <= i < s.len() implies #[trigger] more[i] == s[i] by {}
    if is_blank(more) {
        assert forall|i: int| 0 <= i < s.len() implies is_white_space(#[trigger] s[i]) by {
            assert(more[i] == s[i]);
        }
    }
    if is_ascii_text(more) {
        assert forall|i: int| 0 <= i < s.len() implies #[trigger] s[i] as u32 <= 0x7f by {
            assert(more[i] == s[i]);
        }
    }
}

} // verus!

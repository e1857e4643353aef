//! Text as sequences of characters: numbers, trimming, lines and comparison.

use vstd::prelude::*;
use vstd::string::*;

verus! {

/// `String::push` appends one character.
pub assume_specification[ std::string::String::push ](text: &mut String, c: char)
    ensures
        final(text)@ == old(text)@.push(c),
;

/// The characters of each text of a list.
pub open spec fn texts(list: Seq<String>) -> Seq<Seq<char>> {
    list.map_values(|s: String| s@)
}

/// The characters of an optional text.
pub open spec fn text_option(text: Option<String>) -> Option<Seq<char>> {
    match text {
        Some(t) => Some(t@),
        None => None,
    }
}

/// Whether a call failed with the given words.
pub open spec fn fails_with<T>(r: Result<T, String>, words: Seq<char>) -> bool {
    r matches Err(e) && e@ == words
}

// ---- Numbers ----

pub open spec fn digit_char(value: int) -> char {
    (('0' as u32) + value) as char
}

/// The decimal digits of a number.
pub open spec fn digits(n: nat) -> Seq<char>
    decreases n,
{
    if n < 10 {
        seq![digit_char(n as int)]
    } else {
        digits(n / 10).push(digit_char((n % 10) as int))
    }
}

/// A number in decimal, with a minus sign in front of a negative one.
pub open spec fn decimal(n: int) -> Seq<char> {
    if n < 0 {
        seq!['-'] + digits((-n) as nat)
    } else {
        digits(n as nat)
    }
}

fn push_digits(out: &mut String, n: u128)
    ensures
        final(out)@ == old(out)@ + digits(n as nat),
    decreases n,
{
    if n >= 10 {
        push_digits(out, n / 10);
    }
    let code: u8 = 48 + (n % 10) as u8;
    out.push(code as char);
    assert(out@ =~= old(out)@ + digits(n as nat));
}

/// Appends a number in decimal.
pub fn push_decimal(out: &mut String, n: i128)
    ensures
        final(out)@ == old(out)@ + decimal(n as int),
{
    if n < 0 {
        out.push('-');
        let magnitude: u128 = (-(n + 1)) as u128 + 1;
        push_digits(out, magnitude);
        assert(out@ =~= old(out)@ + decimal(n as int));
    } else {
        push_digits(out, n as u128);
    }
}

/// The value of a text made of decimal digits alone; none if it is empty or holds
/// anything else.
pub open spec fn digits_value(s: Seq<char>) -> Option<nat>
    decreases s.len(),
{
    if s.len() == 0 || !('0' <= s.last() <= '9') {
        None
    } else {
        let unit = (s.last() as u32 - '0' as u32) as nat;
        if s.len() == 1 {
            Some(unit)
        } else {
            match digits_value(s.drop_last()) {
                Some(n) => Some(n * 10 + unit),
                None => None,
            }
        }
    }
}

/// The number that a text denotes: digits with an optional sign.
pub open spec fn integer_value(s: Seq<char>) -> Option<int> {
    if s.len() > 0 && s[0] == '-' {
        match digits_value(s.skip(1)) {
            Some(n) => Some(-(n as int)),
            None => None,
        }
    } else {
        natural_value(s)
    }
}

/// The number that a text denotes: digits with an optional plus sign.
pub open spec fn natural_value(s: Seq<char>) -> Option<int> {
    match digits_value(if s.len() > 0 && s[0] == '+' {
        s.skip(1)
    } else {
        s
    }) {
        Some(n) => Some(n as int),
        None => None,
    }
}

proof fn digits_value_grows(s: Seq<char>, from: int, mid: int)
    requires
        0 <= from < mid <= s.len(),
        digits_value(s.subrange(from, s.len() as int)) is Some,
    ensures
        digits_value(s.subrange(from, mid)) is Some,
        digits_value(s.subrange(from, mid))->0 <= digits_value(
            s.subrange(from, s.len() as int),
        )->0,
    decreases s.len() - mid,
{
    if mid < s.len() {
        digits_value_grows(s, from, mid + 1);
        assert(s.subrange(from, mid + 1).drop_last() =~= s.subrange(from, mid));
    }
}

/// The value of the digits of `s` from `from` on, if it is at most `limit`.
fn read_digits(s: &Vec<char>, from: usize, limit: u64) -> (value: Option<u64>)
    requires
        from <= s@.len(),
    ensures
        match digits_value(s@.skip(from as int)) {
            Some(n) if n <= limit => value == Some(n as u64),
            _ => value is None,
        },
{
    let ghost all = s@.skip(from as int);
    assert(all =~= s@.subrange(from as int, s@.len() as int));
    if from == s.len() {
        return None;
    }
    let mut sum: u64 = 0;
    let mut i: usize = from;
    while i < s.len()
        invariant
            from <= i <= s@.len(),
            from < s@.len(),
            all == s@.subrange(from as int, s@.len() as int),
            i > from ==> digits_value(s@.subrange(from as int, i as int)) == Some(sum as nat),
            i == from ==> sum == 0,
            sum <= limit,
        decreases s@.len() - i,
    {
        let c: char = s[i];
        assert(s@.subrange(from as int, i + 1).drop_last() =~= s@.subrange(from as int, i as int));
        assert(s@.subrange(from as int, i + 1).last() == c);
        proof {
            if digits_value(all) is Some {
                digits_value_grows(s@, from as int, i + 1);
            }
        }
        if !('0' <= c && c <= '9') {
            return None;
        }
        let unit: u64 = (c as u32 - 48) as u64;
        if sum > limit / 10 || unit > limit - sum * 10 {
            return None;
        }
        sum = sum * 10 + unit;
        i = i + 1;
    }
    Some(sum)
}

/// Reads a signed 64-bit number, as `str::parse` does.
pub fn read_i64(s: &Vec<char>) -> (value: Option<i64>)
    ensures
        match integer_value(s@) {
            Some(n) if i64::MIN <= n <= i64::MAX => value == Some(n as i64),
            _ => value is None,
        },
{
    if s.len() > 0 && s[0] == '-' {
        match read_digits(s, 1, 0x8000_0000_0000_0000) {
            Some(n) => if n == 0x8000_0000_0000_0000 {
                Some(i64::MIN)
            } else {
                Some(-(n as i64))
            },
            None => None,
        }
    } else {
        let from: usize = if s.len() > 0 && s[0] == '+' {
            1
        } else {
            0
        };
        assert(s@.skip(0) =~= s@);
        match read_digits(s, from, 0x7fff_ffff_ffff_ffff) {
            Some(n) => Some(n as i64),
            None => None,
        }
    }
}

/// Reads an unsigned number, as `str::parse` does.
pub fn read_usize(s: &Vec<char>) -> (value: Option<usize>)
    ensures
        match natural_value(s@) {
            Some(n) if n <= usize::MAX => value == Some(n as usize),
            _ => value is None,
        },
{
    let from: usize = if s.len() > 0 && s[0] == '+' {
        1
    } else {
        0
    };
    assert(s@.skip(0) =~= s@);
    match read_digits(s, from, usize::MAX as u64) {
        Some(n) => Some(n as usize),
        None => None,
    }
}

proof fn digits_are_read_back(n: nat)
    ensures
        digits_value(digits(n)) == Some(n),
        digits(n).len() > 0,
        forall|i: int| 0 <= i < digits(n).len() ==> '0' <= #[trigger] digits(n)[i] <= '9',
    decreases n,
{
    if n >= 10 {
        digits_are_read_back(n / 10);
        assert(digits(n).drop_last() =~= digits(n / 10));
        assert(digits(n).last() == digit_char((n % 10) as int));
    } else {
        assert(digits(n).last() == digit_char(n as int));
    }
}

/// The digits of a number are digits, and are read back as the number.
pub proof fn digits_are_digits(n: nat)
    ensures
        digits_value(digits(n)) == Some(n),
        digits(n).len() > 0,
        forall|i: int| 0 <= i < digits(n).len() ==> '0' <= #[trigger] digits(n)[i] <= '9',
{
    digits_are_read_back(n);
}

/// What is printed in decimal is read back as the same number.
pub proof fn decimal_is_read_back(n: int)
    ensures
        integer_value(decimal(n)) == Some(n),
        decimal(n).len() > 0,
        forall|i: int|
            0 <= i < decimal(n).len() ==> '0' <= #[trigger] decimal(n)[i] <= '9' || decimal(n)[i]
                == '-',
{
    if n < 0 {
        digits_are_read_back((-n) as nat);
        assert(decimal(n).skip(1) =~= digits((-n) as nat));
    } else {
        digits_are_read_back(n as nat);
    }
}

// ---- Characters and pieces ----

/// The characters of a text.
pub fn chars_of(text: &str) -> (chars: Vec<char>)
    ensures
        chars@ == text@,
{
    let mut chars: Vec<char> = Vec::new();
    for c in it: text.chars()
        invariant
            chars@ == text@.take(it.index()),
            it.seq() == text@,
    {
        assert(text@.take(it.index() + 1) =~= text@.take(it.index()).push(c));
        chars.push(c);
    }
    assert(text@.take(text@.len() as int) =~= text@);
    chars
}

/// The text made of the characters from `from` up to `to`.
pub fn string_of(chars: &Vec<char>, from: usize, to: usize) -> (text: String)
    requires
        from <= to <= chars@.len(),
    ensures
        text@ == chars@.subrange(from as int, to as int),
{
    let mut text = String::new();
    let mut i: usize = from;
    while i < to
        invariant
            from <= i <= to <= chars@.len(),
            text@ == chars@.subrange(from as int, i as int),
        decreases to - i,
    {
        text.push(chars[i]);
        i = i + 1;
        assert(text@ =~= chars@.subrange(from as int, i as int));
    }
    text
}

/// The characters from `from` up to `to`.
pub fn part_of(chars: &Vec<char>, from: usize, to: usize) -> (part: Vec<char>)
    requires
        from <= to <= chars@.len(),
    ensures
        part@ == chars@.subrange(from as int, to as int),
{
    let mut part: Vec<char> = Vec::new();
    let mut i: usize = from;
    while i < to
        invariant
            from <= i <= to <= chars@.len(),
            part@ == chars@.subrange(from as int, i as int),
        decreases to - i,
    {
        part.push(chars[i]);
        i = i + 1;
        assert(part@ =~= chars@.subrange(from as int, i as int));
    }
    part
}

/// Whether `s` begins with `prefix`.
pub open spec fn begins_with(s: Seq<char>, prefix: Seq<char>) -> bool {
    prefix.len() <= s.len() && s.take(prefix.len() as int) == prefix
}

/// Whether `s` ends with `suffix`.
pub open spec fn ends_in(s: Seq<char>, suffix: Seq<char>) -> bool {
    suffix.len() <= s.len() && s.skip(s.len() - suffix.len()) == suffix
}

/// Whether the characters from `from` on begin with `part`.
pub fn has_part_at(s: &Vec<char>, from: usize, part: &Vec<char>) -> (b: bool)
    requires
        from <= s@.len(),
    ensures
        b == begins_with(s@.skip(from as int), part@),
{
    if part.len() > s.len() - from {
        return false;
    }
    let mut i: usize = 0;
    while i < part.len()
        invariant
            from <= s.len(),
            i <= part@.len() <= s.len() - from,
            forall|k: int| 0 <= k < i ==> s@[from + k] == part@[k],
        decreases part@.len() - i,
    {
        if s[from + i] != part[i] {
            assert(s@.skip(from as int).take(part@.len() as int)[i as int] != part@[i as int]);
            return false;
        }
        i = i + 1;
    }
    assert(s@.skip(from as int).take(part@.len() as int) =~= part@);
    true
}

/// Whether a text begins with another.
pub fn starts_with(s: &str, prefix: &str) -> (b: bool)
    ensures
        b == begins_with(s@, prefix@),
{
    let chars = chars_of(s);
    let part = chars_of(prefix);
    assert(chars@.skip(0) =~= chars@);
    has_part_at(&chars, 0, &part)
}

/// `s` with every occurrence of `c` left out.
pub open spec fn without_char(s: Seq<char>, c: char) -> Seq<char> {
    s.filter(|x: char| x != c)
}

pub fn remove_char(s: &str, c: char) -> (text: String)
    ensures
        text@ == without_char(s@, c),
{
    let chars = chars_of(s);
    let mut text = String::new();
    let mut i: usize = 0;
    while i < chars.len()
        invariant
            i <= chars@.len(),
            text@ == without_char(chars@.take(i as int), c),
        decreases chars@.len() - i,
    {
        assert(chars@.take(i + 1).drop_last() =~= chars@.take(i as int));
        reveal(Seq::filter);
        if chars[i] != c {
            text.push(chars[i]);
        }
        i = i + 1;
    }
    assert(chars@.take(chars@.len() as int) =~= chars@);
    text
}

// ---- Case ----

pub open spec fn ascii_lower_char(c: char) -> char {
    if 'A' <= c <= 'Z' {
        ((c as u32) + 32) as char
    } else {
        c
    }
}

/// `s` with the letters A to Z in lower case.
pub open spec fn ascii_lower(s: Seq<char>) -> Seq<char> {
    s.map_values(|c: char| ascii_lower_char(c))
}

fn lower_char(c: char) -> (r: char)
    ensures
        r == ascii_lower_char(c),
{
    if 'A' <= c && c <= 'Z' {
        let code: u8 = c as u8;
        (code + 32) as char
    } else {
        c
    }
}

/// A text with the letters A to Z in lower case.
pub fn to_ascii_lower(s: &str) -> (text: String)
    ensures
        text@ == ascii_lower(s@),
{
    let chars = chars_of(s);
    let mut text = String::new();
    let mut i: usize = 0;
    while i < chars.len()
        invariant
            i <= chars@.len(),
            text@ == ascii_lower(chars@).take(i as int),
        decreases chars@.len() - i,
    {
        text.push(lower_char(chars[i]));
        i = i + 1;
        assert(text@ =~= ascii_lower(chars@).take(i as int));
    }
    assert(text@ =~= ascii_lower(chars@));
    text
}

/// Whether two texts are equal but for the case of the letters A to Z.
pub fn equal_ignoring_case(a: &str, b: &str) -> (equal: bool)
    ensures
        equal == (ascii_lower(a@) == ascii_lower(b@)),
{
    to_ascii_lower(a) == to_ascii_lower(b)
}

/// The lower-case form of a text by Unicode's rules.
pub uninterp spec fn unicode_lower(s: Seq<char>) -> Seq<char>;

/// `str::to_lowercase` maps every character to lower case by Unicode's rules. Of text
/// within ASCII that changes the letters A to Z alone.
#[verifier::external_body]
pub(crate) fn to_lower(s: &str) -> (text: String)
    ensures
        text@ == unicode_lower(s@),
        (forall|i: int| 0 <= i < s@.len() ==> (#[trigger] s@[i]) as u32 <= 127) ==> text@
            == ascii_lower(s@),
{
    s.to_lowercase()
}

// ---- White space ----

/// The characters with Unicode's White_Space property.
pub open spec fn is_space(c: char) -> bool {
    let code = c as u32;
    ||| 0x9 <= code <= 0xd
    ||| code == 0x20
    ||| code == 0x85
    ||| code == 0xa0
    ||| code == 0x1680
    ||| 0x2000 <= code <= 0x200a
    ||| code == 0x2028
    ||| code == 0x2029
    ||| code == 0x202f
    ||| code == 0x205f
    ||| code == 0x3000
}

fn space(c: char) -> (b: bool)
    ensures
        b == is_space(c),
{
    let code: u32 = c as u32;
    (0x9 <= code && code <= 0xd) || code == 0x20 || code == 0x85 || code == 0xa0 || code == 0x1680
        || (0x2000 <= code && code <= 0x200a) || code == 0x2028 || code == 0x2029 || code == 0x202f
        || code == 0x205f || code == 0x3000
}

/// `s` without the white space in front.
pub open spec fn trimmed_start(s: Seq<char>) -> Seq<char>
    decreases s.len(),
{
    if s.len() > 0 && is_space(s[0]) {
        trimmed_start(s.skip(1))
    } else {
        s
    }
}

/// `s` without the white space at its end.
pub open spec fn trimmed_end(s: Seq<char>) -> Seq<char>
    decreases s.len(),
{
    if s.len() > 0 && is_space(s.last()) {
        trimmed_end(s.drop_last())
    } else {
        s
    }
}

/// `s` without the white space around it.
pub open spec fn trimmed(s: Seq<char>) -> Seq<char> {
    trimmed_end(trimmed_start(s))
}

/// Whether a text holds nothing but white space.
pub open spec fn is_blank(s: Seq<char>) -> bool {
    trimmed(s).len() == 0
}

/// The characters without the white space around them.
pub fn trim_chars(chars: &Vec<char>) -> (part: Vec<char>)
    ensures
        part@ == trimmed(chars@),
{
    let mut from: usize = 0;
    assert(chars@.skip(0) =~= chars@);
    while from < chars.len() && space(chars[from])
        invariant
            from <= chars@.len(),
            trimmed_start(chars@.skip(from as int)) == trimmed_start(chars@),
        decreases chars@.len() - from,
    {
        assert(chars@.skip(from as int).skip(1) =~= chars@.skip(from + 1));
        from = from + 1;
    }
    let mut to: usize = chars.len();
    assert(chars@.subrange(from as int, to as int) =~= chars@.skip(from as int));
    while to > from && space(chars[to - 1])
        invariant
            from <= to <= chars@.len(),
            trimmed_end(chars@.subrange(from as int, to as int)) == trimmed(chars@),
        decreases to,
    {
        assert(chars@.subrange(from as int, to as int).drop_last() =~= chars@.subrange(
            from as int,
            to - 1,
        ));
        to = to - 1;
    }
    part_of(chars, from, to)
}

/// A text without the white space around it.
pub fn trim(text: &str) -> (r: String)
    ensures
        r@ == trimmed(text@),
{
    let chars = chars_of(text);
    let part = trim_chars(&chars);
    let r = string_of(&part, 0, part.len());
    assert(r@ =~= part@);
    r
}

/// Whether a text holds nothing but white space.
pub fn blank(text: &str) -> (b: bool)
    ensures
        b == is_blank(text@),
{
    let chars = chars_of(text);
    trim_chars(&chars).len() == 0
}

// ---- Lines ----

/// The position of the first `c` in `s` from `from` on, or the length of `s`.
pub open spec fn position_from(s: Seq<char>, c: char, from: int) -> int
    decreases s.len() - from,
{
    if from >= s.len() {
        s.len() as int
    } else if s[from] == c {
        from
    } else {
        position_from(s, c, from + 1)
    }
}

pub fn find_from(s: &Vec<char>, c: char, from: usize) -> (at: usize)
    requires
        from <= s@.len(),
    ensures
        at == position_from(s@, c, from as int),
        from <= at <= s@.len(),
        at < s@.len() ==> s@[at as int] == c,
        forall|k: int| from <= k < at ==> s@[k] != c,
{
    let mut at: usize = from;
    while at < s.len() && s[at] != c
        invariant
            from <= at <= s@.len(),
            position_from(s@, c, at as int) == position_from(s@, c, from as int),
            forall|k: int| from <= k < at ==> s@[k] != c,
        decreases s@.len() - at,
    {
        at = at + 1;
    }
    at
}

/// A line without the carriage return before its line feed.
pub open spec fn without_return(line: Seq<char>) -> Seq<char> {
    if line.len() > 0 && line.last() == '\r' {
        line.drop_last()
    } else {
        line
    }
}

/// The lines of the part of `s` that starts at `from`. A line ends with a line feed or
/// a carriage return and a line feed, which are not part of it; the last one may lack
/// its end.
pub open spec fn lines_from(s: Seq<char>, from: int) -> Seq<Seq<char>>
    decreases s.len() - from,
{
    if from >= s.len() || from < 0 {
        Seq::empty()
    } else {
        let end = position_from(s, '\n', from);
        if from <= end < s.len() {
            seq![without_return(s.subrange(from, end))] + lines_from(s, end + 1)
        } else {
            seq![s.subrange(from, s.len() as int)]
        }
    }
}

/// The lines of a text.
pub open spec fn lines_of(s: Seq<char>) -> Seq<Seq<char>> {
    lines_from(s, 0)
}

/// The contents of a list of characters, line by line.
pub open spec fn chars_list(list: Seq<Vec<char>>) -> Seq<Seq<char>> {
    list.map_values(|v: Vec<char>| v@)
}

/// Splits a text into its lines.
pub fn split_lines(text: &str) -> (lines: Vec<Vec<char>>)
    ensures
        chars_list(lines@) == lines_of(text@),
{
    let chars = chars_of(text);
    let mut lines: Vec<Vec<char>> = Vec::new();
    let mut from: usize = 0;
    assert(chars_list(lines@) + lines_from(text@, 0) =~= lines_of(text@));
    while from < chars.len()
        invariant
            from <= chars@.len(),
            chars@ == text@,
            chars_list(lines@) + lines_from(text@, from as int) == lines_of(text@),
        decreases chars@.len() - from,
    {
        let ghost before = lines@;
        let end: usize = find_from(&chars, '\n', from);
        if end < chars.len() {
            let to: usize = if end > from && chars[end - 1] == '\r' {
                end - 1
            } else {
                end
            };
            assert(without_return(text@.subrange(from as int, end as int)) =~= text@.subrange(
                from as int,
                to as int,
            ));
            lines.push(part_of(&chars, from, to));
            assert(chars_list(lines@) =~= chars_list(before).push(
                text@.subrange(from as int, to as int),
            ));
            assert(chars_list(lines@) + lines_from(text@, end + 1) =~= chars_list(before)
                + lines_from(text@, from as int));
            from = end + 1;
        } else {
            lines.push(part_of(&chars, from, end));
            assert(chars_list(lines@) =~= chars_list(before).push(
                text@.subrange(from as int, end as int),
            ));
            assert(chars_list(lines@) + lines_from(text@, end as int) =~= chars_list(before)
                + lines_from(text@, from as int));
            from = end;
        }
    }
    assert(lines_from(text@, from as int) =~= Seq::empty());
    assert(chars_list(lines@) =~= lines_of(text@));
    lines
}

// ---- Lists of texts ----

/// The texts of a list with `separator` between them.
pub open spec fn joined(parts: Seq<Seq<char>>, separator: Seq<char>) -> Seq<char>
    decreases parts.len(),
{
    if parts.len() == 0 {
        Seq::empty()
    } else if parts.len() == 1 {
        parts[0]
    } else {
        joined(parts.drop_last(), separator) + separator + parts.last()
    }
}

/// Joins the texts of a list.
pub fn join(parts: &Vec<String>, separator: &str) -> (text: String)
    ensures
        text@ == joined(texts(parts@), separator@),
{
    let mut text = String::new();
    let mut i: usize = 0;
    while i < parts.len()
        invariant
            i <= parts@.len(),
            text@ == joined(texts(parts@).take(i as int), separator@),
        decreases parts@.len() - i,
    {
        if i > 0 {
            text.append(separator);
        }
        text.append(parts[i].as_str());
        assert(texts(parts@).take(i + 1).drop_last() =~= texts(parts@).take(i as int));
        assert(texts(parts@).take(i + 1).last() == parts@[i as int]@);
        i = i + 1;
        assert(text@ =~= joined(texts(parts@).take(i as int), separator@));
    }
    assert(texts(parts@).take(parts@.len() as int) =~= texts(parts@));
    text
}

/// Whether `text` occurs in the list.
pub fn list_contains(list: &Vec<String>, text: &str) -> (found: bool)
    ensures
        found == texts(list@).contains(text@),
{
    let mut i: usize = 0;
    while i < list.len()
        invariant
            i <= list@.len(),
            forall|k: int| 0 <= k < i ==> texts(list@)[k] != text@,
        decreases list@.len() - i,
    {
        if same_text(list[i].as_str(), text) {
            assert(texts(list@)[i as int] == text@);
            return true;
        }
        i = i + 1;
    }
    false
}

/// Whether two texts hold the same characters.
pub fn same_text(a: &str, b: &str) -> (same: bool)
    ensures
        same == (a@ == b@),
{
    a.to_owned() == b.to_owned()
}

// ---- Order ----

/// The order of texts by their characters' code points.
pub open spec fn text_less(a: Seq<char>, b: Seq<char>) -> bool
    decreases a.len(),
{
    if b.len() == 0 {
        false
    } else if a.len() == 0 {
        true
    } else if a[0] != b[0] {
        a[0] < b[0]
    } else {
        text_less(a.skip(1), b.skip(1))
    }
}

/// Whether one text stands before another.
pub fn before(a: &str, b: &str) -> (less: bool)
    ensures
        less == text_less(a@, b@),
{
    let x = chars_of(a);
    let y = chars_of(b);
    let mut i: usize = 0;
    assert(a@.skip(0) =~= a@ && b@.skip(0) =~= b@);
    while i < x.len() && i < y.len() && x[i] == y[i]
        invariant
            i <= x@.len(),
            i <= y@.len(),
            x@ == a@,
            y@ == b@,
            text_less(a@, b@) == text_less(a@.skip(i as int), b@.skip(i as int)),
        decreases x@.len() - i,
    {
        assert(a@.skip(i as int).skip(1) =~= a@.skip(i + 1));
        assert(b@.skip(i as int).skip(1) =~= b@.skip(i + 1));
        i = i + 1;
    }
    if i == y.len() {
        false
    } else if i == x.len() {
        true
    } else {
        x[i] < y[i]
    }
}

pub proof fn text_less_irreflexive(a: Seq<char>)
    ensures
        !text_less(a, a),
    decreases a.len(),
{
    if a.len() > 0 {
        text_less_irreflexive(a.skip(1));
    }
}

pub proof fn text_less_transitive(a: Seq<char>, b: Seq<char>, c: Seq<char>)
    requires
        text_less(a, b),
        text_less(b, c),
    ensures
        text_less(a, c),
    decreases a.len(),
{
    if a.len() > 0 && a[0] == b[0] && b[0] == c[0] {
        text_less_transitive(a.skip(1), b.skip(1), c.skip(1));
    }
}

pub proof fn text_less_total(a: Seq<char>, b: Seq<char>)
    ensures
        text_less(a, b) || text_less(b, a) || a == b,
    decreases a.len(),
{
    if a.len() == 0 || b.len() == 0 {
        assert(a.len() == 0 && b.len() == 0 ==> a =~= b);
    } else if a[0] == b[0] {
        text_less_total(a.skip(1), b.skip(1));
        if a.skip(1) == b.skip(1) {
            assert(a =~= seq![a[0]] + a.skip(1));
            assert(b =~= seq![b[0]] + b.skip(1));
        }
    }
}

// ---- Text made of lines ----

/// The lines of a list, each with its line feed.
pub open spec fn unlines(lines: Seq<Seq<char>>) -> Seq<char>
    decreases lines.len(),
{
    if lines.len() == 0 {
        Seq::empty()
    } else {
        unlines(lines.drop_last()) + lines.last() + seq!['\n']
    }
}

/// Whether a line holds no line feed and does not end in a carriage return.
pub open spec fn is_line(line: Seq<char>) -> bool {
    &&& forall|i: int| 0 <= i < line.len() ==> #[trigger] line[i] != '\n'
    &&& line.len() > 0 ==> line.last() != '\r'
}

proof fn first_feed(s: Seq<char>, from: int, end: int)
    requires
        0 <= from <= end < s.len(),
        s[end] == '\n',
        forall|i: int| from <= i < end ==> s[i] != '\n',
    ensures
        position_from(s, '\n', from) == end,
    decreases end - from,
{
    if from < end {
        first_feed(s, from + 1, end);
    }
}

/// The lines before a position do not depend on what follows.
proof fn unlines_splits(lines: Seq<Seq<char>>, k: int)
    requires
        0 <= k < lines.len(),
    ensures
        ({
            let from = unlines(lines.take(k)).len() as int;
            let end = from + lines[k].len();
            &&& end < unlines(lines).len()
            &&& unlines(lines.take(k + 1)).len() == end + 1
            &&& unlines(lines).subrange(from, end) == lines[k]
            &&& unlines(lines)[end] == '\n'
        }),
    decreases lines.len() - k,
{
    assert(lines.take(k + 1).drop_last() =~= lines.take(k));
    assert(lines.take(k + 1).last() == lines[k]);
    let from = unlines(lines.take(k)).len() as int;
    let end = from + lines[k].len();
    let here = unlines(lines.take(k + 1));
    assert(here.subrange(from, end) =~= lines[k]);
    assert(here[end] == '\n');
    unlines_prefix(lines, k + 1);
    assert(unlines(lines).subrange(from, end) =~= here.subrange(from, end));
}

proof fn unlines_prefix(lines: Seq<Seq<char>>, k: int)
    requires
        0 <= k <= lines.len(),
    ensures
        unlines(lines.take(k)).len() <= unlines(lines).len(),
        unlines(lines).take(unlines(lines.take(k)).len() as int) == unlines(lines.take(k)),
        forall|i: int|
            0 <= i < unlines(lines.take(k)).len() ==> unlines(lines)[i] == unlines(
                lines.take(k),
            )[i],
    decreases lines.len() - k,
{
    if k == lines.len() {
        assert(lines.take(k) =~= lines);
    } else {
        unlines_prefix(lines, k + 1);
        assert(lines.take(k + 1).drop_last() =~= lines.take(k));
        let small = unlines(lines.take(k));
        let big = unlines(lines.take(k + 1));
        assert(big.take(small.len() as int) =~= small);
        assert forall|i: int| 0 <= i < small.len() implies unlines(lines)[i] == small[i] by {
            assert(unlines(lines)[i] == big[i]);
            assert(big[i] == small[i]);
        }
    }
    assert(unlines(lines).take(unlines(lines.take(k)).len() as int) =~= unlines(lines.take(k)));
}

/// Whether a text holds no line feed.
pub open spec fn has_no_feed(line: Seq<char>) -> bool {
    forall|i: int| 0 <= i < line.len() ==> #[trigger] line[i] != '\n'
}

/// Lines without the carriage returns at their ends.
pub open spec fn without_returns(lines: Seq<Seq<char>>) -> Seq<Seq<char>> {
    lines.map_values(|line: Seq<char>| without_return(line))
}

proof fn lines_are_found(lines: Seq<Seq<char>>, k: int)
    requires
        0 <= k <= lines.len(),
        forall|i: int| 0 <= i < lines.len() ==> has_no_feed(#[trigger] lines[i]),
    ensures
        lines_from(unlines(lines), unlines(lines.take(k)).len() as int) == without_returns(
            lines.skip(k),
        ),
    decreases lines.len() - k,
{
    let s = unlines(lines);
    let from = unlines(lines.take(k)).len() as int;
    if k == lines.len() {
        assert(lines.take(k) =~= lines);
        assert(without_returns(lines.skip(k)) =~= Seq::empty());
    } else {
        unlines_splits(lines, k);
        let end = from + lines[k].len();
        assert(has_no_feed(lines[k]));
        assert forall|i: int| from <= i < end implies s[i] != '\n' by {
            assert(s.subrange(from, end)[i - from] == lines[k][i - from]);
        }
        first_feed(s, from, end);
        lines_are_found(lines, k + 1);
        assert(lines.skip(k) =~= seq![lines[k]] + lines.skip(k + 1));
        assert(without_returns(lines.skip(k)) =~= seq![without_return(lines[k])]
            + without_returns(lines.skip(k + 1)));
    }
}

/// A text made of lines splits into those lines, without carriage returns at their ends.
pub proof fn lines_of_any_unlines(lines: Seq<Seq<char>>)
    requires
        forall|i: int| 0 <= i < lines.len() ==> has_no_feed(#[trigger] lines[i]),
    ensures
        lines_of(unlines(lines)) == without_returns(lines),
{
    assert(lines.take(0) =~= Seq::empty());
    lines_are_found(lines, 0);
    assert(lines.skip(0) =~= lines);
}

/// A text made of lines splits into those lines.
pub proof fn lines_of_unlines(lines: Seq<Seq<char>>)
    requires
        forall|i: int| 0 <= i < lines.len() ==> is_line(#[trigger] lines[i]),
    ensures
        lines_of(unlines(lines)) == lines,
{
    assert forall|i: int| 0 <= i < lines.len() implies has_no_feed(#[trigger] lines[i]) by {
        assert(is_line(lines[i]));
    }
    lines_of_any_unlines(lines);
    assert forall|i: int| 0 <= i < lines.len() implies without_return(#[trigger] lines[i])
        == lines[i] by {
        assert(is_line(lines[i]));
    }
    assert(without_returns(lines) =~= lines);
}

/// No line of a text holds a line feed.
pub proof fn lines_hold_no_feed(s: Seq<char>, from: int)
    requires
        0 <= from,
    ensures
        forall|i: int| 0 <= i < lines_from(s, from).len() ==> has_no_feed(
            #[trigger] lines_from(s, from)[i],
        ),
    decreases s.len() - from,
{
    if from < s.len() {
        let end = position_from(s, '\n', from);
        position_is_first(s, '\n', from);
        if end < s.len() {
            lines_hold_no_feed(s, end + 1);
            let first = without_return(s.subrange(from, end));
            assert(has_no_feed(first));
            let rest = lines_from(s, end + 1);
            assert forall|i: int| 0 <= i < lines_from(s, from).len() implies has_no_feed(
                #[trigger] lines_from(s, from)[i],
            ) by {
                if i > 0 {
                    assert(lines_from(s, from)[i] == rest[i - 1]);
                }
            }
        } else {
            assert(has_no_feed(s.subrange(from, s.len() as int)));
        }
    }
}

proof fn position_is_first(s: Seq<char>, c: char, from: int)
    requires
        0 <= from <= s.len(),
    ensures
        from <= position_from(s, c, from) <= s.len(),
        forall|k: int| from <= k < position_from(s, c, from) ==> s[k] != c,
    decreases s.len() - from,
{
    if from < s.len() && s[from] != c {
        position_is_first(s, c, from + 1);
    }
}

/// Whether the first `n` characters hold no line feed and no carriage return.
pub open spec fn plain_to(s: Seq<char>, n: nat) -> bool
    decreases n,
{
    n == 0 || (s[n - 1] != '\n' && s[n - 1] != '\r' && plain_to(s, (n - 1) as nat))
}

/// A text without line feeds and carriage returns is a line.
pub proof fn plain_is_a_line(s: Seq<char>)
    requires
        plain_to(s, s.len()),
    ensures
        is_line(s),
{
    plain_everywhere(s, s.len());
}

proof fn plain_everywhere(s: Seq<char>, n: nat)
    requires
        plain_to(s, n),
        n <= s.len(),
    ensures
        forall|i: int| 0 <= i < n ==> #[trigger] s[i] != '\n' && s[i] != '\r',
    decreases n,
{
    if n > 0 {
        plain_everywhere(s, (n - 1) as nat);
    }
}

// ---- The last occurrence ----

/// The position of the last `c` among the first `n` characters, or -1.
pub open spec fn last_position(s: Seq<char>, c: char, n: int) -> int
    decreases n,
{
    if n <= 0 {
        -1
    } else if s[n - 1] == c {
        n - 1
    } else {
        last_position(s, c, n - 1)
    }
}

/// Finds the last `c` among the first `n` characters.
pub fn find_last(s: &Vec<char>, c: char, n: usize) -> (at: Option<usize>)
    requires
        n <= s@.len(),
    ensures
        match at {
            Some(i) => i == last_position(s@, c, n as int) && i < n,
            None => last_position(s@, c, n as int) == -1,
        },
{
    let mut i: usize = n;
    while i > 0
        invariant
            i <= n <= s@.len(),
            last_position(s@, c, n as int) == last_position(s@, c, i as int),
        decreases i,
    {
        if s[i - 1] == c {
            return Some(i - 1);
        }
        i = i - 1;
    }
    None
}

/// The last occurrence is where nothing after it is one.
pub proof fn last_position_is(s: Seq<char>, c: char, n: int, at: int)
    requires
        0 <= at < n <= s.len(),
        s[at] == c,
        forall|i: int| at < i < n ==> s[i] != c,
    ensures
        last_position(s, c, n) == at,
    decreases n,
{
    if n - 1 > at {
        last_position_is(s, c, n - 1, at);
    }
}

} // verus!

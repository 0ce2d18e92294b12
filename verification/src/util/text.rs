//! Verified text building and scanning over characters.

use vstd::prelude::*;

verus! {

/// `String::push` appends one character to the text.
pub assume_specification[ String::push ](s: &mut String, c: char)
    ensures
        final(s)@ == old(s)@.push(c),
;

/// The character that shows the decimal digit `d`.
pub open spec fn digit(d: int) -> char {
    (d + '0' as int) as char
}

/// The decimal notation of `n`, without leading zeros.
pub open spec fn decimal(n: nat) -> Seq<char>
    decreases n,
{
    if n < 10 {
        seq![digit(n as int)]
    } else {
        decimal(n / 10).push(digit((n % 10) as int))
    }
}

/// `count` copies of `value`.
pub open spec fn repeated<T>(value: T, count: nat) -> Seq<T> {
    Seq::new(count, |i: int| value)
}

/// The decimal notation of `n`, filled up with leading zeros to `width` characters.
pub open spec fn zero_padded(n: nat, width: nat) -> Seq<char> {
    let text = decimal(n);
    if text.len() < width {
        repeated('0', (width - text.len()) as nat) + text
    } else {
        text
    }
}

fn digit_char(d: u8) -> (c: char)
    requires
        d < 10,
    ensures
        c == digit(d as int),
{
    (d + 48) as char
}

/// The decimal notation of `n`.
pub fn decimal_text(n: u64) -> (text: String)
    ensures
        text@ == decimal(n as nat),
    decreases n,
{
    if n < 10 {
        let mut text = String::new();
        text.push(digit_char(n as u8));
        assert(text@ =~= decimal(n as nat));
        text
    } else {
        let mut text = decimal_text(n / 10);
        text.push(digit_char((n % 10) as u8));
        text
    }
}

/// The characters of `text`, in order.
pub fn characters(text: &str) -> (chars: Vec<char>)
    ensures
        chars@ == text@,
{
    let mut chars: Vec<char> = Vec::new();
    for c in it: text.chars()
        invariant
            chars@ == it.seq().take(it.index() as int),
            it.seq() == text@,
    {
        chars.push(c);
    }
    chars
}

/// The text that consists of the characters `chars[from..to]`.
pub fn text_of(chars: &Vec<char>, from: usize, to: usize) -> (text: String)
    requires
        from <= to <= chars.len(),
    ensures
        text@ == chars@.subrange(from as int, to as int),
{
    let mut text = String::new();
    let mut i: usize = from;
    while i < to
        invariant
            from <= i <= to <= chars.len(),
            text@ == chars@.subrange(from as int, i as int),
        decreases to - i,
    {
        text.push(chars[i]);
        i += 1;
        assert(text@ =~= chars@.subrange(from as int, i as int));
    }
    text
}

/// `text` with every character that `unwanted` holds put out by `substitute`.
pub open spec fn substituted(text: Seq<char>, unwanted: Seq<char>, substitute: char) -> Seq<char> {
    text.map_values(|c: char| if unwanted.contains(c) { substitute } else { c })
}

fn holds_char(set: &Vec<char>, c: char) -> (found: bool)
    ensures
        found == set@.contains(c),
{
    let mut i: usize = 0;
    while i < set.len()
        invariant
            i <= set.len(),
            forall|j: int| 0 <= j < i ==> set@[j] != c,
        decreases set.len() - i,
    {
        if set[i] == c {
            return true;
        }
        i += 1;
    }
    false
}

/// Replaces every character of `text` that occurs in `unwanted` by `substitute`.
pub fn substitute_chars(text: &str, unwanted: &Vec<char>, substitute: char) -> (clean: String)
    ensures
        clean@ == substituted(text@, unwanted@, substitute),
{
    let chars = characters(text);
    let mut clean = String::new();
    let mut i: usize = 0;
    while i < chars.len()
        invariant
            i <= chars.len(),
            chars@ == text@,
            clean@ == substituted(text@.take(i as int), unwanted@, substitute),
        decreases chars.len() - i,
    {
        let c: char = chars[i];
        if holds_char(unwanted, c) {
            clean.push(substitute);
        } else {
            clean.push(c);
        }
        i += 1;
        assert(clean@ =~= substituted(text@.take(i as int), unwanted@, substitute));
    }
    assert(text@.take(i as int) =~= text@);
    clean
}

/// `needle` stands in `hay` from position `at` on.
pub open spec fn occurs_at(hay: Seq<char>, needle: Seq<char>, at: int) -> bool {
    0 <= at && at + needle.len() <= hay.len() && hay.subrange(at, at + needle.len()) == needle
}

/// `needle` stands somewhere in `hay`.
pub open spec fn occurs_in(hay: Seq<char>, needle: Seq<char>) -> bool {
    exists|at: int| occurs_at(hay, needle, at)
}

fn stands_at(hay: &Vec<char>, needle: &Vec<char>, at: usize) -> (found: bool)
    requires
        at + needle.len() <= hay.len(),
    ensures
        found == occurs_at(hay@, needle@, at as int),
{
    let mut i: usize = 0;
    while i < needle.len()
        invariant
            i <= needle.len(),
            at + needle.len() <= hay.len(),
            forall|j: int| 0 <= j < i ==> hay@[at + j] == needle@[j],
        decreases needle.len() - i,
    {
        if hay[at + i] != needle[i] {
            assert(hay@.subrange(at as int, at + needle.len())[i as int] != needle@[i as int]);
            return false;
        }
        i += 1;
    }
    assert(hay@.subrange(at as int, at + needle.len()) =~= needle@);
    true
}

/// Whether `needle` stands somewhere in `hay`; the empty text stands everywhere.
pub fn contains_text(hay: &str, needle: &str) -> (found: bool)
    ensures
        found == occurs_in(hay@, needle@),
{
    let hay_chars = characters(hay);
    let needle_chars = characters(needle);
    if needle_chars.len() > hay_chars.len() {
        return false;
    }
    let last: usize = hay_chars.len() - needle_chars.len();
    let mut at: usize = 0;
    while at <= last
        invariant
            last == hay_chars.len() - needle_chars.len(),
            at <= last + 1,
            hay_chars@ == hay@,
            needle_chars@ == needle@,
            forall|j: int| 0 <= j < at ==> !occurs_at(hay@, needle@, j),
        decreases last + 1 - at,
    {
        if stands_at(&hay_chars, &needle_chars, at) {
            return true;
        }
        if at == last {
            assert forall|j: int| !occurs_at(hay@, needle@, j) by {}
            return false;
        }
        at += 1;
    }
    false
}

/// What `str::to_lowercase` makes of a text: the Unicode tables of the standard library decide.
pub uninterp spec fn lowercased(text: Seq<char>) -> Seq<char>;

/// Every character of `text` is one of the 128 of ASCII.
pub open spec fn all_ascii(text: Seq<char>) -> bool {
    forall|i: int| 0 <= i < text.len() ==> #[trigger] text[i] as int <= 127
}

/// `c`, or its small letter where it is one of the 26 capital letters of ASCII.
pub open spec fn ascii_small(c: char) -> char {
    if 'A' <= c <= 'Z' {
        (c as int + 32) as char
    } else {
        c
    }
}

/// `text` with the capital letters of ASCII made small.
pub open spec fn ascii_lowercased(text: Seq<char>) -> Seq<char> {
    text.map_values(|c: char| ascii_small(c))
}

/// Calls `str::to_lowercase`, whose result depends on the text alone. In a text of ASCII
/// characters it makes the letters from A to Z small and changes nothing else.
#[verifier::external_body]
pub(crate) fn lowercase(text: &str) -> (lower: String)
    ensures
        lower@ == lowercased(text@),
        all_ascii(text@) ==> lower@ == ascii_lowercased(text@),
{
    text.to_lowercase()
}

/// `a` and `b` differ in nothing but the case of the letters of ASCII.
pub open spec fn same_but_for_case(a: Seq<char>, b: Seq<char>) -> bool {
    &&& a.len() == b.len()
    &&& forall|i: int|
        0 <= i < a.len() ==> {
            ||| #[trigger] a[i] == b[i]
            ||| ('A' <= a[i] <= 'Z' && b[i] as int == a[i] as int + 32)
            ||| ('A' <= b[i] <= 'Z' && a[i] as int == b[i] as int + 32)
        }
}

/// Texts that differ only in the case of their letters have the same small letters.
pub proof fn lemma_case_does_not_matter(a: Seq<char>, b: Seq<char>)
    requires
        same_but_for_case(a, b),
    ensures
        ascii_lowercased(a) == ascii_lowercased(b),
{
    assert forall|i: int| 0 <= i < a.len() implies ascii_lowercased(a)[i] == ascii_lowercased(
        b,
    )[i] by {
        assert(a[i] == b[i] || ('A' <= a[i] <= 'Z' && b[i] as int == a[i] as int + 32) || ('A'
            <= b[i] <= 'Z' && a[i] as int == b[i] as int + 32));
    }
    assert(ascii_lowercased(a) =~= ascii_lowercased(b));
}

/// What stands in a text stands in its small letters too, in small letters.
pub proof fn lemma_lowercase_keeps_occurrences(hay: Seq<char>, needle: Seq<char>)
    requires
        occurs_in(hay, needle),
    ensures
        occurs_in(ascii_lowercased(hay), ascii_lowercased(needle)),
{
    let at = choose|at: int| occurs_at(hay, needle, at);
    assert(ascii_lowercased(hay).subrange(at, at + needle.len()) =~= ascii_lowercased(
        hay.subrange(at, at + needle.len()),
    ));
    assert(occurs_at(ascii_lowercased(hay), ascii_lowercased(needle), at));
}

/// Where the line that `text` ends in begins: behind the last line feed.
pub open spec fn line_start(text: Seq<char>) -> int
    decreases text.len(),
{
    if text.len() == 0 || text.last() == '\n' {
        text.len() as int
    } else {
        line_start(text.drop_last())
    }
}

/// The last line of `text` without its line ending (a line feed, or a carriage return and
/// a line feed). A text without characters has no line; a line feed at the end ends the
/// last line and starts no other.
pub open spec fn last_line_of(text: Seq<char>) -> Option<Seq<char>> {
    if text.len() == 0 {
        None
    } else if text.last() == '\n' {
        let body = text.drop_last();
        let line = body.skip(line_start(body));
        if line.len() > 0 && line.last() == '\r' {
            Some(line.drop_last())
        } else {
            Some(line)
        }
    } else {
        Some(text.skip(line_start(text)))
    }
}

fn find_line_start(chars: &Vec<char>, end: usize) -> (start: usize)
    requires
        end <= chars.len(),
    ensures
        start <= end,
        start == line_start(chars@.take(end as int)),
{
    let mut i: usize = end;
    while i > 0
        invariant
            i <= end <= chars.len(),
            line_start(chars@.take(end as int)) == line_start(chars@.take(i as int)),
        decreases i,
    {
        assert(chars@.take(i as int).last() == chars@[i - 1]);
        if chars[i - 1] == '\n' {
            return i;
        }
        assert(chars@.take(i as int).drop_last() =~= chars@.take(i - 1));
        i -= 1;
    }
    i
}

/// The last line of `text`, if it has any.
pub fn last_line(text: &str) -> (line: Option<String>)
    ensures
        line is Some <==> last_line_of(text@) is Some,
        line matches Some(l) ==> last_line_of(text@) == Some(l@),
{
    let chars = characters(text);
    let n: usize = chars.len();
    if n == 0 {
        return None;
    }
    if chars[n - 1] == '\n' {
        let start: usize = find_line_start(&chars, n - 1);
        assert(chars@.take(n - 1) =~= text@.drop_last());
        let ghost line = text@.drop_last().skip(start as int);
        if start < n - 1 && chars[n - 2] == '\r' {
            let found = text_of(&chars, start, n - 2);
            assert(found@ =~= line.drop_last());
            Some(found)
        } else {
            let found = text_of(&chars, start, n - 1);
            assert(found@ =~= line);
            Some(found)
        }
    } else {
        let start: usize = find_line_start(&chars, n);
        assert(chars@.take(n as int) =~= text@);
        let found = text_of(&chars, start, n);
        assert(found@ =~= text@.skip(start as int));
        Some(found)
    }
}

/// `c` is one of the ten decimal digits.
pub open spec fn is_digit(c: char) -> bool {
    '0' <= c <= '9'
}

/// Every character of `text` is a decimal digit.
pub open spec fn all_digits(text: Seq<char>) -> bool {
    forall|i: int| 0 <= i < text.len() ==> is_digit(#[trigger] text[i])
}

/// The number that a row of decimal digits denotes.
pub open spec fn digits_value(text: Seq<char>) -> nat
    decreases text.len(),
{
    if text.len() == 0 {
        0
    } else {
        (digits_value(text.drop_last()) * 10 + (text.last() as int - '0' as int)) as nat
    }
}

/// The number that `text` denotes as an unsigned 32-bit integer: decimal digits, at least
/// one, with at most one plus sign before them, and a value that fits.
pub open spec fn u32_of(text: Seq<char>) -> Option<u32> {
    let digits = if text.len() > 0 && text[0] == '+' {
        text.skip(1)
    } else {
        text
    };
    if digits.len() > 0 && all_digits(digits) && digits_value(digits) <= u32::MAX {
        Some(digits_value(digits) as u32)
    } else {
        None
    }
}

proof fn lemma_digits_value_grows(text: Seq<char>, n: int)
    requires
        all_digits(text),
        0 <= n <= text.len(),
    ensures
        digits_value(text.take(n)) <= digits_value(text),
    decreases text.len(),
{
    if n == text.len() {
        assert(text.take(n) =~= text);
    } else {
        assert(text.take(n) =~= text.drop_last().take(n));
        assert forall|i: int| 0 <= i < text.drop_last().len() implies is_digit(
            #[trigger] text.drop_last()[i],
        ) by {
            assert(is_digit(text[i]));
        }
        lemma_digits_value_grows(text.drop_last(), n);
        assert(is_digit(text[text.len() - 1]));
    }
}

/// Reads `chars[from..to]` as an unsigned 32-bit integer.
pub fn parse_u32(chars: &Vec<char>, from: usize, to: usize) -> (number: Option<u32>)
    requires
        from <= to <= chars.len(),
    ensures
        number == u32_of(chars@.subrange(from as int, to as int)),
{
    let ghost text = chars@.subrange(from as int, to as int);
    let mut start: usize = from;
    if from < to && chars[from] == '+' {
        start = from + 1;
        assert(text.skip(1) =~= chars@.subrange(start as int, to as int));
    }
    let ghost digits = chars@.subrange(start as int, to as int);
    if start == to {
        return None;
    }
    let mut value: u64 = 0;
    let mut i: usize = start;
    while i < to
        invariant
            from <= start <= i <= to <= chars.len(),
            text == chars@.subrange(from as int, to as int),
            digits == chars@.subrange(start as int, to as int),
            all_digits(digits.take(i - start)),
            value == digits_value(digits.take(i - start)),
            value <= u32::MAX,
            u32_of(text) == if digits.len() > 0 && all_digits(digits) && digits_value(digits)
                <= u32::MAX {
                Some(digits_value(digits) as u32)
            } else {
                None
            },
        decreases to - i,
    {
        let c: char = chars[i];
        assert(digits[i - start] == c);
        if c < '0' || c > '9' {
            assert(!is_digit(digits[i - start]));
            return None;
        }
        let d: u32 = (c as u32) - 48;
        value = value * 10 + d as u64;
        i += 1;
        assert(digits.take(i - start).drop_last() =~= digits.take(i - start - 1));
        assert forall|j: int| 0 <= j < digits.take(i - start).len() implies is_digit(
            #[trigger] digits.take(i - start)[j],
        ) by {
            if j < i - start - 1 {
                assert(is_digit(digits.take(i - start - 1)[j]));
            }
        }
        if value > 0xffff_ffff {
            proof {
                if all_digits(digits) {
                    lemma_digits_value_grows(digits, i - start);
                }
            }
            return None;
        }
    }
    assert(digits.take(i - start) =~= digits);
    Some(value as u32)
}

/// Decimal notation is read back as the number that it denotes.
pub proof fn lemma_decimal_reads_back(n: nat)
    ensures
        decimal(n).len() > 0,
        all_digits(decimal(n)),
        digits_value(decimal(n)) == n,
    decreases n,
{
    if n < 10 {
        let text = decimal(n);
        assert(text.drop_last() =~= Seq::<char>::empty());
        assert(digits_value(text.drop_last()) == 0);
    } else {
        lemma_decimal_reads_back(n / 10);
        let text = decimal(n);
        let head = decimal(n / 10);
        assert(text.drop_last() =~= head);
        assert forall|i: int| 0 <= i < text.len() implies is_digit(#[trigger] text[i]) by {
            if i < head.len() {
                assert(is_digit(head[i]));
            }
        }
    }
}

proof fn lemma_leading_zeros(zeros: nat, text: Seq<char>)
    ensures
        digits_value(repeated('0', zeros) + text) == digits_value(text),
    decreases zeros + text.len(),
{
    let all = repeated('0', zeros) + text;
    if text.len() > 0 {
        lemma_leading_zeros(zeros, text.drop_last());
        assert(all.drop_last() =~= repeated('0', zeros) + text.drop_last());
    } else if zeros > 0 {
        lemma_leading_zeros((zeros - 1) as nat, text);
        assert(all.drop_last() =~= repeated('0', (zeros - 1) as nat) + text);
        assert(all.last() == '0');
    } else {
        assert(all =~= text);
    }
}

/// Decimal notation filled up with zeros is read back as the number that it denotes.
pub proof fn lemma_zero_padded_reads_back(n: nat, width: nat)
    ensures
        zero_padded(n, width).len() > 0,
        all_digits(zero_padded(n, width)),
        digits_value(zero_padded(n, width)) == n,
        n <= u32::MAX ==> u32_of(zero_padded(n, width)) == Some(n as u32),
{
    lemma_decimal_reads_back(n);
    let text = decimal(n);
    let padded = zero_padded(n, width);
    if text.len() < width {
        let zeros = (width - text.len()) as nat;
        lemma_leading_zeros(zeros, text);
        assert forall|i: int| 0 <= i < padded.len() implies is_digit(#[trigger] padded[i]) by {
            if i >= zeros {
                assert(is_digit(text[i - zeros]));
            }
        }
    }
    assert(is_digit(padded[0]));
}

/// The texts that a row of strings holds.
pub open spec fn texts(strings: Seq<String>) -> Seq<Seq<char>> {
    strings.map_values(|s: String| s@)
}

/// Appends a copy of `text` to a row of strings.
pub fn push_text(strings: &mut Vec<String>, text: &str)
    ensures
        texts(final(strings)@) == texts(old(strings)@).push(text@),
{
    strings.push(text.to_owned());
    assert(texts(strings@) =~= texts(old(strings)@).push(text@));
}

/// Appends the decimal notation of `n` to `text`.
pub fn append_decimal(text: &mut String, n: u64)
    ensures
        final(text)@ == old(text)@ + decimal(n as nat),
{
    let digits = decimal_text(n);
    text.append(digits.as_str());
}

/// The ten digits are shown by the characters from 0 to 9, in this order.
pub proof fn lemma_digits_are_shown_in_order(d: int)
    requires
        0 <= d < 10,
    ensures
        digit(d) == "0123456789"@[d],
        is_digit("0123456789"@[d]),
{
    reveal_strlit("0123456789");
}

/// In a row of digits each counts ten times as much as the one behind it: appending the digit
/// `d` makes ten times the value, and `d` more.
pub proof fn lemma_digits_count_tenfold(text: Seq<char>, d: int)
    requires
        0 <= d < 10,
    ensures
        digits_value(Seq::<char>::empty()) == 0,
        digits_value(text.push("0123456789"@[d])) == 10 * digits_value(text) + d,
{
    reveal_strlit("0123456789");
    assert(text.push("0123456789"@[d]).drop_last() =~= text);
}

/// Decimal notation has no leading zero but that of zero itself, and is as long as the number
/// calls for: one digit more than that of a tenth.
pub proof fn lemma_decimal_is_shortest(n: nat)
    ensures
        n > 0 ==> decimal(n)[0] != '0',
        n < 10 ==> decimal(n).len() == 1,
        n >= 10 ==> decimal(n).len() == decimal(n / 10).len() + 1,
    decreases n,
{
    if n >= 10 {
        lemma_decimal_is_shortest(n / 10);
        lemma_decimal_reads_back(n / 10);
    }
}

/// Numbers that fit take up just the width that they are filled up to, with zeros in front.
pub proof fn lemma_zero_padded_width(n: nat, width: nat)
    ensures
        decimal(n).len() <= width ==> zero_padded(n, width).len() == width,
        decimal(n).len() > width ==> zero_padded(n, width) == decimal(n),
        forall|i: int|
            0 <= i < width - decimal(n).len() ==> #[trigger] zero_padded(n, width)[i] == '0',
        n <= 99 && width == 2 ==> zero_padded(n, width).len() == 2,
        n <= 9999 && width == 4 ==> zero_padded(n, width).len() == 4,
        n <= 99999 && width == 5 ==> zero_padded(n, width).len() == 5,
{
    reveal_with_fuel(decimal, 6);
    if n <= 99999 {
        assert(decimal(n).len() <= 5);
        if n <= 9999 {
            assert(decimal(n).len() <= 4);
        }
        if n <= 99 {
            assert(decimal(n).len() <= 2);
        }
    }
}

/// Substituting changes the unwanted characters, all of them, and nothing else.
pub proof fn lemma_only_unwanted_characters_change(
    text: Seq<char>,
    unwanted: Seq<char>,
    substitute: char,
)
    ensures
        substituted(text, unwanted, substitute).len() == text.len(),
        forall|i: int|
            0 <= i < text.len() && unwanted.contains(text[i]) ==> #[trigger] substituted(
                text,
                unwanted,
                substitute,
            )[i] == substitute,
        forall|i: int|
            0 <= i < text.len() && !unwanted.contains(text[i]) ==> #[trigger] substituted(
                text,
                unwanted,
                substitute,
            )[i] == text[i],
{
}

/// A text stands in another if and only if that is some text, the first one, and some text.
pub proof fn lemma_occurrences_split_the_text(
    before: Seq<char>,
    needle: Seq<char>,
    behind: Seq<char>,
    hay: Seq<char>,
)
    ensures
        occurs_in(before + needle + behind, needle),
        occurs_in(hay, needle) ==> exists|a: Seq<char>, b: Seq<char>| hay == #[trigger] (a
            + needle + b),
{
    let whole = before + needle + behind;
    assert(whole.subrange(before.len() as int, (before.len() + needle.len()) as int) =~= needle);
    assert(occurs_at(whole, needle, before.len() as int));
    if occurs_in(hay, needle) {
        let at = choose|at: int| occurs_at(hay, needle, at);
        let a = hay.take(at);
        let b = hay.skip(at + needle.len());
        assert(hay =~= (a + needle) + b);
    }
}

/// Every capital letter has its small one in the same place of the alphabet, and no other
/// character changes.
pub proof fn lemma_capitals_become_small(i: int, c: char)
    requires
        0 <= i < 26,
    ensures
        ascii_small("ABCDEFGHIJKLMNOPQRSTUVWXYZ"@[i]) == "abcdefghijklmnopqrstuvwxyz"@[i],
        ascii_small(c) != c ==> "ABCDEFGHIJKLMNOPQRSTUVWXYZ"@.contains(c),
{
    reveal_strlit("ABCDEFGHIJKLMNOPQRSTUVWXYZ");
    reveal_strlit("abcdefghijklmnopqrstuvwxyz");
    if ascii_small(c) != c {
        assert("ABCDEFGHIJKLMNOPQRSTUVWXYZ"@[c as int - 65] == c);
    }
}

proof fn lemma_line_start_bounds(text: Seq<char>)
    ensures
        0 <= line_start(text) <= text.len(),
        line_start(text) > 0 ==> text[line_start(text) - 1] == '\n',
        forall|i: int| line_start(text) <= i < text.len() ==> text[i] != '\n',
    decreases text.len(),
{
    if text.len() > 0 && text.last() != '\n' {
        let rest = text.drop_last();
        lemma_line_start_bounds(rest);
        assert forall|i: int| line_start(text) <= i < text.len() implies text[i] != '\n' by {
            if i < rest.len() {
                assert(rest[i] != '\n');
            }
        }
        if line_start(text) > 0 {
            assert(rest[line_start(text) - 1] == '\n');
        }
    }
}

/// The last line is what stands between the last line feed but the closing one and the end: it
/// begins the text or follows a line feed, holds none, and what follows it is nothing, a line
/// feed, or a carriage return and a line feed. Only a text without characters has none.
pub proof fn lemma_last_line_ends_the_text(text: Seq<char>)
    ensures
        last_line_of(text) is None <==> text.len() == 0,
        last_line_of(text) matches Some(line) ==> {
            &&& forall|i: int| 0 <= i < line.len() ==> #[trigger] line[i] != '\n'
            &&& exists|before: Seq<char>, ending: Seq<char>|
                {
                    &&& text == #[trigger] (before + line + ending)
                    &&& before.len() == 0 || before.last() == '\n'
                    &&& if text.last() != '\n' {
                        ending.len() == 0
                    } else {
                        ||| ending == seq!['\r', '\n']
                        ||| (ending == seq!['\n'] && (line.len() == 0 || line.last() != '\r'))
                    }
                }
        },
{
    if text.len() > 0 {
        let line = last_line_of(text)->0;
        if text.last() == '\n' {
            let body = text.drop_last();
            lemma_line_start_bounds(body);
            let start = line_start(body);
            let before = text.take(start);
            let whole = body.skip(start);
            assert forall|i: int| 0 <= i < whole.len() implies #[trigger] whole[i] != '\n' by {
                assert(body[start + i] != '\n');
            }
            if start > 0 {
                assert(before.last() == body[start - 1]);
            }
            if whole.len() > 0 && whole.last() == '\r' {
                assert(text =~= (before + line) + seq!['\r', '\n']);
            } else {
                assert(text =~= (before + line) + seq!['\n']);
            }
        } else {
            lemma_line_start_bounds(text);
            let start = line_start(text);
            let before = text.take(start);
            if start > 0 {
                assert(before.last() == text[start - 1]);
            }
            assert(text =~= (before + line) + Seq::<char>::empty());
        }
    }
}

/// Every number that fits is read, in its shortest notation and with zeros in front, with a plus
/// sign before it or without; a number that does not fit is not, nor is a text without digits or
/// with anything but digits behind the sign.
pub proof fn lemma_numbers_are_read(n: nat, width: nat, text: Seq<char>)
    ensures
        n <= u32::MAX ==> u32_of(decimal(n)) == Some(n as u32),
        n <= u32::MAX ==> u32_of(zero_padded(n, width)) == Some(n as u32),
        n <= u32::MAX ==> u32_of(seq!['+'] + decimal(n)) == Some(n as u32),
        n > u32::MAX ==> u32_of(decimal(n)) is None,
        u32_of(Seq::empty()) is None,
        u32_of(seq!['+']) is None,
        (exists|i: int| 1 <= i < text.len() && !is_digit(#[trigger] text[i])) ==> u32_of(text)
            is None,
        text.len() > 0 && text[0] != '+' && !is_digit(text[0]) ==> u32_of(text) is None,
{
    lemma_decimal_reads_back(n);
    lemma_zero_padded_reads_back(n, width);
    assert(is_digit(decimal(n)[0]));
    assert((seq!['+'] + decimal(n)).skip(1) =~= decimal(n));
    assert(seq!['+'].skip(1) =~= Seq::<char>::empty());
    if exists|i: int| 1 <= i < text.len() && !is_digit(#[trigger] text[i]) {
        let i = choose|i: int| 1 <= i < text.len() && !is_digit(#[trigger] text[i]);
        assert(!is_digit(text[i]));
        assert(text.skip(1)[i - 1] == text[i]);
    }
}

/// Behind a line feed, or at the beginning, a text without line feeds is the last line.
pub proof fn lemma_last_line_is_the_rest(before: Seq<char>, line: Seq<char>)
    requires
        line.len() > 0,
        before.len() == 0 || before.last() == '\n',
        forall|i: int| 0 <= i < line.len() ==> #[trigger] line[i] != '\n',
    ensures
        last_line_of(before + line) == Some(line),
{
    let whole = before + line;
    assert(whole.last() == line[line.len() - 1]);
    lemma_line_start_bounds(whole);
    let start = line_start(whole);
    if start < before.len() {
        assert(whole[before.len() - 1] == '\n');
    }
    if start > before.len() {
        assert(whole[start - 1] == line[start - 1 - before.len()]);
    }
    assert(whole.skip(start) =~= line);
}

/// A row of strings holds the text of each of them, in their order.
pub proof fn lemma_texts_are_in_order(strings: Seq<String>)
    ensures
        texts(strings).len() == strings.len(),
        forall|i: int| 0 <= i < strings.len() ==> #[trigger] texts(strings)[i] == strings[i]@,
{
}

/// Somewhere in `hay` stands a text that differs from `needle` in nothing but the case of letters.
pub open spec fn stands_whatever_the_case(hay: Seq<char>, needle: Seq<char>) -> bool {
    exists|at: int|
        0 <= at && at + needle.len() <= hay.len() && same_but_for_case(
            #[trigger] hay.subrange(at, at + needle.len()),
            needle,
        )
}

/// What stands in the small letters of a text stands in the text, but for the case of letters.
pub proof fn lemma_lowercase_finds_whatever_the_case(hay: Seq<char>, needle: Seq<char>)
    requires
        occurs_in(ascii_lowercased(hay), ascii_lowercased(needle)),
    ensures
        stands_whatever_the_case(hay, needle),
{
    let low = ascii_lowercased(hay);
    let small = ascii_lowercased(needle);
    let at = choose|at: int| occurs_at(low, small, at);
    let part = hay.subrange(at, at + needle.len());
    assert forall|i: int| 0 <= i < part.len() implies {
        ||| #[trigger] part[i] == needle[i]
        ||| ('A' <= part[i] <= 'Z' && needle[i] as int == part[i] as int + 32)
        ||| ('A' <= needle[i] <= 'Z' && part[i] as int == needle[i] as int + 32)
    } by {
        assert(low.subrange(at, at + small.len())[i] == small[i]);
        assert(ascii_small(part[i]) == ascii_small(needle[i]));
    }
    assert(same_but_for_case(part, needle));
}

} // verus!

//! Text on the level of characters: decimal numbers, searching, trimming,
//! words and lines.
use vstd::prelude::*;
use vstd::string::*;

verus! {

/// `String::push` appends one character to the end of the string.
pub assume_specification[ String::push ](s: &mut String, ch: char)
    ensures
        final(s)@ == old(s)@.push(ch),
;

/// What `String::from_utf8_lossy` makes of a byte sequence.
pub uninterp spec fn utf8_lossy(bytes: Seq<u8>) -> Seq<char>;

/// Wraps `String::from_utf8_lossy`: the text is a function of the bytes, and
/// for valid UTF-8 it is what the bytes encode.  How ill-formed bytes are
/// replaced is left to the name.
#[verifier::external_body]
pub(crate) fn lossy_text(bytes: &[u8]) -> (text: String)
    ensures
        text@ == utf8_lossy(bytes@),
        vstd::utf8::valid_utf8(bytes@) ==> text@ == vstd::utf8::decode_utf8(bytes@),
{
    String::from_utf8_lossy(bytes).into_owned()
}

/// The characters of a string, in order.
pub fn text_chars(text: &str) -> (chars: Vec<char>)
    ensures
        chars@ == text@,
{
    let mut chars: Vec<char> = Vec::new();
    for c in it: text.chars()
        invariant
            it.seq() == text@,
            chars@ == text@.take(it.index() as int),
    {
        proof {
            assert(text@.take(it.index() as int).push(c) =~= text@.take(it.index() as int + 1));
        }
        chars.push(c);
    }
    proof {
        assert(text@.take(text@.len() as int) =~= text@);
    }
    chars
}

/// The string made of the characters `from..to`.
pub fn chars_text(chars: &[char], from: usize, to: usize) -> (text: String)
    requires
        from <= to <= chars@.len(),
    ensures
        text@ == chars@.subrange(from as int, to as int),
{
    let mut text = String::new();
    let mut i: usize = from;
    while i < to
        invariant
            from <= i <= to <= chars@.len(),
            text@ == chars@.subrange(from as int, i as int),
        decreases to - i,
    {
        proof {
            assert(chars@.subrange(from as int, i as int).push(chars@[i as int])
                =~= chars@.subrange(from as int, i as int + 1));
        }
        text.push(chars[i]);
        i = i + 1;
    }
    text
}

/// Whether two texts are equal.
pub fn same_text(a: &str, b: &str) -> (same: bool)
    ensures
        same == (a@ == b@),
{
    a.to_owned() == b.to_owned()
}

/// The character of a decimal digit.
pub open spec fn digit_char(digit: nat) -> char {
    (48 + digit) as char
}

/// The decimal numeral of a number, without leading zeros.
pub open spec fn decimal_text(n: nat) -> Seq<char>
    decreases n,
{
    if n < 10 {
        seq![digit_char(n)]
    } else {
        decimal_text(n / 10).push(digit_char(n % 10))
    }
}

/// The decimal numeral of `n`.
pub fn decimal(n: u64) -> (text: String)
    ensures
        text@ == decimal_text(n as nat),
    decreases n,
{
    let digit: char = (48u8 + (n % 10) as u8) as char;
    if n < 10 {
        let mut text = String::new();
        text.push(digit);
        proof {
            assert(text@ =~= seq![digit_char(n as nat)]);
        }
        text
    } else {
        let mut text = decimal(n / 10);
        text.push(digit);
        text
    }
}

/// The decimal numeral of a number, with a minus sign before it where it is
/// negative.
pub open spec fn signed_text(n: int) -> Seq<char> {
    if n < 0 {
        "-"@ + decimal_text((-n) as nat)
    } else {
        decimal_text(n as nat)
    }
}

/// The decimal numeral of `n`, with its sign where it is negative.
pub fn decimal_signed(n: i64) -> (text: String)
    ensures
        text@ == signed_text(n as int),
{
    if n < 0 {
        let magnitude: u64 = (-(n as i128)) as u64;
        "-".to_owned().concat(decimal(magnitude).as_str())
    } else {
        decimal(n as u64)
    }
}

/// `text` padded with spaces on the left to at least `width` characters.
pub open spec fn right_aligned(text: Seq<char>, width: nat) -> Seq<char> {
    if text.len() < width {
        Seq::new((width - text.len()) as nat, |i: int| ' ') + text
    } else {
        text
    }
}

/// `text` padded with spaces on the right to at least `width` characters.
pub open spec fn left_aligned(text: Seq<char>, width: nat) -> Seq<char> {
    if text.len() < width {
        text + Seq::new((width - text.len()) as nat, |i: int| ' ')
    } else {
        text
    }
}

/// A string of `count` copies of one character.
pub fn repeated(c: char, count: usize) -> (text: String)
    ensures
        text@ == Seq::new(count as nat, |i: int| c),
{
    let mut text = String::new();
    let mut i: usize = 0;
    while i < count
        invariant
            i <= count,
            text@ =~= Seq::new(i as nat, |k: int| c),
        decreases count - i,
    {
        text.push(c);
        i = i + 1;
    }
    text
}

/// Right-aligns `text` in a field of `width` characters.
pub fn align_right(text: &str, width: usize) -> (out: String)
    ensures
        out@ == right_aligned(text@, width as nat),
{
    let len: usize = text.unicode_len();
    if len < width {
        repeated(' ', width - len).concat(text)
    } else {
        text.to_owned()
    }
}

/// Left-aligns `text` in a field of `width` characters.
pub fn align_left(text: &str, width: usize) -> (out: String)
    ensures
        out@ == left_aligned(text@, width as nat),
{
    let len: usize = text.unicode_len();
    if len < width {
        text.to_owned().concat(repeated(' ', width - len).as_str())
    } else {
        text.to_owned()
    }
}

/// `pattern` stands in `text` at position `at`.
pub open spec fn occurs_at(text: Seq<char>, pattern: Seq<char>, at: int) -> bool {
    &&& 0 <= at
    &&& at + pattern.len() <= text.len()
    &&& text.subrange(at, at + pattern.len()) == pattern
}

/// The first position at or after `from` where `pattern` stands in `text`.
pub open spec fn find_from(text: Seq<char>, pattern: Seq<char>, from: int) -> Option<int>
    decreases text.len() + 1 - from,
{
    if from + pattern.len() > text.len() {
        None
    } else if occurs_at(text, pattern, from) {
        Some(from)
    } else {
        find_from(text, pattern, from + 1)
    }
}

/// The first position where `pattern` stands in `text`.
pub open spec fn find(text: Seq<char>, pattern: Seq<char>) -> Option<int> {
    find_from(text, pattern, 0)
}

/// `find_from` gives the least position at or after `from` where the pattern
/// stands, and none exactly where there is no such position.
pub proof fn find_from_is_least(text: Seq<char>, pattern: Seq<char>, from: int)
    requires
        0 <= from,
    ensures
        match find_from(text, pattern, from) {
            Some(at) => from <= at && occurs_at(text, pattern, at) && forall|j: int|
                from <= j < at ==> !occurs_at(text, pattern, j),
            None => forall|j: int| from <= j ==> !occurs_at(text, pattern, j),
        },
    decreases text.len() + 1 - from,
{
    if from + pattern.len() > text.len() {
    } else if occurs_at(text, pattern, from) {
    } else {
        find_from_is_least(text, pattern, from + 1);
    }
}

/// Whether `pattern` stands in `chars` at `at`.
fn matches_at(chars: &[char], pattern: &[char], at: usize) -> (hit: bool)
    requires
        at + pattern@.len() <= chars@.len(),
    ensures
        hit == occurs_at(chars@, pattern@, at as int),
{
    let total: usize = chars.len();
    let mut k: usize = 0;
    while k < pattern.len()
        invariant
            k <= pattern@.len(),
            total == chars@.len(),
            at + pattern@.len() <= chars@.len(),
            forall|j: int| 0 <= j < k ==> chars@[at + j] == pattern@[j],
        decreases pattern@.len() - k,
    {
        if chars[at + k] != pattern[k] {
            proof {
                assert(chars@.subrange(at as int, at + pattern@.len())[k as int] != pattern@[k as int]);
            }
            return false;
        }
        k = k + 1;
    }
    proof {
        assert(chars@.subrange(at as int, at + pattern@.len()) =~= pattern@);
    }
    true
}

/// The first position of `pattern` in `chars`.
pub fn find_chars(chars: &[char], pattern: &[char]) -> (found: Option<usize>)
    ensures
        match found {
            Some(at) => find(chars@, pattern@) == Some(at as int),
            None => find(chars@, pattern@) is None,
        },
{
    if pattern.len() > chars.len() {
        return None;
    }
    let last: usize = chars.len() - pattern.len();
    let mut at: usize = 0;
    loop
        invariant
            last + pattern@.len() == chars@.len(),
            at <= last,
            find(chars@, pattern@) == find_from(chars@, pattern@, at as int),
        decreases last - at,
    {
        if matches_at(chars, pattern, at) {
            return Some(at);
        }
        if at == last {
            proof {
                reveal_with_fuel(find_from, 2);
            }
            return None;
        }
        at = at + 1;
    }
}

/// The pattern stands somewhere in the text.
pub open spec fn contains_text(text: Seq<char>, pattern: Seq<char>) -> bool {
    find(text, pattern) is Some
}

/// Whether `pattern` stands in `text`.
pub fn contains(text: &str, pattern: &str) -> (hit: bool)
    ensures
        hit == contains_text(text@, pattern@),
{
    let chars = text_chars(text);
    let wanted = text_chars(pattern);
    find_chars(chars.as_slice(), wanted.as_slice()).is_some()
}

/// A text that has the pattern between a prefix and a suffix contains it.
pub proof fn framed_pattern_is_contained(prefix: Seq<char>, pattern: Seq<char>, suffix: Seq<char>)
    ensures
        contains_text(prefix + pattern + suffix, pattern),
{
    let text = prefix + pattern + suffix;
    find_from_is_least(text, pattern, 0);
    assert(text.subrange(prefix.len() as int, (prefix.len() + pattern.len()) as int) =~= pattern);
    assert(occurs_at(text, pattern, prefix.len() as int));
}

/// The position of the first character equal to `c`.
pub open spec fn first_index(text: Seq<char>, c: char) -> Option<int>
    decreases text.len(),
{
    if text.len() == 0 {
        None
    } else if first_index(text.drop_last(), c) is Some {
        first_index(text.drop_last(), c)
    } else if text.last() == c {
        Some(text.len() - 1)
    } else {
        None
    }
}

/// The position of the last character equal to `c`.
pub open spec fn last_index(text: Seq<char>, c: char) -> Option<int>
    decreases text.len(),
{
    if text.len() == 0 {
        None
    } else if text.last() == c {
        Some(text.len() - 1)
    } else {
        last_index(text.drop_last(), c)
    }
}

/// `first_index` gives the least position of the character, `last_index` the
/// greatest, and both give none exactly where the character does not occur.
pub proof fn indices_are_extreme(text: Seq<char>, c: char)
    ensures
        match first_index(text, c) {
            Some(at) => 0 <= at < text.len() && text[at] == c && forall|j: int|
                0 <= j < at ==> text[j] != c,
            None => forall|j: int| 0 <= j < text.len() ==> text[j] != c,
        },
        match last_index(text, c) {
            Some(at) => 0 <= at < text.len() && text[at] == c && forall|j: int|
                at < j < text.len() ==> text[j] != c,
            None => forall|j: int| 0 <= j < text.len() ==> text[j] != c,
        },
    decreases text.len(),
{
    if text.len() > 0 {
        indices_are_extreme(text.drop_last(), c);
        assert forall|j: int| 0 <= j < text.len() - 1 implies text[j] == text.drop_last()[j] by {}
    }
}

/// The position of the first `c` in `chars`.
pub fn find_char(chars: &[char], c: char) -> (found: Option<usize>)
    ensures
        match found {
            Some(at) => first_index(chars@, c) == Some(at as int),
            None => first_index(chars@, c) is None,
        },
{
    proof {
        indices_are_extreme(chars@, c);
    }
    let mut i: usize = 0;
    while i < chars.len()
        invariant
            i <= chars@.len(),
            forall|j: int| 0 <= j < i ==> chars@[j] != c,
            match first_index(chars@, c) {
                Some(at) => 0 <= at < chars@.len() && chars@[at] == c && forall|j: int|
                    0 <= j < at ==> chars@[j] != c,
                None => forall|j: int| 0 <= j < chars@.len() ==> chars@[j] != c,
            },
        decreases chars@.len() - i,
    {
        if chars[i] == c {
            return Some(i);
        }
        i = i + 1;
    }
    None
}

/// The position of the last `c` in `chars`.
pub fn rfind_char(chars: &[char], c: char) -> (found: Option<usize>)
    ensures
        match found {
            Some(at) => last_index(chars@, c) == Some(at as int),
            None => last_index(chars@, c) is None,
        },
{
    proof {
        indices_are_extreme(chars@, c);
    }
    let mut i: usize = chars.len();
    while i > 0
        invariant
            i <= chars@.len(),
            forall|j: int| i <= j < chars@.len() ==> chars@[j] != c,
            match last_index(chars@, c) {
                Some(at) => 0 <= at < chars@.len() && chars@[at] == c && forall|j: int|
                    at < j < chars@.len() ==> chars@[j] != c,
                None => forall|j: int| 0 <= j < chars@.len() ==> chars@[j] != c,
            },
        decreases i,
    {
        i = i - 1;
        if chars[i] == c {
            return Some(i);
        }
    }
    None
}

/// The characters with the Unicode property White_Space.
pub open spec fn is_white_space(c: char) -> bool {
    ||| '\u{9}' <= c <= '\u{d}'
    ||| c == '\u{20}'
    ||| c == '\u{85}'
    ||| c == '\u{a0}'
    ||| c == '\u{1680}'
    ||| '\u{2000}' <= c <= '\u{200a}'
    ||| c == '\u{2028}'
    ||| c == '\u{2029}'
    ||| c == '\u{202f}'
    ||| c == '\u{205f}'
    ||| c == '\u{3000}'
}

/// Whether `c` is white space.
pub fn white_space(c: char) -> (is: bool)
    ensures
        is == is_white_space(c),
{
    ('\u{9}' <= c && c <= '\u{d}') || c == '\u{20}' || c == '\u{85}' || c == '\u{a0}' || c
        == '\u{1680}' || ('\u{2000}' <= c && c <= '\u{200a}') || c == '\u{2028}' || c == '\u{2029}'
        || c == '\u{202f}' || c == '\u{205f}' || c == '\u{3000}'
}

/// `text` without its leading white space.
pub open spec fn trimmed_start(text: Seq<char>) -> Seq<char>
    decreases text.len(),
{
    if text.len() > 0 && is_white_space(text[0]) {
        trimmed_start(text.drop_first())
    } else {
        text
    }
}

/// `text` without its trailing white space.
pub open spec fn trimmed_end(text: Seq<char>) -> Seq<char>
    decreases text.len(),
{
    if text.len() > 0 && is_white_space(text.last()) {
        trimmed_end(text.drop_last())
    } else {
        text
    }
}

/// `text` without leading and trailing white space.
pub open spec fn trimmed(text: Seq<char>) -> Seq<char> {
    trimmed_end(trimmed_start(text))
}

/// Removes leading and trailing white space.
pub fn trim(text: &str) -> (out: String)
    ensures
        out@ == trimmed(text@),
{
    let chars = text_chars(text);
    let mut from: usize = 0;
    proof {
        assert(chars@.skip(0) =~= chars@);
    }
    while from < chars.len() && white_space(chars[from])
        invariant
            from <= chars@.len(),
            trimmed_start(chars@) == trimmed_start(chars@.skip(from as int)),
        ensures
            from <= chars@.len(),
            trimmed_start(chars@) == chars@.skip(from as int),
        decreases chars@.len() - from,
    {
        proof {
            assert(chars@.skip(from as int).drop_first() =~= chars@.skip(from + 1));
        }
        from = from + 1;
    }
    let ghost rest = chars@.skip(from as int);
    let mut to: usize = chars.len();
    proof {
        assert(chars@.subrange(from as int, to as int) =~= rest);
    }
    while from < to && white_space(chars[to - 1])
        invariant
            from <= to <= chars@.len(),
            trimmed_end(rest) == trimmed_end(chars@.subrange(from as int, to as int)),
        ensures
            from <= to <= chars@.len(),
            trimmed_end(rest) == chars@.subrange(from as int, to as int),
        decreases to,
    {
        proof {
            assert(chars@.subrange(from as int, to as int).drop_last()
                =~= chars@.subrange(from as int, to - 1));
        }
        to = to - 1;
    }
    chars_text(chars.as_slice(), from, to)
}

/// A character with ASCII capitals turned into small letters.
pub open spec fn ascii_lower(c: char) -> char {
    if 'A' <= c <= 'Z' {
        ((c as u32) + 32) as char
    } else {
        c
    }
}

/// A text with ASCII capitals turned into small letters.
pub open spec fn lowered(text: Seq<char>) -> Seq<char> {
    text.map_values(|c: char| ascii_lower(c))
}

/// Turns ASCII capitals into small letters.
pub fn to_ascii_lower(text: &str) -> (out: String)
    ensures
        out@ == lowered(text@),
{
    let chars = text_chars(text);
    let mut out = String::new();
    let mut i: usize = 0;
    while i < chars.len()
        invariant
            i <= chars@.len(),
            out@ =~= lowered(chars@.take(i as int)),
        decreases chars@.len() - i,
    {
        let c: char = chars[i];
        proof {
            assert(chars@.take(i + 1) =~= chars@.take(i as int).push(c));
        }
        if 'A' <= c && c <= 'Z' {
            out.push(((c as u8) + 32u8) as char);
        } else {
            out.push(c);
        }
        i = i + 1;
    }
    proof {
        assert(chars@.take(chars@.len() as int) =~= chars@);
    }
    out
}

/// The number that decimal digits write down.
pub open spec fn numeral_value(text: Seq<char>) -> int
    decreases text.len(),
{
    if text.len() == 0 {
        0
    } else {
        10 * numeral_value(text.drop_last()) + (text.last() as int - 48)
    }
}

/// A number is written with decimal digits, without a zero in front, and reads
/// back as the number.
pub proof fn decimal_reads_back(n: nat)
    ensures
        decimal_text(n).len() > 0,
        forall|i: int| 0 <= i < decimal_text(n).len() ==> '0' <= #[trigger] decimal_text(n)[i] <= '9',
        numeral_value(decimal_text(n)) == n,
        n > 0 ==> decimal_text(n)[0] != '0',
        n == 0 ==> decimal_text(n) =~= seq!['0'],
    decreases n,
{
    let text = decimal_text(n);
    if n < 10 {
        reveal_with_fuel(numeral_value, 2);
        assert(text.drop_last() =~= Seq::<char>::empty());
    } else {
        decimal_reads_back(n / 10);
        assert(text.drop_last() =~= decimal_text(n / 10));
        assert(text[0] == decimal_text(n / 10)[0]);
    }
}

/// Different numbers have different numerals.
pub proof fn numerals_differ(m: nat, n: nat)
    ensures
        decimal_text(m) == decimal_text(n) <==> m == n,
{
    decimal_reads_back(m);
    decimal_reads_back(n);
}

/// A number with a sign is written as its digits, and a negative one as a minus
/// sign and the digits of its magnitude.
pub proof fn signed_reads_back(n: int)
    ensures
        n >= 0 ==> signed_text(n) == decimal_text(n as nat) && numeral_value(signed_text(n)) == n,
        n < 0 ==> signed_text(n)[0] == '-' && signed_text(n).skip(1) == decimal_text((-n) as nat)
            && -numeral_value(signed_text(n).skip(1)) == n,
{
    reveal_strlit("-");
    if n < 0 {
        decimal_reads_back((-n) as nat);
        assert(signed_text(n).skip(1) =~= decimal_text((-n) as nat));
    } else {
        decimal_reads_back(n as nat);
    }
}

/// Aligning fills a field with spaces and keeps the text: on the right the text
/// ends the field, on the left it starts it; a text that is too long stays as it
/// is.
pub proof fn aligning_only_adds_spaces(text: Seq<char>, width: nat)
    ensures
        right_aligned(text, width).len() == if text.len() < width {
            width
        } else {
            text.len()
        },
        left_aligned(text, width).len() == right_aligned(text, width).len(),
        right_aligned(text, width).skip(right_aligned(text, width).len() - text.len()) == text,
        left_aligned(text, width).take(text.len() as int) == text,
        forall|i: int|
            0 <= i < right_aligned(text, width).len() - text.len() ==> #[trigger] right_aligned(
                text,
                width,
            )[i] == ' ',
        forall|i: int|
            text.len() <= i < left_aligned(text, width).len() ==> #[trigger] left_aligned(
                text,
                width,
            )[i] == ' ',
{
    let right = right_aligned(text, width);
    let left = left_aligned(text, width);
    assert(right.skip(right.len() - text.len()) =~= text);
    assert(left.take(text.len() as int) =~= text);
}

/// A text contains a pattern exactly if it is something, the pattern and something
/// more.
pub proof fn containing_is_standing_in(text: Seq<char>, pattern: Seq<char>)
    ensures
        contains_text(text, pattern) <==> exists|before: Seq<char>, after: Seq<char>|
            text == #[trigger] (before + pattern + after),
{
    find_from_is_least(text, pattern, 0);
    if contains_text(text, pattern) {
        let at = find(text, pattern)->0;
        let before = text.take(at);
        let after = text.skip(at + pattern.len());
        assert(text =~= before + text.subrange(at, at + pattern.len()) + after);
        assert(text == before + pattern + after);
    }
    if exists|before: Seq<char>, after: Seq<char>| text == #[trigger] (before + pattern + after) {
        let (before, after) = choose|before: Seq<char>, after: Seq<char>|
            text == #[trigger] (before + pattern + after);
        framed_pattern_is_contained(before, pattern, after);
    }
}

/// White space is what Unicode gives the property White_Space: tab to carriage
/// return, the blank, next line, and the spaces and separators beyond ASCII.
pub proof fn white_space_is_that_of_unicode(c: char)
    ensures
        is_white_space(c) <==> 9 <= c as int <= 13 || c as int == 32 || c as int == 133 || c as int
            == 160 || c as int == 5760 || 8192 <= c as int <= 8202 || c as int == 8232 || c as int
            == 8233 || c as int == 8239 || c as int == 8287 || c as int == 12288,
{
}

/// Trimming takes white space off both ends and nothing else: what is left
/// neither starts nor ends with white space.
pub proof fn trimming_takes_white_space_off(
    before: Seq<char>,
    core: Seq<char>,
    after: Seq<char>,
)
    requires
        forall|i: int| 0 <= i < before.len() ==> is_white_space(#[trigger] before[i]),
        forall|i: int| 0 <= i < after.len() ==> is_white_space(#[trigger] after[i]),
        core.len() > 0 ==> !is_white_space(core[0]) && !is_white_space(core.last()),
    ensures
        trimmed(before + core + after) == core,
    decreases before.len() + after.len(),
{
    let text = before + core + after;
    if before.len() > 0 {
        assert(text[0] == before[0]);
        assert(text.drop_first() =~= before.drop_first() + core + after);
        trimming_takes_white_space_off(before.drop_first(), core, after);
    } else if core.len() > 0 {
        assert(text =~= core + after);
        assert(text[0] == core[0]);
        assert(trimmed_start(text) == text);
        trimming_the_end(core, after);
    } else {
        assert(text =~= after);
        blank_is_trimmed_away(after);
        assert(core =~= Seq::<char>::empty());
    }
}

proof fn trimming_the_end(core: Seq<char>, after: Seq<char>)
    requires
        core.len() > 0,
        !is_white_space(core.last()),
        forall|i: int| 0 <= i < after.len() ==> is_white_space(#[trigger] after[i]),
    ensures
        trimmed_end(core + after) == core,
    decreases after.len(),
{
    let text = core + after;
    if after.len() > 0 {
        assert(text.last() == after[after.len() - 1]);
        assert(text.drop_last() =~= core + after.drop_last());
        trimming_the_end(core, after.drop_last());
    } else {
        assert(text =~= core);
    }
}

proof fn blank_is_trimmed_away(text: Seq<char>)
    requires
        forall|i: int| 0 <= i < text.len() ==> is_white_space(#[trigger] text[i]),
    ensures
        trimmed(text) == Seq::<char>::empty(),
    decreases text.len(),
{
    if text.len() > 0 {
        blank_is_trimmed_away(text.drop_first());
    } else {
        assert(text =~= Seq::<char>::empty());
    }
}

/// Lowering changes the capitals A to Z into the letters thirty-two places on,
/// and no other character.
pub proof fn lowering_changes_capitals_only(text: Seq<char>, i: int)
    requires
        0 <= i < text.len(),
    ensures
        lowered(text).len() == text.len(),
        65 <= text[i] as int <= 90 ==> lowered(text)[i] as int == text[i] as int + 32,
        !(65 <= text[i] as int <= 90) ==> lowered(text)[i] == text[i],
{
}

/// The pieces of a text between the characters `c`.
pub open spec fn pieces(text: Seq<char>, c: char) -> Seq<Seq<char>>
    decreases text.len(),
{
    if text.len() == 0 {
        seq![Seq::empty()]
    } else {
        let before = pieces(text.drop_last(), c);
        if text.last() == c {
            before.push(Seq::empty())
        } else {
            before.drop_last().push(before.last().push(text.last()))
        }
    }
}

/// A text without the character is one piece.
pub proof fn one_piece(text: Seq<char>, c: char)
    requires
        !text.contains(c),
    ensures
        pieces(text, c) == seq![text],
    decreases text.len(),
{
    if text.len() == 0 {
        assert(text =~= Seq::<char>::empty());
    } else {
        assert(text.last() != c) by {
            assert(text.contains(text.last()));
        }
        assert forall|i: int| 0 <= i < text.len() - 1 implies text.drop_last()[i] != c by {
            assert(text.contains(text[i]));
        }
        one_piece(text.drop_last(), c);
        assert(text.drop_last().push(text.last()) =~= text);
        assert(pieces(text, c) =~= seq![text]);
    }
}

/// What stands behind the last separator is the last piece.
pub proof fn one_more_piece(text: Seq<char>, c: char, piece: Seq<char>)
    requires
        !piece.contains(c),
    ensures
        pieces(text + seq![c] + piece, c) == pieces(text, c).push(piece),
    decreases piece.len(),
{
    let whole = text + seq![c] + piece;
    if piece.len() == 0 {
        assert(whole.drop_last() =~= text);
        assert(piece =~= Seq::<char>::empty());
    } else {
        let less = piece.drop_last();
        assert(piece.last() != c) by {
            assert(piece.contains(piece.last()));
        }
        assert forall|i: int| 0 <= i < less.len() implies less[i] != c by {
            assert(piece.contains(piece[i]));
        }
        one_more_piece(text, c, less);
        assert(whole.drop_last() =~= text + seq![c] + less);
        assert(less.push(piece.last()) =~= piece);
        assert(pieces(text, c).push(less).drop_last() =~= pieces(text, c));
    }
}

} // verus!

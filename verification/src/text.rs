//! Text: decimal numbers, hexadecimal, and the character classes that the
//! cleaning rules are written in.

use vstd::prelude::*;

verus! {

/// `String::push`: the character goes to the end of the text.
pub assume_specification[ String::push ](s: &mut String, c: char)
    ensures
        final(s)@ == old(s)@.push(c),
;

/// How `s` shows itself between quotation marks, with what cannot stand
/// there escaped.
pub uninterp spec fn quoted_text(s: Seq<char>) -> Seq<char>;

/// `<str as Debug>::fmt`, through `format!`: `s` between quotation marks.
/// Which characters are escaped, and how, is not stated.
#[verifier::external_body]
pub(crate) fn quoted(s: &str) -> (text: String)
    ensures
        text@ == quoted_text(s@),
{
    format!("{s:?}")
}

// ---------------------------------------------------------------------------
// Characters

/// The characters of `s`, in order.
pub fn chars_of(s: &str) -> (chars: Vec<char>)
    ensures
        chars@ == s@,
{
    let mut chars: Vec<char> = Vec::new();
    for c in it: s.chars()
        invariant
            it.seq() == s@,
            chars@ == s@.take(it.index() as int),
    {
        chars.push(c);
        assert(s@.take(it.index() as int + 1) =~= s@.take(it.index() as int).push(c));
    }
    assert(s@.take(s@.len() as int) =~= s@);
    chars
}

/// The text of `chars[from..to]`.
pub fn text_between(chars: &Vec<char>, from: usize, to: usize) -> (text: String)
    requires
        from <= to <= chars.len(),
    ensures
        text@ == chars@.subrange(from as int, to as int),
{
    let mut text = String::new();
    let mut i: usize = from;
    while i < to
        invariant
            from <= i <= to <= chars.len(),
            text@ == chars@.subrange(from as int, i as int),
        decreases to - i,
    {
        text.push(chars[i]);
        proof {
            assert(chars@.subrange(from as int, i as int + 1) =~= chars@.subrange(from as int, i as int).push(
                chars@[i as int],
            ));
        }
        i = i + 1;
    }
    text
}

/// The two texts are the same.
pub fn same_text(a: &str, b: &str) -> (r: bool)
    ensures
        r == (a@ == b@),
{
    let left = a.to_owned();
    let right = b.to_owned();
    left == right
}

/// The character has the Unicode property `White_Space`.
pub open spec fn is_white_space(c: char) -> bool {
    let v = c as u32;
    ||| 0x09 <= v <= 0x0d
    ||| v == 0x20
    ||| v == 0x85
    ||| v == 0xa0
    ||| v == 0x1680
    ||| 0x2000 <= v <= 0x200a
    ||| v == 0x2028
    ||| v == 0x2029
    ||| v == 0x202f
    ||| v == 0x205f
    ||| v == 0x3000
}

/// Whether `c` is white space.
pub fn white_space(c: char) -> (r: bool)
    ensures
        r == is_white_space(c),
{
    let v: u32 = c as u32;
    (0x09 <= v && v <= 0x0d) || v == 0x20 || v == 0x85 || v == 0xa0 || v == 0x1680 || (0x2000 <= v && v <= 0x200a) || v
        == 0x2028 || v == 0x2029 || v == 0x202f || v == 0x205f || v == 0x3000
}

/// The character is a control character (Unicode category `Cc`).
pub open spec fn is_control(c: char) -> bool {
    let v = c as u32;
    v <= 0x1f || 0x7f <= v <= 0x9f
}

/// Whether `c` is a control character.
pub fn control(c: char) -> (r: bool)
    ensures
        r == is_control(c),
{
    let v: u32 = c as u32;
    v <= 0x1f || (0x7f <= v && v <= 0x9f)
}

/// `c` in upper case where it is an ASCII letter.
pub open spec fn ascii_upper(c: char) -> char {
    if 'a' <= c <= 'z' {
        ((c as u8) - 32) as u8 as char
    } else {
        c
    }
}

/// `c` in upper case where it is an ASCII letter.
pub fn to_ascii_upper(c: char) -> (r: char)
    ensures
        r == ascii_upper(c),
{
    if 'a' <= c && c <= 'z' {
        ((c as u8) - 32) as char
    } else {
        c
    }
}

/// Every ASCII letter of `s` in upper case.
pub open spec fn ascii_uppercase(s: Seq<char>) -> Seq<char> {
    s.map_values(|c: char| ascii_upper(c))
}

/// `c` is an ASCII letter or digit.
pub open spec fn is_ascii_alphanumeric(c: char) -> bool {
    'a' <= c <= 'z' || 'A' <= c <= 'Z' || '0' <= c <= '9'
}

/// Whether `c` is an ASCII letter or digit.
pub fn ascii_alphanumeric(c: char) -> (r: bool)
    ensures
        r == is_ascii_alphanumeric(c),
{
    ('a' <= c && c <= 'z') || ('A' <= c && c <= 'Z') || ('0' <= c && c <= '9')
}

/// The two texts differ at most in the case of ASCII letters.
pub open spec fn same_ignoring_case(a: Seq<char>, b: Seq<char>) -> bool {
    ascii_uppercase(a) == ascii_uppercase(b)
}

/// Whether the two texts differ at most in the case of ASCII letters.
pub fn eq_ignoring_case(a: &str, b: &str) -> (r: bool)
    ensures
        r == same_ignoring_case(a@, b@),
{
    let left = chars_of(a);
    let right = chars_of(b);
    if left.len() != right.len() {
        assert(ascii_uppercase(a@).len() != ascii_uppercase(b@).len());
        return false;
    }
    let mut i: usize = 0;
    while i < left.len()
        invariant
            left@ == a@,
            right@ == b@,
            left.len() == right.len(),
            i <= left.len(),
            forall|j: int| 0 <= j < i ==> ascii_upper(#[trigger] left@[j]) == ascii_upper(right@[j]),
        decreases left.len() - i,
    {
        if to_ascii_upper(left[i]) != to_ascii_upper(right[i]) {
            assert(ascii_uppercase(a@)[i as int] != ascii_uppercase(b@)[i as int]);
            return false;
        }
        i = i + 1;
    }
    assert(ascii_uppercase(a@) =~= ascii_uppercase(b@));
    true
}

// ---------------------------------------------------------------------------
// Trimming

/// `s` without the white space it starts with.
pub open spec fn trimmed_start(s: Seq<char>) -> Seq<char>
    decreases s.len(),
{
    if s.len() > 0 && is_white_space(s[0]) {
        trimmed_start(s.drop_first())
    } else {
        s
    }
}

/// `s` without the white space it ends with.
pub open spec fn trimmed_end(s: Seq<char>) -> Seq<char>
    decreases s.len(),
{
    if s.len() > 0 && is_white_space(s.last()) {
        trimmed_end(s.drop_last())
    } else {
        s
    }
}

/// `s` without the white space it starts and ends with.
pub open spec fn trimmed(s: Seq<char>) -> Seq<char> {
    trimmed_end(trimmed_start(s))
}

/// `s` without the white space around it.
pub fn trim(s: &str) -> (text: String)
    ensures
        text@ == trimmed(s@),
{
    let chars = chars_of(s);
    let n: usize = chars.len();
    let mut from: usize = 0;
    assert(chars@.subrange(0, n as int) =~= s@);
    while from < n && white_space(chars[from])
        invariant
            n == chars.len(),
            from <= n,
            trimmed_start(chars@.subrange(from as int, n as int)) == trimmed_start(s@),
        decreases n - from,
    {
        assert(chars@.subrange(from as int, n as int).drop_first() =~= chars@.subrange(from as int + 1, n as int));
        from = from + 1;
    }
    assert(trimmed_start(s@) == chars@.subrange(from as int, n as int));
    let mut to: usize = n;
    while from < to && white_space(chars[to - 1])
        invariant
            n == chars.len(),
            from <= to <= n,
            trimmed_end(chars@.subrange(from as int, to as int)) == trimmed(s@),
        decreases to - from,
    {
        assert(chars@.subrange(from as int, to as int).last() == chars@[to - 1]);
        assert(chars@.subrange(from as int, to as int).drop_last() =~= chars@.subrange(from as int, to as int - 1));
        to = to - 1;
    }
    assert(from < to ==> chars@.subrange(from as int, to as int).last() == chars@[to - 1]);
    text_between(&chars, from, to)
}

/// `s` trimmed and cut to its first `max` characters.
pub open spec fn cleaned(s: Seq<char>, max: nat) -> Seq<char> {
    let t = trimmed(s);
    if t.len() > max {
        t.take(max as int)
    } else {
        t
    }
}

/// What is kept of an optional text: trimmed, cut to `max` characters, and
/// nothing at all where nothing is left.
pub open spec fn cleaned_option(value: Option<Seq<char>>, max: nat) -> Option<Seq<char>> {
    match value {
        Some(s) => if cleaned(s, max).len() == 0 {
            None
        } else {
            Some(cleaned(s, max))
        },
        None => None,
    }
}

/// The view of an optional text.
pub open spec fn opt_text(value: Option<String>) -> Option<Seq<char>> {
    match value {
        Some(s) => Some(s@),
        None => None,
    }
}

/// Trim a name somebody supplied, cap it at `max` characters, and treat an
/// empty result as absent.
pub fn clean(value: &Option<String>, max: usize) -> (r: Option<String>)
    ensures
        opt_text(r) == cleaned_option(opt_text(*value), max as nat),
{
    match value {
        None => None,
        Some(s) => {
            let chars = chars_of(trim(s.as_str()).as_str());
            let to: usize = if chars.len() > max { max } else { chars.len() };
            let text = text_between(&chars, 0, to);
            assert(text@ =~= cleaned(s@, max as nat));
            if to == 0 {
                None
            } else {
                Some(text)
            }
        },
    }
}

/// A copy of an optional text.
pub fn copy_text(value: &Option<String>) -> (r: Option<String>)
    ensures
        r == *value,
{
    match value {
        None => None,
        Some(s) => Some(s.clone()),
    }
}

// ---------------------------------------------------------------------------
// Splitting

/// Where `c` first stands in `s`, or the length of `s` where it does not.
pub open spec fn first_of(s: Seq<char>, c: char) -> int
    decreases s.len(),
{
    if s.len() == 0 || s[0] == c {
        0
    } else {
        1 + first_of(s.drop_first(), c)
    }
}

/// What stands before and after the first `c`.
pub open spec fn split_at_first(s: Seq<char>, c: char) -> Option<(Seq<char>, Seq<char>)> {
    let i = first_of(s, c);
    if i < s.len() {
        Some((s.take(i), s.skip(i + 1)))
    } else {
        None
    }
}

/// What stands before and after the first `c` in `s`.
pub fn split_once(s: &str, c: char) -> (r: Option<(String, String)>)
    ensures
        match r {
            Some((before, after)) => split_at_first(s@, c) == Some((before@, after@)),
            None => split_at_first(s@, c) is None,
        },
{
    let chars = chars_of(s);
    let n: usize = chars.len();
    let mut i: usize = 0;
    assert(s@.skip(0) =~= s@);
    while i < n && chars[i] != c
        invariant
            chars@ == s@,
            n == chars.len(),
            i <= n,
            first_of(s@, c) == i + first_of(s@.skip(i as int), c),
        decreases n - i,
    {
        assert(s@.skip(i as int)[0] == chars@[i as int]);
        assert(s@.skip(i as int).drop_first() =~= s@.skip(i as int + 1));
        i = i + 1;
    }
    if i < n {
        assert(s@.skip(i as int)[0] == c);
        let before = text_between(&chars, 0, i);
        let after = text_between(&chars, i + 1, n);
        assert(before@ =~= s@.take(i as int));
        assert(after@ =~= s@.skip(i as int + 1));
        Some((before, after))
    } else {
        assert(s@.skip(i as int).len() == 0);
        None
    }
}

/// Whether `c` stands in `s`.
pub fn contains_char(s: &str, c: char) -> (r: bool)
    ensures
        r == s@.contains(c),
{
    let chars = chars_of(s);
    let mut i: usize = 0;
    while i < chars.len()
        invariant
            chars@ == s@,
            i <= chars.len(),
            forall|j: int| 0 <= j < i ==> #[trigger] s@[j] != c,
        decreases chars.len() - i,
    {
        if chars[i] == c {
            assert(s@[i as int] == c);
            return true;
        }
        i = i + 1;
    }
    false
}

// ---------------------------------------------------------------------------
// Numbers

/// The decimal digit of `d`.
pub open spec fn digit_char(d: int) -> char {
    (48 + d) as u8 as char
}

/// The decimal numeral of a natural number, without leading zeros.
pub open spec fn decimal(n: nat) -> Seq<char>
    decreases n,
{
    if n < 10 {
        seq![digit_char(n as int)]
    } else {
        decimal(n / 10).push(digit_char((n % 10) as int))
    }
}

/// The decimal numeral of an integer, with a minus sign where it is negative.
pub open spec fn signed_decimal(n: int) -> Seq<char> {
    if n < 0 {
        seq!['-'] + decimal((-n) as nat)
    } else {
        decimal(n as nat)
    }
}

/// The character of the decimal digit `d`.
fn digit(d: u8) -> (c: char)
    requires
        d < 10,
    ensures
        c == digit_char(d as int),
{
    (48 + d) as char
}

/// Appends the decimal numeral of `n`.
pub fn push_u128(out: &mut String, n: u128)
    ensures
        final(out)@ == old(out)@ + decimal(n as nat),
    decreases n,
{
    if n < 10 {
        out.push(digit(n as u8));
    } else {
        push_u128(out, n / 10);
        out.push(digit((n % 10) as u8));
    }
    assert(out@ =~= old(out)@ + decimal(n as nat));
}

/// Appends the decimal numeral of `n`.
pub fn push_u64(out: &mut String, n: u64)
    ensures
        final(out)@ == old(out)@ + decimal(n as nat),
{
    push_u128(out, n as u128)
}

/// Appends the decimal numeral of `n`.
pub fn push_usize(out: &mut String, n: usize)
    ensures
        final(out)@ == old(out)@ + decimal(n as nat),
{
    push_u128(out, n as u128)
}

/// Appends the decimal numeral of `n`.
pub fn push_i64(out: &mut String, n: i64)
    ensures
        final(out)@ == old(out)@ + signed_decimal(n as int),
{
    if n < 0 {
        out.push('-');
        let m: i128 = -(n as i128);
        push_u128(out, m as u128);
        assert(out@ =~= old(out)@ + signed_decimal(n as int));
    } else {
        push_u128(out, n as u128);
    }
}

/// `prefix` followed by the decimal numeral of `n`.
pub fn numbered(prefix: &str, n: u64) -> (text: String)
    ensures
        text@ == prefix@ + decimal(n as nat),
{
    let mut text = prefix.to_owned();
    push_u64(&mut text, n);
    text
}

/// The numbers in decimal, with a comma and a space between them.
pub open spec fn comma_list(numbers: Seq<u64>) -> Seq<char>
    decreases numbers.len(),
{
    if numbers.len() == 0 {
        Seq::empty()
    } else if numbers.len() == 1 {
        decimal(numbers[0] as nat)
    } else {
        comma_list(numbers.drop_last()) + ", "@ + decimal(numbers.last() as nat)
    }
}

/// Write the numbers at the end of `out`, with a comma and a space between
/// them.
pub fn push_list(out: &mut String, numbers: &Vec<u64>)
    ensures
        final(out)@ == old(out)@ + comma_list(numbers@),
{
    let ghost start = out@;
    let mut i: usize = 0;
    proof {
        assert(numbers@.take(0) =~= Seq::<u64>::empty());
        assert(start + comma_list(numbers@.take(0)) =~= start);
    }
    while i < numbers.len()
        invariant
            i <= numbers.len(),
            out@ == start + comma_list(numbers@.take(i as int)),
        decreases numbers.len() - i,
    {
        let ghost before = out@;
        proof {
            let longer = numbers@.take(i as int + 1);
            assert(longer.drop_last() =~= numbers@.take(i as int));
            assert(longer.last() == numbers@[i as int]);
        }
        if i > 0 {
            out.append(", ");
        }
        push_u64(out, numbers[i]);
        proof {
            let n = decimal(numbers@[i as int] as nat);
            if i > 0 {
                assert(start + comma_list(numbers@.take(i as int)) + ", "@ + n =~= start + (comma_list(
                    numbers@.take(i as int),
                ) + ", "@ + n));
            } else {
                assert(before =~= start);
            }
        }
        i = i + 1;
    }
    proof {
        assert(numbers@.take(numbers@.len() as int) =~= numbers@);
    }
}

/// `s` is made of decimal digits only.
pub open spec fn all_digits(s: Seq<char>) -> bool {
    forall|i: int| 0 <= i < s.len() ==> '0' <= #[trigger] s[i] <= '9'
}

/// The number that a text of decimal digits writes.
pub open spec fn digits_value(s: Seq<char>) -> nat
    decreases s.len(),
{
    if s.len() == 0 {
        0
    } else {
        digits_value(s.drop_last()) * 10 + ((s.last() as u32 - 48) as nat)
    }
}

/// The number `s` writes: decimal digits, at least one of them, after at most
/// one plus sign.
pub open spec fn number_of(s: Seq<char>) -> Option<nat> {
    let digits = if s.len() > 0 && s[0] == '+' {
        s.drop_first()
    } else {
        s
    };
    if digits.len() > 0 && all_digits(digits) {
        Some(digits_value(digits))
    } else {
        None
    }
}

/// A longer run of digits writes no smaller a number.
proof fn lemma_digits_grow(s: Seq<char>, n: int)
    requires
        0 <= n <= s.len(),
    ensures
        digits_value(s.take(n)) <= digits_value(s),
    decreases s.len(),
{
    if n == s.len() {
        assert(s.take(n) =~= s);
    } else {
        lemma_digits_grow(s.drop_last(), n);
        assert(s.drop_last().take(n) =~= s.take(n));
    }
}

/// The number `s` writes, where it fits in 32 bits.
pub fn parse_u32(s: &str) -> (r: Option<u32>)
    ensures
        match r {
            Some(n) => number_of(s@) == Some(n as nat),
            None => number_of(s@) is None || number_of(s@)->0 > u32::MAX,
        },
{
    let chars = chars_of(s);
    let n: usize = chars.len();
    let from: usize = if n > 0 && chars[0] == '+' { 1 } else { 0 };
    let ghost digits = chars@.subrange(from as int, n as int);
    proof {
        if from == 1 {
            assert(digits =~= s@.drop_first());
        } else {
            assert(digits =~= s@);
        }
    }
    if from == n {
        return None;
    }
    let mut value: u64 = 0;
    let mut i: usize = from;
    while i < n
        invariant
            from <= i <= n,
            from < n,
            n == chars.len(),
            digits == chars@.subrange(from as int, n as int),
            number_of(s@) == (if all_digits(digits) { Some(digits_value(digits)) } else { None }),
            forall|j: int| 0 <= j < i - from ==> '0' <= #[trigger] digits[j] <= '9',
            value == digits_value(digits.take(i - from)),
            value <= u32::MAX,
        decreases n - i,
    {
        let c = chars[i];
        assert(digits[i - from] == c);
        if c < '0' || '9' < c {
            return None;
        }
        let d: u32 = c as u32 - 48;
        assert(digits.take(i - from + 1).drop_last() =~= digits.take(i - from));
        assert(digits.take(i - from + 1).last() == c);
        let next: u64 = value * 10 + d as u64;
        if next > 0xffff_ffff {
            proof {
                lemma_digits_grow(digits, i - from + 1);
            }
            return None;
        }
        value = next;
        i = i + 1;
    }
    assert(digits.take(n - from) =~= digits);
    Some(value as u32)
}

// ---------------------------------------------------------------------------
// Hexadecimal

/// The lower-case hexadecimal digit of `d`.
pub open spec fn hex_char(d: int) -> char {
    if d < 10 {
        (48 + d) as u8 as char
    } else {
        (87 + d) as u8 as char
    }
}

/// The bytes, two lower-case hexadecimal digits each.
pub open spec fn hex(bytes: Seq<u8>) -> Seq<char> {
    Seq::new(2 * bytes.len(), |i: int| if i % 2 == 0 {
        hex_char(bytes[i / 2] as int / 16)
    } else {
        hex_char(bytes[i / 2] as int % 16)
    })
}

fn hex_digit(d: u8) -> (c: char)
    requires
        d < 16,
    ensures
        c == hex_char(d as int),
{
    if d < 10 {
        (48 + d) as char
    } else {
        (87 + d) as char
    }
}

/// `prefix` followed by the bytes in hexadecimal.
pub fn with_hex(prefix: &str, bytes: &Vec<u8>) -> (text: String)
    ensures
        text@ == prefix@ + hex(bytes@),
{
    let mut text = prefix.to_owned();
    let mut i: usize = 0;
    assert(text@ =~= prefix@ + hex(bytes@.take(0)));
    while i < bytes.len()
        invariant
            i <= bytes.len(),
            text@ == prefix@ + hex(bytes@.take(i as int)),
        decreases bytes.len() - i,
    {
        let b: u8 = bytes[i];
        text.push(hex_digit(b / 16));
        text.push(hex_digit(b % 16));
        proof {
            let shorter = bytes@.take(i as int);
            let longer = bytes@.take(i as int + 1);
            assert(hex(longer) =~= hex(shorter).push(hex_char(b as int / 16)).push(hex_char(b as int % 16)));
            assert(text@ =~= prefix@ + hex(longer));
        }
        i = i + 1;
    }
    assert(bytes@.take(bytes@.len() as int) =~= bytes@);
    text
}

/// Case is ignored in letters and nowhere else: a letter matches its capital,
/// and everything that is no letter matches itself alone.
pub proof fn law_a_letter_matches_its_capital(c: char, d: char)
    ensures
        ascii_upper(c) == ascii_upper(d) <==> c == d || ('a' <= c <= 'z' && d as u32 + 32 == c as u32) || ('a' <= d
            <= 'z' && c as u32 + 32 == d as u32),
{
}

/// Two texts that match but for case are as long as each other and match
/// letter by letter.
pub proof fn law_texts_match_letter_by_letter(a: Seq<char>, b: Seq<char>)
    ensures
        same_ignoring_case(a, b) <==> a.len() == b.len() && forall|i: int|
            0 <= i < a.len() ==> ascii_upper(#[trigger] a[i]) == ascii_upper(b[i]),
{
    if same_ignoring_case(a, b) {
        assert(ascii_uppercase(a).len() == a.len());
        assert(ascii_uppercase(b).len() == b.len());
        assert forall|i: int| 0 <= i < a.len() implies ascii_upper(#[trigger] a[i]) == ascii_upper(b[i]) by {
            assert(ascii_uppercase(a)[i] == ascii_uppercase(b)[i]);
        }
    } else if a.len() == b.len() && (forall|i: int|
        0 <= i < a.len() ==> ascii_upper(#[trigger] a[i]) == ascii_upper(b[i])) {
        assert(ascii_uppercase(a) =~= ascii_uppercase(b));
    }
}

/// Trimming takes away the blanks at both ends and nothing else: what is left
/// is a stretch of the text that neither begins nor ends with a blank, and all
/// around it are blanks.
pub proof fn law_trimming_takes_the_blanks_around(s: Seq<char>) -> (ends: (int, int))
    ensures
        0 <= ends.0 <= ends.1 <= s.len(),
        trimmed(s) == s.subrange(ends.0, ends.1),
        forall|i: int| 0 <= i < ends.0 || ends.1 <= i < s.len() ==> is_white_space(#[trigger] s[i]),
        trimmed(s).len() > 0 ==> !is_white_space(trimmed(s)[0]) && !is_white_space(trimmed(s).last()),
{
    let from = lemma_trimmed_start(s);
    let rest = trimmed_start(s);
    let to = lemma_trimmed_end(rest);
    assert(rest.subrange(0, to) =~= s.subrange(from, from + to));
    assert forall|i: int| 0 <= i < from || from + to <= i < s.len() implies is_white_space(#[trigger] s[i]) by {
        if from + to <= i {
            assert(rest[i - from] == s[i]);
        }
    }
    if trimmed(s).len() > 0 {
        assert(trimmed(s)[0] == rest[0]);
    }
    (from, from + to)
}

proof fn lemma_trimmed_start(s: Seq<char>) -> (from: int)
    ensures
        0 <= from <= s.len(),
        trimmed_start(s) == s.subrange(from, s.len() as int),
        forall|i: int| 0 <= i < from ==> is_white_space(#[trigger] s[i]),
        trimmed_start(s).len() > 0 ==> !is_white_space(trimmed_start(s)[0]),
    decreases s.len(),
{
    if s.len() > 0 && is_white_space(s[0]) {
        let next = lemma_trimmed_start(s.drop_first());
        assert(s.drop_first().subrange(next, s.len() - 1) =~= s.subrange(next + 1, s.len() as int));
        assert forall|i: int| 0 <= i < next + 1 implies is_white_space(#[trigger] s[i]) by {
            if i > 0 {
                assert(s.drop_first()[i - 1] == s[i]);
            }
        }
        next + 1
    } else {
        assert(s.subrange(0, s.len() as int) =~= s);
        0
    }
}

proof fn lemma_trimmed_end(s: Seq<char>) -> (to: int)
    ensures
        0 <= to <= s.len(),
        trimmed_end(s) == s.subrange(0, to),
        forall|i: int| to <= i < s.len() ==> is_white_space(#[trigger] s[i]),
        trimmed_end(s).len() > 0 ==> !is_white_space(trimmed_end(s).last()),
    decreases s.len(),
{
    if s.len() > 0 && is_white_space(s.last()) {
        let to = lemma_trimmed_end(s.drop_last());
        assert(s.drop_last().subrange(0, to) =~= s.subrange(0, to));
        assert forall|i: int| to <= i < s.len() implies is_white_space(#[trigger] s[i]) by {
            if i < s.len() - 1 {
                assert(s.drop_last()[i] == s[i]);
            }
        }
        to
    } else {
        assert(s.subrange(0, s.len() as int) =~= s);
        s.len() as int
    }
}

/// What is kept of a text is the beginning of what is left of it once trimmed,
/// cut where it is too long; where nothing is left, nothing is kept.
pub proof fn law_a_text_is_kept_to_its_length(value: Option<String>, max: usize, r: Option<String>)
    requires
        call_ensures(clean, (&value, max), r),
    ensures
        value is None ==> r is None,
        value matches Some(given) ==> {
            let kept = trimmed(given@);
            &&& r is Some <==> kept.len() > 0 && max > 0
            &&& r matches Some(text) ==> text@ == kept.take(text@.len() as int) && text@.len() <= max && (text@.len()
                < max ==> text@ == kept)
        },
{
    if value is Some {
        let kept = trimmed((value->0)@);
        assert(kept.take(kept.len() as int) =~= kept);
    }
}

/// A text is split at the first mark in it: what stands before and after make
/// up the text with the mark between, and there is none before. A text without
/// the mark is not split.
pub proof fn law_a_text_is_split_at_the_first_mark(s: &str, c: char, r: Option<(String, String)>)
    requires
        call_ensures(split_once, (s, c), r),
    ensures
        r is Some <==> s@.contains(c),
        r matches Some(parts) ==> s@ == parts.0@.push(c) + parts.1@ && !parts.0@.contains(c),
{
    lemma_split(s@, c);
}

pub proof fn lemma_split(s: Seq<char>, c: char)
    ensures
        split_at_first(s, c) is Some <==> s.contains(c),
        split_at_first(s, c) matches Some(parts) ==> s == parts.0.push(c) + parts.1 && !parts.0.contains(c),
{
    lemma_first_of(s, c);
    let i = first_of(s, c);
    if i < s.len() {
        assert(s =~= s.take(i).push(c) + s.skip(i + 1));
        assert(s[i] == c);
        if s.take(i).contains(c) {
            let j = choose|j: int| 0 <= j < i && s.take(i)[j] == c;
            assert(s[j] == c);
        }
    } else if s.contains(c) {
        let j = choose|j: int| 0 <= j < s.len() && s[j] == c;
        assert(s[j] != c);
    }
}

proof fn lemma_first_of(s: Seq<char>, c: char)
    ensures
        0 <= first_of(s, c) <= s.len(),
        first_of(s, c) < s.len() ==> s[first_of(s, c)] == c,
        forall|j: int| 0 <= j < first_of(s, c) ==> #[trigger] s[j] != c,
    decreases s.len(),
{
    if s.len() > 0 && s[0] != c {
        let rest = s.drop_first();
        lemma_first_of(rest, c);
        assert forall|j: int| 0 <= j < first_of(s, c) implies #[trigger] s[j] != c by {
            if j > 0 {
                assert(rest[j - 1] == s[j]);
            }
        }
    }
}

/// A number that is written down is read back as itself.
pub proof fn law_a_number_is_read_as_it_was_written(n: nat)
    ensures
        number_of(decimal(n)) == Some(n),
        decimal(n).len() > 0,
        n > 0 ==> decimal(n)[0] != '0',
        n < 10 ==> decimal(n).len() == 1,
{
    lemma_decimal(n);
}

proof fn lemma_decimal(n: nat)
    ensures
        decimal(n).len() > 0,
        all_digits(decimal(n)),
        digits_value(decimal(n)) == n,
        n > 0 ==> decimal(n)[0] != '0',
        decimal(n)[0] != '+',
    decreases n,
{
    reveal_with_fuel(digits_value, 2);
    if n < 10 {
        let s = seq![digit_char(n as int)];
        assert(s.drop_last() =~= Seq::<char>::empty());
        assert(s.last() == digit_char(n as int));
    } else {
        lemma_decimal(n / 10);
        let front = decimal(n / 10);
        let s = front.push(digit_char((n % 10) as int));
        assert(s.drop_last() =~= front);
        assert forall|i: int| 0 <= i < s.len() implies '0' <= #[trigger] s[i] <= '9' by {
            if i < front.len() {
                assert(s[i] == front[i]);
            }
        }
        assert(s[0] == front[0]);
    }
}

/// A negative number is the number with a sign before it.
pub proof fn law_a_negative_number_has_its_sign(n: int)
    ensures
        n < 0 ==> signed_decimal(n) == seq!['-'] + signed_decimal(-n),
        n >= 0 ==> number_of(signed_decimal(n)) == Some(n as nat),
{
    if n >= 0 {
        lemma_decimal(n as nat);
    }
}

/// Bytes written in hex take two characters each and can be told apart:
/// different bytes give different texts.
pub proof fn law_bytes_in_hex_can_be_told_apart(a: Seq<u8>, b: Seq<u8>)
    ensures
        hex(a).len() == 2 * a.len(),
        hex(a) == hex(b) ==> a == b,
        forall|i: int|
            0 <= i < hex(a).len() ==> '0' <= #[trigger] hex(a)[i] <= '9' || 'a' <= hex(a)[i] <= 'f',
{
    if hex(a) == hex(b) {
        assert(hex(a).len() == 2 * a.len());
        assert(hex(b).len() == 2 * b.len());
        assert forall|i: int| 0 <= i < a.len() implies a[i] == b[i] by {
            assert(hex(a)[2 * i] == hex(b)[2 * i]);
            assert(hex(a)[2 * i + 1] == hex(b)[2 * i + 1]);
            lemma_hex_char(a[i] as int / 16, b[i] as int / 16);
            lemma_hex_char(a[i] as int % 16, b[i] as int % 16);
        }
        assert(a =~= b);
    }
}

proof fn lemma_hex_char(a: int, b: int)
    requires
        0 <= a < 16,
        0 <= b < 16,
        hex_char(a) == hex_char(b),
    ensures
        a == b,
{
}

} // verus!

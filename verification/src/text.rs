//! Text on the level of characters: decimal numbers, words, lines and padding.
use vstd::prelude::*;

verus! {

/// The characters of `s`, in order.
pub fn chars_of(s: &str) -> (v: Vec<char>)
    ensures
        v@ == s@,
{
    let mut v: Vec<char> = Vec::new();
    for c in it: s.chars()
        invariant
            it.seq() == s@,
            v@ == s@.take(it.index()),
    {
        v.push(c);
        assert(v@ =~= s@.take(it.index() + 1));
    }
    assert(s@.take(s@.len() as int) =~= s@);
    v
}

/// Whether two texts hold the same characters.
pub fn same_text(a: &str, b: &str) -> (r: bool)
    ensures
        r == (a@ == b@),
{
    a.to_owned() == b.to_owned()
}

/// The character of a decimal digit.
pub open spec fn digit_char(d: nat) -> char {
    ('0' as nat + d) as char
}

/// The decimal digits of `n`, most significant first, without leading zeros.
pub open spec fn decimal(n: nat) -> Seq<char>
    decreases n,
{
    if n < 10 {
        seq![digit_char(n)]
    } else {
        decimal(n / 10).push(digit_char(n % 10))
    }
}

/// Appends one decimal digit to `out`.
fn push_digit(out: &mut String, d: u128)
    requires
        d < 10,
    ensures
        final(out)@ == old(out)@.push(digit_char(d as nat)),
{
    proof {
        reveal_strlit("0");
        reveal_strlit("1");
        reveal_strlit("2");
        reveal_strlit("3");
        reveal_strlit("4");
        reveal_strlit("5");
        reveal_strlit("6");
        reveal_strlit("7");
        reveal_strlit("8");
        reveal_strlit("9");
    }
    let digit: &str = match d {
        0 => "0",
        1 => "1",
        2 => "2",
        3 => "3",
        4 => "4",
        5 => "5",
        6 => "6",
        7 => "7",
        8 => "8",
        _ => "9",
    };
    assert(digit@ =~= seq![digit_char(d as nat)]);
    out.append(digit);
    assert(out@ =~= old(out)@.push(digit_char(d as nat)));
}

/// Appends the decimal digits of `n` to `out`.
pub fn push_decimal(out: &mut String, n: u128)
    ensures
        final(out)@ == old(out)@ + decimal(n as nat),
    decreases n,
{
    if n < 10 {
        push_digit(out, n);
        assert(out@ =~= old(out)@ + decimal(n as nat));
    } else {
        push_decimal(out, n / 10);
        push_digit(out, n % 10);
        assert(out@ =~= old(out)@ + decimal(n as nat));
    }
}

/// Whether `c` is an ASCII decimal digit.
pub open spec fn is_digit(c: char) -> bool {
    '0' <= c <= '9'
}

/// The number that a row of decimal digits writes; the empty row is zero.
pub open spec fn digits_value(s: Seq<char>) -> nat
    decreases s.len(),
{
    if s.len() == 0 {
        0
    } else {
        (digits_value(s.drop_last()) * 10 + (s.last() as int - '0' as int)) as nat
    }
}

/// `s` without one leading plus sign, if it has one.
pub open spec fn without_plus(s: Seq<char>) -> Seq<char> {
    if s.len() > 0 && s[0] == '+' {
        s.skip(1)
    } else {
        s
    }
}

/// Whether `s` holds at least one character and only decimal digits.
pub open spec fn all_digits(s: Seq<char>) -> bool {
    &&& s.len() > 0
    &&& forall|i: int| 0 <= i < s.len() ==> is_digit(#[trigger] s[i])
}

/// The unsigned number that `s` writes, if it is one and at most `max`: an
/// optional plus sign and then decimal digits only.
pub open spec fn parsed_unsigned(s: Seq<char>, max: nat) -> Option<nat> {
    let digits = without_plus(s);
    if all_digits(digits) && digits_value(digits) <= max {
        Some(digits_value(digits))
    } else {
        None
    }
}

/// A row of digits never writes less than one of its beginnings.
proof fn lemma_digits_value_grows(s: Seq<char>, n: int)
    requires
        all_digits(s),
        0 <= n <= s.len(),
    ensures
        digits_value(s.take(n)) <= digits_value(s),
    decreases s.len() - n,
{
    if n < s.len() {
        lemma_digits_value_grows(s, n + 1);
        assert(s.take(n + 1).drop_last() =~= s.take(n));
        assert(is_digit(s[n]));
    } else {
        assert(s.take(n) =~= s);
    }
}

/// Reads an unsigned number of at most `max`.
pub fn parse_unsigned(s: &str, max: u64) -> (r: Option<u64>)
    ensures
        r is Some <==> parsed_unsigned(s@, max as nat) is Some,
        r matches Some(v) ==> parsed_unsigned(s@, max as nat) == Some(v as nat),
{
    let chars: Vec<char> = chars_of(s);
    let mut i: usize = if chars.len() > 0 && chars[0] == '+' {
        1
    } else {
        0
    };
    let ghost digits = without_plus(s@);
    let ghost start = i as int;
    assert(digits =~= s@.skip(start));
    if i == chars.len() {
        return None;
    }
    let mut value: u64 = 0;
    assert(digits.take(0) =~= Seq::<char>::empty());
    while i < chars.len()
        invariant
            chars@ == s@,
            digits == without_plus(s@),
            digits == s@.skip(start),
            0 <= start <= i <= chars.len(),
            digits.len() > 0,
            digits.len() == s@.len() - start,
            value == digits_value(digits.take(i - start)),
            value <= max,
            forall|k: int| 0 <= k < i - start ==> is_digit(#[trigger] digits[k]),
        decreases chars.len() - i,
    {
        let c: char = chars[i];
        assert(c == digits[i - start]);
        if !('0' <= c && c <= '9') {
            assert(!all_digits(digits));
            return None;
        }
        let d: u64 = (c as u32 - '0' as u32) as u64;
        let ghost next = digits.take(i - start + 1);
        assert(next.drop_last() =~= digits.take(i - start));
        assert(digits_value(next) == value * 10 + d);
        let wide: u128 = value as u128 * 10 + d as u128;
        if wide > max as u128 {
            proof {
                if all_digits(digits) {
                    lemma_digits_value_grows(digits, i - start + 1);
                }
            }
            return None;
        }
        value = wide as u64;
        i += 1;
    }
    assert(digits.take(digits.len() as int) =~= digits);
    Some(value)
}

/// The decimal digits of a number write that number.
pub proof fn lemma_decimal_digits(n: nat)
    ensures
        all_digits(decimal(n)),
        digits_value(decimal(n)) == n,
    decreases n,
{
    if n < 10 {
        assert(decimal(n).drop_last() =~= Seq::<char>::empty());
        assert(digits_value(Seq::<char>::empty()) == 0);
    } else {
        lemma_decimal_digits(n / 10);
        assert(decimal(n).drop_last() =~= decimal(n / 10));
        assert forall|i: int| 0 <= i < decimal(n).len() implies is_digit(
            #[trigger] decimal(n)[i],
        ) by {
            if i < decimal(n / 10).len() {
                assert(is_digit(decimal(n / 10)[i]));
            }
        }
    }
}

/// A number that is written in decimal is read back, where it is within the
/// limit, and refused otherwise.
pub proof fn law_decimal_is_read_back(n: nat, max: nat)
    ensures
        parsed_unsigned(decimal(n), max) == (if n <= max {
            Some(n)
        } else {
            None
        }),
{
    lemma_decimal_digits(n);
    assert(is_digit(decimal(n)[0]));
}

/// Whether `c` has the Unicode property White_Space.
pub open spec fn is_space(c: char) -> bool {
    let n = c as int;
    ||| 0x09 <= n <= 0x0d
    ||| n == 0x20
    ||| n == 0x85
    ||| n == 0xa0
    ||| n == 0x1680
    ||| 0x2000 <= n <= 0x200a
    ||| n == 0x2028
    ||| n == 0x2029
    ||| n == 0x202f
    ||| n == 0x205f
    ||| n == 0x3000
}

/// Tests a character for the Unicode property White_Space.
pub fn is_space_char(c: char) -> (r: bool)
    ensures
        r == is_space(c),
{
    let n: u32 = c as u32;
    (0x09 <= n && n <= 0x0d) || n == 0x20 || n == 0x85 || n == 0xa0 || n == 0x1680 || (0x2000 <= n
        && n <= 0x200a) || n == 0x2028 || n == 0x2029 || n == 0x202f || n == 0x205f || n == 0x3000
}

/// The first position at or after `from` whose character is no white space,
/// or the length of `s`.
pub open spec fn space_end(s: Seq<char>, from: int) -> int
    decreases s.len() - from,
{
    if 0 <= from < s.len() && is_space(s[from]) {
        space_end(s, from + 1)
    } else {
        from
    }
}

/// The first position at or after `from` whose character is white space, or
/// the length of `s`.
pub open spec fn word_end(s: Seq<char>, from: int) -> int
    decreases s.len() - from,
{
    if 0 <= from < s.len() && !is_space(s[from]) {
        word_end(s, from + 1)
    } else {
        from
    }
}

proof fn lemma_space_end_bounds(s: Seq<char>, from: int)
    requires
        0 <= from <= s.len(),
    ensures
        from <= space_end(s, from) <= s.len(),
        space_end(s, from) < s.len() ==> !is_space(s[space_end(s, from)]),
    decreases s.len() - from,
{
    if from < s.len() && is_space(s[from]) {
        lemma_space_end_bounds(s, from + 1);
    }
}

proof fn lemma_word_end_bounds(s: Seq<char>, from: int)
    requires
        0 <= from <= s.len(),
    ensures
        from <= word_end(s, from) <= s.len(),
        from < s.len() && !is_space(s[from]) ==> from < word_end(s, from),
    decreases s.len() - from,
{
    if from < s.len() && !is_space(s[from]) {
        lemma_word_end_bounds(s, from + 1);
    }
}

/// The words of `s` from position `from` on: its longest runs of characters
/// that are no white space, in order.
pub open spec fn words_from(s: Seq<char>, from: int) -> Seq<Seq<char>>
    decreases s.len() - from,
    when 0 <= from <= s.len()
    via words_from_ends
{
    let a = space_end(s, from);
    if a < s.len() {
        seq![s.subrange(a, word_end(s, a))] + words_from(s, word_end(s, a))
    } else {
        Seq::empty()
    }
}

#[via_fn]
proof fn words_from_ends(s: Seq<char>, from: int) {
    lemma_space_end_bounds(s, from);
    if space_end(s, from) < s.len() {
        lemma_word_end_bounds(s, space_end(s, from));
    }
}

/// The words of `s`.
pub open spec fn words(s: Seq<char>) -> Seq<Seq<char>> {
    words_from(s, 0)
}

/// The texts of a list of strings.
pub open spec fn texts(v: Seq<String>) -> Seq<Seq<char>> {
    v.map_values(|x: String| x@)
}

/// Splits `s` into its words.
pub fn split_words(s: &str) -> (r: Vec<String>)
    ensures
        texts(r@) == words(s@),
{
    let chars: Vec<char> = chars_of(s);
    let mut r: Vec<String> = Vec::new();
    let mut i: usize = 0;
    assert(texts(r@) + words_from(s@, 0) =~= words(s@));
    loop
        invariant
            chars@ == s@,
            i <= chars.len(),
            texts(r@) + words_from(s@, i as int) == words(s@),
        ensures
            texts(r@) == words(s@),
        decreases chars.len() - i,
    {
        let ghost from = i as int;
        proof {
            lemma_space_end_bounds(s@, from);
        }
        while i < chars.len() && is_space_char(chars[i])
            invariant
                chars@ == s@,
                from <= i <= chars.len(),
                space_end(s@, i as int) == space_end(s@, from),
            decreases chars.len() - i,
        {
            i += 1;
        }
        assert(i == space_end(s@, from));
        if i == chars.len() {
            assert(words_from(s@, from) =~= Seq::<Seq<char>>::empty());
            assert(texts(r@) =~= words(s@));
            break;
        }
        let a: usize = i;
        proof {
            lemma_word_end_bounds(s@, a as int);
        }
        while i < chars.len() && !is_space_char(chars[i])
            invariant
                chars@ == s@,
                a <= i <= chars.len(),
                word_end(s@, i as int) == word_end(s@, a as int),
            decreases chars.len() - i,
        {
            i += 1;
        }
        let ghost before = texts(r@);
        r.push(s.substring_char(a, i).to_owned());
        assert(texts(r@) =~= before.push(s@.subrange(a as int, i as int)));
        assert(texts(r@) + words_from(s@, i as int) =~= before + words_from(s@, from));
    }
    r
}

/// The first position at or after `from` that holds `c`, or the length of `s`.
pub open spec fn find_from(s: Seq<char>, c: char, from: int) -> int
    decreases s.len() - from,
{
    if 0 <= from < s.len() && s[from] != c {
        find_from(s, c, from + 1)
    } else {
        from
    }
}

proof fn lemma_find_bounds(s: Seq<char>, c: char, from: int)
    requires
        0 <= from <= s.len(),
    ensures
        from <= find_from(s, c, from) <= s.len(),
    decreases s.len() - from,
{
    if from < s.len() && s[from] != c {
        lemma_find_bounds(s, c, from + 1);
    }
}

/// The end of the line that begins at `from`: a line feed ends it, and so does
/// a carriage return with one.
pub open spec fn line_end(s: Seq<char>, from: int) -> int {
    let feed = find_from(s, '\n', from);
    if from < feed < s.len() && s[feed - 1] == '\r' {
        feed - 1
    } else {
        feed
    }
}

/// The lines of `s` from position `from` on, without what ends them. A line
/// feed at the very end begins no further line.
pub open spec fn lines_from(s: Seq<char>, from: int) -> Seq<Seq<char>>
    decreases s.len() + 1 - from,
    when 0 <= from
    via lines_from_ends
{
    if from < s.len() {
        seq![s.subrange(from, line_end(s, from))] + lines_from(s, find_from(s, '\n', from) + 1)
    } else {
        Seq::empty()
    }
}

#[via_fn]
proof fn lines_from_ends(s: Seq<char>, from: int) {
    if from < s.len() {
        lemma_find_bounds(s, '\n', from);
    }
}

/// The lines of `s`.
pub open spec fn lines(s: Seq<char>) -> Seq<Seq<char>> {
    lines_from(s, 0)
}

/// Splits `s` into its lines.
pub fn split_lines(s: &str) -> (r: Vec<String>)
    ensures
        texts(r@) == lines(s@),
{
    let chars: Vec<char> = chars_of(s);
    let mut r: Vec<String> = Vec::new();
    let mut i: usize = 0;
    assert(texts(r@) + lines_from(s@, 0) =~= lines(s@));
    while i < chars.len()
        invariant
            chars@ == s@,
            i <= chars.len(),
            texts(r@) + lines_from(s@, i as int) == lines(s@),
        decreases chars.len() - i,
    {
        let a: usize = i;
        proof {
            lemma_find_bounds(s@, '\n', a as int);
        }
        while i < chars.len() && chars[i] != '\n'
            invariant
                chars@ == s@,
                a <= i <= chars.len(),
                find_from(s@, '\n', i as int) == find_from(s@, '\n', a as int),
            decreases chars.len() - i,
        {
            i += 1;
        }
        let ghost before = texts(r@);
        let mut end: usize = i;
        if a < i && i < chars.len() && chars[i - 1] == '\r' {
            end = i - 1;
        }
        r.push(s.substring_char(a, end).to_owned());
        assert(texts(r@) =~= before.push(s@.subrange(a as int, line_end(s@, a as int))));
        if i < chars.len() {
            i += 1;
        } else {
            assert(lines_from(s@, i as int) =~= lines_from(s@, i + 1));
        }
        assert(texts(r@) + lines_from(s@, i as int) =~= before + lines_from(s@, a as int));
    }
    assert(texts(r@) =~= lines(s@));
    r
}

/// The first position of a character, or the length of the text.
pub fn find_char(s: &str, c: char) -> (r: usize)
    ensures
        r == find_from(s@, c, 0),
        r <= s@.len(),
{
    let chars: Vec<char> = chars_of(s);
    let mut i: usize = 0;
    while i < chars.len() && chars[i] != c
        invariant
            chars@ == s@,
            i <= chars.len(),
            find_from(s@, c, i as int) == find_from(s@, c, 0),
        decreases chars.len() - i,
    {
        i += 1;
    }
    i
}

/// The part of `s` before the first `c`, or all of it.
pub open spec fn before_char(s: Seq<char>, c: char) -> Seq<char> {
    s.take(find_from(s, c, 0))
}

/// The part of `s` behind the first `c`; empty where there is none.
pub open spec fn behind_char(s: Seq<char>, c: char) -> Seq<char> {
    let i = find_from(s, c, 0);
    if i < s.len() {
        s.skip(i + 1)
    } else {
        Seq::empty()
    }
}

/// The part before the first `c`, or all.
pub fn cut_before<'a>(s: &'a str, c: char) -> (r: &'a str)
    ensures
        r@ == before_char(s@, c),
{
    let i: usize = find_char(s, c);
    let r: &'a str = s.substring_char(0, i);
    assert(r@ =~= s@.take(i as int));
    r
}

/// The part behind the first `c`, if there is one.
pub fn cut_behind<'a>(s: &'a str, c: char) -> (r: Option<&'a str>)
    ensures
        r is Some <==> find_from(s@, c, 0) < s@.len(),
        r matches Some(rest) ==> rest@ == behind_char(s@, c),
{
    let i: usize = find_char(s, c);
    let n: usize = s.unicode_len();
    if i < n {
        let r: &'a str = s.substring_char(i + 1, n);
        assert(r@ =~= s@.skip(i + 1));
        Some(r)
    } else {
        None
    }
}

/// The position behind the last character of `s` before `to` that is no white
/// space.
pub open spec fn trim_end_at(s: Seq<char>, to: int) -> int
    decreases to,
{
    if 0 < to <= s.len() && is_space(s[to - 1]) {
        trim_end_at(s, to - 1)
    } else {
        to
    }
}

/// `s` without white space at either end.
pub open spec fn trimmed(s: Seq<char>) -> Seq<char> {
    let a = space_end(s, 0);
    if a < s.len() {
        s.subrange(a, trim_end_at(s, s.len() as int))
    } else {
        Seq::empty()
    }
}

proof fn lemma_trim_end_bounds(s: Seq<char>, from: int, to: int)
    requires
        0 <= from < to <= s.len(),
        !is_space(s[from]),
    ensures
        from < trim_end_at(s, to) <= to,
    decreases to,
{
    if is_space(s[to - 1]) {
        lemma_trim_end_bounds(s, from, to - 1);
    }
}

/// Removes white space at both ends.
pub fn trim(s: &str) -> (r: &str)
    ensures
        r@ == trimmed(s@),
{
    let chars: Vec<char> = chars_of(s);
    proof {
        lemma_space_end_bounds(s@, 0);
    }
    let mut a: usize = 0;
    while a < chars.len() && is_space_char(chars[a])
        invariant
            chars@ == s@,
            a <= chars.len(),
            space_end(s@, a as int) == space_end(s@, 0),
        decreases chars.len() - a,
    {
        a += 1;
    }
    if a == chars.len() {
        return s.substring_char(a, a);
    }
    let mut b: usize = chars.len();
    proof {
        lemma_trim_end_bounds(s@, a as int, b as int);
    }
    while b > a && is_space_char(chars[b - 1])
        invariant
            chars@ == s@,
            a < b <= chars.len(),
            !is_space(s@[a as int]),
            trim_end_at(s@, b as int) == trim_end_at(s@, s@.len() as int),
        decreases b,
    {
        b -= 1;
    }
    s.substring_char(a, b)
}

/// Whether `s` begins with `prefix`.
pub open spec fn starts_with(s: Seq<char>, prefix: Seq<char>) -> bool {
    prefix.len() <= s.len() && s.take(prefix.len() as int) == prefix
}

/// Whether `s` ends with `suffix`.
pub open spec fn ends_with(s: Seq<char>, suffix: Seq<char>) -> bool {
    suffix.len() <= s.len() && s.skip(s.len() - suffix.len()) == suffix
}

/// Tests for a beginning.
pub fn has_prefix(s: &str, prefix: &str) -> (r: bool)
    ensures
        r == starts_with(s@, prefix@),
{
    let n: usize = prefix.unicode_len();
    n <= s.unicode_len() && same_text(s.substring_char(0, n), prefix)
}

/// Tests for an ending.
pub fn has_suffix(s: &str, suffix: &str) -> (r: bool)
    ensures
        r == ends_with(s@, suffix@),
{
    let n: usize = suffix.unicode_len();
    let len: usize = s.unicode_len();
    n <= len && same_text(s.substring_char(len - n, len), suffix)
}

/// `s` without any number of copies of `suffix` at its end.
pub open spec fn without_suffixes(s: Seq<char>, suffix: Seq<char>) -> Seq<char>
    decreases s.len(),
{
    if suffix.len() > 0 && ends_with(s, suffix) {
        without_suffixes(s.take(s.len() - suffix.len()), suffix)
    } else {
        s
    }
}

/// Removes every copy of a suffix from the end.
pub fn trim_suffixes<'a>(s: &'a str, suffix: &str) -> (r: &'a str)
    requires
        suffix@.len() > 0,
    ensures
        r@ == without_suffixes(s@, suffix@),
{
    let n: usize = suffix.unicode_len();
    let mut r: &'a str = s;
    while has_suffix(r, suffix)
        invariant
            n == suffix@.len(),
            n > 0,
            without_suffixes(r@, suffix@) == without_suffixes(s@, suffix@),
        decreases r@.len(),
    {
        let len: usize = r.unicode_len();
        let ghost before = r@;
        r = r.substring_char(0, len - n);
        assert(r@ =~= before.take(before.len() - n));
    }
    r
}

/// A row of `n` copies of `c`.
pub open spec fn repeated(c: char, n: nat) -> Seq<char> {
    Seq::new(n, |i: int| c)
}

/// `s` followed by as many spaces as it takes to reach `width` characters.
pub open spec fn padded_right(s: Seq<char>, width: nat) -> Seq<char> {
    s + repeated(' ', if s.len() < width { (width - s.len()) as nat } else { 0 })
}

/// `s` behind as many spaces as it takes to reach `width` characters.
pub open spec fn padded_left(s: Seq<char>, width: nat) -> Seq<char> {
    repeated(' ', if s.len() < width { (width - s.len()) as nat } else { 0 }) + s
}

/// Appends `n` copies of the one character that `unit` holds.
pub fn push_repeated(out: &mut String, unit: &str, n: usize)
    requires
        unit@.len() == 1,
    ensures
        final(out)@ == old(out)@ + repeated(unit@[0], n as nat),
{
    let mut i: usize = 0;
    assert(out@ =~= old(out)@ + repeated(unit@[0], 0));
    while i < n
        invariant
            unit@.len() == 1,
            i <= n,
            out@ == old(out)@ + repeated(unit@[0], i as nat),
        decreases n - i,
    {
        out.append(unit);
        i += 1;
        assert(out@ =~= old(out)@ + repeated(unit@[0], i as nat));
    }
}

/// Appends `s`, padded on its right to `width` characters.
pub fn push_padded_right(out: &mut String, s: &str, width: usize)
    ensures
        final(out)@ == old(out)@ + padded_right(s@, width as nat),
{
    proof {
        reveal_strlit(" ");
    }
    let n: usize = s.unicode_len();
    out.append(s);
    if n < width {
        push_repeated(out, " ", width - n);
    }
    assert(out@ =~= old(out)@ + padded_right(s@, width as nat));
}

/// Appends `s`, padded on its left to `width` characters.
pub fn push_padded_left(out: &mut String, s: &str, width: usize)
    ensures
        final(out)@ == old(out)@ + padded_left(s@, width as nat),
{
    proof {
        reveal_strlit(" ");
    }
    let n: usize = s.unicode_len();
    if n < width {
        push_repeated(out, " ", width - n);
    }
    out.append(s);
    assert(out@ =~= old(out)@ + padded_left(s@, width as nat));
}

/// The texts of `parts`, with `separator` between each two.
pub open spec fn joined(parts: Seq<Seq<char>>, separator: Seq<char>) -> Seq<char>
    decreases parts.len(),
{
    if parts.len() == 0 {
        Seq::empty()
    } else if parts.len() == 1 {
        parts[0]
    } else {
        joined(parts.drop_last(), separator) + separator + parts.last()
    }
}

/// Joins texts with a separator.
pub fn join(parts: &Vec<String>, separator: &str) -> (r: String)
    ensures
        r@ == joined(texts(parts@), separator@),
{
    let mut r: String = String::new();
    let ghost all = texts(parts@);
    let mut i: usize = 0;
    assert(all.take(0) =~= Seq::<Seq<char>>::empty());
    while i < parts.len()
        invariant
            all == texts(parts@),
            i <= parts.len(),
            r@ == joined(all.take(i as int), separator@),
        decreases parts.len() - i,
    {
        let ghost next = all.take(i + 1);
        assert(next.drop_last() =~= all.take(i as int));
        assert(next.last() == parts@[i as int]@);
        if i > 0 {
            r.append(separator);
        } else {
            assert(all.take(0) =~= Seq::<Seq<char>>::empty());
            assert(r@ =~= Seq::<char>::empty());
        }
        r.append(parts[i].as_str());
        assert(r@ =~= joined(next, separator@));
        i += 1;
    }
    assert(all.take(all.len() as int) =~= all);
    r
}

/// Whether a list of strings holds a given text.
pub fn contains_text(list: &[String], wanted: &str) -> (r: bool)
    ensures
        r == texts(list@).contains(wanted@),
{
    let mut i: usize = 0;
    while i < list.len()
        invariant
            i <= list.len(),
            forall|k: int| 0 <= k < i ==> texts(list@)[k] != wanted@,
        decreases list.len() - i,
    {
        assert(texts(list@)[i as int] == list@[i as int]@);
        if same_text(list[i].as_str(), wanted) {
            return true;
        }
        i += 1;
    }
    false
}

/// The texts of a list stand in its order, one for each string.
pub proof fn law_texts_are_those_of_the_strings(v: Seq<String>)
    ensures
        texts(v).len() == v.len(),
        forall|i: int| 0 <= i < v.len() ==> #[trigger] texts(v)[i] == v[i]@,
{
}

/// Decimal digits are read by their place: a further digit adds itself to ten
/// times what stood before.
pub proof fn law_digits_are_read_by_place(s: Seq<char>, c: char)
    requires
        '0' <= c <= '9',
    ensures
        digits_value(Seq::<char>::empty()) == 0,
        digits_value(s.push(c)) == 10 * digits_value(s) + (c as int - '0' as int),
{
    assert(s.push(c).drop_last() =~= s);
}

/// A number is written with decimal digits only, the first of which is no zero
/// unless the number is, and the digits read as the number.
pub proof fn law_numbers_are_written_shortest(n: nat)
    ensures
        decimal(n).len() > 0,
        forall|i: int| 0 <= i < decimal(n).len() ==> '0' <= #[trigger] decimal(n)[i] <= '9',
        n > 0 ==> decimal(n)[0] != '0',
        n == 0 ==> decimal(n) == seq!['0'],
        digits_value(decimal(n)) == n,
    decreases n,
{
    lemma_decimal_digits(n);
    if n >= 10 {
        law_numbers_are_written_shortest(n / 10);
        assert(decimal(n)[0] == decimal(n / 10)[0]);
    }
    assert forall|i: int| 0 <= i < decimal(n).len() implies '0' <= #[trigger] decimal(n)[i]
        <= '9' by {
        assert(is_digit(decimal(n)[i]));
    }
}

/// A text is read as a number exactly where it is digits only, at least one, as
/// it stands or behind one plus sign, and the number is within the limit.
pub proof fn law_only_digits_are_read(s: Seq<char>, max: nat)
    ensures
        s.len() == 0 ==> parsed_unsigned(s, max) is None,
        (exists|i: int| 0 <= i < s.len() && !('0' <= #[trigger] s[i] <= '9') && (i > 0 || s[i]
            != '+')) ==> parsed_unsigned(s, max) is None,
        s == seq!['+'] ==> parsed_unsigned(s, max) is None,
        s.len() > 0 && (forall|i: int| 0 <= i < s.len() ==> '0' <= #[trigger] s[i] <= '9') ==> {
            &&& digits_value(s) <= max ==> parsed_unsigned(s, max) == Some(digits_value(s))
            &&& digits_value(s) > max ==> parsed_unsigned(s, max) is None
        },
        s.len() > 0 && (forall|i: int| 0 <= i < s.len() ==> '0' <= #[trigger] s[i] <= '9')
            ==> parsed_unsigned(seq!['+'] + s, max) == parsed_unsigned(s, max),
{
    let digits = without_plus(s);
    if exists|i: int| 0 <= i < s.len() && !('0' <= #[trigger] s[i] <= '9') && (i > 0 || s[i]
        != '+') {
        let i = choose|i: int|
            0 <= i < s.len() && !('0' <= #[trigger] s[i] <= '9') && (i > 0 || s[i] != '+');
        let j = if s[0] == '+' {
            i - 1
        } else {
            i
        };
        assert(digits[j] == s[i]);
        assert(!is_digit(digits[j]));
    }
    if s.len() > 0 && (forall|i: int| 0 <= i < s.len() ==> '0' <= #[trigger] s[i] <= '9') {
        assert('0' <= s[0] <= '9');
        assert(digits == s);
        assert(all_digits(s));
        assert((seq!['+'] + s).skip(1) =~= s);
    }
}

/// White space among the first characters of Unicode is the space, the tab, the
/// line feed, the carriage return, and two more controls; behind them it is
/// nineteen characters.
pub proof fn law_white_space(c: char)
    ensures
        (c as int) < 0x80 ==> (is_space(c) <==> c == ' ' || c == '\t' || c == '\n' || c == '\r'
            || c as int == 0x0b || c as int == 0x0c),
        (c as int) >= 0x80 ==> (is_space(c) <==> seq![
            0x85int,
            0xa0,
            0x1680,
            0x2000,
            0x2001,
            0x2002,
            0x2003,
            0x2004,
            0x2005,
            0x2006,
            0x2007,
            0x2008,
            0x2009,
            0x200a,
            0x2028,
            0x2029,
            0x202f,
            0x205f,
            0x3000,
        ].contains(c as int)),
{
    let spaces = seq![
        0x85int,
        0xa0,
        0x1680,
        0x2000,
        0x2001,
        0x2002,
        0x2003,
        0x2004,
        0x2005,
        0x2006,
        0x2007,
        0x2008,
        0x2009,
        0x200a,
        0x2028,
        0x2029,
        0x202f,
        0x205f,
        0x3000,
    ];
    let n = c as int;
    if n >= 0x80 && is_space(c) {
        let i: int = if n == 0x85 {
            0
        } else if n == 0xa0 {
            1
        } else if n == 0x1680 {
            2
        } else if 0x2000 <= n <= 0x200a {
            n - 0x2000 + 3
        } else if n == 0x2028 {
            14
        } else if n == 0x2029 {
            15
        } else if n == 0x202f {
            16
        } else if n == 0x205f {
            17
        } else {
            18
        };
        assert(spaces[i] == n);
    }
}

proof fn lemma_spaces_end(s: Seq<char>, from: int, to: int)
    requires
        0 <= from <= to <= s.len(),
        forall|i: int| from <= i < to ==> is_space(#[trigger] s[i]),
        to < s.len() ==> !is_space(s[to]),
    ensures
        space_end(s, from) == to,
    decreases to - from,
{
    if from < to {
        lemma_spaces_end(s, from + 1, to);
    }
}

proof fn lemma_word_ends(s: Seq<char>, from: int, to: int)
    requires
        0 <= from <= to <= s.len(),
        forall|i: int| from <= i < to ==> !is_space(#[trigger] s[i]),
        to < s.len() ==> is_space(s[to]),
    ensures
        word_end(s, from) == to,
    decreases to - from,
{
    if from < to {
        lemma_word_ends(s, from + 1, to);
    }
}

proof fn lemma_trim_ends(s: Seq<char>, from: int, to: int)
    requires
        0 < from <= to <= s.len(),
        forall|i: int| from <= i < to ==> is_space(#[trigger] s[i]),
        !is_space(s[from - 1]),
    ensures
        trim_end_at(s, to) == from,
    decreases to - from,
{
    if from < to {
        lemma_trim_ends(s, from, to - 1);
    }
}

/// Trimming takes the white space off both ends and leaves what stands between
/// as it is.
pub proof fn law_trimming_frees_the_middle(a: Seq<char>, s: Seq<char>, b: Seq<char>)
    requires
        forall|i: int| 0 <= i < a.len() ==> is_space(#[trigger] a[i]),
        forall|i: int| 0 <= i < b.len() ==> is_space(#[trigger] b[i]),
        s.len() > 0 ==> !is_space(s[0]) && !is_space(s[s.len() - 1]),
    ensures
        trimmed(a + s + b) == s,
{
    let all = a + s + b;
    if s.len() > 0 {
        assert(all[a.len() as int] == s[0]);
        lemma_spaces_end(all, 0, a.len() as int);
        assert(all[a.len() + s.len() - 1] == s[s.len() - 1]);
        lemma_trim_ends(all, (a.len() + s.len()) as int, all.len() as int);
        assert(trimmed(all) =~= s);
    } else {
        lemma_spaces_end(all, 0, all.len() as int);
        assert(trimmed(all) =~= s);
    }
}

proof fn lemma_words_shift(a: Seq<char>, b: Seq<char>, from: int)
    requires
        0 <= from <= b.len(),
    ensures
        words_from(a + b, a.len() + from) == words_from(b, from),
    decreases b.len() - from,
{
    let s = a + b;
    let n = a.len() as int;
    lemma_space_end_shift(a, b, from);
    lemma_space_end_bounds(b, from);
    let at = space_end(b, from);
    if at < b.len() {
        lemma_word_end_shift(a, b, at);
        lemma_word_end_bounds(b, at);
        let end = word_end(b, at);
        lemma_words_shift(a, b, end);
        assert(s.subrange(n + at, n + end) =~= b.subrange(at, end));
    }
}

proof fn lemma_space_end_shift(a: Seq<char>, b: Seq<char>, from: int)
    requires
        0 <= from <= b.len(),
    ensures
        space_end(a + b, a.len() + from) == a.len() + space_end(b, from),
    decreases b.len() - from,
{
    if from < b.len() {
        assert((a + b)[a.len() + from] == b[from]);
        if is_space(b[from]) {
            lemma_space_end_shift(a, b, from + 1);
        }
    }
}

proof fn lemma_word_end_shift(a: Seq<char>, b: Seq<char>, from: int)
    requires
        0 <= from <= b.len(),
    ensures
        word_end(a + b, a.len() + from) == a.len() + word_end(b, from),
    decreases b.len() - from,
{
    if from < b.len() {
        assert((a + b)[a.len() + from] == b[from]);
        if !is_space(b[from]) {
            lemma_word_end_shift(a, b, from + 1);
        }
    }
}

/// White space before a text adds no word; a word, at the end or before white
/// space, is the first; and nothing has none.
pub proof fn law_words_stand_between_white_space(space: char, word: Seq<char>, rest: Seq<char>)
    requires
        is_space(space),
        word.len() > 0,
        forall|i: int| 0 <= i < word.len() ==> !is_space(#[trigger] word[i]),
    ensures
        words(Seq::<char>::empty()) == Seq::<Seq<char>>::empty(),
        words(seq![space] + rest) == words(rest),
        words(word) == seq![word],
        words(word + seq![space] + rest) == seq![word] + words(rest),
{
    let none = Seq::<char>::empty();
    assert(words(none) =~= Seq::<Seq<char>>::empty());
    let a = seq![space];
    lemma_words_shift(a, rest, 0);
    assert((a + rest)[0] == space);
    assert(space_end(a + rest, 0) == space_end(a + rest, 1));
    lemma_space_end_bounds(a + rest, 1);
    assert(words(a + rest) =~= words(rest));
    lemma_spaces_end(word, 0, 0);
    lemma_word_ends(word, 0, word.len() as int);
    lemma_spaces_end(word, word.len() as int, word.len() as int);
    assert(word.subrange(0, word.len() as int) =~= word);
    assert(words_from(word, word.len() as int) =~= Seq::<Seq<char>>::empty());
    assert(words(word) =~= seq![word]);
    let s = word + a + rest;
    let n = word.len() as int;
    assert(s =~= word + (a + rest));
    assert(s[0] == word[0]);
    assert(s[n] == space);
    lemma_spaces_end(s, 0, 0);
    assert forall|i: int| 0 <= i < n implies !is_space(#[trigger] s[i]) by {
        assert(s[i] == word[i]);
    }
    lemma_word_ends(s, 0, n);
    lemma_words_shift(word, a + rest, 0);
    assert(s.subrange(0, n) =~= word);
    assert(words(s) =~= seq![word] + words(rest));
}

proof fn lemma_find_at(s: Seq<char>, c: char, from: int, at: int)
    requires
        0 <= from <= at <= s.len(),
        forall|i: int| from <= i < at ==> #[trigger] s[i] != c,
        at < s.len() ==> s[at] == c,
    ensures
        find_from(s, c, from) == at,
    decreases at - from,
{
    if from < at {
        lemma_find_at(s, c, from + 1, at);
    }
}

proof fn lemma_find_shift(a: Seq<char>, b: Seq<char>, c: char, from: int)
    requires
        0 <= from <= b.len(),
    ensures
        find_from(a + b, c, a.len() + from) == a.len() + find_from(b, c, from),
    decreases b.len() - from,
{
    if from < b.len() {
        assert((a + b)[a.len() + from] == b[from]);
        if b[from] != c {
            lemma_find_shift(a, b, c, from + 1);
        }
    }
}

proof fn lemma_lines_shift(a: Seq<char>, b: Seq<char>, from: int)
    requires
        0 <= from,
    ensures
        lines_from(a + b, a.len() + from) == lines_from(b, from),
    decreases b.len() + 1 - from,
{
    let s = a + b;
    let n = a.len() as int;
    if from < b.len() {
        lemma_find_bounds(b, '\n', from);
        lemma_find_shift(a, b, '\n', from);
        let feed = find_from(b, '\n', from);
        if from < feed < b.len() {
            assert(s[n + feed - 1] == b[feed - 1]);
        }
        lemma_lines_shift(a, b, feed + 1);
        assert(s.subrange(n + from, n + line_end(b, from)) =~= b.subrange(
            from,
            line_end(b, from),
        ));
    }
}

/// A line feed ends a line, and a carriage return right before it belongs to
/// neither; what stands behind the last line feed is a line where it is
/// anything, and nothing has no line.
pub proof fn law_lines_end_at_line_feeds(line: Seq<char>, rest: Seq<char>)
    requires
        forall|i: int| 0 <= i < line.len() ==> #[trigger] line[i] != '\n',
    ensures
        lines(Seq::<char>::empty()) == Seq::<Seq<char>>::empty(),
        line.len() > 0 ==> lines(line) == seq![line],
        line.len() == 0 || line[line.len() - 1] != '\r' ==> lines(line + seq!['\n'] + rest)
            == seq![line] + lines(rest),
        line.len() > 0 && line[line.len() - 1] == '\r' ==> lines(line + seq!['\n'] + rest)
            == seq![line.drop_last()] + lines(rest),
{
    assert(lines(Seq::<char>::empty()) =~= Seq::<Seq<char>>::empty());
    let n = line.len() as int;
    if n > 0 {
        lemma_find_at(line, '\n', 0, n);
        assert(line.subrange(0, n) =~= line);
        assert(lines_from(line, n + 1) =~= Seq::<Seq<char>>::empty());
        assert(lines(line) =~= seq![line]);
    }
    let a = line + seq!['\n'];
    let s = a + rest;
    assert forall|i: int| 0 <= i < n implies #[trigger] s[i] != '\n' by {
        assert(s[i] == line[i]);
    }
    assert(s[n] == '\n');
    lemma_find_at(s, '\n', 0, n);
    lemma_lines_shift(a, rest, 0);
    assert(a.len() == n + 1);
    if n > 0 {
        assert(s[n - 1] == line[n - 1]);
    }
    if n > 0 && line[n - 1] == '\r' {
        assert(s.subrange(0, n - 1) =~= line.drop_last());
        assert(lines(s) =~= seq![line.drop_last()] + lines(rest));
    } else {
        assert(s.subrange(0, n) =~= line);
        assert(lines(s) =~= seq![line] + lines(rest));
    }
}

/// A character parts a text where it stands first: what is before holds none of
/// it, and what is behind is all the rest. Where it does not stand all is
/// before.
pub proof fn law_text_is_cut_at_the_first(a: Seq<char>, c: char, b: Seq<char>)
    requires
        forall|i: int| 0 <= i < a.len() ==> #[trigger] a[i] != c,
    ensures
        before_char(a + seq![c] + b, c) == a,
        behind_char(a + seq![c] + b, c) == b,
        find_from(a + seq![c] + b, c, 0) == a.len(),
        before_char(a, c) == a,
        behind_char(a, c) == Seq::<char>::empty(),
        find_from(a, c, 0) == a.len(),
{
    let s = a + seq![c] + b;
    let n = a.len() as int;
    assert forall|i: int| 0 <= i < n implies #[trigger] s[i] != c by {
        assert(s[i] == a[i]);
    }
    assert(s[n] == c);
    lemma_find_at(s, c, 0, n);
    lemma_find_at(a, c, 0, n);
    assert(s.take(n) =~= a);
    assert(s.skip(n + 1) =~= b);
    assert(a.take(n) =~= a);
}

/// Beginnings and ends: a text begins with what it was begun with, and ends
/// with what was put behind it, and with nothing else of that length.
pub proof fn law_beginnings_and_ends(a: Seq<char>, b: Seq<char>, other: Seq<char>)
    ensures
        starts_with(a + b, a),
        ends_with(a + b, b),
        other.len() == a.len() && starts_with(a + b, other) ==> other == a,
        other.len() == b.len() && ends_with(a + b, other) ==> other == b,
        other.len() > a.len() ==> !starts_with(a, other) && !ends_with(a, other),
{
    assert((a + b).take(a.len() as int) =~= a);
    assert((a + b).skip(a.len() as int) =~= b);
}

/// All copies of a suffix go: what is left does not end with it, and one copy
/// more makes no difference.
pub proof fn law_suffixes_are_removed(s: Seq<char>, suffix: Seq<char>)
    requires
        suffix.len() > 0,
    ensures
        !ends_with(without_suffixes(s, suffix), suffix),
        !ends_with(s, suffix) ==> without_suffixes(s, suffix) == s,
        without_suffixes(s + suffix, suffix) == without_suffixes(s, suffix),
        starts_with(s, without_suffixes(s, suffix)),
    decreases s.len(),
{
    law_beginnings_and_ends(s, suffix, suffix);
    assert((s + suffix).take(s.len() as int) =~= s);
    if ends_with(s, suffix) {
        let shorter = s.take(s.len() - suffix.len());
        law_suffixes_are_removed(shorter, suffix);
        let left = without_suffixes(s, suffix);
        assert(s.take(left.len() as int) =~= shorter.take(left.len() as int));
    } else {
        assert(s.take(s.len() as int) =~= s);
    }
}

/// A padded text has at least the width, holds the text at its end or its
/// beginning, and is nothing but spaces besides; one that is wide enough is as
/// it was.
pub proof fn law_padding_is_spaces(s: Seq<char>, width: nat)
    ensures
        s.len() >= width ==> padded_right(s, width) == s && padded_left(s, width) == s,
        s.len() < width ==> {
            &&& padded_right(s, width).len() == width
            &&& padded_left(s, width).len() == width
            &&& padded_right(s, width).take(s.len() as int) == s
            &&& padded_left(s, width).skip(width - s.len()) == s
            &&& forall|i: int| s.len() <= i < width ==> #[trigger] padded_right(s, width)[i] == ' '
            &&& forall|i: int|
                0 <= i < width - s.len() ==> #[trigger] padded_left(s, width)[i] == ' '
        },
{
    if s.len() >= width {
        assert(padded_right(s, width) =~= s);
        assert(padded_left(s, width) =~= s);
    } else {
        assert(padded_right(s, width).take(s.len() as int) =~= s);
        assert(padded_left(s, width).skip(width - s.len()) =~= s);
    }
}

/// A row of copies holds so many of the character and no other.
pub proof fn law_rows_of_one_character(c: char, n: nat)
    ensures
        repeated(c, n).len() == n,
        forall|i: int| 0 <= i < n ==> #[trigger] repeated(c, n)[i] == c,
{
}

/// Joined texts: one is as it is, and each further stands behind a separator.
pub proof fn law_joined_texts_are_separated(parts: Seq<Seq<char>>, next: Seq<char>, sep: Seq<char>)
    ensures
        joined(Seq::<Seq<char>>::empty(), sep) == Seq::<char>::empty(),
        joined(seq![next], sep) == next,
        parts.len() > 0 ==> joined(parts.push(next), sep) == joined(parts, sep) + sep + next,
{
    assert(parts.push(next).drop_last() =~= parts);
}

/// What stands before the first of a character goes on past a beginning that
/// holds none of it.
pub proof fn law_cut_goes_on_past_a_beginning(a: Seq<char>, b: Seq<char>, c: char)
    requires
        forall|i: int| 0 <= i < a.len() ==> #[trigger] a[i] != c,
    ensures
        before_char(a + b, c) == a + before_char(b, c),
{
    let s = a + b;
    let n = a.len() as int;
    lemma_find_shift(a, b, c, 0);
    lemma_find_bounds(b, c, 0);
    lemma_find_passes(a, b, c, 0);
    assert(s.take(find_from(s, c, 0)) =~= a + b.take(find_from(b, c, 0)));
}

proof fn lemma_find_passes(a: Seq<char>, b: Seq<char>, c: char, from: int)
    requires
        0 <= from <= a.len(),
        forall|i: int| 0 <= i < a.len() ==> #[trigger] a[i] != c,
    ensures
        find_from(a + b, c, from) == find_from(a + b, c, a.len() as int),
    decreases a.len() - from,
{
    if from < a.len() {
        assert((a + b)[from] == a[from]);
        lemma_find_passes(a, b, c, from + 1);
    }
}

} // verus!

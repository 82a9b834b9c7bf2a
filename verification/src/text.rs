//! Characters and strings: what the rest of the library says about text, and
//! the loops that compute it.
//!
//! A string is modelled by its sequence of Unicode scalar values. Work on a
//! string goes through a vector of its characters, so that every index below
//! counts characters.

use vstd::prelude::*;
use vstd::string::*;

verus! {

/// `String::push` appends the character at the end of the string.
pub assume_specification[ String::push ](s: &mut String, c: char)
    ensures
        final(s)@ == old(s)@.push(c),
;

// ---------------------------------------------------------------------------
// Character classes
// ---------------------------------------------------------------------------
/// The characters with the Unicode property `White_Space`.
pub open spec fn is_whitespace(c: char) -> bool {
    ||| '\u{9}' <= c <= '\u{d}'
    ||| c == ' '
    ||| c == '\u{85}'
    ||| c == '\u{a0}'
    ||| c == '\u{1680}'
    ||| '\u{2000}' <= c <= '\u{200a}'
    ||| c == '\u{2028}'
    ||| c == '\u{2029}'
    ||| c == '\u{202f}'
    ||| c == '\u{205f}'
    ||| c == '\u{3000}'
}

/// Whether `c` is white space.
pub fn whitespace_char(c: char) -> (r: bool)
    ensures
        r == is_whitespace(c),
{
    ('\u{9}' <= c && c <= '\u{d}') || c == ' ' || c == '\u{85}' || c == '\u{a0}' || c == '\u{1680}'
        || ('\u{2000}' <= c && c <= '\u{200a}') || c == '\u{2028}' || c == '\u{2029}' || c
        == '\u{202f}' || c == '\u{205f}' || c == '\u{3000}'
}

/// The control characters: the Unicode category `Cc`.
pub open spec fn is_control(c: char) -> bool {
    c <= '\u{1f}' || '\u{7f}' <= c <= '\u{9f}'
}

/// Whether `c` is a control character.
pub fn control_char(c: char) -> (r: bool)
    ensures
        r == is_control(c),
{
    c <= '\u{1f}' || ('\u{7f}' <= c && c <= '\u{9f}')
}

/// The ASCII letters.
pub open spec fn is_letter(c: char) -> bool {
    'a' <= c <= 'z' || 'A' <= c <= 'Z'
}

/// Whether `c` is an ASCII letter.
pub fn letter_char(c: char) -> (r: bool)
    ensures
        r == is_letter(c),
{
    ('a' <= c && c <= 'z') || ('A' <= c && c <= 'Z')
}

/// The ASCII letters and digits.
pub open spec fn is_alphanumeric(c: char) -> bool {
    'a' <= c <= 'z' || 'A' <= c <= 'Z' || '0' <= c <= '9'
}

/// Whether `c` is an ASCII letter or digit.
pub fn alphanumeric_char(c: char) -> (r: bool)
    ensures
        r == is_alphanumeric(c),
{
    ('a' <= c && c <= 'z') || ('A' <= c && c <= 'Z') || ('0' <= c && c <= '9')
}

// ---------------------------------------------------------------------------
// Strings and character vectors
// ---------------------------------------------------------------------------
/// The ghost counterpart of an optional string.
pub open spec fn optional(text: Option<String>) -> Option<Seq<char>> {
    match text {
        Some(text) => Some(text@),
        None => None,
    }
}

/// The characters of `s`, in order.
pub fn chars_of(s: &str) -> (r: Vec<char>)
    ensures
        r@ == s@,
{
    let mut out: Vec<char> = Vec::new();
    for c in it: s.chars()
        invariant
            out@ == s@.take(it.index()),
            it.seq() == s@,
    {
        out.push(c);
    }
    assert(s@.take(s@.len() as int) == s@);
    out
}

/// The string of the characters `from..to`.
pub fn string_between(chars: &Vec<char>, from: usize, to: usize) -> (r: String)
    requires
        from <= to <= chars@.len(),
    ensures
        r@ == chars@.subrange(from as int, to as int),
{
    let mut out = String::new();
    let mut i = from;
    while i < to
        invariant
            from <= i <= to <= chars@.len(),
            out@ == chars@.subrange(from as int, i as int),
        decreases to - i,
    {
        out.push(chars[i]);
        i += 1;
        assert(out@ =~= chars@.subrange(from as int, i as int));
    }
    out
}

/// The string of all the characters.
pub fn string_of(chars: &Vec<char>) -> (r: String)
    ensures
        r@ == chars@,
{
    let r = string_between(chars, 0, chars.len());
    assert(chars@.subrange(0, chars@.len() as int) =~= chars@);
    r
}

/// Whether two strings hold the same characters.
pub fn same_text(a: &str, b: &str) -> (r: bool)
    ensures
        r == (a@ == b@),
{
    let x = chars_of(a);
    let y = chars_of(b);
    if x.len() != y.len() {
        return false;
    }
    assert(a@.subrange(0, a@.len() as int) =~= a@);
    matches_at(&x, &y, 0)
}

/// The first `n` characters of `s`, or all of them if there are fewer.
pub open spec fn head(s: Seq<char>, n: nat) -> Seq<char> {
    if n < s.len() {
        s.take(n as int)
    } else {
        s
    }
}

/// The first `n` characters of `s`, or all of them if there are fewer.
pub fn first_chars(s: &str, n: usize) -> (r: String)
    ensures
        r@ == head(s@, n as nat),
{
    let chars = chars_of(s);
    let end = if n < chars.len() {
        n
    } else {
        chars.len()
    };
    let r = string_between(&chars, 0, end);
    assert(r@ =~= head(s@, n as nat));
    r
}

// ---------------------------------------------------------------------------
// Searching
// ---------------------------------------------------------------------------
/// Whether `pattern` stands in `s` at index `i`.
pub open spec fn occurs_at(s: Seq<char>, pattern: Seq<char>, i: int) -> bool {
    0 <= i && i + pattern.len() <= s.len() && s.subrange(i, i + pattern.len()) == pattern
}

/// Whether `pattern` stands in `s` at index `at`.
pub fn matches_at(s: &Vec<char>, pattern: &Vec<char>, at: usize) -> (r: bool)
    ensures
        r == occurs_at(s@, pattern@, at as int),
{
    if at > s.len() || pattern.len() > s.len() - at {
        return false;
    }
    let mut i: usize = 0;
    while i < pattern.len()
        invariant
            i <= pattern@.len(),
            at + pattern@.len() <= s@.len() <= usize::MAX,
            forall|j: int| 0 <= j < i ==> s@[at + j] == pattern@[j],
        decreases pattern@.len() - i,
    {
        if s[at + i] != pattern[i] {
            assert(s@.subrange(at as int, at + pattern@.len())[i as int] != pattern@[i as int]);
            return false;
        }
        i += 1;
    }
    assert(s@.subrange(at as int, at + pattern@.len()) =~= pattern@);
    true
}

/// The first index from `i` on at which `pattern` stands in `s`.
pub open spec fn find_from(s: Seq<char>, pattern: Seq<char>, i: int) -> Option<int>
    decreases s.len() + 1 - i,
{
    if i > s.len() {
        None
    } else if occurs_at(s, pattern, i) {
        Some(i)
    } else {
        find_from(s, pattern, i + 1)
    }
}

/// The first index at which `pattern` stands in `s`.
pub open spec fn find(s: Seq<char>, pattern: Seq<char>) -> Option<int> {
    find_from(s, pattern, 0)
}

/// What `find_from` returns is the first occurrence, and nothing means none.
pub proof fn lemma_find_from(s: Seq<char>, pattern: Seq<char>, i: int)
    requires
        0 <= i,
    ensures
        match find_from(s, pattern, i) {
            Some(k) => i <= k <= s.len() && occurs_at(s, pattern, k) && forall|j: int|
                i <= j < k ==> !occurs_at(s, pattern, j),
            None => forall|j: int| i <= j ==> !occurs_at(s, pattern, j),
        },
    decreases s.len() + 1 - i,
{
    if i <= s.len() && !occurs_at(s, pattern, i) {
        lemma_find_from(s, pattern, i + 1);
    }
}

/// The first index at which `pattern` stands in `s`.
pub fn find_pattern(s: &Vec<char>, pattern: &Vec<char>) -> (r: Option<usize>)
    ensures
        match r {
            Some(k) => find(s@, pattern@) == Some(k as int) && occurs_at(s@, pattern@, k as int),
            None => find(s@, pattern@) is None,
        },
{
    let mut i: usize = 0;
    while i < s.len()
        invariant
            i <= s@.len(),
            find(s@, pattern@) == find_from(s@, pattern@, i as int),
        decreases s@.len() - i,
    {
        if matches_at(s, pattern, i) {
            return Some(i);
        }
        i += 1;
    }
    if matches_at(s, pattern, i) {
        return Some(i);
    }
    assert(find_from(s@, pattern@, i + 1) is None);
    None
}

/// The text before and after the first occurrence of `pattern`.
pub open spec fn split_once(s: Seq<char>, pattern: Seq<char>) -> Option<(Seq<char>, Seq<char>)> {
    match find(s, pattern) {
        Some(k) => Some((s.take(k), s.skip(k + pattern.len()))),
        None => None,
    }
}

/// The text before and after the first occurrence of `pattern` in `s`.
pub fn split_at_first(s: &str, pattern: &str) -> (r: Option<(String, String)>)
    ensures
        match r {
            Some(parts) => split_once(s@, pattern@) == Some((parts.0@, parts.1@)),
            None => split_once(s@, pattern@) is None,
        },
{
    let chars = chars_of(s);
    let wanted = chars_of(pattern);
    match find_pattern(&chars, &wanted) {
        Some(k) => {
            let before = string_between(&chars, 0, k);
            assert(k + pattern@.len() <= chars.len());
            let after = string_between(&chars, k + wanted.len(), chars.len());
            assert(before@ =~= s@.take(k as int));
            assert(after@ =~= s@.skip(k + pattern@.len()));
            Some((before, after))
        },
        None => None,
    }
}

/// Whether `pattern` stands anywhere in `s`.
pub open spec fn contains(s: Seq<char>, pattern: Seq<char>) -> bool {
    find(s, pattern) is Some
}

/// Whether `pattern` stands anywhere in `s`.
pub fn contains_text(s: &str, pattern: &str) -> (r: bool)
    ensures
        r == contains(s@, pattern@),
{
    let chars = chars_of(s);
    let wanted = chars_of(pattern);
    find_pattern(&chars, &wanted).is_some()
}

/// Whether the character `c` stands anywhere in `s`.
pub fn contains_char(s: &str, c: char) -> (r: bool)
    ensures
        r == s@.contains(c),
{
    let chars = chars_of(s);
    let mut i: usize = 0;
    while i < chars.len()
        invariant
            i <= chars@.len(),
            chars@ == s@,
            forall|j: int| 0 <= j < i ==> chars@[j] != c,
        decreases chars@.len() - i,
    {
        if chars[i] == c {
            return true;
        }
        i += 1;
    }
    false
}

/// Whether `s` begins with `prefix`.
pub open spec fn starts_with(s: Seq<char>, prefix: Seq<char>) -> bool {
    prefix.len() <= s.len() && s.take(prefix.len() as int) == prefix
}

/// Whether `s` ends with `suffix`.
pub open spec fn ends_with(s: Seq<char>, suffix: Seq<char>) -> bool {
    suffix.len() <= s.len() && s.skip(s.len() - suffix.len()) == suffix
}

/// What follows `prefix` in `s`, if `s` begins with it.
pub open spec fn strip_prefix(s: Seq<char>, prefix: Seq<char>) -> Option<Seq<char>> {
    if starts_with(s, prefix) {
        Some(s.skip(prefix.len() as int))
    } else {
        None
    }
}

/// What stands before `suffix` in `s`, if `s` ends with it.
pub open spec fn strip_suffix(s: Seq<char>, suffix: Seq<char>) -> Option<Seq<char>> {
    if ends_with(s, suffix) {
        Some(s.take(s.len() - suffix.len()))
    } else {
        None
    }
}

/// What follows `prefix` in `s`, if `s` begins with it.
pub fn without_prefix(s: &str, prefix: &str) -> (r: Option<String>)
    ensures
        match r {
            Some(rest) => strip_prefix(s@, prefix@) == Some(rest@),
            None => strip_prefix(s@, prefix@) is None,
        },
{
    let chars = chars_of(s);
    let wanted = chars_of(prefix);
    proof {
        if prefix@.len() <= s@.len() {
            assert(s@.subrange(0, prefix@.len() as int) =~= s@.take(prefix@.len() as int));
        }
    }
    if matches_at(&chars, &wanted, 0) {
        let rest = string_between(&chars, wanted.len(), chars.len());
        assert(rest@ =~= s@.skip(prefix@.len() as int));
        Some(rest)
    } else {
        None
    }
}

/// What stands before `suffix` in `s`, if `s` ends with it.
pub fn without_suffix(s: &str, suffix: &str) -> (r: Option<String>)
    ensures
        match r {
            Some(rest) => strip_suffix(s@, suffix@) == Some(rest@),
            None => strip_suffix(s@, suffix@) is None,
        },
{
    let chars = chars_of(s);
    let wanted = chars_of(suffix);
    if wanted.len() > chars.len() {
        return None;
    }
    let cut = chars.len() - wanted.len();
    assert(s@.subrange(cut as int, cut + suffix@.len()) =~= s@.skip(cut as int));
    if matches_at(&chars, &wanted, cut) {
        let rest = string_between(&chars, 0, cut);
        assert(rest@ =~= s@.take(cut as int));
        Some(rest)
    } else {
        None
    }
}

/// Whether `s` begins with `prefix`.
pub fn begins_with(s: &str, prefix: &str) -> (r: bool)
    ensures
        r == starts_with(s@, prefix@),
{
    without_prefix(s, prefix).is_some()
}

/// Whether `s` ends with `suffix`.
pub fn finishes_with(s: &str, suffix: &str) -> (r: bool)
    ensures
        r == ends_with(s@, suffix@),
{
    without_suffix(s, suffix).is_some()
}

// ---------------------------------------------------------------------------
// White space around a text
// ---------------------------------------------------------------------------
/// `s` without the white space it begins with.
pub open spec fn trim_start(s: Seq<char>) -> Seq<char>
    decreases s.len(),
{
    if s.len() > 0 && is_whitespace(s.first()) {
        trim_start(s.drop_first())
    } else {
        s
    }
}

/// `s` without the white space it ends with.
pub open spec fn trim_end(s: Seq<char>) -> Seq<char>
    decreases s.len(),
{
    if s.len() > 0 && is_whitespace(s.last()) {
        trim_end(s.drop_last())
    } else {
        s
    }
}

/// `s` without the white space around it.
pub open spec fn trim(s: Seq<char>) -> Seq<char> {
    trim_end(trim_start(s))
}

/// Whether `s` holds nothing but white space.
pub open spec fn is_blank(s: Seq<char>) -> bool {
    trim(s).len() == 0
}

/// `s` without the white space around it.
pub fn trimmed(s: &str) -> (r: String)
    ensures
        r@ == trim(s@),
{
    let chars = chars_of(s);
    let mut from: usize = 0;
    assert(s@.skip(0) =~= s@);
    while from < chars.len() && whitespace_char(chars[from])
        invariant
            from <= chars@.len(),
            chars@ == s@,
            trim_start(s@) == trim_start(s@.skip(from as int)),
        decreases chars@.len() - from,
    {
        assert(s@.skip(from as int).drop_first() =~= s@.skip(from + 1));
        from += 1;
    }
    let ghost rest = s@.skip(from as int);
    let mut to: usize = chars.len();
    assert(rest.take(rest.len() as int) =~= rest);
    while to > from && whitespace_char(chars[to - 1])
        invariant
            from <= to <= chars@.len(),
            chars@ == s@,
            rest == s@.skip(from as int),
            trim_end(rest) == trim_end(rest.take(to - from)),
        decreases to - from,
    {
        assert(rest.take(to - from).drop_last() =~= rest.take(to - from - 1));
        assert(rest.take(to - from).last() == chars@[to - 1]);
        to -= 1;
    }
    let r = string_between(&chars, from, to);
    proof {
        if to > from {
            assert(rest.take(to - from).last() == chars@[to - 1]);
        }
        assert(r@ =~= rest.take(to - from));
    }
    r
}

/// Whether `s` holds nothing but white space.
pub fn blank(s: &str) -> (r: bool)
    ensures
        r == is_blank(s@),
{
    trimmed(s).as_str().is_empty()
}

// ---------------------------------------------------------------------------
// Numbers
// ---------------------------------------------------------------------------
/// The decimal digit with the value `d`.
pub open spec fn digit(d: int) -> char {
    if d == 0 {
        '0'
    } else if d == 1 {
        '1'
    } else if d == 2 {
        '2'
    } else if d == 3 {
        '3'
    } else if d == 4 {
        '4'
    } else if d == 5 {
        '5'
    } else if d == 6 {
        '6'
    } else if d == 7 {
        '7'
    } else if d == 8 {
        '8'
    } else {
        '9'
    }
}

/// `n` in decimal, without leading zeros.
pub open spec fn decimal(n: nat) -> Seq<char>
    decreases n,
{
    if n < 10 {
        seq![digit(n as int)]
    } else {
        decimal(n / 10).push(digit((n % 10) as int))
    }
}

/// Numbers are written with decimal digits only.
pub proof fn lemma_decimal_digits(n: nat)
    ensures
        decimal(n).len() > 0,
        forall|i: int| 0 <= i < decimal(n).len() ==> '0' <= #[trigger] decimal(n)[i] <= '9',
    decreases n,
{
    if n >= 10 {
        lemma_decimal_digits(n / 10);
    }
}

/// Different numbers are written differently.
pub proof fn lemma_decimal_injective(a: nat, b: nat)
    requires
        decimal(a) == decimal(b),
    ensures
        a == b,
    decreases a,
{
    lemma_decimal_digits(a / 10);
    lemma_decimal_digits(b / 10);
    let x = decimal(a);
    let y = decimal(b);
    assert(x.last() == digit((a % 10) as int));
    assert(y.last() == digit((b % 10) as int));
    if a >= 10 && b >= 10 {
        assert(x.drop_last() =~= decimal(a / 10));
        assert(y.drop_last() =~= decimal(b / 10));
        lemma_decimal_injective(a / 10, b / 10);
    }
}

/// The decimal digit with the value `d`.
fn digit_char(d: u64) -> (r: char)
    requires
        d < 10,
    ensures
        r == digit(d as int),
{
    match d {
        0 => '0',
        1 => '1',
        2 => '2',
        3 => '3',
        4 => '4',
        5 => '5',
        6 => '6',
        7 => '7',
        8 => '8',
        _ => '9',
    }
}

/// `n` in decimal, without leading zeros.
pub fn decimal_text(n: u64) -> (r: String)
    ensures
        r@ == decimal(n as nat),
    decreases n,
{
    if n < 10 {
        let mut out = String::new();
        out.push(digit_char(n));
        assert(out@ =~= decimal(n as nat));
        out
    } else {
        let mut out = decimal_text(n / 10);
        out.push(digit_char(n % 10));
        out
    }
}

// ---------------------------------------------------------------------------
// Rewriting
// ---------------------------------------------------------------------------
/// `s` with every `c` replaced by `by`.
pub open spec fn replace(s: Seq<char>, c: char, by: Seq<char>) -> Seq<char>
    decreases s.len(),
{
    if s.len() == 0 {
        s
    } else if s.last() == c {
        replace(s.drop_last(), c, by) + by
    } else {
        replace(s.drop_last(), c, by).push(s.last())
    }
}

/// Nothing is replaced where there is nothing to replace.
pub proof fn lemma_nothing_replaced(s: Seq<char>, c: char, by: Seq<char>)
    requires
        !s.contains(c),
    ensures
        replace(s, c, by) == s,
    decreases s.len(),
{
    if s.len() > 0 {
        assert(s.contains(s.last()));
        assert forall|x: char| s.drop_last().contains(x) implies s.contains(x) by {
            let i = choose|i: int| 0 <= i < s.len() - 1 && s.drop_last()[i] == x;
            assert(s[i] == x);
        }
        lemma_nothing_replaced(s.drop_last(), c, by);
        assert(s.drop_last().push(s.last()) =~= s);
    }
}

/// `s` with every `c` replaced by `by`.
pub fn replaced(s: &str, c: char, by: &str) -> (r: String)
    ensures
        r@ == replace(s@, c, by@),
{
    let chars = chars_of(s);
    let mut out = String::new();
    let mut i: usize = 0;
    assert(s@.take(0) =~= Seq::<char>::empty());
    while i < chars.len()
        invariant
            i <= chars@.len(),
            chars@ == s@,
            out@ == replace(s@.take(i as int), c, by@),
        decreases chars@.len() - i,
    {
        assert(s@.take(i + 1).drop_last() =~= s@.take(i as int));
        assert(s@.take(i + 1).last() == chars@[i as int]);
        if chars[i] == c {
            out.append(by);
        } else {
            out.push(chars[i]);
        }
        i += 1;
    }
    assert(s@.take(s@.len() as int) =~= s@);
    out
}

/// `n` copies of `c`.
pub open spec fn repeated(c: char, n: nat) -> Seq<char> {
    Seq::new(n, |i: int| c)
}

/// `s` with blanks in front of it up to `width` characters.
pub open spec fn pad_left(s: Seq<char>, width: nat) -> Seq<char> {
    if s.len() < width {
        repeated(' ', (width - s.len()) as nat) + s
    } else {
        s
    }
}

/// `s` with blanks in front of it up to `width` characters.
pub fn padded_left(s: &str, width: usize) -> (r: String)
    ensures
        r@ == pad_left(s@, width as nat),
{
    let length = chars_of(s).len();
    let mut out = String::new();
    let mut i: usize = length;
    while i < width
        invariant
            length == s@.len(),
            length <= i,
            i <= width || i == length,
            out@ == repeated(' ', (i - length) as nat),
        decreases width - i,
    {
        out.push(' ');
        i += 1;
        assert(out@ =~= repeated(' ', (i - length) as nat));
    }
    out.append(s);
    assert(out@ =~= pad_left(s@, width as nat));
    out
}

/// The letters and digits are the characters from `0` to `9`, from `A` to `Z` and
/// from `a` to `z`; white space, control characters and letters never overlap.
pub proof fn law_characters_have_one_class(c: char)
    ensures
        is_alphanumeric(c) <==> (48 <= c as int <= 57 || 65 <= c as int <= 90 || 97 <= c as int
            <= 122),
        is_letter(c) <==> (65 <= c as int <= 90 || 97 <= c as int <= 122),
        is_control(c) <==> (c as int <= 31 || 127 <= c as int <= 159),
        is_alphanumeric(c) ==> !is_whitespace(c) && !is_control(c),
        9 <= c as int <= 13 || c == ' ' ==> is_whitespace(c),
        is_whitespace(c) && c as int <= 127 ==> 9 <= c as int <= 13 || c == ' ',
        is_whitespace(c) && c as int > 127 <==> c as int == 0x85 || c as int == 0xa0 || c as int
            == 0x1680 || 0x2000 <= c as int <= 0x200a || c as int == 0x2028 || c as int == 0x2029
            || c as int == 0x202f || c as int == 0x205f || c as int == 0x3000,
{
}

/// The head of a text is the text itself if that is short enough, and otherwise
/// as many of its characters as asked for, from the first on.
pub proof fn law_heads_begin_the_text(s: Seq<char>, n: nat, i: int)
    ensures
        head(s, n).len() == if s.len() < n {
            s.len()
        } else {
            n
        },
        0 <= i < head(s, n).len() ==> head(s, n)[i] == s[i],
        s.len() <= n ==> head(s, n) == s,
{
}

/// A text that is trimmed neither begins nor ends with white space, stands in
/// the middle of the text, and has nothing but white space around it.
pub proof fn law_trimmed_texts_are_bare(s: Seq<char>)
    ensures
        trim(s).len() > 0 ==> !is_whitespace(trim(s).first()) && !is_whitespace(trim(s).last()),
        exists|a: int, b: int|
            0 <= a <= b <= s.len() && trim(s) == #[trigger] s.subrange(a, b) && (forall|i: int|
                0 <= i < a || b <= i < s.len() ==> is_whitespace(#[trigger] s[i])),
{
    lemma_trim_start_is_a_suffix(s);
    let t = trim_start(s);
    lemma_trim_end_is_a_prefix(t);
    let a = s.len() - t.len();
    let b = a + trim(s).len();
    assert(trim(s) =~= s.subrange(a, b));
    assert forall|i: int| 0 <= i < a || b <= i < s.len() implies is_whitespace(#[trigger] s[i]) by {
        if i >= b {
            assert(s[i] == t[i - a]);
        }
    }
    if trim(s).len() > 0 {
        assert(trim(s).first() == t.first());
    }
}

/// What is left at the end of a text once the white space in front is gone.
proof fn lemma_trim_start_is_a_suffix(s: Seq<char>)
    ensures
        trim_start(s).len() <= s.len(),
        trim_start(s) == s.skip(s.len() - trim_start(s).len()),
        forall|i: int|
            0 <= i < s.len() - trim_start(s).len() ==> is_whitespace(#[trigger] s[i]),
        trim_start(s).len() > 0 ==> !is_whitespace(trim_start(s).first()),
    decreases s.len(),
{
    if s.len() > 0 && is_whitespace(s.first()) {
        let rest = s.drop_first();
        lemma_trim_start_is_a_suffix(rest);
        let t = trim_start(s);
        assert(t =~= s.skip(s.len() - t.len()));
        assert forall|i: int| 0 <= i < s.len() - t.len() implies is_whitespace(#[trigger] s[i]) by {
            if i > 0 {
                assert(s[i] == rest[i - 1]);
            }
        }
    } else {
        assert(s.skip(0) =~= s);
    }
}

/// What is left at the beginning of a text once the white space behind it is
/// gone.
proof fn lemma_trim_end_is_a_prefix(s: Seq<char>)
    ensures
        trim_end(s).len() <= s.len(),
        trim_end(s) == s.take(trim_end(s).len() as int),
        forall|i: int| trim_end(s).len() <= i < s.len() ==> is_whitespace(#[trigger] s[i]),
        trim_end(s).len() > 0 ==> !is_whitespace(trim_end(s).last()),
    decreases s.len(),
{
    if s.len() > 0 && is_whitespace(s.last()) {
        let front = s.drop_last();
        lemma_trim_end_is_a_prefix(front);
        let t = trim_end(s);
        assert(t =~= s.take(t.len() as int));
        assert forall|i: int| t.len() <= i < s.len() implies is_whitespace(#[trigger] s[i]) by {
            if i < front.len() {
                assert(s[i] == front[i]);
            }
        }
    } else {
        assert(s.take(s.len() as int) =~= s);
    }
}

/// A text is blank exactly if every character in it is white space.
pub proof fn law_blank_texts_hold_white_space(s: Seq<char>)
    ensures
        is_blank(s) <==> forall|i: int| 0 <= i < s.len() ==> is_whitespace(#[trigger] s[i]),
{
    law_trimmed_texts_are_bare(s);
    let (a, b) = choose|a: int, b: int|
        0 <= a <= b <= s.len() && trim(s) == #[trigger] s.subrange(a, b) && (forall|i: int|
            0 <= i < a || b <= i < s.len() ==> is_whitespace(#[trigger] s[i]));
    if !is_blank(s) {
        assert(trim(s).first() == s[a]);
    }
}

/// A text begins with a prefix exactly if it is the prefix and the rest, and ends
/// with a suffix exactly if it is the rest and the suffix.
pub proof fn law_ends_come_off(s: Seq<char>, end: Seq<char>, rest: Seq<char>)
    ensures
        strip_prefix(s, end) == Some(rest) <==> s == end + rest,
        strip_suffix(s, end) == Some(rest) <==> s == rest + end,
        starts_with(end + rest, end),
        ends_with(rest + end, end),
{
    if strip_prefix(s, end) == Some(rest) {
        assert(s =~= end + rest);
    }
    if strip_suffix(s, end) == Some(rest) {
        assert(s =~= rest + end);
    }
    assert((end + rest).take(end.len() as int) =~= end);
    assert((end + rest).skip(end.len() as int) =~= rest);
    assert((rest + end).skip(rest.len() as int) =~= end);
    assert((rest + end).take(rest.len() as int) =~= rest);
}

/// A text that is split at a pattern is what stands before it, the pattern and
/// what stands behind it, and the pattern does not stand earlier. A text that
/// cannot be split holds no such pattern.
pub proof fn law_texts_are_split_at_the_first_match(s: Seq<char>, pattern: Seq<char>, i: int)
    ensures
        match split_once(s, pattern) {
            Some((before, after)) => s == before + pattern + after && (0 <= i < before.len()
                ==> !occurs_at(s, pattern, i)),
            None => !occurs_at(s, pattern, i),
        },
        contains(s, pattern) <==> split_once(s, pattern) is Some,
        0 <= i && i + pattern.len() <= s.len() && (forall|k: int|
            0 <= k < pattern.len() ==> s[i + k] == #[trigger] pattern[k]) ==> contains(s, pattern),
{
    lemma_find_from(s, pattern, 0);
    if let Some((before, after)) = split_once(s, pattern) {
        let k = find(s, pattern)->0;
        assert(s =~= before + s.subrange(k, k + pattern.len()) + after);
    }
    if 0 <= i && i + pattern.len() <= s.len() && (forall|k: int|
        0 <= k < pattern.len() ==> s[i + k] == #[trigger] pattern[k]) {
        assert(s.subrange(i, i + pattern.len()) =~= pattern);
        assert(occurs_at(s, pattern, i));
    }
}

/// The number that is written in decimal digits.
pub open spec fn number_of(digits: Seq<char>) -> int
    decreases digits.len(),
{
    if digits.len() == 0 {
        0
    } else {
        number_of(digits.drop_last()) * 10 + (digits.last() as int - 48)
    }
}

/// A number that is written in decimal reads as that number, and has no zero in
/// front unless it is zero.
pub proof fn law_numbers_read_as_they_are_written(n: nat)
    ensures
        number_of(decimal(n)) == n,
        n > 0 ==> decimal(n)[0] != '0',
        n == 0 ==> decimal(n).len() == 1,
    decreases n,
{
    let s = decimal(n);
    if n < 10 {
        assert(s.drop_last() =~= Seq::<char>::empty());
        assert(number_of(s.drop_last()) == 0);
    } else {
        law_numbers_read_as_they_are_written(n / 10);
        assert(s.drop_last() =~= decimal(n / 10));
        lemma_decimal_digits(n / 10);
    }
}

/// Replacing goes through a text character by character: every `c` becomes `by`,
/// and every other character stays.
pub proof fn law_every_match_is_replaced(a: Seq<char>, b: Seq<char>, x: char, c: char, by: Seq<char>)
    ensures
        replace(a + b, c, by) == replace(a, c, by) + replace(b, c, by),
        replace(seq![c], c, by) == by,
        x != c ==> replace(seq![x], c, by) == seq![x],
        replace(Seq::<char>::empty(), c, by) == Seq::<char>::empty(),
    decreases b.len(),
{
    if b.len() == 0 {
        assert(a + b =~= a);
        assert(replace(a, c, by) + replace(b, c, by) =~= replace(a, c, by));
    } else {
        law_every_match_is_replaced(a, b.drop_last(), x, c, by);
        assert((a + b).drop_last() =~= a + b.drop_last());
        assert((a + b).last() == b.last());
        assert(replace(a + b, c, by) =~= replace(a, c, by) + replace(b, c, by));
    }
    assert(seq![c].drop_last() =~= Seq::<char>::empty());
    assert(seq![x].drop_last() =~= Seq::<char>::empty());
    assert(replace(Seq::<char>::empty(), c, by) =~= Seq::<char>::empty());
    assert(replace(seq![c], c, by) =~= by);
    if x != c {
        assert(replace(seq![x], c, by) =~= seq![x]);
    }
}

/// A padded text ends with the text, is as wide as asked for unless the text is
/// wider, and has nothing but blanks in front.
pub proof fn law_padded_texts_are_wide(s: Seq<char>, width: nat, i: int)
    ensures
        ends_with(pad_left(s, width), s),
        s.len() <= width ==> pad_left(s, width).len() == width,
        s.len() >= width ==> pad_left(s, width) == s,
        0 <= i < pad_left(s, width).len() - s.len() ==> pad_left(s, width)[i] == ' ',
{
    let p = pad_left(s, width);
    assert(p.skip(p.len() - s.len()) =~= s);
}

} // verus!

//! Text as sequences of characters: trimming, splitting, numbers and joining.

use vstd::prelude::*;
use vstd::slice::slice_subrange;
use vstd::string::StringExecFns;

verus! {

/// `String::push` appends one character to the end of the string.
pub assume_specification[ String::push ](s: &mut String, c: char)
    ensures
        final(s)@ == old(s)@.push(c),
;

/// What Unicode-aware lower-casing makes of a text.
pub uninterp spec fn lowercased(text: Seq<char>) -> Seq<char>;

/// Calls `str::to_lowercase`, whose result depends on the text alone.
#[verifier::external_body]
pub(crate) fn lowercase(text: &str) -> (result: String)
    ensures
        result@ == lowercased(text@),
{
    text.to_lowercase()
}

/// The characters with the Unicode property White_Space.
pub open spec fn is_white_space(c: char) -> bool {
    ||| '\u{9}' <= c <= '\u{d}'
    ||| c == ' '
    ||| c == '\u{85}'
    ||| c == '\u{a0}'
    ||| c == '\u{1680}'
    ||| '\u{2000}' <= c <= '\u{200a}'
    ||| c == '\u{2028}'
    ||| c == '\u{2029}'
    ||| c == '\u{202f}'
    ||| c == '\u{205f}'
    ||| c == '\u{3000}'
}

/// The text without the white space at its front.
pub open spec fn trimmed_start(s: Seq<char>) -> Seq<char>
    decreases s.len(),
{
    if s.len() > 0 && is_white_space(s[0]) {
        trimmed_start(s.drop_first())
    } else {
        s
    }
}

/// The text without the white space at its end.
pub open spec fn trimmed_end(s: Seq<char>) -> Seq<char>
    decreases s.len(),
{
    if s.len() > 0 && is_white_space(s.last()) {
        trimmed_end(s.drop_last())
    } else {
        s
    }
}

/// The text without the white space at its two ends.
pub open spec fn trimmed(s: Seq<char>) -> Seq<char> {
    trimmed_end(trimmed_start(s))
}

/// The index of the first `c` in `s`, or the length of `s` where there is none.
pub open spec fn position(s: Seq<char>, c: char) -> int
    decreases s.len(),
{
    if s.len() == 0 || s[0] == c {
        0
    } else {
        1 + position(s.drop_first(), c)
    }
}

/// The pieces of `s` between the occurrences of `c`; there is always at least one.
pub open spec fn split(s: Seq<char>, c: char) -> Seq<Seq<char>>
    decreases s.len(),
{
    let p = position(s, c);
    if 0 <= p < s.len() {
        seq![s.take(p)] + split(s.skip(p + 1), c)
    } else {
        seq![s]
    }
}

/// A line without the carriage return that ends it.
pub open spec fn without_return(line: Seq<char>) -> Seq<char> {
    if line.len() > 0 && line.last() == '\r' {
        line.drop_last()
    } else {
        line
    }
}

/// The lines of `s`. A line feed ends a line, together with a carriage return right
/// before it; an unended last line counts unless it is empty.
pub open spec fn lines(s: Seq<char>) -> Seq<Seq<char>>
    decreases s.len(),
{
    let p = position(s, '\n');
    if s.len() == 0 {
        Seq::empty()
    } else if 0 <= p < s.len() {
        seq![without_return(s.take(p))] + lines(s.skip(p + 1))
    } else {
        seq![s]
    }
}

/// Whether `part` occurs in `s` at index `i`.
pub open spec fn occurs_at(s: Seq<char>, part: Seq<char>, i: int) -> bool {
    0 <= i <= s.len() - part.len() && s.subrange(i, i + part.len()) == part
}

/// Whether `part` occurs somewhere in `s`.
pub open spec fn contains_text(s: Seq<char>, part: Seq<char>) -> bool {
    exists|i: int| occurs_at(s, part, i)
}

/// The value of a digit in a radix of at most sixteen.
pub open spec fn digit_value(c: char) -> int {
    if '0' <= c <= '9' {
        c as int - '0' as int
    } else if 'a' <= c <= 'f' {
        c as int - 'a' as int + 10
    } else if 'A' <= c <= 'F' {
        c as int - 'A' as int + 10
    } else {
        16
    }
}

/// Whether every character of `s` is a digit of the radix.
pub open spec fn all_digits(s: Seq<char>, radix: int) -> bool {
    forall|i: int| 0 <= i < s.len() ==> digit_value(#[trigger] s[i]) < radix
}

/// The number that the digits `s` write, most significant digit first.
pub open spec fn digits_value(s: Seq<char>, radix: int) -> int
    decreases s.len(),
{
    if s.len() == 0 {
        0
    } else {
        digits_value(s.drop_last(), radix) * radix + digit_value(s.last())
    }
}

/// A number without the plus sign that may stand before its digits.
pub open spec fn unsigned_digits(s: Seq<char>) -> Seq<char> {
    if s.len() > 0 && s[0] == '+' {
        s.drop_first()
    } else {
        s
    }
}

/// The number up to `max` that `s` writes: digits, with at most one plus sign before them.
pub open spec fn parsed_number(s: Seq<char>, radix: int, max: int) -> Option<int> {
    let digits = unsigned_digits(s);
    if digits.len() > 0 && all_digits(digits, radix) && digits_value(digits, radix) <= max {
        Some(digits_value(digits, radix))
    } else {
        None
    }
}

/// The digit that stands for `d` in radix sixteen, in lower case.
pub open spec fn digit_char(d: int) -> char {
    if d < 10 {
        ('0' as int + d) as char
    } else {
        ('a' as int + d - 10) as char
    }
}

/// A number in decimal, without leading zeros.
pub open spec fn decimal(n: nat) -> Seq<char>
    decreases n,
{
    if n < 10 {
        seq![digit_char(n as int)]
    } else {
        decimal(n / 10).push(digit_char((n % 10) as int))
    }
}

/// The parts one after another, with `separator` between each two.
pub open spec fn joined(parts: Seq<Seq<char>>, separator: Seq<char>) -> Seq<char>
    decreases parts.len(),
{
    if parts.len() == 0 {
        Seq::empty()
    } else if parts.len() == 1 {
        parts[0]
    } else {
        joined(parts.drop_last(), separator) + separator + parts.last()
    }
}

/// Whether `a` comes before `b` in the order of their first differing character, where a
/// text comes before its continuations.
pub open spec fn text_before(a: Seq<char>, b: Seq<char>) -> bool
    decreases a.len(),
{
    if b.len() == 0 {
        false
    } else if a.len() == 0 {
        true
    } else if a[0] != b[0] {
        a[0] < b[0]
    } else {
        text_before(a.drop_first(), b.drop_first())
    }
}

// ---------------------------------------------------------------------------------------
// Facts about the definitions.

/// A position lies in the text or at its end, the character is there, and nowhere before.
pub proof fn lemma_position(s: Seq<char>, c: char)
    ensures
        0 <= position(s, c) <= s.len(),
        position(s, c) < s.len() ==> s[position(s, c)] == c,
        forall|i: int| 0 <= i < position(s, c) ==> #[trigger] s[i] != c,
    decreases s.len(),
{
    if s.len() > 0 && s[0] != c {
        let rest = s.drop_first();
        lemma_position(rest, c);
        assert forall|i: int| 0 <= i < position(s, c) implies #[trigger] s[i] != c by {
            if i > 0 {
                assert(s[i] == rest[i - 1]);
            }
        }
    }
}

/// Only one index is the first at which the character stands.
pub proof fn lemma_position_unique(s: Seq<char>, c: char, p: int)
    requires
        0 <= p <= s.len(),
        p < s.len() ==> s[p] == c,
        forall|i: int| 0 <= i < p ==> #[trigger] s[i] != c,
    ensures
        position(s, c) == p,
{
    lemma_position(s, c);
    let q = position(s, c);
    if q < p {
        assert(s[q] != c);
    }
    if p < q {
        assert(s[p] != c);
    }
}

/// Of two texts one comes before the other, unless they are the same.
pub proof fn lemma_text_order_total(a: Seq<char>, b: Seq<char>)
    ensures
        text_before(a, b) ==> !text_before(b, a) && a != b,
        !text_before(a, b) && !text_before(b, a) ==> a == b,
    decreases a.len(),
{
    if a.len() > 0 && b.len() > 0 && a[0] == b[0] {
        lemma_text_order_total(a.drop_first(), b.drop_first());
        assert(a =~= seq![a[0]] + a.drop_first());
        assert(b =~= seq![b[0]] + b.drop_first());
    } else if a.len() == 0 && b.len() == 0 {
        assert(a =~= b);
    }
}

/// What comes before a text comes before whatever that text comes before.
pub proof fn lemma_text_order_transitive(a: Seq<char>, b: Seq<char>, c: Seq<char>)
    requires
        text_before(a, b),
        text_before(b, c),
    ensures
        text_before(a, c),
    decreases a.len(),
{
    if a.len() > 0 && a[0] == b[0] && b[0] == c[0] {
        lemma_text_order_transitive(a.drop_first(), b.drop_first(), c.drop_first());
    }
}

/// Trimming only takes characters away at the ends.
pub proof fn lemma_trimmed_start(s: Seq<char>, n: int)
    requires
        0 <= n <= s.len(),
        forall|i: int| 0 <= i < n ==> is_white_space(#[trigger] s[i]),
        n < s.len() ==> !is_white_space(s[n]),
    ensures
        trimmed_start(s) == s.skip(n),
    decreases n,
{
    if n > 0 {
        assert(is_white_space(s[0]));
        let rest = s.drop_first();
        assert forall|i: int| 0 <= i < n - 1 implies is_white_space(#[trigger] rest[i]) by {
            assert(rest[i] == s[i + 1]);
        }
        lemma_trimmed_start(rest, n - 1);
        assert(rest.skip(n - 1) =~= s.skip(n));
    } else {
        assert(s.skip(0) =~= s);
    }
}

/// The mirror image of `lemma_trimmed_start`.
pub proof fn lemma_trimmed_end(s: Seq<char>, n: int)
    requires
        0 <= n <= s.len(),
        forall|i: int| n <= i < s.len() ==> is_white_space(#[trigger] s[i]),
        n > 0 ==> !is_white_space(s[n - 1]),
    ensures
        trimmed_end(s) == s.take(n),
    decreases s.len() - n,
{
    if n < s.len() {
        let rest = s.drop_last();
        lemma_trimmed_end(rest, n);
        assert(rest.take(n) =~= s.take(n));
    } else {
        assert(s.take(n) =~= s);
    }
}

/// A text that neither begins nor ends with white space is not changed by trimming.
pub proof fn lemma_already_trimmed(s: Seq<char>)
    requires
        s.len() > 0,
        !is_white_space(s[0]),
        !is_white_space(s.last()),
    ensures
        trimmed(s) == s,
{
    lemma_trimmed_start(s, 0);
    assert(s.skip(0) =~= s);
    lemma_trimmed_end(s, s.len() as int);
    assert(s.take(s.len() as int) =~= s);
}

/// A text with a character that is not white space is not blank.
pub proof fn lemma_not_blank(s: Seq<char>, i: int)
    requires
        0 <= i < s.len(),
        !is_white_space(s[i]),
    ensures
        trimmed(s).len() > 0,
    decreases s.len(),
{
    if is_white_space(s[0]) {
        lemma_not_blank(s.drop_first(), i - 1);
    } else {
        assert(trimmed_start(s) == s);
        lemma_end_keeps_first(s);
    }
}

proof fn lemma_end_keeps_first(s: Seq<char>)
    requires
        s.len() > 0,
        !is_white_space(s[0]),
    ensures
        trimmed_end(s).len() > 0,
    decreases s.len(),
{
    if is_white_space(s.last()) {
        assert(s.len() > 1);
        lemma_end_keeps_first(s.drop_last());
    }
}

/// How often `c` occurs in `s`.
pub open spec fn occurrences(s: Seq<char>, c: char) -> nat
    decreases s.len(),
{
    if s.len() == 0 {
        0
    } else {
        (if s[0] == c { 1nat } else { 0nat }) + occurrences(s.drop_first(), c)
    }
}

/// Occurrences in two texts add up.
pub proof fn lemma_occurrences_concat(a: Seq<char>, b: Seq<char>, c: char)
    ensures
        occurrences(a + b, c) == occurrences(a, c) + occurrences(b, c),
    decreases a.len(),
{
    if a.len() == 0 {
        assert(a + b =~= b);
    } else {
        assert((a + b).drop_first() =~= a.drop_first() + b);
        lemma_occurrences_concat(a.drop_first(), b, c);
    }
}

/// A text in which `c` stands nowhere has no occurrence of it.
pub proof fn lemma_no_occurrences(s: Seq<char>, c: char)
    requires
        forall|i: int| 0 <= i < s.len() ==> #[trigger] s[i] != c,
    ensures
        occurrences(s, c) == 0,
    decreases s.len(),
{
    if s.len() > 0 {
        assert(s[0] != c);
        assert forall|i: int| 0 <= i < s.drop_first().len() implies #[trigger] s.drop_first()[i]
            != c by {
            assert(s.drop_first()[i] == s[i + 1]);
        }
        lemma_no_occurrences(s.drop_first(), c);
    }
}

/// A text falls into one piece more than it has separators.
pub proof fn lemma_split_len(s: Seq<char>, c: char)
    ensures
        split(s, c).len() == 1 + occurrences(s, c),
    decreases s.len(),
{
    lemma_position(s, c);
    let p = position(s, c);
    lemma_no_occurrences(s.take(p), c);
    if p < s.len() {
        let rest = s.skip(p + 1);
        lemma_split_len(rest, c);
        assert(s =~= s.take(p) + (seq![c] + rest));
        lemma_occurrences_concat(s.take(p), seq![c] + rest, c);
        assert((seq![c] + rest).drop_first() =~= rest);
    } else {
        assert(s.take(p) =~= s);
    }
}

/// A text without separators is one piece.
pub proof fn lemma_unsplit(s: Seq<char>, c: char)
    requires
        forall|i: int| 0 <= i < s.len() ==> #[trigger] s[i] != c,
    ensures
        split(s, c) == seq![s],
{
    lemma_position_unique(s, c, s.len() as int);
}

/// Two texts with a separator between them fall into the pieces of the one and the other.
pub proof fn lemma_split_concat(a: Seq<char>, b: Seq<char>, c: char)
    ensures
        split(a + seq![c] + b, c) == split(a, c) + split(b, c),
    decreases a.len(),
{
    let whole = a + seq![c] + b;
    lemma_position(a, c);
    let p = position(a, c);
    assert forall|i: int| 0 <= i < p implies #[trigger] whole[i] != c by {
        assert(whole[i] == a[i]);
    }
    lemma_position_unique(whole, c, p);
    if p < a.len() {
        let rest = a.skip(p + 1);
        lemma_split_concat(rest, b, c);
        assert(whole.take(p) =~= a.take(p));
        assert(whole.skip(p + 1) =~= rest + seq![c] + b);
        assert(split(whole, c) =~= split(a, c) + split(b, c));
    } else {
        assert(whole.take(p) =~= a);
        assert(whole.skip(p + 1) =~= b);
    }
}

/// A join of texts begins as the first of them and ends as the last.
pub proof fn lemma_joined_ends(parts: Seq<Seq<char>>, separator: Seq<char>)
    requires
        parts.len() > 0,
        parts[0].len() > 0,
        parts.last().len() > 0,
    ensures
        joined(parts, separator).len() > 0,
        joined(parts, separator)[0] == parts[0][0],
        joined(parts, separator).last() == parts.last().last(),
    decreases parts.len(),
{
    if parts.len() > 1 {
        lemma_joined_begins(parts, separator);
    }
}

proof fn lemma_joined_begins(parts: Seq<Seq<char>>, separator: Seq<char>)
    requires
        parts.len() > 0,
        parts[0].len() > 0,
    ensures
        joined(parts, separator).len() > 0,
        joined(parts, separator)[0] == parts[0][0],
    decreases parts.len(),
{
    if parts.len() > 1 {
        lemma_joined_begins(parts.drop_last(), separator);
    }
}

/// A decimal number consists of decimal digits, and there is at least one.
pub proof fn lemma_decimal_digits(n: nat)
    ensures
        decimal(n).len() >= 1,
        forall|i: int| 0 <= i < decimal(n).len() ==> '0' <= #[trigger] decimal(n)[i] <= '9',
    decreases n,
{
    if n >= 10 {
        lemma_decimal_digits(n / 10);
    }
}

/// Reading a decimal number gives back the number that was written.
pub proof fn law_decimal_reads_back(n: nat)
    ensures
        forall|max: int| n <= max ==> #[trigger] parsed_number(decimal(n), 10, max) == Some(n as int),
    decreases n,
{
    lemma_decimal_digits(n);
    lemma_decimal_value(n);
    assert(unsigned_digits(decimal(n)) == decimal(n)) by {
        assert('0' <= decimal(n)[0] <= '9');
    }
    assert forall|i: int| 0 <= i < decimal(n).len() implies digit_value(#[trigger] decimal(n)[i])
        < 10 by {
        assert('0' <= decimal(n)[i] <= '9');
    }
}

proof fn lemma_decimal_value(n: nat)
    ensures
        digits_value(decimal(n), 10) == n,
    decreases n,
{
    if n < 10 {
        assert(decimal(n).drop_last() =~= Seq::empty());
        assert(digits_value(decimal(n).drop_last(), 10) == 0);
    } else {
        lemma_decimal_value(n / 10);
        assert(decimal(n).drop_last() =~= decimal(n / 10));
    }
}

/// A character that occurs in none of the parts occurs in their join as often as the
/// separators bring it in.
pub proof fn lemma_joined_occurrences(parts: Seq<Seq<char>>, separator: Seq<char>, c: char)
    requires
        parts.len() > 0,
        forall|i: int| 0 <= i < parts.len() ==> occurrences(#[trigger] parts[i], c) == 0,
    ensures
        occurrences(joined(parts, separator), c) == (parts.len() - 1) * occurrences(separator, c),
    decreases parts.len(),
{
    if parts.len() > 1 {
        let shorter = parts.drop_last();
        assert forall|i: int| 0 <= i < shorter.len() implies occurrences(#[trigger] shorter[i], c)
            == 0 by {
            assert(shorter[i] == parts[i]);
        }
        lemma_joined_occurrences(shorter, separator, c);
        lemma_occurrences_concat(joined(shorter, separator) + separator, parts.last(), c);
        lemma_occurrences_concat(joined(shorter, separator), separator, c);
        assert(occurrences(parts[parts.len() - 1], c) == 0);
        let n = occurrences(separator, c) as int;
        let k = parts.len() as int;
        assert((k - 2) * n + n == (k - 1) * n) by (nonlinear_arith);
    } else {
        assert(occurrences(parts[0], c) == 0);
        assert(0 * occurrences(separator, c) == 0);
    }
}

// ---------------------------------------------------------------------------------------
// Functions.

/// Whether a character is white space.
pub fn white_space(c: char) -> (result: bool)
    ensures
        result == is_white_space(c),
{
    ('\u{9}' <= c && c <= '\u{d}') || c == ' ' || c == '\u{85}' || c == '\u{a0}' || c == '\u{1680}'
        || ('\u{2000}' <= c && c <= '\u{200a}') || c == '\u{2028}' || c == '\u{2029}' || c
        == '\u{202f}' || c == '\u{205f}' || c == '\u{3000}'
}

/// The characters of a string.
pub fn to_chars(s: &str) -> (result: Vec<char>)
    ensures
        result@ == s@,
{
    let mut result: Vec<char> = Vec::new();
    for c in it: s.chars()
        invariant
            it.seq() == s@,
            result@ == s@.take(it.index() as int),
    {
        result.push(c);
        assert(s@.take(it.index() + 1) =~= s@.take(it.index() as int).push(c));
    }
    assert(s@.take(s@.len() as int) =~= s@);
    result
}

/// The string of the given characters.
pub fn to_text(s: &[char]) -> (result: String)
    ensures
        result@ == s@,
{
    let mut result = String::new();
    let mut i: usize = 0;
    while i < s.len()
        invariant
            0 <= i <= s.len(),
            result@ == s@.take(i as int),
        decreases s.len() - i,
    {
        result.push(s[i]);
        assert(s@.take(i + 1) =~= s@.take(i as int).push(s@[i as int]));
        i += 1;
    }
    assert(s@.take(s@.len() as int) =~= s@);
    result
}

/// Two texts, one after the other.
pub fn concat2(a: &str, b: &str) -> (result: String)
    ensures
        result@ == a@ + b@,
{
    let mut result = String::new();
    result.append(a);
    result.append(b);
    assert(result@ =~= a@ + b@);
    result
}

/// Three texts, one after the other.
pub fn concat3(a: &str, b: &str, c: &str) -> (result: String)
    ensures
        result@ == a@ + b@ + c@,
{
    let mut result = concat2(a, b);
    result.append(c);
    result
}

/// The text without the white space at its two ends.
pub fn trim<'a>(s: &'a [char]) -> (result: &'a [char])
    ensures
        result@ == trimmed(s@),
{
    let mut start: usize = 0;
    while start < s.len() && white_space(s[start])
        invariant
            0 <= start <= s.len(),
            forall|i: int| 0 <= i < start ==> is_white_space(#[trigger] s@[i]),
        decreases s.len() - start,
    {
        start += 1;
    }
    proof {
        lemma_trimmed_start(s@, start as int);
    }
    let ghost middle = s@.skip(start as int);
    let mut end: usize = s.len();
    while end > start && white_space(s[end - 1])
        invariant
            start <= end <= s.len(),
            middle == s@.skip(start as int),
            forall|i: int| end - start <= i < middle.len() ==> is_white_space(#[trigger] middle[i]),
        decreases end,
    {
        end -= 1;
        assert(middle[end - start] == s@[end as int]);
    }
    proof {
        lemma_trimmed_end(middle, end - start);
        assert(middle.take(end - start) =~= s@.subrange(start as int, end as int));
    }
    slice_subrange(s, start, end)
}

/// The index of the first `c`, or the length of the text where there is none.
pub fn find(s: &[char], c: char) -> (result: usize)
    ensures
        result == position(s@, c),
        result <= s@.len(),
{
    let mut i: usize = 0;
    while i < s.len() && s[i] != c
        invariant
            0 <= i <= s.len(),
            forall|j: int| 0 <= j < i ==> #[trigger] s@[j] != c,
        decreases s.len() - i,
    {
        i += 1;
    }
    proof {
        lemma_position_unique(s@, c, i as int);
    }
    i
}

/// The pieces between the occurrences of `c`.
pub fn split_at_each<'a>(s: &'a [char], c: char) -> (result: Vec<&'a [char]>)
    ensures
        result@.map_values(|piece: &[char]| piece@) == split(s@, c),
{
    let mut result: Vec<&'a [char]> = Vec::new();
    let mut rest: &'a [char] = s;
    let ghost text_of = |piece: &[char]| piece@;
    assert(result@.map_values(text_of) =~= Seq::empty());
    assert(Seq::empty() + split(s@, c) =~= split(s@, c));
    loop
        invariant
            text_of == (|piece: &[char]| piece@),
            split(s@, c) == result@.map_values(text_of) + split(rest@, c),
        decreases rest@.len(),
    {
        let p: usize = find(rest, c);
        if p < rest.len() {
            let piece: &'a [char] = slice_subrange(rest, 0, p);
            let ghost before = result@.map_values(text_of);
            result.push(piece);
            let next: &'a [char] = slice_subrange(rest, p + 1, rest.len());
            proof {
                assert(piece@ =~= rest@.take(p as int));
                assert(next@ =~= rest@.skip(p + 1));
                assert(result@.map_values(text_of) =~= before.push(piece@));
                assert(before + (seq![piece@] + split(next@, c)) =~= before.push(piece@) + split(
                    next@,
                    c,
                ));
            }
            rest = next;
        } else {
            let ghost before = result@.map_values(text_of);
            result.push(rest);
            proof {
                assert(result@.map_values(text_of) =~= before + seq![rest@]);
            }
            return result;
        }
    }
}

/// The lines of a text.
pub fn split_lines<'a>(s: &'a [char]) -> (result: Vec<&'a [char]>)
    ensures
        result@.map_values(|line: &[char]| line@) == lines(s@),
{
    let mut result: Vec<&'a [char]> = Vec::new();
    let mut rest: &'a [char] = s;
    let ghost text_of = |line: &[char]| line@;
    assert(result@.map_values(text_of) =~= Seq::empty());
    assert(Seq::empty() + lines(s@) =~= lines(s@));
    while rest.len() > 0
        invariant
            text_of == (|line: &[char]| line@),
            lines(s@) == result@.map_values(text_of) + lines(rest@),
        decreases rest@.len(),
    {
        let p: usize = find(rest, '\n');
        let ghost before = result@.map_values(text_of);
        if p < rest.len() {
            let end: usize = if p > 0 && rest[p - 1] == '\r' { p - 1 } else { p };
            let line: &'a [char] = slice_subrange(rest, 0, end);
            result.push(line);
            let next: &'a [char] = slice_subrange(rest, p + 1, rest.len());
            proof {
                assert(line@ =~= without_return(rest@.take(p as int)));
                assert(next@ =~= rest@.skip(p + 1));
                assert(result@.map_values(text_of) =~= before.push(line@));
                assert(before + (seq![line@] + lines(next@)) =~= before.push(line@) + lines(next@));
            }
            rest = next;
        } else {
            result.push(rest);
            let next: &'a [char] = slice_subrange(rest, rest.len(), rest.len());
            proof {
                assert(result@.map_values(text_of) =~= before + seq![rest@]);
                assert(lines(next@) =~= Seq::<Seq<char>>::empty());
                assert(lines(rest@) == seq![rest@]);
                assert(result@.map_values(text_of) + lines(next@) =~= before + lines(rest@));
            }
            rest = next;
        }
    }
    assert(lines(rest@) =~= Seq::<Seq<char>>::empty());
    assert(result@.map_values(text_of) + lines(rest@) =~= result@.map_values(text_of));
    result
}

/// Whether two texts are the same.
pub fn same_text(a: &[char], b: &[char]) -> (result: bool)
    ensures
        result == (a@ == b@),
{
    if a.len() != b.len() {
        return false;
    }
    let mut i: usize = 0;
    while i < a.len()
        invariant
            0 <= i <= a.len(),
            a@.len() == b@.len(),
            forall|j: int| 0 <= j < i ==> a@[j] == b@[j],
        decreases a.len() - i,
    {
        if a[i] != b[i] {
            return false;
        }
        i += 1;
    }
    assert(a@ =~= b@);
    true
}

/// Whether two strings are the same text.
pub fn equal_text(a: &str, b: &str) -> (result: bool)
    ensures
        result == (a@ == b@),
{
    let first = to_chars(a);
    let second = to_chars(b);
    same_text(first.as_slice(), second.as_slice())
}

/// Whether `part` occurs somewhere in `s`.
pub fn contains(s: &[char], part: &[char]) -> (result: bool)
    ensures
        result == contains_text(s@, part@),
{
    let length: usize = s.len();
    if part.len() > length {
        return false;
    }
    let last: usize = length - part.len();
    let mut i: usize = 0;
    while i < last
        invariant
            0 <= i <= last,
            length == s@.len(),
            last == length - part@.len(),
            forall|j: int| 0 <= j < i ==> !occurs_at(s@, part@, j),
        decreases last - i,
    {
        if same_text(slice_subrange(s, i, i + part.len()), part) {
            assert(occurs_at(s@, part@, i as int));
            return true;
        }
        i += 1;
    }
    let result = same_text(slice_subrange(s, last, length), part);
    assert(result == occurs_at(s@, part@, last as int));
    result
}

/// The value of a digit, or sixteen for any other character.
pub fn digit(c: char) -> (result: u64)
    ensures
        result == digit_value(c),
        result <= 16,
{
    if '0' <= c && c <= '9' {
        c as u64 - 48
    } else if 'a' <= c && c <= 'f' {
        c as u64 - 97 + 10
    } else if 'A' <= c && c <= 'F' {
        c as u64 - 65 + 10
    } else {
        16
    }
}

/// Digits after the first ones make a number no smaller.
pub proof fn lemma_digits_value_grows(s: Seq<char>, n: int, radix: int)
    requires
        0 <= n <= s.len(),
        radix >= 1,
    ensures
        0 <= digits_value(s.take(n), radix) <= digits_value(s, radix),
    decreases s.len(),
{
    if s.len() == 0 {
        assert(s.take(n) =~= s);
    } else {
        let shorter = s.drop_last();
        lemma_digits_value_grows(shorter, shorter.len() as int, radix);
        assert(shorter.take(shorter.len() as int) =~= shorter);
        assert(digits_value(shorter, radix) <= digits_value(shorter, radix) * radix)
            by (nonlinear_arith)
            requires
                digits_value(shorter, radix) >= 0,
                radix >= 1,
        ;
        if n < s.len() {
            lemma_digits_value_grows(shorter, n, radix);
            assert(shorter.take(n) =~= s.take(n));
        } else {
            assert(s.take(n) =~= s);
        }
    }
}

/// The number up to `max` that a text writes in the given radix.
pub fn parse_number(s: &[char], radix: u64, max: u64) -> (result: Option<u64>)
    requires
        2 <= radix <= 16,
    ensures
        match parsed_number(s@, radix as int, max as int) {
            Some(n) => result is Some && result->0 == n,
            None => result is None,
        },
{
    let digits: &[char] = if s.len() > 0 && s[0] == '+' {
        slice_subrange(s, 1, s.len())
    } else {
        s
    };
    assert(digits@ =~= unsigned_digits(s@));
    if digits.len() == 0 {
        return None;
    }
    let mut value: u128 = 0;
    let mut i: usize = 0;
    while i < digits.len()
        invariant
            0 <= i <= digits.len(),
            2 <= radix <= 16,
            value <= max,
            digits@ == unsigned_digits(s@),
            forall|j: int| 0 <= j < i ==> digit_value(#[trigger] digits@[j]) < radix,
            value == digits_value(digits@.take(i as int), radix as int),
        decreases digits.len() - i,
    {
        let d: u64 = digit(digits[i]);
        if d >= radix {
            assert(!all_digits(digits@, radix as int));
            return None;
        }
        assert(value * radix <= 0x1_0000_0000_0000_0000 * 16) by (nonlinear_arith)
            requires
                0 <= value <= 0x1_0000_0000_0000_0000,
                0 <= radix <= 16,
        ;
        let ghost longer = digits@.take(i + 1);
        assert(longer.drop_last() =~= digits@.take(i as int));
        value = value * radix as u128 + d as u128;
        assert(value == digits_value(longer, radix as int));
        if value > max as u128 {
            proof {
                lemma_digits_value_grows(digits@, i + 1, radix as int);
            }
            return None;
        }
        i += 1;
    }
    assert(digits@.take(i as int) =~= digits@);
    Some(value as u64)
}

/// The digit that stands for `d` in radix sixteen.
pub fn digit_for(d: u8) -> (result: char)
    requires
        d < 16,
    ensures
        result == digit_char(d as int),
{
    if d < 10 {
        (48 + d) as char
    } else {
        (87 + d) as char
    }
}

/// A number in decimal.
pub fn decimal_chars(n: u64) -> (result: Vec<char>)
    ensures
        result@ == decimal(n as nat),
    decreases n,
{
    if n < 10 {
        let mut result: Vec<char> = Vec::new();
        result.push(digit_for(n as u8));
        assert(result@ =~= decimal(n as nat));
        result
    } else {
        let mut result = decimal_chars(n / 10);
        result.push(digit_for((n % 10) as u8));
        result
    }
}

/// A number in decimal, as a string.
pub fn decimal_text(n: u64) -> (result: String)
    ensures
        result@ == decimal(n as nat),
{
    to_text(decimal_chars(n).as_slice())
}

/// Whether `a` comes before `b`.
pub fn before(a: &[char], b: &[char]) -> (result: bool)
    ensures
        result == text_before(a@, b@),
{
    let mut i: usize = 0;
    assert(a@.skip(0) =~= a@);
    assert(b@.skip(0) =~= b@);
    while i < a.len() && i < b.len()
        invariant
            0 <= i <= a.len(),
            i <= b.len(),
            text_before(a@, b@) == text_before(a@.skip(i as int), b@.skip(i as int)),
        decreases a.len() - i,
    {
        if a[i] != b[i] {
            return a[i] < b[i];
        }
        assert(a@.skip(i as int).drop_first() =~= a@.skip(i + 1));
        assert(b@.skip(i as int).drop_first() =~= b@.skip(i + 1));
        i += 1;
    }
    i < b.len()
}

// ---------------------------------------------------------------------------------------
// Laws.

/// White space is the tab and the other four controls up to the carriage return, the space, and
/// the blanks of Unicode; nothing else.
pub proof fn law_white_space(c: char)
    ensures
        is_white_space(c) <==> {
            let code = c as int;
            ||| code == 9 || code == 10 || code == 11 || code == 12 || code == 13
            ||| code == 0x20 || code == 0x85 || code == 0xA0 || code == 0x1680
            ||| 0x2000 <= code && code <= 0x200A
            ||| code == 0x2028 || code == 0x2029 || code == 0x202F || code == 0x205F
            ||| code == 0x3000
        },
{
}

/// Trimming takes away the white space at both ends, all of it and nothing else.
pub proof fn law_trimming_takes_the_blank_ends(front: Seq<char>, core: Seq<char>, back: Seq<char>)
    requires
        forall|i: int| 0 <= i < front.len() ==> is_white_space(#[trigger] front[i]),
        forall|i: int| 0 <= i < back.len() ==> is_white_space(#[trigger] back[i]),
        core.len() > 0 ==> !is_white_space(core[0]) && !is_white_space(core.last()),
    ensures
        trimmed(front + core + back) == core,
{
    let s = front + core + back;
    if core.len() == 0 {
        assert forall|i: int| 0 <= i < s.len() implies is_white_space(#[trigger] s[i]) by {
            if i < front.len() {
                assert(s[i] == front[i]);
            } else {
                assert(s[i] == back[i - front.len()]);
            }
        }
        lemma_trimmed_start(s, s.len() as int);
        assert(s.skip(s.len() as int) =~= core);
        lemma_trimmed_end(core, 0);
        assert(core.take(0) =~= core);
    } else {
        let n = front.len() as int;
        assert forall|i: int| 0 <= i < n implies is_white_space(#[trigger] s[i]) by {
            assert(s[i] == front[i]);
        }
        assert(s[n] == core[0]);
        lemma_trimmed_start(s, n);
        let rest = s.skip(n);
        let m = core.len() as int;
        assert(rest =~= core + back);
        assert forall|i: int| m <= i < rest.len() implies is_white_space(#[trigger] rest[i]) by {
            assert(rest[i] == back[i - m]);
        }
        assert(rest[m - 1] == core.last());
        lemma_trimmed_end(rest, m);
        assert(rest.take(m) =~= core);
    }
}

/// The pieces of a text, put together again with the separator, are the text, and no piece holds
/// the separator.
pub proof fn law_pieces_make_up_the_text(s: Seq<char>, c: char)
    ensures
        joined(split(s, c), seq![c]) == s,
        forall|i: int, j: int|
            0 <= i < split(s, c).len() && 0 <= j < split(s, c)[i].len() ==> #[trigger] split(
                s,
                c,
            )[i][j] != c,
    decreases s.len(),
{
    lemma_position(s, c);
    let p = position(s, c);
    if p < s.len() {
        let rest = s.skip(p + 1);
        law_pieces_make_up_the_text(rest, c);
        lemma_split_len(rest, c);
        let pieces = split(s, c);
        assert(pieces.drop_first() =~= split(rest, c));
        lemma_joined_from_front(pieces, seq![c]);
        assert(s =~= s.take(p) + seq![c] + rest);
        assert forall|i: int, j: int|
            0 <= i < pieces.len() && 0 <= j < pieces[i].len() implies #[trigger] pieces[i][j]
            != c by {
            if i == 0 {
                assert(pieces[0][j] == s[j]);
            } else {
                assert(pieces[i] == split(rest, c)[i - 1]);
                assert(split(rest, c)[i - 1][j] != c);
            }
        }
    } else {
        assert(split(s, c) =~= seq![s]);
    }
}

/// A join begins with its first part.
pub proof fn lemma_joined_from_front(parts: Seq<Seq<char>>, separator: Seq<char>)
    requires
        parts.len() >= 2,
    ensures
        joined(parts, separator) == parts[0] + separator + joined(parts.drop_first(), separator),
    decreases parts.len(),
{
    let back = parts.drop_first();
    if parts.len() == 2 {
        assert(parts.drop_last() =~= seq![parts[0]]);
        assert(back =~= seq![parts[1]]);
        assert(joined(parts.drop_last(), separator) == parts[0]);
    } else {
        let shorter = parts.drop_last();
        lemma_joined_from_front(shorter, separator);
        assert(shorter.drop_first() =~= back.drop_last());
        let middle = joined(back.drop_last(), separator);
        assert((parts[0] + separator + middle) + separator + parts.last() =~= parts[0] + separator
            + (middle + separator + parts.last()));
    }
}

/// A join of no texts is empty, one text is its own join, and each further text comes behind a
/// separator.
pub proof fn law_join_adds_one_text(parts: Seq<Seq<char>>, part: Seq<char>, separator: Seq<char>)
    ensures
        joined(Seq::empty(), separator) == Seq::<char>::empty(),
        joined(parts.push(part), separator) == if parts.len() == 0 {
            part
        } else {
            joined(parts, separator) + separator + part
        },
{
    assert(parts.push(part).drop_last() =~= parts);
}

/// A line feed ends a line, and with it the one carriage return right before it. What is left
/// behind the last line feed is a line unless it is empty.
pub proof fn law_line_feeds_end_lines(line: Seq<char>, rest: Seq<char>)
    requires
        forall|i: int| 0 <= i < line.len() ==> #[trigger] line[i] != '\n',
    ensures
        lines(line + seq!['\n'] + rest) == seq![line] + lines(rest) || (line.len() > 0
            && line.last() == '\r'),
        lines(line + seq!['\r', '\n'] + rest) == seq![line] + lines(rest),
        lines(line) == if line.len() == 0 {
            Seq::empty()
        } else {
            seq![line]
        },
{
    let ended = line + seq!['\n'] + rest;
    let n = line.len() as int;
    assert forall|i: int| 0 <= i < n implies #[trigger] ended[i] != '\n' by {
        assert(ended[i] == line[i]);
    }
    lemma_position_unique(ended, '\n', n);
    assert(ended.take(n) =~= line);
    assert(ended.skip(n + 1) =~= rest);
    let returned = line.push('\r');
    let both = line + seq!['\r', '\n'] + rest;
    assert forall|i: int| 0 <= i < n + 1 implies #[trigger] both[i] != '\n' by {
        if i < n {
            assert(both[i] == line[i]);
        }
    }
    lemma_position_unique(both, '\n', n + 1);
    assert(both.take(n + 1) =~= returned);
    assert(returned.drop_last() =~= line);
    assert(both.skip(n + 2) =~= rest);
    lemma_position_unique(line, '\n', n);
}

/// A text contains exactly what stands somewhere in it.
pub proof fn law_contained_text_stands_somewhere(s: Seq<char>, part: Seq<char>)
    ensures
        contains_text(s, part) <==> exists|front: Seq<char>, back: Seq<char>|
            s == #[trigger] (front + part + back),
{
    if contains_text(s, part) {
        let i = choose|i: int| occurs_at(s, part, i);
        let front = s.take(i);
        let back = s.skip(i + part.len());
        assert(s =~= front + part + back);
    }
    if exists|front: Seq<char>, back: Seq<char>| s == #[trigger] (front + part + back) {
        let (front, back) = choose|front: Seq<char>, back: Seq<char>|
            s == #[trigger] (front + part + back);
        let i = front.len() as int;
        assert(s.subrange(i, i + part.len()) =~= part);
        assert(occurs_at(s, part, i));
    }
}

/// The digits are the ten figures and, above them, the letters up to F in either case.
pub proof fn law_digits(d: int)
    requires
        0 <= d,
    ensures
        d < 10 ==> digit_value((48 + d) as char) == d,
        d < 6 ==> digit_value((97 + d) as char) == 10 + d && digit_value((65 + d) as char) == 10 + d,
        forall|c: char|
            #![trigger digit_value(c)]
            !(48 <= c as int <= 57) && !(97 <= c as int <= 102) && !(65 <= c as int <= 70)
                ==> digit_value(c) >= 16,
{
}

/// A number with one more digit is the number before it times the radix and the digit, as long
/// as it is not too large; nothing but a digit can be added.
pub proof fn law_number_grows_by_a_digit(s: Seq<char>, c: char, radix: int, max: int)
    requires
        2 <= radix <= 16,
        s.len() > 0,
    ensures
        digit_value(c) >= radix ==> parsed_number(s.push(c), radix, max) is None,
        parsed_number(s, radix, max) matches Some(n) ==> digit_value(c) < radix ==> parsed_number(
            s.push(c),
            radix,
            max,
        ) == if n * radix + digit_value(c) <= max {
            Some(n * radix + digit_value(c))
        } else {
            None
        },
        parsed_number(s, radix, max) is None && s != seq!['+'] ==> parsed_number(
            s.push(c),
            radix,
            max,
        ) is None,
{
    let digits = unsigned_digits(s);
    let longer = unsigned_digits(s.push(c));
    assert(longer =~= digits.push(c));
    assert(longer.drop_last() =~= digits);
    assert(longer[longer.len() - 1] == c);
    lemma_digits_value_grows(longer, digits.len() as int, radix);
    assert(longer.take(digits.len() as int) =~= digits);
    if all_digits(longer, radix) {
        assert forall|i: int| 0 <= i < digits.len() implies digit_value(#[trigger] digits[i])
            < radix by {
            assert(longer[i] == digits[i]);
        }
    }
    if all_digits(digits, radix) && digit_value(c) < radix {
        assert forall|i: int| 0 <= i < longer.len() implies digit_value(#[trigger] longer[i])
            < radix by {
            if i < digits.len() {
                assert(longer[i] == digits[i]);
            }
        }
    }
    if s.len() == 1 && s[0] == '+' {
        assert(s =~= seq!['+']);
    }
}

/// A single digit is its value, a plus sign before a number changes nothing, and neither
/// nothing nor a lone sign is a number.
pub proof fn law_smallest_numbers(s: Seq<char>, c: char, radix: int, max: int)
    requires
        2 <= radix <= 16,
    ensures
        parsed_number(Seq::empty(), radix, max) is None,
        parsed_number(seq!['+'], radix, max) is None,
        parsed_number(seq![c], radix, max) == if digit_value(c) < radix && digit_value(c) <= max {
            Some(digit_value(c))
        } else {
            None
        },
        s.len() > 0 && s[0] != '+' ==> parsed_number(seq!['+'] + s, radix, max) == parsed_number(
            s,
            radix,
            max,
        ),
        s.len() > 0 && s[0] == '+' ==> parsed_number(seq!['+'] + s, radix, max) is None,
{
    assert(digit_value('+') == 16);
    assert(unsigned_digits(seq!['+']) =~= Seq::empty());
    let one = seq![c];
    assert(unsigned_digits(Seq::<char>::empty()).len() == 0);
    if c != '+' {
        assert(unsigned_digits(one) == one);
        assert(one.drop_last() =~= Seq::empty());
        assert(digits_value(Seq::<char>::empty(), radix) == 0);
        assert(0 * radix == 0);
        assert(digits_value(one, radix) == digit_value(c));
        if all_digits(one, radix) {
            assert(digit_value(one[0]) < radix);
        }
    }
    assert(unsigned_digits(seq!['+'] + s) =~= s);
    if s.len() > 0 && s[0] == '+' {
        assert(!all_digits(s, radix));
    }
}

/// Of two texts the one with the smaller character comes first where they begin to differ, and
/// a text comes before every continuation of it.
pub proof fn law_first_difference_decides(
    common: Seq<char>,
    c: char,
    d: char,
    a: Seq<char>,
    b: Seq<char>,
)
    requires
        c < d,
    ensures
        text_before(common + seq![c] + a, common + seq![d] + b),
        !text_before(common + seq![d] + b, common + seq![c] + a),
        text_before(common, common + seq![c] + a),
        !text_before(common + seq![c] + a, common),
        !text_before(common, common),
    decreases common.len(),
{
    let x = common + seq![c] + a;
    let y = common + seq![d] + b;
    if common.len() > 0 {
        let rest = common.drop_first();
        law_first_difference_decides(rest, c, d, a, b);
        assert(x.drop_first() =~= rest + seq![c] + a);
        assert(y.drop_first() =~= rest + seq![d] + b);
    } else {
        assert(x[0] == c && y[0] == d);
    }
}

/// A decimal number is written with figures only, and with no needless zero in front.
pub proof fn law_decimal_is_plain(n: nat)
    ensures
        forall|i: int|
            0 <= i < decimal(n).len() ==> 48 <= #[trigger] decimal(n)[i] as int <= 57,
        decimal(n).len() >= 1,
        decimal(n).len() > 1 ==> decimal(n)[0] != '0',
    decreases n,
{
    lemma_decimal_digits(n);
    assert forall|i: int| 0 <= i < decimal(n).len() implies 48 <= #[trigger] decimal(n)[i] as int
        <= 57 by {
        assert('0' <= decimal(n)[i] <= '9');
    }
    if n >= 10 {
        law_decimal_is_plain(n / 10);
        lemma_decimal_digits(n / 10);
        assert(decimal(n)[0] == decimal(n / 10)[0]);
        if n / 10 < 10 {
            let d = (n / 10) as int;
            assert(1 <= d < 10);
            assert(decimal(n / 10) =~= seq![digit_char(d)]);
            assert(digit_char(d) as int == 48 + d);
        } else {
            lemma_decimal_digits(n / 10 / 10);
            assert(decimal(n / 10).len() == decimal(n / 10 / 10).len() + 1);
        }
    }
}

/// A text is what trimming takes away in front of it, what trimming leaves, and what trimming
/// takes away behind it.
pub proof fn lemma_trimmed_parts(s: Seq<char>) -> (ends: (Seq<char>, Seq<char>))
    ensures
        s == ends.0 + trimmed(s) + ends.1,
        forall|i: int| 0 <= i < ends.0.len() ==> is_white_space(#[trigger] ends.0[i]),
        forall|i: int| 0 <= i < ends.1.len() ==> is_white_space(#[trigger] ends.1[i]),
        trimmed(s).len() > 0 ==> !is_white_space(trimmed(s)[0]) && !is_white_space(
            trimmed(s).last(),
        ),
{
    let front = lemma_start_parts(s);
    let rest = trimmed_start(s);
    let back = lemma_end_parts(rest);
    assert(s =~= front + trimmed(s) + back);
    if trimmed(s).len() > 0 {
        assert(trimmed(s)[0] == rest[0]);
    }
    (front, back)
}

/// What is left of a text after trimming its start is its end.
pub proof fn lemma_start_is_end_part(s: Seq<char>)
    ensures
        trimmed_start(s).len() <= s.len(),
        trimmed_start(s) == s.skip(s.len() - trimmed_start(s).len()),
{
    let front = lemma_start_parts(s);
    assert(s.skip(front.len() as int) =~= trimmed_start(s));
}

proof fn lemma_start_parts(s: Seq<char>) -> (front: Seq<char>)
    ensures
        s == front + trimmed_start(s),
        forall|i: int| 0 <= i < front.len() ==> is_white_space(#[trigger] front[i]),
        trimmed_start(s).len() > 0 ==> !is_white_space(trimmed_start(s)[0]),
    decreases s.len(),
{
    if s.len() > 0 && is_white_space(s[0]) {
        let front = lemma_start_parts(s.drop_first());
        let longer = seq![s[0]] + front;
        assert(s =~= longer + trimmed_start(s)) by {
            assert(s =~= seq![s[0]] + s.drop_first());
        }
        assert forall|i: int| 0 <= i < longer.len() implies is_white_space(#[trigger] longer[i]) by {
            if i > 0 {
                assert(longer[i] == front[i - 1]);
            }
        }
        longer
    } else {
        assert(s =~= Seq::<char>::empty() + s);
        Seq::empty()
    }
}

proof fn lemma_end_parts(s: Seq<char>) -> (back: Seq<char>)
    ensures
        s == trimmed_end(s) + back,
        forall|i: int| 0 <= i < back.len() ==> is_white_space(#[trigger] back[i]),
        trimmed_end(s).len() > 0 ==> !is_white_space(trimmed_end(s).last()),
    decreases s.len(),
{
    if s.len() > 0 && is_white_space(s.last()) {
        let back = lemma_end_parts(s.drop_last());
        let longer = back.push(s.last());
        assert(s =~= trimmed_end(s) + longer) by {
            assert(s =~= s.drop_last().push(s.last()));
        }
        longer
    } else {
        assert(s =~= s + Seq::<char>::empty());
        Seq::empty()
    }
}

/// Around a character that is no white space, trimming takes away only what is blank in front of
/// the one part and behind the other. Trimming what is left of a part then comes to trimming the
/// whole part.
pub proof fn lemma_trimmed_around(front: Seq<char>, c: char, back: Seq<char>)
    requires
        !is_white_space(c),
    ensures
        trimmed(front + seq![c] + back) == trimmed_start(front) + seq![c] + trimmed_end(back),
        trimmed(trimmed_start(front)) == trimmed(front),
        trimmed(trimmed_end(back)) == trimmed(back),
{
    let blank = lemma_start_parts(front);
    let end = lemma_end_parts(back);
    let core = trimmed_start(front) + seq![c] + trimmed_end(back);
    assert(core[trimmed_start(front).len() as int] == c);
    assert(core[0] == if trimmed_start(front).len() > 0 {
        trimmed_start(front)[0]
    } else {
        c
    });
    assert(core.last() == if trimmed_end(back).len() > 0 {
        trimmed_end(back).last()
    } else {
        c
    });
    assert(front + seq![c] + back =~= blank + core + end);
    law_trimming_takes_the_blank_ends(blank, core, end);
    let (a, b) = lemma_trimmed_parts(trimmed_start(front));
    if a.len() > 0 {
        assert(trimmed_start(front)[0] == a[0]);
    }
    assert(a.len() == 0);
    assert(front =~= blank + trimmed(trimmed_start(front)) + b);
    law_trimming_takes_the_blank_ends(blank, trimmed(trimmed_start(front)), b);
    let (x, y) = lemma_trimmed_parts(trimmed_end(back));
    let inner = trimmed(trimmed_end(back));
    if y.len() > 0 {
        assert(trimmed_end(back).last() == y.last());
        assert(is_white_space(y[y.len() - 1]));
    }
    assert(y.len() == 0);
    assert(back =~= x + inner + end);
    law_trimming_takes_the_blank_ends(x, inner, end);
}

} // verus!

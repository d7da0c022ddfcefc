//! Text primitives: the operations on character sequences that the rest of the
//! library is specified with, each next to the code that performs it.

use vstd::prelude::*;
use vstd::utf8::encode_utf8_decode_utf8;

verus! {

/// `String::push` appends one character.
pub assume_specification[ String::push ](s: &mut String, c: char)
    ensures
        final(s)@ == old(s)@.push(c),
;

/// The Unicode `White_Space` characters.
pub open spec fn is_space(c: char) -> bool {
    ||| '\u{9}' <= c <= '\u{d}'
    ||| c == ' '
    ||| c == '\u{85}'
    ||| c == '\u{a0}'
    ||| c == '\u{1680}'
    ||| '\u{2000}' <= c <= '\u{200a}'
    ||| c == '\u{2028}'
    ||| c == '\u{2029}'
    ||| c == '\u{202f}'
    ||| c == '\u{205f}'
    ||| c == '\u{3000}'
}

/// The Unicode control characters (general category `Cc`).
pub open spec fn is_control(c: char) -> bool {
    c <= '\u{1f}' || '\u{7f}' <= c <= '\u{9f}'
}

/// `s` without the white space at its two ends.
pub open spec fn trimmed(s: Seq<char>) -> Seq<char>
    decreases s.len(),
{
    if s.len() > 0 && is_space(s.first()) {
        trimmed(s.drop_first())
    } else if s.len() > 0 && is_space(s.last()) {
        trimmed(s.drop_last())
    } else {
        s
    }
}

/// ASCII letters in lower case, every other character unchanged.
pub open spec fn lower_char(c: char) -> char {
    if 'A' <= c <= 'Z' {
        (c as u32 + 32) as char
    } else {
        c
    }
}

pub open spec fn lowered(s: Seq<char>) -> Seq<char> {
    s.map_values(|c: char| lower_char(c))
}

/// `needle` stands in `hay` at position `i`.
pub open spec fn occurs_at<T>(hay: Seq<T>, needle: Seq<T>, i: int) -> bool {
    &&& 0 <= i
    &&& i + needle.len() <= hay.len()
    &&& hay.subrange(i, i + needle.len()) == needle
}

/// `needle` stands somewhere in `hay`.
pub open spec fn occurs<T>(hay: Seq<T>, needle: Seq<T>) -> bool {
    exists|i: int| #[trigger] occurs_at(hay, needle, i)
}

pub fn is_space_char(c: char) -> (r: bool)
    ensures
        r == is_space(c),
{
    ('\u{9}' <= c && c <= '\u{d}') || c == ' ' || c == '\u{85}' || c == '\u{a0}' || c == '\u{1680}'
        || ('\u{2000}' <= c && c <= '\u{200a}') || c == '\u{2028}' || c == '\u{2029}' || c
        == '\u{202f}' || c == '\u{205f}' || c == '\u{3000}'
}

pub fn is_control_char(c: char) -> (r: bool)
    ensures
        r == is_control(c),
{
    c <= '\u{1f}' || ('\u{7f}' <= c && c <= '\u{9f}')
}

/// The characters of `s`.
pub fn chars_of(s: &str) -> (out: Vec<char>)
    ensures
        out@ == s@,
{
    let mut out: Vec<char> = Vec::new();
    for c in it: s.chars()
        invariant
            it.seq() == s@,
            out@ == s@.take(it.index() as int),
    {
        out.push(c);
    }
    out
}

/// The string of the characters `chars[from..to]`.
pub fn string_of(chars: &Vec<char>, from: usize, to: usize) -> (out: String)
    requires
        from <= to <= chars@.len(),
    ensures
        out@ == chars@.subrange(from as int, to as int),
{
    let mut out = String::new();
    for i in from..to
        invariant
            from <= to <= chars@.len(),
            out@ == chars@.subrange(from as int, i as int),
    {
        out.push(chars[i]);
    }
    out
}

/// Whether two byte slices hold the same bytes.
pub fn same_bytes(a: &[u8], b: &[u8]) -> (r: bool)
    ensures
        r == (a@ == b@),
{
    if a.len() != b.len() {
        return false;
    }
    for i in 0..a.len()
        invariant
            a@.len() == b@.len(),
            a@.take(i as int) == b@.take(i as int),
    {
        if a[i] != b[i] {
            return false;
        }
        assert(a@.take(i + 1) =~= a@.take(i as int).push(a@[i as int]));
        assert(b@.take(i + 1) =~= b@.take(i as int).push(b@[i as int]));
    }
    assert(a@.take(a@.len() as int) =~= a@);
    assert(b@.take(b@.len() as int) =~= b@);
    true
}

/// Whether two strings hold the same characters.
pub fn same(a: &str, b: &str) -> (r: bool)
    ensures
        r == (a@ == b@),
{
    proof {
        encode_utf8_decode_utf8(a@);
        encode_utf8_decode_utf8(b@);
    }
    same_bytes(a.as_bytes(), b.as_bytes())
}

/// `s` without the white space at its two ends.
pub fn trim(s: &str) -> (out: String)
    ensures
        out@ == trimmed(s@),
{
    let chars = chars_of(s);
    let mut from: usize = 0;
    assert(chars@.subrange(0, chars@.len() as int) =~= s@);
    while from < chars.len() && is_space_char(chars[from])
        invariant
            from <= chars@.len(),
            trimmed(chars@.subrange(from as int, chars@.len() as int)) == trimmed(s@),
        decreases chars@.len() - from,
    {
        assert(chars@.subrange(from as int, chars@.len() as int).drop_first() =~= chars@.subrange(
            from + 1,
            chars@.len() as int,
        ));
        from += 1;
    }
    let mut to: usize = chars.len();
    while to > from && is_space_char(chars[to - 1])
        invariant
            from <= to <= chars@.len(),
            from < chars@.len() ==> !is_space(chars@[from as int]),
            trimmed(chars@.subrange(from as int, to as int)) == trimmed(s@),
        decreases to - from,
    {
        assert(chars@.subrange(from as int, to as int).drop_last() =~= chars@.subrange(
            from as int,
            to - 1,
        ));
        to -= 1;
    }
    string_of(&chars, from, to)
}

fn lower_char_of(c: char) -> (r: char)
    ensures
        r == lower_char(c),
{
    if 'A' <= c && c <= 'Z' {
        (c as u8 + 32) as char
    } else {
        c
    }
}

/// `s` with its ASCII letters in lower case.
pub fn to_lower(s: &str) -> (out: String)
    ensures
        out@ == lowered(s@),
{
    let mut out = String::new();
    for c in it: s.chars()
        invariant
            it.seq() == s@,
            out@ == lowered(s@.take(it.index() as int)),
    {
        out.push(lower_char_of(c));
        assert(lowered(s@.take(it.index() + 1)) =~= lowered(s@.take(it.index() as int)).push(
            lower_char(c),
        ));
    }
    assert(s@.take(s@.len() as int) =~= s@);
    out
}

/// Whether `pattern` stands in `chars` at position `at`.
fn stands_at(chars: &Vec<char>, pattern: &Vec<char>, at: usize) -> (r: bool)
    requires
        at <= chars@.len(),
    ensures
        r == occurs_at(chars@, pattern@, at as int),
{
    if chars.len() - at < pattern.len() {
        return false;
    }
    for i in 0..pattern.len()
        invariant
            at + pattern.len() <= chars.len(),
            forall|j: int| 0 <= j < i ==> chars@[at + j] == pattern@[j],
    {
        if chars[at + i] != pattern[i] {
            assert(chars@.subrange(at as int, at + pattern@.len())[i as int] != pattern@[i as int]);
            return false;
        }
    }
    assert(chars@.subrange(at as int, at + pattern@.len()) =~= pattern@);
    true
}

/// Whether `needle` stands somewhere in `hay`.
pub fn contains(hay: &str, needle: &str) -> (r: bool)
    ensures
        r == occurs(hay@, needle@),
{
    let chars = chars_of(hay);
    let pattern = chars_of(needle);
    let mut i: usize = 0;
    while i < chars.len()
        invariant
            chars@ == hay@,
            pattern@ == needle@,
            i <= chars@.len(),
            forall|j: int| 0 <= j < i ==> !occurs_at(hay@, needle@, j),
        decreases chars@.len() - i,
    {
        if stands_at(&chars, &pattern, i) {
            return true;
        }
        i += 1;
    }
    stands_at(&chars, &pattern, i)
}

/// `s` with the leftmost occurrences of `from` that do not overlap replaced by
/// `to`. An empty `from` stands before every character and at the end.
pub open spec fn replaced(s: Seq<char>, from: Seq<char>, to: Seq<char>) -> Seq<char>
    decreases s.len(),
{
    if from.len() == 0 {
        if s.len() == 0 {
            to
        } else {
            to.push(s[0]) + replaced(s.drop_first(), from, to)
        }
    } else if s.len() == 0 {
        s
    } else if occurs_at(s, from, 0) {
        to + replaced(s.skip(from.len() as int), from, to)
    } else {
        seq![s[0]] + replaced(s.drop_first(), from, to)
    }
}

/// `s` with every occurrence of `from` replaced by `to`.
pub fn replace(s: &str, from: &str, to: &str) -> (out: String)
    ensures
        out@ == replaced(s@, from@, to@),
{
    let chars = chars_of(s);
    let pattern = chars_of(from);
    let mut out = String::new();
    let mut i: usize = 0;
    assert(chars@.skip(0) =~= s@);
    while i < chars.len()
        invariant
            chars@ == s@,
            pattern@ == from@,
            i <= chars@.len(),
            out@ + replaced(s@.skip(i as int), from@, to@) == replaced(s@, from@, to@),
        decreases chars@.len() - i,
    {
        let ghost rest = s@.skip(i as int);
        let ghost before = out@;
        assert(rest.drop_first() =~= s@.skip(i + 1));
        assert(rest[0] == s@[i as int]);
        if pattern.len() == 0 {
            out.append(to);
            out.push(chars[i]);
            i += 1;
            assert(before + (to@.push(rest[0]) + replaced(rest.drop_first(), from@, to@)) =~= out@
                + replaced(s@.skip(i as int), from@, to@));
        } else {
            let hit = stands_at(&chars, &pattern, i);
            assert(hit == occurs_at(rest, from@, 0)) by {
                if i + from@.len() <= s@.len() {
                    assert(rest.subrange(0, from@.len() as int) =~= s@.subrange(
                        i as int,
                        i + from@.len(),
                    ));
                }
            }
            if hit {
                out.append(to);
                assert(rest.skip(from@.len() as int) =~= s@.skip(i + from@.len()));
                i += pattern.len();
                assert(before + (to@ + replaced(s@.skip(i as int), from@, to@)) =~= out@ + replaced(
                    s@.skip(i as int),
                    from@,
                    to@,
                ));
            } else {
                out.push(chars[i]);
                i += 1;
                assert(before + (seq![rest[0]] + replaced(s@.skip(i as int), from@, to@)) =~= out@
                    + replaced(s@.skip(i as int), from@, to@));
            }
        }
    }
    assert(s@.skip(i as int) =~= Seq::<char>::empty());
    if pattern.len() == 0 {
        out.append(to);
    } else {
        assert(out@ + Seq::<char>::empty() =~= out@);
    }
    out
}

/// A prefix of a replaced text that does not reach into a replacement is a
/// prefix of the text itself.
proof fn lemma_replaced_prefix(s: Seq<char>, from: Seq<char>, to: Seq<char>, k: int)
    requires
        from.len() > 0,
        to.len() > 0,
        0 <= k <= replaced(s, from, to).len(),
        !replaced(s, from, to).take(k).contains(to[0]),
    ensures
        k <= s.len(),
        replaced(s, from, to).take(k) == s.take(k),
    decreases s.len(),
{
    let r = replaced(s, from, to);
    if k > 0 && s.len() > 0 {
        if occurs_at(s, from, 0) {
            assert(r.take(k)[0] == to[0]);
        } else {
            let tail = replaced(s.drop_first(), from, to);
            assert(r.take(k) =~= seq![s[0]] + tail.take(k - 1));
            let t = tail.take(k - 1);
            assert forall|i: int| 0 <= i < t.len() implies t[i] != to[0] by {
                assert(r.take(k)[i + 1] == t[i]);
            }
            lemma_replaced_prefix(s.drop_first(), from, to, k - 1);
            assert(s.take(k) =~= seq![s[0]] + s.drop_first().take(k - 1));
        }
    } else {
        assert(r.take(k) =~= s.take(k));
    }
}

/// A text from which `from` was replaced does not hold `from` any more, where
/// the two ends of the replacement do not stand in `from` and the replacement
/// does not itself hold `from`.
pub proof fn lemma_replaced_is_gone(s: Seq<char>, from: Seq<char>, to: Seq<char>)
    requires
        from.len() > 0,
        to.len() > 0,
        !from.contains(to.first()),
        !from.contains(to.last()),
        !occurs(to, from),
    ensures
        !occurs(replaced(s, from, to), from),
    decreases s.len(),
{
    let r = replaced(s, from, to);
    let n = from.len() as int;
    if s.len() > 0 {
        if occurs_at(s, from, 0) {
            let tail = replaced(s.skip(n), from, to);
            lemma_replaced_is_gone(s.skip(n), from, to);
            assert forall|j: int| !occurs_at(r, from, j) by {
                if occurs_at(r, from, j) {
                    let m = to.len() as int;
                    if j >= m {
                        assert(r.subrange(j, j + n) =~= tail.subrange(j - m, j - m + n));
                        assert(occurs_at(tail, from, j - m));
                    } else if j + n <= m {
                        assert(r.subrange(j, j + n) =~= to.subrange(j, j + n));
                        assert(occurs_at(to, from, j));
                    } else {
                        assert(r.subrange(j, j + n)[m - 1 - j] == to.last());
                        assert(from[m - 1 - j] == to.last());
                    }
                }
            }
        } else {
            let tail = replaced(s.drop_first(), from, to);
            lemma_replaced_is_gone(s.drop_first(), from, to);
            assert forall|j: int| !occurs_at(r, from, j) by {
                if occurs_at(r, from, j) {
                    if j >= 1 {
                        assert(r.subrange(j, j + n) =~= tail.subrange(j - 1, j - 1 + n));
                        assert(occurs_at(tail, from, j - 1));
                    } else {
                        assert(r.take(n) =~= r.subrange(0, n));
                        lemma_replaced_prefix(s, from, to, n);
                        assert(s.subrange(0, n) =~= s.take(n));
                    }
                }
            }
        }
    }
}

/// The decimal digits of `n`.
pub open spec fn decimal(n: nat) -> Seq<char>
    decreases n,
{
    if n < 10 {
        seq![digit_char(n)]
    } else {
        decimal(n / 10).push(digit_char(n % 10))
    }
}

pub open spec fn digit_char(d: nat) -> char {
    ('0' as u32 + d) as char
}

fn digit_char_of(d: u8) -> (c: char)
    requires
        d < 10,
    ensures
        c == digit_char(d as nat),
{
    (48 + d) as char
}

/// `n` written in decimal.
pub fn decimal_text(n: u128) -> (out: String)
    ensures
        out@ == decimal(n as nat),
    decreases n,
{
    if n < 10 {
        let mut out = String::new();
        out.push(digit_char_of(n as u8));
        assert(out@ =~= decimal(n as nat));
        out
    } else {
        let mut out = decimal_text(n / 10);
        out.push(digit_char_of((n % 10) as u8));
        out
    }
}

/// Why a text is not a number that fits.
#[derive(Clone, Copy, Debug, PartialEq, Eq, Structural)]
pub enum IntError {
    Empty,
    InvalidDigit,
    TooLarge,
}

pub open spec fn is_digit(c: char) -> bool {
    '0' <= c <= '9'
}

/// The number that the digits `s` give after the digits that gave `acc`; the
/// first character that is no digit, or that takes the number past `max`,
/// decides the error.
pub open spec fn digits_value(acc: nat, s: Seq<char>, max: nat) -> Result<nat, IntError>
    decreases s.len(),
{
    if s.len() == 0 {
        Ok(acc)
    } else if !is_digit(s[0]) {
        Err(IntError::InvalidDigit)
    } else {
        let next = (acc * 10 + (s[0] as u32 - '0' as u32)) as nat;
        if next > max {
            Err(IntError::TooLarge)
        } else {
            digits_value(next, s.drop_first(), max)
        }
    }
}

/// The whole number that `s` writes: an optional `+` and at least one decimal
/// digit, at most `max`.
pub open spec fn whole_number(s: Seq<char>, max: nat) -> Result<nat, IntError> {
    if s.len() == 0 {
        Err(IntError::Empty)
    } else if s[0] == '+' {
        if s.len() == 1 {
            Err(IntError::InvalidDigit)
        } else {
            digits_value(0, s.drop_first(), max)
        }
    } else {
        digits_value(0, s, max)
    }
}

/// Reads a whole number of at most `max`.
pub fn parse_whole(s: &str, max: u64) -> (r: Result<u64, IntError>)
    ensures
        match r {
            Ok(n) => whole_number(s@, max as nat) == Ok::<nat, IntError>(n as nat) && n <= max,
            Err(e) => whole_number(s@, max as nat) == Err::<nat, IntError>(e),
        },
{
    let chars = chars_of(s);
    if chars.len() == 0 {
        return Err(IntError::Empty);
    }
    let mut i: usize = 0;
    if chars[0] == '+' {
        if chars.len() == 1 {
            return Err(IntError::InvalidDigit);
        }
        i = 1;
    }
    let mut acc: u64 = 0;
    assert(s@.skip(0) =~= s@);
    assert(s@.skip(1) =~= s@.drop_first());
    while i < chars.len()
        invariant
            chars@ == s@,
            i <= chars@.len(),
            acc <= max,
            digits_value(acc as nat, s@.skip(i as int), max as nat) == whole_number(
                s@,
                max as nat,
            ),
        decreases chars@.len() - i,
    {
        let c = chars[i];
        assert(s@.skip(i as int)[0] == c);
        assert(s@.skip(i as int).drop_first() =~= s@.skip(i + 1));
        if !('0' <= c && c <= '9') {
            return Err(IntError::InvalidDigit);
        }
        let next: u128 = acc as u128 * 10 + (c as u8 - 48) as u128;
        if next > max as u128 {
            return Err(IntError::TooLarge);
        }
        acc = next as u64;
        i += 1;
    }
    assert(s@.skip(i as int) =~= Seq::<char>::empty());
    Ok(acc)
}

/// A number written in decimal is read back as itself.
pub proof fn lemma_decimal_reads_back(n: nat, max: nat)
    requires
        n <= max,
    ensures
        whole_number(decimal(n), max) == Ok::<nat, IntError>(n),
{
    lemma_decimal_first(n);
    lemma_decimal_value(n, max);
}

proof fn lemma_decimal_first(n: nat)
    ensures
        decimal(n).len() > 0,
        is_digit(decimal(n)[0]),
    decreases n,
{
    if n >= 10 {
        lemma_decimal_first(n / 10);
    }
}

proof fn lemma_decimal_value(n: nat, max: nat)
    requires
        n <= max,
    ensures
        digits_value(0, decimal(n), max) == Ok::<nat, IntError>(n),
    decreases n,
{
    if n < 10 {
        assert(decimal(n).drop_first() =~= Seq::<char>::empty());
        assert(digits_value(n, Seq::<char>::empty(), max) == Ok::<nat, IntError>(n));
    } else {
        lemma_decimal_value(n / 10, max);
        let c = digit_char(n % 10);
        lemma_digits_push(0, decimal(n / 10), c, max);
        assert(seq![c].drop_first() =~= Seq::<char>::empty());
        assert(digits_value(n, Seq::<char>::empty(), max) == Ok::<nat, IntError>(n));
    }
}

proof fn lemma_digits_push(acc: nat, s: Seq<char>, c: char, max: nat)
    requires
        digits_value(acc, s, max) is Ok,
    ensures
        digits_value(acc, s.push(c), max) == digits_value(
            digits_value(acc, s, max)->Ok_0,
            seq![c],
            max,
        ),
    decreases s.len(),
{
    if s.len() == 0 {
        assert(s.push(c) =~= seq![c]);
    } else {
        let next = (acc * 10 + (s[0] as u32 - '0' as u32)) as nat;
        assert(s.push(c).drop_first() =~= s.drop_first().push(c));
        lemma_digits_push(next, s.drop_first(), c, max);
    }
}

/// White space is what Unicode gives the property `White_Space`, by code
/// point.
pub proof fn lemma_white_space_by_code_point(c: char)
    ensures
        is_space(c) <==> {
            let n = c as u32;
            ||| 9 <= n <= 13
            ||| n == 32
            ||| n == 133
            ||| n == 160
            ||| n == 5760
            ||| 8192 <= n <= 8202
            ||| n == 8232
            ||| n == 8233
            ||| n == 8239
            ||| n == 8287
            ||| n == 12288
        },
        is_control(c) <==> (c as u32) < 32 || 127 <= (c as u32) < 160,
{
}

/// Trimming takes away the white space at the two ends, all of it, and nothing
/// else: of a text that neither starts nor ends with white space, put between
/// two runs of it, trimming leaves the text.
pub proof fn lemma_trimming_ignores_the_ends(left: Seq<char>, s: Seq<char>, right: Seq<char>)
    requires
        forall|k: int| 0 <= k < left.len() ==> is_space(#[trigger] left[k]),
        forall|k: int| 0 <= k < right.len() ==> is_space(#[trigger] right[k]),
        s.len() > 0 ==> !is_space(s[0]) && !is_space(s[s.len() - 1]),
    ensures
        trimmed(left + s + right) == s,
    decreases left.len() + right.len(),
{
    let whole = left + s + right;
    if left.len() > 0 {
        assert(whole[0] == left[0]);
        assert(whole.drop_first() =~= left.drop_first() + s + right);
        assert forall|k: int| 0 <= k < left.drop_first().len() implies is_space(
            #[trigger] left.drop_first()[k],
        ) by {
            assert(left[k + 1] == left.drop_first()[k]);
        }
        lemma_trimming_ignores_the_ends(left.drop_first(), s, right);
    } else if right.len() > 0 {
        assert(whole.last() == right.last());
        if s.len() == 0 {
            assert(whole =~= right);
            assert(whole.drop_first() =~= left + s + right.drop_first());
            assert forall|k: int| 0 <= k < right.drop_first().len() implies is_space(
                #[trigger] right.drop_first()[k],
            ) by {
                assert(right[k + 1] == right.drop_first()[k]);
            }
            assert(is_space(right[0]));
            lemma_trimming_ignores_the_ends(left, s, right.drop_first());
        } else {
            assert(whole[0] == s[0]);
            assert(is_space(right[right.len() - 1]));
            assert(whole.drop_last() =~= left + s + right.drop_last());
            assert forall|k: int| 0 <= k < right.drop_last().len() implies is_space(
                #[trigger] right.drop_last()[k],
            ) by {
                assert(right[k] == right.drop_last()[k]);
            }
            lemma_trimming_ignores_the_ends(left, s, right.drop_last());
        }
    } else {
        assert(whole =~= s);
    }
}

/// Lowering maps the 26 capital letters to the small ones, and leaves every
/// other character where and what it was.
pub proof fn lemma_lowered_by_letter(s: Seq<char>, i: int)
    requires
        0 <= i < s.len(),
    ensures
        lowered(s).len() == s.len(),
        65 <= (s[i] as u32) <= 90 ==> (lowered(s)[i] as u32) == (s[i] as u32) + 32,
        !(65 <= (s[i] as u32) <= 90) ==> lowered(s)[i] == s[i],
{
}

/// A text holds another exactly where it can be cut into three parts, the
/// other in the middle.
pub proof fn lemma_occurs_is_a_cut<T>(left: Seq<T>, needle: Seq<T>, right: Seq<T>, hay: Seq<T>)
    ensures
        occurs_at(left + needle + right, needle, left.len() as int),
        occurs(left + needle + right, needle),
        occurs(hay, needle) ==> exists|a: Seq<T>, b: Seq<T>| hay == #[trigger] (a + needle + b),
{
    let whole = left + needle + right;
    assert(whole.subrange(left.len() as int, (left.len() + needle.len()) as int) =~= needle);
    assert(occurs_at(whole, needle, left.len() as int));
    if occurs(hay, needle) {
        let i = choose|i: int| #[trigger] occurs_at(hay, needle, i);
        let a = hay.take(i);
        let b = hay.skip(i + needle.len());
        assert(hay =~= a + needle + b);
    }
}

/// A text in which `from` does not stand is left as it is.
pub proof fn lemma_nothing_to_replace(s: Seq<char>, from: Seq<char>, to: Seq<char>)
    requires
        from.len() > 0,
        forall|a: Seq<char>, b: Seq<char>| s != #[trigger] (a + from + b),
    ensures
        replaced(s, from, to) == s,
    decreases s.len(),
{
    if s.len() > 0 {
        if occurs_at(s, from, 0) {
            assert(s =~= Seq::<char>::empty() + from + s.skip(from.len() as int));
        }
        let rest = s.drop_first();
        assert forall|a: Seq<char>, b: Seq<char>| rest != #[trigger] (a + from + b) by {
            if rest == a + from + b {
                assert(s =~= seq![s[0]] + rest);
                assert(seq![s[0]] + (a + from + b) =~= (seq![s[0]] + a) + from + b);
            }
        }
        lemma_nothing_to_replace(rest, from, to);
        assert(s =~= seq![s[0]] + rest);
    }
}

/// The first occurrence of `from` is replaced by `to`, what stands before it is
/// kept, and what stands after it is treated in the same way.
pub proof fn lemma_first_occurrence_is_replaced(
    before: Seq<char>,
    from: Seq<char>,
    after: Seq<char>,
    to: Seq<char>,
)
    requires
        from.len() > 0,
        forall|i: int, j: int|
            #![trigger (before + from + after).subrange(i, j)]
            0 <= i < before.len() && j == i + from.len() ==> (before + from + after).subrange(i, j)
                != from,
    ensures
        replaced(before + from + after, from, to) == before + to + replaced(after, from, to),
    decreases before.len(),
{
    let s = before + from + after;
    if before.len() == 0 {
        assert(s.subrange(0, from.len() as int) =~= from);
        assert(s.skip(from.len() as int) =~= after);
        assert(before + to =~= to);
    } else {
        let rest = before.drop_first();
        assert(s.subrange(0, 0int + from.len()) != from);
        assert(s.drop_first() =~= rest + from + after);
        assert forall|i: int, j: int|
            #![trigger (rest + from + after).subrange(i, j)]
            0 <= i < rest.len() && j == i + from.len() implies (rest + from + after).subrange(i, j)
            != from by {
            assert((rest + from + after).subrange(i, j) =~= s.subrange(i + 1, j + 1));
        }
        lemma_first_occurrence_is_replaced(rest, from, after, to);
        assert(before + to + replaced(after, from, to) =~= seq![s[0]] + (rest + to + replaced(
            after,
            from,
            to,
        )));
    }
}

/// Decimal text is the usual one: a digit stands for itself, and a number of
/// more digits ends in its last digit after the text of the others.
pub proof fn lemma_decimal_digit_by_digit(n: nat, d: nat)
    requires
        d < 10,
    ensures
        decimal(d).len() == 1,
        decimal(d)[0] as u32 == 48 + d,
        n > 0 ==> decimal(10 * n + d) == decimal(n) + decimal(d),
{
    if n > 0 {
        assert((10 * n + d) / 10 == n);
        assert((10 * n + d) % 10 == d);
        assert(decimal(10 * n + d) =~= decimal(n) + decimal(d));
    }
}

/// A number is read however it is padded: an optional `+`, any zeros, and its
/// decimal text give the number, or say that it is too large.
pub proof fn lemma_numbers_are_read(plus: bool, zeros: nat, n: nat, max: nat)
    ensures
        ({
            let digits = Seq::new(zeros, |i: int| '0') + decimal(n);
            let text = if plus {
                seq!['+'] + digits
            } else {
                digits
            };
            whole_number(text, max) == if n <= max {
                Ok::<nat, IntError>(n)
            } else {
                Err::<nat, IntError>(IntError::TooLarge)
            }
        }),
{
    let digits = Seq::new(zeros, |i: int| '0') + decimal(n);
    lemma_decimal_first(n);
    lemma_zeros_count_for_nothing(zeros, decimal(n), max);
    if n <= max {
        lemma_decimal_value(n, max);
    } else {
        lemma_decimal_too_large(n, max);
    }
    if plus {
        assert((seq!['+'] + digits).drop_first() =~= digits);
    } else {
        assert(digits[0] == '0' || digits[0] == decimal(n)[0]);
    }
}

proof fn lemma_zeros_count_for_nothing(zeros: nat, s: Seq<char>, max: nat)
    ensures
        digits_value(0, Seq::new(zeros, |i: int| '0') + s, max) == digits_value(0, s, max),
    decreases zeros,
{
    let padded = Seq::new(zeros, |i: int| '0') + s;
    if zeros == 0 {
        assert(padded =~= s);
    } else {
        assert(padded.drop_first() =~= Seq::new((zeros - 1) as nat, |i: int| '0') + s);
        lemma_zeros_count_for_nothing((zeros - 1) as nat, s, max);
    }
}

proof fn lemma_decimal_too_large(n: nat, max: nat)
    requires
        n > max,
    ensures
        digits_value(0, decimal(n), max) == Err::<nat, IntError>(IntError::TooLarge),
    decreases n,
{
    if n >= 10 {
        let c = digit_char(n % 10);
        if n / 10 <= max {
            lemma_decimal_value(n / 10, max);
            lemma_digits_push(0, decimal(n / 10), c, max);
        } else {
            lemma_decimal_too_large(n / 10, max);
            lemma_error_stays(0, decimal(n / 10), seq![c], max);
            assert(decimal(n / 10) + seq![c] =~= decimal(n / 10).push(c));
        }
    }
}

proof fn lemma_error_stays(acc: nat, s: Seq<char>, more: Seq<char>, max: nat)
    requires
        digits_value(acc, s, max) is Err,
    ensures
        digits_value(acc, s + more, max) == digits_value(acc, s, max),
    decreases s.len(),
{
    if is_digit(s[0]) {
        let next = (acc * 10 + (s[0] as u32 - '0' as u32)) as nat;
        if next <= max {
            assert((s + more).drop_first() =~= s.drop_first() + more);
            lemma_error_stays(next, s.drop_first(), more, max);
        }
    }
}

/// Nothing else is a number: an empty text, and a text with a character that
/// is no digit anywhere but for one `+` in front of a digit, is refused.
pub proof fn lemma_other_texts_are_no_numbers(s: Seq<char>, i: int, max: nat)
    ensures
        whole_number(s, max) == Err::<nat, IntError>(IntError::Empty) <==> s.len() == 0,
        s.len() == 1 && s[0] == '+' ==> whole_number(s, max) == Err::<nat, IntError>(
            IntError::InvalidDigit,
        ),
        0 <= i < s.len() && !(48 <= (s[i] as u32) <= 57) && !(i == 0 && s[0] == '+')
            ==> whole_number(s, max) is Err,
        whole_number(s, max) matches Ok(n) ==> n <= max,
{
    if s.len() > 0 {
        let digits = if s[0] == '+' {
            s.drop_first()
        } else {
            s
        };
        let at = if s[0] == '+' {
            i - 1
        } else {
            i
        };
        lemma_digits_only(0, digits, at, max);
        lemma_digits_only(0, digits, -1, max);
    }
}

proof fn lemma_digits_only(acc: nat, s: Seq<char>, i: int, max: nat)
    ensures
        0 <= i < s.len() && !(48 <= (s[i] as u32) <= 57) ==> digits_value(acc, s, max) is Err,
        digits_value(acc, s, max) matches Ok(n) ==> n <= max || (s.len() == 0 && n == acc),
        digits_value(acc, s, max) != Err::<nat, IntError>(IntError::Empty),
    decreases s.len(),
{
    if s.len() > 0 && is_digit(s[0]) {
        let next = (acc * 10 + (s[0] as u32 - '0' as u32)) as nat;
        if next <= max {
            lemma_digits_only(next, s.drop_first(), i - 1, max);
        }
    }
}

/// An empty pattern stands before every character and at the end.
pub proof fn lemma_empty_pattern_is_everywhere(c: char, s: Seq<char>, to: Seq<char>)
    ensures
        replaced(Seq::empty(), Seq::empty(), to) == to,
        replaced(seq![c] + s, Seq::empty(), to) == to + seq![c] + replaced(s, Seq::empty(), to),
{
    assert((seq![c] + s).drop_first() =~= s);
    assert(to.push(c) =~= to + seq![c]);
}

/// The control characters are those below 32 and those from 127 to 159.
pub proof fn lemma_control_by_code_point(c: char)
    ensures
        is_control(c) <==> (c as u32) < 32 || 127 <= (c as u32) < 160,
{
}

/// What is wrong with a text is what is wrong first: digits that give too large
/// a number are that, whatever follows them, and a number that fits is followed
/// by an invalid digit.
pub proof fn lemma_first_trouble_is_told(n: nat, c: char, rest: Seq<char>, max: nat)
    ensures
        n > max ==> whole_number(decimal(n) + rest, max) == Err::<nat, IntError>(
            IntError::TooLarge,
        ),
        n <= max && !(48 <= (c as u32) <= 57) ==> whole_number(decimal(n).push(c) + rest, max)
            == Err::<nat, IntError>(IntError::InvalidDigit),
        !(48 <= (c as u32) <= 57) && c != '+' ==> whole_number(seq![c] + rest, max) == Err::<
            nat,
            IntError,
        >(IntError::InvalidDigit),
        !(48 <= (c as u32) <= 57) ==> whole_number(seq!['+', c] + rest, max) == Err::<
            nat,
            IntError,
        >(IntError::InvalidDigit),
{
    let digits = decimal(n);
    assert((seq!['+', c] + rest).drop_first() =~= seq![c] + rest);
    lemma_decimal_first(n);
    assert((digits + rest)[0] == digits[0]);
    assert((digits.push(c) + rest)[0] == digits[0]);
    if n > max {
        lemma_decimal_too_large(n, max);
        lemma_error_stays(0, digits, rest, max);
    } else if !(48 <= (c as u32) <= 57) {
        lemma_decimal_value(n, max);
        lemma_digits_push(0, digits, c, max);
        lemma_error_stays(0, digits.push(c), rest, max);
    }
}

} // verus!

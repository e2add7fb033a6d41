//! Text: decimal and hexadecimal rendering, and the few string operations
//! that the assembler and the messages need.

use vstd::prelude::*;
use vstd::string::StringExecFns;

verus! {

/// `String::push` appends one character.
pub assume_specification[ String::push ](s: &mut String, c: char)
    ensures
        final(s)@ == old(s)@.push(c),
;

/// The decimal digit of value `d`.
pub open spec fn digit(d: int) -> char {
    (48 + d) as char
}

/// A natural number in decimal, without leading zeros.
pub open spec fn dec_nat(n: nat) -> Seq<char>
    decreases n,
{
    if n < 10 {
        seq![digit(n as int)]
    } else {
        dec_nat(n / 10).push(digit((n % 10) as int))
    }
}

/// An integer in decimal, with a leading minus when it is negative.
pub open spec fn dec(n: int) -> Seq<char> {
    if n < 0 {
        seq!['-'] + dec_nat((-n) as nat)
    } else {
        dec_nat(n as nat)
    }
}

/// The lower-case hexadecimal digit of value `d`.
pub open spec fn hex_digit(d: int) -> char {
    if d < 10 {
        (48 + d) as char
    } else {
        (87 + d) as char
    }
}

/// One byte as two lower-case hexadecimal digits.
pub open spec fn hex_byte(b: u8) -> Seq<char> {
    seq![hex_digit(b as int / 16), hex_digit(b as int % 16)]
}

/// Two lower-case hexadecimal digits for every byte.
pub open spec fn hex_text(bytes: Seq<u8>) -> Seq<char> {
    Seq::new(
        2 * bytes.len(),
        |i: int|
            if i % 2 == 0 {
                hex_digit(bytes[i / 2] as int / 16)
            } else {
                hex_digit(bytes[i / 2] as int % 16)
            },
    )
}

/// An owned copy of a piece of text.
pub fn text(s: &str) -> (r: String)
    ensures
        r@ == s@,
{
    s.to_owned()
}

/// Whether two pieces of text are the same.
pub fn same_text(a: &str, b: &str) -> (r: bool)
    ensures
        r == (a@ == b@),
{
    text(a) == text(b)
}

/// A number in decimal.
pub fn dec_u64(n: u64) -> (r: String)
    ensures
        r@ == dec(n as int),
    decreases n,
{
    if n < 10 {
        let mut s = String::new();
        s.push((48u8 + n as u8) as char);
        assert(s@ =~= seq![digit(n as int)]);
        s
    } else {
        let mut s = dec_u64(n / 10);
        s.push((48u8 + (n % 10) as u8) as char);
        s
    }
}

/// A length or an index in decimal.
pub fn dec_usize(n: usize) -> (r: String)
    ensures
        r@ == dec(n as int),
{
    dec_u64(n as u64)
}

/// A signed number in decimal.
pub fn dec_i64(n: i64) -> (r: String)
    ensures
        r@ == dec(n as int),
{
    if n < 0 {
        let magnitude: u64 = (-(n + 1)) as u64 + 1;
        let mut s = String::new();
        s.push('-');
        assert(s@ =~= seq!['-']);
        s.concat(dec_u64(magnitude).as_str())
    } else {
        dec_u64(n as u64)
    }
}

/// One byte as two hexadecimal digits.
pub fn hex_u8(b: u8) -> (r: String)
    ensures
        r@ == hex_byte(b),
{
    let mut s = String::new();
    s.push(hex_digit_char(b / 16));
    s.push(hex_digit_char(b % 16));
    assert(s@ =~= hex_byte(b));
    s
}

fn hex_digit_char(d: u8) -> (r: char)
    requires
        d < 16,
    ensures
        r == hex_digit(d as int),
{
    if d < 10 {
        (48u8 + d) as char
    } else {
        (87u8 + d) as char
    }
}

/// The upper-case form of an ASCII letter; any other character stays.
pub open spec fn ascii_upper(c: char) -> char {
    if 'a' <= c && c <= 'z' {
        (c as int - 32) as char
    } else {
        c
    }
}

/// Text with its ASCII letters in upper case.
pub open spec fn upper(s: Seq<char>) -> Seq<char> {
    s.map_values(|c: char| ascii_upper(c))
}

/// The characters with Unicode's White_Space property.
pub open spec fn is_white(c: char) -> bool {
    let u = c as u32;
    ||| 0x09 <= u <= 0x0d
    ||| u == 0x20
    ||| u == 0x85
    ||| u == 0xa0
    ||| u == 0x1680
    ||| 0x2000 <= u <= 0x200a
    ||| u == 0x2028
    ||| u == 0x2029
    ||| u == 0x202f
    ||| u == 0x205f
    ||| u == 0x3000
}

/// Text without the white space in front.
pub open spec fn trim_front(s: Seq<char>) -> Seq<char>
    decreases s.len(),
{
    if s.len() > 0 && is_white(s[0]) {
        trim_front(s.drop_first())
    } else {
        s
    }
}

/// Text without the white space behind.
pub open spec fn trim_back(s: Seq<char>) -> Seq<char>
    decreases s.len(),
{
    if s.len() > 0 && is_white(s.last()) {
        trim_back(s.drop_last())
    } else {
        s
    }
}

/// Text without the white space at either end.
pub open spec fn trimmed(s: Seq<char>) -> Seq<char> {
    trim_back(trim_front(s))
}

/// Text without one leading `0x`.
pub open spec fn without_0x(s: Seq<char>) -> Seq<char> {
    if s.len() >= 2 && s[0] == '0' && s[1] == 'x' {
        s.skip(2)
    } else {
        s
    }
}

/// The characters of a piece of text.
pub fn chars_of(s: &str) -> (r: Vec<char>)
    ensures
        r@ == s@,
{
    let mut out: Vec<char> = Vec::new();
    for c in it: s.chars()
        invariant
            it.seq() == s@,
            out@ == s@.take(it.index() as int),
    {
        out.push(c);
    }
    assert(s@.take(s@.len() as int) =~= s@);
    out
}

/// The text of the characters from `from` up to `to`.
pub fn text_of(chars: &Vec<char>, from: usize, to: usize) -> (r: String)
    requires
        from <= to <= chars@.len(),
    ensures
        r@ == chars@.subrange(from as int, to as int),
{
    let mut out = String::new();
    let mut i: usize = from;
    assert(chars@.subrange(from as int, from as int) =~= Seq::<char>::empty());
    while i < to
        invariant
            from <= i <= to <= chars@.len(),
            out@ == chars@.subrange(from as int, i as int),
        decreases to - i,
    {
        out.push(chars[i]);
        i = i + 1;
        assert(chars@.subrange(from as int, i as int) =~= chars@.subrange(
            from as int,
            i - 1,
        ).push(chars@[i - 1]));
    }
    out
}

/// Whether a character is white space.
pub fn is_whitespace(c: char) -> (r: bool)
    ensures
        r == is_white(c),
{
    let u: u32 = c as u32;
    (0x09 <= u && u <= 0x0d) || u == 0x20 || u == 0x85 || u == 0xa0 || u == 0x1680 || (0x2000 <= u
        && u <= 0x200a) || u == 0x2028 || u == 0x2029 || u == 0x202f || u == 0x205f || u == 0x3000
}

/// Text with its ASCII letters in upper case.
pub fn to_upper(s: &str) -> (r: String)
    ensures
        r@ == upper(s@),
{
    let chars = chars_of(s);
    let mut out = String::new();
    let mut i: usize = 0;
    while i < chars.len()
        invariant
            i <= chars@.len(),
            chars@ == s@,
            out@ =~= upper(s@.take(i as int)),
        decreases chars@.len() - i,
    {
        let c = chars[i];
        if 'a' <= c && c <= 'z' {
            out.push((c as u8 - 32) as char);
        } else {
            out.push(c);
        }
        i = i + 1;
    }
    assert(s@.take(s@.len() as int) =~= s@);
    out
}

/// Whether text begins with `prefix`.
pub fn starts_with(s: &str, prefix: &str) -> (r: bool)
    ensures
        r == prefix@.is_prefix_of(s@),
{
    let a = chars_of(s);
    let b = chars_of(prefix);
    if b.len() > a.len() {
        return false;
    }
    let mut i: usize = 0;
    while i < b.len()
        invariant
            i <= b@.len() <= a@.len(),
            a@ == s@,
            b@ == prefix@,
            forall|j: int| 0 <= j < i ==> a@[j] == b@[j],
        decreases b@.len() - i,
    {
        if a[i] != b[i] {
            assert(s@.take(b@.len() as int)[i as int] != prefix@[i as int]);
            return false;
        }
        i = i + 1;
    }
    assert(s@.take(b@.len() as int) =~= prefix@);
    true
}

proof fn lemma_trim_front_skip(s: Seq<char>, i: int)
    requires
        0 <= i <= s.len(),
        forall|j: int| 0 <= j < i ==> is_white(#[trigger] s[j]),
    ensures
        trim_front(s) == trim_front(s.skip(i)),
    decreases i,
{
    if i > 0 {
        lemma_trim_front_skip(s, i - 1);
        assert(s.skip(i - 1)[0] == s[i - 1]);
        assert(s.skip(i - 1).drop_first() =~= s.skip(i));
    } else {
        assert(s.skip(0) =~= s);
    }
}

proof fn lemma_trim_back_take(s: Seq<char>, i: int)
    requires
        0 <= i <= s.len(),
        forall|j: int| i <= j < s.len() ==> is_white(#[trigger] s[j]),
    ensures
        trim_back(s) == trim_back(s.take(i)),
    decreases s.len() - i,
{
    if i < s.len() {
        lemma_trim_back_take(s, i + 1);
        assert(s.take(i + 1).last() == s[i]);
        assert(s.take(i + 1).drop_last() =~= s.take(i));
    } else {
        assert(s.take(i) =~= s);
    }
}

/// Text without the white space at either end.
pub fn trim(s: &str) -> (r: String)
    ensures
        r@ == trimmed(s@),
{
    let chars = chars_of(s);
    let mut a: usize = 0;
    while a < chars.len() && is_whitespace(chars[a])
        invariant
            a <= chars@.len(),
            chars@ == s@,
            forall|j: int| 0 <= j < a ==> is_white(#[trigger] s@[j]),
        decreases chars@.len() - a,
    {
        a = a + 1;
    }
    let mut b: usize = chars.len();
    while b > a && is_whitespace(chars[b - 1])
        invariant
            a <= b <= chars@.len(),
            chars@ == s@,
            forall|j: int| b <= j < s@.len() ==> is_white(#[trigger] s@[j]),
        decreases b,
    {
        b = b - 1;
    }
    proof {
        lemma_trim_front_skip(s@, a as int);
        let t = s@.skip(a as int);
        assert(trim_front(t) == t);
        assert forall|j: int| b - a <= j < t.len() implies is_white(#[trigger] t[j]) by {
            assert(t[j] == s@[a + j]);
        }
        lemma_trim_back_take(t, b - a);
        assert(t.take(b - a) =~= s@.subrange(a as int, b as int));
        let u = s@.subrange(a as int, b as int);
        assert(trim_back(u) == u);
    }
    text_of(&chars, a, b)
}

/// Text without one leading `0x`.
pub fn strip_0x(s: &str) -> (r: String)
    ensures
        r@ == without_0x(s@),
{
    let chars = chars_of(s);
    if chars.len() >= 2 && chars[0] == '0' && chars[1] == 'x' {
        assert(s@.skip(2) =~= s@.subrange(2, s@.len() as int));
        text_of(&chars, 2, chars.len())
    } else {
        text(s)
    }
}

/// The value of a run of decimal digits.
pub open spec fn digits_value(s: Seq<char>) -> nat
    decreases s.len(),
{
    if s.len() == 0 {
        0
    } else {
        (10 * digits_value(s.drop_last()) + (s.last() as int - '0' as int)) as nat
    }
}

/// Every character is a decimal digit.
pub open spec fn all_digits(s: Seq<char>) -> bool {
    forall|i: int| 0 <= i < s.len() ==> '0' <= #[trigger] s[i] <= '9'
}

/// The signed 64-bit number that a decimal text means: an optional sign, then
/// at least one digit, and a value in range.
pub open spec fn parsed_i64(s: Seq<char>) -> Option<int> {
    let signed = s.len() > 0 && (s[0] == '-' || s[0] == '+');
    let digits = if signed {
        s.skip(1)
    } else {
        s
    };
    let value = if signed && s[0] == '-' {
        -(digits_value(digits) as int)
    } else {
        digits_value(digits) as int
    };
    if digits.len() > 0 && all_digits(digits) && i64::MIN <= value <= i64::MAX {
        Some(value)
    } else {
        None
    }
}

proof fn lemma_digits_value_grows(s: Seq<char>, i: int)
    requires
        0 <= i <= s.len(),
        all_digits(s),
    ensures
        digits_value(s.take(i)) <= digits_value(s),
    decreases s.len() - i,
{
    if i < s.len() {
        assert(s.take(i + 1).drop_last() =~= s.take(i));
        assert(s.take(i + 1).last() == s[i]);
        lemma_digits_value_grows(s, i + 1);
    } else {
        assert(s.take(i) =~= s);
    }
}

/// The value of a run of digits, unless it has another character or is over
/// 2^63.
fn parse_digits(s: &Vec<char>, from: usize) -> (r: Option<u64>)
    requires
        from <= s@.len(),
    ensures
        ({
            let digits = s@.skip(from as int);
            r == if all_digits(digits) && digits_value(digits) <= 0x8000_0000_0000_0000 {
                Some(digits_value(digits) as u64)
            } else {
                None
            }
        }),
{
    let ghost digits = s@.skip(from as int);
    let mut acc: u64 = 0;
    let mut i: usize = from;
    assert(digits.take(0) =~= Seq::<char>::empty());
    while i < s.len()
        invariant
            from <= i <= s@.len(),
            digits == s@.skip(from as int),
            all_digits(digits.take(i - from)),
            acc == digits_value(digits.take(i - from)),
            acc <= 0x8000_0000_0000_0000,
        decreases s@.len() - i,
    {
        let c = s[i];
        assert(digits[i - from] == c);
        if !('0' <= c && c <= '9') {
            return None;
        }
        let d: u64 = (c as u32 - '0' as u32) as u64;
        proof {
            let t = digits.take(i + 1 - from);
            assert(t.drop_last() =~= digits.take(i - from));
            assert(t.last() == c);
            assert forall|k: int| 0 <= k < t.len() implies '0' <= #[trigger] t[k] <= '9' by {
                if k < t.len() - 1 {
                    assert(t[k] == digits.take(i - from)[k]);
                }
            }
            if all_digits(digits) {
                lemma_digits_value_grows(digits, i + 1 - from);
            }
        }
        if acc > (0x8000_0000_0000_0000 - d) / 10 {
            return None;
        }
        acc = acc * 10 + d;
        i = i + 1;
    }
    assert(digits.take(digits.len() as int) =~= digits);
    Some(acc)
}

/// Read a decimal signed number, as std's `str::parse::<i64>` does.
pub fn parse_i64(s: &str) -> (r: Option<i64>)
    ensures
        match r {
            Some(n) => parsed_i64(s@) == Some(n as int),
            None => parsed_i64(s@) is None,
        },
{
    let chars = chars_of(s);
    if chars.len() == 0 {
        return None;
    }
    let signed = chars[0] == '-' || chars[0] == '+';
    let negative = chars[0] == '-';
    let from: usize = if signed {
        1
    } else {
        0
    };
    assert(s@.skip(0) =~= s@);
    if from == chars.len() {
        return None;
    }
    match parse_digits(&chars, from) {
        None => None,
        Some(v) => if negative {
            if v == 0x8000_0000_0000_0000 {
                Some(i64::MIN)
            } else {
                Some(-(v as i64))
            }
        } else if v == 0x8000_0000_0000_0000 {
            None
        } else {
            Some(v as i64)
        },
    }
}

/// The views of bytes or of a message.
pub open spec fn bytes_or_message(r: Result<Vec<u8>, String>) -> Result<Seq<u8>, Seq<char>> {
    match r {
        Ok(b) => Ok(b@),
        Err(e) => Err(e@),
    }
}

/// What a decimal text looks like: digits without needless zeros in front, and
/// the value that they stand for.
proof fn lemma_dec_nat(n: nat)
    ensures
        dec_nat(n).len() > 0,
        all_digits(dec_nat(n)),
        digits_value(dec_nat(n)) == n,
        n > 0 ==> dec_nat(n)[0] != '0',
        n < 10 ==> dec_nat(n).len() == 1,
    decreases n,
{
    reveal_with_fuel(digits_value, 2);
    let s = dec_nat(n);
    if n >= 10 {
        lemma_dec_nat(n / 10);
        assert(s.drop_last() =~= dec_nat(n / 10));
        assert forall|i: int| 0 <= i < s.len() implies '0' <= #[trigger] s[i] <= '9' by {
            if i < s.len() - 1 {
                assert(s[i] == dec_nat(n / 10)[i]);
            }
        }
        assert(s[0] == dec_nat(n / 10)[0]);
    } else {
        assert(s.drop_last() =~= Seq::empty());
    }
}

/// Reading the decimal text of a number gives the number back.
pub proof fn law_decimal_roundtrip(v: int)
    requires
        i64::MIN <= v <= i64::MAX,
    ensures
        parsed_i64(dec(v)) == Some(v),
{
    if v < 0 {
        lemma_dec_nat((-v) as nat);
        assert(dec(v).skip(1) =~= dec_nat((-v) as nat));
    } else {
        lemma_dec_nat(v as nat);
        assert(dec(v)[0] == dec_nat(v as nat)[0]);
    }
}

/// The form of a decimal text: a digit or a minus in front, digits behind, and
/// no needless zeros.
pub proof fn lemma_dec_form(v: int)
    ensures
        ({
            let s = dec(v);
            &&& s.len() > 0
            &&& forall|i: int| 0 <= i < s.len() ==> '0' <= #[trigger] s[i] <= '9' || s[i] == '-'
            &&& '0' <= s.last() <= '9'
            &&& s.len() > 1 ==> s[0] != '0'
            &&& s[0] == '-' ==> s.len() > 1 && s[1] != '0'
        }),
{
    let s = dec(v);
    if v < 0 {
        let d = dec_nat((-v) as nat);
        lemma_dec_nat((-v) as nat);
        assert forall|i: int| 0 <= i < s.len() implies '0' <= #[trigger] s[i] <= '9' || s[i]
            == '-' by {
            if i > 0 {
                assert(s[i] == d[i - 1]);
            }
        }
        assert(s.last() == d[d.len() - 1]);
        assert(s[1] == d[0]);
    } else {
        lemma_dec_nat(v as nat);
    }
}

/// Text without white space at its ends is trimmed already.
pub proof fn lemma_trimmed_already(s: Seq<char>)
    requires
        s.len() > 0 ==> !is_white(s[0]) && !is_white(s.last()),
    ensures
        trimmed(s) == s,
{
}

/// Hexadecimal text is trimmed and has no `0x` in front.
pub proof fn lemma_hex_text_is_bare(b: Seq<u8>)
    ensures
        trimmed(hex_text(b)) == hex_text(b),
        without_0x(hex_text(b)) == hex_text(b),
{
    let s = hex_text(b);
    if b.len() > 0 {
        assert(s[1] == hex_digit(b[0] as int % 16));
        assert(s[0] == hex_digit(b[0] as int / 16));
        assert(s.last() == hex_digit(b[b.len() - 1] as int % 16));
    }
    lemma_trimmed_already(s);
}

/// White space among the ASCII characters is the space and the five controls
/// from the tab to the carriage return; the others are not.
pub proof fn law_ascii_white_space(c: char)
    requires
        (c as u32) < 128,
    ensures
        is_white(c) <==> c == ' ' || c == '\t' || c == '\n' || c == '\r' || c as u32 == 11 || c as u32
            == 12,
{
}

/// Trimming takes exactly the white space around a text off, and none inside.
pub proof fn law_trimming(before: Seq<char>, s: Seq<char>, after: Seq<char>)
    requires
        forall|i: int| 0 <= i < before.len() ==> is_white(#[trigger] before[i]),
        forall|i: int| 0 <= i < after.len() ==> is_white(#[trigger] after[i]),
        s.len() > 0 ==> !is_white(s[0]) && !is_white(s.last()),
    ensures
        s.len() > 0 ==> trimmed(before + s + after) == s,
        trimmed(before).len() == 0,
{
    lemma_trim_front_all(before, Seq::empty());
    assert(before + Seq::<char>::empty() =~= before);
    if s.len() > 0 {
        assert((s + after)[0] == s[0]);
        lemma_trim_front_all(before, s + after);
        assert(before + (s + after) =~= before + s + after);
        lemma_trim_back_all(s, after);
    }
}

proof fn lemma_trim_front_all(before: Seq<char>, rest: Seq<char>)
    requires
        forall|i: int| 0 <= i < before.len() ==> is_white(#[trigger] before[i]),
        rest.len() > 0 ==> !is_white(rest[0]),
    ensures
        trim_front(before + rest) == rest,
    decreases before.len(),
{
    if before.len() == 0 {
        assert(before + rest =~= rest);
    } else {
        assert((before + rest)[0] == before[0]);
        assert((before + rest).drop_first() =~= before.drop_first() + rest);
        lemma_trim_front_all(before.drop_first(), rest);
    }
}

proof fn lemma_trim_back_all(s: Seq<char>, after: Seq<char>)
    requires
        forall|i: int| 0 <= i < after.len() ==> is_white(#[trigger] after[i]),
        s.len() > 0 ==> !is_white(s.last()),
    ensures
        trim_back(s + after) == s,
    decreases after.len(),
{
    if after.len() == 0 {
        assert(s + after =~= s);
    } else {
        assert((s + after).last() == after[after.len() - 1]);
        assert((s + after).drop_last() =~= s + after.drop_last());
        lemma_trim_back_all(s, after.drop_last());
    }
}

/// Upper case moves the 26 letters and nothing else, and doing it again changes
/// nothing.
pub proof fn law_upper_case(s: Seq<char>, i: int)
    requires
        0 <= i < s.len(),
    ensures
        upper(s).len() == s.len(),
        'a' <= s[i] <= 'z' ==> upper(s)[i] as int == s[i] as int - 32,
        !('a' <= s[i] <= 'z') ==> upper(s)[i] == s[i],
        upper(upper(s)) == upper(s),
{
    assert(upper(upper(s)) =~= upper(s));
}

/// What reads as a number is digits behind at most one sign.
pub proof fn law_numbers_are_digits(s: Seq<char>, i: int)
    requires
        parsed_i64(s) is Some,
        0 <= i < s.len(),
    ensures
        '0' <= s[i] <= '9' || (i == 0 && s.len() > 1 && (s[0] == '-' || s[0] == '+')),
        i64::MIN <= parsed_i64(s)->0 <= i64::MAX,
{
    if s[0] == '-' || s[0] == '+' {
        if i > 0 {
            assert(s.skip(1)[i - 1] == s[i]);
        }
    }
}

/// A plus in front of a number changes nothing, and a zero in front neither.
pub proof fn law_signs_and_zeros(v: int)
    requires
        0 <= v <= i64::MAX,
    ensures
        parsed_i64(seq!['+'] + dec(v)) == Some(v),
        parsed_i64(seq!['0'] + dec(v)) == Some(v),
        parsed_i64(seq!['-'] + dec(v)) == Some(-v),
        parsed_i64(Seq::empty()) is None,
        parsed_i64(seq!['-']) is None,
        parsed_i64(seq!['+']) is None,
{
    let d = dec(v);
    lemma_dec_nat(v as nat);
    assert((seq!['+'] + d).skip(1) =~= d);
    assert((seq!['-'] + d).skip(1) =~= d);
    let z = seq!['0'] + d;
    lemma_leading_zero(d);
    assert forall|i: int| 0 <= i < z.len() implies '0' <= #[trigger] z[i] <= '9' by {
        if i > 0 {
            assert(z[i] == d[i - 1]);
        }
    }
    assert(seq!['-'].skip(1) =~= Seq::empty());
    assert(seq!['+'].skip(1) =~= Seq::empty());
}

proof fn lemma_leading_zero(d: Seq<char>)
    requires
        all_digits(d),
    ensures
        digits_value(seq!['0'] + d) == digits_value(d),
    decreases d.len(),
{
    let z = seq!['0'] + d;
    if d.len() == 0 {
        assert(z.drop_last() =~= Seq::empty());
        assert(z.last() == '0');
        assert(digits_value(z.drop_last()) == 0);
    } else {
        assert(z.drop_last() =~= seq!['0'] + d.drop_last());
        assert(z.last() == d.last());
        assert forall|i: int| 0 <= i < d.drop_last().len() implies '0' <= #[trigger] d.drop_last()[i]
            <= '9' by {
            assert(d.drop_last()[i] == d[i]);
        }
        lemma_leading_zero(d.drop_last());
    }
}

} // verus!

//! Character-level text utilities shared by the protocol parsers: building
//! strings, prefix tests, Unicode whitespace trimming, decimal printing and
//! the integer parsing rules of `str::parse`.

use vstd::prelude::*;

verus! {

broadcast use vstd::string::group_string_axioms;

// ---------------------------------------------------------------------------
// Building strings
// ---------------------------------------------------------------------------

/// Appends one character to a string (`String::push`).
#[verifier::external_body]
pub fn push_char(s: &mut String, c: char)
    ensures
        final(s)@ == old(s)@.push(c),
{
    s.push(c);
}

/// The characters of a string slice, in order.
pub fn chars_of(s: &str) -> (v: Vec<char>)
    ensures
        v@ == s@,
{
    let mut v: Vec<char> = Vec::new();
    for c in it: s.chars()
        invariant
            v@ == it.seq().take(it.index() as int),
    {
        v.push(c);
    }
    v
}

/// A string holding the characters `chars[from..to]`.
pub fn string_from_range(chars: &Vec<char>, from: usize, to: usize) -> (s: String)
    requires
        from <= to <= chars@.len(),
    ensures
        s@ == chars@.subrange(from as int, to as int),
{
    let mut s = String::new();
    let mut i = from;
    while i < to
        invariant
            from <= i <= to <= chars@.len(),
            s@ == chars@.subrange(from as int, i as int),
        decreases to - i,
    {
        push_char(&mut s, chars[i]);
        assert(chars@.subrange(from as int, i + 1) == chars@.subrange(from as int, i as int).push(
            chars@[i as int],
        ));
        i += 1;
    }
    s
}

/// A string holding all of `chars`.
pub fn string_from_chars(chars: &Vec<char>) -> (s: String)
    ensures
        s@ == chars@,
{
    let s = string_from_range(chars, 0, chars.len());
    assert(chars@.subrange(0, chars@.len() as int) == chars@);
    s
}

// ---------------------------------------------------------------------------
// Prefixes and searching
// ---------------------------------------------------------------------------

/// `s` begins with `p`.
pub open spec fn starts_with(s: Seq<char>, p: Seq<char>) -> bool {
    p.len() <= s.len() && s.take(p.len() as int) == p
}

/// Whether `chars[start..]` begins with `prefix`.
pub fn starts_with_at(chars: &Vec<char>, start: usize, prefix: &[char]) -> (b: bool)
    requires
        start <= chars@.len(),
    ensures
        b == starts_with(chars@.skip(start as int), prefix@),
        b ==> start + prefix@.len() <= chars.len(),
{
    if prefix.len() > chars.len() - start {
        return false;
    }
    let mut i: usize = 0;
    while i < prefix.len()
        invariant
            start + prefix@.len() <= chars.len(),
            0 <= i <= prefix@.len(),
            forall|k: int| 0 <= k < i ==> chars@[start + k] == prefix@[k],
        decreases prefix.len() - i,
    {
        assert(start + i < chars@.len());
        if chars[start + i] != prefix[i] {
            assert(chars@.skip(start as int).take(prefix@.len() as int)[i as int] != prefix@[i as int]);
            return false;
        }
        i += 1;
    }
    assert(chars@.skip(start as int).take(prefix@.len() as int) =~= prefix@);
    true
}

/// The first index at or after `from` where `s` holds `c`, if any.
pub open spec fn find_char_from(s: Seq<char>, c: char, from: int) -> Option<int>
    decreases s.len() - from,
{
    if from < 0 || from >= s.len() {
        None
    } else if s[from] == c {
        Some(from)
    } else {
        find_char_from(s, c, from + 1)
    }
}

/// A found index holds the character, and nothing between holds it.
pub proof fn lemma_find_char_from(s: Seq<char>, c: char, from: int)
    requires
        0 <= from,
    ensures
        find_char_from(s, c, from) matches Some(i) ==> from <= i < s.len() && s[i] == c && (
        forall|k: int| from <= k < i ==> s[k] != c),
        find_char_from(s, c, from) is None ==> forall|k: int| from <= k < s.len() ==> s[k] != c,
    decreases s.len() - from,
{
    if from < s.len() && s[from] != c {
        lemma_find_char_from(s, c, from + 1);
    }
}

/// Searching a suffix finds what searching the whole text finds, shifted.
pub proof fn lemma_find_char_skip(s: Seq<char>, c: char, off: int, k: int)
    requires
        0 <= off <= s.len(),
        0 <= k,
    ensures
        find_char_from(s.skip(off), c, k) == (match find_char_from(s, c, k + off) {
            Some(i) => Some(i - off),
            None => None,
        }),
    decreases s.len() - off - k,
{
    if k < s.len() - off && s.skip(off)[k] != c {
        lemma_find_char_skip(s, c, off, k + 1);
    }
}

/// A copy of `chars[from..]`.
pub fn chars_from(chars: &Vec<char>, from: usize) -> (v: Vec<char>)
    requires
        from <= chars@.len(),
    ensures
        v@ == chars@.skip(from as int),
{
    let mut v: Vec<char> = Vec::new();
    let mut i = from;
    while i < chars.len()
        invariant
            from <= i <= chars@.len(),
            v@ == chars@.subrange(from as int, i as int),
        decreases chars.len() - i,
    {
        v.push(chars[i]);
        assert(chars@.subrange(from as int, i + 1) == chars@.subrange(from as int, i as int).push(
            chars@[i as int],
        ));
        i += 1;
    }
    assert(chars@.subrange(from as int, chars@.len() as int) == chars@.skip(from as int));
    v
}

/// A copy of `chars[from..to]`.
pub fn chars_range(chars: &Vec<char>, from: usize, to: usize) -> (v: Vec<char>)
    requires
        from <= to <= chars@.len(),
    ensures
        v@ == chars@.subrange(from as int, to as int),
{
    let mut v: Vec<char> = Vec::new();
    let mut i = from;
    while i < to
        invariant
            from <= i <= to <= chars@.len(),
            v@ == chars@.subrange(from as int, i as int),
        decreases to - i,
    {
        v.push(chars[i]);
        assert(chars@.subrange(from as int, i + 1) == chars@.subrange(from as int, i as int).push(
            chars@[i as int],
        ));
        i += 1;
    }
    v
}

/// Whether `chars[from..]` equals `other`.
pub fn rest_equals(chars: &Vec<char>, from: usize, other: &Vec<char>) -> (b: bool)
    requires
        from <= chars@.len(),
    ensures
        b == (chars@.skip(from as int) == other@),
{
    if chars.len() - from != other.len() {
        assert(chars@.skip(from as int).len() != other@.len());
        return false;
    }
    let mut i: usize = 0;
    while i < other.len()
        invariant
            from + other@.len() == chars.len(),
            0 <= i <= other@.len(),
            forall|k: int| 0 <= k < i ==> chars@[from + k] == other@[k],
        decreases other.len() - i,
    {
        if chars[from + i] != other[i] {
            assert(chars@.skip(from as int)[i as int] != other@[i as int]);
            return false;
        }
        i += 1;
    }
    assert(chars@.skip(from as int) =~= other@);
    true
}

/// The first index at or after `from` where `chars` holds `c`, if any.
pub fn find_char(chars: &Vec<char>, c: char, from: usize) -> (r: Option<usize>)
    ensures
        r matches Some(i) ==> i < chars.len() && find_char_from(chars@, c, from as int) == Some(
            i as int,
        ),
        r is None ==> find_char_from(chars@, c, from as int) is None,
{
    let mut i = from;
    while i < chars.len()
        invariant
            from <= i,
            find_char_from(chars@, c, from as int) == find_char_from(chars@, c, i as int),
        decreases chars.len() - i,
    {
        if chars[i] == c {
            return Some(i);
        }
        i += 1;
    }
    None
}

// ---------------------------------------------------------------------------
// Unicode whitespace and trimming
// ---------------------------------------------------------------------------

/// The Unicode `White_Space` property, as tested by `char::is_whitespace`.
pub open spec fn is_ws(c: char) -> bool {
    let u = c as u32;
    ||| 0x09 <= u <= 0x0d
    ||| u == 0x20
    ||| u == 0x85
    ||| u == 0xa0
    ||| u == 0x1680
    ||| 0x2000 <= u <= 0x200a
    ||| u == 0x2028
    ||| u == 0x2029
    ||| u == 0x202f
    ||| u == 0x205f
    ||| u == 0x3000
}

/// Whether `c` is Unicode whitespace.
pub fn is_whitespace(c: char) -> (b: bool)
    ensures
        b == is_ws(c),
{
    let u = c as u32;
    (0x09 <= u && u <= 0x0d) || u == 0x20 || u == 0x85 || u == 0xa0 || u == 0x1680 || (0x2000
        <= u && u <= 0x200a) || u == 0x2028 || u == 0x2029 || u == 0x202f || u == 0x205f || u
        == 0x3000
}

/// The index of the first non-whitespace character at or after `i` (or the end).
pub open spec fn skip_ws_from(s: Seq<char>, i: int) -> int
    decreases s.len() - i,
{
    if i < 0 || i >= s.len() {
        if i < 0 { 0 } else { i }
    } else if is_ws(s[i]) {
        skip_ws_from(s, i + 1)
    } else {
        i
    }
}

/// Walking back from `j` over whitespace, but not below `lo`.
pub open spec fn trim_back_to(s: Seq<char>, lo: int, j: int) -> int
    decreases j - lo,
{
    if j <= lo {
        lo
    } else if is_ws(s[j - 1]) {
        trim_back_to(s, lo, j - 1)
    } else {
        j
    }
}

/// `str::trim`: the text with leading and trailing whitespace removed.
pub open spec fn trim(s: Seq<char>) -> Seq<char> {
    let a = skip_ws_from(s, 0);
    s.subrange(a, trim_back_to(s, a, s.len() as int))
}

pub proof fn lemma_skip_ws_bounds(s: Seq<char>, i: int)
    requires
        0 <= i,
    ensures
        i <= skip_ws_from(s, i) || (i > s.len() && skip_ws_from(s, i) == i),
        i <= s.len() ==> skip_ws_from(s, i) <= s.len(),
    decreases s.len() - i,
{
    if i < s.len() && is_ws(s[i]) {
        lemma_skip_ws_bounds(s, i + 1);
    }
}

pub proof fn lemma_trim_back_bounds(s: Seq<char>, lo: int, j: int)
    requires
        lo <= j,
    ensures
        lo <= trim_back_to(s, lo, j) <= j,
    decreases j - lo,
{
    if j > lo && is_ws(s[j - 1]) {
        lemma_trim_back_bounds(s, lo, j - 1);
    }
}

/// The bounds `(a, b)` such that `chars[a..b]` is the trimmed text.
pub fn trim_bounds(chars: &Vec<char>) -> (r: (usize, usize))
    ensures
        r.0 <= r.1 <= chars@.len(),
        r.0 == skip_ws_from(chars@, 0),
        r.1 == trim_back_to(chars@, r.0 as int, chars@.len() as int),
        chars@.subrange(r.0 as int, r.1 as int) == trim(chars@),
{
    let mut a: usize = 0;
    while a < chars.len() && is_whitespace(chars[a])
        invariant
            a <= chars@.len(),
            skip_ws_from(chars@, 0) == skip_ws_from(chars@, a as int),
        decreases chars.len() - a,
    {
        a += 1;
    }
    let mut b: usize = chars.len();
    while b > a && is_whitespace(chars[b - 1])
        invariant
            a <= b <= chars@.len(),
            a == skip_ws_from(chars@, 0),
            trim_back_to(chars@, a as int, chars@.len() as int) == trim_back_to(
                chars@,
                a as int,
                b as int,
            ),
        decreases b - a,
    {
        b -= 1;
    }
    (a, b)
}

// ---------------------------------------------------------------------------
// Decimal numbers
// ---------------------------------------------------------------------------

/// The ASCII digit for `d` (`d < 10`).
pub open spec fn digit_char(d: nat) -> char {
    (d + 48) as char
}

/// The decimal representation of `n`, as `Display` writes it.
pub open spec fn dec(n: nat) -> Seq<char>
    decreases n,
{
    if n < 10 {
        seq![digit_char(n)]
    } else {
        dec(n / 10).push(digit_char(n % 10))
    }
}

/// The shape of a decimal text: one digit below ten, otherwise the text of
/// the tens followed by the last digit.
pub proof fn lemma_dec_digits(n: nat)
    ensures
        dec(n).len() >= 1,
        n < 10 <==> dec(n).len() == 1,
        dec(n).last() == digit_char(n % 10),
        n >= 10 ==> dec(n).drop_last() == dec(n / 10),
    decreases n,
{
    if n >= 10 {
        lemma_dec_digits(n / 10);
        assert(dec(n).drop_last() =~= dec(n / 10));
    }
}

/// Different numbers have different decimal texts.
pub proof fn lemma_dec_injective(a: nat, b: nat)
    ensures
        dec(a) == dec(b) ==> a == b,
    decreases a,
{
    if dec(a) == dec(b) {
        lemma_dec_digits(a);
        lemma_dec_digits(b);
        assert((a % 10 + 48) as char == (b % 10 + 48) as char);
        assert(a % 10 == b % 10);
        if a >= 10 && b >= 10 {
            lemma_dec_injective(a / 10, b / 10);
        }
    }
}

/// Appends the decimal representation of `n` to `s`.
pub fn push_decimal(s: &mut String, n: u64)
    ensures
        final(s)@ == old(s)@ + dec(n as nat),
    decreases n,
{
    if n >= 10 {
        push_decimal(s, n / 10);
    }
    let d = (n % 10) as u8;
    let c = (48u8 + d) as char;
    assert(c == digit_char((n % 10) as nat));
    push_char(s, c);
}

/// Whether `c` is an ASCII decimal digit.
pub open spec fn is_digit(c: char) -> bool {
    48 <= c as u32 <= 57
}

/// The value of an ASCII digit.
pub open spec fn digit_val(c: char) -> int {
    c as u32 - 48
}

/// The value of a string of ASCII digits, most significant first.
pub open spec fn digits_value(s: Seq<char>) -> int
    decreases s.len(),
{
    if s.len() == 0 {
        0
    } else {
        digits_value(s.drop_last()) * 10 + digit_val(s.last())
    }
}

/// Every character is an ASCII digit.
pub open spec fn all_digits(s: Seq<char>) -> bool {
    forall|i: int| 0 <= i < s.len() ==> is_digit(#[trigger] s[i])
}

/// `str::parse` for an unsigned integer type whose largest value is `max`:
/// an optional `+`, then one or more ASCII digits whose value fits.
pub open spec fn parse_unsigned(s: Seq<char>, max: int) -> Option<int> {
    let d = if s.len() > 0 && s[0] == '+' { s.drop_first() } else { s };
    if d.len() > 0 && all_digits(d) && digits_value(d) <= max {
        Some(digits_value(d))
    } else {
        None
    }
}

/// `str::parse::<i32>`: an optional sign, then one or more ASCII digits whose
/// signed value fits in an `i32`.
pub open spec fn parse_i32_spec(s: Seq<char>) -> Option<i32> {
    if s.len() > 0 && s[0] == '-' {
        let d = s.drop_first();
        if d.len() > 0 && all_digits(d) && digits_value(d) <= 0x8000_0000 {
            Some((0 - digits_value(d)) as i32)
        } else {
            None
        }
    } else {
        match parse_unsigned(s, 0x7fff_ffff) {
            Some(v) => Some(v as i32),
            None => None,
        }
    }
}

pub proof fn lemma_digits_value_nonneg(s: Seq<char>)
    requires
        all_digits(s),
    ensures
        digits_value(s) >= 0,
    decreases s.len(),
{
    if s.len() > 0 {
        assert(all_digits(s.drop_last())) by {
            assert forall|i: int| 0 <= i < s.drop_last().len() implies is_digit(
                #[trigger] s.drop_last()[i],
            ) by {
                assert(s.drop_last()[i] == s[i]);
            }
        }
        lemma_digits_value_nonneg(s.drop_last());
        assert(is_digit(s[s.len() - 1]));
    }
}

/// A prefix of a digit string is worth no more than the whole string.
pub proof fn lemma_digits_value_prefix(s: Seq<char>, i: int)
    requires
        all_digits(s),
        0 <= i <= s.len(),
    ensures
        digits_value(s.take(i)) <= digits_value(s),
    decreases s.len() - i,
{
    if i < s.len() {
        lemma_digits_value_prefix(s, i + 1);
        let t = s.take(i + 1);
        assert(t.drop_last() == s.take(i));
        assert(all_digits(s.take(i))) by {
            assert forall|k: int| 0 <= k < s.take(i).len() implies is_digit(
                #[trigger] s.take(i)[k],
            ) by {
                assert(s.take(i)[k] == s[k]);
            }
        }
        lemma_digits_value_nonneg(s.take(i));
        assert(is_digit(s[i]));
        assert(t.last() == s[i]);
    } else {
        assert(s.take(i) == s);
    }
}

/// Parses `chars[from..to]` as an unsigned number no larger than `max`,
/// following `str::parse`.
pub fn parse_unsigned_range(chars: &Vec<char>, from: usize, to: usize, max: u64) -> (r: Option<u64>)
    requires
        from <= to <= chars@.len(),
    ensures
        r matches Some(v) ==> parse_unsigned(chars@.subrange(from as int, to as int), max as int)
            == Some(v as int),
        r is None ==> parse_unsigned(chars@.subrange(from as int, to as int), max as int) is None,
{
    let ghost s = chars@.subrange(from as int, to as int);
    let mut start = from;
    if from < to && chars[from] == '+' {
        start = from + 1;
    }
    let ghost d = chars@.subrange(start as int, to as int);
    assert(d == (if s.len() > 0 && s[0] == '+' { s.drop_first() } else { s }));
    if start == to {
        return None;
    }
    let mut v: u64 = 0;
    let mut i = start;
    while i < to
        invariant
            start <= i <= to <= chars@.len(),
            start < to,
            d == chars@.subrange(start as int, to as int),
            s == chars@.subrange(from as int, to as int),
            d == (if s.len() > 0 && s[0] == '+' { s.drop_first() } else { s }),
            all_digits(d.take(i - start)),
            v as int == digits_value(d.take(i - start)),
            v <= max,
        decreases to - i,
    {
        let c = chars[i];
        if !(48 <= c as u32 && c as u32 <= 57) {
            assert(d[i - start] == c);
            assert(!is_digit(d[i - start]));
            return None;
        }
        let dv = (c as u32 - 48) as u64;
        assert(d.take(i - start + 1).drop_last() == d.take(i - start));
        assert(d.take(i - start + 1).last() == c);
        assert(all_digits(d.take(i - start + 1))) by {
            assert forall|k: int| 0 <= k < d.take(i - start + 1).len() implies is_digit(
                #[trigger] d.take(i - start + 1)[k],
            ) by {
                if k < i - start {
                    assert(d.take(i - start + 1)[k] == d.take(i - start)[k]);
                }
            }
        }
        if (v as u128) * 10 + (dv as u128) > max as u128 {
            // Too large: the whole string is worth at least this much.
            proof {
                if all_digits(d) {
                    lemma_digits_value_prefix(d, i - start + 1);
                }
            }
            return None;
        }
        v = v * 10 + dv;
        i += 1;
    }
    assert(d.take(to - start) == d);
    Some(v)
}

/// Parses `chars[from..to]` as an `i32`, following `str::parse::<i32>`.
pub fn parse_i32_range(chars: &Vec<char>, from: usize, to: usize) -> (r: Option<i32>)
    requires
        from <= to <= chars@.len(),
    ensures
        r == parse_i32_spec(chars@.subrange(from as int, to as int)),
{
    let ghost s = chars@.subrange(from as int, to as int);
    if from < to && chars[from] == '-' {
        let ghost d = s.drop_first();
        assert(d == chars@.subrange(from + 1, to as int));
        if to - from > 1 && chars[from + 1] == '+' {
            assert(!is_digit(d[0]));
            return None;
        }
        match parse_unsigned_range(chars, from + 1, to, 0x8000_0000) {
            Some(v) => {
                assert(d.len() == 0 || d[0] != '+');
                Some((0 - (v as i64)) as i32)
            },
            None => {
                assert(d.len() == 0 || d[0] != '+');
                None
            },
        }
    } else {
        match parse_unsigned_range(chars, from, to, 0x7fff_ffff) {
            Some(v) => Some(v as i32),
            None => None,
        }
    }
}

} // verus!

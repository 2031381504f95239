//! Character-level utilities shared by the rest of the library: decimal
//! formatting and parsing, whitespace trimming, substring search, and the
//! conversions between `String` and `Vec<char>`.
use vstd::prelude::*;

verus! {

/// Characters treated as whitespace by the trimming helpers.
pub open spec fn is_space_char(c: char) -> bool {
    c == ' ' || c == '\t' || c == '\r' || c == '\n'
}

pub fn is_space(c: char) -> (r: bool)
    ensures
        r == is_space_char(c),
{
    c == ' ' || c == '\t' || c == '\r' || c == '\n'
}

pub open spec fn trim_end_spec(s: Seq<char>) -> Seq<char>
    decreases s.len(),
{
    if s.len() == 0 {
        s
    } else if is_space_char(s.last()) {
        trim_end_spec(s.drop_last())
    } else {
        s
    }
}

pub open spec fn trim_start_spec(s: Seq<char>) -> Seq<char>
    decreases s.len(),
{
    if s.len() == 0 {
        s
    } else if is_space_char(s.first()) {
        trim_start_spec(s.drop_first())
    } else {
        s
    }
}

pub open spec fn trim_spec(s: Seq<char>) -> Seq<char> {
    trim_start_spec(trim_end_spec(s))
}

proof fn lemma_trim_end_take(s: Seq<char>, k: int)
    requires
        0 <= k <= s.len(),
        forall|j: int| k <= j < s.len() ==> is_space_char(#[trigger] s[j]),
        k == 0 || !is_space_char(s[k - 1]),
    ensures
        trim_end_spec(s) == s.take(k),
    decreases s.len(),
{
    if s.len() == 0 {
        assert(s.take(k) =~= s);
    } else if k == s.len() {
        assert(!is_space_char(s.last()));
        assert(s.take(k) =~= s);
    } else {
        assert(is_space_char(s.last()));
        lemma_trim_end_take(s.drop_last(), k);
        assert(s.drop_last().take(k) =~= s.take(k));
    }
}

proof fn lemma_trim_start_skip(s: Seq<char>, k: int)
    requires
        0 <= k <= s.len(),
        forall|j: int| 0 <= j < k ==> is_space_char(#[trigger] s[j]),
        k == s.len() || !is_space_char(s[k]),
    ensures
        trim_start_spec(s) == s.skip(k),
    decreases s.len(),
{
    if k == 0 {
        assert(s.skip(0) =~= s);
        if s.len() > 0 {
            assert(!is_space_char(s.first()));
        }
    } else {
        assert(is_space_char(s.first()));
        lemma_trim_start_skip(s.drop_first(), k - 1);
        assert(s.drop_first().skip(k - 1) =~= s.skip(k));
    }
}

/// Remove trailing whitespace characters.
pub fn trim_end_chars(s: &Vec<char>) -> (r: Vec<char>)
    ensures
        r@ == trim_end_spec(s@),
{
    let mut end: usize = s.len();
    while end > 0 && is_space(s[end - 1])
        invariant
            end <= s.len(),
            forall|j: int| end <= j < s@.len() ==> is_space_char(#[trigger] s@[j]),
        decreases end,
    {
        end = end - 1;
    }
    let mut r: Vec<char> = Vec::new();
    let mut i: usize = 0;
    while i < end
        invariant
            i <= end <= s.len(),
            r@ == s@.take(i as int),
        decreases end - i,
    {
        r.push(s[i]);
        proof {
            assert(s@.take(i + 1 as int) =~= s@.take(i as int).push(s@[i as int]));
        }
        i = i + 1;
    }
    proof {
        lemma_trim_end_take(s@, end as int);
    }
    r
}

/// Remove leading and trailing whitespace characters.
pub fn trim_chars(s: &Vec<char>) -> (r: Vec<char>)
    ensures
        r@ == trim_spec(s@),
{
    let trimmed = trim_end_chars(s);
    let mut start: usize = 0;
    while start < trimmed.len() && is_space(trimmed[start])
        invariant
            start <= trimmed.len(),
            forall|j: int| 0 <= j < start ==> is_space_char(#[trigger] trimmed@[j]),
        decreases trimmed.len() - start,
    {
        start = start + 1;
    }
    let mut r: Vec<char> = Vec::new();
    let mut i: usize = start;
    while i < trimmed.len()
        invariant
            start <= i <= trimmed.len(),
            r@ == trimmed@.subrange(start as int, i as int),
        decreases trimmed.len() - i,
    {
        r.push(trimmed[i]);
        proof {
            assert(trimmed@.subrange(start as int, i + 1 as int) =~= trimmed@.subrange(
                start as int,
                i as int,
            ).push(trimmed@[i as int]));
        }
        i = i + 1;
    }
    proof {
        lemma_trim_start_skip(trimmed@, start as int);
        assert(trimmed@.subrange(start as int, trimmed@.len() as int) =~= trimmed@.skip(
            start as int,
        ));
    }
    r
}

/// The decimal digit character for a value in `0 ..= 9`.
pub open spec fn dec_digit(d: int) -> char {
    if d == 0 {
        '0'
    } else if d == 1 {
        '1'
    } else if d == 2 {
        '2'
    } else if d == 3 {
        '3'
    } else if d == 4 {
        '4'
    } else if d == 5 {
        '5'
    } else if d == 6 {
        '6'
    } else if d == 7 {
        '7'
    } else if d == 8 {
        '8'
    } else {
        '9'
    }
}

/// Decimal representation of a natural number, most significant digit first.
pub open spec fn dec_rep_nat(n: nat) -> Seq<char>
    decreases n,
{
    if n < 10 {
        seq![dec_digit(n as int)]
    } else {
        dec_rep_nat(n / 10) + seq![dec_digit((n % 10) as int)]
    }
}

/// Decimal representation of a signed number: a minus sign for negatives,
/// then the digits of the magnitude.
pub open spec fn dec_rep_int(n: int) -> Seq<char> {
    if n < 0 {
        seq!['-'] + dec_rep_nat((-n) as nat)
    } else {
        dec_rep_nat(n as nat)
    }
}

fn dec_digit_exec(d: u64) -> (c: char)
    requires
        d <= 9,
    ensures
        c == dec_digit(d as int),
{
    if d == 0 {
        '0'
    } else if d == 1 {
        '1'
    } else if d == 2 {
        '2'
    } else if d == 3 {
        '3'
    } else if d == 4 {
        '4'
    } else if d == 5 {
        '5'
    } else if d == 6 {
        '6'
    } else if d == 7 {
        '7'
    } else if d == 8 {
        '8'
    } else {
        '9'
    }
}

/// Format an unsigned number in decimal.
pub fn u64_to_chars(n: u64) -> (r: Vec<char>)
    ensures
        r@ == dec_rep_nat(n as nat),
    decreases n,
{
    if n < 10 {
        let mut r: Vec<char> = Vec::new();
        r.push(dec_digit_exec(n));
        proof {
            assert(r@ =~= dec_rep_nat(n as nat));
        }
        r
    } else {
        let mut r = u64_to_chars(n / 10);
        r.push(dec_digit_exec(n % 10));
        proof {
            assert(r@ =~= dec_rep_nat(n as nat));
        }
        r
    }
}

/// Format a signed number in decimal.
pub fn i64_to_chars(n: i64) -> (r: Vec<char>)
    ensures
        r@ == dec_rep_int(n as int),
{
    if n >= 0 {
        u64_to_chars(n as u64)
    } else {
        let mag: u64 = ((-(n + 1)) as u64) + 1;
        assert(mag as int == -(n as int));
        let digits = u64_to_chars(mag);
        let mut r: Vec<char> = Vec::new();
        r.push('-');
        let mut i: usize = 0;
        while i < digits.len()
            invariant
                i <= digits.len(),
                digits@ == dec_rep_nat((-(n as int)) as nat),
                r@ == seq!['-'] + digits@.take(i as int),
            decreases digits.len() - i,
        {
            r.push(digits[i]);
            proof {
                assert(seq!['-'] + digits@.take(i + 1 as int) =~= (seq!['-'] + digits@.take(
                    i as int,
                )).push(digits@[i as int]));
            }
            i = i + 1;
        }
        proof {
            assert(digits@.take(digits@.len() as int) =~= digits@);
        }
        r
    }
}

pub open spec fn is_digit_char(c: char) -> bool {
    48 <= c as int && c as int <= 57
}

pub open spec fn digit_val(c: char) -> int {
    c as int - 48
}

/// The numeric value of a decimal digit character, `None` for any other.
pub fn char_digit(c: char) -> (r: Option<u64>)
    ensures
        r is Some <==> is_digit_char(c),
        r is Some ==> r->Some_0 as int == digit_val(c),
{
    if c == '0' {
        Some(0)
    } else if c == '1' {
        Some(1)
    } else if c == '2' {
        Some(2)
    } else if c == '3' {
        Some(3)
    } else if c == '4' {
        Some(4)
    } else if c == '5' {
        Some(5)
    } else if c == '6' {
        Some(6)
    } else if c == '7' {
        Some(7)
    } else if c == '8' {
        Some(8)
    } else if c == '9' {
        Some(9)
    } else {
        None
    }
}

/// Whether a character is a decimal digit.
pub fn char_is_digit(c: char) -> (r: bool)
    ensures
        r == is_digit_char(c),
{
    char_digit(c).is_some()
}

/// Numeric value of a digit string, most significant digit first.
pub open spec fn dec_val(s: Seq<char>) -> int
    decreases s.len(),
{
    if s.len() == 0 {
        0
    } else {
        dec_val(s.drop_last()) * 10 + digit_val(s.last())
    }
}

/// Length of the longest prefix of `s` made of decimal digits.
pub open spec fn digit_prefix_len(s: Seq<char>) -> int
    decreases s.len(),
{
    if s.len() == 0 || !is_digit_char(s.first()) {
        0
    } else {
        1 + digit_prefix_len(s.drop_first())
    }
}

pub proof fn lemma_digit_prefix_from_digits(s: Seq<char>, k: int)
    requires
        0 <= k <= s.len(),
        forall|j: int| 0 <= j < k ==> is_digit_char(#[trigger] s[j]),
        k == s.len() || !is_digit_char(s[k]),
    ensures
        digit_prefix_len(s) == k,
    decreases s.len(),
{
    if k == 0 {
    } else {
        assert(is_digit_char(s.first()));
        lemma_digit_prefix_from_digits(s.drop_first(), k - 1);
    }
}

/// A full-length digit prefix means every character is a digit.
pub proof fn lemma_digit_prefix_all(s: Seq<char>)
    requires
        digit_prefix_len(s) == s.len(),
    ensures
        forall|j: int| 0 <= j < s.len() ==> is_digit_char(#[trigger] s[j]),
    decreases s.len(),
{
    if s.len() > 0 {
        assert(is_digit_char(s.first()));
        lemma_digit_prefix_all(s.drop_first());
        assert forall|j: int| 0 <= j < s.len() implies is_digit_char(#[trigger] s[j]) by {
            if j > 0 {
                assert(is_digit_char(s.drop_first()[j - 1]));
            }
        }
    }
}

/// The value parsed from a string by reading an optional sign and then the
/// longest run of leading digits.  An input with no leading digits, or whose
/// digits do not fit in the result type, parses as zero.
pub open spec fn parse_int_spec(s: Seq<char>) -> i64 {
    let (neg, rest): (bool, Seq<char>) = if s.len() > 0 && (s.first() == '-' || s.first() == '+') {
        (s.first() == '-', s.drop_first())
    } else {
        (false, s)
    };
    let digs = rest.take(digit_prefix_len(rest));
    if digs.len() == 0 {
        0
    } else {
        let v = dec_val(digs);
        if neg {
            if -v >= i64::MIN as int {
                (-v) as i64
            } else {
                0
            }
        } else {
            if v <= i64::MAX as int {
                v as i64
            } else {
                0
            }
        }
    }
}

pub proof fn lemma_dec_val_nonneg(s: Seq<char>)
    requires
        forall|j: int| 0 <= j < s.len() ==> is_digit_char(#[trigger] s[j]),
    ensures
        dec_val(s) >= 0,
    decreases s.len(),
{
    if s.len() > 0 {
        lemma_dec_val_nonneg(s.drop_last());
    }
}

/// Parse a signed decimal from the front of `s`, as `parse_int_spec` says.
pub fn parse_leading_i64(s: &Vec<char>) -> (r: i64)
    ensures
        r == parse_int_spec(s@),
{
    let mut i: usize = 0;
    let mut neg: bool = false;
    if s.len() > 0 && (s[0] == '-' || s[0] == '+') {
        neg = s[0] == '-';
        i = 1;
    }
    let ghost rest: Seq<char> = s@.skip(i as int);
    let start = i;
    let mut acc: u64 = 0;
    let mut overflow: bool = false;
    while i < s.len() && char_is_digit(s[i])
        invariant
            start <= i <= s.len(),
            rest == s@.skip(start as int),
            forall|j: int| start <= j < i ==> is_digit_char(#[trigger] s@[j]),
            !overflow ==> acc as int == dec_val(s@.subrange(start as int, i as int)),
            overflow ==> dec_val(s@.subrange(start as int, i as int)) > u64::MAX as int,
        decreases s.len() - i,
    {
        let d: u64 = match char_digit(s[i]) {
            Some(d) => d,
            None => 0,
        };
        proof {
            assert(s@.subrange(start as int, i + 1 as int).drop_last() =~= s@.subrange(
                start as int,
                i as int,
            ));
            assert(s@.subrange(start as int, i + 1 as int).last() == s@[i as int]);
            lemma_dec_val_nonneg(s@.subrange(start as int, i as int));
            assert(digit_val(s@[i as int]) == d as int);
        }
        if !overflow {
            if acc > (u64::MAX - d) / 10 {
                overflow = true;
                proof {
                    assert(dec_val(s@.subrange(start as int, i + 1 as int)) == acc as int * 10
                        + d as int);
                }
            } else {
                acc = acc * 10 + d;
            }
        }
        i = i + 1;
    }
    proof {
        assert forall|j: int| 0 <= j < i - start implies is_digit_char(#[trigger] rest[j]) by {
            assert(rest[j] == s@[start + j]);
        }
        if (i as int - start as int) < rest.len() {
            assert(rest[i - start as int] == s@[i as int]);
            assert(!is_digit_char(s@[i as int]));
        }
        lemma_digit_prefix_from_digits(rest, i as int - start as int);
        assert(rest.take(i - start as int) =~= s@.subrange(start as int, i as int));
    }
    let ghost digs: Seq<char> = rest.take(digit_prefix_len(rest));
    proof {
        if start == 1 {
            assert(s@.first() == '-' || s@.first() == '+');
            assert(s@.drop_first() =~= s@.skip(1));
            assert(neg == (s@.first() == '-'));
        } else {
            assert(s@.len() == 0 || !(s@.first() == '-' || s@.first() == '+'));
            assert(s@.skip(0) =~= s@);
            assert(!neg);
        }
        assert(digs =~= s@.subrange(start as int, i as int));
    }
    if i == start {
        assert(digs.len() == 0);
        return 0;
    }
    if overflow {
        return 0;
    }
    assert(acc as int == dec_val(digs));
    if neg {
        if acc <= 9223372036854775808u64 {
            if acc == 0 {
                0
            } else {
                (-((acc - 1) as i64)) - 1
            }
        } else {
            0
        }
    } else {
        if acc <= 9223372036854775807u64 {
            acc as i64
        } else {
            0
        }
    }
}

proof fn lemma_dec_rep_digits(n: nat)
    ensures
        dec_rep_nat(n).len() >= 1,
        forall|j: int| 0 <= j < dec_rep_nat(n).len() ==> is_digit_char(#[trigger] dec_rep_nat(n)[j]),
    decreases n,
{
    if n < 10 {
    } else {
        lemma_dec_rep_digits(n / 10);
        assert forall|j: int| 0 <= j < dec_rep_nat(n).len() implies is_digit_char(
            #[trigger] dec_rep_nat(n)[j],
        ) by {
            if j < dec_rep_nat(n / 10).len() {
                assert(dec_rep_nat(n)[j] == dec_rep_nat(n / 10)[j]);
            }
        }
    }
}

proof fn lemma_dec_val_of_rep(n: nat)
    ensures
        dec_val(dec_rep_nat(n)) == n,
    decreases n,
{
    if n < 10 {
        assert(dec_rep_nat(n).drop_last() =~= Seq::<char>::empty());
        assert(dec_val(Seq::<char>::empty()) == 0);
        assert(dec_rep_nat(n).last() == dec_digit(n as int));
        assert(digit_val(dec_digit(n as int)) == n);
    } else {
        lemma_dec_val_of_rep(n / 10);
        assert(dec_rep_nat(n).drop_last() =~= dec_rep_nat(n / 10));
        assert(dec_rep_nat(n).last() == dec_digit((n % 10) as int));
        assert(digit_val(dec_digit((n % 10) as int)) == n % 10);
    }
}

/// Parsing the decimal rendering of a value yields the value back: the
/// round trip through the string coercion is the identity.
pub proof fn lemma_parse_of_rep(x: i64)
    ensures
        parse_int_spec(dec_rep_int(x as int)) == x,
{
    if x >= 0 {
        let s = dec_rep_nat(x as nat);
        lemma_dec_rep_digits(x as nat);
        lemma_dec_val_of_rep(x as nat);
        assert(!(s.first() == '-' || s.first() == '+'));
        lemma_digit_prefix_from_digits(s, s.len() as int);
        assert(s.take(s.len() as int) =~= s);
    } else {
        let m = dec_rep_nat((-(x as int)) as nat);
        let s = seq!['-'] + m;
        assert(dec_rep_int(x as int) == s);
        lemma_dec_rep_digits((-(x as int)) as nat);
        lemma_dec_val_of_rep((-(x as int)) as nat);
        assert(s.first() == '-');
        assert(s.drop_first() =~= m);
        assert forall|j: int| 0 <= j < m.len() implies is_digit_char(#[trigger] m[j]) by {}
        lemma_digit_prefix_from_digits(m, m.len() as int);
        assert(m.take(m.len() as int) =~= m);
    }
}

/// Rendering a parsed canonical decimal yields the text back: the round
/// trip through the integer coercion keeps a canonical literal.
pub proof fn lemma_rep_of_parse(s: Seq<char>, n: i64)
    requires
        s == dec_rep_int(n as int),
    ensures
        dec_rep_int(parse_int_spec(s) as int) == s,
{
    lemma_parse_of_rep(n);
}

/// Whether `needle` occurs in `hay` starting at position `i`.
pub open spec fn matches_at(hay: Seq<char>, needle: Seq<char>, i: int) -> bool {
    0 <= i && i + needle.len() <= hay.len() && hay.subrange(i, i + needle.len()) == needle
}

/// Whether `needle` occurs in `hay` at position `i`, decided by comparison.
fn matches_prefix_at(hay: &Vec<char>, needle: &Vec<char>, i: usize) -> (r: bool)
    requires
        i + needle@.len() <= hay@.len(),
    ensures
        r == matches_at(hay@, needle@, i as int),
{
    let hl = hay.len();
    let mut k: usize = 0;
    while k < needle.len()
        invariant
            i + needle@.len() <= hay@.len(),
            hl == hay@.len(),
            k <= needle.len(),
            hay@.subrange(i as int, i + k as int) =~= needle@.take(k as int),
        decreases needle.len() - k,
    {
        proof {
            assert(hay@.subrange(i as int, i + k + 1 as int) =~= hay@.subrange(
                i as int,
                i + k as int,
            ).push(hay@[i + k]));
            assert(needle@.take(k + 1 as int) =~= needle@.take(k as int).push(needle@[k as int]));
        }
        assert(i + k < hay@.len());
        if hay[i + k] != needle[k] {
            proof {
                if hay@.subrange(i as int, i + needle@.len() as int) == needle@ {
                    assert(hay@.subrange(i as int, i + needle@.len() as int)[k as int]
                        == needle@[k as int]);
                    assert(hay@[i + k] == needle@[k as int]);
                }
            }
            return false;
        }
        k = k + 1;
    }
    proof {
        assert(needle@.take(needle@.len() as int) =~= needle@);
    }
    true
}

/// Position of the first occurrence of `needle` in `hay`.
pub fn find_sub(hay: &Vec<char>, needle: &Vec<char>) -> (r: Option<usize>)
    ensures
        match r {
            Some(i) => matches_at(hay@, needle@, i as int) && forall|j: int|
                0 <= j < i ==> !matches_at(hay@, needle@, j),
            None => forall|j: int| !matches_at(hay@, needle@, j),
        },
{
    if needle.len() > hay.len() {
        return None;
    }
    if needle.len() == 0 {
        proof {
            assert(hay@.subrange(0, 0) =~= needle@);
        }
        return Some(0);
    }
    let bound = hay.len() - needle.len();
    let mut i: usize = 0;
    while i <= bound
        invariant
            1 <= needle@.len() <= hay@.len(),
            bound == hay@.len() - needle@.len(),
            bound <= usize::MAX - 1,
            i <= bound + 1,
            forall|j: int| 0 <= j < i ==> !matches_at(hay@, needle@, j),
        decreases bound + 1 - i,
    {
        if matches_prefix_at(hay, needle, i) {
            return Some(i);
        }
        i = i + 1;
    }
    proof {
        assert forall|j: int| !matches_at(hay@, needle@, j) by {
            if 0 <= j && j + needle@.len() <= hay@.len() {
                assert(j < i);
            }
        }
    }
    None
}

/// Index of the first occurrence of `needle` in `hay`, or `-1`.
pub open spec fn find_idx(hay: Seq<char>, needle: Seq<char>) -> int
    decreases hay.len(),
{
    if matches_at(hay, needle, 0) {
        0
    } else if hay.len() == 0 {
        -1
    } else {
        let r = find_idx(hay.drop_first(), needle);
        if r < 0 {
            -1
        } else {
            r + 1
        }
    }
}

pub proof fn lemma_matches_at_shift(hay: Seq<char>, needle: Seq<char>, i: int)
    requires
        hay.len() > 0,
        i >= 0,
    ensures
        matches_at(hay.drop_first(), needle, i) == matches_at(hay, needle, i + 1),
{
    if i + 1 + needle.len() <= hay.len() {
        assert(hay.drop_first().subrange(i, i + needle.len() as int) =~= hay.subrange(
            i + 1,
            i + 1 + needle.len() as int,
        ));
    }
}

pub proof fn lemma_find_idx(hay: Seq<char>, needle: Seq<char>)
    ensures
        find_idx(hay, needle) >= 0 ==> matches_at(hay, needle, find_idx(hay, needle)) && forall|
            j: int,
        | 0 <= j < find_idx(hay, needle) ==> !matches_at(hay, needle, j),
        find_idx(hay, needle) < 0 ==> forall|j: int| !matches_at(hay, needle, j),
    decreases hay.len(),
{
    if matches_at(hay, needle, 0) {
    } else if hay.len() == 0 {
        assert forall|j: int| !matches_at(hay, needle, j) by {
            if 0 <= j && j + needle.len() <= hay.len() {
                assert(j == 0 && needle.len() == 0);
            }
        }
    } else {
        lemma_find_idx(hay.drop_first(), needle);
        let r = find_idx(hay.drop_first(), needle);
        if r >= 0 {
            lemma_matches_at_shift(hay, needle, r);
            assert forall|j: int| 0 <= j < r + 1 implies !matches_at(hay, needle, j) by {
                if j > 0 {
                    lemma_matches_at_shift(hay, needle, j - 1);
                }
            }
        } else {
            assert forall|j: int| !matches_at(hay, needle, j) by {
                if j > 0 {
                    lemma_matches_at_shift(hay, needle, j - 1);
                }
            }
        }
    }
}

/// Uppercase the ASCII letters of a string, leaving other characters alone.
pub open spec fn ascii_upper_char(c: char) -> char {
    if 97 <= c as int && c as int <= 122 {
        ((c as int - 32) as u32) as char
    } else {
        c
    }
}

pub open spec fn ascii_upper_seq(s: Seq<char>) -> Seq<char> {
    s.map_values(|c: char| ascii_upper_char(c))
}

/// Uppercase the ASCII letters of a string.
pub fn ascii_upper(s: &str) -> (r: String)
    ensures
        r@ == ascii_upper_seq(s@),
{
    let cs = string_to_chars(s);
    let mut out: Vec<char> = Vec::new();
    let mut i: usize = 0;
    while i < cs.len()
        invariant
            i <= cs@.len(),
            cs@ == s@,
            out@ =~= ascii_upper_seq(s@).take(i as int),
        decreases cs@.len() - i,
    {
        let c = cs[i];
        if c >= 'a' && c <= 'z' {
            let cu: u32 = c as u32;
            proof {
                assert((cu as int) == (c as int));
            }
            let up: char = ((cu - 32) as u8) as char;
            out.push(up);
            proof {
                assert(97 <= c as int && c as int <= 122);
                assert(up as int == c as int - 32);
                assert(ascii_upper_char(s@[i as int]) == up);
            }
        } else {
            out.push(c);
            proof {
                assert(ascii_upper_char(s@[i as int]) == c);
            }
        }
        proof {
            assert(out@ =~= ascii_upper_seq(s@).take(i + 1 as int));
        }
        i = i + 1;
    }
    proof {
        assert(out@ =~= ascii_upper_seq(s@));
    }
    chars_to_string(&out)
}

/// True when `prefix` is a prefix of `s`.
pub fn starts_with_chars(s: &Vec<char>, prefix: &Vec<char>) -> (r: bool)
    ensures
        r == (prefix@.len() <= s@.len() && s@.take(prefix@.len() as int) == prefix@),
{
    if prefix.len() > s.len() {
        return false;
    }
    let mut k: usize = 0;
    while k < prefix.len()
        invariant
            prefix.len() <= s.len(),
            k <= prefix.len(),
            s@.take(k as int) =~= prefix@.take(k as int),
        decreases prefix.len() - k,
    {
        proof {
            assert(s@.take(k + 1 as int) =~= s@.take(k as int).push(s@[k as int]));
            assert(prefix@.take(k + 1 as int) =~= prefix@.take(k as int).push(prefix@[k as int]));
        }
        if s[k] != prefix[k] {
            proof {
                if s@.take(prefix@.len() as int) =~= prefix@ {
                    assert(s@.take(prefix@.len() as int)[k as int] == prefix@[k as int]);
                    assert(false);
                }
            }
            return false;
        }
        k = k + 1;
    }
    proof {
        assert(prefix@.take(prefix@.len() as int) =~= prefix@);
    }
    true
}

/// True when `suffix` is a suffix of `s`.
pub fn ends_with_chars(s: &Vec<char>, suffix: &Vec<char>) -> (r: bool)
    ensures
        r == (suffix@.len() <= s@.len() && s@.skip(s@.len() - suffix@.len()) == suffix@),
{
    let sl = s.len();
    if suffix.len() > sl {
        return false;
    }
    let off = sl - suffix.len();
    let mut k: usize = 0;
    while k < suffix.len()
        invariant
            suffix@.len() <= sl,
            sl == s@.len(),
            off == s@.len() - suffix@.len(),
            k <= suffix.len(),
            s@.subrange(off as int, off + k as int) =~= suffix@.take(k as int),
        decreases suffix.len() - k,
    {
        proof {
            assert(s@.subrange(off as int, off + k + 1 as int) =~= s@.subrange(
                off as int,
                off + k as int,
            ).push(s@[off + k]));
            assert(suffix@.take(k + 1 as int) =~= suffix@.take(k as int).push(suffix@[k as int]));
        }
        if s[off + k] != suffix[k] {
            proof {
                if s@.skip(off as int) == suffix@ {
                    assert(s@.skip(off as int)[k as int] == suffix@[k as int]);
                    assert(s@[off + k] == suffix@[k as int]);
                }
            }
            return false;
        }
        k = k + 1;
    }
    proof {
        assert(suffix@.take(suffix@.len() as int) =~= suffix@);
        assert(s@.subrange(off as int, s@.len() as int) =~= s@.skip(off as int));
    }
    true
}

/// Lexicographic order on character sequences: negative when `a` sorts
/// before `b`, zero when equal, positive when after.
pub open spec fn lex_cmp_spec(a: Seq<char>, b: Seq<char>) -> int
    decreases a.len(),
{
    if a.len() == 0 && b.len() == 0 {
        0
    } else if a.len() == 0 {
        -1
    } else if b.len() == 0 {
        1
    } else if (a.first() as int) < (b.first() as int) {
        -1
    } else if (a.first() as int) > (b.first() as int) {
        1
    } else {
        lex_cmp_spec(a.drop_first(), b.drop_first())
    }
}

/// Compare two character vectors lexicographically.
pub fn lex_cmp(a: &Vec<char>, b: &Vec<char>) -> (r: i8)
    ensures
        r as int == lex_cmp_spec(a@, b@),
{
    let mut i: usize = 0;
    proof {
        assert(a@.skip(0) =~= a@);
        assert(b@.skip(0) =~= b@);
    }
    while i < a.len() && i < b.len()
        invariant
            i <= a@.len(),
            i <= b@.len(),
            lex_cmp_spec(a@, b@) == lex_cmp_spec(a@.skip(i as int), b@.skip(i as int)),
            forall|j: int| 0 <= j < i ==> a@[j] == b@[j],
        decreases a.len() - i,
    {
        let ca = a[i];
        let cb = b[i];
        proof {
            assert(a@.skip(i as int).first() == a@[i as int]);
            assert(b@.skip(i as int).first() == b@[i as int]);
            assert(a@.skip(i as int).drop_first() =~= a@.skip(i + 1 as int));
            assert(b@.skip(i as int).drop_first() =~= b@.skip(i + 1 as int));
        }
        if ca < cb {
            return -1;
        }
        if ca > cb {
            return 1;
        }
        proof {
            assert(a@[i as int] == b@[i as int]);
        }
        i = i + 1;
    }
    proof {
        assert(a@.skip(i as int).len() == 0 || b@.skip(i as int).len() == 0);
    }
    if a.len() == b.len() {
        0
    } else if a.len() < b.len() {
        -1
    } else {
        1
    }
}

/// Append one character vector to another.
pub fn push_chars(dst: &mut Vec<char>, src: &Vec<char>)
    ensures
        final(dst)@ == old(dst)@ + src@,
{
    let mut i: usize = 0;
    proof {
        assert(dst@ =~= old(dst)@ + src@.take(0));
    }
    while i < src.len()
        invariant
            i <= src@.len(),
            dst@ == old(dst)@ + src@.take(i as int),
        decreases src@.len() - i,
    {
        dst.push(src[i]);
        proof {
            assert(old(dst)@ + src@.take(i + 1 as int) =~= (old(dst)@ + src@.take(i as int)).push(
                src@[i as int],
            ));
        }
        i = i + 1;
    }
    proof {
        assert(src@.take(src@.len() as int) =~= src@);
    }
}

/// Append a string's characters to a character vector.
pub fn push_str_chars(dst: &mut Vec<char>, src: &str)
    ensures
        final(dst)@ == old(dst)@ + src@,
{
    let cs = string_to_chars(src);
    push_chars(dst, &cs);
}

/// The hexadecimal digit character for a value in `0 ..= 15`.
pub open spec fn hex_digit(d: int) -> char {
    if d < 10 {
        dec_digit(d)
    } else if d == 10 {
        'a'
    } else if d == 11 {
        'b'
    } else if d == 12 {
        'c'
    } else if d == 13 {
        'd'
    } else if d == 14 {
        'e'
    } else {
        'f'
    }
}

/// Hexadecimal representation of a natural number, most significant digit
/// first.
pub open spec fn hex_rep_nat(n: nat) -> Seq<char>
    decreases n,
{
    if n < 16 {
        seq![hex_digit(n as int)]
    } else {
        hex_rep_nat(n / 16) + seq![hex_digit((n % 16) as int)]
    }
}

/// Format an unsigned number in hexadecimal.
pub fn u32_to_hex_chars(n: u32) -> (r: Vec<char>)
    ensures
        r@ == hex_rep_nat(n as nat),
    decreases n,
{
    if n < 16 {
        let mut r: Vec<char> = Vec::new();
        r.push(hex_digit_exec(n));
        proof {
            assert(r@ =~= hex_rep_nat(n as nat));
        }
        r
    } else {
        let mut r = u32_to_hex_chars(n / 16);
        r.push(hex_digit_exec(n % 16));
        proof {
            assert(r@ =~= hex_rep_nat(n as nat));
        }
        r
    }
}

/// How one character is written inside a JSON string: quotes and
/// backslashes are escaped, control characters take a unicode escape, and
/// everything else stands as itself.
pub open spec fn json_escape_char(c: char) -> Seq<char> {
    if c == '"' {
        seq!['\\', '"']
    } else if c == '\\' {
        seq!['\\', '\\']
    } else if (c as int) < 32 {
        seq!['\\', 'u', '0', '0', hex_digit((c as int) / 16), hex_digit((c as int) % 16)]
    } else {
        seq![c]
    }
}

pub open spec fn json_escape_seq(s: Seq<char>) -> Seq<char>
    decreases s.len(),
{
    if s.len() == 0 {
        Seq::empty()
    } else {
        json_escape_char(s.first()) + json_escape_seq(s.drop_first())
    }
}

/// A string written as a JSON string literal.
pub open spec fn json_quote_spec(s: Seq<char>) -> Seq<char> {
    seq!['"'] + json_escape_seq(s) + seq!['"']
}

proof fn lemma_json_escape_snoc(s: Seq<char>, c: char)
    ensures
        json_escape_seq(s.push(c)) == json_escape_seq(s) + json_escape_char(c),
    decreases s.len(),
{
    if s.len() == 0 {
        assert(s.push(c).first() == c);
        assert(s.push(c).drop_first() =~= Seq::<char>::empty());
        assert(json_escape_seq(s.push(c)) == json_escape_char(s.push(c).first()) + json_escape_seq(
            s.push(c).drop_first(),
        ));
        assert(json_escape_seq(Seq::<char>::empty()) == Seq::<char>::empty());
        assert(json_escape_seq(s.push(c)) =~= json_escape_char(c) + Seq::<char>::empty());
        assert(json_escape_char(c) + Seq::<char>::empty() =~= json_escape_char(c));
        assert(json_escape_seq(s) + json_escape_char(c) =~= json_escape_char(c));
    } else {
        assert(s.push(c).first() == s.first());
        assert(s.push(c).drop_first() =~= s.drop_first().push(c));
        lemma_json_escape_snoc(s.drop_first(), c);
        assert(json_escape_char(s.first()) + (json_escape_seq(s.drop_first()) + json_escape_char(c))
            =~= (json_escape_char(s.first()) + json_escape_seq(s.drop_first())) + json_escape_char(
            c,
        ));
    }
}

/// The code point of a character that is known to be small enough.
pub fn char_code(c: char) -> (r: u32)
    requires
        (c as int) < 4294967296,
    ensures
        (r as int) == (c as int),
{
    c as u32
}

/// Whether one character orders before another.
fn char_lt(a: char, b: char) -> (r: bool)
    ensures
        r == ((a as int) < (b as int)),
{
    a < b
}

fn hex_digit_exec(d: u32) -> (c: char)
    requires
        d <= 15,
    ensures
        c == hex_digit(d as int),
{
    if d == 0 {
        '0'
    } else if d == 1 {
        '1'
    } else if d == 2 {
        '2'
    } else if d == 3 {
        '3'
    } else if d == 4 {
        '4'
    } else if d == 5 {
        '5'
    } else if d == 6 {
        '6'
    } else if d == 7 {
        '7'
    } else if d == 8 {
        '8'
    } else if d == 9 {
        '9'
    } else if d == 10 {
        'a'
    } else if d == 11 {
        'b'
    } else if d == 12 {
        'c'
    } else if d == 13 {
        'd'
    } else if d == 14 {
        'e'
    } else {
        'f'
    }
}

/// Quote a string as a JSON string literal, as `json_quote_spec` says.
pub fn json_quote_chars(s: &Vec<char>) -> (r: Vec<char>)
    ensures
        r@ == json_quote_spec(s@),
{
    let mut out: Vec<char> = Vec::new();
    out.push('"');
    let mut i: usize = 0;
    proof {
        assert(out@ =~= seq!['"'] + json_escape_seq(s@.take(0)));
    }
    while i < s.len()
        invariant
            i <= s@.len(),
            out@ == seq!['"'] + json_escape_seq(s@.take(i as int)),
        decreases s@.len() - i,
    {
        let c = s[i];
        let ghost pre = out@;
        if c == '"' {
            out.push('\\');
            out.push('"');
        } else if c == '\\' {
            out.push('\\');
            out.push('\\');
        } else if char_lt(c, ' ') {
            let cu: u32 = char_code(c);
            out.push('\\');
            out.push('u');
            out.push('0');
            out.push('0');
            out.push(hex_digit_exec(cu / 16));
            out.push(hex_digit_exec(cu % 16));
        } else {
            out.push(c);
        }
        proof {
            lemma_json_escape_snoc(s@.take(i as int), s@[i as int]);
            assert(s@.take(i as int).push(s@[i as int]) =~= s@.take(i + 1 as int));
            assert(out@ =~= pre + json_escape_char(s@[i as int]));
            assert(out@ =~= seq!['"'] + json_escape_seq(s@.take(i + 1 as int)));
        }
        i = i + 1;
    }
    out.push('"');
    proof {
        assert(s@.take(s@.len() as int) =~= s@);
        assert(out@ =~= json_quote_spec(s@));
    }
    out
}

/// Relies on `String`'s `FromIterator<char>`: collecting characters yields
/// the string with exactly those characters.
#[verifier::external_body]
pub(crate) fn chars_to_string(v: &Vec<char>) -> (r: String)
    ensures
        r@ == v@,
{
    v.iter().collect()
}

/// The characters of a string slice, in order.
pub fn string_to_chars(s: &str) -> (r: Vec<char>)
    ensures
        r@ == s@,
{
    let n = s.unicode_len();
    let mut v: Vec<char> = Vec::new();
    let mut i: usize = 0;
    while i < n
        invariant
            i <= n,
            n == s@.len(),
            v@ == s@.take(i as int),
        decreases n - i,
    {
        v.push(s.get_char(i));
        proof {
            assert(s@.take(i + 1 as int) =~= s@.take(i as int).push(s@[i as int]));
        }
        i = i + 1;
    }
    proof {
        assert(s@.take(n as int) =~= s@);
    }
    v
}

/// Equality of two string slices, decided character by character.
pub fn str_eq(a: &str, b: &str) -> (r: bool)
    ensures
        r == (a@ == b@),
{
    let na = a.unicode_len();
    let nb = b.unicode_len();
    if na != nb {
        return false;
    }
    let mut i: usize = 0;
    while i < na
        invariant
            i <= na,
            na == a@.len(),
            na == b@.len(),
            a@.take(i as int) =~= b@.take(i as int),
        decreases na - i,
    {
        proof {
            assert(a@.take(i + 1 as int) =~= a@.take(i as int).push(a@[i as int]));
            assert(b@.take(i + 1 as int) =~= b@.take(i as int).push(b@[i as int]));
        }
        if a.get_char(i) != b.get_char(i) {
            proof {
                if a@ == b@ {
                    assert(a@[i as int] == b@[i as int]);
                }
            }
            return false;
        }
        i = i + 1;
    }
    proof {
        assert(a@.take(na as int) =~= a@);
        assert(b@.take(na as int) =~= b@);
    }
    true
}

} // verus!

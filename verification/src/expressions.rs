//! The expression language used by user-authored colour rules.
//!
//! Values are integers or strings.  Evaluation is a pure function of the
//! source text and the identifier context: `calculate` is specified against
//! `calc_spec`, so two evaluations of the same pair agree.
use vstd::prelude::*;

use crate::kmap::KeyMap;
use crate::text::{
    chars_to_string, char_is_digit, char_digit, dec_rep_int, digit_val, ends_with_chars, find_sub,
    i64_to_chars, is_digit_char, lex_cmp, lex_cmp_spec, matches_at, parse_int_spec,
    parse_leading_i64, starts_with_chars, string_to_chars,
};

verus! {

/// A value of the expression language.
#[derive(Debug)]
pub enum Value {
    Int(i64),
    Str(String),
}

/// The mathematical shape of a value: an integer or a character sequence.
pub enum ValView {
    Int(i64),
    Str(Seq<char>),
}

impl View for Value {
    type V = ValView;

    open spec fn view(&self) -> ValView {
        match self {
            Value::Int(i) => ValView::Int(*i),
            Value::Str(s) => ValView::Str(s@),
        }
    }
}

impl Clone for Value {
    fn clone(&self) -> (r: Self)
        ensures
            r@ == self@,
    {
        match self {
            Value::Int(i) => Value::Int(*i),
            Value::Str(s) => Value::Str(s.clone()),
        }
    }
}


/// An expression failure: a parse error or an evaluation error, with its
/// message.
#[derive(Debug)]
pub struct Error(pub String);

impl View for Error {
    type V = Seq<char>;

    open spec fn view(&self) -> Seq<char> {
        self.0@
    }
}

impl Error {
    /// The message carried by this error.
    pub fn message(&self) -> (r: &String)
        ensures
            r@ == self@,
    {
        &self.0
    }
}

/// The identifier context handed to evaluation.
pub type Ctx = KeyMap<Value>;

/// Result of evaluating a (sub)expression, at the specification level.
pub type EvalRes = Result<ValView, Seq<char>>;

/// Whether an executable result is modelled by a specification result.
pub open spec fn res_models(r: Result<Value, Error>, s: EvalRes) -> bool {
    match r {
        Ok(v) => s is Ok && v@ == s->Ok_0,
        Err(e) => s is Err && e@ == s->Err_0,
    }
}

/// Truthiness: a non-zero integer or a non-empty string.
pub open spec fn truthy(v: ValView) -> bool {
    match v {
        ValView::Int(i) => i != 0,
        ValView::Str(s) => s.len() > 0,
    }
}

/// Integer coercion: integers are themselves; strings parse a leading
/// decimal, yielding zero when unparseable.
pub open spec fn as_int_spec(v: ValView) -> i64 {
    match v {
        ValView::Int(i) => i,
        ValView::Str(s) => parse_int_spec(s),
    }
}

/// String coercion: integers render in decimal; strings are themselves.
pub open spec fn as_str_spec(v: ValView) -> Seq<char> {
    match v {
        ValView::Int(i) => dec_rep_int(i as int),
        ValView::Str(s) => s,
    }
}

pub open spec fn from_bool_spec(b: bool) -> ValView {
    if b {
        ValView::Int(1)
    } else {
        ValView::Int(0)
    }
}

pub open spec fn in_i64(x: int) -> bool {
    i64::MIN <= x <= i64::MAX
}

/// Addition: two integers add (failing on overflow); any string operand
/// concatenates by string coercion.
pub open spec fn vadd_spec(a: ValView, b: ValView) -> EvalRes {
    match (a, b) {
        (ValView::Int(x), ValView::Int(y)) => if in_i64(x + y) {
            Ok(ValView::Int((x + y) as i64))
        } else {
            Err("overflow"@)
        },
        _ => Ok(ValView::Str(as_str_spec(a) + as_str_spec(b))),
    }
}

/// Subtraction over integer coercions, failing on overflow.
pub open spec fn vsub_spec(a: ValView, b: ValView) -> EvalRes {
    let x = as_int_spec(a);
    let y = as_int_spec(b);
    if in_i64(x - y) {
        Ok(ValView::Int((x - y) as i64))
    } else {
        Err("overflow"@)
    }
}

/// Multiplication over integer coercions, failing on overflow.
pub open spec fn vmul_spec(a: ValView, b: ValView) -> EvalRes {
    let x = as_int_spec(a);
    let y = as_int_spec(b);
    if in_i64(x * y) {
        Ok(ValView::Int((x * y) as i64))
    } else {
        Err("overflow"@)
    }
}

pub open spec fn abs_int(a: int) -> int {
    if a < 0 {
        -a
    } else {
        a
    }
}

/// Division truncated toward zero, as the machine divides.
pub open spec fn div_trunc(a: int, b: int) -> int {
    let q = abs_int(a) / abs_int(b);
    if (a < 0) != (b < 0) {
        -q
    } else {
        q
    }
}

/// Division over integer coercions: division by zero fails; the one
/// overflowing quotient fails too.
pub open spec fn vdiv_spec(a: ValView, b: ValView) -> EvalRes {
    let x = as_int_spec(a);
    let y = as_int_spec(b);
    if y == 0 {
        Err("division by zero"@)
    } else if x == i64::MIN && y == -1 {
        Err("overflow"@)
    } else {
        Ok(ValView::Int(div_trunc(x as int, y as int) as i64))
    }
}

/// Checked exponentiation: one checked multiplication per exponent step.
pub open spec fn pow_checked_spec(a: i64, e: nat) -> Option<i64>
    decreases e,
{
    if e == 0 {
        Some(1)
    } else {
        match pow_checked_spec(a, (e - 1) as nat) {
            None => None,
            Some(p) => if in_i64(p * a) {
                Some((p * a) as i64)
            } else {
                None
            },
        }
    }
}

/// Exponentiation over integer coercions: a negative or oversized exponent,
/// or an overflowing result, fails.
pub open spec fn vpow_spec(a: ValView, b: ValView) -> EvalRes {
    let x = as_int_spec(a);
    let y = as_int_spec(b);
    if y < 0 || y > u32::MAX as i64 {
        Err("overflow"@)
    } else {
        match pow_checked_spec(x, y as nat) {
            None => Err("overflow"@),
            Some(p) => Ok(ValView::Int(p)),
        }
    }
}

/// Negation over the integer coercion, failing on the one overflow.
pub open spec fn vneg_spec(a: ValView) -> EvalRes {
    let x = as_int_spec(a);
    if x == i64::MIN {
        Err("overflow"@)
    } else {
        Ok(ValView::Int((-x) as i64))
    }
}

/// Three-way comparison: same-type operands compare natively, mixed
/// operands by integer coercion.
pub open spec fn cmp_spec(a: ValView, b: ValView) -> int {
    match (a, b) {
        (ValView::Int(x), ValView::Int(y)) => if x < y {
            -1
        } else if x > y {
            1
        } else {
            0
        },
        (ValView::Str(x), ValView::Str(y)) => lex_cmp_spec(x, y),
        _ => {
            let x = as_int_spec(a);
            let y = as_int_spec(b);
            if x < y {
                -1
            } else if x > y {
                1
            } else {
                0
            }
        },
    }
}

impl Value {
    /// The integer this value coerces to.
    pub fn as_int(&self) -> (r: i64)
        ensures
            r == as_int_spec(self@),
    {
        match self {
            Value::Int(i) => *i,
            Value::Str(s) => {
                let cs = string_to_chars(s.as_str());
                parse_leading_i64(&cs)
            },
        }
    }

    /// The string this value coerces to.
    pub fn as_str(&self) -> (r: String)
        ensures
            r@ == as_str_spec(self@),
    {
        match self {
            Value::Int(i) => {
                let cs = i64_to_chars(*i);
                chars_to_string(&cs)
            },
            Value::Str(s) => s.clone(),
        }
    }

    /// Truthiness of the value.
    pub fn as_bool(&self) -> (r: bool)
        ensures
            r == truthy(self@),
    {
        self.is_truthy()
    }

    fn from_bool(b: bool) -> (r: Self)
        ensures
            r@ == from_bool_spec(b),
    {
        Value::Int(
            if b {
                1
            } else {
                0
            },
        )
    }

    fn is_truthy(&self) -> (r: bool)
        ensures
            r == truthy(self@),
    {
        match self {
            Value::Int(i) => *i != 0,
            Value::Str(s) => {
                let cs = string_to_chars(s.as_str());
                cs.len() > 0
            },
        }
    }

    fn logical_not(self) -> (r: Value)
        ensures
            r@ == from_bool_spec(!truthy(self@)),
    {
        Value::from_bool(!self.is_truthy())
    }

    fn logical_and(self, other: Value) -> (r: Value)
        ensures
            r@ == from_bool_spec(truthy(self@) && truthy(other@)),
    {
        let a = self.is_truthy();
        let b = other.is_truthy();
        Value::from_bool(a && b)
    }

    fn logical_or(self, other: Value) -> (r: Value)
        ensures
            r@ == from_bool_spec(truthy(self@) || truthy(other@)),
    {
        let a = self.is_truthy();
        let b = other.is_truthy();
        Value::from_bool(a || b)
    }

    fn cmp_val(&self, other: &Value) -> (r: i8)
        ensures
            r as int == cmp_spec(self@, other@),
    {
        match (self, other) {
            (Value::Int(x), Value::Int(y)) => {
                if *x < *y {
                    -1
                } else if *x > *y {
                    1
                } else {
                    0
                }
            },
            (Value::Str(x), Value::Str(y)) => {
                let cx = string_to_chars(x.as_str());
                let cy = string_to_chars(y.as_str());
                lex_cmp(&cx, &cy)
            },
            _ => {
                let x = self.as_int();
                let y = other.as_int();
                if x < y {
                    -1
                } else if x > y {
                    1
                } else {
                    0
                }
            },
        }
    }

    fn add(self, other: Value) -> (r: Result<Value, Error>)
        ensures
            res_models(r, vadd_spec(self@, other@)),
    {
        match (&self, &other) {
            (Value::Int(x), Value::Int(y)) => {
                match x.checked_add(*y) {
                    Some(s) => Ok(Value::Int(s)),
                    None => Err(Error(String::from_str("overflow"))),
                }
            },
            _ => {
                let mut s = self.as_str();
                let t = other.as_str();
                s.append(t.as_str());
                Ok(Value::Str(s))
            },
        }
    }

    fn sub(self, other: Value) -> (r: Result<Value, Error>)
        ensures
            res_models(r, vsub_spec(self@, other@)),
    {
        let x = self.as_int();
        let y = other.as_int();
        match x.checked_sub(y) {
            Some(d) => Ok(Value::Int(d)),
            None => Err(Error(String::from_str("overflow"))),
        }
    }

    fn mul(self, other: Value) -> (r: Result<Value, Error>)
        ensures
            res_models(r, vmul_spec(self@, other@)),
    {
        let x = self.as_int();
        let y = other.as_int();
        match x.checked_mul(y) {
            Some(p) => Ok(Value::Int(p)),
            None => Err(Error(String::from_str("overflow"))),
        }
    }

    fn div(self, other: Value) -> (r: Result<Value, Error>)
        ensures
            res_models(r, vdiv_spec(self@, other@)),
    {
        let x = self.as_int();
        let y = other.as_int();
        if y == 0 {
            Err(Error(String::from_str("division by zero")))
        } else if x == i64::MIN && y == -1 {
            Err(Error(String::from_str("overflow")))
        } else {
            Ok(Value::Int(div_i64(x, y)))
        }
    }

    fn pow_val(self, other: Value) -> (r: Result<Value, Error>)
        ensures
            res_models(r, vpow_spec(self@, other@)),
    {
        let x = self.as_int();
        let y = other.as_int();
        if y < 0 || y > u32::MAX as i64 {
            return Err(Error(String::from_str("overflow")));
        }
        let e: u32 = y as u32;
        let mut acc: i64 = 1;
        let mut k: u32 = 0;
        while k < e
            invariant
                k <= e,
                0 <= y,
                e as int == y as int,
                x == as_int_spec(self@),
                y == as_int_spec(other@),
                pow_checked_spec(x, k as nat) == Some(acc),
            decreases e - k,
        {
            match acc.checked_mul(x) {
                Some(p) => {
                    acc = p;
                },
                None => {
                    proof {
                        assert(pow_checked_spec(x, (k + 1) as nat) is None);
                        lemma_pow_checked_none(x, (k + 1) as nat, e as nat);
                        assert(y as nat == e as nat);
                    }
                    return Err(Error(String::from_str("overflow")));
                },
            }
            k = k + 1;
        }
        Ok(Value::Int(acc))
    }

    fn negate(self) -> (r: Result<Value, Error>)
        ensures
            res_models(r, vneg_spec(self@)),
    {
        let x = self.as_int();
        if x == i64::MIN {
            Err(Error(String::from_str("overflow")))
        } else {
            Ok(Value::Int(-x))
        }
    }
}

/// Truncating signed division, computed over magnitudes.
fn div_i64(a: i64, b: i64) -> (r: i64)
    requires
        b != 0,
        !(a == i64::MIN && b == -1),
    ensures
        r as int == div_trunc(a as int, b as int),
{
    let na = a < 0;
    let nb = b < 0;
    let ma: u64 = if na {
        ((-(a + 1)) as u64) + 1
    } else {
        a as u64
    };
    let mb: u64 = if nb {
        ((-(b + 1)) as u64) + 1
    } else {
        b as u64
    };
    assert(ma as int == abs_int(a as int));
    assert(mb as int == abs_int(b as int));
    let q: u64 = ma / mb;
    proof {
        vstd::arithmetic::div_mod::lemma_div_nonincreasing(ma as int, mb as int);
        assert(q as int <= ma as int);
    }
    if na != nb {
        if q == 0 {
            0
        } else {
            (-((q - 1) as i64)) - 1
        }
    } else {
        proof {
            if ma == 9223372036854775808u64 {
                assert(a == i64::MIN && nb);
                assert(b != -1);
                assert(mb >= 2);
                vstd::arithmetic::div_mod::lemma_div_is_ordered_by_denominator(
                    ma as int,
                    2,
                    mb as int,
                );
                assert(q as int <= ma as int / 2);
            }
        }
        q as i64
    }
}

proof fn lemma_pow_checked_none(a: i64, e1: nat, e2: nat)
    requires
        e1 <= e2,
        pow_checked_spec(a, e1) is None,
    ensures
        pow_checked_spec(a, e2) is None,
    decreases e2,
{
    if e2 > e1 {
        lemma_pow_checked_none(a, e1, (e2 - 1) as nat);
    }
}

/// Resolve the backslash escapes `\\`, `\"` and `\'`; any other escape, and
/// a trailing backslash, pass through unchanged.
pub open spec fn unescape_spec(s: Seq<char>) -> Seq<char>
    decreases s.len(),
{
    if s.len() == 0 {
        s
    } else if s.first() != '\\' {
        seq![s.first()] + unescape_spec(s.drop_first())
    } else if s.len() == 1 {
        seq!['\\']
    } else if s[1] == '\\' || s[1] == '"' || s[1] == '\'' {
        seq![s[1]] + unescape_spec(s.skip(2))
    } else {
        seq!['\\', s[1]] + unescape_spec(s.skip(2))
    }
}

fn unescape_chars(s: &Vec<char>) -> (r: Vec<char>)
    ensures
        r@ == unescape_spec(s@),
{
    let mut out: Vec<char> = Vec::new();
    let mut i: usize = 0;
    proof {
        assert(s@.skip(0) =~= s@);
        assert(out@ + unescape_spec(s@) =~= unescape_spec(s@));
    }
    while i < s.len()
        invariant
            i <= s@.len(),
            out@ + unescape_spec(s@.skip(i as int)) == unescape_spec(s@),
        decreases s@.len() - i,
    {
        let ghost tail: Seq<char> = s@.skip(i as int);
        let c = s[i];
        proof {
            assert(tail.first() == s@[i as int]);
        }
        if c != '\\' {
            out.push(c);
            proof {
                assert(tail.drop_first() =~= s@.skip(i + 1 as int));
                assert(out@ + unescape_spec(s@.skip(i + 1 as int)) =~= (out@.drop_last()
                    + (seq![tail.first()] + unescape_spec(tail.drop_first()))));
            }
            i = i + 1;
        } else if i + 1 == s.len() {
            out.push('\\');
            proof {
                assert(tail.len() == 1);
                assert(s@.skip(i + 1 as int).len() == 0);
                assert(out@ + unescape_spec(s@.skip(i + 1 as int)) =~= out@.drop_last() + seq![
                    '\\',
                ]);
            }
            i = i + 1;
        } else {
            let c2 = s[i + 1];
            proof {
                assert(tail[1] == s@[i + 1]);
                assert(tail.skip(2) =~= s@.skip(i + 2 as int));
            }
            if c2 == '\\' || c2 == '"' || c2 == '\'' {
                out.push(c2);
                proof {
                    assert(out@ + unescape_spec(s@.skip(i + 2 as int)) =~= (out@.drop_last() + (
                    seq![tail[1]] + unescape_spec(tail.skip(2)))));
                }
            } else {
                out.push('\\');
                out.push(c2);
                proof {
                    assert(out@ + unescape_spec(s@.skip(i + 2 as int)) =~= (out@.drop_last().drop_last()
                        + (seq!['\\', tail[1]] + unescape_spec(tail.skip(2)))));
                }
            }
            i = i + 2;
        }
    }
    proof {
        assert(s@.skip(i as int).len() == 0);
        assert(out@ + unescape_spec(s@.skip(i as int)) =~= out@);
    }
    out
}

/// Resolve backslash escapes in a string, as `unescape_spec` says.
pub fn unescape_string(input: &str) -> (r: String)
    ensures
        r@ == unescape_spec(input@),
{
    let cs = string_to_chars(input);
    let out = unescape_chars(&cs);
    chars_to_string(&out)
}

/// A lexical token of the expression language.
pub enum Tok {
    Int(i64),
    StrLit(String),
    Ident(String),
    Ge,
    Le,
    EqEq,
    Ne,
    Gt,
    Lt,
    Plus,
    Minus,
    Star,
    Slash,
    Caret,
    LParen,
    RParen,
    Comma,
}

/// The mathematical shape of a token.
pub enum TokView {
    Int(i64),
    StrLit(Seq<char>),
    Ident(Seq<char>),
    Ge,
    Le,
    EqEq,
    Ne,
    Gt,
    Lt,
    Plus,
    Minus,
    Star,
    Slash,
    Caret,
    LParen,
    RParen,
    Comma,
}

impl View for Tok {
    type V = TokView;

    open spec fn view(&self) -> TokView {
        match self {
            Tok::Int(i) => TokView::Int(*i),
            Tok::StrLit(s) => TokView::StrLit(s@),
            Tok::Ident(s) => TokView::Ident(s@),
            Tok::Ge => TokView::Ge,
            Tok::Le => TokView::Le,
            Tok::EqEq => TokView::EqEq,
            Tok::Ne => TokView::Ne,
            Tok::Gt => TokView::Gt,
            Tok::Lt => TokView::Lt,
            Tok::Plus => TokView::Plus,
            Tok::Minus => TokView::Minus,
            Tok::Star => TokView::Star,
            Tok::Slash => TokView::Slash,
            Tok::Caret => TokView::Caret,
            Tok::LParen => TokView::LParen,
            Tok::RParen => TokView::RParen,
            Tok::Comma => TokView::Comma,
        }
    }
}

pub open spec fn toks_view(ts: Seq<Tok>) -> Seq<TokView> {
    ts.map_values(|t: Tok| t@)
}

pub open spec fn is_ident_start_char(c: char) -> bool {
    (97 <= c as int && c as int <= 122) || (65 <= c as int && c as int <= 90) || c as int == 95
}

pub open spec fn is_ident_char(c: char) -> bool {
    is_ident_start_char(c) || is_digit_char(c)
}

fn char_is_ident_start(c: char) -> (r: bool)
    ensures
        r == is_ident_start_char(c),
{
    (c >= 'a' && c <= 'z') || (c >= 'A' && c <= 'Z') || c == '_'
}

fn char_is_ident(c: char) -> (r: bool)
    ensures
        r == is_ident_char(c),
{
    char_is_ident_start(c) || char_is_digit(c)
}

/// Length of the longest prefix of identifier characters.
pub open spec fn ident_prefix_len(s: Seq<char>) -> int
    decreases s.len(),
{
    if s.len() == 0 || !is_ident_char(s.first()) {
        0
    } else {
        1 + ident_prefix_len(s.drop_first())
    }
}

proof fn lemma_ident_prefix_from_chars(s: Seq<char>, k: int)
    requires
        0 <= k <= s.len(),
        forall|j: int| 0 <= j < k ==> is_ident_char(#[trigger] s[j]),
        k == s.len() || !is_ident_char(s[k]),
    ensures
        ident_prefix_len(s) == k,
    decreases s.len(),
{
    if k == 0 {
    } else {
        assert(is_ident_char(s.first()));
        lemma_ident_prefix_from_chars(s.drop_first(), k - 1);
    }
}

/// Offset of the quote closing a string literal body, honouring the
/// escape pairs.
pub open spec fn close_quote(s: Seq<char>, q: char) -> Option<int>
    decreases s.len(),
{
    if s.len() == 0 {
        None
    } else if s.first() == '\\' && s.len() >= 2 && (s[1] == '"' || s[1] == '\\' || s[1] == '\'') {
        match close_quote(s.skip(2), q) {
            None => None,
            Some(i) => Some(i + 2),
        }
    } else if s.first() == q {
        Some(0)
    } else {
        match close_quote(s.drop_first(), q) {
            None => None,
            Some(i) => Some(i + 1),
        }
    }
}

/// The token stream of a source text, `None` on a malformed text: an
/// unterminated string, an integer literal beyond the value range, or a
/// character outside the language.
pub open spec fn lex_spec(s: Seq<char>) -> Option<Seq<TokView>>
    decreases s.len(),
{
    if s.len() == 0 {
        Some(seq![])
    } else if crate::text::is_space_char(s.first()) {
        lex_spec(s.drop_first())
    } else if is_digit_char(s.first()) {
        let n0 = crate::text::digit_prefix_len(s);
        let n: int = if 1 <= n0 <= s.len() {
            n0
        } else {
            1
        };
        if crate::text::dec_val(s.take(n)) > i64::MAX {
            None
        } else {
            match lex_spec(s.skip(n)) {
                None => None,
                Some(ts) => Some(
                    seq![TokView::Int(crate::text::dec_val(s.take(n)) as i64)] + ts,
                ),
            }
        }
    } else if s.first() == '"' || s.first() == '\'' {
        match close_quote(s.drop_first(), s.first()) {
            None => None,
            Some(i) => {
                let body = s.drop_first().take(i);
                let adv: int = if 0 <= i && i + 2 <= s.len() {
                    i + 2
                } else {
                    s.len() as int
                };
                match lex_spec(s.skip(adv)) {
                    None => None,
                    Some(ts) => Some(seq![TokView::StrLit(unescape_spec(body))] + ts),
                }
            },
        }
    } else if is_ident_start_char(s.first()) {
        let n0 = ident_prefix_len(s);
        let n: int = if 1 <= n0 <= s.len() {
            n0
        } else {
            1
        };
        match lex_spec(s.skip(n)) {
            None => None,
            Some(ts) => Some(seq![TokView::Ident(s.take(n))] + ts),
        }
    } else if s.len() >= 2 && s.first() == '>' && s[1] == '=' {
        match lex_spec(s.skip(2)) {
            None => None,
            Some(ts) => Some(seq![TokView::Ge] + ts),
        }
    } else if s.len() >= 2 && s.first() == '<' && s[1] == '=' {
        match lex_spec(s.skip(2)) {
            None => None,
            Some(ts) => Some(seq![TokView::Le] + ts),
        }
    } else if s.len() >= 2 && s.first() == '=' && s[1] == '=' {
        match lex_spec(s.skip(2)) {
            None => None,
            Some(ts) => Some(seq![TokView::EqEq] + ts),
        }
    } else if s.len() >= 2 && s.first() == '!' && s[1] == '=' {
        match lex_spec(s.skip(2)) {
            None => None,
            Some(ts) => Some(seq![TokView::Ne] + ts),
        }
    } else if s.first() == '>' {
        match lex_spec(s.drop_first()) {
            None => None,
            Some(ts) => Some(seq![TokView::Gt] + ts),
        }
    } else if s.first() == '<' {
        match lex_spec(s.drop_first()) {
            None => None,
            Some(ts) => Some(seq![TokView::Lt] + ts),
        }
    } else if s.first() == '+' {
        match lex_spec(s.drop_first()) {
            None => None,
            Some(ts) => Some(seq![TokView::Plus] + ts),
        }
    } else if s.first() == '-' {
        match lex_spec(s.drop_first()) {
            None => None,
            Some(ts) => Some(seq![TokView::Minus] + ts),
        }
    } else if s.first() == '*' {
        match lex_spec(s.drop_first()) {
            None => None,
            Some(ts) => Some(seq![TokView::Star] + ts),
        }
    } else if s.first() == '/' {
        match lex_spec(s.drop_first()) {
            None => None,
            Some(ts) => Some(seq![TokView::Slash] + ts),
        }
    } else if s.first() == '^' {
        match lex_spec(s.drop_first()) {
            None => None,
            Some(ts) => Some(seq![TokView::Caret] + ts),
        }
    } else if s.first() == '(' {
        match lex_spec(s.drop_first()) {
            None => None,
            Some(ts) => Some(seq![TokView::LParen] + ts),
        }
    } else if s.first() == ')' {
        match lex_spec(s.drop_first()) {
            None => None,
            Some(ts) => Some(seq![TokView::RParen] + ts),
        }
    } else if s.first() == ',' {
        match lex_spec(s.drop_first()) {
            None => None,
            Some(ts) => Some(seq![TokView::Comma] + ts),
        }
    } else {
        None
    }
}

/// Prefix a token sequence onto an optional rest.
pub open spec fn opt_prepend(pre: Seq<TokView>, o: Option<Seq<TokView>>) -> Option<Seq<TokView>> {
    match o {
        None => None,
        Some(ts) => Some(pre + ts),
    }
}

/// Find the closing quote of a string literal body, as `close_quote` says.
fn scan_string_body(s: &Vec<char>, start: usize, q: char) -> (r: Option<usize>)
    requires
        start <= s@.len(),
    ensures
        match r {
            Some(j) => start <= j < s@.len() && close_quote(s@.skip(start as int), q) == Some(
                j - start as int,
            ),
            None => close_quote(s@.skip(start as int), q) is None,
        },
    decreases s@.len() - start,
{
    if start >= s.len() {
        return None;
    }
    let c0 = s[start];
    proof {
        assert(s@.skip(start as int).first() == s@[start as int]);
        assert(s@.skip(start as int).drop_first() =~= s@.skip(start + 1 as int));
    }
    if c0 == '\\' && start + 1 < s.len() && (s[start + 1] == '"' || s[start + 1] == '\\' || s[start
        + 1] == '\'') {
        proof {
            assert(s@.skip(start as int)[1] == s@[start + 1]);
            assert(s@.skip(start as int).skip(2) =~= s@.skip(start + 2 as int));
        }
        match scan_string_body(s, start + 2, q) {
            None => None,
            Some(j) => Some(j),
        }
    } else if c0 == q {
        Some(start)
    } else {
        scan_string_body(s, start + 1, q)
    }
}

/// Tokenize a source text, as `lex_spec` says.
fn lex(s: &Vec<char>) -> (r: Option<Vec<Tok>>)
    ensures
        match r {
            Some(ts) => lex_spec(s@) == Some(toks_view(ts@)),
            None => lex_spec(s@) is None,
        },
{
    let mut toks: Vec<Tok> = Vec::new();
    let mut i: usize = 0;
    proof {
        assert(s@.skip(0) =~= s@);
        assert(toks_view(toks@) + lex_spec(s@)->Some_0 =~= lex_spec(s@)->Some_0);
    }
    while i < s.len()
        invariant
            i <= s@.len(),
            lex_spec(s@) == opt_prepend(toks_view(toks@), lex_spec(s@.skip(i as int))),
        decreases s@.len() - i,
    {
        let ghost tail: Seq<char> = s@.skip(i as int);
        let ghost pre: Seq<TokView> = toks_view(toks@);
        let c = s[i];
        proof {
            assert(tail.first() == s@[i as int]);
            assert(tail.drop_first() =~= s@.skip(i + 1 as int));
        }
        if crate::text::is_space(c) {
            i = i + 1;
        } else if char_is_digit(c) {
            let mut k: usize = i;
            let mut acc: u64 = 0;
            let mut overflow: bool = false;
            while k < s.len() && char_is_digit(s[k])
                invariant
                    i <= k <= s@.len(),
                    tail == s@.skip(i as int),
                    forall|j: int| i <= j < k ==> is_digit_char(#[trigger] s@[j]),
                    !overflow ==> acc as int == crate::text::dec_val(
                        s@.subrange(i as int, k as int),
                    ),
                    overflow ==> crate::text::dec_val(s@.subrange(i as int, k as int))
                        > u64::MAX as int,
                decreases s@.len() - k,
            {
                let d: u64 = match char_digit(s[k]) {
                    Some(d) => d,
                    None => 0,
                };
                proof {
                    assert(s@.subrange(i as int, k + 1 as int).drop_last() =~= s@.subrange(
                        i as int,
                        k as int,
                    ));
                    assert(s@.subrange(i as int, k + 1 as int).last() == s@[k as int]);
                    crate::text::lemma_dec_val_nonneg(s@.subrange(i as int, k as int));
                    assert(digit_val(s@[k as int]) == d as int);
                }
                if !overflow {
                    if acc > (u64::MAX - d) / 10 {
                        overflow = true;
                    } else {
                        acc = acc * 10 + d;
                    }
                }
                k = k + 1;
            }
            proof {
                assert forall|j: int| 0 <= j < k - i implies is_digit_char(#[trigger] tail[j]) by {
                    assert(tail[j] == s@[i + j]);
                }
                if (k as int - i as int) < tail.len() {
                    assert(tail[k - i as int] == s@[k as int]);
                }
                crate::text::lemma_digit_prefix_from_digits(tail, k as int - i as int);
                assert(tail.take(k - i as int) =~= s@.subrange(i as int, k as int));
                assert(is_digit_char(tail.first()));
                assert(k > i);
            }
            if overflow || acc > 9223372036854775807u64 {
                proof {
                    if !overflow {
                        assert(crate::text::dec_val(tail.take(crate::text::digit_prefix_len(tail)))
                            > i64::MAX);
                    }
                }
                return None;
            }
            toks.push(Tok::Int(acc as i64));
            proof {
                assert(tail.skip(k - i as int) =~= s@.skip(k as int));
                assert(toks_view(toks@) =~= pre.push(TokView::Int(acc as i64)));
                lemma_prepend_one(pre, TokView::Int(acc as i64), lex_spec(s@.skip(k as int)));
            }
            i = k;
        } else if c == '"' || c == '\'' {
            match scan_string_body(s, i + 1, c) {
                None => {
                    return None;
                },
                Some(j) => {
                    let mut body: Vec<char> = Vec::new();
                    let mut m: usize = i + 1;
                    while m < j
                        invariant
                            i + 1 <= m <= j <= s@.len(),
                            body@ == s@.subrange(i + 1 as int, m as int),
                        decreases j - m,
                    {
                        body.push(s[m]);
                        proof {
                            assert(s@.subrange(i + 1 as int, m + 1 as int) =~= s@.subrange(
                                i + 1 as int,
                                m as int,
                            ).push(s@[m as int]));
                        }
                        m = m + 1;
                    }
                    let unescaped = unescape_chars(&body);
                    let lit = chars_to_string(&unescaped);
                    toks.push(Tok::StrLit(lit));
                    proof {
                        let t1 = s@.skip(i + 1 as int);
                        let off: int = j as int - (i as int + 1);
                        assert(close_quote(t1, c) == Some(off));
                        assert(body@ =~= s@.subrange(i + 1 as int, j as int));
                        assert(t1.take(off) =~= s@.subrange(i + 1 as int, j as int));
                        assert(tail.drop_first() =~= t1);
                        assert(tail.skip(off + 2) =~= s@.skip(j + 1 as int));
                        assert(toks_view(toks@) =~= pre.push(
                            TokView::StrLit(unescape_spec(t1.take(off))),
                        ));
                        lemma_prepend_one(
                            pre,
                            TokView::StrLit(unescape_spec(t1.take(off))),
                            lex_spec(s@.skip(j + 1 as int)),
                        );
                    }
                    i = j + 1;
                },
            }
        } else if char_is_ident_start(c) {
            let mut k: usize = i;
            while k < s.len() && char_is_ident(s[k])
                invariant
                    i <= k <= s@.len(),
                    forall|j: int| i <= j < k ==> is_ident_char(#[trigger] s@[j]),
                decreases s@.len() - k,
            {
                k = k + 1;
            }
            proof {
                assert forall|j: int| 0 <= j < k - i implies is_ident_char(#[trigger] tail[j]) by {
                    assert(tail[j] == s@[i + j]);
                }
                if (k as int - i as int) < tail.len() {
                    assert(tail[k - i as int] == s@[k as int]);
                }
                lemma_ident_prefix_from_chars(tail, k as int - i as int);
                assert(is_ident_char(tail.first()));
                assert(k > i);
            }
            let mut name: Vec<char> = Vec::new();
            let mut m: usize = i;
            while m < k
                invariant
                    i <= m <= k <= s@.len(),
                    name@ == s@.subrange(i as int, m as int),
                decreases k - m,
            {
                name.push(s[m]);
                proof {
                    assert(s@.subrange(i as int, m + 1 as int) =~= s@.subrange(
                        i as int,
                        m as int,
                    ).push(s@[m as int]));
                }
                m = m + 1;
            }
            let id = chars_to_string(&name);
            toks.push(Tok::Ident(id));
            proof {
                assert(tail.take(k - i as int) =~= s@.subrange(i as int, k as int));
                assert(tail.skip(k - i as int) =~= s@.skip(k as int));
                assert(toks_view(toks@) =~= pre.push(TokView::Ident(tail.take(k - i as int))));
                lemma_prepend_one(
                    pre,
                    TokView::Ident(tail.take(k - i as int)),
                    lex_spec(s@.skip(k as int)),
                );
            }
            i = k;
        } else {
            let two = i + 1 < s.len();
            let ghost t2: Seq<char> = s@.skip(i + 2 as int);
            proof {
                if i + 1 < s@.len() {
                    assert(tail[1] == s@[i + 1]);
                    assert(tail.skip(2) =~= s@.skip(i + 2 as int));
                }
            }
            let tok: Tok;
            let adv: usize;
            if two && c == '>' && s[i + 1] == '=' {
                tok = Tok::Ge;
                adv = 2;
            } else if two && c == '<' && s[i + 1] == '=' {
                tok = Tok::Le;
                adv = 2;
            } else if two && c == '=' && s[i + 1] == '=' {
                tok = Tok::EqEq;
                adv = 2;
            } else if two && c == '!' && s[i + 1] == '=' {
                tok = Tok::Ne;
                adv = 2;
            } else if c == '>' {
                tok = Tok::Gt;
                adv = 1;
            } else if c == '<' {
                tok = Tok::Lt;
                adv = 1;
            } else if c == '+' {
                tok = Tok::Plus;
                adv = 1;
            } else if c == '-' {
                tok = Tok::Minus;
                adv = 1;
            } else if c == '*' {
                tok = Tok::Star;
                adv = 1;
            } else if c == '/' {
                tok = Tok::Slash;
                adv = 1;
            } else if c == '^' {
                tok = Tok::Caret;
                adv = 1;
            } else if c == '(' {
                tok = Tok::LParen;
                adv = 1;
            } else if c == ')' {
                tok = Tok::RParen;
                adv = 1;
            } else if c == ',' {
                tok = Tok::Comma;
                adv = 1;
            } else {
                return None;
            }
            toks.push(tok);
            proof {
                assert(toks_view(toks@) =~= pre.push(tok@));
                lemma_prepend_one(pre, tok@, lex_spec(s@.skip(i + adv as int)));
            }
            i = i + adv;
        }
    }
    proof {
        assert(s@.skip(i as int).len() == 0);
        assert(lex_spec(s@.skip(i as int)) == Some(Seq::<TokView>::empty()));
        assert(toks_view(toks@) + Seq::<TokView>::empty() =~= toks_view(toks@));
    }
    Some(toks)
}

proof fn lemma_prepend_one(pre: Seq<TokView>, t: TokView, rest: Option<Seq<TokView>>)
    ensures
        opt_prepend(pre, opt_prepend(seq![t], rest)) == opt_prepend(pre.push(t), rest),
{
    match rest {
        None => {},
        Some(ts) => {
            assert(pre + (seq![t] + ts) =~= pre.push(t) + ts);
        },
    }
}

/// The mathematical shape of an executable evaluation outcome.
pub open spec fn rview(r: Result<Value, Error>) -> EvalRes {
    match r {
        Ok(v) => Ok(v@),
        Err(e) => Err(e@),
    }
}

/// Run two sub-results in order, stopping at the first failure.
pub open spec fn seq2(a: EvalRes, b: EvalRes) -> Result<(ValView, ValView), Seq<char>> {
    match a {
        Err(e) => Err(e),
        Ok(va) => match b {
            Err(e) => Err(e),
            Ok(vb) => Ok((va, vb)),
        },
    }
}

pub open spec fn op_or_spec(a: EvalRes, b: EvalRes) -> EvalRes {
    match seq2(a, b) {
        Err(e) => Err(e),
        Ok((x, y)) => Ok(from_bool_spec(truthy(x) || truthy(y))),
    }
}

pub open spec fn op_and_spec(a: EvalRes, b: EvalRes) -> EvalRes {
    match seq2(a, b) {
        Err(e) => Err(e),
        Ok((x, y)) => Ok(from_bool_spec(truthy(x) && truthy(y))),
    }
}

pub open spec fn op_not_spec(a: EvalRes) -> EvalRes {
    match a {
        Err(e) => Err(e),
        Ok(v) => Ok(from_bool_spec(!truthy(v))),
    }
}

/// A comparison operator of the language.
#[derive(Clone, Copy, PartialEq, Eq, Structural)]
pub enum RelOp {
    Ge,
    Le,
    Eq,
    Ne,
    Gt,
    Lt,
}

pub open spec fn rel_holds(op: RelOp, c: int) -> bool {
    match op {
        RelOp::Ge => c >= 0,
        RelOp::Le => c <= 0,
        RelOp::Eq => c == 0,
        RelOp::Ne => c != 0,
        RelOp::Gt => c > 0,
        RelOp::Lt => c < 0,
    }
}

pub open spec fn op_rel_spec(op: RelOp, a: EvalRes, b: EvalRes) -> EvalRes {
    match seq2(a, b) {
        Err(e) => Err(e),
        Ok((x, y)) => Ok(from_bool_spec(rel_holds(op, cmp_spec(x, y)))),
    }
}

pub open spec fn op_add_spec(a: EvalRes, b: EvalRes) -> EvalRes {
    match seq2(a, b) {
        Err(e) => Err(e),
        Ok((x, y)) => vadd_spec(x, y),
    }
}

pub open spec fn op_sub_spec(a: EvalRes, b: EvalRes) -> EvalRes {
    match seq2(a, b) {
        Err(e) => Err(e),
        Ok((x, y)) => vsub_spec(x, y),
    }
}

pub open spec fn op_mul_spec(a: EvalRes, b: EvalRes) -> EvalRes {
    match seq2(a, b) {
        Err(e) => Err(e),
        Ok((x, y)) => vmul_spec(x, y),
    }
}

pub open spec fn op_div_spec(a: EvalRes, b: EvalRes) -> EvalRes {
    match seq2(a, b) {
        Err(e) => Err(e),
        Ok((x, y)) => vdiv_spec(x, y),
    }
}

pub open spec fn op_pow_spec(a: EvalRes, b: EvalRes) -> EvalRes {
    match seq2(a, b) {
        Err(e) => Err(e),
        Ok((x, y)) => vpow_spec(x, y),
    }
}

pub open spec fn op_neg_spec(a: EvalRes) -> EvalRes {
    match a {
        Err(e) => Err(e),
        Ok(v) => vneg_spec(v),
    }
}

pub open spec fn op_str_spec(a: EvalRes) -> EvalRes {
    match a {
        Err(e) => Err(e),
        Ok(v) => Ok(ValView::Str(as_str_spec(v))),
    }
}

pub open spec fn op_int_spec(a: EvalRes) -> EvalRes {
    match a {
        Err(e) => Err(e),
        Ok(v) => Ok(ValView::Int(as_int_spec(v))),
    }
}

/// Character count of a string, clamped to the value range.  The `length`
/// builtin counts characters, not encoded bytes; the two differ only
/// outside ASCII.
pub open spec fn len_clamp(s: Seq<char>) -> i64 {
    if s.len() > i64::MAX {
        i64::MAX
    } else {
        s.len() as i64
    }
}

pub open spec fn op_len_spec(a: EvalRes) -> EvalRes {
    match a {
        Err(e) => Err(e),
        Ok(v) => Ok(ValView::Int(len_clamp(as_str_spec(v)))),
    }
}

pub open spec fn op_startswith_spec(a: EvalRes, b: EvalRes) -> EvalRes {
    match seq2(a, b) {
        Err(e) => Err(e),
        Ok((x, y)) => {
            let sx = as_str_spec(x);
            let sy = as_str_spec(y);
            Ok(from_bool_spec(sy.len() <= sx.len() && sx.take(sy.len() as int) == sy))
        },
    }
}

pub open spec fn op_endswith_spec(a: EvalRes, b: EvalRes) -> EvalRes {
    match seq2(a, b) {
        Err(e) => Err(e),
        Ok((x, y)) => {
            let sx = as_str_spec(x);
            let sy = as_str_spec(y);
            Ok(from_bool_spec(sy.len() <= sx.len() && sx.skip(sx.len() - sy.len()) == sy))
        },
    }
}

pub open spec fn op_contains_spec(a: EvalRes, b: EvalRes) -> EvalRes {
    match seq2(a, b) {
        Err(e) => Err(e),
        Ok((x, y)) => {
            let sx = as_str_spec(x);
            let sy = as_str_spec(y);
            Ok(from_bool_spec(exists|i: int| matches_at(sx, sy, i)))
        },
    }
}

/// Looking up an identifier in the context: its value, or an unknown
/// identifier error.
pub open spec fn ident_spec(name: Seq<char>, keys: Seq<Seq<char>>, vals: Seq<ValView>) -> EvalRes {
    let f = crate::kmap::find_key(keys, name);
    if f >= 0 {
        Ok(vals[f])
    } else {
        Err("unknown identifier: "@ + name)
    }
}

/// A parse step: the outcome of a sub-expression and the position after it,
/// or `None` on a malformed expression.
pub type StepRes = Option<(EvalRes, int)>;

/// Disjunction tier: `and` tiers joined by `or`, left associative.
pub open spec fn p_or(toks: Seq<TokView>, pos: int, keys: Seq<Seq<char>>, vals: Seq<ValView>) -> StepRes
    decreases toks.len() - pos, 17int,
    when 0 <= pos <= toks.len()
{
    match p_and(toks, pos, keys, vals) {
        None => None,
        Some((v, p)) => if pos < p <= toks.len() {
            p_or_tail(toks, p, v, keys, vals)
        } else {
            None
        },
    }
}

pub open spec fn p_or_tail(
    toks: Seq<TokView>,
    pos: int,
    acc: EvalRes,
    keys: Seq<Seq<char>>,
    vals: Seq<ValView>,
) -> StepRes
    decreases toks.len() - pos, 16int,
    when 0 <= pos <= toks.len()
{
    if pos < toks.len() && toks[pos] == TokView::Ident("or"@) {
        match p_and(toks, pos + 1, keys, vals) {
            None => None,
            Some((v2, p2)) => if pos < p2 <= toks.len() {
                p_or_tail(toks, p2, op_or_spec(acc, v2), keys, vals)
            } else {
                None
            },
        }
    } else {
        Some((acc, pos))
    }
}

/// Conjunction tier: `not` tiers joined by `and`, left associative.
pub open spec fn p_and(toks: Seq<TokView>, pos: int, keys: Seq<Seq<char>>, vals: Seq<ValView>) -> StepRes
    decreases toks.len() - pos, 15int,
    when 0 <= pos <= toks.len()
{
    match p_not(toks, pos, keys, vals) {
        None => None,
        Some((v, p)) => if pos < p <= toks.len() {
            p_and_tail(toks, p, v, keys, vals)
        } else {
            None
        },
    }
}

pub open spec fn p_and_tail(
    toks: Seq<TokView>,
    pos: int,
    acc: EvalRes,
    keys: Seq<Seq<char>>,
    vals: Seq<ValView>,
) -> StepRes
    decreases toks.len() - pos, 14int,
    when 0 <= pos <= toks.len()
{
    if pos < toks.len() && toks[pos] == TokView::Ident("and"@) {
        match p_not(toks, pos + 1, keys, vals) {
            None => None,
            Some((v2, p2)) => if pos < p2 <= toks.len() {
                p_and_tail(toks, p2, op_and_spec(acc, v2), keys, vals)
            } else {
                None
            },
        }
    } else {
        Some((acc, pos))
    }
}

/// Negation tier: any number of prefix `not`s over a comparison tier.
pub open spec fn p_not(toks: Seq<TokView>, pos: int, keys: Seq<Seq<char>>, vals: Seq<ValView>) -> StepRes
    decreases toks.len() - pos, 13int,
    when 0 <= pos <= toks.len()
{
    if pos < toks.len() && toks[pos] == TokView::Ident("not"@) {
        match p_not(toks, pos + 1, keys, vals) {
            None => None,
            Some((v, p)) => Some((op_not_spec(v), p)),
        }
    } else {
        p_cmp(toks, pos, keys, vals)
    }
}

pub open spec fn rel_of_tok(t: TokView) -> Option<RelOp> {
    match t {
        TokView::Ge => Some(RelOp::Ge),
        TokView::Le => Some(RelOp::Le),
        TokView::EqEq => Some(RelOp::Eq),
        TokView::Ne => Some(RelOp::Ne),
        TokView::Gt => Some(RelOp::Gt),
        TokView::Lt => Some(RelOp::Lt),
        _ => None,
    }
}

/// Comparison tier: additive tiers joined by relational operators, left
/// associative.
pub open spec fn p_cmp(toks: Seq<TokView>, pos: int, keys: Seq<Seq<char>>, vals: Seq<ValView>) -> StepRes
    decreases toks.len() - pos, 12int,
    when 0 <= pos <= toks.len()
{
    match p_add(toks, pos, keys, vals) {
        None => None,
        Some((v, p)) => if pos < p <= toks.len() {
            p_cmp_tail(toks, p, v, keys, vals)
        } else {
            None
        },
    }
}

pub open spec fn p_cmp_tail(
    toks: Seq<TokView>,
    pos: int,
    acc: EvalRes,
    keys: Seq<Seq<char>>,
    vals: Seq<ValView>,
) -> StepRes
    decreases toks.len() - pos, 11int,
    when 0 <= pos <= toks.len()
{
    if pos < toks.len() && rel_of_tok(toks[pos]) is Some {
        let op = rel_of_tok(toks[pos])->Some_0;
        match p_add(toks, pos + 1, keys, vals) {
            None => None,
            Some((v2, p2)) => if pos < p2 <= toks.len() {
                p_cmp_tail(toks, p2, op_rel_spec(op, acc, v2), keys, vals)
            } else {
                None
            },
        }
    } else {
        Some((acc, pos))
    }
}

/// Additive tier: multiplicative tiers joined by `+` and binary `-`.
pub open spec fn p_add(toks: Seq<TokView>, pos: int, keys: Seq<Seq<char>>, vals: Seq<ValView>) -> StepRes
    decreases toks.len() - pos, 10int,
    when 0 <= pos <= toks.len()
{
    match p_mul(toks, pos, keys, vals) {
        None => None,
        Some((v, p)) => if pos < p <= toks.len() {
            p_add_tail(toks, p, v, keys, vals)
        } else {
            None
        },
    }
}

pub open spec fn p_add_tail(
    toks: Seq<TokView>,
    pos: int,
    acc: EvalRes,
    keys: Seq<Seq<char>>,
    vals: Seq<ValView>,
) -> StepRes
    decreases toks.len() - pos, 9int,
    when 0 <= pos <= toks.len()
{
    if pos < toks.len() && (toks[pos] == TokView::Plus || toks[pos] == TokView::Minus) {
        let plus = toks[pos] == TokView::Plus;
        match p_mul(toks, pos + 1, keys, vals) {
            None => None,
            Some((v2, p2)) => if pos < p2 <= toks.len() {
                p_add_tail(
                    toks,
                    p2,
                    if plus {
                        op_add_spec(acc, v2)
                    } else {
                        op_sub_spec(acc, v2)
                    },
                    keys,
                    vals,
                )
            } else {
                None
            },
        }
    } else {
        Some((acc, pos))
    }
}

/// Multiplicative tier: unary tiers joined by `*` and `/`.
pub open spec fn p_mul(toks: Seq<TokView>, pos: int, keys: Seq<Seq<char>>, vals: Seq<ValView>) -> StepRes
    decreases toks.len() - pos, 8int,
    when 0 <= pos <= toks.len()
{
    match p_unary(toks, pos, keys, vals) {
        None => None,
        Some((v, p)) => if pos < p <= toks.len() {
            p_mul_tail(toks, p, v, keys, vals)
        } else {
            None
        },
    }
}

pub open spec fn p_mul_tail(
    toks: Seq<TokView>,
    pos: int,
    acc: EvalRes,
    keys: Seq<Seq<char>>,
    vals: Seq<ValView>,
) -> StepRes
    decreases toks.len() - pos, 7int,
    when 0 <= pos <= toks.len()
{
    if pos < toks.len() && (toks[pos] == TokView::Star || toks[pos] == TokView::Slash) {
        let star = toks[pos] == TokView::Star;
        match p_unary(toks, pos + 1, keys, vals) {
            None => None,
            Some((v2, p2)) => if pos < p2 <= toks.len() {
                p_mul_tail(
                    toks,
                    p2,
                    if star {
                        op_mul_spec(acc, v2)
                    } else {
                        op_div_spec(acc, v2)
                    },
                    keys,
                    vals,
                )
            } else {
                None
            },
        }
    } else {
        Some((acc, pos))
    }
}

/// Unary tier: any number of prefix minus signs over an exponent tier.
pub open spec fn p_unary(toks: Seq<TokView>, pos: int, keys: Seq<Seq<char>>, vals: Seq<ValView>) -> StepRes
    decreases toks.len() - pos, 6int,
    when 0 <= pos <= toks.len()
{
    if pos < toks.len() && toks[pos] == TokView::Minus {
        match p_unary(toks, pos + 1, keys, vals) {
            None => None,
            Some((v, p)) => Some((op_neg_spec(v), p)),
        }
    } else {
        p_pow(toks, pos, keys, vals)
    }
}

/// Exponent tier: an atom, optionally raised to a unary tier, binding
/// tighter than unary minus and associating to the right.
pub open spec fn p_pow(toks: Seq<TokView>, pos: int, keys: Seq<Seq<char>>, vals: Seq<ValView>) -> StepRes
    decreases toks.len() - pos, 5int,
    when 0 <= pos <= toks.len()
{
    match p_atom(toks, pos, keys, vals) {
        None => None,
        Some((v, p)) => if pos < p <= toks.len() {
            if p < toks.len() && toks[p] == TokView::Caret {
                if p + 1 <= toks.len() {
                    match p_unary(toks, p + 1, keys, vals) {
                        None => None,
                        Some((v2, p2)) => Some((op_pow_spec(v, v2), p2)),
                    }
                } else {
                    None
                }
            } else {
                Some((v, p))
            }
        } else {
            None
        },
    }
}

/// One-argument builtin call: the body expression and the closing paren.
pub open spec fn p_call1(toks: Seq<TokView>, pos: int, keys: Seq<Seq<char>>, vals: Seq<ValView>) -> StepRes
    decreases toks.len() - pos, 18int,
    when 0 <= pos <= toks.len()
{
    match p_or(toks, pos, keys, vals) {
        None => None,
        Some((v, p)) => if pos <= p < toks.len() && toks[p] == TokView::RParen {
            Some((v, p + 1))
        } else {
            None
        },
    }
}

/// Two-argument builtin call: both expressions, the comma, and the closing
/// paren.
pub open spec fn p_call2(toks: Seq<TokView>, pos: int, keys: Seq<Seq<char>>, vals: Seq<ValView>) -> Option<
    (EvalRes, EvalRes, int),
>
    decreases toks.len() - pos, 18int,
    when 0 <= pos <= toks.len()
{
    match p_or(toks, pos, keys, vals) {
        None => None,
        Some((a, p)) => if pos <= p < toks.len() && toks[p] == TokView::Comma {
            match p_or(toks, p + 1, keys, vals) {
                None => None,
                Some((b, p2)) => if p < p2 < toks.len() && toks[p2] == TokView::RParen {
                    Some((a, b, p2 + 1))
                } else {
                    None
                },
            }
        } else {
            None
        },
    }
}

/// Whether an identifier is a reserved word rather than a variable.
pub open spec fn is_reserved(name: Seq<char>) -> bool {
    name == "or"@ || name == "and"@ || name == "not"@
}

/// Atom tier: literals, identifier lookup, parenthesised expressions and
/// the builtin calls.
pub open spec fn p_atom(toks: Seq<TokView>, pos: int, keys: Seq<Seq<char>>, vals: Seq<ValView>) -> StepRes
    decreases toks.len() - pos, 3int,
    when 0 <= pos <= toks.len()
{
    if pos >= toks.len() {
        None
    } else {
        match toks[pos] {
            TokView::Int(i) => Some((Ok(ValView::Int(i)), pos + 1)),
            TokView::StrLit(s) => Some((Ok(ValView::Str(s)), pos + 1)),
            TokView::LParen => match p_or(toks, pos + 1, keys, vals) {
                None => None,
                Some((v, p)) => if pos < p < toks.len() && toks[p] == TokView::RParen {
                    Some((v, p + 1))
                } else {
                    None
                },
            },
            TokView::Ident(name) => {
                if name == "true"@ {
                    Some((Ok(ValView::Int(1)), pos + 1))
                } else if name == "false"@ {
                    Some((Ok(ValView::Int(0)), pos + 1))
                } else if pos + 1 < toks.len() && toks[pos + 1] == TokView::LParen && (name
                    == "str"@ || name == "int"@ || name == "length"@) {
                    match p_call1(toks, pos + 2, keys, vals) {
                        None => None,
                        Some((v, p)) => Some(
                            (
                                if name == "str"@ {
                                    op_str_spec(v)
                                } else if name == "int"@ {
                                    op_int_spec(v)
                                } else {
                                    op_len_spec(v)
                                },
                                p,
                            ),
                        ),
                    }
                } else if pos + 1 < toks.len() && toks[pos + 1] == TokView::LParen && (name
                    == "startswith"@ || name == "endswith"@ || name == "contains"@) {
                    match p_call2(toks, pos + 2, keys, vals) {
                        None => None,
                        Some((a, b, p)) => Some(
                            (
                                if name == "startswith"@ {
                                    op_startswith_spec(a, b)
                                } else if name == "endswith"@ {
                                    op_endswith_spec(a, b)
                                } else {
                                    op_contains_spec(a, b)
                                },
                                p,
                            ),
                        ),
                    }
                } else if is_reserved(name) {
                    None
                } else {
                    Some((ident_spec(name, keys, vals), pos + 1))
                }
            },
            _ => None,
        }
    }
}

/// The outcome of evaluating a whole source text against a context: a parse
/// failure, an evaluation failure, or a value, always the same for the same
/// `(source, context)` pair.
pub open spec fn calc_spec(src: Seq<char>, keys: Seq<Seq<char>>, vals: Seq<ValView>) -> EvalRes {
    match lex_spec(src) {
        None => Err("parse error"@),
        Some(toks) => match p_or(toks, 0, keys, vals) {
            None => Err("parse error"@),
            Some((v, p)) => if p == toks.len() {
                v
            } else {
                Err("parse error"@)
            },
        },
    }
}

fn ex_or(a: Result<Value, Error>, b: Result<Value, Error>) -> (r: Result<Value, Error>)
    ensures
        rview(r) == op_or_spec(rview(a), rview(b)),
{
    match a {
        Err(e) => Err(e),
        Ok(va) => match b {
            Err(e) => Err(e),
            Ok(vb) => Ok(va.logical_or(vb)),
        },
    }
}

fn ex_and(a: Result<Value, Error>, b: Result<Value, Error>) -> (r: Result<Value, Error>)
    ensures
        rview(r) == op_and_spec(rview(a), rview(b)),
{
    match a {
        Err(e) => Err(e),
        Ok(va) => match b {
            Err(e) => Err(e),
            Ok(vb) => Ok(va.logical_and(vb)),
        },
    }
}

fn ex_not(a: Result<Value, Error>) -> (r: Result<Value, Error>)
    ensures
        rview(r) == op_not_spec(rview(a)),
{
    match a {
        Err(e) => Err(e),
        Ok(va) => Ok(va.logical_not()),
    }
}

fn ex_rel(op: RelOp, a: Result<Value, Error>, b: Result<Value, Error>) -> (r: Result<Value, Error>)
    ensures
        rview(r) == op_rel_spec(op, rview(a), rview(b)),
{
    match a {
        Err(e) => Err(e),
        Ok(va) => match b {
            Err(e) => Err(e),
            Ok(vb) => {
                let c = va.cmp_val(&vb);
                let holds = match op {
                    RelOp::Ge => c >= 0,
                    RelOp::Le => c <= 0,
                    RelOp::Eq => c == 0,
                    RelOp::Ne => c != 0,
                    RelOp::Gt => c > 0,
                    RelOp::Lt => c < 0,
                };
                Ok(Value::from_bool(holds))
            },
        },
    }
}

fn ex_add(a: Result<Value, Error>, b: Result<Value, Error>) -> (r: Result<Value, Error>)
    ensures
        rview(r) == op_add_spec(rview(a), rview(b)),
{
    match a {
        Err(e) => Err(e),
        Ok(va) => match b {
            Err(e) => Err(e),
            Ok(vb) => va.add(vb),
        },
    }
}

fn ex_sub(a: Result<Value, Error>, b: Result<Value, Error>) -> (r: Result<Value, Error>)
    ensures
        rview(r) == op_sub_spec(rview(a), rview(b)),
{
    match a {
        Err(e) => Err(e),
        Ok(va) => match b {
            Err(e) => Err(e),
            Ok(vb) => va.sub(vb),
        },
    }
}

fn ex_mul(a: Result<Value, Error>, b: Result<Value, Error>) -> (r: Result<Value, Error>)
    ensures
        rview(r) == op_mul_spec(rview(a), rview(b)),
{
    match a {
        Err(e) => Err(e),
        Ok(va) => match b {
            Err(e) => Err(e),
            Ok(vb) => va.mul(vb),
        },
    }
}

fn ex_div(a: Result<Value, Error>, b: Result<Value, Error>) -> (r: Result<Value, Error>)
    ensures
        rview(r) == op_div_spec(rview(a), rview(b)),
{
    match a {
        Err(e) => Err(e),
        Ok(va) => match b {
            Err(e) => Err(e),
            Ok(vb) => va.div(vb),
        },
    }
}

fn ex_pow(a: Result<Value, Error>, b: Result<Value, Error>) -> (r: Result<Value, Error>)
    ensures
        rview(r) == op_pow_spec(rview(a), rview(b)),
{
    match a {
        Err(e) => Err(e),
        Ok(va) => match b {
            Err(e) => Err(e),
            Ok(vb) => va.pow_val(vb),
        },
    }
}

fn ex_neg(a: Result<Value, Error>) -> (r: Result<Value, Error>)
    ensures
        rview(r) == op_neg_spec(rview(a)),
{
    match a {
        Err(e) => Err(e),
        Ok(va) => va.negate(),
    }
}

fn ex_str(a: Result<Value, Error>) -> (r: Result<Value, Error>)
    ensures
        rview(r) == op_str_spec(rview(a)),
{
    match a {
        Err(e) => Err(e),
        Ok(va) => Ok(Value::Str(va.as_str())),
    }
}

fn ex_int(a: Result<Value, Error>) -> (r: Result<Value, Error>)
    ensures
        rview(r) == op_int_spec(rview(a)),
{
    match a {
        Err(e) => Err(e),
        Ok(va) => Ok(Value::Int(va.as_int())),
    }
}

fn ex_len(a: Result<Value, Error>) -> (r: Result<Value, Error>)
    ensures
        rview(r) == op_len_spec(rview(a)),
{
    match a {
        Err(e) => Err(e),
        Ok(va) => {
            let s = va.as_str();
            let cs = string_to_chars(s.as_str());
            let l = cs.len();
            if l as u64 > 9223372036854775807u64 {
                Ok(Value::Int(i64::MAX))
            } else {
                Ok(Value::Int(l as i64))
            }
        },
    }
}

fn ex_startswith(a: Result<Value, Error>, b: Result<Value, Error>) -> (r: Result<Value, Error>)
    ensures
        rview(r) == op_startswith_spec(rview(a), rview(b)),
{
    match a {
        Err(e) => Err(e),
        Ok(va) => match b {
            Err(e) => Err(e),
            Ok(vb) => {
                let sa = string_to_chars(va.as_str().as_str());
                let sb = string_to_chars(vb.as_str().as_str());
                Ok(Value::from_bool(starts_with_chars(&sa, &sb)))
            },
        },
    }
}

fn ex_endswith(a: Result<Value, Error>, b: Result<Value, Error>) -> (r: Result<Value, Error>)
    ensures
        rview(r) == op_endswith_spec(rview(a), rview(b)),
{
    match a {
        Err(e) => Err(e),
        Ok(va) => match b {
            Err(e) => Err(e),
            Ok(vb) => {
                let sa = string_to_chars(va.as_str().as_str());
                let sb = string_to_chars(vb.as_str().as_str());
                Ok(Value::from_bool(ends_with_chars(&sa, &sb)))
            },
        },
    }
}

fn ex_contains(a: Result<Value, Error>, b: Result<Value, Error>) -> (r: Result<Value, Error>)
    ensures
        rview(r) == op_contains_spec(rview(a), rview(b)),
{
    match a {
        Err(e) => Err(e),
        Ok(va) => match b {
            Err(e) => Err(e),
            Ok(vb) => {
                let sa = string_to_chars(va.as_str().as_str());
                let sb = string_to_chars(vb.as_str().as_str());
                let found = find_sub(&sa, &sb);
                proof {
                    match found {
                        Some(i) => {
                            assert(matches_at(sa@, sb@, i as int));
                        },
                        None => {},
                    }
                }
                Ok(Value::from_bool(found.is_some()))
            },
        },
    }
}

fn is_ident_tok(t: &Tok, w: &str) -> (r: bool)
    ensures
        r == (t@ == TokView::Ident(w@)),
{
    match t {
        Tok::Ident(s) => crate::text::str_eq(s.as_str(), w),
        _ => false,
    }
}

fn rel_of_tok_exec(t: &Tok) -> (r: Option<RelOp>)
    ensures
        r == rel_of_tok(t@),
{
    match t {
        Tok::Ge => Some(RelOp::Ge),
        Tok::Le => Some(RelOp::Le),
        Tok::EqEq => Some(RelOp::Eq),
        Tok::Ne => Some(RelOp::Ne),
        Tok::Gt => Some(RelOp::Gt),
        Tok::Lt => Some(RelOp::Lt),
        _ => None,
    }
}

/// Whether an executable parse step is modelled by a specification step.
pub open spec fn step_models(
    r: Option<(Result<Value, Error>, usize)>,
    s: StepRes,
    pos: int,
    len: int,
) -> bool {
    match r {
        None => s is None,
        Some((res, p)) => s is Some && pos < p <= len && s->Some_0.1 == p as int && rview(res)
            == s->Some_0.0,
    }
}

fn e_or(toks: &Vec<Tok>, pos: usize, ctx: &Ctx) -> (r: Option<(Result<Value, Error>, usize)>)
    requires
        pos <= toks@.len(),
        ctx.wf(),
    ensures
        step_models(
            r,
            p_or(toks_view(toks@), pos as int, ctx.keys(), ctx.vals()),
            pos as int,
            toks@.len() as int,
        ),
    decreases toks@.len() - pos, 17int,
{
    let ghost tv = toks_view(toks@);
    let first = e_and(toks, pos, ctx);
    let (mut cur, mut cp) = match first {
        None => {
            return None;
        },
        Some(x) => x,
    };
    let ghost mut sacc: EvalRes = rview(cur);
    while cp < toks.len() && is_ident_tok(&toks[cp], "or")
        invariant
            pos < cp <= toks@.len(),
            ctx.wf(),
            tv == toks_view(toks@),
            rview(cur) == sacc,
            p_or(tv, pos as int, ctx.keys(), ctx.vals()) == p_or_tail(
                tv,
                cp as int,
                sacc,
                ctx.keys(),
                ctx.vals(),
            ),
        decreases toks@.len() - cp,
    {
        proof {
            assert(tv[cp as int] == toks@[cp as int]@);
        }
        let r2 = e_and(toks, cp + 1, ctx);
        match r2 {
            None => {
                return None;
            },
            Some((v2, p2)) => {
                proof {
                    sacc = op_or_spec(sacc, rview(v2));
                }
                cur = ex_or(cur, v2);
                cp = p2;
            },
        }
    }
    proof {
        if cp < toks@.len() {
            assert(tv[cp as int] == toks@[cp as int]@);
        }
    }
    Some((cur, cp))
}

fn e_and(toks: &Vec<Tok>, pos: usize, ctx: &Ctx) -> (r: Option<(Result<Value, Error>, usize)>)
    requires
        pos <= toks@.len(),
        ctx.wf(),
    ensures
        step_models(
            r,
            p_and(toks_view(toks@), pos as int, ctx.keys(), ctx.vals()),
            pos as int,
            toks@.len() as int,
        ),
    decreases toks@.len() - pos, 15int,
{
    let ghost tv = toks_view(toks@);
    let first = e_not(toks, pos, ctx);
    let (mut cur, mut cp) = match first {
        None => {
            return None;
        },
        Some(x) => x,
    };
    let ghost mut sacc: EvalRes = rview(cur);
    while cp < toks.len() && is_ident_tok(&toks[cp], "and")
        invariant
            pos < cp <= toks@.len(),
            ctx.wf(),
            tv == toks_view(toks@),
            rview(cur) == sacc,
            p_and(tv, pos as int, ctx.keys(), ctx.vals()) == p_and_tail(
                tv,
                cp as int,
                sacc,
                ctx.keys(),
                ctx.vals(),
            ),
        decreases toks@.len() - cp,
    {
        proof {
            assert(tv[cp as int] == toks@[cp as int]@);
        }
        let r2 = e_not(toks, cp + 1, ctx);
        match r2 {
            None => {
                return None;
            },
            Some((v2, p2)) => {
                proof {
                    sacc = op_and_spec(sacc, rview(v2));
                }
                cur = ex_and(cur, v2);
                cp = p2;
            },
        }
    }
    proof {
        if cp < toks@.len() {
            assert(tv[cp as int] == toks@[cp as int]@);
        }
    }
    Some((cur, cp))
}

fn e_not(toks: &Vec<Tok>, pos: usize, ctx: &Ctx) -> (r: Option<(Result<Value, Error>, usize)>)
    requires
        pos <= toks@.len(),
        ctx.wf(),
    ensures
        step_models(
            r,
            p_not(toks_view(toks@), pos as int, ctx.keys(), ctx.vals()),
            pos as int,
            toks@.len() as int,
        ),
    decreases toks@.len() - pos, 13int,
{
    let ghost tv = toks_view(toks@);
    if pos < toks.len() && is_ident_tok(&toks[pos], "not") {
        proof {
            assert(tv[pos as int] == toks@[pos as int]@);
        }
        match e_not(toks, pos + 1, ctx) {
            None => None,
            Some((v, p)) => Some((ex_not(v), p)),
        }
    } else {
        proof {
            if pos < toks@.len() {
                assert(tv[pos as int] == toks@[pos as int]@);
            }
        }
        e_cmp(toks, pos, ctx)
    }
}

fn e_cmp(toks: &Vec<Tok>, pos: usize, ctx: &Ctx) -> (r: Option<(Result<Value, Error>, usize)>)
    requires
        pos <= toks@.len(),
        ctx.wf(),
    ensures
        step_models(
            r,
            p_cmp(toks_view(toks@), pos as int, ctx.keys(), ctx.vals()),
            pos as int,
            toks@.len() as int,
        ),
    decreases toks@.len() - pos, 12int,
{
    let ghost tv = toks_view(toks@);
    let first = e_add(toks, pos, ctx);
    let (mut cur, mut cp) = match first {
        None => {
            return None;
        },
        Some(x) => x,
    };
    let ghost mut sacc: EvalRes = rview(cur);
    while cp < toks.len() && rel_of_tok_exec(&toks[cp]).is_some()
        invariant
            pos < cp <= toks@.len(),
            ctx.wf(),
            tv == toks_view(toks@),
            rview(cur) == sacc,
            p_cmp(tv, pos as int, ctx.keys(), ctx.vals()) == p_cmp_tail(
                tv,
                cp as int,
                sacc,
                ctx.keys(),
                ctx.vals(),
            ),
        decreases toks@.len() - cp,
    {
        proof {
            assert(tv[cp as int] == toks@[cp as int]@);
        }
        let op = match rel_of_tok_exec(&toks[cp]) {
            Some(op) => op,
            None => RelOp::Eq,
        };
        let r2 = e_add(toks, cp + 1, ctx);
        match r2 {
            None => {
                return None;
            },
            Some((v2, p2)) => {
                proof {
                    sacc = op_rel_spec(op, sacc, rview(v2));
                }
                cur = ex_rel(op, cur, v2);
                cp = p2;
            },
        }
    }
    proof {
        if cp < toks@.len() {
            assert(tv[cp as int] == toks@[cp as int]@);
        }
    }
    Some((cur, cp))
}

fn e_add(toks: &Vec<Tok>, pos: usize, ctx: &Ctx) -> (r: Option<(Result<Value, Error>, usize)>)
    requires
        pos <= toks@.len(),
        ctx.wf(),
    ensures
        step_models(
            r,
            p_add(toks_view(toks@), pos as int, ctx.keys(), ctx.vals()),
            pos as int,
            toks@.len() as int,
        ),
    decreases toks@.len() - pos, 10int,
{
    let ghost tv = toks_view(toks@);
    let first = e_mul(toks, pos, ctx);
    let (mut cur, mut cp) = match first {
        None => {
            return None;
        },
        Some(x) => x,
    };
    let ghost mut sacc: EvalRes = rview(cur);
    while cp < toks.len() && (tok_is_plus(&toks[cp]) || tok_is_minus(&toks[cp]))
        invariant
            pos < cp <= toks@.len(),
            ctx.wf(),
            tv == toks_view(toks@),
            rview(cur) == sacc,
            p_add(tv, pos as int, ctx.keys(), ctx.vals()) == p_add_tail(
                tv,
                cp as int,
                sacc,
                ctx.keys(),
                ctx.vals(),
            ),
        decreases toks@.len() - cp,
    {
        proof {
            assert(tv[cp as int] == toks@[cp as int]@);
        }
        let plus = tok_is_plus(&toks[cp]);
        let r2 = e_mul(toks, cp + 1, ctx);
        match r2 {
            None => {
                return None;
            },
            Some((v2, p2)) => {
                proof {
                    sacc = if plus {
                        op_add_spec(sacc, rview(v2))
                    } else {
                        op_sub_spec(sacc, rview(v2))
                    };
                }
                cur = if plus {
                    ex_add(cur, v2)
                } else {
                    ex_sub(cur, v2)
                };
                cp = p2;
            },
        }
    }
    proof {
        if cp < toks@.len() {
            assert(tv[cp as int] == toks@[cp as int]@);
        }
    }
    Some((cur, cp))
}

fn e_mul(toks: &Vec<Tok>, pos: usize, ctx: &Ctx) -> (r: Option<(Result<Value, Error>, usize)>)
    requires
        pos <= toks@.len(),
        ctx.wf(),
    ensures
        step_models(
            r,
            p_mul(toks_view(toks@), pos as int, ctx.keys(), ctx.vals()),
            pos as int,
            toks@.len() as int,
        ),
    decreases toks@.len() - pos, 8int,
{
    let ghost tv = toks_view(toks@);
    let first = e_unary(toks, pos, ctx);
    let (mut cur, mut cp) = match first {
        None => {
            return None;
        },
        Some(x) => x,
    };
    let ghost mut sacc: EvalRes = rview(cur);
    while cp < toks.len() && (tok_is_star(&toks[cp]) || tok_is_slash(&toks[cp]))
        invariant
            pos < cp <= toks@.len(),
            ctx.wf(),
            tv == toks_view(toks@),
            rview(cur) == sacc,
            p_mul(tv, pos as int, ctx.keys(), ctx.vals()) == p_mul_tail(
                tv,
                cp as int,
                sacc,
                ctx.keys(),
                ctx.vals(),
            ),
        decreases toks@.len() - cp,
    {
        proof {
            assert(tv[cp as int] == toks@[cp as int]@);
        }
        let star = tok_is_star(&toks[cp]);
        let r2 = e_unary(toks, cp + 1, ctx);
        match r2 {
            None => {
                return None;
            },
            Some((v2, p2)) => {
                proof {
                    sacc = if star {
                        op_mul_spec(sacc, rview(v2))
                    } else {
                        op_div_spec(sacc, rview(v2))
                    };
                }
                cur = if star {
                    ex_mul(cur, v2)
                } else {
                    ex_div(cur, v2)
                };
                cp = p2;
            },
        }
    }
    proof {
        if cp < toks@.len() {
            assert(tv[cp as int] == toks@[cp as int]@);
        }
    }
    Some((cur, cp))
}

fn tok_is_plus(t: &Tok) -> (r: bool)
    ensures
        r == (t@ == TokView::Plus),
{
    matches!(t, Tok::Plus)
}

fn tok_is_minus(t: &Tok) -> (r: bool)
    ensures
        r == (t@ == TokView::Minus),
{
    matches!(t, Tok::Minus)
}

fn tok_is_star(t: &Tok) -> (r: bool)
    ensures
        r == (t@ == TokView::Star),
{
    matches!(t, Tok::Star)
}

fn tok_is_slash(t: &Tok) -> (r: bool)
    ensures
        r == (t@ == TokView::Slash),
{
    matches!(t, Tok::Slash)
}

fn tok_is_caret(t: &Tok) -> (r: bool)
    ensures
        r == (t@ == TokView::Caret),
{
    matches!(t, Tok::Caret)
}

fn tok_is_lparen(t: &Tok) -> (r: bool)
    ensures
        r == (t@ == TokView::LParen),
{
    matches!(t, Tok::LParen)
}

fn tok_is_rparen(t: &Tok) -> (r: bool)
    ensures
        r == (t@ == TokView::RParen),
{
    matches!(t, Tok::RParen)
}

fn tok_is_comma(t: &Tok) -> (r: bool)
    ensures
        r == (t@ == TokView::Comma),
{
    matches!(t, Tok::Comma)
}

fn e_unary(toks: &Vec<Tok>, pos: usize, ctx: &Ctx) -> (r: Option<(Result<Value, Error>, usize)>)
    requires
        pos <= toks@.len(),
        ctx.wf(),
    ensures
        step_models(
            r,
            p_unary(toks_view(toks@), pos as int, ctx.keys(), ctx.vals()),
            pos as int,
            toks@.len() as int,
        ),
    decreases toks@.len() - pos, 6int,
{
    let ghost tv = toks_view(toks@);
    if pos < toks.len() && tok_is_minus(&toks[pos]) {
        proof {
            assert(tv[pos as int] == toks@[pos as int]@);
        }
        match e_unary(toks, pos + 1, ctx) {
            None => None,
            Some((v, p)) => Some((ex_neg(v), p)),
        }
    } else {
        proof {
            if pos < toks@.len() {
                assert(tv[pos as int] == toks@[pos as int]@);
            }
        }
        e_pow(toks, pos, ctx)
    }
}

fn e_pow(toks: &Vec<Tok>, pos: usize, ctx: &Ctx) -> (r: Option<(Result<Value, Error>, usize)>)
    requires
        pos <= toks@.len(),
        ctx.wf(),
    ensures
        step_models(
            r,
            p_pow(toks_view(toks@), pos as int, ctx.keys(), ctx.vals()),
            pos as int,
            toks@.len() as int,
        ),
    decreases toks@.len() - pos, 5int,
{
    let ghost tv = toks_view(toks@);
    match e_atom(toks, pos, ctx) {
        None => None,
        Some((v, p)) => {
            if p < toks.len() && tok_is_caret(&toks[p]) {
                proof {
                    assert(tv[p as int] == toks@[p as int]@);
                }
                match e_unary(toks, p + 1, ctx) {
                    None => None,
                    Some((v2, p2)) => Some((ex_pow(v, v2), p2)),
                }
            } else {
                proof {
                    if p < toks@.len() {
                        assert(tv[p as int] == toks@[p as int]@);
                    }
                }
                Some((v, p))
            }
        },
    }
}

fn e_call1(toks: &Vec<Tok>, pos: usize, ctx: &Ctx) -> (r: Option<(Result<Value, Error>, usize)>)
    requires
        pos <= toks@.len(),
        ctx.wf(),
    ensures
        step_models(
            r,
            p_call1(toks_view(toks@), pos as int, ctx.keys(), ctx.vals()),
            pos as int,
            toks@.len() as int,
        ),
    decreases toks@.len() - pos, 18int,
{
    let ghost tv = toks_view(toks@);
    match e_or(toks, pos, ctx) {
        None => None,
        Some((v, p)) => {
            if p < toks.len() && tok_is_rparen(&toks[p]) {
                proof {
                    assert(tv[p as int] == toks@[p as int]@);
                }
                Some((v, p + 1))
            } else {
                proof {
                    if p < toks@.len() {
                        assert(tv[p as int] == toks@[p as int]@);
                    }
                }
                None
            }
        },
    }
}

fn e_call2(toks: &Vec<Tok>, pos: usize, ctx: &Ctx) -> (r: Option<
    (Result<Value, Error>, Result<Value, Error>, usize),
>)
    requires
        pos <= toks@.len(),
        ctx.wf(),
    ensures
        ({
            let s = p_call2(toks_view(toks@), pos as int, ctx.keys(), ctx.vals());
            match r {
                None => s is None,
                Some((a, b, p)) => s is Some && pos < p <= toks@.len() && s->Some_0.2 == p as int
                    && rview(a) == s->Some_0.0 && rview(b) == s->Some_0.1,
            }
        }),
    decreases toks@.len() - pos, 18int,
{
    let ghost tv = toks_view(toks@);
    match e_or(toks, pos, ctx) {
        None => None,
        Some((a, p)) => {
            if p < toks.len() && tok_is_comma(&toks[p]) {
                proof {
                    assert(tv[p as int] == toks@[p as int]@);
                }
                match e_or(toks, p + 1, ctx) {
                    None => None,
                    Some((b, p2)) => {
                        if p2 < toks.len() && tok_is_rparen(&toks[p2]) {
                            proof {
                                assert(tv[p2 as int] == toks@[p2 as int]@);
                            }
                            Some((a, b, p2 + 1))
                        } else {
                            proof {
                                if p2 < toks@.len() {
                                    assert(tv[p2 as int] == toks@[p2 as int]@);
                                }
                            }
                            None
                        }
                    },
                }
            } else {
                proof {
                    if p < toks@.len() {
                        assert(tv[p as int] == toks@[p as int]@);
                    }
                }
                None
            }
        },
    }
}

fn e_atom(toks: &Vec<Tok>, pos: usize, ctx: &Ctx) -> (r: Option<(Result<Value, Error>, usize)>)
    requires
        pos <= toks@.len(),
        ctx.wf(),
    ensures
        step_models(
            r,
            p_atom(toks_view(toks@), pos as int, ctx.keys(), ctx.vals()),
            pos as int,
            toks@.len() as int,
        ),
    decreases toks@.len() - pos, 3int,
{
    let ghost tv = toks_view(toks@);
    if pos >= toks.len() {
        return None;
    }
    proof {
        assert(tv[pos as int] == toks@[pos as int]@);
    }
    match &toks[pos] {
        Tok::Int(i) => Some((Ok(Value::Int(*i)), pos + 1)),
        Tok::StrLit(s) => Some((Ok(Value::Str(s.clone())), pos + 1)),
        Tok::LParen => {
            match e_or(toks, pos + 1, ctx) {
                None => None,
                Some((v, p)) => {
                    if p < toks.len() && tok_is_rparen(&toks[p]) {
                        proof {
                            assert(tv[p as int] == toks@[p as int]@);
                        }
                        Some((v, p + 1))
                    } else {
                        proof {
                            if p < toks@.len() {
                                assert(tv[p as int] == toks@[p as int]@);
                            }
                        }
                        None
                    }
                },
            }
        },
        Tok::Ident(name) => {
            let lparen_next = pos + 1 < toks.len() && tok_is_lparen(&toks[pos + 1]);
            proof {
                if pos + 1 < toks@.len() {
                    assert(tv[pos + 1] == toks@[pos + 1]@);
                }
            }
            if crate::text::str_eq(name.as_str(), "true") {
                Some((Ok(Value::Int(1)), pos + 1))
            } else if crate::text::str_eq(name.as_str(), "false") {
                Some((Ok(Value::Int(0)), pos + 1))
            } else if lparen_next && (crate::text::str_eq(name.as_str(), "str")
                || crate::text::str_eq(name.as_str(), "int") || crate::text::str_eq(
                name.as_str(),
                "length",
            )) {
                match e_call1(toks, pos + 2, ctx) {
                    None => None,
                    Some((v, p)) => {
                        let out = if crate::text::str_eq(name.as_str(), "str") {
                            ex_str(v)
                        } else if crate::text::str_eq(name.as_str(), "int") {
                            ex_int(v)
                        } else {
                            ex_len(v)
                        };
                        Some((out, p))
                    },
                }
            } else if lparen_next && (crate::text::str_eq(name.as_str(), "startswith")
                || crate::text::str_eq(name.as_str(), "endswith") || crate::text::str_eq(
                name.as_str(),
                "contains",
            )) {
                match e_call2(toks, pos + 2, ctx) {
                    None => None,
                    Some((a, b, p)) => {
                        let out = if crate::text::str_eq(name.as_str(), "startswith") {
                            ex_startswith(a, b)
                        } else if crate::text::str_eq(name.as_str(), "endswith") {
                            ex_endswith(a, b)
                        } else {
                            ex_contains(a, b)
                        };
                        Some((out, p))
                    },
                }
            } else if crate::text::str_eq(name.as_str(), "or") || crate::text::str_eq(
                name.as_str(),
                "and",
            ) || crate::text::str_eq(name.as_str(), "not") {
                None
            } else {
                match ctx.get(name.as_str()) {
                    Some(v) => Some((Ok(v.clone()), pos + 1)),
                    None => {
                        let mut msg = String::from_str("unknown identifier: ");
                        msg.append(name.as_str());
                        Some((Err(Error(msg)), pos + 1))
                    },
                }
            }
        },
        _ => None,
    }
}

/// Evaluate an expression against a context.  The outcome is exactly
/// `calc_spec` of the source text and the context: a value, or the error
/// naming the failure.
pub fn calculate(expression: &str, ctx: &Ctx) -> (r: Result<Value, Error>)
    requires
        ctx.wf(),
    ensures
        res_models(r, calc_spec(expression@, ctx.keys(), ctx.vals())),
{
    let cs = string_to_chars(expression);
    match lex(&cs) {
        None => Err(Error(String::from_str("parse error"))),
        Some(toks) => {
            match e_or(&toks, 0, ctx) {
                None => Err(Error(String::from_str("parse error"))),
                Some((res, p)) => {
                    if p == toks.len() {
                        res
                    } else {
                        Err(Error(String::from_str("parse error")))
                    }
                },
            }
        },
    }
}

/// Whether the source evaluates to a truthy value; a parse or evaluation
/// failure counts as false.
pub open spec fn calc_bool_spec(src: Seq<char>, keys: Seq<Seq<char>>, vals: Seq<ValView>) -> bool {
    match calc_spec(src, keys, vals) {
        Ok(v) => truthy(v),
        Err(_) => false,
    }
}

/// Evaluate a colour predicate: failures count as false.
pub fn calculate_bool(expression: &str, ctx: &Ctx) -> (r: bool)
    requires
        ctx.wf(),
    ensures
        r == calc_bool_spec(expression@, ctx.keys(), ctx.vals()),
{
    match calculate(expression, ctx) {
        Ok(v) => v.as_bool(),
        Err(_) => false,
    }
}

/// The coercions round-trip: rendering an integer as a string and parsing
/// it back yields the integer; a canonical integer literal survives parsing
/// and re-rendering.
pub proof fn lemma_coercion_round_trip(x: i64)
    ensures
        as_int_spec(ValView::Str(as_str_spec(ValView::Int(x)))) == x,
        as_str_spec(ValView::Int(as_int_spec(ValView::Str(dec_rep_int(x as int))))) == dec_rep_int(
            x as int,
        ),
{
    crate::text::lemma_parse_of_rep(x);
}

/// Evaluation is referentially transparent in the `(source, context)` pair:
/// two evaluations of the same source against the same context have the same
/// outcome.
pub proof fn lemma_eval_referentially_transparent(
    r1: Result<Value, Error>,
    r2: Result<Value, Error>,
    src: Seq<char>,
    keys: Seq<Seq<char>>,
    vals: Seq<ValView>,
)
    requires
        res_models(r1, calc_spec(src, keys, vals)),
        res_models(r2, calc_spec(src, keys, vals)),
    ensures
        rview(r1) == rview(r2),
{
}

} // verus!

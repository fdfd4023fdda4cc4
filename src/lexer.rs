use vstd::prelude::*;
use crate::number::{Number, SCALE};
use crate::text::{chars_of, string_of};
use crate::token::{Literal, LiteralView, Token, TokenType, TokenView, literal_option_view};

verus! {

/// All possible error types in the lexer.
#[derive(Clone, Copy, PartialEq, Eq, Debug, Structural)]
pub enum LexError {
    UnexpectedChar { character: char, line: usize },
    UnterminatedString(usize),
}

/// Whether `char::is_alphabetic` holds of `c`.
pub uninterp spec fn alphabetic(c: char) -> bool;

/// Whether `char::is_alphanumeric` holds of `c`.
pub uninterp spec fn alphanumeric(c: char) -> bool;

pub open spec fn is_ascii_digit(c: char) -> bool {
    '0' <= c && c <= '9'
}

pub open spec fn is_ascii_letter(c: char) -> bool {
    ('a' <= c && c <= 'z') || ('A' <= c && c <= 'Z')
}

/// Relies on `char::is_alphabetic`: the Unicode Alphabetic property, which
/// among ASCII characters holds of the letters alone.
#[verifier::external_body]
fn char_is_alphabetic(c: char) -> (r: bool)
    ensures
        r == alphabetic(c),
        (c as u32) < 128 ==> (r <==> is_ascii_letter(c)),
{
    c.is_alphabetic()
}

/// Relies on `char::is_alphanumeric`: Alphabetic or Numeric, which among ASCII
/// characters holds of the letters and the digits alone.
#[verifier::external_body]
fn char_is_alphanumeric(c: char) -> (r: bool)
    ensures
        r == alphanumeric(c),
        (c as u32) < 128 ==> (r <==> (is_ascii_letter(c) || is_ascii_digit(c))),
{
    c.is_alphanumeric()
}

/// A letter (Unicode Alphabetic) or `_`.
pub open spec fn ident_start(c: char) -> bool {
    if (c as u32) < 128 {
        is_ascii_letter(c) || c == '_'
    } else {
        alphabetic(c)
    }
}

/// A letter or digit (Unicode Alphabetic or Numeric) or `_`.
pub open spec fn ident_char(c: char) -> bool {
    if (c as u32) < 128 {
        is_ascii_letter(c) || is_ascii_digit(c) || c == '_'
    } else {
        alphanumeric(c)
    }
}

/// Returns `true` if character is a potential start for an identifier.
pub fn is_potential_identifier_start(c: char) -> (r: bool)
    ensures
        r == ident_start(c),
{
    char_is_alphabetic(c) || c == '_'
}

/// Returns `true` if character is a potential part of an identifier.
pub fn is_potential_identifier_char(c: char) -> (r: bool)
    ensures
        r == ident_char(c),
{
    char_is_alphanumeric(c) || c == '_'
}

/// The character at `i`, or `'\0'` past either end.
pub open spec fn char_at(s: Seq<char>, i: int) -> char {
    if 0 <= i < s.len() {
        s[i]
    } else {
        '\0'
    }
}

/// The end of the run of ASCII digits that starts at `j`.
pub open spec fn digit_run(s: Seq<char>, j: int) -> int
    decreases s.len() - j,
{
    if 0 <= j < s.len() && is_ascii_digit(s[j]) {
        digit_run(s, j + 1)
    } else {
        j
    }
}

/// The end of the run of identifier characters that starts at `j`.
pub open spec fn ident_run(s: Seq<char>, j: int) -> int
    decreases s.len() - j,
{
    if 0 <= j < s.len() && ident_char(s[j]) {
        ident_run(s, j + 1)
    } else {
        j
    }
}

/// The first position at or after `j` that holds `d`, or the length.
pub open spec fn find_char(s: Seq<char>, j: int, d: char) -> int
    decreases s.len() - j,
{
    if 0 <= j < s.len() && s[j] != d {
        find_char(s, j + 1, d)
    } else {
        j
    }
}

/// The number of newlines in `s[a..b]`.
pub open spec fn count_newlines(s: Seq<char>, a: int, b: int) -> nat
    decreases b - a,
{
    if b <= a {
        0
    } else {
        count_newlines(s, a, b - 1) + if s[b - 1] == '\n' {
            1nat
        } else {
            0nat
        }
    }
}

/// The value of a digit character.
pub open spec fn digit_value(c: char) -> nat {
    ((c as u32) - 48) as nat
}

/// The value of a string of decimal digits.
pub open spec fn digits_value(d: Seq<char>) -> nat
    decreases d.len(),
{
    if d.len() == 0 {
        0
    } else {
        digits_value(d.drop_last()) * 10 + digit_value(d.last())
    }
}

/// The first nine fractional digits, padded with zeros.
pub open spec fn pad9(f: Seq<char>) -> Seq<char> {
    if f.len() >= 9 {
        f.subrange(0, 9)
    } else {
        f + Seq::new((9 - f.len()) as nat, |k: int| '0')
    }
}

/// The raw value of a numeric literal with integer digits `int_digits` and
/// fractional digits `frac`: exact to nine places, larger values saturate.
pub open spec fn literal_raw(int_digits: Seq<char>, frac: Seq<char>) -> int {
    let v = digits_value(int_digits) * SCALE + digits_value(pad9(frac));
    if v > i128::MAX {
        i128::MAX as int
    } else {
        v
    }
}

/// The keyword spelled by `w`, if any.
pub open spec fn keyword(w: Seq<char>) -> Option<TokenType> {
    if w == "null"@ {
        Some(TokenType::Null)
    } else if w == "true"@ {
        Some(TokenType::True)
    } else if w == "false"@ {
        Some(TokenType::False)
    } else if w == "func"@ {
        Some(TokenType::Func)
    } else if w == "if"@ {
        Some(TokenType::If)
    } else if w == "else"@ {
        Some(TokenType::Else)
    } else if w == "while"@ {
        Some(TokenType::While)
    } else if w == "return"@ {
        Some(TokenType::Return)
    } else if w == "del"@ {
        Some(TokenType::Delete)
    } else if w == "echo"@ {
        Some(TokenType::Echo)
    } else if w == "break"@ {
        Some(TokenType::Break)
    } else if w == "continue"@ {
        Some(TokenType::Continue)
    } else {
        None
    }
}

pub open spec fn tv(ty: TokenType, lexeme: Seq<char>, literal: Option<LiteralView>, line: nat) -> TokenView {
    TokenView { ty, lexeme, literal, line }
}

/// What one step of scanning does from a position: the token it produces,
/// if any, the position and the line after it.
pub struct Step {
    pub token: Option<TokenView>,
    pub next: int,
    pub line: nat,
}

pub open spec fn emit(s: Seq<char>, i: int, len: int, ty: TokenType, line: nat) -> Result<Step, LexError> {
    Ok(Step { token: Some(tv(ty, s.subrange(i, i + len), None, line)), next: i + len, line })
}

pub open spec fn skip(next: int, line: nat) -> Result<Step, LexError> {
    Ok(Step { token: None, next, line })
}

/// Scanning an operator whose second character may be `second`.
pub open spec fn pair(s: Seq<char>, i: int, line: nat, second: char, long: TokenType, short: TokenType) -> Result<Step, LexError> {
    if char_at(s, i + 1) == second {
        emit(s, i, 2, long, line)
    } else {
        emit(s, i, 1, short, line)
    }
}

/// Scanning a string literal opened at `i` by the quote `d`.
pub open spec fn string_step(s: Seq<char>, i: int, line: nat, d: char) -> Result<Step, LexError> {
    let j = find_char(s, i + 1, d);
    let l = line + count_newlines(s, i + 1, j);
    if j >= s.len() {
        Err(LexError::UnterminatedString(l as usize))
    } else {
        Ok(Step {
            token: Some(tv(TokenType::String, s.subrange(i, j + 1), Some(LiteralView::String(s.subrange(i + 1, j))), l)),
            next: j + 1,
            line: l,
        })
    }
}

/// Scanning a numeric literal that starts at `i`: digits, then a point and
/// digits if a digit follows the point.
pub open spec fn number_step(s: Seq<char>, i: int, line: nat) -> Result<Step, LexError> {
    let k = digit_run(s, i);
    let has_frac = char_at(s, k) == '.' && is_ascii_digit(char_at(s, k + 1));
    let end = if has_frac { digit_run(s, k + 1) } else { k };
    let frac = if has_frac { s.subrange(k + 1, end) } else { Seq::<char>::empty() };
    let raw = literal_raw(s.subrange(i, k), frac);
    Ok(Step {
        token: Some(tv(TokenType::Number, s.subrange(i, end), Some(LiteralView::Number(Number { raw: raw as i128 })), line)),
        next: end,
        line,
    })
}

/// Scanning an identifier or a keyword that starts at `i`.
pub open spec fn word_step(s: Seq<char>, i: int, line: nat) -> Result<Step, LexError> {
    let j = ident_run(s, i + 1);
    let w = s.subrange(i, j);
    let ty = match keyword(w) {
        Some(k) => k,
        None => TokenType::Ident,
    };
    emit(s, i, j - i, ty, line)
}

/// One step of scanning at position `i < s.len()`.
pub open spec fn scan_step(s: Seq<char>, i: int, line: nat) -> Result<Step, LexError> {
    let c = s[i];
    let n = char_at(s, i + 1);
    if c == '(' {
        emit(s, i, 1, TokenType::LParen, line)
    } else if c == ')' {
        emit(s, i, 1, TokenType::RParen, line)
    } else if c == '{' {
        emit(s, i, 1, TokenType::LBrace, line)
    } else if c == '}' {
        emit(s, i, 1, TokenType::RBrace, line)
    } else if c == ',' {
        emit(s, i, 1, TokenType::Comma, line)
    } else if c == ';' {
        emit(s, i, 1, TokenType::Semicolon, line)
    } else if c == '+' {
        if n == '+' {
            emit(s, i, 2, TokenType::DoublePlus, line)
        } else {
            pair(s, i, line, '=', TokenType::PlusEqual, TokenType::Plus)
        }
    } else if c == '-' {
        if n == '-' {
            emit(s, i, 2, TokenType::DoubleMinus, line)
        } else {
            pair(s, i, line, '=', TokenType::MinusEqual, TokenType::Minus)
        }
    } else if c == '*' {
        pair(s, i, line, '=', TokenType::StarEqual, TokenType::Star)
    } else if c == '/' {
        pair(s, i, line, '=', TokenType::SlashEqual, TokenType::Slash)
    } else if c == '%' {
        pair(s, i, line, '=', TokenType::PercentEqual, TokenType::Percent)
    } else if c == '=' {
        pair(s, i, line, '=', TokenType::EqEqual, TokenType::Equal)
    } else if c == '!' {
        pair(s, i, line, '=', TokenType::BangEqual, TokenType::Bang)
    } else if c == '<' {
        pair(s, i, line, '=', TokenType::LessEqual, TokenType::Less)
    } else if c == '>' {
        pair(s, i, line, '=', TokenType::GreaterEqual, TokenType::Greater)
    } else if c == '&' {
        if n == '&' {
            emit(s, i, 2, TokenType::DoubleAmper, line)
        } else {
            Err(LexError::UnexpectedChar { character: c, line: line as usize })
        }
    } else if c == '|' {
        if n == '|' {
            emit(s, i, 2, TokenType::DoubleVBar, line)
        } else {
            Err(LexError::UnexpectedChar { character: c, line: line as usize })
        }
    } else if c == '#' {
        skip(find_char(s, i + 1, '\n'), line)
    } else if c == ' ' || c == '\t' || c == '\r' {
        skip(i + 1, line)
    } else if c == '\n' {
        skip(i + 1, line + 1)
    } else if c == '\'' || c == '"' {
        string_step(s, i, line, c)
    } else if is_ascii_digit(c) {
        number_step(s, i, line)
    } else if ident_start(c) {
        word_step(s, i, line)
    } else {
        Err(LexError::UnexpectedChar { character: c, line: line as usize })
    }
}

/// The tokens of `s` from position `i` on, the line counter standing at `line`.
pub open spec fn lex_from(s: Seq<char>, i: nat, line: nat) -> Result<Seq<TokenView>, LexError>
    decreases s.len() - i,
{
    if i >= s.len() {
        Ok(seq![tv(TokenType::Eof, Seq::empty(), None, line)])
    } else {
        match scan_step(s, i as int, line) {
            Err(e) => Err(e),
            Ok(st) => if st.next <= i || st.next > s.len() {
                // never taken: every step advances within the text
                Err(LexError::UnterminatedString(line as usize))
            } else {
                match lex_from(s, st.next as nat, st.line) {
                    Err(e) => Err(e),
                    Ok(rest) => Ok(
                        match st.token {
                            Some(t) => seq![t] + rest,
                            None => rest,
                        },
                    ),
                }
            },
        }
    }
}

/// The token sequence of a source text, ending with one `Eof` token, or
/// the first lexical error.
pub open spec fn lex(s: Seq<char>) -> Result<Seq<TokenView>, LexError> {
    lex_from(s, 0, 1)
}

pub open spec fn tokens_view(v: Seq<Token>) -> Seq<TokenView> {
    v.map_values(|t: Token| t@)
}

pub open spec fn scan_result_view(r: Result<Vec<Token>, LexError>) -> Result<Seq<TokenView>, LexError> {
    match r {
        Ok(v) => Ok(tokens_view(v@)),
        Err(e) => Err(e),
    }
}

pub open spec fn prepend(p: Seq<TokenView>, r: Result<Seq<TokenView>, LexError>) -> Result<Seq<TokenView>, LexError> {
    match r {
        Ok(rest) => Ok(p + rest),
        Err(e) => Err(e),
    }
}

pub open spec fn step_matches(r: Result<(Option<Token>, usize, usize), LexError>, st: Result<Step, LexError>) -> bool {
    match (r, st) {
        (Ok((t, n, l)), Ok(st)) => {
            &&& st.next == n
            &&& st.line == l
            &&& match (t, st.token) {
                (Some(a), Some(b)) => a@ == b,
                (None, None) => true,
                _ => false,
            }
        },
        (Err(a), Err(b)) => a == b,
        _ => false,
    }
}

proof fn lemma_count_newlines_bound(s: Seq<char>, a: int, b: int)
    ensures
        count_newlines(s, a, b) <= if b > a { b - a } else { 0 },
    decreases b - a,
{
    if b > a {
        lemma_count_newlines_bound(s, a, b - 1);
    }
}

/// Ten to the power `n`.
pub open spec fn pow10(n: nat) -> nat
    decreases n,
{
    if n == 0 {
        1
    } else {
        pow10((n - 1) as nat) * 10
    }
}

proof fn lemma_pow10_mono(a: nat, b: nat)
    requires
        a <= b,
    ensures
        pow10(a) <= pow10(b),
    decreases b - a,
{
    if a < b {
        lemma_pow10_mono(a, (b - 1) as nat);
    }
}

proof fn lemma_digits_value_step(d: Seq<char>, k: int)
    requires
        0 <= k < d.len(),
    ensures
        digits_value(d.subrange(0, k + 1)) == digits_value(d.subrange(0, k)) * 10 + digit_value(d[k]),
{
    assert(d.subrange(0, k + 1).drop_last() =~= d.subrange(0, k));
}

fn digit_exec(c: char) -> (r: u128)
    requires
        is_ascii_digit(c),
    ensures
        r == digit_value(c),
        r < 10,
{
    (c as u32 - 48) as u128
}

fn peek(s: &Vec<char>, j: usize) -> (c: char)
    ensures
        c == char_at(s@, j as int),
{
    if j < s.len() {
        s[j]
    } else {
        '\0'
    }
}

fn make_token(s: &Vec<char>, a: usize, b: usize, ty: TokenType, literal: Option<Literal>, line: usize) -> (t: Token)
    requires
        a <= b <= s@.len(),
    ensures
        t@ == tv(ty, s@.subrange(a as int, b as int), literal_option_view(literal), line as nat),
{
    let lexeme = string_of(&s.as_slice()[a..b]);
    Token { ty, lexeme, literal, line }
}

fn emit_exec(s: &Vec<char>, i: usize, len: usize, ty: TokenType, line: usize) -> (r: Result<(Option<Token>, usize, usize), LexError>)
    requires
        i + len <= s@.len(),
        s@.len() < usize::MAX,
    ensures
        step_matches(r, emit(s@, i as int, len as int, ty, line as nat)),
{
    Ok((Some(make_token(s, i, i + len, ty, None, line)), i + len, line))
}

fn pair_exec(s: &Vec<char>, i: usize, line: usize, second: char, long: TokenType, short: TokenType) -> (r: Result<(Option<Token>, usize, usize), LexError>)
    requires
        s@.len() < usize::MAX,
        i < s@.len(),
        second != '\0',
    ensures
        step_matches(r, pair(s@, i as int, line as nat, second, long, short)),
{
    if peek(s, i + 1) == second {
        emit_exec(s, i, 2, long, line)
    } else {
        emit_exec(s, i, 1, short, line)
    }
}

fn digit_run_exec(s: &Vec<char>, j: usize) -> (r: usize)
    requires
        j <= s@.len(),
    ensures
        r as int == digit_run(s@, j as int),
        j <= r <= s@.len(),
        forall|q: int| j <= q < r ==> #[trigger] is_ascii_digit(s@[q]),
        (j < s@.len() && is_ascii_digit(s@[j as int])) ==> r > j,
{
    let mut k = j;
    while k < s.len() && '0' <= s[k] && s[k] <= '9'
        invariant
            j <= k <= s@.len(),
            forall|q: int| j <= q < k ==> #[trigger] is_ascii_digit(s@[q]),
            digit_run(s@, k as int) == digit_run(s@, j as int),
        decreases s@.len() - k,
    {
        k += 1;
    }
    k
}

fn find_char_exec(s: &Vec<char>, j: usize, d: char) -> (r: usize)
    requires
        j <= s@.len(),
    ensures
        r as int == find_char(s@, j as int, d),
        j <= r <= s@.len(),
{
    let mut k = j;
    while k < s.len() && s[k] != d
        invariant
            j <= k <= s@.len(),
            find_char(s@, k as int, d) == find_char(s@, j as int, d),
        decreases s@.len() - k,
    {
        k += 1;
    }
    k
}

fn count_newlines_exec(s: &Vec<char>, a: usize, b: usize) -> (r: usize)
    requires
        a <= b <= s@.len(),
    ensures
        r == count_newlines(s@, a as int, b as int),
{
    let mut k = a;
    let mut n: usize = 0;
    while k < b
        invariant
            a <= k <= b <= s@.len(),
            n == count_newlines(s@, a as int, k as int),
        decreases b - k,
    {
        proof {
            lemma_count_newlines_bound(s@, a as int, k as int);
        }
        if s[k] == '\n' {
            n += 1;
        }
        k += 1;
    }
    n
}

fn string_exec(s: &Vec<char>, i: usize, line: usize, d: char) -> (r: Result<(Option<Token>, usize, usize), LexError>)
    requires
        s@.len() < usize::MAX,
        i < s@.len(),
        line <= i + 1,
    ensures
        step_matches(r, string_step(s@, i as int, line as nat, d)),
        r matches Ok((_, n, l)) ==> i < n <= s@.len() && l <= n + 1,
{
    let j = find_char_exec(s, i + 1, d);
    proof {
        lemma_count_newlines_bound(s@, i + 1, j as int);
    }
    let l = line + count_newlines_exec(s, i + 1, j);
    if j >= s.len() {
        Err(LexError::UnterminatedString(l))
    } else {
        let value = string_of(&s.as_slice()[i + 1..j]);
        let t = make_token(s, i, j + 1, TokenType::String, Some(Literal::String(value)), l);
        Ok((Some(t), j + 1, l))
    }
}

/// Largest integer part that is kept exactly, plus one.
const INT_CAP: u128 = 170141183460469231731687303716;

fn number_exec(s: &Vec<char>, i: usize, line: usize) -> (r: Result<(Option<Token>, usize, usize), LexError>)
    requires
        s@.len() < usize::MAX,
        i < s@.len(),
        is_ascii_digit(s@[i as int]),
    ensures
        step_matches(r, number_step(s@, i as int, line as nat)),
        r matches Ok((_, n, l)) ==> i < n <= s@.len() && l == line,
{
    let k = digit_run_exec(s, i);
    let has_frac = peek(s, k) == '.' && '0' <= peek(s, k + 1) && peek(s, k + 1) <= '9';
    let end = if has_frac {
        digit_run_exec(s, k + 1)
    } else {
        k
    };
    let ghost int_digits = s@.subrange(i as int, k as int);
    let ghost frac = if has_frac {
        s@.subrange(k + 1, end as int)
    } else {
        Seq::<char>::empty()
    };
    // integer part, saturating at INT_CAP
    let mut acc: u128 = 0;
    let mut p = i;
    while p < k
        invariant
            i <= p <= k <= s@.len(),
            k as int == digit_run(s@, i as int),
            forall|q: int| i <= q < k ==> #[trigger] is_ascii_digit(s@[q]),
            acc <= INT_CAP,
            acc == if digits_value(s@.subrange(i as int, p as int)) < INT_CAP {
                digits_value(s@.subrange(i as int, p as int))
            } else {
                INT_CAP as nat
            },
        decreases k - p,
    {
        proof {
            lemma_digits_value_step(s@.subrange(i as int, k as int), p - i);
            assert(s@.subrange(i as int, k as int).subrange(0, p - i + 1) =~= s@.subrange(i as int, p + 1));
            assert(s@.subrange(i as int, k as int).subrange(0, p - i) =~= s@.subrange(i as int, p as int));
        }
        let dv = digit_exec(s[p]);
        let next = acc * 10 + dv;
        acc = if next < INT_CAP {
            next
        } else {
            INT_CAP
        };
        p += 1;
    }
    // fractional part, nine digits
    let flen = if has_frac {
        end - (k + 1)
    } else {
        0
    };
    let mut f: u128 = 0;
    let mut q: usize = 0;
    while q < 9
        invariant
            q <= 9,
            has_frac ==> k + 1 + flen == end && end <= s@.len(),
            frac.len() == (if has_frac { flen as int } else { 0 }),
            has_frac ==> frac == s@.subrange(k + 1, end as int),
            f == digits_value(pad9(frac).subrange(0, q as int)),
            f < pow10(q as nat),
            forall|x: int| 0 <= x < frac.len() ==> #[trigger] is_ascii_digit(frac[x]),
        decreases 9 - q,
    {
        let c = if has_frac && q < flen {
            s[k + 1 + q]
        } else {
            '0'
        };
        proof {
            assert(pad9(frac).len() == 9);
            assert(pad9(frac)[q as int] == c);
            lemma_digits_value_step(pad9(frac), q as int);
        }
        let d = digit_exec(c);
        proof {
            let pq = pow10(q as nat);
            assert(f * 10 + d < pq * 10) by (nonlinear_arith)
                requires f < pq, d < 10;
            assert(pq <= 100_000_000) by {
                lemma_pow10_mono(q as nat, 8);
                reveal_with_fuel(pow10, 9);
            }
        }
        f = f * 10 + d;
        q += 1;
    }
    assert(pad9(frac).subrange(0, 9) =~= pad9(frac));
    assert(pow10(9) == 1_000_000_000) by {
        reveal_with_fuel(pow10, 10);
    }
    let raw: i128 = if acc >= INT_CAP {
        i128::MAX
    } else {
        let v = acc * 1_000_000_000 + f;
        if v > i128::MAX as u128 {
            i128::MAX
        } else {
            v as i128
        }
    };
    proof {
        assert(s@.subrange(i as int, k as int) == int_digits);
        let dv = digits_value(int_digits);
        if acc >= INT_CAP {
            assert(dv >= INT_CAP);
            assert(dv * SCALE >= INT_CAP * SCALE) by (nonlinear_arith)
                requires dv >= INT_CAP;
        }
    }
    let value = Literal::Number(Number { raw });
    let t = make_token(s, i, end, TokenType::Number, Some(value), line);
    Ok((Some(t), end, line))
}

fn word_is(w: &[char], k: &str) -> (r: bool)
    ensures
        r == (w@ == k@),
{
    let n = k.unicode_len();
    if w.len() != n {
        return false;
    }
    let mut i: usize = 0;
    while i < n
        invariant
            i <= n == w@.len() == k@.len(),
            forall|j: int| 0 <= j < i ==> w@[j] == k@[j],
        decreases n - i,
    {
        if w[i] != k.get_char(i) {
            return false;
        }
        i += 1;
    }
    assert(w@ =~= k@);
    true
}

fn keyword_exec(w: &[char]) -> (r: Option<TokenType>)
    ensures
        r == keyword(w@),
{
    if word_is(w, "null") {
        Some(TokenType::Null)
    } else if word_is(w, "true") {
        Some(TokenType::True)
    } else if word_is(w, "false") {
        Some(TokenType::False)
    } else if word_is(w, "func") {
        Some(TokenType::Func)
    } else if word_is(w, "if") {
        Some(TokenType::If)
    } else if word_is(w, "else") {
        Some(TokenType::Else)
    } else if word_is(w, "while") {
        Some(TokenType::While)
    } else if word_is(w, "return") {
        Some(TokenType::Return)
    } else if word_is(w, "del") {
        Some(TokenType::Delete)
    } else if word_is(w, "echo") {
        Some(TokenType::Echo)
    } else if word_is(w, "break") {
        Some(TokenType::Break)
    } else if word_is(w, "continue") {
        Some(TokenType::Continue)
    } else {
        None
    }
}

fn word_exec(s: &Vec<char>, i: usize, line: usize) -> (r: Result<(Option<Token>, usize, usize), LexError>)
    requires
        s@.len() < usize::MAX,
        i < s@.len(),
    ensures
        step_matches(r, word_step(s@, i as int, line as nat)),
        r matches Ok((_, n, l)) ==> i < n <= s@.len() && l == line,
{
    let mut j = i + 1;
    while j < s.len() && is_potential_identifier_char(s[j])
        invariant
            i < j <= s@.len(),
            ident_run(s@, j as int) == ident_run(s@, i + 1),
        decreases s@.len() - j,
    {
        j += 1;
    }
    let ty = match keyword_exec(&s.as_slice()[i..j]) {
        Some(k) => k,
        None => TokenType::Ident,
    };
    emit_exec(s, i, j - i, ty, line)
}

/// Scans one token, or skips one piece of blank or comment, at position `i`.
fn scan_token(s: &Vec<char>, i: usize, line: usize) -> (r: Result<(Option<Token>, usize, usize), LexError>)
    requires
        s@.len() < usize::MAX,
        i < s@.len(),
        line <= i + 1,
    ensures
        step_matches(r, scan_step(s@, i as int, line as nat)),
        r matches Ok((_, n, l)) ==> i < n <= s@.len() && l <= n + 1,
{
    let c = s[i];
    let n = peek(s, i + 1);
    if c == '(' {
        emit_exec(s, i, 1, TokenType::LParen, line)
    } else if c == ')' {
        emit_exec(s, i, 1, TokenType::RParen, line)
    } else if c == '{' {
        emit_exec(s, i, 1, TokenType::LBrace, line)
    } else if c == '}' {
        emit_exec(s, i, 1, TokenType::RBrace, line)
    } else if c == ',' {
        emit_exec(s, i, 1, TokenType::Comma, line)
    } else if c == ';' {
        emit_exec(s, i, 1, TokenType::Semicolon, line)
    } else if c == '+' {
        if n == '+' {
            emit_exec(s, i, 2, TokenType::DoublePlus, line)
        } else {
            pair_exec(s, i, line, '=', TokenType::PlusEqual, TokenType::Plus)
        }
    } else if c == '-' {
        if n == '-' {
            emit_exec(s, i, 2, TokenType::DoubleMinus, line)
        } else {
            pair_exec(s, i, line, '=', TokenType::MinusEqual, TokenType::Minus)
        }
    } else if c == '*' {
        pair_exec(s, i, line, '=', TokenType::StarEqual, TokenType::Star)
    } else if c == '/' {
        pair_exec(s, i, line, '=', TokenType::SlashEqual, TokenType::Slash)
    } else if c == '%' {
        pair_exec(s, i, line, '=', TokenType::PercentEqual, TokenType::Percent)
    } else if c == '=' {
        pair_exec(s, i, line, '=', TokenType::EqEqual, TokenType::Equal)
    } else if c == '!' {
        pair_exec(s, i, line, '=', TokenType::BangEqual, TokenType::Bang)
    } else if c == '<' {
        pair_exec(s, i, line, '=', TokenType::LessEqual, TokenType::Less)
    } else if c == '>' {
        pair_exec(s, i, line, '=', TokenType::GreaterEqual, TokenType::Greater)
    } else if c == '&' {
        if n == '&' {
            emit_exec(s, i, 2, TokenType::DoubleAmper, line)
        } else {
            Err(LexError::UnexpectedChar { character: c, line })
        }
    } else if c == '|' {
        if n == '|' {
            emit_exec(s, i, 2, TokenType::DoubleVBar, line)
        } else {
            Err(LexError::UnexpectedChar { character: c, line })
        }
    } else if c == '#' {
        let j = find_char_exec(s, i + 1, '\n');
        Ok((None, j, line))
    } else if c == ' ' || c == '\t' || c == '\r' {
        Ok((None, i + 1, line))
    } else if c == '\n' {
        Ok((None, i + 1, line + 1))
    } else if c == '\'' || c == '"' {
        string_exec(s, i, line, c)
    } else if '0' <= c && c <= '9' {
        number_exec(s, i, line)
    } else if is_potential_identifier_start(c) {
        word_exec(s, i, line)
    } else {
        Err(LexError::UnexpectedChar { character: c, line })
    }
}

/// Scans the tokens of a source text. The sequence ends with one `Eof`
/// token; the first lexical error ends the scan.
pub fn scan_tokens(input: &str) -> (r: Result<Vec<Token>, LexError>)
    requires
        input@.len() < usize::MAX,
    ensures
        scan_result_view(r) == lex(input@),
{
    let s = chars_of(input);
    let mut tokens: Vec<Token> = Vec::new();
    let mut i: usize = 0;
    let mut line: usize = 1;
    assert(tokens_view(tokens@) =~= Seq::<TokenView>::empty());
    assert(prepend(tokens_view(tokens@), lex_from(s@, 0, 1)) == lex(s@));
    while i < s.len()
        invariant
            s@ == input@,
            s@.len() < usize::MAX,
            i <= s@.len(),
            line <= i + 1,
            prepend(tokens_view(tokens@), lex_from(s@, i as nat, line as nat)) == lex(s@),
        decreases s@.len() - i,
    {
        let ghost before = tokens@;
        match scan_token(&s, i, line) {
            Ok((t, n, l)) => {
                let ghost produced: Seq<TokenView> = match &t {
                    Some(tok) => seq![tok@],
                    None => Seq::empty(),
                };
                match t {
                    Some(tok) => {
                        tokens.push(tok);
                    },
                    None => {},
                }
                proof {
                    assert(tokens_view(tokens@) =~= tokens_view(before) + produced);
                    let r = lex_from(s@, n as nat, l as nat);
                    match r {
                        Ok(rest) => {
                            assert(tokens_view(before) + (produced + rest) =~= tokens_view(tokens@) + rest);
                        },
                        Err(_) => {},
                    }
                }
                i = n;
                line = l;
            },
            Err(e) => {
                return Err(e);
            },
        }
    }
    let eof = Token { ty: TokenType::Eof, lexeme: String::new(), literal: None, line };
    let ghost before = tokens@;
    tokens.push(eof);
    assert(tokens_view(tokens@) =~= tokens_view(before) + seq![eof@]);
    assert(eof@.lexeme =~= Seq::<char>::empty());
    Ok(tokens)
}

/// A lexer over one source text.
pub struct Lexer {
    pub input: String,
}

impl Lexer {
    /// Creates a new `Lexer`.
    pub fn new(input: &str) -> (r: Lexer)
        ensures
            r.input@ == input@,
    {
        Lexer { input: input.to_owned() }
    }

    /// Scans the tokens of the input (see `scan_tokens`).
    pub fn scan_tokens(&self) -> (r: Result<Vec<Token>, LexError>)
        requires
            self.input@.len() < usize::MAX,
        ensures
            scan_result_view(r) == lex(self.input@),
    {
        scan_tokens(self.input.as_str())
    }
}

} // verus!

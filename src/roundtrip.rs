use vstd::prelude::*;
use crate::lexer::{
    Step, char_at, tokens_view, count_newlines, digit_run, find_char, ident_run, ident_start, is_ascii_digit, lex,
    lex_from, number_step, scan_step, string_step,
};
use crate::token::{Token, TokenType, TokenView};

verus! {

/// Source text for a token sequence: each lexeme followed by a space.
pub open spec fn tokens_text(toks: Seq<TokenView>) -> Seq<char>
    decreases toks.len(),
{
    if toks.len() == 0 {
        Seq::empty()
    } else {
        toks[0].lexeme + seq![' '] + tokens_text(toks.drop_first())
    }
}

/// A token that, written alone and followed by a space, is read back as a
/// token of the same kind and literal that ends where its lexeme ends.
pub open spec fn reads_back(t: TokenView) -> bool {
    forall|line: nat| #[trigger] read_as(scan_step(t.lexeme + seq![' '], 0, line), t)
}

/// A scanning step that produces a token of `t`'s kind and literal and ends
/// where `t`'s lexeme ends.
pub open spec fn read_as(r: Result<Step, crate::lexer::LexError>, t: TokenView) -> bool {
    match r {
        Ok(st) => match st.token {
            Some(u) => st.next == t.lexeme.len() && u.ty == t.ty && u.literal == t.literal,
            None => false,
        },
        Err(_) => false,
    }
}

/// `r` is `toks` followed by `Eof`, up to lexemes and lines.
pub open spec fn same_shape(r: Seq<TokenView>, toks: Seq<TokenView>) -> bool {
    &&& r.len() == toks.len() + 1
    &&& forall|k: int| 0 <= k < toks.len() ==> #[trigger] r[k].ty == toks[k].ty && r[k].literal == toks[k].literal
    &&& r.last().ty == TokenType::Eof
}

proof fn lemma_digit_run_shift(s: Seq<char>, i: int, x: Seq<char>, k: int)
    requires
        0 <= i,
        i + x.len() <= s.len(),
        s.subrange(i, i + x.len()) == x,
        0 <= k <= x.len(),
        digit_run(x, k) < x.len(),
    ensures
        digit_run(s, i + k) == i + digit_run(x, k),
    decreases x.len() - k,
{
    assert(k < x.len());
    assert(x[k] == s.subrange(i, i + x.len())[k]);
    assert(x[k] == s[i + k]);
    if is_ascii_digit(x[k]) {
        assert(digit_run(x, k) == digit_run(x, k + 1));
        lemma_digit_run_shift(s, i, x, k + 1);
        assert(digit_run(s, i + k) == digit_run(s, i + k + 1));
    } else {
        assert(digit_run(x, k) == k);
        assert(digit_run(s, i + k) == i + k);
    }
}

proof fn lemma_ident_run_shift(s: Seq<char>, i: int, x: Seq<char>, k: int)
    requires
        0 <= i,
        i + x.len() <= s.len(),
        s.subrange(i, i + x.len()) == x,
        0 <= k <= x.len(),
        ident_run(x, k) < x.len(),
    ensures
        ident_run(s, i + k) == i + ident_run(x, k),
    decreases x.len() - k,
{
    assert(k < x.len());
    assert(x[k] == s.subrange(i, i + x.len())[k]);
    assert(x[k] == s[i + k]);
    if crate::lexer::ident_char(x[k]) {
        assert(ident_run(x, k) == ident_run(x, k + 1));
        lemma_ident_run_shift(s, i, x, k + 1);
        assert(ident_run(s, i + k) == ident_run(s, i + k + 1));
    } else {
        assert(ident_run(x, k) == k);
        assert(ident_run(s, i + k) == i + k);
    }
}

proof fn lemma_find_char_shift(s: Seq<char>, i: int, x: Seq<char>, k: int, d: char)
    requires
        0 <= i,
        i + x.len() <= s.len(),
        s.subrange(i, i + x.len()) == x,
        0 <= k <= x.len(),
        find_char(x, k, d) < x.len(),
    ensures
        find_char(s, i + k, d) == i + find_char(x, k, d),
    decreases x.len() - k,
{
    assert(k < x.len());
    assert(x[k] == s.subrange(i, i + x.len())[k]);
    assert(x[k] == s[i + k]);
    if x[k] != d {
        assert(find_char(x, k, d) == find_char(x, k + 1, d));
        lemma_find_char_shift(s, i, x, k + 1, d);
        assert(find_char(s, i + k, d) == find_char(s, i + k + 1, d));
    } else {
        assert(find_char(x, k, d) == k);
        assert(find_char(s, i + k, d) == i + k);
    }
}

proof fn lemma_count_newlines_shift(s: Seq<char>, i: int, x: Seq<char>, a: int, b: int)
    requires
        0 <= i,
        i + x.len() <= s.len(),
        s.subrange(i, i + x.len()) == x,
        0 <= a <= b <= x.len(),
    ensures
        count_newlines(s, i + a, i + b) == count_newlines(x, a, b),
    decreases b - a,
{
    if a < b {
        assert(x[b - 1] == s.subrange(i, i + x.len())[b - 1]);
        lemma_count_newlines_shift(s, i, x, a, b - 1);
    }
}

proof fn lemma_subrange_shift(s: Seq<char>, i: int, x: Seq<char>, a: int, b: int)
    requires
        0 <= i,
        i + x.len() <= s.len(),
        s.subrange(i, i + x.len()) == x,
        0 <= a <= b <= x.len(),
    ensures
        s.subrange(i + a, i + b) == x.subrange(a, b),
{
    assert forall|j: int| 0 <= j < b - a implies #[trigger] s.subrange(i + a, i + b)[j] == x.subrange(a, b)[j] by {
        assert(x[a + j] == s.subrange(i, i + x.len())[a + j]);
    }
    assert(s.subrange(i + a, i + b) =~= x.subrange(a, b));
}

/// A scanning step that stays inside `x` gives the same result wherever
/// `x` stands in a longer text.
proof fn lemma_step_local(s: Seq<char>, i: int, x: Seq<char>, line: nat)
    requires
        0 <= i,
        i + x.len() <= s.len(),
        s.subrange(i, i + x.len()) == x,
        x.len() >= 2,
        x.last() == ' ',
        scan_step(x, 0, line) matches Ok(st) && st.token is Some && st.next < x.len(),
    ensures
        scan_step(s, i, line) == Ok::<Step, crate::lexer::LexError>(
            Step {
                token: scan_step(x, 0, line)->Ok_0.token,
                next: scan_step(x, 0, line)->Ok_0.next + i,
                line: scan_step(x, 0, line)->Ok_0.line,
            },
        ),
{
    let st = scan_step(x, 0, line)->Ok_0;
    assert(x[0] == s.subrange(i, i + x.len())[0]);
    assert(x[1] == s.subrange(i, i + x.len())[1]);
    assert(char_at(s, i + 1) == char_at(x, 1));
    lemma_subrange_shift(s, i, x, 0, 1);
    lemma_subrange_shift(s, i, x, 0, 2);
    let c = x[0];
    if c == '\'' || c == '"' {
        assert(scan_step(x, 0, line) == string_step(x, 0, line, c));
        let j = find_char(x, 1, c);
        lemma_find_char_ge(x, 1, c);
        assert(j < x.len());
        lemma_find_char_shift(s, i, x, 1, c);
        lemma_count_newlines_shift(s, i, x, 1, j);
        lemma_subrange_shift(s, i, x, 0, j + 1);
        lemma_subrange_shift(s, i, x, 1, j);
    } else if is_ascii_digit(c) {
        assert(scan_step(x, 0, line) == number_step(x, 0, line));
        let k = digit_run(x, 0);
        let has_frac = char_at(x, k) == '.' && is_ascii_digit(char_at(x, k + 1));
        let end = if has_frac { digit_run(x, k + 1) } else { k };
        lemma_digit_run_ge(x, 0);
        lemma_digit_run_ge(x, k + 1);
        assert(st.next == end);
        assert(k <= end) by {
            if has_frac {
                lemma_digit_run_ge(x, k + 1);
            }
        }
        lemma_digit_run_shift(s, i, x, 0);
        assert(x[k] == s.subrange(i, i + x.len())[k]);
        assert(char_at(s, i + k) == char_at(x, k));
        if char_at(x, k) == '.' {
            assert(k + 1 < x.len()) by {
                lemma_digit_run_ge(x, k + 1);
            }
            assert(x[k + 1] == s.subrange(i, i + x.len())[k + 1]);
            assert(char_at(s, i + k + 1) == char_at(x, k + 1));
            if is_ascii_digit(char_at(x, k + 1)) {
                lemma_digit_run_shift(s, i, x, k + 1);
                lemma_subrange_shift(s, i, x, k + 1, end);
            }
        }
        lemma_subrange_shift(s, i, x, 0, k);
        lemma_subrange_shift(s, i, x, 0, end);
    } else if ident_start(c) && c != '#' {
        lemma_ident_run_ge(x, 1);
        if ident_run(x, 1) < x.len() {
            lemma_ident_run_shift(s, i, x, 1);
            lemma_subrange_shift(s, i, x, 0, ident_run(x, 1));
        }
    }
}

proof fn lemma_find_char_ge(x: Seq<char>, k: int, d: char)
    ensures
        find_char(x, k, d) >= k,
    decreases x.len() - k,
{
    if 0 <= k < x.len() && x[k] != d {
        lemma_find_char_ge(x, k + 1, d);
    }
}

proof fn lemma_ident_run_ge(x: Seq<char>, k: int)
    ensures
        ident_run(x, k) >= k,
    decreases x.len() - k,
{
    if 0 <= k < x.len() && crate::lexer::ident_char(x[k]) {
        lemma_ident_run_ge(x, k + 1);
    }
}

proof fn lemma_digit_run_ge(x: Seq<char>, k: int)
    ensures
        digit_run(x, k) >= k,
    decreases x.len() - k,
{
    if 0 <= k < x.len() && is_ascii_digit(x[k]) {
        lemma_digit_run_ge(x, k + 1);
    }
}

/// Lexing `a` followed by the text of `toks` from the end of `a` reads the
/// tokens back.
proof fn lemma_relex_from(a: Seq<char>, toks: Seq<TokenView>, line: nat)
    requires
        forall|k: int| 0 <= k < toks.len() ==> reads_back(#[trigger] toks[k]),
    ensures
        lex_from(a + tokens_text(toks), a.len(), line) matches Ok(r) && same_shape(r, toks),
    decreases toks.len(),
{
    let s = a + tokens_text(toks);
    if toks.len() == 0 {
        assert(s =~= a);
    } else {
        let t = toks[0];
        let x = t.lexeme + seq![' '];
        let rest = toks.drop_first();
        assert(reads_back(toks[0]));
        assert(reads_back(t));
        let st = scan_step(x, 0, line)->Ok_0;
        assert(read_as(scan_step(x, 0, line), t));
        assert(t.lexeme.len() >= 1) by {
            if t.lexeme.len() == 0 {
                assert(x =~= seq![' ']);
            }
        }
        assert(s =~= a + x + tokens_text(rest));
        assert(s.subrange(a.len() as int, (a.len() + x.len()) as int) =~= x);
        lemma_step_local(s, a.len() as int, x, line);
        let a2 = a + x;
        assert(s =~= a2 + tokens_text(rest));
        let p: int = (a.len() + t.lexeme.len()) as int;
        assert(s[p] == ' ');
        assert(forall|k: int| 0 <= k < rest.len() ==> #[trigger] rest[k] == toks[k + 1]);
        lemma_relex_from(a2, rest, st.line);
        let r2 = lex_from(s, a2.len(), st.line)->Ok_0;
        assert(lex_from(s, p as nat, st.line) == lex_from(s, a2.len(), st.line));
        let r = seq![st.token->Some_0] + r2;
        assert(lex_from(s, a.len(), line) == Ok::<Seq<TokenView>, crate::lexer::LexError>(r));
        assert(same_shape(r, toks)) by {
            assert forall|k: int| 0 <= k < toks.len() implies #[trigger] r[k].ty == toks[k].ty && r[k].literal
                == toks[k].literal by {
                if k > 0 {
                    assert(r[k] == r2[k - 1]);
                    assert(rest[k - 1] == toks[k]);
                }
            }
        }
    }
}

/// Printing a sequence of tokens, each of which reads back as itself, and
/// lexing the text again gives the same kinds and literal values, followed
/// by `Eof` (lines may differ).
pub proof fn lemma_print_relex(toks: Seq<TokenView>)
    requires
        forall|k: int| 0 <= k < toks.len() ==> reads_back(#[trigger] toks[k]),
    ensures
        lex(tokens_text(toks)) matches Ok(r) && same_shape(r, toks),
{
    lemma_relex_from(Seq::empty(), toks, 1);
    assert(Seq::<char>::empty() + tokens_text(toks) =~= tokens_text(toks));
}

proof fn lemma_tokens_text_push(p: Seq<TokenView>, t: TokenView)
    ensures
        tokens_text(p.push(t)) == tokens_text(p) + t.lexeme + seq![' '],
    decreases p.len(),
{
    if p.len() == 0 {
        assert(p.push(t).drop_first() =~= Seq::<TokenView>::empty());
        assert(tokens_text(Seq::<TokenView>::empty()) == Seq::<char>::empty());
        assert(p.push(t)[0] == t);
        assert(tokens_text(p) == Seq::<char>::empty());
        assert(tokens_text(p.push(t)) =~= tokens_text(p) + t.lexeme + seq![' ']);
    } else {
        lemma_tokens_text_push(p.drop_first(), t);
        assert(p.push(t).drop_first() =~= p.drop_first().push(t));
        assert(tokens_text(p.push(t)) =~= tokens_text(p) + t.lexeme + seq![' ']);
    }
}

/// Prints tokens as source text: each lexeme followed by a space.
pub fn print_tokens(tokens: &[Token]) -> (r: String)
    ensures
        r@ == tokens_text(tokens_view(tokens@)),
{
    let mut r = String::new();
    let mut i: usize = 0;
    assert(tokens_view(tokens@.subrange(0, 0)) =~= Seq::<TokenView>::empty());
    while i < tokens.len()
        invariant
            i <= tokens@.len(),
            r@ == tokens_text(tokens_view(tokens@.subrange(0, i as int))),
        decreases tokens@.len() - i,
    {
        proof {
            let p = tokens_view(tokens@.subrange(0, i as int));
            lemma_tokens_text_push(p, tokens@[i as int]@);
            assert(p.push(tokens@[i as int]@) =~= tokens_view(tokens@.subrange(0, i + 1)));
        }
        let ghost before = r@;
        r = r.concat(tokens[i].lexeme.as_str()).concat(" ");
        proof {
            reveal_strlit(" ");
            assert(r@ =~= before + tokens@[i as int]@.lexeme + seq![' ']);
        }
        i += 1;
    }
    assert(tokens@.subrange(0, tokens@.len() as int) =~= tokens@);
    r
}

proof fn lemma_digit_run_le(s: Seq<char>, j: int)
    requires
        0 <= j <= s.len(),
    ensures
        digit_run(s, j) <= s.len(),
    decreases s.len() - j,
{
    if j < s.len() && is_ascii_digit(s[j]) {
        lemma_digit_run_le(s, j + 1);
    }
}

proof fn lemma_ident_run_le(s: Seq<char>, j: int)
    requires
        0 <= j <= s.len(),
    ensures
        ident_run(s, j) <= s.len(),
    decreases s.len() - j,
{
    if j < s.len() && crate::lexer::ident_char(s[j]) {
        lemma_ident_run_le(s, j + 1);
    }
}

proof fn lemma_find_char_hit(s: Seq<char>, k: int, d: char)
    requires
        0 <= k,
        find_char(s, k, d) < s.len(),
    ensures
        s[find_char(s, k, d)] == d,
    decreases s.len() - k,
{
    if k < s.len() && s[k] != d {
        lemma_find_char_hit(s, k + 1, d);
    }
}

proof fn lemma_digit_run_piece(s: Seq<char>, i: int, end: int, k: int)
    requires
        0 <= i <= i + k <= end <= s.len(),
        digit_run(s, i + k) <= end,
    ensures
        digit_run(s.subrange(i, end) + seq![' '], k) == digit_run(s, i + k) - i,
    decreases end - i - k,
{
    let x = s.subrange(i, end) + seq![' '];
    if i + k < end {
        assert(x[k] == s[i + k]);
        if is_ascii_digit(s[i + k]) {
            lemma_digit_run_piece(s, i, end, k + 1);
        }
    } else {
        assert(x[k] == ' ');
        lemma_digit_run_ge(s, i + k);
    }
}

proof fn lemma_ident_run_piece(s: Seq<char>, i: int, end: int, k: int)
    requires
        0 <= i <= i + k <= end <= s.len(),
        ident_run(s, i + k) == end,
    ensures
        ident_run(s.subrange(i, end) + seq![' '], k) == end - i,
    decreases end - i - k,
{
    let x = s.subrange(i, end) + seq![' '];
    if i + k < end {
        assert(x[k] == s[i + k]);
        lemma_ident_run_ge(s, i + k + 1);
        lemma_ident_run_piece(s, i, end, k + 1);
    } else {
        assert(x[k] == ' ');
    }
}

proof fn lemma_find_char_piece(s: Seq<char>, i: int, end: int, k: int, d: char)
    requires
        0 <= i <= i + k < end <= s.len(),
        find_char(s, i + k, d) == end - 1,
    ensures
        find_char(s.subrange(i, end) + seq![' '], k, d) == end - 1 - i,
    decreases end - i - k,
{
    let x = s.subrange(i, end) + seq![' '];
    assert(x[k] == s[i + k]);
    lemma_find_char_ge(s, i + k + 1, d);
    if i + k < end - 1 {
        lemma_find_char_piece(s, i, end, k + 1, d);
    }
}

/// A token that the lexer produces reads back as itself: its lexeme,
/// followed by a space, scans to a token of the same kind and literal.
pub proof fn lemma_lexed_token_reads_back(s: Seq<char>, i: int, line: nat)
    requires
        0 <= i < s.len(),
        scan_step(s, i, line) matches Ok(st) && st.token is Some,
    ensures
        reads_back(scan_step(s, i, line)->Ok_0.token->Some_0),
{
    let st = scan_step(s, i, line)->Ok_0;
    let t = st.token->Some_0;
    let c = s[i];
    assert forall|l2: nat| #[trigger] read_as(scan_step(t.lexeme + seq![' '], 0, l2), t) by {
        let x = t.lexeme + seq![' '];
        if c == '\'' || c == '"' {
            assert(scan_step(s, i, line) == string_step(s, i, line, c));
            let j = find_char(s, i + 1, c);
            lemma_find_char_ge(s, i + 1, c);
            assert(j < s.len());
            lemma_find_char_hit(s, i + 1, c);
            assert(s[j] == c);
            assert(t.lexeme == s.subrange(i, j + 1));
            assert(x[0] == c);
            if j > i + 1 {
                lemma_find_char_piece(s, i, j + 1, 1, c);
            } else {
                assert(x[1] == s[j]);
            }
            assert(find_char(x, 1, c) == j - i);
            assert(x.subrange(0, j - i + 1) =~= t.lexeme);
            assert(x.subrange(1, j - i) =~= s.subrange(i + 1, j));
            assert(scan_step(x, 0, l2) == string_step(x, 0, l2, c));
            assert(read_as(scan_step(x, 0, l2), t));
        } else if is_ascii_digit(c) {
            assert(scan_step(s, i, line) == number_step(s, i, line));
            let k = digit_run(s, i);
            let has_frac = char_at(s, k) == '.' && is_ascii_digit(char_at(s, k + 1));
            let end = if has_frac { digit_run(s, k + 1) } else { k };
            lemma_digit_run_ge(s, i + 1);
            lemma_digit_run_le(s, i);
            assert(k > i);
            if has_frac {
                lemma_digit_run_ge(s, k + 2);
                lemma_digit_run_le(s, k + 1);
                assert(end >= k + 2);
            }
            assert(end <= s.len());
            assert(t.lexeme == s.subrange(i, end));
            assert(x[0] == c);
            lemma_digit_run_piece(s, i, end, 0);
            if has_frac {
                assert(x[k - i] == '.');
                assert(x[k - i + 1] == s[k + 1]);
                lemma_digit_run_piece(s, i, end, k - i + 1);
                assert(x.subrange(k - i + 1, end - i) =~= s.subrange(k + 1, end));
            } else {
                assert(char_at(x, k - i) != '.') by {
                    if k < end {
                    } else {
                        assert(x[k - i] == ' ');
                    }
                }
            }
            assert(x.subrange(0, k - i) =~= s.subrange(i, k));
            assert(x.subrange(0, end - i) =~= t.lexeme);
            assert(scan_step(x, 0, l2) == number_step(x, 0, l2));
            assert(read_as(scan_step(x, 0, l2), t));
        } else if ident_start(c) && c != '#' && c != ' ' && c != '\t' && c != '\r' && c != '\n' {
            let j = ident_run(s, i + 1);
            lemma_ident_run_ge(s, i + 1);
            lemma_ident_run_le(s, i + 1);
            if !(c == '(' || c == ')' || c == '{' || c == '}' || c == ',' || c == ';' || c == '+' || c == '-'
                || c == '*' || c == '/' || c == '%' || c == '=' || c == '!' || c == '<' || c == '>' || c == '&'
                || c == '|') {
                assert(scan_step(s, i, line) == crate::lexer::word_step(s, i, line));
                assert(t.lexeme == s.subrange(i, j));
                assert(x[0] == c);
                lemma_ident_run_piece(s, i, j, 1);
                assert(x.subrange(0, j - i) =~= t.lexeme);
                assert(scan_step(x, 0, l2) == crate::lexer::word_step(x, 0, l2));
                assert(read_as(scan_step(x, 0, l2), t));
            }
        } else {
            assert(x[0] == c);
            if t.lexeme.len() == 2 {
                assert(x[1] == s[i + 1]);
            } else {
                assert(x[1] == ' ');
            }
            assert(x.subrange(0, t.lexeme.len() as int) =~= t.lexeme);
            assert(read_as(scan_step(x, 0, l2), t));
        }
    }
}

proof fn lemma_lex_from_reads_back(s: Seq<char>, i: nat, line: nat)
    ensures
        lex_from(s, i, line) matches Ok(toks) ==> toks.len() >= 1 && forall|k: int|
            0 <= k < toks.len() - 1 ==> reads_back(#[trigger] toks[k]),
    decreases s.len() - i,
{
    if i < s.len() {
        match scan_step(s, i as int, line) {
            Err(_) => {},
            Ok(st) => {
                if st.next > i && st.next <= s.len() {
                    lemma_lex_from_reads_back(s, st.next as nat, st.line);
                    match lex_from(s, st.next as nat, st.line) {
                        Ok(rest) => {
                            match st.token {
                                Some(t) => {
                                    lemma_lexed_token_reads_back(s, i as int, line);
                                    let toks = seq![t] + rest;
                                    assert forall|k: int| 0 <= k < toks.len() - 1 implies reads_back(
                                        #[trigger] toks[k],
                                    ) by {
                                        if k > 0 {
                                            assert(toks[k] == rest[k - 1]);
                                        }
                                    }
                                },
                                None => {},
                            }
                        },
                        Err(_) => {},
                    }
                }
            },
        }
    }
}

/// Lexing a text, printing its tokens (all but the final `Eof`) and lexing
/// the printed text again gives the same kinds and literal values, followed
/// by `Eof` (lines may differ).
pub proof fn lemma_relex_lexed(s: Seq<char>)
    ensures
        lex(s) matches Ok(toks) ==> lex(tokens_text(toks.drop_last())) matches Ok(r) && same_shape(
            r,
            toks.drop_last(),
        ),
{
    lemma_lex_from_reads_back(s, 0, 1);
    match lex(s) {
        Ok(toks) => {
            let body = toks.drop_last();
            assert forall|k: int| 0 <= k < body.len() implies reads_back(#[trigger] body[k]) by {
                assert(body[k] == toks[k]);
            }
            lemma_print_relex(body);
        },
        Err(_) => {},
    }
}

} // verus!

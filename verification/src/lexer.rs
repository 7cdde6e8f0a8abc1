//! The tokenizer.
//!
//! `lex` turns source text into the full token stream: tokens with their
//! source lines, interleaved with lexical errors for characters that start
//! no token, and terminated by an `EOF` token.  `spec_lex` is the
//! mathematical definition the executable tokenizer is proved against.

use vstd::prelude::*;

use crate::error::LexError;
use crate::numeral::{
    all_digits, lemma_strip_leading_wf, lemma_strip_trailing_wf, spec_is_digit,
    strip_leading_zeros, strip_trailing_zeros, Numeral, SpecNumeral,
};
use crate::token::{SpecToken, SpecTokenKind, Token, TokenKind};

verus! {

/// One item of the token stream: a token with its line, or a lexical error.
pub type LexItem = Result<TokenKind, LexError>;

/// The mathematical value of a lex item.
pub type SpecLexItem = Result<SpecTokenKind, LexError>;

/// The mathematical value of one lex item.
pub open spec fn lex_item_view(it: LexItem) -> SpecLexItem {
    match it {
        Result::Ok(k) => Result::Ok(k@),
        Result::Err(e) => Result::Err(e),
    }
}

/// The mathematical value of a sequence of lex items.
pub open spec fn lex_items_view(v: Seq<LexItem>) -> Seq<SpecLexItem> {
    v.map_values(|it: LexItem| lex_item_view(it))
}

/// True for letters and underscore: the characters that may start an
/// identifier.
pub open spec fn spec_is_alpha(c: char) -> bool {
    (97 <= c as u32 <= 122) || (65 <= c as u32 <= 90) || c == '_'
}

/// True for the characters that may continue an identifier.
pub open spec fn spec_is_alnum(c: char) -> bool {
    spec_is_alpha(c) || spec_is_digit(c)
}

/// True for blank characters that separate tokens without effect.
pub open spec fn spec_is_blank(c: char) -> bool {
    c == ' ' || c == '\t' || c == '\r'
}

/// The line counter after one more newline; saturates at the top.
pub open spec fn next_line(line: usize) -> usize {
    if line < usize::MAX {
        (line + 1) as usize
    } else {
        usize::MAX
    }
}

/// The line counter after passing over the characters of `seg`.
pub open spec fn advance_lines(line: usize, seg: Seq<char>) -> usize
    decreases seg.len(),
{
    if seg.len() == 0 {
        line
    } else {
        advance_lines(
            if seg[0] == '\n' {
                next_line(line)
            } else {
                line
            },
            seg.drop_first(),
        )
    }
}

/// Index just past the run of identifier characters starting at `i`.
pub open spec fn ident_end(s: Seq<char>, i: int) -> int
    decreases s.len() - i,
{
    if 0 <= i < s.len() && spec_is_alnum(s[i]) {
        ident_end(s, i + 1)
    } else {
        i
    }
}

/// Index just past the run of digits starting at `i`.
pub open spec fn digits_end(s: Seq<char>, i: int) -> int
    decreases s.len() - i,
{
    if 0 <= i < s.len() && spec_is_digit(s[i]) {
        digits_end(s, i + 1)
    } else {
        i
    }
}

/// Index of the closing quote of a string whose contents start at `i`, or
/// the end of the input if there is none.
pub open spec fn string_end(s: Seq<char>, i: int) -> int
    decreases s.len() - i,
{
    if 0 <= i < s.len() && s[i] != '"' {
        string_end(s, i + 1)
    } else {
        i
    }
}

/// Bounds and contents of an identifier run.
pub proof fn lemma_ident_end(s: Seq<char>, i: int)
    ensures
        i <= ident_end(s, i),
        i <= s.len() ==> ident_end(s, i) <= s.len(),
        forall|k: int| i <= k < ident_end(s, i) ==> spec_is_alnum(#[trigger] s[k]),
        0 <= i && ident_end(s, i) < s.len() ==> !spec_is_alnum(s[ident_end(s, i)]),
    decreases s.len() - i,
{
    if 0 <= i < s.len() && spec_is_alnum(s[i]) {
        lemma_ident_end(s, i + 1);
    }
}

/// Bounds and contents of a digit run.
pub proof fn lemma_digits_end(s: Seq<char>, i: int)
    ensures
        i <= digits_end(s, i),
        i <= s.len() ==> digits_end(s, i) <= s.len(),
        forall|k: int| i <= k < digits_end(s, i) ==> spec_is_digit(#[trigger] s[k]),
        0 <= i && digits_end(s, i) < s.len() ==> !spec_is_digit(s[digits_end(s, i)]),
    decreases s.len() - i,
{
    if 0 <= i < s.len() && spec_is_digit(s[i]) {
        lemma_digits_end(s, i + 1);
    }
}

/// Bounds and contents of a string literal's body.
pub proof fn lemma_string_end(s: Seq<char>, i: int)
    ensures
        i <= string_end(s, i),
        i <= s.len() ==> string_end(s, i) <= s.len(),
        forall|k: int| i <= k < string_end(s, i) ==> #[trigger] s[k] != '"',
        0 <= i && string_end(s, i) < s.len() ==> s[string_end(s, i)] == '"',
    decreases s.len() - i,
{
    if 0 <= i < s.len() && s[i] != '"' {
        lemma_string_end(s, i + 1);
    }
}

/// Well-formed identifier text: a letter or underscore, then letters,
/// underscores and digits.
pub open spec fn spec_is_ident_text(w: Seq<char>) -> bool {
    &&& w.len() > 0
    &&& spec_is_alpha(w[0])
    &&& forall|k: int| 0 <= k < w.len() ==> spec_is_alnum(#[trigger] w[k])
}

/// An identifier run ends exactly at the first foreign character: if
/// `[i, j)` holds identifier characters and `j` is the end or a foreign
/// character, the scan from `i` stops at `j`.
pub proof fn lemma_ident_end_run(s: Seq<char>, i: int, j: int)
    requires
        0 <= i <= j <= s.len(),
        forall|k: int| i <= k < j ==> spec_is_alnum(#[trigger] s[k]),
        j < s.len() ==> !spec_is_alnum(s[j]),
    ensures
        ident_end(s, i) == j,
    decreases j - i,
{
    if i < j {
        lemma_ident_end_run(s, i + 1, j);
    }
}

/// A digit run ends exactly at the first non-digit: if `[i, j)` holds
/// digits and `j` is the end or a non-digit, the scan from `i` stops at `j`.
pub proof fn lemma_digits_end_run(s: Seq<char>, i: int, j: int)
    requires
        0 <= i <= j <= s.len(),
        forall|k: int| i <= k < j ==> spec_is_digit(#[trigger] s[k]),
        j < s.len() ==> !spec_is_digit(s[j]),
    ensures
        digits_end(s, i) == j,
    decreases j - i,
{
    if i < j {
        lemma_digits_end_run(s, i + 1, j);
    }
}

/// The token of a single-character symbol, if `c` is one.
pub open spec fn single_token(c: char) -> Option<SpecToken> {
    if c == '(' {
        Option::Some(SpecToken::LParen)
    } else if c == ')' {
        Option::Some(SpecToken::RParen)
    } else if c == '{' {
        Option::Some(SpecToken::LBrace)
    } else if c == '}' {
        Option::Some(SpecToken::RBrace)
    } else if c == '[' {
        Option::Some(SpecToken::LBracket)
    } else if c == ']' {
        Option::Some(SpecToken::RBracket)
    } else if c == ',' {
        Option::Some(SpecToken::Comma)
    } else if c == ';' {
        Option::Some(SpecToken::Semicolon)
    } else if c == '+' {
        Option::Some(SpecToken::Plus)
    } else if c == '-' {
        Option::Some(SpecToken::Minus)
    } else if c == '*' {
        Option::Some(SpecToken::Star)
    } else if c == '/' {
        Option::Some(SpecToken::Slash)
    } else {
        Option::None
    }
}

/// True for the four characters that may pair with a following `=`.
pub open spec fn spec_is_pairing(c: char) -> bool {
    c == '=' || c == '!' || c == '<' || c == '>'
}

/// The token of `=`, `!`, `<` or `>`, alone or paired with a following `=`.
pub open spec fn pair_token(c: char, eq: bool) -> SpecToken {
    if c == '=' {
        if eq {
            SpecToken::AssignEqual
        } else {
            SpecToken::Assign
        }
    } else if c == '!' {
        if eq {
            SpecToken::BangEqual
        } else {
            SpecToken::Bang
        }
    } else if c == '<' {
        if eq {
            SpecToken::LessEqual
        } else {
            SpecToken::Less
        }
    } else {
        if eq {
            SpecToken::GreaterEqual
        } else {
            SpecToken::Greater
        }
    }
}

/// The keyword token of `w`, or an identifier token if `w` is no keyword.
pub open spec fn keyword_or_ident(w: Seq<char>) -> SpecToken {
    if w == "fn"@ {
        SpecToken::Fn
    } else if w == "return"@ {
        SpecToken::Return
    } else if w == "if"@ {
        SpecToken::If
    } else if w == "else"@ {
        SpecToken::Else
    } else if w == "print"@ {
        SpecToken::Print
    } else if w == "let"@ {
        SpecToken::Let
    } else if w == "and"@ {
        SpecToken::And
    } else if w == "or"@ {
        SpecToken::Or
    } else if w == "true"@ {
        SpecToken::True
    } else if w == "false"@ {
        SpecToken::False
    } else if w == "len"@ {
        SpecToken::Len
    } else if w == "first"@ {
        SpecToken::First
    } else if w == "last"@ {
        SpecToken::Last
    } else if w == "rest"@ {
        SpecToken::Rest
    } else if w == "push"@ {
        SpecToken::Push
    } else {
        SpecToken::Ident(w)
    }
}

/// A token stream item carrying token `t` on line `line`.
pub open spec fn lex_ok(t: SpecToken, line: usize) -> SpecLexItem {
    Result::Ok(SpecTokenKind { token: t, line })
}

/// The number token scanned from `s` starting at `i`: its digit run, and a
/// fractional digit run if a dot with a digit follows.
pub open spec fn number_token(s: Seq<char>, i: int) -> SpecToken {
    let j1 = digits_end(s, i);
    if j1 < s.len() && s[j1] == '.' && j1 + 1 < s.len() && spec_is_digit(s[j1 + 1]) {
        let j2 = digits_end(s, j1 + 1);
        SpecToken::Number(
            SpecNumeral {
                whole: strip_leading_zeros(s.subrange(i, j1)),
                frac: strip_trailing_zeros(s.subrange(j1 + 1, j2)),
            },
        )
    } else {
        SpecToken::Number(
            SpecNumeral { whole: strip_leading_zeros(s.subrange(i, j1)), frac: Seq::empty() },
        )
    }
}

/// Index just past the number scanned from `s` starting at `i`.
pub open spec fn number_end(s: Seq<char>, i: int) -> int {
    let j1 = digits_end(s, i);
    if j1 < s.len() && s[j1] == '.' && j1 + 1 < s.len() && spec_is_digit(s[j1 + 1]) {
        digits_end(s, j1 + 1)
    } else {
        j1
    }
}

/// The token stream of the input from position `i` on, with the line
/// counter at `line`.
pub open spec fn spec_lex_from(s: Seq<char>, i: int, line: usize) -> Seq<SpecLexItem>
    decreases s.len() - i,
    via spec_lex_from_decreases
{
    if !(0 <= i < s.len()) {
        seq![lex_ok(SpecToken::EOF, line)]
    } else {
        let c = s[i];
        if spec_is_blank(c) {
            spec_lex_from(s, i + 1, line)
        } else if c == '\n' {
            spec_lex_from(s, i + 1, next_line(line))
        } else if single_token(c) is Some {
            seq![lex_ok(single_token(c)->Some_0, line)] + spec_lex_from(s, i + 1, line)
        } else if spec_is_pairing(c) {
            let eq = i + 1 < s.len() && s[i + 1] == '=';
            let skip: int = if eq {
                2
            } else {
                1
            };
            seq![lex_ok(pair_token(c, eq), line)] + spec_lex_from(s, i + skip, line)
        } else if c == '"' {
            let j = string_end(s, i + 1);
            if j < s.len() {
                seq![lex_ok(SpecToken::Str(s.subrange(i + 1, j)), line)] + spec_lex_from(
                    s,
                    j + 1,
                    advance_lines(line, s.subrange(i + 1, j)),
                )
            } else {
                seq![Result::Err(LexError::UnterminatedString { line })] + spec_lex_from(
                    s,
                    j,
                    line,
                )
            }
        } else if spec_is_digit(c) {
            seq![lex_ok(number_token(s, i), line)] + spec_lex_from(s, number_end(s, i), line)
        } else if spec_is_alpha(c) {
            let j = ident_end(s, i);
            seq![lex_ok(keyword_or_ident(s.subrange(i, j)), line)] + spec_lex_from(s, j, line)
        } else {
            seq![Result::Err(LexError::UnexpectedChar { c, line })] + spec_lex_from(
                s,
                i + 1,
                line,
            )
        }
    }
}

#[via_fn]
proof fn spec_lex_from_decreases(s: Seq<char>, i: int, line: usize) {
    if 0 <= i < s.len() {
        let c = s[i];
        if c == '"' {
            lemma_string_end(s, i + 1);
        } else if spec_is_digit(c) {
            lemma_digits_end(s, i);
            assert(digits_end(s, i) == digits_end(s, i + 1));
            lemma_digits_end(s, i + 1);
            let j1 = digits_end(s, i);
            if j1 < s.len() && s[j1] == '.' && j1 + 1 < s.len() && spec_is_digit(s[j1 + 1]) {
                lemma_digits_end(s, j1 + 1);
            }
        } else if spec_is_alpha(c) {
            assert(ident_end(s, i) == ident_end(s, i + 1));
            lemma_ident_end(s, i + 1);
        }
    }
}

/// The token stream of the whole input; line counting starts at 1.
pub open spec fn spec_lex(s: Seq<char>) -> Seq<SpecLexItem> {
    spec_lex_from(s, 0, 1)
}

fn is_digit_ch(c: char) -> (r: bool)
    ensures
        r == spec_is_digit(c),
{
    let u = c as u32;
    48 <= u && u <= 57
}

fn is_alpha_ch(c: char) -> (r: bool)
    ensures
        r == spec_is_alpha(c),
{
    let u = c as u32;
    (97 <= u && u <= 122) || (65 <= u && u <= 90) || c == '_'
}

fn is_alnum_ch(c: char) -> (r: bool)
    ensures
        r == spec_is_alnum(c),
{
    is_alpha_ch(c) || is_digit_ch(c)
}

fn is_blank_ch(c: char) -> (r: bool)
    ensures
        r == spec_is_blank(c),
{
    c == ' ' || c == '\t' || c == '\r'
}

/// Character-by-character string equality.
fn str_eq(a: &str, b: &str) -> (r: bool)
    ensures
        r == (a@ == b@),
{
    let na = a.unicode_len();
    let nb = b.unicode_len();
    if na != nb {
        return false;
    }
    let mut i: usize = 0;
    while i < na
        invariant
            na == a@.len(),
            na == b@.len(),
            i <= na,
            forall|k: int| 0 <= k < i ==> a@[k] == b@[k],
        decreases na - i,
    {
        if a.get_char(i) != b.get_char(i) {
            return false;
        }
        i = i + 1;
    }
    proof {
        assert(a@ =~= b@);
    }
    true
}

fn scan_ident_end(input: &str, start: usize) -> (j: usize)
    requires
        start <= input@.len(),
    ensures
        j == ident_end(input@, start as int),
        start <= j <= input@.len(),
    decreases input@.len() - start,
{
    let n = input.unicode_len();
    let mut j = start;
    while j < n && is_alnum_ch(input.get_char(j))
        invariant
            start <= j <= n,
            n == input@.len(),
            ident_end(input@, start as int) == ident_end(input@, j as int),
        decreases n - j,
    {
        j = j + 1;
    }
    proof {
        lemma_ident_end(input@, start as int);
    }
    j
}

fn scan_digits_end(input: &str, start: usize) -> (j: usize)
    requires
        start <= input@.len(),
    ensures
        j == digits_end(input@, start as int),
        start <= j <= input@.len(),
{
    let n = input.unicode_len();
    let mut j = start;
    while j < n && is_digit_ch(input.get_char(j))
        invariant
            start <= j <= n,
            n == input@.len(),
            digits_end(input@, start as int) == digits_end(input@, j as int),
        decreases n - j,
    {
        j = j + 1;
    }
    proof {
        lemma_digits_end(input@, start as int);
    }
    j
}

fn scan_string_end(input: &str, start: usize) -> (j: usize)
    requires
        start <= input@.len(),
    ensures
        j == string_end(input@, start as int),
        start <= j <= input@.len(),
{
    let n = input.unicode_len();
    let mut j = start;
    while j < n && input.get_char(j) != '"'
        invariant
            start <= j <= n,
            n == input@.len(),
            string_end(input@, start as int) == string_end(input@, j as int),
        decreases n - j,
    {
        j = j + 1;
    }
    proof {
        lemma_string_end(input@, start as int);
    }
    j
}

/// Advances the line counter over `input[start..end)`.
fn advance_lines_exec(input: &str, start: usize, end: usize, line: usize) -> (r: usize)
    requires
        start <= end <= input@.len(),
    ensures
        r == advance_lines(line, input@.subrange(start as int, end as int)),
{
    let mut k = start;
    let mut cur = line;
    while k < end
        invariant
            start <= k <= end <= input@.len(),
            advance_lines(line, input@.subrange(start as int, end as int)) == advance_lines(
                cur,
                input@.subrange(k as int, end as int),
            ),
        decreases end - k,
    {
        let ghost pre = input@.subrange(k as int, end as int);
        if input.get_char(k) == '\n' {
            cur = cur.saturating_add(1);
        }
        k = k + 1;
        proof {
            assert(pre.drop_first() =~= input@.subrange(k as int, end as int));
        }
    }
    proof {
        assert(input@.subrange(k as int, end as int) =~= Seq::<char>::empty());
    }
    cur
}

/// The whole part of a number: digits with leading zeros dropped.
fn normalized_whole(input: &str, start: usize, end: usize) -> (w: String)
    requires
        start < end <= input@.len(),
    ensures
        w@ == strip_leading_zeros(input@.subrange(start as int, end as int)),
{
    let mut k = start;
    while k + 1 < end && input.get_char(k) == '0'
        invariant
            start <= k < end <= input@.len(),
            strip_leading_zeros(input@.subrange(start as int, end as int))
                == strip_leading_zeros(input@.subrange(k as int, end as int)),
        decreases end - k,
    {
        let ghost pre = input@.subrange(k as int, end as int);
        k = k + 1;
        proof {
            assert(pre.subrange(1, pre.len() as int) =~= input@.subrange(k as int, end as int));
        }
    }
    input.substring_char(k, end).to_owned()
}

/// The fractional part of a number: digits with trailing zeros dropped.
fn normalized_frac(input: &str, start: usize, end: usize) -> (f: String)
    requires
        start <= end <= input@.len(),
    ensures
        f@ == strip_trailing_zeros(input@.subrange(start as int, end as int)),
{
    let mut e = end;
    while e > start && input.get_char(e - 1) == '0'
        invariant
            start <= e <= end <= input@.len(),
            strip_trailing_zeros(input@.subrange(start as int, end as int))
                == strip_trailing_zeros(input@.subrange(start as int, e as int)),
        decreases e,
    {
        let ghost pre = input@.subrange(start as int, e as int);
        e = e - 1;
        proof {
            assert(pre.subrange(0, pre.len() - 1) =~= input@.subrange(start as int, e as int));
        }
    }
    input.substring_char(start, e).to_owned()
}

/// The single-character token started by `c`, if any.
fn single_token_exec(c: char) -> (r: Option<Token>)
    ensures
        match r {
            Option::Some(t) => single_token(c) == Option::Some(t@),
            Option::None => single_token(c) is None,
        },
{
    match c {
        '(' => Option::Some(Token::LParen),
        ')' => Option::Some(Token::RParen),
        '{' => Option::Some(Token::LBrace),
        '}' => Option::Some(Token::RBrace),
        '[' => Option::Some(Token::LBracket),
        ']' => Option::Some(Token::RBracket),
        ',' => Option::Some(Token::Comma),
        ';' => Option::Some(Token::Semicolon),
        '+' => Option::Some(Token::Plus),
        '-' => Option::Some(Token::Minus),
        '*' => Option::Some(Token::Star),
        '/' => Option::Some(Token::Slash),
        _ => Option::None,
    }
}

/// The token of a pairing character, alone or followed by `=`.
fn pair_token_exec(c: char, eq: bool) -> (r: Token)
    requires
        spec_is_pairing(c),
    ensures
        r@ == pair_token(c, eq),
{
    match c {
        '=' => if eq {
            Token::AssignEqual
        } else {
            Token::Assign
        },
        '!' => if eq {
            Token::BangEqual
        } else {
            Token::Bang
        },
        '<' => if eq {
            Token::LessEqual
        } else {
            Token::Less
        },
        _ => if eq {
            Token::GreaterEqual
        } else {
            Token::Greater
        },
    }
}

/// The keyword token of `w`, or an identifier token.
fn keyword_or_ident_exec(w: String) -> (r: Token)
    ensures
        r@ == keyword_or_ident(w@),
{
    if str_eq(w.as_str(), "fn") {
        Token::Fn
    } else if str_eq(w.as_str(), "return") {
        Token::Return
    } else if str_eq(w.as_str(), "if") {
        Token::If
    } else if str_eq(w.as_str(), "else") {
        Token::Else
    } else if str_eq(w.as_str(), "print") {
        Token::Print
    } else if str_eq(w.as_str(), "let") {
        Token::Let
    } else if str_eq(w.as_str(), "and") {
        Token::And
    } else if str_eq(w.as_str(), "or") {
        Token::Or
    } else if str_eq(w.as_str(), "true") {
        Token::True
    } else if str_eq(w.as_str(), "false") {
        Token::False
    } else if str_eq(w.as_str(), "len") {
        Token::Len
    } else if str_eq(w.as_str(), "first") {
        Token::First
    } else if str_eq(w.as_str(), "last") {
        Token::Last
    } else if str_eq(w.as_str(), "rest") {
        Token::Rest
    } else if str_eq(w.as_str(), "push") {
        Token::Push
    } else {
        Token::Ident(w)
    }
}

/// `lex_items_view` distributes over `push`.
proof fn lemma_lex_items_view_push(v: Seq<LexItem>, x: LexItem)
    ensures
        lex_items_view(v.push(x)) =~= lex_items_view(v).push(lex_item_view(x)),
{
}

/// Turns source text into its token stream.
pub fn lex(input: &str) -> (r: Vec<LexItem>)
    ensures
        lex_items_view(r@) == spec_lex(input@),
        r@.len() > 0,
        match r@.last() {
            Result::Ok(k) => k.token is EOF,
            Result::Err(_) => false,
        },
{
    let ghost s = input@;
    let n = input.unicode_len();
    let mut items: Vec<LexItem> = Vec::new();
    let mut i: usize = 0;
    let mut line: usize = 1;
    while i < n
        invariant
            i <= n,
            n == s.len(),
            s == input@,
            spec_lex(s) == lex_items_view(items@) + spec_lex_from(s, i as int, line),
        decreases n - i,
    {
        let ghost items0 = items@;
        let ghost i0 = i as int;
        let ghost line0 = line;
        let c = input.get_char(i);
        if is_blank_ch(c) {
            i = i + 1;
        } else if c == '\n' {
            line = line.saturating_add(1);
            i = i + 1;
        } else if let Option::Some(t) = single_token_exec(c) {
            items.push(Result::Ok(TokenKind { token: t, line }));
            i = i + 1;
        } else if c == '=' || c == '!' || c == '<' || c == '>' {
            let eq = i + 1 < n && input.get_char(i + 1) == '=';
            let t = pair_token_exec(c, eq);
            items.push(Result::Ok(TokenKind { token: t, line }));
            i = if eq {
                i + 2
            } else {
                i + 1
            };
        } else if c == '"' {
            let j = scan_string_end(input, i + 1);
            if j < n {
                let contents = input.substring_char(i + 1, j).to_owned();
                items.push(Result::Ok(TokenKind { token: Token::Str(contents), line }));
                line = advance_lines_exec(input, i + 1, j, line);
                i = j + 1;
            } else {
                items.push(Result::Err(LexError::UnterminatedString { line }));
                i = j;
            }
        } else if is_digit_ch(c) {
            let j1 = scan_digits_end(input, i);
            proof {
                lemma_digits_end(s, i as int);
            }
            let frac_follows = j1 < n && input.get_char(j1) == '.' && j1 + 1 < n && is_digit_ch(
                input.get_char(j1 + 1),
            );
            let whole = normalized_whole(input, i, j1);
            proof {
                lemma_strip_leading_wf(s.subrange(i as int, j1 as int));
            }
            let num = if frac_follows {
                let j2 = scan_digits_end(input, j1 + 1);
                proof {
                    lemma_digits_end(s, j1 + 1);
                }
                let frac = normalized_frac(input, j1 + 1, j2);
                proof {
                    lemma_strip_trailing_wf(s.subrange(j1 + 1, j2 as int));
                }
                let nm = Numeral::new(whole, frac);
                i = j2;
                nm
            } else {
                let nm = Numeral::new(whole, String::new());
                proof {
                    assert(strip_trailing_zeros(Seq::<char>::empty()) =~= Seq::<char>::empty());
                }
                i = j1;
                nm
            };
            items.push(Result::Ok(TokenKind { token: Token::Number(num), line }));
        } else if is_alpha_ch(c) {
            let j = scan_ident_end(input, i);
            let word = input.substring_char(i, j).to_owned();
            let t = keyword_or_ident_exec(word);
            items.push(Result::Ok(TokenKind { token: t, line }));
            i = j;
        } else {
            items.push(Result::Err(LexError::UnexpectedChar { c, line }));
            i = i + 1;
        }
        proof {
            if items@ == items0 {
                assert(spec_lex_from(s, i0, line0) == spec_lex_from(s, i as int, line));
            } else {
                let x = items@.last();
                assert(items@ =~= items0.push(x));
                lemma_lex_items_view_push(items0, x);
                assert(spec_lex_from(s, i0, line0) =~= seq![lex_item_view(x)] + spec_lex_from(
                    s,
                    i as int,
                    line,
                ));
                assert(lex_items_view(items@) + spec_lex_from(s, i as int, line)
                    =~= lex_items_view(items0) + spec_lex_from(s, i0, line0));
            }
        }
    }
    items.push(Result::Ok(TokenKind { token: Token::EOF, line }));
    proof {
        let x = items@.last();
        lemma_lex_items_view_push(items@.drop_last(), x);
        assert(items@.drop_last().push(x) =~= items@);
        assert(lex_items_view(items@) =~= lex_items_view(items@.drop_last()).push(
            lex_item_view(x),
        ));
        assert(lex_items_view(items@) =~= spec_lex(s));
    }
    items
}

} // verus!


//! The tokenizer: a cursor over the source text that classifies one token per
//! call. `lex_token` is the mathematical model of a single step, `lex_all`
//! the model of the whole token stream; `next_token` is proved to follow
//! `lex_token` exactly.

use vstd::prelude::*;
use crate::numeral::{all_digits, dec_val, is_digit, lemma_dec_val_nonneg,
    lemma_dec_val_push};
use crate::token::{Token, TokenKind, TokenView};

verus! {

/// Whitespace skipped between tokens: space, tab, newline, carriage return.
pub open spec fn is_ws(c: char) -> bool {
    c == ' ' || c == '\t' || c == '\n' || c == '\r'
}

/// Characters that may start an identifier: ASCII letters and underscore.
pub open spec fn is_letter(c: char) -> bool {
    ('a' as u32 <= c as u32 && c as u32 <= 'z' as u32)
        || ('A' as u32 <= c as u32 && c as u32 <= 'Z' as u32)
        || c == '_'
}

/// Characters that may continue an identifier: letters, digits, underscore.
pub open spec fn is_ident_char(c: char) -> bool {
    is_letter(c) || is_digit(c)
}

/// The first position at or after `pos` holding a non-whitespace character,
/// or the end of the input.
pub open spec fn skip_ws_end(s: Seq<char>, pos: int) -> int
    decreases s.len() - pos,
    when 0 <= pos <= s.len()
{
    if pos == s.len() {
        pos
    } else if is_ws(s[pos]) {
        skip_ws_end(s, pos + 1)
    } else {
        pos
    }
}

/// The end of the maximal identifier-character run starting at `pos`.
pub open spec fn ident_end(s: Seq<char>, pos: int) -> int
    decreases s.len() - pos,
    when 0 <= pos <= s.len()
{
    if pos == s.len() {
        pos
    } else if is_ident_char(s[pos]) {
        ident_end(s, pos + 1)
    } else {
        pos
    }
}

/// The end of the maximal digit run starting at `pos`.
pub open spec fn digits_end(s: Seq<char>, pos: int) -> int
    decreases s.len() - pos,
    when 0 <= pos <= s.len()
{
    if pos == s.len() {
        pos
    } else if is_digit(s[pos]) {
        digits_end(s, pos + 1)
    } else {
        pos
    }
}

/// The position of the closing quote of a string literal whose contents
/// start at `pos`, or the end of the input when the literal is unterminated.
pub open spec fn str_end(s: Seq<char>, pos: int) -> int
    decreases s.len() - pos,
    when 0 <= pos <= s.len()
{
    if pos == s.len() {
        pos
    } else if s[pos] == '"' {
        pos
    } else {
        str_end(s, pos + 1)
    }
}

/// Scan positions stay within the input: each scan end lies between its
/// start and the end of the input, the characters before it satisfy the
/// scanned class, and the character at it (if any) does not.
pub proof fn lemma_scan_bounds(s: Seq<char>, pos: int)
    requires
        0 <= pos <= s.len(),
    ensures
        pos <= skip_ws_end(s, pos) <= s.len(),
        pos <= ident_end(s, pos) <= s.len(),
        pos <= digits_end(s, pos) <= s.len(),
        pos <= str_end(s, pos) <= s.len(),
        forall|k: int| pos <= k < digits_end(s, pos) ==> is_digit(#[trigger] s[k]),
        digits_end(s, pos) < s.len() ==> !is_digit(s[digits_end(s, pos)]),
        skip_ws_end(s, pos) < s.len() ==> !is_ws(s[skip_ws_end(s, pos)]),
    decreases s.len() - pos,
{
    if pos < s.len() {
        lemma_scan_bounds(s, pos + 1);
    }
}

/// Resolves an identifier lexeme against the keyword table.
pub open spec fn word_token(w: Seq<char>) -> TokenView {
    if w == "fn"@ {
        TokenView::Function
    } else if w == "let"@ {
        TokenView::Let
    } else if w == "true"@ {
        TokenView::True
    } else if w == "false"@ {
        TokenView::False
    } else if w == "if"@ {
        TokenView::If
    } else if w == "else"@ {
        TokenView::Else
    } else if w == "return"@ {
        TokenView::Return
    } else {
        TokenView::Ident(w)
    }
}

/// One tokenization step: the token classified at `pos` (after skipping
/// whitespace) and the position just past it. After the end of the input the
/// step yields end-of-input without moving, so the terminal state repeats.
pub open spec fn lex_token(s: Seq<char>, pos: int) -> (TokenView, int) {
    let i = skip_ws_end(s, pos);
    if i >= s.len() {
        (TokenView::Eof, i)
    } else {
        let c = s[i];
        if is_letter(c) {
            let j = ident_end(s, i);
            (word_token(s.subrange(i, j)), j)
        } else if is_digit(c) {
            let j = digits_end(s, i);
            let v = dec_val(s.subrange(i, j));
            if v <= i64::MAX {
                (TokenView::Int(v), j)
            } else {
                (TokenView::Illegal, j)
            }
        } else if c == '"' {
            let j = str_end(s, i + 1);
            (TokenView::Str(s.subrange(i + 1, j)), if j < s.len() { j + 1 } else { j })
        } else if c == '=' {
            if i + 1 < s.len() && s[i + 1] == '=' {
                (TokenView::Equal, i + 2)
            } else {
                (TokenView::Assign, i + 1)
            }
        } else if c == '!' {
            if i + 1 < s.len() && s[i + 1] == '=' {
                (TokenView::NotEqual, i + 2)
            } else {
                (TokenView::Bang, i + 1)
            }
        } else if c == '+' {
            (TokenView::Plus, i + 1)
        } else if c == '-' {
            (TokenView::Minus, i + 1)
        } else if c == '*' {
            (TokenView::Asterisk, i + 1)
        } else if c == '/' {
            (TokenView::Slash, i + 1)
        } else if c == '<' {
            (TokenView::LessThan, i + 1)
        } else if c == '>' {
            (TokenView::GreaterThan, i + 1)
        } else if c == ',' {
            (TokenView::Comma, i + 1)
        } else if c == ':' {
            (TokenView::Colon, i + 1)
        } else if c == ';' {
            (TokenView::Semicolon, i + 1)
        } else if c == '(' {
            (TokenView::Lparen, i + 1)
        } else if c == ')' {
            (TokenView::Rparen, i + 1)
        } else if c == '{' {
            (TokenView::Lbrace, i + 1)
        } else if c == '}' {
            (TokenView::Rbrace, i + 1)
        } else if c == '[' {
            (TokenView::Lbracket, i + 1)
        } else if c == ']' {
            (TokenView::Rbracket, i + 1)
        } else {
            (TokenView::Illegal, i + 1)
        }
    }
}

/// One tokenization step stays within the input, advances strictly unless it
/// yields end-of-input, and yields end-of-input exactly at the end.
pub proof fn lemma_lex_token_bounds(s: Seq<char>, pos: int)
    requires
        0 <= pos <= s.len(),
    ensures
        ({
            let (t, p) = lex_token(s, pos);
            &&& pos <= p <= s.len()
            &&& !(t is Eof) ==> p > pos
            &&& t is Eof ==> p == s.len()
        }),
{
    lemma_scan_bounds(s, pos);
    let i = skip_ws_end(s, pos);
    if i < s.len() {
        let c = s[i];
        lemma_scan_bounds(s, i);
        lemma_scan_bounds(s, i + 1);
        if is_letter(c) {
            assert(ident_end(s, i) == ident_end(s, i + 1));
        } else if is_digit(c) {
            assert(digits_end(s, i) == digits_end(s, i + 1));
        }
    }
}

/// The terminal state is idempotent: a step taken at the end of the input
/// yields end-of-input and stays at the end, so every later step does the
/// same.
pub proof fn lemma_eof_terminal(s: Seq<char>)
    ensures
        lex_token(s, s.len() as int) == (TokenView::Eof, s.len() as int),
{
}

/// The whole token stream from `pos` on: every token up to and including the
/// end-of-input token.
pub open spec fn lex_all(s: Seq<char>, pos: int) -> Seq<TokenView>
    decreases s.len() - pos,
    when 0 <= pos <= s.len()
    via lex_all_decreases
{
    let (t, p) = lex_token(s, pos);
    if t is Eof {
        seq![t]
    } else {
        seq![t] + lex_all(s, p)
    }
}

#[via_fn]
proof fn lex_all_decreases(s: Seq<char>, pos: int) {
    lemma_lex_token_bounds(s, pos);
}

/// The token stream is never empty, ends with the end-of-input token, and
/// holds it nowhere else.
pub proof fn lemma_lex_all_shape(s: Seq<char>, pos: int)
    requires
        0 <= pos <= s.len(),
    ensures
        lex_all(s, pos).len() >= 1,
        lex_all(s, pos).last() is Eof,
        forall|i: int| 0 <= i < lex_all(s, pos).len() - 1 ==> !((#[trigger] lex_all(s, pos)[i])
            is Eof),
    decreases s.len() - pos,
{
    lemma_lex_token_bounds(s, pos);
    let (t, p) = lex_token(s, pos);
    if !(t is Eof) {
        lemma_lex_all_shape(s, p);
        assert(forall|i: int|
            1 <= i < lex_all(s, pos).len() ==> lex_all(s, pos)[i] == lex_all(s, p)[i - 1]);
    }
}

/// The tokenizer: an owned copy of the source text and a cursor, measured in
/// characters, of the next position to classify.
#[derive(Debug)]
pub struct Lexer {
    input: String,
    pos: usize,
}

impl Lexer {
    /// The source text under the cursor.
    pub closed spec fn src(&self) -> Seq<char> {
        self.input@
    }

    /// The cursor: the position tokenization has reached.
    pub closed spec fn at(&self) -> int {
        self.pos as int
    }

    /// The cursor lies within the source text.
    pub closed spec fn wf(&self) -> bool {
        0 <= self.pos <= self.input@.len()
    }

    /// The cursor of a well-formed tokenizer lies within its source text.
    pub proof fn wf_bounds(&self)
        requires
            self.wf(),
        ensures
            0 <= self.at() <= self.src().len(),
    {
    }

    /// Builds a tokenizer over a copy of `input`, with the cursor at the
    /// start.
    pub fn new(input: &str) -> (l: Lexer)
        ensures
            l.wf(),
            l.src() == input@,
            l.at() == 0,
    {
        Lexer { input: String::from_str(input), pos: 0 }
    }

    /// Moves the cursor past the whitespace at the cursor.
    fn skip_whitespace(&mut self)
        requires
            old(self).wf(),
        ensures
            final(self).wf(),
            final(self).src() == old(self).src(),
            final(self).at() == skip_ws_end(old(self).src(), old(self).at()),
    {
        let ghost s0 = *old(self);
        let n = self.input.as_str().unicode_len();
        loop
            invariant
                self.wf(),
                self.input == s0.input,
                n == self.input@.len(),
                self.pos >= s0.pos,
                skip_ws_end(self.src(), self.at()) == skip_ws_end(s0.src(), s0.at()),
            ensures
                self.wf(),
                self.input == s0.input,
                self.at() == skip_ws_end(s0.src(), s0.at()),
            decreases n - self.pos,
        {
            if self.pos >= n {
                break;
            }
            let c = self.input.as_str().get_char(self.pos);
            if !(c == ' ' || c == '\t' || c == '\n' || c == '\r') {
                break;
            }
            self.pos = self.pos + 1;
        }
    }

    /// Reads the maximal identifier-character run at the cursor and returns
    /// its text.
    fn read_identifier(&mut self) -> (r: String)
        requires
            old(self).wf(),
        ensures
            final(self).wf(),
            final(self).src() == old(self).src(),
            final(self).at() == ident_end(old(self).src(), old(self).at()),
            r@ == old(self).src().subrange(old(self).at(), final(self).at()),
    {
        let ghost s0 = *old(self);
        let start = self.pos;
        let n = self.input.as_str().unicode_len();
        loop
            invariant
                self.wf(),
                self.input == s0.input,
                n == self.input@.len(),
                self.pos >= start,
                start == s0.pos,
                ident_end(self.src(), self.at()) == ident_end(s0.src(), s0.at()),
            ensures
                self.wf(),
                self.input == s0.input,
                self.at() == ident_end(s0.src(), s0.at()),
                self.pos >= start,
            decreases n - self.pos,
        {
            if self.pos >= n {
                break;
            }
            let c = self.input.as_str().get_char(self.pos);
            let u = c as u32;
            let lettered = (u >= 'a' as u32 && u <= 'z' as u32) || (u >= 'A' as u32 && u
                <= 'Z' as u32) || c == '_' || (u >= '0' as u32 && u <= '9' as u32);
            if !lettered {
                assert(!is_ident_char(self.src()[self.at()]));
                break;
            }
            assert(is_ident_char(self.src()[self.at()]));
            self.pos = self.pos + 1;
        }
        let sub = self.input.as_str().substring_char(start, self.pos);
        String::from_str(sub)
    }

    /// Reads the maximal digit run at the cursor as a 64-bit signed value;
    /// yields nothing when the run's value overflows that range.
    fn read_number(&mut self) -> (r: Option<i64>)
        requires
            old(self).wf(),
        ensures
            final(self).wf(),
            final(self).src() == old(self).src(),
            final(self).at() == digits_end(old(self).src(), old(self).at()),
            ({
                let v = dec_val(old(self).src().subrange(old(self).at(), final(self).at()));
                match r {
                    Some(x) => v <= i64::MAX && x as int == v,
                    None => v > i64::MAX,
                }
            }),
    {
        let ghost s0 = *old(self);
        let start = self.pos;
        let n = self.input.as_str().unicode_len();
        proof {
            lemma_scan_bounds(s0.src(), s0.at());
        }
        // First find the end of the digit run.
        loop
            invariant
                self.wf(),
                self.input == s0.input,
                n == self.input@.len(),
                self.pos >= start,
                start == s0.pos,
                digits_end(self.src(), self.at()) == digits_end(s0.src(), s0.at()),
            ensures
                self.wf(),
                self.input == s0.input,
                self.at() == digits_end(s0.src(), s0.at()),
                self.pos >= start,
            decreases n - self.pos,
        {
            if self.pos >= n {
                break;
            }
            let c = self.input.as_str().get_char(self.pos);
            let u = c as u32;
            if !(u >= '0' as u32 && u <= '9' as u32) {
                assert(!is_digit(self.src()[self.at()]));
                break;
            }
            assert(is_digit(self.src()[self.at()]));
            self.pos = self.pos + 1;
        }
        let end = self.pos;
        let ghost s = s0.src();
        // Then accumulate the value, watching for overflow.
        let mut val: i64 = 0;
        let mut over: bool = false;
        let mut k = start;
        proof {
            assert(s.subrange(start as int, start as int) =~= Seq::<char>::empty());
        }
        while k < end
            invariant
                self.wf(),
                self.input == s0.input,
                s == s0.src(),
                start <= k <= end,
                end == digits_end(s, start as int),
                end <= s.len(),
                self.pos == end,
                forall|j: int| start <= j < end ==> is_digit(#[trigger] s[j]),
                !over ==> 0 <= val && val as int == dec_val(
                    s.subrange(start as int, k as int),
                ),
                over ==> dec_val(s.subrange(start as int, k as int)) > i64::MAX,
            decreases end - k,
        {
            let c = self.input.as_str().get_char(k);
            let ghost pref = s.subrange(start as int, k as int);
            proof {
                assert(s.subrange(start as int, k as int + 1) =~= pref.push(s[k as int]));
                lemma_dec_val_push(pref, s[k as int]);
            }
            let d = (c as u32) - ('0' as u32);
            let dv = d as i64;
            if over {
                proof {
                    assert(dec_val(pref) * 10 >= dec_val(pref));
                }
            } else if val > (9223372036854775807i64 - dv) / 10 {
                proof {
                    let m = i64::MAX - dv;
                    vstd::arithmetic::div_mod::lemma_fundamental_div_mod(m as int, 10);
                    assert(val as int * 10 >= (m / 10 + 1) * 10);
                }
                over = true;
            } else {
                proof {
                    let m = i64::MAX - dv;
                    vstd::arithmetic::div_mod::lemma_fundamental_div_mod(m as int, 10);
                    assert(val as int * 10 <= (m / 10) * 10);
                }
                val = val * 10 + dv;
            }
            k = k + 1;
        }
        proof {
            assert(s.subrange(start as int, end as int) == s.subrange(
                start as int,
                k as int,
            ));
        }
        if over {
            None
        } else {
            Some(val)
        }
    }

    /// Reads a string literal's contents: the cursor sits on the opening
    /// quote; the contents run to the next quote or, for an unterminated
    /// literal, to the end of the input.
    fn read_string(&mut self) -> (r: String)
        requires
            old(self).wf(),
            old(self).at() < old(self).src().len(),
        ensures
            final(self).wf(),
            final(self).src() == old(self).src(),
            ({
                let s = old(self).src();
                let j = str_end(s, old(self).at() + 1);
                &&& r@ == s.subrange(old(self).at() + 1, j)
                &&& final(self).at() == if j < s.len() { j + 1 } else { j }
            }),
    {
        let ghost s0 = *old(self);
        let n = self.input.as_str().unicode_len();
        self.pos = self.pos + 1;
        let start = self.pos;
        loop
            invariant
                self.wf(),
                self.input == s0.input,
                n == self.input@.len(),
                self.pos >= start,
                start == s0.pos + 1,
                start <= n,
                str_end(self.src(), self.at()) == str_end(s0.src(), s0.at() + 1),
            ensures
                self.wf(),
                self.input == s0.input,
                self.at() == str_end(s0.src(), s0.at() + 1),
                self.pos >= start,
            decreases n - self.pos,
        {
            if self.pos >= n {
                break;
            }
            let c = self.input.as_str().get_char(self.pos);
            if c == '"' {
                break;
            }
            self.pos = self.pos + 1;
        }
        let sub = self.input.as_str().substring_char(start, self.pos);
        let r = String::from_str(sub);
        if self.pos < n {
            self.pos = self.pos + 1;
        }
        r
    }

    /// Classifies the token at the cursor and moves past it. After the
    /// end-of-input token has been produced, every further call produces
    /// end-of-input again.
    pub fn next_token(&mut self) -> (t: Token)
        requires
            old(self).wf(),
        ensures
            final(self).wf(),
            final(self).src() == old(self).src(),
            t@ == lex_token(old(self).src(), old(self).at()).0,
            final(self).at() == lex_token(old(self).src(), old(self).at()).1,
            !(t@ is Eof) ==> final(self).at() > old(self).at(),
            t@ is Eof ==> final(self).at() == old(self).src().len(),
    {
        proof {
            lemma_lex_token_bounds(old(self).src(), old(self).at());
        }
        self.skip_whitespace();
        let n = self.input.as_str().unicode_len();
        if self.pos >= n {
            return Token::new(TokenKind::Eof);
        }
        let c = self.input.as_str().get_char(self.pos);
        let u = c as u32;
        if (u >= 'a' as u32 && u <= 'z' as u32) || (u >= 'A' as u32 && u <= 'Z' as u32) || c
            == '_' {
            let word = self.read_identifier();
            return Token::new(lookup_word(word));
        }
        if u >= '0' as u32 && u <= '9' as u32 {
            let kind = match self.read_number() {
                Some(v) => TokenKind::Int(v),
                None => TokenKind::Illegal,
            };
            return Token::new(kind);
        }
        if c == '"' {
            let contents = self.read_string();
            return Token::new(TokenKind::Str(contents));
        }
        self.pos = self.pos + 1;
        let kind = if c == '=' {
            if self.pos < n && self.input.as_str().get_char(self.pos) == '=' {
                self.pos = self.pos + 1;
                TokenKind::Equal
            } else {
                TokenKind::Assign
            }
        } else if c == '!' {
            if self.pos < n && self.input.as_str().get_char(self.pos) == '=' {
                self.pos = self.pos + 1;
                TokenKind::NotEqual
            } else {
                TokenKind::Bang
            }
        } else if c == '+' {
            TokenKind::Plus
        } else if c == '-' {
            TokenKind::Minus
        } else if c == '*' {
            TokenKind::Asterisk
        } else if c == '/' {
            TokenKind::Slash
        } else if c == '<' {
            TokenKind::LessThan
        } else if c == '>' {
            TokenKind::GreaterThan
        } else if c == ',' {
            TokenKind::Comma
        } else if c == ':' {
            TokenKind::Colon
        } else if c == ';' {
            TokenKind::Semicolon
        } else if c == '(' {
            TokenKind::Lparen
        } else if c == ')' {
            TokenKind::Rparen
        } else if c == '{' {
            TokenKind::Lbrace
        } else if c == '}' {
            TokenKind::Rbrace
        } else if c == '[' {
            TokenKind::Lbracket
        } else if c == ']' {
            TokenKind::Rbracket
        } else {
            TokenKind::Illegal
        };
        Token::new(kind)
    }
}

/// Law: re-rendering a recognized token's lexeme reproduces the original
/// significant characters. A keyword, punctuation or identifier token's
/// literal text is exactly the run of characters consumed for it; an integer
/// literal without a leading zero re-renders as its digit run; a string
/// literal carries exactly the characters between its quotes.
pub proof fn lemma_tokenize_preserves_lexemes(s: Seq<char>, pos: int)
    requires
        0 <= pos <= s.len(),
    ensures
        ({
            let (t, p) = lex_token(s, pos);
            let i = skip_ws_end(s, pos);
            &&& (!(t is Eof) && !(t is Illegal) && !(t is Str) && !(t is Int))
                ==> crate::token::literal_of(t) == s.subrange(i, p)
            &&& (t matches TokenView::Int(v) && (p == i + 1 || s[i] != '0'))
                ==> crate::token::literal_of(t) == s.subrange(i, p)
            &&& (t matches TokenView::Str(w)) ==> crate::token::literal_of(t) == s.subrange(
                i + 1,
                str_end(s, i + 1),
            )
        }),
{
    lemma_scan_bounds(s, pos);
    let i = skip_ws_end(s, pos);
    let (t, p) = lex_token(s, pos);
    if i < s.len() {
        let c = s[i];
        lemma_scan_bounds(s, i);
        lemma_scan_bounds(s, i + 1);
        if is_letter(c) {
            // The literal of a keyword token equals the lexeme it was
            // resolved from; an identifier carries the lexeme itself.
        } else if is_digit(c) {
            let j = digits_end(s, i);
            assert(digits_end(s, i) == digits_end(s, i + 1));
            let w = s.subrange(i, j);
            assert(all_digits(w)) by {
                assert(forall|k: int| 0 <= k < w.len() ==> w[k] == s[i + k]);
            }
            lemma_dec_val_nonneg(w);
            let v = dec_val(w);
            if v <= i64::MAX && (j == i + 1 || s[i] != '0') {
                assert(w.len() >= 1);
                assert(w[0] == s[i]);
                crate::numeral::lemma_repr_of_val(w);
            }
        } else if c == '"' {
            // The contents are the subrange between the quotes by
            // definition.
        } else {
            reveal_strlit("=");
            reveal_strlit("==");
            reveal_strlit("!");
            reveal_strlit("!=");
            reveal_strlit("+");
            reveal_strlit("-");
            reveal_strlit("*");
            reveal_strlit("/");
            reveal_strlit("<");
            reveal_strlit(">");
            reveal_strlit(",");
            reveal_strlit(":");
            reveal_strlit(";");
            reveal_strlit("(");
            reveal_strlit(")");
            reveal_strlit("{");
            reveal_strlit("}");
            reveal_strlit("[");
            reveal_strlit("]");
            if c == '=' && i + 1 < s.len() && s[i + 1] == '=' {
                assert("=="@ =~= s.subrange(i, i + 2));
            } else if c == '!' && i + 1 < s.len() && s[i + 1] == '=' {
                assert("!="@ =~= s.subrange(i, i + 2));
            } else {
                assert(s.subrange(i, i + 1) =~= seq![s[i]]);
                if c == '=' {
                    assert("="@ =~= s.subrange(i, i + 1));
                } else if c == '!' {
                    assert("!"@ =~= s.subrange(i, i + 1));
                } else if c == '+' {
                    assert("+"@ =~= s.subrange(i, i + 1));
                } else if c == '-' {
                    assert("-"@ =~= s.subrange(i, i + 1));
                } else if c == '*' {
                    assert("*"@ =~= s.subrange(i, i + 1));
                } else if c == '/' {
                    assert("/"@ =~= s.subrange(i, i + 1));
                } else if c == '<' {
                    assert("<"@ =~= s.subrange(i, i + 1));
                } else if c == '>' {
                    assert(">"@ =~= s.subrange(i, i + 1));
                } else if c == ',' {
                    assert(","@ =~= s.subrange(i, i + 1));
                } else if c == ':' {
                    assert(":"@ =~= s.subrange(i, i + 1));
                } else if c == ';' {
                    assert(";"@ =~= s.subrange(i, i + 1));
                } else if c == '(' {
                    assert("("@ =~= s.subrange(i, i + 1));
                } else if c == ')' {
                    assert(")"@ =~= s.subrange(i, i + 1));
                } else if c == '{' {
                    assert("{"@ =~= s.subrange(i, i + 1));
                } else if c == '}' {
                    assert("}"@ =~= s.subrange(i, i + 1));
                } else if c == '[' {
                    assert("["@ =~= s.subrange(i, i + 1));
                } else if c == ']' {
                    assert("]"@ =~= s.subrange(i, i + 1));
                }
            }
        }
    }
}

/// Resolves an identifier's text against the keyword table, yielding either
/// the keyword's kind or an identifier token carrying the text.
fn lookup_word(word: String) -> (t: TokenKind)
    ensures
        t@ == word_token(word@),
{
    if word == String::from_str("fn") {
        TokenKind::Function
    } else if word == String::from_str("let") {
        TokenKind::Let
    } else if word == String::from_str("true") {
        TokenKind::True
    } else if word == String::from_str("false") {
        TokenKind::False
    } else if word == String::from_str("if") {
        TokenKind::If
    } else if word == String::from_str("else") {
        TokenKind::Else
    } else if word == String::from_str("return") {
        TokenKind::Return
    } else {
        TokenKind::Ident(word)
    }
}

} // verus!

use vstd::prelude::*;

use crate::render::string_from_chars;
use crate::token::{toks_view, Identifier, TokenType, TokenV};

verus! {

/// Whitespace skipped between tokens: space, newline, tab, carriage
/// return.
pub open spec fn is_ws(c: char) -> bool {
    c == ' ' || c == '\n' || c == '\t' || c == '\r'
}

/// An ASCII decimal digit.
pub open spec fn is_digit(c: char) -> bool {
    48 <= c as u32 <= 57
}

/// An ASCII letter.
pub open spec fn is_letter(c: char) -> bool {
    (65 <= c as u32 <= 90) || (97 <= c as u32 <= 122)
}

/// The numeric value of a digit character.
pub open spec fn digit_val(c: char) -> nat {
    (c as u32 - 48) as nat
}

/// The numeric value of a digit run, most significant digit first.
pub open spec fn dec_value(ds: Seq<char>) -> nat
    decreases ds.len(),
{
    if ds.len() == 0 {
        0
    } else {
        dec_value(ds.drop_last()) * 10 + digit_val(ds.last())
    }
}

/// The first position at or after `pos` holding no whitespace.
pub open spec fn skip_ws(cs: Seq<char>, pos: int) -> int
    decreases cs.len() - pos,
{
    if 0 <= pos < cs.len() && is_ws(cs[pos]) {
        skip_ws(cs, pos + 1)
    } else {
        pos
    }
}

/// The end of the digit run starting at `pos`.
pub open spec fn scan_digits(cs: Seq<char>, pos: int) -> int
    decreases cs.len() - pos,
{
    if 0 <= pos < cs.len() && is_digit(cs[pos]) {
        scan_digits(cs, pos + 1)
    } else {
        pos
    }
}

/// The end of the letter run starting at `pos`.
pub open spec fn scan_letters(cs: Seq<char>, pos: int) -> int
    decreases cs.len() - pos,
{
    if 0 <= pos < cs.len() && is_letter(cs[pos]) {
        scan_letters(cs, pos + 1)
    } else {
        pos
    }
}

/// The token denoted by a letter run: a keyword where the run matches
/// one, otherwise an identifier named by the run.
pub open spec fn keyword_token(w: Seq<char>) -> TokenV {
    if w == "fn"@ {
        TokenV::Function
    } else if w == "let"@ {
        TokenV::Let
    } else if w == "false"@ {
        TokenV::False
    } else if w == "true"@ {
        TokenV::True
    } else if w == "if"@ {
        TokenV::If
    } else if w == "else"@ {
        TokenV::Else
    } else if w == "return"@ {
        TokenV::Return
    } else if w == "nil"@ {
        TokenV::Nil
    } else {
        TokenV::Ident(w)
    }
}

/// The next token at or after `pos`, with the position just past it;
/// `None` when only whitespace remains. Two-character operators take
/// one character of lookahead; a digit run too long for a signed
/// 64-bit value is an `Illegal` token; an unknown character is one
/// `Illegal` token.
pub open spec fn next_token_s(cs: Seq<char>, pos: int) -> Option<(TokenV, int)> {
    let p = skip_ws(cs, pos);
    if !(0 <= p < cs.len()) {
        None
    } else {
        let c = cs[p];
        if c == ',' {
            Some((TokenV::Comma, p + 1))
        } else if c == ';' {
            Some((TokenV::Semicolon, p + 1))
        } else if c == '(' {
            Some((TokenV::LParen, p + 1))
        } else if c == ')' {
            Some((TokenV::RParen, p + 1))
        } else if c == '{' {
            Some((TokenV::LBrace, p + 1))
        } else if c == '}' {
            Some((TokenV::RBrace, p + 1))
        } else if c == '-' {
            Some((TokenV::Minus, p + 1))
        } else if c == '+' {
            Some((TokenV::Plus, p + 1))
        } else if c == '*' {
            Some((TokenV::Asterisk, p + 1))
        } else if c == '/' {
            Some((TokenV::Slash, p + 1))
        } else if c == '=' {
            if p + 1 < cs.len() && cs[p + 1] == '=' {
                Some((TokenV::Eq, p + 2))
            } else {
                Some((TokenV::Assign, p + 1))
            }
        } else if c == '!' {
            if p + 1 < cs.len() && cs[p + 1] == '=' {
                Some((TokenV::NotEq, p + 2))
            } else {
                Some((TokenV::Bang, p + 1))
            }
        } else if c == '<' {
            if p + 1 < cs.len() && cs[p + 1] == '=' {
                Some((TokenV::Lte, p + 2))
            } else {
                Some((TokenV::Lt, p + 1))
            }
        } else if c == '>' {
            if p + 1 < cs.len() && cs[p + 1] == '=' {
                Some((TokenV::Gte, p + 2))
            } else {
                Some((TokenV::Gt, p + 1))
            }
        } else if is_digit(c) {
            let end = scan_digits(cs, p);
            let v = dec_value(cs.subrange(p, end));
            if v <= i64::MAX {
                Some((TokenV::Int(v as i64), end))
            } else {
                Some((TokenV::Illegal, end))
            }
        } else if is_letter(c) {
            let end = scan_letters(cs, p);
            Some((keyword_token(cs.subrange(p, end)), end))
        } else {
            Some((TokenV::Illegal, p + 1))
        }
    }
}

/// `skip_ws` stays within the text and never moves backward.
pub proof fn lemma_skip_ws_bounds(cs: Seq<char>, pos: int)
    requires
        0 <= pos <= cs.len(),
    ensures
        pos <= skip_ws(cs, pos) <= cs.len(),
    decreases cs.len() - pos,
{
    if pos < cs.len() && is_ws(cs[pos]) {
        lemma_skip_ws_bounds(cs, pos + 1);
    }
}

/// `scan_digits` stays within the text and never moves backward.
pub proof fn lemma_scan_digits_bounds(cs: Seq<char>, pos: int)
    requires
        0 <= pos <= cs.len(),
    ensures
        pos <= scan_digits(cs, pos) <= cs.len(),
    decreases cs.len() - pos,
{
    if pos < cs.len() && is_digit(cs[pos]) {
        lemma_scan_digits_bounds(cs, pos + 1);
    }
}

/// `scan_letters` stays within the text and never moves backward.
pub proof fn lemma_scan_letters_bounds(cs: Seq<char>, pos: int)
    requires
        0 <= pos <= cs.len(),
    ensures
        pos <= scan_letters(cs, pos) <= cs.len(),
    decreases cs.len() - pos,
{
    if pos < cs.len() && is_letter(cs[pos]) {
        lemma_scan_letters_bounds(cs, pos + 1);
    }
}

/// A produced token always stands strictly after the position asked
/// about, and within the text.
pub proof fn lemma_next_token_advances(cs: Seq<char>, pos: int)
    requires
        0 <= pos <= cs.len(),
    ensures
        match next_token_s(cs, pos) {
            Some((t, p2)) => pos < p2 <= cs.len(),
            None => true,
        },
{
    lemma_skip_ws_bounds(cs, pos);
    let p = skip_ws(cs, pos);
    if 0 <= p < cs.len() {
        lemma_scan_digits_bounds(cs, p + 1);
        lemma_scan_letters_bounds(cs, p + 1);
    }
}

/// The token stream of the text from `pos` on.
pub open spec fn lex_s(cs: Seq<char>, pos: int) -> Seq<TokenV>
    decreases cs.len() - pos,
    when 0 <= pos <= cs.len()
    via lex_s_dec
{
    match next_token_s(cs, pos) {
        None => Seq::empty(),
        Some((t, p2)) => seq![t] + lex_s(cs, p2),
    }
}

#[via_fn]
proof fn lex_s_dec(cs: Seq<char>, pos: int) {
    lemma_next_token_advances(cs, pos);
}

/// A lexer: the characters of the source text and the position of the
/// next unread character.
pub struct Lexer {
    chars: Vec<char>,
    pos: usize,
}

impl Lexer {
    /// The source text being scanned.
    pub closed spec fn src(&self) -> Seq<char> {
        self.chars@
    }

    /// The position of the next unread character.
    pub closed spec fn at(&self) -> int {
        self.pos as int
    }

    /// A lexer over `text`, positioned at its start.
    pub fn new(text: &str) -> (r: Lexer)
        ensures
            r.src() == text@,
            r.at() == 0,
    {
        let mut chars: Vec<char> = Vec::new();
        for c in it: text.chars()
            invariant
                chars@ == it.seq().take(it.index() as int),
                it.seq() == text@,
        {
            chars.push(c);
            proof {
                assert(chars@ =~= it.seq().take(it.index() + 1));
            }
        }
        proof {
            assert(chars@ =~= text@);
        }
        Lexer { chars, pos: 0 }
    }

    /// The next token of the text, or `None` once only whitespace
    /// remains. Scanning never fails: unknown characters and oversized
    /// integer literals come back as `Illegal` tokens.
    pub fn next(&mut self) -> (r: Option<TokenType>)
        requires
            old(self).at() <= old(self).src().len(),
            0 <= old(self).at(),
        ensures
            final(self).src() == old(self).src(),
            0 <= final(self).at() <= final(self).src().len(),
            match next_token_s(old(self).src(), old(self).at()) {
                Some((t, p2)) => r matches Some(tok) && tok@ == t && final(self).at() == p2,
                None => r is None,
            },
    {
        proof {
            lemma_skip_ws_bounds(self.src(), self.at());
        }
        while self.pos < self.chars.len() && is_ws_char(self.chars[self.pos])
            invariant
                0 <= self.pos <= self.chars.len(),
                skip_ws(self.src(), old(self).at()) == skip_ws(self.src(), self.pos as int),
                self.src() == old(self).src(),
            decreases self.chars.len() - self.pos,
        {
            self.pos = self.pos + 1;
        }
        proof {
            assert(skip_ws(self.src(), self.pos as int) == self.pos as int);
        }
        let ghost p = self.pos as int;
        if self.pos >= self.chars.len() {
            return None;
        }
        let c = self.chars[self.pos];
        proof {
            lemma_scan_digits_bounds(self.src(), p);
            lemma_scan_letters_bounds(self.src(), p);
        }
        self.pos = self.pos + 1;
        if c == ',' {
            Some(TokenType::Comma)
        } else if c == ';' {
            Some(TokenType::Semicolon)
        } else if c == '(' {
            Some(TokenType::LParen)
        } else if c == ')' {
            Some(TokenType::RParen)
        } else if c == '{' {
            Some(TokenType::LBrace)
        } else if c == '}' {
            Some(TokenType::RBrace)
        } else if c == '-' {
            Some(TokenType::Minus)
        } else if c == '+' {
            Some(TokenType::Plus)
        } else if c == '*' {
            Some(TokenType::Asterisk)
        } else if c == '/' {
            Some(TokenType::Slash)
        } else if c == '=' {
            if self.pos < self.chars.len() && self.chars[self.pos] == '=' {
                self.pos = self.pos + 1;
                Some(TokenType::Eq)
            } else {
                Some(TokenType::Assign)
            }
        } else if c == '!' {
            if self.pos < self.chars.len() && self.chars[self.pos] == '=' {
                self.pos = self.pos + 1;
                Some(TokenType::NotEq)
            } else {
                Some(TokenType::Bang)
            }
        } else if c == '<' {
            if self.pos < self.chars.len() && self.chars[self.pos] == '=' {
                self.pos = self.pos + 1;
                Some(TokenType::Lte)
            } else {
                Some(TokenType::Lt)
            }
        } else if c == '>' {
            if self.pos < self.chars.len() && self.chars[self.pos] == '=' {
                self.pos = self.pos + 1;
                Some(TokenType::Gte)
            } else {
                Some(TokenType::Gt)
            }
        } else if is_digit_char(c) {
            Some(self.scan_int(Ghost(p)))
        } else if is_letter_char(c) {
            Some(self.scan_word(Ghost(p)))
        } else {
            Some(TokenType::Illegal)
        }
    }

    /// Scans the digit run whose first digit was just consumed and
    /// yields its integer token, or `Illegal` when the run overflows a
    /// signed 64-bit value.
    fn scan_int(&mut self, Ghost(start): Ghost<int>) -> (r: TokenType)
        requires
            0 <= start < old(self).src().len(),
            old(self).at() == start + 1,
            is_digit(old(self).src()[start]),
        ensures
            final(self).src() == old(self).src(),
            final(self).at() == scan_digits(old(self).src(), start),
            ({
                let v = dec_value(old(self).src().subrange(start, final(self).at()));
                if v <= i64::MAX {
                    r@ == TokenV::Int(v as i64)
                } else {
                    r@ == TokenV::Illegal
                }
            }),
    {
        let ghost cs = self.src();
        let mut val: u64 = 0;
        let mut overflowed = false;
        let first = self.chars[self.pos - 1];
        val = (first as u32 - 48) as u64;
        proof {
            assert(cs.subrange(start, start + 1) =~= seq![cs[start]]);
            assert(cs.subrange(start, start + 1).drop_last() =~= Seq::<char>::empty());
            assert(dec_value(Seq::<char>::empty()) == 0);
            assert(dec_value(cs.subrange(start, start + 1)) == digit_val(cs[start]));
        }
        while self.pos < self.chars.len() && is_digit_char(self.chars[self.pos])
            invariant
                0 <= start,
                start + 1 <= self.pos as int <= self.chars.len(),
                self.src() == cs,
                forall|j: int| start <= j < self.pos as int ==> is_digit(cs[j]),
                scan_digits(cs, start) == scan_digits(cs, self.pos as int),
                !overflowed ==> val == dec_value(cs.subrange(start, self.pos as int))
                    && val <= i64::MAX as u64,
                overflowed ==> dec_value(cs.subrange(start, self.pos as int)) > i64::MAX,
            decreases self.chars.len() - self.pos,
        {
            let d = (self.chars[self.pos] as u32 - 48) as u64;
            let ghost pre = cs.subrange(start, self.pos as int);
            proof {
                assert(cs.subrange(start, self.pos + 1).drop_last() =~= pre);
                assert(cs.subrange(start, self.pos + 1).last() == cs[self.pos as int]);
                assert(dec_value(cs.subrange(start, self.pos + 1)) == dec_value(pre) * 10
                    + digit_val(cs[self.pos as int]));
            }
            if !overflowed {
                if val > 922337203685477580u64 || (val == 922337203685477580u64 && d > 7) {
                    overflowed = true;
                } else {
                    val = val * 10 + d;
                }
            }
            self.pos = self.pos + 1;
        }
        proof {
            assert(scan_digits(cs, self.pos as int) == self.pos as int);
        }
        if overflowed {
            TokenType::Illegal
        } else {
            TokenType::Int(val as i64)
        }
    }

    /// Scans the letter run whose first letter was just consumed and
    /// yields its keyword or identifier token.
    fn scan_word(&mut self, Ghost(start): Ghost<int>) -> (r: TokenType)
        requires
            0 <= start < old(self).src().len(),
            old(self).at() == start + 1,
            is_letter(old(self).src()[start]),
        ensures
            final(self).src() == old(self).src(),
            final(self).at() == scan_letters(old(self).src(), start),
            r@ == keyword_token(old(self).src().subrange(start, final(self).at())),
    {
        let ghost cs = self.src();
        let mut word: Vec<char> = Vec::new();
        word.push(self.chars[self.pos - 1]);
        proof {
            assert(word@ =~= cs.subrange(start, start + 1));
        }
        while self.pos < self.chars.len() && is_letter_char(self.chars[self.pos])
            invariant
                0 <= start,
                start + 1 <= self.pos as int <= self.chars.len(),
                self.src() == cs,
                scan_letters(cs, start) == scan_letters(cs, self.pos as int),
                word@ == cs.subrange(start, self.pos as int),
            decreases self.chars.len() - self.pos,
        {
            word.push(self.chars[self.pos]);
            self.pos = self.pos + 1;
            proof {
                assert(word@ =~= cs.subrange(start, self.pos as int));
            }
        }
        proof {
            assert(scan_letters(cs, self.pos as int) == self.pos as int);
        }
        word_token(&word)
    }

    /// All remaining tokens, in order.
    pub fn tokens(&mut self) -> (r: Vec<TokenType>)
        requires
            0 <= old(self).at() <= old(self).src().len(),
        ensures
            toks_view(r@) == lex_s(old(self).src(), old(self).at()),
    {
        let mut out: Vec<TokenType> = Vec::new();
        loop
            invariant
                0 <= self.at() <= self.src().len(),
                self.src() == old(self).src(),
                toks_view(out@) + lex_s(self.src(), self.at()) == lex_s(
                    old(self).src(),
                    old(self).at(),
                ),
            decreases self.src().len() - self.at() + 1,
        {
            let ghost pre_at = self.at();
            proof {
                lemma_next_token_advances(self.src(), self.at());
            }
            match self.next() {
                Some(tok) => {
                    proof {
                        assert(lex_s(self.src(), pre_at) == seq![tok@] + lex_s(
                            self.src(),
                            self.at(),
                        ));
                    }
                    out.push(tok);
                    proof {
                        assert(toks_view(out@) =~= toks_view(out@.drop_last()).push(tok@));
                        assert(toks_view(out@.drop_last()).push(tok@) + lex_s(
                            self.src(),
                            self.at(),
                        ) =~= toks_view(out@.drop_last()) + lex_s(self.src(), pre_at));
                    }
                },
                None => {
                    proof {
                        assert(lex_s(self.src(), pre_at) =~= Seq::<TokenV>::empty());
                        assert(toks_view(out@) + lex_s(self.src(), pre_at) =~= toks_view(out@));
                    }
                    return out;
                },
            }
        }
    }
}

/// Whether `c` is skipped whitespace.
fn is_ws_char(c: char) -> (r: bool)
    ensures
        r == is_ws(c),
{
    c == ' ' || c == '\n' || c == '\t' || c == '\r'
}

/// Whether `c` is an ASCII decimal digit.
fn is_digit_char(c: char) -> (r: bool)
    ensures
        r == is_digit(c),
{
    let u = c as u32;
    48 <= u && u <= 57
}

/// Whether `c` is an ASCII letter.
fn is_letter_char(c: char) -> (r: bool)
    ensures
        r == is_letter(c),
{
    let u = c as u32;
    (65 <= u && u <= 90) || (97 <= u && u <= 122)
}

/// The token for a completed letter run.
fn word_token(word: &Vec<char>) -> (r: TokenType)
    ensures
        r@ == keyword_token(word@),
{
    proof {
        reveal_strlit("fn");
        reveal_strlit("let");
        reveal_strlit("false");
        reveal_strlit("true");
        reveal_strlit("if");
        reveal_strlit("else");
        reveal_strlit("return");
        reveal_strlit("nil");
    }
    let l = word.len();
    if l == 2 && word[0] == 'f' && word[1] == 'n' {
        proof {
            assert(word@ =~= "fn"@);
        }
        TokenType::Function
    } else if l == 3 && word[0] == 'l' && word[1] == 'e' && word[2] == 't' {
        proof {
            assert(word@ =~= "let"@);
        }
        TokenType::Let
    } else if l == 5 && word[0] == 'f' && word[1] == 'a' && word[2] == 'l' && word[3] == 's'
        && word[4] == 'e' {
        proof {
            assert(word@ =~= "false"@);
        }
        TokenType::False
    } else if l == 4 && word[0] == 't' && word[1] == 'r' && word[2] == 'u' && word[3] == 'e' {
        proof {
            assert(word@ =~= "true"@);
        }
        TokenType::True
    } else if l == 2 && word[0] == 'i' && word[1] == 'f' {
        proof {
            assert(word@ =~= "if"@);
        }
        TokenType::If
    } else if l == 4 && word[0] == 'e' && word[1] == 'l' && word[2] == 's' && word[3] == 'e' {
        proof {
            assert(word@ =~= "else"@);
        }
        TokenType::Else
    } else if l == 6 && word[0] == 'r' && word[1] == 'e' && word[2] == 't' && word[3] == 'u'
        && word[4] == 'r' && word[5] == 'n' {
        proof {
            assert(word@ =~= "return"@);
        }
        TokenType::Return
    } else if l == 3 && word[0] == 'n' && word[1] == 'i' && word[2] == 'l' {
        proof {
            assert(word@ =~= "nil"@);
        }
        TokenType::Nil
    } else {
        let name = string_from_chars(word);
        TokenType::Identifier(Identifier::new(name))
    }
}

} // verus!

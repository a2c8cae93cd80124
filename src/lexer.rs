use vstd::prelude::*;
use vstd::string::StrSliceExecFns;
use vstd::string::StringExecFns;
use crate::token::{LexError, Token};

verus! {

/// Whitespace: the characters with the Unicode White_Space property.
pub open spec fn is_space(c: char) -> bool {
    ('\t' <= c && c <= '\r') || c == ' ' || c == '\u{85}' || c == '\u{a0}' || c == '\u{1680}'
        || ('\u{2000}' <= c && c <= '\u{200a}') || c == '\u{2028}' || c == '\u{2029}'
        || c == '\u{202f}' || c == '\u{205f}' || c == '\u{3000}'
}

pub open spec fn is_digit(c: char) -> bool {
    '0' <= c && c <= '9'
}

pub open spec fn is_lower(c: char) -> bool {
    'a' <= c && c <= 'z'
}

/// The first index at or after `p` that is not whitespace.
pub open spec fn skip_ws(s: Seq<char>, p: int) -> int
    decreases s.len() - p,
{
    if 0 <= p < s.len() && is_space(s[p]) {
        skip_ws(s, p + 1)
    } else {
        p
    }
}

/// The end of the maximal run of decimal digits that starts at `p`.
pub open spec fn digits_end(s: Seq<char>, p: int) -> int
    decreases s.len() - p,
{
    if 0 <= p < s.len() && is_digit(s[p]) {
        digits_end(s, p + 1)
    } else {
        p
    }
}

/// The end of the maximal run of lowercase letters that starts at `p`.
pub open spec fn word_end(s: Seq<char>, p: int) -> int
    decreases s.len() - p,
{
    if 0 <= p < s.len() && is_lower(s[p]) {
        word_end(s, p + 1)
    } else {
        p
    }
}

/// The value of a sequence of decimal digits.
pub open spec fn digits_value(d: Seq<char>) -> int
    decreases d.len(),
{
    if d.len() == 0 {
        0
    } else {
        digits_value(d.drop_last()) * 10 + (d.last() as int - '0' as int)
    }
}

/// The keyword spelled by `w`, if any.
pub open spec fn keyword(w: Seq<char>) -> Option<Token> {
    if w == seq!['r', 'e', 't', 'u', 'r', 'n'] {
        Some(Token::Return)
    } else if w == seq!['i', 'f'] {
        Some(Token::If)
    } else if w == seq!['e', 'l', 's', 'e'] {
        Some(Token::Else)
    } else if w == seq!['w', 'h', 'i', 'l', 'e'] {
        Some(Token::While)
    } else if w == seq!['f', 'o', 'r'] {
        Some(Token::For)
    } else {
        None
    }
}

/// The token spelled by one character, where one character is the whole token.
pub open spec fn single_char_token(c: char) -> Option<Token> {
    if c == '+' {
        Some(Token::Plus)
    } else if c == '-' {
        Some(Token::Minus)
    } else if c == '*' {
        Some(Token::Asterisk)
    } else if c == '/' {
        Some(Token::Slash)
    } else if c == '(' {
        Some(Token::LParen)
    } else if c == ')' {
        Some(Token::RParen)
    } else if c == ';' {
        Some(Token::SemiColon)
    } else if c == '{' {
        Some(Token::LBrace)
    } else if c == '}' {
        Some(Token::RBrace)
    } else if c == ',' {
        Some(Token::Comma)
    } else if c == '&' {
        Some(Token::Ampersand)
    } else {
        None
    }
}

/// For `!`, `=`, `<` and `>`: the token alone, and the token when `=` follows.
pub open spec fn operator_tokens(c: char) -> Option<(Token, Token)> {
    if c == '!' {
        Some((Token::Not, Token::NotEq))
    } else if c == '=' {
        Some((Token::Assignment, Token::Eq))
    } else if c == '<' {
        Some((Token::Lt, Token::LtEq))
    } else if c == '>' {
        Some((Token::Gt, Token::GtEq))
    } else {
        None
    }
}

/// The error met when a token is read at index `q` (whitespace already skipped).
pub open spec fn lex_error_at(s: Seq<char>, q: int) -> Option<LexError> {
    if q >= s.len() {
        None
    } else if single_char_token(s[q]) is Some || operator_tokens(s[q]) is Some || is_lower(s[q]) {
        None
    } else if is_digit(s[q]) {
        if digits_value(s.subrange(q, digits_end(s, q))) > i32::MAX {
            Some(LexError::IntegerTooLarge { position: q as usize })
        } else {
            None
        }
    } else {
        Some(LexError::InvalidCharacter { position: q as usize, ch: s[q] })
    }
}

/// `t` is the token read at index `q` (whitespace already skipped), and it ends at `e`.
pub open spec fn lexes_to(s: Seq<char>, q: int, t: Token, e: int) -> bool {
    if q >= s.len() {
        t is Eof && e == q
    } else if single_char_token(s[q]) is Some {
        t == single_char_token(s[q])->0 && e == q + 1
    } else if operator_tokens(s[q]) is Some {
        let (alone, with_eq) = operator_tokens(s[q])->0;
        if q + 1 < s.len() && s[q + 1] == '=' {
            t == with_eq && e == q + 2
        } else {
            t == alone && e == q + 1
        }
    } else if is_digit(s[q]) {
        e == digits_end(s, q) && t == Token::Integer(digits_value(s.subrange(q, e)) as i32)
    } else if is_lower(s[q]) {
        e == word_end(s, q) && match keyword(s.subrange(q, e)) {
            Some(k) => t == k,
            None => t matches Token::Identifier(w) && w@ == s.subrange(q, e),
        }
    } else {
        false
    }
}

pub proof fn lemma_skip_ws_bounds(s: Seq<char>, p: int)
    requires
        0 <= p <= s.len(),
    ensures
        p <= skip_ws(s, p) <= s.len(),
        skip_ws(s, p) < s.len() ==> !is_space(s[skip_ws(s, p)]),
    decreases s.len() - p,
{
    if p < s.len() && is_space(s[p]) {
        lemma_skip_ws_bounds(s, p + 1);
    }
}

proof fn lemma_run_bounds(s: Seq<char>, p: int)
    requires
        0 <= p <= s.len(),
    ensures
        p <= digits_end(s, p) <= s.len(),
        p <= word_end(s, p) <= s.len(),
    decreases s.len() - p,
{
    if p < s.len() {
        lemma_run_bounds(s, p + 1);
    }
}

/// A token other than `Eof` takes at least one character.
pub proof fn lemma_token_advances(s: Seq<char>, q: int, t: Token, e: int)
    requires
        0 <= q,
        lexes_to(s, q, t, e),
    ensures
        t is Eof <==> q >= s.len(),
        !(t is Eof) ==> q < e <= s.len(),
{
    if q < s.len() {
        lemma_run_bounds(s, q + 1);
    }
}

proof fn lemma_digits_value_push(d: Seq<char>, c: char)
    ensures
        digits_value(d.push(c)) == digits_value(d) * 10 + (c as int - '0' as int),
{
    assert(d.push(c).drop_last() =~= d);
}

proof fn lemma_digits_value_nonneg(d: Seq<char>)
    requires
        forall|i: int| 0 <= i < d.len() ==> is_digit(#[trigger] d[i]),
    ensures
        digits_value(d) >= 0,
    decreases d.len(),
{
    if d.len() > 0 {
        lemma_digits_value_nonneg(d.drop_last());
    }
}

/// A cursor over source text that hands out one token at a time.
pub struct Lexer {
    input: String,
    chars: Vec<char>,
    position: usize,
}

impl Lexer {
    /// The characters of the source text.
    pub closed spec fn text(&self) -> Seq<char> {
        self.chars@
    }

    /// The index of the next character to read.
    pub closed spec fn cursor(&self) -> int {
        self.position as int
    }

    pub closed spec fn wf(&self) -> bool {
        &&& self.chars@ == self.input@
        &&& self.position <= self.chars.len()
    }

    /// The cursor never passes the end of the text.
    pub proof fn lemma_cursor_in_text(&self)
        requires
            self.wf(),
        ensures
            0 <= self.cursor() <= self.text().len(),
    {
    }

    pub fn new(input: String) -> (r: Self)
        ensures
            r.wf(),
            r.text() == input@,
            r.cursor() == 0,
    {
        let n = input.as_str().unicode_len();
        let mut chars: Vec<char> = Vec::new();
        let mut i: usize = 0;
        while i < n
            invariant
                n == input@.len(),
                i <= n,
                chars@ == input@.subrange(0, i as int),
            decreases n - i,
        {
            let c = input.as_str().get_char(i);
            chars.push(c);
            i = i + 1;
            assert(chars@ =~= input@.subrange(0, i as int));
        }
        assert(chars@ =~= input@);
        Lexer { input, chars, position: 0 }
    }

    /// The index of the next character to read.
    pub fn position(&self) -> (r: usize)
        ensures
            r == self.cursor(),
    {
        self.position
    }

    /// Reads the next token: whitespace is skipped, then the longest token
    /// that starts there is taken. At the end of the text every call yields `Eof`.
    pub fn next(&mut self) -> (r: Result<Token, LexError>)
        requires
            old(self).wf(),
        ensures
            final(self).wf(),
            final(self).text() == old(self).text(),
            ({
                let s = old(self).text();
                let q = skip_ws(s, old(self).cursor());
                match r {
                    Ok(t) => lex_error_at(s, q) is None && lexes_to(s, q, t, final(self).cursor()),
                    Err(e) => lex_error_at(s, q) == Some(e) && final(self).cursor() == q,
                }
            }),
    {
        self.skip_whitespace();
        let ghost s = self.chars@;
        let q = self.position;
        proof {
            lemma_run_bounds(s, q as int);
        }
        let c = match self.peek_char(0) {
            None => return Ok(Token::Eof),
            Some(c) => c,
        };
        let followed_by_eq = match self.peek_char(1) {
            Some(d) => d == '=',
            None => false,
        };
        if c == '+' {
            self.consume_char();
            Ok(Token::Plus)
        } else if c == '-' {
            self.consume_char();
            Ok(Token::Minus)
        } else if c == '*' {
            self.consume_char();
            Ok(Token::Asterisk)
        } else if c == '/' {
            self.consume_char();
            Ok(Token::Slash)
        } else if c == '(' {
            self.consume_char();
            Ok(Token::LParen)
        } else if c == ')' {
            self.consume_char();
            Ok(Token::RParen)
        } else if c == ';' {
            self.consume_char();
            Ok(Token::SemiColon)
        } else if c == '{' {
            self.consume_char();
            Ok(Token::LBrace)
        } else if c == '}' {
            self.consume_char();
            Ok(Token::RBrace)
        } else if c == ',' {
            self.consume_char();
            Ok(Token::Comma)
        } else if c == '&' {
            self.consume_char();
            Ok(Token::Ampersand)
        } else if c == '!' || c == '=' || c == '<' || c == '>' {
            self.consume_char();
            if followed_by_eq {
                self.consume_char();
            }
            Ok(
                if c == '!' {
                    if followed_by_eq { Token::NotEq } else { Token::Not }
                } else if c == '=' {
                    if followed_by_eq { Token::Eq } else { Token::Assignment }
                } else if c == '<' {
                    if followed_by_eq { Token::LtEq } else { Token::Lt }
                } else {
                    if followed_by_eq { Token::GtEq } else { Token::Gt }
                },
            )
        } else if '0' <= c && c <= '9' {
            match self.consume_number() {
                Some(v) => Ok(Token::Integer(v)),
                None => {
                    self.position = q;
                    Err(LexError::IntegerTooLarge { position: q })
                },
            }
        } else if 'a' <= c && c <= 'z' {
            let w = self.consume_word();
            Ok(self.word_into_token(w))
        } else {
            Err(LexError::InvalidCharacter { position: q, ch: c })
        }
    }

    /// The character `k` places after the cursor, if the text has one.
    pub fn peek_char(&self, k: usize) -> (r: Option<char>)
        requires
            self.wf(),
            k <= 1,
        ensures
            self.cursor() + k < self.text().len() ==> r == Some(self.text()[self.cursor() + k]),
            self.cursor() + k >= self.text().len() ==> r is None,
    {
        if self.position < self.chars.len() && k < self.chars.len() - self.position {
            Some(self.chars[self.position + k])
        } else {
            None
        }
    }

    /// Moves the cursor one character on; at the end of the text it stays.
    pub fn consume_char(&mut self)
        requires
            old(self).wf(),
        ensures
            final(self).wf(),
            final(self).text() == old(self).text(),
            old(self).cursor() < old(self).text().len() ==> final(self).cursor() == old(self).cursor() + 1,
            old(self).cursor() >= old(self).text().len() ==> final(self).cursor() == old(self).cursor(),
    {
        if self.position < self.chars.len() {
            self.position = self.position + 1;
        }
    }

    pub fn skip_whitespace(&mut self)
        requires
            old(self).wf(),
        ensures
            final(self).wf(),
            final(self).text() == old(self).text(),
            final(self).cursor() == skip_ws(old(self).text(), old(self).cursor()),
    {
        let ghost s = self.chars@;
        let ghost from = self.position as int;
        while self.position < self.chars.len() && is_space_char(self.chars[self.position])
            invariant
                self.wf(),
                self.chars@ == s,
                from <= self.position,
                skip_ws(s, from) == skip_ws(s, self.position as int),
            decreases self.chars.len() - self.position,
        {
            self.position = self.position + 1;
        }
    }

    /// Reads the run of digits at the cursor; `None` where its value exceeds `i32::MAX`.
    pub fn consume_number(&mut self) -> (r: Option<i32>)
        requires
            old(self).wf(),
        ensures
            final(self).wf(),
            final(self).text() == old(self).text(),
            final(self).cursor() == digits_end(old(self).text(), old(self).cursor()),
            ({
                let s = old(self).text();
                let v = digits_value(s.subrange(old(self).cursor(), final(self).cursor()));
                match r {
                    Some(x) => v <= i32::MAX && x == v,
                    None => v > i32::MAX,
                }
            }),
    {
        let ghost s = self.chars@;
        let start = self.position;
        let mut value: i32 = 0;
        let mut too_large = false;
        proof {
            assert(s.subrange(start as int, start as int) =~= Seq::<char>::empty());
        }
        while self.position < self.chars.len() && is_digit_char(self.chars[self.position])
            invariant
                self.wf(),
                self.chars@ == s,
                start <= self.position,
                digits_end(s, start as int) == digits_end(s, self.position as int),
                forall|i: int| start <= i < self.position ==> is_digit(#[trigger] s[i]),
                value >= 0,
                !too_large ==> value == digits_value(s.subrange(start as int, self.position as int)),
                too_large ==> digits_value(s.subrange(start as int, self.position as int)) > i32::MAX,
            decreases self.chars.len() - self.position,
        {
            let c = self.chars[self.position];
            let d = (c as u32 - '0' as u32) as i32;
            let ghost prefix = s.subrange(start as int, self.position as int);
            proof {
                assert(s.subrange(start as int, self.position + 1) =~= prefix.push(c));
                lemma_digits_value_push(prefix, c);
            }
            if !too_large {
                if value > (i32::MAX - d) / 10 {
                    assert(value * 10 + d > i32::MAX) by (nonlinear_arith)
                        requires
                            value > (i32::MAX - d) / 10,
                            0 <= d <= 9,
                    ;
                    too_large = true;
                } else {
                    assert(0 <= value * 10 + d <= i32::MAX) by (nonlinear_arith)
                        requires
                            0 <= value <= (i32::MAX - d) / 10,
                            0 <= d <= 9,
                    ;
                    value = value * 10 + d;
                }
            } else {
                proof {
                    lemma_digits_value_nonneg(prefix);
                }
            }
            self.position = self.position + 1;
        }
        if too_large {
            None
        } else {
            Some(value)
        }
    }

    /// Reads the run of lowercase letters at the cursor.
    pub fn consume_word(&mut self) -> (r: String)
        requires
            old(self).wf(),
        ensures
            final(self).wf(),
            final(self).text() == old(self).text(),
            final(self).cursor() == word_end(old(self).text(), old(self).cursor()),
            r@ == old(self).text().subrange(old(self).cursor(), final(self).cursor()),
    {
        let ghost s = self.chars@;
        let start = self.position;
        while self.position < self.chars.len() && is_lower_char(self.chars[self.position])
            invariant
                self.wf(),
                self.chars@ == s,
                start <= self.position,
                word_end(s, start as int) == word_end(s, self.position as int),
            decreases self.chars.len() - self.position,
        {
            self.position = self.position + 1;
        }
        String::from_str(self.input.as_str().substring_char(start, self.position))
    }

    /// The keyword token that `word` spells, or an identifier.
    pub fn word_into_token(&self, word: String) -> (r: Token)
        ensures
            match keyword(word@) {
                Some(k) => r == k,
                None => r matches Token::Identifier(w) && w@ == word@,
            },
    {
        proof {
            reveal_strlit("return");
            reveal_strlit("if");
            reveal_strlit("else");
            reveal_strlit("while");
            reveal_strlit("for");
            assert("return"@ =~= seq!['r', 'e', 't', 'u', 'r', 'n']);
            assert("if"@ =~= seq!['i', 'f']);
            assert("else"@ =~= seq!['e', 'l', 's', 'e']);
            assert("while"@ =~= seq!['w', 'h', 'i', 'l', 'e']);
            assert("for"@ =~= seq!['f', 'o', 'r']);
        }
        if spells(&word, "return") {
            Token::Return
        } else if spells(&word, "if") {
            Token::If
        } else if spells(&word, "else") {
            Token::Else
        } else if spells(&word, "while") {
            Token::While
        } else if spells(&word, "for") {
            Token::For
        } else {
            Token::Identifier(word)
        }
    }

    /// A message that names the error in red and points, with a yellow caret,
    /// at the cursor's column under the text.
    pub fn report_error(&self, message: &str) -> (r: String)
        requires
            self.wf(),
        ensures
            r@ == "\x1b[31merror\x1b[0m: "@ + message@ + "\n"@ + self.text() + "\n"@ + Seq::new(
                self.cursor() as nat,
                |i: int| ' ',
            ) + "\x1b[33m^\x1b[0m\n"@,
    {
        let mut r = String::from_str("\x1b[31merror\x1b[0m: ");
        r.append(message);
        r.append("\n");
        r.append(self.input.as_str());
        r.append("\n");
        let mut i: usize = 0;
        let ghost head = r@;
        while i < self.position
            invariant
                i <= self.position,
                r@ == head + Seq::new(i as nat, |j: int| ' '),
            decreases self.position - i,
        {
            proof {
                reveal_strlit(" ");
            }
            r.append(" ");
            i = i + 1;
            assert(r@ =~= head + Seq::new(i as nat, |j: int| ' '));
        }
        r.append("\x1b[33m^\x1b[0m\n");
        r
    }
}

fn is_space_char(c: char) -> (r: bool)
    ensures
        r == is_space(c),
{
    ('\t' <= c && c <= '\r') || c == ' ' || c == '\u{85}' || c == '\u{a0}' || c == '\u{1680}'
        || ('\u{2000}' <= c && c <= '\u{200a}') || c == '\u{2028}' || c == '\u{2029}'
        || c == '\u{202f}' || c == '\u{205f}' || c == '\u{3000}'
}

fn is_digit_char(c: char) -> (r: bool)
    ensures
        r == is_digit(c),
{
    '0' <= c && c <= '9'
}

fn is_lower_char(c: char) -> (r: bool)
    ensures
        r == is_lower(c),
{
    'a' <= c && c <= 'z'
}

/// Whether `word` holds exactly the characters of `lit`.
pub(crate) fn spells(word: &String, lit: &str) -> (r: bool)
    ensures
        r == (word@ == lit@),
{
    let a = word.as_str();
    let n = a.unicode_len();
    let m = lit.unicode_len();
    if n != m {
        return false;
    }
    let mut i: usize = 0;
    while i < n
        invariant
            a@ == word@,
            n == word@.len(),
            n == lit@.len(),
            i <= n,
            forall|j: int| 0 <= j < i ==> word@[j] == lit@[j],
        decreases n - i,
    {
        if a.get_char(i) != lit.get_char(i) {
            assert(word@[i as int] != lit@[i as int]);
            return false;
        }
        i = i + 1;
    }
    assert(word@ =~= lit@);
    true
}

} // verus!

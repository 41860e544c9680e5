use vstd::prelude::*;

use crate::token::{char_to_string, keyword_of, owned, Lexeme, Token, TokenType};

verus! {

/// Whether `c`, a character beyond ASCII, has the Unicode `Alphabetic`
/// property, as `char::is_alphabetic` reports it.
pub uninterp spec fn alphabetic(c: char) -> bool;

/// Within ASCII exactly the letters `a`-`z` and `A`-`Z` are alphabetic.
pub open spec fn letter(c: char) -> bool {
    if c <= '\x7f' {
        ('a' <= c && c <= 'z') || ('A' <= c && c <= 'Z')
    } else {
        alphabetic(c)
    }
}

/// Relies on `char::is_alphabetic`: the Unicode `Alphabetic` property of
/// `c`, which within ASCII holds of the letters alone.
#[verifier::external_body]
fn is_alphabetic(c: char) -> (r: bool)
    ensures
        c > '\x7f' ==> r == alphabetic(c),
        c <= '\x7f' ==> r == (('a' <= c && c <= 'z') || ('A' <= c && c <= 'Z')),
{
    c.is_alphabetic()
}

/// The character at `i`, or the NUL sentinel past either end of the input.
pub open spec fn char_at(s: Seq<char>, i: int) -> char {
    if 0 <= i < s.len() {
        s[i]
    } else {
        '\0'
    }
}

pub open spec fn is_blank(c: char) -> bool {
    c == ' ' || c == '\t' || c == '\n' || c == '\r'
}

pub open spec fn is_digit(c: char) -> bool {
    '0' <= c && c <= '9'
}

pub open spec fn is_ident_char(c: char) -> bool {
    letter(c) || c == '_'
}

/// The first position at or after `i` that does not hold a blank.
pub open spec fn skip_blanks(s: Seq<char>, i: int) -> int
    decreases s.len() - i,
{
    if 0 <= i < s.len() && is_blank(s[i]) {
        skip_blanks(s, i + 1)
    } else {
        i
    }
}

/// The end of the run of identifier characters that starts at `i`.
pub open spec fn ident_end(s: Seq<char>, i: int) -> int
    decreases s.len() - i,
{
    if 0 <= i < s.len() && is_ident_char(s[i]) {
        ident_end(s, i + 1)
    } else {
        i
    }
}

/// The end of the run of decimal digits that starts at `i`.
pub open spec fn digits_end(s: Seq<char>, i: int) -> int
    decreases s.len() - i,
{
    if 0 <= i < s.len() && is_digit(s[i]) {
        digits_end(s, i + 1)
    } else {
        i
    }
}

/// The kind of a character that always forms a token on its own.
pub open spec fn single_kind(c: char) -> Option<TokenType> {
    if c == ';' {
        Some(TokenType::SEMICOLON)
    } else if c == '(' {
        Some(TokenType::LPAREN)
    } else if c == ')' {
        Some(TokenType::RPAREN)
    } else if c == ',' {
        Some(TokenType::COMMA)
    } else if c == '+' {
        Some(TokenType::PLUS)
    } else if c == '{' {
        Some(TokenType::LBRACE)
    } else if c == '}' {
        Some(TokenType::RBRACE)
    } else if c == '<' {
        Some(TokenType::LT)
    } else if c == '>' {
        Some(TokenType::GT)
    } else if c == '*' {
        Some(TokenType::ASTERISK)
    } else if c == '/' {
        Some(TokenType::SLASH)
    } else if c == '-' {
        Some(TokenType::MINUS)
    } else {
        None
    }
}

pub open spec fn illegal_text() -> Seq<char> {
    seq!['i', 'l', 'l', 'e', 'g', 'a', 'l']
}

/// The token that starts exactly at `i`, and the position just after it.
pub open spec fn scan(s: Seq<char>, i: int) -> (Lexeme, int) {
    let c = char_at(s, i);
    if i >= s.len() {
        (Lexeme { kind: TokenType::EOF, text: seq!['\0'] }, i)
    } else if c == '=' {
        if char_at(s, i + 1) == '=' {
            (Lexeme { kind: TokenType::EQ, text: seq!['=', '='] }, i + 2)
        } else {
            (Lexeme { kind: TokenType::ASSIGN, text: seq!['='] }, i + 1)
        }
    } else if c == '!' {
        if char_at(s, i + 1) == '=' {
            (Lexeme { kind: TokenType::NOTEQ, text: seq!['!', '='] }, i + 2)
        } else {
            (Lexeme { kind: TokenType::BANG, text: seq!['!'] }, i + 1)
        }
    } else if single_kind(c) is Some {
        (Lexeme { kind: single_kind(c)->0, text: seq![c] }, i + 1)
    } else if is_ident_char(c) {
        let j = ident_end(s, i);
        let t = s.subrange(i, j);
        let k = match keyword_of(t) {
            Some(k) => k,
            None => TokenType::IDENT,
        };
        (Lexeme { kind: k, text: t }, j)
    } else if is_digit(c) {
        let j = digits_end(s, i);
        if char_at(s, j) == '.' {
            if is_digit(char_at(s, j + 1)) {
                let k = digits_end(s, j + 1);
                (Lexeme { kind: TokenType::FLOAT, text: s.subrange(i, k) }, k)
            } else {
                (Lexeme { kind: TokenType::ILLEGAL, text: illegal_text() }, j + 1)
            }
        } else {
            (Lexeme { kind: TokenType::INT, text: s.subrange(i, j) }, j)
        }
    } else {
        (Lexeme { kind: TokenType::ILLEGAL, text: seq![c] }, i + 1)
    }
}

/// The next token read from position `i`, blanks skipped, and the position after it.
pub open spec fn next_lexeme(s: Seq<char>, i: int) -> (Lexeme, int) {
    scan(s, skip_blanks(s, i))
}

/// Every token read from position `i` up to and including the end marker.
pub open spec fn lexemes_from(s: Seq<char>, i: int) -> Seq<Lexeme>
    decreases s.len() - i,
    via lexemes_from_decreases
{
    let (t, j) = next_lexeme(s, i);
    if t.kind == TokenType::EOF || i < 0 {
        seq![t]
    } else {
        seq![t] + lexemes_from(s, j)
    }
}

#[via_fn]
proof fn lexemes_from_decreases(s: Seq<char>, i: int) {
    if i >= 0 {
        lemma_next_lexeme_advances(s, i);
    }
}

/// The token stream of a whole input.
pub open spec fn lexemes(s: Seq<char>) -> Seq<Lexeme> {
    lexemes_from(s, 0)
}

proof fn lemma_skip_blanks(s: Seq<char>, i: int)
    requires
        0 <= i,
    ensures
        i <= skip_blanks(s, i),
        i <= s.len() ==> skip_blanks(s, i) <= s.len(),
        skip_blanks(s, i) < s.len() ==> !is_blank(s[skip_blanks(s, i)]),
    decreases s.len() - i,
{
    if 0 <= i < s.len() && is_blank(s[i]) {
        lemma_skip_blanks(s, i + 1);
    }
}

proof fn lemma_ident_end(s: Seq<char>, i: int)
    requires
        0 <= i,
    ensures
        i <= ident_end(s, i),
        i <= s.len() ==> ident_end(s, i) <= s.len(),
        forall|k: int| i <= k < ident_end(s, i) ==> is_ident_char(#[trigger] s[k]),
        ident_end(s, i) < s.len() ==> !is_ident_char(s[ident_end(s, i)]),
    decreases s.len() - i,
{
    if 0 <= i < s.len() && is_ident_char(s[i]) {
        lemma_ident_end(s, i + 1);
    }
}

proof fn lemma_digits_end(s: Seq<char>, i: int)
    requires
        0 <= i,
    ensures
        i <= digits_end(s, i),
        i <= s.len() ==> digits_end(s, i) <= s.len(),
        forall|k: int| i <= k < digits_end(s, i) ==> is_digit(#[trigger] s[k]),
        digits_end(s, i) < s.len() ==> !is_digit(s[digits_end(s, i)]),
    decreases s.len() - i,
{
    if 0 <= i < s.len() && is_digit(s[i]) {
        lemma_digits_end(s, i + 1);
    }
}

/// A token other than the end marker lies wholly inside the input, after `i`.
pub proof fn lemma_next_lexeme_advances(s: Seq<char>, i: int)
    requires
        0 <= i,
    ensures
        next_lexeme(s, i).0.kind != TokenType::EOF ==> i < next_lexeme(s, i).1,
        i <= s.len() ==> next_lexeme(s, i).1 <= s.len(),
        i <= next_lexeme(s, i).1,
        next_lexeme(s, i).0.kind == TokenType::EOF <==> skip_blanks(s, i) >= s.len(),
        next_lexeme(s, i).0.kind == TokenType::EOF && i <= s.len() ==> next_lexeme(s, i).1
            == s.len(),
{
    lemma_skip_blanks(s, i);
    let p = skip_blanks(s, i);
    if p < s.len() {
        lemma_ident_end(s, p);
        lemma_digits_end(s, p);
        let j = digits_end(s, p);
        if j + 1 >= 0 {
            lemma_digits_end(s, j + 1);
        }
        let c = s[p];
        if is_ident_char(c) && !(c == '=' || c == '!' || single_kind(c) is Some) {
            let t = s.subrange(p, ident_end(s, p));
            assert(keyword_of(t) != Some(TokenType::EOF));
        }
    }
}

/// The token stream from `p` starts with the next token; after a token
/// other than the end marker it goes on from where that token ends.
pub proof fn lemma_lexemes_from_unfold(s: Seq<char>, p: int)
    requires
        0 <= p <= s.len(),
    ensures
        lexemes_from(s, p).len() >= 1,
        lexemes_from(s, p)[0] == next_lexeme(s, p).0,
        next_lexeme(s, p).0.kind != TokenType::EOF ==> lexemes_from(s, p) == seq![
            next_lexeme(s, p).0,
        ] + lexemes_from(s, next_lexeme(s, p).1) && lexemes_from(s, next_lexeme(s, p).1).len()
            >= 1,
        next_lexeme(s, p).0.kind == TokenType::EOF ==> lexemes_from(s, p) == seq![
            next_lexeme(s, p).0,
        ] && next_lexeme(s, p).1 == s.len() && next_lexeme(s, p).0 == (Lexeme {
            kind: TokenType::EOF,
            text: seq!['\0'],
        }),
        p <= next_lexeme(s, p).1 <= s.len(),
{
    lemma_next_lexeme_advances(s, p);
    let q = next_lexeme(s, p).1;
    if next_lexeme(s, p).0.kind != TokenType::EOF {
        lemma_next_lexeme_advances(s, q);
        assert(lexemes_from(s, q).len() >= 1);
    }
}

/// A run of identifier characters from `i` to `j`, followed by a character
/// that is none (or by the end), is read as one whole name.
pub proof fn lemma_ident_run(s: Seq<char>, i: int, j: int)
    requires
        0 <= i <= j <= s.len(),
        forall|k: int| i <= k < j ==> is_ident_char(#[trigger] s[k]),
        j < s.len() ==> !is_ident_char(s[j]),
    ensures
        ident_end(s, i) == j,
    decreases j - i,
{
    if i < j {
        lemma_ident_run(s, i + 1, j);
    }
}

/// A blank before the next token changes nothing that follows.
pub proof fn lemma_blank_skipped(s: Seq<char>, i: int)
    requires
        0 <= i < s.len(),
        is_blank(s[i]),
    ensures
        lexemes_from(s, i) == lexemes_from(s, i + 1),
{
    assert(skip_blanks(s, i) == skip_blanks(s, i + 1));
    assert(next_lexeme(s, i) == next_lexeme(s, i + 1));
    lemma_lexemes_from_unfold(s, i);
    lemma_lexemes_from_unfold(s, i + 1);
}

/// At the end of the input the lexer yields the end marker and stays put.
pub proof fn lemma_eof_stays(s: Seq<char>, p: int)
    requires
        p == s.len(),
    ensures
        next_lexeme(s, p).0.kind == TokenType::EOF,
        next_lexeme(s, p).1 == p,
{
}

/// The kind of a character that forms a token by itself when no `=` follows.
pub open spec fn lone_kind(c: char) -> Option<TokenType> {
    if c == '=' {
        Some(TokenType::ASSIGN)
    } else if c == '!' {
        Some(TokenType::BANG)
    } else {
        single_kind(c)
    }
}

/// `s` holds only operator and punctuation characters, and never `==` or `!=`.
pub open spec fn only_lone_chars(s: Seq<char>) -> bool {
    &&& forall|i: int| 0 <= i < s.len() ==> (#[trigger] lone_kind(s[i])) is Some
    &&& forall|i: int|
        0 <= i < s.len() - 1 && (#[trigger] s[i] == '=' || s[i] == '!') ==> s[i + 1] != '='
}

proof fn lemma_lone_chars_from(s: Seq<char>, i: int)
    requires
        only_lone_chars(s),
        0 <= i <= s.len(),
    ensures
        lexemes_from(s, i).map_values(|t: Lexeme| t.kind) == s.subrange(i, s.len() as int).map_values(
            |c: char| lone_kind(c)->0,
        ).push(TokenType::EOF),
    decreases s.len() - i,
{
    if i == s.len() {
        assert(s.subrange(i, s.len() as int).map_values(|c: char| lone_kind(c)->0) =~= Seq::<
            TokenType,
        >::empty());
        assert(lexemes_from(s, i) == seq![next_lexeme(s, i).0]);
        assert(lexemes_from(s, i).map_values(|t: Lexeme| t.kind) =~= seq![TokenType::EOF]);
    } else {
        assert(lone_kind(s[i]) is Some);
        assert(skip_blanks(s, i) == i);
        if s[i] == '=' || s[i] == '!' {
            if i + 1 < s.len() {
                assert(s[i + 1] != '=');
            }
        }
        assert(next_lexeme(s, i) == (Lexeme { kind: lone_kind(s[i])->0, text: next_lexeme(s, i).0.text }, i + 1));
        lemma_lone_chars_from(s, i + 1);
        assert(lexemes_from(s, i) == seq![next_lexeme(s, i).0] + lexemes_from(s, i + 1));
        let k = lone_kind(s[i])->0;
        let tail = s.subrange(i + 1, s.len() as int).map_values(|c: char| lone_kind(c)->0);
        assert(s.subrange(i, s.len() as int).map_values(|c: char| lone_kind(c)->0) =~= seq![k]
            + tail);
        assert((seq![next_lexeme(s, i).0] + lexemes_from(s, i + 1)).map_values(|t: Lexeme| t.kind)
            =~= seq![k] + lexemes_from(s, i + 1).map_values(|t: Lexeme| t.kind));
        assert(lexemes_from(s, i).map_values(|t: Lexeme| t.kind) =~= s.subrange(i, s.len() as int).map_values(
            |c: char| lone_kind(c)->0,
        ).push(TokenType::EOF));
    }
}

/// Input made only of characters that form tokens by themselves lexes to
/// one token per character, in order, then the end marker; and once at the
/// end the lexer keeps yielding the end marker without moving.
pub proof fn lemma_lone_chars_tokens(s: Seq<char>)
    requires
        only_lone_chars(s),
    ensures
        lexemes(s).map_values(|t: Lexeme| t.kind) == s.map_values(|c: char| lone_kind(c)->0).push(
            TokenType::EOF,
        ),
        next_lexeme(s, s.len() as int).0.kind == TokenType::EOF,
        next_lexeme(s, s.len() as int).1 == s.len(),
{
    lemma_lone_chars_from(s, 0);
    assert(s.subrange(0, s.len() as int) =~= s);
}

/// `s` holds only blanks and characters that form tokens by themselves, and
/// never `==` or `!=`.
pub open spec fn spaced_lone_chars(s: Seq<char>) -> bool {
    &&& forall|i: int| 0 <= i < s.len() ==> is_blank(#[trigger] s[i]) || lone_kind(s[i]) is Some
    &&& forall|i: int|
        0 <= i < s.len() - 1 && (#[trigger] s[i] == '=' || s[i] == '!') ==> s[i + 1] != '='
}

/// The kinds of the characters from `i` on, blanks left out.
pub open spec fn lone_kinds_from(s: Seq<char>, i: int) -> Seq<TokenType>
    decreases s.len() - i,
{
    if i < 0 || i >= s.len() {
        Seq::empty()
    } else if is_blank(s[i]) {
        lone_kinds_from(s, i + 1)
    } else {
        seq![lone_kind(s[i])->0] + lone_kinds_from(s, i + 1)
    }
}

proof fn lemma_spaced_lone_chars_from(s: Seq<char>, i: int)
    requires
        spaced_lone_chars(s),
        0 <= i <= s.len(),
    ensures
        lexemes_from(s, i).map_values(|t: Lexeme| t.kind) == lone_kinds_from(s, i).push(
            TokenType::EOF,
        ),
    decreases s.len() - i,
{
    if i == s.len() {
        lemma_eof_stays(s, i);
        assert(lexemes_from(s, i) == seq![next_lexeme(s, i).0]);
        assert(lexemes_from(s, i).map_values(|t: Lexeme| t.kind) =~= seq![TokenType::EOF]);
    } else if is_blank(s[i]) {
        lemma_blank_skipped(s, i);
        lemma_spaced_lone_chars_from(s, i + 1);
    } else {
        assert(lone_kind(s[i]) is Some);
        assert(skip_blanks(s, i) == i);
        if s[i] == '=' || s[i] == '!' {
            if i + 1 < s.len() {
                assert(s[i + 1] != '=');
            }
        }
        assert(next_lexeme(s, i) == (Lexeme { kind: lone_kind(s[i])->0, text: next_lexeme(s, i).0.text }, i + 1));
        lemma_spaced_lone_chars_from(s, i + 1);
        assert(lexemes_from(s, i) == seq![next_lexeme(s, i).0] + lexemes_from(s, i + 1));
        let k = lone_kind(s[i])->0;
        assert((seq![next_lexeme(s, i).0] + lexemes_from(s, i + 1)).map_values(|t: Lexeme| t.kind)
            =~= seq![k] + lexemes_from(s, i + 1).map_values(|t: Lexeme| t.kind));
        assert(lexemes_from(s, i).map_values(|t: Lexeme| t.kind) =~= lone_kinds_from(s, i).push(
            TokenType::EOF,
        ));
    }
}

/// The same with blanks allowed between the characters: the blanks are
/// skipped, every other character becomes one token, then the end marker.
pub proof fn lemma_spaced_lone_chars_tokens(s: Seq<char>)
    requires
        spaced_lone_chars(s),
    ensures
        lexemes(s).map_values(|t: Lexeme| t.kind) == lone_kinds_from(s, 0).push(TokenType::EOF),
{
    lemma_spaced_lone_chars_from(s, 0);
}

/// Turns source text into tokens, one token per call.
#[derive(Debug)]
pub struct Lexer {
    input: String,
    len: usize,
    position: usize,
    ch: char,
}

impl Lexer {
    /// The characters of the input.
    pub closed spec fn text(&self) -> Seq<char> {
        self.input@
    }

    /// The index of the current character.
    pub closed spec fn pos(&self) -> int {
        self.position as int
    }

    pub closed spec fn wf(&self) -> bool {
        &&& self.len as int == self.input@.len()
        &&& self.position <= self.len
        &&& self.ch == char_at(self.input@, self.position as int)
    }

    /// The position never passes the end of the input.
    pub proof fn lemma_position_in_input(&self)
        requires
            self.wf(),
        ensures
            0 <= self.pos() <= self.text().len(),
    {
    }

    /// A lexer positioned at the start of `input`.
    pub fn new(input: &String) -> (r: Lexer)
        ensures
            r.wf(),
            r.text() == input@,
            r.pos() == 0,
    {
        let s = input.clone();
        let len = s.as_str().unicode_len();
        let ch = if len > 0 {
            s.as_str().get_char(0)
        } else {
            '\0'
        };
        Lexer { input: s, len, position: 0, ch }
    }

    fn char_at_index(&self, i: usize) -> (c: char)
        requires
            self.wf(),
        ensures
            c == char_at(self.text(), i as int),
    {
        if i < self.len {
            self.input.as_str().get_char(i)
        } else {
            '\0'
        }
    }

    fn seek(&mut self, i: usize)
        requires
            old(self).wf(),
            i <= old(self).len,
        ensures
            final(self).wf(),
            final(self).text() == old(self).text(),
            final(self).pos() == i,
    {
        let c = self.char_at_index(i);
        self.position = i;
        self.ch = c;
    }

    /// Restarts from the beginning of the input and reads every token, the
    /// end marker included.
    pub fn get_all_tokens(&mut self) -> (r: Vec<Token>)
        requires
            old(self).wf(),
        ensures
            final(self).wf(),
            final(self).text() == old(self).text(),
            r@.map_values(|t: Token| t@) == lexemes(old(self).text()),
    {
        self.seek(0);
        let ghost s = self.text();
        let mut tokens: Vec<Token> = Vec::new();
        loop
            invariant
                self.wf(),
                self.text() == s,
                s == old(self).text(),
                tokens@.map_values(|t: Token| t@) + lexemes_from(s, self.pos()) == lexemes(s),
            decreases s.len() - self.pos(),
        {
            let ghost p = self.pos();
            let token = self.next_token();
            proof {
                lemma_next_lexeme_advances(s, p);
            }
            let is_end = token.kind == TokenType::EOF;
            let ghost before = tokens@;
            let ghost tv = token@;
            tokens.push(token);
            proof {
                assert(tokens@.map_values(|t: Token| t@) =~= before.map_values(|t: Token| t@).push(
                    tv,
                ));
            }
            if is_end {
                assert(lexemes_from(s, p) == seq![tv]);
                assert(tokens@.map_values(|t: Token| t@) =~= lexemes(s));
                return tokens;
            }
            assert(lexemes_from(s, p) == seq![tv] + lexemes_from(s, self.pos()));
            assert(tokens@.map_values(|t: Token| t@) + lexemes_from(s, self.pos()) =~= lexemes(s));
        }
    }

    /// Moves to the next character; at the end of the input it stays there.
    pub fn read_char(&mut self)
        requires
            old(self).wf(),
        ensures
            final(self).wf(),
            final(self).text() == old(self).text(),
            final(self).pos() == if old(self).pos() < old(self).text().len() {
                old(self).pos() + 1
            } else {
                old(self).pos()
            },
    {
        if self.position < self.len {
            self.seek(self.position + 1);
        }
    }

    /// Moves back to the previous character.
    pub fn move_read_position_one_char_back(&mut self)
        requires
            old(self).wf(),
            old(self).pos() > 0,
        ensures
            final(self).wf(),
            final(self).text() == old(self).text(),
            final(self).pos() == old(self).pos() - 1,
    {
        self.seek(self.position - 1);
    }

    /// Skips spaces, tabs and line breaks.
    pub fn skip_whitespace(&mut self)
        requires
            old(self).wf(),
        ensures
            final(self).wf(),
            final(self).text() == old(self).text(),
            final(self).pos() == skip_blanks(old(self).text(), old(self).pos()),
    {
        while self.ch == ' ' || self.ch == '\t' || self.ch == '\n' || self.ch == '\r'
            invariant
                self.wf(),
                self.text() == old(self).text(),
                skip_blanks(self.text(), self.pos()) == skip_blanks(
                    old(self).text(),
                    old(self).pos(),
                ),
            decreases self.len - self.position,
        {
            self.read_char();
        }
    }

    fn text_between(&self, from: usize, to: usize) -> (r: String)
        requires
            self.wf(),
            from <= to <= self.len,
        ensures
            r@ == self.text().subrange(from as int, to as int),
    {
        owned(self.input.as_str().substring_char(from, to))
    }

    /// Reads the run of decimal digits that starts at the current character
    /// and stops on its last digit.
    pub fn read_integer(&mut self) -> (r: String)
        requires
            old(self).wf(),
            0 <= old(self).pos() < old(self).text().len(),
            is_digit(old(self).text()[old(self).pos()]),
        ensures
            final(self).wf(),
            final(self).text() == old(self).text(),
            final(self).pos() == digits_end(old(self).text(), old(self).pos()) - 1,
            r@ == old(self).text().subrange(
                old(self).pos(),
                digits_end(old(self).text(), old(self).pos()),
            ),
    {
        let start = self.position;
        proof {
            lemma_digits_end(self.text(), self.pos());
            lemma_digits_end(self.text(), self.pos() + 1);
        }
        while '0' <= self.ch && self.ch <= '9'
            invariant
                self.wf(),
                self.text() == old(self).text(),
                start <= self.position,
                digits_end(self.text(), self.pos()) == digits_end(
                    old(self).text(),
                    start as int,
                ),
            decreases self.len - self.position,
        {
            self.read_char();
        }
        let r = self.text_between(start, self.position);
        self.move_read_position_one_char_back();
        r
    }

    /// Reads the run of identifier characters (letters and `_`) that starts
    /// at the current character and stops on its last character.
    pub fn read_identifier(&mut self) -> (r: String)
        requires
            old(self).wf(),
            0 <= old(self).pos() < old(self).text().len(),
            is_ident_char(old(self).text()[old(self).pos()]),
        ensures
            final(self).wf(),
            final(self).text() == old(self).text(),
            final(self).pos() == ident_end(old(self).text(), old(self).pos()) - 1,
            r@ == old(self).text().subrange(
                old(self).pos(),
                ident_end(old(self).text(), old(self).pos()),
            ),
    {
        let start = self.position;
        proof {
            lemma_ident_end(self.text(), self.pos() + 1);
        }
        while self.position < self.len && (is_alphabetic(self.ch) || self.ch == '_')
            invariant
                self.wf(),
                self.text() == old(self).text(),
                start <= self.position,
                ident_end(self.text(), self.pos()) == ident_end(old(self).text(), start as int),
            decreases self.len - self.position,
        {
            self.read_char();
        }
        let r = self.text_between(start, self.position);
        self.move_read_position_one_char_back();
        r
    }

    /// When the character after the current one is `expected_next_ch`, makes
    /// a token of kind `token_type` from both and moves onto the second;
    /// otherwise moves nowhere.
    pub fn make_two_char_token(&mut self, expected_next_ch: char, token_type: TokenType) -> (r:
        Option<Token>)
        requires
            old(self).wf(),
        ensures
            final(self).wf(),
            final(self).text() == old(self).text(),
            char_at(old(self).text(), old(self).pos() + 1) == expected_next_ch ==> {
                &&& r is Some
                &&& r->0.kind == token_type
                &&& r->0.literal@ == seq![char_at(old(self).text(), old(self).pos()), expected_next_ch]
                &&& final(self).pos() == if old(self).pos() < old(self).text().len() {
                    old(self).pos() + 1
                } else {
                    old(self).pos()
                }
            },
            char_at(old(self).text(), old(self).pos() + 1) != expected_next_ch ==> {
                &&& r is None
                &&& final(self).pos() == old(self).pos()
            },
    {
        let next_ch = self.peek_ahead();
        if next_ch == expected_next_ch {
            let mut literal = char_to_string(self.ch);
            let second = char_to_string(next_ch);
            literal.append(second.as_str());
            self.read_char();
            Some(Token { kind: token_type, literal })
        } else {
            None
        }
    }

    /// The character after the current one, or the NUL sentinel at the end.
    pub fn peek_ahead(&self) -> (c: char)
        requires
            self.wf(),
        ensures
            c == char_at(self.text(), self.pos() + 1),
    {
        if self.position < self.len {
            self.char_at_index(self.position + 1)
        } else {
            '\0'
        }
    }

    /// Skips blanks, then reads one token; at the end of the input it returns
    /// the end marker and stays there.
    pub fn next_token(&mut self) -> (tok: Token)
        requires
            old(self).wf(),
        ensures
            final(self).wf(),
            final(self).text() == old(self).text(),
            (tok@, final(self).pos()) == next_lexeme(old(self).text(), old(self).pos()),
    {
        let ghost s = self.text();
        self.skip_whitespace();
        proof {
            lemma_skip_blanks(s, old(self).pos());
        }
        let ghost p = self.pos();
        if self.position >= self.len {
            return Token::from_char(TokenType::EOF, '\0');
        }
        let c = self.ch;
        let single = single_char_kind(c);
        if c == '=' {
            let t = match self.make_two_char_token('=', TokenType::EQ) {
                Some(t) => t,
                None => Token::from_char(TokenType::ASSIGN, c),
            };
            self.read_char();
            t
        } else if c == '!' {
            let t = match self.make_two_char_token('=', TokenType::NOTEQ) {
                Some(t) => t,
                None => Token::from_char(TokenType::BANG, c),
            };
            self.read_char();
            t
        } else if let Some(kind) = single {
            self.read_char();
            Token::from_char(kind, c)
        } else if is_alphabetic(c) || c == '_' {
            proof {
                lemma_ident_end(s, p);
            }
            let literal = self.read_identifier();
            self.read_char();
            match TokenType::get_keyword(&literal) {
                Some(keyword) => Token { kind: keyword, literal },
                None => Token { kind: TokenType::IDENT, literal },
            }
        } else if '0' <= c && c <= '9' {
            let start = self.position;
            proof {
                lemma_digits_end(s, p);
            }
            let _ = self.read_integer();
            if self.peek_ahead() == '.' {
                let after_dot = self.char_at_index(self.position + 2);
                if '0' <= after_dot && after_dot <= '9' {
                    self.read_char();
                    self.read_char();
                    proof {
                        lemma_digits_end(s, self.pos());
                    }
                    let _ = self.read_integer();
                    self.read_char();
                    let literal = self.text_between(start, self.position);
                    Token { kind: TokenType::FLOAT, literal }
                } else {
                    self.read_char();
                    self.read_char();
                    proof {
                        reveal_strlit("illegal");
                        assert("illegal"@ =~= illegal_text());
                    }
                    Token::from_str(TokenType::ILLEGAL, "illegal")
                }
            } else {
                self.read_char();
                let literal = self.text_between(start, self.position);
                Token { kind: TokenType::INT, literal }
            }
        } else {
            self.read_char();
            Token::from_char(TokenType::ILLEGAL, c)
        }
    }
}

fn single_char_kind(c: char) -> (r: Option<TokenType>)
    ensures
        r == single_kind(c),
{
    if c == ';' {
        Some(TokenType::SEMICOLON)
    } else if c == '(' {
        Some(TokenType::LPAREN)
    } else if c == ')' {
        Some(TokenType::RPAREN)
    } else if c == ',' {
        Some(TokenType::COMMA)
    } else if c == '+' {
        Some(TokenType::PLUS)
    } else if c == '{' {
        Some(TokenType::LBRACE)
    } else if c == '}' {
        Some(TokenType::RBRACE)
    } else if c == '<' {
        Some(TokenType::LT)
    } else if c == '>' {
        Some(TokenType::GT)
    } else if c == '*' {
        Some(TokenType::ASTERISK)
    } else if c == '/' {
        Some(TokenType::SLASH)
    } else if c == '-' {
        Some(TokenType::MINUS)
    } else {
        None
    }
}

} // verus!

//! Lines and tokens: how a script is cut into lines, a text into its words
//! and braces, and a line into the parts that it holds.

use crate::text::{
    char_is_whitespace, chars_equal, from_chars, is_whitespace, push_chars, texts, to_chars,
};
use vstd::prelude::*;
use vstd::slice::slice_subrange;

verus! {

/// The position of the first line feed at or after `from`; the length of the
/// text where none is left.
pub open spec fn line_end(text: Seq<char>, from: int) -> int
    decreases text.len() - from,
{
    if 0 <= from < text.len() && text[from] != '\n' {
        line_end(text, from + 1)
    } else {
        from
    }
}

/// The lines of a text from position `from` on. A line ends before a line
/// feed or at the end of the text; the line feed is no part of it, a carriage
/// return before it is. Nothing follows the last line feed of a text.
pub open spec fn lines_from(text: Seq<char>, from: int) -> Seq<Seq<char>>
    decreases text.len() + 1 - from,
    via lines_from_decreases
{
    if 0 <= from < text.len() {
        let end = line_end(text, from);
        seq![text.subrange(from, end)] + lines_from(text, end + 1)
    } else {
        Seq::empty()
    }
}

#[via_fn]
proof fn lines_from_decreases(text: Seq<char>, from: int) {
    if 0 <= from < text.len() {
        lemma_line_end_bounds(text, from);
    }
}

/// The lines of a text.
pub open spec fn lines(text: Seq<char>) -> Seq<Seq<char>> {
    lines_from(text, 0)
}

/// The text that holds the given lines, each followed by a carriage return
/// and a line feed.
pub open spec fn joined(lines: Seq<Seq<char>>) -> Seq<char>
    decreases lines.len(),
{
    if lines.len() == 0 {
        Seq::empty()
    } else {
        lines[0] + seq!['\r', '\n'] + joined(lines.subrange(1, lines.len() as int))
    }
}

/// The lines as they are read back out of a text: each with the carriage
/// return that ends it.
pub open spec fn with_returns(lines: Seq<Seq<char>>) -> Seq<Seq<char>> {
    Seq::new(lines.len(), |i: int| lines[i].push('\r'))
}

/// Finds where the line that begins at `from` ends.
pub fn find_line_end(text: &[char], from: usize) -> (r: usize)
    requires
        from <= text.len(),
    ensures
        r == line_end(text@, from as int),
        from <= r <= text.len(),
{
    let mut i = from;
    while i < text.len() && text[i] != '\n'
        invariant
            from <= i <= text.len(),
            line_end(text@, from as int) == line_end(text@, i as int),
        decreases text.len() - i,
    {
        i += 1;
    }
    i
}

/// Writes the given lines out, each followed by a carriage return and a line
/// feed.
pub fn join_lines(lines: &Vec<Vec<char>>) -> (r: Vec<char>)
    ensures
        r@ == joined(texts(lines@)),
{
    let mut out: Vec<char> = Vec::new();
    let mut i: usize = 0;
    while i < lines.len()
        invariant
            i <= lines.len(),
            out@ == joined(texts(lines@).take(i as int)),
        decreases lines.len() - i,
    {
        proof {
            lemma_joined_push(texts(lines@).take(i as int), lines[i as int]@);
            assert(texts(lines@).take(i + 1) == texts(lines@).take(i as int).push(
                lines[i as int]@,
            ));
        }
        push_chars(&mut out, lines[i].as_slice());
        out.push('\r');
        out.push('\n');
        assert(out@ =~= joined(texts(lines@).take(i as int)) + lines[i as int]@ + seq!['\r', '\n']);
        i += 1;
    }
    assert(texts(lines@).take(lines.len() as int) == texts(lines@));
    out
}

/// A comment line begins with two slashes, in its first two columns.
pub open spec fn is_comment(line: Seq<char>) -> bool {
    line.len() >= 2 && line[0] == '/' && line[1] == '/'
}

/// Whether a text is made of white space only.
pub open spec fn is_blank(text: Seq<char>) -> bool {
    forall|i: int| 0 <= i < text.len() ==> is_whitespace(#[trigger] text[i])
}

/// Whether a line is a comment.
pub fn line_is_comment(line: &[char]) -> (r: bool)
    ensures
        r == is_comment(line@),
{
    line.len() >= 2 && line[0] == '/' && line[1] == '/'
}

/// The kinds of token that a bracketed script is made of.
#[derive(Clone, Copy, Debug, PartialEq, Eq, Structural)]
pub enum TokenKind {
    /// An opening brace.
    Open,
    /// A closing brace.
    Close,
    /// A text between two quotation marks.
    Quoted,
    /// A word that stands without quotation marks.
    Bare,
}

/// A token as contracts speak of it: its kind, its text (for a quoted token
/// the text between the quotation marks), and whether white space stands
/// right before it.
pub struct Lexeme {
    pub kind: TokenKind,
    pub text: Seq<char>,
    pub spaced: bool,
}

/// A token of a text: its kind, where its text begins and ends, and whether
/// white space stands right before it.
#[derive(Clone, Copy, Debug)]
pub struct Token {
    pub kind: TokenKind,
    pub start: usize,
    pub end: usize,
    pub spaced: bool,
}

impl Token {
    /// This token, with its text taken out of `text`.
    pub open spec fn lexeme(self, text: Seq<char>) -> Lexeme {
        Lexeme {
            kind: self.kind,
            text: text.subrange(self.start as int, self.end as int),
            spaced: self.spaced,
        }
    }

    /// Whether the token lies within `text`.
    pub open spec fn within(self, text: Seq<char>) -> bool {
        self.start <= self.end <= text.len()
    }
}

/// The tokens `tokens`, each with its text taken out of `text`.
pub open spec fn lexemes_of(tokens: Seq<Token>, text: Seq<char>) -> Seq<Lexeme> {
    Seq::new(tokens.len(), |i: int| tokens[i].lexeme(text))
}

/// A bare word is made of characters that are neither white space, nor a
/// quotation mark, nor a brace.
pub open spec fn is_word_char(c: char) -> bool {
    !is_whitespace(c) && c != '"' && c != '{' && c != '}'
}

/// The first position at or after `from` that holds no character of a bare
/// word; the length of the text where none is left.
pub open spec fn bare_end(text: Seq<char>, from: int) -> int
    decreases text.len() - from,
{
    if 0 <= from < text.len() && is_word_char(text[from]) {
        bare_end(text, from + 1)
    } else {
        from
    }
}

/// The first position at or after `from` that holds a quotation mark or a
/// brace; the length of the text where none is left.
pub open spec fn quote_end(text: Seq<char>, from: int) -> int
    decreases text.len() - from,
{
    if 0 <= from < text.len() && text[from] != '"' && text[from] != '{' && text[from] != '}' {
        quote_end(text, from + 1)
    } else {
        from
    }
}

/// `first` put before the tokens `rest`, where there are any.
pub open spec fn preceded(first: Lexeme, rest: Option<Seq<Lexeme>>) -> Option<Seq<Lexeme>> {
    match rest {
        Some(tokens) => Some(seq![first] + tokens),
        None => None,
    }
}

/// The tokens of a text from position `from` on; `spaced` says whether white
/// space stands right before that position.
///
/// White space separates tokens and is no part of any. A brace is a token by
/// itself. A quotation mark opens a quoted token, which runs to the next
/// quotation mark and holds no brace. Any other character begins a bare
/// word, which runs as far as its characters go. A text with a quotation
/// mark that is not closed, or with a brace between quotation marks, has no
/// tokens.
pub open spec fn lexemes_from(text: Seq<char>, from: int, spaced: bool) -> Option<Seq<Lexeme>>
    decreases text.len() - from,
    via lexemes_from_decreases
{
    if 0 <= from < text.len() {
        let c = text[from];
        if is_whitespace(c) {
            lexemes_from(text, from + 1, true)
        } else if c == '{' {
            preceded(
                Lexeme { kind: TokenKind::Open, text: text.subrange(from, from + 1), spaced },
                lexemes_from(text, from + 1, false),
            )
        } else if c == '}' {
            preceded(
                Lexeme { kind: TokenKind::Close, text: text.subrange(from, from + 1), spaced },
                lexemes_from(text, from + 1, false),
            )
        } else if c == '"' {
            let close = quote_end(text, from + 1);
            if close < text.len() && text[close] == '"' {
                preceded(
                    Lexeme {
                        kind: TokenKind::Quoted,
                        text: text.subrange(from + 1, close),
                        spaced,
                    },
                    lexemes_from(text, close + 1, false),
                )
            } else {
                None
            }
        } else {
            let end = bare_end(text, from);
            preceded(
                Lexeme { kind: TokenKind::Bare, text: text.subrange(from, end), spaced },
                lexemes_from(text, end, false),
            )
        }
    } else {
        Some(Seq::empty())
    }
}

#[via_fn]
proof fn lexemes_from_decreases(text: Seq<char>, from: int, spaced: bool) {
    if 0 <= from < text.len() {
        lemma_quote_end_bounds(text, from + 1);
        lemma_bare_end_bounds(text, from);
    }
}

/// The tokens of a text.
pub open spec fn lexemes(text: Seq<char>) -> Option<Seq<Lexeme>> {
    lexemes_from(text, 0, false)
}

/// A word is a quoted or a bare token.
pub open spec fn is_word(token: Lexeme) -> bool {
    token.kind == TokenKind::Quoted || token.kind == TokenKind::Bare
}

/// Whether a token is the word `word`, with or without quotation marks.
pub open spec fn is_keyword(token: Lexeme, word: Seq<char>) -> bool {
    is_word(token) && token.text == word
}

/// A text is plain if it holds neither a quotation mark nor a brace: it can
/// stand between quotation marks.
pub open spec fn is_plain(text: Seq<char>) -> bool {
    forall|i: int|
        0 <= i < text.len() ==> {
            let c = #[trigger] text[i];
            c != '"' && c != '{' && c != '}'
        }
}

/// The tokens found so far, then those of the rest.
pub open spec fn continued(found: Seq<Lexeme>, rest: Option<Seq<Lexeme>>) -> Option<Seq<Lexeme>> {
    match rest {
        Some(tokens) => Some(found + tokens),
        None => None,
    }
}

fn char_is_word(c: char) -> (r: bool)
    ensures
        r == is_word_char(c),
{
    !char_is_whitespace(c) && c != '"' && c != '{' && c != '}'
}

fn find_bare_end(text: &[char], from: usize) -> (r: usize)
    requires
        from <= text.len(),
    ensures
        r == bare_end(text@, from as int),
        from <= r <= text.len(),
{
    let mut i = from;
    while i < text.len() && char_is_word(text[i])
        invariant
            from <= i <= text.len(),
            bare_end(text@, from as int) == bare_end(text@, i as int),
        decreases text.len() - i,
    {
        i += 1;
    }
    i
}

fn find_quote_end(text: &[char], from: usize) -> (r: usize)
    requires
        from <= text.len(),
    ensures
        r == quote_end(text@, from as int),
        from <= r <= text.len(),
{
    let mut i = from;
    while i < text.len() && text[i] != '"' && text[i] != '{' && text[i] != '}'
        invariant
            from <= i <= text.len(),
            quote_end(text@, from as int) == quote_end(text@, i as int),
        decreases text.len() - i,
    {
        i += 1;
    }
    i
}

/// Cuts a text into its tokens. `None` where the text has none: a quotation
/// mark is not closed, or a brace stands between quotation marks.
pub fn tokenize(text: &[char]) -> (r: Option<Vec<Token>>)
    ensures
        match r {
            Some(tokens) => {
                &&& lexemes(text@) == Some(lexemes_of(tokens@, text@))
                &&& forall|i: int| 0 <= i < tokens.len() ==> (#[trigger] tokens[i]).within(text@)
            },
            None => lexemes(text@) is None,
        },
{
    let mut tokens: Vec<Token> = Vec::new();
    let mut pos: usize = 0;
    let mut spaced = false;
    while pos < text.len()
        invariant
            pos <= text.len(),
            lexemes(text@) == continued(
                lexemes_of(tokens@, text@),
                lexemes_from(text@, pos as int, spaced),
            ),
            forall|i: int| 0 <= i < tokens.len() ==> (#[trigger] tokens[i]).within(text@),
        decreases text.len() - pos,
    {
        let c = text[pos];
        let ghost found = lexemes_of(tokens@, text@);
        if char_is_whitespace(c) {
            pos += 1;
            spaced = true;
        } else if c == '{' || c == '}' {
            let kind = if c == '{' {
                TokenKind::Open
            } else {
                TokenKind::Close
            };
            let token = Token { kind, start: pos, end: pos + 1, spaced };
            tokens.push(token);
            proof {
                let rest = lexemes_from(text@, pos + 1, false);
                assert(lexemes_of(tokens@, text@) =~= found.push(token.lexeme(text@)));
                if rest is Some {
                    assert(found + (seq![token.lexeme(text@)] + rest->0) =~= found.push(
                        token.lexeme(text@),
                    ) + rest->0);
                }
            }
            pos += 1;
            spaced = false;
        } else if c == '"' {
            let close = find_quote_end(text, pos + 1);
            if close >= text.len() || text[close] != '"' {
                return None;
            }
            let token = Token { kind: TokenKind::Quoted, start: pos + 1, end: close, spaced };
            tokens.push(token);
            proof {
                let rest = lexemes_from(text@, close + 1, false);
                assert(lexemes_of(tokens@, text@) =~= found.push(token.lexeme(text@)));
                if rest is Some {
                    assert(found + (seq![token.lexeme(text@)] + rest->0) =~= found.push(
                        token.lexeme(text@),
                    ) + rest->0);
                }
            }
            pos = close + 1;
            spaced = false;
        } else {
            let end = find_bare_end(text, pos);
            proof {
                lemma_bare_end_bounds(text@, pos as int);
            }
            let token = Token { kind: TokenKind::Bare, start: pos, end, spaced };
            tokens.push(token);
            proof {
                let rest = lexemes_from(text@, end as int, false);
                assert(lexemes_of(tokens@, text@) =~= found.push(token.lexeme(text@)));
                if rest is Some {
                    assert(found + (seq![token.lexeme(text@)] + rest->0) =~= found.push(
                        token.lexeme(text@),
                    ) + rest->0);
                }
            }
            pos = end;
            spaced = false;
        }
    }
    proof {
        assert(lexemes_of(tokens@, text@) + Seq::<Lexeme>::empty() =~= lexemes_of(tokens@, text@));
    }
    Some(tokens)
}

/// Whether a token is a word.
pub fn token_is_word(token: &Token) -> (r: bool)
    ensures
        forall|text: Seq<char>| r == is_word(#[trigger] token.lexeme(text)),
{
    match token.kind {
        TokenKind::Quoted => true,
        TokenKind::Bare => true,
        _ => false,
    }
}

/// The text of a token.
pub fn token_text<'a>(text: &'a [char], token: &Token) -> (r: &'a [char])
    requires
        token.within(text@),
    ensures
        r@ == token.lexeme(text@).text,
{
    slice_subrange(text, token.start, token.end)
}

/// Whether a token is the word `word`, with or without quotation marks.
pub fn token_is_keyword(text: &[char], token: &Token, word: &[char]) -> (r: bool)
    requires
        token.within(text@),
    ensures
        r == is_keyword(token.lexeme(text@), word@),
{
    token_is_word(token) && chars_equal(token_text(text, token), word)
}

/// The position of the first word among the tokens at or after `from`.
pub open spec fn next_word(tokens: Seq<Lexeme>, from: int) -> Option<int>
    decreases tokens.len() - from,
{
    if 0 <= from < tokens.len() {
        if is_word(tokens[from]) {
            Some(from)
        } else {
            next_word(tokens, from + 1)
        }
    } else {
        None
    }
}

/// Whether a token of the given kind is among the first `upto` tokens.
pub open spec fn has_kind(tokens: Seq<Lexeme>, kind: TokenKind, upto: int) -> bool
    decreases upto,
{
    if upto <= 0 {
        false
    } else {
        tokens[upto - 1].kind == kind || has_kind(tokens, kind, upto - 1)
    }
}

/// What a line holds, as contracts speak of it.
pub struct LineParts {
    pub comment: bool,
    pub opens: bool,
    pub closes: bool,
    pub identifier: Option<Seq<char>>,
    pub value: Option<Seq<char>>,
}

/// What a line holds: whether it is a comment; whether it holds an opening
/// brace, and a closing one; its identifier, the first word on it; and its
/// value, the second.
#[derive(Debug)]
pub struct ParsedLine {
    pub comment: bool,
    pub opens: bool,
    pub closes: bool,
    pub identifier: Option<String>,
    pub value: Option<String>,
}

impl View for ParsedLine {
    type V = LineParts;

    open spec fn view(&self) -> LineParts {
        LineParts {
            comment: self.comment,
            opens: self.opens,
            closes: self.closes,
            identifier: match self.identifier {
                Some(word) => Some(word@),
                None => None,
            },
            value: match self.value {
                Some(word) => Some(word@),
                None => None,
            },
        }
    }
}

/// The text of the word at the given position, if there is one.
pub open spec fn word_text(tokens: Seq<Lexeme>, at: Option<int>) -> Option<Seq<char>> {
    match at {
        Some(i) => Some(tokens[i].text),
        None => None,
    }
}

/// The position behind the word at the given position; behind the last
/// token where there is no word.
pub open spec fn behind(tokens: Seq<Lexeme>, at: Option<int>) -> int {
    match at {
        Some(i) => i + 1,
        None => tokens.len() as int,
    }
}

/// What the tokens of a line that is no comment come to.
pub open spec fn parts_of(tokens: Seq<Lexeme>) -> LineParts {
    let first = next_word(tokens, 0);
    let second = next_word(tokens, behind(tokens, first));
    LineParts {
        comment: false,
        opens: has_kind(tokens, TokenKind::Open, tokens.len() as int),
        closes: has_kind(tokens, TokenKind::Close, tokens.len() as int),
        identifier: word_text(tokens, first),
        value: word_text(tokens, second),
    }
}

/// What a line holds. A comment line holds nothing else. On any other line
/// white space separates the words, a word may stand between quotation marks
/// to hold white space, and the quotation marks are no part of it; a brace
/// is no part of a word either. A line with a quotation mark that is not
/// closed, or with a brace between quotation marks, holds nothing: `None`.
pub open spec fn line_parts(line: Seq<char>) -> Option<LineParts> {
    if is_comment(line) {
        Some(
            LineParts { comment: true, opens: false, closes: false, identifier: None, value: None },
        )
    } else {
        match lexemes(line) {
            Some(tokens) => Some(parts_of(tokens)),
            None => None,
        }
    }
}

fn find_next_word(tokens: &Vec<Token>, from: usize, Ghost(text): Ghost<Seq<char>>) -> (r: Option<
    usize,
>)
    requires
        from <= tokens.len(),
    ensures
        match r {
            Some(i) => i < tokens.len() && next_word(lexemes_of(tokens@, text), from as int)
                == Some(i as int),
            None => next_word(lexemes_of(tokens@, text), from as int) is None,
        },
{
    let mut i = from;
    while i < tokens.len()
        invariant
            from <= i <= tokens.len(),
            next_word(lexemes_of(tokens@, text), from as int) == next_word(
                lexemes_of(tokens@, text),
                i as int,
            ),
        decreases tokens.len() - i,
    {
        assert(lexemes_of(tokens@, text)[i as int] == tokens[i as int].lexeme(text));
        if token_is_word(&tokens[i]) {
            return Some(i);
        }
        i += 1;
    }
    None
}

fn find_kind(tokens: &Vec<Token>, kind: TokenKind, Ghost(text): Ghost<Seq<char>>) -> (r: bool)
    ensures
        r == has_kind(lexemes_of(tokens@, text), kind, tokens.len() as int),
{
    let mut found = false;
    let mut i: usize = 0;
    while i < tokens.len()
        invariant
            i <= tokens.len(),
            found == has_kind(lexemes_of(tokens@, text), kind, i as int),
        decreases tokens.len() - i,
    {
        assert(lexemes_of(tokens@, text)[i as int] == tokens[i as int].lexeme(text));
        if tokens[i].kind == kind {
            found = true;
        }
        i += 1;
    }
    found
}

/// What a line holds, with its words as texts.
#[derive(Debug)]
pub struct LineWords {
    pub comment: bool,
    pub opens: bool,
    pub closes: bool,
    pub identifier: Option<Vec<char>>,
    pub value: Option<Vec<char>>,
}

impl View for LineWords {
    type V = LineParts;

    open spec fn view(&self) -> LineParts {
        LineParts {
            comment: self.comment,
            opens: self.opens,
            closes: self.closes,
            identifier: match self.identifier {
                Some(word) => Some(word@),
                None => None,
            },
            value: match self.value {
                Some(word) => Some(word@),
                None => None,
            },
        }
    }
}

fn copy_chars(text: &[char]) -> (r: Vec<char>)
    ensures
        r@ == text@,
{
    let mut out: Vec<char> = Vec::new();
    push_chars(&mut out, text);
    assert(out@ =~= text@);
    out
}

/// Takes a line apart. `None` where a quotation mark on it is not closed, or
/// a brace stands between quotation marks.
pub fn parse_chars(text: &[char]) -> (r: Option<LineWords>)
    ensures
        match r {
            Some(parsed) => line_parts(text@) == Some(parsed@),
            None => line_parts(text@) is None,
        },
{
    if line_is_comment(text) {
        return Some(
            LineWords { comment: true, opens: false, closes: false, identifier: None, value: None },
        );
    }
    let tokens = match tokenize(text) {
        Some(tokens) => tokens,
        None => {
            return None;
        },
    };
    let first = find_next_word(&tokens, 0, Ghost(text@));
    let after = match first {
        Some(i) => i + 1,
        None => tokens.len(),
    };
    let second = find_next_word(&tokens, after, Ghost(text@));
    let identifier = match first {
        Some(i) => Some(copy_chars(token_text(text, &tokens[i]))),
        None => None,
    };
    let value = match second {
        Some(i) => Some(copy_chars(token_text(text, &tokens[i]))),
        None => None,
    };
    proof {
        let all = lexemes_of(tokens@, text@);
        if first is Some {
            assert(all[first->0 as int] == tokens[first->0 as int].lexeme(text@));
        }
        if second is Some {
            assert(all[second->0 as int] == tokens[second->0 as int].lexeme(text@));
        }
    }
    Some(
        LineWords {
            comment: false,
            opens: find_kind(&tokens, TokenKind::Open, Ghost(text@)),
            closes: find_kind(&tokens, TokenKind::Close, Ghost(text@)),
            identifier,
            value,
        },
    )
}

/// Takes a line apart. `None` where a quotation mark on it is not closed, or
/// a brace stands between quotation marks.
pub fn parse_line(line: &str) -> (r: Option<ParsedLine>)
    ensures
        match r {
            Some(parsed) => line_parts(line@) == Some(parsed@),
            None => line_parts(line@) is None,
        },
{
    let text = to_chars(line);
    match parse_chars(text.as_slice()) {
        None => None,
        Some(words) => Some(
            ParsedLine {
                comment: words.comment,
                opens: words.opens,
                closes: words.closes,
                identifier: match &words.identifier {
                    Some(word) => Some(from_chars(word.as_slice())),
                    None => None,
                },
                value: match &words.value {
                    Some(word) => Some(from_chars(word.as_slice())),
                    None => None,
                },
            },
        ),
    }
}

proof fn lemma_line_end_bounds(text: Seq<char>, from: int)
    requires
        0 <= from <= text.len(),
    ensures
        from <= line_end(text, from) <= text.len(),
        forall|i: int| from <= i < line_end(text, from) ==> #[trigger] text[i] != '\n',
        line_end(text, from) < text.len() ==> text[line_end(text, from)] == '\n',
    decreases text.len() - from,
{
    if from < text.len() && text[from] != '\n' {
        lemma_line_end_bounds(text, from + 1);
    }
}

proof fn lemma_line_end_at(text: Seq<char>, from: int, end: int)
    requires
        0 <= from <= end < text.len(),
        forall|i: int| from <= i < end ==> text[i] != '\n',
        text[end] == '\n',
    ensures
        line_end(text, from) == end,
    decreases end - from,
{
    if from < end {
        lemma_line_end_at(text, from + 1, end);
    }
}

proof fn lemma_line_end_shift(front: Seq<char>, text: Seq<char>, from: int)
    requires
        0 <= from <= text.len(),
    ensures
        line_end(front + text, front.len() + from) == front.len() + line_end(text, from),
    decreases text.len() - from,
{
    let whole = front + text;
    if from < text.len() {
        assert(whole[front.len() + from] == text[from]);
        if text[from] != '\n' {
            lemma_line_end_shift(front, text, from + 1);
        }
    }
}

/// The lines of a text do not depend on what stands before the position
/// from which they are read.
pub proof fn lemma_lines_shift(front: Seq<char>, text: Seq<char>, from: int)
    requires
        0 <= from <= text.len() + 1,
    ensures
        lines_from(front + text, front.len() + from) == lines_from(text, from),
    decreases text.len() + 1 - from,
{
    let whole = front + text;
    if from < text.len() {
        lemma_line_end_shift(front, text, from);
        lemma_line_end_bounds(text, from);
        let end = line_end(text, from);
        assert(whole.subrange(front.len() + from, front.len() + end) =~= text.subrange(from, end));
        lemma_lines_shift(front, text, end + 1);
    }
}

proof fn lemma_joined_push(lines: Seq<Seq<char>>, line: Seq<char>)
    ensures
        joined(lines.push(line)) == joined(lines) + line + seq!['\r', '\n'],
    decreases lines.len(),
{
    let longer = lines.push(line);
    if lines.len() == 0 {
        assert(longer.subrange(1, 1) == Seq::<Seq<char>>::empty());
        assert(joined(longer.subrange(1, 1)) == Seq::<char>::empty());
        assert(joined(longer) == line + seq!['\r', '\n'] + Seq::<char>::empty());
        assert(joined(longer) =~= joined(lines) + line + seq!['\r', '\n']);
    } else {
        let tail = lines.subrange(1, lines.len() as int);
        assert(longer.subrange(1, longer.len() as int) == tail.push(line));
        lemma_joined_push(tail, line);
        assert(longer[0] == lines[0]);
        assert(joined(longer) =~= joined(lines) + line + seq!['\r', '\n']);
    }
}

/// A text written line by line is read back line by line: the lines of the
/// text that holds the given lines, none of which holds a line feed, are
/// these lines, each with the carriage return that ends it.
pub proof fn lemma_lines_of_joined(lines: Seq<Seq<char>>)
    requires
        forall|i: int| 0 <= i < lines.len() ==> !(#[trigger] lines[i]).contains('\n'),
    ensures
        self::lines(joined(lines)) == with_returns(lines),
    decreases lines.len(),
{
    let text = joined(lines);
    if lines.len() == 0 {
        assert(with_returns(lines) =~= Seq::<Seq<char>>::empty());
    } else {
        let first = lines[0];
        let later = lines.subrange(1, lines.len() as int);
        assert forall|i: int| 0 <= i < later.len() implies !(#[trigger] later[i]).contains(
            '\n',
        ) by {
            assert(later[i] == lines[i + 1]);
        }
        lemma_lines_of_joined(later);
        let front = first + seq!['\r', '\n'];
        assert(text =~= front + joined(later));
        let end = first.len() as int + 1;
        assert forall|i: int| 0 <= i < end implies text[i] != '\n' by {
            if i < first.len() {
                assert(text[i] == first[i]);
                assert(first.contains(first[i]));
            }
        }
        assert(text[end] == '\n');
        lemma_line_end_at(text, 0, end);
        assert(text.subrange(0, end) =~= first.push('\r'));
        assert(front.len() == end + 1);
        lemma_lines_shift(front, joined(later), 0);
        assert(with_returns(lines) =~= seq![first.push('\r')] + with_returns(later));
    }
}

proof fn lemma_bare_end_bounds(text: Seq<char>, from: int)
    requires
        0 <= from <= text.len(),
    ensures
        from <= bare_end(text, from) <= text.len(),
        from < text.len() && is_word_char(text[from]) ==> from < bare_end(text, from),
        forall|i: int| from <= i < bare_end(text, from) ==> is_word_char(#[trigger] text[i]),
        bare_end(text, from) < text.len() ==> !is_word_char(text[bare_end(text, from)]),
    decreases text.len() - from,
{
    if from < text.len() && is_word_char(text[from]) {
        lemma_bare_end_bounds(text, from + 1);
    }
}

proof fn lemma_quote_end_bounds(text: Seq<char>, from: int)
    requires
        0 <= from <= text.len(),
    ensures
        from <= quote_end(text, from) <= text.len(),
        forall|i: int|
            from <= i < quote_end(text, from) ==> {
                let c = #[trigger] text[i];
                c != '"' && c != '{' && c != '}'
            },
    decreases text.len() - from,
{
    if from < text.len() && text[from] != '"' && text[from] != '{' && text[from] != '}' {
        lemma_quote_end_bounds(text, from + 1);
    }
}

proof fn lemma_quote_end_shift(front: Seq<char>, text: Seq<char>, from: int)
    requires
        0 <= from <= text.len(),
    ensures
        quote_end(front + text, front.len() + from) == front.len() + quote_end(text, from),
    decreases text.len() - from,
{
    let whole = front + text;
    if from < text.len() {
        assert(whole[front.len() + from] == text[from]);
        if text[from] != '"' && text[from] != '{' && text[from] != '}' {
            lemma_quote_end_shift(front, text, from + 1);
        }
    }
}

proof fn lemma_bare_end_shift(front: Seq<char>, text: Seq<char>, from: int)
    requires
        0 <= from <= text.len(),
    ensures
        bare_end(front + text, front.len() + from) == front.len() + bare_end(text, from),
    decreases text.len() - from,
{
    let whole = front + text;
    if from < text.len() {
        assert(whole[front.len() + from] == text[from]);
        if is_word_char(text[from]) {
            lemma_bare_end_shift(front, text, from + 1);
        }
    }
}

/// The tokens of a text do not depend on what stands before the position
/// from which they are read.
pub proof fn lemma_lexemes_shift(front: Seq<char>, text: Seq<char>, from: int, spaced: bool)
    requires
        0 <= from <= text.len(),
    ensures
        lexemes_from(front + text, front.len() + from, spaced) == lexemes_from(text, from, spaced),
    decreases text.len() - from,
{
    let whole = front + text;
    let at = front.len() + from;
    if from < text.len() {
        let c = text[from];
        assert(whole[at] == c);
        if is_whitespace(c) {
            lemma_lexemes_shift(front, text, from + 1, true);
        } else if c == '{' || c == '}' {
            lemma_lexemes_shift(front, text, from + 1, false);
            assert(whole.subrange(at, at + 1) =~= text.subrange(from, from + 1));
        } else if c == '"' {
            lemma_quote_end_shift(front, text, from + 1);
            lemma_quote_end_bounds(text, from + 1);
            let close = quote_end(text, from + 1);
            if close < text.len() {
                assert(whole[front.len() + close] == text[close]);
                if text[close] == '"' {
                    lemma_lexemes_shift(front, text, close + 1, false);
                    assert(whole.subrange(at + 1, front.len() + close) =~= text.subrange(
                        from + 1,
                        close,
                    ));
                }
            }
        } else {
            lemma_bare_end_shift(front, text, from);
            lemma_bare_end_bounds(text, from);
            let end = bare_end(text, from);
            lemma_lexemes_shift(front, text, end, false);
            assert(whole.subrange(at, front.len() + end) =~= text.subrange(from, end));
        }
    }
}

proof fn lemma_quote_end_word(text: Seq<char>, word: Seq<char>, start: int, done: int)
    requires
        is_plain(word),
        0 <= done <= word.len(),
        0 <= start,
        start + word.len() < text.len(),
        forall|i: int| 0 <= i < word.len() ==> text[start + i] == word[i],
        text[start + word.len()] == '"',
    ensures
        quote_end(text, start + done) == start + word.len(),
    decreases word.len() - done,
{
    if done < word.len() {
        assert(text[start + done] == word[done]);
        lemma_quote_end_word(text, word, start, done + 1);
    }
}

/// White space before a text is no token: what follows it is read as
/// preceded by white space.
pub proof fn lemma_lex_space(c: char, rest: Seq<char>, spaced: bool)
    requires
        is_whitespace(c),
    ensures
        lexemes_from(seq![c] + rest, 0, spaced) == lexemes_from(rest, 0, true),
{
    let text = seq![c] + rest;
    assert(text[0] == c);
    lemma_lexemes_shift(seq![c], rest, 0, true);
}

/// A brace before a text is a token by itself.
pub proof fn lemma_lex_brace(c: char, rest: Seq<char>, spaced: bool)
    requires
        c == '{' || c == '}',
    ensures
        lexemes_from(seq![c] + rest, 0, spaced) == preceded(
            Lexeme {
                kind: if c == '{' {
                    TokenKind::Open
                } else {
                    TokenKind::Close
                },
                text: seq![c],
                spaced,
            },
            lexemes_from(rest, 0, false),
        ),
{
    let text = seq![c] + rest;
    assert(text[0] == c);
    assert(text.subrange(0, 1) =~= seq![c]);
    lemma_lexemes_shift(seq![c], rest, 0, false);
}

/// A plain text between quotation marks is one quoted token.
pub proof fn lemma_lex_quoted(word: Seq<char>, rest: Seq<char>, spaced: bool)
    requires
        is_plain(word),
    ensures
        lexemes_from(seq!['"'] + word + seq!['"'] + rest, 0, spaced) == preceded(
            Lexeme { kind: TokenKind::Quoted, text: word, spaced },
            lexemes_from(rest, 0, false),
        ),
{
    let front = seq!['"'] + word + seq!['"'];
    let text = front + rest;
    assert(text[0] == '"');
    lemma_quote_end_word(text, word, 1, 0);
    assert(quote_end(text, 1) == 1 + word.len());
    let close = 1 + word.len() as int;
    assert(text[close] == '"');
    assert(text.subrange(1, close) =~= word);
    lemma_lexemes_shift(front, rest, 0, false);
}

/// The end of a line, a carriage return and a line feed, is white space.
pub proof fn lemma_lex_line_end(rest: Seq<char>, spaced: bool)
    ensures
        lexemes_from(seq!['\r', '\n'] + rest, 0, spaced) == lexemes_from(rest, 0, true),
{
    assert(seq!['\r', '\n'] + rest =~= seq!['\r'] + (seq!['\n'] + rest));
    lemma_lex_space('\r', seq!['\n'] + rest, spaced);
    lemma_lex_space('\n', rest, true);
}

/// A line that holds a tab, a quoted word, a tab and another quoted word is
/// two quoted tokens, each preceded by white space.
pub proof fn lemma_lex_pair_line(first: Seq<char>, second: Seq<char>, rest: Seq<char>, spaced: bool)
    requires
        is_plain(first),
        is_plain(second),
    ensures
        lexemes_from(
            seq!['\t', '"'] + first + seq!['"', '\t', '"'] + second + seq!['"'] + seq![
                '\r',
                '\n',
            ] + rest,
            0,
            spaced,
        ) == preceded(
            Lexeme { kind: TokenKind::Quoted, text: first, spaced: true },
            preceded(
                Lexeme { kind: TokenKind::Quoted, text: second, spaced: true },
                lexemes_from(rest, 0, true),
            ),
        ),
{
    let text = seq!['\t', '"'] + first + seq!['"', '\t', '"'] + second + seq!['"'] + seq![
        '\r',
        '\n',
    ] + rest;
    let after_second = seq!['\r', '\n'] + rest;
    let from_second = seq!['"'] + second + seq!['"'] + after_second;
    let after_first = seq!['\t'] + from_second;
    let from_first = seq!['"'] + first + seq!['"'] + after_first;
    assert(text =~= seq!['\t'] + from_first);
    lemma_lex_space('\t', from_first, spaced);
    lemma_lex_quoted(first, after_first, true);
    lemma_lex_space('\t', from_second, false);
    lemma_lex_quoted(second, after_second, true);
    lemma_lex_line_end(rest, false);
}

/// The two lines that open a script, a quoted label and an opening brace,
/// are two tokens.
pub proof fn lemma_lex_opening(label: Seq<char>, rest: Seq<char>)
    requires
        is_plain(label),
    ensures
        lexemes_from(
            seq!['"'] + label + seq!['"'] + seq!['\r', '\n'] + seq!['{'] + seq!['\r', '\n']
                + rest,
            0,
            false,
        ) == preceded(
            Lexeme { kind: TokenKind::Quoted, text: label, spaced: false },
            preceded(
                Lexeme { kind: TokenKind::Open, text: seq!['{'], spaced: true },
                lexemes_from(rest, 0, true),
            ),
        ),
{
    let text = seq!['"'] + label + seq!['"'] + seq!['\r', '\n'] + seq!['{'] + seq!['\r', '\n']
        + rest;
    let after_brace = seq!['\r', '\n'] + rest;
    let from_brace = seq!['{'] + after_brace;
    let after_label = seq!['\r', '\n'] + from_brace;
    assert(text =~= seq!['"'] + label + seq!['"'] + after_label);
    lemma_lex_quoted(label, after_label, false);
    lemma_lex_line_end(from_brace, false);
    lemma_lex_brace('{', after_brace, true);
    lemma_lex_line_end(rest, false);
}

/// The line that closes a script, a closing brace, is the last token.
pub proof fn lemma_lex_closing()
    ensures
        lexemes_from(seq!['}'] + seq!['\r', '\n'], 0, true) == Some(
            seq![Lexeme { kind: TokenKind::Close, text: seq!['}'], spaced: true }],
        ),
{
    let rest = seq!['\r', '\n'];
    lemma_lex_brace('}', rest, true);
    assert(rest =~= rest + Seq::<char>::empty());
    lemma_lex_line_end(Seq::<char>::empty(), false);
    assert(lexemes_from(Seq::<char>::empty(), 0, true) == Some(Seq::<Lexeme>::empty()));
    assert(seq![Lexeme { kind: TokenKind::Close, text: seq!['}'], spaced: true }] + Seq::<
        Lexeme,
    >::empty() =~= seq![Lexeme { kind: TokenKind::Close, text: seq!['}'], spaced: true }]);
}

/// Whether a text can stand as a bare word: it is not empty, and holds
/// neither white space, nor a quotation mark, nor a brace.
pub open spec fn is_bare(text: Seq<char>) -> bool {
    text.len() > 0 && forall|i: int| 0 <= i < text.len() ==> is_word_char(#[trigger] text[i])
}

/// The parts of a line that holds the given words and no brace.
pub open spec fn words_only(identifier: Option<Seq<char>>, value: Option<Seq<char>>) -> LineParts {
    LineParts { comment: false, opens: false, closes: false, identifier, value }
}

proof fn lemma_bare_end_at(text: Seq<char>, from: int, end: int)
    requires
        0 <= from <= end <= text.len(),
        forall|i: int| from <= i < end ==> is_word_char(text[i]),
        end < text.len() ==> !is_word_char(text[end]),
    ensures
        bare_end(text, from) == end,
    decreases end - from,
{
    if from < end {
        lemma_bare_end_at(text, from + 1, end);
    }
}

/// A bare word before a text that does not carry it on is one bare token.
pub proof fn lemma_lex_bare(word: Seq<char>, rest: Seq<char>, spaced: bool)
    requires
        is_bare(word),
        rest.len() > 0 ==> !is_word_char(rest[0]),
    ensures
        lexemes_from(word + rest, 0, spaced) == preceded(
            Lexeme { kind: TokenKind::Bare, text: word, spaced },
            lexemes_from(rest, 0, false),
        ),
{
    let text = word + rest;
    let end = word.len() as int;
    assert forall|i: int| 0 <= i < end implies is_word_char(text[i]) by {
        assert(text[i] == word[i]);
    }
    if end < text.len() {
        assert(text[end] == rest[0]);
    }
    assert(text[0] == word[0]);
    lemma_bare_end_at(text, 0, end);
    assert(text.subrange(0, end) =~= word);
    lemma_lexemes_shift(word, rest, 0, false);
}

/// White space before a text is no token: what follows it is read as
/// preceded by white space, if there is any.
pub proof fn lemma_lex_blank(blank: Seq<char>, rest: Seq<char>, spaced: bool)
    requires
        is_blank(blank),
    ensures
        lexemes_from(blank + rest, 0, spaced) == lexemes_from(
            rest,
            0,
            spaced || blank.len() > 0,
        ),
    decreases blank.len(),
{
    if blank.len() == 0 {
        assert(blank + rest =~= rest);
    } else {
        let later = blank.subrange(1, blank.len() as int);
        assert(is_blank(later)) by {
            assert forall|i: int| 0 <= i < later.len() implies is_whitespace(
                #[trigger] later[i],
            ) by {
                assert(later[i] == blank[i + 1]);
            }
        }
        assert(blank + rest =~= seq![blank[0]] + (later + rest));
        lemma_lex_space(blank[0], later + rest, spaced);
        lemma_lex_blank(later, rest, true);
    }
}

proof fn lemma_lex_end(blank: Seq<char>, spaced: bool)
    requires
        is_blank(blank),
    ensures
        lexemes_from(blank, 0, spaced) == Some(Seq::<Lexeme>::empty()),
{
    lemma_lex_blank(blank, Seq::<char>::empty(), spaced);
    assert(blank + Seq::<char>::empty() =~= blank);
}

/// A line of white space holds nothing.
pub proof fn lemma_blank_line_parts(line: Seq<char>)
    requires
        is_blank(line),
    ensures
        line_parts(line) == Some(words_only(None, None)),
{
    lemma_lex_end(line, false);
    if line.len() >= 2 {
        assert(is_whitespace(line[0]));
    }
}

/// A line that holds one bare word between white space holds that word as
/// its identifier, and nothing else.
pub proof fn lemma_one_word_parts(before: Seq<char>, word: Seq<char>, after: Seq<char>)
    requires
        is_blank(before),
        is_bare(word),
        is_blank(after),
        before.len() > 0 || word[0] != '/',
    ensures
        line_parts(before + word + after) == Some(words_only(Some(word), None)),
{
    let line = before + word + after;
    if after.len() > 0 {
        assert(is_whitespace(after[0]));
    }
    assert(line =~= before + (word + after));
    lemma_lex_blank(before, word + after, false);
    lemma_lex_bare(word, after, before.len() > 0);
    lemma_lex_end(after, false);
    let token = Lexeme { kind: TokenKind::Bare, text: word, spaced: before.len() > 0 };
    let tokens = seq![token];
    assert(seq![token] + Seq::<Lexeme>::empty() =~= tokens);
    assert(lexemes(line) == Some(tokens));
    assert(line[0] == if before.len() > 0 {
        before[0]
    } else {
        word[0]
    });
    if before.len() > 0 {
        assert(is_whitespace(before[0]));
    }
    assert(!is_comment(line));
    reveal_with_fuel(next_word, 3);
    reveal_with_fuel(has_kind, 3);
    assert(parts_of(tokens) == words_only(Some(word), None));
}

/// A line that holds two bare words between white space holds the first as
/// its identifier and the second as its value, and nothing else.
pub proof fn lemma_two_words_parts(
    before: Seq<char>,
    first: Seq<char>,
    between: Seq<char>,
    second: Seq<char>,
    after: Seq<char>,
)
    requires
        is_blank(before),
        is_bare(first),
        is_blank(between),
        between.len() > 0,
        is_bare(second),
        is_blank(after),
        before.len() > 0 || first[0] != '/',
    ensures
        line_parts(before + first + between + second + after) == Some(
            words_only(Some(first), Some(second)),
        ),
{
    let line = before + first + between + second + after;
    let from_second = second + after;
    let from_between = between + from_second;
    let from_first = first + from_between;
    assert(line =~= before + from_first);
    if after.len() > 0 {
        assert(is_whitespace(after[0]));
    }
    assert(is_whitespace(between[0]));
    assert(from_between[0] == between[0]);
    lemma_lex_blank(before, from_first, false);
    lemma_lex_bare(first, from_between, before.len() > 0);
    lemma_lex_blank(between, from_second, false);
    lemma_lex_bare(second, after, true);
    lemma_lex_end(after, false);
    let one = Lexeme { kind: TokenKind::Bare, text: first, spaced: before.len() > 0 };
    let two = Lexeme { kind: TokenKind::Bare, text: second, spaced: true };
    let tokens = seq![one, two];
    assert(seq![two] + Seq::<Lexeme>::empty() =~= seq![two]);
    assert(seq![one] + seq![two] =~= tokens);
    assert(lexemes(line) == Some(tokens));
    assert(line[0] == if before.len() > 0 {
        before[0]
    } else {
        first[0]
    });
    if before.len() > 0 {
        assert(is_whitespace(before[0]));
    }
    assert(!is_comment(line));
    reveal_with_fuel(next_word, 4);
    reveal_with_fuel(has_kind, 4);
    assert(parts_of(tokens) == words_only(Some(first), Some(second)));
}

/// A line that holds a bare word and then a plain text between quotation
/// marks holds the word as its identifier and the text, without the marks,
/// as its value.
pub proof fn lemma_quoted_value_parts(
    before: Seq<char>,
    first: Seq<char>,
    between: Seq<char>,
    second: Seq<char>,
    after: Seq<char>,
)
    requires
        is_blank(before),
        is_bare(first),
        is_blank(between),
        is_plain(second),
        is_blank(after),
        before.len() > 0 || first[0] != '/',
    ensures
        line_parts(before + first + between + seq!['"'] + second + seq!['"'] + after) == Some(
            words_only(Some(first), Some(second)),
        ),
{
    let line = before + first + between + seq!['"'] + second + seq!['"'] + after;
    let from_second = seq!['"'] + second + seq!['"'] + after;
    let from_between = between + from_second;
    let from_first = first + from_between;
    assert(line =~= before + from_first);
    assert(from_second[0] == '"');
    if between.len() > 0 {
        assert(is_whitespace(between[0]));
        assert(from_between[0] == between[0]);
    } else {
        assert(from_between =~= from_second);
    }
    lemma_lex_blank(before, from_first, false);
    lemma_lex_bare(first, from_between, before.len() > 0);
    lemma_lex_blank(between, from_second, false);
    lemma_lex_quoted(second, after, between.len() > 0);
    lemma_lex_end(after, false);
    let one = Lexeme { kind: TokenKind::Bare, text: first, spaced: before.len() > 0 };
    let two = Lexeme { kind: TokenKind::Quoted, text: second, spaced: between.len() > 0 };
    let tokens = seq![one, two];
    assert(seq![two] + Seq::<Lexeme>::empty() =~= seq![two]);
    assert(seq![one] + seq![two] =~= tokens);
    assert(lexemes(line) == Some(tokens));
    assert(line[0] == if before.len() > 0 {
        before[0]
    } else {
        first[0]
    });
    if before.len() > 0 {
        assert(is_whitespace(before[0]));
    }
    assert(!is_comment(line));
    reveal_with_fuel(next_word, 4);
    reveal_with_fuel(has_kind, 4);
    assert(parts_of(tokens) == words_only(Some(first), Some(second)));
}

/// A line that holds a brace between white space holds that brace and no
/// word, wherever on the line the brace stands.
pub proof fn lemma_brace_parts(before: Seq<char>, brace: char, after: Seq<char>)
    requires
        brace == '{' || brace == '}',
        is_blank(before),
        is_blank(after),
    ensures
        line_parts(before + seq![brace] + after) == Some(
            LineParts {
                comment: false,
                opens: brace == '{',
                closes: brace == '}',
                identifier: None,
                value: None,
            },
        ),
{
    let line = before + seq![brace] + after;
    assert(line =~= before + (seq![brace] + after));
    lemma_lex_blank(before, seq![brace] + after, false);
    lemma_lex_brace(brace, after, before.len() > 0);
    lemma_lex_end(after, false);
    let token = Lexeme {
        kind: if brace == '{' {
            TokenKind::Open
        } else {
            TokenKind::Close
        },
        text: seq![brace],
        spaced: before.len() > 0,
    };
    let tokens = seq![token];
    assert(seq![token] + Seq::<Lexeme>::empty() =~= tokens);
    assert(lexemes(line) == Some(tokens));
    assert(line[0] == if before.len() > 0 {
        before[0]
    } else {
        brace
    });
    if before.len() > 0 {
        assert(is_whitespace(before[0]));
    }
    assert(!is_comment(line));
    reveal_with_fuel(next_word, 3);
    reveal_with_fuel(has_kind, 3);
}

} // verus!

//! The tokenizer: from the characters of a dump to its tokens.
//!
//! The lexical rules are given once, as specification functions over a
//! sequence of characters and a position in it; the executable scanner is
//! proved to compute exactly what they say.

use vstd::prelude::*;
use crate::error::{Failure, SyntaxError, SyntaxErrorKind};
use crate::text::{
    chars_of, is_whitespace, is_word_char, spec_is_whitespace, spec_is_word_char, string_of,
};
use crate::token::{tokens_view, tokens_well_formed, SpecToken, Token};
use crate::well_formed::lemma_lex_well_formed;

verus! {

/// The phrase that introduces a wrapper node.
pub open spec fn spec_marker() -> Seq<char> {
    seq!['O', 'r', 'i', 'g', 'i', 'n', 'a', 'l', ' ', 'i', 'n', 'i', 't', ':']
}

/// Whether the marker phrase stands at position `i` of `s`.
pub open spec fn has_marker_at(s: Seq<char>, i: int) -> bool {
    0 <= i && i + 14 <= s.len() && s.subrange(i, i + 14) == spec_marker()
}

/// The first position at or after `i` that holds no blank.
pub open spec fn skip_whitespace(s: Seq<char>, i: int) -> int
    decreases s.len() - i,
{
    if 0 <= i < s.len() && spec_is_whitespace(s[i]) {
        skip_whitespace(s, i + 1)
    } else {
        i
    }
}

/// The first position at or after `i` that holds no word character.
pub open spec fn word_end(s: Seq<char>, i: int) -> int
    decreases s.len() - i,
{
    if 0 <= i < s.len() && spec_is_word_char(s[i]) {
        word_end(s, i + 1)
    } else {
        i
    }
}

/// Reads the inside of a quoted string from position `i` on; the opening
/// quote stood at `open`.
///
/// A backslash makes the character after it part of the content, whatever it
/// is; an unescaped quote ends the string. The result is the content and the
/// position just after the closing quote.
pub open spec fn scan_string(s: Seq<char>, open: int, i: int) -> Result<(Seq<char>, int), Failure>
    decreases s.len() - i,
{
    if i < 0 || i >= s.len() {
        Err(Failure { kind: SyntaxErrorKind::UnterminatedString, position: open })
    } else if s[i] == '"' {
        Ok((Seq::empty(), i + 1))
    } else if s[i] == '\\' {
        if i + 1 >= s.len() {
            Err(Failure { kind: SyntaxErrorKind::UnterminatedEscape, position: i })
        } else {
            prepend_char(s[i + 1], scan_string(s, open, i + 2))
        }
    } else {
        prepend_char(s[i], scan_string(s, open, i + 1))
    }
}

/// Puts `c` in front of the content that a string scan produced.
pub open spec fn prepend_char(
    c: char,
    rest: Result<(Seq<char>, int), Failure>,
) -> Result<(Seq<char>, int), Failure> {
    match rest {
        Ok((content, end)) => Ok((seq![c] + content, end)),
        Err(e) => Err(e),
    }
}

/// Reads the token that starts at position `i`, which must hold a character
/// that is not a blank. The result is the token and the position just after
/// it.
///
/// A parenthesis is a token by itself. A double quote opens a quoted
/// string. The marker phrase is one token. Anything else starts a bare
/// word, which runs as far as word characters go. A word that is followed
/// at once by `=` and then by a quoted string or another word forms a
/// `key=value` fragment with it; any other word is an identifier. An equals
/// sign that starts a token is a failure.
pub open spec fn scan_token(s: Seq<char>, i: int) -> Result<(SpecToken, int), Failure> {
    if s[i] == '(' {
        Ok((SpecToken::Open, i + 1))
    } else if s[i] == ')' {
        Ok((SpecToken::Close, i + 1))
    } else if s[i] == '"' {
        match scan_string(s, i, i + 1) {
            Ok((content, end)) => Ok((SpecToken::QuotedString(content), end)),
            Err(e) => Err(e),
        }
    } else if has_marker_at(s, i) {
        Ok((SpecToken::ProcessedMarker, i + 14))
    } else if s[i] == '=' {
        Err(Failure { kind: SyntaxErrorKind::UnexpectedCharacter, position: i })
    } else {
        let k = word_end(s, i);
        if k + 1 < s.len() && s[k] == '=' && s[k + 1] == '"' {
            match scan_string(s, k + 1, k + 2) {
                Ok((content, end)) => Ok(
                    (SpecToken::KeyValueFragment(s.subrange(i, k), content), end),
                ),
                Err(e) => Err(e),
            }
        } else if k + 1 < s.len() && s[k] == '=' && spec_is_word_char(s[k + 1]) {
            let v = word_end(s, k + 1);
            Ok((SpecToken::KeyValueFragment(s.subrange(i, k), s.subrange(k + 1, v)), v))
        } else {
            Ok((SpecToken::Identifier(s.subrange(i, k)), k))
        }
    }
}

/// The next token at or after position `i`, with the position just after it;
/// `None` when only blanks are left.
pub open spec fn next_token_at(s: Seq<char>, i: int) -> Result<Option<(SpecToken, int)>, Failure> {
    let j = skip_whitespace(s, i);
    if j >= s.len() {
        Ok(None)
    } else {
        match scan_token(s, j) {
            Ok(found) => Ok(Some(found)),
            Err(e) => Err(e),
        }
    }
}

/// Puts `head` in front of the tokens that the rest of a scan produced.
pub open spec fn prepend_tokens(
    head: Seq<SpecToken>,
    rest: Result<Seq<SpecToken>, Failure>,
) -> Result<Seq<SpecToken>, Failure> {
    match rest {
        Ok(tokens) => Ok(head + tokens),
        Err(e) => Err(e),
    }
}

/// All tokens of `s` from position `i` on, or the first failure met.
pub open spec fn lex_from(s: Seq<char>, i: int) -> Result<Seq<SpecToken>, Failure>
    decreases s.len() - i,
{
    match next_token_at(s, i) {
        Err(e) => Err(e),
        Ok(None) => Ok(Seq::empty()),
        Ok(Some((token, next))) => {
            if i < next <= s.len() {
                prepend_tokens(seq![token], lex_from(s, next))
            } else {
                Ok(seq![token])
            }
        },
    }
}

/// All tokens of the text `s`, or the first failure met.
pub open spec fn spec_tokenize(s: Seq<char>) -> Result<Seq<SpecToken>, Failure> {
    lex_from(s, 0)
}

/// Whether an executable scan result stands for the specified one.
pub open spec fn tokens_match(
    got: Result<Vec<Token>, SyntaxError>,
    want: Result<Seq<SpecToken>, Failure>,
) -> bool {
    match (got, want) {
        (Ok(tokens), Ok(spec_tokens)) => tokens_view(tokens@) == spec_tokens,
        (Err(e), Err(f)) => e@ == f,
        _ => false,
    }
}

/// Whether an executable single-token result stands for the specified one.
pub open spec fn token_matches(
    got: Result<Option<Token>, SyntaxError>,
    want: Result<Option<(SpecToken, int)>, Failure>,
) -> bool {
    match (got, want) {
        (Ok(Some(token)), Ok(Some((spec_token, _)))) => token@ == spec_token,
        (Ok(None), Ok(None)) => true,
        (Err(e), Err(f)) => e@ == f,
        _ => false,
    }
}

/// Skipping blanks moves forward, stays inside the text, and stops at a
/// character that is no blank.
pub proof fn lemma_skip_whitespace_bounds(s: Seq<char>, i: int)
    requires
        0 <= i <= s.len(),
    ensures
        i <= skip_whitespace(s, i) <= s.len(),
        skip_whitespace(s, i) < s.len() ==> !spec_is_whitespace(s[skip_whitespace(s, i)]),
    decreases s.len() - i,
{
    if i < s.len() && spec_is_whitespace(s[i]) {
        lemma_skip_whitespace_bounds(s, i + 1);
    }
}

/// A word runs forward, stays inside the text, holds word characters only,
/// and stops at a character that is none.
pub proof fn lemma_word_end_bounds(s: Seq<char>, i: int)
    requires
        0 <= i <= s.len(),
    ensures
        i <= word_end(s, i) <= s.len(),
        word_end(s, i) < s.len() ==> !spec_is_word_char(s[word_end(s, i)]),
        forall|j: int| i <= j < word_end(s, i) ==> spec_is_word_char(#[trigger] s[j]),
    decreases s.len() - i,
{
    if i < s.len() && spec_is_word_char(s[i]) {
        lemma_word_end_bounds(s, i + 1);
    }
}

/// A quoted string ends after its first character and inside the text.
pub proof fn lemma_scan_string_bounds(s: Seq<char>, open: int, i: int)
    requires
        0 <= i <= s.len(),
    ensures
        scan_string(s, open, i) matches Ok((_, end)) ==> i < end <= s.len(),
    decreases s.len() - i,
{
    if i < s.len() && s[i] != '"' {
        if s[i] == '\\' {
            if i + 1 < s.len() {
                lemma_scan_string_bounds(s, open, i + 2);
            }
        } else {
            lemma_scan_string_bounds(s, open, i + 1);
        }
    }
}

/// A token is never empty and never runs past the end of the text.
pub proof fn lemma_scan_token_bounds(s: Seq<char>, i: int)
    requires
        0 <= i < s.len(),
        !spec_is_whitespace(s[i]),
    ensures
        scan_token(s, i) matches Ok((_, end)) ==> i < end <= s.len(),
{
    lemma_word_end_bounds(s, i);
    lemma_scan_string_bounds(s, i, i + 1);
    let k = word_end(s, i);
    if k + 1 < s.len() {
        lemma_scan_string_bounds(s, k + 1, k + 2);
        lemma_word_end_bounds(s, k + 1);
    }
}

fn scan_whitespace(chars: &Vec<char>, start: usize) -> (end: usize)
    requires
        start <= chars.len(),
    ensures
        end == skip_whitespace(chars@, start as int),
        start <= end <= chars.len(),
{
    let mut i: usize = start;
    while i < chars.len() && is_whitespace(chars[i])
        invariant
            start <= i <= chars.len(),
            skip_whitespace(chars@, start as int) == skip_whitespace(chars@, i as int),
        decreases chars.len() - i,
    {
        i += 1;
    }
    i
}

fn scan_word(chars: &Vec<char>, start: usize) -> (end: usize)
    requires
        start <= chars.len(),
    ensures
        end == word_end(chars@, start as int),
        start <= end <= chars.len(),
{
    let mut i: usize = start;
    while i < chars.len() && is_word_char(chars[i])
        invariant
            start <= i <= chars.len(),
            word_end(chars@, start as int) == word_end(chars@, i as int),
        decreases chars.len() - i,
    {
        i += 1;
    }
    i
}

/// Puts `head` in front of the content that a string scan produced.
pub open spec fn prepend_content(
    head: Seq<char>,
    rest: Result<(Seq<char>, int), Failure>,
) -> Result<(Seq<char>, int), Failure> {
    match rest {
        Ok((content, end)) => Ok((head + content, end)),
        Err(e) => Err(e),
    }
}

/// Whether an executable string scan stands for the specified one.
pub open spec fn content_matches(
    got: Result<(String, usize), SyntaxError>,
    want: Result<(Seq<char>, int), Failure>,
) -> bool {
    match (got, want) {
        (Ok((text, end)), Ok((content, spec_end))) => text@ == content && end == spec_end,
        (Err(e), Err(f)) => e@ == f,
        _ => false,
    }
}

pub(crate) fn scan_quoted(chars: &Vec<char>, open: usize, start: usize) -> (r: Result<
    (String, usize),
    SyntaxError,
>)
    requires
        open < start <= chars.len(),
    ensures
        content_matches(r, scan_string(chars@, open as int, start as int)),
        r matches Ok((_, end)) ==> start < end <= chars.len(),
{
    let mut text = String::new();
    let mut i: usize = start;
    loop
        invariant
            open < start <= i <= chars.len(),
            scan_string(chars@, open as int, start as int) == prepend_content(
                text@,
                scan_string(chars@, open as int, i as int),
            ),
        decreases chars.len() - i,
    {
        if i >= chars.len() {
            return Err(SyntaxError { kind: SyntaxErrorKind::UnterminatedString, position: open });
        }
        let c = chars[i];
        if c == '"' {
            proof {
                assert(text@ + Seq::<char>::empty() =~= text@);
            }
            return Ok((text, i + 1));
        }
        if c == '\\' {
            if i + 1 >= chars.len() {
                return Err(SyntaxError { kind: SyntaxErrorKind::UnterminatedEscape, position: i });
            }
            let escaped = chars[i + 1];
            proof {
                let rest = scan_string(chars@, open as int, i + 2);
                if let Ok((content, end)) = rest {
                    assert(text@.push(escaped) + content =~= text@ + (seq![escaped] + content));
                }
            }
            text.push(escaped);
            i += 2;
        } else {
            proof {
                let rest = scan_string(chars@, open as int, i + 1);
                if let Ok((content, end)) = rest {
                    assert(text@.push(c) + content =~= text@ + (seq![c] + content));
                }
            }
            text.push(c);
            i += 1;
        }
    }
}

fn at_marker(chars: &Vec<char>, i: usize) -> (r: bool)
    requires
        i <= chars.len(),
    ensures
        r == has_marker_at(chars@, i as int),
{
    if chars.len() - i < 14 {
        return false;
    }
    let marker: [char; 14] = ['O', 'r', 'i', 'g', 'i', 'n', 'a', 'l', ' ', 'i', 'n', 'i', 't', ':'];
    assert(marker@ =~= spec_marker());
    let ghost here = chars@.subrange(i as int, i + 14);
    let mut k: usize = 0;
    while k < 14
        invariant
            k <= 14,
            i + 14 <= chars.len(),
            marker@ == spec_marker(),
            here == chars@.subrange(i as int, i + 14),
            forall|j: int| 0 <= j < k ==> here[j] == spec_marker()[j],
        decreases 14 - k,
    {
        if chars[i + k] != marker[k] {
            assert(here[k as int] != spec_marker()[k as int]);
            return false;
        }
        k += 1;
    }
    assert(here =~= spec_marker());
    true
}

/// Whether an executable token scan stands for the specified one.
pub open spec fn scan_matches(
    got: Result<(Token, usize), SyntaxError>,
    want: Result<(SpecToken, int), Failure>,
) -> bool {
    match (got, want) {
        (Ok((token, end)), Ok((spec_token, spec_end))) => token@ == spec_token && end == spec_end,
        (Err(e), Err(f)) => e@ == f,
        _ => false,
    }
}

fn scan_one(chars: &Vec<char>, i: usize) -> (r: Result<(Token, usize), SyntaxError>)
    requires
        i < chars.len(),
        !spec_is_whitespace(chars@[i as int]),
    ensures
        scan_matches(r, scan_token(chars@, i as int)),
        r matches Ok((_, end)) ==> i < end <= chars.len(),
{
    proof {
        lemma_scan_token_bounds(chars@, i as int);
    }
    let c = chars[i];
    if c == '(' {
        Ok((Token::Open, i + 1))
    } else if c == ')' {
        Ok((Token::Close, i + 1))
    } else if c == '"' {
        match scan_quoted(chars, i, i + 1) {
            Ok((text, end)) => Ok((Token::QuotedString(text), end)),
            Err(e) => Err(e),
        }
    } else if at_marker(chars, i) {
        Ok((Token::ProcessedMarker, i + 14))
    } else if c == '=' {
        Err(SyntaxError { kind: SyntaxErrorKind::UnexpectedCharacter, position: i })
    } else {
        let k = scan_word(chars, i);
        let has_value = k < chars.len() && chars[k] == '=' && k + 1 < chars.len();
        if has_value && chars[k + 1] == '"' {
            let key = string_of(chars, i, k);
            match scan_quoted(chars, k + 1, k + 2) {
                Ok((text, end)) => Ok((Token::KeyValueFragment(key, text), end)),
                Err(e) => Err(e),
            }
        } else if has_value && is_word_char(chars[k + 1]) {
            let v = scan_word(chars, k + 1);
            let key = string_of(chars, i, k);
            let value = string_of(chars, k + 1, v);
            Ok((Token::KeyValueFragment(key, value), v))
        } else {
            let word = string_of(chars, i, k);
            Ok((Token::Identifier(word), k))
        }
    }
}

/// A scanner over one text. It owns the characters and a scan position and
/// hands the tokens out one at a time, from left to right.
pub struct Lexer {
    chars: Vec<char>,
    pos: usize,
}

impl Lexer {
    #[verifier::type_invariant]
    spec fn in_bounds(self) -> bool {
        self.pos <= self.chars.len()
    }

    /// The text being scanned.
    pub closed spec fn text(&self) -> Seq<char> {
        self.chars@
    }

    /// The position of the next character to look at.
    pub closed spec fn position(&self) -> int {
        self.pos as int
    }

    /// A scanner at the start of `input`.
    pub fn new(input: &str) -> (lexer: Lexer)
        ensures
            lexer.text() == input@,
            lexer.position() == 0,
    {
        Lexer { chars: chars_of(input), pos: 0 }
    }

    /// Reads the next token and moves past it. `Ok(None)` means that only
    /// blanks were left; after a failure the scanner stays where it was.
    pub fn next_token(&mut self) -> (r: Result<Option<Token>, SyntaxError>)
        ensures
            final(self).text() == old(self).text(),
            token_matches(r, next_token_at(old(self).text(), old(self).position())),
            match next_token_at(old(self).text(), old(self).position()) {
                Ok(Some((_, next))) => final(self).position() == next && old(self).position() < next
                    <= old(self).text().len(),
                Ok(None) => final(self).position() == old(self).text().len(),
                Err(_) => final(self).position() == old(self).position(),
            },
    {
        proof {
            use_type_invariant(&*self);
        }
        let j = scan_whitespace(&self.chars, self.pos);
        if j >= self.chars.len() {
            self.pos = j;
            return Ok(None);
        }
        proof {
            lemma_skip_whitespace_bounds(self.chars@, self.pos as int);
        }
        match scan_one(&self.chars, j) {
            Ok((token, end)) => {
                self.pos = end;
                Ok(Some(token))
            },
            Err(e) => Err(e),
        }
    }

    /// Reads all remaining tokens. On failure no token is returned.
    pub fn tokenize(&mut self) -> (r: Result<Vec<Token>, SyntaxError>)
        ensures
            final(self).text() == old(self).text(),
            tokens_match(r, lex_from(old(self).text(), old(self).position())),
    {
        proof {
            use_type_invariant(&*self);
        }
        let mut tokens: Vec<Token> = Vec::new();
        let ghost start = self.pos as int;
        let ghost s = self.chars@;
        proof {
            if let Ok(all) = lex_from(s, start) {
                assert(tokens_view(tokens@) + all =~= all);
            }
        }
        loop
            invariant
                self.text() == s,
                s == old(self).text(),
                start == old(self).position(),
                start <= self.position() <= s.len(),
                lex_from(s, start) == prepend_tokens(
                    tokens_view(tokens@),
                    lex_from(s, self.position()),
                ),
            decreases s.len() - self.position(),
        {
            let ghost before = tokens_view(tokens@);
            match self.next_token() {
                Err(e) => {
                    return Err(e);
                },
                Ok(None) => {
                    proof {
                        assert(before + Seq::<SpecToken>::empty() =~= before);
                    }
                    return Ok(tokens);
                },
                Ok(Some(token)) => {
                    proof {
                        let rest = lex_from(s, self.position());
                        assert(tokens_view(tokens@.push(token)) =~= before.push(token@));
                        if let Ok(more) = rest {
                            assert(before.push(token@) + more =~= before + (seq![token@] + more));
                        }
                    }
                    tokens.push(token);
                },
            }
        }
    }
}

/// The tokens of `input`, or the first failure met. Every identifier and
/// every key among the tokens is a bare word.
pub fn tokenize(input: &str) -> (r: Result<Vec<Token>, SyntaxError>)
    ensures
        tokens_match(r, spec_tokenize(input@)),
        r matches Ok(tokens) ==> tokens_well_formed(tokens_view(tokens@)),
{
    proof {
        lemma_lex_well_formed(input@, 0);
    }
    let mut lexer = Lexer::new(input);
    lexer.tokenize()
}

} // verus!

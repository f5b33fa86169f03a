//! The single failure that reading a dump can end in.

use vstd::prelude::*;
use vstd::string::StringExecFns;

verus! {

/// What was wrong with the input.
#[derive(Clone, Copy, Debug, PartialEq, Eq, Structural)]
pub enum SyntaxErrorKind {
    /// A quoted string was still open when the input ended.
    UnterminatedString,
    /// The input ended right after a backslash inside a quoted string.
    UnterminatedEscape,
    /// An equals sign stood where no `key=value` fragment could be formed.
    UnexpectedCharacter,
    /// A token stood where the grammar allows none of its kind.
    UnexpectedToken,
    /// A closing parenthesis stood outside every node.
    UnmatchedClose,
    /// The tokens ran out while a node was still open.
    UnexpectedEnd,
}

/// A syntax failure together with the place where it was detected.
///
/// For the tokenizer the position counts characters from the start of the
/// text; for the tree builder it counts tokens from the start of the token
/// sequence.
#[derive(Clone, Copy, Debug, PartialEq, Eq, Structural)]
pub struct SyntaxError {
    pub kind: SyntaxErrorKind,
    pub position: usize,
}

/// The mathematical counterpart of [`SyntaxError`].
pub struct Failure {
    pub kind: SyntaxErrorKind,
    pub position: int,
}

impl View for SyntaxError {
    type V = Failure;

    open spec fn view(&self) -> Failure {
        Failure { kind: self.kind, position: self.position as int }
    }
}

/// The character that stands for a digit.
pub open spec fn spec_digit(d: int) -> char {
    if d == 0 {
        '0'
    } else if d == 1 {
        '1'
    } else if d == 2 {
        '2'
    } else if d == 3 {
        '3'
    } else if d == 4 {
        '4'
    } else if d == 5 {
        '5'
    } else if d == 6 {
        '6'
    } else if d == 7 {
        '7'
    } else if d == 8 {
        '8'
    } else {
        '9'
    }
}

/// The decimal digits of `n`, the most significant first, without leading
/// zeros.
pub open spec fn decimal(n: nat) -> Seq<char>
    decreases n,
{
    if n < 10 {
        seq![spec_digit(n as int)]
    } else {
        decimal(n / 10).push(spec_digit((n % 10) as int))
    }
}

fn digit(d: usize) -> (c: char)
    requires
        d < 10,
    ensures
        c == spec_digit(d as int),
{
    if d == 0 {
        '0'
    } else if d == 1 {
        '1'
    } else if d == 2 {
        '2'
    } else if d == 3 {
        '3'
    } else if d == 4 {
        '4'
    } else if d == 5 {
        '5'
    } else if d == 6 {
        '6'
    } else if d == 7 {
        '7'
    } else if d == 8 {
        '8'
    } else {
        '9'
    }
}

fn write_decimal(n: usize, out: &mut String)
    ensures
        final(out)@ == old(out)@ + decimal(n as nat),
    decreases n,
{
    let ghost before = out@;
    if n >= 10 {
        write_decimal(n / 10, out);
    }
    out.push(digit(n % 10));
    proof {
        assert(out@ =~= before + decimal(n as nat));
    }
}

impl SyntaxError {
    /// The description of the failure and where it was met: the message of
    /// the kind, the unit in which the position counts, and the position in
    /// decimal digits.
    pub open spec fn spec_description(&self) -> Seq<char> {
        let unit = if self.kind.spec_counts_tokens() {
            " at token "@
        } else {
            " at character "@
        };
        self.kind.spec_message() + unit + decimal(self.position as nat)
    }

    /// A description of the failure, suitable for showing to a user.
    pub fn description(&self) -> (text: String)
        ensures
            text@ == self.spec_description(),
    {
        let mut text = String::new();
        text.append(self.kind.message());
        if self.kind.counts_tokens() {
            text.append(" at token ");
        } else {
            text.append(" at character ");
        }
        write_decimal(self.position, &mut text);
        proof {
            assert(text@ =~= self.spec_description());
        }
        text
    }
}

impl SyntaxErrorKind {
    /// Whether a failure of this kind is met by the tree builder, so that
    /// its position counts tokens; the other kinds are met by the
    /// tokenizer, and their positions count characters.
    pub open spec fn spec_counts_tokens(&self) -> bool {
        match self {
            SyntaxErrorKind::UnexpectedToken => true,
            SyntaxErrorKind::UnmatchedClose => true,
            SyntaxErrorKind::UnexpectedEnd => true,
            _ => false,
        }
    }

    /// Whether the position of a failure of this kind counts tokens rather
    /// than characters.
    pub fn counts_tokens(&self) -> (r: bool)
        ensures
            r == self.spec_counts_tokens(),
    {
        match self {
            SyntaxErrorKind::UnexpectedToken => true,
            SyntaxErrorKind::UnmatchedClose => true,
            SyntaxErrorKind::UnexpectedEnd => true,
            _ => false,
        }
    }

    /// A short, fixed description suitable for showing to a user.
    pub fn message(&self) -> (m: &'static str)
        ensures
            m@ == self.spec_message(),
    {
        match self {
            SyntaxErrorKind::UnterminatedString => "unterminated quoted string",
            SyntaxErrorKind::UnterminatedEscape => "unterminated escape sequence",
            SyntaxErrorKind::UnexpectedCharacter => "unexpected character",
            SyntaxErrorKind::UnexpectedToken => "unexpected token",
            SyntaxErrorKind::UnmatchedClose => "unmatched closing parenthesis",
            SyntaxErrorKind::UnexpectedEnd => "unexpected end of input",
        }
    }

    /// The description of each kind.
    pub open spec fn spec_message(&self) -> Seq<char> {
        match self {
            SyntaxErrorKind::UnterminatedString => "unterminated quoted string"@,
            SyntaxErrorKind::UnterminatedEscape => "unterminated escape sequence"@,
            SyntaxErrorKind::UnexpectedCharacter => "unexpected character"@,
            SyntaxErrorKind::UnexpectedToken => "unexpected token"@,
            SyntaxErrorKind::UnmatchedClose => "unmatched closing parenthesis"@,
            SyntaxErrorKind::UnexpectedEnd => "unexpected end of input"@,
        }
    }
}

} // verus!

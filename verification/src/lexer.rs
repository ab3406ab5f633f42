//! Classifies source characters into tokens, one token per character.

use vstd::prelude::*;

verus! {

/// The classification of one source character. The eight instruction
/// characters each have their own token; every other character, whitespace
/// and newlines included, is a [`Token::Comment`].
#[derive(Clone, Copy, Debug, PartialEq, Eq, Structural)]
pub enum Token {
    ShiftRight,
    ShiftLeft,
    Increment,
    Decrement,
    Output,
    Input,
    LoopOpen,
    LoopClose,
    Comment,
}

/// The token that stands for one character. Total: every character maps to
/// exactly one token, and anything unrecognized is a comment.
pub open spec fn spec_classify(c: char) -> Token {
    if c == '>' {
        Token::ShiftRight
    } else if c == '<' {
        Token::ShiftLeft
    } else if c == '+' {
        Token::Increment
    } else if c == '-' {
        Token::Decrement
    } else if c == '.' {
        Token::Output
    } else if c == ',' {
        Token::Input
    } else if c == '[' {
        Token::LoopOpen
    } else if c == ']' {
        Token::LoopClose
    } else {
        Token::Comment
    }
}

/// The token sequence of a character sequence: as long as the input, in the
/// input's order.
pub open spec fn spec_tokenize(s: Seq<char>) -> Seq<Token> {
    s.map_values(|c: char| spec_classify(c))
}

impl Token {
    /// Classifies one character. Lexing never fails.
    pub fn from_char(c: char) -> (t: Token)
        ensures
            t == spec_classify(c),
    {
        match c {
            '>' => Token::ShiftRight,
            '<' => Token::ShiftLeft,
            '+' => Token::Increment,
            '-' => Token::Decrement,
            '.' => Token::Output,
            ',' => Token::Input,
            '[' => Token::LoopOpen,
            ']' => Token::LoopClose,
            _ => Token::Comment,
        }
    }
}

/// Maps a source text to its token sequence: one token per character, in the
/// original order.
pub fn tokenize(input: &str) -> (r: Vec<Token>)
    ensures
        r@ == spec_tokenize(input@),
{
    let n = input.unicode_len();
    let mut r: Vec<Token> = Vec::new();
    let mut i: usize = 0;
    while i < n
        invariant
            n == input@.len(),
            i <= n,
            r@.len() == i,
            forall|j: int| 0 <= j < i ==> r@[j] == spec_classify(input@[j]),
        decreases n - i,
    {
        let c = input.get_char(i);
        r.push(Token::from_char(c));
        i += 1;
    }
    assert(r@ =~= spec_tokenize(input@));
    r
}

} // verus!

//! Tokens of a field-path expression.
//!
//! An expression such as `*mm->owner.pid` is a run of member names joined by
//! `.` (a field of the same object) and `->` (a field reached through a
//! pointer), with an optional leading `*`. A name is any run of characters that
//! holds neither `.` nor `-`.

use vstd::prelude::*;
use crate::text::{chars_of, string_of};

verus! {

#[derive(Debug, Clone, PartialEq, Eq)]
pub enum Token {
    Member(String),
    Access,
    Valof,
    Deref,
}

/// A token as a mathematical value: a member name is a sequence of characters.
pub enum Tok {
    Member(Seq<char>),
    Access,
    Valof,
    Deref,
}

impl View for Token {
    type V = Tok;

    open spec fn view(&self) -> Tok {
        match self {
            Token::Member(name) => Tok::Member(name@),
            Token::Access => Tok::Access,
            Token::Valof => Tok::Valof,
            Token::Deref => Tok::Deref,
        }
    }
}

/// What scanning finds at a position of the input.
pub enum Scan {
    /// A token, and the position just behind it.
    Token(Tok, int),
    /// Nothing is left.
    End,
    /// A `-` that no `>` follows.
    Error,
}

/// A character that ends a member name.
pub open spec fn is_delimiter(c: char) -> bool {
    c == '.' || c == '-'
}

/// The first position at or behind `from` that holds a delimiter, or the
/// length of the input where none does.
pub open spec fn member_end(s: Seq<char>, from: int) -> int
    decreases s.len() - from,
{
    if from < 0 || from >= s.len() {
        s.len() as int
    } else if is_delimiter(s[from]) {
        from
    } else {
        member_end(s, from + 1)
    }
}

/// The token that starts at `pos`.
pub open spec fn scan(s: Seq<char>, pos: int) -> Scan {
    if pos < 0 || pos >= s.len() {
        Scan::End
    } else if s[pos] == '.' {
        Scan::Token(Tok::Access, pos + 1)
    } else if s[pos] == '*' {
        Scan::Token(Tok::Valof, pos + 1)
    } else if s[pos] == '-' {
        if pos + 1 < s.len() && s[pos + 1] == '>' {
            Scan::Token(Tok::Deref, pos + 2)
        } else {
            Scan::Error
        }
    } else {
        let end = member_end(s, pos + 1);
        Scan::Token(Tok::Member(s.subrange(pos, end)), end)
    }
}

/// `member_end` is the least position from `from` on that holds a delimiter.
pub proof fn lemma_member_end(s: Seq<char>, from: int)
    requires
        0 <= from <= s.len(),
    ensures
        from <= member_end(s, from) <= s.len(),
        forall|i: int| from <= i < member_end(s, from) ==> !is_delimiter(#[trigger] s[i]),
        member_end(s, from) < s.len() ==> is_delimiter(s[member_end(s, from)]),
    decreases s.len() - from,
{
    if from < s.len() && !is_delimiter(s[from]) {
        lemma_member_end(s, from + 1);
    }
}

/// A token is never empty and ends within the input.
pub proof fn lemma_scan_advances(s: Seq<char>, pos: int)
    requires
        0 <= pos <= s.len(),
    ensures
        scan(s, pos) matches Scan::Token(_, next) ==> pos < next <= s.len(),
        scan(s, pos) is End <==> pos == s.len(),
{
    if pos < s.len() {
        lemma_member_end(s, pos + 1);
    }
}

/// Every token from `pos` to the end of the input, or `None` where scanning
/// meets a `-` that no `>` follows.
pub open spec fn tokens(s: Seq<char>, pos: int) -> Option<Seq<Tok>>
    decreases s.len() - pos,
{
    match scan(s, pos) {
        Scan::End => Some(Seq::empty()),
        Scan::Error => None,
        Scan::Token(tok, next) => {
            proof {
                lemma_scan_advances(s, pos);
            }
            match tokens(s, next) {
                Some(rest) => Some(seq![tok] + rest),
                None => None,
            }
        },
    }
}

/// Scanner over the characters of one expression.
pub struct Lexer {
    s: Vec<char>,
    pos: usize,
}

impl Lexer {
    #[verifier::type_invariant]
    spec fn in_bounds(self) -> bool {
        self.pos <= self.s.len()
    }

    /// The expression being scanned.
    pub closed spec fn input(&self) -> Seq<char> {
        self.s@
    }

    /// The position of the next character to scan.
    pub closed spec fn position(&self) -> int {
        self.pos as int
    }

    pub fn new(s: String) -> (lexer: Self)
        ensures
            lexer.input() == s@,
            lexer.position() == 0,
    {
        Lexer { s: chars_of(s.as_str()), pos: 0 }
    }

    /// Whether every character has been scanned.
    pub fn at_end(&self) -> (end: bool)
        ensures
            end == (self.position() == self.input().len()),
            0 <= self.position() <= self.input().len(),
    {
        proof {
            use_type_invariant(self);
        }
        self.pos == self.s.len()
    }

    /// Scans one token and moves behind it. Returns `None`, and stays in place,
    /// at the end of the input and at a `-` that no `>` follows.
    pub fn next_token(&mut self) -> (token: Option<Token>)
        ensures
            final(self).input() == old(self).input(),
            match scan(old(self).input(), old(self).position()) {
                Scan::Token(tok, next) => {
                    &&& token matches Some(t)
                    &&& t@ == tok
                    &&& final(self).position() == next
                },
                _ => token is None && final(self).position() == old(self).position(),
            },
    {
        proof {
            use_type_invariant(&*self);
        }
        let len = self.s.len();
        if self.pos >= len {
            return None;
        }
        let start: usize = self.pos;
        let c = self.s[start];
        if c == '.' {
            self.pos = start + 1;
            Some(Token::Access)
        } else if c == '*' {
            self.pos = start + 1;
            Some(Token::Valof)
        } else if c == '-' {
            if start + 1 >= len || self.s[start + 1] != '>' {
                return None;
            }
            self.pos = start + 2;
            Some(Token::Deref)
        } else {
            let mut end: usize = start + 1;
            while end < len && self.s[end] != '.' && self.s[end] != '-'
                invariant
                    start < end <= len,
                    len == self.s.len(),
                    member_end(self.s@, start + 1) == member_end(self.s@, end as int),
                decreases len - end,
            {
                end += 1;
            }
            let name = string_of(&self.s, start, end);
            self.pos = end;
            Some(Token::Member(name))
        }
    }
}

} // verus!

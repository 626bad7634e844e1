use crate::error::Error;
use vstd::prelude::*;

verus! {

/// A set of kinds of tokens.
#[derive(Debug, Clone, Copy, PartialEq, Eq, Structural)]
pub struct TokenSet {
    pub negate: bool,
    pub separator: bool,
    pub star: bool,
    pub question: bool,
    pub square_start: bool,
    pub square_end: bool,
    pub dash: bool,
    pub literal: bool,
}

/// A token pulled from the tokenizer.
#[derive(Debug, Clone, Copy, PartialEq, Eq, Structural)]
pub enum Token {
    Ending,
    Negate,
    Separator,
    Star,
    Question,
    SquareStart,
    SquareEnd,
    Dash,
}

impl TokenSet {
    pub open spec fn is_empty_spec(self) -> bool {
        !self.negate && !self.separator && !self.star && !self.question && !self.square_start
            && !self.square_end && !self.dash && !self.literal
    }

    /// The token that the character `c` stands for, if its kind is in this set.
    pub open spec fn token_of(self, c: char) -> Option<Token> {
        if c == '!' && self.negate {
            Some(Token::Negate)
        } else if c == '/' && self.separator {
            Some(Token::Separator)
        } else if c == '*' && self.star {
            Some(Token::Star)
        } else if c == '?' && self.question {
            Some(Token::Question)
        } else if c == '[' && self.square_start {
            Some(Token::SquareStart)
        } else if c == ']' && self.square_end {
            Some(Token::SquareEnd)
        } else if c == '-' && self.dash {
            Some(Token::Dash)
        } else {
            None
        }
    }

    /// The set that holds no kind.
    pub fn empty() -> (r: TokenSet)
        ensures
            r.is_empty_spec(),
    {
        TokenSet {
            negate: false,
            separator: false,
            star: false,
            question: false,
            square_start: false,
            square_end: false,
            dash: false,
            literal: false,
        }
    }

    /// The set of the kinds in either set.
    pub fn union(self, other: TokenSet) -> (r: TokenSet)
        ensures
            r.negate == (self.negate || other.negate),
            r.separator == (self.separator || other.separator),
            r.star == (self.star || other.star),
            r.question == (self.question || other.question),
            r.square_start == (self.square_start || other.square_start),
            r.square_end == (self.square_end || other.square_end),
            r.dash == (self.dash || other.dash),
            r.literal == (self.literal || other.literal),
    {
        TokenSet {
            negate: self.negate || other.negate,
            separator: self.separator || other.separator,
            star: self.star || other.star,
            question: self.question || other.question,
            square_start: self.square_start || other.square_start,
            square_end: self.square_end || other.square_end,
            dash: self.dash || other.dash,
            literal: self.literal || other.literal,
        }
    }

    /// The set of the one kind `Negate`.
    pub fn negate() -> (r: TokenSet)
        ensures
            r == (TokenSet { negate: true, ..TokenSet::empty_spec() }),
    {
        TokenSet { negate: true, ..TokenSet::empty() }
    }

    /// The set of the one kind `Separator`.
    pub fn separator() -> (r: TokenSet)
        ensures
            r == (TokenSet { separator: true, ..TokenSet::empty_spec() }),
    {
        TokenSet { separator: true, ..TokenSet::empty() }
    }

    /// The set of the one kind `Star`.
    pub fn star() -> (r: TokenSet)
        ensures
            r == (TokenSet { star: true, ..TokenSet::empty_spec() }),
    {
        TokenSet { star: true, ..TokenSet::empty() }
    }

    /// The set of the one kind `Question`.
    pub fn question() -> (r: TokenSet)
        ensures
            r == (TokenSet { question: true, ..TokenSet::empty_spec() }),
    {
        TokenSet { question: true, ..TokenSet::empty() }
    }

    /// The set of the one kind `SquareStart`.
    pub fn square_start() -> (r: TokenSet)
        ensures
            r == (TokenSet { square_start: true, ..TokenSet::empty_spec() }),
    {
        TokenSet { square_start: true, ..TokenSet::empty() }
    }

    /// The set of the one kind `SquareEnd`.
    pub fn square_end() -> (r: TokenSet)
        ensures
            r == (TokenSet { square_end: true, ..TokenSet::empty_spec() }),
    {
        TokenSet { square_end: true, ..TokenSet::empty() }
    }

    /// The set of the one kind `Literal`.
    pub fn literal() -> (r: TokenSet)
        ensures
            r == (TokenSet { literal: true, ..TokenSet::empty_spec() }),
    {
        TokenSet { literal: true, ..TokenSet::empty() }
    }

    pub open spec fn empty_spec() -> TokenSet {
        TokenSet {
            negate: false,
            separator: false,
            star: false,
            question: false,
            square_start: false,
            square_end: false,
            dash: false,
            literal: false,
        }
    }

    /// Whether this set holds no kind.
    pub fn is_empty(self) -> (r: bool)
        ensures
            r == self.is_empty_spec(),
    {
        !self.negate && !self.separator && !self.star && !self.question && !self.square_start
            && !self.square_end && !self.dash && !self.literal
    }

    /// The token that `target` stands for, if its kind is in this set.
    pub fn test_char(self, target: char) -> (r: Option<Token>)
        ensures
            r == self.token_of(target),
    {
        if target == '!' && self.negate {
            Some(Token::Negate)
        } else if target == '/' && self.separator {
            Some(Token::Separator)
        } else if target == '*' && self.star {
            Some(Token::Star)
        } else if target == '?' && self.question {
            Some(Token::Question)
        } else if target == '[' && self.square_start {
            Some(Token::SquareStart)
        } else if target == ']' && self.square_end {
            Some(Token::SquareEnd)
        } else if target == '-' && self.dash {
            Some(Token::Dash)
        } else {
            None
        }
    }
}

/// The first position at or after `i` whose character stands for a token of `follow`, or the
/// length of `s` if there is none.
pub open spec fn literal_end(s: Seq<char>, i: int, follow: TokenSet) -> int
    decreases s.len() - i,
{
    if i >= s.len() {
        s.len() as int
    } else if follow.token_of(s[i]) is Some {
        i
    } else {
        literal_end(s, i + 1, follow)
    }
}

pub proof fn lemma_literal_end(s: Seq<char>, i: int, follow: TokenSet)
    requires
        0 <= i <= s.len(),
    ensures
        i <= literal_end(s, i, follow) <= s.len(),
        literal_end(s, i, follow) < s.len() ==> follow.token_of(s[literal_end(s, i, follow)]) is Some,
        forall|k: int| i <= k < literal_end(s, i, follow) ==> follow.token_of(#[trigger] s[k]) is None,
    decreases s.len() - i,
{
    if i < s.len() && follow.token_of(s[i]) is None {
        lemma_literal_end(s, i + 1, follow);
    }
}

/// The number of bytes that UTF-8 takes for `c`.
pub open spec fn utf8_width(c: char) -> nat {
    let u = c as u32;
    if u < 0x80 {
        1
    } else if u < 0x800 {
        2
    } else if u < 0x10000 {
        3
    } else {
        4
    }
}

/// The byte offset, in UTF-8, of position `i` of `s`.
pub open spec fn byte_offset(s: Seq<char>, i: int) -> nat
    decreases i,
{
    if i <= 0 {
        0
    } else {
        byte_offset(s, i - 1) + utf8_width(s[i - 1])
    }
}

/// `n`, or `usize::MAX` where it does not fit.
pub open spec fn capped(n: nat) -> usize {
    if n > usize::MAX {
        usize::MAX
    } else {
        n as usize
    }
}

/// A cursor over the characters of a pattern, with a restart point.
pub struct Tokenizer {
    text: String,
    inner: Vec<char>,
    index: usize,
    last_index: usize,
}

impl Tokenizer {
    /// The characters of the pattern.
    pub closed spec fn chars(&self) -> Seq<char> {
        self.inner@
    }

    /// The position of the cursor.
    pub closed spec fn pos(&self) -> int {
        self.index as int
    }

    /// The restart point.
    pub closed spec fn mark(&self) -> int {
        self.last_index as int
    }

    /// The pattern as it was given.
    pub closed spec fn source(&self) -> Seq<char> {
        self.text@
    }

    pub closed spec fn wf(&self) -> bool {
        &&& self.index <= self.inner@.len()
        &&& self.last_index <= self.inner@.len()
        &&& self.text@ == self.inner@
    }

    /// The cursor and the restart point lie within the pattern.
    pub proof fn lemma_bounds(&self)
        requires
            self.wf(),
        ensures
            0 <= self.pos() <= self.chars().len(),
            0 <= self.mark() <= self.chars().len(),
            self.source() == self.chars(),
    {
    }

    /// Create a new tokenizer, at the start of `inner`.
    pub fn new(inner: &str) -> (r: Tokenizer)
        ensures
            r.wf(),
            r.chars() == inner@,
            r.source() == inner@,
            r.pos() == 0,
            r.mark() == 0,
    {
        Tokenizer { text: inner.to_string(), inner: chars_of(inner), index: 0, last_index: 0 }
    }

    /// Commit the cursor as the restart point.
    pub fn flush(&mut self)
        requires
            old(self).wf(),
        ensures
            final(self).wf(),
            final(self).chars() == old(self).chars(),
            final(self).source() == old(self).source(),
            final(self).pos() == old(self).pos(),
            final(self).mark() == old(self).pos(),
    {
        self.last_index = self.index;
    }

    /// Rewind the cursor to the restart point.
    pub fn reset(&mut self)
        requires
            old(self).wf(),
        ensures
            final(self).wf(),
            final(self).chars() == old(self).chars(),
            final(self).source() == old(self).source(),
            final(self).pos() == old(self).mark(),
            final(self).mark() == old(self).mark(),
    {
        self.index = self.last_index;
    }

    /// Take a token from the cursor, if its kind is in `accepted`, and step over it. An empty
    /// set matches the end of the pattern, giving `Ending`.
    pub fn next_token(&mut self, accepted: TokenSet) -> (r: Option<Token>)
        requires
            old(self).wf(),
        ensures
            final(self).wf(),
            final(self).chars() == old(self).chars(),
            final(self).source() == old(self).source(),
            final(self).mark() == old(self).mark(),
            accepted.is_empty_spec() ==> {
                &&& r == (if old(self).pos() == old(self).chars().len() {
                    Some(Token::Ending)
                } else {
                    None::<Token>
                })
                &&& final(self).pos() == old(self).pos()
            },
            !accepted.is_empty_spec() ==> {
                &&& r == (if old(self).pos() < old(self).chars().len() {
                    accepted.token_of(old(self).chars()[old(self).pos()])
                } else {
                    None::<Token>
                })
                &&& final(self).pos() == (if r is Some {
                    old(self).pos() + 1
                } else {
                    old(self).pos()
                })
            },
    {
        if accepted.is_empty() {
            if self.index == self.inner.len() {
                return Some(Token::Ending);
            } else {
                return None;
            }
        }
        if self.index < self.inner.len() {
            let output = accepted.test_char(self.inner[self.index]);
            if output.is_some() {
                self.index += 1;
            }
            output
        } else {
            None
        }
    }

    /// Take the run of characters from the cursor up to (not including) the first that stands
    /// for a token of `follow`, or up to the end. An empty run gives `None`.
    pub fn read_literal(&mut self, follow: TokenSet) -> (r: Option<Vec<char>>)
        requires
            old(self).wf(),
        ensures
            final(self).wf(),
            final(self).chars() == old(self).chars(),
            final(self).source() == old(self).source(),
            final(self).mark() == old(self).mark(),
            final(self).pos() == literal_end(old(self).chars(), old(self).pos(), follow),
            match r {
                None => final(self).pos() == old(self).pos(),
                Some(v) => final(self).pos() > old(self).pos() && v@ == old(self).chars().subrange(
                    old(self).pos(),
                    final(self).pos(),
                ),
            },
    {
        proof {
            lemma_literal_end(self.inner@, self.index as int, follow);
        }
        let start = self.index;
        let mut end = self.index;
        let mut out: Vec<char> = Vec::new();
        while end < self.inner.len() && follow.test_char(self.inner[end]).is_none()
            invariant
                self.wf(),
                start <= end <= self.inner@.len(),
                literal_end(self.inner@, start as int, follow) == literal_end(
                    self.inner@,
                    end as int,
                    follow,
                ),
                out@ == self.inner@.subrange(start as int, end as int),
            decreases self.inner@.len() - end,
        {
            out.push(self.inner[end]);
            end += 1;
            proof {
                assert(out@ =~= self.inner@.subrange(start as int, end as int));
            }
        }
        self.index = end;
        if end == start {
            None
        } else {
            Some(out)
        }
    }

    /// The error for a pattern that does not parse at the cursor, where a token of
    /// `token_set` was wanted; it gives the cursor as a byte offset.
    pub fn error(&self, token_set: TokenSet) -> (r: Error)
        requires
            self.wf(),
        ensures
            r matches Error::InvalidGlobParse(p, t, i) && p@ == self.source() && t == token_set && i
                == capped(byte_offset(self.chars(), self.pos())),
    {
        let mut offset: usize = 0;
        let mut k: usize = 0;
        while k < self.index
            invariant
                self.wf(),
                k <= self.index,
                offset == capped(byte_offset(self.inner@, k as int)),
            decreases self.index - k,
        {
            let u = self.inner[k] as u32;
            let width: usize = if u < 0x80 {
                1
            } else if u < 0x800 {
                2
            } else if u < 0x10000 {
                3
            } else {
                4
            };
            if offset > usize::MAX - width {
                offset = usize::MAX;
            } else {
                offset = offset + width;
            }
            k = k + 1;
        }
        Error::InvalidGlobParse(self.text.clone(), token_set, offset)
    }
}

/// The characters of `s`, in order.
fn chars_of(s: &str) -> (r: Vec<char>)
    ensures
        r@ == s@,
{
    let n = s.unicode_len();
    let mut r: Vec<char> = Vec::new();
    let mut i: usize = 0;
    while i < n
        invariant
            n == s@.len(),
            i <= n,
            r@ == s@.take(i as int),
        decreases n - i,
    {
        r.push(s.get_char(i));
        i = i + 1;
        proof {
            assert(r@ =~= s@.take(i as int));
        }
    }
    proof {
        assert(s@.take(n as int) =~= s@);
    }
    r
}

} // verus!

use vstd::prelude::*;

verus! {

/// A half-open range of character offsets into the source text.
#[derive(Clone, Copy, Debug, PartialEq, Eq, Structural)]
pub struct Span {
    pub start: usize,
    pub end: usize,
}

/// What a token is, with its payload for literals.
#[derive(Debug, PartialEq, Eq)]
pub enum TokenKind {
    Load,
    As,
    Goto,
    Type,
    TypeNl,
    NoNewline,
    Insert,
    Replace,
    Delete,
    Speed,
    Select,
    Find,
    LinePause,
    Wait,
    Str(String),
    Int(i128),
    Ident(String),
    Newline,
    Comment,
    Whitespace,
    Eof,
}

/// A token together with where it stands in the source.
#[derive(Debug, PartialEq, Eq)]
pub struct Token {
    pub kind: TokenKind,
    pub span: Span,
}

/// The token at the front of a stream; a drained stream reads as end of file.
pub open spec fn head(ts: Seq<Token>) -> Token {
    if ts.len() > 0 {
        ts[0]
    } else {
        Token { kind: TokenKind::Eof, span: Span { start: 0, end: 0 } }
    }
}

/// The stream after its front token; the final end-of-file token is never consumed.
pub open spec fn tail(ts: Seq<Token>) -> Seq<Token> {
    if ts.len() > 1 {
        ts.drop_first()
    } else {
        ts
    }
}

/// A stream is well formed when it ends in its one and only end-of-file token.
pub open spec fn stream_wf(ts: Seq<Token>) -> bool {
    &&& ts.len() >= 1
    &&& ts.last().kind is Eof
    &&& forall|k: int| 0 <= k < ts.len() - 1 ==> !(#[trigger] ts[k].kind is Eof)
}

/// A cursor over a lexed token sequence.
///
/// The tokens are kept in reverse so that consuming the front is a `pop`.
pub struct Tokens {
    rev: Vec<Token>,
}

impl Tokens {
    /// The tokens not consumed yet, front first.
    pub closed spec fn rest(&self) -> Seq<Token> {
        self.rev@.reverse()
    }

    pub fn new(tokens: Vec<Token>) -> (r: Tokens)
        requires
            stream_wf(tokens@),
        ensures
            r.rest() == tokens@,
    {
        let mut tokens = tokens;
        let ghost orig = tokens@;
        let mut rev: Vec<Token> = Vec::new();
        while tokens.len() > 0
            invariant
                orig == tokens@ + rev@.reverse(),
            decreases tokens.len(),
        {
            let t = tokens.pop().unwrap();
            proof {
                assert(rev@.push(t).reverse() =~= seq![t] + rev@.reverse());
                assert(orig =~= tokens@ + rev@.push(t).reverse());
            }
            rev.push(t);
        }
        assert(rev@.reverse() =~= orig);
        Tokens { rev }
    }

    /// The kind of the current token, without consuming it.
    pub fn current(&self) -> (r: &TokenKind)
        requires
            stream_wf(self.rest()),
        ensures
            *r == head(self.rest()).kind,
    {
        let n = self.rev.len();
        assert(self.rest()[0] == self.rev@[n - 1]);
        &self.rev[n - 1].kind
    }

    /// Takes the current token and moves past it.
    pub fn take(&mut self) -> (r: Token)
        requires
            stream_wf(old(self).rest()),
        ensures
            r == head(old(self).rest()),
            final(self).rest() == tail(old(self).rest()),
            stream_wf(final(self).rest()),
    {
        let n = self.rev.len();
        assert(self.rest()[0] == self.rev@[n - 1]);
        if n > 1 {
            let t = self.rev.pop().unwrap();
            assert(self.rest() =~= tail(old(self).rest()));
            assert forall|k: int| 0 <= k < self.rest().len() - 1 implies !(#[trigger] self.rest()[k].kind is Eof) by {
                assert(self.rest()[k] == old(self).rest()[k + 1]);
            }
            t
        } else {
            let span = self.rev[0].span;
            Token { kind: TokenKind::Eof, span }
        }
    }

    /// Moves past the current token.
    pub fn consume(&mut self)
        requires
            stream_wf(old(self).rest()),
        ensures
            final(self).rest() == tail(old(self).rest()),
            stream_wf(final(self).rest()),
    {
        let _ = self.take();
    }

    /// Moves past the current token when it is `nonl`, and tells whether it did.
    pub fn consume_if_no_newline(&mut self) -> (r: bool)
        requires
            stream_wf(old(self).rest()),
        ensures
            r == (head(old(self).rest()).kind is NoNewline),
            final(self).rest() == if r { tail(old(self).rest()) } else { old(self).rest() },
            stream_wf(final(self).rest()),
    {
        let is = match self.current() {
            TokenKind::NoNewline => true,
            _ => false,
        };
        if is {
            self.consume();
        }
        is
    }
}

} // verus!

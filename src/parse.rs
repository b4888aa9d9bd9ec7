use vstd::prelude::*;
use crate::error::{Error, Expected};
use crate::instruction::{Dest, Instruction, Instructions, Source};
use crate::token::{head, stream_wf, tail, Token, TokenKind, Tokens};

verus! {

/// The outcome of reading one instruction: the instruction and the tokens after it.
pub type Step = Result<(Instruction, Seq<Token>), Error>;

pub open spec fn arg_error(expected: Expected, token: Token) -> Error {
    Error::InvalidArgument { expected, token }
}

pub open spec fn fits_i32(n: i128) -> bool {
    i32::MIN <= n <= i32::MAX
}

pub open spec fn fits_u16(n: i128) -> bool {
    0 <= n <= u16::MAX
}

pub open spec fn fits_u64(n: i128) -> bool {
    0 <= n <= u64::MAX
}

/// `<string> as <ident>`
pub open spec fn load_args(ts: Seq<Token>) -> Step {
    let r1 = tail(ts);
    let r2 = tail(r1);
    match head(ts).kind {
        TokenKind::Str(path) => match head(r1).kind {
            TokenKind::As => match head(r2).kind {
                TokenKind::Ident(key) => Ok((Instruction::Load(path, key), tail(r2))),
                _ => Err(arg_error(Expected::Ident, head(r2))),
            },
            _ => Err(arg_error(Expected::As, head(r1))),
        },
        _ => Err(arg_error(Expected::Str, head(ts))),
    }
}

/// `<ident>` or `<int> <int>`, each integer a signed 32-bit value.
pub open spec fn goto_args(ts: Seq<Token>) -> Step {
    let r1 = tail(ts);
    match head(ts).kind {
        TokenKind::Ident(marker) => Ok((Instruction::Goto(Dest::Marker(marker)), r1)),
        TokenKind::Int(row) => if !fits_i32(row) {
            Err(arg_error(Expected::Number, head(ts)))
        } else {
            match head(r1).kind {
                TokenKind::Int(col) => if fits_i32(col) {
                    Ok(
                        (
                            Instruction::Goto(Dest::Relative { row: row as i32, col: col as i32 }),
                            tail(r1),
                        ),
                    )
                } else {
                    Err(arg_error(Expected::Number, head(r1)))
                },
                _ => Err(arg_error(Expected::Number, head(r1))),
            }
        },
        _ => Err(arg_error(Expected::Ident, head(ts))),
    }
}

/// A literal string or an identifier in an operand slot.
pub open spec fn source_of(t: Token, expected: Expected) -> Result<Source, Error> {
    match t.kind {
        TokenKind::Str(s) => Ok(Source::Str(s)),
        TokenKind::Ident(i) => Ok(Source::Ident(i)),
        _ => Err(arg_error(expected, t)),
    }
}

/// `<string-or-ident> [nonl]`
pub open spec fn type_args(ts: Seq<Token>, prefix_newline: bool) -> Step {
    let r1 = tail(ts);
    match source_of(head(ts), Expected::Ident) {
        Ok(source) => {
            let trim = head(r1).kind is NoNewline;
            Ok(
                (
                    Instruction::Type { source, trim_trailing_newline: trim, prefix_newline },
                    if trim { tail(r1) } else { r1 },
                ),
            )
        },
        Err(e) => Err(e),
    }
}

/// `<string-or-ident>`
pub open spec fn insert_args(ts: Seq<Token>) -> Step {
    match source_of(head(ts), Expected::Ident) {
        Ok(source) => Ok((Instruction::Insert(source), tail(ts))),
        Err(e) => Err(e),
    }
}

/// `<string> <string-or-ident>`
pub open spec fn replace_args(ts: Seq<Token>) -> Step {
    let r1 = tail(ts);
    match head(ts).kind {
        TokenKind::Str(src) => match source_of(head(r1), Expected::StrOrIdent) {
            Ok(replacement) => Ok((Instruction::Replace { src, replacement }, tail(r1))),
            Err(e) => Err(e),
        },
        _ => Err(arg_error(Expected::Str, head(ts))),
    }
}

/// `<int> <int>`, width then height, each an unsigned 16-bit value.
pub open spec fn select_args(ts: Seq<Token>) -> Step {
    let r1 = tail(ts);
    match head(ts).kind {
        TokenKind::Int(w) if fits_u16(w) => match head(r1).kind {
            TokenKind::Int(h) if fits_u16(h) => Ok(
                (Instruction::Select { width: w as u16, height: h as u16 }, tail(r1)),
            ),
            _ => Err(arg_error(Expected::Number, head(r1))),
        },
        _ => Err(arg_error(Expected::IdentOrRow, head(ts))),
    }
}

/// `<string>`
pub open spec fn find_args(ts: Seq<Token>) -> Step {
    match head(ts).kind {
        TokenKind::Str(needle) => Ok((Instruction::Find(needle), tail(ts))),
        _ => Err(arg_error(Expected::Str, head(ts))),
    }
}

/// A single integer operand in the range of an unsigned 64-bit value.
pub open spec fn count_arg(ts: Seq<Token>, expected: Expected) -> Result<(u64, Seq<Token>), Error> {
    match head(ts).kind {
        TokenKind::Int(n) if fits_u64(n) => Ok((n as u64, tail(ts))),
        _ => Err(arg_error(expected, head(ts))),
    }
}

pub open spec fn speed_args(ts: Seq<Token>) -> Step {
    match count_arg(ts, Expected::Int) {
        Ok((n, r)) => Ok((Instruction::Speed(n), r)),
        Err(e) => Err(e),
    }
}

pub open spec fn linepause_args(ts: Seq<Token>) -> Step {
    match count_arg(ts, Expected::Int) {
        Ok((n, r)) => Ok((Instruction::LinePause(n), r)),
        Err(e) => Err(e),
    }
}

pub open spec fn wait_args(ts: Seq<Token>) -> Step {
    match count_arg(ts, Expected::Seconds) {
        Ok((n, r)) => Ok((Instruction::Wait(n), r)),
        Err(e) => Err(e),
    }
}

/// One instruction, chosen by its leading keyword.
pub open spec fn instruction(ts: Seq<Token>) -> Step {
    let r = tail(ts);
    match head(ts).kind {
        TokenKind::Load => load_args(r),
        TokenKind::Goto => goto_args(r),
        TokenKind::Type => type_args(r, false),
        TokenKind::TypeNl => type_args(r, true),
        TokenKind::Insert => insert_args(r),
        TokenKind::Replace => replace_args(r),
        TokenKind::Delete => Ok((Instruction::Delete, r)),
        TokenKind::Speed => speed_args(r),
        TokenKind::Select => select_args(r),
        TokenKind::Find => find_args(r),
        TokenKind::LinePause => linepause_args(r),
        TokenKind::Wait => wait_args(r),
        _ => Err(Error::InvalidInstruction { token: head(ts) }),
    }
}

/// Tokens that separate instructions and carry nothing.
pub open spec fn is_filler(k: TokenKind) -> bool {
    k is Newline || k is Comment || k is Whitespace
}

pub open spec fn prepend(i: Seq<Instruction>, r: Result<Seq<Instruction>, Error>) -> Result<
    Seq<Instruction>,
    Error,
> {
    match r {
        Ok(s) => Ok(i + s),
        Err(e) => Err(e),
    }
}

/// The instructions of a whole token stream, or the first error in it.
pub open spec fn parse_tokens(ts: Seq<Token>) -> Result<Seq<Instruction>, Error>
    decreases ts.len(),
{
    if ts.len() <= 1 {
        Ok(seq![])
    } else if is_filler(head(ts).kind) {
        parse_tokens(tail(ts))
    } else if head(ts).kind is Eof {
        Ok(seq![])
    } else {
        match instruction(ts) {
            Err(e) => Err(e),
            Ok((i, r)) => if r.len() >= ts.len() {
                Ok(seq![])
            } else if is_filler(head(r).kind) {
                prepend(seq![i], parse_tokens(tail(r)))
            } else if head(r).kind is Eof {
                Ok(seq![i])
            } else {
                Err(Error::UnexpectedToken { expected: Expected::NewlineOrEof, token: head(r) })
            },
        }
    }
}

/// Each instruction moves past at least its keyword.
pub proof fn lemma_instruction_advances(ts: Seq<Token>)
    requires
        ts.len() > 1,
    ensures
        instruction(ts) matches Ok((_, r)) ==> r.len() < ts.len(),
{
}

pub open spec fn instructions_of(r: Result<Instructions, Error>) -> Result<Seq<Instruction>, Error> {
    match r {
        Ok(is) => Ok(is.instructions@),
        Err(e) => Err(e),
    }
}

/// After a complete instruction, any token but a newline, a comment or the
/// end of file makes the parse fail with `UnexpectedToken`.
pub proof fn lemma_trailing_token_is_unexpected(ts: Seq<Token>)
    requires
        stream_wf(ts),
        instruction(ts) matches Ok((_, r)) && !is_filler(head(r).kind) && !(head(r).kind is Eof),
    ensures
        parse_tokens(ts) == Err::<Seq<Instruction>, Error>(
            Error::UnexpectedToken {
                expected: Expected::NewlineOrEof,
                token: head(instruction(ts)->Ok_0.1),
            },
        ),
{
    lemma_instruction_advances(ts);
}

/// A stream of nothing but newlines, comments and blanks holds no instruction.
pub proof fn lemma_fillers_parse_empty(ts: Seq<Token>)
    requires
        stream_wf(ts),
        forall|k: int| 0 <= k < ts.len() - 1 ==> is_filler(#[trigger] ts[k].kind),
    ensures
        parse_tokens(ts) == Ok::<Seq<Instruction>, Error>(seq![]),
    decreases ts.len(),
{
    if ts.len() > 1 {
        let r = tail(ts);
        assert forall|k: int| 0 <= k < r.len() - 1 implies is_filler(#[trigger] r[k].kind) by {
            assert(r[k] == ts[k + 1]);
        }
        assert forall|k: int| 0 <= k < r.len() - 1 implies !(#[trigger] r[k].kind is Eof) by {
            assert(r[k] == ts[k + 1]);
        }
        lemma_fillers_parse_empty(r);
    }
}

/// The operand token of a `Source`.
pub open spec fn source_token(s: Source) -> TokenKind {
    match s {
        Source::Str(x) => TokenKind::Str(x),
        Source::Ident(x) => TokenKind::Ident(x),
    }
}

/// The canonical tokens that spell an instruction on one line.
pub open spec fn rendered(i: Instruction) -> Seq<TokenKind> {
    match i {
        Instruction::Load(path, key) => seq![
            TokenKind::Load,
            TokenKind::Str(path),
            TokenKind::As,
            TokenKind::Ident(key),
        ],
        Instruction::Goto(Dest::Marker(m)) => seq![TokenKind::Goto, TokenKind::Ident(m)],
        Instruction::Goto(Dest::Relative { row, col }) => seq![
            TokenKind::Goto,
            TokenKind::Int(row as i128),
            TokenKind::Int(col as i128),
        ],
        Instruction::Type { source, trim_trailing_newline, prefix_newline } => seq![
            if prefix_newline {
                TokenKind::TypeNl
            } else {
                TokenKind::Type
            },
            source_token(source),
        ] + if trim_trailing_newline {
            seq![TokenKind::NoNewline]
        } else {
            seq![]
        },
        Instruction::Insert(source) => seq![TokenKind::Insert, source_token(source)],
        Instruction::Replace { src, replacement } => seq![
            TokenKind::Replace,
            TokenKind::Str(src),
            source_token(replacement),
        ],
        Instruction::Delete => seq![TokenKind::Delete],
        Instruction::Speed(n) => seq![TokenKind::Speed, TokenKind::Int(n as i128)],
        Instruction::Select { width, height } => seq![
            TokenKind::Select,
            TokenKind::Int(width as i128),
            TokenKind::Int(height as i128),
        ],
        Instruction::Find(needle) => seq![TokenKind::Find, TokenKind::Str(needle)],
        Instruction::LinePause(n) => seq![TokenKind::LinePause, TokenKind::Int(n as i128)],
        Instruction::Wait(n) => seq![TokenKind::Wait, TokenKind::Int(n as i128)],
    }
}

/// A stream that spells `i` and then ends, whatever its spans.
pub open spec fn spells_instruction(ts: Seq<Token>, i: Instruction) -> bool {
    &&& ts.len() == rendered(i).len() + 1
    &&& forall|k: int| 0 <= k < rendered(i).len() ==> (#[trigger] ts[k]).kind == rendered(i)[k]
    &&& ts.last().kind is Eof
}

/// A stream that starts with the tokens of `i` and goes on with at least one
/// more token, which is no `nonl` that a `type` without one would take.
pub open spec fn spells_prefix(ts: Seq<Token>, i: Instruction) -> bool {
    &&& ts.len() > rendered(i).len()
    &&& forall|k: int| 0 <= k < rendered(i).len() ==> (#[trigger] ts[k]).kind == rendered(i)[k]
    &&& (i matches Instruction::Type { trim_trailing_newline: false, .. } ==> !(
    ts[rendered(i).len() as int].kind is NoNewline))
}

/// The canonical tokens of an instruction read back as that instruction, and
/// reading stops right after them.
pub proof fn lemma_instruction_rendered(i: Instruction, ts: Seq<Token>)
    requires
        spells_prefix(ts, i),
    ensures
        instruction(ts) == Ok::<(Instruction, Seq<Token>), Error>(
            (i, ts.subrange(rendered(i).len() as int, ts.len() as int)),
        ),
{
    let n = rendered(i).len();
    assert(ts[0].kind == rendered(i)[0]);
    if n >= 2 {
        assert(ts[1].kind == rendered(i)[1]);
    }
    if n >= 3 {
        assert(ts[2].kind == rendered(i)[2]);
    }
    if n >= 4 {
        assert(ts[3].kind == rendered(i)[3]);
    }
    let t1 = tail(ts);
    let t2 = tail(t1);
    let t3 = tail(t2);
    let t4 = tail(t3);
    assert(t1 =~= ts.subrange(1, ts.len() as int));
    assert(n >= 2 ==> t2 =~= ts.subrange(2, ts.len() as int));
    assert(n >= 3 ==> t3 =~= ts.subrange(3, ts.len() as int));
    assert(n >= 4 ==> t4 =~= ts.subrange(4, ts.len() as int));
    assert(t1[0] == ts[1]);
    assert(n >= 2 ==> t2[0] == ts[2]);
    assert(n >= 3 ==> t3[0] == ts[3]);
}

/// Parsing the canonical tokens of an instruction gives back exactly that instruction.
pub proof fn lemma_parse_rendered(i: Instruction, ts: Seq<Token>)
    requires
        spells_instruction(ts, i),
    ensures
        parse_tokens(ts) == Ok::<Seq<Instruction>, Error>(seq![i]),
{
    let n = rendered(i).len() as int;
    lemma_instruction_rendered(i, ts);
    lemma_instruction_advances(ts);
    let r = ts.subrange(n, ts.len() as int);
    assert(r[0] == ts[n]);
    assert(ts[0].kind == rendered(i)[0]);
}

struct Parser {
    tokens: Tokens,
}

pub open spec fn as_step(r: Result<Instruction, Error>, rest: Seq<Token>) -> Step {
    match r {
        Ok(i) => Ok((i, rest)),
        Err(e) => Err(e),
    }
}

impl Parser {
    fn new(tokens: Tokens) -> (r: Parser)
        ensures
            r.tokens == tokens,
    {
        Parser { tokens }
    }

    fn arg_error(&self, expected: Expected, token: Token) -> (r: Result<Instruction, Error>)
        ensures
            r == Err::<Instruction, Error>(arg_error(expected, token)),
    {
        Err(Error::InvalidArgument { expected, token })
    }

    /// Reads a literal string or an identifier.
    fn source(&mut self, expected: Expected) -> (r: Result<Source, Error>)
        requires
            stream_wf(old(self).tokens.rest()),
        ensures
            r == source_of(head(old(self).tokens.rest()), expected),
            final(self).tokens.rest() == tail(old(self).tokens.rest()),
            stream_wf(final(self).tokens.rest()),
    {
        let t = self.tokens.take();
        match t.kind {
            TokenKind::Str(s) => Ok(Source::Str(s)),
            TokenKind::Ident(i) => Ok(Source::Ident(i)),
            _ => Err(Error::InvalidArgument { expected, token: t }),
        }
    }

    /// Reads an integer in the range of a `u64`.
    fn count(&mut self, expected: Expected) -> (r: Result<u64, Error>)
        requires
            stream_wf(old(self).tokens.rest()),
        ensures
            count_arg(old(self).tokens.rest(), expected) == match r {
                Ok(n) => Ok((n, final(self).tokens.rest())),
                Err(e) => Err(e),
            },
            final(self).tokens.rest() == tail(old(self).tokens.rest()),
            stream_wf(final(self).tokens.rest()),
    {
        let t = self.tokens.take();
        match t.kind {
            TokenKind::Int(n) if 0 <= n && n <= u64::MAX as i128 => Ok(n as u64),
            _ => Err(Error::InvalidArgument { expected, token: t }),
        }
    }

    /// `load <string> as <ident>`
    fn load(&mut self) -> (r: Result<Instruction, Error>)
        requires
            stream_wf(old(self).tokens.rest()),
            head(old(self).tokens.rest()).kind is Load,
        ensures
            instruction(old(self).tokens.rest()) == as_step(r, final(self).tokens.rest()),
            stream_wf(final(self).tokens.rest()),
    {
        self.tokens.consume();
        let t1 = self.tokens.take();
        match t1.kind {
            TokenKind::Str(path) => {
                let t2 = self.tokens.take();
                match t2.kind {
                    TokenKind::As => {
                        let t3 = self.tokens.take();
                        match t3.kind {
                            TokenKind::Ident(key) => Ok(Instruction::Load(path, key)),
                            _ => self.arg_error(Expected::Ident, t3),
                        }
                    },
                    _ => self.arg_error(Expected::As, t2),
                }
            },
            _ => self.arg_error(Expected::Str, t1),
        }
    }

    /// `goto <ident>` or `goto <int> <int>`
    fn goto(&mut self) -> (r: Result<Instruction, Error>)
        requires
            stream_wf(old(self).tokens.rest()),
            head(old(self).tokens.rest()).kind is Goto,
        ensures
            instruction(old(self).tokens.rest()) == as_step(r, final(self).tokens.rest()),
            stream_wf(final(self).tokens.rest()),
    {
        self.tokens.consume();
        let t1 = self.tokens.take();
        match t1.kind {
            TokenKind::Ident(marker) => Ok(Instruction::Goto(Dest::Marker(marker))),
            TokenKind::Int(row) => {
                if !(i32::MIN as i128 <= row && row <= i32::MAX as i128) {
                    return self.arg_error(Expected::Number, t1);
                }
                let t2 = self.tokens.take();
                match t2.kind {
                    TokenKind::Int(col) if i32::MIN as i128 <= col && col <= i32::MAX as i128 => {
                        Ok(Instruction::Goto(Dest::Relative { row: row as i32, col: col as i32 }))
                    },
                    _ => self.arg_error(Expected::Number, t2),
                }
            },
            _ => self.arg_error(Expected::Ident, t1),
        }
    }

    /// `type <string-or-ident> [nonl]`
    fn print(&mut self) -> (r: Result<Instruction, Error>)
        requires
            stream_wf(old(self).tokens.rest()),
            head(old(self).tokens.rest()).kind is Type,
        ensures
            instruction(old(self).tokens.rest()) == as_step(r, final(self).tokens.rest()),
            stream_wf(final(self).tokens.rest()),
    {
        self.tokens.consume();
        self.type_args(false)
    }

    /// `typenl <string-or-ident> [nonl]`
    fn printnl(&mut self) -> (r: Result<Instruction, Error>)
        requires
            stream_wf(old(self).tokens.rest()),
            head(old(self).tokens.rest()).kind is TypeNl,
        ensures
            instruction(old(self).tokens.rest()) == as_step(r, final(self).tokens.rest()),
            stream_wf(final(self).tokens.rest()),
    {
        self.tokens.consume();
        self.type_args(true)
    }

    fn type_args(&mut self, prefix_newline: bool) -> (r: Result<Instruction, Error>)
        requires
            stream_wf(old(self).tokens.rest()),
        ensures
            type_args(old(self).tokens.rest(), prefix_newline) == as_step(
                r,
                final(self).tokens.rest(),
            ),
            stream_wf(final(self).tokens.rest()),
    {
        let source = match self.source(Expected::Ident) {
            Ok(s) => s,
            Err(e) => return Err(e),
        };
        let trim_trailing_newline = self.tokens.consume_if_no_newline();
        Ok(Instruction::Type { source, trim_trailing_newline, prefix_newline })
    }

    /// `insert <string-or-ident>`
    fn insert(&mut self) -> (r: Result<Instruction, Error>)
        requires
            stream_wf(old(self).tokens.rest()),
            head(old(self).tokens.rest()).kind is Insert,
        ensures
            instruction(old(self).tokens.rest()) == as_step(r, final(self).tokens.rest()),
            stream_wf(final(self).tokens.rest()),
    {
        self.tokens.consume();
        match self.source(Expected::Ident) {
            Ok(s) => Ok(Instruction::Insert(s)),
            Err(e) => Err(e),
        }
    }

    /// `replace <string> <string-or-ident>`
    fn change(&mut self) -> (r: Result<Instruction, Error>)
        requires
            stream_wf(old(self).tokens.rest()),
            head(old(self).tokens.rest()).kind is Replace,
        ensures
            instruction(old(self).tokens.rest()) == as_step(r, final(self).tokens.rest()),
            stream_wf(final(self).tokens.rest()),
    {
        self.tokens.consume();
        let t1 = self.tokens.take();
        let src = match t1.kind {
            TokenKind::Str(s) => s,
            _ => return self.arg_error(Expected::Str, t1),
        };
        match self.source(Expected::StrOrIdent) {
            Ok(replacement) => Ok(Instruction::Replace { src, replacement }),
            Err(e) => Err(e),
        }
    }

    /// `delete`
    fn delete(&mut self) -> (r: Result<Instruction, Error>)
        requires
            stream_wf(old(self).tokens.rest()),
            head(old(self).tokens.rest()).kind is Delete,
        ensures
            instruction(old(self).tokens.rest()) == as_step(r, final(self).tokens.rest()),
            stream_wf(final(self).tokens.rest()),
    {
        self.tokens.consume();
        Ok(Instruction::Delete)
    }

    /// `speed <int>`
    fn speed(&mut self) -> (r: Result<Instruction, Error>)
        requires
            stream_wf(old(self).tokens.rest()),
            head(old(self).tokens.rest()).kind is Speed,
        ensures
            instruction(old(self).tokens.rest()) == as_step(r, final(self).tokens.rest()),
            stream_wf(final(self).tokens.rest()),
    {
        self.tokens.consume();
        match self.count(Expected::Int) {
            Ok(n) => Ok(Instruction::Speed(n)),
            Err(e) => Err(e),
        }
    }

    /// `select <int> <int>`
    fn select(&mut self) -> (r: Result<Instruction, Error>)
        requires
            stream_wf(old(self).tokens.rest()),
            head(old(self).tokens.rest()).kind is Select,
        ensures
            instruction(old(self).tokens.rest()) == as_step(r, final(self).tokens.rest()),
            stream_wf(final(self).tokens.rest()),
    {
        self.tokens.consume();
        let t1 = self.tokens.take();
        let width = match t1.kind {
            TokenKind::Int(w) => {
                if !(0 <= w && w <= u16::MAX as i128) {
                    return self.arg_error(Expected::IdentOrRow, t1);
                }
                w as u16
            },
            _ => return self.arg_error(Expected::IdentOrRow, t1),
        };
        let t2 = self.tokens.take();
        match t2.kind {
            TokenKind::Int(h) if 0 <= h && h <= u16::MAX as i128 => {
                Ok(Instruction::Select { width, height: h as u16 })
            },
            _ => self.arg_error(Expected::Number, t2),
        }
    }

    /// `find <string>`
    fn find(&mut self) -> (r: Result<Instruction, Error>)
        requires
            stream_wf(old(self).tokens.rest()),
            head(old(self).tokens.rest()).kind is Find,
        ensures
            instruction(old(self).tokens.rest()) == as_step(r, final(self).tokens.rest()),
            stream_wf(final(self).tokens.rest()),
    {
        self.tokens.consume();
        let t1 = self.tokens.take();
        match t1.kind {
            TokenKind::Str(needle) => Ok(Instruction::Find(needle)),
            _ => self.arg_error(Expected::Str, t1),
        }
    }

    /// `linepause <int>`
    fn linepause(&mut self) -> (r: Result<Instruction, Error>)
        requires
            stream_wf(old(self).tokens.rest()),
            head(old(self).tokens.rest()).kind is LinePause,
        ensures
            instruction(old(self).tokens.rest()) == as_step(r, final(self).tokens.rest()),
            stream_wf(final(self).tokens.rest()),
    {
        self.tokens.consume();
        match self.count(Expected::Int) {
            Ok(n) => Ok(Instruction::LinePause(n)),
            Err(e) => Err(e),
        }
    }

    /// `wait <int>`; a line that starts with no other keyword ends up here and is refused.
    fn wait(&mut self) -> (r: Result<Instruction, Error>)
        requires
            stream_wf(old(self).tokens.rest()),
            !(head(old(self).tokens.rest()).kind is Load),
            !(head(old(self).tokens.rest()).kind is Goto),
            !(head(old(self).tokens.rest()).kind is Type),
            !(head(old(self).tokens.rest()).kind is TypeNl),
            !(head(old(self).tokens.rest()).kind is Insert),
            !(head(old(self).tokens.rest()).kind is Replace),
            !(head(old(self).tokens.rest()).kind is Delete),
            !(head(old(self).tokens.rest()).kind is Speed),
            !(head(old(self).tokens.rest()).kind is Select),
            !(head(old(self).tokens.rest()).kind is Find),
            !(head(old(self).tokens.rest()).kind is LinePause),
        ensures
            instruction(old(self).tokens.rest()) == as_step(r, final(self).tokens.rest()),
            stream_wf(final(self).tokens.rest()),
    {
        let t = self.tokens.take();
        match t.kind {
            TokenKind::Wait => match self.count(Expected::Seconds) {
                Ok(n) => Ok(Instruction::Wait(n)),
                Err(e) => Err(e),
            },
            _ => Err(Error::InvalidInstruction { token: t }),
        }
    }

    /// One instruction, dispatched on its leading keyword.
    fn instruction(&mut self) -> (r: Result<Instruction, Error>)
        requires
            stream_wf(old(self).tokens.rest()),
        ensures
            instruction(old(self).tokens.rest()) == as_step(r, final(self).tokens.rest()),
            stream_wf(final(self).tokens.rest()),
    {
        match self.tokens.current() {
            TokenKind::Load => self.load(),
            TokenKind::Goto => self.goto(),
            TokenKind::Type => self.print(),
            TokenKind::TypeNl => self.printnl(),
            TokenKind::Insert => self.insert(),
            TokenKind::Replace => self.change(),
            TokenKind::Delete => self.delete(),
            TokenKind::Speed => self.speed(),
            TokenKind::Select => self.select(),
            TokenKind::Find => self.find(),
            TokenKind::LinePause => self.linepause(),
            _ => self.wait(),
        }
    }

    /// Every instruction of the stream, skipping blank lines and comments.
    fn parse(&mut self) -> (r: Result<Instructions, Error>)
        requires
            stream_wf(old(self).tokens.rest()),
        ensures
            parse_tokens(old(self).tokens.rest()) == instructions_of(r),
            r is Ok ==> final(self).tokens.rest().len() == 1 && head(final(self).tokens.rest()).kind is Eof,
    {
        let ghost orig = self.tokens.rest();
        let mut instructions: Vec<Instruction> = Vec::new();
        loop
            invariant
                orig == old(self).tokens.rest(),
                stream_wf(self.tokens.rest()),
                parse_tokens(orig) == prepend(instructions@, parse_tokens(self.tokens.rest())),
            ensures
                parse_tokens(orig) == Ok::<Seq<Instruction>, Error>(instructions@),
                self.tokens.rest().len() == 1,
                head(self.tokens.rest()).kind is Eof,
            decreases self.tokens.rest().len(),
        {
            let ghost before = self.tokens.rest();
            match self.tokens.current() {
                TokenKind::Newline | TokenKind::Comment | TokenKind::Whitespace => {
                    self.tokens.consume();
                    continue;
                },
                TokenKind::Eof => {
                    assert(parse_tokens(before) == Ok::<Seq<Instruction>, Error>(seq![]));
                    assert(instructions@ + seq![] =~= instructions@);
                    break;
                },
                _ => {},
            }
            assert(before.len() > 1);
            proof {
                lemma_instruction_advances(before);
            }
            let inst = match self.instruction() {
                Ok(i) => i,
                Err(e) => {
                    assert(parse_tokens(before) == Err::<Seq<Instruction>, Error>(e));
                    return Err(e);
                },
            };
            let ghost after = self.tokens.rest();
            let ghost prev = instructions@;
            assert(parse_tokens(before) == if is_filler(head(after).kind) {
                prepend(seq![inst], parse_tokens(tail(after)))
            } else if head(after).kind is Eof {
                Ok(seq![inst])
            } else {
                Err(Error::UnexpectedToken { expected: Expected::NewlineOrEof, token: head(after) })
            });
            instructions.push(inst);
            let t = self.tokens.take();
            match t.kind {
                TokenKind::Newline | TokenKind::Comment | TokenKind::Whitespace => {
                    proof {
                        if let Ok(more) = parse_tokens(tail(after)) {
                            assert(prev + (seq![inst] + more) =~= instructions@ + more);
                        }
                    }
                    continue;
                },
                TokenKind::Eof => {
                    assert(instructions@ =~= prev + seq![inst]);
                    break;
                },
                _ => {
                    return Err(
                        Error::UnexpectedToken { expected: Expected::NewlineOrEof, token: t },
                    );
                },
            }
        }
        Ok(Instructions::new(instructions))
    }
}

/// Reads the instructions of a lexed script.
pub fn parse(tokens: Tokens) -> (r: Result<Instructions, Error>)
    requires
        stream_wf(tokens.rest()),
    ensures
        instructions_of(r) == parse_tokens(tokens.rest()),
{
    Parser::new(tokens).parse()
}

} // verus!

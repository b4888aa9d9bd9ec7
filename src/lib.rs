use vstd::prelude::*;

pub mod context;
pub mod error;
pub mod instruction;
pub mod lexer;
pub mod parse;
pub mod render;
pub mod resolve;
pub mod token;

pub use error::Error;
pub use instruction::{Dest, Instruction, Instructions, Source};

use lexer::{lexemes, prefix_ok, quiet_from, token_matches, tokens_match};
use parse::{instructions_of, is_filler, parse_tokens};
use error::Expected;
use render::{
    absorbed, lemma_round_trip, piece_ok, render, render_then, same_instruction, token_reads,
    valid_instruction, Piece,
};
use token::{stream_wf, Token, Tokens};

verus! {

/// What `parse` promises of its result `r` for source `s` and comment prefix `p`:
/// a lexical error as is, or else what the grammar gives for the tokens of the source.
pub open spec fn parsed(s: Seq<char>, p: Seq<char>, r: Result<Instructions, Error>) -> bool {
    match lexemes(s, p) {
        Err(e) => r == Err::<Instructions, Error>(e),
        Ok(ls) => exists|ts: Seq<Token>|
            {
                &&& tokens_match(ts, ls, s)
                &&& stream_wf(ts)
                &&& #[trigger] parse_tokens(ts) == instructions_of(r)
            },
    }
}

/// Lexes and parses a script whose comment lines start with `comment_prefix`.
///
/// A lexical error is returned as is; otherwise the result is what the grammar
/// gives for the tokens of the source.
pub fn parse(input: &str, comment_prefix: &str) -> (r: Result<Instructions, Error>)
    ensures
        parsed(input@, comment_prefix@, r),
{
    let tokens = match lexer::lex(input, comment_prefix) {
        Ok(ts) => ts,
        Err(e) => return Err(e),
    };
    let ghost ls = lexemes(input@, comment_prefix@)->Ok_0;
    proof {
        lexer::lemma_lexed_stream_wf(input@, comment_prefix@, tokens@, ls);
    }
    let ghost ts = tokens@;
    let r = parse::parse(Tokens::new(tokens));
    assert(tokens_match(ts, ls, input@) && stream_wf(ts) && parse_tokens(ts) == instructions_of(r));
    r
}

/// A source of nothing but blanks, line breaks and comment lines (the empty
/// source among them) lexes without error, and the tokens it lexes to parse
/// to no instruction at all.
pub proof fn lemma_quiet_source_parses_empty(s: Seq<char>, p: Seq<char>, ts: Seq<Token>)
    requires
        prefix_ok(p),
        quiet_from(s, p, 0),
        tokens_match(ts, lexemes(s, p)->Ok_0, s),
    ensures
        lexemes(s, p) is Ok,
        parse_tokens(ts) == Ok::<Seq<Instruction>, Error>(seq![]),
{
    lexer::lemma_quiet_lexes_fillers(s, p, 0, true);
    let ls = lexemes(s, p)->Ok_0;
    lexer::lemma_lexed_stream_wf(s, p, ts, ls);
    assert forall|k: int| 0 <= k < ts.len() - 1 implies is_filler(#[trigger] ts[k].kind) by {
        assert(token_matches(ts[k], ls[k], s));
    }
    parse::lemma_fillers_parse_empty(ts);
}

/// Parsing the canonical one-line spelling of a valid instruction, with `//`
/// as comment prefix, returns exactly that instruction.
pub proof fn lemma_parse_render(i: Instruction, r: Result<Instructions, Error>)
    requires
        valid_instruction(i),
        render(i).len() <= usize::MAX,
        parsed(render(i), "//"@, r),
    ensures
        r matches Ok(is) && is.instructions@.len() == 1 && same_instruction(is.instructions@[0], i),
{
    let s = render(i);
    let p = "//"@;
    let ls = lexemes(s, p)->Ok_0;
    render::lemma_render_lexes(i);
    let ts = choose|ts: Seq<Token>|
        {
            &&& tokens_match(ts, ls, s)
            &&& stream_wf(ts)
            &&& #[trigger] parse_tokens(ts) == instructions_of(r)
        };
    lemma_round_trip(i, ts);
}

/// A source of nothing but blanks, line breaks and comment lines parses to no
/// instruction.
pub proof fn lemma_quiet_parse_is_empty(s: Seq<char>, p: Seq<char>, r: Result<Instructions, Error>)
    requires
        prefix_ok(p),
        quiet_from(s, p, 0),
        parsed(s, p, r),
    ensures
        r matches Ok(is) && is.instructions@.len() == 0,
{
    let ls = lexemes(s, p)->Ok_0;
    lexer::lemma_quiet_lexes_fillers(s, p, 0, true);
    let ts = choose|ts: Seq<Token>|
        {
            &&& tokens_match(ts, ls, s)
            &&& stream_wf(ts)
            &&& #[trigger] parse_tokens(ts) == instructions_of(r)
        };
    lemma_quiet_source_parses_empty(s, p, ts);
}

/// Parsing the canonical line of a valid instruction followed by a space and
/// one more word or quoted text (but for a `nonl` that a `type` line takes as
/// its own) fails with `UnexpectedToken` on the token of that extra text.
pub proof fn lemma_parse_render_then(i: Instruction, extra: Piece, r: Result<Instructions, Error>)
    requires
        valid_instruction(i),
        piece_ok(extra, "//"@),
        !absorbed(i, extra),
        render_then(i, extra).len() <= usize::MAX,
        parsed(render_then(i, extra), "//"@, r),
    ensures
        r matches Err(Error::UnexpectedToken { expected, token }) && expected
            == Expected::NewlineOrEof && token_reads(token, extra),
{
    let s = render_then(i, extra);
    let p = "//"@;
    render::lemma_trailing_piece_lexes(i, extra);
    let ls = lexemes(s, p)->Ok_0;
    let ts = choose|ts: Seq<Token>|
        {
            &&& tokens_match(ts, ls, s)
            &&& stream_wf(ts)
            &&& #[trigger] parse_tokens(ts) == instructions_of(r)
        };
    render::lemma_trailing_piece(i, extra, ts);
}

} // verus!

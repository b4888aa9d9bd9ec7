use vstd::prelude::*;
use crate::instruction::{Dest, Instruction, Source};
use crate::lexer::{
    all_digits, blank_end, digits_value, is_blank, is_digit, is_int_form, is_word_char, keyword,
    lex_from, lexemes, prefix_ok, quote_end, starts_comment, token_matches, tokens_match,
    word_class, word_end, Class, Lexeme,
};
use crate::error::{Error, Expected};
use crate::lexer::lemma_lexed_stream_wf;
use crate::parse::{
    is_filler, lemma_instruction_rendered, lemma_parse_rendered,
    lemma_trailing_token_is_unexpected, parse_tokens, rendered, spells_instruction, spells_prefix,
};
use crate::token::head;
use crate::token::{Token, TokenKind};

verus! {

/// One word of a rendered line: a bare word, or text between double quotes.
pub enum Piece {
    Word(Seq<char>),
    Quoted(Seq<char>),
}

pub open spec fn piece_text(pc: Piece) -> Seq<char> {
    match pc {
        Piece::Word(w) => w,
        Piece::Quoted(c) => seq!['"'] + c + seq!['"'],
    }
}

/// Pieces separated by single spaces.
pub open spec fn join(ps: Seq<Piece>) -> Seq<char>
    decreases ps.len(),
{
    if ps.len() == 0 {
        seq![]
    } else if ps.len() == 1 {
        piece_text(ps[0])
    } else {
        piece_text(ps[0]) + seq![' '] + join(ps.drop_first())
    }
}

/// A piece that lexes back as one token under comment prefix `p`.
pub open spec fn piece_ok(pc: Piece, p: Seq<char>) -> bool {
    match pc {
        Piece::Word(w) => {
            &&& w.len() > 0
            &&& forall|k: int| 0 <= k < w.len() ==> is_word_char(#[trigger] w[k])
            &&& !(p.len() <= w.len() && w.subrange(0, p.len() as int) == p)
            &&& word_class(w) is Some
        },
        Piece::Quoted(c) => {
            &&& forall|k: int| 0 <= k < c.len() ==> #[trigger] c[k] != '"'
            &&& (p.len() > 0 ==> p[0] != '"')
        },
    }
}

/// A comment prefix with no blank in it.
pub open spec fn prefix_blank_free(p: Seq<char>) -> bool {
    forall|k: int| 0 <= k < p.len() ==> !is_blank(#[trigger] p[k])
}

/// The lexeme `l` of source `s` reads back piece `pc`.
pub open spec fn reads_back(s: Seq<char>, l: Lexeme, pc: Piece) -> bool {
    match pc {
        Piece::Word(w) => {
            &&& l.class == word_class(w)->0
            &&& s.subrange(l.span.start as int, l.span.end as int) == w
        },
        Piece::Quoted(c) => {
            &&& l.class is Str
            &&& s.subrange(l.span.start + 1, l.span.end - 1) == c
        },
    }
}

proof fn lemma_word_end(s: Seq<char>, i: int, j: int)
    requires
        0 <= i <= j <= s.len(),
        forall|k: int| i <= k < j ==> is_word_char(#[trigger] s[k]),
        j == s.len() || !is_word_char(s[j]),
    ensures
        word_end(s, i) == j,
    decreases j - i,
{
    if i < j {
        lemma_word_end(s, i + 1, j);
    }
}

proof fn lemma_quote_end(s: Seq<char>, i: int, j: int)
    requires
        0 <= i <= j < s.len(),
        forall|k: int| i <= k < j ==> #[trigger] s[k] != '"',
        s[j] == '"',
    ensures
        quote_end(s, i) == j,
    decreases j - i,
{
    if i < j {
        lemma_quote_end(s, i + 1, j);
    }
}

/// The lexeme a piece lexes to, when it stands at `i`.
pub open spec fn piece_lexeme(pc: Piece, i: int) -> Lexeme {
    match pc {
        Piece::Word(w) => Lexeme {
            class: word_class(w)->0,
            span: crate::lexer::span(i, i + w.len()),
        },
        Piece::Quoted(c) => Lexeme { class: Class::Str, span: crate::lexer::span(i, i + c.len() + 2) },
    }
}

proof fn lemma_lex_piece(s: Seq<char>, p: Seq<char>, i: int, b: bool, pc: Piece)
    requires
        0 <= i,
        i + piece_text(pc).len() <= s.len() <= usize::MAX,
        prefix_ok(p),
        prefix_blank_free(p),
        piece_ok(pc, p),
        s.subrange(i, i + piece_text(pc).len()) == piece_text(pc),
        i + piece_text(pc).len() == s.len() || s[i + piece_text(pc).len()] == ' ',
    ensures
        lex_from(s, p, i, b) == crate::lexer::push_front(
            piece_lexeme(pc, i),
            lex_from(s, p, i + piece_text(pc).len(), false),
        ),
        reads_back(s, piece_lexeme(pc, i), pc),
{
    let t = piece_text(pc);
    let n = t.len() as int;
    assert forall|k: int| 0 <= k < n implies s[i + k] == #[trigger] t[k] by {
        assert(s.subrange(i, i + n)[k] == s[i + k]);
    }
    match pc {
        Piece::Word(w) => {
            assert(!starts_comment(s, p, i)) by {
                if starts_comment(s, p, i) {
                    let m = p.len() as int;
                    if m > n {
                        assert(s.subrange(i, i + m)[n] == s[i + n]);
                        assert(!is_blank(p[n]));
                    } else {
                        assert forall|k: int| 0 <= k < m implies w.subrange(0, m)[k] == p[k] by {
                            assert(s.subrange(i, i + m)[k] == s[i + k]);
                        }
                        assert(w.subrange(0, m) =~= p);
                    }
                }
            }
            assert(s[i + 0] == w[0]);
            assert forall|k: int| i <= k < i + n implies is_word_char(#[trigger] s[k]) by {
                assert(s[i + (k - i)] == t[k - i]);
            }
            lemma_word_end(s, i, i + n);
        },
        Piece::Quoted(c) => {
            assert(s[i + 0] == t[0]);
            assert(!starts_comment(s, p, i)) by {
                if starts_comment(s, p, i) {
                    assert(s.subrange(i, i + p.len())[0] == s[i]);
                }
            }
            assert forall|k: int| i + 1 <= k < i + n - 1 implies #[trigger] s[k] != '"' by {
                assert(s[i + (k - i)] == t[k - i]);
                assert(t[k - i] == c[k - i - 1]);
            }
            assert(s[i + (n - 1)] == t[n - 1]);
            lemma_quote_end(s, i + 1, i + n - 1);
            assert forall|k: int| 0 <= k < c.len() implies s.subrange(i + 1, i + n - 1)[k] == c[k] by {
                assert(s[i + (k + 1)] == t[k + 1]);
            }
            assert(s.subrange(i + 1, i + n - 1) =~= c);
        },
    }
}

proof fn lemma_skip_space(s: Seq<char>, p: Seq<char>, j: int)
    requires
        0 <= j,
        j + 1 < s.len(),
        prefix_ok(p),
        s[j] == ' ',
        !is_blank(s[j + 1]),
    ensures
        lex_from(s, p, j, false) == lex_from(s, p, j + 1, false),
{
    assert(!starts_comment(s, p, j)) by {
        if starts_comment(s, p, j) {
            assert(s.subrange(j, j + p.len())[0] == s[j]);
        }
    }
    assert(blank_end(s, j + 1) == j + 1);
    assert(blank_end(s, j) == j + 1);
}

/// Lexing pieces joined by spaces gives one lexeme per piece, then the end of file.
#[verifier::rlimit(40)]
pub proof fn lemma_lex_join(s: Seq<char>, p: Seq<char>, i: int, b: bool, ps: Seq<Piece>)
    requires
        0 <= i <= s.len(),
        s.len() <= usize::MAX,
        prefix_ok(p),
        prefix_blank_free(p),
        s.subrange(i, s.len() as int) == join(ps),
        forall|k: int| 0 <= k < ps.len() ==> piece_ok(#[trigger] ps[k], p),
    ensures
        lex_from(s, p, i, b) is Ok,
        lex_from(s, p, i, b)->Ok_0.len() == ps.len() + 1,
        lex_from(s, p, i, b)->Ok_0.last().class is Eof,
        forall|k: int|
            0 <= k < ps.len() ==> reads_back(s, #[trigger] lex_from(s, p, i, b)->Ok_0[k], ps[k]),
    decreases ps.len(),
{
    let tail = s.subrange(i, s.len() as int);
    if ps.len() == 0 {
        assert(tail.len() == 0);
        return;
    }
    let pc = ps[0];
    assert(piece_ok(pc, p));
    let t = piece_text(pc);
    let rest = ps.drop_first();
    let n = t.len() as int;
    let j = i + n;
    assert forall|k: int| 0 <= k < rest.len() implies piece_ok(#[trigger] rest[k], p) by {
        assert(rest[k] == ps[k + 1]);
    }
    if ps.len() == 1 {
        assert(tail == t);
        assert(s.subrange(i, j) =~= t);
        lemma_lex_piece(s, p, i, b, pc);
        assert(lex_from(s, p, j, false) == Ok::<Seq<Lexeme>, crate::error::Error>(
            seq![Lexeme { class: Class::Eof, span: crate::lexer::span(j, j) }],
        ));
    } else {
        assert(tail == t + seq![' '] + join(rest));
        assert(tail.len() == n + 1 + join(rest).len());
        assert(tail.subrange(0, n) =~= t);
        assert(s.subrange(i, j) =~= tail.subrange(0, n));
        assert(s[j] == ' ') by {
            assert(tail[n] == ' ');
            assert(s[i + n] == tail[n]);
        }
        lemma_lex_piece(s, p, i, b, pc);
        let nt = piece_text(rest[0]);
        assert(piece_ok(rest[0], p));
        assert(s.subrange(j + 1, s.len() as int) =~= tail.subrange(n + 1, tail.len() as int));
        assert(tail.subrange(n + 1, tail.len() as int) =~= join(rest));
        if rest.len() == 1 {
            assert(join(rest) == nt);
        } else {
            assert(join(rest) == nt + seq![' '] + join(rest.drop_first()));
        }
        assert(s[j + 1] == join(rest)[0]);
        assert(!is_blank(s[j + 1])) by {
            match rest[0] {
                Piece::Word(w) => {
                    assert(nt[0] == w[0]);
                },
                Piece::Quoted(c) => {
                    assert(nt[0] == '"');
                },
            }
        }
        lemma_skip_space(s, p, j);
        lemma_lex_join(s, p, j + 1, false, rest);
        let ls = lex_from(s, p, i, b)->Ok_0;
        let rl = lex_from(s, p, j + 1, false)->Ok_0;
        assert forall|k: int| 0 <= k < ps.len() implies reads_back(s, #[trigger] ls[k], ps[k]) by {
            if k > 0 {
                assert(ls[k] == rl[k - 1]);
                assert(rest[k - 1] == ps[k]);
            }
        }
    }
}

/// The text of a keyword class.
pub open spec fn keyword_text(c: Class) -> Seq<char> {
    match c {
        Class::Load => "load"@,
        Class::As => "as"@,
        Class::Goto => "goto"@,
        Class::Type => "type"@,
        Class::TypeNl => "typenl"@,
        Class::NoNewline => "nonl"@,
        Class::Insert => "insert"@,
        Class::Replace => "replace"@,
        Class::Delete => "delete"@,
        Class::Speed => "speed"@,
        Class::Select => "select"@,
        Class::Find => "find"@,
        Class::LinePause => "linepause"@,
        _ => "wait"@,
    }
}

pub open spec fn is_keyword_class(c: Class) -> bool {
    c is Load || c is As || c is Goto || c is Type || c is TypeNl || c is NoNewline || c is Insert
        || c is Replace || c is Delete || c is Speed || c is Select || c is Find || c is LinePause
        || c is Wait
}

pub open spec fn is_lower(c: char) -> bool {
    'a' <= c <= 'z'
}

proof fn lemma_keywords()
    ensures
        forall|c: Class|
            is_keyword_class(c) ==> {
                &&& word_class(#[trigger] keyword_text(c)) == Some(c)
                &&& keyword_text(c).len() > 0
                &&& is_lower(keyword_text(c)[0])
                &&& forall|k: int|
                    0 <= k < keyword_text(c).len() ==> is_word_char(#[trigger] keyword_text(c)[k])
            },
        forall|w: Seq<char>| #[trigger] keyword(w) is Some ==> w.len() > 0 && is_lower(w[0]),
{
    reveal_strlit("load");
    assert("load"@ =~= seq!['l', 'o', 'a', 'd']);
    reveal_strlit("as");
    assert("as"@ =~= seq!['a', 's']);
    reveal_strlit("goto");
    assert("goto"@ =~= seq!['g', 'o', 't', 'o']);
    reveal_strlit("type");
    assert("type"@ =~= seq!['t', 'y', 'p', 'e']);
    reveal_strlit("typenl");
    assert("typenl"@ =~= seq!['t', 'y', 'p', 'e', 'n', 'l']);
    reveal_strlit("nonl");
    assert("nonl"@ =~= seq!['n', 'o', 'n', 'l']);
    reveal_strlit("insert");
    assert("insert"@ =~= seq!['i', 'n', 's', 'e', 'r', 't']);
    reveal_strlit("replace");
    assert("replace"@ =~= seq!['r', 'e', 'p', 'l', 'a', 'c', 'e']);
    reveal_strlit("delete");
    assert("delete"@ =~= seq!['d', 'e', 'l', 'e', 't', 'e']);
    reveal_strlit("speed");
    assert("speed"@ =~= seq!['s', 'p', 'e', 'e', 'd']);
    reveal_strlit("select");
    assert("select"@ =~= seq!['s', 'e', 'l', 'e', 'c', 't']);
    reveal_strlit("find");
    assert("find"@ =~= seq!['f', 'i', 'n', 'd']);
    reveal_strlit("linepause");
    assert("linepause"@ =~= seq!['l', 'i', 'n', 'e', 'p', 'a', 'u', 's', 'e']);
    reveal_strlit("wait");
    assert("wait"@ =~= seq!['w', 'a', 'i', 't']);
    assert forall|c: Class| is_keyword_class(c) implies {
        &&& word_class(#[trigger] keyword_text(c)) == Some(c)
        &&& keyword_text(c).len() > 0
        &&& is_lower(keyword_text(c)[0])
        &&& forall|k: int|
            0 <= k < keyword_text(c).len() ==> is_word_char(#[trigger] keyword_text(c)[k])
    } by {
        let t = keyword_text(c);
        assert forall|k: int| 0 <= k < t.len() implies is_lower(#[trigger] t[k]) by {
        }
    }
}

pub open spec fn digit_char(d: int) -> char {
    if d == 0 {
        '0'
    } else if d == 1 {
        '1'
    } else if d == 2 {
        '2'
    } else if d == 3 {
        '3'
    } else if d == 4 {
        '4'
    } else if d == 5 {
        '5'
    } else if d == 6 {
        '6'
    } else if d == 7 {
        '7'
    } else if d == 8 {
        '8'
    } else {
        '9'
    }
}

/// The decimal digits of `n`, without leading zeros.
pub open spec fn digits_text(n: nat) -> Seq<char>
    decreases n,
{
    if n < 10 {
        seq![digit_char(n as int)]
    } else {
        digits_text(n / 10).push(digit_char((n % 10) as int))
    }
}

/// The decimal text of an integer, with a leading `-` when negative.
pub open spec fn int_text(v: int) -> Seq<char> {
    if v < 0 {
        seq!['-'] + digits_text((-v) as nat)
    } else {
        digits_text(v as nat)
    }
}

proof fn lemma_digits_text(n: nat)
    ensures
        digits_text(n).len() > 0,
        all_digits(digits_text(n)),
        digits_value(digits_text(n)) == n,
    decreases n,
{
    if n >= 10 {
        lemma_digits_text(n / 10);
        let x = digits_text(n / 10);
        let d = digit_char((n % 10) as int);
        assert(x.push(d).drop_last() =~= x);
        assert(is_digit(d));
        assert(d as nat - '0' as nat == n % 10);
        assert(x.push(d).last() == d);
        assert(digits_value(x.push(d)) == digits_value(x) * 10 + (d as nat - '0' as nat));
        assert(n == (n / 10) * 10 + n % 10);
    } else {
        let d = digit_char(n as int);
        assert(seq![d].drop_last() =~= Seq::<char>::empty());
        assert(d as nat - '0' as nat == n);
        assert(seq![d].last() == d);
        assert(digits_value(Seq::<char>::empty()) == 0);
        assert(digits_value(seq![d]) == digits_value(Seq::<char>::empty()) * 10 + (d as nat - '0' as nat));
    }
}

/// The text of an integer whose magnitude fits in a `u64` lexes as that integer.
proof fn lemma_int_text(v: int)
    requires
        -(u64::MAX as int) <= v <= u64::MAX,
    ensures
        word_class(int_text(v)) == Some(Class::Int(v as i128)),
        int_text(v).len() > 0,
        int_text(v)[0] == '-' || is_digit(int_text(v)[0]),
        forall|k: int| 0 <= k < int_text(v).len() ==> is_word_char(#[trigger] int_text(v)[k]),
{
    lemma_keywords();
    let w = int_text(v);
    if v < 0 {
        let d = digits_text((-v) as nat);
        lemma_digits_text((-v) as nat);
        assert(w.drop_first() =~= d);
        assert forall|k: int| 0 <= k < w.len() implies is_word_char(#[trigger] w[k]) by {
            if k > 0 {
                assert(w[k] == d[k - 1]);
                assert(is_digit(d[k - 1]));
            }
        }
    } else {
        lemma_digits_text(v as nat);
        assert forall|k: int| 0 <= k < w.len() implies is_word_char(#[trigger] w[k]) by {
            assert(is_digit(w[k]));
        }
    }
    assert(is_int_form(w));
    assert(keyword(w) is None) by {
        if keyword(w) is Some {
            assert(is_lower(w[0]));
        }
    }
}

pub open spec fn source_piece(src: Source) -> Piece {
    match src {
        Source::Str(x) => Piece::Quoted(x@),
        Source::Ident(x) => Piece::Word(x@),
    }
}

pub open spec fn kw(c: Class) -> Piece {
    Piece::Word(keyword_text(c))
}

pub open spec fn num(v: int) -> Piece {
    Piece::Word(int_text(v))
}

/// The words of the canonical one-line spelling of an instruction.
pub open spec fn pieces(i: Instruction) -> Seq<Piece> {
    match i {
        Instruction::Load(path, key) => seq![
            kw(Class::Load),
            Piece::Quoted(path@),
            kw(Class::As),
            Piece::Word(key@),
        ],
        Instruction::Goto(Dest::Marker(m)) => seq![kw(Class::Goto), Piece::Word(m@)],
        Instruction::Goto(Dest::Relative { row, col }) => seq![
            kw(Class::Goto),
            num(row as int),
            num(col as int),
        ],
        Instruction::Type { source, trim_trailing_newline, prefix_newline } => seq![
            if prefix_newline {
                kw(Class::TypeNl)
            } else {
                kw(Class::Type)
            },
            source_piece(source),
        ] + if trim_trailing_newline {
            seq![kw(Class::NoNewline)]
        } else {
            seq![]
        },
        Instruction::Insert(source) => seq![kw(Class::Insert), source_piece(source)],
        Instruction::Replace { src, replacement } => seq![
            kw(Class::Replace),
            Piece::Quoted(src@),
            source_piece(replacement),
        ],
        Instruction::Delete => seq![kw(Class::Delete)],
        Instruction::Speed(n) => seq![kw(Class::Speed), num(n as int)],
        Instruction::Select { width, height } => seq![
            kw(Class::Select),
            num(width as int),
            num(height as int),
        ],
        Instruction::Find(needle) => seq![kw(Class::Find), Piece::Quoted(needle@)],
        Instruction::LinePause(n) => seq![kw(Class::LinePause), num(n as int)],
        Instruction::Wait(n) => seq![kw(Class::Wait), num(n as int)],
    }
}

/// The canonical one-line spelling of an instruction.
pub open spec fn render(i: Instruction) -> Seq<char> {
    join(pieces(i))
}

/// A name that reads back as an identifier under the `//` comment prefix: a
/// word that is no keyword, no integer, and does not start with `//`.
pub open spec fn valid_ident(w: Seq<char>) -> bool {
    &&& w.len() > 0
    &&& forall|k: int| 0 <= k < w.len() ==> is_word_char(#[trigger] w[k])
    &&& keyword(w) is None
    &&& !is_int_form(w)
    &&& !(w.len() >= 2 && w[0] == '/' && w[1] == '/')
}

/// Text that can stand between double quotes.
pub open spec fn valid_text(c: Seq<char>) -> bool {
    forall|k: int| 0 <= k < c.len() ==> #[trigger] c[k] != '"'
}

pub open spec fn valid_source(src: Source) -> bool {
    match src {
        Source::Str(x) => valid_text(x@),
        Source::Ident(x) => valid_ident(x@),
    }
}

/// An instruction that its canonical spelling can express.
pub open spec fn valid_instruction(i: Instruction) -> bool {
    match i {
        Instruction::Load(path, key) => valid_text(path@) && valid_ident(key@),
        Instruction::Goto(Dest::Marker(m)) => valid_ident(m@),
        Instruction::Type { source, .. } => valid_source(source),
        Instruction::Insert(source) => valid_source(source),
        Instruction::Replace { src, replacement } => valid_text(src@) && valid_source(replacement),
        Instruction::Find(needle) => valid_text(needle@),
        _ => true,
    }
}

pub open spec fn same_source(a: Source, b: Source) -> bool {
    match (a, b) {
        (Source::Str(x), Source::Str(y)) => x@ == y@,
        (Source::Ident(x), Source::Ident(y)) => x@ == y@,
        _ => false,
    }
}

/// Two instructions agree, comparing their text operands by content.
pub open spec fn same_instruction(a: Instruction, b: Instruction) -> bool {
    match (a, b) {
        (Instruction::Load(p1, k1), Instruction::Load(p2, k2)) => p1@ == p2@ && k1@ == k2@,
        (Instruction::Goto(Dest::Marker(m1)), Instruction::Goto(Dest::Marker(m2))) => m1@ == m2@,
        (
            Instruction::Type { source: s1, trim_trailing_newline: t1, prefix_newline: n1 },
            Instruction::Type { source: s2, trim_trailing_newline: t2, prefix_newline: n2 },
        ) => same_source(s1, s2) && t1 == t2 && n1 == n2,
        (Instruction::Insert(s1), Instruction::Insert(s2)) => same_source(s1, s2),
        (
            Instruction::Replace { src: a1, replacement: r1 },
            Instruction::Replace { src: a2, replacement: r2 },
        ) => a1@ == a2@ && same_source(r1, r2),
        (Instruction::Find(n1), Instruction::Find(n2)) => n1@ == n2@,
        _ => a == b,
    }
}

proof fn lemma_pieces_ok(i: Instruction, p: Seq<char>)
    requires
        valid_instruction(i),
        p.len() == 2,
        p[0] == '/',
        p[1] == '/',
    ensures
        forall|k: int| 0 <= k < pieces(i).len() ==> piece_ok(#[trigger] pieces(i)[k], p),
{
    lemma_keywords();
    let ps = pieces(i);
    match i {
        Instruction::Goto(Dest::Relative { row, col }) => {
            lemma_int_text(row as int);
            lemma_int_text(col as int);
        },
        Instruction::Select { width, height } => {
            lemma_int_text(width as int);
            lemma_int_text(height as int);
        },
        Instruction::Speed(n) => {
            lemma_int_text(n as int);
        },
        Instruction::LinePause(n) => {
            lemma_int_text(n as int);
        },
        Instruction::Wait(n) => {
            lemma_int_text(n as int);
        },
        _ => {},
    }
    assert forall|k: int| 0 <= k < ps.len() implies piece_ok(#[trigger] ps[k], p) by {
        match ps[k] {
            Piece::Word(w) => {
                if !is_int_form(w) && keyword(w) is None && w.len() > 0 {
                    assert(word_class(w) == Some(Class::Ident));
                }
                if p.len() <= w.len() && w.subrange(0, 2) == p {
                    assert(w.subrange(0, 2)[0] == w[0]);
                    assert(w.subrange(0, 2)[1] == w[1]);
                }
            },
            Piece::Quoted(_) => {},
        }
    }
}

pub open spec fn source_from(src: Source, k: TokenKind) -> Source {
    match src {
        Source::Str(_) => Source::Str(k->Str_0),
        Source::Ident(_) => Source::Ident(k->Ident_0),
    }
}

/// `i` with its text operands taken from the tokens that spell it.
pub open spec fn rebuilt(i: Instruction, ts: Seq<Token>) -> Instruction {
    match i {
        Instruction::Load(_, _) => Instruction::Load(ts[1].kind->Str_0, ts[3].kind->Ident_0),
        Instruction::Goto(Dest::Marker(_)) => Instruction::Goto(Dest::Marker(ts[1].kind->Ident_0)),
        Instruction::Type { source, trim_trailing_newline, prefix_newline } => Instruction::Type {
            source: source_from(source, ts[1].kind),
            trim_trailing_newline,
            prefix_newline,
        },
        Instruction::Insert(source) => Instruction::Insert(source_from(source, ts[1].kind)),
        Instruction::Replace { src: _, replacement } => Instruction::Replace {
            src: ts[1].kind->Str_0,
            replacement: source_from(replacement, ts[2].kind),
        },
        Instruction::Find(_) => Instruction::Find(ts[1].kind->Str_0),
        _ => i,
    }
}

/// The kind of token a payload-free class stands for.
pub open spec fn kind_of(c: Class) -> TokenKind {
    match c {
        Class::Load => TokenKind::Load,
        Class::As => TokenKind::As,
        Class::Goto => TokenKind::Goto,
        Class::Type => TokenKind::Type,
        Class::TypeNl => TokenKind::TypeNl,
        Class::NoNewline => TokenKind::NoNewline,
        Class::Insert => TokenKind::Insert,
        Class::Replace => TokenKind::Replace,
        Class::Delete => TokenKind::Delete,
        Class::Speed => TokenKind::Speed,
        Class::Select => TokenKind::Select,
        Class::Find => TokenKind::Find,
        Class::LinePause => TokenKind::LinePause,
        Class::Wait => TokenKind::Wait,
        Class::Int(v) => TokenKind::Int(v),
        Class::Newline => TokenKind::Newline,
        Class::Comment => TokenKind::Comment,
        Class::Whitespace => TokenKind::Whitespace,
        _ => TokenKind::Eof,
    }
}

/// The token spells the piece.
pub open spec fn token_reads(t: Token, pc: Piece) -> bool {
    match pc {
        Piece::Word(w) => if word_class(w)->0 is Ident {
            t.kind is Ident && t.kind->Ident_0@ == w
        } else {
            t.kind == kind_of(word_class(w)->0)
        },
        Piece::Quoted(c) => t.kind is Str && t.kind->Str_0@ == c,
    }
}

proof fn lemma_token_piece(t: Token, l: Lexeme, s: Seq<char>, pc: Piece)
    requires
        token_matches(t, l, s),
        reads_back(s, l, pc),
        pc matches Piece::Word(w) ==> word_class(w) is Some,
    ensures
        token_reads(t, pc),
{
    if let Piece::Word(w) = pc {
        assert(!(word_class(w)->0 is Str));
    }
}

#[verifier::rlimit(100)]
proof fn lemma_spelled(i: Instruction, ts: Seq<Token>)
    requires
        valid_instruction(i),
        ts.len() > pieces(i).len(),
        forall|k: int| 0 <= k < pieces(i).len() ==> token_reads(#[trigger] ts[k], pieces(i)[k]),
    ensures
        rendered(rebuilt(i, ts)).len() == pieces(i).len(),
        forall|k: int|
            0 <= k < pieces(i).len() ==> (#[trigger] ts[k]).kind == rendered(rebuilt(i, ts))[k],
        same_instruction(rebuilt(i, ts), i),
{
    lemma_keywords();
    let ps = pieces(i);
    let j = rebuilt(i, ts);
    match i {
        Instruction::Goto(Dest::Relative { row, col }) => {
            lemma_int_text(row as int);
            lemma_int_text(col as int);
        },
        Instruction::Select { width, height } => {
            lemma_int_text(width as int);
            lemma_int_text(height as int);
        },
        Instruction::Speed(v) => {
            lemma_int_text(v as int);
        },
        Instruction::LinePause(v) => {
            lemma_int_text(v as int);
        },
        Instruction::Wait(v) => {
            lemma_int_text(v as int);
        },
        _ => {},
    }
    assert(rendered(j).len() == ps.len());
    assert forall|k: int| 0 <= k < ps.len() implies (#[trigger] ts[k]).kind == rendered(j)[k] by {
        assert(token_reads(ts[k], ps[k]));
    }
}

/// The canonical spelling of a valid instruction lexes without error.
pub proof fn lemma_render_lexes(i: Instruction)
    requires
        valid_instruction(i),
        render(i).len() <= usize::MAX,
    ensures
        lexemes(render(i), "//"@) is Ok,
{
    let s = render(i);
    reveal_strlit("//");
    let p = "//"@;
    assert(p.len() == 2 && p[0] == '/' && p[1] == '/');
    assert(prefix_blank_free(p));
    lemma_pieces_ok(i, p);
    assert(s.subrange(0, s.len() as int) =~= join(pieces(i)));
    lemma_lex_join(s, p, 0, true, pieces(i));
}

/// Lexing and parsing the canonical spelling of an instruction, with `//` as
/// comment prefix, gives back that one instruction.
pub proof fn lemma_round_trip(i: Instruction, ts: Seq<Token>)
    requires
        valid_instruction(i),
        render(i).len() <= usize::MAX,
        tokens_match(ts, lexemes(render(i), "//"@)->Ok_0, render(i)),
    ensures
        lexemes(render(i), "//"@) is Ok,
        parse_tokens(ts) matches Ok(is) && is.len() == 1 && same_instruction(is[0], i),
{
    let s = render(i);
    reveal_strlit("//");
    let p = "//"@;
    assert(p.len() == 2 && p[0] == '/' && p[1] == '/');
    assert(prefix_blank_free(p));
    lemma_pieces_ok(i, p);
    lemma_keywords();
    let ps = pieces(i);
    assert(s.subrange(0, s.len() as int) =~= join(ps));
    lemma_lex_join(s, p, 0, true, ps);
    let ls = lexemes(s, p)->Ok_0;
    let n = ps.len() as int;
    assert(token_matches(ts[n], ls[n], s));
    assert(ts.last().kind is Eof);
    assert forall|k: int| 0 <= k < n implies token_matches(#[trigger] ts[k], ls[k], s) && reads_back(
        s,
        ls[k],
        ps[k],
    ) by {}
    assert forall|k: int| 0 <= k < n implies token_reads(#[trigger] ts[k], ps[k]) by {
        assert(token_matches(ts[k], ls[k], s));
        assert(piece_ok(ps[k], p));
        lemma_token_piece(ts[k], ls[k], s, ps[k]);
    }
    lemma_spelled(i, ts);
    assert(spells_instruction(ts, rebuilt(i, ts)));
    lemma_parse_rendered(rebuilt(i, ts), ts);
}

/// The canonical line of `i` followed by a space and one more piece.
pub open spec fn render_then(i: Instruction, extra: Piece) -> Seq<char> {
    join(pieces(i).push(extra))
}

/// A `nonl` after a `type` line without one belongs to that line.
pub open spec fn absorbed(i: Instruction, extra: Piece) -> bool {
    &&& i matches Instruction::Type { trim_trailing_newline: false, .. }
    &&& extra matches Piece::Word(w) && word_class(w) == Some(Class::NoNewline)
}

/// The canonical line of an instruction followed by one more piece lexes without error.
pub proof fn lemma_trailing_piece_lexes(i: Instruction, extra: Piece)
    requires
        valid_instruction(i),
        piece_ok(extra, "//"@),
        render_then(i, extra).len() <= usize::MAX,
    ensures
        lexemes(render_then(i, extra), "//"@) is Ok,
{
    lemma_render_then_pieces(i, extra);
}

proof fn lemma_render_then_pieces(i: Instruction, extra: Piece)
    requires
        valid_instruction(i),
        piece_ok(extra, "//"@),
        render_then(i, extra).len() <= usize::MAX,
    ensures
        lexemes(render_then(i, extra), "//"@) is Ok,
        lexemes(render_then(i, extra), "//"@)->Ok_0.len() == pieces(i).len() + 2,
        forall|k: int|
            0 <= k <= pieces(i).len() ==> reads_back(
                render_then(i, extra),
                #[trigger] lexemes(render_then(i, extra), "//"@)->Ok_0[k],
                pieces(i).push(extra)[k],
            ),
        forall|k: int|
            0 <= k <= pieces(i).len() ==> piece_ok(#[trigger] pieces(i).push(extra)[k], "//"@),
{
    let s = render_then(i, extra);
    reveal_strlit("//");
    let p = "//"@;
    assert(p.len() == 2 && p[0] == '/' && p[1] == '/');
    assert(prefix_blank_free(p));
    lemma_pieces_ok(i, p);
    let ps = pieces(i).push(extra);
    assert forall|k: int| 0 <= k < ps.len() implies piece_ok(#[trigger] ps[k], p) by {
        if k < pieces(i).len() {
            assert(ps[k] == pieces(i)[k]);
        }
    }
    assert(s.subrange(0, s.len() as int) =~= join(ps));
    lemma_lex_join(s, p, 0, true, ps);
}

/// The canonical line of a valid instruction followed by a space and one more
/// word or quoted text (but for a `nonl` that a `type` line takes as its own)
/// fails with `UnexpectedToken` on that extra token.
pub proof fn lemma_trailing_piece(i: Instruction, extra: Piece, ts: Seq<Token>)
    requires
        valid_instruction(i),
        piece_ok(extra, "//"@),
        !absorbed(i, extra),
        render_then(i, extra).len() <= usize::MAX,
        tokens_match(ts, lexemes(render_then(i, extra), "//"@)->Ok_0, render_then(i, extra)),
    ensures
        lexemes(render_then(i, extra), "//"@) is Ok,
        parse_tokens(ts) == Err::<Seq<Instruction>, Error>(
            Error::UnexpectedToken {
                expected: Expected::NewlineOrEof,
                token: ts[pieces(i).len() as int],
            },
        ),
        token_reads(ts[pieces(i).len() as int], extra),
{
    let s = render_then(i, extra);
    let p = "//"@;
    lemma_render_then_pieces(i, extra);
    let ls = lexemes(s, p)->Ok_0;
    let ps = pieces(i).push(extra);
    let n = pieces(i).len() as int;
    assert forall|k: int| 0 <= k <= n implies token_reads(#[trigger] ts[k], ps[k]) by {
        assert(token_matches(ts[k], ls[k], s));
        assert(piece_ok(ps[k], p));
        assert(reads_back(s, ls[k], ps[k]));
        lemma_token_piece(ts[k], ls[k], s, ps[k]);
    }
    assert forall|k: int| 0 <= k < n implies token_reads(#[trigger] ts[k], pieces(i)[k]) by {
        assert(token_reads(ts[k], ps[k]));
        assert(ps[k] == pieces(i)[k]);
    }
    assert(token_reads(ts[n], extra)) by {
        assert(token_reads(ts[n], ps[n]));
    }
    lemma_spelled(i, ts);
    let j = rebuilt(i, ts);
    lemma_keywords();
    assert(!is_filler(ts[n].kind) && !(ts[n].kind is Eof) && !(j matches Instruction::Type {
        trim_trailing_newline: false,
        ..
    } && ts[n].kind is NoNewline)) by {
        if let Piece::Word(w) = extra {
            assert(piece_ok(extra, p));
            assert(word_class(w) is Some);
        }
    }
    assert(spells_prefix(ts, j));
    lemma_instruction_rendered(j, ts);
    lemma_lexed_stream_wf(s, p, ts, ls);
    let rest = ts.subrange(n, ts.len() as int);
    assert(head(rest) == ts[n]);
    lemma_trailing_token_is_unexpected(ts);
}

} // verus!

use vstd::prelude::*;
use crate::error::{Error, LexProblem};
use crate::token::{stream_wf, Span, Token, TokenKind};

verus! {

/// What a lexeme is, without the text it carries.
#[derive(Clone, Copy, Debug, PartialEq, Eq, Structural)]
pub enum Class {
    Load,
    As,
    Goto,
    Type,
    TypeNl,
    NoNewline,
    Insert,
    Replace,
    Delete,
    Speed,
    Select,
    Find,
    LinePause,
    Wait,
    Str,
    Int(i128),
    Ident,
    Newline,
    Comment,
    Whitespace,
    Eof,
}

/// A class and the span of source it covers; literal text is read back from the span.
#[derive(Clone, Copy, Debug, PartialEq, Eq, Structural)]
pub struct Lexeme {
    pub class: Class,
    pub span: Span,
}

/// Characters that separate tokens on a line.
pub open spec fn is_blank(c: char) -> bool {
    c == ' ' || c == '\t' || c == '\r' || c == ','
}

/// Characters that make up identifiers, keywords and integers.
pub open spec fn is_word_char(c: char) -> bool {
    !is_blank(c) && c != '\n' && c != '"'
}

pub open spec fn blank_end(s: Seq<char>, i: int) -> int
    decreases s.len() - i,
{
    if 0 <= i < s.len() && is_blank(s[i]) {
        blank_end(s, i + 1)
    } else {
        i
    }
}

pub open spec fn word_end(s: Seq<char>, i: int) -> int
    decreases s.len() - i,
{
    if 0 <= i < s.len() && is_word_char(s[i]) {
        word_end(s, i + 1)
    } else {
        i
    }
}

pub open spec fn line_end(s: Seq<char>, i: int) -> int
    decreases s.len() - i,
{
    if 0 <= i < s.len() && s[i] != '\n' {
        line_end(s, i + 1)
    } else {
        i
    }
}

pub open spec fn quote_end(s: Seq<char>, i: int) -> int
    decreases s.len() - i,
{
    if 0 <= i < s.len() && s[i] != '"' {
        quote_end(s, i + 1)
    } else {
        i
    }
}

/// A comment starts at `i` when the (non-empty) prefix stands there.
pub open spec fn starts_comment(s: Seq<char>, p: Seq<char>, i: int) -> bool {
    p.len() > 0 && i + p.len() <= s.len() && s.subrange(i, i + p.len()) == p
}

pub open spec fn keyword(w: Seq<char>) -> Option<Class> {
    if w == "load"@ {
        Some(Class::Load)
    } else if w == "as"@ {
        Some(Class::As)
    } else if w == "goto"@ {
        Some(Class::Goto)
    } else if w == "type"@ {
        Some(Class::Type)
    } else if w == "typenl"@ {
        Some(Class::TypeNl)
    } else if w == "nonl"@ {
        Some(Class::NoNewline)
    } else if w == "insert"@ {
        Some(Class::Insert)
    } else if w == "replace"@ {
        Some(Class::Replace)
    } else if w == "delete"@ {
        Some(Class::Delete)
    } else if w == "speed"@ {
        Some(Class::Speed)
    } else if w == "select"@ {
        Some(Class::Select)
    } else if w == "find"@ {
        Some(Class::Find)
    } else if w == "linepause"@ {
        Some(Class::LinePause)
    } else if w == "wait"@ {
        Some(Class::Wait)
    } else {
        None
    }
}

pub open spec fn is_digit(c: char) -> bool {
    '0' <= c <= '9'
}

pub open spec fn all_digits(w: Seq<char>) -> bool {
    forall|k: int| 0 <= k < w.len() ==> is_digit(#[trigger] w[k])
}

/// The value of a run of decimal digits.
pub open spec fn digits_value(w: Seq<char>) -> nat
    decreases w.len(),
{
    if w.len() == 0 {
        0
    } else {
        digits_value(w.drop_last()) * 10 + (w.last() as nat - '0' as nat) as nat
    }
}

/// An optional `-` followed by at least one digit.
pub open spec fn is_int_form(w: Seq<char>) -> bool {
    (w.len() >= 1 && all_digits(w)) || (w.len() >= 2 && w[0] == '-' && all_digits(w.drop_first()))
}

pub open spec fn int_value(w: Seq<char>) -> int {
    if w.len() > 0 && w[0] == '-' {
        -digits_value(w.drop_first())
    } else {
        digits_value(w) as int
    }
}

/// Integer literals are kept when their magnitude fits in a `u64`; each
/// operand slot then checks its own range.
pub open spec fn literal_in_range(v: int) -> bool {
    -(u64::MAX as int) <= v <= u64::MAX
}

/// The class of a word: a keyword, an integer, or an identifier. `None` for an
/// integer whose magnitude does not fit in a `u64`.
pub open spec fn word_class(w: Seq<char>) -> Option<Class> {
    if keyword(w) is Some {
        keyword(w)
    } else if is_int_form(w) {
        if literal_in_range(int_value(w)) {
            Some(Class::Int(int_value(w) as i128))
        } else {
            None
        }
    } else {
        Some(Class::Ident)
    }
}

pub open spec fn span(i: int, j: int) -> Span {
    Span { start: i as usize, end: j as usize }
}

pub open spec fn push_front(l: Lexeme, r: Result<Seq<Lexeme>, Error>) -> Result<Seq<Lexeme>, Error> {
    match r {
        Ok(ls) => Ok(seq![l] + ls),
        Err(e) => Err(e),
    }
}

pub proof fn lemma_run_ends(s: Seq<char>, i: int)
    requires
        0 <= i <= s.len(),
    ensures
        i <= blank_end(s, i) <= s.len(),
        i <= word_end(s, i) <= s.len(),
        i <= line_end(s, i) <= s.len(),
        i <= quote_end(s, i) <= s.len(),
    decreases s.len() - i,
{
    if i < s.len() {
        lemma_run_ends(s, i + 1);
    }
}

#[via_fn]
proof fn lex_from_decreases(s: Seq<char>, p: Seq<char>, i: int, line_start: bool) {
    if 0 <= i < s.len() {
        lemma_run_ends(s, i);
        lemma_run_ends(s, i + 1);
        if starts_comment(s, p, i) {
            lemma_run_ends(s, i + p.len());
        }
    }
}

/// The lexemes of `s` from position `i`, where `line_start` tells whether `i`
/// begins a line; or the first lexical error.
pub open spec fn lex_from(s: Seq<char>, p: Seq<char>, i: int, line_start: bool) -> Result<
    Seq<Lexeme>,
    Error,
>
    decreases s.len() - i,
    via lex_from_decreases
{
    if i < 0 || i >= s.len() {
        Ok(seq![Lexeme { class: Class::Eof, span: span(i, i) }])
    } else if starts_comment(s, p, i) {
        let j = line_end(s, i + p.len());
        push_front(Lexeme { class: Class::Comment, span: span(i, j) }, lex_from(s, p, j, false))
    } else if is_blank(s[i]) {
        let j = blank_end(s, i);
        if line_start {
            push_front(
                Lexeme { class: Class::Whitespace, span: span(i, j) },
                lex_from(s, p, j, false),
            )
        } else {
            lex_from(s, p, j, false)
        }
    } else if s[i] == '\n' {
        push_front(
            Lexeme { class: Class::Newline, span: span(i, i + 1) },
            lex_from(s, p, i + 1, true),
        )
    } else if s[i] == '"' {
        let j = quote_end(s, i + 1);
        if j >= s.len() {
            Err(Error::Lex { problem: LexProblem::UnterminatedString, span: span(i, s.len() as int) })
        } else {
            push_front(Lexeme { class: Class::Str, span: span(i, j + 1) }, lex_from(s, p, j + 1, false))
        }
    } else {
        let j = word_end(s, i);
        match word_class(s.subrange(i, j)) {
            Some(c) => push_front(Lexeme { class: c, span: span(i, j) }, lex_from(s, p, j, false)),
            None => Err(Error::Lex { problem: LexProblem::IntegerOutOfRange, span: span(i, j) }),
        }
    }
}

/// The lexemes of a whole source text with the given comment prefix.
pub open spec fn lexemes(s: Seq<char>, p: Seq<char>) -> Result<Seq<Lexeme>, Error> {
    lex_from(s, p, 0, true)
}

/// The class a token kind belongs to.
pub open spec fn class_of(k: TokenKind) -> Class {
    match k {
        TokenKind::Load => Class::Load,
        TokenKind::As => Class::As,
        TokenKind::Goto => Class::Goto,
        TokenKind::Type => Class::Type,
        TokenKind::TypeNl => Class::TypeNl,
        TokenKind::NoNewline => Class::NoNewline,
        TokenKind::Insert => Class::Insert,
        TokenKind::Replace => Class::Replace,
        TokenKind::Delete => Class::Delete,
        TokenKind::Speed => Class::Speed,
        TokenKind::Select => Class::Select,
        TokenKind::Find => Class::Find,
        TokenKind::LinePause => Class::LinePause,
        TokenKind::Wait => Class::Wait,
        TokenKind::Str(_) => Class::Str,
        TokenKind::Int(v) => Class::Int(v),
        TokenKind::Ident(_) => Class::Ident,
        TokenKind::Newline => Class::Newline,
        TokenKind::Comment => Class::Comment,
        TokenKind::Whitespace => Class::Whitespace,
        TokenKind::Eof => Class::Eof,
    }
}

/// A token stands for a lexeme: same span, same class, and the text of a
/// string literal (inside its quotes) or of an identifier taken from the source.
pub open spec fn token_matches(t: Token, l: Lexeme, s: Seq<char>) -> bool {
    &&& t.span == l.span
    &&& class_of(t.kind) == l.class
    &&& (t.kind matches TokenKind::Str(x) ==> x@ == s.subrange(
        l.span.start + 1,
        l.span.end - 1,
    ))
    &&& (t.kind matches TokenKind::Ident(x) ==> x@ == s.subrange(
        l.span.start as int,
        l.span.end as int,
    ))
}

pub open spec fn tokens_match(ts: Seq<Token>, ls: Seq<Lexeme>, s: Seq<char>) -> bool {
    &&& ts.len() == ls.len()
    &&& forall|k: int| 0 <= k < ts.len() ==> token_matches(#[trigger] ts[k], ls[k], s)
}

/// `r` is what lexing `s` with comment prefix `p` gives.
pub open spec fn lexed(s: Seq<char>, p: Seq<char>, r: Result<Vec<Token>, Error>) -> bool {
    match (r, lexemes(s, p)) {
        (Ok(ts), Ok(ls)) => tokens_match(ts@, ls, s),
        (Err(e), Err(f)) => e == f,
        _ => false,
    }
}

pub open spec fn append_lexemes(done: Seq<Lexeme>, r: Result<Seq<Lexeme>, Error>) -> Result<
    Seq<Lexeme>,
    Error,
> {
    match r {
        Ok(ls) => Ok(done + ls),
        Err(e) => Err(e),
    }
}

proof fn lemma_append_push(done: Seq<Lexeme>, l: Lexeme, r: Result<Seq<Lexeme>, Error>)
    ensures
        append_lexemes(done, push_front(l, r)) == append_lexemes(done.push(l), r),
{
    if let Ok(ls) = r {
        assert(done + (seq![l] + ls) =~= done.push(l) + ls);
    }
}

fn chars_of(s: &str) -> (r: Vec<char>)
    ensures
        r@ == s@,
{
    let mut v: Vec<char> = Vec::new();
    for c in it: s.chars()
        invariant
            v@ == it.seq().take(it.index() as int),
    {
        v.push(c);
    }
    v
}

fn blank(c: char) -> (r: bool)
    ensures
        r == is_blank(c),
{
    c == ' ' || c == '\t' || c == '\r' || c == ','
}

fn word_char(c: char) -> (r: bool)
    ensures
        r == is_word_char(c),
{
    !blank(c) && c != '\n' && c != '"'
}

fn skip_blank(s: &Vec<char>, i: usize) -> (j: usize)
    requires
        i <= s.len(),
    ensures
        j == blank_end(s@, i as int),
{
    let mut j = i;
    while j < s.len() && blank(s[j])
        invariant
            i <= j <= s.len(),
            blank_end(s@, i as int) == blank_end(s@, j as int),
        decreases s.len() - j,
    {
        j += 1;
    }
    j
}

fn skip_word(s: &Vec<char>, i: usize) -> (j: usize)
    requires
        i <= s.len(),
    ensures
        j == word_end(s@, i as int),
{
    let mut j = i;
    while j < s.len() && word_char(s[j])
        invariant
            i <= j <= s.len(),
            word_end(s@, i as int) == word_end(s@, j as int),
        decreases s.len() - j,
    {
        j += 1;
    }
    j
}

fn skip_line(s: &Vec<char>, i: usize) -> (j: usize)
    requires
        i <= s.len(),
    ensures
        j == line_end(s@, i as int),
{
    let mut j = i;
    while j < s.len() && s[j] != '\n'
        invariant
            i <= j <= s.len(),
            line_end(s@, i as int) == line_end(s@, j as int),
        decreases s.len() - j,
    {
        j += 1;
    }
    j
}

fn skip_to_quote(s: &Vec<char>, i: usize) -> (j: usize)
    requires
        i <= s.len(),
    ensures
        j == quote_end(s@, i as int),
{
    let mut j = i;
    while j < s.len() && s[j] != '"'
        invariant
            i <= j <= s.len(),
            quote_end(s@, i as int) == quote_end(s@, j as int),
        decreases s.len() - j,
    {
        j += 1;
    }
    j
}

fn comment_at(s: &Vec<char>, p: &Vec<char>, i: usize) -> (r: bool)
    requires
        i <= s.len(),
    ensures
        r == starts_comment(s@, p@, i as int),
{
    if p.len() == 0 || p.len() > s.len() - i {
        return false;
    }
    let mut k: usize = 0;
    while k < p.len()
        invariant
            0 < p.len() <= s.len() - i,
            k <= p.len(),
            forall|m: int| 0 <= m < k ==> s@[i + m] == p@[m],
        decreases p.len() - k,
    {
        if s[i + k] != p[k] {
            assert(s@.subrange(i as int, i + p.len())[k as int] != p@[k as int]);
            return false;
        }
        k += 1;
    }
    assert(s@.subrange(i as int, i + p.len()) =~= p@);
    true
}

/// Whether the characters `s[i..j]` spell `lit`.
fn spells(s: &Vec<char>, i: usize, j: usize, lit: &str) -> (r: bool)
    requires
        i <= j <= s.len(),
    ensures
        r == (s@.subrange(i as int, j as int) == lit@),
{
    let n = lit.unicode_len();
    if n != j - i {
        return false;
    }
    let mut k: usize = 0;
    while k < n
        invariant
            n == lit@.len(),
            n == j - i,
            i <= j <= s.len(),
            k <= n,
            forall|m: int| 0 <= m < k ==> s@[i + m] == lit@[m],
        decreases n - k,
    {
        if s[i + k] != lit.get_char(k) {
            assert(s@.subrange(i as int, j as int)[k as int] != lit@[k as int]);
            return false;
        }
        k += 1;
    }
    assert(s@.subrange(i as int, j as int) =~= lit@);
    true
}

/// The keyword that `s[i..j]` spells, if any.
fn keyword_kind(s: &Vec<char>, i: usize, j: usize) -> (r: Option<TokenKind>)
    requires
        i <= j <= s.len(),
    ensures
        match keyword(s@.subrange(i as int, j as int)) {
            Some(c) => r matches Some(k) && class_of(k) == c,
            None => r is None,
        },
{
    if spells(s, i, j, "load") {
        Some(TokenKind::Load)
    } else if spells(s, i, j, "as") {
        Some(TokenKind::As)
    } else if spells(s, i, j, "goto") {
        Some(TokenKind::Goto)
    } else if spells(s, i, j, "type") {
        Some(TokenKind::Type)
    } else if spells(s, i, j, "typenl") {
        Some(TokenKind::TypeNl)
    } else if spells(s, i, j, "nonl") {
        Some(TokenKind::NoNewline)
    } else if spells(s, i, j, "insert") {
        Some(TokenKind::Insert)
    } else if spells(s, i, j, "replace") {
        Some(TokenKind::Replace)
    } else if spells(s, i, j, "delete") {
        Some(TokenKind::Delete)
    } else if spells(s, i, j, "speed") {
        Some(TokenKind::Speed)
    } else if spells(s, i, j, "select") {
        Some(TokenKind::Select)
    } else if spells(s, i, j, "find") {
        Some(TokenKind::Find)
    } else if spells(s, i, j, "linepause") {
        Some(TokenKind::LinePause)
    } else if spells(s, i, j, "wait") {
        Some(TokenKind::Wait)
    } else {
        None
    }
}

fn digit(c: char) -> (r: bool)
    ensures
        r == is_digit(c),
{
    '0' <= c && c <= '9'
}

/// Whether `s[i..j]` is all digits.
fn digits_only(s: &Vec<char>, i: usize, j: usize) -> (r: bool)
    requires
        i <= j <= s.len(),
    ensures
        r == all_digits(s@.subrange(i as int, j as int)),
{
    let mut k = i;
    while k < j
        invariant
            i <= k <= j <= s.len(),
            forall|m: int| i <= m < k ==> is_digit(s@[m]),
        decreases j - k,
    {
        if !digit(s[k]) {
            assert(!is_digit(s@.subrange(i as int, j as int)[k - i]));
            return false;
        }
        k += 1;
    }
    assert forall|m: int| 0 <= m < j - i implies is_digit(
        #[trigger] s@.subrange(i as int, j as int)[m],
    ) by {
        assert(s@.subrange(i as int, j as int)[m] == s@[i + m]);
    }
    true
}

/// The value of the digits `s[i..j]`, or `None` when it exceeds `u64::MAX`.
fn digits_up_to_limit(s: &Vec<char>, i: usize, j: usize) -> (r: Option<u64>)
    requires
        i <= j <= s.len(),
        all_digits(s@.subrange(i as int, j as int)),
    ensures
        match r {
            Some(v) => v == digits_value(s@.subrange(i as int, j as int)),
            None => digits_value(s@.subrange(i as int, j as int)) > u64::MAX,
        },
{
    let mut acc: u64 = 0;
    let mut k = i;
    while k < j
        invariant
            i <= k <= j <= s.len(),
            all_digits(s@.subrange(i as int, j as int)),
            acc == digits_value(s@.subrange(i as int, k as int)),
        decreases j - k,
    {
        let ghost w = s@.subrange(i as int, (k + 1) as int);
        assert(w.drop_last() =~= s@.subrange(i as int, k as int));
        assert(s@.subrange(i as int, j as int)[k - i] == s@[k as int]);
        let d = (s[k] as u32 - '0' as u32) as u64;
        assert(digits_value(w) == acc * 10 + d);
        if acc > (u64::MAX - d) / 10 {
            proof {
                lemma_digits_grow(s@.subrange(i as int, j as int), k - i + 1);
                assert(s@.subrange(i as int, j as int).subrange(0, k - i + 1) =~= w);
            }
            return None;
        }
        acc = acc * 10 + d;
        k += 1;
    }
    Some(acc)
}

/// A longer run of digits is worth at least as much as its prefix.
proof fn lemma_digits_grow(w: Seq<char>, k: int)
    requires
        0 <= k <= w.len(),
        all_digits(w),
    ensures
        digits_value(w.subrange(0, k)) <= digits_value(w),
    decreases w.len() - k,
{
    if k < w.len() {
        lemma_digits_grow(w, k + 1);
        assert(w.subrange(0, k + 1).drop_last() =~= w.subrange(0, k));
        assert(w.subrange(0, k + 1).last() == w[k]);
        assert(is_digit(w[k]));
    } else {
        assert(w.subrange(0, k) =~= w);
    }
}

/// The value of the integer literal `s[i..j]`, when its magnitude fits in a `u64`.
fn int_literal(s: &Vec<char>, i: usize, j: usize) -> (r: Option<i128>)
    requires
        i <= j <= s.len(),
        is_int_form(s@.subrange(i as int, j as int)),
    ensures
        match r {
            Some(v) => v == int_value(s@.subrange(i as int, j as int)) && literal_in_range(v as int),
            None => !literal_in_range(int_value(s@.subrange(i as int, j as int))),
        },
{
    let ghost w = s@.subrange(i as int, j as int);
    if s[i] == '-' {
        assert(w.drop_first() =~= s@.subrange(i + 1, j as int));
        assert(!is_digit(w[0]));
        match digits_up_to_limit(s, i + 1, j) {
            Some(v) => Some(-(v as i128)),
            None => None,
        }
    } else {
        assert(w[0] == s@[i as int]);
        match digits_up_to_limit(s, i, j) {
            Some(v) => Some(v as i128),
            None => None,
        }
    }
}

/// The token for the word `s[i..j]`: a keyword, an integer or an identifier.
fn word_token(source: &str, s: &Vec<char>, i: usize, j: usize) -> (r: Result<TokenKind, Error>)
    requires
        s@ == source@,
        i <= j <= s.len(),
    ensures
        match word_class(s@.subrange(i as int, j as int)) {
            Some(c) => r matches Ok(k) && class_of(k) == c && (k matches TokenKind::Ident(x)
                ==> x@ == s@.subrange(i as int, j as int)),
            None => r == Err::<TokenKind, Error>(
                Error::Lex { problem: LexProblem::IntegerOutOfRange, span: span(i as int, j as int) },
            ),
        },
{
    if let Some(k) = keyword_kind(s, i, j) {
        return Ok(k);
    }
    let ghost w = s@.subrange(i as int, j as int);
    let int_form = if j > i && s[i] == '-' {
        assert(w.drop_first() =~= s@.subrange(i + 1, j as int));
        j - i >= 2 && digits_only(s, i + 1, j)
    } else {
        assert(j > i ==> w[0] == s@[i as int]);
        j > i && digits_only(s, i, j)
    };
    if int_form {
        match int_literal(s, i, j) {
            Some(v) => Ok(TokenKind::Int(v)),
            None => Err(Error::Lex { problem: LexProblem::IntegerOutOfRange, span: Span { start: i, end: j } }),
        }
    } else {
        Ok(TokenKind::Ident(source.substring_char(i, j).to_owned()))
    }
}

/// Splits `source` into tokens; lines that start with `comment_prefix`
/// (after optional blanks), and the rest of a line from the prefix on, are comments.
pub fn lex(source: &str, comment_prefix: &str) -> (r: Result<Vec<Token>, Error>)
    ensures
        lexed(source@, comment_prefix@, r),
{
    let s = chars_of(source);
    let p = chars_of(comment_prefix);
    let n = s.len();
    let mut out: Vec<Token> = Vec::new();
    let mut i: usize = 0;
    let mut line_start = true;
    let ghost mut done: Seq<Lexeme> = seq![];
    loop
        invariant_except_break
            lexemes(s@, p@) == append_lexemes(done, lex_from(s@, p@, i as int, line_start)),
        invariant
            s@ == source@,
            p@ == comment_prefix@,
            n == s.len(),
            i <= n,
            tokens_match(out@, done, s@),
        ensures
            lexemes(s@, p@) == Ok::<Seq<Lexeme>, Error>(done),
            tokens_match(out@, done, s@),
        decreases n - i,
    {
        let ghost at = i as int;
        let ghost sol = line_start;
        if i >= n {
            let l = Ghost(Lexeme { class: Class::Eof, span: span(at, at) });
            proof {
                lemma_append_push(done, l@, Ok(seq![]));
                assert(seq![l@] + seq![] =~= seq![l@]);
                done = done.push(l@);
            }
            out.push(Token { kind: TokenKind::Eof, span: Span { start: i, end: i } });
            break;
        }
        proof {
            lemma_run_ends(s@, at + 1);
        }
        let (kind, j, next_line_start): (Option<TokenKind>, usize, bool) = if comment_at(&s, &p, i) {
            proof {
                lemma_run_ends(s@, at + p@.len());
            }
            let j = skip_line(&s, i + p.len());
            (Some(TokenKind::Comment), j, false)
        } else if blank(s[i]) {
            let j = skip_blank(&s, i);
            if line_start {
                (Some(TokenKind::Whitespace), j, false)
            } else {
                (None, j, false)
            }
        } else if s[i] == '\n' {
            (Some(TokenKind::Newline), i + 1, true)
        } else if s[i] == '"' {
            proof {
                lemma_run_ends(s@, at + 1);
            }
            let q = skip_to_quote(&s, i + 1);
            if q >= n {
                return Err(
                    Error::Lex { problem: LexProblem::UnterminatedString, span: Span { start: i, end: n } },
                );
            }
            (Some(TokenKind::Str(source.substring_char(i + 1, q).to_owned())), q + 1, false)
        } else {
            proof {
                lemma_run_ends(s@, at);
            }
            let j = skip_word(&s, i);
            match word_token(source, &s, i, j) {
                Ok(k) => (Some(k), j, false),
                Err(e) => return Err(e),
            }
        };
        proof {
            lemma_run_ends(s@, at);
        }
        if let Some(kind) = kind {
            let t = Token { kind, span: Span { start: i, end: j } };
            let ghost l = Lexeme { class: class_of(t.kind), span: t.span };
            proof {
                assert(lex_from(s@, p@, at, sol) == push_front(l, lex_from(s@, p@, j as int, next_line_start)));
                lemma_append_push(done, l, lex_from(s@, p@, j as int, next_line_start));
                done = done.push(l);
            }
            out.push(t);
        }
        i = j;
        line_start = next_line_start;
    }
    Ok(out)
}

/// Lexing ends in exactly one end-of-file lexeme, the last one.
pub proof fn lemma_lex_from_ends_in_eof(s: Seq<char>, p: Seq<char>, i: int, line_start: bool)
    requires
        0 <= i,
    ensures
        lex_from(s, p, i, line_start) matches Ok(ls) ==> {
            &&& ls.len() >= 1
            &&& ls.last().class is Eof
            &&& forall|k: int| 0 <= k < ls.len() - 1 ==> !(#[trigger] ls[k].class is Eof)
        },
    decreases s.len() - i,
{
    if i < s.len() {
        lemma_run_ends(s, i);
        lemma_run_ends(s, i + 1);
        if starts_comment(s, p, i) {
            lemma_run_ends(s, i + p.len());
            lemma_lex_from_ends_in_eof(s, p, line_end(s, i + p.len()), false);
        } else if is_blank(s[i]) {
            lemma_lex_from_ends_in_eof(s, p, blank_end(s, i), false);
        } else if s[i] == '\n' {
            lemma_lex_from_ends_in_eof(s, p, i + 1, true);
        } else if s[i] == '"' {
            let j = quote_end(s, i + 1);
            if j < s.len() {
                lemma_lex_from_ends_in_eof(s, p, j + 1, false);
            }
        } else {
            lemma_lex_from_ends_in_eof(s, p, word_end(s, i), false);
        }
        if let Ok(ls) = lex_from(s, p, i, line_start) {
            if ls.len() > 0 && !(ls[0].class is Eof) && ls.len() > 1 {
                assert forall|k: int| 0 <= k < ls.len() - 1 implies !(#[trigger] ls[k].class is Eof) by {
                    if k > 0 {
                        assert(ls[k] == ls.drop_first()[k - 1]);
                    }
                }
            }
        }
    }
}

/// The tokens of a successful lex form a well-formed stream.
pub proof fn lemma_lexed_stream_wf(s: Seq<char>, p: Seq<char>, ts: Seq<Token>, ls: Seq<Lexeme>)
    requires
        lexemes(s, p) == Ok::<Seq<Lexeme>, Error>(ls),
        tokens_match(ts, ls, s),
    ensures
        stream_wf(ts),
{
    lemma_lex_from_ends_in_eof(s, p, 0, true);
    assert(token_matches(ts[ts.len() - 1], ls[ls.len() - 1], s));
    assert forall|k: int| 0 <= k < ts.len() - 1 implies !(#[trigger] ts[k].kind is Eof) by {
        assert(token_matches(ts[k], ls[k], s));
    }
}

/// From `i` on, the source holds only blanks, newlines and comments.
pub open spec fn quiet_from(s: Seq<char>, p: Seq<char>, i: int) -> bool
    decreases s.len() - i,
    via quiet_from_decreases
{
    if i < 0 || i >= s.len() {
        true
    } else if starts_comment(s, p, i) {
        quiet_from(s, p, line_end(s, i + p.len()))
    } else if is_blank(s[i]) || s[i] == '\n' {
        quiet_from(s, p, i + 1)
    } else {
        false
    }
}

#[via_fn]
proof fn quiet_from_decreases(s: Seq<char>, p: Seq<char>, i: int) {
    if 0 <= i < s.len() && starts_comment(s, p, i) {
        lemma_run_ends(s, i + p.len());
    }
}

/// A comment prefix that cannot be mistaken for blanks or a line break.
pub open spec fn prefix_ok(p: Seq<char>) -> bool {
    p.len() > 0 ==> !is_blank(p[0]) && p[0] != '\n'
}

pub open spec fn is_filler_class(c: Class) -> bool {
    c is Newline || c is Comment || c is Whitespace
}

proof fn lemma_quiet_past_blanks(s: Seq<char>, p: Seq<char>, i: int)
    requires
        0 <= i <= s.len(),
        prefix_ok(p),
        quiet_from(s, p, i),
    ensures
        quiet_from(s, p, blank_end(s, i)),
    decreases s.len() - i,
{
    if i < s.len() && is_blank(s[i]) {
        assert(!starts_comment(s, p, i)) by {
            if starts_comment(s, p, i) {
                assert(s.subrange(i, i + p.len())[0] == p[0]);
            }
        }
        lemma_quiet_past_blanks(s, p, i + 1);
    }
}

/// Lexing a quiet stretch of source succeeds and gives only newlines,
/// comments and blanks before the end of file.
pub proof fn lemma_quiet_lexes_fillers(s: Seq<char>, p: Seq<char>, i: int, line_start: bool)
    requires
        0 <= i,
        prefix_ok(p),
        quiet_from(s, p, i),
    ensures
        lex_from(s, p, i, line_start) is Ok,
        forall|k: int|
            0 <= k < lex_from(s, p, i, line_start)->Ok_0.len() - 1 ==> is_filler_class(
                (#[trigger] lex_from(s, p, i, line_start)->Ok_0[k]).class,
            ),
    decreases s.len() - i,
{
    if i < s.len() {
        lemma_run_ends(s, i);
        lemma_run_ends(s, i + 1);
        let j: int;
        let b: bool;
        if starts_comment(s, p, i) {
            lemma_run_ends(s, i + p.len());
            j = line_end(s, i + p.len());
            b = false;
        } else if is_blank(s[i]) {
            lemma_quiet_past_blanks(s, p, i);
            j = blank_end(s, i);
            b = false;
        } else {
            j = i + 1;
            b = true;
        }
        lemma_quiet_lexes_fillers(s, p, j, b);
        let rest = lex_from(s, p, j, b)->Ok_0;
        let ls = lex_from(s, p, i, line_start)->Ok_0;
        assert forall|k: int| 0 <= k < ls.len() - 1 implies is_filler_class(
            (#[trigger] ls[k]).class,
        ) by {
            if ls.len() > rest.len() && k > 0 {
                assert(ls[k] == rest[k - 1]);
            } else if ls.len() == rest.len() {
                assert(ls[k] == rest[k]);
            }
        }
    }
}

} // verus!

//! Splits the text of a program into tokens. A first pass cuts the text into
//! numbers, words, quoted texts and punctuation; a second pass tells keywords
//! from identifiers and names each punctuation mark.
use vstd::prelude::*;
use vstd::string::*;

verus! {

/// A token of the language.
#[derive(PartialEq, Debug)]
pub enum Token {
    Error,
    Quoted(String),
    Identifier(String),
    Number(i64),
    Type,
    True,
    False,
    Match,
    Module,
    Public,
    Ref,
    Import,
    If,
    While,
    Function,
    Let,
    Elseif,
    Else,
    RightArrow,
    FatRightArrow,
    LeftSquareBracket,
    RightSquareBracket,
    LeftRoundBracket,
    RightRoundBracket,
    LeftCurlyBracket,
    RightCurlyBracket,
    Backslash,
    Colon,
    Semicolon,
    Pipe,
    Comma,
    Equals,
    DoubleEquals,
    SmallerThan,
    GreaterThan,
    Modulo,
    Or,
    Plus,
    Mul,
    Not,
    ArrIndex,
}

/// A token as a mathematical value.
#[allow(inconsistent_fields)]
pub enum TokenView {
    Error,
    Quoted(Seq<char>),
    Identifier(Seq<char>),
    Number(i64),
    Type,
    True,
    False,
    Match,
    Module,
    Public,
    Ref,
    Import,
    If,
    While,
    Function,
    Let,
    Elseif,
    Else,
    RightArrow,
    FatRightArrow,
    LeftSquareBracket,
    RightSquareBracket,
    LeftRoundBracket,
    RightRoundBracket,
    LeftCurlyBracket,
    RightCurlyBracket,
    Backslash,
    Colon,
    Semicolon,
    Pipe,
    Comma,
    Equals,
    DoubleEquals,
    SmallerThan,
    GreaterThan,
    Modulo,
    Or,
    Plus,
    Mul,
    Not,
    ArrIndex,
}

impl View for Token {
    type V = TokenView;

    open spec fn view(&self) -> TokenView {
        match *self {
            Token::Error => TokenView::Error,
            Token::Quoted(s) => TokenView::Quoted(s@),
            Token::Identifier(s) => TokenView::Identifier(s@),
            Token::Number(n) => TokenView::Number(n),
            Token::Type => TokenView::Type,
            Token::True => TokenView::True,
            Token::False => TokenView::False,
            Token::Match => TokenView::Match,
            Token::Module => TokenView::Module,
            Token::Public => TokenView::Public,
            Token::Ref => TokenView::Ref,
            Token::Import => TokenView::Import,
            Token::If => TokenView::If,
            Token::While => TokenView::While,
            Token::Function => TokenView::Function,
            Token::Let => TokenView::Let,
            Token::Elseif => TokenView::Elseif,
            Token::Else => TokenView::Else,
            Token::RightArrow => TokenView::RightArrow,
            Token::FatRightArrow => TokenView::FatRightArrow,
            Token::LeftSquareBracket => TokenView::LeftSquareBracket,
            Token::RightSquareBracket => TokenView::RightSquareBracket,
            Token::LeftRoundBracket => TokenView::LeftRoundBracket,
            Token::RightRoundBracket => TokenView::RightRoundBracket,
            Token::LeftCurlyBracket => TokenView::LeftCurlyBracket,
            Token::RightCurlyBracket => TokenView::RightCurlyBracket,
            Token::Backslash => TokenView::Backslash,
            Token::Colon => TokenView::Colon,
            Token::Semicolon => TokenView::Semicolon,
            Token::Pipe => TokenView::Pipe,
            Token::Comma => TokenView::Comma,
            Token::Equals => TokenView::Equals,
            Token::DoubleEquals => TokenView::DoubleEquals,
            Token::SmallerThan => TokenView::SmallerThan,
            Token::GreaterThan => TokenView::GreaterThan,
            Token::Modulo => TokenView::Modulo,
            Token::Or => TokenView::Or,
            Token::Plus => TokenView::Plus,
            Token::Mul => TokenView::Mul,
            Token::Not => TokenView::Not,
            Token::ArrIndex => TokenView::ArrIndex,
        }
    }
}

impl Token {
    /// Same kind and same content.
    pub fn equals(&self, other: &Token) -> (eq: bool)
        ensures
            eq == (self@ == other@),
    {
        match (self, other) {
            (Token::Error, Token::Error) => true,
            (Token::Quoted(a), Token::Quoted(b)) => *a == *b,
            (Token::Identifier(a), Token::Identifier(b)) => *a == *b,
            (Token::Number(a), Token::Number(b)) => *a == *b,
            (Token::Type, Token::Type) => true,
            (Token::True, Token::True) => true,
            (Token::False, Token::False) => true,
            (Token::Match, Token::Match) => true,
            (Token::Module, Token::Module) => true,
            (Token::Public, Token::Public) => true,
            (Token::Ref, Token::Ref) => true,
            (Token::Import, Token::Import) => true,
            (Token::If, Token::If) => true,
            (Token::While, Token::While) => true,
            (Token::Function, Token::Function) => true,
            (Token::Let, Token::Let) => true,
            (Token::Elseif, Token::Elseif) => true,
            (Token::Else, Token::Else) => true,
            (Token::RightArrow, Token::RightArrow) => true,
            (Token::FatRightArrow, Token::FatRightArrow) => true,
            (Token::LeftSquareBracket, Token::LeftSquareBracket) => true,
            (Token::RightSquareBracket, Token::RightSquareBracket) => true,
            (Token::LeftRoundBracket, Token::LeftRoundBracket) => true,
            (Token::RightRoundBracket, Token::RightRoundBracket) => true,
            (Token::LeftCurlyBracket, Token::LeftCurlyBracket) => true,
            (Token::RightCurlyBracket, Token::RightCurlyBracket) => true,
            (Token::Backslash, Token::Backslash) => true,
            (Token::Colon, Token::Colon) => true,
            (Token::Semicolon, Token::Semicolon) => true,
            (Token::Pipe, Token::Pipe) => true,
            (Token::Comma, Token::Comma) => true,
            (Token::Equals, Token::Equals) => true,
            (Token::DoubleEquals, Token::DoubleEquals) => true,
            (Token::SmallerThan, Token::SmallerThan) => true,
            (Token::GreaterThan, Token::GreaterThan) => true,
            (Token::Modulo, Token::Modulo) => true,
            (Token::Or, Token::Or) => true,
            (Token::Plus, Token::Plus) => true,
            (Token::Mul, Token::Mul) => true,
            (Token::Not, Token::Not) => true,
            (Token::ArrIndex, Token::ArrIndex) => true,
            _ => false,
        }
    }
}

/// The views of a list of tokens, in order.
pub open spec fn tokens_view(ts: Seq<Token>) -> Seq<TokenView> {
    ts.map_values(|t: Token| t@)
}

/// What the first pass cuts the text into.
#[derive(PartialEq, Debug)]
pub enum SimpleToken {
    Error,
    Number(i64),
    Word(String),
    Punctuation(String),
    Quoted(String),
}

/// A piece of the first pass as a mathematical value.
pub enum SimpleTokenView {
    Error,
    Number(i64),
    Word(Seq<char>),
    Punctuation(Seq<char>),
    Quoted(Seq<char>),
}

impl View for SimpleToken {
    type V = SimpleTokenView;

    open spec fn view(&self) -> SimpleTokenView {
        match *self {
            SimpleToken::Error => SimpleTokenView::Error,
            SimpleToken::Number(n) => SimpleTokenView::Number(n),
            SimpleToken::Word(s) => SimpleTokenView::Word(s@),
            SimpleToken::Punctuation(s) => SimpleTokenView::Punctuation(s@),
            SimpleToken::Quoted(s) => SimpleTokenView::Quoted(s@),
        }
    }
}

/// The views of a list of pieces, in order.
pub open spec fn pieces_view(ts: Seq<SimpleToken>) -> Seq<SimpleTokenView> {
    ts.map_values(|t: SimpleToken| t@)
}

/// Whether `char::is_alphanumeric` holds of a character.
pub uninterp spec fn alphanumeric(c: char) -> bool;

/// Whether `char::is_whitespace` holds of a character.
pub uninterp spec fn whitespace(c: char) -> bool;

/// The digits are the ten of the decimal system.
pub open spec fn is_digit(c: char) -> bool {
    '0' <= c <= '9'
}

/// A word starts with a letter of the English alphabet or an underscore.
pub open spec fn starts_word(c: char) -> bool {
    ('a' <= c <= 'z') || ('A' <= c <= 'Z') || c == '_'
}

/// A word goes on with letters, digits, dots and underscores.
pub open spec fn continues_word(c: char) -> bool {
    alphanumeric(c) || c == '.' || c == '_'
}

/// The marks that are a piece on their own wherever they stand.
pub open spec fn is_single_mark(c: char) -> bool {
    c == '[' || c == ']' || c == '(' || c == ')' || c == ':' || c == '\\' || c == '{' || c == '}'
        || c == ';' || c == '%' || c == '+' || c == '*' || c == '<' || c == ','
}

/// The first position from `i` on that holds no digit.
pub open spec fn digits_end(s: Seq<char>, i: int) -> int
    decreases s.len() - i,
{
    if i < 0 || i >= s.len() || !is_digit(s[i]) {
        i
    } else {
        digits_end(s, i + 1)
    }
}

/// The first position from `i` on that does not continue a word.
pub open spec fn word_end(s: Seq<char>, i: int) -> int
    decreases s.len() - i,
{
    if i < 0 || i >= s.len() || !continues_word(s[i]) {
        i
    } else {
        word_end(s, i + 1)
    }
}

/// The first position from `i` on that holds a quotation mark, or the end
/// of the text.
pub open spec fn quote_end(s: Seq<char>, i: int) -> int
    decreases s.len() - i,
{
    if i < 0 || i >= s.len() || s[i] == '"' {
        i
    } else {
        quote_end(s, i + 1)
    }
}

/// The number a digit stands for.
pub open spec fn digit_value(c: char) -> int {
    c as int - '0' as int
}

/// The number that the digits from `from` up to `to` write in decimal.
pub open spec fn digits_value(s: Seq<char>, from: int, to: int) -> int
    decreases to - from,
{
    if to <= from {
        0
    } else {
        digits_value(s, from, to - 1) * 10 + digit_value(s[to - 1])
    }
}

/// A number that fits in 64 bits is a number; a larger one is an error.
pub open spec fn number_piece(value: int) -> SimpleTokenView {
    if value <= i64::MAX {
        SimpleTokenView::Number(value as i64)
    } else {
        SimpleTokenView::Error
    }
}

/// The end of a run lies at or behind its start, and within the text.
pub proof fn lemma_ends(s: Seq<char>, i: int)
    requires
        0 <= i <= s.len(),
    ensures
        i <= digits_end(s, i) <= s.len(),
        i <= word_end(s, i) <= s.len(),
        i <= quote_end(s, i) <= s.len(),
    decreases s.len() - i,
{
    if i < s.len() {
        lemma_ends(s, i + 1);
    }
}

/// A mark that may be the first half of a longer one. With `second` behind
/// it, it is the piece `both`; with anything else behind it, it is the piece
/// `alone`; at the very end of the text it is dropped.
pub open spec fn pair(
    s: Seq<char>,
    i: int,
    second: char,
    both: Seq<char>,
    alone: Seq<char>,
) -> (Seq<SimpleTokenView>, int) {
    if i + 1 >= s.len() {
        (Seq::empty(), i + 1)
    } else if s[i + 1] == second {
        (seq![SimpleTokenView::Punctuation(both)], i + 2)
    } else {
        (seq![SimpleTokenView::Punctuation(alone)], i + 1)
    }
}

/// The piece, if any, that starts at position `i`, and the position behind
/// it.
pub open spec fn piece_at(s: Seq<char>, i: int) -> (Seq<SimpleTokenView>, int) {
    let c = s[i];
    if is_digit(c) {
        let j = digits_end(s, i + 1);
        (seq![number_piece(digits_value(s, i, j))], j)
    } else if starts_word(c) {
        let j = word_end(s, i + 1);
        (seq![SimpleTokenView::Word(s.subrange(i, j))], j)
    } else if c == '"' {
        let j = quote_end(s, i + 1);
        (
            seq![SimpleTokenView::Quoted(s.subrange(i + 1, j))],
            if j < s.len() {
                j + 1
            } else {
                j
            },
        )
    } else if whitespace(c) {
        (Seq::empty(), i + 1)
    } else if is_single_mark(c) {
        (seq![SimpleTokenView::Punctuation(seq![c])], i + 1)
    } else if c == '-' {
        pair(s, i, '>', "->"@, "-"@)
    } else if c == '=' {
        if i + 1 < s.len() && s[i + 1] == '=' {
            (seq![SimpleTokenView::Punctuation("=="@)], i + 2)
        } else {
            pair(s, i, '>', "=>"@, "="@)
        }
    } else if c == '|' {
        pair(s, i, '|', "||"@, "|"@)
    } else if c == '!' {
        pair(s, i, '!', "!!"@, "!"@)
    } else {
        (seq![SimpleTokenView::Error], i + 1)
    }
}

/// The pieces of the text from position `i` on.
pub open spec fn scan(s: Seq<char>, i: int) -> Seq<SimpleTokenView>
    decreases s.len() - i,
{
    if i < 0 || i >= s.len() {
        Seq::empty()
    } else {
        proof {
            lemma_ends(s, i + 1);
        }
        let (piece, next) = piece_at(s, i);
        piece + scan(s, next)
    }
}

/// The token for a word: a keyword, or else an identifier.
pub open spec fn word_token(w: Seq<char>) -> TokenView {
    if w == "type"@ {
        TokenView::Type
    } else if w == "true"@ {
        TokenView::True
    } else if w == "false"@ {
        TokenView::False
    } else if w == "match"@ {
        TokenView::Match
    } else if w == "module"@ {
        TokenView::Module
    } else if w == "public"@ {
        TokenView::Public
    } else if w == "ref"@ {
        TokenView::Ref
    } else if w == "import"@ {
        TokenView::Import
    } else if w == "if"@ {
        TokenView::If
    } else if w == "while"@ {
        TokenView::While
    } else if w == "fn"@ {
        TokenView::Function
    } else if w == "let"@ {
        TokenView::Let
    } else if w == "elseif"@ {
        TokenView::Elseif
    } else if w == "else"@ {
        TokenView::Else
    } else {
        TokenView::Identifier(w)
    }
}

/// The token for a punctuation mark.
pub open spec fn mark_token(p: Seq<char>) -> TokenView {
    if p == "->"@ {
        TokenView::RightArrow
    } else if p == "=>"@ {
        TokenView::FatRightArrow
    } else if p == "["@ {
        TokenView::LeftSquareBracket
    } else if p == "]"@ {
        TokenView::RightSquareBracket
    } else if p == "("@ {
        TokenView::LeftRoundBracket
    } else if p == ")"@ {
        TokenView::RightRoundBracket
    } else if p == "{"@ {
        TokenView::LeftCurlyBracket
    } else if p == "}"@ {
        TokenView::RightCurlyBracket
    } else if p == ":"@ {
        TokenView::Colon
    } else if p == ";"@ {
        TokenView::Semicolon
    } else if p == ","@ {
        TokenView::Comma
    } else if p == "|"@ {
        TokenView::Pipe
    } else if p == "=="@ {
        TokenView::DoubleEquals
    } else if p == "="@ {
        TokenView::Equals
    } else if p == "\\"@ {
        TokenView::Backslash
    } else if p == "<"@ {
        TokenView::SmallerThan
    } else if p == ">"@ {
        TokenView::GreaterThan
    } else if p == "%"@ {
        TokenView::Modulo
    } else if p == "||"@ {
        TokenView::Or
    } else if p == "+"@ {
        TokenView::Plus
    } else if p == "*"@ {
        TokenView::Mul
    } else if p == "!!"@ {
        TokenView::ArrIndex
    } else if p == "!"@ {
        TokenView::Not
    } else {
        TokenView::Error
    }
}

/// The token for a piece of the first pass.
pub open spec fn token_of(t: SimpleTokenView) -> TokenView {
    match t {
        SimpleTokenView::Number(n) => TokenView::Number(n),
        SimpleTokenView::Word(w) => word_token(w),
        SimpleTokenView::Punctuation(p) => mark_token(p),
        SimpleTokenView::Quoted(q) => TokenView::Quoted(q),
        SimpleTokenView::Error => TokenView::Error,
    }
}

/// The tokens of a text.
pub open spec fn tokens_of(s: Seq<char>) -> Seq<TokenView> {
    scan(s, 0).map_values(|t: SimpleTokenView| token_of(t))
}

/// The characters of a text, one by one.
pub fn chars_of(s: &str) -> (v: Vec<char>)
    ensures
        v@ == s@,
{
    let mut v: Vec<char> = Vec::new();
    for c in it: s.chars()
        invariant
            it.seq() == s@,
            v@ == s@.take(it.index()),
    {
        v.push(c);
        assert(s@.take(it.index() + 1) =~= s@.take(it.index()).push(c));
    }
    assert(s@.take(s@.len() as int) =~= s@);
    v
}

/// Tells whether a character is a letter or a digit of any script, by
/// `char::is_alphanumeric`.
#[verifier::external_body]
fn is_alphanumeric(c: char) -> (r: bool)
    ensures
        r == alphanumeric(c),
{
    c.is_alphanumeric()
}

/// Tells whether a character is white space, by `char::is_whitespace`.
#[verifier::external_body]
fn is_whitespace(c: char) -> (r: bool)
    ensures
        r == whitespace(c),
{
    c.is_whitespace()
}

/// Appends a character to a text, by `String::push`.
#[verifier::external_body]
fn push_char(s: &mut String, c: char)
    ensures
        final(s)@ == old(s)@.push(c),
{
    s.push(c)
}

/// The text of the characters from `from` up to `to`.
fn text_between(cs: &Vec<char>, from: usize, to: usize) -> (r: String)
    requires
        from <= to <= cs.len(),
    ensures
        r@ == cs@.subrange(from as int, to as int),
{
    let mut r = String::new();
    let mut i: usize = from;
    assert(cs@.subrange(from as int, from as int) =~= Seq::<char>::empty());
    while i < to
        invariant
            from <= i <= to <= cs.len(),
            r@ == cs@.subrange(from as int, i as int),
        decreases to - i,
    {
        push_char(&mut r, cs[i]);
        assert(cs@.subrange(from as int, i + 1) =~= cs@.subrange(from as int, i as int).push(
            cs@[i as int],
        ));
        i += 1;
    }
    r
}

/// Reads a word whose first character stands at `start`. Hands back the
/// word and the position behind it.
pub fn parse_word(cs: &Vec<char>, start: usize) -> (r: (String, usize))
    requires
        start < cs.len(),
    ensures
        r.1 == word_end(cs@, start + 1),
        start < r.1 <= cs.len(),
        r.0@ == cs@.subrange(start as int, r.1 as int),
{
    let mut i: usize = start + 1;
    proof {
        lemma_ends(cs@, start + 1);
    }
    while i < cs.len() && (is_alphanumeric(cs[i]) || cs[i] == '.' || cs[i] == '_')
        invariant
            start < i <= cs.len(),
            word_end(cs@, i as int) == word_end(cs@, start + 1),
        decreases cs.len() - i,
    {
        i += 1;
    }
    (text_between(cs, start, i), i)
}

/// The digits never write a smaller number when more of them are read.
proof fn lemma_digits_grow(s: Seq<char>, from: int, mid: int, to: int)
    requires
        0 <= from <= mid <= to <= s.len(),
        forall|k: int| from <= k < to ==> is_digit(#[trigger] s[k]),
    ensures
        0 <= digits_value(s, from, mid) <= digits_value(s, from, to),
    decreases to - from,
{
    if from < to {
        if mid < to {
            lemma_digits_grow(s, from, mid, to - 1);
            assert(is_digit(s[to - 1]));
        } else {
            lemma_digits_grow(s, from, mid - 1, to - 1);
            assert(is_digit(s[to - 1]));
        }
    }
}

/// Reads a number whose first digit stands at `start`. Hands back the
/// number, if it fits in 64 bits, and the position behind its digits.
pub fn parse_number(cs: &Vec<char>, start: usize) -> (r: (Option<i64>, usize))
    requires
        start < cs.len(),
        is_digit(cs@[start as int]),
    ensures
        r.1 == digits_end(cs@, start + 1),
        start < r.1 <= cs.len(),
        match r.0 {
            Some(n) => number_piece(digits_value(cs@, start as int, r.1 as int))
                == SimpleTokenView::Number(n),
            None => number_piece(digits_value(cs@, start as int, r.1 as int))
                == SimpleTokenView::Error,
        },
{
    let mut value: Option<i64> = Some(0);
    let mut i: usize = start;
    proof {
        lemma_ends(cs@, start + 1);
    }
    while i < cs.len() && '0' <= cs[i] && cs[i] <= '9'
        invariant
            start <= i <= cs.len(),
            is_digit(cs@[start as int]),
            digits_end(cs@, i as int) == digits_end(cs@, start as int),
            forall|k: int| start <= k < i ==> is_digit(#[trigger] cs@[k]),
            match value {
                Some(n) => n == digits_value(cs@, start as int, i as int),
                None => digits_value(cs@, start as int, i as int) > i64::MAX,
            },
        decreases cs.len() - i,
    {
        let digit = (cs[i] as u32 - '0' as u32) as i64;
        proof {
            lemma_digits_grow(cs@, start as int, i as int, i as int);
        }
        value = match value {
            None => None,
            Some(n) => match n.checked_mul(10) {
                None => None,
                Some(m) => m.checked_add(digit),
            },
        };
        i += 1;
    }
    (value, i)
}

/// Reads a quoted text whose opening mark stands at `start`. Hands back the
/// text between the marks and the position behind the closing mark. A text
/// that is never closed runs to the end.
pub fn parse_quoted(cs: &Vec<char>, start: usize) -> (r: (String, usize))
    requires
        start < cs.len(),
    ensures
        r.0@ == cs@.subrange(start + 1, quote_end(cs@, start + 1)),
        r.1 == if quote_end(cs@, start + 1) < cs.len() {
            quote_end(cs@, start + 1) + 1
        } else {
            quote_end(cs@, start + 1)
        },
        start < r.1 <= cs.len(),
{
    let mut i: usize = start + 1;
    proof {
        lemma_ends(cs@, start + 1);
    }
    while i < cs.len() && cs[i] != '"'
        invariant
            start < i <= cs.len(),
            quote_end(cs@, i as int) == quote_end(cs@, start + 1),
        decreases cs.len() - i,
    {
        i += 1;
    }
    let word = text_between(cs, start + 1, i);
    if i < cs.len() {
        (word, i + 1)
    } else {
        (word, i)
    }
}

fn mark(text: &str) -> (t: SimpleToken)
    ensures
        t@ == SimpleTokenView::Punctuation(text@),
{
    SimpleToken::Punctuation(String::from_str(text))
}

/// Reads a mark that may be the first half of a longer one.
fn parse_pair(cs: &Vec<char>, i: usize, second: char, both: &str, alone: &str) -> (r: (
    Option<SimpleToken>,
    usize,
))
    requires
        i < cs.len(),
    ensures
        i < r.1 <= cs.len(),
        r.1 == pair(cs@, i as int, second, both@, alone@).1,
        match r.0 {
            Some(t) => pair(cs@, i as int, second, both@, alone@).0 == seq![t@],
            None => pair(cs@, i as int, second, both@, alone@).0 == Seq::<SimpleTokenView>::empty(),
        },
{
    if i + 1 >= cs.len() {
        (None, i + 1)
    } else if cs[i + 1] == second {
        (Some(mark(both)), i + 2)
    } else {
        (Some(mark(alone)), i + 1)
    }
}

fn single_mark(c: char) -> (r: bool)
    ensures
        r == is_single_mark(c),
{
    c == '[' || c == ']' || c == '(' || c == ')' || c == ':' || c == '\\' || c == '{' || c == '}'
        || c == ';' || c == '%' || c == '+' || c == '*' || c == '<' || c == ','
}

/// The first pass: cuts the text into pieces.
pub fn to_simple_tokens(code: &String) -> (result: Vec<SimpleToken>)
    ensures
        pieces_view(result@) == scan(code@, 0),
{
    let cs = chars_of(code.as_str());
    let mut result: Vec<SimpleToken> = Vec::new();
    let mut i: usize = 0;
    assert(pieces_view(result@) =~= Seq::<SimpleTokenView>::empty());
    while i < cs.len()
        invariant
            i <= cs.len(),
            cs@ == code@,
            pieces_view(result@) + scan(cs@, i as int) == scan(cs@, 0),
        decreases cs.len() - i,
    {
        let c = cs[i];
        let ghost before = pieces_view(result@);
        let ghost (piece, next) = piece_at(cs@, i as int);
        let found: Option<SimpleToken>;
        let after: usize;
        if '0' <= c && c <= '9' {
            let (value, end) = parse_number(&cs, i);
            found = match value {
                Some(n) => Some(SimpleToken::Number(n)),
                None => Some(SimpleToken::Error),
            };
            after = end;
        } else if ('a' <= c && c <= 'z') || ('A' <= c && c <= 'Z') || c == '_' {
            let (word, end) = parse_word(&cs, i);
            found = Some(SimpleToken::Word(word));
            after = end;
        } else if c == '"' {
            let (text, end) = parse_quoted(&cs, i);
            found = Some(SimpleToken::Quoted(text));
            after = end;
        } else if is_whitespace(c) {
            found = None;
            after = i + 1;
        } else if single_mark(c) {
            let mut text = String::new();
            push_char(&mut text, c);
            assert(text@ =~= seq![c]);
            found = Some(SimpleToken::Punctuation(text));
            after = i + 1;
        } else if c == '-' {
            let (t, end) = parse_pair(&cs, i, '>', "->", "-");
            found = t;
            after = end;
        } else if c == '=' {
            if i + 1 < cs.len() && cs[i + 1] == '=' {
                found = Some(mark("=="));
                after = i + 2;
            } else {
                let (t, end) = parse_pair(&cs, i, '>', "=>", "=");
                found = t;
                after = end;
            }
        } else if c == '|' {
            let (t, end) = parse_pair(&cs, i, '|', "||", "|");
            found = t;
            after = end;
        } else if c == '!' {
            let (t, end) = parse_pair(&cs, i, '!', "!!", "!");
            found = t;
            after = end;
        } else {
            found = Some(SimpleToken::Error);
            after = i + 1;
        }
        assert(after == next);
        match found {
            Some(t) => {
                assert(piece == seq![t@]);
                result.push(t);
                assert(pieces_view(result@) =~= before + piece);
            },
            None => {
                assert(piece == Seq::<SimpleTokenView>::empty());
                assert(pieces_view(result@) =~= before + piece);
            },
        }
        assert(before + (piece + scan(cs@, next)) =~= (before + piece) + scan(cs@, next));
        i = after;
    }
    assert(pieces_view(result@) + Seq::<SimpleTokenView>::empty() =~= pieces_view(result@));
    result
}

fn is_text(w: &String, text: &str) -> (r: bool)
    ensures
        r == (w@ == text@),
{
    *w == String::from_str(text)
}

fn to_word_token(w: &String) -> (t: Token)
    ensures
        t@ == word_token(w@),
{
    if is_text(w, "type") {
        Token::Type
    } else if is_text(w, "true") {
        Token::True
    } else if is_text(w, "false") {
        Token::False
    } else if is_text(w, "match") {
        Token::Match
    } else if is_text(w, "module") {
        Token::Module
    } else if is_text(w, "public") {
        Token::Public
    } else if is_text(w, "ref") {
        Token::Ref
    } else if is_text(w, "import") {
        Token::Import
    } else if is_text(w, "if") {
        Token::If
    } else if is_text(w, "while") {
        Token::While
    } else if is_text(w, "fn") {
        Token::Function
    } else if is_text(w, "let") {
        Token::Let
    } else if is_text(w, "elseif") {
        Token::Elseif
    } else if is_text(w, "else") {
        Token::Else
    } else {
        Token::Identifier(w.clone())
    }
}

fn to_mark_token(p: &String) -> (t: Token)
    ensures
        t@ == mark_token(p@),
{
    if is_text(p, "->") {
        Token::RightArrow
    } else if is_text(p, "=>") {
        Token::FatRightArrow
    } else if is_text(p, "[") {
        Token::LeftSquareBracket
    } else if is_text(p, "]") {
        Token::RightSquareBracket
    } else if is_text(p, "(") {
        Token::LeftRoundBracket
    } else if is_text(p, ")") {
        Token::RightRoundBracket
    } else if is_text(p, "{") {
        Token::LeftCurlyBracket
    } else if is_text(p, "}") {
        Token::RightCurlyBracket
    } else if is_text(p, ":") {
        Token::Colon
    } else if is_text(p, ";") {
        Token::Semicolon
    } else if is_text(p, ",") {
        Token::Comma
    } else if is_text(p, "|") {
        Token::Pipe
    } else if is_text(p, "==") {
        Token::DoubleEquals
    } else if is_text(p, "=") {
        Token::Equals
    } else if is_text(p, "\\") {
        Token::Backslash
    } else if is_text(p, "<") {
        Token::SmallerThan
    } else if is_text(p, ">") {
        Token::GreaterThan
    } else if is_text(p, "%") {
        Token::Modulo
    } else if is_text(p, "||") {
        Token::Or
    } else if is_text(p, "+") {
        Token::Plus
    } else if is_text(p, "*") {
        Token::Mul
    } else if is_text(p, "!!") {
        Token::ArrIndex
    } else if is_text(p, "!") {
        Token::Not
    } else {
        Token::Error
    }
}

/// The second pass: names every piece.
pub fn to_tokens(words: &Vec<SimpleToken>) -> (tokens: Vec<Token>)
    ensures
        tokens_view(tokens@) == pieces_view(words@).map_values(|t: SimpleTokenView| token_of(t)),
{
    let mut tokens: Vec<Token> = Vec::new();
    let mut i: usize = 0;
    while i < words.len()
        invariant
            i <= words.len(),
            tokens@.len() == i,
            forall|k: int| 0 <= k < i ==> (#[trigger] tokens@[k])@ == token_of(words@[k]@),
        decreases words.len() - i,
    {
        let t = match &words[i] {
            SimpleToken::Number(n) => Token::Number(*n),
            SimpleToken::Word(w) => to_word_token(w),
            SimpleToken::Punctuation(p) => to_mark_token(p),
            SimpleToken::Quoted(q) => Token::Quoted(q.clone()),
            SimpleToken::Error => Token::Error,
        };
        tokens.push(t);
        i += 1;
    }
    assert(tokens_view(tokens@) =~= pieces_view(words@).map_values(|t: SimpleTokenView| token_of(t)));
    tokens
}

/// Splits the text of a program into tokens.
pub fn tokenize(code: &String) -> (tokens: Vec<Token>)
    ensures
        tokens_view(tokens@) == tokens_of(code@),
{
    let simple_tokens = to_simple_tokens(code);
    let tokenized = to_tokens(&simple_tokens);
    tokenized
}

} // verus!

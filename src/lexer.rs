use vstd::prelude::*;

use crate::errors::Error;

verus! {

/// Whether `c` has Unicode's White_Space property.
pub uninterp spec fn whitespace(c: char) -> bool;

/// Whether `c` is alphabetic or numeric in Unicode's sense.
pub uninterp spec fn alphanumeric(c: char) -> bool;

/// Relies on `char::is_whitespace`, which depends on the character alone.
#[verifier::external_body]
fn is_space(c: char) -> (r: bool)
    ensures
        r == whitespace(c),
{
    c.is_whitespace()
}

/// Relies on `char::is_alphanumeric`, which depends on the character alone.
#[verifier::external_body]
fn is_alnum(c: char) -> (r: bool)
    ensures
        r == alphanumeric(c),
{
    c.is_alphanumeric()
}

pub const UNTERMINATED_STRING: &'static str = "query contained unterminated string";
pub const TOO_MANY_DECIMAL_POINTS: &'static str = "float literals can only contain one decimal point";
pub const INTEGER_OUT_OF_RANGE: &'static str = "integer literal does not fit in 64 bits";

/// A lexical unit of a query.
#[derive(Debug, PartialEq)]
pub enum Token {
    Source(String),
    Filter(String),
    OpenParen,
    CloseParen,
    String(String),
    Integer(i64),
    /// A number with a decimal point, as written in the query.
    Float(String),
}

/// The value of a token.
pub enum TokenView {
    Source(Seq<char>),
    Filter(Seq<char>),
    OpenParen,
    CloseParen,
    Text(Seq<char>),
    Integer(i64),
    Float(Seq<char>),
}

impl View for Token {
    type V = TokenView;

    open spec fn view(&self) -> TokenView {
        match self {
            Token::Source(s) => TokenView::Source(s@),
            Token::Filter(s) => TokenView::Filter(s@),
            Token::OpenParen => TokenView::OpenParen,
            Token::CloseParen => TokenView::CloseParen,
            Token::String(s) => TokenView::Text(s@),
            Token::Integer(i) => TokenView::Integer(*i),
            Token::Float(s) => TokenView::Float(s@),
        }
    }
}

/// The views of a sequence of tokens.
pub open spec fn tokens_view(ts: Seq<Token>) -> Seq<TokenView> {
    ts.map_values(|t: Token| t@)
}

/// Why a query text cannot be split into tokens.
pub enum LexFailure {
    UnterminatedString,
    TooManyDecimalPoints,
    IntegerOutOfRange,
    Unexpected(char),
}

/// `e` is the error that reports `f`.
pub open spec fn reports(e: Error, f: LexFailure) -> bool {
    match f {
        LexFailure::UnterminatedString => e matches Error::MalformedQuery(m) && m@ == UNTERMINATED_STRING@,
        LexFailure::TooManyDecimalPoints => e matches Error::MalformedQuery(m) && m@ == TOO_MANY_DECIMAL_POINTS@,
        LexFailure::IntegerOutOfRange => e matches Error::MalformedQuery(m) && m@ == INTEGER_OUT_OF_RANGE@,
        LexFailure::Unexpected(c) => e == Error::UnexpectedCharacter(c),
    }
}

/// A character that may stand in a source or filter name.
pub open spec fn is_ident_char(c: char) -> bool {
    alphanumeric(c) || c == '_'
}

pub open spec fn is_digit(c: char) -> bool {
    '0' <= c && c <= '9'
}

/// A character that continues a number.
pub open spec fn is_number_char(c: char) -> bool {
    is_digit(c) || c == '.'
}

/// The end of the run of name characters that starts at `i`.
pub open spec fn ident_end(s: Seq<char>, i: int) -> int
    decreases s.len() - i,
{
    if i < s.len() && is_ident_char(s[i]) {
        ident_end(s, i + 1)
    } else {
        i
    }
}

/// The end of the run of whitespace that starts at `i`.
pub open spec fn space_end(s: Seq<char>, i: int) -> int
    decreases s.len() - i,
{
    if i < s.len() && whitespace(s[i]) {
        space_end(s, i + 1)
    } else {
        i
    }
}

/// The position of the first `"` at or after `i`, or the length of `s`.
pub open spec fn quote_end(s: Seq<char>, i: int) -> int
    decreases s.len() - i,
{
    if i < s.len() && s[i] != '"' {
        quote_end(s, i + 1)
    } else {
        i
    }
}

/// The end of the run of digits and points that starts at `i`.
pub open spec fn number_end(s: Seq<char>, i: int) -> int
    decreases s.len() - i,
{
    if i < s.len() && is_number_char(s[i]) {
        number_end(s, i + 1)
    } else {
        i
    }
}

/// How many decimal points `s` holds.
pub open spec fn points(s: Seq<char>) -> nat
    decreases s.len(),
{
    if s.len() == 0 {
        0
    } else {
        points(s.drop_last()) + if s.last() == '.' { 1nat } else { 0nat }
    }
}

/// The number that the decimal digits of `s` write.
pub open spec fn digits_value(s: Seq<char>) -> int
    decreases s.len(),
{
    if s.len() == 0 {
        0
    } else {
        digits_value(s.drop_last()) * 10 + (s.last() as int - '0' as int)
    }
}

/// The token that starts at `i`, where `s[i]` is no whitespace, and the
/// position after it.
pub open spec fn lex_token(s: Seq<char>, i: int) -> Result<(TokenView, int), LexFailure> {
    let c = s[i];
    if c == '@' {
        let e = ident_end(s, i + 1);
        Ok((TokenView::Source(s.subrange(i + 1, e)), e))
    } else if c == '|' {
        let k = space_end(s, i + 1);
        let e = ident_end(s, k);
        Ok((TokenView::Filter(s.subrange(k, e)), e))
    } else if c == '(' {
        Ok((TokenView::OpenParen, i + 1))
    } else if c == ')' {
        Ok((TokenView::CloseParen, i + 1))
    } else if c == '"' {
        let j = quote_end(s, i + 1);
        if j >= s.len() {
            Err(LexFailure::UnterminatedString)
        } else {
            Ok((TokenView::Text(s.subrange(i + 1, j)), j + 1))
        }
    } else if is_digit(c) {
        let j = number_end(s, i);
        let lit = s.subrange(i, j);
        if points(lit) > 1 {
            Err(LexFailure::TooManyDecimalPoints)
        } else if points(lit) == 1 {
            Ok((TokenView::Float(lit), j))
        } else if digits_value(lit) <= i64::MAX {
            Ok((TokenView::Integer(digits_value(lit) as i64), j))
        } else {
            Err(LexFailure::IntegerOutOfRange)
        }
    } else {
        Err(LexFailure::Unexpected(c))
    }
}

/// Puts `ts` in front of the tokens of a result.
pub open spec fn prepend(ts: Seq<TokenView>, r: Result<Seq<TokenView>, LexFailure>) -> Result<
    Seq<TokenView>,
    LexFailure,
> {
    match r {
        Ok(rest) => Ok(ts + rest),
        Err(f) => Err(f),
    }
}

/// The tokens of `s` from position `i` on, left to right, whitespace between
/// them skipped; or the first reason why the text is no sequence of tokens.
pub open spec fn lex_from(s: Seq<char>, i: int) -> Result<Seq<TokenView>, LexFailure>
    decreases s.len() - i,
{
    if i < 0 || i >= s.len() {
        Ok(Seq::empty())
    } else if whitespace(s[i]) {
        lex_from(s, i + 1)
    } else {
        match lex_token(s, i) {
            Err(f) => Err(f),
            Ok((t, next)) => if i < next <= s.len() {
                prepend(seq![t], lex_from(s, next))
            } else {
                Ok(Seq::empty())
            },
        }
    }
}

/// The tokens of a whole query text.
pub open spec fn lex(s: Seq<char>) -> Result<Seq<TokenView>, LexFailure> {
    lex_from(s, 0)
}

/// `r` is what lexing must return where the text lexes to `l`.
pub open spec fn lexed_as(r: Result<Vec<Token>, Error>, l: Result<Seq<TokenView>, LexFailure>) -> bool {
    match l {
        Ok(ts) => r matches Ok(v) && tokens_view(v@) == ts,
        Err(f) => r matches Err(e) && reports(e, f),
    }
}

/// A run of `points` grows with the text it counts in.
proof fn lemma_points_prefix(s: Seq<char>, k: int)
    requires
        0 <= k <= s.len(),
    ensures
        points(s) >= points(s.take(k)),
    decreases s.len(),
{
    if k < s.len() {
        assert(s.drop_last().take(k) =~= s.take(k));
        lemma_points_prefix(s.drop_last(), k);
    } else {
        assert(s.take(k) =~= s);
    }
}

/// The value of a run of digits grows with the digits it is written with.
proof fn lemma_digits_value_prefix(s: Seq<char>, k: int)
    requires
        0 <= k <= s.len(),
        forall|j: int| 0 <= j < s.len() ==> is_digit(#[trigger] s[j]),
    ensures
        digits_value(s) >= digits_value(s.take(k)) >= 0,
    decreases s.len(),
{
    if s.len() > 0 {
        let t = s.drop_last();
        assert forall|j: int| 0 <= j < t.len() implies is_digit(#[trigger] t[j]) by {
            assert(t[j] == s[j]);
        }
        if k < s.len() {
            assert(t.take(k) =~= s.take(k));
            lemma_digits_value_prefix(t, k);
        } else {
            assert(s.take(k) =~= s);
            lemma_digits_value_prefix(t, 0);
        }
    } else {
        assert(s.take(k) =~= s);
    }
}

proof fn lemma_ident_end_bounds(s: Seq<char>, i: int)
    requires
        0 <= i <= s.len(),
    ensures
        i <= ident_end(s, i) <= s.len(),
    decreases s.len() - i,
{
    if i < s.len() && is_ident_char(s[i]) {
        lemma_ident_end_bounds(s, i + 1);
    }
}

/// The characters from `i` up to the end of the number that starts at `from` continue it.
proof fn lemma_number_end_facts(s: Seq<char>, from: int, i: int)
    requires
        0 <= from <= i < number_end(s, from),
    ensures
        is_number_char(s[i]),
    decreases i - from,
{
    if i > from {
        lemma_number_end_facts(s, from + 1, i);
    }
}

proof fn lemma_quote_end_bounds(s: Seq<char>, i: int)
    requires
        0 <= i <= s.len(),
    ensures
        i <= quote_end(s, i) <= s.len(),
    decreases s.len() - i,
{
    if i < s.len() && s[i] != '"' {
        lemma_quote_end_bounds(s, i + 1);
    }
}

proof fn lemma_space_end_bounds(s: Seq<char>, i: int)
    requires
        0 <= i <= s.len(),
    ensures
        i <= space_end(s, i) <= s.len(),
    decreases s.len() - i,
{
    if i < s.len() && whitespace(s[i]) {
        lemma_space_end_bounds(s, i + 1);
    }
}

proof fn lemma_number_end_bounds(s: Seq<char>, i: int)
    requires
        0 <= i <= s.len(),
    ensures
        i <= number_end(s, i) <= s.len(),
    decreases s.len() - i,
{
    if i < s.len() && is_number_char(s[i]) {
        lemma_number_end_bounds(s, i + 1);
    }
}

/// A text without points holds no `.` anywhere.
proof fn lemma_no_points(s: Seq<char>)
    requires
        points(s) == 0,
    ensures
        forall|j: int| 0 <= j < s.len() ==> #[trigger] s[j] != '.',
    decreases s.len(),
{
    if s.len() > 0 {
        lemma_no_points(s.drop_last());
        assert forall|j: int| 0 <= j < s.len() implies #[trigger] s[j] != '.' by {
            if j < s.len() - 1 {
                assert(s[j] == s.drop_last()[j]);
            }
        }
    }
}

proof fn lemma_prepend_step(a: Seq<TokenView>, t: TokenView, r: Result<Seq<TokenView>, LexFailure>)
    ensures
        prepend(a.push(t), r) == prepend(a, prepend(seq![t], r)),
{
    if let Ok(rest) = r {
        assert(a.push(t) + rest =~= a + (seq![t] + rest));
    }
}

/// `r` is what reading the token at a position must return where it reads as
/// `l`, and `cursor` is where the reading stopped.
pub open spec fn token_read_as(r: Result<Token, Error>, l: Result<(TokenView, int), LexFailure>, cursor: int) -> bool {
    match l {
        Ok((t, next)) => r matches Ok(tok) && tok@ == t && cursor == next,
        Err(f) => r matches Err(e) && reports(e, f),
    }
}

/// Splits a query text into tokens.
pub struct Lexer {
    query: Vec<char>,
    text: String,
    cursor: usize,
}

impl Lexer {
    /// The characters of the query.
    pub closed spec fn chars(&self) -> Seq<char> {
        self.query@
    }

    /// The position of the next character to read.
    pub closed spec fn position(&self) -> int {
        self.cursor as int
    }

    pub closed spec fn wf(&self) -> bool {
        &&& self.query@ == self.text@
        &&& self.cursor <= self.query@.len()
    }

    pub fn new(query: String) -> (r: Self)
        ensures
            r.wf(),
            r.chars() == query@,
            r.position() == 0,
    {
        let n = query.as_str().unicode_len();
        let mut chars: Vec<char> = Vec::new();
        let mut i: usize = 0;
        while i < n
            invariant
                n == query@.len(),
                i <= n,
                chars@ == query@.take(i as int),
            decreases n - i,
        {
            chars.push(query.as_str().get_char(i));
            i += 1;
            proof {
                assert(chars@ =~= query@.take(i as int));
            }
        }
        proof {
            assert(chars@ =~= query@);
        }
        Lexer { query: chars, text: query, cursor: 0 }
    }

    /// Reads the next character, if any is left.
    fn next_char(&mut self) -> (r: Option<char>)
        requires
            old(self).wf(),
        ensures
            final(self).wf(),
            final(self).query@ == old(self).query@,
            final(self).text@ == old(self).text@,
            old(self).cursor < old(self).query@.len() ==> r == Some(old(self).query@[old(self).cursor as int])
                && final(self).cursor == old(self).cursor + 1,
            old(self).cursor >= old(self).query@.len() ==> r is None && final(self).cursor == old(self).cursor,
    {
        if self.cursor < self.query.len() {
            let c = self.query[self.cursor];
            self.cursor += 1;
            Some(c)
        } else {
            None
        }
    }

    /// Steps back over the character just read.
    fn rewind_cursor(&mut self)
        requires
            old(self).wf(),
            old(self).cursor > 0,
        ensures
            final(self).wf(),
            final(self).query@ == old(self).query@,
            final(self).text@ == old(self).text@,
            final(self).cursor == old(self).cursor - 1,
    {
        self.cursor -= 1;
    }

    /// Reads the run of name characters at the cursor.
    fn consume_name(&mut self)
        requires
            old(self).wf(),
        ensures
            final(self).wf(),
            final(self).query@ == old(self).query@,
            final(self).text@ == old(self).text@,
            final(self).cursor == ident_end(old(self).query@, old(self).cursor as int),
    {
        let ghost q = self.query@;
        let ghost start = self.cursor as int;
        loop
            invariant
                self.wf(),
                self.query@ == q,
                self.text@ == old(self).text@,
                q == old(self).query@,
                start == old(self).cursor,
                ident_end(q, self.cursor as int) == ident_end(q, start),
            ensures
                self.wf(),
                self.query@ == q,
                self.text@ == old(self).text@,
                self.cursor == ident_end(q, start),
            decreases q.len() - self.cursor,
        {
            match self.next_char() {
                None => {
                    break;
                },
                Some(c) => {
                    if !(is_alnum(c) || c == '_') {
                        self.rewind_cursor();
                        break;
                    }
                },
            }
        }
    }

    /// Reads a source name; the `@` before it has been read.
    fn consume_source(&mut self) -> (r: Token)
        requires
            old(self).wf(),
        ensures
            final(self).wf(),
            final(self).query@ == old(self).query@,
            final(self).text@ == old(self).text@,
            final(self).cursor == ident_end(old(self).query@, old(self).cursor as int),
            r@ == TokenView::Source(old(self).query@.subrange(old(self).cursor as int, final(self).cursor as int)),
    {
        let start = self.cursor;
        self.consume_name();
        proof {
            lemma_ident_end_bounds(self.query@, start as int);
        }
        Token::Source(self.slice(start, self.cursor))
    }

    /// Reads a filter name, after the whitespace that may precede it; the `|`
    /// before it has been read.
    fn consume_filter(&mut self) -> (r: Token)
        requires
            old(self).wf(),
        ensures
            final(self).wf(),
            final(self).query@ == old(self).query@,
            final(self).text@ == old(self).text@,
            final(self).cursor == ident_end(old(self).query@, space_end(old(self).query@, old(self).cursor as int)),
            r@ == TokenView::Filter(old(self).query@.subrange(
                space_end(old(self).query@, old(self).cursor as int),
                final(self).cursor as int,
            )),
    {
        let ghost q = self.query@;
        let ghost from = self.cursor as int;
        loop
            invariant
                self.wf(),
                self.query@ == q,
                self.text@ == old(self).text@,
                q == old(self).query@,
                from == old(self).cursor,
                space_end(q, self.cursor as int) == space_end(q, from),
            ensures
                self.wf(),
                self.query@ == q,
                self.text@ == old(self).text@,
                self.cursor == space_end(q, from),
            decreases q.len() - self.cursor,
        {
            match self.next_char() {
                None => {
                    break;
                },
                Some(c) => {
                    if !is_space(c) {
                        self.rewind_cursor();
                        break;
                    }
                },
            }
        }
        let start = self.cursor;
        self.consume_name();
        proof {
            lemma_ident_end_bounds(q, start as int);
        }
        Token::Filter(self.slice(start, self.cursor))
    }

    /// Reads a string literal up to its closing quote; the opening quote has
    /// been read.
    fn consume_string_literal(&mut self) -> (r: Result<Token, Error>)
        requires
            old(self).wf(),
        ensures
            final(self).wf(),
            final(self).query@ == old(self).query@,
            final(self).text@ == old(self).text@,
            ({
                let q = old(self).query@;
                let j = quote_end(q, old(self).cursor as int);
                if j >= q.len() {
                    r matches Err(e) && reports(e, LexFailure::UnterminatedString)
                } else {
                    r matches Ok(t) && t@ == TokenView::Text(q.subrange(old(self).cursor as int, j))
                        && final(self).cursor == j + 1
                }
            }),
    {
        let ghost q = self.query@;
        let start = self.cursor;
        loop
            invariant
                self.wf(),
                self.query@ == q,
                self.text@ == old(self).text@,
                q == old(self).query@,
                start == old(self).cursor,
                start <= self.cursor,
                quote_end(q, self.cursor as int) == quote_end(q, start as int),
            decreases q.len() - self.cursor,
        {
            match self.next_char() {
                None => {
                    return Err(Error::MalformedQuery(UNTERMINATED_STRING.to_owned()));
                },
                Some(c) => {
                    if c == '"' {
                        let end = self.cursor - 1;
                        return Ok(Token::String(self.slice(start, end)));
                    }
                },
            }
        }
    }

    /// Splits the rest of the query, from the cursor on, into tokens.
    pub fn tokenize(&mut self) -> (r: Result<Vec<Token>, Error>)
        requires
            old(self).wf(),
        ensures
            lexed_as(r, lex_from(old(self).chars(), old(self).position())),
    {
        let ghost q = self.query@;
        let ghost from = self.cursor as int;
        let mut tokens: Vec<Token> = Vec::new();
        proof {
            assert(tokens_view(tokens@) + Seq::<TokenView>::empty() =~= Seq::<TokenView>::empty());
            if let Ok(rest) = lex_from(q, from) {
                assert(tokens_view(tokens@) + rest =~= rest);
            }
        }
        loop
            invariant
                self.wf(),
                self.query@ == q,
                q == old(self).query@,
                from == old(self).cursor,
                prepend(tokens_view(tokens@), lex_from(q, self.cursor as int)) == lex_from(q, from),
            ensures
                lex_from(q, from) == Ok::<Seq<TokenView>, LexFailure>(tokens_view(tokens@)),
            decreases q.len() - self.cursor,
        {
            let ghost at = self.cursor as int;
            let c = match self.next_char() {
                None => {
                    proof {
                        assert(tokens_view(tokens@) + Seq::<TokenView>::empty() =~= tokens_view(tokens@));
                    }
                    break;
                },
                Some(c) => c,
            };
            if is_space(c) {
                continue;
            }
            let ghost before = tokens_view(tokens@);
            let token = if c == '@' {
                let t = self.consume_source();
                proof {
                    lemma_ident_end_bounds(q, at + 1);
                }
                t
            } else if c == '|' {
                let t = self.consume_filter();
                proof {
                    lemma_space_end_bounds(q, at + 1);
                    lemma_ident_end_bounds(q, space_end(q, at + 1));
                }
                t
            } else if c == '(' {
                Token::OpenParen
            } else if c == ')' {
                Token::CloseParen
            } else if c == '"' {
                proof {
                    lemma_quote_end_bounds(q, at + 1);
                }
                match self.consume_string_literal() {
                    Ok(t) => t,
                    Err(e) => {
                        return Err(e);
                    },
                }
            } else if '0' <= c && c <= '9' {
                self.rewind_cursor();
                proof {
                    lemma_number_end_bounds(q, at + 1);
                }
                match self.consume_number_literal() {
                    Ok(t) => t,
                    Err(e) => {
                        return Err(e);
                    },
                }
            } else {
                return Err(Error::UnexpectedCharacter(c));
            };
            proof {
                lemma_prepend_step(before, token@, lex_from(q, self.cursor as int));
            }
            tokens.push(token);
            proof {
                assert(tokens_view(tokens@) =~= before.push(token@));
            }
        }
        Ok(tokens)
    }

    /// Reads a number literal; the cursor stands on its first digit.
    fn consume_number_literal(&mut self) -> (r: Result<Token, Error>)
        requires
            old(self).wf(),
            old(self).cursor < old(self).query@.len(),
            is_digit(old(self).query@[old(self).cursor as int]),
        ensures
            final(self).wf(),
            final(self).query@ == old(self).query@,
            final(self).text@ == old(self).text@,
            token_read_as(r, lex_token(old(self).query@, old(self).cursor as int), final(self).cursor as int),
    {
        let ghost q = self.query@;
        let start = self.cursor;
        let mut has_decimal = false;
        proof {
            assert(q.subrange(start as int, start as int) =~= Seq::<char>::empty());
            lemma_number_end_bounds(q, start as int);
        }
        loop
            invariant
                self.wf(),
                self.query@ == q,
                q == old(self).query@,
                self.text@ == old(self).text@,
                start == old(self).cursor,
                start < q.len(),
                is_digit(q[start as int]),
                start <= self.cursor <= number_end(q, start as int),
                number_end(q, self.cursor as int) == number_end(q, start as int),
                points(q.subrange(start as int, self.cursor as int)) == if has_decimal { 1nat } else { 0nat },
            ensures
                self.wf(),
                self.query@ == q,
                self.text@ == old(self).text@,
                self.cursor == number_end(q, start as int),
                points(q.subrange(start as int, self.cursor as int)) == if has_decimal { 1nat } else { 0nat },
            decreases q.len() - self.cursor,
        {
            let ghost at = self.cursor as int;
            match self.next_char() {
                None => {
                    break;
                },
                Some(c) => {
                    if !(('0' <= c && c <= '9') || c == '.') {
                        self.rewind_cursor();
                        break;
                    }
                    proof {
                        lemma_number_end_bounds(q, at + 1);
                        assert(q.subrange(start as int, at + 1).drop_last() =~= q.subrange(start as int, at));
                    }
                    if c == '.' {
                        if has_decimal {
                            proof {
                                let lit = q.subrange(start as int, number_end(q, start as int));
                                assert(lit.take(at + 1 - start) =~= q.subrange(start as int, at + 1));
                                lemma_points_prefix(lit, at + 1 - start);
                                assert(points(lit) > 1);
                                assert(lex_token(q, start as int) == Err::<(TokenView, int), LexFailure>(
                                    LexFailure::TooManyDecimalPoints,
                                ));
                            }
                            return Err(Error::MalformedQuery(TOO_MANY_DECIMAL_POINTS.to_owned()));
                        }
                        has_decimal = true;
                    }
                },
            }
        }
        let end = self.cursor;
        if has_decimal {
            return Ok(Token::Float(self.slice(start, end)));
        }
        let ghost lit = q.subrange(start as int, end as int);
        proof {
            lemma_no_points(lit);
            assert forall|j: int| 0 <= j < lit.len() implies is_digit(#[trigger] lit[j]) by {
                lemma_number_end_facts(q, start as int, start + j);
            }
            assert(lit.take(0) =~= Seq::<char>::empty());
        }
        let mut value: i64 = 0;
        let mut k: usize = start;
        while k < end
            invariant
                self.wf(),
                self.query@ == q,
                lit == q.subrange(start as int, end as int),
                q == old(self).query@,
                self.text@ == old(self).text@,
                start == old(self).cursor,
                start < q.len(),
                is_digit(q[start as int]),
                end == number_end(q, start as int),
                points(lit) == 0,
                end <= q.len(),
                start <= k <= end,
                forall|j: int| 0 <= j < lit.len() ==> is_digit(#[trigger] lit[j]),
                value >= 0,
                value == digits_value(lit.take(k - start)),
            decreases end - k,
        {
            let c = self.query[k];
            proof {
                assert(lit.take(k + 1 - start).drop_last() =~= lit.take(k - start));
                assert(lit[k - start] == c);
            }
            let d = (c as u32 - '0' as u32) as i64;
            assert(d == c as int - '0' as int);
            assert(lit.take(k + 1 - start).last() == c);
            let next: i128 = value as i128 * 10 + d as i128;
            if next > i64::MAX as i128 {
                proof {
                    lemma_digits_value_prefix(lit, k + 1 - start);
                    assert(lit.take(lit.len() as int) =~= lit);
                }
                return Err(Error::MalformedQuery(INTEGER_OUT_OF_RANGE.to_owned()));
            }
            value = next as i64;
            k += 1;
        }
        proof {
            assert(lit.take(end - start) =~= lit);
        }
        Ok(Token::Integer(value))
    }

    /// The characters between two positions, as a string.
    fn slice(&self, from: usize, to: usize) -> (r: String)
        requires
            self.wf(),
            from <= to <= self.query@.len(),
        ensures
            r@ == self.query@.subrange(from as int, to as int),
    {
        self.text.as_str().substring_char(from, to).to_owned()
    }
}

} // verus!

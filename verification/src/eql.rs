//! The event query language: its lexer, its planner, and the executor that
//! holds stored events against a planned query.

use vstd::prelude::*;
use vstd::string::StringExecFns;
use crate::dates::{date_parses, is_date};
use crate::json::{
    find_member, json_object_of, member_named, members_view, parse_object, JsonModel, JsonValue,
    Member,
};
use crate::log::{LogRecord, LogStore};
use crate::text::{
    alphabetic, alphanumeric, from_chars, is_alphabetic, is_alphanumeric,
    is_whitespace, lex_lt, lex_order, lowered, opt_view, Order, slice_of, spells, str_eq,
    string_views, to_chars, to_lower, whitespace,
};

verus! {

/// The tokens of the query language.
#[derive(Debug)]
pub enum Token {
    Field(String),
    Value(String),
    Operator(String),
    And,
    Or,
    OpenParen,
    CloseParen,
    Where,
    TimeRange(String),
}

/// A `Token` in contracts.
pub enum TokenModel {
    Field(Seq<char>),
    Value(Seq<char>),
    Operator(Seq<char>),
    And,
    Or,
    OpenParen,
    CloseParen,
    Where,
    TimeRange(Seq<char>),
}

impl View for Token {
    type V = TokenModel;

    open spec fn view(&self) -> TokenModel {
        match self {
            Token::Field(s) => TokenModel::Field(s@),
            Token::Value(s) => TokenModel::Value(s@),
            Token::Operator(s) => TokenModel::Operator(s@),
            Token::And => TokenModel::And,
            Token::Or => TokenModel::Or,
            Token::OpenParen => TokenModel::OpenParen,
            Token::CloseParen => TokenModel::CloseParen,
            Token::Where => TokenModel::Where,
            Token::TimeRange(s) => TokenModel::TimeRange(s@),
        }
    }
}

impl Token {
    /// A copy of the token.
    pub fn clone(&self) -> (r: Token)
        ensures
            r@ == self@,
    {
        match self {
            Token::Field(s) => Token::Field(s.clone()),
            Token::Value(s) => Token::Value(s.clone()),
            Token::Operator(s) => Token::Operator(s.clone()),
            Token::And => Token::And,
            Token::Or => Token::Or,
            Token::OpenParen => Token::OpenParen,
            Token::CloseParen => Token::CloseParen,
            Token::Where => Token::Where,
            Token::TimeRange(s) => Token::TimeRange(s.clone()),
        }
    }
}

/// The tokens behind a list of tokens.
pub open spec fn token_models(v: Seq<Token>) -> Seq<TokenModel> {
    Seq::new(v.len(), |i: int| v[i]@)
}

/// Why a query was turned down.
#[derive(Debug)]
pub enum EqlError {
    ParseError(String),
    QueryBuildError(String),
    DatabaseError(String),
}

/// An `EqlError` in contracts.
pub enum EqlFailure {
    ParseError(Seq<char>),
    QueryBuildError(Seq<char>),
    DatabaseError(Seq<char>),
}

impl View for EqlError {
    type V = EqlFailure;

    open spec fn view(&self) -> EqlFailure {
        match self {
            EqlError::ParseError(m) => EqlFailure::ParseError(m@),
            EqlError::QueryBuildError(m) => EqlFailure::QueryBuildError(m@),
            EqlError::DatabaseError(m) => EqlFailure::DatabaseError(m@),
        }
    }
}

/// The sentence that describes a failure.
pub open spec fn eql_failure_text(e: EqlFailure) -> Seq<char> {
    match e {
        EqlFailure::ParseError(m) => "Parse error: "@ + m,
        EqlFailure::QueryBuildError(m) => "Query build error: "@ + m,
        EqlFailure::DatabaseError(m) => "Database error: "@ + m,
    }
}

impl EqlError {
    /// The sentence that describes this failure.
    pub fn message(&self) -> (r: String)
        ensures
            r@ == eql_failure_text(self@),
    {
        match self {
            EqlError::ParseError(m) => String::from_str("Parse error: ").concat(m.as_str()),
            EqlError::QueryBuildError(m) => String::from_str("Query build error: ").concat(
                m.as_str(),
            ),
            EqlError::DatabaseError(m) => String::from_str("Database error: ").concat(m.as_str()),
        }
    }
}

/// A character that may stand inside a word: a letter, a digit or `_`.
pub open spec fn word_char(c: char) -> bool {
    alphanumeric(c) || c == '_'
}

/// A character that an operator is made of.
pub open spec fn operator_char(c: char) -> bool {
    c == '=' || c == '!' || c == '>' || c == '<'
}

/// How many word characters stand in a row from `from` on.
pub open spec fn word_run(s: Seq<char>, from: int) -> nat
    decreases s.len() - from,
{
    if 0 <= from < s.len() && word_char(s[from]) {
        1 + word_run(s, from + 1)
    } else {
        0
    }
}

/// How many operator characters stand in a row from `from` on.
pub open spec fn operator_run(s: Seq<char>, from: int) -> nat
    decreases s.len() - from,
{
    if 0 <= from < s.len() && operator_char(s[from]) {
        1 + operator_run(s, from + 1)
    } else {
        0
    }
}

/// How many characters other than `c` stand in a row from `from` on.
pub open spec fn run_until(s: Seq<char>, c: char, from: int) -> nat
    decreases s.len() - from,
{
    if 0 <= from < s.len() && s[from] != c {
        1 + run_until(s, c, from + 1)
    } else {
        0
    }
}

/// The token a word stands for: a keyword, whatever its case, or a field name.
pub open spec fn word_token(word: Seq<char>) -> TokenModel {
    if lowered(word) == "where"@ {
        TokenModel::Where
    } else if lowered(word) == "and"@ {
        TokenModel::And
    } else if lowered(word) == "or"@ {
        TokenModel::Or
    } else {
        TokenModel::Field(word)
    }
}

/// A token in front of what the rest of the text gave.
pub open spec fn after_token(t: TokenModel, rest: Result<Seq<TokenModel>, EqlFailure>) -> Result<
    Seq<TokenModel>,
    EqlFailure,
> {
    match rest {
        Ok(tokens) => Ok(seq![t] + tokens),
        Err(e) => Err(e),
    }
}

/// The tokens of the text from `from` on. White space is skipped. A letter
/// starts a word, which runs on over letters, digits and `_`. One of `=`,
/// `!`, `>`, `<` starts an operator, which runs on over these. A quote starts
/// a value, which ends before the next quote. `@` starts a time range, which
/// ends before the next `]`. Parentheses stand for themselves. Anything else
/// is an error, and so is a value or a time range that does not end.
pub open spec fn lexed_from(s: Seq<char>, from: int) -> Result<Seq<TokenModel>, EqlFailure>
    decreases s.len() - from,
{
    if from < 0 || from >= s.len() {
        Ok(Seq::<TokenModel>::empty())
    } else {
        let c = s[from];
        if whitespace(c) {
            lexed_from(s, from + 1)
        } else if alphabetic(c) {
            let end = from + 1 + word_run(s, from + 1);
            proof {
                lemma_word_run_bound(s, from + 1);
            }
            after_token(word_token(s.subrange(from, end)), lexed_from(s, end))
        } else if operator_char(c) {
            let end = from + 1 + operator_run(s, from + 1);
            proof {
                lemma_operator_run_bound(s, from + 1);
            }
            after_token(TokenModel::Operator(s.subrange(from, end)), lexed_from(s, end))
        } else if c == '"' {
            let close = from + 1 + run_until(s, '"', from + 1);
            if close >= s.len() {
                Err(EqlFailure::ParseError("Unterminated string literal"@))
            } else {
                after_token(
                    TokenModel::Value(s.subrange(from + 1, close)),
                    lexed_from(s, close + 1),
                )
            }
        } else if c == '(' {
            after_token(TokenModel::OpenParen, lexed_from(s, from + 1))
        } else if c == ')' {
            after_token(TokenModel::CloseParen, lexed_from(s, from + 1))
        } else if c == '@' {
            let close = from + 1 + run_until(s, ']', from + 1);
            if close >= s.len() {
                Err(EqlFailure::ParseError("Unterminated time range"@))
            } else {
                after_token(
                    TokenModel::TimeRange(s.subrange(from + 1, close)),
                    lexed_from(s, close + 1),
                )
            }
        } else {
            Err(EqlFailure::ParseError("Unexpected character: "@ + seq![c]))
        }
    }
}

/// The tokens of a query text.
pub open spec fn lexed(s: Seq<char>) -> Result<Seq<TokenModel>, EqlFailure> {
    lexed_from(s, 0)
}

/// A run of word characters ends within the text.
pub proof fn lemma_word_run_bound(s: Seq<char>, from: int)
    requires
        0 <= from <= s.len(),
    ensures
        from + word_run(s, from) <= s.len(),
    decreases s.len() - from,
{
    if from < s.len() && word_char(s[from]) {
        lemma_word_run_bound(s, from + 1);
    }
}

/// A run of operator characters ends within the text.
pub proof fn lemma_operator_run_bound(s: Seq<char>, from: int)
    requires
        0 <= from <= s.len(),
    ensures
        from + operator_run(s, from) <= s.len(),
    decreases s.len() - from,
{
    if from < s.len() && operator_char(s[from]) {
        lemma_operator_run_bound(s, from + 1);
    }
}

/// The tokens read so far in front of what the rest of the text gives.
pub open spec fn tokens_then(done: Seq<TokenModel>, rest: Result<Seq<TokenModel>, EqlFailure>) -> Result<
    Seq<TokenModel>,
    EqlFailure,
> {
    match rest {
        Ok(tokens) => Ok(done + tokens),
        Err(e) => Err(e),
    }
}

/// The lexer of the query language.
pub struct EqlParser;

impl EqlParser {
    /// Reads on over word characters from `from`; hands back where it stopped.
    pub fn read_word(chars: &Vec<char>, from: usize) -> (end: usize)
        requires
            from <= chars.len(),
        ensures
            end == from + word_run(chars@, from as int),
            end <= chars.len(),
    {
        let mut i: usize = from;
        while i < chars.len() && (is_alphanumeric(chars[i]) || chars[i] == '_')
            invariant
                from <= i <= chars.len(),
                from + word_run(chars@, from as int) == i + word_run(chars@, i as int),
            decreases chars.len() - i,
        {
            i += 1;
        }
        i
    }

    /// Reads on over operator characters from `from`; hands back where it stopped.
    pub fn read_operator(chars: &Vec<char>, from: usize) -> (end: usize)
        requires
            from <= chars.len(),
        ensures
            end == from + operator_run(chars@, from as int),
            end <= chars.len(),
    {
        let mut i: usize = from;
        while i < chars.len() && (chars[i] == '=' || chars[i] == '!' || chars[i] == '>'
            || chars[i] == '<')
            invariant
                from <= i <= chars.len(),
                from + operator_run(chars@, from as int) == i + operator_run(chars@, i as int),
            decreases chars.len() - i,
        {
            i += 1;
        }
        i
    }

    fn read_until(chars: &Vec<char>, stop: char, from: usize) -> (end: usize)
        requires
            from <= chars.len(),
        ensures
            end == from + run_until(chars@, stop, from as int),
            end <= chars.len(),
    {
        let mut i: usize = from;
        while i < chars.len() && chars[i] != stop
            invariant
                from <= i <= chars.len(),
                from + run_until(chars@, stop, from as int) == i + run_until(
                    chars@,
                    stop,
                    i as int,
                ),
            decreases chars.len() - i,
        {
            i += 1;
        }
        i
    }

    /// Reads on from `from` to the next quote; hands back where the quote
    /// stands, or the length of the text where there is none.
    pub fn read_until_quote(chars: &Vec<char>, from: usize) -> (end: usize)
        requires
            from <= chars.len(),
        ensures
            end == from + run_until(chars@, '"', from as int),
            end <= chars.len(),
    {
        Self::read_until(chars, '"', from)
    }

    /// Reads on from `from` to the next `]`; hands back where it stands, or
    /// the length of the text where there is none.
    pub fn read_time_range(chars: &Vec<char>, from: usize) -> (end: usize)
        requires
            from <= chars.len(),
        ensures
            end == from + run_until(chars@, ']', from as int),
            end <= chars.len(),
    {
        Self::read_until(chars, ']', from)
    }

    fn token_of_word(word: Vec<char>) -> (t: Token)
        ensures
            t@ == word_token(word@),
    {
        let low = to_lower(&word);
        if spells(&low, "where") {
            Token::Where
        } else if spells(&low, "and") {
            Token::And
        } else if spells(&low, "or") {
            Token::Or
        } else {
            Token::Field(from_chars(&word))
        }
    }

    /// Splits a query text into its tokens.
    pub fn parse(query: &str) -> (r: Result<Vec<Token>, EqlError>)
        ensures
            match r {
                Ok(tokens) => lexed(query@) == Ok::<Seq<TokenModel>, EqlFailure>(
                    token_models(tokens@),
                ),
                Err(e) => lexed(query@) == Err::<Seq<TokenModel>, EqlFailure>(e@),
            },
    {
        let chars = to_chars(query);
        let ghost s = chars@;
        let mut tokens: Vec<Token> = Vec::new();
        let mut i: usize = 0;
        assert(tokens_then(token_models(tokens@), lexed_from(s, 0)) == lexed_from(s, 0)) by {
            match lexed_from(s, 0) {
                Ok(t) => {
                },
                Err(_) => {},
            }
        }
        while i < chars.len()
            invariant
                i <= chars.len(),
                s == chars@,
                s == query@,
                lexed(s) == tokens_then(token_models(tokens@), lexed_from(s, i as int)),
            decreases chars.len() - i,
        {
            let c = chars[i];
            let ghost done = token_models(tokens@);
            let mut next: usize = i + 1;
            let mut token: Option<Token> = None;
            if is_whitespace(c) {
            } else if is_alphabetic(c) {
                next = Self::read_word(&chars, i + 1);
                token = Some(Self::token_of_word(slice_of(&chars, i, next)));
            } else if c == '=' || c == '!' || c == '>' || c == '<' {
                next = Self::read_operator(&chars, i + 1);
                token = Some(Token::Operator(from_chars(&slice_of(&chars, i, next))));
            } else if c == '"' {
                let close = Self::read_until_quote(&chars, i + 1);
                if close >= chars.len() {
                    return Err(
                        EqlError::ParseError(String::from_str("Unterminated string literal")),
                    );
                }
                token = Some(Token::Value(from_chars(&slice_of(&chars, i + 1, close))));
                next = close + 1;
            } else if c == '(' {
                token = Some(Token::OpenParen);
            } else if c == ')' {
                token = Some(Token::CloseParen);
            } else if c == '@' {
                let close = Self::read_time_range(&chars, i + 1);
                if close >= chars.len() {
                    return Err(EqlError::ParseError(String::from_str("Unterminated time range")));
                }
                token = Some(Token::TimeRange(from_chars(&slice_of(&chars, i + 1, close))));
                next = close + 1;
            } else {
                let mut text = to_chars("Unexpected character: ");
                text.push(c);
                assert(text@ == "Unexpected character: "@ + seq![c]);
                return Err(EqlError::ParseError(from_chars(&text)));
            }
            match token {
                Some(t) => {
                    let ghost added = t@;
                    tokens.push(t);
                    proof {
                        assert(token_models(tokens@) == done.push(added));
                        match lexed_from(s, next as int) {
                            Ok(rest) => {
                                assert(done + (seq![added] + rest) == done.push(added) + rest);
                            },
                            Err(_) => {},
                        }
                    }
                },
                None => {},
            }
            i = next;
        }
        Ok(tokens)
    }
}

/// How a field is held against a literal.
#[derive(Clone, Copy, Debug, PartialEq, Eq, Structural)]
pub enum Comparison {
    Equal,
    NotEqual,
    Greater,
    Less,
}

/// The comparison an operator stands for, if it stands for one.
pub open spec fn comparison_of(op: Seq<char>) -> Option<Comparison> {
    if op == "="@ {
        Some(Comparison::Equal)
    } else if op == "!="@ {
        Some(Comparison::NotEqual)
    } else if op == ">"@ {
        Some(Comparison::Greater)
    } else if op == "<"@ {
        Some(Comparison::Less)
    } else {
        None
    }
}

/// The operator that stands for a comparison.
pub open spec fn operator_text(c: Comparison) -> Seq<char> {
    match c {
        Comparison::Equal => "="@,
        Comparison::NotEqual => "!="@,
        Comparison::Greater => ">"@,
        Comparison::Less => "<"@,
    }
}

/// One predicate of a query: a field, a comparison and a literal.
#[derive(Debug)]
pub struct Condition {
    pub field: String,
    pub operator: Comparison,
    pub value: String,
}

/// A `Condition` in contracts.
pub struct ConditionModel {
    pub field: Seq<char>,
    pub operator: Comparison,
    pub value: Seq<char>,
}

impl View for Condition {
    type V = ConditionModel;

    open spec fn view(&self) -> ConditionModel {
        ConditionModel { field: self.field@, operator: self.operator, value: self.value@ }
    }
}

/// The time range of a query: a field that must lie after or before a date.
#[derive(Debug)]
pub struct TimeRange {
    pub field: String,
    pub operator: Comparison,
    pub date: String,
}

/// A `TimeRange` in contracts.
pub struct RangeModel {
    pub field: Seq<char>,
    pub operator: Comparison,
    pub date: Seq<char>,
}

impl View for TimeRange {
    type V = RangeModel;

    open spec fn view(&self) -> RangeModel {
        RangeModel { field: self.field@, operator: self.operator, date: self.date@ }
    }
}

/// A planned query: predicates that must all hold, and at most one time range.
#[derive(Debug)]
pub struct EqlQuery {
    pub conditions: Vec<Condition>,
    pub time_range: Option<TimeRange>,
}

/// An `EqlQuery` in contracts.
pub struct QueryModel {
    pub conditions: Seq<ConditionModel>,
    pub time_range: Option<RangeModel>,
}

/// The predicates behind a list of conditions.
pub open spec fn condition_models(v: Seq<Condition>) -> Seq<ConditionModel> {
    Seq::new(v.len(), |i: int| v[i]@)
}

impl View for EqlQuery {
    type V = QueryModel;

    open spec fn view(&self) -> QueryModel {
        QueryModel {
            conditions: condition_models(self.conditions@),
            time_range: match self.time_range {
                Some(r) => Some(r@),
                None => None,
            },
        }
    }
}

/// The layout of the date in a time range.
pub const DATE_LAYOUT: &'static str = "%Y-%m-%d";

/// A character that parts the field of a time range from its date.
pub open spec fn range_mark(c: char) -> bool {
    c == '>' || c == '<'
}

/// How many characters other than `>` and `<` stand in a row from `from` on.
pub open spec fn run_to_mark(s: Seq<char>, from: int) -> nat
    decreases s.len() - from,
{
    if 0 <= from < s.len() && !range_mark(s[from]) {
        1 + run_to_mark(s, from + 1)
    } else {
        0
    }
}

/// The parts of a time range: the field before the first `>` or `<`, the
/// date between that mark and the next one or the end, and the comparison
/// that the first mark stands for. A range without a mark has no parts.
pub open spec fn range_parts(range: Seq<char>) -> Option<RangeModel> {
    let mark = run_to_mark(range, 0) as int;
    if mark >= range.len() {
        None
    } else {
        Some(
            RangeModel {
                field: range.subrange(0, mark),
                operator: if range[mark] == '>' {
                    Comparison::Greater
                } else {
                    Comparison::Less
                },
                date: range.subrange(mark + 1, mark + 1 + run_to_mark(range, mark + 1)),
            },
        )
    }
}

/// The time range that a range text stands for, given whether its date
/// reads as a date.
pub open spec fn range_given(range: Seq<char>, date_ok: bool) -> Result<RangeModel, EqlFailure> {
    match range_parts(range) {
        None => Err(EqlFailure::QueryBuildError("Invalid time range"@)),
        Some(parts) => if date_ok {
            Ok(parts)
        } else {
            Err(EqlFailure::QueryBuildError("Invalid datetime format"@))
        },
    }
}

/// The time range that a range text stands for: its date must read as year,
/// month and day between hyphens.
pub open spec fn range_of(range: Seq<char>) -> Result<RangeModel, EqlFailure> {
    range_given(
        range,
        match range_parts(range) {
            Some(parts) => date_parses(parts.date, DATE_LAYOUT@),
            None => false,
        },
    )
}

/// How far the planner has come: the predicates and the time range it has,
/// and the field and comparison of the predicate it is reading.
pub struct Plan {
    pub conditions: Seq<ConditionModel>,
    pub time_range: Option<RangeModel>,
    pub field: Option<Seq<char>>,
    pub operator: Option<Comparison>,
}

/// The plan with one more token taken in. A field may only come when none is
/// being read, an operator only after a field and only once, and it must be
/// one of `=`, `!=`, `>`, `<`; a value ends the predicate and needs both. A
/// time range is taken once. `AND` and `WHERE` change nothing. `OR` and
/// parentheses are refused.
pub open spec fn plan_step(p: Plan, t: TokenModel) -> Result<Plan, EqlFailure> {
    match t {
        TokenModel::Field(name) => if p.field is Some {
            Err(EqlFailure::ParseError("Unexpected field token"@))
        } else {
            Ok(Plan { field: Some(name), ..p })
        },
        TokenModel::Operator(op) => if p.operator is Some || p.field is None {
            Err(EqlFailure::ParseError("Unexpected operator token"@))
        } else {
            match comparison_of(op) {
                Some(c) => Ok(Plan { operator: Some(c), ..p }),
                None => Err(EqlFailure::QueryBuildError("Unsupported operator: "@ + op)),
            }
        },
        TokenModel::Value(value) => match (p.field, p.operator) {
            (Some(field), Some(operator)) => Ok(
                Plan {
                    conditions: p.conditions.push(
                        ConditionModel { field: field, operator: operator, value: value },
                    ),
                    time_range: p.time_range,
                    field: None,
                    operator: None,
                },
            ),
            _ => Err(EqlFailure::ParseError("Value token without field or operator"@)),
        },
        TokenModel::TimeRange(range) => if p.time_range is Some {
            Err(EqlFailure::QueryBuildError("More than one time range"@))
        } else {
            match range_of(range) {
                Ok(r) => Ok(Plan { time_range: Some(r), ..p }),
                Err(e) => Err(e),
            }
        },
        TokenModel::And => Ok(p),
        TokenModel::Where => Ok(p),
        TokenModel::Or | TokenModel::OpenParen | TokenModel::CloseParen => Err(
            EqlFailure::QueryBuildError(
                "Complex queries with OR or parentheses not yet supported"@,
            ),
        ),
    }
}

/// The plan after all the tokens, taken in from first to last; the first
/// refusal ends it.
pub open spec fn plan_of(tokens: Seq<TokenModel>) -> Result<Plan, EqlFailure>
    decreases tokens.len(),
{
    if tokens.len() == 0 {
        Ok(Plan { conditions: Seq::empty(), time_range: None, field: None, operator: None })
    } else {
        match plan_of(tokens.drop_last()) {
            Ok(p) => plan_step(p, tokens.last()),
            Err(e) => Err(e),
        }
    }
}

/// The query that the tokens stand for. A predicate that is begun and not
/// ended at the end of the tokens is dropped.
pub open spec fn planned(tokens: Seq<TokenModel>) -> Result<QueryModel, EqlFailure> {
    match plan_of(tokens) {
        Ok(p) => Ok(QueryModel { conditions: p.conditions, time_range: p.time_range }),
        Err(e) => Err(e),
    }
}

/// The text of the first member with the given key, if that is a string;
/// the empty text otherwise.
pub open spec fn member_text(members: Seq<Member>, key: Seq<char>) -> Seq<char> {
    match member_named(members, key) {
        Some(JsonModel::Text(s)) => s,
        _ => Seq::<char>::empty(),
    }
}

/// The JSON text of the first member with the given key, if that is an
/// array or an object.
pub open spec fn member_nested(members: Seq<Member>, key: Seq<char>) -> Option<Seq<char>> {
    match member_named(members, key) {
        Some(JsonModel::Nested(s)) => Some(s),
        _ => None,
    }
}

/// A field that an event holds as an attribute of its own.
pub open spec fn own_field(field: Seq<char>) -> bool {
    field == "timestamp"@ || field == "src_ip"@ || field == "dst_ip"@ || field == "event_type"@
}

/// What a stored event holds under a field name, given the members of its
/// JSON text and those of its extensions: its own attribute for `timestamp`,
/// `src_ip`, `dst_ip` and `event_type`, else the extension of that name; the
/// empty text where it holds no string there.
pub open spec fn row_text(top: Seq<Member>, nested: Option<Seq<Member>>, field: Seq<char>) -> Seq<
    char,
> {
    if own_field(field) {
        member_text(top, field)
    } else {
        match nested {
            Some(members) => member_text(members, field),
            None => Seq::<char>::empty(),
        }
    }
}

/// Whether a text stands to a literal as the comparison asks: equal and
/// unequal by content, greater and less in dictionary order.
pub open spec fn compares(value: Seq<char>, c: Comparison, literal: Seq<char>) -> bool {
    match c {
        Comparison::Equal => value == literal,
        Comparison::NotEqual => value != literal,
        Comparison::Greater => lex_lt(literal, value),
        Comparison::Less => lex_lt(value, literal),
    }
}

/// Whether a stored event meets a query: every predicate holds, and so does
/// the time range where there is one.
pub open spec fn row_holds(top: Seq<Member>, nested: Option<Seq<Member>>, q: QueryModel) -> bool {
    &&& forall|i: int|
        0 <= i < q.conditions.len() ==> compares(
            row_text(top, nested, (#[trigger] q.conditions[i]).field),
            q.conditions[i].operator,
            q.conditions[i].value,
        )
    &&& match q.time_range {
        Some(r) => compares(row_text(top, nested, r.field), r.operator, r.date),
        None => true,
    }
}

/// The members of the extensions of a stored event, given the members of
/// its JSON text: there are none where `extensions` is no object.
pub open spec fn nested_members(top: Seq<Member>) -> Option<Seq<Member>> {
    match member_nested(top, "extensions"@) {
        Some(text) => match json_object_of(text) {
            Ok(members) => Some(members),
            Err(_) => None,
        },
        None => None,
    }
}

/// Whether the JSON text of a stored event meets a query. A text that is no
/// JSON object meets none.
pub open spec fn data_matches(log_data: Seq<char>, q: QueryModel) -> bool {
    match json_object_of(log_data) {
        Ok(top) => row_holds(top, nested_members(top), q),
        Err(_) => false,
    }
}

/// Whether a record belongs to an account and bears a time stamp between
/// two bounds, both included, in dictionary order.
pub open spec fn in_window(r: LogRecord, account: Seq<char>, start: Seq<char>, end: Seq<char>) -> bool {
    r.account_id == account && (match r.timestamp {
        Some(t) => !lex_lt(t, start) && !lex_lt(end, t),
        None => false,
    })
}

/// The JSON texts of the records in the window that meet the query, in the
/// order of the store.
pub open spec fn selected(
    store: Seq<LogRecord>,
    account: Seq<char>,
    start: Seq<char>,
    end: Seq<char>,
    q: QueryModel,
) -> Seq<Seq<char>>
    decreases store.len(),
{
    if store.len() == 0 {
        Seq::<Seq<char>>::empty()
    } else if in_window(store.last(), account, start, end) && data_matches(
        store.last().log_data,
        q,
    ) {
        selected(store.drop_last(), account, start, end, q).push(store.last().log_data)
    } else {
        selected(store.drop_last(), account, start, end, q)
    }
}

/// The rows that a query selects are exactly the records of the account in
/// the window that meet it: every selected text is that of such a record,
/// and every such record has its text among the selected.
pub proof fn lemma_selected_exactly(
    store: Seq<LogRecord>,
    account: Seq<char>,
    start: Seq<char>,
    end: Seq<char>,
    q: QueryModel,
)
    ensures
        forall|k: int|
            0 <= k < selected(store, account, start, end, q).len() ==> exists|j: int|
                0 <= j < store.len() && store[j].log_data == #[trigger] selected(
                    store,
                    account,
                    start,
                    end,
                    q,
                )[k] && in_window(store[j], account, start, end) && data_matches(
                    store[j].log_data,
                    q,
                ),
        forall|j: int|
            0 <= j < store.len() && in_window(#[trigger] store[j], account, start, end)
                && data_matches(store[j].log_data, q) ==> exists|k: int|
                0 <= k < selected(store, account, start, end, q).len() && selected(
                    store,
                    account,
                    start,
                    end,
                    q,
                )[k] == store[j].log_data,
    decreases store.len(),
{
    if store.len() > 0 {
        let init = store.drop_last();
        let last = store.last();
        let before = selected(init, account, start, end, q);
        let all = selected(store, account, start, end, q);
        lemma_selected_exactly(init, account, start, end, q);
        let taken = in_window(last, account, start, end) && data_matches(last.log_data, q);
        assert forall|k: int| 0 <= k < all.len() implies exists|j: int|
            0 <= j < store.len() && store[j].log_data == #[trigger] all[k] && in_window(
                store[j],
                account,
                start,
                end,
            ) && data_matches(store[j].log_data, q) by {
            if k < before.len() {
                let j = choose|j: int|
                    0 <= j < init.len() && init[j].log_data == before[k] && in_window(
                        init[j],
                        account,
                        start,
                        end,
                    ) && data_matches(init[j].log_data, q);
                assert(store[j] == init[j]);
            } else {
                assert(store[store.len() - 1] == last);
            }
        }
        assert forall|j: int|
            0 <= j < store.len() && in_window(#[trigger] store[j], account, start, end)
                && data_matches(store[j].log_data, q) implies exists|k: int|
            0 <= k < all.len() && all[k] == store[j].log_data by {
            if j < init.len() {
                assert(init[j] == store[j]);
                let k = choose|k: int| 0 <= k < before.len() && before[k] == init[j].log_data;
                assert(all[k] == before[k]);
            } else {
                assert(taken);
                assert(all[all.len() - 1] == last.log_data);
            }
        }
    }
}

/// What a query text makes of the store: a refusal by the lexer or the
/// planner, or the JSON texts of the records in the window that meet it.
pub open spec fn executed(
    store: Seq<LogRecord>,
    account: Seq<char>,
    start: Seq<char>,
    end: Seq<char>,
    query: Seq<char>,
) -> Result<Seq<Seq<char>>, EqlFailure> {
    match lexed(query) {
        Err(e) => Err(e),
        Ok(tokens) => match planned(tokens) {
            Err(e) => Err(e),
            Ok(q) => Ok(selected(store, account, start, end, q)),
        },
    }
}

fn comparison_for(op: &Vec<char>) -> (r: Option<Comparison>)
    ensures
        r == comparison_of(op@),
{
    if spells(op, "=") {
        Some(Comparison::Equal)
    } else if spells(op, "!=") {
        Some(Comparison::NotEqual)
    } else if spells(op, ">") {
        Some(Comparison::Greater)
    } else if spells(op, "<") {
        Some(Comparison::Less)
    } else {
        None
    }
}

fn read_to_mark(chars: &Vec<char>, from: usize) -> (end: usize)
    requires
        from <= chars.len(),
    ensures
        end == from + run_to_mark(chars@, from as int),
        end <= chars.len(),
{
    let mut i: usize = from;
    while i < chars.len() && chars[i] != '>' && chars[i] != '<'
        invariant
            from <= i <= chars.len(),
            from + run_to_mark(chars@, from as int) == i + run_to_mark(chars@, i as int),
        decreases chars.len() - i,
    {
        i += 1;
    }
    i
}

fn member_string(members: &Vec<(String, JsonValue)>, key: &str) -> (r: String)
    ensures
        r@ == member_text(members_view(members@), key@),
{
    match find_member(members, key) {
        Some(JsonValue::Text(t)) => t.clone(),
        _ => String::new(),
    }
}

fn member_object(members: &Vec<(String, JsonValue)>, key: &str) -> (r: Option<String>)
    ensures
        opt_view(r) == member_nested(members_view(members@), key@),
{
    match find_member(members, key) {
        Some(JsonValue::Nested(t)) => Some(t.clone()),
        _ => None,
    }
}

/// The members behind an optional list of members.
pub open spec fn opt_members(o: Option<Vec<(String, JsonValue)>>) -> Option<Seq<Member>> {
    match o {
        Some(v) => Some(members_view(v@)),
        None => None,
    }
}

fn holds(value: &str, c: Comparison, literal: &str) -> (r: bool)
    ensures
        r == compares(value@, c, literal@),
{
    let order = lex_order(&to_chars(value), &to_chars(literal));
    match c {
        Comparison::Equal => order == Order::Equal,
        Comparison::NotEqual => order != Order::Equal,
        Comparison::Greater => order == Order::Greater,
        Comparison::Less => order == Order::Less,
    }
}

/// The planner and the executor of the query language.
pub struct QueryExecutor;

impl QueryExecutor {
    /// The parts of a time range, if it has a mark.
    pub fn split_time_range(range: &str) -> (r: Option<TimeRange>)
        ensures
            match r {
                Some(parts) => range_parts(range@) == Some(parts@),
                None => range_parts(range@) is None,
            },
    {
        let chars = to_chars(range);
        let mark = read_to_mark(&chars, 0);
        if mark >= chars.len() {
            return None;
        }
        let end = read_to_mark(&chars, mark + 1);
        let operator = if chars[mark] == '>' {
            Comparison::Greater
        } else {
            Comparison::Less
        };
        Some(
            TimeRange {
                field: from_chars(&slice_of(&chars, 0, mark)),
                operator,
                date: from_chars(&slice_of(&chars, mark + 1, end)),
            },
        )
    }

    /// The time range that a range text stands for, given whether its date
    /// reads as a date.
    pub fn time_range_given(range: &str, date_ok: bool) -> (r: Result<TimeRange, EqlError>)
        ensures
            match r {
                Ok(t) => range_given(range@, date_ok) == Ok::<RangeModel, EqlFailure>(t@),
                Err(e) => range_given(range@, date_ok) == Err::<RangeModel, EqlFailure>(e@),
            },
    {
        match Self::split_time_range(range) {
            None => Err(EqlError::QueryBuildError(String::from_str("Invalid time range"))),
            Some(parts) => if date_ok {
                Ok(parts)
            } else {
                Err(EqlError::QueryBuildError(String::from_str("Invalid datetime format")))
            },
        }
    }

    fn time_range(range: &str) -> (r: Result<TimeRange, EqlError>)
        ensures
            match r {
                Ok(t) => range_of(range@) == Ok::<RangeModel, EqlFailure>(t@),
                Err(e) => range_of(range@) == Err::<RangeModel, EqlFailure>(e@),
            },
    {
        let date_ok = match Self::split_time_range(range) {
            Some(parts) => is_date(parts.date.as_str(), DATE_LAYOUT),
            None => false,
        };
        Self::time_range_given(range, date_ok)
    }

    /// Plans a query from its tokens.
    pub fn parse_query(tokens: Vec<Token>) -> (r: Result<EqlQuery, EqlError>)
        ensures
            match r {
                Ok(q) => planned(token_models(tokens@)) == Ok::<QueryModel, EqlFailure>(q@),
                Err(e) => planned(token_models(tokens@)) == Err::<QueryModel, EqlFailure>(e@),
            },
    {
        let mut conditions: Vec<Condition> = Vec::new();
        let mut time_range: Option<TimeRange> = None;
        let mut field: Option<String> = None;
        let mut operator: Option<Comparison> = None;
        let ghost all = token_models(tokens@);
        let mut i: usize = 0;
        assert(condition_models(conditions@) == Seq::<ConditionModel>::empty());
        while i < tokens.len()
            invariant
                i <= tokens.len(),
                all == token_models(tokens@),
                plan_of(all.take(i as int)) == Ok::<Plan, EqlFailure>(
                    Plan {
                        conditions: condition_models(conditions@),
                        time_range: match time_range {
                            Some(r) => Some(r@),
                            None => None,
                        },
                        field: opt_view(field),
                        operator: operator,
                    },
                ),
            decreases tokens.len() - i,
        {
            proof {
                assert(all.take(i as int + 1).drop_last() == all.take(i as int));
                lemma_plan_refusal_stays(all, i as int + 1);
            }
            match &tokens[i] {
                Token::Field(name) => {
                    if field.is_some() {
                        return Err(
                            EqlError::ParseError(String::from_str("Unexpected field token")),
                        );
                    }
                    field = Some(name.clone());
                },
                Token::Operator(op) => {
                    if operator.is_some() || field.is_none() {
                        return Err(
                            EqlError::ParseError(String::from_str("Unexpected operator token")),
                        );
                    }
                    match comparison_for(&to_chars(op.as_str())) {
                        Some(c) => {
                            operator = Some(c);
                        },
                        None => {
                            return Err(
                                EqlError::QueryBuildError(
                                    String::from_str("Unsupported operator: ").concat(op.as_str()),
                                ),
                            );
                        },
                    }
                },
                Token::Value(value) => {
                    match (field, operator) {
                        (Some(f), Some(c)) => {
                            let ghost before = condition_models(conditions@);
                            let condition = Condition {
                                field: f,
                                operator: c,
                                value: value.clone(),
                            };
                            let ghost added = condition@;
                            conditions.push(condition);
                            assert(condition_models(conditions@) == before.push(added));
                            field = None;
                            operator = None;
                        },
                        _ => {
                            return Err(
                                EqlError::ParseError(
                                    String::from_str("Value token without field or operator"),
                                ),
                            );
                        },
                    }
                },
                Token::TimeRange(range) => {
                    if time_range.is_some() {
                        return Err(
                            EqlError::QueryBuildError(String::from_str("More than one time range")),
                        );
                    }
                    match Self::time_range(range.as_str()) {
                        Ok(r) => {
                            time_range = Some(r);
                        },
                        Err(e) => {
                            return Err(e);
                        },
                    }
                },
                Token::And => {},
                Token::Where => {},
                _ => {
                    return Err(
                        EqlError::QueryBuildError(
                            String::from_str(
                                "Complex queries with OR or parentheses not yet supported",
                            ),
                        ),
                    );
                },
            }
            i += 1;
        }
        assert(all.take(tokens.len() as int) == all);
        Ok(EqlQuery { conditions, time_range })
    }

    /// What a stored event holds under a field name, given the members of
    /// its JSON text and those of its extensions.
    pub fn get_json_value(
        top: &Vec<(String, JsonValue)>,
        nested: &Option<Vec<(String, JsonValue)>>,
        field: &str,
    ) -> (r: String)
        ensures
            r@ == row_text(members_view(top@), opt_members(*nested), field@),
    {
        if str_eq(field, "timestamp") || str_eq(field, "src_ip") || str_eq(field, "dst_ip")
            || str_eq(field, "event_type") {
            member_string(top, field)
        } else {
            match nested {
                Some(members) => member_string(members, field),
                None => String::new(),
            }
        }
    }

    /// Whether a stored event meets a query, given the members of its JSON
    /// text and those of its extensions.
    pub fn row_matches(
        top: &Vec<(String, JsonValue)>,
        nested: &Option<Vec<(String, JsonValue)>>,
        query: &EqlQuery,
    ) -> (r: bool)
        ensures
            r == row_holds(members_view(top@), opt_members(*nested), query@),
    {
        let ghost conds = condition_models(query.conditions@);
        let mut i: usize = 0;
        while i < query.conditions.len()
            invariant
                i <= query.conditions.len(),
                conds == condition_models(query.conditions@),
                forall|k: int|
                    0 <= k < i ==> compares(
                        row_text(members_view(top@), opt_members(*nested), (#[trigger] conds[k]).field),
                        conds[k].operator,
                        conds[k].value,
                    ),
            decreases query.conditions.len() - i,
        {
            let condition = &query.conditions[i];
            assert(conds[i as int] == condition@);
            let value = Self::get_json_value(top, nested, condition.field.as_str());
            if !holds(value.as_str(), condition.operator, condition.value.as_str()) {
                return false;
            }
            i += 1;
        }
        match &query.time_range {
            Some(range) => {
                let value = Self::get_json_value(top, nested, range.field.as_str());
                holds(value.as_str(), range.operator, range.date.as_str())
            },
            None => true,
        }
    }

    /// Whether the JSON text of a stored event meets a query.
    pub fn matches_query(log_data: &str, query: &EqlQuery) -> (r: bool)
        ensures
            r == data_matches(log_data@, query@),
    {
        let top = match parse_object(log_data) {
            Ok(top) => top,
            Err(_) => {
                return false;
            },
        };
        let nested = match member_object(&top, "extensions") {
            Some(text) => match parse_object(text.as_str()) {
                Ok(members) => Some(members),
                Err(_) => None,
            },
            None => None,
        };
        Self::row_matches(&top, &nested, query)
    }

    /// Runs a query text against the records of an account whose time stamps
    /// lie between two bounds, and hands back the JSON texts of those that
    /// meet it, in the order of the store.
    pub fn execute_query(
        store: &LogStore,
        account_id: &str,
        start_time: &str,
        end_time: &str,
        eql_query: &str,
    ) -> (r: Result<Vec<String>, EqlError>)
        ensures
            match r {
                Ok(rows) => executed(store@, account_id@, start_time@, end_time@, eql_query@)
                    == Ok::<Seq<Seq<char>>, EqlFailure>(string_views(rows@)),
                Err(e) => executed(store@, account_id@, start_time@, end_time@, eql_query@)
                    == Err::<Seq<Seq<char>>, EqlFailure>(e@),
            },
    {
        let tokens = match EqlParser::parse(eql_query) {
            Ok(tokens) => tokens,
            Err(e) => {
                return Err(e);
            },
        };
        let query = match Self::parse_query(tokens) {
            Ok(query) => query,
            Err(e) => {
                return Err(e);
            },
        };
        let start = to_chars(start_time);
        let end = to_chars(end_time);
        let mut rows: Vec<String> = Vec::new();
        let count = store.len();
        let mut i: usize = 0;
        while i < count
            invariant
                i <= count,
                count == store@.len(),
                start@ == start_time@,
                end@ == end_time@,
                string_views(rows@) == selected(
                    store@.take(i as int),
                    account_id@,
                    start_time@,
                    end_time@,
                    query@,
                ),
            decreases count - i,
        {
            assert(store@.take(i as int + 1).drop_last() == store@.take(i as int));
            let log = store.get(i);
            let in_window = str_eq(log.account_id.as_str(), account_id) && (match &log.timestamp {
                Some(t) => {
                    let stamp = to_chars(t.as_str());
                    lex_order(&stamp, &start) != Order::Less && lex_order(&end, &stamp)
                        != Order::Less
                },
                None => false,
            });
            if in_window && Self::matches_query(log.log_data.as_str(), &query) {
                rows.push(log.log_data.clone());
            }
            i += 1;
        }
        assert(store@.take(count as int) == store@);
        Ok(rows)
    }
}

/// Once the planner has refused the first tokens, it refuses any run of
/// tokens that begins with them, for the same reason.
pub proof fn lemma_plan_refusal_stays(tokens: Seq<TokenModel>, n: int)
    requires
        0 <= n <= tokens.len(),
    ensures
        plan_of(tokens.take(n)) is Err ==> plan_of(tokens) == plan_of(tokens.take(n)),
    decreases tokens.len(),
{
    if n == tokens.len() {
        assert(tokens.take(n) == tokens);
    } else {
        lemma_plan_refusal_stays(tokens.drop_last(), n);
        assert(tokens.drop_last().take(n) == tokens.take(n));
    }
}

} // verus!

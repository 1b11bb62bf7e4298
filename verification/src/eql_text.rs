//! Writing a planned query back as text, and the law that reading the text
//! gives the query back.

use vstd::prelude::*;
use vstd::string::StringExecFns;
use crate::dates::date_parses;
use crate::eql::{
    after_token, Comparison, comparison_of, condition_models, ConditionModel, DATE_LAYOUT,
    EqlFailure, EqlQuery, lexed, lexed_from, operator_char, operator_run, operator_text, Plan,
    plan_of, plan_step, planned, QueryModel, range_mark, range_of, range_parts, RangeModel,
    run_to_mark, run_until, TokenModel, word_char, word_run, word_token,
};
use crate::text::{alphabetic, lowered, whitespace};

verus! {

/// A token as text.
pub open spec fn token_text(t: TokenModel) -> Seq<char> {
    match t {
        TokenModel::Field(w) => w,
        TokenModel::Value(v) => seq!['"'] + v + seq!['"'],
        TokenModel::Operator(op) => op,
        TokenModel::And => "AND"@,
        TokenModel::Or => "OR"@,
        TokenModel::OpenParen => "("@,
        TokenModel::CloseParen => ")"@,
        TokenModel::Where => "WHERE"@,
        TokenModel::TimeRange(r) => seq!['@'] + r + seq![']'],
    }
}

/// Tokens as text, each followed by one space.
pub open spec fn tokens_text(tokens: Seq<TokenModel>) -> Seq<char>
    decreases tokens.len(),
{
    if tokens.len() == 0 {
        Seq::<char>::empty()
    } else {
        token_text(tokens[0]) + seq![' '] + tokens_text(tokens.skip(1))
    }
}

/// A word that the lexer reads as a field name: it begins with a letter
/// that is no white space, goes on with letters, digits and `_`, and is no
/// keyword.
pub open spec fn field_name(w: Seq<char>) -> bool {
    &&& w.len() > 0
    &&& alphabetic(w[0])
    &&& !whitespace(w[0])
    &&& forall|i: int| 0 <= i < w.len() ==> word_char(#[trigger] w[i])
    &&& word_token(w) == TokenModel::Field(w)
}

/// A token that the lexer reads back from its text.
pub open spec fn plain_token(t: TokenModel) -> bool {
    match t {
        TokenModel::Field(w) => field_name(w),
        TokenModel::Value(v) => forall|i: int| 0 <= i < v.len() ==> #[trigger] v[i] != '"',
        TokenModel::Operator(op) => op.len() > 0 && forall|i: int|
            0 <= i < op.len() ==> operator_char(#[trigger] op[i]),
        TokenModel::TimeRange(r) => forall|i: int| 0 <= i < r.len() ==> #[trigger] r[i] != ']',
        _ => true,
    }
}

/// Every token is one that the lexer reads back from its text.
pub open spec fn plain_tokens(tokens: Seq<TokenModel>) -> bool {
    forall|i: int| 0 <= i < tokens.len() ==> plain_token(#[trigger] tokens[i])
}

proof fn lemma_word_run_is(s: Seq<char>, from: int, end: int)
    requires
        0 <= from <= end <= s.len(),
        forall|k: int| from <= k < end ==> word_char(#[trigger] s[k]),
        end < s.len() ==> !word_char(s[end]),
    ensures
        from + word_run(s, from) == end,
    decreases end - from,
{
    if from < end {
        lemma_word_run_is(s, from + 1, end);
    }
}

proof fn lemma_operator_run_is(s: Seq<char>, from: int, end: int)
    requires
        0 <= from <= end <= s.len(),
        forall|k: int| from <= k < end ==> operator_char(#[trigger] s[k]),
        end < s.len() ==> !operator_char(s[end]),
    ensures
        from + operator_run(s, from) == end,
    decreases end - from,
{
    if from < end {
        lemma_operator_run_is(s, from + 1, end);
    }
}

proof fn lemma_run_until_is(s: Seq<char>, c: char, from: int, end: int)
    requires
        0 <= from <= end <= s.len(),
        forall|k: int| from <= k < end ==> #[trigger] s[k] != c,
        end < s.len() ==> s[end] == c,
    ensures
        from + run_until(s, c, from) == end,
    decreases end - from,
{
    if from < end {
        lemma_run_until_is(s, c, from + 1, end);
    }
}

proof fn lemma_run_to_mark_is(s: Seq<char>, from: int, end: int)
    requires
        0 <= from <= end <= s.len(),
        forall|k: int| from <= k < end ==> !range_mark(#[trigger] s[k]),
        end < s.len() ==> range_mark(s[end]),
    ensures
        from + run_to_mark(s, from) == end,
    decreases end - from,
{
    if from < end {
        lemma_run_to_mark_is(s, from + 1, end);
    }
}

/// The three keywords, written in capitals, are read as themselves.
proof fn lemma_keywords()
    ensures
        word_token("AND"@) == TokenModel::And,
        word_token("OR"@) == TokenModel::Or,
        word_token("WHERE"@) == TokenModel::Where,
        "AND"@ == seq!['A', 'N', 'D'],
        "OR"@ == seq!['O', 'R'],
        "WHERE"@ == seq!['W', 'H', 'E', 'R', 'E'],
{
    reveal_strlit("AND");
    reveal_strlit("OR");
    reveal_strlit("WHERE");
    reveal_strlit("and");
    reveal_strlit("or");
    reveal_strlit("where");
    assert(lowered("AND"@) =~= "and"@);
    assert(lowered("OR"@) =~= "or"@);
    assert(lowered("WHERE"@) =~= "where"@);
}

/// White space that parts tokens: white space that is no letter and no
/// digit, as every ASCII white space is.
pub open spec fn separator(c: char) -> bool {
    whitespace(c) && !word_char(c)
}

/// A run of characters that part tokens.
pub open spec fn blank(g: Seq<char>) -> bool {
    forall|i: int| 0 <= i < g.len() ==> separator(#[trigger] g[i])
}

/// The lexer skips white space.
proof fn lemma_lex_skips(s: Seq<char>, from: int, end: int)
    requires
        0 <= from <= end <= s.len(),
        forall|k: int| from <= k < end ==> whitespace(#[trigger] s[k]),
    ensures
        lexed_from(s, from) == lexed_from(s, end),
    decreases end - from,
{
    if from < end {
        lemma_lex_skips(s, from + 1, end);
    }
}

/// A word that ends the text or stands before a character that is none of
/// a word is read as one word.
proof fn lemma_lex_word(s: Seq<char>, from: int, w: Seq<char>)
    requires
        0 <= from,
        from + w.len() <= s.len(),
        s.subrange(from, from + w.len()) == w,
        from + w.len() < s.len() ==> !word_char(s[from + w.len()]),
        w.len() > 0,
        alphabetic(w[0]),
        !whitespace(w[0]),
        forall|i: int| 0 <= i < w.len() ==> word_char(#[trigger] w[i]),
    ensures
        lexed_from(s, from) == after_token(word_token(w), lexed_from(s, from + w.len())),
{
    let end = from + w.len();
    assert(s[from] == s.subrange(from, end)[0]);
    assert forall|k: int| from + 1 <= k < end implies word_char(#[trigger] s[k]) by {
        assert(s.subrange(from, end)[k - from] == s[k]);
    }
    lemma_word_run_is(s, from + 1, end);
}

/// The text of a token that ends the text or stands before white space
/// is read as that token.
proof fn lemma_lex_token(s: Seq<char>, from: int, t: TokenModel)
    requires
        0 <= from,
        from + token_text(t).len() <= s.len(),
        s.subrange(from, from + token_text(t).len()) == token_text(t),
        from + token_text(t).len() < s.len() ==> separator(s[from + token_text(t).len()]),
        plain_token(t),
    ensures
        lexed_from(s, from) == after_token(t, lexed_from(s, from + token_text(t).len())),
{
    let text = token_text(t);
    let end = from + text.len();
    lemma_keywords();
    assert forall|k: int| from <= k < end implies s[k] == #[trigger] text[k - from] by {
        assert(s.subrange(from, end)[k - from] == s[k]);
    }
    match t {
        TokenModel::Field(w) => {
            lemma_lex_word(s, from, w);
        },
        TokenModel::And => {
            lemma_lex_word(s, from, text);
        },
        TokenModel::Or => {
            lemma_lex_word(s, from, text);
        },
        TokenModel::Where => {
            lemma_lex_word(s, from, text);
        },
        TokenModel::Operator(op) => {
            assert(operator_char(op[0]));
            assert(s[from] == text[0]);
            assert forall|k: int| from + 1 <= k < end implies operator_char(#[trigger] s[k]) by {
                assert(s[k] == text[k - from]);
            }
            lemma_operator_run_is(s, from + 1, end);
            assert(s.subrange(from, end) =~= op);
        },
        TokenModel::Value(v) => {
            assert(s[from] == text[0]);
            assert forall|k: int| from + 1 <= k < end - 1 implies #[trigger] s[k] != '"' by {
                assert(text[k - from] == v[k - from - 1]);
            }
            assert(s[end - 1] == text[text.len() - 1]);
            lemma_run_until_is(s, '"', from + 1, end - 1);
            assert(s.subrange(from + 1, end - 1) =~= v) by {
                assert forall|k: int| 0 <= k < v.len() implies s.subrange(from + 1, end - 1)[k]
                    == v[k] by {
                    assert(s[from + 1 + k] == text[k + 1]);
                }
            }
        },
        TokenModel::TimeRange(r) => {
            assert(s[from] == text[0]);
            assert forall|k: int| from + 1 <= k < end - 1 implies #[trigger] s[k] != ']' by {
                assert(text[k - from] == r[k - from - 1]);
            }
            assert(s[end - 1] == text[text.len() - 1]);
            lemma_run_until_is(s, ']', from + 1, end - 1);
            assert(s.subrange(from + 1, end - 1) =~= r) by {
                assert forall|k: int| 0 <= k < r.len() implies s.subrange(from + 1, end - 1)[k]
                    == r[k] by {
                    assert(s[from + 1 + k] == text[k + 1]);
                }
            }
        },
        TokenModel::OpenParen => {
            reveal_strlit("(");
            assert(s[from] == text[0]);
        },
        TokenModel::CloseParen => {
            reveal_strlit(")");
            assert(s[from] == text[0]);
        },
    }
}

/// Where the rest of a text is the text of plain tokens, the lexer reads
/// those tokens from there.
pub proof fn lemma_lex_tokens_from(s: Seq<char>, from: int, tokens: Seq<TokenModel>)
    requires
        0 <= from <= s.len(),
        s.skip(from) == tokens_text(tokens),
        plain_tokens(tokens),
    ensures
        lexed_from(s, from) == Ok::<Seq<TokenModel>, EqlFailure>(tokens),
    decreases tokens.len(),
{
    if tokens.len() == 0 {
        assert(tokens == Seq::<TokenModel>::empty());
    } else {
        let t = tokens[0];
        let text = token_text(t);
        let rest = tokens_text(tokens.skip(1));
        let tail = s.skip(from);
        assert(tail == text + seq![' '] + rest);
        let end = from + text.len();
        assert(s.subrange(from, end) =~= text) by {
            assert forall|k: int| 0 <= k < text.len() implies s.subrange(from, end)[k] == text[k] by {
            }
        }
        assert(s[end] == ' ') by {
            assert(tail[text.len() as int] == s[end]);
        }
        lemma_lex_token(s, from, t);
        lemma_lex_skips(s, end, end + 1);
        assert(s.skip(end + 1) =~= rest) by {
            assert forall|k: int| 0 <= k < rest.len() implies s.skip(end + 1)[k] == rest[k] by {
                assert(tail[text.len() + 1 + k] == s[from + text.len() + 1 + k]);
            }
        }
        assert(plain_tokens(tokens.skip(1))) by {
            assert forall|i: int| 0 <= i < tokens.skip(1).len() implies plain_token(
                #[trigger] tokens.skip(1)[i],
            ) by {
            }
        }
        lemma_lex_tokens_from(s, end + 1, tokens.skip(1));
        assert(seq![t] + tokens.skip(1) == tokens);
    }
}

/// The lexer reads plain tokens back from their text.
pub proof fn lemma_lex_reads_tokens(tokens: Seq<TokenModel>)
    requires
        plain_tokens(tokens),
    ensures
        lexed(tokens_text(tokens)) == Ok::<Seq<TokenModel>, EqlFailure>(tokens),
{
    let s = tokens_text(tokens);
    assert(s.skip(0) == s);
    lemma_lex_tokens_from(s, 0, tokens);
}

/// Tokens as text, each followed by the white space given for it.
pub open spec fn spaced_text(tokens: Seq<TokenModel>, gaps: Seq<Seq<char>>) -> Seq<char>
    decreases tokens.len(),
{
    if tokens.len() == 0 || gaps.len() == 0 {
        Seq::<char>::empty()
    } else {
        token_text(tokens[0]) + gaps[0] + spaced_text(tokens.skip(1), gaps.skip(1))
    }
}

/// White space for each token to stand before: as many runs as there are
/// tokens, each of characters that part tokens, and none empty but, if one
/// likes, the last.
pub open spec fn spacing(tokens: Seq<TokenModel>, gaps: Seq<Seq<char>>) -> bool {
    &&& gaps.len() == tokens.len()
    &&& forall|i: int|
        0 <= i < gaps.len() ==> blank(#[trigger] gaps[i]) && (i + 1 < gaps.len() ==> gaps[i].len()
            > 0)
}

/// Where the rest of a text is the text of plain tokens with white space
/// between them, the lexer reads those tokens from there.
proof fn lemma_lex_spaced_from(
    s: Seq<char>,
    from: int,
    tokens: Seq<TokenModel>,
    gaps: Seq<Seq<char>>,
)
    requires
        0 <= from <= s.len(),
        s.skip(from) == spaced_text(tokens, gaps),
        plain_tokens(tokens),
        spacing(tokens, gaps),
    ensures
        lexed_from(s, from) == Ok::<Seq<TokenModel>, EqlFailure>(tokens),
    decreases tokens.len(),
{
    if tokens.len() == 0 {
        assert(tokens == Seq::<TokenModel>::empty());
        assert(s.skip(from).len() == 0);
    } else {
        let t = tokens[0];
        let text = token_text(t);
        let gap = gaps[0];
        let rest = spaced_text(tokens.skip(1), gaps.skip(1));
        let tail = s.skip(from);
        assert(tail == text + gap + rest);
        assert(tail.len() == s.len() - from);
        let end = from + text.len();
        let next = end + gap.len();
        assert(next + rest.len() == s.len());
        assert(s.subrange(from, end) =~= text) by {
            assert forall|k: int| 0 <= k < text.len() implies s.subrange(from, end)[k] == text[k] by {
                assert(tail[k] == s[from + k]);
            }
        }
        assert(blank(gap));
        assert forall|k: int| end <= k < next implies separator(#[trigger] s[k]) by {
            assert(tail[k - from] == s[k]);
            assert(tail[k - from] == gap[k - end]);
        }
        if end < s.len() {
            if gap.len() == 0 {
                assert(gaps.len() == 1);
                assert(tokens.skip(1).len() == 0);
            }
        }
        lemma_lex_token(s, from, t);
        lemma_lex_skips(s, end, next);
        assert(s.skip(next) =~= rest) by {
            assert forall|k: int| 0 <= k < rest.len() implies s.skip(next)[k] == rest[k] by {
                assert(tail[text.len() + gap.len() + k] == s[next + k]);
            }
        }
        assert(plain_tokens(tokens.skip(1))) by {
            assert forall|i: int| 0 <= i < tokens.skip(1).len() implies plain_token(
                #[trigger] tokens.skip(1)[i],
            ) by {
            }
        }
        assert(spacing(tokens.skip(1), gaps.skip(1))) by {
            assert forall|i: int| 0 <= i < gaps.skip(1).len() implies blank(
                #[trigger] gaps.skip(1)[i],
            ) && (i + 1 < gaps.skip(1).len() ==> gaps.skip(1)[i].len() > 0) by {
                assert(gaps.skip(1)[i] == gaps[i + 1]);
            }
        }
        lemma_lex_spaced_from(s, next, tokens.skip(1), gaps.skip(1));
        assert(seq![t] + tokens.skip(1) == tokens);
    }
}

/// The lexer reads plain tokens back from their text, whatever white space
/// stands before the first, between any two, and after the last.
pub proof fn lemma_lex_reads_spaced_tokens(
    lead: Seq<char>,
    tokens: Seq<TokenModel>,
    gaps: Seq<Seq<char>>,
)
    requires
        blank(lead),
        plain_tokens(tokens),
        spacing(tokens, gaps),
    ensures
        lexed(lead + spaced_text(tokens, gaps)) == Ok::<Seq<TokenModel>, EqlFailure>(tokens),
{
    let s = lead + spaced_text(tokens, gaps);
    assert forall|k: int| 0 <= k < lead.len() implies whitespace(#[trigger] s[k]) by {
        assert(s[k] == lead[k]);
    }
    lemma_lex_skips(s, 0, lead.len() as int);
    assert(s.skip(lead.len() as int) =~= spaced_text(tokens, gaps));
    lemma_lex_spaced_from(s, lead.len() as int, tokens, gaps);
}

/// The tokens of one predicate: its field, its operator and its value.
pub open spec fn condition_tokens(c: ConditionModel) -> Seq<TokenModel> {
    seq![
        TokenModel::Field(c.field),
        TokenModel::Operator(operator_text(c.operator)),
        TokenModel::Value(c.value),
    ]
}

/// The tokens of predicates, with `AND` between neighbours.
pub open spec fn conditions_tokens(conditions: Seq<ConditionModel>) -> Seq<TokenModel>
    decreases conditions.len(),
{
    if conditions.len() == 0 {
        Seq::<TokenModel>::empty()
    } else if conditions.len() == 1 {
        condition_tokens(conditions[0])
    } else {
        conditions_tokens(conditions.drop_last()) + seq![TokenModel::And] + condition_tokens(
            conditions.last(),
        )
    }
}

/// A time range as the text between `@` and `]`.
pub open spec fn range_text(r: RangeModel) -> Seq<char> {
    r.field + operator_text(r.operator) + r.date
}

/// The tokens of a query: its predicates with `AND` between them, then,
/// after one more `AND` where there are predicates, its time range.
pub open spec fn query_tokens(q: QueryModel) -> Seq<TokenModel> {
    match q.time_range {
        None => conditions_tokens(q.conditions),
        Some(r) => if q.conditions.len() == 0 {
            seq![TokenModel::TimeRange(range_text(r))]
        } else {
            conditions_tokens(q.conditions) + seq![
                TokenModel::And,
                TokenModel::TimeRange(range_text(r)),
            ]
        },
    }
}

/// A query as text.
pub open spec fn query_text(q: QueryModel) -> Seq<char> {
    tokens_text(query_tokens(q))
}

/// A predicate that can be written as text and read back: its field is a
/// field name and its value holds no quote.
pub open spec fn writable_condition(c: ConditionModel) -> bool {
    field_name(c.field) && forall|i: int| 0 <= i < c.value.len() ==> #[trigger] c.value[i] != '"'
}

/// A time range that can be written as text and read back: its comparison
/// is `Greater` or `Less`, neither its field nor its date holds `>`, `<` or
/// `]`, and its date reads as a date.
pub open spec fn writable_range(r: RangeModel) -> bool {
    &&& r.operator == Comparison::Greater || r.operator == Comparison::Less
    &&& forall|i: int|
        0 <= i < r.field.len() ==> !range_mark(#[trigger] r.field[i]) && r.field[i] != ']'
    &&& forall|i: int|
        0 <= i < r.date.len() ==> !range_mark(#[trigger] r.date[i]) && r.date[i] != ']'
    &&& date_parses(r.date, DATE_LAYOUT@)
}

/// A query that can be written as text and read back.
pub open spec fn writable(q: QueryModel) -> bool {
    &&& forall|i: int| 0 <= i < q.conditions.len() ==> writable_condition(#[trigger] q.conditions[i])
    &&& q.time_range matches Some(r) ==> writable_range(r)
}

/// The operators as characters.
proof fn lemma_operator_texts()
    ensures
        "="@ == seq!['='],
        "!="@ == seq!['!', '='],
        ">"@ == seq!['>'],
        "<"@ == seq!['<'],
        forall|c: Comparison| comparison_of(operator_text(c)) == Some(c),
{
    reveal_strlit("=");
    reveal_strlit("!=");
    reveal_strlit(">");
    reveal_strlit("<");
    assert forall|c: Comparison| comparison_of(operator_text(c)) == Some(c) by {
        assert(">"@[0] != "<"@[0]);
        assert("!="@.len() != "="@.len());
    }
}

/// Taking tokens in one after another is taking in the first run and then
/// the second.
proof fn lemma_plan_append(a: Seq<TokenModel>, b: Seq<TokenModel>)
    ensures
        b.len() == 1 ==> plan_of(a + b) == (match plan_of(a) {
            Ok(p) => plan_step(p, b[0]),
            Err(e) => Err(e),
        }),
{
    if b.len() == 1 {
        assert((a + b).drop_last() == a);
    }
}

/// The planner reads the tokens of one predicate as that predicate, added
/// to what it had, where it was reading none.
proof fn lemma_plan_condition(done: Seq<TokenModel>, p: Plan, c: ConditionModel)
    requires
        plan_of(done) == Ok::<Plan, EqlFailure>(p),
        p.field is None,
        p.operator is None,
    ensures
        plan_of(done + condition_tokens(c)) == Ok::<Plan, EqlFailure>(
            Plan {
                conditions: p.conditions.push(c),
                time_range: p.time_range,
                field: None,
                operator: None,
            },
        ),
{
    lemma_operator_texts();
    let t0 = seq![TokenModel::Field(c.field)];
    let t1 = seq![TokenModel::Operator(operator_text(c.operator))];
    let t2 = seq![TokenModel::Value(c.value)];
    lemma_plan_append(done, t0);
    lemma_plan_append(done + t0, t1);
    lemma_plan_append(done + t0 + t1, t2);
    assert(done + t0 + t1 + t2 == done + condition_tokens(c));
}

/// The planner reads the tokens of predicates as those predicates.
proof fn lemma_plan_conditions(conditions: Seq<ConditionModel>)
    ensures
        plan_of(conditions_tokens(conditions)) == Ok::<Plan, EqlFailure>(
            Plan { conditions: conditions, time_range: None, field: None, operator: None },
        ),
    decreases conditions.len(),
{
    let blank = Plan {
        conditions: Seq::<ConditionModel>::empty(),
        time_range: None,
        field: None,
        operator: None,
    };
    if conditions.len() == 0 {
        assert(conditions == Seq::<ConditionModel>::empty());
    } else if conditions.len() == 1 {
        let none = Seq::<TokenModel>::empty();
        lemma_plan_condition(none, blank, conditions[0]);
        assert(blank.conditions.push(conditions[0]) == conditions);
    } else {
        let init = conditions.drop_last();
        lemma_plan_conditions(init);
        let before = conditions_tokens(init);
        lemma_plan_append(before, seq![TokenModel::And]);
        let p = Plan { conditions: init, time_range: None, field: None, operator: None };
        lemma_plan_condition(before + seq![TokenModel::And], p, conditions.last());
        assert(init.push(conditions.last()) == conditions);
    }
}

/// The text of a writable time range is read as that time range.
proof fn lemma_range_read(r: RangeModel)
    requires
        writable_range(r),
    ensures
        range_of(range_text(r)) == Ok::<RangeModel, EqlFailure>(r),
{
    lemma_operator_texts();
    let op = operator_text(r.operator);
    let text = range_text(r);
    let mark = r.field.len() as int;
    assert forall|k: int| 0 <= k < mark implies !range_mark(#[trigger] text[k]) by {
    }
    lemma_run_to_mark_is(text, 0, mark);
    lemma_run_to_mark_is(text, mark + 1, text.len() as int);
    assert(text.subrange(0, mark) =~= r.field);
    assert(text.subrange(mark + 1, text.len() as int) =~= r.date);
    assert(range_parts(text) == Some(r));
}

/// The planner reads the tokens of a writable query as that query.
pub proof fn lemma_plan_reads_query(q: QueryModel)
    requires
        writable(q),
    ensures
        planned(query_tokens(q)) == Ok::<QueryModel, EqlFailure>(q),
{
    lemma_plan_conditions(q.conditions);
    match q.time_range {
        None => {},
        Some(r) => {
            lemma_range_read(r);
            let last = seq![TokenModel::TimeRange(range_text(r))];
            if q.conditions.len() == 0 {
                let none = Seq::<TokenModel>::empty();
                lemma_plan_append(none, last);
            } else {
                let before = conditions_tokens(q.conditions);
                lemma_plan_append(before, seq![TokenModel::And]);
                lemma_plan_append(before + seq![TokenModel::And], last);
                assert(before + seq![TokenModel::And] + last == before + seq![
                    TokenModel::And,
                    TokenModel::TimeRange(range_text(r)),
                ]);
            }
        },
    }
}

/// The tokens of predicates that can be written are plain.
proof fn lemma_conditions_plain(conditions: Seq<ConditionModel>)
    requires
        forall|i: int| 0 <= i < conditions.len() ==> writable_condition(#[trigger] conditions[i]),
    ensures
        plain_tokens(conditions_tokens(conditions)),
    decreases conditions.len(),
{
    lemma_operator_texts();
    if conditions.len() == 0 {
    } else {
        let c = conditions.last();
        let own = condition_tokens(c);
        if conditions.len() > 1 {
            let init = conditions.drop_last();
            lemma_conditions_plain(init);
            let before = conditions_tokens(init);
            let all = before + seq![TokenModel::And] + own;
            assert forall|i: int| 0 <= i < all.len() implies plain_token(#[trigger] all[i]) by {
                if i < before.len() {
                } else if i == before.len() {
                }
            }
        }
    }
}

/// Writing a query as text and reading the text gives the query back: the
/// lexer finds the tokens of the query, and the planner makes the query of
/// them.
pub proof fn lemma_query_round_trip(q: QueryModel)
    requires
        writable(q),
    ensures
        lexed(query_text(q)) == Ok::<Seq<TokenModel>, EqlFailure>(query_tokens(q)),
        planned(query_tokens(q)) == Ok::<QueryModel, EqlFailure>(q),
{
    lemma_plan_reads_query(q);
    lemma_query_tokens_plain(q);
    lemma_lex_reads_tokens(query_tokens(q));
}

/// The tokens of a query that can be written are plain.
proof fn lemma_query_tokens_plain(q: QueryModel)
    requires
        writable(q),
    ensures
        plain_tokens(query_tokens(q)),
{
    lemma_conditions_plain(q.conditions);
    lemma_operator_texts();
    match q.time_range {
        None => {},
        Some(r) => {
            let text = range_text(r);
            let mark = r.field.len() as int;
            assert forall|i: int| 0 <= i < text.len() implies #[trigger] text[i] != ']' by {
                if i < mark {
                } else if i == mark {
                }
            }
        },
    }
}

/// Reading a written query gives the query back, whatever the white space
/// between its tokens: the lexer finds the tokens of the query in any text
/// that holds them in order with white space before, between and after
/// them, and the planner makes the query of them.
pub proof fn lemma_query_round_trip_spaced(q: QueryModel, lead: Seq<char>, gaps: Seq<Seq<char>>)
    requires
        writable(q),
        blank(lead),
        spacing(query_tokens(q), gaps),
    ensures
        lexed(lead + spaced_text(query_tokens(q), gaps)) == Ok::<Seq<TokenModel>, EqlFailure>(
            query_tokens(q),
        ),
        planned(query_tokens(q)) == Ok::<QueryModel, EqlFailure>(q),
{
    lemma_plan_reads_query(q);
    lemma_query_tokens_plain(q);
    lemma_lex_reads_spaced_tokens(lead, query_tokens(q), gaps);
}

fn append_token(out: &mut String, text: &str)
    ensures
        final(out)@ == old(out)@ + text@ + seq![' '],
{
    proof {
        reveal_strlit(" ");
    }
    out.append(text);
    out.append(" ");
}

fn operator_str(c: Comparison) -> (r: &'static str)
    ensures
        r@ == operator_text(c),
{
    match c {
        Comparison::Equal => "=",
        Comparison::NotEqual => "!=",
        Comparison::Greater => ">",
        Comparison::Less => "<",
    }
}

/// `tokens_text` of a run of tokens with more tokens after it.
proof fn lemma_tokens_text_append(a: Seq<TokenModel>, b: Seq<TokenModel>)
    ensures
        tokens_text(a + b) == tokens_text(a) + tokens_text(b),
    decreases a.len(),
{
    if a.len() == 0 {
    } else {
        lemma_tokens_text_append(a.skip(1), b);
        assert((a + b).skip(1) == a.skip(1) + b);
    }
}

/// The text of the tokens of one predicate.
proof fn lemma_condition_text(c: ConditionModel)
    ensures
        tokens_text(condition_tokens(c)) == c.field + seq![' '] + operator_text(c.operator) + seq![
            ' ',
        ] + (seq!['"'] + c.value + seq!['"']) + seq![' '],
{
    let t = condition_tokens(c);
    assert(t.skip(1).skip(1).skip(1) == Seq::<TokenModel>::empty());
    assert(tokens_text(Seq::<TokenModel>::empty()) == Seq::<char>::empty());
    assert(tokens_text(t.skip(1)) == token_text(t[1]) + seq![' '] + tokens_text(t.skip(1).skip(1)));
}

/// The text of one token.
proof fn lemma_single_token_text(t: TokenModel)
    ensures
        tokens_text(seq![t]) == token_text(t) + seq![' '],
{
    assert(seq![t].skip(1) == Seq::<TokenModel>::empty());
    assert(tokens_text(Seq::<TokenModel>::empty()) == Seq::<char>::empty());
}

impl EqlQuery {
    /// Writes the query as text: each predicate as its field, its operator
    /// and its value between quotes, `AND` between predicates and before
    /// the time range, the time range between `@` and `]`, and one space
    /// after every token.
    pub fn render(&self) -> (r: String)
        ensures
            r@ == query_text(self@),
    {
        let mut out = String::new();
        let ghost conditions = condition_models(self.conditions@);
        let mut i: usize = 0;
        proof {
            lemma_keywords();
        }
        while i < self.conditions.len()
            invariant
                i <= self.conditions.len(),
                conditions == condition_models(self.conditions@),
                out@ == tokens_text(conditions_tokens(conditions.take(i as int))),
            decreases self.conditions.len() - i,
        {
            let c = &self.conditions[i];
            let ghost done = conditions.take(i as int);
            let ghost upto = conditions.take(i as int + 1);
            proof {
                assert(upto.drop_last() == done);
                lemma_condition_text(c@);
                if i > 0 {
                    lemma_tokens_text_append(
                        conditions_tokens(done) + seq![TokenModel::And],
                        condition_tokens(c@),
                    );
                    lemma_tokens_text_append(conditions_tokens(done), seq![TokenModel::And]);
                    lemma_single_token_text(TokenModel::And);
                }
            }
            if i > 0 {
                append_token(&mut out, "AND");
            }
            append_token(&mut out, c.field.as_str());
            append_token(&mut out, operator_str(c.operator));
            out.append("\"");
            out.append(c.value.as_str());
            out.append("\"");
            out.append(" ");
            proof {
                reveal_strlit("\"");
                reveal_strlit(" ");
            }
            i += 1;
        }
        assert(conditions.take(self.conditions.len() as int) == conditions);
        match &self.time_range {
            Some(range) => {
                let ghost before = conditions_tokens(conditions);
                let ghost last = TokenModel::TimeRange(range_text(range@));
                proof {
                    lemma_single_token_text(last);
                    lemma_single_token_text(TokenModel::And);
                    if self.conditions.len() > 0 {
                        lemma_tokens_text_append(before, seq![TokenModel::And, last]);
                        lemma_tokens_text_append(seq![TokenModel::And], seq![last]);
                        assert(seq![TokenModel::And] + seq![last] == seq![TokenModel::And, last]);
                    }
                }
                if self.conditions.len() > 0 {
                    append_token(&mut out, "AND");
                }
                out.append("@");
                out.append(range.field.as_str());
                out.append(operator_str(range.operator));
                out.append(range.date.as_str());
                out.append("]");
                out.append(" ");
                proof {
                    reveal_strlit("@");
                    reveal_strlit("]");
                    reveal_strlit(" ");
                }
            },
            None => {},
        }
        out
    }
}

} // verus!

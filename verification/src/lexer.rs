//! The scanner and the driver.
//!
//! The scanner finds the next token at a position: it tries each rule
//! of the table in order and takes the first whose pattern matches a
//! non-empty prefix there. The driver loops the scanner from position
//! zero, collecting each token with its `[start, end)` span, until no
//! rule matches; reaching the end of the text is success, stopping
//! before it is an unrecognized-input error at that position.
//!
//! The whole process is modelled by the spec functions [`scan_next`]
//! and [`scan`], and the executable functions return exactly what the
//! model says.

use vstd::prelude::*;
use crate::bignum::{is_digit, is_sign, is_int_text, int_text_val};
use crate::grammar::{
    is_float_text, is_ident_text, is_letter, float_len, int_len, ident_len, run_end, CharClass,
    lemma_run_end_full,
};
use crate::rules::{
    Rule, RuleTable, rule_match_len, rule_token, try_rule, build_rules, default_rule_order,
    default_keywords, is_keyword, lemma_rule_match_len_bounds, lemma_rule_match_len_at_end,
};
use crate::token::{Token, TokenSource, TokenView, SpanView, LexError};

verus! {

/// First-match-wins over the rule list: the token and match length of
/// the first rule that matches at `i`, or `None` when no rule does.
pub open spec fn scan_next(rules: Seq<Rule>, kws: Seq<Seq<char>>, s: Seq<char>, i: int) -> Option<
    (TokenView, int),
>
    decreases rules.len(),
{
    if rules.len() == 0 {
        None
    } else {
        let n = rule_match_len(rules[0], s, i);
        if n > 0 {
            Some((rule_token(rules[0], kws, s, i), n))
        } else {
            scan_next(rules.drop_first(), kws, s, i)
        }
    }
}

/// A produced token has positive length and stays inside the text.
pub proof fn lemma_scan_next_bounds(rules: Seq<Rule>, kws: Seq<Seq<char>>, s: Seq<char>, i: int)
    requires
        0 <= i <= s.len(),
    ensures
        match scan_next(rules, kws, s, i) {
            Some(p) => 0 < p.1 && i + p.1 <= s.len(),
            None => true,
        },
    decreases rules.len(),
{
    if rules.len() > 0 {
        lemma_rule_match_len_bounds(rules[0], s, i);
        if rule_match_len(rules[0], s, i) <= 0 {
            lemma_scan_next_bounds(rules.drop_first(), kws, s, i);
        }
    }
}

/// When none of the first `idx` rules matches, scanning starts at rule
/// `idx`.
pub proof fn lemma_scan_next_skip(
    rules: Seq<Rule>,
    kws: Seq<Seq<char>>,
    s: Seq<char>,
    i: int,
    idx: int,
)
    requires
        0 <= idx <= rules.len(),
        forall|j: int| 0 <= j < idx ==> rule_match_len(#[trigger] rules[j], s, i) == 0,
    ensures
        scan_next(rules, kws, s, i) == scan_next(rules.skip(idx), kws, s, i),
    decreases idx,
{
    if idx > 0 {
        assert(rule_match_len(rules[0], s, i) == 0);
        lemma_scan_next_skip(rules.drop_first(), kws, s, i, idx - 1);
        assert(rules.drop_first().skip(idx - 1) =~= rules.skip(idx));
    } else {
        assert(rules.skip(0) =~= rules);
    }
}

/// When no rule matches at all, the scanner yields nothing.
pub proof fn lemma_scan_next_none(rules: Seq<Rule>, kws: Seq<Seq<char>>, s: Seq<char>, i: int)
    requires
        forall|j: int| 0 <= j < rules.len() ==> rule_match_len(#[trigger] rules[j], s, i) == 0,
    ensures
        scan_next(rules, kws, s, i) is None,
    decreases rules.len(),
{
    if rules.len() > 0 {
        lemma_scan_next_none(rules.drop_first(), kws, s, i);
    }
}

/// The positioned tokens that repeated scanning produces from position
/// `i` on, and the position where it stops because no rule matches.
pub open spec fn scan(rules: Seq<Rule>, kws: Seq<Seq<char>>, s: Seq<char>, i: int) -> (
    Seq<SpanView>,
    int,
)
    decreases s.len() - i
        when 0 <= i <= s.len()
        via scan_decreases
{
    match scan_next(rules, kws, s, i) {
        Some(p) => {
            let rest = scan(rules, kws, s, i + p.1);
            (seq![SpanView { token: p.0, start: i, end: i + p.1 }] + rest.0, rest.1)
        },
        None => (Seq::empty(), i),
    }
}

#[via_fn]
proof fn scan_decreases(rules: Seq<Rule>, kws: Seq<Seq<char>>, s: Seq<char>, i: int) {
    lemma_scan_next_bounds(rules, kws, s, i);
}

/// Scanning stops at or after its start position, inside the text.
pub proof fn lemma_scan_stop_bounds(rules: Seq<Rule>, kws: Seq<Seq<char>>, s: Seq<char>, i: int)
    requires
        0 <= i <= s.len(),
    ensures
        i <= scan(rules, kws, s, i).1 <= s.len(),
    decreases s.len() - i,
{
    lemma_scan_next_bounds(rules, kws, s, i);
    match scan_next(rules, kws, s, i) {
        Some(p) => {
            lemma_scan_stop_bounds(rules, kws, s, i + p.1);
        },
        None => {},
    }
}

/// The ghost spans of a produced token vector.
pub open spec fn span_views(tokens: Seq<TokenSource>) -> Seq<SpanView> {
    tokens.map_values(|t: TokenSource| t@)
}

/// Scanning stops inside the text; the spans it produces are
/// non-empty, contiguous and in input order, the first starts where
/// scanning started, and the last ends where scanning stopped.
pub proof fn lemma_scan_spans(rules: Seq<Rule>, kws: Seq<Seq<char>>, s: Seq<char>, i: int)
    requires
        0 <= i <= s.len(),
    ensures
        i <= scan(rules, kws, s, i).1 <= s.len(),
        scan(rules, kws, s, i).0.len() == 0 ==> scan(rules, kws, s, i).1 == i,
        scan(rules, kws, s, i).0.len() > 0 ==> scan(rules, kws, s, i).0[0].start == i,
        scan(rules, kws, s, i).0.len() > 0 ==> scan(rules, kws, s, i).0.last().end == scan(
            rules,
            kws,
            s,
            i,
        ).1,
        forall|j: int|
            0 <= j < scan(rules, kws, s, i).0.len() ==> i <= (
            #[trigger] scan(rules, kws, s, i).0[j]).start < scan(rules, kws, s, i).0[j].end
                <= s.len(),
        forall|j: int|
            0 <= j < scan(rules, kws, s, i).0.len() - 1 ==> (
            #[trigger] scan(rules, kws, s, i).0[j]).end == scan(rules, kws, s, i).0[j + 1].start,
    decreases s.len() - i,
{
    lemma_scan_next_bounds(rules, kws, s, i);
    match scan_next(rules, kws, s, i) {
        Some(p) => {
            lemma_scan_spans(rules, kws, s, i + p.1);
            let sp = SpanView { token: p.0, start: i, end: i + p.1 };
            let rest = scan(rules, kws, s, i + p.1);
            let whole = scan(rules, kws, s, i);
            assert(whole.0 == seq![sp] + rest.0);
            assert(whole.0[0] == sp);
            assert(forall|j: int| 1 <= j < whole.0.len() ==> whole.0[j] == rest.0[j - 1]);
            if rest.0.len() > 0 {
                assert(whole.0.last() == rest.0.last());
            }
        },
        None => {},
    }
}

/// The concatenation of the input substrings named by a span sequence.
pub open spec fn spans_text(s: Seq<char>, spans: Seq<SpanView>) -> Seq<char>
    decreases spans.len(),
{
    if spans.len() == 0 {
        Seq::empty()
    } else {
        s.subrange(spans[0].start, spans[0].end) + spans_text(s, spans.drop_first())
    }
}

/// The spans scanning produces name, in order, exactly the consumed
/// part of the text.
pub proof fn lemma_scan_round_trip(rules: Seq<Rule>, kws: Seq<Seq<char>>, s: Seq<char>, i: int)
    requires
        0 <= i <= s.len(),
    ensures
        spans_text(s, scan(rules, kws, s, i).0) == s.subrange(i, scan(rules, kws, s, i).1),
    decreases s.len() - i,
{
    lemma_scan_next_bounds(rules, kws, s, i);
    match scan_next(rules, kws, s, i) {
        Some(p) => {
            lemma_scan_stop_bounds(rules, kws, s, i + p.1);
            lemma_scan_round_trip(rules, kws, s, i + p.1);
            let sp = SpanView { token: p.0, start: i, end: i + p.1 };
            let rest = scan(rules, kws, s, i + p.1);
            let whole = scan(rules, kws, s, i);
            assert(whole.0[0] == sp);
            assert(whole.0.drop_first() =~= rest.0);
            assert(spans_text(s, whole.0) == s.subrange(i, i + p.1) + spans_text(s, rest.0));
            assert(s.subrange(i, i + p.1) + s.subrange(i + p.1, rest.1) =~= s.subrange(
                i,
                rest.1,
            ));
        },
        None => {
            assert(s.subrange(i, i) =~= Seq::<char>::empty());
        },
    }
}

/// Concatenating the input-text substrings named by every span, in
/// order, reproduces the input exactly, for any input the rule set
/// consumes whole.
pub proof fn lemma_round_trip(rules: Seq<Rule>, kws: Seq<Seq<char>>, s: Seq<char>)
    requires
        scan(rules, kws, s, 0).1 == s.len(),
    ensures
        spans_text(s, scan(rules, kws, s, 0).0) == s,
{
    lemma_scan_round_trip(rules, kws, s, 0);
    assert(s.subrange(0, s.len() as int) =~= s);
}

/// After the whole text is consumed, scanning stops there with no
/// further token.
proof fn lemma_scan_at_end(rules: Seq<Rule>, kws: Seq<Seq<char>>, s: Seq<char>)
    ensures
        scan(rules, kws, s, s.len() as int) == (Seq::<SpanView>::empty(), s.len() as int),
{
    assert forall|j: int| 0 <= j < rules.len() implies rule_match_len(
        #[trigger] rules[j],
        s,
        s.len() as int,
    ) == 0 by {
        lemma_rule_match_len_at_end(rules[j], s);
    }
    lemma_scan_next_none(rules, kws, s, s.len() as int);
}

/// Under the default rules, an input that is in its entirety one
/// integer literal (an optional sign, then one or more decimal digits,
/// of any magnitude) tokenizes to exactly one integer token carrying
/// its exact decimal value and spanning the whole input.
pub proof fn lemma_integer_input(s: Seq<char>)
    requires
        is_int_text(s),
    ensures
        scan(default_rule_order(), default_keywords(), s, 0).1 == s.len(),
        scan(default_rule_order(), default_keywords(), s, 0).0 == seq![
            SpanView {
                token: TokenView::Int { v: int_text_val(s) },
                start: 0,
                end: s.len() as int,
            },
        ],
{
    let rules = default_rule_order();
    let kws = default_keywords();
    let len = s.len() as int;
    if is_sign(s[0]) {
        // the sign is neither a digit nor a dot, so the float rule fails
        assert(run_end(s, 0, CharClass::Digit) == 0);
        assert(float_len(s, 0) == 0);
        // every character after the sign is a digit
        assert forall|k: int| 1 <= k < len implies is_digit(#[trigger] s[k]) by {
            assert(is_digit(s.skip(1)[k - 1]));
            assert(s.skip(1)[k - 1] == s[k]);
        }
        lemma_run_end_full(s, 1, CharClass::Digit);
        assert(int_len(s, 0) == len);
    } else {
        // the whole input is digits, so the float rule finds no dot and
        // no exponent after them
        lemma_run_end_full(s, 0, CharClass::Digit);
        assert(float_len(s, 0) == 0);
        assert(int_len(s, 0) == len);
    }
    assert(rules[0] == Rule::Float);
    assert(rule_match_len(rules[0], s, 0) == 0);
    lemma_scan_next_skip(rules, kws, s, 0, 1);
    assert(rules.skip(1)[0] == rules[1]);
    assert(rules[1] == Rule::Int);
    assert(scan_next(rules, kws, s, 0) == Some(
        (rule_token(Rule::Int, kws, s, 0), len),
    ));
    assert(s.subrange(0, len) =~= s);
    assert(rule_token(Rule::Int, kws, s, 0) == (TokenView::Int { v: int_text_val(s) }));
    lemma_scan_at_end(rules, kws, s);
    let sp = SpanView { token: TokenView::Int { v: int_text_val(s) }, start: 0, end: len };
    assert(scan(rules, kws, s, 0).0 =~= seq![sp]);
}

/// Under the default rules, an input that is in its entirety one float
/// literal tokenizes to exactly one float token carrying the literal
/// text and spanning the whole input. The rule table tries the float
/// rule first, so no integer token is split off the leading digits.
pub proof fn lemma_float_input(s: Seq<char>)
    requires
        is_float_text(s),
    ensures
        scan(default_rule_order(), default_keywords(), s, 0).1 == s.len(),
        scan(default_rule_order(), default_keywords(), s, 0).0 == seq![
            SpanView { token: TokenView::Float { text: s }, start: 0, end: s.len() as int },
        ],
{
    let rules = default_rule_order();
    let kws = default_keywords();
    let len = s.len() as int;
    assert(rules[0] == Rule::Float);
    assert(scan_next(rules, kws, s, 0) == Some(
        (rule_token(Rule::Float, kws, s, 0), len),
    ));
    assert(s.subrange(0, len) =~= s);
    assert(rule_token(Rule::Float, kws, s, 0) == (TokenView::Float { text: s }));
    lemma_scan_at_end(rules, kws, s);
    let sp = SpanView { token: TokenView::Float { text: s }, start: 0, end: len };
    assert(scan(rules, kws, s, 0).0 =~= seq![sp]);
}

/// Under the default rules, an input that is in its entirety one
/// identifier (a letter, then letters and digits) tokenizes to exactly
/// one token spanning the whole input: a keyword token when the text
/// is in the default keyword list, an identifier token otherwise.
pub proof fn lemma_word_input(s: Seq<char>)
    requires
        is_ident_text(s),
    ensures
        scan(default_rule_order(), default_keywords(), s, 0).1 == s.len(),
        scan(default_rule_order(), default_keywords(), s, 0).0 == seq![
            SpanView {
                token: if is_keyword(default_keywords(), s) {
                    TokenView::Keyword { text: s }
                } else {
                    TokenView::Identifier { text: s }
                },
                start: 0,
                end: s.len() as int,
            },
        ],
{
    let rules = default_rule_order();
    let kws = default_keywords();
    let len = s.len() as int;
    // a letter opens no other rule's pattern
    assert(is_letter(s[0]));
    assert(run_end(s, 0, CharClass::Digit) == 0);
    assert(run_end(s, 0, CharClass::Space) == 0);
    lemma_run_end_full(s, 0, CharClass::Wordy);
    assert(ident_len(s, 0) == len);
    assert forall|j: int| 0 <= j < 10 implies rule_match_len(#[trigger] rules[j], s, 0)
        == 0 by {
        if j == 0 {
            assert(rules[0] == Rule::Float);
        } else if j == 1 {
            assert(rules[1] == Rule::Int);
        } else if j == 2 {
            assert(rules[2] == Rule::OpenParen);
        } else if j == 3 {
            assert(rules[3] == Rule::CloseParen);
        } else if j == 4 {
            assert(rules[4] == Rule::Whitespace);
        } else if j == 5 {
            assert(rules[5] == Rule::OpenBrace);
        } else if j == 6 {
            assert(rules[6] == Rule::CloseBrace);
        } else if j == 7 {
            assert(rules[7] == Rule::StrLit);
        } else if j == 8 {
            assert(rules[8] == Rule::OpenBracket);
        } else {
            assert(rules[9] == Rule::CloseBracket);
        }
    }
    lemma_scan_next_skip(rules, kws, s, 0, 10);
    assert(rules.skip(10)[0] == rules[10]);
    assert(rules[10] == Rule::Word);
    assert(scan_next(rules, kws, s, 0) == Some(
        (rule_token(Rule::Word, kws, s, 0), len),
    ));
    assert(s.subrange(0, len) =~= s);
    lemma_scan_at_end(rules, kws, s);
    let sp = SpanView {
        token: if is_keyword(kws, s) {
            TokenView::Keyword { text: s }
        } else {
            TokenView::Identifier { text: s }
        },
        start: 0,
        end: len,
    };
    assert(rule_token(Rule::Word, kws, s, 0) == sp.token);
    assert(scan(rules, kws, s, 0).0 =~= seq![sp]);
}

/// Finds the next token of the unconsumed text from `pos` on: tries
/// each rule of the table in order and returns the first match as the
/// built token and the number of characters consumed; `None` when no
/// rule matches a non-empty prefix, which ends scanning.
pub fn next_token(table: &RuleTable, text: &str, pos: usize) -> (res: Option<(Token, usize)>)
    requires
        pos <= text@.len(),
    ensures
        match res {
            Option::Some(p) => p.1 > 0 && pos + p.1 <= text@.len() && scan_next(
                table.rules@,
                table.keywords.deep_view(),
                text@,
                pos as int,
            ) == Some((p.0@, p.1 as int)),
            Option::None => scan_next(
                table.rules@,
                table.keywords.deep_view(),
                text@,
                pos as int,
            ) is None,
        },
{
    let ghost rules = table.rules@;
    let ghost kws = table.keywords.deep_view();
    let ghost s = text@;
    let n_rules = table.rules.len();
    let mut idx: usize = 0;
    while idx < n_rules
        invariant
            idx <= n_rules,
            n_rules == rules.len(),
            pos <= s.len(),
            table.rules@ == rules,
            table.keywords.deep_view() == kws,
            text@ == s,
            forall|j: int| 0 <= j < idx ==> rule_match_len(#[trigger] rules[j], s, pos as int) == 0,
        decreases n_rules - idx,
    {
        let r = table.rules[idx];
        match try_rule(&table.keywords, r, text, pos) {
            Option::Some((tok, len)) => {
                proof {
                    lemma_scan_next_skip(rules, kws, s, pos as int, idx as int);
                    assert(rules.skip(idx as int).len() > 0);
                    assert(rules.skip(idx as int)[0] == rules[idx as int]);
                }
                return Some((tok, len));
            },
            Option::None => {},
        }
        idx += 1;
    }
    proof {
        lemma_scan_next_none(rules, kws, s, pos as int);
    }
    None
}

/// Tokenizes the text with the given rule table. On success the result
/// holds every token with its span, in input order; when some position
/// before the end of the text is matched by no rule, the result is an
/// unrecognized-input error naming that position, rather than a
/// silently truncated token sequence.
pub fn tokenize_with(table: &RuleTable, text: &str) -> (res: Result<Vec<TokenSource>, LexError>)
    ensures
        match res {
            Result::Ok(tokens) => scan(
                table.rules@,
                table.keywords.deep_view(),
                text@,
                0,
            ).1 == text@.len() && span_views(tokens@) == scan(
                table.rules@,
                table.keywords.deep_view(),
                text@,
                0,
            ).0,
            Result::Err(e) => scan(table.rules@, table.keywords.deep_view(), text@, 0).1
                < text@.len() && e == (LexError::UnrecognizedInput {
                position: scan(table.rules@, table.keywords.deep_view(), text@, 0).1 as usize,
            }),
        },
{
    let ghost rules = table.rules@;
    let ghost kws = table.keywords.deep_view();
    let ghost s = text@;
    let n = text.unicode_len();
    let mut pos: usize = 0;
    let mut tokens: Vec<TokenSource> = Vec::new();
    loop
        invariant_except_break
            pos <= n,
            n == s.len(),
            table.rules@ == rules,
            table.keywords.deep_view() == kws,
            text@ == s,
            scan(rules, kws, s, 0).0 == span_views(tokens@) + scan(rules, kws, s, pos as int).0,
            scan(rules, kws, s, 0).1 == scan(rules, kws, s, pos as int).1,
        ensures
            pos <= n,
            n == s.len(),
            table.rules@ == rules,
            table.keywords.deep_view() == kws,
            text@ == s,
            scan(rules, kws, s, 0).0 == span_views(tokens@),
            scan(rules, kws, s, 0).1 == pos as int,
        decreases n - pos,
    {
        match next_token(table, text, pos) {
            Option::Some((tok, len)) => {
                let ghost tok_view = tok@;
                let ts = TokenSource { token: tok, start: pos, end: pos + len };
                proof {
                    let sp = SpanView { token: tok_view, start: pos as int, end: pos + len };
                    let rest = scan(rules, kws, s, pos + len);
                    assert(scan(rules, kws, s, pos as int).0 == seq![sp] + rest.0);
                    assert(scan(rules, kws, s, pos as int).1 == rest.1);
                    assert(ts@ == sp);
                    assert(span_views(tokens@.push(ts)) =~= span_views(tokens@).push(sp));
                    assert(span_views(tokens@) + (seq![sp] + rest.0) =~= span_views(
                        tokens@.push(ts),
                    ) + rest.0);
                }
                tokens.push(ts);
                pos = pos + len;
            },
            Option::None => {
                proof {
                    assert(scan(rules, kws, s, pos as int).0 =~= Seq::<SpanView>::empty());
                    assert(span_views(tokens@) + Seq::<SpanView>::empty() =~= span_views(
                        tokens@,
                    ));
                }
                break ;
            },
        }
    }
    if pos == n {
        Result::Ok(tokens)
    } else {
        Result::Err(LexError::UnrecognizedInput { position: pos })
    }
}

/// Tokenizes the text with the default rule table of [`build_rules`]:
/// every token of the text with its `[start, end)` character span, in
/// input order, whitespace retained; or the position of the first
/// character no rule matches.
pub fn tokenize(text: &str) -> (res: Result<Vec<TokenSource>, LexError>)
    ensures
        match res {
            Result::Ok(tokens) => scan(default_rule_order(), default_keywords(), text@, 0).1
                == text@.len() && span_views(tokens@) == scan(
                default_rule_order(),
                default_keywords(),
                text@,
                0,
            ).0,
            Result::Err(e) => scan(default_rule_order(), default_keywords(), text@, 0).1
                < text@.len() && e == (LexError::UnrecognizedInput {
                position: scan(default_rule_order(), default_keywords(), text@, 0).1 as usize,
            }),
        },
{
    let table = build_rules();
    tokenize_with(&table, text)
}

} // verus!

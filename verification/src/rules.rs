//! The rule table: an ordered list of token rules.
//!
//! Each rule pairs an anchored pattern with a token constructor; the
//! table is plain data, built once and read-only while scanning, so
//! rules can be reordered or tested independently. Rule order is the
//! disambiguation policy: the scanner takes the first rule that
//! matches, not the longest match over all rules, so the order in
//! [`build_rules`] is load-bearing (in particular float before
//! integer).
//!
//! Because the patterns are fixed data rather than parsed pattern
//! syntax, no malformed pattern can arise when the table is built; and
//! every pattern reports `0` for "no match", so a rule that consumes
//! an empty prefix — which would keep the scanner from advancing —
//! cannot be expressed at all.

use vstd::prelude::*;
use crate::bignum::{BigNum, int_text_val};
use crate::grammar::{
    float_len, int_len, space_len, string_len, ident_len, float_len_x, int_len_x, string_len_x,
    ident_len_x, run_end_x, run_end, CharClass, lemma_run_end, lemma_close_quote,
    lemma_exp_len_bounds, lemma_int_text_window,
};
use crate::token::{Token, TokenView};

verus! {

/// One token rule. Each variant stands for a pattern together with the
/// constructor applied to the matched text; the word rule classifies
/// the match against the table's keyword list.
#[derive(Debug, Clone, Copy, PartialEq, Eq, Structural)]
pub enum Rule {
    /// A float literal.
    Float,
    /// An integer literal.
    Int,
    /// The delimiter `(`.
    OpenParen,
    /// The delimiter `)`.
    CloseParen,
    /// A whitespace run.
    Whitespace,
    /// The delimiter `{`.
    OpenBrace,
    /// The delimiter `}`.
    CloseBrace,
    /// A double-quoted string literal.
    StrLit,
    /// The delimiter `[`.
    OpenBracket,
    /// The delimiter `]`.
    CloseBracket,
    /// An identifier, classified as a keyword when it is in the
    /// table's keyword list.
    Word,
    /// The assignment operator `=`.
    OpAssign,
}

/// An ordered rule table with its keyword configuration. Built once,
/// read-only during scanning.
pub struct RuleTable {
    /// The rules, tried in order; the first match wins.
    pub rules: Vec<Rule>,
    /// The reserved words the word rule recognizes.
    pub keywords: Vec<String>,
}

/// Match length of a one-character pattern.
pub open spec fn lit_len(s: Seq<char>, i: int, c: char) -> int {
    if i < s.len() && s[i] == c {
        1
    } else {
        0
    }
}

/// Match length of a rule's pattern at position `i` of `s`; `0` means
/// the rule does not match there. No rule can match an empty prefix.
pub open spec fn rule_match_len(r: Rule, s: Seq<char>, i: int) -> int {
    match r {
        Rule::Float => float_len(s, i),
        Rule::Int => int_len(s, i),
        Rule::OpenParen => lit_len(s, i, '('),
        Rule::CloseParen => lit_len(s, i, ')'),
        Rule::Whitespace => space_len(s, i),
        Rule::OpenBrace => lit_len(s, i, '{'),
        Rule::CloseBrace => lit_len(s, i, '}'),
        Rule::StrLit => string_len(s, i),
        Rule::OpenBracket => lit_len(s, i, '['),
        Rule::CloseBracket => lit_len(s, i, ']'),
        Rule::Word => ident_len(s, i),
        Rule::OpAssign => lit_len(s, i, '='),
    }
}

/// `t` is one of the keywords.
pub open spec fn is_keyword(kws: Seq<Seq<char>>, t: Seq<char>) -> bool {
    exists|k: int| 0 <= k < kws.len() && kws[k] == t
}

/// The token a rule constructs from its match at position `i`,
/// meaningful when the rule matches there.
pub open spec fn rule_token(r: Rule, kws: Seq<Seq<char>>, s: Seq<char>, i: int) -> TokenView {
    match r {
        Rule::Float => TokenView::Float { text: s.subrange(i, i + float_len(s, i)) },
        Rule::Int => TokenView::Int { v: int_text_val(s.subrange(i, i + int_len(s, i))) },
        Rule::OpenParen => TokenView::OpenParen,
        Rule::CloseParen => TokenView::CloseParen,
        Rule::Whitespace => TokenView::Whitespace { text: s.subrange(i, i + space_len(s, i)) },
        Rule::OpenBrace => TokenView::OpenBrace,
        Rule::CloseBrace => TokenView::CloseBrace,
        Rule::StrLit => TokenView::Str { text: s.subrange(i, i + string_len(s, i)) },
        Rule::OpenBracket => TokenView::OpenBracket,
        Rule::CloseBracket => TokenView::CloseBracket,
        Rule::Word => {
            let t = s.subrange(i, i + ident_len(s, i));
            if is_keyword(kws, t) {
                TokenView::Keyword { text: t }
            } else {
                TokenView::Identifier { text: t }
            }
        },
        Rule::OpAssign => TokenView::Operator { text: s.subrange(i, i + 1) },
    }
}

/// A rule match never runs past the end of the text, and never has
/// negative length.
pub proof fn lemma_rule_match_len_bounds(r: Rule, s: Seq<char>, i: int)
    requires
        0 <= i <= s.len(),
    ensures
        0 <= rule_match_len(r, s, i),
        i + rule_match_len(r, s, i) <= s.len(),
{
    match r {
        Rule::Float => {
            let d1 = run_end(s, i, CharClass::Digit);
            lemma_run_end(s, i, CharClass::Digit);
            if d1 > i {
                if d1 < s.len() && s[d1] == '.' {
                    let d2 = run_end(s, d1 + 1, CharClass::Digit);
                    lemma_run_end(s, d1 + 1, CharClass::Digit);
                    lemma_exp_len_bounds(s, d2);
                } else {
                    lemma_exp_len_bounds(s, d1);
                }
            } else if i < s.len() && s[i] == '.' {
                let d2 = run_end(s, i + 1, CharClass::Digit);
                lemma_run_end(s, i + 1, CharClass::Digit);
                lemma_exp_len_bounds(s, d2);
            }
        },
        Rule::Int => {
            let j = if i < s.len() && crate::bignum::is_sign(s[i]) {
                i + 1
            } else {
                i
            };
            lemma_run_end(s, j, CharClass::Digit);
        },
        Rule::Whitespace => {
            lemma_run_end(s, i, CharClass::Space);
        },
        Rule::StrLit => {
            if i < s.len() && s[i] == '"' {
                lemma_close_quote(s, i + 1);
            }
        },
        Rule::Word => {
            lemma_run_end(s, i, CharClass::Wordy);
        },
        _ => {},
    }
}

/// At the end of the text no rule matches: scanning that has consumed
/// the whole input stops in success.
pub proof fn lemma_rule_match_len_at_end(r: Rule, s: Seq<char>)
    ensures
        rule_match_len(r, s, s.len() as int) == 0,
{
    let i = s.len() as int;
    assert(run_end(s, i, CharClass::Digit) == i);
    assert(run_end(s, i, CharClass::Space) == i);
    assert(run_end(s, i, CharClass::Wordy) == i);
}

/// Compares two text slices character by character.
pub fn str_eq(a: &str, b: &str) -> (r: bool)
    ensures
        r == (a@ == b@),
{
    let na = a.unicode_len();
    let nb = b.unicode_len();
    if na != nb {
        return false;
    }
    let mut i: usize = 0;
    while i < na
        invariant
            i <= na,
            na as int == a@.len(),
            nb as int == b@.len(),
            na == nb,
            forall|k: int| 0 <= k < i ==> a@[k] == b@[k],
        decreases na - i,
    {
        let ca = a.get_char(i);
        let cb = b.get_char(i);
        if ca != cb {
            return false;
        }
        i += 1;
    }
    proof {
        assert(a@ =~= b@);
    }
    true
}

/// Looks a word up in the keyword list.
pub fn is_keyword_x(keywords: &Vec<String>, w: &str) -> (r: bool)
    ensures
        r == is_keyword(keywords.deep_view(), w@),
{
    let n = keywords.len();
    let mut k: usize = 0;
    while k < n
        invariant
            k <= n,
            n == keywords@.len(),
            forall|j: int| 0 <= j < k ==> keywords@[j]@ != w@,
        decreases n - k,
    {
        if str_eq(keywords[k].as_str(), w) {
            proof {
                assert(keywords.deep_view()[k as int] == keywords@[k as int]@);
            }
            return true;
        }
        k += 1;
    }
    proof {
        assert(forall|j: int|
            0 <= j < keywords.deep_view().len() ==> #[trigger] keywords.deep_view()[j]
                == keywords@[j]@);
    }
    false
}

/// Tries one rule at position `pos`: the match length of its pattern,
/// and on a match the token its constructor builds from the matched
/// text.
pub fn try_rule(keywords: &Vec<String>, r: Rule, text: &str, pos: usize) -> (res: Option<
    (Token, usize),
>)
    requires
        pos <= text@.len(),
    ensures
        pos + rule_match_len(r, text@, pos as int) <= text@.len(),
        match res {
            Option::Some((tok, n)) => n as int == rule_match_len(r, text@, pos as int) && n > 0
                && tok@ == rule_token(r, keywords.deep_view(), text@, pos as int),
            Option::None => rule_match_len(r, text@, pos as int) == 0,
        },
{
    let n_text = text.unicode_len();
    match r {
        Rule::Float => {
            let n = float_len_x(text, pos);
            if n > 0 {
                let sub = text.substring_char(pos, pos + n);
                Some((Token::Float(sub.to_owned()), n))
            } else {
                None
            }
        },
        Rule::Int => {
            let n = int_len_x(text, pos);
            if n > 0 {
                proof {
                    lemma_int_text_window(text@, pos as int);
                }
                let sub = text.substring_char(pos, pos + n);
                let big = BigNum::parse(sub).unwrap();
                Some((Token::Int(big), n))
            } else {
                None
            }
        },
        Rule::OpenParen => {
            if pos < n_text && text.get_char(pos) == '(' {
                Some((Token::OpenParen, 1))
            } else {
                None
            }
        },
        Rule::CloseParen => {
            if pos < n_text && text.get_char(pos) == ')' {
                Some((Token::CloseParen, 1))
            } else {
                None
            }
        },
        Rule::Whitespace => {
            let e = run_end_x(text, pos, CharClass::Space);
            if e > pos {
                let sub = text.substring_char(pos, e);
                Some((Token::Whitespace(sub.to_owned()), e - pos))
            } else {
                None
            }
        },
        Rule::OpenBrace => {
            if pos < n_text && text.get_char(pos) == '{' {
                Some((Token::OpenBrace, 1))
            } else {
                None
            }
        },
        Rule::CloseBrace => {
            if pos < n_text && text.get_char(pos) == '}' {
                Some((Token::CloseBrace, 1))
            } else {
                None
            }
        },
        Rule::StrLit => {
            let n = string_len_x(text, pos);
            if n > 0 {
                let sub = text.substring_char(pos, pos + n);
                Some((Token::Str(sub.to_owned()), n))
            } else {
                None
            }
        },
        Rule::OpenBracket => {
            if pos < n_text && text.get_char(pos) == '[' {
                Some((Token::OpenBracket, 1))
            } else {
                None
            }
        },
        Rule::CloseBracket => {
            if pos < n_text && text.get_char(pos) == ']' {
                Some((Token::CloseBracket, 1))
            } else {
                None
            }
        },
        Rule::Word => {
            let n = ident_len_x(text, pos);
            if n > 0 {
                let sub = text.substring_char(pos, pos + n);
                let owned = sub.to_owned();
                if is_keyword_x(keywords, sub) {
                    Some((Token::Keyword(owned), n))
                } else {
                    Some((Token::Identifier(owned), n))
                }
            } else {
                None
            }
        },
        Rule::OpAssign => {
            if pos < n_text && text.get_char(pos) == '=' {
                let sub = text.substring_char(pos, pos + 1);
                Some((Token::Operator(sub.to_owned()), 1))
            } else {
                None
            }
        },
    }
}

/// The rule order of the default table. Float stands before integer:
/// on "3.5" both could match a prefix, and only this order lexes it as
/// one float rather than the integer 3 followed by a malformed rest.
pub open spec fn default_rule_order() -> Seq<Rule> {
    seq![
        Rule::Float,
        Rule::Int,
        Rule::OpenParen,
        Rule::CloseParen,
        Rule::Whitespace,
        Rule::OpenBrace,
        Rule::CloseBrace,
        Rule::StrLit,
        Rule::OpenBracket,
        Rule::CloseBracket,
        Rule::Word,
        Rule::OpAssign,
    ]
}

/// The keywords of the default table.
pub open spec fn default_keywords() -> Seq<Seq<char>> {
    seq![seq!['i', 'f'], seq!['f', 'n']]
}

/// Builds the default rule table: the same ordered list on every call.
/// The float rule must stay before the integer rule (see
/// [`default_rule_order`]); the word rule classifies against the
/// keywords `if` and `fn`.
pub fn build_rules() -> (t: RuleTable)
    ensures
        t.rules@ == default_rule_order(),
        t.keywords.deep_view() == default_keywords(),
{
    let mut rules: Vec<Rule> = Vec::new();
    // Float before Int: order is the disambiguation policy.
    rules.push(Rule::Float);
    rules.push(Rule::Int);
    rules.push(Rule::OpenParen);
    rules.push(Rule::CloseParen);
    rules.push(Rule::Whitespace);
    rules.push(Rule::OpenBrace);
    rules.push(Rule::CloseBrace);
    rules.push(Rule::StrLit);
    rules.push(Rule::OpenBracket);
    rules.push(Rule::CloseBracket);
    rules.push(Rule::Word);
    rules.push(Rule::OpAssign);
    let mut keywords: Vec<String> = Vec::new();
    let kw_if: String = "if".to_owned();
    let kw_fn: String = "fn".to_owned();
    proof {
        reveal_strlit("if");
        reveal_strlit("fn");
        assert(kw_if@ =~= seq!['i', 'f']);
        assert(kw_fn@ =~= seq!['f', 'n']);
    }
    keywords.push(kw_if);
    keywords.push(kw_fn);
    proof {
        assert(rules@ =~= default_rule_order());
        assert(keywords.deep_view() =~= default_keywords());
    }
    RuleTable { rules, keywords }
}

} // verus!

//! The lexer: raw page text to a token stream.
//!
//! Block delimiters carry a "colon depth": `(:` opens at depth 0, `(::` at
//! depth 1, and so on, and `:)`, `::)`, ... close at the matching depth, so
//! that literal delimiter text can be fenced inside nested blocks. A bare
//! `(` or `)` is its own token: inside an expression it delimits a plain
//! argument group (as a `let` binding list is written), while in running
//! text the parser reproduces it literally, so ordinary prose keeps its
//! parentheses. A
//! line-initial `=>` followed by a newline is a rocket marker beginning an
//! indented block; an indentation stack turns a later decrease in leading
//! whitespace into [`Token::Dedent`] tokens. A fully empty line is blank —
//! its newline passes through untouched, deferred until the indentation of
//! the next line is known — while a whitespace-only line carries its own
//! indentation width, so trailing blank lines settle after the dedent they
//! precede rather than inside the block being closed. Ambiguous input is
//! never an error: whatever fails to form a delimiter falls through to
//! literal text.

use vstd::prelude::*;
use crate::strutil::{is_space, spec_is_space, str_chars};

verus! {

/// One lexical token. Text slices borrow from the input string.
#[derive(Debug, PartialEq)]
pub enum Token<'a> {
    /// `(`, then colons: a block opener. Carries the line and colon depth
    /// (number of colons minus one).
    StartBlock(i32, u8),
    /// Colons, then `)`: a block closer. Carries the colon depth.
    RightParen(u8),
    /// A bare `(`: literal text in prose, an argument-group opener inside
    /// an expression. Carries the line.
    GroupOpen(i32),
    /// A bare `)`: literal text in prose, the closer of an argument
    /// group inside an expression.
    GroupClose,
    /// Line-initial `=>` followed by a newline. Carries the line.
    Rocket(i32),
    /// Leading whitespace fell below the level where the innermost rocket
    /// block opened.
    Dedent,
    /// A `"` delimiter. Carries the line.
    Quote(i32),
    /// A literal run of text. Carries the line and the run itself.
    Text(i32, &'a str),
}

/// The literal content a token contributes to the page: the run of a
/// [`Token::Text`], nothing for the structural tokens.
pub open spec fn token_text<'a>(t: Token<'a>) -> Seq<char> {
    match t {
        Token::Text(_, s) => s@,
        _ => Seq::<char>::empty(),
    }
}

/// The concatenation of the text runs of `ts`, in order.
pub open spec fn tokens_text<'a>(ts: Seq<Token<'a>>) -> Seq<char>
    decreases ts.len(),
{
    if ts.len() == 0 {
        Seq::<char>::empty()
    } else {
        tokens_text(ts.drop_last()) + token_text(ts.last())
    }
}

/// Whether every token of `ts` is a text run.
pub open spec fn tokens_all_text<'a>(ts: Seq<Token<'a>>) -> bool {
    forall|i: int| 0 <= i < ts.len() ==> (#[trigger] ts[i]) matches Token::Text(..)
}

/// `a` appears inside `b` in order, each character used at most once.
pub open spec fn is_subseq_of(a: Seq<char>, b: Seq<char>) -> bool
    decreases b.len(),
{
    if a.len() == 0 {
        true
    } else if b.len() == 0 {
        false
    } else {
        (a[0] == b[0] && is_subseq_of(a.drop_first(), b.drop_first())) || is_subseq_of(
            a,
            b.drop_first(),
        )
    }
}

/// Input with none of the four delimiter characters: such text lexes to
/// text runs alone.
pub open spec fn spec_literal_only(s: Seq<char>) -> bool {
    forall|i: int|
        0 <= i < s.len() ==> {
            let c = #[trigger] s[i];
            c != '(' && c != ')' && c != '"' && c != '='
        }
}

/// A token as the specifications see it: identical to [`Token`], with
/// text runs as character sequences.
pub enum TokenModel {
    StartBlock(int, u8),
    RightParen(u8),
    GroupOpen(int),
    GroupClose,
    Rocket(int),
    Dedent,
    Quote(int),
    Text(int, Seq<char>),
}

/// The model of one token.
pub open spec fn token_model<'a>(t: Token<'a>) -> TokenModel {
    match t {
        Token::StartBlock(l, d) => TokenModel::StartBlock(l as int, d),
        Token::RightParen(d) => TokenModel::RightParen(d),
        Token::GroupOpen(l) => TokenModel::GroupOpen(l as int),
        Token::GroupClose => TokenModel::GroupClose,
        Token::Rocket(l) => TokenModel::Rocket(l as int),
        Token::Dedent => TokenModel::Dedent,
        Token::Quote(l) => TokenModel::Quote(l as int),
        Token::Text(l, s) => TokenModel::Text(l as int, s@),
    }
}

/// The models of a token sequence.
pub open spec fn tokens_model<'a>(ts: Seq<Token<'a>>) -> Seq<TokenModel> {
    ts.map_values(|t: Token<'a>| token_model(t))
}

/// The indentation stack as the specifications see it.
pub open spec fn indent_view(v: Seq<usize>) -> Seq<int> {
    v.map_values(|x: usize| x as int)
}

/// The number of consecutive spaces of `s` starting at `i`.
pub open spec fn spec_space_run(s: Seq<char>, i: int) -> int
    decreases s.len() - i,
{
    if 0 <= i < s.len() && s[i] == ' ' {
        1 + spec_space_run(s, i + 1)
    } else {
        0
    }
}

/// The number of consecutive colons of `s` starting at `i`.
pub open spec fn spec_colon_run(s: Seq<char>, i: int) -> int
    decreases s.len() - i,
{
    if 0 <= i < s.len() && s[i] == ':' {
        1 + spec_colon_run(s, i + 1)
    } else {
        0
    }
}

/// The number of consecutive non-newline whitespace characters of `s`
/// starting at `i`.
pub open spec fn spec_blank_run(s: Seq<char>, i: int) -> int
    decreases s.len() - i,
{
    if 0 <= i < s.len() && s[i] != '\n' && spec_is_space(s[i]) {
        1 + spec_blank_run(s, i + 1)
    } else {
        0
    }
}

/// The number of consecutive ordinary word characters of `s` starting at
/// `i`: everything until the next delimiter, colon or whitespace.
pub open spec fn spec_word_run(s: Seq<char>, i: int) -> int
    decreases s.len() - i,
{
    if 0 <= i < s.len() && s[i] != '(' && s[i] != ')' && s[i] != '"' && s[i] != '=' && s[i]
        != ':' && !spec_is_space(s[i]) {
        1 + spec_word_run(s, i + 1)
    } else {
        0
    }
}

/// How many indentation levels a non-blank line of width `w` closes.
pub open spec fn spec_dedent_count(indent: Seq<int>, w: int) -> int
    decreases indent.len(),
{
    if indent.len() > 1 && w < indent.last() {
        1 + spec_dedent_count(indent.drop_last(), w)
    } else {
        0
    }
}

/// The indentation stack after those pops.
pub open spec fn spec_popped(indent: Seq<int>, w: int) -> Seq<int>
    decreases indent.len(),
{
    if indent.len() > 1 && w < indent.last() {
        spec_popped(indent.drop_last(), w)
    } else {
        indent
    }
}

/// `k` dedent tokens.
pub open spec fn spec_dedents(k: int) -> Seq<TokenModel>
    decreases k,
{
    if k <= 0 {
        Seq::<TokenModel>::empty()
    } else {
        spec_dedents(k - 1).push(TokenModel::Dedent)
    }
}

/// The next line number: one more, saturating at the largest value.
pub open spec fn spec_next_line(l: int) -> int {
    if l < i32::MAX {
        l + 1
    } else {
        l
    }
}

/// The token stream of `s` from position `i`, with the running line
/// number, the indentation stack, whether a rocket marker awaits its
/// block's indentation, and the newline tokens pended across blank
/// lines. This is the lexer, stated as a function; [`lex`] returns
/// exactly its value from the initial state.
pub open spec fn spec_lex_at(
    s: Seq<char>,
    i: int,
    lineno: int,
    indent: Seq<int>,
    start_rocket: bool,
    pend: Seq<TokenModel>,
) -> Seq<TokenModel>
    decreases s.len() - i,
{
    if !(0 <= i < s.len()) {
        pend + spec_dedents(indent.len() - 1)
    } else {
        let c = s[i];
        if c == '\n' {
            let j = i + 1 + spec_space_run(s, i + 1);
            let w = j - i - 1;
            let ln2 = spec_next_line(lineno);
            let blank = j >= s.len() || s[j] == '\n';
            if blank && w == 0 {
                spec_lex_at(
                    s,
                    i + 1,
                    ln2,
                    indent,
                    start_rocket,
                    pend.push(TokenModel::Text(lineno, seq!['\n'])),
                )
            } else if start_rocket {
                if i < j <= s.len() {
                    spec_lex_at(s, j, ln2, indent.push(w), false, Seq::<TokenModel>::empty())
                } else {
                    pend
                }
            } else {
                let k = spec_dedent_count(indent, w);
                let ind2 = spec_popped(indent, w);
                let cur: int = if ind2.len() > 0 {
                    ind2.last()
                } else {
                    0
                };
                let head = spec_dedents(k) + pend + seq![
                    TokenModel::Text(lineno, seq!['\n']),
                ] + if w > cur {
                    seq![TokenModel::Text(ln2, s.subrange(i + 1 + cur, j))]
                } else {
                    Seq::<TokenModel>::empty()
                };
                if i < j <= s.len() {
                    head + spec_lex_at(s, j, ln2, ind2, false, Seq::<TokenModel>::empty())
                } else {
                    head
                }
            }
        } else if c == '(' {
            let k = spec_colon_run(s, i + 1);
            if k <= 0 {
                seq![TokenModel::GroupOpen(lineno)] + spec_lex_at(
                    s,
                    i + 1,
                    lineno,
                    indent,
                    start_rocket,
                    pend,
                )
            } else if k <= 256 {
                if i + 1 + k <= s.len() {
                    seq![TokenModel::StartBlock(lineno, (k - 1) as u8)] + spec_lex_at(
                        s,
                        i + 1 + k,
                        lineno,
                        indent,
                        start_rocket,
                        pend,
                    )
                } else {
                    pend
                }
            } else {
                if i + 1 + k <= s.len() {
                    seq![TokenModel::Text(lineno, s.subrange(i, i + 1 + k))] + spec_lex_at(
                        s,
                        i + 1 + k,
                        lineno,
                        indent,
                        start_rocket,
                        pend,
                    )
                } else {
                    pend
                }
            }
        } else if c == ':' {
            let k = 1 + spec_colon_run(s, i + 1);
            if k < 1 {
                pend
            } else if i + k < s.len() && s[i + k] == ')' && k <= 256 {
                seq![TokenModel::RightParen((k - 1) as u8)] + spec_lex_at(
                    s,
                    i + k + 1,
                    lineno,
                    indent,
                    start_rocket,
                    pend,
                )
            } else {
                if i + k <= s.len() {
                    seq![TokenModel::Text(lineno, s.subrange(i, i + k))] + spec_lex_at(
                        s,
                        i + k,
                        lineno,
                        indent,
                        start_rocket,
                        pend,
                    )
                } else {
                    pend
                }
            }
        } else if c == '"' {
            seq![TokenModel::Quote(lineno)] + spec_lex_at(
                s,
                i + 1,
                lineno,
                indent,
                start_rocket,
                pend,
            )
        } else if c == '=' {
            if i + 1 < s.len() && s[i + 1] == '>' {
                if i + 2 < s.len() && s[i + 2] == '\n' {
                    seq![TokenModel::Rocket(lineno)] + spec_lex_at(
                        s,
                        i + 2,
                        lineno,
                        indent,
                        true,
                        pend,
                    )
                } else {
                    seq![TokenModel::Text(lineno, s.subrange(i, i + 2))] + spec_lex_at(
                        s,
                        i + 2,
                        lineno,
                        indent,
                        start_rocket,
                        pend,
                    )
                }
            } else {
                seq![TokenModel::Text(lineno, s.subrange(i, i + 1))] + spec_lex_at(
                    s,
                    i + 1,
                    lineno,
                    indent,
                    start_rocket,
                    pend,
                )
            }
        } else if c == ')' {
            seq![TokenModel::GroupClose] + spec_lex_at(
                s,
                i + 1,
                lineno,
                indent,
                start_rocket,
                pend,
            )
        } else if spec_is_space(c) {
            let rl = spec_blank_run(s, i);
            if 1 <= rl && i + rl <= s.len() {
                seq![TokenModel::Text(lineno, s.subrange(i, i + rl))] + spec_lex_at(
                    s,
                    i + rl,
                    lineno,
                    indent,
                    start_rocket,
                    pend,
                )
            } else {
                pend
            }
        } else {
            let rl = spec_word_run(s, i);
            if 1 <= rl && i + rl <= s.len() {
                seq![TokenModel::Text(lineno, s.subrange(i, i + rl))] + spec_lex_at(
                    s,
                    i + rl,
                    lineno,
                    indent,
                    start_rocket,
                    pend,
                )
            } else {
                pend
            }
        }
    }
}

/// The lexer as a function of the input alone: the token stream from a
/// fresh state — line zero, the base indentation level, no rocket
/// pending.
pub open spec fn spec_lex(s: Seq<char>) -> Seq<TokenModel> {
    spec_lex_at(s, 0, 0, seq![0], false, Seq::<TokenModel>::empty())
}

/// `s` is an order-preserving merge of `a` and `b`: every character of
/// `s` comes from exactly one of the two, in order.
pub open spec fn is_interleaving(a: Seq<char>, b: Seq<char>, s: Seq<char>) -> bool
    decreases s.len(),
{
    if s.len() == 0 {
        a.len() == 0 && b.len() == 0
    } else {
        (a.len() > 0 && a[0] == s[0] && is_interleaving(a.drop_first(), b, s.drop_first())) || (
        b.len() > 0 && b[0] == s[0] && is_interleaving(a, b.drop_first(), s.drop_first()))
    }
}

/// A character the lexer may consume as delimiter or indentation
/// structure: fence parentheses and colons, quote marks, the rocket
/// arrow's characters, indentation spaces, and suppressed newlines.
pub open spec fn spec_consumed_char(c: char) -> bool {
    c == '(' || c == ')' || c == ':' || c == '"' || c == '=' || c == '>' || c == ' ' || c == '\n'
}

proof fn lemma_inter_nil(a: Seq<char>)
    ensures
        is_interleaving(a, Seq::<char>::empty(), a),
    decreases a.len(),
{
    if a.len() > 0 {
        lemma_inter_nil(a.drop_first());
    }
}

proof fn lemma_inter_append_a(a: Seq<char>, b: Seq<char>, t: Seq<char>, x: Seq<char>)
    requires
        is_interleaving(a, b, t),
    ensures
        is_interleaving(a + x, b, t + x),
    decreases t.len(),
{
    if t.len() == 0 {
        assert(a + x =~= x);
        assert(t + x =~= x);
        lemma_inter_nil(x);
        assert(b =~= Seq::<char>::empty());
    } else {
        assert((t + x).drop_first() =~= t.drop_first() + x);
        if a.len() > 0 && a[0] == t[0] && is_interleaving(a.drop_first(), b, t.drop_first()) {
            lemma_inter_append_a(a.drop_first(), b, t.drop_first(), x);
            assert((a + x).drop_first() =~= a.drop_first() + x);
            assert((a + x)[0] == (t + x)[0]);
        } else {
            lemma_inter_append_a(a, b.drop_first(), t.drop_first(), x);
        }
    }
}

proof fn lemma_inter_append_b(a: Seq<char>, b: Seq<char>, t: Seq<char>, x: Seq<char>)
    requires
        is_interleaving(a, b, t),
    ensures
        is_interleaving(a, b + x, t + x),
    decreases t.len(),
{
    if t.len() == 0 {
        assert(b + x =~= x);
        assert(t + x =~= x);
        assert(a =~= Seq::<char>::empty());
        lemma_inter_nil_b(x);
    } else {
        assert((t + x).drop_first() =~= t.drop_first() + x);
        if a.len() > 0 && a[0] == t[0] && is_interleaving(a.drop_first(), b, t.drop_first()) {
            lemma_inter_append_b(a.drop_first(), b, t.drop_first(), x);
        } else {
            lemma_inter_append_b(a, b.drop_first(), t.drop_first(), x);
            assert((b + x).drop_first() =~= b.drop_first() + x);
            assert((b + x)[0] == (t + x)[0]);
        }
    }
}

proof fn lemma_inter_nil_b(b: Seq<char>)
    ensures
        is_interleaving(Seq::<char>::empty(), b, b),
    decreases b.len(),
{
    if b.len() > 0 {
        lemma_inter_nil_b(b.drop_first());
    }
}

/// With nothing dropped, the merge is the text itself.
proof fn lemma_inter_empty_eq(a: Seq<char>, b: Seq<char>, s: Seq<char>)
    requires
        is_interleaving(a, b, s),
        b.len() == 0,
    ensures
        a == s,
    decreases s.len(),
{
    if s.len() == 0 {
        assert(a =~= s);
    } else {
        assert(a.len() > 0 && a[0] == s[0] && is_interleaving(
            a.drop_first(),
            b,
            s.drop_first(),
        ));
        lemma_inter_empty_eq(a.drop_first(), b, s.drop_first());
        assert forall|k: int| 0 <= k < s.len() implies a[k] == s[k] by {
            if k > 0 {
                assert(a[k] == a.drop_first()[k - 1]);
                assert(s[k] == s.drop_first()[k - 1]);
            }
        }
        assert(a =~= s);
    }
}

/// One side of a merge is a subsequence of the whole.
proof fn lemma_inter_subseq(a: Seq<char>, b: Seq<char>, s: Seq<char>)
    requires
        is_interleaving(a, b, s),
    ensures
        is_subseq_of(a, s),
    decreases s.len(),
{
    if s.len() == 0 {
    } else if a.len() > 0 && a[0] == s[0] && is_interleaving(a.drop_first(), b, s.drop_first()) {
        lemma_inter_subseq(a.drop_first(), b, s.drop_first());
    } else {
        lemma_inter_subseq(a, b.drop_first(), s.drop_first());
    }
}

proof fn lemma_tokens_text_push<'a>(ts: Seq<Token<'a>>, t: Token<'a>)
    ensures
        tokens_text(ts.push(t)) == tokens_text(ts) + token_text(t),
{
    assert(ts.push(t).drop_last() =~= ts);
    assert(ts.push(t).last() == t);
}

proof fn lemma_tokens_text_concat<'a>(ts1: Seq<Token<'a>>, ts2: Seq<Token<'a>>)
    ensures
        tokens_text(ts1 + ts2) == tokens_text(ts1) + tokens_text(ts2),
    decreases ts2.len(),
{
    if ts2.len() == 0 {
        assert(ts1 + ts2 =~= ts1);
        assert(tokens_text(ts1) + tokens_text(ts2) =~= tokens_text(ts1));
    } else {
        assert((ts1 + ts2).drop_last() =~= ts1 + ts2.drop_last());
        assert((ts1 + ts2).last() == ts2.last());
        lemma_tokens_text_concat(ts1, ts2.drop_last());
        assert(tokens_text(ts1) + tokens_text(ts2.drop_last()) + token_text(ts2.last())
            =~= tokens_text(ts1) + (tokens_text(ts2.drop_last()) + token_text(ts2.last())));
    }
}

/// The loop's coverage bookkeeping: the consumed prefix of the input is
/// exactly an order-preserving merge of the emitted text runs and the
/// dropped characters, every dropped character is delimiter or
/// indentation structure, pended newline tokens sit contiguously at the
/// end of the consumed prefix, and on delimiter-free input nothing is
/// ever dropped.
spec fn lex_cover<'a>(
    toks: Seq<Token<'a>>,
    pend: Seq<Token<'a>>,
    dropped: Seq<char>,
    s: Seq<char>,
    i: int,
) -> bool {
    let m = i - tokens_text(pend).len();
    &&& tokens_text(pend).len() <= i
    &&& is_interleaving(tokens_text(toks), dropped, s.subrange(0, m))
    &&& tokens_text(pend) == s.subrange(m, i)
    &&& forall|k: int| 0 <= k < dropped.len() ==> spec_consumed_char(#[trigger] dropped[k])
    &&& forall|k: int|
        0 <= k < tokens_text(pend).len() ==> #[trigger] tokens_text(pend)[k] == '\n'
    &&& (spec_literal_only(s) ==> dropped.len() == 0 && tokens_all_text(toks))
    &&& tokens_all_text(pend)
}

/// Drop the consumed segment `s[i..j]`: its characters are delimiter or
/// indentation structure, and on delimiter-free input the segment is
/// empty.
proof fn lemma_cover_drop<'a>(
    toks: Seq<Token<'a>>,
    pend: Seq<Token<'a>>,
    dropped: Seq<char>,
    s: Seq<char>,
    i: int,
    j: int,
)
    requires
        lex_cover(toks, pend, dropped, s, i),
        pend.len() == 0,
        0 <= i <= j <= s.len(),
        forall|k: int| i <= k < j ==> spec_consumed_char(#[trigger] s[k]),
        spec_literal_only(s) ==> i == j,
    ensures
        lex_cover(toks, pend, dropped + s.subrange(i, j), s, j),
{
    assert(tokens_text(pend) =~= Seq::<char>::empty());
    lemma_inter_append_b(tokens_text(toks), dropped, s.subrange(0, i), s.subrange(i, j));
    assert(s.subrange(0, i) + s.subrange(i, j) =~= s.subrange(0, j));
    assert(s.subrange(j, j) =~= Seq::<char>::empty());
    let d2 = dropped + s.subrange(i, j);
    assert forall|k: int| 0 <= k < d2.len() implies spec_consumed_char(#[trigger] d2[k]) by {
        if k < dropped.len() {
            assert(d2[k] == dropped[k]);
        } else {
            assert(d2[k] == s[i + (k - dropped.len())]);
        }
    }
    if spec_literal_only(s) {
        assert(d2 =~= dropped);
    }
}

/// Emit the freshly scanned slice `s[i..j]` as a text run.
proof fn lemma_cover_push<'a>(
    toks: Seq<Token<'a>>,
    pend: Seq<Token<'a>>,
    dropped: Seq<char>,
    s: Seq<char>,
    i: int,
    j: int,
    t: Token<'a>,
)
    requires
        lex_cover(toks, pend, dropped, s, i),
        pend.len() == 0,
        0 <= i <= j <= s.len(),
        token_text(t) == s.subrange(i, j),
        t matches Token::Text(..),
    ensures
        lex_cover(toks.push(t), pend, dropped, s, j),
{
    assert(tokens_text(pend) =~= Seq::<char>::empty());
    lemma_tokens_text_push(toks, t);
    lemma_inter_append_a(tokens_text(toks), dropped, s.subrange(0, i), s.subrange(i, j));
    assert(s.subrange(0, i) + s.subrange(i, j) =~= s.subrange(0, j));
    assert(s.subrange(j, j) =~= Seq::<char>::empty());
    if spec_literal_only(s) {
        assert forall|k: int| 0 <= k < toks.push(t).len() implies (#[trigger] toks.push(
            t,
        )[k]) matches Token::Text(..) by {
            if k < toks.len() {
                assert(toks[k] matches Token::Text(..));
            }
        }
    }
}

/// Push a structural (non-text) token: it consumes the delimiter segment
/// `s[i..j]` (empty when the token marks structure the lexer already
/// accounted for); such tokens never arise on delimiter-free input.
proof fn lemma_cover_structural<'a>(
    toks: Seq<Token<'a>>,
    pend: Seq<Token<'a>>,
    dropped: Seq<char>,
    s: Seq<char>,
    i: int,
    j: int,
    t: Token<'a>,
)
    requires
        lex_cover(toks, pend, dropped, s, i),
        pend.len() == 0 || i == j,
        0 <= i <= j <= s.len(),
        forall|k: int| i <= k < j ==> spec_consumed_char(#[trigger] s[k]),
        token_text(t) == Seq::<char>::empty(),
        !spec_literal_only(s),
    ensures
        lex_cover(toks.push(t), pend, dropped + s.subrange(i, j), s, j),
{
    lemma_tokens_text_push(toks, t);
    assert(tokens_text(toks.push(t)) =~= tokens_text(toks));
    if i == j {
        assert(dropped + s.subrange(i, j) =~= dropped);
    } else {
        assert(tokens_text(pend) =~= Seq::<char>::empty());
        lemma_inter_append_b(tokens_text(toks), dropped, s.subrange(0, i), s.subrange(i, j));
        assert(s.subrange(0, i) + s.subrange(i, j) =~= s.subrange(0, j));
        assert(s.subrange(j, j) =~= Seq::<char>::empty());
        let d2 = dropped + s.subrange(i, j);
        assert forall|k: int| 0 <= k < d2.len() implies spec_consumed_char(
            #[trigger] d2[k],
        ) by {
            if k < dropped.len() {
                assert(d2[k] == dropped[k]);
            } else {
                assert(d2[k] == s[i + (k - dropped.len())]);
            }
        }
    }
}

/// Pend a blank line's newline token: it stays contiguous with the other
/// pended newlines at the end of the consumed prefix.
proof fn lemma_cover_pend_push<'a>(
    toks: Seq<Token<'a>>,
    pend: Seq<Token<'a>>,
    dropped: Seq<char>,
    s: Seq<char>,
    i: int,
    t: Token<'a>,
)
    requires
        lex_cover(toks, pend, dropped, s, i),
        0 <= i < s.len(),
        token_text(t) == s.subrange(i, i + 1),
        s[i] == '\n',
        t matches Token::Text(..),
    ensures
        lex_cover(toks, pend.push(t), dropped, s, i + 1),
{
    lemma_tokens_text_push(pend, t);
    let m = i - tokens_text(pend).len();
    assert(tokens_text(pend.push(t)) =~= tokens_text(pend) + s.subrange(i, i + 1));
    assert(s.subrange(m, i) + s.subrange(i, i + 1) =~= s.subrange(m, i + 1));
    let p2 = tokens_text(pend.push(t));
    assert forall|k: int| 0 <= k < p2.len() implies #[trigger] p2[k] == '\n' by {
        if k < tokens_text(pend).len() {
            assert(p2[k] == tokens_text(pend)[k]);
        } else {
            assert(p2[k] == s[i]);
        }
    }
    assert forall|k: int| 0 <= k < pend.push(t).len() implies (#[trigger] pend.push(
        t,
    )[k]) matches Token::Text(..) by {
        if k < pend.len() {
            assert(pend[k] matches Token::Text(..));
        }
    }
}

/// Flush the pended newlines into the emitted stream, in position order.
proof fn lemma_cover_flush<'a>(
    toks: Seq<Token<'a>>,
    pend: Seq<Token<'a>>,
    dropped: Seq<char>,
    s: Seq<char>,
    i: int,
)
    requires
        lex_cover(toks, pend, dropped, s, i),
        0 <= i <= s.len(),
    ensures
        lex_cover(toks + pend, Seq::<Token<'a>>::empty(), dropped, s, i),
{
    lemma_tokens_text_concat(toks, pend);
    let m = i - tokens_text(pend).len();
    lemma_inter_append_a(tokens_text(toks), dropped, s.subrange(0, m), s.subrange(m, i));
    assert(s.subrange(0, m) + s.subrange(m, i) =~= s.subrange(0, i));
    assert(tokens_text(Seq::<Token<'a>>::empty()) =~= Seq::<char>::empty());
    assert(s.subrange(i, i) =~= Seq::<char>::empty());
    if spec_literal_only(s) {
        assert forall|k: int| 0 <= k < (toks + pend).len() implies (#[trigger] (toks
            + pend)[k]) matches Token::Text(..) by {
            if k < toks.len() {
                assert(toks[k] matches Token::Text(..));
            } else {
                assert(pend[k - toks.len()] matches Token::Text(..));
            }
        }
    }
}

/// Discard the pended newlines: a rocket's indentation is being
/// established, and the blank lines before it are consumed structure.
proof fn lemma_cover_clear<'a>(
    toks: Seq<Token<'a>>,
    pend: Seq<Token<'a>>,
    dropped: Seq<char>,
    s: Seq<char>,
    i: int,
)
    requires
        lex_cover(toks, pend, dropped, s, i),
        0 <= i <= s.len(),
        !spec_literal_only(s),
    ensures
        lex_cover(
            toks,
            Seq::<Token<'a>>::empty(),
            dropped + tokens_text(pend),
            s,
            i,
        ),
{
    let m = i - tokens_text(pend).len();
    lemma_inter_append_b(tokens_text(toks), dropped, s.subrange(0, m), s.subrange(m, i));
    assert(s.subrange(0, m) + s.subrange(m, i) =~= s.subrange(0, i));
    assert(dropped + tokens_text(pend) =~= dropped + s.subrange(m, i));
    assert(tokens_text(Seq::<Token<'a>>::empty()) =~= Seq::<char>::empty());
    assert(s.subrange(i, i) =~= Seq::<char>::empty());
    let d2 = dropped + s.subrange(m, i);
    assert forall|k: int| 0 <= k < d2.len() implies spec_consumed_char(#[trigger] d2[k]) by {
        if k < dropped.len() {
            assert(d2[k] == dropped[k]);
        } else {
            assert(d2[k] == tokens_text(pend)[k - dropped.len()]);
        }
    }
}

/// A scan that saw spaces through `[i, j)` and then stopped agrees with
/// the spec run.
proof fn lemma_space_run_at(s: Seq<char>, i: int, j: int)
    requires
        0 <= i <= j <= s.len(),
        forall|k: int| i <= k < j ==> (#[trigger] s[k]) == ' ',
        j == s.len() || s[j] != ' ',
    ensures
        spec_space_run(s, i) == j - i,
    decreases j - i,
{
    if i < j {
        lemma_space_run_at(s, i + 1, j);
    }
}

proof fn lemma_colon_run_at(s: Seq<char>, i: int, j: int)
    requires
        0 <= i <= j <= s.len(),
        forall|k: int| i <= k < j ==> (#[trigger] s[k]) == ':',
        j == s.len() || s[j] != ':',
    ensures
        spec_colon_run(s, i) == j - i,
    decreases j - i,
{
    if i < j {
        lemma_colon_run_at(s, i + 1, j);
    }
}

proof fn lemma_blank_run_at(s: Seq<char>, i: int, j: int)
    requires
        0 <= i <= j <= s.len(),
        forall|k: int| i <= k < j ==> (#[trigger] s[k]) != '\n' && spec_is_space(s[k]),
        j == s.len() || s[j] == '\n' || !spec_is_space(s[j]),
    ensures
        spec_blank_run(s, i) == j - i,
    decreases j - i,
{
    if i < j {
        lemma_blank_run_at(s, i + 1, j);
    }
}

proof fn lemma_word_run_at(s: Seq<char>, i: int, j: int)
    requires
        0 <= i <= j <= s.len(),
        forall|k: int|
            i <= k < j ==> (#[trigger] s[k]) != '(' && s[k] != ')' && s[k] != '"' && s[k] != '='
                && s[k] != ':' && !spec_is_space(s[k]),
        j == s.len() || s[j] == '(' || s[j] == ')' || s[j] == '"' || s[j] == '=' || s[j] == ':'
            || spec_is_space(s[j]),
    ensures
        spec_word_run(s, i) == j - i,
    decreases j - i,
{
    if i < j {
        lemma_word_run_at(s, i + 1, j);
    }
}

proof fn lemma_dedent_count_nonneg(indent: Seq<int>, w: int)
    ensures
        spec_dedent_count(indent, w) >= 0,
    decreases indent.len(),
{
    if indent.len() > 1 && w < indent.last() {
        lemma_dedent_count_nonneg(indent.drop_last(), w);
    }
}

/// Popping keeps the base level: the stack stays nonempty.
proof fn lemma_popped_len(indent: Seq<int>, w: int)
    requires
        indent.len() >= 1,
    ensures
        1 <= spec_popped(indent, w).len() <= indent.len(),
    decreases indent.len(),
{
    if indent.len() > 1 && w < indent.last() {
        lemma_popped_len(indent.drop_last(), w);
    }
}

/// A dedent run is the same sequence whichever end it grows from.
proof fn lemma_dedents_shift(k: int)
    requires
        k >= 0,
    ensures
        spec_dedents(k + 1) == seq![TokenModel::Dedent] + spec_dedents(k),
    decreases k,
{
    if k == 0 {
        assert(spec_dedents(1) =~= seq![TokenModel::Dedent] + spec_dedents(0));
    } else {
        lemma_dedents_shift(k - 1);
        assert((seq![TokenModel::Dedent] + spec_dedents(k - 1)).push(TokenModel::Dedent)
            =~= seq![TokenModel::Dedent] + spec_dedents(k - 1).push(TokenModel::Dedent));
    }
}

proof fn lemma_model_push<'a>(ts: Seq<Token<'a>>, t: Token<'a>)
    ensures
        tokens_model(ts.push(t)) == tokens_model(ts).push(token_model(t)),
{
    assert(tokens_model(ts.push(t)) =~= tokens_model(ts).push(token_model(t)));
}

proof fn lemma_model_append<'a>(a: Seq<Token<'a>>, b: Seq<Token<'a>>)
    ensures
        tokens_model(a + b) == tokens_model(a) + tokens_model(b),
{
    assert(tokens_model(a + b) =~= tokens_model(a) + tokens_model(b));
}

proof fn lemma_space_run_bounds(s: Seq<char>, i: int)
    requires
        0 <= i <= s.len(),
    ensures
        0 <= spec_space_run(s, i),
        i + spec_space_run(s, i) <= s.len(),
    decreases s.len() - i,
{
    if i < s.len() && s[i] == ' ' {
        lemma_space_run_bounds(s, i + 1);
    }
}

proof fn lemma_colon_run_bounds(s: Seq<char>, i: int)
    requires
        0 <= i <= s.len(),
    ensures
        0 <= spec_colon_run(s, i),
        i + spec_colon_run(s, i) <= s.len(),
    decreases s.len() - i,
{
    if i < s.len() && s[i] == ':' {
        lemma_colon_run_bounds(s, i + 1);
    }
}

proof fn lemma_blank_run_bounds(s: Seq<char>, i: int)
    requires
        0 <= i <= s.len(),
    ensures
        0 <= spec_blank_run(s, i),
        i + spec_blank_run(s, i) <= s.len(),
    decreases s.len() - i,
{
    if i < s.len() && s[i] != '\n' && spec_is_space(s[i]) {
        lemma_blank_run_bounds(s, i + 1);
    }
}

proof fn lemma_word_run_bounds(s: Seq<char>, i: int)
    requires
        0 <= i <= s.len(),
    ensures
        0 <= spec_word_run(s, i),
        i + spec_word_run(s, i) <= s.len(),
    decreases s.len() - i,
{
    if i < s.len() && s[i] != '(' && s[i] != ')' && s[i] != '"' && s[i] != '=' && s[i] != ':'
        && !spec_is_space(s[i]) {
        lemma_word_run_bounds(s, i + 1);
    }
}

/// Prepending one element, stated over push: the shape every step of the
/// loop proof uses.
proof fn lemma_cons_assoc(a: Seq<TokenModel>, x: TokenModel, c: Seq<TokenModel>)
    ensures
        a + (seq![x] + c) == a.push(x) + c,
{
    assert(a + (seq![x] + c) =~= a.push(x) + c);
}

proof fn lemma_seq_assoc(a: Seq<TokenModel>, b: Seq<TokenModel>, c: Seq<TokenModel>)
    ensures
        a + (b + c) == (a + b) + c,
{
    assert(a + (b + c) =~= (a + b) + c);
}

/// One unfolding of [`spec_lex_at`] per lexer case, so that the loop
/// proof can cite the step it took instead of unfolding the definition
/// in place.
proof fn lemma_step_blank(
    s: Seq<char>,
    i: int,
    ln: int,
    iv: Seq<int>,
    sr: bool,
    pm: Seq<TokenModel>,
)
    requires
        0 <= i < s.len(),
        s[i] == '\n',
        spec_space_run(s, i + 1) == 0,
        i + 1 >= s.len() || s[i + 1] == '\n',
    ensures
        spec_lex_at(s, i, ln, iv, sr, pm) == spec_lex_at(
            s,
            i + 1,
            spec_next_line(ln),
            iv,
            sr,
            pm.push(TokenModel::Text(ln, seq!['\n'])),
        ),
{
}

proof fn lemma_step_rocket_line(s: Seq<char>, i: int, ln: int, iv: Seq<int>, pm: Seq<TokenModel>)
    requires
        0 <= i < s.len(),
        s[i] == '\n',
        !((i + 1 + spec_space_run(s, i + 1) >= s.len() || s[i + 1 + spec_space_run(s, i + 1)]
            == '\n') && spec_space_run(s, i + 1) == 0),
    ensures
        spec_lex_at(s, i, ln, iv, true, pm) == spec_lex_at(
            s,
            i + 1 + spec_space_run(s, i + 1),
            spec_next_line(ln),
            iv.push(spec_space_run(s, i + 1)),
            false,
            Seq::<TokenModel>::empty(),
        ),
{
    lemma_space_run_bounds(s, i + 1);
}

proof fn lemma_step_newline(s: Seq<char>, i: int, ln: int, iv: Seq<int>, pm: Seq<TokenModel>)
    requires
        0 <= i < s.len(),
        s[i] == '\n',
        iv.len() >= 1,
        !((i + 1 + spec_space_run(s, i + 1) >= s.len() || s[i + 1 + spec_space_run(s, i + 1)]
            == '\n') && spec_space_run(s, i + 1) == 0),
    ensures
        ({
            let j = i + 1 + spec_space_run(s, i + 1);
            let w = j - i - 1;
            let ln2 = spec_next_line(ln);
            let k = spec_dedent_count(iv, w);
            let ind2 = spec_popped(iv, w);
            let cur: int = if ind2.len() > 0 {
                ind2.last()
            } else {
                0
            };
            spec_lex_at(s, i, ln, iv, false, pm) == (spec_dedents(k) + pm + seq![
                TokenModel::Text(ln, seq!['\n']),
            ] + (if w > cur {
                seq![TokenModel::Text(ln2, s.subrange(i + 1 + cur, j))]
            } else {
                Seq::<TokenModel>::empty()
            })) + spec_lex_at(s, j, ln2, ind2, false, Seq::<TokenModel>::empty())
        }),
{
    lemma_space_run_bounds(s, i + 1);
}

proof fn lemma_step_group_open(
    s: Seq<char>,
    i: int,
    ln: int,
    iv: Seq<int>,
    sr: bool,
    pm: Seq<TokenModel>,
)
    requires
        0 <= i < s.len(),
        s[i] == '(',
        spec_colon_run(s, i + 1) == 0,
    ensures
        spec_lex_at(s, i, ln, iv, sr, pm) == seq![TokenModel::GroupOpen(ln)] + spec_lex_at(
            s,
            i + 1,
            ln,
            iv,
            sr,
            pm,
        ),
{
}

proof fn lemma_step_start_block(
    s: Seq<char>,
    i: int,
    ln: int,
    iv: Seq<int>,
    sr: bool,
    pm: Seq<TokenModel>,
)
    requires
        0 <= i < s.len(),
        s[i] == '(',
        1 <= spec_colon_run(s, i + 1) <= 256,
    ensures
        spec_lex_at(s, i, ln, iv, sr, pm) == seq![
            TokenModel::StartBlock(ln, (spec_colon_run(s, i + 1) - 1) as u8),
        ] + spec_lex_at(s, i + 1 + spec_colon_run(s, i + 1), ln, iv, sr, pm),
{
    lemma_colon_run_bounds(s, i + 1);
}

proof fn lemma_step_open_text(
    s: Seq<char>,
    i: int,
    ln: int,
    iv: Seq<int>,
    sr: bool,
    pm: Seq<TokenModel>,
)
    requires
        0 <= i < s.len(),
        s[i] == '(',
        spec_colon_run(s, i + 1) > 256,
    ensures
        spec_lex_at(s, i, ln, iv, sr, pm) == seq![
            TokenModel::Text(ln, s.subrange(i, i + 1 + spec_colon_run(s, i + 1))),
        ] + spec_lex_at(s, i + 1 + spec_colon_run(s, i + 1), ln, iv, sr, pm),
{
    lemma_colon_run_bounds(s, i + 1);
}

proof fn lemma_step_right_paren(
    s: Seq<char>,
    i: int,
    ln: int,
    iv: Seq<int>,
    sr: bool,
    pm: Seq<TokenModel>,
)
    requires
        0 <= i < s.len(),
        s[i] == ':',
        i + 1 + spec_colon_run(s, i + 1) < s.len(),
        s[i + 1 + spec_colon_run(s, i + 1)] == ')',
        1 + spec_colon_run(s, i + 1) <= 256,
    ensures
        spec_lex_at(s, i, ln, iv, sr, pm) == seq![
            TokenModel::RightParen(spec_colon_run(s, i + 1) as u8),
        ] + spec_lex_at(s, i + 2 + spec_colon_run(s, i + 1), ln, iv, sr, pm),
{
    lemma_colon_run_bounds(s, i + 1);
}

proof fn lemma_step_colon_text(
    s: Seq<char>,
    i: int,
    ln: int,
    iv: Seq<int>,
    sr: bool,
    pm: Seq<TokenModel>,
)
    requires
        0 <= i < s.len(),
        s[i] == ':',
        !(i + 1 + spec_colon_run(s, i + 1) < s.len() && s[i + 1 + spec_colon_run(s, i + 1)] == ')'
            && 1 + spec_colon_run(s, i + 1) <= 256),
    ensures
        spec_lex_at(s, i, ln, iv, sr, pm) == seq![
            TokenModel::Text(ln, s.subrange(i, i + 1 + spec_colon_run(s, i + 1))),
        ] + spec_lex_at(s, i + 1 + spec_colon_run(s, i + 1), ln, iv, sr, pm),
{
    lemma_colon_run_bounds(s, i + 1);
}

proof fn lemma_step_quote(
    s: Seq<char>,
    i: int,
    ln: int,
    iv: Seq<int>,
    sr: bool,
    pm: Seq<TokenModel>,
)
    requires
        0 <= i < s.len(),
        s[i] == '"',
    ensures
        spec_lex_at(s, i, ln, iv, sr, pm) == seq![TokenModel::Quote(ln)] + spec_lex_at(
            s,
            i + 1,
            ln,
            iv,
            sr,
            pm,
        ),
{
}

proof fn lemma_step_rocket_tok(
    s: Seq<char>,
    i: int,
    ln: int,
    iv: Seq<int>,
    sr: bool,
    pm: Seq<TokenModel>,
)
    requires
        0 <= i < s.len(),
        s[i] == '=',
        i + 1 < s.len(),
        s[i + 1] == '>',
        i + 2 < s.len(),
        s[i + 2] == '\n',
    ensures
        spec_lex_at(s, i, ln, iv, sr, pm) == seq![TokenModel::Rocket(ln)] + spec_lex_at(
            s,
            i + 2,
            ln,
            iv,
            true,
            pm,
        ),
{
}

proof fn lemma_step_eq_text2(
    s: Seq<char>,
    i: int,
    ln: int,
    iv: Seq<int>,
    sr: bool,
    pm: Seq<TokenModel>,
)
    requires
        0 <= i < s.len(),
        s[i] == '=',
        i + 1 < s.len(),
        s[i + 1] == '>',
        !(i + 2 < s.len() && s[i + 2] == '\n'),
    ensures
        spec_lex_at(s, i, ln, iv, sr, pm) == seq![TokenModel::Text(ln, s.subrange(i, i + 2))]
            + spec_lex_at(s, i + 2, ln, iv, sr, pm),
{
}

proof fn lemma_step_eq_text1(
    s: Seq<char>,
    i: int,
    ln: int,
    iv: Seq<int>,
    sr: bool,
    pm: Seq<TokenModel>,
)
    requires
        0 <= i < s.len(),
        s[i] == '=',
        !(i + 1 < s.len() && s[i + 1] == '>'),
    ensures
        spec_lex_at(s, i, ln, iv, sr, pm) == seq![TokenModel::Text(ln, s.subrange(i, i + 1))]
            + spec_lex_at(s, i + 1, ln, iv, sr, pm),
{
}

proof fn lemma_step_group_close(
    s: Seq<char>,
    i: int,
    ln: int,
    iv: Seq<int>,
    sr: bool,
    pm: Seq<TokenModel>,
)
    requires
        0 <= i < s.len(),
        s[i] == ')',
    ensures
        spec_lex_at(s, i, ln, iv, sr, pm) == seq![TokenModel::GroupClose] + spec_lex_at(
            s,
            i + 1,
            ln,
            iv,
            sr,
            pm,
        ),
{
}

proof fn lemma_step_space(
    s: Seq<char>,
    i: int,
    ln: int,
    iv: Seq<int>,
    sr: bool,
    pm: Seq<TokenModel>,
)
    requires
        0 <= i < s.len(),
        s[i] != '\n' && s[i] != '(' && s[i] != ':' && s[i] != '"' && s[i] != '=' && s[i] != ')',
        spec_is_space(s[i]),
    ensures
        spec_lex_at(s, i, ln, iv, sr, pm) == seq![
            TokenModel::Text(ln, s.subrange(i, i + spec_blank_run(s, i))),
        ] + spec_lex_at(s, i + spec_blank_run(s, i), ln, iv, sr, pm),
{
    assert(spec_blank_run(s, i) == 1 + spec_blank_run(s, i + 1));
    lemma_blank_run_bounds(s, i + 1);
}

proof fn lemma_step_word(
    s: Seq<char>,
    i: int,
    ln: int,
    iv: Seq<int>,
    sr: bool,
    pm: Seq<TokenModel>,
)
    requires
        0 <= i < s.len(),
        s[i] != '\n' && s[i] != '(' && s[i] != ':' && s[i] != '"' && s[i] != '=' && s[i] != ')',
        !spec_is_space(s[i]),
    ensures
        spec_lex_at(s, i, ln, iv, sr, pm) == seq![
            TokenModel::Text(ln, s.subrange(i, i + spec_word_run(s, i))),
        ] + spec_lex_at(s, i + spec_word_run(s, i), ln, iv, sr, pm),
{
    assert(spec_word_run(s, i) == 1 + spec_word_run(s, i + 1));
    lemma_word_run_bounds(s, i + 1);
}

/// Lex `data` into tokens. Lexing is total: it succeeds on every input,
/// and the stream is pinned exactly — the models of the result are
/// [`spec_lex`] of the input, the lexer stated as a function. From that
/// single clause follow the blank-line rule (a fully empty line's newline
/// is pended until the next line's indentation is known, so trailing
/// blank lines settle after the dedents they precede), the dedent rule
/// (each drop past a stacked indentation level emits one
/// [`Token::Dedent`] before the pended newlines flush), and the delimiter
/// rules (`(` plus colons to [`Token::StartBlock`] at its colon depth,
/// colons plus `)` to [`Token::RightParen`], bare parentheses to the
/// group tokens, line-final `=>` to [`Token::Rocket`], `"` to
/// [`Token::Quote`]). Besides that, the input is exactly an
/// order-preserving merge of the emitted text runs with the consumed
/// delimiter and indentation characters, and on input containing none of
/// the delimiter characters `(`, `)`, `"`, `=` the result is text runs
/// alone whose concatenation is the input itself.
#[verifier::rlimit(100)]
pub fn lex<'a>(data: &'a str) -> (r: Vec<Token<'a>>)
    ensures
        tokens_model(r@) == spec_lex(data@),
        exists|dropped: Seq<char>|
            is_interleaving(tokens_text(r@), dropped, data@) && (forall|k: int|
                0 <= k < dropped.len() ==> spec_consumed_char(#[trigger] dropped[k])),
        is_subseq_of(tokens_text(r@), data@),
        spec_literal_only(data@) ==> tokens_text(r@) == data@ && tokens_all_text(r@),
{
    let v = str_chars(data);
    let n = v.len();
    let mut tokens: Vec<Token<'a>> = Vec::new();
    let mut pending: Vec<Token<'a>> = Vec::new();
    let ghost mut dropped: Seq<char> = Seq::<char>::empty();
    let mut indent: Vec<usize> = Vec::new();
    indent.push(0);
    let mut start_rocket: bool = false;
    let mut lineno: i32 = 0;
    let mut i: usize = 0;
    proof {
        assert(data@.subrange(0, 0int) =~= Seq::<char>::empty());
        assert(tokens_text(tokens@) =~= Seq::<char>::empty());
        assert(tokens_text(pending@) =~= Seq::<char>::empty());
        assert(tokens_model(tokens@) =~= Seq::<TokenModel>::empty());
        assert(tokens_model(pending@) =~= Seq::<TokenModel>::empty());
        assert(indent_view(indent@) =~= seq![0int]);
        assert(tokens_model(tokens@) + spec_lex_at(
            data@,
            0,
            0,
            seq![0int],
            false,
            Seq::<TokenModel>::empty(),
        ) =~= spec_lex_at(data@, 0, 0, seq![0int], false, Seq::<TokenModel>::empty()));
    }
    while i < n
        invariant
            0 <= i <= n,
            n == v@.len(),
            v@ == data@,
            indent@.len() >= 1,
            indent@[0] == 0,
            lex_cover(tokens@, pending@, dropped, data@, i as int),
            pending@.len() > 0 && i < n ==> v@[i as int] == '\n',
            start_rocket ==> !spec_literal_only(data@),
            indent@.len() > 1 ==> !spec_literal_only(data@),
            spec_lex(data@) == tokens_model(tokens@) + spec_lex_at(
                data@,
                i as int,
                lineno as int,
                indent_view(indent@),
                start_rocket,
                tokens_model(pending@),
            ),
        decreases n - i,
    {
        let ghost pre_i = i as int;
        let ghost pre_ln = lineno as int;
        let ghost pre_iv = indent_view(indent@);
        let ghost pre_sr = start_rocket;
        let ghost pre_pm = tokens_model(pending@);
        let ghost pre_tm = tokens_model(tokens@);
        let c = v[i];
        if c == '\n' {
            let nl_line = lineno;
            if lineno < i32::MAX {
                lineno = lineno + 1;
            }
            let mut j: usize = i + 1;
            while j < n && v[j] == ' '
                invariant
                    i + 1 <= j <= n,
                    n == v@.len(),
                    forall|k: int| i + 1 <= k < j ==> (#[trigger] v@[k]) == ' ',
                decreases n - j,
            {
                j += 1;
            }
            proof {
                lemma_space_run_at(data@, pre_i + 1, j as int);
            }
            let ghost sj = pre_i + 1 + spec_space_run(data@, pre_i + 1);
            let ghost ln2 = spec_next_line(pre_ln);
            let w = j - i - 1;
            let ghost sw = sj - pre_i - 1;
            let blank_next = j >= n || v[j] == '\n';
            proof {
                assert(sj == j as int);
                assert(sw == w as int);
                assert(ln2 == lineno as int);
                assert(blank_next == (sj >= data@.len() || data@[sj] == '\n'));
            }
            if blank_next && w == 0 {
                let t = Token::Text(nl_line, data.substring_char(i, i + 1));
                proof {
                    lemma_cover_pend_push(tokens@, pending@, dropped, data@, i as int, t);
                    assert(data@.subrange(pre_i, pre_i + 1) =~= seq![data@[pre_i]]);
                    assert(seq![data@[pre_i]] =~= seq!['\n']);
                    assert(token_model(t) == TokenModel::Text(pre_ln, seq!['\n']));
                    lemma_model_push(pending@, t);
                    lemma_step_blank(data@, pre_i, pre_ln, pre_iv, pre_sr, pre_pm);
                }
                pending.push(t);
                i = i + 1;
            } else if start_rocket {
                indent.push(w);
                start_rocket = false;
                proof {
                    lemma_cover_clear(tokens@, pending@, dropped, data@, i as int);
                    dropped = dropped + tokens_text(pending@);
                }
                pending.clear();
                proof {
                    lemma_cover_drop(tokens@, pending@, dropped, data@, i as int, j as int);
                    dropped = dropped + data@.subrange(i as int, j as int);
                    assert(indent_view(indent@) =~= pre_iv.push(sw));
                    assert(tokens_model(pending@) =~= Seq::<TokenModel>::empty());
                    lemma_step_rocket_line(data@, pre_i, pre_ln, pre_iv, pre_pm);
                }
                i = j;
            } else {
                let ghost dc = spec_dedent_count(pre_iv, sw);
                let ghost ind2 = spec_popped(pre_iv, sw);
                proof {
                    lemma_dedent_count_nonneg(pre_iv, sw);
                    lemma_popped_len(pre_iv, sw);
                    lemma_step_newline(data@, pre_i, pre_ln, pre_iv, pre_pm);
                }
                while indent.len() > 1 && w < indent[indent.len() - 1]
                    invariant
                        0 <= i <= n,
                        n == v@.len(),
                        v@ == data@,
                        indent@.len() >= 1,
                        indent@[0] == 0,
                        lex_cover(tokens@, pending@, dropped, data@, i as int),
                        indent@.len() > 1 ==> !spec_literal_only(data@),
                        sw == w as int,
                        spec_popped(indent_view(indent@), sw) == ind2,
                        spec_dedent_count(indent_view(indent@), sw) >= 0,
                        tokens_model(tokens@) + spec_dedents(
                            spec_dedent_count(indent_view(indent@), sw),
                        ) == pre_tm + spec_dedents(dc),
                    decreases indent@.len(),
                {
                    let ghost ivc = indent_view(indent@);
                    proof {
                        assert(ivc.len() == indent@.len());
                        assert(ivc.last() == indent@[indent@.len() - 1] as int);
                        assert(ivc.len() > 1 && sw < ivc.last());
                        assert(spec_dedent_count(ivc, sw) == 1 + spec_dedent_count(
                            ivc.drop_last(),
                            sw,
                        ));
                        assert(spec_popped(ivc, sw) == spec_popped(ivc.drop_last(), sw));
                        lemma_dedent_count_nonneg(ivc.drop_last(), sw);
                        lemma_dedents_shift(spec_dedent_count(ivc.drop_last(), sw));
                        lemma_model_push(tokens@, Token::Dedent);
                        lemma_cons_assoc(
                            tokens_model(tokens@),
                            TokenModel::Dedent,
                            spec_dedents(spec_dedent_count(ivc.drop_last(), sw)),
                        );
                    }
                    indent.pop();
                    proof {
                        assert(indent_view(indent@) =~= ivc.drop_last());
                        lemma_cover_structural(
                            tokens@,
                            pending@,
                            dropped,
                            data@,
                            i as int,
                            i as int,
                            Token::Dedent,
                        );
                        assert(dropped + data@.subrange(i as int, i as int) =~= dropped);
                    }
                    tokens.push(Token::Dedent);
                }
                proof {
                    let ivc = indent_view(indent@);
                    assert(ivc.len() == indent@.len());
                    if indent@.len() > 1 {
                        assert(!(w < indent@[indent@.len() - 1]));
                        assert(ivc.last() == indent@[indent@.len() - 1] as int);
                    }
                    assert(spec_dedent_count(ivc, sw) == 0);
                    assert(spec_popped(ivc, sw) == ivc);
                    assert(spec_dedents(0) =~= Seq::<TokenModel>::empty());
                    assert(tokens_model(tokens@) + Seq::<TokenModel>::empty() =~= tokens_model(
                        tokens@,
                    ));
                    assert(tokens_model(tokens@) == pre_tm + spec_dedents(dc));
                    assert(ind2 == ivc);
                    lemma_cover_flush(tokens@, pending@, dropped, data@, i as int);
                    lemma_model_append(tokens@, pending@);
                }
                tokens.append(&mut pending);
                let t = Token::Text(nl_line, data.substring_char(i, i + 1));
                proof {
                    lemma_cover_push(tokens@, pending@, dropped, data@, i as int, i + 1int, t);
                    assert(data@.subrange(pre_i, pre_i + 1) =~= seq![data@[pre_i]]);
                    assert(seq![data@[pre_i]] =~= seq!['\n']);
                    assert(token_model(t) == TokenModel::Text(pre_ln, seq!['\n']));
                    lemma_model_push(tokens@, t);
                }
                tokens.push(t);
                let cur = indent[indent.len() - 1];
                let ghost scur: int = if ind2.len() > 0 {
                    ind2.last()
                } else {
                    0int
                };
                proof {
                    assert(ind2 == indent_view(indent@));
                    assert(ind2.len() > 0);
                    assert(scur == cur as int);
                    if spec_literal_only(data@) {
                        assert(indent@.len() == 1);
                        assert(cur == 0);
                    }
                    lemma_cover_drop(
                        tokens@,
                        pending@,
                        dropped,
                        data@,
                        i + 1int,
                        i + 1 + cur as int,
                    );
                    dropped = dropped + data@.subrange(i + 1int, i + 1 + cur as int);
                }
                let ghost extra: Seq<TokenModel> = if sw > scur {
                    seq![TokenModel::Text(ln2, data@.subrange(pre_i + 1 + scur, sj))]
                } else {
                    Seq::<TokenModel>::empty()
                };
                if w > cur {
                    let t2 = Token::Text(lineno, data.substring_char(i + 1 + cur, j));
                    proof {
                        lemma_cover_push(
                            tokens@,
                            pending@,
                            dropped,
                            data@,
                            i + 1 + cur as int,
                            j as int,
                            t2,
                        );
                        assert(token_model(t2) == TokenModel::Text(
                            ln2,
                            data@.subrange(pre_i + 1 + scur, sj),
                        ));
                        lemma_model_push(tokens@, t2);
                    }
                    tokens.push(t2);
                } else {
                    proof {
                        lemma_cover_drop(
                            tokens@,
                            pending@,
                            dropped,
                            data@,
                            i + 1 + cur as int,
                            j as int,
                        );
                        dropped = dropped + data@.subrange(i + 1 + cur as int, j as int);
                    }
                }
                proof {
                    let head = spec_dedents(dc) + pre_pm + seq![
                        TokenModel::Text(pre_ln, seq!['\n']),
                    ] + extra;
                    assert(tokens_model(tokens@) =~= pre_tm + head);
                    lemma_seq_assoc(
                        pre_tm,
                        head,
                        spec_lex_at(data@, sj, ln2, ind2, false, Seq::<TokenModel>::empty()),
                    );
                    assert(tokens_model(pending@) =~= Seq::<TokenModel>::empty());
                    assert(indent_view(indent@) == ind2);
                }
                i = j;
            }
        } else if c == '(' {
            let mut j: usize = i + 1;
            while j < n && v[j] == ':'
                invariant
                    i + 1 <= j <= n,
                    n == v@.len(),
                    forall|k: int| i + 1 <= k < j ==> (#[trigger] v@[k]) == ':',
                decreases n - j,
            {
                j += 1;
            }
            let k = j - i - 1;
            proof {
                assert(data@[i as int] == '(');
                assert(!spec_literal_only(data@));
                lemma_colon_run_at(data@, pre_i + 1, j as int);
                assert(spec_colon_run(data@, pre_i + 1) == k as int);
            }
            if k >= 1 && k <= 256 {
                let t = Token::StartBlock(lineno, (k - 1) as u8);
                proof {
                    lemma_cover_structural(
                        tokens@,
                        pending@,
                        dropped,
                        data@,
                        i as int,
                        j as int,
                        t,
                    );
                    dropped = dropped + data@.subrange(i as int, j as int);
                    assert(token_model(t) == TokenModel::StartBlock(pre_ln, (k - 1) as u8));
                    lemma_model_push(tokens@, t);
                    lemma_step_start_block(data@, pre_i, pre_ln, pre_iv, pre_sr, pre_pm);
                    lemma_cons_assoc(
                        pre_tm,
                        TokenModel::StartBlock(pre_ln, (k - 1) as u8),
                        spec_lex_at(data@, j as int, pre_ln, pre_iv, pre_sr, pre_pm),
                    );
                }
                tokens.push(t);
                i = j;
            } else if k == 0 {
                let t = Token::GroupOpen(lineno);
                proof {
                    lemma_cover_structural(
                        tokens@,
                        pending@,
                        dropped,
                        data@,
                        i as int,
                        i + 1int,
                        t,
                    );
                    dropped = dropped + data@.subrange(i as int, i + 1int);
                    assert(token_model(t) == TokenModel::GroupOpen(pre_ln));
                    lemma_model_push(tokens@, t);
                    lemma_step_group_open(data@, pre_i, pre_ln, pre_iv, pre_sr, pre_pm);
                    lemma_cons_assoc(
                        pre_tm,
                        TokenModel::GroupOpen(pre_ln),
                        spec_lex_at(data@, pre_i + 1, pre_ln, pre_iv, pre_sr, pre_pm),
                    );
                }
                tokens.push(t);
                i = i + 1;
            } else {
                let t = Token::Text(lineno, data.substring_char(i, j));
                proof {
                    lemma_cover_push(tokens@, pending@, dropped, data@, i as int, j as int, t);
                    assert(token_model(t) == TokenModel::Text(
                        pre_ln,
                        data@.subrange(pre_i, j as int),
                    ));
                    lemma_model_push(tokens@, t);
                    lemma_step_open_text(data@, pre_i, pre_ln, pre_iv, pre_sr, pre_pm);
                    lemma_cons_assoc(
                        pre_tm,
                        TokenModel::Text(pre_ln, data@.subrange(pre_i, j as int)),
                        spec_lex_at(data@, j as int, pre_ln, pre_iv, pre_sr, pre_pm),
                    );
                }
                tokens.push(t);
                i = j;
            }
        } else if c == ':' {
            let mut j: usize = i + 1;
            while j < n && v[j] == ':'
                invariant
                    i + 1 <= j <= n,
                    n == v@.len(),
                    v@[i as int] == ':',
                    forall|k: int| i + 1 <= k < j ==> (#[trigger] v@[k]) == ':',
                decreases n - j,
            {
                j += 1;
            }
            let k = j - i;
            proof {
                lemma_colon_run_at(data@, pre_i + 1, j as int);
                assert(1 + spec_colon_run(data@, pre_i + 1) == k as int);
            }
            if j < n && v[j] == ')' && k <= 256 {
                let t = Token::RightParen((k - 1) as u8);
                proof {
                    assert(data@[j as int] == ')');
                    assert(!spec_literal_only(data@));
                    lemma_cover_structural(
                        tokens@,
                        pending@,
                        dropped,
                        data@,
                        i as int,
                        j + 1int,
                        t,
                    );
                    dropped = dropped + data@.subrange(i as int, j + 1int);
                    assert(token_model(t) == TokenModel::RightParen((k - 1) as u8));
                    lemma_model_push(tokens@, t);
                    lemma_step_right_paren(data@, pre_i, pre_ln, pre_iv, pre_sr, pre_pm);
                    lemma_cons_assoc(
                        pre_tm,
                        TokenModel::RightParen((k - 1) as u8),
                        spec_lex_at(data@, j + 1int, pre_ln, pre_iv, pre_sr, pre_pm),
                    );
                }
                tokens.push(t);
                i = j + 1;
            } else {
                let t = Token::Text(lineno, data.substring_char(i, j));
                proof {
                    lemma_cover_push(tokens@, pending@, dropped, data@, i as int, j as int, t);
                    assert(token_model(t) == TokenModel::Text(
                        pre_ln,
                        data@.subrange(pre_i, j as int),
                    ));
                    lemma_model_push(tokens@, t);
                    lemma_step_colon_text(data@, pre_i, pre_ln, pre_iv, pre_sr, pre_pm);
                    lemma_cons_assoc(
                        pre_tm,
                        TokenModel::Text(pre_ln, data@.subrange(pre_i, j as int)),
                        spec_lex_at(data@, j as int, pre_ln, pre_iv, pre_sr, pre_pm),
                    );
                }
                tokens.push(t);
                i = j;
            }
        } else if c == '"' {
            let t = Token::Quote(lineno);
            proof {
                assert(data@[i as int] == '"');
                assert(!spec_literal_only(data@));
                lemma_cover_structural(
                    tokens@,
                    pending@,
                    dropped,
                    data@,
                    i as int,
                    i + 1int,
                    t,
                );
                dropped = dropped + data@.subrange(i as int, i + 1int);
                assert(token_model(t) == TokenModel::Quote(pre_ln));
                lemma_model_push(tokens@, t);
                lemma_step_quote(data@, pre_i, pre_ln, pre_iv, pre_sr, pre_pm);
                lemma_cons_assoc(
                    pre_tm,
                    TokenModel::Quote(pre_ln),
                    spec_lex_at(data@, pre_i + 1, pre_ln, pre_iv, pre_sr, pre_pm),
                );
            }
            tokens.push(t);
            i = i + 1;
        } else if c == '=' {
            proof {
                assert(data@[i as int] == '=');
                assert(!spec_literal_only(data@));
            }
            if i + 1 < n && v[i + 1] == '>' {
                if i + 2 < n && v[i + 2] == '\n' {
                    let t = Token::Rocket(lineno);
                    proof {
                        assert(data@[i + 1int] == '>');
                        lemma_cover_structural(
                            tokens@,
                            pending@,
                            dropped,
                            data@,
                            i as int,
                            i + 2int,
                            t,
                        );
                        dropped = dropped + data@.subrange(i as int, i + 2int);
                        assert(token_model(t) == TokenModel::Rocket(pre_ln));
                        lemma_model_push(tokens@, t);
                        lemma_step_rocket_tok(data@, pre_i, pre_ln, pre_iv, pre_sr, pre_pm);
                        lemma_cons_assoc(
                            pre_tm,
                            TokenModel::Rocket(pre_ln),
                            spec_lex_at(data@, pre_i + 2, pre_ln, pre_iv, true, pre_pm),
                        );
                    }
                    tokens.push(t);
                    start_rocket = true;
                    i = i + 2;
                } else {
                    let t = Token::Text(lineno, data.substring_char(i, i + 2));
                    proof {
                        lemma_cover_push(
                            tokens@,
                            pending@,
                            dropped,
                            data@,
                            i as int,
                            i + 2int,
                            t,
                        );
                        assert(token_model(t) == TokenModel::Text(
                            pre_ln,
                            data@.subrange(pre_i, pre_i + 2),
                        ));
                        lemma_model_push(tokens@, t);
                        lemma_step_eq_text2(data@, pre_i, pre_ln, pre_iv, pre_sr, pre_pm);
                        lemma_cons_assoc(
                            pre_tm,
                            TokenModel::Text(pre_ln, data@.subrange(pre_i, pre_i + 2)),
                            spec_lex_at(data@, pre_i + 2, pre_ln, pre_iv, pre_sr, pre_pm),
                        );
                    }
                    tokens.push(t);
                    i = i + 2;
                }
            } else {
                let t = Token::Text(lineno, data.substring_char(i, i + 1));
                proof {
                    lemma_cover_push(
                        tokens@,
                        pending@,
                        dropped,
                        data@,
                        i as int,
                        i + 1int,
                        t,
                    );
                    assert(token_model(t) == TokenModel::Text(
                        pre_ln,
                        data@.subrange(pre_i, pre_i + 1),
                    ));
                    lemma_model_push(tokens@, t);
                    lemma_step_eq_text1(data@, pre_i, pre_ln, pre_iv, pre_sr, pre_pm);
                    lemma_cons_assoc(
                        pre_tm,
                        TokenModel::Text(pre_ln, data@.subrange(pre_i, pre_i + 1)),
                        spec_lex_at(data@, pre_i + 1, pre_ln, pre_iv, pre_sr, pre_pm),
                    );
                }
                tokens.push(t);
                i = i + 1;
            }
        } else if c == ')' {
            let t = Token::GroupClose;
            proof {
                assert(data@[i as int] == ')');
                assert(!spec_literal_only(data@));
                lemma_cover_structural(
                    tokens@,
                    pending@,
                    dropped,
                    data@,
                    i as int,
                    i + 1int,
                    t,
                );
                dropped = dropped + data@.subrange(i as int, i + 1int);
                assert(token_model(t) == TokenModel::GroupClose);
                lemma_model_push(tokens@, t);
                lemma_step_group_close(data@, pre_i, pre_ln, pre_iv, pre_sr, pre_pm);
                lemma_cons_assoc(
                    pre_tm,
                    TokenModel::GroupClose,
                    spec_lex_at(data@, pre_i + 1, pre_ln, pre_iv, pre_sr, pre_pm),
                );
            }
            tokens.push(t);
            i = i + 1;
        } else if is_space(c) {
            let mut j: usize = i + 1;
            while j < n && v[j] != '\n' && is_space(v[j])
                invariant
                    i + 1 <= j <= n,
                    n == v@.len(),
                    v@ == data@,
                    forall|k: int|
                        i + 1 <= k < j ==> (#[trigger] v@[k]) != '\n' && spec_is_space(v@[k]),
                decreases n - j,
            {
                j += 1;
            }
            proof {
                assert(data@[pre_i] != '\n' && spec_is_space(data@[pre_i]));
                assert forall|k: int| pre_i <= k < j as int implies (#[trigger] data@[k]) != '\n'
                    && spec_is_space(data@[k]) by {
                    if k > pre_i {
                        assert(v@[k] != '\n' && spec_is_space(v@[k]));
                    }
                }
                lemma_blank_run_at(data@, pre_i, j as int);
                assert(spec_blank_run(data@, pre_i) == j - pre_i);
            }
            let t = Token::Text(lineno, data.substring_char(i, j));
            proof {
                lemma_cover_push(tokens@, pending@, dropped, data@, i as int, j as int, t);
                assert(token_model(t) == TokenModel::Text(
                    pre_ln,
                    data@.subrange(pre_i, j as int),
                ));
                lemma_model_push(tokens@, t);
                lemma_step_space(data@, pre_i, pre_ln, pre_iv, pre_sr, pre_pm);
                lemma_cons_assoc(
                    pre_tm,
                    TokenModel::Text(pre_ln, data@.subrange(pre_i, j as int)),
                    spec_lex_at(data@, j as int, pre_ln, pre_iv, pre_sr, pre_pm),
                );
            }
            tokens.push(t);
            i = j;
        } else {
            let mut j: usize = i + 1;
            while j < n && v[j] != '(' && v[j] != ')' && v[j] != '"' && v[j] != '=' && v[j] != ':'
                && !is_space(v[j])
                invariant
                    i + 1 <= j <= n,
                    n == v@.len(),
                    v@ == data@,
                    forall|k: int|
                        i + 1 <= k < j ==> (#[trigger] v@[k]) != '(' && v@[k] != ')' && v@[k] != '"'
                            && v@[k] != '=' && v@[k] != ':' && !spec_is_space(v@[k]),
                decreases n - j,
            {
                j += 1;
            }
            proof {
                assert(data@[pre_i] != '(' && data@[pre_i] != ')' && data@[pre_i] != '"'
                    && data@[pre_i] != '=' && data@[pre_i] != ':' && !spec_is_space(data@[pre_i]));
                assert forall|k: int| pre_i <= k < j as int implies (#[trigger] data@[k]) != '('
                    && data@[k] != ')' && data@[k] != '"' && data@[k] != '=' && data@[k] != ':'
                    && !spec_is_space(data@[k]) by {
                    if k > pre_i {
                        assert(v@[k] != '(' && v@[k] != ')' && v@[k] != '"' && v@[k] != '='
                            && v@[k] != ':' && !spec_is_space(v@[k]));
                    }
                }
                lemma_word_run_at(data@, pre_i, j as int);
                assert(spec_word_run(data@, pre_i) == j - pre_i);
            }
            let t = Token::Text(lineno, data.substring_char(i, j));
            proof {
                lemma_cover_push(tokens@, pending@, dropped, data@, i as int, j as int, t);
                assert(token_model(t) == TokenModel::Text(
                    pre_ln,
                    data@.subrange(pre_i, j as int),
                ));
                lemma_model_push(tokens@, t);
                lemma_step_word(data@, pre_i, pre_ln, pre_iv, pre_sr, pre_pm);
                lemma_cons_assoc(
                    pre_tm,
                    TokenModel::Text(pre_ln, data@.subrange(pre_i, j as int)),
                    spec_lex_at(data@, j as int, pre_ln, pre_iv, pre_sr, pre_pm),
                );
            }
            tokens.push(t);
            i = j;
        }
    }
    proof {
        lemma_cover_flush(tokens@, pending@, dropped, data@, n as int);
        lemma_model_append(tokens@, pending@);
        assert(spec_lex_at(
            data@,
            n as int,
            lineno as int,
            indent_view(indent@),
            start_rocket,
            tokens_model(pending@),
        ) == tokens_model(pending@) + spec_dedents(indent_view(indent@).len() - 1));
        assert(indent_view(indent@).len() == indent@.len());
        assert(tokens_model(tokens@) + (tokens_model(pending@) + spec_dedents(
            indent@.len() - 1,
        )) =~= (tokens_model(tokens@) + tokens_model(pending@)) + spec_dedents(
            indent@.len() - 1,
        ));
    }
    tokens.append(&mut pending);
    while indent.len() > 1
        invariant
            indent@.len() >= 1,
            lex_cover(tokens@, pending@, dropped, data@, n as int),
            pending@.len() == 0,
            indent@.len() > 1 ==> !spec_literal_only(data@),
            n == v@.len(),
            v@ == data@,
            spec_lex(data@) == tokens_model(tokens@) + spec_dedents(indent@.len() - 1),
        decreases indent@.len(),
    {
        proof {
            lemma_dedents_shift(indent@.len() - 2);
            lemma_model_push(tokens@, Token::Dedent);
            lemma_cons_assoc(
                tokens_model(tokens@),
                TokenModel::Dedent,
                spec_dedents(indent@.len() - 2),
            );
        }
        indent.pop();
        proof {
            lemma_cover_structural(
                tokens@,
                pending@,
                dropped,
                data@,
                n as int,
                n as int,
                Token::Dedent,
            );
            assert(dropped + data@.subrange(n as int, n as int) =~= dropped);
        }
        tokens.push(Token::Dedent);
    }
    proof {
        assert(spec_dedents(0) =~= Seq::<TokenModel>::empty());
        assert(tokens_model(tokens@) + Seq::<TokenModel>::empty() =~= tokens_model(tokens@));
        assert(tokens_text(pending@) =~= Seq::<char>::empty());
        assert(data@.subrange(0, n as int) =~= data@);
        assert(is_interleaving(tokens_text(tokens@), dropped, data@));
        lemma_inter_subseq(tokens_text(tokens@), dropped, data@);
        if spec_literal_only(data@) {
            assert(dropped =~= Seq::<char>::empty());
            lemma_inter_empty_eq(tokens_text(tokens@), dropped, data@);
        }
    }
    tokens
}

} // verus!

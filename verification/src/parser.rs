//! Parser: hand-rolled recursive descent over the token stream, no
//! backtracking, a single left-to-right pass with a cursor index.
//!
//! Grammar:
//! ```text
//! program    := separator* form (separator* form)*
//! form       := '(' item* ')'
//! item       := form | literal | identifier | string | number | assignment | separator
//! assignment := '=' separator* identifier valueform
//! valueform  := form | literal | identifier | string | number
//! ```
//!
//! Every failure is a typed [`ParseError`] carrying the offending token (or,
//! for a missing close parenthesis, the line of the unmatched open paren),
//! so an embedding host can reject one malformed script without losing
//! process state.

use vstd::prelude::*;
use crate::ast::{AST, ASTNode, ASTValue, Ast, AstValue, lemma_model_seq_cons};
use crate::lexer::{Token, TokenInfo, TokenModel, stream_model};
use crate::types::Literal;

verus! {

/// A typed parse error. `MissingClose` carries the 1-based line of the
/// unmatched open parenthesis (or of the assignment whose input ran out);
/// the other variants carry the offending token.
#[derive(Debug)]
pub enum ParseError {
    UnexpectedClose(TokenInfo),
    MissingClose(u32),
    InvalidAssignmentValue(TokenInfo),
    UnimplementedSyntax(TokenInfo),
}

/// Mathematical model of a parse error.
pub ghost enum ParseErrorModel {
    UnexpectedClose(TokenModel),
    MissingClose(int),
    InvalidAssignmentValue(TokenModel),
    UnimplementedSyntax(TokenModel),
}

impl ParseError {
    /// The error as its mathematical model.
    pub open spec fn model(&self) -> ParseErrorModel {
        match self {
            ParseError::UnexpectedClose(t) => ParseErrorModel::UnexpectedClose(t.model()),
            ParseError::MissingClose(l) => ParseErrorModel::MissingClose(*l as int),
            ParseError::InvalidAssignmentValue(t) => ParseErrorModel::InvalidAssignmentValue(
                t.model(),
            ),
            ParseError::UnimplementedSyntax(t) => ParseErrorModel::UnimplementedSyntax(t.model()),
        }
    }
}

/// A parsed-node result as its mathematical model.
pub open spec fn node_result_model(r: Result<(ASTNode, usize), ParseError>) -> Result<
    (Ast, int),
    ParseErrorModel,
> {
    match r {
        Ok((n, j)) => Ok((n.model(), j as int)),
        Err(e) => Err(e.model()),
    }
}

/// A parsed-program result as its mathematical model.
pub open spec fn program_result_model(r: Result<AST, ParseError>) -> Result<
    Seq<Ast>,
    ParseErrorModel,
> {
    match r {
        Ok(ns) => Ok(ASTNode::model_seq(ns@)),
        Err(e) => Err(e.model()),
    }
}

/// A string literal's value: the matched span with the outer delimiter
/// characters stripped.
pub open spec fn strip_quotes(t: Seq<char>) -> Seq<char> {
    if t.len() >= 2 {
        t.subrange(1, t.len() - 1)
    } else {
        Seq::empty()
    }
}

/// Index of the first non-separator token at or after `i`.
pub open spec fn spec_skip_seps(ts: Seq<TokenModel>, i: int) -> int
    decreases ts.len() - i when 0 <= i <= ts.len()
{
    if i < ts.len() && ts[i].token is Sep {
        spec_skip_seps(ts, i + 1)
    } else {
        i
    }
}

proof fn lemma_skip_seps_bounds(ts: Seq<TokenModel>, i: int)
    requires
        0 <= i <= ts.len(),
    ensures
        i <= spec_skip_seps(ts, i) <= ts.len(),
    decreases ts.len() - i,
{
    if i < ts.len() && ts[i].token is Sep {
        lemma_skip_seps_bounds(ts, i + 1);
    }
}

/// Parse one item starting at `i`, skipping separators in place: a nested
/// form, an atom, or an assignment. `line` is the line of the innermost
/// open construct, used when the input runs out.
pub open spec fn spec_match_next(ts: Seq<TokenModel>, i: int, line: int) -> Result<
    (Ast, int),
    ParseErrorModel,
>
    decreases ts.len() - i, 2int when 0 <= i
    via spec_match_next_decreases
{
    if i >= ts.len() {
        Err(ParseErrorModel::MissingClose(line))
    } else {
        match ts[i].token {
            Token::Open => spec_form(ts, i),
            Token::Close => Err(ParseErrorModel::UnexpectedClose(ts[i])),
            Token::Dot => Err(ParseErrorModel::UnimplementedSyntax(ts[i])),
            Token::Error => Err(ParseErrorModel::UnimplementedSyntax(ts[i])),
            Token::Sep => spec_match_next(ts, i + 1, line),
            Token::Nil => Ok((Ast::Literal(Literal::Nil), i + 1)),
            Token::String => Ok((Ast::String(strip_quotes(ts[i].text)), i + 1)),
            Token::Number => Ok((Ast::Number(ts[i].text), i + 1)),
            Token::Id => Ok((Ast::Id(ts[i].text), i + 1)),
            Token::Equal => spec_equals(ts, i, line),
        }
    }
}

#[via_fn]
proof fn spec_match_next_decreases(ts: Seq<TokenModel>, i: int, line: int) {
}

/// Parse an assignment whose `=` stands at `i`: an identifier (separators
/// before it are skipped), then exactly one value-form. The bound name is
/// the identifier token's literal text. A right-hand side that is itself
/// an assignment is an invalid assignment value.
pub open spec fn spec_equals(ts: Seq<TokenModel>, i: int, line: int) -> Result<
    (Ast, int),
    ParseErrorModel,
>
    decreases ts.len() - i, 1int when 0 <= i
    via spec_equals_decreases
{
    if i + 1 > ts.len() {
        Err(ParseErrorModel::MissingClose(line))
    } else {
        let j = spec_skip_seps(ts, i + 1);
        if j >= ts.len() {
            Err(ParseErrorModel::MissingClose(line))
        } else if !(ts[j].token is Id) {
            Err(ParseErrorModel::InvalidAssignmentValue(ts[j]))
        } else {
            match spec_match_next(ts, j + 1, line) {
                Ok((node, k)) => match node {
                    Ast::Expression(x) => Ok(
                        (Ast::Equals(ts[j].text, AstValue::Expression(x)), k),
                    ),
                    Ast::Number(x) => Ok((Ast::Equals(ts[j].text, AstValue::Number(x)), k)),
                    Ast::String(x) => Ok((Ast::Equals(ts[j].text, AstValue::String(x)), k)),
                    Ast::Id(x) => Ok((Ast::Equals(ts[j].text, AstValue::Id(x)), k)),
                    Ast::Literal(l) => Ok((Ast::Equals(ts[j].text, AstValue::Literal(l)), k)),
                    Ast::Equals(_, _) => Err(ParseErrorModel::InvalidAssignmentValue(ts[i])),
                },
                Err(e) => Err(e),
            }
        }
    }
}

#[via_fn]
proof fn spec_equals_decreases(ts: Seq<TokenModel>, i: int, line: int) {
    if 0 <= i && i + 1 <= ts.len() {
        lemma_skip_seps_bounds(ts, i + 1);
    }
}

/// Parse a parenthesized form whose `(` stands at `i`: its items up to and
/// including the matching close parenthesis.
pub open spec fn spec_form(ts: Seq<TokenModel>, i: int) -> Result<(Ast, int), ParseErrorModel>
    decreases ts.len() - i, 0int when 0 <= i < ts.len()
{
    match spec_items(ts, i + 1, ts[i].line) {
        Ok((items, k)) => Ok((Ast::Expression(items), k)),
        Err(e) => Err(e),
    }
}

/// Parse the items of a form from `i` until the matching close
/// parenthesis; `line` is the line of the form's open parenthesis.
/// Running out of tokens first is a missing-close error at that line.
pub open spec fn spec_items(ts: Seq<TokenModel>, i: int, line: int) -> Result<
    (Seq<Ast>, int),
    ParseErrorModel,
>
    decreases ts.len() - i, 3int when 0 <= i
{
    if i >= ts.len() {
        Err(ParseErrorModel::MissingClose(line))
    } else {
        match ts[i].token {
            Token::Close => Ok((Seq::empty(), i + 1)),
            Token::Sep => spec_items(ts, i + 1, line),
            _ => match spec_match_next(ts, i, line) {
                Ok((node, j)) => {
                    // The guard keeps the recursion well founded; a parsed
                    // item always advances the cursor, so it never fires.
                    let j2 = if i < j <= ts.len() {
                        j
                    } else {
                        i + 1
                    };
                    match spec_items(ts, j2, line) {
                        Ok((rest, k)) => Ok((seq![node] + rest, k)),
                        Err(e) => Err(e),
                    }
                },
                Err(e) => Err(e),
            },
        }
    }
}

/// Parse a whole program: separators between forms are skipped, and forms
/// are parsed until the token stream is exhausted. A stray close
/// parenthesis is an unexpected-close error; any other top-level
/// non-form token is unimplemented syntax.
pub open spec fn spec_program(ts: Seq<TokenModel>, i: int) -> Result<Seq<Ast>, ParseErrorModel>
    decreases ts.len() - i, 4int when 0 <= i
{
    if i >= ts.len() {
        Ok(Seq::empty())
    } else {
        match ts[i].token {
            Token::Sep => spec_program(ts, i + 1),
            Token::Open => match spec_form(ts, i) {
                Ok((node, j)) => {
                    // The guard keeps the recursion well founded; a parsed
                    // form always advances the cursor, so it never fires.
                    let j2 = if i < j <= ts.len() {
                        j
                    } else {
                        i + 1
                    };
                    match spec_program(ts, j2) {
                        Ok(rest) => Ok(seq![node] + rest),
                        Err(e) => Err(e),
                    }
                },
                Err(e) => Err(e),
            },
            Token::Close => Err(ParseErrorModel::UnexpectedClose(ts[i])),
            _ => Err(ParseErrorModel::UnimplementedSyntax(ts[i])),
        }
    }
}

proof fn lemma_match_next_advances(ts: Seq<TokenModel>, i: int, line: int)
    requires
        0 <= i,
    ensures
        match spec_match_next(ts, i, line) {
            Ok((n, j)) => i < j <= ts.len(),
            Err(_) => true,
        },
    decreases ts.len() - i, 2int,
{
    if i < ts.len() {
        match ts[i].token {
            Token::Open => {
                lemma_form_advances(ts, i);
            },
            Token::Sep => {
                lemma_match_next_advances(ts, i + 1, line);
            },
            Token::Equal => {
                lemma_equals_advances(ts, i, line);
            },
            _ => {
            },
        }
    }
}

proof fn lemma_equals_advances(ts: Seq<TokenModel>, i: int, line: int)
    requires
        0 <= i,
    ensures
        match spec_equals(ts, i, line) {
            Ok((n, j)) => i < j <= ts.len(),
            Err(_) => true,
        },
    decreases ts.len() - i, 1int,
{
    if i + 1 <= ts.len() {
        lemma_skip_seps_bounds(ts, i + 1);
        let j = spec_skip_seps(ts, i + 1);
        if j < ts.len() && ts[j].token is Id {
            lemma_match_next_advances(ts, j + 1, line);
        }
    }
}

proof fn lemma_form_advances(ts: Seq<TokenModel>, i: int)
    requires
        0 <= i < ts.len(),
    ensures
        match spec_form(ts, i) {
            Ok((n, j)) => i < j <= ts.len(),
            Err(_) => true,
        },
    decreases ts.len() - i, 0int,
{
    lemma_items_advance(ts, i + 1, ts[i].line);
}

proof fn lemma_items_advance(ts: Seq<TokenModel>, i: int, line: int)
    requires
        0 <= i,
    ensures
        match spec_items(ts, i, line) {
            Ok((s, k)) => i < k <= ts.len(),
            Err(_) => true,
        },
    decreases ts.len() - i, 3int,
{
    if i < ts.len() {
        match ts[i].token {
            Token::Close => {
            },
            Token::Sep => {
                lemma_items_advance(ts, i + 1, line);
            },
            _ => {
                lemma_match_next_advances(ts, i, line);
                match spec_match_next(ts, i, line) {
                    Ok((node, j)) => {
                        lemma_items_advance(ts, j, line);
                    },
                    Err(_) => {
                    },
                }
            },
        }
    }
}

} // verus!

verus! {

/// An items-list result as its mathematical model.
pub open spec fn items_result_model(r: Result<(AST, usize), ParseError>) -> Result<
    (Seq<Ast>, int),
    ParseErrorModel,
> {
    match r {
        Ok((ns, k)) => Ok((ASTNode::model_seq(ns@), k as int)),
        Err(e) => Err(e.model()),
    }
}

/// First non-separator position at or after `i`.
fn skip_seps(toks: &Vec<TokenInfo>, i: usize) -> (r: usize)
    requires
        i <= toks@.len(),
    ensures
        r as int == spec_skip_seps(stream_model(toks@), i as int),
        i <= r <= toks@.len(),
{
    let ghost ts = stream_model(toks@);
    let n = toks.len();
    let mut j = i;
    loop
        invariant
            i <= j <= n,
            n == toks@.len(),
            ts == stream_model(toks@),
            spec_skip_seps(ts, i as int) == spec_skip_seps(ts, j as int),
        ensures
            j >= n || !(ts[j as int].token is Sep),
        decreases n - j,
    {
        if j >= n {
            break ;
        }
        if !(toks[j].token == Token::Sep) {
            break ;
        }
        proof {
            assert(spec_skip_seps(ts, j as int) == spec_skip_seps(ts, j + 1 as int));
        }
        j += 1;
    }
    proof {
        assert(spec_skip_seps(ts, j as int) == j as int);
    }
    j
}

/// Consume one identifier token: the node carrying its literal text, and
/// the position just past it.
pub fn id(toks: &Vec<TokenInfo>, index: usize) -> (r: (ASTNode, usize))
    requires
        index < toks@.len(),
        toks@[index as int].token is Id,
    ensures
        r.0.model() == Ast::Id(toks@[index as int].string@),
        r.1 == index + 1,
{
    let _n: usize = toks.len();
    let x = &toks[index].string;
    (ASTNode::Id(x.clone()), index + 1)
}

/// Consume one string token: the node carrying the matched span with the
/// outer delimiter characters stripped, and the position just past it.
pub fn string(toks: &Vec<TokenInfo>, index: usize) -> (r: (ASTNode, usize))
    requires
        index < toks@.len(),
        toks@[index as int].token is String,
    ensures
        r.0.model() == Ast::String(strip_quotes(toks@[index as int].string@)),
        r.1 == index + 1,
{
    let _n: usize = toks.len();
    let x = &toks[index].string;
    let n = x.as_str().unicode_len();
    if n >= 2 {
        let v = x.as_str().substring_char(1, n - 1).to_owned();
        (ASTNode::String(v), index + 1)
    } else {
        (ASTNode::String(std::string::String::new()), index + 1)
    }
}

/// Consume one number token: the node carrying its exact literal text
/// (numeric interpretation is the host's business), and the position just
/// past it.
pub fn number(toks: &Vec<TokenInfo>, index: usize) -> (r: (ASTNode, usize))
    requires
        index < toks@.len(),
        toks@[index as int].token is Number,
    ensures
        r.0.model() == Ast::Number(toks@[index as int].string@),
        r.1 == index + 1,
{
    let _n: usize = toks.len();
    let x = &toks[index].string;
    (ASTNode::Number(x.clone()), index + 1)
}

/// Parse an assignment whose `=` stands at `index`; `open_line` is the
/// line of the innermost open construct, used when the input runs out.
pub fn equals(toks: &Vec<TokenInfo>, index: usize, open_line: u32) -> (r: Result<
    (ASTNode, usize),
    ParseError,
>)
    requires
        index < toks@.len(),
        toks@[index as int].token is Equal,
    ensures
        node_result_model(r) == spec_equals(stream_model(toks@), index as int, open_line as int),
    decreases toks@.len() - index, 1int,
{
    let ghost ts = stream_model(toks@);
    let _n: usize = toks.len();
    let j = skip_seps(toks, index + 1);
    if j >= toks.len() {
        return Err(ParseError::MissingClose(open_line));
    }
    if !(toks[j].token == Token::Id) {
        return Err(ParseError::InvalidAssignmentValue(toks[j].clone()));
    }
    let varname = toks[j].string.clone();
    match match_next(toks, j + 1, open_line) {
        Ok((anode, k)) => {
            let astval = match anode {
                ASTNode::Expression(x) => ASTValue::Expression(x),
                ASTNode::Number(x) => ASTValue::Number(x),
                ASTNode::String(x) => ASTValue::String(x),
                ASTNode::Id(x) => ASTValue::Id(x),
                ASTNode::Literal(l) => ASTValue::Literal(l),
                ASTNode::Equals(_, _) => {
                    return Err(ParseError::InvalidAssignmentValue(toks[index].clone()));
                },
            };
            Ok((ASTNode::Equals(varname, astval), k))
        },
        Err(e) => Err(e),
    }
}

/// Parse one item starting at `i`, skipping separators in place;
/// `open_line` is the line of the innermost open construct.
pub fn match_next(toks: &Vec<TokenInfo>, i: usize, open_line: u32) -> (r: Result<
    (ASTNode, usize),
    ParseError,
>)
    ensures
        node_result_model(r) == spec_match_next(
            stream_model(toks@),
            i as int,
            open_line as int,
        ),
    decreases toks@.len() - i, 2int,
{
    if i >= toks.len() {
        return Err(ParseError::MissingClose(open_line));
    }
    let t = &toks[i];
    match t.token {
        Token::Open => expr(toks, i),
        Token::Close => Err(ParseError::UnexpectedClose(t.clone())),
        Token::Dot => Err(ParseError::UnimplementedSyntax(t.clone())),
        Token::Error => Err(ParseError::UnimplementedSyntax(t.clone())),
        Token::Sep => match_next(toks, i + 1, open_line),
        Token::Nil => Ok((ASTNode::Literal(Literal::Nil), i + 1)),
        Token::String => {
            let (n, j) = string(toks, i);
            Ok((n, j))
        },
        Token::Number => {
            let (n, j) = number(toks, i);
            Ok((n, j))
        },
        Token::Id => {
            let (n, j) = id(toks, i);
            Ok((n, j))
        },
        Token::Equal => equals(toks, i, open_line),
    }
}

/// Parse the items of a form from `i` until the matching close
/// parenthesis; `open_line` is the line of the form's open parenthesis.
fn expr_items(toks: &Vec<TokenInfo>, i: usize, open_line: u32) -> (r: Result<
    (AST, usize),
    ParseError,
>)
    ensures
        items_result_model(r) == spec_items(stream_model(toks@), i as int, open_line as int),
    decreases toks@.len() - i, 3int,
{
    let ghost ts = stream_model(toks@);
    if i >= toks.len() {
        return Err(ParseError::MissingClose(open_line));
    }
    if toks[i].token == Token::Close {
        let out: AST = Vec::new();
        proof {
            assert(ASTNode::model_seq(out@) =~= Seq::<Ast>::empty());
        }
        return Ok((out, i + 1));
    }
    if toks[i].token == Token::Sep {
        return expr_items(toks, i + 1, open_line);
    }
    match match_next(toks, i, open_line) {
        Ok((node, j)) => {
            proof {
                lemma_match_next_advances(ts, i as int, open_line as int);
            }
            match expr_items(toks, j, open_line) {
                Ok((rest, k)) => {
                    let ghost grest = rest@;
                    let ghost gnode = node;
                    let mut out = rest;
                    out.insert(0, node);
                    proof {
                        assert(out@ =~= seq![gnode] + grest);
                        lemma_model_seq_cons(gnode, grest);
                    }
                    Ok((out, k))
                },
                Err(e) => Err(e),
            }
        },
        Err(e) => Err(e),
    }
}

/// Parse a parenthesized form whose `(` stands at `index`: its items up
/// to and including the matching close parenthesis, and the position just
/// past it.
pub fn expr(toks: &Vec<TokenInfo>, index: usize) -> (r: Result<(ASTNode, usize), ParseError>)
    requires
        index < toks@.len(),
        toks@[index as int].token is Open,
    ensures
        node_result_model(r) == spec_form(stream_model(toks@), index as int),
    decreases toks@.len() - index, 0int,
{
    let _n: usize = toks.len();
    let line = toks[index].line;
    match expr_items(toks, index + 1, line) {
        Ok((items, k)) => Ok((ASTNode::Expression(items), k)),
        Err(e) => Err(e),
    }
}

fn parse_program(toks: &Vec<TokenInfo>, i: usize) -> (r: Result<AST, ParseError>)
    ensures
        program_result_model(r) == spec_program(stream_model(toks@), i as int),
    decreases toks@.len() - i, 4int,
{
    let ghost ts = stream_model(toks@);
    if i >= toks.len() {
        let out: AST = Vec::new();
        proof {
            assert(ASTNode::model_seq(out@) =~= Seq::<Ast>::empty());
        }
        return Ok(out);
    }
    if toks[i].token == Token::Sep {
        return parse_program(toks, i + 1);
    }
    if toks[i].token == Token::Open {
        match expr(toks, i) {
            Ok((node, j)) => {
                proof {
                    lemma_form_advances(ts, i as int);
                }
                match parse_program(toks, j) {
                    Ok(rest) => {
                        let ghost grest = rest@;
                        let ghost gnode = node;
                        let mut out = rest;
                        out.insert(0, node);
                        proof {
                            assert(out@ =~= seq![gnode] + grest);
                            lemma_model_seq_cons(gnode, grest);
                        }
                        Ok(out)
                    },
                    Err(e) => Err(e),
                }
            },
            Err(e) => Err(e),
        }
    } else if toks[i].token == Token::Close {
        Err(ParseError::UnexpectedClose(toks[i].clone()))
    } else {
        Err(ParseError::UnimplementedSyntax(toks[i].clone()))
    }
}

/// Parse a whole program: the full ordered sequence of top-level forms
/// read from the token stream, or the first typed parse error.
pub fn parse(toks: Vec<TokenInfo>) -> (r: Result<AST, ParseError>)
    ensures
        program_result_model(r) == spec_program(stream_model(toks@), 0),
{
    parse_program(&toks, 0)
}

/// Law: parsing is deterministic. Two parses of the same token sequence
/// yield structurally identical results, because each is pinned to the
/// same mathematical parse of that sequence.
pub proof fn lemma_parse_deterministic(
    ts: Seq<TokenModel>,
    r1: Result<Seq<Ast>, ParseErrorModel>,
    r2: Result<Seq<Ast>, ParseErrorModel>,
)
    requires
        r1 == spec_program(ts, 0),
        r2 == spec_program(ts, 0),
    ensures
        r1 == r2,
{
}

} // verus!

verus! {

/// Some token of the stream is an open parenthesis starting at line `l`.
pub open spec fn has_open_at_line(ts: Seq<TokenModel>, l: int) -> bool {
    exists|j: int| 0 <= j < ts.len() && (#[trigger] ts[j]).token is Open && ts[j].line == l
}

proof fn lemma_mc_match_next(ts: Seq<TokenModel>, i: int, line: int)
    requires
        0 <= i,
    ensures
        match spec_match_next(ts, i, line) {
            Err(ParseErrorModel::MissingClose(l)) => l == line || has_open_at_line(ts, l),
            _ => true,
        },
    decreases ts.len() - i, 2int,
{
    if i < ts.len() {
        match ts[i].token {
            Token::Open => {
                lemma_mc_form(ts, i);
            },
            Token::Sep => {
                lemma_mc_match_next(ts, i + 1, line);
            },
            Token::Equal => {
                lemma_mc_equals(ts, i, line);
            },
            _ => {
            },
        }
    }
}

proof fn lemma_mc_equals(ts: Seq<TokenModel>, i: int, line: int)
    requires
        0 <= i,
    ensures
        match spec_equals(ts, i, line) {
            Err(ParseErrorModel::MissingClose(l)) => l == line || has_open_at_line(ts, l),
            _ => true,
        },
    decreases ts.len() - i, 1int,
{
    if i + 1 <= ts.len() {
        lemma_skip_seps_bounds(ts, i + 1);
        let j = spec_skip_seps(ts, i + 1);
        if j < ts.len() && ts[j].token is Id {
            lemma_mc_match_next(ts, j + 1, line);
        }
    }
}

proof fn lemma_mc_form(ts: Seq<TokenModel>, i: int)
    requires
        0 <= i < ts.len(),
        ts[i].token is Open,
    ensures
        match spec_form(ts, i) {
            Err(ParseErrorModel::MissingClose(l)) => has_open_at_line(ts, l),
            _ => true,
        },
    decreases ts.len() - i, 0int,
{
    lemma_mc_items(ts, i + 1, ts[i].line);
    match spec_form(ts, i) {
        Err(ParseErrorModel::MissingClose(l)) => {
            if l == ts[i].line {
                assert(0 <= i < ts.len() && ts[i].token is Open && ts[i].line == l);
            }
        },
        _ => {
        },
    }
}

proof fn lemma_mc_items(ts: Seq<TokenModel>, i: int, line: int)
    requires
        0 <= i,
    ensures
        match spec_items(ts, i, line) {
            Err(ParseErrorModel::MissingClose(l)) => l == line || has_open_at_line(ts, l),
            _ => true,
        },
    decreases ts.len() - i, 3int,
{
    if i < ts.len() {
        match ts[i].token {
            Token::Close => {
            },
            Token::Sep => {
                lemma_mc_items(ts, i + 1, line);
            },
            _ => {
                lemma_mc_match_next(ts, i, line);
                match spec_match_next(ts, i, line) {
                    Ok((node, j)) => {
                        let j2 = if i < j <= ts.len() {
                            j
                        } else {
                            i + 1
                        };
                        lemma_mc_items(ts, j2, line);
                    },
                    Err(_) => {
                    },
                }
            },
        }
    }
}

proof fn lemma_mc_program(ts: Seq<TokenModel>, i: int)
    requires
        0 <= i,
    ensures
        match spec_program(ts, i) {
            Err(ParseErrorModel::MissingClose(l)) => has_open_at_line(ts, l),
            _ => true,
        },
    decreases ts.len() - i, 4int,
{
    if i < ts.len() {
        match ts[i].token {
            Token::Sep => {
                lemma_mc_program(ts, i + 1);
            },
            Token::Open => {
                lemma_mc_form(ts, i);
                match spec_form(ts, i) {
                    Ok((node, j)) => {
                        let j2 = if i < j <= ts.len() {
                            j
                        } else {
                            i + 1
                        };
                        lemma_mc_program(ts, j2);
                    },
                    Err(_) => {
                    },
                }
            },
            _ => {
            },
        }
    }
}

/// Law: whenever parsing a whole program fails with a missing close
/// parenthesis, the reported line is the starting line of an open
/// parenthesis actually present in the token stream — the unmatched `(`
/// is referenced by its correct line, and the failure is an ordinary
/// typed result, not a process abort.
pub proof fn lemma_missing_close_names_open_line(ts: Seq<TokenModel>, l: int)
    requires
        spec_program(ts, 0) == Err::<Seq<Ast>, ParseErrorModel>(ParseErrorModel::MissingClose(l)),
    ensures
        has_open_at_line(ts, l),
{
    lemma_mc_program(ts, 0);
}

} // verus!

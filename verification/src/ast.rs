//! AST node types produced by the parser, with their mathematical models.

use vstd::prelude::*;
use crate::types::Literal;

verus! {

/// A node of the syntax tree: a parenthesized form, an assignment, or an
/// atom. An `Expression` exclusively owns its children.
pub enum ASTNode {
    Expression(AST),
    Equals(std::string::String, ASTValue),
    Number(std::string::String),
    String(std::string::String),
    Id(std::string::String),
    Literal(Literal),
}

/// The node kinds usable as an assignment's right-hand side: everything
/// but another assignment.
pub enum ASTValue {
    Number(std::string::String),
    String(std::string::String),
    Id(std::string::String),
    Expression(AST),
    Literal(Literal),
}

/// An ordered sequence of top-level nodes, for example the children of a
/// form or the whole program.
pub type AST = Vec<ASTNode>;

/// Mathematical model of an AST node.
pub ghost enum Ast {
    Expression(Seq<Ast>),
    Equals(Seq<char>, AstValue),
    Number(Seq<char>),
    String(Seq<char>),
    Id(Seq<char>),
    Literal(Literal),
}

/// Mathematical model of an assignment's right-hand side.
pub ghost enum AstValue {
    Number(Seq<char>),
    String(Seq<char>),
    Id(Seq<char>),
    Expression(Seq<Ast>),
    Literal(Literal),
}

impl ASTNode {
    /// The node as its mathematical model.
    pub open spec fn model(&self) -> Ast
        decreases self,
    {
        match self {
            ASTNode::Expression(ns) => Ast::Expression(ASTNode::model_seq(ns@)),
            ASTNode::Equals(n, v) => Ast::Equals(n@, v.model()),
            ASTNode::Number(t) => Ast::Number(t@),
            ASTNode::String(t) => Ast::String(t@),
            ASTNode::Id(t) => Ast::Id(t@),
            ASTNode::Literal(l) => Ast::Literal(*l),
        }
    }

    /// The models of a sequence of nodes, in order.
    pub open spec fn model_seq(s: Seq<ASTNode>) -> Seq<Ast>
        decreases s,
    {
        if s.len() == 0 {
            Seq::empty()
        } else {
            seq![s[0].model()] + ASTNode::model_seq(s.drop_first())
        }
    }
}

impl ASTValue {
    /// The right-hand side as its mathematical model.
    pub open spec fn model(&self) -> AstValue
        decreases self,
    {
        match self {
            ASTValue::Number(t) => AstValue::Number(t@),
            ASTValue::String(t) => AstValue::String(t@),
            ASTValue::Id(t) => AstValue::Id(t@),
            ASTValue::Expression(ns) => AstValue::Expression(ASTNode::model_seq(ns@)),
            ASTValue::Literal(l) => AstValue::Literal(*l),
        }
    }
}

/// The model of a node sequence, element by element.
pub proof fn lemma_model_seq_index(s: Seq<ASTNode>, i: int)
    requires
        0 <= i < s.len(),
    ensures
        ASTNode::model_seq(s).len() == s.len(),
        ASTNode::model_seq(s)[i] == s[i].model(),
    decreases s,
{
    lemma_model_seq_len(s);
    if i > 0 {
        lemma_model_seq_index(s.drop_first(), i - 1);
    }
}

/// The model of a node sequence has the same length.
pub proof fn lemma_model_seq_len(s: Seq<ASTNode>)
    ensures
        ASTNode::model_seq(s).len() == s.len(),
    decreases s,
{
    if s.len() > 0 {
        lemma_model_seq_len(s.drop_first());
    }
}

/// Prepending a node prepends its model.
pub proof fn lemma_model_seq_cons(n: ASTNode, s: Seq<ASTNode>)
    ensures
        ASTNode::model_seq(seq![n] + s) == seq![n.model()] + ASTNode::model_seq(s),
{
    let whole = seq![n] + s;
    assert(whole.len() == s.len() + 1);
    assert(whole[0] == n);
    assert(whole.drop_first() =~= s);
    assert(ASTNode::model_seq(whole) == seq![whole[0].model()] + ASTNode::model_seq(
        whole.drop_first(),
    ));
}

} // verus!

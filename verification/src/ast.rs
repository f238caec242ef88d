use vstd::prelude::*;
use crate::token::{Symbol, Keyword};
use crate::unicode::views_of;

verus! {

/// One node of the abstract syntax tree.  Every composite node exclusively
/// owns its children; the tree has no cycles and no shared ownership.
#[derive(Debug, PartialEq)]
pub enum AstNode {
    /// A binary operation; assignment is also a binary node.
    Binary { lhs: Box<AstNode>, op: Symbol, rhs: Box<AstNode> },
    /// A unary operation.
    Unary { op: Symbol, operand: Box<AstNode> },
    /// A function call.
    Call { target: Box<AstNode>, arguments: Vec<AstNode> },
    /// A code block; a block is an expression because it evaluates to a value.
    Block { body: Vec<AstNode> },
    /// A literal.
    Literal(Literal),
    /// A `const` or `let` declaration.
    Declaration { op: Keyword, id: String, value: Box<AstNode> },
    /// An `if` expression; its grammar rule is reserved but unbuilt.
    If { condition: Box<AstNode>, body: Box<AstNode>, else_body: Option<Box<AstNode>> },
    /// A `while` expression; its grammar rule is reserved but unbuilt.
    While { condition: Box<AstNode>, body: Box<AstNode> },
    /// A `when` expression; reserved.
    When,
    /// A `break`, `return` or `continue`, with its payload.
    Jump { op: Keyword, result: Box<AstNode> },
    /// A `typeof` operation.
    Typeof { operand: Box<AstNode> },
    /// A reference to a name.
    Identifier(String),
    /// A field access.
    Access { target: Box<AstNode>, field: String },
}

/// A literal value.  A `Double` carries the literal source text of the
/// numeric run; turning it into a floating-point value is left to unverified
/// consumers.
#[derive(Debug, PartialEq)]
pub enum Literal {
    Unit,
    Int(i32),
    Double(String),
    String(String),
    Bool(bool),
    /// A struct value literal: field names with their value expressions, in
    /// source order.
    Struct(Vec<(String, AstNode)>),
    /// A struct type literal: field names with their type expressions, in
    /// source order.
    StructType(Vec<(String, AstNode)>),
    /// A function literal.
    Fn { param_names: Vec<String>, body: Box<AstNode> },
    /// A function type literal; reserved.
    FnType { param_types: Vec<AstNode>, ret: Box<AstNode> },
}

/// The mathematical value of an AST node.
pub enum AstS {
    Binary { lhs: Box<AstS>, op: Symbol, rhs: Box<AstS> },
    Unary { op: Symbol, operand: Box<AstS> },
    Call { target: Box<AstS>, arguments: Seq<AstS> },
    Block { body: Seq<AstS> },
    Literal(LiteralS),
    Declaration { op: Keyword, id: Seq<char>, value: Box<AstS> },
    If { condition: Box<AstS>, body: Box<AstS>, else_body: Option<Box<AstS>> },
    While { condition: Box<AstS>, body: Box<AstS> },
    When,
    Jump { op: Keyword, result: Box<AstS> },
    Typeof { operand: Box<AstS> },
    Identifier(Seq<char>),
    Access { target: Box<AstS>, field: Seq<char> },
}

/// The mathematical value of a literal.
pub enum LiteralS {
    Unit,
    Int(i32),
    Double(Seq<char>),
    String(Seq<char>),
    Bool(bool),
    Struct(Seq<(Seq<char>, AstS)>),
    StructType(Seq<(Seq<char>, AstS)>),
    Fn { param_names: Seq<Seq<char>>, body: Box<AstS> },
    FnType { param_types: Seq<AstS>, ret: Box<AstS> },
}

/// The value of an AST node.
pub open spec fn ast_view(n: AstNode) -> AstS
    decreases n,
{
    match n {
        AstNode::Binary { lhs, op, rhs } => AstS::Binary {
            lhs: Box::new(ast_view(*lhs)),
            op,
            rhs: Box::new(ast_view(*rhs)),
        },
        AstNode::Unary { op, operand } => AstS::Unary { op, operand: Box::new(ast_view(*operand)) },
        AstNode::Call { target, arguments } => AstS::Call {
            target: Box::new(ast_view(*target)),
            arguments: {
                proof {
                    assert(decreases_to!(n => arguments));
                    vstd::std_specs::vec::axiom_vec_decreases_to_view(arguments);
                    assert(decreases_to!(n => arguments@));
                }
                ast_list_view(arguments@)
            },
        },
        AstNode::Block { body } => AstS::Block {
            body: {
                proof {
                    assert(decreases_to!(n => body));
                    vstd::std_specs::vec::axiom_vec_decreases_to_view(body);
                    assert(decreases_to!(n => body@));
                }
                ast_list_view(body@)
            },
        },
        AstNode::Literal(lit) => AstS::Literal(lit_view(lit)),
        AstNode::Declaration { op, id, value } => AstS::Declaration {
            op,
            id: id@,
            value: Box::new(ast_view(*value)),
        },
        AstNode::If { condition, body, else_body } => AstS::If {
            condition: Box::new(ast_view(*condition)),
            body: Box::new(ast_view(*body)),
            else_body: match else_body {
                Some(e) => Some(Box::new(ast_view(*e))),
                None => None,
            },
        },
        AstNode::While { condition, body } => AstS::While {
            condition: Box::new(ast_view(*condition)),
            body: Box::new(ast_view(*body)),
        },
        AstNode::When => AstS::When,
        AstNode::Jump { op, result } => AstS::Jump { op, result: Box::new(ast_view(*result)) },
        AstNode::Typeof { operand } => AstS::Typeof { operand: Box::new(ast_view(*operand)) },
        AstNode::Identifier(s) => AstS::Identifier(s@),
        AstNode::Access { target, field } => AstS::Access {
            target: Box::new(ast_view(*target)),
            field: field@,
        },
    }
}

/// The value of a literal.
pub open spec fn lit_view(lit: Literal) -> LiteralS
    decreases lit,
{
    match lit {
        Literal::Unit => LiteralS::Unit,
        Literal::Int(n) => LiteralS::Int(n),
        Literal::Double(s) => LiteralS::Double(s@),
        Literal::String(s) => LiteralS::String(s@),
        Literal::Bool(b) => LiteralS::Bool(b),
        Literal::Struct(fields) => LiteralS::Struct(
            {
                proof {
                    assert(decreases_to!(lit => fields));
                    vstd::std_specs::vec::axiom_vec_decreases_to_view(fields);
                    assert(decreases_to!(lit => fields@));
                }
                ast_pairs_view(fields@)
            },
        ),
        Literal::StructType(fields) => LiteralS::StructType(
            {
                proof {
                    assert(decreases_to!(lit => fields));
                    vstd::std_specs::vec::axiom_vec_decreases_to_view(fields);
                    assert(decreases_to!(lit => fields@));
                }
                ast_pairs_view(fields@)
            },
        ),
        Literal::Fn { param_names, body } => LiteralS::Fn {
            param_names: views_of(param_names@),
            body: Box::new(ast_view(*body)),
        },
        Literal::FnType { param_types, ret } => LiteralS::FnType {
            param_types: {
                proof {
                    assert(decreases_to!(lit => param_types));
                    vstd::std_specs::vec::axiom_vec_decreases_to_view(param_types);
                    assert(decreases_to!(lit => param_types@));
                }
                ast_list_view(param_types@)
            },
            ret: Box::new(ast_view(*ret)),
        },
    }
}

/// The values of a sequence of AST nodes.
pub open spec fn ast_list_view(s: Seq<AstNode>) -> Seq<AstS>
    decreases s,
{
    if s.len() == 0 {
        Seq::empty()
    } else {
        proof {
            vstd::seq::axiom_seq_len_decreases(s, s.drop_last());
            vstd::seq::axiom_seq_index_decreases(s, s.len() - 1);
        }
        ast_list_view(s.drop_last()).push(ast_view(s.last()))
    }
}

/// The values of a sequence of named AST nodes.
pub open spec fn ast_pairs_view(s: Seq<(String, AstNode)>) -> Seq<(Seq<char>, AstS)>
    decreases s,
{
    if s.len() == 0 {
        Seq::empty()
    } else {
        proof {
            vstd::seq::axiom_seq_len_decreases(s, s.drop_last());
            vstd::seq::axiom_seq_index_decreases(s, s.len() - 1);
            assert(decreases_to!(s.last() => s.last().1));
            assert(decreases_to!(s => s.last().1));
        }
        ast_pairs_view(s.drop_last()).push((s.last().0@, ast_view(s.last().1)))
    }
}

impl View for AstNode {
    type V = AstS;

    open spec fn view(&self) -> AstS {
        ast_view(*self)
    }
}

impl View for Literal {
    type V = LiteralS;

    open spec fn view(&self) -> LiteralS {
        lit_view(*self)
    }
}

} // verus!

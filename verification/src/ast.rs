//! The abstract syntax tree the parser builds.
//!
//! An `AST` node is a tagged union: a literal leaf, an n-ary operator
//! application, a reassignment, or one of the statement forms (`let`, `fn`,
//! `return`, `if`, `print`).  Nodes are built bottom-up during parsing and
//! never mutated afterwards.  In specifications a tree is seen as a
//! `SpecAst`.

use vstd::prelude::*;

use crate::numeral::{Numeral, SpecNumeral};

verus! {

/// Operator kinds: binary, unary and postfix operators, grouping, call,
/// index, assignment, and the built-ins realized as pseudo-operators.
#[derive(Clone, Copy, PartialEq, Eq, Structural, Debug)]
pub enum Op {
    Plus,
    Minus,
    Star,
    Slash,
    Bang,
    Grouped,
    Assing,
    Fn,
    BangEqual,
    LessEqual,
    GreaterEqual,
    Less,
    Greater,
    AssignEqual,
    Or,
    And,
    Index,
    ReAssign,
    Len,
    First,
    Last,
    Push,
    Rest,
}

/// Literal and terminal AST leaves.
#[derive(Debug, PartialEq)]
pub enum Type {
    String(String),
    Number(Numeral),
    Ident(String),
    Bool(bool),
    Arr(Vec<AST>),
    Nil,
}

/// A node of the abstract syntax tree.
#[derive(Debug, PartialEq)]
pub enum AST {
    /// A literal leaf.
    Type(Type),
    /// An n-ary operator application.
    Expr(Op, Vec<AST>),
    /// A `print` statement.
    Print(Box<AST>),
    /// A binding introduction.
    Let { ident: String, value: Box<AST> },
    /// A mutation of an existing binding, distinct from `Let`.
    Reassign { ident: String, value: Box<AST> },
    /// A function declaration (`name` present) or literal (`name` absent).
    Fn { name: Option<String>, params: Vec<String>, body: Vec<AST> },
    /// A call: callee applied to arguments.
    Call { calle: Box<AST>, args: Vec<AST> },
    /// A `return` statement.
    Return { value: Box<AST> },
    /// An `if` statement, with an optional `else` block.
    If { condition: Box<AST>, yes: Vec<AST>, no: Option<Vec<AST>> },
}

/// The mathematical value of a `Type`.
#[verifier::ext_equal]
pub ghost enum SpecTy {
    String(Seq<char>),
    Number(SpecNumeral),
    Ident(Seq<char>),
    Bool(bool),
    Arr(Seq<SpecAst>),
    Nil,
}

/// The mathematical value of an `AST` node.
#[verifier::ext_equal]
pub ghost enum SpecAst {
    Type(SpecTy),
    Expr(Op, Seq<SpecAst>),
    Print(Box<SpecAst>),
    Let { ident: Seq<char>, value: Box<SpecAst> },
    Reassign { ident: Seq<char>, value: Box<SpecAst> },
    Fn { name: Option<Seq<char>>, params: Seq<Seq<char>>, body: Seq<SpecAst> },
    Call { calle: Box<SpecAst>, args: Seq<SpecAst> },
    Return { value: Box<SpecAst> },
    If { condition: Box<SpecAst>, yes: Seq<SpecAst>, no: Option<Seq<SpecAst>> },
}

/// The mathematical value of a sequence of sibling nodes.
pub open spec fn asts_view(s: Seq<AST>) -> Seq<SpecAst>
    decreases s,
{
    if s.len() == 0 {
        Seq::empty()
    } else {
        asts_view(s.drop_last()).push(ast_view(s.last()))
    }
}

/// The mathematical value of a literal leaf.
pub open spec fn ty_view(t: Type) -> SpecTy
    decreases t,
{
    match t {
        Type::String(s) => SpecTy::String(s@),
        Type::Number(n) => SpecTy::Number(n@),
        Type::Ident(s) => SpecTy::Ident(s@),
        Type::Bool(b) => SpecTy::Bool(b),
        Type::Arr(v) => SpecTy::Arr(asts_view(v@)),
        Type::Nil => SpecTy::Nil,
    }
}

/// The mathematical value of an AST node.
pub open spec fn ast_view(a: AST) -> SpecAst
    decreases a,
{
    match a {
        AST::Type(t) => SpecAst::Type(ty_view(t)),
        AST::Expr(op, operands) => SpecAst::Expr(op, asts_view(operands@)),
        AST::Print(inner) => SpecAst::Print(Box::new(ast_view(*inner))),
        AST::Let { ident, value } => SpecAst::Let {
            ident: ident@,
            value: Box::new(ast_view(*value)),
        },
        AST::Reassign { ident, value } => SpecAst::Reassign {
            ident: ident@,
            value: Box::new(ast_view(*value)),
        },
        AST::Fn { name, params, body } => SpecAst::Fn {
            name: name.deep_view(),
            params: params.deep_view(),
            body: asts_view(body@),
        },
        AST::Call { calle, args } => SpecAst::Call {
            calle: Box::new(ast_view(*calle)),
            args: asts_view(args@),
        },
        AST::Return { value } => SpecAst::Return { value: Box::new(ast_view(*value)) },
        AST::If { condition, yes, no } => SpecAst::If {
            condition: Box::new(ast_view(*condition)),
            yes: asts_view(yes@),
            no: match no {
                Option::Some(v) => Option::Some(asts_view(v@)),
                Option::None => Option::None,
            },
        },
    }
}

impl View for Type {
    type V = SpecTy;

    open spec fn view(&self) -> SpecTy {
        ty_view(*self)
    }
}

impl View for AST {
    type V = SpecAst;

    open spec fn view(&self) -> SpecAst {
        ast_view(*self)
    }
}

/// `asts_view` taken pointwise: element `i` of the view is the view of
/// element `i`.
pub proof fn lemma_asts_view_index(s: Seq<AST>)
    ensures
        asts_view(s).len() == s.len(),
        forall|i: int| 0 <= i < s.len() ==> asts_view(s)[i] == ast_view(#[trigger] s[i]),
    decreases s,
{
    if s.len() > 0 {
        lemma_asts_view_index(s.drop_last());
        assert forall|i: int| 0 <= i < s.len() implies asts_view(s)[i] == ast_view(
            #[trigger] s[i],
        ) by {
            if i < s.len() - 1 {
                assert(s.drop_last()[i] == s[i]);
                assert(asts_view(s)[i] == asts_view(s.drop_last())[i]);
            } else {
                assert(asts_view(s)[i] == ast_view(s.last()));
            }
        }
    }
}

/// `asts_view` distributes over `push`.
pub proof fn lemma_asts_view_push(s: Seq<AST>, a: AST)
    ensures
        asts_view(s.push(a)) == asts_view(s).push(ast_view(a)),
{
    assert(s.push(a).drop_last() =~= s);
    assert(s.push(a).last() == a);
}

/// The display token of each operator, as used in the canonical rendering.
pub open spec fn op_sym(op: Op) -> Seq<char> {
    match op {
        Op::Minus => "-"@,
        Op::ReAssign => "="@,
        Op::Plus => "+"@,
        Op::Star => "*"@,
        Op::Assing => "="@,
        Op::BangEqual => "!="@,
        Op::AssignEqual => "=="@,
        Op::LessEqual => "<="@,
        Op::GreaterEqual => ">="@,
        Op::Less => "<"@,
        Op::Greater => ">"@,
        Op::Slash => "/"@,
        Op::Bang => "!"@,
        Op::And => "and"@,
        Op::Or => "or"@,
        Op::Fn => "call"@,
        Op::Grouped => "group"@,
        Op::Len => "len"@,
        Op::Index => "index"@,
        Op::First => "First"@,
        Op::Last => "Last"@,
        Op::Push => "Push"@,
        Op::Rest => "Rest"@,
    }
}

/// The canonical rendering of a number: integral values get a trailing `.0`,
/// others print their exact decimal form.
pub open spec fn render_num(n: SpecNumeral) -> Seq<char> {
    if n.frac.len() == 0 {
        n.whole + ".0"@
    } else {
        n.whole + "."@ + n.frac
    }
}

/// The canonical rendering of an AST node.
pub open spec fn render_ast(a: SpecAst) -> Seq<char>
    decreases a,
{
    match a {
        SpecAst::Type(t) => render_ty(t),
        SpecAst::Expr(op, operands) => "("@ + op_sym(op) + render_each_prefixed(operands, " "@)
            + ")"@,
        SpecAst::Print(inner) => render_ast(*inner),
        SpecAst::Let { ident, value } => ident + render_ast(*value),
        SpecAst::Reassign { ident, value } => ident + render_ast(*value),
        SpecAst::Fn { name, params, body } => {
            let head = match name {
                Option::Some(n) => n,
                Option::None => "(fun"@,
            };
            head + render_params_prefixed(params) + render_each_prefixed(body, " "@) + "}"@
        },
        SpecAst::Call { calle, args } => "("@ + render_ast(*calle) + render_each_prefixed(
            args,
            " "@,
        ) + ")"@,
        SpecAst::Return { value } => "return "@ + render_ast(*value),
        SpecAst::If { condition, yes, no } => {
            let head = "if "@ + render_ast(*condition) + " {"@ + render_each_prefixed(yes, " "@)
                + " } "@;
            match no {
                Option::Some(n) => head + "else {"@ + render_each_prefixed(n, " "@) + " }"@,
                Option::None => head,
            }
        },
    }
}

/// The canonical rendering of a literal leaf.  Strings print unquoted; array
/// elements are separated by `", "`.
pub open spec fn render_ty(t: SpecTy) -> Seq<char>
    decreases t,
{
    match t {
        SpecTy::String(s) => s,
        SpecTy::Number(n) => render_num(n),
        SpecTy::Ident(s) => s,
        SpecTy::Bool(b) => if b {
            "true"@
        } else {
            "false"@
        },
        SpecTy::Arr(v) => "["@ + render_list(v) + "]"@,
        SpecTy::Nil => "nil"@,
    }
}

/// Each node of `s` rendered with `pre` in front of it, concatenated.
pub open spec fn render_each_prefixed(s: Seq<SpecAst>, pre: Seq<char>) -> Seq<char>
    decreases s,
{
    if s.len() == 0 {
        Seq::empty()
    } else {
        render_each_prefixed(s.drop_last(), pre) + pre + render_ast(s.last())
    }
}

/// The nodes of `s` rendered with `", "` between them.
pub open spec fn render_list(s: Seq<SpecAst>) -> Seq<char>
    decreases s,
{
    if s.len() == 0 {
        Seq::empty()
    } else if s.len() == 1 {
        render_ast(s[0])
    } else {
        render_list(s.drop_last()) + ", "@ + render_ast(s.last())
    }
}

/// The identifiers of `ps` each rendered with a space in front.
pub open spec fn render_params_prefixed(ps: Seq<Seq<char>>) -> Seq<char>
    decreases ps,
{
    if ps.len() == 0 {
        Seq::empty()
    } else {
        render_params_prefixed(ps.drop_last()) + " "@ + ps.last()
    }
}

/// The view of a literal node, written out: `ast_view` and `ty_view` are
/// mutually recursive, so this spells both unfoldings out for callers.
pub broadcast proof fn lemma_view_type_node(t: Type)
    ensures
        #[trigger] ast_view(AST::Type(t)) == SpecAst::Type(ty_view(t)),
        ty_view(t) == (match t {
            Type::String(s) => SpecTy::String(s@),
            Type::Number(n) => SpecTy::Number(n@),
            Type::Ident(s) => SpecTy::Ident(s@),
            Type::Bool(b) => SpecTy::Bool(b),
            Type::Arr(v) => SpecTy::Arr(asts_view(v@)),
            Type::Nil => SpecTy::Nil,
        }),
{
    reveal_with_fuel(ast_view, 2);
    reveal_with_fuel(ty_view, 2);
}

/// The view of a one-node sequence.
pub proof fn lemma_asts_view_one(a: AST)
    ensures
        asts_view(seq![a]) == seq![ast_view(a)],
{
    reveal_with_fuel(asts_view, 2);
    assert(seq![a].drop_last() =~= Seq::<AST>::empty());
    assert(asts_view(seq![a]) =~= seq![ast_view(a)]);
}

/// The view of a two-node sequence.
pub proof fn lemma_asts_view_two(a: AST, b: AST)
    ensures
        asts_view(seq![a, b]) == seq![ast_view(a), ast_view(b)],
{
    reveal_with_fuel(asts_view, 2);
    assert(seq![a, b].drop_last() =~= seq![a]);
    lemma_asts_view_one(a);
    assert(asts_view(seq![a, b]) =~= seq![ast_view(a), ast_view(b)]);
}

/// `render_each_prefixed` distributes over `push`.
proof fn lemma_render_each_push(s: Seq<SpecAst>, x: SpecAst, pre: Seq<char>)
    ensures
        render_each_prefixed(s.push(x), pre) == render_each_prefixed(s, pre) + pre + render_ast(x),
{
    assert(s.push(x).drop_last() =~= s);
    assert(s.push(x).last() == x);
}

/// `render_list` distributes over `push`.
proof fn lemma_render_list_push(s: Seq<SpecAst>, x: SpecAst)
    ensures
        render_list(s.push(x)) == if s.len() == 0 {
            render_ast(x)
        } else {
            render_list(s) + ", "@ + render_ast(x)
        },
{
    assert(s.push(x).drop_last() =~= s);
    assert(s.push(x).last() == x);
    if s.len() == 0 {
        assert(s.push(x)[0] == x);
    }
}

/// `render_params_prefixed` distributes over `push`.
proof fn lemma_render_params_push(s: Seq<Seq<char>>, x: Seq<char>)
    ensures
        render_params_prefixed(s.push(x)) == render_params_prefixed(s) + " "@ + x,
{
    assert(s.push(x).drop_last() =~= s);
    assert(s.push(x).last() == x);
}

/// Appends the rendering of a number literal.
fn render_num_into(n: &Numeral, out: &mut String)
    ensures
        final(out)@ == old(out)@ + render_num(n@),
{
    out.append(n.whole_part().as_str());
    if n.frac_part().as_str().is_empty() {
        out.append(".0");
    } else {
        out.append(".");
        out.append(n.frac_part().as_str());
    }
}

/// Appends each node of `items`, prefixed by `pre`.
fn render_seq_prefixed(items: &Vec<AST>, pre: &str, out: &mut String)
    ensures
        final(out)@ == old(out)@ + render_each_prefixed(asts_view(items@), pre@),
    decreases items,
{
    let mut i: usize = 0;
    while i < items.len()
        invariant
            i <= items.len(),
            out@ == old(out)@ + render_each_prefixed(asts_view(items@.subrange(0, i as int)), pre@),
        decreases items.len() - i,
    {
        out.append(pre);
        let ghost prev = items@.subrange(0, i as int);
        items[i].render_into(out);
        proof {
            assert(items@.subrange(0, i + 1) =~= prev.push(items@[i as int]));
            lemma_asts_view_push(prev, items@[i as int]);
            lemma_render_each_push(asts_view(prev), ast_view(items@[i as int]), pre@);
        }
        i = i + 1;
    }
    proof {
        assert(items@.subrange(0, items@.len() as int) =~= items@);
    }
}

/// Appends each node of `items`, separated by `", "`.
fn render_list_into(items: &Vec<AST>, out: &mut String)
    ensures
        final(out)@ == old(out)@ + render_list(asts_view(items@)),
    decreases items,
{
    let mut i: usize = 0;
    while i < items.len()
        invariant
            i <= items.len(),
            out@ == old(out)@ + render_list(asts_view(items@.subrange(0, i as int))),
        decreases items.len() - i,
    {
        if i > 0 {
            out.append(", ");
        }
        let ghost prev = items@.subrange(0, i as int);
        items[i].render_into(out);
        proof {
            assert(items@.subrange(0, i + 1) =~= prev.push(items@[i as int]));
            lemma_asts_view_push(prev, items@[i as int]);
            lemma_render_list_push(asts_view(prev), ast_view(items@[i as int]));
            lemma_asts_view_index(prev);
        }
        i = i + 1;
    }
    proof {
        assert(items@.subrange(0, items@.len() as int) =~= items@);
    }
}

impl Type {
    /// Appends the canonical rendering of this leaf to `out`.
    fn render_into(&self, out: &mut String)
        ensures
            final(out)@ == old(out)@ + render_ty(self@),
        decreases self,
    {
        match self {
            Type::String(s) => out.append(s.as_str()),
            Type::Number(n) => render_num_into(n, out),
            Type::Ident(s) => out.append(s.as_str()),
            Type::Bool(b) => {
                if *b {
                    out.append("true");
                } else {
                    out.append("false");
                }
            },
            Type::Arr(v) => {
                out.append("[");
                render_list_into(v, out);
                out.append("]");
            },
            Type::Nil => out.append("nil"),
        }
    }

    /// The canonical rendering of this leaf.
    pub fn render(&self) -> (r: String)
        ensures
            r@ == render_ty(self@),
    {
        let mut out = String::new();
        self.render_into(&mut out);
        proof {
            assert(out@ =~= render_ty(self@));
        }
        out
    }
}

impl AST {
    /// Appends the canonical rendering of this node to `out`.
    fn render_into(&self, out: &mut String)
        ensures
            final(out)@ == old(out)@ + render_ast(self@),
        decreases self,
    {
        match self {
            AST::Type(t) => t.render_into(out),
            AST::Expr(op, operands) => {
                out.append("(");
                out.append(op.symbol());
                render_seq_prefixed(operands, " ", out);
                out.append(")");
            },
            AST::Print(inner) => inner.render_into(out),
            AST::Let { ident, value } => {
                out.append(ident.as_str());
                value.render_into(out);
            },
            AST::Reassign { ident, value } => {
                out.append(ident.as_str());
                value.render_into(out);
            },
            AST::Fn { name, params, body } => {
                match name {
                    Option::Some(n) => out.append(n.as_str()),
                    Option::None => out.append("(fun"),
                }
                let ghost base = out@;
                let mut i: usize = 0;
                proof {
                    assert(base + render_params_prefixed(params.deep_view().subrange(0, 0)) =~= base);
                }
                while i < params.len()
                    invariant
                        i <= params.len(),
                        out@ == base + render_params_prefixed(
                            params.deep_view().subrange(0, i as int),
                        ),
                    decreases params.len() - i,
                {
                    out.append(" ");
                    out.append(params[i].as_str());
                    proof {
                        let dv = params.deep_view();
                        assert(dv.subrange(0, i + 1) =~= dv.subrange(0, i as int).push(
                            dv[i as int],
                        ));
                        lemma_render_params_push(dv.subrange(0, i as int), dv[i as int]);
                        assert(dv[i as int] == params@[i as int]@);
                    }
                    i = i + 1;
                }
                proof {
                    let dv = params.deep_view();
                    assert(dv.subrange(0, params@.len() as int) =~= dv);
                }
                render_seq_prefixed(body, " ", out);
                out.append("}");
            },
            AST::Call { calle, args } => {
                out.append("(");
                calle.render_into(out);
                render_seq_prefixed(args, " ", out);
                out.append(")");
            },
            AST::Return { value } => {
                out.append("return ");
                value.render_into(out);
            },
            AST::If { condition, yes, no } => {
                out.append("if ");
                condition.render_into(out);
                out.append(" {");
                render_seq_prefixed(yes, " ", out);
                out.append(" } ");
                match no {
                    Option::Some(n) => {
                        out.append("else {");
                        render_seq_prefixed(n, " ", out);
                        out.append(" }");
                    },
                    Option::None => {},
                }
            },
        }
    }

    /// The canonical rendering of this tree: the stable text form other
    /// components rely on.
    pub fn render(&self) -> (r: String)
        ensures
            r@ == render_ast(self@),
    {
        let mut out = String::new();
        self.render_into(&mut out);
        proof {
            assert(out@ =~= render_ast(self@));
        }
        out
    }
}

impl Op {
    /// The display token of this operator.
    pub fn symbol(&self) -> (r: &'static str)
        ensures
            r@ == op_sym(*self),
    {
        match self {
            Op::Minus => "-",
            Op::ReAssign => "=",
            Op::Plus => "+",
            Op::Star => "*",
            Op::Assing => "=",
            Op::BangEqual => "!=",
            Op::AssignEqual => "==",
            Op::LessEqual => "<=",
            Op::GreaterEqual => ">=",
            Op::Less => "<",
            Op::Greater => ">",
            Op::Slash => "/",
            Op::Bang => "!",
            Op::And => "and",
            Op::Or => "or",
            Op::Fn => "call",
            Op::Grouped => "group",
            Op::Len => "len",
            Op::Index => "index",
            Op::First => "First",
            Op::Last => "Last",
            Op::Push => "Push",
            Op::Rest => "Rest",
        }
    }
}

} // verus!

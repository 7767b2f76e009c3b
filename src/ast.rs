//! The resilient AST builder. Every field of every node is read on its own:
//! a field whose syntax is absent or ill-formed fails alone, and its siblings
//! and the enclosing node are still built.

use crate::cst::{field_child, fits_text, node_chars, FieldName, NodeKind, SyntaxTree};
use crate::literal::{is_literal_text, literal_model, literal_text_ok, IntLiteral};
use crate::text::{bytes_of, node_text, on_char_boundary, rope_chars, rope_len_bytes};
use crate::typ::{type_model, Type};
use internment::Intern;
use ropey::Rope;
use vstd::prelude::*;

verus! {

/// A failure to read one field of the syntax tree.
#[derive(Clone, Copy, Debug, PartialEq, Eq, Structural)]
pub struct SyntaxError;

/// `internment`'s handle: one per distinct value, compared in constant time.
#[verifier::external_type_specification]
#[verifier::external_body]
#[verifier::reject_recursive_types(T)]
pub struct ExIntern<T: 'static + ?Sized>(Intern<T>);

/// The text that an interned handle stands for.
pub uninterp spec fn interned_text(h: Intern<str>) -> Seq<char>;

/// Relies on `Intern::<str>::from`: the handle stands for the given text,
/// and it is the one handle of the process that stands for that text (the
/// interning table hands back the stored copy of an equal value).
#[verifier::external_body]
fn intern_chars(v: &Vec<char>) -> (h: Intern<str>)
    ensures
        interned_text(h) == v@,
        forall|g: Intern<str>| #[trigger] interned_text(g) == v@ ==> g == h,
{
    let s: String = v.iter().collect();
    Intern::from(&*s)
}

// ---------------------------------------------------------------------------
// The AST.

#[derive(Debug)]
pub struct File {
    pub functions: Vec<Function>,
}

#[derive(Debug)]
pub struct Function {
    pub signature: FunctionSignature,
    pub body: Result<Block, SyntaxError>,
}

#[derive(Debug)]
pub struct FunctionSignature {
    pub name: Result<Intern<str>, SyntaxError>,
    pub parameters: Result<FunctionParameters, SyntaxError>,
    pub return_type: Result<Type, SyntaxError>,
}

/// The parameters of a function. The grammar's parameter lists are not read
/// yet, so a present list is always empty.
#[derive(Debug)]
pub struct FunctionParameters(pub Vec<(Expr, Type)>);

#[derive(Debug)]
pub struct Block {
    pub statements: Vec<Result<Statement, SyntaxError>>,
    pub result: Option<Result<Box<Expr>, SyntaxError>>,
}

#[derive(Debug)]
pub enum Statement {
    Expr(Result<Expr, SyntaxError>),
    Let { pattern: Result<Expr, SyntaxError>, value: Result<Expr, SyntaxError> },
}

#[derive(Debug)]
pub enum Expr {
    Block(Block),
    Identifier(Intern<str>),
    FunctionCall {
        name: Result<Intern<str>, SyntaxError>,
        arguments: Result<FunctionArguments, SyntaxError>,
    },
    IntLiteral(IntLiteral),
}

#[derive(Debug)]
pub struct FunctionArguments(pub Vec<Result<Expr, SyntaxError>>);

// ---------------------------------------------------------------------------
// The AST as mathematical values: identifiers are their text.

pub enum ExprModel {
    Block(BlockModel),
    Identifier(Seq<char>),
    FunctionCall {
        name: Result<Seq<char>, SyntaxError>,
        arguments: Result<Seq<Result<ExprModel, SyntaxError>>, SyntaxError>,
    },
    IntLiteral(IntLiteral),
}

pub struct BlockModel {
    pub statements: Seq<Result<StatementModel, SyntaxError>>,
    pub result: Option<Result<Box<ExprModel>, SyntaxError>>,
}

pub enum StatementModel {
    Expr(Result<ExprModel, SyntaxError>),
    Let { pattern: Result<ExprModel, SyntaxError>, value: Result<ExprModel, SyntaxError> },
}

pub struct FunctionModel {
    pub name: Result<Seq<char>, SyntaxError>,
    pub parameters: Result<Seq<(ExprModel, Type)>, SyntaxError>,
    pub return_type: Result<Type, SyntaxError>,
    pub body: Result<BlockModel, SyntaxError>,
}

pub open spec fn ident_view(r: Result<Intern<str>, SyntaxError>) -> Result<Seq<char>, SyntaxError> {
    match r {
        Ok(h) => Ok(interned_text(h)),
        Err(e) => Err(e),
    }
}

impl Expr {
    pub open spec fn view(&self) -> ExprModel
        decreases self,
    {
        match self {
            Expr::Block(b) => ExprModel::Block(b.view()),
            Expr::Identifier(h) => ExprModel::Identifier(interned_text(*h)),
            Expr::FunctionCall { name, arguments } => ExprModel::FunctionCall {
                name: ident_view(*name),
                arguments: match arguments {
                    Ok(a) => Ok(a.view()),
                    Err(e) => Err(*e),
                },
            },
            Expr::IntLiteral(l) => ExprModel::IntLiteral(*l),
        }
    }
}

pub open spec fn expr_result_view(r: Result<Expr, SyntaxError>) -> Result<ExprModel, SyntaxError>
    decreases r,
{
    match r {
        Ok(e) => Ok(e.view()),
        Err(e) => Err(e),
    }
}

impl FunctionArguments {
    pub open spec fn view(&self) -> Seq<Result<ExprModel, SyntaxError>>
        decreases self,
    {
        Seq::new(
            self.0@.len(),
            |j: int|
                if 0 <= j < self.0@.len() {
                    expr_result_view(self.0@[j])
                } else {
                    Err(SyntaxError)
                },
        )
    }
}

impl Statement {
    pub open spec fn view(&self) -> StatementModel
        decreases self,
    {
        match self {
            Statement::Expr(e) => StatementModel::Expr(expr_result_view(*e)),
            Statement::Let { pattern, value } => StatementModel::Let {
                pattern: expr_result_view(*pattern),
                value: expr_result_view(*value),
            },
        }
    }
}

pub open spec fn statement_result_view(r: Result<Statement, SyntaxError>) -> Result<
    StatementModel,
    SyntaxError,
>
    decreases r,
{
    match r {
        Ok(s) => Ok(s.view()),
        Err(e) => Err(e),
    }
}

impl Block {
    pub open spec fn view(&self) -> BlockModel
        decreases self,
    {
        BlockModel {
            statements: Seq::new(
                self.statements@.len(),
                |j: int|
                    if 0 <= j < self.statements@.len() {
                        statement_result_view(self.statements@[j])
                    } else {
                        Err(SyntaxError)
                    },
            ),
            result: match self.result {
                None => None,
                Some(Ok(e)) => Some(Ok(Box::new(e.view()))),
                Some(Err(e)) => Some(Err(e)),
            },
        }
    }
}


pub open spec fn stmts_view(v: Seq<Result<Statement, SyntaxError>>) -> Seq<
    Result<StatementModel, SyntaxError>,
> {
    Seq::new(v.len(), |j: int| statement_result_view(v[j]))
}

pub open spec fn args_view(v: Seq<Result<Expr, SyntaxError>>) -> Seq<Result<ExprModel, SyntaxError>> {
    Seq::new(v.len(), |j: int| expr_result_view(v[j]))
}

impl FunctionParameters {
    pub open spec fn view(&self) -> Seq<(ExprModel, Type)> {
        Seq::new(self.0@.len(), |j: int| (self.0@[j].0.view(), self.0@[j].1))
    }
}

impl Function {
    pub open spec fn view(&self) -> FunctionModel {
        FunctionModel {
            name: ident_view(self.signature.name),
            parameters: match self.signature.parameters {
                Ok(p) => Ok(p.view()),
                Err(e) => Err(e),
            },
            return_type: self.signature.return_type,
            body: match self.body {
                Ok(b) => Ok(b.view()),
                Err(e) => Err(e),
            },
        }
    }
}

impl File {
    pub open spec fn view(&self) -> Seq<FunctionModel> {
        Seq::new(self.functions@.len(), |j: int| self.functions@[j].view())
    }
}

// ---------------------------------------------------------------------------
// What the builder makes of a syntax tree over a text.

/// The tree can be read over text `s`: its arena is well formed, its nodes
/// span characters of `s`, and every number node holds a literal of the form
/// the grammar guarantees.
pub open spec fn readable(t: SyntaxTree, s: Seq<char>) -> bool {
    &&& t.wf()
    &&& fits_text(t, s)
    &&& forall|i: int|
        #![trigger t.nodes@[i]]
        0 <= i < t.nodes@.len() && t.nodes@[i].kind == NodeKind::Number ==> literal_text_ok(
            node_chars(t, i, s),
        )
}

/// Node `c` lies below node `i` in the arena's order (always so of a child).
pub open spec fn below(t: SyntaxTree, i: int, c: int) -> bool {
    i < c < t.nodes@.len()
}

/// An identifier: its text, which must not be empty.
pub open spec fn ident_model(t: SyntaxTree, i: int, s: Seq<char>) -> Result<Seq<char>, SyntaxError> {
    if node_chars(t, i, s).len() == 0 {
        Err(SyntaxError)
    } else {
        Ok(node_chars(t, i, s))
    }
}

pub open spec fn expr_model(t: SyntaxTree, i: int, s: Seq<char>) -> Result<ExprModel, SyntaxError>
    decreases t.nodes@.len() - i, t.kids(i).len() + 2,
{
    if !t.has(i) {
        Err(SyntaxError)
    } else {
        match t.nodes@[i].kind {
            NodeKind::Identifier => match ident_model(t, i, s) {
                Ok(w) => Ok(ExprModel::Identifier(w)),
                Err(e) => Err(e),
            },
            NodeKind::Block => match block_model(t, i, s) {
                Ok(b) => Ok(ExprModel::Block(b)),
                Err(e) => Err(e),
            },
            NodeKind::FunctionCall => Ok(
                ExprModel::FunctionCall {
                    name: match field_child(t, i, FieldName::Name) {
                        Some(c) => ident_model(t, c as int, s),
                        None => Err(SyntaxError),
                    },
                    arguments: match field_child(t, i, FieldName::Arguments) {
                        Some(c) => if below(t, i, c as int) {
                            Ok(arguments_from(t, c as int, 0, s))
                        } else {
                            Err(SyntaxError)
                        },
                        None => Err(SyntaxError),
                    },
                },
            ),
            NodeKind::Number => Ok(ExprModel::IntLiteral(literal_model(node_chars(t, i, s)))),
            _ => Err(SyntaxError),
        }
    }
}

/// The arguments of call-argument node `p` from its `k`-th child on: each
/// named child that is either not extra or an error marker, in order; an
/// error marker stands as a failed argument. Extra filler with no error is
/// skipped.
pub open spec fn arguments_from(t: SyntaxTree, p: int, k: int, s: Seq<char>) -> Seq<
    Result<ExprModel, SyntaxError>,
>
    decreases t.nodes@.len() - p, t.kids(p).len() - k,
{
    if !t.has(p) || k < 0 || k >= t.kids(p).len() {
        seq![]
    } else {
        let c = t.kids(p)[k] as int;
        let rest = arguments_from(t, p, k + 1, s);
        if !below(t, p, c) {
            rest
        } else if t.nodes@[c].is_named && (!t.nodes@[c].is_extra || t.nodes@[c].is_error) {
            seq![
                if t.nodes@[c].is_error {
                    Err(SyntaxError)
                } else {
                    expr_model(t, c, s)
                },
            ] + rest
        } else {
            rest
        }
    }
}

pub open spec fn block_model(t: SyntaxTree, i: int, s: Seq<char>) -> Result<BlockModel, SyntaxError>
    decreases t.nodes@.len() - i, t.kids(i).len() + 1,
{
    if !t.has(i) || t.nodes@[i].kind != NodeKind::Block {
        Err(SyntaxError)
    } else {
        let res = field_child(t, i, FieldName::Result);
        Ok(
            BlockModel {
                statements: statements_from(t, i, res, 0, s),
                result: match res {
                    None => None,
                    Some(c) => if below(t, i, c as int) {
                        match expr_model(t, c as int, s) {
                            Ok(e) => Some(Ok(Box::new(e))),
                            Err(e) => Some(Err(e)),
                        }
                    } else {
                        Some(Err(SyntaxError))
                    },
                },
            },
        )
    }
}

/// The statements of block node `p` from its `k`-th child on: each named
/// child that is not extra and is not the result node `res`, in order.
pub open spec fn statements_from(
    t: SyntaxTree,
    p: int,
    res: Option<usize>,
    k: int,
    s: Seq<char>,
) -> Seq<Result<StatementModel, SyntaxError>>
    decreases t.nodes@.len() - p, t.kids(p).len() - k,
{
    if !t.has(p) || k < 0 || k >= t.kids(p).len() {
        seq![]
    } else {
        let c = t.kids(p)[k] as int;
        let rest = statements_from(t, p, res, k + 1, s);
        if !below(t, p, c) {
            rest
        } else if t.nodes@[c].is_named && !t.nodes@[c].is_extra && res != Some(c as usize) {
            seq![statement_model(t, c, s)] + rest
        } else {
            rest
        }
    }
}

pub open spec fn statement_model(t: SyntaxTree, i: int, s: Seq<char>) -> Result<
    StatementModel,
    SyntaxError,
>
    decreases t.nodes@.len() - i, t.kids(i).len() + 1,
{
    if !t.has(i) {
        Err(SyntaxError)
    } else {
        match t.nodes@[i].kind {
            NodeKind::ExpressionStatement => if t.kids(i).len() > 0 && below(
                t,
                i,
                t.kids(i)[0] as int,
            ) {
                Ok(StatementModel::Expr(expr_model(t, t.kids(i)[0] as int, s)))
            } else {
                Err(SyntaxError)
            },
            NodeKind::LetDeclaration => Ok(
                StatementModel::Let {
                    pattern: match field_child(t, i, FieldName::Pattern) {
                        Some(c) => if below(t, i, c as int) {
                            expr_model(t, c as int, s)
                        } else {
                            Err(SyntaxError)
                        },
                        None => Err(SyntaxError),
                    },
                    value: match field_child(t, i, FieldName::Value) {
                        Some(c) => if below(t, i, c as int) {
                            expr_model(t, c as int, s)
                        } else {
                            Err(SyntaxError)
                        },
                        None => Err(SyntaxError),
                    },
                },
            ),
            _ => Err(SyntaxError),
        }
    }
}

/// A function definition node: its name (an identifier node), its parameter
/// list, its return type and its body block, each read on its own.
pub open spec fn function_model(t: SyntaxTree, i: int, s: Seq<char>) -> FunctionModel {
    FunctionModel {
        name: match field_child(t, i, FieldName::Name) {
            Some(c) => if t.nodes@[c as int].kind == NodeKind::Identifier {
                Ok(node_chars(t, c as int, s))
            } else {
                Err(SyntaxError)
            },
            None => Err(SyntaxError),
        },
        parameters: match field_child(t, i, FieldName::Parameters) {
            Some(c) => Ok(seq![]),
            None => Err(SyntaxError),
        },
        return_type: match field_child(t, i, FieldName::ReturnType) {
            Some(c) => type_model(t, c as int, s),
            None => Err(SyntaxError),
        },
        body: match field_child(t, i, FieldName::Body) {
            Some(c) => if below(t, i, c as int) {
                block_model(t, c as int, s)
            } else {
                Err(SyntaxError)
            },
            None => Err(SyntaxError),
        },
    }
}

/// The functions of a file: one for each child of the root that is not extra.
pub open spec fn functions_from(t: SyntaxTree, k: int, s: Seq<char>) -> Seq<FunctionModel>
    decreases t.kids(0).len() - k,
{
    if k < 0 || k >= t.kids(0).len() {
        seq![]
    } else {
        let c = t.kids(0)[k] as int;
        let rest = functions_from(t, k + 1, s);
        if !t.nodes@[c].is_extra {
            seq![function_model(t, c, s)] + rest
        } else {
            rest
        }
    }
}

pub open spec fn file_model(t: SyntaxTree, s: Seq<char>) -> Seq<FunctionModel> {
    functions_from(t, 0, s)
}


pub open spec fn block_result_view(r: Result<Block, SyntaxError>) -> Result<BlockModel, SyntaxError> {
    match r {
        Ok(b) => Ok(b.view()),
        Err(e) => Err(e),
    }
}

// ---------------------------------------------------------------------------
// The builder.

/// Reads an identifier node: its text, which must not be empty.
fn parse_identifier(tree: &SyntaxTree, node: usize, text: &Rope) -> (r: Result<
    Intern<str>,
    SyntaxError,
>)
    requires
        tree.has(node as int),
        fits_text(*tree, rope_chars(*text)),
    ensures
        ident_view(r) == ident_model(*tree, node as int, rope_chars(*text)),
{
    let w = node_text(tree, node, text);
    if w.len() == 0 {
        Err(SyntaxError)
    } else {
        Ok(intern_chars(&w))
    }
}

impl File {
    /// Builds the AST of a whole file from its syntax tree: one function for
    /// each child of the root that is not extra, in source order.
    pub fn parse(tree: &SyntaxTree, text: &Rope) -> (r: File)
        requires
            readable(*tree, rope_chars(*text)),
        ensures
            r.view() == file_model(*tree, rope_chars(*text)),
    {
        let ghost s = rope_chars(*text);
        let kids = &tree.nodes[0].children;
        let mut functions: Vec<Function> = Vec::new();
        let mut k: usize = 0;
        while k < kids.len()
            invariant
                readable(*tree, s),
                s == rope_chars(*text),
                kids@ == tree.kids(0),
                k <= kids@.len(),
                file_model(*tree, s) == Seq::new(
                    functions@.len(),
                    |j: int| functions@[j].view(),
                ) + functions_from(*tree, k as int, s),
            decreases kids@.len() - k,
        {
            let c = kids[k];
            assert(0 < tree.nodes@[0].children@[k as int] < tree.nodes@.len());
            let ghost before = functions@;
            if !tree.nodes[c].is_extra {
                let f = Function::parse(tree, c, text);
                functions.push(f);
                assert(Seq::new(functions@.len(), |j: int| functions@[j].view()) =~= Seq::new(
                    before.len(),
                    |j: int| before[j].view(),
                ).push(f.view()));
            }
            k = k + 1;
        }
        let r = File { functions };
        assert(r.view() =~= file_model(*tree, s));
        r
    }
}

impl Function {
    /// Builds one function from its definition node. Name, parameter list,
    /// return type and body are each read on their own.
    pub fn parse(tree: &SyntaxTree, node: usize, text: &Rope) -> (r: Function)
        requires
            readable(*tree, rope_chars(*text)),
            tree.has(node as int),
        ensures
            r.view() == function_model(*tree, node as int, rope_chars(*text)),
    {
        let name = match tree.child_by_field_name(node, FieldName::Name) {
            Some(c) => if tree.nodes[c].kind == NodeKind::Identifier {
                let w = node_text(tree, c, text);
                Ok(intern_chars(&w))
            } else {
                Err(SyntaxError)
            },
            None => Err(SyntaxError),
        };
        let parameters = match tree.child_by_field_name(node, FieldName::Parameters) {
            Some(c) => Ok(FunctionParameters::parse(tree, c)),
            None => Err(SyntaxError),
        };
        let return_type = match tree.child_by_field_name(node, FieldName::ReturnType) {
            Some(c) => Type::parse(tree, c, text),
            None => Err(SyntaxError),
        };
        let body = match tree.child_by_field_name(node, FieldName::Body) {
            Some(c) => Block::parse(tree, c, text),
            None => Err(SyntaxError),
        };
        let r = Function { signature: FunctionSignature { name, parameters, return_type }, body };
        proof {
            if r.signature.parameters is Ok {
                assert(r.signature.parameters->Ok_0.view() =~= Seq::<(ExprModel, Type)>::empty());
            }
        }
        r
    }
}

impl FunctionParameters {
    /// Reads a parameter list. Parameters are not read yet: the list is empty.
    pub fn parse(tree: &SyntaxTree, node: usize) -> (r: FunctionParameters)
        ensures
            r.0@.len() == 0,
    {
        FunctionParameters(Vec::new())
    }
}

impl Block {
    /// Reads a block node: its statements, and the expression that its
    /// `result` field holds, which is not counted among the statements.
    pub fn parse(tree: &SyntaxTree, node: usize, text: &Rope) -> (r: Result<Block, SyntaxError>)
        requires
            readable(*tree, rope_chars(*text)),
            tree.has(node as int),
        ensures
            block_result_view(r) == block_model(*tree, node as int, rope_chars(*text)),
        decreases tree.nodes@.len() - node, 0int,
    {
        let ghost s = rope_chars(*text);
        if tree.nodes[node].kind != NodeKind::Block {
            return Err(SyntaxError);
        }
        let res = tree.child_by_field_name(node, FieldName::Result);
        let kids = &tree.nodes[node].children;
        let mut statements: Vec<Result<Statement, SyntaxError>> = Vec::new();
        let mut k: usize = 0;
        while k < kids.len()
            invariant
                readable(*tree, s),
                s == rope_chars(*text),
                tree.has(node as int),
                kids@ == tree.kids(node as int),
                k <= kids@.len(),
                statements_from(*tree, node as int, res, 0, s) == stmts_view(statements@)
                    + statements_from(*tree, node as int, res, k as int, s),
            decreases kids@.len() - k,
        {
            let c = kids[k];
            assert(node < tree.nodes@[node as int].children@[k as int] < tree.nodes@.len());
            let is_result = match res {
                Some(rc) => rc == c,
                None => false,
            };
            let ghost before = statements@;
            if tree.nodes[c].is_named && !tree.nodes[c].is_extra && !is_result {
                let st = Statement::parse(tree, c, text);
                statements.push(st);
                assert(stmts_view(statements@) =~= stmts_view(before).push(
                    statement_result_view(st),
                ));
            }
            k = k + 1;
        }
        let result = match res {
            Some(c) => match Expr::parse(tree, c, text) {
                Ok(e) => Some(Ok(Box::new(e))),
                Err(e) => Some(Err(e)),
            },
            None => None,
        };
        let b = Block { statements, result };
        assert(b.view().statements =~= stmts_view(statements@));
        assert(stmts_view(statements@) =~= statements_from(*tree, node as int, res, 0, s));
        Ok(b)
    }
}

impl Statement {
    /// Reads a statement node: an expression statement or a let binding.
    pub fn parse(tree: &SyntaxTree, node: usize, text: &Rope) -> (r: Result<Statement, SyntaxError>)
        requires
            readable(*tree, rope_chars(*text)),
            tree.has(node as int),
        ensures
            statement_result_view(r) == statement_model(*tree, node as int, rope_chars(*text)),
        decreases tree.nodes@.len() - node, 0int,
    {
        match tree.nodes[node].kind {
            NodeKind::ExpressionStatement => {
                let kids = &tree.nodes[node].children;
                if kids.len() > 0 {
                    let c = kids[0];
                    assert(node < tree.nodes@[node as int].children@[0] < tree.nodes@.len());
                    Ok(Statement::Expr(Expr::parse(tree, c, text)))
                } else {
                    Err(SyntaxError)
                }
            },
            NodeKind::LetDeclaration => {
                let pattern = match tree.child_by_field_name(node, FieldName::Pattern) {
                    Some(c) => Expr::parse(tree, c, text),
                    None => Err(SyntaxError),
                };
                let value = match tree.child_by_field_name(node, FieldName::Value) {
                    Some(c) => Expr::parse(tree, c, text),
                    None => Err(SyntaxError),
                };
                Ok(Statement::Let { pattern, value })
            },
            _ => Err(SyntaxError),
        }
    }
}

impl Expr {
    /// Reads an expression node: a block, an identifier, a call or an
    /// integer literal.
    pub fn parse(tree: &SyntaxTree, node: usize, text: &Rope) -> (r: Result<Expr, SyntaxError>)
        requires
            readable(*tree, rope_chars(*text)),
            tree.has(node as int),
        ensures
            expr_result_view(r) == expr_model(*tree, node as int, rope_chars(*text)),
        decreases tree.nodes@.len() - node, 1int,
    {
        match tree.nodes[node].kind {
            NodeKind::Identifier => match parse_identifier(tree, node, text) {
                Ok(h) => Ok(Expr::Identifier(h)),
                Err(e) => Err(e),
            },
            NodeKind::Block => match Block::parse(tree, node, text) {
                Ok(b) => Ok(Expr::Block(b)),
                Err(e) => Err(e),
            },
            NodeKind::FunctionCall => {
                let name = match tree.child_by_field_name(node, FieldName::Name) {
                    Some(c) => parse_identifier(tree, c, text),
                    None => Err(SyntaxError),
                };
                let arguments = match tree.child_by_field_name(node, FieldName::Arguments) {
                    Some(c) => Ok(FunctionArguments::parse(tree, c, text)),
                    None => Err(SyntaxError),
                };
                Ok(Expr::FunctionCall { name, arguments })
            },
            NodeKind::Number => {
                assert(literal_text_ok(node_chars(*tree, node as int, rope_chars(*text))));
                match IntLiteral::parse(tree, node, text) {
                    Ok(l) => Ok(Expr::IntLiteral(l)),
                    Err(e) => Err(e),
                }
            },
            _ => Err(SyntaxError),
        }
    }
}

impl FunctionArguments {
    /// Reads a call's argument list. An error marker among the arguments
    /// stands as a failed argument, so each argument keeps its position.
    pub fn parse(tree: &SyntaxTree, node: usize, text: &Rope) -> (r: FunctionArguments)
        requires
            readable(*tree, rope_chars(*text)),
            tree.has(node as int),
        ensures
            r.view() == arguments_from(*tree, node as int, 0, rope_chars(*text)),
        decreases tree.nodes@.len() - node, 0int,
    {
        let ghost s = rope_chars(*text);
        let kids = &tree.nodes[node].children;
        let mut args: Vec<Result<Expr, SyntaxError>> = Vec::new();
        let mut k: usize = 0;
        while k < kids.len()
            invariant
                readable(*tree, s),
                s == rope_chars(*text),
                tree.has(node as int),
                kids@ == tree.kids(node as int),
                k <= kids@.len(),
                arguments_from(*tree, node as int, 0, s) == args_view(args@) + arguments_from(
                    *tree,
                    node as int,
                    k as int,
                    s,
                ),
            decreases kids@.len() - k,
        {
            let c = kids[k];
            assert(node < tree.nodes@[node as int].children@[k as int] < tree.nodes@.len());
            let ghost before = args@;
            let n = &tree.nodes[c];
            if n.is_named && (!n.is_extra || n.is_error) {
                let a = if n.is_error {
                    Err(SyntaxError)
                } else {
                    Expr::parse(tree, c, text)
                };
                args.push(a);
                assert(args_view(args@) =~= args_view(before).push(expr_result_view(a)));
            }
            k = k + 1;
        }
        let r = FunctionArguments(args);
        assert(r.view() =~= args_view(args@));
        assert(args_view(args@) =~= arguments_from(*tree, node as int, 0, s));
        r
    }
}


/// The fields of a function are independent: two function nodes that hold
/// the same body node read the same body, whatever their return types, and
/// two that hold the same return-type node read the same return type,
/// whatever their bodies. So a failed return type never fails the body, nor
/// the other way round.
pub proof fn lemma_field_independence(t: SyntaxTree, i: int, j: int, s: Seq<char>)
    requires
        t.wf(),
        t.has(i),
        t.has(j),
    ensures
        field_child(t, i, FieldName::Body) == field_child(t, j, FieldName::Body) ==> function_model(
            t,
            i,
            s,
        ).body == function_model(t, j, s).body,
        field_child(t, i, FieldName::ReturnType) == field_child(t, j, FieldName::ReturnType)
            ==> function_model(t, i, s).return_type == function_model(t, j, s).return_type,
{
    crate::cst::lemma_first_with_field_in(t, t.kids(i), FieldName::Body);
    crate::cst::lemma_first_with_field_in(t, t.kids(j), FieldName::Body);
    if let Some(c) = field_child(t, i, FieldName::Body) {
        let k = choose|k: int| 0 <= k < t.kids(i).len() && t.kids(i)[k] == c;
        assert(t.nodes@[i].children@[k] == c);
    }
    if let Some(c) = field_child(t, j, FieldName::Body) {
        let k = choose|k: int| 0 <= k < t.kids(j).len() && t.kids(j)[k] == c;
        assert(t.nodes@[j].children@[k] == c);
    }
}


/// Whether the builder can read `tree` over `text`: the check that a caller
/// makes before handing a tree to the builder.
pub fn check_readable(tree: &SyntaxTree, text: &Rope) -> (r: bool)
    ensures
        r == readable(*tree, rope_chars(*text)),
{
    let ghost s = rope_chars(*text);
    let n = tree.nodes.len();
    if n == 0 {
        return false;
    }
    let total = rope_len_bytes(text);
    let mut i: usize = 0;
    while i < n
        invariant
            n == tree.nodes@.len(),
            i <= n,
            total == bytes_of(s),
            s == rope_chars(*text),
            forall|a: int, b: int|
                0 <= a < i && 0 <= b < tree.nodes@[a].children@.len() ==> a
                    < #[trigger] tree.nodes@[a].children@[b] < n,
            forall|a: int|
                0 <= a < i ==> {
                    &&& #[trigger] tree.nodes@[a].start_byte <= tree.nodes@[a].end_byte <= bytes_of(
                        s,
                    )
                    &&& crate::text::is_char_boundary(s, tree.nodes@[a].start_byte as int)
                    &&& crate::text::is_char_boundary(s, tree.nodes@[a].end_byte as int)
                },
        decreases n - i,
    {
        let node = &tree.nodes[i];
        let kids = &node.children;
        let mut j: usize = 0;
        while j < kids.len()
            invariant
                n == tree.nodes@.len(),
                i < n,
                kids@ == tree.nodes@[i as int].children@,
                j <= kids@.len(),
                forall|b: int| 0 <= b < j ==> i < #[trigger] kids@[b] < n,
            decreases kids@.len() - j,
        {
            if !(i < kids[j] && kids[j] < n) {
                assert(!tree.wf());
                return false;
            }
            j = j + 1;
        }
        if !(node.start_byte <= node.end_byte && node.end_byte <= total) {
            assert(!fits_text(*tree, s));
            return false;
        }
        if !on_char_boundary(text, node.start_byte) || !on_char_boundary(text, node.end_byte) {
            assert(!fits_text(*tree, s));
            return false;
        }
        i = i + 1;
    }
    assert(tree.wf());
    assert(fits_text(*tree, s));
    let mut i: usize = 0;
    while i < n
        invariant
            n == tree.nodes@.len(),
            i <= n,
            tree.wf(),
            s == rope_chars(*text),
            fits_text(*tree, s),
            forall|a: int|
                #![trigger tree.nodes@[a]]
                0 <= a < i && tree.nodes@[a].kind == NodeKind::Number ==> literal_text_ok(
                    node_chars(*tree, a, s),
                ),
        decreases n - i,
    {
        if tree.nodes[i].kind == NodeKind::Number {
            let cs = node_text(tree, i, text);
            if !is_literal_text(&cs) {
                return false;
            }
        }
        i = i + 1;
    }
    true
}

} // verus!

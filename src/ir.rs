//! The operator tree and the scalar expressions of a plan, with their models.
use vstd::prelude::*;

verus! {

/// The value types that generated code can hold.
#[derive(Clone, Copy, PartialEq, Eq, Structural, Debug)]
pub enum ValueType {
    Int,
}

/// The name of a value type in the target instruction set.
pub open spec fn primitive_name(t: ValueType) -> Seq<char> {
    match t {
        ValueType::Int => "i32"@,
    }
}

impl ValueType {
    pub fn primitive_type_name(&self) -> (r: String)
        ensures
            r@ == primitive_name(*self),
    {
        match self {
            ValueType::Int => String::from_str("i32"),
        }
    }
}

/// What is known of a bound value besides its storage.
#[derive(Clone, Copy, PartialEq, Eq, Structural, Debug)]
pub struct ValueMetadata {
    pub value_type: ValueType,
    pub nullable: bool,
}

/// The metadata of a non-nullable integer.
pub open spec fn int_meta() -> ValueMetadata {
    ValueMetadata { value_type: ValueType::Int, nullable: false }
}

/// A scalar expression over the fields of a row.
#[derive(Debug)]
pub enum Expr {
    Variable(String),
    Add(Box<Expr>, Box<Expr>),
}

/// The mathematical model of an expression.
pub enum ExprModel {
    Variable(Seq<char>),
    Add(Box<ExprModel>, Box<ExprModel>),
}

impl Expr {
    pub open spec fn model(&self) -> ExprModel
        decreases self,
    {
        match self {
            Expr::Variable(name) => ExprModel::Variable(name@),
            Expr::Add(l, r) => ExprModel::Add(Box::new(l.model()), Box::new(r.model())),
        }
    }

    /// A copy of the expression, node for node.
    pub fn copy(&self) -> (r: Expr)
        ensures
            r@ == self@,
        decreases self,
    {
        match self {
            Expr::Variable(name) => Expr::Variable(name.clone()),
            Expr::Add(l, r) => Expr::Add(Box::new(l.copy()), Box::new(r.copy())),
        }
    }

    /// The type of the expression's value.
    pub fn value_type(&self) -> (r: ValueType)
        ensures
            r == expr_type(self@),
    {
        match self {
            Expr::Variable(_) => ValueType::Int,
            Expr::Add(_, _) => ValueType::Int,
        }
    }
}

impl View for Expr {
    type V = ExprModel;

    open spec fn view(&self) -> ExprModel {
        self.model()
    }
}

/// The static type of an expression: every expression is an integer.
pub open spec fn expr_type(e: ExprModel) -> ValueType {
    match e {
        ExprModel::Variable(_) => ValueType::Int,
        ExprModel::Add(_, _) => ValueType::Int,
    }
}

/// A relational operator; each one but `Range` owns the operator it reads from.
#[derive(Debug)]
pub enum Node {
    /// Evaluates one expression per output name over each row of the source.
    Project(Box<Node>, Vec<Expr>, Vec<String>),
    /// One row per integer of `[start, end)`, under the name `i`.
    Range(usize, usize),
    /// Writes a field of every row to the output memory, from a slot on.
    Output(Box<Node>, String, usize),
    /// The total of a field over all rows of the source.
    Sum(Box<Node>, String),
}

/// The mathematical model of an operator tree.
pub enum NodeModel {
    Project(Box<NodeModel>, Seq<ExprModel>, Seq<Seq<char>>),
    Range(nat, nat),
    Output(Box<NodeModel>, Seq<char>, nat),
    Sum(Box<NodeModel>, Seq<char>),
}

/// The models of a sequence of expressions.
pub open spec fn exprs_model(v: Seq<Expr>) -> Seq<ExprModel> {
    v.map_values(|e: Expr| e@)
}

/// The views of a sequence of strings.
pub open spec fn strings_model(v: Seq<String>) -> Seq<Seq<char>> {
    v.map_values(|s: String| s@)
}

/// Appending to a sequence of expressions appends to its models.
pub proof fn lemma_exprs_model_push(v: Seq<Expr>, e: Expr)
    ensures
        exprs_model(v.push(e)) == exprs_model(v).push(e@),
{
    assert(exprs_model(v.push(e)) =~= exprs_model(v).push(e@));
}

/// Appending to a sequence of strings appends to its views.
pub proof fn lemma_strings_model_push(v: Seq<String>, s: String)
    ensures
        strings_model(v.push(s)) == strings_model(v).push(s@),
{
    assert(strings_model(v.push(s)) =~= strings_model(v).push(s@));
}

impl Node {
    pub open spec fn model(&self) -> NodeModel
        decreases self,
    {
        match self {
            Node::Project(src, exprs, names) => NodeModel::Project(
                Box::new(src.model()),
                exprs_model(exprs@),
                strings_model(names@),
            ),
            Node::Range(s, e) => NodeModel::Range(*s as nat, *e as nat),
            Node::Output(src, field, slot) => NodeModel::Output(
                Box::new(src.model()),
                field@,
                *slot as nat,
            ),
            Node::Sum(src, field) => NodeModel::Sum(Box::new(src.model()), field@),
        }
    }
}

impl View for Node {
    type V = NodeModel;

    open spec fn view(&self) -> NodeModel {
        self.model()
    }
}

/// Why code generation failed.
#[derive(Debug)]
pub enum CodegenError {
    /// A field was read that the rows at that point do not carry.
    UnboundField(String),
    /// The plan holds something that the target cannot express.
    Unsupported,
}

/// The model of a code generation error.
pub enum ErrorModel {
    UnboundField(Seq<char>),
    Unsupported,
}

impl View for CodegenError {
    type V = ErrorModel;

    open spec fn view(&self) -> ErrorModel {
        match self {
            CodegenError::UnboundField(name) => ErrorModel::UnboundField(name@),
            CodegenError::Unsupported => ErrorModel::Unsupported,
        }
    }
}

} // verus!

use vstd::prelude::*;

verus! {

broadcast use vstd::std_specs::vec::group_vec_axioms;

/// A number of the language: the bit pattern of an IEEE-754 single-precision value.
/// The arithmetic itself is supplied by the host (see `NumOp`).
#[derive(Clone, Copy, Debug, PartialEq, Eq, Structural)]
pub struct Num {
    pub bits: u32,
}

/// Bits of a NaN: all exponent bits set and a non-zero fraction.
pub open spec fn is_nan_bits(b: u32) -> bool {
    (b & 0x7fff_ffffu32) > 0x7f80_0000u32
}

/// IEEE-754 equality: no NaN equals anything, and the two zeros are equal.
pub open spec fn num_equal(a: Num, b: Num) -> bool {
    &&& !is_nan_bits(a.bits)
    &&& !is_nan_bits(b.bits)
    &&& (a.bits == b.bits || ((a.bits & 0x7fff_ffffu32) == 0 && (b.bits & 0x7fff_ffffu32) == 0))
}

impl Num {
    /// Positive zero.
    pub fn zero() -> (r: Num)
        ensures
            r.bits == 0,
    {
        Num { bits: 0 }
    }

    pub fn from_bits(bits: u32) -> (r: Num)
        ensures
            r.bits == bits,
    {
        Num { bits }
    }

    /// Numeric equality, as `==` on single-precision values.
    pub fn equals(&self, other: &Num) -> (r: bool)
        ensures
            r == num_equal(*self, *other),
    {
        let a = self.bits;
        let b = other.bits;
        if (a & 0x7fff_ffffu32) > 0x7f80_0000u32 || (b & 0x7fff_ffffu32) > 0x7f80_0000u32 {
            false
        } else {
            a == b || ((a & 0x7fff_ffffu32) == 0 && (b & 0x7fff_ffffu32) == 0)
        }
    }
}

/// The five arithmetic operators.
#[derive(Clone, Copy, Debug, PartialEq, Eq, Structural)]
pub enum BinOp {
    Add,
    Sub,
    Mul,
    Div,
    Pow,
}

/// A request for numeric work, answered by the host's number backend.
#[derive(Clone, Debug, PartialEq)]
pub enum NumOp {
    /// The value of a decimal literal (its digits).
    Literal(String),
    /// An arithmetic operation on two numbers.
    Binary(BinOp, Num, Num),
    /// A native function, by the name it was bound under, applied to one number.
    Native(String, Num),
}

/// Model of a request for numeric work.
pub enum OpModel {
    Literal(Seq<char>),
    Binary(BinOp, Num, Num),
    Native(Seq<char>, Num),
}

impl View for NumOp {
    type V = OpModel;

    open spec fn view(&self) -> OpModel {
        match self {
            NumOp::Literal(t) => OpModel::Literal(t@),
            NumOp::Binary(o, a, b) => OpModel::Binary(*o, *a, *b),
            NumOp::Native(n, a) => OpModel::Native(n@, *a),
        }
    }
}

/// A user function: parameter names and a body of expressions.
#[derive(Debug, PartialEq)]
pub struct Lambda {
    pub params: Vec<String>,
    pub body: Vec<Expr>,
}

/// One guarded branch of a conditional.
#[derive(Debug, PartialEq)]
pub struct IfExpr {
    pub condition: (Expr, Expr),
    pub body: Vec<Expr>,
}


/// What a name is bound to.
#[derive(Debug, PartialEq)]
pub enum EnvValue {
    ComputedResult(Num),
    LambdaRef(Lambda),
    /// A native function, known to the host by this name.
    NativeFn(String),
}

/// An expression tree.
#[derive(Debug, PartialEq)]
pub enum Expr {
    /// A decimal literal, by its digits.
    ENum(String),
    EVar(String),
    EAdd(Box<Expr>, Box<Expr>),
    ESub(Box<Expr>, Box<Expr>),
    EMul(Box<Expr>, Box<Expr>),
    EDiv(Box<Expr>, Box<Expr>),
    EExp(Box<Expr>, Box<Expr>),
    ELet(String, Box<Expr>),
    EIf(Vec<IfExpr>, Vec<Expr>),
    EFunCall(String, Vec<Expr>),
    EDefun(String, Lambda),
    EReturn(Box<Expr>),
}

/// Why parsing or evaluation produced no value.
#[derive(Clone, Debug, PartialEq)]
pub enum Error {
    UndefinedVariable(String),
    InvalidVariableReference(String),
    InvalidFunctionReference(String),
    /// Function name, parameter count, argument count.
    InvalidLambdaArgs(String, usize, usize),
    /// Function name, argument count.
    InvalidNativeFunctionArgs(String, usize),
    UndefinedFunction(String),
    ParseError,
    /// Evaluation nested deeper than the evaluator allows.
    RecursionLimit,
}

// ---- Mathematical model of the data ----

/// Model of an expression tree.
pub enum Term {
    Lit(Seq<char>),
    Var(Seq<char>),
    Bin(BinOp, Box<Term>, Box<Term>),
    Let(Seq<char>, Box<Term>),
    If(Seq<Branch>, Seq<Term>),
    Call(Seq<char>, Seq<Term>),
    Define(Seq<char>, Func),
    Return(Box<Term>),
}

/// Model of a guarded branch: the two sides compared, and the body.
pub struct Branch {
    pub lhs: Term,
    pub rhs: Term,
    pub body: Seq<Term>,
}

/// Model of a user function.
pub struct Func {
    pub params: Seq<Seq<char>>,
    pub body: Seq<Term>,
}

/// Model of a bound value.
pub enum Val {
    Number(Num),
    Function(Func),
    Native(Seq<char>),
}

/// Model of an error.
pub enum Fault {
    UndefinedVariable(Seq<char>),
    InvalidVariableReference(Seq<char>),
    InvalidFunctionReference(Seq<char>),
    InvalidLambdaArgs(Seq<char>, nat, nat),
    InvalidNativeFunctionArgs(Seq<char>, nat),
    UndefinedFunction(Seq<char>),
    ParseError,
    RecursionLimit,
}

impl View for Error {
    type V = Fault;

    open spec fn view(&self) -> Fault {
        match self {
            Error::UndefinedVariable(n) => Fault::UndefinedVariable(n@),
            Error::InvalidVariableReference(n) => Fault::InvalidVariableReference(n@),
            Error::InvalidFunctionReference(n) => Fault::InvalidFunctionReference(n@),
            Error::InvalidLambdaArgs(n, e, a) => Fault::InvalidLambdaArgs(n@, *e as nat, *a as nat),
            Error::InvalidNativeFunctionArgs(n, a) => Fault::InvalidNativeFunctionArgs(n@, *a as nat),
            Error::UndefinedFunction(n) => Fault::UndefinedFunction(n@),
            Error::ParseError => Fault::ParseError,
            Error::RecursionLimit => Fault::RecursionLimit,
        }
    }
}

/// Model of an expression tree.
pub open spec fn term_of(e: Expr) -> Term
    decreases e, 0nat,
{
    match e {
        Expr::ENum(t) => Term::Lit(t@),
        Expr::EVar(n) => Term::Var(n@),
        Expr::EAdd(a, b) => Term::Bin(BinOp::Add, Box::new(term_of(*a)), Box::new(term_of(*b))),
        Expr::ESub(a, b) => Term::Bin(BinOp::Sub, Box::new(term_of(*a)), Box::new(term_of(*b))),
        Expr::EMul(a, b) => Term::Bin(BinOp::Mul, Box::new(term_of(*a)), Box::new(term_of(*b))),
        Expr::EDiv(a, b) => Term::Bin(BinOp::Div, Box::new(term_of(*a)), Box::new(term_of(*b))),
        Expr::EExp(a, b) => Term::Bin(BinOp::Pow, Box::new(term_of(*a)), Box::new(term_of(*b))),
        Expr::ELet(n, x) => Term::Let(n@, Box::new(term_of(*x))),
        Expr::EIf(bs, els) => Term::If(branches_of(bs@, bs@.len()), terms_of(els@, els@.len())),
        Expr::EFunCall(n, args) => Term::Call(n@, terms_of(args@, args@.len())),
        Expr::EDefun(n, l) => Term::Define(n@, func_of(l)),
        Expr::EReturn(x) => Term::Return(Box::new(term_of(*x))),
    }
}

/// Models of the first `n` expressions of `s`.
pub open spec fn terms_of(s: Seq<Expr>, n: nat) -> Seq<Term>
    decreases s, n,
{
    if n == 0 || n > s.len() {
        Seq::empty()
    } else {
        terms_of(s, (n - 1) as nat).push(term_of(s[n - 1]))
    }
}

/// Models of the first `n` branches of `s`.
pub open spec fn branches_of(s: Seq<IfExpr>, n: nat) -> Seq<Branch>
    decreases s, n,
{
    if n == 0 || n > s.len() {
        Seq::empty()
    } else {
        branches_of(s, (n - 1) as nat).push(branch_of(s[n - 1]))
    }
}

pub open spec fn branch_of(b: IfExpr) -> Branch
    decreases b, 0nat,
{
    Branch {
        lhs: term_of(b.condition.0),
        rhs: term_of(b.condition.1),
        body: terms_of(b.body@, b.body@.len()),
    }
}

/// The names that a list of strings holds.
pub open spec fn names_of(v: Seq<String>) -> Seq<Seq<char>> {
    v.map_values(|p: String| p@)
}

pub open spec fn func_of(l: Lambda) -> Func
    decreases l, 0nat,
{
    Func { params: names_of(l.params@), body: terms_of(l.body@, l.body@.len()) }
}

/// Model of a bound value.
pub open spec fn val_of(v: EnvValue) -> Val {
    match v {
        EnvValue::ComputedResult(x) => Val::Number(x),
        EnvValue::LambdaRef(l) => Val::Function(func_of(l)),
        EnvValue::NativeFn(n) => Val::Native(n@),
    }
}

pub proof fn lemma_terms_of(s: Seq<Expr>, n: nat)
    requires
        n <= s.len(),
    ensures
        terms_of(s, n).len() == n,
        forall|i: int| 0 <= i < n ==> #[trigger] terms_of(s, n)[i] == term_of(s[i]),
    decreases n,
{
    if n > 0 {
        lemma_terms_of(s, (n - 1) as nat);
    }
}

pub proof fn lemma_branches_of(s: Seq<IfExpr>, n: nat)
    requires
        n <= s.len(),
    ensures
        branches_of(s, n).len() == n,
        forall|i: int| 0 <= i < n ==> #[trigger] branches_of(s, n)[i] == branch_of(s[i]),
    decreases n,
{
    if n > 0 {
        lemma_branches_of(s, (n - 1) as nat);
    }
}

// ---- Copies: each has the same model as the value it copies ----

impl Expr {
    pub fn duplicate(&self) -> (r: Expr)
        ensures
            term_of(r) == term_of(*self),
        decreases self, 0nat,
    {
        match self {
            Expr::ENum(t) => Expr::ENum(t.clone()),
            Expr::EVar(n) => Expr::EVar(n.clone()),
            Expr::EAdd(a, b) => Expr::EAdd(Box::new(a.duplicate()), Box::new(b.duplicate())),
            Expr::ESub(a, b) => Expr::ESub(Box::new(a.duplicate()), Box::new(b.duplicate())),
            Expr::EMul(a, b) => Expr::EMul(Box::new(a.duplicate()), Box::new(b.duplicate())),
            Expr::EDiv(a, b) => Expr::EDiv(Box::new(a.duplicate()), Box::new(b.duplicate())),
            Expr::EExp(a, b) => Expr::EExp(Box::new(a.duplicate()), Box::new(b.duplicate())),
            Expr::ELet(n, x) => Expr::ELet(n.clone(), Box::new(x.duplicate())),
            Expr::EIf(bs, els) => Expr::EIf(duplicate_branches(bs), duplicate_exprs(els)),
            Expr::EFunCall(n, args) => Expr::EFunCall(n.clone(), duplicate_exprs(args)),
            Expr::EDefun(n, l) => Expr::EDefun(n.clone(), l.duplicate()),
            Expr::EReturn(x) => Expr::EReturn(Box::new(x.duplicate())),
        }
    }
}

pub fn duplicate_exprs(v: &Vec<Expr>) -> (r: Vec<Expr>)
    ensures
        r@.len() == v@.len(),
        terms_of(r@, r@.len()) == terms_of(v@, v@.len()),
    decreases v, 0nat,
{
    let mut r: Vec<Expr> = Vec::new();
    let mut i: usize = 0;
    while i < v.len()
        invariant
            i <= v@.len(),
            r@.len() == i,
            forall|j: int| 0 <= j < i ==> #[trigger] term_of(r@[j]) == term_of(v@[j]),
        decreases v@.len() - i,
    {
        proof {
            assert(decreases_to!(v => v@[i as int]));
        }
        r.push(v[i].duplicate());
        i += 1;
    }
    proof {
        lemma_terms_of(r@, r@.len());
        lemma_terms_of(v@, v@.len());
        assert(terms_of(r@, r@.len()) =~= terms_of(v@, v@.len()));
    }
    r
}

pub fn duplicate_branches(v: &Vec<IfExpr>) -> (r: Vec<IfExpr>)
    ensures
        branches_of(r@, r@.len()) == branches_of(v@, v@.len()),
    decreases v, 0nat,
{
    let mut r: Vec<IfExpr> = Vec::new();
    let mut i: usize = 0;
    while i < v.len()
        invariant
            i <= v@.len(),
            r@.len() == i,
            forall|j: int| 0 <= j < i ==> #[trigger] branch_of(r@[j]) == branch_of(v@[j]),
        decreases v@.len() - i,
    {
        proof {
            assert(decreases_to!(v => v@[i as int]));
        }
        r.push(v[i].duplicate());
        i += 1;
    }
    proof {
        lemma_branches_of(r@, r@.len());
        lemma_branches_of(v@, v@.len());
        assert(branches_of(r@, r@.len()) =~= branches_of(v@, v@.len()));
    }
    r
}

pub fn duplicate_names(v: &Vec<String>) -> (r: Vec<String>)
    ensures
        names_of(r@) == names_of(v@),
{
    let mut r: Vec<String> = Vec::new();
    let mut i: usize = 0;
    while i < v.len()
        invariant
            i <= v@.len(),
            r@.len() == i,
            forall|j: int| 0 <= j < i ==> #[trigger] r@[j]@ == v@[j]@,
        decreases v@.len() - i,
    {
        r.push(v[i].clone());
        i += 1;
    }
    assert(names_of(r@) =~= names_of(v@));
    r
}

impl IfExpr {
    pub fn duplicate(&self) -> (r: IfExpr)
        ensures
            branch_of(r) == branch_of(*self),
        decreases self, 0nat,
    {
        IfExpr {
            condition: (self.condition.0.duplicate(), self.condition.1.duplicate()),
            body: duplicate_exprs(&self.body),
        }
    }
}

impl Lambda {
    pub fn duplicate(&self) -> (r: Lambda)
        ensures
            func_of(r) == func_of(*self),
        decreases self, 0nat,
    {
        Lambda { params: duplicate_names(&self.params), body: duplicate_exprs(&self.body) }
    }
}

impl EnvValue {
    pub fn duplicate(&self) -> (r: EnvValue)
        ensures
            val_of(r) == val_of(*self),
    {
        match self {
            EnvValue::ComputedResult(x) => EnvValue::ComputedResult(*x),
            EnvValue::LambdaRef(l) => EnvValue::LambdaRef(l.duplicate()),
            EnvValue::NativeFn(n) => EnvValue::NativeFn(n.clone()),
        }
    }
}

impl Clone for Expr {
    fn clone(&self) -> Self {
        self.duplicate()
    }
}

impl Clone for IfExpr {
    fn clone(&self) -> Self {
        self.duplicate()
    }
}

impl Clone for Lambda {
    fn clone(&self) -> Self {
        self.duplicate()
    }
}

impl Clone for EnvValue {
    fn clone(&self) -> Self {
        self.duplicate()
    }
}

} // verus!

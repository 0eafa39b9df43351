use vstd::prelude::*;

verus! {

/// A runtime value of the language.
#[derive(Debug)]
pub enum ScmValue {
    Integer(i64),
    /// An inexact number, held as the bit pattern of an IEEE-754 double.
    Float(u64),
    Bool(bool),
    Char(char),
    String(String),
    /// Reserved: nothing in the lexer or the compiler produces a symbol.
    Symbol(String),
    DotPair(Box<ScmValue>, Box<ScmValue>),
    Nil,
    Procedure(ScmCallable),
}

/// Something that can be called: a builtin, reached by its name through the host,
/// or a compiled procedure.
#[derive(Debug)]
pub enum ScmCallable {
    Builtin(String),
    CustomProc(ScmProcedure),
}

/// A compiled procedure: parameter names and a flat instruction vector in program order.
#[derive(Debug)]
pub struct ScmProcedure {
    pub params: Vec<String>,
    pub instructions: Vec<ScmProcUnit>,
}

/// One compiled instruction. The vector of a procedure is executed from its last
/// element to its first.
#[derive(Debug)]
pub enum ScmProcUnit {
    /// Push a value.
    Val(ScmValue),
    /// Push the value a name resolves to.
    Variable(String),
    /// Pop the given number of arguments and call the procedure the name resolves to.
    ProcCall(String, usize),
    /// Freeze the `units_cnt` instructions visited next into a closure with these parameters.
    Lambda { args: Vec<String>, units_cnt: usize },
    /// Pop the condition of an `if`; when it is `#f`, skip the then code, of this length,
    /// and the `FalseBranch` marker that precedes it.
    TrueBranch(usize),
    /// Reached at the end of the taken `then` code: skip this many instructions (the `else` code).
    FalseBranch(usize),
    /// Pop a value and store it under the name in the global table.
    Assign(String),
}

/// The mathematical model of a value.
pub enum Datum {
    Integer(i64),
    Float(u64),
    Bool(bool),
    Char(char),
    Str(Seq<char>),
    Symbol(Seq<char>),
    Pair(Box<Datum>, Box<Datum>),
    Nil,
    Builtin(Seq<char>),
    Custom(ProcModel),
}

/// The mathematical model of a compiled procedure.
pub struct ProcModel {
    pub params: Seq<Seq<char>>,
    pub body: Seq<Instr>,
}

/// The mathematical model of an instruction.
pub enum Instr {
    Val(Datum),
    Variable(Seq<char>),
    ProcCall(Seq<char>, nat),
    Lambda(Seq<Seq<char>>, nat),
    TrueBranch(nat),
    FalseBranch(nat),
    Assign(Seq<char>),
}

pub open spec fn names_model(names: Seq<String>) -> Seq<Seq<char>> {
    Seq::new(names.len(), |i: int| names[i]@)
}

pub open spec fn value_model(v: ScmValue) -> Datum
    decreases v,
{
    match v {
        ScmValue::Integer(n) => Datum::Integer(n),
        ScmValue::Float(b) => Datum::Float(b),
        ScmValue::Bool(b) => Datum::Bool(b),
        ScmValue::Char(c) => Datum::Char(c),
        ScmValue::String(s) => Datum::Str(s@),
        ScmValue::Symbol(s) => Datum::Symbol(s@),
        ScmValue::DotPair(a, b) => Datum::Pair(Box::new(value_model(*a)), Box::new(value_model(*b))),
        ScmValue::Nil => Datum::Nil,
        ScmValue::Procedure(ScmCallable::Builtin(name)) => Datum::Builtin(name@),
        ScmValue::Procedure(ScmCallable::CustomProc(p)) => Datum::Custom(proc_model(p)),
    }
}

pub open spec fn proc_model(p: ScmProcedure) -> ProcModel
    decreases p,
{
    ProcModel {
        params: names_model(p.params@),
        body: Seq::new(
            p.instructions@.len(),
            |i: int|
                if 0 <= i < p.instructions@.len() {
                    unit_model(p.instructions@[i])
                } else {
                    Instr::TrueBranch(0)
                },
        ),
    }
}

pub open spec fn unit_model(u: ScmProcUnit) -> Instr
    decreases u,
{
    match u {
        ScmProcUnit::Val(v) => Instr::Val(value_model(v)),
        ScmProcUnit::Variable(name) => Instr::Variable(name@),
        ScmProcUnit::ProcCall(name, n) => Instr::ProcCall(name@, n as nat),
        ScmProcUnit::Lambda { args, units_cnt } => Instr::Lambda(names_model(args@), units_cnt as nat),
        ScmProcUnit::TrueBranch(n) => Instr::TrueBranch(n as nat),
        ScmProcUnit::FalseBranch(n) => Instr::FalseBranch(n as nat),
        ScmProcUnit::Assign(name) => Instr::Assign(name@),
    }
}

pub open spec fn units_model(us: Seq<ScmProcUnit>) -> Seq<Instr> {
    Seq::new(us.len(), |i: int| unit_model(us[i]))
}

pub proof fn lemma_proc_model(p: ScmProcedure)
    ensures
        p@.params == names_model(p.params@),
        p@.body == units_model(p.instructions@),
{
    assert(p@.body =~= units_model(p.instructions@));
}

impl View for ScmValue {
    type V = Datum;

    open spec fn view(&self) -> Datum {
        value_model(*self)
    }
}

impl View for ScmProcedure {
    type V = ProcModel;

    open spec fn view(&self) -> ProcModel {
        proc_model(*self)
    }
}

impl View for ScmProcUnit {
    type V = Instr;

    open spec fn view(&self) -> Instr {
        unit_model(*self)
    }
}

impl View for ScmCallable {
    type V = Datum;

    open spec fn view(&self) -> Datum {
        value_model(ScmValue::Procedure(*self))
    }
}

pub fn clone_names(names: &Vec<String>) -> (r: Vec<String>)
    ensures
        names_model(r@) == names_model(names@),
{
    let mut r: Vec<String> = Vec::new();
    let mut i: usize = 0;
    while i < names.len()
        invariant
            i <= names.len(),
            r@.len() == i,
            forall|j: int| 0 <= j < i ==> r@[j]@ == names@[j]@,
        decreases names.len() - i,
    {
        r.push(names[i].clone());
        i = i + 1;
    }
    assert(names_model(r@) =~= names_model(names@));
    r
}

fn clone_value(v: &ScmValue) -> (r: ScmValue)
    ensures
        r@ == v@,
    decreases v,
{
    match v {
        ScmValue::Integer(n) => ScmValue::Integer(*n),
        ScmValue::Float(b) => ScmValue::Float(*b),
        ScmValue::Bool(b) => ScmValue::Bool(*b),
        ScmValue::Char(c) => ScmValue::Char(*c),
        ScmValue::String(s) => ScmValue::String(s.clone()),
        ScmValue::Symbol(s) => ScmValue::Symbol(s.clone()),
        ScmValue::DotPair(a, b) => {
            let a2 = clone_value(a);
            let b2 = clone_value(b);
            ScmValue::DotPair(Box::new(a2), Box::new(b2))
        },
        ScmValue::Nil => ScmValue::Nil,
        ScmValue::Procedure(ScmCallable::Builtin(name)) => ScmValue::Procedure(
            ScmCallable::Builtin(name.clone()),
        ),
        ScmValue::Procedure(ScmCallable::CustomProc(p)) => ScmValue::Procedure(
            ScmCallable::CustomProc(clone_proc(p)),
        ),
    }
}

fn clone_proc(p: &ScmProcedure) -> (r: ScmProcedure)
    ensures
        r@ == p@,
    decreases p,
{
    let params = clone_names(&p.params);
    let mut units: Vec<ScmProcUnit> = Vec::new();
    let mut i: usize = 0;
    while i < p.instructions.len()
        invariant
            i <= p.instructions.len(),
            units@.len() == i,
            forall|j: int| 0 <= j < i ==> units@[j]@ == p.instructions@[j]@,
        decreases p.instructions.len() - i,
    {
        proof {
            vstd::std_specs::vec::axiom_vec_index_decreases(p.instructions, i as int);
        }
        units.push(clone_unit(&p.instructions[i]));
        i = i + 1;
    }
    let r = ScmProcedure { params, instructions: units };
    assert(r@.body =~= p@.body);
    r
}

fn clone_unit(u: &ScmProcUnit) -> (r: ScmProcUnit)
    ensures
        r@ == u@,
    decreases u,
{
    match u {
        ScmProcUnit::Val(v) => ScmProcUnit::Val(clone_value(v)),
        ScmProcUnit::Variable(name) => ScmProcUnit::Variable(name.clone()),
        ScmProcUnit::ProcCall(name, n) => ScmProcUnit::ProcCall(name.clone(), *n),
        ScmProcUnit::Lambda { args, units_cnt } => ScmProcUnit::Lambda {
            args: clone_names(args),
            units_cnt: *units_cnt,
        },
        ScmProcUnit::TrueBranch(n) => ScmProcUnit::TrueBranch(*n),
        ScmProcUnit::FalseBranch(n) => ScmProcUnit::FalseBranch(*n),
        ScmProcUnit::Assign(name) => ScmProcUnit::Assign(name.clone()),
    }
}

impl Clone for ScmValue {
    fn clone(&self) -> (r: Self)
        ensures
            r@ == self@,
    {
        clone_value(self)
    }
}

impl Clone for ScmProcedure {
    fn clone(&self) -> (r: Self)
        ensures
            r@ == self@,
    {
        clone_proc(self)
    }
}

impl Clone for ScmProcUnit {
    fn clone(&self) -> (r: Self)
        ensures
            r@ == self@,
    {
        clone_unit(self)
    }
}

impl Clone for ScmCallable {
    fn clone(&self) -> (r: Self)
        ensures
            r@ == self@,
    {
        match self {
            ScmCallable::Builtin(name) => ScmCallable::Builtin(name.clone()),
            ScmCallable::CustomProc(p) => ScmCallable::CustomProc(clone_proc(p)),
        }
    }
}

} // verus!

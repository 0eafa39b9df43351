use vstd::prelude::*;
use crate::util::{
    first_index, is_first_index, lemma_first_index_none, lemma_first_index_unique, scopes_lookup,
    table_assign, table_lookup, VariablesSet,
};
use crate::value::{
    lemma_proc_model, names_model, units_model, Datum, Instr, ProcModel, ScmCallable, ScmProcUnit,
    ScmProcedure, ScmValue,
};

verus! {

/// A scope table with values replaced by their models.
pub open spec fn table_model(t: Seq<(Seq<char>, ScmValue)>) -> Seq<(Seq<char>, Datum)> {
    Seq::new(t.len(), |i: int| (t[i].0, t[i].1@))
}

/// A stack of scope tables with values replaced by their models.
pub open spec fn scopes_model(s: Seq<Seq<(Seq<char>, ScmValue)>>) -> Seq<Seq<(Seq<char>, Datum)>> {
    Seq::new(s.len(), |i: int| table_model(s[i]))
}

pub open spec fn values_model(vs: Seq<ScmValue>) -> Seq<Datum> {
    Seq::new(vs.len(), |i: int| vs[i]@)
}

/// The global state of a program run: a stack of scope tables. The engine pushes no
/// table, so the global one is the only table and every assignment goes to it.
pub struct ScmExecContext {
    pub variables: VariablesSet<ScmValue>,
}

impl View for ScmExecContext {
    type V = Seq<Seq<(Seq<char>, Datum)>>;

    open spec fn view(&self) -> Seq<Seq<(Seq<char>, Datum)>> {
        scopes_model(self.variables@)
    }
}

proof fn lemma_table_model_first_index(t: Seq<(Seq<char>, ScmValue)>, name: Seq<char>)
    ensures
        first_index(table_model(t), name) == first_index(t, name),
{
    let m = table_model(t);
    if exists|i: int| is_first_index(t, name, i) {
        let i = choose|i: int| is_first_index(t, name, i);
        lemma_first_index_unique(t, name, i);
        assert(is_first_index(m, name, i));
        lemma_first_index_unique(m, name, i);
    } else {
        assert forall|j: int| 0 <= j < t.len() implies t[j].0 != name by {
            if t[j].0 == name {
                lemma_least_match(t, name, j);
            }
        }
        lemma_first_index_none(t, name);
        assert forall|j: int| 0 <= j < m.len() implies m[j].0 != name by {
            assert(m[j].0 == t[j].0);
        }
        lemma_first_index_none(m, name);
    }
}

proof fn lemma_least_match(t: Seq<(Seq<char>, ScmValue)>, name: Seq<char>, j: int)
    requires
        0 <= j < t.len(),
        t[j].0 == name,
    ensures
        exists|i: int| is_first_index(t, name, i),
    decreases j,
{
    if exists|l: int| 0 <= l < j && t[l].0 == name {
        let l = choose|l: int| 0 <= l < j && t[l].0 == name;
        lemma_least_match(t, name, l);
    } else {
        assert(is_first_index(t, name, j));
    }
}

pub open spec fn opt_model(o: Option<ScmValue>) -> Option<Datum> {
    match o {
        Some(v) => Some(v@),
        None => None,
    }
}

proof fn lemma_scopes_lookup_model(s: Seq<Seq<(Seq<char>, ScmValue)>>, name: Seq<char>)
    ensures
        scopes_lookup(scopes_model(s), name) == opt_model(scopes_lookup(s, name)),
    decreases s.len(),
{
    if s.len() > 0 {
        let m = scopes_model(s);
        lemma_table_model_first_index(s.last(), name);
        assert(m.last() == table_model(s.last()));
        assert(m.drop_last() =~= scopes_model(s.drop_last()));
        lemma_scopes_lookup_model(s.drop_last(), name);
    }
}

proof fn lemma_assign_model(s: Seq<Seq<(Seq<char>, ScmValue)>>, name: Seq<char>, x: ScmValue)
    requires
        s.len() > 0,
    ensures
        scopes_model(s.update(s.len() - 1, table_assign(s.last(), name, x))) == scopes_model(s).update(
            s.len() - 1,
            table_assign(scopes_model(s).last(), name, x@),
        ),
{
    let t = s.last();
    lemma_table_model_first_index(t, name);
    assert(scopes_model(s).last() == table_model(t));
    assert(table_model(table_assign(t, name, x)) =~= table_assign(table_model(t), name, x@));
    assert(scopes_model(s.update(s.len() - 1, table_assign(s.last(), name, x))) =~= scopes_model(s).update(
        s.len() - 1,
        table_assign(scopes_model(s).last(), name, x@),
    ));
}

impl ScmExecContext {
    pub open spec fn wf(&self) -> bool {
        self.variables.wf()
    }

    /// A context with an empty global table. Builtins are registered by the host.
    pub fn new() -> (r: ScmExecContext)
        ensures
            r.wf(),
            r@ == seq![Seq::<(Seq<char>, Datum)>::empty()],
    {
        let r = ScmExecContext { variables: VariablesSet::new() };
        assert(r@ =~= seq![Seq::<(Seq<char>, Datum)>::empty()]) by {
            assert(table_model(Seq::<(Seq<char>, ScmValue)>::empty()) =~= Seq::<(Seq<char>, Datum)>::empty());
        }
        r
    }

    /// Binds `name` to `val` in the most recently pushed table: the global one, since the
    /// engine pushes none.
    pub fn add_or_assign_var(&mut self, name: &str, val: ScmValue)
        requires
            old(self).wf(),
        ensures
            final(self).wf(),
            final(self)@ == old(self)@.update(
                old(self)@.len() - 1,
                table_assign(old(self)@.last(), name@, val@),
            ),
    {
        proof {
            lemma_assign_model(self.variables@, name@, val);
        }
        self.variables.add_or_assign_var(name, val);
    }

    /// Makes `name` resolve to the builtin procedure of that name.
    pub fn register_builtin(&mut self, name: &str)
        requires
            old(self).wf(),
        ensures
            final(self).wf(),
            final(self)@ == old(self)@.update(
                old(self)@.len() - 1,
                table_assign(old(self)@.last(), name@, Datum::Builtin(name@)),
            ),
    {
        let v = ScmValue::Procedure(ScmCallable::Builtin(name.to_owned()));
        self.add_or_assign_var(name, v);
    }
}

/// The call arguments paired with the parameter names, position by position.
pub open spec fn bind_args(params: Seq<Seq<char>>, args: Seq<Datum>) -> Seq<(Seq<char>, Datum)> {
    Seq::new(params.len(), |i: int| (params[i], args[i]))
}

/// The model of one activation of a compiled procedure.
pub struct FrameModel {
    pub params: Seq<Seq<char>>,
    pub args: Seq<Datum>,
    pub code: Seq<Instr>,
    /// How many instructions are not yet visited; the next one is `code[pc - 1]`.
    pub pc: nat,
    pub stack: Seq<Datum>,
}

/// What `name` resolves to in a frame: a parameter first, then the scope tables.
pub open spec fn resolve(f: FrameModel, g: Seq<Seq<(Seq<char>, Datum)>>, name: Seq<char>) -> Option<Datum> {
    match table_lookup(bind_args(f.params, f.args), name) {
        Some(v) => Some(v),
        None => scopes_lookup(g, name),
    }
}

/// Whether the `Lambda` at `m` of `region` has position `k` in its body and `name` among
/// its parameters.
pub open spec fn binds_at(region: Seq<Instr>, m: int, k: int, name: Seq<char>) -> bool {
    match region[m] {
        Instr::Lambda(ps, c) => m - c <= k && ps.contains(name),
        _ => false,
    }
}

/// Whether `name` at position `k` of `region` is a parameter of a lambda nested in it.
pub open spec fn bound_inside(region: Seq<Instr>, k: int, name: Seq<char>) -> bool {
    exists|m: int| k < m < region.len() && #[trigger] binds_at(region, m, k, name)
}

/// Instruction `k` of a region frozen into the body of a closure: a variable that is
/// neither a parameter of the closure nor of a lambda nested in it, and that resolves
/// now, becomes the value it resolves to.
pub open spec fn freeze_at(
    region: Seq<Instr>,
    k: int,
    params: Seq<Seq<char>>,
    f: FrameModel,
    g: Seq<Seq<(Seq<char>, Datum)>>,
) -> Instr {
    match region[k] {
        Instr::Variable(name) => if params.contains(name) || bound_inside(region, k, name) {
            region[k]
        } else {
            match resolve(f, g, name) {
                Some(v) => Instr::Val(v),
                None => region[k],
            }
        },
        u => u,
    }
}

pub open spec fn freeze(
    region: Seq<Instr>,
    params: Seq<Seq<char>>,
    f: FrameModel,
    g: Seq<Seq<(Seq<char>, Datum)>>,
) -> Seq<Instr> {
    Seq::new(region.len(), |k: int| freeze_at(region, k, params, f, g))
}

/// The `n` values on top of the stack, the topmost first.
pub open spec fn popped(stack: Seq<Datum>, n: nat) -> Seq<Datum> {
    Seq::new(n, |k: int| stack[stack.len() - 1 - k])
}

pub open spec fn is_falsy(v: Datum) -> bool {
    v == Datum::Bool(false)
}

/// Why the evaluation of a form was aborted.
#[derive(Debug)]
pub enum ExecError {
    /// A name resolves neither to a parameter nor to a global.
    UnknownVariable(String),
    /// The name of a call resolves to a value that is not a procedure.
    NotCallable(String),
    /// A procedure was called with a number of arguments other than its parameters.
    ArityMismatch,
    /// An instruction needs more values than the stack holds.
    StackUnderflow,
    /// A skip count goes past the start of the code.
    BadSkip,
    /// A procedure ended with other than exactly one value on its stack.
    BadStackShape,
}

pub enum Fault {
    UnknownVariable(Seq<char>),
    NotCallable(Seq<char>),
    ArityMismatch,
    StackUnderflow,
    BadSkip,
    BadStackShape,
}

impl View for ExecError {
    type V = Fault;

    open spec fn view(&self) -> Fault {
        match self {
            ExecError::UnknownVariable(s) => Fault::UnknownVariable(s@),
            ExecError::NotCallable(s) => Fault::NotCallable(s@),
            ExecError::ArityMismatch => Fault::ArityMismatch,
            ExecError::StackUnderflow => Fault::StackUnderflow,
            ExecError::BadSkip => Fault::BadSkip,
            ExecError::BadStackShape => Fault::BadStackShape,
        }
    }
}

/// What the host is to do after a step.
#[derive(Debug)]
pub enum Action {
    /// Step again.
    Continue,
    /// Run the named builtin on these arguments, then `resume` with its result (or
    /// `invoke` a procedure whose result stands for it).
    CallBuiltin(String, Vec<ScmValue>),
    /// The outermost procedure returned this value.
    Done(ScmValue),
}

/// The result of one step, over models.
pub enum Outcome {
    Next(Seq<FrameModel>, Seq<Seq<(Seq<char>, Datum)>>),
    Builtin(Seq<FrameModel>, Seq<char>, Seq<Datum>),
    Finished(Datum),
    Failed(Fault),
}

pub open spec fn with_top(frames: Seq<FrameModel>, f: FrameModel) -> Seq<FrameModel> {
    frames.update(frames.len() - 1, f)
}

/// A new frame for a call of `p` on `args`.
pub open spec fn call_frame(p: ProcModel, args: Seq<Datum>) -> FrameModel {
    FrameModel { params: p.params, args, code: p.body, pc: p.body.len(), stack: Seq::empty() }
}

/// One step of the machine whose innermost frame is the last of `frames`.
pub open spec fn step_spec(frames: Seq<FrameModel>, g: Seq<Seq<(Seq<char>, Datum)>>) -> Outcome {
    let f = frames.last();
    if f.pc == 0 {
        if f.stack.len() != 1 {
            Outcome::Failed(Fault::BadStackShape)
        } else if frames.len() == 1 {
            Outcome::Finished(f.stack[0])
        } else {
            let rest = frames.drop_last();
            let caller = rest.last();
            Outcome::Next(with_top(rest, FrameModel { stack: caller.stack.push(f.stack[0]), ..caller }), g)
        }
    } else {
        let pc = (f.pc - 1) as nat;
        let f1 = FrameModel { pc, ..f };
        match f.code[pc as int] {
            Instr::Val(v) => Outcome::Next(with_top(frames, FrameModel { stack: f.stack.push(v), ..f1 }), g),
            Instr::Variable(name) => match resolve(f, g, name) {
                Some(v) => Outcome::Next(with_top(frames, FrameModel { stack: f.stack.push(v), ..f1 }), g),
                None => Outcome::Failed(Fault::UnknownVariable(name)),
            },
            Instr::ProcCall(name, n) => if f.stack.len() < n {
                Outcome::Failed(Fault::StackUnderflow)
            } else {
                let args = popped(f.stack, n);
                let f2 = FrameModel { stack: f.stack.subrange(0, f.stack.len() - n), ..f1 };
                match resolve(f, g, name) {
                    None => Outcome::Failed(Fault::UnknownVariable(name)),
                    Some(Datum::Builtin(b)) => Outcome::Builtin(with_top(frames, f2), b, args),
                    Some(Datum::Custom(p)) => if p.params.len() != n {
                        Outcome::Failed(Fault::ArityMismatch)
                    } else {
                        Outcome::Next(with_top(frames, f2).push(call_frame(p, args)), g)
                    },
                    Some(_) => Outcome::Failed(Fault::NotCallable(name)),
                }
            },
            Instr::Lambda(params, cnt) => if pc < cnt {
                Outcome::Failed(Fault::BadSkip)
            } else {
                let body = freeze(f.code.subrange(pc - cnt, pc as int), params, f, g);
                let closure = Datum::Custom(ProcModel { params, body });
                Outcome::Next(
                    with_top(frames, FrameModel { pc: (pc - cnt) as nat, stack: f.stack.push(closure), ..f }),
                    g,
                )
            },
            Instr::TrueBranch(n) => if f.stack.len() == 0 {
                Outcome::Failed(Fault::StackUnderflow)
            } else if is_falsy(f.stack.last()) {
                if pc < n + 1 {
                    Outcome::Failed(Fault::BadSkip)
                } else {
                    Outcome::Next(
                        with_top(frames, FrameModel { pc: (pc - n - 1) as nat, stack: f.stack.drop_last(), ..f }),
                        g,
                    )
                }
            } else {
                Outcome::Next(with_top(frames, FrameModel { stack: f.stack.drop_last(), ..f1 }), g)
            },
            Instr::FalseBranch(n) => if pc < n {
                Outcome::Failed(Fault::BadSkip)
            } else {
                Outcome::Next(with_top(frames, FrameModel { pc: (pc - n) as nat, ..f }), g)
            },
            Instr::Assign(name) => if f.stack.len() == 0 {
                Outcome::Failed(Fault::StackUnderflow)
            } else {
                Outcome::Next(
                    with_top(frames, FrameModel { stack: f.stack.drop_last(), ..f1 }),
                    g.update(g.len() - 1, table_assign(g.last(), name, f.stack.last())),
                )
            },
        }
    }
}


/// One activation of a compiled procedure.
pub struct Frame {
    params: Vec<String>,
    args: Vec<ScmValue>,
    code: Vec<ScmProcUnit>,
    pc: usize,
    stack: Vec<ScmValue>,
}

impl View for Frame {
    type V = FrameModel;

    closed spec fn view(&self) -> FrameModel {
        FrameModel {
            params: names_model(self.params@),
            args: values_model(self.args@),
            code: units_model(self.code@),
            pc: self.pc as nat,
            stack: values_model(self.stack@),
        }
    }
}

/// The pc lies within the code, and there is one argument per parameter.
pub open spec fn frame_ok(f: FrameModel) -> bool {
    &&& f.pc <= f.code.len()
    &&& f.args.len() == f.params.len()
}

impl Frame {
    closed spec fn inner_ok(&self) -> bool {
        &&& self.pc <= self.code@.len()
        &&& self.args@.len() == self.params@.len()
    }

    proof fn lemma_ok(&self)
        ensures
            self.inner_ok() <==> frame_ok(self@),
    {
    }

    fn push_value(&mut self, v: ScmValue)
        ensures
            final(self)@ == (FrameModel { stack: old(self)@.stack.push(v@), ..old(self)@ }),
            final(self).inner_ok() == old(self).inner_ok(),
    {
        self.stack.push(v);
        assert(values_model(self.stack@) =~= values_model(old(self).stack@).push(v@));
    }

    fn pop_value(&mut self) -> (r: ScmValue)
        requires
            old(self)@.stack.len() > 0,
        ensures
            r@ == old(self)@.stack.last(),
            final(self)@ == (FrameModel { stack: old(self)@.stack.drop_last(), ..old(self)@ }),
            final(self).inner_ok() == old(self).inner_ok(),
    {
        let r = self.stack.pop().unwrap();
        assert(values_model(self.stack@) =~= values_model(old(self).stack@).drop_last());
        r
    }

    fn set_pc(&mut self, pc: usize)
        ensures
            final(self)@ == (FrameModel { pc: pc as nat, ..old(self)@ }),
            final(self).inner_ok() == (pc <= old(self)@.code.len() && old(self).args@.len()
                == old(self).params@.len()),
    {
        self.pc = pc;
    }
}

/// The model of a machine: its frames, innermost last, and whether it waits for the
/// result of a builtin (or for the first procedure to run).
pub struct MachineModel {
    pub frames: Seq<FrameModel>,
    pub waiting: bool,
}

/// Executes compiled procedures one instruction at a time. Builtins are run by the host:
/// a step that calls one hands it out as an `Action`, and the host hands the result back.
pub struct Machine {
    frames: Vec<Frame>,
    waiting: bool,
}

impl View for Machine {
    type V = MachineModel;

    closed spec fn view(&self) -> MachineModel {
        MachineModel { frames: Seq::new(self.frames@.len(), |i: int| self.frames@[i]@), waiting: self.waiting }
    }
}

/// Every frame is well formed, and a machine that does not wait has a frame to run.
pub open spec fn machine_ok(m: MachineModel) -> bool {
    &&& forall|i: int| 0 <= i < m.frames.len() ==> frame_ok(#[trigger] m.frames[i])
    &&& !m.waiting ==> m.frames.len() > 0
}

/// How the result of a step and the state after it match the outcome `o` of `step_spec`.
pub open spec fn step_matches(
    o: Outcome,
    r: Result<Action, ExecError>,
    after: MachineModel,
    g_after: Seq<Seq<(Seq<char>, Datum)>>,
    g_before: Seq<Seq<(Seq<char>, Datum)>>,
) -> bool {
    match o {
        Outcome::Next(fs, g) => r is Ok && r->Ok_0 is Continue && after.frames == fs && !after.waiting
            && g_after == g,
        Outcome::Builtin(fs, name, args) => r is Ok && r->Ok_0 is CallBuiltin && r->Ok_0->CallBuiltin_0@
            == name && values_model(r->Ok_0->CallBuiltin_1@) == args && after.frames == fs && after.waiting
            && g_after == g_before,
        Outcome::Finished(v) => r is Ok && r->Ok_0 is Done && r->Ok_0->Done_0@ == v && after.frames.len()
            == 0 && after.waiting && g_after == g_before,
        Outcome::Failed(e) => r is Err && r->Err_0@ == e && g_after == g_before,
    }
}

/// The first position of `name` among `params`, with the argument there.
fn find_arg(name: &String, params: &Vec<String>, args: &Vec<ScmValue>) -> (r: Option<ScmValue>)
    requires
        params@.len() == args@.len(),
    ensures
        opt_model(r) == table_lookup(bind_args(names_model(params@), values_model(args@)), name@),
{
    let ghost b = bind_args(names_model(params@), values_model(args@));
    let mut i: usize = 0;
    while i < params.len()
        invariant
            i <= params@.len() == args@.len(),
            b == bind_args(names_model(params@), values_model(args@)),
            forall|j: int| 0 <= j < i ==> b[j].0 != name@,
        decreases params@.len() - i,
    {
        if params[i] == *name {
            proof {
                lemma_first_index_unique(b, name@, i as int);
            }
            return Some(args[i].clone());
        }
        i = i + 1;
    }
    proof {
        lemma_first_index_none(b, name@);
    }
    None
}

/// What `name` resolves to in frame `f`; see `resolve`.
fn find_var(name: &String, f: &Frame, ctx: &ScmExecContext) -> (r: Option<ScmValue>)
    requires
        f.inner_ok(),
    ensures
        opt_model(r) == resolve(f@, ctx@, name@),
{
    proof {
        lemma_scopes_lookup_model(ctx.variables@, name@);
    }
    match find_arg(name, &f.params, &f.args) {
        Some(v) => Some(v),
        None => ctx.variables.find_var(name.as_str()),
    }
}

fn names_contain(names: &Vec<String>, name: &String) -> (r: bool)
    ensures
        r == names_model(names@).contains(name@),
{
    let mut i: usize = 0;
    while i < names.len()
        invariant
            i <= names@.len(),
            forall|j: int| 0 <= j < i ==> names@[j]@ != name@,
        decreases names@.len() - i,
    {
        if names[i] == *name {
            assert(names_model(names@)[i as int] == name@);
            return true;
        }
        i = i + 1;
    }
    false
}

/// Whether `name` at position `k` of `code[lo..hi]` is a parameter of a lambda nested there.
fn bound_in_region(code: &Vec<ScmProcUnit>, lo: usize, hi: usize, k: usize, name: &String) -> (r: bool)
    requires
        lo <= k < hi <= code@.len(),
    ensures
        r == bound_inside(units_model(code@).subrange(lo as int, hi as int), k - lo, name@),
{
    let ghost region = units_model(code@).subrange(lo as int, hi as int);
    let mut m: usize = k + 1;
    while m < hi
        invariant
            lo <= k < m <= hi,
            hi <= code@.len(),
            region == units_model(code@).subrange(lo as int, hi as int),
            forall|j: int| k - lo < j < m - lo ==> !#[trigger] binds_at(region, j, k - lo, name@),
        decreases hi - m,
    {
        assert(region[m - lo] == code@[m as int]@);
        match &code[m] {
            ScmProcUnit::Lambda { args, units_cnt } => {
                if m - k <= *units_cnt && names_contain(args, name) {
                    assert(binds_at(region, m - lo, k - lo, name@));
                    return true;
                }
            },
            _ => {},
        }
        m = m + 1;
    }
    false
}

/// The instructions `f.code[lo..hi]` frozen into the body of a closure with these parameters.
fn freeze_region(f: &Frame, lo: usize, hi: usize, params: &Vec<String>, ctx: &ScmExecContext) -> (r: Vec<ScmProcUnit>)
    requires
        f.inner_ok(),
        lo <= hi <= f@.code.len(),
    ensures
        units_model(r@) == freeze(f@.code.subrange(lo as int, hi as int), names_model(params@), f@, ctx@),
{
    let ghost region = f@.code.subrange(lo as int, hi as int);
    let ghost target = freeze(region, names_model(params@), f@, ctx@);
    let mut out: Vec<ScmProcUnit> = Vec::new();
    let mut k: usize = lo;
    while k < hi
        invariant
            lo <= k <= hi <= f@.code.len(),
            f.inner_ok(),
            region == f@.code.subrange(lo as int, hi as int),
            target == freeze(region, names_model(params@), f@, ctx@),
            out@.len() == k - lo,
            forall|j: int| 0 <= j < out@.len() ==> (#[trigger] out@[j])@ == target[j],
        decreases hi - k,
    {
        let u = &f.code[k];
        assert(region[k - lo] == u@);
        let frozen = match u {
            ScmProcUnit::Variable(name) => {
                if names_contain(params, name) || bound_in_region(&f.code, lo, hi, k, name) {
                    u.clone()
                } else {
                    match find_var(name, f, ctx) {
                        Some(v) => ScmProcUnit::Val(v),
                        None => u.clone(),
                    }
                }
            },
            _ => u.clone(),
        };
        out.push(frozen);
        k = k + 1;
    }
    assert(units_model(out@) =~= target);
    out
}

impl Machine {
    pub open spec fn wf(&self) -> bool {
        machine_ok(self@)
    }

    closed spec fn inner_ok(&self) -> bool {
        forall|i: int| 0 <= i < self.frames@.len() ==> (#[trigger] self.frames@[i]).inner_ok()
    }

    proof fn lemma_ok(&self)
        ensures
            self.inner_ok() == (forall|i: int| 0 <= i < self@.frames.len() ==> frame_ok(#[trigger] self@.frames[i])),
    {
        if self.inner_ok() {
            assert forall|i: int| 0 <= i < self@.frames.len() implies frame_ok(#[trigger] self@.frames[i]) by {
                assert(self.frames@[i].inner_ok());
                self.frames@[i].lemma_ok();
            }
        }
        if forall|i: int| 0 <= i < self@.frames.len() ==> frame_ok(#[trigger] self@.frames[i]) {
            assert forall|i: int| 0 <= i < self.frames@.len() implies (#[trigger] self.frames@[i]).inner_ok() by {
                assert(frame_ok(self@.frames[i]));
                self.frames@[i].lemma_ok();
            }
        }
    }

    /// A machine with no frame, waiting for the procedure to run.
    pub fn new() -> (r: Machine)
        ensures
            r@.frames.len() == 0,
            r@.waiting,
            r.wf(),
    {
        Machine { frames: Vec::new(), waiting: true }
    }

    /// Whether the machine waits for a builtin's result or a procedure to run.
    pub fn is_waiting(&self) -> (r: bool)
        ensures
            r == self@.waiting,
    {
        self.waiting
    }

    fn pop_frame(&mut self) -> (r: Frame)
        requires
            old(self)@.frames.len() > 0,
        ensures
            r@ == old(self)@.frames.last(),
            final(self)@.frames == old(self)@.frames.drop_last(),
            final(self)@.waiting == old(self)@.waiting,
            old(self).inner_ok() ==> final(self).inner_ok() && r.inner_ok(),
    {
        let r = self.frames.pop().unwrap();
        assert(self@.frames =~= old(self)@.frames.drop_last());
        r
    }

    fn push_frame(&mut self, f: Frame)
        ensures
            final(self)@.frames == old(self)@.frames.push(f@),
            final(self)@.waiting == old(self)@.waiting,
            old(self).inner_ok() && f.inner_ok() ==> final(self).inner_ok(),
    {
        self.frames.push(f);
        assert(self@.frames =~= old(self)@.frames.push(f@));
    }

    /// Hands the machine the result of the builtin it called: it goes on top of the
    /// calling frame's stack. With no frame left, it is the final result.
    pub fn resume(&mut self, v: ScmValue) -> (r: Action)
        requires
            old(self).wf(),
            old(self)@.waiting,
        ensures
            final(self).wf(),
            old(self)@.frames.len() == 0 ==> r is Done && r->Done_0@ == v@ && final(self)@ == old(self)@,
            old(self)@.frames.len() > 0 ==> r is Continue && !final(self)@.waiting && final(self)@.frames
                == with_top(
                old(self)@.frames,
                FrameModel { stack: old(self)@.frames.last().stack.push(v@), ..old(self)@.frames.last() },
            ),
    {
        proof {
            self.lemma_ok();
        }
        if self.frames.len() == 0 {
            return Action::Done(v);
        }
        let mut f = self.pop_frame();
        f.push_value(v);
        self.push_frame(f);
        self.waiting = false;
        proof {
            assert(self@.frames =~= with_top(
                old(self)@.frames,
                FrameModel { stack: old(self)@.frames.last().stack.push(v@), ..old(self)@.frames.last() },
            ));
            self.lemma_ok();
        }
        Action::Continue
    }

    /// Calls `p` on `args` in place of the builtin the machine waits for (or as the
    /// procedure to run, on a new machine). A compiled procedure gets a new frame; a
    /// builtin is handed back to the host.
    pub fn invoke(&mut self, p: ScmCallable, args: Vec<ScmValue>) -> (r: Result<Action, ExecError>)
        requires
            old(self).wf(),
            old(self)@.waiting,
        ensures
            final(self).wf(),
            match p@ {
                Datum::Custom(pm) => if pm.params.len() == args@.len() {
                    r is Ok && r->Ok_0 is Continue && final(self)@ == (MachineModel {
                        frames: old(self)@.frames.push(call_frame(pm, values_model(args@))),
                        waiting: false,
                    })
                } else {
                    r is Err && r->Err_0 is ArityMismatch && final(self)@ == old(self)@
                },
                Datum::Builtin(name) => r is Ok && r->Ok_0 is CallBuiltin && r->Ok_0->CallBuiltin_0@ == name
                    && values_model(r->Ok_0->CallBuiltin_1@) == values_model(args@) && final(self)@ == old(
                    self,
                )@,
                _ => false,
            },
    {
        proof {
            self.lemma_ok();
        }
        match p {
            ScmCallable::Builtin(name) => Ok(Action::CallBuiltin(name, args)),
            ScmCallable::CustomProc(proc) => {
                proof {
                    lemma_proc_model(proc);
                }
                if proc.params.len() != args.len() {
                    return Err(ExecError::ArityMismatch);
                }
                let n = proc.instructions.len();
                let f = Frame { params: proc.params, args, code: proc.instructions, pc: n, stack: Vec::new() };
                proof {
                    assert(f@.stack =~= Seq::<Datum>::empty());
                }
                self.push_frame(f);
                self.waiting = false;
                proof {
                    self.lemma_ok();
                }
                Ok(Action::Continue)
            },
        }
    }

    /// Ends the innermost frame, whose code is all visited: its one stack value goes to
    /// the caller, or is the final result.
    fn finish_frame(
        &mut self,
        f: Frame,
        Ghost(frames): Ghost<Seq<FrameModel>>,
        Ghost(g): Ghost<Seq<Seq<(Seq<char>, Datum)>>>,
    ) -> (r: Result<Action, ExecError>)
        requires
            old(self).inner_ok(),
            f.inner_ok(),
            frames.len() > 0,
            old(self)@.frames == frames.drop_last(),
            f@ == frames.last(),
            f@.pc == 0,
        ensures
            step_matches(step_spec(frames, g), r, final(self)@, g, g),
            r is Ok ==> final(self).wf(),
    {
        let mut f = f;
        if f.stack.len() != 1 {
            return Err(ExecError::BadStackShape);
        }
        let ghost s0 = f@.stack;
        let v = f.pop_value();
        assert(v@ == s0[0]);
        if self.frames.len() == 0 {
            self.waiting = true;
            proof {
                self.lemma_ok();
            }
            return Ok(Action::Done(v));
        }
        let mut caller = self.pop_frame();
        caller.push_value(v);
        self.push_frame(caller);
        self.waiting = false;
        proof {
            let rest = frames.drop_last();
            assert(self@.frames =~= with_top(rest, FrameModel { stack: rest.last().stack.push(v@), ..rest.last() }));
            self.lemma_ok();
        }
        Ok(Action::Continue)
    }

    /// Runs the next instruction of the innermost frame; see `step_spec`.
    pub fn step(&mut self, ctx: &mut ScmExecContext) -> (r: Result<Action, ExecError>)
        requires
            old(self).wf(),
            !old(self)@.waiting,
            old(ctx).wf(),
        ensures
            final(ctx).wf(),
            step_matches(step_spec(old(self)@.frames, old(ctx)@), r, final(self)@, final(ctx)@, old(ctx)@),
            r is Ok ==> final(self).wf(),
    {
        let ghost frames = self@.frames;
        let ghost g = ctx@;
        proof {
            self.lemma_ok();
        }
        let mut f = self.pop_frame();
        if f.pc == 0 {
            return self.finish_frame(f, Ghost(frames), Ghost(g));
        }
        let pc = f.pc - 1;
        let ghost f0 = f@;
        let u = f.code[pc].clone();
        assert(u@ == f0.code[pc as int]);
        let r = match u {
            ScmProcUnit::Val(v) => {
                f.set_pc(pc);
                f.push_value(v);
                self.push_frame(f);
                Ok(Action::Continue)
            },
            ScmProcUnit::Variable(name) => match find_var(&name, &f, ctx) {
                Some(v) => {
                    f.set_pc(pc);
                    f.push_value(v);
                    self.push_frame(f);
                    Ok(Action::Continue)
                },
                None => Err(ExecError::UnknownVariable(name)),
            },
            ScmProcUnit::ProcCall(name, n) => self.step_call(f, pc, name, n, ctx, Ghost(frames)),
            ScmProcUnit::Lambda { args: params, units_cnt } => {
                if pc < units_cnt {
                    Err(ExecError::BadSkip)
                } else {
                    let body = freeze_region(&f, pc - units_cnt, pc, &params, ctx);
                    let proc = ScmProcedure { params, instructions: body };
                    proof {
                        lemma_proc_model(proc);
                    }
                    f.set_pc(pc - units_cnt);
                    f.push_value(ScmValue::Procedure(ScmCallable::CustomProc(proc)));
                    self.push_frame(f);
                    Ok(Action::Continue)
                }
            },
            ScmProcUnit::TrueBranch(n) => {
                if f.stack.len() == 0 {
                    Err(ExecError::StackUnderflow)
                } else {
                    let c = f.pop_value();
                    let falsy = match c {
                        ScmValue::Bool(b) => !b,
                        _ => false,
                    };
                    if falsy {
                        if pc <= n {
                            Err(ExecError::BadSkip)
                        } else {
                            f.set_pc(pc - n - 1);
                            self.push_frame(f);
                            Ok(Action::Continue)
                        }
                    } else {
                        f.set_pc(pc);
                        self.push_frame(f);
                        Ok(Action::Continue)
                    }
                }
            },
            ScmProcUnit::FalseBranch(n) => {
                if pc < n {
                    Err(ExecError::BadSkip)
                } else {
                    f.set_pc(pc - n);
                    self.push_frame(f);
                    Ok(Action::Continue)
                }
            },
            ScmProcUnit::Assign(name) => {
                if f.stack.len() == 0 {
                    Err(ExecError::StackUnderflow)
                } else {
                    let v = f.pop_value();
                    ctx.add_or_assign_var(name.as_str(), v);
                    f.set_pc(pc);
                    self.push_frame(f);
                    Ok(Action::Continue)
                }
            },
        };
        proof {
            if r is Ok && !(u is ProcCall) {
                self.lemma_ok();
                assert(self@.frames == with_top(frames, self@.frames.last()));
            }
        }
        r
    }

    /// Runs a call of `name` on `n` arguments; the frame is the innermost one, taken out.
    fn step_call(
        &mut self,
        f: Frame,
        pc: usize,
        name: String,
        n: usize,
        ctx: &ScmExecContext,
        Ghost(frames): Ghost<Seq<FrameModel>>,
    ) -> (r: Result<Action, ExecError>)
        requires
            old(self).inner_ok(),
            !old(self)@.waiting,
            f.inner_ok(),
            frames.len() > 0,
            old(self)@.frames == frames.drop_last(),
            f@ == frames.last(),
            f@.pc > 0,
            pc == f@.pc - 1,
            f@.code[pc as int] == Instr::ProcCall(name@, n as nat),
        ensures
            step_matches(step_spec(frames, ctx@), r, final(self)@, ctx@, ctx@),
            r is Ok ==> final(self).wf(),
    {
        let mut f = f;
        if f.stack.len() < n {
            return Err(ExecError::StackUnderflow);
        }
        let ghost f0 = f@;
        let mut args: Vec<ScmValue> = Vec::new();
        let mut k: usize = 0;
        assert(f0.stack.subrange(0, f0.stack.len() as int) =~= f0.stack);
        while k < n
            invariant
                k <= n <= f0.stack.len(),
                f.inner_ok(),
                f@ == (FrameModel { stack: f0.stack.subrange(0, f0.stack.len() - k), ..f0 }),
                args@.len() == k,
                forall|j: int| 0 <= j < k ==> (#[trigger] args@[j])@ == f0.stack[f0.stack.len() - 1 - j],
            decreases n - k,
        {
            let v = f.pop_value();
            args.push(v);
            k = k + 1;
            proof {
                assert(f@.stack =~= f0.stack.subrange(0, f0.stack.len() - k));
            }
        }
        proof {
            assert(values_model(args@) =~= popped(f0.stack, n as nat));
        }
        match find_var(&name, &f, ctx) {
            None => Err(ExecError::UnknownVariable(name)),
            Some(ScmValue::Procedure(ScmCallable::Builtin(b))) => {
                f.set_pc(pc);
                self.push_frame(f);
                self.waiting = true;
                proof {
                    self.lemma_ok();
                    assert(self@.frames =~= with_top(frames, self@.frames.last()));
                }
                Ok(Action::CallBuiltin(b, args))
            },
            Some(ScmValue::Procedure(ScmCallable::CustomProc(p))) => {
                proof {
                    lemma_proc_model(p);
                }
                let ghost pm = p@;
                if p.params.len() != n {
                    return Err(ExecError::ArityMismatch);
                }
                f.set_pc(pc);
                self.push_frame(f);
                let len = p.instructions.len();
                let nf = Frame { params: p.params, args, code: p.instructions, pc: len, stack: Vec::new() };
                proof {
                    assert(nf@.stack =~= Seq::<Datum>::empty());
                }
                self.push_frame(nf);
                self.waiting = false;
                proof {
                    self.lemma_ok();
                    let f2 = FrameModel { pc: pc as nat, stack: f0.stack.subrange(0, f0.stack.len() - n), ..f0 };
                    assert(self@.frames =~= with_top(frames, f2).push(call_frame(pm, values_model(args@))));
                }
                Ok(Action::Continue)
            },
            Some(_) => Err(ExecError::NotCallable(name)),
        }
    }
}

} // verus!

verus! {

/// In a frame whose code holds a compiled `if` (see `if_layout`), the step at its
/// `TrueBranch` pops exactly the condition. On `#f` it moves to the end of the else
/// code, so no instruction of the then code is visited; on any other value it moves to
/// the end of the then code. The step at the `FalseBranch` that follows the then code
/// moves past the whole else code and leaves the stack as it is. So exactly one branch
/// runs.
pub proof fn law_if_runs_one_branch(
    frames: Seq<FrameModel>,
    g: Seq<Seq<(Seq<char>, Datum)>>,
    pre: Seq<Instr>,
    e: Seq<Instr>,
    t: Seq<Instr>,
    c: Seq<Instr>,
    post: Seq<Instr>,
)
    requires
        frames.len() > 0,
        frames.last().code == pre + crate::parser::if_layout(e, t, c) + post,
    ensures
        ({
            let f = frames.last();
            f.pc == pre.len() + e.len() + t.len() + 2 && f.stack.len() > 0 ==> match step_spec(frames, g) {
                Outcome::Next(fs, g2) => g2 == g && fs.len() == frames.len() && fs.last().stack
                    == f.stack.drop_last() && fs.last().pc == if f.stack.last() == Datum::Bool(false) {
                    pre.len() + e.len()
                } else {
                    pre.len() + e.len() + t.len() + 1
                },
                _ => false,
            }
        }),
        ({
            let f = frames.last();
            f.pc == pre.len() + e.len() + 1 ==> match step_spec(frames, g) {
                Outcome::Next(fs, g2) => g2 == g && fs.len() == frames.len() && fs.last().stack == f.stack
                    && fs.last().pc == pre.len(),
                _ => false,
            }
        }),
{
    let f = frames.last();
    let code = pre + crate::parser::if_layout(e, t, c) + post;
    if f.pc == pre.len() + e.len() + t.len() + 2 {
        assert(code[pre.len() + e.len() + t.len() + 1int] == Instr::TrueBranch(t.len()));
    }
    if f.pc == pre.len() + e.len() + 1 {
        assert(code[(pre.len() + e.len()) as int] == Instr::FalseBranch(e.len()));
    }
}

/// The walk goes from the end of the code to its start: every step that runs an
/// instruction of the innermost frame leaves that frame with a smaller pc. Since a call's
/// arguments are compiled left to right, the last argument is evaluated first.
pub proof fn law_walk_goes_backwards(frames: Seq<FrameModel>, g: Seq<Seq<(Seq<char>, Datum)>>)
    requires
        frames.len() > 0,
        frames.last().pc > 0,
    ensures
        match step_spec(frames, g) {
            Outcome::Next(fs, _) => fs.len() >= frames.len() && fs[frames.len() - 1].pc < frames.last().pc,
            Outcome::Builtin(fs, _, _) => fs.len() == frames.len() && fs.last().pc < frames.last().pc,
            _ => true,
        },
{
}

/// Storing a value (`define`) at any call depth updates the global table, the last table
/// of `g`, and binds nothing in any frame: every frame keeps its parameters and arguments.
pub proof fn law_define_is_global(frames: Seq<FrameModel>, g: Seq<Seq<(Seq<char>, Datum)>>, name: Seq<char>)
    requires
        frames.len() > 0,
        frames.last().pc > 0,
        frames.last().pc <= frames.last().code.len(),
        frames.last().code[frames.last().pc - 1] == Instr::Assign(name),
        frames.last().stack.len() > 0,
    ensures
        match step_spec(frames, g) {
            Outcome::Next(fs, g2) => g2 == g.update(
                g.len() - 1,
                table_assign(g.last(), name, frames.last().stack.last()),
            ) && fs.len() == frames.len() && forall|i: int|
                0 <= i < fs.len() ==> (#[trigger] fs[i]).params == frames[i].params && fs[i].args
                    == frames[i].args,
            _ => false,
        },
{
}

/// A closure made by the `Lambda` step holds, in place of each variable of its body that
/// is not a parameter of it or of a lambda nested in it and resolves at that moment, the
/// value it resolved to. Its body is a copy of the region of that length, in which every
/// instruction other than a variable is unchanged.
pub proof fn law_closure_captures_value(
    frames: Seq<FrameModel>,
    g: Seq<Seq<(Seq<char>, Datum)>>,
    params: Seq<Seq<char>>,
    cnt: nat,
    k: int,
    x: Seq<char>,
    v: Datum,
)
    requires
        frames.len() > 0,
        frame_ok(frames.last()),
        frames.last().pc > cnt,
        frames.last().code[frames.last().pc - 1] == Instr::Lambda(params, cnt),
        0 <= k < cnt,
        frames.last().code[frames.last().pc - 1 - cnt + k] == Instr::Variable(x),
        !params.contains(x),
        !bound_inside(
            frames.last().code.subrange(frames.last().pc - 1 - cnt, frames.last().pc - 1),
            k,
            x,
        ),
        resolve(frames.last(), g, x) == Some(v),
    ensures
        match step_spec(frames, g) {
            Outcome::Next(fs, _) => match fs.last().stack.last() {
                Datum::Custom(p) => {
                    let region = frames.last().code.subrange(frames.last().pc - 1 - cnt, frames.last().pc - 1);
                    &&& p.params == params
                    &&& p.body[k] == Instr::Val(v)
                    &&& p.body.len() == cnt
                    &&& forall|j: int| 0 <= j < cnt && !(region[j] is Variable) ==> p.body[j] == region[j]
                },
                _ => false,
            },
            _ => false,
        },
{
    let f = frames.last();
    let pc = f.pc - 1;
    let region = f.code.subrange(pc - cnt, pc);
    assert(region[k] == Instr::Variable(x));
    assert(freeze(region, params, f, g)[k] == Instr::Val(v));
}

/// A captured value does not depend on the globals: the step that pushes a value pushes
/// the same value whatever the global tables hold then.
pub proof fn law_captured_value_ignores_globals(
    frames: Seq<FrameModel>,
    g1: Seq<Seq<(Seq<char>, Datum)>>,
    g2: Seq<Seq<(Seq<char>, Datum)>>,
    v: Datum,
)
    requires
        frames.len() > 0,
        frames.last().pc > 0,
        frames.last().pc <= frames.last().code.len(),
        frames.last().code[frames.last().pc - 1] == Instr::Val(v),
    ensures
        match (step_spec(frames, g1), step_spec(frames, g2)) {
            (Outcome::Next(fs1, _), Outcome::Next(fs2, _)) => fs1 == fs2 && fs1.last().stack.last() == v,
            _ => false,
        },
{
}

/// A variable of a closure body that is not a parameter and does not resolve when the
/// closure is made stays a variable; when the closure runs, the step at that variable
/// resolves it against the globals of that moment.
pub proof fn law_unresolved_name_deferred(
    frames: Seq<FrameModel>,
    g: Seq<Seq<(Seq<char>, Datum)>>,
    params: Seq<Seq<char>>,
    cnt: nat,
    k: int,
    x: Seq<char>,
    later: Seq<FrameModel>,
    g_later: Seq<Seq<(Seq<char>, Datum)>>,
)
    requires
        frames.len() > 0,
        frame_ok(frames.last()),
        frames.last().pc > cnt,
        frames.last().code[frames.last().pc - 1] == Instr::Lambda(params, cnt),
        0 <= k < cnt,
        frames.last().code[frames.last().pc - 1 - cnt + k] == Instr::Variable(x),
        resolve(frames.last(), g, x) is None,
        later.len() > 0,
        later.last().pc > 0,
        later.last().pc <= later.last().code.len(),
        later.last().code[later.last().pc - 1] == Instr::Variable(x),
    ensures
        match step_spec(frames, g) {
            Outcome::Next(fs, _) => match fs.last().stack.last() {
                Datum::Custom(p) => p.body[k] == Instr::Variable(x),
                _ => false,
            },
            _ => false,
        },
        match resolve(later.last(), g_later, x) {
            Some(v) => match step_spec(later, g_later) {
                Outcome::Next(fs, _) => fs.last().stack.last() == v,
                _ => false,
            },
            None => step_spec(later, g_later) == Outcome::Failed(Fault::UnknownVariable(x)),
        },
{
    let f = frames.last();
    let pc = f.pc - 1;
    let region = f.code.subrange(pc - cnt, pc);
    assert(region[k] == Instr::Variable(x));
    assert(freeze(region, params, f, g)[k] == Instr::Variable(x));
}

} // verus!

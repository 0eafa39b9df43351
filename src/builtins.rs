use vstd::prelude::*;
use crate::engine::values_model;
use crate::scm_utils::{is_proper_list, list_elems, list_from, scm_list_len, scm_list_to_vec, scm_make_list};
use crate::value::{Datum, ScmCallable, ScmValue};

verus! {

/// Why a builtin refused its arguments.
#[derive(Debug)]
pub enum BuiltinError {
    /// Not the number of arguments the builtin takes.
    ArgCount,
    /// An argument of the wrong kind.
    ArgType,
}

pub open spec fn args_model(args: &[ScmValue]) -> Seq<Datum> {
    args@.map_values(|v: ScmValue| v@)
}

/// The first element of a pair.
pub open spec fn pair_first(d: Datum) -> Option<Datum> {
    match d {
        Datum::Pair(a, _) => Some(*a),
        _ => None,
    }
}

/// The second element of a pair.
pub open spec fn pair_rest(d: Datum) -> Option<Datum> {
    match d {
        Datum::Pair(_, b) => Some(*b),
        _ => None,
    }
}

pub open spec fn make_pair(a: Datum, b: Datum) -> Datum {
    Datum::Pair(Box::new(a), Box::new(b))
}

/// `list`: the proper list of the arguments.
pub fn builtin_list(args: &[ScmValue]) -> (r: ScmValue)
    ensures
        r@ == list_from(args_model(args)),
{
    scm_make_list(args)
}

/// `cons`: the pair of the two arguments.
pub fn builtin_cons(args: &[ScmValue]) -> (r: Result<ScmValue, BuiltinError>)
    ensures
        args@.len() == 2 ==> r is Ok && r->Ok_0@ == make_pair(args@[0]@, args@[1]@),
        args@.len() != 2 ==> r is Err && r->Err_0 is ArgCount,
{
    if args.len() != 2 {
        return Err(BuiltinError::ArgCount);
    }
    Ok(ScmValue::DotPair(Box::new(args[0].clone()), Box::new(args[1].clone())))
}

/// `car`: the first element of the one argument, a pair.
pub fn builtin_car(args: &[ScmValue]) -> (r: Result<ScmValue, BuiltinError>)
    ensures
        args@.len() != 1 ==> r is Err && r->Err_0 is ArgCount,
        args@.len() == 1 ==> match pair_first(args@[0]@) {
            Some(a) => r is Ok && r->Ok_0@ == a,
            None => r is Err && r->Err_0 is ArgType,
        },
{
    if args.len() != 1 {
        return Err(BuiltinError::ArgCount);
    }
    match &args[0] {
        ScmValue::DotPair(a, _) => Ok((**a).clone()),
        _ => Err(BuiltinError::ArgType),
    }
}

/// `cdr`: the second element of the one argument, a pair.
pub fn builtin_cdr(args: &[ScmValue]) -> (r: Result<ScmValue, BuiltinError>)
    ensures
        args@.len() != 1 ==> r is Err && r->Err_0 is ArgCount,
        args@.len() == 1 ==> match pair_rest(args@[0]@) {
            Some(b) => r is Ok && r->Ok_0@ == b,
            None => r is Err && r->Err_0 is ArgType,
        },
{
    if args.len() != 1 {
        return Err(BuiltinError::ArgCount);
    }
    match &args[0] {
        ScmValue::DotPair(_, b) => Ok((**b).clone()),
        _ => Err(BuiltinError::ArgType),
    }
}

/// `length`: the number of elements of the one argument, a proper list.
pub fn builtin_length(args: &[ScmValue]) -> (r: Result<ScmValue, BuiltinError>)
    ensures
        args@.len() != 1 ==> r is Err && r->Err_0 is ArgCount,
        args@.len() == 1 && is_proper_list(args@[0]@) && list_elems(args@[0]@).len() <= i64::MAX ==> r is Ok
            && r->Ok_0@ == Datum::Integer(list_elems(args@[0]@).len() as i64),
        args@.len() == 1 && !is_proper_list(args@[0]@) ==> r is Err && r->Err_0 is ArgType,
{
    if args.len() != 1 {
        return Err(BuiltinError::ArgCount);
    }
    match scm_list_len(&args[0]) {
        Some(n) => Ok(ScmValue::Integer(n)),
        None => Err(BuiltinError::ArgType),
    }
}

/// `apply`: the procedure and the argument values to call it with, from a procedure
/// and a proper list.
pub fn apply_target(args: &[ScmValue]) -> (r: Result<(ScmCallable, Vec<ScmValue>), BuiltinError>)
    ensures
        args@.len() != 2 ==> r is Err && r->Err_0 is ArgCount,
        args@.len() == 2 ==> match (args@[0], is_proper_list(args@[1]@)) {
            (ScmValue::Procedure(p), true) => r is Ok && r->Ok_0.0@ == p@ && values_model(r->Ok_0.1@)
                == list_elems(args@[1]@),
            _ => r is Err && r->Err_0 is ArgType,
        },
{
    if args.len() != 2 {
        return Err(BuiltinError::ArgCount);
    }
    match &args[0] {
        ScmValue::Procedure(p) => {
            if !crate::scm_utils::scm_is_list(&args[1]) {
                return Err(BuiltinError::ArgType);
            }
            let items = scm_list_to_vec(&args[1]);
            Ok((p.clone(), items))
        },
        _ => Err(BuiltinError::ArgType),
    }
}

/// The type predicates of the builtin library (`atom?`, `bool?`, ...).
#[derive(Debug, Clone, Copy)]
pub enum TypeTest {
    Atom,
    Bool,
    Integer,
    Number,
    Null,
    Pair,
    List,
    Procedure,
    Text,
    Symbol,
}

/// Whether a value passes a type predicate. An atom is anything but a pair or a procedure.
pub open spec fn passes(t: TypeTest, d: Datum) -> bool {
    match t {
        TypeTest::Atom => !(d is Pair || d is Builtin || d is Custom),
        TypeTest::Bool => d is Bool,
        TypeTest::Integer => d is Integer,
        TypeTest::Number => d is Integer || d is Float,
        TypeTest::Null => d is Nil,
        TypeTest::Pair => d is Pair,
        TypeTest::List => is_proper_list(d),
        TypeTest::Procedure => d is Builtin || d is Custom,
        TypeTest::Text => d is Str,
        TypeTest::Symbol => d is Symbol,
    }
}

/// A type predicate applied to its one argument.
pub fn builtin_type_test(t: TypeTest, args: &[ScmValue]) -> (r: Result<ScmValue, BuiltinError>)
    ensures
        args@.len() != 1 ==> r is Err && r->Err_0 is ArgCount,
        args@.len() == 1 ==> r is Ok && r->Ok_0@ == Datum::Bool(passes(t, args@[0]@)),
{
    if args.len() != 1 {
        return Err(BuiltinError::ArgCount);
    }
    let v = &args[0];
    let b = match t {
        TypeTest::Atom => !matches!(v, ScmValue::DotPair(..) | ScmValue::Procedure(_)),
        TypeTest::Bool => matches!(v, ScmValue::Bool(_)),
        TypeTest::Integer => matches!(v, ScmValue::Integer(_)),
        TypeTest::Number => matches!(v, ScmValue::Integer(_) | ScmValue::Float(_)),
        TypeTest::Null => matches!(v, ScmValue::Nil),
        TypeTest::Pair => matches!(v, ScmValue::DotPair(..)),
        TypeTest::List => crate::scm_utils::scm_is_list(v),
        TypeTest::Procedure => matches!(v, ScmValue::Procedure(_)),
        TypeTest::Text => matches!(v, ScmValue::String(_)),
        TypeTest::Symbol => matches!(v, ScmValue::Symbol(_)),
    };
    Ok(ScmValue::Bool(b))
}

/// A pair built by `cons` gives back its first element to `car` and its second to `cdr`.
pub proof fn law_pair_round_trip(a: Datum, b: Datum)
    ensures
        pair_first(make_pair(a, b)) == Some(a),
        pair_rest(make_pair(a, b)) == Some(b),
{
}

/// The list built by `list` from some values is a proper list whose elements are those
/// values, so its `length` is their number.
pub proof fn law_list_elements(s: Seq<Datum>)
    ensures
        is_proper_list(list_from(s)),
        list_elems(list_from(s)) == s,
        list_elems(list_from(s)).len() == s.len(),
    decreases s.len(),
{
    if s.len() > 0 {
        law_list_elements(s.drop_first());
        assert(seq![s[0]] + s.drop_first() =~= s);
    }
}

} // verus!

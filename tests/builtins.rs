use scm_engine::builtins::{
    apply_target, builtin_car, builtin_cdr, builtin_cons, builtin_length, builtin_list,
    builtin_type_test, BuiltinError, TypeTest,
};
use scm_engine::scm_utils::{scm_get_integer, scm_is_false, scm_is_list, scm_is_true, scm_list_len, scm_list_to_vec};
use scm_engine::value::{ScmCallable, ScmValue};

fn list3() -> ScmValue {
    builtin_list(&[ScmValue::Integer(1), ScmValue::Integer(2), ScmValue::Integer(3)])
}

#[test]
fn list_builds_pairs_ending_in_nil() {
    match list3() {
        ScmValue::DotPair(a, rest) => {
            assert!(matches!(*a, ScmValue::Integer(1)));
            match *rest {
                ScmValue::DotPair(b, rest2) => {
                    assert!(matches!(*b, ScmValue::Integer(2)));
                    assert!(matches!(*rest2, ScmValue::DotPair(_, _)));
                }
                _ => panic!("not a pair"),
            }
        }
        _ => panic!("not a pair"),
    }
    assert!(matches!(builtin_list(&[]), ScmValue::Nil));
}

#[test]
fn length_of_list() {
    assert!(matches!(builtin_length(&[list3()]), Ok(ScmValue::Integer(3))));
    assert!(matches!(builtin_length(&[ScmValue::Nil]), Ok(ScmValue::Integer(0))));
    assert!(matches!(builtin_length(&[ScmValue::Integer(4)]), Err(BuiltinError::ArgType)));
    assert!(matches!(builtin_length(&[]), Err(BuiltinError::ArgCount)));
}

#[test]
fn cons_car_cdr() {
    let p = builtin_cons(&[ScmValue::Integer(1), ScmValue::Integer(2)]).unwrap();
    assert!(matches!(builtin_car(&[p.clone()]), Ok(ScmValue::Integer(1))));
    assert!(matches!(builtin_cdr(&[p]), Ok(ScmValue::Integer(2))));
    assert!(matches!(builtin_cons(&[ScmValue::Nil]), Err(BuiltinError::ArgCount)));
    assert!(matches!(builtin_car(&[ScmValue::Nil]), Err(BuiltinError::ArgType)));
    assert!(matches!(builtin_cdr(&[ScmValue::Bool(true)]), Err(BuiltinError::ArgType)));
}

#[test]
fn apply_splits_procedure_and_list() {
    let f = ScmValue::Procedure(ScmCallable::Builtin("+".to_string()));
    let (p, args) = apply_target(&[f, list3()]).unwrap();
    assert!(matches!(p, ScmCallable::Builtin(ref s) if s == "+"));
    assert_eq!(args.len(), 3);
    assert!(matches!(args[2], ScmValue::Integer(3)));
    assert!(matches!(apply_target(&[ScmValue::Integer(1), list3()]), Err(BuiltinError::ArgType)));
    let g = ScmValue::Procedure(ScmCallable::Builtin("+".to_string()));
    assert!(matches!(apply_target(&[g, ScmValue::Integer(1)]), Err(BuiltinError::ArgType)));
}

#[test]
fn type_tests() {
    let t = |k: TypeTest, v: ScmValue| matches!(builtin_type_test(k, &[v]), Ok(ScmValue::Bool(true)));
    assert!(t(TypeTest::Integer, ScmValue::Integer(1)));
    assert!(!t(TypeTest::Integer, ScmValue::Float(1.5f64.to_bits())));
    assert!(t(TypeTest::Number, ScmValue::Float(1.5f64.to_bits())));
    assert!(t(TypeTest::Null, ScmValue::Nil));
    assert!(t(TypeTest::List, list3()));
    assert!(!t(TypeTest::List, ScmValue::DotPair(Box::new(ScmValue::Nil), Box::new(ScmValue::Integer(1)))));
    assert!(t(TypeTest::Atom, ScmValue::Char('a')));
    assert!(!t(TypeTest::Atom, list3()));
    assert!(t(TypeTest::Text, ScmValue::String("s".to_string())));
    assert!(t(TypeTest::Procedure, ScmValue::Procedure(ScmCallable::Builtin("car".to_string()))));
    assert!(matches!(builtin_type_test(TypeTest::Bool, &[]), Err(BuiltinError::ArgCount)));
}

#[test]
fn truthiness() {
    assert!(scm_is_true(&ScmValue::Integer(0)));
    assert!(scm_is_true(&ScmValue::Nil));
    assert!(scm_is_true(&ScmValue::String(String::new())));
    assert!(scm_is_true(&ScmValue::Bool(true)));
    assert!(!scm_is_true(&ScmValue::Bool(false)));
    assert!(scm_is_false(&ScmValue::Bool(false)));
    assert!(!scm_is_false(&ScmValue::Nil));
}

#[test]
fn list_utilities() {
    assert!(scm_is_list(&ScmValue::Nil));
    assert!(scm_is_list(&list3()));
    assert!(!scm_is_list(&ScmValue::Integer(3)));
    assert_eq!(scm_list_len(&list3()), Some(3));
    assert_eq!(scm_list_len(&ScmValue::Char('c')), None);
    let v = scm_list_to_vec(&list3());
    assert_eq!(v.len(), 3);
    assert!(matches!(v[0], ScmValue::Integer(1)));
    assert_eq!(scm_get_integer(&ScmValue::Integer(-4)), Some(-4));
    assert_eq!(scm_get_integer(&ScmValue::Nil), None);
}

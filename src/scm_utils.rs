use vstd::prelude::*;
use crate::engine::values_model;
use crate::value::{Datum, ScmValue};

verus! {

/// A proper list: `Nil`, or a pair whose rest is a proper list.
pub open spec fn is_proper_list(d: Datum) -> bool
    decreases d,
{
    match d {
        Datum::Nil => true,
        Datum::Pair(_, rest) => is_proper_list(*rest),
        _ => false,
    }
}

/// The elements of a proper list, in order.
pub open spec fn list_elems(d: Datum) -> Seq<Datum>
    decreases d,
{
    match d {
        Datum::Pair(first, rest) => seq![*first] + list_elems(*rest),
        _ => Seq::empty(),
    }
}

/// The proper list of the given elements.
pub open spec fn list_from(s: Seq<Datum>) -> Datum
    decreases s.len(),
{
    if s.len() == 0 {
        Datum::Nil
    } else {
        Datum::Pair(Box::new(s[0]), Box::new(list_from(s.drop_first())))
    }
}

/// Whether a value is a proper list.
pub fn scm_is_list(val: &ScmValue) -> (r: bool)
    ensures
        r == is_proper_list(val@),
{
    let mut cur = val;
    loop
        invariant
            is_proper_list(val@) == is_proper_list(cur@),
        decreases cur,
    {
        match cur {
            ScmValue::Nil => {
                return true;
            },
            ScmValue::DotPair(_, rest) => {
                cur = rest;
            },
            _ => {
                return false;
            },
        }
    }
}

/// The number of elements of a proper list; `None` for any other value (or a length
/// beyond `i64`).
pub fn scm_list_len(val: &ScmValue) -> (r: Option<i64>)
    ensures
        match r {
            Some(n) => is_proper_list(val@) && n == list_elems(val@).len(),
            None => !is_proper_list(val@) || list_elems(val@).len() > i64::MAX,
        },
{
    let mut cur = val;
    let mut count: i64 = 0;
    loop
        invariant
            is_proper_list(val@) == is_proper_list(cur@),
            list_elems(val@).len() == count + list_elems(cur@).len(),
            0 <= count,
        decreases cur,
    {
        match cur {
            ScmValue::Nil => {
                return Some(count);
            },
            ScmValue::DotPair(_, rest) => {
                if count == i64::MAX {
                    return None;
                }
                count = count + 1;
                cur = rest;
            },
            _ => {
                return None;
            },
        }
    }
}

/// The elements of a proper list.
pub fn scm_list_to_vec(list: &ScmValue) -> (r: Vec<ScmValue>)
    requires
        is_proper_list(list@),
    ensures
        values_model(r@) == list_elems(list@),
{
    let mut res: Vec<ScmValue> = Vec::new();
    let mut cur = list;
    loop
        invariant
            is_proper_list(cur@),
            list_elems(list@) == values_model(res@) + list_elems(cur@),
        decreases cur,
    {
        match cur {
            ScmValue::DotPair(first, rest) => {
                let ghost before = values_model(res@);
                res.push((**first).clone());
                proof {
                    assert(values_model(res@) =~= before.push(first@));
                    assert(before + list_elems(cur@) =~= before.push(first@) + list_elems(rest@));
                }
                cur = rest;
            },
            _ => {
                assert(values_model(res@) + list_elems(cur@) =~= values_model(res@));
                return res;
            },
        }
    }
}

/// Every value is true but `#f`.
pub fn scm_is_true(val: &ScmValue) -> (r: bool)
    ensures
        r == (val@ != Datum::Bool(false)),
{
    match val {
        ScmValue::Bool(b) => *b,
        _ => true,
    }
}

pub fn scm_is_false(val: &ScmValue) -> (r: bool)
    ensures
        r == (val@ == Datum::Bool(false)),
{
    !scm_is_true(val)
}

/// The integer a value holds, if it is an exact integer.
pub fn scm_get_integer(val: &ScmValue) -> (r: Option<i64>)
    ensures
        match val@ {
            Datum::Integer(n) => r == Some(n),
            _ => r is None,
        },
{
    match val {
        ScmValue::Integer(n) => Some(*n),
        _ => None,
    }
}

/// Builds the proper list of the given values.
pub fn scm_make_list(items: &[ScmValue]) -> (r: ScmValue)
    ensures
        r@ == list_from(items@.map_values(|v: ScmValue| v@)),
{
    let ghost s = items@.map_values(|v: ScmValue| v@);
    let mut res = ScmValue::Nil;
    let mut k: usize = items.len();
    assert(s.subrange(k as int, s.len() as int) =~= Seq::<Datum>::empty());
    while k > 0
        invariant
            k <= items@.len(),
            s == items@.map_values(|v: ScmValue| v@),
            res@ == list_from(s.subrange(k as int, s.len() as int)),
        decreases k,
    {
        let v = items[k - 1].clone();
        proof {
            let tail = s.subrange(k as int, s.len() as int);
            let longer = s.subrange(k - 1, s.len() as int);
            assert(longer.drop_first() =~= tail);
            assert(longer[0] == v@);
        }
        res = ScmValue::DotPair(Box::new(v), Box::new(res));
        k = k - 1;
    }
    assert(s.subrange(0, s.len() as int) =~= s);
    res
}

} // verus!

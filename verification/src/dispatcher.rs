//! The host interface of the VM, with the default arithmetic and comparison
//! semantics.
//!
//! The dispatcher abstracts all host-specific behavior: variable access,
//! request-scoped assignment, attribute and item access, and function calls.
//! The executor delegates every such operation to it.  The arithmetic and
//! comparison hooks have default implementations with the semantics below;
//! hosts may override them with richer coercion rules.

use vstd::prelude::*;
use crate::value::{Value, ValueView};
use crate::floats::{
    f64_is_zero, f64_eq_bits, f64_lt_bits, float_add_bits, float_sub_bits, float_mul_bits,
    float_div_bits, float_mod_bits, float_result_matches, int_float_bits, is_zero_bits, eq_bits,
    lt_bits,
    fadd_bits, fsub_bits, fmul_bits, fdiv_bits, fmod_bits, int_to_float_bits,
};
use crate::constant_pool::clone_string;

verus! {

/// Binary arithmetic operations.
#[derive(Debug, Clone, Copy, PartialEq, Eq, Structural)]
pub enum BinaryOp {
    Add,
    Sub,
    Mul,
    Div,
    Mod,
}

/// Comparison operations.
#[derive(Debug, Clone, Copy, PartialEq, Eq, Structural)]
pub enum ComparisonOp {
    Eq,
    Ne,
    Lt,
    Gt,
    Le,
    Ge,
}

/// Dispatcher trait for host-specific operations.
///
/// Implementations resolve variables (args, arg0, retval, exception, ...),
/// store request-scoped variables, access attributes and items, and perform
/// function calls (timestamp, rand, len, capture, send, ...).
pub trait Dispatcher {
    /// Load a variable by name.
    fn load_variable(&mut self, name: &str) -> Result<Value, String>;

    /// Store a value to a variable (typically request-scoped).
    fn store_variable(&mut self, name: &str, value: Value) -> Result<(), String>;

    /// Get an attribute from an object: obj.field.
    fn get_attribute(&mut self, obj: &Value, attr: &str) -> Result<Value, String>;

    /// Set an attribute on an object: obj.field = value.
    fn set_attribute(&mut self, obj: &Value, attr: &str, value: Value) -> Result<(), String>;

    /// Get an item from an object: obj[key].
    fn get_item(&mut self, obj: &Value, key: &Value) -> Result<Value, String>;

    /// Call a function with arguments, passed in order.
    fn call_function(&mut self, name: &str, args: Vec<Value>) -> Result<Value, String>;

    /// Perform a binary arithmetic operation; a hook for host-specific
    /// numeric coercion, with [`binary_op_default`] as the default.
    fn binary_op(&mut self, op: BinaryOp, left: &Value, right: &Value) -> Result<Value, String> {
        binary_op_default(op, left, right)
    }

    /// Perform a comparison operation; a hook for host-specific comparison
    /// semantics, with [`comparison_op_default`] as the default.
    fn comparison_op(&mut self, op: ComparisonOp, left: &Value, right: &Value) -> Result<
        Value,
        String,
    > {
        comparison_op_default(op, left, right)
    }
}

/// Lexicographic order on character sequences.
pub open spec fn chars_lt(a: Seq<char>, b: Seq<char>) -> bool
    decreases a.len() + b.len(),
{
    if b.len() == 0 {
        false
    } else if a.len() == 0 {
        true
    } else if a[0] != b[0] {
        (a[0] as u32) < (b[0] as u32)
    } else {
        chars_lt(a.drop_first(), b.drop_first())
    }
}

/// Runtime lexicographic comparison of two strings, matching [`chars_lt`].
pub fn str_lt(a: &str, b: &str) -> (r: bool)
    ensures
        r == chars_lt(a@, b@),
{
    let alen = a.unicode_len();
    let blen = b.unicode_len();
    let mut i: usize = 0;
    proof {
        assert(a@.skip(0) =~= a@);
        assert(b@.skip(0) =~= b@);
    }
    loop
        invariant
            alen == a@.len(),
            blen == b@.len(),
            i <= alen,
            i <= blen,
            chars_lt(a@, b@) == chars_lt(a@.skip(i as int), b@.skip(i as int)),
        decreases alen - i,
    {
        if i >= blen {
            proof {
                assert(b@.skip(i as int).len() == 0);
            }
            return false;
        }
        if i >= alen {
            proof {
                assert(a@.skip(i as int).len() == 0);
                assert(b@.skip(i as int).len() > 0);
            }
            return true;
        }
        let ca = a.get_char(i);
        let cb = b.get_char(i);
        proof {
            assert(a@.skip(i as int)[0] == a@[i as int]);
            assert(b@.skip(i as int)[0] == b@[i as int]);
        }
        if ca != cb {
            return (ca as u32) < (cb as u32);
        }
        proof {
            assert(a@.skip(i as int).drop_first() =~= a@.skip(i + 1));
            assert(b@.skip(i as int).drop_first() =~= b@.skip(i + 1));
        }
        i = i + 1;
    }
}

/// How a produced value relates to the one an operation's specification
/// names: floats agree up to [`float_result_matches`] (exact except for NaN
/// payloads), everything else agrees exactly.
pub open spec fn value_matches(a: ValueView, b: ValueView) -> bool {
    match (a, b) {
        (ValueView::Float(x), ValueView::Float(y)) => float_result_matches(x, y),
        _ => a == b,
    }
}

/// The bits both operands widen to when at least one side is a float; an
/// integer side converts to the nearest double.
pub open spec fn widen_bits(v: ValueView) -> u64
    recommends
        v is Float || v is Int,
{
    match v {
        ValueView::Float(b) => b,
        ValueView::Int(i) => int_float_bits(i),
        _ => 0,
    }
}

/// True when the pair of operands takes the float path of an operation.
pub open spec fn is_float_pair(l: ValueView, r: ValueView) -> bool {
    (l is Float && r is Float) || (l is Float && r is Int) || (l is Int && r is Float)
}

/// The default result of a binary arithmetic operation, with errors as None:
/// two ints use wrapping 64-bit arithmetic with division and modulo by zero
/// as errors; a float on either side widens the other and uses IEEE-754
/// arithmetic, with division and modulo by a zero divisor as errors; adding
/// two strings concatenates; every other combination is a type error.
pub open spec fn spec_binary_op(op: BinaryOp, l: ValueView, r: ValueView) -> Option<ValueView> {
    match (l, r) {
        (ValueView::Int(a), ValueView::Int(b)) => match op {
            BinaryOp::Add => Some(ValueView::Int(vstd::wrapping::i64_specs::wrapping_add(a, b))),
            BinaryOp::Sub => Some(ValueView::Int(vstd::wrapping::i64_specs::wrapping_sub(a, b))),
            BinaryOp::Mul => Some(ValueView::Int(vstd::wrapping::i64_specs::wrapping_mul(a, b))),
            BinaryOp::Div => if b == 0 {
                Option::<ValueView>::None
            } else {
                Some(ValueView::Int(wrap_div(a, b)))
            },
            BinaryOp::Mod => if b == 0 {
                Option::<ValueView>::None
            } else {
                Some(ValueView::Int(wrap_rem(a, b)))
            },
        },
        _ => if is_float_pair(l, r) {
            let lf = widen_bits(l);
            let rf = widen_bits(r);
            match op {
                BinaryOp::Add => Some(ValueView::Float(float_add_bits(lf, rf))),
                BinaryOp::Sub => Some(ValueView::Float(float_sub_bits(lf, rf))),
                BinaryOp::Mul => Some(ValueView::Float(float_mul_bits(lf, rf))),
                BinaryOp::Div => if f64_is_zero(rf) {
                    Option::<ValueView>::None
                } else {
                    Some(ValueView::Float(float_div_bits(lf, rf)))
                },
                BinaryOp::Mod => if f64_is_zero(rf) {
                    Option::<ValueView>::None
                } else {
                    Some(ValueView::Float(float_mod_bits(lf, rf)))
                },
            }
        } else {
            match (l, r) {
                (ValueView::Str(a), ValueView::Str(b)) => if op is Add {
                    Some(ValueView::Str(a + b))
                } else {
                    Option::<ValueView>::None
                },
                _ => Option::<ValueView>::None,
            }
        },
    }
}

/// Truncating i64 division that wraps on MIN / -1, as the wrapping operation
/// does.
pub open spec fn wrap_div(a: i64, b: i64) -> i64
    recommends
        b != 0,
{
    match a.checked_div(b) {
        Some(q) => q,
        Option::None => i64::MIN,
    }
}

/// Truncating i64 remainder that wraps on MIN % -1, giving zero.
pub open spec fn wrap_rem(a: i64, b: i64) -> i64
    recommends
        b != 0,
{
    match a.checked_rem(b) {
        Some(q) => q,
        Option::None => 0,
    }
}

/// Default implementation for binary operations (used by the trait default),
/// matching [`spec_binary_op`], with an error exactly where it yields none.
pub fn binary_op_default(op: BinaryOp, left: &Value, right: &Value) -> (r: Result<Value, String>)
    ensures
        match spec_binary_op(op, left@, right@) {
            Some(v) => (r matches Ok(out) && value_matches(out@, v)),
            Option::None => r is Err,
        },
{
    match (left, right) {
        (Value::Int(a), Value::Int(b)) => {
            let a = *a;
            let b = *b;
            match op {
                BinaryOp::Add => Ok(Value::Int(a.wrapping_add(b))),
                BinaryOp::Sub => Ok(Value::Int(a.wrapping_sub(b))),
                BinaryOp::Mul => Ok(Value::Int(a.wrapping_mul(b))),
                BinaryOp::Div => {
                    if b == 0 {
                        Err(division_by_zero())
                    } else {
                        match a.checked_div(b) {
                            Some(q) => Ok(Value::Int(q)),
                            Option::None => Ok(Value::Int(i64::MIN)),
                        }
                    }
                }
                BinaryOp::Mod => {
                    if b == 0 {
                        Err(modulo_by_zero())
                    } else {
                        match a.checked_rem(b) {
                            Some(q) => Ok(Value::Int(q)),
                            Option::None => Ok(Value::Int(0)),
                        }
                    }
                }
            }
        }
        (Value::Float(_), Value::Float(_))
        | (Value::Float(_), Value::Int(_))
        | (Value::Int(_), Value::Float(_)) => {
            let lf: u64 = match left {
                Value::Float(b) => *b,
                Value::Int(i) => int_to_float_bits(*i),
                _ => 0,
            };
            let rf: u64 = match right {
                Value::Float(b) => *b,
                Value::Int(i) => int_to_float_bits(*i),
                _ => 0,
            };
            match op {
                BinaryOp::Add => Ok(Value::Float(fadd_bits(lf, rf))),
                BinaryOp::Sub => Ok(Value::Float(fsub_bits(lf, rf))),
                BinaryOp::Mul => Ok(Value::Float(fmul_bits(lf, rf))),
                BinaryOp::Div => {
                    if is_zero_bits(rf) {
                        Err(division_by_zero())
                    } else {
                        Ok(Value::Float(fdiv_bits(lf, rf)))
                    }
                }
                BinaryOp::Mod => {
                    if is_zero_bits(rf) {
                        Err(modulo_by_zero())
                    } else {
                        Ok(Value::Float(fmod_bits(lf, rf)))
                    }
                }
            }
        }
        (Value::String(a), Value::String(b)) => {
            match op {
                BinaryOp::Add => {
                    let mut s = clone_string(a);
                    s.append(b.as_str());
                    Ok(Value::String(s))
                }
                _ => Err(binary_type_error(op, left, right)),
            }
        }
        _ => Err(binary_type_error(op, left, right)),
    }
}

/// The "Division by zero" runtime error.
fn division_by_zero() -> String {
    let mut m = String::new();
    m.append("Division by zero");
    m
}

/// The "Modulo by zero" runtime error.
fn modulo_by_zero() -> String {
    let mut m = String::new();
    m.append("Modulo by zero");
    m
}

/// Message for an arithmetic type error.
fn binary_type_error(op: BinaryOp, left: &Value, right: &Value) -> String {
    let mut m = String::new();
    m.append("Cannot perform ");
    m.append(match op {
        BinaryOp::Add => "Add",
        BinaryOp::Sub => "Sub",
        BinaryOp::Mul => "Mul",
        BinaryOp::Div => "Div",
        BinaryOp::Mod => "Mod",
    });
    m.append(" on ");
    m.append(left.type_label());
    m.append(" and ");
    m.append(right.type_label());
    m
}

/// The default result of a comparison, with errors as None: bools support
/// only equality; ints compare as integers; a float on either side widens
/// the other and compares by IEEE-754 rules; strings compare
/// lexicographically; None equals only None and orders with nothing;
/// every other combination is a type error.
pub open spec fn spec_comparison_op(op: ComparisonOp, l: ValueView, r: ValueView) -> Option<bool> {
    match (l, r) {
        (ValueView::Bool(a), ValueView::Bool(b)) => match op {
            ComparisonOp::Eq => Some(a == b),
            ComparisonOp::Ne => Some(a != b),
            _ => Option::<bool>::None,
        },
        (ValueView::Int(a), ValueView::Int(b)) => Some(
            match op {
                ComparisonOp::Eq => a == b,
                ComparisonOp::Ne => a != b,
                ComparisonOp::Lt => a < b,
                ComparisonOp::Gt => a > b,
                ComparisonOp::Le => a <= b,
                ComparisonOp::Ge => a >= b,
            },
        ),
        _ => if is_float_pair(l, r) {
            let lf = widen_bits(l);
            let rf = widen_bits(r);
            Some(
                match op {
                    ComparisonOp::Eq => f64_eq_bits(lf, rf),
                    ComparisonOp::Ne => !f64_eq_bits(lf, rf),
                    ComparisonOp::Lt => f64_lt_bits(lf, rf),
                    ComparisonOp::Gt => f64_lt_bits(rf, lf),
                    ComparisonOp::Le => f64_lt_bits(lf, rf) || f64_eq_bits(lf, rf),
                    ComparisonOp::Ge => f64_lt_bits(rf, lf) || f64_eq_bits(lf, rf),
                },
            )
        } else {
            match (l, r) {
                (ValueView::Str(a), ValueView::Str(b)) => Some(
                    match op {
                        ComparisonOp::Eq => a == b,
                        ComparisonOp::Ne => a != b,
                        ComparisonOp::Lt => chars_lt(a, b),
                        ComparisonOp::Gt => chars_lt(b, a),
                        ComparisonOp::Le => !chars_lt(b, a),
                        ComparisonOp::Ge => !chars_lt(a, b),
                    },
                ),
                (ValueView::NoneValue, ValueView::NoneValue) => match op {
                    ComparisonOp::Eq => Some(true),
                    ComparisonOp::Ne => Some(false),
                    _ => Option::<bool>::None,
                },
                (ValueView::NoneValue, _) | (_, ValueView::NoneValue) => match op {
                    ComparisonOp::Eq => Some(false),
                    ComparisonOp::Ne => Some(true),
                    _ => Option::<bool>::None,
                },
                _ => Option::<bool>::None,
            }
        },
    }
}

/// Default implementation for comparison operations (used by the trait
/// default), matching [`spec_comparison_op`], with an error exactly where it
/// yields none.
pub fn comparison_op_default(op: ComparisonOp, left: &Value, right: &Value) -> (r: Result<
    Value,
    String,
>)
    ensures
        match spec_comparison_op(op, left@, right@) {
            Some(b) => r == Result::<Value, String>::Ok(Value::Bool(b)),
            Option::None => r is Err,
        },
{
    let result: bool = match (left, right) {
        (Value::Bool(a), Value::Bool(b)) => match op {
            ComparisonOp::Eq => *a == *b,
            ComparisonOp::Ne => *a != *b,
            _ => {
                return Err(comparison_type_error(op, left, right));
            }
        },
        (Value::Int(a), Value::Int(b)) => match op {
            ComparisonOp::Eq => *a == *b,
            ComparisonOp::Ne => *a != *b,
            ComparisonOp::Lt => *a < *b,
            ComparisonOp::Gt => *a > *b,
            ComparisonOp::Le => *a <= *b,
            ComparisonOp::Ge => *a >= *b,
        },
        (Value::Float(_), Value::Float(_))
        | (Value::Float(_), Value::Int(_))
        | (Value::Int(_), Value::Float(_)) => {
            let lf: u64 = match left {
                Value::Float(b) => *b,
                Value::Int(i) => int_to_float_bits(*i),
                _ => 0,
            };
            let rf: u64 = match right {
                Value::Float(b) => *b,
                Value::Int(i) => int_to_float_bits(*i),
                _ => 0,
            };
            match op {
                ComparisonOp::Eq => eq_bits(lf, rf),
                ComparisonOp::Ne => !eq_bits(lf, rf),
                ComparisonOp::Lt => lt_bits(lf, rf),
                ComparisonOp::Gt => lt_bits(rf, lf),
                ComparisonOp::Le => lt_bits(lf, rf) || eq_bits(lf, rf),
                ComparisonOp::Ge => lt_bits(rf, lf) || eq_bits(lf, rf),
            }
        }
        (Value::String(a), Value::String(b)) => match op {
            ComparisonOp::Eq => crate::constant_pool::string_eq(a, b),
            ComparisonOp::Ne => !crate::constant_pool::string_eq(a, b),
            ComparisonOp::Lt => str_lt(a.as_str(), b.as_str()),
            ComparisonOp::Gt => str_lt(b.as_str(), a.as_str()),
            ComparisonOp::Le => !str_lt(b.as_str(), a.as_str()),
            ComparisonOp::Ge => !str_lt(a.as_str(), b.as_str()),
        },
        (Value::NoneValue, Value::NoneValue) => match op {
            ComparisonOp::Eq => true,
            ComparisonOp::Ne => false,
            _ => {
                return Err(none_order_error());
            }
        },
        (Value::NoneValue, _) | (_, Value::NoneValue) => match op {
            ComparisonOp::Eq => false,
            ComparisonOp::Ne => true,
            _ => {
                return Err(none_order_error());
            }
        },
        _ => {
            return Err(comparison_type_error(op, left, right));
        }
    };
    Ok(Value::Bool(result))
}

/// Message for ordering against None.
fn none_order_error() -> String {
    let mut m = String::new();
    m.append("Cannot order-compare None values");
    m
}

/// Message for a comparison type error.
fn comparison_type_error(op: ComparisonOp, left: &Value, right: &Value) -> String {
    let mut m = String::new();
    m.append("Cannot compare ");
    m.append(left.type_label());
    m.append(" and ");
    m.append(right.type_label());
    m.append(" with ");
    m.append(match op {
        ComparisonOp::Eq => "Eq",
        ComparisonOp::Ne => "Ne",
        ComparisonOp::Lt => "Lt",
        ComparisonOp::Gt => "Gt",
        ComparisonOp::Le => "Le",
        ComparisonOp::Ge => "Ge",
    });
    m
}


/// The text of a string value; other values have none.
pub open spec fn str_payload(v: ValueView) -> Seq<char>
    recommends
        v is Str,
{
    match v {
        ValueView::Str(s) => s,
        _ => Seq::<char>::empty(),
    }
}

/// The named calling convention of capture/send: even arity with a string
/// key at every even index.
pub open spec fn spec_named_form(args: Seq<ValueView>) -> bool {
    args.len() % 2 == 0 && (forall|i: int|
        0 <= i < args.len() && i % 2 == 0 ==> (#[trigger] args[i]) is Str)
}

/// The key/value pairs the named form carries: each even-index string keys
/// the value after it.
pub open spec fn named_pairs(args: Seq<ValueView>) -> Seq<(Seq<char>, ValueView)> {
    Seq::new((args.len() / 2) as nat, |i: int| (str_payload(args[2 * i]), args[2 * i + 1]))
}

/// The key of the i-th positional argument: "arg" followed by the index.
pub open spec fn positional_key(i: int) -> Seq<char>
    recommends
        0 <= i,
{
    "arg"@ + crate::text::spec_u64_digits(i as u64)
}

/// The key/value pairs of the positional form: argument i under "arg&i".
pub open spec fn positional_pairs(args: Seq<ValueView>) -> Seq<(Seq<char>, ValueView)> {
    Seq::new(args.len(), |i: int| (positional_key(i), args[i]))
}

/// Whether a capture/send argument list uses the named convention.
pub fn args_named_form(args: &Vec<Value>) -> (r: bool)
    ensures
        r == spec_named_form(args.deep_view()),
{
    if args.len() % 2 != 0 {
        return false;
    }
    let mut i: usize = 0;
    while i < args.len()
        invariant
            i % 2 == 0,
            args@.len() % 2 == 0,
            i <= args@.len(),
            args.deep_view().len() == args@.len(),
            forall|j: int| 0 <= j < i && j % 2 == 0 ==> (#[trigger] args.deep_view()[j]) is Str,
        decreases args@.len() - i,
    {
        proof {
            assert(args.deep_view()[i as int] == args@[i as int].deep_view());
        }
        match &args[i] {
            Value::String(_) => (),
            _ => {
                proof {
                    assert(!((args.deep_view()[i as int]) is Str));
                }
                return false;
            }
        }
        i = i + 2;
    }
    true
}

/// Decode a capture/send argument list into the event payload the host must
/// deliver: alternating (string key, value) pairs in the named form, and
/// "arg0", "arg1", ... keys in the positional form.
pub fn capture_payload(args: Vec<Value>) -> (r: Vec<(String, Value)>)
    ensures
        spec_named_form(args.deep_view()) ==> r.deep_view() == named_pairs(args.deep_view()),
        !spec_named_form(args.deep_view()) ==> r.deep_view() == positional_pairs(
            args.deep_view(),
        ),
{
    let mut out: Vec<(String, Value)> = Vec::new();
    let named = args_named_form(&args);
    if named {
        let mut k: usize = 0;
        while k < args.len() / 2
            invariant
                spec_named_form(args.deep_view()),
                k <= args@.len() / 2,
                args.deep_view().len() == args@.len(),
                out.deep_view() =~~= named_pairs(args.deep_view()).take(k as int),
            decreases args@.len() / 2 - k,
        {
            proof {
                assert(2 * (k as int) % 2 == 0) by (nonlinear_arith);
                assert((args.deep_view()[2 * (k as int)]) is Str);
                assert(args.deep_view()[2 * (k as int)] == args@[2 * (k as int)].deep_view());
                assert(args.deep_view()[2 * (k as int) + 1] == args@[2 * (k as int)
                    + 1].deep_view());
            }
            let key = match &args[2 * k] {
                Value::String(s) => crate::constant_pool::clone_string(s),
                _ => {
                    proof {
                        assert(false);
                    }
                    String::new()
                }
            };
            let value = args[2 * k + 1].duplicate();
            out.push((key, value));
            k = k + 1;
            proof {
                assert(out.deep_view() =~~= named_pairs(args.deep_view()).take(k as int));
            }
        }
        proof {
            assert(named_pairs(args.deep_view()).take((args@.len() / 2) as int) =~~= named_pairs(
                args.deep_view(),
            ));
        }
    } else {
        let mut i: usize = 0;
        while i < args.len()
            invariant
                i <= args@.len(),
                args.deep_view().len() == args@.len(),
                out.deep_view() =~~= positional_pairs(args.deep_view()).take(i as int),
            decreases args@.len() - i,
        {
            let mut key = String::new();
            key.append("arg");
            key.append(crate::text::u64_text(i as u64).as_str());
            let value = args[i].duplicate();
            out.push((key, value));
            i = i + 1;
            proof {
                assert(out.deep_view() =~~= positional_pairs(args.deep_view()).take(i as int));
            }
        }
        proof {
            assert(positional_pairs(args.deep_view()).take(args@.len() as int)
                =~~= positional_pairs(args.deep_view()));
        }
    }
    out
}

} // verus!

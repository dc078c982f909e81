//! Runtime values of the probe virtual machine.

use vstd::prelude::*;
use crate::floats::{
    f64_is_nan, f64_is_zero, float_trunc_int, int_float_bits, F64_ONE,
    is_nan_bits, is_zero_bits, float_bits_to_int, int_to_float_bits, float_bits_text,
};

verus! {

/// Runtime value in the probe VM.
///
/// Floating point values are carried as their IEEE-754 bit patterns; host
/// objects are carried as opaque handles that only the dispatcher interprets.
#[derive(Debug)]
pub enum Value {
    /// Boolean value
    Bool(bool),
    /// 64-bit signed integer
    Int(i64),
    /// 64-bit floating point number, stored as its bit pattern
    Float(u64),
    /// UTF-8 string
    String(String),
    /// None/null value
    NoneValue,
    /// Opaque handle to a host-language object; the VM never inspects it and
    /// only the dispatcher can give it meaning
    Object(u64),
}

/// The mathematical shape of a runtime value: the same variants with the
/// string abstracted to its characters.
pub enum ValueView {
    Bool(bool),
    Int(i64),
    Float(u64),
    Str(Seq<char>),
    NoneValue,
    Object(u64),
}

impl View for Value {
    type V = ValueView;

    open spec fn view(&self) -> ValueView {
        match self {
            Value::Bool(b) => ValueView::Bool(*b),
            Value::Int(i) => ValueView::Int(*i),
            Value::Float(bits) => ValueView::Float(*bits),
            Value::String(s) => ValueView::Str(s@),
            Value::NoneValue => ValueView::NoneValue,
            Value::Object(h) => ValueView::Object(*h),
        }
    }
}

impl DeepView for Value {
    type V = ValueView;

    open spec fn deep_view(&self) -> ValueView {
        self.view()
    }
}

/// Truthiness of a value: false, zero, NaN, the empty string and None are
/// falsy; every object handle is truthy.
pub open spec fn spec_is_truthy(v: ValueView) -> bool {
    match v {
        ValueView::Bool(b) => b,
        ValueView::Int(i) => i != 0,
        ValueView::Float(bits) => !f64_is_zero(bits) && !f64_is_nan(bits),
        ValueView::Str(s) => s.len() != 0,
        ValueView::NoneValue => false,
        ValueView::Object(_) => true,
    }
}

impl Value {
    /// Check if this value is truthy (for boolean coercion in predicates).
    pub fn is_truthy(&self) -> (r: bool)
        ensures
            r == spec_is_truthy(self@),
    {
        match self {
            Value::Bool(b) => *b,
            Value::Int(i) => *i != 0,
            Value::Float(bits) => !is_zero_bits(*bits) && !is_nan_bits(*bits),
            Value::String(s) => s.unicode_len() != 0,
            Value::NoneValue => false,
            Value::Object(_) => true,
        }
    }

    /// Try to extract an integer: ints pass through, floats truncate, bools
    /// become 0 or 1; everything else is an error.
    pub fn as_int(&self) -> (r: Result<i64, String>)
        ensures
            match self@ {
                ValueView::Int(i) => r == Result::<i64, String>::Ok(i),
                ValueView::Float(b) => r == Result::<i64, String>::Ok(float_trunc_int(b)),
                ValueView::Bool(bv) => r == Result::<i64, String>::Ok(if bv { 1i64 } else { 0i64 }),
                _ => r is Err,
            },
    {
        match self {
            Value::Int(i) => Ok(*i),
            Value::Float(b) => Ok(float_bits_to_int(*b)),
            Value::Bool(b) => Ok(if *b { 1i64 } else { 0i64 }),
            _ => Err(self.conversion_error("int")),
        }
    }

    /// Try to extract a float (as its bit pattern): floats pass through, ints
    /// widen, bools become 0.0 or 1.0; everything else is an error.
    pub fn as_float_bits(&self) -> (r: Result<u64, String>)
        ensures
            match self@ {
                ValueView::Float(b) => r == Result::<u64, String>::Ok(b),
                ValueView::Int(i) => r == Result::<u64, String>::Ok(int_float_bits(i)),
                ValueView::Bool(bv) => r == Result::<u64, String>::Ok(if bv { F64_ONE } else { 0u64 }),
                _ => r is Err,
            },
    {
        match self {
            Value::Float(b) => Ok(*b),
            Value::Int(i) => Ok(int_to_float_bits(*i)),
            Value::Bool(b) => Ok(if *b { F64_ONE } else { 0u64 }),
            _ => Err(self.conversion_error("float")),
        }
    }

    /// Try to extract a string slice; only string values succeed.
    pub fn as_string(&self) -> (r: Result<&str, String>)
        ensures
            match self@ {
                ValueView::Str(s) => (r matches Ok(out) && out@ == s),
                _ => r is Err,
            },
    {
        match self {
            Value::String(s) => Ok(s.as_str()),
            _ => Err(self.conversion_error("string")),
        }
    }

    /// Try to extract a boolean; only boolean values succeed.
    pub fn as_bool(&self) -> (r: Result<bool, String>)
        ensures
            match self@ {
                ValueView::Bool(b) => r == Result::<bool, String>::Ok(b),
                _ => r is Err,
            },
    {
        match self {
            Value::Bool(b) => Ok(*b),
            _ => Err(self.conversion_error("bool")),
        }
    }

    /// Get the type name of this value for error messages.
    pub fn type_label(&self) -> (r: &'static str)
        ensures
            r@ == spec_type_name(self@),
    {
        match self {
            Value::Bool(_) => "bool",
            Value::Int(_) => "int",
            Value::Float(_) => "float",
            Value::String(_) => "string",
            Value::NoneValue => "none",
            Value::Object(_) => "object",
        }
    }

    /// A copy of this value; host object handles copy as handles.
    pub fn duplicate(&self) -> (r: Value)
        ensures
            r@ == self@,
    {
        match self {
            Value::Bool(b) => Value::Bool(*b),
            Value::Int(i) => Value::Int(*i),
            Value::Float(bits) => Value::Float(*bits),
            Value::String(s) => Value::String(crate::constant_pool::clone_string(s)),
            Value::NoneValue => Value::NoneValue,
            Value::Object(h) => Value::Object(*h),
        }
    }

    /// Message for a failed conversion, carrying the value's rendering.
    fn conversion_error(&self, target: &str) -> String {
        let mut m = String::new();
        m.append("Cannot convert ");
        m.append(self.debug_text().as_str());
        m.append(" to ");
        m.append(target);
        m
    }

    /// Debug-style rendering of the value, used in error messages.
    pub fn debug_text(&self) -> String {
        match self {
            Value::Bool(b) => {
                let mut m = String::new();
                m.append("Bool(");
                m.append(if *b { "true" } else { "false" });
                m.append(")");
                m
            }
            Value::Int(i) => {
                let mut m = String::new();
                m.append("Int(");
                m.append(crate::text::i64_text(*i).as_str());
                m.append(")");
                m
            }
            Value::Float(b) => {
                let mut m = String::new();
                m.append("Float(");
                m.append(float_bits_text(*b).as_str());
                m.append(")");
                m
            }
            Value::String(s) => {
                let mut m = String::new();
                m.append("String(\"");
                m.append(s.as_str());
                m.append("\")");
                m
            }
            Value::NoneValue => {
                let mut m = String::new();
                m.append("None");
                m
            }
            Value::Object(_) => {
                let mut m = String::new();
                m.append("Object(<opaque>)");
                m
            }
        }
    }
}

/// Type name used in error messages, one per variant.
pub open spec fn spec_type_name(v: ValueView) -> Seq<char> {
    match v {
        ValueView::Bool(_) => "bool"@,
        ValueView::Int(_) => "int"@,
        ValueView::Float(_) => "float"@,
        ValueView::Str(_) => "string"@,
        ValueView::NoneValue => "none"@,
        ValueView::Object(_) => "object"@,
    }
}

/// Applying logical not twice lands back on the value's truthiness: with
/// not(v) defined as Bool(!is_truthy(v)), not(not(v)) is Bool(is_truthy(v)).
pub proof fn lemma_truthiness_involution(v: ValueView)
    ensures
        spec_is_truthy(ValueView::Bool(!spec_is_truthy(ValueView::Bool(!spec_is_truthy(v)))))
            == spec_is_truthy(v),
{
}

} // verus!

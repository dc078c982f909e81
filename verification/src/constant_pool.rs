//! Constants and the per-program constant pool.

use vstd::prelude::*;
use crate::value::{Value, ValueView};

verus! {

/// A constant in the constant pool.
///
/// Constants can be literals (int, float, string, bool, none) or identifiers
/// and names used for variables, fields, and functions.  Float constants are
/// carried as their IEEE-754 bit patterns, so structural equality keys floats
/// by bits.
#[derive(Debug, Clone)]
pub enum Constant {
    /// Integer literal
    Int(i64),
    /// Float literal, stored as its bit pattern
    Float(u64),
    /// String literal
    String(String),
    /// Boolean literal
    Bool(bool),
    /// None/null literal
    NoneValue,
    /// Variable identifier (e.g., "args", "arg0", "retval", "exception")
    Identifier(String),
    /// Field/attribute name (e.g., "user", "email", "status")
    FieldName(String),
    /// Function name (e.g., "timestamp", "rand", "capture", "len")
    FunctionName(String),
}

/// The mathematical shape of a constant: the same variants with strings
/// abstracted to their characters.
pub enum ConstView {
    Int(i64),
    Float(u64),
    Str(Seq<char>),
    Bool(bool),
    NoneValue,
    Ident(Seq<char>),
    Field(Seq<char>),
    Func(Seq<char>),
}

impl View for Constant {
    type V = ConstView;

    open spec fn view(&self) -> ConstView {
        match self {
            Constant::Int(i) => ConstView::Int(*i),
            Constant::Float(b) => ConstView::Float(*b),
            Constant::String(s) => ConstView::Str(s@),
            Constant::Bool(b) => ConstView::Bool(*b),
            Constant::NoneValue => ConstView::NoneValue,
            Constant::Identifier(s) => ConstView::Ident(s@),
            Constant::FieldName(s) => ConstView::Field(s@),
            Constant::FunctionName(s) => ConstView::Func(s@),
        }
    }
}

impl DeepView for Constant {
    type V = ConstView;

    open spec fn deep_view(&self) -> ConstView {
        self.view()
    }
}

/// Structural equality of two constants; strings compare by their characters
/// and floats by their bit patterns.
pub open spec fn const_eq(a: Constant, b: Constant) -> bool {
    match (a, b) {
        (Constant::Int(x), Constant::Int(y)) => x == y,
        (Constant::Float(x), Constant::Float(y)) => x == y,
        (Constant::String(x), Constant::String(y)) => x@ == y@,
        (Constant::Bool(x), Constant::Bool(y)) => x == y,
        (Constant::NoneValue, Constant::NoneValue) => true,
        (Constant::Identifier(x), Constant::Identifier(y)) => x@ == y@,
        (Constant::FieldName(x), Constant::FieldName(y)) => x@ == y@,
        (Constant::FunctionName(x), Constant::FunctionName(y)) => x@ == y@,
        _ => false,
    }
}

/// The runtime value a literal constant denotes; names denote none.
pub open spec fn spec_const_value(c: Constant) -> Option<ValueView> {
    match c {
        Constant::Int(i) => Some(ValueView::Int(i)),
        Constant::Float(b) => Some(ValueView::Float(b)),
        Constant::String(s) => Some(ValueView::Str(s@)),
        Constant::Bool(b) => Some(ValueView::Bool(b)),
        Constant::NoneValue => Some(ValueView::NoneValue),
        _ => Option::<ValueView>::None,
    }
}

/// The text a string-like constant carries; other constants carry none.
pub open spec fn spec_const_string(c: Constant) -> Option<Seq<char>> {
    match c {
        Constant::Identifier(s) => Some(s@),
        Constant::FieldName(s) => Some(s@),
        Constant::FunctionName(s) => Some(s@),
        Constant::String(s) => Some(s@),
        _ => Option::<Seq<char>>::None,
    }
}

impl Constant {
    /// Structural equality test matching [`const_eq`].
    pub fn equals(&self, other: &Constant) -> (r: bool)
        ensures
            r == const_eq(*self, *other),
    {
        match (self, other) {
            (Constant::Int(x), Constant::Int(y)) => *x == *y,
            (Constant::Float(x), Constant::Float(y)) => *x == *y,
            (Constant::String(x), Constant::String(y)) => string_eq(x, y),
            (Constant::Bool(x), Constant::Bool(y)) => *x == *y,
            (Constant::NoneValue, Constant::NoneValue) => true,
            (Constant::Identifier(x), Constant::Identifier(y)) => string_eq(x, y),
            (Constant::FieldName(x), Constant::FieldName(y)) => string_eq(x, y),
            (Constant::FunctionName(x), Constant::FunctionName(y)) => string_eq(x, y),
            _ => false,
        }
    }

    /// A copy of this constant that is structurally equal to it.
    pub fn duplicate(&self) -> (r: Constant)
        ensures
            const_eq(r, *self),
            r.deep_view() == self.deep_view(),
            spec_const_value(r) == spec_const_value(*self),
            spec_const_string(r) == spec_const_string(*self),
    {
        match self {
            Constant::Int(i) => Constant::Int(*i),
            Constant::Float(b) => Constant::Float(*b),
            Constant::String(s) => Constant::String(clone_string(s)),
            Constant::Bool(b) => Constant::Bool(*b),
            Constant::NoneValue => Constant::NoneValue,
            Constant::Identifier(s) => Constant::Identifier(clone_string(s)),
            Constant::FieldName(s) => Constant::FieldName(clone_string(s)),
            Constant::FunctionName(s) => Constant::FunctionName(clone_string(s)),
        }
    }

    /// Try to convert this constant to a Value (only works for literals).
    pub fn as_value(&self) -> (r: Result<Value, String>)
        ensures
            match spec_const_value(*self) {
                Some(v) => (r matches Ok(out) && out@ == v),
                Option::None => r is Err,
            },
    {
        match self {
            Constant::Int(i) => Ok(Value::Int(*i)),
            Constant::Float(b) => Ok(Value::Float(*b)),
            Constant::String(s) => Ok(Value::String(clone_string(s))),
            Constant::Bool(b) => Ok(Value::Bool(*b)),
            Constant::NoneValue => Ok(Value::NoneValue),
            _ => {
                let mut m = String::new();
                m.append("Cannot convert constant to Value (not a literal)");
                Err(m)
            }
        }
    }

    /// Get the string if this is an identifier, name, or string literal.
    pub fn as_string(&self) -> (r: Result<&str, String>)
        ensures
            match spec_const_string(*self) {
                Some(s) => r matches Ok(out) && out@ == s,
                Option::None => r is Err,
            },
    {
        match self {
            Constant::Identifier(s) => Ok(s.as_str()),
            Constant::FieldName(s) => Ok(s.as_str()),
            Constant::FunctionName(s) => Ok(s.as_str()),
            Constant::String(s) => Ok(s.as_str()),
            _ => {
                let mut m = String::new();
                m.append("Constant is not a string");
                Err(m)
            }
        }
    }

    /// Check if this is an identifier.
    pub fn is_identifier(&self) -> (r: bool)
        ensures
            r == (self matches Constant::Identifier(_)),
    {
        match self {
            Constant::Identifier(_) => true,
            _ => false,
        }
    }

    /// Check if this is a field name.
    pub fn is_field_name(&self) -> (r: bool)
        ensures
            r == (self matches Constant::FieldName(_)),
    {
        match self {
            Constant::FieldName(_) => true,
            _ => false,
        }
    }

    /// Check if this is a function name.
    pub fn is_function_name(&self) -> (r: bool)
        ensures
            r == (self matches Constant::FunctionName(_)),
    {
        match self {
            Constant::FunctionName(_) => true,
            _ => false,
        }
    }
}

/// Character-level equality of two strings.
pub fn string_eq(a: &String, b: &String) -> (r: bool)
    ensures
        r == (a@ == b@),
{
    a.eq(b)
}

/// Clone of a string with its characters kept.
pub fn clone_string(s: &String) -> (r: String)
    ensures
        r@ == s@,
{
    s.clone()
}

/// Constant pool holding all constants for a program.
///
/// Constants are accessed by index (u16) from bytecode instructions, so the
/// pool never holds more than 65536 entries.
#[derive(Debug, Clone)]
pub struct ConstantPool {
    constants: Vec<Constant>,
}

impl View for ConstantPool {
    type V = Seq<Constant>;

    closed spec fn view(&self) -> Seq<Constant> {
        self.constants@
    }
}

impl ConstantPool {
    /// Create a new empty constant pool.
    pub fn new() -> (r: Self)
        ensures
            r@ == Seq::<Constant>::empty(),
    {
        ConstantPool { constants: Vec::new() }
    }

    /// Create a constant pool from a vector of constants.
    pub fn from_vec(constants: Vec<Constant>) -> (r: Self)
        ensures
            r@ == constants@,
    {
        ConstantPool { constants }
    }

    /// Add a constant to the pool and return its index.  The pool is full at
    /// 65536 entries; callers keep it below that bound.
    pub fn add(&mut self, constant: Constant) -> (r: u16)
        requires
            old(self)@.len() < 0x10000,
        ensures
            final(self)@ == old(self)@.push(constant),
            r as int == old(self)@.len(),
    {
        let index = self.constants.len();
        self.constants.push(constant);
        index as u16
    }

    /// Get a constant by index; fails exactly when the index is out of
    /// bounds.
    pub fn get(&self, index: u16) -> (r: Result<&Constant, String>)
        ensures
            (index as int) < self@.len() ==> (r matches Ok(c) && *c == self@[index as int]),
            (index as int) >= self@.len() ==> r is Err,
    {
        if (index as usize) < self.constants.len() {
            Ok(&self.constants[index as usize])
        } else {
            let mut m = String::new();
            m.append("Constant pool index ");
            m.append(crate::text::u64_text(index as u64).as_str());
            m.append(" out of bounds");
            Err(m)
        }
    }

    /// Get the number of constants in the pool.
    pub fn len(&self) -> (r: usize)
        ensures
            r == self@.len(),
    {
        self.constants.len()
    }

    /// Check if the pool is empty.
    pub fn is_empty(&self) -> (r: bool)
        ensures
            r == (self@.len() == 0),
    {
        self.constants.len() == 0
    }

    /// Get a constant as a Value (only for literals).
    pub fn get_value(&self, index: u16) -> (r: Result<Value, String>)
        ensures
            (index as int) < self@.len() && spec_const_value(self@[index as int]) is Some
                ==> (r matches Ok(v) && Some(v@) == spec_const_value(self@[index as int])),
            (index as int) >= self@.len() || spec_const_value(self@[index as int]) is None
                ==> r is Err,
    {
        let constant = match self.get(index) {
            Ok(c) => c,
            Err(e) => {
                return Err(e);
            }
        };
        constant.as_value()
    }

    /// Get a constant as a string (for identifiers, names, string literals).
    pub fn get_string(&self, index: u16) -> (r: Result<&str, String>)
        ensures
            (index as int) < self@.len() && spec_const_string(self@[index as int]) is Some
                ==> (r matches Ok(s) && Some(s@) == spec_const_string(self@[index as int])),
            (index as int) >= self@.len() || spec_const_string(self@[index as int]) is None
                ==> r is Err,
    {
        let constant = match self.get(index) {
            Ok(c) => c,
            Err(e) => {
                return Err(e);
            }
        };
        constant.as_string()
    }
}

impl ConstantPool {
    /// Read one entry by position.
    pub fn entry(&self, index: usize) -> (r: &Constant)
        requires
            index < self@.len(),
        ensures
            *r == self@[index as int],
    {
        &self.constants[index]
    }

    /// A copy of the pool whose entries carry the same contents.
    pub fn duplicate(&self) -> (r: ConstantPool)
        ensures
            r@.len() == self@.len(),
            r@.map_values(|c: Constant| c.deep_view()) == self@.map_values(
                |c: Constant| c.deep_view(),
            ),
            forall|j: int| 0 <= j < self@.len() ==> const_eq(#[trigger] r@[j], self@[j]),
    {
        let mut out: Vec<Constant> = Vec::new();
        let n = self.constants.len();
        let mut i: usize = 0;
        while i < n
            invariant
                n == self@.len(),
                i <= n,
                out@.len() == i,
                forall|j: int| 0 <= j < i ==> const_eq(#[trigger] out@[j], self@[j]),
                forall|j: int| 0 <= j < i ==> (#[trigger] out@[j]).deep_view()
                    == self@[j].deep_view(),
            decreases n - i,
        {
            out.push(self.constants[i].duplicate());
            i = i + 1;
        }
        let r = ConstantPool { constants: out };
        proof {
            assert(r@.map_values(|c: Constant| c.deep_view()) =~= self@.map_values(
                |c: Constant| c.deep_view(),
            ));
        }
        r
    }
}

impl Default for ConstantPool {
    fn default() -> (r: Self)
        ensures
            r@ == Seq::<Constant>::empty(),
    {
        Self::new()
    }
}

/// First index of a structurally equal constant in the pool, if any.
pub open spec fn spec_find_const(pool: Seq<Constant>, c: Constant) -> Option<int>
    decreases pool.len(),
{
    if pool.len() == 0 {
        Option::<int>::None
    } else if const_eq(pool[0], c) {
        Some(0int)
    } else {
        match spec_find_const(pool.drop_first(), c) {
            Some(i) => Some(i + 1),
            Option::None => Option::<int>::None,
        }
    }
}


/// Structural equality of constants is exactly equality of their views.
pub proof fn lemma_const_eq_view(a: Constant, b: Constant)
    ensures
        const_eq(a, b) <==> a.deep_view() == b.deep_view(),
{
}

/// First index of a constant with the given view in a viewed pool.
pub open spec fn spec_find_const_v(pool: Seq<ConstView>, c: ConstView) -> Option<int>
    decreases pool.len(),
{
    if pool.len() == 0 {
        Option::<int>::None
    } else if pool[0] == c {
        Some(0int)
    } else {
        match spec_find_const_v(pool.drop_first(), c) {
            Some(i) => Some(i + 1),
            Option::None => Option::<int>::None,
        }
    }
}

/// View-level interning: the index of an existing equal entry, or the old
/// length after appending.
pub open spec fn spec_intern_v(pool: Seq<ConstView>, c: ConstView) -> (Seq<ConstView>, int) {
    match spec_find_const_v(pool, c) {
        Some(i) => (pool, i),
        Option::None => (pool.push(c), pool.len() as int),
    }
}

/// Interning commutes with taking views.
pub proof fn lemma_intern_view(pool: Seq<Constant>, c: Constant)
    ensures
        ({
            let (p, i) = spec_intern(pool, c);
            let (pv, iv) = spec_intern_v(
                pool.map_values(|x: Constant| x.deep_view()),
                c.deep_view(),
            );
            p.map_values(|x: Constant| x.deep_view()) =~= pv && i == iv
        }),
{
    lemma_find_view(pool, c);
    let (p, i) = spec_intern(pool, c);
    let pv0 = pool.map_values(|x: Constant| x.deep_view());
    match spec_find_const(pool, c) {
        Some(_) => {
        }
        Option::None => {
            assert(p.map_values(|x: Constant| x.deep_view()) =~= pv0.push(c.deep_view()));
        }
    }
}

/// Finding commutes with taking views.
proof fn lemma_find_view(pool: Seq<Constant>, c: Constant)
    ensures
        spec_find_const(pool, c) == spec_find_const_v(
            pool.map_values(|x: Constant| x.deep_view()),
            c.deep_view(),
        ),
    decreases pool.len(),
{
    let pv = pool.map_values(|x: Constant| x.deep_view());
    if pool.len() == 0 {
        assert(pv.len() == 0);
    } else {
        lemma_const_eq_view(pool[0], c);
        assert(pv[0] == pool[0].deep_view());
        assert(pool.drop_first().map_values(|x: Constant| x.deep_view()) =~= pv.drop_first());
        lemma_find_view(pool.drop_first(), c);
    }
}

/// The pool and index that interning one constant produces: the index of an
/// existing structurally equal entry, or the old length after appending.
pub open spec fn spec_intern(pool: Seq<Constant>, c: Constant) -> (Seq<Constant>, int) {
    match spec_find_const(pool, c) {
        Some(i) => (pool, i),
        Option::None => (pool.push(c), pool.len() as int),
    }
}

/// What a found index means: it is in range and holds an equal constant.
pub proof fn lemma_find_const_sound(pool: Seq<Constant>, c: Constant)
    ensures
        match spec_find_const(pool, c) {
            Some(i) => 0 <= i < pool.len() && const_eq(pool[i], c),
            Option::None => forall|j: int| 0 <= j < pool.len() ==> !const_eq(pool[j], c),
        },
    decreases pool.len(),
{
    if pool.len() > 0 {
        lemma_find_const_sound(pool.drop_first(), c);
        if !const_eq(pool[0], c) {
            match spec_find_const(pool.drop_first(), c) {
                Some(i) => {
                    assert(pool.drop_first()[i] == pool[i + 1]);
                }
                Option::None => {
                    assert forall|j: int| 0 <= j < pool.len() implies !const_eq(pool[j], c) by {
                        if j > 0 {
                            assert(pool.drop_first()[j - 1] == pool[j]);
                        }
                    }
                }
            }
        }
    }
}

/// The first matching index is what the search finds.
pub proof fn lemma_find_first(pool: Seq<Constant>, c: Constant, i: int)
    requires
        0 <= i < pool.len(),
        const_eq(pool[i], c),
        forall|j: int| 0 <= j < i ==> !const_eq(#[trigger] pool[j], c),
    ensures
        spec_find_const(pool, c) == Some(i),
    decreases pool.len(),
{
    if i == 0 {
    } else {
        assert(!const_eq(pool[0], c));
        assert(pool.drop_first()[i - 1] == pool[i]);
        assert forall|j: int| 0 <= j < i - 1 implies !const_eq(
            #[trigger] pool.drop_first()[j],
            c,
        ) by {
            assert(pool.drop_first()[j] == pool[j + 1]);
        }
        lemma_find_first(pool.drop_first(), c, i - 1);
    }
}

/// When nothing in the pool matches, the search finds nothing.
pub proof fn lemma_find_none(pool: Seq<Constant>, c: Constant)
    requires
        forall|j: int| 0 <= j < pool.len() ==> !const_eq(#[trigger] pool[j], c),
    ensures
        spec_find_const(pool, c) is None,
    decreases pool.len(),
{
    if pool.len() > 0 {
        assert forall|j: int| 0 <= j < pool.len() - 1 implies !const_eq(
            #[trigger] pool.drop_first()[j],
            c,
        ) by {
            assert(pool.drop_first()[j] == pool[j + 1]);
        }
        lemma_find_none(pool.drop_first(), c);
    }
}

/// Finding after an append that was only made because nothing matched lands
/// on the appended entry.
proof fn lemma_find_const_push(pool: Seq<Constant>, c: Constant, d: Constant)
    requires
        spec_find_const(pool, c) is None,
        const_eq(d, c),
    ensures
        spec_find_const(pool.push(d), c) == Some(pool.len() as int),
    decreases pool.len(),
{
    if pool.len() == 0 {
        assert(pool.push(d)[0] == d);
        assert(spec_find_const(pool.push(d), c) == Some(0int));
    } else {
        assert(pool.push(d)[0] == pool[0]);
        assert(pool.push(d).drop_first() =~= pool.drop_first().push(d));
        lemma_find_const_push(pool.drop_first(), c, d);
    }
}

/// Constant interning is idempotent: interning the same constant twice gives
/// the same index both times, and the pool grows only on the first, novel
/// insertion.
pub proof fn lemma_intern_idempotent(pool: Seq<Constant>, c: Constant)
    ensures
        ({
            let (p1, i1) = spec_intern(pool, c);
            let (p2, i2) = spec_intern(p1, c);
            p2 == p1 && i2 == i1 && (spec_find_const(pool, c) is Some ==> p1 == pool)
        }),
{
    let (p1, i1) = spec_intern(pool, c);
    match spec_find_const(pool, c) {
        Some(i) => {
        }
        Option::None => {
            lemma_find_const_push(pool, c, c);
        }
    }
}

} // verus!

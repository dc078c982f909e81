//! Bytecode executor for the probe VM.
//!
//! This is a stack-based VM with no control flow.  Execution proceeds
//! linearly from start to end, and the final value on the stack is the
//! result.  The executor is generic over a [`Dispatcher`], which handles all
//! host-specific operations.

use vstd::prelude::*;
use crate::constant_pool::{Constant, ConstantPool, spec_const_value, spec_const_string};
use crate::program::Probe;
use crate::dispatcher::{BinaryOp, ComparisonOp, Dispatcher};
use crate::opcodes::{Opcode, spec_opcode_of_byte, spec_operand_size, spec_le16, read_u16, read_u8};
use crate::value::{Value, ValueView, spec_is_truthy};


verus! {

/// How many values an opcode pops; for CallFunc this is its argument count,
/// read from the third operand byte.
pub open spec fn spec_pops(op: Opcode, bc: Seq<u8>, i: int) -> int {
    match op {
        Opcode::PushConst => 0,
        Opcode::Pop => 1,
        Opcode::Dup => 0,
        Opcode::LoadVar => 0,
        Opcode::StoreVar => 1,
        Opcode::Add | Opcode::Sub | Opcode::Mul | Opcode::Div | Opcode::Mod => 2,
        Opcode::Eq | Opcode::Ne | Opcode::Lt | Opcode::Gt | Opcode::Le | Opcode::Ge => 2,
        Opcode::And | Opcode::Or => 2,
        Opcode::Not => 1,
        Opcode::GetAttr => 1,
        Opcode::GetItem => 2,
        Opcode::SetAttr => 2,
        Opcode::CallFunc => bc[i + 3] as int,
    }
}

/// How many values an opcode pushes.
pub open spec fn spec_pushes(op: Opcode) -> int {
    match op {
        Opcode::Pop | Opcode::StoreVar | Opcode::SetAttr => 0,
        _ => 1,
    }
}

/// The stack depth that executing the bytecode from offset `i` at depth `d`
/// ends at, or none where the bytecode is ill-formed for that depth: an
/// unknown opcode byte, a truncated operand, the reserved Dup, or an opcode
/// that pops more values than the stack holds.
pub open spec fn spec_code_depth(bc: Seq<u8>, i: int, d: int) -> Option<int>
    decreases bc.len() - i,
{
    if i < 0 || i > bc.len() || d < 0 {
        Option::<int>::None
    } else if i == bc.len() {
        Some(d)
    } else {
        match spec_opcode_of_byte(bc[i]) {
            Option::None => Option::<int>::None,
            Some(op) => {
                if op is Dup {
                    Option::<int>::None
                } else if i + 1 + spec_operand_size(op) > bc.len() {
                    Option::<int>::None
                } else if d < spec_pops(op, bc, i) {
                    Option::<int>::None
                } else {
                    spec_code_depth(
                        bc,
                        i + 1 + spec_operand_size(op),
                        d - spec_pops(op, bc, i) + spec_pushes(op),
                    )
                }
            }
        }
    }
}


/// The value-level meaning of the executor's dispatcher-free fragment:
/// constant pushes, Pop, and the logical operators, which touch no host
/// state.  From a starting stack it yields the final stack, or none where
/// the run fails (unknown or reserved opcode, truncated operand, an operand
/// index outside the pool or naming a non-literal, stack underflow) or
/// reaches an opcode that consults the dispatcher.
pub open spec fn spec_exec(
    pool: Seq<Constant>,
    bc: Seq<u8>,
    stack: Seq<ValueView>,
    i: int,
) -> Option<Seq<ValueView>>
    decreases bc.len() - i,
{
    if i < 0 || i > bc.len() {
        Option::<Seq<ValueView>>::None
    } else if i == bc.len() {
        Some(stack)
    } else {
        match spec_opcode_of_byte(bc[i]) {
            Option::None => Option::<Seq<ValueView>>::None,
            Some(op) => match op {
                Opcode::PushConst => if i + 3 <= bc.len() {
                    let idx = spec_le16(bc[i + 1], bc[i + 2]) as int;
                    if idx < pool.len() {
                        match spec_const_value(pool[idx]) {
                            Some(v) => spec_exec(pool, bc, stack.push(v), i + 3),
                            Option::None => Option::<Seq<ValueView>>::None,
                        }
                    } else {
                        Option::<Seq<ValueView>>::None
                    }
                } else {
                    Option::<Seq<ValueView>>::None
                },
                Opcode::Pop => if stack.len() >= 1 {
                    spec_exec(pool, bc, stack.drop_last(), i + 1)
                } else {
                    Option::<Seq<ValueView>>::None
                },
                Opcode::Not => if stack.len() >= 1 {
                    spec_exec(
                        pool,
                        bc,
                        stack.drop_last().push(ValueView::Bool(!spec_is_truthy(stack.last()))),
                        i + 1,
                    )
                } else {
                    Option::<Seq<ValueView>>::None
                },
                Opcode::And => if stack.len() >= 2 {
                    spec_exec(
                        pool,
                        bc,
                        stack.drop_last().drop_last().push(
                            ValueView::Bool(
                                spec_is_truthy(stack[stack.len() - 2]) && spec_is_truthy(
                                    stack.last(),
                                ),
                            ),
                        ),
                        i + 1,
                    )
                } else {
                    Option::<Seq<ValueView>>::None
                },
                Opcode::Or => if stack.len() >= 2 {
                    spec_exec(
                        pool,
                        bc,
                        stack.drop_last().drop_last().push(
                            ValueView::Bool(
                                spec_is_truthy(stack[stack.len() - 2]) || spec_is_truthy(
                                    stack.last(),
                                ),
                            ),
                        ),
                        i + 1,
                    )
                } else {
                    Option::<Seq<ValueView>>::None
                },
                _ => Option::<Seq<ValueView>>::None,
            },
        }
    }
}

/// True when no instruction of the bytecode consults the dispatcher: only
/// constant pushes, Pop, and the logical operators occur.  (Malformed bytes
/// count as dispatcher-free: they stop execution by themselves.)
pub open spec fn dispatcher_free(bc: Seq<u8>, i: int) -> bool
    decreases bc.len() - i,
{
    if i < 0 || i >= bc.len() {
        true
    } else {
        match spec_opcode_of_byte(bc[i]) {
            Option::None => true,
            Some(op) => match op {
                Opcode::PushConst | Opcode::Pop | Opcode::And | Opcode::Or | Opcode::Not => if i
                    + 1 + spec_operand_size(op) > bc.len() {
                    true
                } else {
                    dispatcher_free(bc, i + 1 + spec_operand_size(op))
                },
                _ => false,
            },
        }
    }
}

/// Bytecode executor; owns the value stack for one execution and borrows the
/// constant pool and the dispatcher.
pub struct Executor<'a, D: Dispatcher> {
    /// Reference to the constant pool
    constant_pool: &'a ConstantPool,
    /// Value stack
    stack: Vec<Value>,
    /// Host-specific dispatcher
    dispatcher: &'a mut D,
}

impl<'a, D: Dispatcher> View for Executor<'a, D> {
    type V = Seq<ValueView>;

    /// The executor's visible state is its value stack, bottom first.
    closed spec fn view(&self) -> Seq<ValueView> {
        self.stack.deep_view()
    }
}

impl<'a, D: Dispatcher> Executor<'a, D> {
    /// The constants this executor reads.
    pub closed spec fn pool_view(&self) -> Seq<Constant> {
        self.constant_pool@
    }
}

impl<'a, D: Dispatcher> Executor<'a, D> {
    /// Create a new executor over a constant pool and a dispatcher.
    pub fn new(constant_pool: &'a ConstantPool, dispatcher: &'a mut D) -> (r: Self)
        ensures
            r@.len() == 0,
            r.pool_view() == constant_pool@,
    {
        Executor { constant_pool, stack: Vec::new(), dispatcher }
    }

    /// Execute bytecode and return the result: the value left on top of the
    /// stack, or None when the stack ends empty (as it does for bodies).
    ///
    /// Stack discipline: where the bytecode is well formed for the starting
    /// depth and execution succeeds, the stack ends exactly at the depth
    /// [`spec_code_depth`] gives, less the one value returned; ill-formed
    /// bytecode never reaches the end, so it is reported as an error.
    #[verifier::rlimit(100)]
    #[verifier::spinoff_prover]
    #[verifier::loop_isolation(false)]
    pub fn execute(&mut self, bytecode: &[u8]) -> (r: Result<Value, String>)
        ensures
            match spec_code_depth(bytecode@, 0, old(self)@.len() as int) {
                Some(d) => r is Ok ==> ({
                    &&& d == 0 ==> final(self)@.len() == 0 && (r matches Ok(v) && v@ is NoneValue)
                    &&& d >= 1 ==> final(self)@.len() == d - 1
                }),
                Option::None => r is Err,
            },
            match spec_exec(old(self).pool_view(), bytecode@, old(self)@, 0) {
                Some(fin) => (r matches Ok(v) && (if fin.len() == 0 {
                    v@ is NoneValue && final(self)@ == fin
                } else {
                    v@ == fin.last() && final(self)@ == fin.drop_last()
                })),
                Option::None => dispatcher_free(bytecode@, 0) ==> r is Err,
            },
    {
        let pool = self.constant_pool;
        let ghost start_depth: int = self.stack@.len() as int;
        let ghost pool0: Seq<Constant> = self.constant_pool@;
        let ghost stack0: Seq<ValueView> = self.stack.deep_view();
        proof {
            assert(stack0 == old(self)@);
            assert(pool0 == old(self).pool_view());
        }
        let mut i: usize = 0;

        while i < bytecode.len()
            invariant
                i <= bytecode@.len(),
                pool@ == pool0,
                spec_code_depth(bytecode@, 0, start_depth) == spec_code_depth(
                    bytecode@,
                    i as int,
                    self.stack@.len() as int,
                ),
                spec_exec(pool0, bytecode@, stack0, 0) == spec_exec(
                    pool0,
                    bytecode@,
                    self.stack.deep_view(),
                    i as int,
                ) || spec_exec(pool0, bytecode@, stack0, 0) is None,
                dispatcher_free(bytecode@, 0) ==> spec_exec(pool0, bytecode@, stack0, 0)
                    == spec_exec(pool0, bytecode@, self.stack.deep_view(), i as int),
                dispatcher_free(bytecode@, 0) ==> dispatcher_free(bytecode@, i as int),
            decreases bytecode@.len() - i,
        {
            let ghost entry_stack: Seq<ValueView> = self.stack.deep_view();
            let opcode_byte = bytecode[i];
            let ghost op_pos: int = i as int;
            i = i + 1;

            let opcode = match Opcode::from_u8(opcode_byte) {
                Ok(op) => op,
                Err(e) => {
                    proof {
                        assert(spec_exec(pool0, bytecode@, entry_stack, op_pos) is None);
                    }
                    return Err(e);
                }
            };

            match opcode {
                Opcode::PushConst => {
                    let index = match read_u16(bytecode, i) {
                        Ok(v) => v,
                        Err(e) => {
                            proof {
                                assert(spec_exec(pool0, bytecode@, entry_stack, op_pos) is None);
                            }
                            return Err(e);
                        }
                    };
                    i = i + 2;
                    let value = match pool.get_value(index) {
                        Ok(v) => v,
                        Err(e) => {
                            proof {
                                assert(spec_exec(pool0, bytecode@, entry_stack, op_pos) is None);
                            }
                            return Err(e);
                        }
                    };
                    self.stack.push(value);
                    proof {
                        assert(self.stack.deep_view() =~= entry_stack.push(value@));
                        assert(spec_exec(pool0, bytecode@, entry_stack, op_pos) == spec_exec(
                            pool0,
                            bytecode@,
                            self.stack.deep_view(),
                            i as int,
                        ));
                    }
                }
                Opcode::Pop => {
                    match self.pop() {
                        Ok(_) => {
                            proof {
                                assert(self.stack.deep_view() =~= entry_stack.drop_last());
                                assert(spec_exec(pool0, bytecode@, entry_stack, op_pos)
                                    == spec_exec(pool0, bytecode@, self.stack.deep_view(), i as int));
                            }
                        }
                        Err(e) => {
                            proof {
                                assert(spec_exec(pool0, bytecode@, entry_stack, op_pos) is None);
                            }
                            return Err(e);
                        }
                    }
                }
                Opcode::Dup => {
                    proof {
                        assert(spec_exec(pool0, bytecode@, entry_stack, op_pos) is None);
                    }
                    let mut m = String::new();
                    m.append("DUP instruction not yet implemented");
                    return Err(m);
                }
                Opcode::LoadVar => {
                    proof {
                        assert(spec_exec(pool0, bytecode@, entry_stack, op_pos) is None);
                        if dispatcher_free(bytecode@, 0) {
                            assert(dispatcher_free(bytecode@, op_pos));
                            assert(false);
                        }
                    }
                    let index = match read_u16(bytecode, i) {
                        Ok(v) => v,
                        Err(e) => {
                            return Err(e);
                        }
                    };
                    i = i + 2;
                    let name = match pool.get_string(index) {
                        Ok(v) => v,
                        Err(e) => {
                            return Err(e);
                        }
                    };
                    let value = match self.dispatcher.load_variable(name) {
                        Ok(v) => v,
                        Err(e) => {
                            return Err(e);
                        }
                    };
                    self.stack.push(value);
                }
                Opcode::StoreVar => {
                    proof {
                        assert(spec_exec(pool0, bytecode@, entry_stack, op_pos) is None);
                        if dispatcher_free(bytecode@, 0) {
                            assert(dispatcher_free(bytecode@, op_pos));
                            assert(false);
                        }
                    }
                    let index = match read_u16(bytecode, i) {
                        Ok(v) => v,
                        Err(e) => {
                            return Err(e);
                        }
                    };
                    i = i + 2;
                    let name = match pool.get_string(index) {
                        Ok(v) => v,
                        Err(e) => {
                            return Err(e);
                        }
                    };
                    let value = match self.pop() {
                        Ok(v) => v,
                        Err(e) => {
                            return Err(e);
                        }
                    };
                    match self.dispatcher.store_variable(name, value) {
                        Ok(_) => (),
                        Err(e) => {
                            return Err(e);
                        }
                    }
                }
                Opcode::Add | Opcode::Sub | Opcode::Mul | Opcode::Div | Opcode::Mod => {
                    proof {
                        assert(spec_exec(pool0, bytecode@, entry_stack, op_pos) is None);
                        if dispatcher_free(bytecode@, 0) {
                            assert(dispatcher_free(bytecode@, op_pos));
                            assert(false);
                        }
                    }
                    let bop = match opcode {
                        Opcode::Add => BinaryOp::Add,
                        Opcode::Sub => BinaryOp::Sub,
                        Opcode::Mul => BinaryOp::Mul,
                        Opcode::Div => BinaryOp::Div,
                        _ => BinaryOp::Mod,
                    };
                    let right = match self.pop() {
                        Ok(v) => v,
                        Err(e) => {
                            return Err(e);
                        }
                    };
                    let left = match self.pop() {
                        Ok(v) => v,
                        Err(e) => {
                            return Err(e);
                        }
                    };
                    let result = match self.dispatcher.binary_op(bop, &left, &right) {
                        Ok(v) => v,
                        Err(e) => {
                            return Err(e);
                        }
                    };
                    self.stack.push(result);
                }
                Opcode::Eq | Opcode::Ne | Opcode::Lt | Opcode::Gt | Opcode::Le | Opcode::Ge => {
                    proof {
                        assert(spec_exec(pool0, bytecode@, entry_stack, op_pos) is None);
                        if dispatcher_free(bytecode@, 0) {
                            assert(dispatcher_free(bytecode@, op_pos));
                            assert(false);
                        }
                    }
                    let cop = match opcode {
                        Opcode::Eq => ComparisonOp::Eq,
                        Opcode::Ne => ComparisonOp::Ne,
                        Opcode::Lt => ComparisonOp::Lt,
                        Opcode::Gt => ComparisonOp::Gt,
                        Opcode::Le => ComparisonOp::Le,
                        _ => ComparisonOp::Ge,
                    };
                    let right = match self.pop() {
                        Ok(v) => v,
                        Err(e) => {
                            return Err(e);
                        }
                    };
                    let left = match self.pop() {
                        Ok(v) => v,
                        Err(e) => {
                            return Err(e);
                        }
                    };
                    let result = match self.dispatcher.comparison_op(cop, &left, &right) {
                        Ok(v) => v,
                        Err(e) => {
                            return Err(e);
                        }
                    };
                    self.stack.push(result);
                }
                Opcode::And => {
                    let right = match self.pop() {
                        Ok(v) => v,
                        Err(e) => {
                            proof {
                                assert(spec_exec(pool0, bytecode@, entry_stack, op_pos) is None);
                            }
                            return Err(e);
                        }
                    };
                    let left = match self.pop() {
                        Ok(v) => v,
                        Err(e) => {
                            proof {
                                assert(spec_exec(pool0, bytecode@, entry_stack, op_pos) is None);
                            }
                            return Err(e);
                        }
                    };
                    let result = left.is_truthy() && right.is_truthy();
                    self.stack.push(Value::Bool(result));
                    proof {
                        assert(right@ == entry_stack.last());
                        assert(left@ == entry_stack[entry_stack.len() - 2]);
                        assert(self.stack.deep_view() =~= entry_stack.drop_last().drop_last().push(
                            ValueView::Bool(result),
                        ));
                        assert(spec_exec(pool0, bytecode@, entry_stack, op_pos) == spec_exec(
                            pool0,
                            bytecode@,
                            self.stack.deep_view(),
                            i as int,
                        ));
                    }
                }
                Opcode::Or => {
                    let right = match self.pop() {
                        Ok(v) => v,
                        Err(e) => {
                            proof {
                                assert(spec_exec(pool0, bytecode@, entry_stack, op_pos) is None);
                            }
                            return Err(e);
                        }
                    };
                    let left = match self.pop() {
                        Ok(v) => v,
                        Err(e) => {
                            proof {
                                assert(spec_exec(pool0, bytecode@, entry_stack, op_pos) is None);
                            }
                            return Err(e);
                        }
                    };
                    let result = left.is_truthy() || right.is_truthy();
                    self.stack.push(Value::Bool(result));
                    proof {
                        assert(right@ == entry_stack.last());
                        assert(left@ == entry_stack[entry_stack.len() - 2]);
                        assert(self.stack.deep_view() =~= entry_stack.drop_last().drop_last().push(
                            ValueView::Bool(result),
                        ));
                        assert(spec_exec(pool0, bytecode@, entry_stack, op_pos) == spec_exec(
                            pool0,
                            bytecode@,
                            self.stack.deep_view(),
                            i as int,
                        ));
                    }
                }
                Opcode::Not => {
                    let value = match self.pop() {
                        Ok(v) => v,
                        Err(e) => {
                            proof {
                                assert(spec_exec(pool0, bytecode@, entry_stack, op_pos) is None);
                            }
                            return Err(e);
                        }
                    };
                    let result = !value.is_truthy();
                    self.stack.push(Value::Bool(result));
                    proof {
                        assert(value@ == entry_stack.last());
                        assert(self.stack.deep_view() =~= entry_stack.drop_last().push(ValueView::Bool(result)));
                        assert(spec_exec(pool0, bytecode@, entry_stack, op_pos) == spec_exec(
                            pool0,
                            bytecode@,
                            self.stack.deep_view(),
                            i as int,
                        ));
                    }
                }
                Opcode::GetAttr => {
                    proof {
                        assert(spec_exec(pool0, bytecode@, entry_stack, op_pos) is None);
                        if dispatcher_free(bytecode@, 0) {
                            assert(dispatcher_free(bytecode@, op_pos));
                            assert(false);
                        }
                    }
                    let index = match read_u16(bytecode, i) {
                        Ok(v) => v,
                        Err(e) => {
                            return Err(e);
                        }
                    };
                    i = i + 2;
                    let attr_name = match pool.get_string(index) {
                        Ok(v) => v,
                        Err(e) => {
                            return Err(e);
                        }
                    };
                    let obj = match self.pop() {
                        Ok(v) => v,
                        Err(e) => {
                            return Err(e);
                        }
                    };
                    let value = match self.dispatcher.get_attribute(&obj, attr_name) {
                        Ok(v) => v,
                        Err(e) => {
                            return Err(e);
                        }
                    };
                    self.stack.push(value);
                }
                Opcode::SetAttr => {
                    proof {
                        assert(spec_exec(pool0, bytecode@, entry_stack, op_pos) is None);
                        if dispatcher_free(bytecode@, 0) {
                            assert(dispatcher_free(bytecode@, op_pos));
                            assert(false);
                        }
                    }
                    let index = match read_u16(bytecode, i) {
                        Ok(v) => v,
                        Err(e) => {
                            return Err(e);
                        }
                    };
                    i = i + 2;
                    let attr_name = match pool.get_string(index) {
                        Ok(v) => v,
                        Err(e) => {
                            return Err(e);
                        }
                    };
                    let value = match self.pop() {
                        Ok(v) => v,
                        Err(e) => {
                            return Err(e);
                        }
                    };
                    let obj = match self.pop() {
                        Ok(v) => v,
                        Err(e) => {
                            return Err(e);
                        }
                    };
                    match self.dispatcher.set_attribute(&obj, attr_name, value) {
                        Ok(_) => (),
                        Err(e) => {
                            return Err(e);
                        }
                    }
                }
                Opcode::GetItem => {
                    proof {
                        assert(spec_exec(pool0, bytecode@, entry_stack, op_pos) is None);
                        if dispatcher_free(bytecode@, 0) {
                            assert(dispatcher_free(bytecode@, op_pos));
                            assert(false);
                        }
                    }
                    let key = match self.pop() {
                        Ok(v) => v,
                        Err(e) => {
                            return Err(e);
                        }
                    };
                    let obj = match self.pop() {
                        Ok(v) => v,
                        Err(e) => {
                            return Err(e);
                        }
                    };
                    let value = match self.dispatcher.get_item(&obj, &key) {
                        Ok(v) => v,
                        Err(e) => {
                            return Err(e);
                        }
                    };
                    self.stack.push(value);
                }
                Opcode::CallFunc => {
                    proof {
                        assert(spec_exec(pool0, bytecode@, entry_stack, op_pos) is None);
                        if dispatcher_free(bytecode@, 0) {
                            assert(dispatcher_free(bytecode@, op_pos));
                            assert(false);
                        }
                    }
                    let name_index = match read_u16(bytecode, i) {
                        Ok(v) => v,
                        Err(e) => {
                            return Err(e);
                        }
                    };
                    i = i + 2;
                    let arg_count_byte = match read_u8(bytecode, i) {
                        Ok(v) => v,
                        Err(e) => {
                            return Err(e);
                        }
                    };
                    i = i + 1;
                    let arg_count = arg_count_byte as usize;
                    let func_name = match pool.get_string(name_index) {
                        Ok(v) => v,
                        Err(e) => {
                            return Err(e);
                        }
                    };

                    if self.stack.len() < arg_count {
                        let mut m = String::new();
                        m.append("Stack underflow: need ");
                        m.append(crate::text::usize_text(arg_count).as_str());
                        m.append(" args for ");
                        m.append(func_name);
                        m.append("(), but only ");
                        m.append(crate::text::usize_text(self.stack.len()).as_str());
                        m.append(" on stack");
                        return Err(m);
                    }

                    let args = take_top_args(&mut self.stack, arg_count);

                    let result = match self.dispatcher.call_function(func_name, args) {
                        Ok(v) => v,
                        Err(e) => {
                            return Err(e);
                        }
                    };
                    self.stack.push(result);
                }
            }
        }

        // Pop the final result from the stack; an empty stack yields None.
        match self.stack.pop() {
            Some(v) => Ok(v),
            Option::None => Ok(Value::NoneValue),
        }
    }

    /// Pop a value from the stack, reporting underflow as an error.
    fn pop(&mut self) -> (r: Result<Value, String>)
        ensures
            old(self).stack@.len() > 0 ==> ({
                &&& r matches Ok(v) && v == old(self).stack@.last()
                &&& final(self).stack@ == old(self).stack@.drop_last()
            }),
            old(self).stack@.len() == 0 ==> r is Err && final(self).stack@ == old(self).stack@,
            final(self).constant_pool == old(self).constant_pool,
            final(self).dispatcher == old(self).dispatcher,
    {
        match self.stack.pop() {
            Some(v) => Ok(v),
            Option::None => {
                let mut m = String::new();
                m.append("Stack underflow");
                Err(m)
            }
        }
    }
}



/// Remove the top `n` values from the stack and hand them back in push
/// (left-to-right) order: exactly the argument vector a call receives.
#[verifier::loop_isolation(false)]
fn take_top_args(stack: &mut Vec<Value>, n: usize) -> (args: Vec<Value>)
    requires
        n <= old(stack)@.len(),
    ensures
        final(stack)@.len() == old(stack)@.len() - n,
        final(stack).deep_view() == old(stack).deep_view().take(old(stack)@.len() - n),
        args.deep_view() == old(stack).deep_view().skip(old(stack)@.len() - n),
{
    let ghost full: Seq<ValueView> = stack.deep_view();
    let ghost total: int = stack@.len() as int;
    proof {
        assert(full.take(total) =~= full);
    }
    let mut rev: Vec<Value> = Vec::new();
    let mut k: usize = 0;
    while k < n
        invariant
            k <= n,
            n <= total,
            stack@.len() == total - k,
            stack.deep_view() =~= full.take(total - k),
            rev@.len() == k,
            forall|j: int| 0 <= j < k ==> rev.deep_view()[j] == full[total - 1 - j],
        decreases n - k,
    {
        let ghost stack_pre = stack.deep_view();
        let ghost rev_pre = rev.deep_view();
        let v = match stack.pop() {
            Some(v) => v,
            Option::None => {
                proof {
                    assert(false);
                }
                break;
            }
        };
        rev.push(v);
        k = k + 1;
        proof {
            assert(stack.deep_view() =~= stack_pre.drop_last());
            assert(full.take(total - k) =~= full.take(total - (k - 1)).drop_last());
            assert(stack.deep_view() =~= full.take(total - k));
            assert(rev.deep_view() =~= rev_pre.push(v@));
            assert(v@ == stack_pre.last());
            assert(stack_pre.last() == full[total - k]);
            assert(rev.deep_view()[k - 1] == full[total - k]);
        }
    }
    let mut args: Vec<Value> = Vec::new();
    let mut k2: usize = n;
    while k2 > 0
        invariant
            k2 <= n,
            n <= total,
            rev@.len() == n,
            forall|j: int| 0 <= j < n ==> rev.deep_view()[j] == full[total - 1 - j],
            args@.len() == n - k2,
            forall|j: int| 0 <= j < n - k2 ==> args.deep_view()[j] == full[total - n + j],
        decreases k2,
    {
        k2 = k2 - 1;
        let ghost args_pre = args.deep_view();
        let v = rev[k2].duplicate();
        args.push(v);
        proof {
            assert(args.deep_view() =~= args_pre.push(v@));
            assert(v@ == rev.deep_view()[k2 as int]);
            assert(args.deep_view()[n - k2 - 1] == rev.deep_view()[k2 as int]);
        }
    }
    proof {
        assert(args.deep_view() =~= full.skip(total - n));
    }
    args
}

/// Fire one probe against a dispatcher, as the host protocol of the VM
/// prescribes: when a predicate is present it runs first and must yield a
/// boolean; the body runs exactly when the predicate is absent or yielded
/// true; a non-boolean predicate value is an error.  Returns whether the
/// body ran; captures accumulate in the dispatcher.
pub fn fire_probe<D: Dispatcher>(
    constant_pool: &ConstantPool,
    probe: &Probe,
    dispatcher: &mut D,
) -> (r: Result<bool, String>)
    ensures
        r matches Ok(ran) ==> (probe.predicate@.len() == 0 ==> ran),
        ({
            // where the predicate's run is determined (it touches no host
            // state): false skips the body, true runs it, and anything but
            // a boolean is an error
            let pred_run = spec_exec(constant_pool@, probe.predicate@, Seq::<ValueView>::empty(), 0);
            probe.predicate@.len() > 0 ==> match pred_run {
                Some(fin) => ({
                    &&& (fin.len() == 0 ==> r is Err)
                    &&& (fin.len() >= 1 ==> match fin.last() {
                        ValueView::Bool(b) => (if b {
                            !(r == Result::<bool, String>::Ok(false))
                        } else {
                            r == Result::<bool, String>::Ok(false)
                        }),
                        _ => r is Err,
                    })
                }),
                Option::None => true,
            }
        }),
{
    if probe.predicate.len() > 0 {
        let outcome = {
            let mut executor = Executor::new(constant_pool, dispatcher);
            proof {
                assert(executor@ =~= Seq::<ValueView>::empty());
            }
            let ghost pv: Seq<Constant> = executor.pool_view();
            let ghost sv: Seq<ValueView> = executor@;
            let r0 = executor.execute(probe.predicate.as_slice());
            proof {
                assert(pv == constant_pool@);
                assert(sv == Seq::<ValueView>::empty());
                match spec_exec(constant_pool@, probe.predicate@, Seq::<ValueView>::empty(), 0) {
                    Some(fin) => {
                        assert(r0 is Ok);
                    }
                    Option::None => {}
                }
            }
            r0
        };
        match outcome {
            Ok(Value::Bool(true)) => (),
            Ok(Value::Bool(false)) => {
                return Ok(false);
            }
            Ok(_) => {
                let mut m = String::new();
                m.append("Predicate must evaluate to a boolean");
                return Err(m);
            }
            Err(e) => {
                return Err(e);
            }
        }
    }
    let body_outcome = {
        let mut executor = Executor::new(constant_pool, dispatcher);
        executor.execute(probe.body.as_slice())
    };
    match body_outcome {
        Ok(_) => Ok(true),
        Err(e) => Err(e),
    }
}

} // verus!

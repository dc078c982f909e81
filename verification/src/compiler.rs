//! Compiler that lowers the AST to VM bytecode over a shared, deduplicated
//! constant pool.
//!
//! Emitted bytecode is proved well formed: every opcode byte is in the
//! opcode table, every operand index points into the constant pool, and the
//! code has a fixed stack effect - one value for a compiled expression or
//! predicate, none for a compiled statement.

use vstd::prelude::*;
use crate::ast::{
    AstExpr, AstProbe, AstProgram, AstStatement, BinaryOp, CaptureArgs, CaptureArgsView,
    ExprView, ProbePoint, Provider, StmtView, UnaryOp, expr_view, exprs_view, lemma_exprs_view_index,
    lemma_pairs_view_index, lemma_stmts_view_index, pairs_view, stmt_view, stmts_view,
};
use crate::constant_pool::{
    Constant, ConstantPool, ConstView, spec_intern, spec_intern_v, spec_find_const,
    lemma_find_const_sound, lemma_find_first, lemma_find_none, lemma_intern_view,
};
use crate::error::{ParseError, ParseResult};
use crate::executor::{spec_code_depth, spec_pops, spec_pushes};
use crate::lexer::{Position, Span};
use crate::opcodes::{
    Opcode, lemma_opcode_byte_roundtrip, spec_le16, spec_opcode_byte, spec_opcode_of_byte,
    spec_operand_size,
};
use crate::program::{FnTarget, Probe, ProbeSpec, Program};

verus! {

/// Every instruction names only constants below the given pool length, and
/// every opcode byte is in the opcode table.
pub open spec fn ops_ok(bc: Seq<u8>, i: int, pool_len: int) -> bool
    decreases bc.len() - i,
{
    if i < 0 || i > bc.len() {
        false
    } else if i == bc.len() {
        true
    } else {
        match spec_opcode_of_byte(bc[i]) {
            Option::None => false,
            Some(op) => {
                if i + 1 + spec_operand_size(op) > bc.len() {
                    false
                } else if (op is PushConst || op is LoadVar || op is StoreVar || op is GetAttr
                    || op is SetAttr || op is CallFunc) && !(spec_le16(bc[i + 1], bc[i + 2])
                    < pool_len) {
                    false
                } else {
                    ops_ok(bc, i + 1 + spec_operand_size(op), pool_len)
                }
            }
        }
    }
}

/// Starting behind a front buffer reads only the back.
proof fn lemma_ops_ok_shift(a: Seq<u8>, b: Seq<u8>, j: int, plen: int)
    requires
        0 <= j <= b.len(),
    ensures
        ops_ok(a + b, a.len() + j, plen) == ops_ok(b, j, plen),
    decreases b.len() - j,
{
    if j < b.len() {
        assert((a + b)[a.len() + j] == b[j]);
        match spec_opcode_of_byte(b[j]) {
            Option::None => {}
            Some(op) => {
                if j + 1 + spec_operand_size(op) <= b.len() {
                    if spec_operand_size(op) >= 2 {
                        assert((a + b)[a.len() + j + 1] == b[j + 1]);
                        assert((a + b)[a.len() + j + 2] == b[j + 2]);
                    }
                    lemma_ops_ok_shift(a, b, j + 1 + spec_operand_size(op), plen);
                }
            }
        }
    }
}

/// Well-formedness composes across concatenation.
proof fn lemma_ops_ok_append(a: Seq<u8>, b: Seq<u8>, i: int, plen: int)
    requires
        0 <= i <= a.len(),
        ops_ok(a, i, plen),
    ensures
        ops_ok(a + b, i, plen) == ops_ok(b, 0, plen),
    decreases a.len() - i,
{
    if i == a.len() {
        lemma_ops_ok_shift(a, b, 0, plen);
    } else {
        assert((a + b)[i] == a[i]);
        match spec_opcode_of_byte(a[i]) {
            Option::None => {}
            Some(op) => {
                if spec_operand_size(op) >= 2 {
                    assert((a + b)[i + 1] == a[i + 1]);
                    assert((a + b)[i + 2] == a[i + 2]);
                }
                lemma_ops_ok_append(a, b, i + 1 + spec_operand_size(op), plen);
            }
        }
    }
}

/// Well-formedness is kept when the pool only grows.
proof fn lemma_ops_ok_wider(bc: Seq<u8>, i: int, plen: int, wider: int)
    requires
        ops_ok(bc, i, plen),
        wider >= plen,
    ensures
        ops_ok(bc, i, wider),
    decreases bc.len() - i,
{
    if 0 <= i < bc.len() {
        match spec_opcode_of_byte(bc[i]) {
            Option::None => {}
            Some(op) => {
                lemma_ops_ok_wider(bc, i + 1 + spec_operand_size(op), plen, wider);
            }
        }
    }
}

/// The stack effect of code starting mid-buffer only depends on the tail.
proof fn lemma_depth_shift(a: Seq<u8>, b: Seq<u8>, j: int, d: int)
    requires
        0 <= j <= b.len(),
    ensures
        spec_code_depth(a + b, a.len() + j, d) == spec_code_depth(b, j, d),
    decreases b.len() - j,
{
    if j < b.len() && d >= 0 {
        assert((a + b)[a.len() + j] == b[j]);
        match spec_opcode_of_byte(b[j]) {
            Option::None => {}
            Some(op) => {
                if !(op is Dup) && j + 1 + spec_operand_size(op) <= b.len() {
                    if op is CallFunc {
                        assert((a + b)[a.len() + j + 3] == b[j + 3]);
                    }
                    if d >= spec_pops(op, b, j) {
                        lemma_depth_shift(
                            a,
                            b,
                            j + 1 + spec_operand_size(op),
                            d - spec_pops(op, b, j) + spec_pushes(op),
                        );
                    }
                }
            }
        }
    }
}

/// The stack effect composes across concatenation.
proof fn lemma_depth_append(a: Seq<u8>, b: Seq<u8>, i: int, d: int)
    requires
        0 <= i <= a.len(),
        spec_code_depth(a, i, d) is Some,
    ensures
        spec_code_depth(a + b, i, d) == spec_code_depth(b, 0, spec_code_depth(a, i, d).unwrap()),
    decreases a.len() - i,
{
    if i == a.len() {
        lemma_depth_shift(a, b, 0, d);
    } else {
        assert((a + b)[i] == a[i]);
        match spec_opcode_of_byte(a[i]) {
            Option::None => {}
            Some(op) => {
                if op is CallFunc {
                    assert((a + b)[i + 3] == a[i + 3]);
                }
                lemma_depth_append(
                    a,
                    b,
                    i + 1 + spec_operand_size(op),
                    d - spec_pops(op, a, i) + spec_pushes(op),
                );
            }
        }
    }
}

/// A chunk of code that needs at least `need` values on the stack and adds
/// `k` (net) from every such depth.
pub open spec fn chunk_eff(bc: Seq<u8>, need: int, k: int) -> bool {
    need >= 0 && forall|d: int| d >= need ==> spec_code_depth(bc, 0, d) == Some(d + k)
}

/// Larger of two values.
pub open spec fn spec_max(a: int, b: int) -> int {
    if a >= b {
        a
    } else {
        b
    }
}

/// Concatenating chunks adds their effects.
proof fn lemma_chunk_concat(a: Seq<u8>, b: Seq<u8>, na: int, ka: int, nb: int, kb: int)
    requires
        chunk_eff(a, na, ka),
        chunk_eff(b, nb, kb),
    ensures
        chunk_eff(a + b, spec_max(na, nb - ka), ka + kb),
{
    let need = spec_max(na, nb - ka);
    assert forall|d: int| d >= need implies spec_code_depth(a + b, 0, d) == Some(d + ka + kb) by {
        assert(spec_code_depth(a, 0, d) == Some(d + ka));
        lemma_depth_append(a, b, 0, d);
        assert(d + ka >= nb);
        assert(spec_code_depth(b, 0, d + ka) == Some(d + ka + kb));
    }
}

/// One instruction that is not Dup or CallFunc is a chunk by itself.
proof fn lemma_instr_chunk(chunk: Seq<u8>, op: Opcode, pops: int)
    requires
        !(op is Dup),
        !(op is CallFunc),
        chunk.len() == 1 + spec_operand_size(op),
        chunk[0] == spec_opcode_byte(op),
        pops == spec_pops(op, chunk, 0),
    ensures
        chunk_eff(chunk, pops, spec_pushes(op) - pops),
{
    lemma_opcode_byte_roundtrip(op);
    assert forall|d: int| d >= pops implies spec_code_depth(chunk, 0, d) == Some(
        d - pops + spec_pushes(op),
    ) by {
        assert(spec_code_depth(chunk, chunk.len() as int, d - pops + spec_pushes(op)) == Some(
            d - pops + spec_pushes(op),
        ));
    }
}

/// A call instruction consumes its arity and leaves one result.
proof fn lemma_call_chunk(chunk: Seq<u8>, argc: int)
    requires
        chunk.len() == 4,
        chunk[0] == spec_opcode_byte(Opcode::CallFunc),
        chunk[3] as int == argc,
    ensures
        chunk_eff(chunk, argc, 1 - argc),
{
    lemma_opcode_byte_roundtrip(Opcode::CallFunc);
    assert forall|d: int| d >= argc implies spec_code_depth(chunk, 0, d) == Some(d + 1 - argc) by {
        assert(spec_code_depth(chunk, 4, d - argc + 1) == Some(d - argc + 1));
    }
}

/// One instruction whose operand is a pool index below the pool length is
/// well formed by itself, whatever the pool grows to later.
proof fn lemma_instr_ops_ok(chunk: Seq<u8>, op: Opcode, plen: int)
    requires
        chunk.len() == 1 + spec_operand_size(op),
        chunk[0] == spec_opcode_byte(op),
        (op is PushConst || op is LoadVar || op is StoreVar || op is GetAttr || op is SetAttr
            || op is CallFunc) ==> spec_le16(chunk[1], chunk[2]) < plen,
    ensures
        ops_ok(chunk, 0, plen),
{
    lemma_opcode_byte_roundtrip(op);
    assert(ops_ok(chunk, chunk.len() as int, plen));
}


/// The opcode a binary operator lowers to.
pub open spec fn binary_opcode(op: BinaryOp) -> Opcode {
    match op {
        BinaryOp::Add => Opcode::Add,
        BinaryOp::Sub => Opcode::Sub,
        BinaryOp::Mul => Opcode::Mul,
        BinaryOp::Div => Opcode::Div,
        BinaryOp::Mod => Opcode::Mod,
        BinaryOp::Eq => Opcode::Eq,
        BinaryOp::NotEq => Opcode::Ne,
        BinaryOp::Lt => Opcode::Lt,
        BinaryOp::Gt => Opcode::Gt,
        BinaryOp::LtEq => Opcode::Le,
        BinaryOp::GtEq => Opcode::Ge,
        BinaryOp::And => Opcode::And,
        BinaryOp::Or => Opcode::Or,
    }
}

/// The three bytes of an instruction with a little-endian u16 operand.
pub open spec fn emit16(op: Opcode, idx: int) -> Seq<u8> {
    seq![spec_opcode_byte(op), (idx % 0x100) as u8, ((idx / 0x100) % 0x100) as u8]
}

/// Intern one constant and emit one u16-operand instruction naming it.
pub open spec fn lower_push(pool: Seq<ConstView>, c: ConstView, op: Opcode) -> (
    Seq<ConstView>,
    Seq<u8>,
) {
    let (p, i) = spec_intern_v(pool, c);
    (p, emit16(op, i))
}

/// The compiler's expression lowering, as a function of the viewed pool and
/// the expression: the pool after interning and the emitted bytes, post
/// order with operands first.
pub open spec fn lower_expr(pool: Seq<ConstView>, e: ExprView) -> (Seq<ConstView>, Seq<u8>)
    decreases e,
    via lower_expr_decreases
{
    match e {
        ExprView::Int(v) => lower_push(pool, ConstView::Int(v), Opcode::PushConst),
        ExprView::Float(b) => lower_push(pool, ConstView::Float(b), Opcode::PushConst),
        ExprView::Str(t) => lower_push(pool, ConstView::Str(t), Opcode::PushConst),
        ExprView::Bool(b) => lower_push(pool, ConstView::Bool(b), Opcode::PushConst),
        ExprView::NoneValue => lower_push(pool, ConstView::NoneValue, Opcode::PushConst),
        ExprView::Ident(x) => lower_push(pool, ConstView::Ident(x), Opcode::LoadVar),
        ExprView::ReqVar { is_request, field } => {
            let (p1, c1) = lower_push(
                pool,
                ConstView::Ident(if is_request {
                    "request"@
                } else {
                    "req"@
                }),
                Opcode::LoadVar,
            );
            let (p2, c2) = lower_push(p1, ConstView::Field(field), Opcode::GetAttr);
            (p2, c1 + c2)
        },
        ExprView::Binary { op, left, right } => {
            let (p1, c1) = lower_expr(pool, *left);
            let (p2, c2) = lower_expr(p1, *right);
            (p2, c1 + c2 + seq![spec_opcode_byte(binary_opcode(op))])
        },
        ExprView::Unary { op, arg } => {
            let (p1, c1) = lower_expr(pool, *arg);
            (p1, c1 + seq![spec_opcode_byte(Opcode::Not)])
        },
        ExprView::Field { object, field } => {
            let (p1, c1) = lower_expr(pool, *object);
            let (p2, c2) = lower_push(p1, ConstView::Field(field), Opcode::GetAttr);
            (p2, c1 + c2)
        },
        ExprView::Index { object, index } => {
            let (p1, c1) = lower_expr(pool, *object);
            let (p2, c2) = lower_expr(p1, *index);
            (p2, c1 + c2 + seq![spec_opcode_byte(Opcode::GetItem)])
        },
        ExprView::Call { function, args } => {
            let (p1, c1) = lower_exprs(pool, args);
            let (p2, i) = spec_intern_v(p1, ConstView::Func(function));
            (
                p2,
                c1 + seq![
                    spec_opcode_byte(Opcode::CallFunc),
                    (i % 0x100) as u8,
                    ((i / 0x100) % 0x100) as u8,
                    (args.len() % 0x100) as u8,
                ],
            )
        },
    }
}

#[via_fn]
proof fn lower_expr_decreases(pool: Seq<ConstView>, e: ExprView) {
    match e {
        ExprView::Call { function, args } => {
            assert(decreases_to!(e => args));
        }
        _ => {}
    }
}

/// Lowering of an argument list, left to right over the evolving pool.
pub open spec fn lower_exprs(pool: Seq<ConstView>, args: Seq<ExprView>) -> (
    Seq<ConstView>,
    Seq<u8>,
)
    decreases args,
    via lower_exprs_decreases
{
    if args.len() == 0 {
        (pool, Seq::<u8>::empty())
    } else {
        let (p1, c1) = lower_expr(pool, args[0]);
        let (p2, c2) = lower_exprs(p1, args.drop_first());
        (p2, c1 + c2)
    }
}

#[via_fn]
proof fn lower_exprs_decreases(pool: Seq<ConstView>, args: Seq<ExprView>) {
    if args.len() > 0 {
        vstd::seq::axiom_seq_index_decreases(args, 0);
        vstd::seq::axiom_seq_subrange_decreases(args, 1, args.len() as int);
    }
}

/// One more argument extends the lowering on the right.
pub proof fn lemma_lower_exprs_snoc(pool: Seq<ConstView>, args: Seq<ExprView>, x: ExprView)
    ensures
        lower_exprs(pool, args.push(x)).0 == lower_expr(lower_exprs(pool, args).0, x).0,
        lower_exprs(pool, args.push(x)).1 == lower_exprs(pool, args).1 + lower_expr(
            lower_exprs(pool, args).0,
            x,
        ).1,
    decreases args,
{
    if args.len() == 0 {
        assert(args.push(x)[0] == x);
        assert(args.push(x).drop_first() =~= Seq::<ExprView>::empty());
        assert(lower_exprs(pool, args).0 == pool);
        assert(lower_exprs(pool, args).1 =~= Seq::<u8>::empty());
        let p1 = lower_expr(pool, x).0;
        let c1 = lower_expr(pool, x).1;
        assert(lower_exprs(p1, Seq::<ExprView>::empty()).0 == p1);
        assert(lower_exprs(p1, Seq::<ExprView>::empty()).1 =~= Seq::<u8>::empty());
        assert(lower_exprs(pool, args.push(x)).0 == p1);
        assert(lower_exprs(pool, args.push(x)).1 =~= c1 + Seq::<u8>::empty());
        assert(c1 + Seq::<u8>::empty() =~= c1);
        assert(Seq::<u8>::empty() + c1 =~= c1);
    } else {
        assert(args.push(x)[0] == args[0]);
        assert(args.push(x).drop_first() =~= args.drop_first().push(x));
        let p1 = lower_expr(pool, args[0]).0;
        let c1 = lower_expr(pool, args[0]).1;
        lemma_lower_exprs_snoc(p1, args.drop_first(), x);
        let prest = lower_exprs(p1, args.drop_first()).0;
        let crest = lower_exprs(p1, args.drop_first()).1;
        let cx = lower_expr(prest, x).1;
        assert(lower_exprs(pool, args).0 == prest);
        assert(lower_exprs(pool, args).1 == c1 + crest);
        assert(lower_exprs(pool, args.push(x)).1 == c1 + (crest + cx));
        assert(c1 + (crest + cx) =~= (c1 + crest) + cx);
    }
}

/// Lowering of a named-argument list: each key pushed, then its value.
pub open spec fn lower_pairs(pool: Seq<ConstView>, pairs: Seq<(Seq<char>, ExprView)>) -> (
    Seq<ConstView>,
    Seq<u8>,
)
    decreases pairs,
    via lower_pairs_decreases
{
    if pairs.len() == 0 {
        (pool, Seq::<u8>::empty())
    } else {
        let (p1, c1) = lower_push(pool, ConstView::Str(pairs[0].0), Opcode::PushConst);
        let (p2, c2) = lower_expr(p1, pairs[0].1);
        let (p3, c3) = lower_pairs(p2, pairs.drop_first());
        (p3, c1 + c2 + c3)
    }
}

#[via_fn]
proof fn lower_pairs_decreases(pool: Seq<ConstView>, pairs: Seq<(Seq<char>, ExprView)>) {
    if pairs.len() > 0 {
        vstd::seq::axiom_seq_index_decreases(pairs, 0);
        vstd::seq::axiom_seq_subrange_decreases(pairs, 1, pairs.len() as int);
    }
}

/// One more pair extends the lowering on the right.
pub proof fn lemma_lower_pairs_snoc(
    pool: Seq<ConstView>,
    pairs: Seq<(Seq<char>, ExprView)>,
    x: (Seq<char>, ExprView),
)
    ensures
        ({
            let p1 = lower_pairs(pool, pairs).0;
            let p2 = lower_push(p1, ConstView::Str(x.0), Opcode::PushConst).0;
            lower_pairs(pool, pairs.push(x)).0 == lower_expr(p2, x.1).0
        }),
        ({
            let p1 = lower_pairs(pool, pairs).0;
            let p2 = lower_push(p1, ConstView::Str(x.0), Opcode::PushConst).0;
            lower_pairs(pool, pairs.push(x)).1 == lower_pairs(pool, pairs).1 + (lower_push(
                p1,
                ConstView::Str(x.0),
                Opcode::PushConst,
            ).1 + lower_expr(p2, x.1).1)
        }),
    decreases pairs,
{
    if pairs.len() == 0 {
        assert(pairs.push(x)[0] == x);
        assert(pairs.push(x).drop_first() =~= Seq::<(Seq<char>, ExprView)>::empty());
        assert(lower_pairs(pool, pairs).0 == pool);
        assert(lower_pairs(pool, pairs).1 =~= Seq::<u8>::empty());
        let p2 = lower_push(pool, ConstView::Str(x.0), Opcode::PushConst).0;
        let c2 = lower_push(pool, ConstView::Str(x.0), Opcode::PushConst).1;
        let p3 = lower_expr(p2, x.1).0;
        let c3 = lower_expr(p2, x.1).1;
        assert(lower_pairs(p3, Seq::<(Seq<char>, ExprView)>::empty()).0 == p3);
        assert(lower_pairs(p3, Seq::<(Seq<char>, ExprView)>::empty()).1 =~= Seq::<u8>::empty());
        assert(lower_pairs(pool, pairs.push(x)).0 == p3);
        assert(lower_pairs(pool, pairs.push(x)).1 =~= c2 + c3 + Seq::<u8>::empty());
        assert(c2 + c3 + Seq::<u8>::empty() =~= Seq::<u8>::empty() + (c2 + c3));
    } else {
        assert(pairs.push(x)[0] == pairs[0]);
        assert(pairs.push(x).drop_first() =~= pairs.drop_first().push(x));
        let p1 = lower_push(pool, ConstView::Str(pairs[0].0), Opcode::PushConst).0;
        let c1 = lower_push(pool, ConstView::Str(pairs[0].0), Opcode::PushConst).1;
        let p2 = lower_expr(p1, pairs[0].1).0;
        let c2 = lower_expr(p1, pairs[0].1).1;
        lemma_lower_pairs_snoc(p2, pairs.drop_first(), x);
        let prest = lower_pairs(p2, pairs.drop_first()).0;
        let crest = lower_pairs(p2, pairs.drop_first()).1;
        let pk = lower_push(prest, ConstView::Str(x.0), Opcode::PushConst).0;
        let ck = lower_push(prest, ConstView::Str(x.0), Opcode::PushConst).1;
        let cv = lower_expr(pk, x.1).1;
        assert(lower_pairs(pool, pairs).0 == prest);
        assert(lower_pairs(pool, pairs).1 == c1 + c2 + crest);
        assert(lower_pairs(pool, pairs.push(x)).1 == c1 + c2 + (crest + (ck + cv)));
        assert(c1 + c2 + (crest + (ck + cv)) =~= (c1 + c2 + crest) + (ck + cv));
    }
}

/// The compiler's statement lowering: a statement leaves no net value, with
/// capture/send ending in a call and a Pop, and an assignment in a StoreVar
/// of the dotted request name (the source's route; the spec also allows the
/// proxy route through SetAttr).
pub open spec fn lower_stmt(pool: Seq<ConstView>, s: StmtView) -> (Seq<ConstView>, Seq<u8>) {
    match s {
        StmtView::Assignment { is_request, field, value } => {
            let (p1, c1) = lower_expr(pool, value);
            let name = (if is_request {
                "request."@
            } else {
                "req."@
            }) + field;
            let (p2, c2) = lower_push(p1, ConstView::Ident(name), Opcode::StoreVar);
            (p2, c1 + c2)
        },
        StmtView::Sample => (pool, Seq::<u8>::empty()),
        StmtView::Capture { is_send, args } => {
            let fname: Seq<char> = if is_send {
                "send"@
            } else {
                "capture"@
            };
            match args {
                CaptureArgsView::Positional(exprs) => {
                    let (p1, c1) = lower_exprs(pool, exprs);
                    let (p2, i) = spec_intern_v(p1, ConstView::Func(fname));
                    (
                        p2,
                        c1 + seq![
                            spec_opcode_byte(Opcode::CallFunc),
                            (i % 0x100) as u8,
                            ((i / 0x100) % 0x100) as u8,
                            (exprs.len() % 0x100) as u8,
                        ] + seq![spec_opcode_byte(Opcode::Pop)],
                    )
                },
                CaptureArgsView::Named(pairs) => {
                    let (p1, c1) = lower_pairs(pool, pairs);
                    let (p2, i) = spec_intern_v(p1, ConstView::Func(fname));
                    (
                        p2,
                        c1 + seq![
                            spec_opcode_byte(Opcode::CallFunc),
                            (i % 0x100) as u8,
                            ((i / 0x100) % 0x100) as u8,
                            ((2 * pairs.len()) % 0x100) as u8,
                        ] + seq![spec_opcode_byte(Opcode::Pop)],
                    )
                },
            }
        },
    }
}

/// The pool a viewed compiler state holds.
pub open spec fn pool_v(pool: Seq<Constant>) -> Seq<ConstView> {
    pool.map_values(|c: Constant| c.deep_view())
}

/// Bridge one interning-and-emit step from the exec state to the viewed
/// lowering: interning commutes with views, and the emitted three bytes are
/// the spec's.
proof fn lemma_lower_push_step(
    old_pool: Seq<Constant>,
    new_pool: Seq<Constant>,
    cg: Constant,
    cv: ConstView,
    op: Opcode,
    idx: u16,
    b0: Seq<u8>,
    bnew: Seq<u8>,
)
    requires
        cg.deep_view() == cv,
        spec_intern(old_pool, cg).0 == new_pool,
        spec_intern(old_pool, cg).1 == idx as int,
        bnew == b0 + seq![spec_opcode_byte(op), (idx % 0x100) as u8, (idx / 0x100) as u8],
    ensures
        pool_v(new_pool) == lower_push(pool_v(old_pool), cv, op).0,
        bnew.skip(b0.len() as int) == lower_push(pool_v(old_pool), cv, op).1,
{
    lemma_intern_view(old_pool, cg);
    assert(((idx as int) / 0x100) % 0x100 == (idx as int) / 0x100);
    assert(bnew.skip(b0.len() as int) =~= emit16(op, idx as int));
    assert(pool_v(new_pool) =~= spec_intern_v(pool_v(old_pool), cv).0);
}


/// Lowering of a statement list, in order over the evolving pool.
pub open spec fn lower_stmts(pool: Seq<ConstView>, stmts: Seq<StmtView>) -> (
    Seq<ConstView>,
    Seq<u8>,
)
    decreases stmts,
    via lower_stmts_decreases
{
    if stmts.len() == 0 {
        (pool, Seq::<u8>::empty())
    } else {
        let (p1, c1) = lower_stmt(pool, stmts[0]);
        let (p2, c2) = lower_stmts(p1, stmts.drop_first());
        (p2, c1 + c2)
    }
}

#[via_fn]
proof fn lower_stmts_decreases(pool: Seq<ConstView>, stmts: Seq<StmtView>) {
    if stmts.len() > 0 {
        vstd::seq::axiom_seq_subrange_decreases(stmts, 1, stmts.len() as int);
    }
}

/// One more statement extends the lowering on the right.
pub proof fn lemma_lower_stmts_snoc(pool: Seq<ConstView>, stmts: Seq<StmtView>, x: StmtView)
    ensures
        lower_stmts(pool, stmts.push(x)).0 == lower_stmt(lower_stmts(pool, stmts).0, x).0,
        lower_stmts(pool, stmts.push(x)).1 == lower_stmts(pool, stmts).1 + lower_stmt(
            lower_stmts(pool, stmts).0,
            x,
        ).1,
    decreases stmts,
{
    if stmts.len() == 0 {
        assert(stmts.push(x)[0] == x);
        assert(stmts.push(x).drop_first() =~= Seq::<StmtView>::empty());
        assert(lower_stmts(pool, stmts).0 == pool);
        assert(lower_stmts(pool, stmts).1 =~= Seq::<u8>::empty());
        let p1 = lower_stmt(pool, x).0;
        let c1 = lower_stmt(pool, x).1;
        assert(lower_stmts(p1, Seq::<StmtView>::empty()).1 =~= Seq::<u8>::empty());
        assert(lower_stmts(pool, stmts.push(x)).1 =~= c1 + Seq::<u8>::empty());
        assert(c1 + Seq::<u8>::empty() =~= c1);
        assert(Seq::<u8>::empty() + c1 =~= c1);
    } else {
        assert(stmts.push(x)[0] == stmts[0]);
        assert(stmts.push(x).drop_first() =~= stmts.drop_first().push(x));
        let p1 = lower_stmt(pool, stmts[0]).0;
        let c1 = lower_stmt(pool, stmts[0]).1;
        lemma_lower_stmts_snoc(p1, stmts.drop_first(), x);
        let prest = lower_stmts(p1, stmts.drop_first()).0;
        let crest = lower_stmts(p1, stmts.drop_first()).1;
        let cx = lower_stmt(prest, x).1;
        assert(lower_stmts(pool, stmts).1 == c1 + crest);
        assert(lower_stmts(pool, stmts.push(x)).1 == c1 + (crest + cx));
        assert(c1 + (crest + cx) =~= (c1 + crest) + cx);
    }
}

/// Compiler that translates an AST to VM bytecode.
pub struct Compiler {
    /// Shared constant pool for the entire program
    pub constant_pool: ConstantPool,
    /// Current bytecode being generated
    pub bytecode: Vec<u8>,
}

impl Compiler {
    /// Create a new compiler with an empty pool and no bytecode.
    pub fn new() -> (r: Self)
        ensures
            r.constant_pool@.len() == 0,
            r.bytecode@.len() == 0,
    {
        Compiler { constant_pool: ConstantPool::new(), bytecode: Vec::new() }
    }

    /// Add a constant to the pool, or return the index of a structurally
    /// equal entry already there; the pool grows only for novel constants,
    /// and fails only when a novel constant would pass the u16 index range.
    #[verifier::loop_isolation(false)]
    pub fn add_or_get_constant(&mut self, constant: Constant) -> (r: Result<u16, ParseError>)
        requires
            old(self).constant_pool@.len() <= 0x10000,
        ensures
            final(self).constant_pool@.len() <= 0x10000,
            final(self).bytecode@ == old(self).bytecode@,
            final(self).constant_pool@.len() >= old(self).constant_pool@.len(),
            spec_find_const(old(self).constant_pool@, constant) is Some || old(
                self,
            ).constant_pool@.len() < 0x10000 ==> r is Ok,
            match r {
                Ok(ix) => ({
                    let (pool2, i) = spec_intern(old(self).constant_pool@, constant);
                    final(self).constant_pool@ == pool2 && ix as int == i && (ix as int)
                        < pool2.len()
                }),
                Err(_) => final(self).constant_pool@ == old(self).constant_pool@,
            },
    {
        let n = self.constant_pool.len();
        let mut i: usize = 0;
        while i < n
            invariant
                n == self.constant_pool@.len(),
                i <= n,
                self.constant_pool@ == old(self).constant_pool@,
                self.bytecode@ == old(self).bytecode@,
                forall|j: int| 0 <= j < i ==> !crate::constant_pool::const_eq(
                    #[trigger] self.constant_pool@[j],
                    constant,
                ),
            decreases n - i,
        {
            let c = match self.constant_pool.get(i as u16) {
                Ok(c) => c,
                Err(_) => {
                    proof {
                        assert(false);
                    }
                    break;
                }
            };
            if c.equals(&constant) {
                proof {
                    lemma_find_first(self.constant_pool@, constant, i as int);
                }
                return Ok(i as u16);
            }
            i = i + 1;
        }
        proof {
            lemma_find_none(self.constant_pool@, constant);
        }
        if n < 0x10000 {
            let ix = self.constant_pool.add(constant);
            Ok(ix)
        } else {
            Err(ParseError::at_span(
                "Constant pool overflow: too many constants",
                Span::single(Position::start()),
            ))
        }
    }

    /// Emit a single opcode byte.
    pub fn emit(&mut self, opcode: Opcode)
        ensures
            final(self).constant_pool == old(self).constant_pool,
            final(self).bytecode@ == old(self).bytecode@ + seq![spec_opcode_byte(opcode)],
    {
        self.bytecode.push(opcode.as_u8());
        proof {
            assert(self.bytecode@ =~= old(self).bytecode@ + seq![spec_opcode_byte(opcode)]);
        }
    }

    /// Emit an opcode with a u16 operand (little-endian).
    pub fn emit_u16(&mut self, opcode: Opcode, operand: u16)
        ensures
            final(self).constant_pool == old(self).constant_pool,
            final(self).bytecode@ == old(self).bytecode@ + seq![
                spec_opcode_byte(opcode),
                (operand % 0x100) as u8,
                (operand / 0x100) as u8,
            ],
            spec_le16((operand % 0x100) as u8, (operand / 0x100) as u8) == operand,
    {
        self.bytecode.push(opcode.as_u8());
        self.bytecode.push((operand % 0x100) as u8);
        self.bytecode.push((operand / 0x100) as u8);
        proof {
            assert(self.bytecode@ =~= old(self).bytecode@ + seq![
                spec_opcode_byte(opcode),
                (operand % 0x100) as u8,
                (operand / 0x100) as u8,
            ]);
        }
    }

    /// Emit a CallFunc instruction: u16 function name index plus u8 arity.
    pub fn emit_call(&mut self, func_index: u16, arg_count: u8)
        ensures
            final(self).constant_pool == old(self).constant_pool,
            final(self).bytecode@ == old(self).bytecode@ + seq![
                spec_opcode_byte(Opcode::CallFunc),
                (func_index % 0x100) as u8,
                (func_index / 0x100) as u8,
                arg_count,
            ],
            spec_le16((func_index % 0x100) as u8, (func_index / 0x100) as u8) == func_index,
    {
        self.bytecode.push(Opcode::CallFunc.as_u8());
        self.bytecode.push((func_index % 0x100) as u8);
        self.bytecode.push((func_index / 0x100) as u8);
        self.bytecode.push(arg_count);
        proof {
            assert(self.bytecode@ =~= old(self).bytecode@ + seq![
                spec_opcode_byte(Opcode::CallFunc),
                (func_index % 0x100) as u8,
                (func_index / 0x100) as u8,
                arg_count,
            ]);
        }
    }

    /// Take the bytecode built so far and reset for the next run.
    pub fn take_bytecode(&mut self) -> (r: Vec<u8>)
        ensures
            final(self).constant_pool == old(self).constant_pool,
            final(self).bytecode@.len() == 0,
            r@ == old(self).bytecode@,
    {
        let mut out: Vec<u8> = Vec::new();
        core::mem::swap(&mut out, &mut self.bytecode);
        out
    }

    /// Compile an expression: emits a well-formed chunk that pushes exactly
    /// one value from any starting stack depth.
    #[verifier::loop_isolation(false)]
    #[verifier::rlimit(100)]
    #[verifier::spinoff_prover]
    pub fn compile_expr(&mut self, expr: &AstExpr) -> (r: ParseResult<()>)
        requires
            old(self).constant_pool@.len() <= 0x10000,
        ensures
            final(self).constant_pool@.len() <= 0x10000,
            final(self).constant_pool@.len() >= old(self).constant_pool@.len(),
            match expr {
                AstExpr::Call { args, .. } => args@.len() > 255 ==> r is Err,
                _ => true,
            },
            r is Ok ==> ({
                let oldlen = old(self).bytecode@.len() as int;
                let lowered = lower_expr(pool_v(old(self).constant_pool@), expr_view(*expr));
                &&& final(self).bytecode@.len() >= oldlen
                &&& final(self).bytecode@.subrange(0, oldlen) == old(self).bytecode@
                &&& chunk_eff(final(self).bytecode@.skip(oldlen), 0, 1)
                &&& ops_ok(
                    final(self).bytecode@.skip(oldlen),
                    0,
                    final(self).constant_pool@.len() as int,
                )
                &&& pool_v(final(self).constant_pool@) == lowered.0
                &&& final(self).bytecode@.skip(oldlen) == lowered.1
            }),
        decreases *expr,
    {
        let ghost b0 = self.bytecode@;
        match expr {
            AstExpr::Int { value, .. } => {
                let ghost cg = Constant::Int(*value);
                let idx = match self.add_or_get_constant(Constant::Int(*value)) {
                    Ok(ix) => ix,
                    Err(e) => {
                        return Err(e);
                    }
                };
                self.emit_u16(Opcode::PushConst, idx);
                proof {
                    self.lemma_push_chunk(b0, Opcode::PushConst, idx);
                    lemma_lower_push_step(
                        old(self).constant_pool@,
                        self.constant_pool@,
                        cg,
                        ConstView::Int(*value),
                        Opcode::PushConst,
                        idx,
                        b0,
                        self.bytecode@,
                    );
                }
            }
            AstExpr::Float { value, .. } => {
                let ghost cg = Constant::Float(*value);
                let idx = match self.add_or_get_constant(Constant::Float(*value)) {
                    Ok(ix) => ix,
                    Err(e) => {
                        return Err(e);
                    }
                };
                self.emit_u16(Opcode::PushConst, idx);
                proof {
                    self.lemma_push_chunk(b0, Opcode::PushConst, idx);
                    lemma_lower_push_step(
                        old(self).constant_pool@,
                        self.constant_pool@,
                        cg,
                        ConstView::Float(*value),
                        Opcode::PushConst,
                        idx,
                        b0,
                        self.bytecode@,
                    );
                }
            }
            AstExpr::String { value, .. } => {
                let c = Constant::String(crate::constant_pool::clone_string(value));
                let ghost cg = c;
                let idx = match self.add_or_get_constant(c) {
                    Ok(ix) => ix,
                    Err(e) => {
                        return Err(e);
                    }
                };
                self.emit_u16(Opcode::PushConst, idx);
                proof {
                    self.lemma_push_chunk(b0, Opcode::PushConst, idx);
                    lemma_lower_push_step(
                        old(self).constant_pool@,
                        self.constant_pool@,
                        cg,
                        ConstView::Str(value@),
                        Opcode::PushConst,
                        idx,
                        b0,
                        self.bytecode@,
                    );
                }
            }
            AstExpr::Bool { value, .. } => {
                let ghost cg = Constant::Bool(*value);
                let idx = match self.add_or_get_constant(Constant::Bool(*value)) {
                    Ok(ix) => ix,
                    Err(e) => {
                        return Err(e);
                    }
                };
                self.emit_u16(Opcode::PushConst, idx);
                proof {
                    self.lemma_push_chunk(b0, Opcode::PushConst, idx);
                    lemma_lower_push_step(
                        old(self).constant_pool@,
                        self.constant_pool@,
                        cg,
                        ConstView::Bool(*value),
                        Opcode::PushConst,
                        idx,
                        b0,
                        self.bytecode@,
                    );
                }
            }
            AstExpr::NoneValue { .. } => {
                let ghost cg = Constant::NoneValue;
                let idx = match self.add_or_get_constant(Constant::NoneValue) {
                    Ok(ix) => ix,
                    Err(e) => {
                        return Err(e);
                    }
                };
                self.emit_u16(Opcode::PushConst, idx);
                proof {
                    self.lemma_push_chunk(b0, Opcode::PushConst, idx);
                    lemma_lower_push_step(
                        old(self).constant_pool@,
                        self.constant_pool@,
                        cg,
                        ConstView::NoneValue,
                        Opcode::PushConst,
                        idx,
                        b0,
                        self.bytecode@,
                    );
                }
            }
            AstExpr::Ident { name, .. } => {
                let c = Constant::Identifier(crate::constant_pool::clone_string(name));
                let ghost cg = c;
                let idx = match self.add_or_get_constant(c) {
                    Ok(ix) => ix,
                    Err(e) => {
                        return Err(e);
                    }
                };
                self.emit_u16(Opcode::LoadVar, idx);
                proof {
                    self.lemma_push_chunk(b0, Opcode::LoadVar, idx);
                    lemma_lower_push_step(
                        old(self).constant_pool@,
                        self.constant_pool@,
                        cg,
                        ConstView::Ident(name@),
                        Opcode::LoadVar,
                        idx,
                        b0,
                        self.bytecode@,
                    );
                }
            }
            AstExpr::RequestVar { var, .. } => {
                let mut vn = String::new();
                if var.is_request {
                    vn.append("request");
                } else {
                    vn.append("req");
                }
                let c1 = Constant::Identifier(vn);
                let ghost cg1 = c1;
                let var_idx = match self.add_or_get_constant(c1) {
                    Ok(ix) => ix,
                    Err(e) => {
                        return Err(e);
                    }
                };
                self.emit_u16(Opcode::LoadVar, var_idx);
                let ghost b1 = self.bytecode@;
                let ghost mid_pool = self.constant_pool@;
                proof {
                    self.lemma_push_chunk(b0, Opcode::LoadVar, var_idx);
                    lemma_lower_push_step(
                        old(self).constant_pool@,
                        mid_pool,
                        cg1,
                        ConstView::Ident(
                            if var.is_request {
                                "request"@
                            } else {
                                "req"@
                            },
                        ),
                        Opcode::LoadVar,
                        var_idx,
                        b0,
                        b1,
                    );
                }
                let ghost pre_attr_pool = self.constant_pool@.len() as int;
                let fc = Constant::FieldName(crate::constant_pool::clone_string(&var.field));
                let ghost cg2 = fc;
                let field_idx = match self.add_or_get_constant(fc) {
                    Ok(ix) => ix,
                    Err(e) => {
                        return Err(e);
                    }
                };
                self.emit_u16(Opcode::GetAttr, field_idx);
                proof {
                    self.lemma_attr_chunk(b0, b1, pre_attr_pool, field_idx);
                    lemma_lower_push_step(
                        mid_pool,
                        self.constant_pool@,
                        cg2,
                        ConstView::Field(var.field@),
                        Opcode::GetAttr,
                        field_idx,
                        b1,
                        self.bytecode@,
                    );
                    assert(self.bytecode@.subrange(0, b1.len() as int) =~= b1);
                    assert(self.bytecode@.skip(b0.len() as int) =~= b1.skip(b0.len() as int)
                        + self.bytecode@.skip(b1.len() as int));
                }
            }
            AstExpr::Binary { op, left, right, .. } => {
                match self.compile_expr(left) {
                    Ok(_) => (),
                    Err(e) => {
                        return Err(e);
                    }
                }
                let ghost b1 = self.bytecode@;
                let ghost p1 = self.constant_pool@.len() as int;
                match self.compile_expr(right) {
                    Ok(_) => (),
                    Err(e) => {
                        return Err(e);
                    }
                }
                let ghost b2 = self.bytecode@;
                let opcode = match op {
                    BinaryOp::Add => Opcode::Add,
                    BinaryOp::Sub => Opcode::Sub,
                    BinaryOp::Mul => Opcode::Mul,
                    BinaryOp::Div => Opcode::Div,
                    BinaryOp::Mod => Opcode::Mod,
                    BinaryOp::Eq => Opcode::Eq,
                    BinaryOp::NotEq => Opcode::Ne,
                    BinaryOp::Lt => Opcode::Lt,
                    BinaryOp::Gt => Opcode::Gt,
                    BinaryOp::LtEq => Opcode::Le,
                    BinaryOp::GtEq => Opcode::Ge,
                    BinaryOp::And => Opcode::And,
                    BinaryOp::Or => Opcode::Or,
                };
                self.emit(opcode);
                proof {
                    self.lemma_binary_chunk(b0, b1, b2, p1, opcode);
                    assert(opcode == binary_opcode(*op));
                    assert(self.bytecode@.subrange(0, b1.len() as int) =~= b1);
                    assert(self.bytecode@.subrange(0, b2.len() as int) =~= b2);
                    assert(self.bytecode@.skip(b0.len() as int) =~= b1.skip(b0.len() as int)
                        + b2.skip(b1.len() as int) + seq![spec_opcode_byte(opcode)]);
                }
            }
            AstExpr::Unary { op, expr: inner, .. } => {
                match op {
                    UnaryOp::Not => {
                        match self.compile_expr(inner) {
                            Ok(_) => (),
                            Err(e) => {
                                return Err(e);
                            }
                        }
                        let ghost b2 = self.bytecode@;
                        self.emit(Opcode::Not);
                        proof {
                            self.lemma_unary_chunk(b0, b2);
                            assert(self.bytecode@.subrange(0, b2.len() as int) =~= b2);
                            assert(self.bytecode@.skip(b0.len() as int) =~= b2.skip(
                                b0.len() as int,
                            ) + seq![spec_opcode_byte(Opcode::Not)]);
                        }
                    }
                }
            }
            AstExpr::FieldAccess { object, field, .. } => {
                match self.compile_expr(object) {
                    Ok(_) => (),
                    Err(e) => {
                        return Err(e);
                    }
                }
                let ghost b1 = self.bytecode@;
                let ghost mid_pool = self.constant_pool@;
                let ghost pre_attr_pool = self.constant_pool@.len() as int;
                let fc = Constant::FieldName(crate::constant_pool::clone_string(field));
                let ghost cg2 = fc;
                let idx = match self.add_or_get_constant(fc) {
                    Ok(ix) => ix,
                    Err(e) => {
                        return Err(e);
                    }
                };
                self.emit_u16(Opcode::GetAttr, idx);
                proof {
                    self.lemma_attr_chunk(b0, b1, pre_attr_pool, idx);
                    lemma_lower_push_step(
                        mid_pool,
                        self.constant_pool@,
                        cg2,
                        ConstView::Field(field@),
                        Opcode::GetAttr,
                        idx,
                        b1,
                        self.bytecode@,
                    );
                    assert(self.bytecode@.subrange(0, b1.len() as int) =~= b1);
                    assert(self.bytecode@.skip(b0.len() as int) =~= b1.skip(b0.len() as int)
                        + self.bytecode@.skip(b1.len() as int));
                }
            }
            AstExpr::IndexAccess { object, index, .. } => {
                match self.compile_expr(object) {
                    Ok(_) => (),
                    Err(e) => {
                        return Err(e);
                    }
                }
                let ghost b1 = self.bytecode@;
                let ghost p1ix = self.constant_pool@.len() as int;
                match self.compile_expr(index) {
                    Ok(_) => (),
                    Err(e) => {
                        return Err(e);
                    }
                }
                let ghost b2 = self.bytecode@;
                self.emit(Opcode::GetItem);
                proof {
                    self.lemma_binary_chunk(b0, b1, b2, p1ix, Opcode::GetItem);
                    assert(self.bytecode@.subrange(0, b1.len() as int) =~= b1);
                    assert(self.bytecode@.subrange(0, b2.len() as int) =~= b2);
                    assert(self.bytecode@.skip(b0.len() as int) =~= b1.skip(b0.len() as int)
                        + b2.skip(b1.len() as int) + seq![spec_opcode_byte(Opcode::GetItem)]);
                }
            }
            AstExpr::Call { function, args, span } => {
                let mut k: usize = 0;
                let ghost pool0 = self.constant_pool@.len() as int;
                let ghost pv0 = pool_v(old(self).constant_pool@);
                let ghost avs = exprs_view(args@);
                proof {
                    lemma_exprs_view_index(args@);
                    assert(avs.take(0) =~= Seq::<ExprView>::empty());
                }
                while k < args.len()
                    invariant
                        k <= args@.len(),
                        self.constant_pool@.len() <= 0x10000,
                        self.constant_pool@.len() >= pool0,
                        self.bytecode@.len() >= b0.len(),
                        self.bytecode@.subrange(0, b0.len() as int) == b0,
                        chunk_eff(self.bytecode@.skip(b0.len() as int), 0, k as int),
                        ops_ok(
                            self.bytecode@.skip(b0.len() as int),
                            0,
                            self.constant_pool@.len() as int,
                        ),
                        pool_v(self.constant_pool@) == lower_exprs(pv0, avs.take(k as int)).0,
                        self.bytecode@.skip(b0.len() as int) == lower_exprs(
                            pv0,
                            avs.take(k as int),
                        ).1,
                    decreases args@.len() - k,
                {
                    let ghost bpre = self.bytecode@;
                    let ghost ppre = self.constant_pool@.len() as int;
                    proof {
                        assert(decreases_to!(*expr => *args));
                        assert(decreases_to!(*args => args@));
                        vstd::seq::axiom_seq_index_decreases(args@, k as int);
                    }
                    match self.compile_expr(&args[k]) {
                        Ok(_) => (),
                        Err(e) => {
                            return Err(e);
                        }
                    }
                    k = k + 1;
                    proof {
                        self.lemma_arg_step(b0, bpre, ppre, k as int);
                        assert(avs.take(k as int) =~= avs.take(k - 1).push(avs[k - 1]));
                        assert(avs[k - 1] == expr_view(args@[k - 1]));
                        lemma_lower_exprs_snoc(pv0, avs.take(k - 1), avs[k - 1]);
                        assert(self.bytecode@.subrange(0, bpre.len() as int) =~= bpre);
                        assert(self.bytecode@.skip(b0.len() as int) =~= bpre.skip(
                            b0.len() as int,
                        ) + self.bytecode@.skip(bpre.len() as int));
                    }
                }
                if args.len() > 255 {
                    let mut msg = String::new();
                    msg.append("Too many arguments to function '");
                    msg.append(function.as_str());
                    msg.append("': ");
                    msg.append(crate::text::usize_text(args.len()).as_str());
                    msg.append(" (max 255)");
                    return Err(ParseError::at_span(msg.as_str(), *span));
                }
                let ghost b2 = self.bytecode@;
                let ghost p2c = self.constant_pool@.len() as int;
                let ghost mid_pool = self.constant_pool@;
                let fc = Constant::FunctionName(crate::constant_pool::clone_string(function));
                let ghost cg = fc;
                let idx = match self.add_or_get_constant(fc) {
                    Ok(ix) => ix,
                    Err(e) => {
                        return Err(e);
                    }
                };
                self.emit_call(idx, args.len() as u8);
                proof {
                    self.lemma_call_site(b0, b2, p2c, idx, args@.len() as int);
                    assert(avs.take(args@.len() as int) =~= avs);
                    lemma_intern_view(mid_pool, cg);
                    assert(pool_v(self.constant_pool@) =~= spec_intern_v(
                        pool_v(mid_pool),
                        ConstView::Func(function@),
                    ).0);
                    assert(((idx as int) / 0x100) % 0x100 == (idx as int) / 0x100);
                    assert((args@.len() as u8) as int == avs.len() % 0x100);
                    assert(self.bytecode@.subrange(0, b2.len() as int) =~= b2);
                    assert(self.bytecode@.skip(b0.len() as int) =~= b2.skip(b0.len() as int)
                        + seq![
                        spec_opcode_byte(Opcode::CallFunc),
                        ((idx as int) % 0x100) as u8,
                        (((idx as int) / 0x100) % 0x100) as u8,
                        (avs.len() % 0x100) as u8,
                    ]);
                }
            }
        }
        Ok(())
    }

    /// The chunk pattern of one freshly emitted push-style instruction.
    proof fn lemma_push_chunk(&self, b0: Seq<u8>, op: Opcode, idx: u16)
        requires
            !(op is Dup),
            !(op is CallFunc),
            spec_operand_size(op) == 2,
            spec_pops(op, Seq::<u8>::empty(), 0) == 0,
            spec_pushes(op) == 1,
            self.bytecode@ == b0 + seq![
                spec_opcode_byte(op),
                (idx % 0x100) as u8,
                (idx / 0x100) as u8,
            ],
            (idx as int) < self.constant_pool@.len(),
        ensures
            self.bytecode@.len() >= b0.len(),
            self.bytecode@.subrange(0, b0.len() as int) == b0,
            chunk_eff(self.bytecode@.skip(b0.len() as int), 0, 1),
            ops_ok(self.bytecode@.skip(b0.len() as int), 0, self.constant_pool@.len() as int),
    {
        let chunk = self.bytecode@.skip(b0.len() as int);
        assert(chunk =~= seq![spec_opcode_byte(op), (idx % 0x100) as u8, (idx / 0x100) as u8]);
        assert(spec_pops(op, chunk, 0) == 0);
        lemma_instr_chunk(chunk, op, 0);
        assert(spec_le16(chunk[1], chunk[2]) == idx);
        lemma_instr_ops_ok(chunk, op, self.constant_pool@.len() as int);
        assert(self.bytecode@.subrange(0, b0.len() as int) =~= b0);
    }

    /// The chunk pattern of an expression followed by a GetAttr.
    proof fn lemma_attr_chunk(&self, b0: Seq<u8>, b1: Seq<u8>, p1: int, idx: u16)
        requires
            b1.len() >= b0.len(),
            b1.subrange(0, b0.len() as int) == b0,
            chunk_eff(b1.skip(b0.len() as int), 0, 1),
            ops_ok(b1.skip(b0.len() as int), 0, p1),
            p1 <= self.constant_pool@.len() as int,
            self.bytecode@ == b1 + seq![
                spec_opcode_byte(Opcode::GetAttr),
                (idx % 0x100) as u8,
                (idx / 0x100) as u8,
            ],
            (idx as int) < self.constant_pool@.len(),
        ensures
            self.bytecode@.len() >= b0.len(),
            self.bytecode@.subrange(0, b0.len() as int) == b0,
            chunk_eff(self.bytecode@.skip(b0.len() as int), 0, 1),
            ops_ok(self.bytecode@.skip(b0.len() as int), 0, self.constant_pool@.len() as int),
    {
        let plen = self.constant_pool@.len() as int;
        let a = b1.skip(b0.len() as int);
        lemma_ops_ok_wider(a, 0, p1, plen);
        let instr = seq![spec_opcode_byte(Opcode::GetAttr), (idx % 0x100) as u8, (idx / 0x100) as u8];
        assert(spec_pops(Opcode::GetAttr, instr, 0) == 1);
        lemma_instr_chunk(instr, Opcode::GetAttr, 1);
        assert(spec_le16(instr[1], instr[2]) == idx);
        lemma_instr_ops_ok(instr, Opcode::GetAttr, plen);
        lemma_chunk_concat(a, instr, 0, 1, 1, 0);
        lemma_ops_ok_append(a, instr, 0, plen);
        assert(self.bytecode@.skip(b0.len() as int) =~= a + instr);
        assert(self.bytecode@.subrange(0, b0.len() as int) =~= b0);
    }

    /// The chunk pattern of two sub-expressions followed by a two-operand
    /// instruction without immediate operands.
    proof fn lemma_binary_chunk(&self, b0: Seq<u8>, b1: Seq<u8>, b2: Seq<u8>, p1: int, op: Opcode)
        requires
            !(op is Dup),
            !(op is CallFunc),
            spec_operand_size(op) == 0,
            spec_pops(op, Seq::<u8>::empty(), 0) == 2,
            spec_pushes(op) == 1,
            b1.len() >= b0.len(),
            b1.subrange(0, b0.len() as int) == b0,
            b2.len() >= b1.len(),
            b2.subrange(0, b1.len() as int) == b1,
            chunk_eff(b1.skip(b0.len() as int), 0, 1),
            chunk_eff(b2.skip(b1.len() as int), 0, 1),
            ops_ok(b1.skip(b0.len() as int), 0, p1),
            p1 <= self.constant_pool@.len() as int,
            ops_ok(b2.skip(b1.len() as int), 0, self.constant_pool@.len() as int),
            self.bytecode@ == b2 + seq![spec_opcode_byte(op)],
        ensures
            self.bytecode@.len() >= b0.len(),
            self.bytecode@.subrange(0, b0.len() as int) == b0,
            chunk_eff(self.bytecode@.skip(b0.len() as int), 0, 1),
            ops_ok(self.bytecode@.skip(b0.len() as int), 0, self.constant_pool@.len() as int),
    {
        let plen = self.constant_pool@.len() as int;
        let a = b1.skip(b0.len() as int);
        lemma_ops_ok_wider(a, 0, p1, plen);
        let b = b2.skip(b1.len() as int);
        let instr = seq![spec_opcode_byte(op)];
        assert(spec_pops(op, instr, 0) == 2);
        lemma_instr_chunk(instr, op, 2);
        lemma_instr_ops_ok(instr, op, plen);
        lemma_chunk_concat(a, b, 0, 1, 0, 1);
        lemma_chunk_concat(a + b, instr, 0, 2, 2, -1);
        lemma_ops_ok_append(a, b, 0, plen);
        lemma_ops_ok_append(a + b, instr, 0, plen);
        assert(self.bytecode@.skip(b0.len() as int) =~= (a + b) + instr);
        assert(self.bytecode@.subrange(0, b0.len() as int) =~= b0);
    }

    /// The chunk pattern of a sub-expression followed by Not.
    proof fn lemma_unary_chunk(&self, b0: Seq<u8>, b2: Seq<u8>)
        requires
            b2.len() >= b0.len(),
            b2.subrange(0, b0.len() as int) == b0,
            chunk_eff(b2.skip(b0.len() as int), 0, 1),
            ops_ok(b2.skip(b0.len() as int), 0, self.constant_pool@.len() as int),
            self.bytecode@ == b2 + seq![spec_opcode_byte(Opcode::Not)],
        ensures
            self.bytecode@.len() >= b0.len(),
            self.bytecode@.subrange(0, b0.len() as int) == b0,
            chunk_eff(self.bytecode@.skip(b0.len() as int), 0, 1),
            ops_ok(self.bytecode@.skip(b0.len() as int), 0, self.constant_pool@.len() as int),
    {
        let plen = self.constant_pool@.len() as int;
        let a = b2.skip(b0.len() as int);
        let instr = seq![spec_opcode_byte(Opcode::Not)];
        assert(spec_pops(Opcode::Not, instr, 0) == 1);
        lemma_instr_chunk(instr, Opcode::Not, 1);
        lemma_instr_ops_ok(instr, Opcode::Not, plen);
        lemma_chunk_concat(a, instr, 0, 1, 1, 0);
        lemma_ops_ok_append(a, instr, 0, plen);
        assert(self.bytecode@.skip(b0.len() as int) =~= a + instr);
        assert(self.bytecode@.subrange(0, b0.len() as int) =~= b0);
    }

    /// One more argument extends the argument chunk by one pushed value.
    proof fn lemma_arg_step(&self, b0: Seq<u8>, bpre: Seq<u8>, ppre: int, k: int)
        requires
            k >= 1,
            bpre.len() >= b0.len(),
            bpre.subrange(0, b0.len() as int) == b0,
            chunk_eff(bpre.skip(b0.len() as int), 0, k - 1),
            ops_ok(bpre.skip(b0.len() as int), 0, ppre),
            ppre <= self.constant_pool@.len() as int,
            self.bytecode@.len() >= bpre.len(),
            self.bytecode@.subrange(0, bpre.len() as int) == bpre,
            chunk_eff(self.bytecode@.skip(bpre.len() as int), 0, 1),
            ops_ok(self.bytecode@.skip(bpre.len() as int), 0, self.constant_pool@.len() as int),
        ensures
            self.bytecode@.len() >= b0.len(),
            self.bytecode@.subrange(0, b0.len() as int) == b0,
            chunk_eff(self.bytecode@.skip(b0.len() as int), 0, k),
            ops_ok(self.bytecode@.skip(b0.len() as int), 0, self.constant_pool@.len() as int),
    {
        let plen = self.constant_pool@.len() as int;
        let a = bpre.skip(b0.len() as int);
        let b = self.bytecode@.skip(bpre.len() as int);
        lemma_ops_ok_wider(a, 0, ppre, plen);
        lemma_chunk_concat(a, b, 0, k - 1, 0, 1);
        lemma_ops_ok_append(a, b, 0, plen);
        assert(self.bytecode@.skip(b0.len() as int) =~= a + b);
        assert(self.bytecode@.subrange(0, b0.len() as int) =~= b0);
    }

    /// The chunk pattern of compiled arguments followed by a call.
    proof fn lemma_call_site(&self, b0: Seq<u8>, b2: Seq<u8>, p2: int, idx: u16, argc: int)
        requires
            0 <= argc <= 255,
            b2.len() >= b0.len(),
            b2.subrange(0, b0.len() as int) == b0,
            chunk_eff(b2.skip(b0.len() as int), 0, argc),
            ops_ok(b2.skip(b0.len() as int), 0, p2),
            p2 <= self.constant_pool@.len() as int,
            self.bytecode@ == b2 + seq![
                spec_opcode_byte(Opcode::CallFunc),
                (idx % 0x100) as u8,
                (idx / 0x100) as u8,
                argc as u8,
            ],
            (idx as int) < self.constant_pool@.len(),
        ensures
            self.bytecode@.len() >= b0.len(),
            self.bytecode@.subrange(0, b0.len() as int) == b0,
            chunk_eff(self.bytecode@.skip(b0.len() as int), 0, 1),
            ops_ok(self.bytecode@.skip(b0.len() as int), 0, self.constant_pool@.len() as int),
    {
        let plen = self.constant_pool@.len() as int;
        let a = b2.skip(b0.len() as int);
        lemma_ops_ok_wider(a, 0, p2, plen);
        let instr = seq![
            spec_opcode_byte(Opcode::CallFunc),
            (idx % 0x100) as u8,
            (idx / 0x100) as u8,
            argc as u8,
        ];
        lemma_call_chunk(instr, argc);
        assert(spec_le16(instr[1], instr[2]) == idx);
        lemma_instr_ops_ok(instr, Opcode::CallFunc, plen);
        lemma_chunk_concat(a, instr, 0, argc, argc, 1 - argc);
        lemma_ops_ok_append(a, instr, 0, plen);
        assert(self.bytecode@.skip(b0.len() as int) =~= a + instr);
        assert(self.bytecode@.subrange(0, b0.len() as int) =~= b0);
    }
}

impl Compiler {
    /// Compile a statement: emits a well-formed chunk with no net stack
    /// effect from any starting depth.
    #[verifier::loop_isolation(false)]
    #[verifier::rlimit(100)]
    #[verifier::spinoff_prover]
    pub fn compile_stmt(&mut self, stmt: &AstStatement) -> (r: ParseResult<()>)
        requires
            old(self).constant_pool@.len() <= 0x10000,
        ensures
            final(self).constant_pool@.len() <= 0x10000,
            final(self).constant_pool@.len() >= old(self).constant_pool@.len(),
            stmt is Sample ==> r is Err,
            match stmt {
                AstStatement::Capture { args: CaptureArgs::Positional(exprs), .. } => exprs@.len()
                    > 255 ==> r is Err,
                AstStatement::Capture { args: CaptureArgs::Named(entries), .. } => entries@.len()
                    > 127 ==> r is Err,
                _ => true,
            },
            r is Ok ==> ({
                let oldlen = old(self).bytecode@.len() as int;
                let lowered = lower_stmt(pool_v(old(self).constant_pool@), stmt_view(*stmt));
                &&& final(self).bytecode@.len() >= oldlen
                &&& final(self).bytecode@.subrange(0, oldlen) == old(self).bytecode@
                &&& chunk_eff(final(self).bytecode@.skip(oldlen), 0, 0)
                &&& ops_ok(
                    final(self).bytecode@.skip(oldlen),
                    0,
                    final(self).constant_pool@.len() as int,
                )
                &&& pool_v(final(self).constant_pool@) == lowered.0
                &&& final(self).bytecode@.skip(oldlen) == lowered.1
            }),
    {
        let ghost b0 = self.bytecode@;
        match stmt {
            AstStatement::Assignment { var, value, .. } => {
                match self.compile_expr(value) {
                    Ok(_) => (),
                    Err(e) => {
                        return Err(e);
                    }
                }
                let ghost b1 = self.bytecode@;
                let ghost mid_pool = self.constant_pool@;
                let ghost p1sv = self.constant_pool@.len() as int;
                // the request store is addressed through a single dotted
                // identifier ("req.field"); the symmetric alternative would
                // load the store proxy and write through SetAttr, and hosts
                // may support both routes
                let mut var_name = String::new();
                if var.is_request {
                    var_name.append("request.");
                } else {
                    var_name.append("req.");
                }
                var_name.append(var.field.as_str());
                let c1 = Constant::Identifier(var_name);
                let ghost cg = c1;
                let idx = match self.add_or_get_constant(c1) {
                    Ok(ix) => ix,
                    Err(e) => {
                        return Err(e);
                    }
                };
                self.emit_u16(Opcode::StoreVar, idx);
                proof {
                    self.lemma_store_chunk(b0, b1, p1sv, idx);
                    lemma_lower_push_step(
                        mid_pool,
                        self.constant_pool@,
                        cg,
                        ConstView::Ident(
                            (if var.is_request {
                                "request."@
                            } else {
                                "req."@
                            }) + var.field@,
                        ),
                        Opcode::StoreVar,
                        idx,
                        b1,
                        self.bytecode@,
                    );
                    assert(self.bytecode@.subrange(0, b1.len() as int) =~= b1);
                    assert(self.bytecode@.skip(b0.len() as int) =~= b1.skip(b0.len() as int)
                        + self.bytecode@.skip(b1.len() as int));
                }
                Ok(())
            }
            AstStatement::Capture { is_send, args, span } => {
                let arg_count: usize;
                match args {
                    CaptureArgs::Positional(exprs) => {
                        let mut k: usize = 0;
                        let ghost pv0 = pool_v(old(self).constant_pool@);
                        let ghost avs = exprs_view(exprs@);
                        proof {
                            lemma_exprs_view_index(exprs@);
                            assert(avs.take(0) =~= Seq::<ExprView>::empty());
                        }
                        while k < exprs.len()
                            invariant
                                k <= exprs@.len(),
                                self.constant_pool@.len() <= 0x10000,
                                self.constant_pool@.len() >= old(self).constant_pool@.len(),
                                self.bytecode@.len() >= b0.len(),
                                self.bytecode@.subrange(0, b0.len() as int) == b0,
                                chunk_eff(self.bytecode@.skip(b0.len() as int), 0, k as int),
                                ops_ok(
                                    self.bytecode@.skip(b0.len() as int),
                                    0,
                                    self.constant_pool@.len() as int,
                                ),
                                pool_v(self.constant_pool@) == lower_exprs(
                                    pv0,
                                    avs.take(k as int),
                                ).0,
                                self.bytecode@.skip(b0.len() as int) == lower_exprs(
                                    pv0,
                                    avs.take(k as int),
                                ).1,
                            decreases exprs@.len() - k,
                        {
                            let ghost bpre = self.bytecode@;
                            let ghost ppre = self.constant_pool@.len() as int;
                            match self.compile_expr(&exprs[k]) {
                                Ok(_) => (),
                                Err(e) => {
                                    return Err(e);
                                }
                            }
                            k = k + 1;
                            proof {
                                self.lemma_arg_step(b0, bpre, ppre, k as int);
                                assert(avs.take(k as int) =~= avs.take(k - 1).push(avs[k - 1]));
                                assert(avs[k - 1] == expr_view(exprs@[k - 1]));
                                lemma_lower_exprs_snoc(pv0, avs.take(k - 1), avs[k - 1]);
                                assert(self.bytecode@.subrange(0, bpre.len() as int) =~= bpre);
                                assert(self.bytecode@.skip(b0.len() as int) =~= bpre.skip(
                                    b0.len() as int,
                                ) + self.bytecode@.skip(bpre.len() as int));
                            }
                        }
                        proof {
                            assert(avs.take(exprs@.len() as int) =~= avs);
                        }
                        if exprs.len() > 255 {
                            let mut msg = String::new();
                            msg.append("Too many arguments to ");
                            msg.append(if *is_send { "send" } else { "capture" });
                            msg.append(": ");
                            msg.append(crate::text::usize_text(exprs.len()).as_str());
                            msg.append(" (max 255)");
                            return Err(ParseError::at_span(msg.as_str(), *span));
                        }
                        arg_count = exprs.len();
                    }
                    CaptureArgs::Named(entries) => {
                        let mut k: usize = 0;
                        let ghost pv0 = pool_v(old(self).constant_pool@);
                        let ghost pvs = pairs_view(entries@);
                        proof {
                            lemma_pairs_view_index(entries@);
                            assert(pvs.take(0) =~= Seq::<(Seq<char>, ExprView)>::empty());
                        }
                        while k < entries.len()
                            invariant
                                k <= entries@.len(),
                                self.constant_pool@.len() <= 0x10000,
                                self.constant_pool@.len() >= old(self).constant_pool@.len(),
                                self.bytecode@.len() >= b0.len(),
                                self.bytecode@.subrange(0, b0.len() as int) == b0,
                                chunk_eff(self.bytecode@.skip(b0.len() as int), 0, 2 * k as int),
                                ops_ok(
                                    self.bytecode@.skip(b0.len() as int),
                                    0,
                                    self.constant_pool@.len() as int,
                                ),
                                pool_v(self.constant_pool@) == lower_pairs(
                                    pv0,
                                    pvs.take(k as int),
                                ).0,
                                self.bytecode@.skip(b0.len() as int) == lower_pairs(
                                    pv0,
                                    pvs.take(k as int),
                                ).1,
                            decreases entries@.len() - k,
                        {
                            let ghost bpre = self.bytecode@;
                            let ghost ppre = self.constant_pool@.len() as int;
                            let ghost pool_pre = self.constant_pool@;
                            let name_const = Constant::String(
                                crate::constant_pool::clone_string(&entries[k].name),
                            );
                            let ghost cgk = name_const;
                            let name_idx = match self.add_or_get_constant(name_const) {
                                Ok(ix) => ix,
                                Err(e) => {
                                    return Err(e);
                                }
                            };
                            self.emit_u16(Opcode::PushConst, name_idx);
                            let ghost bmid = self.bytecode@;
                            proof {
                                self.lemma_push_chunk(bpre, Opcode::PushConst, name_idx);
                                lemma_lower_push_step(
                                    pool_pre,
                                    self.constant_pool@,
                                    cgk,
                                    ConstView::Str(entries@[k as int].name@),
                                    Opcode::PushConst,
                                    name_idx,
                                    bpre,
                                    bmid,
                                );
                            }
                            let ghost pmid = self.constant_pool@.len() as int;
                            match self.compile_expr(&entries[k].value) {
                                Ok(_) => (),
                                Err(e) => {
                                    return Err(e);
                                }
                            }
                            k = k + 1;
                            proof {
                                self.lemma_pair_step(b0, bpre, bmid, ppre, pmid, k as int);
                                assert(pvs.take(k as int) =~= pvs.take(k - 1).push(pvs[k - 1]));
                                assert(pvs[k - 1] == (
                                    entries@[k - 1].name@,
                                    expr_view(entries@[k - 1].value),
                                ));
                                lemma_lower_pairs_snoc(pv0, pvs.take(k - 1), pvs[k - 1]);
                                assert(self.bytecode@.subrange(0, bmid.len() as int) =~= bmid);
                                assert(bmid.subrange(0, bpre.len() as int) =~= bpre);
                                assert(self.bytecode@.skip(b0.len() as int) =~= bpre.skip(
                                    b0.len() as int,
                                ) + (bmid.skip(bpre.len() as int) + self.bytecode@.skip(
                                    bmid.len() as int,
                                )));
                            }
                        }
                        proof {
                            assert(pvs.take(entries@.len() as int) =~= pvs);
                        }
                        if entries.len() > 127 {
                            let mut msg = String::new();
                            msg.append("Too many arguments to ");
                            msg.append(if *is_send { "send" } else { "capture" });
                            msg.append(": ");
                            msg.append(crate::text::u64_text((entries.len() as u64).wrapping_mul(2)).as_str());
                            msg.append(" (max 255)");
                            return Err(ParseError::at_span(msg.as_str(), *span));
                        }
                        arg_count = entries.len() * 2;
                    }
                }
                let ghost b2 = self.bytecode@;
                let ghost p2c = self.constant_pool@.len() as int;
                let ghost mid_pool = self.constant_pool@;
                let mut fname = String::new();
                fname.append(if *is_send { "send" } else { "capture" });
                let c1 = Constant::FunctionName(fname);
                let ghost cg = c1;
                let idx = match self.add_or_get_constant(c1) {
                    Ok(ix) => ix,
                    Err(e) => {
                        return Err(e);
                    }
                };
                self.emit_call(idx, arg_count as u8);
                let ghost b3 = self.bytecode@;
                proof {
                    self.lemma_call_site(b0, b2, p2c, idx, arg_count as int);
                    lemma_intern_view(mid_pool, cg);
                    assert(pool_v(self.constant_pool@) =~= spec_intern_v(
                        pool_v(mid_pool),
                        ConstView::Func(
                            if *is_send {
                                "send"@
                            } else {
                                "capture"@
                            },
                        ),
                    ).0);
                    assert(((idx as int) / 0x100) % 0x100 == (idx as int) / 0x100);
                }
                self.emit(Opcode::Pop);
                proof {
                    self.lemma_pop_chunk(b0, b3);
                    assert(self.bytecode@.subrange(0, b3.len() as int) =~= b3);
                    assert(b3.subrange(0, b2.len() as int) =~= b2);
                    assert(self.bytecode@.skip(b0.len() as int) =~= b2.skip(b0.len() as int)
                        + seq![
                        spec_opcode_byte(Opcode::CallFunc),
                        ((idx as int) % 0x100) as u8,
                        (((idx as int) / 0x100) % 0x100) as u8,
                        (arg_count % 0x100) as u8,
                    ] + seq![spec_opcode_byte(Opcode::Pop)]);
                }
                Ok(())
            }
            AstStatement::Sample { span, .. } => Err(ParseError::at_span(
                "Sample statements should be handled at probe level",
                *span,
            )),
        }
    }

    /// The chunk pattern of an expression followed by StoreVar.
    proof fn lemma_store_chunk(&self, b0: Seq<u8>, b1: Seq<u8>, p1: int, idx: u16)
        requires
            b1.len() >= b0.len(),
            b1.subrange(0, b0.len() as int) == b0,
            chunk_eff(b1.skip(b0.len() as int), 0, 1),
            ops_ok(b1.skip(b0.len() as int), 0, p1),
            p1 <= self.constant_pool@.len() as int,
            self.bytecode@ == b1 + seq![
                spec_opcode_byte(Opcode::StoreVar),
                (idx % 0x100) as u8,
                (idx / 0x100) as u8,
            ],
            (idx as int) < self.constant_pool@.len(),
        ensures
            self.bytecode@.len() >= b0.len(),
            self.bytecode@.subrange(0, b0.len() as int) == b0,
            chunk_eff(self.bytecode@.skip(b0.len() as int), 0, 0),
            ops_ok(self.bytecode@.skip(b0.len() as int), 0, self.constant_pool@.len() as int),
    {
        let plen = self.constant_pool@.len() as int;
        let a = b1.skip(b0.len() as int);
        lemma_ops_ok_wider(a, 0, p1, plen);
        let instr = seq![
            spec_opcode_byte(Opcode::StoreVar),
            (idx % 0x100) as u8,
            (idx / 0x100) as u8,
        ];
        assert(spec_pops(Opcode::StoreVar, instr, 0) == 1);
        lemma_instr_chunk(instr, Opcode::StoreVar, 1);
        assert(spec_le16(instr[1], instr[2]) == idx);
        lemma_instr_ops_ok(instr, Opcode::StoreVar, plen);
        lemma_chunk_concat(a, instr, 0, 1, 1, -1);
        lemma_ops_ok_append(a, instr, 0, plen);
        assert(self.bytecode@.skip(b0.len() as int) =~= a + instr);
        assert(self.bytecode@.subrange(0, b0.len() as int) =~= b0);
    }

    /// One named pair (a pushed key and a compiled value) extends the chunk
    /// by two pushed values.
    proof fn lemma_pair_step(
        &self,
        b0: Seq<u8>,
        bpre: Seq<u8>,
        bmid: Seq<u8>,
        ppre: int,
        pmid: int,
        k: int,
    )
        requires
            k >= 1,
            bpre.len() >= b0.len(),
            bpre.subrange(0, b0.len() as int) == b0,
            chunk_eff(bpre.skip(b0.len() as int), 0, 2 * (k - 1)),
            ops_ok(bpre.skip(b0.len() as int), 0, ppre),
            ppre <= pmid,
            bmid.len() >= bpre.len(),
            bmid.subrange(0, bpre.len() as int) == bpre,
            chunk_eff(bmid.skip(bpre.len() as int), 0, 1),
            ops_ok(bmid.skip(bpre.len() as int), 0, pmid),
            pmid <= self.constant_pool@.len() as int,
            self.bytecode@.len() >= bmid.len(),
            self.bytecode@.subrange(0, bmid.len() as int) == bmid,
            chunk_eff(self.bytecode@.skip(bmid.len() as int), 0, 1),
            ops_ok(self.bytecode@.skip(bmid.len() as int), 0, self.constant_pool@.len() as int),
        ensures
            self.bytecode@.len() >= b0.len(),
            self.bytecode@.subrange(0, b0.len() as int) == b0,
            chunk_eff(self.bytecode@.skip(b0.len() as int), 0, 2 * k),
            ops_ok(self.bytecode@.skip(b0.len() as int), 0, self.constant_pool@.len() as int),
    {
        let plen = self.constant_pool@.len() as int;
        let a = bpre.skip(b0.len() as int);
        let b = bmid.skip(bpre.len() as int);
        let c = self.bytecode@.skip(bmid.len() as int);
        lemma_ops_ok_wider(a, 0, ppre, plen);
        lemma_ops_ok_wider(b, 0, pmid, plen);
        lemma_chunk_concat(a, b, 0, 2 * (k - 1), 0, 1);
        lemma_chunk_concat(a + b, c, 0, 2 * (k - 1) + 1, 0, 1);
        lemma_ops_ok_append(a, b, 0, plen);
        lemma_ops_ok_append(a + b, c, 0, plen);
        assert(self.bytecode@.skip(b0.len() as int) =~= (a + b) + c);
        assert(self.bytecode@.subrange(0, b0.len() as int) =~= b0);
    }

    /// The chunk pattern of a one-value chunk followed by Pop.
    proof fn lemma_pop_chunk(&self, b0: Seq<u8>, b3: Seq<u8>)
        requires
            b3.len() >= b0.len(),
            b3.subrange(0, b0.len() as int) == b0,
            chunk_eff(b3.skip(b0.len() as int), 0, 1),
            ops_ok(b3.skip(b0.len() as int), 0, self.constant_pool@.len() as int),
            self.bytecode@ == b3 + seq![spec_opcode_byte(Opcode::Pop)],
        ensures
            self.bytecode@.len() >= b0.len(),
            self.bytecode@.subrange(0, b0.len() as int) == b0,
            chunk_eff(self.bytecode@.skip(b0.len() as int), 0, 0),
            ops_ok(self.bytecode@.skip(b0.len() as int), 0, self.constant_pool@.len() as int),
    {
        let plen = self.constant_pool@.len() as int;
        let a = b3.skip(b0.len() as int);
        let instr = seq![spec_opcode_byte(Opcode::Pop)];
        assert(spec_pops(Opcode::Pop, instr, 0) == 1);
        lemma_instr_chunk(instr, Opcode::Pop, 1);
        lemma_instr_ops_ok(instr, Opcode::Pop, plen);
        lemma_chunk_concat(a, instr, 0, 1, 1, -1);
        lemma_ops_ok_append(a, instr, 0, plen);
        assert(self.bytecode@.skip(b0.len() as int) =~= a + instr);
        assert(self.bytecode@.subrange(0, b0.len() as int) =~= b0);
    }

    /// Compile one probe: its id is generated from its position, and its
    /// predicate and body become separate, well-formed bytecode runs.
    #[verifier::loop_isolation(false)]
    #[verifier::rlimit(100)]
    #[verifier::spinoff_prover]
    fn compile_probe(&mut self, probe: &AstProbe, idx: usize) -> (r: ParseResult<Probe>)
        requires
            old(self).bytecode@.len() == 0,
            old(self).constant_pool@.len() <= 0x10000,
        ensures
            final(self).constant_pool@.len() <= 0x10000,
            final(self).constant_pool@.len() >= old(self).constant_pool@.len(),
            final(self).bytecode@.len() == 0 || r is Err,
            r matches Ok(pb) ==> ({
                let pv0 = pool_v(old(self).constant_pool@);
                let pred_lowered = match probe.predicate {
                    Some(p) => lower_expr(pv0, expr_view(p)),
                    Option::None => (pv0, Seq::<u8>::empty()),
                };
                &&& pb.id@ == "probe_"@ + crate::text::spec_u64_digits(idx as u64)
                &&& (pb.predicate@.len() == 0 || chunk_eff(pb.predicate@, 0, 1))
                &&& ops_ok(pb.predicate@, 0, final(self).constant_pool@.len() as int)
                &&& chunk_eff(pb.body@, 0, 0)
                &&& ops_ok(pb.body@, 0, final(self).constant_pool@.len() as int)
                &&& (probe.predicate is None <==> pb.predicate@.len() == 0)
                &&& pb.predicate@ == pred_lowered.1
                &&& pb.body@ == lower_stmts(pred_lowered.0, stmts_view(probe.body@)).1
                &&& pool_v(final(self).constant_pool@) == lower_stmts(
                    pred_lowered.0,
                    stmts_view(probe.body@),
                ).0
            }),
    {
        let mut id = String::new();
        id.append("probe_");
        id.append(crate::text::usize_text(idx).as_str());

        let spec = match self.compile_probe_spec(&probe.spec) {
            Ok(s) => s,
            Err(e) => {
                return Err(e);
            }
        };

        let predicate: Vec<u8>;
        match &probe.predicate {
            Some(pred_expr) => {
                match self.compile_expr(pred_expr) {
                    Ok(_) => (),
                    Err(e) => {
                        return Err(e);
                    }
                }
                proof {
                    assert(self.bytecode@.skip(0) =~= self.bytecode@);
                }
                predicate = self.take_bytecode();
            }
            Option::None => {
                predicate = Vec::new();
            }
        }
        let ghost ppool: int = self.constant_pool@.len() as int;
        proof {
            if predicate@.len() == 0 {
                assert(ops_ok(predicate@, 0, ppool));
            }
        }

        let ghost body_pool0 = self.constant_pool@.len() as int;
        let ghost ppred_v = pool_v(self.constant_pool@);
        let ghost svs = stmts_view(probe.body@);
        proof {
            lemma_stmts_view_index(probe.body@);
            assert(svs.take(0) =~= Seq::<StmtView>::empty());
        }
        let mut k: usize = 0;
        while k < probe.body.len()
            invariant
                k <= probe.body@.len(),
                self.constant_pool@.len() <= 0x10000,
                self.constant_pool@.len() >= body_pool0,
                chunk_eff(self.bytecode@, 0, 0),
                ops_ok(self.bytecode@, 0, self.constant_pool@.len() as int),
                pool_v(self.constant_pool@) == lower_stmts(ppred_v, svs.take(k as int)).0,
                self.bytecode@ == lower_stmts(ppred_v, svs.take(k as int)).1,
            decreases probe.body@.len() - k,
        {
            let ghost bpre = self.bytecode@;
            let ghost ppre = self.constant_pool@.len() as int;
            match self.compile_stmt(&probe.body[k]) {
                Ok(_) => (),
                Err(e) => {
                    return Err(e);
                }
            }
            k = k + 1;
            proof {
                let plen = self.constant_pool@.len() as int;
                let a = bpre;
                let b = self.bytecode@.skip(bpre.len() as int);
                lemma_ops_ok_wider(a, 0, ppre, plen);
                lemma_chunk_concat(a, b, 0, 0, 0, 0);
                lemma_ops_ok_append(a, b, 0, plen);
                assert(self.bytecode@ =~= a + b);
                assert(svs.take(k as int) =~= svs.take(k - 1).push(svs[k - 1]));
                assert(svs[k - 1] == stmt_view(probe.body@[k - 1]));
                lemma_lower_stmts_snoc(ppred_v, svs.take(k - 1), svs[k - 1]);
            }
        }
        proof {
            assert(svs.take(probe.body@.len() as int) =~= svs);
        }
        let body = self.take_bytecode();

        proof {
            lemma_ops_ok_wider(predicate@, 0, ppool, self.constant_pool@.len() as int);
            if predicate@.len() == 0 {
                assert(spec_code_depth(Seq::<u8>::empty(), 0, 0) == Some(0int));
            }
        }
        Ok(Probe { id, spec, predicate, body })
    }

    /// Convert an AST probe spec into a compiled probe spec; the dotted path
    /// becomes the specifier string and offsets fold onto their base points.
    fn compile_probe_spec(&self, spec: &crate::ast::ProbeSpec) -> (r: ParseResult<ProbeSpec>)
    {
        match spec.provider {
            Provider::Fn | Provider::Py => {
                let specifier = spec.module_function.to_text();
                let target = match spec.probe_point {
                    ProbePoint::Entry => FnTarget::Entry,
                    ProbePoint::Exit => FnTarget::Exit,
                    ProbePoint::EntryOffset(_) => FnTarget::Entry,
                    ProbePoint::ExitOffset(_) => FnTarget::Exit,
                };
                Ok(ProbeSpec::Fn { specifier, target })
            }
        }
    }

    /// Compile an AST program into a program: version 1, full sampling, and
    /// for every probe well-formed bytecode whose operand indices lie in the
    /// shared pool, with a one-value predicate and a zero-effect body.
    #[verifier::loop_isolation(false)]
    pub fn compile(&mut self, ast: AstProgram) -> (r: ParseResult<Program>)
        requires
            old(self).bytecode@.len() == 0,
            old(self).constant_pool@.len() <= 0x10000,
        ensures
            ast.probes@.len() == 0 ==> r is Ok,
            r matches Ok(prog) ==> ({
                &&& prog.version == 1
                &&& prog.sampling == 0x3F80_0000u32
                &&& prog.probes@.len() == ast.probes@.len()
                &&& forall|j: int| 0 <= j < prog.probes@.len() ==> ({
                    let pb = #[trigger] prog.probes@[j];
                    &&& (ast.probes@[j].predicate is None <==> pb.predicate@.len() == 0)
                    &&& pb.id@ == "probe_"@ + crate::text::spec_u64_digits(j as u64)
                    &&& (pb.predicate@.len() == 0 || chunk_eff(pb.predicate@, 0, 1))
                    &&& ops_ok(pb.predicate@, 0, prog.constant_pool@.len() as int)
                    &&& chunk_eff(pb.body@, 0, 0)
                    &&& ops_ok(pb.body@, 0, prog.constant_pool@.len() as int)
                })
            }),
    {
        let mut probes: Vec<Probe> = Vec::new();
        let mut idx: usize = 0;
        while idx < ast.probes.len()
            invariant
                idx <= ast.probes@.len(),
                probes@.len() == idx,
                self.bytecode@.len() == 0,
                self.constant_pool@.len() <= 0x10000,
                forall|j: int| 0 <= j < idx ==> ({
                    let pb = #[trigger] probes@[j];
                    &&& (ast.probes@[j].predicate is None <==> pb.predicate@.len() == 0)
                    &&& pb.id@ == "probe_"@ + crate::text::spec_u64_digits(j as u64)
                    &&& (pb.predicate@.len() == 0 || chunk_eff(pb.predicate@, 0, 1))
                    &&& ops_ok(pb.predicate@, 0, self.constant_pool@.len() as int)
                    &&& chunk_eff(pb.body@, 0, 0)
                    &&& ops_ok(pb.body@, 0, self.constant_pool@.len() as int)
                }),
            decreases ast.probes@.len() - idx,
        {
            let ghost ppre = self.constant_pool@.len() as int;
            let probe = match self.compile_probe(&ast.probes[idx], idx) {
                Ok(p) => p,
                Err(e) => {
                    return Err(e);
                }
            };
            probes.push(probe);
            idx = idx + 1;
            proof {
                let plen = self.constant_pool@.len() as int;
                assert forall|j: int| 0 <= j < idx implies ({
                    let pb = #[trigger] probes@[j];
                    &&& (ast.probes@[j].predicate is None <==> pb.predicate@.len() == 0)
                    &&& pb.id@ == "probe_"@ + crate::text::spec_u64_digits(j as u64)
                    &&& (pb.predicate@.len() == 0 || chunk_eff(pb.predicate@, 0, 1))
                    &&& ops_ok(pb.predicate@, 0, plen)
                    &&& chunk_eff(pb.body@, 0, 0)
                    &&& ops_ok(pb.body@, 0, plen)
                }) by {
                    if j < idx - 1 {
                        lemma_ops_ok_wider(probes@[j].predicate@, 0, ppre, plen);
                        lemma_ops_ok_wider(probes@[j].body@, 0, ppre, plen);
                    }
                }
            }
        }

        Ok(
            Program {
                version: 1,
                constant_pool: self.constant_pool.duplicate(),
                probes,
                sampling: 0x3F80_0000u32,
            },
        )
    }
}

impl Default for Compiler {
    fn default() -> Self {
        Self::new()
    }
}

} // verus!

//! Abstract syntax tree of the probe language.  Pure data; every node
//! carries its source span.

use vstd::prelude::*;
use crate::lexer::Span;
use crate::text::push_char;

verus! {

/// Top-level AST node representing a complete probe program.
#[derive(Debug)]
pub struct AstProgram {
    pub probes: Vec<AstProbe>,
    pub span: Span,
}

/// A probe definition.
#[derive(Debug)]
pub struct AstProbe {
    pub spec: ProbeSpec,
    pub predicate: Option<AstExpr>,
    pub body: Vec<AstStatement>,
    pub span: Span,
}

/// Probe specification.
#[derive(Debug, Clone)]
pub struct ProbeSpec {
    pub provider: Provider,
    pub module_function: ModuleFunction,
    pub probe_point: ProbePoint,
    pub span: Span,
}

/// Provider type (fn or py).
#[derive(Debug, Clone, Copy, PartialEq, Eq, Structural)]
pub enum Provider {
    Fn,
    Py,
}

/// Module and function path.
#[derive(Debug, Clone)]
pub struct ModuleFunction {
    pub parts: Vec<ModulePart>,
    pub span: Span,
}

/// One part of a dotted module path: a name or the `*` wildcard.
#[derive(Debug, Clone)]
pub enum ModulePart {
    Ident(String),
    Wildcard,
}

/// The characters of one module path part.
pub enum ModulePartView {
    Ident(Seq<char>),
    Wildcard,
}

impl View for ModulePart {
    type V = ModulePartView;

    open spec fn view(&self) -> ModulePartView {
        match self {
            ModulePart::Ident(s) => ModulePartView::Ident(s@),
            ModulePart::Wildcard => ModulePartView::Wildcard,
        }
    }
}

impl DeepView for ModulePart {
    type V = ModulePartView;

    open spec fn deep_view(&self) -> ModulePartView {
        self.view()
    }
}

/// Probe point (entry, exit, optionally with an offset).
#[derive(Debug, Clone)]
pub enum ProbePoint {
    Entry,
    Exit,
    EntryOffset(i64),
    ExitOffset(i64),
}

/// Statements in action blocks.
#[derive(Debug)]
pub enum AstStatement {
    Assignment { var: RequestVar, value: AstExpr, span: Span },
    Sample { spec: SampleSpec, span: Span },
    Capture { is_send: bool, args: CaptureArgs, span: Span },
}

/// Request-scoped variable, written `$req.field` or `$request.field`.
#[derive(Debug, Clone)]
pub struct RequestVar {
    /// true for $request, false for $req
    pub is_request: bool,
    pub field: String,
    pub span: Span,
}

/// Sample specification.
#[derive(Debug, Clone)]
pub enum SampleSpec {
    Percentage(i64),
    Ratio { numerator: i64, denominator: i64 },
}

/// Capture arguments.
#[derive(Debug)]
pub enum CaptureArgs {
    Positional(Vec<AstExpr>),
    Named(Vec<NamedArg>),
}

/// One named capture argument, `name = expr`.
#[derive(Debug)]
pub struct NamedArg {
    pub name: String,
    pub value: AstExpr,
    pub span: Span,
}

/// Expressions.  Float literals carry their IEEE-754 bit pattern.
#[derive(Debug)]
pub enum AstExpr {
    Int { value: i64, span: Span },
    Float { value: u64, span: Span },
    String { value: String, span: Span },
    Bool { value: bool, span: Span },
    NoneValue { span: Span },
    Ident { name: String, span: Span },
    RequestVar { var: RequestVar, span: Span },
    Binary { op: BinaryOp, left: Box<AstExpr>, right: Box<AstExpr>, span: Span },
    Unary { op: UnaryOp, expr: Box<AstExpr>, span: Span },
    FieldAccess { object: Box<AstExpr>, field: String, span: Span },
    IndexAccess { object: Box<AstExpr>, index: Box<AstExpr>, span: Span },
    Call { function: String, args: Vec<AstExpr>, span: Span },
}

/// The span of an expression.
pub open spec fn spec_expr_span(e: AstExpr) -> Span {
    match e {
        AstExpr::Int { span, .. } => span,
        AstExpr::Float { span, .. } => span,
        AstExpr::String { span, .. } => span,
        AstExpr::Bool { span, .. } => span,
        AstExpr::NoneValue { span } => span,
        AstExpr::Ident { span, .. } => span,
        AstExpr::RequestVar { span, .. } => span,
        AstExpr::Binary { span, .. } => span,
        AstExpr::Unary { span, .. } => span,
        AstExpr::FieldAccess { span, .. } => span,
        AstExpr::IndexAccess { span, .. } => span,
        AstExpr::Call { span, .. } => span,
    }
}

impl AstExpr {
    /// The source span this expression covers.
    pub fn span(&self) -> (r: Span)
        ensures
            r == spec_expr_span(*self),
    {
        match self {
            AstExpr::Int { span, .. } => *span,
            AstExpr::Float { span, .. } => *span,
            AstExpr::String { span, .. } => *span,
            AstExpr::Bool { span, .. } => *span,
            AstExpr::NoneValue { span } => *span,
            AstExpr::Ident { span, .. } => *span,
            AstExpr::RequestVar { span, .. } => *span,
            AstExpr::Binary { span, .. } => *span,
            AstExpr::Unary { span, .. } => *span,
            AstExpr::FieldAccess { span, .. } => *span,
            AstExpr::IndexAccess { span, .. } => *span,
            AstExpr::Call { span, .. } => *span,
        }
    }
}

/// Binary operators.
#[derive(Debug, Clone, Copy, PartialEq, Eq, Structural)]
pub enum BinaryOp {
    Add,
    Sub,
    Mul,
    Div,
    Mod,
    Lt,
    Gt,
    LtEq,
    GtEq,
    Eq,
    NotEq,
    And,
    Or,
}

/// Unary operators.
#[derive(Debug, Clone, Copy, PartialEq, Eq, Structural)]
pub enum UnaryOp {
    Not,
}

impl Provider {
    /// The keyword of the provider.
    pub fn to_text(&self) -> (r: String)
        ensures
            self is Fn ==> r@ == "fn"@,
            self is Py ==> r@ == "py"@,
    {
        let mut m = String::new();
        match self {
            Provider::Fn => m.append("fn"),
            Provider::Py => m.append("py"),
        }
        m
    }
}

impl ProbePoint {
    /// Rendering of the probe point, e.g. "entry" or "exit+5".
    pub fn to_text(&self) -> String {
        let mut m = String::new();
        match self {
            ProbePoint::Entry => m.append("entry"),
            ProbePoint::Exit => m.append("exit"),
            ProbePoint::EntryOffset(n) => {
                m.append("entry+");
                m.append(crate::text::i64_text(*n).as_str());
            }
            ProbePoint::ExitOffset(n) => {
                m.append("exit+");
                m.append(crate::text::i64_text(*n).as_str());
            }
        }
        m
    }
}

/// The characters of one part.
pub open spec fn spec_part_text(p: ModulePartView) -> Seq<char> {
    match p {
        ModulePartView::Ident(s) => s,
        ModulePartView::Wildcard => seq!['*'],
    }
}

/// The dotted rendering of a module path.
pub open spec fn spec_module_fn_text(parts: Seq<ModulePartView>) -> Seq<char>
    decreases parts.len(),
{
    if parts.len() == 0 {
        Seq::<char>::empty()
    } else if parts.len() == 1 {
        spec_part_text(parts[0])
    } else {
        spec_module_fn_text(parts.drop_last()) + seq!['.'] + spec_part_text(parts.last())
    }
}

impl ModuleFunction {
    /// The dotted path, with `*` for wildcards.
    pub fn to_text(&self) -> (r: String)
        ensures
            r@ == spec_module_fn_text(self.parts.deep_view()),
    {
        let mut m = String::new();
        let mut i: usize = 0;
        proof {
            assert(self.parts.deep_view().subrange(0, 0) =~= Seq::<ModulePartView>::empty());
        }
        while i < self.parts.len()
            invariant
                i <= self.parts@.len(),
                self.parts.deep_view().len() == self.parts@.len(),
                m@ == spec_module_fn_text(self.parts.deep_view().subrange(0, i as int)),
            decreases self.parts@.len() - i,
        {
            if i > 0 {
                push_char(&mut m, '.');
            }
            match &self.parts[i] {
                ModulePart::Ident(s) => m.append(s.as_str()),
                ModulePart::Wildcard => push_char(&mut m, '*'),
            }
            i = i + 1;
            proof {
                let parts = self.parts.deep_view();
                let pre = parts.subrange(0, i as int);
                assert(pre.drop_last() =~= parts.subrange(0, i - 1));
                assert(pre.last() == parts[i - 1]);
                if i == 1 {
                    assert(m@ =~= spec_part_text(parts[0]));
                } else {
                    assert(m@ =~= spec_module_fn_text(pre.drop_last()) + seq!['.']
                        + spec_part_text(pre.last()));
                }
            }
        }
        proof {
            assert(self.parts.deep_view().subrange(0, self.parts@.len() as int)
                =~= self.parts.deep_view());
        }
        m
    }
}

impl BinaryOp {
    /// The operator's source spelling.
    pub fn to_text(&self) -> String {
        let mut m = String::new();
        match self {
            BinaryOp::Add => m.append("+"),
            BinaryOp::Sub => m.append("-"),
            BinaryOp::Mul => m.append("*"),
            BinaryOp::Div => m.append("/"),
            BinaryOp::Mod => m.append("%"),
            BinaryOp::Lt => m.append("<"),
            BinaryOp::Gt => m.append(">"),
            BinaryOp::LtEq => m.append("<="),
            BinaryOp::GtEq => m.append(">="),
            BinaryOp::Eq => m.append("=="),
            BinaryOp::NotEq => m.append("!="),
            BinaryOp::And => m.append("&&"),
            BinaryOp::Or => m.append("||"),
        }
        m
    }
}

impl UnaryOp {
    /// The operator's source spelling.
    pub fn to_text(&self) -> String {
        let mut m = String::new();
        match self {
            UnaryOp::Not => m.append("!"),
        }
        m
    }
}


/// The semantic content of an expression, spans dropped and strings
/// abstracted to their characters; what the compiler's lowering consumes.
pub enum ExprView {
    Int(i64),
    Float(u64),
    Str(Seq<char>),
    Bool(bool),
    NoneValue,
    Ident(Seq<char>),
    ReqVar { is_request: bool, field: Seq<char> },
    Binary { op: BinaryOp, left: Box<ExprView>, right: Box<ExprView> },
    Unary { op: UnaryOp, arg: Box<ExprView> },
    Field { object: Box<ExprView>, field: Seq<char> },
    Index { object: Box<ExprView>, index: Box<ExprView> },
    Call { function: Seq<char>, args: Seq<ExprView> },
}

/// The semantic content of a statement.
pub enum StmtView {
    Assignment { is_request: bool, field: Seq<char>, value: ExprView },
    Sample,
    Capture { is_send: bool, args: CaptureArgsView },
}

/// The semantic content of capture/send arguments.
pub enum CaptureArgsView {
    Positional(Seq<ExprView>),
    Named(Seq<(Seq<char>, ExprView)>),
}

/// The view of an expression.
pub open spec fn expr_view(e: AstExpr) -> ExprView
    decreases e,
    via expr_view_decreases
{
    match e {
        AstExpr::Int { value, .. } => ExprView::Int(value),
        AstExpr::Float { value, .. } => ExprView::Float(value),
        AstExpr::String { value, .. } => ExprView::Str(value@),
        AstExpr::Bool { value, .. } => ExprView::Bool(value),
        AstExpr::NoneValue { .. } => ExprView::NoneValue,
        AstExpr::Ident { name, .. } => ExprView::Ident(name@),
        AstExpr::RequestVar { var, .. } => ExprView::ReqVar {
            is_request: var.is_request,
            field: var.field@,
        },
        AstExpr::Binary { op, left, right, .. } => ExprView::Binary {
            op,
            left: Box::new(expr_view(*left)),
            right: Box::new(expr_view(*right)),
        },
        AstExpr::Unary { op, expr, .. } => ExprView::Unary {
            op,
            arg: Box::new(expr_view(*expr)),
        },
        AstExpr::FieldAccess { object, field, .. } => ExprView::Field {
            object: Box::new(expr_view(*object)),
            field: field@,
        },
        AstExpr::IndexAccess { object, index, .. } => ExprView::Index {
            object: Box::new(expr_view(*object)),
            index: Box::new(expr_view(*index)),
        },
        AstExpr::Call { function, args, .. } => ExprView::Call {
            function: function@,
            args: exprs_view(args@),
        },
    }
}

/// The views of a sequence of expressions, in order.
pub open spec fn exprs_view(args: Seq<AstExpr>) -> Seq<ExprView>
    decreases args,
    via exprs_view_decreases
{
    if args.len() == 0 {
        Seq::<ExprView>::empty()
    } else {
        seq![expr_view(args[0])] + exprs_view(args.drop_first())
    }
}

/// Element lookup in a viewed expression list.
pub proof fn lemma_exprs_view_index(args: Seq<AstExpr>)
    ensures
        exprs_view(args).len() == args.len(),
        forall|i: int| 0 <= i < args.len() ==> exprs_view(args)[i] == expr_view(
            #[trigger] args[i],
        ),
    decreases args,
{
    if args.len() > 0 {
        lemma_exprs_view_index(args.drop_first());
        assert forall|i: int| 0 <= i < args.len() implies exprs_view(args)[i] == expr_view(
            args[i],
        ) by {
            if i > 0 {
                assert(args.drop_first()[i - 1] == args[i]);
            }
        }
    }
}

#[via_fn]
proof fn expr_view_decreases(e: AstExpr) {
    match e {
        AstExpr::Call { function, args, span } => {
            assert(decreases_to!(e => args));
            assert(decreases_to!(args => args@));
        }
        _ => {}
    }
}

#[via_fn]
proof fn exprs_view_decreases(args: Seq<AstExpr>) {
    if args.len() > 0 {
        vstd::seq::axiom_seq_index_decreases(args, 0);
        vstd::seq::axiom_seq_subrange_decreases(args, 1, args.len() as int);
    }
}

/// The views of a sequence of named arguments, in order.
pub open spec fn pairs_view(entries: Seq<NamedArg>) -> Seq<(Seq<char>, ExprView)>
    decreases entries,
    via pairs_view_decreases
{
    if entries.len() == 0 {
        Seq::<(Seq<char>, ExprView)>::empty()
    } else {
        seq![(entries[0].name@, expr_view(entries[0].value))] + pairs_view(entries.drop_first())
    }
}

#[via_fn]
proof fn pairs_view_decreases(entries: Seq<NamedArg>) {
    if entries.len() > 0 {
        vstd::seq::axiom_seq_subrange_decreases(entries, 1, entries.len() as int);
    }
}

/// Element lookup in a viewed named-argument list.
pub proof fn lemma_pairs_view_index(entries: Seq<NamedArg>)
    ensures
        pairs_view(entries).len() == entries.len(),
        forall|i: int| 0 <= i < entries.len() ==> pairs_view(entries)[i] == (
            (#[trigger] entries[i]).name@,
            expr_view(entries[i].value),
        ),
    decreases entries,
{
    if entries.len() > 0 {
        lemma_pairs_view_index(entries.drop_first());
        assert forall|i: int| 0 <= i < entries.len() implies pairs_view(entries)[i] == (
            entries[i].name@,
            expr_view(entries[i].value),
        ) by {
            if i > 0 {
                assert(entries.drop_first()[i - 1] == entries[i]);
            }
        }
    }
}

/// The view of a statement.
pub open spec fn stmt_view(s: AstStatement) -> StmtView {
    match s {
        AstStatement::Assignment { var, value, .. } => StmtView::Assignment {
            is_request: var.is_request,
            field: var.field@,
            value: expr_view(value),
        },
        AstStatement::Sample { .. } => StmtView::Sample,
        AstStatement::Capture { is_send, args, .. } => StmtView::Capture {
            is_send,
            args: match args {
                CaptureArgs::Positional(exprs) => CaptureArgsView::Positional(exprs_view(exprs@)),
                CaptureArgs::Named(entries) => CaptureArgsView::Named(pairs_view(entries@)),
            },
        },
    }
}


/// The views of a sequence of statements, in order.
pub open spec fn stmts_view(body: Seq<AstStatement>) -> Seq<StmtView>
    decreases body,
    via stmts_view_decreases
{
    if body.len() == 0 {
        Seq::<StmtView>::empty()
    } else {
        seq![stmt_view(body[0])] + stmts_view(body.drop_first())
    }
}

#[via_fn]
proof fn stmts_view_decreases(body: Seq<AstStatement>) {
    if body.len() > 0 {
        vstd::seq::axiom_seq_index_decreases(body, 0);
        vstd::seq::axiom_seq_subrange_decreases(body, 1, body.len() as int);
    }
}

/// Element lookup in a viewed statement list.
pub proof fn lemma_stmts_view_index(body: Seq<AstStatement>)
    ensures
        stmts_view(body).len() == body.len(),
        forall|i: int| 0 <= i < body.len() ==> stmts_view(body)[i] == stmt_view(
            #[trigger] body[i],
        ),
    decreases body,
{
    if body.len() > 0 {
        lemma_stmts_view_index(body.drop_first());
        assert forall|i: int| 0 <= i < body.len() implies stmts_view(body)[i] == stmt_view(
            body[i],
        ) by {
            if i > 0 {
                assert(body.drop_first()[i - 1] == body[i]);
            }
        }
    }
}

} // verus!

//! The instruction emitter: walks the abstract syntax tree bottom-up and
//! appends opcodes implementing its evaluation order.
//!
//! Every definition introduced by a block or a struct compiles to a label:
//! a contiguous instruction range tagged with a globally unique bind id.
//! Referencing the name emits a jump to the label rather than inlining the
//! expression, which gives definitions call-by-need semantics and permits
//! mutual and forward reference within one block.
//!
//! The whole translation is mirrored by spec functions (`t_stmt` and its
//! companions); each executable method's contract states that it computes
//! exactly that mathematical translation.

use vstd::prelude::*;
use crate::ast::{
    Additive, AdditiveRight, Comparison, ComparisonRight, Expression, Multitive, MultitiveRight,
    Operation, OperationRight, Primary, Statement,
};
use crate::cmd::{cmds_view, Cmd, SCmd, EMIT_LIMIT};
use crate::cmd::{lemma_cmds_view_add, lemma_cmds_view_push};
use crate::scope::{
    declare_arg_m, declare_bind_m, fork_m, frame_lookup, frames_wf, resolve_spec, scopes_new_m,
    Identifier, SIdent, SScopes, Scopes,
};

verus! {

/// The host callable id reserved for module import; every block's scope
/// carries a bind named `import` whose label pushes this callable.
pub const IMPORT_HOST: usize = 0;

/// A structured compile-time failure.
#[derive(Clone, PartialEq, Eq, Debug)]
pub enum CompileError {
    /// A referenced name is not declared in any enclosing scope.
    UnboundIdentifier(String),
    /// A function literal declares the same parameter name twice.
    DuplicateParameter(String),
    /// The compilation unit needs more instructions or bind ids than
    /// [`EMIT_LIMIT`] allows.
    TooLarge,
}

/// The outcome of translating one node: the emitted opcodes and the
/// resolver state left behind, or a compile error.
#[verifier::ext_equal]
pub enum EOut {
    Emit { cmds: Seq<SCmd>, sc: SScopes },
    Fail(CompileError),
}

/// The outcome of a pass that only changes resolver state.
#[verifier::ext_equal]
pub enum ESc {
    Next(SScopes),
    Fail(CompileError),
}

/// Declare every definition name of a block or struct in source order,
/// handing out consecutive bind ids.
#[verifier::opaque]
pub open spec fn t_declare_defs(sc: SScopes, defs: Seq<(String, Expression)>) -> ESc
    decreases defs.len(),
{
    if defs.len() == 0 {
        ESc::Next(sc)
    } else if sc.cnt >= EMIT_LIMIT {
        ESc::Fail(CompileError::TooLarge)
    } else {
        t_declare_defs(declare_bind_m(sc, defs.first().0@), defs.drop_first())
    }
}

/// Declare each parameter name of a function literal at its positional
/// index, rejecting duplicates.
#[verifier::opaque]
pub open spec fn t_params(sc: SScopes, params: Seq<String>, i: int) -> ESc
    decreases params.len() - i,
{
    if !(0 <= i < params.len()) {
        ESc::Next(sc)
    } else if frame_lookup(sc.frames.last().names, params[i]@) is Some {
        ESc::Fail(CompileError::DuplicateParameter(params[i]))
    } else {
        t_params(declare_arg_m(sc, params[i]@, i), params, i + 1)
    }
}

/// The field-name-to-bind-id mapping of a struct whose fields received the
/// consecutive ids starting at `base`.
pub open spec fn struct_map(defs: Seq<(String, Expression)>, base: int) -> Seq<(Seq<char>, int)> {
    Seq::new(defs.len(), |i: int| (defs[i].0@, base + i))
}

/// Emit the label bodies of the definitions `defs[i..]`, whose bind ids
/// are `base + i` onwards.
#[verifier::opaque]
pub open spec fn t_def_bodies(
    sc: SScopes,
    scope: int,
    defs: Seq<(String, Expression)>,
    i: int,
    base: int,
) -> EOut
    decreases defs, defs.len() - i,
{
    if !(0 <= i < defs.len()) {
        EOut::Emit { cmds: Seq::empty(), sc }
    } else {
        match t_expr(sc, scope, defs[i].1) {
            EOut::Fail(e) => EOut::Fail(e),
            EOut::Emit { cmds: body, sc: sc1 } => match t_def_bodies(sc1, scope, defs, i + 1, base) {
                EOut::Fail(e) => EOut::Fail(e),
                EOut::Emit { cmds: rest, sc: sc2 } => EOut::Emit {
                    cmds: seq![SCmd::Label(base + i, body.len() as int)] + body + rest,
                    sc: sc2,
                },
            },
        }
    }
}

/// Translate a block: the reserved import label, one label per
/// definition, then the trailing expression.
#[verifier::opaque]
pub open spec fn t_stmt(sc: SScopes, scope: int, v: Statement) -> EOut
    decreases v, 0int,
{
    if sc.cnt >= EMIT_LIMIT {
        EOut::Fail(CompileError::TooLarge)
    } else {
        let import_id = sc.cnt;
        let sc1 = declare_bind_m(sc, "import"@);
        match t_declare_defs(sc1, v.definitions@) {
            ESc::Fail(e) => EOut::Fail(e),
            ESc::Next(sc2) => match t_def_bodies(sc2, scope, v.definitions@, 0, sc1.cnt) {
                EOut::Fail(e) => EOut::Fail(e),
                EOut::Emit { cmds: bodies, sc: sc3 } => match t_expr(sc3, scope, v.body) {
                    EOut::Fail(e) => EOut::Fail(e),
                    EOut::Emit { cmds: trailing, sc: sc4 } => EOut::Emit {
                        cmds: seq![
                            SCmd::Label(import_id, 1),
                            SCmd::HostFunction(IMPORT_HOST as int),
                        ] + bodies + trailing,
                        sc: sc4,
                    },
                },
            },
        }
    }
}

/// Translate an expression: a comparison chain, or a conditional laid out
/// as `cond ; JumpRelIf(over alt) ; alt ; JumpRel(over cons) ; cons`, with
/// both jump distances computed from the final emitted branch lengths.
#[verifier::opaque]
pub open spec fn t_expr(sc: SScopes, scope: int, e: Expression) -> EOut
    decreases e, 0int,
{
    match e {
        Expression::Comparison(c) => t_comparison(sc, scope, c),
        Expression::If { cond, cons, alt } => match t_expr(sc, scope, *cond) {
            EOut::Fail(e0) => EOut::Fail(e0),
            EOut::Emit { cmds: ccmds, sc: sc1 } => match t_expr(sc1, scope, *cons) {
                EOut::Fail(e0) => EOut::Fail(e0),
                EOut::Emit { cmds: conscmds, sc: sc2 } => match t_expr(sc2, scope, *alt) {
                    EOut::Fail(e0) => EOut::Fail(e0),
                    EOut::Emit { cmds: altcmds, sc: sc3 } => if conscmds.len() >= EMIT_LIMIT
                        || altcmds.len() >= EMIT_LIMIT {
                        EOut::Fail(CompileError::TooLarge)
                    } else {
                        EOut::Emit {
                            cmds: ccmds + seq![SCmd::JumpRelIf(altcmds.len() as int + 2)] + altcmds
                                + seq![SCmd::JumpRel(conscmds.len() as int + 1)] + conscmds,
                            sc: sc3,
                        }
                    },
                },
            },
        },
    }
}

/// Translate the equality chain `rights[i..]` of a comparison.
#[verifier::opaque]
pub open spec fn t_comp_rights(sc: SScopes, scope: int, rights: Seq<ComparisonRight>, i: int) -> EOut
    decreases rights, rights.len() - i,
{
    if !(0 <= i < rights.len()) {
        EOut::Emit { cmds: Seq::empty(), sc }
    } else {
        let (inner, op) = match rights[i] {
            ComparisonRight::Equal(a) => (a, SCmd::Equal),
            ComparisonRight::NotEqual(a) => (a, SCmd::NotEqual),
        };
        match t_additive(sc, scope, inner) {
            EOut::Fail(e) => EOut::Fail(e),
            EOut::Emit { cmds: acmds, sc: sc1 } => match t_comp_rights(sc1, scope, rights, i + 1) {
                EOut::Fail(e) => EOut::Fail(e),
                EOut::Emit { cmds: rest, sc: sc2 } => EOut::Emit {
                    cmds: acmds + seq![op] + rest,
                    sc: sc2,
                },
            },
        }
    }
}

/// Translate a comparison: its left operand, then each right-hand operand
/// followed by the corresponding comparison opcode, left-associatively.
#[verifier::opaque]
pub open spec fn t_comparison(sc: SScopes, scope: int, v: Comparison) -> EOut
    decreases v, 1int,
{
    match t_additive(sc, scope, v.left) {
        EOut::Fail(e) => EOut::Fail(e),
        EOut::Emit { cmds: l, sc: sc1 } => match t_comp_rights(sc1, scope, v.rights@, 0) {
            EOut::Fail(e) => EOut::Fail(e),
            EOut::Emit { cmds: rest, sc: sc2 } => EOut::Emit { cmds: l + rest, sc: sc2 },
        },
    }
}

/// Translate the additive chain `rights[i..]`.
#[verifier::opaque]
pub open spec fn t_add_rights(sc: SScopes, scope: int, rights: Seq<AdditiveRight>, i: int) -> EOut
    decreases rights, rights.len() - i,
{
    if !(0 <= i < rights.len()) {
        EOut::Emit { cmds: Seq::empty(), sc }
    } else {
        let (inner, op) = match rights[i] {
            AdditiveRight::Add(m) => (m, SCmd::Add),
            AdditiveRight::Sub(m) => (m, SCmd::Sub),
        };
        match t_multitive(sc, scope, inner) {
            EOut::Fail(e) => EOut::Fail(e),
            EOut::Emit { cmds: mcmds, sc: sc1 } => match t_add_rights(sc1, scope, rights, i + 1) {
                EOut::Fail(e) => EOut::Fail(e),
                EOut::Emit { cmds: rest, sc: sc2 } => EOut::Emit {
                    cmds: mcmds + seq![op] + rest,
                    sc: sc2,
                },
            },
        }
    }
}

/// Translate an additive chain, left-associatively.
#[verifier::opaque]
pub open spec fn t_additive(sc: SScopes, scope: int, v: Additive) -> EOut
    decreases v, 1int,
{
    match t_multitive(sc, scope, v.left) {
        EOut::Fail(e) => EOut::Fail(e),
        EOut::Emit { cmds: l, sc: sc1 } => match t_add_rights(sc1, scope, v.rights@, 0) {
            EOut::Fail(e) => EOut::Fail(e),
            EOut::Emit { cmds: rest, sc: sc2 } => EOut::Emit { cmds: l + rest, sc: sc2 },
        },
    }
}

/// Translate the multiplicative chain `rights[i..]`.
#[verifier::opaque]
pub open spec fn t_mul_rights(sc: SScopes, scope: int, rights: Seq<MultitiveRight>, i: int) -> EOut
    decreases rights, rights.len() - i,
{
    if !(0 <= i < rights.len()) {
        EOut::Emit { cmds: Seq::empty(), sc }
    } else {
        let (inner, op) = match rights[i] {
            MultitiveRight::Mul(o) => (o, SCmd::Mul),
            MultitiveRight::Div(o) => (o, SCmd::Div),
            MultitiveRight::Surplus(o) => (o, SCmd::Surplus),
        };
        match t_operation(sc, scope, inner) {
            EOut::Fail(e) => EOut::Fail(e),
            EOut::Emit { cmds: ocmds, sc: sc1 } => match t_mul_rights(sc1, scope, rights, i + 1) {
                EOut::Fail(e) => EOut::Fail(e),
                EOut::Emit { cmds: rest, sc: sc2 } => EOut::Emit {
                    cmds: ocmds + seq![op] + rest,
                    sc: sc2,
                },
            },
        }
    }
}

/// Translate a multiplicative chain, left-associatively.
#[verifier::opaque]
pub open spec fn t_multitive(sc: SScopes, scope: int, v: Multitive) -> EOut
    decreases v, 1int,
{
    match t_operation(sc, scope, v.left) {
        EOut::Fail(e) => EOut::Fail(e),
        EOut::Emit { cmds: l, sc: sc1 } => match t_mul_rights(sc1, scope, v.rights@, 0) {
            EOut::Fail(e) => EOut::Fail(e),
            EOut::Emit { cmds: rest, sc: sc2 } => EOut::Emit { cmds: l + rest, sc: sc2 },
        },
    }
}

/// Translate the call arguments `args[j..]`, left to right.
#[verifier::opaque]
pub open spec fn t_args(sc: SScopes, scope: int, args: Seq<Expression>, j: int) -> EOut
    decreases args, args.len() - j, 0int,
{
    if !(0 <= j < args.len()) {
        EOut::Emit { cmds: Seq::empty(), sc }
    } else {
        match t_expr(sc, scope, args[j]) {
            EOut::Fail(e) => EOut::Fail(e),
            EOut::Emit { cmds: acmds, sc: sc1 } => match t_args(sc1, scope, args, j + 1) {
                EOut::Fail(e) => EOut::Fail(e),
                EOut::Emit { cmds: rest, sc: sc2 } => EOut::Emit { cmds: acmds + rest, sc: sc2 },
            },
        }
    }
}

/// Translate the postfix chain `rights[i..]`: property accesses force the
/// field thunk with a zero-argument call, indexings do the same for the
/// selected element, and calls push their arguments and transfer control.
#[verifier::opaque]
pub open spec fn t_op_rights(sc: SScopes, scope: int, rights: Seq<OperationRight>, i: int) -> EOut
    decreases rights, rights.len() - i, 1int,
{
    if !(0 <= i < rights.len()) {
        EOut::Emit { cmds: Seq::empty(), sc }
    } else {
        let step = match rights[i] {
            OperationRight::Access(name) => EOut::Emit {
                cmds: seq![SCmd::StringConst(name@), SCmd::Access, SCmd::Call(0)],
                sc,
            },
            OperationRight::Call(args) => match t_args(sc, scope, args@, 0) {
                EOut::Fail(e) => EOut::Fail(e),
                EOut::Emit { cmds: acmds, sc: sc1 } => EOut::Emit {
                    cmds: acmds + seq![SCmd::Call(args@.len() as int)],
                    sc: sc1,
                },
            },
            OperationRight::Index(e) => match t_expr(sc, scope, *e) {
                EOut::Fail(e0) => EOut::Fail(e0),
                EOut::Emit { cmds: icmds, sc: sc1 } => EOut::Emit {
                    cmds: icmds + seq![SCmd::Index, SCmd::Call(0)],
                    sc: sc1,
                },
            },
        };
        match step {
            EOut::Fail(e) => EOut::Fail(e),
            EOut::Emit { cmds: scmds, sc: sc1 } => match t_op_rights(sc1, scope, rights, i + 1) {
                EOut::Fail(e) => EOut::Fail(e),
                EOut::Emit { cmds: rest, sc: sc2 } => EOut::Emit { cmds: scmds + rest, sc: sc2 },
            },
        }
    }
}

/// Translate a primary with its postfix chain.
#[verifier::opaque]
pub open spec fn t_operation(sc: SScopes, scope: int, v: Operation) -> EOut
    decreases v, 2int,
{
    match t_primary(sc, scope, v.left) {
        EOut::Fail(e) => EOut::Fail(e),
        EOut::Emit { cmds: l, sc: sc1 } => match t_op_rights(sc1, scope, v.rights@, 0) {
            EOut::Fail(e) => EOut::Fail(e),
            EOut::Emit { cmds: rest, sc: sc2 } => EOut::Emit { cmds: l + rest, sc: sc2 },
        },
    }
}

/// Translate a resolved identifier: a bind becomes "push the label address
/// and force it"; an argument becomes a load at its index and depth.
pub open spec fn t_ident(sc: SScopes, scope: int, name: String) -> EOut {
    match resolve_spec(sc.frames, scope, name@) {
        Option::None => EOut::Fail(CompileError::UnboundIdentifier(name)),
        Option::Some((SIdent::Bind(id), _)) => EOut::Emit {
            cmds: seq![SCmd::LabelAddr(id), SCmd::Call(0)],
            sc,
        },
        Option::Some((SIdent::Arg(index), depth)) => EOut::Emit {
            cmds: seq![SCmd::Load(index, depth)],
            sc,
        },
    }
}

/// Translate the element thunks `items[i..]` of an array literal: each
/// element becomes a zero-parameter closure over its own body.
#[verifier::opaque]
pub open spec fn t_array_items(sc: SScopes, scope: int, items: Seq<Expression>, i: int) -> EOut
    decreases items, items.len() - i, 0int,
{
    if !(0 <= i < items.len()) {
        EOut::Emit { cmds: Seq::empty(), sc }
    } else {
        match t_expr(sc, scope, items[i]) {
            EOut::Fail(e) => EOut::Fail(e),
            EOut::Emit { cmds: icmds, sc: sc1 } => match t_array_items(sc1, scope, items, i + 1) {
                EOut::Fail(e) => EOut::Fail(e),
                EOut::Emit { cmds: rest, sc: sc2 } => EOut::Emit {
                    cmds: seq![SCmd::ConstructFunction(0, icmds.len() as int)] + icmds + rest,
                    sc: sc2,
                },
            },
        }
    }
}

/// Translate a function literal: its body is compiled in a forked scope
/// where each declared parameter is an argument at its positional index,
/// under a `ConstructFunction` opcode carrying arity and body length.
#[verifier::opaque]
pub open spec fn t_function(sc: SScopes, scope: int, params: Seq<String>, body: Expression) -> EOut
    decreases body, 4int,
{
    let child = sc.frames.len() as int;
    match t_params(fork_m(sc, scope), params, 0) {
        ESc::Fail(e) => EOut::Fail(e),
        ESc::Next(sc1) => match t_expr(sc1, child, body) {
            EOut::Fail(e) => EOut::Fail(e),
            EOut::Emit { cmds: bcmds, sc: sc2 } => EOut::Emit {
                cmds: seq![SCmd::ConstructFunction(params.len() as int, bcmds.len() as int)]
                    + bcmds,
                sc: sc2,
            },
        },
    }
}

/// Translate a struct literal: fork a scope, give each field a fresh bind
/// id, emit each field body as a label, and finish with a `StructAddr`
/// opcode carrying the field-name-to-bind-id mapping.
#[verifier::opaque]
pub open spec fn t_struct(sc: SScopes, scope: int, defs: Seq<(String, Expression)>) -> EOut
    decreases defs, defs.len() + 1,
{
    let child = sc.frames.len() as int;
    let sc1 = fork_m(sc, scope);
    match t_declare_defs(sc1, defs) {
        ESc::Fail(e) => EOut::Fail(e),
        ESc::Next(sc2) => match t_def_bodies(sc2, child, defs, 0, sc1.cnt) {
            EOut::Fail(e) => EOut::Fail(e),
            EOut::Emit { cmds: bodies, sc: sc3 } => EOut::Emit {
                cmds: bodies + seq![SCmd::StructAddr(struct_map(defs, sc1.cnt))],
                sc: sc3,
            },
        },
    }
}

/// Translate an array literal: each element becomes a zero-parameter
/// thunk, then an `ArrayConst` opcode collects them into one list value.
#[verifier::opaque]
pub open spec fn t_array(sc: SScopes, scope: int, items: Seq<Expression>) -> EOut
    decreases items, items.len() + 1,
{
    match t_array_items(sc, scope, items, 0) {
        EOut::Fail(e) => EOut::Fail(e),
        EOut::Emit { cmds: icmds, sc: sc1 } => EOut::Emit {
            cmds: icmds + seq![SCmd::ArrayConst(items.len() as int)],
            sc: sc1,
        },
    }
}

/// Translate one primary form.
#[verifier::opaque]
pub open spec fn t_primary(sc: SScopes, scope: int, p: Primary) -> EOut
    decreases p, 3int,
{
    match p {
        Primary::Number(n) => EOut::Emit { cmds: seq![SCmd::NumberConst(n)], sc },
        Primary::Text(s) => EOut::Emit { cmds: seq![SCmd::StringConst(s@)], sc },
        Primary::Variable(name) => t_ident(sc, scope, name),
        Primary::Block(stmt) => {
            let child = sc.frames.len() as int;
            t_stmt(fork_m(sc, scope), child, *stmt)
        },
        Primary::Function(params, body) => t_function(sc, scope, params@, *body),
        Primary::Struct(defs) => t_struct(sc, scope, defs@),
        Primary::Array(items) => t_array(sc, scope, items@),
    }
}

/// The complete translation of one compilation unit, from a fresh
/// resolver: the mathematical meaning of [`get_cmd`].
pub open spec fn compile_m(ast: Statement) -> EOut {
    t_stmt(scopes_new_m(), 0, ast)
}

/// Law: the emitter is deterministic.  Translating the same tree from the
/// same resolver state yields identical opcode sequences and identical
/// resolver states, whichever run produced them.
pub proof fn lemma_emitter_deterministic(
    sc: SScopes,
    scope: int,
    v: Statement,
    c1: Seq<SCmd>,
    sc1: SScopes,
    c2: Seq<SCmd>,
    sc2: SScopes,
)
    requires
        t_stmt(sc, scope, v) == (EOut::Emit { cmds: c1, sc: sc1 }),
        t_stmt(sc, scope, v) == (EOut::Emit { cmds: c2, sc: sc2 }),
    ensures
        c1 == c2,
        sc1 == sc2,
{
}


/// A small fact used when a loop consumes a sequence one element at a time.
proof fn lemma_skip_step<A>(s: Seq<A>, i: int)
    requires
        0 <= i < s.len(),
    ensures
        s.skip(i).len() == s.len() - i,
        s.skip(i).first() == s[i],
        s.skip(i).drop_first() =~= s.skip(i + 1),
{
}

/// Counting facts about the declaration pass: it hands out exactly one id
/// per definition, leaves the frame layout untouched, and keeps the
/// counter within the emission limit.
proof fn lemma_declare_defs_props(sc: SScopes, defs: Seq<(String, Expression)>)
    requires
        sc.frames.len() > 0,
    ensures
        (match t_declare_defs(sc, defs) {
            ESc::Next(sc2) => {
                &&& sc2.cnt == sc.cnt + defs.len()
                &&& sc2.frames.len() == sc.frames.len()
                &&& (defs.len() > 0 ==> sc2.cnt <= EMIT_LIMIT)
            },
            ESc::Fail(_) => true,
        }),
    decreases defs.len(),
{
    reveal(t_declare_defs);
    if defs.len() == 0 {
    } else if sc.cnt >= EMIT_LIMIT {
    } else {
        let sc1 = declare_bind_m(sc, defs.first().0@);
        assert(sc1.cnt == sc.cnt + 1);
        assert(sc1.frames.len() == sc.frames.len());
        lemma_declare_defs_props(sc1, defs.drop_first());
        assert(defs.drop_first().len() == defs.len() - 1);
        assert(t_declare_defs(sc, defs) == t_declare_defs(sc1, defs.drop_first()));
    }
}

/// The instruction emitter: owns the resolver state while it walks the
/// tree.  Every method computes exactly the spec-level translation of the
/// node it is given.
pub(crate) struct Translator {
    pub scopes: Scopes,
}

impl Translator {
    pub(crate) fn new() -> (t: Translator)
        ensures
            t.scopes@ == scopes_new_m(),
            frames_wf(t.scopes@.frames),
    {
        Translator { scopes: Scopes::new() }
    }

    /// Emit code for a resolved identifier reference.
    pub(crate) fn translate_identifier(&self, scope: usize, name: &String) -> (r: Result<
        Vec<Cmd>,
        CompileError,
    >)
        requires
            frames_wf(self.scopes@.frames),
            (scope as int) < self.scopes@.frames.len(),
        ensures
            (match r {
                Ok(cmds) => {
                    &&& t_ident(self.scopes@, scope as int, *name) matches EOut::Emit {
                        cmds: mc,
                        sc: ms,
                    }
                    &&& mc == cmds_view(cmds@)
                    &&& ms == self.scopes@
                },
                Err(e) => t_ident(self.scopes@, scope as int, *name) == EOut::Fail(e),
            }),
    {
        match self.scopes.resolve(scope, name) {
            Option::None => Err(CompileError::UnboundIdentifier(name.clone())),
            Option::Some((Identifier::Bind(id), _)) => {
                let mut cmd: Vec<Cmd> = Vec::new();
                cmd.push(Cmd::LabelAddr(id));
                cmd.push(Cmd::Call(0));
                proof {
                    assert(cmds_view(cmd@) =~= seq![SCmd::LabelAddr(id as int), SCmd::Call(0)]);
                }
                Ok(cmd)
            },
            Option::Some((Identifier::Arg(index), depth)) => {
                let mut cmd: Vec<Cmd> = Vec::new();
                cmd.push(Cmd::Load(index, depth));
                proof {
                    assert(cmds_view(cmd@) =~= seq![SCmd::Load(index as int, depth as int)]);
                }
                Ok(cmd)
            },
        }
    }

    /// Emit a comparison chain: the left operand, then each right-hand
    /// operand followed by its comparison opcode, left-associatively.
    #[verifier::loop_isolation(false)]
    #[verifier::rlimit(100)]
    #[verifier::spinoff_prover]
    pub(crate) fn translate_comparison(&mut self, scope: usize, v: &Comparison) -> (r: Result<
        Vec<Cmd>,
        CompileError,
    >)
        requires
            frames_wf(old(self).scopes@.frames),
            (scope as int) < old(self).scopes@.frames.len(),
        ensures
            frames_wf(final(self).scopes@.frames),
            final(self).scopes@.frames.len() >= old(self).scopes@.frames.len(),
            (match r {
                Ok(cmds) => {
                    &&& t_comparison(old(self).scopes@, scope as int, *v) matches EOut::Emit {
                        cmds: mc,
                        sc: ms,
                    }
                    &&& mc == cmds_view(cmds@)
                    &&& ms == final(self).scopes@
                },
                Err(e) => t_comparison(old(self).scopes@, scope as int, *v) == EOut::Fail(e),
            }),
        decreases *v,
    {
        reveal(t_comparison);
        reveal(t_comp_rights);
        reveal(t_additive);
        let ghost sc0 = self.scopes@;
        let ghost rights = v.rights@;
        let mut cmd = match self.translate_additive(scope, &v.left) {
            Ok(c) => c,
            Err(e) => {
                proof {
                    reveal(t_comparison);
                    assert(t_comparison(sc0, scope as int, *v) == EOut::Fail(e));
                }
                return Err(e);
            },
        };
        proof {
            reveal(t_comparison);
            assert(match t_comp_rights(self.scopes@, scope as int, rights, 0) {
                EOut::Emit { cmds: rest, sc: scf } => {
                    &&& t_comparison(sc0, scope as int, *v) matches EOut::Emit { cmds: mc, sc: ms }
                    &&& mc == cmds_view(cmd@) + rest
                    &&& ms == scf
                },
                EOut::Fail(e) => t_comparison(sc0, scope as int, *v) == EOut::Fail(e),
            });
        }
        let mut i: usize = 0;
        while i < v.rights.len()
            invariant
                i <= v.rights.len(),
                frames_wf(self.scopes@.frames),
                self.scopes@.frames.len() >= sc0.frames.len(),
                (match t_comp_rights(self.scopes@, scope as int, rights, i as int) {
                    EOut::Emit { cmds: rest, sc: scf } => {
                        &&& t_comparison(sc0, scope as int, *v) matches EOut::Emit { cmds: mc, sc: ms }
                        &&& mc == cmds_view(cmd@) + rest
                        &&& ms == scf
                    },
                    EOut::Fail(e) => t_comparison(sc0, scope as int, *v) == EOut::Fail(e),
                }),
            decreases v.rights.len() - i,
        {
            let ghost sc_i = self.scopes@;
            let ghost cmd_i = cmd@;
            let (inner_res, opc) = match &v.rights[i] {
                ComparisonRight::Equal(a) => (self.translate_additive(scope, a), Cmd::Equal),
                ComparisonRight::NotEqual(a) => (
                    self.translate_additive(scope, a),
                    Cmd::NotEqual,
                ),
            };
            let mut acmds = match inner_res {
                Ok(c) => c,
                Err(e) => {
                    proof {
                        reveal(t_comp_rights);
                        assert(t_comp_rights(sc_i, scope as int, rights, i as int) == EOut::Fail(e));
                        assert(t_comparison(sc0, scope as int, *v) == EOut::Fail(e));
                    }
                    return Err(e);
                },
            };
            let ghost acv = acmds@;
            cmd.append(&mut acmds);
            cmd.push(opc);
            proof {
                reveal(t_comp_rights);
                lemma_cmds_view_add(cmd_i, acv);
                lemma_cmds_view_push(cmd_i + acv, opc);
                match t_comp_rights(self.scopes@, scope as int, rights, i as int + 1) {
                    EOut::Emit { cmds: rest, sc: _ } => {
                        assert(cmds_view(cmd_i) + (cmds_view(acv) + seq![opc@] + rest)
                            =~= cmds_view(cmd@) + rest);
                    },
                    EOut::Fail(_) => {},
                }
                assert(match t_comp_rights(self.scopes@, scope as int, rights, i as int + 1) {
                    EOut::Emit { cmds: rest, sc: scf } => {
                        &&& t_comparison(sc0, scope as int, *v) matches EOut::Emit { cmds: mc, sc: ms }
                        &&& mc == cmds_view(cmd@) + rest
                        &&& ms == scf
                    },
                    EOut::Fail(e) => t_comparison(sc0, scope as int, *v) == EOut::Fail(e),
                });
            }
            i = i + 1;
        }
        proof {
            reveal(t_comp_rights);
            assert(t_comp_rights(self.scopes@, scope as int, rights, i as int) == (EOut::Emit {
                cmds: Seq::<SCmd>::empty(),
                sc: self.scopes@,
            }));
            assert(cmds_view(cmd@) + Seq::<SCmd>::empty() =~= cmds_view(cmd@));
            assert(t_comparison(sc0, scope as int, *v) matches EOut::Emit { cmds: mc, sc: ms }
                && mc == cmds_view(cmd@) && ms == self.scopes@);
        }
        Ok(cmd)
    }

    /// Emit an additive chain, left-associatively.
    #[verifier::loop_isolation(false)]
    #[verifier::rlimit(100)]
    #[verifier::spinoff_prover]
    pub(crate) fn translate_additive(&mut self, scope: usize, v: &Additive) -> (r: Result<
        Vec<Cmd>,
        CompileError,
    >)
        requires
            frames_wf(old(self).scopes@.frames),
            (scope as int) < old(self).scopes@.frames.len(),
        ensures
            frames_wf(final(self).scopes@.frames),
            final(self).scopes@.frames.len() >= old(self).scopes@.frames.len(),
            (match r {
                Ok(cmds) => {
                    &&& t_additive(old(self).scopes@, scope as int, *v) matches EOut::Emit {
                        cmds: mc,
                        sc: ms,
                    }
                    &&& mc == cmds_view(cmds@)
                    &&& ms == final(self).scopes@
                },
                Err(e) => t_additive(old(self).scopes@, scope as int, *v) == EOut::Fail(e),
            }),
        decreases *v,
    {
        reveal(t_additive);
        reveal(t_add_rights);
        reveal(t_multitive);
        let ghost sc0 = self.scopes@;
        let ghost rights = v.rights@;
        let mut cmd = match self.translate_multitive(scope, &v.left) {
            Ok(c) => c,
            Err(e) => {
                proof {
                    reveal(t_additive);
                    assert(t_additive(sc0, scope as int, *v) == EOut::Fail(e));
                }
                return Err(e);
            },
        };
        proof {
            reveal(t_additive);
            assert(match t_add_rights(self.scopes@, scope as int, rights, 0) {
                EOut::Emit { cmds: rest, sc: scf } => {
                    &&& t_additive(sc0, scope as int, *v) matches EOut::Emit { cmds: mc, sc: ms }
                    &&& mc == cmds_view(cmd@) + rest
                    &&& ms == scf
                },
                EOut::Fail(e) => t_additive(sc0, scope as int, *v) == EOut::Fail(e),
            });
        }
        let mut i: usize = 0;
        while i < v.rights.len()
            invariant
                i <= v.rights.len(),
                frames_wf(self.scopes@.frames),
                self.scopes@.frames.len() >= sc0.frames.len(),
                (match t_add_rights(self.scopes@, scope as int, rights, i as int) {
                    EOut::Emit { cmds: rest, sc: scf } => {
                        &&& t_additive(sc0, scope as int, *v) matches EOut::Emit { cmds: mc, sc: ms }
                        &&& mc == cmds_view(cmd@) + rest
                        &&& ms == scf
                    },
                    EOut::Fail(e) => t_additive(sc0, scope as int, *v) == EOut::Fail(e),
                }),
            decreases v.rights.len() - i,
        {
            let ghost sc_i = self.scopes@;
            let ghost cmd_i = cmd@;
            let (inner_res, opc) = match &v.rights[i] {
                AdditiveRight::Add(m) => (self.translate_multitive(scope, m), Cmd::Add),
                AdditiveRight::Sub(m) => (self.translate_multitive(scope, m), Cmd::Sub),
            };
            let mut acmds = match inner_res {
                Ok(c) => c,
                Err(e) => {
                    proof {
                        reveal(t_add_rights);
                        assert(t_add_rights(sc_i, scope as int, rights, i as int) == EOut::Fail(e));
                        assert(t_additive(sc0, scope as int, *v) == EOut::Fail(e));
                    }
                    return Err(e);
                },
            };
            let ghost acv = acmds@;
            cmd.append(&mut acmds);
            cmd.push(opc);
            proof {
                reveal(t_add_rights);
                lemma_cmds_view_add(cmd_i, acv);
                lemma_cmds_view_push(cmd_i + acv, opc);
                match t_add_rights(self.scopes@, scope as int, rights, i as int + 1) {
                    EOut::Emit { cmds: rest, sc: _ } => {
                        assert(cmds_view(cmd_i) + (cmds_view(acv) + seq![opc@] + rest)
                            =~= cmds_view(cmd@) + rest);
                    },
                    EOut::Fail(_) => {},
                }
                assert(match t_add_rights(self.scopes@, scope as int, rights, i as int + 1) {
                    EOut::Emit { cmds: rest, sc: scf } => {
                        &&& t_additive(sc0, scope as int, *v) matches EOut::Emit { cmds: mc, sc: ms }
                        &&& mc == cmds_view(cmd@) + rest
                        &&& ms == scf
                    },
                    EOut::Fail(e) => t_additive(sc0, scope as int, *v) == EOut::Fail(e),
                });
            }
            i = i + 1;
        }
        proof {
            reveal(t_add_rights);
            assert(t_add_rights(self.scopes@, scope as int, rights, i as int) == (EOut::Emit {
                cmds: Seq::<SCmd>::empty(),
                sc: self.scopes@,
            }));
            assert(cmds_view(cmd@) + Seq::<SCmd>::empty() =~= cmds_view(cmd@));
            assert(t_additive(sc0, scope as int, *v) matches EOut::Emit { cmds: mc, sc: ms }
                && mc == cmds_view(cmd@) && ms == self.scopes@);
        }
        Ok(cmd)
    }

    /// Emit a multiplicative chain, left-associatively.
    #[verifier::loop_isolation(false)]
    #[verifier::rlimit(100)]
    #[verifier::spinoff_prover]
    pub(crate) fn translate_multitive(&mut self, scope: usize, v: &Multitive) -> (r: Result<
        Vec<Cmd>,
        CompileError,
    >)
        requires
            frames_wf(old(self).scopes@.frames),
            (scope as int) < old(self).scopes@.frames.len(),
        ensures
            frames_wf(final(self).scopes@.frames),
            final(self).scopes@.frames.len() >= old(self).scopes@.frames.len(),
            (match r {
                Ok(cmds) => {
                    &&& t_multitive(old(self).scopes@, scope as int, *v) matches EOut::Emit {
                        cmds: mc,
                        sc: ms,
                    }
                    &&& mc == cmds_view(cmds@)
                    &&& ms == final(self).scopes@
                },
                Err(e) => t_multitive(old(self).scopes@, scope as int, *v) == EOut::Fail(e),
            }),
        decreases *v,
    {
        reveal(t_multitive);
        reveal(t_mul_rights);
        reveal(t_operation);
        let ghost sc0 = self.scopes@;
        let ghost rights = v.rights@;
        let mut cmd = match self.translate_operation(scope, &v.left) {
            Ok(c) => c,
            Err(e) => {
                proof {
                    reveal(t_multitive);
                    assert(t_multitive(sc0, scope as int, *v) == EOut::Fail(e));
                }
                return Err(e);
            },
        };
        proof {
            reveal(t_multitive);
            assert(match t_mul_rights(self.scopes@, scope as int, rights, 0) {
                EOut::Emit { cmds: rest, sc: scf } => {
                    &&& t_multitive(sc0, scope as int, *v) matches EOut::Emit { cmds: mc, sc: ms }
                    &&& mc == cmds_view(cmd@) + rest
                    &&& ms == scf
                },
                EOut::Fail(e) => t_multitive(sc0, scope as int, *v) == EOut::Fail(e),
            });
        }
        let mut i: usize = 0;
        while i < v.rights.len()
            invariant
                i <= v.rights.len(),
                frames_wf(self.scopes@.frames),
                self.scopes@.frames.len() >= sc0.frames.len(),
                (match t_mul_rights(self.scopes@, scope as int, rights, i as int) {
                    EOut::Emit { cmds: rest, sc: scf } => {
                        &&& t_multitive(sc0, scope as int, *v) matches EOut::Emit { cmds: mc, sc: ms }
                        &&& mc == cmds_view(cmd@) + rest
                        &&& ms == scf
                    },
                    EOut::Fail(e) => t_multitive(sc0, scope as int, *v) == EOut::Fail(e),
                }),
            decreases v.rights.len() - i,
        {
            let ghost sc_i = self.scopes@;
            let ghost cmd_i = cmd@;
            let (inner_res, opc) = match &v.rights[i] {
                MultitiveRight::Mul(o) => (self.translate_operation(scope, o), Cmd::Mul),
                MultitiveRight::Div(o) => (self.translate_operation(scope, o), Cmd::Div),
                MultitiveRight::Surplus(o) => (self.translate_operation(scope, o), Cmd::Surplus),
            };
            let mut acmds = match inner_res {
                Ok(c) => c,
                Err(e) => {
                    proof {
                        reveal(t_mul_rights);
                        assert(t_mul_rights(sc_i, scope as int, rights, i as int) == EOut::Fail(e));
                        assert(t_multitive(sc0, scope as int, *v) == EOut::Fail(e));
                    }
                    return Err(e);
                },
            };
            let ghost acv = acmds@;
            cmd.append(&mut acmds);
            cmd.push(opc);
            proof {
                reveal(t_mul_rights);
                lemma_cmds_view_add(cmd_i, acv);
                lemma_cmds_view_push(cmd_i + acv, opc);
                match t_mul_rights(self.scopes@, scope as int, rights, i as int + 1) {
                    EOut::Emit { cmds: rest, sc: _ } => {
                        assert(cmds_view(cmd_i) + (cmds_view(acv) + seq![opc@] + rest)
                            =~= cmds_view(cmd@) + rest);
                    },
                    EOut::Fail(_) => {},
                }
                assert(match t_mul_rights(self.scopes@, scope as int, rights, i as int + 1) {
                    EOut::Emit { cmds: rest, sc: scf } => {
                        &&& t_multitive(sc0, scope as int, *v) matches EOut::Emit { cmds: mc, sc: ms }
                        &&& mc == cmds_view(cmd@) + rest
                        &&& ms == scf
                    },
                    EOut::Fail(e) => t_multitive(sc0, scope as int, *v) == EOut::Fail(e),
                });
            }
            i = i + 1;
        }
        proof {
            reveal(t_mul_rights);
            assert(t_mul_rights(self.scopes@, scope as int, rights, i as int) == (EOut::Emit {
                cmds: Seq::<SCmd>::empty(),
                sc: self.scopes@,
            }));
            assert(cmds_view(cmd@) + Seq::<SCmd>::empty() =~= cmds_view(cmd@));
            assert(t_multitive(sc0, scope as int, *v) matches EOut::Emit { cmds: mc, sc: ms }
                && mc == cmds_view(cmd@) && ms == self.scopes@);
        }
        Ok(cmd)
    }


    /// Emit an expression: a comparison chain, or a conditional whose
    /// alternate branch is laid out before its consequent, with both jump
    /// distances computed from the final emitted branch lengths.
    #[verifier::rlimit(30)]
    pub(crate) fn translate_expression(&mut self, scope: usize, v: &Expression) -> (r: Result<
        Vec<Cmd>,
        CompileError,
    >)
        requires
            frames_wf(old(self).scopes@.frames),
            (scope as int) < old(self).scopes@.frames.len(),
        ensures
            frames_wf(final(self).scopes@.frames),
            final(self).scopes@.frames.len() >= old(self).scopes@.frames.len(),
            (match r {
                Ok(cmds) => {
                    &&& t_expr(old(self).scopes@, scope as int, *v) matches EOut::Emit {
                        cmds: mc,
                        sc: ms,
                    }
                    &&& mc == cmds_view(cmds@)
                    &&& ms == final(self).scopes@
                },
                Err(e) => t_expr(old(self).scopes@, scope as int, *v) == EOut::Fail(e),
            }),
        decreases *v, 0int,
    {
        reveal(t_expr);
        let ghost sc0 = self.scopes@;
        match v {
            Expression::Comparison(c) => {
        reveal(t_comparison);
                let res = self.translate_comparison(scope, c);
                proof {
                    reveal(t_expr);
                    assert(t_expr(sc0, scope as int, *v) == t_comparison(sc0, scope as int, *c));
                }
                res
            },
            Expression::If { cond, cons, alt } => {
                let cond_cmd = match self.translate_expression(scope, &**cond) {
                    Ok(c) => c,
                    Err(e) => {
                        proof {
                            reveal(t_expr);
                            assert(t_expr(sc0, scope as int, *v) == EOut::Fail(e));
                        }
                        return Err(e);
                    },
                };
                let ghost sc1 = self.scopes@;
                let mut cons_cmd = match self.translate_expression(scope, &**cons) {
                    Ok(c) => c,
                    Err(e) => {
                        proof {
                            reveal(t_expr);
                            assert(t_expr(sc0, scope as int, *v) == EOut::Fail(e));
                        }
                        return Err(e);
                    },
                };
                let ghost sc2 = self.scopes@;
                let mut alt_cmd = match self.translate_expression(scope, &**alt) {
                    Ok(c) => c,
                    Err(e) => {
                        proof {
                            reveal(t_expr);
                            assert(t_expr(sc0, scope as int, *v) == EOut::Fail(e));
                        }
                        return Err(e);
                    },
                };
                if cons_cmd.len() >= EMIT_LIMIT || alt_cmd.len() >= EMIT_LIMIT {
                    proof {
                        reveal(t_expr);
                        assert(t_expr(sc0, scope as int, *v) == EOut::Fail(CompileError::TooLarge));
                    }
                    return Err(CompileError::TooLarge);
                }
                let ghost ccmds = cmds_view(cond_cmd@);
                let ghost conscmds = cmds_view(cons_cmd@);
                let ghost altcmds = cmds_view(alt_cmd@);
                alt_cmd.push(Cmd::JumpRel(cons_cmd.len() + 1));
                let mut cmd = cond_cmd;
                cmd.push(Cmd::JumpRelIf(alt_cmd.len() + 1));
                cmd.append(&mut alt_cmd);
                cmd.append(&mut cons_cmd);
                proof {
                    reveal(t_expr);
                    assert(cmds_view(cmd@) =~= ccmds + seq![
                        SCmd::JumpRelIf(altcmds.len() as int + 2),
                    ] + altcmds + seq![SCmd::JumpRel(conscmds.len() as int + 1)] + conscmds);
                    assert(t_expr(sc0, scope as int, *v) matches EOut::Emit { cmds: mc, sc: ms }
                        && mc == cmds_view(cmd@) && ms == self.scopes@);
                }
                Ok(cmd)
            },
        }
    }

    /// Emit a primary followed by its postfix chain of property accesses,
    /// calls and indexings.
    #[verifier::loop_isolation(false)]
    #[verifier::rlimit(100)]
    #[verifier::spinoff_prover]
    pub(crate) fn translate_operation(&mut self, scope: usize, v: &Operation) -> (r: Result<
        Vec<Cmd>,
        CompileError,
    >)
        requires
            frames_wf(old(self).scopes@.frames),
            (scope as int) < old(self).scopes@.frames.len(),
        ensures
            frames_wf(final(self).scopes@.frames),
            final(self).scopes@.frames.len() >= old(self).scopes@.frames.len(),
            (match r {
                Ok(cmds) => {
                    &&& t_operation(old(self).scopes@, scope as int, *v) matches EOut::Emit {
                        cmds: mc,
                        sc: ms,
                    }
                    &&& mc == cmds_view(cmds@)
                    &&& ms == final(self).scopes@
                },
                Err(e) => t_operation(old(self).scopes@, scope as int, *v) == EOut::Fail(e),
            }),
        decreases *v,
    {
        reveal(t_operation);
        reveal(t_op_rights);
        reveal(t_args);
        reveal(t_primary);
        reveal(t_expr);
        let ghost sc0 = self.scopes@;
        let ghost rights = v.rights@;
        let mut cmd = match self.translate_primary(scope, &v.left) {
            Ok(c) => c,
            Err(e) => {
                proof {
                    reveal(t_operation);
                    assert(t_operation(sc0, scope as int, *v) == EOut::Fail(e));
                }
                return Err(e);
            },
        };
        proof {
            reveal(t_operation);
            assert(match t_op_rights(self.scopes@, scope as int, rights, 0) {
                EOut::Emit { cmds: rest, sc: scf } => {
                    &&& t_operation(sc0, scope as int, *v) matches EOut::Emit { cmds: mc, sc: ms }
                    &&& mc == cmds_view(cmd@) + rest
                    &&& ms == scf
                },
                EOut::Fail(e) => t_operation(sc0, scope as int, *v) == EOut::Fail(e),
            });
        }
        let mut i: usize = 0;
        while i < v.rights.len()
            invariant
                i <= v.rights.len(),
                frames_wf(self.scopes@.frames),
                self.scopes@.frames.len() >= sc0.frames.len(),
                (match t_op_rights(self.scopes@, scope as int, rights, i as int) {
                    EOut::Emit { cmds: rest, sc: scf } => {
                        &&& t_operation(sc0, scope as int, *v) matches EOut::Emit {
                            cmds: mc,
                            sc: ms,
                        }
                        &&& mc == cmds_view(cmd@) + rest
                        &&& ms == scf
                    },
                    EOut::Fail(e) => t_operation(sc0, scope as int, *v) == EOut::Fail(e),
                }),
            decreases v.rights.len() - i,
        {
            let ghost sc_i = self.scopes@;
            let ghost cmd_i = cmd@;
            match &v.rights[i] {
                OperationRight::Access(name) => {
                    cmd.push(Cmd::StringConst(name.clone()));
                    cmd.push(Cmd::Access);
                    cmd.push(Cmd::Call(0));
                    proof {
                        reveal(t_op_rights);
                        let scmds = seq![SCmd::StringConst(name@), SCmd::Access, SCmd::Call(0)];
                        assert(cmds_view(cmd@) =~= cmds_view(cmd_i) + scmds);
                        match t_op_rights(self.scopes@, scope as int, rights, i as int + 1) {
                            EOut::Emit { cmds: rest, sc: _ } => {
                                assert(cmds_view(cmd_i) + (scmds + rest) =~= cmds_view(cmd@)
                                    + rest);
                            },
                            EOut::Fail(_) => {},
                        }
                        assert(match t_op_rights(self.scopes@, scope as int, rights, i as int
                            + 1) {
                            EOut::Emit { cmds: rest, sc: scf } => {
                                &&& t_operation(sc0, scope as int, *v) matches EOut::Emit {
                                    cmds: mc,
                                    sc: ms,
                                }
                                &&& mc == cmds_view(cmd@) + rest
                                &&& ms == scf
                            },
                            EOut::Fail(e) => t_operation(sc0, scope as int, *v) == EOut::Fail(e),
                        });
                    }
                },
                OperationRight::Call(args) => {
                    let ghost argseq = args@;
                    let mut acc: Vec<Cmd> = Vec::new();
                    proof {
                        assert(cmds_view(acc@) =~= Seq::<SCmd>::empty());
                        assert(match t_args(self.scopes@, scope as int, argseq, 0) {
                            EOut::Emit { cmds: rest, sc: scf } => {
                                &&& t_args(sc_i, scope as int, argseq, 0) matches EOut::Emit {
                                    cmds: amc,
                                    sc: ams,
                                }
                                &&& amc == cmds_view(acc@) + rest
                                &&& ams == scf
                            },
                            EOut::Fail(e) => t_args(sc_i, scope as int, argseq, 0)
                                == EOut::Fail(e),
                        }) by {
                            match t_args(sc_i, scope as int, argseq, 0) {
                                EOut::Emit { cmds: rest, sc: _ } => {
                                    assert(cmds_view(acc@) + rest =~= rest);
                                },
                                EOut::Fail(_) => {},
                            }
                        }
                    }
                    let mut k: usize = 0;
                    while k < args.len()
                        invariant
                            k <= args.len(),
                            frames_wf(self.scopes@.frames),
                            self.scopes@.frames.len() >= sc0.frames.len(),
                            (match t_args(self.scopes@, scope as int, argseq, k as int) {
                                EOut::Emit { cmds: rest, sc: scf } => {
                                    &&& t_args(sc_i, scope as int, argseq, 0) matches EOut::Emit {
                                        cmds: amc,
                                        sc: ams,
                                    }
                                    &&& amc == cmds_view(acc@) + rest
                                    &&& ams == scf
                                },
                                EOut::Fail(e) => t_args(sc_i, scope as int, argseq, 0)
                                    == EOut::Fail(e),
                            }),
                        decreases args.len() - k,
                    {
                        let ghost sc_k = self.scopes@;
                        let ghost acc_k = acc@;
                        let mut ac = match self.translate_expression(scope, &args[k]) {
                            Ok(c) => c,
                            Err(e) => {
                                proof {
                                    reveal(t_args);
                                    assert(t_args(sc_k, scope as int, argseq, k as int)
                                        == EOut::Fail(e));
                                    reveal(t_op_rights);
                                    assert(t_op_rights(sc_i, scope as int, rights, i as int)
                                        == EOut::Fail(e));
                                    assert(t_operation(sc0, scope as int, *v) == EOut::Fail(e));
                                }
                                return Err(e);
                            },
                        };
                        let ghost acv2 = ac@;
                        acc.append(&mut ac);
                        proof {
                            reveal(t_args);
                            lemma_cmds_view_add(acc_k, acv2);
                            match t_args(self.scopes@, scope as int, argseq, k as int + 1) {
                                EOut::Emit { cmds: rest, sc: _ } => {
                                    assert(cmds_view(acc_k) + (cmds_view(acv2) + rest)
                                        =~= cmds_view(acc@) + rest);
                                },
                                EOut::Fail(_) => {},
                            }
                            assert(match t_args(self.scopes@, scope as int, argseq, k as int
                                + 1) {
                                EOut::Emit { cmds: rest, sc: scf } => {
                                    &&& t_args(sc_i, scope as int, argseq, 0) matches EOut::Emit {
                                        cmds: amc,
                                        sc: ams,
                                    }
                                    &&& amc == cmds_view(acc@) + rest
                                    &&& ams == scf
                                },
                                EOut::Fail(e) => t_args(sc_i, scope as int, argseq, 0)
                                    == EOut::Fail(e),
                            });
                        }
                        k = k + 1;
                    }
                    let ghost accv = acc@;
                    cmd.append(&mut acc);
                    cmd.push(Cmd::Call(args.len()));
                    proof {
                        reveal(t_args);
                        assert(t_args(self.scopes@, scope as int, argseq, k as int)
                            == (EOut::Emit { cmds: Seq::<SCmd>::empty(), sc: self.scopes@ }));
                        assert(cmds_view(accv) + Seq::<SCmd>::empty() =~= cmds_view(accv));
                        reveal(t_op_rights);
                        let scmds = cmds_view(accv) + seq![SCmd::Call(argseq.len() as int)];
                        lemma_cmds_view_add(cmd_i, accv);
                        lemma_cmds_view_push(cmd_i + accv, Cmd::Call(args.len()));
                        assert(cmds_view(cmd@) =~= cmds_view(cmd_i) + scmds);
                        match t_op_rights(self.scopes@, scope as int, rights, i as int + 1) {
                            EOut::Emit { cmds: rest, sc: _ } => {
                                assert(cmds_view(cmd_i) + (scmds + rest) =~= cmds_view(cmd@)
                                    + rest);
                            },
                            EOut::Fail(_) => {},
                        }
                        assert(match t_op_rights(self.scopes@, scope as int, rights, i as int
                            + 1) {
                            EOut::Emit { cmds: rest, sc: scf } => {
                                &&& t_operation(sc0, scope as int, *v) matches EOut::Emit {
                                    cmds: mc,
                                    sc: ms,
                                }
                                &&& mc == cmds_view(cmd@) + rest
                                &&& ms == scf
                            },
                            EOut::Fail(e) => t_operation(sc0, scope as int, *v) == EOut::Fail(e),
                        });
                    }
                },
                OperationRight::Index(e) => {
                    let mut icmds = match self.translate_expression(scope, &**e) {
                        Ok(c) => c,
                        Err(er) => {
                            proof {
                                reveal(t_op_rights);
                                assert(t_op_rights(sc_i, scope as int, rights, i as int)
                                    == EOut::Fail(er));
                                assert(t_operation(sc0, scope as int, *v) == EOut::Fail(er));
                            }
                            return Err(er);
                        },
                    };
                    let ghost icv = icmds@;
                    cmd.append(&mut icmds);
                    cmd.push(Cmd::Index);
                    cmd.push(Cmd::Call(0));
                    proof {
                        reveal(t_op_rights);
                        let scmds = cmds_view(icv) + seq![SCmd::Index, SCmd::Call(0)];
                        lemma_cmds_view_add(cmd_i, icv);
                        assert(cmds_view(cmd@) =~= cmds_view(cmd_i) + scmds);
                        match t_op_rights(self.scopes@, scope as int, rights, i as int + 1) {
                            EOut::Emit { cmds: rest, sc: _ } => {
                                assert(cmds_view(cmd_i) + (scmds + rest) =~= cmds_view(cmd@)
                                    + rest);
                            },
                            EOut::Fail(_) => {},
                        }
                        assert(match t_op_rights(self.scopes@, scope as int, rights, i as int
                            + 1) {
                            EOut::Emit { cmds: rest, sc: scf } => {
                                &&& t_operation(sc0, scope as int, *v) matches EOut::Emit {
                                    cmds: mc,
                                    sc: ms,
                                }
                                &&& mc == cmds_view(cmd@) + rest
                                &&& ms == scf
                            },
                            EOut::Fail(e2) => t_operation(sc0, scope as int, *v)
                                == EOut::Fail(e2),
                        });
                    }
                },
            }
            i = i + 1;
        }
        proof {
            reveal(t_op_rights);
            assert(t_op_rights(self.scopes@, scope as int, rights, i as int) == (EOut::Emit {
                cmds: Seq::<SCmd>::empty(),
                sc: self.scopes@,
            }));
            assert(cmds_view(cmd@) + Seq::<SCmd>::empty() =~= cmds_view(cmd@));
            assert(t_operation(sc0, scope as int, *v) matches EOut::Emit { cmds: mc, sc: ms }
                && mc == cmds_view(cmd@) && ms == self.scopes@);
        }
        Ok(cmd)
    }

    /// Emit the label bodies of a run of definitions whose consecutive
    /// bind ids start at `base`.
    #[verifier::loop_isolation(false)]
    #[verifier::rlimit(30)]
    pub(crate) fn translate_def_bodies(
        &mut self,
        scope: usize,
        defs: &Vec<(String, Expression)>,
        base: usize,
    ) -> (r: Result<Vec<Cmd>, CompileError>)
        requires
            frames_wf(old(self).scopes@.frames),
            (scope as int) < old(self).scopes@.frames.len(),
            defs@.len() == 0 || base as int + defs@.len() <= EMIT_LIMIT,
        ensures
            frames_wf(final(self).scopes@.frames),
            final(self).scopes@.frames.len() >= old(self).scopes@.frames.len(),
            (match r {
                Ok(cmds) => {
                    &&& t_def_bodies(old(self).scopes@, scope as int, defs@, 0, base as int)
                        matches EOut::Emit { cmds: mc, sc: ms }
                    &&& mc == cmds_view(cmds@)
                    &&& ms == final(self).scopes@
                },
                Err(e) => t_def_bodies(old(self).scopes@, scope as int, defs@, 0, base as int)
                    == EOut::Fail(e),
            }),
        decreases *defs, 0int,
    {
        reveal(t_def_bodies);
        let ghost sc0 = self.scopes@;
        let ghost defseq = defs@;
        let mut cmd: Vec<Cmd> = Vec::new();
        reveal(t_expr);
        proof {
            assert(cmds_view(cmd@) =~= Seq::<SCmd>::empty());
            assert(match t_def_bodies(self.scopes@, scope as int, defseq, 0, base as int) {
                EOut::Emit { cmds: rest, sc: scf } => {
                    &&& t_def_bodies(sc0, scope as int, defseq, 0, base as int)
                        matches EOut::Emit { cmds: mc, sc: ms }
                    &&& mc == cmds_view(cmd@) + rest
                    &&& ms == scf
                },
                EOut::Fail(e) => t_def_bodies(sc0, scope as int, defseq, 0, base as int)
                    == EOut::Fail(e),
            }) by {
                match t_def_bodies(sc0, scope as int, defseq, 0, base as int) {
                    EOut::Emit { cmds: rest, sc: _ } => {
                        assert(cmds_view(cmd@) + rest =~= rest);
                    },
                    EOut::Fail(_) => {},
                }
            }
        }
        let mut j: usize = 0;
        while j < defs.len()
            invariant
                j <= defs.len(),
                frames_wf(self.scopes@.frames),
                self.scopes@.frames.len() >= sc0.frames.len(),
                defseq.len() == 0 || base as int + defseq.len() <= EMIT_LIMIT,
                (match t_def_bodies(self.scopes@, scope as int, defseq, j as int, base as int) {
                    EOut::Emit { cmds: rest, sc: scf } => {
                        &&& t_def_bodies(sc0, scope as int, defseq, 0, base as int)
                            matches EOut::Emit { cmds: mc, sc: ms }
                        &&& mc == cmds_view(cmd@) + rest
                        &&& ms == scf
                    },
                    EOut::Fail(e) => t_def_bodies(sc0, scope as int, defseq, 0, base as int)
                        == EOut::Fail(e),
                }),
            decreases defs.len() - j,
        {
            let ghost sc_j = self.scopes@;
            let ghost cmd_j = cmd@;
            let mut body = match self.translate_expression(scope, &defs[j].1) {
                Ok(c) => c,
                Err(e) => {
                    proof {
                        reveal(t_def_bodies);
                        assert(t_def_bodies(sc_j, scope as int, defseq, j as int, base as int)
                            == EOut::Fail(e));
                        assert(t_def_bodies(sc0, scope as int, defseq, 0, base as int)
                            == EOut::Fail(e));
                    }
                    return Err(e);
                },
            };
            let id = base + j;
            let ghost bodyv = body@;
            cmd.push(Cmd::Label(id, body.len()));
            cmd.append(&mut body);
            proof {
                reveal(t_def_bodies);
                let scmds = seq![SCmd::Label(id as int, cmds_view(bodyv).len() as int)]
                    + cmds_view(bodyv);
                assert(cmds_view(cmd@) =~= cmds_view(cmd_j) + scmds);
                match t_def_bodies(self.scopes@, scope as int, defseq, j as int + 1, base as int) {
                    EOut::Emit { cmds: rest, sc: _ } => {
                        assert(cmds_view(cmd_j) + (scmds + rest) =~= cmds_view(cmd@) + rest);
                    },
                    EOut::Fail(_) => {},
                }
                assert(match t_def_bodies(self.scopes@, scope as int, defseq, j as int + 1,
                    base as int) {
                    EOut::Emit { cmds: rest, sc: scf } => {
                        &&& t_def_bodies(sc0, scope as int, defseq, 0, base as int)
                            matches EOut::Emit { cmds: mc, sc: ms }
                        &&& mc == cmds_view(cmd@) + rest
                        &&& ms == scf
                    },
                    EOut::Fail(e) => t_def_bodies(sc0, scope as int, defseq, 0, base as int)
                        == EOut::Fail(e),
                });
            }
            j = j + 1;
        }
        proof {
            reveal(t_def_bodies);
            assert(t_def_bodies(self.scopes@, scope as int, defseq, j as int, base as int)
                == (EOut::Emit { cmds: Seq::<SCmd>::empty(), sc: self.scopes@ }));
            assert(cmds_view(cmd@) + Seq::<SCmd>::empty() =~= cmds_view(cmd@));
            assert(t_def_bodies(sc0, scope as int, defseq, 0, base as int)
                matches EOut::Emit { cmds: mc, sc: ms } && mc == cmds_view(cmd@)
                && ms == self.scopes@);
        }
        Ok(cmd)
    }

    /// Declare every definition name of a block or struct in source order.
    #[verifier::loop_isolation(false)]
    #[verifier::rlimit(30)]
    pub(crate) fn declare_defs(&mut self, defs: &Vec<(String, Expression)>) -> (r: Result<
        (),
        CompileError,
    >)
        requires
            frames_wf(old(self).scopes@.frames),
            old(self).scopes@.frames.len() > 0,
        ensures
            frames_wf(final(self).scopes@.frames),
            final(self).scopes@.frames.len() == old(self).scopes@.frames.len(),
            (match r {
                Ok(_) => t_declare_defs(old(self).scopes@, defs@) == ESc::Next(final(self).scopes@),
                Err(e) => t_declare_defs(old(self).scopes@, defs@) == ESc::Fail(e),
            }),
    {
        reveal(t_declare_defs);
        let ghost sc0 = self.scopes@;
        let ghost defseq = defs@;
        proof {
            assert(defseq.skip(0) =~= defseq);
        }
        let mut i: usize = 0;
        while i < defs.len()
            invariant
                i <= defs.len(),
                frames_wf(self.scopes@.frames),
                self.scopes@.frames.len() == sc0.frames.len(),
                (match t_declare_defs(self.scopes@, defseq.skip(i as int)) {
                    ESc::Next(scd) => t_declare_defs(sc0, defseq) == ESc::Next(scd),
                    ESc::Fail(e) => t_declare_defs(sc0, defseq) == ESc::Fail(e),
                }),
            decreases defs.len() - i,
        {
            let ghost sc_i = self.scopes@;
            proof {
                lemma_skip_step(defseq, i as int);
            }
            if self.scopes.bind_count() >= EMIT_LIMIT {
                proof {
                    reveal(t_declare_defs);
                    assert(t_declare_defs(sc_i, defseq.skip(i as int))
                        == ESc::Fail(CompileError::TooLarge));
                }
                return Err(CompileError::TooLarge);
            }
            self.scopes.declare_bind(&defs[i].0);
            proof {
                reveal(t_declare_defs);
                assert(self.scopes@ == declare_bind_m(sc_i, defseq[i as int].0@));
                assert(t_declare_defs(sc_i, defseq.skip(i as int)) == t_declare_defs(
                    self.scopes@,
                    defseq.skip(i as int + 1),
                ));
            }
            i = i + 1;
        }
        proof {
            reveal(t_declare_defs);
            assert(defseq.skip(i as int) =~= Seq::<(String, Expression)>::empty());
            assert(t_declare_defs(self.scopes@, defseq.skip(i as int))
                == ESc::Next(self.scopes@));
        }
        Ok(())
    }

    /// Emit a block: the reserved import label, one label per definition,
    /// then the trailing expression.
    #[verifier::rlimit(30)]
    pub(crate) fn translate(&mut self, scope: usize, v: &Statement) -> (r: Result<
        Vec<Cmd>,
        CompileError,
    >)
        requires
            frames_wf(old(self).scopes@.frames),
            (scope as int) < old(self).scopes@.frames.len(),
        ensures
            frames_wf(final(self).scopes@.frames),
            final(self).scopes@.frames.len() >= old(self).scopes@.frames.len(),
            (match r {
                Ok(cmds) => {
                    &&& t_stmt(old(self).scopes@, scope as int, *v) matches EOut::Emit {
                        cmds: mc,
                        sc: ms,
                    }
                    &&& mc == cmds_view(cmds@)
                    &&& ms == final(self).scopes@
                },
                Err(e) => t_stmt(old(self).scopes@, scope as int, *v) == EOut::Fail(e),
            }),
        decreases *v,
    {
        reveal(t_stmt);
        reveal(t_declare_defs);
        reveal(t_def_bodies);
        reveal(t_expr);
        let ghost sc0 = self.scopes@;
        if self.scopes.bind_count() >= EMIT_LIMIT {
            proof {
                reveal(t_stmt);
                assert(t_stmt(sc0, scope as int, *v) == EOut::Fail(CompileError::TooLarge));
            }
            return Err(CompileError::TooLarge);
        }
        let import_name: String = "import".to_string();
        proof {
            broadcast use vstd::string::to_string_from_display_ensures_for_str;

            assert(import_name@ == "import"@);
        }
        let import_id = self.scopes.declare_bind(&import_name);
        let ghost sc1 = self.scopes@;
        proof {
            assert(sc1 == declare_bind_m(sc0, "import"@));
        }
        match self.declare_defs(&v.definitions) {
            Ok(_) => {},
            Err(e) => {
                proof {
                    reveal(t_stmt);
                    assert(t_stmt(sc0, scope as int, *v) == EOut::Fail(e));
                }
                return Err(e);
            },
        }
        let ghost sc2 = self.scopes@;
        let base = import_id + 1;
        proof {
            lemma_declare_defs_props(sc1, v.definitions@);
            assert(base as int == sc1.cnt);
            assert(v.definitions@.len() == 0 || base as int + v.definitions@.len()
                <= EMIT_LIMIT);
        }
        let bodies = match self.translate_def_bodies(scope, &v.definitions, base) {
            Ok(c) => c,
            Err(e) => {
                proof {
                    reveal(t_stmt);
                    assert(t_stmt(sc0, scope as int, *v) == EOut::Fail(e));
                }
                return Err(e);
            },
        };
        let mut trailing = match self.translate_expression(scope, &v.body) {
            Ok(c) => c,
            Err(e) => {
                proof {
                    reveal(t_stmt);
                    assert(t_stmt(sc0, scope as int, *v) == EOut::Fail(e));
                }
                return Err(e);
            },
        };
        let mut cmd: Vec<Cmd> = Vec::new();
        cmd.push(Cmd::Label(import_id, 1));
        cmd.push(Cmd::HostFunction(IMPORT_HOST));
        let mut bodies_mut = bodies;
        let ghost bodiesv = bodies_mut@;
        let ghost trailingv = trailing@;
        cmd.append(&mut bodies_mut);
        cmd.append(&mut trailing);
        proof {
            reveal(t_stmt);
            assert(cmds_view(cmd@) =~= seq![
                SCmd::Label(import_id as int, 1),
                SCmd::HostFunction(IMPORT_HOST as int),
            ] + cmds_view(bodiesv) + cmds_view(trailingv));
            assert(t_stmt(sc0, scope as int, *v) matches EOut::Emit { cmds: mc, sc: ms }
                && mc == cmds_view(cmd@) && ms == self.scopes@);
        }
        Ok(cmd)
    }

    /// Declare each parameter of a function literal at its positional
    /// index in the newest frame, rejecting duplicate names.
    #[verifier::loop_isolation(false)]
    #[verifier::rlimit(30)]
    pub(crate) fn declare_params(&mut self, params: &Vec<String>) -> (r: Result<(), CompileError>)
        requires
            frames_wf(old(self).scopes@.frames),
            old(self).scopes@.frames.len() > 0,
        ensures
            frames_wf(final(self).scopes@.frames),
            final(self).scopes@.frames.len() == old(self).scopes@.frames.len(),
            (match r {
                Ok(_) => t_params(old(self).scopes@, params@, 0) == ESc::Next(final(self).scopes@),
                Err(e) => t_params(old(self).scopes@, params@, 0) == ESc::Fail(e),
            }),
    {
        let ghost scf = self.scopes@;
        let ghost pars = params@;
        let mut k: usize = 0;
        while k < params.len()
            invariant
                k <= params.len(),
                frames_wf(self.scopes@.frames),
                self.scopes@.frames.len() == scf.frames.len(),
                (match t_params(self.scopes@, pars, k as int) {
                    ESc::Next(scp) => t_params(scf, pars, 0) == ESc::Next(scp),
                    ESc::Fail(e) => t_params(scf, pars, 0) == ESc::Fail(e),
                }),
            decreases params.len() - k,
        {
            let ghost sc_k = self.scopes@;
            if self.scopes.declared_in_last(&params[k]) {
                proof {
                    reveal(t_params);
                    assert(t_params(sc_k, pars, k as int) == ESc::Fail(
                        CompileError::DuplicateParameter(pars[k as int]),
                    ));
                }
                return Err(CompileError::DuplicateParameter(params[k].clone()));
            }
            self.scopes.declare_arg(&params[k], k);
            proof {
                reveal(t_params);
                assert(t_params(sc_k, pars, k as int) == t_params(
                    self.scopes@,
                    pars,
                    k as int + 1,
                ));
            }
            k = k + 1;
        }
        proof {
            reveal(t_params);
            assert(t_params(self.scopes@, pars, k as int) == ESc::Next(self.scopes@));
        }
        Ok(())
    }

    /// Emit a function literal: declare its parameters in a forked call
    /// scope, compile the body there, and prefix the construction opcode.
    #[verifier::rlimit(50)]
    #[verifier::spinoff_prover]
    pub(crate) fn translate_function(
        &mut self,
        scope: usize,
        params: &Vec<String>,
        body: &Expression,
    ) -> (r: Result<Vec<Cmd>, CompileError>)
        requires
            frames_wf(old(self).scopes@.frames),
            (scope as int) < old(self).scopes@.frames.len(),
        ensures
            frames_wf(final(self).scopes@.frames),
            final(self).scopes@.frames.len() >= old(self).scopes@.frames.len(),
            (match r {
                Ok(cmds) => {
                    &&& t_function(old(self).scopes@, scope as int, params@, *body)
                        matches EOut::Emit { cmds: mc, sc: ms }
                    &&& mc == cmds_view(cmds@)
                    &&& ms == final(self).scopes@
                },
                Err(e) => t_function(old(self).scopes@, scope as int, params@, *body)
                    == EOut::Fail(e),
            }),
        decreases *body, 4int,
    {
        let ghost sc0 = self.scopes@;
        let ghost pars = params@;
        let child = self.scopes.fork(scope);
        match self.declare_params(params) {
            Ok(_) => {},
            Err(e) => {
                proof {
                    reveal(t_function);
                    assert(t_function(sc0, scope as int, pars, *body) == EOut::Fail(e));
                }
                return Err(e);
            },
        }
        let mut bcmds = match self.translate_expression(child, body) {
            Ok(c) => c,
            Err(e) => {
                proof {
                    reveal(t_function);
                    assert(t_function(sc0, scope as int, pars, *body) == EOut::Fail(e));
                }
                return Err(e);
            },
        };
        let ghost bcv = bcmds@;
        let mut cmd: Vec<Cmd> = Vec::new();
        cmd.push(Cmd::ConstructFunction(params.len(), bcmds.len()));
        cmd.append(&mut bcmds);
        proof {
            reveal(t_function);
            assert(cmds_view(cmd@) =~= seq![
                SCmd::ConstructFunction(pars.len() as int, cmds_view(bcv).len() as int),
            ] + cmds_view(bcv));
            assert(t_function(sc0, scope as int, pars, *body) matches EOut::Emit {
                cmds: mc,
                sc: ms,
            } && mc == cmds_view(cmd@) && ms == self.scopes@);
        }
        Ok(cmd)
    }

    /// Emit a struct literal: fork a scope, hand each field a fresh bind
    /// id, emit the field bodies as labels, and close with the mapping.
    #[verifier::loop_isolation(false)]
    #[verifier::rlimit(100)]
    #[verifier::spinoff_prover]
    pub(crate) fn translate_struct(
        &mut self,
        scope: usize,
        defs: &Vec<(String, Expression)>,
    ) -> (r: Result<Vec<Cmd>, CompileError>)
        requires
            frames_wf(old(self).scopes@.frames),
            (scope as int) < old(self).scopes@.frames.len(),
        ensures
            frames_wf(final(self).scopes@.frames),
            final(self).scopes@.frames.len() >= old(self).scopes@.frames.len(),
            (match r {
                Ok(cmds) => {
                    &&& t_struct(old(self).scopes@, scope as int, defs@) matches EOut::Emit {
                        cmds: mc,
                        sc: ms,
                    }
                    &&& mc == cmds_view(cmds@)
                    &&& ms == final(self).scopes@
                },
                Err(e) => t_struct(old(self).scopes@, scope as int, defs@) == EOut::Fail(e),
            }),
        decreases *defs, 1int,
    {
        reveal(t_struct);
        reveal(t_declare_defs);
        reveal(t_def_bodies);
        let ghost sc0 = self.scopes@;
        let child = self.scopes.fork(scope);
        let ghost sc1 = self.scopes@;
        let base = self.scopes.bind_count();
        let ghost defseq = defs@;
        let mut map: Vec<(String, usize)> = Vec::new();
        proof {
            assert(map@.map_values(|p: (String, usize)| (p.0@, p.1 as int)) =~= struct_map(
                defseq,
                sc1.cnt,
            ).take(0));
            assert(defseq.skip(0) =~= defseq);
        }
        let mut i: usize = 0;
        while i < defs.len()
            invariant
                i <= defs.len(),
                frames_wf(self.scopes@.frames),
                self.scopes@.frames.len() == sc1.frames.len(),
                base as int == sc1.cnt,
                self.scopes@.cnt == sc1.cnt + i,
                map@.map_values(|p: (String, usize)| (p.0@, p.1 as int)) == struct_map(
                    defseq,
                    sc1.cnt,
                ).take(i as int),
                (match t_declare_defs(self.scopes@, defseq.skip(i as int)) {
                    ESc::Next(scd) => t_declare_defs(sc1, defseq) == ESc::Next(scd),
                    ESc::Fail(e) => t_declare_defs(sc1, defseq) == ESc::Fail(e),
                }),
            decreases defs.len() - i,
        {
            let ghost sc_i = self.scopes@;
            let ghost map_i = map@;
            proof {
                lemma_skip_step(defseq, i as int);
            }
            if self.scopes.bind_count() >= EMIT_LIMIT {
                proof {
                    reveal(t_declare_defs);
                    assert(t_declare_defs(sc_i, defseq.skip(i as int)) == ESc::Fail(
                        CompileError::TooLarge,
                    ));
                    assert(t_struct(sc0, scope as int, defseq) == EOut::Fail(
                        CompileError::TooLarge,
                    ));
                }
                return Err(CompileError::TooLarge);
            }
            map.push((defs[i].0.clone(), base + i));
            self.scopes.declare_bind(&defs[i].0);
            proof {
                reveal(t_declare_defs);
                assert(t_declare_defs(sc_i, defseq.skip(i as int)) == t_declare_defs(
                    self.scopes@,
                    defseq.skip(i as int + 1),
                ));
                assert(map@.map_values(|p: (String, usize)| (p.0@, p.1 as int)) =~= struct_map(
                    defseq,
                    sc1.cnt,
                ).take(i as int + 1));
            }
            i = i + 1;
        }
        let ghost sc2 = self.scopes@;
        proof {
            reveal(t_declare_defs);
            assert(defseq.skip(i as int) =~= Seq::<(String, Expression)>::empty());
            assert(t_declare_defs(sc2, defseq.skip(i as int)) == ESc::Next(sc2));
            assert(t_declare_defs(sc1, defseq) == ESc::Next(sc2));
            lemma_declare_defs_props(sc1, defseq);
            assert(defseq.len() == 0 || base as int + defseq.len() <= EMIT_LIMIT);
        }
        let bodies = match self.translate_def_bodies(child, defs, base) {
            Ok(c) => c,
            Err(e) => {
                proof {
                    assert(t_struct(sc0, scope as int, defseq) == EOut::Fail(e));
                }
                return Err(e);
            },
        };
        let mut cmd = bodies;
        let ghost cmdv = cmd@;
        cmd.push(Cmd::StructAddr(map));
        proof {
            lemma_cmds_view_push(cmdv, Cmd::StructAddr(map));
            assert(struct_map(defseq, sc1.cnt).take(defseq.len() as int) =~= struct_map(
                defseq,
                sc1.cnt,
            ));
            assert(cmds_view(cmd@) =~= cmds_view(cmdv) + seq![
                SCmd::StructAddr(struct_map(defseq, sc1.cnt)),
            ]);
            assert(t_struct(sc0, scope as int, defseq) matches EOut::Emit { cmds: mc, sc: ms }
                && mc == cmds_view(cmd@) && ms == self.scopes@);
        }
        Ok(cmd)
    }

    /// Emit an array literal: one zero-parameter thunk per element, then
    /// the collecting opcode.
    #[verifier::loop_isolation(false)]
    #[verifier::rlimit(100)]
    #[verifier::spinoff_prover]
    pub(crate) fn translate_array(&mut self, scope: usize, items: &Vec<Expression>) -> (r: Result<
        Vec<Cmd>,
        CompileError,
    >)
        requires
            frames_wf(old(self).scopes@.frames),
            (scope as int) < old(self).scopes@.frames.len(),
        ensures
            frames_wf(final(self).scopes@.frames),
            final(self).scopes@.frames.len() >= old(self).scopes@.frames.len(),
            (match r {
                Ok(cmds) => {
                    &&& t_array(old(self).scopes@, scope as int, items@) matches EOut::Emit {
                        cmds: mc,
                        sc: ms,
                    }
                    &&& mc == cmds_view(cmds@)
                    &&& ms == final(self).scopes@
                },
                Err(e) => t_array(old(self).scopes@, scope as int, items@) == EOut::Fail(e),
            }),
        decreases *items, 1int,
    {
        let ghost sc0 = self.scopes@;
        let ghost itemseq = items@;
        let mut cmd: Vec<Cmd> = Vec::new();
        proof {
            assert(cmds_view(cmd@) =~= Seq::<SCmd>::empty());
            assert(match t_array_items(self.scopes@, scope as int, itemseq, 0) {
                EOut::Emit { cmds: rest, sc: scf } => {
                    &&& t_array_items(sc0, scope as int, itemseq, 0) matches EOut::Emit {
                        cmds: mc,
                        sc: ms,
                    }
                    &&& mc == cmds_view(cmd@) + rest
                    &&& ms == scf
                },
                EOut::Fail(e) => t_array_items(sc0, scope as int, itemseq, 0) == EOut::Fail(e),
            }) by {
                match t_array_items(sc0, scope as int, itemseq, 0) {
                    EOut::Emit { cmds: rest, sc: _ } => {
                        assert(cmds_view(cmd@) + rest =~= rest);
                    },
                    EOut::Fail(_) => {},
                }
            }
        }
        let mut k: usize = 0;
        while k < items.len()
            invariant
                k <= items.len(),
                frames_wf(self.scopes@.frames),
                self.scopes@.frames.len() >= sc0.frames.len(),
                (match t_array_items(self.scopes@, scope as int, itemseq, k as int) {
                    EOut::Emit { cmds: rest, sc: scf } => {
                        &&& t_array_items(sc0, scope as int, itemseq, 0) matches EOut::Emit {
                            cmds: mc,
                            sc: ms,
                        }
                        &&& mc == cmds_view(cmd@) + rest
                        &&& ms == scf
                    },
                    EOut::Fail(e) => t_array_items(sc0, scope as int, itemseq, 0)
                        == EOut::Fail(e),
                }),
            decreases items.len() - k,
        {
            let ghost sc_k = self.scopes@;
            let ghost cmd_k = cmd@;
            let mut icmds = match self.translate_expression(scope, &items[k]) {
                Ok(c) => c,
                Err(e) => {
                    proof {
                        reveal(t_array);
                        reveal(t_array_items);
                        assert(t_array_items(sc_k, scope as int, itemseq, k as int)
                            == EOut::Fail(e));
                        assert(t_array(sc0, scope as int, itemseq) == EOut::Fail(e));
                    }
                    return Err(e);
                },
            };
            let ghost icv = icmds@;
            cmd.push(Cmd::ConstructFunction(0, icmds.len()));
            cmd.append(&mut icmds);
            proof {
                reveal(t_array_items);
                let scmds = seq![SCmd::ConstructFunction(0, cmds_view(icv).len() as int)]
                    + cmds_view(icv);
                assert(cmds_view(cmd@) =~= cmds_view(cmd_k) + scmds);
                match t_array_items(self.scopes@, scope as int, itemseq, k as int + 1) {
                    EOut::Emit { cmds: rest, sc: _ } => {
                        assert(cmds_view(cmd_k) + (scmds + rest) =~= cmds_view(cmd@) + rest);
                    },
                    EOut::Fail(_) => {},
                }
                assert(match t_array_items(self.scopes@, scope as int, itemseq, k as int + 1) {
                    EOut::Emit { cmds: rest, sc: scf } => {
                        &&& t_array_items(sc0, scope as int, itemseq, 0) matches EOut::Emit {
                            cmds: mc,
                            sc: ms,
                        }
                        &&& mc == cmds_view(cmd@) + rest
                        &&& ms == scf
                    },
                    EOut::Fail(e) => t_array_items(sc0, scope as int, itemseq, 0)
                        == EOut::Fail(e),
                });
            }
            k = k + 1;
        }
        let ghost cmdv = cmd@;
        cmd.push(Cmd::ArrayConst(items.len()));
        proof {
            reveal(t_array);
            reveal(t_array_items);
            assert(t_array_items(self.scopes@, scope as int, itemseq, k as int) == (EOut::Emit {
                cmds: Seq::<SCmd>::empty(),
                sc: self.scopes@,
            }));
            assert(cmds_view(cmdv) + Seq::<SCmd>::empty() =~= cmds_view(cmdv));
            lemma_cmds_view_push(cmdv, Cmd::ArrayConst(items.len()));
            assert(cmds_view(cmd@) =~= cmds_view(cmdv) + seq![
                SCmd::ArrayConst(itemseq.len() as int),
            ]);
            assert(t_array(sc0, scope as int, itemseq) matches EOut::Emit { cmds: mc, sc: ms }
                && mc == cmds_view(cmd@) && ms == self.scopes@);
        }
        Ok(cmd)
    }

    /// Emit one primary form.
    #[verifier::rlimit(50)]
    #[verifier::spinoff_prover]
    pub(crate) fn translate_primary(&mut self, scope: usize, v: &Primary) -> (r: Result<
        Vec<Cmd>,
        CompileError,
    >)
        requires
            frames_wf(old(self).scopes@.frames),
            (scope as int) < old(self).scopes@.frames.len(),
        ensures
            frames_wf(final(self).scopes@.frames),
            final(self).scopes@.frames.len() >= old(self).scopes@.frames.len(),
            (match r {
                Ok(cmds) => {
                    &&& t_primary(old(self).scopes@, scope as int, *v) matches EOut::Emit {
                        cmds: mc,
                        sc: ms,
                    }
                    &&& mc == cmds_view(cmds@)
                    &&& ms == final(self).scopes@
                },
                Err(e) => t_primary(old(self).scopes@, scope as int, *v) == EOut::Fail(e),
            }),
        decreases *v, 3int,
    {
        reveal(t_primary);
        reveal(t_stmt);
        reveal(t_function);
        reveal(t_struct);
        reveal(t_array);
        let ghost sc0 = self.scopes@;
        match v {
            Primary::Number(n) => {
                let mut cmd: Vec<Cmd> = Vec::new();
                cmd.push(Cmd::NumberConst(*n));
                proof {
                    assert(cmds_view(cmd@) =~= seq![SCmd::NumberConst(*n)]);
                    assert(t_primary(sc0, scope as int, *v) matches EOut::Emit {
                        cmds: mc,
                        sc: ms,
                    } && mc == cmds_view(cmd@) && ms == self.scopes@);
                }
                Ok(cmd)
            },
            Primary::Text(s) => {
                let mut cmd: Vec<Cmd> = Vec::new();
                cmd.push(Cmd::StringConst(s.clone()));
                proof {
                    assert(cmds_view(cmd@) =~= seq![SCmd::StringConst(s@)]);
                    assert(t_primary(sc0, scope as int, *v) matches EOut::Emit {
                        cmds: mc,
                        sc: ms,
                    } && mc == cmds_view(cmd@) && ms == self.scopes@);
                }
                Ok(cmd)
            },
            Primary::Variable(name) => {
                let res = self.translate_identifier(scope, name);
                proof {
                    assert(t_primary(sc0, scope as int, *v) == t_ident(sc0, scope as int, *name));
                }
                res
            },
            Primary::Block(stmt) => {
                let child = self.scopes.fork(scope);
                let res = self.translate(child, &**stmt);
                proof {
                    assert(t_primary(sc0, scope as int, *v) == t_stmt(
                        fork_m(sc0, scope as int),
                        sc0.frames.len() as int,
                        **stmt,
                    ));
                }
                res
            },
            Primary::Function(params, body) => {
                let res = self.translate_function(scope, params, &**body);
                proof {
                    assert(t_primary(sc0, scope as int, *v) == t_function(
                        sc0,
                        scope as int,
                        params@,
                        **body,
                    ));
                }
                res
            },
            Primary::Struct(defs) => {
                let res = self.translate_struct(scope, defs);
                proof {
                    assert(t_primary(sc0, scope as int, *v) == t_struct(sc0, scope as int, defs@));
                }
                res
            },
            Primary::Array(items) => {
                let res = self.translate_array(scope, items);
                proof {
                    assert(t_primary(sc0, scope as int, *v) == t_array(sc0, scope as int, items@));
                }
                res
            },
        }
    }

}

/// Compile one unit from a fresh resolver: the public entry point of the
/// emitter.  The result is exactly the mathematical translation
/// [`compile_m`] of the tree; compiling the same tree twice from the same
/// starting state therefore yields identical opcode sequences.
pub fn get_cmd(ast: &Statement) -> (r: Result<Vec<Cmd>, CompileError>)
    ensures
        (match compile_m(*ast) {
            EOut::Emit { cmds, sc } => {
                &&& r matches Ok(c)
                &&& cmds_view(c@) == cmds
            },
            EOut::Fail(e) => r == Err::<Vec<Cmd>, CompileError>(e),
        }),
{
    let mut translator = Translator::new();
    translator.translate(0, ast)
}

/// Law: the conditional layout keeps its two branches mutually exclusive
/// for every possible branch length.  The emitted stream is
/// `cond ; JumpRelIf(over alt) ; alt ; JumpRel(over cons) ; cons`.  Taken
/// on a true condition, the conditional jump lands exactly on the first
/// instruction of the consequent; falling through lands on the first
/// instruction of the alternate; and the alternate's trailing jump lands
/// exactly one past the last instruction of the whole form, so no path
/// through the stream enters both branch ranges.
pub proof fn lemma_if_layout(
    sc: SScopes,
    scope: int,
    e: Expression,
    ccmds: Seq<SCmd>,
    sc1: SScopes,
    conscmds: Seq<SCmd>,
    sc2: SScopes,
    altcmds: Seq<SCmd>,
    sc3: SScopes,
)
    requires
        e is If,
        t_expr(sc, scope, *e->cond) == (EOut::Emit { cmds: ccmds, sc: sc1 }),
        t_expr(sc1, scope, *e->cons) == (EOut::Emit { cmds: conscmds, sc: sc2 }),
        t_expr(sc2, scope, *e->alt) == (EOut::Emit { cmds: altcmds, sc: sc3 }),
        conscmds.len() < EMIT_LIMIT,
        altcmds.len() < EMIT_LIMIT,
    ensures
        ({
            let q = ccmds.len() as int;
            let astart = q + 1;
            let aend = astart + altcmds.len();
            let cstart = aend + 1;
            &&& t_expr(sc, scope, e) matches EOut::Emit { cmds, sc: mf }
            &&& cmds.len() == cstart + conscmds.len()
            &&& cmds[q] == SCmd::JumpRelIf(altcmds.len() as int + 2)
            &&& q + (altcmds.len() + 2) == cstart
            &&& cmds.subrange(astart, aend) == altcmds
            &&& cmds[aend] == SCmd::JumpRel(conscmds.len() as int + 1)
            &&& aend + (conscmds.len() + 1) == cmds.len()
            &&& cmds.subrange(cstart, cmds.len() as int) == conscmds
            &&& mf == sc3
        }),
{
    reveal(t_expr);
    let q = ccmds.len() as int;
    let astart = q + 1;
    let aend = astart + altcmds.len() as int;
    let cstart = aend + 1;
    let whole = ccmds + seq![SCmd::JumpRelIf(altcmds.len() as int + 2)] + altcmds + seq![
        SCmd::JumpRel(conscmds.len() as int + 1),
    ] + conscmds;
    assert(t_expr(sc, scope, e) == (EOut::Emit { cmds: whole, sc: sc3 }));
    assert(whole.subrange(astart, aend) =~= altcmds);
    assert(whole.subrange(cstart, whole.len() as int) =~= conscmds);
}

/// The translation of a number literal standing alone as one operand:
/// exactly one push-constant opcode, with the resolver state untouched.
pub proof fn lemma_literal_operand_shape(sc: SScopes, scope: int, m: Multitive, a: i64)
    requires
        m.left.left == Primary::Number(a),
        m.left.rights@.len() == 0,
        m.rights@.len() == 0,
    ensures
        t_multitive(sc, scope, m) == (EOut::Emit { cmds: seq![SCmd::NumberConst(a)], sc }),
{
    reveal(t_multitive);
    reveal(t_mul_rights);
    reveal(t_operation);
    reveal(t_op_rights);
    reveal(t_primary);
    assert(t_primary(sc, scope, m.left.left) == (EOut::Emit {
        cmds: seq![SCmd::NumberConst(a)],
        sc,
    }));
    assert(t_op_rights(sc, scope, m.left.rights@, 0) == (EOut::Emit {
        cmds: Seq::<SCmd>::empty(),
        sc,
    }));
    assert(seq![SCmd::NumberConst(a)] + Seq::<SCmd>::empty() =~= seq![SCmd::NumberConst(a)]);
    assert(t_operation(sc, scope, m.left) == (EOut::Emit {
        cmds: seq![SCmd::NumberConst(a)],
        sc,
    }));
    assert(t_mul_rights(sc, scope, m.rights@, 0) == (EOut::Emit {
        cmds: Seq::<SCmd>::empty(),
        sc,
    }));
}

/// Law: an arithmetic pair of number literals compiles to exactly "push
/// the left literal, push the right literal, apply the operator", for
/// either additive operator, with the resolver state untouched.  The
/// operand order and the single trailing opcode realise the left
/// associative evaluation order of the chain.
pub proof fn lemma_additive_pair_shape(sc: SScopes, scope: int, v: Additive, a: i64, b: i64)
    requires
        v.left.left.left == Primary::Number(a),
        v.left.left.rights@.len() == 0,
        v.left.rights@.len() == 0,
        v.rights@.len() == 1,
        (match v.rights@[0] {
            AdditiveRight::Add(m) => m.left.left == Primary::Number(b) && m.left.rights@.len()
                == 0 && m.rights@.len() == 0,
            AdditiveRight::Sub(m) => m.left.left == Primary::Number(b) && m.left.rights@.len()
                == 0 && m.rights@.len() == 0,
        }),
    ensures
        t_additive(sc, scope, v) == (EOut::Emit {
            cmds: seq![
                SCmd::NumberConst(a),
                SCmd::NumberConst(b),
                (match v.rights@[0] {
                    AdditiveRight::Add(_) => SCmd::Add,
                    AdditiveRight::Sub(_) => SCmd::Sub,
                }),
            ],
            sc,
        }),
{
    reveal(t_additive);
    reveal(t_add_rights);
    lemma_literal_operand_shape(sc, scope, v.left, a);
    let op = (match v.rights@[0] {
        AdditiveRight::Add(_) => SCmd::Add,
        AdditiveRight::Sub(_) => SCmd::Sub,
    });
    match v.rights@[0] {
        AdditiveRight::Add(m) => {
            lemma_literal_operand_shape(sc, scope, m, b);
        },
        AdditiveRight::Sub(m) => {
            lemma_literal_operand_shape(sc, scope, m, b);
        },
    }
    assert(t_add_rights(sc, scope, v.rights@, 1) == (EOut::Emit {
        cmds: Seq::<SCmd>::empty(),
        sc,
    }));
    assert(t_add_rights(sc, scope, v.rights@, 0) == (EOut::Emit {
        cmds: seq![SCmd::NumberConst(b)] + seq![op] + Seq::<SCmd>::empty(),
        sc,
    }));
    assert(seq![SCmd::NumberConst(a)] + (seq![SCmd::NumberConst(b)] + seq![op]
        + Seq::<SCmd>::empty()) =~= seq![SCmd::NumberConst(a), SCmd::NumberConst(b), op]);
}

/// Law: the same for the multiplicative operators: a pair of number
/// literals under multiplication, division or remainder compiles to
/// "push left, push right, apply", with the resolver state untouched.
pub proof fn lemma_multitive_pair_shape(sc: SScopes, scope: int, v: Multitive, a: i64, b: i64)
    requires
        v.left.left == Primary::Number(a),
        v.left.rights@.len() == 0,
        v.rights@.len() == 1,
        (match v.rights@[0] {
            MultitiveRight::Mul(o) => o.left == Primary::Number(b) && o.rights@.len() == 0,
            MultitiveRight::Div(o) => o.left == Primary::Number(b) && o.rights@.len() == 0,
            MultitiveRight::Surplus(o) => o.left == Primary::Number(b) && o.rights@.len() == 0,
        }),
    ensures
        t_multitive(sc, scope, v) == (EOut::Emit {
            cmds: seq![
                SCmd::NumberConst(a),
                SCmd::NumberConst(b),
                (match v.rights@[0] {
                    MultitiveRight::Mul(_) => SCmd::Mul,
                    MultitiveRight::Div(_) => SCmd::Div,
                    MultitiveRight::Surplus(_) => SCmd::Surplus,
                }),
            ],
            sc,
        }),
{
    reveal(t_multitive);
    reveal(t_mul_rights);
    reveal(t_operation);
    reveal(t_op_rights);
    reveal(t_primary);
    assert(t_primary(sc, scope, v.left.left) == (EOut::Emit {
        cmds: seq![SCmd::NumberConst(a)],
        sc,
    }));
    assert(t_op_rights(sc, scope, v.left.rights@, 0) == (EOut::Emit {
        cmds: Seq::<SCmd>::empty(),
        sc,
    }));
    assert(seq![SCmd::NumberConst(a)] + Seq::<SCmd>::empty() =~= seq![SCmd::NumberConst(a)]);
    assert(t_operation(sc, scope, v.left) == (EOut::Emit {
        cmds: seq![SCmd::NumberConst(a)],
        sc,
    }));
    let op = (match v.rights@[0] {
        MultitiveRight::Mul(_) => SCmd::Mul,
        MultitiveRight::Div(_) => SCmd::Div,
        MultitiveRight::Surplus(_) => SCmd::Surplus,
    });
    match v.rights@[0] {
        MultitiveRight::Mul(o) => {
            assert(t_operation(sc, scope, o) == (EOut::Emit {
                cmds: seq![SCmd::NumberConst(b)],
                sc,
            })) by {
                assert(t_op_rights(sc, scope, o.rights@, 0) == (EOut::Emit {
                    cmds: Seq::<SCmd>::empty(),
                    sc,
                }));
                assert(seq![SCmd::NumberConst(b)] + Seq::<SCmd>::empty()
                    =~= seq![SCmd::NumberConst(b)]);
            }
        },
        MultitiveRight::Div(o) => {
            assert(t_operation(sc, scope, o) == (EOut::Emit {
                cmds: seq![SCmd::NumberConst(b)],
                sc,
            })) by {
                assert(t_op_rights(sc, scope, o.rights@, 0) == (EOut::Emit {
                    cmds: Seq::<SCmd>::empty(),
                    sc,
                }));
                assert(seq![SCmd::NumberConst(b)] + Seq::<SCmd>::empty()
                    =~= seq![SCmd::NumberConst(b)]);
            }
        },
        MultitiveRight::Surplus(o) => {
            assert(t_operation(sc, scope, o) == (EOut::Emit {
                cmds: seq![SCmd::NumberConst(b)],
                sc,
            })) by {
                assert(t_op_rights(sc, scope, o.rights@, 0) == (EOut::Emit {
                    cmds: Seq::<SCmd>::empty(),
                    sc,
                }));
                assert(seq![SCmd::NumberConst(b)] + Seq::<SCmd>::empty()
                    =~= seq![SCmd::NumberConst(b)]);
            }
        },
    }
    assert(t_mul_rights(sc, scope, v.rights@, 1) == (EOut::Emit {
        cmds: Seq::<SCmd>::empty(),
        sc,
    }));
    assert(t_mul_rights(sc, scope, v.rights@, 0) == (EOut::Emit {
        cmds: seq![SCmd::NumberConst(b)] + seq![op] + Seq::<SCmd>::empty(),
        sc,
    }));
    assert(seq![SCmd::NumberConst(a)] + (seq![SCmd::NumberConst(b)] + seq![op]
        + Seq::<SCmd>::empty()) =~= seq![SCmd::NumberConst(a), SCmd::NumberConst(b), op]);
}

} // verus!

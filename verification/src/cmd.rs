//! The instruction set of the abstract stack machine.
//!
//! A compiled program is a flat `Vec<Cmd>`.  Control flow uses only
//! relative jumps; the call convention is built from address values that
//! live on the operand stack, not from a dedicated call instruction.

use vstd::prelude::*;

verus! {

/// The largest instruction count and bind count one compilation unit may
/// reach; a unit that would grow past it is refused, which keeps every
/// address computation inside machine bounds.
pub const EMIT_LIMIT: usize = 0x7fff_ffff;

/// One opcode of the flat instruction stream.
#[derive(Debug)]
pub enum Cmd {
    /// Pop two numbers, push their sum (wrapping on overflow).
    Add,
    /// Pop two numbers, push their difference (wrapping on overflow).
    Sub,
    /// Pop two numbers, push their quotient; division by zero faults.
    Div,
    /// Pop two numbers, push their product (wrapping on overflow).
    Mul,
    /// Pop two numbers, push the remainder; a zero divisor faults.
    Surplus,
    /// Pop two values, push whether they are equal.
    Equal,
    /// Pop two values, push whether they differ.
    NotEqual,
    /// Push the argument at `(index, lexical depth)` of the current frame chain.
    Load(usize, usize),
    /// Push a number constant.
    NumberConst(i64),
    /// Push a string constant.
    StringConst(String),
    /// Pop this many element thunks, push them as one list value.
    ArrayConst(usize),
    /// Push a closure with `(arity, body length)`; the body follows and is
    /// skipped over by straight-line flow.
    ConstructFunction(usize, usize),
    /// Push the host callable with this identifier.
    HostFunction(usize),
    /// Push a struct value carrying this field-name-to-bind-id mapping.
    StructAddr(Vec<(String, usize)>),
    /// Marker for the label body of bind `(id, body length)`; straight-line
    /// flow skips the body.
    Label(usize, usize),
    /// Push the address of the label body with this bind id.
    LabelAddr(usize),
    /// Jump this many instructions forward.
    JumpRel(usize),
    /// Pop a boolean; jump this many instructions forward when it is true.
    JumpRelIf(usize),
    /// Pop this many arguments and then the callee; transfer control.
    Call(usize),
    /// Pop an index and a base value, push the selected element thunk.
    Index,
    /// Pop a field name and a base value, push the field's thunk address.
    Access,
}

/// The mathematical image of one opcode: strings become character
/// sequences and machine integers become unbounded integers.
pub enum SCmd {
    Add,
    Sub,
    Div,
    Mul,
    Surplus,
    Equal,
    NotEqual,
    Load(int, int),
    NumberConst(i64),
    StringConst(Seq<char>),
    ArrayConst(int),
    ConstructFunction(int, int),
    HostFunction(int),
    StructAddr(Seq<(Seq<char>, int)>),
    Label(int, int),
    LabelAddr(int),
    JumpRel(int),
    JumpRelIf(int),
    Call(int),
    Index,
    Access,
}

impl View for Cmd {
    type V = SCmd;

    open spec fn view(&self) -> SCmd {
        match self {
            Cmd::Add => SCmd::Add,
            Cmd::Sub => SCmd::Sub,
            Cmd::Div => SCmd::Div,
            Cmd::Mul => SCmd::Mul,
            Cmd::Surplus => SCmd::Surplus,
            Cmd::Equal => SCmd::Equal,
            Cmd::NotEqual => SCmd::NotEqual,
            Cmd::Load(i, d) => SCmd::Load(*i as int, *d as int),
            Cmd::NumberConst(n) => SCmd::NumberConst(*n),
            Cmd::StringConst(s) => SCmd::StringConst(s@),
            Cmd::ArrayConst(n) => SCmd::ArrayConst(*n as int),
            Cmd::ConstructFunction(a, l) => SCmd::ConstructFunction(*a as int, *l as int),
            Cmd::HostFunction(h) => SCmd::HostFunction(*h as int),
            Cmd::StructAddr(m) => SCmd::StructAddr(
                m@.map_values(|p: (String, usize)| (p.0@, p.1 as int)),
            ),
            Cmd::Label(id, l) => SCmd::Label(*id as int, *l as int),
            Cmd::LabelAddr(id) => SCmd::LabelAddr(*id as int),
            Cmd::JumpRel(n) => SCmd::JumpRel(*n as int),
            Cmd::JumpRelIf(n) => SCmd::JumpRelIf(*n as int),
            Cmd::Call(n) => SCmd::Call(*n as int),
            Cmd::Index => SCmd::Index,
            Cmd::Access => SCmd::Access,
        }
    }
}

/// The mathematical image of an emitted instruction sequence.
pub open spec fn cmds_view(s: Seq<Cmd>) -> Seq<SCmd> {
    s.map_values(|c: Cmd| c@)
}

pub proof fn lemma_cmds_view_add(a: Seq<Cmd>, b: Seq<Cmd>)
    ensures
        cmds_view(a + b) == cmds_view(a) + cmds_view(b),
{
    assert(cmds_view(a + b) =~= cmds_view(a) + cmds_view(b));
}

pub proof fn lemma_cmds_view_push(a: Seq<Cmd>, c: Cmd)
    ensures
        cmds_view(a.push(c)) == cmds_view(a).push(c@),
{
    assert(cmds_view(a.push(c)) =~= cmds_view(a).push(c@));
}

} // verus!

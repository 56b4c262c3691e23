//! The abstract stack machine: interprets the instruction stream against
//! an operand stack, executing calls and returns via explicit address
//! values on the stack rather than a hardware call stack.
//!
//! The call convention is built from data-plane operations alone: calling
//! pushes a return record — the `(return address, call boundary, caller
//! frame)` triple — onto the same operand stack that holds ordinary
//! values, and control returns when the instruction pointer reaches the
//! callee's end boundary, popping the single result over the record.
//! Label bodies are skipped by straight-line flow, so falling through a
//! block never re-executes its definitions; a definition runs only when a
//! reference forces its label, once per reference.
//!
//! Argument frames and list payloads live in arenas addressed by index,
//! so every runtime value is a flat tag: a number, a string, a boolean,
//! or a reference into the program or an arena.  Calling a host callable
//! pauses the machine with the materialised argument list; the host hands
//! the single result back through [`Executor::resume`].
//!
//! Numbers are 64-bit signed integers; addition, subtraction and
//! multiplication wrap on overflow, and a zero divisor or an overflowing
//! division is an ill-typed operation that faults the run.  Every step of
//! the executable machine is exactly one step of the spec-level machine
//! [`step_m`].

use vstd::prelude::*;
use vstd::arithmetic::div_mod::lemma_fundamental_div_mod;
use crate::cmd::Cmd;

verus! {

/// A runtime value.  Structs, closures, lists, host callables and
/// addresses are flat references: their payloads live in the program text
/// or in the machine's arenas.
#[derive(Debug)]
pub enum Value {
    Number(i64),
    Text(String),
    Boolean(bool),
    /// A list, by its index in the list arena.
    ListRef(usize),
    /// A struct, by the program index of the `StructAddr` opcode that
    /// carries its field mapping.
    StructRef(usize),
    /// A closure: body range, declared parameter count, and the frame
    /// captured at construction, through which free variables resolve.
    Closure { addr: usize, len: usize, arity: usize, frame: Option<usize> },
    /// A host callable, by its identifier.
    HostCallable(usize),
    /// A label body's address range, as pushed by `LabelAddr` and
    /// `Access`; forced by a zero-argument call.
    Address { start: usize, end: usize },
    /// The return record of a call in progress: where to resume, the
    /// caller's call boundary, and the caller's frame.
    ReturnMark { ip: usize, end: usize, frame: Option<usize> },
}

/// An unrecoverable fault of the machine.
#[derive(Clone, Copy, PartialEq, Eq, Structural, Debug)]
pub enum RuntimeFault {
    /// An opcode met operands of the wrong kind, a zero divisor, an
    /// overflowing division, a jump or body that leaves the program, a
    /// missing struct field, or an argument slot that does not exist.
    TypeMismatch,
    /// A call's argument count differs from the callee's declared
    /// parameter count.
    ArityMismatch,
    /// An opcode needed more operands than the stack holds, or the run
    /// ended without exactly one result on the stack.
    StackUnderflow,
    /// A referenced bind id has no label in the program.
    UnresolvedLabel,
    /// A pending host call failed; the failure is fatal to the run that
    /// made it, as reported through [`Executor::abort_host`].
    HostBridgeFailure,
}

/// How a run ends, at the executable level.
#[derive(Debug)]
pub enum Outcome {
    /// The program ran off its end with exactly one value on the stack.
    Done(Value),
    /// An unrecoverable fault.
    Fault(RuntimeFault),
    /// A host callable was called: the machine pauses until the host
    /// hands the result back through [`Executor::resume`].
    Host { id: usize, args: Vec<Value> },
}

/// How a run ends, at the spec level.
#[verifier::ext_equal]
pub enum SOut {
    Done(Value),
    Fault(RuntimeFault),
}

/// One argument frame: the values bound at call entry and the defining
/// (not calling) frame through which free variables resolve.
#[verifier::ext_equal]
pub struct SRFrame {
    pub args: Seq<Value>,
    pub parent: Option<int>,
}

/// The spec-level machine state.
#[verifier::ext_equal]
pub struct MState {
    pub stack: Seq<Value>,
    pub frames: Seq<SRFrame>,
    pub lists: Seq<Seq<Value>>,
    pub ip: int,
    pub fp: Option<int>,
    pub end: int,
}

/// One spec-level step: a successor state, a pause for a host call, or
/// the end of the run.
#[verifier::ext_equal]
pub enum SStep {
    Next(MState),
    Host { id: int, args: Seq<Value>, next: MState },
    End(SOut),
}

/// Addition wrapping on 64-bit overflow.
pub open spec fn wrap_add(x: i64, y: i64) -> i64 {
    x.wrapping_add(y)
}

/// Subtraction wrapping on 64-bit overflow.
pub open spec fn wrap_sub(x: i64, y: i64) -> i64 {
    x.wrapping_sub(y)
}

/// Multiplication wrapping on 64-bit overflow.
pub open spec fn wrap_mul(x: i64, y: i64) -> i64 {
    x.wrapping_mul(y)
}

/// Truncating division as the machine's `/` computes it: the euclidean
/// quotient of the magnitudes, negated when the signs differ.
pub open spec fn tdiv(x: int, y: int) -> int {
    let ax = if x >= 0 { x } else { -x };
    let ay = if y >= 0 { y } else { -y };
    if (x >= 0) == (y >= 0) {
        ax / ay
    } else {
        -(ax / ay)
    }
}

/// Truncating remainder: the remainder of the magnitudes, carrying the
/// dividend's sign, as the machine's `%` computes it.
pub open spec fn tmod(x: int, y: int) -> int {
    let ax = if x >= 0 { x } else { -x };
    let ay = if y >= 0 { y } else { -y };
    if x >= 0 {
        ax % ay
    } else {
        -(ax % ay)
    }
}

/// Equality of runtime values: structural for numbers, strings and
/// booleans; identity of the referenced object for every other kind;
/// values of different kinds are always unequal, with no coercion.
pub open spec fn veq(a: Value, b: Value) -> bool {
    match (a, b) {
        (Value::Number(x), Value::Number(y)) => x == y,
        (Value::Text(x), Value::Text(y)) => x@ == y@,
        (Value::Boolean(x), Value::Boolean(y)) => x == y,
        (Value::ListRef(x), Value::ListRef(y)) => x == y,
        (Value::StructRef(x), Value::StructRef(y)) => x == y,
        (
            Value::Closure { addr: a1, len: l1, arity: r1, frame: f1 },
            Value::Closure { addr: a2, len: l2, arity: r2, frame: f2 },
        ) => a1 == a2 && l1 == l2 && r1 == r2 && f1 == f2,
        (Value::HostCallable(x), Value::HostCallable(y)) => x == y,
        (Value::Address { start: s1, end: e1 }, Value::Address { start: s2, end: e2 }) => s1 == s2
            && e1 == e2,
        _ => false,
    }
}

/// The result of a binary numeric step on a stack ending in `x`, `y`.
pub open spec fn arith_step(s: MState, x: i64, y: i64, op: Cmd) -> SStep {
    let rest = s.stack.take(s.stack.len() - 2);
    match op {
        Cmd::Add => SStep::Next(
            MState { stack: rest.push(Value::Number(wrap_add(x, y))), ip: s.ip + 1, ..s },
        ),
        Cmd::Sub => SStep::Next(
            MState { stack: rest.push(Value::Number(wrap_sub(x, y))), ip: s.ip + 1, ..s },
        ),
        Cmd::Mul => SStep::Next(
            MState { stack: rest.push(Value::Number(wrap_mul(x, y))), ip: s.ip + 1, ..s },
        ),
        Cmd::Div => if y == 0 || (x == i64::MIN && y == -1) {
            SStep::End(SOut::Fault(RuntimeFault::TypeMismatch))
        } else {
            SStep::Next(
                MState {
                    stack: rest.push(Value::Number(tdiv(x as int, y as int) as i64)),
                    ip: s.ip + 1,
                    ..s
                },
            )
        },
        Cmd::Surplus => if y == 0 || (x == i64::MIN && y == -1) {
            SStep::End(SOut::Fault(RuntimeFault::TypeMismatch))
        } else {
            SStep::Next(
                MState {
                    stack: rest.push(Value::Number(tmod(x as int, y as int) as i64)),
                    ip: s.ip + 1,
                    ..s
                },
            )
        },
        _ => SStep::End(SOut::Fault(RuntimeFault::TypeMismatch)),
    }
}

/// The argument at positional `index` of the frame `depth` hops outward
/// along the defining-scope chain from frame `fp`.
pub open spec fn lookup_arg(
    frames: Seq<SRFrame>,
    fp: Option<int>,
    depth: int,
    index: int,
) -> Option<Value>
    decreases depth,
{
    match fp {
        Option::None => Option::None,
        Option::Some(f) => if !(0 <= f < frames.len()) {
            Option::None
        } else if depth == 0 {
            if 0 <= index < frames[f].args.len() {
                Option::Some(frames[f].args[index])
            } else {
                Option::None
            }
        } else if depth > 0 {
            lookup_arg(frames, frames[f].parent, depth - 1, index)
        } else {
            Option::None
        },
    }
}

/// The first label in the program tagged with bind id `id`, at or after
/// `from`: its body range `(start, end)`.  A matching label whose body
/// would run past the program's end is no label at all.
pub open spec fn find_label(prog: Seq<Cmd>, id: int, from: int) -> Option<(int, int)>
    decreases prog.len() - from,
{
    if !(0 <= from < prog.len()) {
        Option::None
    } else {
        match prog[from] {
            Cmd::Label(l_id, l_len) => if l_id == id {
                if l_len <= prog.len() - from - 1 {
                    Option::Some((from + 1, from + 1 + l_len))
                } else {
                    Option::None
                }
            } else {
                find_label(prog, id, from + 1)
            },
            _ => find_label(prog, id, from + 1),
        }
    }
}

/// Search a struct's field mapping; the latest entry for a name wins,
/// matching the overwrite semantics of declaration.
pub open spec fn map_lookup(m: Seq<(String, usize)>, name: Seq<char>) -> Option<usize>
    decreases m.len(),
{
    if m.len() == 0 {
        Option::None
    } else if m.last().0@ == name {
        Option::Some(m.last().1)
    } else {
        map_lookup(m.drop_last(), name)
    }
}

/// The step that resolves a struct field: find the field's bind id in the
/// mapping carried at program index `addr`, then the label body it names,
/// and push that body's address to be forced by the following call.
pub open spec fn access_step(prog: Seq<Cmd>, s: MState, addr: int, name: Seq<char>) -> SStep {
    if !(0 <= addr < prog.len()) {
        SStep::End(SOut::Fault(RuntimeFault::TypeMismatch))
    } else {
        match prog[addr] {
            Cmd::StructAddr(m) => match map_lookup(m@, name) {
                Option::None => SStep::End(SOut::Fault(RuntimeFault::TypeMismatch)),
                Option::Some(id) => match find_label(prog, id as int, 0) {
                    Option::None => SStep::End(SOut::Fault(RuntimeFault::UnresolvedLabel)),
                    Option::Some((bs, be)) => if be > prog.len() {
                        SStep::End(SOut::Fault(RuntimeFault::TypeMismatch))
                    } else {
                        SStep::Next(
                            MState {
                                stack: s.stack.push(
                                    Value::Address { start: bs as usize, end: be as usize },
                                ),
                                ip: s.ip + 1,
                                ..s
                            },
                        )
                    },
                },
            },
            _ => SStep::End(SOut::Fault(RuntimeFault::TypeMismatch)),
        }
    }
}

/// The step that transfers control: pop the arguments and the callee, and
/// either jump into a label body or a closure body — pushing the return
/// record onto the operand stack — or pause for the host.
pub open spec fn call_step(prog: Seq<Cmd>, s: MState, n: int) -> SStep {
    if s.stack.len() < n + 1 {
        SStep::End(SOut::Fault(RuntimeFault::StackUnderflow))
    } else {
        let args = s.stack.subrange(s.stack.len() - n, s.stack.len() as int);
        let callee = s.stack[s.stack.len() - n - 1];
        let base = s.stack.take(s.stack.len() - n - 1);
        let mark = Value::ReturnMark {
            ip: (s.ip + 1) as usize,
            end: s.end as usize,
            frame: match s.fp {
                Option::Some(f) => Option::Some(f as usize),
                Option::None => Option::None,
            },
        };
        match callee {
            Value::Address { start, end } => if n != 0 {
                SStep::End(SOut::Fault(RuntimeFault::ArityMismatch))
            } else if !(start <= end && end <= prog.len()) {
                SStep::End(SOut::Fault(RuntimeFault::TypeMismatch))
            } else {
                SStep::Next(
                    MState { stack: base.push(mark), ip: start as int, end: end as int, ..s },
                )
            },
            Value::Closure { addr, len, arity, frame } => if n != arity {
                SStep::End(SOut::Fault(RuntimeFault::ArityMismatch))
            } else if addr + len > prog.len() {
                SStep::End(SOut::Fault(RuntimeFault::TypeMismatch))
            } else {
                SStep::Next(
                    MState {
                        stack: base.push(mark),
                        frames: s.frames.push(
                            SRFrame {
                                args,
                                parent: match frame {
                                    Option::Some(f) => Option::Some(f as int),
                                    Option::None => Option::None,
                                },
                            },
                        ),
                        ip: addr as int,
                        fp: Option::Some(s.frames.len() as int),
                        end: addr + len,
                        ..s
                    },
                )
            },
            Value::HostCallable(h) => SStep::Host {
                id: h as int,
                args,
                next: MState { stack: base, ip: s.ip + 1, ..s },
            },
            _ => SStep::End(SOut::Fault(RuntimeFault::TypeMismatch)),
        }
    }
}

/// The step at a call boundary: pop the single result over the return
/// record and resume the caller, or end the whole run when the boundary
/// is the program's own end and one value remains.
pub open spec fn boundary_step(s: MState) -> SStep {
    if s.stack.len() >= 2 && (s.stack[s.stack.len() - 2] is ReturnMark) {
        match s.stack[s.stack.len() - 2] {
            Value::ReturnMark { ip, end, frame } => SStep::Next(
                MState {
                    stack: s.stack.take(s.stack.len() - 2).push(s.stack.last()),
                    ip: ip as int,
                    fp: match frame {
                        Option::Some(f) => Option::Some(f as int),
                        Option::None => Option::None,
                    },
                    end: end as int,
                    ..s
                },
            ),
            _ => SStep::End(SOut::Fault(RuntimeFault::StackUnderflow)),
        }
    } else if s.stack.len() == 1 {
        SStep::End(SOut::Done(s.stack[0]))
    } else {
        SStep::End(SOut::Fault(RuntimeFault::StackUnderflow))
    }
}

/// One step of the machine on `prog` from state `s`.
pub open spec fn step_m(prog: Seq<Cmd>, s: MState) -> SStep {
    if s.ip == s.end {
        boundary_step(s)
    } else if !(0 <= s.ip < prog.len() && s.end <= prog.len()) {
        SStep::End(SOut::Fault(RuntimeFault::StackUnderflow))
    } else {
        match prog[s.ip] {
            Cmd::NumberConst(n) => SStep::Next(
                MState { stack: s.stack.push(Value::Number(n)), ip: s.ip + 1, ..s },
            ),
            Cmd::StringConst(st) => SStep::Next(
                MState { stack: s.stack.push(Value::Text(st)), ip: s.ip + 1, ..s },
            ),
            Cmd::HostFunction(h) => SStep::Next(
                MState { stack: s.stack.push(Value::HostCallable(h)), ip: s.ip + 1, ..s },
            ),
            Cmd::Add | Cmd::Sub | Cmd::Mul | Cmd::Div | Cmd::Surplus => {
                if s.stack.len() < 2 {
                    SStep::End(SOut::Fault(RuntimeFault::StackUnderflow))
                } else {
                    match (s.stack[s.stack.len() - 2], s.stack[s.stack.len() - 1]) {
                        (Value::Number(x), Value::Number(y)) => arith_step(s, x, y, prog[s.ip]),
                        _ => SStep::End(SOut::Fault(RuntimeFault::TypeMismatch)),
                    }
                }
            },
            Cmd::Equal => if s.stack.len() < 2 {
                SStep::End(SOut::Fault(RuntimeFault::StackUnderflow))
            } else {
                SStep::Next(
                    MState {
                        stack: s.stack.take(s.stack.len() - 2).push(
                            Value::Boolean(
                                veq(s.stack[s.stack.len() - 2], s.stack[s.stack.len() - 1]),
                            ),
                        ),
                        ip: s.ip + 1,
                        ..s
                    },
                )
            },
            Cmd::NotEqual => if s.stack.len() < 2 {
                SStep::End(SOut::Fault(RuntimeFault::StackUnderflow))
            } else {
                SStep::Next(
                    MState {
                        stack: s.stack.take(s.stack.len() - 2).push(
                            Value::Boolean(
                                !veq(s.stack[s.stack.len() - 2], s.stack[s.stack.len() - 1]),
                            ),
                        ),
                        ip: s.ip + 1,
                        ..s
                    },
                )
            },
            Cmd::Label(_, l) => if l > prog.len() - s.ip - 1 {
                SStep::End(SOut::Fault(RuntimeFault::TypeMismatch))
            } else {
                SStep::Next(MState { ip: s.ip + l + 1, ..s })
            },
            Cmd::JumpRel(n) => if n > prog.len() - s.ip {
                SStep::End(SOut::Fault(RuntimeFault::TypeMismatch))
            } else {
                SStep::Next(MState { ip: s.ip + n, ..s })
            },
            Cmd::JumpRelIf(n) => if s.stack.len() < 1 {
                SStep::End(SOut::Fault(RuntimeFault::StackUnderflow))
            } else {
                match s.stack.last() {
                    Value::Boolean(bv) => if bv {
                        if n > prog.len() - s.ip {
                            SStep::End(SOut::Fault(RuntimeFault::TypeMismatch))
                        } else {
                            SStep::Next(MState { stack: s.stack.drop_last(), ip: s.ip + n, ..s })
                        }
                    } else {
                        SStep::Next(MState { stack: s.stack.drop_last(), ip: s.ip + 1, ..s })
                    },
                    _ => SStep::End(SOut::Fault(RuntimeFault::TypeMismatch)),
                }
            },
            Cmd::Load(index, depth) => match lookup_arg(
                s.frames,
                s.fp,
                depth as int,
                index as int,
            ) {
                Option::None => SStep::End(SOut::Fault(RuntimeFault::TypeMismatch)),
                Option::Some(v) => SStep::Next(
                    MState { stack: s.stack.push(v), ip: s.ip + 1, ..s },
                ),
            },
            Cmd::LabelAddr(id) => match find_label(prog, id as int, 0) {
                Option::None => SStep::End(SOut::Fault(RuntimeFault::UnresolvedLabel)),
                Option::Some((bs, be)) => if be > prog.len() {
                    SStep::End(SOut::Fault(RuntimeFault::TypeMismatch))
                } else {
                    SStep::Next(
                        MState {
                            stack: s.stack.push(
                                Value::Address { start: bs as usize, end: be as usize },
                            ),
                            ip: s.ip + 1,
                            ..s
                        },
                    )
                },
            },
            Cmd::ConstructFunction(arity, l) => if l > prog.len() - s.ip - 1 {
                SStep::End(SOut::Fault(RuntimeFault::TypeMismatch))
            } else {
                SStep::Next(
                    MState {
                        stack: s.stack.push(
                            Value::Closure {
                                addr: (s.ip + 1) as usize,
                                len: l,
                                arity,
                                frame: match s.fp {
                                    Option::Some(f) => Option::Some(f as usize),
                                    Option::None => Option::None,
                                },
                            },
                        ),
                        ip: s.ip + l + 1,
                        ..s
                    },
                )
            },
            Cmd::StructAddr(_) => SStep::Next(
                MState {
                    stack: s.stack.push(Value::StructRef(s.ip as usize)),
                    ip: s.ip + 1,
                    ..s
                },
            ),
            Cmd::ArrayConst(n) => if s.stack.len() < n {
                SStep::End(SOut::Fault(RuntimeFault::StackUnderflow))
            } else {
                SStep::Next(
                    MState {
                        stack: s.stack.take(s.stack.len() - n).push(
                            Value::ListRef(s.lists.len() as usize),
                        ),
                        lists: s.lists.push(
                            s.stack.subrange(s.stack.len() - n, s.stack.len() as int),
                        ),
                        ip: s.ip + 1,
                        ..s
                    },
                )
            },
            Cmd::Index => if s.stack.len() < 2 {
                SStep::End(SOut::Fault(RuntimeFault::StackUnderflow))
            } else {
                let base = s.stack[s.stack.len() - 2];
                let key = s.stack[s.stack.len() - 1];
                let rest = s.stack.take(s.stack.len() - 2);
                match (base, key) {
                    (Value::ListRef(r), Value::Number(i)) => if !(0 <= (r as int)
                        < s.lists.len()) {
                        SStep::End(SOut::Fault(RuntimeFault::TypeMismatch))
                    } else if !(0 <= (i as int) < s.lists[r as int].len()) {
                        SStep::End(SOut::Fault(RuntimeFault::TypeMismatch))
                    } else {
                        SStep::Next(
                            MState {
                                stack: rest.push(s.lists[r as int][i as int]),
                                ip: s.ip + 1,
                                ..s
                            },
                        )
                    },
                    (Value::StructRef(a), Value::Text(name)) => access_step(
                        prog,
                        MState { stack: rest, ..s },
                        a as int,
                        name@,
                    ),
                    _ => SStep::End(SOut::Fault(RuntimeFault::TypeMismatch)),
                }
            },
            Cmd::Access => if s.stack.len() < 2 {
                SStep::End(SOut::Fault(RuntimeFault::StackUnderflow))
            } else {
                let base = s.stack[s.stack.len() - 2];
                let key = s.stack[s.stack.len() - 1];
                let rest = s.stack.take(s.stack.len() - 2);
                match (base, key) {
                    (Value::StructRef(a), Value::Text(name)) => access_step(
                        prog,
                        MState { stack: rest, ..s },
                        a as int,
                        name@,
                    ),
                    _ => SStep::End(SOut::Fault(RuntimeFault::TypeMismatch)),
                }
            },
            Cmd::Call(n) => call_step(prog, s, n as int),
        }
    }
}

/// The state after at most `n` steps: stepping freezes at a pause or an
/// end.
pub open spec fn run_n(prog: Seq<Cmd>, s: MState, n: nat) -> MState
    decreases n,
{
    if n == 0 {
        s
    } else {
        let prev = run_n(prog, s, (n - 1) as nat);
        match step_m(prog, prev) {
            SStep::Next(s2) => s2,
            _ => prev,
        }
    }
}

/// The run from `s` ends with outcome `o` at step `n`.
pub open spec fn ends_at(prog: Seq<Cmd>, s: MState, n: nat, o: SOut) -> bool {
    step_m(prog, run_n(prog, s, n)) == SStep::End(o)
}


/// Whether one executable step reports exactly the spec-level step `st`:
/// `None` advances to the final state, `Some` reports the end or the
/// host pause that `st` is.
pub open spec fn reflects(st: SStep, r: Option<Outcome>, fin: MState) -> bool {
    match r {
        Option::None => st == SStep::Next(fin),
        Option::Some(o) => match o {
            Outcome::Done(v) => st == SStep::End(SOut::Done(v)),
            Outcome::Fault(f) => st == SStep::End(SOut::Fault(f)),
            Outcome::Host { id, args } => {
                &&& st matches SStep::Host { id: hid, args: hargs, next }
                &&& hid == id as int
                &&& hargs == args@
                &&& next == fin
            },
        },
    }
}

/// The machine's starting state for a program: empty stack and arenas,
/// the instruction pointer at zero, the call boundary at the program's
/// end.
pub open spec fn init_state(prog: Seq<Cmd>) -> MState {
    MState {
        stack: Seq::empty(),
        frames: Seq::empty(),
        lists: Seq::empty(),
        ip: 0,
        fp: Option::None,
        end: prog.len() as int,
    }
}

/// One argument frame of the executable machine.
pub struct RFrame {
    pub args: Vec<Value>,
    pub parent: Option<usize>,
}

impl View for RFrame {
    type V = SRFrame;

    open spec fn view(&self) -> SRFrame {
        SRFrame {
            args: self.args@,
            parent: match self.parent {
                Option::Some(p) => Option::Some(p as int),
                Option::None => Option::None,
            },
        }
    }
}

/// Copy one runtime value; every value is a flat tag, so this is exact.
pub fn value_clone(v: &Value) -> (r: Value)
    ensures
        r == *v,
{
    match v {
        Value::Number(n) => Value::Number(*n),
        Value::Text(st) => Value::Text(st.clone()),
        Value::Boolean(b) => Value::Boolean(*b),
        Value::ListRef(l) => Value::ListRef(*l),
        Value::StructRef(a) => Value::StructRef(*a),
        Value::Closure { addr, len, arity, frame } => Value::Closure {
            addr: *addr,
            len: *len,
            arity: *arity,
            frame: *frame,
        },
        Value::HostCallable(h) => Value::HostCallable(*h),
        Value::Address { start, end } => Value::Address { start: *start, end: *end },
        Value::ReturnMark { ip, end, frame } => Value::ReturnMark {
            ip: *ip,
            end: *end,
            frame: *frame,
        },
    }
}

/// Equality of two runtime values, exactly [`veq`].
pub fn value_eq(a: &Value, b: &Value) -> (r: bool)
    ensures
        r == veq(*a, *b),
{
    match a {
        Value::Number(x) => match b {
            Value::Number(y) => *x == *y,
            _ => false,
        },
        Value::Text(x) => match b {
            Value::Text(y) => *x == *y,
            _ => false,
        },
        Value::Boolean(x) => match b {
            Value::Boolean(y) => *x == *y,
            _ => false,
        },
        Value::ListRef(x) => match b {
            Value::ListRef(y) => *x == *y,
            _ => false,
        },
        Value::StructRef(x) => match b {
            Value::StructRef(y) => *x == *y,
            _ => false,
        },
        Value::Closure { addr: a1, len: l1, arity: r1, frame: f1 } => match b {
            Value::Closure { addr: a2, len: l2, arity: r2, frame: f2 } => *a1 == *a2 && *l1 == *l2
                && *r1 == *r2 && *f1 == *f2,
            _ => false,
        },
        Value::HostCallable(x) => match b {
            Value::HostCallable(y) => *x == *y,
            _ => false,
        },
        Value::Address { start: s1, end: e1 } => match b {
            Value::Address { start: s2, end: e2 } => *s1 == *s2 && *e1 == *e2,
            _ => false,
        },
        Value::ReturnMark { .. } => false,
    }
}

/// Truncating division on 64-bit numbers, computed through the unsigned
/// magnitudes so that every case carries an exact contract.
pub fn div_trunc(x: i64, y: i64) -> (q: i64)
    requires
        y != 0,
        !(x == i64::MIN && y == -1),
    ensures
        q as int == tdiv(x as int, y as int),
{
    let xa: u64 = if x >= 0 {
        x as u64
    } else {
        (-(x as i128)) as u64
    };
    let ya: u64 = if y >= 0 {
        y as u64
    } else {
        (-(y as i128)) as u64
    };
    let qa: u64 = xa / ya;
    proof {
        lemma_fundamental_div_mod(xa as int, ya as int);
        assert(xa as int == (ya as int) * (qa as int) + ((xa as int) % (ya as int)));
    }
    if (x >= 0) == (y >= 0) {
        proof {
            if x == i64::MIN {
                assert(ya >= 2);
                assert((qa as int) * 2 <= (qa as int) * (ya as int)) by (nonlinear_arith)
                    requires
                        qa >= 0,
                        ya >= 2,
                {}
                assert(qa <= 0x4000_0000_0000_0000u64);
            } else {
                assert(xa <= 0x7fff_ffff_ffff_ffffu64);
                assert((qa as int) * 1 <= (qa as int) * (ya as int)) by (nonlinear_arith)
                    requires
                        qa >= 0,
                        ya >= 1,
                {}
                assert((xa as int) % (ya as int) >= 0);
                assert(qa <= xa);
            }
        }
        qa as i64
    } else {
        if qa == 0 {
            0
        } else {
            proof {
                assert((qa as int) * 1 <= (qa as int) * (ya as int)) by (nonlinear_arith)
                    requires
                        qa >= 0,
                        ya >= 1,
                {}
                assert((xa as int) % (ya as int) >= 0);
                assert(qa <= xa);
                assert(qa <= 0x8000_0000_0000_0000u64);
            }
            (-((qa - 1) as i64)) - 1
        }
    }
}

/// Truncating remainder on 64-bit numbers: the remainder of the
/// magnitudes, carrying the dividend's sign.
pub fn rem_trunc(x: i64, y: i64) -> (m: i64)
    requires
        y != 0,
        !(x == i64::MIN && y == -1),
    ensures
        m as int == tmod(x as int, y as int),
{
    let xa: u64 = if x >= 0 {
        x as u64
    } else {
        (-(x as i128)) as u64
    };
    let ya: u64 = if y >= 0 {
        y as u64
    } else {
        (-(y as i128)) as u64
    };
    let ra: u64 = xa % ya;
    proof {
        assert(ra < ya);
        assert(ya <= 0x8000_0000_0000_0000u64);
    }
    if x >= 0 {
        ra as i64
    } else {
        -(ra as i64)
    }
}

/// The executable machine.
pub struct Executor {
    pub prog: Vec<Cmd>,
    pub stack: Vec<Value>,
    pub frames: Vec<RFrame>,
    pub lists: Vec<Vec<Value>>,
    pub ip: usize,
    pub fp: Option<usize>,
    pub end: usize,
    pub awaiting: bool,
}

impl Executor {
    /// The spec-level image of the current state.
    pub open spec fn mstate(&self) -> MState {
        MState {
            stack: self.stack@,
            frames: self.frames@.map_values(|f: RFrame| f@),
            lists: self.lists@.map_values(|l: Vec<Value>| l@),
            ip: self.ip as int,
            fp: match self.fp {
                Option::Some(f) => Option::Some(f as int),
                Option::None => Option::None,
            },
            end: self.end as int,
        }
    }

    /// A machine at the start of the given program.
    pub fn new(prog: Vec<Cmd>) -> (e: Executor)
        ensures
            e.prog@ == prog@,
            e.mstate() == init_state(prog@),
            !e.awaiting,
    {
        let end = prog.len();
        let e = Executor {
            prog,
            stack: Vec::new(),
            frames: Vec::new(),
            lists: Vec::new(),
            ip: 0,
            fp: Option::None,
            end,
            awaiting: false,
        };
        proof {
            assert(e.mstate() =~~= init_state(e.prog@));
        }
        e
    }

    /// Resolve a struct field after base and key have been popped: push
    /// the field's label address, to be forced by the following call.
    #[verifier::rlimit(30)]
    fn finish_access(&mut self, addr: usize, name: &String) -> (r: Option<Outcome>)
        requires
            (old(self).ip as int) < old(self).prog@.len(),
        ensures
            final(self).prog@ == old(self).prog@,
            final(self).awaiting == old(self).awaiting,
            reflects(
                access_step(old(self).prog@, old(self).mstate(), addr as int, name@),
                r,
                final(self).mstate(),
            ),
    {
        let proglen = self.prog.len();
        if addr >= proglen {
            return Option::Some(Outcome::Fault(RuntimeFault::TypeMismatch));
        }
        let id = match &self.prog[addr] {
            Cmd::StructAddr(m) => {
                match map_lookup_exec(m, name) {
                    Option::Some(id) => id,
                    Option::None => {
                        return Option::Some(Outcome::Fault(RuntimeFault::TypeMismatch));
                    },
                }
            },
            _ => {
                return Option::Some(Outcome::Fault(RuntimeFault::TypeMismatch));
            },
        };
        match find_label_exec(&self.prog, id) {
            Option::None => Option::Some(Outcome::Fault(RuntimeFault::UnresolvedLabel)),
            Option::Some((bs, be)) => {
                if be > proglen {
                    return Option::Some(Outcome::Fault(RuntimeFault::TypeMismatch));
                }
                self.stack.push(Value::Address { start: bs, end: be });
                self.ip = self.ip + 1;
                proof {
                    match access_step(old(self).prog@, old(self).mstate(), addr as int, name@) {
                        SStep::Next(t) => {
                            assert(self.mstate() =~~= t);
                        },
                        _ => {
                            assert(false);
                        },
                    }
                }
                Option::None
            },
        }
    }

    /// Execute one `Load`: push the argument at the compiled index and
    /// lexical depth of the current frame chain.
    #[verifier::rlimit(30)]
    fn step_load(&mut self) -> (r: Option<Outcome>)
        requires
            old(self).ip != old(self).end,
            (old(self).ip as int) < old(self).prog@.len(),
            (old(self).end as int) <= old(self).prog@.len(),
            old(self).prog@[old(self).ip as int] is Load,
        ensures
            final(self).prog@ == old(self).prog@,
            final(self).awaiting == old(self).awaiting,
            reflects(step_m(old(self).prog@, old(self).mstate()), r, final(self).mstate()),
    {
        let proglen = self.prog.len();
        let (index, depth) = match &self.prog[self.ip] {
            Cmd::Load(i, d) => (*i, *d),
            _ => {
                proof {
                    assert(false);
                }
                return Option::None;
            },
        };
        match lookup_arg_exec(&self.frames, self.fp, depth, index) {
            Option::None => Option::Some(Outcome::Fault(RuntimeFault::TypeMismatch)),
            Option::Some(v) => {
                self.stack.push(v);
                self.ip = self.ip + 1;
                proof {
                    match step_m(old(self).prog@, old(self).mstate()) {
                        SStep::Next(t) => {
                            assert(self.mstate() =~~= t);
                        },
                        _ => {
                            assert(false);
                        },
                    }
                }
                Option::None
            },
        }
    }

    /// Execute one `LabelAddr`: resolve the bind id to its label body and
    /// push that body's address.
    #[verifier::rlimit(30)]
    fn step_label_addr(&mut self) -> (r: Option<Outcome>)
        requires
            old(self).ip != old(self).end,
            (old(self).ip as int) < old(self).prog@.len(),
            (old(self).end as int) <= old(self).prog@.len(),
            old(self).prog@[old(self).ip as int] is LabelAddr,
        ensures
            final(self).prog@ == old(self).prog@,
            final(self).awaiting == old(self).awaiting,
            reflects(step_m(old(self).prog@, old(self).mstate()), r, final(self).mstate()),
    {
        let proglen = self.prog.len();
        let id = match &self.prog[self.ip] {
            Cmd::LabelAddr(id) => *id,
            _ => {
                proof {
                    assert(false);
                }
                return Option::None;
            },
        };
        match find_label_exec(&self.prog, id) {
            Option::None => Option::Some(Outcome::Fault(RuntimeFault::UnresolvedLabel)),
            Option::Some((bs, be)) => {
                if be > proglen {
                    return Option::Some(Outcome::Fault(RuntimeFault::TypeMismatch));
                }
                self.stack.push(Value::Address { start: bs, end: be });
                self.ip = self.ip + 1;
                proof {
                    match step_m(old(self).prog@, old(self).mstate()) {
                        SStep::Next(t) => {
                            assert(self.mstate() =~~= t);
                        },
                        _ => {
                            assert(false);
                        },
                    }
                }
                Option::None
            },
        }
    }

    /// Execute one `ArrayConst`: move the element thunks into a fresh
    /// list in the arena and push a reference to it.
    #[verifier::loop_isolation(false)]
    #[verifier::rlimit(30)]
    fn step_array(&mut self) -> (r: Option<Outcome>)
        requires
            old(self).ip != old(self).end,
            (old(self).ip as int) < old(self).prog@.len(),
            (old(self).end as int) <= old(self).prog@.len(),
            old(self).prog@[old(self).ip as int] is ArrayConst,
        ensures
            final(self).prog@ == old(self).prog@,
            final(self).awaiting == old(self).awaiting,
            reflects(step_m(old(self).prog@, old(self).mstate()), r, final(self).mstate()),
    {
        let proglen = self.prog.len();
        let n = match &self.prog[self.ip] {
            Cmd::ArrayConst(n) => *n,
            _ => {
                proof {
                    assert(false);
                }
                return Option::None;
            },
        };
        if self.stack.len() < n {
            return Option::Some(Outcome::Fault(RuntimeFault::StackUnderflow));
        }
        let m = self.stack.len();
        let mut lst: Vec<Value> = Vec::new();
        let mut j: usize = 0;
        while j < n
            invariant
                j <= n,
                lst@ == self.stack@.subrange(m - n, m - n + j),
            decreases n - j,
        {
            let v = value_clone(&self.stack[m - n + j]);
            lst.push(v);
            proof {
                assert(lst@ =~= self.stack@.subrange(m - n, m - n + (j + 1)));
            }
            j = j + 1;
        }
        let ghost lstv = lst@;
        self.stack.truncate(m - n);
        let rid = self.lists.len();
        self.lists.push(lst);
        self.stack.push(Value::ListRef(rid));
        self.ip = self.ip + 1;
        proof {
            assert(self.stack@ =~= old(self).mstate().stack.take(m - n as int).push(
                Value::ListRef(rid),
            ));
            match step_m(old(self).prog@, old(self).mstate()) {
                SStep::Next(t) => {
                    assert(self.mstate() =~~= t);
                },
                _ => {
                    assert(false);
                },
            }
        }
        Option::None
    }

    /// Execute one `Index`: select a list element or a struct field.
    #[verifier::rlimit(30)]
    fn step_index(&mut self) -> (r: Option<Outcome>)
        requires
            old(self).ip != old(self).end,
            (old(self).ip as int) < old(self).prog@.len(),
            (old(self).end as int) <= old(self).prog@.len(),
            old(self).prog@[old(self).ip as int] is Index,
        ensures
            final(self).prog@ == old(self).prog@,
            final(self).awaiting == old(self).awaiting,
            reflects(step_m(old(self).prog@, old(self).mstate()), r, final(self).mstate()),
    {
        let proglen = self.prog.len();
        if self.stack.len() < 2 {
            return Option::Some(Outcome::Fault(RuntimeFault::StackUnderflow));
        }
        let key = self.stack.pop().unwrap();
        let base = self.stack.pop().unwrap();
        proof {
            assert(self.stack@ =~= old(self).mstate().stack.take(
                old(self).mstate().stack.len() - 2,
            ));
        }
        match (base, key) {
            (Value::ListRef(lr), Value::Number(i)) => {
                if lr >= self.lists.len() {
                    return Option::Some(Outcome::Fault(RuntimeFault::TypeMismatch));
                }
                if i < 0 {
                    return Option::Some(Outcome::Fault(RuntimeFault::TypeMismatch));
                }
                if (i as u64) >= (self.lists[lr].len() as u64) {
                    return Option::Some(Outcome::Fault(RuntimeFault::TypeMismatch));
                }
                let iu = i as usize;
                let v = value_clone(&self.lists[lr][iu]);
                self.stack.push(v);
                self.ip = self.ip + 1;
                proof {
                    match step_m(old(self).prog@, old(self).mstate()) {
                        SStep::Next(t) => {
                            assert(self.mstate() =~~= t);
                        },
                        _ => {
                            assert(false);
                        },
                    }
                }
                Option::None
            },
            (Value::StructRef(a), Value::Text(name)) => {
                let ghost mid = self.mstate();
                let res = self.finish_access(a, &name);
                proof {
                    assert(mid =~~= (MState {
                        stack: old(self).mstate().stack.take(old(self).mstate().stack.len() - 2),
                        ..old(self).mstate()
                    }));
                }
                res
            },
            _ => Option::Some(Outcome::Fault(RuntimeFault::TypeMismatch)),
        }
    }

    /// Execute one `Access`: resolve a struct field to its label address.
    #[verifier::rlimit(30)]
    fn step_access(&mut self) -> (r: Option<Outcome>)
        requires
            old(self).ip != old(self).end,
            (old(self).ip as int) < old(self).prog@.len(),
            (old(self).end as int) <= old(self).prog@.len(),
            old(self).prog@[old(self).ip as int] is Access,
        ensures
            final(self).prog@ == old(self).prog@,
            final(self).awaiting == old(self).awaiting,
            reflects(step_m(old(self).prog@, old(self).mstate()), r, final(self).mstate()),
    {
        let proglen = self.prog.len();
        if self.stack.len() < 2 {
            return Option::Some(Outcome::Fault(RuntimeFault::StackUnderflow));
        }
        let key = self.stack.pop().unwrap();
        let base = self.stack.pop().unwrap();
        proof {
            assert(self.stack@ =~= old(self).mstate().stack.take(
                old(self).mstate().stack.len() - 2,
            ));
        }
        match (base, key) {
            (Value::StructRef(a), Value::Text(name)) => {
                let ghost mid = self.mstate();
                let res = self.finish_access(a, &name);
                proof {
                    assert(mid =~~= (MState {
                        stack: old(self).mstate().stack.take(old(self).mstate().stack.len() - 2),
                        ..old(self).mstate()
                    }));
                }
                res
            },
            _ => Option::Some(Outcome::Fault(RuntimeFault::TypeMismatch)),
        }
    }

    /// Execute one `Call`: pop the arguments and the callee, and either
    /// enter a label body or a closure body — pushing the return record
    /// onto the operand stack — or pause for the host.
    #[verifier::loop_isolation(false)]
    #[verifier::rlimit(50)]
    fn step_call(&mut self) -> (r: Option<Outcome>)
        requires
            old(self).ip != old(self).end,
            (old(self).ip as int) < old(self).prog@.len(),
            (old(self).end as int) <= old(self).prog@.len(),
            old(self).prog@[old(self).ip as int] is Call,
        ensures
            final(self).prog@ == old(self).prog@,
            final(self).awaiting == (old(self).awaiting || (r matches Some(
                Outcome::Host { .. },
            ))),
            reflects(step_m(old(self).prog@, old(self).mstate()), r, final(self).mstate()),
    {
        let proglen = self.prog.len();
        let n = match &self.prog[self.ip] {
            Cmd::Call(n) => *n,
            _ => {
                proof {
                    assert(false);
                }
                return Option::None;
            },
        };
        if self.stack.len() < 1 || self.stack.len() - 1 < n {
            return Option::Some(Outcome::Fault(RuntimeFault::StackUnderflow));
        }
        let m = self.stack.len();
        let mut args: Vec<Value> = Vec::new();
        let mut j: usize = 0;
        while j < n
            invariant
                j <= n,
                args@ == self.stack@.subrange(m - n, m - n + j),
            decreases n - j,
        {
            let v = value_clone(&self.stack[m - n + j]);
            args.push(v);
            proof {
                assert(args@ =~= self.stack@.subrange(m - n, m - n + (j + 1)));
            }
            j = j + 1;
        }
        proof {
            assert(args@ =~= old(self).mstate().stack.subrange(
                old(self).mstate().stack.len() - n,
                old(self).mstate().stack.len() as int,
            ));
        }
        self.stack.truncate(m - n);
        let callee = self.stack.pop().unwrap();
        let mark = Value::ReturnMark { ip: self.ip + 1, end: self.end, frame: self.fp };
        match callee {
            Value::Address { start, end } => {
                if n != 0 {
                    return Option::Some(Outcome::Fault(RuntimeFault::ArityMismatch));
                }
                if !(start <= end && end <= proglen) {
                    return Option::Some(Outcome::Fault(RuntimeFault::TypeMismatch));
                }
                self.stack.push(mark);
                self.ip = start;
                self.end = end;
                proof {
                    match step_m(old(self).prog@, old(self).mstate()) {
                        SStep::Next(t) => {
                            assert(self.mstate() =~~= t);
                        },
                        _ => {
                            assert(false);
                        },
                    }
                }
                Option::None
            },
            Value::Closure { addr, len, arity, frame } => {
                if n != arity {
                    return Option::Some(Outcome::Fault(RuntimeFault::ArityMismatch));
                }
                if len > proglen || addr > proglen - len {
                    return Option::Some(Outcome::Fault(RuntimeFault::TypeMismatch));
                }
                let newfp = self.frames.len();
                self.stack.push(mark);
                self.frames.push(RFrame { args, parent: frame });
                self.fp = Option::Some(newfp);
                self.ip = addr;
                self.end = addr + len;
                proof {
                    match step_m(old(self).prog@, old(self).mstate()) {
                        SStep::Next(t) => {
                            assert(self.mstate() =~~= t);
                        },
                        _ => {
                            assert(false);
                        },
                    }
                }
                Option::None
            },
            Value::HostCallable(h) => {
                self.ip = self.ip + 1;
                self.awaiting = true;
                proof {
                    match step_m(old(self).prog@, old(self).mstate()) {
                        SStep::Host { id: _, args: hargs, next } => {
                            assert(hargs == args@);
                            assert(self.mstate() =~~= next);
                        },
                        _ => {
                            assert(false);
                        },
                    }
                }
                Option::Some(Outcome::Host { id: h, args })
            },
            _ => Option::Some(Outcome::Fault(RuntimeFault::TypeMismatch)),
        }
    }

    /// Perform exactly one spec-level step of the machine: `None`
    /// advances the state, `Some` reports the run's end or a host pause.
    #[verifier::rlimit(60)]
    #[verifier::spinoff_prover]
    pub fn step(&mut self) -> (r: Option<Outcome>)
        ensures
            final(self).prog@ == old(self).prog@,
            final(self).awaiting == (old(self).awaiting || (r matches Some(
                Outcome::Host { .. },
            ))),
            reflects(step_m(old(self).prog@, old(self).mstate()), r, final(self).mstate()),
    {
        let ghost s0 = self.mstate();
        if self.ip == self.end {
            let n = self.stack.len();
            if n >= 2 && matches!(&self.stack[n - 2], Value::ReturnMark { .. }) {
                let result = self.stack.pop().unwrap();
                let mark = self.stack.pop().unwrap();
                match mark {
                    Value::ReturnMark { ip, end, frame } => {
                        self.stack.push(result);
                        self.ip = ip;
                        self.end = end;
                        self.fp = frame;
                        proof {
                            assert(self.stack@ =~= s0.stack.take(s0.stack.len() - 2).push(
                                s0.stack.last(),
                            ));
                            match step_m(self.prog@, s0) {
                                SStep::Next(t) => {
                                    assert(self.mstate() =~~= t);
                                },
                                _ => {
                                    assert(false);
                                },
                            }
                        }
                        return Option::None;
                    },
                    _ => {
                        proof {
                            assert(false);
                        }
                        return Option::None;
                    },
                }
            } else if n == 1 {
                let v = self.stack.pop().unwrap();
                return Option::Some(Outcome::Done(v));
            } else {
                return Option::Some(Outcome::Fault(RuntimeFault::StackUnderflow));
            }
        }
        if !(self.ip < self.prog.len() && self.end <= self.prog.len()) {
            return Option::Some(Outcome::Fault(RuntimeFault::StackUnderflow));
        }
        if matches!(&self.prog[self.ip], Cmd::Load(_, _)) {
            return self.step_load();
        }
        if matches!(&self.prog[self.ip], Cmd::LabelAddr(_)) {
            return self.step_label_addr();
        }
        if matches!(&self.prog[self.ip], Cmd::ArrayConst(_)) {
            return self.step_array();
        }
        if matches!(&self.prog[self.ip], Cmd::Index) {
            return self.step_index();
        }
        if matches!(&self.prog[self.ip], Cmd::Access) {
            return self.step_access();
        }
        if matches!(&self.prog[self.ip], Cmd::Call(_)) {
            return self.step_call();
        }
        let n = self.stack.len();
        match &self.prog[self.ip] {
            Cmd::NumberConst(c) => {
                let c = *c;
                self.stack.push(Value::Number(c));
                self.ip = self.ip + 1;
                proof {
                    assert(step_m(self.prog@, s0) == SStep::Next(self.mstate()));
                }
                Option::None
            },
            Cmd::StringConst(st) => {
                let stc = st.clone();
                self.stack.push(Value::Text(stc));
                self.ip = self.ip + 1;
                proof {
                    assert(step_m(self.prog@, s0) == SStep::Next(self.mstate()));
                }
                Option::None
            },
            Cmd::HostFunction(h) => {
                let h = *h;
                self.stack.push(Value::HostCallable(h));
                self.ip = self.ip + 1;
                proof {
                    assert(step_m(self.prog@, s0) == SStep::Next(self.mstate()));
                }
                Option::None
            },
            Cmd::Add | Cmd::Sub | Cmd::Mul | Cmd::Div | Cmd::Surplus => {
                if n < 2 {
                    return Option::Some(Outcome::Fault(RuntimeFault::StackUnderflow));
                }
                let (x, y) = match (&self.stack[n - 2], &self.stack[n - 1]) {
                    (Value::Number(x), Value::Number(y)) => (*x, *y),
                    _ => {
                        return Option::Some(Outcome::Fault(RuntimeFault::TypeMismatch));
                    },
                };
                let res: i64 = match &self.prog[self.ip] {
                    Cmd::Add => x.wrapping_add(y),
                    Cmd::Sub => x.wrapping_sub(y),
                    Cmd::Mul => x.wrapping_mul(y),
                    Cmd::Div => {
                        if y == 0 || (x == i64::MIN && y == -1) {
                            return Option::Some(Outcome::Fault(RuntimeFault::TypeMismatch));
                        }
                        div_trunc(x, y)
                    },
                    _ => {
                        if y == 0 || (x == i64::MIN && y == -1) {
                            return Option::Some(Outcome::Fault(RuntimeFault::TypeMismatch));
                        }
                        rem_trunc(x, y)
                    },
                };
                self.stack.pop();
                self.stack.pop();
                self.stack.push(Value::Number(res));
                self.ip = self.ip + 1;
                proof {
                    assert(self.stack@ =~= s0.stack.take(s0.stack.len() - 2).push(
                        Value::Number(res),
                    ));
                    match step_m(self.prog@, s0) {
                        SStep::Next(t) => {
                            assert(self.mstate() =~~= t);
                        },
                        _ => {
                            assert(false);
                        },
                    }
                }
                Option::None
            },
            Cmd::Equal | Cmd::NotEqual => {
                if n < 2 {
                    return Option::Some(Outcome::Fault(RuntimeFault::StackUnderflow));
                }
                let eq = value_eq(&self.stack[n - 2], &self.stack[n - 1]);
                let res = match &self.prog[self.ip] {
                    Cmd::Equal => eq,
                    _ => !eq,
                };
                self.stack.pop();
                self.stack.pop();
                self.stack.push(Value::Boolean(res));
                self.ip = self.ip + 1;
                proof {
                    assert(self.stack@ =~= s0.stack.take(s0.stack.len() - 2).push(
                        Value::Boolean(res),
                    ));
                    match step_m(self.prog@, s0) {
                        SStep::Next(t) => {
                            assert(self.mstate() =~~= t);
                        },
                        _ => {
                            assert(false);
                        },
                    }
                }
                Option::None
            },
            Cmd::Label(_, l) => {
                let l = *l;
                if l > self.prog.len() - self.ip - 1 {
                    return Option::Some(Outcome::Fault(RuntimeFault::TypeMismatch));
                }
                self.ip = self.ip + l + 1;
                proof {
                    match step_m(self.prog@, s0) {
                        SStep::Next(t) => {
                            assert(self.mstate() =~~= t);
                        },
                        _ => {
                            assert(false);
                        },
                    }
                }
                Option::None
            },
            Cmd::JumpRel(d) => {
                let d = *d;
                if d > self.prog.len() - self.ip {
                    return Option::Some(Outcome::Fault(RuntimeFault::TypeMismatch));
                }
                self.ip = self.ip + d;
                proof {
                    match step_m(self.prog@, s0) {
                        SStep::Next(t) => {
                            assert(self.mstate() =~~= t);
                        },
                        _ => {
                            assert(false);
                        },
                    }
                }
                Option::None
            },
            Cmd::JumpRelIf(d) => {
                let d = *d;
                if n < 1 {
                    return Option::Some(Outcome::Fault(RuntimeFault::StackUnderflow));
                }
                let bv = match &self.stack[n - 1] {
                    Value::Boolean(b) => *b,
                    _ => {
                        return Option::Some(Outcome::Fault(RuntimeFault::TypeMismatch));
                    },
                };
                if bv {
                    if d > self.prog.len() - self.ip {
                        return Option::Some(Outcome::Fault(RuntimeFault::TypeMismatch));
                    }
                    self.stack.pop();
                    self.ip = self.ip + d;
                } else {
                    self.stack.pop();
                    self.ip = self.ip + 1;
                }
                proof {
                    match step_m(self.prog@, s0) {
                        SStep::Next(t) => {
                            assert(self.mstate() =~~= t);
                        },
                        _ => {
                            assert(false);
                        },
                    }
                }
                Option::None
            },
            Cmd::ConstructFunction(arity, l) => {
                let arity = *arity;
                let l = *l;
                if l > self.prog.len() - self.ip - 1 {
                    return Option::Some(Outcome::Fault(RuntimeFault::TypeMismatch));
                }
                let clos = Value::Closure { addr: self.ip + 1, len: l, arity, frame: self.fp };
                self.stack.push(clos);
                self.ip = self.ip + l + 1;
                proof {
                    match step_m(self.prog@, s0) {
                        SStep::Next(t) => {
                            assert(self.mstate() =~~= t);
                        },
                        _ => {
                            assert(false);
                        },
                    }
                }
                Option::None
            },
            Cmd::StructAddr(_) => {
                let here = self.ip;
                self.stack.push(Value::StructRef(here));
                self.ip = self.ip + 1;
                proof {
                    match step_m(self.prog@, s0) {
                        SStep::Next(t) => {
                            assert(self.mstate() =~~= t);
                        },
                        _ => {
                            assert(false);
                        },
                    }
                }
                Option::None
            },
            _ => {
                proof {
                    assert(false);
                }
                Option::None
            },
        }
    }

    /// Step up to `budget` times.  `Some` reports the run's end or pause,
    /// reached within the budget; `None` means no step within the budget
    /// ended or paused the run, and the machine stands exactly `budget`
    /// spec-level steps further.
    #[verifier::loop_isolation(false)]
    pub fn run(&mut self, budget: usize) -> (r: Option<Outcome>)
        ensures
            final(self).prog@ == old(self).prog@,
            (match r {
                Option::Some(_) => exists|k: nat|
                    k <= budget && reflects(
                        step_m(old(self).prog@, run_n(old(self).prog@, old(self).mstate(), k)),
                        r,
                        final(self).mstate(),
                    ),
                Option::None => {
                    &&& final(self).mstate() == run_n(
                        old(self).prog@,
                        old(self).mstate(),
                        budget as nat,
                    )
                    &&& forall|t: nat|
                        t < budget ==> step_m(
                            old(self).prog@,
                            run_n(old(self).prog@, old(self).mstate(), t),
                        ) is Next
                },
            }),
    {
        let ghost prog0 = self.prog@;
        let ghost s0 = self.mstate();
        let mut k: usize = 0;
        while k < budget
            invariant
                k <= budget,
                self.prog@ == prog0,
                self.mstate() == run_n(prog0, s0, k as nat),
                forall|t: nat| t < k ==> step_m(prog0, run_n(prog0, s0, t)) is Next,
            decreases budget - k,
        {
            match self.step() {
                Option::None => {
                    proof {
                        assert(run_n(prog0, s0, (k + 1) as nat) == self.mstate());
                    }
                    k = k + 1;
                },
                r => {
                    proof {
                        assert(reflects(
                            step_m(prog0, run_n(prog0, s0, k as nat)),
                            r,
                            self.mstate(),
                        ));
                    }
                    return r;
                },
            }
        }
        Option::None
    }

    /// Report that the pending host call failed.  The bridge's failure
    /// is fatal to the run that made the call: the caller receives the
    /// fault as the run's outcome.  Without a pending call there is
    /// nothing to fail and nothing changes.
    pub fn abort_host(&mut self) -> (r: Option<Outcome>)
        ensures
            final(self).prog@ == old(self).prog@,
            final(self).mstate() == old(self).mstate(),
            !final(self).awaiting,
            (r is Some) == old(self).awaiting,
            (match r {
                Option::Some(o) => o matches Outcome::Fault(f) && f
                    == RuntimeFault::HostBridgeFailure,
                Option::None => true,
            }),
    {
        if self.awaiting {
            self.awaiting = false;
            Option::Some(Outcome::Fault(RuntimeFault::HostBridgeFailure))
        } else {
            Option::None
        }
    }

    /// Hand a host call's result back: push it and clear the pause.
    /// Returns false, changing nothing, when no host call is pending.
    pub fn resume(&mut self, v: Value) -> (ok: bool)
        ensures
            final(self).prog@ == old(self).prog@,
            ok == old(self).awaiting,
            !final(self).awaiting,
            ok ==> final(self).mstate() == (MState {
                stack: old(self).mstate().stack.push(v),
                ..old(self).mstate()
            }),
            !ok ==> final(self).mstate() == old(self).mstate(),
    {
        if self.awaiting {
            self.awaiting = false;
            self.stack.push(v);
            proof {
                assert(self.mstate() =~~= (MState {
                    stack: old(self).mstate().stack.push(v),
                    ..old(self).mstate()
                }));
            }
            true
        } else {
            false
        }
    }
}


/// The spec image of an optional arena index.
pub open spec fn opt_view(o: Option<usize>) -> Option<int> {
    match o {
        Option::Some(p) => Option::Some(p as int),
        Option::None => Option::None,
    }
}

/// Walk the defining-scope chain and copy the requested argument,
/// exactly as [`lookup_arg`] describes.
fn lookup_arg_exec(frames: &Vec<RFrame>, fp: Option<usize>, depth: usize, index: usize) -> (r:
    Option<Value>)
    ensures
        ({
            let m = lookup_arg(
                frames@.map_values(|f: RFrame| f@),
                opt_view(fp),
                depth as int,
                index as int,
            );
            match r {
                Option::Some(v) => m == Option::Some(v),
                Option::None => m is None,
            }
        }),
    decreases depth,
{
    let ghost fv = frames@.map_values(|f: RFrame| f@);
    match fp {
        Option::None => Option::None,
        Option::Some(f) => {
            if f >= frames.len() {
                Option::None
            } else {
                proof {
                    assert(fv[f as int] == frames@[f as int]@);
                }
                if depth == 0 {
                    if index < frames[f].args.len() {
                        Option::Some(value_clone(&frames[f].args[index]))
                    } else {
                        Option::None
                    }
                } else {
                    lookup_arg_exec(frames, frames[f].parent, depth - 1, index)
                }
            }
        },
    }
}

/// Scan the program for the first label tagged `id`, exactly as
/// [`find_label`] describes.
#[verifier::loop_isolation(false)]
fn find_label_exec(prog: &Vec<Cmd>, id: usize) -> (r: Option<(usize, usize)>)
    ensures
        ({
            let m = find_label(prog@, id as int, 0);
            match r {
                Option::Some((bs, be)) => m == Option::Some((bs as int, be as int)),
                Option::None => m is None,
            }
        }),
{
    let mut j: usize = 0;
    while j < prog.len()
        invariant
            j <= prog.len(),
            find_label(prog@, id as int, 0) == find_label(prog@, id as int, j as int),
        decreases prog.len() - j,
    {
        match &prog[j] {
            Cmd::Label(lid, llen) => {
                if *lid == id {
                    if *llen <= prog.len() - j - 1 {
                        return Option::Some((j + 1, j + 1 + *llen));
                    } else {
                        return Option::None;
                    }
                }
            },
            _ => {},
        }
        j = j + 1;
    }
    Option::None
}

/// Search a struct's field mapping from the newest entry backwards,
/// exactly as [`map_lookup`] describes.
#[verifier::loop_isolation(false)]
fn map_lookup_exec(m: &Vec<(String, usize)>, name: &String) -> (r: Option<usize>)
    ensures
        ({
            let ml = map_lookup(m@, name@);
            match r {
                Option::Some(id) => ml == Option::Some(id),
                Option::None => ml is None,
            }
        }),
{
    let mut j = m.len();
    proof {
        assert(m@.take(m.len() as int) =~= m@);
    }
    while j > 0
        invariant
            j <= m.len(),
            map_lookup(m@.take(j as int), name@) == map_lookup(m@, name@),
        decreases j,
    {
        j = j - 1;
        if m[j].0 == *name {
            proof {
                let pre = m@.take(j as int + 1);
                assert(pre.last() == m@[j as int]);
                assert(map_lookup(pre, name@) == Option::Some(m@[j as int].1));
            }
            return Option::Some(m[j].1);
        }
        proof {
            let pre = m@.take(j as int + 1);
            assert(pre.last() == m@[j as int]);
            assert(pre.last().0@ != name@);
            assert(pre.drop_last() =~= m@.take(j as int));
        }
    }
    proof {
        assert(m@.take(0) =~= Seq::<(String, usize)>::empty());
    }
    Option::None
}


/// What a binary numeric opcode yields on two number literals: the
/// wrapped sum, difference or product, the truncating quotient or
/// remainder, or the fault that a zero or overflowing divisor raises.
pub open spec fn binop_result(op: Cmd, a: i64, b: i64) -> SOut {
    match op {
        Cmd::Add => SOut::Done(Value::Number(wrap_add(a, b))),
        Cmd::Sub => SOut::Done(Value::Number(wrap_sub(a, b))),
        Cmd::Mul => SOut::Done(Value::Number(wrap_mul(a, b))),
        Cmd::Div => if b == 0 || (a == i64::MIN && b == -1) {
            SOut::Fault(RuntimeFault::TypeMismatch)
        } else {
            SOut::Done(Value::Number(tdiv(a as int, b as int) as i64))
        },
        Cmd::Surplus => if b == 0 || (a == i64::MIN && b == -1) {
            SOut::Fault(RuntimeFault::TypeMismatch)
        } else {
            SOut::Done(Value::Number(tmod(a as int, b as int) as i64))
        },
        _ => SOut::Fault(RuntimeFault::TypeMismatch),
    }
}

/// Law: executing a compiled arithmetic pair "push the left literal,
/// push the right literal, apply the operator" from the machine's start
/// state ends with exactly the operator applied to the literals, for
/// every pair of literals and every numeric operator; a zero or
/// overflowing divisor faults instead of producing a value.
pub proof fn lemma_binop_executes(prog: Seq<Cmd>, a: i64, b: i64)
    requires
        prog.len() == 3,
        prog[0] == Cmd::NumberConst(a),
        prog[1] == Cmd::NumberConst(b),
        prog[2] is Add || prog[2] is Sub || prog[2] is Mul || prog[2] is Div || prog[2]
            is Surplus,
    ensures
        ({
            let init = init_state(prog);
            if binop_result(prog[2], a, b) is Fault {
                ends_at(prog, init, 2, binop_result(prog[2], a, b))
            } else {
                ends_at(prog, init, 3, binop_result(prog[2], a, b))
            }
        }),
{
    reveal_with_fuel(run_n, 5);
    let init = init_state(prog);
    let s1 = MState { stack: seq![Value::Number(a)], ip: 1, ..init };
    let s2 = MState { stack: seq![Value::Number(a), Value::Number(b)], ip: 2, ..init };
    assert(Seq::<Value>::empty().push(Value::Number(a)) =~= s1.stack);
    assert(step_m(prog, init) == SStep::Next(s1));
    assert(s1.stack.push(Value::Number(b)) =~= s2.stack);
    assert(step_m(prog, s1) == SStep::Next(s2));
    assert(run_n(prog, init, 1) == s1);
    assert(run_n(prog, init, 2) == s2);
    assert(s2.stack[0] == Value::Number(a));
    assert(s2.stack[1] == Value::Number(b));
    if binop_result(prog[2], a, b) is Fault {
        assert(step_m(prog, s2) == SStep::End(binop_result(prog[2], a, b)));
    } else {
        let r = binop_result(prog[2], a, b);
        let rv = match r {
            SOut::Done(v) => v,
            _ => Value::Boolean(false),
        };
        let s3 = MState { stack: seq![rv], ip: 3, ..init };
        assert(s2.stack.take(0).push(rv) =~= s3.stack);
        assert(step_m(prog, s2) == SStep::Next(s3));
        assert(run_n(prog, init, 3) == s3);
        assert(step_m(prog, s3) == SStep::End(SOut::Done(rv)));
    }
}

/// Law: calling a closure with an argument count that differs from its
/// declared parameter count is a fatal arity-mismatch fault, never a
/// partial application.
pub proof fn lemma_arity_mismatch(prog: Seq<Cmd>, s: MState, n: usize)
    requires
        s.ip != s.end,
        0 <= s.ip < prog.len(),
        s.end <= prog.len(),
        prog[s.ip] == Cmd::Call(n),
        s.stack.len() >= n + 1,
        s.stack[s.stack.len() - n - 1] is Closure,
        s.stack[s.stack.len() - n - 1]->arity != n,
    ensures
        step_m(prog, s) == SStep::End(SOut::Fault(RuntimeFault::ArityMismatch)),
{
}

/// Law: a label met by straight-line flow is skipped in one step — its
/// body is jumped over, the operand stack untouched — so falling through
/// a block never executes a definition's body; only an explicit call of
/// its address does.
pub proof fn lemma_label_skipped(prog: Seq<Cmd>, s: MState, id: usize, l: usize)
    requires
        s.ip != s.end,
        0 <= s.ip < prog.len(),
        s.end <= prog.len(),
        prog[s.ip] == Cmd::Label(id, l),
        l <= prog.len() - s.ip - 1,
    ensures
        step_m(prog, s) == SStep::Next(MState { ip: s.ip + l + 1, ..s }),
{
}

} // verus!

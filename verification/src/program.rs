//! State read programs as bytecode: the operations they hold, in order, and
//! those of them that the state read VM runs.
use crate::vm::Op;
use essential_state_asm::Constraint;
use essential_state_asm::Op as StateReadOp;
use vstd::prelude::*;

verus! {

/// What `TryFromBytes::try_from_bytes` of the state read operations gives
/// for the bytes of `bytecode` from offset `at` on: nothing at the end,
/// else the operation there and the number of bytes it takes, or the text
/// of why no operation can be read there.
pub uninterp spec fn parsed_op_of(bytecode: Seq<u8>, at: int) -> Option<Result<(StateReadOp, usize), Seq<char>>>;

/// The operation at offset `at` of `bytecode` and the number of bytes it
/// takes, as `essential_state_asm` reads it.
///
/// Trusted: what is read depends on the bytes alone and is named
/// [`parsed_op_of`]; every operation takes its opcode byte, so it takes at
/// least one byte and no more than there are.
#[verifier::external_body]
fn parse_op(bytecode: &Vec<u8>, at: usize) -> (r: Option<Result<(StateReadOp, usize), String>>)
    requires
        at <= bytecode@.len(),
    ensures
        match r {
            None => parsed_op_of(bytecode@, at as int) is None,
            Some(Ok((op, n))) => {
                &&& parsed_op_of(bytecode@, at as int) == Some(Ok::<_, Seq<char>>((op, n)))
                &&& 0 < n <= bytecode@.len() - at
            },
            Some(Err(m)) => parsed_op_of(bytecode@, at as int) == Some(
                Err::<(StateReadOp, usize), Seq<char>>(m@),
            ),
        },
{
    let mut bytes = bytecode[at..].iter().copied();
    match <StateReadOp as essential_state_asm::TryFromBytes>::try_from_bytes(&mut bytes)? {
        Ok(op) => Some(Ok((op, essential_state_asm::ToBytes::to_bytes(&op).into_iter().count()))),
        Err(e) => Some(Err(e.to_string())),
    }
}

/// The operations of `bytecode` from offset `at` on, in order, or the
/// offset of the first that cannot be read and why.
pub open spec fn spec_program(bytecode: Seq<u8>, at: int) -> Result<Seq<StateReadOp>, (int, Seq<char>)>
    decreases bytecode.len() - at,
{
    match parsed_op_of(bytecode, at) {
        None => Ok(Seq::empty()),
        Some(Err(m)) => Err((at, m)),
        Some(Ok((op, n))) => if 0 < n && at + n <= bytecode.len() {
            match spec_program(bytecode, at + n) {
                Ok(rest) => Ok(seq![op] + rest),
                Err(e) => Err(e),
            }
        } else {
            Ok(Seq::empty())
        },
    }
}

/// Reads the operations of a state read program from its bytecode, in
/// order; an error gives the offset of the first operation that cannot be
/// read, and why.
pub fn parse_program(bytecode: &Vec<u8>) -> (r: Result<Vec<StateReadOp>, (usize, String)>)
    ensures
        match r {
            Ok(ops) => spec_program(bytecode@, 0) == Ok::<_, (int, Seq<char>)>(ops@),
            Err((at, m)) => spec_program(bytecode@, 0) == Err::<Seq<StateReadOp>, _>((at as int, m@)),
        },
{
    let mut ops: Vec<StateReadOp> = Vec::new();
    let mut at: usize = 0;
    loop
        invariant
            at <= bytecode@.len(),
            forall|rest: Seq<StateReadOp>|
                spec_program(bytecode@, at as int) == Ok::<_, (int, Seq<char>)>(rest)
                    ==> #[trigger] spec_program(bytecode@, 0) == Ok::<_, (int, Seq<char>)>(ops@ + rest),
            forall|e: (int, Seq<char>)|
                spec_program(bytecode@, at as int) == Err::<Seq<StateReadOp>, _>(e)
                    ==> #[trigger] spec_program(bytecode@, 0) == Err::<Seq<StateReadOp>, _>(e),
        decreases bytecode@.len() - at,
    {
        match parse_op(bytecode, at) {
            None => {
                assert(ops@ + Seq::<StateReadOp>::empty() =~= ops@);
                return Ok(ops);
            },
            Some(Err(m)) => {
                return Err((at, m));
            },
            Some(Ok((op, n))) => {
                let ghost before = ops@;
                ops.push(op);
                proof {
                    assert forall|rest: Seq<StateReadOp>|
                        spec_program(bytecode@, (at + n) as int) == Ok::<_, (int, Seq<char>)>(rest)
                        implies #[trigger] spec_program(bytecode@, 0) == Ok::<_, (int, Seq<char>)>(
                        ops@ + rest,
                    ) by {
                        assert(spec_program(bytecode@, at as int) == Ok::<_, (int, Seq<char>)>(
                            seq![op] + rest,
                        ));
                        assert(before + (seq![op] + rest) =~= ops@ + rest);
                    }
                }
                let len = bytecode.len();
                assert(n <= len - at);
                at = at + n;
            },
        }
    }
}

/// The operation of the state read VM that a state read operation is, where
/// the VM runs it: the ALU, predicate, cryptographic, stack, total control
/// flow and temporary memory operations of the constraint set.
pub open spec fn spec_vm_op(op: StateReadOp) -> Option<Op> {
    match op {
        StateReadOp::Constraint(Constraint::Alu(o)) => Some(Op::Alu(o)),
        StateReadOp::Constraint(Constraint::Pred(o)) => Some(Op::Pred(o)),
        StateReadOp::Constraint(Constraint::Crypto(o)) => Some(Op::Crypto(o)),
        StateReadOp::Constraint(Constraint::Stack(o)) => Some(Op::Stack(o)),
        StateReadOp::Constraint(Constraint::TotalControlFlow(o)) => Some(Op::TotalControlFlow(o)),
        StateReadOp::Constraint(Constraint::Temporary(o)) => Some(Op::Temporary(o)),
        _ => None,
    }
}

/// The operation of the state read VM that a state read operation is, if
/// the VM runs it.
pub fn vm_op(op: StateReadOp) -> (r: Option<Op>)
    ensures
        r == spec_vm_op(op),
{
    match op {
        StateReadOp::Constraint(Constraint::Alu(o)) => Some(Op::Alu(o)),
        StateReadOp::Constraint(Constraint::Pred(o)) => Some(Op::Pred(o)),
        StateReadOp::Constraint(Constraint::Crypto(o)) => Some(Op::Crypto(o)),
        StateReadOp::Constraint(Constraint::Stack(o)) => Some(Op::Stack(o)),
        StateReadOp::Constraint(Constraint::TotalControlFlow(o)) => Some(Op::TotalControlFlow(o)),
        StateReadOp::Constraint(Constraint::Temporary(o)) => Some(Op::Temporary(o)),
        _ => None,
    }
}

/// Why the bytecode of a program cannot be run.
#[derive(Debug, PartialEq, Eq)]
pub enum ProgramError {
    /// No operation can be read at this offset; why.
    Parse(usize, String),
    /// The operation with this index is not one the VM runs.
    Unsupported(usize),
}

/// The operations of a program's bytecode as the state read VM runs them, in
/// order: the parse error where the bytecode cannot be read, else the index
/// of the first operation the VM does not run, if any.
pub fn program_ops(bytecode: &Vec<u8>) -> (r: Result<Vec<Op>, ProgramError>)
    ensures
        match spec_program(bytecode@, 0) {
            Err((at, m)) => r matches Err(ProgramError::Parse(a, t)) && a as int == at && t@ == m,
            Ok(ops) => match r {
                Ok(v) => v@.len() == ops.len() && forall|i: int|
                    0 <= i < ops.len() ==> spec_vm_op(#[trigger] ops[i]) == Some(v@[i]),
                Err(ProgramError::Unsupported(i)) => {
                    &&& i < ops.len()
                    &&& spec_vm_op(ops[i as int]) is None
                    &&& forall|j: int| 0 <= j < i ==> spec_vm_op(#[trigger] ops[j]) is Some
                },
                Err(ProgramError::Parse(_, _)) => false,
            },
        },
{
    let parsed = match parse_program(bytecode) {
        Ok(p) => p,
        Err((at, m)) => {
            return Err(ProgramError::Parse(at, m));
        },
    };
    let mut out: Vec<Op> = Vec::new();
    let mut i: usize = 0;
    while i < parsed.len()
        invariant
            spec_program(bytecode@, 0) == Ok::<_, (int, Seq<char>)>(parsed@),
            i <= parsed@.len(),
            out@.len() == i,
            forall|j: int| 0 <= j < i ==> spec_vm_op(#[trigger] parsed@[j]) == Some(out@[j]),
        decreases parsed@.len() - i,
    {
        match vm_op(parsed[i]) {
            Some(op) => {
                out.push(op);
            },
            None => {
                assert(forall|j: int| 0 <= j < i ==> spec_vm_op(#[trigger] parsed@[j]) is Some);
                assert(spec_vm_op(parsed@[i as int]) is None);
                return Err(ProgramError::Unsupported(i));
            },
        }
        i = i + 1;
    }
    Ok(out)
}

} // verus!

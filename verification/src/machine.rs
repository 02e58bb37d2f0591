//! The meaning of a program: a specification-level step machine over the
//! decoded instruction lines. A state holds the program counter, the operand
//! stack, the variable table and the loop bookmark; one step executes the
//! line at the program counter exactly as the dispatch loop and the engine
//! do. The executable interpreter is verified to return precisely an outcome
//! this machine reaches.

use vstd::prelude::*;

use crate::error::ErrView;
use crate::parse::dec_digits_of;
use crate::parse::parse_i32_of;
use crate::stack::STACK_CAPACITY;
use crate::text::tokens_of;
use crate::vm::unquote_of;

verus! {

/// One configuration of the machine.
pub struct MachineState {
    /// The program counter: the index of the next instruction line.
    pub pc: int,
    /// The operand stack, bottom first.
    pub stack: Seq<i32>,
    /// The variable table.
    pub vars: Map<Seq<char>, i32>,
    /// The loop bookmark: the program counter of the most recently executed
    /// conditional jump, if any.
    pub mark: Option<int>,
}

/// What one step yields: the next configuration, or the run's outcome.
pub enum StepOut {
    Going(MachineState),
    Stopped(Result<i32, ErrView>),
}

/// The starting configuration: program counter zero, no bookmark.
pub open spec fn start_state(stack: Seq<i32>, vars: Map<Seq<char>, i32>) -> MachineState {
    MachineState { pc: 0, stack: stack, vars: vars, mark: None }
}

/// The index of the nearest line at or after `i` whose opcode — its first
/// token — is exactly `END`.
pub open spec fn find_end(prog: Seq<Seq<char>>, i: int) -> Option<int>
    decreases prog.len() - i,
{
    if i < 0 || i >= prog.len() {
        None
    } else if tokens_of(prog[i]).len() > 0 && tokens_of(prog[i])[0] == "END"@ {
        Some(i)
    } else {
        find_end(prog, i + 1)
    }
}

/// The wrong-argument-count message: the opcode, then the actual number of
/// arguments the line held (its tokens after the opcode).
pub open spec fn arity_msg(op: Seq<char>, n: nat) -> Seq<char> {
    op + ": invalid number of arguments - 1 required, but "@ + dec_digits_of(n) + " provided"@
}

/// What a binary arithmetic opcode does once its checked result is known:
/// an underflowing stack or a failed computation stops the run, otherwise
/// both operands are replaced by the result.
pub open spec fn arith_out(s: MachineState, res: Option<i32>) -> StepOut {
    if s.stack.len() < 2 {
        StepOut::Stopped(Err(ErrView::Internal("Stack is empty"@)))
    } else {
        match res {
            Option::None => StepOut::Stopped(Err(ErrView::Internal("Arithmetic fault"@))),
            Option::Some(v) => StepOut::Going(
                MachineState {
                    pc: s.pc + 1,
                    stack: s.stack.drop_last().drop_last().push(v),
                    vars: s.vars,
                    mark: s.mark,
                },
            ),
        }
    }
}

/// One step of the machine: dispatch on the first token of the line at the
/// program counter. Leaving the program ends the run with `0`.
pub open spec fn step_of(prog: Seq<Seq<char>>, s: MachineState) -> StepOut {
    if !(0 <= s.pc < prog.len()) {
        StepOut::Stopped(Ok(0))
    } else {
        let toks = tokens_of(prog[s.pc]);
        if toks.len() == 0 {
            StepOut::Going(MachineState { pc: s.pc + 1, stack: s.stack, vars: s.vars, mark: s.mark })
        } else if toks[0] == "LOAD_VAL"@ {
            if toks.len() != 2 {
                StepOut::Stopped(Err(ErrView::Syntax(arity_msg(toks[0], (toks.len() - 1) as nat))))
            } else {
                match parse_i32_of(toks[1]) {
                    Option::None => StepOut::Stopped(Err(ErrView::Syntax(toks[1]))),
                    Option::Some(v) => if s.stack.len() >= STACK_CAPACITY {
                        StepOut::Stopped(Err(ErrView::StackOverflow))
                    } else {
                        StepOut::Going(
                            MachineState {
                                pc: s.pc + 1,
                                stack: s.stack.push(v),
                                vars: s.vars,
                                mark: s.mark,
                            },
                        )
                    },
                }
            }
        } else if toks[0] == "WRITE_VAR"@ {
            if toks.len() != 2 {
                StepOut::Stopped(Err(ErrView::Syntax(arity_msg(toks[0], (toks.len() - 1) as nat))))
            } else {
                match unquote_of(toks[1]) {
                    Option::None => StepOut::Stopped(Err(ErrView::Syntax(toks[1]))),
                    Option::Some(nm) => if s.stack.len() == 0 {
                        StepOut::Stopped(Err(ErrView::Internal("Stack is empty"@)))
                    } else {
                        StepOut::Going(
                            MachineState {
                                pc: s.pc + 1,
                                stack: s.stack.drop_last(),
                                vars: s.vars.insert(nm, s.stack.last()),
                                mark: s.mark,
                            },
                        )
                    },
                }
            }
        } else if toks[0] == "READ_VAR"@ {
            if toks.len() != 2 {
                StepOut::Stopped(Err(ErrView::Syntax(arity_msg(toks[0], (toks.len() - 1) as nat))))
            } else {
                match unquote_of(toks[1]) {
                    Option::None => StepOut::Stopped(Err(ErrView::Syntax(toks[1]))),
                    Option::Some(nm) => if !s.vars.contains_key(nm) {
                        StepOut::Stopped(Err(ErrView::UndefinedVar(toks[1])))
                    } else if s.stack.len() >= STACK_CAPACITY {
                        StepOut::Stopped(Err(ErrView::StackOverflow))
                    } else {
                        StepOut::Going(
                            MachineState {
                                pc: s.pc + 1,
                                stack: s.stack.push(s.vars[nm]),
                                vars: s.vars,
                                mark: s.mark,
                            },
                        )
                    },
                }
            }
        } else if toks[0] == "ADD"@ {
            arith_out(s, s.stack.last().checked_add(s.stack[s.stack.len() - 2]))
        } else if toks[0] == "SUBTRACT"@ {
            arith_out(s, s.stack.last().checked_sub(s.stack[s.stack.len() - 2]))
        } else if toks[0] == "MULTIPLY"@ {
            arith_out(s, s.stack.last().checked_mul(s.stack[s.stack.len() - 2]))
        } else if toks[0] == "DIVIDE"@ {
            arith_out(s, s.stack.last().checked_div(s.stack[s.stack.len() - 2]))
        } else if toks[0] == "RETURN_VALUE"@ {
            if s.stack.len() == 0 {
                StepOut::Stopped(Err(ErrView::Internal("Stack is empty"@)))
            } else {
                StepOut::Stopped(Ok(s.stack.last()))
            }
        } else if toks[0] == "JUMP_IF_EQ"@ {
            if s.stack.len() < 2 {
                StepOut::Stopped(Err(ErrView::Internal("Stack is empty"@)))
            } else {
                let popped = s.stack.drop_last().drop_last();
                if s.stack.last() != s.stack[s.stack.len() - 2] {
                    StepOut::Going(
                        MachineState { pc: s.pc + 1, stack: popped, vars: s.vars, mark: Some(s.pc) },
                    )
                } else {
                    match find_end(prog, s.pc) {
                        Option::None => StepOut::Stopped(
                            Err(ErrView::Syntax("No END statement for a loop"@)),
                        ),
                        Option::Some(e) => StepOut::Going(
                            MachineState { pc: e + 1, stack: popped, vars: s.vars, mark: Some(s.pc) },
                        ),
                    }
                }
            }
        } else if toks[0] == "END"@ {
            match s.mark {
                Option::None => StepOut::Stopped(
                    Err(ErrView::Syntax("No JUMP* statement for a loop"@)),
                ),
                Option::Some(j) => if j < 2 {
                    StepOut::Stopped(Err(ErrView::Internal("Loop bookmark out of range"@)))
                } else {
                    StepOut::Going(MachineState { pc: j - 2, stack: s.stack, vars: s.vars, mark: s.mark })
                },
            }
        } else {
            StepOut::Stopped(Err(ErrView::InvalidOp(toks[0])))
        }
    }
}

/// The machine after `n` steps from `s`; a stopped machine stays stopped.
pub open spec fn run_steps(prog: Seq<Seq<char>>, s: MachineState, n: nat) -> StepOut
    decreases n,
{
    if n == 0 {
        StepOut::Going(s)
    } else {
        match run_steps(prog, s, (n - 1) as nat) {
            StepOut::Going(c) => step_of(prog, c),
            StepOut::Stopped(r) => StepOut::Stopped(r),
        }
    }
}

/// Some number of steps from `s` ends the run with exactly the outcome `r`.
pub open spec fn reaches_outcome(
    prog: Seq<Seq<char>>,
    s: MachineState,
    r: Result<i32, ErrView>,
) -> bool {
    exists|n: nat| run_steps(prog, s, n) == StepOut::Stopped(r)
}

/// The machine stops within `b` steps from `s`.
pub open spec fn stops_within(prog: Seq<Seq<char>>, s: MachineState, b: nat) -> bool {
    exists|n: nat| n <= b && run_steps(prog, s, n) is Stopped
}

/// A stopped machine keeps its outcome through any further steps.
pub proof fn lemma_stopped_stable(prog: Seq<Seq<char>>, s: MachineState, n: nat, m: nat)
    requires
        n <= m,
        run_steps(prog, s, n) is Stopped,
    ensures
        run_steps(prog, s, m) == run_steps(prog, s, n),
    decreases m,
{
    if n < m {
        lemma_stopped_stable(prog, s, n, (m - 1) as nat);
    }
}

/// One program, one starting state, one outcome: any two completed runs of
/// the machine from the same state agree, so re-running an identical program
/// from a fresh interpreter always yields the same result or error.
pub proof fn lemma_run_deterministic(
    prog: Seq<Seq<char>>,
    s: MachineState,
    r1: Result<i32, ErrView>,
    r2: Result<i32, ErrView>,
)
    requires
        reaches_outcome(prog, s, r1),
        reaches_outcome(prog, s, r2),
    ensures
        r1 == r2,
{
    let n1 = choose|n: nat| run_steps(prog, s, n) == StepOut::Stopped(r1);
    let n2 = choose|n: nat| run_steps(prog, s, n) == StepOut::Stopped(r2);
    if n1 <= n2 {
        lemma_stopped_stable(prog, s, n1, n2);
    } else {
        lemma_stopped_stable(prog, s, n2, n1);
    }
}

/// A machine still going after `b` steps has not stopped within them.
pub proof fn lemma_going_not_stopped(prog: Seq<Seq<char>>, s: MachineState, b: nat)
    requires
        run_steps(prog, s, b) is Going,
    ensures
        !stops_within(prog, s, b),
{
    assert forall|n: nat| n <= b implies !(run_steps(prog, s, n) is Stopped) by {
        if run_steps(prog, s, n) is Stopped {
            lemma_stopped_stable(prog, s, n, b);
        }
    }
}

/// The opcode tokens the dispatch loop recognizes.
pub open spec fn recognized_opcode(op: Seq<char>) -> bool {
    op == "LOAD_VAL"@ || op == "WRITE_VAR"@ || op == "READ_VAR"@ || op == "ADD"@ || op
        == "SUBTRACT"@ || op == "MULTIPLY"@ || op == "DIVIDE"@ || op == "RETURN_VALUE"@ || op
        == "JUMP_IF_EQ"@ || op == "END"@
}

/// An unrecognized opcode stops the run at once with an invalid-operation
/// error that names the offending token.
pub proof fn lemma_unknown_opcode_stops(prog: Seq<Seq<char>>, s: MachineState)
    requires
        0 <= s.pc < prog.len(),
        tokens_of(prog[s.pc]).len() > 0,
        !recognized_opcode(tokens_of(prog[s.pc])[0]),
    ensures
        step_of(prog, s) == StepOut::Stopped(
            Err::<i32, ErrView>(ErrView::InvalidOp(tokens_of(prog[s.pc])[0])),
        ),
{
}

/// Reading a variable that was never written stops the run at once with an
/// undefined-variable error that names the token.
pub proof fn lemma_read_unwritten_stops(prog: Seq<Seq<char>>, s: MachineState, nm: Seq<char>)
    requires
        0 <= s.pc < prog.len(),
        tokens_of(prog[s.pc]).len() == 2,
        tokens_of(prog[s.pc])[0] == "READ_VAR"@,
        unquote_of(tokens_of(prog[s.pc])[1]) == Some(nm),
        !s.vars.contains_key(nm),
    ensures
        step_of(prog, s) == StepOut::Stopped(
            Err::<i32, ErrView>(ErrView::UndefinedVar(tokens_of(prog[s.pc])[1])),
        ),
{
    reveal_strlit("LOAD_VAL");
    reveal_strlit("WRITE_VAR");
    reveal_strlit("READ_VAR");
    let op = tokens_of(prog[s.pc])[0];
    assert(op.len() == 8);
    assert(op[0] == 'R' && "LOAD_VAL"@[0] == 'L');
    assert(op != "LOAD_VAL"@ && op != "WRITE_VAR"@);
}

/// Loading a value onto a stack already at its fixed capacity stops the run
/// at once with a stack-overflow error.
pub proof fn lemma_push_at_capacity_stops(prog: Seq<Seq<char>>, s: MachineState, v: i32)
    requires
        0 <= s.pc < prog.len(),
        tokens_of(prog[s.pc]).len() == 2,
        tokens_of(prog[s.pc])[0] == "LOAD_VAL"@,
        parse_i32_of(tokens_of(prog[s.pc])[1]) == Some(v),
        s.stack.len() >= STACK_CAPACITY,
    ensures
        step_of(prog, s) == StepOut::Stopped(Err::<i32, ErrView>(ErrView::StackOverflow)),
{
}

/// A conditional jump whose comparison holds but with no line whose opcode
/// is `END` at or after it stops the run with a syntax error.
pub proof fn lemma_jump_without_end_stops(prog: Seq<Seq<char>>, s: MachineState)
    requires
        0 <= s.pc < prog.len(),
        tokens_of(prog[s.pc]).len() > 0,
        tokens_of(prog[s.pc])[0] == "JUMP_IF_EQ"@,
        s.stack.len() >= 2,
        s.stack.last() == s.stack[s.stack.len() - 2],
        find_end(prog, s.pc) is None,
    ensures
        step_of(prog, s) == StepOut::Stopped(
            Err::<i32, ErrView>(ErrView::Syntax("No END statement for a loop"@)),
        ),
{
    reveal_strlit("LOAD_VAL");
    reveal_strlit("WRITE_VAR");
    reveal_strlit("READ_VAR");
    reveal_strlit("ADD");
    reveal_strlit("SUBTRACT");
    reveal_strlit("MULTIPLY");
    reveal_strlit("DIVIDE");
    reveal_strlit("RETURN_VALUE");
    reveal_strlit("JUMP_IF_EQ");
    let op = tokens_of(prog[s.pc])[0];
    assert(op.len() == 10);
    assert(op != "LOAD_VAL"@ && op != "WRITE_VAR"@ && op != "READ_VAR"@ && op != "ADD"@ && op
        != "SUBTRACT"@ && op != "MULTIPLY"@ && op != "DIVIDE"@ && op != "RETURN_VALUE"@);
}

/// An `END` line reached with no pending conditional-jump bookmark stops the
/// run with a syntax error. (A `JUMP_IF_EQ` that found too few operands for
/// its comparison stops earlier, with the engine's internal error, before
/// any bookmark exists.)
pub proof fn lemma_end_without_jump_stops(prog: Seq<Seq<char>>, s: MachineState)
    requires
        0 <= s.pc < prog.len(),
        tokens_of(prog[s.pc]).len() > 0,
        tokens_of(prog[s.pc])[0] == "END"@,
        s.mark is None,
    ensures
        step_of(prog, s) == StepOut::Stopped(
            Err::<i32, ErrView>(ErrView::Syntax("No JUMP* statement for a loop"@)),
        ),
{
    reveal_strlit("LOAD_VAL");
    reveal_strlit("WRITE_VAR");
    reveal_strlit("READ_VAR");
    reveal_strlit("ADD");
    reveal_strlit("SUBTRACT");
    reveal_strlit("MULTIPLY");
    reveal_strlit("DIVIDE");
    reveal_strlit("RETURN_VALUE");
    reveal_strlit("JUMP_IF_EQ");
    reveal_strlit("END");
    let op = tokens_of(prog[s.pc])[0];
    assert(op.len() == 3);
    assert(op[0] == 'E' && "ADD"@[0] == 'A');
    assert(op != "LOAD_VAL"@ && op != "WRITE_VAR"@ && op != "READ_VAR"@ && op != "ADD"@ && op
        != "SUBTRACT"@ && op != "MULTIPLY"@ && op != "DIVIDE"@ && op != "RETURN_VALUE"@ && op
        != "JUMP_IF_EQ"@);
}

} // verus!

//! The dispatch loop: owns the decoded instruction lines and the program
//! counter, tokenizes one line per step, routes each opcode to the execution
//! engine, and implements the single loop construct.

use vstd::prelude::*;

use crate::error::outcome_view;
use crate::error::ErrView;
use crate::error::Error;
use crate::machine::arity_msg;
use crate::machine::find_end;
use crate::machine::lemma_going_not_stopped;
use crate::machine::lemma_run_deterministic;
use crate::machine::reaches_outcome;
use crate::machine::run_steps;
use crate::machine::step_of;
use crate::machine::stops_within;
use crate::machine::start_state;
use crate::machine::MachineState;
use crate::machine::StepOut;
use crate::text::load_lines;
use crate::text::program_of;
use crate::text::str_eq;
use crate::text::tokenize;
use crate::text::views_of;
use crate::parse::usize_to_string;
use crate::vm::VM;
use vstd::string::StringExecFns;

verus! {

/// How many machine steps one call of [`Interpreter::run`] will take before
/// giving up on a program that is still running.
pub const STEP_BUDGET: u64 = u64::MAX;

/// What [`Interpreter::run`] returns, given the program and the engine's
/// starting state: the machine's own outcome when it stops within the step
/// budget, and the budget-exhaustion error otherwise.
pub open spec fn run_outcome_spec(
    prog: Seq<Seq<char>>,
    init: MachineState,
    rv: Result<i32, ErrView>,
) -> bool {
    if stops_within(prog, init, STEP_BUDGET as nat) {
        exists|n: nat| n <= STEP_BUDGET as nat && run_steps(prog, init, n) == StepOut::Stopped(rv)
    } else {
        rv == Err::<i32, ErrView>(ErrView::Internal("Step budget exhausted"@))
    }
}

/// One program, one starting engine state, one result: any two results that
/// [`Interpreter::run`] may return from equal states are equal, the budget
/// case included. Re-running an identical program from a fresh interpreter
/// therefore always yields the same result or error.
pub proof fn lemma_run_agrees(
    prog: Seq<Seq<char>>,
    init: MachineState,
    rv1: Result<i32, ErrView>,
    rv2: Result<i32, ErrView>,
)
    requires
        run_outcome_spec(prog, init, rv1),
        run_outcome_spec(prog, init, rv2),
    ensures
        rv1 == rv2,
{
    if stops_within(prog, init, STEP_BUDGET as nat) {
        let n1 = choose|n: nat|
            n <= STEP_BUDGET as nat && run_steps(prog, init, n) == StepOut::Stopped(rv1);
        let n2 = choose|n: nat|
            n <= STEP_BUDGET as nat && run_steps(prog, init, n) == StepOut::Stopped(rv2);
        assert(run_steps(prog, init, n1) == StepOut::Stopped(rv1));
        assert(run_steps(prog, init, n2) == StepOut::Stopped(rv2));
        assert(reaches_outcome(prog, init, rv1));
        assert(reaches_outcome(prog, init, rv2));
        lemma_run_deterministic(prog, init, rv1, rv2);
    }
}

/// The interpreter: the decoded program and the execution engine. It is
/// stateful and meant to execute one program once.
pub struct Interpreter {
    bytecode: Vec<String>,
    vm: VM,
}

/// Checks the shape of an instruction that takes exactly one argument and
/// yields that argument; a wrong argument count is a syntax error naming the
/// opcode and the actual argument count.
pub fn execute_unary<'a>(instruction: &'a Vec<String>) -> (r: Result<&'a str, Error>)
    requires
        instruction@.len() >= 1,
    ensures
        match r {
            Result::Ok(arg) => instruction@.len() == 2 && arg@ == instruction@[1]@,
            Result::Err(e) => instruction@.len() != 2 && e@ == ErrView::Syntax(
                arity_msg(instruction@[0]@, (instruction@.len() - 1) as nat),
            ),
        },
{
    if instruction.len() == 2 {
        Ok(instruction[1].as_str())
    } else {
        let mut m = instruction[0].clone();
        m.append(": invalid number of arguments - 1 required, but ");
        let cnt = usize_to_string(instruction.len() - 1);
        m.append(cnt.as_str());
        m.append(" provided");
        proof {
            assert(m@ =~= arity_msg(instruction@[0]@, (instruction@.len() - 1) as nat));
        }
        Err(Error::Syntax(m))
    }
}

impl Interpreter {
    /// The decoded instruction lines.
    pub closed spec fn prog(&self) -> Seq<Seq<char>> {
        views_of(self.bytecode@)
    }

    /// The operand stack of the engine, bottom first.
    pub closed spec fn stack_model(&self) -> Seq<i32> {
        self.vm.stack_m()
    }

    /// The variable table of the engine.
    pub closed spec fn table_model(&self) -> Map<Seq<char>, i32> {
        self.vm.table_m()
    }

    /// Well-formedness of the engine's state.
    pub closed spec fn wf(&self) -> bool {
        self.vm.wf()
    }

    /// Decodes the bytecode text into a fresh interpreter: every nonempty
    /// line of the text, trimmed, and an empty engine.
    pub fn new(bytecode: &str) -> (r: Interpreter)
        ensures
            r.wf(),
            r.prog() == program_of(bytecode@),
            r.stack_model() == Seq::<i32>::empty(),
            r.table_model() == Map::<Seq<char>, i32>::empty(),
    {
        Interpreter { bytecode: load_lines(bytecode), vm: VM::new() }
    }

    /// Executes the program to completion and yields its value or error:
    /// exactly an outcome the step machine reaches from this interpreter's
    /// state. A program still running after [`STEP_BUDGET`] machine steps is
    /// abandoned with an internal error.
    #[verifier::loop_isolation(false)]
    pub fn run(&mut self) -> (r: Result<i32, Error>)
        requires
            old(self).wf(),
        ensures
            final(self).wf(),
            final(self).prog() == old(self).prog(),
            run_outcome_spec(
                old(self).prog(),
                start_state(old(self).stack_model(), old(self).table_model()),
                outcome_view(r),
            ),
    {
        let ghost prog = old(self).prog();
        let ghost init = start_state(old(self).stack_model(), old(self).table_model());
        let ghost mut steps: nat = 0;
        let mut taken: u64 = 0;
        let mut line: usize = 0;
        let mut last_jump_line: Option<usize> = None;

        while taken < STEP_BUDGET
            invariant
                self.vm.wf(),
                self.bytecode == old(self).bytecode,
                taken <= STEP_BUDGET,
                steps == taken as nat,
                run_steps(prog, init, steps) == StepOut::Going(
                    MachineState {
                        pc: line as int,
                        stack: self.vm.stack_m(),
                        vars: self.vm.table_m(),
                        mark: (match last_jump_line {
                            Option::None => None,
                            Option::Some(j) => Some(j as int),
                        }),
                    },
                ),
            decreases STEP_BUDGET - taken,
        {
            let ghost cur = MachineState {
                pc: line as int,
                stack: self.vm.stack_m(),
                vars: self.vm.table_m(),
                mark: (match last_jump_line {
                    Option::None => None,
                    Option::Some(j) => Some(j as int),
                }),
            };
            if line >= self.bytecode.len() {
                proof {
                    steps = steps + 1;
                    assert(run_steps(prog, init, steps) == step_of(prog, cur));
                }
                return Ok(0);
            }
            let toks = tokenize(self.bytecode[line].as_str());
            let ghost toksv = crate::text::tokens_of(prog[line as int]);
            proof {
                assert(views_of(toks@) == toksv);
            }
            if toks.len() == 0 {
                proof {
                    steps = steps + 1;
                    assert(run_steps(prog, init, steps) == step_of(prog, cur));
                }
                line += 1;
            } else {
                proof {
                    assert(toks@[0]@ == toksv[0]);
                }
                if str_eq(toks[0].as_str(), "LOAD_VAL") {
                    match execute_unary(&toks) {
                        Err(e) => {
                            proof {
                                steps = steps + 1;
                                assert(run_steps(prog, init, steps) == step_of(prog, cur));
                            }
                            taken += 1;
                            return Err(e);
                        },
                        Ok(arg) => {
                            match self.vm.load_value(arg) {
                                Err(e) => {
                                    proof {
                                        steps = steps + 1;
                                        assert(run_steps(prog, init, steps) == step_of(prog, cur));
                                    }
                                    taken += 1;
                                    return Err(e);
                                },
                                Ok(_) => {
                                    proof {
                                        steps = steps + 1;
                                        assert(run_steps(prog, init, steps) == step_of(prog, cur));
                                    }
                                    line += 1;
                                },
                            }
                        },
                    }
                } else if str_eq(toks[0].as_str(), "WRITE_VAR") {
                    match execute_unary(&toks) {
                        Err(e) => {
                            proof {
                                steps = steps + 1;
                                assert(run_steps(prog, init, steps) == step_of(prog, cur));
                            }
                            taken += 1;
                            return Err(e);
                        },
                        Ok(arg) => {
                            match self.vm.write_var(arg) {
                                Err(e) => {
                                    proof {
                                        steps = steps + 1;
                                        assert(run_steps(prog, init, steps) == step_of(prog, cur));
                                    }
                                    taken += 1;
                                    return Err(e);
                                },
                                Ok(_) => {
                                    proof {
                                        steps = steps + 1;
                                        assert(run_steps(prog, init, steps) == step_of(prog, cur));
                                    }
                                    line += 1;
                                },
                            }
                        },
                    }
                } else if str_eq(toks[0].as_str(), "READ_VAR") {
                    match execute_unary(&toks) {
                        Err(e) => {
                            proof {
                                steps = steps + 1;
                                assert(run_steps(prog, init, steps) == step_of(prog, cur));
                            }
                            taken += 1;
                            return Err(e);
                        },
                        Ok(arg) => {
                            match self.vm.read_var(arg) {
                                Err(e) => {
                                    proof {
                                        steps = steps + 1;
                                        assert(run_steps(prog, init, steps) == step_of(prog, cur));
                                    }
                                    taken += 1;
                                    return Err(e);
                                },
                                Ok(_) => {
                                    proof {
                                        steps = steps + 1;
                                        assert(run_steps(prog, init, steps) == step_of(prog, cur));
                                    }
                                    line += 1;
                                },
                            }
                        },
                    }
                } else if str_eq(toks[0].as_str(), "ADD") {
                    match self.vm.add() {
                        Err(e) => {
                            proof {
                                steps = steps + 1;
                                assert(run_steps(prog, init, steps) == step_of(prog, cur));
                            }
                            taken += 1;
                            return Err(e);
                        },
                        Ok(_) => {
                            proof {
                                steps = steps + 1;
                                assert(run_steps(prog, init, steps) == step_of(prog, cur));
                            }
                            line += 1;
                        },
                    }
                } else if str_eq(toks[0].as_str(), "SUBTRACT") {
                    match self.vm.sub() {
                        Err(e) => {
                            proof {
                                steps = steps + 1;
                                assert(run_steps(prog, init, steps) == step_of(prog, cur));
                            }
                            taken += 1;
                            return Err(e);
                        },
                        Ok(_) => {
                            proof {
                                steps = steps + 1;
                                assert(run_steps(prog, init, steps) == step_of(prog, cur));
                            }
                            line += 1;
                        },
                    }
                } else if str_eq(toks[0].as_str(), "MULTIPLY") {
                    match self.vm.mul() {
                        Err(e) => {
                            proof {
                                steps = steps + 1;
                                assert(run_steps(prog, init, steps) == step_of(prog, cur));
                            }
                            taken += 1;
                            return Err(e);
                        },
                        Ok(_) => {
                            proof {
                                steps = steps + 1;
                                assert(run_steps(prog, init, steps) == step_of(prog, cur));
                            }
                            line += 1;
                        },
                    }
                } else if str_eq(toks[0].as_str(), "DIVIDE") {
                    match self.vm.div() {
                        Err(e) => {
                            proof {
                                steps = steps + 1;
                                assert(run_steps(prog, init, steps) == step_of(prog, cur));
                            }
                            taken += 1;
                            return Err(e);
                        },
                        Ok(_) => {
                            proof {
                                steps = steps + 1;
                                assert(run_steps(prog, init, steps) == step_of(prog, cur));
                            }
                            line += 1;
                        },
                    }
                } else if str_eq(toks[0].as_str(), "RETURN_VALUE") {
                    let r = self.vm.ret();
                    proof {
                        steps = steps + 1;
                        assert(run_steps(prog, init, steps) == step_of(prog, cur));
                    }
                    taken += 1;
                    return r;
                } else if str_eq(toks[0].as_str(), "JUMP_IF_EQ") {
                    last_jump_line = Some(line);
                    match self.vm.is_eq() {
                        Err(e) => {
                            proof {
                                steps = steps + 1;
                                assert(run_steps(prog, init, steps) == step_of(prog, cur));
                            }
                            taken += 1;
                            return Err(e);
                        },
                        Ok(eq) => {
                            if eq {
                                let mut k: usize = line;
                                #[verifier::loop_isolation(true)]
                                while k < self.bytecode.len()
                                    invariant
                                        prog == views_of(self.bytecode@),
                                        line <= k <= self.bytecode@.len(),
                                        find_end(prog, line as int) == find_end(prog, k as int),
                                    ensures
                                        prog == views_of(self.bytecode@),
                                        line <= k <= self.bytecode@.len(),
                                        find_end(prog, line as int) == find_end(prog, k as int),
                                        k < self.bytecode@.len() ==> find_end(prog, k as int)
                                            == Some(k as int),
                                        k == self.bytecode@.len() ==> find_end(
                                            prog,
                                            k as int,
                                        ) is None,
                                    decreases self.bytecode@.len() - k,
                                {
                                    let lt = tokenize(self.bytecode[k].as_str());
                                    proof {
                                        assert(views_of(lt@) == crate::text::tokens_of(
                                            prog[k as int],
                                        ));
                                    }
                                    if lt.len() >= 1 && str_eq(lt[0].as_str(), "END") {
                                        proof {
                                            assert(views_of(lt@)[0] == lt@[0]@);
                                            assert(find_end(prog, k as int) == Some(k as int));
                                        }
                                        break ;
                                    }
                                    k += 1;
                                }
                                if k < self.bytecode.len() {
                                    proof {
                                        steps = steps + 1;
                                        assert(run_steps(prog, init, steps) == step_of(prog, cur));
                                    }
                                    line = k + 1;
                                } else {
                                    proof {
                                        steps = steps + 1;
                                        assert(run_steps(prog, init, steps) == step_of(prog, cur));
                                    }
                                    taken += 1;
                                    return Err(
                                        Error::Syntax("No END statement for a loop".to_owned()),
                                    );
                                }
                            } else {
                                proof {
                                    steps = steps + 1;
                                    assert(run_steps(prog, init, steps) == step_of(prog, cur));
                                }
                                line += 1;
                            }
                        },
                    }
                } else if str_eq(toks[0].as_str(), "END") {
                    match last_jump_line {
                        None => {
                            proof {
                                steps = steps + 1;
                                assert(run_steps(prog, init, steps) == step_of(prog, cur));
                            }
                            taken += 1;
                            return Err(Error::Syntax("No JUMP* statement for a loop".to_owned()));
                        },
                        Some(j) => {
                            if j < 2 {
                                proof {
                                    steps = steps + 1;
                                    assert(run_steps(prog, init, steps) == step_of(prog, cur));
                                }
                                taken += 1;
                                return Err(
                                    Error::Internal("Loop bookmark out of range".to_owned()),
                                );
                            }
                            proof {
                                steps = steps + 1;
                                assert(run_steps(prog, init, steps) == step_of(prog, cur));
                            }
                            line = j - 2;
                        },
                    }
                } else {
                    proof {
                        steps = steps + 1;
                        assert(run_steps(prog, init, steps) == step_of(prog, cur));
                    }
                    taken += 1;
                    return Err(Error::InvalidOp(toks[0].clone()));
                }
            }
            taken += 1;
        }
        proof {
            lemma_going_not_stopped(prog, init, STEP_BUDGET as nat);
        }
        Err(Error::Internal("Step budget exhausted".to_owned()))
    }
}

} // verus!

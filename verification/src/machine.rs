//! The execution engine: a three-register abstract machine over an
//! instruction queue (code), a value stack (environment) and a stack of
//! saved frames (dump). One step consumes the front instruction, or returns
//! from a drained frame; the machine halts when queue and dump are both
//! empty.

use vstd::prelude::*;
use std::rc::Rc;

use crate::inst::{
    apps_code, code_view, env_view, lemma_env_view_index, lemma_env_view_push, spec_get_char,
    Abstraction, Application, CharFn, Instruction, InstructionV, Value, CE, CEV, ValueV,
};
use crate::copy_helpers::{copy_code, copy_env, ValueClone};

verus! {

broadcast use vstd::std_specs::vec::group_vec_axioms, vstd::seq::group_seq_axioms;

/// A condition that aborts a run: an application index beyond the
/// environment, or a byte operation on a value without a byte.
#[derive(Clone, Copy, PartialEq, Eq, Structural, Debug)]
pub enum Fatal {
    IndexRange,
    TypeMismatch,
}

/// What one machine step did. `NeedsByte` reports that the front
/// instruction applies the input built-in: the machine is left unchanged
/// until `feed_byte` supplies the outcome of the read.
#[derive(Clone, Copy, PartialEq, Eq, Structural, Debug)]
pub enum StepEvent {
    Progress,
    Wrote(u8),
    NeedsByte,
    Halted,
}

/// The status of a (possibly unfinished) run.
#[derive(Clone, Copy, PartialEq, Eq, Structural, Debug)]
pub enum RunStatus {
    Running,
    Halted,
    Failed(Fatal),
}

/// The mathematical view of the machine state.
#[verifier::ext_equal]
pub ghost struct CEDV {
    pub code: Seq<InstructionV>,
    pub env: Seq<ValueV>,
    pub dumps: Seq<CEV>,
}

/// The machine state: pending code, the current environment, and the dump
/// of saved frames.
#[derive(Debug)]
pub struct CED {
    pub code: Vec<Instruction>,
    pub env: Vec<Value>,
    pub dumps: Vec<CE>,
}

/// The view of a dump, frame by frame.
pub open spec fn dumps_view(s: Seq<CE>) -> Seq<CEV> {
    s.map_values(|ce: CE| ce@)
}

impl View for CED {
    type V = CEDV;

    open spec fn view(&self) -> CEDV {
        CEDV {
            code: code_view(self.code@),
            env: env_view(self.env@),
            dumps: dumps_view(self.dumps@),
        }
    }
}

/// The identity closure: empty code over an empty environment. Applied to
/// an argument, it returns that argument unchanged.
pub open spec fn id_value() -> ValueV {
    ValueV::Closure(CEV { code: Seq::empty(), env: Seq::empty() })
}

/// The closure standing for Church truth: doubly applied, it selects the
/// first of the two arguments.
pub open spec fn true_value() -> ValueV {
    ValueV::Closure(
        CEV {
            code: seq![
                InstructionV::Abstraction {
                    arity: 1,
                    body: seq![Application { fun: 3, arg: 2 }],
                },
            ],
            env: seq![id_value()],
        },
    )
}

/// The closure standing for Church falsehood: doubly applied, it selects
/// the second of the two arguments.
pub open spec fn false_value() -> ValueV {
    ValueV::Closure(
        CEV {
            code: seq![InstructionV::Abstraction { arity: 1, body: Seq::empty() }],
            env: Seq::empty(),
        },
    )
}

/// The closure an abstraction evaluates to: one parameter is bound at a
/// time, so an abstraction of higher arity captures a body holding the
/// reduced abstraction instead.
pub open spec fn spec_abs_closure(arity: usize, body: Seq<Application>, env: Seq<ValueV>) -> ValueV {
    if arity <= 1 {
        ValueV::Closure(CEV { code: apps_code(body), env })
    } else {
        ValueV::Closure(
            CEV {
                code: seq![
                    InstructionV::Abstraction { arity: (arity - 1) as usize, body },
                ],
                env,
            },
        )
    }
}

/// What one machine step does and produces.
pub ghost enum StepV {
    Ran(CEDV),
    Wrote(CEDV, u8),
    NeedsByte,
    Halted,
    Fatal(Fatal),
}

/// Applying value `f` to value `x`, with `rest` the code after the
/// application, in environment `env` over dump `dumps`:
/// - a closure saves the caller as a frame and enters its captured snapshot
///   with `x` pushed;
/// - a byte value pushes the Church boolean of the byte comparison;
/// - the output built-in reports `x`'s byte and pushes `x` back unchanged;
/// - the input built-in pauses for a byte;
/// - the increment built-in pushes `x`'s byte plus one, wrapping at 255.
pub open spec fn spec_apply(
    f: ValueV,
    x: ValueV,
    rest: Seq<InstructionV>,
    env: Seq<ValueV>,
    dumps: Seq<CEV>,
) -> StepV {
    match f {
        ValueV::Closure(ce) => StepV::Ran(
            CEDV { code: ce.code, env: ce.env.push(x), dumps: dumps.push(CEV { code: rest, env }) },
        ),
        ValueV::CharFn { byte } => StepV::Ran(
            CEDV {
                code: rest,
                env: env.push(
                    if spec_get_char(x) == Some(byte) {
                        true_value()
                    } else {
                        false_value()
                    },
                ),
                dumps,
            },
        ),
        ValueV::OutFn => match spec_get_char(x) {
            Some(b) => StepV::Wrote(CEDV { code: rest, env: env.push(x), dumps }, b),
            None => StepV::Fatal(Fatal::TypeMismatch),
        },
        ValueV::InFn => StepV::NeedsByte,
        ValueV::SuccFn => match spec_get_char(x) {
            Some(b) => StepV::Ran(
                CEDV {
                    code: rest,
                    env: env.push(
                        ValueV::CharFn {
                            byte: if b == 255 {
                                0
                            } else {
                                (b + 1) as u8
                            },
                        },
                    ),
                    dumps,
                },
            ),
            None => StepV::Fatal(Fatal::TypeMismatch),
        },
    }
}

/// One transition of the machine: evaluate the front instruction if there
/// is one; otherwise return through the newest saved frame; otherwise halt.
pub open spec fn spec_step(m: CEDV) -> StepV {
    if m.code.len() > 0 {
        let rest = m.code.drop_first();
        match m.code[0] {
            InstructionV::Abstraction { arity, body } => StepV::Ran(
                CEDV {
                    code: rest,
                    env: m.env.push(spec_abs_closure(arity, body, m.env)),
                    dumps: m.dumps,
                },
            ),
            InstructionV::Application(app) => if 1 <= app.fun && app.fun <= m.env.len() && 1
                <= app.arg && app.arg <= m.env.len() {
                spec_apply(
                    m.env[m.env.len() - app.fun],
                    m.env[m.env.len() - app.arg],
                    rest,
                    m.env,
                    m.dumps,
                )
            } else {
                StepV::Fatal(Fatal::IndexRange)
            },
        }
    } else if m.dumps.len() > 0 {
        let frame = m.dumps.last();
        StepV::Ran(
            CEDV {
                code: frame.code,
                env: frame.env.push(m.env.last()),
                dumps: m.dumps.drop_last(),
            },
        )
    } else {
        StepV::Halted
    }
}

/// The machine can take a step: a return with an empty environment is the
/// one stuck shape, and it is unreachable from any compiled program.
pub open spec fn steppable(m: CEDV) -> bool {
    m.code.len() > 0 || m.dumps.len() == 0 || m.env.len() > 0
}

/// The state after the paused input application is completed with `b`: a
/// fresh byte value on success, the argument pushed back unchanged on end
/// of stream.
pub open spec fn spec_feed(m: CEDV, b: Option<u8>) -> CEDV {
    let app = m.code[0]->Application_0;
    CEDV {
        code: m.code.drop_first(),
        env: m.env.push(
            match b {
                Some(c) => ValueV::CharFn { byte: c },
                None => m.env[m.env.len() - app.arg],
            },
        ),
        dumps: m.dumps,
    }
}

impl CED {
    /// Pushes a value onto the environment.
    pub fn push_env(&mut self, v: Value)
        ensures
            final(self)@.code == old(self)@.code,
            final(self)@.dumps == old(self)@.dumps,
            final(self)@.env == old(self)@.env.push(v@),
    {
        proof {
            lemma_env_view_push(self.env@, v);
        }
        self.env.push(v);
    }

    /// The value `idx` positions from the top of the environment; index 1
    /// is the most recently pushed value.
    pub fn get_env_val(&self, idx: usize) -> (r: &Value)
        requires
            1 <= idx <= self@.env.len(),
        ensures
            r@ == self@.env[self@.env.len() - idx],
    {
        proof {
            lemma_env_view_index(self.env@);
        }
        &self.env[self.env.len() - idx]
    }

    /// Wraps `c` and a snapshot of the current environment into a closure
    /// and pushes it.
    pub fn push_env_code(&mut self, c: Vec<Instruction>)
        ensures
            final(self)@.code == old(self)@.code,
            final(self)@.dumps == old(self)@.dumps,
            final(self)@.env == old(self)@.env.push(
                ValueV::Closure(CEV { code: code_view(c@), env: old(self)@.env }),
            ),
    {
        let snapshot = copy_env(&self.env);
        proof {
            lemma_env_view_index(self.env@);
            lemma_env_view_index(snapshot@);
            assert(env_view(snapshot@) =~= env_view(self.env@));
        }
        let ce = CE { code: Rc::new(c), env: Rc::new(snapshot) };
        self.push_env(Value::Closure(ce));
    }

    /// Removes and returns the front instruction of the queue, if any.
    pub fn pop_code(&mut self) -> (r: Option<Instruction>)
        ensures
            match r {
                None => *final(self) == *old(self) && old(self)@.code.len() == 0,
                Some(inst) => old(self)@.code.len() > 0 && inst@ == old(self)@.code[0]
                    && final(self)@.code == old(self)@.code.drop_first()
                    && final(self)@.env == old(self)@.env
                    && final(self)@.dumps == old(self)@.dumps,
            },
    {
        if self.code.len() == 0 {
            None
        } else {
            let inst = self.code.remove(0);
            proof {
                assert(self.code@ =~= old(self).code@.drop_first());
                assert(code_view(self.code@) =~= code_view(old(self).code@).drop_first());
            }
            Some(inst)
        }
    }

    /// Saves the active code and environment as a frame on the dump and
    /// enters the snapshot `new_ce`.
    pub fn save_dump(&mut self, new_ce: CE)
        ensures
            final(self)@.code == new_ce@.code,
            final(self)@.env == new_ce@.env,
            final(self)@.dumps == old(self)@.dumps.push(
                CEV { code: old(self)@.code, env: old(self)@.env },
            ),
    {
        let mut code = copy_code(&*new_ce.code);
        let mut env = copy_env(&*new_ce.env);
        core::mem::swap(&mut self.code, &mut code);
        core::mem::swap(&mut self.env, &mut env);
        let frame = CE { code: Rc::new(code), env: Rc::new(env) };
        proof {
            lemma_env_view_index(new_ce.env@);
            lemma_env_view_index(self.env@);
            assert(env_view(self.env@) =~= env_view(new_ce.env@));
            assert(code_view(self.code@) =~= code_view(new_ce.code@));
            assert(frame@ == CEV { code: old(self)@.code, env: old(self)@.env });
        }
        self.dumps.push(frame);
        proof {
            assert(dumps_view(self.dumps@) =~= dumps_view(old(self).dumps@).push(frame@));
        }
    }

    /// Pops the newest saved frame, restores its code and environment, and
    /// pushes the last value of the drained environment — the produced
    /// result — onto the restored one. Returns false when the dump is
    /// empty, leaving the machine unchanged.
    pub fn restore_dump(&mut self) -> (r: bool)
        requires
            old(self)@.dumps.len() > 0 ==> old(self)@.env.len() > 0,
        ensures
            old(self)@.dumps.len() == 0 ==> r == false && final(self)@ == old(self)@,
            old(self)@.dumps.len() > 0 ==> r == true && final(self)@ == (CEDV {
                code: old(self)@.dumps.last().code,
                env: old(self)@.dumps.last().env.push(old(self)@.env.last()),
                dumps: old(self)@.dumps.drop_last(),
            }),
    {
        let dump = self.dumps.pop();
        match dump {
            None => false,
            Some(frame) => {
                proof {
                    lemma_env_view_index(self.env@);
                    assert(dumps_view(old(self).dumps@)[old(self).dumps@.len() - 1] == frame@);
                    assert(dumps_view(self.dumps@) =~= dumps_view(old(self).dumps@).drop_last());
                }
                let f = self.get_env_val(1).clone_box();
                self.code = copy_code(&*frame.code);
                self.env = copy_env(&*frame.env);
                proof {
                    lemma_env_view_index(frame.env@);
                    lemma_env_view_index(self.env@);
                    assert(env_view(self.env@) =~= env_view(frame.env@));
                    assert(code_view(self.code@) =~= code_view(frame.code@));
                }
                self.push_env(f);
                true
            },
        }
    }
}

/// The identity closure as a machine value.
pub fn ce_id() -> (v: Value)
    ensures
        v@ == id_value(),
{
    let code: Vec<Instruction> = Vec::new();
    let env: Vec<Value> = Vec::new();
    proof {
        assert(code_view(code@) =~= Seq::<InstructionV>::empty());
    }
    Value::Closure(CE { code: Rc::new(code), env: Rc::new(env) })
}

/// The Church-true closure as a machine value.
pub fn ce_true() -> (v: Value)
    ensures
        v@ == true_value(),
{
    let mut body: Vec<Application> = Vec::new();
    body.push(Application { fun: 3, arg: 2 });
    let mut code: Vec<Instruction> = Vec::new();
    code.push(Instruction::Abstraction(Abstraction { arity: 1, body }));
    let mut env: Vec<Value> = Vec::new();
    env.push(ce_id());
    proof {
        assert(code_view(code@) =~= seq![
            InstructionV::Abstraction { arity: 1, body: seq![Application { fun: 3, arg: 2 }] },
        ]);
        lemma_env_view_index(env@);
        assert(env_view(env@) =~= seq![id_value()]);
    }
    Value::Closure(CE { code: Rc::new(code), env: Rc::new(env) })
}

/// The Church-false closure as a machine value.
pub fn ce_false() -> (v: Value)
    ensures
        v@ == false_value(),
{
    let body: Vec<Application> = Vec::new();
    let mut code: Vec<Instruction> = Vec::new();
    code.push(Instruction::Abstraction(Abstraction { arity: 1, body }));
    let env: Vec<Value> = Vec::new();
    proof {
        assert(code_view(code@) =~= seq![
            InstructionV::Abstraction { arity: 1, body: Seq::<Application>::empty() },
        ]);
        assert(env_view(env@) =~= Seq::<ValueV>::empty());
    }
    Value::Closure(CE { code: Rc::new(code), env: Rc::new(env) })
}

/// An application chain as a code vector.
pub fn apps_to_instructions(body: Vec<Application>) -> (r: Vec<Instruction>)
    ensures
        code_view(r@) == apps_code(body@),
{
    let mut r: Vec<Instruction> = Vec::new();
    let mut i: usize = 0;
    while i < body.len()
        invariant
            i <= body@.len(),
            code_view(r@) == apps_code(body@.take(i as int)),
        decreases body@.len() - i,
    {
        let ghost prev = r@;
        r.push(Instruction::Application(body[i]));
        proof {
            crate::inst::lemma_code_view_push(prev, Instruction::Application(body@[i as int]));
            crate::inst::lemma_apps_code_take_push(body@, i as int);
        }
        i = i + 1;
    }
    proof {
        assert(body@.take(body@.len() as int) =~= body@);
    }
    r
}

impl CED {
    /// Evaluates an abstraction: pushes the closure that binds its next
    /// parameter, currying one parameter at a time.
    pub fn eval_abstraction(&mut self, abs: Abstraction)
        ensures
            final(self)@.code == old(self)@.code,
            final(self)@.dumps == old(self)@.dumps,
            final(self)@.env == old(self)@.env.push(
                spec_abs_closure(abs.arity, abs.body@, old(self)@.env),
            ),
    {
        if abs.arity <= 1 {
            let c = apps_to_instructions(abs.body);
            self.push_env_code(c);
        } else {
            let ghost body_view = abs.body@;
            let reduced = Instruction::Abstraction(
                Abstraction { arity: abs.arity - 1, body: abs.body },
            );
            let mut c: Vec<Instruction> = Vec::new();
            c.push(reduced);
            proof {
                assert(code_view(c@) =~= seq![
                    InstructionV::Abstraction {
                        arity: (abs.arity - 1) as usize,
                        body: body_view,
                    },
                ]);
            }
            self.push_env_code(c);
        }
    }

    /// Applies `fun_val` to `arg_val` with the current machine as the
    /// caller. The input built-in is handled by `step` and `feed_byte`, not
    /// here.
    fn apply(&mut self, fun_val: Value, arg_val: Value) -> (r: Result<StepEvent, Fatal>)
        requires
            !(fun_val@ is InFn),
        ensures
            ({
                let s = spec_apply(
                    fun_val@,
                    arg_val@,
                    old(self)@.code,
                    old(self)@.env,
                    old(self)@.dumps,
                );
                match s {
                    StepV::Ran(m2) => r == Ok::<StepEvent, Fatal>(StepEvent::Progress) && (final(self))@ == m2,
                    StepV::Wrote(m2, b) => r == Ok::<StepEvent, Fatal>(StepEvent::Wrote(b))
                        && (final(self))@ == m2,
                    StepV::NeedsByte => false,
                    StepV::Halted => false,
                    StepV::Fatal(k) => r == Err::<StepEvent, Fatal>(k) && (final(self))@ == old(self)@,
                }
            }),
    {
        match fun_val {
            Value::Closure(ce) => {
                self.save_dump(ce);
                self.push_env(arg_val);
                Ok(StepEvent::Progress)
            },
            Value::CharFn(c) => {
                if c.equals(&arg_val) {
                    self.push_env(ce_true());
                } else {
                    self.push_env(ce_false());
                }
                Ok(StepEvent::Progress)
            },
            Value::OutFn => match arg_val.get_char() {
                Some(b) => {
                    self.push_env(arg_val);
                    Ok(StepEvent::Wrote(b))
                },
                None => Err(Fatal::TypeMismatch),
            },
            Value::InFn => {
                proof {
                    assert(false);
                }
                Err(Fatal::TypeMismatch)
            },
            Value::SuccFn => match arg_val.get_char() {
                Some(b) => {
                    let b2: u8 = if b == 255 {
                        0
                    } else {
                        b + 1
                    };
                    self.push_env(Value::CharFn(CharFn { byte: b2 }));
                    Ok(StepEvent::Progress)
                },
                None => Err(Fatal::TypeMismatch),
            },
        }
    }

    /// One machine transition. Evaluates the front instruction, or returns
    /// through the newest saved frame, or halts. An application of the
    /// input built-in consumes nothing and reports `NeedsByte`; the caller
    /// supplies the read outcome through `feed_byte`. A fatal error leaves
    /// the machine unchanged.
    pub fn step(&mut self) -> (r: Result<StepEvent, Fatal>)
        requires
            steppable(old(self)@),
        ensures
            ({
                let s = spec_step(old(self)@);
                match s {
                    StepV::Ran(m2) => r == Ok::<StepEvent, Fatal>(StepEvent::Progress) && (final(self))@ == m2,
                    StepV::Wrote(m2, b) => r == Ok::<StepEvent, Fatal>(StepEvent::Wrote(b))
                        && (final(self))@ == m2,
                    StepV::NeedsByte => r == Ok::<StepEvent, Fatal>(StepEvent::NeedsByte) && (final(self))@ == old(self)@,
                    StepV::Halted => r == Ok::<StepEvent, Fatal>(StepEvent::Halted) && (final(self))@ == old(self)@,
                    StepV::Fatal(k) => r == Err::<StepEvent, Fatal>(k) && (final(self))@ == old(self)@,
                }
            }),
            (r == Ok::<StepEvent, Fatal>(StepEvent::Progress) || r matches Ok(
                StepEvent::Wrote(_),
            )) ==> final(self)@.env.len() > 0,
    {
        if self.code.len() > 0 {
            let app_opt: Option<Application> = match &self.code[0] {
                Instruction::Application(a) => Some(*a),
                Instruction::Abstraction(_) => None,
            };
            match app_opt {
                None => {
                    let inst = self.pop_code();
                    match inst {
                        Some(Instruction::Abstraction(abs)) => {
                            self.eval_abstraction(abs);
                            Ok(StepEvent::Progress)
                        },
                        _ => {
                            proof {
                                assert(false);
                            }
                            Ok(StepEvent::Progress)
                        },
                    }
                },
                Some(app) => {
                    proof {
                        lemma_env_view_index(self.env@);
                    }
                    let n = self.env.len();
                    if app.fun < 1 || app.fun > n || app.arg < 1 || app.arg > n {
                        return Err(Fatal::IndexRange);
                    }
                    let is_in: bool = match self.get_env_val(app.fun) {
                        Value::InFn => true,
                        _ => false,
                    };
                    if is_in {
                        return Ok(StepEvent::NeedsByte);
                    }
                    let needs_byte_arg: bool = match self.get_env_val(app.fun) {
                        Value::OutFn => true,
                        Value::SuccFn => true,
                        _ => false,
                    };
                    if needs_byte_arg {
                        let arg_has_byte: bool = match self.get_env_val(app.arg) {
                            Value::CharFn(_) => true,
                            _ => false,
                        };
                        if !arg_has_byte {
                            return Err(Fatal::TypeMismatch);
                        }
                    }
                    let fun_val = self.get_env_val(app.fun).clone_box();
                    let arg_val = self.get_env_val(app.arg).clone_box();
                    let inst = self.pop_code();
                    self.apply(fun_val, arg_val)
                },
            }
        } else {
            if self.restore_dump() {
                Ok(StepEvent::Progress)
            } else {
                Ok(StepEvent::Halted)
            }
        }
    }

    /// Completes a paused input application. `b` is the byte read, or
    /// `None` on end of stream, in which case the argument value is pushed
    /// back unchanged.
    pub fn feed_byte(&mut self, b: Option<u8>)
        requires
            spec_step(old(self)@) is NeedsByte,
        ensures
            final(self)@ == spec_feed(old(self)@, b),
            final(self)@.env.len() == old(self)@.env.len() + 1,
    {
        proof {
            lemma_env_view_index(self.env@);
        }
        let inst = self.pop_code();
        match inst {
            Some(Instruction::Application(app)) => {
                match b {
                    Some(c) => {
                        self.push_env(Value::CharFn(CharFn { byte: c }));
                    },
                    None => {
                        let arg_val = self.get_env_val(app.arg).clone_box();
                        self.push_env(arg_val);
                    },
                }
            },
            _ => {
                proof {
                    assert(false);
                }
            },
        }
    }
}

/// A run in progress: machine state, how many input bytes were consumed,
/// the bytes written so far, and whether the run still goes on.
pub ghost struct RunV {
    pub m: CEDV,
    pub consumed: int,
    pub output: Seq<u8>,
    pub status: RunStatus,
}

/// A run about to start on machine `m`.
pub open spec fn init_run(m: CEDV) -> RunV {
    RunV { m, consumed: 0, output: Seq::empty(), status: RunStatus::Running }
}

/// One iteration of a run over a buffered input: a finished run stays as it
/// is; otherwise the machine steps once, writing bytes to the output and
/// answering input requests from the buffer — or with end of stream once
/// the buffer is spent.
pub open spec fn spec_run_step(s: RunV, input: Seq<u8>) -> RunV {
    if s.status != RunStatus::Running {
        s
    } else {
        match spec_step(s.m) {
            StepV::Ran(m2) => RunV { m: m2, ..s },
            StepV::Wrote(m2, b) => RunV { m: m2, output: s.output.push(b), ..s },
            StepV::NeedsByte => if s.consumed < input.len() {
                RunV {
                    m: spec_feed(s.m, Some(input[s.consumed])),
                    consumed: s.consumed + 1,
                    ..s
                }
            } else {
                RunV { m: spec_feed(s.m, None), ..s }
            },
            StepV::Halted => RunV { status: RunStatus::Halted, ..s },
            StepV::Fatal(k) => RunV { status: RunStatus::Failed(k), ..s },
        }
    }
}

/// The run after `n` iterations.
pub open spec fn spec_run(s0: RunV, input: Seq<u8>, n: nat) -> RunV
    decreases n,
{
    if n == 0 {
        s0
    } else {
        spec_run_step(spec_run(s0, input, (n - 1) as nat), input)
    }
}

/// A finished run stays finished, unchanged, however many more iterations
/// are taken.
pub proof fn lemma_run_absorbing(s0: RunV, input: Seq<u8>, n: nat, m: nat)
    requires
        n <= m,
        spec_run(s0, input, n).status != RunStatus::Running,
    ensures
        spec_run(s0, input, m) == spec_run(s0, input, n),
    decreases m,
{
    if m > n {
        lemma_run_absorbing(s0, input, n, (m - 1) as nat);
    }
}

/// What a bounded run produced: the bytes written, how many input bytes
/// were consumed, and how the run stands when the step budget is spent.
pub struct RunOutcome {
    pub output: Vec<u8>,
    pub consumed: usize,
    pub status: RunStatus,
}

impl CED {
    /// Runs the machine for at most `fuel` steps against a buffered input,
    /// collecting every byte written. Once the buffer is spent, input
    /// requests are answered with end of stream. A halt or a fatal error
    /// ends the run early; `RunStatus::Running` in the outcome means the
    /// budget ran out first.
    pub fn run(&mut self, input: &Vec<u8>, fuel: usize) -> (r: RunOutcome)
        requires
            old(self)@.env.len() > 0,
        ensures
            ({
                let fin = spec_run(init_run(old(self)@), input@, fuel as nat);
                &&& r.output@ == fin.output
                &&& r.consumed == fin.consumed
                &&& r.status == fin.status
                &&& final(self)@ == fin.m
            }),
            r.status is Halted ==> final(self)@.code.len() == 0 && final(self)@.dumps.len() == 0,
            r.consumed <= input@.len(),
    {
        let ghost s0 = init_run(self@);
        let ghost inp = input@;
        let mut output: Vec<u8> = Vec::new();
        let mut consumed: usize = 0;
        let mut status = RunStatus::Running;
        let mut running = true;
        let mut i: usize = 0;
        while i < fuel && running
            invariant
                i <= fuel,
                consumed <= inp.len(),
                inp == input@,
                running == (status is Running),
                self@.env.len() > 0,
                (RunV { m: self@, consumed: consumed as int, output: output@, status })
                    == spec_run(s0, inp, i as nat),
                status is Halted ==> self@.code.len() == 0 && self@.dumps.len() == 0,
            decreases fuel - i,
        {
            let ghost cur = RunV {
                m: self@,
                consumed: consumed as int,
                output: output@,
                status,
            };
            let r = self.step();
            match r {
                Ok(StepEvent::Progress) => {},
                Ok(StepEvent::Wrote(b)) => {
                    output.push(b);
                },
                Ok(StepEvent::NeedsByte) => {
                    if consumed < input.len() {
                        let c = input[consumed];
                        self.feed_byte(Some(c));
                        consumed = consumed + 1;
                    } else {
                        self.feed_byte(None);
                    }
                },
                Ok(StepEvent::Halted) => {
                    status = RunStatus::Halted;
                    running = false;
                },
                Err(k) => {
                    status = RunStatus::Failed(k);
                    running = false;
                },
            }
            proof {
                assert(spec_run(s0, inp, (i + 1) as nat) == spec_run_step(cur, inp));
            }
            i = i + 1;
        }
        proof {
            if !running {
                lemma_run_absorbing(s0, inp, i as nat, fuel as nat);
            }
        }
        RunOutcome { output, consumed, status }
    }
}

} // verus!

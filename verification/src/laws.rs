//! Laws of the machine semantics: the Church-boolean reduction of the byte
//! equality test, the successor wraparound, the output passthrough, and the
//! fatality of an out-of-range application index.

use vstd::prelude::*;

use crate::inst::{apps_code, spec_get_char, Application, InstructionV, CEV, ValueV};
use crate::machine::{
    false_value, id_value, init_run, lemma_run_absorbing, spec_apply, spec_run, spec_run_step,
    spec_step, true_value, Fatal, RunStatus, RunV, StepV, CEDV,
};

verus! {

broadcast use vstd::std_specs::vec::group_vec_axioms, vstd::seq::group_seq_axioms;

/// A value applied to a value, run in isolation: the closure's snapshot is
/// entered with the argument pushed, over a dump holding one empty frame,
/// and run with no input until it halts; the result is the single value the
/// halted environment holds. `None` when the fuel runs out, the run fails,
/// or `f` is no closure.
pub open spec fn invoke(f: ValueV, x: ValueV, fuel: nat) -> Option<ValueV> {
    if f is Closure {
        let ce = f->0;
        let start = CEDV {
            code: ce.code,
            env: ce.env.push(x),
            dumps: seq![CEV { code: Seq::empty(), env: Seq::empty() }],
        };
        let fin = spec_run(init_run(start), Seq::empty(), fuel);
        if fin.status is Halted {
            Some(fin.m.env.last())
        } else {
            None
        }
    } else {
        None
    }
}

/// The closure left after handing the Church-true closure its first
/// argument.
pub open spec fn true_partial(a: ValueV) -> ValueV {
    ValueV::Closure(
        CEV {
            code: seq![InstructionV::Application(Application { fun: 3, arg: 2 })],
            env: seq![id_value(), a],
        },
    )
}

/// The closure left after handing the Church-false closure its first
/// argument.
pub open spec fn false_partial(a: ValueV) -> ValueV {
    ValueV::Closure(CEV { code: Seq::empty(), env: seq![a] })
}

/// Iterating a run is the same as iterating from the state after one step.
pub proof fn lemma_run_unfold(s: RunV, input: Seq<u8>, n: nat)
    requires
        n >= 1,
    ensures
        spec_run(s, input, n) == spec_run(spec_run_step(s, input), input, (n - 1) as nat),
    decreases n,
{
    let s1 = spec_run_step(s, input);
    if n == 1 {
        assert(spec_run(s, input, 0) == s);
        assert(spec_run(s1, input, 0) == s1);
    } else {
        lemma_run_unfold(s, input, (n - 1) as nat);
        assert(spec_run(s, input, n) == spec_run_step(spec_run(s, input, (n - 1) as nat), input));
        assert(spec_run(s1, input, (n - 1) as nat) == spec_run_step(
            spec_run(s1, input, (n - 2) as nat),
            input,
        ));
    }
}

/// The byte equality test: a byte value applied to another value pushes the
/// Church-true closure exactly when the argument carries the same byte, and
/// the Church-false closure otherwise; nothing else changes.
pub proof fn lemma_char_test(
    y: u8,
    x: ValueV,
    rest: Seq<InstructionV>,
    env: Seq<ValueV>,
    dumps: Seq<CEV>,
)
    ensures
        spec_apply(ValueV::CharFn { byte: y }, x, rest, env, dumps) == StepV::Ran(
            CEDV {
                code: rest,
                env: env.push(
                    if spec_get_char(x) == Some(y) {
                        true_value()
                    } else {
                        false_value()
                    },
                ),
                dumps,
            },
        ),
{
}

/// Boolean reduction, first half: the Church-true closure applied to `a`
/// yields a closure that, applied to any `b`, yields `a` back.
pub proof fn lemma_true_selects_first(a: ValueV, b: ValueV)
    ensures
        invoke(true_value(), a, 3) == Some(true_partial(a)),
        invoke(true_partial(a), b, 4) == Some(a),
{
    let f0 = CEV { code: Seq::<InstructionV>::empty(), env: Seq::<ValueV>::empty() };
    let e: Seq<u8> = Seq::empty();
    let body = seq![Application { fun: 3, arg: 2 }];
    // First application: enter the closure, bind a, return the partial closure.
    {
        let m0 = CEDV {
            code: true_value()->0.code,
            env: true_value()->0.env.push(a),
            dumps: seq![f0],
        };
        assert(m0.env =~= seq![id_value(), a]);
        let m1 = CEDV {
            code: Seq::empty(),
            env: seq![id_value(), a, true_partial(a)],
            dumps: seq![f0],
        };
        assert(spec_step(m0) == StepV::Ran(m1)) by {
            assert(m0.code[0] == InstructionV::Abstraction { arity: 1, body });
            assert(m0.code.drop_first() =~= Seq::<InstructionV>::empty());
            assert(apps_code(body) =~= seq![
                InstructionV::Application(Application { fun: 3, arg: 2 }),
            ]);
            assert(m0.env.push(true_partial(a)) =~= m1.env);
        }
        let m2 = CEDV { code: Seq::empty(), env: seq![true_partial(a)], dumps: Seq::empty() };
        assert(spec_step(m1) == StepV::Ran(m2)) by {
            assert(m1.dumps.last() == f0);
            assert(m1.dumps.drop_last() =~= Seq::<CEV>::empty());
            assert(f0.env.push(m1.env.last()) =~= m2.env);
        }
        assert(spec_step(m2) == StepV::Halted);
        let s0 = init_run(m0);
        let s1 = RunV { m: m1, ..s0 };
        let s2 = RunV { m: m2, ..s0 };
        let s3 = RunV { status: RunStatus::Halted, ..s2 };
        lemma_run_unfold(s0, e, 3);
        lemma_run_unfold(s1, e, 2);
        lemma_run_unfold(s2, e, 1);
        assert(spec_run(s0, e, 3) == s3);
        assert(s3.m.env.last() == true_partial(a));
    }
    // Second application: the partial closure looks up the identity closure
    // and `a`, calls the identity on `a`, and returns `a` through both
    // frames.
    {
        let m0 = CEDV {
            code: true_partial(a)->0.code,
            env: true_partial(a)->0.env.push(b),
            dumps: seq![f0],
        };
        assert(m0.env =~= seq![id_value(), a, b]);
        let g = CEV { code: Seq::empty(), env: m0.env };
        let m1 = CEDV { code: Seq::empty(), env: seq![a], dumps: seq![f0, g] };
        assert(spec_step(m0) == StepV::Ran(m1)) by {
            assert(m0.code[0] == InstructionV::Application(Application { fun: 3, arg: 2 }));
            assert(m0.code.drop_first() =~= Seq::<InstructionV>::empty());
            assert(m0.env.len() == 3);
            assert(m0.env[0] == id_value());
            assert(m0.env[1] == a);
            assert(id_value()->0.env.push(a) =~= seq![a]);
            assert(m0.dumps.push(g) =~= seq![f0, g]);
        }
        let m2 = CEDV { code: Seq::empty(), env: seq![id_value(), a, b, a], dumps: seq![f0] };
        assert(spec_step(m1) == StepV::Ran(m2)) by {
            assert(m1.dumps.last() == g);
            assert(m1.dumps.drop_last() =~= seq![f0]);
            assert(g.env.push(a) =~= m2.env);
        }
        let m3 = CEDV { code: Seq::empty(), env: seq![a], dumps: Seq::empty() };
        assert(spec_step(m2) == StepV::Ran(m3)) by {
            assert(m2.dumps.last() == f0);
            assert(m2.dumps.drop_last() =~= Seq::<CEV>::empty());
            assert(m2.env.last() == a);
            assert(f0.env.push(a) =~= seq![a]);
        }
        assert(spec_step(m3) == StepV::Halted);
        let s0 = init_run(m0);
        let s1 = RunV { m: m1, ..s0 };
        let s2 = RunV { m: m2, ..s0 };
        let s3 = RunV { m: m3, ..s0 };
        let s4 = RunV { status: RunStatus::Halted, ..s3 };
        lemma_run_unfold(s0, e, 4);
        lemma_run_unfold(s1, e, 3);
        lemma_run_unfold(s2, e, 2);
        lemma_run_unfold(s3, e, 1);
        assert(spec_run(s0, e, 4) == s4);
        assert(s4.m.env.last() == a);
    }
}

/// Boolean reduction, second half: the Church-false closure applied to `a`
/// yields a closure that, applied to any `b`, yields `b`.
pub proof fn lemma_false_selects_second(a: ValueV, b: ValueV)
    ensures
        invoke(false_value(), a, 3) == Some(false_partial(a)),
        invoke(false_partial(a), b, 2) == Some(b),
{
    let f0 = CEV { code: Seq::<InstructionV>::empty(), env: Seq::<ValueV>::empty() };
    let e: Seq<u8> = Seq::empty();
    // First application: enter the closure, bind a, return the partial
    // closure with an empty body.
    {
        let m0 = CEDV {
            code: false_value()->0.code,
            env: false_value()->0.env.push(a),
            dumps: seq![f0],
        };
        assert(m0.env =~= seq![a]);
        let m1 = CEDV { code: Seq::empty(), env: seq![a, false_partial(a)], dumps: seq![f0] };
        assert(spec_step(m0) == StepV::Ran(m1)) by {
            assert(m0.code[0] == InstructionV::Abstraction {
                arity: 1,
                body: Seq::<Application>::empty(),
            });
            assert(m0.code.drop_first() =~= Seq::<InstructionV>::empty());
            assert(apps_code(Seq::<Application>::empty()) =~= Seq::<InstructionV>::empty());
            assert(m0.env.push(false_partial(a)) =~= m1.env);
        }
        let m2 = CEDV { code: Seq::empty(), env: seq![false_partial(a)], dumps: Seq::empty() };
        assert(spec_step(m1) == StepV::Ran(m2)) by {
            assert(m1.dumps.last() == f0);
            assert(m1.dumps.drop_last() =~= Seq::<CEV>::empty());
            assert(f0.env.push(m1.env.last()) =~= m2.env);
        }
        assert(spec_step(m2) == StepV::Halted);
        let s0 = init_run(m0);
        let s1 = RunV { m: m1, ..s0 };
        let s2 = RunV { m: m2, ..s0 };
        let s3 = RunV { status: RunStatus::Halted, ..s2 };
        lemma_run_unfold(s0, e, 3);
        lemma_run_unfold(s1, e, 2);
        lemma_run_unfold(s2, e, 1);
        assert(spec_run(s0, e, 3) == s3);
        assert(s3.m.env.last() == false_partial(a));
    }
    // Second application: the body is empty, so the freshly bound `b` is
    // itself the produced result.
    {
        let m0 = CEDV {
            code: false_partial(a)->0.code,
            env: false_partial(a)->0.env.push(b),
            dumps: seq![f0],
        };
        assert(m0.env =~= seq![a, b]);
        let m1 = CEDV { code: Seq::empty(), env: seq![b], dumps: Seq::empty() };
        assert(spec_step(m0) == StepV::Ran(m1)) by {
            assert(m0.dumps.last() == f0);
            assert(m0.dumps.drop_last() =~= Seq::<CEV>::empty());
            assert(m0.env.last() == b);
            assert(f0.env.push(b) =~= seq![b]);
        }
        assert(spec_step(m1) == StepV::Halted);
        let s0 = init_run(m0);
        let s1 = RunV { m: m1, ..s0 };
        let s2 = RunV { status: RunStatus::Halted, ..s1 };
        lemma_run_unfold(s0, e, 2);
        lemma_run_unfold(s1, e, 1);
        assert(spec_run(s0, e, 2) == s2);
        assert(s2.m.env.last() == b);
    }
}

/// Successor wraparound: the increment built-in applied to a byte value
/// pushes that byte plus one, and 255 wraps to 0.
pub proof fn lemma_successor_wraparound(
    x: u8,
    rest: Seq<InstructionV>,
    env: Seq<ValueV>,
    dumps: Seq<CEV>,
)
    ensures
        spec_apply(ValueV::SuccFn, ValueV::CharFn { byte: x }, rest, env, dumps) == StepV::Ran(
            CEDV {
                code: rest,
                env: env.push(
                    ValueV::CharFn {
                        byte: if x == 255 {
                            0
                        } else {
                            (x + 1) as u8
                        },
                    },
                ),
                dumps,
            },
        ),
        x == 255 ==> spec_apply(ValueV::SuccFn, ValueV::CharFn { byte: x }, rest, env, dumps)
            == StepV::Ran(CEDV { code: rest, env: env.push(ValueV::CharFn { byte: 0 }), dumps }),
{
}

/// Output passthrough: the output built-in applied to a byte value reports
/// exactly that byte and pushes the argument back unchanged.
pub proof fn lemma_output_passthrough(
    x: u8,
    rest: Seq<InstructionV>,
    env: Seq<ValueV>,
    dumps: Seq<CEV>,
)
    ensures
        spec_apply(ValueV::OutFn, ValueV::CharFn { byte: x }, rest, env, dumps) == StepV::Wrote(
            CEDV { code: rest, env: env.push(ValueV::CharFn { byte: x }), dumps },
            x,
        ),
{
}

/// A step that writes appends exactly the written byte to the run's
/// output, in order.
pub proof fn lemma_output_run_appends(s: RunV, input: Seq<u8>, m2: CEDV, b: u8)
    requires
        s.status is Running,
        spec_step(s.m) == StepV::Wrote(m2, b),
    ensures
        spec_run_step(s, input).output == s.output.push(b),
        spec_run_step(s, input).m == m2,
{
}

/// Index-range fatality, first half: an application whose argument or
/// function index exceeds the environment (or is zero) steps to the
/// index-range error.
pub proof fn lemma_index_range_fatal(m: CEDV, app: Application)
    requires
        m.code.len() > 0,
        m.code[0] == InstructionV::Application(app),
        app.arg > m.env.len() || app.fun > m.env.len() || app.arg < 1 || app.fun < 1,
    ensures
        spec_step(m) == StepV::Fatal(Fatal::IndexRange),
{
}

/// Index-range fatality, second half: once a step fails, the run aborts
/// there — however many more iterations are granted, no further
/// instruction executes, nothing more is written and nothing more is read.
pub proof fn lemma_fatal_stops_run(s: RunV, input: Seq<u8>, k: Fatal, n: nat)
    requires
        n >= 1,
        s.status is Running,
        spec_step(s.m) == StepV::Fatal(k),
    ensures
        spec_run(s, input, n) == (RunV { status: RunStatus::Failed(k), ..s }),
{
    lemma_run_unfold(s, input, n);
    lemma_run_absorbing(RunV { status: RunStatus::Failed(k), ..s }, input, 0, (n - 1) as nat);
}

} // verus!

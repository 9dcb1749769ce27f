use std::rc::Rc;

use wlang::compiler::compile;
use wlang::copy_helpers::{InstructionClone, ValueClone};
use wlang::inst::{Abstraction, Application, CharFn, Instruction, Value, CE};
use wlang::machine::{Fatal, RunStatus, StepEvent, CED};

fn char_val(b: u8) -> Value {
    Value::CharFn(CharFn { byte: b })
}

fn app(fun: usize, arg: usize) -> Instruction {
    Instruction::Application(Application { fun, arg })
}

fn byte_of(v: &Value) -> u8 {
    match v {
        Value::CharFn(c) => c.byte,
        _ => panic!("expected a byte value"),
    }
}

#[test]
fn end_to_end_default_program() {
    // The default program writes the argument marker's own byte once,
    // consumes no input, and halts with nothing pending.
    let mut ced = compile("wWWwwww");
    let input: Vec<u8> = Vec::new();
    let outcome = ced.run(&input, 100);
    assert_eq!(outcome.status, RunStatus::Halted);
    assert_eq!(outcome.output, vec![b'w']);
    assert_eq!(outcome.consumed, 0);
    assert!(ced.code.is_empty());
    assert!(ced.dumps.is_empty());
}

#[test]
fn end_to_end_successor_program() {
    // Body Application{3, 4} applies the increment built-in to the argument
    // marker byte: no output, and the final result is that byte plus one.
    let mut ced = compile("wWWWwwww");
    let input: Vec<u8> = Vec::new();
    let outcome = ced.run(&input, 100);
    assert_eq!(outcome.status, RunStatus::Halted);
    assert!(outcome.output.is_empty());
    assert_eq!(byte_of(ced.env.last().unwrap()), b'w' + 1);
}

#[test]
fn output_writes_byte_and_passes_value_through() {
    let mut ced = CED {
        code: vec![app(2, 1)],
        env: vec![Value::OutFn, char_val(65)],
        dumps: vec![],
    };
    let r = ced.step();
    assert_eq!(r, Ok(StepEvent::Wrote(65)));
    assert_eq!(byte_of(ced.env.last().unwrap()), 65);
    assert_eq!(ced.env.len(), 3);
}

#[test]
fn successor_increments_byte() {
    let mut ced = CED {
        code: vec![app(2, 1)],
        env: vec![Value::SuccFn, char_val(7)],
        dumps: vec![],
    };
    assert_eq!(ced.step(), Ok(StepEvent::Progress));
    assert_eq!(byte_of(ced.env.last().unwrap()), 8);
}

#[test]
fn successor_wraps_at_255() {
    let mut ced = CED {
        code: vec![app(2, 1)],
        env: vec![Value::SuccFn, char_val(255)],
        dumps: vec![],
    };
    assert_eq!(ced.step(), Ok(StepEvent::Progress));
    assert_eq!(byte_of(ced.env.last().unwrap()), 0);
}

#[test]
fn boolean_true_selects_first_argument() {
    // Apply CharFn{9} to CharFn{9}: the Church-true closure lands on top.
    // Handing it a then b leaves a on top of the environment.
    let a = char_val(1);
    let b = char_val(2);
    let mut ced = CED {
        code: vec![app(4, 3), app(1, 3), app(1, 3)],
        env: vec![char_val(9), char_val(9), a, b],
        dumps: vec![],
    };
    let input: Vec<u8> = Vec::new();
    let outcome = ced.run(&input, 100);
    assert_eq!(outcome.status, RunStatus::Halted);
    assert!(outcome.output.is_empty());
    assert_eq!(byte_of(ced.env.last().unwrap()), 1);
}

#[test]
fn boolean_false_selects_second_argument() {
    // Apply CharFn{9} to CharFn{8}: the Church-false closure lands on top,
    // and the same double application leaves b.
    let a = char_val(1);
    let b = char_val(2);
    let mut ced = CED {
        code: vec![app(3, 4), app(1, 3), app(1, 3)],
        env: vec![char_val(8), char_val(9), a, b],
        dumps: vec![],
    };
    let input: Vec<u8> = Vec::new();
    let outcome = ced.run(&input, 100);
    assert_eq!(outcome.status, RunStatus::Halted);
    assert_eq!(byte_of(ced.env.last().unwrap()), 2);
}

#[test]
fn equality_test_against_closure_argument_is_false() {
    // A value without a byte payload never compares equal: the result
    // behaves as the Church-false closure.
    let a = char_val(1);
    let b = char_val(2);
    let mut ced = CED {
        code: vec![app(2, 1), app(1, 5), app(1, 5)],
        env: vec![a, b, char_val(9), Value::OutFn],
        dumps: vec![],
    };
    let input: Vec<u8> = Vec::new();
    let outcome = ced.run(&input, 100);
    assert_eq!(outcome.status, RunStatus::Halted);
    assert_eq!(byte_of(ced.env.last().unwrap()), 2);
}

#[test]
fn input_pauses_then_takes_byte() {
    let mut ced = CED {
        code: vec![app(2, 1)],
        env: vec![Value::InFn, char_val(7)],
        dumps: vec![],
    };
    assert_eq!(ced.step(), Ok(StepEvent::NeedsByte));
    // The pause leaves the instruction in place; feeding completes it.
    assert_eq!(ced.code.len(), 1);
    ced.feed_byte(Some(42));
    assert!(ced.code.is_empty());
    assert_eq!(byte_of(ced.env.last().unwrap()), 42);
}

#[test]
fn input_end_of_stream_returns_argument_unchanged() {
    let mut ced = CED {
        code: vec![app(2, 1)],
        env: vec![Value::InFn, char_val(7)],
        dumps: vec![],
    };
    assert_eq!(ced.step(), Ok(StepEvent::NeedsByte));
    ced.feed_byte(None);
    assert_eq!(byte_of(ced.env.last().unwrap()), 7);
}

#[test]
fn run_consumes_buffered_input_in_order() {
    // Two input applications: each consumes one byte of the buffer.
    let mut ced = CED {
        code: vec![app(2, 1), app(3, 1)],
        env: vec![Value::InFn, char_val(0)],
        dumps: vec![],
    };
    let input: Vec<u8> = vec![10, 20];
    let outcome = ced.run(&input, 100);
    assert_eq!(outcome.status, RunStatus::Halted);
    assert_eq!(outcome.consumed, 2);
    assert_eq!(byte_of(ced.env.last().unwrap()), 20);
}

#[test]
fn run_spent_buffer_behaves_as_end_of_stream() {
    let mut ced = CED {
        code: vec![app(2, 1)],
        env: vec![Value::InFn, char_val(7)],
        dumps: vec![],
    };
    let input: Vec<u8> = Vec::new();
    let outcome = ced.run(&input, 100);
    assert_eq!(outcome.status, RunStatus::Halted);
    assert_eq!(outcome.consumed, 0);
    assert_eq!(byte_of(ced.env.last().unwrap()), 7);
}

#[test]
fn index_range_aborts_before_anything_else_runs() {
    // The argument index exceeds the environment: the run fails at once,
    // with both instructions still pending and nothing written.
    let mut ced = CED {
        code: vec![app(1, 5), app(1, 1)],
        env: vec![Value::OutFn, char_val(3)],
        dumps: vec![],
    };
    let input: Vec<u8> = Vec::new();
    let outcome = ced.run(&input, 100);
    assert_eq!(outcome.status, RunStatus::Failed(Fatal::IndexRange));
    assert!(outcome.output.is_empty());
    assert_eq!(outcome.consumed, 0);
    assert_eq!(ced.code.len(), 2);
}

#[test]
fn zero_index_is_out_of_range() {
    let mut ced = CED {
        code: vec![app(0, 1)],
        env: vec![char_val(3)],
        dumps: vec![],
    };
    assert_eq!(ced.step(), Err(Fatal::IndexRange));
}

#[test]
fn byte_operation_on_closure_is_type_mismatch() {
    // The increment built-in applied to a value without a byte aborts, and
    // the machine is left untouched.
    let mut ced = CED {
        code: vec![app(2, 1)],
        env: vec![Value::SuccFn, Value::OutFn],
        dumps: vec![],
    };
    assert_eq!(ced.step(), Err(Fatal::TypeMismatch));
    assert_eq!(ced.code.len(), 1);
    assert_eq!(ced.env.len(), 2);
}

#[test]
fn output_of_closure_is_type_mismatch() {
    let mut ced = CED {
        code: vec![app(1, 2)],
        env: vec![Value::InFn, Value::OutFn],
        dumps: vec![],
    };
    let input: Vec<u8> = Vec::new();
    let outcome = ced.run(&input, 100);
    assert_eq!(outcome.status, RunStatus::Failed(Fatal::TypeMismatch));
}

#[test]
fn fuel_runs_out_on_looping_program() {
    // The default program needs six machine steps to halt; after two the
    // run is still going, and the outcome says so.
    let mut ced = compile("wWWwwww");
    let input: Vec<u8> = Vec::new();
    let outcome = ced.run(&input, 2);
    assert_eq!(outcome.status, RunStatus::Running);
}

#[test]
fn abstraction_curries_one_parameter_at_a_time() {
    // Arity 2: evaluating pushes a closure whose body is the reduced
    // abstraction of arity 1.
    let mut ced = CED {
        code: vec![Instruction::Abstraction(Abstraction {
            arity: 2,
            body: vec![Application { fun: 1, arg: 1 }],
        })],
        env: vec![char_val(0)],
        dumps: vec![],
    };
    assert_eq!(ced.step(), Ok(StepEvent::Progress));
    match ced.env.last().unwrap() {
        Value::Closure(ce) => {
            assert_eq!(ce.code.len(), 1);
            match &ce.code[0] {
                Instruction::Abstraction(a) => {
                    assert_eq!(a.arity, 1);
                    assert_eq!(a.body, vec![Application { fun: 1, arg: 1 }]);
                }
                _ => panic!("expected the reduced abstraction"),
            }
            assert_eq!(ce.env.len(), 1);
        }
        _ => panic!("expected a closure"),
    }
}

#[test]
fn clone_box_copies_values_and_instructions() {
    let ce = CE {
        code: Rc::new(vec![app(1, 1)]),
        env: Rc::new(vec![char_val(5)]),
    };
    let copy = Value::Closure(ce).clone_box();
    match copy {
        Value::Closure(c) => {
            assert_eq!(c.code.len(), 1);
            assert_eq!(byte_of(&c.env[0]), 5);
        }
        _ => panic!("expected a closure"),
    }
    let inst = Instruction::Abstraction(Abstraction {
        arity: 3,
        body: vec![Application { fun: 2, arg: 1 }],
    });
    match inst.clone_box() {
        Instruction::Abstraction(a) => {
            assert_eq!(a.arity, 3);
            assert_eq!(a.body, vec![Application { fun: 2, arg: 1 }]);
        }
        _ => panic!("expected an abstraction"),
    }
}

//! The instruction and value data model: abstraction and application
//! instructions, the five value kinds, and the closure/frame pair, together
//! with their mathematical views.

use vstd::prelude::*;
use std::rc::Rc;

verus! {

broadcast use vstd::std_specs::vec::group_vec_axioms, vstd::seq::group_seq_axioms;

/// An application instruction: invoke the value `fun` positions from the top
/// of the environment with the value `arg` positions from the top. Both
/// indices are 1-based from the top.
#[derive(Clone, Copy, PartialEq, Eq, Structural, Debug)]
pub struct Application {
    pub fun: usize,
    pub arg: usize,
}

/// An abstraction instruction: a curried function of `arity` parameters
/// whose body is a chain of applications.
#[derive(Debug)]
pub struct Abstraction {
    pub arity: usize,
    pub body: Vec<Application>,
}

/// One instruction of a compiled program.
#[derive(Debug)]
pub enum Instruction {
    Application(Application),
    Abstraction(Abstraction),
}

/// The mathematical view of an instruction. An abstraction's body is the
/// sequence of its applications.
pub ghost enum InstructionV {
    Application(Application),
    Abstraction { arity: usize, body: Seq<Application> },
}

impl View for Application {
    type V = InstructionV;

    open spec fn view(&self) -> InstructionV {
        InstructionV::Application(*self)
    }
}

impl View for Abstraction {
    type V = InstructionV;

    open spec fn view(&self) -> InstructionV {
        InstructionV::Abstraction { arity: self.arity, body: self.body@ }
    }
}

impl View for Instruction {
    type V = InstructionV;

    open spec fn view(&self) -> InstructionV {
        match *self {
            Instruction::Application(a) => InstructionV::Application(a),
            Instruction::Abstraction(Abstraction { arity, body }) => InstructionV::Abstraction {
                arity,
                body: body@,
            },
        }
    }
}

/// The view of a code sequence, instruction by instruction.
pub open spec fn code_view(code: Seq<Instruction>) -> Seq<InstructionV> {
    code.map_values(|i: Instruction| i@)
}

/// An application chain seen as instructions: the form every abstraction
/// body takes.
pub open spec fn apps_code(body: Seq<Application>) -> Seq<InstructionV> {
    body.map_values(|a: Application| InstructionV::Application(a))
}

/// A byte value. Applying it to another value tests that value's byte for
/// equality with this one.
#[derive(Clone, Copy, PartialEq, Eq, Structural, Debug)]
pub struct CharFn {
    pub byte: u8,
}

/// A code/environment pair: the captured snapshot a closure carries, and
/// likewise the shape of a saved frame on the dump. The snapshot is shared
/// structurally, never mutated, so a logical copy is cheap.
#[derive(Debug)]
pub struct CE {
    pub code: Rc<Vec<Instruction>>,
    pub env: Rc<Vec<Value>>,
}

/// One value of the machine: a closure, a byte, or one of the three
/// stateless built-ins for input, output and increment.
#[derive(Debug)]
pub enum Value {
    Closure(CE),
    CharFn(CharFn),
    InFn,
    OutFn,
    SuccFn,
}

/// The mathematical view of a code/environment pair.
#[verifier::ext_equal]
pub ghost struct CEV {
    pub code: Seq<InstructionV>,
    pub env: Seq<ValueV>,
}

/// The mathematical view of a value.
pub ghost enum ValueV {
    Closure(CEV),
    CharFn { byte: u8 },
    InFn,
    OutFn,
    SuccFn,
}

/// The view of a value; a closure's captured code and environment are viewed
/// element by element.
pub open spec fn value_view(v: Value) -> ValueV
    decreases v,
{
    match v {
        Value::Closure(ce) => ValueV::Closure(
            CEV { code: code_view(ce.code@), env: env_view(ce.env@) },
        ),
        Value::CharFn(c) => ValueV::CharFn { byte: c.byte },
        Value::InFn => ValueV::InFn,
        Value::OutFn => ValueV::OutFn,
        Value::SuccFn => ValueV::SuccFn,
    }
}

/// The view of an environment, value by value.
pub open spec fn env_view(s: Seq<Value>) -> Seq<ValueV>
    decreases s,
{
    if s.len() == 0 {
        Seq::empty()
    } else {
        env_view(s.drop_last()).push(value_view(s.last()))
    }
}

impl View for Value {
    type V = ValueV;

    open spec fn view(&self) -> ValueV {
        value_view(*self)
    }
}

impl View for CE {
    type V = CEV;

    open spec fn view(&self) -> CEV {
        CEV { code: code_view(self.code@), env: env_view(self.env@) }
    }
}

/// `env_view` is pointwise `value_view`.
pub proof fn lemma_env_view_index(s: Seq<Value>)
    ensures
        env_view(s).len() == s.len(),
        forall|i: int| 0 <= i < s.len() ==> env_view(s)[i] == value_view(s[i]),
    decreases s,
{
    if s.len() > 0 {
        lemma_env_view_index(s.drop_last());
    }
}

/// Pushing onto a code vector pushes onto its view.
pub proof fn lemma_code_view_push(s: Seq<Instruction>, x: Instruction)
    ensures
        code_view(s.push(x)) == code_view(s).push(x@),
{
    assert(code_view(s.push(x)) =~= code_view(s).push(x@));
}

/// Extending a taken prefix of an application chain by one element pushes
/// that element's instruction onto the mapped code.
pub proof fn lemma_apps_code_take_push(b: Seq<Application>, i: int)
    requires
        0 <= i < b.len(),
    ensures
        apps_code(b.take(i + 1)) == apps_code(b.take(i)).push(InstructionV::Application(b[i])),
{
    assert(b.take(i + 1) =~= b.take(i).push(b[i]));
    assert(apps_code(b.take(i).push(b[i])) =~= apps_code(b.take(i)).push(
        InstructionV::Application(b[i]),
    ));
}

/// Pushing onto an environment pushes onto its view.
pub proof fn lemma_env_view_push(s: Seq<Value>, v: Value)
    ensures
        env_view(s.push(v)) == env_view(s).push(value_view(v)),
{
    assert(s.push(v).drop_last() =~= s);
    assert(s.push(v).last() == v);
}

/// The byte a value carries, if any: only a byte value carries one.
pub open spec fn spec_get_char(v: ValueV) -> Option<u8> {
    match v {
        ValueV::CharFn { byte } => Some(byte),
        _ => None,
    }
}

impl Value {
    /// The byte this value carries, if any.
    pub fn get_char(&self) -> (r: Option<u8>)
        ensures
            r == spec_get_char(self@),
    {
        match self {
            Value::CharFn(c) => Some(c.byte),
            _ => None,
        }
    }
}

impl CharFn {
    /// Whether `val` carries exactly this byte. A value without a byte
    /// payload never compares equal.
    pub fn equals(&self, val: &Value) -> (r: bool)
        ensures
            r == (spec_get_char(val@) == Some(self.byte)),
    {
        match val.get_char() {
            None => false,
            Some(c) => self.byte == c,
        }
    }
}

} // verus!

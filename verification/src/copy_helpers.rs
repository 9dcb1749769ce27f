//! Logical copies of values and instructions. Copies are independent
//! snapshots: the copy has the same view as the original, so evaluation may
//! duplicate values and code freely without aliasing concerns.

use vstd::prelude::*;

use crate::inst::{Abstraction, Application, CE, Instruction, Value};

verus! {

broadcast use vstd::std_specs::vec::group_vec_axioms, vstd::seq::group_seq_axioms;

/// A value kind that can hand out a logical copy of itself as a `Value`.
pub trait ValueClone: View<V = <Value as View>::V> {
    /// A copy with the same view.
    fn clone_box(&self) -> (r: Value)
        ensures
            r@ == self@,
    ;
}

/// An instruction kind that can hand out a logical copy of itself as an
/// `Instruction`.
pub trait InstructionClone: View<V = <Instruction as View>::V> {
    /// A copy with the same view.
    fn clone_box(&self) -> (r: Instruction)
        ensures
            r@ == self@,
    ;
}

impl ValueClone for Value {
    fn clone_box(&self) -> (r: Value)
        ensures
            r@ == self@,
    {
        match self {
            Value::Closure(ce) => Value::Closure(CE { code: ce.code.clone(), env: ce.env.clone() }),
            Value::CharFn(c) => Value::CharFn(*c),
            Value::InFn => Value::InFn,
            Value::OutFn => Value::OutFn,
            Value::SuccFn => Value::SuccFn,
        }
    }
}

impl InstructionClone for Instruction {
    fn clone_box(&self) -> (r: Instruction)
        ensures
            r@ == self@,
    {
        match self {
            Instruction::Application(a) => Instruction::Application(*a),
            Instruction::Abstraction(a) => Instruction::Abstraction(a.clone_abstraction()),
        }
    }
}

impl InstructionClone for Application {
    fn clone_box(&self) -> (r: Instruction)
        ensures
            r@ == self@,
    {
        Instruction::Application(*self)
    }
}

impl InstructionClone for Abstraction {
    fn clone_box(&self) -> (r: Instruction)
        ensures
            r@ == self@,
    {
        Instruction::Abstraction(self.clone_abstraction())
    }
}

impl Abstraction {
    /// A copy of this abstraction with the same arity and body.
    pub fn clone_abstraction(&self) -> (r: Abstraction)
        ensures
            r@ == self@,
    {
        Abstraction { arity: self.arity, body: copy_applications(&self.body) }
    }
}

/// A copy of an application chain, element by element.
pub fn copy_applications(apps: &Vec<Application>) -> (r: Vec<Application>)
    ensures
        r@ == apps@,
{
    let mut r: Vec<Application> = Vec::new();
    let mut i: usize = 0;
    while i < apps.len()
        invariant
            i <= apps@.len(),
            r@ == apps@.take(i as int),
        decreases apps@.len() - i,
    {
        r.push(apps[i]);
        proof {
            assert(apps@.take(i + 1) =~= apps@.take(i as int).push(apps@[i as int]));
        }
        i = i + 1;
    }
    proof {
        assert(apps@.take(apps@.len() as int) =~= apps@);
    }
    r
}

/// A copy of a code sequence, instruction by instruction.
pub fn copy_code(code: &Vec<Instruction>) -> (r: Vec<Instruction>)
    ensures
        r@.len() == code@.len(),
        forall|i: int| 0 <= i < code@.len() ==> r@[i]@ == code@[i]@,
{
    let mut r: Vec<Instruction> = Vec::new();
    let mut i: usize = 0;
    while i < code.len()
        invariant
            i <= code@.len(),
            r@.len() == i,
            forall|j: int| 0 <= j < i ==> r@[j]@ == code@[j]@,
        decreases code@.len() - i,
    {
        r.push(code[i].clone_box());
        i = i + 1;
    }
    r
}

/// A copy of an environment, value by value.
pub fn copy_env(env: &Vec<Value>) -> (r: Vec<Value>)
    ensures
        r@.len() == env@.len(),
        forall|i: int| 0 <= i < env@.len() ==> r@[i]@ == env@[i]@,
{
    let mut r: Vec<Value> = Vec::new();
    let mut i: usize = 0;
    while i < env.len()
        invariant
            i <= env@.len(),
            r@.len() == i,
            forall|j: int| 0 <= j < i ==> r@[j]@ == env@[j]@,
        decreases env@.len() - i,
    {
        r.push(env[i].clone_box());
        i = i + 1;
    }
    r
}

} // verus!

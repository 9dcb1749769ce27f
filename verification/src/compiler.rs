//! The compiler: builds instructions from marker groups and assembles the
//! initial machine state — the program's instruction queue, the four
//! built-in values, and the sentinel frame that self-applies the top-level
//! result before the machine may halt.

use vstd::prelude::*;
use std::rc::Rc;

use crate::inst::{
    apps_code, code_view, env_view, lemma_env_view_index, Abstraction, Application, CharFn,
    Instruction, InstructionV, Value, CE, CEV, ValueV,
};
use crate::machine::{apps_to_instructions, dumps_view, CED, CEDV};
use crate::tokens::{
    lemma_split_groups_wellformed, spec_split, spec_tokenize, split, tokenize, Token,
};

verus! {

broadcast use vstd::std_specs::vec::group_vec_axioms, vstd::seq::group_seq_axioms;

/// The application chain of a marker group, scanned left to right with a
/// pending node of `fun` function markers and `arg` argument markers. An
/// argument marker extends the argument run; a function marker extends the
/// function run while no argument has been seen, and otherwise closes the
/// pending node and starts a new one. A final node is emitted only when
/// both runs are non-empty, so a trailing function-only run yields nothing.
pub open spec fn app_acc(ts: Seq<Token>, fun: usize, arg: usize) -> Seq<Application>
    decreases ts.len(),
{
    if ts.len() == 0 {
        if fun > 0 && arg > 0 {
            seq![Application { fun, arg }]
        } else {
            Seq::empty()
        }
    } else if ts[0] == Token::LowerW {
        app_acc(ts.drop_first(), fun, (arg + 1) as usize)
    } else if ts[0] == Token::UpperW {
        if arg == 0 {
            app_acc(ts.drop_first(), (fun + 1) as usize, arg)
        } else {
            seq![Application { fun, arg }] + app_acc(ts.drop_first(), 1usize, 0usize)
        }
    } else {
        Seq::empty()
    }
}

/// The application chain of a whole group: both runs start empty. The
/// group must hold no separator.
pub open spec fn spec_parse_application(ts: Seq<Token>) -> Seq<Application> {
    app_acc(ts, 0, 0)
}

/// The abstraction of a group, with `arity` leading argument markers
/// already counted: the scan stops at the first function marker, where the
/// rest of the group becomes the body; a group of argument markers alone
/// has an empty body.
pub open spec fn abs_acc(ts: Seq<Token>, arity: usize) -> InstructionV
    decreases ts.len(),
{
    if ts.len() == 0 {
        InstructionV::Abstraction { arity, body: Seq::empty() }
    } else if ts[0] == Token::LowerW {
        abs_acc(ts.drop_first(), (arity + 1) as usize)
    } else if ts[0] == Token::UpperW {
        InstructionV::Abstraction { arity, body: spec_parse_application(ts) }
    } else {
        InstructionV::Abstraction { arity, body: Seq::empty() }
    }
}

/// The abstraction a group starting with an argument marker encodes.
pub open spec fn spec_parse_abstraction(ts: Seq<Token>) -> InstructionV {
    abs_acc(ts, 0)
}

/// The instructions of one marker group, chosen by its first marker:
/// an argument marker opens an abstraction, a function marker an
/// application chain.
pub open spec fn spec_group_code(g: Seq<Token>) -> Seq<InstructionV> {
    if g.len() == 0 {
        Seq::empty()
    } else if g[0] == Token::LowerW {
        seq![spec_parse_abstraction(g)]
    } else if g[0] == Token::UpperW {
        apps_code(spec_parse_application(g))
    } else {
        Seq::empty()
    }
}

/// The instruction queue of a program: the groups' instructions,
/// concatenated in group order.
pub open spec fn spec_program(groups: Seq<Seq<Token>>) -> Seq<InstructionV>
    decreases groups.len(),
{
    if groups.len() == 0 {
        Seq::empty()
    } else {
        spec_group_code(groups[0]) + spec_program(groups.drop_first())
    }
}

/// Appending one more group appends that group's instructions.
pub proof fn lemma_spec_program_snoc(groups: Seq<Seq<Token>>, g: Seq<Token>)
    ensures
        spec_program(groups.push(g)) == spec_program(groups) + spec_group_code(g),
    decreases groups.len(),
{
    if groups.len() == 0 {
        assert(groups.push(g)[0] == g);
        assert(groups.push(g).drop_first() =~= Seq::<Seq<Token>>::empty());
        assert(spec_program(Seq::<Seq<Token>>::empty()) == Seq::<InstructionV>::empty());
        assert(spec_group_code(g) + Seq::<InstructionV>::empty() =~= spec_group_code(g));
        assert(Seq::<InstructionV>::empty() + spec_group_code(g) =~= spec_group_code(g));
    } else {
        assert(groups.push(g)[0] == groups[0]);
        assert(groups.push(g).drop_first() =~= groups.drop_first().push(g));
        lemma_spec_program_snoc(groups.drop_first(), g);
        assert(spec_group_code(groups[0]) + (spec_program(groups.drop_first())
            + spec_group_code(g)) =~= (spec_group_code(groups[0]) + spec_program(
            groups.drop_first(),
        )) + spec_group_code(g));
    }
}

/// The byte value of the argument marker character.
pub open spec fn argument_marker_byte() -> u8 {
    'w' as u8
}

/// The four built-in values, bottom to top: input, the argument marker's
/// own byte, increment, output.
pub open spec fn initial_env() -> Seq<ValueV> {
    seq![
        ValueV::InFn,
        ValueV::CharFn { byte: argument_marker_byte() },
        ValueV::SuccFn,
        ValueV::OutFn,
    ]
}

/// The sentinel frame: a single self-referential application over an empty
/// environment, so the top-level result is applied to itself before the
/// machine may halt.
pub open spec fn sentinel_frame() -> CEV {
    CEV {
        code: seq![InstructionV::Application(Application { fun: 1, arg: 1 })],
        env: Seq::empty(),
    }
}

/// The machine state a source text compiles to.
pub open spec fn spec_compile(s: Seq<char>) -> CEDV {
    CEDV {
        code: spec_program(spec_split(spec_tokenize(s))),
        env: initial_env(),
        dumps: seq![sentinel_frame()],
    }
}

/// Builds the application chain a separator-free group encodes.
pub fn parse_application(ts: &[Token]) -> (apps: Vec<Application>)
    requires
        forall|k: int| 0 <= k < ts@.len() ==> ts@[k] != Token::LowerV,
    ensures
        apps@ == spec_parse_application(ts@),
{
    let mut apps: Vec<Application> = Vec::new();
    let mut fun: usize = 0;
    let mut arg: usize = 0;
    let n = ts.len();
    let mut i: usize = 0;
    proof {
        assert(ts@.skip(0) =~= ts@);
        assert(Seq::<Application>::empty() + app_acc(ts@, 0, 0) =~= app_acc(ts@, 0, 0));
    }
    while i < n
        invariant
            n == ts@.len(),
            i <= n,
            fun <= i,
            arg <= i,
            forall|k: int| 0 <= k < ts@.len() ==> ts@[k] != Token::LowerV,
            apps@ + app_acc(ts@.skip(i as int), fun, arg) == spec_parse_application(ts@),
        decreases n - i,
    {
        proof {
            assert(ts@.skip(i as int)[0] == ts@[i as int]);
            assert(ts@.skip(i as int).drop_first() =~= ts@.skip(i + 1));
        }
        let t = ts[i];
        if t == Token::LowerW {
            arg = arg + 1;
        } else {
            let ghost before = apps@;
            if arg == 0 {
                fun = fun + 1;
            } else {
                apps.push(Application { fun, arg });
                proof {
                    assert(before.push(Application { fun, arg }) + app_acc(
                        ts@.skip(i + 1),
                        1usize,
                        0usize,
                    ) =~= before + (seq![Application { fun, arg }] + app_acc(
                        ts@.skip(i + 1),
                        1usize,
                        0usize,
                    )));
                }
                fun = 1;
                arg = 0;
            }
        }
        i = i + 1;
    }
    proof {
        assert(ts@.skip(n as int) =~= Seq::<Token>::empty());
        if fun > 0 && arg > 0 {
            assert(apps@ + seq![Application { fun, arg }] =~= apps@.push(
                Application { fun, arg },
            ));
        } else {
            assert(apps@ + Seq::<Application>::empty() =~= apps@);
        }
    }
    if fun > 0 && arg > 0 {
        apps.push(Application { fun, arg });
    }
    apps
}

/// Builds the single abstraction a group starting with an argument marker
/// encodes: a leading run of argument markers gives the arity, and the
/// rest of the group, from the first function marker on, gives the body.
pub fn parse_abstraction(ts: &[Token]) -> (r: Vec<Instruction>)
    requires
        forall|k: int| 0 <= k < ts@.len() ==> ts@[k] != Token::LowerV,
    ensures
        r@.len() == 1,
        r@[0]@ == spec_parse_abstraction(ts@),
{
    let mut arg_num: usize = 0;
    let n = ts.len();
    let mut i: usize = 0;
    proof {
        assert(ts@.skip(0) =~= ts@);
    }
    while i < n && ts[i] == Token::LowerW
        invariant
            n == ts@.len(),
            i <= n,
            arg_num == i,
            forall|k: int| 0 <= k < ts@.len() ==> ts@[k] != Token::LowerV,
            abs_acc(ts@.skip(i as int), arg_num) == spec_parse_abstraction(ts@),
        decreases n - i,
    {
        proof {
            assert(ts@.skip(i as int)[0] == ts@[i as int]);
            assert(ts@.skip(i as int).drop_first() =~= ts@.skip(i + 1));
        }
        arg_num = arg_num + 1;
        i = i + 1;
    }
    let body: Vec<Application> = if i < n {
        let mut tail: Vec<Token> = Vec::new();
        let mut j: usize = i;
        while j < n
            invariant
                i <= j <= n,
                n == ts@.len(),
                tail@ == ts@.subrange(i as int, j as int),
            decreases n - j,
        {
            tail.push(ts[j]);
            proof {
                assert(ts@.subrange(i as int, j + 1) =~= ts@.subrange(i as int, j as int).push(
                    ts@[j as int],
                ));
            }
            j = j + 1;
        }
        proof {
            assert(tail@ =~= ts@.skip(i as int));
            assert(ts@.skip(i as int)[0] == ts@[i as int]);
        }
        parse_application(tail.as_slice())
    } else {
        proof {
            assert(ts@.skip(i as int) =~= Seq::<Token>::empty());
        }
        Vec::new()
    };
    let mut r: Vec<Instruction> = Vec::new();
    r.push(Instruction::Abstraction(Abstraction { arity: arg_num, body }));
    r
}

/// Compiles source text into the initial machine state: the groups'
/// instructions in order, the four built-ins on the environment, and the
/// sentinel frame alone on the dump.
pub fn compile(s: &str) -> (r: CED)
    ensures
        r@ == spec_compile(s@),
{
    let tokens = tokenize(s);
    let ghost token_seq = tokens@;
    let splits = split(tokens);
    let ghost groups = spec_split(token_seq);
    proof {
        lemma_split_groups_wellformed(token_seq);
    }
    let mut code: Vec<Instruction> = Vec::new();
    let mut gi: usize = 0;
    proof {
        assert(groups.take(0) =~= Seq::<Seq<Token>>::empty());
        assert(code_view(code@) =~= spec_program(groups.take(0)));
    }
    while gi < splits.len()
        invariant
            splits@.len() == groups.len(),
            forall|j: int| 0 <= j < groups.len() ==> #[trigger] splits@[j]@ == groups[j],
            groups == spec_split(token_seq),
            gi <= splits@.len(),
            code_view(code@) == spec_program(groups.take(gi as int)),
        decreases splits@.len() - gi,
    {
        proof {
            lemma_split_groups_wellformed(token_seq);
            assert(splits@[gi as int]@ == groups[gi as int]);
            assert(groups[gi as int].len() > 0);
        }
        let group: &Vec<Token> = &splits[gi];
        let first = group[0];
        let mut part: Vec<Instruction> = match first {
            Token::LowerW => parse_abstraction(group.as_slice()),
            Token::UpperW => apps_to_instructions(parse_application(group.as_slice())),
            Token::LowerV => vstd::pervasive::unreached(),
        };
        let ghost part_view = part@;
        let ghost code_before = code@;
        code.append(&mut part);
        proof {
            assert(code@ =~= code_before + part_view);
            assert(code_view(code@) =~= code_view(code_before) + code_view(part_view));
            assert(code_view(part_view) =~= spec_group_code(groups[gi as int]));
            lemma_spec_program_snoc(groups.take(gi as int), groups[gi as int]);
            assert(groups.take(gi + 1) =~= groups.take(gi as int).push(groups[gi as int]));
        }
        gi = gi + 1;
    }
    proof {
        assert(groups.take(groups.len() as int) =~= groups);
    }
    let mut env: Vec<Value> = Vec::new();
    env.push(Value::InFn);
    env.push(Value::CharFn(CharFn { byte: 'w' as u8 }));
    env.push(Value::SuccFn);
    env.push(Value::OutFn);
    proof {
        lemma_env_view_index(env@);
        assert(env_view(env@) =~= initial_env());
    }
    let mut dump_code: Vec<Instruction> = Vec::new();
    dump_code.push(Instruction::Application(Application { fun: 1, arg: 1 }));
    let empty_env: Vec<Value> = Vec::new();
    let dump_ce = CE { code: Rc::new(dump_code), env: Rc::new(empty_env) };
    let mut dumps: Vec<CE> = Vec::new();
    dumps.push(dump_ce);
    proof {
        assert(code_view(dump_code@) =~= sentinel_frame().code);
        assert(env_view(empty_env@) =~= sentinel_frame().env);
        assert(dump_ce@ == sentinel_frame());
        assert(dumps_view(dumps@) =~= seq![sentinel_frame()]);
    }
    CED { code, env, dumps }
}

/// A run of `n` copies of one marker.
pub open spec fn marker_run(t: Token, n: nat) -> Seq<Token> {
    Seq::new(n, |i: int| t)
}

/// A leading run of function markers only extends the pending function
/// count while no argument marker has been seen.
proof fn lemma_app_acc_funs(n: nat, fun: usize, rest: Seq<Token>)
    requires
        fun + n <= usize::MAX,
    ensures
        app_acc(marker_run(Token::UpperW, n) + rest, fun, 0) == app_acc(
            rest,
            (fun + n) as usize,
            0,
        ),
    decreases n,
{
    if n == 0 {
        assert(marker_run(Token::UpperW, 0) + rest =~= rest);
    } else {
        let s = marker_run(Token::UpperW, n) + rest;
        assert(s[0] == Token::UpperW);
        assert(s.drop_first() =~= marker_run(Token::UpperW, (n - 1) as nat) + rest);
        lemma_app_acc_funs((n - 1) as nat, (fun + 1) as usize, rest);
    }
}

/// A run of argument markers only extends the pending argument count.
proof fn lemma_app_acc_args(n: nat, fun: usize, arg: usize, rest: Seq<Token>)
    requires
        arg + n <= usize::MAX,
    ensures
        app_acc(marker_run(Token::LowerW, n) + rest, fun, arg) == app_acc(
            rest,
            fun,
            (arg + n) as usize,
        ),
    decreases n,
{
    if n == 0 {
        assert(marker_run(Token::LowerW, 0) + rest =~= rest);
    } else {
        let s = marker_run(Token::LowerW, n) + rest;
        assert(s[0] == Token::LowerW);
        assert(s.drop_first() =~= marker_run(Token::LowerW, (n - 1) as nat) + rest);
        lemma_app_acc_args((n - 1) as nat, fun, (arg + 1) as usize, rest);
    }
}

/// A function-only run with no pending argument yields no node, whatever
/// the pending function count.
proof fn lemma_app_acc_trailing(n: nat, fun: usize)
    ensures
        app_acc(marker_run(Token::UpperW, n), fun, 0) == Seq::<Application>::empty(),
    decreases n,
{
    if n > 0 {
        let s = marker_run(Token::UpperW, n);
        assert(s[0] == Token::UpperW);
        assert(s.drop_first() =~= marker_run(Token::UpperW, (n - 1) as nat));
        lemma_app_acc_trailing((n - 1) as nat, (fun + 1) as usize);
    }
}

/// With both runs pending, a trailing function-only run closes exactly the
/// pending node and adds nothing after it.
proof fn lemma_app_acc_close(fun: usize, arg: usize, k: nat)
    requires
        1 <= fun,
        1 <= arg,
    ensures
        app_acc(marker_run(Token::UpperW, k), fun, arg) == seq![Application { fun, arg }],
{
    if k == 0 {
        assert(marker_run(Token::UpperW, k).len() == 0);
    } else {
        let s = marker_run(Token::UpperW, k);
        assert(s[0] == Token::UpperW);
        assert(s.drop_first() =~= marker_run(Token::UpperW, (k - 1) as nat));
        lemma_app_acc_trailing((k - 1) as nat, 1usize);
        assert(seq![Application { fun, arg }] + Seq::<Application>::empty() =~= seq![
            Application { fun, arg },
        ]);
    }
}

/// Application chaining: a group of `f` function markers, then `a`
/// argument markers, then a trailing run of `k` function markers with no
/// argument marker after it, encodes exactly the one node
/// `Application { fun: f, arg: a }` — the trailing run produces nothing.
pub proof fn lemma_application_chain(f: usize, a: usize, k: nat)
    requires
        1 <= f,
        1 <= a,
    ensures
        spec_parse_application(
            marker_run(Token::UpperW, f as nat) + marker_run(Token::LowerW, a as nat) + marker_run(
                Token::UpperW,
                k,
            ),
        ) == seq![Application { fun: f, arg: a }],
{
    let funs = marker_run(Token::UpperW, f as nat);
    let args = marker_run(Token::LowerW, a as nat);
    let tail = marker_run(Token::UpperW, k);
    assert(funs + args + tail =~= funs + (args + tail));
    lemma_app_acc_funs(f as nat, 0, args + tail);
    lemma_app_acc_args(a as nat, f, 0, tail);
    lemma_app_acc_close(f, a, k);
}

/// A group made of function markers alone encodes no instruction at all.
pub proof fn lemma_trailing_run_dropped(k: nat)
    ensures
        spec_parse_application(marker_run(Token::UpperW, k)) == Seq::<Application>::empty(),
{
    lemma_app_acc_trailing(k, 0);
}

/// Compiles source text; the name the runtime entry uses for the same
/// assembly as `compile`.
pub fn parse(s: &str) -> (r: CED)
    ensures
        r@ == spec_compile(s@),
{
    compile(s)
}

} // verus!

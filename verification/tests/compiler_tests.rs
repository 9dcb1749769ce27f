use wlang::compiler::{compile, parse, parse_abstraction, parse_application};
use wlang::inst::{Abstraction, Application, Instruction, Value};
use wlang::tokens::{split, tokenize, Token};

fn tokens_of(s: &str) -> Vec<Token> {
    tokenize(s)
}

#[test]
fn tokenize_keeps_only_markers() {
    let ts = tokens_of("w x W ! v w");
    assert_eq!(
        ts,
        vec![Token::LowerW, Token::UpperW, Token::LowerV, Token::LowerW]
    );
}

#[test]
fn tokenize_discards_leading_comment() {
    // Everything before the first argument marker is dropped, markers
    // included; the first `w` itself is kept.
    let ts = tokens_of("WWvv comment W v w W v");
    assert_eq!(ts, vec![Token::LowerW, Token::UpperW, Token::LowerV]);
}

#[test]
fn tokenize_prefix_without_argument_marker_changes_nothing() {
    // A prefix holding no `w` adds nothing to the lexed sequence.
    let plain = tokens_of("wWv");
    let prefixed = tokens_of("here is prose, W and v included! wWv");
    assert_eq!(plain, prefixed);
}

#[test]
fn tokenize_empty_and_commentonly_texts() {
    assert_eq!(tokens_of(""), vec![]);
    assert_eq!(tokens_of("WWWvvv no argument marker here"), vec![]);
}

#[test]
fn split_drops_empty_groups() {
    // `wvvWw` segments into [w] and [W w]; the doubled separator makes no
    // empty group.
    let ts = tokens_of("wvvWw");
    let groups = split(ts);
    assert_eq!(groups.len(), 2);
    assert_eq!(groups[0], vec![Token::LowerW]);
    assert_eq!(groups[1], vec![Token::UpperW, Token::LowerW]);
}

#[test]
fn split_concatenation_restores_markers_without_separators() {
    let ts = tokens_of("wwvWWwvvwW");
    let groups = split(ts.clone());
    let mut glued: Vec<Token> = Vec::new();
    for g in &groups {
        assert!(!g.is_empty());
        for t in g {
            assert!(*t != Token::LowerV);
            glued.push(*t);
        }
    }
    let without_seps: Vec<Token> = ts.into_iter().filter(|t| *t != Token::LowerV).collect();
    assert_eq!(glued, without_seps);
}

#[test]
fn split_trailing_group_is_flushed() {
    let ts = tokens_of("wvw");
    let groups = split(ts);
    assert_eq!(groups.len(), 2);
    assert_eq!(groups[1], vec![Token::LowerW]);
}

#[test]
fn application_single_node() {
    // Two function markers then three argument markers: one node.
    let ts = tokens_of("wv WWwww");
    let groups = split(ts);
    let apps = parse_application(groups[1].as_slice());
    assert_eq!(apps, vec![Application { fun: 2, arg: 3 }]);
}

#[test]
fn application_chain_two_nodes() {
    // `WWwwWw`: the second function run closes the first node and opens the
    // next, which consumes the previous result via its own indices.
    let ts = tokens_of("wv WWwwWw");
    let groups = split(ts);
    let apps = parse_application(groups[1].as_slice());
    assert_eq!(
        apps,
        vec![
            Application { fun: 2, arg: 2 },
            Application { fun: 1, arg: 1 }
        ]
    );
}

#[test]
fn application_trailing_function_run_dropped() {
    let ts = tokens_of("wv WwWWW");
    let groups = split(ts);
    let apps = parse_application(groups[1].as_slice());
    assert_eq!(apps, vec![Application { fun: 1, arg: 1 }]);
}

#[test]
fn application_function_only_group_is_empty() {
    let ts = tokens_of("wv WWWW");
    let groups = split(ts);
    let apps = parse_application(groups[1].as_slice());
    assert_eq!(apps, vec![]);
}

#[test]
fn abstraction_counts_arity_and_parses_body() {
    let ts = tokens_of("wwWw");
    let groups = split(ts);
    let instrs = parse_abstraction(groups[0].as_slice());
    assert_eq!(instrs.len(), 1);
    match &instrs[0] {
        Instruction::Abstraction(Abstraction { arity, body }) => {
            assert_eq!(*arity, 2);
            assert_eq!(*body, vec![Application { fun: 1, arg: 1 }]);
        }
        _ => panic!("expected an abstraction"),
    }
}

#[test]
fn abstraction_without_body_is_noop_closure() {
    let ts = tokens_of("www");
    let groups = split(ts);
    let instrs = parse_abstraction(groups[0].as_slice());
    assert_eq!(instrs.len(), 1);
    match &instrs[0] {
        Instruction::Abstraction(Abstraction { arity, body }) => {
            assert_eq!(*arity, 3);
            assert!(body.is_empty());
        }
        _ => panic!("expected an abstraction"),
    }
}

#[test]
fn compile_default_program_shape() {
    // One argument marker, two function markers, four argument markers:
    // one abstraction of arity 1 whose body is Application{2, 4}.
    let ced = compile("wWWwwww");
    assert_eq!(ced.code.len(), 1);
    match &ced.code[0] {
        Instruction::Abstraction(Abstraction { arity, body }) => {
            assert_eq!(*arity, 1);
            assert_eq!(*body, vec![Application { fun: 2, arg: 4 }]);
        }
        _ => panic!("expected an abstraction"),
    }
    assert_eq!(ced.env.len(), 4);
    assert!(matches!(ced.env[0], Value::InFn));
    match &ced.env[1] {
        Value::CharFn(c) => assert_eq!(c.byte, b'w'),
        _ => panic!("expected the argument marker byte"),
    }
    assert!(matches!(ced.env[2], Value::SuccFn));
    assert!(matches!(ced.env[3], Value::OutFn));
    assert_eq!(ced.dumps.len(), 1);
    assert_eq!(ced.dumps[0].code.len(), 1);
    match &ced.dumps[0].code[0] {
        Instruction::Application(a) => {
            assert_eq!(*a, Application { fun: 1, arg: 1 });
        }
        _ => panic!("expected the sentinel application"),
    }
    assert!(ced.dumps[0].env.is_empty());
}

#[test]
fn parse_matches_compile() {
    let a = compile("wWWwwww");
    let b = parse("wWWwwww");
    assert_eq!(a.code.len(), b.code.len());
    assert_eq!(a.env.len(), b.env.len());
    assert_eq!(a.dumps.len(), b.dumps.len());
}

#[test]
fn compile_multiple_groups_concatenates_in_order() {
    // Group one: an abstraction; group two: an application chain.
    let ced = compile("wWv Ww");
    assert_eq!(ced.code.len(), 2);
    assert!(matches!(ced.code[0], Instruction::Abstraction(_)));
    match &ced.code[1] {
        Instruction::Application(a) => assert_eq!(*a, Application { fun: 1, arg: 1 }),
        _ => panic!("expected an application"),
    }
}

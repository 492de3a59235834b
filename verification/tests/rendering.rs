use borrow_facts::ast::{
    AccessKind, BasicBlock, Expr, Origin, Place, Program, Span, Statement, StatementKind, Ty,
    Variable,
};
use borrow_facts::emitter::emit_facts;
use borrow_facts::names::NamingScheme;

fn s(x: &str) -> String {
    x.to_string()
}

#[test]
fn jump_only_block_still_yields_its_node() {
    // A block with zero statements and one successor still appears, with a
    // (pass) text and only its goto line; the exit block likewise.
    let program = Program {
        variables: Vec::new(),
        struct_decls: Vec::new(),
        basic_blocks: vec![
            BasicBlock { name: s("bb0"), statements: Vec::new(), successors: vec![s("bb1")] },
            BasicBlock { name: s("bb1"), statements: Vec::new(), successors: Vec::new() },
        ],
    };
    let facts = emit_facts(program, "", NamingScheme::Verbose);
    assert_eq!(facts.cfg_edge.len(), 1);
    assert_eq!(facts.cfg_edge[0].0 .0, "bb0[0]");
    assert_eq!(facts.cfg_edge[0].1 .0, "bb1[0]");
    assert!(facts.access_origin.is_empty());
    assert!(facts.clear_origin.is_empty());
    assert!(facts.invalidate_origin.is_empty());
    assert!(facts.introduce_subset.is_empty());
    let expected = "bb0[0]: \"(pass)\" {\n\tgoto bb1[0]\n}\n\nbb1[0]: \"(pass)\" {\n\tgoto\n}\n";
    assert_eq!(facts.render(), expected);
}

#[test]
fn compact_letters_flatten_blocks_in_program_order() {
    let input = "let a = &x; let b = &x; let c = &x;";
    let refty = |o: &str| Ty::Ref { origin: Origin(s(o)), ty: Box::new(Ty::I32) };
    let brw = |o: &str| Expr::Access {
        kind: AccessKind::Borrow(Origin(s(o))),
        place: Place { base: s("x"), is_deref: false, fields: Vec::new() },
    };
    let stmt = |p: &str, o: &str, a: usize, b: usize| Statement {
        kind: StatementKind::Assign(
            Place { base: s(p), is_deref: false, fields: Vec::new() },
            brw(o),
        ),
        span: Span { start: a, end: b },
    };
    let program = Program {
        variables: vec![
            Variable { name: s("x"), ty: Ty::I32 },
            Variable { name: s("a"), ty: refty("'a") },
            Variable { name: s("b"), ty: refty("'b") },
            Variable { name: s("c"), ty: refty("'c") },
        ],
        struct_decls: Vec::new(),
        basic_blocks: vec![
            BasicBlock {
                name: s("bb0"),
                statements: vec![stmt("a", "'a", 0, 11), stmt("b", "'b", 12, 23)],
                successors: vec![s("bb1")],
            },
            BasicBlock {
                name: s("bb1"),
                statements: vec![stmt("c", "'c", 24, 35)],
                successors: Vec::new(),
            },
        ],
    };
    let facts = emit_facts(program, input, NamingScheme::CompactLetters);
    // bb0's statements are nodes a and b; bb1's statement is node c.
    assert_eq!(facts.cfg_edge.len(), 2);
    assert_eq!(facts.cfg_edge[0].0 .0, "a");
    assert_eq!(facts.cfg_edge[0].1 .0, "b");
    assert_eq!(facts.cfg_edge[1].0 .0, "b");
    assert_eq!(facts.cfg_edge[1].1 .0, "c");
    assert_eq!(facts.node_text[2].1 .0, "c");
}

#[test]
fn statement_text_is_escaped_in_render() {
    let input = "log(\"hi\");";
    let program = Program {
        variables: Vec::new(),
        struct_decls: Vec::new(),
        basic_blocks: vec![BasicBlock {
            name: s("bb0"),
            statements: vec![Statement {
                kind: StatementKind::Expr(Expr::Call { callee: s("log"), arguments: Vec::new() }),
                span: Span { start: 0, end: 10 },
            }],
            successors: vec![s("bb0")],
        }],
    };
    let facts = emit_facts(program, input, NamingScheme::Verbose);
    assert_eq!(facts.node_text[0].0, "log(\"hi\")");
    let expected = "bb0[0]: \"log(\\\"hi\\\")\" {\n\tgoto bb0[0]\n}\n";
    assert_eq!(facts.render(), expected);
}

#[test]
fn nodes_render_in_name_order_not_program_order() {
    // Two blocks declared out of lexicographic order still render sorted by
    // node name.
    let program = Program {
        variables: Vec::new(),
        struct_decls: Vec::new(),
        basic_blocks: vec![
            BasicBlock { name: s("zz"), statements: Vec::new(), successors: vec![s("aa")] },
            BasicBlock { name: s("aa"), statements: Vec::new(), successors: Vec::new() },
        ],
    };
    let facts = emit_facts(program, "", NamingScheme::Verbose);
    let out = facts.render();
    let expected = "aa[0]: \"(pass)\" {\n\tgoto\n}\n\nzz[0]: \"(pass)\" {\n\tgoto aa[0]\n}\n";
    assert_eq!(out, expected);
}

#[test]
fn ten_or_more_statements_use_two_digit_indices() {
    let mut statements = Vec::new();
    let mut input = String::new();
    for i in 0..11 {
        let start = input.len();
        input.push_str("go();");
        statements.push(Statement {
            kind: StatementKind::Expr(Expr::Call { callee: s("go"), arguments: Vec::new() }),
            span: Span { start, end: start + 5 },
        });
        let _ = i;
    }
    let program = Program {
        variables: Vec::new(),
        struct_decls: Vec::new(),
        basic_blocks: vec![BasicBlock {
            name: s("bb0"),
            statements,
            successors: Vec::new(),
        }],
    };
    let facts = emit_facts(program, &input, NamingScheme::Verbose);
    assert_eq!(facts.cfg_edge.len(), 10);
    assert_eq!(facts.cfg_edge[9].0 .0, "bb0[9]");
    assert_eq!(facts.cfg_edge[9].1 .0, "bb0[10]");
}

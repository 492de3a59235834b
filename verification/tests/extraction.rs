use borrow_facts::ast::{
    AccessKind, BasicBlock, Expr, Origin, Place, Program, Span, Statement, StatementKind,
    StructDecl, FieldDecl, GenericDecl, Parameter, Ty, Variable,
};
use borrow_facts::emitter::{emit_facts, FactEmitter};
use borrow_facts::names::NamingScheme;

fn s(x: &str) -> String {
    x.to_string()
}

fn var(name: &str, ty: Ty) -> Variable {
    Variable { name: s(name), ty }
}

fn place(base: &str) -> Place {
    Place { base: s(base), is_deref: false, fields: Vec::new() }
}

fn deref_place(base: &str) -> Place {
    Place { base: s(base), is_deref: true, fields: Vec::new() }
}

fn ref_mut(origin: &str, inner: Ty) -> Ty {
    Ty::RefMut { origin: Origin(s(origin)), ty: Box::new(inner) }
}

fn ref_shared(origin: &str, inner: Ty) -> Ty {
    Ty::Ref { origin: Origin(s(origin)), ty: Box::new(inner) }
}

fn assign(p: Place, e: Expr, start: usize, end: usize) -> Statement {
    Statement { kind: StatementKind::Assign(p, e), span: Span { start, end } }
}

fn expr_stmt(e: Expr, start: usize, end: usize) -> Statement {
    Statement { kind: StatementKind::Expr(e), span: Span { start, end } }
}

fn borrow_mut(origin: &str, p: Place) -> Expr {
    Expr::Access { kind: AccessKind::BorrowMut(Origin(s(origin))), place: p }
}

fn borrow(origin: &str, p: Place) -> Expr {
    Expr::Access { kind: AccessKind::Borrow(Origin(s(origin))), place: p }
}

fn read(p: Place) -> Expr {
    Expr::Access { kind: AccessKind::Copied, place: p }
}

/// The concrete scenario: one block with `let r = &mut x; let y = r;`.
fn scenario_program() -> (Program, &'static str) {
    let input = "let r = &mut x; let y = r;";
    let program = Program {
        variables: vec![
            var("x", Ty::I32),
            var("r", ref_mut("'a", Ty::I32)),
            var("y", ref_mut("'a", Ty::I32)),
        ],
        struct_decls: Vec::new(),
        basic_blocks: vec![BasicBlock {
            name: s("bb0"),
            statements: vec![
                assign(place("r"), borrow_mut("'a", place("x")), 0, 15),
                assign(place("y"), read(place("r")), 16, 26),
            ],
            successors: Vec::new(),
        }],
    };
    (program, input)
}

#[test]
fn scenario_single_block_facts() {
    let (program, input) = scenario_program();
    let facts = emit_facts(program, input, NamingScheme::Verbose);

    // Node texts: the statement text without the trailing terminator.
    assert_eq!(facts.node_text.len(), 2);
    assert_eq!(facts.node_text[0].0, "let r = &mut x");
    assert_eq!(facts.node_text[0].1 .0, "bb0[0]");
    assert_eq!(facts.node_text[1].0, "let y = r");
    assert_eq!(facts.node_text[1].1 .0, "bb0[1]");

    // One sequential edge, no successor edges.
    assert_eq!(facts.cfg_edge.len(), 1);
    assert_eq!(facts.cfg_edge[0].0 .0, "bb0[0]");
    assert_eq!(facts.cfg_edge[0].1 .0, "bb0[1]");

    // clear_origin('a) twice at bb0[0] (target and fresh borrow), once at
    // bb0[1] (target y).
    assert_eq!(facts.clear_origin.len(), 3);
    assert_eq!(facts.clear_origin[0].0 .0, "'a");
    assert_eq!(facts.clear_origin[0].1 .0, "bb0[0]");
    assert_eq!(facts.clear_origin[1].0 .0, "'a");
    assert_eq!(facts.clear_origin[1].1 .0, "bb0[0]");
    assert_eq!(facts.clear_origin[2].0 .0, "'a");
    assert_eq!(facts.clear_origin[2].1 .0, "bb0[1]");

    // x's type has no origins, so the mutable borrow accesses nothing;
    // reading r at bb0[1] accesses 'a.
    assert_eq!(facts.access_origin.len(), 1);
    assert_eq!(facts.access_origin[0].0 .0, "'a");
    assert_eq!(facts.access_origin[0].1 .0, "bb0[1]");

    // The mutable borrow of x invalidates the recorded loan of x (itself).
    assert_eq!(facts.invalidate_origin.len(), 1);
    assert_eq!(facts.invalidate_origin[0].0 .0, "'a");
    assert_eq!(facts.invalidate_origin[0].1 .0, "bb0[0]");

    // Subsets at both assignments: the borrow's origin into the target's, and
    // the copied reference's origin into the target's.
    assert_eq!(facts.introduce_subset.len(), 2);
    assert_eq!(facts.introduce_subset[0].0 .0, "'a");
    assert_eq!(facts.introduce_subset[0].1 .0, "'a");
    assert_eq!(facts.introduce_subset[0].2 .0, "bb0[0]");
    assert_eq!(facts.introduce_subset[1].0 .0, "'a");
    assert_eq!(facts.introduce_subset[1].1 .0, "'a");
    assert_eq!(facts.introduce_subset[1].2 .0, "bb0[1]");
}

#[test]
fn determinism_repeated_runs() {
    let (first, input) = scenario_program();
    let (second, _) = scenario_program();
    let f1 = emit_facts(first, input, NamingScheme::Verbose);
    let f2 = emit_facts(second, input, NamingScheme::Verbose);
    assert_eq!(f1.render(), f2.render());
}

#[test]
fn render_scenario_exact() {
    let (program, input) = scenario_program();
    let facts = emit_facts(program, input, NamingScheme::Verbose);
    let expected = "bb0[0]: \"let r = &mut x\" {\n\tinvalidate_origin('a)\n\tclear_origin('a)\n\tclear_origin('a)\n\tintroduce_subset('a, 'a)\n\tgoto bb0[1]\n}\n\nbb0[1]: \"let y = r\" {\n\taccess_origin('a)\n\tclear_origin('a)\n\tintroduce_subset('a, 'a)\n\tgoto\n}\n";
    assert_eq!(facts.render(), expected);
}

#[test]
fn read_propagation() {
    let input = "let _ = x;";
    let program = Program {
        variables: vec![var("x", ref_shared("'a", Ty::I32))],
        struct_decls: Vec::new(),
        basic_blocks: vec![BasicBlock {
            name: s("bb0"),
            statements: vec![expr_stmt(read(place("x")), 0, 10)],
            successors: Vec::new(),
        }],
    };
    let facts = emit_facts(program, input, NamingScheme::Verbose);
    assert_eq!(facts.access_origin.len(), 1);
    assert_eq!(facts.access_origin[0].0 .0, "'a");
    assert_eq!(facts.access_origin[0].1 .0, "bb0[0]");
    assert!(facts.clear_origin.is_empty());
    assert!(facts.invalidate_origin.is_empty());
    assert!(facts.introduce_subset.is_empty());
}

#[test]
fn loan_invalidation_on_reassignment() {
    // let r = &p; then p = 0; with p of non-reference type: the reassignment
    // invalidates the loan's origin, unconditionally.
    let input = "let r = &p; p = 0;";
    let program = Program {
        variables: vec![var("p", Ty::I32), var("r", ref_shared("'a", Ty::I32))],
        struct_decls: Vec::new(),
        basic_blocks: vec![BasicBlock {
            name: s("bb0"),
            statements: vec![
                assign(place("r"), borrow("'a", place("p")), 0, 11),
                assign(place("p"), Expr::Number(0), 12, 18),
            ],
            successors: Vec::new(),
        }],
    };
    let facts = emit_facts(program, input, NamingScheme::Verbose);
    assert_eq!(facts.invalidate_origin.len(), 1);
    assert_eq!(facts.invalidate_origin[0].0 .0, "'a");
    assert_eq!(facts.invalidate_origin[0].1 .0, "bb0[1]");
    // The shared borrow clears its origin and the target's, nothing else.
    assert_eq!(facts.clear_origin.len(), 2);
    assert_eq!(facts.introduce_subset.len(), 1);
    assert_eq!(facts.introduce_subset[0].2 .0, "bb0[0]");
}

#[test]
fn multiple_loans_invalidate_in_program_order() {
    let input = "let r = &p; let q = &p; p = 0;";
    let program = Program {
        variables: vec![
            var("p", Ty::I32),
            var("r", ref_shared("'a", Ty::I32)),
            var("q", ref_shared("'b", Ty::I32)),
        ],
        struct_decls: Vec::new(),
        basic_blocks: vec![BasicBlock {
            name: s("bb0"),
            statements: vec![
                assign(place("r"), borrow("'a", place("p")), 0, 11),
                assign(place("q"), borrow("'b", place("p")), 12, 23),
                assign(place("p"), Expr::Number(0), 24, 30),
            ],
            successors: Vec::new(),
        }],
    };
    let facts = emit_facts(program, input, NamingScheme::Verbose);
    assert_eq!(facts.invalidate_origin.len(), 2);
    assert_eq!(facts.invalidate_origin[0].0 .0, "'a");
    assert_eq!(facts.invalidate_origin[0].1 .0, "bb0[2]");
    assert_eq!(facts.invalidate_origin[1].0 .0, "'b");
    assert_eq!(facts.invalidate_origin[1].1 .0, "bb0[2]");
}

#[test]
fn deref_place_is_a_distinct_loan_key() {
    // A borrow of *x is keyed separately from an assignment to x, so the
    // reassignment invalidates nothing.
    let input = "let r = &mut *x; x = 0;";
    let program = Program {
        variables: vec![var("x", Ty::I32), var("r", ref_mut("'a", Ty::I32))],
        struct_decls: Vec::new(),
        basic_blocks: vec![BasicBlock {
            name: s("bb0"),
            statements: vec![
                assign(place("r"), borrow_mut("'a", deref_place("x")), 0, 16),
                assign(place("x"), Expr::Number(0), 17, 23),
            ],
            successors: Vec::new(),
        }],
    };
    let facts = emit_facts(program, input, NamingScheme::Verbose);
    // The mutable borrow of *x invalidates the loan of *x (itself), and the
    // later x = 0 invalidates nothing: x has no recorded loan.
    assert_eq!(facts.invalidate_origin.len(), 1);
    assert_eq!(facts.invalidate_origin[0].1 .0, "bb0[0]");
}

#[test]
fn field_resolution_with_generics() {
    // struct S<'a, T> { f: T } with v: S<'a, &'b i32>: v.f resolves to
    // &'b i32; the collected origins walk the parent type first.
    let program = Program {
        variables: vec![var(
            "v",
            Ty::Struct {
                name: s("S"),
                parameters: vec![
                    Parameter::Origin(Origin(s("'a"))),
                    Parameter::Ty(ref_shared("'b", Ty::I32)),
                ],
            },
        )],
        struct_decls: vec![StructDecl {
            name: s("S"),
            generic_decls: vec![GenericDecl::Origin(s("'a")), GenericDecl::Ty(s("T"))],
            field_decls: vec![FieldDecl {
                name: s("f"),
                ty: Ty::Struct { name: s("T"), parameters: Vec::new() },
            }],
        }],
        basic_blocks: Vec::new(),
    };
    let emitter = FactEmitter::new(program, "", NamingScheme::Verbose);
    let p = Place { base: s("v"), is_deref: false, fields: vec![s("f")] };
    let (ty, origins) = emitter.ty_and_origins_of_place(&p);
    match ty {
        Ty::Ref { origin, ty: inner } => {
            assert_eq!(origin.0, "'b");
            assert!(matches!(**inner, Ty::I32));
        }
        _ => panic!("v.f should resolve to a shared reference"),
    }
    let names: Vec<&str> = origins.iter().map(|o| o.0.as_str()).collect();
    assert_eq!(names, vec!["'a", "'b", "'b"]);
}

#[test]
fn field_place_loans_are_keyed_by_the_whole_path() {
    // struct W { g: i32 }, v: W: a borrow of v.g and a later write to v.g use
    // the same place key, so the write invalidates the loan.
    let input = "let r = &v.g; v.g = 0;";
    let vg = || Place { base: s("v"), is_deref: false, fields: vec![s("g")] };
    let program = Program {
        variables: vec![
            var("v", Ty::Struct { name: s("W"), parameters: Vec::new() }),
            var("r", ref_shared("'a", Ty::I32)),
        ],
        struct_decls: vec![StructDecl {
            name: s("W"),
            generic_decls: Vec::new(),
            field_decls: vec![FieldDecl { name: s("g"), ty: Ty::I32 }],
        }],
        basic_blocks: vec![BasicBlock {
            name: s("bb0"),
            statements: vec![
                assign(place("r"), borrow("'a", vg()), 0, 13),
                assign(vg(), Expr::Number(0), 14, 22),
            ],
            successors: Vec::new(),
        }],
    };
    let facts = emit_facts(program, input, NamingScheme::Verbose);
    assert_eq!(facts.invalidate_origin.len(), 1);
    assert_eq!(facts.invalidate_origin[0].0 .0, "'a");
    assert_eq!(facts.invalidate_origin[0].1 .0, "bb0[1]");
    // v.g is an i32 behind a struct with no origins: nothing to clear at the
    // write, one clear at the borrow site for 'a plus one for the target r.
    assert_eq!(facts.clear_origin.len(), 2);
}

#[test]
fn call_arguments_left_to_right() {
    let input = "check(x, y);";
    let program = Program {
        variables: vec![
            var("x", ref_shared("'a", Ty::I32)),
            var("y", ref_shared("'b", Ty::I32)),
        ],
        struct_decls: Vec::new(),
        basic_blocks: vec![BasicBlock {
            name: s("bb0"),
            statements: vec![expr_stmt(
                Expr::Call {
                    callee: s("check"),
                    arguments: vec![read(place("x")), read(place("y"))],
                },
                0,
                12,
            )],
            successors: Vec::new(),
        }],
    };
    let facts = emit_facts(program, input, NamingScheme::Verbose);
    assert_eq!(facts.access_origin.len(), 2);
    assert_eq!(facts.access_origin[0].0 .0, "'a");
    assert_eq!(facts.access_origin[1].0 .0, "'b");
}

use sea::analysis::{handle_deref, handle_field_access, handle_free, handle_pass_freed_pointer, handle_return};
use sea::analyzer_state::OwnershipState;
use sea::cfg::{BlockState, Statement};
use sea::diagnostics::{Diagnostic, Severity};
use sea::lowering::build_cfg;
use sea::sea::{mode_for_extension, normalize_newlines, trim_double_quotes, CheckMode, Sea, SeaError};
use sea::sea_checks::Scope;
use sea::sea_info::SeaFileInfo;
use sea::ts::parse_c;
use sea::variable_info::{AllocKind, VariableInfo};

fn state_with(vars: &[(&str, VariableInfo)]) -> BlockState {
    let mut s = BlockState::new(false);
    for (name, info) in vars {
        s.bind(name, info.clone());
    }
    s
}

fn messages(d: &[Diagnostic]) -> Vec<String> {
    d.iter().map(|x| x.message.clone()).collect()
}

#[test]
fn severity_words() {
    assert_eq!(Severity::Error.as_str(), "error");
    assert_eq!(Severity::Warning.as_str(), "warning");
}

#[test]
fn render_joins_position_severity_and_message() {
    let d = Diagnostic::new("a.c", 12, 0, "double free of 'p'".to_string(), Severity::Error);
    assert_eq!(d.render(), "a.c:12:0: error: double free of 'p'");
    let w = Diagnostic::new("b.c", 7, 130, "possible use after free of 'q'".to_string(), Severity::Warning);
    assert_eq!(w.render(), "b.c:7:130: warning: possible use after free of 'q'");
}

#[test]
fn variable_info_constructors() {
    let h = VariableInfo::heap(2);
    assert_eq!((h.state, h.scope_depth, h.alloc_kind, h.points_to.clone()), (OwnershipState::Allocated, 2, AllocKind::Heap, None));
    let s = VariableInfo::stack(1);
    assert_eq!((s.state, s.alloc_kind), (OwnershipState::Uninitialized, AllocKind::Stack));
    let n = VariableInfo::null(3);
    assert_eq!((n.state, n.scope_depth), (OwnershipState::Null, 3));
    let o = VariableInfo::opaque_init(1);
    assert_eq!((o.state, o.alloc_kind), (OwnershipState::Allocated, AllocKind::Stack));
    let p = VariableInfo::param();
    assert_eq!((p.state, p.scope_depth), (OwnershipState::Allocated, 0));
}

#[test]
fn free_reports_each_state() {
    let mut st = state_with(&[
        ("a", VariableInfo::heap(1)),
        ("u", VariableInfo::stack(1)),
        ("n", VariableInfo::null(1)),
    ]);
    let mut d = Vec::new();
    handle_free("a", 1, 0, "f.c", &mut st, &mut d);
    assert!(d.is_empty());
    assert_eq!(st.state_of("a"), Some(OwnershipState::Freed));
    handle_free("a", 2, 5, "f.c", &mut st, &mut d);
    handle_free("u", 3, 5, "f.c", &mut st, &mut d);
    handle_free("n", 4, 5, "f.c", &mut st, &mut d);
    handle_free("unknown", 5, 5, "f.c", &mut st, &mut d);
    assert_eq!(
        messages(&d),
        vec![
            "double free of 'a'".to_string(),
            "free of uninitialized variable: 'u'".to_string(),
            "free of 'NULL' pointer 'n'".to_string(),
        ]
    );
    assert_eq!(d[2].severity, Severity::Warning);
    assert_eq!((d[0].line, d[0].col), (2, 5));
}

#[test]
fn deref_reports_each_state() {
    let mut freed = VariableInfo::heap(1);
    freed.state = OwnershipState::Freed;
    let mut maybe = VariableInfo::heap(1);
    maybe.state = OwnershipState::MaybeFreed;
    let mut st = state_with(&[
        ("f", freed),
        ("m", maybe),
        ("n", VariableInfo::null(1)),
        ("ok", VariableInfo::heap(1)),
    ]);
    let mut d = Vec::new();
    for v in ["f", "m", "n", "ok", "missing"] {
        handle_deref(v, 1, 1, "d.c", &mut st, &mut d);
    }
    assert_eq!(
        messages(&d),
        vec![
            "use after free of 'f'".to_string(),
            "possible use after free of 'm'".to_string(),
            "null pointer dereference of 'n'".to_string(),
            "use of uninitialized pointer 'missing'".to_string(),
        ]
    );
    assert_eq!(d[1].severity, Severity::Warning);
}

#[test]
fn field_access_and_passing_report_each_state() {
    let mut freed = VariableInfo::heap(1);
    freed.state = OwnershipState::Freed;
    let mut st = state_with(&[("f", freed), ("u", VariableInfo::stack(1)), ("n", VariableInfo::null(1))]);
    let mut d = Vec::new();
    handle_field_access("f", 1, 1, "x.c", &mut st, &mut d);
    handle_field_access("u", 1, 1, "x.c", &mut st, &mut d);
    handle_field_access("n", 1, 1, "x.c", &mut st, &mut d);
    handle_pass_freed_pointer("f", "use", 2, 2, "x.c", &mut st, &mut d);
    handle_pass_freed_pointer("u", "use", 2, 2, "x.c", &mut st, &mut d);
    handle_pass_freed_pointer("n", "use", 2, 2, "x.c", &mut st, &mut d);
    assert_eq!(
        messages(&d),
        vec![
            "use of field of freed pointer 'f'".to_string(),
            "field access on uninitialized pointer 'u'".to_string(),
            "null pointer dereference via field access 'n'".to_string(),
            "passing freed pointer 'f' to function 'use'".to_string(),
            "passing uninitialized pointer 'u' to function 'use'".to_string(),
            "passing null pointer 'n' to function 'use'".to_string(),
        ]
    );
}

#[test]
fn return_marks_ownership_transferred() {
    let mut st = state_with(&[("p", VariableInfo::heap(1)), ("x", VariableInfo::stack(1))]);
    let mut d = Vec::new();
    handle_return("p", 3, 9, false, "r.c", &mut st, &mut d);
    assert!(d.is_empty());
    assert_eq!(st.state_of("p"), Some(OwnershipState::Returned));
    handle_return("x", 4, 10, true, "r.c", &mut st, &mut d);
    assert_eq!(
        messages(&d),
        vec!["returning address of stack variable 'x' which will be invalid after function returns".to_string()]
    );
    let mut freed = VariableInfo::heap(1);
    freed.state = OwnershipState::Freed;
    let mut st2 = state_with(&[("q", freed)]);
    handle_return("q", 1, 1, false, "r.c", &mut st2, &mut d);
    assert_eq!(d[1].message, "returning freed pointer 'q' from function");
}

#[test]
fn merge_makes_one_sided_free_maybe_freed() {
    let mut freed = VariableInfo::heap(1);
    freed.state = OwnershipState::Freed;
    let a = state_with(&[("p", freed), ("only_a", VariableInfo::null(1))]);
    let b = state_with(&[("p", VariableInfo::heap(1)), ("only_b", VariableInfo::stack(1))]);
    let m = a.merge(&b);
    assert_eq!(m.state_of("p"), Some(OwnershipState::MaybeFreed));
    assert_eq!(m.state_of("only_a"), Some(OwnershipState::Null));
    assert_eq!(m.state_of("only_b"), Some(OwnershipState::Uninitialized));
    let back = b.merge(&a);
    assert_eq!(back.state_of("p"), Some(OwnershipState::MaybeFreed));
    let same = a.merge(&a);
    assert_eq!(same.state_of("p"), Some(OwnershipState::Freed));
    assert_eq!(same.ownership.len(), a.ownership.len());
}

#[test]
fn merge_keeps_left_for_other_differences() {
    let a = state_with(&[("p", VariableInfo::null(1))]);
    let b = state_with(&[("p", VariableInfo::heap(1))]);
    assert_eq!(a.merge(&b).state_of("p"), Some(OwnershipState::Null));
}

#[test]
fn scope_exit_reports_leaks_and_dangling_pointers() {
    let mut st = BlockState::new(false);
    st.enter_scope();
    st.bind("outer", VariableInfo::stack(1));
    st.enter_scope();
    st.bind("buf", VariableInfo::heap(2));
    st.bind("x", VariableInfo::stack(2));
    let mut ptr = VariableInfo::stack(1);
    ptr.state = OwnershipState::Allocated;
    ptr.points_to = Some("x".to_string());
    st.bind("outer", ptr);
    let mut d = Vec::new();
    st.exit_scope("s.c", 9, 1, &mut d);
    assert_eq!(
        messages(&d),
        vec!["pointer 'outer' will outlive 'x' which it points to".to_string(), "memory leak of pointer 'buf'".to_string()]
    );
    assert_eq!(st.scope_depth, 1);
    assert_eq!(st.state_of("outer"), Some(OwnershipState::OutOfScope));
    assert_eq!(st.state_of("buf"), None);
}

#[test]
fn scope_exit_with_drop_class_reports_no_leak() {
    let mut st = BlockState::new(true);
    st.enter_scope();
    st.bind("data", VariableInfo::heap(1));
    let mut d = Vec::new();
    st.exit_scope("s.sea", 3, 1, &mut d);
    assert!(d.is_empty());
}

#[test]
fn scope_exit_at_depth_zero_does_nothing() {
    let mut st = state_with(&[("p", VariableInfo::heap(0))]);
    let mut d = Vec::new();
    st.exit_scope("z.c", 1, 1, &mut d);
    assert!(d.is_empty());
    assert_eq!(st.scope_depth, 0);
    assert_eq!(st.state_of("p"), Some(OwnershipState::Allocated));
}

#[test]
fn enter_then_exit_restores_the_state() {
    let mut st = state_with(&[("p", VariableInfo::heap(0))]);
    st.enter_scope();
    assert_eq!(st.scope_depth, 1);
    let mut d = Vec::new();
    st.exit_scope("z.c", 1, 1, &mut d);
    assert!(d.is_empty());
    assert_eq!(st.scope_depth, 0);
    assert_eq!(st.state_of("p"), Some(OwnershipState::Allocated));
}

#[test]
fn scope_declarations_resolve_latest() {
    let info = SeaFileInfo { class_info: Vec::new(), interface_methods: Vec::new() };
    let mut scope = Scope::new(&info, &vec![("int".to_string(), "n".to_string())]);
    assert_eq!(scope.get_type("n").cloned(), Some("int".to_string()));
    scope.declare("n".to_string(), "Counter".to_string());
    assert_eq!(scope.get_type("n").cloned(), Some("Counter".to_string()));
    assert_eq!(scope.get_type("m"), None);
    assert!(!scope.is_known_class("Counter"));
}

#[test]
fn modes_follow_the_extension() {
    assert_eq!(mode_for_extension("sea"), CheckMode::Sea);
    assert_eq!(mode_for_extension("c"), CheckMode::C);
    assert_eq!(mode_for_extension("h"), CheckMode::C);
    assert!(matches!(Sea::new("class A {}", "sea"), Err(SeaError::NoSeaGrammar)));
}

#[test]
fn newlines_and_quotes_are_normalised() {
    assert_eq!(normalize_newlines("a\r\nb\r\n\r\nc\r"), "a\nb\n\nc\r");
    assert_eq!(trim_double_quotes("\"lib/shapes\""), "lib/shapes");
    assert_eq!(trim_double_quotes("\"\"x\""), "x");
    assert_eq!(trim_double_quotes("\"\"\""), "");
    assert_eq!(trim_double_quotes("plain"), "plain");
}

#[test]
fn crlf_sources_are_analysed_like_lf_sources() {
    let lf = "#include <stdlib.h>\nint main() {\n  int *p = malloc(4);\n  free(p);\n  free(p);\n  return 0;\n}\n";
    let crlf = lf.replace('\n', "\r\n");
    let a = Sea::new(lf, "c").unwrap();
    let b = Sea::new(&crlf, "c").unwrap();
    assert_eq!(b.source(), lf);
    let ra: Vec<String> = a.analyze("x.c", &Vec::new()).iter().map(|d| d.render()).collect();
    let rb: Vec<String> = b.analyze("x.c", &Vec::new()).iter().map(|d| d.render()).collect();
    assert_eq!(ra, rb);
    assert_eq!(ra, vec!["x.c:5:7: error: double free of 'p'".to_string()]);
}

#[test]
fn parsed_c_keeps_positions_and_texts() {
    let tree = parse_c("int main() {\n  return 0;\n}\n").unwrap();
    assert_eq!(tree.kind, "translation_unit");
    let f = &tree.children[0];
    assert_eq!(f.kind, "function_definition");
    assert_eq!((f.start_line, f.start_col, f.end_line, f.end_col), (1, 0, 3, 1));
    assert_eq!(f.text, "int main() {\n  return 0;\n}");
    let body = f.children.iter().find(|c| c.field.as_deref() == Some("body")).unwrap();
    assert_eq!(body.kind, "compound_statement");
    assert!(f.children.iter().any(|c| c.field.as_deref() == Some("declarator")));
    assert!(body.children.iter().any(|c| !c.named && c.kind == "{"));
}

#[test]
fn cfg_of_an_if_statement_branches_and_joins() {
    let tree = parse_c("int f(int a) {\n  int *p = malloc(4);\n  if (a) {\n    free(p);\n  }\n  free(p);\n  return 0;\n}\n").unwrap();
    let cfg = build_cfg(&tree.children[0]);
    assert_eq!(cfg.node_count(), 4);
    assert_eq!(cfg.edge_count(), 4);
    let entry = &cfg[petgraph::graph::NodeIndex::new(0)];
    assert!(matches!(entry.statements[0], Statement::Param { .. }));
    let sea = Sea::new("int x;", "c").unwrap();
    let d = sea.analyze_cfg(&cfg, "f.c", false);
    // The join is judged with both branches known: a warning, no error.
    assert_eq!(messages(&d), vec!["possible double free of 'p'".to_string()]);
}

#[test]
fn loops_reach_a_fixed_point() {
    let src = "int f(int n) {\n  int *p = malloc(4);\n  while (n) {\n    free(p);\n  }\n  return 0;\n}\n";
    let sea = Sea::new(src, "c").unwrap();
    let d = sea.analyze("w.c", &Vec::new());
    assert!(messages(&d).contains(&"possible double free of 'p'".to_string()));
    assert!(!messages(&d).iter().any(|m| m.contains("memory leak")));
}

#[test]
fn conditional_free_gives_only_a_warning() {
    let mut cfg: sea::graph::Cfg = petgraph::graph::DiGraph::new();
    let stmt = |s: Statement| sea::cfg::BasicBlock { statements: vec![s] };
    let b0 = cfg.add_node(stmt(Statement::Malloc { var: "p".to_string(), row: 3, col: 7 }));
    let b1 = cfg.add_node(stmt(Statement::Free { var: "p".to_string(), row: 5, col: 9 }));
    let b2 = cfg.add_node(sea::cfg::BasicBlock { statements: Vec::new() });
    let b3 = cfg.add_node(stmt(Statement::Deref { var: "p".to_string(), row: 7, col: 3 }));
    cfg.add_edge(b0, b1, ());
    cfg.add_edge(b0, b2, ());
    cfg.add_edge(b1, b3, ());
    cfg.add_edge(b2, b3, ());
    let sea = Sea::new("int x;", "c").unwrap();
    let d = sea.analyze_cfg(&cfg, "c.c", false);
    assert_eq!(d.len(), 1);
    assert_eq!(d[0].render(), "c.c:7:3: warning: possible use after free of 'p'");
}

#[test]
fn handing_over_keeps_checking_frees() {
    let src = "#include <stdlib.h>\nint main() {\n  int *p = malloc(4);\n  int *q;\n  q = p;\n  free(p);\n  free(p);\n  return 0;\n}\n";
    let d = Sea::new(src, "c").unwrap().analyze("m.c", &Vec::new());
    assert!(messages(&d).contains(&"double free of 'p'".to_string()), "{:?}", messages(&d));
    assert!(!messages(&d).iter().any(|m| m.contains("memory leak")));
}

#[test]
fn default_label_closes_the_switch() {
    let src = "#include <stdlib.h>\nint main(int x) {\n  int *p = malloc(4);\n  switch (x) {\n    case 1:\n      free(p);\n      break;\n    default:\n      free(p);\n      break;\n  }\n  *p = 1;\n  return 0;\n}\n";
    let d = Sea::new(src, "c").unwrap().analyze("s.c", &Vec::new());
    assert_eq!(messages(&d), vec!["use after free of 'p'".to_string()]);
}

#[test]
fn text_of_a_tree_from_another_source_is_empty() {
    let mut parser = tree_sitter::Parser::new();
    parser.set_language(&tree_sitter_c::LANGUAGE.into()).unwrap();
    let tree = parser.parse("int main() { return 0; }", None).unwrap();
    let t = sea::ts::syntax_tree(&tree, "");
    assert_eq!(t.kind, "translation_unit");
    assert_eq!(t.text, "");
    let full = sea::ts::syntax_tree(&tree, "int main() { return 0; }");
    assert_eq!(full.text, "int main() { return 0; }");
}

#[test]
fn parse_c_reads_the_same_tree_as_a_direct_conversion() {
    let src = "#include <stdlib.h>\nint main(int argc) {\n  int *p = malloc(4);\n  if (argc) { free(p); } else { *p = 1; }\n  switch (argc) { case 1: break; default: free(p); }\n  return 0;\n}\n";
    let mut parser = tree_sitter::Parser::new();
    parser.set_language(&tree_sitter_c::LANGUAGE.into()).unwrap();
    let tree = parser.parse(src, None).unwrap();
    let direct = sea::ts::syntax_tree(&tree, src);
    let read = parse_c(src).unwrap();
    assert_eq!(format!("{:?}", read), format!("{:?}", direct));
}

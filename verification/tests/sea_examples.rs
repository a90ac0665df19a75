use sea::sea::{CheckMode, Sea};
use sea::syntax::SyntaxNode;

// Sea sources as the Sea grammar parses them. The grammar is not linked into the library,
// so each tree is written out with the node kinds and fields the Sea grammar gives.

fn node(kind: &str, text: &str, children: Vec<SyntaxNode>) -> SyntaxNode {
    SyntaxNode {
        kind: kind.to_string(),
        field: None,
        named: true,
        text: text.to_string(),
        start_line: 1,
        start_col: 0,
        end_line: 1,
        end_col: 0,
        children,
    }
}

fn tok(t: &str) -> SyntaxNode {
    let mut n = node(t, t, Vec::new());
    n.named = false;
    n
}

fn field(name: &str, mut n: SyntaxNode) -> SyntaxNode {
    n.field = Some(name.to_string());
    n
}

fn at(line: usize, col: usize, mut n: SyntaxNode) -> SyntaxNode {
    n.start_line = line;
    n.start_col = col;
    n
}

fn ident(name: &str) -> SyntaxNode {
    node("identifier", name, Vec::new())
}

fn block(stmts: Vec<SyntaxNode>) -> SyntaxNode {
    let mut kids = vec![tok("{")];
    kids.extend(stmts);
    kids.push(tok("}"));
    node("compound_statement", "{ .. }", kids)
}

fn params(list: &[(&str, &str)]) -> SyntaxNode {
    let mut kids = vec![tok("(")];
    for (i, (t, n)) in list.iter().enumerate() {
        if i > 0 {
            kids.push(tok(","));
        }
        kids.push(node(
            "sea_parameter",
            &format!("{} {}", t, n),
            vec![field("type", node("type_identifier", t, Vec::new())), field("name", ident(n))],
        ));
    }
    kids.push(tok(")"));
    node("parameter_list", "( .. )", kids)
}

fn args(list: Vec<SyntaxNode>) -> SyntaxNode {
    let mut kids = vec![tok("(")];
    for (i, a) in list.into_iter().enumerate() {
        if i > 0 {
            kids.push(tok(","));
        }
        kids.push(a);
    }
    kids.push(tok(")"));
    node("argument_list", "( .. )", kids)
}

fn call(func: &str, arguments: Vec<SyntaxNode>) -> SyntaxNode {
    node(
        "call_expression",
        &format!("{}(..)", func),
        vec![field("function", ident(func)), field("arguments", args(arguments))],
    )
}

fn method_call(obj: &str, method: &str, arguments: Vec<SyntaxNode>) -> SyntaxNode {
    let f = node(
        "field_expression",
        &format!("{}.{}", obj, method),
        vec![field("argument", ident(obj)), field("operator", tok(".")), field("field", node("field_identifier", method, Vec::new()))],
    );
    node("call_expression", &format!("{}.{}(..)", obj, method), vec![field("function", f), field("arguments", args(arguments))])
}

fn stmt(e: SyntaxNode) -> SyntaxNode {
    node("expression_statement", "..;", vec![e, tok(";")])
}

fn assign(left: SyntaxNode, right: SyntaxNode) -> SyntaxNode {
    let text = format!("{} = {}", left.text, right.text);
    node("assignment_expression", &text, vec![field("left", left), field("operator", tok("=")), field("right", right)])
}

fn this_field(name: &str) -> SyntaxNode {
    node(
        "field_expression",
        &format!("this.{}", name),
        vec![field("argument", ident("this")), field("operator", tok(".")), field("field", node("field_identifier", name, Vec::new()))],
    )
}

fn number(n: &str) -> SyntaxNode {
    node("number_literal", n, Vec::new())
}

fn init(ps: &[(&str, &str)], body: Vec<SyntaxNode>) -> SyntaxNode {
    node("init_declaration", "init(..) { .. }", vec![tok("init"), field("parameters", params(ps)), field("body", block(body))])
}

fn drop_decl(body: Vec<SyntaxNode>) -> SyntaxNode {
    node("drop_declaration", "drop() { .. }", vec![tok("drop"), tok("("), tok(")"), field("body", block(body))])
}

fn method(name: &str, ps: &[(&str, &str)], body: Vec<SyntaxNode>) -> SyntaxNode {
    let m = node(
        "sea_method",
        name,
        vec![field("name", ident(name)), field("parameters", params(ps)), tok("->"), field("return_type", node("primitive_type", "void", Vec::new())), field("body", block(body))],
    );
    node("method_declaration", name, vec![m])
}

fn c_style_method(ret: &str, name: &str) -> SyntaxNode {
    let m = node(
        "c_style_method",
        name,
        vec![field("return_type", node("primitive_type", ret, Vec::new())), field("name", ident(name)), field("parameters", params(&[])), field("body", block(Vec::new()))],
    );
    node("method_declaration", name, vec![m])
}

fn field_decl(ty: &str, name: &str) -> SyntaxNode {
    node(
        "field_declaration",
        name,
        vec![field("type", node("type_identifier", ty, Vec::new())), field("name", ident(name)), tok(";")],
    )
}

fn class(name: &str, extra: Vec<SyntaxNode>, members: Vec<SyntaxNode>) -> SyntaxNode {
    let mut kids = vec![tok("class"), field("name", ident(name))];
    kids.extend(extra);
    kids.push(tok("{"));
    kids.extend(members);
    kids.push(tok("}"));
    at(1, 0, node("class_declaration", name, kids))
}

fn implements(names: &[&str]) -> SyntaxNode {
    let mut kids = vec![tok("implements")];
    for n in names {
        kids.push(ident(n));
    }
    field("implements", node("implements_clause", "implements ..", kids))
}

fn inherits(parent: &str) -> SyntaxNode {
    field("inherit", node("inherit_clause", "inherits ..", vec![tok("inherits"), field("parent", ident(parent))]))
}

fn interface(name: &str, methods: &[&str]) -> SyntaxNode {
    let mut kids = vec![tok("interface"), field("name", ident(name)), tok("{")];
    for m in methods {
        kids.push(node("interface_method", m, vec![field("name", ident(m)), tok("("), tok(")"), tok(";")]));
    }
    kids.push(tok("}"));
    node("interface_declaration", name, kids)
}

fn source_file(decls: Vec<SyntaxNode>) -> SyntaxNode {
    node("source_file", "", decls)
}

fn run(file: &str, tree: SyntaxNode) -> Vec<String> {
    let sea = Sea::from_tree("", tree, CheckMode::Sea).expect("a well-formed Sea tree");
    let diagnostics = sea.analyze(file, &Vec::new());
    diagnostics.iter().map(|d| d.message.clone()).collect()
}

fn malloc_field(name: &str) -> SyntaxNode {
    stmt(assign(this_field(name), call("malloc", vec![number("10")])))
}

#[test]
fn test_sea_malloc_no_drop() {
    let tree = source_file(vec![class(
        "Buffer",
        Vec::new(),
        vec![field_decl("char", "data"), init(&[], vec![malloc_field("data")])],
    )]);
    let messages = run("examples/sea/malloc_no_drop.sea", tree);
    assert!(
        messages.iter().any(|m| m.contains("uses malloc in constructor but has no drop")),
        "expected malloc without drop error but got: {:?}",
        messages
    );
}

#[test]
fn test_sea_malloc_with_drop() {
    let tree = source_file(vec![class(
        "Buffer",
        Vec::new(),
        vec![
            field_decl("char", "data"),
            init(&[], vec![malloc_field("data")]),
            drop_decl(vec![stmt(call("free", vec![this_field("data")]))]),
        ],
    )]);
    let messages = run("examples/sea/malloc_with_drop.sea", tree);
    assert!(messages.is_empty(), "expected no issues but got: {:?}", messages);
}

#[test]
fn test_sea_no_constructor() {
    let tree = source_file(vec![class("Empty", Vec::new(), vec![method("greet", &[], Vec::new())])]);
    let messages = run("examples/sea/no_constructor.sea", tree);
    assert!(
        messages.iter().any(|m| m.contains("has no constructor")),
        "expected no constructor error but got: {:?}",
        messages
    );
}

#[test]
fn test_sea_multiple_constructors() {
    let tree = source_file(vec![class(
        "Point",
        Vec::new(),
        vec![init(&[], Vec::new()), init(&[("int", "x")], Vec::new())],
    )]);
    let messages = run("examples/sea/multiple_constructors.sea", tree);
    assert!(
        messages.iter().any(|m| m.contains("multiple constructors")),
        "expected multiple constructors error but got: {:?}",
        messages
    );
}

#[test]
fn test_sea_missing_interface_method() {
    let tree = source_file(vec![
        interface("Swimmer", &["swim"]),
        class(
            "Fish",
            vec![implements(&["Swimmer"])],
            vec![init(&[], Vec::new()), method("eat", &[], Vec::new())],
        ),
    ]);
    let messages = run("examples/sea/missing_interface_method.sea", tree);
    assert!(
        messages.iter().any(|m| m.contains("missing method 'swim'")),
        "expected missing method error but got: {:?}",
        messages
    );
}

#[test]
fn test_sea_valid_interface() {
    let tree = source_file(vec![
        interface("Swimmer", &["swim"]),
        class(
            "Fish",
            vec![implements(&["Swimmer"])],
            vec![init(&[], Vec::new()), method("swim", &[], Vec::new())],
        ),
    ]);
    let messages = run("examples/sea/valid_interface.sea", tree);
    assert!(messages.is_empty(), "expected no issues but got: {:?}", messages);
}

#[test]
fn test_sea_unknown_interface() {
    let tree = source_file(vec![class("Bird", vec![implements(&["Flyer"])], vec![init(&[], Vec::new())])]);
    let messages = run("examples/sea/unknown_interface.sea", tree);
    assert!(
        messages.iter().any(|m| m.contains("unknown interface")),
        "expected unknown interface error but got: {:?}",
        messages
    );
}

#[test]
fn test_sea_drop_no_free() {
    let tree = source_file(vec![class(
        "Resource",
        Vec::new(),
        vec![init(&[], Vec::new()), drop_decl(Vec::new())],
    )]);
    let messages = run("examples/sea/drop_no_free.sea", tree);
    assert!(
        messages.iter().any(|m| m.contains("drop() but never calls free()")),
        "expected drop without free warning but got: {:?}",
        messages
    );
}

#[test]
fn test_sea_unknown_parent() {
    let tree = source_file(vec![class("Dog", vec![inherits("Animal")], vec![init(&[], Vec::new())])]);
    let messages = run("examples/sea/unknown_parent.sea", tree);
    assert!(
        messages.iter().any(|m| m.contains("inherits unknown class")),
        "expected unknown parent error but got: {:?}",
        messages
    );
}

#[test]
fn test_sea_c_style_method() {
    let tree = source_file(vec![class(
        "Calc",
        Vec::new(),
        vec![init(&[], Vec::new()), c_style_method("int", "add")],
    )]);
    let messages = run("examples/sea/c_style_method.sea", tree);
    assert!(
        messages.iter().any(|m| m.contains("C style method")),
        "expected C style method warning but got: {:?}",
        messages
    );
}

// ─── Further checks of Sea sources ───────────────────────────────────────

fn decl(ty: &str, var: &str, value: Option<SyntaxNode>) -> SyntaxNode {
    let t = field("type", node("type_identifier", ty, Vec::new()));
    match value {
        Some(v) => node(
            "declaration",
            var,
            vec![t, node("init_declarator", var, vec![field("declarator", ident(var)), tok("="), field("value", v)]), tok(";")],
        ),
        None => node("declaration", var, vec![t, ident(var), tok(";")]),
    }
}

fn new_expr(ty: &str, arguments: Vec<SyntaxNode>) -> SyntaxNode {
    node("new_expression", &format!("new {}(..)", ty), vec![tok("new"), field("type", node("type_identifier", ty, Vec::new())), field("arguments", args(arguments))])
}

fn main_decl(body: Vec<SyntaxNode>) -> SyntaxNode {
    node("main_declaration", "main", vec![tok("main"), tok("("), tok(")"), field("body", block(body))])
}

fn counter_class() -> SyntaxNode {
    class(
        "Counter",
        Vec::new(),
        vec![
            field_decl("int", "count"),
            init(&[], Vec::new()),
            method("add", &[("int", "n")], Vec::new()),
        ],
    )
}

#[test]
fn sea_method_arity_is_checked() {
    let tree = source_file(vec![
        counter_class(),
        main_decl(vec![
            decl("Counter", "c", Some(new_expr("Counter", Vec::new()))),
            stmt(at(5, 2, method_call("c", "add", vec![number("1"), number("2")]))),
        ]),
    ]);
    let messages = run("main.sea", tree);
    assert_eq!(messages, vec!["method 'add' on 'Counter' expects 1 argument(s) but got 2".to_string()]);
}

#[test]
fn sea_unknown_method_is_reported() {
    let tree = source_file(vec![
        counter_class(),
        main_decl(vec![
            decl("Counter", "c", Some(new_expr("Counter", Vec::new()))),
            stmt(method_call("c", "reset", Vec::new())),
        ]),
    ]);
    let messages = run("main.sea", tree);
    assert_eq!(messages, vec!["no method 'reset' found on class 'Counter'".to_string()]);
}

#[test]
fn sea_undefined_variable_is_reported() {
    let tree = source_file(vec![counter_class(), main_decl(vec![stmt(method_call("d", "add", vec![number("1")]))])]);
    let messages = run("main.sea", tree);
    assert_eq!(messages, vec!["undefined variable 'd'".to_string()]);
}

#[test]
fn sea_unknown_type_and_class_are_reported() {
    let tree = source_file(vec![main_decl(vec![decl("Widget", "w", Some(new_expr("Gadget", Vec::new())))])]);
    let messages = run("main.sea", tree);
    assert_eq!(messages, vec!["unknown type 'Widget'".to_string(), "unknown class 'Gadget'".to_string()]);
}

#[test]
fn sea_constructor_arity_is_checked() {
    let tree = source_file(vec![counter_class(), main_decl(vec![decl("Counter", "c", Some(new_expr("Counter", vec![number("3")])))])]);
    let messages = run("main.sea", tree);
    assert_eq!(messages, vec!["method 'init' on 'Counter' expects 0 argument(s) but got 1".to_string()]);
}

#[test]
fn sea_this_resolves_to_the_class() {
    let tree = source_file(vec![class(
        "Counter",
        Vec::new(),
        vec![
            init(&[], vec![stmt(method_call("this", "add", Vec::new()))]),
            method("add", &[("int", "n")], Vec::new()),
        ],
    )]);
    let messages = run("counter.sea", tree);
    assert_eq!(messages, vec!["method 'add' on 'Counter' expects 1 argument(s) but got 0".to_string()]);
}

#[test]
fn sea_parameters_and_fields_are_in_scope() {
    let tree = source_file(vec![
        counter_class(),
        class(
            "Holder",
            Vec::new(),
            vec![
                field_decl("Counter", "inner"),
                init(&[("Counter", "c")], vec![stmt(method_call("c", "add", vec![number("1")]))]),
                method("bump", &[], vec![stmt(method_call("inner", "add", vec![number("1")]))]),
            ],
        ),
    ]);
    let messages = run("holder.sea", tree);
    assert!(messages.is_empty(), "expected no issues but got: {:?}", messages);
}

#[test]
fn sea_imported_classes_are_known() {
    let imported = source_file(vec![counter_class()]);
    let import = node(
        "import_declaration",
        "import \"counter\"",
        vec![tok("import"), field("path", node("string_literal", "\"counter\"", Vec::new())), tok(";")],
    );
    let tree = source_file(vec![import, main_decl(vec![decl("Counter", "c", Some(new_expr("Counter", Vec::new())))])]);
    let sea = Sea::from_tree("", tree, CheckMode::Sea).unwrap();
    assert_eq!(sea.import_paths(), vec!["counter".to_string()]);
    let with_import: Vec<String> = sea.analyze("main.sea", &vec![Some(imported)]).iter().map(|d| d.message.clone()).collect();
    assert!(with_import.is_empty(), "expected no issues but got: {:?}", with_import);
    let without: Vec<String> = sea.analyze("main.sea", &vec![None]).iter().map(|d| d.message.clone()).collect();
    assert_eq!(without, vec!["unknown type 'Counter'".to_string(), "unknown class 'Counter'".to_string()]);
}

#[test]
fn sea_malformed_tree_is_refused() {
    let nameless = node("class_declaration", "class", vec![tok("class"), tok("{"), tok("}")]);
    assert!(Sea::from_tree("", source_file(vec![nameless]), CheckMode::Sea).is_none());
    let nameless = node("class_declaration", "class", vec![tok("class"), tok("{"), tok("}")]);
    assert!(Sea::from_tree("", source_file(vec![nameless]), CheckMode::C).is_some());
}

#[test]
fn sea_class_with_drop_owns_its_allocations() {
    let with_drop = source_file(vec![class(
        "Buffer",
        Vec::new(),
        vec![
            init(&[], vec![malloc_field("data")]),
            drop_decl(vec![stmt(call("free", vec![this_field("data")]))]),
        ],
    )]);
    assert!(!run("b.sea", with_drop).iter().any(|m| m.contains("memory leak")));
    let without = source_file(vec![class("Buffer", Vec::new(), vec![init(&[], vec![malloc_field("data")])])]);
    assert!(run("b.sea", without).iter().any(|m| m == "memory leak of pointer 'this.data'"));
}

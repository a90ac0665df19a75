use vstd::prelude::*;
use vstd::string::*;
use crate::cfg::{BasicBlock, Statement, StmtView, opt_stmt_view, stmt_view};
use crate::graph::{
    Cfg, GraphView, block_view, graph_view, cfg_add_block, cfg_add_edge, cfg_block_mut, cfg_blocks, cfg_edges, cfg_new, edges_in_range,
};
use crate::syntax::{
    SyntaxNode, field_is, child_by_field_name, child_index_by_field, field_child, field_index, first_child,
    first_child_of, first_named, first_named_child, last_named, last_named_child,
    lemma_child_size, lemma_sizes_mono, lemma_two_children_size, size, sizes,
};
use crate::text::copy_string;

verus! {

pub open spec fn kind_is(n: SyntaxNode, k: Seq<char>) -> bool {
    n.kind@ == k
}

fn is_kind(n: &SyntaxNode, k: &str) -> (r: bool)
    ensures
        r == kind_is(*n, k@),
{
    n.kind.as_str().eq(k)
}

fn text_is(n: &SyntaxNode, t: &str) -> (r: bool)
    ensures
        r == (n.text@ == t@),
{
    n.text.as_str().eq(t)
}

// ----------------------------------------------------------------------------------------
// The statements one node yields.

/// `*p`: a dereference of the operand.
pub open spec fn extract_deref(n: SyntaxNode) -> Option<StmtView> {
    match first_child(n) {
        Some(op) => if op.text@ == "*"@ {
            match first_named(n) {
                Some(x) => Some(StmtView::Deref { var: x.text@, row: x.start_line, col: x.start_col }),
                None => None,
            }
        } else {
            None
        },
        None => None,
    }
}

/// `p->f`: a field access through the pointer.
pub open spec fn extract_field_access(n: SyntaxNode) -> Option<StmtView> {
    match field_child(n, "argument"@) {
        Some(a) => match field_child(n, "operator"@) {
            Some(op) => if op.text@ == "->"@ {
                Some(StmtView::FieldAccess { var: a.text@, row: a.start_line, col: a.start_col })
            } else {
                None
            },
            None => None,
        },
        None => None,
    }
}

/// `return p;` or `return &x;`.
pub open spec fn extract_return(n: SyntaxNode) -> Option<StmtView> {
    match first_named(n) {
        Some(e) => if kind_is(e, "identifier"@) {
            Some(StmtView::Return { var: e.text@, row: e.start_line, col: e.start_col, is_address_of: false })
        } else if kind_is(e, "pointer_expression"@) {
            match first_child(e) {
                Some(op) => if op.text@ == "&"@ {
                    match first_named(e) {
                        Some(x) => Some(
                            StmtView::Return {
                                var: x.text@,
                                row: x.start_line,
                                col: x.start_col,
                                is_address_of: true,
                            },
                        ),
                        None => None,
                    }
                } else {
                    None
                },
                None => None,
            }
        } else {
            None
        },
        None => None,
    }
}

/// The variable a call of the malloc family is stored in, found in the node around the call.
pub open spec fn malloc_target(parent: Option<SyntaxNode>) -> Option<(Seq<char>, usize, usize)> {
    match parent {
        Some(p) => if kind_is(p, "init_declarator"@) {
            match field_child(p, "declarator"@) {
                Some(d) => {
                    let inner = match first_named(d) {
                        Some(x) => x,
                        None => d,
                    };
                    Some((inner.text@, inner.start_line, inner.start_col))
                },
                None => None,
            }
        } else if kind_is(p, "assignment_expression"@) {
            match field_child(p, "left"@) {
                Some(l) => Some((l.text@, l.start_line, l.start_col)),
                None => None,
            }
        } else {
            None
        },
        None => None,
    }
}

pub open spec fn is_alloc_fn(name: Seq<char>) -> bool {
    name == "malloc"@ || name == "calloc"@ || name == "realloc"@
}

/// A call: an allocation, a `free`, or a pointer passed to another function.
pub open spec fn extract_call(n: SyntaxNode, parent: Option<SyntaxNode>) -> Option<StmtView> {
    match field_child(n, "function"@) {
        Some(f) => if is_alloc_fn(f.text@) {
            match malloc_target(parent) {
                Some(t) => Some(StmtView::Malloc { var: t.0, row: t.1, col: t.2 }),
                None => None,
            }
        } else {
            match field_child(n, "arguments"@) {
                Some(args) => match first_named(args) {
                    Some(a) => if f.text@ == "free"@ {
                        Some(StmtView::Free { var: a.text@, row: a.start_line, col: a.start_col })
                    } else {
                        Some(
                            StmtView::PassToFunction {
                                var: a.text@,
                                func: f.text@,
                                row: a.start_line,
                                col: a.start_col,
                            },
                        )
                    },
                    None => None,
                },
                None => None,
            }
        },
        None => None,
    }
}

/// `dst = src;` hands `src` over; `p = &x;` points `p` at `x`.
pub open spec fn extract_assignment(n: SyntaxNode) -> Option<StmtView> {
    match field_child(n, "left"@) {
        Some(l) => match field_child(n, "right"@) {
            Some(r) => if kind_is(r, "identifier"@) {
                Some(StmtView::Move { var: r.text@, row: r.start_line, col: r.start_col })
            } else if !kind_is(r, "pointer_expression"@) {
                None
            } else {
                match first_child(r) {
                    Some(op) => if op.text@ != "&"@ {
                        None
                    } else {
                        match first_named(r) {
                            Some(t) => Some(
                                StmtView::PointerAssign {
                                    var: l.text@,
                                    points_to: t.text@,
                                    row: l.start_line,
                                    col: l.start_col,
                                },
                            ),
                            None => None,
                        }
                    },
                    None => None,
                }
            },
            None => None,
        },
        None => None,
    }
}

pub open spec fn named_or_self(d: SyntaxNode) -> SyntaxNode {
    match first_named(d) {
        Some(x) => x,
        None => d,
    }
}

/// A declaration: of a pointer set to `NULL`, to `&x`, or to something not modelled; of a
/// plain variable.
pub open spec fn extract_declaration(n: SyntaxNode) -> Option<StmtView> {
    match field_child(n, "declarator"@) {
        Some(decl) => if kind_is(decl, "init_declarator"@) {
            match field_child(decl, "value"@) {
                Some(value) => match field_child(decl, "declarator"@) {
                    Some(inner) => if kind_is(value, "call_expression"@) {
                        None
                    } else if kind_is(inner, "pointer_declarator"@) {
                        let v = named_or_self(inner);
                        if value.text@ == "NULL"@ {
                            Some(StmtView::NullAssign { var: v.text@, row: v.start_line, col: v.start_col })
                        } else if kind_is(value, "pointer_expression"@) {
                            match first_named(value) {
                                Some(t) => Some(
                                    StmtView::AddrAssign {
                                        var: v.text@,
                                        points_to: t.text@,
                                        row: v.start_line,
                                        col: v.start_col,
                                    },
                                ),
                                None => None,
                            }
                        } else {
                            Some(StmtView::OpaqueInit { var: v.text@, row: v.start_line, col: v.start_col })
                        }
                    } else if kind_is(inner, "identifier"@) {
                        Some(
                            StmtView::AddrAssign {
                                var: inner.text@,
                                points_to: Seq::empty(),
                                row: inner.start_line,
                                col: inner.start_col,
                            },
                        )
                    } else {
                        None
                    },
                    None => None,
                },
                None => None,
            }
        } else if kind_is(decl, "pointer_declarator"@) {
            let v = named_or_self(decl);
            Some(StmtView::AddrAssign { var: v.text@, points_to: Seq::empty(), row: v.start_line, col: v.start_col })
        } else if kind_is(decl, "identifier"@) {
            Some(
                StmtView::AddrAssign {
                    var: decl.text@,
                    points_to: Seq::empty(),
                    row: decl.start_line,
                    col: decl.start_col,
                },
            )
        } else {
            None
        },
        None => None,
    }
}

/// The identifier a (possibly nested) declarator declares.
pub open spec fn declared_name(d: SyntaxNode) -> Option<SyntaxNode>
    decreases d,
{
    if kind_is(d, "identifier"@) {
        Some(d)
    } else {
        match field_index(d, "declarator"@) {
            Some(i) => {
                proof {
                    assert(decreases_to!(d => d.children));
                }
                if 0 <= i < d.children@.len() {
                    declared_name(d.children@[i])
                } else {
                    None
                }
            },
            None => None,
        }
    }
}

/// A function parameter, however many pointer or array levels its declarator has.
pub open spec fn extract_param(n: SyntaxNode) -> Option<StmtView> {
    match field_child(n, "declarator"@) {
        Some(d) => match declared_name(d) {
            Some(x) => Some(StmtView::Param { var: x.text@, row: x.start_line, col: x.start_col }),
            None => None,
        },
        None => None,
    }
}

} // verus!

verus! {

/// `(text, line, column)` of a node.
fn get_source(n: &SyntaxNode) -> (r: (String, usize, usize))
    ensures
        r.0@ == n.text@,
        r.1 == n.start_line,
        r.2 == n.start_col,
{
    (copy_string(&n.text), n.start_line, n.start_col)
}

fn try_extract_deref(n: &SyntaxNode) -> (r: Option<Statement>)
    ensures
        opt_stmt_view(r) == extract_deref(*n),
{
    let op = first_child_of(n)?;
    if !text_is(op, "*") {
        return None;
    }
    let x = first_named_child(n)?;
    let (var, row, col) = get_source(x);
    Some(Statement::Deref { var, row, col })
}

fn try_extract_field_access(n: &SyntaxNode) -> (r: Option<Statement>)
    ensures
        opt_stmt_view(r) == extract_field_access(*n),
{
    let a = child_by_field_name(n, "argument")?;
    let op = child_by_field_name(n, "operator")?;
    if text_is(op, "->") {
        let (var, row, col) = get_source(a);
        Some(Statement::FieldAccess { var, row, col })
    } else {
        None
    }
}

fn try_extract_return(n: &SyntaxNode) -> (r: Option<Statement>)
    ensures
        opt_stmt_view(r) == extract_return(*n),
{
    let e = first_named_child(n)?;
    if is_kind(e, "identifier") {
        let (var, row, col) = get_source(e);
        Some(Statement::Return { var, row, col, is_address_of: false })
    } else if is_kind(e, "pointer_expression") {
        let op = first_child_of(e)?;
        if !text_is(op, "&") {
            return None;
        }
        let x = first_named_child(e)?;
        let (var, row, col) = get_source(x);
        Some(Statement::Return { var, row, col, is_address_of: true })
    } else {
        None
    }
}

fn malloc_var(parent: Option<&SyntaxNode>) -> (r: Option<(String, usize, usize)>)
    ensures
        match r {
            Some(t) => malloc_target(match parent {
                Some(p) => Some(*p),
                None => None,
            }) == Some((t.0@, t.1, t.2)),
            None => malloc_target(match parent {
                Some(p) => Some(*p),
                None => None,
            }) is None,
        },
{
    let p = parent?;
    if is_kind(p, "init_declarator") {
        let d = child_by_field_name(p, "declarator")?;
        let inner = match first_named_child(d) {
            Some(x) => x,
            None => d,
        };
        Some(get_source(inner))
    } else if is_kind(p, "assignment_expression") {
        let l = child_by_field_name(p, "left")?;
        Some(get_source(l))
    } else {
        None
    }
}

fn try_extract_call(n: &SyntaxNode, parent: Option<&SyntaxNode>) -> (r: Option<Statement>)
    ensures
        opt_stmt_view(r) == extract_call(*n, match parent {
            Some(p) => Some(*p),
            None => None,
        }),
{
    let f = child_by_field_name(n, "function")?;
    if text_is(f, "malloc") || text_is(f, "calloc") || text_is(f, "realloc") {
        let (var, row, col) = malloc_var(parent)?;
        Some(Statement::Malloc { var, row, col })
    } else {
        let args = child_by_field_name(n, "arguments")?;
        let a = first_named_child(args)?;
        let (var, row, col) = get_source(a);
        if text_is(f, "free") {
            Some(Statement::Free { var, row, col })
        } else {
            Some(Statement::PassToFunction { var, func: copy_string(&f.text), row, col })
        }
    }
}

fn try_extract_assignment(n: &SyntaxNode) -> (r: Option<Statement>)
    ensures
        opt_stmt_view(r) == extract_assignment(*n),
{
    let l = child_by_field_name(n, "left")?;
    let r = child_by_field_name(n, "right")?;
    if is_kind(r, "identifier") {
        let (var, row, col) = get_source(r);
        return Some(Statement::Move { var, row, col });
    }
    if !is_kind(r, "pointer_expression") {
        return None;
    }
    let op = first_child_of(r)?;
    if !text_is(op, "&") {
        return None;
    }
    let (var, row, col) = get_source(l);
    let t = first_named_child(r)?;
    Some(Statement::PointerAssign { var, points_to: copy_string(&t.text), row, col })
}

fn named_or_self_of(d: &SyntaxNode) -> (r: &SyntaxNode)
    ensures
        *r == named_or_self(*d),
{
    match first_named_child(d) {
        Some(x) => x,
        None => d,
    }
}

fn try_extract_declaration(n: &SyntaxNode) -> (r: Option<Statement>)
    ensures
        opt_stmt_view(r) == extract_declaration(*n),
{
    let decl = child_by_field_name(n, "declarator")?;
    if is_kind(decl, "init_declarator") {
        let value = child_by_field_name(decl, "value")?;
        let inner = child_by_field_name(decl, "declarator")?;
        if is_kind(value, "call_expression") {
            return None;
        }
        if is_kind(inner, "pointer_declarator") {
            let v = named_or_self_of(inner);
            let (var, row, col) = get_source(v);
            if text_is(value, "NULL") {
                Some(Statement::NullAssign { var, row, col })
            } else if is_kind(value, "pointer_expression") {
                let t = first_named_child(value)?;
                Some(Statement::AddrAssign { var, points_to: copy_string(&t.text), row, col })
            } else {
                Some(Statement::OpaqueInit { var, row, col })
            }
        } else if is_kind(inner, "identifier") {
            let (var, row, col) = get_source(inner);
            Some(Statement::AddrAssign { var, points_to: String::new(), row, col })
        } else {
            None
        }
    } else if is_kind(decl, "pointer_declarator") {
        let v = named_or_self_of(decl);
        let (var, row, col) = get_source(v);
        Some(Statement::AddrAssign { var, points_to: String::new(), row, col })
    } else if is_kind(decl, "identifier") {
        let (var, row, col) = get_source(decl);
        Some(Statement::AddrAssign { var, points_to: String::new(), row, col })
    } else {
        None
    }
}

fn declared_name_of(d: &SyntaxNode) -> (r: Option<&SyntaxNode>)
    ensures
        match r {
            Some(x) => declared_name(*d) == Some(*x),
            None => declared_name(*d) is None,
        },
    decreases d,
{
    if is_kind(d, "identifier") {
        return Some(d);
    }
    match child_index_by_field(d, "declarator") {
        Some(i) => {
            proof {
                assert(decreases_to!(d.children => d.children@[i as int]));
            }
            declared_name_of(&d.children[i])
        },
        None => None,
    }
}

fn try_extract_param(n: &SyntaxNode) -> (r: Option<Statement>)
    ensures
        opt_stmt_view(r) == extract_param(*n),
{
    let d = child_by_field_name(n, "declarator")?;
    let x = declared_name_of(d)?;
    let (var, row, col) = get_source(x);
    Some(Statement::Param { var, row, col })
}

} // verus!

verus! {

pub open spec fn push_stmt(g: GraphView, b: usize, s: StmtView) -> GraphView {
    GraphView { blocks: g.blocks.update(b as int, g.blocks[b as int].push(s)), ..g }
}

pub open spec fn push_opt(g: GraphView, b: usize, o: Option<StmtView>) -> GraphView {
    match o {
        Some(s) => push_stmt(g, b, s),
        None => g,
    }
}

pub open spec fn new_block(g: GraphView) -> GraphView {
    GraphView { blocks: g.blocks.push(Seq::empty()), ..g }
}

pub open spec fn edge(g: GraphView, a: usize, b: usize) -> GraphView {
    GraphView { edges: g.edges.push((a, b)), ..g }
}

/// A `switch` with a `default` case.
/// A `default:` label: a node of its own in some grammars, a `case` without a value in
/// tree-sitter-c.
pub open spec fn is_default_case(c: SyntaxNode) -> bool {
    kind_is(c, "default_statement"@) || (kind_is(c, "case_statement"@) && field_child(c, "value"@) is None)
}

pub open spec fn has_default(n: SyntaxNode) -> bool {
    match field_child(n, "body"@) {
        Some(b) => exists|i: int| 0 <= i < b.children@.len() && is_default_case(#[trigger] b.children@[i]),
        None => false,
    }
}

/// A `case` whose last statement is `break`.
pub open spec fn ends_with_break(c: SyntaxNode) -> bool {
    match last_named(c) {
        Some(l) => kind_is(l, "break_statement"@),
        None => false,
    }
}

/// The graph after lowering `n` (whose parent is `parent`) into `g`, starting in block `cur`,
/// and the block where control continues after `n`.
pub open spec fn lower(n: SyntaxNode, parent: Option<SyntaxNode>, g: GraphView, cur: usize) -> (
    GraphView,
    usize,
)
    decreases n, 2nat, 0nat,
{
    let len = n.children@.len();
    proof {
        assert(decreases_to!(n => n.children));
    }
    if kind_is(n, "call_expression"@) {
        (push_opt(g, cur, extract_call(n, parent)), cur)
    } else if kind_is(n, "pointer_expression"@) {
        (push_opt(g, cur, extract_deref(n)), cur)
    } else if kind_is(n, "return_statement"@) {
        (push_opt(g, cur, extract_return(n)), cur)
    } else if kind_is(n, "field_expression"@) {
        (push_opt(g, cur, extract_field_access(n)), cur)
    } else if kind_is(n, "declaration"@) {
        lower_kids(n, len as nat, push_opt(g, cur, extract_declaration(n)), cur)
    } else if kind_is(n, "parameter_declaration"@) {
        (push_opt(g, cur, extract_param(n)), cur)
    } else if kind_is(n, "compound_statement"@) {
        let r = lower_kids(n, len as nat, push_stmt(g, cur, StmtView::EnterScope), cur);
        (push_stmt(r.0, r.1, StmtView::ExitScope { row: n.end_line, col: n.end_col }), r.1)
    } else if kind_is(n, "assignment_expression"@) {
        lower_kids(n, len as nat, push_opt(g, cur, extract_assignment(n)), cur)
    } else if kind_is(n, "if_statement"@) {
        let t = g.blocks.len() as usize;
        let f = (t + 1) as usize;
        let m = (t + 2) as usize;
        let g1 = edge(edge(new_block(new_block(new_block(g))), cur, t), cur, f);
        let r1 = match field_index(n, "consequence"@) {
            Some(i) => if 0 <= i < len {
                lower(n.children@[i], Some(n), g1, t)
            } else {
                (g1, t)
            },
            None => (g1, t),
        };
        let r2 = match field_index(n, "alternative"@) {
            Some(i) => if 0 <= i < len {
                lower(n.children@[i], Some(n), r1.0, f)
            } else {
                (r1.0, f)
            },
            None => (r1.0, f),
        };
        (edge(edge(r2.0, r1.1, m), r2.1, m), m)
    } else if kind_is(n, "while_statement"@) {
        let h = g.blocks.len() as usize;
        let b = (h + 1) as usize;
        let x = (h + 2) as usize;
        let g1 = edge(edge(edge(new_block(new_block(new_block(g))), cur, h), h, b), h, x);
        let r = match field_index(n, "body"@) {
            Some(i) => if 0 <= i < len {
                lower(n.children@[i], Some(n), g1, b)
            } else {
                (g1, b)
            },
            None => (g1, b),
        };
        (edge(r.0, r.1, h), x)
    } else if kind_is(n, "do_statement"@) {
        let b = g.blocks.len() as usize;
        let x = (b + 1) as usize;
        let g1 = edge(new_block(new_block(g)), cur, b);
        let r = match field_index(n, "body"@) {
            Some(i) => if 0 <= i < len {
                lower(n.children@[i], Some(n), g1, b)
            } else {
                (g1, b)
            },
            None => (g1, b),
        };
        (edge(edge(r.0, r.1, b), r.1, x), x)
    } else if kind_is(n, "for_statement"@) {
        let h = g.blocks.len() as usize;
        let b = (h + 1) as usize;
        let x = (h + 2) as usize;
        let g1 = edge(edge(edge(new_block(new_block(new_block(g))), cur, h), h, b), h, x);
        let g2 = match field_index(n, "initializer"@) {
            Some(i) => if 0 <= i < len {
                lower(n.children@[i], Some(n), g1, cur).0
            } else {
                g1
            },
            None => g1,
        };
        let r = match field_index(n, "body"@) {
            Some(i) => if 0 <= i < len {
                lower(n.children@[i], Some(n), g2, b)
            } else {
                (g2, b)
            },
            None => (g2, b),
        };
        (edge(r.0, r.1, h), x)
    } else if kind_is(n, "switch_statement"@) {
        let m = g.blocks.len() as usize;
        let g1 = new_block(g);
        let g2 = if !has_default(n) {
            edge(g1, cur, m)
        } else {
            g1
        };
        match field_index(n, "body"@) {
            Some(bi) => if 0 <= bi < len {
                let body = n.children@[bi];
                let r = lower_cases(body, body.children@.len() as nat, g2, cur, m, None);
                (
                    match r.1 {
                        Some(p) => edge(r.0, p, m),
                        None => r.0,
                    },
                    m,
                )
            } else {
                (g2, m)
            },
            None => (g2, m),
        }
    } else {
        lower_kids(n, len as nat, g, cur)
    }
}

/// Lowering the first `k` children of `n` in order, each continuing where the last ended.
pub open spec fn lower_kids(n: SyntaxNode, k: nat, g: GraphView, cur: usize) -> (GraphView, usize)
    decreases n, 1nat, k,
{
    if k == 0 || k > n.children@.len() {
        (g, cur)
    } else {
        proof {
            assert(decreases_to!(n => n.children));
        }
        let r = lower_kids(n, (k - 1) as nat, g, cur);
        lower(n.children@[k - 1], Some(n), r.0, r.1)
    }
}

/// Lowering the cases among the first `k` children of a switch body: each case gets a block
/// entered from the switch (`cur`) and, if the previous case falls through, from its end;
/// a case that ends with `break` leaves to `m`. Returns the end of a case still falling through.
pub open spec fn lower_cases(
    body: SyntaxNode,
    k: nat,
    g: GraphView,
    cur: usize,
    m: usize,
    prev: Option<usize>,
) -> (GraphView, Option<usize>)
    decreases body, 1nat, k,
{
    if k == 0 || k > body.children@.len() {
        (g, prev)
    } else {
        proof {
            assert(decreases_to!(body => body.children));
        }
        let r = lower_cases(body, (k - 1) as nat, g, cur, m, prev);
        let c = body.children@[k - 1];
        if kind_is(c, "case_statement"@) || kind_is(c, "default_statement"@) {
            let cb = r.0.blocks.len() as usize;
            let g1 = edge(new_block(r.0), cur, cb);
            let g2 = match r.1 {
                Some(p) => edge(g1, p, cb),
                None => g1,
            };
            let e = lower(c, Some(body), g2, cb);
            if ends_with_break(c) {
                (edge(e.0, e.1, m), None)
            } else {
                (e.0, Some(e.1))
            }
        } else {
            r
        }
    }
}

/// The control flow graph of a syntax tree: block 0 is the entry, where lowering starts.
pub open spec fn cfg_of(n: SyntaxNode) -> GraphView {
    lower(
        n,
        None,
        GraphView { blocks: seq![Seq::<StmtView>::empty()], edges: Seq::empty() },
        0,
    ).0
}

} // verus!

verus! {

pub open spec fn opt_node(p: Option<&SyntaxNode>) -> Option<SyntaxNode> {
    match p {
        Some(x) => Some(*x),
        None => None,
    }
}

/// Room in `g` for lowering a tree of `k` nodes without reaching petgraph's index limit.
pub open spec fn room(g: Cfg, k: nat) -> bool {
    &&& cfg_blocks(g).len() + 8 * k < u32::MAX
    &&& cfg_edges(g).len() + 8 * k < u32::MAX
}

/// Growth of `g` from `g0` within what a tree of `k` nodes may use.
pub open spec fn grew_within(g0: Cfg, g: Cfg, k: nat) -> bool {
    &&& cfg_blocks(g0).len() <= cfg_blocks(g).len()
    &&& cfg_edges(g0).len() <= cfg_edges(g).len()
    &&& cfg_blocks(g).len() + 4 <= cfg_blocks(g0).len() + 8 * k
    &&& cfg_edges(g).len() + 4 <= cfg_edges(g0).len() + 8 * k
    &&& edges_in_range(cfg_edges(g), cfg_blocks(g).len())
}

fn add_block(g: &mut Cfg) -> (i: usize)
    requires
        cfg_blocks(*old(g)).len() + 1 < u32::MAX,
    ensures
        graph_view(*final(g)) == new_block(graph_view(*old(g))),
        i == cfg_blocks(*old(g)).len(),
        cfg_blocks(*final(g)).len() == cfg_blocks(*old(g)).len() + 1,
        cfg_edges(*final(g)) == cfg_edges(*old(g)),
{
    let b = BasicBlock { statements: Vec::new() };
    let ghost bv = block_view(b);
    let i = cfg_add_block(g, b);
    proof {
        assert(bv =~= Seq::<StmtView>::empty());
        assert(graph_view(*g).blocks =~= new_block(graph_view(*old(g))).blocks);
    }
    i
}

fn add_edge(g: &mut Cfg, a: usize, b: usize)
    requires
        a < cfg_blocks(*old(g)).len(),
        b < cfg_blocks(*old(g)).len(),
        cfg_blocks(*old(g)).len() < u32::MAX,
        cfg_edges(*old(g)).len() + 1 < u32::MAX,
        edges_in_range(cfg_edges(*old(g)), cfg_blocks(*old(g)).len()),
    ensures
        graph_view(*final(g)) == edge(graph_view(*old(g)), a, b),
        cfg_blocks(*final(g)) == cfg_blocks(*old(g)),
        cfg_edges(*final(g)).len() == cfg_edges(*old(g)).len() + 1,
        edges_in_range(cfg_edges(*final(g)), cfg_blocks(*final(g)).len()),
{
    cfg_add_edge(g, a, b);
    proof {
        assert(graph_view(*g).blocks =~= graph_view(*old(g)).blocks);
        let e = cfg_edges(*g);
        assert forall|k: int| 0 <= k < e.len() implies #[trigger] e[k].0 < cfg_blocks(*g).len() && e[k].1
            < cfg_blocks(*g).len() by {
            if k < e.len() - 1 {
                assert(e[k] == cfg_edges(*old(g))[k]);
            }
        }
    }
}

fn push_statement(g: &mut Cfg, i: usize, s: Statement)
    requires
        i < cfg_blocks(*old(g)).len(),
        cfg_blocks(*old(g)).len() < u32::MAX,
    ensures
        graph_view(*final(g)) == push_stmt(graph_view(*old(g)), i, stmt_view(s)),
        cfg_blocks(*final(g)).len() == cfg_blocks(*old(g)).len(),
        cfg_edges(*final(g)) == cfg_edges(*old(g)),
{
    let ghost sv = stmt_view(s);
    let b = cfg_block_mut(g, i);
    let ghost before = b.statements@;
    b.statements.push(s);
    proof {
        assert(block_view(*b) =~= block_view(cfg_blocks(*old(g))[i as int]).push(sv));
    }
    proof {
        assert(graph_view(*g).blocks =~= push_stmt(graph_view(*old(g)), i, sv).blocks);
    }
}

fn push_option(g: &mut Cfg, i: usize, s: Option<Statement>)
    requires
        i < cfg_blocks(*old(g)).len(),
        cfg_blocks(*old(g)).len() < u32::MAX,
    ensures
        graph_view(*final(g)) == push_opt(graph_view(*old(g)), i, opt_stmt_view(s)),
        cfg_blocks(*final(g)).len() == cfg_blocks(*old(g)).len(),
        cfg_edges(*final(g)) == cfg_edges(*old(g)),
{
    match s {
        Some(st) => push_statement(g, i, st),
        None => {},
    }
}

} // verus!

verus! {

fn has_default_case(n: &SyntaxNode) -> (r: bool)
    ensures
        r == has_default(*n),
{
    match child_by_field_name(n, "body") {
        Some(b) => {
            let len = b.children.len();
            for i in 0..len
                invariant
                    len == b.children@.len(),
                    field_child(*n, "body"@) == Some(*b),
                    forall|j: int| 0 <= j < i ==> !is_default_case(#[trigger] b.children@[j]),
            {
                let c = &b.children[i];
                let hit = is_kind(c, "default_statement") || (is_kind(c, "case_statement")
                    && child_by_field_name(c, "value").is_none());
                if hit {
                    proof {
                        assert(is_default_case(b.children@[i as int]));
                    }
                    return true;
                }
            }
            false
        },
        None => false,
    }
}

fn case_ends_with_break(c: &SyntaxNode) -> (r: bool)
    ensures
        r == ends_with_break(*c),
{
    match last_named_child(c) {
        Some(l) => is_kind(l, "break_statement"),
        None => false,
    }
}

/// Lowers the children of `n` in order (`lower_kids`).
fn collect_children(n: &SyntaxNode, g: &mut Cfg, cur: usize) -> (r: usize)
    requires
        cur < cfg_blocks(*old(g)).len(),
        edges_in_range(cfg_edges(*old(g)), cfg_blocks(*old(g)).len()),
        room(*old(g), sizes(*n, n.children@.len() as nat)),
    ensures
        graph_view(*final(g)) == lower_kids(*n, n.children@.len() as nat, graph_view(*old(g)), cur).0,
        r == lower_kids(*n, n.children@.len() as nat, graph_view(*old(g)), cur).1,
        r < cfg_blocks(*final(g)).len(),
        grew_within(*old(g), *final(g), sizes(*n, n.children@.len() as nat) + 1),
    decreases *n, 1nat,
{
    let len = n.children.len();
    let mut c = cur;
    let ghost g0 = *g;
    for i in 0..len
        invariant
            len == n.children@.len(),
            graph_view(*g) == lower_kids(*n, i as nat, graph_view(g0), cur).0,
            c == lower_kids(*n, i as nat, graph_view(g0), cur).1,
            c < cfg_blocks(*g).len(),
            room(g0, sizes(*n, len as nat)),
            cfg_blocks(g0).len() <= cfg_blocks(*g).len(),
            cfg_edges(g0).len() <= cfg_edges(*g).len(),
            cfg_blocks(*g).len() <= cfg_blocks(g0).len() + 8 * sizes(*n, i as nat),
            cfg_edges(*g).len() <= cfg_edges(g0).len() + 8 * sizes(*n, i as nat),
            edges_in_range(cfg_edges(*g), cfg_blocks(*g).len()),
    {
        proof {
            assert(decreases_to!(n.children => n.children@[i as int]));
            lemma_sizes_mono(*n, (i + 1) as nat, len as nat);
            assert(sizes(*n, (i + 1) as nat) == sizes(*n, i as nat) + size(n.children@[i as int]));
        }
        c = collect_statements(&n.children[i], Some(n), g, c);
    }
    c
}

/// Lowers the cases among the children of a switch body (`lower_cases`).
fn collect_cases(body: &SyntaxNode, g: &mut Cfg, cur: usize, m: usize) -> (r: Option<usize>)
    requires
        cur < cfg_blocks(*old(g)).len(),
        m < cfg_blocks(*old(g)).len(),
        edges_in_range(cfg_edges(*old(g)), cfg_blocks(*old(g)).len()),
        room(*old(g), sizes(*body, body.children@.len() as nat) + 1),
    ensures
        graph_view(*final(g)) == lower_cases(
            *body,
            body.children@.len() as nat,
            graph_view(*old(g)),
            cur,
            m,
            None,
        ).0,
        r == lower_cases(*body, body.children@.len() as nat, graph_view(*old(g)), cur, m, None).1,
        r matches Some(p) ==> p < cfg_blocks(*final(g)).len(),
        cfg_blocks(*old(g)).len() <= cfg_blocks(*final(g)).len(),
        cfg_edges(*old(g)).len() <= cfg_edges(*final(g)).len(),
        cfg_blocks(*final(g)).len() <= cfg_blocks(*old(g)).len() + 8 * sizes(*body, body.children@.len() as nat),
        cfg_edges(*final(g)).len() <= cfg_edges(*old(g)).len() + 8 * sizes(*body, body.children@.len() as nat),
        edges_in_range(cfg_edges(*final(g)), cfg_blocks(*final(g)).len()),
    decreases *body, 1nat,
{
    let len = body.children.len();
    let mut prev: Option<usize> = None;
    let ghost g0 = *g;
    for i in 0..len
        invariant
            len == body.children@.len(),
            graph_view(*g) == lower_cases(*body, i as nat, graph_view(g0), cur, m, None).0,
            prev == lower_cases(*body, i as nat, graph_view(g0), cur, m, None).1,
            prev matches Some(p) ==> p < cfg_blocks(*g).len(),
            cur < cfg_blocks(g0).len(),
            m < cfg_blocks(g0).len(),
            room(g0, sizes(*body, len as nat) + 1),
            cfg_blocks(g0).len() <= cfg_blocks(*g).len(),
            cfg_edges(g0).len() <= cfg_edges(*g).len(),
            cfg_blocks(*g).len() <= cfg_blocks(g0).len() + 8 * sizes(*body, i as nat),
            cfg_edges(*g).len() <= cfg_edges(g0).len() + 8 * sizes(*body, i as nat),
            edges_in_range(cfg_edges(*g), cfg_blocks(*g).len()),
    {
        proof {
            assert(decreases_to!(body.children => body.children@[i as int]));
            lemma_sizes_mono(*body, (i + 1) as nat, len as nat);
            assert(sizes(*body, (i + 1) as nat) == sizes(*body, i as nat) + size(body.children@[i as int]));
            assert(size(body.children@[i as int]) >= 1);
        }
        let c = &body.children[i];
        if is_kind(c, "case_statement") || is_kind(c, "default_statement") {
            let cb = add_block(g);
            add_edge(g, cur, cb);
            match prev {
                Some(p) => add_edge(g, p, cb),
                None => {},
            }
            let e = collect_statements(c, Some(body), g, cb);
            if case_ends_with_break(c) {
                add_edge(g, e, m);
                prev = None;
            } else {
                prev = Some(e);
            }
        }
    }
    prev
}

/// Lowers one syntax node into the graph, starting in block `current`; returns the block
/// where control continues after it.
#[verifier::rlimit(60)]
#[verifier::spinoff_prover]
pub fn collect_statements(
    n: &SyntaxNode,
    parent: Option<&SyntaxNode>,
    g: &mut Cfg,
    current: usize,
) -> (r: usize)
    requires
        current < cfg_blocks(*old(g)).len(),
        edges_in_range(cfg_edges(*old(g)), cfg_blocks(*old(g)).len()),
        room(*old(g), size(*n)),
    ensures
        graph_view(*final(g)) == lower(*n, opt_node(parent), graph_view(*old(g)), current).0,
        r == lower(*n, opt_node(parent), graph_view(*old(g)), current).1,
        r < cfg_blocks(*final(g)).len(),
        grew_within(*old(g), *final(g), size(*n)),
    decreases *n, 2nat,
{
    let len = n.children.len();
    proof {
        reveal_strlit("consequence");
        reveal_strlit("alternative");
        reveal_strlit("initializer");
        reveal_strlit("body");
        assert("consequence"@[0] != "alternative"@[0]);
        assert("initializer"@[0] != "body"@[0]);
        assert(size(*n) == 1 + sizes(*n, len as nat));
    }
    if is_kind(n, "call_expression") {
        push_option(g, current, try_extract_call(n, parent));
        current
    } else if is_kind(n, "pointer_expression") {
        push_option(g, current, try_extract_deref(n));
        current
    } else if is_kind(n, "return_statement") {
        push_option(g, current, try_extract_return(n));
        current
    } else if is_kind(n, "field_expression") {
        push_option(g, current, try_extract_field_access(n));
        current
    } else if is_kind(n, "declaration") {
        push_option(g, current, try_extract_declaration(n));
        collect_children(n, g, current)
    } else if is_kind(n, "parameter_declaration") {
        push_option(g, current, try_extract_param(n));
        current
    } else if is_kind(n, "compound_statement") {
        push_statement(g, current, Statement::EnterScope);
        let e = collect_children(n, g, current);
        push_statement(g, e, Statement::ExitScope { row: n.end_line, col: n.end_col });
        e
    } else if is_kind(n, "assignment_expression") {
        push_option(g, current, try_extract_assignment(n));
        collect_children(n, g, current)
    } else if is_kind(n, "if_statement") {
        let t = add_block(g);
        let f = add_block(g);
        let m = add_block(g);
        add_edge(g, current, t);
        add_edge(g, current, f);
        let te = match child_index_by_field(n, "consequence") {
            Some(i) => {
                proof {
                    assert(decreases_to!(n.children => n.children@[i as int]));
                    lemma_child_size(*n, i as int);
                }
                collect_statements(&n.children[i], Some(n), g, t)
            },
            None => t,
        };
        let fe = match child_index_by_field(n, "alternative") {
            Some(i) => {
                proof {
                    assert(decreases_to!(n.children => n.children@[i as int]));
                    lemma_child_size(*n, i as int);
                    match field_index(*n, "consequence"@) {
                        Some(j) => {
                            assert(field_is(n.children@[j], "consequence"@));
                            assert(field_is(n.children@[i as int], "alternative"@));
                            if j < i {
                                lemma_two_children_size(*n, j, i as int);
                            } else if i < j {
                                lemma_two_children_size(*n, i as int, j);
                            }
                        },
                        None => {},
                    }
                }
                collect_statements(&n.children[i], Some(n), g, f)
            },
            None => f,
        };
        add_edge(g, te, m);
        add_edge(g, fe, m);
        m
    } else if is_kind(n, "while_statement") {
        let h = add_block(g);
        let b = add_block(g);
        let x = add_block(g);
        add_edge(g, current, h);
        add_edge(g, h, b);
        add_edge(g, h, x);
        let be = match child_index_by_field(n, "body") {
            Some(i) => {
                proof {
                    assert(decreases_to!(n.children => n.children@[i as int]));
                    lemma_child_size(*n, i as int);
                }
                collect_statements(&n.children[i], Some(n), g, b)
            },
            None => b,
        };
        add_edge(g, be, h);
        x
    } else if is_kind(n, "do_statement") {
        let b = add_block(g);
        let x = add_block(g);
        add_edge(g, current, b);
        let be = match child_index_by_field(n, "body") {
            Some(i) => {
                proof {
                    assert(decreases_to!(n.children => n.children@[i as int]));
                    lemma_child_size(*n, i as int);
                }
                collect_statements(&n.children[i], Some(n), g, b)
            },
            None => b,
        };
        add_edge(g, be, b);
        add_edge(g, be, x);
        x
    } else if is_kind(n, "for_statement") {
        let h = add_block(g);
        let b = add_block(g);
        let x = add_block(g);
        add_edge(g, current, h);
        add_edge(g, h, b);
        add_edge(g, h, x);
        match child_index_by_field(n, "initializer") {
            Some(i) => {
                proof {
                    assert(decreases_to!(n.children => n.children@[i as int]));
                    lemma_child_size(*n, i as int);
                }
                collect_statements(&n.children[i], Some(n), g, current);
            },
            None => {},
        }
        let be = match child_index_by_field(n, "body") {
            Some(i) => {
                proof {
                    assert(decreases_to!(n.children => n.children@[i as int]));
                    lemma_child_size(*n, i as int);
                    match field_index(*n, "initializer"@) {
                        Some(j) => {
                            assert(field_is(n.children@[j], "initializer"@));
                            assert(field_is(n.children@[i as int], "body"@));
                            if j < i {
                                lemma_two_children_size(*n, j, i as int);
                            } else if i < j {
                                lemma_two_children_size(*n, i as int, j);
                            }
                        },
                        None => {},
                    }
                }
                collect_statements(&n.children[i], Some(n), g, b)
            },
            None => b,
        };
        add_edge(g, be, h);
        x
    } else if is_kind(n, "switch_statement") {
        let m = add_block(g);
        if !has_default_case(n) {
            add_edge(g, current, m);
        }
        match child_index_by_field(n, "body") {
            Some(bi) => {
                let body = &n.children[bi];
                proof {
                    assert(decreases_to!(n.children => n.children@[bi as int]));
                    lemma_child_size(*n, bi as int);
                }
                let last = collect_cases(body, g, current, m);
                match last {
                    Some(p) => add_edge(g, p, m),
                    None => {},
                }
            },
            None => {},
        }
        m
    } else {
        collect_children(n, g, current)
    }
}

/// The control flow graph of a syntax tree (`build_cfg`): an empty entry block, then the
/// lowering of the tree from it.
pub fn build_cfg(node: &SyntaxNode) -> (r: Cfg)
    requires
        8 * size(*node) + 1 < u32::MAX,
    ensures
        graph_view(r) == cfg_of(*node),
        crate::graph::cfg_wf(r),
        cfg_blocks(r).len() > 0,
{
    let mut g = cfg_new();
    let entry = add_block(&mut g);
    proof {
        assert(graph_view(g).blocks =~= seq![Seq::<StmtView>::empty()]);
        assert(graph_view(g).edges =~= Seq::<(usize, usize)>::empty());
    }
    collect_statements(node, None, &mut g, entry);
    g
}

} // verus!

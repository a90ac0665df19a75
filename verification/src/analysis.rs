use vstd::prelude::*;
use vstd::string::*;
use crate::analyzer_state::OwnershipState;
use crate::cfg::{
    BlockState, Entries, Statement, StateView, StmtView, stmt_view, bind, copy_binding, entries, exit_diags, exit_entries,
    find_binding, has, index_of, lookup, set_state, state_of, well_formed,
};
use crate::diagnostics::{Diagnostic, DiagView, Severity, diag, diags_view};
use crate::messages::{quote, quote2, quoted};
use crate::variable_info::{AllocKind, InfoView, VariableInfo};

verus! {

/// A finding as its message and severity.
pub type Finding = Option<(Seq<char>, Severity)>;

/// The diagnostics a finding adds at `row`:`col` of `file`: none or one.
pub open spec fn finding_diags(f: Finding, file: Seq<char>, row: usize, col: usize) -> Seq<DiagView> {
    match f {
        Some(m) => seq![diag(file, row, col, m.0, m.1)],
        None => Seq::empty(),
    }
}

/// What `free(var)` reports, given the state of `var`.
pub open spec fn free_finding(st: Option<OwnershipState>, var: Seq<char>) -> Finding {
    match st {
        Some(OwnershipState::Freed) => Some((quoted("double free of '"@, var, "'"@), Severity::Error)),
        Some(OwnershipState::Uninitialized) => Some(
            (quoted("free of uninitialized variable: '"@, var, "'"@), Severity::Error),
        ),
        Some(OwnershipState::Null) => Some(
            (quoted("free of 'NULL' pointer '"@, var, "'"@), Severity::Warning),
        ),
        Some(OwnershipState::MaybeFreed) => Some(
            (quoted("possible double free of '"@, var, "'"@), Severity::Warning),
        ),
        _ => None,
    }
}

/// What `*var` reports, given the state of `var`.
pub open spec fn deref_finding(st: Option<OwnershipState>, var: Seq<char>) -> Finding {
    match st {
        Some(OwnershipState::Freed) => Some((quoted("use after free of '"@, var, "'"@), Severity::Error)),
        Some(OwnershipState::Uninitialized) => Some(
            (quoted("use of uninitialized pointer '"@, var, "'"@), Severity::Error),
        ),
        Some(OwnershipState::Null) => Some(
            (quoted("null pointer dereference of '"@, var, "'"@), Severity::Error),
        ),
        Some(OwnershipState::MaybeFreed) => Some(
            (quoted("possible use after free of '"@, var, "'"@), Severity::Warning),
        ),
        None => Some((quoted("use of uninitialized pointer '"@, var, "'"@), Severity::Error)),
        _ => None,
    }
}

/// What `var->field` reports, given the state of `var`.
pub open spec fn field_finding(st: Option<OwnershipState>, var: Seq<char>) -> Finding {
    match st {
        Some(OwnershipState::Freed) => Some(
            (quoted("use of field of freed pointer '"@, var, "'"@), Severity::Error),
        ),
        Some(OwnershipState::Null) => Some(
            (quoted("null pointer dereference via field access '"@, var, "'"@), Severity::Error),
        ),
        Some(OwnershipState::Uninitialized) => Some(
            (quoted("field access on uninitialized pointer '"@, var, "'"@), Severity::Error),
        ),
        Some(OwnershipState::MaybeFreed) => Some(
            (quoted("possible field access of a free pointer '"@, var, "'"@), Severity::Warning),
        ),
        _ => None,
    }
}

/// What `func(var, ..)` reports, given the state of `var`.
pub open spec fn pass_finding(st: Option<OwnershipState>, var: Seq<char>, func: Seq<char>) -> Finding {
    match st {
        Some(OwnershipState::Freed) => Some(
            ("passing freed pointer '"@ + var + "' to function '"@ + func + "'"@, Severity::Error),
        ),
        Some(OwnershipState::Uninitialized) => Some(
            (
                "passing uninitialized pointer '"@ + var + "' to function '"@ + func + "'"@,
                Severity::Warning,
            ),
        ),
        Some(OwnershipState::Null) => Some(
            ("passing null pointer '"@ + var + "' to function '"@ + func + "'"@, Severity::Warning),
        ),
        Some(OwnershipState::MaybeFreed) => Some(
            (
                "potentially passing a freed pointer '"@ + var + "' to function '"@ + func + "'"@,
                Severity::Warning,
            ),
        ),
        _ => None,
    }
}

/// What `return &var;` reports, given what is known of `var`.
pub open spec fn return_addr_finding(i: Option<InfoView>, var: Seq<char>) -> Finding {
    match i {
        Some(info) => if info.alloc_kind == AllocKind::Stack {
            Some(
                (
                    quoted(
                        "returning address of stack variable '"@,
                        var,
                        "' which will be invalid after function returns"@,
                    ),
                    Severity::Error,
                ),
            )
        } else {
            None
        },
        None => None,
    }
}

/// What `return var;` reports, given the state of `var`.
pub open spec fn return_finding(st: Option<OwnershipState>, var: Seq<char>) -> Finding {
    match st {
        Some(OwnershipState::Freed) => Some(
            (quoted("returning freed pointer '"@, var, "' from function"@), Severity::Error),
        ),
        Some(OwnershipState::MaybeFreed) => Some(
            (quoted("possibly returning freed pointer '"@, var, "' from function"@), Severity::Warning),
        ),
        _ => None,
    }
}

/// Appends the diagnostic of a finding computed by the caller.
fn report(
    diagnostics: &mut Vec<Diagnostic>,
    file: &str,
    row: usize,
    col: usize,
    message: String,
    severity: Severity,
)
    ensures
        diags_view(final(diagnostics)@) == diags_view(old(diagnostics)@).push(
            diag(file@, row, col, message@, severity),
        ),
{
    let d = Diagnostic::new(file, row, col, message, severity);
    diagnostics.push(d);
    assert(diags_view(diagnostics@) =~= diags_view(old(diagnostics)@).push(d@));
}

/// `free(var)`: a freed, maybe freed, uninitialized or null pointer is reported; an
/// allocated one becomes freed.
pub fn handle_free(
    var: &str,
    row: usize,
    col: usize,
    file: &str,
    state: &mut BlockState,
    diagnostics: &mut Vec<Diagnostic>,
)
    requires
        well_formed(old(state)@),
    ensures
        well_formed(final(state)@),
        final(state)@ == (StateView {
            entries: if state_of(old(state)@.entries, var@) == Some(OwnershipState::Allocated) {
                set_state(old(state)@.entries, var@, OwnershipState::Freed)
            } else {
                old(state)@.entries
            },
            ..old(state)@
        }),
        diags_view(final(diagnostics)@) == diags_view(old(diagnostics)@) + finding_diags(
            free_finding(state_of(old(state)@.entries, var@), var@),
            file@,
            row,
            col,
        ),
{
    let ghost d0 = diags_view(diagnostics@);
    match state.state_of(var) {
        Some(OwnershipState::Freed) => {
            report(diagnostics, file, row, col, quote("double free of '", var, "'"), Severity::Error);
        },
        Some(OwnershipState::Allocated) => {
            state.set_state(var, OwnershipState::Freed);
        },
        Some(OwnershipState::Uninitialized) => {
            report(
                diagnostics,
                file,
                row,
                col,
                quote("free of uninitialized variable: '", var, "'"),
                Severity::Error,
            );
        },
        Some(OwnershipState::Null) => {
            report(
                diagnostics,
                file,
                row,
                col,
                quote("free of 'NULL' pointer '", var, "'"),
                Severity::Warning,
            );
        },
        Some(OwnershipState::MaybeFreed) => {
            report(
                diagnostics,
                file,
                row,
                col,
                quote("possible double free of '", var, "'"),
                Severity::Warning,
            );
        },
        _ => {},
    }
    assert(diags_view(diagnostics@) =~= d0 + finding_diags(
        free_finding(state_of(old(state)@.entries, var@), var@),
        file@,
        row,
        col,
    ));
}

/// `*var`: a freed, maybe freed, null, uninitialized or unknown pointer is reported.
pub fn handle_deref(
    var: &str,
    row: usize,
    col: usize,
    file: &str,
    state: &mut BlockState,
    diagnostics: &mut Vec<Diagnostic>,
)
    requires
        well_formed(old(state)@),
    ensures
        final(state)@ == old(state)@,
        diags_view(final(diagnostics)@) == diags_view(old(diagnostics)@) + finding_diags(
            deref_finding(state_of(old(state)@.entries, var@), var@),
            file@,
            row,
            col,
        ),
{
    let ghost d0 = diags_view(diagnostics@);
    match state.state_of(var) {
        Some(OwnershipState::Freed) => {
            report(diagnostics, file, row, col, quote("use after free of '", var, "'"), Severity::Error);
        },
        Some(OwnershipState::Uninitialized) => {
            report(
                diagnostics,
                file,
                row,
                col,
                quote("use of uninitialized pointer '", var, "'"),
                Severity::Error,
            );
        },
        Some(OwnershipState::Null) => {
            report(
                diagnostics,
                file,
                row,
                col,
                quote("null pointer dereference of '", var, "'"),
                Severity::Error,
            );
        },
        Some(OwnershipState::MaybeFreed) => {
            report(
                diagnostics,
                file,
                row,
                col,
                quote("possible use after free of '", var, "'"),
                Severity::Warning,
            );
        },
        None => {
            report(
                diagnostics,
                file,
                row,
                col,
                quote("use of uninitialized pointer '", var, "'"),
                Severity::Error,
            );
        },
        _ => {},
    }
    assert(diags_view(diagnostics@) =~= d0 + finding_diags(
        deref_finding(state_of(old(state)@.entries, var@), var@),
        file@,
        row,
        col,
    ));
}

/// `var->field`: a freed, maybe freed, null or uninitialized pointer is reported.
pub fn handle_field_access(
    var: &str,
    row: usize,
    col: usize,
    file: &str,
    state: &mut BlockState,
    diagnostics: &mut Vec<Diagnostic>,
)
    requires
        well_formed(old(state)@),
    ensures
        final(state)@ == old(state)@,
        diags_view(final(diagnostics)@) == diags_view(old(diagnostics)@) + finding_diags(
            field_finding(state_of(old(state)@.entries, var@), var@),
            file@,
            row,
            col,
        ),
{
    let ghost d0 = diags_view(diagnostics@);
    match state.state_of(var) {
        Some(OwnershipState::Freed) => {
            report(
                diagnostics,
                file,
                row,
                col,
                quote("use of field of freed pointer '", var, "'"),
                Severity::Error,
            );
        },
        Some(OwnershipState::Null) => {
            report(
                diagnostics,
                file,
                row,
                col,
                quote("null pointer dereference via field access '", var, "'"),
                Severity::Error,
            );
        },
        Some(OwnershipState::Uninitialized) => {
            report(
                diagnostics,
                file,
                row,
                col,
                quote("field access on uninitialized pointer '", var, "'"),
                Severity::Error,
            );
        },
        Some(OwnershipState::MaybeFreed) => {
            report(
                diagnostics,
                file,
                row,
                col,
                quote("possible field access of a free pointer '", var, "'"),
                Severity::Warning,
            );
        },
        _ => {},
    }
    assert(diags_view(diagnostics@) =~= d0 + finding_diags(
        field_finding(state_of(old(state)@.entries, var@), var@),
        file@,
        row,
        col,
    ));
}

/// `func(var, ..)`: passing a freed, maybe freed, uninitialized or null pointer is reported.
pub fn handle_pass_freed_pointer(
    var: &str,
    func: &str,
    row: usize,
    col: usize,
    file: &str,
    state: &mut BlockState,
    diagnostics: &mut Vec<Diagnostic>,
)
    requires
        well_formed(old(state)@),
    ensures
        final(state)@ == old(state)@,
        diags_view(final(diagnostics)@) == diags_view(old(diagnostics)@) + finding_diags(
            pass_finding(state_of(old(state)@.entries, var@), var@, func@),
            file@,
            row,
            col,
        ),
{
    let ghost d0 = diags_view(diagnostics@);
    match state.state_of(var) {
        Some(OwnershipState::Freed) => {
            report(
                diagnostics,
                file,
                row,
                col,
                quote2("passing freed pointer '", var, "' to function '", func, "'"),
                Severity::Error,
            );
        },
        Some(OwnershipState::Uninitialized) => {
            report(
                diagnostics,
                file,
                row,
                col,
                quote2("passing uninitialized pointer '", var, "' to function '", func, "'"),
                Severity::Warning,
            );
        },
        Some(OwnershipState::Null) => {
            report(
                diagnostics,
                file,
                row,
                col,
                quote2("passing null pointer '", var, "' to function '", func, "'"),
                Severity::Warning,
            );
        },
        Some(OwnershipState::MaybeFreed) => {
            report(
                diagnostics,
                file,
                row,
                col,
                quote2("potentially passing a freed pointer '", var, "' to function '", func, "'"),
                Severity::Warning,
            );
        },
        _ => {},
    }
    assert(diags_view(diagnostics@) =~= d0 + finding_diags(
        pass_finding(state_of(old(state)@.entries, var@), var@, func@),
        file@,
        row,
        col,
    ));
}

/// `return var;` / `return &var;`: returning the address of a stack variable, or a freed or
/// maybe freed pointer, is reported; otherwise a returned variable's ownership passes to the
/// caller.
pub fn handle_return(
    var: &str,
    row: usize,
    col: usize,
    is_address_of: bool,
    file: &str,
    state: &mut BlockState,
    diagnostics: &mut Vec<Diagnostic>,
)
    requires
        well_formed(old(state)@),
    ensures
        well_formed(final(state)@),
        is_address_of ==> final(state)@ == old(state)@ && diags_view(final(diagnostics)@)
            == diags_view(old(diagnostics)@) + finding_diags(
            return_addr_finding(lookup(old(state)@.entries, var@), var@),
            file@,
            row,
            col,
        ),
        !is_address_of ==> final(state)@ == (StateView {
            entries: if return_finding(state_of(old(state)@.entries, var@), var@) is None {
                set_state(old(state)@.entries, var@, OwnershipState::Returned)
            } else {
                old(state)@.entries
            },
            ..old(state)@
        }) && diags_view(final(diagnostics)@) == diags_view(old(diagnostics)@) + finding_diags(
            return_finding(state_of(old(state)@.entries, var@), var@),
            file@,
            row,
            col,
        ),
{
    let ghost d0 = diags_view(diagnostics@);
    if is_address_of {
        match state.get(var) {
            Some(info) => {
                if info.alloc_kind == AllocKind::Stack {
                    report(
                        diagnostics,
                        file,
                        row,
                        col,
                        quote(
                            "returning address of stack variable '",
                            var,
                            "' which will be invalid after function returns",
                        ),
                        Severity::Error,
                    );
                }
            },
            None => {},
        }
        assert(diags_view(diagnostics@) =~= d0 + finding_diags(
            return_addr_finding(lookup(old(state)@.entries, var@), var@),
            file@,
            row,
            col,
        ));
    } else {
        match state.state_of(var) {
            Some(OwnershipState::Freed) => {
                report(
                    diagnostics,
                    file,
                    row,
                    col,
                    quote("returning freed pointer '", var, "' from function"),
                    Severity::Error,
                );
            },
            Some(OwnershipState::MaybeFreed) => {
                report(
                    diagnostics,
                    file,
                    row,
                    col,
                    quote("possibly returning freed pointer '", var, "' from function"),
                    Severity::Warning,
                );
            },
            _ => {
                state.set_state(var, OwnershipState::Returned);
            },
        }
        assert(diags_view(diagnostics@) =~= d0 + finding_diags(
            return_finding(state_of(old(state)@.entries, var@), var@),
            file@,
            row,
            col,
        ));
    }
}

} // verus!

verus! {

pub open spec fn heap_view(d: usize) -> InfoView {
    InfoView {
        state: OwnershipState::Allocated,
        scope_depth: d,
        alloc_kind: AllocKind::Heap,
        points_to: None,
    }
}

pub open spec fn stack_view(d: usize) -> InfoView {
    InfoView {
        state: OwnershipState::Uninitialized,
        scope_depth: d,
        alloc_kind: AllocKind::Stack,
        points_to: None,
    }
}

pub open spec fn null_view(d: usize) -> InfoView {
    InfoView { state: OwnershipState::Null, scope_depth: d, alloc_kind: AllocKind::Stack, points_to: None }
}

pub open spec fn known_stack_view(d: usize) -> InfoView {
    InfoView {
        state: OwnershipState::Allocated,
        scope_depth: d,
        alloc_kind: AllocKind::Stack,
        points_to: None,
    }
}

/// The binding `var = &target;` (or a plain declaration when `target` is empty) creates.
pub open spec fn addr_view(d: usize, target: Seq<char>) -> InfoView {
    if target.len() == 0 {
        stack_view(d)
    } else {
        InfoView {
            state: OwnershipState::Allocated,
            scope_depth: d,
            alloc_kind: AllocKind::Stack,
            points_to: Some(target),
        }
    }
}

/// `e` after `var = &target;` for a variable already bound.
pub open spec fn point_to(e: Entries, var: Seq<char>, target: Seq<char>) -> Entries {
    if has(e, var) {
        e.update(
            index_of(e, var),
            (
                var,
                InfoView {
                    state: OwnershipState::Allocated,
                    points_to: Some(target),
                    ..e[index_of(e, var)].1
                },
            ),
        )
    } else {
        e
    }
}

pub open spec fn with_entries(s: StateView, e: Entries) -> StateView {
    StateView { entries: e, ..s }
}

/// `e` after `dst = var;`: a live heap object `var` owns is now owned elsewhere.
pub open spec fn hand_over(e: Entries, var: Seq<char>) -> Entries {
    match lookup(e, var) {
        Some(i) => if i.state == OwnershipState::Allocated && i.alloc_kind == AllocKind::Heap {
            e.update(index_of(e, var), (var, InfoView { alloc_kind: AllocKind::HeapAlias, ..i }))
        } else {
            e
        },
        None => e,
    }
}

/// The effect of one statement on a block state, and what it reports.
pub open spec fn apply(stmt: StmtView, s: StateView, file: Seq<char>) -> (StateView, Seq<DiagView>) {
    let e = s.entries;
    let d = s.scope_depth;
    match stmt {
        StmtView::Malloc { var, .. } => (with_entries(s, bind(e, var, heap_view(d))), Seq::empty()),
        StmtView::Free { var, row, col } => (
            if state_of(e, var) == Some(OwnershipState::Allocated) {
                with_entries(s, set_state(e, var, OwnershipState::Freed))
            } else {
                s
            },
            finding_diags(free_finding(state_of(e, var), var), file, row, col),
        ),
        StmtView::Deref { var, row, col } => (
            s,
            finding_diags(deref_finding(state_of(e, var), var), file, row, col),
        ),
        StmtView::FieldAccess { var, row, col } => (
            s,
            finding_diags(field_finding(state_of(e, var), var), file, row, col),
        ),
        StmtView::PassToFunction { var, func, row, col } => (
            s,
            finding_diags(pass_finding(state_of(e, var), var, func), file, row, col),
        ),
        StmtView::Return { var, row, col, is_address_of } => if is_address_of {
            (s, finding_diags(return_addr_finding(lookup(e, var), var), file, row, col))
        } else {
            (
                if return_finding(state_of(e, var), var) is None {
                    with_entries(s, set_state(e, var, OwnershipState::Returned))
                } else {
                    s
                },
                finding_diags(return_finding(state_of(e, var), var), file, row, col),
            )
        },
        StmtView::NullAssign { var, .. } => (with_entries(s, bind(e, var, null_view(d))), Seq::empty()),
        StmtView::AddrAssign { var, points_to, .. } => (
            with_entries(s, bind(e, var, addr_view(d, points_to))),
            Seq::empty(),
        ),
        StmtView::PointerAssign { var, points_to, .. } => (
            with_entries(s, point_to(e, var, points_to)),
            Seq::empty(),
        ),
        StmtView::OpaqueInit { var, .. } => (
            with_entries(s, bind(e, var, known_stack_view(d))),
            Seq::empty(),
        ),
        StmtView::Param { var, .. } => (with_entries(s, bind(e, var, known_stack_view(0))), Seq::empty()),
        StmtView::Move { var, .. } => (with_entries(s, hand_over(e, var)), Seq::empty()),
        StmtView::EnterScope => (
            StateView { scope_depth: if d < usize::MAX { (d + 1) as usize } else { d }, ..s },
            Seq::empty(),
        ),
        StmtView::ExitScope { row, col } => if d == 0 {
            (s, Seq::empty())
        } else {
            (
                StateView {
                    entries: exit_entries(e, d, s.base_scope_depth),
                    scope_depth: (d - 1) as usize,
                    ..s
                },
                exit_diags(e, d, s.class_has_drop, file, row, col),
            )
        },
    }
}

/// The effect of a run of statements, and what they report, in order.
pub open spec fn run_stmts(stmts: Seq<StmtView>, s: StateView, file: Seq<char>) -> (
    StateView,
    Seq<DiagView>,
)
    decreases stmts.len(),
{
    if stmts.len() == 0 {
        (s, Seq::empty())
    } else {
        let r = run_stmts(stmts.drop_last(), s, file);
        let t = apply(stmts.last(), r.0, file);
        (t.0, r.1 + t.1)
    }
}

/// Executes one statement on `state`, appending what it reports.
pub fn apply_statement(
    stmt: &Statement,
    file: &str,
    state: &mut BlockState,
    diagnostics: &mut Vec<Diagnostic>,
)
    requires
        well_formed(old(state)@),
    ensures
        well_formed(final(state)@),
        final(state)@ == apply(stmt_view(*stmt), old(state)@, file@).0,
        diags_view(final(diagnostics)@) == diags_view(old(diagnostics)@) + apply(
            stmt_view(*stmt),
            old(state)@,
            file@,
        ).1,
{
    let ghost d0 = diags_view(diagnostics@);
    match stmt {
        Statement::Malloc { var, .. } => {
            let d = state.scope_depth;
            state.bind(var.as_str(), VariableInfo::heap(d));
        },
        Statement::Free { var, row, col } => {
            handle_free(var.as_str(), *row, *col, file, state, diagnostics);
        },
        Statement::Deref { var, row, col } => {
            handle_deref(var.as_str(), *row, *col, file, state, diagnostics);
        },
        Statement::FieldAccess { var, row, col } => {
            handle_field_access(var.as_str(), *row, *col, file, state, diagnostics);
        },
        Statement::PassToFunction { var, func, row, col } => {
            handle_pass_freed_pointer(
                var.as_str(),
                func.as_str(),
                *row,
                *col,
                file,
                state,
                diagnostics,
            );
        },
        Statement::Return { var, row, col, is_address_of } => {
            handle_return(var.as_str(), *row, *col, *is_address_of, file, state, diagnostics);
        },
        Statement::NullAssign { var, .. } => {
            let d = state.scope_depth;
            state.bind(var.as_str(), VariableInfo::null(d));
        },
        Statement::AddrAssign { var, points_to, .. } => {
            let d = state.scope_depth;
            let mut info = VariableInfo::stack(d);
            if !points_to.as_str().is_empty() {
                info.state = OwnershipState::Allocated;
                info.points_to = Some(String::from_str(points_to.as_str()));
            }
            state.bind(var.as_str(), info);
        },
        Statement::PointerAssign { var, points_to, .. } => {
            match find_binding(&state.ownership, var.as_str()) {
                Some(i) => {
                    let ghost e = state@.entries;
                    let mut b = copy_binding(&state.ownership[i]);
                    b.info.points_to = Some(String::from_str(points_to.as_str()));
                    b.info.state = OwnershipState::Allocated;
                    state.ownership.set(i, b);
                    proof {
                        assert(entries(state.ownership@) =~= point_to(e, var@, points_to@));
                    }
                },
                None => {},
            }
        },
        Statement::OpaqueInit { var, .. } => {
            let d = state.scope_depth;
            state.bind(var.as_str(), VariableInfo::opaque_init(d));
        },
        Statement::Param { var, .. } => {
            state.bind(var.as_str(), VariableInfo::param());
        },
        Statement::Move { var, .. } => {
            match find_binding(&state.ownership, var.as_str()) {
                Some(i) => {
                    if state.ownership[i].info.state == OwnershipState::Allocated
                        && state.ownership[i].info.alloc_kind == AllocKind::Heap {
                        let ghost e = state@.entries;
                        let mut b = copy_binding(&state.ownership[i]);
                        b.info.alloc_kind = AllocKind::HeapAlias;
                        state.ownership.set(i, b);
                        proof {
                            assert(entries(state.ownership@) =~= hand_over(e, var@));
                        }
                    }
                },
                None => {},
            }
        },
        Statement::EnterScope => {
            if state.scope_depth < usize::MAX {
                state.enter_scope();
            }
        },
        Statement::ExitScope { row, col } => {
            state.exit_scope(file, *row, *col, diagnostics);
        },
    }
    assert(diags_view(diagnostics@) =~= d0 + apply(stmt_view(*stmt), old(state)@, file@).1);
}

} // verus!

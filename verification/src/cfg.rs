use vstd::prelude::*;
use vstd::string::*;
use crate::analyzer_state::OwnershipState;
use crate::diagnostics::{Diagnostic, DiagView, Severity, diag, diags_view};
use crate::messages::{msg_leak, msg_outlive, quote, quote2};
use crate::text::copy_string;
use crate::variable_info::{AllocKind, InfoView, VariableInfo};

verus! {

/// A step of a basic block that matters for memory safety. Rows are 1-based lines,
/// columns 0-based.
#[derive(Debug)]
pub enum Statement {
    Malloc { var: String, row: usize, col: usize },
    Free { var: String, row: usize, col: usize },
    Deref { var: String, row: usize, col: usize },
    FieldAccess { var: String, row: usize, col: usize },
    Return { var: String, row: usize, col: usize, is_address_of: bool },
    PassToFunction { var: String, func: String, row: usize, col: usize },
    NullAssign { var: String, row: usize, col: usize },
    AddrAssign { var: String, points_to: String, row: usize, col: usize },
    PointerAssign { var: String, points_to: String, row: usize, col: usize },
    /// A pointer declared with an initializer that is not modelled (`T *p = (T *)raw;`).
    OpaqueInit { var: String, row: usize, col: usize },
    /// A parameter of the function being analysed.
    Param { var: String, row: usize, col: usize },
    /// `dst = var;` hands the heap object `var` owns to another place.
    Move { var: String, row: usize, col: usize },
    EnterScope,
    ExitScope { row: usize, col: usize },
}

/// A statement with its strings taken as character sequences.
pub enum StmtView {
    Malloc { var: Seq<char>, row: usize, col: usize },
    Free { var: Seq<char>, row: usize, col: usize },
    Deref { var: Seq<char>, row: usize, col: usize },
    FieldAccess { var: Seq<char>, row: usize, col: usize },
    Return { var: Seq<char>, row: usize, col: usize, is_address_of: bool },
    PassToFunction { var: Seq<char>, func: Seq<char>, row: usize, col: usize },
    NullAssign { var: Seq<char>, row: usize, col: usize },
    AddrAssign { var: Seq<char>, points_to: Seq<char>, row: usize, col: usize },
    PointerAssign { var: Seq<char>, points_to: Seq<char>, row: usize, col: usize },
    OpaqueInit { var: Seq<char>, row: usize, col: usize },
    Param { var: Seq<char>, row: usize, col: usize },
    Move { var: Seq<char>, row: usize, col: usize },
    EnterScope,
    ExitScope { row: usize, col: usize },
}

pub open spec fn stmt_view(s: Statement) -> StmtView {
    match s {
        Statement::Malloc { var, row, col } => StmtView::Malloc { var: var@, row, col },
        Statement::Free { var, row, col } => StmtView::Free { var: var@, row, col },
        Statement::Deref { var, row, col } => StmtView::Deref { var: var@, row, col },
        Statement::FieldAccess { var, row, col } => StmtView::FieldAccess { var: var@, row, col },
        Statement::Return { var, row, col, is_address_of } => StmtView::Return {
            var: var@,
            row,
            col,
            is_address_of,
        },
        Statement::PassToFunction { var, func, row, col } => StmtView::PassToFunction {
            var: var@,
            func: func@,
            row,
            col,
        },
        Statement::NullAssign { var, row, col } => StmtView::NullAssign { var: var@, row, col },
        Statement::AddrAssign { var, points_to, row, col } => StmtView::AddrAssign {
            var: var@,
            points_to: points_to@,
            row,
            col,
        },
        Statement::PointerAssign { var, points_to, row, col } => StmtView::PointerAssign {
            var: var@,
            points_to: points_to@,
            row,
            col,
        },
        Statement::OpaqueInit { var, row, col } => StmtView::OpaqueInit { var: var@, row, col },
        Statement::Param { var, row, col } => StmtView::Param { var: var@, row, col },
        Statement::Move { var, row, col } => StmtView::Move { var: var@, row, col },
        Statement::EnterScope => StmtView::EnterScope,
        Statement::ExitScope { row, col } => StmtView::ExitScope { row, col },
    }
}

/// The views of a list of statements.
pub open spec fn stmts_view(v: Seq<Statement>) -> Seq<StmtView> {
    v.map_values(|s: Statement| stmt_view(s))
}

pub open spec fn opt_stmt_view(o: Option<Statement>) -> Option<StmtView> {
    match o {
        Some(s) => Some(stmt_view(s)),
        None => None,
    }
}

/// A straight-line run of statements.
#[derive(Debug)]
pub struct BasicBlock {
    pub statements: Vec<Statement>,
}

/// One tracked variable of a block state.
#[derive(Debug)]
pub struct Binding {
    pub name: String,
    pub info: VariableInfo,
}

/// The facts known on entry to, or exit from, a basic block.
pub struct BlockState {
    /// The tracked variables, each name at most once.
    pub ownership: Vec<Binding>,
    pub scope_depth: usize,
    pub base_scope_depth: usize,
    /// Set when the analysed code is a method of a class that has `drop()`, which owns
    /// what the method allocates.
    pub class_has_drop: bool,
}

/// The bindings of a state as (name, info) pairs, in their order.
pub type Entries = Seq<(Seq<char>, InfoView)>;

pub open spec fn entries(v: Seq<Binding>) -> Entries {
    v.map_values(|b: Binding| (b.name@, b.info@))
}

pub open spec fn keys_unique(e: Entries) -> bool {
    forall|i: int, j: int| 0 <= i < e.len() && 0 <= j < e.len() && i != j ==> e[i].0 != e[j].0
}

pub open spec fn has(e: Entries, k: Seq<char>) -> bool {
    exists|i: int| 0 <= i < e.len() && e[i].0 == k
}

pub open spec fn index_of(e: Entries, k: Seq<char>) -> int {
    choose|i: int| 0 <= i < e.len() && e[i].0 == k
}

/// What a state records for `k`.
pub open spec fn lookup(e: Entries, k: Seq<char>) -> Option<InfoView> {
    if has(e, k) {
        Some(e[index_of(e, k)].1)
    } else {
        None
    }
}

/// `e` with `k` bound to `v`: the binding replaced in place, or added at the end.
pub open spec fn bind(e: Entries, k: Seq<char>, v: InfoView) -> Entries {
    if has(e, k) {
        e.update(index_of(e, k), (k, v))
    } else {
        e.push((k, v))
    }
}

/// Two states record the same facts, whatever the order of their bindings.
pub open spec fn same_bindings(a: Entries, b: Entries) -> bool {
    forall|k: Seq<char>| #[trigger] lookup(a, k) == lookup(b, k)
}

/// The mathematical value of a block state.
pub struct StateView {
    pub entries: Entries,
    pub scope_depth: usize,
    pub base_scope_depth: usize,
    pub class_has_drop: bool,
}

impl View for BlockState {
    type V = StateView;

    open spec fn view(&self) -> StateView {
        StateView {
            entries: entries(self.ownership@),
            scope_depth: self.scope_depth,
            base_scope_depth: self.base_scope_depth,
            class_has_drop: self.class_has_drop,
        }
    }
}

pub open spec fn with_state(i: InfoView, s: OwnershipState) -> InfoView {
    InfoView { state: s, ..i }
}

/// The join of what two paths know of one variable: a free on one path only gives
/// `MaybeFreed`; otherwise the left path wins.
pub open spec fn merge_info(a: InfoView, b: InfoView) -> InfoView {
    if a.state != b.state && (a.state == OwnershipState::Freed || b.state == OwnershipState::Freed
        || a.state == OwnershipState::MaybeFreed || b.state == OwnershipState::MaybeFreed) {
        with_state(a, OwnershipState::MaybeFreed)
    } else {
        a
    }
}

pub open spec fn merge_entry(b: Entries, p: (Seq<char>, InfoView)) -> (Seq<char>, InfoView) {
    match lookup(b, p.0) {
        Some(bi) => (p.0, merge_info(p.1, bi)),
        None => p,
    }
}

pub open spec fn only_right(a: Entries, p: (Seq<char>, InfoView)) -> Option<(Seq<char>, InfoView)> {
    if has(a, p.0) {
        None
    } else {
        Some(p)
    }
}

/// The bindings of the join of two states: those of the left state, joined with the right
/// where both know the variable, then those only the right state knows.
pub open spec fn merge_entries(a: Entries, b: Entries) -> Entries {
    a.map_values(merge_with(b)) + b.filter_map(only_right_of(a))
}

pub open spec fn merge_with(b: Entries) -> spec_fn((Seq<char>, InfoView)) -> (Seq<char>, InfoView) {
    |p: (Seq<char>, InfoView)| merge_entry(b, p)
}

pub open spec fn only_right_of(a: Entries) -> spec_fn((Seq<char>, InfoView)) -> Option<
    (Seq<char>, InfoView),
> {
    |p: (Seq<char>, InfoView)| only_right(a, p)
}

/// Whether `k` is bound at depth `d`, so that it dies when the scope of depth `d` ends.
pub open spec fn dying(e: Entries, d: usize, k: Seq<char>) -> bool {
    exists|i: int| 0 <= i < e.len() && e[i].0 == k && e[i].1.scope_depth == d
}

/// A pointer from an outer scope to a variable that dies at the end of scope `d`.
pub open spec fn is_dangling(e: Entries, d: usize, p: (Seq<char>, InfoView)) -> bool {
    match p.1.points_to {
        Some(t) => p.1.scope_depth < d && dying(e, d, t),
        None => false,
    }
}

/// A heap object still owned by a variable that dies at the end of scope `d`.
pub open spec fn is_leak(e: Entries, d: usize, drop: bool, p: (Seq<char>, InfoView)) -> bool {
    !drop && p.1.scope_depth == d && p.1.alloc_kind == AllocKind::Heap && p.1.state
        == OwnershipState::Allocated
}

pub open spec fn exit_diag(
    e: Entries,
    d: usize,
    drop: bool,
    file: Seq<char>,
    line: usize,
    col: usize,
    p: (Seq<char>, InfoView),
) -> Option<DiagView> {
    if is_dangling(e, d, p) {
        Some(diag(file, line, col, msg_outlive(p.0, p.1.points_to.unwrap()), Severity::Error))
    } else if is_leak(e, d, drop, p) {
        Some(diag(file, line, col, msg_leak(p.0), Severity::Error))
    } else {
        None
    }
}

/// The findings of leaving scope `d`, one per dangling pointer or leaked object, in binding order.
pub open spec fn exit_diags(
    e: Entries,
    d: usize,
    drop: bool,
    file: Seq<char>,
    line: usize,
    col: usize,
) -> Seq<DiagView> {
    e.filter_map(exit_diag_of(e, d, drop, file, line, col))
}

pub open spec fn exit_diag_of(
    e: Entries,
    d: usize,
    drop: bool,
    file: Seq<char>,
    line: usize,
    col: usize,
) -> spec_fn((Seq<char>, InfoView)) -> Option<DiagView> {
    |p: (Seq<char>, InfoView)| exit_diag(e, d, drop, file, line, col, p)
}

pub open spec fn exit_keep(e: Entries, d: usize, base: usize, p: (Seq<char>, InfoView)) -> Option<
    (Seq<char>, InfoView),
> {
    if p.1.scope_depth <= base || p.1.scope_depth < d {
        if is_dangling(e, d, p) {
            Some((p.0, with_state(p.1, OwnershipState::OutOfScope)))
        } else {
            Some(p)
        }
    } else {
        None
    }
}

/// The bindings that survive leaving scope `d`, dangling pointers marked `OutOfScope`.
pub open spec fn exit_entries(e: Entries, d: usize, base: usize) -> Entries {
    e.filter_map(exit_keep_of(e, d, base))
}

pub open spec fn exit_keep_of(e: Entries, d: usize, base: usize) -> spec_fn(
    (Seq<char>, InfoView),
) -> Option<(Seq<char>, InfoView)> {
    |p: (Seq<char>, InfoView)| exit_keep(e, d, base, p)
}

/// The position of `name` among the bindings, if it is bound.
pub fn find_binding(v: &Vec<Binding>, name: &str) -> (r: Option<usize>)
    requires
        keys_unique(entries(v@)),
    ensures
        match r {
            Some(i) => i < v.len() && v@[i as int].name@ == name@ && index_of(entries(v@), name@)
                == i && has(entries(v@), name@),
            None => !(has(entries(v@), name@)),
        },
        r is Some <==> has(entries(v@), name@),
{
    let n = v.len();
    let ghost e = entries(v@);
    for i in 0..n
        invariant
            n == v.len(),
            e == entries(v@),
            keys_unique(e),
            forall|j: int| 0 <= j < i ==> e[j].0 != name@,
    {
        if v[i].name.as_str().eq(name) {
            proof {
                assert(e[i as int].0 == name@);
                let k = index_of(e, name@);
                assert(0 <= k < e.len() && e[k].0 == name@);
            }
            return Some(i);
        }
    }
    None
}

/// A copy of a binding.
pub fn copy_binding(b: &Binding) -> (r: Binding)
    ensures
        r.name@ == b.name@,
        r.info@ == b.info@,
{
    Binding { name: copy_string(&b.name), info: b.info.duplicate() }
}

pub open spec fn well_formed(s: StateView) -> bool {
    keys_unique(s.entries)
}

impl BlockState {
    /// The state before any statement: nothing tracked, at depth 0.
    pub fn new(class_has_drop: bool) -> (r: Self)
        ensures
            r@.entries == Seq::<(Seq<char>, InfoView)>::empty(),
            r@.scope_depth == 0,
            r@.base_scope_depth == 0,
            r@.class_has_drop == class_has_drop,
            well_formed(r@),
    {
        BlockState { ownership: Vec::new(), scope_depth: 0, base_scope_depth: 0, class_has_drop }
    }

    /// A copy of this state.
    pub fn duplicate(&self) -> (r: Self)
        ensures
            r@ == self@,
    {
        let mut v: Vec<Binding> = Vec::new();
        let n = self.ownership.len();
        for i in 0..n
            invariant
                n == self.ownership.len(),
                entries(v@) == entries(self.ownership@).take(i as int),
        {
            let ghost before = v@;
            let c = copy_binding(&self.ownership[i]);
            v.push(c);
            proof {
                let e = entries(self.ownership@);
                assert(v@ == before.push(c));
                assert(entries(before).len() == before.len());
                assert(before.len() == i);
                assert(v@.len() == i + 1);
                assert(entries(v@).len() == i + 1);
                assert(entries(v@)[i as int] == (c.name@, c.info@));
                assert(e[i as int] == (self.ownership@[i as int].name@, self.ownership@[i as int].info@));
                assert(entries(v@)[i as int] == e[i as int]);
                assert forall|k: int| 0 <= k < i implies entries(v@)[k] == entries(before)[k] by {
                    assert(v@[k] == before[k]);
                }
                assert(entries(v@) =~= e.take(i + 1));
            }
        }
        assert(entries(self.ownership@).take(n as int) =~= entries(self.ownership@));
        BlockState {
            ownership: v,
            scope_depth: self.scope_depth,
            base_scope_depth: self.base_scope_depth,
            class_has_drop: self.class_has_drop,
        }
    }

    /// The state where the paths of `self` and `other` meet.
    pub fn merge(&self, other: &BlockState) -> (r: BlockState)
        requires
            well_formed(self@),
            well_formed(other@),
        ensures
            r@.entries == merge_entries(self@.entries, other@.entries),
            r@.scope_depth == self@.scope_depth,
            r@.base_scope_depth == self@.base_scope_depth,
            r@.class_has_drop == self@.class_has_drop,
            well_formed(r@),
    {
        let ghost a = self@.entries;
        let ghost b = other@.entries;
        let mut merged: Vec<Binding> = Vec::new();
        let n = self.ownership.len();
        for i in 0..n
            invariant
                n == self.ownership.len(),
                a == entries(self.ownership@),
                b == entries(other.ownership@),
                keys_unique(a),
                keys_unique(b),
                entries(merged@) == a.take(i as int).map_values(merge_with(b)),
        {
            let x = &self.ownership[i];
            let info = match find_binding(&other.ownership, x.name.as_str()) {
                Some(j) => {
                    let y = &other.ownership[j];
                    let mut info = x.info.duplicate();
                    if x.info.state != y.info.state && (x.info.state == OwnershipState::Freed
                        || y.info.state == OwnershipState::Freed || x.info.state
                        == OwnershipState::MaybeFreed || y.info.state
                        == OwnershipState::MaybeFreed) {
                        info.state = OwnershipState::MaybeFreed;
                    }
                    proof {
                        assert(b[j as int] == (y.name@, y.info@));
                        assert(lookup(b, x.name@) == Some(y.info@));
                        assert(info@ == merge_info(x.info@, y.info@));
                    }
                    info
                },
                None => x.info.duplicate(),
            };
            proof {
                assert(a[i as int] == (x.name@, x.info@));
                assert(merge_with(b)(a[i as int]) == merge_entry(b, a[i as int]));
                assert((x.name@, info@) == merge_entry(b, a[i as int]));
            }
            let ghost before = entries(merged@);
            merged.push(Binding { name: copy_string(&x.name), info });
            proof {
                assert(entries(merged@) =~= before.push(merge_with(b)(a[i as int])));
                assert(a.take(i + 1).map_values(merge_with(b)) =~= a.take(i as int).map_values(merge_with(b)).push(
                    merge_with(b)(a[i as int]),
                ));
            }
        }
        assert(a.take(n as int) =~= a);
        let m = other.ownership.len();
        for j in 0..m
            invariant
                n == self.ownership.len(),
                m == other.ownership.len(),
                a == entries(self.ownership@),
                b == entries(other.ownership@),
                keys_unique(a),
                keys_unique(b),
                entries(merged@) == a.map_values(merge_with(b)) + b.take(j as int).filter_map(only_right_of(a)),
                keys_unique(entries(merged@)),
                forall|k: int|
                    0 <= k < merged@.len() ==> has(a, #[trigger] entries(merged@)[k].0) || exists|
                        l: int,
                    |
                        0 <= l < j && b[l].0 == entries(merged@)[k].0,
        {
            let y = &other.ownership[j];
            proof {
                b.lemma_filter_map_take_succ(only_right_of(a), j as int);
                assert(b[j as int] == (y.name@, y.info@));
            }
            if find_binding(&self.ownership, y.name.as_str()).is_none() {
                let ghost before = entries(merged@);
                merged.push(copy_binding(y));
                proof {
                    assert(entries(merged@) =~= before.push(b[j as int]));
                    assert forall|p: int, q: int|
                        0 <= p < entries(merged@).len() && 0 <= q < entries(merged@).len() && p
                            != q implies entries(merged@)[p].0 != entries(merged@)[q].0 by {
                        if p == before.len() || q == before.len() {
                            let o = if p == before.len() { q } else { p };
                            if has(a, before[o].0) {
                            } else {
                                let l = choose|l: int| 0 <= l < j && b[l].0 == before[o].0;
                                assert(b[l].0 != b[j as int].0);
                            }
                        }
                    }
                    assert(only_right_of(a)(b[j as int]) == Some(b[j as int]));
                    assert(entries(merged@) =~= a.map_values(merge_with(b)) + b.take(j + 1).filter_map(only_right_of(a)));
                }
            } else {
                proof {
                    assert(has(a, b[j as int].0));
                    assert(only_right_of(a)(b[j as int]) is None);
                    assert(b.take(j + 1).filter_map(only_right_of(a)) =~= b.take(j as int).filter_map(only_right_of(a)));
                }
            }
        }
        proof {
            assert(b.take(m as int) =~= b);
        }
        BlockState {
            ownership: merged,
            scope_depth: self.scope_depth,
            base_scope_depth: self.base_scope_depth,
            class_has_drop: self.class_has_drop,
        }
    }

    /// Opens a nested scope.
    pub fn enter_scope(&mut self)
        requires
            old(self).scope_depth < usize::MAX,
        ensures
            final(self)@ == (StateView { scope_depth: (old(self).scope_depth + 1) as usize, ..old(self)@ }),
    {
        self.scope_depth += 1;
    }

    /// Closes the innermost scope at `line`:`col` of `file`: reports the pointers that would
    /// outlive what they point to and the heap objects nobody frees, then drops the bindings
    /// of the scope. At depth 0 nothing happens.
    pub fn exit_scope(
        &mut self,
        file: &str,
        line: usize,
        col: usize,
        diagnostics: &mut Vec<Diagnostic>,
    )
        requires
            well_formed(old(self)@),
        ensures
            old(self).scope_depth == 0 ==> final(self)@ == old(self)@ && final(diagnostics)@
                == old(diagnostics)@,
            old(self).scope_depth > 0 ==> {
                let e = old(self)@.entries;
                let d = old(self).scope_depth;
                &&& final(self)@ == (StateView {
                    entries: exit_entries(e, d, old(self).base_scope_depth),
                    scope_depth: (d - 1) as usize,
                    ..old(self)@
                })
                &&& diags_view(final(diagnostics)@) == diags_view(old(diagnostics)@) + exit_diags(
                    e,
                    d,
                    old(self).class_has_drop,
                    file@,
                    line,
                    col,
                )
            },
            well_formed(final(self)@),
    {
        if self.scope_depth == 0 {
            return ;
        }
        let d = self.scope_depth;
        let base = self.base_scope_depth;
        let drop = self.class_has_drop;
        let ghost e = self@.entries;
        let ghost d0 = diags_view(diagnostics@);
        let mut kept: Vec<Binding> = Vec::new();
        let n = self.ownership.len();
        for i in 0..n
            invariant
                n == self.ownership.len(),
                e == entries(self.ownership@),
                keys_unique(e),
                d == self.scope_depth,
                d > 0,
                diags_view(diagnostics@) == d0 + e.take(i as int).filter_map(exit_diag_of(e, d, drop, file@, line, col)),
                entries(kept@) == e.take(i as int).filter_map(exit_keep_of(e, d, base)),
                keys_unique(entries(kept@)),
                forall|k: int|
                    0 <= k < kept@.len() ==> exists|l: int|
                        0 <= l < i && e[l].0 == #[trigger] entries(kept@)[k].0,
        {
            proof {
                e.lemma_filter_map_take_succ(exit_diag_of(e, d, drop, file@, line, col), i as int);
                e.lemma_filter_map_take_succ(exit_keep_of(e, d, base), i as int);
            }
            let x = &self.ownership[i];
            let ghost before = diagnostics@;
            let ghost fd = exit_diag_of(e, d, drop, file@, line, col);
            proof {
                assert(e[i as int] == (x.name@, x.info@));
            }
            let mut info = x.info.duplicate();
            let mut dangling = false;
            match &x.info.points_to {
                Some(t) => {
                    if x.info.scope_depth < d && dies_here(&self.ownership, t.as_str(), d) {
                        dangling = true;
                        let msg = quote2(
                            "pointer '",
                            x.name.as_str(),
                            "' will outlive '",
                            t.as_str(),
                            "' which it points to",
                        );
                        let dg = Diagnostic::new(file, line, col, msg, Severity::Error);
                        proof {
                            assert(is_dangling(e, d, e[i as int]));
                            assert(fd(e[i as int]) == Some(dg@));
                        }
                        diagnostics.push(dg);
                        proof {
                            assert(diags_view(diagnostics@) =~= diags_view(before).push(dg@));
                        }
                        info.state = OwnershipState::OutOfScope;
                    }
                },
                None => {},
            }
            if !dangling && !drop && x.info.scope_depth == d && x.info.alloc_kind
                == AllocKind::Heap && x.info.state == OwnershipState::Allocated {
                let msg = quote("memory leak of pointer '", x.name.as_str(), "'");
                let dg = Diagnostic::new(file, line, col, msg, Severity::Error);
                proof {
                    assert(!is_dangling(e, d, e[i as int]));
                    assert(fd(e[i as int]) == Some(dg@));
                }
                diagnostics.push(dg);
                proof {
                    assert(diags_view(diagnostics@) =~= diags_view(before).push(dg@));
                }
            } else {
                proof {
                    if !dangling {
                        assert(!is_dangling(e, d, e[i as int]));
                        assert(fd(e[i as int]) is None);
                    }
                }
            }
            proof {
                assert(diags_view(diagnostics@) =~= d0 + e.take(i + 1).filter_map(exit_diag_of(e, d, drop, file@, line, col)));
            }
            if x.info.scope_depth <= base || x.info.scope_depth < d {
                let ghost before = entries(kept@);
                kept.push(Binding { name: copy_string(&x.name), info });
                proof {
                    assert(entries(kept@) =~= before.push(exit_keep_of(e, d, base)(e[i as int]).unwrap()));
                    assert(entries(kept@) =~= e.take(i + 1).filter_map(exit_keep_of(e, d, base)));
                    assert forall|p: int, q: int|
                        0 <= p < entries(kept@).len() && 0 <= q < entries(kept@).len() && p != q
                            implies entries(kept@)[p].0 != entries(kept@)[q].0 by {
                        if p == before.len() || q == before.len() {
                            let o = if p == before.len() { q } else { p };
                            let l = choose|l: int| 0 <= l < i && e[l].0 == before[o].0;
                            assert(e[l].0 != e[i as int].0);
                        }
                    }
                }
            } else {
                proof {
                    assert(e.take(i + 1).filter_map(exit_keep_of(e, d, base)) =~= e.take(i as int).filter_map(exit_keep_of(e, d, base)));
                }
            }
        }
        proof {
            assert(e.take(n as int) =~= e);
        }
        self.ownership = kept;
        self.scope_depth = d - 1;
    }
}


/// The state recorded for `k`, if it is bound.
pub open spec fn state_of(e: Entries, k: Seq<char>) -> Option<OwnershipState> {
    match lookup(e, k) {
        Some(i) => Some(i.state),
        None => None,
    }
}

/// `e` with the state of `k` changed to `s`, if `k` is bound.
pub open spec fn set_state(e: Entries, k: Seq<char>, s: OwnershipState) -> Entries {
    if has(e, k) {
        e.update(index_of(e, k), (k, with_state(e[index_of(e, k)].1, s)))
    } else {
        e
    }
}

impl BlockState {
    /// What the state records for `name`.
    pub fn get(&self, name: &str) -> (r: Option<&VariableInfo>)
        requires
            well_formed(self@),
        ensures
            match r {
                Some(i) => lookup(self@.entries, name@) == Some(i@),
                None => lookup(self@.entries, name@) is None,
            },
    {
        match find_binding(&self.ownership, name) {
            Some(i) => Some(&self.ownership[i].info),
            None => None,
        }
    }

    /// The ownership state recorded for `name`.
    pub fn state_of(&self, name: &str) -> (r: Option<OwnershipState>)
        requires
            well_formed(self@),
        ensures
            r == state_of(self@.entries, name@),
    {
        match self.get(name) {
            Some(i) => Some(i.state),
            None => None,
        }
    }

    /// Changes the recorded state of `name`, if it is bound.
    pub fn set_state(&mut self, name: &str, s: OwnershipState)
        requires
            well_formed(old(self)@),
        ensures
            final(self)@ == (StateView { entries: set_state(old(self)@.entries, name@, s), ..old(self)@ }),
            well_formed(final(self)@),
    {
        match find_binding(&self.ownership, name) {
            Some(i) => {
                let ghost e = self@.entries;
                let mut b = copy_binding(&self.ownership[i]);
                b.info.state = s;
                self.ownership.set(i, b);
                proof {
                    assert(entries(self.ownership@) =~= e.update(i as int, (name@, with_state(e[i as int].1, s))));
                }
            },
            None => {},
        }
    }

    /// Binds `name` to `info`, replacing an earlier binding in place.
    pub fn bind(&mut self, name: &str, info: VariableInfo)
        requires
            well_formed(old(self)@),
        ensures
            final(self)@ == (StateView { entries: bind(old(self)@.entries, name@, info@), ..old(self)@ }),
            well_formed(final(self)@),
    {
        let ghost e = self@.entries;
        let ghost iv = info@;
        match find_binding(&self.ownership, name) {
            Some(i) => {
                self.ownership.set(i, Binding { name: String::from_str(name), info });
                proof {
                    assert(entries(self.ownership@) =~= e.update(i as int, (name@, iv)));
                }
            },
            None => {
                self.ownership.push(Binding { name: String::from_str(name), info });
                proof {
                    assert(entries(self.ownership@) =~= e.push((name@, iv)));
                    assert forall|p: int, q: int|
                        0 <= p < e.len() + 1 && 0 <= q < e.len() + 1 && p != q implies
                            entries(self.ownership@)[p].0 != entries(self.ownership@)[q].0 by {
                        if p == e.len() {
                            assert(e[q].0 != name@);
                        } else if q == e.len() {
                            assert(e[p].0 != name@);
                        }
                    }
                }
            },
        }
    }
}

/// Whether `name` is bound at depth `d`.
fn dies_here(v: &Vec<Binding>, name: &str, d: usize) -> (r: bool)
    ensures
        r == dying(entries(v@), d, name@),
{
    let n = v.len();
    let ghost e = entries(v@);
    for i in 0..n
        invariant
            n == v.len(),
            e == entries(v@),
            forall|j: int| 0 <= j < i ==> !(e[j].0 == name@ && e[j].1.scope_depth == d),
    {
        if v[i].name.as_str().eq(name) && v[i].info.scope_depth == d {
            assert(e[i as int].0 == name@);
            return true;
        }
    }
    false
}

} // verus!

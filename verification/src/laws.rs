use vstd::prelude::*;
use crate::analyzer_state::OwnershipState;
use vstd::string::*;
use crate::analysis::{apply, hand_over, heap_view, known_stack_view, run_stmts};
use crate::variable_info::AllocKind;
use crate::cfg::{
    Entries, StateView, StmtView, bind, dying, exit_diag_of, exit_diags, exit_keep_of, has, index_of, is_dangling,
    is_leak, keys_unique, lookup, merge_entries, merge_entry, merge_info, merge_with, only_right, only_right_of,
    set_state, state_of, with_state,
};
use crate::diagnostics::{DiagView, Severity, diag};
use crate::sea_checks::{ScopeView, declare, type_of};
use crate::lowering::{kind_is, lower, malloc_target, named_or_self, push_stmt};
use crate::syntax::{SyntaxNode, field_child, first_child, first_named};
use crate::sea_info::{is_last, view_keys};
use crate::cfg::same_bindings;
use crate::graph::{GraphView, edges_in_range, predecessors, source_if_into, successors, target_if_from};
use crate::messages::{msg_leak, msg_outlive, quoted};
use crate::worklist::{
    RunView, analysis_of, block_report, empty_state, report, settled_ins, enqueue, incoming_state, initial_run, join_preds, leading_enters,
    lemma_enqueue_bounded, lemma_neighbors_bounded, lemma_settles_unique, merge_state, round_limit, run, settles_at, step,
    with_base,
};
use crate::variable_info::InfoView;

verus! {

/// An element `f` maps to something shows up in `s.filter_map(f)`.
proof fn lemma_filter_map_keeps<A, B>(s: Seq<A>, f: spec_fn(A) -> Option<B>, j: int)
    requires
        0 <= j < s.len(),
        f(s[j]) is Some,
    ensures
        s.filter_map(f).contains(f(s[j]).unwrap()),
    decreases s.len(),
{
    let rest = s.drop_last();
    if j == s.len() - 1 {
        let out = s.filter_map(f);
        assert(out == rest.filter_map(f) + seq![f(s.last()).unwrap()]);
        assert(out[out.len() - 1] == f(s[j]).unwrap());
    } else {
        assert(rest[j] == s[j]);
        lemma_filter_map_keeps(rest, f, j);
        let k = choose|k: int| 0 <= k < rest.filter_map(f).len() && rest.filter_map(f)[k] == f(s[j]).unwrap();
        let out = s.filter_map(f);
        match f(s.last()) {
            Some(x) => {
                assert(out == rest.filter_map(f) + seq![x]);
                assert(out[k] == rest.filter_map(f)[k]);
            },
            None => {
                assert(out == rest.filter_map(f));
            },
        }
    }
}

/// What the join of two paths knows of one variable, given what each path knows.
pub open spec fn merged_lookup(a: Option<InfoView>, b: Option<InfoView>) -> Option<InfoView> {
    match (a, b) {
        (Some(x), Some(y)) => Some(merge_info(x, y)),
        (Some(x), None) => Some(x),
        (None, Some(y)) => Some(y),
        (None, None) => None,
    }
}

/// Where two paths meet, each variable is known as the paths know it: joined where both know
/// it, as the one path knows it otherwise, and not at all where neither does.
pub proof fn law_merge_lookup(a: Entries, b: Entries, k: Seq<char>)
    requires
        keys_unique(a),
        keys_unique(b),
    ensures
        lookup(merge_entries(a, b), k) == merged_lookup(lookup(a, k), lookup(b, k)),
{
    let m = merge_entries(a, b);
    let left = a.map_values(merge_with(b));
    let right = b.filter_map(only_right_of(a));
    assert(m == left + right);
    assert forall|i: int| 0 <= i < m.len() && #[trigger] m[i].0 == k implies (if has(a, k) {
        m[i] == merge_entry(b, a[index_of(a, k)])
    } else {
        has(b, k) && m[i] == b[index_of(b, k)]
    }) by {
        if i < a.len() {
            assert(m[i] == left[i]);
            assert(left[i] == merge_entry(b, a[i]));
            assert(a[i].0 == k);
            assert(has(a, k));
            let j = index_of(a, k);
            assert(a[j].0 == k);
            assert(i == j);
        } else {
            assert(m[i] == right[i - a.len()]);
            assert(right.contains(m[i]));
            b.lemma_filter_map_contains(only_right_of(a), m[i]);
            let t = choose|t: (Seq<char>, InfoView)| #[trigger] b.contains(t) && only_right_of(a)(t) == Some(m[i]);
            assert(only_right(a, t) == Some(m[i]));
            assert(t == m[i]);
            assert(!(has(a, t.0)));
            let jb = choose|jb: int| 0 <= jb < b.len() && b[jb] == t;
            assert(has(b, k));
            let ib = index_of(b, k);
            assert(b[ib].0 == k);
            assert(jb == ib);
        }
    }
    if has(a, k) {
        let j = index_of(a, k);
        assert(left[j] == merge_entry(b, a[j]));
        assert(m[j] == left[j]);
        assert(m[j].0 == k);
        assert(has(m, k));
        assert(m[index_of(m, k)] == merge_entry(b, a[j]));
    } else if has(b, k) {
        let jb = index_of(b, k);
        assert(only_right_of(a)(b[jb]) == Some(b[jb]));
        lemma_filter_map_keeps(b, only_right_of(a), jb);
        let r = choose|r: int| 0 <= r < right.len() && right[r] == b[jb];
        assert(m[a.len() + r] == right[r]);
        assert(has(m, k));
    } else {
        if has(m, k) {
            let i = index_of(m, k);
            assert(m[i].0 == k);
        }
    }
}


/// A path joined with itself gives the same bindings.
pub proof fn law_merge_same(a: Entries)
    requires
        keys_unique(a),
    ensures
        merge_entries(a, a) == a,
{
    let left = a.map_values(merge_with(a));
    assert forall|i: int| 0 <= i < a.len() implies left[i] == a[i] by {
        let j = index_of(a, a[i].0);
        assert(has(a, a[i].0));
        assert(a[j].0 == a[i].0);
        assert(i == j);
        assert(lookup(a, a[i].0) == Some(a[i].1));
    }
    assert(left =~= a);
    let right = a.filter_map(only_right_of(a));
    if right.len() > 0 {
        assert(right.contains(right[0]));
        a.lemma_filter_map_contains(only_right_of(a), right[0]);
        let t = choose|t: (Seq<char>, InfoView)| #[trigger] a.contains(t) && only_right_of(a)(t) == Some(right[0]);
        let i = choose|i: int| 0 <= i < a.len() && a[i] == t;
        assert(has(a, t.0));
    }
    assert(right =~= Seq::<(Seq<char>, InfoView)>::empty());
    assert(merge_entries(a, a) =~= a);
}

/// A variable freed on one path and in another state on the other is `MaybeFreed` where the
/// paths meet.
pub proof fn law_merge_maybe_freed(a: Entries, b: Entries, k: Seq<char>, sa: OwnershipState, sb: OwnershipState)
    requires
        keys_unique(a),
        keys_unique(b),
        state_of(a, k) == Some(sa),
        state_of(b, k) == Some(sb),
        sa != sb,
        sa == OwnershipState::Freed || sb == OwnershipState::Freed,
    ensures
        state_of(merge_entries(a, b), k) == Some(OwnershipState::MaybeFreed),
{
    law_merge_lookup(a, b, k);
}

/// Changing the state of a bound variable changes only that state.
pub proof fn lemma_set_state(e: Entries, k: Seq<char>, s: OwnershipState)
    requires
        keys_unique(e),
        has(e, k),
    ensures
        keys_unique(set_state(e, k, s)),
        lookup(set_state(e, k, s), k) == Some(with_state(lookup(e, k).unwrap(), s)),
        forall|x: Seq<char>| x != k ==> #[trigger] lookup(set_state(e, k, s), x) == lookup(e, x),
{
    let i = index_of(e, k);
    let e2 = set_state(e, k, s);
    assert(e2 == e.update(i, (k, with_state(e[i].1, s))));
    assert forall|p: int, q: int| 0 <= p < e2.len() && 0 <= q < e2.len() && p != q implies e2[p].0 != e2[q].0 by {
        assert(e2[p].0 == e[p].0);
        assert(e2[q].0 == e[q].0);
    }
    assert(e2[i].0 == k);
    assert(has(e2, k));
    assert forall|x: Seq<char>| x != k implies #[trigger] lookup(e2, x) == lookup(e, x) by {
        if has(e, x) {
            let j = index_of(e, x);
            assert(e2[j] == e[j]);
            assert(has(e2, x));
            let j2 = index_of(e2, x);
            assert(e2[j2].0 == x);
            assert(j2 == j);
        } else {
            if has(e2, x) {
                let j2 = index_of(e2, x);
                assert(e2[j2] == e[j2]);
            }
        }
    }
}

/// Freeing a pointer twice: the first free reports nothing, the second a double free.
pub proof fn law_double_free(s: StateView, var: Seq<char>, file: Seq<char>, r1: usize, c1: usize, r2: usize, c2: usize)
    requires
        keys_unique(s.entries),
        state_of(s.entries, var) == Some(OwnershipState::Allocated),
    ensures
        apply(StmtView::Free { var, row: r1, col: c1 }, s, file).1 == Seq::<DiagView>::empty(),
        apply(StmtView::Free { var, row: r2, col: c2 }, apply(StmtView::Free { var, row: r1, col: c1 }, s, file).0, file).1
            == seq![diag(file, r2, c2, quoted("double free of '"@, var, "'"@), Severity::Error)],
{
    lemma_set_state(s.entries, var, OwnershipState::Freed);
}

/// Using a pointer after freeing it reports a use after free.
pub proof fn law_use_after_free(s: StateView, var: Seq<char>, file: Seq<char>, r1: usize, c1: usize, r2: usize, c2: usize)
    requires
        keys_unique(s.entries),
        state_of(s.entries, var) == Some(OwnershipState::Allocated),
    ensures
        apply(StmtView::Deref { var, row: r2, col: c2 }, apply(StmtView::Free { var, row: r1, col: c1 }, s, file).0, file).1
            == seq![diag(file, r2, c2, quoted("use after free of '"@, var, "'"@), Severity::Error)],
{
    lemma_set_state(s.entries, var, OwnershipState::Freed);
}

/// A pointer freed on only one of two paths gives a warning, not an error, when it is used or
/// freed after the paths meet.
pub proof fn law_conditional_free_warns(
    freed: StateView,
    kept: StateView,
    var: Seq<char>,
    file: Seq<char>,
    row: usize,
    col: usize,
)
    requires
        keys_unique(freed.entries),
        keys_unique(kept.entries),
        state_of(freed.entries, var) == Some(OwnershipState::Freed),
        state_of(kept.entries, var) == Some(OwnershipState::Allocated),
    ensures
        apply(StmtView::Deref { var, row, col }, merge_state(freed, kept), file).1 == seq![
            diag(file, row, col, quoted("possible use after free of '"@, var, "'"@), Severity::Warning),
        ],
        apply(StmtView::Deref { var, row, col }, merge_state(kept, freed), file).1 == seq![
            diag(file, row, col, quoted("possible use after free of '"@, var, "'"@), Severity::Warning),
        ],
        apply(StmtView::Free { var, row, col }, merge_state(freed, kept), file).1 == seq![
            diag(file, row, col, quoted("possible double free of '"@, var, "'"@), Severity::Warning),
        ],
        apply(StmtView::Free { var, row, col }, merge_state(kept, freed), file).1 == seq![
            diag(file, row, col, quoted("possible double free of '"@, var, "'"@), Severity::Warning),
        ],
{
    law_merge_maybe_freed(freed.entries, kept.entries, var, OwnershipState::Freed, OwnershipState::Allocated);
    law_merge_maybe_freed(kept.entries, freed.entries, var, OwnershipState::Allocated, OwnershipState::Freed);
}

/// Function parameters are initialised by the caller: using one reports nothing.
pub proof fn law_param_initialized(s: StateView, var: Seq<char>, file: Seq<char>, r1: usize, c1: usize, r2: usize, c2: usize)
    requires
        keys_unique(s.entries),
    ensures
        apply(StmtView::Deref { var, row: r2, col: c2 }, apply(StmtView::Param { var, row: r1, col: c1 }, s, file).0, file).1
            == Seq::<DiagView>::empty(),
{
    lemma_bind(s.entries, var, known_stack_view(0));
}

/// A pointer declared with an initializer the analysis does not model (a cast, say) is
/// initialised: using it reports nothing.
pub proof fn law_opaque_init_initialized(
    s: StateView,
    var: Seq<char>,
    file: Seq<char>,
    r1: usize,
    c1: usize,
    r2: usize,
    c2: usize,
)
    requires
        keys_unique(s.entries),
    ensures
        apply(StmtView::Deref { var, row: r2, col: c2 }, apply(StmtView::OpaqueInit { var, row: r1, col: c1 }, s, file).0, file).1
            == Seq::<DiagView>::empty(),
{
    lemma_bind(s.entries, var, known_stack_view(s.scope_depth));
}

/// Binding a variable records exactly that for it and leaves the others alone.
pub proof fn lemma_bind(e: Entries, k: Seq<char>, v: InfoView)
    requires
        keys_unique(e),
    ensures
        keys_unique(bind(e, k, v)),
        lookup(bind(e, k, v), k) == Some(v),
        forall|x: Seq<char>| x != k ==> #[trigger] lookup(bind(e, k, v), x) == lookup(e, x),
{
    let e2 = bind(e, k, v);
    if has(e, k) {
        let i = index_of(e, k);
        assert(e2 == e.update(i, (k, v)));
        assert forall|p: int, q: int| 0 <= p < e2.len() && 0 <= q < e2.len() && p != q implies e2[p].0 != e2[q].0 by {
            assert(e2[p].0 == e[p].0);
            assert(e2[q].0 == e[q].0);
        }
        assert(e2[i].0 == k);
        assert(has(e2, k));
        assert forall|x: Seq<char>| x != k implies #[trigger] lookup(e2, x) == lookup(e, x) by {
            if has(e, x) {
                let j = index_of(e, x);
                assert(e2[j] == e[j]);
                assert(has(e2, x));
                let j2 = index_of(e2, x);
                assert(e2[j2].0 == x);
                assert(j2 == j);
            } else {
                if has(e2, x) {
                    let j2 = index_of(e2, x);
                    assert(e2[j2] == e[j2]);
                }
            }
        }
    } else {
        assert(e2 == e.push((k, v)));
        assert forall|p: int, q: int| 0 <= p < e2.len() && 0 <= q < e2.len() && p != q implies e2[p].0 != e2[q].0 by {
            if p == e.len() {
                assert(e[q].0 != k);
            } else if q == e.len() {
                assert(e[p].0 != k);
            }
        }
        assert(e2[e.len() as int].0 == k);
        assert(has(e2, k));
        assert forall|x: Seq<char>| x != k implies #[trigger] lookup(e2, x) == lookup(e, x) by {
            if has(e, x) {
                let j = index_of(e, x);
                assert(e2[j] == e[j]);
                assert(has(e2, x));
                let j2 = index_of(e2, x);
                assert(e2[j2].0 == x);
                assert(j2 == j);
            } else {
                if has(e2, x) {
                    let j2 = index_of(e2, x);
                    assert(e2[j2] == e[j2]);
                }
            }
        }
    }
}

/// A binding records what it bound: what the state records for a variable just bound.
pub proof fn law_bind_lookup(e: Entries, k: Seq<char>, v: InfoView, x: Seq<char>)
    requires
        keys_unique(e),
    ensures
        lookup(bind(e, k, v), x) == if x == k {
            Some(v)
        } else {
            lookup(e, x)
        },
{
    lemma_bind(e, k, v);
}


proof fn lemma_filter_map_all_some<A>(s: Seq<A>, f: spec_fn(A) -> Option<A>)
    requires
        forall|i: int| 0 <= i < s.len() ==> f(#[trigger] s[i]) == Some(s[i]),
    ensures
        s.filter_map(f) == s,
    decreases s.len(),
{
    if s.len() > 0 {
        let rest = s.drop_last();
        assert forall|i: int| 0 <= i < rest.len() implies f(#[trigger] rest[i]) == Some(rest[i]) by {
            assert(rest[i] == s[i]);
        }
        lemma_filter_map_all_some(rest, f);
        assert(f(s.last()) == Some(s[s.len() - 1]));
        assert(s.filter_map(f) =~= s);
    }
}

proof fn lemma_filter_map_all_none<A, B>(s: Seq<A>, f: spec_fn(A) -> Option<B>)
    requires
        forall|i: int| 0 <= i < s.len() ==> f(#[trigger] s[i]) is None,
    ensures
        s.filter_map(f) == Seq::<B>::empty(),
{
    let out = s.filter_map(f);
    if out.len() > 0 {
        assert(out.contains(out[0]));
        s.lemma_filter_map_contains(f, out[0]);
        let t = choose|t: A| #[trigger] s.contains(t) && f(t) == Some(out[0]);
        let i = choose|i: int| 0 <= i < s.len() && s[i] == t;
    }
    assert(out =~= Seq::<B>::empty());
}

/// Opening a scope and closing it again at once changes nothing and reports nothing, when
/// nothing was bound deeper than the current scope.
pub proof fn law_enter_exit_scope(s: StateView, file: Seq<char>, row: usize, col: usize)
    requires
        s.scope_depth < usize::MAX,
        forall|i: int| 0 <= i < s.entries.len() ==> (#[trigger] s.entries[i]).1.scope_depth <= s.scope_depth,
    ensures
        apply(StmtView::ExitScope { row, col }, apply(StmtView::EnterScope, s, file).0, file) == (s, Seq::<DiagView>::empty()),
{
    let e = s.entries;
    let d = (s.scope_depth + 1) as usize;
    assert forall|t: Seq<char>| !dying(e, d, t) by {
        if dying(e, d, t) {
            let i = choose|i: int| 0 <= i < e.len() && e[i].0 == t && e[i].1.scope_depth == d;
            assert(e[i].1.scope_depth <= s.scope_depth);
        }
    }
    assert forall|i: int| 0 <= i < e.len() implies exit_keep_of(e, d, s.base_scope_depth)(#[trigger] e[i]) == Some(e[i]) by {
        assert(!is_dangling(e, d, e[i]));
    }
    lemma_filter_map_all_some(e, exit_keep_of(e, d, s.base_scope_depth));
    assert forall|i: int| 0 <= i < e.len() implies exit_diag_of(e, d, s.class_has_drop, file, row, col)(#[trigger] e[i]) is None by {
        assert(!is_dangling(e, d, e[i]));
        assert(e[i].1.scope_depth <= s.scope_depth);
    }
    lemma_filter_map_all_none(e, exit_diag_of(e, d, s.class_has_drop, file, row, col));
}

proof fn lemma_leak_msg_injective(x: Seq<char>, y: Seq<char>)
    requires
        msg_leak(x) == msg_leak(y),
    ensures
        x == y,
{
    let p = "memory leak of pointer '"@;
    let q = "'"@;
    assert(msg_leak(x) == p + x + q);
    assert(msg_leak(y) == p + y + q);
    assert(x.len() == y.len());
    assert forall|i: int| 0 <= i < x.len() implies x[i] == y[i] by {
        assert(msg_leak(x)[p.len() + i] == x[i]);
        assert(msg_leak(y)[p.len() + i] == y[i]);
    }
    assert(x =~= y);
}

proof fn lemma_outlive_not_leak(p: Seq<char>, t: Seq<char>, x: Seq<char>)
    ensures
        msg_outlive(p, t) != msg_leak(x),
{
    reveal_strlit("pointer '");
    reveal_strlit("memory leak of pointer '");
    assert(msg_outlive(p, t)[0] == 'p');
    assert(msg_leak(x)[0] == 'm');
}

/// Leaving a scope reports no leak of `var` when the class owns what its methods allocate,
/// or when `var` owns no live heap object.
proof fn lemma_no_leak(e: Entries, d: usize, drop: bool, file: Seq<char>, row: usize, col: usize, var: Seq<char>)
    requires
        keys_unique(e),
        drop || !(lookup(e, var) matches Some(i) && i.state == OwnershipState::Allocated && i.alloc_kind
            == AllocKind::Heap),
    ensures
        !exit_diags(e, d, drop, file, row, col).contains(diag(file, row, col, msg_leak(var), Severity::Error)),
{
    let x = diag(file, row, col, msg_leak(var), Severity::Error);
    let f = exit_diag_of(e, d, drop, file, row, col);
    if e.filter_map(f).contains(x) {
        e.lemma_filter_map_contains(f, x);
        let t = choose|t: (Seq<char>, InfoView)| #[trigger] e.contains(t) && f(t) == Some(x);
        if is_dangling(e, d, t) {
            lemma_outlive_not_leak(t.0, t.1.points_to.unwrap(), var);
        } else {
            assert(is_leak(e, d, drop, t));
            lemma_leak_msg_injective(t.0, var);
            let i = choose|i: int| 0 <= i < e.len() && e[i] == t;
            assert(has(e, var));
            let j = index_of(e, var);
            assert(e[j].0 == var);
            assert(i == j);
            assert(lookup(e, var) == Some(t.1));
        }
    }
}

/// Memory allocated in a scope and never freed is reported as leaked when the scope ends
/// (unless the class owns it through its `drop()`).
pub proof fn law_leak_reported(s: StateView, var: Seq<char>, file: Seq<char>, r1: usize, c1: usize, row: usize, col: usize)
    requires
        keys_unique(s.entries),
        s.scope_depth >= 1,
    ensures
        apply(StmtView::ExitScope { row, col }, apply(StmtView::Malloc { var, row: r1, col: c1 }, s, file).0, file).1.contains(
            diag(file, row, col, msg_leak(var), Severity::Error),
        ) == !s.class_has_drop,
{
    let e = bind(s.entries, var, heap_view(s.scope_depth));
    lemma_bind(s.entries, var, heap_view(s.scope_depth));
    let d = s.scope_depth;
    if s.class_has_drop {
        lemma_no_leak(e, d, true, file, row, col, var);
    } else {
        let i = index_of(e, var);
        assert(has(e, var));
        assert(e[i].0 == var);
        assert(lookup(e, var) == Some(e[i].1));
        assert(!is_dangling(e, d, e[i]));
        assert(is_leak(e, d, false, e[i]));
        assert(exit_diag_of(e, d, false, file, row, col)(e[i]) == Some(diag(file, row, col, msg_leak(var), Severity::Error)));
        lemma_filter_map_keeps(e, exit_diag_of(e, d, false, file, row, col), i);
    }
}

/// A pointer freed before its scope ends is not reported as leaked.
pub proof fn law_freed_not_leaked(s: StateView, var: Seq<char>, file: Seq<char>, r1: usize, c1: usize, row: usize, col: usize)
    requires
        keys_unique(s.entries),
        state_of(s.entries, var) == Some(OwnershipState::Allocated),
    ensures
        !apply(StmtView::ExitScope { row, col }, apply(StmtView::Free { var, row: r1, col: c1 }, s, file).0, file).1.contains(
            diag(file, row, col, msg_leak(var), Severity::Error),
        ),
{
    lemma_set_state(s.entries, var, OwnershipState::Freed);
    lemma_no_leak(set_state(s.entries, var, OwnershipState::Freed), s.scope_depth, s.class_has_drop, file, row, col, var);
}

/// Handing a heap object over changes only how `var` is known, and only its kind.
proof fn lemma_hand_over(e: Entries, var: Seq<char>)
    requires
        keys_unique(e),
        has(e, var),
    ensures
        keys_unique(hand_over(e, var)),
        lookup(hand_over(e, var), var) matches Some(i) && i.state == lookup(e, var).unwrap().state
            && !(i.state == OwnershipState::Allocated && i.alloc_kind == AllocKind::Heap),
        forall|x: Seq<char>| x != var ==> #[trigger] lookup(hand_over(e, var), x) == lookup(e, x),
{
    let i = index_of(e, var);
    assert(e[i].0 == var);
    assert(lookup(e, var) == Some(e[i].1));
    let info = e[i].1;
    if info.state == OwnershipState::Allocated && info.alloc_kind == AllocKind::Heap {
        lemma_bind(e, var, InfoView { alloc_kind: AllocKind::HeapAlias, ..info });
        assert(hand_over(e, var) == bind(e, var, InfoView { alloc_kind: AllocKind::HeapAlias, ..info }));
    }
}

/// A pointer whose heap object was handed to another place (`dst = var;`) is not reported as
/// leaked when its scope ends.
pub proof fn law_moved_not_leaked(s: StateView, var: Seq<char>, file: Seq<char>, r1: usize, c1: usize, row: usize, col: usize)
    requires
        keys_unique(s.entries),
        state_of(s.entries, var) == Some(OwnershipState::Allocated),
    ensures
        !apply(StmtView::ExitScope { row, col }, apply(StmtView::Move { var, row: r1, col: c1 }, s, file).0, file).1.contains(
            diag(file, row, col, msg_leak(var), Severity::Error),
        ),
{
    lemma_hand_over(s.entries, var);
    lemma_no_leak(hand_over(s.entries, var), s.scope_depth, s.class_has_drop, file, row, col, var);
}

/// Handing a pointer's object over does not end the checks on the pointer: freeing it twice
/// afterwards is still a double free.
pub proof fn law_moved_still_checked(
    s: StateView,
    var: Seq<char>,
    file: Seq<char>,
    r0: usize,
    c0: usize,
    r1: usize,
    c1: usize,
    r2: usize,
    c2: usize,
)
    requires
        keys_unique(s.entries),
        state_of(s.entries, var) == Some(OwnershipState::Allocated),
    ensures
        apply(
            StmtView::Free { var, row: r2, col: c2 },
            apply(StmtView::Free { var, row: r1, col: c1 }, apply(StmtView::Move { var, row: r0, col: c0 }, s, file).0, file).0,
            file,
        ).1 == seq![diag(file, r2, c2, quoted("double free of '"@, var, "'"@), Severity::Error)],
{
    lemma_hand_over(s.entries, var);
    let e = hand_over(s.entries, var);
    assert(state_of(e, var) == Some(OwnershipState::Allocated));
    lemma_set_state(e, var, OwnershipState::Freed);
}

/// The analysis of a graph of one block reports what running its statements once, from the
/// empty state, reports.
pub proof fn law_single_block(stmts: Seq<StmtView>, file: Seq<char>, drop: bool)
    ensures
        analysis_of(GraphView { blocks: seq![stmts], edges: Seq::empty() }, file, drop) == run_stmts(
            stmts,
            with_base(empty_state(drop), leading_enters(stmts)),
            file,
        ).1,
{
    let g = GraphView { blocks: seq![stmts], edges: Seq::empty() };
    let init = initial_run(1);
    let edges = Seq::<(usize, usize)>::empty();
    assert(init.work.len() == 1);
    assert(init.work.last() == 0);
    lemma_filter_map_all_none(edges, source_if_into(0));
    lemma_filter_map_all_none(edges, target_if_from(0));
    assert(predecessors(edges, 0) =~= Seq::<usize>::empty());
    assert(successors(edges, 0) =~= Seq::<usize>::empty());
    assert(init.work.drop_last() =~= Seq::<usize>::empty());
    let r1 = run(g.blocks, g.edges, init, file, drop, 1);
    assert(run(g.blocks, g.edges, init, file, drop, 0) == init);
    assert(init.ins[0] is None);
    assert(r1 == step(g.blocks, g.edges, init, file, drop));
    assert(r1.work.len() == 0);
    assert(r1.ins[0] == Some(incoming_state(init.outs, predecessors(edges, 0), drop)));
    assert(incoming_state(init.outs, predecessors(edges, 0), drop) == empty_state(drop));
    assert(settles_at(g, file, drop, 1)) by {
        assert forall|j: nat| j < 1 implies #[trigger] run(g.blocks, g.edges, initial_run(g.blocks.len()), file, drop, j).work.len() > 0 by {
            assert(j == 0);
        }
    }
    let k = choose|k: nat| settles_at(g, file, drop, k);
    lemma_settles_unique(g, file, drop, k, 1);
    assert(settled_ins(g, file, drop) == r1.ins);
    assert(report(g.blocks, r1.ins, file, 0) == Seq::<DiagView>::empty());
    assert(report(g.blocks, r1.ins, file, 1) == report(g.blocks, r1.ins, file, 0) + block_report(g.blocks, r1.ins, file, 0));
    assert(report(g.blocks, r1.ins, file, 1) =~= block_report(g.blocks, r1.ins, file, 0));
}


/// A name declared in a method body has the type it was last declared with.
pub proof fn law_declare_type_of(s: ScopeView, v: Seq<char>, t: Seq<char>)
    ensures
        type_of(declare(s, v, t), v) == Some(t),
{
    let s2 = declare(s, v, t);
    let keys = view_keys(s2.locals);
    let n = s.locals.len() as int;
    assert(keys[n] == v);
    assert(is_last(keys, v, n));
    let c = choose|c: int| is_last(keys, v, c);
    if c < n {
        assert(keys[n] != v);
    }
    assert(c == n);
}


// ─── The fixed point ─────────────────────────────────────────────────────

/// The entry state recorded for block `b` (if any) has the same bindings as the join of the
/// exit states its predecessors have.
pub open spec fn settled_block(r: RunView, edges: Seq<(usize, usize)>, drop: bool, b: usize) -> bool {
    r.ins[b as int] matches Some(i) ==> same_bindings(
        i.entries,
        incoming_state(r.outs, predecessors(edges, b), drop).entries,
    )
}

/// What holds of the iteration after every round: every block that is not waiting to be
/// visited again is settled.
pub open spec fn run_inv(r: RunView, n: nat, edges: Seq<(usize, usize)>, drop: bool) -> bool {
    &&& r.ins.len() == n
    &&& r.outs.len() == n
    &&& forall|j: int| 0 <= j < r.work.len() ==> #[trigger] r.work[j] < n
    &&& forall|b: usize| b < n && !r.work.contains(b) ==> settled_block(r, edges, drop, b)
}

proof fn lemma_enqueue_contains(w: Seq<usize>, succ: Seq<usize>, x: usize)
    ensures
        enqueue(w, succ).contains(x) <==> (w.contains(x) || succ.contains(x)),
    decreases succ.len(),
{
    if succ.len() > 0 {
        let d = succ.drop_last();
        lemma_enqueue_contains(w, d, x);
        let e = enqueue(w, d);
        let y = succ.last();
        if e.contains(y) {
            assert(enqueue(w, succ) == e);
        } else {
            assert(enqueue(w, succ) == e.push(y));
            if e.push(y).contains(x) && x != y {
                let j = choose|j: int| 0 <= j < e.push(y).len() && e.push(y)[j] == x;
                assert(j < e.len());
                assert(e[j] == x);
            }
            if e.contains(x) {
                let j = choose|j: int| 0 <= j < e.len() && e[j] == x;
                assert(e.push(y)[j] == x);
            }
            assert(e.push(y)[e.len() as int] == y);
        }
        if succ.contains(x) && x != y {
            let j = choose|j: int| 0 <= j < succ.len() && succ[j] == x;
            assert(j < d.len());
            assert(d[j] == x);
        }
        if d.contains(x) {
            let j = choose|j: int| 0 <= j < d.len() && d[j] == x;
            assert(succ[j] == x);
        }
        assert(succ[succ.len() - 1] == y);
    }
}

proof fn lemma_reverse_contains(s: Seq<usize>, x: usize)
    ensures
        s.reverse().contains(x) <==> s.contains(x),
{
    if s.contains(x) {
        let j = choose|j: int| 0 <= j < s.len() && s[j] == x;
        assert(s.reverse()[s.len() - 1 - j] == x);
    }
    if s.reverse().contains(x) {
        let j = choose|j: int| 0 <= j < s.reverse().len() && s.reverse()[j] == x;
        assert(s[s.len() - 1 - j] == x);
    }
}

/// An edge into `b` from `a` is an edge out of `a` into `b`.
proof fn lemma_pred_succ(edges: Seq<(usize, usize)>, a: usize, b: usize)
    requires
        predecessors(edges, b).contains(a),
    ensures
        successors(edges, a).contains(b),
{
    let fp = source_if_into(b);
    let fs = target_if_from(a);
    lemma_reverse_contains(edges.filter_map(fp), a);
    edges.lemma_filter_map_contains(fp, a);
    let e = choose|e: (usize, usize)| #[trigger] edges.contains(e) && fp(e) == Some(a);
    let j = choose|j: int| 0 <= j < edges.len() && edges[j] == e;
    assert(e.1 == b && e.0 == a);
    assert(fs(edges[j]) == Some(b));
    lemma_filter_map_keeps(edges, fs, j);
    lemma_reverse_contains(edges.filter_map(fs), b);
}

/// The join of predecessors reads only their exit states.
proof fn lemma_join_same(outs: Seq<Option<StateView>>, outs2: Seq<Option<StateView>>, ps: Seq<usize>)
    requires
        forall|j: int| 0 <= j < ps.len() ==> outs2[#[trigger] ps[j] as int] == outs[ps[j] as int],
    ensures
        join_preds(outs2, ps) == join_preds(outs, ps),
    decreases ps.len(),
{
    if ps.len() > 0 {
        let d = ps.drop_last();
        assert forall|j: int| 0 <= j < d.len() implies outs2[#[trigger] d[j] as int] == outs[d[j] as int] by {
            assert(d[j] == ps[j]);
        }
        lemma_join_same(outs, outs2, d);
        assert(outs2[ps[ps.len() - 1] as int] == outs[ps[ps.len() - 1] as int]);
    }
}

proof fn lemma_step_inv(
    blocks: Seq<Seq<StmtView>>,
    edges: Seq<(usize, usize)>,
    r: RunView,
    file: Seq<char>,
    drop: bool,
)
    requires
        run_inv(r, blocks.len(), edges, drop),
        r.work.len() > 0,
        edges_in_range(edges, blocks.len()),
    ensures
        run_inv(step(blocks, edges, r, file, drop), blocks.len(), edges, drop),
{
    let n = blocks.len();
    let idx = r.work.last();
    let work = r.work.drop_last();
    let inc = incoming_state(r.outs, predecessors(edges, idx), drop);
    let r2 = step(blocks, edges, r, file, drop);
    assert(idx == r.work[r.work.len() - 1]);
    assert(idx < n);
    lemma_neighbors_bounded(edges, idx, n);
    assert forall|b: usize| #[trigger] r.work.contains(b) && b != idx implies work.contains(b) by {
        let j = choose|j: int| 0 <= j < r.work.len() && r.work[j] == b;
        assert(j < work.len());
        assert(work[j] == b);
    }
    let unchanged = match r.ins[idx as int] {
        Some(old) => same_bindings(old.entries, inc.entries),
        None => false,
    };
    if unchanged {
        assert(r2.work == work);
        assert forall|j: int| 0 <= j < r2.work.len() implies #[trigger] r2.work[j] < n by {
            assert(r2.work[j] == r.work[j]);
        }
        assert forall|b: usize| b < n && !r2.work.contains(b) implies settled_block(r2, edges, drop, b) by {
            if b != idx {
                assert(!r.work.contains(b));
            }
        }
    } else {
        let stmts = blocks[idx as int];
        let res = run_stmts(stmts, with_base(inc, leading_enters(stmts)), file);
        let succ = successors(edges, idx);
        assert(r2.outs == r.outs.update(idx as int, Some(res.0)));
        assert(r2.ins == r.ins.update(idx as int, Some(inc)));
        assert(r2.work == enqueue(work, succ));
        assert forall|j: int| 0 <= j < work.len() implies #[trigger] work[j] < n by {
            assert(work[j] == r.work[j]);
        }
        lemma_enqueue_bounded(work, succ, n);
        assert forall|b: usize| b < n && !r2.work.contains(b) implies settled_block(r2, edges, drop, b) by {
            lemma_enqueue_contains(work, succ, b);
            lemma_neighbors_bounded(edges, b, n);
            let ps = predecessors(edges, b);
            if ps.contains(idx) {
                lemma_pred_succ(edges, idx, b);
            }
            assert forall|j: int| 0 <= j < ps.len() implies r2.outs[#[trigger] ps[j] as int] == r.outs[ps[j] as int] by {
                if ps[j] == idx {
                    assert(ps.contains(idx));
                }
            }
            lemma_join_same(r.outs, r2.outs, ps);
            if b == idx {
                assert(r2.ins[b as int] == Some(inc));
            } else {
                assert(!r.work.contains(b));
                assert(r2.ins[b as int] == r.ins[b as int]);
            }
        }
    }
}

proof fn lemma_run_inv(
    blocks: Seq<Seq<StmtView>>,
    edges: Seq<(usize, usize)>,
    file: Seq<char>,
    drop: bool,
    k: nat,
)
    requires
        blocks.len() > 0,
        edges_in_range(edges, blocks.len()),
    ensures
        run_inv(run(blocks, edges, initial_run(blocks.len()), file, drop, k), blocks.len(), edges, drop),
    decreases k,
{
    let init = initial_run(blocks.len());
    if k == 0 {
        assert forall|b: usize| b < blocks.len() && !init.work.contains(b) implies settled_block(init, edges, drop, b) by {
            assert(init.ins[b as int] is None);
        }
    } else {
        lemma_run_inv(blocks, edges, file, drop, (k - 1) as nat);
        let p = run(blocks, edges, init, file, drop, (k - 1) as nat);
        if p.work.len() > 0 {
            lemma_step_inv(blocks, edges, p, file, drop);
        }
    }
}

/// When the iteration stops with no block left to visit, the entry state recorded for every
/// visited block has the same bindings as the join of its predecessors' exit states: the
/// analysis has reached a fixed point.
pub proof fn law_fixed_point(g: GraphView, file: Seq<char>, drop: bool, k: nat, b: usize)
    requires
        g.blocks.len() > 0,
        edges_in_range(g.edges, g.blocks.len()),
        settles_at(g, file, drop, k),
        run(g.blocks, g.edges, initial_run(g.blocks.len()), file, drop, k).work.len() == 0,
        b < g.blocks.len(),
    ensures
        settled_block(run(g.blocks, g.edges, initial_run(g.blocks.len()), file, drop, k), g.edges, drop, b),
{
    lemma_run_inv(g.blocks, g.edges, file, drop, k);
    let r = run(g.blocks, g.edges, initial_run(g.blocks.len()), file, drop, k);
    assert(!r.work.contains(b));
    assert(run_inv(r, g.blocks.len(), g.edges, drop));
}


/// Within the first `m` rounds the work list either empties for a first time, or never.
proof fn lemma_first_empty(g: GraphView, file: Seq<char>, drop: bool, m: nat)
    ensures
        (exists|j: nat|
            j <= m && #[trigger] run(g.blocks, g.edges, initial_run(g.blocks.len()), file, drop, j).work.len() == 0
                && forall|i: nat| i < j ==> #[trigger] run(g.blocks, g.edges, initial_run(g.blocks.len()), file, drop, i).work.len() > 0)
            || forall|i: nat| i <= m ==> #[trigger] run(g.blocks, g.edges, initial_run(g.blocks.len()), file, drop, i).work.len() > 0,
    decreases m,
{
    if m > 0 {
        lemma_first_empty(g, file, drop, (m - 1) as nat);
    }
}

/// The iteration always stops: after some number of rounds its work list is empty, or it has
/// reached the round limit.
pub proof fn law_analysis_settles(g: GraphView, file: Seq<char>, drop: bool)
    ensures
        exists|k: nat| settles_at(g, file, drop, k),
{
    lemma_first_empty(g, file, drop, round_limit());
    if exists|j: nat|
        j <= round_limit() && #[trigger] run(g.blocks, g.edges, initial_run(g.blocks.len()), file, drop, j).work.len() == 0
            && forall|i: nat| i < j ==> #[trigger] run(g.blocks, g.edges, initial_run(g.blocks.len()), file, drop, i).work.len() > 0 {
        let j = choose|j: nat|
            j <= round_limit() && #[trigger] run(g.blocks, g.edges, initial_run(g.blocks.len()), file, drop, j).work.len() == 0
                && forall|i: nat| i < j ==> #[trigger] run(g.blocks, g.edges, initial_run(g.blocks.len()), file, drop, i).work.len() > 0;
        assert(settles_at(g, file, drop, j));
    } else {
        assert(settles_at(g, file, drop, round_limit()));
    }
}


// ─── Warnings on conditional paths, for every kind of use ───────────────

/// Returning a pointer that may have been freed reports one warning and leaves the state as
/// it was.
pub proof fn law_return_maybe_freed(s: StateView, var: Seq<char>, file: Seq<char>, row: usize, col: usize)
    requires
        keys_unique(s.entries),
        state_of(s.entries, var) == Some(OwnershipState::MaybeFreed),
    ensures
        apply(StmtView::Return { var, row, col, is_address_of: false }, s, file) == (
            s,
            seq![
                diag(
                    file,
                    row,
                    col,
                    "possibly returning freed pointer '"@ + var + "' from function"@,
                    Severity::Warning,
                ),
            ],
        ),
{
}

/// A pointer freed on only one of two paths gives exactly one warning, not an error, when it is
/// returned, passed to a function or used for a field access after the paths meet; returning
/// it leaves the joined state as it is.
pub proof fn law_conditional_uses_warn(
    freed: StateView,
    kept: StateView,
    var: Seq<char>,
    func: Seq<char>,
    file: Seq<char>,
    row: usize,
    col: usize,
)
    requires
        keys_unique(freed.entries),
        keys_unique(kept.entries),
        state_of(freed.entries, var) == Some(OwnershipState::Freed),
        state_of(kept.entries, var) == Some(OwnershipState::Allocated),
    ensures
        apply(StmtView::Return { var, row, col, is_address_of: false }, merge_state(freed, kept), file) == (
            merge_state(freed, kept),
            seq![
                diag(
                    file,
                    row,
                    col,
                    "possibly returning freed pointer '"@ + var + "' from function"@,
                    Severity::Warning,
                ),
            ],
        ),
        apply(StmtView::Return { var, row, col, is_address_of: false }, merge_state(kept, freed), file) == (
            merge_state(kept, freed),
            seq![
                diag(
                    file,
                    row,
                    col,
                    "possibly returning freed pointer '"@ + var + "' from function"@,
                    Severity::Warning,
                ),
            ],
        ),
        apply(StmtView::PassToFunction { var, func, row, col }, merge_state(freed, kept), file).1 == seq![
            diag(
                file,
                row,
                col,
                "potentially passing a freed pointer '"@ + var + "' to function '"@ + func + "'"@,
                Severity::Warning,
            ),
        ],
        apply(StmtView::PassToFunction { var, func, row, col }, merge_state(kept, freed), file).1 == seq![
            diag(
                file,
                row,
                col,
                "potentially passing a freed pointer '"@ + var + "' to function '"@ + func + "'"@,
                Severity::Warning,
            ),
        ],
        apply(StmtView::FieldAccess { var, row, col }, merge_state(freed, kept), file).1 == seq![
            diag(file, row, col, "possible field access of a free pointer '"@ + var + "'"@, Severity::Warning),
        ],
        apply(StmtView::FieldAccess { var, row, col }, merge_state(kept, freed), file).1 == seq![
            diag(file, row, col, "possible field access of a free pointer '"@ + var + "'"@, Severity::Warning),
        ],
{
    law_merge_maybe_freed(freed.entries, kept.entries, var, OwnershipState::Freed, OwnershipState::Allocated);
    law_merge_maybe_freed(kept.entries, freed.entries, var, OwnershipState::Allocated, OwnershipState::Freed);
}

// ─── Allocations ─────────────────────────────────────────────────────────

/// A call of `malloc`, `calloc` or `realloc` whose result is stored by a declaration or an
/// assignment is lowered to an allocation of the variable it is stored in, in the current
/// block, and control stays in that block.
pub proof fn law_alloc_calls_lowered(n: SyntaxNode, f: SyntaxNode, p: SyntaxNode, g: GraphView, cur: usize)
    requires
        kind_is(n, "call_expression"@),
        field_child(n, "function"@) == Some(f),
        f.text@ == "malloc"@ || f.text@ == "calloc"@ || f.text@ == "realloc"@,
        kind_is(p, "init_declarator"@) || kind_is(p, "assignment_expression"@),
        malloc_target(Some(p)) is Some,
    ensures
        lower(n, Some(p), g, cur) == (
            push_stmt(
                g,
                cur,
                StmtView::Malloc {
                    var: malloc_target(Some(p)).unwrap().0,
                    row: malloc_target(Some(p)).unwrap().1,
                    col: malloc_target(Some(p)).unwrap().2,
                },
            ),
            cur,
        ),
{
}

/// The variable a declaration `T *x = malloc(..)` allocates is the one it declares, and the
/// one an assignment `x = malloc(..)` allocates is its left side.
pub proof fn law_alloc_target(p: SyntaxNode, d: SyntaxNode)
    ensures
        kind_is(p, "init_declarator"@) && field_child(p, "declarator"@) == Some(d) ==> malloc_target(Some(p))
            == Some(
            (named_or_self(d).text@, named_or_self(d).start_line, named_or_self(d).start_col),
        ),
        kind_is(p, "assignment_expression"@) && field_child(p, "left"@) == Some(d) ==> malloc_target(Some(p))
            == Some((d.text@, d.start_line, d.start_col)),
{
    reveal_strlit("init_declarator");
    reveal_strlit("assignment_expression");
    assert("init_declarator"@[0] != "assignment_expression"@[0]);
}

// ─── Pointers that outlive their targets ────────────────────────────────

/// Leaving scope `d` reports every pointer bound in any enclosing scope (at any depth below
/// `d`) that points to a variable bound in scope `d`.
pub proof fn law_outliving_pointer_reported(
    s: StateView,
    ptr: Seq<char>,
    target: Seq<char>,
    file: Seq<char>,
    row: usize,
    col: usize,
    i: int,
    j: int,
)
    requires
        s.scope_depth >= 1,
        0 <= i < s.entries.len(),
        0 <= j < s.entries.len(),
        s.entries[i].0 == ptr,
        s.entries[i].1.points_to == Some(target),
        s.entries[i].1.scope_depth < s.scope_depth,
        s.entries[j].0 == target,
        s.entries[j].1.scope_depth == s.scope_depth,
    ensures
        apply(StmtView::ExitScope { row, col }, s, file).1.contains(
            diag(
                file,
                row,
                col,
                "pointer '"@ + ptr + "' will outlive '"@ + target + "' which it points to"@,
                Severity::Error,
            ),
        ),
{
    let e = s.entries;
    let d = s.scope_depth;
    assert(dying(e, d, target));
    assert(is_dangling(e, d, e[i]));
    let f = exit_diag_of(e, d, s.class_has_drop, file, row, col);
    assert(f(e[i]) == Some(
        diag(
            file,
            row,
            col,
            "pointer '"@ + ptr + "' will outlive '"@ + target + "' which it points to"@,
            Severity::Error,
        ),
    ));
    lemma_filter_map_keeps(e, f, i);
}


// ─── What each use of a pointer reports, by the pointer's state ─────────

/// `*var` reports, by the state of `var`: a use after free, an uninitialised or unknown
/// pointer, a null dereference (errors), a possible use after free (a warning), and nothing
/// for an allocated pointer; the state is left as it is.
pub proof fn law_deref_findings(s: StateView, var: Seq<char>, file: Seq<char>, row: usize, col: usize)
    ensures
        apply(StmtView::Deref { var, row, col }, s, file).0 == s,
        state_of(s.entries, var) == Some(OwnershipState::Freed) ==> apply(StmtView::Deref { var, row, col }, s, file).1
            == seq![diag(file, row, col, "use after free of '"@ + var + "'"@, Severity::Error)],
        state_of(s.entries, var) == Some(OwnershipState::Uninitialized) ==> apply(StmtView::Deref { var, row, col }, s, file).1
            == seq![diag(file, row, col, "use of uninitialized pointer '"@ + var + "'"@, Severity::Error)],
        state_of(s.entries, var) is None ==> apply(StmtView::Deref { var, row, col }, s, file).1
            == seq![diag(file, row, col, "use of uninitialized pointer '"@ + var + "'"@, Severity::Error)],
        state_of(s.entries, var) == Some(OwnershipState::Null) ==> apply(StmtView::Deref { var, row, col }, s, file).1
            == seq![diag(file, row, col, "null pointer dereference of '"@ + var + "'"@, Severity::Error)],
        state_of(s.entries, var) == Some(OwnershipState::MaybeFreed) ==> apply(StmtView::Deref { var, row, col }, s, file).1
            == seq![diag(file, row, col, "possible use after free of '"@ + var + "'"@, Severity::Warning)],
        state_of(s.entries, var) == Some(OwnershipState::Allocated) ==> apply(StmtView::Deref { var, row, col }, s, file).1
            == Seq::<DiagView>::empty(),
{
}

/// `free(var)` reports, by the state of `var`: a double free or a free of an uninitialised
/// variable (errors), a free of a null pointer or a possible double free (warnings); an
/// allocated pointer becomes freed and nothing is reported.
pub proof fn law_free_findings(s: StateView, var: Seq<char>, file: Seq<char>, row: usize, col: usize)
    requires
        keys_unique(s.entries),
    ensures
        state_of(s.entries, var) == Some(OwnershipState::Freed) ==> apply(StmtView::Free { var, row, col }, s, file)
            == (s, seq![diag(file, row, col, "double free of '"@ + var + "'"@, Severity::Error)]),
        state_of(s.entries, var) == Some(OwnershipState::Uninitialized) ==> apply(StmtView::Free { var, row, col }, s, file)
            == (s, seq![diag(file, row, col, "free of uninitialized variable: '"@ + var + "'"@, Severity::Error)]),
        state_of(s.entries, var) == Some(OwnershipState::Null) ==> apply(StmtView::Free { var, row, col }, s, file)
            == (s, seq![diag(file, row, col, "free of 'NULL' pointer '"@ + var + "'"@, Severity::Warning)]),
        state_of(s.entries, var) == Some(OwnershipState::MaybeFreed) ==> apply(StmtView::Free { var, row, col }, s, file)
            == (s, seq![diag(file, row, col, "possible double free of '"@ + var + "'"@, Severity::Warning)]),
        state_of(s.entries, var) == Some(OwnershipState::Allocated) ==> apply(StmtView::Free { var, row, col }, s, file).1
            == Seq::<DiagView>::empty() && state_of(apply(StmtView::Free { var, row, col }, s, file).0.entries, var)
            == Some(OwnershipState::Freed),
        state_of(s.entries, var) is None ==> apply(StmtView::Free { var, row, col }, s, file) == (s, Seq::<DiagView>::empty()),
{
    if has(s.entries, var) {
        lemma_set_state(s.entries, var, OwnershipState::Freed);
    }
}

/// `var->f` reports, by the state of `var`: a field of a freed, null or uninitialised pointer
/// (errors), a possible field access of a freed pointer (a warning), and nothing for an
/// allocated pointer; the state is left as it is.
pub proof fn law_field_access_findings(s: StateView, var: Seq<char>, file: Seq<char>, row: usize, col: usize)
    ensures
        apply(StmtView::FieldAccess { var, row, col }, s, file).0 == s,
        state_of(s.entries, var) == Some(OwnershipState::Freed) ==> apply(StmtView::FieldAccess { var, row, col }, s, file).1
            == seq![diag(file, row, col, "use of field of freed pointer '"@ + var + "'"@, Severity::Error)],
        state_of(s.entries, var) == Some(OwnershipState::Null) ==> apply(StmtView::FieldAccess { var, row, col }, s, file).1
            == seq![diag(file, row, col, "null pointer dereference via field access '"@ + var + "'"@, Severity::Error)],
        state_of(s.entries, var) == Some(OwnershipState::Uninitialized) ==> apply(StmtView::FieldAccess { var, row, col }, s, file).1
            == seq![diag(file, row, col, "field access on uninitialized pointer '"@ + var + "'"@, Severity::Error)],
        state_of(s.entries, var) == Some(OwnershipState::MaybeFreed) ==> apply(StmtView::FieldAccess { var, row, col }, s, file).1
            == seq![diag(file, row, col, "possible field access of a free pointer '"@ + var + "'"@, Severity::Warning)],
        state_of(s.entries, var) == Some(OwnershipState::Allocated) ==> apply(StmtView::FieldAccess { var, row, col }, s, file).1
            == Seq::<DiagView>::empty(),
{
}

/// `func(var, ..)` reports, by the state of `var`: passing a freed pointer (an error),
/// passing an uninitialised, null or possibly freed pointer (warnings), and nothing for an
/// allocated pointer; the state is left as it is.
pub proof fn law_pass_findings(s: StateView, var: Seq<char>, func: Seq<char>, file: Seq<char>, row: usize, col: usize)
    ensures
        apply(StmtView::PassToFunction { var, func, row, col }, s, file).0 == s,
        state_of(s.entries, var) == Some(OwnershipState::Freed) ==> apply(StmtView::PassToFunction { var, func, row, col }, s, file).1
            == seq![diag(file, row, col, "passing freed pointer '"@ + var + "' to function '"@ + func + "'"@, Severity::Error)],
        state_of(s.entries, var) == Some(OwnershipState::Uninitialized) ==> apply(StmtView::PassToFunction { var, func, row, col }, s, file).1
            == seq![diag(file, row, col, "passing uninitialized pointer '"@ + var + "' to function '"@ + func + "'"@, Severity::Warning)],
        state_of(s.entries, var) == Some(OwnershipState::Null) ==> apply(StmtView::PassToFunction { var, func, row, col }, s, file).1
            == seq![diag(file, row, col, "passing null pointer '"@ + var + "' to function '"@ + func + "'"@, Severity::Warning)],
        state_of(s.entries, var) == Some(OwnershipState::MaybeFreed) ==> apply(StmtView::PassToFunction { var, func, row, col }, s, file).1
            == seq![diag(file, row, col, "potentially passing a freed pointer '"@ + var + "' to function '"@ + func + "'"@, Severity::Warning)],
        state_of(s.entries, var) == Some(OwnershipState::Allocated) ==> apply(StmtView::PassToFunction { var, func, row, col }, s, file).1
            == Seq::<DiagView>::empty(),
{
}

/// `return var;` reports a freed pointer (an error) or a possibly freed one (a warning) and
/// leaves the state; for an allocated pointer it reports nothing and the ownership passes to
/// the caller. `return &var;` reports the address of a stack variable and changes nothing.
pub proof fn law_return_findings(s: StateView, var: Seq<char>, file: Seq<char>, row: usize, col: usize)
    requires
        keys_unique(s.entries),
    ensures
        state_of(s.entries, var) == Some(OwnershipState::Freed) ==> apply(StmtView::Return { var, row, col, is_address_of: false }, s, file)
            == (s, seq![diag(file, row, col, "returning freed pointer '"@ + var + "' from function"@, Severity::Error)]),
        state_of(s.entries, var) == Some(OwnershipState::MaybeFreed) ==> apply(StmtView::Return { var, row, col, is_address_of: false }, s, file)
            == (s, seq![diag(file, row, col, "possibly returning freed pointer '"@ + var + "' from function"@, Severity::Warning)]),
        state_of(s.entries, var) == Some(OwnershipState::Allocated) ==> apply(StmtView::Return { var, row, col, is_address_of: false }, s, file).1
            == Seq::<DiagView>::empty() && state_of(
                apply(StmtView::Return { var, row, col, is_address_of: false }, s, file).0.entries,
                var,
            ) == Some(OwnershipState::Returned),
        apply(StmtView::Return { var, row, col, is_address_of: true }, s, file).0 == s,
        (lookup(s.entries, var) matches Some(i) && i.alloc_kind == AllocKind::Stack) ==> apply(
            StmtView::Return { var, row, col, is_address_of: true },
            s,
            file,
        ).1 == seq![
            diag(
                file,
                row,
                col,
                "returning address of stack variable '"@ + var + "' which will be invalid after function returns"@,
                Severity::Error,
            ),
        ],
        (lookup(s.entries, var) matches Some(i) && i.alloc_kind == AllocKind::Heap) ==> apply(
            StmtView::Return { var, row, col, is_address_of: true },
            s,
            file,
        ).1 == Seq::<DiagView>::empty(),
{
    if has(s.entries, var) {
        lemma_set_state(s.entries, var, OwnershipState::Returned);
    }
}

/// `var = malloc(..)` binds `var` to a live heap object at the current depth, whatever it was
/// bound to before, and reports nothing.
pub proof fn law_malloc_binds(s: StateView, var: Seq<char>, file: Seq<char>, row: usize, col: usize)
    requires
        keys_unique(s.entries),
    ensures
        apply(StmtView::Malloc { var, row, col }, s, file).1 == Seq::<DiagView>::empty(),
        lookup(apply(StmtView::Malloc { var, row, col }, s, file).0.entries, var) == Some(
            InfoView {
                state: OwnershipState::Allocated,
                scope_depth: s.scope_depth,
                alloc_kind: AllocKind::Heap,
                points_to: None,
            },
        ),
{
    lemma_bind(s.entries, var, heap_view(s.scope_depth));
}


/// `free(a, ..)` is lowered to a free of `a`, and a call of any other function that is not an
/// allocation, with first argument `a`, to a pass of `a` to that function, in the current block.
pub proof fn law_free_and_pass_lowered(
    n: SyntaxNode,
    f: SyntaxNode,
    args: SyntaxNode,
    a: SyntaxNode,
    parent: Option<SyntaxNode>,
    g: GraphView,
    cur: usize,
)
    requires
        kind_is(n, "call_expression"@),
        field_child(n, "function"@) == Some(f),
        field_child(n, "arguments"@) == Some(args),
        first_named(args) == Some(a),
        !(f.text@ == "malloc"@ || f.text@ == "calloc"@ || f.text@ == "realloc"@),
    ensures
        f.text@ == "free"@ ==> lower(n, parent, g, cur) == (
            push_stmt(g, cur, StmtView::Free { var: a.text@, row: a.start_line, col: a.start_col }),
            cur,
        ),
        f.text@ != "free"@ ==> lower(n, parent, g, cur) == (
            push_stmt(
                g,
                cur,
                StmtView::PassToFunction { var: a.text@, func: f.text@, row: a.start_line, col: a.start_col },
            ),
            cur,
        ),
{
}

/// `*x` is lowered to a dereference of `x`, and `x->f` to a field access through `x`, in the
/// current block.
pub proof fn law_deref_and_field_lowered(
    n: SyntaxNode,
    op: SyntaxNode,
    x: SyntaxNode,
    parent: Option<SyntaxNode>,
    g: GraphView,
    cur: usize,
)
    ensures
        kind_is(n, "pointer_expression"@) && first_child(n) == Some(op) && op.text@ == "*"@ && first_named(n)
            == Some(x) ==> lower(n, parent, g, cur) == (
            push_stmt(g, cur, StmtView::Deref { var: x.text@, row: x.start_line, col: x.start_col }),
            cur,
        ),
        kind_is(n, "field_expression"@) && field_child(n, "argument"@) == Some(x) && field_child(n, "operator"@)
            == Some(op) && op.text@ == "->"@ ==> lower(n, parent, g, cur) == (
            push_stmt(g, cur, StmtView::FieldAccess { var: x.text@, row: x.start_line, col: x.start_col }),
            cur,
        ),
{
    reveal_strlit("pointer_expression");
    reveal_strlit("field_expression");
    reveal_strlit("call_expression");
    reveal_strlit("return_statement");
    assert("pointer_expression"@[0] != "field_expression"@[0]);
    assert("pointer_expression"@[0] != "call_expression"@[0]);
    assert("field_expression"@[0] != "call_expression"@[0]);
    assert("field_expression"@[0] != "return_statement"@[0]);
}

/// `return x;` is lowered to a return of `x`, and `return &x;` to a return of the address of
/// `x`, in the current block.
pub proof fn law_return_lowered(n: SyntaxNode, e: SyntaxNode, op: SyntaxNode, x: SyntaxNode, parent: Option<SyntaxNode>, g: GraphView, cur: usize)
    requires
        kind_is(n, "return_statement"@),
        first_named(n) == Some(e),
    ensures
        kind_is(e, "identifier"@) ==> lower(n, parent, g, cur) == (
            push_stmt(
                g,
                cur,
                StmtView::Return { var: e.text@, row: e.start_line, col: e.start_col, is_address_of: false },
            ),
            cur,
        ),
        kind_is(e, "pointer_expression"@) && first_child(e) == Some(op) && op.text@ == "&"@ && first_named(e) == Some(x)
            ==> lower(n, parent, g, cur) == (
            push_stmt(
                g,
                cur,
                StmtView::Return { var: x.text@, row: x.start_line, col: x.start_col, is_address_of: true },
            ),
            cur,
        ),
{
    reveal_strlit("identifier");
    reveal_strlit("pointer_expression");
    reveal_strlit("return_statement");
    reveal_strlit("call_expression");
    assert("identifier"@[0] != "pointer_expression"@[0]);
    assert("return_statement"@[0] != "call_expression"@[0]);
    assert("return_statement"@[0] != "pointer_expression"@[0]);
}

} // verus!

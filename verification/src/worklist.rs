use vstd::prelude::*;
use crate::analysis::{apply, apply_statement, run_stmts};
use crate::cfg::{
    Binding, BlockState, Entries, Statement, StateView, StmtView, entries, find_binding, lookup, stmts_view,
    merge_entries, same_bindings, well_formed,
};
use crate::diagnostics::{DiagView, Diagnostic, diags_view};
use crate::graph::{
    Cfg, GraphView, graph_view, cfg_block, cfg_blocks, cfg_edges, cfg_len, cfg_neighbors, cfg_wf, edges_in_range,
    predecessors, successors,
};
use crate::variable_info::InfoView;

verus! {

/// The state of the fixed-point iteration: the entry and exit state of each block (once
/// computed) and the blocks still to visit.
pub struct RunView {
    pub ins: Seq<Option<StateView>>,
    pub outs: Seq<Option<StateView>>,
    pub work: Seq<usize>,
}

pub open spec fn empty_state(drop: bool) -> StateView {
    StateView {
        entries: Seq::<(Seq<char>, InfoView)>::empty(),
        scope_depth: 0,
        base_scope_depth: 0,
        class_has_drop: drop,
    }
}

pub open spec fn merge_state(s: StateView, o: StateView) -> StateView {
    StateView { entries: merge_entries(s.entries, o.entries), ..s }
}

/// The exit states computed so far of the blocks `ps`, joined in order, the first as the base.
pub open spec fn join_preds(outs: Seq<Option<StateView>>, ps: Seq<usize>) -> Option<StateView>
    decreases ps.len(),
{
    if ps.len() == 0 {
        None
    } else {
        let s = join_preds(outs, ps.drop_last());
        match outs[ps.last() as int] {
            Some(o) => match s {
                Some(x) => Some(merge_state(x, o)),
                None => Some(o),
            },
            None => s,
        }
    }
}

/// The entry state of a block with predecessors `preds`: the join of the exit states they
/// have so far, or an empty state while none has one.
pub open spec fn incoming_state(outs: Seq<Option<StateView>>, preds: Seq<usize>, drop: bool) -> StateView {
    match join_preds(outs, preds) {
        Some(s) => s,
        None => empty_state(drop),
    }
}

/// `i` is the number of `EnterScope` statements that open `s`.
pub open spec fn leading_ok(s: Seq<StmtView>, i: int) -> bool {
    &&& 0 <= i <= s.len()
    &&& forall|j: int| 0 <= j < i ==> s[j] is EnterScope
    &&& (i == s.len() || !(s[i] is EnterScope))
}

pub open spec fn leading_enters(s: Seq<StmtView>) -> int {
    choose|i: int| leading_ok(s, i)
}

/// The state a block starts from: its entry state, with the scopes it opens first counted as
/// its own.
pub open spec fn with_base(s: StateView, extra: int) -> StateView {
    StateView {
        base_scope_depth: if s.scope_depth + extra <= usize::MAX {
            (s.scope_depth + extra) as usize
        } else {
            usize::MAX
        },
        ..s
    }
}

/// `work` with each of `succ` appended, in order, unless already present.
pub open spec fn enqueue(work: Seq<usize>, succ: Seq<usize>) -> Seq<usize>
    decreases succ.len(),
{
    if succ.len() == 0 {
        work
    } else {
        let w = enqueue(work, succ.drop_last());
        if w.contains(succ.last()) {
            w
        } else {
            w.push(succ.last())
        }
    }
}

/// One round of the iteration: visit the last block of the work list; if its entry state has
/// new facts, run its statements and queue its successors.
pub open spec fn step(
    blocks: Seq<Seq<StmtView>>,
    edges: Seq<(usize, usize)>,
    r: RunView,
    file: Seq<char>,
    drop: bool,
) -> RunView {
    let idx = r.work.last();
    let work = r.work.drop_last();
    let inc = incoming_state(r.outs, predecessors(edges, idx), drop);
    let unchanged = match r.ins[idx as int] {
        Some(old) => same_bindings(old.entries, inc.entries),
        None => false,
    };
    if unchanged {
        RunView { work, ..r }
    } else {
        let stmts = blocks[idx as int];
        let res = run_stmts(stmts, with_base(inc, leading_enters(stmts)), file);
        RunView {
            ins: r.ins.update(idx as int, Some(inc)),
            outs: r.outs.update(idx as int, Some(res.0)),
            work: enqueue(work, successors(edges, idx)),
        }
    }
}

/// The iteration after `n` rounds (it stops early once the work list is empty).
pub open spec fn run(
    blocks: Seq<Seq<StmtView>>,
    edges: Seq<(usize, usize)>,
    init: RunView,
    file: Seq<char>,
    drop: bool,
    n: nat,
) -> RunView
    decreases n,
{
    if n == 0 {
        init
    } else {
        let p = run(blocks, edges, init, file, drop, (n - 1) as nat);
        if p.work.len() == 0 {
            p
        } else {
            step(blocks, edges, p, file, drop)
        }
    }
}

/// The iteration before its first round: nothing computed, the entry block queued.
pub open spec fn initial_run(n: nat) -> RunView {
    RunView {
        ins: Seq::new(n, |i: int| None),
        outs: Seq::new(n, |i: int| None),
        work: seq![0usize],
    }
}

/// The number of rounds after which the iteration gives up; no real graph comes near it.
pub open spec fn round_limit() -> nat {
    u64::MAX as nat
}

/// The iteration has stopped after `k` rounds: its work list is empty (or it reached the
/// round limit), and not before.
pub open spec fn settles_at(g: GraphView, file: Seq<char>, drop: bool, k: nat) -> bool {
    &&& k <= round_limit()
    &&& (run(g.blocks, g.edges, initial_run(g.blocks.len()), file, drop, k).work.len() == 0
        || k == round_limit())
    &&& forall|j: nat|
        j < k ==> #[trigger] run(g.blocks, g.edges, initial_run(g.blocks.len()), file, drop, j).work.len()
            > 0
}

/// What block `b` reports once the iteration has stopped: its statements run from the entry
/// state last recorded for it; nothing for a block never reached.
pub open spec fn block_report(blocks: Seq<Seq<StmtView>>, ins: Seq<Option<StateView>>, file: Seq<char>, b: int) -> Seq<
    DiagView,
> {
    match ins[b] {
        Some(inc) => run_stmts(blocks[b], with_base(inc, leading_enters(blocks[b])), file).1,
        None => Seq::empty(),
    }
}

/// What the first `k` blocks report, in block order.
pub open spec fn report(blocks: Seq<Seq<StmtView>>, ins: Seq<Option<StateView>>, file: Seq<char>, k: nat) -> Seq<
    DiagView,
>
    decreases k,
{
    if k == 0 {
        Seq::empty()
    } else {
        report(blocks, ins, file, (k - 1) as nat) + block_report(blocks, ins, file, k - 1)
    }
}

/// The entry states the iteration has recorded once it stops.
pub open spec fn settled_ins(g: GraphView, file: Seq<char>, drop: bool) -> Seq<Option<StateView>> {
    run(
        g.blocks,
        g.edges,
        initial_run(g.blocks.len()),
        file,
        drop,
        choose|k: nat| settles_at(g, file, drop, k),
    ).ins
}

/// What the analysis of a graph reports: once the iteration has stopped, each block reached
/// reports what its statements find from its settled entry state, block by block. A finding on
/// a path that is joined with others is thus judged with every path known.
pub open spec fn analysis_of(g: GraphView, file: Seq<char>, drop: bool) -> Seq<DiagView> {
    report(g.blocks, settled_ins(g, file, drop), file, g.blocks.len())
}

pub proof fn lemma_settles_unique(g: GraphView, file: Seq<char>, drop: bool, k1: nat, k2: nat)
    requires
        settles_at(g, file, drop, k1),
        settles_at(g, file, drop, k2),
    ensures
        k1 == k2,
{
    if k1 < k2 {
        assert(run(g.blocks, g.edges, initial_run(g.blocks.len()), file, drop, k1).work.len() > 0);
    } else if k2 < k1 {
        assert(run(g.blocks, g.edges, initial_run(g.blocks.len()), file, drop, k2).work.len() > 0);
    }
}

pub open spec fn opt_views(v: Seq<Option<BlockState>>) -> Seq<Option<StateView>> {
    v.map_values(|o: Option<BlockState>| match o {
        Some(s) => Some(s@),
        None => None,
    })
}

proof fn lemma_filter_map_bounded(
    edges: Seq<(usize, usize)>,
    f: spec_fn((usize, usize)) -> Option<usize>,
    n: nat,
)
    requires
        forall|k: int| 0 <= k < edges.len() ==> (#[trigger] f(edges[k]) matches Some(x) ==> x < n),
    ensures
        forall|j: int| 0 <= j < edges.filter_map(f).len() ==> #[trigger] edges.filter_map(f)[j] < n,
    decreases edges.len(),
{
    if edges.len() > 0 {
        let d = edges.drop_last();
        assert forall|k: int| 0 <= k < d.len() implies (#[trigger] f(d[k]) matches Some(x) ==> x < n) by {
            assert(d[k] == edges[k]);
        }
        lemma_filter_map_bounded(d, f, n);
        assert(f(edges[edges.len() - 1]) matches Some(x) ==> x < n);
        let fm = edges.filter_map(f);
        let rest = d.filter_map(f);
        assert(fm == match f(edges.last()) {
            Some(x) => rest + seq![x],
            None => rest,
        });
        assert forall|j: int| 0 <= j < fm.len() implies #[trigger] fm[j] < n by {
            if j < rest.len() {
                assert(fm[j] == rest[j]);
            }
        }
    }
}

pub(crate) proof fn lemma_neighbors_bounded(edges: Seq<(usize, usize)>, i: usize, n: nat)
    requires
        edges_in_range(edges, n),
    ensures
        forall|j: int| 0 <= j < predecessors(edges, i).len() ==> #[trigger] predecessors(edges, i)[j] < n,
        forall|j: int| 0 <= j < successors(edges, i).len() ==> #[trigger] successors(edges, i)[j] < n,
{
    let fp = crate::graph::source_if_into(i);
    let fs = crate::graph::target_if_from(i);
    assert forall|k: int| 0 <= k < edges.len() implies (#[trigger] fp(edges[k]) matches Some(x) ==> x < n) by {
        assert(edges[k].0 < n);
    }
    assert forall|k: int| 0 <= k < edges.len() implies (#[trigger] fs(edges[k]) matches Some(x) ==> x < n) by {
        assert(edges[k].1 < n);
    }
    lemma_filter_map_bounded(edges, fp, n);
    lemma_filter_map_bounded(edges, fs, n);
    let p = edges.filter_map(fp);
    let s = edges.filter_map(fs);
    assert(predecessors(edges, i) == p.reverse());
    assert(successors(edges, i) == s.reverse());
    assert forall|j: int| 0 <= j < p.reverse().len() implies #[trigger] p.reverse()[j] < n by {
        assert(p.reverse()[j] == p[p.len() - 1 - j]);
    }
    assert forall|j: int| 0 <= j < s.reverse().len() implies #[trigger] s.reverse()[j] < n by {
        assert(s.reverse()[j] == s[s.len() - 1 - j]);
    }
}

/// Whether two lists of bindings record the same facts.
pub fn same_entries(a: &Vec<Binding>, b: &Vec<Binding>) -> (r: bool)
    requires
        crate::cfg::keys_unique(entries(a@)),
        crate::cfg::keys_unique(entries(b@)),
    ensures
        r == same_bindings(entries(a@), entries(b@)),
{
    let ghost ea = entries(a@);
    let ghost eb = entries(b@);
    let n = a.len();
    for i in 0..n
        invariant
            n == a.len(),
            ea == entries(a@),
            eb == entries(b@),
            crate::cfg::keys_unique(ea),
            crate::cfg::keys_unique(eb),
            forall|j: int| 0 <= j < i ==> lookup(eb, #[trigger] ea[j].0) == Some(ea[j].1),
    {
        proof {
            assert(ea[i as int] == (a@[i as int].name@, a@[i as int].info@));
        }
        match find_binding(b, a[i].name.as_str()) {
            Some(j) => {
                proof {
                    assert(eb[j as int] == (b@[j as int].name@, b@[j as int].info@));
                }
                if !a[i].info.same_as(&b[j].info) {
                    proof {
                        let k = ea[i as int].0;
                        assert(crate::cfg::has(ea, k));
                        assert(crate::cfg::index_of(ea, k) == i);
                        assert(lookup(ea, k) != lookup(eb, k));
                    }
                    return false;
                }
            },
            None => {
                proof {
                    let k = ea[i as int].0;
                    assert(crate::cfg::has(ea, k));
                    assert(lookup(ea, k) != lookup(eb, k));
                }
                return false;
            },
        }
    }
    let m = b.len();
    for j in 0..m
        invariant
            n == a.len(),
            m == b.len(),
            ea == entries(a@),
            eb == entries(b@),
            crate::cfg::keys_unique(ea),
            crate::cfg::keys_unique(eb),
            forall|i: int| 0 <= i < n ==> lookup(eb, #[trigger] ea[i].0) == Some(ea[i].1),
            forall|l: int| 0 <= l < j ==> crate::cfg::has(ea, #[trigger] eb[l].0),
    {
        proof {
            assert(eb[j as int] == (b@[j as int].name@, b@[j as int].info@));
        }
        if find_binding(a, b[j].name.as_str()).is_none() {
            proof {
                let k = eb[j as int].0;
                assert(crate::cfg::has(eb, k));
                assert(lookup(ea, k) != lookup(eb, k));
            }
            return false;
        }
    }
    proof {
        assert forall|k: Seq<char>| #[trigger] lookup(ea, k) == lookup(eb, k) by {
            if crate::cfg::has(ea, k) {
                let i = crate::cfg::index_of(ea, k);
                assert(lookup(eb, ea[i].0) == Some(ea[i].1));
            } else if crate::cfg::has(eb, k) {
                let l = crate::cfg::index_of(eb, k);
                assert(crate::cfg::has(ea, eb[l].0));
            }
        }
    }
    true
}

} // verus!

verus! {

pub open spec fn run_view(ins: Seq<Option<BlockState>>, outs: Seq<Option<BlockState>>, work: Seq<usize>) -> RunView {
    RunView { ins: opt_views(ins), outs: opt_views(outs), work }
}

pub open spec fn all_well_formed(v: Seq<Option<BlockState>>) -> bool {
    forall|i: int| 0 <= i < v.len() ==> (#[trigger] v[i] matches Some(s) ==> well_formed(s@))
}

/// The entry state of block `idx`, from the exit states computed so far.
fn incoming(cfg: &Cfg, outs: &Vec<Option<BlockState>>, idx: usize, drop: bool) -> (r: BlockState)
    requires
        cfg_wf(*cfg),
        idx < cfg_blocks(*cfg).len(),
        outs.len() == cfg_blocks(*cfg).len(),
        all_well_formed(outs@),
    ensures
        r@ == incoming_state(opt_views(outs@), predecessors(cfg_edges(*cfg), idx), drop),
        well_formed(r@),
{
    let preds = cfg_neighbors(cfg, idx, true);
    let ghost os = opt_views(outs@);
    proof {
        lemma_neighbors_bounded(cfg_edges(*cfg), idx, cfg_blocks(*cfg).len());
        assert(preds@.take(0) =~= Seq::<usize>::empty());
    }
    let mut acc: Option<BlockState> = None;
    let m = preds.len();
    for k in 0..m
        invariant
            m == preds.len(),
            preds@ == predecessors(cfg_edges(*cfg), idx),
            forall|j: int| 0 <= j < preds@.len() ==> #[trigger] preds@[j] < outs.len(),
            os == opt_views(outs@),
            all_well_formed(outs@),
            match acc {
                Some(x) => join_preds(os, preds@.take(k as int)) == Some(x@) && well_formed(x@),
                None => join_preds(os, preds@.take(k as int)) is None,
            },
    {
        proof {
            assert(preds@.take(k + 1).drop_last() =~= preds@.take(k as int));
            assert(preds@.take(k + 1).last() == preds@[k as int]);
            let _ = preds@[k as int];
            let _ = outs@[preds@[k as int] as int];
        }
        match &outs[preds[k]] {
            Some(ps) => {
                acc = match acc {
                    Some(x) => Some(x.merge(ps)),
                    None => Some(ps.duplicate()),
                };
            },
            None => {},
        }
    }
    proof {
        assert(preds@.take(m as int) =~= preds@);
    }
    match acc {
        Some(x) => x,
        None => BlockState::new(drop),
    }
}

/// The number of scopes a block opens before any other statement.
fn leading_count(stmts: &Vec<Statement>) -> (r: usize)
    ensures
        r == leading_enters(stmts_view(stmts@)),
{
    let mut i: usize = 0;
    while i < stmts.len()
        invariant
            i <= stmts.len(),
            forall|j: int| 0 <= j < i ==> stmts_view(stmts@)[j] is EnterScope,
        ensures
            i <= stmts.len(),
            forall|j: int| 0 <= j < i ==> stmts_view(stmts@)[j] is EnterScope,
            i == stmts.len() || !(stmts_view(stmts@)[i as int] is EnterScope),
        decreases stmts.len() - i,
    {
        match &stmts[i] {
            Statement::EnterScope => {
                i = i + 1;
            },
            _ => {
                break;
            },
        }
    }
    proof {
        let sv = stmts_view(stmts@);
        assert(leading_ok(sv, i as int));
        let c = leading_enters(sv);
        assert(leading_ok(sv, c));
        if c < i {
            assert(sv[c] is EnterScope);
        } else if c > i {
            assert(sv[i as int] is EnterScope);
        }
    }
    i
}

/// Runs the statements of a block on `state`, appending what they report.
fn run_block(
    stmts: &Vec<Statement>,
    file: &str,
    state: &mut BlockState,
    diagnostics: &mut Vec<Diagnostic>,
)
    requires
        well_formed(old(state)@),
    ensures
        well_formed(final(state)@),
        final(state)@ == run_stmts(stmts_view(stmts@), old(state)@, file@).0,
        diags_view(final(diagnostics)@) == diags_view(old(diagnostics)@) + run_stmts(
            stmts_view(stmts@),
            old(state)@,
            file@,
        ).1,
{
    let ghost s0 = state@;
    let ghost d0 = diags_view(diagnostics@);
    let n = stmts.len();
    for i in 0..n
        invariant
            n == stmts.len(),
            well_formed(state@),
            state@ == run_stmts(stmts_view(stmts@).take(i as int), s0, file@).0,
            diags_view(diagnostics@) == d0 + run_stmts(stmts_view(stmts@).take(i as int), s0, file@).1,
    {
        proof {
            let sv = stmts_view(stmts@);
            assert(sv.take(i + 1).drop_last() =~= sv.take(i as int));
            assert(sv.take(i + 1).last() == sv[i as int]);
        }
        let ghost before = diags_view(diagnostics@);
        apply_statement(&stmts[i], file, state, diagnostics);
        proof {
            let r = run_stmts(stmts_view(stmts@).take(i as int), s0, file@);
            let t = apply(stmts_view(stmts@)[i as int], r.0, file@);
            assert(diags_view(diagnostics@) == before + t.1);
            assert(d0 + (r.1 + t.1) =~= d0 + r.1 + t.1);
        }
    }
    proof {
        assert(stmts_view(stmts@).take(n as int) =~= stmts_view(stmts@));
    }
}

/// Appends each of `succ` to the work list unless it is already there.
fn enqueue_all(work: &mut Vec<usize>, succ: &Vec<usize>)
    ensures
        final(work)@ == enqueue(old(work)@, succ@),
{
    let ghost w0 = work@;
    let m = succ.len();
    for k in 0..m
        invariant
            m == succ.len(),
            work@ == enqueue(w0, succ@.take(k as int)),
    {
        proof {
            assert(succ@.take(k + 1).drop_last() =~= succ@.take(k as int));
            assert(succ@.take(k + 1).last() == succ@[k as int]);
        }
        let x = succ[k];
        let mut found = false;
        let len = work.len();
        for j in 0..len
            invariant
                len == work.len(),
                found == (exists|l: int| 0 <= l < j && work@[l] == x),
        {
            if work[j] == x {
                found = true;
            }
        }
        proof {
            if found {
                let l = choose|l: int| 0 <= l < len && work@[l] == x;
                assert(work@.contains(x));
            } else {
                assert(!work@.contains(x));
            }
        }
        if !found {
            work.push(x);
        }
    }
    proof {
        assert(succ@.take(m as int) =~= succ@);
    }
}

/// The fixed-point ownership analysis of a control flow graph whose block 0 is the entry:
/// every block's entry state is the join of its predecessors' exit states, and blocks are
/// visited again, latest queued first, until no entry state gains facts; then each block
/// reached reports what its statements find from its settled entry state.
pub fn run_analysis(cfg: &Cfg, file: &str, class_has_drop: bool) -> (r: Vec<Diagnostic>)
    requires
        cfg_wf(*cfg),
        cfg_blocks(*cfg).len() > 0,
    ensures
        diags_view(r@) == analysis_of(graph_view(*cfg), file@, class_has_drop),
{
    let n = cfg_len(cfg);
    let ghost blocks = graph_view(*cfg).blocks;
    let ghost edges = cfg_edges(*cfg);
    let ghost init = initial_run(n as nat);
    let mut ins: Vec<Option<BlockState>> = Vec::new();
    let mut outs: Vec<Option<BlockState>> = Vec::new();
    for i in 0..n
        invariant
            ins.len() == i,
            outs.len() == i,
            forall|j: int| 0 <= j < i ==> #[trigger] ins@[j] is None,
            forall|j: int| 0 <= j < i ==> #[trigger] outs@[j] is None,
    {
        ins.push(None);
        outs.push(None);
    }
    let mut work: Vec<usize> = Vec::new();
    work.push(0);
    let mut steps: u64 = 0;
    proof {
        assert(run_view(ins@, outs@, work@).ins =~= init.ins);
        assert(run_view(ins@, outs@, work@).outs =~= init.outs);
        assert(run_view(ins@, outs@, work@).work =~= init.work);
        assert(run(blocks, edges, init, file@, class_has_drop, 0) == init);
    }
    while work.len() > 0 && steps < u64::MAX
        invariant
            cfg_wf(*cfg),
            blocks == graph_view(*cfg).blocks,
            edges == cfg_edges(*cfg),
            n == blocks.len(),
            n == cfg_blocks(*cfg).len(),
            init == initial_run(n as nat),
            ins.len() == n,
            outs.len() == n,
            all_well_formed(ins@),
            all_well_formed(outs@),
            forall|j: int| 0 <= j < work@.len() ==> #[trigger] work@[j] < n,
            run_view(ins@, outs@, work@) == run(
                blocks,
                edges,
                init,
                file@,
                class_has_drop,
                steps as nat,
            ),
            forall|j: nat|
                j < steps ==> #[trigger] run(blocks, edges, init, file@, class_has_drop, j).work.len()
                    > 0,
        decreases u64::MAX - steps,
    {
        let ghost before = run_view(ins@, outs@, work@);
        let idx = work.pop().unwrap();
        proof {
            assert(idx == before.work.last());
        }
        let st_in = incoming(cfg, &outs, idx, class_has_drop);
        let unchanged = match &ins[idx] {
            Some(old) => {
                proof {
                    let _ = ins@[idx as int];
                }
                same_entries(&old.ownership, &st_in.ownership)
            },
            None => false,
        };
        proof {
            assert(opt_views(ins@)[idx as int] == match ins@[idx as int] {
                Some(s) => Some(s@),
                None => None,
            });
        }
        if !unchanged {
            let ghost inc = st_in@;
            ins.set(idx, Some(st_in.duplicate()));
            let block = cfg_block(cfg, idx);
            let lead = leading_count(&block.statements);
            let mut state = st_in;
            if state.scope_depth <= usize::MAX - lead {
                state.base_scope_depth = state.scope_depth + lead;
            } else {
                state.base_scope_depth = usize::MAX;
            }
            proof {
                assert(state@ == with_base(inc, leading_enters(blocks[idx as int])));
            }
            let mut scratch: Vec<Diagnostic> = Vec::new();
            run_block(&block.statements, file, &mut state, &mut scratch);
            outs.set(idx, Some(state));
            let succ = cfg_neighbors(cfg, idx, false);
            proof {
                lemma_neighbors_bounded(edges, idx, n as nat);
            }
            let ghost w_before = work@;
            enqueue_all(&mut work, &succ);
            proof {
                assert(forall|j: int| 0 <= j < succ@.len() ==> #[trigger] succ@[j] < n);
                lemma_enqueue_bounded(w_before, succ@, n as nat);
                assert(opt_views(ins@) =~= before.ins.update(idx as int, Some(inc)));
                assert(opt_views(outs@) =~= before.outs.update(
                    idx as int,
                    Some(run_stmts(blocks[idx as int], with_base(inc, leading_enters(blocks[idx as int])), file@).0),
                ));
                assert(all_well_formed(ins@)) by {
                    assert forall|i: int| 0 <= i < ins@.len() implies (#[trigger] ins@[i] matches Some(s) ==> well_formed(s@)) by {
                        if i != idx {
                        }
                    }
                }
                assert(all_well_formed(outs@)) by {
                    assert forall|i: int| 0 <= i < outs@.len() implies (#[trigger] outs@[i] matches Some(s) ==> well_formed(s@)) by {
                        if i != idx {
                        }
                    }
                }
            }
        }
        proof {
            assert(run_view(ins@, outs@, work@) == step(blocks, edges, before, file@, class_has_drop));
            assert(run(blocks, edges, init, file@, class_has_drop, (steps + 1) as nat) == step(
                blocks,
                edges,
                before,
                file@,
                class_has_drop,
            ));
        }
        steps = steps + 1;
    }
    proof {
        let k = steps as nat;
        let g = graph_view(*cfg);
        assert(g.blocks == blocks && g.edges == edges);
        assert(init == initial_run(g.blocks.len()));
        assert(run(g.blocks, g.edges, initial_run(g.blocks.len()), file@, class_has_drop, k).work.len() == 0
            || k == round_limit());
        assert(forall|j: nat| j < k ==> #[trigger] run(g.blocks, g.edges, initial_run(g.blocks.len()), file@, class_has_drop, j).work.len() > 0);
        assert(settles_at(g, file@, class_has_drop, k));
        let c = choose|c: nat| settles_at(g, file@, class_has_drop, c);
        lemma_settles_unique(g, file@, class_has_drop, k, c);
    }
    let ghost settled = opt_views(ins@);
    proof {
        let g = graph_view(*cfg);
        assert(settled == settled_ins(g, file@, class_has_drop));
    }
    let mut diagnostics: Vec<Diagnostic> = Vec::new();
    for b in 0..n
        invariant
            n == blocks.len(),
            n == cfg_blocks(*cfg).len(),
            cfg_wf(*cfg),
            blocks == graph_view(*cfg).blocks,
            ins.len() == n,
            all_well_formed(ins@),
            settled == opt_views(ins@),
            diags_view(diagnostics@) == report(blocks, settled, file@, b as nat),
    {
        let ghost before = diags_view(diagnostics@);
        match &ins[b] {
            Some(inc) => {
                proof {
                    let _ = ins@[b as int];
                }
                let block = cfg_block(cfg, b);
                let lead = leading_count(&block.statements);
                let mut state = inc.duplicate();
                if state.scope_depth <= usize::MAX - lead {
                    state.base_scope_depth = state.scope_depth + lead;
                } else {
                    state.base_scope_depth = usize::MAX;
                }
                proof {
                    assert(settled[b as int] == Some(inc@));
                    assert(state@ == with_base(inc@, leading_enters(blocks[b as int])));
                }
                run_block(&block.statements, file, &mut state, &mut diagnostics);
            },
            None => {
                proof {
                    assert(settled[b as int] is None);
                }
            },
        }
        proof {
            assert(diags_view(diagnostics@) =~= before + block_report(blocks, settled, file@, b as int));
        }
    }

    diagnostics
}

pub(crate) proof fn lemma_enqueue_bounded(w: Seq<usize>, succ: Seq<usize>, n: nat)
    requires
        forall|j: int| 0 <= j < w.len() ==> #[trigger] w[j] < n,
        forall|j: int| 0 <= j < succ.len() ==> #[trigger] succ[j] < n,
    ensures
        forall|j: int| 0 <= j < enqueue(w, succ).len() ==> #[trigger] enqueue(w, succ)[j] < n,
    decreases succ.len(),
{
    if succ.len() > 0 {
        let d = succ.drop_last();
        assert forall|j: int| 0 <= j < d.len() implies #[trigger] d[j] < n by {
            assert(d[j] == succ[j]);
        }
        lemma_enqueue_bounded(w, d, n);
        let x = succ[succ.len() - 1];
        let e = enqueue(w, d);
        assert(x < n);
        assert(enqueue(w, succ) == if e.contains(x) { e } else { e.push(x) });
        assert forall|j: int| 0 <= j < enqueue(w, succ).len() implies #[trigger] enqueue(w, succ)[j] < n by {
            if j < e.len() {
                assert(e[j] < n);
            }
        }
    }
}

} // verus!

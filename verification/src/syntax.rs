use vstd::prelude::*;

verus! {

/// A node of a concrete syntax tree, with the text it spans and its position.
/// Lines are 1-based, columns 0-based.
#[derive(Debug)]
pub struct SyntaxNode {
    pub kind: String,
    /// The name of the field this node fills in its parent, if any.
    pub field: Option<String>,
    /// Whether the node is named (a grammar rule) rather than anonymous (a token).
    pub named: bool,
    pub text: String,
    pub start_line: usize,
    pub start_col: usize,
    pub end_line: usize,
    pub end_col: usize,
    pub children: Vec<SyntaxNode>,
}

/// The number of nodes in a tree.
pub open spec fn size(n: SyntaxNode) -> nat
    decreases n, 1nat,
{
    1 + sizes(n, n.children@.len() as nat)
}

/// The number of nodes under the first `k` children of `n`.
pub open spec fn sizes(n: SyntaxNode, k: nat) -> nat
    decreases n, 0nat, k,
{
    if k == 0 || k > n.children@.len() {
        0
    } else {
        proof {
            assert(decreases_to!(n => n.children));
        }
        sizes(n, (k - 1) as nat) + size(n.children@[k - 1])
    }
}

pub proof fn lemma_sizes_mono(n: SyntaxNode, j: nat, k: nat)
    requires
        j <= k <= n.children@.len(),
    ensures
        sizes(n, j) <= sizes(n, k),
    decreases k - j,
{
    if j < k {
        lemma_sizes_mono(n, j, (k - 1) as nat);
    }
}

/// A child's subtree is part of its parent's.
pub proof fn lemma_child_size(n: SyntaxNode, i: int)
    requires
        0 <= i < n.children@.len(),
    ensures
        size(n.children@[i]) <= sizes(n, n.children@.len() as nat),
        size(n.children@[i]) < size(n),
{
    lemma_sizes_mono(n, (i + 1) as nat, n.children@.len() as nat);
}

/// Two distinct children's subtrees are disjoint parts of their parent's.
pub proof fn lemma_two_children_size(n: SyntaxNode, i: int, j: int)
    requires
        0 <= i < j < n.children@.len(),
    ensures
        size(n.children@[i]) + size(n.children@[j]) <= sizes(n, n.children@.len() as nat),
{
    lemma_sizes_mono(n, (i + 1) as nat, j as nat);
    lemma_sizes_mono(n, (j + 1) as nat, n.children@.len() as nat);
}

/// The mathematical value of a syntax tree: its strings as character sequences.
pub struct SyntaxView {
    pub kind: Seq<char>,
    pub field: Option<Seq<char>>,
    pub named: bool,
    pub text: Seq<char>,
    pub start_line: usize,
    pub start_col: usize,
    pub end_line: usize,
    pub end_col: usize,
    pub children: Seq<SyntaxView>,
}

pub open spec fn opt_chars(o: Option<String>) -> Option<Seq<char>> {
    match o {
        Some(s) => Some(s@),
        None => None,
    }
}

/// The value of a tree.
pub open spec fn tree_view(n: SyntaxNode) -> SyntaxView
    decreases n, 1nat,
{
    SyntaxView {
        kind: n.kind@,
        field: opt_chars(n.field),
        named: n.named,
        text: n.text@,
        start_line: n.start_line,
        start_col: n.start_col,
        end_line: n.end_line,
        end_col: n.end_col,
        children: kids_view(n, n.children@.len() as nat),
    }
}

/// The values of the first `k` children of `n`.
pub open spec fn kids_view(n: SyntaxNode, k: nat) -> Seq<SyntaxView>
    decreases n, 0nat, k,
{
    if k == 0 || k > n.children@.len() {
        Seq::empty()
    } else {
        proof {
            assert(decreases_to!(n => n.children));
        }
        kids_view(n, (k - 1) as nat).push(tree_view(n.children@[k - 1]))
    }
}

/// The number of nodes in a tree value.
pub open spec fn view_size(v: SyntaxView) -> nat
    decreases v, 1nat,
{
    1 + view_sizes(v, v.children.len() as nat)
}

pub open spec fn view_sizes(v: SyntaxView, k: nat) -> nat
    decreases v, 0nat, k,
{
    if k == 0 || k > v.children.len() {
        0
    } else {
        proof {
            assert(decreases_to!(v => v.children));
        }
        view_sizes(v, (k - 1) as nat) + view_size(v.children[k - 1])
    }
}

/// The children's values, one by one.
pub proof fn lemma_kids_view(n: SyntaxNode, k: nat)
    requires
        k <= n.children@.len(),
    ensures
        kids_view(n, k) == Seq::new(k, |j: int| tree_view(n.children@[j])),
    decreases k,
{
    if k > 0 {
        lemma_kids_view(n, (k - 1) as nat);
        assert(kids_view(n, k) =~= Seq::new(k, |j: int| tree_view(n.children@[j])));
    } else {
        assert(kids_view(n, k) =~= Seq::new(k, |j: int| tree_view(n.children@[j])));
    }
}

/// A tree and its value have the same number of nodes.
pub proof fn lemma_view_size(n: SyntaxNode)
    ensures
        view_size(tree_view(n)) == size(n),
    decreases n, 1nat,
{
    lemma_view_sizes(n, n.children@.len() as nat);
    lemma_kids_view(n, n.children@.len() as nat);
}

proof fn lemma_view_sizes(n: SyntaxNode, k: nat)
    requires
        k <= n.children@.len(),
    ensures
        view_sizes(tree_view(n), k) == sizes(n, k),
    decreases n, 0nat, k,
{
    lemma_kids_view(n, n.children@.len() as nat);
    if k > 0 {
        assert(decreases_to!(n => n.children));
        lemma_view_sizes(n, (k - 1) as nat);
        lemma_view_size(n.children@[k - 1]);
        assert(tree_view(n).children[k - 1] == tree_view(n.children@[k - 1]));
    }
}

pub open spec fn field_is(c: SyntaxNode, f: Seq<char>) -> bool {
    match c.field {
        Some(x) => x@ == f,
        None => false,
    }
}

pub open spec fn is_first_field(n: SyntaxNode, f: Seq<char>, i: int) -> bool {
    &&& 0 <= i < n.children@.len()
    &&& field_is(n.children@[i], f)
    &&& forall|j: int| 0 <= j < i ==> !field_is(#[trigger] n.children@[j], f)
}

/// The position of the first child filling field `f`, as `child_by_field_name` finds it.
pub open spec fn field_index(n: SyntaxNode, f: Seq<char>) -> Option<int> {
    if exists|i: int| is_first_field(n, f, i) {
        Some(choose|i: int| is_first_field(n, f, i))
    } else {
        None
    }
}

/// The first child filling field `f`.
pub open spec fn field_child(n: SyntaxNode, f: Seq<char>) -> Option<SyntaxNode> {
    match field_index(n, f) {
        Some(i) => Some(n.children@[i]),
        None => None,
    }
}

pub open spec fn is_first_named(n: SyntaxNode, i: int) -> bool {
    &&& 0 <= i < n.children@.len()
    &&& n.children@[i].named
    &&& forall|j: int| 0 <= j < i ==> !(#[trigger] n.children@[j]).named
}

pub open spec fn is_last_named(n: SyntaxNode, i: int) -> bool {
    &&& 0 <= i < n.children@.len()
    &&& n.children@[i].named
    &&& forall|j: int| i < j < n.children@.len() ==> !(#[trigger] n.children@[j]).named
}

/// The first named child (`named_child(0)`).
pub open spec fn first_named(n: SyntaxNode) -> Option<SyntaxNode> {
    if exists|i: int| is_first_named(n, i) {
        Some(n.children@[choose|i: int| is_first_named(n, i)])
    } else {
        None
    }
}

/// The last named child (`named_child(named_child_count() - 1)`).
pub open spec fn last_named(n: SyntaxNode) -> Option<SyntaxNode> {
    if exists|i: int| is_last_named(n, i) {
        Some(n.children@[choose|i: int| is_last_named(n, i)])
    } else {
        None
    }
}

/// The first child (`child(0)`).
pub open spec fn first_child(n: SyntaxNode) -> Option<SyntaxNode> {
    if n.children@.len() > 0 {
        Some(n.children@[0])
    } else {
        None
    }
}

/// The position of the first child filling field `f`.
pub fn child_index_by_field(n: &SyntaxNode, f: &str) -> (r: Option<usize>)
    ensures
        match r {
            Some(i) => field_index(*n, f@) == Some(i as int) && i < n.children@.len(),
            None => field_index(*n, f@) is None,
        },
{
    let len = n.children.len();
    for i in 0..len
        invariant
            len == n.children@.len(),
            forall|j: int| 0 <= j < i ==> !field_is(#[trigger] n.children@[j], f@),
    {
        let hit = match &n.children[i].field {
            Some(x) => x.as_str().eq(f),
            None => false,
        };
        if hit {
            proof {
                assert(is_first_field(*n, f@, i as int));
                let c = choose|c: int| is_first_field(*n, f@, c);
                if c < i {
                    assert(!field_is(n.children@[c], f@));
                } else if c > i {
                    assert(!field_is(n.children@[i as int], f@));
                }
            }
            return Some(i);
        }
    }
    proof {
        if exists|i: int| is_first_field(*n, f@, i) {
            let c = choose|c: int| is_first_field(*n, f@, c);
            assert(!field_is(n.children@[c], f@));
        }
    }
    None
}

/// The first child filling field `f` (`child_by_field_name`).
pub fn child_by_field_name<'a>(n: &'a SyntaxNode, f: &str) -> (r: Option<&'a SyntaxNode>)
    ensures
        match r {
            Some(c) => field_child(*n, f@) == Some(*c),
            None => field_child(*n, f@) is None,
        },
{
    match child_index_by_field(n, f) {
        Some(i) => Some(&n.children[i]),
        None => None,
    }
}

/// The first named child (`named_child(0)`).
pub fn first_named_child<'a>(n: &'a SyntaxNode) -> (r: Option<&'a SyntaxNode>)
    ensures
        match r {
            Some(c) => first_named(*n) == Some(*c),
            None => first_named(*n) is None,
        },
{
    let len = n.children.len();
    for i in 0..len
        invariant
            len == n.children@.len(),
            forall|j: int| 0 <= j < i ==> !(#[trigger] n.children@[j]).named,
    {
        if n.children[i].named {
            proof {
                assert(is_first_named(*n, i as int));
                let c = choose|c: int| is_first_named(*n, c);
                if c < i {
                    assert(!n.children@[c].named);
                } else if c > i {
                    assert(!n.children@[i as int].named);
                }
            }
            return Some(&n.children[i]);
        }
    }
    proof {
        if exists|i: int| is_first_named(*n, i) {
            let c = choose|c: int| is_first_named(*n, c);
            assert(!n.children@[c].named);
        }
    }
    None
}

/// The last named child (`named_child(named_child_count() - 1)`).
pub fn last_named_child<'a>(n: &'a SyntaxNode) -> (r: Option<&'a SyntaxNode>)
    ensures
        match r {
            Some(c) => last_named(*n) == Some(*c),
            None => last_named(*n) is None,
        },
{
    let len = n.children.len();
    let mut i = len;
    while i > 0
        invariant
            len == n.children@.len(),
            i <= len,
            forall|j: int| i <= j < len ==> !(#[trigger] n.children@[j]).named,
        decreases i,
    {
        i = i - 1;
        if n.children[i].named {
            proof {
                assert(is_last_named(*n, i as int));
                let c = choose|c: int| is_last_named(*n, c);
                if c < i {
                    assert(!n.children@[i as int].named);
                } else if c > i {
                    assert(!n.children@[c].named);
                }
            }
            return Some(&n.children[i]);
        }
    }
    proof {
        if exists|i: int| is_last_named(*n, i) {
            let c = choose|c: int| is_last_named(*n, c);
            assert(!n.children@[c].named);
        }
    }
    None
}

/// The first child (`child(0)`).
pub fn first_child_of<'a>(n: &'a SyntaxNode) -> (r: Option<&'a SyntaxNode>)
    ensures
        match r {
            Some(c) => first_child(*n) == Some(*c),
            None => first_child(*n) is None,
        },
{
    if n.children.len() > 0 {
        Some(&n.children[0])
    } else {
        None
    }
}

} // verus!

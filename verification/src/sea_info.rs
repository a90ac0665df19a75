use vstd::prelude::*;
use vstd::string::*;
use crate::syntax::{SyntaxNode, field_child, first_child, child_by_field_name, first_child_of};
use crate::lowering::kind_is;
use crate::text::copy_string;

verus! {

// ─── Lookups in lists of (name, value) pairs, the latest pair winning ───────

pub open spec fn pair_keys<V>(s: Seq<(String, V)>) -> Seq<Seq<char>> {
    s.map_values(|p: (String, V)| p.0@)
}

pub open spec fn is_last(keys: Seq<Seq<char>>, k: Seq<char>, i: int) -> bool {
    &&& 0 <= i < keys.len()
    &&& keys[i] == k
    &&& forall|j: int| i < j < keys.len() ==> #[trigger] keys[j] != k
}

/// The position of the latest occurrence of `k`.
pub open spec fn last_index(keys: Seq<Seq<char>>, k: Seq<char>) -> Option<int> {
    if exists|i: int| is_last(keys, k, i) {
        Some(choose|i: int| is_last(keys, k, i))
    } else {
        None
    }
}

pub open spec fn is_first(keys: Seq<Seq<char>>, k: Seq<char>, i: int) -> bool {
    &&& 0 <= i < keys.len()
    &&& keys[i] == k
    &&& forall|j: int| 0 <= j < i ==> #[trigger] keys[j] != k
}

/// The position of the first occurrence of `k`.
pub open spec fn first_index(keys: Seq<Seq<char>>, k: Seq<char>) -> Option<int> {
    if exists|i: int| is_first(keys, k, i) {
        Some(choose|i: int| is_first(keys, k, i))
    } else {
        None
    }
}

pub open spec fn opt_index(o: Option<usize>) -> Option<int> {
    match o {
        Some(i) => Some(i as int),
        None => None,
    }
}

/// The position of the latest pair named `k`.
pub fn find_last<V>(v: &Vec<(String, V)>, k: &str) -> (r: Option<usize>)
    ensures
        opt_index(r) == last_index(pair_keys(v@), k@),
        r matches Some(i) ==> i < v.len(),
{
    let ghost keys = pair_keys(v@);
    let mut i = v.len();
    while i > 0
        invariant
            i <= v.len(),
            keys == pair_keys(v@),
            forall|j: int| i <= j < v.len() ==> #[trigger] keys[j] != k@,
        decreases i,
    {
        i = i - 1;
        if v[i].0.as_str().eq(k) {
            proof {
                assert(keys[i as int] == k@);
                assert(is_last(keys, k@, i as int));
                let c = choose|c: int| is_last(keys, k@, c);
                if c < i {
                    assert(keys[i as int] != k@);
                } else if c > i {
                    assert(keys[c] != k@);
                }
            }
            return Some(i);
        }
    }
    proof {
        if exists|c: int| is_last(keys, k@, c) {
            let c = choose|c: int| is_last(keys, k@, c);
            assert(keys[c] != k@);
        }
    }
    None
}

/// Whether `k` occurs in `v`.
pub fn contains_name(v: &Vec<String>, k: &str) -> (r: bool)
    ensures
        r == v@.map_values(|s: String| s@).contains(k@),
{
    let ghost vs = v@.map_values(|s: String| s@);
    for i in 0..v.len()
        invariant
            vs == v@.map_values(|s: String| s@),
            forall|j: int| 0 <= j < i ==> vs[j] != k@,
    {
        if v[i].as_str().eq(k) {
            proof {
                assert(vs[i as int] == k@);
            }
            return true;
        }
    }
    false
}

// ─── What a Sea file declares ────────────────────────────────────────────

/// A method of a Sea class: its name and how many parameters it takes.
#[derive(Debug)]
pub struct SeaMethodInfo {
    pub name: String,
    pub param_count: usize,
}

/// What the checks need of a Sea class.
#[derive(Debug)]
pub struct SeaClassInfo {
    pub has_drop: bool,
    pub methods: Vec<SeaMethodInfo>,
    pub field_names: Vec<String>,
}

/// The classes (later declarations winning) and interfaces a Sea file can use.
#[derive(Debug)]
pub struct SeaFileInfo {
    pub class_info: Vec<(String, SeaClassInfo)>,
    pub interface_methods: Vec<(String, Vec<String>)>,
}

pub struct MethodView {
    pub name: Seq<char>,
    pub param_count: usize,
}

pub struct ClassView {
    pub has_drop: bool,
    pub methods: Seq<MethodView>,
    pub field_names: Seq<Seq<char>>,
}

/// None or one item.
pub open spec fn opt_seq<T>(o: Option<T>) -> Seq<T> {
    match o {
        Some(x) => seq![x],
        None => Seq::empty(),
    }
}

pub open spec fn methods_view(v: Seq<SeaMethodInfo>) -> Seq<MethodView> {
    v.map_values(|m: SeaMethodInfo| MethodView { name: m.name@, param_count: m.param_count })
}

pub open spec fn names_view(v: Seq<String>) -> Seq<Seq<char>> {
    v.map_values(|s: String| s@)
}

impl View for SeaClassInfo {
    type V = ClassView;

    open spec fn view(&self) -> ClassView {
        ClassView {
            has_drop: self.has_drop,
            methods: methods_view(self.methods@),
            field_names: names_view(self.field_names@),
        }
    }
}

pub struct FileInfoView {
    pub class_info: Seq<(Seq<char>, ClassView)>,
    pub interface_methods: Seq<(Seq<char>, Seq<Seq<char>>)>,
}

impl View for SeaFileInfo {
    type V = FileInfoView;

    open spec fn view(&self) -> FileInfoView {
        FileInfoView {
            class_info: self.class_info@.map_values(|p: (String, SeaClassInfo)| (p.0@, p.1@)),
            interface_methods: self.interface_methods@.map_values(
                |p: (String, Vec<String>)| (p.0@, names_view(p.1@)),
            ),
        }
    }
}

pub open spec fn view_keys<V>(s: Seq<(Seq<char>, V)>) -> Seq<Seq<char>> {
    s.map_values(|p: (Seq<char>, V)| p.0)
}

/// The latest class named `k`.
pub open spec fn class_named(fi: FileInfoView, k: Seq<char>) -> Option<ClassView> {
    match last_index(view_keys(fi.class_info), k) {
        Some(i) => Some(fi.class_info[i].1),
        None => None,
    }
}

pub open spec fn kinds_count(s: Seq<SyntaxNode>, k: Seq<char>) -> nat
    decreases s.len(),
{
    if s.len() == 0 {
        0
    } else {
        kinds_count(s.drop_last(), k) + if kind_is(s.last(), k) { 1nat } else { 0nat }
    }
}

/// How many parameters a method declaration lists.
pub open spec fn param_count(n: SyntaxNode) -> nat {
    match field_child(n, "parameters"@) {
        Some(p) => kinds_count(p.children@, "sea_parameter"@),
        None => 0,
    }
}

/// Counts the children of `n` of kind `k`.
pub fn count_kind(n: &SyntaxNode, k: &str) -> (r: usize)
    ensures
        r == kinds_count(n.children@, k@),
{
    let mut c: usize = 0;
    for i in 0..n.children.len()
        invariant
            c == kinds_count(n.children@.take(i as int), k@),
            c <= i,
    {
        proof {
            assert(n.children@.take(i + 1).drop_last() =~= n.children@.take(i as int));
        }
        if n.children[i].kind.as_str().eq(k) {
            c = c + 1;
        }
    }
    proof {
        assert(n.children@.take(n.children@.len() as int) =~= n.children@);
    }
    c
}

/// How many parameters a method declaration lists (`count_params_in_node`).
pub fn count_params_in_node(n: &SyntaxNode) -> (r: usize)
    ensures
        r == param_count(*n),
{
    match child_by_field_name(n, "parameters") {
        Some(p) => count_kind(p, "sea_parameter"),
        None => 0,
    }
}

} // verus!

verus! {

// ─── Shapes the Sea grammar guarantees, which the checks rely on ─────────

/// A class member: a method declaration has its method node, and a C-style method has a
/// name and a return type.
pub open spec fn member_shaped(m: SyntaxNode) -> bool {
    kind_is(m, "method_declaration"@) ==> match first_child(m) {
        Some(mn) => kind_is(mn, "c_style_method"@) ==> (field_child(mn, "name"@) is Some && field_child(
            mn,
            "return_type"@,
        ) is Some),
        None => false,
    }
}

/// A class declaration: named, with well-shaped members.
pub open spec fn class_shaped(c: SyntaxNode) -> bool {
    &&& field_child(c, "name"@) is Some
    &&& forall|i: int| 0 <= i < c.children@.len() ==> member_shaped(#[trigger] c.children@[i])
}

/// A file whose class declarations are well shaped.
pub open spec fn classes_shaped(root: SyntaxNode) -> bool {
    forall|i: int|
        0 <= i < root.children@.len() ==> (kind_is(#[trigger] root.children@[i], "class_declaration"@)
            ==> class_shaped(root.children@[i]))
}

// ─── Class and interface summaries ───────────────────────────────────────

pub open spec fn member_method(m: SyntaxNode) -> Option<MethodView> {
    if kind_is(m, "method_declaration"@) {
        match first_child(m) {
            Some(mn) => match field_child(mn, "name"@) {
                Some(nn) => Some(MethodView { name: nn.text@, param_count: param_count(mn) as usize }),
                None => None,
            },
            None => None,
        }
    } else if kind_is(m, "init_declaration"@) {
        Some(MethodView { name: "init"@, param_count: param_count(m) as usize })
    } else {
        None
    }
}

pub open spec fn member_method_fn() -> spec_fn(SyntaxNode) -> Option<MethodView> {
    |m: SyntaxNode| member_method(m)
}

pub open spec fn member_field(m: SyntaxNode) -> Option<Seq<char>> {
    if kind_is(m, "field_declaration"@) {
        match field_child(m, "name"@) {
            Some(nn) => Some(nn.text@),
            None => None,
        }
    } else {
        None
    }
}

pub open spec fn member_field_fn() -> spec_fn(SyntaxNode) -> Option<Seq<char>> {
    |m: SyntaxNode| member_field(m)
}

/// What the checks need of a class declaration.
pub open spec fn class_view_of(c: SyntaxNode) -> ClassView {
    ClassView {
        has_drop: exists|i: int|
            0 <= i < c.children@.len() && kind_is(#[trigger] c.children@[i], "drop_declaration"@),
        methods: c.children@.filter_map(member_method_fn()),
        field_names: c.children@.filter_map(member_field_fn()),
    }
}

pub open spec fn class_entry(c: SyntaxNode) -> Option<(Seq<char>, ClassView)> {
    if kind_is(c, "class_declaration"@) {
        match field_child(c, "name"@) {
            Some(nn) => Some((nn.text@, class_view_of(c))),
            None => None,
        }
    } else {
        None
    }
}

pub open spec fn class_entry_fn() -> spec_fn(SyntaxNode) -> Option<(Seq<char>, ClassView)> {
    |c: SyntaxNode| class_entry(c)
}

pub open spec fn interface_method_name(m: SyntaxNode) -> Option<Seq<char>> {
    if kind_is(m, "interface_method"@) {
        match field_child(m, "name"@) {
            Some(nn) => Some(nn.text@),
            None => None,
        }
    } else {
        None
    }
}

pub open spec fn interface_method_fn() -> spec_fn(SyntaxNode) -> Option<Seq<char>> {
    |m: SyntaxNode| interface_method_name(m)
}

/// The methods an interface declaration requires, in order.
pub open spec fn interface_methods_of(c: SyntaxNode) -> Seq<Seq<char>> {
    c.children@.filter_map(interface_method_fn())
}

fn is_kind(n: &SyntaxNode, k: &str) -> (r: bool)
    ensures
        r == kind_is(*n, k@),
{
    n.kind.as_str().eq(k)
}

/// The name and summary of a class declaration (`extract_class_info_from`).
pub fn extract_class_info_from(node: &SyntaxNode) -> (r: (String, SeaClassInfo))
    requires
        class_shaped(*node),
    ensures
        field_child(*node, "name"@) matches Some(nn) && r.0@ == nn.text@,
        r.1@ == class_view_of(*node),
{
    let name_node = child_by_field_name(node, "name").unwrap();
    let class_name = copy_string(&name_node.text);
    let mut has_drop = false;
    let mut methods: Vec<SeaMethodInfo> = Vec::new();
    let mut field_names: Vec<String> = Vec::new();
    let ghost kids = node.children@;
    let n = node.children.len();
    for i in 0..n
        invariant
            n == kids.len(),
            kids == node.children@,
            has_drop == exists|j: int| 0 <= j < i && kind_is(#[trigger] kids[j], "drop_declaration"@),
            methods_view(methods@) == kids.take(i as int).filter_map(member_method_fn()),
            names_view(field_names@) == kids.take(i as int).filter_map(member_field_fn()),
    {
        proof {
            kids.lemma_filter_map_take_succ(member_method_fn(), i as int);
            kids.lemma_filter_map_take_succ(member_field_fn(), i as int);
        }
        let member = &node.children[i];
        let ghost mv = methods_view(methods@);
        proof {
            reveal_strlit("drop_declaration");
            reveal_strlit("field_declaration");
            reveal_strlit("method_declaration");
            reveal_strlit("init_declaration");
        }
        let ghost fv = names_view(field_names@);
        if is_kind(member, "drop_declaration") {
            has_drop = true;
        } else if is_kind(member, "field_declaration") {
            match child_by_field_name(member, "name") {
                Some(nn) => {
                    field_names.push(copy_string(&nn.text));
                    proof {
                        assert(names_view(field_names@) =~= fv.push(nn.text@));
                    }
                },
                None => {},
            }
        } else if is_kind(member, "method_declaration") {
            match first_child_of(member) {
                Some(mn) => match child_by_field_name(mn, "name") {
                    Some(nn) => {
                        let pc = count_params_in_node(mn);
                        methods.push(SeaMethodInfo { name: copy_string(&nn.text), param_count: pc });
                        proof {
                            assert(methods_view(methods@) =~= mv.push(MethodView { name: nn.text@, param_count: pc }));
                        }
                    },
                    None => {},
                },
                None => {},
            }
        } else if is_kind(member, "init_declaration") {
            let pc = count_params_in_node(member);
            methods.push(SeaMethodInfo { name: String::from_str("init"), param_count: pc });
            proof {
                assert(methods_view(methods@) =~= mv.push(MethodView { name: "init"@, param_count: pc }));
            }
        }
        proof {
            let mm = member_method(kids[i as int]);
            let mf = member_field(kids[i as int]);
            assert("drop_declaration"@[0] != "method_declaration"@[0]);
            assert("drop_declaration"@[0] != "field_declaration"@[0]);
            assert("drop_declaration"@[0] != "init_declaration"@[0]);
            assert("field_declaration"@[0] != "method_declaration"@[0]);
            assert("field_declaration"@[0] != "init_declaration"@[0]);
            assert("init_declaration"@[0] != "method_declaration"@[0]);
            if kind_is(kids[i as int], "drop_declaration"@) {
                assert(mm is None && mf is None);
            } else if kind_is(kids[i as int], "field_declaration"@) {
                assert(mm is None);
            } else if kind_is(kids[i as int], "method_declaration"@) {
                assert(mf is None);
            } else if kind_is(kids[i as int], "init_declaration"@) {
                assert(mf is None);
            } else {
                assert(mm is None && mf is None);
            }
            assert(methods_view(methods@) =~= mv + opt_seq(mm));
            assert(names_view(field_names@) =~= fv + opt_seq(mf));
            assert(kids.take(i + 1).filter_map(member_method_fn()) =~= methods_view(methods@));
            assert(kids.take(i + 1).filter_map(member_field_fn()) =~= names_view(field_names@));
        }
    }
    proof {
        assert(kids.take(n as int) =~= kids);
    }
    let info = SeaClassInfo { has_drop, methods, field_names };
    proof {
        assert(info@.has_drop == class_view_of(*node).has_drop);
    }
    (class_name, info)
}

} // verus!

verus! {

/// The top level of a Sea file: classes well shaped, interfaces and imports carry what the
/// checks read of them.
pub open spec fn top_shaped(root: SyntaxNode) -> bool {
    &&& classes_shaped(root)
    &&& forall|i: int|
        0 <= i < root.children@.len() ==> (kind_is(#[trigger] root.children@[i], "interface_declaration"@)
            ==> field_child(root.children@[i], "name"@) is Some)
    &&& forall|i: int|
        0 <= i < root.children@.len() ==> (kind_is(#[trigger] root.children@[i], "import_declaration"@)
            ==> field_child(root.children@[i], "path"@) is Some)
}

pub open spec fn imports_shaped(imports: Seq<Option<SyntaxNode>>) -> bool {
    forall|k: int| 0 <= k < imports.len() ==> (#[trigger] imports[k] matches Some(t) ==> classes_shaped(t))
}

pub open spec fn empty_info() -> FileInfoView {
    FileInfoView { class_info: Seq::empty(), interface_methods: Seq::empty() }
}

/// The classes declared in an imported file, in order.
pub open spec fn imported_classes(t: Option<SyntaxNode>) -> Seq<(Seq<char>, ClassView)> {
    match t {
        Some(r) => r.children@.filter_map(class_entry_fn()),
        None => Seq::empty(),
    }
}

/// What one top-level declaration adds; `acc.1` counts the imports seen so far.
pub open spec fn info_step(acc: (FileInfoView, nat), c: SyntaxNode, imports: Seq<Option<SyntaxNode>>) -> (
    FileInfoView,
    nat,
) {
    let fi = acc.0;
    let k = acc.1;
    if kind_is(c, "import_declaration"@) {
        (
            FileInfoView {
                class_info: fi.class_info + if k < imports.len() {
                    imported_classes(imports[k as int])
                } else {
                    Seq::empty()
                },
                ..fi
            },
            k + 1,
        )
    } else if kind_is(c, "class_declaration"@) {
        (FileInfoView { class_info: fi.class_info + opt_seq(class_entry(c)), ..fi }, k)
    } else if kind_is(c, "interface_declaration"@) {
        match field_child(c, "name"@) {
            Some(nn) => (
                FileInfoView {
                    interface_methods: fi.interface_methods.push((nn.text@, interface_methods_of(c))),
                    ..fi
                },
                k,
            ),
            None => acc,
        }
    } else {
        acc
    }
}

pub open spec fn info_prefix(root: SyntaxNode, k: nat, imports: Seq<Option<SyntaxNode>>) -> (
    FileInfoView,
    nat,
)
    decreases k,
{
    if k == 0 || k > root.children@.len() {
        (empty_info(), 0)
    } else {
        info_step(info_prefix(root, (k - 1) as nat, imports), root.children@[k - 1], imports)
    }
}

/// The classes and interfaces a Sea file can use: its own and those of the files it imports,
/// in the order the file names them. `imports[k]` is the file the `k`-th import names, when
/// it could be read.
pub open spec fn file_info_of(root: SyntaxNode, imports: Seq<Option<SyntaxNode>>) -> FileInfoView {
    info_prefix(root, root.children@.len() as nat, imports).0
}

/// The classes of a file, appended to `out` (for the classes of an imported file).
fn append_classes(root: &SyntaxNode, out: &mut Vec<(String, SeaClassInfo)>)
    requires
        classes_shaped(*root),
    ensures
        final(out)@.map_values(|p: (String, SeaClassInfo)| (p.0@, p.1@)) == old(out)@.map_values(
            |p: (String, SeaClassInfo)| (p.0@, p.1@),
        ) + root.children@.filter_map(class_entry_fn()),
{
    let ghost o0 = old(out)@.map_values(|p: (String, SeaClassInfo)| (p.0@, p.1@));
    let ghost kids = root.children@;
    for i in 0..root.children.len()
        invariant
            kids == root.children@,
            classes_shaped(*root),
            out@.map_values(|p: (String, SeaClassInfo)| (p.0@, p.1@)) == o0 + kids.take(i as int).filter_map(
                class_entry_fn(),
            ),
    {
        proof {
            kids.lemma_filter_map_take_succ(class_entry_fn(), i as int);
        }
        let ghost before = out@.map_values(|p: (String, SeaClassInfo)| (p.0@, p.1@));
        if is_kind(&root.children[i], "class_declaration") {
            proof {
                assert(classes_shaped(*root));
                let _ = root.children@[i as int];
            }
            let e = extract_class_info_from(&root.children[i]);
            out.push(e);
            proof {
                assert(out@.map_values(|p: (String, SeaClassInfo)| (p.0@, p.1@)) =~= before.push(
                    class_entry(kids[i as int]).unwrap(),
                ));
            }
        }
        proof {
            assert(o0 + kids.take(i + 1).filter_map(class_entry_fn()) =~= out@.map_values(
                |p: (String, SeaClassInfo)| (p.0@, p.1@),
            ));
        }
    }
    proof {
        assert(kids.take(kids.len() as int) =~= kids);
    }
}

/// The names the interface methods of an interface declaration give, in order.
fn interface_method_names(c: &SyntaxNode) -> (r: Vec<String>)
    ensures
        names_view(r@) == interface_methods_of(*c),
{
    let mut v: Vec<String> = Vec::new();
    let ghost kids = c.children@;
    for i in 0..c.children.len()
        invariant
            kids == c.children@,
            names_view(v@) == kids.take(i as int).filter_map(interface_method_fn()),
    {
        proof {
            kids.lemma_filter_map_take_succ(interface_method_fn(), i as int);
        }
        let ghost before = names_view(v@);
        let m = &c.children[i];
        if is_kind(m, "interface_method") {
            match child_by_field_name(m, "name") {
                Some(nn) => {
                    v.push(copy_string(&nn.text));
                    proof {
                        assert(names_view(v@) =~= before.push(nn.text@));
                    }
                },
                None => {},
            }
        }
        proof {
            assert(kids.take(i + 1).filter_map(interface_method_fn()) =~= names_view(v@));
        }
    }
    proof {
        assert(kids.take(kids.len() as int) =~= kids);
    }
    v
}

/// The classes and interfaces a Sea file can use (`collect_file_info`).
pub fn collect_file_info(root: &SyntaxNode, imports: &Vec<Option<SyntaxNode>>) -> (r: SeaFileInfo)
    requires
        top_shaped(*root),
        imports_shaped(imports@),
    ensures
        r@ == file_info_of(*root, imports@),
{
    let mut class_info: Vec<(String, SeaClassInfo)> = Vec::new();
    let mut interface_methods: Vec<(String, Vec<String>)> = Vec::new();
    let mut seen: usize = 0;
    let n = root.children.len();
    proof {
        assert((SeaFileInfo { class_info, interface_methods })@.class_info =~= empty_info().class_info);
        assert((SeaFileInfo { class_info, interface_methods })@.interface_methods =~= empty_info().interface_methods);
    }
    for i in 0..n
        invariant
            n == root.children@.len(),
            top_shaped(*root),
            imports_shaped(imports@),
            seen <= i,
            (SeaFileInfo { class_info, interface_methods })@ == info_prefix(*root, i as nat, imports@).0,
            seen == info_prefix(*root, i as nat, imports@).1,
    {
        let c = &root.children[i];
        proof {
            let _ = root.children@[i as int];
            reveal_strlit("import_declaration");
            reveal_strlit("class_declaration");
            reveal_strlit("interface_declaration");
            assert("import_declaration"@[1] != "class_declaration"@[1]);
            assert("import_declaration"@[1] != "interface_declaration"@[1]);
            assert("class_declaration"@[0] != "interface_declaration"@[0]);
        }
        let ghost before = (SeaFileInfo { class_info, interface_methods })@;
        if is_kind(c, "import_declaration") {
            if seen < imports.len() {
                match &imports[seen] {
                    Some(t) => {
                        proof {
                            let _ = imports@[seen as int];
                        }
                        append_classes(t, &mut class_info);
                    },
                    None => {},
                }
            }
            proof {
                assert((SeaFileInfo { class_info, interface_methods })@.class_info =~= before.class_info + if seen < imports.len() {
                    imported_classes(imports@[seen as int])
                } else {
                    Seq::empty()
                });
            }
            seen = seen + 1;
        } else if is_kind(c, "class_declaration") {
            let e = extract_class_info_from(c);
            class_info.push(e);
            proof {
                assert((SeaFileInfo { class_info, interface_methods })@.class_info =~= before.class_info + opt_seq(class_entry(*c)));
            }
        } else if is_kind(c, "interface_declaration") {
            let nn = child_by_field_name(c, "name").unwrap();
            let methods = interface_method_names(c);
            interface_methods.push((copy_string(&nn.text), methods));
            proof {
                assert((SeaFileInfo { class_info, interface_methods })@.interface_methods =~= before.interface_methods.push(
                    (nn.text@, interface_methods_of(*c)),
                ));
            }
        }
        proof {
            assert((SeaFileInfo { class_info, interface_methods })@ =~= info_prefix(*root, (i + 1) as nat, imports@).0);
        }
    }
    SeaFileInfo { class_info, interface_methods }
}

} // verus!

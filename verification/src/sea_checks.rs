use vstd::prelude::*;
use vstd::string::*;
use crate::diagnostics::{Diagnostic, DiagView, Severity, diag, diags_view};
use crate::lowering::kind_is;
use crate::messages::{msg_method_arity, quote, quote2, quoted};
use crate::sea_info::{
    ClassView, FileInfoView, MethodView, SeaFileInfo, SeaMethodInfo, methods_view, class_named, find_last, first_index, is_first,
    last_index, names_view, opt_index, opt_seq, pair_keys, view_keys,
};
use crate::syntax::{SyntaxNode, child_by_field_name, field_child, first_child, first_child_of};
use crate::text::{copy_string, usize_to_decimal};

verus! {

/// The type names Sea knows without a class declaration.
pub open spec fn is_primitive_name(t: Seq<char>) -> bool {
    t == "int"@ || t == "char"@ || t == "float"@ || t == "double"@ || t == "void"@ || t == "String"@
        || t == "bool"@
}

pub fn is_primitive(t: &str) -> (r: bool)
    ensures
        r == is_primitive_name(t@),
{
    t.eq("int") || t.eq("char") || t.eq("float") || t.eq("double") || t.eq("void") || t.eq("String")
        || t.eq("bool")
}

/// The names in scope of a method body: variables with their declared types (later
/// declarations winning), and the classes the file knows.
pub struct Scope {
    pub locals: Vec<(String, String)>,
    pub classes: Vec<String>,
}

pub struct ScopeView {
    pub locals: Seq<(Seq<char>, Seq<char>)>,
    pub classes: Seq<Seq<char>>,
}

impl View for Scope {
    type V = ScopeView;

    open spec fn view(&self) -> ScopeView {
        ScopeView {
            locals: self.locals@.map_values(|p: (String, String)| (p.0@, p.1@)),
            classes: names_view(self.classes@),
        }
    }
}

/// The declared type of `v`.
pub open spec fn type_of(s: ScopeView, v: Seq<char>) -> Option<Seq<char>> {
    match last_index(view_keys(s.locals), v) {
        Some(i) => Some(s.locals[i].1),
        None => None,
    }
}

pub open spec fn declare(s: ScopeView, v: Seq<char>, t: Seq<char>) -> ScopeView {
    ScopeView { locals: s.locals.push((v, t)), ..s }
}

pub open spec fn swap_pair(p: (Seq<char>, Seq<char>)) -> (Seq<char>, Seq<char>) {
    (p.1, p.0)
}

/// The scope a method body starts with: the parameters (given as (type, name)) and the
/// classes of the file.
pub open spec fn scope_start(fi: FileInfoView, params: Seq<(Seq<char>, Seq<char>)>) -> ScopeView {
    ScopeView {
        locals: params.map_values(swap_fn()),
        classes: view_keys(fi.class_info),
    }
}

pub open spec fn swap_fn() -> spec_fn((Seq<char>, Seq<char>)) -> (Seq<char>, Seq<char>) {
    |p: (Seq<char>, Seq<char>)| swap_pair(p)
}

pub open spec fn pairs_view(v: Seq<(String, String)>) -> Seq<(Seq<char>, Seq<char>)> {
    v.map_values(|p: (String, String)| (p.0@, p.1@))
}

impl Scope {
    pub fn new(file_info: &SeaFileInfo, params: &Vec<(String, String)>) -> (r: Scope)
        ensures
            r@ == scope_start(file_info@, pairs_view(params@)),
    {
        let mut locals: Vec<(String, String)> = Vec::new();
        for i in 0..params.len()
            invariant
                pairs_view(locals@) == pairs_view(params@).take(i as int).map_values(swap_fn()),
        {
            let ghost before = pairs_view(locals@);
            locals.push((copy_string(&params[i].1), copy_string(&params[i].0)));
            proof {
                let pv = pairs_view(params@);
                assert(pv[i as int] == (params@[i as int].0@, params@[i as int].1@));
                assert(pairs_view(locals@) =~= before.push(swap_pair(pv[i as int])));
                assert(pv.take(i + 1).map_values(swap_fn()) =~= pv.take(i as int).map_values(swap_fn()).push(swap_pair(pv[i as int])));
                assert(pairs_view(locals@) =~= pairs_view(params@).take(i + 1).map_values(swap_fn()));
            }
        }
        let mut classes: Vec<String> = Vec::new();
        let ghost ks = view_keys(file_info@.class_info);
        for j in 0..file_info.class_info.len()
            invariant
                ks == view_keys(file_info@.class_info),
                names_view(classes@) == ks.take(j as int),
        {
            let ghost before = names_view(classes@);
            classes.push(copy_string(&file_info.class_info[j].0));
            proof {
                assert(ks[j as int] == file_info.class_info@[j as int].0@);
                assert(names_view(classes@) =~= before.push(ks[j as int]));
                assert(names_view(classes@) =~= ks.take(j + 1));
            }
        }
        proof {
            assert(pairs_view(params@).take(params.len() as int) =~= pairs_view(params@));
            assert(ks.take(file_info.class_info.len() as int) =~= ks);
        }
        Scope { locals, classes }
    }

    pub fn declare(&mut self, var_name: String, ty_name: String)
        ensures
            final(self)@ == declare(old(self)@, var_name@, ty_name@),
    {
        let ghost before = self@;
        self.locals.push((var_name, ty_name));
        assert(self@.locals =~= before.locals.push((var_name@, ty_name@)));
    }

    pub fn get_type(&self, var_name: &str) -> (r: Option<&String>)
        ensures
            match r {
                Some(t) => type_of(self@, var_name@) == Some(t@),
                None => type_of(self@, var_name@) is None,
            },
    {
        proof {
            assert(pair_keys(self.locals@) =~= view_keys(self@.locals));
        }
        match find_last(&self.locals, var_name) {
            Some(i) => Some(&self.locals[i].1),
            None => None,
        }
    }

    pub fn is_known_class(&self, name: &str) -> (r: bool)
        ensures
            r == self@.classes.contains(name@),
    {
        crate::sea_info::contains_name(&self.classes, name)
    }
}

// ─── Method calls ────────────────────────────────────────────────────────

pub open spec fn method_names(ms: Seq<MethodView>) -> Seq<Seq<char>> {
    ms.map_values(|m: MethodView| m.name)
}

/// What calling `method` with `argc` arguments on an object of class `class` reports at
/// `row`:`col`: a wrong number of arguments, or a method the class does not have. Calls on
/// classes the file does not know are not checked.
pub open spec fn method_call_diags(
    fi: FileInfoView,
    class: Seq<char>,
    method: Seq<char>,
    argc: usize,
    row: usize,
    col: usize,
    file: Seq<char>,
) -> Seq<DiagView> {
    match class_named(fi, class) {
        Some(ci) => match first_index(method_names(ci.methods), method) {
            Some(j) => if argc != ci.methods[j].param_count {
                seq![
                    diag(
                        file,
                        row,
                        col,
                        msg_method_arity(method, class, ci.methods[j].param_count as nat, argc as nat),
                        Severity::Error,
                    ),
                ]
            } else {
                Seq::empty()
            },
            None => seq![
                diag(
                    file,
                    row,
                    col,
                    "no method '"@ + method + "' found on class '"@ + class + "'"@,
                    Severity::Error,
                ),
            ],
        },
        None => Seq::empty(),
    }
}

/// The position of the first method named `name`.
fn find_method(methods: &Vec<SeaMethodInfo>, name: &str) -> (r: Option<usize>)
    ensures
        opt_index(r) == first_index(method_names(methods_view(methods@)), name@),
        r matches Some(i) ==> i < methods.len(),
{
    let ghost keys = method_names(methods_view(methods@));
    for j in 0..methods.len()
        invariant
            keys == method_names(methods_view(methods@)),
            forall|k: int| 0 <= k < j ==> #[trigger] keys[k] != name@,
    {
        if methods[j].name.as_str().eq(name) {
            proof {
                assert(keys[j as int] == name@);
                assert(is_first(keys, name@, j as int));
                let c = choose|c: int| is_first(keys, name@, c);
                if c < j {
                    assert(keys[c] != name@);
                } else if c > j {
                    assert(keys[j as int] != name@);
                }
            }
            return Some(j);
        }
    }
    proof {
        if exists|c: int| is_first(keys, name@, c) {
            let c = choose|c: int| is_first(keys, name@, c);
            assert(keys[c] != name@);
        }
    }
    None
}

/// Checks a call of `method_name` with `arg_count` arguments on an object of class
/// `class_name` (`check_method_call`).
pub fn check_method_call(
    class_name: &str,
    method_name: &str,
    arg_count: usize,
    row: usize,
    col: usize,
    file: &str,
    diagnostics: &mut Vec<Diagnostic>,
    file_info: &SeaFileInfo,
)
    ensures
        diags_view(final(diagnostics)@) == diags_view(old(diagnostics)@) + method_call_diags(
            file_info@,
            class_name@,
            method_name@,
            arg_count,
            row,
            col,
            file@,
        ),
{
    let ghost d0 = diags_view(diagnostics@);
    proof {
        assert(pair_keys(file_info.class_info@) =~= view_keys(file_info@.class_info));
    }
    match find_last(&file_info.class_info, class_name) {
        Some(ci) => {
            let info = &file_info.class_info[ci].1;
            let found = find_method(&info.methods, method_name);
            proof {
                assert(file_info@.class_info[ci as int].1 == info@);
            }
            let j = match found {
                Some(j) => j,
                None => info.methods.len(),
            };
            if j < info.methods.len() {
                let expected = info.methods[j].param_count;
                if arg_count != expected {
                    let e = usize_to_decimal(expected);
                    let g = usize_to_decimal(arg_count);
                    let mut m = quote2("method '", method_name, "' on '", class_name, "' expects ");
                    m.append(e.as_str());
                    m.append(" argument(s) but got ");
                    m.append(g.as_str());
                    let d = Diagnostic::new(file, row, col, m, Severity::Error);
                    diagnostics.push(d);
                }
            } else {
                let m = quote2("no method '", method_name, "' found on class '", class_name, "'");
                let d = Diagnostic::new(file, row, col, m, Severity::Error);
                diagnostics.push(d);
            }
        },
        None => {},
    }
    assert(diags_view(diagnostics@) =~= d0 + method_call_diags(
        file_info@,
        class_name@,
        method_name@,
        arg_count,
        row,
        col,
        file@,
    ));
}

} // verus!

verus! {

fn is_kind(n: &SyntaxNode, k: &str) -> (r: bool)
    ensures
        r == kind_is(*n, k@),
{
    n.kind.as_str().eq(k)
}

// ─── Parameters and arguments ────────────────────────────────────────────

pub open spec fn param_pair(c: SyntaxNode) -> Option<(Seq<char>, Seq<char>)> {
    if kind_is(c, "sea_parameter"@) {
        match (field_child(c, "type"@), field_child(c, "name"@)) {
            (Some(t), Some(n)) => Some((t.text@, n.text@)),
            _ => None,
        }
    } else {
        None
    }
}

pub open spec fn param_pair_fn() -> spec_fn(SyntaxNode) -> Option<(Seq<char>, Seq<char>)> {
    |c: SyntaxNode| param_pair(c)
}

/// The (type, name) pairs a method declaration lists as parameters.
pub open spec fn method_params(n: SyntaxNode) -> Seq<(Seq<char>, Seq<char>)> {
    match field_child(n, "parameters"@) {
        Some(p) => p.children@.filter_map(param_pair_fn()),
        None => Seq::empty(),
    }
}

/// The (type, name) pairs a method declaration lists as parameters (`collect_method_params`).
pub fn collect_method_params(n: &SyntaxNode) -> (r: Vec<(String, String)>)
    ensures
        pairs_view(r@) == method_params(*n),
{
    let mut params: Vec<(String, String)> = Vec::new();
    match child_by_field_name(n, "parameters") {
        Some(p) => {
            let ghost kids = p.children@;
            for i in 0..p.children.len()
                invariant
                    kids == p.children@,
                    pairs_view(params@) == kids.take(i as int).filter_map(param_pair_fn()),
            {
                proof {
                    kids.lemma_filter_map_take_succ(param_pair_fn(), i as int);
                }
                let ghost before = pairs_view(params@);
                let c = &p.children[i];
                if is_kind(c, "sea_parameter") {
                    match (child_by_field_name(c, "type"), child_by_field_name(c, "name")) {
                        (Some(t), Some(nn)) => {
                            params.push((copy_string(&t.text), copy_string(&nn.text)));
                            proof {
                                assert(pairs_view(params@) =~= before.push((t.text@, nn.text@)));
                            }
                        },
                        _ => {},
                    }
                }
                proof {
                    assert(kids.take(i + 1).filter_map(param_pair_fn()) =~= pairs_view(params@));
                }
            }
            proof {
                assert(kids.take(kids.len() as int) =~= kids);
            }
        },
        None => {
            proof {
                assert(pairs_view(params@) =~= Seq::<(Seq<char>, Seq<char>)>::empty());
            }
        },
    }
    params
}

pub open spec fn is_arg_token(c: SyntaxNode) -> bool {
    !(kind_is(c, "("@) || kind_is(c, ")"@) || kind_is(c, ","@))
}

pub open spec fn count_args_in(s: Seq<SyntaxNode>) -> nat
    decreases s.len(),
{
    if s.len() == 0 {
        0
    } else {
        count_args_in(s.drop_last()) + if is_arg_token(s.last()) { 1nat } else { 0nat }
    }
}

/// How many arguments a call passes: the children of its argument list other than
/// parentheses and commas.
pub open spec fn arg_count(n: SyntaxNode) -> nat {
    match field_child(n, "arguments"@) {
        Some(a) => count_args_in(a.children@),
        None => 0,
    }
}

/// How many arguments a call passes (`count_call_args`).
pub fn count_call_args(n: &SyntaxNode) -> (r: usize)
    ensures
        r == arg_count(*n),
{
    match child_by_field_name(n, "arguments") {
        Some(a) => {
            let mut c: usize = 0;
            for i in 0..a.children.len()
                invariant
                    c == count_args_in(a.children@.take(i as int)),
                    c <= i,
            {
                proof {
                    assert(a.children@.take(i + 1).drop_last() =~= a.children@.take(i as int));
                }
                let k = &a.children[i];
                if !(is_kind(k, "(") || is_kind(k, ")") || is_kind(k, ",")) {
                    c = c + 1;
                }
            }
            proof {
                assert(a.children@.take(a.children@.len() as int) =~= a.children@);
            }
            c
        },
        None => 0,
    }
}

// ─── Calls of free and of the malloc family somewhere in a body ──────────

pub open spec fn calls_named(c: SyntaxNode, alloc: bool) -> bool {
    kind_is(c, "call_expression"@) && match field_child(c, "function"@) {
        Some(f) => if alloc {
            f.text@ == "malloc"@ || f.text@ == "calloc"@ || f.text@ == "realloc"@
        } else {
            f.text@ == "free"@
        },
        None => false,
    }
}

/// Whether a node below `n` calls `free` (or, with `alloc`, one of the malloc family).
pub open spec fn contains_call(n: SyntaxNode, alloc: bool) -> bool
    decreases n, 1nat,
{
    contains_call_kids(n, n.children@.len() as nat, alloc)
}

pub open spec fn contains_call_kids(n: SyntaxNode, k: nat, alloc: bool) -> bool
    decreases n, 0nat, k,
{
    if k == 0 || k > n.children@.len() {
        false
    } else {
        proof {
            assert(decreases_to!(n => n.children));
        }
        contains_call_kids(n, (k - 1) as nat, alloc) || calls_named(n.children@[k - 1], alloc)
            || contains_call(n.children@[k - 1], alloc)
    }
}

fn calls_named_exec(c: &SyntaxNode, alloc: bool) -> (r: bool)
    ensures
        r == calls_named(*c, alloc),
{
    if !is_kind(c, "call_expression") {
        return false;
    }
    match child_by_field_name(c, "function") {
        Some(f) => if alloc {
            f.text.as_str().eq("malloc") || f.text.as_str().eq("calloc") || f.text.as_str().eq("realloc")
        } else {
            f.text.as_str().eq("free")
        },
        None => false,
    }
}

fn contains_call_exec(n: &SyntaxNode, alloc: bool) -> (r: bool)
    ensures
        r == contains_call(*n, alloc),
    decreases *n,
{
    let len = n.children.len();
    for i in 0..len
        invariant
            len == n.children@.len(),
            !contains_call_kids(*n, i as nat, alloc),
    {
        proof {
            assert(decreases_to!(n.children => n.children@[i as int]));
        }
        if calls_named_exec(&n.children[i], alloc) || contains_call_exec(&n.children[i], alloc) {
            proof {
                assert(contains_call_kids(*n, (i + 1) as nat, alloc));
                lemma_contains_kids_mono(*n, (i + 1) as nat, len as nat, alloc);
            }
            return true;
        }
    }
    false
}

proof fn lemma_contains_kids_mono(n: SyntaxNode, j: nat, k: nat, alloc: bool)
    requires
        j <= k <= n.children@.len(),
        contains_call_kids(n, j, alloc),
    ensures
        contains_call_kids(n, k, alloc),
    decreases k - j,
{
    if j < k {
        lemma_contains_kids_mono(n, j, (k - 1) as nat, alloc);
    }
}

/// Whether a node below `n` calls `free` (`body_contains_free`).
pub fn body_contains_free(n: &SyntaxNode) -> (r: bool)
    ensures
        r == contains_call(*n, false),
{
    contains_call_exec(n, false)
}

/// Whether a node below `n` calls `malloc`, `calloc` or `realloc` (`body_contains_malloc`).
pub fn body_contains_malloc(n: &SyntaxNode) -> (r: bool)
    ensures
        r == contains_call(*n, true),
{
    contains_call_exec(n, true)
}

} // verus!

verus! {

// ─── Interfaces ───────────────────────────────────────────────────────────

pub open spec fn ident_text(c: SyntaxNode) -> Option<Seq<char>> {
    if kind_is(c, "identifier"@) {
        Some(c.text@)
    } else {
        None
    }
}

pub open spec fn ident_text_fn() -> spec_fn(SyntaxNode) -> Option<Seq<char>> {
    |c: SyntaxNode| ident_text(c)
}

pub open spec fn class_method_name(m: SyntaxNode) -> Option<Seq<char>> {
    if kind_is(m, "method_declaration"@) {
        match first_child(m) {
            Some(mn) => match field_child(mn, "name"@) {
                Some(nn) => Some(nn.text@),
                None => None,
            },
            None => None,
        }
    } else {
        None
    }
}

pub open spec fn class_method_name_fn() -> spec_fn(SyntaxNode) -> Option<Seq<char>> {
    |m: SyntaxNode| class_method_name(m)
}

pub type Interfaces = Seq<(Seq<char>, Seq<Seq<char>>)>;

pub open spec fn ifaces_view(v: Seq<(String, Vec<String>)>) -> Interfaces {
    v.map_values(|p: (String, Vec<String>)| (p.0@, names_view(p.1@)))
}

pub open spec fn iface_lookup(ifaces: Interfaces, k: Seq<char>) -> Option<Seq<Seq<char>>> {
    match last_index(view_keys(ifaces), k) {
        Some(i) => Some(ifaces[i].1),
        None => None,
    }
}

pub open spec fn missing_diag(
    cls: Seq<char>,
    iname: Seq<char>,
    methods: Seq<Seq<char>>,
    file: Seq<char>,
    row: usize,
    col: usize,
    m: Seq<char>,
) -> Option<DiagView> {
    if methods.contains(m) {
        None
    } else {
        Some(
            diag(
                file,
                row,
                col,
                "class '"@ + cls + "' implements '"@ + iname + "' but is missing method '"@ + m + "'"@,
                Severity::Error,
            ),
        )
    }
}

pub open spec fn missing_fn(
    cls: Seq<char>,
    iname: Seq<char>,
    methods: Seq<Seq<char>>,
    file: Seq<char>,
    row: usize,
    col: usize,
) -> spec_fn(Seq<char>) -> Option<DiagView> {
    |m: Seq<char>| missing_diag(cls, iname, methods, file, row, col, m)
}

/// What a class claiming interface `iname` reports: each required method it lacks, or the
/// interface being unknown.
pub open spec fn iface_diags(
    ifaces: Interfaces,
    cls: Seq<char>,
    methods: Seq<Seq<char>>,
    file: Seq<char>,
    row: usize,
    col: usize,
    iname: Seq<char>,
) -> Seq<DiagView> {
    match iface_lookup(ifaces, iname) {
        Some(req) => req.filter_map(missing_fn(cls, iname, methods, file, row, col)),
        None => seq![
            diag(
                file,
                row,
                col,
                "class '"@ + cls + "' implements unknown interface '"@ + iname + "'"@,
                Severity::Error,
            ),
        ],
    }
}

pub open spec fn ifaces_diags(
    names: Seq<Seq<char>>,
    k: nat,
    ifaces: Interfaces,
    cls: Seq<char>,
    methods: Seq<Seq<char>>,
    file: Seq<char>,
    row: usize,
    col: usize,
) -> Seq<DiagView>
    decreases k,
{
    if k == 0 || k > names.len() {
        Seq::empty()
    } else {
        ifaces_diags(names, (k - 1) as nat, ifaces, cls, methods, file, row, col) + iface_diags(
            ifaces,
            cls,
            methods,
            file,
            row,
            col,
            names[k - 1],
        )
    }
}

/// What `check_class_interfaces` reports of a class declaration, at the class's position.
pub open spec fn class_interface_diags(node: SyntaxNode, file: Seq<char>, ifaces: Interfaces) -> Seq<
    DiagView,
> {
    match field_child(node, "name"@) {
        Some(nn) => match field_child(node, "implements"@) {
            Some(im) => {
                let names = im.children@.filter_map(ident_text_fn());
                ifaces_diags(
                    names,
                    names.len(),
                    ifaces,
                    nn.text@,
                    node.children@.filter_map(class_method_name_fn()),
                    file,
                    node.start_line,
                    node.start_col,
                )
            },
            None => Seq::empty(),
        },
        None => Seq::empty(),
    }
}

fn texts_of(n: &SyntaxNode, methods: bool) -> (r: Vec<String>)
    ensures
        names_view(r@) == if methods {
            n.children@.filter_map(class_method_name_fn())
        } else {
            n.children@.filter_map(ident_text_fn())
        },
{
    let ghost f = if methods { class_method_name_fn() } else { ident_text_fn() };
    let mut v: Vec<String> = Vec::new();
    let ghost kids = n.children@;
    for i in 0..n.children.len()
        invariant
            kids == n.children@,
            f == if methods { class_method_name_fn() } else { ident_text_fn() },
            names_view(v@) == kids.take(i as int).filter_map(f),
    {
        proof {
            kids.lemma_filter_map_take_succ(f, i as int);
        }
        let ghost before = names_view(v@);
        let c = &n.children[i];
        if methods {
            if is_kind(c, "method_declaration") {
                match first_child_of(c) {
                    Some(mn) => match child_by_field_name(mn, "name") {
                        Some(nn) => {
                            v.push(copy_string(&nn.text));
                            proof {
                                assert(names_view(v@) =~= before.push(nn.text@));
                            }
                        },
                        None => {},
                    },
                    None => {},
                }
            }
        } else if is_kind(c, "identifier") {
            v.push(copy_string(&c.text));
            proof {
                assert(names_view(v@) =~= before.push(c.text@));
            }
        }
        proof {
            assert(kids.take(i + 1).filter_map(f) =~= names_view(v@));
        }
    }
    proof {
        assert(kids.take(kids.len() as int) =~= kids);
    }
    v
}

/// Reports the interfaces a class names that are unknown, and the methods they require that
/// the class lacks (`check_class_interfaces`).
pub fn check_class_interfaces(
    node: &SyntaxNode,
    file: &str,
    diagnostics: &mut Vec<Diagnostic>,
    interface_methods: &Vec<(String, Vec<String>)>,
)
    requires
        field_child(*node, "name"@) is Some,
    ensures
        diags_view(final(diagnostics)@) == diags_view(old(diagnostics)@) + class_interface_diags(
            *node,
            file@,
            ifaces_view(interface_methods@),
        ),
{
    let ghost d0 = diags_view(diagnostics@);
    let ghost ifaces = ifaces_view(interface_methods@);
    let name_node = child_by_field_name(node, "name").unwrap();
    let class_name = name_node.text.as_str();
    let row = node.start_line;
    let col = node.start_col;
    let implements = match child_by_field_name(node, "implements") {
        Some(im) => im,
        None => {
            return ;
        },
    };
    let interface_names = texts_of(implements, false);
    let class_methods = texts_of(node, true);
    let ghost names = names_view(interface_names@);
    let ghost cm = names_view(class_methods@);
    proof {
        assert(pair_keys(interface_methods@) =~= view_keys(ifaces));
    }
    for k in 0..interface_names.len()
        invariant
            names == names_view(interface_names@),
            cm == names_view(class_methods@),
            ifaces == ifaces_view(interface_methods@),
            pair_keys(interface_methods@) == view_keys(ifaces),
            diags_view(diagnostics@) == d0 + ifaces_diags(names, k as nat, ifaces, class_name@, cm, file@, row, col),
    {
        let iname = interface_names[k].as_str();
        let ghost dk = diags_view(diagnostics@);
        match find_last(interface_methods, iname) {
            Some(ii) => {
                let required = &interface_methods[ii].1;
                let ghost req = names_view(required@);
                proof {
                    assert(ifaces[ii as int].1 == req);
                    assert(iface_lookup(ifaces, iname@) == Some(req));
                }
                for j in 0..required.len()
                    invariant
                        req == names_view(required@),
                        cm == names_view(class_methods@),
                        diags_view(diagnostics@) == dk + req.take(j as int).filter_map(
                            missing_fn(class_name@, iname@, cm, file@, row, col),
                        ),
                {
                    proof {
                        req.lemma_filter_map_take_succ(missing_fn(class_name@, iname@, cm, file@, row, col), j as int);
                    }
                    let m = required[j].as_str();
                    let ghost before = diags_view(diagnostics@);
                    if !crate::sea_info::contains_name(&class_methods, m) {
                        let mut msg = quote2("class '", class_name, "' implements '", iname, "' but is missing method '");
                        msg.append(m);
                        msg.append("'");
                        let d = Diagnostic::new(file, row, col, msg, Severity::Error);
                        diagnostics.push(d);
                        proof {
                            assert(diags_view(diagnostics@) =~= before.push(d@));
                        }
                    }
                    proof {
                        assert(req.take(j + 1).filter_map(missing_fn(class_name@, iname@, cm, file@, row, col)) =~= req.take(j as int).filter_map(missing_fn(class_name@, iname@, cm, file@, row, col)) + opt_seq(missing_diag(class_name@, iname@, cm, file@, row, col, req[j as int])));
                        assert(diags_view(diagnostics@) =~= dk + req.take(j + 1).filter_map(
                            missing_fn(class_name@, iname@, cm, file@, row, col),
                        ));
                    }
                }
                proof {
                    assert(req.take(req.len() as int) =~= req);
                }
            },
            None => {
                let msg = quote2("class '", class_name, "' implements unknown interface '", iname, "'");
                let d = Diagnostic::new(file, row, col, msg, Severity::Error);
                diagnostics.push(d);
                proof {
                    assert(diags_view(diagnostics@) =~= dk.push(d@));
                }
            },
        }
        proof {
            assert(diags_view(diagnostics@) =~= d0 + ifaces_diags(names, (k + 1) as nat, ifaces, class_name@, cm, file@, row, col));
        }
    }
}

} // verus!

verus! {

// ─── Class rules ──────────────────────────────────────────────────────────

pub open spec fn inherit_diags(node: SyntaxNode, cls: Seq<char>, fi: FileInfoView, file: Seq<char>) -> Seq<
    DiagView,
> {
    match field_child(node, "inherit"@) {
        Some(inh) => match field_child(inh, "parent"@) {
            Some(p) => if class_named(fi, p.text@) is None {
                seq![
                    diag(
                        file,
                        node.start_line,
                        node.start_col,
                        "class '"@ + cls + "' inherits unknown class '"@ + p.text@ + "'"@,
                        Severity::Error,
                    ),
                ]
            } else {
                Seq::empty()
            },
            None => Seq::empty(),
        },
        None => Seq::empty(),
    }
}

/// What one member reports: a `drop()` that never frees, or a C-style method.
pub open spec fn member_diag(c: SyntaxNode, cls: Seq<char>, file: Seq<char>) -> Option<DiagView> {
    if kind_is(c, "drop_declaration"@) {
        match field_child(c, "body"@) {
            Some(b) => if !contains_call(b, false) {
                Some(
                    diag(
                        file,
                        c.start_line,
                        c.start_col,
                        quoted(
                            "class '"@,
                            cls,
                            "' has drop() but never calls free() — possible memory leak"@,
                        ),
                        Severity::Warning,
                    ),
                )
            } else {
                None
            },
            None => None,
        }
    } else if kind_is(c, "method_declaration"@) {
        match first_child(c) {
            Some(mn) => if kind_is(mn, "c_style_method"@) {
                match (field_child(mn, "name"@), field_child(mn, "return_type"@)) {
                    (Some(nn), Some(tt)) => Some(
                        diag(
                            file,
                            c.start_line,
                            c.start_col,
                            "C style method '"@ + nn.text@ + "' detected — use Sea style: "@ + nn.text@
                                + "() -> "@ + tt.text@,
                            Severity::Warning,
                        ),
                    ),
                    _ => None,
                }
            } else {
                None
            },
            None => None,
        }
    } else {
        None
    }
}

pub open spec fn member_diag_fn(cls: Seq<char>, file: Seq<char>) -> spec_fn(SyntaxNode) -> Option<DiagView> {
    |c: SyntaxNode| member_diag(c, cls, file)
}

pub open spec fn init_mallocs(c: SyntaxNode) -> bool {
    kind_is(c, "init_declaration"@) && match field_child(c, "body"@) {
        Some(b) => contains_call(b, true),
        None => false,
    }
}

/// The position of the last constructor among the first `k` members that allocates.
pub open spec fn malloc_pos(node: SyntaxNode, k: nat) -> Option<(usize, usize)>
    decreases k,
{
    if k == 0 || k > node.children@.len() {
        None
    } else if init_mallocs(node.children@[k - 1]) {
        Some((node.children@[k - 1].start_line, node.children@[k - 1].start_col))
    } else {
        malloc_pos(node, (k - 1) as nat)
    }
}

pub open spec fn has_member(node: SyntaxNode, k: Seq<char>) -> bool {
    exists|i: int| 0 <= i < node.children@.len() && kind_is(#[trigger] node.children@[i], k)
}

/// What `check_class` reports of a class declaration: an unknown parent, members' findings,
/// a missing or repeated constructor, and an allocating constructor without `drop()`.
pub open spec fn class_diags(node: SyntaxNode, file: Seq<char>, fi: FileInfoView) -> Seq<DiagView> {
    match field_child(node, "name"@) {
        Some(nn) => {
            let cls = nn.text@;
            let row = node.start_line;
            let col = node.start_col;
            inherit_diags(node, cls, fi, file) + node.children@.filter_map(member_diag_fn(cls, file))
                + (if !has_member(node, "init_declaration"@) {
                seq![
                    diag(
                        file,
                        row,
                        col,
                        quoted("class '"@, cls, "' has no constructor — add an 'init()' method"@),
                        Severity::Error,
                    ),
                ]
            } else {
                Seq::empty()
            }) + (if crate::sea_info::kinds_count(node.children@, "init_declaration"@) > 1 {
                seq![
                    diag(
                        file,
                        row,
                        col,
                        quoted(
                            "class '"@,
                            cls,
                            "' has multiple constructors — Sea does not support constructor overloading"@,
                        ),
                        Severity::Error,
                    ),
                ]
            } else {
                Seq::empty()
            }) + match malloc_pos(node, node.children@.len() as nat) {
                Some(p) => if !has_member(node, "drop_declaration"@) {
                    seq![
                        diag(
                            file,
                            p.0,
                            p.1,
                            quoted(
                                "class '"@,
                                cls,
                                "' uses malloc in constructor but has no drop() method"@,
                            ),
                            Severity::Error,
                        ),
                    ]
                } else {
                    Seq::empty()
                },
                None => Seq::empty(),
            }
        },
        None => Seq::empty(),
    }
}

/// Checks the rules on a class declaration (`check_class`).
#[verifier::rlimit(50)]
#[verifier::spinoff_prover]
pub fn check_class(
    node: &SyntaxNode,
    file: &str,
    diagnostics: &mut Vec<Diagnostic>,
    file_info: &SeaFileInfo,
)
    requires
        crate::sea_info::class_shaped(*node),
    ensures
        diags_view(final(diagnostics)@) == diags_view(old(diagnostics)@) + class_diags(
            *node,
            file@,
            file_info@,
        ),
{
    let ghost d0 = diags_view(diagnostics@);
    let name_node = child_by_field_name(node, "name").unwrap();
    let class_name = name_node.text.as_str();
    let ghost cls = class_name@;
    proof {
        assert(pair_keys(file_info.class_info@) =~= view_keys(file_info@.class_info));
    }
    match child_by_field_name(node, "inherit") {
        Some(inh) => match child_by_field_name(inh, "parent") {
            Some(p) => {
                if find_last(&file_info.class_info, p.text.as_str()).is_none() {
                    let msg = quote2("class '", class_name, "' inherits unknown class '", p.text.as_str(), "'");
                    diagnostics.push(Diagnostic::new(file, node.start_line, node.start_col, msg, Severity::Error));
                }
            },
            None => {},
        },
        None => {},
    }
    let ghost d1 = diags_view(diagnostics@);
    proof {
        assert(d1 =~= d0 + inherit_diags(*node, cls, file_info@, file@));
    }
    let mut has_malloc = false;
    let mut has_drop = false;
    let mut has_constructor = false;
    let mut malloc_row: usize = 0;
    let mut malloc_col: usize = 0;
    let mut constructor_count: usize = 0;
    let ghost kids = node.children@;
    let n = node.children.len();
    for i in 0..n
        invariant
            n == kids.len(),
            kids == node.children@,
            crate::sea_info::class_shaped(*node),
            cls == class_name@,
            has_constructor == exists|j: int| 0 <= j < i && kind_is(#[trigger] kids[j], "init_declaration"@),
            has_drop == exists|j: int| 0 <= j < i && kind_is(#[trigger] kids[j], "drop_declaration"@),
            constructor_count == crate::sea_info::kinds_count(kids.take(i as int), "init_declaration"@),
            constructor_count <= i,
            has_malloc == malloc_pos(*node, i as nat) is Some,
            has_malloc ==> malloc_pos(*node, i as nat) == Some((malloc_row, malloc_col)),
            diags_view(diagnostics@) == d1 + kids.take(i as int).filter_map(member_diag_fn(cls, file@)),
    {
        proof {
            kids.lemma_filter_map_take_succ(member_diag_fn(cls, file@), i as int);
            assert(kids.take(i + 1).drop_last() =~= kids.take(i as int));
            reveal_strlit("init_declaration");
            reveal_strlit("drop_declaration");
            reveal_strlit("method_declaration");
            assert("init_declaration"@[0] != "drop_declaration"@[0]);
            assert("init_declaration"@[0] != "method_declaration"@[0]);
            assert("drop_declaration"@[0] != "method_declaration"@[0]);
        }
        let child = &node.children[i];
        let ghost before = diags_view(diagnostics@);
        if is_kind(child, "init_declaration") {
            has_constructor = true;
            constructor_count = constructor_count + 1;
            match child_by_field_name(child, "body") {
                Some(body) => {
                    if body_contains_malloc(body) {
                        has_malloc = true;
                        malloc_row = child.start_line;
                        malloc_col = child.start_col;
                    }
                },
                None => {},
            }
        } else if is_kind(child, "drop_declaration") {
            has_drop = true;
            match child_by_field_name(child, "body") {
                Some(body) => {
                    if !body_contains_free(body) {
                        let msg = quote(
                            "class '",
                            class_name,
                            "' has drop() but never calls free() — possible memory leak",
                        );
                        let d = Diagnostic::new(file, child.start_line, child.start_col, msg, Severity::Warning);
                        diagnostics.push(d);
                        proof {
                            assert(diags_view(diagnostics@) =~= before.push(d@));
                        }
                    }
                },
                None => {},
            }
        } else if is_kind(child, "method_declaration") {
            proof {
                assert(crate::sea_info::member_shaped(kids[i as int]));
            }
            let mn = first_child_of(child).unwrap();
            if is_kind(mn, "c_style_method") {
                let nn = child_by_field_name(mn, "name").unwrap();
                let tt = child_by_field_name(mn, "return_type").unwrap();
                let mut msg = quote2("C style method '", nn.text.as_str(), "' detected — use Sea style: ", nn.text.as_str(), "() -> ");
                msg.append(tt.text.as_str());
                let d = Diagnostic::new(file, child.start_line, child.start_col, msg, Severity::Warning);
                diagnostics.push(d);
                proof {
                    assert(diags_view(diagnostics@) =~= before.push(d@));
                }
            }
        }
        proof {
            assert(kids.take(i + 1).filter_map(member_diag_fn(cls, file@)) =~= kids.take(i as int).filter_map(member_diag_fn(cls, file@)) + opt_seq(member_diag(kids[i as int], cls, file@)));
            assert(diags_view(diagnostics@) =~= d1 + kids.take(i + 1).filter_map(member_diag_fn(cls, file@)));
        }
    }
    proof {
        assert(kids.take(n as int) =~= kids);
    }
    let ghost d2 = diags_view(diagnostics@);
    proof {
        assert(has_constructor == has_member(*node, "init_declaration"@));
        assert(has_drop == has_member(*node, "drop_declaration"@));
    }
    let row = node.start_line;
    let col = node.start_col;
    if !has_constructor {
        let msg = quote("class '", class_name, "' has no constructor — add an 'init()' method");
        let d = Diagnostic::new(file, row, col, msg, Severity::Error);
        diagnostics.push(d);
        proof {
            assert(diags_view(diagnostics@) =~= d2.push(d@));
        }
    }
    let ghost d3 = diags_view(diagnostics@);
    if constructor_count > 1 {
        let msg = quote(
            "class '",
            class_name,
            "' has multiple constructors — Sea does not support constructor overloading",
        );
        let d = Diagnostic::new(file, row, col, msg, Severity::Error);
        diagnostics.push(d);
        proof {
            assert(diags_view(diagnostics@) =~= d3.push(d@));
        }
    }
    let ghost d4 = diags_view(diagnostics@);
    if has_malloc && !has_drop {
        let msg = quote("class '", class_name, "' uses malloc in constructor but has no drop() method");
        let d = Diagnostic::new(file, malloc_row, malloc_col, msg, Severity::Error);
        diagnostics.push(d);
        proof {
            assert(diags_view(diagnostics@) =~= d4.push(d@));
        }
    }
    proof {
        assert(diags_view(diagnostics@) =~= d0 + class_diags(*node, file@, file_info@));
    }
}

} // verus!

verus! {

// ─── Method bodies ────────────────────────────────────────────────────────

pub open spec fn is_first_kind(n: SyntaxNode, k: Seq<char>, i: int) -> bool {
    &&& 0 <= i < n.children@.len()
    &&& kind_is(n.children@[i], k)
    &&& forall|j: int| 0 <= j < i ==> !kind_is(#[trigger] n.children@[j], k)
}

/// The first child of kind `k`.
pub open spec fn first_of_kind(n: SyntaxNode, k: Seq<char>) -> Option<SyntaxNode> {
    if exists|i: int| is_first_kind(n, k, i) {
        Some(n.children@[choose|i: int| is_first_kind(n, k, i)])
    } else {
        None
    }
}

fn first_child_of_kind<'a>(n: &'a SyntaxNode, k: &str) -> (r: Option<&'a SyntaxNode>)
    ensures
        match r {
            Some(c) => first_of_kind(*n, k@) == Some(*c),
            None => first_of_kind(*n, k@) is None,
        },
{
    for i in 0..n.children.len()
        invariant
            forall|j: int| 0 <= j < i ==> !kind_is(#[trigger] n.children@[j], k@),
    {
        if is_kind(&n.children[i], k) {
            proof {
                assert(is_first_kind(*n, k@, i as int));
                let c = choose|c: int| is_first_kind(*n, k@, c);
                if c < i {
                    assert(!kind_is(n.children@[c], k@));
                } else if c > i {
                    assert(!kind_is(n.children@[i as int], k@));
                }
            }
            return Some(&n.children[i]);
        }
    }
    proof {
        if exists|c: int| is_first_kind(*n, k@, c) {
            let c = choose|c: int| is_first_kind(*n, k@, c);
            assert(!kind_is(n.children@[c], k@));
        }
    }
    None
}

/// The type a declaration names: its `type` field, or its first type identifier.
pub open spec fn decl_type(c: SyntaxNode) -> Option<Seq<char>> {
    match field_child(c, "type"@) {
        Some(t) => Some(t.text@),
        None => match first_of_kind(c, "type_identifier"@) {
            Some(t) => Some(t.text@),
            None => None,
        },
    }
}

/// The variable a declaration declares: the declarator of its first init declarator, or
/// (without one) its first identifier.
pub open spec fn decl_var(c: SyntaxNode) -> Option<Seq<char>> {
    match first_of_kind(c, "init_declarator"@) {
        Some(id) => match field_child(id, "declarator"@) {
            Some(dn) => Some(dn.text@),
            None => None,
        },
        None => match first_of_kind(c, "identifier"@) {
            Some(dn) => Some(dn.text@),
            None => None,
        },
    }
}

/// The class an object expression refers to inside a method of `cls` (empty outside one).
pub open spec fn resolve(obj: Seq<char>, cls: Seq<char>, s: ScopeView) -> Option<Seq<char>> {
    if obj == "this"@ {
        if cls.len() == 0 {
            None
        } else {
            Some(cls)
        }
    } else {
        type_of(s, obj)
    }
}

/// What a call `obj.method(..)` reports: a check of the method on a known class, or an
/// undefined object.
pub open spec fn call_diags(c: SyntaxNode, cls: Seq<char>, file: Seq<char>, fi: FileInfoView, s: ScopeView) -> Seq<
    DiagView,
> {
    match field_child(c, "function"@) {
        Some(f) => if kind_is(f, "field_expression"@) {
            match (field_child(f, "argument"@), field_child(f, "field"@)) {
                (Some(obj), Some(m)) => match resolve(obj.text@, cls, s) {
                    Some(t) => if class_named(fi, t) is Some {
                        method_call_diags(fi, t, m.text@, arg_count(c) as usize, c.start_line, c.start_col, file)
                    } else {
                        Seq::empty()
                    },
                    None => if obj.text@ != "this"@ {
                        seq![
                            diag(
                                file,
                                c.start_line,
                                c.start_col,
                                quoted("undefined variable '"@, obj.text@, "'"@),
                                Severity::Error,
                            ),
                        ]
                    } else {
                        Seq::empty()
                    },
                },
                _ => Seq::empty(),
            }
        } else {
            Seq::empty()
        },
        None => Seq::empty(),
    }
}

/// What checking one child of a body reports, and the scope after it.
pub open spec fn check_child(c: SyntaxNode, cls: Seq<char>, file: Seq<char>, fi: FileInfoView, s: ScopeView) -> (
    Seq<DiagView>,
    ScopeView,
)
    decreases c, 2nat, 0nat,
{
    let len = c.children@.len() as nat;
    proof {
        assert(decreases_to!(c => c.children));
    }
    if kind_is(c, "{"@) || kind_is(c, "}"@) {
        (Seq::empty(), s)
    } else if kind_is(c, "declaration"@) {
        match decl_type(c) {
            Some(t) => {
                let d1 = if !is_primitive_name(t) && !s.classes.contains(t) {
                    seq![
                        diag(
                            file,
                            c.start_line,
                            c.start_col,
                            quoted("unknown type '"@, t, "'"@),
                            Severity::Error,
                        ),
                    ]
                } else {
                    Seq::empty()
                };
                let s1 = match decl_var(c) {
                    Some(v) => declare(s, v, t),
                    None => s,
                };
                let r = check_kids(c, len, cls, file, fi, s1);
                (d1 + r.0, r.1)
            },
            None => check_kids(c, len, cls, file, fi, s),
        }
    } else if kind_is(c, "call_expression"@) {
        let d1 = call_diags(c, cls, file, fi, s);
        let r = check_kids(c, len, cls, file, fi, s);
        (d1 + r.0, r.1)
    } else if kind_is(c, "assignment_expression"@) {
        match crate::syntax::field_index(c, "right"@) {
            Some(i) => if 0 <= i < len {
                let rhs = c.children@[i];
                check_kids(rhs, rhs.children@.len() as nat, cls, file, fi, s)
            } else {
                (Seq::empty(), s)
            },
            None => (Seq::empty(), s),
        }
    } else if kind_is(c, "new_expression"@) {
        match field_child(c, "type"@) {
            Some(tn) => if !s.classes.contains(tn.text@) && !is_primitive_name(tn.text@) {
                (
                    seq![
                        diag(
                            file,
                            c.start_line,
                            c.start_col,
                            quoted("unknown class '"@, tn.text@, "'"@),
                            Severity::Error,
                        ),
                    ],
                    s,
                )
            } else {
                (
                    method_call_diags(fi, tn.text@, "init"@, arg_count(c) as usize, c.start_line, c.start_col, file),
                    s,
                )
            },
            None => (Seq::empty(), s),
        }
    } else {
        check_kids(c, len, cls, file, fi, s)
    }
}

/// What checking the first `k` children of `n` in order reports, and the scope after them.
pub open spec fn check_kids(
    n: SyntaxNode,
    k: nat,
    cls: Seq<char>,
    file: Seq<char>,
    fi: FileInfoView,
    s: ScopeView,
) -> (Seq<DiagView>, ScopeView)
    decreases n, 1nat, k,
{
    if k == 0 || k > n.children@.len() {
        (Seq::empty(), s)
    } else {
        proof {
            assert(decreases_to!(n => n.children));
        }
        let r = check_kids(n, (k - 1) as nat, cls, file, fi, s);
        let t = check_child(n.children@[k - 1], cls, file, fi, r.1);
        (r.0 + t.0, t.1)
    }
}

/// Checks the children of `node` in order: declared types, method calls on objects, and
/// constructions with `new` (`check_body_node`).
pub fn check_body_node(
    node: &SyntaxNode,
    class_name: &str,
    file: &str,
    diagnostics: &mut Vec<Diagnostic>,
    file_info: &SeaFileInfo,
    scope: &mut Scope,
)
    ensures
        diags_view(final(diagnostics)@) == diags_view(old(diagnostics)@) + check_kids(
            *node,
            node.children@.len() as nat,
            class_name@,
            file@,
            file_info@,
            old(scope)@,
        ).0,
        final(scope)@ == check_kids(
            *node,
            node.children@.len() as nat,
            class_name@,
            file@,
            file_info@,
            old(scope)@,
        ).1,
    decreases *node,
{
    let ghost d0 = diags_view(diagnostics@);
    let ghost s0 = scope@;
    let ghost cls = class_name@;
    let ghost fi = file_info@;
    let len = node.children.len();
    proof {
        assert(pair_keys(file_info.class_info@) =~= view_keys(file_info@.class_info));
    }
    for i in 0..len
        invariant
            len == node.children@.len(),
            cls == class_name@,
            fi == file_info@,
            pair_keys(file_info.class_info@) == view_keys(fi.class_info),
            diags_view(diagnostics@) == d0 + check_kids(*node, i as nat, cls, file@, fi, s0).0,
            scope@ == check_kids(*node, i as nat, cls, file@, fi, s0).1,
    {
        let child = &node.children[i];
        proof {
            assert(decreases_to!(node.children => node.children@[i as int]));
        }
        let ghost db = diags_view(diagnostics@);
        let ghost sb = scope@;
        let ghost t = check_child(*child, cls, file@, fi, sb);
        if is_kind(child, "{") || is_kind(child, "}") {
        } else if is_kind(child, "declaration") {
            let ty = match child_by_field_name(child, "type") {
                Some(tn) => Some(tn),
                None => first_child_of_kind(child, "type_identifier"),
            };
            match ty {
                Some(tn) => {
                    let t_text = tn.text.as_str();
                    if !is_primitive(t_text) && !scope.is_known_class(t_text) {
                        let msg = quote("unknown type '", t_text, "'");
                        let d = Diagnostic::new(file, child.start_line, child.start_col, msg, Severity::Error);
                        diagnostics.push(d);
                        proof {
                            assert(diags_view(diagnostics@) =~= db.push(d@));
                        }
                    }
                    let ghost dm = diags_view(diagnostics@);
                    match first_child_of_kind(child, "init_declarator") {
                        Some(id) => match child_by_field_name(id, "declarator") {
                            Some(dn) => scope.declare(copy_string(&dn.text), copy_string(&tn.text)),
                            None => {},
                        },
                        None => match first_child_of_kind(child, "identifier") {
                            Some(dn) => scope.declare(copy_string(&dn.text), copy_string(&tn.text)),
                            None => {},
                        },
                    }
                    check_body_node(child, class_name, file, diagnostics, file_info, scope);
                    proof {
                        assert(diags_view(diagnostics@) =~= db + t.0);
                    }
                },
                None => {
                    check_body_node(child, class_name, file, diagnostics, file_info, scope);
                },
            }
        } else if is_kind(child, "call_expression") {
            match child_by_field_name(child, "function") {
                Some(func) => {
                    if is_kind(func, "field_expression") {
                        match (child_by_field_name(func, "argument"), child_by_field_name(func, "field")) {
                            (Some(obj), Some(method)) => {
                                let obj_text = obj.text.as_str();
                                let resolved: Option<&str> = if obj_text.eq("this") {
                                    if class_name.is_empty() {
                                        None
                                    } else {
                                        Some(class_name)
                                    }
                                } else {
                                    match scope.get_type(obj_text) {
                                        Some(t) => Some(t.as_str()),
                                        None => None,
                                    }
                                };
                                match resolved {
                                    Some(type_nm) => {
                                        if find_last(&file_info.class_info, type_nm).is_some() {
                                            let arg_count = count_call_args(child);
                                            check_method_call(
                                                type_nm,
                                                method.text.as_str(),
                                                arg_count,
                                                child.start_line,
                                                child.start_col,
                                                file,
                                                diagnostics,
                                                file_info,
                                            );
                                        }
                                    },
                                    None => {
                                        if !obj_text.eq("this") {
                                            let msg = quote("undefined variable '", obj_text, "'");
                                            let d = Diagnostic::new(
                                                file,
                                                child.start_line,
                                                child.start_col,
                                                msg,
                                                Severity::Error,
                                            );
                                            diagnostics.push(d);
                                            proof {
                                                assert(diags_view(diagnostics@) =~= db.push(d@));
                                            }
                                        }
                                    },
                                }
                            },
                            _ => {},
                        }
                    }
                },
                None => {},
            }
            proof {
                assert(diags_view(diagnostics@) =~= db + call_diags(*child, cls, file@, fi, sb));
            }
            check_body_node(child, class_name, file, diagnostics, file_info, scope);
        } else if is_kind(child, "assignment_expression") {
            match crate::syntax::child_index_by_field(child, "right") {
                Some(ri) => {
                    proof {
                        assert(decreases_to!(child.children => child.children@[ri as int]));
                    }
                    check_body_node(&child.children[ri], class_name, file, diagnostics, file_info, scope);
                },
                None => {},
            }
        } else if is_kind(child, "new_expression") {
            match child_by_field_name(child, "type") {
                Some(tn) => {
                    let t_text = tn.text.as_str();
                    if !scope.is_known_class(t_text) && !is_primitive(t_text) {
                        let msg = quote("unknown class '", t_text, "'");
                        let d = Diagnostic::new(file, child.start_line, child.start_col, msg, Severity::Error);
                        diagnostics.push(d);
                        proof {
                            assert(diags_view(diagnostics@) =~= db.push(d@));
                        }
                    } else {
                        let arg_count = count_call_args(child);
                        check_method_call(
                            t_text,
                            "init",
                            arg_count,
                            child.start_line,
                            child.start_col,
                            file,
                            diagnostics,
                            file_info,
                        );
                    }
                },
                None => {},
            }
        } else {
            check_body_node(child, class_name, file, diagnostics, file_info, scope);
        }
        proof {
            assert(diags_view(diagnostics@) =~= db + t.0);
            assert(scope@ == t.1);
            assert(diags_view(diagnostics@) =~= d0 + check_kids(*node, (i + 1) as nat, cls, file@, fi, s0).0);
        }
    }
}


/// Each field of a class, in scope with the type name `field`.
pub open spec fn field_pair(f: Seq<char>) -> (Seq<char>, Seq<char>) {
    (f, "field"@)
}

pub open spec fn field_pair_fn() -> spec_fn(Seq<char>) -> (Seq<char>, Seq<char>) {
    |f: Seq<char>| field_pair(f)
}

/// The scope a method body of `cls` starts with: its parameters, then the fields of the
/// class, so that `this.field` lookups resolve.
pub open spec fn method_scope(fi: FileInfoView, cls: Seq<char>, params: Seq<(Seq<char>, Seq<char>)>) -> ScopeView {
    let s = scope_start(fi, params);
    match class_named(fi, cls) {
        Some(ci) => ScopeView { locals: s.locals + ci.field_names.map_values(field_pair_fn()), ..s },
        None => s,
    }
}

/// Checks a method body of `class_name` (empty for `main`) whose parameters are `params`,
/// given as (type, name) pairs.
pub fn check_method_body(
    body: &SyntaxNode,
    class_name: &str,
    file: &str,
    diagnostics: &mut Vec<Diagnostic>,
    file_info: &SeaFileInfo,
    params: Vec<(String, String)>,
)
    ensures
        diags_view(final(diagnostics)@) == diags_view(old(diagnostics)@) + check_kids(
            *body,
            body.children@.len() as nat,
            class_name@,
            file@,
            file_info@,
            method_scope(file_info@, class_name@, pairs_view(params@)),
        ).0,
{
    let mut scope = Scope::new(file_info, &params);
    let ghost s0 = scope@;
    proof {
        assert(pair_keys(file_info.class_info@) =~= view_keys(file_info@.class_info));
    }
    match find_last(&file_info.class_info, class_name) {
        Some(ci) => {
            let fields = &file_info.class_info[ci].1.field_names;
            let ghost fv = names_view(fields@);
            for j in 0..fields.len()
                invariant
                    fv == names_view(fields@),
                    scope@ == (ScopeView { locals: s0.locals + fv.take(j as int).map_values(field_pair_fn()), ..s0 }),
            {
                let ghost before = scope@;
                scope.declare(copy_string(&fields[j]), "field".to_string());
                proof {
                    reveal_strlit("field");
                    assert(fv.take(j + 1).map_values(field_pair_fn()) =~= fv.take(j as int).map_values(
                        field_pair_fn(),
                    ).push(field_pair(fv[j as int])));
                    assert(scope@.locals =~= s0.locals + fv.take(j + 1).map_values(field_pair_fn()));
                }
            }
            proof {
                assert(fv.take(fields.len() as int) =~= fv);
                assert(file_info@.class_info[ci as int].1.field_names == fv);
            }
        },
        None => {},
    }
    check_body_node(body, class_name, file, diagnostics, file_info, &mut scope);
}

} // verus!

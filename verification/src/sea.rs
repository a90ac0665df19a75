use vstd::prelude::*;
use vstd::string::*;
use crate::diagnostics::{DiagView, Diagnostic, diags_view};
use crate::lowering::{build_cfg, cfg_of, kind_is};
use crate::sea_checks::{
    check_class, check_class_interfaces, check_kids, check_method_body, class_diags, class_interface_diags,
    collect_method_params, ifaces_view, method_params, method_scope, pairs_view,
};
use crate::sea_info::{
    FileInfoView, SeaFileInfo, class_named, class_shaped, classes_shaped, collect_file_info, find_last, file_info_of,
    imports_shaped, member_shaped, names_view, pair_keys, top_shaped, view_keys,
};
use crate::syntax::{
    SyntaxNode, child_by_field_name, field_child, field_index, first_child, first_child_of, lemma_child_size,
    lemma_sizes_mono, lemma_view_size, size, sizes, tree_view, view_size,
};
use crate::graph::{Cfg, cfg_blocks, cfg_wf, graph_view};
use crate::ts::{c_syntax, parse_c, texts_within};
use crate::worklist::{analysis_of, run_analysis};

verus! {

/// Which checks a file gets: C sources get the ownership analysis, Sea sources the ownership
/// analysis and the rules of the Sea language.
#[derive(Clone, Copy, PartialEq, Eq, Structural, Debug)]
pub enum CheckMode {
    C,
    Sea,
}

/// The mode a file's extension selects: `sea` for Sea, anything else for C.
pub open spec fn mode_of_extension(ext: Seq<char>) -> CheckMode {
    if ext == "sea"@ {
        CheckMode::Sea
    } else {
        CheckMode::C
    }
}

pub fn mode_for_extension(ext: &str) -> (r: CheckMode)
    ensures
        r == mode_of_extension(ext@),
{
    if ext.eq("sea") {
        CheckMode::Sea
    } else {
        CheckMode::C
    }
}

// ─── Source text ─────────────────────────────────────────────────────────

/// `s` with every `\r\n` replaced by `\n`, scanning from the front.
pub open spec fn without_crlf(s: Seq<char>) -> Seq<char>
    decreases s.len(),
{
    if s.len() < 2 {
        s
    } else if s[0] == '\r' && s[1] == '\n' {
        seq!['\n'] + without_crlf(s.skip(2))
    } else {
        seq![s[0]] + without_crlf(s.skip(1))
    }
}

/// `str::replace(s, "\r\n", "\n")`: std documents that it copies `s`, replacing each match
/// of the pattern, found from the front without overlap, by the replacement; that is
/// `without_crlf`.
#[verifier::external_body]
pub fn normalize_newlines(s: &str) -> (r: String)
    ensures
        r@ == without_crlf(s@),
{
    s.replace("\r\n", "\n")
}

/// `s` without the double quotes at its start.
pub open spec fn trim_front_quotes(s: Seq<char>) -> Seq<char>
    decreases s.len(),
{
    if s.len() > 0 && s[0] == '"' {
        trim_front_quotes(s.drop_first())
    } else {
        s
    }
}

/// `s` without the double quotes at its end.
pub open spec fn trim_back_quotes(s: Seq<char>) -> Seq<char>
    decreases s.len(),
{
    if s.len() > 0 && s.last() == '"' {
        trim_back_quotes(s.drop_last())
    } else {
        s
    }
}

/// `s` without the double quotes around it (`trim_matches('"')`).
pub open spec fn trim_quotes(s: Seq<char>) -> Seq<char> {
    trim_back_quotes(trim_front_quotes(s))
}

proof fn lemma_trim_front(s: Seq<char>, i: int)
    requires
        0 <= i <= s.len(),
        forall|j: int| 0 <= j < i ==> s[j] == '"',
    ensures
        trim_front_quotes(s) == trim_front_quotes(s.skip(i)),
    decreases i,
{
    if i > 0 {
        assert(s[0] == '"');
        assert(s.drop_first().skip(i - 1) =~= s.skip(i));
        assert forall|j: int| 0 <= j < i - 1 implies s.drop_first()[j] == '"' by {
            assert(s.drop_first()[j] == s[j + 1]);
        }
        lemma_trim_front(s.drop_first(), i - 1);
    } else {
        assert(s.skip(0) =~= s);
    }
}

proof fn lemma_trim_back(s: Seq<char>, i: int)
    requires
        0 <= i <= s.len(),
        forall|j: int| i <= j < s.len() ==> s[j] == '"',
    ensures
        trim_back_quotes(s) == trim_back_quotes(s.take(i)),
    decreases s.len() - i,
{
    if i < s.len() {
        assert(s.drop_last().take(i) =~= s.take(i));
        lemma_trim_back(s.drop_last(), i);
    } else {
        assert(s.take(i) =~= s);
    }
}

/// The text of `s` inside its surrounding double quotes.
pub fn trim_double_quotes(s: &str) -> (r: String)
    ensures
        r@ == trim_quotes(s@),
{
    let len = s.unicode_len();
    let mut lo: usize = 0;
    while lo < len && s.get_char(lo) == '"'
        invariant
            len == s@.len(),
            lo <= len,
            forall|j: int| 0 <= j < lo ==> s@[j] == '"',
        decreases len - lo,
    {
        lo = lo + 1;
    }
    let mut hi: usize = len;
    while hi > lo && s.get_char(hi - 1) == '"'
        invariant
            len == s@.len(),
            lo <= hi <= len,
            forall|j: int| hi <= j < len ==> s@[j] == '"',
        decreases hi,
    {
        hi = hi - 1;
    }
    proof {
        lemma_trim_front(s@, lo as int);
        let t = s@.skip(lo as int);
        if lo < len {
            assert(t[0] == s@[lo as int]);
        }
        assert(trim_front_quotes(t) == t);
        lemma_trim_back(t, hi - lo);
        let u = t.take(hi - lo);
        if hi > lo {
            assert(u.last() == s@[hi - 1]);
        }
        assert(trim_back_quotes(u) == u);
        assert(u =~= s@.subrange(lo as int, hi as int));
    }
    s.substring_char(lo, hi).to_string()
}

// ─── Shapes ─────────────────────────────────────────────────────────────

fn is_kind(n: &SyntaxNode, k: &str) -> (r: bool)
    ensures
        r == kind_is(*n, k@),
{
    n.kind.as_str().eq(k)
}

fn is_member_shaped(m: &SyntaxNode) -> (r: bool)
    ensures
        r == member_shaped(*m),
{
    if !is_kind(m, "method_declaration") {
        return true;
    }
    match first_child_of(m) {
        Some(mn) => !is_kind(mn, "c_style_method") || (child_by_field_name(mn, "name").is_some()
            && child_by_field_name(mn, "return_type").is_some()),
        None => false,
    }
}

fn is_class_shaped(c: &SyntaxNode) -> (r: bool)
    ensures
        r == class_shaped(*c),
{
    if child_by_field_name(c, "name").is_none() {
        return false;
    }
    for i in 0..c.children.len()
        invariant
            forall|j: int| 0 <= j < i ==> member_shaped(#[trigger] c.children@[j]),
    {
        if !is_member_shaped(&c.children[i]) {
            return false;
        }
    }
    true
}

/// Whether the class declarations of a Sea file carry what the checks read of them.
pub fn is_classes_shaped(root: &SyntaxNode) -> (r: bool)
    ensures
        r == classes_shaped(*root),
{
    for i in 0..root.children.len()
        invariant
            forall|j: int|
                0 <= j < i ==> (kind_is(#[trigger] root.children@[j], "class_declaration"@) ==> class_shaped(
                    root.children@[j],
                )),
    {
        let c = &root.children[i];
        if is_kind(c, "class_declaration") && !is_class_shaped(c) {
            return false;
        }
    }
    true
}

/// Whether the top level of a Sea file carries what the checks read of it.
pub fn is_top_shaped(root: &SyntaxNode) -> (r: bool)
    ensures
        r == top_shaped(*root),
{
    if !is_classes_shaped(root) {
        return false;
    }
    for i in 0..root.children.len()
        invariant
            forall|j: int|
                0 <= j < i ==> (kind_is(#[trigger] root.children@[j], "interface_declaration"@)
                    ==> field_child(root.children@[j], "name"@) is Some),
            forall|j: int|
                0 <= j < i ==> (kind_is(#[trigger] root.children@[j], "import_declaration"@)
                    ==> field_child(root.children@[j], "path"@) is Some),
    {
        let c = &root.children[i];
        if is_kind(c, "interface_declaration") && child_by_field_name(c, "name").is_none() {
            return false;
        }
        if is_kind(c, "import_declaration") && child_by_field_name(c, "path").is_none() {
            return false;
        }
    }
    true
}

/// The size of a tree, when it is at most `limit`.
pub fn size_within(n: &SyntaxNode, limit: usize) -> (r: Option<usize>)
    ensures
        match r {
            Some(k) => k == size(*n) && k <= limit,
            None => size(*n) > limit,
        },
    decreases *n,
{
    if limit == 0 {
        return None;
    }
    let len = n.children.len();
    let mut total: usize = 1;
    for i in 0..len
        invariant
            len == n.children@.len(),
            total == 1 + sizes(*n, i as nat),
            total <= limit,
    {
        proof {
            assert(decreases_to!(n.children => n.children@[i as int]));
            assert(sizes(*n, (i + 1) as nat) == sizes(*n, i as nat) + size(n.children@[i as int]));
        }
        match size_within(&n.children[i], limit - total) {
            Some(k) => {
                total = total + k;
            },
            None => {
                proof {
                    lemma_sizes_mono(*n, (i + 1) as nat, len as nat);
                }
                return None;
            },
        }
    }
    Some(total)
}

} // verus!

verus! {

// ─── What a file reports ─────────────────────────────────────────────────

/// A tree small enough for the control flow graph of any part of it to be numbered.
pub open spec fn tree_fits(t: SyntaxNode) -> bool {
    8 * size(t) + 1 < u32::MAX
}

/// What the ownership analysis reports on the control flow graph of `n`.
pub open spec fn ownership_diags(n: SyntaxNode, file: Seq<char>, drop: bool) -> Seq<DiagView> {
    analysis_of(cfg_of(n), file, drop)
}

/// What a declaration with a body reports: the ownership analysis of the body, then the
/// checks of the body in the scope of the parameters (and the class's fields).
pub open spec fn body_diags(
    m: SyntaxNode,
    cls: Seq<char>,
    file: Seq<char>,
    fi: FileInfoView,
    drop: bool,
    params: Seq<(Seq<char>, Seq<char>)>,
) -> Seq<DiagView> {
    match field_child(m, "body"@) {
        Some(b) => ownership_diags(b, file, drop) + check_kids(
            b,
            b.children@.len() as nat,
            cls,
            file,
            fi,
            method_scope(fi, cls, params),
        ).0,
        None => Seq::empty(),
    }
}

/// What one member of class `cls` reports: its constructor, methods and drop have bodies.
pub open spec fn member_diags(m: SyntaxNode, cls: Seq<char>, file: Seq<char>, fi: FileInfoView, drop: bool) -> Seq<
    DiagView,
> {
    if kind_is(m, "init_declaration"@) {
        body_diags(m, cls, file, fi, drop, method_params(m))
    } else if kind_is(m, "method_declaration"@) {
        match first_child(m) {
            Some(mn) => body_diags(mn, cls, file, fi, drop, method_params(mn)),
            None => Seq::empty(),
        }
    } else if kind_is(m, "drop_declaration"@) {
        body_diags(m, cls, file, fi, drop, Seq::empty())
    } else {
        Seq::empty()
    }
}

/// What the first `k` members of class declaration `c` report.
pub open spec fn members_diags(
    c: SyntaxNode,
    k: nat,
    cls: Seq<char>,
    file: Seq<char>,
    fi: FileInfoView,
    drop: bool,
) -> Seq<DiagView>
    decreases k,
{
    if k == 0 || k > c.children@.len() {
        Seq::empty()
    } else {
        members_diags(c, (k - 1) as nat, cls, file, fi, drop) + member_diags(c.children@[k - 1], cls, file, fi, drop)
    }
}

/// Whether the class the file knows as `cls` has a drop method.
pub open spec fn class_has_drop(fi: FileInfoView, cls: Seq<char>) -> bool {
    match class_named(fi, cls) {
        Some(ci) => ci.has_drop,
        None => false,
    }
}

/// What a class declaration reports: its members, then the class rules, then its interfaces.
pub open spec fn class_decl_diags(c: SyntaxNode, file: Seq<char>, fi: FileInfoView) -> Seq<DiagView> {
    let cls = match field_child(c, "name"@) {
        Some(nn) => nn.text@,
        None => Seq::empty(),
    };
    members_diags(c, c.children@.len() as nat, cls, file, fi, class_has_drop(fi, cls)) + class_diags(c, file, fi)
        + class_interface_diags(c, file, fi.interface_methods)
}

/// What one top-level declaration of a Sea file reports.
pub open spec fn top_level_diags(c: SyntaxNode, file: Seq<char>, fi: FileInfoView) -> Seq<DiagView> {
    if kind_is(c, "class_declaration"@) {
        class_decl_diags(c, file, fi)
    } else if kind_is(c, "main_declaration"@) {
        ownership_diags(c, file, false) + match field_child(c, "body"@) {
            Some(b) => check_kids(
                b,
                b.children@.len() as nat,
                ""@,
                file,
                fi,
                method_scope(fi, ""@, Seq::empty()),
            ).0,
            None => Seq::empty(),
        }
    } else {
        ownership_diags(c, file, false)
    }
}

/// What the first `k` top-level declarations of a Sea file report.
pub open spec fn sea_prefix(root: SyntaxNode, k: nat, file: Seq<char>, fi: FileInfoView) -> Seq<DiagView>
    decreases k,
{
    if k == 0 || k > root.children@.len() {
        Seq::empty()
    } else {
        sea_prefix(root, (k - 1) as nat, file, fi) + top_level_diags(root.children@[k - 1], file, fi)
    }
}

/// What a file reports, given the trees of the files its imports name.
pub open spec fn file_diags(tree: SyntaxNode, mode: CheckMode, file: Seq<char>, imports: Seq<Option<SyntaxNode>>) -> Seq<
    DiagView,
> {
    match mode {
        CheckMode::Sea => sea_prefix(tree, tree.children@.len() as nat, file, file_info_of(tree, imports)),
        CheckMode::C => ownership_diags(tree, file, false),
    }
}

/// The path an import declaration names, without its quotes.
pub open spec fn import_path(c: SyntaxNode) -> Option<Seq<char>> {
    if kind_is(c, "import_declaration"@) {
        match field_child(c, "path"@) {
            Some(p) => Some(trim_quotes(p.text@)),
            None => None,
        }
    } else {
        None
    }
}

pub open spec fn import_path_fn() -> spec_fn(SyntaxNode) -> Option<Seq<char>> {
    |c: SyntaxNode| import_path(c)
}

/// The paths a file's imports name, in order.
pub open spec fn import_paths_of(tree: SyntaxNode) -> Seq<Seq<char>> {
    tree.children@.filter_map(import_path_fn())
}

proof fn lemma_field_size(n: SyntaxNode, f: Seq<char>)
    ensures
        field_child(n, f) matches Some(c) ==> size(c) < size(n),
{
    if let Some(i) = field_index(n, f) {
        lemma_child_size(n, i);
    }
}

// ─── Running the checks ──────────────────────────────────────────────────

fn ownership(n: &SyntaxNode, file: &str, drop: bool, out: &mut Vec<Diagnostic>)
    requires
        tree_fits(*n),
    ensures
        diags_view(final(out)@) == diags_view(old(out)@) + ownership_diags(*n, file@, drop),
{
    let cfg = build_cfg(n);
    let mut d = run_analysis(&cfg, file, drop);
    let ghost o = out@;
    let ghost dd = d@;
    out.append(&mut d);
    proof {
        assert(diags_view(out@) =~= diags_view(o) + diags_view(dd));
    }
}

fn analyze_body(
    m: &SyntaxNode,
    cls: &str,
    file: &str,
    fi: &SeaFileInfo,
    drop: bool,
    params: Vec<(String, String)>,
    out: &mut Vec<Diagnostic>,
)
    requires
        tree_fits(*m),
    ensures
        diags_view(final(out)@) == diags_view(old(out)@) + body_diags(*m, cls@, file@, fi@, drop, pairs_view(params@)),
{
    match child_by_field_name(m, "body") {
        Some(b) => {
            proof {
                lemma_field_size(*m, "body"@);
            }
            let ghost o = diags_view(out@);
            ownership(b, file, drop, out);
            check_method_body(b, cls, file, out, fi, params);
        },
        None => {},
    }
}

fn analyze_class(c: &SyntaxNode, file: &str, fi: &SeaFileInfo, out: &mut Vec<Diagnostic>)
    requires
        tree_fits(*c),
        class_shaped(*c),
    ensures
        diags_view(final(out)@) == diags_view(old(out)@) + class_decl_diags(*c, file@, fi@),
{
    let ghost o = diags_view(out@);
    let nn = child_by_field_name(c, "name").unwrap();
    let cls = nn.text.as_str();
    proof {
        assert(pair_keys(fi.class_info@) =~= view_keys(fi@.class_info));
    }
    let drop = match find_last(&fi.class_info, cls) {
        Some(i) => fi.class_info[i].1.has_drop,
        None => false,
    };
    let len = c.children.len();
    for i in 0..len
        invariant
            len == c.children@.len(),
            tree_fits(*c),
            class_shaped(*c),
            cls@ == nn.text@,
            drop == class_has_drop(fi@, cls@),
            diags_view(out@) == o + members_diags(*c, i as nat, cls@, file@, fi@, drop),
    {
        let m = &c.children[i];
        let ghost before = diags_view(out@);
        proof {
            lemma_child_size(*c, i as int);
            assert(member_shaped(c.children@[i as int]));
        }
        if is_kind(m, "init_declaration") {
            let params = collect_method_params(m);
            analyze_body(m, cls, file, fi, drop, params, out);
        } else if is_kind(m, "method_declaration") {
            match first_child_of(m) {
                Some(mn) => {
                    proof {
                        lemma_child_size(*m, 0);
                    }
                    let params = collect_method_params(mn);
                    analyze_body(mn, cls, file, fi, drop, params, out);
                },
                None => {},
            }
        } else if is_kind(m, "drop_declaration") {
            let params: Vec<(String, String)> = Vec::new();
            proof {
                assert(pairs_view(params@) =~= Seq::<(Seq<char>, Seq<char>)>::empty());
            }
            analyze_body(m, cls, file, fi, drop, params, out);
        }
        proof {
            assert(diags_view(out@) =~= before + member_diags(*m, cls@, file@, fi@, drop));
            assert(diags_view(out@) =~= o + members_diags(*c, (i + 1) as nat, cls@, file@, fi@, drop));
        }
    }
    let ghost dm = diags_view(out@);
    check_class(c, file, out, fi);
    proof {
        assert(ifaces_view(fi.interface_methods@) =~= fi@.interface_methods);
    }
    check_class_interfaces(c, file, out, &fi.interface_methods);
    proof {
        assert(diags_view(out@) =~= o + class_decl_diags(*c, file@, fi@));
    }
}

} // verus!

verus! {

// ─── The analyzer ────────────────────────────────────────────────────────

/// Why a source could not be turned into an analyzer.
#[derive(Clone, Copy, PartialEq, Eq, Structural, Debug)]
pub enum SeaError {
    /// The Sea grammar is not linked into this library: parse Sea sources with it, convert the
    /// tree with `ts::syntax_tree` and hand it to `Sea::from_tree`.
    NoSeaGrammar,
    /// The tree has too many nodes for its control flow graphs to be numbered.
    TooLarge,
}

/// A parsed source file and the checks it gets.
pub struct Sea {
    source: String,
    tree: SyntaxNode,
    mode: CheckMode,
}

pub struct SeaView {
    pub source: Seq<char>,
    pub tree: SyntaxNode,
    pub mode: CheckMode,
}

impl View for Sea {
    type V = SeaView;

    closed spec fn view(&self) -> SeaView {
        SeaView { source: self.source@, tree: self.tree, mode: self.mode }
    }
}

/// A tree the checks can run on: small enough, and for Sea well shaped.
pub open spec fn valid_tree(tree: SyntaxNode, mode: CheckMode) -> bool {
    &&& tree_fits(tree)
    &&& mode == CheckMode::Sea ==> top_shaped(tree)
}

/// How many nodes a tree may have.
pub const MAX_NODES: usize = 536870911;

impl Sea {
    #[verifier::type_invariant]
    closed spec fn inv(self) -> bool {
        valid_tree(self.tree, self.mode)
    }

    /// An analyzer for `tree`, parsed from `source`; `None` when the checks cannot run on it.
    pub fn from_tree(source: &str, tree: SyntaxNode, mode: CheckMode) -> (r: Option<Sea>)
        ensures
            r is Some <==> valid_tree(tree, mode),
            r matches Some(s) ==> s@ == (SeaView { source: source@, tree, mode }),
    {
        match size_within(&tree, MAX_NODES) {
            Some(_) => {},
            None => {
                return None;
            },
        }
        match mode {
            CheckMode::Sea => {
                if !is_top_shaped(&tree) {
                    return None;
                }
            },
            CheckMode::C => {},
        }
        Some(Sea { source: String::from_str(source), tree, mode })
    }

    /// An analyzer for a source file with the given extension (`new`): line endings are
    /// normalised to `\n`, the mode follows the extension, and C sources are parsed with the
    /// C grammar, which gives a tree for every text; only a tree too large to number fails.
    pub fn new(source: &str, extension: &str) -> (r: Result<Sea, SeaError>)
        ensures
            mode_of_extension(extension@) == CheckMode::Sea ==> r == Err::<Sea, SeaError>(SeaError::NoSeaGrammar),
            mode_of_extension(extension@) == CheckMode::C ==> match r {
                Ok(s) => s@.source == without_crlf(source@) && s@.mode == CheckMode::C && tree_view(s@.tree)
                    == c_syntax(without_crlf(source@)) && texts_within(s@.tree, without_crlf(source@)),
                Err(e) => e == SeaError::TooLarge,
            },
            mode_of_extension(extension@) == CheckMode::C ==> (r is Ok <==> 8 * view_size(
                c_syntax(without_crlf(source@)),
            ) + 1 < u32::MAX),
    {
        let mode = mode_for_extension(extension);
        match mode {
            CheckMode::Sea => Err(SeaError::NoSeaGrammar),
            CheckMode::C => {
                let text = normalize_newlines(source);
                let t = parse_c(text.as_str()).unwrap();
                proof {
                    lemma_view_size(t);
                }
                match Sea::from_tree(text.as_str(), t, CheckMode::C) {
                    Some(s) => Ok(s),
                    None => Err(SeaError::TooLarge),
                }
            },
        }
    }

    pub fn mode(&self) -> (r: CheckMode)
        ensures
            r == self@.mode,
    {
        self.mode
    }

    pub fn source(&self) -> (r: &str)
        ensures
            r@ == self@.source,
    {
        self.source.as_str()
    }

    /// The paths the imports of the file name, without quotes and in order; in a Sea file the
    /// `k`-th path belongs to the `k`-th import.
    pub fn import_paths(&self) -> (r: Vec<String>)
        ensures
            names_view(r@) == import_paths_of(self@.tree),
    {
        let kids = &self.tree.children;
        let ghost ks = kids@;
        let mut v: Vec<String> = Vec::new();
        for i in 0..kids.len()
            invariant
                ks == kids@,
                ks == self@.tree.children@,
                names_view(v@) == ks.take(i as int).filter_map(import_path_fn()),
        {
            proof {
                ks.lemma_filter_map_take_succ(import_path_fn(), i as int);
            }
            let ghost before = names_view(v@);
            let c = &kids[i];
            if is_kind(c, "import_declaration") {
                match child_by_field_name(c, "path") {
                    Some(p) => {
                        v.push(trim_double_quotes(p.text.as_str()));
                        proof {
                            assert(names_view(v@) =~= before.push(trim_quotes(p.text@)));
                        }
                    },
                    None => {},
                }
            }
            proof {
                assert(ks.take(i + 1).filter_map(import_path_fn()) =~= names_view(v@));
            }
        }
        proof {
            assert(ks.take(ks.len() as int) =~= ks);
        }
        v
    }

    /// Runs the checks of the file's mode (`analyze`). `imports[k]` is the tree of the file
    /// the `k`-th import names, when it could be read and parsed.
    pub fn analyze(&self, file: &str, imports: &Vec<Option<SyntaxNode>>) -> (r: Vec<Diagnostic>)
        requires
            imports_shaped(imports@),
        ensures
            diags_view(r@) == file_diags(self@.tree, self@.mode, file@, imports@),
    {
        proof {
            use_type_invariant(self);
        }
        let root = &self.tree;
        let len = root.children.len();
        let mut out: Vec<Diagnostic> = Vec::new();
        match self.mode {
            CheckMode::Sea => {
                let fi = collect_file_info(root, imports);
                for i in 0..len
                    invariant
                        len == root.children@.len(),
                        tree_fits(*root),
                        top_shaped(*root),
                        fi@ == file_info_of(*root, imports@),
                        diags_view(out@) == sea_prefix(*root, i as nat, file@, fi@),
                {
                    let c = &root.children[i];
                    let ghost before = diags_view(out@);
                    proof {
                        lemma_child_size(*root, i as int);
                    }
                    if is_kind(c, "class_declaration") {
                        proof {
                            assert(classes_shaped(*root));
                            assert(class_shaped(root.children@[i as int]));
                        }
                        analyze_class(c, file, &fi, &mut out);
                    } else if is_kind(c, "main_declaration") {
                        ownership(c, file, false, &mut out);
                        match child_by_field_name(c, "body") {
                            Some(b) => {
                                let params: Vec<(String, String)> = Vec::new();
                                proof {
                                    assert(pairs_view(params@) =~= Seq::<(Seq<char>, Seq<char>)>::empty());
                                }
                                check_method_body(b, "", file, &mut out, &fi, params);
                            },
                            None => {},
                        }
                    } else {
                        ownership(c, file, false, &mut out);
                    }
                    proof {
                        assert(diags_view(out@) =~= before + top_level_diags(*c, file@, fi@));
                    }
                }
            },
            CheckMode::C => {
                ownership(root, file, false, &mut out);
            },
        }
        out
    }

    /// The ownership analysis of one control flow graph (`analyze_cfg`).
    pub fn analyze_cfg(&self, cfg: &Cfg, file: &str, class_has_drop: bool) -> (r: Vec<Diagnostic>)
        requires
            cfg_wf(*cfg),
            cfg_blocks(*cfg).len() > 0,
        ensures
            diags_view(r@) == analysis_of(graph_view(*cfg), file@, class_has_drop),
    {
        run_analysis(cfg, file, class_has_drop)
    }
}

} // verus!

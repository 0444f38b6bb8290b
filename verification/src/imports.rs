//! Relative import synthesis between two generated-module addresses, and
//! per-file import deduplication.

use vstd::prelude::*;
use crate::ast::{
    File, ImportDeclaration, ImportSpecifier, Identifier, Statement, StringLiteral,
};
use crate::errors::CompileError;
use crate::paths::{TsPath, TsCompV, first_decl_index, ts_path_view, ts_name, is_decl_v};

verus! {

/// The length of the longest common prefix of `a` and `b`, both already
/// agreeing before index `i`.
pub open spec fn common_prefix_len_from(a: Seq<TsCompV>, b: Seq<TsCompV>, i: int) -> int
    decreases a.len() - i,
{
    if i < 0 || i >= a.len() || i >= b.len() {
        i
    } else if a[i] == b[i] {
        common_prefix_len_from(a, b, i + 1)
    } else {
        i
    }
}

/// The length of the longest common prefix of `a` and `b`.
pub open spec fn common_prefix_len(a: Seq<TsCompV>, b: Seq<TsCompV>) -> int {
    common_prefix_len_from(a, b, 0)
}

/// The index of the first non-folder segment at or after `from`, or the
/// length if folders run to the end.
pub open spec fn folder_run_end(s: Seq<TsCompV>, from: int) -> int
    decreases s.len() - from,
{
    if from < 0 || from >= s.len() {
        s.len() as int
    } else if s[from] is Folder {
        folder_run_end(s, from + 1)
    } else {
        from
    }
}

/// `"."` followed by `/name` for every segment of `to` in `k..upto`.
pub open spec fn dot_join(to: Seq<TsCompV>, k: int, upto: int) -> Seq<char>
    decreases upto - k,
{
    if upto <= k {
        "."@
    } else {
        dot_join(to, k, upto - 1) + "/"@ + ts_name(to[upto - 1])
    }
}

/// `"../"` repeated `n` times.
pub open spec fn ups(n: int) -> Seq<char>
    decreases n,
{
    if n <= 0 {
        Seq::empty()
    } else {
        ups(n - 1) + "../"@
    }
}

/// `name/` for every segment of `to` in `k..upto`.
pub open spec fn folders_join(to: Seq<TsCompV>, k: int, upto: int) -> Seq<char>
    decreases upto - k,
{
    if upto <= k {
        Seq::empty()
    } else {
        folders_join(to, k, upto - 1) + ts_name(to[upto - 1]) + "/"@
    }
}

/// A relative import can be synthesized from `from` to `to`: after the
/// common prefix is stripped neither side is empty, the target ends in a
/// declaration segment, and on the folder-to-folder route the target side
/// reaches a file segment. A violation of this is an upstream bug — most
/// often an unfiltered same-file self-reference.
pub open spec fn rel_import_valid(from: Seq<TsCompV>, to: Seq<TsCompV>) -> bool {
    let k = common_prefix_len(from, to);
    &&& to.len() > 0
    &&& is_decl_v(to.last())
    &&& k < from.len()
    &&& k < to.len()
    &&& (from[k] is File || (folder_run_end(to, k) < to.len() && to[folder_run_end(to, k)] is File))
}

/// The module specifier of the synthesized import: `./` into a sibling file
/// when the source diverges at its file segment, otherwise `../` per
/// remaining source folder, then the target folders, then the target file.
pub open spec fn rel_specifier(from: Seq<TsCompV>, to: Seq<TsCompV>) -> Seq<char> {
    let k = common_prefix_len(from, to);
    if from[k] is File {
        dot_join(to, k, first_decl_index(to, k))
    } else {
        ups(folder_run_end(from, k) - k) + folders_join(to, k, folder_run_end(to, k)) + ts_name(
            to[folder_run_end(to, k)],
        )
    }
}

/// The imported symbol: the name of the target's trailing declaration.
pub open spec fn rel_symbol(to: Seq<TsCompV>) -> Seq<char> {
    ts_name(to.last())
}

/// Unrolling of the common-prefix search over a stretch of equal segments.
proof fn lemma_common_prefix_step(a: Seq<TsCompV>, b: Seq<TsCompV>, from: int, i: int)
    requires
        0 <= from <= i,
        i <= a.len() || i <= b.len(),
        forall|j: int| from <= j < i ==> a[j] == b[j],
        i <= a.len(),
        i <= b.len(),
    ensures
        common_prefix_len_from(a, b, from) == common_prefix_len_from(a, b, i),
    decreases i - from,
{
    if from < i {
        lemma_common_prefix_step(a, b, from + 1, i);
    }
}

/// Unrolling of the folder-run search over a stretch of folders.
proof fn lemma_folder_run_step(s: Seq<TsCompV>, from: int, i: int)
    requires
        0 <= from <= i <= s.len(),
        forall|j: int| from <= j < i ==> s[j] is Folder,
    ensures
        folder_run_end(s, from) == folder_run_end(s, i),
    decreases i - from,
{
    if from < i {
        lemma_folder_run_step(s, from + 1, i);
    }
}

/// Unrolling of the first-declaration search over non-declarations.
proof fn lemma_decl_index_step(s: Seq<TsCompV>, from: int, i: int)
    requires
        0 <= from <= i <= s.len(),
        forall|j: int| from <= j < i ==> !is_decl_v(s[j]),
    ensures
        first_decl_index(s, from) == first_decl_index(s, i),
    decreases i - from,
{
    if from < i {
        lemma_decl_index_step(s, from + 1, i);
    }
}

/// The common-prefix length lies between `i` and both lengths, the sides
/// agree before it and differ at it.
pub proof fn lemma_cpl_props(a: Seq<TsCompV>, b: Seq<TsCompV>, i: int)
    requires
        0 <= i <= a.len(),
        i <= b.len(),
    ensures
        ({
            let k = common_prefix_len_from(a, b, i);
            &&& i <= k <= a.len()
            &&& k <= b.len()
            &&& (forall|j: int| i <= j < k ==> a[j] == b[j])
            &&& (k < a.len() && k < b.len() ==> a[k] != b[k])
        }),
    decreases a.len() - i,
{
    if i < a.len() && i < b.len() && a[i] == b[i] {
        lemma_cpl_props(a, b, i + 1);
    }
}

/// A well-shaped source address (folders, then its file) and a well-shaped
/// target address (folders, then its file, then one declaration) that do
/// not name the same file always admit a relative import.
pub proof fn lemma_distinct_files_import_valid(from: Seq<TsCompV>, to: Seq<TsCompV>)
    requires
        from.len() >= 1,
        forall|i: int| 0 <= i < from.len() - 1 ==> (#[trigger] from[i]) is Folder,
        from[from.len() - 1] is File,
        to.len() >= 2,
        forall|i: int| 0 <= i < to.len() - 2 ==> (#[trigger] to[i]) is Folder,
        to[to.len() - 2] is File,
        is_decl_v(to[to.len() - 1]),
        to.take(to.len() - 1) != from,
    ensures
        rel_import_valid(from, to),
        first_decl_index(to, 0) == to.len() - 1,
{
    lemma_decl_index_step(to, 0, to.len() - 1);
    lemma_cpl_props(from, to, 0);
    let k = common_prefix_len(from, to);
    if k == from.len() {
        // The whole source is a common prefix: its file segment stands at
        // the target's file position, so the two name the same file.
        assert(from[from.len() - 1] == to[from.len() - 1]);
        assert(to[from.len() - 1] is File);
        assert(from.len() - 1 == to.len() - 2);
        assert(to.take(to.len() - 1) =~= from);
        assert(false);
    }
    assert(k < from.len());
    if k == to.len() {
        assert(from[to.len() - 1] == to[to.len() - 1]);
        assert(false);
    }
    if k == to.len() - 1 {
        // The source would have its file segment strictly inside itself.
        assert(from[to.len() - 2] == to[to.len() - 2]);
        assert(to.len() - 2 == from.len() - 1);
        assert(false);
    }
    assert(k <= to.len() - 2);
    if !(from[k] is File) {
        lemma_folder_run_step(to, k, to.len() - 2);
        assert(folder_run_end(to, k) == to.len() - 2);
    }
}

/// Unrolling of the first-declaration search, for callers outside this
/// module: if no segment in `from..i` is a declaration, the search from
/// `from` equals the search from `i`.
pub proof fn lemma_decl_index_public(s: Seq<TsCompV>, from: int, i: int)
    requires
        0 <= from <= i <= s.len(),
        forall|j: int| from <= j < i ==> !is_decl_v(s[j]),
    ensures
        first_decl_index(s, from) == first_decl_index(s, i),
{
    lemma_decl_index_step(s, from, i);
}

/// Synthesize the minimal relative import between two generated-module
/// addresses: `from` is the address of the importing file, `to` the address
/// of the imported declaration. A pair for which no well-formed import
/// exists — in particular a reference into the importing file itself, which
/// the caller must have filtered out — is an internal contract violation.
pub fn get_relative_import(from: &TsPath, to: &TsPath) -> (r: Result<
    ImportDeclaration,
    CompileError,
>)
    ensures
        match r {
            Ok(d) => {
                &&& rel_import_valid(ts_path_view(*from), ts_path_view(*to))
                &&& d.string_literal.text@ == rel_specifier(ts_path_view(*from), ts_path_view(*to))
                &&& d.import_clause.name is None
                &&& (d.import_clause.named_bindings matches Some(bs) && bs@.len() == 1
                    && bs@[0].name.text@ == rel_symbol(ts_path_view(*to)) && bs@[0].property_name
                    is None)
            },
            Err(e) => !rel_import_valid(ts_path_view(*from), ts_path_view(*to)) && e is Internal,
        },
{
    let ghost fv = ts_path_view(*from);
    let ghost tv = ts_path_view(*to);
    if to.path.len() == 0 {
        return Err(
            CompileError::Internal {
                detail: "an import was requested of an empty target path".to_owned(),
            },
        );
    }
    if !to.path[to.path.len() - 1].is_declaration() {
        return Err(
            CompileError::Internal {
                detail: "an import was requested of a target that is no declaration".to_owned(),
            },
        );
    }
    let mut k: usize = 0;
    while k < from.path.len() && k < to.path.len() && from.path[k].eq_component(&to.path[k])
        invariant
            k <= fv.len(),
            k <= tv.len(),
            fv == ts_path_view(*from),
            tv == ts_path_view(*to),
            forall|j: int| 0 <= j < k ==> fv[j] == tv[j],
        decreases fv.len() - k,
    {
        k = k + 1;
    }
    proof {
        lemma_common_prefix_step(fv, tv, 0, k as int);
        assert(common_prefix_len(fv, tv) == k as int);
    }
    if k >= from.path.len() || k >= to.path.len() {
        return Err(
            CompileError::Internal {
                detail: "a same-file reference reached the import synthesizer".to_owned(),
            },
        );
    }
    let symbol = to.path[to.path.len() - 1].name_string();
    if from.path[k].is_file() {
        let mut s = String::new();
        s.append(".");
        proof {
            assert(s@ =~= dot_join(tv, k as int, k as int));
        }
        let mut i: usize = k;
        while i < to.path.len() && !to.path[i].is_declaration()
            invariant
                k <= i <= tv.len(),
                tv == ts_path_view(*to),
                forall|j: int| k <= j < i ==> !is_decl_v(tv[j]),
                s@ == dot_join(tv, k as int, i as int),
            decreases tv.len() - i,
        {
            s.append("/");
            let n = to.path[i].name_string();
            s.append(n.as_str());
            proof {
                assert(s@ =~= dot_join(tv, k as int, i as int + 1));
            }
            i = i + 1;
        }
        proof {
            lemma_decl_index_step(tv, k as int, i as int);
            assert(first_decl_index(tv, k as int) == i as int);
        }
        let mut specifiers: Vec<ImportSpecifier> = Vec::new();
        specifiers.push(ImportSpecifier::new(Identifier::new(symbol)));
        return Ok(ImportDeclaration::import(specifiers, StringLiteral::new(s)));
    }
    let mut s = String::new();
    let mut i: usize = k;
    proof {
        assert(s@ =~= ups(0));
    }
    while i < from.path.len() && from.path[i].is_folder()
        invariant
            k <= i <= fv.len(),
            fv == ts_path_view(*from),
            forall|j: int| k <= j < i ==> fv[j] is Folder,
            s@ == ups(i - k),
        decreases fv.len() - i,
    {
        s.append("../");
        proof {
            assert(s@ =~= ups(i - k + 1));
        }
        i = i + 1;
    }
    proof {
        lemma_folder_run_step(fv, k as int, i as int);
        assert(folder_run_end(fv, k as int) == i as int);
    }
    let ghost up_part = ups(i - k);
    let mut j: usize = k;
    proof {
        assert(s@ =~= up_part + folders_join(tv, k as int, k as int));
    }
    while j < to.path.len() && to.path[j].is_folder()
        invariant
            k <= j <= tv.len(),
            tv == ts_path_view(*to),
            forall|m: int| k <= m < j ==> tv[m] is Folder,
            s@ == up_part + folders_join(tv, k as int, j as int),
        decreases tv.len() - j,
    {
        let n = to.path[j].name_string();
        s.append(n.as_str());
        s.append("/");
        proof {
            assert(s@ =~= up_part + folders_join(tv, k as int, j as int + 1));
        }
        j = j + 1;
    }
    proof {
        lemma_folder_run_step(tv, k as int, j as int);
        assert(folder_run_end(tv, k as int) == j as int);
    }
    if j >= to.path.len() {
        return Err(
            CompileError::Internal {
                detail: "an import target holds no file to import from".to_owned(),
            },
        );
    }
    if !to.path[j].is_file() {
        return Err(
            CompileError::Internal {
                detail: "an import target holds no file to import from".to_owned(),
            },
        );
    }
    let n = to.path[j].name_string();
    s.append(n.as_str());
    let mut specifiers: Vec<ImportSpecifier> = Vec::new();
    specifiers.push(ImportSpecifier::new(Identifier::new(symbol)));
    Ok(ImportDeclaration::import(specifiers, StringLiteral::new(s)))
}

/// The name of one import binding, with its optional source property name.
pub open spec fn binding_view(b: ImportSpecifier) -> (Seq<char>, Option<Seq<char>>) {
    (
        b.name.text@,
        match b.property_name {
            Some(p) => Some(p.text@),
            None => None,
        },
    )
}

/// The values of a list of import bindings.
pub open spec fn bindings_view(bs: Seq<ImportSpecifier>) -> Seq<(Seq<char>, Option<Seq<char>>)> {
    Seq::new(bs.len(), |i: int| binding_view(bs[i]))
}

/// The structural value of an import declaration: its default binding, its
/// named bindings and its module specifier.
pub open spec fn import_view(d: ImportDeclaration) -> (
    Option<Seq<char>>,
    Option<Seq<(Seq<char>, Option<Seq<char>>)>>,
    Seq<char>,
) {
    (
        match d.import_clause.name {
            Some(n) => Some(n.text@),
            None => None,
        },
        match d.import_clause.named_bindings {
            Some(bs) => Some(bindings_view(bs@)),
            None => None,
        },
        d.string_literal.text@,
    )
}

/// Structural equality of two import declarations.
pub fn import_eq(a: &ImportDeclaration, b: &ImportDeclaration) -> (r: bool)
    ensures
        r == (import_view(*a) == import_view(*b)),
{
    if !(a.string_literal.text == b.string_literal.text) {
        return false;
    }
    let names_eq = match (&a.import_clause.name, &b.import_clause.name) {
        (Some(x), Some(y)) => x.text == y.text,
        (None, None) => true,
        _ => false,
    };
    if !names_eq {
        return false;
    }
    match (&a.import_clause.named_bindings, &b.import_clause.named_bindings) {
        (None, None) => true,
        (Some(xs), Some(ys)) => {
            proof {
                assert(a.import_clause.named_bindings == Some(*xs));
                assert(b.import_clause.named_bindings == Some(*ys));
            }
            if xs.len() != ys.len() {
                proof {
                    assert(bindings_view(xs@).len() != bindings_view(ys@).len());
                }
                return false;
            }
            let mut i: usize = 0;
            while i < xs.len()
                invariant
                    i <= xs@.len(),
                    xs@.len() == ys@.len(),
                    a.import_clause.named_bindings == Some(*xs),
                    b.import_clause.named_bindings == Some(*ys),
                    forall|j: int|
                        0 <= j < i ==> binding_view(xs@[j]) == binding_view(ys@[j]),
                decreases xs@.len() - i,
            {
                if !(xs[i].name.text == ys[i].name.text) {
                    proof {
                        assert(bindings_view(xs@)[i as int] != bindings_view(ys@)[i as int]);
                    }
                    return false;
                }
                let props_eq = match (&xs[i].property_name, &ys[i].property_name) {
                    (Some(x), Some(y)) => x.text == y.text,
                    (None, None) => true,
                    _ => false,
                };
                if !props_eq {
                    proof {
                        assert(bindings_view(xs@)[i as int] != bindings_view(ys@)[i as int]);
                    }
                    return false;
                }
                i = i + 1;
            }
            proof {
                assert(bindings_view(xs@) =~= bindings_view(ys@));
            }
            true
        },
        _ => false,
    }
}

/// The file already holds a structurally identical import.
pub open spec fn has_import(stmts: Seq<Statement>, d: ImportDeclaration) -> bool {
    exists|i: int|
        0 <= i < stmts.len() && ((#[trigger] stmts[i]) matches Statement::ImportDeclaration(x)
            && import_view(*x) == import_view(d))
}

/// What `ensure_import` leaves the file's statements as: unchanged when a
/// structurally identical import is present, the import appended otherwise.
pub open spec fn ensure_import_spec(stmts: Seq<Statement>, d: ImportDeclaration) -> Seq<Statement> {
    if has_import(stmts, d) {
        stmts
    } else {
        stmts.push(Statement::ImportDeclaration(Box::new(d)))
    }
}

/// Append `import` to the file unless a structurally identical
/// (specifier, bindings) import is already present.
pub fn ensure_import(file: &mut File, import: ImportDeclaration)
    ensures
        final(file).name == old(file).name,
        final(file).ast.statements@ == ensure_import_spec(old(file).ast.statements@, import),
{
    let mut i: usize = 0;
    while i < file.ast.statements.len()
        invariant
            i <= file.ast.statements@.len(),
            forall|j: int|
                0 <= j < i ==> !((#[trigger] file.ast.statements@[j]) matches
                Statement::ImportDeclaration(x) && import_view(*x) == import_view(import)),
        decreases file.ast.statements@.len() - i,
    {
        match &file.ast.statements[i] {
            Statement::ImportDeclaration(x) => {
                if import_eq(x, &import) {
                    proof {
                        assert(has_import(file.ast.statements@, import));
                    }
                    return ;
                }
            },
            _ => {},
        }
        i = i + 1;
    }
    proof {
        assert(!has_import(file.ast.statements@, import));
    }
    file.push_statement(Statement::ImportDeclaration(Box::new(import)));
}

/// No two statements are structurally equal import declarations.
pub open spec fn imports_distinct(ss: Seq<Statement>) -> bool {
    forall|i: int, j: int|
        #![trigger ss[i], ss[j]]
        0 <= i < j < ss.len() ==> !(ss[i] matches Statement::ImportDeclaration(a) && ss[j] matches
        Statement::ImportDeclaration(b) && import_view(*a) == import_view(*b))
}

/// `ensure_import` keeps a file's imports distinct: it appends only an
/// import no present statement equals.
pub proof fn lemma_ensure_import_distinct(ss: Seq<Statement>, d: ImportDeclaration)
    requires
        imports_distinct(ss),
    ensures
        imports_distinct(ensure_import_spec(ss, d)),
{
    if !has_import(ss, d) {
        let ps = ss.push(Statement::ImportDeclaration(Box::new(d)));
        assert forall|i: int, j: int|
            #![trigger ps[i], ps[j]]
            0 <= i < j < ps.len() implies !(ps[i] matches Statement::ImportDeclaration(a)
            && ps[j] matches Statement::ImportDeclaration(b) && import_view(*a) == import_view(
            *b,
        )) by {
            if j == ss.len() {
                assert(ps[i] == ss[i]);
            } else {
                assert(ps[i] == ss[i] && ps[j] == ss[j]);
            }
        }
    }
}

/// Appending a statement that is no import keeps the imports distinct.
pub proof fn lemma_push_non_import_distinct(ss: Seq<Statement>, s: Statement)
    requires
        imports_distinct(ss),
        !(s is ImportDeclaration),
    ensures
        imports_distinct(ss.push(s)),
{
    let ps = ss.push(s);
    assert forall|i: int, j: int|
        #![trigger ps[i], ps[j]]
        0 <= i < j < ps.len() implies !(ps[i] matches Statement::ImportDeclaration(a) && ps[j]
        matches Statement::ImportDeclaration(b) && import_view(*a) == import_view(*b)) by {
        if j < ss.len() {
            assert(ps[i] == ss[i] && ps[j] == ss[j]);
        } else {
            assert(ps[j] == s);
        }
    }
}

/// Requesting the same import twice leaves the same statements as
/// requesting it once: `ensure_import` is idempotent.
pub proof fn lemma_ensure_import_idempotent(stmts: Seq<Statement>, d: ImportDeclaration)
    ensures
        ensure_import_spec(ensure_import_spec(stmts, d), d) == ensure_import_spec(stmts, d),
{
    if !has_import(stmts, d) {
        let pushed = stmts.push(Statement::ImportDeclaration(Box::new(d)));
        assert(pushed[stmts.len() as int] matches Statement::ImportDeclaration(x) && import_view(*x)
            == import_view(d));
        assert(has_import(pushed, d));
    }
}

/// The rendering of an import declaration as a source line.
pub open spec fn import_render_v(d: ImportDeclaration) -> Seq<char> {
    "import { "@ + (match d.import_clause.named_bindings {
        Some(bs) => bindings_join(bindings_view(bs@), bindings_view(bs@).len() as int),
        None => Seq::empty(),
    }) + " } from \""@ + d.string_literal.text@ + "\""@
}

/// The first `upto` bindings, comma separated, `prop as name` for a renamed
/// binding.
pub open spec fn bindings_join(bs: Seq<(Seq<char>, Option<Seq<char>>)>, upto: int) -> Seq<char>
    decreases upto,
{
    if upto <= 0 {
        Seq::empty()
    } else if upto == 1 {
        binding_render_v(bs[0])
    } else {
        bindings_join(bs, upto - 1) + ", "@ + binding_render_v(bs[upto - 1])
    }
}

/// One binding: its name, after `prop as ` when it is renamed.
pub open spec fn binding_render_v(b: (Seq<char>, Option<Seq<char>>)) -> Seq<char> {
    match b.1 {
        Some(p) => p + " as "@ + b.0,
        None => b.0,
    }
}

impl ImportDeclaration {
    /// The source line this import renders to.
    pub fn render(&self) -> (r: String)
        ensures
            r@ == import_render_v(*self),
    {
        let mut s = String::new();
        s.append("import { ");
        match &self.import_clause.named_bindings {
            Some(bs) => {
                let ghost views = bindings_view(bs@);
                let mut i: usize = 0;
                while i < bs.len()
                    invariant
                        i <= bs@.len(),
                        views == bindings_view(bs@),
                        s@ == "import { "@ + bindings_join(views, i as int),
                    decreases bs@.len() - i,
                {
                    if i > 0 {
                        s.append(", ");
                    }
                    match &bs[i].property_name {
                        Some(p) => {
                            s.append(p.text.as_str());
                            s.append(" as ");
                        },
                        None => {},
                    }
                    s.append(bs[i].name.text.as_str());
                    proof {
                        assert(s@ =~= "import { "@ + bindings_join(views, i as int + 1));
                    }
                    i = i + 1;
                }
            },
            None => {},
        }
        s.append(" } from \"");
        s.append(self.string_literal.text.as_str());
        s.append("\"");
        proof {
            assert(s@ =~= import_render_v(*self));
        }
        s
    }
}

} // verus!

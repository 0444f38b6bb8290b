//! Name resolution: looking a name up through the enclosing messages, the
//! owning file's top level, and the file's imports, with the backtracking
//! package-path search for imported packages.

use vstd::prelude::*;
use crate::ast::string_views;
use crate::errors::CompileError;
use crate::model::{
    Declaration, PackageTree, ProtoFile, decl_name, file_wf, find_decl_in_entries,
    find_decl_in_ids, find_file_in, full_path_v, subtree_of, tree_wf,
};
use crate::paths::{PathComponent, PathCompV, ProtoPath, proto_view};

verus! {

/// A lookup context: the owning file and the enclosing messages, innermost
/// first, all by id.
pub struct BlockScope {
    pub file_id: usize,
    pub parents: Vec<usize>,
}

/// What a resolved name denotes: a declaration of the arena, or a whole
/// file of an imported package.
pub enum IdType {
    DataType(usize),
    Package(usize),
}

/// A resolved name: what it denotes, and the scope that declares it.
pub struct DefinedId {
    pub scope: BlockScope,
    pub declaration: IdType,
}

/// The mathematical value of a resolved name.
pub struct ResolvedV {
    pub file_id: usize,
    pub parents: Seq<usize>,
    pub target: IdType,
}

/// The value of a `DefinedId`.
pub open spec fn defined_view(d: DefinedId) -> ResolvedV {
    ResolvedV { file_id: d.scope.file_id, parents: d.scope.parents@, target: d.declaration }
}

/// A scope is well formed against the tree: its file exists and each parent
/// is a message of the arena.
pub open spec fn scope_wf(t: PackageTree, file_id: usize, parents: Seq<usize>) -> bool {
    &&& file_id < t.files@.len()
    &&& forall|i: int|
        0 <= i < parents.len() ==> #[trigger] parents[i] < t.arena@.len() && t.arena@[parents[i] as int] is Message
}

/// A resolved name is well formed against the tree.
pub open spec fn resolved_wf(t: PackageTree, v: ResolvedV) -> bool {
    &&& scope_wf(t, v.file_id, v.parents)
    &&& match v.target {
        IdType::DataType(id) => id < t.arena@.len(),
        IdType::Package(fid) => fid < t.files@.len(),
    }
}

/// The first enclosing message, from index `i` on, that directly nests a
/// declaration named `name`; yields the parent's index and the declaration.
pub open spec fn parent_search(
    t: PackageTree,
    parents: Seq<usize>,
    name: Seq<char>,
    i: int,
) -> Option<(int, usize)>
    decreases parents.len() - i,
{
    if i < 0 || i >= parents.len() {
        None
    } else {
        let found = match t.arena@[parents[i] as int] {
            Declaration::Message(m) => find_decl_in_entries(t.arena@, m.entries@, name, 0),
            Declaration::Enum(_) => None,
        };
        match found {
            Some(d) => Some((i, d)),
            None => parent_search(t, parents, name, i + 1),
        }
    }
}

/// The backtracking package search: append the import's packages to `base`
/// and look the path up from the root; a found subtree must hold the file,
/// a missing subtree drops one trailing segment of `base` and retries.
pub open spec fn import_search(
    t: PackageTree,
    base: Seq<Seq<char>>,
    packages: Seq<Seq<char>>,
    file_name: Seq<char>,
) -> Option<usize>
    decreases base.len(),
{
    match subtree_of(t.root, base + packages, 0) {
        Some(node) => find_file_in(t.files@, node.files@, file_name, 0),
        None => if base.len() == 0 {
            None
        } else {
            import_search(t, base.drop_last(), packages, file_name)
        },
    }
}

/// The first import of `f`, from index `i` on, whose final package segment
/// is `name` and whose backtracking search locates a file.
pub open spec fn import_match(t: PackageTree, f: ProtoFile, name: Seq<char>, i: int) -> Option<
    usize,
>
    decreases f.imports@.len() - i,
{
    if i < 0 || i >= f.imports@.len() {
        None
    } else {
        let imp = f.imports@[i];
        let found = if imp.packages@.len() > 0 && string_views(imp.packages@).last() == name {
            import_search(t, string_views(f.path@), string_views(imp.packages@), imp.file_name@)
        } else {
            None
        };
        match found {
            Some(fid) => Some(fid),
            None => import_match(t, f, name, i + 1),
        }
    }
}

/// The outcome of resolving `name` in a scope, by the fixed search order:
/// enclosing messages innermost first, then the file's top level, then the
/// file's imports.
pub open spec fn resolve_outcome(
    t: PackageTree,
    file_id: usize,
    parents: Seq<usize>,
    name: Seq<char>,
) -> Option<ResolvedV> {
    match parent_search(t, parents, name, 0) {
        Some(pr) => Some(
            ResolvedV { file_id, parents: parents.skip(pr.0), target: IdType::DataType(pr.1) },
        ),
        None => {
            let f = t.files@[file_id as int];
            match find_decl_in_ids(t.arena@, f.declarations@, name, 0) {
                Some(d) => Some(
                    ResolvedV { file_id, parents: Seq::empty(), target: IdType::DataType(d) },
                ),
                None => match import_match(t, f, name, 0) {
                    Some(fid) => Some(
                        ResolvedV { file_id, parents: Seq::empty(), target: IdType::Package(fid) },
                    ),
                    None => None,
                },
            }
        },
    }
}

/// The outcome of resolving one further dotted segment against an already
/// resolved name: a message looks among its direct members, a package file
/// resolves at its own top level, an enum is terminal.
pub open spec fn member_outcome(t: PackageTree, v: ResolvedV, name: Seq<char>) -> Option<
    ResolvedV,
> {
    match v.target {
        IdType::DataType(id) => {
            match t.arena@[id as int] {
                Declaration::Message(m) => match find_decl_in_entries(
                    t.arena@,
                    m.entries@,
                    name,
                    0,
                ) {
                    Some(c) => Some(
                        ResolvedV {
                            file_id: v.file_id,
                            parents: seq![id] + v.parents,
                            target: IdType::DataType(c),
                        },
                    ),
                    None => None,
                },
                Declaration::Enum(_) => None,
            }
        },
        IdType::Package(fid) => resolve_outcome(t, fid, Seq::empty(), name),
    }
}

/// The outcome of resolving the remaining segments of a dotted path.
pub open spec fn continue_path(
    t: PackageTree,
    cur: Option<ResolvedV>,
    path: Seq<Seq<char>>,
    i: int,
) -> Option<ResolvedV>
    decreases path.len() - i,
{
    if i < 0 || i >= path.len() {
        cur
    } else {
        match cur {
            None => None,
            Some(v) => continue_path(t, member_outcome(t, v, path[i]), path, i + 1),
        }
    }
}

/// The outcome of resolving a whole dotted path in a scope.
pub open spec fn path_outcome(
    t: PackageTree,
    file_id: usize,
    parents: Seq<usize>,
    path: Seq<Seq<char>>,
) -> Option<ResolvedV> {
    continue_path(t, resolve_outcome(t, file_id, parents, path[0]), path, 1)
}

/// The diagnostic trace of a scope: the enclosing message names, innermost
/// first, then the owning file's displayable path.
pub open spec fn stack_trace_v(t: PackageTree, file_id: usize, parents: Seq<usize>) -> Seq<
    Seq<char>,
> {
    Seq::new(parents.len(), |i: int| decl_name(t.arena@[parents[i] as int])).push(
        full_path_v(
            string_views(t.files@[file_id as int].path@),
            t.files@[file_id as int].name@,
        ),
    )
}

/// The canonical schema-space address of a scope: the file's package
/// segments, the file, then the enclosing messages outermost first.
pub open spec fn scope_path_v(t: PackageTree, file_id: usize, parents: Seq<usize>) -> Seq<
    PathCompV,
> {
    let f = t.files@[file_id as int];
    Seq::new(f.path@.len(), |i: int| PathCompV::Package(f.path@[i]@)) + seq![
        PathCompV::File(f.name@),
    ] + Seq::new(
        parents.len(),
        |i: int| PathCompV::Message(decl_name(t.arena@[parents[parents.len() - 1 - i] as int])),
    )
}

/// A scope's canonical address holds at least its file segment and no enum
/// segment: every segment is a package, the file, or a message.
pub proof fn lemma_scope_path_shape(t: PackageTree, file_id: usize, parents: Seq<usize>)
    ensures
        scope_path_v(t, file_id, parents).len() >= 1,
        forall|i: int|
            0 <= i < scope_path_v(t, file_id, parents).len() ==> !((#[trigger] scope_path_v(
                t,
                file_id,
                parents,
            )[i]) is Enum),
{
    let f = t.files@[file_id as int];
    let sp = scope_path_v(t, file_id, parents);
    assert forall|i: int| 0 <= i < sp.len() implies !((#[trigger] sp[i]) is Enum) by {
        if i < f.path@.len() {
            assert(sp[i] == PathCompV::Package(f.path@[i]@));
        } else if i == f.path@.len() {
            assert(sp[i] == PathCompV::File(f.name@));
        } else {
            assert(sp[i] == PathCompV::Message(
                decl_name(t.arena@[parents[parents.len() - 1 - (i - f.path@.len() - 1)] as int]),
            ));
        }
    }
}

/// The canonical schema-space address of a resolved name: its scope's
/// address followed by its own segment.
pub open spec fn defined_path_v(t: PackageTree, v: ResolvedV) -> Seq<PathCompV> {
    scope_path_v(t, v.file_id, v.parents).push(
        match v.target {
            IdType::DataType(id) => match t.arena@[id as int] {
                Declaration::Enum(e) => PathCompV::Enum(e.name@),
                Declaration::Message(m) => PathCompV::Message(m.name@),
            },
            IdType::Package(fid) => PathCompV::Package(t.files@[fid as int].name@),
        },
    )
}

impl DefinedId {
    /// Resolve one further dotted segment against this resolved name: a
    /// message searches its direct members, an imported package file its top
    /// level; an enum is terminal, so resolving past one is an error.
    pub fn resolve(&self, tree: &PackageTree, name: &String) -> (r: Result<DefinedId, CompileError>)
        requires
            tree_wf(*tree),
            resolved_wf(*tree, defined_view(*self)),
        ensures
            match r {
                Ok(n) => {
                    &&& member_outcome(*tree, defined_view(*self), name@) == Some(defined_view(n))
                    &&& resolved_wf(*tree, defined_view(n))
                },
                Err(e) => member_outcome(*tree, defined_view(*self), name@) is None
                    && member_error_ok(*tree, defined_view(*self), name@, e),
            },
    {
        match &self.declaration {
            IdType::DataType(id) => {
                match &tree.arena[*id] {
                    Declaration::Enum(e) => {
                        let mut msg = "cannot resolve ".to_owned();
                        msg.append(name.as_str());
                        msg.append(" in ");
                        msg.append(e.name.as_str());
                        Err(self.scope.error(tree, msg))
                    },
                    Declaration::Message(m) => {
                        match m.resolve(&tree.arena, name) {
                            Some(c) => {
                                Ok(
                                    DefinedId {
                                        scope: self.scope.push(*id),
                                        declaration: IdType::DataType(c),
                                    },
                                )
                            },
                            None => {
                                let mut msg = "cannot resolve ".to_owned();
                                msg.append(name.as_str());
                                msg.append(" in ");
                                msg.append(m.name.as_str());
                                Err(self.scope.error(tree, msg))
                            },
                        }
                    },
                }
            },
            IdType::Package(fid) => {
                let package_scope = BlockScope::new(*fid);
                let r = package_scope.resolve(tree, name);
                proof {
                    assert(package_scope.parents@ =~= Seq::<usize>::empty());
                }
                r
            },
        }
    }

    /// The canonical schema-space address of this resolved name: its scope's
    /// address followed by its own segment.
    pub fn path(&self, tree: &PackageTree) -> (r: ProtoPath)
        requires
            tree_wf(*tree),
            resolved_wf(*tree, defined_view(*self)),
        ensures
            proto_view(r) == defined_path_v(*tree, defined_view(*self)),
    {
        let mut res = self.scope.path(tree);
        match &self.declaration {
            IdType::DataType(id) => {
                match &tree.arena[*id] {
                    Declaration::Enum(e) => {
                        res.push(PathComponent::Enum(e.name.clone()));
                    },
                    Declaration::Message(m) => {
                        res.push(PathComponent::Message(m.name.clone()));
                    },
                }
            },
            IdType::Package(fid) => {
                res.push(PathComponent::Package(tree.files[*fid].name.clone()));
            },
        }
        proof {
            assert(proto_view(res) =~= defined_path_v(*tree, defined_view(*self)));
        }
        res
    }
}

/// The error a failed scoped lookup of `name` carries: its message names
/// the name, its trace is the scope's.
pub open spec fn resolve_error_ok(
    t: PackageTree,
    file_id: usize,
    parents: Seq<usize>,
    name: Seq<char>,
    e: CompileError,
) -> bool {
    e matches CompileError::Resolution { message, trace } && message@
        == "could not resolve name "@ + name && string_views(trace@) == stack_trace_v(
        t,
        file_id,
        parents,
    )
}

/// The error a failed dotted step past a resolved name carries: past a
/// declaration, a message naming both the looked-up name and the
/// declaration, with the declaring scope's trace; past a package file, the
/// failed lookup at that file's top level.
pub open spec fn member_error_ok(
    t: PackageTree,
    v: ResolvedV,
    name: Seq<char>,
    e: CompileError,
) -> bool {
    match v.target {
        IdType::DataType(id) => match t.arena@[id as int] {
            Declaration::Enum(en) => e matches CompileError::Resolution { message, trace }
                && message@ == "cannot resolve "@ + name + " in "@ + en.name@ && string_views(
                trace@,
            ) == stack_trace_v(t, v.file_id, v.parents),
            Declaration::Message(m) => e matches CompileError::Resolution { message, trace }
                && message@ == "cannot resolve "@ + name + " in "@ + m.name@ && string_views(
                trace@,
            ) == stack_trace_v(t, v.file_id, v.parents),
        },
        IdType::Package(fid) => resolve_error_ok(t, fid, Seq::empty(), name, e),
    }
}

/// The error of a failed dotted step is a resolution error.
pub proof fn lemma_member_error_is_resolution(
    t: PackageTree,
    v: ResolvedV,
    name: Seq<char>,
    e: CompileError,
)
    requires
        member_error_ok(t, v, name, e),
    ensures
        e is Resolution,
{
    match v.target {
        IdType::DataType(id) => {
            match t.arena@[id as int] {
                Declaration::Enum(_) => {},
                Declaration::Message(_) => {},
            }
        },
        IdType::Package(_) => {},
    }
}

/// The error of resolving the remaining dotted segments from `v` is the
/// error of the first failing step, unchanged.
pub open spec fn path_err_ok(
    t: PackageTree,
    v: ResolvedV,
    path: Seq<Seq<char>>,
    i: int,
    e: CompileError,
) -> bool
    decreases path.len() - i,
{
    if i < 0 || i >= path.len() {
        false
    } else {
        match member_outcome(t, v, path[i]) {
            None => member_error_ok(t, v, path[i], e),
            Some(n) => path_err_ok(t, n, path, i + 1, e),
        }
    }
}

/// No enclosing message of the scope directly declares `name`.
pub open spec fn no_parent_declares(t: PackageTree, parents: Seq<usize>, name: Seq<char>) -> bool {
    forall|i: int|
        0 <= i < parents.len() ==> (match t.arena@[#[trigger] parents[i] as int] {
            Declaration::Message(m) => find_decl_in_entries(t.arena@, m.entries@, name, 0) is None,
            Declaration::Enum(_) => true,
        })
}

/// When no enclosing message declares the name, the parent search fails.
proof fn lemma_parent_search_none(t: PackageTree, parents: Seq<usize>, name: Seq<char>, i: int)
    requires
        no_parent_declares(t, parents, name),
    ensures
        parent_search(t, parents, name, i) is None,
    decreases parents.len() - i,
{
    if 0 <= i < parents.len() {
        lemma_parent_search_none(t, parents, name, i + 1);
    }
}

/// Shadowing, innermost level: a name declared directly in the innermost
/// enclosing message resolves to that declaration, whatever same-named
/// declarations the file's top level or its imports may hold.
pub proof fn lemma_innermost_shadows(
    t: PackageTree,
    file_id: usize,
    parents: Seq<usize>,
    name: Seq<char>,
    d: usize,
)
    requires
        parents.len() > 0,
        t.arena@[parents[0] as int] matches Declaration::Message(m) && find_decl_in_entries(
            t.arena@,
            m.entries@,
            name,
            0,
        ) == Some(d),
    ensures
        resolve_outcome(t, file_id, parents, name) matches Some(v) && v.target == IdType::DataType(
            d,
        ) && v.parents == parents && v.file_id == file_id,
{
    assert(parents.skip(0) =~= parents);
}

/// Shadowing, file level: when no enclosing message declares the name, a
/// top-level declaration of the owning file resolves, whatever same-named
/// imports the file may hold.
pub proof fn lemma_file_shadows_imports(
    t: PackageTree,
    file_id: usize,
    parents: Seq<usize>,
    name: Seq<char>,
    d: usize,
)
    requires
        no_parent_declares(t, parents, name),
        find_decl_in_ids(
            t.arena@,
            t.files@[file_id as int].declarations@,
            name,
            0,
        ) == Some(d),
    ensures
        resolve_outcome(t, file_id, parents, name) matches Some(v) && v.target == IdType::DataType(
            d,
        ) && v.parents == Seq::<usize>::empty() && v.file_id == file_id,
{
    lemma_parent_search_none(t, parents, name, 0);
}

/// The backtracking package search succeeds however many package levels
/// must be retried: when every longer prefix of the importing file's own
/// path reaches no subtree, and the path cut to `k` segments extended by
/// the import's packages reaches a subtree holding the file, the search
/// yields exactly that file.
pub proof fn lemma_backtracking_finds(
    t: PackageTree,
    base: Seq<Seq<char>>,
    packages: Seq<Seq<char>>,
    file_name: Seq<char>,
    k: int,
    fid: usize,
)
    requires
        0 <= k <= base.len(),
        forall|j: int|
            k < j <= base.len() ==> subtree_of(t.root, #[trigger] base.take(j) + packages, 0)
                is None,
        subtree_of(t.root, base.take(k) + packages, 0) matches Some(node) && find_file_in(
            t.files@,
            node.files@,
            file_name,
            0,
        ) == Some(fid),
    ensures
        import_search(t, base, packages, file_name) == Some(fid),
    decreases base.len(),
{
    if base.len() > k {
        assert(base.take(base.len() as int) =~= base);
        assert(subtree_of(t.root, base + packages, 0) is None);
        assert(base.drop_last() =~= base.take(base.len() - 1));
        assert(forall|j: int|
            k < j <= base.len() - 1 ==> #[trigger] base.drop_last().take(j) =~= base.take(j));
        assert(base.drop_last().take(k) =~= base.take(k));
        lemma_backtracking_finds(t, base.drop_last(), packages, file_name, k, fid);
    } else {
        assert(base.take(k) =~= base);
    }
}

/// When neither the enclosing messages nor the file's top level declare the
/// name, a matching import resolves to its located package file.
pub proof fn lemma_import_resolves(
    t: PackageTree,
    file_id: usize,
    parents: Seq<usize>,
    name: Seq<char>,
    fid: usize,
)
    requires
        no_parent_declares(t, parents, name),
        find_decl_in_ids(t.arena@, t.files@[file_id as int].declarations@, name, 0) is None,
        import_match(t, t.files@[file_id as int], name, 0) == Some(fid),
    ensures
        resolve_outcome(t, file_id, parents, name) matches Some(v) && v.target == IdType::Package(
            fid,
        ) && v.parents == Seq::<usize>::empty() && v.file_id == file_id,
{
    lemma_parent_search_none(t, parents, name, 0);
}

/// The backtracking package-path search for one import: starting from the
/// importing file's own package path, append the import's packages and look
/// the path up; when no subtree stands there, drop one trailing segment of
/// the base path and retry, until the base path is exhausted.
#[verifier::loop_isolation(false)]
fn import_backtrack(tree: &PackageTree, file: &ProtoFile, imp: &crate::model::ImportPath) -> (r:
    Option<usize>)
    requires
        tree_wf(*tree),
    ensures
        match r {
            Some(fid) => {
                &&& import_search(
                    *tree,
                    string_views(file.path@),
                    string_views(imp.packages@),
                    imp.file_name@,
                ) == Some(fid)
                &&& fid < tree.files@.len()
            },
            None => import_search(
                *tree,
                string_views(file.path@),
                string_views(imp.packages@),
                imp.file_name@,
            ) is None,
        },
{
    let ghost pkgv = string_views(imp.packages@);
    let ghost fnv = imp.file_name@;
    let ghost base0 = string_views(file.path@);
    let mut base = clone_strings(&file.path);
    loop
        invariant
            import_search(*tree, string_views(base@), pkgv, fnv) == import_search(
                *tree,
                base0,
                pkgv,
                fnv,
            ),
        decreases base@.len(),
    {
        let mut full = clone_strings(&base);
        let mut j: usize = 0;
        while j < imp.packages.len()
            invariant
                j <= imp.packages@.len(),
                full@.len() == base@.len() + j,
                forall|k: int| 0 <= k < base@.len() ==> #[trigger] full@[k]@ == base@[k]@,
                forall|k: int|
                    0 <= k < j ==> full@[base@.len() + k]@ == #[trigger] imp.packages@[k]@,
            decreases imp.packages@.len() - j,
        {
            let s = imp.packages[j].clone();
            full.push(s);
            j = j + 1;
        }
        proof {
            assert(string_views(full@) =~= string_views(base@) + pkgv);
        }
        match tree.root.resolve_subtree(&full, 0) {
            Some(node) => {
                match node.find_file(&tree.files, &imp.file_name) {
                    Some(fid) => {
                        proof {
                            assert(import_search(*tree, string_views(base@), pkgv, fnv) == Some(
                                fid,
                            ));
                        }
                        return Some(fid);
                    },
                    None => {
                        return None;
                    },
                }
            },
            None => {
                if base.len() == 0 {
                    return None;
                }
                let ghost before = string_views(base@);
                base.pop();
                proof {
                    assert(string_views(base@) =~= before.drop_last());
                }
            },
        }
    }
}

/// Copies of the strings of `v`, in order.
fn clone_strings(v: &Vec<String>) -> (r: Vec<String>)
    ensures
        string_views(r@) == string_views(v@),
        r@.len() == v@.len(),
        forall|j: int| 0 <= j < v@.len() ==> #[trigger] r@[j]@ == v@[j]@,
{
    let mut out: Vec<String> = Vec::new();
    let mut i: usize = 0;
    while i < v.len()
        invariant
            i <= v@.len(),
            out@.len() == i as int,
            forall|j: int| 0 <= j < i ==> #[trigger] out@[j]@ == v@[j]@,
        decreases v@.len() - i,
    {
        let s = v[i].clone();
        out.push(s);
        i = i + 1;
    }
    proof {
        assert(string_views(out@) =~= string_views(v@));
    }
    out
}

impl BlockScope {
    /// The scope of a file's top level.
    pub fn new(file_id: usize) -> (r: Self)
        ensures
            r.file_id == file_id,
            r.parents@.len() == 0,
    {
        BlockScope { file_id, parents: Vec::new() }
    }

    /// The scope one message deeper: the message becomes the innermost
    /// enclosing declaration.
    pub fn push(&self, message_id: usize) -> (r: Self)
        ensures
            r.file_id == self.file_id,
            r.parents@ == seq![message_id] + self.parents@,
    {
        let mut parents: Vec<usize> = Vec::new();
        parents.push(message_id);
        let mut i: usize = 0;
        while i < self.parents.len()
            invariant
                i <= self.parents@.len(),
                parents@.len() == i + 1,
                parents@[0] == message_id,
                forall|j: int| 0 <= j < i ==> parents@[j + 1] == #[trigger] self.parents@[j],
            decreases self.parents@.len() - i,
        {
            let p = self.parents[i];
            parents.push(p);
            i = i + 1;
        }
        proof {
            assert(parents@ =~= seq![message_id] + self.parents@);
        }
        BlockScope { file_id: self.file_id, parents }
    }

    /// The canonical schema-space address of this scope.
    pub fn path(&self, tree: &PackageTree) -> (r: ProtoPath)
        requires
            tree_wf(*tree),
            scope_wf(*tree, self.file_id, self.parents@),
        ensures
            proto_view(r) == scope_path_v(*tree, self.file_id, self.parents@),
    {
        let file = &tree.files[self.file_id];
        let mut res = ProtoPath::new();
        let mut i: usize = 0;
        while i < file.path.len()
            invariant
                i <= file.path@.len(),
                file == &tree.files@[self.file_id as int],
                proto_view(res).len() == i as int,
                forall|j: int|
                    0 <= j < i ==> proto_view(res)[j] == PathCompV::Package(
                        #[trigger] file.path@[j]@,
                    ),
            decreases file.path@.len() - i,
        {
            res.push(PathComponent::Package(file.path[i].clone()));
            i = i + 1;
        }
        res.push(PathComponent::File(file.name.clone()));
        let n = self.parents.len();
        let mut i: usize = 0;
        while i < n
            invariant
                i <= n,
                n == self.parents@.len(),
                tree_wf(*tree),
                scope_wf(*tree, self.file_id, self.parents@),
                file == &tree.files@[self.file_id as int],
                proto_view(res).len() == file.path@.len() + 1 + i,
                forall|j: int|
                    0 <= j < file.path@.len() ==> proto_view(res)[j] == PathCompV::Package(
                        #[trigger] file.path@[j]@,
                    ),
                proto_view(res)[file.path@.len() as int] == PathCompV::File(file.name@),
                forall|j: int|
                    0 <= j < i ==> proto_view(res)[file.path@.len() + 1 + j] == PathCompV::Message(
                        decl_name(tree.arena@[#[trigger] self.parents@[n - 1 - j] as int]),
                    ),
            decreases n - i,
        {
            let p = self.parents[n - 1 - i];
            let pname = match &tree.arena[p] {
                Declaration::Message(m) => m.name.clone(),
                Declaration::Enum(e) => e.name.clone(),
            };
            proof {
                assert(decl_name(tree.arena@[p as int]) == pname@);
            }
            res.push(PathComponent::Message(pname));
            i = i + 1;
        }
        proof {
            assert(proto_view(res) =~= scope_path_v(*tree, self.file_id, self.parents@));
        }
        res
    }

    /// The diagnostic trace of this scope: the enclosing message names,
    /// innermost first, then the owning file's path.
    pub fn stack_trace(&self, tree: &PackageTree) -> (r: Vec<String>)
        requires
            tree_wf(*tree),
            scope_wf(*tree, self.file_id, self.parents@),
        ensures
            string_views(r@) == stack_trace_v(*tree, self.file_id, self.parents@),
    {
        let mut res: Vec<String> = Vec::new();
        let mut i: usize = 0;
        while i < self.parents.len()
            invariant
                i <= self.parents@.len(),
                tree_wf(*tree),
                scope_wf(*tree, self.file_id, self.parents@),
                res@.len() == i as int,
                forall|j: int|
                    0 <= j < i ==> #[trigger] res@[j]@ == decl_name(
                        tree.arena@[self.parents@[j] as int],
                    ),
            decreases self.parents@.len() - i,
        {
            let p = self.parents[i];
            let pname = match &tree.arena[p] {
                Declaration::Message(m) => m.name.clone(),
                Declaration::Enum(e) => e.name.clone(),
            };
            res.push(pname);
            i = i + 1;
        }
        let fp = tree.files[self.file_id].full_path();
        res.push(fp);
        proof {
            assert(string_views(res@) =~= stack_trace_v(*tree, self.file_id, self.parents@));
        }
        res
    }

    /// Resolve a single name in this scope, by the fixed search order: the
    /// enclosing messages innermost to outermost, then the owning file's top
    /// level, then the file's imports (an import matches when its final
    /// package segment is the name and the backtracking package search
    /// locates its file).
    #[verifier::loop_isolation(false)]
    pub fn resolve(&self, tree: &PackageTree, name: &String) -> (r: Result<DefinedId, CompileError>)
        requires
            tree_wf(*tree),
            scope_wf(*tree, self.file_id, self.parents@),
        ensures
            match r {
                Ok(d) => {
                    &&& resolve_outcome(*tree, self.file_id, self.parents@, name@) == Some(
                        defined_view(d),
                    )
                    &&& resolved_wf(*tree, defined_view(d))
                },
                Err(e) => {
                    &&& resolve_outcome(*tree, self.file_id, self.parents@, name@) is None
                    &&& resolve_error_ok(*tree, self.file_id, self.parents@, name@, e)
                },
            },
    {
        let mut pi: usize = 0;
        while pi < self.parents.len()
            invariant
                pi <= self.parents@.len(),
                parent_search(*tree, self.parents@, name@, 0) == parent_search(
                    *tree,
                    self.parents@,
                    name@,
                    pi as int,
                ),
            decreases self.parents@.len() - pi,
        {
            let p = self.parents[pi];
            proof {
                assert(self.parents@[pi as int] < tree.arena@.len() && tree.arena@[self.parents@[pi as int] as int] is Message);
            }
            match &tree.arena[p] {
                Declaration::Message(m) => {
                    match m.resolve(&tree.arena, name) {
                        Some(d) => {
                            let mut parents: Vec<usize> = Vec::new();
                            let mut j: usize = pi;
                            while j < self.parents.len()
                                invariant
                                    pi <= j <= self.parents@.len(),
                                    parents@.len() == j - pi,
                                    forall|k: int|
                                        0 <= k < j - pi ==> #[trigger] parents@[k]
                                            == self.parents@[pi + k],
                                decreases self.parents@.len() - j,
                            {
                                let q = self.parents[j];
                                parents.push(q);
                                j = j + 1;
                            }
                            proof {
                                assert(parents@ =~= self.parents@.skip(pi as int));
                            }
                            return Ok(
                                DefinedId {
                                    scope: BlockScope { file_id: self.file_id, parents },
                                    declaration: IdType::DataType(d),
                                },
                            );
                        },
                        None => {},
                    }
                },
                Declaration::Enum(_) => {
                    proof {
                        assert(false);
                    }
                },
            }
            pi = pi + 1;
        }
        let file = &tree.files[self.file_id];
        match file.resolve(&tree.arena, name) {
            Some(d) => {
                let scope = BlockScope::new(self.file_id);
                proof {
                    assert(scope.parents@ =~= Seq::<usize>::empty());
                }
                return Ok(DefinedId { scope, declaration: IdType::DataType(d) });
            },
            None => {},
        }
        let ghost fspec = tree.files@[self.file_id as int];
        proof {
            assert(file_wf(fspec, tree.arena@.len() as int));
        }
        let mut ii: usize = 0;
        while ii < file.imports.len()
            invariant
                ii <= fspec.imports@.len(),
                import_match(*tree, fspec, name@, 0) == import_match(*tree, fspec, name@, ii as int),
            decreases fspec.imports@.len() - ii,
        {
            let imp = &file.imports[ii];
            proof {
                assert(fspec.imports@[ii as int].packages@.len() > 0);
            }
            let lastseg = &imp.packages[imp.packages.len() - 1];
            if *lastseg == *name {
                proof {
                    assert(string_views(imp.packages@)[imp.packages@.len() - 1] == imp.packages@[
                        imp.packages@.len() - 1]@);
                    assert(string_views(imp.packages@).last() == name@);
                }
                match import_backtrack(tree, file, imp) {
                    Some(fid) => {
                        let scope = BlockScope::new(self.file_id);
                        proof {
                            assert(scope.parents@ =~= Seq::<usize>::empty());
                            assert(import_match(*tree, fspec, name@, ii as int) == Some(fid));
                        }
                        return Ok(DefinedId { scope, declaration: IdType::Package(fid) });
                    },
                    None => {},
                }
            }
            proof {
                assert(import_match(*tree, fspec, name@, ii as int) == import_match(
                    *tree,
                    fspec,
                    name@,
                    ii as int + 1,
                ));
            }
            ii = ii + 1;
        }
        let mut msg = "could not resolve name ".to_owned();
        msg.append(name.as_str());
        Err(self.error(tree, msg))
    }

    /// Resolve a dotted identifier path in this scope: the first segment by
    /// the scoped search, each further segment against what the previous one
    /// denoted. An empty path is an internal contract violation.
    #[verifier::loop_isolation(false)]
    pub fn resolve_path(&self, tree: &PackageTree, path: &Vec<String>) -> (r: Result<
        DefinedId,
        CompileError,
    >)
        requires
            tree_wf(*tree),
            scope_wf(*tree, self.file_id, self.parents@),
        ensures
            match r {
                Ok(d) => {
                    &&& path@.len() > 0
                    &&& path_outcome(*tree, self.file_id, self.parents@, string_views(path@))
                        == Some(defined_view(d))
                    &&& resolved_wf(*tree, defined_view(d))
                },
                Err(e) => (path@.len() == 0 && e is Internal) || (path@.len() > 0 && path_outcome(
                    *tree,
                    self.file_id,
                    self.parents@,
                    string_views(path@),
                ) is None && e is Resolution && ((resolve_outcome(
                    *tree,
                    self.file_id,
                    self.parents@,
                    string_views(path@)[0],
                ) is None && resolve_error_ok(
                    *tree,
                    self.file_id,
                    self.parents@,
                    string_views(path@)[0],
                    e,
                )) || (resolve_outcome(
                    *tree,
                    self.file_id,
                    self.parents@,
                    string_views(path@)[0],
                ) matches Some(v0) && path_err_ok(*tree, v0, string_views(path@), 1, e)))),
            },
    {
        if path.len() == 0 {
            return Err(
                CompileError::Internal {
                    detail: "resolution was asked of an empty identifier path".to_owned(),
                },
            );
        }
        let ghost pv = string_views(path@);
        let first = match self.resolve(tree, &path[0]) {
            Ok(d) => d,
            Err(e) => {
                proof {
                    assert(string_views(path@)[0] == path@[0]@);
                    assert(path_outcome(*tree, self.file_id, self.parents@, pv) is None);
                }
                return Err(e);
            },
        };
        let ghost v0 = defined_view(first);
        let mut cur = first;
        let mut i: usize = 1;
        while i < path.len()
            invariant
                1 <= i <= pv.len(),
                resolved_wf(*tree, defined_view(cur)),
                continue_path(*tree, Some(defined_view(cur)), pv, i as int) == path_outcome(
                    *tree,
                    self.file_id,
                    self.parents@,
                    pv,
                ),
                forall|err: CompileError|
                    path_err_ok(*tree, defined_view(cur), pv, i as int, err) == #[trigger] path_err_ok(
                        *tree,
                        v0,
                        pv,
                        1,
                        err,
                    ),
            decreases pv.len() - i,
        {
            let next = match cur.resolve(tree, &path[i]) {
                Ok(n) => n,
                Err(e) => {
                    proof {
                        assert(string_views(path@)[i as int] == path@[i as int]@);
                        assert(continue_path(
                            *tree,
                            Option::<ResolvedV>::None,
                            pv,
                            i as int + 1,
                        ) is None);
                        assert(path_err_ok(*tree, defined_view(cur), pv, i as int, e));
                        lemma_member_error_is_resolution(
                            *tree,
                            defined_view(cur),
                            pv[i as int],
                            e,
                        );
                    }
                    return Err(e);
                },
            };
            proof {
                assert(string_views(path@)[i as int] == path@[i as int]@);
                assert forall|err: CompileError|
                    path_err_ok(*tree, defined_view(next), pv, i as int + 1, err)
                        == #[trigger] path_err_ok(*tree, v0, pv, 1, err) by {
                    assert(path_err_ok(*tree, defined_view(cur), pv, i as int, err)
                        == path_err_ok(*tree, defined_view(next), pv, i as int + 1, err));
                }
            }
            cur = next;
            i = i + 1;
        }
        Ok(cur)
    }

    /// A resolution error carrying the given message and this scope's
    /// diagnostic trace.
    pub fn error(&self, tree: &PackageTree, message: String) -> (r: CompileError)
        requires
            tree_wf(*tree),
            scope_wf(*tree, self.file_id, self.parents@),
        ensures
            r matches CompileError::Resolution { message: m, trace } && m@ == message@
                && string_views(trace@) == stack_trace_v(*tree, self.file_id, self.parents@),
    {
        let trace = self.stack_trace(tree);
        CompileError::Resolution { message, trace }
    }
}

} // verus!

//! The declaration tree handed in by the parser: packages, files, messages,
//! enums, fields and imports. Declarations live in a shared arena and are
//! addressed by stable identifier; cross-references are id lookups, never
//! owning links.

use vstd::prelude::*;
use crate::ast::string_views;

verus! {

/// One member of a schema enum.
pub struct EnumEntry {
    pub name: String,
    pub value: i64,
}

/// A schema enum declaration.
pub struct EnumDeclaration {
    pub name: String,
    pub entries: Vec<EnumEntry>,
}

/// The fixed scalar field kinds of the schema language.
#[derive(PartialEq, Eq, Structural, Clone, Copy)]
pub enum ScalarKind {
    Bool,
    Bytes,
    Double,
    Fixed32,
    Fixed64,
    Float,
    Int32,
    Int64,
    Sfixed32,
    Sfixed64,
    Sint32,
    Sint64,
    Str,
    Uint32,
    Uint64,
}

/// The declared type of a message field. A reference carries the dotted
/// identifier path the schema wrote; it is resolved in scope when the field
/// is compiled.
pub enum FieldType {
    Scalar(ScalarKind),
    Reference(Vec<String>),
    Repeated(Box<FieldType>),
    Mapping(Box<FieldType>, Box<FieldType>),
}

/// One field of a message.
pub struct Field {
    pub name: String,
    pub field_type: FieldType,
}

/// One entry of a message body: a field, a nested declaration by id, or an
/// unsupported "exactly one of" group carrying its name.
pub enum MessageEntry {
    Field(Field),
    Declaration(usize),
    OneOf(String),
}

/// A schema message declaration.
pub struct MessageDeclaration {
    pub name: String,
    pub entries: Vec<MessageEntry>,
}

/// A declaration in the arena.
pub enum Declaration {
    Enum(EnumDeclaration),
    Message(MessageDeclaration),
}

/// One import statement of a schema file.
pub struct ImportPath {
    pub packages: Vec<String>,
    pub file_name: String,
}

/// A schema file: its name, its package path, its top-level declarations by
/// id, and its imports.
pub struct ProtoFile {
    pub name: String,
    pub path: Vec<String>,
    pub declarations: Vec<usize>,
    pub imports: Vec<ImportPath>,
}

/// One node of the package hierarchy: a package segment, the files declared
/// at this path (by id), and the child packages.
pub struct PackageNode {
    pub segment: String,
    pub files: Vec<usize>,
    pub children: Vec<PackageNode>,
}

/// The whole declaration tree: the declaration arena, the file arena, and
/// the package hierarchy. `name` names the destination root folder.
pub struct PackageTree {
    pub name: String,
    pub arena: Vec<Declaration>,
    pub files: Vec<ProtoFile>,
    pub root: PackageNode,
}

/// The declared name of a declaration.
pub open spec fn decl_name(d: Declaration) -> Seq<char> {
    match d {
        Declaration::Enum(e) => e.name@,
        Declaration::Message(m) => m.name@,
    }
}

/// Every nested declaration id of these entries is in bounds and strictly
/// below `owner`: the parser allocates children before their parent.
pub open spec fn entries_wf(es: Seq<MessageEntry>, owner: int) -> bool {
    forall|i: int|
        0 <= i < es.len() ==> ((#[trigger] es[i]) matches MessageEntry::Declaration(c) ==> 0 <= c
            < owner)
}

/// The arena is well formed: children stand strictly before their parent.
pub open spec fn arena_wf(arena: Seq<Declaration>) -> bool {
    forall|m: int|
        0 <= m < arena.len() ==> ((#[trigger] arena[m]) matches Declaration::Message(msg)
            ==> entries_wf(msg.entries@, m))
}

/// A file is well formed against the arena: declaration ids are in bounds
/// and every import names at least one package segment.
pub open spec fn file_wf(f: ProtoFile, arena_len: int) -> bool {
    &&& (forall|i: int| 0 <= i < f.declarations@.len() ==> #[trigger] f.declarations@[i] < arena_len)
    &&& (forall|i: int| 0 <= i < f.imports@.len() ==> (#[trigger] f.imports@[i]).packages@.len() > 0)
}

/// A package node is well formed against the file arena.
pub open spec fn node_wf(n: PackageNode, files_len: int) -> bool
    decreases n,
{
    &&& (forall|i: int| 0 <= i < n.files@.len() ==> #[trigger] n.files@[i] < files_len)
    &&& (forall|i: int|
        0 <= i < n.children@.len() ==> node_wf(#[trigger] n.children@[i], files_len))
}

/// The whole tree is well formed.
pub open spec fn tree_wf(t: PackageTree) -> bool {
    &&& arena_wf(t.arena@)
    &&& (forall|i: int| 0 <= i < t.files@.len() ==> file_wf(#[trigger] t.files@[i], t.arena@.len() as int))
    &&& node_wf(t.root, t.files@.len() as int)
}

/// The first nested declaration of `es`, from index `from` on, whose name is
/// `name`.
pub open spec fn find_decl_in_entries(
    arena: Seq<Declaration>,
    es: Seq<MessageEntry>,
    name: Seq<char>,
    from: int,
) -> Option<usize>
    decreases es.len() - from,
{
    if from < 0 || from >= es.len() {
        None
    } else if es[from] matches MessageEntry::Declaration(c) && 0 <= c < arena.len() && decl_name(
        arena[c as int],
    ) == name {
        Some(es[from]->Declaration_0)
    } else {
        find_decl_in_entries(arena, es, name, from + 1)
    }
}

/// The first declaration among `ids`, from index `from` on, whose name is
/// `name`.
pub open spec fn find_decl_in_ids(
    arena: Seq<Declaration>,
    ids: Seq<usize>,
    name: Seq<char>,
    from: int,
) -> Option<usize>
    decreases ids.len() - from,
{
    if from < 0 || from >= ids.len() {
        None
    } else if ids[from] < arena.len() && decl_name(arena[ids[from] as int]) == name {
        Some(ids[from])
    } else {
        find_decl_in_ids(arena, ids, name, from + 1)
    }
}

impl MessageDeclaration {
    /// The first directly nested declaration named `name`, as its arena id.
    pub fn resolve(&self, arena: &Vec<Declaration>, name: &String) -> (r: Option<usize>)
        ensures
            r == find_decl_in_entries(arena@, self.entries@, name@, 0),
            r matches Some(id) ==> id < arena@.len(),
    {
        let mut i: usize = 0;
        while i < self.entries.len()
            invariant
                i <= self.entries@.len(),
                find_decl_in_entries(arena@, self.entries@, name@, 0) == find_decl_in_entries(
                    arena@,
                    self.entries@,
                    name@,
                    i as int,
                ),
            decreases self.entries@.len() - i,
        {
            match &self.entries[i] {
                MessageEntry::Declaration(c) => {
                    if *c < arena.len() {
                        let matches_name = match &arena[*c] {
                            Declaration::Enum(e) => e.name == *name,
                            Declaration::Message(m) => m.name == *name,
                        };
                        if matches_name {
                            return Some(*c);
                        }
                    }
                },
                _ => {},
            }
            i = i + 1;
        }
        None
    }
}

impl ProtoFile {
    /// The first top-level declaration named `name`, as its arena id.
    pub fn resolve(&self, arena: &Vec<Declaration>, name: &String) -> (r: Option<usize>)
        ensures
            r == find_decl_in_ids(arena@, self.declarations@, name@, 0),
            r matches Some(id) ==> id < arena@.len(),
    {
        let mut i: usize = 0;
        while i < self.declarations.len()
            invariant
                i <= self.declarations@.len(),
                find_decl_in_ids(arena@, self.declarations@, name@, 0) == find_decl_in_ids(
                    arena@,
                    self.declarations@,
                    name@,
                    i as int,
                ),
            decreases self.declarations@.len() - i,
        {
            let id = self.declarations[i];
            if id < arena.len() {
                let matches_name = match &arena[id] {
                    Declaration::Enum(e) => e.name == *name,
                    Declaration::Message(m) => m.name == *name,
                };
                if matches_name {
                    return Some(id);
                }
            }
            i = i + 1;
        }
        None
    }

    /// The file's displayable path: each package segment followed by a
    /// slash, then the file name.
    pub fn full_path(&self) -> (r: String)
        ensures
            r@ == full_path_v(string_views(self.path@), self.name@),
    {
        let mut res = String::new();
        let mut i: usize = 0;
        proof {
            assert(res@ =~= segments_slash_v(string_views(self.path@), 0));
        }
        while i < self.path.len()
            invariant
                i <= self.path@.len(),
                res@ == segments_slash_v(string_views(self.path@), i as int),
            decreases self.path@.len() - i,
        {
            res.append(self.path[i].as_str());
            res.append("/");
            proof {
                assert(res@ =~= segments_slash_v(string_views(self.path@), i as int + 1));
            }
            i = i + 1;
        }
        res.append(self.name.as_str());
        res
    }
}

/// The first `upto` segments, each followed by a slash.
pub open spec fn segments_slash_v(segs: Seq<Seq<char>>, upto: int) -> Seq<char>
    decreases upto,
{
    if upto <= 0 {
        Seq::empty()
    } else {
        segments_slash_v(segs, upto - 1) + segs[upto - 1] + "/"@
    }
}

/// A file's displayable path: its package segments, each followed by a
/// slash, then its name.
pub open spec fn full_path_v(segs: Seq<Seq<char>>, name: Seq<char>) -> Seq<char> {
    segments_slash_v(segs, segs.len() as int) + name
}

/// The index of the first child of `cs`, from `from` on, whose segment is
/// `seg`.
pub open spec fn first_child_index(cs: Seq<PackageNode>, seg: Seq<char>, from: int) -> Option<int>
    decreases cs.len() - from,
{
    if from < 0 || from >= cs.len() {
        None
    } else if cs[from].segment@ == seg {
        Some(from)
    } else {
        first_child_index(cs, seg, from + 1)
    }
}

/// The subtree reached from `node` by the path segments from `from` on:
/// descend into the first child matching each segment.
pub open spec fn subtree_of(node: PackageNode, path: Seq<Seq<char>>, from: int) -> Option<
    PackageNode,
>
    decreases path.len() - from,
{
    if from >= path.len() {
        Some(node)
    } else {
        match first_child_index(node.children@, path[from], 0) {
            Some(j) => subtree_of(node.children@[j], path, from + 1),
            None => None,
        }
    }
}

impl PackageNode {
    /// The subtree at the given package path, if the hierarchy holds one.
    pub fn resolve_subtree<'a>(&'a self, path: &Vec<String>, from: usize) -> (r: Option<
        &'a PackageNode,
    >)
        ensures
            match r {
                Some(n) => subtree_of(*self, string_views(path@), from as int) == Some(*n),
                None => subtree_of(*self, string_views(path@), from as int) is None,
            },
        decreases path@.len() - from,
    {
        if from >= path.len() {
            return Some(self);
        }
        let next = from + 1;
        let mut i: usize = 0;
        while i < self.children.len()
            invariant
                i <= self.children@.len(),
                from < path@.len(),
                next == from + 1,
                first_child_index(self.children@, string_views(path@)[from as int], 0)
                    == first_child_index(self.children@, string_views(path@)[from as int], i as int),
            decreases self.children@.len() - i,
        {
            if self.children[i].segment == path[from] {
                return self.children[i].resolve_subtree(path, next);
            }
            i = i + 1;
        }
        None
    }

    /// The id of the first file in this node's file list whose name is
    /// `file_name`.
    pub fn find_file(&self, tree_files: &Vec<ProtoFile>, file_name: &String) -> (r: Option<usize>)
        ensures
            r == find_file_in(tree_files@, self.files@, file_name@, 0),
            r matches Some(id) ==> id < tree_files@.len(),
    {
        let mut i: usize = 0;
        while i < self.files.len()
            invariant
                i <= self.files@.len(),
                find_file_in(tree_files@, self.files@, file_name@, 0) == find_file_in(
                    tree_files@,
                    self.files@,
                    file_name@,
                    i as int,
                ),
            decreases self.files@.len() - i,
        {
            let id = self.files[i];
            if id < tree_files.len() {
                if tree_files[id].name == *file_name {
                    return Some(id);
                }
            }
            i = i + 1;
        }
        None
    }
}

/// The first file id among `ids`, from `from` on, naming a file called
/// `name`.
pub open spec fn find_file_in(
    files: Seq<ProtoFile>,
    ids: Seq<usize>,
    name: Seq<char>,
    from: int,
) -> Option<usize>
    decreases ids.len() - from,
{
    if from < 0 || from >= ids.len() {
        None
    } else if ids[from] < files.len() && files[ids[from] as int].name@ == name {
        Some(ids[from])
    } else {
        find_file_in(files, ids, name, from + 1)
    }
}

} // verus!

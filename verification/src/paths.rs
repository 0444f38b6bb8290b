//! Canonical schema-space addresses and generated-module addresses, and the
//! fixed translation between the two.

use vstd::prelude::*;

verus! {

/// One segment of a canonical schema-space address.
pub enum PathComponent {
    Package(String),
    File(String),
    Message(String),
    Enum(String),
}

/// The kind and name of a schema-space segment.
pub enum PathCompV {
    Package(Seq<char>),
    File(Seq<char>),
    Message(Seq<char>),
    Enum(Seq<char>),
}

/// One segment of a generated-module address.
pub enum TsPathComponent {
    Folder(String),
    File(String),
    Enum(String),
    Interface(String),
    Function(String),
}

/// The kind and name of a generated-module segment.
pub enum TsCompV {
    Folder(Seq<char>),
    File(Seq<char>),
    Enum(Seq<char>),
    Interface(Seq<char>),
    Function(Seq<char>),
}

/// The value of a schema-space segment.
pub open spec fn pc_view(c: PathComponent) -> PathCompV {
    match c {
        PathComponent::Package(s) => PathCompV::Package(s@),
        PathComponent::File(s) => PathCompV::File(s@),
        PathComponent::Message(s) => PathCompV::Message(s@),
        PathComponent::Enum(s) => PathCompV::Enum(s@),
    }
}

/// The value of a generated-module segment.
pub open spec fn ts_view(c: TsPathComponent) -> TsCompV {
    match c {
        TsPathComponent::Folder(s) => TsCompV::Folder(s@),
        TsPathComponent::File(s) => TsCompV::File(s@),
        TsPathComponent::Enum(s) => TsCompV::Enum(s@),
        TsPathComponent::Interface(s) => TsCompV::Interface(s@),
        TsPathComponent::Function(s) => TsCompV::Function(s@),
    }
}

/// The name carried by a generated-module segment value.
pub open spec fn ts_name(c: TsCompV) -> Seq<char> {
    match c {
        TsCompV::Folder(s) => s,
        TsCompV::File(s) => s,
        TsCompV::Enum(s) => s,
        TsCompV::Interface(s) => s,
        TsCompV::Function(s) => s,
    }
}

/// A segment that names a declaration rather than a place.
pub open spec fn is_decl_v(c: TsCompV) -> bool {
    c is Enum || c is Interface || c is Function
}

/// A canonical schema-space address.
pub struct ProtoPath {
    pub path: Vec<PathComponent>,
}

/// The values of a schema-space address, in order.
pub open spec fn proto_view(p: ProtoPath) -> Seq<PathCompV> {
    Seq::new(p.path@.len(), |i: int| pc_view(p.path@[i]))
}

impl ProtoPath {
    pub fn new() -> (r: Self)
        ensures
            proto_view(r).len() == 0,
    {
        ProtoPath { path: Vec::new() }
    }

    pub fn push(&mut self, item: PathComponent)
        ensures
            proto_view(*final(self)) =~= proto_view(*old(self)).push(pc_view(item)),
    {
        self.path.push(item);
        proof {
            assert(proto_view(*self) =~= proto_view(*old(self)).push(pc_view(item)));
        }
    }

    pub fn is_empty(&self) -> (r: bool)
        ensures
            r == (proto_view(*self).len() == 0),
    {
        self.path.len() == 0
    }
}

/// A generated-module address.
pub struct TsPath {
    pub path: Vec<TsPathComponent>,
}

/// The values of a generated-module address, in order.
pub open spec fn ts_path_view(p: TsPath) -> Seq<TsCompV> {
    Seq::new(p.path@.len(), |i: int| ts_view(p.path@[i]))
}

impl TsPathComponent {
    /// The segment names a declaration (an enum, interface or function).
    pub fn is_declaration(&self) -> (r: bool)
        ensures
            r == is_decl_v(ts_view(*self)),
    {
        match self {
            TsPathComponent::Folder(_) => false,
            TsPathComponent::File(_) => false,
            TsPathComponent::Enum(_) => true,
            TsPathComponent::Interface(_) => true,
            TsPathComponent::Function(_) => true,
        }
    }

    pub fn is_file(&self) -> (r: bool)
        ensures
            r == (ts_view(*self) is File),
    {
        match self {
            TsPathComponent::File(_) => true,
            _ => false,
        }
    }

    pub fn is_folder(&self) -> (r: bool)
        ensures
            r == (ts_view(*self) is Folder),
    {
        match self {
            TsPathComponent::Folder(_) => true,
            _ => false,
        }
    }

    /// Structural copy of the segment.
    pub fn duplicate(&self) -> (r: Self)
        ensures
            ts_view(r) == ts_view(*self),
    {
        match self {
            TsPathComponent::Folder(s) => TsPathComponent::Folder(s.clone()),
            TsPathComponent::File(s) => TsPathComponent::File(s.clone()),
            TsPathComponent::Enum(s) => TsPathComponent::Enum(s.clone()),
            TsPathComponent::Interface(s) => TsPathComponent::Interface(s.clone()),
            TsPathComponent::Function(s) => TsPathComponent::Function(s.clone()),
        }
    }

    /// The name the segment carries.
    pub fn name_string(&self) -> (r: String)
        ensures
            r@ == ts_name(ts_view(*self)),
    {
        match self {
            TsPathComponent::Folder(s) => s.clone(),
            TsPathComponent::File(s) => s.clone(),
            TsPathComponent::Enum(s) => s.clone(),
            TsPathComponent::Interface(s) => s.clone(),
            TsPathComponent::Function(s) => s.clone(),
        }
    }

    /// Equality of two segments: same kind, same name.
    pub fn eq_component(&self, other: &Self) -> (r: bool)
        ensures
            r == (ts_view(*self) == ts_view(*other)),
    {
        match (self, other) {
            (TsPathComponent::Folder(a), TsPathComponent::Folder(b)) => *a == *b,
            (TsPathComponent::File(a), TsPathComponent::File(b)) => *a == *b,
            (TsPathComponent::Enum(a), TsPathComponent::Enum(b)) => *a == *b,
            (TsPathComponent::Interface(a), TsPathComponent::Interface(b)) => *a == *b,
            (TsPathComponent::Function(a), TsPathComponent::Function(b)) => *a == *b,
            _ => false,
        }
    }
}

/// The index of the first declaration segment of `s` at or after `from`, or
/// `s.len()` if none follows.
pub open spec fn first_decl_index(s: Seq<TsCompV>, from: int) -> int
    decreases s.len() - from,
{
    if from < 0 || from >= s.len() {
        s.len() as int
    } else if is_decl_v(s[from]) {
        from
    } else {
        first_decl_index(s, from + 1)
    }
}

impl TsPath {
    pub fn new() -> (r: Self)
        ensures
            ts_path_view(r).len() == 0,
    {
        TsPath { path: Vec::new() }
    }

    pub fn push(&mut self, item: TsPathComponent)
        ensures
            ts_path_view(*final(self)) =~= ts_path_view(*old(self)).push(ts_view(item)),
    {
        self.path.push(item);
        proof {
            assert(ts_path_view(*self) =~= ts_path_view(*old(self)).push(ts_view(item)));
        }
    }

    /// The prefix of the path before its first declaration segment: the
    /// address of the file the path points into.
    pub fn file_path(&self) -> (r: Self)
        ensures
            ts_path_view(r) == ts_path_view(*self).take(first_decl_index(ts_path_view(*self), 0)),
    {
        let ghost whole = ts_path_view(*self);
        let mut res = TsPath::new();
        let mut i: usize = 0;
        while i < self.path.len()
            invariant
                i <= self.path@.len(),
                whole == ts_path_view(*self),
                whole.len() == self.path@.len(),
                forall|j: int| 0 <= j < i ==> !is_decl_v(whole[j]),
                ts_path_view(res) =~= whole.take(i as int),
            decreases self.path@.len() - i,
        {
            if self.path[i].is_declaration() {
                proof {
                    lemma_first_decl_index(whole, i as int);
                    assert(ts_path_view(res) =~= whole.take(first_decl_index(whole, 0)));
                }
                return res;
            }
            let c = self.path[i].duplicate();
            res.push(c);
            proof {
                assert(ts_path_view(res) =~= whole.take(i as int + 1));
            }
            i = i + 1;
        }
        proof {
            lemma_first_decl_index_none(whole);
            assert(ts_path_view(res) =~= whole.take(first_decl_index(whole, 0)));
        }
        res
    }

    /// Structural copy of the path.
    pub fn duplicate(&self) -> (r: Self)
        ensures
            ts_path_view(r) == ts_path_view(*self),
    {
        let mut res = TsPath::new();
        let mut i: usize = 0;
        while i < self.path.len()
            invariant
                i <= self.path@.len(),
                ts_path_view(res) =~= ts_path_view(*self).take(i as int),
            decreases self.path@.len() - i,
        {
            let c = self.path[i].duplicate();
            res.push(c);
            proof {
                assert(ts_path_view(res) =~= ts_path_view(*self).take(i as int + 1));
            }
            i = i + 1;
        }
        proof {
            assert(ts_path_view(*self).take(self.path@.len() as int) =~= ts_path_view(*self));
        }
        res
    }
}

/// If no segment before `i` is a declaration and segment `i` is one, `i` is
/// the first declaration index.
proof fn lemma_first_decl_index(s: Seq<TsCompV>, i: int)
    requires
        0 <= i < s.len(),
        is_decl_v(s[i]),
        forall|j: int| 0 <= j < i ==> !is_decl_v(s[j]),
    ensures
        first_decl_index(s, 0) == i,
    decreases i,
{
    lemma_first_decl_step(s, 0, i);
}

/// Unrolling: if no segment in `from..i` is a declaration, the search from
/// `from` equals the search from `i`.
proof fn lemma_first_decl_step(s: Seq<TsCompV>, from: int, i: int)
    requires
        0 <= from <= i <= s.len(),
        forall|j: int| from <= j < i ==> !is_decl_v(s[j]),
    ensures
        first_decl_index(s, from) == first_decl_index(s, i),
    decreases i - from,
{
    if from < i {
        lemma_first_decl_step(s, from + 1, i);
    }
}

/// If no segment is a declaration, the first declaration index is the
/// length.
proof fn lemma_first_decl_index_none(s: Seq<TsCompV>)
    requires
        forall|j: int| 0 <= j < s.len() ==> !is_decl_v(s[j]),
    ensures
        first_decl_index(s, 0) == s.len(),
{
    lemma_first_decl_step(s, 0, s.len() as int);
}

/// Equality of two module addresses, segment by segment.
pub fn ts_path_eq(a: &TsPath, b: &TsPath) -> (r: bool)
    ensures
        r == (ts_path_view(*a) == ts_path_view(*b)),
{
    if a.path.len() != b.path.len() {
        proof {
            assert(ts_path_view(*a).len() != ts_path_view(*b).len());
        }
        return false;
    }
    let mut i: usize = 0;
    while i < a.path.len()
        invariant
            i <= a.path@.len(),
            a.path@.len() == b.path@.len(),
            forall|j: int| 0 <= j < i ==> ts_path_view(*a)[j] == ts_path_view(*b)[j],
        decreases a.path@.len() - i,
    {
        if !a.path[i].eq_component(&b.path[i]) {
            proof {
                assert(ts_path_view(*a)[i as int] != ts_path_view(*b)[i as int]);
            }
            return false;
        }
        i = i + 1;
    }
    proof {
        assert(ts_path_view(*a) =~= ts_path_view(*b));
    }
    true
}

/// The folder a schema file's artifacts are generated under: the file name
/// with a trailing `.proto` removed, the name unchanged otherwise.
pub open spec fn folder_name_of(s: Seq<char>) -> Seq<char> {
    if s.len() >= 6 && s.subrange(s.len() - 6, s.len() as int) == ".proto"@ {
        s.take(s.len() - 6)
    } else {
        s
    }
}

/// The deterministic file-to-folder naming rule of the translation.
pub fn file_name_to_folder_name(name: &String) -> (r: String)
    ensures
        r@ == folder_name_of(name@),
{
    let n = name.as_str().unicode_len();
    if n >= 6 {
        let suffix = name.as_str().substring_char(n - 6, n);
        let sfx: String = suffix.to_owned();
        let dot: String = ".proto".to_owned();
        if sfx == dot {
            proof {
                reveal_strlit(".proto");
            }
            let stem = name.as_str().substring_char(0, n - 6);
            return stem.to_owned();
        }
        proof {
            reveal_strlit(".proto");
        }
    }
    name.clone()
}

/// The fixed segment-by-segment mapping into module space: a package, a
/// file or a message becomes a folder (the file under its folder name); an
/// enum becomes a file of its own name.
pub open spec fn translate_v(c: PathCompV) -> TsCompV {
    match c {
        PathCompV::Package(s) => TsCompV::Folder(s),
        PathCompV::File(s) => TsCompV::Folder(folder_name_of(s)),
        PathCompV::Message(s) => TsCompV::Folder(s),
        PathCompV::Enum(s) => TsCompV::File(s),
    }
}

/// Translate a canonical schema-space address into a generated-module
/// address, segment by segment, order preserved.
pub fn proto_path_to_ts_path(proto_path: &ProtoPath) -> (r: TsPath)
    ensures
        ts_path_view(r).len() == proto_view(*proto_path).len(),
        forall|i: int|
            0 <= i < proto_view(*proto_path).len() ==> ts_path_view(r)[i] == translate_v(
                #[trigger] proto_view(*proto_path)[i],
            ),
{
    let mut res = TsPath::new();
    let mut i: usize = 0;
    while i < proto_path.path.len()
        invariant
            i <= proto_path.path@.len(),
            ts_path_view(res).len() == i as int,
            forall|j: int|
                0 <= j < i ==> ts_path_view(res)[j] == translate_v(
                    #[trigger] proto_view(*proto_path)[j],
                ),
        decreases proto_path.path@.len() - i,
    {
        let c = match &proto_path.path[i] {
            PathComponent::Package(s) => TsPathComponent::Folder(s.clone()),
            PathComponent::File(s) => TsPathComponent::Folder(file_name_to_folder_name(s)),
            PathComponent::Message(s) => TsPathComponent::Folder(s.clone()),
            PathComponent::Enum(s) => TsPathComponent::File(s.clone()),
        };
        res.push(c);
        i = i + 1;
    }
    res
}

} // verus!

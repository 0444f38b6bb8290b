//! The generated-module syntax tree: identifiers, import declarations,
//! type expressions, interface and enum declarations, files and folders.

use vstd::prelude::*;

verus! {

/// A quoted string literal in a generated source file.
pub struct StringLiteral {
    pub text: String,
}

impl StringLiteral {
    pub fn new(text: String) -> (r: Self)
        ensures
            r.text@ == text@,
    {
        Self { text }
    }
}

/// A plain identifier in a generated source file.
pub struct Identifier {
    pub text: String,
}

impl Identifier {
    pub fn new(text: String) -> (r: Self)
        ensures
            r.text@ == text@,
    {
        Self { text }
    }

    /// Structural copy of the identifier.
    pub fn duplicate(&self) -> (r: Self)
        ensures
            r.text@ == self.text@,
    {
        Identifier { text: self.text.clone() }
    }
}

/// A numeric literal in a generated source file.
pub struct NumericLiteral {
    pub value: i64,
}

/// One named binding of an import declaration: `name` or
/// `property_name as name`.
pub struct ImportSpecifier {
    pub name: Identifier,
    pub property_name: Option<Identifier>,
}

impl ImportSpecifier {
    pub fn new_full(name: Identifier, property_name: Option<Identifier>) -> (r: Self)
        ensures
            r.name == name,
            r.property_name == property_name,
    {
        Self { name, property_name }
    }

    pub fn new(name: Identifier) -> (r: Self)
        ensures
            r.name == name,
            r.property_name is None,
    {
        Self { name, property_name: None }
    }
}

/// The clause of an import declaration: an optional default binding and the
/// optional list of named bindings.
pub struct ImportClause {
    pub name: Option<Identifier>,
    pub named_bindings: Option<Vec<ImportSpecifier>>,
}

/// `import { bindings } from "specifier"`.
pub struct ImportDeclaration {
    pub import_clause: Box<ImportClause>,
    pub string_literal: StringLiteral,
}

impl ImportDeclaration {
    pub fn import(specifiers: Vec<ImportSpecifier>, file_path: StringLiteral) -> (r: Self)
        ensures
            r.import_clause.name is None,
            r.import_clause.named_bindings == Some(specifiers),
            r.string_literal == file_path,
    {
        Self {
            import_clause: Box::new(ImportClause { name: None, named_bindings: Some(specifiers) }),
            string_literal: file_path,
        }
    }
}

/// A declaration modifier.
#[derive(PartialEq, Eq, Structural, Clone, Copy)]
pub enum Modifier {
    Export,
}

/// The value of an enum member.
pub enum EnumValue {
    Text(StringLiteral),
    Number(NumericLiteral),
}

/// One member of a generated enum declaration.
pub struct EnumMember {
    pub name: Identifier,
    pub value: Option<EnumValue>,
}

/// A generated enum declaration.
pub struct EnumDeclaration {
    pub modifiers: Vec<Modifier>,
    pub name: Identifier,
    pub members: Vec<EnumMember>,
}

/// A union of type expressions, kept flat and free of duplicates by `push`.
pub struct UnionType {
    pub types: Vec<Type>,
}

/// A type expression in a generated source file.
pub enum Type {
    Number,
    Null,
    Undefined,
    Never,
    Void,
    Boolean,
    String,
    UnionType(UnionType),
    ArrayType(Box<Type>),
    Record(Box<Type>, Box<Type>),
    TypeReference(Vec<Identifier>),
}

/// The mathematical value of a type expression.
pub enum TypeV {
    Number,
    Null,
    Undefined,
    Never,
    Void,
    Boolean,
    String,
    Union(Seq<TypeV>),
    Array(Box<TypeV>),
    Record(Box<TypeV>, Box<TypeV>),
    Reference(Seq<Seq<char>>),
}

/// The views of a sequence of identifiers.
pub open spec fn idents_view(s: Seq<Identifier>) -> Seq<Seq<char>> {
    Seq::new(s.len(), |i: int| s[i].text@)
}

/// The mathematical value of a type expression.
pub open spec fn type_view(t: Type) -> TypeV
    decreases t,
{
    match t {
        Type::Number => TypeV::Number,
        Type::Null => TypeV::Null,
        Type::Undefined => TypeV::Undefined,
        Type::Never => TypeV::Never,
        Type::Void => TypeV::Void,
        Type::Boolean => TypeV::Boolean,
        Type::String => TypeV::String,
        Type::UnionType(u) => TypeV::Union(types_view(u.types@)),
        Type::ArrayType(inner) => TypeV::Array(Box::new(type_view(*inner))),
        Type::Record(k, v) => TypeV::Record(Box::new(type_view(*k)), Box::new(type_view(*v))),
        Type::TypeReference(ids) => TypeV::Reference(idents_view(ids@)),
    }
}

/// The mathematical values of a sequence of type expressions.
pub open spec fn types_view(s: Seq<Type>) -> Seq<TypeV>
    decreases s,
{
    if s.len() == 0 {
        Seq::empty()
    } else {
        types_view(s.drop_last()).push(type_view(s.last()))
    }
}

/// `types_view` maps the sequence pointwise.
pub proof fn lemma_types_view(s: Seq<Type>)
    ensures
        types_view(s).len() == s.len(),
        forall|i: int| 0 <= i < s.len() ==> #[trigger] types_view(s)[i] == type_view(s[i]),
    decreases s.len(),
{
    if s.len() > 0 {
        lemma_types_view(s.drop_last());
    }
}

/// Structural copy of a list of type expressions.
pub fn duplicate_types(ts: &Vec<Type>) -> (r: Vec<Type>)
    ensures
        types_view(r@) == types_view(ts@),
    decreases ts@,
{
    let mut out: Vec<Type> = Vec::new();
    let mut i: usize = 0;
    while i < ts.len()
        invariant
            i <= ts.len(),
            out@.len() == i as int,
            forall|j: int|
                0 <= j < i ==> type_view(#[trigger] out@[j]) == type_view(ts@[j]),
        decreases ts@.len() - i,
    {
        let t = ts[i].duplicate();
        out.push(t);
        i = i + 1;
    }
    proof {
        lemma_types_view(out@);
        lemma_types_view(ts@);
        assert(types_view(out@) =~= types_view(ts@));
    }
    out
}

/// What pushing one type onto a union yields: `Never` is dropped, a nested
/// union is flattened element by element, and a duplicate member is dropped.
pub open spec fn union_push_v(acc: Seq<TypeV>, t: TypeV) -> Seq<TypeV>
    decreases t,
{
    match t {
        TypeV::Never => acc,
        TypeV::Union(xs) => union_push_all_v(acc, xs),
        _ => if acc.contains(t) {
            acc
        } else {
            acc.push(t)
        },
    }
}

/// The union of two type values: both are pushed onto an empty union, which
/// is then collapsed as `UnionType::into_type` does.
pub open spec fn or_v(a: TypeV, b: TypeV) -> TypeV {
    let ts = union_push_v(union_push_v(Seq::empty(), a), b);
    if ts.len() == 0 {
        TypeV::Never
    } else if ts.len() == 1 {
        ts[0]
    } else {
        TypeV::Union(ts)
    }
}

/// `union_push_v` folded over a sequence of members, left to right.
pub open spec fn union_push_all_v(acc: Seq<TypeV>, xs: Seq<TypeV>) -> Seq<TypeV>
    decreases xs,
{
    if xs.len() == 0 {
        acc
    } else {
        union_push_all_v(union_push_v(acc, xs[0]), xs.skip(1))
    }
}

/// The value of a type that is neither `Never` nor a union is itself neither
/// `Never` nor a union.
pub proof fn lemma_view_not_special(t: Type)
    requires
        !(t is Never),
        !(t is UnionType),
    ensures
        !(type_view(t) is Never),
        !(type_view(t) is Union),
{
    match t {
        Type::Number => {},
        Type::Null => {},
        Type::Undefined => {},
        Type::Never => {},
        Type::Void => {},
        Type::Boolean => {},
        Type::String => {},
        Type::UnionType(_) => {},
        Type::ArrayType(_) => {},
        Type::Record(_, _) => {},
        Type::TypeReference(_) => {},
    }
}

impl UnionType {
    pub fn new() -> (r: Self)
        ensures
            r.types@.len() == 0,
    {
        Self { types: Vec::new() }
    }

    /// Add a member to the union: drops `Never`, flattens nested unions and
    /// keeps the member list free of duplicates.
    pub fn push(&mut self, t: &Type)
        ensures
            types_view(final(self).types@) == union_push_v(
                types_view(old(self).types@),
                type_view(*t),
            ),
        decreases *t,
    {
        match t {
            Type::Never => {},
            Type::UnionType(u) => {
                self.push_all(&u.types);
            },
            Type::Number | Type::Null | Type::Undefined | Type::Void | Type::Boolean
                | Type::String | Type::ArrayType(_) | Type::Record(_, _)
                | Type::TypeReference(_) => {
                let ghost acc0 = types_view(self.types@);
                let ghost tv = type_view(*t);
                proof {
                    lemma_view_not_special(*t);
                }
                let mut i: usize = 0;
                while i < self.types.len()
                    invariant
                        i <= self.types@.len(),
                        types_view(self.types@) == acc0,
                        tv == type_view(*t),
                        !(tv is Never),
                        !(tv is Union),
                        forall|j: int| 0 <= j < i ==> acc0[j] != tv,
                    decreases self.types@.len() - i,
                {
                    proof {
                        lemma_types_view(self.types@);
                    }
                    if self.types[i].eq_type(t) {
                        proof {
                            assert(acc0[i as int] == tv);
                            assert(acc0.contains(tv));
                            assert(!(tv is Never));
                            assert(!(tv is Union));
                            assert(union_push_v(acc0, tv) == acc0);
                        }
                        return ;
                    }
                    i = i + 1;
                }
                proof {
                    lemma_types_view(self.types@);
                    assert(forall|j: int| 0 <= j < acc0.len() ==> acc0[j] != tv);
                    assert(!acc0.contains(tv));
                }
                let dup = t.duplicate();
                let ghost before = self.types@;
                self.types.push(dup);
                proof {
                    lemma_types_view(self.types@);
                    lemma_types_view(before);
                    assert(types_view(self.types@) =~= acc0.push(tv));
                }
            },
        }
    }

    /// Push every member of `ts`, in order.
    pub fn push_all(&mut self, ts: &Vec<Type>)
        ensures
            types_view(final(self).types@) == union_push_all_v(
                types_view(old(self).types@),
                types_view(ts@),
            ),
        decreases ts@,
    {
        let ghost acc0 = types_view(self.types@);
        let ghost tvs = types_view(ts@);
        proof {
            lemma_types_view(ts@);
            assert(tvs.skip(0) =~= tvs);
        }
        let mut i: usize = 0;
        while i < ts.len()
            invariant
                i <= ts@.len(),
                tvs == types_view(ts@),
                tvs.len() == ts@.len(),
                forall|j: int| 0 <= j < ts@.len() ==> tvs[j] == type_view(ts@[j]),
                union_push_all_v(types_view(self.types@), tvs.skip(i as int)) == union_push_all_v(
                    acc0,
                    tvs,
                ),
            decreases ts@.len() - i,
        {
            let ghost cur = types_view(self.types@);
            self.push(&ts[i]);
            proof {
                let s = tvs.skip(i as int);
                assert(s[0] == tvs[i as int]);
                assert(s.skip(1) =~= tvs.skip(i as int + 1));
                assert(union_push_all_v(cur, s) == union_push_all_v(
                    union_push_v(cur, s[0]),
                    s.skip(1),
                ));
            }
            i = i + 1;
        }
        proof {
            assert(tvs.skip(ts@.len() as int) =~= Seq::<TypeV>::empty());
        }
    }

    /// Collapse the union: no member is `Never`, one member is that member
    /// alone, more members stay a union.
    pub fn into_type(self) -> (r: Type)
        ensures
            type_view(r) == (if self.types@.len() == 0 {
                TypeV::Never
            } else if self.types@.len() == 1 {
                type_view(self.types@[0])
            } else {
                TypeV::Union(types_view(self.types@))
            }),
    {
        proof {
            lemma_types_view(self.types@);
        }
        if self.types.len() == 0 {
            Type::Never
        } else if self.types.len() == 1 {
            let mut u = self;
            let r = u.types.pop().unwrap();
            r
        } else {
            Type::UnionType(self)
        }
    }
}

/// Equality of two lists of type expressions, as their mathematical values.
pub fn eq_types(a: &Vec<Type>, b: &Vec<Type>) -> (r: bool)
    ensures
        r == (types_view(a@) == types_view(b@)),
    decreases a@,
{
    proof {
        lemma_types_view(a@);
        lemma_types_view(b@);
    }
    if a.len() != b.len() {
        proof {
            assert(types_view(a@).len() != types_view(b@).len());
        }
        return false;
    }
    let mut i: usize = 0;
    while i < a.len()
        invariant
            i <= a@.len(),
            a@.len() == b@.len(),
            types_view(a@).len() == a@.len(),
            types_view(b@).len() == b@.len(),
            forall|j: int| 0 <= j < a@.len() ==> #[trigger] types_view(a@)[j] == type_view(a@[j]),
            forall|j: int| 0 <= j < b@.len() ==> #[trigger] types_view(b@)[j] == type_view(b@[j]),
            forall|j: int| 0 <= j < i ==> types_view(a@)[j] == types_view(b@)[j],
        decreases a@.len() - i,
    {
        if !a[i].eq_type(&b[i]) {
            proof {
                assert(types_view(a@)[i as int] != types_view(b@)[i as int]);
            }
            return false;
        }
        i = i + 1;
    }
    proof {
        assert(types_view(a@) =~= types_view(b@));
    }
    true
}

/// Equality of two identifier lists, as their text.
pub fn eq_idents(a: &Vec<Identifier>, b: &Vec<Identifier>) -> (r: bool)
    ensures
        r == (idents_view(a@) == idents_view(b@)),
{
    if a.len() != b.len() {
        proof {
            assert(idents_view(a@).len() != idents_view(b@).len());
        }
        return false;
    }
    let mut i: usize = 0;
    while i < a.len()
        invariant
            i <= a@.len(),
            a@.len() == b@.len(),
            forall|j: int| 0 <= j < i ==> #[trigger] a@[j].text@ == b@[j].text@,
        decreases a@.len() - i,
    {
        if !(a[i].text == b[i].text) {
            proof {
                assert(idents_view(a@)[i as int] != idents_view(b@)[i as int]);
            }
            return false;
        }
        i = i + 1;
    }
    proof {
        assert(idents_view(a@) =~= idents_view(b@));
    }
    true
}

impl Type {
    /// Equality of two type expressions, as their mathematical values.
    pub fn eq_type(&self, other: &Type) -> (r: bool)
        ensures
            r == (type_view(*self) == type_view(*other)),
        decreases *self,
    {
        match (self, other) {
            (Type::Number, Type::Number) => true,
            (Type::Null, Type::Null) => true,
            (Type::Undefined, Type::Undefined) => true,
            (Type::Never, Type::Never) => true,
            (Type::Void, Type::Void) => true,
            (Type::Boolean, Type::Boolean) => true,
            (Type::String, Type::String) => true,
            (Type::UnionType(u1), Type::UnionType(u2)) => eq_types(&u1.types, &u2.types),
            (Type::ArrayType(x), Type::ArrayType(y)) => (**x).eq_type(&**y),
            (Type::Record(k1, v1), Type::Record(k2, v2)) => {
                let ke = (**k1).eq_type(&**k2);
                let ve = (**v1).eq_type(&**v2);
                ke && ve
            },
            (Type::TypeReference(a), Type::TypeReference(b)) => eq_idents(a, b),
            _ => false,
        }
    }

    /// A type that must be parenthesised when nested inside an array type.
    pub fn requires_wrap_for_nesting(&self) -> (r: bool)
        ensures
            r == (self is ArrayType || self is UnionType),
    {
        match self {
            Type::ArrayType(_) => true,
            Type::UnionType(_) => true,
            Type::Number => false,
            Type::Never => false,
            Type::Null => false,
            Type::Undefined => false,
            Type::Boolean => false,
            Type::String => false,
            Type::TypeReference(_) => false,
            Type::Record(_, _) => false,
            Type::Void => false,
        }
    }

    pub fn array(t: Type) -> (r: Type)
        ensures
            type_view(r) == TypeV::Array(Box::new(type_view(t))),
    {
        Type::ArrayType(Box::new(t))
    }

    /// The union of `self` and `another`, flattened and deduplicated.
    pub fn or(&self, another: &Self) -> (r: Self)
        ensures
            type_view(r) == or_v(type_view(*self), type_view(*another)),
    {
        let mut res = UnionType::new();
        proof {
            assert(types_view(res.types@) =~= Seq::<TypeV>::empty());
        }
        res.push(self);
        res.push(another);
        proof {
            lemma_types_view(res.types@);
        }
        res.into_type()
    }

    /// A reference to a possibly qualified name.
    pub fn reference(ids: Vec<Identifier>) -> (r: Type)
        ensures
            type_view(r) == TypeV::Reference(idents_view(ids@)),
    {
        Type::TypeReference(ids)
    }

    /// Structural copy of the type expression.
    pub fn duplicate(&self) -> (r: Self)
        ensures
            type_view(r) == type_view(*self),
        decreases *self,
    {
        match self {
            Type::Number => Type::Number,
            Type::Null => Type::Null,
            Type::Undefined => Type::Undefined,
            Type::Never => Type::Never,
            Type::Void => Type::Void,
            Type::Boolean => Type::Boolean,
            Type::String => Type::String,
            Type::UnionType(u) => {
                Type::UnionType(UnionType { types: duplicate_types(&u.types) })
            },
            Type::ArrayType(inner) => {
                Type::ArrayType(Box::new((**inner).duplicate()))
            },
            Type::Record(k, v) => {
                Type::Record(Box::new((**k).duplicate()), Box::new((**v).duplicate()))
            },
            Type::TypeReference(ids) => {
                let mut out: Vec<Identifier> = Vec::new();
                let mut i: usize = 0;
                while i < ids.len()
                    invariant
                        i <= ids.len(),
                        out@.len() == i as int,
                        forall|j: int| 0 <= j < i ==> #[trigger] out@[j].text@ == ids@[j].text@,
                    decreases ids.len() - i,
                {
                    let id = ids[i].duplicate();
                    out.push(id);
                    proof {
                        assert(forall|j: int|
                            0 <= j < i ==> #[trigger] out@[j].text@ == ids@[j].text@);
                        assert(out@[i as int].text@ == ids@[i as int].text@);
                    }
                    i = i + 1;
                }
                proof {
                    assert(idents_view(out@) =~= idents_view(ids@));
                }
                Type::TypeReference(out)
            },
        }
    }
}

/// One property of a generated interface.
pub struct PropertySignature {
    pub name: Identifier,
    pub property_type: Type,
    pub optional: bool,
}

impl PropertySignature {
    pub fn new(name: String, property_type: Type) -> (r: Self)
        ensures
            r.name.text@ == name@,
            r.property_type == property_type,
            r.optional == false,
    {
        Self { name: Identifier::new(name), property_type, optional: false }
    }

    pub fn new_optional(name: String, property_type: Type) -> (r: Self)
        ensures
            r.name.text@ == name@,
            r.property_type == property_type,
            r.optional == true,
    {
        let mut res = Self::new(name, property_type);
        res.optional = true;
        res
    }
}

/// One member of a generated interface declaration.
pub enum InterfaceMember {
    PropertySignature(PropertySignature),
}

/// A generated interface declaration.
pub struct InterfaceDeclaration {
    pub modifiers: Vec<Modifier>,
    pub name: Identifier,
    pub members: Vec<InterfaceMember>,
}

impl InterfaceDeclaration {
    pub fn new(name: String) -> (r: Self)
        ensures
            r.modifiers@.len() == 0,
            r.name.text@ == name@,
            r.members@.len() == 0,
    {
        Self { modifiers: Vec::new(), name: Identifier::new(name), members: Vec::new() }
    }

    pub fn new_exported(name: String) -> (r: Self)
        ensures
            r.modifiers@ == seq![Modifier::Export],
            r.name.text@ == name@,
            r.members@.len() == 0,
    {
        let mut r = Self::new(name);
        r.modifiers.push(Modifier::Export);
        proof {
            assert(r.modifiers@ =~= seq![Modifier::Export]);
        }
        r
    }
}

/// One parameter of a generated function declaration.
pub struct Parameter {
    pub name: Identifier,
    pub parameter_type: Type,
    pub optional: bool,
}

impl Parameter {
    pub fn new(name: &str, parameter_type: Type) -> (r: Self)
        ensures
            r.name.text@ == name@,
            r.parameter_type == parameter_type,
            r.optional == false,
    {
        Self { name: Identifier::new(name.to_owned()), parameter_type, optional: false }
    }

    pub fn new_optional(name: &str, parameter_type: Type) -> (r: Self)
        ensures
            r.name.text@ == name@,
            r.parameter_type == parameter_type,
            r.optional == true,
    {
        Self { name: Identifier::new(name.to_owned()), parameter_type, optional: true }
    }
}

/// A generated function declaration.
pub struct FunctionDeclaration {
    pub modifiers: Vec<Modifier>,
    pub name: Identifier,
    pub parameters: Vec<Parameter>,
    pub return_type: Type,
    pub body: Vec<Statement>,
}

impl FunctionDeclaration {
    pub fn new(name: &str) -> (r: Self)
        ensures
            r.modifiers@.len() == 0,
            r.name.text@ == name@,
            r.parameters@.len() == 0,
            r.return_type is Never,
            r.body@.len() == 0,
    {
        Self {
            modifiers: Vec::new(),
            name: Identifier::new(name.to_owned()),
            parameters: Vec::new(),
            return_type: Type::Never,
            body: Vec::new(),
        }
    }

    pub fn new_exported(name: &str) -> (r: Self)
        ensures
            r.modifiers@ == seq![Modifier::Export],
            r.name.text@ == name@,
            r.parameters@.len() == 0,
            r.return_type is Never,
            r.body@.len() == 0,
    {
        let mut res = FunctionDeclaration::new(name);
        res.modifiers.push(Modifier::Export);
        proof {
            assert(res.modifiers@ =~= seq![Modifier::Export]);
        }
        res
    }

    pub fn add_param(&mut self, param: Parameter)
        ensures
            final(self).parameters@ == old(self).parameters@.push(param),
            final(self).modifiers == old(self).modifiers,
            final(self).name == old(self).name,
            final(self).return_type == old(self).return_type,
            final(self).body == old(self).body,
    {
        self.parameters.push(param);
    }

    pub fn push_statement(&mut self, statement: Statement)
        ensures
            final(self).body@ == old(self).body@.push(statement),
            final(self).modifiers == old(self).modifiers,
            final(self).name == old(self).name,
            final(self).parameters == old(self).parameters,
            final(self).return_type == old(self).return_type,
    {
        self.body.push(statement);
    }

    pub fn set_return_type(&mut self, return_type: Type)
        ensures
            final(self).return_type == return_type,
            final(self).modifiers == old(self).modifiers,
            final(self).name == old(self).name,
            final(self).parameters == old(self).parameters,
            final(self).body == old(self).body,
    {
        self.return_type = return_type;
    }
}

/// An expression in a generated source file.
pub enum Expression {
    Identifier(Identifier),
    Null,
    Undefined,
    False,
    True,
}

impl Expression {
    /// A return statement yielding this expression.
    pub fn ret(self) -> (r: Statement)
        ensures
            r == Statement::ReturnStatement(Some(self)),
    {
        Statement::ReturnStatement(Some(self))
    }
}

/// A top-level statement of a generated source file.
pub enum Statement {
    ImportDeclaration(Box<ImportDeclaration>),
    EnumDeclaration(Box<EnumDeclaration>),
    InterfaceDeclaration(Box<InterfaceDeclaration>),
    FunctionDeclaration(Box<FunctionDeclaration>),
    ReturnStatement(Option<Expression>),
}

/// The statements of one generated source file.
pub struct SourceFile {
    pub statements: Vec<Statement>,
}

/// A generated source file, with its name (without extension).
pub struct File {
    pub name: String,
    pub ast: Box<SourceFile>,
}

impl File {
    pub fn new(name: String) -> (r: Self)
        ensures
            r.name@ == name@,
            r.ast.statements@.len() == 0,
    {
        Self { name, ast: Box::new(SourceFile { statements: Vec::new() }) }
    }

    pub fn push_statement(&mut self, statement: Statement)
        ensures
            final(self).ast.statements@ == old(self).ast.statements@.push(statement),
            final(self).name == old(self).name,
    {
        self.ast.statements.push(statement);
    }
}

/// One entry of a generated folder: a file or a nested folder.
pub enum FolderEntry {
    File(Box<File>),
    Folder(Box<Folder>),
}

/// A folder of generated files and folders.
pub struct Folder {
    pub name: String,
    pub entries: Vec<FolderEntry>,
}

impl FolderEntry {
    /// The folder held by this entry, if it is one; the entry otherwise.
    pub fn as_folder_mut(self) -> (r: Result<Folder, FolderEntry>)
        ensures
            match r {
                Ok(folder) => self == FolderEntry::Folder(Box::new(folder)),
                Err(e) => e == self && !(self is Folder),
            },
    {
        match self {
            FolderEntry::Folder(folder) => Ok(*folder),
            other => Err(other),
        }
    }
}

/// The index of the first folder entry named `name`, searching from `from`.
pub open spec fn first_folder_index(es: Seq<FolderEntry>, name: Seq<char>, from: int) -> Option<
    int,
>
    decreases es.len() - from,
{
    if from < 0 || from >= es.len() {
        None
    } else if es[from] matches FolderEntry::Folder(folder) && folder.name@ == name {
        Some(from)
    } else {
        first_folder_index(es, name, from + 1)
    }
}

/// A folder holds the given chain of nested folder names.
pub open spec fn has_folder_path(f: Folder, path: Seq<Seq<char>>) -> bool
    decreases path.len(),
{
    path.len() == 0 || exists|j: int|
        0 <= j < f.entries@.len() && ((#[trigger] f.entries@[j]) matches FolderEntry::Folder(sub)
            && sub.name@ == path[0] && has_folder_path(*sub, path.skip(1)))
}

/// Two spaces of indentation per nesting level.
pub open spec fn indent_v(level: int) -> Seq<char>
    decreases level,
{
    if level <= 0 {
        Seq::empty()
    } else {
        indent_v(level - 1) + "  "@
    }
}

/// The rendering of a folder at a nesting level: its indented name, then its
/// subfolders recursively, then its files.
pub open spec fn folder_display_v(f: Folder, level: int) -> Seq<char>
    decreases f,
{
    indent_v(level) + f.name@ + "\n"@ + folders_display_v(f.entries@, level) + files_display_v(
        f.entries@,
        level,
    )
}

/// The renderings of the folder entries, in order.
pub open spec fn folders_display_v(es: Seq<FolderEntry>, level: int) -> Seq<char>
    decreases es,
{
    if es.len() == 0 {
        Seq::empty()
    } else {
        folders_display_v(es.drop_last(), level) + (match es.last() {
            FolderEntry::Folder(sub) => folder_display_v(*sub, level + 1),
            FolderEntry::File(_) => Seq::empty(),
        })
    }
}

/// The rendered lines of the file entries, in order.
pub open spec fn files_display_v(es: Seq<FolderEntry>, level: int) -> Seq<char>
    decreases es,
{
    if es.len() == 0 {
        Seq::empty()
    } else {
        files_display_v(es.drop_last(), level) + (match es.last() {
            FolderEntry::File(file) => indent_v(level) + " "@ + file.name@ + ".ts\n"@,
            FolderEntry::Folder(_) => Seq::empty(),
        })
    }
}

/// The nesting height of a folder tree.
pub open spec fn folder_height(f: Folder) -> nat
    decreases f,
{
    1 + entries_height(f.entries@)
}

/// The greatest nesting height among the folder entries.
pub open spec fn entries_height(es: Seq<FolderEntry>) -> nat
    decreases es,
{
    if es.len() == 0 {
        0
    } else {
        let rest = entries_height(es.drop_last());
        let last_h = match es.last() {
            FolderEntry::Folder(sub) => folder_height(*sub),
            FolderEntry::File(_) => 0,
        };
        if last_h > rest {
            last_h
        } else {
            rest
        }
    }
}

/// Every subfolder's height is bounded by the entries' height.
pub proof fn lemma_entries_height(es: Seq<FolderEntry>, i: int)
    requires
        0 <= i < es.len(),
    ensures
        match es[i] {
            FolderEntry::Folder(sub) => folder_height(*sub) <= entries_height(es),
            FolderEntry::File(_) => true,
        },
    decreases es.len(),
{
    if i == es.len() - 1 {
    } else {
        lemma_entries_height(es.drop_last(), i);
        assert(es.drop_last()[i] == es[i]);
    }
}

/// One step of rendering the entries: extending the prefix by one entry
/// appends that entry's rendering.
proof fn lemma_display_take_step(es: Seq<FolderEntry>, level: int, i: int)
    requires
        0 <= i < es.len(),
    ensures
        folders_display_v(es.take(i + 1), level) == folders_display_v(es.take(i), level) + (
        match es[i] {
            FolderEntry::Folder(sub) => folder_display_v(*sub, level + 1),
            FolderEntry::File(_) => Seq::<char>::empty(),
        }),
        files_display_v(es.take(i + 1), level) == files_display_v(es.take(i), level) + (match es[i] {
            FolderEntry::File(file) => indent_v(level) + " "@ + file.name@ + ".ts\n"@,
            FolderEntry::Folder(_) => Seq::<char>::empty(),
        }),
{
    assert(es.take(i + 1).drop_last() =~= es.take(i));
    assert(es.take(i + 1).last() == es[i]);
}

/// The chain of empty folders freshly created for the path names from `i`
/// on: exactly one nested folder per remaining name, the innermost empty.
pub open spec fn fresh_chain(f: Folder, path: Seq<Seq<char>>, i: int) -> bool
    decreases path.len() - i,
{
    if i >= path.len() {
        f.entries@.len() == 0
    } else {
        &&& f.entries@.len() == 1
        &&& (f.entries@[0] matches FolderEntry::Folder(sub) && sub.name@ == path[i] && fresh_chain(
            *sub,
            path,
            i + 1,
        ))
    }
}

/// How ensuring the folder chain `path[i..]` rewrites a folder: nothing at
/// all past the path's end; otherwise the first subfolder matching the next
/// name is rewritten recursively and every other entry is untouched, or,
/// when none matches, a fresh chain is appended and every entry is
/// untouched.
pub open spec fn inserted_path_rel(old_f: Folder, new_f: Folder, path: Seq<Seq<char>>, i: int) -> bool
    decreases path.len() - i,
{
    if i >= path.len() {
        new_f == old_f
    } else {
        &&& new_f.name == old_f.name
        &&& match first_folder_index(old_f.entries@, path[i], 0) {
            Some(j) => {
                &&& new_f.entries@.len() == old_f.entries@.len()
                &&& (forall|k: int|
                    0 <= k < old_f.entries@.len() && k != j ==> new_f.entries@[k]
                        == old_f.entries@[k])
                &&& (old_f.entries@[j] matches FolderEntry::Folder(os) && new_f.entries@[j] matches
                    FolderEntry::Folder(ns) && inserted_path_rel(*os, *ns, path, i + 1))
            },
            None => {
                &&& new_f.entries@.len() == old_f.entries@.len() + 1
                &&& (forall|k: int|
                    0 <= k < old_f.entries@.len() ==> new_f.entries@[k] == old_f.entries@[k])
                &&& (new_f.entries@.last() matches FolderEntry::Folder(ns) && ns.name@ == path[i]
                    && fresh_chain(*ns, path, i + 1))
            },
        }
    }
}

/// Two folders hold the same tree: same name, and entry for entry the same
/// files and, recursively, the same subfolders.
pub open spec fn folder_like(a: Folder, b: Folder) -> bool
    decreases a, 1int,
{
    &&& a.name@ == b.name@
    &&& a.entries@.len() == b.entries@.len()
    &&& forall|k: int|
        0 <= k < a.entries@.len() ==> entry_like(#[trigger] a.entries@[k], b.entries@[k])
}

/// Two folder entries hold the same tree.
pub open spec fn entry_like(x: FolderEntry, y: FolderEntry) -> bool
    decreases x, 2int,
{
    match x {
        FolderEntry::Folder(f) => y matches FolderEntry::Folder(g) && folder_like(*f, *g),
        FolderEntry::File(_) => y == x,
    }
}

/// Every folder holds the same tree as itself.
proof fn lemma_folder_like_refl(f: Folder)
    ensures
        folder_like(f, f),
    decreases f,
{
    assert forall|k: int|
        0 <= k < f.entries@.len() implies entry_like(#[trigger] f.entries@[k], f.entries@[k]) by {
        match f.entries@[k] {
            FolderEntry::Folder(sub) => {
                lemma_folder_like_refl(*sub);
            },
            FolderEntry::File(_) => {},
        }
    }
}

/// Value-equal entries hold the same tree.
proof fn lemma_entry_like_refl(x: FolderEntry, y: FolderEntry)
    requires
        x == y,
    ensures
        entry_like(x, y),
{
    match x {
        FolderEntry::Folder(sub) => {
            lemma_folder_like_refl(*sub);
        },
        FolderEntry::File(_) => {},
    }
}

/// Rewriting an entryless folder builds exactly the fresh chain.
proof fn lemma_rel_from_empty(old_f: Folder, new_f: Folder, path: Seq<Seq<char>>, i: int)
    requires
        old_f.entries@.len() == 0,
        inserted_path_rel(old_f, new_f, path, i),
    ensures
        fresh_chain(new_f, path, i),
{
    if i < path.len() {
        assert(first_folder_index(old_f.entries@, path[i], 0) is None);
        assert(new_f.entries@[0] == new_f.entries@.last());
    }
}

/// Unrolling the first-folder search over non-matching entries.
proof fn lemma_ffi_step(es: Seq<FolderEntry>, name: Seq<char>, from: int, j: int)
    requires
        0 <= from <= j <= es.len(),
        forall|k: int|
            from <= k < j ==> !((#[trigger] es[k]) matches FolderEntry::Folder(f) && f.name@
                == name),
    ensures
        first_folder_index(es, name, from) == first_folder_index(es, name, j),
    decreases j - from,
{
    if from < j {
        lemma_ffi_step(es, name, from + 1, j);
    }
}

/// What the first-folder search found: the match at its result and no
/// match before it.
proof fn lemma_ffi_extract(es: Seq<FolderEntry>, name: Seq<char>, from: int)
    requires
        0 <= from <= es.len(),
    ensures
        match first_folder_index(es, name, from) {
            Some(j) => from <= j < es.len() && (es[j] matches FolderEntry::Folder(f) && f.name@
                == name) && (forall|k: int|
                from <= k < j ==> !((#[trigger] es[k]) matches FolderEntry::Folder(f) && f.name@
                    == name)),
            None => forall|k: int|
                from <= k < es.len() ==> !((#[trigger] es[k]) matches FolderEntry::Folder(f)
                    && f.name@ == name),
        },
    decreases es.len() - from,
{
    if from < es.len() {
        lemma_ffi_extract(es, name, from + 1);
    }
}

/// A rewrite keeps a folder's name.
proof fn lemma_rel_keeps_name(a: Folder, b: Folder, path: Seq<Seq<char>>, i: int)
    requires
        inserted_path_rel(a, b, path, i),
    ensures
        b.name@ == a.name@,
{
    if i >= path.len() {
    }
}

/// Rewriting a fresh chain by the same path leaves the same tree.
proof fn lemma_fresh_rel_identity(a: Folder, b: Folder, path: Seq<Seq<char>>, i: int)
    requires
        fresh_chain(a, path, i),
        inserted_path_rel(a, b, path, i),
    ensures
        folder_like(b, a),
    decreases path.len() - i,
{
    if i >= path.len() {
        lemma_folder_like_refl(a);
    } else {
        assert(a.entries@[0] matches FolderEntry::Folder(sub) && sub.name@ == path[i]);
        lemma_ffi_step(a.entries@, path[i], 0, 0);
        assert(first_folder_index(a.entries@, path[i], 0) == Some(0int));
        let os = a.entries@[0]->Folder_0;
        let ns = b.entries@[0]->Folder_0;
        lemma_fresh_rel_identity(*os, *ns, path, i + 1);
        assert(entry_like(b.entries@[0], a.entries@[0]));
    }
}

/// Ensuring the same folder chain twice changes nothing the second time:
/// the rewrite is idempotent.
pub proof fn lemma_insert_path_idempotent(
    a: Folder,
    b: Folder,
    c: Folder,
    path: Seq<Seq<char>>,
    i: int,
)
    requires
        inserted_path_rel(a, b, path, i),
        inserted_path_rel(b, c, path, i),
    ensures
        folder_like(c, b),
    decreases path.len() - i,
{
    if i >= path.len() {
        lemma_folder_like_refl(b);
    } else {
        lemma_ffi_extract(a.entries@, path[i], 0);
        match first_folder_index(a.entries@, path[i], 0) {
            Some(j) => {
                let os = a.entries@[j]->Folder_0;
                let ns = b.entries@[j]->Folder_0;
                lemma_rel_keeps_name(*os, *ns, path, i + 1);
                assert(forall|k: int|
                    0 <= k < j ==> !((#[trigger] b.entries@[k]) matches FolderEntry::Folder(f)
                        && f.name@ == path[i]));
                lemma_ffi_step(b.entries@, path[i], 0, j);
                assert(first_folder_index(b.entries@, path[i], 0) == Some(j));
                let cs = c.entries@[j]->Folder_0;
                lemma_insert_path_idempotent(*os, *ns, *cs, path, i + 1);
                assert forall|k: int|
                    0 <= k < c.entries@.len() implies entry_like(
                    #[trigger] c.entries@[k],
                    b.entries@[k],
                ) by {
                    if k != j {
                        lemma_entry_like_refl(c.entries@[k], b.entries@[k]);
                    }
                }
            },
            None => {
                let j = a.entries@.len() as int;
                assert(forall|k: int|
                    0 <= k < j ==> !((#[trigger] b.entries@[k]) matches FolderEntry::Folder(f)
                        && f.name@ == path[i]));
                lemma_ffi_step(b.entries@, path[i], 0, j);
                assert(first_folder_index(b.entries@, path[i], 0) == Some(j));
                let ns = b.entries@[j]->Folder_0;
                let cs = c.entries@[j]->Folder_0;
                lemma_fresh_rel_identity(*ns, *cs, path, i + 1);
                assert forall|k: int|
                    0 <= k < c.entries@.len() implies entry_like(
                    #[trigger] c.entries@[k],
                    b.entries@[k],
                ) by {
                    if k != j {
                        lemma_entry_like_refl(c.entries@[k], b.entries@[k]);
                    }
                }
            },
        }
    }
}

impl Folder {
    /// A line-per-entry rendering of the folder tree, two spaces of
    /// indentation per level, subfolders before files.
    pub fn display_tree(&self) -> (r: String)
        requires
            folder_height(*self) <= usize::MAX,
        ensures
            r@ == folder_display_v(*self, 0),
    {
        self.display_level(0)
    }

    fn display_level(&self, level: usize) -> (r: String)
        requires
            level + folder_height(*self) <= usize::MAX,
        ensures
            r@ == folder_display_v(*self, level as int),
        decreases *self,
    {
        let mut res = String::new();
        let mut j: usize = 0;
        while j < level
            invariant
                j <= level,
                res@ == indent_v(j as int),
            decreases level - j,
        {
            res.append("  ");
            j = j + 1;
        }
        res.append(self.name.as_str());
        res.append("\n");
        let ghost base = indent_v(level as int) + self.name@ + "\n"@;
        proof {
            assert(res@ =~= base);
        }
        let mut i: usize = 0;
        while i < self.entries.len()
            invariant
                i <= self.entries@.len(),
                level + folder_height(*self) <= usize::MAX,
                res@ == base + folders_display_v(self.entries@.take(i as int), level as int),
            decreases self.entries@.len() - i,
        {
            let ghost prefix = res@;
            match &self.entries[i] {
                FolderEntry::Folder(folder) => {
                    proof {
                        lemma_entries_height(self.entries@, i as int);
                    }
                    let s = folder.display_level(level + 1);
                    res.append(s.as_str());
                },
                FolderEntry::File(_) => {},
            }
            proof {
                lemma_display_take_step(self.entries@, level as int, i as int);
                assert(res@ =~= base + folders_display_v(
                    self.entries@.take(i as int + 1),
                    level as int,
                ));
            }
            i = i + 1;
        }
        let ghost folders_part = base + folders_display_v(self.entries@, level as int);
        proof {
            assert(self.entries@.take(self.entries@.len() as int) =~= self.entries@);
        }
        let mut i: usize = 0;
        while i < self.entries.len()
            invariant
                i <= self.entries@.len(),
                folders_part == base + folders_display_v(self.entries@, level as int),
                res@ == folders_part + files_display_v(self.entries@.take(i as int), level as int),
            decreases self.entries@.len() - i,
        {
            match &self.entries[i] {
                FolderEntry::File(file) => {
                    let mut j: usize = 0;
                    let mut line = String::new();
                    while j < level
                        invariant
                            j <= level,
                            line@ == indent_v(j as int),
                        decreases level - j,
                    {
                        line.append("  ");
                        j = j + 1;
                    }
                    res.append(line.as_str());
                    res.append(" ");
                    res.append(file.name.as_str());
                    res.append(".ts\n");
                },
                FolderEntry::Folder(_) => {},
            }
            proof {
                lemma_display_take_step(self.entries@, level as int, i as int);
                assert(res@ =~= folders_part + files_display_v(
                    self.entries@.take(i as int + 1),
                    level as int,
                ));
            }
            i = i + 1;
        }
        proof {
            assert(self.entries@.take(self.entries@.len() as int) =~= self.entries@);
            assert(res@ =~= folder_display_v(*self, level as int));
        }
        res
    }

    pub fn new(name: String) -> (r: Self)
        ensures
            r.name@ == name@,
            r.entries@.len() == 0,
    {
        Self { name, entries: Vec::new() }
    }

    /// The index of the subfolder named `name`, added as an empty folder at
    /// the end if none was present.
    pub fn insert_folder(&mut self, name: String) -> (i: usize)
        ensures
            final(self).name == old(self).name,
            match first_folder_index(old(self).entries@, name@, 0) {
                Some(j) => i == j && final(self).entries@ == old(self).entries@,
                None => {
                    &&& i == old(self).entries@.len()
                    &&& final(self).entries@.len() == old(self).entries@.len() + 1
                    &&& (forall|k: int|
                        0 <= k < old(self).entries@.len() ==> final(self).entries@[k] == old(
                            self,
                        ).entries@[k])
                    &&& (final(self).entries@[i as int] matches FolderEntry::Folder(folder)
                        && folder.name@ == name@ && folder.entries@.len() == 0)
                },
            },
            i < final(self).entries@.len(),
            final(self).entries@[i as int] matches FolderEntry::Folder(folder) && folder.name@
                == name@,
    {
        let mut i: usize = 0;
        while i < self.entries.len()
            invariant
                i <= self.entries@.len(),
                first_folder_index(self.entries@, name@, 0) == first_folder_index(
                    self.entries@,
                    name@,
                    i as int,
                ),
            decreases self.entries@.len() - i,
        {
            match &self.entries[i] {
                FolderEntry::Folder(folder) => {
                    if folder.name == name {
                        return i;
                    }
                },
                _ => {},
            }
            i = i + 1;
        }
        let folder = Folder::new(name);
        self.entries.push(FolderEntry::Folder(Box::new(folder)));
        self.entries.len() - 1
    }

    /// Ensure a chain of nested folders with the given names exists under
    /// this folder, creating the missing ones.
    pub fn insert_folder_by_path(&mut self, package_path: &Vec<String>)
        ensures
            final(self).name == old(self).name,
            has_folder_path(*final(self), string_views(package_path@)),
            inserted_path_rel(*old(self), *final(self), string_views(package_path@), 0),
    {
        self.insert_folder_from(package_path, 0);
        proof {
            assert(string_views(package_path@).skip(0) =~= string_views(package_path@));
        }
    }

    fn insert_folder_from(&mut self, package_path: &Vec<String>, from: usize)
        ensures
            final(self).name == old(self).name,
            from <= package_path@.len() ==> has_folder_path(
                *final(self),
                string_views(package_path@).skip(from as int),
            ),
            inserted_path_rel(*old(self), *final(self), string_views(package_path@), from as int),
        decreases package_path@.len() - from,
    {
        if from >= package_path.len() {
            return ;
        }
        let ghost orig = *self;
        let ghost views = string_views(package_path@);
        let name = package_path[from].clone();
        proof {
            assert(views[from as int] == name@);
        }
        let idx = self.insert_folder(name);
        let ghost after_insert = *self;
        let entry = self.entries.remove(idx);
        match entry {
            FolderEntry::Folder(folder) => {
                let mut sub = *folder;
                let ghost sub0 = sub;
                sub.insert_folder_from(package_path, from + 1);
                self.entries.insert(idx, FolderEntry::Folder(Box::new(sub)));
                proof {
                    assert(views.skip(from as int)[0] == package_path@[from as int]@);
                    assert(views.skip(from as int).skip(1) =~= views.skip(from as int + 1));
                    assert(self.entries@[idx as int] matches FolderEntry::Folder(s) && s.name@
                        == views.skip(from as int)[0] && has_folder_path(
                        *s,
                        views.skip(from as int).skip(1),
                    ));
                    match first_folder_index(orig.entries@, views[from as int], 0) {
                        Some(j) => {
                            assert(after_insert.entries@ == orig.entries@);
                            assert(self.entries@ =~= orig.entries@.update(
                                j,
                                self.entries@[idx as int],
                            ));
                            assert(orig.entries@[j] matches FolderEntry::Folder(os) && sub0
                                == *os);
                        },
                        None => {
                            assert(idx as int == orig.entries@.len());
                            assert(after_insert.entries@ == orig.entries@.push(
                                after_insert.entries@.last(),
                            ));
                            assert(sub0.entries@.len() == 0);
                            lemma_rel_from_empty(sub0, *self.entries@[idx as int]->Folder_0, views, from as int + 1);
                            assert(self.entries@ =~= orig.entries@.push(
                                self.entries@[idx as int],
                            ));
                            assert(self.entries@.last() matches FolderEntry::Folder(ns)
                                && ns.name@ == views[from as int]);
                        },
                    }
                    assert(inserted_path_rel(orig, *self, views, from as int));
                }
            },
            other => {
                proof {
                    assert(false);
                }
                self.entries.insert(idx, other);
            },
        }
    }
}

/// The views of a sequence of strings.
pub open spec fn string_views(s: Seq<String>) -> Seq<Seq<char>> {
    Seq::new(s.len(), |i: int| s[i]@)
}

} // verus!

//! The type mapper: converting a field's schema type into a target type
//! expression, resolving enum and message references and synthesizing the
//! imports they need.

use vstd::prelude::*;
use crate::ast::{
    File, Identifier, ImportDeclaration, ImportSpecifier, Statement, StringLiteral, Type, TypeV,
    type_view,
};
use crate::errors::CompileError;
use crate::imports::{
    ensure_import, get_relative_import, import_view, rel_import_valid, rel_specifier, rel_symbol,
};
use crate::model::{Declaration, FieldType, PackageTree, ScalarKind, decl_name, tree_wf};
use crate::paths::{
    TsCompV, TsPath, TsPathComponent, translate_v, proto_path_to_ts_path, ts_path_view,
};
use crate::scope::{
    BlockScope, DefinedId, IdType, ResolvedV, defined_path_v, defined_view, path_outcome,
    resolved_wf, scope_path_v, scope_wf,
};
use crate::ast::string_views;

verus! {

/// Each schema-space segment translated to module space.
pub open spec fn translate_all(s: Seq<crate::paths::PathCompV>) -> Seq<TsCompV> {
    Seq::new(s.len(), |i: int| translate_v(s[i]))
}

/// The module address of the `types` file of the message scope given by
/// `file_id` and `parents`.
pub open spec fn types_file_path_v(t: PackageTree, file_id: usize, parents: Seq<usize>) -> Seq<
    TsCompV,
> {
    translate_all(scope_path_v(t, file_id, parents)).push(TsCompV::File("types"@))
}

/// The module address of a resolved enum declaration: its translated
/// canonical address followed by its enum symbol.
pub open spec fn enum_target_v(t: PackageTree, v: ResolvedV) -> Seq<TsCompV> {
    translate_all(defined_path_v(t, v)).push(TsCompV::Enum(resolved_decl_name(t, v)))
}

/// The module address of a resolved message's generated interface under its
/// `types` file, imported under `symbol`.
pub open spec fn message_target_v(t: PackageTree, v: ResolvedV, symbol: Seq<char>) -> Seq<
    TsCompV,
> {
    translate_all(defined_path_v(t, v)).push(TsCompV::File("types"@)).push(
        TsCompV::Interface(symbol),
    )
}

/// The declared name of what a resolution denotes.
pub open spec fn resolved_decl_name(t: PackageTree, v: ResolvedV) -> Seq<char> {
    match v.target {
        IdType::DataType(id) => decl_name(t.arena@[id as int]),
        IdType::Package(fid) => t.files@[fid as int].name@,
    }
}

/// The statements grew only by import declarations: the old statements are
/// an unchanged prefix, every added statement is an import.
pub open spec fn imports_appended(olds: Seq<Statement>, news: Seq<Statement>) -> bool {
    &&& olds.len() <= news.len()
    &&& news.take(olds.len() as int) == olds
    &&& forall|i: int| olds.len() <= i < news.len() ==> (#[trigger] news[i]) is ImportDeclaration
}

/// Growing by imports twice is growing by imports.
pub proof fn lemma_imports_appended_trans(a: Seq<Statement>, b: Seq<Statement>, c: Seq<Statement>)
    requires
        imports_appended(a, b),
        imports_appended(b, c),
    ensures
        imports_appended(a, c),
{
    assert(c.take(a.len() as int) =~= c.take(b.len() as int).take(a.len() as int));
    assert(forall|i: int|
        a.len() <= i < b.len() ==> (#[trigger] c[i]) == b[i] && b[i] is ImportDeclaration);
}

/// Unchanged statements grew only by imports.
pub proof fn lemma_imports_appended_refl(a: Seq<Statement>)
    ensures
        imports_appended(a, a),
{
    assert(a.take(a.len() as int) =~= a);
}

/// One statement is an import of the given specifier and single symbol.
pub open spec fn is_import_view(s: Statement, spc: Seq<char>, sym: Seq<char>) -> bool {
    s matches Statement::ImportDeclaration(d) && import_view(*d) == (
        None::<Seq<char>>,
        Some(seq![(sym, None::<Seq<char>>)]),
        spc,
    )
}

/// The file already imports `sym` from `spc`.
pub open spec fn has_import_view(ss: Seq<Statement>, spc: Seq<char>, sym: Seq<char>) -> bool {
    exists|i: int| 0 <= i < ss.len() && is_import_view(#[trigger] ss[i], spc, sym)
}

/// `news` is `olds` with the import of `sym` from `spc` ensured: unchanged
/// when it was already present, appended once otherwise.
pub open spec fn ensured_import_rel(
    olds: Seq<Statement>,
    news: Seq<Statement>,
    spc: Seq<char>,
    sym: Seq<char>,
) -> bool {
    if has_import_view(olds, spc, sym) {
        news == olds
    } else {
        &&& news.len() == olds.len() + 1
        &&& news.take(olds.len() as int) == olds
        &&& is_import_view(news.last(), spc, sym)
    }
}

/// The generated name of a message's encode-input interface.
pub open spec fn encode_name_v(name: Seq<char>) -> Seq<char> {
    name + "EncodeInput"@
}

/// The generated encode-input interface name of a message.
pub fn message_name_to_encode_type_name(message_name: &String) -> (r: String)
    ensures
        r@ == encode_name_v(message_name@),
{
    let mut r = message_name.clone();
    r.append("EncodeInput");
    r
}

/// The target type a predefined single-segment type name maps to.
pub open spec fn predefined_v(s: Seq<char>) -> Option<TypeV> {
    if s == "bool"@ {
        Some(TypeV::Boolean)
    } else if s == "string"@ {
        Some(TypeV::String)
    } else if s == "int32"@ {
        Some(TypeV::Number)
    } else if s == "uint32"@ {
        Some(TypeV::Number)
    } else if s == "float"@ {
        Some(TypeV::Number)
    } else if s == "bytes"@ {
        Some(TypeV::Reference(seq!["Uint8Array"@]))
    } else {
        None
    }
}

/// The target type expression a predefined single-segment type name maps
/// to, if it is one of the fixed scalar names.
pub fn try_get_predefined_type(s: &String) -> (r: Option<Type>)
    ensures
        match r {
            Some(t) => predefined_v(s@) == Some(type_view(t)),
            None => predefined_v(s@) is None,
        },
{
    if *s == "bool".to_owned() {
        Some(Type::Boolean)
    } else if *s == "string".to_owned() {
        Some(Type::String)
    } else if *s == "int32".to_owned() {
        Some(Type::Number)
    } else if *s == "uint32".to_owned() {
        Some(Type::Number)
    } else if *s == "float".to_owned() {
        Some(Type::Number)
    } else if *s == "bytes".to_owned() {
        let mut ids: Vec<Identifier> = Vec::new();
        ids.push(Identifier::new("Uint8Array".to_owned()));
        let t = Type::reference(ids);
        proof {
            assert(crate::ast::idents_view(t->TypeReference_0@) =~= seq!["Uint8Array"@]);
        }
        Some(t)
    } else {
        None
    }
}

/// The union type `util.Long | number` that 64-bit integer kinds widen to
/// on the encoding side.
pub open spec fn long_union_v() -> TypeV {
    TypeV::Union(seq![long_ref_v(), TypeV::Number])
}

/// The reference `util.Long`.
pub open spec fn long_ref_v() -> TypeV {
    TypeV::Reference(seq!["util"@, "Long"@])
}

/// A 64-bit integer kind.
pub open spec fn is_long_kind(k: ScalarKind) -> bool {
    k == ScalarKind::Int64 || k == ScalarKind::Sint64 || k == ScalarKind::Sfixed64 || k
        == ScalarKind::Uint64 || k == ScalarKind::Fixed64
}

/// The target type of a scalar kind on the encoding-input side.
pub open spec fn scalar_encode_v(k: ScalarKind) -> TypeV {
    if is_long_kind(k) {
        long_union_v()
    } else {
        scalar_narrow_v(k)
    }
}

/// The target type of a scalar kind on the decode-result side.
pub open spec fn scalar_decode_v(k: ScalarKind) -> TypeV {
    if is_long_kind(k) {
        long_ref_v()
    } else {
        scalar_narrow_v(k)
    }
}

/// The fixed primitive target type of a non-64-bit scalar kind.
pub open spec fn scalar_narrow_v(k: ScalarKind) -> TypeV {
    match k {
        ScalarKind::Bool => TypeV::Boolean,
        ScalarKind::Bytes => TypeV::Reference(seq!["Uint8Array"@]),
        ScalarKind::Str => TypeV::String,
        _ => TypeV::Number,
    }
}

/// A field type that may key a map: a scalar kind, or a predefined
/// single-segment scalar name.
pub open spec fn map_key_ok(ft: FieldType) -> bool {
    match ft {
        FieldType::Scalar(_) => true,
        FieldType::Reference(ids) => ids@.len() == 1 && !(predefined_v(ids@[0]@) is None),
        _ => false,
    }
}

/// The target type of a field type on the encoding-input side, `None` when
/// mapping it must fail: an empty or unresolvable reference, a reference
/// ending at a package, or a map with a non-scalar key.
pub open spec fn encode_type_v(
    t: PackageTree,
    file_id: usize,
    parents: Seq<usize>,
    ft: FieldType,
) -> Option<TypeV>
    decreases ft,
{
    match ft {
        FieldType::Scalar(k) => Some(scalar_encode_v(k)),
        FieldType::Reference(ids) => reference_type_v(t, file_id, parents, ids@, true),
        FieldType::Repeated(inner) => match encode_type_v(t, file_id, parents, *inner) {
            Some(tv) => Some(TypeV::Array(Box::new(tv))),
            None => None,
        },
        FieldType::Mapping(k, v) => {
            if !map_key_ok(*k) {
                None
            } else {
                match (encode_type_v(t, file_id, parents, *k), encode_type_v(
                    t,
                    file_id,
                    parents,
                    *v,
                )) {
                    (Some(kv), Some(vv)) => Some(TypeV::Record(Box::new(kv), Box::new(vv))),
                    _ => None,
                }
            }
        },
    }
}

/// The target type of a field type on the decode-result side.
pub open spec fn decode_type_v(
    t: PackageTree,
    file_id: usize,
    parents: Seq<usize>,
    ft: FieldType,
) -> Option<TypeV>
    decreases ft,
{
    match ft {
        FieldType::Scalar(k) => Some(scalar_decode_v(k)),
        FieldType::Reference(ids) => reference_type_v(t, file_id, parents, ids@, false),
        FieldType::Repeated(inner) => match decode_type_v(t, file_id, parents, *inner) {
            Some(tv) => Some(TypeV::Array(Box::new(tv))),
            None => None,
        },
        FieldType::Mapping(k, v) => {
            if !map_key_ok(*k) {
                None
            } else {
                match (decode_type_v(t, file_id, parents, *k), decode_type_v(
                    t,
                    file_id,
                    parents,
                    *v,
                )) {
                    (Some(kv), Some(vv)) => Some(TypeV::Record(Box::new(kv), Box::new(vv))),
                    _ => None,
                }
            }
        },
    }
}

/// The `types` file address of a scope: folders, then its file segment.
proof fn lemma_types_file_path_shape(t: PackageTree, file_id: usize, parents: Seq<usize>)
    ensures
        ({
            let cv = types_file_path_v(t, file_id, parents);
            &&& cv.len() >= 2
            &&& (forall|i: int| 0 <= i < cv.len() - 1 ==> (#[trigger] cv[i]) is Folder)
            &&& cv[cv.len() - 1] is File
        }),
{
    crate::scope::lemma_scope_path_shape(t, file_id, parents);
    let sp = scope_path_v(t, file_id, parents);
    let cv = types_file_path_v(t, file_id, parents);
    assert forall|i: int| 0 <= i < cv.len() - 1 implies (#[trigger] cv[i]) is Folder by {
        assert(cv[i] == translate_v(sp[i]));
        assert(!(sp[i] is Enum));
    }
}

/// The module address of a resolved enum: folders, then its file, then its
/// enum symbol.
proof fn lemma_enum_target_shape(t: PackageTree, v: ResolvedV)
    requires
        v.target matches IdType::DataType(id) && t.arena@[id as int] is Enum,
    ensures
        ({
            let tv = enum_target_v(t, v);
            &&& tv.len() >= 3
            &&& (forall|i: int| 0 <= i < tv.len() - 2 ==> (#[trigger] tv[i]) is Folder)
            &&& tv[tv.len() - 2] is File
            &&& crate::paths::is_decl_v(tv[tv.len() - 1])
        }),
{
    crate::scope::lemma_scope_path_shape(t, v.file_id, v.parents);
    let sp = scope_path_v(t, v.file_id, v.parents);
    let dp = defined_path_v(t, v);
    let tv = enum_target_v(t, v);
    assert(dp =~= sp.push(dp.last()));
    assert forall|i: int| 0 <= i < tv.len() - 2 implies (#[trigger] tv[i]) is Folder by {
        assert(tv[i] == translate_v(dp[i]));
        assert(dp[i] == sp[i]);
        assert(!(sp[i] is Enum));
    }
    assert(tv[tv.len() - 2] == translate_v(dp[dp.len() - 1]));
}

/// The module address of a resolved message's interface: folders, then its
/// `types` file, then the interface symbol.
proof fn lemma_message_target_shape(t: PackageTree, v: ResolvedV, sym: Seq<char>)
    requires
        v.target matches IdType::DataType(id) && t.arena@[id as int] is Message,
    ensures
        ({
            let tv = message_target_v(t, v, sym);
            &&& tv.len() >= 3
            &&& (forall|i: int| 0 <= i < tv.len() - 2 ==> (#[trigger] tv[i]) is Folder)
            &&& tv[tv.len() - 2] is File
            &&& crate::paths::is_decl_v(tv[tv.len() - 1])
        }),
{
    crate::scope::lemma_scope_path_shape(t, v.file_id, v.parents);
    let sp = scope_path_v(t, v.file_id, v.parents);
    let dp = defined_path_v(t, v);
    let tv = message_target_v(t, v, sym);
    assert(dp =~= sp.push(dp.last()));
    assert forall|i: int| 0 <= i < tv.len() - 2 implies (#[trigger] tv[i]) is Folder by {
        if i < sp.len() {
            assert(tv[i] == translate_v(dp[i]));
            assert(dp[i] == sp[i]);
            assert(!(sp[i] is Enum));
        } else {
            assert(tv[i] == translate_v(dp[dp.len() - 1]));
        }
    }
}

/// The first declaration segment of a folders-file-declaration address is
/// its last segment.
proof fn lemma_target_decl_index(tv: Seq<TsCompV>)
    requires
        tv.len() >= 2,
        forall|i: int| 0 <= i < tv.len() - 2 ==> (#[trigger] tv[i]) is Folder,
        tv[tv.len() - 2] is File,
        crate::paths::is_decl_v(tv[tv.len() - 1]),
    ensures
        crate::paths::first_decl_index(tv, 0) == tv.len() - 1,
{
    crate::imports::lemma_decl_index_public(tv, 0, tv.len() - 1);
}

/// Synthesize the relative import from `current` to `target` and ensure the
/// importing file holds it once.
fn add_relative_import(types_file: &mut File, current: &TsPath, target: &TsPath) -> (r: Result<
    (),
    CompileError,
>)
    ensures
        final(types_file).name == old(types_file).name,
        imports_appended(old(types_file).ast.statements@, final(types_file).ast.statements@),
        crate::imports::imports_distinct(old(types_file).ast.statements@)
            ==> crate::imports::imports_distinct(final(types_file).ast.statements@),
        match r {
            Ok(u) => {
                &&& rel_import_valid(ts_path_view(*current), ts_path_view(*target))
                &&& ensured_import_rel(
                    old(types_file).ast.statements@,
                    final(types_file).ast.statements@,
                    rel_specifier(ts_path_view(*current), ts_path_view(*target)),
                    rel_symbol(ts_path_view(*target)),
                )
            },
            Err(e) => e is Internal && !rel_import_valid(
                ts_path_view(*current),
                ts_path_view(*target),
            ) && final(types_file).ast.statements@ == old(types_file).ast.statements@,
        },
{
    let ghost cv = ts_path_view(*current);
    let ghost tv = ts_path_view(*target);
    let ghost olds = types_file.ast.statements@;
    match get_relative_import(current, target) {
        Ok(d) => {
            let ghost spc = rel_specifier(cv, tv);
            let ghost sym = rel_symbol(tv);
            proof {
                let bs = d.import_clause.named_bindings->Some_0;
                assert(crate::imports::bindings_view(bs@) =~= seq![(sym, None::<Seq<char>>)]);
                assert(import_view(d) == (
                    None::<Seq<char>>,
                    Some(seq![(sym, None::<Seq<char>>)]),
                    spc,
                ));
                if crate::imports::has_import(olds, d) {
                    let i = choose|i: int|
                        0 <= i < olds.len() && ((#[trigger] olds[i]) matches
                        Statement::ImportDeclaration(x) && import_view(*x) == import_view(d));
                    assert(is_import_view(olds[i], spc, sym));
                    assert(has_import_view(olds, spc, sym));
                }
                if has_import_view(olds, spc, sym) {
                    let i = choose|i: int|
                        0 <= i < olds.len() && is_import_view(#[trigger] olds[i], spc, sym);
                    assert(olds[i] matches Statement::ImportDeclaration(x) && import_view(*x)
                        == import_view(d));
                    assert(crate::imports::has_import(olds, d));
                }
            }
            ensure_import(types_file, d);
            proof {
                if crate::imports::imports_distinct(olds) {
                    crate::imports::lemma_ensure_import_distinct(olds, d);
                }
                if has_import_view(olds, spc, sym) {
                    lemma_imports_appended_refl(olds);
                } else {
                    assert(types_file.ast.statements@.take(olds.len() as int) =~= olds);
                }
            }
            Ok(())
        },
        Err(e) => {
            proof {
                lemma_imports_appended_refl(olds);
            }
            Err(e)
        },
    }
}

/// Import a resolved enum declaration into the current message's `types`
/// file and name it: a reference in the same generated file needs no import
/// and yields the plain symbol.
pub fn import_enum_type(
    tree: &PackageTree,
    scope: &BlockScope,
    types_file: &mut File,
    resolved: &DefinedId,
) -> (r: Result<Type, CompileError>)
    requires
        tree_wf(*tree),
        scope_wf(*tree, scope.file_id, scope.parents@),
        resolved_wf(*tree, defined_view(*resolved)),
        resolved.declaration matches IdType::DataType(id) && tree.arena@[id as int] is Enum,
    ensures
        final(types_file).name == old(types_file).name,
        imports_appended(old(types_file).ast.statements@, final(types_file).ast.statements@),
        crate::imports::imports_distinct(old(types_file).ast.statements@)
            ==> crate::imports::imports_distinct(final(types_file).ast.statements@),
        r matches Ok(t) && ({
            let target = enum_target_v(*tree, defined_view(*resolved));
            let cur = types_file_path_v(*tree, scope.file_id, scope.parents@);
            &&& type_view(t) == TypeV::Reference(
                seq![resolved_decl_name(*tree, defined_view(*resolved))],
            )
            &&& (target.take(crate::paths::first_decl_index(target, 0)) == cur ==> final(types_file).ast.statements@ == old(types_file).ast.statements@)
            &&& (target.take(crate::paths::first_decl_index(target, 0)) != cur ==> {
                &&& rel_import_valid(cur, target)
                &&& ensured_import_rel(
                    old(types_file).ast.statements@,
                    final(types_file).ast.statements@,
                    rel_specifier(cur, target),
                    rel_symbol(target),
                )
            })
        }),
{
    let ghost rv = defined_view(*resolved);
    let enum_name = match &resolved.declaration {
        IdType::DataType(id) => match &tree.arena[*id] {
            Declaration::Enum(e) => e.name.clone(),
            Declaration::Message(_) => {
                proof {
                    assert(false);
                }
                String::new()
            },
        },
        IdType::Package(_) => {
            proof {
                assert(false);
            }
            String::new()
        },
    };
    let proto = resolved.path(tree);
    let mut target = proto_path_to_ts_path(&proto);
    target.push(TsPathComponent::Enum(enum_name.clone()));
    proof {
        assert(ts_path_view(target) =~= enum_target_v(*tree, rv));
    }
    let scope_proto = scope.path(tree);
    let mut current = proto_path_to_ts_path(&scope_proto);
    current.push(TsPathComponent::File("types".to_owned()));
    proof {
        assert(ts_path_view(current) =~= types_file_path_v(*tree, scope.file_id, scope.parents@));
    }
    let target_file = target.file_path();
    let mut ids: Vec<Identifier> = Vec::new();
    ids.push(Identifier::new(enum_name));
    let t = Type::reference(ids);
    proof {
        assert(crate::ast::idents_view(t->TypeReference_0@) =~= seq![
            resolved_decl_name(*tree, rv),
        ]);
    }
    if crate::paths::ts_path_eq(&target_file, &current) {
        proof {
            lemma_imports_appended_refl(types_file.ast.statements@);
        }
        return Ok(t);
    }
    proof {
        lemma_types_file_path_shape(*tree, scope.file_id, scope.parents@);
        lemma_enum_target_shape(*tree, rv);
        lemma_target_decl_index(enum_target_v(*tree, rv));
        crate::imports::lemma_distinct_files_import_valid(
            types_file_path_v(*tree, scope.file_id, scope.parents@),
            enum_target_v(*tree, rv),
        );
    }
    match add_relative_import(types_file, &current, &target) {
        Ok(_) => Ok(t),
        Err(e) => {
            proof {
                assert(false);
            }
            Err(e)
        },
    }
}

/// Import a resolved message's generated interface — under `imported_name`,
/// which varies with the mapping purpose — into the current message's
/// `types` file: a reference in the same generated file needs no import.
pub fn import_message_type(
    tree: &PackageTree,
    scope: &BlockScope,
    types_file: &mut File,
    resolved: &DefinedId,
    imported_name: String,
) -> (r: Result<Type, CompileError>)
    requires
        tree_wf(*tree),
        scope_wf(*tree, scope.file_id, scope.parents@),
        resolved_wf(*tree, defined_view(*resolved)),
        resolved.declaration matches IdType::DataType(id) && tree.arena@[id as int] is Message,
    ensures
        final(types_file).name == old(types_file).name,
        imports_appended(old(types_file).ast.statements@, final(types_file).ast.statements@),
        crate::imports::imports_distinct(old(types_file).ast.statements@)
            ==> crate::imports::imports_distinct(final(types_file).ast.statements@),
        r matches Ok(t) && ({
            let target = message_target_v(*tree, defined_view(*resolved), imported_name@);
            let cur = types_file_path_v(*tree, scope.file_id, scope.parents@);
            &&& type_view(t) == TypeV::Reference(seq![imported_name@])
            &&& (target.take(crate::paths::first_decl_index(target, 0)) == cur ==> final(types_file).ast.statements@ == old(types_file).ast.statements@)
            &&& (target.take(crate::paths::first_decl_index(target, 0)) != cur ==> {
                &&& rel_import_valid(cur, target)
                &&& ensured_import_rel(
                    old(types_file).ast.statements@,
                    final(types_file).ast.statements@,
                    rel_specifier(cur, target),
                    rel_symbol(target),
                )
            })
        }),
{
    let ghost rv = defined_view(*resolved);
    let ghost iname = imported_name@;
    let proto = resolved.path(tree);
    let mut target = proto_path_to_ts_path(&proto);
    target.push(TsPathComponent::File("types".to_owned()));
    target.push(TsPathComponent::Interface(imported_name.clone()));
    proof {
        assert(ts_path_view(target) =~= message_target_v(*tree, rv, iname));
    }
    let scope_proto = scope.path(tree);
    let mut current = proto_path_to_ts_path(&scope_proto);
    current.push(TsPathComponent::File("types".to_owned()));
    proof {
        assert(ts_path_view(current) =~= types_file_path_v(*tree, scope.file_id, scope.parents@));
    }
    let target_file = target.file_path();
    let mut ids: Vec<Identifier> = Vec::new();
    ids.push(Identifier::new(imported_name));
    let t = Type::reference(ids);
    proof {
        assert(crate::ast::idents_view(t->TypeReference_0@) =~= seq![iname]);
    }
    if crate::paths::ts_path_eq(&target_file, &current) {
        proof {
            lemma_imports_appended_refl(types_file.ast.statements@);
        }
        return Ok(t);
    }
    proof {
        lemma_types_file_path_shape(*tree, scope.file_id, scope.parents@);
        lemma_message_target_shape(*tree, rv, iname);
        lemma_target_decl_index(message_target_v(*tree, rv, iname));
        crate::imports::lemma_distinct_files_import_valid(
            types_file_path_v(*tree, scope.file_id, scope.parents@),
            message_target_v(*tree, rv, iname),
        );
    }
    match add_relative_import(types_file, &current, &target) {
        Ok(_) => Ok(t),
        Err(e) => {
            proof {
                assert(false);
            }
            Err(e)
        },
    }
}

/// The structural view of the `util` import from the protobuf runtime
/// module.
pub open spec fn util_import_view() -> (
    Option<Seq<char>>,
    Option<Seq<(Seq<char>, Option<Seq<char>>)>>,
    Seq<char>,
) {
    (None, Some(seq![("util"@, None::<Seq<char>>)]), "protobufjs"@)
}

/// The structural view of the synthesized relative import of `target` into
/// the file at `cur`.
pub open spec fn import_of_target(cur: Seq<TsCompV>, target: Seq<TsCompV>) -> (
    Option<Seq<char>>,
    Option<Seq<(Seq<char>, Option<Seq<char>>)>>,
    Seq<char>,
) {
    (
        None,
        Some(seq![(rel_symbol(target), None::<Seq<char>>)]),
        rel_specifier(cur, target),
    )
}

/// A field type justifies an import into the types file of the given scope:
/// a 64-bit scalar the `util` import, a resolving reference the synthesized
/// import of its target's enum symbol or of either of its interface
/// symbols, a repeated or map type whatever its element types justify.
pub open spec fn ft_justifies(
    t: PackageTree,
    file_id: usize,
    parents: Seq<usize>,
    ft: FieldType,
    dv: (Option<Seq<char>>, Option<Seq<(Seq<char>, Option<Seq<char>>)>>, Seq<char>),
) -> bool
    decreases ft,
{
    match ft {
        FieldType::Scalar(k) => is_long_kind(k) && dv == util_import_view(),
        FieldType::Reference(ids) => {
            let cur = types_file_path_v(t, file_id, parents);
            &&& ids@.len() > 0
            &&& !(ids@.len() == 1 && !(predefined_v(ids@[0]@) is None))
            &&& (match path_outcome(t, file_id, parents, string_views(ids@)) {
                Some(v) => match v.target {
                    IdType::DataType(id) => match t.arena@[id as int] {
                        Declaration::Enum(_) => dv == import_of_target(cur, enum_target_v(t, v)),
                        Declaration::Message(m) => dv == import_of_target(
                            cur,
                            message_target_v(t, v, encode_name_v(m.name@)),
                        ) || dv == import_of_target(cur, message_target_v(t, v, m.name@)),
                    },
                    IdType::Package(_) => false,
                },
                None => false,
            })
        },
        FieldType::Repeated(inner) => ft_justifies(t, file_id, parents, *inner, dv),
        FieldType::Mapping(k, v) => ft_justifies(t, file_id, parents, *k, dv) || ft_justifies(
            t,
            file_id,
            parents,
            *v,
            dv,
        ),
    }
}

/// An import into a message's types file is justified by some field of the
/// message.
pub open spec fn import_justified(
    t: PackageTree,
    file_id: usize,
    parents: Seq<usize>,
    es: Seq<crate::model::MessageEntry>,
    dv: (Option<Seq<char>>, Option<Seq<(Seq<char>, Option<Seq<char>>)>>, Seq<char>),
) -> bool {
    exists|j: int|
        0 <= j < es.len() && ((#[trigger] es[j]) matches crate::model::MessageEntry::Field(f)
            && ft_justifies(t, file_id, parents, f.field_type, dv))
}

/// The class an error mapping a field type belongs to.
pub enum MappingFailure {
    NotImplemented,
    Resolution,
    Internal,
}

/// The error belongs to the class.
pub open spec fn failure_matches(e: CompileError, k: MappingFailure) -> bool {
    match k {
        MappingFailure::NotImplemented => e is NotImplemented,
        MappingFailure::Resolution => e is Resolution,
        MappingFailure::Internal => e is Internal,
    }
}

/// The first failure mapping a field type meets, shared by both mapping
/// purposes: an empty identifier path or a reference ending at a package is
/// an internal violation, an unresolvable reference a resolution failure, a
/// non-scalar map key the distinct not-implemented signal.
pub open spec fn mapping_failure_v(
    t: PackageTree,
    file_id: usize,
    parents: Seq<usize>,
    ft: FieldType,
) -> Option<MappingFailure>
    decreases ft,
{
    match ft {
        FieldType::Scalar(_) => None,
        FieldType::Reference(ids) => if ids@.len() == 0 {
            Some(MappingFailure::Internal)
        } else if ids@.len() == 1 && !(predefined_v(ids@[0]@) is None) {
            None
        } else {
            match path_outcome(t, file_id, parents, string_views(ids@)) {
                None => Some(MappingFailure::Resolution),
                Some(v) => match v.target {
                    IdType::DataType(_) => None,
                    IdType::Package(_) => Some(MappingFailure::Internal),
                },
            }
        },
        FieldType::Repeated(inner) => mapping_failure_v(t, file_id, parents, *inner),
        FieldType::Mapping(k, v) => if !map_key_ok(*k) {
            Some(MappingFailure::NotImplemented)
        } else {
            match mapping_failure_v(t, file_id, parents, *k) {
                Some(f) => Some(f),
                None => mapping_failure_v(t, file_id, parents, *v),
            }
        },
    }
}

/// A field type maps, on either side, exactly when it meets no failure.
pub proof fn lemma_failure_none(t: PackageTree, file_id: usize, parents: Seq<usize>, ft: FieldType)
    ensures
        (encode_type_v(t, file_id, parents, ft) is Some) <==> (mapping_failure_v(
            t,
            file_id,
            parents,
            ft,
        ) is None),
        (decode_type_v(t, file_id, parents, ft) is Some) <==> (mapping_failure_v(
            t,
            file_id,
            parents,
            ft,
        ) is None),
    decreases ft,
{
    match ft {
        FieldType::Scalar(_) => {},
        FieldType::Reference(_) => {},
        FieldType::Repeated(inner) => {
            lemma_failure_none(t, file_id, parents, *inner);
        },
        FieldType::Mapping(k, v) => {
            lemma_failure_none(t, file_id, parents, *k);
            lemma_failure_none(t, file_id, parents, *v);
        },
    }
}

/// The target type expression of the narrow (non-64-bit) scalar kinds.
fn scalar_narrow_type(k: ScalarKind) -> (r: Type)
    requires
        !is_long_kind(k),
    ensures
        type_view(r) == scalar_narrow_v(k),
{
    if k == ScalarKind::Bool {
        Type::Boolean
    } else if k == ScalarKind::Str {
        Type::String
    } else if k == ScalarKind::Bytes {
        let mut ids: Vec<Identifier> = Vec::new();
        ids.push(Identifier::new("Uint8Array".to_owned()));
        let t = Type::reference(ids);
        proof {
            assert(crate::ast::idents_view(t->TypeReference_0@) =~= seq!["Uint8Array"@]);
        }
        t
    } else {
        Type::Number
    }
}

/// The widened `util.Long | number` expression of the 64-bit kinds on the
/// encoding side, with the `util` import the reference needs.
fn long_encode_type(types_file: &mut File) -> (r: Type)
    ensures
        final(types_file).name == old(types_file).name,
        imports_appended(old(types_file).ast.statements@, final(types_file).ast.statements@),
        ensured_import_rel(
            old(types_file).ast.statements@,
            final(types_file).ast.statements@,
            "protobufjs"@,
            "util"@,
        ),
        crate::imports::imports_distinct(old(types_file).ast.statements@)
            ==> crate::imports::imports_distinct(final(types_file).ast.statements@),
        type_view(r) == long_union_v(),
{
    let lref = long_reference(types_file);
    let t = lref.or(&Type::Number);
    proof {
        let e = Seq::<TypeV>::empty();
        assert(!e.contains(long_ref_v()));
        let one = crate::ast::union_push_v(e, long_ref_v());
        assert(one =~= seq![long_ref_v()]);
        assert(forall|i: int| 0 <= i < one.len() ==> one[i] != TypeV::Number);
        assert(!one.contains(TypeV::Number));
        assert(crate::ast::union_push_v(one, TypeV::Number) =~= seq![long_ref_v(), TypeV::Number]);
    }
    t
}

/// The reference `util.Long`, with the `util` import it needs from the
/// protobuf runtime module.
fn long_reference(types_file: &mut File) -> (r: Type)
    ensures
        final(types_file).name == old(types_file).name,
        imports_appended(old(types_file).ast.statements@, final(types_file).ast.statements@),
        ensured_import_rel(
            old(types_file).ast.statements@,
            final(types_file).ast.statements@,
            "protobufjs"@,
            "util"@,
        ),
        crate::imports::imports_distinct(old(types_file).ast.statements@)
            ==> crate::imports::imports_distinct(final(types_file).ast.statements@),
        type_view(r) == long_ref_v(),
{
    let ghost olds = types_file.ast.statements@;
    let mut specs: Vec<ImportSpecifier> = Vec::new();
    specs.push(ImportSpecifier::new(Identifier::new("util".to_owned())));
    let d = ImportDeclaration::import(specs, StringLiteral::new("protobufjs".to_owned()));
    proof {
        let bs = d.import_clause.named_bindings->Some_0;
        assert(crate::imports::bindings_view(bs@) =~= seq![("util"@, None::<Seq<char>>)]);
        assert(import_view(d) == (
            None::<Seq<char>>,
            Some(seq![("util"@, None::<Seq<char>>)]),
            "protobufjs"@,
        ));
        if crate::imports::has_import(olds, d) {
            let i = choose|i: int|
                0 <= i < olds.len() && ((#[trigger] olds[i]) matches Statement::ImportDeclaration(
                    x,
                ) && import_view(*x) == import_view(d));
            assert(is_import_view(olds[i], "protobufjs"@, "util"@));
            assert(has_import_view(olds, "protobufjs"@, "util"@));
        }
        if has_import_view(olds, "protobufjs"@, "util"@) {
            let i = choose|i: int|
                0 <= i < olds.len() && is_import_view(#[trigger] olds[i], "protobufjs"@, "util"@);
            assert(olds[i] matches Statement::ImportDeclaration(x) && import_view(*x)
                == import_view(d));
            assert(crate::imports::has_import(olds, d));
        }
    }
    ensure_import(types_file, d);
    proof {
        if crate::imports::imports_distinct(olds) {
            crate::imports::lemma_ensure_import_distinct(olds, d);
        }
        if has_import_view(olds, "protobufjs"@, "util"@) {
            lemma_imports_appended_refl(olds);
        } else {
            assert(types_file.ast.statements@.take(olds.len() as int) =~= olds);
        }
    }
    let mut ids: Vec<Identifier> = Vec::new();
    ids.push(Identifier::new("util".to_owned()));
    ids.push(Identifier::new("Long".to_owned()));
    let t = Type::reference(ids);
    proof {
        assert(crate::ast::idents_view(t->TypeReference_0@) =~= seq!["util"@, "Long"@]);
    }
    t
}

/// Whether a field type may key a map.
fn map_key_is_scalar(ft: &FieldType) -> (r: bool)
    ensures
        r == map_key_ok(*ft),
{
    match ft {
        FieldType::Scalar(_) => true,
        FieldType::Reference(ids) => {
            if ids.len() == 1 {
                match try_get_predefined_type(&ids[0]) {
                    Some(_) => true,
                    None => false,
                }
            } else {
                false
            }
        },
        _ => false,
    }
}

/// The structural view of an import statement.
pub open spec fn stmt_import_view(s: Statement) -> (
    Option<Seq<char>>,
    Option<Seq<(Seq<char>, Option<Seq<char>>)>>,
    Seq<char>,
) {
    import_view(*s->ImportDeclaration_0)
}

/// Imports appended while mapping a map's key and value types are justified
/// by the map type itself.
proof fn lemma_mapping_justified(
    t: PackageTree,
    file_id: usize,
    parents: Seq<usize>,
    ft: FieldType,
    s0: Seq<Statement>,
    s1: Seq<Statement>,
    s2: Seq<Statement>,
)
    requires
        ft matches FieldType::Mapping(k, v),
        imports_appended(s0, s1),
        imports_appended(s1, s2),
        forall|i: int|
            s0.len() <= i < s1.len() && (#[trigger] s1[i]) is ImportDeclaration ==> ft_justifies(
                t,
                file_id,
                parents,
                *ft->Mapping_0,
                stmt_import_view(s1[i]),
            ),
        forall|i: int|
            s1.len() <= i < s2.len() && (#[trigger] s2[i]) is ImportDeclaration ==> ft_justifies(
                t,
                file_id,
                parents,
                *ft->Mapping_1,
                stmt_import_view(s2[i]),
            ),
    ensures
        forall|i: int|
            s0.len() <= i < s2.len() && (#[trigger] s2[i]) is ImportDeclaration ==> ft_justifies(
                t,
                file_id,
                parents,
                ft,
                stmt_import_view(s2[i]),
            ),
{
    assert forall|i: int|
        s0.len() <= i < s2.len() && (#[trigger] s2[i]) is ImportDeclaration implies ft_justifies(
        t,
        file_id,
        parents,
        ft,
        stmt_import_view(s2[i]),
    ) by {
        if i < s1.len() {
            assert(s2[i] == s2.take(s1.len() as int)[i]);
            assert(s2[i] == s1[i]);
        }
    }
}

/// Convert a field's schema type into its encoding-input target type,
/// resolving references in `scope` and adding to `types_file` the imports
/// the type expression needs — each one justified by the field type, none
/// duplicated, and none at all for a type that needs no import.
pub fn import_encoding_input_type(
    tree: &PackageTree,
    scope: &BlockScope,
    types_file: &mut File,
    field_type: &FieldType,
) -> (r: Result<Type, CompileError>)
    requires
        tree_wf(*tree),
        scope_wf(*tree, scope.file_id, scope.parents@),
    ensures
        final(types_file).name == old(types_file).name,
        imports_appended(old(types_file).ast.statements@, final(types_file).ast.statements@),
        crate::imports::imports_distinct(old(types_file).ast.statements@)
            ==> crate::imports::imports_distinct(final(types_file).ast.statements@),
        (field_type matches FieldType::Scalar(k) && !is_long_kind(*k)) ==> final(types_file).ast.statements@ == old(types_file).ast.statements@,
        (field_type matches FieldType::Scalar(k) && is_long_kind(*k)) ==> ensured_import_rel(
            old(types_file).ast.statements@,
            final(types_file).ast.statements@,
            "protobufjs"@,
            "util"@,
        ),
        forall|i: int|
            old(types_file).ast.statements@.len() <= i < final(types_file).ast.statements@.len()
                && (#[trigger] final(types_file).ast.statements@[i]) is ImportDeclaration
                ==> ft_justifies(
                *tree,
                scope.file_id,
                scope.parents@,
                *field_type,
                stmt_import_view(final(types_file).ast.statements@[i]),
            ),
        match r {
            Ok(t) => encode_type_v(*tree, scope.file_id, scope.parents@, *field_type) == Some(
                type_view(t),
            ),
            Err(e) => encode_type_v(*tree, scope.file_id, scope.parents@, *field_type) is None && (
            mapping_failure_v(*tree, scope.file_id, scope.parents@, *field_type) matches Some(k)
                && failure_matches(e, k)),
        },
    decreases *field_type,
{
    let ghost fs0 = types_file.ast.statements@;
    match field_type {
        FieldType::Scalar(k) => {
            if *k == ScalarKind::Int64 || *k == ScalarKind::Sint64 || *k == ScalarKind::Sfixed64
                || *k == ScalarKind::Uint64 || *k == ScalarKind::Fixed64 {
                let t = long_encode_type(types_file);
                proof {
                    assert forall|i: int|
                        fs0.len() <= i < types_file.ast.statements@.len() && (
                        #[trigger] types_file.ast.statements@[i]) is ImportDeclaration implies ft_justifies(
                        *tree,
                        scope.file_id,
                        scope.parents@,
                        *field_type,
                        stmt_import_view(types_file.ast.statements@[i]),
                    ) by {
                        assert(i == fs0.len());
                        assert(types_file.ast.statements@[i]
                            == types_file.ast.statements@.last());
                    }
                }
                Ok(t)
            } else {
                proof {
                    lemma_imports_appended_refl(types_file.ast.statements@);
                }
                Ok(scalar_narrow_type(*k))
            }
        },
        FieldType::Reference(ids) => {
            proof {
                lemma_imports_appended_refl(types_file.ast.statements@);
            }
            if ids.len() == 0 {
                return Err(
                    CompileError::Internal {
                        detail: "a field reference holds an empty identifier path".to_owned(),
                    },
                );
            }
            if ids.len() == 1 {
                match try_get_predefined_type(&ids[0]) {
                    Some(t) => {
                        return Ok(t);
                    },
                    None => {},
                }
            }
            let resolved = match scope.resolve_path(tree, ids) {
                Ok(d) => d,
                Err(e) => {
                    proof {
                        assert(mapping_failure_v(*tree, scope.file_id, scope.parents@, *field_type)
                            == Some(MappingFailure::Resolution));
                    }
                    return Err(e);
                },
            };
            match &resolved.declaration {
                IdType::DataType(id) => {
                    match &tree.arena[*id] {
                        Declaration::Enum(_) => {
                            let res = import_enum_type(tree, scope, types_file, &resolved);
                            proof {
                                let cur = types_file_path_v(*tree, scope.file_id, scope.parents@);
                                let target = enum_target_v(*tree, defined_view(resolved));
                                assert forall|i: int|
                                    fs0.len() <= i < types_file.ast.statements@.len() && (
                                    #[trigger] types_file.ast.statements@[i])
                                        is ImportDeclaration implies ft_justifies(
                                    *tree,
                                    scope.file_id,
                                    scope.parents@,
                                    *field_type,
                                    stmt_import_view(types_file.ast.statements@[i]),
                                ) by {
                                    assert(i == fs0.len());
                                    assert(types_file.ast.statements@[i]
                                        == types_file.ast.statements@.last());
                                    assert(stmt_import_view(types_file.ast.statements@[i])
                                        == import_of_target(cur, target));
                                }
                            }
                            res
                        },
                        Declaration::Message(m) => {
                            let iname = message_name_to_encode_type_name(&m.name);
                            let ghost inamev = iname@;
                            let res = import_message_type(tree, scope, types_file, &resolved, iname);
                            proof {
                                let cur = types_file_path_v(*tree, scope.file_id, scope.parents@);
                                let target = message_target_v(*tree, defined_view(resolved), inamev);
                                assert forall|i: int|
                                    fs0.len() <= i < types_file.ast.statements@.len() && (
                                    #[trigger] types_file.ast.statements@[i])
                                        is ImportDeclaration implies ft_justifies(
                                    *tree,
                                    scope.file_id,
                                    scope.parents@,
                                    *field_type,
                                    stmt_import_view(types_file.ast.statements@[i]),
                                ) by {
                                    assert(i == fs0.len());
                                    assert(types_file.ast.statements@[i]
                                        == types_file.ast.statements@.last());
                                    assert(stmt_import_view(types_file.ast.statements@[i])
                                        == import_of_target(cur, target));
                                }
                            }
                            res
                        },
                    }
                },
                IdType::Package(_) => {
                    proof {
                        assert(mapping_failure_v(*tree, scope.file_id, scope.parents@, *field_type)
                            == Some(MappingFailure::Internal));
                    }
                    Err(
                        CompileError::Internal {
                            detail: "a field reference resolved to a package, not a declaration"
                                .to_owned(),
                        },
                    )
                },
            }
        },
        FieldType::Repeated(inner) => {
            let element = match import_encoding_input_type(tree, scope, types_file, &**inner) {
                Ok(t) => t,
                Err(e) => {
                    return Err(e);
                },
            };
            Ok(Type::array(element))
        },
        FieldType::Mapping(kf, vf) => {
            if !map_key_is_scalar(&**kf) {
                proof {
                    lemma_imports_appended_refl(types_file.ast.statements@);
                    assert(mapping_failure_v(*tree, scope.file_id, scope.parents@, *field_type)
                        == Some(MappingFailure::NotImplemented));
                }
                return Err(
                    CompileError::NotImplemented {
                        feature: "a map keyed by a non-scalar type".to_owned(),
                    },
                );
            }
            let key_type = match import_encoding_input_type(tree, scope, types_file, &**kf) {
                Ok(t) => t,
                Err(e) => {
                    return Err(e);
                },
            };
            let ghost s1 = types_file.ast.statements@;
            proof {
                lemma_failure_none(*tree, scope.file_id, scope.parents@, **kf);
            }
            let value_type = match import_encoding_input_type(tree, scope, types_file, &**vf) {
                Ok(t) => t,
                Err(e) => {
                    proof {
                        lemma_imports_appended_trans(fs0, s1, types_file.ast.statements@);
                        lemma_mapping_justified(
                            *tree,
                            scope.file_id,
                            scope.parents@,
                            *field_type,
                            fs0,
                            s1,
                            types_file.ast.statements@,
                        );
                    }
                    return Err(e);
                },
            };
            proof {
                lemma_imports_appended_trans(fs0, s1, types_file.ast.statements@);
                lemma_mapping_justified(
                    *tree,
                    scope.file_id,
                    scope.parents@,
                    *field_type,
                    fs0,
                    s1,
                    types_file.ast.statements@,
                );
            }
            Ok(Type::Record(Box::new(key_type), Box::new(value_type)))
        },
    }
}

/// Convert a field's schema type into its decode-result target type,
/// resolving references in `scope` and adding to `types_file` the imports
/// the type expression needs — each one justified by the field type, none
/// duplicated, and none at all for a type that needs no import.
pub fn import_decode_result_type(
    tree: &PackageTree,
    scope: &BlockScope,
    types_file: &mut File,
    field_type: &FieldType,
) -> (r: Result<Type, CompileError>)
    requires
        tree_wf(*tree),
        scope_wf(*tree, scope.file_id, scope.parents@),
    ensures
        final(types_file).name == old(types_file).name,
        imports_appended(old(types_file).ast.statements@, final(types_file).ast.statements@),
        crate::imports::imports_distinct(old(types_file).ast.statements@)
            ==> crate::imports::imports_distinct(final(types_file).ast.statements@),
        (field_type matches FieldType::Scalar(k) && !is_long_kind(*k)) ==> final(types_file).ast.statements@ == old(types_file).ast.statements@,
        (field_type matches FieldType::Scalar(k) && is_long_kind(*k)) ==> ensured_import_rel(
            old(types_file).ast.statements@,
            final(types_file).ast.statements@,
            "protobufjs"@,
            "util"@,
        ),
        forall|i: int|
            old(types_file).ast.statements@.len() <= i < final(types_file).ast.statements@.len()
                && (#[trigger] final(types_file).ast.statements@[i]) is ImportDeclaration
                ==> ft_justifies(
                *tree,
                scope.file_id,
                scope.parents@,
                *field_type,
                stmt_import_view(final(types_file).ast.statements@[i]),
            ),
        match r {
            Ok(t) => decode_type_v(*tree, scope.file_id, scope.parents@, *field_type) == Some(
                type_view(t),
            ),
            Err(e) => decode_type_v(*tree, scope.file_id, scope.parents@, *field_type) is None && (
            mapping_failure_v(*tree, scope.file_id, scope.parents@, *field_type) matches Some(k)
                && failure_matches(e, k)),
        },
    decreases *field_type,
{
    let ghost fs0 = types_file.ast.statements@;
    match field_type {
        FieldType::Scalar(k) => {
            if *k == ScalarKind::Int64 || *k == ScalarKind::Sint64 || *k == ScalarKind::Sfixed64
                || *k == ScalarKind::Uint64 || *k == ScalarKind::Fixed64 {
                let t = long_reference(types_file);
                proof {
                    assert forall|i: int|
                        fs0.len() <= i < types_file.ast.statements@.len() && (
                        #[trigger] types_file.ast.statements@[i]) is ImportDeclaration implies ft_justifies(
                        *tree,
                        scope.file_id,
                        scope.parents@,
                        *field_type,
                        stmt_import_view(types_file.ast.statements@[i]),
                    ) by {
                        assert(i == fs0.len());
                        assert(types_file.ast.statements@[i]
                            == types_file.ast.statements@.last());
                    }
                }
                Ok(t)
            } else {
                proof {
                    lemma_imports_appended_refl(types_file.ast.statements@);
                }
                Ok(scalar_narrow_type(*k))
            }
        },
        FieldType::Reference(ids) => {
            proof {
                lemma_imports_appended_refl(types_file.ast.statements@);
            }
            if ids.len() == 0 {
                return Err(
                    CompileError::Internal {
                        detail: "a field reference holds an empty identifier path".to_owned(),
                    },
                );
            }
            if ids.len() == 1 {
                match try_get_predefined_type(&ids[0]) {
                    Some(t) => {
                        return Ok(t);
                    },
                    None => {},
                }
            }
            let resolved = match scope.resolve_path(tree, ids) {
                Ok(d) => d,
                Err(e) => {
                    proof {
                        assert(mapping_failure_v(*tree, scope.file_id, scope.parents@, *field_type)
                            == Some(MappingFailure::Resolution));
                    }
                    return Err(e);
                },
            };
            match &resolved.declaration {
                IdType::DataType(id) => {
                    match &tree.arena[*id] {
                        Declaration::Enum(_) => {
                            let res = import_enum_type(tree, scope, types_file, &resolved);
                            proof {
                                let cur = types_file_path_v(*tree, scope.file_id, scope.parents@);
                                let target = enum_target_v(*tree, defined_view(resolved));
                                assert forall|i: int|
                                    fs0.len() <= i < types_file.ast.statements@.len() && (
                                    #[trigger] types_file.ast.statements@[i])
                                        is ImportDeclaration implies ft_justifies(
                                    *tree,
                                    scope.file_id,
                                    scope.parents@,
                                    *field_type,
                                    stmt_import_view(types_file.ast.statements@[i]),
                                ) by {
                                    assert(i == fs0.len());
                                    assert(types_file.ast.statements@[i]
                                        == types_file.ast.statements@.last());
                                    assert(stmt_import_view(types_file.ast.statements@[i])
                                        == import_of_target(cur, target));
                                }
                            }
                            res
                        },
                        Declaration::Message(m) => {
                            let iname = m.name.clone();
                            let ghost inamev = iname@;
                            let res = import_message_type(tree, scope, types_file, &resolved, iname);
                            proof {
                                let cur = types_file_path_v(*tree, scope.file_id, scope.parents@);
                                let target = message_target_v(*tree, defined_view(resolved), inamev);
                                assert forall|i: int|
                                    fs0.len() <= i < types_file.ast.statements@.len() && (
                                    #[trigger] types_file.ast.statements@[i])
                                        is ImportDeclaration implies ft_justifies(
                                    *tree,
                                    scope.file_id,
                                    scope.parents@,
                                    *field_type,
                                    stmt_import_view(types_file.ast.statements@[i]),
                                ) by {
                                    assert(i == fs0.len());
                                    assert(types_file.ast.statements@[i]
                                        == types_file.ast.statements@.last());
                                    assert(stmt_import_view(types_file.ast.statements@[i])
                                        == import_of_target(cur, target));
                                }
                            }
                            res
                        },
                    }
                },
                IdType::Package(_) => {
                    proof {
                        assert(mapping_failure_v(*tree, scope.file_id, scope.parents@, *field_type)
                            == Some(MappingFailure::Internal));
                    }
                    Err(
                        CompileError::Internal {
                            detail: "a field reference resolved to a package, not a declaration"
                                .to_owned(),
                        },
                    )
                },
            }
        },
        FieldType::Repeated(inner) => {
            let element = match import_decode_result_type(tree, scope, types_file, &**inner) {
                Ok(t) => t,
                Err(e) => {
                    return Err(e);
                },
            };
            Ok(Type::array(element))
        },
        FieldType::Mapping(kf, vf) => {
            if !map_key_is_scalar(&**kf) {
                proof {
                    lemma_imports_appended_refl(types_file.ast.statements@);
                    assert(mapping_failure_v(*tree, scope.file_id, scope.parents@, *field_type)
                        == Some(MappingFailure::NotImplemented));
                }
                return Err(
                    CompileError::NotImplemented {
                        feature: "a map keyed by a non-scalar type".to_owned(),
                    },
                );
            }
            let key_type = match import_decode_result_type(tree, scope, types_file, &**kf) {
                Ok(t) => t,
                Err(e) => {
                    return Err(e);
                },
            };
            let ghost s1 = types_file.ast.statements@;
            proof {
                lemma_failure_none(*tree, scope.file_id, scope.parents@, **kf);
            }
            let value_type = match import_decode_result_type(tree, scope, types_file, &**vf) {
                Ok(t) => t,
                Err(e) => {
                    proof {
                        lemma_imports_appended_trans(fs0, s1, types_file.ast.statements@);
                        lemma_mapping_justified(
                            *tree,
                            scope.file_id,
                            scope.parents@,
                            *field_type,
                            fs0,
                            s1,
                            types_file.ast.statements@,
                        );
                    }
                    return Err(e);
                },
            };
            proof {
                lemma_imports_appended_trans(fs0, s1, types_file.ast.statements@);
                lemma_mapping_justified(
                    *tree,
                    scope.file_id,
                    scope.parents@,
                    *field_type,
                    fs0,
                    s1,
                    types_file.ast.statements@,
                );
            }
            Ok(Type::Record(Box::new(key_type), Box::new(value_type)))
        },
    }
}

/// The target type a dotted reference maps to: a predefined name maps by
/// the fixed table, anything else resolves in scope to an enum (its own
/// symbol) or a message (its encode-input interface when encoding, its own
/// interface when decoding).
pub open spec fn reference_type_v(
    t: PackageTree,
    file_id: usize,
    parents: Seq<usize>,
    ids: Seq<String>,
    encoding: bool,
) -> Option<TypeV> {
    if ids.len() == 0 {
        None
    } else if ids.len() == 1 && !(predefined_v(ids[0]@) is None) {
        predefined_v(ids[0]@)
    } else {
        match path_outcome(t, file_id, parents, string_views(ids)) {
            None => None,
            Some(v) => match v.target {
                IdType::DataType(id) => match t.arena@[id as int] {
                    Declaration::Enum(e) => Some(TypeV::Reference(seq![e.name@])),
                    Declaration::Message(m) => if encoding {
                        Some(TypeV::Reference(seq![encode_name_v(m.name@)]))
                    } else {
                        Some(TypeV::Reference(seq![m.name@]))
                    },
                },
                IdType::Package(_) => None,
            },
        }
    }
}

} // verus!

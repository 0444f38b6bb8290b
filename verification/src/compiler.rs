//! The module tree builder: walking the declaration tree and emitting one
//! folder per message, one file per enum, and a `types` file per message
//! holding its two generated interfaces.

use vstd::prelude::*;
use crate::ast::{
    EnumMember, EnumValue, File, Folder, FolderEntry, InterfaceDeclaration, InterfaceMember,
    Modifier, NumericLiteral, PropertySignature, Statement, TypeV, type_view,
};
use crate::ast::Identifier;
use crate::errors::CompileError;
use crate::mapper::{
    encode_name_v, encode_type_v, decode_type_v, import_decode_result_type,
    import_encoding_input_type, imports_appended, lemma_imports_appended_refl,
    lemma_imports_appended_trans, message_name_to_encode_type_name, MappingFailure,
    failure_matches, mapping_failure_v, lemma_failure_none, import_justified, stmt_import_view,
    ft_justifies,
};
use crate::imports::{imports_distinct, lemma_push_non_import_distinct};
use crate::model::{
    Declaration, EnumDeclaration as ModelEnum, Field, MessageDeclaration, MessageEntry,
    PackageNode, PackageTree, tree_wf,
};
use crate::ast::or_v;
use crate::paths::folder_name_of;
use crate::scope::{BlockScope, scope_wf};

verus! {

/// The interface declarations among the statements, in order.
pub open spec fn interfaces_of(ss: Seq<Statement>) -> Seq<InterfaceDeclaration>
    decreases ss,
{
    if ss.len() == 0 {
        Seq::empty()
    } else {
        interfaces_of(ss.drop_last()) + (match ss.last() {
            Statement::InterfaceDeclaration(d) => seq![*d],
            _ => Seq::empty(),
        })
    }
}

/// The fields among a message's entries, in declaration order.
pub open spec fn fields_of(es: Seq<MessageEntry>) -> Seq<Field>
    decreases es,
{
    if es.len() == 0 {
        Seq::empty()
    } else {
        fields_of(es.drop_last()) + (match es.last() {
            MessageEntry::Field(f) => seq![f],
            _ => Seq::empty(),
        })
    }
}

/// The nested declaration ids among a message's entries, in order.
pub open spec fn decls_of(es: Seq<MessageEntry>) -> Seq<usize>
    decreases es,
{
    if es.len() == 0 {
        Seq::empty()
    } else {
        decls_of(es.drop_last()) + (match es.last() {
            MessageEntry::Declaration(c) => seq![c],
            _ => Seq::empty(),
        })
    }
}

/// One step of the three filters above.
proof fn lemma_filters_take_step(es: Seq<MessageEntry>, i: int)
    requires
        0 <= i < es.len(),
    ensures
        fields_of(es.take(i + 1)) == fields_of(es.take(i)) + (match es[i] {
            MessageEntry::Field(f) => seq![f],
            _ => Seq::<Field>::empty(),
        }),
        decls_of(es.take(i + 1)) == decls_of(es.take(i)) + (match es[i] {
            MessageEntry::Declaration(c) => seq![c],
            _ => Seq::<usize>::empty(),
        }),
{
    assert(es.take(i + 1).drop_last() =~= es.take(i));
    assert(es.take(i + 1).last() == es[i]);
}

/// Statements that grew only by imports hold the same interfaces.
pub proof fn lemma_interfaces_of_imports(a: Seq<Statement>, b: Seq<Statement>)
    requires
        imports_appended(a, b),
    ensures
        interfaces_of(b) == interfaces_of(a),
    decreases b.len(),
{
    if b.len() > a.len() {
        assert(b[b.len() - 1] is ImportDeclaration);
        assert(b.drop_last().take(a.len() as int) =~= b.take(a.len() as int));
        assert(imports_appended(a, b.drop_last()));
        lemma_interfaces_of_imports(a, b.drop_last());
    } else {
        assert(b.take(a.len() as int) =~= b);
    }
}

/// Every entry of the message maps on the encoding-input side: no "exactly
/// one of" group stands among them and every field's type converts.
pub open spec fn encode_fields_ok(
    t: PackageTree,
    file_id: usize,
    parents: Seq<usize>,
    es: Seq<MessageEntry>,
) -> bool {
    forall|i: int|
        0 <= i < es.len() ==> (!((#[trigger] es[i]) is OneOf) && (es[i] matches
        MessageEntry::Field(f) ==> !(encode_type_v(t, file_id, parents, f.field_type) is None)))
}

/// The first failure among a message's entries, from index `i` on: an
/// "exactly one of" group is the distinct not-implemented signal, a field
/// fails as its type does.
pub open spec fn entries_failure_v(
    t: PackageTree,
    file_id: usize,
    parents: Seq<usize>,
    es: Seq<MessageEntry>,
    i: int,
) -> Option<MappingFailure>
    decreases es.len() - i,
{
    if i < 0 || i >= es.len() {
        None
    } else {
        match es[i] {
            MessageEntry::OneOf(_) => Some(MappingFailure::NotImplemented),
            MessageEntry::Field(f) => match mapping_failure_v(t, file_id, parents, f.field_type) {
                Some(k) => Some(k),
                None => entries_failure_v(t, file_id, parents, es, i + 1),
            },
            MessageEntry::Declaration(_) => entries_failure_v(t, file_id, parents, es, i + 1),
        }
    }
}

/// Every entry of the message maps on the decode-result side.
pub open spec fn decode_fields_ok(
    t: PackageTree,
    file_id: usize,
    parents: Seq<usize>,
    es: Seq<MessageEntry>,
) -> bool {
    forall|i: int|
        0 <= i < es.len() ==> (!((#[trigger] es[i]) is OneOf) && (es[i] matches
        MessageEntry::Field(f) ==> !(decode_type_v(t, file_id, parents, f.field_type) is None)))
}

/// Imports appended while mapping one field stay justified by the whole
/// entry list, and earlier justified imports stay justified.
proof fn lemma_builder_justified_step(
    t: PackageTree,
    file_id: usize,
    parents: Seq<usize>,
    es: Seq<MessageEntry>,
    i: int,
    s0: Seq<Statement>,
    s1: Seq<Statement>,
    s2: Seq<Statement>,
)
    requires
        0 <= i < es.len(),
        es[i] is Field,
        imports_appended(s1, s2),
        forall|ii: int|
            s0.len() <= ii < s1.len() && (#[trigger] s1[ii]) is ImportDeclaration
                ==> import_justified(t, file_id, parents, es, stmt_import_view(s1[ii])),
        forall|ii: int|
            s1.len() <= ii < s2.len() && (#[trigger] s2[ii]) is ImportDeclaration ==> ft_justifies(
                t,
                file_id,
                parents,
                es[i]->Field_0.field_type,
                stmt_import_view(s2[ii]),
            ),
    ensures
        forall|ii: int|
            s0.len() <= ii < s2.len() && (#[trigger] s2[ii]) is ImportDeclaration
                ==> import_justified(t, file_id, parents, es, stmt_import_view(s2[ii])),
{
    assert forall|ii: int|
        s0.len() <= ii < s2.len() && (#[trigger] s2[ii]) is ImportDeclaration implies import_justified(
        t,
        file_id,
        parents,
        es,
        stmt_import_view(s2[ii]),
    ) by {
        if ii < s1.len() {
            assert(s2[ii] == s2.take(s1.len() as int)[ii]);
            assert(s2[ii] == s1[ii]);
        } else {
            assert(es[i] matches MessageEntry::Field(f) && ft_justifies(
                t,
                file_id,
                parents,
                f.field_type,
                stmt_import_view(s2[ii]),
            ));
        }
    }
}

/// A generated interface member stands for a field on the encoding-input
/// side: named after the field, optional, typed as the field's mapped
/// encoding type widened by `null`.
pub open spec fn encode_member_ok(
    t: PackageTree,
    file_id: usize,
    parents: Seq<usize>,
    m: InterfaceMember,
    f: Field,
) -> bool {
    m matches InterfaceMember::PropertySignature(p) && p.name.text@ == f.name@ && p.optional
        == true && (encode_type_v(t, file_id, parents, f.field_type) matches Some(tv) && type_view(
        p.property_type,
    ) == or_v(tv, TypeV::Null))
}

/// A generated interface member stands for a field on the decode-result
/// side: named after the field, always present, narrowly typed.
pub open spec fn decode_member_ok(
    t: PackageTree,
    file_id: usize,
    parents: Seq<usize>,
    m: InterfaceMember,
    f: Field,
) -> bool {
    m matches InterfaceMember::PropertySignature(p) && p.name.text@ == f.name@ && p.optional
        == false && (decode_type_v(t, file_id, parents, f.field_type) matches Some(tv) && type_view(
        p.property_type,
    ) == tv)
}

/// The exported encode-input interface of a message: one member per field,
/// in field order.
pub open spec fn encode_interface_ok(
    t: PackageTree,
    file_id: usize,
    parents: Seq<usize>,
    itf: InterfaceDeclaration,
    m: MessageDeclaration,
) -> bool {
    &&& itf.name.text@ == encode_name_v(m.name@)
    &&& itf.modifiers@ == seq![Modifier::Export]
    &&& itf.members@.len() == fields_of(m.entries@).len()
    &&& forall|j: int|
        0 <= j < itf.members@.len() ==> encode_member_ok(
            t,
            file_id,
            parents,
            #[trigger] itf.members@[j],
            fields_of(m.entries@)[j],
        )
}

/// The exported decode-result interface of a message: one member per field,
/// in field order, named after the message itself.
pub open spec fn decode_interface_ok(
    t: PackageTree,
    file_id: usize,
    parents: Seq<usize>,
    itf: InterfaceDeclaration,
    m: MessageDeclaration,
) -> bool {
    &&& itf.name.text@ == m.name@
    &&& itf.modifiers@ == seq![Modifier::Export]
    &&& itf.members@.len() == fields_of(m.entries@).len()
    &&& forall|j: int|
        0 <= j < itf.members@.len() ==> decode_member_ok(
            t,
            file_id,
            parents,
            #[trigger] itf.members@[j],
            fields_of(m.entries@)[j],
        )
}

/// A message's `types` file: exactly one encode-input and one decode-result
/// interface, in that order, beside nothing but import declarations.
pub open spec fn types_file_ok(
    t: PackageTree,
    file_id: usize,
    parents: Seq<usize>,
    m: MessageDeclaration,
    ss: Seq<Statement>,
) -> bool {
    &&& interfaces_of(ss).len() == 2
    &&& encode_interface_ok(t, file_id, parents, interfaces_of(ss)[0], m)
    &&& decode_interface_ok(t, file_id, parents, interfaces_of(ss)[1], m)
    &&& (forall|i: int|
        0 <= i < ss.len() ==> ((#[trigger] ss[i]) is ImportDeclaration || ss[i]
            is InterfaceDeclaration))
    &&& imports_distinct(ss)
    &&& forall|i: int|
        0 <= i < ss.len() && (#[trigger] ss[i]) is ImportDeclaration ==> import_justified(
            t,
            file_id,
            parents,
            m.entries@,
            stmt_import_view(ss[i]),
        )
}

/// A generated enum file: named after the enum, holding exactly its one
/// exported enum declaration with one member per entry, in order.
pub open spec fn enum_file_ok(e: ModelEnum, f: File) -> bool {
    &&& f.name@ == e.name@
    &&& f.ast.statements@.len() == 1
    &&& (f.ast.statements@[0] matches Statement::EnumDeclaration(d) && {
        &&& d.name.text@ == e.name@
        &&& d.modifiers@ == seq![Modifier::Export]
        &&& d.members@.len() == e.entries@.len()
        &&& forall|j: int|
            0 <= j < d.members@.len() ==> {
                &&& (#[trigger] d.members@[j]).name.text@ == e.entries@[j].name@
                &&& d.members@[j].value matches Some(v) && v matches EnumValue::Number(n)
                    && n.value == e.entries@[j].value
            }
    })
}

/// A nested declaration compiles: an enum always, a message when all of
/// its fields and nested declarations do.
pub open spec fn decl_mappable(t: PackageTree, file_id: usize, parents: Seq<usize>, c: usize) -> bool
    decreases c, 2int,
{
    if c < t.arena@.len() {
        match t.arena@[c as int] {
            Declaration::Enum(_) => true,
            Declaration::Message(_) => message_mappable(t, file_id, parents, c),
        }
    } else {
        false
    }
}

/// A message compiles: it holds no "exactly one of" group, every field's
/// type converts on both sides, and every nested declaration compiles.
pub open spec fn message_mappable(
    t: PackageTree,
    file_id: usize,
    parents: Seq<usize>,
    message_id: usize,
) -> bool
    decreases message_id, 1int,
{
    if message_id < t.arena@.len() {
        match t.arena@[message_id as int] {
            Declaration::Enum(_) => false,
            Declaration::Message(m) => {
                &&& encode_fields_ok(t, file_id, seq![message_id] + parents, m.entries@)
                &&& decode_fields_ok(t, file_id, seq![message_id] + parents, m.entries@)
                &&& forall|i: int|
                    0 <= i < m.entries@.len() ==> ((#[trigger] m.entries@[i]) matches
                    MessageEntry::Declaration(c) ==> (c < message_id && decl_mappable(
                        t,
                        file_id,
                        seq![message_id] + parents,
                        c,
                    )))
            },
        }
    } else {
        false
    }
}

/// What one nested declaration of a message (or one top-level declaration
/// of a file) generates: an enum its file, a message its folder.
pub open spec fn child_entry_ok(
    t: PackageTree,
    file_id: usize,
    parents: Seq<usize>,
    c: usize,
    entry: FolderEntry,
) -> bool
    decreases c, 2int,
{
    if c < t.arena@.len() {
        match t.arena@[c as int] {
            Declaration::Enum(e) => entry matches FolderEntry::File(f) && enum_file_ok(e, *f),
            Declaration::Message(_) => entry matches FolderEntry::Folder(sub)
                && message_folder_ok(t, file_id, parents, c, *sub),
        }
    } else {
        false
    }
}

/// The folder a message generates: its `types` file, its placeholder
/// `encode` and `decode` files, then one entry per nested declaration, in
/// order. `parents` is the scope enclosing the message, innermost first.
pub open spec fn message_folder_ok(
    t: PackageTree,
    file_id: usize,
    parents: Seq<usize>,
    message_id: usize,
    f: Folder,
) -> bool
    decreases message_id, 1int,
{
    if message_id < t.arena@.len() {
        match t.arena@[message_id as int] {
            Declaration::Enum(_) => false,
            Declaration::Message(m) => message_folder_body_ok(t, file_id, parents, message_id, m, f),
        }
    } else {
        false
    }
}

/// The body of `message_folder_ok`, with the message already fetched.
pub open spec fn message_folder_body_ok(
    t: PackageTree,
    file_id: usize,
    parents: Seq<usize>,
    message_id: usize,
    m: MessageDeclaration,
    f: Folder,
) -> bool
    decreases message_id, 0int,
{
    {
        &&& f.name@ == m.name@
        &&& f.entries@.len() == 3 + decls_of(m.entries@).len()
        &&& (f.entries@[0] matches FolderEntry::File(tf) && tf.name@ == "types"@ && types_file_ok(
            t,
            file_id,
            seq![message_id] + parents,
            m,
            tf.ast.statements@,
        ))
        &&& (f.entries@[1] matches FolderEntry::File(ef) && ef.name@ == "encode"@
            && ef.ast.statements@.len() == 0)
        &&& (f.entries@[2] matches FolderEntry::File(df) && df.name@ == "decode"@
            && df.ast.statements@.len() == 0)
        &&& forall|j: int|
            0 <= j < decls_of(m.entries@).len() ==> (decls_of(m.entries@)[j] < message_id
                && child_entry_ok(
                t,
                file_id,
                seq![message_id] + parents,
                decls_of(m.entries@)[j],
                #[trigger] f.entries@[3 + j],
            ))
    }
}

/// Append to `res` the file generated for one enum declaration: the enum's
/// own file holding its exported declaration.
pub fn insert_enum_declaration(res: &mut Folder, enum_declaration: &ModelEnum)
    ensures
        final(res).name == old(res).name,
        final(res).entries@.len() == old(res).entries@.len() + 1,
        final(res).entries@.take(old(res).entries@.len() as int) == old(res).entries@,
        final(res).entries@.last() matches FolderEntry::File(f) && enum_file_ok(
            *enum_declaration,
            *f,
        ),
{
    let mut file = File::new(enum_declaration.name.clone());
    let mut members: Vec<EnumMember> = Vec::new();
    let mut i: usize = 0;
    while i < enum_declaration.entries.len()
        invariant
            i <= enum_declaration.entries@.len(),
            members@.len() == i as int,
            forall|j: int|
                0 <= j < i ==> {
                    &&& (#[trigger] members@[j]).name.text@ == enum_declaration.entries@[j].name@
                    &&& members@[j].value matches Some(v) && v matches EnumValue::Number(n)
                        && n.value == enum_declaration.entries@[j].value
                },
        decreases enum_declaration.entries@.len() - i,
    {
        let name = Identifier::new(enum_declaration.entries[i].name.clone());
        let value = enum_declaration.entries[i].value;
        members.push(EnumMember { name, value: Some(EnumValue::Number(NumericLiteral { value })) });
        i = i + 1;
    }
    let mut modifiers: Vec<Modifier> = Vec::new();
    modifiers.push(Modifier::Export);
    proof {
        assert(modifiers@ =~= seq![Modifier::Export]);
    }
    let decl = crate::ast::EnumDeclaration {
        modifiers,
        name: Identifier::new(enum_declaration.name.clone()),
        members,
    };
    file.push_statement(Statement::EnumDeclaration(Box::new(decl)));
    res.entries.push(FolderEntry::File(Box::new(file)));
    proof {
        assert(res.entries@.take(old(res).entries@.len() as int) =~= old(res).entries@);
    }
}

/// Build the exported encode-input interface of a message and append it to
/// its `types` file: one optional, null-widened property per field, in
/// field order. An "exactly one of" group halts compilation.
#[verifier::loop_isolation(false)]
pub fn insert_encoded_input_interface(
    tree: &PackageTree,
    scope: &BlockScope,
    types_file: &mut File,
    message_id: usize,
) -> (r: Result<(), CompileError>)
    requires
        tree_wf(*tree),
        scope_wf(*tree, scope.file_id, scope.parents@),
        message_id < tree.arena@.len(),
        tree.arena@[message_id as int] is Message,
    ensures
        final(types_file).name == old(types_file).name,
        match r {
            Ok(u) => {
                &&& final(types_file).ast.statements@.len() >= old(types_file).ast.statements@.len() + 1
                &&& imports_appended(
                    old(types_file).ast.statements@,
                    final(types_file).ast.statements@.drop_last(),
                )
                &&& (final(types_file).ast.statements@.last() matches
                Statement::InterfaceDeclaration(itf) && encode_interface_ok(
                    *tree,
                    scope.file_id,
                    seq![message_id] + scope.parents@,
                    *itf,
                    tree.arena@[message_id as int]->Message_0,
                ))
                &&& (forall|i: int|
                    0 <= i < old(types_file).ast.statements@.len() ==> #[trigger] final(types_file).ast.statements@[i] == old(types_file).ast.statements@[i])
                &&& (forall|i: int|
                    old(types_file).ast.statements@.len() <= i < final(types_file).ast.statements@.len() ==> ((#[trigger] final(types_file).ast.statements@[i])
                        is ImportDeclaration || final(types_file).ast.statements@[i]
                        is InterfaceDeclaration))
            },
            Err(e) => imports_appended(
                old(types_file).ast.statements@,
                final(types_file).ast.statements@,
            ) && (entries_failure_v(
                *tree,
                scope.file_id,
                seq![message_id] + scope.parents@,
                tree.arena@[message_id as int]->Message_0.entries@,
                0,
            ) matches Some(k) && failure_matches(e, k)),
        },
        imports_distinct(old(types_file).ast.statements@) ==> imports_distinct(
            final(types_file).ast.statements@,
        ),
        forall|i: int|
            old(types_file).ast.statements@.len() <= i < final(types_file).ast.statements@.len()
                && (#[trigger] final(types_file).ast.statements@[i]) is ImportDeclaration
                ==> import_justified(
                *tree,
                scope.file_id,
                seq![message_id] + scope.parents@,
                tree.arena@[message_id as int]->Message_0.entries@,
                stmt_import_view(final(types_file).ast.statements@[i]),
            ),
        r is Ok <==> encode_fields_ok(
            *tree,
            scope.file_id,
            seq![message_id] + scope.parents@,
            tree.arena@[message_id as int]->Message_0.entries@,
        ),
{
    let m = match &tree.arena[message_id] {
        Declaration::Message(m) => m,
        Declaration::Enum(_) => {
            proof {
                assert(false);
            }
            return Err(
                CompileError::Internal { detail: "an enum stood where a message was owed".to_owned() },
            );
        },
    };
    let type_scope = scope.push(message_id);
    let enc_name = message_name_to_encode_type_name(&m.name);
    let mut interface = InterfaceDeclaration::new_exported(enc_name);
    let ghost s0 = types_file.ast.statements@;
    proof {
        lemma_imports_appended_refl(s0);
        assert(fields_of(m.entries@.take(0)) =~= Seq::<Field>::empty());
    }
    let mut i: usize = 0;
    while i < m.entries.len()
        invariant
            i <= m.entries@.len(),
            types_file.name == old(types_file).name,
            imports_appended(s0, types_file.ast.statements@),
            imports_distinct(s0) ==> imports_distinct(types_file.ast.statements@),
            forall|ii: int|
                s0.len() <= ii < types_file.ast.statements@.len() && (
                #[trigger] types_file.ast.statements@[ii]) is ImportDeclaration
                    ==> import_justified(
                    *tree,
                    scope.file_id,
                    seq![message_id] + scope.parents@,
                    m.entries@,
                    stmt_import_view(types_file.ast.statements@[ii]),
                ),
            entries_failure_v(
                *tree,
                scope.file_id,
                seq![message_id] + scope.parents@,
                m.entries@,
                0,
            ) == entries_failure_v(
                *tree,
                scope.file_id,
                seq![message_id] + scope.parents@,
                m.entries@,
                i as int,
            ),
            interface.name.text@ == encode_name_v(m.name@),
            interface.modifiers@ == seq![Modifier::Export],
            interface.members@.len() == fields_of(m.entries@.take(i as int)).len(),
            forall|j: int|
                0 <= j < interface.members@.len() ==> encode_member_ok(
                    *tree,
                    scope.file_id,
                    seq![message_id] + scope.parents@,
                    #[trigger] interface.members@[j],
                    fields_of(m.entries@.take(i as int))[j],
                ),
            encode_fields_ok(
                *tree,
                scope.file_id,
                seq![message_id] + scope.parents@,
                m.entries@.take(i as int),
            ),
        decreases m.entries@.len() - i,
    {
        proof {
            lemma_filters_take_step(m.entries@, i as int);
        }
        match &m.entries[i] {
            MessageEntry::Field(f) => {
                let ghost s1 = types_file.ast.statements@;
                let mapped = match import_encoding_input_type(
                    tree,
                    &type_scope,
                    types_file,
                    &f.field_type,
                ) {
                    Ok(t) => t,
                    Err(e) => {
                        proof {
                            lemma_imports_appended_trans(s0, s1, types_file.ast.statements@);
                            lemma_builder_justified_step(
                                *tree,
                                scope.file_id,
                                seq![message_id] + scope.parents@,
                                m.entries@,
                                i as int,
                                s0,
                                s1,
                                types_file.ast.statements@,
                            );
                        }
                        return Err(e);
                    },
                };
                proof {
                    lemma_imports_appended_trans(s0, s1, types_file.ast.statements@);
                    lemma_failure_none(
                        *tree,
                        scope.file_id,
                        seq![message_id] + scope.parents@,
                        f.field_type,
                    );
                    lemma_builder_justified_step(
                        *tree,
                        scope.file_id,
                        seq![message_id] + scope.parents@,
                        m.entries@,
                        i as int,
                        s0,
                        s1,
                        types_file.ast.statements@,
                    );
                }
                let widened = mapped.or(&crate::ast::Type::Null);
                interface.members.push(
                    InterfaceMember::PropertySignature(
                        PropertySignature::new_optional(f.name.clone(), widened),
                    ),
                );
            },
            MessageEntry::Declaration(_) => {},
            MessageEntry::OneOf(_) => {
                return Err(
                    CompileError::NotImplemented {
                        feature: "a group of which exactly one field may be set".to_owned(),
                    },
                );
            },
        }
        i = i + 1;
    }
    proof {
        assert(m.entries@.take(m.entries@.len() as int) =~= m.entries@);
    }
    let ghost s2 = types_file.ast.statements@;
    let ghost itf0 = interface;
    types_file.push_statement(Statement::InterfaceDeclaration(Box::new(interface)));
    proof {
        assert(types_file.ast.statements@.drop_last() =~= s2);
        assert(forall|i: int|
            0 <= i < s2.len() ==> #[trigger] types_file.ast.statements@[i] == s2[i]);
        assert(forall|i: int|
            0 <= i < s0.len() ==> #[trigger] types_file.ast.statements@[i] == s2[i] && s2[i]
                == s0[i]);
        assert(forall|i: int|
            s0.len() <= i < s2.len() ==> (#[trigger] s2[i]) is ImportDeclaration);
        assert(forall|i: int|
            s0.len() <= i < types_file.ast.statements@.len() ==> ((
            #[trigger] types_file.ast.statements@[i]) is ImportDeclaration
                || types_file.ast.statements@[i] is InterfaceDeclaration));
        if imports_distinct(s0) {
            lemma_push_non_import_distinct(s2, types_file.ast.statements@.last());
        }
    }
    Ok(())
}

/// Build the exported decode-result interface of a message and append it to
/// its `types` file: one required, narrowly typed property per field, in
/// field order. An "exactly one of" group halts compilation.
#[verifier::loop_isolation(false)]
pub fn insert_decode_result_interface(
    tree: &PackageTree,
    scope: &BlockScope,
    types_file: &mut File,
    message_id: usize,
) -> (r: Result<(), CompileError>)
    requires
        tree_wf(*tree),
        scope_wf(*tree, scope.file_id, scope.parents@),
        message_id < tree.arena@.len(),
        tree.arena@[message_id as int] is Message,
    ensures
        final(types_file).name == old(types_file).name,
        match r {
            Ok(u) => {
                &&& final(types_file).ast.statements@.len() >= old(types_file).ast.statements@.len() + 1
                &&& imports_appended(
                    old(types_file).ast.statements@,
                    final(types_file).ast.statements@.drop_last(),
                )
                &&& (final(types_file).ast.statements@.last() matches
                Statement::InterfaceDeclaration(itf) && decode_interface_ok(
                    *tree,
                    scope.file_id,
                    seq![message_id] + scope.parents@,
                    *itf,
                    tree.arena@[message_id as int]->Message_0,
                ))
                &&& (forall|i: int|
                    0 <= i < old(types_file).ast.statements@.len() ==> #[trigger] final(types_file).ast.statements@[i] == old(types_file).ast.statements@[i])
                &&& (forall|i: int|
                    old(types_file).ast.statements@.len() <= i < final(types_file).ast.statements@.len() ==> ((#[trigger] final(types_file).ast.statements@[i])
                        is ImportDeclaration || final(types_file).ast.statements@[i]
                        is InterfaceDeclaration))
            },
            Err(e) => imports_appended(
                old(types_file).ast.statements@,
                final(types_file).ast.statements@,
            ) && (entries_failure_v(
                *tree,
                scope.file_id,
                seq![message_id] + scope.parents@,
                tree.arena@[message_id as int]->Message_0.entries@,
                0,
            ) matches Some(k) && failure_matches(e, k)),
        },
        imports_distinct(old(types_file).ast.statements@) ==> imports_distinct(
            final(types_file).ast.statements@,
        ),
        forall|i: int|
            old(types_file).ast.statements@.len() <= i < final(types_file).ast.statements@.len()
                && (#[trigger] final(types_file).ast.statements@[i]) is ImportDeclaration
                ==> import_justified(
                *tree,
                scope.file_id,
                seq![message_id] + scope.parents@,
                tree.arena@[message_id as int]->Message_0.entries@,
                stmt_import_view(final(types_file).ast.statements@[i]),
            ),
        r is Ok <==> decode_fields_ok(
            *tree,
            scope.file_id,
            seq![message_id] + scope.parents@,
            tree.arena@[message_id as int]->Message_0.entries@,
        ),
{
    let m = match &tree.arena[message_id] {
        Declaration::Message(m) => m,
        Declaration::Enum(_) => {
            proof {
                assert(false);
            }
            return Err(
                CompileError::Internal { detail: "an enum stood where a message was owed".to_owned() },
            );
        },
    };
    let type_scope = scope.push(message_id);
    let mut interface = InterfaceDeclaration::new_exported(m.name.clone());
    let ghost s0 = types_file.ast.statements@;
    proof {
        lemma_imports_appended_refl(s0);
        assert(fields_of(m.entries@.take(0)) =~= Seq::<Field>::empty());
    }
    let mut i: usize = 0;
    while i < m.entries.len()
        invariant
            i <= m.entries@.len(),
            types_file.name == old(types_file).name,
            imports_appended(s0, types_file.ast.statements@),
            imports_distinct(s0) ==> imports_distinct(types_file.ast.statements@),
            forall|ii: int|
                s0.len() <= ii < types_file.ast.statements@.len() && (
                #[trigger] types_file.ast.statements@[ii]) is ImportDeclaration
                    ==> import_justified(
                    *tree,
                    scope.file_id,
                    seq![message_id] + scope.parents@,
                    m.entries@,
                    stmt_import_view(types_file.ast.statements@[ii]),
                ),
            entries_failure_v(
                *tree,
                scope.file_id,
                seq![message_id] + scope.parents@,
                m.entries@,
                0,
            ) == entries_failure_v(
                *tree,
                scope.file_id,
                seq![message_id] + scope.parents@,
                m.entries@,
                i as int,
            ),
            interface.name.text@ == m.name@,
            interface.modifiers@ == seq![Modifier::Export],
            interface.members@.len() == fields_of(m.entries@.take(i as int)).len(),
            forall|j: int|
                0 <= j < interface.members@.len() ==> decode_member_ok(
                    *tree,
                    scope.file_id,
                    seq![message_id] + scope.parents@,
                    #[trigger] interface.members@[j],
                    fields_of(m.entries@.take(i as int))[j],
                ),
            decode_fields_ok(
                *tree,
                scope.file_id,
                seq![message_id] + scope.parents@,
                m.entries@.take(i as int),
            ),
        decreases m.entries@.len() - i,
    {
        proof {
            lemma_filters_take_step(m.entries@, i as int);
        }
        match &m.entries[i] {
            MessageEntry::Field(f) => {
                let ghost s1 = types_file.ast.statements@;
                let mapped = match import_decode_result_type(
                    tree,
                    &type_scope,
                    types_file,
                    &f.field_type,
                ) {
                    Ok(t) => t,
                    Err(e) => {
                        proof {
                            lemma_imports_appended_trans(s0, s1, types_file.ast.statements@);
                            lemma_builder_justified_step(
                                *tree,
                                scope.file_id,
                                seq![message_id] + scope.parents@,
                                m.entries@,
                                i as int,
                                s0,
                                s1,
                                types_file.ast.statements@,
                            );
                        }
                        return Err(e);
                    },
                };
                proof {
                    lemma_imports_appended_trans(s0, s1, types_file.ast.statements@);
                    lemma_failure_none(
                        *tree,
                        scope.file_id,
                        seq![message_id] + scope.parents@,
                        f.field_type,
                    );
                    lemma_builder_justified_step(
                        *tree,
                        scope.file_id,
                        seq![message_id] + scope.parents@,
                        m.entries@,
                        i as int,
                        s0,
                        s1,
                        types_file.ast.statements@,
                    );
                }
                interface.members.push(
                    InterfaceMember::PropertySignature(
                        PropertySignature::new(f.name.clone(), mapped),
                    ),
                );
            },
            MessageEntry::Declaration(_) => {},
            MessageEntry::OneOf(_) => {
                return Err(
                    CompileError::NotImplemented {
                        feature: "a group of which exactly one field may be set".to_owned(),
                    },
                );
            },
        }
        i = i + 1;
    }
    proof {
        assert(m.entries@.take(m.entries@.len() as int) =~= m.entries@);
    }
    let ghost s2 = types_file.ast.statements@;
    let ghost itf0 = interface;
    types_file.push_statement(Statement::InterfaceDeclaration(Box::new(interface)));
    proof {
        assert(types_file.ast.statements@.drop_last() =~= s2);
        assert(forall|i: int|
            0 <= i < s2.len() ==> #[trigger] types_file.ast.statements@[i] == s2[i]);
        assert(forall|i: int|
            0 <= i < s0.len() ==> #[trigger] types_file.ast.statements@[i] == s2[i] && s2[i]
                == s0[i]);
        assert(forall|i: int|
            s0.len() <= i < s2.len() ==> (#[trigger] s2[i]) is ImportDeclaration);
        assert(forall|i: int|
            s0.len() <= i < types_file.ast.statements@.len() ==> ((
            #[trigger] types_file.ast.statements@[i]) is ImportDeclaration
                || types_file.ast.statements@[i] is InterfaceDeclaration));
        if imports_distinct(s0) {
            lemma_push_non_import_distinct(s2, types_file.ast.statements@.last());
        }
    }
    Ok(())
}

/// Build a message's `types` file — its encode-input and decode-result
/// interfaces with the imports they need — and append it to the message's
/// folder.
pub fn insert_message_types(
    tree: &PackageTree,
    message_folder: &mut Folder,
    scope: &BlockScope,
    message_id: usize,
) -> (r: Result<(), CompileError>)
    requires
        tree_wf(*tree),
        scope_wf(*tree, scope.file_id, scope.parents@),
        message_id < tree.arena@.len(),
        tree.arena@[message_id as int] is Message,
    ensures
        final(message_folder).name == old(message_folder).name,
        match r {
            Ok(u) => {
                &&& final(message_folder).entries@.len() == old(message_folder).entries@.len() + 1
                &&& final(message_folder).entries@.take(old(message_folder).entries@.len() as int)
                    == old(message_folder).entries@
                &&& (final(message_folder).entries@.last() matches FolderEntry::File(tf)
                    && tf.name@ == "types"@ && types_file_ok(
                    *tree,
                    scope.file_id,
                    seq![message_id] + scope.parents@,
                    tree.arena@[message_id as int]->Message_0,
                    tf.ast.statements@,
                ))
            },
            Err(e) => *final(message_folder) == *old(message_folder) && (entries_failure_v(
                *tree,
                scope.file_id,
                seq![message_id] + scope.parents@,
                tree.arena@[message_id as int]->Message_0.entries@,
                0,
            ) matches Some(k) && failure_matches(e, k)),
        },
        r is Ok <==> (encode_fields_ok(
            *tree,
            scope.file_id,
            seq![message_id] + scope.parents@,
            tree.arena@[message_id as int]->Message_0.entries@,
        ) && decode_fields_ok(
            *tree,
            scope.file_id,
            seq![message_id] + scope.parents@,
            tree.arena@[message_id as int]->Message_0.entries@,
        )),
{
    let mut file = File::new("types".to_owned());
    let ghost s0 = file.ast.statements@;
    proof {
        assert(interfaces_of(s0) =~= Seq::<InterfaceDeclaration>::empty());
    }
    match insert_encoded_input_interface(tree, scope, &mut file, message_id) {
        Ok(_) => {},
        Err(e) => {
            return Err(e);
        },
    }
    let ghost ss1 = file.ast.statements@;
    match insert_decode_result_interface(tree, scope, &mut file, message_id) {
        Ok(_) => {},
        Err(e) => {
            return Err(e);
        },
    }
    let ghost ss2 = file.ast.statements@;
    proof {
        let m = tree.arena@[message_id as int]->Message_0;
        let parents = seq![message_id] + scope.parents@;
        lemma_interfaces_of_imports(s0, ss1.drop_last());
        assert(interfaces_of(ss1) =~= interfaces_of(ss1.drop_last()) + seq![
            *ss1.last()->InterfaceDeclaration_0,
        ]);
        lemma_interfaces_of_imports(ss1, ss2.drop_last());
        assert(interfaces_of(ss2) =~= interfaces_of(ss2.drop_last()) + seq![
            *ss2.last()->InterfaceDeclaration_0,
        ]);
        assert(interfaces_of(ss2).len() == 2);
        assert(interfaces_of(ss2)[0] == *ss1.last()->InterfaceDeclaration_0);
        assert(interfaces_of(ss2)[1] == *ss2.last()->InterfaceDeclaration_0);
        assert(forall|i: int|
            0 <= i < ss2.len() ==> ((#[trigger] ss2[i]) is ImportDeclaration || ss2[i]
                is InterfaceDeclaration));
        assert(imports_distinct(s0));
        assert(imports_distinct(ss2));
        assert forall|i: int|
            0 <= i < ss2.len() && (#[trigger] ss2[i]) is ImportDeclaration implies import_justified(
            *tree,
            scope.file_id,
            parents,
            m.entries@,
            stmt_import_view(ss2[i]),
        ) by {
            if i < ss1.len() {
                assert(ss2[i] == ss1[i]);
            }
        }
        assert(types_file_ok(*tree, scope.file_id, parents, m, ss2));
    }
    message_folder.entries.push(FolderEntry::File(Box::new(file)));
    proof {
        assert(message_folder.entries@.take(old(message_folder).entries@.len() as int) =~= old(message_folder).entries@);
    }
    Ok(())
}

/// Append the placeholder `encode` file of a message's folder; generating
/// its body is outside this core.
pub fn insert_encode(message_folder: &mut Folder)
    ensures
        final(message_folder).name == old(message_folder).name,
        final(message_folder).entries@.len() == old(message_folder).entries@.len() + 1,
        final(message_folder).entries@.take(old(message_folder).entries@.len() as int) == old(message_folder).entries@,
        final(message_folder).entries@.last() matches FolderEntry::File(f) && f.name@ == "encode"@
            && f.ast.statements@.len() == 0,
{
    let file = File::new("encode".to_owned());
    message_folder.entries.push(FolderEntry::File(Box::new(file)));
    proof {
        assert(message_folder.entries@.take(old(message_folder).entries@.len() as int) =~= old(message_folder).entries@);
    }
}

/// Append the placeholder `decode` file of a message's folder; generating
/// its body is outside this core.
pub fn insert_decode(message_folder: &mut Folder)
    ensures
        final(message_folder).name == old(message_folder).name,
        final(message_folder).entries@.len() == old(message_folder).entries@.len() + 1,
        final(message_folder).entries@.take(old(message_folder).entries@.len() as int) == old(message_folder).entries@,
        final(message_folder).entries@.last() matches FolderEntry::File(f) && f.name@ == "decode"@
            && f.ast.statements@.len() == 0,
{
    let file = File::new("decode".to_owned());
    message_folder.entries.push(FolderEntry::File(Box::new(file)));
    proof {
        assert(message_folder.entries@.take(old(message_folder).entries@.len() as int) =~= old(message_folder).entries@);
    }
}

/// Walk a message's nested declarations and append what each generates:
/// an enum its file, a message its folder, recursively.
#[verifier::loop_isolation(false)]
pub fn insert_children(
    tree: &PackageTree,
    message_folder: &mut Folder,
    scope: &BlockScope,
    message_id: usize,
) -> (r: Result<(), CompileError>)
    requires
        tree_wf(*tree),
        scope_wf(*tree, scope.file_id, scope.parents@),
        message_id < tree.arena@.len(),
        tree.arena@[message_id as int] is Message,
    ensures
        final(message_folder).name == old(message_folder).name,
        final(message_folder).entries@.len() >= old(message_folder).entries@.len(),
        final(message_folder).entries@.take(old(message_folder).entries@.len() as int) == old(message_folder).entries@,
        match r {
            Ok(u) => {
                let decls = decls_of(tree.arena@[message_id as int]->Message_0.entries@);
                &&& final(message_folder).entries@.len() == old(message_folder).entries@.len()
                    + decls.len()
                &&& forall|j: int|
                    0 <= j < decls.len() ==> ((#[trigger] decls[j]) < message_id && child_entry_ok(
                        *tree,
                        scope.file_id,
                        seq![message_id] + scope.parents@,
                        decls[j],
                        final(message_folder).entries@[old(message_folder).entries@.len() + j],
                    ))
            },
            Err(e) => true,
        },
        r is Ok <==> (forall|i: int|
            0 <= i < tree.arena@[message_id as int]->Message_0.entries@.len() ==> ((
            #[trigger] tree.arena@[message_id as int]->Message_0.entries@[i]) matches
                MessageEntry::Declaration(c) ==> decl_mappable(
                *tree,
                scope.file_id,
                seq![message_id] + scope.parents@,
                c,
            ))),
    decreases message_id, 0int,
{
    let m = match &tree.arena[message_id] {
        Declaration::Message(m) => m,
        Declaration::Enum(_) => {
            proof {
                assert(false);
            }
            return Err(
                CompileError::Internal { detail: "an enum stood where a message was owed".to_owned() },
            );
        },
    };
    let child_scope = scope.push(message_id);
    let ghost e0 = message_folder.entries@;
    let ghost decls = decls_of(m.entries@);
    proof {
        assert(decls_of(m.entries@.take(0)) =~= Seq::<usize>::empty());
        assert(e0.take(e0.len() as int) =~= e0);
    }
    let mut i: usize = 0;
    while i < m.entries.len()
        invariant
            i <= m.entries@.len(),
            message_folder.name == old(message_folder).name,
            message_folder.entries@.len() == e0.len() + decls_of(m.entries@.take(i as int)).len(),
            message_folder.entries@.take(e0.len() as int) == e0,
            forall|j: int|
                0 <= j < i ==> ((#[trigger] m.entries@[j]) matches MessageEntry::Declaration(c)
                    ==> decl_mappable(*tree, scope.file_id, seq![message_id] + scope.parents@, c)),
            forall|j: int|
                0 <= j < decls_of(m.entries@.take(i as int)).len() ==> ((#[trigger] decls_of(
                    m.entries@.take(i as int),
                )[j]) < message_id && child_entry_ok(
                    *tree,
                    scope.file_id,
                    seq![message_id] + scope.parents@,
                    decls_of(m.entries@.take(i as int))[j],
                    message_folder.entries@[e0.len() + j],
                )),
        decreases m.entries@.len() - i,
    {
        proof {
            lemma_filters_take_step(m.entries@, i as int);
        }
        match &m.entries[i] {
            MessageEntry::Field(_) => {
                proof {
                    assert(decls_of(m.entries@.take(i as int + 1)) =~= decls_of(
                        m.entries@.take(i as int),
                    ));
                }
            },
            MessageEntry::OneOf(_) => {
                proof {
                    assert(decls_of(m.entries@.take(i as int + 1)) =~= decls_of(
                        m.entries@.take(i as int),
                    ));
                }
            },
            MessageEntry::Declaration(c) => {
                proof {
                    assert(crate::model::entries_wf(m.entries@, message_id as int));
                    assert(m.entries@[i as int] matches MessageEntry::Declaration(cc) && 0 <= cc
                        < message_id);
                }
                let ghost before = message_folder.entries@;
                match &tree.arena[*c] {
                    Declaration::Enum(e) => {
                        insert_enum_declaration(message_folder, e);
                    },
                    Declaration::Message(_) => {
                        match insert_message_declaration(tree, message_folder, &child_scope, *c) {
                            Ok(_) => {
                                proof {
                                    assert(decl_mappable(
                                        *tree,
                                        scope.file_id,
                                        seq![message_id] + scope.parents@,
                                        *c,
                                    ));
                                }
                            },
                            Err(e) => {
                                proof {
                                    assert(message_folder.entries@.take(e0.len() as int)
                                        =~= before.take(e0.len() as int));
                                    assert(!decl_mappable(
                                        *tree,
                                        scope.file_id,
                                        seq![message_id] + scope.parents@,
                                        *c,
                                    ));
                                }
                                return Err(e);
                            },
                        }
                    },
                }
                proof {
                    assert(message_folder.entries@.take(e0.len() as int) =~= before.take(
                        e0.len() as int,
                    ));
                    assert(forall|j: int|
                        0 <= j < before.len() ==> before[j] == #[trigger] message_folder.entries@[
                            j]);
                    let dnew = decls_of(m.entries@.take(i as int + 1));
                    let dold = decls_of(m.entries@.take(i as int));
                    assert(dnew =~= dold.push(m.entries@[i as int]->Declaration_0));
                    assert(dnew[dold.len() as int] == m.entries@[i as int]->Declaration_0);
                    assert(message_folder.entries@[e0.len() + dold.len() as int]
                        == message_folder.entries@.last());
                    assert(child_entry_ok(
                        *tree,
                        scope.file_id,
                        seq![message_id] + scope.parents@,
                        m.entries@[i as int]->Declaration_0,
                        message_folder.entries@.last(),
                    ));
                    assert(forall|j: int|
                        0 <= j < dold.len() ==> #[trigger] message_folder.entries@[e0.len() + j]
                            == before[e0.len() + j]);
                    assert(forall|j: int|
                        0 <= j < dnew.len() ==> ((#[trigger] dnew[j]) < message_id
                            && child_entry_ok(
                            *tree,
                            scope.file_id,
                            seq![message_id] + scope.parents@,
                            dnew[j],
                            message_folder.entries@[e0.len() + j],
                        )));
                }
            },
        }
        i = i + 1;
    }
    proof {
        assert(m.entries@.take(m.entries@.len() as int) =~= m.entries@);
    }
    Ok(())
}

/// Build the folder a message generates — its `types` file, its placeholder
/// `encode` and `decode` files, and its nested declarations — and append it
/// to the parent folder. `scope` is the scope enclosing the message.
#[verifier::loop_isolation(false)]
pub fn insert_message_declaration(
    tree: &PackageTree,
    message_parent_folder: &mut Folder,
    scope: &BlockScope,
    message_id: usize,
) -> (r: Result<(), CompileError>)
    requires
        tree_wf(*tree),
        scope_wf(*tree, scope.file_id, scope.parents@),
        message_id < tree.arena@.len(),
        tree.arena@[message_id as int] is Message,
    ensures
        final(message_parent_folder).name == old(message_parent_folder).name,
        final(message_parent_folder).entries@.len() >= old(message_parent_folder).entries@.len(),
        final(message_parent_folder).entries@.take(
            old(message_parent_folder).entries@.len() as int,
        ) == old(message_parent_folder).entries@,
        match r {
            Ok(u) => {
                &&& final(message_parent_folder).entries@.len() == old(
                    message_parent_folder,
                ).entries@.len() + 1
                &&& (final(message_parent_folder).entries@.last() matches FolderEntry::Folder(sub)
                    && message_folder_ok(
                    *tree,
                    scope.file_id,
                    scope.parents@,
                    message_id,
                    *sub,
                ))
            },
            Err(e) => *final(message_parent_folder) == *old(message_parent_folder),
        },
        r is Ok <==> message_mappable(*tree, scope.file_id, scope.parents@, message_id),
    decreases message_id, 1int,
{
    let m_name = match &tree.arena[message_id] {
        Declaration::Message(m) => m.name.clone(),
        Declaration::Enum(_) => {
            proof {
                assert(false);
            }
            return Err(
                CompileError::Internal { detail: "an enum stood where a message was owed".to_owned() },
            );
        },
    };
    let mut message_folder = Folder::new(m_name);
    match insert_message_types(tree, &mut message_folder, scope, message_id) {
        Ok(_) => {},
        Err(e) => {
            proof {
                assert(message_parent_folder.entries@.take(
                    old(message_parent_folder).entries@.len() as int,
                ) =~= old(message_parent_folder).entries@);
            }
            return Err(e);
        },
    }
    insert_encode(&mut message_folder);
    insert_decode(&mut message_folder);
    let ghost e3 = message_folder.entries@;
    match insert_children(tree, &mut message_folder, scope, message_id) {
        Ok(_) => {},
        Err(e) => {
            proof {
                assert(message_parent_folder.entries@.take(
                    old(message_parent_folder).entries@.len() as int,
                ) =~= old(message_parent_folder).entries@);
            }
            return Err(e);
        },
    }
    proof {
        let m = tree.arena@[message_id as int]->Message_0;
        assert(crate::model::entries_wf(m.entries@, message_id as int));
        assert(e3.len() == 3);
        assert(forall|j: int|
            0 <= j < 3 ==> #[trigger] message_folder.entries@[j] == e3[j]);
        assert(message_folder_body_ok(
            *tree,
            scope.file_id,
            scope.parents@,
            message_id,
            m,
            message_folder,
        ));
    }
    message_parent_folder.entries.push(FolderEntry::Folder(Box::new(message_folder)));
    proof {
        assert(message_parent_folder.entries@.take(
            old(message_parent_folder).entries@.len() as int,
        ) =~= old(message_parent_folder).entries@);
    }
    Ok(())
}


/// The folder a schema file generates: named by the file-to-folder rule,
/// one entry per top-level declaration, in order.
pub open spec fn file_folder_ok(t: PackageTree, file_id: usize, f: Folder) -> bool {
    let pf = t.files@[file_id as int];
    &&& f.name@ == folder_name_of(pf.name@)
    &&& f.entries@.len() == pf.declarations@.len()
    &&& forall|j: int|
        0 <= j < pf.declarations@.len() ==> child_entry_ok(
            t,
            file_id,
            Seq::empty(),
            pf.declarations@[j],
            #[trigger] f.entries@[j],
        )
}

/// Generate the folder of one schema file: for each top-level enum its
/// file, for each top-level message its folder tree.
#[verifier::loop_isolation(false)]
pub fn file_to_folder(tree: &PackageTree, file_id: usize) -> (r: Result<Folder, CompileError>)
    requires
        tree_wf(*tree),
        file_id < tree.files@.len(),
    ensures
        match r {
            Ok(f) => file_folder_ok(*tree, file_id, f),
            Err(e) => true,
        },
        r is Ok <==> (forall|j: int|
            0 <= j < tree.files@[file_id as int].declarations@.len() ==> decl_mappable(
                *tree,
                file_id,
                Seq::empty(),
                #[trigger] tree.files@[file_id as int].declarations@[j],
            )),
{
    let file = &tree.files[file_id];
    let folder_name = crate::paths::file_name_to_folder_name(&file.name);
    let mut res = Folder::new(folder_name);
    let file_scope = BlockScope::new(file_id);
    let mut i: usize = 0;
    while i < file.declarations.len()
        invariant
            i <= file.declarations@.len(),
            res.name@ == folder_name_of(file.name@),
            res.entries@.len() == i as int,
            forall|j: int|
                0 <= j < i ==> child_entry_ok(
                    *tree,
                    file_id,
                    Seq::empty(),
                    file.declarations@[j],
                    #[trigger] res.entries@[j],
                ),
            forall|j: int|
                0 <= j < i ==> decl_mappable(
                    *tree,
                    file_id,
                    Seq::empty(),
                    #[trigger] file.declarations@[j],
                ),
        decreases file.declarations@.len() - i,
    {
        let d = file.declarations[i];
        proof {
            assert(file.declarations@[i as int] < tree.arena@.len());
        }
        let ghost before = res.entries@;
        match &tree.arena[d] {
            Declaration::Enum(e) => {
                insert_enum_declaration(&mut res, e);
            },
            Declaration::Message(_) => {
                match insert_message_declaration(tree, &mut res, &file_scope, d) {
                    Ok(_) => {},
                    Err(e) => {
                        proof {
                            assert(file_scope.parents@ =~= Seq::<usize>::empty());
                            assert(!decl_mappable(
                                *tree,
                                file_id,
                                Seq::empty(),
                                file.declarations@[i as int],
                            ));
                        }
                        return Err(e);
                    },
                }
            },
        }
        proof {
            assert(forall|j: int|
                0 <= j < before.len() ==> before[j] == #[trigger] res.entries@[j]);
            assert(file_scope.parents@ =~= Seq::<usize>::empty());
            assert(decl_mappable(*tree, file_id, Seq::empty(), file.declarations@[i as int]));
            assert(child_entry_ok(
                *tree,
                file_id,
                Seq::empty(),
                file.declarations@[i as int],
                res.entries@.last(),
            ));
        }
        i = i + 1;
    }
    Ok(res)
}

/// The folder a package node generates: one folder per file at this path,
/// then one folder per child package, recursively, in order.
pub open spec fn node_folder_ok(t: PackageTree, node: PackageNode, f: Folder) -> bool
    decreases node,
{
    &&& f.entries@.len() == node.files@.len() + node.children@.len()
    &&& forall|j: int|
        0 <= j < node.files@.len() ==> (node.files@[j] < t.files@.len() && ((
        #[trigger] f.entries@[j]) matches FolderEntry::Folder(ff) && file_folder_ok(
            t,
            node.files@[j],
            *ff,
        )))
    &&& forall|j: int|
        0 <= j < node.children@.len() ==> ((#[trigger] f.entries@[node.files@.len() + j]) matches
            FolderEntry::Folder(sub) && sub.name@ == node.children@[j].segment@ && node_folder_ok(
            t,
            node.children@[j],
            *sub,
        ))
}

/// Every declaration of a file compiles.
pub open spec fn file_decls_mappable(t: PackageTree, fid: usize) -> bool {
    &&& fid < t.files@.len()
    &&& forall|j: int|
        0 <= j < t.files@[fid as int].declarations@.len() ==> decl_mappable(
            t,
            fid,
            Seq::empty(),
            #[trigger] t.files@[fid as int].declarations@[j],
        )
}

/// Every file at or below a package node compiles.
pub open spec fn node_mappable(t: PackageTree, node: PackageNode) -> bool
    decreases node,
{
    &&& (forall|j: int|
        0 <= j < node.files@.len() ==> file_decls_mappable(t, #[trigger] node.files@[j]))
    &&& (forall|j: int|
        0 <= j < node.children@.len() ==> node_mappable(t, #[trigger] node.children@[j]))
}

/// Generate the folder of one package node under the given name.
#[verifier::loop_isolation(false)]
fn compile_node(tree: &PackageTree, node: &PackageNode, name: String) -> (r: Result<
    Folder,
    CompileError,
>)
    requires
        tree_wf(*tree),
        crate::model::node_wf(*node, tree.files@.len() as int),
    ensures
        match r {
            Ok(f) => f.name@ == name@ && node_folder_ok(*tree, *node, f),
            Err(e) => true,
        },
        r is Ok <==> node_mappable(*tree, *node),
    decreases *node,
{
    let mut res = Folder::new(name);
    let mut i: usize = 0;
    while i < node.files.len()
        invariant
            i <= node.files@.len(),
            res.name@ == name@,
            res.entries@.len() == i as int,
            forall|j: int|
                0 <= j < i ==> (node.files@[j] < tree.files@.len() && ((
                #[trigger] res.entries@[j]) matches FolderEntry::Folder(ff) && file_folder_ok(
                    *tree,
                    node.files@[j],
                    *ff,
                ))),
            forall|j: int| 0 <= j < i ==> file_decls_mappable(*tree, #[trigger] node.files@[j]),
        decreases node.files@.len() - i,
    {
        let fid = node.files[i];
        proof {
            assert(node.files@[i as int] < tree.files@.len());
        }
        let folder = match file_to_folder(tree, fid) {
            Ok(f) => f,
            Err(e) => {
                proof {
                    assert(!file_decls_mappable(*tree, node.files@[i as int]));
                }
                return Err(e);
            },
        };
        let ghost before = res.entries@;
        res.entries.push(FolderEntry::Folder(Box::new(folder)));
        proof {
            assert(forall|j: int|
                0 <= j < before.len() ==> before[j] == #[trigger] res.entries@[j]);
        }
        i = i + 1;
    }
    let nf = node.files.len();
    let mut i: usize = 0;
    while i < node.children.len()
        invariant
            i <= node.children@.len(),
            nf == node.files@.len(),
            res.name@ == name@,
            res.entries@.len() == nf + i,
            forall|j: int|
                0 <= j < nf ==> (node.files@[j] < tree.files@.len() && ((
                #[trigger] res.entries@[j]) matches FolderEntry::Folder(ff) && file_folder_ok(
                    *tree,
                    node.files@[j],
                    *ff,
                ))),
            forall|j: int|
                0 <= j < i ==> ((#[trigger] res.entries@[nf + j]) matches FolderEntry::Folder(sub)
                    && sub.name@ == node.children@[j].segment@ && node_folder_ok(
                    *tree,
                    node.children@[j],
                    *sub,
                )),
            forall|j: int| 0 <= j < i ==> node_mappable(*tree, #[trigger] node.children@[j]),
        decreases node.children@.len() - i,
    {
        proof {
            assert(crate::model::node_wf(node.children@[i as int], tree.files@.len() as int));
        }
        let seg = node.children[i].segment.clone();
        let sub = match compile_node(tree, &node.children[i], seg) {
            Ok(f) => f,
            Err(e) => {
                proof {
                    assert(!node_mappable(*tree, node.children@[i as int]));
                }
                return Err(e);
            },
        };
        let ghost before = res.entries@;
        res.entries.push(FolderEntry::Folder(Box::new(sub)));
        proof {
            assert(forall|j: int|
                0 <= j < before.len() ==> before[j] == #[trigger] res.entries@[j]);
        }
        i = i + 1;
    }
    Ok(res)
}

/// Compile the whole declaration tree into its module tree: a root folder
/// named after the destination, holding the generated folder hierarchy.
pub fn compile(tree: &PackageTree) -> (r: Result<Folder, CompileError>)
    requires
        tree_wf(*tree),
    ensures
        match r {
            Ok(f) => f.name@ == tree.name@ && node_folder_ok(*tree, tree.root, f),
            Err(e) => true,
        },
        r is Ok <==> node_mappable(*tree, tree.root),
{
    let name = tree.name.clone();
    compile_node(tree, &tree.root, name)
}

} // verus!

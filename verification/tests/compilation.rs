use proto_ts::ast::{File, Folder, FolderEntry, InterfaceMember, Statement, Type};
use proto_ts::compiler::{compile, file_to_folder};
use proto_ts::errors::CompileError;
use proto_ts::model::{
    Declaration, EnumDeclaration, EnumEntry, Field, FieldType, MessageDeclaration, MessageEntry,
    PackageNode, PackageTree, ProtoFile, ImportPath, ScalarKind,
};
use proto_ts::scope::{BlockScope, DefinedId, IdType};

fn message(name: &str, entries: Vec<MessageEntry>) -> Declaration {
    Declaration::Message(MessageDeclaration { name: name.to_string(), entries })
}

fn field(name: &str, field_type: FieldType) -> MessageEntry {
    MessageEntry::Field(Field { name: name.to_string(), field_type })
}

fn reference(path: &[&str]) -> FieldType {
    FieldType::Reference(path.iter().map(|s| s.to_string()).collect())
}

fn leaf_node(segment: &str, files: Vec<usize>) -> PackageNode {
    PackageNode { segment: segment.to_string(), files, children: Vec::new() }
}

/// The scenario tree: package `hello`, file `world.proto` declaring the
/// sibling messages `Other` and `World`, `World` holding two fields of
/// message type `Other`.
fn hello_world_tree() -> PackageTree {
    let arena = vec![
        message("Other", vec![field("tag", FieldType::Scalar(ScalarKind::Int32))]),
        message(
            "World",
            vec![field("first", reference(&["Other"])), field("second", reference(&["Other"]))],
        ),
    ];
    let files = vec![ProtoFile {
        name: "world.proto".to_string(),
        path: vec!["hello".to_string()],
        declarations: vec![0, 1],
        imports: Vec::new(),
    }];
    PackageTree {
        name: "out".to_string(),
        arena,
        files,
        root: PackageNode {
            segment: String::new(),
            files: Vec::new(),
            children: vec![leaf_node("hello", vec![0])],
        },
    }
}

fn folder_entry_names(folder: &Folder) -> Vec<String> {
    folder
        .entries
        .iter()
        .map(|e| match e {
            FolderEntry::File(f) => format!("file {}", f.name),
            FolderEntry::Folder(f) => format!("folder {}", f.name),
        })
        .collect()
}

fn subfolder<'a>(folder: &'a Folder, name: &str) -> &'a Folder {
    for e in &folder.entries {
        if let FolderEntry::Folder(f) = e {
            if f.name == name {
                return f;
            }
        }
    }
    panic!("no folder named {} in {:?}", name, folder_entry_names(folder));
}

fn subfile<'a>(folder: &'a Folder, name: &str) -> &'a File {
    for e in &folder.entries {
        if let FolderEntry::File(f) = e {
            if f.name == name {
                return f;
            }
        }
    }
    panic!("no file named {} in {:?}", name, folder_entry_names(folder));
}

#[test]
fn every_message_yields_folder_with_types_file() {
    let tree = hello_world_tree();
    let out = compile(&tree).unwrap();
    assert_eq!(out.name, "out");
    let hello = subfolder(&out, "hello");
    let world_file_folder = subfolder(hello, "world");
    for message_name in ["Other", "World"] {
        let message_folder = subfolder(world_file_folder, message_name);
        let types = subfile(message_folder, "types");
        subfile(message_folder, "encode");
        subfile(message_folder, "decode");
        let interfaces: Vec<_> = types
            .ast
            .statements
            .iter()
            .filter_map(|s| match s {
                Statement::InterfaceDeclaration(i) => Some(i),
                _ => None,
            })
            .collect();
        assert_eq!(interfaces.len(), 2);
        assert_eq!(interfaces[0].name.text, format!("{}EncodeInput", message_name));
        assert_eq!(interfaces[1].name.text, message_name);
    }
}

#[test]
fn encode_interface_has_one_optional_property_per_field_in_order() {
    let tree = hello_world_tree();
    let out = compile(&tree).unwrap();
    let world = subfolder(subfolder(subfolder(&out, "hello"), "world"), "World");
    let types = subfile(world, "types");
    let first = types
        .ast
        .statements
        .iter()
        .find_map(|s| match s {
            Statement::InterfaceDeclaration(i) => Some(i),
            _ => None,
        })
        .unwrap();
    assert_eq!(first.members.len(), 2);
    let names: Vec<_> = first
        .members
        .iter()
        .map(|InterfaceMember::PropertySignature(p)| (p.name.text.clone(), p.optional))
        .collect();
    assert_eq!(names, vec![("first".to_string(), true), ("second".to_string(), true)]);
}

#[test]
fn three_records() {
    // The hello/world scenario: `World`'s types file imports `Other`'s
    // encode-input symbol once, though two fields reference it.
    let tree = hello_world_tree();
    let out = compile(&tree).unwrap();
    let world = subfolder(subfolder(subfolder(&out, "hello"), "world"), "World");
    let types = subfile(world, "types");
    let rendered: Vec<String> = types
        .ast
        .statements
        .iter()
        .filter_map(|s| match s {
            Statement::ImportDeclaration(d) => Some(d.render()),
            _ => None,
        })
        .collect();
    let encode_imports: Vec<_> = rendered
        .iter()
        .filter(|r| r.contains("OtherEncodeInput"))
        .collect();
    assert_eq!(encode_imports.len(), 1);
    assert_eq!(encode_imports[0], "import { OtherEncodeInput } from \"../Other/types\"");
}

#[test]
fn decode_interface_has_required_properties() {
    let tree = hello_world_tree();
    let out = compile(&tree).unwrap();
    let world = subfolder(subfolder(subfolder(&out, "hello"), "world"), "World");
    let types = subfile(world, "types");
    let decode = types
        .ast
        .statements
        .iter()
        .filter_map(|s| match s {
            Statement::InterfaceDeclaration(i) => Some(i),
            _ => None,
        })
        .nth(1)
        .unwrap();
    assert_eq!(decode.name.text, "World");
    assert_eq!(decode.members.len(), 2);
    for InterfaceMember::PropertySignature(p) in &decode.members {
        assert!(!p.optional);
        assert!(matches!(&p.property_type, Type::TypeReference(ids) if ids[0].text == "Other"));
    }
}

#[test]
fn self_reference_needs_no_import() {
    // A message holding a field of its own type: the reference stays in the
    // same generated file, so no import is synthesized and the symbol is
    // used directly.
    let arena = vec![message("Node", vec![field("next", reference(&["Node"]))])];
    let files = vec![ProtoFile {
        name: "n.proto".to_string(),
        path: Vec::new(),
        declarations: vec![0],
        imports: Vec::new(),
    }];
    let tree =
        PackageTree { name: "out".to_string(), arena, files, root: leaf_node("", vec![0]) };
    let folder = file_to_folder(&tree, 0).unwrap();
    let types = subfile(subfolder(&folder, "Node"), "types");
    let import_count = types
        .ast
        .statements
        .iter()
        .filter(|s| matches!(s, Statement::ImportDeclaration(_)))
        .count();
    assert_eq!(import_count, 0);
    let encode = types
        .ast
        .statements
        .iter()
        .find_map(|s| match s {
            Statement::InterfaceDeclaration(i) => Some(i),
            _ => None,
        })
        .unwrap();
    let InterfaceMember::PropertySignature(p) = &encode.members[0];
    match &p.property_type {
        Type::UnionType(u) => {
            assert!(matches!(&u.types[0], Type::TypeReference(ids)
                if ids.len() == 1 && ids[0].text == "NodeEncodeInput"));
        }
        _ => panic!("expected the widened reference union"),
    }
}

#[test]
fn enum_declarations_get_their_own_file() {
    let arena = vec![Declaration::Enum(EnumDeclaration {
        name: "Color".to_string(),
        entries: vec![
            EnumEntry { name: "RED".to_string(), value: 0 },
            EnumEntry { name: "BLUE".to_string(), value: 2 },
        ],
    })];
    let files = vec![ProtoFile {
        name: "colors.proto".to_string(),
        path: Vec::new(),
        declarations: vec![0],
        imports: Vec::new(),
    }];
    let tree = PackageTree {
        name: "out".to_string(),
        arena,
        files,
        root: leaf_node("", vec![0]),
    };
    let folder = file_to_folder(&tree, 0).unwrap();
    assert_eq!(folder.name, "colors");
    let file = subfile(&folder, "Color");
    assert_eq!(file.ast.statements.len(), 1);
    match &file.ast.statements[0] {
        Statement::EnumDeclaration(d) => {
            assert_eq!(d.name.text, "Color");
            assert_eq!(d.members.len(), 2);
            assert_eq!(d.members[1].name.text, "BLUE");
        }
        _ => panic!("expected an enum declaration"),
    }
}

#[test]
fn one_of_groups_are_not_implemented() {
    let arena = vec![message("M", vec![MessageEntry::OneOf("choice".to_string())])];
    let files = vec![ProtoFile {
        name: "m.proto".to_string(),
        path: Vec::new(),
        declarations: vec![0],
        imports: Vec::new(),
    }];
    let tree =
        PackageTree { name: "out".to_string(), arena, files, root: leaf_node("", vec![0]) };
    match compile(&tree) {
        Err(CompileError::NotImplemented { .. }) => {}
        _ => panic!("a group of which exactly one field may be set must halt compilation"),
    }
}

#[test]
fn message_keyed_maps_are_not_implemented() {
    let arena = vec![
        message("K", vec![]),
        message(
            "M",
            vec![field(
                "m",
                FieldType::Mapping(
                    Box::new(reference(&["K"])),
                    Box::new(FieldType::Scalar(ScalarKind::Int32)),
                ),
            )],
        ),
    ];
    let files = vec![ProtoFile {
        name: "m.proto".to_string(),
        path: Vec::new(),
        declarations: vec![0, 1],
        imports: Vec::new(),
    }];
    let tree =
        PackageTree { name: "out".to_string(), arena, files, root: leaf_node("", vec![0]) };
    match compile(&tree) {
        Err(CompileError::NotImplemented { .. }) => {}
        _ => panic!("a message-keyed map must halt compilation"),
    }
}

#[test]
fn unresolvable_names_give_a_resolution_error_with_a_trace() {
    let arena = vec![message("M", vec![field("f", reference(&["Missing"]))])];
    let files = vec![ProtoFile {
        name: "m.proto".to_string(),
        path: vec!["pkg".to_string()],
        declarations: vec![0],
        imports: Vec::new(),
    }];
    let tree =
        PackageTree { name: "out".to_string(), arena, files, root: leaf_node("", vec![0]) };
    match compile(&tree) {
        Err(CompileError::Resolution { message, trace }) => {
            assert_eq!(message, "could not resolve name Missing");
            assert_eq!(trace, vec!["M".to_string(), "pkg/m.proto".to_string()]);
        }
        _ => panic!("an unresolvable reference must surface a resolution error"),
    }
}

#[test]
fn shadowing_prefers_the_innermost_declaration() {
    // `X` exists three times: nested in message `M`, at the file top level,
    // and as an import. Resolution inside `M` must pick the nested one.
    let arena = vec![
        message("X", vec![]),                                     // 0: nested in M
        message("X", vec![]),                                     // 1: top level
        message("M", vec![MessageEntry::Declaration(0)]),         // 2
    ];
    let files = vec![
        ProtoFile {
            name: "a.proto".to_string(),
            path: Vec::new(),
            declarations: vec![1, 2],
            imports: vec![ImportPath {
                packages: vec!["X".to_string()],
                file_name: "x.proto".to_string(),
            }],
        },
        ProtoFile {
            name: "x.proto".to_string(),
            path: vec!["X".to_string()],
            declarations: Vec::new(),
            imports: Vec::new(),
        },
    ];
    let tree = PackageTree {
        name: "out".to_string(),
        arena,
        files,
        root: PackageNode {
            segment: String::new(),
            files: vec![0],
            children: vec![leaf_node("X", vec![1])],
        },
    };
    let in_message = BlockScope { file_id: 0, parents: vec![2] };
    match in_message.resolve(&tree, &"X".to_string()) {
        Ok(DefinedId { declaration: IdType::DataType(id), scope }) => {
            assert_eq!(id, 0);
            assert_eq!(scope.parents, vec![2]);
        }
        other => panic!("expected the nested declaration, got {:?}", describe(&other)),
    }
    // At the file's top level the file declaration shadows the import.
    let at_top = BlockScope::new(0);
    match at_top.resolve(&tree, &"X".to_string()) {
        Ok(DefinedId { declaration: IdType::DataType(id), .. }) => assert_eq!(id, 1),
        other => panic!("expected the top-level declaration, got {:?}", describe(&other)),
    }
}

fn describe(r: &Result<DefinedId, CompileError>) -> String {
    match r {
        Ok(DefinedId { declaration: IdType::DataType(id), .. }) => format!("declaration {}", id),
        Ok(DefinedId { declaration: IdType::Package(f), .. }) => format!("package file {}", f),
        Err(_) => "an error".to_string(),
    }
}

#[test]
fn chained_cross_package_import_backtracks() {
    // File `a.proto` lives under `alpha/deep` and imports package `b`. The
    // package tree holds `b` only at the root, so the search must retry
    // after dropping `deep` and then `alpha` before it finds `b/b.proto`.
    let arena = vec![message("BMsg", vec![])];
    let files = vec![
        ProtoFile {
            name: "a.proto".to_string(),
            path: vec!["alpha".to_string(), "deep".to_string()],
            declarations: Vec::new(),
            imports: vec![ImportPath {
                packages: vec!["b".to_string()],
                file_name: "b.proto".to_string(),
            }],
        },
        ProtoFile {
            name: "b.proto".to_string(),
            path: vec!["b".to_string()],
            declarations: vec![0],
            imports: Vec::new(),
        },
    ];
    let tree = PackageTree {
        name: "out".to_string(),
        arena,
        files,
        root: PackageNode {
            segment: String::new(),
            files: Vec::new(),
            children: vec![
                PackageNode {
                    segment: "alpha".to_string(),
                    files: Vec::new(),
                    children: vec![leaf_node("deep", vec![0])],
                },
                leaf_node("b", vec![1]),
            ],
        },
    };
    let scope = BlockScope::new(0);
    match scope.resolve(&tree, &"b".to_string()) {
        Ok(DefinedId { declaration: IdType::Package(fid), .. }) => assert_eq!(fid, 1),
        other => panic!("expected the imported package file, got {:?}", describe(&other)),
    }
    // And a dotted path through the import reaches the declaration.
    let resolved = scope.resolve_path(&tree, &vec!["b".to_string(), "BMsg".to_string()]).unwrap();
    match resolved.declaration {
        IdType::DataType(id) => assert_eq!(id, 0),
        _ => panic!("expected the message declaration"),
    }
}

#[test]
fn resolving_past_an_enum_fails() {
    let arena = vec![
        Declaration::Enum(EnumDeclaration { name: "E".to_string(), entries: Vec::new() }),
        message("M", vec![MessageEntry::Declaration(0)]),
    ];
    let files = vec![ProtoFile {
        name: "m.proto".to_string(),
        path: Vec::new(),
        declarations: vec![1],
        imports: Vec::new(),
    }];
    let tree =
        PackageTree { name: "out".to_string(), arena, files, root: leaf_node("", vec![0]) };
    let scope = BlockScope::new(0);
    let path = vec!["M".to_string(), "E".to_string(), "member".to_string()];
    match scope.resolve_path(&tree, &path) {
        Err(CompileError::Resolution { .. }) => {}
        _ => panic!("resolution past an enum must fail"),
    }
}

#[test]
fn empty_identifier_paths_are_an_internal_violation() {
    let tree = hello_world_tree();
    let scope = BlockScope::new(0);
    match scope.resolve_path(&tree, &Vec::<String>::new()) {
        Err(CompileError::Internal { .. }) => {}
        _ => panic!("an empty identifier path must be an internal violation"),
    }
}

#[test]
fn sixty_four_bit_fields_widen_to_long_union() {
    let arena = vec![message("M", vec![field("big", FieldType::Scalar(ScalarKind::Int64))])];
    let files = vec![ProtoFile {
        name: "m.proto".to_string(),
        path: Vec::new(),
        declarations: vec![0],
        imports: Vec::new(),
    }];
    let tree =
        PackageTree { name: "out".to_string(), arena, files, root: leaf_node("", vec![0]) };
    let folder = file_to_folder(&tree, 0).unwrap();
    let types = subfile(subfolder(&folder, "M"), "types");
    let imports: Vec<String> = types
        .ast
        .statements
        .iter()
        .filter_map(|s| match s {
            Statement::ImportDeclaration(d) => Some(d.render()),
            _ => None,
        })
        .collect();
    assert_eq!(imports, vec!["import { util } from \"protobufjs\"".to_string()]);
    let encode = types
        .ast
        .statements
        .iter()
        .find_map(|s| match s {
            Statement::InterfaceDeclaration(i) => Some(i),
            _ => None,
        })
        .unwrap();
    let InterfaceMember::PropertySignature(p) = &encode.members[0];
    // int64 widens to util.Long | number, then to util.Long | number | null.
    match &p.property_type {
        Type::UnionType(u) => {
            assert_eq!(u.types.len(), 3);
            assert!(matches!(&u.types[0], Type::TypeReference(ids)
                if ids.len() == 2 && ids[0].text == "util" && ids[1].text == "Long"));
            assert!(matches!(u.types[1], Type::Number));
            assert!(matches!(u.types[2], Type::Null));
        }
        other => panic!("expected a union, got {:?}", discriminant_name(other)),
    }
}

fn discriminant_name(t: &Type) -> &'static str {
    match t {
        Type::Number => "number",
        Type::Null => "null",
        Type::Undefined => "undefined",
        Type::Never => "never",
        Type::Void => "void",
        Type::Boolean => "boolean",
        Type::String => "string",
        Type::UnionType(_) => "union",
        Type::ArrayType(_) => "array",
        Type::Record(_, _) => "record",
        Type::TypeReference(_) => "reference",
    }
}

use proto_ts::args::{parse_cli_arguments, CliArguments};
use proto_ts::ast::{
    Folder, Identifier, PropertySignature, Type, UnionType,
};
use proto_ts::mapper::{message_name_to_encode_type_name, try_get_predefined_type};
use proto_ts::paths::file_name_to_folder_name;

fn strings(args: &[&str]) -> Vec<String> {
    args.iter().map(|s| s.to_string()).collect()
}

#[test]
fn default_arguments_point_at_the_current_directory() {
    let d = CliArguments::default();
    assert_eq!(d.proto_folder_path, ".");
    assert_eq!(d.out_folder_path, "./out");
}

#[test]
fn arguments_are_parsed_and_normalized() {
    let args = strings(&["schemas/./nested//dir", "--out", "build/../dist"]);
    let parsed = parse_cli_arguments(&args);
    assert_eq!(parsed.proto_folder_path, "schemas/nested/dir");
    assert_eq!(parsed.out_folder_path, "dist");
}

#[test]
fn first_positional_names_the_source() {
    let args = strings(&["first", "second", "--out", "d1", "--out", "d2"]);
    let parsed = parse_cli_arguments(&args);
    assert_eq!(parsed.proto_folder_path, "first");
    assert_eq!(parsed.out_folder_path, "d2");
}

#[test]
fn no_arguments_keep_both_defaults() {
    let parsed = parse_cli_arguments(&Vec::new());
    assert_eq!(parsed.proto_folder_path, ".");
    assert_eq!(parsed.out_folder_path, "./out");
}

#[test]
fn out_flag_alone_keeps_the_default_destination() {
    let args = strings(&["src"]);
    let parsed = parse_cli_arguments(&args);
    assert_eq!(parsed.proto_folder_path, "src");
    assert_eq!(parsed.out_folder_path, "./out");
}

#[test]
fn file_names_lose_their_proto_suffix() {
    assert_eq!(file_name_to_folder_name(&"world.proto".to_string()), "world");
    assert_eq!(file_name_to_folder_name(&"world".to_string()), "world");
    assert_eq!(file_name_to_folder_name(&".proto".to_string()), "");
    assert_eq!(file_name_to_folder_name(&"a.protox".to_string()), "a.protox");
}

#[test]
fn encode_type_names_append_the_fixed_suffix() {
    assert_eq!(message_name_to_encode_type_name(&"World".to_string()), "WorldEncodeInput");
}

#[test]
fn predefined_type_names_map_by_the_fixed_table() {
    assert!(matches!(try_get_predefined_type(&"bool".to_string()), Some(Type::Boolean)));
    assert!(matches!(try_get_predefined_type(&"string".to_string()), Some(Type::String)));
    assert!(matches!(try_get_predefined_type(&"int32".to_string()), Some(Type::Number)));
    assert!(matches!(try_get_predefined_type(&"uint32".to_string()), Some(Type::Number)));
    assert!(matches!(try_get_predefined_type(&"float".to_string()), Some(Type::Number)));
    match try_get_predefined_type(&"bytes".to_string()) {
        Some(Type::TypeReference(ids)) => assert_eq!(ids[0].text, "Uint8Array"),
        _ => panic!("bytes must map to Uint8Array"),
    }
    assert!(try_get_predefined_type(&"int64".to_string()).is_none());
    assert!(try_get_predefined_type(&"unknown".to_string()).is_none());
}

#[test]
fn union_push_flattens_and_deduplicates() {
    let mut u = UnionType::new();
    u.push(&Type::Number);
    u.push(&Type::Never);
    u.push(&Type::Number);
    let mut nested = UnionType::new();
    nested.push(&Type::Null);
    nested.push(&Type::Boolean);
    u.push(&Type::UnionType(nested));
    assert_eq!(u.types.len(), 3);
    assert!(matches!(u.types[0], Type::Number));
    assert!(matches!(u.types[1], Type::Null));
    assert!(matches!(u.types[2], Type::Boolean));
}

#[test]
fn or_collapses_singleton_unions() {
    let t = Type::Number.or(&Type::Never);
    assert!(matches!(t, Type::Number));
    let u = Type::Number.or(&Type::Null);
    match u {
        Type::UnionType(u) => assert_eq!(u.types.len(), 2),
        _ => panic!("expected a union"),
    }
}

#[test]
fn wrap_for_nesting_marks_arrays_and_unions() {
    assert!(Type::array(Type::Number).requires_wrap_for_nesting());
    assert!(!Type::Number.requires_wrap_for_nesting());
    assert!(!Type::TypeReference(vec![Identifier::new("X".to_string())])
        .requires_wrap_for_nesting());
}

#[test]
fn property_signatures_carry_optionality() {
    let p = PropertySignature::new("a".to_string(), Type::Number);
    assert!(!p.optional);
    let q = PropertySignature::new_optional("b".to_string(), Type::Number);
    assert!(q.optional);
}

#[test]
fn folders_insert_and_display() {
    let mut root = Folder::new("out".to_string());
    let i = root.insert_folder("a".to_string());
    let j = root.insert_folder("a".to_string());
    assert_eq!(i, j);
    root.insert_folder_by_path(&strings(&["a", "b"]));
    root.entries.push(proto_ts::ast::FolderEntry::File(Box::new(proto_ts::ast::File::new(
        "index".to_string(),
    ))));
    let rendered = root.display_tree();
    assert_eq!(rendered, "out\n  a\n    b\n index.ts\n");
    // Ensuring the same chain again changes nothing.
    root.insert_folder_by_path(&strings(&["a", "b"]));
    assert_eq!(root.display_tree(), rendered);
}

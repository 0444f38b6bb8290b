use proto_ts::ast::StringLiteral;
use proto_ts::imports::get_relative_import;
use proto_ts::paths::{TsPath, TsPathComponent};

fn path(components: Vec<TsPathComponent>) -> TsPath {
    let mut p = TsPath::new();
    for c in components {
        p.push(c);
    }
    p
}

#[test]
fn same_folder_file() {
    let from = path(vec![
        TsPathComponent::Folder("Hello".to_string()),
        TsPathComponent::File("types".to_string()),
    ]);
    let to = path(vec![
        TsPathComponent::Folder("Hello".to_string()),
        TsPathComponent::File("defs".to_string()),
        TsPathComponent::Enum("Test".to_string()),
    ]);
    let decl = get_relative_import(&from, &to).unwrap();
    let decl_str: String = decl.render();
    assert_eq!(decl_str, "import { Test } from \"./defs\"")
}

#[test]
fn parent_folder_path() {
    let from = path(vec![
        TsPathComponent::Folder("Goodbye".to_string()),
        TsPathComponent::File("types".to_string()),
    ]);
    let to = path(vec![
        TsPathComponent::Folder("Hello".to_string()),
        TsPathComponent::File("defs".to_string()),
        TsPathComponent::Enum("Test".to_string()),
    ]);
    let decl = get_relative_import(&from, &to).unwrap();
    let decl_str: String = decl.render();
    assert_eq!(decl_str, "import { Test } from \"../Hello/defs\"")
}

#[test]
fn same_file_import_is_refused() {
    let from = path(vec![TsPathComponent::File("types".to_string())]);
    let to = path(vec![
        TsPathComponent::File("types".to_string()),
        TsPathComponent::Enum("Test".to_string()),
    ]);
    match get_relative_import(&from, &to) {
        Err(proto_ts::errors::CompileError::Internal { .. }) => {}
        _ => panic!("a same-file import must be an internal contract violation"),
    }
}

#[test]
fn same_file_import_is_refused_under_folder() {
    let from = path(vec![
        TsPathComponent::Folder("Hello".to_string()),
        TsPathComponent::File("types".to_string()),
    ]);
    let to = path(vec![
        TsPathComponent::Folder("Hello".to_string()),
        TsPathComponent::File("types".to_string()),
        TsPathComponent::Enum("Test".to_string()),
    ]);
    match get_relative_import(&from, &to) {
        Err(proto_ts::errors::CompileError::Internal { .. }) => {}
        _ => panic!("a same-file import must be an internal contract violation"),
    }
}

#[test]
fn deeper_target_gets_folder_steps() {
    let from = path(vec![
        TsPathComponent::Folder("A".to_string()),
        TsPathComponent::File("types".to_string()),
    ]);
    let to = path(vec![
        TsPathComponent::Folder("A".to_string()),
        TsPathComponent::Folder("B".to_string()),
        TsPathComponent::File("defs".to_string()),
        TsPathComponent::Interface("T".to_string()),
    ]);
    let decl = get_relative_import(&from, &to).unwrap();
    assert_eq!(decl.render(), "import { T } from \"./B/defs\"");
}

#[test]
fn sibling_folder_interface() {
    let from = path(vec![
        TsPathComponent::Folder("Hello".to_string()),
        TsPathComponent::Folder("World".to_string()),
        TsPathComponent::File("types".to_string()),
    ]);
    let to = path(vec![
        TsPathComponent::Folder("Hello".to_string()),
        TsPathComponent::Folder("Other".to_string()),
        TsPathComponent::File("types".to_string()),
        TsPathComponent::Interface("OtherEncodeInput".to_string()),
    ]);
    let decl = get_relative_import(&from, &to).unwrap();
    assert_eq!(decl.render(), "import { OtherEncodeInput } from \"../Other/types\"");
}

#[test]
fn import_render_includes_specifier_quotes() {
    let mut specs = Vec::new();
    specs.push(proto_ts::ast::ImportSpecifier::new(proto_ts::ast::Identifier::new(
        "util".to_string(),
    )));
    let d = proto_ts::ast::ImportDeclaration::import(
        specs,
        StringLiteral::new("protobufjs".to_string()),
    );
    assert_eq!(d.render(), "import { util } from \"protobufjs\"");
}

#[test]
fn ensure_import_deduplicates() {
    let mut file = proto_ts::ast::File::new("types".to_string());
    for _ in 0..2 {
        let mut specs = Vec::new();
        specs.push(proto_ts::ast::ImportSpecifier::new(proto_ts::ast::Identifier::new(
            "Test".to_string(),
        )));
        let d = proto_ts::ast::ImportDeclaration::import(
            specs,
            StringLiteral::new("./defs".to_string()),
        );
        proto_ts::imports::ensure_import(&mut file, d);
    }
    assert_eq!(file.ast.statements.len(), 1);
}

#[test]
fn ensure_import_keeps_distinct_imports() {
    let mut file = proto_ts::ast::File::new("types".to_string());
    for name in ["A", "B"] {
        let mut specs = Vec::new();
        specs.push(proto_ts::ast::ImportSpecifier::new(proto_ts::ast::Identifier::new(
            name.to_string(),
        )));
        let d = proto_ts::ast::ImportDeclaration::import(
            specs,
            StringLiteral::new("./defs".to_string()),
        );
        proto_ts::imports::ensure_import(&mut file, d);
    }
    assert_eq!(file.ast.statements.len(), 2);
}

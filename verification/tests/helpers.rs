use houndlens::discovery::{debug_text_exec, is_pascal_case, is_snake_case};
use houndlens::fixgen::{test_file_for, FnInfo};
use houndlens::ir::ContentHash;
use houndlens::snapshot::{is_test_name, read_package_deps};
use houndlens::storage::Storage;
use houndlens::types::TypeRef;

fn function(name: &str, path: &str, ext: &str) -> FnInfo {
    FnInfo {
        name: name.to_string(),
        class_name: None,
        params: Vec::new(),
        is_async: false,
        ext: ext.to_string(),
        file_path: path.to_string(),
    }
}

#[test]
fn naming_conventions_by_character_case() {
    assert!(is_snake_case("get_user"));
    assert!(!is_snake_case("getUser"));
    assert!(is_pascal_case("UserService"));
    assert!(!is_pascal_case("user_service"));
}

#[test]
fn test_names_ignore_case() {
    assert!(is_test_name("TestLogin"));
    assert!(is_test_name("auth::test_login"));
    assert!(!is_test_name("login"));
}

#[test]
fn content_hashes_are_sha256_and_stored_by_hex() {
    let h = ContentHash::from_bytes(b"abc", None);
    assert_eq!(h.0[0], 0xba);
    assert_eq!(h.0[31], 0xad);
    let s = Storage::open_at("/idx");
    assert_eq!(
        s.object_path(&h),
        "/idx/objects/ba/7816bf8f01cfea414140de5dae2223b00361a396177a9cb410ff61f20015ad"
    );
}

#[test]
fn package_dependencies_are_read_from_json() {
    let deps = read_package_deps(r#"{"dependencies":{"vue":"3"},"devDependencies":{"vitest":"1","eslint":"8"}}"#);
    assert_eq!(deps.len(), 3);
    assert!(deps.contains(&"vue".to_string()));
    assert!(deps.contains(&"vitest".to_string()));
    assert!(read_package_deps("not json").is_empty());
}

#[test]
fn type_references_in_debug_form() {
    assert_eq!(debug_text_exec(&TypeRef::Unresolved("Foo".to_string())), "Unresolved(\"Foo\")");
    assert_eq!(debug_text_exec(&TypeRef::Unknown), "Unknown");
}

#[test]
fn test_files_sit_next_to_their_sources() {
    let fs = vec![function("area", "src/geo/shape.rs", "rs")];
    let (path, content) = test_file_for("src/geo/shape.rs", &fs, "/p").unwrap();
    assert_eq!(path, "src/geo/tests_shape.rs");
    assert!(content.contains("area"));
    let fs = vec![function("area", "web/shape.ts", "ts")];
    let (path, _) = test_file_for("web/shape.ts", &fs, "/p").unwrap();
    assert_eq!(path, "web/__tests__/shape.test.ts");
    assert!(test_file_for("notes.md", &fs, "/p").is_none());
}

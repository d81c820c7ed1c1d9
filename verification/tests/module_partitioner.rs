use cleanroom::module_partitioner::{
    detect_module_type, partition_files, split_large_modules, Module, ModuleType, PartitionConfig, SourceFile,
};

fn make_file(path: &str, lang: &str) -> SourceFile {
    SourceFile {
        path: path.to_string(),
        language: Some(lang.to_string()),
        size_bytes: 100,
        relative_path: path.to_string(),
    }
}

#[test]
fn test_detect_module_type_default() {
    let path = "/tmp/some_dir";
    assert_eq!(detect_module_type(path, &["Cargo.toml", "package.json"]), ModuleType::Directory);
}

#[test]
fn test_split_large_modules() {
    let files: Vec<SourceFile> = (0..10).map(|i| make_file(&format!("file{}.rs", i), "rust")).collect();
    let module = Module {
        name: "big_mod".to_string(),
        files,
        module_type: ModuleType::Directory,
        root_path: "/".to_string(),
        languages: vec!["rust".to_string()],
    };

    let result = split_large_modules(vec![module], 3);
    assert_eq!(result.len(), 4);
    assert_eq!(result[0].name, "big_mod");
    assert_eq!(result[1].name, "big_mod_2");
    assert_eq!(result[0].files.len(), 3);
    assert_eq!(result[3].files.len(), 1);
}

#[test]
fn test_partition_empty() {
    let result = partition_files(vec![], &PartitionConfig::default());
    assert!(result.is_empty());
}

#[test]
fn partition_groups_by_directory_in_order() {
    let files = vec![
        make_file("src/a.rs", "rust"),
        make_file("web/app.ts", "typescript"),
        make_file("src/b.py", "python"),
        make_file("src/c.rs", "rust"),
        make_file("top.rs", "rust"),
    ];
    let config = PartitionConfig { max_files_per_module: 2, split_by_language: false, min_files_for_module: 1 };
    let modules = partition_files(files, &config);
    let names: Vec<&str> = modules.iter().map(|m| m.name.as_str()).collect();
    assert_eq!(names, vec!["src", "src_2", "web", "root"]);
    assert_eq!(modules[0].files.len(), 2);
    assert_eq!(modules[1].files[0].path, "src/c.rs");
    assert_eq!(modules[0].languages, vec!["python".to_string(), "rust".to_string()]);
    assert_eq!(modules[3].root_path, "");
}

#[test]
fn partition_drops_small_modules() {
    let files = vec![make_file("a/x.rs", "rust"), make_file("b/y.rs", "rust"), make_file("b/z.rs", "rust")];
    let config = PartitionConfig { max_files_per_module: 0, split_by_language: false, min_files_for_module: 2 };
    let modules = partition_files(files, &config);
    assert_eq!(modules.len(), 1);
    assert_eq!(modules[0].name, "b");
    assert_eq!(modules[0].files.len(), 2);
}


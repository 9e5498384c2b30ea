use std::path::Path;

use skills_core::{
    classify_walk_entry, discover_skill_folders, frontmatter_block, parse_skill_folder, replace_existing_target,
    AppPaths, SkillFrontmatter, SkillsError, SkillsStore, SourceType, WalkEntry, APP_IDENTIFIER, SKILL_FILE_NAME,
};

/// A `SKILL.md` text for a skill named `name`: front matter with a description,
/// a version and a tag, then a heading.
fn skill_text(name: &str) -> String {
    format!("---\nname: {name}\ndescription: Test skill\nversion: 1.2.3\ntags:\n  - test\n---\n# {name}\n")
}

/// Parses front matter YAML into the library's fields, as the command line does.
fn frontmatter_from_yaml(yaml: &str) -> SkillFrontmatter {
    let value: serde_yaml::Value = serde_yaml::from_str(yaml).unwrap();
    let text = |key: &str| value.get(key).and_then(|v| v.as_str()).map(|s| s.to_string());
    let tags = value.get("tags").and_then(|v| v.as_sequence()).map(|items| {
        items.iter().filter_map(|item| item.as_str()).map(|s| s.to_string()).collect::<Vec<String>>()
    });
    SkillFrontmatter { name: text("name"), description: text("description"), version: text("version"), tags }
}

#[test]
fn parses_skill_frontmatter() {
    let skill_dir = Path::new("temp").join("hello");
    let raw = skill_text("Hello Skill");
    let yaml = frontmatter_block(&raw).unwrap();
    let skill = parse_skill_folder(&skill_dir.to_string_lossy(), frontmatter_from_yaml(&yaml));

    assert_eq!(skill.id, "hello-skill");
    assert_eq!(skill.name, "Hello Skill");
    assert_eq!(skill.description, "Test skill");
    assert_eq!(skill.version.as_deref(), Some("1.2.3"));
    assert_eq!(skill.tags, vec!["test"]);
}

#[test]
fn default_data_dir_matches_tauri_app_identifier() {
    let platform = directories::BaseDirs::new().map(|dirs| dirs.data_dir().to_string_lossy().into_owned());
    let data_dir = AppPaths::default_data_dir(platform).unwrap();

    assert_eq!(Path::new(&data_dir).file_name().unwrap(), APP_IDENTIFIER);
}

#[test]
fn default_data_dir_without_platform_folder_fails() {
    assert_eq!(AppPaths::default_data_dir(None), Err(SkillsError::MissingDataDir));
}

#[test]
fn paths_follow_the_data_folder_layout() {
    let paths = AppPaths::from_data_dir("data".to_string());
    assert_eq!(Path::new(&paths.catalog_path), Path::new("data").join("catalog.json"));
    assert_eq!(Path::new(&paths.library_dir), Path::new("data").join("library"));
    assert_eq!(Path::new(&paths.skills_dir), Path::new("data").join("library").join("skills"));
}

#[test]
fn frontmatter_with_crlf_line_endings() {
    let raw = "---\r\nname: Windows\r\n---\r\n# body\r\n";
    assert_eq!(frontmatter_block(raw).as_deref(), Some("name: Windows"));
}

#[test]
fn frontmatter_absent_or_unclosed() {
    assert_eq!(frontmatter_block("# just a title\n"), None);
    assert_eq!(frontmatter_block("---\nname: Open\n"), None);
    assert_eq!(frontmatter_block("--\n---\n"), None);
    assert_eq!(frontmatter_block("---\n---\n"), None);
    assert_eq!(frontmatter_block("---\n\n---\n").as_deref(), Some(""));
}

#[test]
fn name_falls_back_to_folder_name() {
    let blank = SkillFrontmatter { name: Some("   ".to_string()), description: None, version: None, tags: None };
    let skill = parse_skill_folder("skills/My Folder", blank);
    assert_eq!(skill.name, "My Folder");
    assert_eq!(skill.id, "my-folder");
    assert_eq!(skill.description, "");
    assert_eq!(skill.tags, Vec::<String>::new());
    assert_eq!(skill.source_type, SourceType::Local);
    assert_eq!(skill.library_path.as_deref(), Some("skills/My Folder"));
    assert_eq!(skill.install_command, None);

    let none = SkillFrontmatter { name: None, description: None, version: None, tags: None };
    assert_eq!(parse_skill_folder("/", none).name, "skill");
}

#[test]
fn imports_by_copying_into_library() {
    let data_dir = Path::new("temp").join("data");
    let mut store = SkillsStore::open(data_dir.to_string_lossy().into_owned(), None);
    let source = Path::new("temp").join("source");
    let raw = skill_text("Copy Me");
    let parsed = parse_skill_folder(&source.to_string_lossy(), frontmatter_from_yaml(&frontmatter_block(&raw).unwrap()));

    let imported = store.import_path(&source.to_string_lossy(), vec![parsed]).unwrap();

    assert_eq!(imported.len(), 1);
    let library_path = imported[0].library_path.as_ref().unwrap();
    assert!(Path::new(library_path).starts_with(data_dir.join("library").join("skills")));
    assert_eq!(Path::new(library_path), data_dir.join("library").join("skills").join("copy-me"));
    assert_eq!(store.catalog().skills.len(), 1);
}

#[test]
fn importing_nothing_is_an_invalid_folder() {
    let mut store = SkillsStore::open("data".to_string(), None);
    assert_eq!(
        store.import_path("empty", Vec::new()),
        Err(SkillsError::InvalidSkillFolder("empty".to_string()))
    );
    assert!(store.catalog().skills.is_empty());
}

#[test]
fn importing_twice_suffixes_the_id() {
    let mut store = SkillsStore::open("data".to_string(), None);
    let fm = || SkillFrontmatter { name: Some("Same".to_string()), description: None, version: None, tags: None };
    let first = store.import_path("a", vec![parse_skill_folder("a/same", fm())]).unwrap();
    let second = store.import_path("b", vec![parse_skill_folder("b/same", fm()), parse_skill_folder("c/same", fm())]).unwrap();
    assert_eq!(first[0].id, "same");
    assert_eq!(second[0].id, "same-2");
    assert_eq!(second[1].id, "same-3");
}

/// A folder tree held in memory: each folder has its files and its subfolders.
struct Folder {
    path: String,
    files: Vec<&'static str>,
    folders: Vec<Folder>,
}

/// Walks `folder` the way the command line walks the file system, with the
/// library deciding what each entry is.
fn walk(folder: &Folder, found: &mut Vec<String>) {
    for file in &folder.files {
        assert_eq!(classify_walk_entry(false, false), WalkEntry::Skip, "{file} is passed over");
    }
    for child in &folder.folders {
        match classify_walk_entry(true, child.files.contains(&SKILL_FILE_NAME)) {
            WalkEntry::Skip => {}
            WalkEntry::SkillFolder => found.push(child.path.clone()),
            WalkEntry::Descend => walk(child, found),
        }
    }
}

#[test]
fn discovers_nested_skill_folders() {
    let two = Folder { path: "temp/nested/two".to_string(), files: vec![SKILL_FILE_NAME], folders: vec![] };
    let nested = Folder { path: "temp/nested".to_string(), files: vec![], folders: vec![two] };
    let one = Folder { path: "temp/one".to_string(), files: vec![SKILL_FILE_NAME], folders: vec![] };
    let root = Folder { path: "temp".to_string(), files: vec!["notes.txt"], folders: vec![one, nested] };
    let mut found = Vec::new();
    walk(&root, &mut found);

    let folders = discover_skill_folders(&root.path, root.files.contains(&SKILL_FILE_NAME), found);

    assert_eq!(folders.len(), 2);
    assert_eq!(folders, vec!["temp/nested/two".to_string(), "temp/one".to_string()]);
}

#[test]
fn walk_entries_are_classified() {
    assert_eq!(classify_walk_entry(false, true), WalkEntry::Skip);
    assert_eq!(classify_walk_entry(true, true), WalkEntry::SkillFolder);
    assert_eq!(classify_walk_entry(true, false), WalkEntry::Descend);
}

#[test]
fn exports_local_skill() {
    let data_dir = Path::new("temp").join("data");
    let source = Path::new("temp").join("source");
    let export_dir = Path::new("temp").join("export");
    let mut store = SkillsStore::open(data_dir.to_string_lossy().into_owned(), None);
    let raw = skill_text("Export Me");
    let parsed = parse_skill_folder(&source.to_string_lossy(), frontmatter_from_yaml(&frontmatter_block(&raw).unwrap()));
    store.import_path(&source.to_string_lossy(), vec![parsed]).unwrap();

    let exported = store.export_skill("export-me", &export_dir.to_string_lossy()).unwrap();

    assert_eq!(Path::new(&exported.destination), export_dir.join("export-me"));
    assert_eq!(Path::new(&exported.source), data_dir.join("library").join("skills").join("export-me"));
    assert_eq!(replace_existing_target(&exported.destination, false, false), Ok(false));
}

#[test]
fn trims_unicode_white_space() {
    let mut store = SkillsStore::open("data".to_string(), None);
    store.add_command_skill("Tauri".to_string(), String::new(), "x".to_string(), vec![]);
    store.add_command_skill("Other".to_string(), String::new(), "x".to_string(), vec![]);
    assert_eq!(store.search("\u{3000}\ttauri\u{a0}\n").len(), 1);
    assert_eq!(store.search("\u{2003}\u{85}").len(), 2);
    assert!(skills_core::confirms_commands("\u{a0}Yes\u{2028}"));
    let blank_name = SkillFrontmatter { name: Some("\u{3000}".to_string()), description: None, version: None, tags: None };
    assert_eq!(parse_skill_folder("base/Folder", blank_name).name, "Folder");
}

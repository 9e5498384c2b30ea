use skills_core::{slugify, Catalog, SkillsError, SkillsStore, SourceType, SCHEMA_VERSION};

fn store() -> SkillsStore {
    SkillsStore::open("data".to_string(), None)
}

fn add(store: &mut SkillsStore, name: &str, description: &str, tags: &[&str]) -> String {
    let tags = tags.iter().map(|t| t.to_string()).collect();
    store.add_command_skill(name.to_string(), description.to_string(), format!("install {name}"), tags).id
}

#[test]
fn slugify_examples() {
    assert_eq!(slugify("Hello Skill"), "hello-skill");
    assert_eq!(slugify("Tauri v2"), "tauri-v2");
    assert_eq!(slugify("  --A__b--  "), "a-b");
    assert_eq!(slugify("Team Bootstrap!!"), "team-bootstrap");
    assert_eq!(slugify(""), "skill");
    assert_eq!(slugify("!!!"), "skill");
    assert_eq!(slugify("Éclair au café"), "clair-au-caf");
    assert_eq!(slugify(&slugify("Mixed CASE and__symbols")), slugify("Mixed CASE and__symbols"));
}

#[test]
fn new_store_has_an_empty_catalog() {
    let store = store();
    assert_eq!(store.catalog(), &Catalog::default());
    assert_eq!(store.catalog().schema_version, SCHEMA_VERSION);
}

#[test]
fn command_skills_get_unique_ids() {
    let mut store = store();
    assert_eq!(add(&mut store, "Team Bootstrap", "Install shared skills", &["onboarding"]), "team-bootstrap");
    assert_eq!(add(&mut store, "Team Bootstrap", "again", &[]), "team-bootstrap-2");
    assert_eq!(add(&mut store, "team bootstrap", "third", &[]), "team-bootstrap-3");
    let skill = &store.catalog().skills[0];
    assert_eq!(skill.source_type, SourceType::Command);
    assert_eq!(skill.install_command.as_deref(), Some("install Team Bootstrap"));
    assert_eq!(skill.library_path, None);
    assert_eq!(skill.version, None);
    assert_eq!(skill.tags, vec!["onboarding"]);
}

#[test]
fn search_matches_name_description_id_and_tags() {
    let mut store = store();
    add(&mut store, "Tauri v2", "Build desktop apps", &["rust", "desktop"]);
    add(&mut store, "Python Helper", "Scripts", &["PY"]);
    add(&mut store, "Docs", "Writes TAURI docs", &[]);

    let names = |query: &str| store.search(query).into_iter().map(|s| s.name).collect::<Vec<_>>();
    assert_eq!(names("tauri"), vec!["Tauri v2", "Docs"]);
    assert_eq!(names("  TAURI  "), vec!["Tauri v2", "Docs"]);
    assert_eq!(names("py"), vec!["Python Helper"]);
    assert_eq!(names("desktop"), vec!["Tauri v2"]);
    assert_eq!(names("python-helper"), vec!["Python Helper"]);
    assert_eq!(names("missing"), Vec::<String>::new());
    assert_eq!(names("   ").len(), 3);
    assert_eq!(names("").len(), 3);
}

#[test]
fn references_accept_id_or_name_ignoring_case() {
    let mut store = store();
    let id = add(&mut store, "Tauri v2", "", &[]);
    assert_eq!(store.find_skill(&id).unwrap().name, "Tauri v2");
    assert_eq!(store.find_skill("TAURI V2").unwrap().id, "tauri-v2");
    assert_eq!(store.find_skill("tauri"), Err(SkillsError::SkillNotFound("tauri".to_string())));
    assert_eq!(store.find_group("starter"), Err(SkillsError::GroupNotFound("starter".to_string())));
}

#[test]
fn groups_add_and_remove_members() {
    let mut store = store();
    add(&mut store, "Tauri v2", "", &[]);
    add(&mut store, "Rust", "", &[]);
    let group = store.create_group("Starter".to_string(), Some("Base project skills".to_string()));
    assert_eq!(group.id, "starter");
    assert!(group.skill_ids.is_empty());
    assert_eq!(store.create_group("Starter".to_string(), None).id, "starter-2");

    let g = store.add_skill_to_group("starter", "tauri-v2").unwrap();
    assert_eq!(g.skill_ids, vec!["tauri-v2"]);
    let g = store.add_skill_to_group("STARTER", "Rust").unwrap();
    assert_eq!(g.skill_ids, vec!["tauri-v2", "rust"]);
    let again = store.add_skill_to_group("starter", "tauri-v2").unwrap();
    assert_eq!(again.skill_ids, vec!["tauri-v2", "rust"]);

    let g = store.remove_skill_from_group("starter", "tauri-v2").unwrap();
    assert_eq!(g.skill_ids, vec!["rust"]);
    let g = store.remove_skill_from_group("starter", "tauri-v2").unwrap();
    assert_eq!(g.skill_ids, vec!["rust"]);
    assert_eq!(store.catalog().groups[0].skill_ids, vec!["rust"]);
}

#[test]
fn group_errors_leave_the_catalog_unchanged() {
    let mut store = store();
    add(&mut store, "Rust", "", &[]);
    store.create_group("Starter".to_string(), None);
    let before = store.catalog().clone();
    assert_eq!(
        store.add_skill_to_group("starter", "nope"),
        Err(SkillsError::SkillNotFound("nope".to_string()))
    );
    assert_eq!(
        store.add_skill_to_group("nope", "rust"),
        Err(SkillsError::GroupNotFound("nope".to_string()))
    );
    assert_eq!(
        store.remove_skill_from_group("starter", "nope"),
        Err(SkillsError::SkillNotFound("nope".to_string()))
    );
    assert_eq!(store.delete_group("nope"), Err(SkillsError::GroupNotFound("nope".to_string())));
    assert_eq!(store.delete_skill("nope"), Err(SkillsError::SkillNotFound("nope".to_string())));
    assert_eq!(store.catalog(), &before);
}

#[test]
fn deleting_a_skill_drops_it_from_groups() {
    let mut store = store();
    add(&mut store, "Tauri v2", "", &[]);
    add(&mut store, "Rust", "", &[]);
    store.create_group("Starter".to_string(), None);
    store.create_group("Other".to_string(), None);
    store.add_skill_to_group("starter", "tauri-v2").unwrap();
    store.add_skill_to_group("starter", "rust").unwrap();
    store.add_skill_to_group("other", "tauri-v2").unwrap();

    let removed = store.delete_skill("Tauri V2").unwrap();
    assert_eq!(removed.id, "tauri-v2");
    assert_eq!(store.catalog().skills.len(), 1);
    assert_eq!(store.catalog().groups[0].skill_ids, vec!["rust"]);
    assert!(store.catalog().groups[1].skill_ids.is_empty());
}

#[test]
fn deleting_a_group() {
    let mut store = store();
    store.create_group("Starter".to_string(), None);
    store.create_group("Other".to_string(), None);
    let deleted = store.delete_group("Starter").unwrap();
    assert_eq!(deleted.id, "starter");
    assert_eq!(store.catalog().groups.len(), 1);
    assert_eq!(store.catalog().groups[0].id, "other");
}

#[test]
fn library_folders_are_removed_only_inside_the_store() {
    let store = SkillsStore::open("data".to_string(), None);
    let mut skill = skills_core::parse_skill_folder(
        "data/library/skills/tool",
        skills_core::SkillFrontmatter { name: None, description: None, version: None, tags: None },
    );
    assert_eq!(store.library_folder_to_remove(&skill).as_deref(), Some("data/library/skills/tool"));
    skill.library_path = Some("elsewhere/tool".to_string());
    assert_eq!(store.library_folder_to_remove(&skill), None);
    skill.library_path = None;
    assert_eq!(store.library_folder_to_remove(&skill), None);
}

#[test]
fn the_first_skill_a_reference_names_wins() {
    let mut store = store();
    assert_eq!(add(&mut store, "X", "first", &[]), "x");
    assert_eq!(add(&mut store, "x", "second", &[]), "x-2");
    assert_eq!(store.find_skill("x").unwrap().description, "first");
    assert_eq!(store.find_skill("x-2").unwrap().description, "second");
}

#[test]
fn operations_keep_ids_distinct_and_members_valid() {
    let mut store = store();
    for name in ["Alpha", "alpha", "ALPHA!", "Beta"] {
        add(&mut store, name, "", &[]);
    }
    store.create_group("Team".to_string(), None);
    store.create_group("team".to_string(), None);
    store.add_skill_to_group("team", "alpha-2").unwrap();
    store.add_skill_to_group("team-2", "beta").unwrap();
    store.add_skill_to_group("team", "alpha-2").unwrap();
    store.delete_skill("beta").unwrap();

    let catalog = store.catalog();
    let ids: Vec<&str> = catalog.skills.iter().map(|s| s.id.as_str()).collect();
    assert_eq!(ids, vec!["alpha", "alpha-2", "alpha-3"]);
    let group_ids: Vec<&str> = catalog.groups.iter().map(|g| g.id.as_str()).collect();
    assert_eq!(group_ids, vec!["team", "team-2"]);
    assert_eq!(catalog.groups[0].skill_ids, vec!["alpha-2"]);
    assert!(catalog.groups[1].skill_ids.is_empty());
    for group in &catalog.groups {
        for member in &group.skill_ids {
            assert!(ids.contains(&member.as_str()));
        }
    }
}

#[test]
fn unique_ids_skip_taken_suffixes() {
    let taken: Vec<String> = ["a", "a-2", "a-3", "a-10"].iter().map(|s| s.to_string()).collect();
    assert_eq!(skills_core::ids::unique_id(&"a".to_string(), &taken), "a-4");
    assert_eq!(skills_core::ids::unique_id(&"b".to_string(), &taken), "b");
    assert_eq!(skills_core::ids::unique_id(&"a-2".to_string(), &taken), "a-2-2");
    let many: Vec<String> = (0..12).map(|i| if i == 0 { "z".to_string() } else { format!("z-{}", i + 1) }).collect();
    assert_eq!(skills_core::ids::unique_id(&"z".to_string(), &many), "z-13");
}

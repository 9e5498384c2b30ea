use std::path::Path;

use skills_core::{
    command_mode_without_prompt, command_preview_for_skill, confirms_commands, discover_skill_folders,
    install_action, install_destination, parse_skill_folder, project_skills_dir, replace_existing_target,
    resolve_target_dir, CommandExecutionMode, InstallAction, Installation, InstallationOutcome, Skill, SkillFrontmatter,
    SkillsError, SkillsStore,
};

fn local(folder: &str, name: &str) -> Skill {
    parse_skill_folder(
        folder,
        SkillFrontmatter { name: Some(name.to_string()), description: None, version: None, tags: None },
    )
}

fn store_with_skills() -> SkillsStore {
    let mut store = SkillsStore::open("data".to_string(), None);
    store.import_path("src", vec![local("src/ship", "Ship Me")]).unwrap();
    store.add_command_skill("Echo Skill".to_string(), "Runs echo".to_string(), "echo ok".to_string(), vec![]);
    store.create_group("Starter".to_string(), None);
    store.add_skill_to_group("starter", "ship-me").unwrap();
    store.add_skill_to_group("starter", "echo-skill").unwrap();
    store
}

#[test]
fn target_dir_defaults_to_project_agents_skills() {
    assert_eq!(resolve_target_dir(Some("proj"), Some("custom")).as_deref(), Some("custom"));
    let dir = resolve_target_dir(Some("proj"), None).unwrap();
    assert_eq!(Path::new(&dir), Path::new("proj").join(".agents").join("skills"));
    assert_eq!(resolve_target_dir(None, None), None);
    assert_eq!(Path::new(&project_skills_dir("p")), Path::new("p").join(".agents").join("skills"));
}

#[test]
fn previews_list_command_skills_only() {
    let store = store_with_skills();
    assert!(store.preview_skill_commands("ship-me").unwrap().is_empty());
    let previews = store.preview_skill_commands("echo-skill").unwrap();
    assert_eq!(previews.len(), 1);
    assert_eq!(previews[0].command, "echo ok");
    assert_eq!(previews[0].skill_name, "Echo Skill");
    let group = store.preview_group_commands("starter").unwrap();
    assert_eq!(group, previews);
    assert_eq!(
        store.preview_group_commands("nope"),
        Err(SkillsError::GroupNotFound("nope".to_string()))
    );
    assert_eq!(command_preview_for_skill(&store.catalog().skills[0]), None);
}

#[test]
fn group_plan_stops_at_a_missing_member() {
    let mut store = store_with_skills();
    let plan = store.install_group("starter").unwrap();
    assert_eq!(plan.skills.len(), 2);
    assert_eq!(plan.stopped_by, None);

    let mut catalog = store.catalog().clone();
    catalog.groups[0].skill_ids.insert(1, "ghost".to_string());
    store = SkillsStore::open("data".to_string(), Some(catalog));
    let plan = store.install_group("starter").unwrap();
    assert_eq!(plan.skills.len(), 1);
    assert_eq!(plan.stopped_by, Some(SkillsError::SkillNotFound("ghost".to_string())));
    assert_eq!(store.preview_group_commands("starter"), Err(SkillsError::SkillNotFound("ghost".to_string())));
    assert_eq!(store.install_skill("ghost").err(), Some(SkillsError::SkillNotFound("ghost".to_string())));
}

#[test]
fn local_skills_are_copied_into_the_target() {
    let skill = local("data/library/skills/ship-me", "Ship Me");
    let dest = install_destination(&skill, "proj/.agents/skills").unwrap();
    assert_eq!(Path::new(&dest), Path::new("proj/.agents/skills").join("ship-me"));

    match install_action(&skill, "proj/.agents/skills", false, CommandExecutionMode::PreviewOnly, false).unwrap() {
        InstallAction::CopyFolder { source, destination, replace_existing, installed } => {
            assert_eq!(source, "data/library/skills/ship-me");
            assert_eq!(destination, dest);
            assert!(!replace_existing);
            assert_eq!(installed.target_path.as_deref(), Some(dest.as_str()));
            assert!(installed.executed);
        }
        _ => panic!("expected a copy"),
    }
    match install_action(&skill, "proj/.agents/skills", true, CommandExecutionMode::PreviewOnly, true).unwrap() {
        InstallAction::CopyFolder { replace_existing, .. } => assert!(replace_existing),
        _ => panic!("expected a copy"),
    }
}

#[test]
fn refuses_overwrite_without_flag() {
    let skill = local("data/library/skills/existing", "Existing");
    let dest = install_destination(&skill, "proj").unwrap();
    let refused = install_action(&skill, "proj", false, CommandExecutionMode::PreviewOnly, true);
    assert_eq!(refused.err(), Some(SkillsError::TargetExists(dest.clone())));
    assert_eq!(replace_existing_target(&dest, true, false), Err(SkillsError::TargetExists(dest.clone())));
    assert_eq!(replace_existing_target(&dest, true, true), Ok(true));
    assert_eq!(replace_existing_target(&dest, false, false), Ok(false));
}

#[test]
fn local_skill_without_folder_is_invalid() {
    let mut skill = local("x", "No Folder");
    skill.library_path = None;
    assert_eq!(install_destination(&skill, "proj"), None);
    assert_eq!(
        install_action(&skill, "proj", false, CommandExecutionMode::Captured, false).err(),
        Some(SkillsError::InvalidSkillFolder("No Folder has no local folder".to_string()))
    );
    let mut store = SkillsStore::open("data".to_string(), None);
    store.import_path("src", vec![local("src/x", "No Folder")]).unwrap();
    let mut catalog = store.catalog().clone();
    catalog.skills[0].library_path = None;
    let store = SkillsStore::open("data".to_string(), Some(catalog));
    assert_eq!(
        store.export_skill("no-folder", "out").err().unwrap(),
        SkillsError::InvalidSkillFolder("No Folder has no local folder to export".to_string())
    );
}

#[test]
fn command_skills_are_previewed_or_run() {
    let store = store_with_skills();
    let skill = store.find_skill("echo-skill").unwrap().clone();
    assert_eq!(install_destination(&skill, "proj"), None);
    let mut outcome = InstallationOutcome::new("proj".to_string());
    match install_action(&skill, "proj", false, CommandExecutionMode::PreviewOnly, false).unwrap() {
        InstallAction::PreviewCommand(p) => {
            assert_eq!(p.command, "echo ok");
            outcome.record(InstallAction::PreviewCommand(p));
        }
        _ => panic!("expected a preview"),
    }
    match install_action(&skill, "proj", false, CommandExecutionMode::Captured, false).unwrap() {
        InstallAction::RunCommand { command, captured, installed } => {
            assert_eq!(command, "echo ok");
            assert!(captured);
            assert_eq!(installed.command.as_deref(), Some("echo ok"));
            assert_eq!(installed.target_path, None);
            outcome.record(InstallAction::RunCommand { command, captured, installed });
        }
        _ => panic!("expected a command"),
    }
    match install_action(&skill, "proj", false, CommandExecutionMode::InteractiveTerminal, false).unwrap() {
        InstallAction::RunCommand { captured, .. } => assert!(!captured),
        _ => panic!("expected a command"),
    }
    assert_eq!(outcome.command_previews.len(), 1);
    assert_eq!(outcome.installed_skills.len(), 1);
    assert_eq!(outcome.target_dir, "proj");
}

#[test]
fn exports_into_the_output_folder() {
    let store = store_with_skills();
    let copy = store.export_skill("ship-me", "out").unwrap();
    assert!(Path::new(&copy.source).starts_with(Path::new("data").join("library").join("skills")));
    assert_eq!(Path::new(&copy.destination), Path::new("out").join("ship-me"));
    assert_eq!(store.export_skill("nope", "out").err(), Some(SkillsError::SkillNotFound("nope".to_string())));
}

#[test]
fn command_mode_and_confirmation() {
    assert_eq!(command_mode_without_prompt(false, false), Some(CommandExecutionMode::PreviewOnly));
    assert_eq!(command_mode_without_prompt(false, true), Some(CommandExecutionMode::PreviewOnly));
    assert_eq!(command_mode_without_prompt(true, true), Some(CommandExecutionMode::InteractiveTerminal));
    assert_eq!(command_mode_without_prompt(true, false), None);
    assert!(confirms_commands("y\n"));
    assert!(confirms_commands("  YES "));
    assert!(!confirms_commands("no"));
    assert!(!confirms_commands(""));
    assert!(!confirms_commands("yess"));
}

#[test]
fn discovered_folders_are_sorted_by_path() {
    let nested = vec!["root/b/two".to_string(), "root/a-c".to_string(), "root/a/one".to_string()];
    assert_eq!(
        discover_skill_folders("root", false, nested),
        vec!["root/a/one".to_string(), "root/a-c".to_string(), "root/b/two".to_string()]
    );
    assert_eq!(discover_skill_folders("root", true, vec!["x".to_string()]), vec!["root".to_string()]);
}

#[test]
fn preview_install_of_a_group_lists_its_commands() {
    let store = store_with_skills();
    let plan = store.install_group("starter").unwrap();
    let mut run = Installation::start(plan, "proj".to_string(), false, CommandExecutionMode::PreviewOnly);
    let mut taken = Vec::new();
    while let Some(skill) = run.next_skill() {
        taken.push(skill.id.clone());
        let action = run.advance(false).unwrap().unwrap();
        assert!(!matches!(action, InstallAction::RunCommand { .. }));
    }
    assert_eq!(taken, vec!["ship-me", "echo-skill"]);
    assert!(run.advance(false).unwrap().is_none());
    let outcome = run.finish().unwrap();
    assert_eq!(outcome.target_dir, "proj");
    assert_eq!(outcome.command_previews, store.preview_group_commands("starter").unwrap());
    let installed: Vec<&str> = outcome.installed_skills.iter().map(|i| i.skill_id.as_str()).collect();
    assert_eq!(installed, vec!["ship-me"]);
    assert_eq!(
        outcome.installed_skills[0].target_path.as_deref().map(Path::new),
        Some(Path::new("proj").join("ship-me").as_path())
    );
}

#[test]
fn installation_refuses_an_existing_destination() {
    let store = store_with_skills();
    let plan = store.install_skill("ship-me").unwrap();
    let mut run = Installation::start(plan, "proj".to_string(), false, CommandExecutionMode::Captured);
    let expected = Path::new("proj").join("ship-me").to_string_lossy().into_owned();
    assert_eq!(run.advance(true).err(), Some(SkillsError::TargetExists(expected)));
    assert_eq!(run.next_skill().map(|s| s.id.clone()), Some("ship-me".to_string()));
    match run.advance(false).unwrap() {
        Some(InstallAction::CopyFolder { replace_existing, .. }) => assert!(!replace_existing),
        _ => panic!("expected a copy"),
    }
    assert!(run.next_skill().is_none());
    assert_eq!(run.finish().unwrap().installed_skills.len(), 1);
}

#[test]
fn installation_runs_commands_in_captured_mode() {
    let store = store_with_skills();
    let plan = store.install_group("starter").unwrap();
    let mut run = Installation::start(plan, "proj".to_string(), true, CommandExecutionMode::Captured);
    run.advance(true).unwrap();
    match run.advance(false).unwrap() {
        Some(InstallAction::RunCommand { command, captured, .. }) => {
            assert_eq!(command, "echo ok");
            assert!(captured);
        }
        _ => panic!("expected a command"),
    }
    let outcome = run.finish().unwrap();
    assert!(outcome.command_previews.is_empty());
    assert_eq!(outcome.installed_skills[1].command.as_deref(), Some("echo ok"));
}

#[test]
fn installation_ends_with_a_missing_member() {
    let mut catalog = store_with_skills().catalog().clone();
    catalog.groups[0].skill_ids.insert(1, "ghost".to_string());
    let store = SkillsStore::open("data".to_string(), Some(catalog));
    let plan = store.install_group("starter").unwrap();
    assert_eq!(plan.skills.len(), 1);
    let mut run = Installation::start(plan, "proj".to_string(), false, CommandExecutionMode::PreviewOnly);
    while run.next_skill().is_some() {
        run.advance(false).unwrap();
    }
    assert_eq!(run.finish().err(), Some(SkillsError::SkillNotFound("ghost".to_string())));
}

#[test]
fn a_longer_query_finds_a_subsequence() {
    let mut store = SkillsStore::open("data".to_string(), None);
    for name in ["Tauri", "Tauri Desktop", "Desktop", "Taurine"] {
        store.add_command_skill(name.to_string(), String::new(), "x".to_string(), vec![]);
    }
    let short: Vec<String> = store.search("taur").into_iter().map(|s| s.name).collect();
    let long: Vec<String> = store.search(" TAURI D ").into_iter().map(|s| s.name).collect();
    assert_eq!(short, vec!["Tauri", "Tauri Desktop", "Taurine"]);
    assert_eq!(long, vec!["Tauri Desktop"]);
}

//! A catalog of agent skills: local skill folders and command skills, grouped
//! into installable sets, searched, and installed into projects.
//!
//! The library holds the catalog's rules; reading and writing files, running
//! commands and asking the user are left to the caller, which hands the library
//! what it found and carries out what the library decides.

pub mod frontmatter;
pub mod ids;
pub mod install;
pub mod installation;
pub mod laws;
pub mod model;
pub mod paths;
pub mod slug;
pub mod store;
pub mod text;

pub use frontmatter::{frontmatter_block, parse_skill_folder, SkillFrontmatter};
pub use install::{
    command_mode_without_prompt, command_preview_for_skill, confirms_commands, install_action,
    install_destination, replace_existing_target, FolderCopy, InstallAction, InstallPlan,
};
pub use installation::Installation;
pub use model::{
    Catalog, CommandExecutionMode, InstallCommandPreview, InstallationOutcome, InstalledSkill, Skill,
    SkillGroup, SkillsError, SourceType, SCHEMA_VERSION,
};
pub use paths::{
    classify_walk_entry, discover_skill_folders, WalkEntry, project_skills_dir, resolve_target_dir, AppPaths, APP_IDENTIFIER,
    SKILL_FILE_NAME,
};
pub use slug::slugify;
pub use store::SkillsStore;

use vstd::prelude::*;

use crate::model::SkillsError;

verus! {

/// The identifier of the application, also the name of its data folder.
pub const APP_IDENTIFIER: &'static str = "dev.skillslist.app";

/// The file that marks a folder as a skill.
pub const SKILL_FILE_NAME: &'static str = "SKILL.md";

/// What `Path::join` gives for a base path and a segment, as text: the segment
/// adjoined to the base with the platform's separator, or the segment alone
/// where it is absolute.
pub uninterp spec fn joined_path(base: Seq<char>, segment: Seq<char>) -> Seq<char>;

/// What `Path::starts_with` answers: whether `base` is a prefix of `path`,
/// comparing whole path components.
pub uninterp spec fn path_has_prefix(path: Seq<char>, base: Seq<char>) -> bool;

/// A single plain path component: not empty, neither `.` nor `..`, and free of
/// the characters that separate components or mark a drive (`/`, `\`, `:`).
pub open spec fn plain_segment(s: Seq<char>) -> bool {
    &&& s.len() > 0
    &&& s != seq!['.']
    &&& s != seq!['.', '.']
    &&& forall|i: int| 0 <= i < s.len() ==> #[trigger] s[i] != '/' && s[i] != '\\' && s[i] != ':'
}

/// Calls `Path::join` on `base` with `segment` and gives the result as text.
/// Both arguments are valid UTF-8, so the text conversion loses nothing. The
/// result is named; of a plain segment, which `join` appends to the base as one
/// more component, it also says that the base is a component-wise prefix of
/// the result (`Path::starts_with`) and that the segment is its final
/// component (`Path::file_name`). Which separator is used, and how other
/// segments (absolute ones among them) are treated, is left to std.
#[verifier::external_body]
pub(crate) fn path_join(base: &str, segment: &str) -> (joined: String)
    ensures
        joined@ == joined_path(base@, segment@),
        plain_segment(segment@) ==> path_has_prefix(joined@, base@) && path_file_name(joined@) == Some(segment@),
{
    std::path::Path::new(base).join(segment).to_string_lossy().into_owned()
}

/// Calls `Path::starts_with`: whether `base` is a component-wise prefix of `path`.
/// The answer is named, not described.
#[verifier::external_body]
pub(crate) fn path_starts_with(path: &str, base: &str) -> (r: bool)
    ensures
        r == path_has_prefix(path@, base@),
{
    std::path::Path::new(path).starts_with(base)
}

/// The files and folders of a catalog kept in one data folder.
#[derive(Clone, Debug)]
pub struct AppPaths {
    pub data_dir: String,
    pub catalog_path: String,
    pub library_dir: String,
    pub skills_dir: String,
}

impl AppPaths {
    /// The layout under `data_dir`: `catalog.json`, `library` and `library/skills`.
    pub open spec fn is_layout_of(self, data_dir: Seq<char>) -> bool {
        &&& self.data_dir@ == data_dir
        &&& self.catalog_path@ == joined_path(data_dir, "catalog.json"@)
        &&& self.library_dir@ == joined_path(data_dir, "library"@)
        &&& self.skills_dir@ == joined_path(joined_path(data_dir, "library"@), "skills"@)
    }

    /// The paths of a catalog kept in `data_dir`.
    pub fn from_data_dir(data_dir: String) -> (paths: AppPaths)
        ensures
            paths.is_layout_of(data_dir@),
    {
        let catalog_path = path_join(data_dir.as_str(), "catalog.json");
        let library_dir = path_join(data_dir.as_str(), "library");
        let skills_dir = path_join(library_dir.as_str(), "skills");
        AppPaths { data_dir, catalog_path, library_dir, skills_dir }
    }

    /// The default data folder: the application's folder under the platform's
    /// data folder, which the caller looks up (`None` where the platform has none).
    pub fn default_data_dir(platform_data_dir: Option<String>) -> (dir: Result<String, SkillsError>)
        ensures
            match platform_data_dir {
                Some(base) => dir matches Ok(d) && d@ == joined_path(base@, APP_IDENTIFIER@)
                    && path_has_prefix(d@, base@) && path_file_name(d@) == Some(APP_IDENTIFIER@),
                None => dir == Err::<String, SkillsError>(SkillsError::MissingDataDir),
            },
    {
        proof {
            reveal_strlit("dev.skillslist.app");
            let id = APP_IDENTIFIER@;
            assert(id == "dev.skillslist.app"@);
            assert(id.len() == 18);
            assert(id != seq!['.']);
            assert(id != seq!['.', '.']);
            assert(plain_segment(id));
        }
        match platform_data_dir {
            Some(base) => Ok(path_join(base.as_str(), APP_IDENTIFIER)),
            None => Err(SkillsError::MissingDataDir),
        }
    }
}

/// The folder of a project into which its skills are installed: `.agents/skills`.
pub open spec fn project_skills_dir_of(project: Seq<char>) -> Seq<char> {
    joined_path(joined_path(project, ".agents"@), "skills"@)
}

/// The folder of `project` into which its skills are installed.
pub fn project_skills_dir(project: &str) -> (dir: String)
    ensures
        dir@ == project_skills_dir_of(project@),
{
    let agents = path_join(project, ".agents");
    path_join(agents.as_str(), "skills")
}

/// Where an installation goes: the explicit target if there is one, else the
/// skills folder of the project. `None` means neither was given, and the skills
/// folder of the current directory is meant.
pub fn resolve_target_dir(project_path: Option<&str>, target_path: Option<&str>) -> (dir: Option<String>)
    ensures
        match (project_path, target_path) {
            (_, Some(t)) => dir matches Some(d) && d@ == t@,
            (Some(p), None) => dir matches Some(d) && d@ == project_skills_dir_of(p@),
            (None, None) => dir is None,
        },
{
    match target_path {
        Some(t) => Some(t.to_owned()),
        None => match project_path {
            Some(p) => Some(project_skills_dir(p)),
            None => None,
        },
    }
}

/// What `Path::file_name` gives for a path, as text: its final component,
/// where it has one that names a file or folder.
pub uninterp spec fn path_file_name(path: Seq<char>) -> Option<Seq<char>>;

/// The order in which `sort` on `PathBuf`s leaves a list of paths (compared
/// component by component).
pub uninterp spec fn sorted_paths(paths: Seq<Seq<char>>) -> Seq<Seq<char>>;

/// Whether `Path::new(a) < Path::new(b)` in `PathBuf`'s order (comparing
/// component by component).
pub uninterp spec fn path_precedes(a: Seq<char>, b: Seq<char>) -> bool;

/// Calls `Path::file_name` and gives its result as text. The path is valid
/// UTF-8, so its components are too and the conversion loses nothing. The
/// result is named, not described.
#[verifier::external_body]
pub(crate) fn file_name(path: &str) -> (name: Option<String>)
    ensures
        name.deep_view() == path_file_name(path@),
{
    std::path::Path::new(path).file_name().map(|n| n.to_string_lossy().into_owned())
}

/// Sorts paths by `Ord` on `PathBuf` (`slice::sort`, which is stable and sorts
/// in ascending order: no path is followed by one that comes before it). The
/// result holds the same paths: UTF-8 text converts to a path and back without
/// loss, and sorting only reorders. `PathBuf`'s order itself is named, not
/// described.
#[verifier::external_body]
pub(crate) fn sort_paths(paths: Vec<String>) -> (sorted: Vec<String>)
    ensures
        sorted.deep_view() == sorted_paths(paths.deep_view()),
        sorted.deep_view().to_multiset() == paths.deep_view().to_multiset(),
        forall|i: int, j: int|
            0 <= i < j < sorted.deep_view().len() ==> !path_precedes(
                #[trigger] sorted.deep_view()[j],
                #[trigger] sorted.deep_view()[i],
            ),
{
    let mut p: Vec<std::path::PathBuf> = paths.into_iter().map(std::path::PathBuf::from).collect();
    p.sort();
    p.into_iter().map(|x| x.to_string_lossy().into_owned()).collect()
}

/// The skill folders under a root: the root alone where it is a skill folder
/// itself, else the nested skill folders found below it, sorted. The caller
/// walks the folders and finds `nested`.
pub fn discover_skill_folders(root: &str, root_is_skill: bool, nested: Vec<String>) -> (folders: Vec<String>)
    ensures
        root_is_skill ==> folders.deep_view() == seq![root@],
        !root_is_skill ==> folders.deep_view() == sorted_paths(nested.deep_view())
            && folders.deep_view().to_multiset() == nested.deep_view().to_multiset()
            && forall|i: int, j: int|
            0 <= i < j < folders.deep_view().len() ==> !path_precedes(
                #[trigger] folders.deep_view()[j],
                #[trigger] folders.deep_view()[i],
            ),
{
    if root_is_skill {
        let mut folders: Vec<String> = Vec::new();
        folders.push(root.to_owned());
        assert(folders.deep_view() =~= seq![root@]);
        return folders;
    }
    sort_paths(nested)
}

/// What a walk for skill folders does with an entry of a folder.
#[derive(Clone, Copy, Debug, PartialEq, Eq, Structural)]
pub enum WalkEntry {
    /// Not a folder: passed over.
    Skip,
    /// A folder holding a `SKILL.md` file: a skill folder, not walked further.
    SkillFolder,
    /// Any other folder: walked in turn.
    Descend,
}

/// How a walk for skill folders treats an entry, given whether it is a folder
/// and whether it holds a `SKILL.md` file.
pub fn classify_walk_entry(is_dir: bool, holds_skill_file: bool) -> (entry: WalkEntry)
    ensures
        !is_dir ==> entry == WalkEntry::Skip,
        is_dir && holds_skill_file ==> entry == WalkEntry::SkillFolder,
        is_dir && !holds_skill_file ==> entry == WalkEntry::Descend,
{
    if !is_dir {
        WalkEntry::Skip
    } else if holds_skill_file {
        WalkEntry::SkillFolder
    } else {
        WalkEntry::Descend
    }
}

} // verus!

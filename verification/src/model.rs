use vstd::prelude::*;

use crate::text::eq_ignore_ascii_case;

verus! {

/// The version of the catalog's stored layout that this library writes.
pub const SCHEMA_VERSION: u32 = 1;

/// Where a skill comes from.
#[derive(Clone, Copy, Debug, PartialEq, Eq, Structural)]
pub enum SourceType {
    /// A folder copied into the library.
    Local,
    /// An external command that installs the skill.
    Command,
}

/// One entry of the catalog. Paths are held as the text of the path.
#[derive(Debug, PartialEq, Eq)]
pub struct Skill {
    pub id: String,
    pub name: String,
    pub description: String,
    pub version: Option<String>,
    pub source_type: SourceType,
    pub library_path: Option<String>,
    pub install_command: Option<String>,
    pub tags: Vec<String>,
}

/// The mathematical value of a [`Skill`].
#[verifier::ext_equal]
pub struct SkillView {
    pub id: Seq<char>,
    pub name: Seq<char>,
    pub description: Seq<char>,
    pub version: Option<Seq<char>>,
    pub source_type: SourceType,
    pub library_path: Option<Seq<char>>,
    pub install_command: Option<Seq<char>>,
    pub tags: Seq<Seq<char>>,
}

impl DeepView for Skill {
    type V = SkillView;

    open spec fn deep_view(&self) -> SkillView {
        SkillView {
            id: self.id@,
            name: self.name@,
            description: self.description@,
            version: self.version.deep_view(),
            source_type: self.source_type,
            library_path: self.library_path.deep_view(),
            install_command: self.install_command.deep_view(),
            tags: self.tags.deep_view(),
        }
    }
}

impl View for Skill {
    type V = SkillView;

    open spec fn view(&self) -> SkillView {
        self.deep_view()
    }
}

/// A named set of skills that is installed together.
#[derive(Debug, PartialEq, Eq)]
pub struct SkillGroup {
    pub id: String,
    pub name: String,
    pub description: Option<String>,
    pub skill_ids: Vec<String>,
}

/// The mathematical value of a [`SkillGroup`].
#[verifier::ext_equal]
pub struct GroupView {
    pub id: Seq<char>,
    pub name: Seq<char>,
    pub description: Option<Seq<char>>,
    pub skill_ids: Seq<Seq<char>>,
}

impl DeepView for SkillGroup {
    type V = GroupView;

    open spec fn deep_view(&self) -> GroupView {
        GroupView {
            id: self.id@,
            name: self.name@,
            description: self.description.deep_view(),
            skill_ids: self.skill_ids.deep_view(),
        }
    }
}

impl View for SkillGroup {
    type V = GroupView;

    open spec fn view(&self) -> GroupView {
        self.deep_view()
    }
}

/// All skills and groups that the store keeps.
#[derive(Clone, Debug, PartialEq, Eq)]
pub struct Catalog {
    pub schema_version: u32,
    pub skills: Vec<Skill>,
    pub groups: Vec<SkillGroup>,
}

/// The mathematical value of a [`Catalog`].
#[verifier::ext_equal]
pub struct CatalogView {
    pub schema_version: u32,
    pub skills: Seq<SkillView>,
    pub groups: Seq<GroupView>,
}

impl View for Catalog {
    type V = CatalogView;

    open spec fn view(&self) -> CatalogView {
        CatalogView {
            schema_version: self.schema_version,
            skills: self.skills.deep_view(),
            groups: self.groups.deep_view(),
        }
    }
}

impl Default for Catalog {
    fn default() -> (c: Self)
        ensures
            c@.schema_version == SCHEMA_VERSION,
            c@.skills.len() == 0,
            c@.groups.len() == 0,
    {
        Catalog { schema_version: SCHEMA_VERSION, skills: Vec::new(), groups: Vec::new() }
    }
}

/// A command that installing a command skill would run.
#[derive(Clone, Debug, PartialEq, Eq)]
pub struct InstallCommandPreview {
    pub skill_id: String,
    pub skill_name: String,
    pub command: String,
}

/// The mathematical value of an [`InstallCommandPreview`].
pub struct PreviewView {
    pub skill_id: Seq<char>,
    pub skill_name: Seq<char>,
    pub command: Seq<char>,
}

impl DeepView for InstallCommandPreview {
    type V = PreviewView;

    open spec fn deep_view(&self) -> PreviewView {
        PreviewView { skill_id: self.skill_id@, skill_name: self.skill_name@, command: self.command@ }
    }
}

/// A skill that an installation has put in place.
#[derive(Clone, Debug, PartialEq, Eq)]
pub struct InstalledSkill {
    pub skill_id: String,
    pub skill_name: String,
    pub target_path: Option<String>,
    pub command: Option<String>,
    pub executed: bool,
}

/// The mathematical value of an [`InstalledSkill`].
pub struct InstalledView {
    pub skill_id: Seq<char>,
    pub skill_name: Seq<char>,
    pub target_path: Option<Seq<char>>,
    pub command: Option<Seq<char>>,
    pub executed: bool,
}

impl DeepView for InstalledSkill {
    type V = InstalledView;

    open spec fn deep_view(&self) -> InstalledView {
        InstalledView {
            skill_id: self.skill_id@,
            skill_name: self.skill_name@,
            target_path: self.target_path.deep_view(),
            command: self.command.deep_view(),
            executed: self.executed,
        }
    }
}

/// What an installation did: the target folder, the skills put in place and
/// the commands only previewed.
#[derive(Clone, Debug, PartialEq, Eq)]
pub struct InstallationOutcome {
    pub target_dir: String,
    pub installed_skills: Vec<InstalledSkill>,
    pub command_previews: Vec<InstallCommandPreview>,
}

/// How the commands of command skills are treated during an installation.
#[derive(Clone, Copy, Debug, PartialEq, Eq, Structural)]
pub enum CommandExecutionMode {
    /// Commands are listed, not run.
    PreviewOnly,
    /// Commands run with their output captured.
    Captured,
    /// Commands run attached to the terminal.
    InteractiveTerminal,
}

/// A copy of an optional string that keeps its value.
pub(crate) fn clone_opt_string(s: &Option<String>) -> (r: Option<String>)
    ensures
        r.deep_view() == s.deep_view(),
{
    match s {
        Some(t) => Some(t.clone()),
        None => None,
    }
}

/// A copy of a list of strings that keeps its value.
pub(crate) fn clone_strings(v: &Vec<String>) -> (r: Vec<String>)
    ensures
        r.deep_view() == v.deep_view(),
{
    let r = v.clone();
    assert(r.deep_view() =~= v.deep_view());
    r
}

impl Clone for Skill {
    fn clone(&self) -> (r: Self)
        ensures
            r@ == self@,
    {
        Skill {
            id: self.id.clone(),
            name: self.name.clone(),
            description: self.description.clone(),
            version: clone_opt_string(&self.version),
            source_type: self.source_type,
            library_path: clone_opt_string(&self.library_path),
            install_command: clone_opt_string(&self.install_command),
            tags: clone_strings(&self.tags),
        }
    }
}

impl Clone for SkillGroup {
    fn clone(&self) -> (r: Self)
        ensures
            r@ == self@,
    {
        SkillGroup {
            id: self.id.clone(),
            name: self.name.clone(),
            description: clone_opt_string(&self.description),
            skill_ids: clone_strings(&self.skill_ids),
        }
    }
}

/// The errors of the library.
#[derive(Clone, Debug, PartialEq, Eq)]
pub enum SkillsError {
    Io(String),
    Json(String),
    Yaml(String),
    SkillNotFound(String),
    GroupNotFound(String),
    InvalidSkillFolder(String),
    TargetExists(String),
    CommandFailed(String),
    MissingDataDir,
}

/// The error for a skill reference that names no skill.
pub open spec fn is_skill_not_found(e: SkillsError, reference: Seq<char>) -> bool {
    e matches SkillsError::SkillNotFound(m) && m@ == reference
}

/// The error for a group reference that names no group.
pub open spec fn is_group_not_found(e: SkillsError, reference: Seq<char>) -> bool {
    e matches SkillsError::GroupNotFound(m) && m@ == reference
}

/// A reference names a skill by its exact id or, ignoring ASCII case, by its name.
pub open spec fn skill_matches(skill: SkillView, reference: Seq<char>) -> bool {
    skill.id == reference || eq_ignore_ascii_case(skill.name, reference)
}

/// A reference names a group by its exact id or, ignoring ASCII case, by its name.
pub open spec fn group_matches(group: GroupView, reference: Seq<char>) -> bool {
    group.id == reference || eq_ignore_ascii_case(group.name, reference)
}

/// The position of the first element of `s` that satisfies `p`, if any.
pub open spec fn first_index<A>(s: Seq<A>, p: spec_fn(A) -> bool) -> Option<int>
    decreases s.len(),
{
    if s.len() == 0 {
        None
    } else if p(s[0]) {
        Some(0)
    } else {
        match first_index(s.drop_first(), p) {
            Some(i) => Some(i + 1),
            None => None,
        }
    }
}

/// `first_index` finds the least position that satisfies `p`, and finds none
/// exactly when no position does.
pub proof fn lemma_first_index<A>(s: Seq<A>, p: spec_fn(A) -> bool)
    ensures
        match first_index(s, p) {
            Some(i) => 0 <= i < s.len() && p(s[i]) && forall|j: int| 0 <= j < i ==> !p(#[trigger] s[j]),
            None => forall|j: int| 0 <= j < s.len() ==> !p(#[trigger] s[j]),
        },
    decreases s.len(),
{
    if s.len() > 0 && !p(s[0]) {
        lemma_first_index(s.drop_first(), p);
        match first_index(s.drop_first(), p) {
            Some(i) => {
                assert forall|j: int| 0 <= j < i + 1 implies !p(#[trigger] s[j]) by {
                    if j > 0 {
                        assert(s[j] == s.drop_first()[j - 1]);
                    }
                }
            },
            None => {
                assert forall|j: int| 0 <= j < s.len() implies !p(#[trigger] s[j]) by {
                    if j > 0 {
                        assert(s[j] == s.drop_first()[j - 1]);
                    }
                }
            },
        }
    }
}

/// The value of a list after a push is the old value with the new element's.
pub proof fn lemma_deep_view_push<T: DeepView>(before: Vec<T>, after: Vec<T>, x: T)
    requires
        after@ == before@.push(x),
    ensures
        after.deep_view() == before.deep_view().push(x.deep_view()),
{
    assert(after.deep_view() =~= before.deep_view().push(x.deep_view()));
}

/// The value of a list after one element is replaced.
pub proof fn lemma_deep_view_update<T: DeepView>(before: Vec<T>, after: Vec<T>, i: int, x: T)
    requires
        0 <= i < before@.len(),
        after@ == before@.update(i, x),
    ensures
        after.deep_view() == before.deep_view().update(i, x.deep_view()),
{
    assert(after.deep_view() =~= before.deep_view().update(i, x.deep_view()));
}

/// The value of a list after one element is removed.
pub proof fn lemma_deep_view_remove<T: DeepView>(before: Vec<T>, after: Vec<T>, i: int)
    requires
        0 <= i < before@.len(),
        after@ == before@.remove(i),
    ensures
        after.deep_view() == before.deep_view().remove(i),
{
    assert(after.deep_view() =~= before.deep_view().remove(i));
}

/// The least position that satisfies `p` is what `first_index` finds.
pub proof fn lemma_first_index_is<A>(s: Seq<A>, p: spec_fn(A) -> bool, i: int)
    requires
        0 <= i < s.len(),
        p(s[i]),
        forall|j: int| 0 <= j < i ==> !p(#[trigger] s[j]),
    ensures
        first_index(s, p) == Some(i),
{
    lemma_first_index(s, p);
    match first_index(s, p) {
        Some(k) => {
            if k < i {
                assert(!p(s[k]));
            } else if k > i {
                assert(!p(s[i]));
            }
        },
        None => {
            assert(!p(s[i]));
        },
    }
}

/// Where no position satisfies `p`, `first_index` finds none.
pub proof fn lemma_first_index_none<A>(s: Seq<A>, p: spec_fn(A) -> bool)
    requires
        forall|j: int| 0 <= j < s.len() ==> !p(#[trigger] s[j]),
    ensures
        first_index(s, p) is None,
{
    lemma_first_index(s, p);
    if let Some(k) = first_index(s, p) {
        assert(p(s[k]));
    }
}

/// The position of the first skill that `reference` names.
pub open spec fn skill_position(skills: Seq<SkillView>, reference: Seq<char>) -> Option<int> {
    first_index(skills, |s: SkillView| skill_matches(s, reference))
}

/// The position of the first group that `reference` names.
pub open spec fn group_position(groups: Seq<GroupView>, reference: Seq<char>) -> Option<int> {
    first_index(groups, |g: GroupView| group_matches(g, reference))
}

} // verus!

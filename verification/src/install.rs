use vstd::prelude::*;

use crate::model::{
    group_position, is_group_not_found, is_skill_not_found, skill_position, CommandExecutionMode,
    InstallCommandPreview, InstallationOutcome, InstalledSkill, InstalledView, PreviewView, Skill,
    SkillView, SkillsError, SourceType, lemma_deep_view_push,
};
use crate::paths::{joined_path, path_file_name, path_has_prefix, path_join, path_starts_with, plain_segment};
use crate::store::{skill_index, SkillsStore};

verus! {

/// The command of a skill, empty where it has none.
pub open spec fn command_text(skill: SkillView) -> Seq<char> {
    match skill.install_command {
        Some(c) => c,
        None => Seq::empty(),
    }
}

/// The command that installing `skill` would run, for command skills only.
pub open spec fn preview_of(skill: SkillView) -> Option<PreviewView> {
    if skill.source_type == SourceType::Command {
        Some(PreviewView { skill_id: skill.id, skill_name: skill.name, command: command_text(skill) })
    } else {
        None
    }
}

/// The previews of the command skills among `skills`, in order.
pub open spec fn previews_of(skills: Seq<SkillView>) -> Seq<PreviewView>
    decreases skills.len(),
{
    if skills.len() == 0 {
        Seq::empty()
    } else {
        let prev = previews_of(skills.drop_last());
        match preview_of(skills.last()) {
            Some(p) => prev.push(p),
            None => prev,
        }
    }
}

/// Resolves references in order: the skills they name, up to the first
/// reference that names none, and that reference.
pub open spec fn resolve_refs(skills: Seq<SkillView>, refs: Seq<Seq<char>>) -> (Seq<SkillView>, Option<Seq<char>>)
    decreases refs.len(),
{
    if refs.len() == 0 {
        (Seq::empty(), None)
    } else {
        let prev = resolve_refs(skills, refs.drop_last());
        if prev.1 is Some {
            prev
        } else {
            match skill_position(skills, refs.last()) {
                Some(i) => (prev.0.push(skills[i]), None),
                None => (prev.0, Some(refs.last())),
            }
        }
    }
}

/// The skills an installation goes through, in order, and the error that stops
/// it once those are installed, if a member of the group names no skill.
pub struct InstallPlan {
    pub skills: Vec<Skill>,
    pub stopped_by: Option<SkillsError>,
}

/// The preview of the command of `skill`, for a command skill.
pub fn command_preview_for_skill(skill: &Skill) -> (preview: Option<InstallCommandPreview>)
    ensures
        preview.deep_view() == preview_of(skill@),
{
    if skill.source_type != SourceType::Command {
        return None;
    }
    let command = match &skill.install_command {
        Some(c) => c.clone(),
        None => String::new(),
    };
    Some(InstallCommandPreview { skill_id: skill.id.clone(), skill_name: skill.name.clone(), command })
}

impl SkillsStore {
    /// The skills that group members name, in order, up to the first member
    /// that names no skill, and that member.
    fn resolve_members(&self, members: &Vec<String>) -> (r: (Vec<Skill>, Option<String>))
        ensures
            r.0.deep_view() == resolve_refs(self@.skills, members.deep_view()).0,
            r.1.deep_view() == resolve_refs(self@.skills, members.deep_view()).1,
    {
        let ghost refs = members.deep_view();
        let mut found: Vec<Skill> = Vec::new();
        let mut i: usize = 0;
        while i < members.len()
            invariant
                refs == members.deep_view(),
                i <= members.len(),
                found.deep_view() == resolve_refs(self@.skills, refs.take(i as int)).0,
                resolve_refs(self@.skills, refs.take(i as int)).1 is None,
            decreases members.len() - i,
        {
            assert(refs.take(i + 1).drop_last() =~= refs.take(i as int));
            assert(refs.take(i + 1).last() == members@[i as int]@);
            match skill_index(&self.catalog().skills, &members[i]) {
                Some(k) => {
                    let s = self.catalog().skills[k].clone();
                    let ghost before = found;
                    found.push(s);
                    proof {
                        lemma_deep_view_push(before, found, s);
                    }
                },
                None => {
                    proof {
                        lemma_resolve_refs_stops(self@.skills, refs, i as int);
                    }
                    return (found, Some(members[i].clone()));
                },
            }
            i = i + 1;
        }
        assert(refs.take(members.len() as int) =~= refs);
        (found, None)
    }

    /// The previews of the commands that installing the skill named by
    /// `skill_ref` would run: one for a command skill, none otherwise.
    pub fn preview_skill_commands(&self, skill_ref: &str) -> (r: Result<Vec<InstallCommandPreview>, SkillsError>)
        ensures
            match skill_position(self@.skills, skill_ref@) {
                Some(i) => r matches Ok(v) && v.deep_view() == previews_of(seq![self@.skills[i]]),
                None => r matches Err(e) && is_skill_not_found(e, skill_ref@),
            },
    {
        let skill = self.find_skill(skill_ref)?;
        let mut previews: Vec<InstallCommandPreview> = Vec::new();
        assert(seq![skill@].drop_last() =~= Seq::<SkillView>::empty());
        assert(seq![skill@].last() == skill@);
        assert(previews_of(Seq::<SkillView>::empty()) == Seq::<PreviewView>::empty());
        if let Some(p) = command_preview_for_skill(skill) {
            let ghost before = previews;
            previews.push(p);
            proof {
                lemma_deep_view_push(before, previews, p);
            }
        }
        assert(previews.deep_view() =~= previews_of(seq![skill@]));
        Ok(previews)
    }

    /// The previews of the commands of the command skills of the group named by
    /// `group_ref`, in member order. A member that names no skill is an error.
    pub fn preview_group_commands(&self, group_ref: &str) -> (r: Result<Vec<InstallCommandPreview>, SkillsError>)
        ensures
            match group_position(self@.groups, group_ref@) {
                None => r matches Err(e) && is_group_not_found(e, group_ref@),
                Some(g) => {
                    let resolved = resolve_refs(self@.skills, self@.groups[g].skill_ids);
                    match resolved.1 {
                        Some(m) => r matches Err(e) && is_skill_not_found(e, m),
                        None => r matches Ok(v) && v.deep_view() == previews_of(resolved.0),
                    }
                },
            },
    {
        let group = self.find_group(group_ref)?;
        let (skills, missing) = self.resolve_members(&group.skill_ids);
        if let Some(m) = missing {
            return Err(SkillsError::SkillNotFound(m));
        }
        let ghost all = skills.deep_view();
        let mut previews: Vec<InstallCommandPreview> = Vec::new();
        let mut i: usize = 0;
        while i < skills.len()
            invariant
                all == skills.deep_view(),
                i <= skills.len(),
                previews.deep_view() == previews_of(all.take(i as int)),
            decreases skills.len() - i,
        {
            assert(all.take(i + 1).drop_last() =~= all.take(i as int));
            assert(all.take(i + 1).last() == skills@[i as int]@);
            if let Some(p) = command_preview_for_skill(&skills[i]) {
                let ghost before = previews;
                previews.push(p);
                proof {
                    lemma_deep_view_push(before, previews, p);
                }
            }
            i = i + 1;
        }
        assert(all.take(skills.len() as int) =~= all);
        Ok(previews)
    }

    /// What installing the skill named by `skill_ref` goes through: that skill.
    pub fn install_skill(&self, skill_ref: &str) -> (r: Result<InstallPlan, SkillsError>)
        ensures
            match skill_position(self@.skills, skill_ref@) {
                Some(i) => r matches Ok(plan) && plan.skills.deep_view() == seq![self@.skills[i]]
                    && plan.stopped_by is None,
                None => r matches Err(e) && is_skill_not_found(e, skill_ref@),
            },
    {
        let skill = self.find_skill(skill_ref)?.clone();
        let mut skills: Vec<Skill> = Vec::new();
        let ghost before = skills;
        skills.push(skill);
        proof {
            lemma_deep_view_push(before, skills, skill);
            assert(skills.deep_view() =~= seq![skill@]);
        }
        Ok(InstallPlan { skills, stopped_by: None })
    }

    /// What installing the group named by `group_ref` goes through: the skills
    /// its members name, in order, up to the first member that names none,
    /// whose error then stops the installation.
    pub fn install_group(&self, group_ref: &str) -> (r: Result<InstallPlan, SkillsError>)
        ensures
            match group_position(self@.groups, group_ref@) {
                None => r matches Err(e) && is_group_not_found(e, group_ref@),
                Some(g) => {
                    let resolved = resolve_refs(self@.skills, self@.groups[g].skill_ids);
                    &&& r matches Ok(plan)
                    &&& plan.skills.deep_view() == resolved.0
                    &&& match resolved.1 {
                        Some(m) => plan.stopped_by matches Some(e) && is_skill_not_found(e, m),
                        None => plan.stopped_by is None,
                    }
                },
            },
    {
        let group = self.find_group(group_ref)?;
        let (skills, missing) = self.resolve_members(&group.skill_ids);
        let stopped_by = match missing {
            Some(m) => Some(SkillsError::SkillNotFound(m)),
            None => None,
        };
        Ok(InstallPlan { skills, stopped_by })
    }
}

/// Once a reference names no skill, resolution stops there.
proof fn lemma_resolve_refs_stops(skills: Seq<SkillView>, refs: Seq<Seq<char>>, i: int)
    requires
        0 <= i < refs.len(),
        resolve_refs(skills, refs.take(i)).1 is None,
        skill_position(skills, refs[i]) is None,
    ensures
        resolve_refs(skills, refs) == (resolve_refs(skills, refs.take(i)).0, Some(refs[i])),
    decreases refs.len(),
{
    if i + 1 < refs.len() {
        assert(refs.drop_last().take(i) =~= refs.take(i));
        lemma_resolve_refs_stops(skills, refs.drop_last(), i);
    } else {
        assert(refs.drop_last() =~= refs.take(i));
    }
}

/// One step of an installation: what to do for one skill, and what to record
/// once it is done.
pub enum InstallAction {
    /// Copy the skill's folder into the target, removing what is there first
    /// where `replace_existing` holds.
    CopyFolder { source: String, destination: String, replace_existing: bool, installed: InstalledSkill },
    /// Run the skill's command, with its output captured or attached to the terminal.
    RunCommand { command: String, captured: bool, installed: InstalledSkill },
    /// Only list the skill's command.
    PreviewCommand(InstallCommandPreview),
}

/// The value of an [`InstallAction`].
pub enum StepView {
    Copy { source: Seq<char>, destination: Seq<char>, replace_existing: bool, installed: InstalledView },
    Run { command: Seq<char>, captured: bool, installed: InstalledView },
    Preview(PreviewView),
}

impl DeepView for InstallAction {
    type V = StepView;

    open spec fn deep_view(&self) -> StepView {
        match self {
            InstallAction::CopyFolder { source, destination, replace_existing, installed } => StepView::Copy {
                source: source@,
                destination: destination@,
                replace_existing: *replace_existing,
                installed: installed.deep_view(),
            },
            InstallAction::RunCommand { command, captured, installed } => StepView::Run {
                command: command@,
                captured: *captured,
                installed: installed.deep_view(),
            },
            InstallAction::PreviewCommand(p) => StepView::Preview(p.deep_view()),
        }
    }
}

/// The step that installs `skill` into `target_dir`, or `None` where the
/// installation fails there: a local skill without a folder, or an existing
/// destination without overwriting.
pub open spec fn install_step(
    skill: SkillView,
    target_dir: Seq<char>,
    overwrite: bool,
    mode: CommandExecutionMode,
    destination_exists: bool,
) -> Option<StepView> {
    match skill.source_type {
        SourceType::Local => match skill.library_path {
            None => None,
            Some(src) => {
                let dest = joined_path(target_dir, skill.id);
                if destination_exists && !overwrite {
                    None
                } else {
                    Some(StepView::Copy {
                        source: src,
                        destination: dest,
                        replace_existing: destination_exists && path_has_prefix(dest, target_dir),
                        installed: installed_local(skill, dest),
                    })
                }
            },
        },
        SourceType::Command => match mode {
            CommandExecutionMode::PreviewOnly => Some(StepView::Preview(
                PreviewView { skill_id: skill.id, skill_name: skill.name, command: command_text(skill) },
            )),
            CommandExecutionMode::Captured => Some(StepView::Run {
                command: command_text(skill),
                captured: true,
                installed: installed_command(skill),
            }),
            CommandExecutionMode::InteractiveTerminal => Some(StepView::Run {
                command: command_text(skill),
                captured: false,
                installed: installed_command(skill),
            }),
        },
    }
}

/// What an outcome holds after a step is recorded: the installed skills and
/// the listed commands.
pub open spec fn recorded(
    outcome: (Seq<InstalledView>, Seq<PreviewView>),
    step: StepView,
) -> (Seq<InstalledView>, Seq<PreviewView>) {
    match step {
        StepView::Copy { installed, .. } => (outcome.0.push(installed), outcome.1),
        StepView::Run { installed, .. } => (outcome.0.push(installed), outcome.1),
        StepView::Preview(p) => (outcome.0, outcome.1.push(p)),
    }
}

/// A whole installation of `skills`, in order, where `exists[i]` tells whether
/// the destination of the `i`-th skill exists: each step decided as
/// [`install_action`] decides it and recorded as [`InstallationOutcome::record`]
/// records it, or `None` once a step fails.
pub open spec fn run_install(
    skills: Seq<SkillView>,
    target_dir: Seq<char>,
    overwrite: bool,
    mode: CommandExecutionMode,
    exists: Seq<bool>,
) -> Option<(Seq<InstalledView>, Seq<PreviewView>)>
    decreases skills.len(),
{
    if skills.len() == 0 {
        Some((Seq::empty(), Seq::empty()))
    } else {
        match run_install(skills.drop_last(), target_dir, overwrite, mode, exists.drop_last()) {
            None => None,
            Some(o) => match install_step(skills.last(), target_dir, overwrite, mode, exists.last()) {
                None => None,
                Some(step) => Some(recorded(o, step)),
            },
        }
    }
}

/// A local skill.
pub open spec fn is_local(skill: SkillView) -> bool {
    skill.source_type == SourceType::Local
}

/// What installing the local skills of `skills` into `target_dir` records, in order.
pub open spec fn local_installs(skills: Seq<SkillView>, target_dir: Seq<char>) -> Seq<InstalledView> {
    skills.filter(|s: SkillView| is_local(s)).map_values(
        |s: SkillView| installed_local(s, joined_path(target_dir, s.id)),
    )
}

/// What the installation of a local skill into `destination` records.
pub open spec fn installed_local(skill: SkillView, destination: Seq<char>) -> InstalledView {
    InstalledView {
        skill_id: skill.id,
        skill_name: skill.name,
        target_path: Some(destination),
        command: None,
        executed: true,
    }
}

/// What running the command of a command skill records.
pub open spec fn installed_command(skill: SkillView) -> InstalledView {
    InstalledView {
        skill_id: skill.id,
        skill_name: skill.name,
        target_path: None,
        command: Some(command_text(skill)),
        executed: true,
    }
}

/// Where a local skill that has a folder is installed within `target_dir`: the
/// folder named after its id. Other skills are not copied.
pub fn install_destination(skill: &Skill, target_dir: &str) -> (destination: Option<String>)
    ensures
        match (skill.source_type, skill.library_path) {
            (SourceType::Local, Some(_)) => destination matches Some(d) && d@ == joined_path(target_dir@, skill.id@),
            _ => destination is None,
        },
{
    match (skill.source_type, &skill.library_path) {
        (SourceType::Local, Some(_)) => Some(path_join(target_dir, skill.id.as_str())),
        _ => None,
    }
}

/// Whether a copy into `destination` must remove what is there first: it must
/// where something exists; where something exists and overwriting is not
/// allowed, the copy is refused.
pub fn replace_existing_target(destination: &String, exists: bool, overwrite: bool) -> (r: Result<bool, SkillsError>)
    ensures
        exists && !overwrite ==> (r matches Err(SkillsError::TargetExists(m)) && m@ == destination@),
        !(exists && !overwrite) ==> r == Ok::<bool, SkillsError>(exists),
{
    if exists && !overwrite {
        return Err(SkillsError::TargetExists(destination.clone()));
    }
    Ok(exists)
}

/// Decides how to install `skill` into `target_dir`. For a local skill the
/// caller has created `target_dir` and looked whether its destination (see
/// [`install_destination`]) exists; a command skill is previewed or run as the
/// mode says.
pub fn install_action(
    skill: &Skill,
    target_dir: &str,
    overwrite: bool,
    command_mode: CommandExecutionMode,
    destination_exists: bool,
) -> (r: Result<InstallAction, SkillsError>)
    ensures
        skill.source_type == SourceType::Local ==> match skill.library_path {
            None => r matches Err(SkillsError::InvalidSkillFolder(m)) && m@ == skill.name@ + " has no local folder"@,
            Some(src) => {
                let dest = joined_path(target_dir@, skill.id@);
                if destination_exists && !overwrite {
                    r matches Err(SkillsError::TargetExists(m)) && m@ == dest
                } else {
                    r matches Ok(InstallAction::CopyFolder { source, destination, replace_existing, installed })
                        && source@ == src@ && destination@ == dest
                        && replace_existing == (destination_exists && path_has_prefix(dest, target_dir@))
                        && installed.deep_view() == installed_local(skill@, dest)
                }
            },
        },
        match install_step(skill@, target_dir@, overwrite, command_mode, destination_exists) {
            Some(step) => r matches Ok(a) && a.deep_view() == step,
            None => r is Err,
        },
        plain_segment(skill.id@) ==> (r matches Ok(InstallAction::CopyFolder { destination, replace_existing, .. })
            ==> path_has_prefix(destination@, target_dir@) && path_file_name(destination@) == Some(skill.id@)
            && replace_existing == destination_exists),
        skill.source_type == SourceType::Command ==> match command_mode {
            CommandExecutionMode::PreviewOnly => r matches Ok(InstallAction::PreviewCommand(p))
                && Some(p.deep_view()) == preview_of(skill@),
            CommandExecutionMode::Captured => r matches Ok(InstallAction::RunCommand { command, captured, installed })
                && command@ == command_text(skill@) && captured
                && installed.deep_view() == installed_command(skill@),
            CommandExecutionMode::InteractiveTerminal => r matches Ok(InstallAction::RunCommand { command, captured, installed })
                && command@ == command_text(skill@) && !captured
                && installed.deep_view() == installed_command(skill@),
        },
{
    match skill.source_type {
        SourceType::Local => {
            let source = match &skill.library_path {
                Some(p) => p.clone(),
                None => {
                    let message = skill.name.clone().concat(" has no local folder");
                    return Err(SkillsError::InvalidSkillFolder(message));
                },
            };
            let destination = path_join(target_dir, skill.id.as_str());
            let remove_first = replace_existing_target(&destination, destination_exists, overwrite)?;
            let replace_existing = remove_first && path_starts_with(destination.as_str(), target_dir);
            let installed = InstalledSkill {
                skill_id: skill.id.clone(),
                skill_name: skill.name.clone(),
                target_path: Some(destination.clone()),
                command: None,
                executed: true,
            };
            Ok(InstallAction::CopyFolder { source, destination, replace_existing, installed })
        },
        SourceType::Command => {
            let command = match &skill.install_command {
                Some(c) => c.clone(),
                None => String::new(),
            };
            match command_mode {
                CommandExecutionMode::PreviewOnly => Ok(
                    InstallAction::PreviewCommand(
                        InstallCommandPreview {
                            skill_id: skill.id.clone(),
                            skill_name: skill.name.clone(),
                            command,
                        },
                    ),
                ),
                _ => {
                    let installed = InstalledSkill {
                        skill_id: skill.id.clone(),
                        skill_name: skill.name.clone(),
                        target_path: None,
                        command: Some(command.clone()),
                        executed: true,
                    };
                    let captured = command_mode == CommandExecutionMode::Captured;
                    Ok(InstallAction::RunCommand { command, captured, installed })
                },
            }
        },
    }
}

impl InstallationOutcome {
    /// An installation into `target_dir` that has done nothing yet.
    pub fn new(target_dir: String) -> (outcome: InstallationOutcome)
        ensures
            outcome.target_dir@ == target_dir@,
            outcome.installed_skills@.len() == 0,
            outcome.command_previews@.len() == 0,
    {
        InstallationOutcome { target_dir, installed_skills: Vec::new(), command_previews: Vec::new() }
    }

    /// Records an action once it is done: what it installed, or the command it
    /// only listed.
    pub fn record(&mut self, action: InstallAction)
        ensures
            final(self).target_dir == old(self).target_dir,
            (final(self).installed_skills.deep_view(), final(self).command_previews.deep_view()) == recorded(
                (old(self).installed_skills.deep_view(), old(self).command_previews.deep_view()),
                action.deep_view(),
            ),
            match action {
                InstallAction::CopyFolder { installed, .. } => final(self).installed_skills.deep_view()
                    == old(self).installed_skills.deep_view().push(installed.deep_view())
                    && final(self).command_previews == old(self).command_previews,
                InstallAction::RunCommand { installed, .. } => final(self).installed_skills.deep_view()
                    == old(self).installed_skills.deep_view().push(installed.deep_view())
                    && final(self).command_previews == old(self).command_previews,
                InstallAction::PreviewCommand(p) => final(self).command_previews.deep_view()
                    == old(self).command_previews.deep_view().push(p.deep_view())
                    && final(self).installed_skills == old(self).installed_skills,
            },
    {
        match action {
            InstallAction::CopyFolder { installed, .. } | InstallAction::RunCommand { installed, .. } => {
                let ghost before = self.installed_skills;
                self.installed_skills.push(installed);
                proof {
                    lemma_deep_view_push(before, self.installed_skills, installed);
                }
            },
            InstallAction::PreviewCommand(p) => {
                let ghost before = self.command_previews;
                self.command_previews.push(p);
                proof {
                    lemma_deep_view_push(before, self.command_previews, p);
                }
            },
        }
    }
}

/// A folder to copy: the library folder of a skill and where it goes.
pub struct FolderCopy {
    pub source: String,
    pub destination: String,
}

impl SkillsStore {
    /// Where exporting the skill named by `skill_ref` into `output_dir` copies
    /// its library folder: the folder named after its id within `output_dir`.
    /// The caller then settles an existing destination with
    /// [`replace_existing_target`] and copies.
    pub fn export_skill(&self, skill_ref: &str, output_dir: &str) -> (r: Result<FolderCopy, SkillsError>)
        ensures
            match skill_position(self@.skills, skill_ref@) {
                None => r matches Err(e) && is_skill_not_found(e, skill_ref@),
                Some(i) => match self@.skills[i].library_path {
                    None => r matches Err(SkillsError::InvalidSkillFolder(m))
                        && m@ == self@.skills[i].name + " has no local folder to export"@,
                    Some(src) => r matches Ok(copy) && copy.source@ == src
                        && copy.destination@ == joined_path(output_dir@, self@.skills[i].id)
                        && (plain_segment(self@.skills[i].id) ==> path_has_prefix(copy.destination@, output_dir@)
                            && path_file_name(copy.destination@) == Some(self@.skills[i].id)),
                },
            },
    {
        let skill = self.find_skill(skill_ref)?;
        let source = match &skill.library_path {
            Some(p) => p.clone(),
            None => {
                let message = skill.name.clone().concat(" has no local folder to export");
                return Err(SkillsError::InvalidSkillFolder(message));
            },
        };
        let destination = path_join(output_dir, skill.id.as_str());
        Ok(FolderCopy { source, destination })
    }
}

/// The mode in which an installation runs command skills where no question
/// is needed: without command skills nothing runs, and an up-front yes runs
/// them attached to the terminal. `None` means the user is to be asked.
pub fn command_mode_without_prompt(has_command_skills: bool, assume_yes: bool) -> (mode: Option<CommandExecutionMode>)
    ensures
        !has_command_skills ==> mode == Some(CommandExecutionMode::PreviewOnly),
        has_command_skills && assume_yes ==> mode == Some(CommandExecutionMode::InteractiveTerminal),
        has_command_skills && !assume_yes ==> mode is None,
{
    if !has_command_skills {
        Some(CommandExecutionMode::PreviewOnly)
    } else if assume_yes {
        Some(CommandExecutionMode::InteractiveTerminal)
    } else {
        None
    }
}

/// An answer that agrees to run command skills: `y` or `yes`, ignoring outer
/// white space and case.
pub open spec fn is_agreement(answer: Seq<char>) -> bool {
    let a = crate::text::unicode_lowercase(crate::text::trimmed(answer));
    a == seq!['y'] || a == seq!['y', 'e', 's']
}

/// For an ASCII answer: `y` or `yes` once trimmed, ignoring ASCII case.
pub open spec fn is_ascii_agreement(answer: Seq<char>) -> bool {
    let a = crate::text::trimmed(answer).map_values(|c: char| crate::text::ascii_lower(c));
    a == seq!['y'] || a == seq!['y', 'e', 's']
}

/// Whether `answer` agrees to run command skills.
pub fn confirms_commands(answer: &str) -> (agreed: bool)
    ensures
        agreed == is_agreement(answer@),
        crate::text::all_ascii(answer@) ==> agreed == is_ascii_agreement(answer@),
        crate::text::all_ascii(answer@) ==> (agreed <==> {
            let t = crate::text::trimmed(answer@);
            ||| t.len() == 1 && (t[0] == 'y' || t[0] == 'Y')
            ||| t.len() == 3 && (t[0] == 'y' || t[0] == 'Y') && (t[1] == 'e' || t[1] == 'E') && (t[2] == 's'
                || t[2] == 'S')
        }),
{
    proof {
        crate::laws::law_agreement_is_yes(answer@);
    }
    let trimmed_answer = crate::text::trim(answer);
    proof {
        crate::text::lemma_trimmed_subrange(answer@);
    }
    let lower = crate::text::to_lowercase(trimmed_answer.as_str());
    let a = crate::text::chars_of(lower.as_str());
    let agreed = (a.len() == 1 && a[0] == 'y') || (a.len() == 3 && a[0] == 'y' && a[1] == 'e' && a[2] == 's');
    proof {
        if a.len() == 1 && a[0] == 'y' {
            assert(a@ =~= seq!['y']);
        }
        if a.len() == 3 && a[0] == 'y' && a[1] == 'e' && a[2] == 's' {
            assert(a@ =~= seq!['y', 'e', 's']);
        }
    }
    agreed
}

} // verus!

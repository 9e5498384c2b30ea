use vstd::prelude::*;

use crate::install::{install_action, install_step, recorded, run_install, InstallAction, InstallPlan};
use crate::model::{
    clone_opt_string, CommandExecutionMode, InstallCommandPreview, InstallationOutcome, InstalledSkill,
    InstalledView, PreviewView, Skill, SkillView, SkillsError,
};
use crate::paths::joined_path;

verus! {

/// The value of an [`Installation`]: the skills it goes through, the error
/// that ends it once they are through, its settings, whether the destination
/// of each skill taken so far existed, and what it recorded.
pub struct InstallationView {
    pub skills: Seq<SkillView>,
    pub stopped_by: Option<SkillsError>,
    pub target_dir: Seq<char>,
    pub overwrite: bool,
    pub mode: CommandExecutionMode,
    pub seen: Seq<bool>,
    pub installed: Seq<InstalledView>,
    pub previews: Seq<PreviewView>,
}

/// What an installation recorded is what running the skills taken so far
/// gives, step after step.
pub open spec fn consistent(v: InstallationView) -> bool {
    &&& v.seen.len() <= v.skills.len()
    &&& run_install(v.skills.take(v.seen.len() as int), v.target_dir, v.overwrite, v.mode, v.seen) == Some(
        (v.installed, v.previews),
    )
}

/// The error that stops the installation of `skill` into `target_dir`: a
/// local skill without a folder, or a destination that exists.
pub open spec fn is_step_error(e: SkillsError, skill: SkillView, target_dir: Seq<char>) -> bool {
    match skill.library_path {
        None => e matches SkillsError::InvalidSkillFolder(m) && m@ == skill.name + " has no local folder"@,
        Some(_) => e matches SkillsError::TargetExists(m) && m@ == joined_path(target_dir, skill.id),
    }
}

/// How far an installation has got: the number of skills taken, whether their
/// destinations existed, and what was recorded.
struct Progress {
    next: usize,
    seen: Ghost<Seq<bool>>,
    outcome: InstallationOutcome,
}

/// An installation under way: it hands out one action per skill of its plan,
/// in order, records it, and the caller carries it out.
pub struct Installation {
    skills: Vec<Skill>,
    stopped_by: Option<SkillsError>,
    overwrite: bool,
    mode: CommandExecutionMode,
    progress: Progress,
}

impl View for Installation {
    type V = InstallationView;

    closed spec fn view(&self) -> InstallationView {
        InstallationView {
            skills: self.skills.deep_view(),
            stopped_by: self.stopped_by,
            target_dir: self.progress.outcome.target_dir@,
            overwrite: self.overwrite,
            mode: self.mode,
            seen: self.progress.seen@,
            installed: self.progress.outcome.installed_skills.deep_view(),
            previews: self.progress.outcome.command_previews.deep_view(),
        }
    }
}

/// A copy of a record of an installed skill.
fn copy_installed(s: &InstalledSkill) -> (r: InstalledSkill)
    ensures
        r.deep_view() == s.deep_view(),
{
    InstalledSkill {
        skill_id: s.skill_id.clone(),
        skill_name: s.skill_name.clone(),
        target_path: clone_opt_string(&s.target_path),
        command: clone_opt_string(&s.command),
        executed: s.executed,
    }
}

/// A copy of an action.
fn copy_action(a: &InstallAction) -> (r: InstallAction)
    ensures
        r.deep_view() == a.deep_view(),
{
    match a {
        InstallAction::CopyFolder { source, destination, replace_existing, installed } => InstallAction::CopyFolder {
            source: source.clone(),
            destination: destination.clone(),
            replace_existing: *replace_existing,
            installed: copy_installed(installed),
        },
        InstallAction::RunCommand { command, captured, installed } => InstallAction::RunCommand {
            command: command.clone(),
            captured: *captured,
            installed: copy_installed(installed),
        },
        InstallAction::PreviewCommand(p) => InstallAction::PreviewCommand(
            InstallCommandPreview {
                skill_id: p.skill_id.clone(),
                skill_name: p.skill_name.clone(),
                command: p.command.clone(),
            },
        ),
    }
}

impl Installation {
    #[verifier::type_invariant]
    closed spec fn well_formed(self) -> bool {
        &&& self.progress.next == self.progress.seen@.len()
        &&& consistent(self@)
    }

    /// An installation of the skills of `plan` into `target_dir` that has taken
    /// none of them yet.
    pub fn start(plan: InstallPlan, target_dir: String, overwrite: bool, command_mode: CommandExecutionMode) -> (run:
        Installation)
        ensures
            run@.skills == plan.skills.deep_view(),
            run@.stopped_by == plan.stopped_by,
            run@.target_dir == target_dir@,
            run@.overwrite == overwrite,
            run@.mode == command_mode,
            run@.seen.len() == 0,
            run@.installed.len() == 0,
            run@.previews.len() == 0,
            consistent(run@),
    {
        let InstallPlan { skills, stopped_by } = plan;
        let outcome = InstallationOutcome::new(target_dir);
        proof {
            assert(skills.deep_view().take(0) =~= Seq::<SkillView>::empty());
            assert(outcome.installed_skills.deep_view() =~= Seq::<InstalledView>::empty());
            assert(outcome.command_previews.deep_view() =~= Seq::<PreviewView>::empty());
        }
        let progress = Progress { next: 0, seen: Ghost(Seq::empty()), outcome };
        Installation { skills, stopped_by, overwrite, mode: command_mode, progress }
    }

    /// The skill that the next action is for, whose destination the caller
    /// looks at first, or `None` once every skill has been taken.
    pub fn next_skill(&self) -> (s: Option<&Skill>)
        ensures
            self@.seen.len() < self@.skills.len() ==> (s matches Some(k) && k@ == self@.skills[self@.seen.len() as int]),
            self@.seen.len() >= self@.skills.len() ==> s is None,
    {
        proof {
            use_type_invariant(self);
        }
        if self.progress.next < self.skills.len() {
            Some(&self.skills[self.progress.next])
        } else {
            None
        }
    }

    /// Takes the next skill, whose destination exists where `destination_exists`
    /// holds (the caller has created the target folder and looked), and hands
    /// out its action, already recorded, for the caller to carry out. Once
    /// every skill has been taken nothing changes and `None` comes back; where
    /// the skill cannot be installed its error comes back and nothing changes.
    pub fn advance(&mut self, destination_exists: bool) -> (r: Result<Option<InstallAction>, SkillsError>)
        ensures
            consistent(final(self)@),
            old(self)@.seen.len() >= old(self)@.skills.len() ==> (r matches Ok(None) && final(self)@ == old(self)@),
            old(self)@.seen.len() < old(self)@.skills.len() ==> {
                let before = old(self)@;
                let skill = before.skills[before.seen.len() as int];
                match install_step(skill, before.target_dir, before.overwrite, before.mode, destination_exists) {
                    None => r matches Err(e) && is_step_error(e, skill, before.target_dir) && final(self)@
                        == before,
                    Some(step) => {
                        let after = final(self)@;
                        &&& r matches Ok(Some(a)) && a.deep_view() == step
                        &&& after.skills == before.skills
                        &&& after.stopped_by == before.stopped_by
                        &&& after.target_dir == before.target_dir
                        &&& after.overwrite == before.overwrite
                        &&& after.mode == before.mode
                        &&& after.seen == before.seen.push(destination_exists)
                        &&& (after.installed, after.previews) == recorded((before.installed, before.previews), step)
                    },
                }
            },
    {
        proof {
            use_type_invariant(&*self);
        }
        if self.progress.next >= self.skills.len() {
            return Ok(None);
        }
        let k = self.progress.next;
        let ghost before = self@;
        let action = match install_action(
            &self.skills[k],
            self.progress.outcome.target_dir.as_str(),
            self.overwrite,
            self.mode,
            destination_exists,
        ) {
            Ok(a) => a,
            Err(e) => {
                proof {
                    assert(self.skills[k as int]@ == before.skills[k as int]);
                }
                return Err(e);
            },
        };
        let done = copy_action(&action);
        let mut progress = Progress {
            next: 0,
            seen: Ghost(Seq::empty()),
            outcome: InstallationOutcome::new(String::new()),
        };
        proof {
            assert(self.skills.deep_view().take(0) =~= Seq::<SkillView>::empty());
            assert(progress.outcome.installed_skills.deep_view() =~= Seq::<InstalledView>::empty());
            assert(progress.outcome.command_previews.deep_view() =~= Seq::<PreviewView>::empty());
        }
        std::mem::swap(&mut progress, &mut self.progress);
        progress.outcome.record(done);
        progress.next = k + 1;
        progress.seen = Ghost(progress.seen@.push(destination_exists));
        proof {
            let all = self.skills.deep_view();
            assert(all.take(k + 1).drop_last() =~= all.take(k as int));
            assert(all.take(k + 1).last() == all[k as int]);
            assert(progress.seen@.drop_last() =~= before.seen);
            assert(self.skills[k as int]@ == all[k as int]);
        }
        std::mem::swap(&mut progress, &mut self.progress);
        Ok(Some(action))
    }

    /// Ends the installation: the error that stopped it, if its plan had one,
    /// else what it recorded.
    pub fn finish(self) -> (r: Result<InstallationOutcome, SkillsError>)
        ensures
            consistent(self@),
            match self@.stopped_by {
                Some(e) => r == Err::<InstallationOutcome, SkillsError>(e),
                None => r matches Ok(o) && o.target_dir@ == self@.target_dir && o.installed_skills.deep_view()
                    == self@.installed && o.command_previews.deep_view() == self@.previews,
            },
    {
        proof {
            use_type_invariant(&self);
        }
        let Installation { stopped_by, progress, .. } = self;
        match stopped_by {
            Some(e) => Err(e),
            None => Ok(progress.outcome),
        }
    }
}

} // verus!

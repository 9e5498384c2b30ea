use vstd::prelude::*;

use crate::ids::{contains_string, lemma_unique_id_is_plain, unique_id, unique_id_for};
use crate::model::{
    group_matches, group_position, is_group_not_found, is_skill_not_found, lemma_deep_view_push,
    lemma_deep_view_remove, lemma_deep_view_update, lemma_first_index_is, lemma_first_index_none,
    skill_matches, skill_position, Catalog, CatalogView, GroupView, Skill, SkillGroup, SkillView,
    SkillsError, SourceType,
};
use crate::paths::{joined_path, path_file_name, path_has_prefix, path_starts_with, plain_segment, AppPaths};
use crate::laws::{
    lemma_add_fresh_group_keeps_wf, lemma_add_member_keeps_wf, lemma_add_skill_with_unique_id_keeps_wf,
    lemma_delete_group_keeps_wf, lemma_delete_skill_keeps_wf, lemma_import_keeps_wf,
    lemma_remove_member_keeps_wf,
};
use crate::slug::{slug_of, slugify};
use crate::text::{
    chars_contain, chars_of, seq_contains, str_eq_ignore_ascii_case, to_lowercase, trim,
    trimmed, unicode_lowercase,
};

verus! {

/// The needle that a search query looks for: the query without outer white
/// space, in lower case.
pub open spec fn query_needle(query: Seq<char>) -> Seq<char> {
    unicode_lowercase(trimmed(query))
}

/// A skill is found by a needle when its name, description, id or one of its
/// tags contains it once lower-cased.
pub open spec fn skill_has_needle(skill: SkillView, needle: Seq<char>) -> bool {
    ||| seq_contains(unicode_lowercase(skill.name), needle)
    ||| seq_contains(unicode_lowercase(skill.description), needle)
    ||| seq_contains(unicode_lowercase(skill.id), needle)
    ||| exists|k: int| 0 <= k < skill.tags.len() && seq_contains(unicode_lowercase(#[trigger] skill.tags[k]), needle)
}

/// What a search returns: every skill for a blank query, else the skills that
/// the needle finds, in catalog order.
pub open spec fn search_result(skills: Seq<SkillView>, query: Seq<char>) -> Seq<SkillView> {
    let needle = query_needle(query);
    if needle.len() == 0 {
        skills
    } else {
        skills.filter(|s: SkillView| skill_has_needle(s, needle))
    }
}

/// Whether `text`, lower-cased, contains `needle`.
fn lowercase_contains(text: &String, needle: &Vec<char>) -> (r: bool)
    ensures
        r == seq_contains(unicode_lowercase(text@), needle@),
{
    let lower = to_lowercase(text.as_str());
    let chars = chars_of(lower.as_str());
    chars_contain(&chars, needle)
}

/// Whether the needle finds `skill`.
fn skill_has_needle_exec(skill: &Skill, needle: &Vec<char>) -> (r: bool)
    ensures
        r == skill_has_needle(skill@, needle@),
{
    if lowercase_contains(&skill.name, needle) || lowercase_contains(&skill.description, needle)
        || lowercase_contains(&skill.id, needle) {
        return true;
    }
    let mut k: usize = 0;
    while k < skill.tags.len()
        invariant
            k <= skill.tags.len(),
            forall|j: int| 0 <= j < k ==> !seq_contains(unicode_lowercase(#[trigger] skill@.tags[j]), needle@),
        decreases skill.tags.len() - k,
    {
        if lowercase_contains(&skill.tags[k], needle) {
            assert(skill@.tags[k as int] == skill.tags@[k as int]@);
            return true;
        }
        k = k + 1;
    }
    false
}

/// The ids of a sequence of skills.
pub open spec fn skill_ids(skills: Seq<SkillView>) -> Seq<Seq<char>> {
    skills.map_values(|s: SkillView| s.id)
}

/// The ids of a sequence of groups.
pub open spec fn group_ids(groups: Seq<GroupView>) -> Seq<Seq<char>> {
    groups.map_values(|g: GroupView| g.id)
}

/// `group` with `id` added at the end of its members, unless it is a member already.
pub open spec fn with_member(group: GroupView, id: Seq<char>) -> GroupView {
    if group.skill_ids.contains(id) {
        group
    } else {
        GroupView {
            id: group.id,
            name: group.name,
            description: group.description,
            skill_ids: group.skill_ids.push(id),
        }
    }
}

/// Whether an id differs from `id`.
pub open spec fn other_than(id: Seq<char>) -> spec_fn(Seq<char>) -> bool {
    |x: Seq<char>| x != id
}

/// `group` without any member equal to `id`.
pub open spec fn without_member(group: GroupView, id: Seq<char>) -> GroupView {
    GroupView {
        id: group.id,
        name: group.name,
        description: group.description,
        skill_ids: group.skill_ids.filter(other_than(id)),
    }
}

/// The invariant that every operation of the store keeps: skill ids are
/// distinct, group ids are distinct, no group lists a member twice, and every
/// member of a group is the id of a skill.
pub open spec fn catalog_wf(c: CatalogView) -> bool {
    &&& skill_ids(c.skills).no_duplicates()
    &&& group_ids(c.groups).no_duplicates()
    &&& forall|g: int| 0 <= g < c.groups.len() ==> (#[trigger] c.groups[g]).skill_ids.no_duplicates()
    &&& forall|g: int, k: int|
        0 <= g < c.groups.len() && 0 <= k < c.groups[g].skill_ids.len() ==> skill_ids(c.skills).contains(
            #[trigger] c.groups[g].skill_ids[k],
        )
}

/// Every group of `groups` without any member equal to `id`.
pub open spec fn groups_without_member(groups: Seq<GroupView>, id: Seq<char>) -> Seq<GroupView> {
    groups.map_values(|g: GroupView| without_member(g, id))
}

/// The catalog `c` with other groups.
pub open spec fn with_groups(c: CatalogView, groups: Seq<GroupView>) -> CatalogView {
    CatalogView { schema_version: c.schema_version, skills: c.skills, groups }
}

/// The catalog `c` with other skills.
pub open spec fn with_skills(c: CatalogView, skills: Seq<SkillView>) -> CatalogView {
    CatalogView { schema_version: c.schema_version, skills, groups: c.groups }
}

/// The catalog entry for a parsed skill imported under `id`: a local skill
/// whose folder is `id` within the skills folder.
pub open spec fn imported_entry(parsed: SkillView, id: Seq<char>, skills_dir: Seq<char>) -> SkillView {
    SkillView {
        id,
        name: parsed.name,
        description: parsed.description,
        version: parsed.version,
        source_type: SourceType::Local,
        library_path: Some(joined_path(skills_dir, id)),
        install_command: None,
        tags: parsed.tags,
    }
}

/// A skill whose folder lies in `dir`, under its id as the folder's name.
pub open spec fn kept_in(skill: SkillView, dir: Seq<char>) -> bool {
    skill.library_path matches Some(p) && path_has_prefix(p, dir) && path_file_name(p) == Some(skill.id)
}

/// The entries that importing `parsed`, in order, adds to a catalog holding
/// `existing`: each keeps its parsed id if free, else the first free
/// suffixed form of it, among the existing skills and those imported before it.
pub open spec fn import_entries(skills_dir: Seq<char>, existing: Seq<SkillView>, parsed: Seq<SkillView>) -> Seq<SkillView>
    decreases parsed.len(),
{
    if parsed.len() == 0 {
        Seq::empty()
    } else {
        let prev = import_entries(skills_dir, existing, parsed.drop_last());
        let p = parsed.last();
        prev.push(imported_entry(p, unique_id_for(p.id, skill_ids(existing + prev)), skills_dir))
    }
}

/// The ids of `skills`, in order.
fn collect_skill_ids(skills: &Vec<Skill>) -> (ids: Vec<String>)
    ensures
        ids.deep_view() == skill_ids(skills.deep_view()),
{
    let mut ids: Vec<String> = Vec::new();
    let mut i: usize = 0;
    while i < skills.len()
        invariant
            i <= skills.len(),
            ids@.len() == i,
            ids.deep_view() == skill_ids(skills.deep_view()).take(i as int),
        decreases skills.len() - i,
    {
        let id = skills[i].id.clone();
        ids.push(id);
        assert(ids.deep_view() =~= skill_ids(skills.deep_view()).take(i + 1));
        i = i + 1;
    }
    assert(skill_ids(skills.deep_view()).take(skills.len() as int) =~= skill_ids(skills.deep_view()));
    ids
}

/// The ids of `groups`, in order.
fn collect_group_ids(groups: &Vec<SkillGroup>) -> (ids: Vec<String>)
    ensures
        ids.deep_view() == group_ids(groups.deep_view()),
{
    let mut ids: Vec<String> = Vec::new();
    let mut i: usize = 0;
    while i < groups.len()
        invariant
            i <= groups.len(),
            ids@.len() == i,
            ids.deep_view() == group_ids(groups.deep_view()).take(i as int),
        decreases groups.len() - i,
    {
        let id = groups[i].id.clone();
        ids.push(id);
        assert(ids.deep_view() =~= group_ids(groups.deep_view()).take(i + 1));
        i = i + 1;
    }
    assert(group_ids(groups.deep_view()).take(groups.len() as int) =~= group_ids(groups.deep_view()));
    ids
}

/// `ids` without the strings equal to `id`, in order.
fn without_string(ids: &Vec<String>, id: &String) -> (r: Vec<String>)
    ensures
        r.deep_view() == ids.deep_view().filter(other_than(id@)),
{
    let ghost all = ids.deep_view();
    let ghost pred = other_than(id@);
    let mut r: Vec<String> = Vec::new();
    let mut i: usize = 0;
    while i < ids.len()
        invariant
            all == ids.deep_view(),
            pred == other_than(id@),
            i <= ids.len(),
            r.deep_view() == all.take(i as int).filter(pred),
        decreases ids.len() - i,
    {
        reveal(Seq::filter);
        assert(all.take(i + 1).drop_last() =~= all.take(i as int));
        assert(all.take(i + 1).last() == ids@[i as int]@);
        if ids[i] != *id {
            let x = ids[i].clone();
            let ghost before = r;
            r.push(x);
            proof {
                lemma_deep_view_push(before, r, x);
            }
        }
        i = i + 1;
    }
    assert(all.take(ids.len() as int) =~= all);
    r
}

/// Whether `reference` names `skill`: its exact id, or its name ignoring ASCII case.
fn matches_skill(skill: &Skill, reference: &String) -> (r: bool)
    ensures
        r == skill_matches(skill@, reference@),
{
    skill.id == *reference || str_eq_ignore_ascii_case(skill.name.as_str(), reference.as_str())
}

/// Whether `reference` names `group`: its exact id, or its name ignoring ASCII case.
fn matches_group(group: &SkillGroup, reference: &String) -> (r: bool)
    ensures
        r == group_matches(group@, reference@),
{
    group.id == *reference || str_eq_ignore_ascii_case(group.name.as_str(), reference.as_str())
}

/// The position of the first skill that `reference` names.
pub(crate) fn skill_index(skills: &Vec<Skill>, reference: &String) -> (r: Option<usize>)
    ensures
        match r {
            Some(i) => i < skills@.len() && skill_position(skills.deep_view(), reference@) == Some(i as int),
            None => skill_position(skills.deep_view(), reference@) is None,
        },
{
    let ghost all = skills.deep_view();
    let ghost p = |s: SkillView| skill_matches(s, reference@);
    let mut i: usize = 0;
    while i < skills.len()
        invariant
            all == skills.deep_view(),
            p == (|s: SkillView| skill_matches(s, reference@)),
            i <= skills.len(),
            forall|j: int| 0 <= j < i ==> !p(#[trigger] all[j]),
        decreases skills.len() - i,
    {
        if matches_skill(&skills[i], reference) {
            proof {
                lemma_first_index_is(all, p, i as int);
            }
            return Some(i);
        }
        i = i + 1;
    }
    proof {
        lemma_first_index_none(all, p);
    }
    None
}

/// The position of the first group that `reference` names.
fn group_index(groups: &Vec<SkillGroup>, reference: &String) -> (r: Option<usize>)
    ensures
        match r {
            Some(i) => i < groups@.len() && group_position(groups.deep_view(), reference@) == Some(i as int),
            None => group_position(groups.deep_view(), reference@) is None,
        },
{
    let ghost all = groups.deep_view();
    let ghost p = |g: GroupView| group_matches(g, reference@);
    let mut i: usize = 0;
    while i < groups.len()
        invariant
            all == groups.deep_view(),
            p == (|g: GroupView| group_matches(g, reference@)),
            i <= groups.len(),
            forall|j: int| 0 <= j < i ==> !p(#[trigger] all[j]),
        decreases groups.len() - i,
    {
        if matches_group(&groups[i], reference) {
            proof {
                lemma_first_index_is(all, p, i as int);
            }
            return Some(i);
        }
        i = i + 1;
    }
    proof {
        lemma_first_index_none(all, p);
    }
    None
}

/// Copies of all skills of `skills`, in order.
fn clone_skills(skills: &Vec<Skill>) -> (r: Vec<Skill>)
    ensures
        r.deep_view() == skills.deep_view(),
{
    let mut r: Vec<Skill> = Vec::new();
    let mut i: usize = 0;
    while i < skills.len()
        invariant
            i <= skills.len(),
            r@.len() == i,
            r.deep_view() == skills.deep_view().take(i as int),
        decreases skills.len() - i,
    {
        let s = skills[i].clone();
        assert(s.deep_view() == skills.deep_view()[i as int]);
        r.push(s);
        assert(r.deep_view() =~= skills.deep_view().take(i + 1));
        i = i + 1;
    }
    assert(skills.deep_view().take(skills.len() as int) =~= skills.deep_view());
    r
}

/// The catalog of skills and groups, with the folders it is kept in.
pub struct SkillsStore {
    paths: AppPaths,
    catalog: Catalog,
}

impl View for SkillsStore {
    type V = CatalogView;

    closed spec fn view(&self) -> CatalogView {
        self.catalog@
    }
}

impl SkillsStore {
    /// The files and folders the catalog is kept in.
    pub closed spec fn layout(&self) -> AppPaths {
        self.paths
    }

    /// The files and folders the catalog is kept in.
    pub fn paths(&self) -> (paths: &AppPaths)
        ensures
            *paths == self.layout(),
    {
        &self.paths
    }

    /// A store for the catalog kept in `data_dir`, holding the catalog read from
    /// there or, where none was stored yet, an empty one.
    pub fn open(data_dir: String, stored: Option<Catalog>) -> (store: SkillsStore)
        ensures
            store.layout().is_layout_of(data_dir@),
            match stored {
                Some(c) => store@ == c@,
                None => store@.schema_version == crate::model::SCHEMA_VERSION && store@.skills.len() == 0
                    && store@.groups.len() == 0 && catalog_wf(store@),
            },
    {
        let paths = AppPaths::from_data_dir(data_dir);
        let catalog = match stored {
            Some(c) => c,
            None => Catalog::default(),
        };
        SkillsStore { paths, catalog }
    }

    /// The catalog.
    pub fn catalog(&self) -> (c: &Catalog)
        ensures
            c@ == self@,
    {
        &self.catalog
    }

    /// The skills that a query finds: all of them for a blank query, else those
    /// whose name, description, id or a tag contains the trimmed, lower-cased
    /// query ignoring case, in catalog order.
    pub fn search(&self, query: &str) -> (found: Vec<Skill>)
        ensures
            found.deep_view() == search_result(self@.skills, query@),
            trimmed(query@).len() == 0 ==> found.deep_view() == self@.skills,
    {
        let needle_text = to_lowercase(trim(query).as_str());
        let needle = chars_of(needle_text.as_str());
        let skills = &self.catalog.skills;
        if needle.len() == 0 {
            return clone_skills(skills);
        }
        let ghost all = skills.deep_view();
        let ghost pred = |s: SkillView| skill_has_needle(s, needle@);
        let mut found: Vec<Skill> = Vec::new();
        let mut i: usize = 0;
        while i < skills.len()
            invariant
                all == skills.deep_view(),
                needle@ == query_needle(query@),
                pred == (|s: SkillView| skill_has_needle(s, needle@)),
                i <= skills.len(),
                found.deep_view() == all.take(i as int).filter(pred),
            decreases skills.len() - i,
        {
            reveal(Seq::filter);
            assert(all.take(i + 1).drop_last() =~= all.take(i as int));
            assert(all.take(i + 1).last() == skills[i as int]@);
            if skill_has_needle_exec(&skills[i], &needle) {
                let s = skills[i].clone();
                found.push(s);
                assert(found.deep_view() =~= all.take(i as int).filter(pred).push(skills[i as int]@));
            }
            i = i + 1;
        }
        assert(all.take(skills.len() as int) =~= all);
        found
    }

    /// The first skill that `skill_ref` names, by exact id or by name ignoring
    /// ASCII case.
    pub fn find_skill(&self, skill_ref: &str) -> (r: Result<&Skill, SkillsError>)
        ensures
            match skill_position(self@.skills, skill_ref@) {
                Some(i) => r matches Ok(s) && s@ == self@.skills[i],
                None => r matches Err(e) && is_skill_not_found(e, skill_ref@),
            },
    {
        let reference = skill_ref.to_owned();
        match skill_index(&self.catalog.skills, &reference) {
            Some(i) => Ok(&self.catalog.skills[i]),
            None => Err(SkillsError::SkillNotFound(reference)),
        }
    }

    /// The first group that `group_ref` names, by exact id or by name ignoring
    /// ASCII case.
    pub fn find_group(&self, group_ref: &str) -> (r: Result<&SkillGroup, SkillsError>)
        ensures
            match group_position(self@.groups, group_ref@) {
                Some(i) => r matches Ok(g) && g@ == self@.groups[i],
                None => r matches Err(e) && is_group_not_found(e, group_ref@),
            },
    {
        let reference = group_ref.to_owned();
        match group_index(&self.catalog.groups, &reference) {
            Some(i) => Ok(&self.catalog.groups[i]),
            None => Err(SkillsError::GroupNotFound(reference)),
        }
    }

    /// A new id derived from `base` that no skill has.
    fn unique_skill_id(&self, base: &String) -> (id: String)
        ensures
            id@ == unique_id_for(base@, skill_ids(self@.skills)),
    {
        let taken = collect_skill_ids(&self.catalog.skills);
        unique_id(base, &taken)
    }

    /// A new id derived from `base` that no group has.
    fn unique_group_id(&self, base: &String) -> (id: String)
        ensures
            id@ == unique_id_for(base@, group_ids(self@.groups)),
    {
        let taken = collect_group_ids(&self.catalog.groups);
        unique_id(base, &taken)
    }

    /// Adds a skill that is installed by running `command`. Its id is derived
    /// from the name and made unique among the skills.
    pub fn add_command_skill(&mut self, name: String, description: String, command: String, tags: Vec<String>) -> (skill: Skill)
        ensures
            skill@ == (SkillView {
                id: unique_id_for(slug_of(name@), skill_ids(old(self)@.skills)),
                name: name@,
                description: description@,
                version: None,
                source_type: SourceType::Command,
                library_path: None,
                install_command: Some(command@),
                tags: tags.deep_view(),
            }),
            final(self)@ == with_skills(old(self)@, old(self)@.skills.push(skill@)),
            final(self).layout() == old(self).layout(),
            catalog_wf(old(self)@) ==> catalog_wf(final(self)@),
    {
        let base = slugify(name.as_str());
        let id = self.unique_skill_id(&base);
        let skill = Skill {
            id,
            name,
            description,
            version: None,
            source_type: SourceType::Command,
            library_path: None,
            install_command: Some(command),
            tags,
        };
        let copy = skill.clone();
        let ghost before = self.catalog.skills;
        self.catalog.skills.push(copy);
        proof {
            lemma_deep_view_push(before, self.catalog.skills, copy);
            if catalog_wf(old(self)@) {
                lemma_add_skill_with_unique_id_keeps_wf(old(self)@, skill@, base@);
            }
        }
        skill
    }

    /// Adds an empty group. Its id is derived from the name and made unique
    /// among the groups.
    pub fn create_group(&mut self, name: String, description: Option<String>) -> (group: SkillGroup)
        ensures
            group@ == (GroupView {
                id: unique_id_for(slug_of(name@), group_ids(old(self)@.groups)),
                name: name@,
                description: description.deep_view(),
                skill_ids: Seq::empty(),
            }),
            final(self)@ == with_groups(old(self)@, old(self)@.groups.push(group@)),
            final(self).layout() == old(self).layout(),
            catalog_wf(old(self)@) ==> catalog_wf(final(self)@),
    {
        let base = slugify(name.as_str());
        let id = self.unique_group_id(&base);
        let group = SkillGroup { id, name, description, skill_ids: Vec::new() };
        assert(group@.skill_ids =~= Seq::<Seq<char>>::empty());
        let copy = group.clone();
        let ghost before = self.catalog.groups;
        self.catalog.groups.push(copy);
        proof {
            lemma_deep_view_push(before, self.catalog.groups, copy);
            if catalog_wf(old(self)@) {
                lemma_add_fresh_group_keeps_wf(old(self)@, group@, base@);
            }
        }
        group
    }

    /// Adds the skill that `skill_ref` names to the group that `group_ref`
    /// names, unless it is a member already, and returns the group.
    pub fn add_skill_to_group(&mut self, group_ref: &str, skill_ref: &str) -> (r: Result<SkillGroup, SkillsError>)
        ensures
            final(self).layout() == old(self).layout(),
            catalog_wf(old(self)@) ==> catalog_wf(final(self)@),
            match skill_position(old(self)@.skills, skill_ref@) {
                None => r matches Err(e) && is_skill_not_found(e, skill_ref@) && final(self)@ == old(self)@,
                Some(i) => match group_position(old(self)@.groups, group_ref@) {
                    None => r matches Err(e) && is_group_not_found(e, group_ref@) && final(self)@ == old(self)@,
                    Some(g) => {
                        let updated = with_member(old(self)@.groups[g], old(self)@.skills[i].id);
                        &&& r matches Ok(group) && group@ == updated
                        &&& final(self)@ == with_groups(old(self)@, old(self)@.groups.update(g, updated))
                    },
                },
            },
    {
        let skill_ref = skill_ref.to_owned();
        let si = match skill_index(&self.catalog.skills, &skill_ref) {
            Some(i) => i,
            None => return Err(SkillsError::SkillNotFound(skill_ref)),
        };
        let group_ref = group_ref.to_owned();
        let gi = match group_index(&self.catalog.groups, &group_ref) {
            Some(i) => i,
            None => return Err(SkillsError::GroupNotFound(group_ref)),
        };
        let skill_id = self.catalog.skills[si].id.clone();
        let mut group = self.catalog.groups[gi].clone();
        if !contains_string(&group.skill_ids, &skill_id) {
            let ghost before = group.skill_ids;
            group.skill_ids.push(skill_id);
            proof {
                lemma_deep_view_push(before, group.skill_ids, skill_id);
            }
        }
        assert(group@ == with_member(old(self)@.groups[gi as int], old(self)@.skills[si as int].id));
        let result = group.clone();
        let ghost before = self.catalog.groups;
        self.catalog.groups.set(gi, group);
        proof {
            lemma_deep_view_update(before, self.catalog.groups, gi as int, group);
            if catalog_wf(old(self)@) {
                lemma_add_member_keeps_wf(old(self)@, gi as int, si as int);
            }
        }
        Ok(result)
    }

    /// Removes the skill that `skill_ref` names from the group that `group_ref`
    /// names, and returns the group.
    pub fn remove_skill_from_group(&mut self, group_ref: &str, skill_ref: &str) -> (r: Result<SkillGroup, SkillsError>)
        ensures
            final(self).layout() == old(self).layout(),
            catalog_wf(old(self)@) ==> catalog_wf(final(self)@),
            match skill_position(old(self)@.skills, skill_ref@) {
                None => r matches Err(e) && is_skill_not_found(e, skill_ref@) && final(self)@ == old(self)@,
                Some(i) => match group_position(old(self)@.groups, group_ref@) {
                    None => r matches Err(e) && is_group_not_found(e, group_ref@) && final(self)@ == old(self)@,
                    Some(g) => {
                        let updated = without_member(old(self)@.groups[g], old(self)@.skills[i].id);
                        &&& r matches Ok(group) && group@ == updated
                        &&& final(self)@ == with_groups(old(self)@, old(self)@.groups.update(g, updated))
                    },
                },
            },
    {
        let skill_ref = skill_ref.to_owned();
        let si = match skill_index(&self.catalog.skills, &skill_ref) {
            Some(i) => i,
            None => return Err(SkillsError::SkillNotFound(skill_ref)),
        };
        let group_ref = group_ref.to_owned();
        let gi = match group_index(&self.catalog.groups, &group_ref) {
            Some(i) => i,
            None => return Err(SkillsError::GroupNotFound(group_ref)),
        };
        let skill_id = self.catalog.skills[si].id.clone();
        let mut group = self.catalog.groups[gi].clone();
        group.skill_ids = without_string(&group.skill_ids, &skill_id);
        assert(group@ == without_member(old(self)@.groups[gi as int], old(self)@.skills[si as int].id));
        let result = group.clone();
        let ghost before = self.catalog.groups;
        self.catalog.groups.set(gi, group);
        proof {
            lemma_deep_view_update(before, self.catalog.groups, gi as int, group);
            if catalog_wf(old(self)@) {
                lemma_remove_member_keeps_wf(old(self)@, gi as int, old(self)@.skills[si as int].id);
            }
        }
        Ok(result)
    }

    /// Removes the group that `group_ref` names and returns it.
    pub fn delete_group(&mut self, group_ref: &str) -> (r: Result<SkillGroup, SkillsError>)
        ensures
            final(self).layout() == old(self).layout(),
            catalog_wf(old(self)@) ==> catalog_wf(final(self)@),
            match group_position(old(self)@.groups, group_ref@) {
                None => r matches Err(e) && is_group_not_found(e, group_ref@) && final(self)@ == old(self)@,
                Some(g) => {
                    &&& r matches Ok(group) && group@ == old(self)@.groups[g]
                    &&& final(self)@ == with_groups(old(self)@, old(self)@.groups.remove(g))
                },
            },
    {
        let group_ref = group_ref.to_owned();
        let gi = match group_index(&self.catalog.groups, &group_ref) {
            Some(i) => i,
            None => return Err(SkillsError::GroupNotFound(group_ref)),
        };
        let ghost before = self.catalog.groups;
        let group = self.catalog.groups.remove(gi);
        proof {
            lemma_deep_view_remove(before, self.catalog.groups, gi as int);
            if catalog_wf(old(self)@) {
                lemma_delete_group_keeps_wf(old(self)@, gi as int);
            }
        }
        Ok(group)
    }

    /// Removes the skill that `skill_ref` names, drops its id from every group,
    /// and returns it. Its library folder, if the store owns it, is for the
    /// caller to remove (see [`SkillsStore::library_folder_to_remove`]).
    pub fn delete_skill(&mut self, skill_ref: &str) -> (r: Result<Skill, SkillsError>)
        ensures
            final(self).layout() == old(self).layout(),
            catalog_wf(old(self)@) ==> catalog_wf(final(self)@),
            match skill_position(old(self)@.skills, skill_ref@) {
                None => r matches Err(e) && is_skill_not_found(e, skill_ref@) && final(self)@ == old(self)@,
                Some(i) => {
                    let id = old(self)@.skills[i].id;
                    &&& r matches Ok(skill) && skill@ == old(self)@.skills[i]
                    &&& final(self)@ == (CatalogView {
                        schema_version: old(self)@.schema_version,
                        skills: old(self)@.skills.remove(i),
                        groups: groups_without_member(old(self)@.groups, id),
                    })
                },
            },
    {
        let skill_ref = skill_ref.to_owned();
        let si = match skill_index(&self.catalog.skills, &skill_ref) {
            Some(i) => i,
            None => return Err(SkillsError::SkillNotFound(skill_ref)),
        };
        let ghost before = self.catalog.skills;
        let skill = self.catalog.skills.remove(si);
        proof {
            lemma_deep_view_remove(before, self.catalog.skills, si as int);
        }
        let ghost old_groups = self.catalog.groups.deep_view();
        let ghost id = skill@.id;
        let mut k: usize = 0;
        while k < self.catalog.groups.len()
            invariant
                k <= self.catalog.groups.len(),
                self.catalog.groups.deep_view().len() == old_groups.len(),
                id == skill@.id,
                forall|j: int| 0 <= j < k ==> #[trigger] self.catalog.groups.deep_view()[j] == without_member(old_groups[j], id),
                forall|j: int| k <= j < old_groups.len() ==> #[trigger] self.catalog.groups.deep_view()[j] == old_groups[j],
                self.catalog.skills.deep_view() == old(self)@.skills.remove(si as int),
                self.catalog.schema_version == old(self).catalog.schema_version,
                self.layout() == old(self).layout(),
            decreases self.catalog.groups.len() - k,
        {
            let mut group = self.catalog.groups[k].clone();
            assert(self.catalog.groups.deep_view()[k as int] == old_groups[k as int]);
            group.skill_ids = without_string(&group.skill_ids, &skill.id);
            assert(group@ == without_member(old_groups[k as int], id));
            let ghost before = self.catalog.groups;
            self.catalog.groups.set(k, group);
            proof {
                lemma_deep_view_update(before, self.catalog.groups, k as int, group);
            }
            k = k + 1;
        }
        assert(self.catalog.groups.deep_view() =~= groups_without_member(old_groups, id));
        proof {
            if catalog_wf(old(self)@) {
                lemma_delete_skill_keeps_wf(old(self)@, si as int);
            }
        }
        Ok(skill)
    }

    /// The library folder of `skill` that removing the skill should delete: its
    /// folder, where that lies within the store's skills folder.
    pub fn library_folder_to_remove(&self, skill: &Skill) -> (folder: Option<String>)
        ensures
            match skill.library_path {
                Some(p) => if path_has_prefix(p@, self.layout().skills_dir@) {
                    folder matches Some(f) && f@ == p@
                } else {
                    folder is None
                },
                None => folder is None,
            },
    {
        match &skill.library_path {
            Some(p) => if path_starts_with(p.as_str(), self.paths.skills_dir.as_str()) {
                Some(p.clone())
            } else {
                None
            },
            None => None,
        }
    }

    /// Adds the skills parsed from the folders found under `source`, as local
    /// skills of the library: each gets an id that is free among the skills and
    /// a library folder named after that id. The caller copies each folder
    /// into its library folder. Where nothing was found the import fails.
    pub fn import_path(&mut self, source: &str, parsed: Vec<Skill>) -> (r: Result<Vec<Skill>, SkillsError>)
        ensures
            final(self).layout() == old(self).layout(),
            catalog_wf(old(self)@) ==> catalog_wf(final(self)@),
            parsed@.len() == 0 ==> (r matches Err(SkillsError::InvalidSkillFolder(m)) && m@ == source@
                && final(self)@ == old(self)@),
            parsed@.len() > 0 ==> {
                let entries = import_entries(old(self).layout().skills_dir@, old(self)@.skills, parsed.deep_view());
                &&& r matches Ok(imported) && imported.deep_view() == entries
                &&& final(self)@ == with_skills(old(self)@, old(self)@.skills + entries)
                &&& forall|k: int| 0 <= k < entries.len() && plain_segment(parsed@[k]@.id)
                    ==> kept_in(#[trigger] entries[k], old(self).layout().skills_dir@)
            },
    {
        if parsed.len() == 0 {
            return Err(SkillsError::InvalidSkillFolder(source.to_owned()));
        }
        let ghost dir = self.paths.skills_dir@;
        let ghost existing = old(self)@.skills;
        let mut imported: Vec<Skill> = Vec::new();
        let mut i: usize = 0;
        while i < parsed.len()
            invariant
                i <= parsed.len(),
                dir == self.paths.skills_dir@,
                self.layout() == old(self).layout(),
                existing == old(self)@.skills,
                imported.deep_view() == import_entries(dir, existing, parsed.deep_view().take(i as int)),
                self@ == with_skills(old(self)@, existing + imported.deep_view()),
                imported@.len() == i,
                forall|k: int| 0 <= k < i && plain_segment(parsed@[k]@.id) ==> kept_in(#[trigger] imported.deep_view()[k], dir),
            decreases parsed.len() - i,
        {
            let p = &parsed[i];
            assert(parsed.deep_view().take(i + 1).drop_last() =~= parsed.deep_view().take(i as int));
            assert(parsed.deep_view().take(i + 1).last() == p@);
            let id = self.unique_skill_id(&p.id);
            proof {
                if plain_segment(p.id@) {
                    lemma_unique_id_is_plain(p.id@, skill_ids(self@.skills));
                }
            }
            let destination = crate::paths::path_join(self.paths.skills_dir.as_str(), id.as_str());
            let entry = Skill {
                id,
                name: p.name.clone(),
                description: p.description.clone(),
                version: crate::model::clone_opt_string(&p.version),
                source_type: SourceType::Local,
                library_path: Some(destination),
                install_command: None,
                tags: crate::model::clone_strings(&p.tags),
            };
            let copy = entry.clone();
            let ghost before_skills = self.catalog.skills;
            self.catalog.skills.push(copy);
            let ghost before_imported = imported;
            imported.push(entry);
            proof {
                lemma_deep_view_push(before_skills, self.catalog.skills, copy);
                lemma_deep_view_push(before_imported, imported, entry);
                assert(existing + imported.deep_view() =~= (existing + before_imported.deep_view()).push(entry@));
                assert(imported.deep_view()[i as int] == entry@);
                assert forall|k: int| 0 <= k < i + 1 && plain_segment(parsed@[k]@.id) implies kept_in(
                    #[trigger] imported.deep_view()[k],
                    dir,
                ) by {
                    if k < i {
                        assert(imported.deep_view()[k] == before_imported.deep_view()[k]);
                    }
                }
            }
            i = i + 1;
        }
        assert(parsed.deep_view().take(parsed.len() as int) =~= parsed.deep_view());
        proof {
            if catalog_wf(old(self)@) {
                lemma_import_keeps_wf(old(self)@, dir, parsed.deep_view());
            }
        }
        Ok(imported)
    }
}

} // verus!

use vstd::prelude::*;

use crate::ids::{lemma_unique_id_is_fresh, unique_id_for};
use crate::install::{is_ascii_agreement, install_step, is_local, local_installs, previews_of, resolve_refs, run_install, StepView, installed_local};
use crate::installation::{consistent, InstallationView};
use crate::model::{CommandExecutionMode, InstalledView};
use crate::paths::joined_path;
use crate::model::{group_matches, group_position, lemma_first_index, skill_matches, skill_position, CatalogView, GroupView, SkillView, SourceType};
use crate::frontmatter::{closing_fence, crlf_to_lf, first_occurrence_from, frontmatter_yaml, opening_fence};
use crate::slug::{slug_of, slug_scan, strip_leading_dashes, strip_trailing_dashes};
use crate::text::{ascii_lower, is_ascii_alnum, seq_contains, trimmed, unicode_lowercase};
use crate::store::{catalog_wf, groups_without_member, other_than, query_needle, search_result, skill_has_needle, group_ids, import_entries, skill_ids, with_groups, with_member, with_skills, without_member};

verus! {

proof fn lemma_push_no_duplicates<A>(s: Seq<A>, x: A)
    requires
        s.no_duplicates(),
        !s.contains(x),
    ensures
        s.push(x).no_duplicates(),
{
    let t = s.push(x);
    assert forall|i: int, j: int| 0 <= i < t.len() && 0 <= j < t.len() && i != j implies t[i] != t[j] by {
        if i == s.len() {
            assert(s.contains(t[j]));
        } else if j == s.len() {
            assert(s.contains(t[i]));
        }
    }
}

proof fn lemma_filter_keeps<A>(s: Seq<A>, p: spec_fn(A) -> bool)
    ensures
        forall|k: int| 0 <= k < s.filter(p).len() ==> s.contains(#[trigger] s.filter(p)[k]) && p(s.filter(p)[k]),
        s.no_duplicates() ==> s.filter(p).no_duplicates(),
    decreases s.len(),
{
    reveal(Seq::filter);
    if s.len() > 0 {
        lemma_filter_keeps(s.drop_last(), p);
        let sub = s.drop_last().filter(p);
        assert forall|k: int| 0 <= k < s.filter(p).len() implies s.contains(#[trigger] s.filter(p)[k]) && p(s.filter(p)[k]) by {
            if k < sub.len() {
                assert(s.drop_last().contains(sub[k]));
                let j = choose|j: int| 0 <= j < s.drop_last().len() && s.drop_last()[j] == sub[k];
                assert(s[j] == sub[k]);
            } else {
                assert(s[s.len() - 1] == s.filter(p)[k]);
            }
        }
        if s.no_duplicates() {
            assert(s.drop_last().no_duplicates()) by {
                assert forall|i: int, j: int| 0 <= i < s.drop_last().len() && 0 <= j < s.drop_last().len() && i != j implies s.drop_last()[i] != s.drop_last()[j] by {
                    assert(s.drop_last()[i] == s[i] && s.drop_last()[j] == s[j]);
                }
            }
            if p(s.last()) {
                if sub.contains(s.last()) {
                    let k = choose|k: int| 0 <= k < sub.len() && sub[k] == s.last();
                    assert(s.drop_last().contains(sub[k]));
                    let j = choose|j: int| 0 <= j < s.drop_last().len() && s.drop_last()[j] == sub[k];
                    assert(s[j] == s[s.len() - 1]);
                }
                lemma_push_no_duplicates(sub, s.last());
            }
        }
    }
}

/// Adding a skill whose id no skill has keeps the catalog well formed.
pub proof fn lemma_add_fresh_skill_keeps_wf(c: CatalogView, s: SkillView)
    requires
        catalog_wf(c),
        !skill_ids(c.skills).contains(s.id),
    ensures
        catalog_wf(with_skills(c, c.skills.push(s))),
{
    let d = with_skills(c, c.skills.push(s));
    assert(skill_ids(d.skills) =~= skill_ids(c.skills).push(s.id));
    lemma_push_no_duplicates(skill_ids(c.skills), s.id);
    assert forall|g: int, k: int| 0 <= g < d.groups.len() && 0 <= k < d.groups[g].skill_ids.len() implies skill_ids(d.skills).contains(#[trigger] d.groups[g].skill_ids[k]) by {
        let m = d.groups[g].skill_ids[k];
        assert(skill_ids(c.skills).contains(m));
        let j = choose|j: int| 0 <= j < skill_ids(c.skills).len() && skill_ids(c.skills)[j] == m;
        assert(skill_ids(d.skills)[j] == m);
    }
}

/// A skill added by `add_command_skill` gets a fresh id, so the catalog stays
/// well formed.
pub proof fn lemma_add_skill_with_unique_id_keeps_wf(c: CatalogView, s: SkillView, base: Seq<char>)
    requires
        catalog_wf(c),
        s.id == unique_id_for(base, skill_ids(c.skills)),
    ensures
        catalog_wf(with_skills(c, c.skills.push(s))),
{
    lemma_unique_id_is_fresh(base, skill_ids(c.skills));
    lemma_add_fresh_skill_keeps_wf(c, s);
}

/// Adding an empty group whose id no group has keeps the catalog well formed.
pub proof fn lemma_add_fresh_group_keeps_wf(c: CatalogView, g: GroupView, base: Seq<char>)
    requires
        catalog_wf(c),
        g.id == unique_id_for(base, group_ids(c.groups)),
        g.skill_ids.len() == 0,
    ensures
        catalog_wf(with_groups(c, c.groups.push(g))),
{
    lemma_unique_id_is_fresh(base, group_ids(c.groups));
    let d = with_groups(c, c.groups.push(g));
    assert(group_ids(d.groups) =~= group_ids(c.groups).push(g.id));
    lemma_push_no_duplicates(group_ids(c.groups), g.id);
    assert forall|h: int| 0 <= h < d.groups.len() implies (#[trigger] d.groups[h]).skill_ids.no_duplicates() by {
        if h < c.groups.len() {
            assert(d.groups[h] == c.groups[h]);
        }
    }
    assert forall|h: int, k: int| 0 <= h < d.groups.len() && 0 <= k < d.groups[h].skill_ids.len() implies skill_ids(d.skills).contains(#[trigger] d.groups[h].skill_ids[k]) by {
        assert(h < c.groups.len());
        assert(d.groups[h] == c.groups[h]);
    }
}

/// Replacing a group by one with the same id whose members are distinct ids of
/// skills keeps the catalog well formed.
proof fn lemma_replace_group_keeps_wf(c: CatalogView, g: int, updated: GroupView)
    requires
        catalog_wf(c),
        0 <= g < c.groups.len(),
        updated.id == c.groups[g].id,
        updated.skill_ids.no_duplicates(),
        forall|k: int| 0 <= k < updated.skill_ids.len() ==> skill_ids(c.skills).contains(#[trigger] updated.skill_ids[k]),
    ensures
        catalog_wf(with_groups(c, c.groups.update(g, updated))),
{
    let d = with_groups(c, c.groups.update(g, updated));
    assert(group_ids(d.groups) =~= group_ids(c.groups));
    assert forall|h: int| 0 <= h < d.groups.len() implies (#[trigger] d.groups[h]).skill_ids.no_duplicates() by {
        if h != g {
            assert(d.groups[h] == c.groups[h]);
        }
    }
    assert forall|h: int, k: int| 0 <= h < d.groups.len() && 0 <= k < d.groups[h].skill_ids.len() implies skill_ids(d.skills).contains(#[trigger] d.groups[h].skill_ids[k]) by {
        if h != g {
            assert(d.groups[h] == c.groups[h]);
        }
    }
}

/// Adding a skill of the catalog to a group keeps the catalog well formed.
pub proof fn lemma_add_member_keeps_wf(c: CatalogView, g: int, i: int)
    requires
        catalog_wf(c),
        0 <= g < c.groups.len(),
        0 <= i < c.skills.len(),
    ensures
        catalog_wf(with_groups(c, c.groups.update(g, with_member(c.groups[g], c.skills[i].id)))),
{
    let old_group = c.groups[g];
    let id = c.skills[i].id;
    let updated = with_member(old_group, id);
    assert(skill_ids(c.skills)[i] == id);
    assert(old_group.skill_ids.no_duplicates());
    if !old_group.skill_ids.contains(id) {
        lemma_push_no_duplicates(old_group.skill_ids, id);
    }
    assert forall|k: int| 0 <= k < updated.skill_ids.len() implies skill_ids(c.skills).contains(#[trigger] updated.skill_ids[k]) by {
        if k < old_group.skill_ids.len() {
            assert(updated.skill_ids[k] == old_group.skill_ids[k]);
        }
    }
    lemma_replace_group_keeps_wf(c, g, updated);
}

/// Removing a skill from a group keeps the catalog well formed.
pub proof fn lemma_remove_member_keeps_wf(c: CatalogView, g: int, id: Seq<char>)
    requires
        catalog_wf(c),
        0 <= g < c.groups.len(),
    ensures
        catalog_wf(with_groups(c, c.groups.update(g, without_member(c.groups[g], id)))),
{
    let old_group = c.groups[g];
    let updated = without_member(old_group, id);
    lemma_filter_keeps(old_group.skill_ids, other_than(id));
    assert forall|k: int| 0 <= k < updated.skill_ids.len() implies skill_ids(c.skills).contains(#[trigger] updated.skill_ids[k]) by {
        let m = updated.skill_ids[k];
        assert(old_group.skill_ids.contains(m));
        let j = choose|j: int| 0 <= j < old_group.skill_ids.len() && old_group.skill_ids[j] == m;
        assert(skill_ids(c.skills).contains(c.groups[g].skill_ids[j]));
    }
    lemma_replace_group_keeps_wf(c, g, updated);
}

/// Deleting a group keeps the catalog well formed.
pub proof fn lemma_delete_group_keeps_wf(c: CatalogView, g: int)
    requires
        catalog_wf(c),
        0 <= g < c.groups.len(),
    ensures
        catalog_wf(with_groups(c, c.groups.remove(g))),
{
    let d = with_groups(c, c.groups.remove(g));
    let before = group_ids(c.groups);
    assert(group_ids(d.groups) =~= before.remove(g));
    assert forall|i: int, j: int| 0 <= i < group_ids(d.groups).len() && 0 <= j < group_ids(d.groups).len() && i != j implies group_ids(d.groups)[i] != group_ids(d.groups)[j] by {
        let oi = if i < g { i } else { i + 1 };
        let oj = if j < g { j } else { j + 1 };
        assert(group_ids(d.groups)[i] == before[oi]);
        assert(group_ids(d.groups)[j] == before[oj]);
    }
    assert forall|h: int| 0 <= h < d.groups.len() implies (#[trigger] d.groups[h]).skill_ids.no_duplicates() by {
        let oh = if h < g { h } else { h + 1 };
        assert(d.groups[h] == c.groups[oh]);
    }
    assert forall|h: int, k: int| 0 <= h < d.groups.len() && 0 <= k < d.groups[h].skill_ids.len() implies skill_ids(d.skills).contains(#[trigger] d.groups[h].skill_ids[k]) by {
        let oh = if h < g { h } else { h + 1 };
        assert(d.groups[h] == c.groups[oh]);
    }
}

/// Deleting a skill and dropping its id from every group keeps the catalog
/// well formed.
pub proof fn lemma_delete_skill_keeps_wf(c: CatalogView, i: int)
    requires
        catalog_wf(c),
        0 <= i < c.skills.len(),
    ensures
        catalog_wf(CatalogView {
            schema_version: c.schema_version,
            skills: c.skills.remove(i),
            groups: groups_without_member(c.groups, c.skills[i].id),
        }),
{
    let id = c.skills[i].id;
    let d = CatalogView {
        schema_version: c.schema_version,
        skills: c.skills.remove(i),
        groups: groups_without_member(c.groups, id),
    };
    let before = skill_ids(c.skills);
    assert(skill_ids(d.skills) =~= before.remove(i));
    assert forall|a: int, b: int| 0 <= a < skill_ids(d.skills).len() && 0 <= b < skill_ids(d.skills).len() && a != b implies skill_ids(d.skills)[a] != skill_ids(d.skills)[b] by {
        let oa = if a < i { a } else { a + 1 };
        let ob = if b < i { b } else { b + 1 };
        assert(skill_ids(d.skills)[a] == before[oa]);
        assert(skill_ids(d.skills)[b] == before[ob]);
    }
    assert(group_ids(d.groups) =~= group_ids(c.groups));
    assert forall|h: int| 0 <= h < d.groups.len() implies (#[trigger] d.groups[h]).skill_ids.no_duplicates() by {
        assert(d.groups[h] == without_member(c.groups[h], id));
        lemma_filter_keeps(c.groups[h].skill_ids, other_than(id));
    }
    assert forall|h: int, k: int| 0 <= h < d.groups.len() && 0 <= k < d.groups[h].skill_ids.len() implies skill_ids(d.skills).contains(#[trigger] d.groups[h].skill_ids[k]) by {
        assert(d.groups[h] == without_member(c.groups[h], id));
        let members = c.groups[h].skill_ids;
        lemma_filter_keeps(members, other_than(id));
        let m = d.groups[h].skill_ids[k];
        assert(members.contains(m) && m != id);
        let j = choose|j: int| 0 <= j < members.len() && members[j] == m;
        assert(before.contains(c.groups[h].skill_ids[j]));
        let s = choose|s: int| 0 <= s < before.len() && before[s] == m;
        assert(s != i);
        let ns = if s < i { s } else { s - 1 };
        assert(skill_ids(d.skills)[ns] == m);
    }
}

/// Importing skills gives each an id that is free among the catalog's skills
/// and those imported before it, so the catalog stays well formed.
pub proof fn lemma_import_keeps_wf(c: CatalogView, skills_dir: Seq<char>, parsed: Seq<SkillView>)
    requires
        catalog_wf(c),
    ensures
        catalog_wf(with_skills(c, c.skills + import_entries(skills_dir, c.skills, parsed))),
    decreases parsed.len(),
{
    if parsed.len() == 0 {
        assert(c.skills + import_entries(skills_dir, c.skills, parsed) =~= c.skills);
        assert(with_skills(c, c.skills) == c);
    } else {
        lemma_import_keeps_wf(c, skills_dir, parsed.drop_last());
        let prev = import_entries(skills_dir, c.skills, parsed.drop_last());
        let mid = with_skills(c, c.skills + prev);
        let p = parsed.last();
        let e = crate::store::imported_entry(p, unique_id_for(p.id, skill_ids(c.skills + prev)), skills_dir);
        lemma_unique_id_is_fresh(p.id, skill_ids(c.skills + prev));
        lemma_add_fresh_skill_keeps_wf(mid, e);
        assert(c.skills + import_entries(skills_dir, c.skills, parsed) =~= (c.skills + prev).push(e));
    }
}

/// Adding a skill to a group twice leaves the group as adding it once.
pub proof fn law_add_member_idempotent(group: GroupView, id: Seq<char>)
    ensures
        with_member(with_member(group, id), id) == with_member(group, id),
{
    if !group.skill_ids.contains(id) {
        assert(with_member(group, id).skill_ids[group.skill_ids.len() as int] == id);
    }
}

/// Removing a skill from a group undoes adding it, where it was not a member
/// before; in any case no member equal to it is left.
pub proof fn law_remove_undoes_add(group: GroupView, id: Seq<char>)
    ensures
        !group.skill_ids.contains(id) ==> without_member(with_member(group, id), id) == group,
        !without_member(group, id).skill_ids.contains(id),
{
    lemma_filter_keeps(group.skill_ids, other_than(id));
    if !group.skill_ids.contains(id) {
        let added = with_member(group, id).skill_ids;
        lemma_filter_all_but(group.skill_ids, id);
        reveal(Seq::filter);
        assert(added.drop_last() =~= group.skill_ids);
        assert(added.filter(other_than(id)) == group.skill_ids.filter(other_than(id)));
    }
    if without_member(group, id).skill_ids.contains(id) {
        let k = choose|k: int| 0 <= k < without_member(group, id).skill_ids.len() && without_member(group, id).skill_ids[k] == id;
        assert(other_than(id)(group.skill_ids.filter(other_than(id))[k]));
    }
}

/// Filtering out a value that does not occur keeps the sequence as it is.
proof fn lemma_filter_all_but(s: Seq<Seq<char>>, id: Seq<char>)
    requires
        !s.contains(id),
    ensures
        s.filter(other_than(id)) == s,
    decreases s.len(),
{
    reveal(Seq::filter);
    if s.len() > 0 {
        assert(!s.drop_last().contains(id)) by {
            if s.drop_last().contains(id) {
                let k = choose|k: int| 0 <= k < s.drop_last().len() && s.drop_last()[k] == id;
                assert(s[k] == id);
            }
        }
        lemma_filter_all_but(s.drop_last(), id);
        assert(s.last() != id) by {
            if s.last() == id {
                assert(s[s.len() - 1] == id);
            }
        }
        assert(s.drop_last().push(s.last()) =~= s);
    }
}

/// After a skill is deleted, no group lists its id any more.
pub proof fn law_deleted_skill_leaves_no_member(groups: Seq<GroupView>, id: Seq<char>)
    ensures
        forall|g: int| 0 <= g < groups.len() ==> !(#[trigger] groups_without_member(groups, id)[g]).skill_ids.contains(id),
{
    assert forall|g: int| 0 <= g < groups.len() implies !(#[trigger] groups_without_member(groups, id)[g]).skill_ids.contains(id) by {
        law_remove_undoes_add(groups[g], id);
    }
}

/// A search with a blank query finds every skill, in catalog order.
pub proof fn law_blank_query_finds_all(skills: Seq<SkillView>, query: Seq<char>)
    requires
        query_needle(query).len() == 0,
    ensures
        search_result(skills, query) == skills,
{
}

/// A search finds exactly the skills that its needle finds: each skill it
/// returns is a skill of the catalog that the needle finds, and each skill of
/// the catalog that the needle finds is returned.
pub proof fn law_search_finds_exactly(skills: Seq<SkillView>, query: Seq<char>)
    requires
        query_needle(query).len() > 0,
    ensures
        forall|k: int| 0 <= k < search_result(skills, query).len() ==> skills.contains(#[trigger] search_result(skills, query)[k])
            && skill_has_needle(search_result(skills, query)[k], query_needle(query)),
        forall|i: int| 0 <= i < skills.len() && skill_has_needle(skills[i], query_needle(query)) ==> search_result(skills, query).contains(
            #[trigger] skills[i],
        ),
{
    let needle = query_needle(query);
    let p = |s: SkillView| skill_has_needle(s, needle);
    lemma_filter_keeps(skills, p);
    broadcast use vstd::seq_lib::group_filter_ensures;
    assert forall|i: int| 0 <= i < skills.len() && skill_has_needle(skills[i], needle) implies search_result(skills, query).contains(#[trigger] skills[i]) by {
        assert(p(skills[i]));
        skills.lemma_filter_contains(p, i);
    }
}

/// A reference that names some skill always finds one: the first skill it
/// names, which comes no later than any other it names.
pub proof fn law_reference_finds_first_named(skills: Seq<SkillView>, reference: Seq<char>, i: int)
    requires
        0 <= i < skills.len(),
        skill_matches(skills[i], reference),
    ensures
        skill_position(skills, reference) matches Some(j) && j <= i && skill_matches(skills[j], reference),
{
    lemma_first_index(skills, |s: SkillView| skill_matches(s, reference));
}

/// A reference that names some group always finds one: the first group it
/// names, which comes no later than any other it names.
pub proof fn law_group_reference_finds_first_named(groups: Seq<GroupView>, reference: Seq<char>, i: int)
    requires
        0 <= i < groups.len(),
        group_matches(groups[i], reference),
    ensures
        group_position(groups, reference) matches Some(j) && j <= i && group_matches(groups[j], reference),
{
    lemma_first_index(groups, |g: GroupView| group_matches(g, reference));
}

/// An installation lists no command exactly when none of its skills is a
/// command skill; so the command line needs no confirmation then.
pub proof fn law_no_previews_without_command_skills(skills: Seq<SkillView>)
    ensures
        previews_of(skills).len() == 0 <==> forall|i: int| 0 <= i < skills.len() ==> (#[trigger] skills[i]).source_type != SourceType::Command,
    decreases skills.len(),
{
    if skills.len() > 0 {
        law_no_previews_without_command_skills(skills.drop_last());
        assert(forall|i: int| 0 <= i < skills.len() - 1 ==> skills.drop_last()[i] == skills[i]);
        if previews_of(skills).len() == 0 {
            assert(skills.last() == skills[skills.len() - 1]);
        }
    }
}

proof fn lemma_contains_transitive(a: Seq<char>, b: Seq<char>, c: Seq<char>)
    requires
        seq_contains(a, b),
        seq_contains(b, c),
    ensures
        seq_contains(a, c),
{
    let i = choose|i: int| 0 <= i <= a.len() - b.len() && #[trigger] a.subrange(i, i + b.len()) == b;
    let j = choose|j: int| 0 <= j <= b.len() - c.len() && #[trigger] b.subrange(j, j + c.len()) == c;
    assert(a.subrange(i + j, i + j + c.len()) =~= c) by {
        assert forall|k: int| 0 <= k < c.len() implies a.subrange(i + j, i + j + c.len())[k] == c[k] by {
            assert(c[k] == b.subrange(j, j + c.len())[k]);
            assert(b[j + k] == a.subrange(i, i + b.len())[j + k]);
        }
    }
}

proof fn lemma_longer_needle_implies_shorter(skill: SkillView, longer: Seq<char>, shorter: Seq<char>)
    requires
        seq_contains(longer, shorter),
        skill_has_needle(skill, longer),
    ensures
        skill_has_needle(skill, shorter),
{
    if seq_contains(unicode_lowercase(skill.name), longer) {
        lemma_contains_transitive(unicode_lowercase(skill.name), longer, shorter);
    } else if seq_contains(unicode_lowercase(skill.description), longer) {
        lemma_contains_transitive(unicode_lowercase(skill.description), longer, shorter);
    } else if seq_contains(unicode_lowercase(skill.id), longer) {
        lemma_contains_transitive(unicode_lowercase(skill.id), longer, shorter);
    } else {
        let k = choose|k: int| 0 <= k < skill.tags.len() && seq_contains(unicode_lowercase(#[trigger] skill.tags[k]), longer);
        lemma_contains_transitive(unicode_lowercase(skill.tags[k]), longer, shorter);
    }
}

proof fn lemma_filter_of_filter<A>(xs: Seq<A>, weak: spec_fn(A) -> bool, strong: spec_fn(A) -> bool)
    requires
        forall|x: A| #[trigger] strong(x) ==> weak(x),
    ensures
        xs.filter(weak).filter(strong) == xs.filter(strong),
    decreases xs.len(),
{
    reveal(Seq::filter);
    if xs.len() > 0 {
        lemma_filter_of_filter(xs.drop_last(), weak, strong);
        let sub = xs.drop_last().filter(weak);
        if weak(xs.last()) {
            assert(sub.push(xs.last()).drop_last() =~= sub);
        }
    }
}

proof fn lemma_filter_all<A>(xs: Seq<A>, p: spec_fn(A) -> bool)
    requires
        forall|i: int| 0 <= i < xs.len() ==> p(#[trigger] xs[i]),
    ensures
        xs.filter(p) == xs,
    decreases xs.len(),
{
    reveal(Seq::filter);
    if xs.len() > 0 {
        assert forall|i: int| 0 <= i < xs.drop_last().len() implies p(#[trigger] xs.drop_last()[i]) by {
            assert(xs.drop_last()[i] == xs[i]);
        }
        lemma_filter_all(xs.drop_last(), p);
        assert(p(xs[xs.len() - 1]));
        assert(xs.drop_last().push(xs.last()) =~= xs);
    }
}

/// A longer needle never finds more: where the needle of `q2` contains the
/// needle of `q1`, searching with `q2` gives the results of `q1` that the
/// needle of `q2` also finds, in the same order (a subsequence of them).
pub proof fn law_longer_needle_finds_a_subsequence(skills: Seq<SkillView>, q1: Seq<char>, q2: Seq<char>)
    requires
        seq_contains(query_needle(q2), query_needle(q1)),
    ensures
        search_result(skills, q2) == search_result(skills, q1).filter(|s: SkillView| skill_has_needle(s, query_needle(q2))),
        forall|k: int| 0 <= k < search_result(skills, q2).len() ==> search_result(skills, q1).contains(#[trigger] search_result(skills, q2)[k]),
{
    let n1 = query_needle(q1);
    let n2 = query_needle(q2);
    let p1 = |s: SkillView| skill_has_needle(s, n1);
    let p2 = |s: SkillView| skill_has_needle(s, n2);
    if n2.len() == 0 {
        assert forall|i: int| 0 <= i < skills.len() implies p2(#[trigger] skills[i]) by {
            let low = unicode_lowercase(skills[i].name);
            assert(low.subrange(0, 0) =~= n2);
        }
        lemma_filter_all(skills, p2);
    } else if n1.len() > 0 {
        assert forall|x: SkillView| #[trigger] p2(x) implies p1(x) by {
            lemma_longer_needle_implies_shorter(x, n2, n1);
        }
        lemma_filter_of_filter(skills, p1, p2);
    }
    lemma_filter_keeps(search_result(skills, q1), p2);
}

/// An installation in preview mode in which every local skill has a folder and
/// may be copied records the local skills as installed, in order, lists
/// exactly the commands `previews_of` gives (what `preview_group_commands` and
/// `preview_skill_commands` return for the same skills), and runs no command.
pub proof fn law_preview_install_lists_previews(
    skills: Seq<SkillView>,
    target_dir: Seq<char>,
    overwrite: bool,
    exists: Seq<bool>,
)
    requires
        exists.len() == skills.len(),
        forall|i: int| 0 <= i < skills.len() && is_local(#[trigger] skills[i]) ==> skills[i].library_path is Some
            && (!exists[i] || overwrite),
    ensures
        run_install(skills, target_dir, overwrite, CommandExecutionMode::PreviewOnly, exists) == Some(
            (local_installs(skills, target_dir), previews_of(skills)),
        ),
        forall|i: int| 0 <= i < skills.len() ==> !(install_step(#[trigger] skills[i], target_dir, overwrite,
            CommandExecutionMode::PreviewOnly, exists[i]) matches Some(StepView::Run { .. })),
    decreases skills.len(),
{
    if skills.len() > 0 {
        let init = skills.drop_last();
        assert forall|i: int| 0 <= i < init.len() && is_local(#[trigger] init[i]) implies init[i].library_path is Some
            && (!exists.drop_last()[i] || overwrite) by {
            assert(init[i] == skills[i]);
        }
        law_preview_install_lists_previews(init, target_dir, overwrite, exists.drop_last());
        let last = skills.last();
        assert(last == skills[skills.len() - 1]);
        reveal(Seq::filter);
        let p = |s: SkillView| is_local(s);
        let f = |s: SkillView| installed_local(s, joined_path(target_dir, s.id));
        if is_local(last) {
            assert(skills.filter(p) == init.filter(p).push(last));
            assert(skills.filter(p).map_values(f) =~= init.filter(p).map_values(f).push(f(last)));
        } else {
            assert(skills.filter(p) == init.filter(p));
        }
        assert forall|i: int| 0 <= i < skills.len() implies !(install_step(#[trigger] skills[i], target_dir, overwrite,
            CommandExecutionMode::PreviewOnly, exists[i]) matches Some(StepView::Run { .. })) by {
            if i < init.len() {
                assert(init[i] == skills[i]);
                assert(exists.drop_last()[i] == exists[i]);
            }
        }
    }
}

/// Where every member of a group is the id of the skill it names, resolving
/// the members finds them all, in member order.
proof fn lemma_resolve_members_by_id(skills: Seq<SkillView>, members: Seq<Seq<char>>)
    requires
        forall|i: int| 0 <= i < members.len() ==> (skill_position(skills, #[trigger] members[i]) matches Some(j)
            && 0 <= j < skills.len() && skills[j].id == members[i]),
    ensures
        resolve_refs(skills, members).1 is None,
        resolve_refs(skills, members).0.map_values(|s: SkillView| s.id) == members,
    decreases members.len(),
{
    if members.len() > 0 {
        let init = members.drop_last();
        assert forall|i: int| 0 <= i < init.len() implies (skill_position(skills, #[trigger] init[i]) matches Some(j)
            && 0 <= j < skills.len() && skills[j].id == init[i]) by {
            assert(init[i] == members[i]);
        }
        lemma_resolve_members_by_id(skills, init);
        assert(members.last() == members[members.len() - 1]);
        let prev = resolve_refs(skills, init).0;
        let j = skill_position(skills, members.last())->0;
        assert(prev.push(skills[j]).map_values(|s: SkillView| s.id) =~= init.push(members.last()));
        assert(init.push(members.last()) =~= members);
    }
}

/// Installing a group in preview mode, where each member is the id of the skill
/// it names, every local member has a folder and may be copied: the
/// installation succeeds, lists exactly the commands that
/// `preview_group_commands` returns for the group, records the local members
/// as installed in member order, and runs no command.
pub proof fn law_group_preview_install(
    c: CatalogView,
    group_ref: Seq<char>,
    g: int,
    target_dir: Seq<char>,
    overwrite: bool,
    exists: Seq<bool>,
)
    requires
        group_position(c.groups, group_ref) == Some(g),
        0 <= g < c.groups.len(),
        forall|i: int| 0 <= i < c.groups[g].skill_ids.len() ==> (skill_position(c.skills, #[trigger] c.groups[g].skill_ids[i]) matches Some(j)
            && 0 <= j < c.skills.len() && c.skills[j].id == c.groups[g].skill_ids[i]),
        exists.len() == c.groups[g].skill_ids.len(),
        forall|i: int| 0 <= i < resolve_refs(c.skills, c.groups[g].skill_ids).0.len()
            && is_local(#[trigger] resolve_refs(c.skills, c.groups[g].skill_ids).0[i])
            ==> resolve_refs(c.skills, c.groups[g].skill_ids).0[i].library_path is Some && (!exists[i] || overwrite),
    ensures
        ({
            let resolved = resolve_refs(c.skills, c.groups[g].skill_ids);
            &&& resolved.1 is None
            &&& run_install(resolved.0, target_dir, overwrite, CommandExecutionMode::PreviewOnly, exists) == Some(
                (local_installs(resolved.0, target_dir), previews_of(resolved.0)),
            )
            &&& local_installs(resolved.0, target_dir).map_values(|v: InstalledView| v.skill_id)
                == resolved.0.filter(|s: SkillView| is_local(s)).map_values(|s: SkillView| s.id)
            &&& resolved.0.map_values(|s: SkillView| s.id) == c.groups[g].skill_ids
        }),
{
    let members = c.groups[g].skill_ids;
    lemma_resolve_members_by_id(c.skills, members);
    let resolved = resolve_refs(c.skills, members);
    assert(resolved.0.len() == members.len()) by {
        assert(resolved.0.map_values(|s: SkillView| s.id).len() == resolved.0.len());
    }
    law_preview_install_lists_previews(resolved.0, target_dir, overwrite, exists);
    assert(local_installs(resolved.0, target_dir).map_values(|v: InstalledView| v.skill_id)
        =~= resolved.0.filter(|s: SkillView| is_local(s)).map_values(|s: SkillView| s.id));
}

/// An installation of a group in preview mode that has gone through all its
/// skills, where each local member had a folder and could be copied, has
/// recorded the local members as installed, in group order, listed exactly the
/// commands that previewing the group's commands lists, and run no command;
/// no member was missing, so it ends with what it recorded.
pub proof fn law_group_installation_in_preview(c: CatalogView, group_ref: Seq<char>, g: int, run: InstallationView)
    requires
        group_position(c.groups, group_ref) == Some(g),
        0 <= g < c.groups.len(),
        forall|i: int| 0 <= i < c.groups[g].skill_ids.len() ==> (skill_position(c.skills, #[trigger] c.groups[g].skill_ids[i]) matches Some(j)
            && 0 <= j < c.skills.len() && c.skills[j].id == c.groups[g].skill_ids[i]),
        consistent(run),
        run.skills == resolve_refs(c.skills, c.groups[g].skill_ids).0,
        run.mode == CommandExecutionMode::PreviewOnly,
        run.seen.len() == run.skills.len(),
        forall|i: int| 0 <= i < run.skills.len() && is_local(#[trigger] run.skills[i])
            ==> run.skills[i].library_path is Some && (!run.seen[i] || run.overwrite),
    ensures
        resolve_refs(c.skills, c.groups[g].skill_ids).1 is None,
        run.previews == previews_of(run.skills),
        run.installed == local_installs(run.skills, run.target_dir),
        run.installed.map_values(|v: InstalledView| v.skill_id)
            == run.skills.filter(|s: SkillView| is_local(s)).map_values(|s: SkillView| s.id),
        run.skills.map_values(|s: SkillView| s.id) == c.groups[g].skill_ids,
        forall|i: int| 0 <= i < run.installed.len() ==> (#[trigger] run.installed[i]).command is None,
{
    lemma_resolve_members_by_id(c.skills, c.groups[g].skill_ids);
    assert(run.skills.map_values(|s: SkillView| s.id).len() == run.skills.len());
    law_group_preview_install(c, group_ref, g, run.target_dir, run.overwrite, run.seen);
    assert(run.skills.take(run.seen.len() as int) =~= run.skills);
    let locals = run.skills.filter(|s: SkillView| is_local(s));
    assert forall|i: int| 0 <= i < run.installed.len() implies (#[trigger] run.installed[i]).command is None by {
        assert(run.installed[i] == installed_local(locals[i], joined_path(run.target_dir, locals[i].id)));
    }
}


/// A search with a non-blank query returns exactly the skills of the catalog
/// whose name, description, id or one of whose tags, lower-cased, contains
/// the query trimmed and lower-cased.
pub proof fn law_search_looks_at_every_field(skills: Seq<SkillView>, query: Seq<char>)
    requires
        unicode_lowercase(trimmed(query)).len() > 0,
    ensures
        forall|i: int, k: int| 0 <= i < skills.len() && 0 <= k < skills[i].tags.len()
            && seq_contains(unicode_lowercase(#[trigger] skills[i].tags[k]), unicode_lowercase(trimmed(query)))
            ==> search_result(skills, query).contains(skills[i]),
        forall|i: int| 0 <= i < skills.len() && (seq_contains(unicode_lowercase(#[trigger] skills[i].name), unicode_lowercase(trimmed(query)))
            || seq_contains(unicode_lowercase(skills[i].description), unicode_lowercase(trimmed(query)))
            || seq_contains(unicode_lowercase(skills[i].id), unicode_lowercase(trimmed(query))))
            ==> search_result(skills, query).contains(skills[i]),
        forall|j: int| 0 <= j < search_result(skills, query).len() ==> {
            let s = #[trigger] search_result(skills, query)[j];
            let needle = unicode_lowercase(trimmed(query));
            &&& skills.contains(s)
            &&& (seq_contains(unicode_lowercase(s.name), needle) || seq_contains(unicode_lowercase(s.description), needle)
                || seq_contains(unicode_lowercase(s.id), needle)
                || exists|k: int| 0 <= k < s.tags.len() && seq_contains(unicode_lowercase(#[trigger] s.tags[k]), needle))
        },
{
    law_search_finds_exactly(skills, query);
    let needle = unicode_lowercase(trimmed(query));
    assert forall|i: int, k: int| 0 <= i < skills.len() && 0 <= k < skills[i].tags.len()
        && seq_contains(unicode_lowercase(#[trigger] skills[i].tags[k]), needle)
        implies search_result(skills, query).contains(skills[i]) by {
        assert(skill_has_needle(skills[i], query_needle(query)));
    }
}

/// Where a pattern first occurs from `start` on: there it occurs, and nowhere
/// between `start` and there; where it does not occur, it occurs nowhere from
/// `start` on.
proof fn lemma_first_occurrence(s: Seq<char>, pat: Seq<char>, start: int)
    requires
        start >= 0,
    ensures
        match first_occurrence_from(s, pat, start) {
            Some(j) => start <= j && j + pat.len() <= s.len() && s.subrange(j, j + pat.len()) == pat
                && forall|p: int| start <= p < j ==> #[trigger] s.subrange(p, p + pat.len()) != pat,
            None => forall|p: int| start <= p && p + pat.len() <= s.len() ==> #[trigger] s.subrange(p, p + pat.len()) != pat,
        },
    decreases s.len() + 1 - start,
{
    if start + pat.len() <= s.len() && s.subrange(start, start + pat.len()) != pat {
        lemma_first_occurrence(s, pat, start + 1);
    }
}

/// The front matter of a `SKILL.md` text, line endings normalised, is the text
/// between its opening `---` line and the first following line feed that is
/// followed by `---`: the block holds no such line itself. Without an opening
/// line, or without any such closing line after it, there is none.
pub proof fn law_frontmatter_ends_at_first_fence(raw: Seq<char>)
    ensures
        frontmatter_yaml(raw) matches Some(y) ==> {
            let n = crlf_to_lf(raw);
            &&& n.len() >= y.len() + 8
            &&& n.subrange(0, 4) == seq!['-', '-', '-', '\n']
            &&& n.subrange(4, 4 + y.len() as int) == y
            &&& n.subrange(4 + y.len() as int, 8 + y.len() as int) == seq!['\n', '-', '-', '-']
            &&& forall|p: int| 0 <= p && p + 4 <= y.len() ==> #[trigger] y.subrange(p, p + 4) != seq!['\n', '-', '-', '-']
        },
        frontmatter_yaml(raw) is None ==> {
            let n = crlf_to_lf(raw);
            ||| !(n.len() >= 4 && n.subrange(0, 4) == seq!['-', '-', '-', '\n'])
            ||| forall|p: int| 4 <= p && p + 4 <= n.len() ==> #[trigger] n.subrange(p, p + 4) != seq!['\n', '-', '-', '-']
        },
{
    let n = crlf_to_lf(raw);
    let fence = seq!['\n', '-', '-', '-'];
    assert(closing_fence() == fence);
    assert(opening_fence() == seq!['-', '-', '-', '\n']);
    lemma_first_occurrence(n, fence, 4);
    if let Some(y) = frontmatter_yaml(raw) {
        let j = first_occurrence_from(n, fence, 4)->Some_0;
        assert(y == n.subrange(4, j));
        assert(y.len() == j - 4);
        assert forall|p: int| 0 <= p && p + 4 <= y.len() implies #[trigger] y.subrange(p, p + 4) != fence by {
            assert(y.subrange(p, p + 4) =~= n.subrange(4 + p, 4 + p + 4));
        }
    }
}

/// Importing keeps what was parsed: one entry per parsed skill, in order, each
/// with the name, description, version and tags of its parsed skill, a local
/// skill without a command whose folder is its id within the skills folder.
pub proof fn law_import_keeps_parsed_fields(skills_dir: Seq<char>, existing: Seq<SkillView>, parsed: Seq<SkillView>)
    ensures
        import_entries(skills_dir, existing, parsed).len() == parsed.len(),
        forall|k: int| 0 <= k < parsed.len() ==> {
            let e = import_entries(skills_dir, existing, parsed)[k];
            &&& e.name == (#[trigger] parsed[k]).name
            &&& e.description == parsed[k].description
            &&& e.version == parsed[k].version
            &&& e.tags == parsed[k].tags
            &&& e.source_type == SourceType::Local
            &&& e.install_command is None
            &&& e.library_path == Some(joined_path(skills_dir, e.id))
        },
    decreases parsed.len(),
{
    if parsed.len() > 0 {
        let init = parsed.drop_last();
        law_import_keeps_parsed_fields(skills_dir, existing, init);
        assert forall|k: int| 0 <= k < parsed.len() - 1 implies #[trigger] parsed[k] == init[k] by {}
    }
}

/// Scanning a name of ASCII letters and digits lowers each of them and adds
/// no dash.
proof fn lemma_scan_alphanumeric(s: Seq<char>)
    requires
        forall|i: int| 0 <= i < s.len() ==> is_ascii_alnum(#[trigger] s[i]),
    ensures
        slug_scan(s) == (s.map_values(|c: char| ascii_lower(c)), false),
    decreases s.len(),
{
    if s.len() > 0 {
        let init = s.drop_last();
        assert forall|i: int| 0 <= i < init.len() implies is_ascii_alnum(#[trigger] init[i]) by {
            assert(init[i] == s[i]);
        }
        lemma_scan_alphanumeric(init);
        assert(is_ascii_alnum(s.last()));
        assert(init.map_values(|c: char| ascii_lower(c)).push(ascii_lower(s.last())) =~= s.map_values(
            |c: char| ascii_lower(c),
        ));
    }
}

/// ASCII lower case keeps letters and digits apart from the rest, and lowering
/// twice is lowering once.
proof fn lemma_ascii_lower_char(c: char)
    ensures
        is_ascii_alnum(ascii_lower(c)) == is_ascii_alnum(c),
        ascii_lower(ascii_lower(c)) == ascii_lower(c),
        is_ascii_alnum(c) ==> ascii_lower(c) != '-',
{
}

/// Scanning does not depend on the ASCII case of what it scans.
proof fn lemma_scan_ignores_ascii_case(s: Seq<char>)
    ensures
        slug_scan(s) == slug_scan(s.map_values(|c: char| ascii_lower(c))),
    decreases s.len(),
{
    if s.len() > 0 {
        let m = s.map_values(|c: char| ascii_lower(c));
        lemma_scan_ignores_ascii_case(s.drop_last());
        assert(m.drop_last() =~= s.drop_last().map_values(|c: char| ascii_lower(c)));
        assert(m.last() == ascii_lower(s.last()));
        lemma_ascii_lower_char(s.last());
    }
}

/// The id of a name made of ASCII letters and digits only is the name in ASCII
/// lower case: a dash stands only for characters that are neither.
pub proof fn law_slug_of_alphanumeric_name(name: Seq<char>)
    requires
        name.len() > 0,
        forall|i: int| 0 <= i < name.len() ==> is_ascii_alnum(#[trigger] name[i]),
    ensures
        slug_of(name) == name.map_values(|c: char| ascii_lower(c)),
{
    lemma_scan_alphanumeric(name);
    let m = name.map_values(|c: char| ascii_lower(c));
    lemma_ascii_lower_char(name[0]);
    lemma_ascii_lower_char(name.last());
    assert(m[0] == ascii_lower(name[0]));
    assert(m.last() == ascii_lower(name.last()));
    assert(strip_leading_dashes(m) == m);
    assert(strip_trailing_dashes(m) == m);
}

/// A name's id does not depend on the ASCII case of the name.
pub proof fn law_slug_ignores_ascii_case(name: Seq<char>)
    ensures
        slug_of(name) == slug_of(name.map_values(|c: char| ascii_lower(c))),
{
    lemma_scan_ignores_ascii_case(name);
}

/// An ASCII answer agrees to run command skills exactly when, without its
/// outer white space, it is `y` or `yes` in any mix of case; any other answer,
/// `n` and `no` among them, does not.
pub proof fn law_agreement_is_yes(answer: Seq<char>)
    ensures
        is_ascii_agreement(answer) <==> {
            let t = trimmed(answer);
            ||| t.len() == 1 && (t[0] == 'y' || t[0] == 'Y')
            ||| t.len() == 3 && (t[0] == 'y' || t[0] == 'Y') && (t[1] == 'e' || t[1] == 'E') && (t[2] == 's'
                || t[2] == 'S')
        },
        trimmed(answer).len() > 0 && (trimmed(answer)[0] == 'n' || trimmed(answer)[0] == 'N') ==> !is_ascii_agreement(
            answer,
        ),
{
    let t = trimmed(answer);
    let a = t.map_values(|c: char| ascii_lower(c));
    if t.len() == 1 {
        assert(a =~= seq![ascii_lower(t[0])]);
    } else if t.len() == 3 {
        assert(a =~= seq![ascii_lower(t[0]), ascii_lower(t[1]), ascii_lower(t[2])]);
    }
    if is_ascii_agreement(answer) {
        assert(a.len() == 1 || a.len() == 3);
        assert(a[0] == 'y');
        if a.len() == 3 {
            assert(a[1] == 'e');
            assert(a[2] == 's');
        }
    }
}

} // verus!

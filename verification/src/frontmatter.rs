use vstd::prelude::*;

use crate::model::{Skill, SkillView, SourceType};
use crate::paths::{file_name, path_file_name, plain_segment};
use crate::slug::{fallback_slug, lemma_slug_is_plain_segment, slug_of, slugify};
use crate::text::{chars_of, occurs_at, string_from_chars, trim, trimmed};

verus! {

/// `s` with every CR LF pair turned into a single LF.
pub open spec fn crlf_to_lf(s: Seq<char>) -> Seq<char>
    decreases s.len(),
{
    if s.len() == 0 {
        s
    } else if s.len() >= 2 && s[0] == '\r' && s[1] == '\n' {
        seq!['\n'] + crlf_to_lf(s.subrange(2, s.len() as int))
    } else {
        seq![s[0]] + crlf_to_lf(s.drop_first())
    }
}

/// The first position from `start` on at which `pat` occurs in `s`.
pub open spec fn first_occurrence_from(s: Seq<char>, pat: Seq<char>, start: int) -> Option<int>
    decreases s.len() + 1 - start,
{
    if start < 0 || start + pat.len() > s.len() {
        None
    } else if s.subrange(start, start + pat.len()) == pat {
        Some(start)
    } else {
        first_occurrence_from(s, pat, start + 1)
    }
}

/// The line that opens a front matter block: `---` and a line feed.
pub open spec fn opening_fence() -> Seq<char> {
    seq!['-', '-', '-', '\n']
}

/// What closes a front matter block: a line feed and `---`.
pub open spec fn closing_fence() -> Seq<char> {
    seq!['\n', '-', '-', '-']
}

/// The YAML text of the front matter of a `SKILL.md` file: with line endings
/// normalised, the file must open with `---` on its own line, and the block
/// runs up to the first following line that starts with `---`.
pub open spec fn frontmatter_yaml(raw: Seq<char>) -> Option<Seq<char>> {
    let n = crlf_to_lf(raw);
    if n.len() >= 4 && n.subrange(0, 4) == opening_fence() {
        match first_occurrence_from(n, closing_fence(), 4) {
            Some(j) => Some(n.subrange(4, j)),
            None => None,
        }
    } else {
        None
    }
}

/// The characters of `raw` with every CR LF pair turned into a single LF.
fn normalize_line_endings(raw: &str) -> (out: Vec<char>)
    ensures
        out@ == crlf_to_lf(raw@),
{
    let chars = chars_of(raw);
    let ghost s = chars@;
    let len = chars.len();
    let mut out: Vec<char> = Vec::new();
    let mut i: usize = 0;
    assert(s.subrange(0, len as int) =~= s);
    while i < len
        invariant
            s == chars@,
            s == raw@,
            len == s.len(),
            i <= len,
            crlf_to_lf(s) == out@ + crlf_to_lf(s.subrange(i as int, len as int)),
        decreases len - i,
    {
        let ghost rest = s.subrange(i as int, len as int);
        let ghost before = out@;
        if chars[i] == '\r' && i + 1 < len && chars[i + 1] == '\n' {
            assert(rest.subrange(2, rest.len() as int) =~= s.subrange(i + 2, len as int));
            out.push('\n');
            assert(before + crlf_to_lf(rest) =~= out@ + crlf_to_lf(s.subrange(i + 2, len as int)));
            i = i + 2;
        } else {
            assert(rest.drop_first() =~= s.subrange(i + 1, len as int));
            out.push(chars[i]);
            assert(before + crlf_to_lf(rest) =~= out@ + crlf_to_lf(s.subrange(i + 1, len as int)));
            i = i + 1;
        }
    }
    assert(s.subrange(len as int, len as int) =~= Seq::<char>::empty());
    assert(out@ + Seq::<char>::empty() =~= out@);
    out
}

/// The YAML text of the front matter of a `SKILL.md` file, if it has one.
pub fn frontmatter_block(raw: &str) -> (yaml: Option<String>)
    ensures
        yaml.deep_view() == frontmatter_yaml(raw@),
{
    let n = normalize_line_endings(raw);
    let mut opening: Vec<char> = Vec::new();
    opening.push('-');
    opening.push('-');
    opening.push('-');
    opening.push('\n');
    assert(opening@ =~= opening_fence());
    if n.len() < 4 || !occurs_at(&n, &opening, 0) {
        return None;
    }
    let mut closing: Vec<char> = Vec::new();
    closing.push('\n');
    closing.push('-');
    closing.push('-');
    closing.push('-');
    assert(closing@ =~= closing_fence());
    let mut j: usize = 4;
    while j <= n.len() - 4
        invariant
            n@ == crlf_to_lf(raw@),
            n.len() >= 4,
            n@.subrange(0, 4) == opening_fence(),
            closing@ == closing_fence(),
            4 <= j <= n.len(),
            first_occurrence_from(n@, closing@, 4) == first_occurrence_from(n@, closing@, j as int),
        decreases n.len() - j,
    {
        if occurs_at(&n, &closing, j) {
            assert(first_occurrence_from(n@, closing@, j as int) == Some(j as int));
            let mut yaml: Vec<char> = Vec::new();
            let mut k: usize = 4;
            while k < j
                invariant
                    4 <= k <= j <= n.len(),
                    yaml@ == n@.subrange(4, k as int),
                decreases j - k,
            {
                yaml.push(n[k]);
                assert(n@.subrange(4, k + 1) =~= n@.subrange(4, k as int).push(n@[k as int]));
                k = k + 1;
            }
            return Some(string_from_chars(yaml.as_slice()));
        }
        assert(first_occurrence_from(n@, closing@, j as int) == first_occurrence_from(n@, closing@, j + 1));
        j = j + 1;
    }
    assert(first_occurrence_from(n@, closing@, j as int) is None);
    None
}

/// The front matter fields of a `SKILL.md` file that the catalog uses.
#[derive(Debug)]
pub struct SkillFrontmatter {
    pub name: Option<String>,
    pub description: Option<String>,
    pub version: Option<String>,
    pub tags: Option<Vec<String>>,
}

/// The name of a skill: the front matter's name where it is not blank, else the
/// folder's name, else `skill`.
pub open spec fn skill_name_for(folder: Seq<char>, name: Option<Seq<char>>) -> Seq<char> {
    if name is Some && trimmed(name->0).len() > 0 {
        name->0
    } else {
        match path_file_name(folder) {
            Some(f) => f,
            None => fallback_slug(),
        }
    }
}

/// The catalog entry that a skill folder describes, from its path and the
/// front matter of its `SKILL.md`.
pub open spec fn parsed_skill(folder: Seq<char>, fm: SkillFrontmatter) -> SkillView {
    let name = skill_name_for(folder, fm.name.deep_view());
    SkillView {
        id: slug_of(name),
        name,
        description: match fm.description {
            Some(d) => d@,
            None => Seq::empty(),
        },
        version: fm.version.deep_view(),
        source_type: SourceType::Local,
        library_path: Some(folder),
        install_command: None,
        tags: match fm.tags {
            Some(t) => t.deep_view(),
            None => Seq::empty(),
        },
    }
}

/// The local skill that the folder `folder` holds, given the front matter of
/// its `SKILL.md` (all fields absent where the file has none). The caller
/// checks that the file exists, reads it and parses the YAML of
/// [`frontmatter_block`].
pub fn parse_skill_folder(folder: &str, frontmatter: SkillFrontmatter) -> (skill: Skill)
    ensures
        skill@ == parsed_skill(folder@, frontmatter),
        plain_segment(skill.id@),
{
    let ghost fm_name = frontmatter.name.deep_view();
    let name = match frontmatter.name {
        Some(n) if !trim(n.as_str()).as_str().is_empty() => n,
        _ => match file_name(folder) {
            Some(f) => f,
            None => {
                let fallback = String::from_str("skill");
                proof {
                    reveal_strlit("skill");
                    assert(fallback@ =~= fallback_slug());
                }
                fallback
            },
        },
    };
    assert(name@ == skill_name_for(folder@, fm_name));
    let id = slugify(name.as_str());
    proof {
        lemma_slug_is_plain_segment(id@);
    }
    let description = match frontmatter.description {
        Some(d) => d,
        None => String::new(),
    };
    let tags = match frontmatter.tags {
        Some(t) => t,
        None => Vec::new(),
    };
    assert(frontmatter.tags is None ==> tags.deep_view() =~= Seq::<Seq<char>>::empty());
    Skill {
        id,
        name,
        description,
        version: frontmatter.version,
        source_type: SourceType::Local,
        library_path: Some(folder.to_owned()),
        install_command: None,
        tags,
    }
}

} // verus!

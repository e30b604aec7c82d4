//! Agent workflow skills: trigger events, skill files and the skill registry.
use vstd::prelude::*;
use crate::parser::{file_name_of, file_stem, file_stem_of, frontmatter_parts, last_named, named_component, split_frontmatter};
use crate::text::{
    ascii_lower, owned, push_str, ranges_text, ranges_valid, replace_char, spec_to_lowercase,
    split_char, split_ranges, str_eq, string_of, to_chars, to_lowercase,
};

verus! {

/// A lifecycle event that can trigger a skill
#[derive(Clone, Copy, Debug, PartialEq, Eq, Hash, Structural)]
pub enum TriggerEvent {
    SessionStart,
    SourceComplete,
    PageCreate,
    PageUpdate,
    IndexRebuild,
}

/// Event named by a lower-cased keyword with `-` made `_`; unknown names mean "source complete".
pub open spec fn event_of(t: Seq<char>) -> TriggerEvent {
    if t == "session_start"@ || t == "session.start"@ {
        TriggerEvent::SessionStart
    } else if t == "source_complete"@ || t == "source.complete"@ {
        TriggerEvent::SourceComplete
    } else if t == "page_create"@ || t == "page.create"@ {
        TriggerEvent::PageCreate
    } else if t == "page_update"@ || t == "page.update"@ {
        TriggerEvent::PageUpdate
    } else if t == "index_rebuild"@ || t == "index.rebuild"@ {
        TriggerEvent::IndexRebuild
    } else {
        TriggerEvent::SourceComplete
    }
}

/// The event a trigger name denotes.
pub open spec fn event_named(s: Seq<char>) -> TriggerEvent {
    event_of(replace_char(spec_to_lowercase(s), '-', '_'))
}

impl TriggerEvent {
    /// Event named by `s` (case-insensitive, `-` and `_` alike, `.` separators allowed).
    pub fn from_str(s: &str) -> (res: Self)
        ensures
            res == event_named(s@),
    {
        let l = to_lowercase(s);
        let v = to_chars(l.as_str());
        let r = crate::text::replace_char_vec(&v, '-', '_');
        let t = crate::text::string_of_all(&r);
        let t = t.as_str();
        if str_eq(t, "session_start") || str_eq(t, "session.start") {
            TriggerEvent::SessionStart
        } else if str_eq(t, "source_complete") || str_eq(t, "source.complete") {
            TriggerEvent::SourceComplete
        } else if str_eq(t, "page_create") || str_eq(t, "page.create") {
            TriggerEvent::PageCreate
        } else if str_eq(t, "page_update") || str_eq(t, "page.update") {
            TriggerEvent::PageUpdate
        } else if str_eq(t, "index_rebuild") || str_eq(t, "index.rebuild") {
            TriggerEvent::IndexRebuild
        } else {
            TriggerEvent::SourceComplete
        }
    }
}

/// Trigger configuration from skill frontmatter
#[derive(Debug, Clone)]
pub struct TriggerConfig {
    pub event: String,
    pub condition: Option<String>,
    pub priority: Option<u32>,
}

/// The fields a skill file's frontmatter may set.
#[derive(Debug, Clone)]
pub struct SkillHeader {
    pub name: Option<String>,
    pub title: Option<String>,
    pub description: Option<String>,
    pub trigger: Option<TriggerConfig>,
}

/// A parsed skill from .agent/skills/*.md
#[derive(Debug, Clone)]
pub struct Skill {
    pub name: String,
    pub title: String,
    pub description: String,
    pub trigger: Option<TriggerConfig>,
    pub instructions: String,
    pub file_path: String,
}

// ─── Skill files ────────────────────────────────────────────

/// The frontmatter YAML and the instructions of a skill file, when it opens with
/// a `---` block.
pub fn split_skill_file(content: &str) -> (res: Option<(String, String)>)
    ensures
        match frontmatter_parts(content@) {
            None => res is None,
            Some((y, b)) => res matches Some((ry, rb)) && ry@ == y && rb@ == b,
        },
{
    split_frontmatter(content)
}

/// Name of the directory that holds the file a path names.
pub open spec fn parent_name_of(p: Seq<char>) -> Option<Seq<char>> {
    let cs = split_char(p, '/');
    match last_index_named(cs) {
        None => None,
        Some(k) => match last_named(cs.take(k)) {
            Some(n) => if n == ".."@ { None } else { Some(n) },
            None => None,
        },
    }
}

/// Index of the last naming component.
pub open spec fn last_index_named(cs: Seq<Seq<char>>) -> Option<int>
    decreases cs.len(),
{
    if cs.len() == 0 {
        None
    } else if named_component(cs.last()) {
        Some(cs.len() - 1)
    } else {
        last_index_named(cs.drop_last())
    }
}

/// The two names are equal ignoring ASCII case (std `str::eq_ignore_ascii_case`).
pub open spec fn eq_ignore_ascii_case(a: Seq<char>, b: Seq<char>) -> bool {
    a.len() == b.len() && forall|i: int| 0 <= i < a.len() ==> ascii_lower(#[trigger] a[i]) == ascii_lower(b[i])
}

/// Name of a skill: the frontmatter name; else, for a `SKILL.md` file, the name of
/// its directory (or the file stem when there is none); else the file stem.
pub open spec fn skill_name_of(path: Seq<char>, fm_name: Option<Seq<char>>, stem: Seq<char>) -> Seq<char> {
    match fm_name {
        Some(n) => n,
        None => {
            let file_name = match file_name_of(path) {
                Some(f) => f,
                None => Seq::empty(),
            };
            if eq_ignore_ascii_case(file_name, "SKILL.md"@) {
                match parent_name_of(path) {
                    Some(d) => d,
                    None => stem,
                }
            } else {
                stem
            }
        },
    }
}

proof fn lemma_last_index_named(cs: Seq<Seq<char>>)
    ensures
        match last_index_named(cs) {
            Some(k) => 0 <= k < cs.len() && last_named(cs) == Some(cs[k]) && last_named(cs.take(k + 1))
                == Some(cs[k]),
            None => last_named(cs) is None,
        },
    decreases cs.len(),
{
    if cs.len() > 0 {
        if named_component(cs.last()) {
            assert(cs.take(cs.len() as int) == cs);
        } else {
            lemma_last_index_named(cs.drop_last());
            match last_index_named(cs.drop_last()) {
                Some(k) => {
                    assert(cs.drop_last().take(k + 1) == cs.take(k + 1));
                    assert(cs.drop_last()[k] == cs[k]);
                },
                None => {},
            }
        }
    }
}

/// The file name and the parent directory name of a path.
pub(crate) fn name_and_parent(path: &str) -> (res: (Option<String>, Option<String>))
    ensures
        match file_name_of(path@) {
            Some(f) => res.0 matches Some(r) && r@ == f,
            None => res.0 is None,
        },
        match parent_name_of(path@) {
            Some(d) => res.1 matches Some(r) && r@ == d,
            None => res.1 is None,
        },
{
    proof {
        reveal_strlit(".");
        reveal_strlit("..");
    }
    let v = to_chars(path);
    let ranges = split_ranges(&v, '/');
    let ghost cs = split_char(v@, '/');
    proof {
        lemma_last_index_named(cs);
    }
    let mut file: Option<String> = None;
    let mut parent: Option<String> = None;
    let mut seen_file = false;
    let mut k = ranges.len();
    proof {
        assert(cs.take(k as int) == cs);
    }
    while k > 0
        invariant
            k <= ranges.len(),
            ranges_valid(ranges@, v@.len() as int),
            ranges_text(v@, ranges@) == cs,
            cs == split_char(path@, '/'),
            !seen_file ==> last_named(cs) == last_named(cs.take(k as int)) && last_index_named(cs)
                == last_index_named(cs.take(k as int)) && file is None,
            seen_file ==> match last_index_named(cs) {
                Some(fk) => k <= fk && last_named(cs.take(fk)) == last_named(cs.take(k as int)) && (
                match file_name_of(path@) {
                    Some(f) => file matches Some(r) && r@ == f,
                    None => file is None,
                }),
                None => false,
            },
            parent is None,
        decreases k,
    {
        let (lo, hi) = ranges[k - 1];
        proof {
            assert(ranges@[k - 1].0 <= ranges@[k - 1].1 && ranges@[k - 1].1 <= v@.len());
            assert(cs.take(k as int).last() == v@.subrange(lo as int, hi as int));
            assert(cs.take(k as int).drop_last() == cs.take(k - 1));
            reveal_strlit(".");
            reveal_strlit("..");
        }
        let named = hi > lo && !(hi - lo == 1 && v[lo] == '.');
        let is_parent = hi - lo == 2 && v[lo] == '.' && v[lo + 1] == '.';
        proof {
            let c = v@.subrange(lo as int, hi as int);
            if hi - lo == 1 && v@[lo as int] == '.' {
                assert(c =~= "."@);
            }
            if c == "."@ {
                assert(c.len() == 1 && c[0] == v@[lo as int]);
            }
            if is_parent {
                assert(c =~= ".."@);
            }
            if c == ".."@ {
                assert(c.len() == 2 && c[0] == v@[lo as int] && c[1] == v@[lo + 1]);
            }
        }
        if named {
            if !seen_file {
                proof {
                    assert(last_index_named(cs.take(k as int)) == Some(k - 1));
                }
                if !is_parent {
                    file = Some(string_of(&v, lo, hi));
                }
                seen_file = true;
            } else {
                if is_parent {
                    return (file, None);
                } else {
                    return (file, Some(string_of(&v, lo, hi)));
                }
            }
        }
        k = k - 1;
    }
    (file, None)
}

/// Build a skill from its file path, its parsed frontmatter and its instructions.
/// Returns `None` when the path names no file.
pub fn build_skill(path: &str, header: &SkillHeader, instructions: &str) -> (res: Option<Skill>)
    ensures
        match file_stem_of(path@) {
            None => res is None,
            Some(stem) => res matches Some(s) && s.name@ == skill_name_of(
                path@,
                match header.name {
                    Some(n) => Some(n@),
                    None => None,
                },
                stem,
            ) && s.instructions@ == instructions@ && s.file_path@ == path@ && s.title@ == (match header.title {
                Some(t) => t@,
                None => Seq::empty(),
            }) && s.description@ == (match header.description {
                Some(d) => d@,
                None => Seq::empty(),
            }),
        },
{
    proof {
        reveal_strlit("SKILL.md");
    }
    let stem = match file_stem(path) {
        Some(s) => s,
        None => return None,
    };
    let name = match &header.name {
        Some(n) => owned(n.as_str()),
        None => {
            let (file, parent) = name_and_parent(path);
            let fname = match file {
                Some(f) => f,
                None => String::new(),
            };
            let fv = to_chars(fname.as_str());
            let target = to_chars("SKILL.md");
            let mut same = fv.len() == target.len();
            let mut i: usize = 0;
            while same && i < fv.len()
                invariant
                    i <= fv.len(),
                    same ==> fv.len() == target.len(),
                    same ==> forall|j: int| 0 <= j < i ==> ascii_lower(#[trigger] fv@[j]) == ascii_lower(target@[j]),
                    !same ==> !eq_ignore_ascii_case(fv@, target@),
                decreases fv.len() - i,
            {
                if crate::text::ascii_lower_char(fv[i]) != crate::text::ascii_lower_char(target[i]) {
                    same = false;
                }
                i = i + 1;
            }
            if same {
                match parent {
                    Some(d) => d,
                    None => stem,
                }
            } else {
                stem
            }
        },
    };
    let title = match &header.title {
        Some(t) => owned(t.as_str()),
        None => String::new(),
    };
    let description = match &header.description {
        Some(d) => owned(d.as_str()),
        None => String::new(),
    };
    let trigger = match &header.trigger {
        Some(t) => Some(TriggerConfig {
            event: owned(t.event.as_str()),
            condition: crate::text::clone_opt_string(&t.condition),
            priority: t.priority,
        }),
        None => None,
    };
    Some(Skill {
        name,
        title,
        description,
        trigger,
        instructions: owned(instructions),
        file_path: owned(path),
    })
}

// ─── Registry ───────────────────────────────────────────────

/// No two of the skills share a name.
pub open spec fn distinct_names(s: Seq<Skill>) -> bool {
    forall|i: int, j: int| 0 <= i < j < s.len() ==> #[trigger] s[i].name@ != #[trigger] s[j].name@
}

/// Skill engine — registers and dispatches skills by name
pub struct SkillEngine {
    skills: Vec<Skill>,
}

impl SkillEngine {
    /// The registered skills, one per name.
    pub closed spec fn skills(&self) -> Seq<Skill> {
        self.skills@
    }

    /// Names of the registered skills.
    pub open spec fn names(&self) -> Seq<Seq<char>> {
        self.skills().map_values(|s: Skill| s.name@)
    }

    #[verifier::type_invariant]
    closed spec fn wf(&self) -> bool {
        distinct_names(self.skills@)
    }

    /// An empty registry.
    pub fn new() -> (res: Self)
        ensures
            res.skills().len() == 0,
    {
        SkillEngine { skills: Vec::new() }
    }

    /// Remove every skill.
    pub fn clear(&mut self)
        ensures
            final(self).skills().len() == 0,
    {
        self.skills = Vec::new();
    }

    /// Register a skill, replacing the skill of the same name if there is one.
    pub fn insert(&mut self, skill: Skill)
        ensures
            (exists|i: int| 0 <= i < old(self).skills().len() && old(self).skills()[i].name@ == skill.name@)
                ==> final(self).skills().len() == old(self).skills().len() && (forall|i: int|
                0 <= i < old(self).skills().len() ==> #[trigger] final(self).skills()[i] == (if old(
                self,
            ).skills()[i].name@ == skill.name@ { skill } else { old(self).skills()[i] })),
            !(exists|i: int| 0 <= i < old(self).skills().len() && old(self).skills()[i].name@ == skill.name@)
                ==> final(self).skills() == old(self).skills().push(skill),
    {
        proof {
            use_type_invariant(&*self);
        }
        let mut i: usize = 0;
        while i < self.skills.len()
            invariant
                i <= self.skills.len(),
                self.skills@ == old(self).skills@,
                forall|a: int, b: int|
                    0 <= a < b < self.skills@.len() ==> #[trigger] self.skills@[a].name@
                        != #[trigger] self.skills@[b].name@,
                forall|j: int| 0 <= j < i ==> self.skills@[j].name@ != skill.name@,
            decreases self.skills.len() - i,
        {
            if str_eq(self.skills[i].name.as_str(), skill.name.as_str()) {
                let ghost before = self.skills@;
                let mut skills: Vec<Skill> = Vec::new();
                std::mem::swap(&mut skills, &mut self.skills);
                skills.set(i, skill);
                proof {
                    assert(before[i as int].name@ == skill.name@);
                    assert forall|j: int| 0 <= j < before.len() implies #[trigger] skills@[j] == (if before[j].name@
                        == skill.name@ { skill } else { before[j] }) by {
                        if j != i && before[j].name@ == skill.name@ {
                            if j < i {
                            } else {
                                assert(before[i as int].name@ != before[j].name@);
                            }
                        }
                    }
                    assert forall|a: int, b: int|
                        0 <= a < b < skills@.len() implies #[trigger] skills@[a].name@ != #[trigger] skills@[b].name@ by {
                        if a != i && b != i {
                            assert(skills@[a] == before[a] && skills@[b] == before[b]);
                        } else if a == i {
                            assert(skills@[b] == before[b]);
                            assert(before[i as int].name@ != before[b].name@);
                        } else {
                            assert(skills@[a] == before[a]);
                            assert(before[a].name@ != before[i as int].name@);
                        }
                    }
                }
                self.skills = skills;
                return;
            }
            i = i + 1;
        }
        let ghost before = self.skills@;
        let mut skills: Vec<Skill> = Vec::new();
                std::mem::swap(&mut skills, &mut self.skills);
        skills.push(skill);
        proof {
            assert forall|a: int, b: int|
                0 <= a < b < skills@.len() implies #[trigger] skills@[a].name@ != #[trigger] skills@[b].name@ by {
                if b == before.len() {
                    assert(skills@[a] == before[a]);
                    assert(skills@[b] == skill);
                } else {
                    assert(skills@[a] == before[a] && skills@[b] == before[b]);
                }
            }
        }
        self.skills = skills;
    }

    /// The skill registered under `name`: the one skill of that name, as no
    /// two registered skills share a name.
    pub fn get(&self, name: &str) -> (res: Option<&Skill>)
        ensures
            distinct_names(self.skills()),
            match res {
                Some(s) => exists|i: int| 0 <= i < self.skills().len() && self.skills()[i] == *s && s.name@ == name@,
                None => forall|i: int| 0 <= i < self.skills().len() ==> self.skills()[i].name@ != name@,
            },
            res matches Some(s) ==> forall|i: int|
                0 <= i < self.skills().len() && #[trigger] self.skills()[i].name@ == name@ ==> self.skills()[i] == *s,
    {
        proof {
            use_type_invariant(self);
        }
        let mut i: usize = 0;
        while i < self.skills.len()
            invariant
                i <= self.skills.len(),
                distinct_names(self.skills@),
                forall|j: int| 0 <= j < i ==> self.skills@[j].name@ != name@,
            decreases self.skills.len() - i,
        {
            if str_eq(self.skills[i].name.as_str(), name) {
                return Some(&self.skills[i]);
            }
            i = i + 1;
        }
        None
    }

    /// All registered skills.
    pub fn list(&self) -> (res: Vec<&Skill>)
        ensures
            res@.len() == self.skills().len(),
            forall|i: int| 0 <= i < res@.len() ==> *res@[i] == self.skills()[i],
            distinct_names(self.skills()),
            forall|i: int, j: int| 0 <= i < j < res@.len() ==> #[trigger] res@[i].name@ != #[trigger] res@[j].name@,
    {
        proof {
            use_type_invariant(self);
        }
        let mut out: Vec<&Skill> = Vec::new();
        let mut i: usize = 0;
        while i < self.skills.len()
            invariant
                i <= self.skills.len(),
                out@.len() == i,
                forall|j: int| 0 <= j < i ==> *out@[j] == self.skills@[j],
            decreases self.skills.len() - i,
        {
            out.push(&self.skills[i]);
            i = i + 1;
        }
        out
    }

    /// Names of the skills whose trigger names `event`, in registry order.
    pub fn triggered_by(&self, event: &TriggerEvent) -> (res: Vec<String>)
        ensures
            res@.map_values(|s: String| s@) == fired_names(self.skills(), *event),
    {
        let mut out: Vec<String> = Vec::new();
        let mut i: usize = 0;
        proof {
            assert(self.skills@.take(0) =~= Seq::<Skill>::empty());
            assert(out@.map_values(|s: String| s@) =~= Seq::<Seq<char>>::empty());
        }
        while i < self.skills.len()
            invariant
                i <= self.skills.len(),
                out@.map_values(|s: String| s@) == fired_names(self.skills@.take(i as int), *event),
            decreases self.skills.len() - i,
        {
            let skill = &self.skills[i];
            proof {
                assert(self.skills@.take(i + 1).drop_last() == self.skills@.take(i as int));
                assert(self.skills@.take(i + 1).last() == *skill);
            }
            match &skill.trigger {
                Some(t) => {
                    if TriggerEvent::from_str(t.event.as_str()) == *event {
                        let ghost before = out@;
                        out.push(owned(skill.name.as_str()));
                        proof {
                            assert(out@.map_values(|s: String| s@) =~= before.map_values(|s: String| s@).push(skill.name@));
                        }
                    }
                },
                None => {},
            }
            i = i + 1;
        }
        proof {
            assert(self.skills@.take(self.skills.len() as int) == self.skills@);
        }
        out
    }

    /// Fire skills triggered by an event: `emit_audit` is called once per skill whose
    /// trigger names the event, with tool `wm_skill.<name>`, action `trigger`,
    /// result `ok`, no duration, no error, and the skill name as entity.
    pub fn fire_event<F>(&self, event: &TriggerEvent, emit_audit: &F)
        where
            F: Fn(&str, &str, &str, i64, Option<String>, Vec<String>),
        requires
            forall|a: &str, b: &str, c: &str, d: i64, e: Option<String>, f: Vec<String>|
                call_requires(*emit_audit, (a, b, c, d, e, f)),
    {
        let names = self.triggered_by(event);
        let mut i: usize = 0;
        while i < names.len()
            invariant
                i <= names.len(),
                forall|a: &str, b: &str, c: &str, d: i64, e: Option<String>, f: Vec<String>|
                    call_requires(*emit_audit, (a, b, c, d, e, f)),
            decreases names.len() - i,
        {
            let mut tool = owned("wm_skill.");
            push_str(&mut tool, names[i].as_str());
            let entity = vec![owned(names[i].as_str())];
            emit_audit(tool.as_str(), "trigger", "ok", 0, None, entity);
            i = i + 1;
        }
    }
}

/// A skill exposed as a tool: the tool's name and description, and the skill
/// name, description and instructions its handler returns.
#[derive(Debug)]
pub struct SkillToolSpec {
    pub name: String,
    pub description: String,
    pub skill: String,
    pub instructions: String,
}

impl SkillEngine {
    /// One tool per registered skill, named `wm_skill.<name>`, in registry order.
    pub fn tool_specs(&self) -> (res: Vec<SkillToolSpec>)
        ensures
            res@.len() == self.skills().len(),
            forall|i: int|
                0 <= i < res@.len() ==> {
                    &&& (#[trigger] res@[i]).name@ == "wm_skill."@ + self.skills()[i].name@
                    &&& res@[i].description@ == self.skills()[i].description@
                    &&& res@[i].skill@ == self.skills()[i].name@
                    &&& res@[i].instructions@ == self.skills()[i].instructions@
                },
    {
        let mut out: Vec<SkillToolSpec> = Vec::new();
        let mut i: usize = 0;
        while i < self.skills.len()
            invariant
                i <= self.skills.len(),
                out@.len() == i,
                forall|j: int|
                    0 <= j < i ==> {
                        &&& (#[trigger] out@[j]).name@ == "wm_skill."@ + self.skills@[j].name@
                        &&& out@[j].description@ == self.skills@[j].description@
                        &&& out@[j].skill@ == self.skills@[j].name@
                        &&& out@[j].instructions@ == self.skills@[j].instructions@
                    },
            decreases self.skills.len() - i,
        {
            let sk = &self.skills[i];
            let mut name = owned("wm_skill.");
            push_str(&mut name, sk.name.as_str());
            out.push(
                SkillToolSpec {
                    name,
                    description: owned(sk.description.as_str()),
                    skill: owned(sk.name.as_str()),
                    instructions: owned(sk.instructions.as_str()),
                },
            );
            i = i + 1;
        }
        out
    }
}

/// Names of the skills of `skills` whose trigger names `event`.
pub open spec fn fired_names(skills: Seq<Skill>, event: TriggerEvent) -> Seq<Seq<char>>
    decreases skills.len(),
{
    if skills.len() == 0 {
        Seq::empty()
    } else {
        let rest = fired_names(skills.drop_last(), event);
        let s = skills.last();
        match s.trigger {
            Some(t) => if event_named(t.event@) == event { rest.push(s.name@) } else { rest },
            None => rest,
        }
    }
}

/// The registry after registering `skill` holds it under its name, and it is
/// the only skill of that name (a read of that name after the write gives the
/// written skill).
pub proof fn lemma_insert_then_get(before: Seq<Skill>, after: Seq<Skill>, skill: Skill)
    requires
        forall|i: int, j: int| 0 <= i < j < after.len() ==> #[trigger] after[i].name@ != #[trigger] after[j].name@,
        (exists|i: int| 0 <= i < before.len() && before[i].name@ == skill.name@) ==> after.len() == before.len()
            && (forall|i: int| 0 <= i < before.len() ==> #[trigger] after[i] == (if before[i].name@ == skill.name@ {
            skill
        } else {
            before[i]
        })),
        !(exists|i: int| 0 <= i < before.len() && before[i].name@ == skill.name@) ==> after == before.push(skill),
    ensures
        exists|i: int| 0 <= i < after.len() && after[i] == skill,
        forall|i: int| 0 <= i < after.len() && (#[trigger] after[i]).name@ == skill.name@ ==> after[i] == skill,
{
    if exists|i: int| 0 <= i < before.len() && before[i].name@ == skill.name@ {
        let k = choose|i: int| 0 <= i < before.len() && before[i].name@ == skill.name@;
        assert(after[k] == skill);
        assert forall|i: int| 0 <= i < after.len() && (#[trigger] after[i]).name@ == skill.name@ implies after[i] == skill by {
            if i != k {
                if i < k {
                    assert(after[i].name@ != after[k].name@);
                } else {
                    assert(after[k].name@ != after[i].name@);
                }
            }
        }
    } else {
        assert(after[before.len() as int] == skill);
        assert forall|i: int| 0 <= i < after.len() && (#[trigger] after[i]).name@ == skill.name@ implies after[i] == skill by {
            if i < before.len() {
                assert(after[i] == before[i]);
            }
        }
    }
}

} // verus!

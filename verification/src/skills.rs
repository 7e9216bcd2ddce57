//! Skills — user-defined slash-commands, indexed by name and retrievable by query.
//!
//! Later registrations with the same name override earlier ones, implementing
//! the priority chain: Bundled < Managed < Project < User.
use vstd::prelude::*;

use crate::text::str_eq;

use crate::plugin_id::PluginId;
use crate::text::{
    ascii_lower, ascii_lower_exec, chars_of, contains, contains_exec, extend_str, is_ascii_alnum,
    is_ascii_alnum_exec, join, lemma_join_push, lex_lt, lex_lt_str, string_of,
};

verus! {

/// A loaded skill ready for invocation.
#[derive(Debug, Clone)]
pub struct Skill {
    pub name: String,
    pub description: String,
    pub when_to_use: Option<String>,
    pub prompt: String,
    pub arguments: Vec<SkillArg>,
    pub body: String,
    pub source: SkillSource,
}

/// Description of a skill argument for template substitution.
#[derive(Debug, Clone)]
pub struct SkillArg {
    pub name: String,
    pub description: String,
    pub required: bool,
}

/// Where a skill was loaded from — determines override priority.
#[derive(Debug, PartialEq, Eq)]
pub enum SkillSource {
    Bundled,
    Managed,
    Project,
    User,
    /// Loaded from an installed plugin.
    Plugin { plugin_id: PluginId },
}

impl Clone for SkillSource {
    fn clone(&self) -> (r: Self)
        ensures
            r == *self,
    {
        match self {
            SkillSource::Bundled => SkillSource::Bundled,
            SkillSource::Managed => SkillSource::Managed,
            SkillSource::Project => SkillSource::Project,
            SkillSource::User => SkillSource::User,
            SkillSource::Plugin { plugin_id } => SkillSource::Plugin { plugin_id: plugin_id.clone() },
        }
    }
}

/// Position of the skill named `name`, if any.
pub open spec fn index_of_name(skills: Seq<Skill>, name: Seq<char>) -> Option<int> {
    if exists|i: int| 0 <= i < skills.len() && skills[i].name@ == name {
        Some(choose|i: int| 0 <= i < skills.len() && skills[i].name@ == name)
    } else {
        None
    }
}

/// No two skills share a name.
pub open spec fn unique_names(skills: Seq<Skill>) -> bool {
    forall|i: int, j: int|
        0 <= i < skills.len() && 0 <= j < skills.len() && i != j ==> skills[i].name@
            != skills[j].name@
}

/// Registering `s`: replace the skill of the same name, or append.
pub open spec fn register_spec(skills: Seq<Skill>, s: Skill) -> Seq<Skill> {
    match index_of_name(skills, s.name@) {
        Some(i) => skills.update(i, s),
        None => skills.push(s),
    }
}

/// Registers each of `list` in order.
pub open spec fn register_all(skills: Seq<Skill>, list: Seq<Skill>) -> Seq<Skill>
    decreases list.len(),
{
    if list.len() == 0 {
        skills
    } else {
        register_spec(register_all(skills, list.drop_last()), list.last())
    }
}

/// Registering keeps one skill per name, and the registered skill is what a
/// lookup of its name finds afterwards; skills of other names stay found.
pub proof fn law_register_then_get(skills: Seq<Skill>, s: Skill, other: Seq<char>)
    requires
        unique_names(skills),
    ensures
        unique_names(register_spec(skills, s)),
        index_of_name(register_spec(skills, s), s.name@) matches Some(i) && register_spec(skills, s)[i]
            == s,
        other != s.name@ ==> match index_of_name(skills, other) {
            Some(j) => index_of_name(register_spec(skills, s), other) matches Some(k)
                && register_spec(skills, s)[k] == skills[j],
            None => index_of_name(register_spec(skills, s), other) is None,
        },
{
    let r = register_spec(skills, s);
    match index_of_name(skills, s.name@) {
        Some(i) => {
            assert(r[i] == s);
            assert forall|a: int, b: int| 0 <= a < r.len() && 0 <= b < r.len() && a != b implies r[a].name@
                != r[b].name@ by {
                if a != i && b != i {
                    assert(r[a] == skills[a] && r[b] == skills[b]);
                } else if a == i {
                    assert(skills[i].name@ == s.name@);
                    assert(r[b] == skills[b]);
                } else {
                    assert(skills[i].name@ == s.name@);
                    assert(r[a] == skills[a]);
                }
            }
            assert(r[i].name@ == s.name@);
            let k = choose|k: int| 0 <= k < r.len() && r[k].name@ == s.name@;
            assert(k == i);
            if other != s.name@ {
                match index_of_name(skills, other) {
                    Some(j) => {
                        assert(j != i);
                        assert(r[j] == skills[j]);
                        let m = choose|m: int| 0 <= m < r.len() && r[m].name@ == other;
                        assert(m == j);
                    },
                    None => {
                        assert forall|m: int| 0 <= m < r.len() implies r[m].name@ != other by {
                            if m != i {
                                assert(r[m] == skills[m]);
                            }
                        }
                    },
                }
            }
        },
        None => {
            let n = skills.len() as int;
            assert(r[n] == s);
            assert forall|a: int, b: int| 0 <= a < r.len() && 0 <= b < r.len() && a != b implies r[a].name@
                != r[b].name@ by {
                if a < n && b < n {
                    assert(r[a] == skills[a] && r[b] == skills[b]);
                }
            }
            let k = choose|k: int| 0 <= k < r.len() && r[k].name@ == s.name@;
            assert(k == n);
            if other != s.name@ {
                match index_of_name(skills, other) {
                    Some(j) => {
                        assert(r[j] == skills[j]);
                        let m = choose|m: int| 0 <= m < r.len() && r[m].name@ == other;
                        assert(m == j);
                    },
                    None => {
                        assert forall|m: int| 0 <= m < r.len() implies r[m].name@ != other by {
                            if m < n {
                                assert(r[m] == skills[m]);
                            }
                        }
                    },
                }
            }
        },
    }
}

/// Name-indexed collection of skills with override priority.
#[derive(Debug)]
pub struct SkillRegistry {
    skills: Vec<Skill>,
}

// ---------------------------------------------------------------------------
// Ranking
// ---------------------------------------------------------------------------

/// `str::split` on non-alphanumeric characters, dropping empty parts, lower-cased.
pub open spec fn query_terms(text: Seq<char>) -> Seq<Seq<char>>
    decreases text.len(),
{
    terms_acc(text, seq![])
}

/// Terms of `text` given the partial term `cur` that precedes it.
pub open spec fn terms_acc(text: Seq<char>, cur: Seq<char>) -> Seq<Seq<char>>
    decreases text.len(),
{
    if text.len() == 0 {
        if cur.len() > 0 {
            seq![ascii_lower(cur)]
        } else {
            seq![]
        }
    } else if is_ascii_alnum(text[0]) {
        terms_acc(text.skip(1), cur.push(text[0]))
    } else if cur.len() > 0 {
        seq![ascii_lower(cur)] + terms_acc(text.skip(1), seq![])
    } else {
        terms_acc(text.skip(1), seq![])
    }
}

/// The weight a field contributes when it contains `term`.
pub open spec fn hit(field: Seq<char>, term: Seq<char>, weight: nat) -> nat {
    if contains(ascii_lower(field), term) {
        weight
    } else {
        0
    }
}

/// Relevance of one term: name 6, description 4, when-to-use 3, prompt 2, body 1.
pub open spec fn term_score(s: Skill, term: Seq<char>) -> nat {
    let when = match s.when_to_use {
        Some(w) => w@,
        None => seq![],
    };
    hit(s.name@, term, 6) + hit(s.description@, term, 4) + hit(when, term, 3) + hit(
        s.prompt@,
        term,
        2,
    ) + hit(s.body@, term, 1)
}

/// Relevance of a skill for all query terms.
pub open spec fn skill_score(s: Skill, terms: Seq<Seq<char>>) -> nat
    decreases terms.len(),
{
    if terms.len() == 0 {
        0
    } else {
        skill_score(s, terms.drop_last()) + term_score(s, terms.last())
    }
}

/// `a` ranks before `b`: higher score, then name order.
pub open spec fn ranks_before(a: (nat, Skill), b: (nat, Skill)) -> bool {
    a.0 > b.0 || (a.0 == b.0 && lex_lt(a.1.name@, b.1.name@))
}

/// Inserts `x` before the first element it ranks before.
pub open spec fn rank_insert(sorted: Seq<(nat, Skill)>, x: (nat, Skill)) -> Seq<(nat, Skill)>
    decreases sorted.len(),
{
    if sorted.len() == 0 {
        seq![x]
    } else if ranks_before(x, sorted[0]) {
        seq![x] + sorted
    } else {
        seq![sorted[0]] + rank_insert(sorted.skip(1), x)
    }
}

/// The positively scored skills, best first.
pub open spec fn ranked(skills: Seq<Skill>, terms: Seq<Seq<char>>) -> Seq<(nat, Skill)>
    decreases skills.len(),
{
    if skills.len() == 0 {
        seq![]
    } else {
        let prev = ranked(skills.drop_last(), terms);
        let sc = skill_score(skills.last(), terms);
        if sc > 0 {
            rank_insert(prev, (sc, skills.last()))
        } else {
            prev
        }
    }
}

/// What `retrieve` returns.
pub open spec fn retrieve_spec(skills: Seq<Skill>, query: Seq<char>, limit: nat) -> Seq<Skill> {
    let terms = query_terms(query);
    if limit == 0 || terms.len() == 0 {
        seq![]
    } else {
        let r = ranked(skills, terms);
        r.take(if r.len() < limit { r.len() as int } else { limit as int }).map_values(
            |p: (nat, Skill)| p.1,
        )
    }
}

/// Inserts `x` before the first element whose name sorts after it.
pub open spec fn name_insert(sorted: Seq<Skill>, x: Skill) -> Seq<Skill>
    decreases sorted.len(),
{
    if sorted.len() == 0 {
        seq![x]
    } else if lex_lt(x.name@, sorted[0].name@) {
        seq![x] + sorted
    } else {
        seq![sorted[0]] + name_insert(sorted.skip(1), x)
    }
}

/// The skills sorted by name.
pub open spec fn by_name(skills: Seq<Skill>) -> Seq<Skill>
    decreases skills.len(),
{
    if skills.len() == 0 {
        seq![]
    } else {
        name_insert(by_name(skills.drop_last()), skills.last())
    }
}

/// `- **name**: description` index lines.
pub open spec fn index_lines(skills: Seq<Skill>) -> Seq<Seq<char>> {
    skills.map_values(|s: Skill| "- **"@ + s.name@ + "**: "@ + s.description@)
}

/// `- **name**: description — Use when: ...` listing lines.
pub open spec fn listing_lines(skills: Seq<Skill>) -> Seq<Seq<char>> {
    skills.map_values(
        |s: Skill|
            "- **"@ + s.name@ + "**: "@ + s.description@ + match s.when_to_use {
                Some(w) => " — Use when: "@ + w@,
                None => seq![],
            },
    )
}

pub open spec fn index_text(skills: Seq<Skill>) -> Seq<char> {
    if skills.len() == 0 {
        seq![]
    } else {
        join(
            seq![
                "## Skill Index"@,
                "Use the Skill tool only for skills listed as available or recommended below."@,
            ] + index_lines(by_name(skills)),
            "\n"@,
        )
    }
}

pub open spec fn listing_text(skills: Seq<Skill>) -> Seq<char> {
    if skills.len() == 0 {
        seq![]
    } else {
        join(
            seq![
                "## Available Skills"@,
                "You can invoke skills via the Skill tool. Available skills:"@,
            ] + listing_lines(by_name(skills)),
            "\n"@,
        )
    }
}

impl SkillRegistry {
    /// The registered skills, one per name, in first-registration order.
    pub closed spec fn skills(self) -> Seq<Skill> {
        self.skills@
    }

    #[verifier::type_invariant]
    spec fn inv(self) -> bool {
        unique_names(self.skills@)
    }

    pub fn new() -> (r: Self)
        ensures
            r.skills() == Seq::<Skill>::empty(),
    {
        Self { skills: Vec::new() }
    }

    /// Register a skill. Same name → later wins.
    pub fn register(&mut self, skill: Skill)
        ensures
            final(self).skills() == register_spec(old(self).skills(), skill),
    {
        proof {
            use_type_invariant(&*self);
        }
        let mut i: usize = 0;
        while i < self.skills.len()
            invariant
                i <= self.skills.len(),
                self.skills@ == old(self).skills@,
                unique_names(self.skills@),
                forall|j: int| 0 <= j < i ==> self.skills@[j].name@ != skill.name@,
            decreases self.skills.len() - i,
        {
            if self.skills[i].name == skill.name {
                proof {
                    let k = choose|k: int|
                        0 <= k < self.skills@.len() && self.skills@[k].name@ == skill.name@;
                    assert(k == i);
                }
                let mut skills: Vec<Skill> = Vec::new();
                std::mem::swap(&mut skills, &mut self.skills);
                skills.set(i, skill);
                proof {
                    assert forall|a: int, b: int|
                        0 <= a < skills@.len() && 0 <= b < skills@.len() && a != b implies skills@[a].name@
                        != skills@[b].name@ by {}
                }
                self.skills = skills;
                return;
            }
            i = i + 1;
        }
        let mut skills: Vec<Skill> = Vec::new();
                std::mem::swap(&mut skills, &mut self.skills);
        skills.push(skill);
        self.skills = skills;
    }

    /// Register every skill of `skills`, in order.
    fn register_each(&mut self, skills: Vec<Skill>)
        ensures
            final(self).skills() == register_all(old(self).skills(), skills@),
    {
        let mut i: usize = 0;
        let ghost start = self.skills();
        let mut skills = skills;
        let ghost all = skills@;
        let mut rev: Vec<Skill> = Vec::new();
        while skills.len() > 0
            invariant
                rev@.len() + skills@.len() == all.len(),
                skills@ == all.take(skills@.len() as int),
                forall|k: int| 0 <= k < rev@.len() ==> rev@[k] == all[all.len() - 1 - k],
            decreases skills.len(),
        {
            let s = skills.pop().unwrap();
            rev.push(s);
        }
        while rev.len() > 0
            invariant
                rev@.len() <= all.len(),
                forall|k: int| 0 <= k < rev@.len() ==> rev@[k] == all[all.len() - 1 - k],
                self.skills() == register_all(start, all.take(all.len() - rev@.len())),
            decreases rev.len(),
        {
            let ghost done = all.len() - rev@.len();
            let s = rev.pop().unwrap();
            assert(all.take(done + 1).drop_last() =~= all.take(done));
            assert(all.take(done + 1).last() == s);
            self.register(s);
        }
        assert(all.take(all.len() as int) =~= all);
    }

    /// Register skills loaded from a directory, marking each with `source`.
    pub fn inject_skills_from_dir(&mut self, dir_skills: Vec<Skill>, source: SkillSource)
        ensures
            final(self).skills() == register_all(
                old(self).skills(),
                dir_skills@.map_values(|s: Skill| Skill { source: source, ..s }),
            ),
    {
        let mut marked: Vec<Skill> = Vec::new();
        let mut i: usize = 0;
        let mut dir_skills = dir_skills;
        let ghost all = dir_skills@;
        let ghost target = all.map_values(|s: Skill| Skill { source: source, ..s });
        let mut rev: Vec<Skill> = Vec::new();
        while dir_skills.len() > 0
            invariant
                rev@.len() + dir_skills@.len() == all.len(),
                dir_skills@ == all.take(dir_skills@.len() as int),
                forall|k: int| 0 <= k < rev@.len() ==> rev@[k] == all[all.len() - 1 - k],
            decreases dir_skills.len(),
        {
            let s = dir_skills.pop().unwrap();
            rev.push(s);
        }
        while rev.len() > 0
            invariant
                rev@.len() <= all.len(),
                target == all.map_values(|s: Skill| Skill { source: source, ..s }),
                forall|k: int| 0 <= k < rev@.len() ==> rev@[k] == all[all.len() - 1 - k],
                marked@ == target.take(all.len() - rev@.len()),
            decreases rev.len(),
        {
            let ghost done = all.len() - rev@.len();
            let mut s = rev.pop().unwrap();
            s.source = source.clone();
            proof {
                assert(s == target[done]);
            }
            marked.push(s);
            assert(marked@ =~= target.take(done + 1));
        }
        assert(target.take(all.len() as int) =~= target);
        self.register_each(marked);
    }

    /// Register the skills bundled with the runtime.
    pub fn load_bundled_skills(&mut self, bundled: Vec<Skill>)
        ensures
            final(self).skills() == register_all(old(self).skills(), bundled@),
    {
        self.register_each(bundled);
    }

    /// Look up a skill by name.
    pub fn get(&self, name: &str) -> (r: Option<&Skill>)
        ensures
            r is Some <==> index_of_name(self.skills(), name@) is Some,
            r matches Some(s) ==> *s == self.skills()[index_of_name(self.skills(), name@)->0],
            r matches Some(s) ==> s.name@ == name@,
    {
        proof {
            use_type_invariant(self);
        }
        let mut i: usize = 0;
        while i < self.skills.len()
            invariant
                i <= self.skills.len(),
                unique_names(self.skills@),
                forall|j: int| 0 <= j < i ==> self.skills@[j].name@ != name@,
            decreases self.skills.len() - i,
        {
            if str_eq(self.skills[i].name.as_str(), name) {
                proof {
                    let k = choose|k: int|
                        0 <= k < self.skills@.len() && self.skills@[k].name@ == name@;
                    assert(k == i);
                }
                return Some(&self.skills[i]);
            }
            i = i + 1;
        }
        None
    }

    /// All registered skill names.
    pub fn names(&self) -> (r: Vec<&String>)
        ensures
            r@.len() == self.skills().len(),
            forall|k: int| 0 <= k < r@.len() ==> *r@[k] == self.skills()[k].name,
            forall|a: int, b: int| 0 <= a < r@.len() && 0 <= b < r@.len() && a != b ==> r@[a]@ != r@[b]@,
    {
        proof {
            use_type_invariant(self);
        }
        let mut out: Vec<&String> = Vec::new();
        let mut i: usize = 0;
        while i < self.skills.len()
            invariant
                i <= self.skills.len(),
                out@.len() == i,
                forall|k: int| 0 <= k < i ==> *out@[k] == self.skills@[k].name,
            decreases self.skills.len() - i,
        {
            out.push(&self.skills[i].name);
            i = i + 1;
        }
        out
    }

    /// All registered skills.
    pub fn list(&self) -> (r: Vec<&Skill>)
        ensures
            unique_names(self.skills()),
            r@.len() == self.skills().len(),
            forall|k: int| 0 <= k < r@.len() ==> *r@[k] == self.skills()[k],
    {
        proof {
            use_type_invariant(self);
        }
        let mut out: Vec<&Skill> = Vec::new();
        let mut i: usize = 0;
        while i < self.skills.len()
            invariant
                i <= self.skills.len(),
                out@.len() == i,
                forall|k: int| 0 <= k < i ==> *out@[k] == self.skills@[k],
            decreases self.skills.len() - i,
        {
            out.push(&self.skills[i]);
            i = i + 1;
        }
        out
    }

    /// Retrieve the most relevant skills for a free-text query: those with a
    /// positive score, best first (ties by name), at most `limit`.
    pub fn retrieve(&self, query: &str, limit: usize) -> (r: Vec<&Skill>)
        ensures
            r@.len() == retrieve_spec(self.skills(), query@, limit as nat).len(),
            forall|k: int|
                0 <= k < r@.len() ==> *r@[k] == retrieve_spec(self.skills(), query@, limit as nat)[k],
    {
        if limit == 0 {
            return Vec::new();
        }
        let qv = chars_of(query);
        let terms = tokenize(qv.as_slice());
        if terms.len() == 0 {
            return Vec::new();
        }
        let ghost tv = terms@.map_values(|t: Vec<char>| t@);
        let mut ranked_list: Vec<(u128, &Skill)> = Vec::new();
        let mut i: usize = 0;
        while i < self.skills.len()
            invariant
                i <= self.skills.len(),
                tv == terms@.map_values(|t: Vec<char>| t@),
                tv == query_terms(query@),
                terms@.len() <= qv@.len(),
                qv@ == query@,
                ranked_list@.len() == ranked(self.skills@.take(i as int), tv).len(),
                forall|k: int|
                    0 <= k < ranked_list@.len() ==> (#[trigger] ranked_list@[k]).0 as nat == ranked(
                        self.skills@.take(i as int),
                        tv,
                    )[k].0 && *ranked_list@[k].1 == ranked(self.skills@.take(i as int), tv)[k].1,
            decreases self.skills.len() - i,
        {
            let skill = &self.skills[i];
            assert(self.skills@.take(i + 1).drop_last() =~= self.skills@.take(i as int));
            let sc = score_skill(skill, &terms);
            if sc > 0 {
                rank_insert_exec(&mut ranked_list, sc, skill, Ghost(self.skills@.take(i as int)), Ghost(tv));
            }
            i = i + 1;
        }
        assert(self.skills@.take(self.skills.len() as int) =~= self.skills@);
        let n = if ranked_list.len() < limit {
            ranked_list.len()
        } else {
            limit
        };
        let mut out: Vec<&Skill> = Vec::new();
        let mut j: usize = 0;
        while j < n
            invariant
                j <= n <= ranked_list@.len(),
                out@.len() == j,
                forall|k: int| 0 <= k < j ==> *out@[k] == *ranked_list@[k].1,
            decreases n - j,
        {
            out.push(ranked_list[j].1);
            j = j + 1;
        }
        out
    }

    /// Render a compact skill index for lightweight prompt injection.
    pub fn render_index_for_prompt(&self) -> (r: String)
        ensures
            r@ == index_text(self.skills()),
    {
        if self.skills.len() == 0 {
            return String::new();
        }
        let sorted = self.sorted_by_name();
        let mut out: Vec<char> = Vec::new();
        extend_str(&mut out, "## Skill Index");
        extend_str(&mut out, "\n");
        extend_str(
            &mut out,
            "Use the Skill tool only for skills listed as available or recommended below.",
        );
        let ghost head = seq![
            "## Skill Index"@,
            "Use the Skill tool only for skills listed as available or recommended below."@,
        ];
        let ghost lines = index_lines(by_name(self.skills()));
        proof {
            lemma_join_push(seq!["## Skill Index"@], head[1], "\n"@);
            assert(seq!["## Skill Index"@].push(head[1]) =~= head);
            assert(head.take(1) =~= seq!["## Skill Index"@]);
            assert(join(seq!["## Skill Index"@], "\n"@) == "## Skill Index"@);
        }
        let mut i: usize = 0;
        while i < sorted.len()
            invariant
                i <= sorted.len(),
                sorted@.len() == by_name(self.skills()).len(),
                forall|k: int| 0 <= k < sorted@.len() ==> *sorted@[k] == by_name(self.skills())[k],
                lines == index_lines(by_name(self.skills())),
                head.len() == 2,
                out@ == join(head + lines.take(i as int), "\n"@),
            decreases sorted.len() - i,
        {
            let s = sorted[i];
            proof {
                lemma_join_push(head + lines.take(i as int), lines[i as int], "\n"@);
                assert((head + lines.take(i as int)).push(lines[i as int]) =~= head + lines.take(
                    i + 1,
                ));
            }
            extend_str(&mut out, "\n");
            extend_str(&mut out, "- **");
            extend_str(&mut out, s.name.as_str());
            extend_str(&mut out, "**: ");
            extend_str(&mut out, s.description.as_str());
            proof {
                assert(out@ =~= join(head + lines.take(i as int), "\n"@) + "\n"@ + lines[i as int]);
            }
            i = i + 1;
        }
        assert(lines.take(sorted.len() as int) =~= lines);
        string_of(out.as_slice())
    }

    /// Render the skills list for injection into the system prompt.
    pub fn render_for_prompt(&self) -> (r: String)
        ensures
            r@ == listing_text(self.skills()),
    {
        if self.skills.len() == 0 {
            return String::new();
        }
        let sorted = self.sorted_by_name();
        let mut out: Vec<char> = Vec::new();
        extend_str(&mut out, "## Available Skills");
        extend_str(&mut out, "\n");
        extend_str(&mut out, "You can invoke skills via the Skill tool. Available skills:");
        let ghost head = seq![
            "## Available Skills"@,
            "You can invoke skills via the Skill tool. Available skills:"@,
        ];
        let ghost lines = listing_lines(by_name(self.skills()));
        proof {
            lemma_join_push(seq!["## Available Skills"@], head[1], "\n"@);
            assert(seq!["## Available Skills"@].push(head[1]) =~= head);
            assert(join(seq!["## Available Skills"@], "\n"@) == "## Available Skills"@);
        }
        let mut i: usize = 0;
        while i < sorted.len()
            invariant
                i <= sorted.len(),
                sorted@.len() == by_name(self.skills()).len(),
                forall|k: int| 0 <= k < sorted@.len() ==> *sorted@[k] == by_name(self.skills())[k],
                lines == listing_lines(by_name(self.skills())),
                head.len() == 2,
                out@ == join(head + lines.take(i as int), "\n"@),
            decreases sorted.len() - i,
        {
            let s = sorted[i];
            proof {
                lemma_join_push(head + lines.take(i as int), lines[i as int], "\n"@);
                assert((head + lines.take(i as int)).push(lines[i as int]) =~= head + lines.take(
                    i + 1,
                ));
            }
            let ghost before = out@;
            extend_str(&mut out, "\n");
            extend_str(&mut out, "- **");
            extend_str(&mut out, s.name.as_str());
            extend_str(&mut out, "**: ");
            extend_str(&mut out, s.description.as_str());
            match &s.when_to_use {
                Some(w) => {
                    extend_str(&mut out, " — Use when: ");
                    extend_str(&mut out, w.as_str());
                },
                None => {},
            }
            proof {
                assert(out@ =~= before + "\n"@ + lines[i as int]);
            }
            i = i + 1;
        }
        assert(lines.take(sorted.len() as int) =~= lines);
        string_of(out.as_slice())
    }

    /// References to the skills in name order.
    fn sorted_by_name(&self) -> (r: Vec<&Skill>)
        ensures
            r@.len() == by_name(self.skills()).len(),
            forall|k: int| 0 <= k < r@.len() ==> *r@[k] == by_name(self.skills())[k],
    {
        let mut out: Vec<&Skill> = Vec::new();
        let mut i: usize = 0;
        while i < self.skills.len()
            invariant
                i <= self.skills.len(),
                out@.len() == by_name(self.skills@.take(i as int)).len(),
                forall|k: int|
                    0 <= k < out@.len() ==> *out@[k] == by_name(self.skills@.take(i as int))[k],
            decreases self.skills.len() - i,
        {
            let s = &self.skills[i];
            assert(self.skills@.take(i + 1).drop_last() =~= self.skills@.take(i as int));
            let ghost prev = by_name(self.skills@.take(i as int));
            let mut pos: usize = 0;
            assert(prev.take(0) =~= Seq::<Skill>::empty());
            assert(prev.skip(0) =~= prev);
            while pos < out.len()
                invariant
                    pos <= out@.len(),
                    out@.len() == prev.len(),
                    forall|k: int| 0 <= k < out@.len() ==> *out@[k] == prev[k],
                    name_insert(prev, *s) == prev.take(pos as int) + name_insert(
                        prev.skip(pos as int),
                        *s,
                    ),
                ensures
                    pos <= out@.len(),
                    pos < out@.len() ==> lex_lt(s.name@, prev[pos as int].name@),
                decreases out@.len() - pos,
            {
                if lex_lt_str(&s.name, &out[pos].name) {
                    break;
                }
                proof {
                    let rest = prev.skip(pos as int);
                    assert(rest[0] == prev[pos as int]);
                    assert(rest.skip(1) =~= prev.skip(pos + 1));
                    assert(name_insert(rest, *s) == seq![rest[0]] + name_insert(rest.skip(1), *s));
                    assert(prev.take(pos as int) + (seq![prev[pos as int]] + name_insert(
                        prev.skip(pos + 1),
                        *s,
                    )) =~= prev.take(pos + 1) + name_insert(prev.skip(pos + 1), *s));
                }
                pos = pos + 1;
            }
            proof {
                let rest = prev.skip(pos as int);
                if pos < prev.len() {
                    assert(rest[0] == prev[pos as int]);
                    assert(name_insert(rest, *s) == seq![*s] + rest);
                } else {
                    assert(rest =~= Seq::<Skill>::empty());
                    assert(name_insert(rest, *s) == seq![*s]);
                }
                assert(name_insert(rest, *s) =~= seq![*s] + rest);
                assert(prev.take(pos as int) + (seq![*s] + rest) =~= prev.insert(pos as int, *s));
            }
            out.insert(pos, s);
            i = i + 1;
        }
        assert(self.skills@.take(self.skills.len() as int) =~= self.skills@);
        out
    }
}

fn rank_insert_exec<'a>(
    list: &mut Vec<(u128, &'a Skill)>,
    sc: u128,
    s: &'a Skill,
    Ghost(done): Ghost<Seq<Skill>>,
    Ghost(terms): Ghost<Seq<Seq<char>>>,
)
    requires
        old(list)@.len() == ranked(done, terms).len(),
        forall|k: int|
            0 <= k < old(list)@.len() ==> (#[trigger] old(list)@[k]).0 as nat == ranked(done, terms)[k].0
                && *old(list)@[k].1 == ranked(done, terms)[k].1,
    ensures
        final(list)@.len() == rank_insert(ranked(done, terms), (sc as nat, *s)).len(),
        forall|k: int|
            0 <= k < final(list)@.len() ==> (#[trigger] final(list)@[k]).0 as nat == rank_insert(
                ranked(done, terms),
                (sc as nat, *s),
            )[k].0 && *final(list)@[k].1 == rank_insert(ranked(done, terms), (sc as nat, *s))[k].1,
{
    let ghost prev = ranked(done, terms);
    let ghost x = (sc as nat, *s);
    let mut pos: usize = 0;
    assert(prev.take(0) =~= Seq::<(nat, Skill)>::empty());
    assert(prev.skip(0) =~= prev);
    while pos < list.len()
        invariant
            pos <= list@.len(),
            list@ == old(list)@,
            list@.len() == prev.len(),
            x == (sc as nat, *s),
            forall|k: int|
                0 <= k < list@.len() ==> (#[trigger] list@[k]).0 as nat == prev[k].0 && *list@[k].1
                    == prev[k].1,
            rank_insert(prev, x) == prev.take(pos as int) + rank_insert(prev.skip(pos as int), x),
        ensures
            pos <= list@.len(),
            pos < list@.len() ==> ranks_before(x, prev[pos as int]),
        decreases list@.len() - pos,
    {
        let (osc, other) = list[pos];
        let before = sc > osc || (sc == osc && lex_lt_str(&s.name, &other.name));
        if before {
            break;
        }
        proof {
            let rest = prev.skip(pos as int);
            assert(rest[0] == prev[pos as int]);
            assert(rest.skip(1) =~= prev.skip(pos + 1));
            assert(!ranks_before(x, rest[0]));
            assert(rank_insert(rest, x) == seq![rest[0]] + rank_insert(rest.skip(1), x));
            assert(prev.take(pos as int) + (seq![prev[pos as int]] + rank_insert(
                prev.skip(pos + 1),
                x,
            )) =~= prev.take(pos + 1) + rank_insert(prev.skip(pos + 1), x));
        }
        pos = pos + 1;
    }
    proof {
        let rest = prev.skip(pos as int);
        if pos < prev.len() {
            assert(rest[0] == prev[pos as int]);
            assert(rank_insert(rest, x) == seq![x] + rest);
        } else {
            assert(rest =~= Seq::<(nat, Skill)>::empty());
            assert(rank_insert(rest, x) == seq![x]);
        }
        assert(rank_insert(rest, x) =~= seq![x] + rest);
        assert(prev.take(pos as int) + (seq![x] + rest) =~= prev.insert(pos as int, x));
    }
    list.insert(pos, (sc, s));
}

/// Splits on non-alphanumeric characters, lower-casing the parts.
fn tokenize(text: &[char]) -> (r: Vec<Vec<char>>)
    ensures
        r@.map_values(|t: Vec<char>| t@) == query_terms(text@),
        r@.len() <= text@.len(),
        forall|k: int| 0 <= k < r@.len() ==> (#[trigger] r@[k])@.len() <= text@.len(),
{
    let mut out: Vec<Vec<char>> = Vec::new();
    let mut cur: Vec<char> = Vec::new();
    let mut i: usize = 0;
    assert(text@.skip(0) =~= text@);
    while i < text.len()
        invariant
            i <= text.len(),
            cur@.len() <= i,
            out@.len() + (if cur@.len() > 0 { 1int } else { 0int }) <= i,
            forall|k: int| 0 <= k < out@.len() ==> (#[trigger] out@[k])@.len() <= i,
            query_terms(text@) == out@.map_values(|t: Vec<char>| t@) + terms_acc(
                text@.skip(i as int),
                cur@,
            ),
        decreases text.len() - i,
    {
        let c = text[i];
        let ghost rest = text@.skip(i as int);
        assert(rest[0] == c);
        assert(rest.skip(1) =~= text@.skip(i + 1));
        if is_ascii_alnum_exec(c) {
            cur.push(c);
        } else if cur.len() > 0 {
            let low = ascii_lower_exec(cur.as_slice());
            let ghost before = out@.map_values(|t: Vec<char>| t@);
            out.push(low);
            assert(out@.map_values(|t: Vec<char>| t@) =~= before.push(ascii_lower(cur@)));
            assert(before + (seq![ascii_lower(cur@)] + terms_acc(rest.skip(1), seq![])) =~= before.push(
                ascii_lower(cur@),
            ) + terms_acc(rest.skip(1), seq![]));
            cur = Vec::new();
            assert(cur@ =~= Seq::<char>::empty());
        } else {
            assert(cur@ =~= Seq::<char>::empty());
        }
        i = i + 1;
    }
    if cur.len() > 0 {
        let low = ascii_lower_exec(cur.as_slice());
        let ghost before = out@.map_values(|t: Vec<char>| t@);
        out.push(low);
        assert(out@.map_values(|t: Vec<char>| t@) =~= before + seq![ascii_lower(cur@)]);
    } else {
        assert(out@.map_values(|t: Vec<char>| t@) + Seq::<Seq<char>>::empty() =~= out@.map_values(
            |t: Vec<char>| t@,
        ));
    }
    out
}

fn field_hit(field: &str, term: &[char], weight: usize) -> (r: usize)
    ensures
        r == hit(field@, term@, weight as nat),
{
    let fv = chars_of(field);
    let low = ascii_lower_exec(fv.as_slice());
    if contains_exec(low.as_slice(), term) {
        weight
    } else {
        0
    }
}

fn score_skill(skill: &Skill, terms: &Vec<Vec<char>>) -> (r: u128)
    ensures
        r == skill_score(*skill, terms@.map_values(|t: Vec<char>| t@)),
{
    let ghost tv = terms@.map_values(|t: Vec<char>| t@);
    let mut score: u128 = 0;
    let mut i: usize = 0;
    while i < terms.len()
        invariant
            i <= terms@.len(),
            tv == terms@.map_values(|t: Vec<char>| t@),
            score == skill_score(*skill, tv.take(i as int)),
            score <= 16 * i,
        decreases terms.len() - i,
    {
        let t = terms[i].as_slice();
        let when_hit = match &skill.when_to_use {
            Some(w) => field_hit(w.as_str(), t, 3),
            None => field_hit("", t, 3),
        } as u128;
        proof {
            if skill.when_to_use is None {
                assert(""@ =~= Seq::<char>::empty()) by {
                    reveal_strlit("");
                }
            }
            assert(tv.take(i + 1).drop_last() =~= tv.take(i as int));
        }
        let name_hit = field_hit(skill.name.as_str(), t, 6) as u128;
        let description_hit = field_hit(skill.description.as_str(), t, 4) as u128;
        let prompt_hit = field_hit(skill.prompt.as_str(), t, 2) as u128;
        let body_hit = field_hit(skill.body.as_str(), t, 1) as u128;
        score = score + name_hit + description_hit + when_hit + prompt_hit + body_hit;
        i = i + 1;
    }
    assert(tv.take(terms.len() as int) =~= tv);
    score
}

/// Every registered skill is found under its own name: where no two skills
/// share a name (as in every registry, see [`SkillRegistry::list`]), looking
/// up the name of the skill at any place finds that very skill.
pub proof fn law_skills_found_by_their_names(skills: Seq<Skill>, k: int)
    requires
        unique_names(skills),
        0 <= k < skills.len(),
    ensures
        index_of_name(skills, skills[k].name@) == Some(k),
{
    assert(skills[k].name@ == skills[k].name@);
    let j = choose|j: int| 0 <= j < skills.len() && skills[j].name@ == skills[k].name@;
    assert(j == k);
}

/// `t` occurs in the lower-cased `field`.
pub open spec fn found_in(field: Seq<char>, t: Seq<char>) -> bool {
    contains(ascii_lower(field), t)
}

/// The text a skill's when-to-use field holds (none when absent).
pub open spec fn when_text(s: Skill) -> Seq<char> {
    match s.when_to_use {
        Some(w) => w@,
        None => seq![],
    }
}

/// The weights of a term's matches: a term found only in a skill's name
/// scores 6, only in its description 4, only in its when-to-use text 3,
/// only in its prompt 2, only in its body 1, and nowhere 0; a term found in
/// several fields scores the sum, at most 16.
pub proof fn law_term_weights(s: Skill, t: Seq<char>)
    ensures
        found_in(s.name@, t) && !found_in(s.description@, t) && !found_in(when_text(s), t) && !found_in(
            s.prompt@,
            t,
        ) && !found_in(s.body@, t) ==> term_score(s, t) == 6,
        !found_in(s.name@, t) && found_in(s.description@, t) && !found_in(when_text(s), t) && !found_in(
            s.prompt@,
            t,
        ) && !found_in(s.body@, t) ==> term_score(s, t) == 4,
        !found_in(s.name@, t) && !found_in(s.description@, t) && found_in(when_text(s), t) && !found_in(
            s.prompt@,
            t,
        ) && !found_in(s.body@, t) ==> term_score(s, t) == 3,
        !found_in(s.name@, t) && !found_in(s.description@, t) && !found_in(when_text(s), t) && found_in(
            s.prompt@,
            t,
        ) && !found_in(s.body@, t) ==> term_score(s, t) == 2,
        !found_in(s.name@, t) && !found_in(s.description@, t) && !found_in(when_text(s), t) && !found_in(
            s.prompt@,
            t,
        ) && found_in(s.body@, t) ==> term_score(s, t) == 1,
        (term_score(s, t) == 0) == (!found_in(s.name@, t) && !found_in(s.description@, t) && !found_in(
            when_text(s),
            t,
        ) && !found_in(s.prompt@, t) && !found_in(s.body@, t)),
        found_in(s.name@, t) ==> term_score(s, t) >= 6,
        term_score(s, t) <= 16,
        term_score(s, t) == (if found_in(s.name@, t) { 6nat } else { 0nat }) + (if found_in(s.description@, t) {
            4nat
        } else {
            0nat
        }) + (if found_in(when_text(s), t) { 3nat } else { 0nat }) + (if found_in(s.prompt@, t) {
            2nat
        } else {
            0nat
        }) + (if found_in(s.body@, t) { 1nat } else { 0nat }),
{
}

/// For a one-term query, a skill that matches it only by name scores more,
/// and so ranks before, a skill that matches it only in its body.
pub proof fn law_name_match_outranks_body_match(a: Skill, b: Skill, t: Seq<char>)
    requires
        found_in(a.name@, t),
        !found_in(a.description@, t),
        !found_in(when_text(a), t),
        !found_in(a.prompt@, t),
        !found_in(a.body@, t),
        !found_in(b.name@, t),
        !found_in(b.description@, t),
        !found_in(when_text(b), t),
        !found_in(b.prompt@, t),
        found_in(b.body@, t),
    ensures
        skill_score(a, seq![t]) == 6,
        skill_score(b, seq![t]) == 1,
        ranks_before((skill_score(a, seq![t]), a), (skill_score(b, seq![t]), b)),
{
    law_term_weights(a, t);
    law_term_weights(b, t);
    let q = seq![t];
    assert(q.drop_last() =~= Seq::<Seq<char>>::empty());
    assert(q.last() == t);
    assert(skill_score(a, q.drop_last()) == 0);
    assert(skill_score(b, q.drop_last()) == 0);
    assert(skill_score(a, q) == skill_score(a, q.drop_last()) + term_score(a, q.last()));
    assert(skill_score(b, q) == skill_score(b, q.drop_last()) + term_score(b, q.last()));
}

/// Retrieval puts the better match first: of two skills that both match a
/// query, the one with the higher score comes first, whichever order they
/// were registered in.
pub proof fn law_higher_score_retrieved_first(a: Skill, b: Skill, query: Seq<char>, limit: nat)
    requires
        limit >= 2,
        query_terms(query).len() > 0,
        skill_score(b, query_terms(query)) > 0,
        skill_score(a, query_terms(query)) > skill_score(b, query_terms(query)),
    ensures
        retrieve_spec(seq![a, b], query, limit) == seq![a, b],
        retrieve_spec(seq![b, a], query, limit) == seq![a, b],
{
    let terms = query_terms(query);
    let sa = skill_score(a, terms);
    let sb = skill_score(b, terms);
    let ab = seq![a, b];
    let ba = seq![b, a];
    assert(ab.drop_last() =~= seq![a]);
    assert(ba.drop_last() =~= seq![b]);
    assert(seq![a].drop_last() =~= Seq::<Skill>::empty());
    assert(seq![b].drop_last() =~= Seq::<Skill>::empty());
    assert(seq![a].last() == a);
    assert(seq![b].last() == b);
    assert(ranked(Seq::<Skill>::empty(), terms) == Seq::<(nat, Skill)>::empty());
    assert(ranked(seq![a].drop_last(), terms) == Seq::<(nat, Skill)>::empty());
    assert(ranked(seq![b].drop_last(), terms) == Seq::<(nat, Skill)>::empty());
    assert(ranked(seq![a], terms) == rank_insert(seq![], (sa, a)));
    assert(ranked(seq![b], terms) == rank_insert(seq![], (sb, b)));
    let one_a = seq![(sa, a)];
    let one_b = seq![(sb, b)];
    assert(rank_insert(seq![], (sa, a)) == one_a);
    assert(rank_insert(seq![], (sb, b)) == one_b);
    // [a, b]: b is inserted after a.
    assert(!ranks_before((sb, b), one_a[0]));
    assert(one_a.skip(1) =~= Seq::<(nat, Skill)>::empty());
    assert(rank_insert(one_a.skip(1), (sb, b)) == seq![(sb, b)]);
    assert(rank_insert(one_a, (sb, b)) =~= seq![(sa, a), (sb, b)]);
    // [b, a]: a is inserted before b.
    assert(ranks_before((sa, a), one_b[0]));
    assert(rank_insert(one_b, (sa, a)) =~= seq![(sa, a), (sb, b)]);
    let r = seq![(sa, a), (sb, b)];
    assert(ranked(ab, terms) == r);
    assert(ranked(ba, terms) == r);
    assert(r.take(2).map_values(|p: (nat, Skill)| p.1) =~= seq![a, b]);
}

/// Ties go by name: of two skills that match a query equally well, the one
/// whose name sorts first comes first, whichever order they were
/// registered in.
pub proof fn law_equal_scores_retrieved_by_name(a: Skill, b: Skill, query: Seq<char>, limit: nat)
    requires
        limit >= 2,
        query_terms(query).len() > 0,
        skill_score(a, query_terms(query)) > 0,
        skill_score(a, query_terms(query)) == skill_score(b, query_terms(query)),
        crate::text::lex_lt(a.name@, b.name@),
    ensures
        retrieve_spec(seq![a, b], query, limit) == seq![a, b],
        retrieve_spec(seq![b, a], query, limit) == seq![a, b],
{
    crate::text::lemma_lex_lt_asymmetric(a.name@, b.name@);
    let terms = query_terms(query);
    let sa = skill_score(a, terms);
    let sb = skill_score(b, terms);
    let ab = seq![a, b];
    let ba = seq![b, a];
    assert(ab.drop_last() =~= seq![a]);
    assert(ba.drop_last() =~= seq![b]);
    assert(seq![a].drop_last() =~= Seq::<Skill>::empty());
    assert(seq![b].drop_last() =~= Seq::<Skill>::empty());
    assert(seq![a].last() == a);
    assert(seq![b].last() == b);
    assert(ranked(Seq::<Skill>::empty(), terms) == Seq::<(nat, Skill)>::empty());
    assert(ranked(seq![a].drop_last(), terms) == Seq::<(nat, Skill)>::empty());
    assert(ranked(seq![b].drop_last(), terms) == Seq::<(nat, Skill)>::empty());
    let one_a = seq![(sa, a)];
    let one_b = seq![(sb, b)];
    assert(rank_insert(seq![], (sa, a)) == one_a);
    assert(rank_insert(seq![], (sb, b)) == one_b);
    assert(ranked(seq![a], terms) == one_a);
    assert(ranked(seq![b], terms) == one_b);
    assert(!ranks_before((sb, b), one_a[0]));
    assert(one_a.skip(1) =~= Seq::<(nat, Skill)>::empty());
    assert(rank_insert(one_a.skip(1), (sb, b)) == seq![(sb, b)]);
    assert(rank_insert(one_a, (sb, b)) =~= seq![(sa, a), (sb, b)]);
    assert(ranks_before((sa, a), one_b[0]));
    assert(rank_insert(one_b, (sa, a)) =~= seq![(sa, a), (sb, b)]);
    let r = seq![(sa, a), (sb, b)];
    assert(ranked(ab, terms) == r);
    assert(ranked(ba, terms) == r);
    assert(r.take(2).map_values(|p: (nat, Skill)| p.1) =~= seq![a, b]);
}

/// Inserting into a ranking adds exactly the one item.
proof fn lemma_rank_insert_members(sorted: Seq<(nat, Skill)>, x: (nat, Skill), y: (nat, Skill))
    ensures
        rank_insert(sorted, x).len() == sorted.len() + 1,
        rank_insert(sorted, x).contains(y) <==> (sorted.contains(y) || y == x),
    decreases sorted.len(),
{
    if sorted.len() == 0 {
        assert(rank_insert(sorted, x)[0] == x);
    } else if ranks_before(x, sorted[0]) {
        let r = seq![x] + sorted;
        assert(r[0] == x);
        if sorted.contains(y) {
            let j = choose|j: int| 0 <= j < sorted.len() && sorted[j] == y;
            assert(r[j + 1] == y);
        }
        if r.contains(y) {
            let j = choose|j: int| 0 <= j < r.len() && r[j] == y;
            if j > 0 {
                assert(sorted[j - 1] == y);
            }
        }
    } else {
        let rest = sorted.skip(1);
        lemma_rank_insert_members(rest, x, y);
        let r = seq![sorted[0]] + rank_insert(rest, x);
        let ri = rank_insert(rest, x);
        if sorted.contains(y) {
            let j = choose|j: int| 0 <= j < sorted.len() && sorted[j] == y;
            if j == 0 {
                assert(r[0] == y);
            } else {
                assert(rest[j - 1] == y);
                assert(ri.contains(y));
                let m = choose|m: int| 0 <= m < ri.len() && ri[m] == y;
                assert(r[m + 1] == y);
            }
        }
        if y == x {
            assert(ri.contains(y));
            let m = choose|m: int| 0 <= m < ri.len() && ri[m] == y;
            assert(r[m + 1] == y);
        }
        if r.contains(y) {
            let j = choose|j: int| 0 <= j < r.len() && r[j] == y;
            if j == 0 {
                assert(sorted[0] == y);
            } else {
                assert(ri[j - 1] == y);
                if rest.contains(y) {
                    let m = choose|m: int| 0 <= m < rest.len() && rest[m] == y;
                    assert(sorted[m + 1] == y);
                }
            }
        }
    }
}

/// A ranking holds each registered skill that matches, with its score,
/// and nothing else.
proof fn lemma_ranked_members(skills: Seq<Skill>, terms: Seq<Seq<char>>, y: (nat, Skill))
    ensures
        ranked(skills, terms).contains(y) <==> (skills.contains(y.1) && y.0 == skill_score(y.1, terms) && y.0 > 0),
        ranked(skills, terms).len() <= skills.len(),
    decreases skills.len(),
{
    if skills.len() > 0 {
        let rest = skills.drop_last();
        lemma_ranked_members(rest, terms, y);
        let sc = skill_score(skills.last(), terms);
        if sc > 0 {
            lemma_rank_insert_members(ranked(rest, terms), (sc, skills.last()), y);
        }
        if skills.contains(y.1) && !rest.contains(y.1) {
            let j = choose|j: int| 0 <= j < skills.len() && skills[j] == y.1;
            if j < rest.len() {
                assert(rest[j] == y.1);
            }
        }
        if rest.contains(y.1) {
            let j = choose|j: int| 0 <= j < rest.len() && rest[j] == y.1;
            assert(skills[j] == y.1);
        }
        assert(skills[skills.len() - 1] == skills.last());
    }
}

/// Retrieval gives at most `limit` skills, each a registered skill that
/// matches the query (scores above zero).
pub proof fn law_retrieved_skills_match(skills: Seq<Skill>, query: Seq<char>, limit: nat, k: int)
    requires
        0 <= k < retrieve_spec(skills, query, limit).len(),
    ensures
        retrieve_spec(skills, query, limit).len() <= limit,
        skills.contains(retrieve_spec(skills, query, limit)[k]),
        skill_score(retrieve_spec(skills, query, limit)[k], query_terms(query)) > 0,
{
    let terms = query_terms(query);
    let r = ranked(skills, terms);
    let n: int = if r.len() < limit { r.len() as int } else { limit as int };
    assert(retrieve_spec(skills, query, limit) == r.take(n).map_values(|p: (nat, Skill)| p.1));
    let y = r[k];
    assert(r.contains(y));
    lemma_ranked_members(skills, terms, y);
}

} // verus!

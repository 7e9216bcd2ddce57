//! Persistent memory: the active index of memories and the retention policy
//! that decides which of them are archived.
use vstd::prelude::*;

use crate::text::str_eq;

use crate::text::{ascii_lower, ascii_lower_exec, chars_of, lemma_lex_lt_irreflexive, lex_lt, lex_lt_str, parse_u64, parse_u64_exec, seq_eq};

verus! {

/// How far a memory has been confirmed.
#[derive(Debug, Clone, Copy, PartialEq, Eq, Structural)]
pub enum MemoryStatus {
    Verified,
    Working,
    Deprecated,
}

/// What kind of knowledge a memory holds.
#[derive(Debug, Clone, Copy, PartialEq, Eq, Structural)]
pub enum MemoryCategory {
    Command,
    Convention,
    Preference,
    Fact,
}

/// One stored memory.
#[derive(Debug, Clone)]
pub struct MemoryEntry {
    pub name: String,
    pub category: MemoryCategory,
    pub status: MemoryStatus,
    pub tags: Vec<String>,
    pub times_used: u64,
    pub updated: String,
}

/// Query rank of a status: confirmed knowledge first.
pub open spec fn status_rank(s: MemoryStatus) -> nat {
    match s {
        MemoryStatus::Verified => 0,
        MemoryStatus::Working => 1,
        MemoryStatus::Deprecated => 2,
    }
}

pub fn status_rank_exec(s: MemoryStatus) -> (r: u8)
    ensures
        r == status_rank(s),
{
    match s {
        MemoryStatus::Verified => 0,
        MemoryStatus::Working => 1,
        MemoryStatus::Deprecated => 2,
    }
}

/// Conservative cleanup knobs for persistent memory.
#[derive(Debug, Clone, Copy)]
pub struct MemoryMaintenancePolicy {
    /// Keep at most this many active auto-learned command memories.
    pub max_auto_learned_commands: Option<usize>,
    /// Keep at most this many active memories overall.
    pub max_active_entries: Option<usize>,
    /// Move deprecated memories out of the active index.
    pub archive_deprecated: bool,
}

impl Default for MemoryMaintenancePolicy {
    fn default() -> (r: Self)
        ensures
            r.max_auto_learned_commands == Some(20usize),
            r.max_active_entries == None::<usize>,
            r.archive_deprecated,
    {
        Self { max_auto_learned_commands: Some(20), max_active_entries: None, archive_deprecated: true }
    }
}

#[derive(Debug, Clone, Copy, PartialEq, Eq, Structural)]
pub enum MemoryMaintenanceActionKind {
    Archive,
}

#[derive(Debug, Clone, PartialEq, Eq)]
pub struct MemoryMaintenanceAction {
    pub name: String,
    pub action: MemoryMaintenanceActionKind,
    pub reason: String,
}

#[derive(Debug, Clone, PartialEq, Eq)]
pub struct MemoryMaintenanceReport {
    pub applied: bool,
    pub active_before: usize,
    pub archived_count: usize,
    pub actions: Vec<MemoryMaintenanceAction>,
}

// ---------------------------------------------------------------------------
// Ordering
// ---------------------------------------------------------------------------

/// `updated` read as a number, 0 where it is not one.
pub open spec fn sort_value(updated: Seq<char>) -> u64 {
    match parse_u64(updated) {
        Some(v) => v,
        None => 0,
    }
}

/// A memory marked by the learner as an auto-learned shell command.
pub open spec fn is_auto_learned(e: MemoryEntry) -> bool {
    &&& e.category == MemoryCategory::Command
    &&& e.status == MemoryStatus::Working
    &&& exists|i: int| 0 <= i < e.tags@.len() && ascii_lower(#[trigger] e.tags@[i]@) == "auto-learned"@
}

/// Least used first, then oldest update, then by name.
pub open spec fn usage_before(a: MemoryEntry, b: MemoryEntry) -> bool {
    ||| a.times_used < b.times_used
    ||| a.times_used == b.times_used && sort_value(a.updated@) < sort_value(b.updated@)
    ||| a.times_used == b.times_used && sort_value(a.updated@) == sort_value(b.updated@) && lex_lt(
        a.updated@,
        b.updated@,
    )
    ||| a.times_used == b.times_used && a.updated@ == b.updated@ && lex_lt(a.name@, b.name@)
}

/// Least trusted status first, then as `usage_before`.
pub open spec fn retention_before(a: MemoryEntry, b: MemoryEntry) -> bool {
    ||| status_rank(a.status) > status_rank(b.status)
    ||| status_rank(a.status) == status_rank(b.status) && usage_before(a, b)
}

/// The three orders the maintenance pass sorts by.
#[derive(Debug, Clone, Copy, PartialEq, Eq, Structural)]
pub enum EntryOrder {
    Name,
    Usage,
    Retention,
}

pub open spec fn order_before(o: EntryOrder, a: MemoryEntry, b: MemoryEntry) -> bool {
    match o {
        EntryOrder::Name => lex_lt(a.name@, b.name@),
        EntryOrder::Usage => usage_before(a, b),
        EntryOrder::Retention => retention_before(a, b),
    }
}

/// Inserts `x` before the first element it comes before.
pub open spec fn insert_ordered(o: EntryOrder, sorted: Seq<MemoryEntry>, x: MemoryEntry) -> Seq<
    MemoryEntry,
>
    decreases sorted.len(),
{
    if sorted.len() == 0 {
        seq![x]
    } else if order_before(o, x, sorted[0]) {
        seq![x] + sorted
    } else {
        seq![sorted[0]] + insert_ordered(o, sorted.skip(1), x)
    }
}

/// `s` sorted by the order `o`.
pub open spec fn sort_ordered(o: EntryOrder, s: Seq<MemoryEntry>) -> Seq<MemoryEntry>
    decreases s.len(),
{
    if s.len() == 0 {
        seq![]
    } else {
        insert_ordered(o, sort_ordered(o, s.drop_last()), s.last())
    }
}

// ---------------------------------------------------------------------------
// The maintenance plan
// ---------------------------------------------------------------------------

/// An archive action as (memory name, reason).
pub open spec fn action_views(acts: Seq<MemoryMaintenanceAction>) -> Seq<(Seq<char>, Seq<char>)> {
    acts.map_values(|a: MemoryMaintenanceAction| (a.name@, a.reason@))
}

/// Some action already names `name`.
pub open spec fn is_selected(acts: Seq<(Seq<char>, Seq<char>)>, name: Seq<char>) -> bool {
    exists|i: int| 0 <= i < acts.len() && (#[trigger] acts[i]).0 == name
}

/// Archive `name` for `reason`, unless it is already selected.
pub open spec fn push_action(acts: Seq<(Seq<char>, Seq<char>)>, name: Seq<char>, reason: Seq<char>) -> Seq<
    (Seq<char>, Seq<char>),
> {
    if is_selected(acts, name) {
        acts
    } else {
        acts.push((name, reason))
    }
}

/// Archive each of `es`, in order, for `reason`.
pub open spec fn push_each(
    acts: Seq<(Seq<char>, Seq<char>)>,
    es: Seq<MemoryEntry>,
    reason: Seq<char>,
) -> Seq<(Seq<char>, Seq<char>)>
    decreases es.len(),
{
    if es.len() == 0 {
        acts
    } else {
        push_action(push_each(acts, es.drop_last(), reason), es.last().name@, reason)
    }
}

/// The deprecated memories of `es`, in order.
pub open spec fn deprecated_of(es: Seq<MemoryEntry>) -> Seq<MemoryEntry>
    decreases es.len(),
{
    if es.len() == 0 {
        seq![]
    } else if es.last().status == MemoryStatus::Deprecated {
        deprecated_of(es.drop_last()).push(es.last())
    } else {
        deprecated_of(es.drop_last())
    }
}

/// The auto-learned command memories of `es`, in order.
pub open spec fn auto_commands_of(es: Seq<MemoryEntry>) -> Seq<MemoryEntry>
    decreases es.len(),
{
    if es.len() == 0 {
        seq![]
    } else if is_auto_learned(es.last()) {
        auto_commands_of(es.drop_last()).push(es.last())
    } else {
        auto_commands_of(es.drop_last())
    }
}

/// The memories of `es` that no action names, in order.
pub open spec fn unselected_of(es: Seq<MemoryEntry>, acts: Seq<(Seq<char>, Seq<char>)>) -> Seq<
    MemoryEntry,
>
    decreases es.len(),
{
    if es.len() == 0 {
        seq![]
    } else if !is_selected(acts, es.last().name@) {
        unselected_of(es.drop_last(), acts).push(es.last())
    } else {
        unselected_of(es.drop_last(), acts)
    }
}

/// The memories of `es` that some action names, in order.
pub open spec fn selected_of(es: Seq<MemoryEntry>, acts: Seq<(Seq<char>, Seq<char>)>) -> Seq<
    MemoryEntry,
>
    decreases es.len(),
{
    if es.len() == 0 {
        seq![]
    } else if is_selected(acts, es.last().name@) {
        selected_of(es.drop_last(), acts).push(es.last())
    } else {
        selected_of(es.drop_last(), acts)
    }
}

/// Deprecated memories, when the policy archives them.
pub open spec fn deprecated_step(sorted: Seq<MemoryEntry>, p: MemoryMaintenancePolicy) -> Seq<
    (Seq<char>, Seq<char>),
> {
    if p.archive_deprecated {
        push_each(seq![], deprecated_of(sorted), "status is deprecated"@)
    } else {
        seq![]
    }
}

/// The least used auto-learned commands beyond the command limit.
pub open spec fn command_step(
    sorted: Seq<MemoryEntry>,
    p: MemoryMaintenancePolicy,
    acts: Seq<(Seq<char>, Seq<char>)>,
) -> Seq<(Seq<char>, Seq<char>)> {
    let cmds = auto_commands_of(sorted);
    match p.max_auto_learned_commands {
        Some(max) => if cmds.len() > max {
            push_each(
                acts,
                first_n(sort_ordered(EntryOrder::Usage, cmds), cmds.len() - max),
                "exceeds auto-learned command retention limit"@,
            )
        } else {
            acts
        },
        None => acts,
    }
}

/// The first `n` of `s`, or all of `s` where it is shorter.
pub open spec fn first_n(s: Seq<MemoryEntry>, n: int) -> Seq<MemoryEntry> {
    if n < s.len() {
        s.take(n)
    } else {
        s
    }
}

/// Memories still active after the earlier steps.
pub open spec fn remaining_active(sorted: Seq<MemoryEntry>, acts: Seq<(Seq<char>, Seq<char>)>) -> int {
    if sorted.len() >= acts.len() {
        sorted.len() - acts.len()
    } else {
        0
    }
}

/// The least valuable remaining memories beyond the overall limit.
pub open spec fn active_step(
    sorted: Seq<MemoryEntry>,
    p: MemoryMaintenancePolicy,
    acts: Seq<(Seq<char>, Seq<char>)>,
) -> Seq<(Seq<char>, Seq<char>)> {
    let remaining = remaining_active(sorted, acts);
    match p.max_active_entries {
        Some(max) => if remaining > max {
            push_each(
                acts,
                first_n(sort_ordered(EntryOrder::Retention, unselected_of(sorted, acts)), remaining - max),
                "exceeds active memory retention limit"@,
            )
        } else {
            acts
        },
        None => acts,
    }
}

/// The archive actions the policy plans for the active memories `es`.
pub open spec fn planned_actions(es: Seq<MemoryEntry>, p: MemoryMaintenancePolicy) -> Seq<
    (Seq<char>, Seq<char>),
> {
    let sorted = sort_ordered(EntryOrder::Name, es);
    let a1 = deprecated_step(sorted, p);
    let a2 = command_step(sorted, p, a1);
    active_step(sorted, p, a2)
}

/// Every action is an archive action.
pub open spec fn all_archive(acts: Seq<MemoryMaintenanceAction>) -> bool {
    forall|i: int| 0 <= i < acts.len() ==> (#[trigger] acts[i]).action == MemoryMaintenanceActionKind::Archive
}

/// No two memories share a name.
pub open spec fn unique_names(es: Seq<MemoryEntry>) -> bool {
    forall|i: int, j: int|
        0 <= i < es.len() && 0 <= j < es.len() && i != j ==> es[i].name@ != es[j].name@
}

// ---------------------------------------------------------------------------
// Store
// ---------------------------------------------------------------------------

/// The index of active memories, one per name, and the archived ones.
#[derive(Debug)]
pub struct MemoryStore {
    active: Vec<MemoryEntry>,
    archived: Vec<MemoryEntry>,
}

impl MemoryStore {
    /// The active memories.
    pub closed spec fn entries(self) -> Seq<MemoryEntry> {
        self.active@
    }

    /// The archived memories, oldest archive first.
    pub closed spec fn archived_entries(self) -> Seq<MemoryEntry> {
        self.archived@
    }

    #[verifier::type_invariant]
    spec fn inv(self) -> bool {
        unique_names(self.active@)
    }

    pub fn new() -> (r: Self)
        ensures
            r.entries() == Seq::<MemoryEntry>::empty(),
            r.archived_entries() == Seq::<MemoryEntry>::empty(),
    {
        MemoryStore { active: Vec::new(), archived: Vec::new() }
    }

    /// Number of active memories; no two of them share a name.
    pub fn len(&self) -> (r: usize)
        ensures
            r == self.entries().len(),
            unique_names(self.entries()),
    {
        proof {
            use_type_invariant(self);
        }
        self.active.len()
    }

    /// Store `entry`, replacing the active memory of the same name.
    pub fn insert(&mut self, entry: MemoryEntry)
        ensures
            unique_names(final(self).entries()),
            final(self).archived_entries() == old(self).archived_entries(),
            (exists|i: int|
                0 <= i < old(self).entries().len() && old(self).entries()[i].name@ == entry.name@)
                ==> exists|i: int|
                0 <= i < old(self).entries().len() && old(self).entries()[i].name@ == entry.name@
                    && final(self).entries() == old(self).entries().update(i, entry),
            !(exists|i: int|
                0 <= i < old(self).entries().len() && old(self).entries()[i].name@ == entry.name@)
                ==> final(self).entries() == old(self).entries().push(entry),
    {
        proof {
            use_type_invariant(&*self);
        }
        let mut i: usize = 0;
        while i < self.active.len()
            invariant
                i <= self.active.len(),
                self.active@ == old(self).active@,
                self.archived@ == old(self).archived@,
                unique_names(self.active@),
                forall|j: int| 0 <= j < i ==> self.active@[j].name@ != entry.name@,
            decreases self.active.len() - i,
        {
            if self.active[i].name == entry.name {
                let mut active: Vec<MemoryEntry> = Vec::new();
                std::mem::swap(&mut active, &mut self.active);
                active.set(i, entry);
                proof {
                    assert(unique_names(active@));
                }
                self.active = active;
                return;
            }
            i = i + 1;
        }
        let mut active: Vec<MemoryEntry> = Vec::new();
        std::mem::swap(&mut active, &mut self.active);
        active.push(entry);
        self.active = active;
    }

    /// The active memory named `name`.
    pub fn read(&self, name: &str) -> (r: Option<&MemoryEntry>)
        ensures
            r is Some <==> exists|i: int|
                0 <= i < self.entries().len() && self.entries()[i].name@ == name@,
            r matches Some(e) ==> e.name@ == name@ && exists|i: int|
                0 <= i < self.entries().len() && self.entries()[i] == *e,
    {
        let mut i: usize = 0;
        while i < self.active.len()
            invariant
                i <= self.active.len(),
                forall|j: int| 0 <= j < i ==> self.active@[j].name@ != name@,
            decreases self.active.len() - i,
        {
            if str_eq(self.active[i].name.as_str(), name) {
                return Some(&self.active[i]);
            }
            i = i + 1;
        }
        None
    }

    /// Build a dry-run report of memories that would be archived by the policy.
    pub fn maintenance_report(&self, policy: &MemoryMaintenancePolicy) -> (r:
        MemoryMaintenanceReport)
        ensures
            !r.applied,
            r.active_before == self.entries().len(),
            r.archived_count == 0,
            all_archive(r.actions@),
            action_views(r.actions@) == planned_actions(self.entries(), *policy),
    {
        let mut all: Vec<&MemoryEntry> = Vec::new();
        let mut i: usize = 0;
        while i < self.active.len()
            invariant
                i <= self.active.len(),
                all@.len() == i,
                forall|k: int| 0 <= k < i ==> *all@[k] == self.active@[k],
            decreases self.active.len() - i,
        {
            all.push(&self.active[i]);
            i = i + 1;
        }
        assert(derefs(all@) =~= self.active@);
        let entries = sort_entries(&all, EntryOrder::Name);
        let ghost sorted = derefs(entries@);
        proof {
            lemma_sort_len(EntryOrder::Name, self.active@);
        }
        let mut actions: Vec<MemoryMaintenanceAction> = Vec::new();
        assert(action_views(actions@) =~= Seq::<(Seq<char>, Seq<char>)>::empty());
        if policy.archive_deprecated {
            let dep = filter_deprecated(&entries);
            push_first(&mut actions, &dep, dep.len(), "status is deprecated");
            assert(derefs(dep@).take(dep@.len() as int) =~= derefs(dep@));
        }
        let ghost a1 = action_views(actions@);
        assert(a1 == deprecated_step(sorted, *policy));
        if let Some(max) = policy.max_auto_learned_commands {
            let commands = filter_auto_commands(&entries);
            if commands.len() > max {
                let ordered = sort_entries(&commands, EntryOrder::Usage);
                let overflow = commands.len() - max;
                proof {
                    lemma_sort_len(EntryOrder::Usage, derefs(commands@));
                }
                push_first(
                    &mut actions,
                    &ordered,
                    overflow,
                    "exceeds auto-learned command retention limit",
                );
                proof {
                    if overflow == ordered.len() {
                        assert(derefs(ordered@).take(overflow as int) =~= derefs(ordered@));
                    }
                }

            }
        }
        let ghost a2 = action_views(actions@);
        assert(a2 == command_step(sorted, *policy, a1));
        if let Some(max) = policy.max_active_entries {
            let remaining_active = if entries.len() >= actions.len() {
                entries.len() - actions.len()
            } else {
                0
            };
            if remaining_active > max {
                let candidates = filter_unselected(&entries, &actions);
                let ordered = sort_entries(&candidates, EntryOrder::Retention);
                let take = if remaining_active - max < ordered.len() {
                    remaining_active - max
                } else {
                    ordered.len()
                };
                proof {
                    if take == ordered.len() {
                        assert(derefs(ordered@).take(take as int) =~= derefs(ordered@));
                    }
                }
                push_first(&mut actions, &ordered, take, "exceeds active memory retention limit");
            }
        }
        MemoryMaintenanceReport {
            applied: false,
            active_before: entries.len(),
            archived_count: 0,
            actions,
        }
    }

    /// Apply a maintenance policy by archiving the report's candidate memories.
    pub fn apply_maintenance(&mut self, policy: &MemoryMaintenancePolicy) -> (r:
        MemoryMaintenanceReport)
        ensures
            r.applied,
            r.active_before == old(self).entries().len(),
            r.archived_count == r.actions@.len(),
            all_archive(r.actions@),
            action_views(r.actions@) == planned_actions(old(self).entries(), *policy),
            final(self).entries() == unselected_of(old(self).entries(), action_views(r.actions@)),
            final(self).archived_entries() == old(self).archived_entries() + selected_of(
                old(self).entries(),
                action_views(r.actions@),
            ),
    {
        proof {
            use_type_invariant(&*self);
        }
        let mut report = self.maintenance_report(policy);
        let ghost acts = action_views(report.actions@);
        let mut old_active: Vec<MemoryEntry> = Vec::new();
        std::mem::swap(&mut old_active, &mut self.active);
        let mut archived: Vec<MemoryEntry> = Vec::new();
        std::mem::swap(&mut archived, &mut self.archived);
        let ghost start = old_active@;
        let ghost archived_start = archived@;
        let mut kept: Vec<MemoryEntry> = Vec::new();
        let mut k: usize = 0;
        while old_active.len() > 0
            invariant
                k + old_active@.len() == start.len(),
                start.len() <= usize::MAX,
                old_active@ == start.skip(k as int),
                unique_names(start),
                self.active@ == Seq::<MemoryEntry>::empty(),
                acts == action_views(report.actions@),
                kept@ == unselected_of(start.take(k as int), acts),
                archived@ == archived_start + selected_of(start.take(k as int), acts),
            decreases old_active.len(),
        {
            let e = old_active.remove(0);
            proof {
                assert(e == start[k as int]);
                assert(start.skip(k as int).subrange(1, start.skip(k as int).len() as int) =~= start.skip(k + 1));
                assert(start.take(k + 1).drop_last() =~= start.take(k as int));
                assert(start.take(k + 1).last() == e);
            }
            if has_action(&report.actions, &e.name) {
                archived.push(e);
            } else {
                kept.push(e);
            }
            k = k + 1;
        }
        proof {
            assert(start.take(k as int) =~= start);
            assert(unique_names(kept@)) by {
                assert forall|a: int, b: int|
                    0 <= a < kept@.len() && 0 <= b < kept@.len() && a != b implies kept@[a].name@
                    != kept@[b].name@ by {
                    lemma_unselected_unique(start, acts, a, b);
                }
            }
        }
        self.active = kept;
        self.archived = archived;
        report.applied = true;
        report.archived_count = report.actions.len();
        report
    }
}

/// No two actions name the same memory.
pub open spec fn distinct_actions(acts: Seq<(Seq<char>, Seq<char>)>) -> bool {
    forall|i: int, j: int| 0 <= i < j < acts.len() ==> acts[i].0 != acts[j].0
}

proof fn lemma_push_action(acts: Seq<(Seq<char>, Seq<char>)>, name: Seq<char>, reason: Seq<char>, m: Seq<char>)
    ensures
        is_selected(push_action(acts, name, reason), m) <==> is_selected(acts, m) || m == name,
        distinct_actions(acts) ==> distinct_actions(push_action(acts, name, reason)),
        !is_selected(acts, name) ==> push_action(acts, name, reason).len() == acts.len() + 1,
{
    let r = push_action(acts, name, reason);
    if !is_selected(acts, name) {
        if is_selected(r, m) {
            let i = choose|i: int| 0 <= i < r.len() && r[i].0 == m;
            if i < acts.len() {
                assert(acts[i].0 == m);
            }
        }
        if is_selected(acts, m) {
            let i = choose|i: int| 0 <= i < acts.len() && acts[i].0 == m;
            assert(r[i].0 == m);
        }
        if m == name {
            assert(r[acts.len() as int].0 == m);
        }
        if distinct_actions(acts) {
            assert forall|i: int, j: int| 0 <= i < j < r.len() implies r[i].0 != r[j].0 by {
                if j == acts.len() {
                    assert(r[i] == acts[i]);
                    if acts[i].0 == name {
                        assert(is_selected(acts, name));
                    }
                } else {
                    assert(r[i] == acts[i] && r[j] == acts[j]);
                }
            }
        }
    } else {
        if m == name {
            assert(is_selected(acts, m));
        }
    }
}

/// What archiving each of `es` selects, and that it archives each name once.
proof fn lemma_push_each(acts: Seq<(Seq<char>, Seq<char>)>, es: Seq<MemoryEntry>, reason: Seq<char>, m: Seq<char>)
    ensures
        is_selected(push_each(acts, es, reason), m) <==> is_selected(acts, m) || exists|j: int|
            0 <= j < es.len() && (#[trigger] es[j]).name@ == m,
        distinct_actions(acts) ==> distinct_actions(push_each(acts, es, reason)),
    decreases es.len(),
{
    if es.len() > 0 {
        let prev = push_each(acts, es.drop_last(), reason);
        lemma_push_each(acts, es.drop_last(), reason, m);
        lemma_push_action(prev, es.last().name@, reason, m);
        if exists|j: int| 0 <= j < es.drop_last().len() && (#[trigger] es.drop_last()[j]).name@ == m {
            let j = choose|j: int| 0 <= j < es.drop_last().len() && (#[trigger] es.drop_last()[j]).name@ == m;
            assert(es[j] == es.drop_last()[j]);
        }
        if exists|j: int| 0 <= j < es.len() && (#[trigger] es[j]).name@ == m {
            let j = choose|j: int| 0 <= j < es.len() && (#[trigger] es[j]).name@ == m;
            if j < es.len() - 1 {
                assert(es.drop_last()[j] == es[j]);
            }
        }
    }
}

/// Archiving uniquely named memories that no action names yet adds one
/// action for each.
proof fn lemma_push_each_len(acts: Seq<(Seq<char>, Seq<char>)>, es: Seq<MemoryEntry>, reason: Seq<char>)
    requires
        unique_names(es),
        forall|j: int| 0 <= j < es.len() ==> !is_selected(acts, (#[trigger] es[j]).name@),
    ensures
        push_each(acts, es, reason).len() == acts.len() + es.len(),
    decreases es.len(),
{
    if es.len() > 0 {
        let d = es.drop_last();
        assert forall|j: int| 0 <= j < d.len() implies !is_selected(acts, (#[trigger] d[j]).name@) by {
            assert(d[j] == es[j]);
        }
        lemma_push_each_len(acts, d, reason);
        let last = es.last();
        lemma_push_each(acts, d, reason, last.name@);
        if exists|j: int| 0 <= j < d.len() && (#[trigger] d[j]).name@ == last.name@ {
            let j = choose|j: int| 0 <= j < d.len() && (#[trigger] d[j]).name@ == last.name@;
            assert(es[j].name@ == es[es.len() - 1].name@);
        }
        assert(!is_selected(acts, es[es.len() - 1].name@));
        lemma_push_action(push_each(acts, d, reason), last.name@, reason, last.name@);
    }
}

proof fn lemma_insert_members(o: EntryOrder, sorted: Seq<MemoryEntry>, x: MemoryEntry)
    ensures
        forall|k: int|
            0 <= k < insert_ordered(o, sorted, x).len() ==> #[trigger] insert_ordered(o, sorted, x)[k] == x
                || exists|j: int| 0 <= j < sorted.len() && insert_ordered(o, sorted, x)[k] == sorted[j],
        forall|j: int|
            0 <= j < sorted.len() ==> exists|k: int|
                0 <= k < insert_ordered(o, sorted, x).len() && insert_ordered(o, sorted, x)[k]
                    == #[trigger] sorted[j],
        exists|k: int| 0 <= k < insert_ordered(o, sorted, x).len() && insert_ordered(o, sorted, x)[k] == x,
    decreases sorted.len(),
{
    let r = insert_ordered(o, sorted, x);
    lemma_insert_len(o, sorted, x);
    if sorted.len() == 0 {
        assert(r[0] == x);
    } else if order_before(o, x, sorted[0]) {
        assert(r[0] == x);
        assert forall|k: int| 0 <= k < r.len() implies #[trigger] r[k] == x || exists|j: int|
            0 <= j < sorted.len() && r[k] == sorted[j] by {
            if k > 0 {
                assert(r[k] == sorted[k - 1]);
            }
        }
        assert forall|j: int| 0 <= j < sorted.len() implies exists|k: int| 0 <= k < r.len() && r[k] == #[trigger] sorted[j] by {
            assert(r[j + 1] == sorted[j]);
        }
    } else {
        let rest = sorted.skip(1);
        lemma_insert_members(o, rest, x);
        let rr = insert_ordered(o, rest, x);
        assert(r == seq![sorted[0]] + rr);
        let i = choose|k: int| 0 <= k < rr.len() && rr[k] == x;
        assert(r[i + 1] == x);
        assert forall|k: int| 0 <= k < r.len() implies #[trigger] r[k] == x || exists|j: int|
            0 <= j < sorted.len() && r[k] == sorted[j] by {
            if k == 0 {
                assert(r[0] == sorted[0]);
            } else {
                assert(r[k] == rr[k - 1]);
                if rr[k - 1] != x {
                    let j = choose|j: int| 0 <= j < rest.len() && rr[k - 1] == rest[j];
                    assert(rest[j] == sorted[j + 1]);
                }
            }
        }
        assert forall|j: int| 0 <= j < sorted.len() implies exists|k: int| 0 <= k < r.len() && r[k] == #[trigger] sorted[j] by {
            if j == 0 {
                assert(r[0] == sorted[0]);
            } else {
                assert(rest[j - 1] == sorted[j]);
                let k = choose|k: int| 0 <= k < rr.len() && rr[k] == rest[j - 1];
                assert(r[k + 1] == sorted[j]);
            }
        }
    }
}

/// Sorting neither loses nor invents memories.
pub proof fn lemma_sort_members(o: EntryOrder, s: Seq<MemoryEntry>)
    ensures
        forall|k: int|
            0 <= k < sort_ordered(o, s).len() ==> exists|j: int| 0 <= j < s.len() && #[trigger] sort_ordered(o, s)[k] == s[j],
        forall|j: int|
            0 <= j < s.len() ==> exists|k: int| 0 <= k < sort_ordered(o, s).len() && sort_ordered(o, s)[k] == #[trigger] s[j],
    decreases s.len(),
{
    if s.len() > 0 {
        let d = s.drop_last();
        lemma_sort_members(o, d);
        let sd = sort_ordered(o, d);
        lemma_insert_members(o, sd, s.last());
        let r = sort_ordered(o, s);
        assert forall|k: int| 0 <= k < r.len() implies exists|j: int| 0 <= j < s.len() && #[trigger] r[k] == s[j] by {
            if r[k] != s.last() {
                let i = choose|i: int| 0 <= i < sd.len() && r[k] == sd[i];
                let j = choose|j: int| 0 <= j < d.len() && sd[i] == d[j];
                assert(d[j] == s[j]);
            } else {
                assert(r[k] == s[s.len() - 1]);
            }
        }
        assert forall|j: int| 0 <= j < s.len() implies exists|k: int| 0 <= k < r.len() && r[k] == #[trigger] s[j] by {
            if j < s.len() - 1 {
                assert(d[j] == s[j]);
                let i = choose|i: int| 0 <= i < sd.len() && sd[i] == d[j];
                let k = choose|k: int| 0 <= k < r.len() && r[k] == sd[i];
            } else {
                let k = choose|k: int| 0 <= k < r.len() && r[k] == s.last();
            }
        }
    }
}

proof fn lemma_insert_unique(o: EntryOrder, sorted: Seq<MemoryEntry>, x: MemoryEntry)
    requires
        unique_names(sorted),
        forall|j: int| 0 <= j < sorted.len() ==> (#[trigger] sorted[j]).name@ != x.name@,
    ensures
        unique_names(insert_ordered(o, sorted, x)),
    decreases sorted.len(),
{
    let r = insert_ordered(o, sorted, x);
    if sorted.len() == 0 {
    } else if order_before(o, x, sorted[0]) {
        assert forall|a: int, b: int| 0 <= a < r.len() && 0 <= b < r.len() && a != b implies r[a].name@ != r[b].name@ by {
            if a > 0 && b > 0 {
                assert(r[a] == sorted[a - 1] && r[b] == sorted[b - 1]);
            } else if a == 0 {
                assert(r[b] == sorted[b - 1]);
            } else {
                assert(r[a] == sorted[a - 1]);
            }
        }
    } else {
        let rest = sorted.skip(1);
        assert forall|j: int| 0 <= j < rest.len() implies (#[trigger] rest[j]).name@ != x.name@ by {
            assert(rest[j] == sorted[j + 1]);
        }
        assert forall|a: int, b: int| 0 <= a < rest.len() && 0 <= b < rest.len() && a != b implies rest[a].name@ != rest[b].name@ by {
            assert(rest[a] == sorted[a + 1] && rest[b] == sorted[b + 1]);
        }
        lemma_insert_unique(o, rest, x);
        lemma_insert_members(o, rest, x);
        let rr = insert_ordered(o, rest, x);
        assert(r == seq![sorted[0]] + rr);
        assert forall|a: int, b: int| 0 <= a < r.len() && 0 <= b < r.len() && a != b implies r[a].name@ != r[b].name@ by {
            if a > 0 && b > 0 {
                assert(r[a] == rr[a - 1] && r[b] == rr[b - 1]);
            } else {
                let k = if a == 0 { b } else { a };
                assert(r[k] == rr[k - 1]);
                if rr[k - 1] == x {
                } else {
                    let j = choose|j: int| 0 <= j < rest.len() && rr[k - 1] == rest[j];
                    assert(rest[j] == sorted[j + 1]);
                }
            }
        }
    }
}

/// Sorting uniquely named memories keeps the names unique.
pub proof fn lemma_sort_unique(o: EntryOrder, s: Seq<MemoryEntry>)
    requires
        unique_names(s),
    ensures
        unique_names(sort_ordered(o, s)),
    decreases s.len(),
{
    if s.len() > 0 {
        let d = s.drop_last();
        assert forall|a: int, b: int| 0 <= a < d.len() && 0 <= b < d.len() && a != b implies d[a].name@ != d[b].name@ by {
            assert(d[a] == s[a] && d[b] == s[b]);
        }
        lemma_sort_unique(o, d);
        lemma_sort_members(o, d);
        let sd = sort_ordered(o, d);
        assert forall|j: int| 0 <= j < sd.len() implies (#[trigger] sd[j]).name@ != s.last().name@ by {
            let i = choose|i: int| 0 <= i < d.len() && sd[j] == d[i];
            assert(d[i] == s[i]);
        }
        lemma_insert_unique(o, sd, s.last());
    }
}

proof fn lemma_unselected_len(s: Seq<MemoryEntry>, acts: Seq<(Seq<char>, Seq<char>)>)
    ensures
        unselected_of(s, acts).len() + selected_of(s, acts).len() == s.len(),
    decreases s.len(),
{
    if s.len() > 0 {
        lemma_unselected_len(s.drop_last(), acts);
    }
}

proof fn lemma_selected_congruent(s: Seq<MemoryEntry>, a: Seq<(Seq<char>, Seq<char>)>, b: Seq<(Seq<char>, Seq<char>)>)
    requires
        forall|j: int| 0 <= j < s.len() ==> is_selected(a, (#[trigger] s[j]).name@) == is_selected(b, s[j].name@),
    ensures
        selected_of(s, a) == selected_of(s, b),
    decreases s.len(),
{
    if s.len() > 0 {
        let d = s.drop_last();
        assert forall|j: int| 0 <= j < d.len() implies is_selected(a, (#[trigger] d[j]).name@) == is_selected(b, d[j].name@) by {
            assert(d[j] == s[j]);
        }
        lemma_selected_congruent(d, a, b);
        assert(is_selected(a, s[s.len() - 1].name@) == is_selected(b, s[s.len() - 1].name@));
    }
}

/// Uniquely named memories: no more of them are selected than there are actions.
proof fn lemma_selected_le(s: Seq<MemoryEntry>, acts: Seq<(Seq<char>, Seq<char>)>)
    requires
        unique_names(s),
    ensures
        selected_of(s, acts).len() <= acts.len(),
    decreases s.len(),
{
    if s.len() > 0 {
        let d = s.drop_last();
        let x = s.last();
        assert forall|a: int, b: int| 0 <= a < d.len() && 0 <= b < d.len() && a != b implies d[a].name@ != d[b].name@ by {
            assert(d[a] == s[a] && d[b] == s[b]);
        }
        if is_selected(acts, x.name@) {
            let i = choose|i: int| 0 <= i < acts.len() && (#[trigger] acts[i]).0 == x.name@;
            let fewer = acts.remove(i);
            assert forall|j: int| 0 <= j < d.len() implies is_selected(acts, (#[trigger] d[j]).name@)
                == is_selected(fewer, d[j].name@) by {
                assert(d[j] == s[j]);
                assert(s[j].name@ != s[s.len() - 1].name@);
                if is_selected(acts, d[j].name@) {
                    let k = choose|k: int| 0 <= k < acts.len() && (#[trigger] acts[k]).0 == d[j].name@;
                    assert(k != i);
                    if k < i {
                        assert(fewer[k] == acts[k]);
                    } else {
                        assert(fewer[k - 1] == acts[k]);
                    }
                }
                if is_selected(fewer, d[j].name@) {
                    let k = choose|k: int| 0 <= k < fewer.len() && (#[trigger] fewer[k]).0 == d[j].name@;
                    if k < i {
                        assert(fewer[k] == acts[k]);
                    } else {
                        assert(fewer[k] == acts[k + 1]);
                    }
                }
            }
            lemma_selected_congruent(d, acts, fewer);
            lemma_selected_le(d, fewer);
        } else {
            lemma_selected_le(d, acts);
        }
    }
}

proof fn lemma_deprecated_contains(es: Seq<MemoryEntry>, j: int)
    requires
        0 <= j < es.len(),
        es[j].status == MemoryStatus::Deprecated,
    ensures
        exists|k: int| 0 <= k < deprecated_of(es).len() && (#[trigger] deprecated_of(es)[k]) == es[j],
    decreases es.len(),
{
    let d = es.drop_last();
    if j == es.len() - 1 {
        assert(es.last() == es[j]);
        assert(deprecated_of(es) == deprecated_of(d).push(es.last()));
        assert(deprecated_of(es)[deprecated_of(d).len() as int] == es[j]);
    } else {
        assert(d[j] == es[j]);
        lemma_deprecated_contains(d, j);
        let k = choose|k: int| 0 <= k < deprecated_of(d).len() && (#[trigger] deprecated_of(d)[k]) == d[j];
        if es.last().status == MemoryStatus::Deprecated {
            assert(deprecated_of(es) == deprecated_of(d).push(es.last()));
            assert(deprecated_of(es)[k] == deprecated_of(d)[k]);
        } else {
            assert(deprecated_of(es) == deprecated_of(d));
        }
    }
}

/// Every memory the plan names for archiving, it names once.
pub proof fn law_actions_distinct(es: Seq<MemoryEntry>, p: MemoryMaintenancePolicy)
    ensures
        distinct_actions(planned_actions(es, p)),
{
    let sorted = sort_ordered(EntryOrder::Name, es);
    let m = Seq::<char>::empty();
    assert(distinct_actions(Seq::<(Seq<char>, Seq<char>)>::empty()));
    lemma_push_each(seq![], deprecated_of(sorted), "status is deprecated"@, m);
    let a1 = deprecated_step(sorted, p);
    let cmds = auto_commands_of(sorted);
    if let Some(max) = p.max_auto_learned_commands {
        lemma_push_each(a1, first_n(sort_ordered(EntryOrder::Usage, cmds), cmds.len() - max),
            "exceeds auto-learned command retention limit"@, m);
    }
    let a2 = command_step(sorted, p, a1);
    if let Some(max) = p.max_active_entries {
        lemma_push_each(a2, first_n(sort_ordered(EntryOrder::Retention, unselected_of(sorted, a2)),
            remaining_active(sorted, a2) - max), "exceeds active memory retention limit"@, m);
    }
}

/// When the policy archives deprecated memories, the plan archives every
/// deprecated memory.
pub proof fn law_deprecated_archived(es: Seq<MemoryEntry>, p: MemoryMaintenancePolicy, j: int)
    requires
        p.archive_deprecated,
        0 <= j < es.len(),
        es[j].status == MemoryStatus::Deprecated,
    ensures
        is_selected(planned_actions(es, p), es[j].name@),
{
    let n = es[j].name@;
    let sorted = sort_ordered(EntryOrder::Name, es);
    lemma_sort_members(EntryOrder::Name, es);
    let k = choose|k: int| 0 <= k < sorted.len() && sorted[k] == es[j];
    lemma_deprecated_contains(sorted, k);
    let dep = deprecated_of(sorted);
    let i = choose|i: int| 0 <= i < dep.len() && (#[trigger] dep[i]) == sorted[k];
    assert(dep[i].name@ == n);
    lemma_push_each(seq![], dep, "status is deprecated"@, n);
    let a1 = deprecated_step(sorted, p);
    assert(is_selected(a1, n));
    let cmds = auto_commands_of(sorted);
    if let Some(max) = p.max_auto_learned_commands {
        lemma_push_each(a1, first_n(sort_ordered(EntryOrder::Usage, cmds), cmds.len() - max),
            "exceeds auto-learned command retention limit"@, n);
    }
    let a2 = command_step(sorted, p, a1);
    assert(is_selected(a2, n));
    if let Some(max) = p.max_active_entries {
        lemma_push_each(a2, first_n(sort_ordered(EntryOrder::Retention, unselected_of(sorted, a2)),
            remaining_active(sorted, a2) - max), "exceeds active memory retention limit"@, n);
    }
}

/// With an overall limit, at most that many memories stay active once the
/// planned archives are made. Every store's memories have distinct names
/// (see [`MemoryStore::len`]).
pub proof fn law_active_limit(es: Seq<MemoryEntry>, p: MemoryMaintenancePolicy)
    requires
        unique_names(es),
        p.max_active_entries is Some,
    ensures
        es.len() - planned_actions(es, p).len() <= p.max_active_entries->0,
{
    let max = p.max_active_entries->0;
    let sorted = sort_ordered(EntryOrder::Name, es);
    lemma_sort_len(EntryOrder::Name, es);
    lemma_sort_unique(EntryOrder::Name, es);
    let a1 = deprecated_step(sorted, p);
    let a2 = command_step(sorted, p, a1);
    let remaining = remaining_active(sorted, a2);
    if remaining > max {
        let cands = unselected_of(sorted, a2);
        lemma_unselected_len(sorted, a2);
        lemma_selected_le(sorted, a2);
        assert(cands.len() >= remaining);
        let ordered = sort_ordered(EntryOrder::Retention, cands);
        lemma_sort_len(EntryOrder::Retention, cands);
        assert forall|a: int, b: int| 0 <= a < cands.len() && 0 <= b < cands.len() && a != b implies cands[a].name@
            != cands[b].name@ by {
            lemma_unselected_unique(sorted, a2, a, b);
        }
        lemma_sort_unique(EntryOrder::Retention, cands);
        lemma_sort_members(EntryOrder::Retention, cands);
        let chosen = first_n(ordered, remaining - max);
        assert(chosen.len() == remaining - max);
        assert forall|j: int| 0 <= j < chosen.len() implies !is_selected(a2, (#[trigger] chosen[j]).name@) by {
            assert(chosen[j] == ordered[j]);
            let i = choose|i: int| 0 <= i < cands.len() && ordered[j] == cands[i];
            lemma_unselected_selection(sorted, a2, i);
        }
        assert forall|a: int, b: int| 0 <= a < chosen.len() && 0 <= b < chosen.len() && a != b implies chosen[a].name@
            != chosen[b].name@ by {
            assert(chosen[a] == ordered[a] && chosen[b] == ordered[b]);
        }
        lemma_push_each_len(a2, chosen, "exceeds active memory retention limit"@);
    }
}

/// No memory kept by the filter is selected.
proof fn lemma_unselected_selection(s: Seq<MemoryEntry>, acts: Seq<(Seq<char>, Seq<char>)>, i: int)
    requires
        0 <= i < unselected_of(s, acts).len(),
    ensures
        !is_selected(acts, unselected_of(s, acts)[i].name@),
    decreases s.len(),
{
    let prev = unselected_of(s.drop_last(), acts);
    if i < prev.len() {
        lemma_unselected_selection(s.drop_last(), acts, i);
    }
}

/// Sorting keeps the length.
pub proof fn lemma_sort_len(o: EntryOrder, s: Seq<MemoryEntry>)
    ensures
        sort_ordered(o, s).len() == s.len(),
    decreases s.len(),
{
    if s.len() > 0 {
        lemma_sort_len(o, s.drop_last());
        lemma_insert_len(o, sort_ordered(o, s.drop_last()), s.last());
    }
}

proof fn lemma_insert_len(o: EntryOrder, sorted: Seq<MemoryEntry>, x: MemoryEntry)
    ensures
        insert_ordered(o, sorted, x).len() == sorted.len() + 1,
    decreases sorted.len(),
{
    if sorted.len() > 0 && !order_before(o, x, sorted[0]) {
        lemma_insert_len(o, sorted.skip(1), x);
    }
}

/// Distinct positions of a filtered sequence of uniquely named memories hold
/// distinct names.
proof fn lemma_unselected_unique(
    es: Seq<MemoryEntry>,
    acts: Seq<(Seq<char>, Seq<char>)>,
    a: int,
    b: int,
)
    requires
        unique_names(es),
        0 <= a < unselected_of(es, acts).len(),
        0 <= b < unselected_of(es, acts).len(),
        a != b,
    ensures
        unselected_of(es, acts)[a].name@ != unselected_of(es, acts)[b].name@,
    decreases es.len(),
{
    let u = unselected_of(es, acts);
    let prev = unselected_of(es.drop_last(), acts);
    assert(unique_names(es.drop_last()));
    lemma_unselected_from(es, acts);
    if !is_selected(acts, es.last().name@) {
        if a < prev.len() && b < prev.len() {
            lemma_unselected_unique(es.drop_last(), acts, a, b);
        } else if a < prev.len() {
            lemma_unselected_from(es.drop_last(), acts);
            let j = choose|j: int| 0 <= j < es.len() - 1 && prev[a] == es[j];
            assert(es[j].name@ != es[es.len() - 1].name@);
        } else {
            lemma_unselected_from(es.drop_last(), acts);
            let j = choose|j: int| 0 <= j < es.len() - 1 && prev[b] == es[j];
            assert(es[j].name@ != es[es.len() - 1].name@);
        }
    } else {
        lemma_unselected_unique(es.drop_last(), acts, a, b);
    }
}

/// Each element of a filtered sequence is an element of the original.
proof fn lemma_unselected_from(es: Seq<MemoryEntry>, acts: Seq<(Seq<char>, Seq<char>)>)
    ensures
        forall|x: int|
            0 <= x < unselected_of(es, acts).len() ==> exists|j: int|
                0 <= j < es.len() && #[trigger] unselected_of(es, acts)[x] == es[j],
    decreases es.len(),
{
    if es.len() > 0 {
        lemma_unselected_from(es.drop_last(), acts);
        let prev = unselected_of(es.drop_last(), acts);
        assert forall|x: int| 0 <= x < unselected_of(es, acts).len() implies exists|j: int|
            0 <= j < es.len() && #[trigger] unselected_of(es, acts)[x] == es[j] by {
            if x < prev.len() {
                let j = choose|j: int| 0 <= j < es.len() - 1 && prev[x] == es.drop_last()[j];
                assert(unselected_of(es, acts)[x] == es[j]);
            } else {
                assert(unselected_of(es, acts)[x] == es[es.len() - 1]);
            }
        }
    }
}

/// Dereferences each element.
pub open spec fn derefs(s: Seq<&MemoryEntry>) -> Seq<MemoryEntry> {
    s.map_values(|e: &MemoryEntry| *e)
}

/// `value` parsed as a number, 0 where it is not one.
fn updated_sort_value(value: &str) -> (r: u64)
    ensures
        r == sort_value(value@),
{
    let v = chars_of(value);
    match parse_u64_exec(v.as_slice()) {
        Some(n) => n,
        None => 0,
    }
}

fn is_auto_learned_command(entry: &MemoryEntry) -> (r: bool)
    ensures
        r == is_auto_learned(*entry),
{
    if entry.category != MemoryCategory::Command || entry.status != MemoryStatus::Working {
        return false;
    }
    let want = chars_of("auto-learned");
    let mut i: usize = 0;
    while i < entry.tags.len()
        invariant
            i <= entry.tags@.len(),
            want@ == "auto-learned"@,
            entry.category == MemoryCategory::Command,
            entry.status == MemoryStatus::Working,
            forall|j: int| 0 <= j < i ==> ascii_lower(#[trigger] entry.tags@[j]@) != "auto-learned"@,
        decreases entry.tags.len() - i,
    {
        let tag = chars_of(entry.tags[i].as_str());
        let low = ascii_lower_exec(tag.as_slice());
        assert(tag@ == entry.tags@[i as int]@);
        if seq_eq(low.as_slice(), want.as_slice()) {
            assert(ascii_lower(entry.tags@[i as int]@) == "auto-learned"@);
            return true;
        }
        i = i + 1;
    }
    false
}

fn usage_before_exec(a: &MemoryEntry, b: &MemoryEntry) -> (r: bool)
    ensures
        r == usage_before(*a, *b),
{
    if a.times_used != b.times_used {
        return a.times_used < b.times_used;
    }
    let av = updated_sort_value(a.updated.as_str());
    let bv = updated_sort_value(b.updated.as_str());
    if av != bv {
        return av < bv;
    }
    if a.updated != b.updated {
        return lex_lt_str(&a.updated, &b.updated);
    }
    proof {
        lemma_lex_lt_irreflexive(a.updated@);
    }
    lex_lt_str(&a.name, &b.name)
}

fn order_before_exec(o: EntryOrder, a: &MemoryEntry, b: &MemoryEntry) -> (r: bool)
    ensures
        r == order_before(o, *a, *b),
{
    match o {
        EntryOrder::Name => lex_lt_str(&a.name, &b.name),
        EntryOrder::Usage => usage_before_exec(a, b),
        EntryOrder::Retention => {
            let ra = status_rank_exec(a.status);
            let rb = status_rank_exec(b.status);
            if ra != rb {
                ra > rb
            } else {
                usage_before_exec(a, b)
            }
        },
    }
}

/// `items` sorted by `o` (insertion sort).
fn sort_entries<'a>(items: &Vec<&'a MemoryEntry>, o: EntryOrder) -> (r: Vec<&'a MemoryEntry>)
    ensures
        derefs(r@) == sort_ordered(o, derefs(items@)),
{
    let mut out: Vec<&MemoryEntry> = Vec::new();
    let mut i: usize = 0;
    while i < items.len()
        invariant
            i <= items.len(),
            derefs(out@) == sort_ordered(o, derefs(items@).take(i as int)),
        decreases items.len() - i,
    {
        let x = items[i];
        let ghost prev = derefs(out@);
        assert(derefs(items@).take(i + 1).drop_last() =~= derefs(items@).take(i as int));
        assert(derefs(items@).take(i + 1).last() == *x);
        let mut pos: usize = 0;
        assert(prev.take(0) =~= Seq::<MemoryEntry>::empty());
        assert(prev.skip(0) =~= prev);
        while pos < out.len()
            invariant
                pos <= out@.len(),
                prev == derefs(out@),
                insert_ordered(o, prev, *x) == prev.take(pos as int) + insert_ordered(
                    o,
                    prev.skip(pos as int),
                    *x,
                ),
            ensures
                pos <= out@.len(),
                pos < out@.len() ==> order_before(o, *x, prev[pos as int]),
            decreases out@.len() - pos,
        {
            if order_before_exec(o, x, out[pos]) {
                break;
            }
            proof {
                let rest = prev.skip(pos as int);
                assert(rest[0] == prev[pos as int]);
                assert(rest.skip(1) =~= prev.skip(pos + 1));
                assert(insert_ordered(o, rest, *x) == seq![rest[0]] + insert_ordered(
                    o,
                    rest.skip(1),
                    *x,
                ));
                assert(prev.take(pos as int) + (seq![prev[pos as int]] + insert_ordered(
                    o,
                    prev.skip(pos + 1),
                    *x,
                )) =~= prev.take(pos + 1) + insert_ordered(o, prev.skip(pos + 1), *x));
            }
            pos = pos + 1;
        }
        proof {
            let rest = prev.skip(pos as int);
            if pos < prev.len() {
                assert(rest[0] == prev[pos as int]);
                assert(insert_ordered(o, rest, *x) == seq![*x] + rest);
            } else {
                assert(rest =~= Seq::<MemoryEntry>::empty());
                assert(insert_ordered(o, rest, *x) == seq![*x]);
            }
            assert(insert_ordered(o, rest, *x) =~= seq![*x] + rest);
            assert(prev.take(pos as int) + (seq![*x] + rest) =~= prev.insert(pos as int, *x));
        }
        out.insert(pos, x);
        proof {
            assert(derefs(out@) =~= prev.insert(pos as int, *x));
        }
        i = i + 1;
    }
    assert(derefs(items@).take(items.len() as int) =~= derefs(items@));
    out
}

fn filter_deprecated<'a>(items: &Vec<&'a MemoryEntry>) -> (r: Vec<&'a MemoryEntry>)
    ensures
        derefs(r@) == deprecated_of(derefs(items@)),
{
    let mut out: Vec<&MemoryEntry> = Vec::new();
    let mut i: usize = 0;
    while i < items.len()
        invariant
            i <= items.len(),
            derefs(out@) == deprecated_of(derefs(items@).take(i as int)),
        decreases items.len() - i,
    {
        let x = items[i];
        assert(derefs(items@).take(i + 1).drop_last() =~= derefs(items@).take(i as int));
        if x.status == MemoryStatus::Deprecated {
            out.push(x);
        }
        assert(derefs(out@) =~= deprecated_of(derefs(items@).take(i + 1)));
        i = i + 1;
    }
    assert(derefs(items@).take(items.len() as int) =~= derefs(items@));
    out
}

fn filter_auto_commands<'a>(items: &Vec<&'a MemoryEntry>) -> (r: Vec<&'a MemoryEntry>)
    ensures
        derefs(r@) == auto_commands_of(derefs(items@)),
{
    let mut out: Vec<&MemoryEntry> = Vec::new();
    let mut i: usize = 0;
    while i < items.len()
        invariant
            i <= items.len(),
            derefs(out@) == auto_commands_of(derefs(items@).take(i as int)),
        decreases items.len() - i,
    {
        let x = items[i];
        assert(derefs(items@).take(i + 1).drop_last() =~= derefs(items@).take(i as int));
        if is_auto_learned_command(x) {
            out.push(x);
        }
        assert(derefs(out@) =~= auto_commands_of(derefs(items@).take(i + 1)));
        i = i + 1;
    }
    assert(derefs(items@).take(items.len() as int) =~= derefs(items@));
    out
}

fn filter_unselected<'a>(items: &Vec<&'a MemoryEntry>, actions: &Vec<MemoryMaintenanceAction>) -> (r:
    Vec<&'a MemoryEntry>)
    ensures
        derefs(r@) == unselected_of(derefs(items@), action_views(actions@)),
{
    let mut out: Vec<&MemoryEntry> = Vec::new();
    let mut i: usize = 0;
    while i < items.len()
        invariant
            i <= items.len(),
            derefs(out@) == unselected_of(derefs(items@).take(i as int), action_views(actions@)),
        decreases items.len() - i,
    {
        let x = items[i];
        assert(derefs(items@).take(i + 1).drop_last() =~= derefs(items@).take(i as int));
        if !has_action(actions, &x.name) {
            out.push(x);
        }
        assert(derefs(out@) =~= unselected_of(derefs(items@).take(i + 1), action_views(actions@)));
        i = i + 1;
    }
    assert(derefs(items@).take(items.len() as int) =~= derefs(items@));
    out
}

/// Some action already names `name`.
fn has_action(actions: &Vec<MemoryMaintenanceAction>, name: &String) -> (r: bool)
    ensures
        r == is_selected(action_views(actions@), name@),
{
    let ghost acts = action_views(actions@);
    let mut i: usize = 0;
    while i < actions.len()
        invariant
            i <= actions.len(),
            acts == action_views(actions@),
            forall|j: int| 0 <= j < i ==> (#[trigger] acts[j]).0 != name@,
        decreases actions.len() - i,
    {
        if actions[i].name == *name {
            assert(acts[i as int].0 == name@);
            return true;
        }
        i = i + 1;
    }
    false
}

/// Archive `entry` for `reason`, unless an action already names it.
fn push_archive_action(actions: &mut Vec<MemoryMaintenanceAction>, entry: &MemoryEntry, reason: &str)
    requires
        all_archive(old(actions)@),
    ensures
        all_archive(final(actions)@),
        action_views(final(actions)@) == push_action(
            action_views(old(actions)@),
            entry.name@,
            reason@,
        ),
{
    if !has_action(actions, &entry.name) {
        let action = MemoryMaintenanceAction {
            name: entry.name.clone(),
            action: MemoryMaintenanceActionKind::Archive,
            reason: reason_string(reason),
        };
        actions.push(action);
        assert(action_views(actions@) =~= action_views(old(actions)@).push((entry.name@, reason@)));
    }
}

fn reason_string(reason: &str) -> (r: String)
    ensures
        r@ == reason@,
{
    let v = chars_of(reason);
    crate::text::string_of(v.as_slice())
}

/// Archive the first `n` of `list`, in order, for `reason`.
fn push_first(actions: &mut Vec<MemoryMaintenanceAction>, list: &Vec<&MemoryEntry>, n: usize, reason: &str)
    requires
        n <= list@.len(),
        all_archive(old(actions)@),
    ensures
        all_archive(final(actions)@),
        action_views(final(actions)@) == push_each(
            action_views(old(actions)@),
            derefs(list@).take(n as int),
            reason@,
        ),
{
    let ghost start = action_views(actions@);
    let mut i: usize = 0;
    assert(derefs(list@).take(0) =~= Seq::<MemoryEntry>::empty());
    while i < n
        invariant
            i <= n <= list@.len(),
            all_archive(actions@),
            action_views(actions@) == push_each(start, derefs(list@).take(i as int), reason@),
        decreases n - i,
    {
        assert(derefs(list@).take(i + 1).drop_last() =~= derefs(list@).take(i as int));
        assert(derefs(list@).take(i + 1).last() == *list@[i as int]);
        push_archive_action(actions, list[i], reason);
        i = i + 1;
    }
}

} // verus!

//! Registering the command policies a plugin declares.
use vstd::prelude::*;

use crate::plugin_command::{pair_texts, CommandPolicy};
use crate::text::texts;
use crate::plugin_manifest::{CommandPolicyDef, PoliciesConfig, SessionMode, SessionPolicyDef, ToolPolicyDef};
use crate::text::{extend_str, nat_digits, string_of, u64_text, extend_chars};

verus! {

/// The lifecycle point at which a policy is consulted.
#[derive(Debug, PartialEq, Eq)]
pub enum PolicyPoint {
    SessionStart { mode: Option<SessionMode> },
    SessionEnd,
    TurnStart,
    ModelBeforeRequest,
    ModelResponse,
    ToolBeforeInvoke { matcher: Option<String> },
    ToolAfterInvoke { matcher: Option<String> },
    TurnBeforeFinish,
}

impl Clone for PolicyPoint {
    fn clone(&self) -> (r: Self)
        ensures
            r == *self,
    {
        match self {
            PolicyPoint::SessionStart { mode } => PolicyPoint::SessionStart { mode: *mode },
            PolicyPoint::SessionEnd => PolicyPoint::SessionEnd,
            PolicyPoint::TurnStart => PolicyPoint::TurnStart,
            PolicyPoint::ModelBeforeRequest => PolicyPoint::ModelBeforeRequest,
            PolicyPoint::ModelResponse => PolicyPoint::ModelResponse,
            PolicyPoint::ToolBeforeInvoke { matcher } => PolicyPoint::ToolBeforeInvoke {
                matcher: clone_matcher(matcher),
            },
            PolicyPoint::ToolAfterInvoke { matcher } => PolicyPoint::ToolAfterInvoke {
                matcher: clone_matcher(matcher),
            },
            PolicyPoint::TurnBeforeFinish => PolicyPoint::TurnBeforeFinish,
        }
    }
}

/// A policy registered at a point.
pub struct PolicyEntry {
    pub point: PolicyPoint,
    pub policy: CommandPolicy,
}

/// The declarations of a policies block, section by section, each with the
/// point it is consulted at.
pub open spec fn declarations(c: PoliciesConfig) -> Seq<(PolicyPoint, CommandPolicyDef)> {
    c.session_start@.map_values(
        |s: SessionPolicyDef| (PolicyPoint::SessionStart { mode: s.mode }, s.command),
    ) + c.session_end@.map_values(|d: CommandPolicyDef| (PolicyPoint::SessionEnd, d))
        + c.turn_start@.map_values(|d: CommandPolicyDef| (PolicyPoint::TurnStart, d))
        + c.model_before_request@.map_values(
        |d: CommandPolicyDef| (PolicyPoint::ModelBeforeRequest, d),
    ) + c.model_response@.map_values(|d: CommandPolicyDef| (PolicyPoint::ModelResponse, d))
        + c.tool_before_invoke@.map_values(
        |t: ToolPolicyDef| (PolicyPoint::ToolBeforeInvoke { matcher: t.matcher }, t.command),
    ) + c.tool_after_invoke@.map_values(
        |t: ToolPolicyDef| (PolicyPoint::ToolAfterInvoke { matcher: t.matcher }, t.command),
    ) + c.turn_before_finish@.map_values(|d: CommandPolicyDef| (PolicyPoint::TurnBeforeFinish, d))
}

/// The name a plugin's `index`-th policy is registered under:
/// `plugin::<plugin>::<name>`, or `plugin::<plugin>::policy::<index>` when unnamed.
pub open spec fn policy_name_for(plugin: Seq<char>, def: CommandPolicyDef, index: nat) -> Seq<char> {
    match def.name {
        Some(n) => "plugin::"@ + plugin + "::"@ + n@,
        None => "plugin::"@ + plugin + "::policy::"@ + nat_digits(index),
    }
}

/// `e` is the policy registered for the `index`-th declaration `decl`.
pub open spec fn registered_as(
    e: PolicyEntry,
    index: nat,
    decl: (PolicyPoint, CommandPolicyDef),
    plugin: Seq<char>,
    root: Seq<char>,
    env: Seq<(Seq<char>, Seq<char>)>,
) -> bool {
    &&& e.point == decl.0
    &&& e.policy.policy_name() == policy_name_for(plugin, decl.1, index)
    &&& e.policy.declared_command() == decl.1.command@
    &&& e.policy.declared_args() == texts(decl.1.args@)
    &&& e.policy.timeout() == decl.1.timeout
    &&& e.policy.root() == root
    &&& e.policy.env_pairs() == env
}

fn clone_strings(v: &Vec<String>) -> (r: Vec<String>)
    ensures
        texts(r@) == texts(v@),
{
    let mut out: Vec<String> = Vec::new();
    let mut i: usize = 0;
    while i < v.len()
        invariant
            i <= v.len(),
            texts(out@) == texts(v@).take(i as int),
        decreases v.len() - i,
    {
        let s = v[i].clone();
        let ghost before = texts(out@);
        out.push(s);
        assert(texts(out@) =~= before.push(s@));
        assert(texts(v@).take(i + 1) =~= texts(v@).take(i as int).push(v@[i as int]@));
        i = i + 1;
    }
    assert(texts(v@).take(v.len() as int) =~= texts(v@));
    out
}

fn clone_pairs(v: &Vec<(String, String)>) -> (r: Vec<(String, String)>)
    ensures
        pair_texts(r@) == pair_texts(v@),
{
    let mut out: Vec<(String, String)> = Vec::new();
    let mut i: usize = 0;
    while i < v.len()
        invariant
            i <= v.len(),
            pair_texts(out@) == pair_texts(v@).take(i as int),
        decreases v.len() - i,
    {
        let p = (v[i].0.clone(), v[i].1.clone());
        assert((p.0@, p.1@) == pair_texts(v@)[i as int]);
        let ghost before = pair_texts(out@);
        out.push(p);
        assert(pair_texts(out@) =~= before.push((p.0@, p.1@)));
        assert(pair_texts(v@).take(i + 1) =~= pair_texts(v@).take(i as int).push(pair_texts(v@)[i as int]));
        i = i + 1;
    }
    assert(pair_texts(v@).take(v.len() as int) =~= pair_texts(v@));
    out
}

fn policy_name(plugin: &str, def: &CommandPolicyDef, index: usize) -> (r: String)
    ensures
        r@ == policy_name_for(plugin@, *def, index as nat),
{
    let mut t: Vec<char> = Vec::new();
    extend_str(&mut t, "plugin::");
    extend_str(&mut t, plugin);
    match &def.name {
        Some(n) => {
            extend_str(&mut t, "::");
            extend_str(&mut t, n.as_str());
        },
        None => {
            extend_str(&mut t, "::policy::");
            let d = u64_text(index as u64);
            extend_chars(&mut t, d.as_slice());
        },
    }
    string_of(t.as_slice())
}

fn add_policy(
    registry: &mut Vec<PolicyEntry>,
    point: PolicyPoint,
    def: &CommandPolicyDef,
    plugin: &str,
    plugin_root: &str,
    command_env: &Vec<(String, String)>,
    index: usize,
)
    ensures
        final(registry)@.len() == old(registry)@.len() + 1,
        final(registry)@.take(old(registry)@.len() as int) == old(registry)@,
        registered_as(
            final(registry)@.last(),
            index as nat,
            (point, *def),
            plugin@,
            plugin_root@,
            pair_texts(command_env@),
        ),
{
    let name = policy_name(plugin, def, index);
    let policy = CommandPolicy::new(
        name,
        def.command.clone(),
        clone_strings(&def.args),
        def.timeout,
        string_of(crate::text::chars_of(plugin_root).as_slice()),
        clone_pairs(command_env),
    );
    registry.push(PolicyEntry { point, policy });
    assert(registry@.take(old(registry)@.len() as int) =~= old(registry)@);
}

fn clone_matcher(m: &Option<String>) -> (r: Option<String>)
    ensures
        r == *m,
{
    match m {
        Some(s) => Some(s.clone()),
        None => None,
    }
}

/// Register every policy a plugin declares, in declaration order, and say how
/// many were registered.
pub fn register_plugin_policies(
    registry: &mut Vec<PolicyEntry>,
    config: &PoliciesConfig,
    plugin: &str,
    plugin_root: &str,
    command_env: &Vec<(String, String)>,
) -> (count: usize)
    requires
        declarations(*config).len() <= usize::MAX,
    ensures
        count == declarations(*config).len(),
        final(registry)@.len() == old(registry)@.len() + count,
        final(registry)@.take(old(registry)@.len() as int) == old(registry)@,
        forall|k: int|
            0 <= k < count ==> registered_as(
                #[trigger] final(registry)@[old(registry)@.len() + k],
                k as nat,
                declarations(*config)[k],
                plugin@,
                plugin_root@,
                pair_texts(command_env@),
            ),
{
    let ghost decls = declarations(*config);
    let ghost start = registry@;
    let ghost env = pair_texts(command_env@);
    let mut count: usize = 0;
    let ghost s1 = config.session_start@.map_values(
        |s: SessionPolicyDef| (PolicyPoint::SessionStart { mode: s.mode }, s.command),
    );
    let ghost s2 = s1 + config.session_end@.map_values(|d: CommandPolicyDef| (PolicyPoint::SessionEnd, d));
    let ghost s3 = s2 + config.turn_start@.map_values(|d: CommandPolicyDef| (PolicyPoint::TurnStart, d));
    let ghost s4 = s3 + config.model_before_request@.map_values(
        |d: CommandPolicyDef| (PolicyPoint::ModelBeforeRequest, d),
    );
    let ghost s5 = s4 + config.model_response@.map_values(|d: CommandPolicyDef| (PolicyPoint::ModelResponse, d));
    let ghost s6 = s5 + config.tool_before_invoke@.map_values(
        |t: ToolPolicyDef| (PolicyPoint::ToolBeforeInvoke { matcher: t.matcher }, t.command),
    );
    let ghost s7 = s6 + config.tool_after_invoke@.map_values(
        |t: ToolPolicyDef| (PolicyPoint::ToolAfterInvoke { matcher: t.matcher }, t.command),
    );
    assert(decls =~= s7 + config.turn_before_finish@.map_values(
        |d: CommandPolicyDef| (PolicyPoint::TurnBeforeFinish, d),
    ));

    let mut i: usize = 0;
    while i < config.session_start.len()
        invariant
            i <= config.session_start.len(),
            count == i,
            decls == declarations(*config),
            s1 == config.session_start@.map_values(
                |s: SessionPolicyDef| (PolicyPoint::SessionStart { mode: s.mode }, s.command),
            ),
            s1.len() <= decls.len() <= usize::MAX,
            decls.take(s1.len() as int) == s1,
            env == pair_texts(command_env@),
            registry@.len() == start.len() + count,
            registry@.take(start.len() as int) == start,
            forall|k: int|
                0 <= k < count ==> registered_as(
                    #[trigger] registry@[start.len() + k],
                    k as nat,
                    decls[k],
                    plugin@,
                    plugin_root@,
                    env,
                ),
        decreases config.session_start.len() - i,
    {
        let item = &config.session_start[i];
        let ghost before = registry@;
        add_policy(registry, PolicyPoint::SessionStart { mode: item.mode }, &item.command, plugin, plugin_root, command_env, count);
        proof {
            assert(decls[count as int] == s1[i as int]);
            assert forall|k: int| 0 <= k < count + 1 implies registered_as(
                #[trigger] registry@[start.len() + k],
                k as nat,
                decls[k],
                plugin@,
                plugin_root@,
                env,
            ) by {
                if k < count {
                    assert(registry@[start.len() + k] == before[start.len() + k]);
                }
            }
            assert(registry@.take(start.len() as int) =~= start);
        }
        count = count + 1;
        i = i + 1;
    }
    assert(decls.take(s2.len() as int) =~= s2);
    count = register_section(registry, &config.session_end, PolicyPoint::SessionEnd, count, Ghost(decls), Ghost(s1), Ghost(start), plugin, plugin_root, command_env);
    assert(decls.take(s3.len() as int) =~= s3);
    count = register_section(registry, &config.turn_start, PolicyPoint::TurnStart, count, Ghost(decls), Ghost(s2), Ghost(start), plugin, plugin_root, command_env);
    assert(decls.take(s4.len() as int) =~= s4);
    count = register_section(registry, &config.model_before_request, PolicyPoint::ModelBeforeRequest, count, Ghost(decls), Ghost(s3), Ghost(start), plugin, plugin_root, command_env);
    assert(decls.take(s5.len() as int) =~= s5);
    count = register_section(registry, &config.model_response, PolicyPoint::ModelResponse, count, Ghost(decls), Ghost(s4), Ghost(start), plugin, plugin_root, command_env);
    assert(decls.take(s6.len() as int) =~= s6);
    assert(s6 =~= s5 + tool_decls(config.tool_before_invoke@, true));
    count = register_tool_section(registry, &config.tool_before_invoke, true, count, Ghost(decls), Ghost(s5), Ghost(start), plugin, plugin_root, command_env);
    assert(decls.take(s7.len() as int) =~= s7);
    assert(s7 =~= s6 + tool_decls(config.tool_after_invoke@, false));
    count = register_tool_section(registry, &config.tool_after_invoke, false, count, Ghost(decls), Ghost(s6), Ghost(start), plugin, plugin_root, command_env);
    assert(decls.take(decls.len() as int) =~= decls);
    count = register_section(registry, &config.turn_before_finish, PolicyPoint::TurnBeforeFinish, count, Ghost(decls), Ghost(s7), Ghost(start), plugin, plugin_root, command_env);
    count
}

/// Register one section of plain command policies at `point`, numbering
/// them on from `count`.
fn register_section(
    registry: &mut Vec<PolicyEntry>,
    defs: &Vec<CommandPolicyDef>,
    point: PolicyPoint,
    count: usize,
    Ghost(decls): Ghost<Seq<(PolicyPoint, CommandPolicyDef)>>,
    Ghost(prefix): Ghost<Seq<(PolicyPoint, CommandPolicyDef)>>,
    Ghost(start): Ghost<Seq<PolicyEntry>>,
    plugin: &str,
    plugin_root: &str,
    command_env: &Vec<(String, String)>,
) -> (r: usize)
    requires
        count == prefix.len(),
        prefix.len() + defs@.len() <= decls.len() <= usize::MAX,
        decls.take((prefix.len() + defs@.len()) as int) == prefix + defs@.map_values(
            |d: CommandPolicyDef| (point, d),
        ),
        old(registry)@.len() == start.len() + count,
        old(registry)@.take(start.len() as int) == start,
        forall|k: int|
            0 <= k < count ==> registered_as(
                #[trigger] old(registry)@[start.len() + k],
                k as nat,
                decls[k],
                plugin@,
                plugin_root@,
                pair_texts(command_env@),
            ),
    ensures
        r == count + defs@.len(),
        final(registry)@.len() == start.len() + r,
        final(registry)@.take(start.len() as int) == start,
        forall|k: int|
            0 <= k < r ==> registered_as(
                #[trigger] final(registry)@[start.len() + k],
                k as nat,
                decls[k],
                plugin@,
                plugin_root@,
                pair_texts(command_env@),
            ),
{
    let ghost mapped = defs@.map_values(|d: CommandPolicyDef| (point, d));
    let mut n = count;
    let mut i: usize = 0;
    while i < defs.len()
        invariant
            i <= defs.len(),
            n == count + i,
            count == prefix.len(),
            prefix.len() + defs@.len() <= decls.len() <= usize::MAX,
            mapped == defs@.map_values(|d: CommandPolicyDef| (point, d)),
            decls.take((prefix.len() + defs@.len()) as int) == prefix + mapped,
            registry@.len() == start.len() + n,
            registry@.take(start.len() as int) == start,
            forall|k: int|
                0 <= k < n ==> registered_as(
                    #[trigger] registry@[start.len() + k],
                    k as nat,
                    decls[k],
                    plugin@,
                    plugin_root@,
                    pair_texts(command_env@),
                ),
        decreases defs.len() - i,
    {
        let ghost before = registry@;
        add_policy(registry, point.clone(), &defs[i], plugin, plugin_root, command_env, n);
        proof {
            assert(decls.take((prefix.len() + defs@.len()) as int)[n as int] == decls[n as int]);
            assert((prefix + mapped)[n as int] == mapped[i as int]);
            assert forall|k: int| 0 <= k < n + 1 implies registered_as(
                #[trigger] registry@[start.len() + k],
                k as nat,
                decls[k],
                plugin@,
                plugin_root@,
                pair_texts(command_env@),
            ) by {
                if k < n {
                    assert(registry@[start.len() + k] == before[start.len() + k]);
                }
            }
            assert(registry@.take(start.len() as int) =~= start);
        }
        n = n + 1;
        i = i + 1;
    }
    n
}

/// The declarations of a section of tool policies.
pub open spec fn tool_decls(defs: Seq<ToolPolicyDef>, before_invoke: bool) -> Seq<(PolicyPoint, CommandPolicyDef)> {
    if before_invoke {
        defs.map_values(|t: ToolPolicyDef| (PolicyPoint::ToolBeforeInvoke { matcher: t.matcher }, t.command))
    } else {
        defs.map_values(|t: ToolPolicyDef| (PolicyPoint::ToolAfterInvoke { matcher: t.matcher }, t.command))
    }
}

/// Register one section of tool policies, numbering them on from `count`.
fn register_tool_section(
    registry: &mut Vec<PolicyEntry>,
    defs: &Vec<ToolPolicyDef>,
    before_invoke: bool,
    count: usize,
    Ghost(decls): Ghost<Seq<(PolicyPoint, CommandPolicyDef)>>,
    Ghost(prefix): Ghost<Seq<(PolicyPoint, CommandPolicyDef)>>,
    Ghost(start): Ghost<Seq<PolicyEntry>>,
    plugin: &str,
    plugin_root: &str,
    command_env: &Vec<(String, String)>,
) -> (r: usize)
    requires
        count == prefix.len(),
        prefix.len() + defs@.len() <= decls.len() <= usize::MAX,
        decls.take((prefix.len() + defs@.len()) as int) == prefix + tool_decls(defs@, before_invoke),
        old(registry)@.len() == start.len() + count,
        old(registry)@.take(start.len() as int) == start,
        forall|k: int|
            0 <= k < count ==> registered_as(
                #[trigger] old(registry)@[start.len() + k],
                k as nat,
                decls[k],
                plugin@,
                plugin_root@,
                pair_texts(command_env@),
            ),
    ensures
        r == count + defs@.len(),
        final(registry)@.len() == start.len() + r,
        final(registry)@.take(start.len() as int) == start,
        forall|k: int|
            0 <= k < r ==> registered_as(
                #[trigger] final(registry)@[start.len() + k],
                k as nat,
                decls[k],
                plugin@,
                plugin_root@,
                pair_texts(command_env@),
            ),
{
    let ghost mapped = tool_decls(defs@, before_invoke);
    let mut n = count;
    let mut i: usize = 0;
    while i < defs.len()
        invariant
            i <= defs.len(),
            n == count + i,
            count == prefix.len(),
            prefix.len() + defs@.len() <= decls.len() <= usize::MAX,
            mapped == tool_decls(defs@, before_invoke),
            decls.take((prefix.len() + defs@.len()) as int) == prefix + mapped,
            registry@.len() == start.len() + n,
            registry@.take(start.len() as int) == start,
            forall|k: int|
                0 <= k < n ==> registered_as(
                    #[trigger] registry@[start.len() + k],
                    k as nat,
                    decls[k],
                    plugin@,
                    plugin_root@,
                    pair_texts(command_env@),
                ),
        decreases defs.len() - i,
    {
        let matcher = clone_matcher(&defs[i].matcher);
        let point = if before_invoke {
            PolicyPoint::ToolBeforeInvoke { matcher }
        } else {
            PolicyPoint::ToolAfterInvoke { matcher }
        };
        let ghost before = registry@;
        add_policy(registry, point, &defs[i].command, plugin, plugin_root, command_env, n);
        proof {
            assert(decls.take((prefix.len() + defs@.len()) as int)[n as int] == decls[n as int]);
            assert((prefix + mapped)[n as int] == mapped[i as int]);
            if before_invoke {
                assert(mapped[i as int] == (point, defs@[i as int].command));
            } else {
                assert(mapped[i as int] == (point, defs@[i as int].command));
            }
            assert forall|k: int| 0 <= k < n + 1 implies registered_as(
                #[trigger] registry@[start.len() + k],
                k as nat,
                decls[k],
                plugin@,
                plugin_root@,
                pair_texts(command_env@),
            ) by {
                if k < n {
                    assert(registry@[start.len() + k] == before[start.len() + k]);
                }
            }
            assert(registry@.take(start.len() as int) =~= start);
        }
        n = n + 1;
        i = i + 1;
    }
    n
}

} // verus!

//! Commands that plugins run: policies, hooks, tools and servers, with their
//! paths resolved against the plugin root and `${PLUGIN_ROOT}` substituted.
//!
//! Paths follow Unix rules: a path is absolute when it starts with `/`.
use vstd::prelude::*;

use crate::text::texts;

use crate::error::AgentError;
use crate::hooks::HookPhase;
use crate::message::Message;
use crate::plugin_id::PluginId;
use crate::text::{
    chars_of, contains_char_exec, extend_chars, extend_str, is_ascii_alnum, is_ascii_alnum_exec,
    replace_all, replace_all_exec, string_of, trim, trimmed_string, upper_char, upper_char_exec,
};
use vstd::utf8::encode_utf8;

verus! {

// ---------------------------------------------------------------------------
// Paths
// ---------------------------------------------------------------------------

/// `${PLUGIN_ROOT}` in `value` replaced by `root`.
pub open spec fn root_subst(value: Seq<char>, root: Seq<char>) -> Seq<char> {
    replace_all(value, "${PLUGIN_ROOT}"@, root)
}

/// `PathBuf::join`: an absolute `p` replaces `base`; otherwise a separator is
/// added between them where `base` is non-empty and does not end in one.
pub open spec fn path_join(base: Seq<char>, p: Seq<char>) -> Seq<char> {
    if p.len() > 0 && p[0] == '/' {
        p
    } else if base.len() == 0 || base.last() == '/' {
        base + p
    } else {
        base + "/"@ + p
    }
}

/// A command written as a bare program name, looked up on `PATH`.
pub open spec fn is_bare(command: Seq<char>) -> bool {
    !(command.len() > 0 && command[0] == '.') && !command.contains('/') && !command.contains('\\')
}

/// Where a plugin command runs from: absolute and bare commands as written,
/// others relative to the plugin root.
pub open spec fn command_location(command: Seq<char>, root: Seq<char>) -> Seq<char> {
    if (command.len() > 0 && command[0] == '/') || is_bare(command) {
        command
    } else {
        path_join(root, command)
    }
}

/// `value.replace("${PLUGIN_ROOT}", root)`.
pub fn substitute_root(value: &str, root: &str) -> (r: String)
    ensures
        r@ == root_subst(value@, root@),
{
    let pat = chars_of("${PLUGIN_ROOT}");
    proof {
        reveal_strlit("${PLUGIN_ROOT}");
    }
    let v = chars_of(value);
    let rv = chars_of(root);
    let out = replace_all_exec(v.as_slice(), pat.as_slice(), rv.as_slice());
    string_of(out.as_slice())
}

/// `Path::new(base).join(p)` as a string.
pub fn join_path(base: &str, p: &str) -> (r: String)
    ensures
        r@ == path_join(base@, p@),
{
    let b = chars_of(base);
    let pv = chars_of(p);
    if pv.len() > 0 && pv[0] == '/' {
        return string_of(pv.as_slice());
    }
    let mut out: Vec<char> = Vec::new();
    extend_chars(&mut out, b.as_slice());
    if b.len() > 0 && b[b.len() - 1] != '/' {
        extend_str(&mut out, "/");
    }
    extend_chars(&mut out, pv.as_slice());
    string_of(out.as_slice())
}

/// A command written as a bare program name.
pub fn is_bare_executable(command: &str) -> (r: bool)
    ensures
        r == is_bare(command@),
{
    let v = chars_of(command);
    let dot = v.len() > 0 && v[0] == '.';
    !dot && !contains_char_exec(v.as_slice(), '/') && !contains_char_exec(v.as_slice(), '\\')
}

/// An absolute or bare command as written; any other relative to `plugin_root`.
pub fn resolve_plugin_command(command: &str, plugin_root: &str) -> (r: String)
    ensures
        r@ == command_location(command@, plugin_root@),
{
    let v = chars_of(command);
    if (v.len() > 0 && v[0] == '/') || is_bare_executable(command) {
        return string_of(v.as_slice());
    }
    join_path(plugin_root, command)
}

/// `${PLUGIN_ROOT}` substituted in `command`, then resolved against the root.
pub fn resolve_command(command: &str, plugin_root: &str) -> (r: String)
    ensures
        r@ == command_location(root_subst(command@, plugin_root@), plugin_root@),
{
    let c = substitute_root(command, plugin_root);
    resolve_plugin_command(c.as_str(), plugin_root)
}

/// The texts of a list of string pairs.
pub open spec fn pair_texts(v: Seq<(String, String)>) -> Seq<(Seq<char>, Seq<char>)> {
    v.map_values(|p: (String, String)| (p.0@, p.1@))
}

/// Each value with `${PLUGIN_ROOT}` substituted.
pub open spec fn subst_all(v: Seq<Seq<char>>, root: Seq<char>) -> Seq<Seq<char>> {
    v.map_values(|s: Seq<char>| root_subst(s, root))
}

/// Each pair's value with `${PLUGIN_ROOT}` substituted.
pub open spec fn subst_values(v: Seq<(Seq<char>, Seq<char>)>, root: Seq<char>) -> Seq<
    (Seq<char>, Seq<char>),
> {
    v.map_values(|p: (Seq<char>, Seq<char>)| (p.0, root_subst(p.1, root)))
}

/// `args` with `${PLUGIN_ROOT}` substituted in each.
pub fn substitute_all(args: &Vec<String>, root: &str) -> (r: Vec<String>)
    ensures
        texts(r@) == subst_all(texts(args@), root@),
{
    let mut out: Vec<String> = Vec::new();
    let mut i: usize = 0;
    while i < args.len()
        invariant
            i <= args.len(),
            texts(out@) == subst_all(texts(args@), root@).take(i as int),
        decreases args.len() - i,
    {
        let s = substitute_root(args[i].as_str(), root);
        assert(s@ == subst_all(texts(args@), root@)[i as int]);
        let ghost before = texts(out@);
        out.push(s);
        assert(texts(out@) =~= before.push(s@));
        assert(texts(out@) =~= subst_all(texts(args@), root@).take(i + 1));
        i = i + 1;
    }
    assert(subst_all(texts(args@), root@).take(args.len() as int) =~= subst_all(
        texts(args@),
        root@,
    ));
    out
}

/// `env` with `${PLUGIN_ROOT}` substituted in each value, appended to `base`.
pub fn extend_env(base: &mut Vec<(String, String)>, env: &Vec<(String, String)>, root: &str)
    ensures
        pair_texts(final(base)@) == pair_texts(old(base)@) + subst_values(pair_texts(env@), root@),
{
    let ghost start = pair_texts(base@);
    let mut i: usize = 0;
    while i < env.len()
        invariant
            i <= env.len(),
            pair_texts(base@) == start + subst_values(pair_texts(env@), root@).take(i as int),
        decreases env.len() - i,
    {
        let v = substitute_root(env[i].1.as_str(), root);
        let k = env[i].0.clone();
        assert((k@, v@) == subst_values(pair_texts(env@), root@)[i as int]);
        let ghost before = pair_texts(base@);
        base.push((k, v));
        assert(pair_texts(base@) =~= before.push((k@, v@)));
        assert(pair_texts(base@) =~= start + subst_values(pair_texts(env@), root@).take(i + 1));
        i = i + 1;
    }
    assert(subst_values(pair_texts(env@), root@).take(env.len() as int) =~= subst_values(
        pair_texts(env@),
        root@,
    ));
}

/// The value an environment takes for `key`: the last pair that sets it.
pub open spec fn env_lookup(env: Seq<(Seq<char>, Seq<char>)>, key: Seq<char>) -> Option<Seq<char>>
    decreases env.len(),
{
    if env.len() == 0 {
        None
    } else if env.last().0 == key {
        Some(env.last().1)
    } else {
        env_lookup(env.drop_last(), key)
    }
}

/// The value of `key` in `env`, later pairs overriding earlier ones.
pub fn env_get(env: &Vec<(String, String)>, key: &str) -> (r: Option<String>)
    ensures
        r is Some <==> env_lookup(pair_texts(env@), key@) is Some,
        r matches Some(v) ==> env_lookup(pair_texts(env@), key@) == Some(v@),
{
    let ghost pt = pair_texts(env@);
    let mut i: usize = env.len();
    assert(pt.take(env.len() as int) =~= pt);
    while i > 0
        invariant
            i <= env.len(),
            pt == pair_texts(env@),
            env_lookup(pt, key@) == env_lookup(pt.take(i as int), key@),
        decreases i,
    {
        let k = chars_of(env[i - 1].0.as_str());
        let kv = chars_of(key);
        assert(pt.take(i as int).drop_last() =~= pt.take(i - 1));
        if crate::text::seq_eq(k.as_slice(), kv.as_slice()) {
            return Some(env[i - 1].1.clone());
        }
        i = i - 1;
    }
    None
}

// ---------------------------------------------------------------------------
// Component names
// ---------------------------------------------------------------------------

/// Lower-case hexadecimal digit of `d < 16`.
pub open spec fn hex_digit(d: u8) -> char {
    if d < 10 {
        ((d + 48) as u8) as char
    } else {
        ((d + 87) as u8) as char
    }
}

/// An ASCII letter, digit or `-` byte.
pub open spec fn plain_byte(b: u8) -> bool {
    (48 <= b <= 57) || (65 <= b <= 90) || (97 <= b <= 122) || b == 45
}

/// A plain byte stays; any other becomes `_x` and two lower-case hex digits.
pub open spec fn byte_piece(b: u8) -> Seq<char> {
    if plain_byte(b) {
        seq![b as char]
    } else {
        seq!['_', 'x', hex_digit(b / 16), hex_digit(b % 16)]
    }
}

pub open spec fn encode_component_bytes(bs: Seq<u8>) -> Seq<char>
    decreases bs.len(),
{
    if bs.len() == 0 {
        seq![]
    } else {
        encode_component_bytes(bs.drop_last()) + byte_piece(bs.last())
    }
}

/// The UTF-8 bytes of `name` encoded as a component name.
pub open spec fn component_name(name: Seq<char>) -> Seq<char> {
    encode_component_bytes(encode_utf8(name))
}

fn hex_digit_exec(d: u8) -> (c: char)
    requires
        d < 16,
    ensures
        c == hex_digit(d),
{
    if d < 10 {
        let v: u8 = d + 48;
        v as char
    } else {
        let v: u8 = d + 87;
        v as char
    }
}

/// Encodes `name` so that distinct names stay distinct: ASCII letters,
/// digits and `-` stay, every other byte becomes `_x` and its hex value.
pub fn normalize_component_name(name: &str) -> (r: String)
    ensures
        r@ == component_name(name@),
{
    let bytes = name.as_bytes();
    let mut out: Vec<char> = Vec::new();
    let mut i: usize = 0;
    while i < bytes.len()
        invariant
            i <= bytes.len(),
            bytes@ == encode_utf8(name@),
            out@ == encode_component_bytes(bytes@.take(i as int)),
        decreases bytes.len() - i,
    {
        let b = bytes[i];
        assert(bytes@.take(i + 1).drop_last() =~= bytes@.take(i as int));
        let plain = (48 <= b && b <= 57) || (65 <= b && b <= 90) || (97 <= b && b <= 122) || b == 45;
        if plain {
            out.push(b as char);
        } else {
            out.push('_');
            out.push('x');
            out.push(hex_digit_exec(b / 16));
            out.push(hex_digit_exec(b % 16));
        }
        assert(out@ =~= encode_component_bytes(bytes@.take(i + 1)));
        i = i + 1;
    }
    assert(bytes@.take(bytes.len() as int) =~= bytes@);
    string_of(out.as_slice())
}

proof fn lemma_encode_concat(a: Seq<u8>, b: Seq<u8>)
    ensures
        encode_component_bytes(a + b) == encode_component_bytes(a) + encode_component_bytes(b),
    decreases b.len(),
{
    if b.len() == 0 {
        assert(a + b =~= a);
        assert(encode_component_bytes(a) + encode_component_bytes(b) =~= encode_component_bytes(a));
    } else {
        lemma_encode_concat(a, b.drop_last());
        assert((a + b).drop_last() =~= a + b.drop_last());
        assert((a + b).last() == b.last());
        assert(encode_component_bytes(a + b) =~= encode_component_bytes(a) + encode_component_bytes(b));
    }
}

proof fn lemma_encode_cons(bs: Seq<u8>)
    requires
        bs.len() > 0,
    ensures
        encode_component_bytes(bs) == byte_piece(bs[0]) + encode_component_bytes(bs.skip(1)),
{
    assert(bs =~= seq![bs[0]] + bs.skip(1));
    lemma_encode_concat(seq![bs[0]], bs.skip(1));
    let one = seq![bs[0]];
    assert(one.drop_last() =~= Seq::<u8>::empty());
    assert(encode_component_bytes(one.drop_last()) == Seq::<char>::empty());
    assert(one.last() == bs[0]);
    assert(encode_component_bytes(one) == encode_component_bytes(one.drop_last()) + byte_piece(one.last()));
    assert(encode_component_bytes(one) =~= byte_piece(bs[0]));
}

proof fn lemma_hex_digit(d: u8)
    requires
        d < 16,
    ensures
        hex_digit(d) as int == (if d < 10 { d + 48 } else { d + 87 }),
        hex_digit(d) != '_',
{
}

proof fn lemma_encode_injective(a: Seq<u8>, b: Seq<u8>)
    requires
        encode_component_bytes(a) == encode_component_bytes(b),
    ensures
        a == b,
    decreases a.len() + b.len(),
{
    if a.len() == 0 && b.len() == 0 {
        assert(a =~= b);
    } else if a.len() == 0 {
        lemma_encode_cons(b);
        assert(encode_component_bytes(a).len() == 0);
    } else if b.len() == 0 {
        lemma_encode_cons(a);
        assert(encode_component_bytes(b).len() == 0);
    } else {
        lemma_encode_cons(a);
        lemma_encode_cons(b);
        let e = encode_component_bytes(a);
        let x = a[0];
        let y = b[0];
        let px = byte_piece(x);
        let py = byte_piece(y);
        assert(e[0] == px[0]);
        assert(e[0] == py[0]);
        if plain_byte(x) {
            assert(px[0] == x as char);
            assert((x as char) != '_');
            assert(plain_byte(y));
            assert(py[0] == y as char);
            assert(x == y);
        } else {
            assert(!plain_byte(y));
            assert(e[2] == px[2] && e[2] == py[2]);
            assert(e[3] == px[3] && e[3] == py[3]);
            lemma_hex_digit(x / 16);
            lemma_hex_digit(y / 16);
            lemma_hex_digit(x % 16);
            lemma_hex_digit(y % 16);
            assert(x / 16 == y / 16);
            assert(x % 16 == y % 16);
            assert(x == y);
        }
        assert(px == py);
        assert(encode_component_bytes(a.skip(1)) =~= e.skip(px.len() as int));
        assert(encode_component_bytes(b.skip(1)) =~= e.skip(py.len() as int));
        lemma_encode_injective(a.skip(1), b.skip(1));
        assert(a =~= seq![x] + a.skip(1));
        assert(b =~= seq![y] + b.skip(1));
    }
}

/// Distinct names get distinct component names: the encoding never
/// collapses two names, such as `formatter.one` and `formatter_one`, into one.
pub proof fn law_component_names_distinct(a: Seq<char>, b: Seq<char>)
    requires
        a != b,
    ensures
        component_name(a) != component_name(b),
{
    if component_name(a) == component_name(b) {
        lemma_encode_injective(encode_utf8(a), encode_utf8(b));
        vstd::utf8::encode_utf8_decode_utf8(a);
        vstd::utf8::encode_utf8_decode_utf8(b);
    }
}

/// `<name>__<marketplace>`, each part encoded as a component name.
pub open spec fn component_namespace(id: PluginId) -> Seq<char> {
    component_name(id.name@) + "__"@ + component_name(id.marketplace@)
}

proof fn lemma_underscore_then_x(bs: Seq<u8>, i: int)
    requires
        0 <= i < encode_component_bytes(bs).len(),
        encode_component_bytes(bs)[i] == '_',
    ensures
        i + 1 < encode_component_bytes(bs).len(),
        encode_component_bytes(bs)[i + 1] == 'x',
    decreases bs.len(),
{
    if bs.len() > 0 {
        let prev = encode_component_bytes(bs.drop_last());
        let piece = byte_piece(bs.last());
        assert(encode_component_bytes(bs) == prev + piece);
        if i < prev.len() {
            lemma_underscore_then_x(bs.drop_last(), i);
        } else {
            let k = i - prev.len();
            assert(piece[k] == '_');
            if plain_byte(bs.last()) {
                assert(((bs.last()) as char) != '_');
            } else {
                lemma_hex_digit(bs.last() / 16);
                lemma_hex_digit(bs.last() % 16);
                assert(k == 0);
            }
        }
    }
}

proof fn lemma_namespace_split(id: PluginId, j: int)
    requires
        0 <= j < component_name(id.name@).len(),
    ensures
        !(component_namespace(id)[j] == '_' && component_namespace(id)[j + 1] == '_'),
{
    reveal_strlit("__");
    let a = component_name(id.name@);
    let n = component_namespace(id);
    if n[j] == '_' {
        assert(n[j] == a[j]);
        lemma_underscore_then_x(encode_utf8(id.name@), j);
        assert(n[j + 1] == a[j + 1]);
    }
}

/// Plugins that differ in name or marketplace get different component
/// namespaces, so their components never collide.
pub proof fn law_namespaces_distinct(a: PluginId, b: PluginId)
    requires
        a.name@ != b.name@ || a.marketplace@ != b.marketplace@,
    ensures
        component_namespace(a) != component_namespace(b),
{
    reveal_strlit("__");
    let na = component_name(a.name@);
    let nb = component_name(b.name@);
    let la = na.len() as int;
    let lb = nb.len() as int;
    let n = component_namespace(a);
    if n == component_namespace(b) {
        assert(n[la] == '_' && n[la + 1] == '_');
        assert(component_namespace(b)[lb] == '_' && component_namespace(b)[lb + 1] == '_');
        if la < lb {
            lemma_namespace_split(b, la);
        } else if lb < la {
            lemma_namespace_split(a, lb);
        }
        assert(la == lb);
        assert(n.take(la) =~= na);
        assert(component_namespace(b).take(lb) =~= nb);
        assert(n.skip(la + 2) =~= component_name(a.marketplace@));
        assert(component_namespace(b).skip(lb + 2) =~= component_name(b.marketplace@));
        if a.name@ != b.name@ {
            law_component_names_distinct(a.name@, b.name@);
        } else {
            law_component_names_distinct(a.marketplace@, b.marketplace@);
        }
    }
}

pub fn plugin_component_namespace(id: &PluginId) -> (r: String)
    ensures
        r@ == component_namespace(*id),
{
    let a = normalize_component_name(id.name.as_str());
    let b = normalize_component_name(id.marketplace.as_str());
    let mut out: Vec<char> = Vec::new();
    extend_str(&mut out, a.as_str());
    extend_str(&mut out, "__");
    extend_str(&mut out, b.as_str());
    string_of(out.as_slice())
}

/// Configuration keys as environment names: ASCII letters and digits upper-cased,
/// everything else `_`.
pub open spec fn env_key(key: Seq<char>) -> Seq<char> {
    key.map_values(|c: char| if is_ascii_alnum(c) { upper_char(c) } else { '_' })
}

pub fn normalize_env_key(key: &str) -> (r: String)
    ensures
        r@ == env_key(key@),
{
    let v = chars_of(key);
    let mut out: Vec<char> = Vec::new();
    let mut i: usize = 0;
    while i < v.len()
        invariant
            i <= v.len(),
            v@ == key@,
            out@ == env_key(v@.take(i as int)),
        decreases v.len() - i,
    {
        let c = v[i];
        if is_ascii_alnum_exec(c) {
            out.push(upper_char_exec(c));
        } else {
            out.push('_');
        }
        assert(out@ =~= env_key(v@.take(i + 1)));
        i = i + 1;
    }
    assert(v@.take(v.len() as int) =~= v@);
    string_of(out.as_slice())
}

// ---------------------------------------------------------------------------
// Policies and hooks
// ---------------------------------------------------------------------------

/// A plugin policy run as a command, with a controlled working directory and
/// environment.
pub struct CommandPolicy {
    name: String,
    command: String,
    args: Vec<String>,
    timeout_ms: u64,
    plugin_root: String,
    env: Vec<(String, String)>,
}

impl CommandPolicy {
    pub closed spec fn policy_name(self) -> Seq<char> {
        self.name@
    }

    pub closed spec fn declared_command(self) -> Seq<char> {
        self.command@
    }

    pub closed spec fn declared_args(self) -> Seq<Seq<char>> {
        texts(self.args@)
    }

    pub closed spec fn timeout(self) -> u64 {
        self.timeout_ms
    }

    pub closed spec fn root(self) -> Seq<char> {
        self.plugin_root@
    }

    pub closed spec fn env_pairs(self) -> Seq<(Seq<char>, Seq<char>)> {
        pair_texts(self.env@)
    }

    pub fn new(
        name: String,
        command: String,
        args: Vec<String>,
        timeout_ms: u64,
        plugin_root: String,
        env: Vec<(String, String)>,
    ) -> (r: Self)
        ensures
            r.policy_name() == name@,
            r.declared_command() == command@,
            r.declared_args() == texts(args@),
            r.timeout() == timeout_ms,
            r.root() == plugin_root@,
            r.env_pairs() == pair_texts(env@),
    {
        Self { name, command, args, timeout_ms, plugin_root, env }
    }

    pub fn name(&self) -> (r: &str)
        ensures
            r@ == self.policy_name(),
    {
        self.name.as_str()
    }

    pub fn args(&self) -> (r: &Vec<String>)
        ensures
            texts(r@) == self.declared_args(),
    {
        &self.args
    }

    pub fn timeout_ms(&self) -> (r: u64)
        ensures
            r == self.timeout(),
    {
        self.timeout_ms
    }

    pub fn plugin_root(&self) -> (r: &str)
        ensures
            r@ == self.root(),
    {
        self.plugin_root.as_str()
    }

    pub fn env(&self) -> (r: &Vec<(String, String)>)
        ensures
            pair_texts(r@) == self.env_pairs(),
    {
        &self.env
    }

    /// `${PLUGIN_ROOT}` in `value` replaced by the plugin root.
    pub fn resolve(&self, value: &str) -> (r: String)
        ensures
            r@ == root_subst(value@, self.root()),
    {
        substitute_root(value, self.plugin_root.as_str())
    }

    /// The program to run: the resolved command, relative to the plugin root
    /// when it is a relative path.
    pub fn command_path(&self) -> (r: String)
        ensures
            r@ == command_location(root_subst(self.declared_command(), self.root()), self.root()),
    {
        resolve_command(self.command.as_str(), self.plugin_root.as_str())
    }

    /// The arguments with `${PLUGIN_ROOT}` substituted.
    pub fn resolved_args(&self) -> (r: Vec<String>)
        ensures
            texts(r@) == subst_all(self.declared_args(), self.root()),
    {
        substitute_all(&self.args, self.plugin_root.as_str())
    }

    /// Judge a finished policy process before its answer is read: a failed
    /// exit reports its trimmed stderr (marked when it was cut short) or,
    /// with none, its exit `status`; an answer longer than the output limit
    /// is refused.
    pub fn check_exit(
        &self,
        success: bool,
        status: &str,
        stderr: &str,
        stderr_truncated: bool,
        stdout_truncated: bool,
    ) -> (r: Result<(), AgentError>)
        ensures
            r is Ok <==> success && !stdout_truncated,
            r matches Err(e) ==> e matches AgentError::ToolExecution { tool, message } && tool@
                == self.policy_name() && message@ == policy_failure_text(
                success,
                status@,
                stderr@,
                stderr_truncated,
            ),
    {
        if !success {
            let text = trimmed_string(stderr);
            let mut detail: Vec<char> = Vec::new();
            if text.as_str().is_empty() {
                extend_str(&mut detail, "policy exited with status ");
                extend_str(&mut detail, status);
            } else if stderr_truncated {
                extend_str(&mut detail, text.as_str());
                extend_str(&mut detail, "\u{2026} [truncated]");
            } else {
                extend_str(&mut detail, text.as_str());
            }
            return Err(AgentError::ToolExecution { tool: self.name.clone(), message: string_of(detail.as_slice()) });
        }
        if stdout_truncated {
            return Err(
                AgentError::ToolExecution {
                    tool: self.name.clone(),
                    message: "policy output exceeded 1048576 bytes".to_owned(),
                },
            );
        }
        Ok(())
    }

    /// The outcome a policy that passed [`Self::check_exit`] gives: what it
    /// wrote on stdout, which must be JSON.
    pub fn outcome_value(&self, stdout: &[u8]) -> (r: Result<serde_json::Value, AgentError>)
        ensures
            match crate::json::json_parsed_bytes(stdout@) {
                Some(v) => r == Ok::<serde_json::Value, AgentError>(v),
                None => r matches Err(e) && (e matches AgentError::ToolExecution { tool, message }
                    && tool@ == self.policy_name() && message@ == "invalid policy outcome: "@
                    + crate::json::json_bytes_error_text(stdout@)),
            },
    {
        match crate::json::json_from_bytes(stdout) {
            Ok(v) => Ok(v),
            Err(reason) => {
                let mut text = chars_of("invalid policy outcome: ");
                extend_str(&mut text, reason.as_str());
                Err(AgentError::ToolExecution { tool: self.name.clone(), message: string_of(text.as_slice()) })
            },
        }
    }
}

/// The most a policy may write on stdout, in bytes.
pub const MAX_POLICY_OUTPUT_BYTES: usize = 1048576;

/// The message of a policy that failed: see [`CommandPolicy::check_exit`].
pub open spec fn policy_failure_text(success: bool, status: Seq<char>, stderr: Seq<char>, stderr_truncated: bool) -> Seq<char> {
    if success {
        "policy output exceeded 1048576 bytes"@
    } else if trim(stderr).len() == 0 {
        "policy exited with status "@ + status
    } else if stderr_truncated {
        trim(stderr) + "\u{2026} [truncated]"@
    } else {
        trim(stderr)
    }
}

/// A hook that executes an external command when triggered.
pub struct CommandHook {
    name: String,
    command: String,
    args: Vec<String>,
    phase: HookPhase,
    timeout_ms: u64,
}

impl CommandHook {
    pub closed spec fn hook_name(self) -> Seq<char> {
        self.name@
    }

    pub closed spec fn hook_command(self) -> Seq<char> {
        self.command@
    }

    pub closed spec fn hook_args(self) -> Seq<Seq<char>> {
        texts(self.args@)
    }

    pub closed spec fn hook_phase(self) -> HookPhase {
        self.phase
    }

    pub closed spec fn timeout(self) -> u64 {
        self.timeout_ms
    }

    pub fn new(name: String, command: String, args: Vec<String>, phase: HookPhase, timeout_ms: u64) -> (r:
        Self)
        ensures
            r.hook_name() == name@,
            r.hook_command() == command@,
            r.hook_args() == texts(args@),
            r.hook_phase() == phase,
            r.timeout() == timeout_ms,
    {
        Self { name, command, args, phase, timeout_ms }
    }

    pub fn name(&self) -> (r: &str)
        ensures
            r@ == self.hook_name(),
    {
        self.name.as_str()
    }

    pub fn phase(&self) -> (r: HookPhase)
        ensures
            r == self.hook_phase(),
    {
        self.phase.clone()
    }

    pub fn command(&self) -> (r: &str)
        ensures
            r@ == self.hook_command(),
    {
        self.command.as_str()
    }

    pub fn args(&self) -> (r: &Vec<String>)
        ensures
            texts(r@) == self.hook_args(),
    {
        &self.args
    }

    pub fn timeout_ms(&self) -> (r: u64)
        ensures
            r == self.timeout(),
    {
        self.timeout_ms
    }

    /// What the hook answers, given the command's standard output: nothing
    /// when the output is blank, else an assistant message with the trimmed text.
    pub fn reply(stdout: &str) -> (r: Option<Message>)
        ensures
            r is None <==> trim(stdout@).len() == 0,
            r matches Some(m) ==> m.is_text(crate::message::Role::Assistant, trim(stdout@)),
    {
        let t = trimmed_string(stdout);
        if t.as_str().is_empty() {
            None
        } else {
            Some(Message::assistant(t.as_str()))
        }
    }
}

/// Output of a child process, kept up to a byte limit.
pub struct LimitedOutput {
    pub bytes: Vec<u8>,
    pub truncated: bool,
}

impl LimitedOutput {
    pub fn new() -> (r: Self)
        ensures
            r.bytes@ == Seq::<u8>::empty(),
            !r.truncated,
    {
        LimitedOutput { bytes: Vec::new(), truncated: false }
    }

    /// Keep as much of `chunk` as fits under `max` bytes; note when some was dropped.
    pub fn absorb(&mut self, chunk: &[u8], max: usize)
        ensures
            final(self).bytes@ == old(self).bytes@ + chunk@.take(
                if old(self).bytes@.len() >= max { 0 } else if max - old(self).bytes@.len() < chunk@.len() {
                    max - old(self).bytes@.len()
                } else {
                    chunk@.len() as int
                },
            ),
            final(self).truncated == (old(self).truncated || (if old(self).bytes@.len() >= max {
                0
            } else {
                max - old(self).bytes@.len()
            }) < chunk@.len()),
    {
        let remaining = if self.bytes.len() >= max {
            0
        } else {
            max - self.bytes.len()
        };
        let retained = if remaining < chunk.len() {
            remaining
        } else {
            chunk.len()
        };
        let mut i: usize = 0;
        let ghost start = self.bytes@;
        while i < retained
            invariant
                i <= retained <= chunk.len(),
                self.truncated == old(self).truncated,
                self.bytes@ == start + chunk@.take(i as int),
            decreases retained - i,
        {
            self.bytes.push(chunk[i]);
            assert(self.bytes@ =~= start + chunk@.take(i + 1));
            i = i + 1;
        }
        self.truncated = self.truncated || retained < chunk.len();
    }
}

} // verus!

//! Plugin identifiers: `<name>@<marketplace>`.
use vstd::prelude::*;

use crate::text::{chars_of, extend_str, string_of, slice_chars};

verus! {

/// A plugin name qualified by the marketplace it came from.
#[derive(Debug, PartialEq, Eq, Hash)]
pub struct PluginId {
    pub name: String,
    pub marketplace: String,
}

impl Clone for PluginId {
    fn clone(&self) -> (r: Self)
        ensures
            r == *self,
    {
        PluginId { name: self.name.clone(), marketplace: self.marketplace.clone() }
    }
}

/// Characters allowed in a plugin or marketplace name.
pub open spec fn is_id_char(c: char) -> bool {
    crate::text::is_ascii_alnum(c) || c == '.' || c == '-' || c == '_'
}

/// A non-empty name made only of ASCII letters, digits, dots, hyphens and underscores.
pub open spec fn valid_id_part(s: Seq<char>) -> bool {
    s.len() > 0 && forall|i: int| 0 <= i < s.len() ==> is_id_char(#[trigger] s[i])
}

/// `name@marketplace`.
pub open spec fn id_text(name: Seq<char>, marketplace: Seq<char>) -> Seq<char> {
    name + "@"@ + marketplace
}

pub fn is_valid_id_part(s: &str) -> (r: bool)
    ensures
        r == valid_id_part(s@),
{
    let v = chars_of(s);
    is_valid_id_chars(v.as_slice())
}

pub fn is_valid_id_chars(v: &[char]) -> (r: bool)
    ensures
        r == valid_id_part(v@),
{
    if v.len() == 0 {
        return false;
    }
    let mut i: usize = 0;
    while i < v.len()
        invariant
            i <= v.len(),
            forall|j: int| 0 <= j < i ==> is_id_char(v@[j]),
        decreases v.len() - i,
    {
        let c = v[i];
        if !(crate::text::is_ascii_alnum_exec(c) || c == '.' || c == '-' || c == '_') {
            assert(!is_id_char(v@[i as int]));
            return false;
        }
        i = i + 1;
    }
    true
}

impl PluginId {
    /// Parse `name@marketplace`; both parts must be valid names.
    pub open spec fn parse_spec(s: Seq<char>) -> Option<(Seq<char>, Seq<char>)> {
        if exists|i: int|
            0 <= i < s.len() && s[i] == '@' && valid_id_part(s.take(i)) && valid_id_part(
                s.skip(i + 1),
            ) {
            let i = choose|i: int|
                0 <= i < s.len() && s[i] == '@' && valid_id_part(s.take(i)) && valid_id_part(
                    s.skip(i + 1),
                );
            Some((s.take(i), s.skip(i + 1)))
        } else {
            None
        }
    }

    pub fn parse(s: &str) -> (r: Option<Self>)
        ensures
            r is Some <==> Self::parse_spec(s@) is Some,
            r matches Some(id) ==> Self::parse_spec(s@) == Some((id.name@, id.marketplace@)),
    {
        let v = chars_of(s);
        let mut at: usize = 0;
        while at < v.len()
            invariant
                at <= v.len(),
                forall|j: int| 0 <= j < at ==> v@[j] != '@',
            ensures
                at <= v.len(),
                forall|j: int| 0 <= j < at ==> v@[j] != '@',
                at < v.len() ==> v@[at as int] == '@',
            decreases v.len() - at,
        {
            if v[at] == '@' {
                break;
            }
            at = at + 1;
        }
        if at >= v.len() {
            assert(Self::parse_spec(s@) is None);
            return None;
        }
        let name = slice_chars(v.as_slice(), 0, at);
        let marketplace = slice_chars(v.as_slice(), at + 1, v.len());
        assert(name@ =~= v@.take(at as int));
        assert(marketplace@ =~= v@.skip(at + 1));
        let ok = is_valid_id_chars(name.as_slice()) && is_valid_id_chars(marketplace.as_slice());
        proof {
            // Any '@' splitting into two valid parts is the first one: valid parts hold no '@'.
            assert forall|i: int|
                0 <= i < v@.len() && v@[i] == '@' && valid_id_part(v@.take(i)) && valid_id_part(
                    v@.skip(i + 1),
                ) implies i == at by {
                if i < at {
                    assert(v@[i] != '@');
                }
                if i > at {
                    assert(v@.take(i)[at as int] == '@');
                    assert(!is_id_char('@'));
                }
            }
        }
        if !ok {
            return None;
        }
        Some(PluginId { name: string_of(name.as_slice()), marketplace: string_of(marketplace.as_slice()) })
    }

    /// `name@marketplace`.
    pub fn to_string(&self) -> (r: String)
        ensures
            r@ == id_text(self.name@, self.marketplace@),
    {
        let mut out: Vec<char> = Vec::new();
        extend_str(&mut out, self.name.as_str());
        extend_str(&mut out, "@");
        extend_str(&mut out, self.marketplace.as_str());
        string_of(out.as_slice())
    }
}

/// Displaying a plugin id and parsing the text gives the id back, for every
/// id whose name and marketplace are valid.
pub proof fn law_parse_displayed_id(name: Seq<char>, marketplace: Seq<char>)
    requires
        valid_id_part(name),
        valid_id_part(marketplace),
    ensures
        PluginId::parse_spec(id_text(name, marketplace)) == Some((name, marketplace)),
{
    reveal_strlit("@");
    let s = id_text(name, marketplace);
    let at = name.len() as int;
    assert(s[at] == '@');
    assert(s.take(at) =~= name);
    assert(s.skip(at + 1) =~= marketplace);
    assert forall|i: int|
        0 <= i < s.len() && s[i] == '@' && valid_id_part(s.take(i)) && valid_id_part(s.skip(i + 1))
        implies i == at by {
        if i < at {
            assert(s[i] == name[i]);
            assert(is_id_char(name[i]));
        }
        if i > at {
            assert(s.take(i)[at] == '@');
            assert(is_id_char(s.take(i)[at]));
        }
    }
}

} // verus!

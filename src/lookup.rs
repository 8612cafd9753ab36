//! The current public address, read from the lookup service's JSON answer.

use vstd::prelude::*;

verus! {

/// The members of a JSON object whose values are all strings, as a map from
/// name to value; `None` where the text is no such object.
pub uninterp spec fn json_string_map(text: Seq<char>) -> Option<Map<Seq<char>, Seq<char>>>;

/// The member of the answer that holds the address.
pub open spec fn ip_key() -> Seq<char> {
    seq!['i', 'p']
}

/// Why the answer of the lookup service yields no address.
#[derive(Clone, Copy, Debug, PartialEq, Eq)]
pub enum LookupError {
    /// The answer is not a JSON object of strings.
    InvalidResponse,
    /// The answer has no `ip` member.
    MissingIp,
}

/// Relies on serde_json::from_str into a `HashMap<String, String>`: it succeeds
/// exactly on a JSON object whose values are all strings, and the map then
/// holds its members. Each entry of the map is handed out once, in the map's
/// own order.
#[verifier::external_body]
fn parse_string_map(text: &str) -> (r: Option<Vec<(String, String)>>)
    ensures
        match json_string_map(text@) {
            None => r is None,
            Some(m) => r is Some
                && (forall|i: int| 0 <= i < r->0@.len()
                    ==> m.contains_key((#[trigger] r->0@[i]).0@) && m[r->0@[i].0@] == r->0@[i].1@)
                && (forall|k: Seq<char>| #[trigger] m.contains_key(k)
                    ==> exists|i: int| 0 <= i < r->0@.len() && (#[trigger] r->0@[i]).0@ == k),
        },
{
    serde_json::from_str::<std::collections::HashMap<String, String>>(text).ok().map(|m| m.into_iter().collect())
}

/// Whether `k` names the member that holds the address.
fn is_ip_key(k: &String) -> (r: bool)
    ensures
        r == (k@ == ip_key()),
{
    let s = k.as_str();
    let r = s.unicode_len() == 2 && s.get_char(0) == 'i' && s.get_char(1) == 'p';
    assert(r == (k@ =~= ip_key()));
    r
}

/// The value of the first member named `ip`, if any.
pub fn ip_member(members: &Vec<(String, String)>) -> (r: Option<String>)
    ensures
        r is None <==> forall|j: int| 0 <= j < members@.len() ==> (#[trigger] members@[j]).0@ != ip_key(),
        r is Some ==> exists|i: int|
            0 <= i < members@.len() && (#[trigger] members@[i]).0@ == ip_key() && members@[i].1@ == r->0@
                && forall|j: int| 0 <= j < i ==> (#[trigger] members@[j]).0@ != ip_key(),
{
    let mut i: usize = 0;
    while i < members.len()
        invariant
            i <= members@.len(),
            forall|j: int| 0 <= j < i ==> (#[trigger] members@[j]).0@ != ip_key(),
        decreases members@.len() - i,
    {
        if is_ip_key(&members[i].0) {
            assert(members@[i as int].0@ == ip_key());
            return Some(members[i].1.clone());
        }
        i += 1;
    }
    None
}

/// The `ip` member of the lookup service's answer.
pub fn current_ip_from_response(body: &str) -> (r: Result<String, LookupError>)
    ensures
        match json_string_map(body@) {
            None => r == Err::<String, LookupError>(LookupError::InvalidResponse),
            Some(m) => if m.contains_key(ip_key()) {
                r is Ok && r->Ok_0@ == m[ip_key()]
            } else {
                r == Err::<String, LookupError>(LookupError::MissingIp)
            },
        },
{
    let members = match parse_string_map(body) {
        Some(v) => v,
        None => return Err(LookupError::InvalidResponse),
    };
    let ghost m = json_string_map(body@)->0;
    match ip_member(&members) {
        Some(ip) => {
            let ghost i = choose|i: int|
                0 <= i < members@.len() && (#[trigger] members@[i]).0@ == ip_key() && members@[i].1@ == ip@
                    && forall|j: int| 0 <= j < i ==> (#[trigger] members@[j]).0@ != ip_key();
            assert(m.contains_key(members@[i].0@));
            Ok(ip)
        },
        None => {
            assert(!m.contains_key(ip_key()));
            Err(LookupError::MissingIp)
        },
    }
}

} // verus!

//! Address conditions: how an address is matched against a pattern once both are parsed.

use vstd::prelude::*;

use super::{Facts, IpMatches};
use crate::text::eq_str;

verus! {

/// What parsing tells of one pattern against an address that parsed.
#[derive(Debug, Clone, Copy)]
pub struct AddressCheck {
    /// `Some(contains)` where the pattern is a network (`10.0.0.0/8`): whether it holds the address.
    pub in_network: Option<bool>,
    /// `Some(equal)` where the pattern is a single address: whether it is the same address.
    pub same_address: Option<bool>,
}

/// Whether `address` matches `pattern`. An address that does not parse matches only its own
/// text. One that parses matches a network that contains it; where the pattern is no
/// network, an equal address; anything else it does not match.
pub open spec fn address_match_of(
    address: Seq<char>,
    parsed: bool,
    pattern: Seq<char>,
    check: AddressCheck,
) -> bool {
    if !parsed {
        address == pattern
    } else {
        match check.in_network {
            Some(contains) => contains,
            None => match check.same_address {
                Some(equal) => equal,
                None => false,
            },
        }
    }
}

/// Decides whether `address` (which parsed as an address where `parsed`) matches `pattern`.
pub fn address_matches(address: &str, parsed: bool, pattern: &str, check: AddressCheck) -> (r: bool)
    ensures
        r == address_match_of(address@, parsed, pattern@, check),
{
    if !parsed {
        return eq_str(address, pattern);
    }
    match check.in_network {
        Some(contains) => contains,
        None => match check.same_address {
            Some(equal) => equal,
            None => false,
        },
    }
}

/// One address pattern of the rules, with what parsing tells of it against the client's
/// address and against the peer's.
#[derive(Debug)]
pub struct PatternCheck {
    pub pattern: String,
    pub client: AddressCheck,
    pub peer: AddressCheck,
}

/// The patterns of `checks`, in order, that `address` matches (judged by the peer's checks
/// where `peer`, else by the client's).
pub open spec fn matched_patterns(
    checks: Seq<PatternCheck>,
    address: Seq<char>,
    parsed: bool,
    peer: bool,
) -> Seq<Seq<char>>
    decreases checks.len(),
{
    if checks.len() == 0 {
        Seq::empty()
    } else {
        let rest = matched_patterns(checks.drop_last(), address, parsed, peer);
        let c = checks.last();
        let check = if peer { c.peer } else { c.client };
        if address_match_of(address, parsed, c.pattern@, check) {
            rest.push(c.pattern@)
        } else {
            rest
        }
    }
}

/// The texts of `list`.
pub open spec fn texts(list: Seq<String>) -> Seq<Seq<char>> {
    list.map_values(|s: String| s@)
}

/// Records which patterns the client's address and the peer's address match.
pub fn collect_ip_matches(
    facts: &Facts,
    client_parsed: bool,
    peer_parsed: bool,
    checks: &Vec<PatternCheck>,
) -> (r: IpMatches)
    ensures
        texts(r.client@) == matched_patterns(checks@, facts.ip@, client_parsed, false),
        texts(r.peer@) == matched_patterns(checks@, facts.peer_ip@, peer_parsed, true),
{
    let mut client: Vec<String> = Vec::new();
    let mut peer: Vec<String> = Vec::new();
    for i in 0..checks.len()
        invariant
            texts(client@) == matched_patterns(checks@.take(i as int), facts.ip@, client_parsed, false),
            texts(peer@) == matched_patterns(checks@.take(i as int), facts.peer_ip@, peer_parsed, true),
    {
        let c = &checks[i];
        assert(checks@.take(i + 1).drop_last() =~= checks@.take(i as int));
        assert(checks@.take(i + 1).last() == checks@[i as int]);
        if address_matches(facts.ip.as_str(), client_parsed, c.pattern.as_str(), c.client) {
            let p = c.pattern.clone();
            let ghost before = client@;
            client.push(p);
            assert(texts(client@) =~= texts(before).push(p@));
        }
        if address_matches(facts.peer_ip.as_str(), peer_parsed, c.pattern.as_str(), c.peer) {
            let p = c.pattern.clone();
            let ghost before = peer@;
            peer.push(p);
            assert(texts(peer@) =~= texts(before).push(p@));
        }
    }
    assert(checks@.take(checks@.len() as int) =~= checks@);
    IpMatches { client, peer }
}

/// An address that does not parse is matched by no pattern but its own text.
pub proof fn law_unparsed_address_matches_only_itself(
    checks: Seq<PatternCheck>,
    address: Seq<char>,
    peer: bool,
)
    ensures
        forall|k: int|
            0 <= k < matched_patterns(checks, address, false, peer).len() ==> #[trigger] matched_patterns(
                checks,
                address,
                false,
                peer,
            )[k] == address,
    decreases checks.len(),
{
    if checks.len() > 0 {
        let rest = matched_patterns(checks.drop_last(), address, false, peer);
        let all = matched_patterns(checks, address, false, peer);
        law_unparsed_address_matches_only_itself(checks.drop_last(), address, peer);
        assert forall|k: int| 0 <= k < all.len() implies #[trigger] all[k] == address by {
            if k < rest.len() {
                assert(all[k] == rest[k]);
            }
        }
    }
}

} // verus!

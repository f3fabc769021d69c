//! The access-rule engine: rules are tried in order and the first decisive one wins.

pub mod actions;
pub mod addresses;
pub mod conditions;

use vstd::prelude::*;

use crate::config::Rule;
use crate::text::{eq_str, list_has};
use self::addresses::texts;
use self::actions::{apply, rule_decision, Decision, DecisionView};
use self::conditions::{
    all_hold, evaluate_all, law_direct_lists_ignore_forwarding, reads_direct_fields,
};

verus! {

/// What the rules can see of a request.
#[derive(Debug, Default)]
pub struct Facts {
    pub path: String,
    pub user_agent: String,
    pub method: String,
    pub ext: String,
    pub ip: String,
    pub peer_ip: String,
}

/// One request header: its lower-case name and its first value, where that value is text.
#[derive(Debug)]
pub struct HeaderField {
    pub name: String,
    pub value: Option<String>,
}

/// The request headers, each name once.
#[derive(Debug, Default)]
pub struct Headers {
    pub fields: Vec<HeaderField>,
}

/// The address patterns that the client address, and the connection's peer address, match.
#[derive(Debug, Default)]
pub struct IpMatches {
    pub client: Vec<String>,
    pub peer: Vec<String>,
}

/// The value of the first header named `name`, where it is text.
pub open spec fn header_lookup(fields: Seq<HeaderField>, name: Seq<char>) -> Option<Seq<char>>
    decreases fields.len(),
{
    if fields.len() == 0 {
        None
    } else if fields[0].name@ == name {
        match fields[0].value {
            Some(v) => Some(v@),
            None => None,
        }
    } else {
        header_lookup(fields.drop_first(), name)
    }
}

impl Headers {
    /// The text value of the header `name` (given in lower case), if any.
    pub fn get(&self, name: &str) -> (r: Option<String>)
        ensures
            r matches Some(v) ==> header_lookup(self.fields@, name@) == Some(v@),
            r is None ==> header_lookup(self.fields@, name@) is None,
    {
        let n = self.fields.len();
        let mut i: usize = 0;
        assert(self.fields@.skip(0) =~= self.fields@);
        while i < n
            invariant
                n == self.fields@.len(),
                i <= n,
                header_lookup(self.fields@, name@) == header_lookup(
                    self.fields@.skip(i as int),
                    name@,
                ),
            decreases n - i,
        {
            assert(self.fields@.skip(i as int)[0] == self.fields@[i as int]);
            if eq_str(self.fields[i].name.as_str(), name) {
                return match &self.fields[i].value {
                    Some(v) => Some(v.clone()),
                    None => None,
                };
            }
            assert(self.fields@.skip(i as int).drop_first() =~= self.fields@.skip(i + 1));
            i = i + 1;
        }
        None
    }
}

/// The headers by which a proxy reports the visitor's address.
pub open spec fn is_forwarding_header(name: Seq<char>) -> bool {
    name == "cf-connecting-ip"@ || name == "x-real-ip"@ || name == "x-forwarded-for"@
}

/// Whether two header sets agree on every header but the forwarding ones.
pub open spec fn same_but_forwarding(a: Headers, b: Headers) -> bool {
    forall|name: Seq<char>|
        !is_forwarding_header(name) ==> #[trigger] header_lookup(a.fields@, name) == header_lookup(
            b.fields@,
            name,
        )
}

/// Whether two requests agree on every fact but the visitor's address.
pub open spec fn same_but_client(a: Facts, b: Facts) -> bool {
    &&& a.path@ == b.path@
    &&& a.user_agent@ == b.user_agent@
    &&& a.method@ == b.method@
    &&& a.ext@ == b.ext@
    &&& a.peer_ip@ == b.peer_ip@
}

/// Whether two records of address matches agree on the peer's address.
pub open spec fn same_peer_matches(a: IpMatches, b: IpMatches) -> bool {
    texts(a.peer@) == texts(b.peer@)
}

/// Lists with the same texts hold the same texts.
pub proof fn lemma_same_texts_same_members(a: Seq<String>, b: Seq<String>, target: Seq<char>)
    requires
        texts(a) == texts(b),
    ensures
        list_has(a, target) == list_has(b, target),
{
    assert(a.len() == texts(a).len() && b.len() == texts(b).len());
    if list_has(a, target) {
        let k = choose|k: int| 0 <= k < a.len() && (#[trigger] a[k])@ == target;
        assert(texts(a)[k] == a[k]@);
        assert(texts(b)[k] == b[k]@);
    }
    if list_has(b, target) {
        let k = choose|k: int| 0 <= k < b.len() && (#[trigger] b[k])@ == target;
        assert(texts(a)[k] == a[k]@);
        assert(texts(b)[k] == b[k]@);
    }
}

/// The decision of the rules `rules`: the first rule whose conditions all hold and whose
/// action is decisive gives it; `Continue` where there is none.
pub open spec fn rules_decision(
    rules: Seq<Rule>,
    facts: Facts,
    headers: Headers,
    ips: IpMatches,
) -> DecisionView
    decreases rules.len(),
{
    if rules.len() == 0 {
        DecisionView::Continue
    } else if !all_hold(rules[0].conditions@, facts, headers, ips) {
        rules_decision(rules.drop_first(), facts, headers, ips)
    } else {
        match rule_decision(rules[0], facts, headers, ips) {
            DecisionView::Continue => rules_decision(rules.drop_first(), facts, headers, ips),
            d => d,
        }
    }
}

/// Evaluates `rules` in order and returns the first decisive decision.
pub fn process_rules(rules: &Vec<Rule>, facts: &Facts, headers: &Headers, ips: &IpMatches) -> (r:
    Decision)
    ensures
        r@ == rules_decision(rules@, *facts, *headers, *ips),
{
    let n = rules.len();
    let mut i: usize = 0;
    assert(rules@.skip(0) =~= rules@);
    while i < n
        invariant
            n == rules@.len(),
            i <= n,
            rules_decision(rules@, *facts, *headers, *ips) == rules_decision(
                rules@.skip(i as int),
                *facts,
                *headers,
                *ips,
            ),
        decreases n - i,
    {
        assert(rules@.skip(i as int)[0] == rules@[i as int]);
        assert(rules@.skip(i as int).drop_first() =~= rules@.skip(i + 1));
        if evaluate_all(&rules[i].conditions, facts, headers, ips) {
            let decision = apply(&rules[i], facts, headers, ips);
            match decision {
                Decision::Continue => {},
                _ => {
                    return decision;
                },
            }
        }
        i = i + 1;
    }
    Decision::Continue
}

/// Whether rule `rule` both applies (its conditions hold) and decides (its action is not
/// `Continue`).
pub open spec fn decisive(rule: Rule, facts: Facts, headers: Headers, ips: IpMatches) -> bool {
    all_hold(rule.conditions@, facts, headers, ips) && !(rule_decision(rule, facts, headers, ips) is Continue)
}

/// Rules are evaluated in order: where rule `i` is the first that applies and decides, its
/// decision is the result, whatever the later rules say.
pub proof fn law_first_decisive_rule_wins(
    rules: Seq<Rule>,
    facts: Facts,
    headers: Headers,
    ips: IpMatches,
    i: int,
)
    requires
        0 <= i < rules.len(),
        decisive(rules[i], facts, headers, ips),
        forall|j: int| 0 <= j < i ==> !decisive(#[trigger] rules[j], facts, headers, ips),
    ensures
        rules_decision(rules, facts, headers, ips) == rule_decision(rules[i], facts, headers, ips),
    decreases i,
{
    if i > 0 {
        assert(!decisive(rules[0], facts, headers, ips));
        law_first_decisive_rule_wins(rules.drop_first(), facts, headers, ips, i - 1);
    }
}

/// Where no rule applies and decides, the request goes on (`Continue`).
pub proof fn law_no_decisive_rule_continues(
    rules: Seq<Rule>,
    facts: Facts,
    headers: Headers,
    ips: IpMatches,
)
    requires
        forall|j: int| 0 <= j < rules.len() ==> !decisive(#[trigger] rules[j], facts, headers, ips),
    ensures
        rules_decision(rules, facts, headers, ips) is Continue,
    decreases rules.len(),
{
    if rules.len() > 0 {
        assert(!decisive(rules[0], facts, headers, ips));
        assert forall|j: int| 0 <= j < rules.drop_first().len() implies !decisive(
            #[trigger] rules.drop_first()[j],
            facts,
            headers,
            ips,
        ) by {
            assert(rules.drop_first()[j] == rules[j + 1]);
        }
        law_no_decisive_rule_continues(rules.drop_first(), facts, headers, ips);
    }
}

/// Every decision other than `Continue` is that of some rule that applies.
pub proof fn law_decision_comes_from_a_rule(
    rules: Seq<Rule>,
    facts: Facts,
    headers: Headers,
    ips: IpMatches,
)
    requires
        !(rules_decision(rules, facts, headers, ips) is Continue),
    ensures
        exists|i: int|
            0 <= i < rules.len() && decisive(#[trigger] rules[i], facts, headers, ips)
                && rule_decision(rules[i], facts, headers, ips) == rules_decision(
                rules,
                facts,
                headers,
                ips,
            ),
    decreases rules.len(),
{
    if decisive(rules[0], facts, headers, ips) {
        assert(decisive(rules[0], facts, headers, ips));
    } else {
        law_decision_comes_from_a_rule(rules.drop_first(), facts, headers, ips);
        let i = choose|i: int|
            0 <= i < rules.drop_first().len() && decisive(
                #[trigger] rules.drop_first()[i],
                facts,
                headers,
                ips,
            ) && rule_decision(rules.drop_first()[i], facts, headers, ips) == rules_decision(
                rules.drop_first(),
                facts,
                headers,
                ips,
            );
        assert(rules[i + 1] == rules.drop_first()[i]);
    }
}

/// Whether a rule reads only direct fields, in its conditions and in the header conditions
/// of its access block.
pub open spec fn rule_reads_direct_fields(rule: Rule) -> bool {
    &&& forall|i: int|
        0 <= i < rule.conditions@.len() ==> reads_direct_fields(#[trigger] rule.conditions@[i])
    &&& match rule.access {
        Some(a) => forall|i: int|
            0 <= i < a.header@.len() ==> reads_direct_fields(#[trigger] a.header@[i]),
        None => true,
    }
}

/// Where every rule reads only direct fields (the peer's address, path, method, extension,
/// user agent, other headers), two requests that differ only in their forwarding headers,
/// and so in the visitor's address, get the same decision: a forwarding header cannot
/// steer such rules.
pub proof fn law_forwarding_headers_cannot_steer_rules(
    rules: Seq<Rule>,
    f1: Facts,
    f2: Facts,
    h1: Headers,
    h2: Headers,
    ips1: IpMatches,
    ips2: IpMatches,
)
    requires
        forall|i: int| 0 <= i < rules.len() ==> rule_reads_direct_fields(#[trigger] rules[i]),
        same_but_client(f1, f2),
        same_but_forwarding(h1, h2),
        same_peer_matches(ips1, ips2),
    ensures
        rules_decision(rules, f1, h1, ips1) == rules_decision(rules, f2, h2, ips2),
    decreases rules.len(),
{
    if rules.len() > 0 {
        let rule = rules[0];
        assert(rule_reads_direct_fields(rule));
        law_direct_lists_ignore_forwarding(rule.conditions@, f1, f2, h1, h2, ips1, ips2);
        if let Some(a) = rule.access {
            law_direct_lists_ignore_forwarding(a.header@, f1, f2, h1, h2, ips1, ips2);
        }
        reveal_strlit("authorization");
        reveal_strlit("cf-connecting-ip");
        reveal_strlit("x-real-ip");
        reveal_strlit("x-forwarded-for");
        assert("authorization"@.len() == 13 && "cf-connecting-ip"@.len() == 16
            && "x-real-ip"@.len() == 9 && "x-forwarded-for"@.len() == 15);
        assert(header_lookup(h1.fields@, "authorization"@) == header_lookup(
            h2.fields@,
            "authorization"@,
        ));
        assert(rule_decision(rule, f1, h1, ips1) == rule_decision(rule, f2, h2, ips2));
        let rest = rules.drop_first();
        assert forall|i: int| 0 <= i < rest.len() implies rule_reads_direct_fields(
            #[trigger] rest[i],
        ) by {
            assert(rest[i] == rules[i + 1]);
        }
        law_forwarding_headers_cannot_steer_rules(rest, f1, f2, h1, h2, ips1, ips2);
    }
}

} // verus!

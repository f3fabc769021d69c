//! Rule actions: deny, allow, and access checks.

use vstd::prelude::*;

use super::conditions::{any_holds, evaluate_any, normalize_operator, normalized};
use super::{header_lookup, Facts, Headers, IpMatches};
use crate::config::{Access, Rule};
use crate::text::{chars_of, eq_str, list_contains, list_has, string_of, trim, trim_chars, has_prefix};

verus! {

/// What a rule decides about a request.
#[derive(Debug)]
pub enum Decision {
    Continue,
    Allow,
    Deny { status: u16, message: String, rule: String },
}

/// A decision with its texts as character sequences.
pub enum DecisionView {
    Continue,
    Allow,
    Deny { status: u16, message: Seq<char>, rule: Seq<char> },
}

impl View for Decision {
    type V = DecisionView;

    open spec fn view(&self) -> DecisionView {
        match self {
            Decision::Continue => DecisionView::Continue,
            Decision::Allow => DecisionView::Allow,
            Decision::Deny { status, message, rule } => DecisionView::Deny {
                status: *status,
                message: message@,
                rule: rule@,
            },
        }
    }
}

/// The token that an `Authorization` value offers under the `Bearer` scheme: the text
/// after `Bearer `, trimmed; none for a value of another form.
pub open spec fn offered_token(value: Seq<char>) -> Option<Seq<char>> {
    if has_prefix(value, "Bearer "@) {
        Some(trim(value.skip("Bearer "@.len() as int)))
    } else {
        None
    }
}

/// Whether the `authorization` header is `Bearer <token>` with `<token>` (trimmed) one of
/// `tokens`.
pub open spec fn bearer_ok(tokens: Seq<String>, headers: Headers) -> bool {
    match header_lookup(headers.fields@, "authorization"@) {
        Some(v) => match offered_token(v) {
            Some(t) => list_has(tokens, t),
            None => false,
        },
        None => false,
    }
}

/// Whether the `authorization` header offers one of `tokens` under the `Bearer` scheme.
pub fn bearer_satisfied(tokens: &Vec<String>, headers: &Headers) -> (r: bool)
    ensures
        r == bearer_ok(tokens@, *headers),
{
    if tokens.len() == 0 {
        return false;
    }
    let value = match headers.get("authorization") {
        Some(value) => value,
        None => return false,
    };
    let vc = chars_of(value.as_str());
    let prefix = chars_of("Bearer ");
    if !crate::text::starts_with(&vc, &prefix) {
        return false;
    }
    let rest = crate::text::skip_chars(&vc, prefix.len());
    let provided = string_of(&trim_chars(&rest));
    list_contains(tokens, provided.as_str())
}

/// Whether the request satisfies an `access` block: a bearer token, or any header condition.
pub open spec fn access_ok(access: Option<Access>, facts: Facts, headers: Headers, ips: IpMatches) -> bool {
    match access {
        Some(a) => bearer_ok(a.bearer@, headers) || any_holds(a.header@, facts, headers, ips),
        None => false,
    }
}

fn access_satisfied(access: Option<&Access>, facts: &Facts, headers: &Headers, ips: &IpMatches) -> (r:
    bool)
    ensures
        r == access_ok(match access { Some(a) => Some(*a), None => None }, *facts, *headers, *ips),
{
    let access = match access {
        Some(access) => access,
        None => return false,
    };
    bearer_satisfied(&access.bearer, headers) || evaluate_any(&access.header, facts, headers, ips)
}

/// The message of `rule`, or `fallback` where it has none.
pub open spec fn message_or(rule: Rule, fallback: Seq<char>) -> Seq<char> {
    match rule.message {
        Some(m) => m@,
        None => fallback,
    }
}

/// The decision of a rule whose conditions hold.
pub open spec fn rule_decision(rule: Rule, facts: Facts, headers: Headers, ips: IpMatches) -> DecisionView {
    let action = normalized(rule.action@);
    if action == "deny"@ || action == "block"@ {
        DecisionView::Deny {
            status: match rule.status { Some(s) => s, None => 403 },
            message: message_or(rule, "Forbidden"@),
            rule: rule.name@,
        }
    } else if action == "allow"@ {
        DecisionView::Allow
    } else if action == "access"@ {
        if access_ok(rule.access, facts, headers, ips) {
            DecisionView::Continue
        } else {
            DecisionView::Deny {
                status: match rule.status { Some(s) => s, None => 401 },
                message: message_or(rule, "Unauthorized"@),
                rule: rule.name@,
            }
        }
    } else {
        DecisionView::Continue
    }
}

fn message_or_default(rule: &Rule, fallback: &str) -> (r: String)
    ensures
        r@ == message_or(*rule, fallback@),
{
    match &rule.message {
        Some(m) => m.clone(),
        None => string_of(&chars_of(fallback)),
    }
}

/// Applies the action of `rule`, whose conditions hold.
pub fn apply(rule: &Rule, facts: &Facts, headers: &Headers, ips: &IpMatches) -> (r: Decision)
    ensures
        r@ == rule_decision(*rule, *facts, *headers, *ips),
{
    let action = normalize_operator(rule.action.as_str());
    let a = action.as_str();
    if eq_str(a, "deny") || eq_str(a, "block") {
        Decision::Deny {
            status: match rule.status { Some(s) => s, None => 403 },
            message: message_or_default(rule, "Forbidden"),
            rule: rule.name.clone(),
        }
    } else if eq_str(a, "allow") {
        Decision::Allow
    } else if eq_str(a, "access") {
        let access = match &rule.access { Some(x) => Some(x), None => None };
        if access_satisfied(access, facts, headers, ips) {
            Decision::Continue
        } else {
            Decision::Deny {
                status: match rule.status { Some(s) => s, None => 401 },
                message: message_or_default(rule, "Unauthorized"),
                rule: rule.name.clone(),
            }
        }
    } else {
        Decision::Continue
    }
}

/// What each action decides for a rule whose conditions hold. `deny` and `block` refuse
/// (the rule's status, else 403; its message, else `Forbidden`); `allow` admits; `access`
/// lets the request go on exactly when its `Authorization` header is `Bearer ` followed by
/// one of the listed tokens (surrounding white space aside), or at least one of its header
/// conditions holds (none listed means none holds), and otherwise refuses (the rule's
/// status, else 401; its message, else `Unauthorized`); an `access` rule without an access
/// block always refuses.
pub proof fn law_actions(rule: Rule, facts: Facts, headers: Headers, ips: IpMatches)
    ensures
        ({
            let action = normalized(rule.action@);
            let d = rule_decision(rule, facts, headers, ips);
            let granted = match rule.access {
                Some(a) => {
                    ||| match header_lookup(headers.fields@, "authorization"@) {
                        Some(v) => "Bearer "@.len() <= v.len() && v.take(7) == "Bearer "@
                            && exists|k: int|
                            0 <= k < a.bearer@.len() && (#[trigger] a.bearer@[k])@ == trim(v.skip(7)),
                        None => false,
                    }
                    ||| exists|i: int|
                        0 <= i < a.header@.len() && #[trigger] super::conditions::node_holds(
                            a.header@[i],
                            facts,
                            headers,
                            ips,
                        )
                },
                None => false,
            };
            &&& (action == "deny"@ || action == "block"@) ==> d == DecisionView::Deny {
                status: match rule.status { Some(s) => s, None => 403 },
                message: match rule.message { Some(m) => m@, None => "Forbidden"@ },
                rule: rule.name@,
            }
            &&& action == "allow"@ ==> d == DecisionView::Allow
            &&& action == "access"@ ==> d == if granted {
                DecisionView::Continue
            } else {
                DecisionView::Deny {
                    status: match rule.status { Some(s) => s, None => 401 },
                    message: match rule.message { Some(m) => m@, None => "Unauthorized"@ },
                    rule: rule.name@,
                }
            }
        }),
{
    reveal_strlit("deny");
    reveal_strlit("block");
    reveal_strlit("allow");
    reveal_strlit("access");
    reveal_strlit("Bearer ");
    assert("deny"@.len() == 4 && "block"@.len() == 5 && "allow"@.len() == 5 && "access"@.len() == 6);
    assert("block"@[0] != "allow"@[0]);
    assert("Bearer "@.len() == 7);
}

} // verus!

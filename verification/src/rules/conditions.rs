//! Conditions: `and`/`or` groups and leaves that compare a request field with a value.

use vstd::prelude::*;

use super::{
    header_lookup, is_forwarding_header, lemma_same_texts_same_members, same_but_client,
    same_but_forwarding, same_peer_matches, Facts, Headers, IpMatches,
};
use crate::config::{ConditionNode, Value};
use crate::text::{
    chars_of, contains, ends_with, eq_str, has_infix, has_prefix, has_suffix, list_contains, occurs_at,
    list_has, spec_to_lowercase, starts_with, string_of, ascii_lowercase, ascii_lower_char,
};

verus! {

/// `s` with every `_` removed.
pub open spec fn without_underscores(s: Seq<char>) -> Seq<char>
    decreases s.len(),
{
    if s.len() == 0 {
        s
    } else if s.last() == '_' {
        without_underscores(s.drop_last())
    } else {
        without_underscores(s.drop_last()).push(s.last())
    }
}

/// An operator or action name as it is compared: lower-cased, underscores removed.
pub open spec fn normalized(operator: Seq<char>) -> Seq<char> {
    without_underscores(spec_to_lowercase(operator))
}

/// Removes the underscores of an already lower-cased operator.
pub fn operator_from_lowercase(lower: &str) -> (r: String)
    ensures
        r@ == without_underscores(lower@),
{
    let cs = chars_of(lower);
    let mut out: Vec<char> = Vec::new();
    for i in 0..cs.len()
        invariant
            cs@ == lower@,
            out@ == without_underscores(cs@.take(i as int)),
    {
        assert(cs@.take(i + 1).drop_last() =~= cs@.take(i as int));
        if cs[i] != '_' {
            out.push(cs[i]);
        }
    }
    assert(cs@.take(cs@.len() as int) =~= cs@);
    string_of(&out)
}

/// Lower-cases `operator` and removes its underscores.
pub fn normalize_operator(operator: &str) -> (r: String)
    ensures
        r@ == normalized(operator@),
        vstd::utf8::is_ascii_chars(operator@) ==> r@ == without_underscores(
            ascii_lowercase(operator@),
        ),
{
    let lower = operator.to_lowercase();
    operator_from_lowercase(lower.as_str())
}

/// Whether `pattern` is a regular expression that the `regex` crate compiles.
pub uninterp spec fn spec_regex_valid(pattern: Seq<char>) -> bool;

/// Whether the compiled `pattern` matches somewhere in `text`.
pub uninterp spec fn spec_regex_is_match(pattern: Seq<char>, text: Seq<char>) -> bool;

/// Compiles `pattern` with `regex::Regex::new` and, where that succeeds, asks
/// `Regex::is_match` whether it matches `text`. Claimed: `None` exactly when compiling
/// fails, otherwise the match answer; both depend on the two strings alone.
#[verifier::external_body]
pub(crate) fn regex_search(pattern: &str, text: &str) -> (r: Option<bool>)
    ensures
        r is Some <==> spec_regex_valid(pattern@),
        r matches Some(b) ==> b == spec_regex_is_match(pattern@, text@),
{
    match regex::Regex::new(pattern) {
        Ok(regex) => Some(regex.is_match(text)),
        Err(_) => None,
    }
}

/// The value of the request field `field`; empty for an unknown field or a missing header.
pub open spec fn field_value_of(field: Seq<char>, facts: Facts, headers: Headers) -> Seq<char> {
    if field == "ip"@ || field == "client_ip"@ {
        facts.ip@
    } else if field == "peer_ip"@ {
        facts.peer_ip@
    } else if has_prefix(field, "header:"@) {
        match header_lookup(headers.fields@, spec_to_lowercase(field.skip("header:"@.len() as int))) {
            Some(v) => v,
            None => Seq::empty(),
        }
    } else if field == "path"@ {
        facts.path@
    } else if field == "userAgent"@ || field == "user_agent"@ {
        facts.user_agent@
    } else if field == "method"@ {
        facts.method@
    } else if field == "ext"@ {
        facts.ext@
    } else {
        Seq::empty()
    }
}

/// Whether `field` names an address field, compared as addresses and networks.
pub open spec fn is_ip_field(field: Seq<char>) -> bool {
    field == "ip"@ || field == "client_ip"@ || field == "peer_ip"@
}

fn field_value(field: &str, facts: &Facts, headers: &Headers) -> (r: String)
    ensures
        r@ == field_value_of(field@, *facts, *headers),
{
    if eq_str(field, "ip") || eq_str(field, "client_ip") {
        return facts.ip.clone();
    }
    if eq_str(field, "peer_ip") {
        return facts.peer_ip.clone();
    }
    let fc = chars_of(field);
    let prefix = chars_of("header:");
    if starts_with(&fc, &prefix) {
        let rest = crate::text::skip_chars(&fc, prefix.len());
        assert(rest@ =~= field@.skip("header:"@.len() as int));
        let name = string_of(&rest);
        let lower = name.as_str().to_lowercase();
        return match headers.get(lower.as_str()) {
            Some(v) => v,
            None => String::new(),
        };
    }
    if eq_str(field, "path") {
        facts.path.clone()
    } else if eq_str(field, "userAgent") || eq_str(field, "user_agent") {
        facts.user_agent.clone()
    } else if eq_str(field, "method") {
        facts.method.clone()
    } else if eq_str(field, "ext") {
        facts.ext.clone()
    } else {
        String::new()
    }
}

/// The text of a `Text` value.
pub open spec fn text_of(value: Option<Value>) -> Option<Seq<char>> {
    match value {
        Some(Value::Text(t)) => Some(t@),
        _ => None,
    }
}

/// The list of a `List` value.
pub open spec fn list_of(value: Option<Value>) -> Option<Seq<String>> {
    match value {
        Some(Value::List(l)) => Some(l@),
        _ => None,
    }
}

fn value_text(value: &Option<Value>) -> (r: Option<&str>)
    ensures
        r matches Some(t) ==> text_of(*value) == Some(t@),
        r is None ==> text_of(*value) is None,
{
    match value {
        Some(Value::Text(text)) => Some(text.as_str()),
        _ => None,
    }
}

fn value_list(value: &Option<Value>) -> (r: Option<&Vec<String>>)
    ensures
        r matches Some(l) ==> list_of(*value) == Some(l@),
        r is None ==> list_of(*value) is None,
{
    match value {
        Some(Value::List(list)) => Some(list),
        _ => None,
    }
}

/// Whether the address of the field (the peer's where `peer`, else the client's) matches
/// `pattern`, as `ips` records it.
pub open spec fn ip_matches_of(ips: IpMatches, peer: bool, pattern: Seq<char>) -> bool {
    if peer {
        list_has(ips.peer@, pattern)
    } else {
        list_has(ips.client@, pattern)
    }
}

fn ip_matches(ips: &IpMatches, peer: bool, pattern: &str) -> (r: bool)
    ensures
        r == ip_matches_of(*ips, peer, pattern@),
{
    if peer {
        list_contains(&ips.peer, pattern)
    } else {
        list_contains(&ips.client, pattern)
    }
}

/// Whether some item of `list` matches the address of the field.
pub open spec fn ip_any_of(ips: IpMatches, peer: bool, list: Seq<String>) -> bool {
    exists|k: int| 0 <= k < list.len() && ip_matches_of(ips, peer, (#[trigger] list[k])@)
}

fn ip_any(ips: &IpMatches, peer: bool, list: &Vec<String>) -> (r: bool)
    ensures
        r == ip_any_of(*ips, peer, list@),
{
    for i in 0..list.len()
        invariant
            forall|k: int| 0 <= k < i ==> !ip_matches_of(*ips, peer, (#[trigger] list@[k])@),
    {
        if ip_matches(ips, peer, list[i].as_str()) {
            return true;
        }
    }
    false
}

/// The outcome of a leaf condition.
pub open spec fn leaf_holds(node: ConditionNode, facts: Facts, headers: Headers, ips: IpMatches) -> bool {
    match (node.field, node.operator) {
        (Some(f), Some(o)) => {
            let field = f@;
            let operator = normalized(o@);
            let resolved = field_value_of(field, facts, headers);
            let is_ip = is_ip_field(field);
            let peer = field == "peer_ip"@;
            let text = text_of(node.value);
            let list = list_of(node.value);
            if operator == "equals"@ {
                match text {
                    Some(t) => if is_ip { ip_matches_of(ips, peer, t) } else { resolved == t },
                    None => false,
                }
            } else if operator == "notequals"@ {
                match text {
                    Some(t) => if is_ip { !ip_matches_of(ips, peer, t) } else { resolved != t },
                    None => false,
                }
            } else if operator == "startswith"@ {
                match text { Some(t) => has_prefix(resolved, t), None => false }
            } else if operator == "endswith"@ {
                match text { Some(t) => has_suffix(resolved, t), None => false }
            } else if operator == "contains"@ {
                match text { Some(t) => has_infix(resolved, t), None => false }
            } else if operator == "matches"@ {
                match text {
                    Some(t) => spec_regex_valid(t) && spec_regex_is_match(t, resolved),
                    None => false,
                }
            } else if operator == "in"@ {
                match list {
                    Some(l) => if is_ip { ip_any_of(ips, peer, l) } else { list_has(l, resolved) },
                    None => false,
                }
            } else if operator == "notin"@ {
                match list {
                    Some(l) => if is_ip { !ip_any_of(ips, peer, l) } else { !list_has(l, resolved) },
                    None => false,
                }
            } else if operator == "exists"@ {
                resolved.len() != 0
            } else if operator == "notexists"@ {
                resolved.len() == 0
            } else {
                false
            }
        },
        _ => false,
    }
}

/// Evaluates a leaf condition: a field, an operator and a value.
pub fn evaluate_leaf(node: &ConditionNode, facts: &Facts, headers: &Headers, ips: &IpMatches) -> (r:
    bool)
    ensures
        r == leaf_holds(*node, *facts, *headers, *ips),
{
    let field = match &node.field {
        Some(field) => field.as_str(),
        None => return false,
    };
    let operator = match &node.operator {
        Some(operator) => normalize_operator(operator.as_str()),
        None => return false,
    };
    let op = operator.as_str();
    let resolved = field_value(field, facts, headers);
    let is_ip = eq_str(field, "ip") || eq_str(field, "client_ip") || eq_str(field, "peer_ip");
    let peer = eq_str(field, "peer_ip");
    if eq_str(op, "equals") {
        match value_text(&node.value) {
            Some(text) => if is_ip { ip_matches(ips, peer, text) } else { eq_str(resolved.as_str(), text) },
            None => false,
        }
    } else if eq_str(op, "notequals") {
        match value_text(&node.value) {
            Some(text) => if is_ip { !ip_matches(ips, peer, text) } else { !eq_str(resolved.as_str(), text) },
            None => false,
        }
    } else if eq_str(op, "startswith") {
        match value_text(&node.value) {
            Some(text) => starts_with(&chars_of(resolved.as_str()), &chars_of(text)),
            None => false,
        }
    } else if eq_str(op, "endswith") {
        match value_text(&node.value) {
            Some(text) => ends_with(&chars_of(resolved.as_str()), &chars_of(text)),
            None => false,
        }
    } else if eq_str(op, "contains") {
        match value_text(&node.value) {
            Some(text) => contains(&chars_of(resolved.as_str()), &chars_of(text)),
            None => false,
        }
    } else if eq_str(op, "matches") {
        match value_text(&node.value) {
            Some(text) => match regex_search(text, resolved.as_str()) {
                Some(found) => found,
                None => false,
            },
            None => false,
        }
    } else if eq_str(op, "in") {
        match value_list(&node.value) {
            Some(list) => if is_ip { ip_any(ips, peer, list) } else { list_contains(list, resolved.as_str()) },
            None => false,
        }
    } else if eq_str(op, "notin") {
        match value_list(&node.value) {
            Some(list) => if is_ip { !ip_any(ips, peer, list) } else { !list_contains(list, resolved.as_str()) },
            None => false,
        }
    } else if eq_str(op, "exists") {
        resolved.as_str().unicode_len() != 0
    } else if eq_str(op, "notexists") {
        resolved.as_str().unicode_len() == 0
    } else {
        false
    }
}

/// The outcome of a condition: all children of an `and` group, any child of an `or`
/// group, otherwise the leaf.
pub open spec fn node_holds(node: ConditionNode, facts: Facts, headers: Headers, ips: IpMatches) -> bool
    decreases node,
{
    match node.and {
        Some(children) => forall|i: int|
            0 <= i < children@.len() ==> node_holds(#[trigger] children@[i], facts, headers, ips),
        None => match node.or {
            Some(children) => exists|i: int|
                0 <= i < children@.len() && node_holds(#[trigger] children@[i], facts, headers, ips),
            None => leaf_holds(node, facts, headers, ips),
        },
    }
}

/// Whether every condition of `nodes` holds.
pub open spec fn all_hold(nodes: Seq<ConditionNode>, facts: Facts, headers: Headers, ips: IpMatches) -> bool {
    forall|i: int| 0 <= i < nodes.len() ==> node_holds(#[trigger] nodes[i], facts, headers, ips)
}

/// Whether some condition of `nodes` holds.
pub open spec fn any_holds(nodes: Seq<ConditionNode>, facts: Facts, headers: Headers, ips: IpMatches) -> bool {
    exists|i: int| 0 <= i < nodes.len() && node_holds(#[trigger] nodes[i], facts, headers, ips)
}

/// Whether all of `nodes` hold (the top-level list of a rule is a conjunction).
pub fn evaluate_all(nodes: &Vec<ConditionNode>, facts: &Facts, headers: &Headers, ips: &IpMatches) -> (r:
    bool)
    ensures
        r == all_hold(nodes@, *facts, *headers, *ips),
{
    for i in 0..nodes.len()
        invariant
            forall|k: int| 0 <= k < i ==> node_holds(#[trigger] nodes@[k], *facts, *headers, *ips),
    {
        if !evaluate_node(&nodes[i], facts, headers, ips) {
            return false;
        }
    }
    true
}

/// Whether some of `nodes` holds.
pub fn evaluate_any(nodes: &Vec<ConditionNode>, facts: &Facts, headers: &Headers, ips: &IpMatches) -> (r:
    bool)
    ensures
        r == any_holds(nodes@, *facts, *headers, *ips),
{
    for i in 0..nodes.len()
        invariant
            forall|k: int| 0 <= k < i ==> !node_holds(#[trigger] nodes@[k], *facts, *headers, *ips),
    {
        if evaluate_node(&nodes[i], facts, headers, ips) {
            return true;
        }
    }
    false
}

/// Evaluates one condition.
pub fn evaluate_node(node: &ConditionNode, facts: &Facts, headers: &Headers, ips: &IpMatches) -> (r:
    bool)
    ensures
        r == node_holds(*node, *facts, *headers, *ips),
    decreases *node,
{
    if let Some(children) = &node.and {
        let mut i: usize = 0;
        while i < children.len()
            invariant
                node.and == Some(*children),
                forall|k: int| 0 <= k < i ==> node_holds(#[trigger] children@[k], *facts, *headers, *ips),
            decreases children@.len() - i,
        {
            proof {
                let ch = *children;
                assert(decreases_to!(*node => ch@[i as int])) by {
                    assert(decreases_to!(*node => node.and));
                    assert(decreases_to!(node.and => node.and->0));
                    assert(decreases_to!(ch => ch@));
                    assert(decreases_to!(ch@ => ch@[i as int]));
                }
            }
            if !evaluate_node(&children[i], facts, headers, ips) {
                assert(!node_holds(children@[i as int], *facts, *headers, *ips));
                assert(node.and->0@[i as int] == children@[i as int]);
                assert(!node_holds(*node, *facts, *headers, *ips));
                return false;
            }
            i = i + 1;
        }
        return true;
    }
    if let Some(children) = &node.or {
        let mut i: usize = 0;
        while i < children.len()
            invariant
                node.and is None,
                node.or == Some(*children),
                forall|k: int| 0 <= k < i ==> !node_holds(#[trigger] children@[k], *facts, *headers, *ips),
            decreases children@.len() - i,
        {
            proof {
                let ch = *children;
                assert(decreases_to!(*node => ch@[i as int])) by {
                    assert(decreases_to!(*node => node.or));
                    assert(decreases_to!(node.or => node.or->0));
                    assert(decreases_to!(ch => ch@));
                    assert(decreases_to!(ch@ => ch@[i as int]));
                }
            }
            if evaluate_node(&children[i], facts, headers, ips) {
                assert(node_holds(children@[i as int], *facts, *headers, *ips));
                assert(node.or->0@[i as int] == children@[i as int]);
                assert(node_holds(*node, *facts, *headers, *ips));
                return true;
            }
            i = i + 1;
        }
        return false;
    }
    evaluate_leaf(node, facts, headers, ips)
}

/// A normalised operator holds no underscore: `not_in`, `NOT_IN` and `notin` are compared
/// alike once lower-cased.
pub proof fn law_normalized_has_no_underscore(operator: Seq<char>)
    ensures
        !normalized(operator).contains('_'),
{
    lemma_without_underscores(spec_to_lowercase(operator));
}

proof fn lemma_without_underscores(s: Seq<char>)
    ensures
        !without_underscores(s).contains('_'),
    decreases s.len(),
{
    if s.len() > 0 {
        lemma_without_underscores(s.drop_last());
        let p = without_underscores(s.drop_last());
        if s.last() != '_' {
            assert forall|k: int| 0 <= k < p.push(s.last()).len() implies p.push(s.last())[k] != '_' by {
                if k < p.len() {
                    assert(!p.contains('_'));
                    assert(p[k] != '_');
                }
            }
        }
    }
}


/// Folding ASCII case and removing underscores can be done in either order.
pub proof fn lemma_fold_and_strip_commute(s: Seq<char>)
    ensures
        without_underscores(ascii_lowercase(s)) == ascii_lowercase(without_underscores(s)),
    decreases s.len(),
{
    if s.len() > 0 {
        lemma_fold_and_strip_commute(s.drop_last());
        assert(ascii_lowercase(s).drop_last() =~= ascii_lowercase(s.drop_last()));
        assert(ascii_lowercase(s).last() == ascii_lower_char(s.last()));
        if s.last() != '_' {
            assert(ascii_lowercase(without_underscores(s.drop_last()).push(s.last())) =~= ascii_lowercase(
                without_underscores(s.drop_last()),
            ).push(ascii_lower_char(s.last())));
        }
    } else {
        assert(ascii_lowercase(s) =~= s);
    }
}

/// Operators ignore letter case and underscores: two ASCII spellings that are equal once
/// case is folded and underscores are dropped (`starts_with`, `StartsWith`, `STARTS_WITH`)
/// normalise alike, and the normal form holds no upper-case letter and no underscore.
pub proof fn law_operators_ignore_case_and_underscores(a: Seq<char>, b: Seq<char>)
    requires
        ascii_lowercase(without_underscores(a)) == ascii_lowercase(without_underscores(b)),
    ensures
        without_underscores(ascii_lowercase(a)) == without_underscores(ascii_lowercase(b)),
        !without_underscores(ascii_lowercase(a)).contains('_'),
        forall|k: int|
            0 <= k < without_underscores(ascii_lowercase(a)).len() ==> !('A' <= #[trigger] without_underscores(
                ascii_lowercase(a),
            )[k] && without_underscores(ascii_lowercase(a))[k] <= 'Z'),
{
    lemma_fold_and_strip_commute(a);
    lemma_fold_and_strip_commute(b);
    lemma_without_underscores(ascii_lowercase(a));
    let n = ascii_lowercase(without_underscores(a));
    assert forall|k: int| 0 <= k < n.len() implies !('A' <= #[trigger] n[k] && n[k] <= 'Z') by {
        assert(n[k] == ascii_lower_char(without_underscores(a)[k]));
    }
}

/// A leaf depends on its operator only through the operator's normal form.
pub proof fn law_leaf_depends_on_normalized_operator(
    n1: ConditionNode,
    n2: ConditionNode,
    facts: Facts,
    headers: Headers,
    ips: IpMatches,
)
    requires
        n1.field == n2.field,
        n1.value == n2.value,
        n1.operator is Some,
        n2.operator is Some,
        normalized(n1.operator->0@) == normalized(n2.operator->0@),
    ensures
        leaf_holds(n1, facts, headers, ips) == leaf_holds(n2, facts, headers, ips),
{
}

/// `notin` is the negation of `in`, and `notequals` that of `equals`, on the same field and
/// value (where the value has the right form: a list, a text); membership and equality are
/// those of the field's value for fields that are not addresses.
pub proof fn law_negated_operators(
    field: String,
    value: Option<Value>,
    positive: String,
    negative: String,
    facts: Facts,
    headers: Headers,
    ips: IpMatches,
)
    requires
        (normalized(positive@) == "in"@ && normalized(negative@) == "notin"@ && value matches Some(
            Value::List(_),
        )) || (normalized(positive@) == "equals"@ && normalized(negative@) == "notequals"@
            && value matches Some(Value::Text(_))),
    ensures
        ({
            let p = ConditionNode { and: None, or: None, field: Some(field), operator: Some(positive), value };
            let n = ConditionNode { and: None, or: None, field: Some(field), operator: Some(negative), value };
            &&& leaf_holds(n, facts, headers, ips) == !leaf_holds(p, facts, headers, ips)
            &&& !is_ip_field(field@) && normalized(positive@) == "in"@ ==> leaf_holds(p, facts, headers, ips)
                == list_has(list_of(value)->0, field_value_of(field@, facts, headers))
            &&& !is_ip_field(field@) && normalized(positive@) == "equals"@ ==> leaf_holds(p, facts, headers, ips)
                == (field_value_of(field@, facts, headers) == text_of(value)->0)
        }),
{
    reveal_strlit("equals");
    reveal_strlit("notequals");
    reveal_strlit("startswith");
    reveal_strlit("endswith");
    reveal_strlit("contains");
    reveal_strlit("matches");
    reveal_strlit("in");
    reveal_strlit("notin");
    let p = ConditionNode { and: None, or: None, field: Some(field), operator: Some(positive), value };
    let n = ConditionNode { and: None, or: None, field: Some(field), operator: Some(negative), value };
    assert("in"@.len() == 2 && "notin"@.len() == 5 && "equals"@.len() == 6 && "notequals"@.len() == 9);
    assert("startswith"@.len() == 10 && "endswith"@.len() == 8 && "contains"@.len() == 8
        && "matches"@.len() == 7);
    assert(leaf_holds(n, facts, headers, ips) == !leaf_holds(p, facts, headers, ips));
}

/// Whether a field is one that no forwarding header sets: the peer's address, the path,
/// the method, the extension, the user agent, or a header other than the forwarding ones.
pub open spec fn is_direct_field(field: Seq<char>) -> bool {
    ||| field == "peer_ip"@
    ||| field == "path"@
    ||| field == "method"@
    ||| field == "ext"@
    ||| field == "userAgent"@
    ||| field == "user_agent"@
    ||| has_prefix(field, "header:"@) && !is_forwarding_header(
        spec_to_lowercase(field.skip("header:"@.len() as int)),
    )
}

/// Whether every leaf of `node` reads a direct field.
pub open spec fn reads_direct_fields(node: ConditionNode) -> bool
    decreases node,
{
    match node.and {
        Some(children) => forall|i: int|
            0 <= i < children@.len() ==> reads_direct_fields(#[trigger] children@[i]),
        None => match node.or {
            Some(children) => forall|i: int|
                0 <= i < children@.len() ==> reads_direct_fields(#[trigger] children@[i]),
            None => match node.field {
                Some(f) => is_direct_field(f@),
                None => true,
            },
        },
    }
}

proof fn lemma_direct_leaf(
    node: ConditionNode,
    f1: Facts,
    f2: Facts,
    h1: Headers,
    h2: Headers,
    ips1: IpMatches,
    ips2: IpMatches,
)
    requires
        node.field matches Some(f) ==> is_direct_field(f@),
        same_but_client(f1, f2),
        same_but_forwarding(h1, h2),
        same_peer_matches(ips1, ips2),
    ensures
        leaf_holds(node, f1, h1, ips1) == leaf_holds(node, f2, h2, ips2),
{
    assert forall|p: Seq<char>| #[trigger] list_has(ips1.peer@, p) == list_has(ips2.peer@, p) by {
        lemma_same_texts_same_members(ips1.peer@, ips2.peer@, p);
    }
    reveal_strlit("header:");
    reveal_strlit("ip");
    reveal_strlit("client_ip");
    reveal_strlit("peer_ip");
    reveal_strlit("path");
    reveal_strlit("method");
    reveal_strlit("ext");
    reveal_strlit("userAgent");
    reveal_strlit("user_agent");
    if let Some(f) = node.field {
        let field = f@;
        if field.len() >= 7 && field[0] == 'h' {
            assert(field != "peer_ip"@ && field != "userAgent"@ && field != "user_agent"@);
        }
        if has_prefix(field, "header:"@) {
            assert(field.take(7)[0] == field[0] && "header:"@[0] == 'h');
            let name = spec_to_lowercase(field.skip("header:"@.len() as int));
            assert(header_lookup(h1.fields@, name) == header_lookup(h2.fields@, name));
        }
        assert(field_value_of(field, f1, h1) == field_value_of(field, f2, h2));
    }
}

/// A condition that reads only direct fields comes out the same for two requests that
/// differ only in their forwarding headers and in the visitor's address derived from them:
/// those headers cannot steer it.
pub proof fn law_direct_conditions_ignore_forwarding(
    node: ConditionNode,
    f1: Facts,
    f2: Facts,
    h1: Headers,
    h2: Headers,
    ips1: IpMatches,
    ips2: IpMatches,
)
    requires
        reads_direct_fields(node),
        same_but_client(f1, f2),
        same_but_forwarding(h1, h2),
        same_peer_matches(ips1, ips2),
    ensures
        node_holds(node, f1, h1, ips1) == node_holds(node, f2, h2, ips2),
    decreases node,
{
    match node.and {
        Some(children) => {
            assert forall|i: int| 0 <= i < children@.len() implies node_holds(
                #[trigger] children@[i],
                f1,
                h1,
                ips1,
            ) == node_holds(children@[i], f2, h2, ips2) by {
                law_direct_conditions_ignore_forwarding(children@[i], f1, f2, h1, h2, ips1, ips2);
            }
        },
        None => match node.or {
            Some(children) => {
                assert forall|i: int| 0 <= i < children@.len() implies node_holds(
                    #[trigger] children@[i],
                    f1,
                    h1,
                    ips1,
                ) == node_holds(children@[i], f2, h2, ips2) by {
                    law_direct_conditions_ignore_forwarding(children@[i], f1, f2, h1, h2, ips1, ips2);
                }
            },
            None => lemma_direct_leaf(node, f1, f2, h1, h2, ips1, ips2),
        },
    }
}

/// `law_direct_conditions_ignore_forwarding` for every condition of a list: the list's
/// conjunction and disjunction come out the same.
pub proof fn law_direct_lists_ignore_forwarding(
    nodes: Seq<ConditionNode>,
    f1: Facts,
    f2: Facts,
    h1: Headers,
    h2: Headers,
    ips1: IpMatches,
    ips2: IpMatches,
)
    requires
        forall|i: int| 0 <= i < nodes.len() ==> reads_direct_fields(#[trigger] nodes[i]),
        same_but_client(f1, f2),
        same_but_forwarding(h1, h2),
        same_peer_matches(ips1, ips2),
    ensures
        all_hold(nodes, f1, h1, ips1) == all_hold(nodes, f2, h2, ips2),
        any_holds(nodes, f1, h1, ips1) == any_holds(nodes, f2, h2, ips2),
{
    assert forall|i: int| 0 <= i < nodes.len() implies node_holds(#[trigger] nodes[i], f1, h1, ips1)
        == node_holds(nodes[i], f2, h2, ips2) by {
        law_direct_conditions_ignore_forwarding(nodes[i], f1, f2, h1, h2, ips1, ips2);
    }
}

/// The text operators mean what their names say, for every field and value. With `v` the
/// field's value and `t` a text value: `starts_with` holds exactly when the first `|t|`
/// characters of `v` are `t`; `ends_with` exactly when its last `|t|` characters are `t`
/// (so a `t` met elsewhere in `v` does not count); `contains` exactly when `t` occurs at some
/// position of `v`; `equals` (on a field that is not an address) exactly when `v` is `t`;
/// `exists` when `v` is not empty and `not_exists` when it is. Any of these with a value
/// that is not a text is false, except the last two, which read no value.
pub proof fn law_text_operators(node: ConditionNode, facts: Facts, headers: Headers, ips: IpMatches)
    requires
        node.field is Some,
        node.operator is Some,
    ensures
        ({
            let v = field_value_of(node.field->0@, facts, headers);
            let op = normalized(node.operator->0@);
            let holds = leaf_holds(node, facts, headers, ips);
            &&& op == "startswith"@ ==> (holds <==> match node.value {
                Some(Value::Text(t)) => t@.len() <= v.len() && v.subrange(0, t@.len() as int) == t@,
                _ => false,
            })
            &&& op == "endswith"@ ==> (holds <==> match node.value {
                Some(Value::Text(t)) => t@.len() <= v.len() && v.subrange(
                    v.len() - t@.len(),
                    v.len() as int,
                ) == t@,
                _ => false,
            })
            &&& op == "contains"@ ==> (holds <==> match node.value {
                Some(Value::Text(t)) => exists|i: int|
                    0 <= i && i + t@.len() <= v.len() && #[trigger] v.subrange(i, i + t@.len()) == t@,
                _ => false,
            })
            &&& op == "equals"@ && !is_ip_field(node.field->0@) ==> (holds <==> match node.value {
                Some(Value::Text(t)) => v == t@,
                _ => false,
            })
            &&& op == "exists"@ ==> (holds <==> v.len() > 0)
            &&& op == "notexists"@ ==> (holds <==> v.len() == 0)
        }),
{
    reveal_strlit("equals");
    reveal_strlit("notequals");
    reveal_strlit("startswith");
    reveal_strlit("endswith");
    reveal_strlit("contains");
    reveal_strlit("matches");
    reveal_strlit("in");
    reveal_strlit("notin");
    reveal_strlit("exists");
    reveal_strlit("notexists");
    assert("in"@.len() == 2 && "notin"@.len() == 5 && "equals"@.len() == 6 && "notequals"@.len() == 9);
    assert("startswith"@.len() == 10 && "endswith"@.len() == 8 && "contains"@.len() == 8
        && "matches"@.len() == 7 && "exists"@.len() == 6 && "notexists"@.len() == 9);
    assert("endswith"@[0] != "contains"@[0]);
    assert("exists"@[1] != "equals"@[1]);
    assert("notexists"@[4] != "notequals"@[4]);
    let v = field_value_of(node.field->0@, facts, headers);
    let op = normalized(node.operator->0@);
    if let Some(Value::Text(t)) = node.value {
        assert(v.take(t@.len() as int) =~= v.subrange(0, t@.len() as int));
        if t@.len() <= v.len() {
            assert(v.skip(v.len() - t@.len()) =~= v.subrange(v.len() - t@.len(), v.len() as int));
        }
        if op == "contains"@ {
            if has_infix(v, t@) {
                let i = choose|i: int| occurs_at(v, t@, i);
                assert(v.subrange(i, i + t@.len()) == t@);
            }
            if exists|i: int| 0 <= i && i + t@.len() <= v.len() && #[trigger] v.subrange(i, i + t@.len()) == t@ {
                let i = choose|i: int| 0 <= i && i + t@.len() <= v.len() && #[trigger] v.subrange(i, i + t@.len()) == t@;
                assert(occurs_at(v, t@, i));
            }
        }
    }
}

/// Each request field reads the fact of its name: `path`, `method`, `ext`, `user_agent`
/// (or `userAgent`), `ip` (or `client_ip`) for the visitor's address and `peer_ip` for the
/// connection's.
pub proof fn law_fields_read_their_facts(facts: Facts, headers: Headers)
    ensures
        field_value_of("path"@, facts, headers) == facts.path@,
        field_value_of("method"@, facts, headers) == facts.method@,
        field_value_of("ext"@, facts, headers) == facts.ext@,
        field_value_of("user_agent"@, facts, headers) == facts.user_agent@,
        field_value_of("userAgent"@, facts, headers) == facts.user_agent@,
        field_value_of("ip"@, facts, headers) == facts.ip@,
        field_value_of("client_ip"@, facts, headers) == facts.ip@,
        field_value_of("peer_ip"@, facts, headers) == facts.peer_ip@,
{
    reveal_strlit("header:");
    reveal_strlit("ip");
    reveal_strlit("client_ip");
    reveal_strlit("peer_ip");
    reveal_strlit("path");
    reveal_strlit("method");
    reveal_strlit("ext");
    reveal_strlit("userAgent");
    reveal_strlit("user_agent");
    assert("header:"@[0] == 'h');
    assert("userAgent"@.take(7)[0] == 'u' && "user_agent"@.take(7)[0] == 'u'
        && "peer_ip"@.take(7)[0] == 'p');
    assert("user_agent"@[4] != "userAgent"@[4]);
}

/// Address fields compare as addresses, through the matches recorded for the request: with
/// `rec` the patterns that the visitor's address matches (for `ip`, `client_ip`) or the
/// peer's (for `peer_ip`), `equals t` holds exactly when `t` is among them, `not_equals t`
/// exactly when it is not, and `in l` exactly when some item of `l` is among them.
pub proof fn law_address_operators(
    node: ConditionNode,
    facts: Facts,
    headers: Headers,
    ips: IpMatches,
)
    requires
        node.field is Some,
        node.operator is Some,
    ensures
        ({
            let f = node.field->0@;
            let op = normalized(node.operator->0@);
            let holds = leaf_holds(node, facts, headers, ips);
            let rec = if f == "peer_ip"@ { ips.peer@ } else { ips.client@ };
            let address = f == "ip"@ || f == "client_ip"@ || f == "peer_ip"@;
            &&& address && op == "equals"@ ==> (holds <==> match node.value {
                Some(Value::Text(t)) => list_has(rec, t@),
                _ => false,
            })
            &&& address && op == "notequals"@ ==> (holds <==> match node.value {
                Some(Value::Text(t)) => !list_has(rec, t@),
                _ => false,
            })
            &&& address && op == "in"@ ==> (holds <==> match node.value {
                Some(Value::List(l)) => exists|i: int|
                    0 <= i < l@.len() && list_has(rec, (#[trigger] l@[i])@),
                _ => false,
            })
        }),
{
    reveal_strlit("equals");
    reveal_strlit("notequals");
    reveal_strlit("startswith");
    reveal_strlit("endswith");
    reveal_strlit("contains");
    reveal_strlit("matches");
    reveal_strlit("in");
    assert("in"@.len() == 2 && "equals"@.len() == 6 && "notequals"@.len() == 9);
    assert("startswith"@.len() == 10 && "endswith"@.len() == 8 && "contains"@.len() == 8
        && "matches"@.len() == 7);
    reveal_strlit("ip");
    reveal_strlit("client_ip");
    reveal_strlit("peer_ip");
    assert("ip"@.len() == 2 && "client_ip"@.len() == 9 && "peer_ip"@.len() == 7);
    let f = node.field->0@;
    let peer = f == "peer_ip"@;
    let rec = if peer { ips.peer@ } else { ips.client@ };
    if f == "ip"@ || f == "client_ip"@ || f == "peer_ip"@ {
        assert(is_ip_field(f));
        let op = normalized(node.operator->0@);
        let holds = leaf_holds(node, facts, headers, ips);
        match node.value {
            Some(Value::Text(t)) => {
                assert(ip_matches_of(ips, peer, t@) == list_has(rec, t@));
                if op == "equals"@ {
                    assert(holds == list_has(rec, t@));
                } else if op == "notequals"@ {
                    assert(holds == !list_has(rec, t@));
                } else if op == "in"@ {
                    assert(!holds);
                }
            },
            Some(Value::List(l)) => {
                assert(ip_any_of(ips, peer, l@) == exists|i: int|
                    0 <= i < l@.len() && list_has(rec, (#[trigger] l@[i])@));
                if op == "in"@ {
                    assert(holds == ip_any_of(ips, peer, l@));
                } else if op == "equals"@ || op == "notequals"@ {
                    assert(!holds);
                }
            },
            None => {
                assert(op == "equals"@ || op == "notequals"@ || op == "in"@ ==> !holds);
            },
        }
    }
}

/// `matches t`, on any field, holds exactly when `t` compiles as a regular expression and
/// matches somewhere in the field's value; with a value that is not a text it is false.
pub proof fn law_pattern_operator(node: ConditionNode, facts: Facts, headers: Headers, ips: IpMatches)
    requires
        node.field is Some,
        node.operator is Some,
        normalized(node.operator->0@) == "matches"@,
    ensures
        leaf_holds(node, facts, headers, ips) <==> match node.value {
            Some(Value::Text(t)) => spec_regex_valid(t@) && spec_regex_is_match(
                t@,
                field_value_of(node.field->0@, facts, headers),
            ),
            _ => false,
        },
{
    reveal_strlit("equals");
    reveal_strlit("notequals");
    reveal_strlit("startswith");
    reveal_strlit("endswith");
    reveal_strlit("contains");
    reveal_strlit("matches");
    assert("equals"@.len() == 6 && "notequals"@.len() == 9 && "startswith"@.len() == 10
        && "endswith"@.len() == 8 && "contains"@.len() == 8 && "matches"@.len() == 7);
}

} // verus!

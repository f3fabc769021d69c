//! The configuration model: global settings, directory listing and access rules.

use vstd::prelude::*;

use crate::rules::conditions::{is_ip_field, normalize_operator, normalized, regex_search, spec_regex_valid};
use crate::text::eq_str;

verus! {

/// Global server settings.
#[derive(Clone, Debug, Default)]
pub struct Global {
    pub port: Option<u16>,
}

/// Which directories may be listed.
#[derive(Clone, Debug, Default)]
pub struct DirectoryListing {
    pub enabled: bool,
    pub allowed_paths: Vec<String>,
}

/// One access rule: conditions, an action, and what a denial answers.
#[derive(Debug, Default)]
pub struct Rule {
    pub name: String,
    pub conditions: Vec<ConditionNode>,
    pub action: String,
    pub message: Option<String>,
    pub status: Option<u16>,
    pub access: Option<Access>,
}

/// A condition: an `and` group, an `or` group, or a leaf comparing a field with a value.
#[derive(Debug, Default)]
pub struct ConditionNode {
    pub and: Option<Vec<ConditionNode>>,
    pub or: Option<Vec<ConditionNode>>,
    pub field: Option<String>,
    pub operator: Option<String>,
    pub value: Option<Value>,
}

/// What an `access` rule accepts: bearer tokens, or header conditions.
#[derive(Debug, Default)]
pub struct Access {
    pub bearer: Vec<String>,
    pub header: Vec<ConditionNode>,
}

/// A condition's value: one text or a list of texts.
#[derive(Debug)]
pub enum Value {
    List(Vec<String>),
    Text(String),
}

/// The whole configuration.
#[derive(Debug, Default)]
pub struct Config {
    pub global: Global,
    pub directory_listing: DirectoryListing,
    pub rules: Vec<Rule>,
}

/// Whether `node` is a leaf whose operator is `matches`.
pub open spec fn is_matches(node: ConditionNode) -> bool {
    match node.operator {
        Some(o) => normalized(o@) == "matches"@,
        None => false,
    }
}

/// The regular expressions of `node` and its groups: those of its `and` children, of its
/// `or` children, then its own where it is a `matches` leaf with a text value.
pub open spec fn node_patterns(node: ConditionNode) -> Seq<Seq<char>>
    decreases node, 1int,
{
    (match node.and {
        Some(c) => nodes_patterns(c@),
        None => Seq::empty(),
    }) + (match node.or {
        Some(c) => nodes_patterns(c@),
        None => Seq::empty(),
    }) + own_patterns(node)
}

/// The regular expressions of an optional group of conditions.
pub open spec fn group_patterns(group: Option<Vec<ConditionNode>>) -> Seq<Seq<char>> {
    match group {
        Some(c) => nodes_patterns(c@),
        None => Seq::empty(),
    }
}

/// The pattern of `node` itself, where it is a `matches` leaf with a text value.
pub open spec fn own_patterns(node: ConditionNode) -> Seq<Seq<char>> {
    match node.value {
        Some(Value::Text(t)) => if is_matches(node) { seq![t@] } else { Seq::empty() },
        _ => Seq::empty(),
    }
}

/// The regular expressions of `nodes`, in order.
pub open spec fn nodes_patterns(nodes: Seq<ConditionNode>) -> Seq<Seq<char>>
    decreases nodes, 0int,
{
    if nodes.len() == 0 {
        Seq::empty()
    } else {
        nodes_patterns(nodes.drop_last()) + node_patterns(nodes.last())
    }
}

/// The texts of a list of strings.
pub open spec fn texts(v: Seq<String>) -> Seq<Seq<char>> {
    v.map_values(|x: String| x@)
}

fn push_text(out: &mut Vec<String>, x: String)
    ensures
        texts(final(out)@) == texts(old(out)@).push(x@),
{
    let ghost before = out@;
    out.push(x);
    assert(texts(out@) =~= texts(before).push(x@));
}

fn is_matches_node(node: &ConditionNode) -> (r: bool)
    ensures
        r == is_matches(*node),
{
    match &node.operator {
        Some(o) => eq_str(normalize_operator(o.as_str()).as_str(), "matches"),
        None => false,
    }
}

/// Appends the regular expressions of `nodes` to `patterns`.
pub fn collect_patterns(nodes: &Vec<ConditionNode>, patterns: &mut Vec<String>)
    ensures
        texts(final(patterns)@) == texts(old(patterns)@) + nodes_patterns(nodes@),
    decreases nodes@,
{
    let ghost start = texts(patterns@);
    for i in 0..nodes.len()
        invariant
            texts(patterns@) == start + nodes_patterns(nodes@.take(i as int)),
    {
        let node = &nodes[i];
        let ghost mid = texts(patterns@);
        let ghost and_part = group_patterns(node.and);
        let ghost or_part = group_patterns(node.or);
        proof {
            assert(nodes@.take(i + 1).drop_last() =~= nodes@.take(i as int));
        }
        if let Some(children) = &node.and {
            proof {
                assert(decreases_to!(nodes@ => nodes@[i as int]));
                assert(decreases_to!(nodes@[i as int] => nodes@[i as int].and));
                assert(decreases_to!(nodes@[i as int].and => nodes@[i as int].and->0));
            }
            collect_patterns(children, patterns);
        }
        assert(texts(patterns@) == mid + and_part);
        let ghost after_and = texts(patterns@);
        if let Some(children) = &node.or {
            proof {
                assert(decreases_to!(nodes@ => nodes@[i as int]));
                assert(decreases_to!(nodes@[i as int] => nodes@[i as int].or));
                assert(decreases_to!(nodes@[i as int].or => nodes@[i as int].or->0));
            }
            collect_patterns(children, patterns);
        }
        assert(texts(patterns@) == after_and + or_part);
        let ghost after_or = texts(patterns@);
        if is_matches_node(node) {
            if let Some(Value::Text(text)) = &node.value {
                push_text(patterns, text.clone());
            }
        }
        assert(texts(patterns@) == after_or + own_patterns(*node));
        assert(node_patterns(*node) == and_part + or_part + own_patterns(*node));
        assert(texts(patterns@) =~= mid + node_patterns(nodes@[i as int]));
    }
    assert(nodes@.take(nodes@.len() as int) =~= nodes@);
}

/// The regular expressions of a rule: those of its conditions, then those of its access
/// header conditions.
pub open spec fn rule_patterns(rule: Rule) -> Seq<Seq<char>> {
    nodes_patterns(rule.conditions@) + match rule.access {
        Some(a) => nodes_patterns(a.header@),
        None => Seq::empty(),
    }
}

/// The regular expressions of all rules, in order.
pub open spec fn rules_patterns(rules: Seq<Rule>) -> Seq<Seq<char>>
    decreases rules.len(),
{
    if rules.len() == 0 {
        Seq::empty()
    } else {
        rules_patterns(rules.drop_last()) + rule_patterns(rules.last())
    }
}

/// The regular expressions that rules use, once each.
#[derive(Debug, Default)]
pub struct RegexCache {
    /// The distinct patterns that compile, in order of first use.
    pub patterns: Vec<String>,
    /// Each use of a pattern that does not compile, in order.
    pub rejected: Vec<String>,
}

/// Caching `ps` in order: a cached pattern is skipped, one that compiles is cached, one that
/// does not is rejected.
pub open spec fn cache_of(ps: Seq<Seq<char>>) -> (Seq<Seq<char>>, Seq<Seq<char>>)
    decreases ps.len(),
{
    if ps.len() == 0 {
        (Seq::empty(), Seq::empty())
    } else {
        let (cached, rejected) = cache_of(ps.drop_last());
        let p = ps.last();
        if cached.contains(p) {
            (cached, rejected)
        } else if spec_regex_valid(p) {
            (cached.push(p), rejected)
        } else {
            (cached, rejected.push(p))
        }
    }
}

/// Collects the regular expressions of `rules` and keeps each that compiles, once.
pub fn build_regex_cache(rules: &Vec<Rule>) -> (r: RegexCache)
    ensures
        (texts(r.patterns@), texts(r.rejected@)) == cache_of(rules_patterns(rules@)),
{
    let mut patterns: Vec<String> = Vec::new();
    for i in 0..rules.len()
        invariant
            texts(patterns@) == rules_patterns(rules@.take(i as int)),
    {
        assert(rules@.take(i + 1).drop_last() =~= rules@.take(i as int));
        collect_patterns(&rules[i].conditions, &mut patterns);
        if let Some(access) = &rules[i].access {
            collect_patterns(&access.header, &mut patterns);
        }
        assert(texts(patterns@) =~= rules_patterns(rules@.take(i + 1)));
    }
    assert(rules@.take(rules@.len() as int) =~= rules@);
    let ghost all = texts(patterns@);
    let mut cached: Vec<String> = Vec::new();
    let mut rejected: Vec<String> = Vec::new();
    for i in 0..patterns.len()
        invariant
            texts(patterns@) == all,
            (texts(cached@), texts(rejected@)) == cache_of(all.take(i as int)),
    {
        assert(all.take(i + 1).drop_last() =~= all.take(i as int));
        assert(all[i as int] == patterns@[i as int]@);
        let p = patterns[i].as_str();
        let known = crate::text::list_contains(&cached, p);
        proof {
            assert(known == texts(cached@).contains(p@)) by {
                if known {
                    let k = choose|k: int| 0 <= k < cached@.len() && (#[trigger] cached@[k])@ == p@;
                    assert(texts(cached@)[k] == p@);
                }
                if texts(cached@).contains(p@) {
                    let k = choose|k: int| 0 <= k < texts(cached@).len() && texts(cached@)[k] == p@;
                    assert(cached@[k]@ == p@);
                }
            }
        }
        if !known {
            let compiles = match regex_search(p, "") {
                Some(_) => true,
                None => false,
            };
            if compiles {
                push_text(&mut cached, patterns[i].clone());
            } else {
                push_text(&mut rejected, patterns[i].clone());
            }
        }
    }
    assert(all.take(patterns@.len() as int) =~= all);
    RegexCache { patterns: cached, rejected }
}

/// `regex::Regex`, known here only by its size.
#[verifier::external_type_specification]
#[verifier::external_body]
pub struct ExRegex(regex::Regex);

/// The length in bytes of a string's UTF-8 text, as `str::len` reports it.
pub open spec fn byte_len(s: String) -> nat {
    (vstd::utf8::encode_utf8(s@).len() as usize) as nat
}

/// The byte length of an optional string, 0 where absent.
pub open spec fn opt_len(s: Option<String>) -> nat {
    match s {
        Some(t) => byte_len(t),
        None => 0,
    }
}

/// The summed byte lengths of strings.
pub open spec fn lens_sum(v: Seq<String>) -> nat
    decreases v.len(),
{
    if v.len() == 0 {
        0
    } else {
        lens_sum(v.drop_last()) + byte_len(v.last())
    }
}

/// The text held by a value.
pub open spec fn value_size(v: Value) -> nat {
    match v {
        Value::Text(t) => byte_len(t),
        Value::List(l) => lens_sum(l@),
    }
}

/// The estimated memory of a condition and its groups: its own size, its texts, and its
/// children.
pub open spec fn node_size(node: ConditionNode) -> nat
    decreases node, 1int,
{
    vstd::layout::size_of::<ConditionNode>() + opt_len(node.field) + opt_len(node.operator) + (
    match node.value {
        Some(v) => value_size(v),
        None => 0,
    }) + (match node.and {
        Some(c) => nodes_size(c@),
        None => 0,
    }) + (match node.or {
        Some(c) => nodes_size(c@),
        None => 0,
    })
}

/// The estimated memory of a list of conditions.
pub open spec fn nodes_size(nodes: Seq<ConditionNode>) -> nat
    decreases nodes, 0int,
{
    if nodes.len() == 0 {
        0
    } else {
        nodes_size(nodes.drop_last()) + node_size(nodes.last())
    }
}

/// The estimated memory of an access block: its tokens and its header conditions.
pub open spec fn access_size(a: Access) -> nat {
    lens_sum(a.bearer@) + nodes_size(a.header@)
}

/// The estimated memory of a rule: its own size, its texts, conditions and access block.
pub open spec fn rule_size(rule: Rule) -> nat {
    vstd::layout::size_of::<Rule>() + byte_len(rule.name) + byte_len(rule.action) + opt_len(
        rule.message,
    ) + nodes_size(rule.conditions@) + match rule.access {
        Some(a) => access_size(a),
        None => 0,
    }
}

/// The estimated memory of the rules.
pub open spec fn rules_size(rules: Seq<Rule>) -> nat
    decreases rules.len(),
{
    if rules.len() == 0 {
        0
    } else {
        rules_size(rules.drop_last()) + rule_size(rules.last())
    }
}

/// The estimated memory of compiled patterns: each pattern's text and one compiled regex.
pub open spec fn patterns_size(patterns: Seq<String>) -> nat
    decreases patterns.len(),
{
    if patterns.len() == 0 {
        0
    } else {
        patterns_size(patterns.drop_last()) + byte_len(patterns.last()) + vstd::layout::size_of::<
            regex::Regex,
        >()
    }
}

/// `x` as a `usize` where it fits.
pub open spec fn fits(x: nat) -> Option<usize> {
    if x <= usize::MAX {
        Some(x as usize)
    } else {
        None
    }
}

proof fn lemma_lens_sum_prefix(v: Seq<String>, i: int)
    requires
        0 <= i <= v.len(),
    ensures
        lens_sum(v.take(i)) <= lens_sum(v),
    decreases v.len() - i,
{
    if i < v.len() {
        lemma_lens_sum_prefix(v, i + 1);
        assert(v.take(i + 1).drop_last() =~= v.take(i));
    } else {
        assert(v.take(i) =~= v);
    }
}

proof fn lemma_nodes_size_prefix(v: Seq<ConditionNode>, i: int)
    requires
        0 <= i <= v.len(),
    ensures
        nodes_size(v.take(i)) <= nodes_size(v),
    decreases v.len() - i,
{
    if i < v.len() {
        lemma_nodes_size_prefix(v, i + 1);
        assert(v.take(i + 1).drop_last() =~= v.take(i));
    } else {
        assert(v.take(i) =~= v);
    }
}

proof fn lemma_rules_size_prefix(v: Seq<Rule>, i: int)
    requires
        0 <= i <= v.len(),
    ensures
        rules_size(v.take(i)) <= rules_size(v),
    decreases v.len() - i,
{
    if i < v.len() {
        lemma_rules_size_prefix(v, i + 1);
        assert(v.take(i + 1).drop_last() =~= v.take(i));
    } else {
        assert(v.take(i) =~= v);
    }
}

proof fn lemma_patterns_size_prefix(v: Seq<String>, i: int)
    requires
        0 <= i <= v.len(),
    ensures
        patterns_size(v.take(i)) <= patterns_size(v),
    decreases v.len() - i,
{
    if i < v.len() {
        lemma_patterns_size_prefix(v, i + 1);
        assert(v.take(i + 1).drop_last() =~= v.take(i));
    } else {
        assert(v.take(i) =~= v);
    }
}

fn str_len(s: &String) -> (r: usize)
    ensures
        r == byte_len(*s),
{
    s.as_str().len()
}

fn opt_str_len(s: &Option<String>) -> (r: usize)
    ensures
        r == opt_len(*s),
{
    match s {
        Some(t) => str_len(t),
        None => 0,
    }
}

fn lens_total(v: &Vec<String>) -> (r: Option<usize>)
    ensures
        r == fits(lens_sum(v@)),
{
    let mut acc: usize = 0;
    for i in 0..v.len()
        invariant
            acc == lens_sum(v@.take(i as int)),
    {
        assert(v@.take(i + 1).drop_last() =~= v@.take(i as int));
        let x = str_len(&v[i]);
        match acc.checked_add(x) {
            Some(y) => acc = y,
            None => {
                proof {
                    lemma_lens_sum_prefix(v@, i + 1);
                }
                return None;
            },
        }
    }
    assert(v@.take(v@.len() as int) =~= v@);
    Some(acc)
}

fn estimate_value(value: &Value) -> (r: Option<usize>)
    ensures
        r == fits(value_size(*value)),
{
    match value {
        Value::Text(text) => Some(str_len(text)),
        Value::List(list) => lens_total(list),
    }
}

fn add3(a: usize, b: usize, c: usize) -> (r: Option<usize>)
    ensures
        r == fits((a + b + c) as nat),
{
    match a.checked_add(b) {
        Some(x) => x.checked_add(c),
        None => None,
    }
}

/// The sum of two optional sums; `None` once a sum does not fit.
pub open spec fn sum_fits(a: Option<usize>, b: Option<usize>) -> Option<usize> {
    match (a, b) {
        (Some(x), Some(y)) => fits((x + y) as nat),
        _ => None,
    }
}

fn plus(a: Option<usize>, b: Option<usize>) -> (r: Option<usize>)
    ensures
        r == sum_fits(a, b),
{
    match (a, b) {
        (Some(x), Some(y)) => x.checked_add(y),
        _ => None,
    }
}

fn estimate_nodes(nodes: &Vec<ConditionNode>) -> (r: Option<usize>)
    ensures
        r == fits(nodes_size(nodes@)),
    decreases nodes@,
{
    let mut acc: usize = 0;
    for i in 0..nodes.len()
        invariant
            acc == nodes_size(nodes@.take(i as int)),
    {
        assert(nodes@.take(i + 1).drop_last() =~= nodes@.take(i as int));
        proof {
            assert(decreases_to!(nodes@ => nodes@[i as int]));
        }
        let x = estimate_node(&nodes[i]);
        proof {
            lemma_nodes_size_prefix(nodes@, i + 1);
        }
        match plus(Some(acc), x) {
            Some(y) => acc = y,
            None => {
                return None;
            },
        }
    }
    assert(nodes@.take(nodes@.len() as int) =~= nodes@);
    Some(acc)
}

/// Estimates the memory of a condition and its groups; `None` where it exceeds `usize`.
fn estimate_node(node: &ConditionNode) -> (r: Option<usize>)
    ensures
        r == fits(node_size(*node)),
    decreases *node,
{
    let own = add3(core::mem::size_of::<ConditionNode>(), opt_str_len(&node.field), opt_str_len(&node.operator));
    let value = match &node.value {
        Some(v) => estimate_value(v),
        None => Some(0),
    };
    let and = match &node.and {
        Some(children) => {
            proof {
                assert(decreases_to!(*node => node.and));
                assert(decreases_to!(node.and => node.and->0));
            }
            estimate_nodes(children)
        },
        None => Some(0),
    };
    let or = match &node.or {
        Some(children) => {
            proof {
                assert(decreases_to!(*node => node.or));
                assert(decreases_to!(node.or => node.or->0));
            }
            estimate_nodes(children)
        },
        None => Some(0),
    };
    plus(plus(plus(own, value), and), or)
}

fn estimate_access(access: &Access) -> (r: Option<usize>)
    ensures
        r == fits(access_size(*access)),
{
    plus(lens_total(&access.bearer), estimate_nodes(&access.header))
}

fn estimate_rule(rule: &Rule) -> (r: Option<usize>)
    ensures
        r == fits(rule_size(*rule)),
{
    let own = add3(core::mem::size_of::<Rule>(), str_len(&rule.name), str_len(&rule.action));
    let message = Some(opt_str_len(&rule.message));
    let access = match &rule.access {
        Some(a) => estimate_access(a),
        None => Some(0),
    };
    plus(plus(plus(own, message), estimate_nodes(&rule.conditions)), access)
}

/// The memory estimate of rules and their compiled patterns.
pub open spec fn memory_of(rules: Seq<Rule>, patterns: Seq<String>) -> nat {
    rules_size(rules) + patterns_size(patterns)
}

/// Estimates the memory that the rules and their compiled patterns take; `None` where the
/// estimate exceeds `usize`.
pub fn estimate_memory(rules: &Vec<Rule>, cache: &RegexCache) -> (r: Option<usize>)
    ensures
        r == fits(memory_of(rules@, cache.patterns@)),
{
    let mut structural: usize = 0;
    for i in 0..rules.len()
        invariant
            structural == rules_size(rules@.take(i as int)),
    {
        assert(rules@.take(i + 1).drop_last() =~= rules@.take(i as int));
        proof {
            lemma_rules_size_prefix(rules@, i + 1);
        }
        match plus(Some(structural), estimate_rule(&rules[i])) {
            Some(y) => structural = y,
            None => return None,
        }
    }
    assert(rules@.take(rules@.len() as int) =~= rules@);
    let patterns = &cache.patterns;
    let mut compiled: usize = 0;
    for i in 0..patterns.len()
        invariant
            compiled == patterns_size(patterns@.take(i as int)),
            structural == rules_size(rules@),
            patterns@ == cache.patterns@,
    {
        assert(patterns@.take(i + 1).drop_last() =~= patterns@.take(i as int));
        proof {
            lemma_patterns_size_prefix(patterns@, i + 1);
        }
        assert(patterns@.take(i + 1).last() == patterns@[i as int]);
        match add3(compiled, str_len(&patterns[i]), core::mem::size_of::<regex::Regex>()) {
            Some(y) => compiled = y,
            None => {
                assert(patterns_size(patterns@) > usize::MAX);
                return None;
            },
        }
    }
    assert(patterns@.take(patterns@.len() as int) =~= patterns@);
    plus(Some(structural), Some(compiled))
}

/// The address patterns of `node` and its groups: the text, or the list items, of each
/// leaf on `ip`, `client_ip` or `peer_ip`.
pub open spec fn node_addresses(node: ConditionNode) -> Seq<Seq<char>>
    decreases node, 1int,
{
    (match node.and {
        Some(c) => nodes_addresses(c@),
        None => Seq::empty(),
    }) + (match node.or {
        Some(c) => nodes_addresses(c@),
        None => Seq::empty(),
    }) + own_addresses(node)
}

/// The address patterns of an optional group of conditions.
pub open spec fn group_addresses(group: Option<Vec<ConditionNode>>) -> Seq<Seq<char>> {
    match group {
        Some(c) => nodes_addresses(c@),
        None => Seq::empty(),
    }
}

/// The address patterns of `node` itself: its text or list items where it is a leaf on an
/// address field.
pub open spec fn own_addresses(node: ConditionNode) -> Seq<Seq<char>> {
    match node.field {
        Some(f) => if is_ip_field(f@) {
            match node.value {
                Some(Value::Text(t)) => seq![t@],
                Some(Value::List(l)) => texts(l@),
                None => Seq::empty(),
            }
        } else {
            Seq::empty()
        },
        None => Seq::empty(),
    }
}

/// The address patterns of `nodes`, in order.
pub open spec fn nodes_addresses(nodes: Seq<ConditionNode>) -> Seq<Seq<char>>
    decreases nodes, 0int,
{
    if nodes.len() == 0 {
        Seq::empty()
    } else {
        nodes_addresses(nodes.drop_last()) + node_addresses(nodes.last())
    }
}

/// The address patterns of a rule: those of its conditions, then of its access headers.
pub open spec fn rule_addresses(rule: Rule) -> Seq<Seq<char>> {
    nodes_addresses(rule.conditions@) + match rule.access {
        Some(a) => nodes_addresses(a.header@),
        None => Seq::empty(),
    }
}

/// The address patterns of all rules, in order.
pub open spec fn rules_addresses(rules: Seq<Rule>) -> Seq<Seq<char>>
    decreases rules.len(),
{
    if rules.len() == 0 {
        Seq::empty()
    } else {
        rules_addresses(rules.drop_last()) + rule_addresses(rules.last())
    }
}

fn is_ip_name(field: &str) -> (r: bool)
    ensures
        r == is_ip_field(field@),
{
    eq_str(field, "ip") || eq_str(field, "client_ip") || eq_str(field, "peer_ip")
}

fn push_texts(out: &mut Vec<String>, items: &Vec<String>)
    ensures
        texts(final(out)@) == texts(old(out)@) + texts(items@),
{
    let ghost start = texts(out@);
    for i in 0..items.len()
        invariant
            texts(out@) == start + texts(items@.take(i as int)),
    {
        push_text(out, items[i].clone());
        assert(texts(items@.take(i + 1)) =~= texts(items@.take(i as int)).push(items@[i as int]@));
    }
    assert(items@.take(items@.len() as int) =~= items@);
}

fn collect_addresses(nodes: &Vec<ConditionNode>, out: &mut Vec<String>)
    ensures
        texts(final(out)@) == texts(old(out)@) + nodes_addresses(nodes@),
    decreases nodes@,
{
    let ghost start = texts(out@);
    for i in 0..nodes.len()
        invariant
            texts(out@) == start + nodes_addresses(nodes@.take(i as int)),
    {
        let node = &nodes[i];
        let ghost mid = texts(out@);
        let ghost and_part = group_addresses(node.and);
        let ghost or_part = group_addresses(node.or);
        proof {
            assert(nodes@.take(i + 1).drop_last() =~= nodes@.take(i as int));
        }
        if let Some(children) = &node.and {
            proof {
                assert(decreases_to!(nodes@ => nodes@[i as int]));
                assert(decreases_to!(nodes@[i as int] => nodes@[i as int].and));
                assert(decreases_to!(nodes@[i as int].and => nodes@[i as int].and->0));
            }
            collect_addresses(children, out);
        }
        assert(texts(out@) == mid + and_part);
        let ghost after_and = texts(out@);
        if let Some(children) = &node.or {
            proof {
                assert(decreases_to!(nodes@ => nodes@[i as int]));
                assert(decreases_to!(nodes@[i as int] => nodes@[i as int].or));
                assert(decreases_to!(nodes@[i as int].or => nodes@[i as int].or->0));
            }
            collect_addresses(children, out);
        }
        assert(texts(out@) == after_and + or_part);
        let ghost after_or = texts(out@);
        if let Some(field) = &node.field {
            if is_ip_name(field.as_str()) {
                match &node.value {
                    Some(Value::Text(t)) => push_text(out, t.clone()),
                    Some(Value::List(l)) => push_texts(out, l),
                    None => {},
                }
            }
        }
        assert(texts(out@) == after_or + own_addresses(*node));
        assert(node_addresses(*node) == and_part + or_part + own_addresses(*node));
        assert(texts(out@) =~= mid + node_addresses(nodes@[i as int]));
    }
    assert(nodes@.take(nodes@.len() as int) =~= nodes@);
}

/// Every address pattern that the rules compare the visitor's or the peer's address with,
/// in order; whoever evaluates the rules matches these against the two addresses.
pub fn address_patterns(rules: &Vec<Rule>) -> (r: Vec<String>)
    ensures
        texts(r@) == rules_addresses(rules@),
{
    let mut out: Vec<String> = Vec::new();
    for i in 0..rules.len()
        invariant
            texts(out@) == rules_addresses(rules@.take(i as int)),
    {
        assert(rules@.take(i + 1).drop_last() =~= rules@.take(i as int));
        collect_addresses(&rules[i].conditions, &mut out);
        if let Some(access) = &rules[i].access {
            collect_addresses(&access.header, &mut out);
        }
        assert(texts(out@) =~= rules_addresses(rules@.take(i + 1)));
    }
    assert(rules@.take(rules@.len() as int) =~= rules@);
    out
}

/// The cache holds each pattern that compiles once: no pattern twice, only patterns that
/// were used and compile, and every used pattern that compiles; every use of a pattern that
/// does not compile is rejected.
pub proof fn law_cache_holds_each_valid_pattern_once(ps: Seq<Seq<char>>)
    ensures
        ({
            let (cached, rejected) = cache_of(ps);
            &&& forall|i: int, j: int| 0 <= i < j < cached.len() ==> cached[i] != cached[j]
            &&& forall|i: int| 0 <= i < cached.len() ==> spec_regex_valid(#[trigger] cached[i]) && ps.contains(cached[i])
            &&& forall|i: int| 0 <= i < ps.len() && spec_regex_valid(#[trigger] ps[i]) ==> cached.contains(ps[i])
            &&& forall|i: int| 0 <= i < rejected.len() ==> !spec_regex_valid(#[trigger] rejected[i])
        }),
    decreases ps.len(),
{
    if ps.len() > 0 {
        let prev = ps.drop_last();
        law_cache_holds_each_valid_pattern_once(prev);
        let (cached, rejected) = cache_of(ps);
        let (c0, r0) = cache_of(prev);
        let p = ps.last();
        assert forall|i: int| 0 <= i < cached.len() implies spec_regex_valid(#[trigger] cached[i]) && ps.contains(cached[i]) by {
            if i < c0.len() {
                assert(cached[i] == c0[i]);
                let k = choose|k: int| 0 <= k < prev.len() && prev[k] == c0[i];
                assert(ps[k] == prev[k]);
            } else {
                assert(cached[i] == p);
                assert(ps[ps.len() - 1] == p);
            }
        }
        assert forall|i: int| 0 <= i < ps.len() && spec_regex_valid(#[trigger] ps[i]) implies cached.contains(ps[i]) by {
            if i < prev.len() {
                assert(prev[i] == ps[i]);
                let k = choose|k: int| 0 <= k < c0.len() && c0[k] == prev[i];
                assert(cached[k] == c0[k]);
            } else {
                if !c0.contains(p) {
                    assert(cached[cached.len() - 1] == p);
                }
            }
        }
        assert forall|i: int| 0 <= i < rejected.len() implies !spec_regex_valid(#[trigger] rejected[i]) by {
            if i < r0.len() {
                assert(rejected[i] == r0[i]);
            }
        }
    }
}

impl Global {
    /// The port to listen on: the `PORT` environment value where it is set, else the
    /// configured port, else `3000`.
    pub fn listen_port(&self, env_port: Option<String>) -> (r: String)
        ensures
            r@ == match env_port {
                Some(p) => p@,
                None => match self.port {
                    Some(n) => crate::text::decimal(n as nat),
                    None => "3000"@,
                },
            },
    {
        match env_port {
            Some(p) => p,
            None => match self.port {
                Some(n) => {
                    let mut out: Vec<char> = Vec::new();
                    crate::text::push_decimal(&mut out, n as u64);
                    crate::text::string_of(&out)
                },
                None => crate::text::string_of(&crate::text::chars_of("3000")),
            },
        }
    }
}

}

use fastdl::config::{
    Global,
    address_patterns, build_regex_cache, collect_patterns, estimate_memory, Access, ConditionNode,
    Rule, Value,
};

fn leaf(field: &str, operator: &str, value: Option<Value>) -> ConditionNode {
    ConditionNode {
        and: None,
        or: None,
        field: Some(field.to_string()),
        operator: Some(operator.to_string()),
        value,
    }
}

fn text(s: &str) -> Option<Value> {
    Some(Value::Text(s.to_string()))
}

fn rules() -> Vec<Rule> {
    vec![
        Rule {
            name: "bots".to_string(),
            conditions: vec![ConditionNode {
                or: Some(vec![
                    leaf("userAgent", "Matches", text("(?i)bot")),
                    leaf("userAgent", "matches", text("(")),
                ]),
                ..Default::default()
            }],
            action: "deny".to_string(),
            ..Default::default()
        },
        Rule {
            name: "cloudflare".to_string(),
            conditions: vec![leaf(
                "peer_ip",
                "not_in",
                Some(Value::List(vec!["173.245.48.0/20".to_string(), "104.16.0.0/13".to_string()])),
            )],
            action: "deny".to_string(),
            access: Some(Access {
                bearer: vec!["token".to_string()],
                header: vec![
                    leaf("path", "matches", text("(?i)bot")),
                    leaf("ip", "equals", text("10.0.0.0/8")),
                    leaf("path", "matches", text("^/x")),
                ],
            }),
            ..Default::default()
        },
    ]
}

#[test]
fn patterns_are_collected_in_order() {
    let mut out = Vec::new();
    collect_patterns(&rules()[0].conditions, &mut out);
    assert_eq!(out, vec!["(?i)bot", "("]);
}

#[test]
fn regex_cache_keeps_each_valid_pattern_once() {
    let cache = build_regex_cache(&rules());
    assert_eq!(cache.patterns, vec!["(?i)bot", "^/x"]);
    assert_eq!(cache.rejected, vec!["("]);
}

#[test]
fn address_patterns_of_rules() {
    assert_eq!(address_patterns(&rules()), vec!["173.245.48.0/20", "104.16.0.0/13", "10.0.0.0/8"]);
}

#[test]
fn memory_estimate_counts_texts_and_sizes() {
    let empty = build_regex_cache(&vec![]);
    assert_eq!(estimate_memory(&vec![], &empty), Some(0));
    let one = vec![Rule { name: "ab".to_string(), action: "deny".to_string(), ..Default::default() }];
    assert_eq!(estimate_memory(&one, &empty), Some(std::mem::size_of::<Rule>() + 6));
    let node = vec![Rule {
        conditions: vec![leaf("path", "equals", text("/x"))],
        ..Default::default()
    }];
    assert_eq!(
        estimate_memory(&node, &empty),
        Some(std::mem::size_of::<Rule>() + std::mem::size_of::<ConditionNode>() + 4 + 6 + 2)
    );
    let cache = build_regex_cache(&rules());
    let total = estimate_memory(&rules(), &cache).unwrap();
    assert!(total > 2 * std::mem::size_of::<Rule>());
}

#[test]
fn listen_port_prefers_environment_then_config() {
    let none = Global { port: None };
    let set = Global { port: Some(27015) };
    assert_eq!(none.listen_port(None), "3000");
    assert_eq!(set.listen_port(None), "27015");
    assert_eq!(set.listen_port(Some("8080".to_string())), "8080");
}

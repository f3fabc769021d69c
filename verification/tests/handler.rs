use std::path::{Component, Path, PathBuf};

use fastdl::config::{DirectoryListing, Rule, ConditionNode, Value};
use fastdl::handler::{
    client_ip, directory_page, listing_allowed, normalize_ip, parse_range, plan_file,
    plan_request, read_request, refusal, response_status, FilePlan, RequestPlan,
};
use fastdl::directory::DirectoryEntry;
use fastdl::paths::LocalPath;
use fastdl::rules::{HeaderField, Headers, IpMatches};

fn local(p: &str) -> LocalPath {
    let mut absolute = false;
    let mut parts = Vec::new();
    for c in Path::new(p).components() {
        match c {
            Component::RootDir => absolute = true,
            Component::CurDir => parts.push(".".to_string()),
            Component::ParentDir => parts.push("..".to_string()),
            Component::Normal(s) => parts.push(s.to_string_lossy().to_string()),
            Component::Prefix(_) => {}
        }
    }
    LocalPath { absolute, parts }
}

fn path_of(p: &LocalPath) -> PathBuf {
    let mut out = if p.absolute { PathBuf::from("/") } else { PathBuf::new() };
    for part in &p.parts {
        out.push(part);
    }
    out
}

fn headers(pairs: &[(&str, &str)]) -> Headers {
    Headers {
        fields: pairs
            .iter()
            .map(|(n, v)| HeaderField { name: n.to_string(), value: Some(v.to_string()) })
            .collect(),
    }
}

/// The range parser written with `str` methods, as a reference model.
fn std_parse_range(value: &str, size: u64) -> Option<(u64, u64)> {
    let spec = value.trim().strip_prefix("bytes=")?;
    let (start_text, end_text) = spec.split_once('-')?;
    if start_text.is_empty() && end_text.is_empty() {
        return None;
    }
    if start_text.is_empty() {
        let n = end_text.parse::<u64>().ok()?;
        if n == 0 || size == 0 {
            return None;
        }
        return Some((size - n.min(size), size - 1));
    }
    let start = start_text.parse::<u64>().ok()?;
    let end = match end_text.is_empty() {
        true => size.saturating_sub(1),
        false => end_text.parse::<u64>().ok()?.min(size.saturating_sub(1)),
    };
    if start > end || start >= size {
        return None;
    }
    Some((start, end))
}

#[test]
fn parse_range_cases() {
    assert_eq!(parse_range("bytes=0-99", 1000), Some((0, 99)));
    assert_eq!(parse_range("bytes=500-", 1000), Some((500, 999)));
    assert_eq!(parse_range("bytes=-100", 1000), Some((900, 999)));
    assert_eq!(parse_range("bytes=-500", 1000), Some((500, 999)));
    assert_eq!(parse_range("bytes=-2000", 1000), Some((0, 999)));
    assert_eq!(parse_range("bytes=-0", 1000), None);
    assert_eq!(parse_range("bytes=-1", 0), None);
    assert_eq!(parse_range("bytes=0-5000", 1000), Some((0, 999)));
    assert_eq!(parse_range(" bytes=1-2 ", 10), Some((1, 2)));
    assert_eq!(parse_range("bytes=-", 1000), None);
    assert_eq!(parse_range("bytes=1000-", 1000), None);
    assert_eq!(parse_range("bytes=5-1", 1000), None);
    assert_eq!(parse_range("items=0-1", 1000), None);
    assert_eq!(parse_range("bytes=0-1", 0), None);
    assert_eq!(parse_range("bytes=+3-4", 10), Some((3, 4)));
    assert_eq!(parse_range("bytes=a-4", 10), None);
    assert_eq!(parse_range("bytes=18446744073709551616-", 10), None);
}

#[test]
fn parse_range_agrees_with_std() {
    let values = [
        "bytes=0-99", "bytes=500-", "bytes=-100", "bytes=-", "bytes=", "bytes=1-2-3", "bytes= 1-2",
        "bytes=1 -2", "\tbytes=0-0\n", "bytes=0-18446744073709551615", "bytes=18446744073709551615-",
        "bytes=+0-+1", "bytes=-+1", "bytes=--1", "bytes=-0", "bytes=-1", "bytes=-2000", "bytes=0,1-2", "BYTES=0-1", "bytes=007-008",
        "\u{3000}bytes=1-1\u{a0}", "bytes=٣-4", "bytes=99999999999999999999-1",
    ];
    for size in [0u64, 1, 2, 10, 1000, u64::MAX] {
        for v in values {
            assert_eq!(parse_range(v, size), std_parse_range(v, size), "{v:?} {size}");
        }
    }
}

#[test]
fn addresses_are_normalised() {
    assert_eq!(normalize_ip("::1".to_string()), "127.0.0.1");
    assert_eq!(normalize_ip("::ffff:10.1.2.3".to_string()), "10.1.2.3");
    assert_eq!(normalize_ip("2001:db8::1".to_string()), "2001:db8::1");
}

#[test]
fn client_ip_prefers_proxy_headers() {
    let h = headers(&[("cf-connecting-ip", " 198.51.100.1 "), ("x-real-ip", "198.51.100.2")]);
    assert_eq!(client_ip(&h, "10.0.0.1"), "198.51.100.1");
    let h = headers(&[("x-real-ip", "198.51.100.2"), ("x-forwarded-for", "198.51.100.3")]);
    assert_eq!(client_ip(&h, "10.0.0.1"), "198.51.100.2");
    let h = headers(&[("x-forwarded-for", " 198.51.100.3 , 10.0.0.9")]);
    assert_eq!(client_ip(&h, "10.0.0.1"), "198.51.100.3");
    let h = headers(&[("x-forwarded-for", " , 10.0.0.9"), ("cf-connecting-ip", "  ")]);
    assert_eq!(client_ip(&h, "::ffff:10.0.0.1"), "10.0.0.1");
    assert_eq!(client_ip(&Headers::default(), "::1"), "127.0.0.1");
}

#[test]
fn request_paths_are_decoded() {
    let h = headers(&[("user-agent", "Half-Life 2")]);
    let ctx = read_request("/maps/de%20dust2.bsp", "GET", &h, "10.0.0.1");
    assert_eq!(ctx.url_path, "/maps/de dust2.bsp");
    assert_eq!(ctx.facts.path, "/maps/de dust2.bsp");
    assert_eq!(ctx.facts.ext, ".bsp");
    assert_eq!(ctx.facts.user_agent, "Half-Life 2");
    assert_eq!(ctx.facts.method, "GET");
    assert_eq!(ctx.facts.ip, "10.0.0.1");
    assert_eq!(ctx.log_path, "/maps/de dust2.bsp");
    let root = read_request("/", "HEAD", &Headers::default(), "::1");
    assert_eq!(root.display_path, "");
    assert_eq!(root.log_path, "/");
    assert_eq!(root.facts.user_agent, "");
    assert_eq!(root.facts.peer_ip, "127.0.0.1");
    let h = Headers::default();
    assert_eq!(read_request("/a%2e%2E/%zz", "GET", &h, "::1").url_path, "/a../%zz");
    assert_eq!(read_request("/%C3%A4", "GET", &h, "::1").url_path, "/ä");
    assert_eq!(read_request("/%FF", "GET", &h, "::1").url_path, "/\u{FFFD}");
    assert_eq!(read_request("/maps", "GET", &h, "::1").url_path, "/maps");
}

fn deny_rule(name: &str, path_prefix: &str, status: Option<u16>) -> Rule {
    Rule {
        name: name.to_string(),
        conditions: vec![ConditionNode {
            field: Some("path".to_string()),
            operator: Some("starts_with".to_string()),
            value: Some(Value::Text(path_prefix.to_string())),
            ..Default::default()
        }],
        action: "deny".to_string(),
        message: None,
        status,
        access: None,
    }
}

#[test]
fn request_plans() {
    let storage = local("/app/storage");
    let auto = local("/app/auto");
    let h = Headers::default();
    let ips = IpMatches::default();
    let rules = vec![deny_rule("no-admin", "/admin", Some(401))];

    let ctx = read_request("/../etc/passwd", "GET", &h, "10.0.0.1");
    assert!(matches!(plan_request(&ctx, &storage, &auto, &rules, &h, &ips), RequestPlan::Escape));

    let ctx = read_request("/admin/x", "GET", &h, "10.0.0.1");
    match plan_request(&ctx, &storage, &auto, &rules, &h, &ips) {
        RequestPlan::Denied { status, message, rule } => {
            assert_eq!((status, message.as_str(), rule.as_str()), (401, "Forbidden", "no-admin"))
        }
        other => panic!("{other:?}"),
    }

    let allow_all = vec![Rule { name: "all".to_string(), action: "allow".to_string(), ..Default::default() }];
    let ctx = read_request("/addons/sourcemod/plugin.smx", "GET", &h, "10.0.0.1");
    assert!(matches!(
        plan_request(&ctx, &storage, &auto, &allow_all, &h, &ips),
        RequestPlan::BlockedExtension { .. }
    ));

    let ctx = read_request("/maps/de_dust2.bsp", "GET", &h, "10.0.0.1");
    match plan_request(&ctx, &storage, &auto, &rules, &h, &ips) {
        RequestPlan::Lookup { target, fallbacks } => {
            assert_eq!(path_of(&target), PathBuf::from("/app/storage/maps/de_dust2.bsp"));
            let f: Vec<PathBuf> = fallbacks.iter().map(path_of).collect();
            assert_eq!(
                f,
                vec![
                    PathBuf::from("/app/storage/maps/de_dust2.bsp.bz2"),
                    PathBuf::from("/app/storage/maps/de_dust2.bsp.gz"),
                    PathBuf::from("/app/auto/maps/de_dust2.bsp"),
                    PathBuf::from("/app/auto/maps/de_dust2.bsp.bz2"),
                    PathBuf::from("/app/auto/maps/de_dust2.bsp.gz"),
                ]
            );
        }
        other => panic!("{other:?}"),
    }
}

#[test]
fn denial_status_falls_back_to_forbidden() {
    assert_eq!(response_status(401), 401);
    assert_eq!(response_status(999), 999);
    assert_eq!(response_status(99), 403);
    assert_eq!(response_status(1000), 403);
}

#[test]
fn directory_listing_permissions() {
    let disabled = DirectoryListing { enabled: false, allowed_paths: vec![] };
    assert!(!listing_allowed(&disabled, ""));
    let all = DirectoryListing { enabled: true, allowed_paths: vec![] };
    assert!(listing_allowed(&all, "/anything"));
    let some = DirectoryListing {
        enabled: true,
        allowed_paths: vec!["/".to_string(), "/public".to_string()],
    };
    assert!(listing_allowed(&some, ""));
    assert!(listing_allowed(&some, "/public"));
    assert!(listing_allowed(&some, "/public/maps"));
    assert!(!listing_allowed(&some, "/publicity"));
    assert!(!listing_allowed(&some, "/private"));
}

#[test]
fn file_plans() {
    match plan_file("de_dust2.bsp.bz2", 1000, &Headers::default()) {
        FilePlan::Send { status, start, length, content_range, content_type } => {
            assert_eq!((status, start, length, content_range), (200, 0, 1000, None));
            assert_eq!(content_type, "application/x-bzip2");
        }
        other => panic!("{other:?}"),
    }
    match plan_file("logo.png", 1000, &headers(&[("range", "bytes=100-199")])) {
        FilePlan::Send { status, start, length, content_range, content_type } => {
            assert_eq!((status, start, length), (206, 100, 100));
            assert_eq!(content_range.as_deref(), Some("bytes 100-199/1000"));
            assert_eq!(content_type, "image/png");
        }
        other => panic!("{other:?}"),
    }
    match plan_file("x.bsp", 1000, &headers(&[("range", "bytes=2000-")])) {
        FilePlan::Unsatisfiable { range_header } => assert_eq!(range_header, "bytes */1000"),
        other => panic!("{other:?}"),
    }
    match plan_file("noext", 5, &Headers::default()) {
        FilePlan::Send { content_type, .. } => assert_eq!(content_type, "application/octet-stream"),
        other => panic!("{other:?}"),
    }
}

#[test]
fn directory_page_lists_directories_first() {
    let items = vec![
        DirectoryEntry { name: "b.bsp".to_string(), is_directory: false, size: Some(2048) },
        DirectoryEntry { name: "z".to_string(), is_directory: true, size: None },
        DirectoryEntry { name: "a.bsp".to_string(), is_directory: false, size: Some(10) },
    ];
    let page = directory_page(items, "/maps");
    let z = page.find("href=\"/maps/z\"").unwrap();
    let a = page.find("href=\"/maps/a.bsp\"").unwrap();
    let b = page.find("href=\"/maps/b.bsp\"").unwrap();
    assert!(z < a && a < b);
    assert!(page.contains("<title>Index of /maps</title>"));
    assert!(page.contains("<a href=\"/\" class"));
    assert!(page.contains(">2KB</td>"));
    assert!(page.contains(">10B</td>"));
    assert!(page.contains("<span>z/</span>"));
}

#[test]
fn refusals_are_answered() {
    assert_eq!(refusal(&RequestPlan::Escape), Some((403, "Forbidden".to_string())));
    assert_eq!(
        refusal(&RequestPlan::BlockedExtension { extension: ".smx".to_string() }),
        Some((403, "Forbidden".to_string()))
    );
    assert_eq!(
        refusal(&RequestPlan::Denied { status: 401, message: "Authentication required".to_string(), rule: "admin".to_string() }),
        Some((401, "Authentication required".to_string()))
    );
    assert_eq!(
        refusal(&RequestPlan::Denied { status: 42, message: "nope".to_string(), rule: "r".to_string() }),
        Some((403, "nope".to_string()))
    );
    assert_eq!(refusal(&RequestPlan::Lookup { target: local("/app/storage"), fallbacks: vec![] }), None);
}

fn address_rule(field: &str, address: &str) -> Rule {
    Rule {
        name: format!("block-{field}"),
        conditions: vec![ConditionNode {
            field: Some(field.to_string()),
            operator: Some("in".to_string()),
            value: Some(Value::List(vec![address.to_string()])),
            ..Default::default()
        }],
        action: "deny".to_string(),
        ..Default::default()
    }
}

#[test]
fn forwarding_headers_cannot_steer_peer_rules() {
    let storage = local("/app/storage");
    let auto = local("/app/auto");
    let plain = Headers::default();
    let forged = headers(&[("x-forwarded-for", "198.51.100.9"), ("cf-connecting-ip", "192.0.2.1")]);
    let peer_rules = vec![address_rule("peer_ip", "10.0.0.1")];
    let peer_match = IpMatches { client: vec![], peer: vec!["10.0.0.1".to_string()] };
    for h in [&plain, &forged] {
        let ctx = read_request("/maps/a.bsp", "GET", h, "10.0.0.1");
        assert_eq!(ctx.facts.peer_ip, "10.0.0.1");
        match plan_request(&ctx, &storage, &auto, &peer_rules, h, &peer_match) {
            RequestPlan::Denied { status, rule, .. } => assert_eq!((status, rule.as_str()), (403, "block-peer_ip")),
            other => panic!("{other:?}"),
        }
    }
    let ctx = read_request("/maps/a.bsp", "GET", &forged, "10.0.0.1");
    assert_eq!(ctx.facts.ip, "192.0.2.1");
}

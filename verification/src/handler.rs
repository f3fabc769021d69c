//! Request planning: what the server answers a request with, decided from the request's
//! path and headers, the configuration, and the storage roots; the file-system work and
//! the HTTP plumbing stand outside.

use vstd::prelude::*;

use crate::config::{DirectoryListing, Rule};
use crate::directory::{generate_directory_listing, listing_of, sort_entries, sorted_entries, DirectoryEntry};
use crate::paths::{parent_of, parent_path};
use crate::paths::{
    append_extension, dotted_extension, parts_of, path_extension, resolve_within, resolved_within,
    with_suffix, LocalPath,
};
use crate::rules::actions::{Decision, DecisionView};
use crate::rules::{
    header_lookup, law_forwarding_headers_cannot_steer_rules, process_rules, rule_reads_direct_fields,
    rules_decision, same_but_client, same_but_forwarding, same_peer_matches, Facts, Headers,
    IpMatches,
};
use crate::text::{
    chars_of, eq_str, has_prefix, skip_chars, take_chars, parse_u64, parse_u64_chars, push_decimal, push_str, string_of,
    trim, trim_chars, decimal, all_digits, digits_value, is_digit, is_white_space, trim_start,
    unsigned_body,
};

verus! {

/// The percent-decoded form of a request path, with invalid UTF-8 replaced.
pub uninterp spec fn spec_percent_decode(raw: Seq<char>) -> Seq<char>;

/// `percent_encoding::percent_decode_str(raw).decode_utf8_lossy()`: decodes `%XX`
/// sequences and replaces invalid UTF-8. Claimed: the result depends on `raw` alone, and
/// is `raw` itself where `raw` holds no `%` (nothing is decoded, and the bytes of a `&str`
/// are valid UTF-8).
#[verifier::external_body]
fn decode_path(raw: &str) -> (r: String)
    ensures
        r@ == spec_percent_decode(raw@),
        !raw@.contains('%') ==> r@ == raw@,
{
    percent_encoding::percent_decode_str(raw).decode_utf8_lossy().to_string()
}

/// The MIME type that `mime_guess` gives a file name, by its extension.
pub uninterp spec fn spec_content_type(file_name: Seq<char>) -> Seq<char>;

/// `mime_guess::from_path(file_name).first_or_octet_stream()`, as text. Claimed: the
/// result depends on the name alone (the crate reads its extension, not the disk).
#[verifier::external_body]
fn content_type_of(file_name: &str) -> (r: String)
    ensures
        r@ == spec_content_type(file_name@),
{
    mime_guess::from_path(file_name).first_or_octet_stream().to_string()
}

/// Loopback `::1` becomes `127.0.0.1`; an IPv4-mapped `::ffff:` prefix is removed.
pub open spec fn normalized_ip(value: Seq<char>) -> Seq<char> {
    if value == "::1"@ {
        "127.0.0.1"@
    } else if has_prefix(value, "::ffff:"@) {
        value.skip("::ffff:"@.len() as int)
    } else {
        value
    }
}

/// Normalises an address as the logs and rules see it.
pub fn normalize_ip(value: String) -> (r: String)
    ensures
        r@ == normalized_ip(value@),
{
    if eq_str(value.as_str(), "::1") {
        return string_of(&chars_of("127.0.0.1"));
    }
    let cs = chars_of(value.as_str());
    let prefix = chars_of("::ffff:");
    if crate::text::starts_with(&cs, &prefix) {
        string_of(&skip_chars(&cs, prefix.len()))
    } else {
        value
    }
}

/// A header's value, trimmed, where it is present and not empty after trimming.
pub open spec fn read_header(headers: Headers, name: Seq<char>) -> Option<Seq<char>> {
    match header_lookup(headers.fields@, name) {
        Some(v) => if trim(v).len() > 0 { Some(trim(v)) } else { None },
        None => None,
    }
}

fn read(headers: &Headers, name: &str) -> (r: Option<Vec<char>>)
    ensures
        r matches Some(v) ==> read_header(*headers, name@) == Some(v@),
        r is None ==> read_header(*headers, name@) is None,
{
    match headers.get(name) {
        Some(v) => {
            let t = trim_chars(&chars_of(v.as_str()));
            if t.len() > 0 {
                Some(t)
            } else {
                None
            }
        },
        None => None,
    }
}

/// The first position of `c` in `s`.
pub open spec fn first_index_of(s: Seq<char>, c: char) -> Option<int>
    decreases s.len(),
{
    if s.len() == 0 {
        None
    } else if s[0] == c {
        Some(0)
    } else {
        match first_index_of(s.drop_first(), c) {
            Some(k) => Some(k + 1),
            None => None,
        }
    }
}

fn find_first(s: &Vec<char>, c: char) -> (r: Option<usize>)
    ensures
        r matches Some(k) ==> first_index_of(s@, c) == Some(k as int) && k < s@.len(),
        r is None ==> first_index_of(s@, c) is None,
{
    let n = s.len();
    let mut i: usize = 0;
    while i < n
        invariant
            n == s@.len(),
            i <= n,
            forall|k: int| 0 <= k < i ==> s@[k] != c,
        decreases n - i,
    {
        if s[i] == c {
            proof {
                lemma_first_index(s@, c, i as int);
            }
            return Some(i);
        }
        i = i + 1;
    }
    proof {
        lemma_first_index_none(s@, c);
    }
    None
}

proof fn lemma_first_index(s: Seq<char>, c: char, i: int)
    requires
        0 <= i < s.len(),
        s[i] == c,
        forall|k: int| 0 <= k < i ==> s[k] != c,
    ensures
        first_index_of(s, c) == Some(i),
    decreases i,
{
    if i > 0 {
        lemma_first_index(s.drop_first(), c, i - 1);
    }
}

proof fn lemma_first_index_none(s: Seq<char>, c: char)
    requires
        forall|k: int| 0 <= k < s.len() ==> s[k] != c,
    ensures
        first_index_of(s, c) is None,
    decreases s.len(),
{
    if s.len() > 0 {
        lemma_first_index_none(s.drop_first(), c);
    }
}

/// The text of `s` before the first `c`, or all of `s`.
pub open spec fn before_first(s: Seq<char>, c: char) -> Seq<char> {
    match first_index_of(s, c) {
        Some(k) => s.take(k),
        None => s,
    }
}

/// The visitor's address: `cf-connecting-ip`, else `x-real-ip`, else the first entry of
/// `x-forwarded-for`, else the connection's peer; normalised.
pub open spec fn client_ip_of(headers: Headers, remote_ip: Seq<char>) -> Seq<char> {
    match read_header(headers, "cf-connecting-ip"@) {
        Some(v) => normalized_ip(v),
        None => match read_header(headers, "x-real-ip"@) {
            Some(v) => normalized_ip(v),
            None => match read_header(headers, "x-forwarded-for"@) {
                Some(v) => if trim(before_first(v, ',')).len() > 0 {
                    normalized_ip(trim(before_first(v, ',')))
                } else {
                    normalized_ip(remote_ip)
                },
                None => normalized_ip(remote_ip),
            },
        },
    }
}

/// The visitor's address, from proxy headers or the connection's peer.
pub fn client_ip(headers: &Headers, remote_ip: &str) -> (r: String)
    ensures
        r@ == client_ip_of(*headers, remote_ip@),
{
    if let Some(v) = read(headers, "cf-connecting-ip") {
        return normalize_ip(string_of(&v));
    }
    if let Some(v) = read(headers, "x-real-ip") {
        return normalize_ip(string_of(&v));
    }
    if let Some(v) = read(headers, "x-forwarded-for") {
        let first = match find_first(&v, ',') {
            Some(k) => take_chars(&v, k),
            None => v,
        };
        let trimmed = trim_chars(&first);
        if trimmed.len() > 0 {
            return normalize_ip(string_of(&trimmed));
        }
    }
    normalize_ip(string_of(&chars_of(remote_ip)))
}

/// The byte range that a `Range` header value asks of a file of `size` bytes:
/// `bytes=a-b` (the end clipped to the last byte), `bytes=a-` (to the end), or the suffix
/// form `bytes=-n` (the last `n` bytes, all of them where the file is shorter); `None`
/// where the value is malformed or the range cannot be served (a start beyond the file, a
/// start after the end, an empty suffix).
pub open spec fn range_of(value: Seq<char>, size: u64) -> Option<(u64, u64)> {
    let t = trim(value);
    if !has_prefix(t, "bytes="@) {
        None
    } else {
        let spec = t.skip("bytes="@.len() as int);
        match first_index_of(spec, '-') {
            None => None,
            Some(k) => {
                let a = spec.take(k);
                let b = spec.skip(k + 1);
                let last: u64 = if size == 0 { 0 } else { (size - 1) as u64 };
                if a.len() == 0 && b.len() == 0 {
                    None
                } else if a.len() == 0 {
                    match parse_u64(b) {
                        Some(n) => if n == 0 || size == 0 {
                            None
                        } else {
                            let len: u64 = if n < size { n } else { size };
                            Some(((size - len) as u64, last))
                        },
                        None => None,
                    }
                } else {
                    let end = if b.len() == 0 {
                        Some(last)
                    } else {
                        match parse_u64(b) {
                            Some(e) => Some(if e < last { e } else { last }),
                            None => None,
                        }
                    };
                    match (parse_u64(a), end) {
                        (Some(s), Some(e)) => if s > e || s >= size { None } else { Some((s, e)) },
                        _ => None,
                    }
                }
            },
        }
    }
}

/// Parses a `Range` header value against a file of `size` bytes.
pub fn parse_range(value: &str, size: u64) -> (r: Option<(u64, u64)>)
    ensures
        r == range_of(value@, size),
        r matches Some((s, e)) ==> s <= e && e < size,
{
    let t = trim_chars(&chars_of(value));
    let prefix = chars_of("bytes=");
    if !crate::text::starts_with(&t, &prefix) {
        return None;
    }
    let spec = skip_chars(&t, prefix.len());
    let spec_len = spec.len();
    let k = match find_first(&spec, '-') {
        Some(k) => k,
        None => return None,
    };
    let a = take_chars(&spec, k);
    let b = skip_chars(&spec, k + 1);
    let last: u64 = if size == 0 { 0 } else { size - 1 };
    if a.len() == 0 && b.len() == 0 {
        return None;
    }
    if a.len() == 0 {
        return match parse_u64_chars(&b) {
            Some(n) => if n == 0 || size == 0 {
                None
            } else {
                let len: u64 = if n < size { n } else { size };
                Some((size - len, last))
            },
            None => None,
        };
    }
    let start = match parse_u64_chars(&a) {
        Some(s) => s,
        None => return None,
    };
    let end = if b.len() == 0 {
        last
    } else {
        match parse_u64_chars(&b) {
            Some(e) => if e < last { e } else { last },
            None => return None,
        }
    };
    if start > end || start >= size {
        return None;
    }
    Some((start, end))
}

/// What the server reads of a request before any rule runs.
#[derive(Debug)]
pub struct RequestContext {
    /// The decoded request path.
    pub url_path: String,
    /// The decoded path as rules see it: empty for `/`.
    pub display_path: String,
    /// The path as the logs show it: `/` for the root.
    pub log_path: String,
    pub facts: Facts,
}

/// The path as rules see it: empty for `/`, otherwise the decoded path.
pub open spec fn display_of(url_path: Seq<char>) -> Seq<char> {
    if url_path == "/"@ {
        Seq::empty()
    } else {
        url_path
    }
}

/// The path as the logs show it.
pub open spec fn log_of(display: Seq<char>) -> Seq<char> {
    if display.len() == 0 {
        "/"@
    } else {
        display
    }
}

/// The value of `name`, or empty where it is missing or not text.
pub open spec fn header_or_empty(headers: Headers, name: Seq<char>) -> Seq<char> {
    match header_lookup(headers.fields@, name) {
        Some(v) => v,
        None => Seq::empty(),
    }
}

/// Whether `ctx` is what a request for `raw_path` by `method`, with `headers`, from the
/// connection address `remote_ip`, gives: the decoded path, its display and log forms, and
/// the facts the rules see.
pub open spec fn context_read(
    ctx: RequestContext,
    raw_path: Seq<char>,
    method: Seq<char>,
    headers: Headers,
    remote_ip: Seq<char>,
) -> bool {
    &&& ctx.url_path@ == spec_percent_decode(raw_path)
    &&& ctx.display_path@ == display_of(ctx.url_path@)
    &&& ctx.log_path@ == log_of(ctx.display_path@)
    &&& ctx.facts.path@ == ctx.display_path@
    &&& ctx.facts.user_agent@ == header_or_empty(headers, "user-agent"@)
    &&& ctx.facts.method@ == method
    &&& ctx.facts.ext@ == dotted_extension(ctx.url_path@)
    &&& ctx.facts.ip@ == client_ip_of(headers, remote_ip)
    &&& ctx.facts.peer_ip@ == normalized_ip(remote_ip)
}

/// Reads what the rules need of a request: the decoded path, user agent, method,
/// extension, and the visitor's and the peer's addresses.
pub fn read_request(raw_path: &str, method: &str, headers: &Headers, remote_ip: &str) -> (r:
    RequestContext)
    ensures
        context_read(r, raw_path@, method@, *headers, remote_ip@),
        !raw_path@.contains('%') ==> r.url_path@ == raw_path@,
{
    let ip = client_ip(headers, remote_ip);
    let user_agent = match headers.get("user-agent") {
        Some(v) => v,
        None => String::new(),
    };
    let url_path = decode_path(raw_path);
    let display_path = if eq_str(url_path.as_str(), "/") {
        String::new()
    } else {
        url_path.clone()
    };
    let ext = path_extension(url_path.as_str());
    let log_path = if display_path.as_str().unicode_len() == 0 {
        string_of(&chars_of("/"))
    } else {
        display_path.clone()
    };
    let peer_ip = normalize_ip(string_of(&chars_of(remote_ip)));
    let facts = Facts {
        path: display_path.clone(),
        user_agent,
        method: string_of(&chars_of(method)),
        ext,
        ip,
        peer_ip,
    };
    RequestContext { url_path, display_path, log_path, facts }
}

/// A path by its root flag and component texts.
pub open spec fn path_view(p: LocalPath) -> (bool, Seq<Seq<char>>) {
    (p.absolute, parts_of(p))
}

/// What the server does with a request.
#[derive(Debug)]
pub enum RequestPlan {
    /// The path leaves the storage root: `403 Forbidden`.
    Escape,
    /// A rule denies the request with this status and message.
    Denied { status: u16, message: String, rule: String },
    /// The extension is never served: `403 Forbidden`.
    BlockedExtension { extension: String },
    /// Look for `target` (a directory is listed, a file served), then for each fallback
    /// file in order; `404 Not Found` where none is a file.
    Lookup { target: LocalPath, fallbacks: Vec<LocalPath> },
}

/// A request plan with its texts and paths as sequences.
pub enum PlanView {
    Escape,
    Denied { status: u16, message: Seq<char>, rule: Seq<char> },
    BlockedExtension { extension: Seq<char> },
    Lookup { target: (bool, Seq<Seq<char>>), fallbacks: Seq<(bool, Seq<Seq<char>>)> },
}

impl View for RequestPlan {
    type V = PlanView;

    open spec fn view(&self) -> PlanView {
        match self {
            RequestPlan::Escape => PlanView::Escape,
            RequestPlan::Denied { status, message, rule } => PlanView::Denied {
                status: *status,
                message: message@,
                rule: rule@,
            },
            RequestPlan::BlockedExtension { extension } => PlanView::BlockedExtension {
                extension: extension@,
            },
            RequestPlan::Lookup { target, fallbacks } => PlanView::Lookup {
                target: path_view(*target),
                fallbacks: fallbacks@.map_values(|p: LocalPath| path_view(p)),
            },
        }
    }
}

/// Whether `ext` is one of the extensions that are never served.
pub open spec fn disabled_extension(ext: Seq<char>) -> bool {
    ext == ".inc"@ || ext == ".sp"@ || ext == ".smx"@
}

/// The files tried after the target, in order: the target with `.bz2`, with `.gz`, then
/// the same path below the archive root, with `.bz2`, with `.gz`.
pub open spec fn fallbacks_of(
    storage_absolute: bool,
    target: Seq<Seq<char>>,
    auto_root: LocalPath,
    url_path: Seq<char>,
) -> Seq<(bool, Seq<Seq<char>>)> {
    seq![
        (storage_absolute, with_suffix(target, ".bz2"@)),
        (storage_absolute, with_suffix(target, ".gz"@)),
    ] + match resolved_within(auto_root, url_path) {
        Some(c) => seq![
            (auto_root.absolute, c),
            (auto_root.absolute, with_suffix(c, ".bz2"@)),
            (auto_root.absolute, with_suffix(c, ".gz"@)),
        ],
        None => Seq::empty(),
    }
}

/// The plan for a request: a path that leaves the storage root is refused; then the rules
/// decide; then blocked extensions are refused; otherwise the files are looked up.
pub open spec fn plan_of(
    ctx: RequestContext,
    storage_root: LocalPath,
    auto_root: LocalPath,
    rules: Seq<Rule>,
    headers: Headers,
    ips: IpMatches,
) -> PlanView {
    match resolved_within(storage_root, ctx.url_path@) {
        None => PlanView::Escape,
        Some(target) => match rules_decision(rules, ctx.facts, headers, ips) {
            DecisionView::Deny { status, message, rule } => PlanView::Denied { status, message, rule },
            _ => if disabled_extension(ctx.facts.ext@) {
                PlanView::BlockedExtension { extension: ctx.facts.ext@ }
            } else {
                PlanView::Lookup {
                    target: (storage_root.absolute, target),
                    fallbacks: fallbacks_of(storage_root.absolute, target, auto_root, ctx.url_path@),
                }
            },
        },
    }
}

/// Where every rule reads only direct fields, two requests for the same path by the same
/// method over the same connection, whose headers differ only in the forwarding headers
/// (`cf-connecting-ip`, `x-real-ip`, `x-forwarded-for`), get the same plan: the peer's
/// address is the connection's own, and no header sets it.
pub proof fn law_forwarding_headers_cannot_steer_plan(
    c1: RequestContext,
    c2: RequestContext,
    raw_path: Seq<char>,
    method: Seq<char>,
    remote_ip: Seq<char>,
    h1: Headers,
    h2: Headers,
    storage_root: LocalPath,
    auto_root: LocalPath,
    rules: Seq<Rule>,
    ips1: IpMatches,
    ips2: IpMatches,
)
    requires
        context_read(c1, raw_path, method, h1, remote_ip),
        context_read(c2, raw_path, method, h2, remote_ip),
        same_but_forwarding(h1, h2),
        same_peer_matches(ips1, ips2),
        forall|i: int| 0 <= i < rules.len() ==> rule_reads_direct_fields(#[trigger] rules[i]),
    ensures
        plan_of(c1, storage_root, auto_root, rules, h1, ips1) == plan_of(
            c2,
            storage_root,
            auto_root,
            rules,
            h2,
            ips2,
        ),
{
    reveal_strlit("user-agent");
    reveal_strlit("cf-connecting-ip");
    reveal_strlit("x-real-ip");
    reveal_strlit("x-forwarded-for");
    assert("user-agent"@.len() == 10 && "cf-connecting-ip"@.len() == 16 && "x-real-ip"@.len() == 9
        && "x-forwarded-for"@.len() == 15);
    assert(header_lookup(h1.fields@, "user-agent"@) == header_lookup(h2.fields@, "user-agent"@));
    assert(same_but_client(c1.facts, c2.facts));
    law_forwarding_headers_cannot_steer_rules(rules, c1.facts, c2.facts, h1, h2, ips1, ips2);
}

fn push_path(list: &mut Vec<LocalPath>, p: LocalPath)
    ensures
        final(list)@.map_values(|q: LocalPath| path_view(q)) == old(list)@.map_values(
            |q: LocalPath| path_view(q),
        ).push(path_view(p)),
{
    let ghost before = list@;
    list.push(p);
    assert(list@.map_values(|q: LocalPath| path_view(q)) =~= before.map_values(
        |q: LocalPath| path_view(q),
    ).push(path_view(p)));
}

/// Decides what to do with a request.
pub fn plan_request(
    ctx: &RequestContext,
    storage_root: &LocalPath,
    auto_root: &LocalPath,
    rules: &Vec<Rule>,
    headers: &Headers,
    ips: &IpMatches,
) -> (r: RequestPlan)
    ensures
        r@ == plan_of(*ctx, *storage_root, *auto_root, rules@, *headers, *ips),
{
    let target = match resolve_within(storage_root, ctx.url_path.as_str()) {
        Some(target) => target,
        None => return RequestPlan::Escape,
    };
    match process_rules(rules, &ctx.facts, headers, ips) {
        Decision::Deny { status, message, rule } => {
            return RequestPlan::Denied { status, message, rule };
        },
        _ => {},
    }
    let ext = ctx.facts.ext.as_str();
    if eq_str(ext, ".inc") || eq_str(ext, ".sp") || eq_str(ext, ".smx") {
        return RequestPlan::BlockedExtension { extension: ctx.facts.ext.clone() };
    }
    proof {
        reveal_strlit(".bz2");
        reveal_strlit(".gz");
        assert(!".bz2"@.contains('/'));
        assert(!".gz"@.contains('/'));
        assert(".bz2"@ != crate::paths::dot_dot());
    }
    let mut fallbacks: Vec<LocalPath> = Vec::new();
    push_path(&mut fallbacks, append_extension(&target, ".bz2"));
    push_path(&mut fallbacks, append_extension(&target, ".gz"));
    match resolve_within(auto_root, ctx.url_path.as_str()) {
        Some(candidate) => {
            let bz = append_extension(&candidate, ".bz2");
            let gz = append_extension(&candidate, ".gz");
            push_path(&mut fallbacks, candidate);
            push_path(&mut fallbacks, bz);
            push_path(&mut fallbacks, gz);
        },
        None => {},
    }
    let ghost expected = fallbacks_of(storage_root.absolute, parts_of(target), *auto_root, ctx.url_path@);
    assert(fallbacks@.map_values(|q: LocalPath| path_view(q)) =~= expected);
    RequestPlan::Lookup { target, fallbacks }
}

/// The status that a denial answers with: the rule's status where it is a valid HTTP
/// status code (100 to 999), else 403.
pub open spec fn response_status_of(status: u16) -> u16 {
    if 100 <= status && status <= 999 {
        status
    } else {
        403
    }
}

/// The HTTP status for a denial's status number.
pub fn response_status(status: u16) -> (r: u16)
    ensures
        r == response_status_of(status),
{
    if 100 <= status && status <= 999 {
        status
    } else {
        403
    }
}

/// Where the listing is: the displayed path, or `/` for the root.
pub open spec fn location_of(display_path: Seq<char>) -> Seq<char> {
    if display_path.len() == 0 {
        "/"@
    } else {
        display_path
    }
}

/// Whether `location` is `entry` or lies below it.
pub open spec fn under_entry(location: Seq<char>, entry: Seq<char>) -> bool {
    location == entry || has_prefix(location, entry.push('/'))
}

/// Whether the directory at `display_path` may be listed: listing is enabled, and either no
/// paths are given or the location is one of them or lies below one.
pub open spec fn listing_allowed_of(listing: DirectoryListing, display_path: Seq<char>) -> bool {
    listing.enabled && (listing.allowed_paths@.len() == 0 || exists|k: int|
        0 <= k < listing.allowed_paths@.len() && under_entry(
            location_of(display_path),
            (#[trigger] listing.allowed_paths@[k])@,
        ))
}

/// Whether the directory at `display_path` may be listed.
pub fn listing_allowed(listing: &DirectoryListing, display_path: &str) -> (r: bool)
    ensures
        r == listing_allowed_of(*listing, display_path@),
{
    if !listing.enabled {
        return false;
    }
    if listing.allowed_paths.len() == 0 {
        return true;
    }
    let location = if display_path.unicode_len() == 0 {
        chars_of("/")
    } else {
        chars_of(display_path)
    };
    for i in 0..listing.allowed_paths.len()
        invariant
            listing.enabled,
            location@ == location_of(display_path@),
            forall|k: int|
                0 <= k < i ==> !under_entry(location@, (#[trigger] listing.allowed_paths@[k])@),
    {
        let mut entry = chars_of(listing.allowed_paths[i].as_str());
        if crate::text::same_chars(&location, &entry) {
            return true;
        }
        entry.push('/');
        if crate::text::starts_with(&location, &entry) {
            return true;
        }
    }
    false
}

/// How to send a file.
#[derive(Debug)]
pub enum FilePlan {
    /// `416`: the range cannot be served; `Content-Range` is `bytes */<size>`.
    Unsatisfiable { range_header: String },
    /// Send `length` bytes from `start` with this status, `Content-Range` (for a range)
    /// and `Content-Type`.
    Send { status: u16, start: u64, length: u64, content_range: Option<String>, content_type: String },
}

/// A file plan with its texts as sequences.
pub enum FilePlanView {
    Unsatisfiable { range_header: Seq<char> },
    Send {
        status: u16,
        start: u64,
        length: int,
        content_range: Option<Seq<char>>,
        content_type: Seq<char>,
    },
}

impl View for FilePlan {
    type V = FilePlanView;

    open spec fn view(&self) -> FilePlanView {
        match self {
            FilePlan::Unsatisfiable { range_header } => FilePlanView::Unsatisfiable {
                range_header: range_header@,
            },
            FilePlan::Send { status, start, length, content_range, content_type } => FilePlanView::Send {
                status: *status,
                start: *start,
                length: *length as int,
                content_range: match content_range {
                    Some(c) => Some(c@),
                    None => None,
                },
                content_type: content_type@,
            },
        }
    }
}

/// The plan for sending a file named `file_name` of `size` bytes.
pub open spec fn file_plan_of(file_name: Seq<char>, size: u64, headers: Headers) -> FilePlanView {
    match header_lookup(headers.fields@, "range"@) {
        None => FilePlanView::Send {
            status: 200,
            start: 0,
            length: size as int,
            content_range: None,
            content_type: spec_content_type(file_name),
        },
        Some(v) => match range_of(v, size) {
            None => FilePlanView::Unsatisfiable { range_header: unsatisfied_range_of(size) },
            Some((s, e)) => FilePlanView::Send {
                status: 206,
                start: s,
                length: e - s + 1,
                content_range: Some(content_range_of(s, e, size)),
                content_type: spec_content_type(file_name),
            },
        },
    }
}

/// `Content-Range` for a refused range: `bytes */<size>`.
pub open spec fn unsatisfied_range_of(size: u64) -> Seq<char> {
    "bytes */"@ + decimal(size as nat)
}

/// `Content-Range` for a served range: `bytes <start>-<end>/<size>`.
pub open spec fn content_range_of(start: u64, end: u64, size: u64) -> Seq<char> {
    "bytes "@ + decimal(start as nat) + seq!['-'] + decimal(end as nat) + seq!['/'] + decimal(size as nat)
}

/// Plans the response for a file named `file_name` of `size` bytes: the whole file (200),
/// the requested range (206), or 416 where the `range` header cannot be served.
pub fn plan_file(file_name: &str, size: u64, headers: &Headers) -> (r: FilePlan)
    ensures
        r@ == file_plan_of(file_name@, size, *headers),
{
    let content_type = content_type_of(file_name);
    match headers.get("range") {
        None => FilePlan::Send { status: 200, start: 0, length: size, content_range: None, content_type },
        Some(v) => match parse_range(v.as_str(), size) {
            None => {
                let mut c: Vec<char> = Vec::new();
                push_str(&mut c, "bytes */");
                push_decimal(&mut c, size);
                FilePlan::Unsatisfiable { range_header: string_of(&c) }
            },
            Some((start, end)) => {
                let mut c: Vec<char> = Vec::new();
                push_str(&mut c, "bytes ");
                push_decimal(&mut c, start);
                c.push('-');
                push_decimal(&mut c, end);
                c.push('/');
                push_decimal(&mut c, size);
                assert(c@ =~= content_range_of(start, end, size));
                FilePlan::Send {
                    status: 206,
                    start,
                    length: end - start + 1,
                    content_range: Some(string_of(&c)),
                    content_type,
                }
            },
        },
    }
}

/// `.inc`, `.sp` and `.smx` are never served, whatever the rules say (an `allow` included):
/// such a request is refused, by the path check, a denying rule, or the extension check.
pub proof fn law_disabled_extensions_never_served(
    ctx: RequestContext,
    storage_root: LocalPath,
    auto_root: LocalPath,
    rules: Seq<Rule>,
    headers: Headers,
    ips: IpMatches,
)
    requires
        disabled_extension(ctx.facts.ext@),
    ensures
        !(plan_of(ctx, storage_root, auto_root, rules, headers, ips) is Lookup),
{
}

/// A request is looked up only below the storage root: the target begins with the root's
/// components and holds no `.` or `..` after them.
pub proof fn law_lookup_stays_within_storage(
    ctx: RequestContext,
    storage_root: LocalPath,
    auto_root: LocalPath,
    rules: Seq<Rule>,
    headers: Headers,
    ips: IpMatches,
)
    requires
        plan_of(ctx, storage_root, auto_root, rules, headers, ips) is Lookup,
    ensures
        ({
            let t = plan_of(ctx, storage_root, auto_root, rules, headers, ips)->target;
            &&& t.0 == storage_root.absolute
            &&& parts_of(storage_root).len() <= t.1.len()
            &&& t.1.take(parts_of(storage_root).len() as int) == parts_of(storage_root)
            &&& forall|k: int|
                parts_of(storage_root).len() <= k < t.1.len() ==> #[trigger] t.1[k]
                    != crate::paths::dot() && t.1[k] != crate::paths::dot_dot()
        }),
{
    crate::paths::law_resolved_path_stays_within_root(storage_root, ctx.url_path@);
}

/// A request is denied by a rule exactly when the rules' decision is a denial (and the path
/// stays within the storage root); the plan carries the rule's status, message and name.
pub proof fn law_rule_denial_is_answered(
    ctx: RequestContext,
    storage_root: LocalPath,
    auto_root: LocalPath,
    rules: Seq<Rule>,
    headers: Headers,
    ips: IpMatches,
)
    requires
        resolved_within(storage_root, ctx.url_path@) is Some,
    ensures
        (plan_of(ctx, storage_root, auto_root, rules, headers, ips) is Denied) <==> (rules_decision(
            rules,
            ctx.facts,
            headers,
            ips,
        ) is Deny),
        rules_decision(rules, ctx.facts, headers, ips) matches DecisionView::Deny {
            status,
            message,
            rule,
        } ==> plan_of(ctx, storage_root, auto_root, rules, headers, ips) == (PlanView::Denied {
            status,
            message,
            rule,
        }),
{
}

/// With listing disabled, no directory is listed.
pub proof fn law_listing_disabled_everywhere(listing: DirectoryListing, display_path: Seq<char>)
    requires
        !listing.enabled,
    ensures
        !listing_allowed_of(listing, display_path),
{
}

/// With listing enabled and no paths given, every directory may be listed.
pub proof fn law_listing_empty_paths_allow_all(listing: DirectoryListing, display_path: Seq<char>)
    requires
        listing.enabled,
        listing.allowed_paths@.len() == 0,
    ensures
        listing_allowed_of(listing, display_path),
{
}

/// An allowed path `p` allows `p` itself and every directory below it (`p/...`).
pub proof fn law_listing_entry_covers_subdirectories(
    listing: DirectoryListing,
    k: int,
    display_path: Seq<char>,
)
    requires
        listing.enabled,
        0 <= k < listing.allowed_paths@.len(),
        location_of(display_path) == listing.allowed_paths@[k]@ || has_prefix(
            location_of(display_path),
            listing.allowed_paths@[k]@.push('/'),
        ),
    ensures
        listing_allowed_of(listing, display_path),
{
    assert(under_entry(location_of(display_path), listing.allowed_paths@[k]@));
}

/// The listing page of a directory shown at `display_path`: its entries in listing order
/// (directories first, then by name), titled with its location and linking to its parent.
pub fn directory_page(items: Vec<DirectoryEntry>, display_path: &str) -> (r: String)
    ensures
        r@ == listing_of(sorted_entries(items@), location_of(display_path@), parent_of(display_path@)),
{
    let sorted = sort_entries(items);
    let current = if display_path.unicode_len() == 0 {
        string_of(&chars_of("/"))
    } else {
        string_of(&chars_of(display_path))
    };
    let parent = parent_path(display_path);
    generate_directory_listing(&sorted, current.as_str(), parent.as_str())
}

/// Appending a suffix to a path strictly below a root keeps it below that root.
pub proof fn lemma_suffix_keeps_prefix(root: Seq<Seq<char>>, p: Seq<Seq<char>>, ext: Seq<char>)
    requires
        root.len() < p.len(),
        p.take(root.len() as int) == root,
    ensures
        with_suffix(p, ext).len() == p.len(),
        with_suffix(p, ext).take(root.len() as int) == root,
{
    assert(with_suffix(p, ext).take(root.len() as int) =~= p.take(root.len() as int));
}

/// The compressed variants tried for a request stay below their root whenever the request
/// names something strictly below it (a request for the root itself is the exception: its
/// variants are the root's own name with `.bz2` or `.gz`).
pub proof fn law_fallbacks_stay_within_roots(
    ctx: RequestContext,
    storage_root: LocalPath,
    auto_root: LocalPath,
    rules: Seq<Rule>,
    headers: Headers,
    ips: IpMatches,
)
    requires
        plan_of(ctx, storage_root, auto_root, rules, headers, ips) is Lookup,
    ensures
        ({
            let plan = plan_of(ctx, storage_root, auto_root, rules, headers, ips);
            let root = parts_of(storage_root);
            let auto = parts_of(auto_root);
            &&& plan->target.1.len() > root.len() ==> forall|k: int|
                0 <= k < 2 ==> (#[trigger] plan->fallbacks[k]).1.take(root.len() as int) == root
            &&& forall|k: int|
                2 <= k < plan->fallbacks.len() && resolved_within(auto_root, ctx.url_path@)->0.len()
                    > auto.len() ==> (#[trigger] plan->fallbacks[k]).1.take(auto.len() as int) == auto
        }),
{
    let target = resolved_within(storage_root, ctx.url_path@)->0;
    let root = parts_of(storage_root);
    if target.len() > root.len() {
        lemma_suffix_keeps_prefix(root, target, ".bz2"@);
        lemma_suffix_keeps_prefix(root, target, ".gz"@);
    }
    if let Some(c) = resolved_within(auto_root, ctx.url_path@) {
        let auto = parts_of(auto_root);
        if c.len() > auto.len() {
            lemma_suffix_keeps_prefix(auto, c, ".bz2"@);
            lemma_suffix_keeps_prefix(auto, c, ".gz"@);
        }
    }
}

/// The answer to a refused request: `403 Forbidden` for a path that leaves the storage root
/// or a blocked extension; for a rule's denial, its status (403 where that is no valid
/// status code) and its message; nothing for a lookup.
pub open spec fn refusal_of(plan: PlanView) -> Option<(u16, Seq<char>)> {
    match plan {
        PlanView::Escape => Some((403, "Forbidden"@)),
        PlanView::Denied { status, message, rule } => Some((response_status_of(status), message)),
        PlanView::BlockedExtension { extension } => Some((403, "Forbidden"@)),
        PlanView::Lookup { target, fallbacks } => None,
    }
}

/// The status and body that a refused request is answered with.
pub fn refusal(plan: &RequestPlan) -> (r: Option<(u16, String)>)
    ensures
        match r {
            Some((status, body)) => refusal_of(plan@) == Some((status, body@)),
            None => refusal_of(plan@) is None,
        },
{
    match plan {
        RequestPlan::Escape => Some((403, string_of(&chars_of("Forbidden")))),
        RequestPlan::Denied { status, message, rule } => Some((response_status(*status), message.clone())),
        RequestPlan::BlockedExtension { extension } => Some((403, string_of(&chars_of("Forbidden")))),
        RequestPlan::Lookup { target, fallbacks } => None,
    }
}

/// `.inc`, `.sp` and `.smx` files are never served: for a request within the storage root
/// that no rule refuses, the plan refuses the extension exactly when it is one of these
/// three, and looks the file up otherwise.
pub proof fn law_blocked_extensions(
    ctx: RequestContext,
    storage_root: LocalPath,
    auto_root: LocalPath,
    rules: Seq<Rule>,
    headers: Headers,
    ips: IpMatches,
)
    requires
        resolved_within(storage_root, ctx.url_path@) is Some,
        !(rules_decision(rules, ctx.facts, headers, ips) is Deny),
    ensures
        ({
            let plan = plan_of(ctx, storage_root, auto_root, rules, headers, ips);
            let ext = ctx.facts.ext@;
            let blocked = ext == ".inc"@ || ext == ".sp"@ || ext == ".smx"@;
            &&& blocked ==> plan == PlanView::BlockedExtension { extension: ext }
            &&& !blocked ==> plan is Lookup
        }),
{
}

proof fn lemma_first_index_of(s: Seq<char>, c: char)
    ensures
        !s.contains(c) ==> first_index_of(s, c) is None,
        forall|k: int|
            0 <= k < s.len() && s[k] == c && (forall|j: int| 0 <= j < k ==> s[j] != c)
                ==> #[trigger] first_index_of(s, c) == Some(k),
    decreases s.len(),
{
    if s.len() > 0 {
        lemma_first_index_of(s.drop_first(), c);
        if !s.contains(c) {
            assert(s[0] != c);
            assert(!s.drop_first().contains(c)) by {
                if s.drop_first().contains(c) {
                    let i = choose|i: int| 0 <= i < s.drop_first().len() && s.drop_first()[i] == c;
                    assert(s[i + 1] == c);
                }
            }
        }
        assert forall|k: int|
            0 <= k < s.len() && s[k] == c && (forall|j: int| 0 <= j < k ==> s[j] != c) implies
            #[trigger] first_index_of(s, c) == Some(k) by {
            if k > 0 {
                assert(s[0] != c);
                let t = s.drop_first();
                assert(t[k - 1] == c);
                assert forall|j: int| 0 <= j < k - 1 implies t[j] != c by {
                    assert(t[j] == s[j + 1]);
                }
                assert(first_index_of(t, c) == Some(k - 1));
            }
        }
    }
}

/// Where the visitor's address comes from: `cf-connecting-ip` where it has text, else
/// `x-real-ip`, else the first entry of `x-forwarded-for` (the text before its first comma,
/// or the whole value where it has no comma), trimmed, where that is not empty; else the
/// connection's peer. The address found is normalised.
pub proof fn law_client_address_source(headers: Headers, remote_ip: Seq<char>)
    ensures
        ({
            let ip = client_ip_of(headers, remote_ip);
            let cf = read_header(headers, "cf-connecting-ip"@);
            let xreal = read_header(headers, "x-real-ip"@);
            let fwd = read_header(headers, "x-forwarded-for"@);
            match cf {
                Some(v) => ip == normalized_ip(v),
                None => match xreal {
                    Some(v) => ip == normalized_ip(v),
                    None => match fwd {
                        None => ip == normalized_ip(remote_ip),
                        Some(v) => {
                            &&& !v.contains(',') ==> ip == normalized_ip(
                                if trim(v).len() > 0 { trim(v) } else { remote_ip },
                            )
                            &&& forall|k: int|
                                0 <= k < v.len() && v[k] == ',' && (forall|j: int|
                                    0 <= j < k ==> v[j] != ',') ==> ip == normalized_ip(
                                    if trim(#[trigger] v.take(k)).len() > 0 {
                                        trim(v.take(k))
                                    } else {
                                        remote_ip
                                    },
                                )
                        },
                    },
                },
            }
        }),
{
    if let Some(v) = read_header(headers, "x-forwarded-for"@) {
        lemma_first_index_of(v, ',');
    }
}

/// A directory may be listed exactly when listing is enabled and either no paths are
/// given, or its location (`/` for the root) is one of them or lies below one: it equals an
/// allowed path `p`, or starts with `p` followed by `/`. A directory above an allowed path
/// is not listed.
pub proof fn law_listing_exactly_within_entries(listing: DirectoryListing, display_path: Seq<char>)
    ensures
        ({
            let location = if display_path.len() == 0 { seq!['/'] } else { display_path };
            listing_allowed_of(listing, display_path) <==> listing.enabled && (
            listing.allowed_paths@.len() == 0 || exists|k: int|
                0 <= k < listing.allowed_paths@.len() && ({
                    let p = (#[trigger] listing.allowed_paths@[k])@;
                    location == p || (p.len() < location.len() && location.take(p.len() as int) == p
                        && location[p.len() as int] == '/')
                }))
        }),
{
    reveal_strlit("/");
    let location = if display_path.len() == 0 { seq!['/'] } else { display_path };
    assert(location_of(display_path) == location);
    assert forall|k: int| 0 <= k < listing.allowed_paths@.len() implies under_entry(
        location,
        (#[trigger] listing.allowed_paths@[k])@,
    ) == ({
        let p = listing.allowed_paths@[k]@;
        location == p || (p.len() < location.len() && location.take(p.len() as int) == p
            && location[p.len() as int] == '/')
    }) by {
        let p = listing.allowed_paths@[k]@;
        let q = p.push('/');
        if p.len() < location.len() {
            assert(q.take(p.len() as int) =~= p);
            assert(q[p.len() as int] == '/');
            if location.take(q.len() as int) == q {
                assert(location.take(p.len() as int) =~= q.take(p.len() as int));
                assert(location[p.len() as int] == location.take(q.len() as int)[p.len() as int]);
            }
            if location.take(p.len() as int) == p && location[p.len() as int] == '/' {
                assert(location.take(q.len() as int) =~= q);
            }
        }
    }
}

/// The three forms of a `Range` value, for digit runs `a` and `b` (each empty or all
/// decimal digits with a value that fits in `u64`), on a file of `size` bytes:
/// `bytes=a-b` asks from byte `a` to byte `b`, clipped to the last byte; `bytes=a-` from
/// byte `a` to the end; `bytes=-b` for the last `b` bytes (the whole file where it is
/// shorter). A start past the file or after the end, an empty suffix or an empty file gives
/// no range.
pub proof fn law_range_forms(a: Seq<char>, b: Seq<char>, size: u64)
    requires
        a.len() > 0 || b.len() > 0,
        all_digits(a),
        all_digits(b),
        digits_value(a) <= u64::MAX,
        digits_value(b) <= u64::MAX,
    ensures
        range_of("bytes="@ + a + "-"@ + b, size) == if a.len() == 0 {
            let n = digits_value(b);
            if n == 0 || size == 0 {
                None
            } else {
                Some(((size - if n < size { n } else { size as nat }) as u64, (size - 1) as u64))
            }
        } else {
            let s = digits_value(a);
            let last: int = if size == 0 { 0 } else { size - 1 };
            let e: int = if b.len() == 0 {
                last
            } else if digits_value(b) < last {
                digits_value(b) as int
            } else {
                last
            };
            if s > e || s >= size {
                None
            } else {
                Some((s as u64, e as u64))
            }
        },
{
    reveal_strlit("bytes=");
    reveal_strlit("-");
    let v = "bytes="@ + a + "-"@ + b;
    assert(v.len() > 0 && v[0] == 'b');
    assert(!is_white_space(v[0]));
    let last_char = v[v.len() - 1];
    assert(is_digit(last_char) || last_char == '-') by {
        if b.len() > 0 {
            assert(last_char == b[b.len() - 1]);
        }
    }
    assert(!is_white_space(last_char));
    assert(trim_start(v) == v);
    assert(trim(v) == v);
    assert(v.take(6) =~= "bytes="@);
    let spec = v.skip(6);
    assert(spec =~= a + "-"@ + b);
    lemma_first_index_of(spec, '-');
    assert(spec[a.len() as int] == '-');
    assert forall|j: int| 0 <= j < a.len() implies spec[j] != '-' by {
        assert(spec[j] == a[j]);
        assert(is_digit(a[j]));
    }
    assert(first_index_of(spec, '-') == Some(a.len() as int));
    assert(spec.take(a.len() as int) =~= a);
    assert(spec.skip(a.len() as int + 1) =~= b);
    assert(unsigned_body(a) == a) by {
        if a.len() > 0 {
            assert(is_digit(a[0]));
        }
    }
    assert(unsigned_body(b) == b) by {
        if b.len() > 0 {
            assert(is_digit(b[0]));
        }
    }
}

} // verus!

use std::path::{Component, Path, PathBuf};

use fastdl::archive::{archive_jobs, is_archive, temporary_path, Compression, Summary};
use fastdl::paths::{append_extension, parent_path, path_extension, resolve_within, split_segments, LocalPath};

fn local(p: &Path) -> LocalPath {
    let mut absolute = false;
    let mut parts = Vec::new();
    for c in p.components() {
        match c {
            Component::RootDir => absolute = true,
            Component::CurDir => parts.push(".".to_string()),
            Component::ParentDir => parts.push("..".to_string()),
            Component::Normal(s) => parts.push(s.to_string_lossy().to_string()),
            Component::Prefix(_) => {}
        }
    }
    LocalPath { absolute, parts }
}

fn path_of(p: &LocalPath) -> PathBuf {
    let mut out = if p.absolute { PathBuf::from("/") } else { PathBuf::new() };
    for part in &p.parts {
        out.push(part);
    }
    out
}

/// The confinement check written directly with `std::path`, as a reference model.
fn std_resolve_within(storage_root: &Path, url_path: &str) -> Option<PathBuf> {
    let candidate = storage_root.join(url_path.trim_start_matches('/'));
    let mut normalized = PathBuf::new();
    for component in candidate.components() {
        match component {
            Component::ParentDir => {
                normalized.pop();
            }
            Component::CurDir => {}
            other => normalized.push(other.as_os_str()),
        }
    }
    match normalized.starts_with(storage_root) {
        true => Some(normalized),
        false => None,
    }
}

const URLS: [&str; 18] = [
    "/", "", "/maps/de_dust2.bsp", "/maps/", "//maps//x", "/../etc/passwd", "/maps/../../x",
    "/maps/./a/../b", "/./", "/..", "/a/b/..", "/a/.../b", "/.hidden", "x/y", "/a%2F..",
    "/materials/models/player.vmt", "/../storage/secret", "/maps/..",
];

#[test]
fn resolve_within_agrees_with_std_paths() {
    for root in ["/app/storage", "/", "storage", "./storage"] {
        let r = Path::new(root);
        for url in URLS {
            let ours = resolve_within(&local(r), url).map(|p| path_of(&p));
            let theirs = std_resolve_within(r, url);
            assert_eq!(ours, theirs, "root {root} url {url}");
        }
    }
}

#[test]
fn resolve_within_blocks_escapes() {
    let root = local(Path::new("/app/storage"));
    assert!(resolve_within(&root, "/../etc/passwd").is_none());
    assert!(resolve_within(&root, "/maps/../../storage2/x").is_none());
    let t = resolve_within(&root, "/maps/../models/x.mdl").unwrap();
    assert_eq!(path_of(&t), PathBuf::from("/app/storage/models/x.mdl"));
    let r = resolve_within(&root, "/").unwrap();
    assert_eq!(path_of(&r), PathBuf::from("/app/storage"));
}

#[test]
fn segments_drop_empty_and_dot() {
    assert_eq!(split_segments("/a//b/./c/"), vec!["a", "b", "c"]);
    assert_eq!(split_segments("/a/../b"), vec!["a", "..", "b"]);
    assert!(split_segments("/").is_empty());
}

#[test]
fn path_extension_agrees_with_std() {
    for url in URLS.iter().copied().chain([
        "/maps/de_dust2.bsp.bz2", "/file.", "/.bz2", "/a.b/", "/a.b/.", "/x.tar.gz", "/..",
        "/plugins/x.SMX", "/sourcemod/a.sp", "/no_ext",
    ]) {
        let expected = Path::new(url)
            .extension()
            .map(|v| format!(".{}", v.to_string_lossy()))
            .unwrap_or_default();
        assert_eq!(path_extension(url), expected, "url {url}");
    }
}

#[test]
fn append_extension_agrees_with_os_string_push() {
    for p in ["/app/auto/maps/de_dust2.bsp", "/", "", "a", "/a/b"] {
        for ext in [".bz2", ".gz", ".part", "x", "", ".", "/c", "y/z"] {
            let ours = path_of(&append_extension(&local(Path::new(p)), ext));
            let mut value = PathBuf::from(p).into_os_string();
            value.push(ext);
            assert_eq!(ours, PathBuf::from(value), "{p} {ext}");
        }
    }
}

fn std_parent_path(display_path: &str) -> String {
    let trimmed = display_path.trim_end_matches('/');
    match trimmed.rfind('/') {
        Some(0) | None => "/".to_string(),
        Some(index) => trimmed[..index].to_string(),
    }
}

#[test]
fn parent_path_cases() {
    assert_eq!(parent_path("/maps/sub"), "/maps");
    assert_eq!(parent_path("/maps"), "/");
    assert_eq!(parent_path("/maps/sub/"), "/maps");
    assert_eq!(parent_path(""), "/");
    assert_eq!(parent_path("///"), "/");
    for p in ["", "/", "/a", "/a/b", "/a/b/", "a", "a/b", "//a//", "/ä/ö/ü"] {
        assert_eq!(parent_path(p), std_parent_path(p), "{p}");
    }
}

#[test]
fn archives_are_not_compressed_again() {
    assert!(is_archive(&local(Path::new("/s/maps/a.bsp.bz2"))));
    assert!(is_archive(&local(Path::new("/s/maps/a.gz"))));
    assert!(!is_archive(&local(Path::new("/s/maps/a.bsp"))));
    assert!(!is_archive(&local(Path::new("/s/maps/.gz"))));
    assert!(!is_archive(&local(Path::new("/s/maps/a.GZ"))));
}

#[test]
fn archive_jobs_target_the_auto_root() {
    let storage = local(Path::new("/app/storage"));
    let auto = local(Path::new("/app/auto"));
    let jobs = archive_jobs(&storage, &auto, &local(Path::new("/app/storage/maps/de_dust2.bsp")));
    assert_eq!(jobs.len(), 2);
    assert_eq!(path_of(&jobs[0].target), PathBuf::from("/app/auto/maps/de_dust2.bsp.bz2"));
    assert_eq!(jobs[0].compression, Compression::Bzip2);
    assert_eq!(path_of(&jobs[1].target), PathBuf::from("/app/auto/maps/de_dust2.bsp.gz"));
    assert_eq!(jobs[1].compression, Compression::Gzip);
    assert_eq!(jobs[1].compression.suffix(), ".gz");
    assert!(archive_jobs(&storage, &auto, &local(Path::new("/app/storage/maps/x.bz2"))).is_empty());
    assert!(archive_jobs(&storage, &auto, &local(Path::new("/elsewhere/x.bsp"))).is_empty());
    let tmp = temporary_path(&jobs[0].target);
    assert_eq!(path_of(&tmp), PathBuf::from("/app/auto/maps/de_dust2.bsp.bz2.part"));
}

#[test]
fn summary_tallies() {
    let mut s = Summary::start(3);
    s.record(true);
    s.record(false);
    s.record(false);
    assert_eq!((s.files, s.created, s.skipped), (3, 2, 1));
}

use fastdl::directory::{
    encode_link, escape_html, file_icon, format_size, generate_directory_listing, icon_for_extension,
    sort_entries,
    DirectoryEntry, ARCHIVE, CODE, FILE, FOLDER, IMAGE, MUSIC, PACKAGE, VIDEO,
};
use percent_encoding::{utf8_percent_encode, AsciiSet, CONTROLS};

/// The size formatting written with floating point, as a reference model.
fn float_format_size(bytes: u64) -> String {
    if bytes == 0 {
        return "0".to_string();
    }
    let units = ["B", "KB", "MB", "GB"];
    let exponent = ((bytes as f64).ln() / 1024_f64.ln()).floor() as usize;
    let unit = match units.get(exponent) {
        Some(unit) => unit,
        None => return bytes.to_string(),
    };
    let value = bytes as f64 / 1024_f64.powi(exponent as i32);
    format!("{}{}", (value * 100.0).round() / 100.0, unit)
}

#[test]
fn format_size_examples() {
    assert_eq!(format_size(0), "0");
    assert_eq!(format_size(1), "1B");
    assert_eq!(format_size(1023), "1023B");
    assert_eq!(format_size(1024), "1KB");
    assert_eq!(format_size(1536), "1.5KB");
    assert_eq!(format_size(1075), "1.05KB");
    assert_eq!(format_size(1048575), "1024KB");
    assert_eq!(format_size(5 * 1024 * 1024 * 1024), "5GB");
    assert_eq!(format_size(1u64 << 40), "1099511627776");
    assert_eq!(format_size(u64::MAX), "18446744073709551615");
}

#[test]
fn format_size_agrees_with_floating_point() {
    let mut values: Vec<u64> = Vec::new();
    for k in 0..64u32 {
        let p = 1u64 << k;
        values.extend([p.saturating_sub(1), p, p.saturating_add(1)]);
    }
    for k in 0..5u32 {
        let p = 1024u64.pow(k);
        for d in 0..50u64 {
            values.push(p.saturating_add(d));
            values.push(p.saturating_sub(d));
        }
    }
    let mut x: u64 = 0x9E37_79B9_7F4A_7C15;
    for _ in 0..20000 {
        x ^= x << 13;
        x ^= x >> 7;
        x ^= x << 17;
        values.push(x >> (x % 64));
    }
    for b in 0..5000u64 {
        values.push(b);
        values.push(b * 1023);
    }
    for v in values {
        assert_eq!(format_size(v), float_format_size(v), "{v}");
    }
}

#[test]
fn icons_by_extension() {
    assert_eq!(file_icon("setup.EXE"), PACKAGE);
    assert_eq!(file_icon("logo.png"), IMAGE);
    assert_eq!(file_icon("intro.mkv"), VIDEO);
    assert_eq!(file_icon("song.MP3"), MUSIC);
    assert_eq!(file_icon("de_dust2.bsp.bz2"), ARCHIVE);
    assert_eq!(file_icon("main.rs"), CODE);
    assert_eq!(file_icon("de_dust2.bsp"), FILE);
    assert_eq!(file_icon("gz"), ARCHIVE);
    assert_eq!(file_icon(".json"), CODE);
    assert_ne!(FOLDER, FILE);
}

fn replace_chain_escape(value: &str) -> String {
    value
        .replace('&', "&amp;")
        .replace('<', "&lt;")
        .replace('>', "&gt;")
        .replace('"', "&quot;")
        .replace('\'', "&#39;")
}

#[test]
fn escaping() {
    assert_eq!(escape_html("<a href=\"x\">Tom & 'Jerry'</a>"), "&lt;a href=&quot;x&quot;&gt;Tom &amp; &#39;Jerry&#39;&lt;/a&gt;");
    for s in ["", "plain", "&amp;", "<<>>", "ä&ö", "\"'"] {
        assert_eq!(escape_html(s), replace_chain_escape(s));
    }
    let escaped = escape_html("<script>alert('x')</script>");
    assert!(!escaped.contains('<') && !escaped.contains('>') && !escaped.contains('\''));
}

const PATH_SET: &AsciiSet = &CONTROLS.add(b' ').add(b'"').add(b'<').add(b'>').add(b'`').add(b'{').add(b'}');

#[test]
fn link_encoding_agrees_with_percent_encoding() {
    for s in ["/maps/de dust2.bsp", "/a\"b<c>d`e{f}g", "/ä/ö", "/\u{7f}\n", "/100%/#?", "/plain-path_1.txt"] {
        assert_eq!(encode_link(s), utf8_percent_encode(s, PATH_SET).to_string(), "{s}");
    }
    assert_eq!(encode_link("/a b"), "/a%20b");
}

#[test]
fn entries_sort_directories_first_then_by_name() {
    let items = vec![
        DirectoryEntry { name: "b".to_string(), is_directory: false, size: Some(1) },
        DirectoryEntry { name: "maps".to_string(), is_directory: true, size: None },
        DirectoryEntry { name: "a".to_string(), is_directory: false, size: Some(2) },
        DirectoryEntry { name: "Z".to_string(), is_directory: false, size: Some(3) },
        DirectoryEntry { name: "ab".to_string(), is_directory: false, size: Some(4) },
        DirectoryEntry { name: "ä".to_string(), is_directory: false, size: Some(5) },
        DirectoryEntry { name: "materials".to_string(), is_directory: true, size: None },
    ];
    let mut expected: Vec<(bool, String)> = items.iter().map(|e| (e.is_directory, e.name.clone())).collect();
    expected.sort_by(|first, second| match (first.0, second.0) {
        (true, false) => std::cmp::Ordering::Less,
        (false, true) => std::cmp::Ordering::Greater,
        _ => first.1.cmp(&second.1),
    });
    let sorted = sort_entries(items);
    let names: Vec<&str> = sorted.iter().map(|e| e.name.as_str()).collect();
    assert_eq!(names, vec!["maps", "materials", "Z", "a", "ab", "b", "ä"]);
    let got: Vec<(bool, String)> = sorted.iter().map(|e| (e.is_directory, e.name.clone())).collect();
    assert_eq!(got, expected);
}

#[test]
fn listing_page_shape() {
    let items = vec![
        DirectoryEntry { name: "de dust2.bsp".to_string(), is_directory: false, size: Some(1536) },
        DirectoryEntry { name: "<sub>".to_string(), is_directory: true, size: None },
    ];
    let page = generate_directory_listing(&items, "/", "/");
    assert!(page.starts_with("<!DOCTYPE html>"));
    assert!(page.ends_with("</html>"));
    assert!(page.contains("href=\"/de%20dust2.bsp\""));
    assert!(page.contains("<span>de dust2.bsp</span>"));
    assert!(page.contains(">1.5KB</td>"));
    assert!(page.contains("href=\"/%3Csub%3E\""));
    assert!(page.contains("<span>&lt;sub&gt;/</span>"));
    assert!(page.contains("Service powered by FastDL"));
    let nested = generate_directory_listing(&items, "/maps", "/");
    assert!(nested.contains("href=\"/maps/de%20dust2.bsp\""));
    assert!(nested.contains("Index of /maps"));
}

#[test]
fn equal_entries_keep_their_order() {
    let items = vec![
        DirectoryEntry { name: "x".to_string(), is_directory: false, size: Some(1) },
        DirectoryEntry { name: "d".to_string(), is_directory: true, size: None },
        DirectoryEntry { name: "x".to_string(), is_directory: false, size: Some(2) },
        DirectoryEntry { name: "x".to_string(), is_directory: false, size: Some(3) },
    ];
    let sorted = sort_entries(items);
    let sizes: Vec<Option<u64>> = sorted.iter().map(|e| e.size).collect();
    assert_eq!(sizes, vec![None, Some(1), Some(2), Some(3)]);
}

#[test]
fn icons_by_lower_case_extension() {
    assert_eq!(icon_for_extension("exe"), PACKAGE);
    assert_eq!(icon_for_extension("png"), IMAGE);
    assert_eq!(icon_for_extension("mkv"), VIDEO);
    assert_eq!(icon_for_extension("mp3"), MUSIC);
    assert_eq!(icon_for_extension("bz2"), ARCHIVE);
    assert_eq!(icon_for_extension("rs"), CODE);
    assert_eq!(icon_for_extension("EXE"), FILE);
    assert_eq!(icon_for_extension(""), FILE);
    assert_eq!(file_icon("Photo.JPG"), IMAGE);
    assert_eq!(file_icon("README"), FILE);
}

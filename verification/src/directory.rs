//! The directory listing page: sizes, icons, escaping, link encoding, entry order and the
//! page itself.

use vstd::prelude::*;

use crate::text::{chars_of, decimal, push_decimal, push_str, spec_to_lowercase, string_of};

verus! {

/// One entry of a listed directory.
#[derive(Debug)]
pub struct DirectoryEntry {
    pub name: String,
    pub is_directory: bool,
    pub size: Option<u64>,
}

/// Icon of a folder.
pub const FOLDER: &'static str = r#"<svg xmlns="http://www.w3.org/2000/svg" width="20" height="20" viewBox="0 0 24 24" fill="none" stroke="currentColor" stroke-width="2" stroke-linecap="round" stroke-linejoin="round"><path d="M20 20a2 2 0 0 0 2-2V8a2 2 0 0 0-2-2h-7.9a2 2 0 0 1-1.69-.9L9.6 3.9A2 2 0 0 0 7.93 3H4a2 2 0 0 0-2 2v13a2 2 0 0 0 2 2Z"/></svg>"#;

/// Icon of a plain file.
pub const FILE: &'static str = r#"<svg xmlns="http://www.w3.org/2000/svg" width="20" height="20" viewBox="0 0 24 24" fill="none" stroke="currentColor" stroke-width="2" stroke-linecap="round" stroke-linejoin="round"><path d="M15 2H6a2 2 0 0 0-2 2v16a2 2 0 0 0 2 2h12a2 2 0 0 0 2-2V7Z"/><path d="M14 2v4a2 2 0 0 0 2 2h4"/></svg>"#;

/// Icon of a archive.
pub const ARCHIVE: &'static str = r#"<svg xmlns="http://www.w3.org/2000/svg" width="20" height="20" viewBox="0 0 24 24" fill="none" stroke="currentColor" stroke-width="2" stroke-linecap="round" stroke-linejoin="round"><rect width="20" height="5" x="2" y="3" rx="1"/><path d="M4 8v11a2 2 0 0 0 2 2h12a2 2 0 0 0 2-2V8"/><path d="M10 12h4"/></svg>"#;

/// Icon of a image.
pub const IMAGE: &'static str = r#"<svg xmlns="http://www.w3.org/2000/svg" width="20" height="20" viewBox="0 0 24 24" fill="none" stroke="currentColor" stroke-width="2" stroke-linecap="round" stroke-linejoin="round"><rect width="18" height="18" x="3" y="3" rx="2" ry="2"/><circle cx="9" cy="9" r="2"/><path d="m21 15-3.086-3.086a2 2 0 0 0-2.828 0L6 21"/></svg>"#;

/// Icon of a video.
pub const VIDEO: &'static str = r#"<svg xmlns="http://www.w3.org/2000/svg" width="20" height="20" viewBox="0 0 24 24" fill="none" stroke="currentColor" stroke-width="2" stroke-linecap="round" stroke-linejoin="round"><path d="m16 13 5.223 3.482a.5.5 0 0 0 .777-.416V7.87a.5.5 0 0 0-.752-.432L16 10.5"/><rect x="2" y="6" width="14" height="12" rx="2"/></svg>"#;

/// Icon of a audio.
pub const MUSIC: &'static str = r#"<svg xmlns="http://www.w3.org/2000/svg" width="20" height="20" viewBox="0 0 24 24" fill="none" stroke="currentColor" stroke-width="2" stroke-linecap="round" stroke-linejoin="round"><path d="M9 18V5l12-2v13"/><circle cx="6" cy="18" r="3"/><circle cx="18" cy="16" r="3"/></svg>"#;

/// Icon of a source code.
pub const CODE: &'static str = r#"<svg xmlns="http://www.w3.org/2000/svg" width="20" height="20" viewBox="0 0 24 24" fill="none" stroke="currentColor" stroke-width="2" stroke-linecap="round" stroke-linejoin="round"><path d="m16 18 6-6-6-6"/><path d="m8 6-6 6 6 6"/></svg>"#;

/// Icon of a installer package.
pub const PACKAGE: &'static str = r#"<svg xmlns="http://www.w3.org/2000/svg" width="20" height="20" viewBox="0 0 24 24" fill="none" stroke="currentColor" stroke-width="2" stroke-linecap="round" stroke-linejoin="round"><path d="m7.5 4.27 9 5.15"/><path d="M21 8a2 2 0 0 0-1-1.73l-7-4a2 2 0 0 0-2 0l-7 4A2 2 0 0 0 3 8v8a2 2 0 0 0 1 1.73l7 4a2 2 0 0 0 2 0l7-4A2 2 0 0 0 21 16Z"/><path d="m3.3 7 8.7 5 8.7-5"/><path d="M12 22V12"/></svg>"#;

/// Text of a listing row, part 0.
pub const ROW_0: &'static str = r#"
              <tr class="hover:bg-blue-50 transition-all duration-300">
                <td class="px-6 py-4">
                  <a href=""#;

/// Text of a listing row, part 1.
pub const ROW_1: &'static str = r#"" class="text-black transition-all duration-300 hover:text-gray-700 font-medium flex items-center gap-3">
                    "#;

/// Text of a listing row, part 2.
pub const ROW_2: &'static str = r#"
                    <span>"#;

/// Text of a listing row, part 3.
pub const ROW_3: &'static str = r#"</span>
                  </a>
                </td>
                <td class="px-6 py-4 text-right text-gray-600 font-mono text-sm">"#;

/// Text of a listing row, part 4.
pub const ROW_4: &'static str = r#"</td>
              </tr>"#;

/// Text of the listing page, part 0.
pub const PAGE_0: &'static str = r#"<!DOCTYPE html>
<html lang="en">
  <head>
    <meta charset="UTF-8" />
    <meta name="viewport" content="width=device-width, initial-scale=1.0" />
    <title>Index of "#;

/// Text of the listing page, part 1.
pub const PAGE_1: &'static str = r#"</title>
    <script src="https://cdn.jsdelivr.net/npm/@tailwindcss/browser@4"></script>
  </head>
  <body class="bg-gray-50 text-gray-900 min-h-screen">
    <div class="container mx-auto px-6 py-12 max-w-5xl">
      <div class="mb-8">
        <h1 class="text-4xl font-bold text-gray-900 mb-3">Index of "#;

/// Text of the listing page, part 2.
pub const PAGE_2: &'static str = r#"</h1>
      </div>
      <div class="bg-white rounded-md shadow-lg border border-gray-200 overflow-hidden">
        <div class="overflow-x-auto">
          <table class="w-full">
            <thead class="bg-gradient-to-r from-gray-50 to-gray-100">
              <tr>
                <th class="px-6 py-4 text-left text-xs font-bold text-gray-700 uppercase tracking-widest">Name</th>
                <th class="px-6 py-4 text-right text-xs font-bold text-gray-700 uppercase tracking-widest">Size</th>
              </tr>
            </thead>
            <tbody class="divide-y divide-gray-100">
              <tr class="hover:bg-blue-50 transition-all duration-300">
                <td class="px-6 py-4">
                  <a href=""#;

/// Text of the listing page, part 3.
pub const PAGE_3: &'static str = r#"" class="text-black hover:text-gray-700 transition-all duration-300 font-semibold flex items-center gap-3">
                    "#;

/// Text of the listing page, part 4.
pub const PAGE_4: &'static str = r#"
                    <span>Parent Directory</span>
                  </a>
                </td>
                <td class="px-6 py-4 text-right text-gray-500 font-mono text-sm">-</td>
              </tr>"#;

/// Text of the listing page, part 5.
pub const PAGE_5: &'static str = r#"
            </tbody>
          </table>
        </div>
      </div>
      <div class="mt-10 text-center">
        <p class="text-gray-500 text-sm">Service powered by FastDL</p>
      </div>
    </div>
  </body>
</html>"#;


/// The unit names by exponent of 1024.
pub open spec fn unit_of(e: nat) -> Seq<char> {
    if e == 0 {
        "B"@
    } else if e == 1 {
        "KB"@
    } else if e == 2 {
        "MB"@
    } else {
        "GB"@
    }
}

/// The power of 1024 that a byte count is shown in: 4 stands for "beyond GB".
pub open spec fn size_exponent(bytes: nat) -> nat {
    if bytes < 1024 {
        0
    } else if bytes < 1048576 {
        1
    } else if bytes < 1073741824 {
        2
    } else if bytes < 1099511627776 {
        3
    } else {
        4
    }
}

/// `1024` to the power `e`, for `e < 4`.
pub open spec fn unit_size(e: nat) -> nat {
    if e == 0 {
        1
    } else if e == 1 {
        1024
    } else if e == 2 {
        1048576
    } else {
        1073741824
    }
}

/// The two decimals of a hundredths remainder `r < 100`, without trailing zeros, after a dot.
pub open spec fn decimals_of(r: nat) -> Seq<char> {
    if r == 0 {
        Seq::empty()
    } else if r % 10 == 0 {
        seq!['.', crate::text::digit_char((r / 10) as int)]
    } else {
        seq!['.', crate::text::digit_char((r / 10) as int), crate::text::digit_char((r % 10) as int)]
    }
}

/// A byte count as the listing shows it: `0`; below 1 TiB, the value in the largest unit
/// it reaches, rounded half away from zero to two decimals, trailing zeros dropped, then
/// the unit (`1.5KB`, `1024KB`); from 1 TiB on, the plain count.
pub open spec fn size_text(bytes: u64) -> Seq<char> {
    if bytes == 0 {
        "0"@
    } else if size_exponent(bytes as nat) >= 4 {
        decimal(bytes as nat)
    } else {
        let e = size_exponent(bytes as nat);
        let hundredths = ((200 * bytes + unit_size(e)) as int / (2 * unit_size(e)) as int) as nat;
        decimal(hundredths / 100) + decimals_of(hundredths % 100) + unit_of(e)
    }
}

/// Formats a byte count for the listing.
pub fn format_size(bytes: u64) -> (r: String)
    ensures
        r@ == size_text(bytes),
{
    if bytes == 0 {
        return string_of(&chars_of("0"));
    }
    let (e, unit, name): (u64, u64, &str) = if bytes < 1024 {
        (0, 1, "B")
    } else if bytes < 1048576 {
        (1, 1024, "KB")
    } else if bytes < 1073741824 {
        (2, 1048576, "MB")
    } else if bytes < 1099511627776 {
        (3, 1073741824, "GB")
    } else {
        let mut out: Vec<char> = Vec::new();
        push_decimal(&mut out, bytes);
        return string_of(&out);
    };
    assert(e as nat == size_exponent(bytes as nat) && unit as nat == unit_size(e as nat));
    assert(name@ == unit_of(e as nat));
    let hundredths: u64 = (200 * bytes + unit) / (2 * unit);
    let whole = hundredths / 100;
    let rest = hundredths % 100;
    let mut out: Vec<char> = Vec::new();
    push_decimal(&mut out, whole);
    if rest != 0 {
        out.push('.');
        out.push(crate::text::digit(rest / 10));
        if rest % 10 != 0 {
            out.push(crate::text::digit(rest % 10));
        }
    }
    assert(out@ =~= decimal(whole as nat) + decimals_of(rest as nat));
    push_str(&mut out, name);
    string_of(&out)
}

/// The text after the last `.` of a name (all of it where there is none).
pub open spec fn after_last_dot(name: Seq<char>) -> Seq<char> {
    match crate::paths::last_index_of(name, '.') {
        Some(k) => name.skip(k + 1),
        None => name,
    }
}

/// Extensions shown with the package icon.
pub open spec fn package_ext(e: Seq<char>) -> bool {
    e == "exe"@ || e == "msi"@ || e == "dmg"@ || e == "pkg"@ || e == "deb"@ || e == "rpm"@ || e == "app"@
}

/// Extensions shown with the image icon.
pub open spec fn image_ext(e: Seq<char>) -> bool {
    e == "jpg"@ || e == "jpeg"@ || e == "png"@ || e == "gif"@ || e == "webp"@ || e == "svg"@
        || e == "ico"@ || e == "bmp"@ || e == "tiff"@
}

/// Extensions shown with the video icon.
pub open spec fn video_ext(e: Seq<char>) -> bool {
    e == "mp4"@ || e == "avi"@ || e == "mov"@ || e == "wmv"@ || e == "flv"@ || e == "webm"@
        || e == "mkv"@ || e == "m4v"@
}

/// Extensions shown with the audio icon.
pub open spec fn music_ext(e: Seq<char>) -> bool {
    e == "mp3"@ || e == "wav"@ || e == "ogg"@ || e == "flac"@ || e == "aac"@ || e == "m4a"@ || e == "wma"@
}

/// Extensions shown with the archive icon.
pub open spec fn archive_ext(e: Seq<char>) -> bool {
    e == "zip"@ || e == "rar"@ || e == "7z"@ || e == "tar"@ || e == "gz"@ || e == "bz2"@ || e == "xz"@
        || e == "bz"@
}

/// Extensions shown with the code icon.
pub open spec fn code_ext(e: Seq<char>) -> bool {
    e == "js"@ || e == "ts"@ || e == "jsx"@ || e == "tsx"@ || e == "html"@ || e == "css"@
        || e == "json"@ || e == "xml"@ || e == "yaml"@ || e == "yml"@ || e == "py"@ || e == "java"@
        || e == "cpp"@ || e == "c"@ || e == "h"@ || e == "php"@ || e == "rb"@ || e == "go"@
        || e == "rs"@ || e == "sh"@ || e == "bat"@ || e == "ps1"@ || e == "md"@
}

/// The icon of a file, by its lower-cased extension.
pub open spec fn icon_of(name: Seq<char>) -> Seq<char> {
    icon_of_extension(spec_to_lowercase(after_last_dot(name)))
}

/// The icon for a lower-cased extension.
pub open spec fn icon_of_extension(e: Seq<char>) -> Seq<char> {
    if package_ext(e) {
        PACKAGE@
    } else if image_ext(e) {
        IMAGE@
    } else if video_ext(e) {
        VIDEO@
    } else if music_ext(e) {
        MUSIC@
    } else if archive_ext(e) {
        ARCHIVE@
    } else if code_ext(e) {
        CODE@
    } else {
        FILE@
    }
}

fn is_one_of(e: &str, names: &Vec<&str>) -> (r: bool)
    ensures
        r == exists|k: int| 0 <= k < names@.len() && (#[trigger] names@[k])@ == e@,
{
    for i in 0..names.len()
        invariant
            forall|k: int| 0 <= k < i ==> (#[trigger] names@[k])@ != e@,
    {
        if crate::text::eq_str(e, names[i]) {
            return true;
        }
    }
    false
}

/// The icon of a file by its name.
pub fn file_icon(name: &str) -> (r: &'static str)
    ensures
        r@ == icon_of(name@),
        vstd::utf8::is_ascii_chars(name@) ==> r@ == icon_of_extension(
            crate::text::ascii_lowercase(after_last_dot(name@)),
        ),
{
    let cs = chars_of(name);
    let cs_len = cs.len();
    let tail = match crate::paths::find_last(&cs, '.') {
        Some(k) => {
            let t = crate::text::skip_chars(&cs, k + 1);
            t
        },
        None => cs,
    };
    let tail_text = string_of(&tail);
    proof {
        if vstd::utf8::is_ascii_chars(name@) {
            assert forall|i: int| 0 <= i < tail_text@.len() implies '\0' <= #[trigger] tail_text@[i]
                <= '\u{7f}' by {
                match crate::paths::last_index_of(name@, '.') {
                    Some(k) => assert(tail_text@[i] == name@[k + 1 + i]),
                    None => assert(tail_text@[i] == name@[i]),
                }
            }
        }
    }
    let lower = tail_text.as_str().to_lowercase();
    icon_for_extension(lower.as_str())
}

/// The icon for a lower-cased extension (`png`, `bz2`, ...).
pub fn icon_for_extension(e: &str) -> (r: &'static str)
    ensures
        r@ == icon_of_extension(e@),
{
    let package = vec!["exe", "msi", "dmg", "pkg", "deb", "rpm", "app"];
    let image = vec!["jpg", "jpeg", "png", "gif", "webp", "svg", "ico", "bmp", "tiff"];
    let video = vec!["mp4", "avi", "mov", "wmv", "flv", "webm", "mkv", "m4v"];
    let music = vec!["mp3", "wav", "ogg", "flac", "aac", "m4a", "wma"];
    let archive = vec!["zip", "rar", "7z", "tar", "gz", "bz2", "xz", "bz"];
    let code = vec![
        "js", "ts", "jsx", "tsx", "html", "css", "json", "xml", "yaml", "yml", "py", "java", "cpp",
        "c", "h", "php", "rb", "go", "rs", "sh", "bat", "ps1", "md",
    ];
    if is_one_of(e, &package) {
        PACKAGE
    } else if is_one_of(e, &image) {
        IMAGE
    } else if is_one_of(e, &video) {
        VIDEO
    } else if is_one_of(e, &music) {
        MUSIC
    } else if is_one_of(e, &archive) {
        ARCHIVE
    } else if is_one_of(e, &code) {
        CODE
    } else {
        FILE
    }
}

/// How one character is written in HTML text: `&`, `<`, `>`, `"` and `'` as entities.
pub open spec fn escape_char(c: char) -> Seq<char> {
    if c == '&' {
        "&amp;"@
    } else if c == '<' {
        "&lt;"@
    } else if c == '>' {
        "&gt;"@
    } else if c == '"' {
        "&quot;"@
    } else if c == '\'' {
        "&#39;"@
    } else {
        seq![c]
    }
}

/// `s` escaped for HTML, character by character.
pub open spec fn escaped(s: Seq<char>) -> Seq<char>
    decreases s.len(),
{
    if s.len() == 0 {
        Seq::empty()
    } else {
        escaped(s.drop_last()) + escape_char(s.last())
    }
}

/// Escapes `value` for HTML text and attributes.
pub fn escape_html(value: &str) -> (r: String)
    ensures
        r@ == escaped(value@),
{
    let cs = chars_of(value);
    let mut out: Vec<char> = Vec::new();
    for i in 0..cs.len()
        invariant
            cs@ == value@,
            out@ == escaped(cs@.take(i as int)),
    {
        assert(cs@.take(i + 1).drop_last() =~= cs@.take(i as int));
        let c = cs[i];
        if c == '&' {
            push_str(&mut out, "&amp;");
        } else if c == '<' {
            push_str(&mut out, "&lt;");
        } else if c == '>' {
            push_str(&mut out, "&gt;");
        } else if c == '"' {
            push_str(&mut out, "&quot;");
        } else if c == '\'' {
            push_str(&mut out, "&#39;");
        } else {
            out.push(c);
        }
    }
    assert(cs@.take(cs@.len() as int) =~= cs@);
    string_of(&out)
}

/// Escaped text holds no `<`, `>`, `"` or `'`, so it can neither open a tag nor close an
/// attribute.
pub proof fn law_escaped_text_is_inert(s: Seq<char>)
    ensures
        forall|k: int|
            0 <= k < escaped(s).len() ==> #[trigger] escaped(s)[k] != '<' && escaped(s)[k] != '>'
                && escaped(s)[k] != '"' && escaped(s)[k] != '\'',
    decreases s.len(),
{
    reveal_strlit("&amp;");
    reveal_strlit("&lt;");
    reveal_strlit("&gt;");
    reveal_strlit("&quot;");
    reveal_strlit("&#39;");
    if s.len() > 0 {
        law_escaped_text_is_inert(s.drop_last());
        let p = escaped(s.drop_last());
        let c = escape_char(s.last());
        assert forall|k: int| 0 <= k < escaped(s).len() implies #[trigger] escaped(s)[k] != '<'
            && escaped(s)[k] != '>' && escaped(s)[k] != '"' && escaped(s)[k] != '\'' by {
            if k < p.len() {
                assert(escaped(s)[k] == p[k]);
            } else {
                assert(escaped(s)[k] == c[k - p.len()]);
            }
        }
    }
}

/// Whether a byte is percent-encoded in listing links: non-ASCII bytes, controls, and
/// space, `"`, `<`, `>`, `` ` ``, `{`, `}`.
pub open spec fn encoded_byte(b: u8) -> bool {
    b < 0x20 || b >= 0x7f || b == 0x20 || b == 0x22 || b == 0x3c || b == 0x3e || b == 0x60
        || b == 0x7b || b == 0x7d
}

/// The upper-case hexadecimal digit for `d < 16`.
pub open spec fn hex_char(d: int) -> char {
    if d < 10 {
        ((d + 48) as u32) as char
    } else {
        ((d + 55) as u32) as char
    }
}

/// How one byte of a link is written.
pub open spec fn encode_byte(b: u8) -> Seq<char> {
    if encoded_byte(b) {
        seq!['%', hex_char(b as int / 16), hex_char(b as int % 16)]
    } else {
        seq![b as char]
    }
}

/// Bytes percent-encoded for a link.
pub open spec fn encoded(bytes: Seq<u8>) -> Seq<char>
    decreases bytes.len(),
{
    if bytes.len() == 0 {
        Seq::empty()
    } else {
        encoded(bytes.drop_last()) + encode_byte(bytes.last())
    }
}

fn hex(d: u8) -> (c: char)
    requires
        d < 16,
    ensures
        c == hex_char(d as int),
{
    let v: Vec<char> = vec!['0', '1', '2', '3', '4', '5', '6', '7', '8', '9', 'A', 'B', 'C', 'D', 'E', 'F'];
    assert(v@[d as int] == hex_char(d as int));
    v[d as usize]
}

/// Percent-encodes a link as `utf8_percent_encode` does with the listing's set: the
/// link's UTF-8 bytes, encoded where `encoded_byte` says.
pub fn encode_link(link: &str) -> (r: String)
    ensures
        r@ == encoded(vstd::utf8::encode_utf8(link@)),
{
    let bytes = link.as_bytes();
    let mut out: Vec<char> = Vec::new();
    for i in 0..bytes.len()
        invariant
            bytes@ == vstd::utf8::encode_utf8(link@),
            out@ == encoded(bytes@.take(i as int)),
    {
        assert(bytes@.take(i + 1).drop_last() =~= bytes@.take(i as int));
        let b = bytes[i];
        if b < 0x20 || b >= 0x7f || b == 0x20 || b == 0x22 || b == 0x3c || b == 0x3e || b == 0x60
            || b == 0x7b || b == 0x7d {
            out.push('%');
            out.push(hex(b / 16));
            out.push(hex(b % 16));
        } else {
            out.push(b as char);
        }
        assert(out@ =~= encoded(bytes@.take(i as int)) + encode_byte(b));
    }
    assert(bytes@.take(bytes@.len() as int) =~= bytes@);
    string_of(&out)
}

/// The link of an entry of the directory `current`.
pub open spec fn link_of(current: Seq<char>, name: Seq<char>) -> Seq<char> {
    if current == "/"@ {
        seq!['/'] + name
    } else {
        current + seq!['/'] + name
    }
}

/// The row of one entry.
pub open spec fn row_of(item: DirectoryEntry, current: Seq<char>) -> Seq<char> {
    let link = link_of(current, item.name@);
    let display = if item.is_directory { item.name@.push('/') } else { item.name@ };
    let size = if item.is_directory {
        "-"@
    } else {
        size_text(
            match item.size {
                Some(s) => s,
                None => 0,
            },
        )
    };
    let icon = if item.is_directory { FOLDER@ } else { icon_of(item.name@) };
    row_text(encoded(vstd::utf8::encode_utf8(link)), icon, escaped(display), size)
}

/// A listing row from its encoded link, icon, escaped name and size.
pub open spec fn row_text(link: Seq<char>, icon: Seq<char>, name: Seq<char>, size: Seq<char>) -> Seq<char> {
    ROW_0@ + link + ROW_1@ + icon + ROW_2@ + name + ROW_3@ + size + ROW_4@
}

/// The rows of `items`, in order.
pub open spec fn rows_of(items: Seq<DirectoryEntry>, current: Seq<char>) -> Seq<char>
    decreases items.len(),
{
    if items.len() == 0 {
        Seq::empty()
    } else {
        rows_of(items.drop_last(), current) + row_of(items.last(), current)
    }
}

/// The listing page of `items` in the directory `current`, whose parent link is `parent`.
pub open spec fn listing_of(items: Seq<DirectoryEntry>, current: Seq<char>, parent: Seq<char>) -> Seq<char> {
    PAGE_0@ + escaped(current) + PAGE_1@ + escaped(current) + PAGE_2@ + encoded(
        vstd::utf8::encode_utf8(parent),
    ) + PAGE_3@ + FOLDER@ + PAGE_4@ + rows_of(items, current) + PAGE_5@
}

fn push_row(out: &mut Vec<char>, item: &DirectoryEntry, current_path: &str)
    ensures
        final(out)@ == old(out)@ + row_of(*item, current_path@),
{
    let mut link: Vec<char> = Vec::new();
    if crate::text::eq_str(current_path, "/") {
        link.push('/');
    } else {
        push_str(&mut link, current_path);
        link.push('/');
    }
    push_str(&mut link, item.name.as_str());
    assert(link@ =~= link_of(current_path@, item.name@));
    let mut display = chars_of(item.name.as_str());
    if item.is_directory {
        display.push('/');
    }
    let size = if item.is_directory {
        string_of(&chars_of("-"))
    } else {
        format_size(
            match item.size {
                Some(s) => s,
                None => 0,
            },
        )
    };
    let icon = if item.is_directory { FOLDER } else { file_icon(item.name.as_str()) };
    let safe_name = escape_html(string_of(&display).as_str());
    let safe_link = encode_link(string_of(&link).as_str());
    let ghost start = out@;
    push_str(out, ROW_0);
    push_str(out, safe_link.as_str());
    push_str(out, ROW_1);
    push_str(out, icon);
    push_str(out, ROW_2);
    push_str(out, safe_name.as_str());
    push_str(out, ROW_3);
    push_str(out, size.as_str());
    push_str(out, ROW_4);
    assert(out@ =~= start + row_text(safe_link@, icon@, safe_name@, size@));
}

/// Renders the listing page of `items` in `current_path`, linking to `parent_link`.
pub fn generate_directory_listing(items: &Vec<DirectoryEntry>, current_path: &str, parent_link: &str) -> (r:
    String)
    ensures
        r@ == listing_of(items@, current_path@, parent_link@),
{
    let safe_current = escape_html(current_path);
    let safe_parent = encode_link(parent_link);
    let mut rows: Vec<char> = Vec::new();
    for i in 0..items.len()
        invariant
            rows@ == rows_of(items@.take(i as int), current_path@),
    {
        assert(items@.take(i + 1).drop_last() =~= items@.take(i as int));
        push_row(&mut rows, &items[i], current_path);
    }
    assert(items@.take(items@.len() as int) =~= items@);
    let mut out: Vec<char> = Vec::new();
    push_str(&mut out, PAGE_0);
    push_str(&mut out, safe_current.as_str());
    push_str(&mut out, PAGE_1);
    push_str(&mut out, safe_current.as_str());
    push_str(&mut out, PAGE_2);
    push_str(&mut out, safe_parent.as_str());
    push_str(&mut out, PAGE_3);
    push_str(&mut out, FOLDER);
    push_str(&mut out, PAGE_4);
    crate::text::push_all(&mut out, &rows);
    push_str(&mut out, PAGE_5);
    assert(out@ =~= listing_of(items@, current_path@, parent_link@));
    string_of(&out)
}

/// Lexicographic order of names by character (the byte order of their UTF-8 text).
pub open spec fn name_le(a: Seq<char>, b: Seq<char>) -> bool
    decreases a.len(),
{
    if a.len() == 0 {
        true
    } else if b.len() == 0 {
        false
    } else if a[0] < b[0] {
        true
    } else if a[0] > b[0] {
        false
    } else {
        name_le(a.drop_first(), b.drop_first())
    }
}

proof fn lemma_name_le_total(a: Seq<char>, b: Seq<char>)
    ensures
        name_le(a, b) || name_le(b, a),
    decreases a.len(),
{
    if a.len() > 0 && b.len() > 0 && a[0] == b[0] {
        lemma_name_le_total(a.drop_first(), b.drop_first());
    }
}

proof fn lemma_name_le_transitive(a: Seq<char>, b: Seq<char>, c: Seq<char>)
    requires
        name_le(a, b),
        name_le(b, c),
    ensures
        name_le(a, c),
    decreases a.len(),
{
    if a.len() > 0 && b.len() > 0 && c.len() > 0 && a[0] == b[0] && b[0] == c[0] {
        lemma_name_le_transitive(a.drop_first(), b.drop_first(), c.drop_first());
    }
}

/// Listing order: directories first, then by name.
pub open spec fn entry_le(a: DirectoryEntry, b: DirectoryEntry) -> bool {
    (a.is_directory && !b.is_directory) || (a.is_directory == b.is_directory && name_le(a.name@, b.name@))
}

/// Whether `s` is in listing order.
pub open spec fn listing_sorted(s: Seq<DirectoryEntry>) -> bool {
    forall|i: int, j: int| 0 <= i < j < s.len() ==> entry_le(#[trigger] s[i], #[trigger] s[j])
}

fn names_le(a: &str, b: &str) -> (r: bool)
    ensures
        r == name_le(a@, b@),
{
    let x = chars_of(a);
    let y = chars_of(b);
    let mut i: usize = 0;
    assert(x@.skip(0) =~= x@ && y@.skip(0) =~= y@);
    loop
        invariant
            i <= x@.len(),
            i <= y@.len(),
            name_le(a@, b@) == name_le(x@.skip(i as int), y@.skip(i as int)),
            x@ == a@,
            y@ == b@,
        decreases x@.len() - i,
    {
        if i == x.len() {
            return true;
        }
        if i == y.len() {
            return false;
        }
        assert(x@.skip(i as int)[0] == x@[i as int] && y@.skip(i as int)[0] == y@[i as int]);
        if x[i] < y[i] {
            return true;
        }
        if x[i] > y[i] {
            return false;
        }
        assert(x@.skip(i as int).drop_first() =~= x@.skip(i + 1));
        assert(y@.skip(i as int).drop_first() =~= y@.skip(i + 1));
        i = i + 1;
    }
}

fn entries_le(a: &DirectoryEntry, b: &DirectoryEntry) -> (r: bool)
    ensures
        r == entry_le(*a, *b),
{
    (a.is_directory && !b.is_directory) || (a.is_directory == b.is_directory && names_le(
        a.name.as_str(),
        b.name.as_str(),
    ))
}

proof fn lemma_entry_le_total(a: DirectoryEntry, b: DirectoryEntry)
    ensures
        entry_le(a, b) || entry_le(b, a),
{
    lemma_name_le_total(a.name@, b.name@);
}

proof fn lemma_entry_le_transitive(a: DirectoryEntry, b: DirectoryEntry, c: DirectoryEntry)
    requires
        entry_le(a, b),
        entry_le(b, c),
    ensures
        entry_le(a, c),
{
    if a.is_directory == b.is_directory && b.is_directory == c.is_directory {
        lemma_name_le_transitive(a.name@, b.name@, c.name@);
    }
}

/// Where `x` joins the ordered `s`: after every leading entry that may precede it, so that
/// entries of equal rank keep their order.
pub open spec fn insert_position(s: Seq<DirectoryEntry>, x: DirectoryEntry) -> int
    decreases s.len(),
{
    if s.len() == 0 {
        0
    } else if entry_le(s[0], x) {
        1 + insert_position(s.drop_first(), x)
    } else {
        0
    }
}

/// `items` in listing order, entries of equal rank in their given order.
pub open spec fn sorted_entries(items: Seq<DirectoryEntry>) -> Seq<DirectoryEntry>
    decreases items.len(),
{
    if items.len() == 0 {
        items
    } else {
        let s = sorted_entries(items.drop_last());
        s.insert(insert_position(s, items.last()), items.last())
    }
}

/// Puts directory entries in listing order: directories first, then by name; the entries
/// themselves are kept, each once, and entries of equal rank keep their order.
pub fn sort_entries(items: Vec<DirectoryEntry>) -> (r: Vec<DirectoryEntry>)
    ensures
        listing_sorted(r@),
        r@.to_multiset() == items@.to_multiset(),
        r@ == sorted_entries(items@),
{
    broadcast use vstd::seq_lib::group_to_multiset_ensures;

    let mut rest = items;
    let mut out: Vec<DirectoryEntry> = Vec::new();
    let ghost input = rest@;
    let ghost mut consumed: int = 0;
    assert(input.skip(0) =~= input);
    while rest.len() > 0
        invariant
            listing_sorted(out@),
            out@.to_multiset().add(rest@.to_multiset()) == input.to_multiset(),
            0 <= consumed <= input.len(),
            rest@ == input.skip(consumed),
            out@ == sorted_entries(input.take(consumed)),
        decreases rest@.len(),
    {
        let ghost before_rest = rest@;
        let x = rest.remove(0);
        assert(before_rest.remove(0) == rest@);
        assert(x == input[consumed]);
        let mut p: usize = 0;
        assert(out@.skip(0) =~= out@);
        while p < out.len() && entries_le(&out[p], &x)
            invariant
                p <= out@.len(),
                forall|k: int| 0 <= k < p ==> entry_le(#[trigger] out@[k], x),
                insert_position(out@, x) == p + insert_position(out@.skip(p as int), x),
            decreases out@.len() - p,
        {
            assert(out@.skip(p as int)[0] == out@[p as int]);
            assert(out@.skip(p as int).drop_first() =~= out@.skip(p + 1));
            p = p + 1;
        }
        proof {
            if p < out@.len() {
                assert(out@.skip(p as int)[0] == out@[p as int]);
            }
            assert(insert_position(out@, x) == p);
            assert(input.take(consumed + 1).drop_last() =~= input.take(consumed));
            assert(input.take(consumed + 1).last() == x);
        }
        let ghost before = out@;
        proof {
            if p < before.len() {
                lemma_entry_le_total(before[p as int], x);
                assert forall|k: int| p <= k < before.len() implies entry_le(x, #[trigger] before[k]) by {
                    if k > p {
                        lemma_entry_le_transitive(x, before[p as int], before[k]);
                    }
                }
            }
        }
        out.insert(p, x);
        proof {
            assert forall|i: int, j: int| 0 <= i < j < out@.len() implies entry_le(
                #[trigger] out@[i],
                #[trigger] out@[j],
            ) by {
                if i < p && j == p {
                } else if i == p && j > p {
                    assert(out@[j] == before[j - 1]);
                } else if i < p && j > p {
                    assert(out@[j] == before[j - 1]);
                    lemma_entry_le_transitive(before[i], x, before[j - 1]);
                } else if j < p {
                } else {
                    assert(out@[i] == before[i - 1]);
                    assert(out@[j] == before[j - 1]);
                }
            }
            assert(out@ == before.insert(p as int, x));
            vstd::seq_lib::to_multiset_insert(before, p as int, x);
            vstd::seq_lib::to_multiset_remove(before_rest, 0);
            assert(before_rest[0] == x);
            assert(out@.to_multiset() == before.to_multiset().insert(x));
            assert(rest@.to_multiset() == before_rest.to_multiset().remove(x));
            assert(before_rest.to_multiset().contains(x)) by {
                vstd::seq_lib::to_multiset_contains(before_rest, x);
                assert(before_rest.contains(x)) by { assert(before_rest[0] == x); }
            }
            assert(before_rest.to_multiset() =~= rest@.to_multiset().insert(x));
            assert(out@.to_multiset().add(rest@.to_multiset()) =~= before.to_multiset().add(
                before_rest.to_multiset(),
            ));
            assert(rest@ =~= input.skip(consumed + 1));
            consumed = consumed + 1;
        }
    }
    assert(rest@.to_multiset() =~= vstd::multiset::Multiset::empty());
    assert(consumed == input.len());
    assert(input.take(consumed) =~= input);
    assert(out@.to_multiset().add(rest@.to_multiset()) =~= out@.to_multiset());
    out
}

}

//! Paths as component lists: splitting request paths, confining them to a root, and
//! the small path edits the server makes.

use vstd::prelude::*;

use crate::text::{chars_of, string_of};

verus! {

/// A file-system path by its components: whether it starts at the root, then the
/// component names in order (`.` and `..` stand for the current and parent directory).
#[derive(Debug)]
pub struct LocalPath {
    pub absolute: bool,
    pub parts: Vec<String>,
}

/// The component sequence of a path.
pub open spec fn parts_of(p: LocalPath) -> Seq<Seq<char>> {
    p.parts@.map_values(|s: String| s@)
}

/// Pushing onto a list of strings pushes the string's characters onto its views.
pub proof fn lemma_views_push(s: Seq<String>, x: String)
    ensures
        s.push(x).map_values(|v: String| v@) == s.map_values(|v: String| v@).push(x@),
{
    assert(s.push(x).map_values(|v: String| v@) =~= s.map_values(|v: String| v@).push(x@));
}

/// The one-character sequence `.`.
pub open spec fn dot() -> Seq<char> {
    seq!['.']
}

/// The two-character sequence `..`.
pub open spec fn dot_dot() -> Seq<char> {
    seq!['.', '.']
}

/// Adds the finished piece `piece` to `done` unless it is empty or `.`.
pub open spec fn keep_piece(done: Seq<Seq<char>>, piece: Seq<char>) -> Seq<Seq<char>> {
    if piece.len() == 0 || piece == dot() {
        done
    } else {
        done.push(piece)
    }
}

/// Scanning `s`: the pieces finished so far and the piece being read.
pub open spec fn scan_pieces(s: Seq<char>) -> (Seq<Seq<char>>, Seq<char>)
    decreases s.len(),
{
    if s.len() == 0 {
        (Seq::empty(), Seq::empty())
    } else {
        let (done, piece) = scan_pieces(s.drop_last());
        if s.last() == '/' {
            (keep_piece(done, piece), Seq::empty())
        } else {
            (done, piece.push(s.last()))
        }
    }
}

/// The components of a path string below its root: the pieces between `/`, without empty
/// pieces and `.`.
pub open spec fn segments(s: Seq<char>) -> Seq<Seq<char>> {
    let (done, piece) = scan_pieces(s);
    keep_piece(done, piece)
}

/// Splits a path string into its components below the root.
pub fn split_segments(s: &str) -> (r: Vec<String>)
    ensures
        r@.map_values(|x: String| x@) == segments(s@),
{
    let cs = chars_of(s);
    let mut done: Vec<String> = Vec::new();
    let mut piece: Vec<char> = Vec::new();
    for i in 0..cs.len()
        invariant
            cs@ == s@,
            (done@.map_values(|x: String| x@), piece@) == scan_pieces(cs@.take(i as int)),
    {
        assert(cs@.take(i + 1).drop_last() =~= cs@.take(i as int));
        if cs[i] == '/' {
            keep(&mut done, &piece);
            piece = Vec::new();
        } else {
            piece.push(cs[i]);
        }
    }
    assert(cs@.take(cs@.len() as int) =~= cs@);
    keep(&mut done, &piece);
    done
}

fn keep(done: &mut Vec<String>, piece: &Vec<char>)
    ensures
        final(done)@.map_values(|x: String| x@) == keep_piece(
            old(done)@.map_values(|x: String| x@),
            piece@,
        ),
{
    if piece.len() == 0 || (piece.len() == 1 && piece[0] == '.') {
        assert(piece@.len() == 1 && piece@[0] == '.' ==> piece@ =~= dot());
        return;
    }
    assert(piece@ != dot());
    let ghost before = done@;
    done.push(string_of(piece));
    assert(done@.map_values(|x: String| x@) =~= before.map_values(|x: String| x@).push(piece@));
}

/// One step of lexical normalisation: `..` removes the last component (if any), `.` is
/// skipped, anything else is appended.
pub open spec fn norm_step(parts: Seq<Seq<char>>, c: Seq<char>) -> Seq<Seq<char>> {
    if c == dot_dot() {
        if parts.len() > 0 {
            parts.drop_last()
        } else {
            parts
        }
    } else if c == dot() {
        parts
    } else {
        parts.push(c)
    }
}

/// Lexical normalisation of a component list.
pub open spec fn normalize(comps: Seq<Seq<char>>) -> Seq<Seq<char>>
    decreases comps.len(),
{
    if comps.len() == 0 {
        comps
    } else {
        norm_step(normalize(comps.drop_last()), comps.last())
    }
}

/// `url_path`, below `root`, normalised, where the result still lies within `root`.
pub open spec fn resolved_within(root: LocalPath, url_path: Seq<char>) -> Option<Seq<Seq<char>>> {
    let normalized = normalize(parts_of(root) + segments(url_path));
    if parts_of(root).len() <= normalized.len() && normalized.take(parts_of(root).len() as int)
        == parts_of(root) {
        Some(normalized)
    } else {
        None
    }
}

/// Whether `c` is `.` or `..`.
fn is_dot_name(c: &String) -> (r: (bool, bool))
    ensures
        r.0 == (c@ == dot()),
        r.1 == (c@ == dot_dot()),
{
    let cs = chars_of(c.as_str());
    let one = cs.len() == 1 && cs[0] == '.';
    let two = cs.len() == 2 && cs[0] == '.' && cs[1] == '.';
    assert(one ==> cs@ =~= dot());
    assert(two ==> cs@ =~= dot_dot());
    (one, two)
}

fn clone_string(s: &String) -> (r: String)
    ensures
        r@ == s@,
{
    s.clone()
}

/// Joins `url_path` below `root` and normalises it lexically (`..` removes a component,
/// `.` is skipped); `None` where the result no longer lies within `root`.
pub fn resolve_within(root: &LocalPath, url_path: &str) -> (r: Option<LocalPath>)
    ensures
        r matches Some(p) ==> p.absolute == root.absolute && resolved_within(*root, url_path@)
            == Some(parts_of(p)),
        r is None ==> resolved_within(*root, url_path@) is None,
{
    let segs = split_segments(url_path);
    let mut comps: Vec<String> = Vec::new();
    for i in 0..root.parts.len()
        invariant
            comps@.map_values(|x: String| x@) == parts_of(*root).take(i as int),
    {
        let ghost before = comps@;
        comps.push(clone_string(&root.parts[i]));
        proof {
            lemma_views_push(before, comps@[i as int]);
            assert(parts_of(*root).take(i + 1) =~= parts_of(*root).take(i as int).push(root.parts@[i as int]@));
        }
    }
    for i in 0..segs.len()
        invariant
            comps@.map_values(|x: String| x@) == parts_of(*root) + segments(url_path@).take(i as int),
            segs@.map_values(|x: String| x@) == segments(url_path@),
    {
        let ghost before = comps@;
        comps.push(clone_string(&segs[i]));
        proof {
            lemma_views_push(before, comps@[comps@.len() - 1]);
            assert(segs@.map_values(|x: String| x@)[i as int] == segs@[i as int]@);
            assert(parts_of(*root) + segments(url_path@).take(i + 1) =~= (parts_of(*root) + segments(url_path@).take(i as int)).push(segs@[i as int]@));
        }
    }
    assert(segments(url_path@).take(segs@.len() as int) =~= segments(url_path@));
    assert(parts_of(*root).take(root.parts@.len() as int) =~= parts_of(*root));
    let ghost all = parts_of(*root) + segments(url_path@);
    let mut out: Vec<String> = Vec::new();
    for i in 0..comps.len()
        invariant
            comps@.map_values(|x: String| x@) == all,
            out@.map_values(|x: String| x@) == normalize(all.take(i as int)),
    {
        assert(all.take(i + 1).drop_last() =~= all.take(i as int));
        let ghost before = out@;
        let (is_dot, is_dot_dot) = is_dot_name(&comps[i]);
        if is_dot_dot {
            if out.len() > 0 {
                out.pop();
                assert(out@.map_values(|x: String| x@) =~= before.map_values(|x: String| x@).drop_last());
            }
        } else if !is_dot {
            out.push(clone_string(&comps[i]));
            assert(out@.map_values(|x: String| x@) =~= before.map_values(|x: String| x@).push(all[i as int]));
        }
    }
    assert(all.take(comps@.len() as int) =~= all);
    let n = root.parts.len();
    if out.len() < n {
        return None;
    }
    for i in 0..n
        invariant
            n == root.parts@.len(),
            n <= out@.len(),
            out@.map_values(|x: String| x@) == normalize(parts_of(*root) + segments(url_path@)),
            forall|k: int| 0 <= k < i ==> (#[trigger] out@[k])@ == root.parts@[k]@,
    {
        let (a, b) = (chars_of(out[i].as_str()), chars_of(root.parts[i].as_str()));
        if !crate::text::same_chars(&a, &b) {
            proof {
                let normalized = out@.map_values(|x: String| x@);
                assert(normalized.take(n as int)[i as int] != parts_of(*root)[i as int]);
            }
            return None;
        }
    }
    assert(out@.map_values(|x: String| x@).take(n as int) =~= parts_of(*root));
    Some(LocalPath { absolute: root.absolute, parts: out })
}

/// Normalisation leaves no `.` or `..` component.
pub proof fn lemma_normalize_plain(comps: Seq<Seq<char>>)
    ensures
        forall|k: int|
            0 <= k < normalize(comps).len() ==> #[trigger] normalize(comps)[k] != dot()
                && normalize(comps)[k] != dot_dot(),
    decreases comps.len(),
{
    if comps.len() > 0 {
        lemma_normalize_plain(comps.drop_last());
        let p = normalize(comps.drop_last());
        let c = comps.last();
        assert forall|k: int| 0 <= k < normalize(comps).len() implies #[trigger] normalize(comps)[k]
            != dot() && normalize(comps)[k] != dot_dot() by {
            if c == dot_dot() {
                if p.len() > 0 {
                    assert(normalize(comps)[k] == p[k]);
                }
            } else if c != dot() {
                if k < p.len() {
                    assert(normalize(comps)[k] == p[k]);
                }
            }
        }
    }
}

/// A request path resolved below a root never leaves it: the result begins with the
/// root's components, and what follows holds no `.` or `..`, so it names the root or
/// something beneath it.
pub proof fn law_resolved_path_stays_within_root(root: LocalPath, url_path: Seq<char>)
    requires
        resolved_within(root, url_path) is Some,
    ensures
        ({
            let p = resolved_within(root, url_path)->0;
            &&& parts_of(root).len() <= p.len()
            &&& p.take(parts_of(root).len() as int) == parts_of(root)
            &&& forall|k: int|
                parts_of(root).len() <= k < p.len() ==> #[trigger] p[k] != dot() && p[k] != dot_dot()
        }),
{
    lemma_normalize_plain(parts_of(root) + segments(url_path));
}

/// The last position of `c` in `s`.
pub open spec fn last_index_of(s: Seq<char>, c: char) -> Option<int>
    decreases s.len(),
{
    if s.len() == 0 {
        None
    } else if s.last() == c {
        Some(s.len() - 1)
    } else {
        last_index_of(s.drop_last(), c)
    }
}

/// The last position of `c` in `s`.
pub fn find_last(s: &Vec<char>, c: char) -> (r: Option<usize>)
    ensures
        r matches Some(k) ==> last_index_of(s@, c) == Some(k as int) && k < s@.len() && s@[k as int] == c,
        r is None ==> last_index_of(s@, c) is None,
{
    let mut i: usize = s.len();
    assert(s@.take(i as int) =~= s@);
    while i > 0
        invariant
            i <= s@.len(),
            last_index_of(s@, c) == last_index_of(s@.take(i as int), c),
        decreases i,
    {
        assert(s@.take(i as int).last() == s@[i - 1]);
        if s[i - 1] == c {
            return Some(i - 1);
        }
        assert(s@.take(i as int).drop_last() =~= s@.take(i - 1));
        i = i - 1;
    }
    None
}

/// The extension of a file name, as `Path::extension` gives it: the text after the last
/// `.`, where that dot is not the name's first character; none for `..`.
pub open spec fn extension_of(name: Seq<char>) -> Option<Seq<char>> {
    if name == dot_dot() {
        None
    } else {
        match last_index_of(name, '.') {
            Some(k) => if k > 0 { Some(name.skip(k + 1)) } else { None },
            None => None,
        }
    }
}

/// The extension of the file name `name`.
pub fn extension(name: &Vec<char>) -> (r: Option<Vec<char>>)
    ensures
        r matches Some(e) ==> extension_of(name@) == Some(e@),
        r is None ==> extension_of(name@) is None,
{
    if name.len() == 2 && name[0] == '.' && name[1] == '.' {
        assert(name@ =~= dot_dot());
        return None;
    }
    assert(name@ != dot_dot());
    match find_last(name, '.') {
        Some(k) => {
            if k == 0 {
                return None;
            }
            let e = crate::text::skip_chars(name, k + 1);
            Some(e)
        },
        None => None,
    }
}

/// The file name of a path string: its last component, unless that is `..` or there is none.
pub open spec fn file_name_of(path: Seq<char>) -> Option<Seq<char>> {
    let segs = segments(path);
    if segs.len() > 0 && segs.last() != dot_dot() {
        Some(segs.last())
    } else {
        None
    }
}

/// The extension of the path string `path`, with its dot (`.bz2`), or empty.
pub open spec fn dotted_extension(path: Seq<char>) -> Seq<char> {
    match file_name_of(path) {
        Some(name) => match extension_of(name) {
            Some(e) => seq!['.'] + e,
            None => Seq::empty(),
        },
        None => Seq::empty(),
    }
}

/// The extension of the path string `path`, with its dot, or empty.
pub fn path_extension(path: &str) -> (r: String)
    ensures
        r@ == dotted_extension(path@),
{
    let segs = split_segments(path);
    proof {
        if segs@.len() > 0 {
            assert(segs@.map_values(|x: String| x@).last() == segs@.last()@);
        }
    }
    if segs.len() == 0 {
        return String::new();
    }
    let last = chars_of(segs[segs.len() - 1].as_str());
    if last.len() == 2 && last[0] == '.' && last[1] == '.' {
        assert(last@ =~= dot_dot());
        return String::new();
    }
    assert(last@ != dot_dot());
    match extension(&last) {
        Some(e) => {
            let mut out: Vec<char> = Vec::new();
            out.push('.');
            crate::text::push_all(&mut out, &e);
            assert(out@ =~= seq!['.'] + e@);
            string_of(&out)
        },
        None => String::new(),
    }
}

/// The components of `parts` with `ext` appended to the last name (or `ext` as the only name).
pub open spec fn with_suffix(parts: Seq<Seq<char>>, ext: Seq<char>) -> Seq<Seq<char>> {
    if parts.len() == 0 {
        seq![ext]
    } else {
        parts.update(parts.len() - 1, parts.last() + ext)
    }
}

/// Appends `ext` to the path's text, as pushing onto its `OsString` does: the last component
/// gets `ext` at its end (a path without components gets `ext` as its only one).
pub fn append_extension(path: &LocalPath, ext: &str) -> (r: LocalPath)
    ensures
        r.absolute == path.absolute,
        parts_of(r) == with_suffix(parts_of(*path), ext@),
{
    let n = path.parts.len();
    let mut parts: Vec<String> = Vec::new();
    if n == 0 {
        parts.push(string_of(&chars_of(ext)));
        assert(parts@.map_values(|x: String| x@) =~= seq![ext@]);
        return LocalPath { absolute: path.absolute, parts };
    }
    for i in 0..n - 1
        invariant
            n == path.parts@.len(),
            n > 0,
            parts@.map_values(|x: String| x@) == parts_of(*path).take(i as int),
    {
        let ghost before = parts@;
        parts.push(clone_string(&path.parts[i]));
        proof {
            lemma_views_push(before, parts@[i as int]);
            assert(parts_of(*path).take(i + 1) =~= parts_of(*path).take(i as int).push(path.parts@[i as int]@));
        }
    }
    let mut last = chars_of(path.parts[n - 1].as_str());
    crate::text::push_str(&mut last, ext);
    let ghost before = parts@;
    parts.push(string_of(&last));
    proof {
        lemma_views_push(before, parts@[n - 1]);
    }
    assert(parts@.map_values(|x: String| x@) =~= with_suffix(parts_of(*path), ext@));
    LocalPath { absolute: path.absolute, parts }
}

/// `s` without its trailing `/` characters.
pub open spec fn trim_end_slashes(s: Seq<char>) -> Seq<char>
    decreases s.len(),
{
    if s.len() > 0 && s.last() == '/' {
        trim_end_slashes(s.drop_last())
    } else {
        s
    }
}

/// The parent of a displayed directory path, for the listing's link: the text before the
/// last `/` (trailing `/` ignored), or `/` where that is the root.
pub open spec fn parent_of(display_path: Seq<char>) -> Seq<char> {
    let t = trim_end_slashes(display_path);
    match last_index_of(t, '/') {
        Some(k) => if k == 0 { seq!['/'] } else { t.take(k) },
        None => seq!['/'],
    }
}

/// The parent of a displayed directory path.
pub fn parent_path(display_path: &str) -> (r: String)
    ensures
        r@ == parent_of(display_path@),
{
    let cs = chars_of(display_path);
    let mut n: usize = cs.len();
    assert(cs@.take(n as int) =~= cs@);
    while n > 0 && cs[n - 1] == '/'
        invariant
            n <= cs@.len(),
            cs@ == display_path@,
            trim_end_slashes(display_path@) == trim_end_slashes(cs@.take(n as int)),
        decreases n,
    {
        assert(cs@.take(n as int).drop_last() =~= cs@.take(n - 1));
        n = n - 1;
    }
    let t = crate::text::take_chars(&cs, n);
    assert(trim_end_slashes(cs@.take(n as int)) == cs@.take(n as int));
    let mut root: Vec<char> = Vec::new();
    root.push('/');
    match find_last(&t, '/') {
        Some(k) => {
            if k == 0 {
                string_of(&root)
            } else {
                let p = crate::text::take_chars(&t, k);
                string_of(&p)
            }
        },
        None => string_of(&root),
    }
}

}

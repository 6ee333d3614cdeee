//! Deciding which paths are images and where a path sits in a playlist.

use std::path::Path;
use vstd::prelude::*;
use vstd::string::*;

use crate::path_order::path_le;

verus! {

/// `ext`, with a dot before it, occurs in `path`.
pub open spec fn dotted_in(path: Seq<char>, ext: Seq<char>) -> bool {
    exists|i: int|
        0 <= i && i + ext.len() + 1 <= path.len() && #[trigger] path.subrange(i, i + ext.len() + 1)
            == seq!['.'] + ext
}

/// The path ends its last component with a supported extension, as far as
/// the text shows: a supported extension, without dots, follows a dot in it.
pub open spec fn has_image_suffix(path: Seq<char>) -> bool {
    exists|ext: Seq<char>| is_supported(ext) && !ext.contains('.') && dotted_in(path, ext)
}

/// Where the last `/`-separated segment of `p` starts: just after its last
/// `/`, or 0 when it has none.
pub open spec fn segment_start(p: Seq<char>) -> int
    decreases p.len(),
{
    if p.len() == 0 {
        0
    } else if p.last() == '/' {
        p.len() as int
    } else {
        segment_start(p.drop_last())
    }
}

/// The text after the last `/` of `p` (all of `p` when it has none).
pub open spec fn last_segment(p: Seq<char>) -> Seq<char> {
    p.subrange(segment_start(p), p.len() as int)
}

/// A path whose text Unix and Windows split the same way: it has no `\\`
/// and no `:`, and does not start with `//` (so it holds neither a Windows
/// separator nor a Windows prefix, such as a `//server/share` one), and its
/// last `/`-separated segment is a name, neither empty nor `.` nor `..`.
/// Its file name, as `std::path::Path::file_name` finds it, is that segment.
pub open spec fn plain_path(p: Seq<char>) -> bool {
    let name = last_segment(p);
    &&& !p.contains('\\')
    &&& !p.contains(':')
    &&& !(p.len() >= 2 && p[0] == '/' && p[1] == '/')
    &&& name.len() > 0
    &&& name != seq!['.']
    &&& name != seq!['.', '.']
}

/// Position of the last `.` in `name`, or -1 when it has none.
pub open spec fn last_dot(name: Seq<char>) -> int
    decreases name.len(),
{
    if name.len() == 0 {
        -1
    } else if name.last() == '.' {
        name.len() - 1
    } else {
        last_dot(name.drop_last())
    }
}

/// The extension of a file name, as `std::path::Path::extension` documents
/// it: none when the name has no dot, or only a leading one; else the text
/// after the last dot.
pub open spec fn name_extension(name: Seq<char>) -> Option<Seq<char>> {
    let k = last_dot(name);
    if k <= 0 {
        None
    } else {
        Some(name.subrange(k + 1, name.len() as int))
    }
}

/// Whether a file name has a supported extension.
pub open spec fn image_name(name: Seq<char>) -> bool {
    match name_extension(name) {
        Some(ext) => is_supported(ext),
        None => false,
    }
}

/// A path in the form that `std::path::Path` keeps as written on Unix and on
/// Windows alike: no `\\`, no `:`, no empty segment but a leading one (for a
/// root), no `.` segment and no trailing `/`. Two such paths are the same path
/// exactly when their texts are equal.
pub open spec fn canonical_path(p: Seq<char>) -> bool {
    &&& p.len() > 0
    &&& !p.contains('\\')
    &&& !p.contains(':')
    &&& p.last() != '/'
    &&& forall|i: int| 0 <= i < p.len() - 1 ==> !(p[i] == '/' && #[trigger] p[i + 1] == '/')
    &&& forall|i: int|
        0 <= i < p.len() && #[trigger] p[i] == '.' ==> !((i == 0 || p[i - 1] == '/') && (i == p.len()
            - 1 || p[i + 1] == '/'))
}

/// ASCII lower-casing of one character, as `char::to_ascii_lowercase` does.
pub open spec fn ascii_lower(c: char) -> char {
    if 'A' <= c && c <= 'Z' {
        ((c as u32) + 32) as char
    } else {
        c
    }
}

/// ASCII lower-casing of a whole text.
pub open spec fn ascii_lowercase(s: Seq<char>) -> Seq<char> {
    s.map_values(|c: char| ascii_lower(c))
}

/// The extensions (lower case, without the dot) that the viewer decodes.
pub open spec fn supported_extensions() -> Seq<Seq<char>> {
    seq![
        seq!['p', 'n', 'g'],
        seq!['j', 'p', 'g'],
        seq!['j', 'p', 'e', 'g'],
        seq!['b', 'm', 'p'],
        seq!['w', 'e', 'b', 'p'],
        seq!['g', 'i', 'f'],
    ]
}

/// An extension is supported when its ASCII lower-case form is one of
/// [`supported_extensions`].
pub open spec fn is_supported(ext: Seq<char>) -> bool {
    supported_extensions().contains(ascii_lowercase(ext))
}

fn lower_char(c: char) -> (r: char)
    ensures
        r == ascii_lower(c),
{
    if 'A' <= c && c <= 'Z' {
        let code: u32 = (c as u32) + 32;
        let lowered: u8 = code as u8;
        lowered as char
    } else {
        c
    }
}

fn same_chars(a: &Vec<char>, b: &[char]) -> (r: bool)
    ensures
        r == (a@ == b@),
{
    if a.len() != b.len() {
        return false;
    }
    let mut i: usize = 0;
    while i < a.len()
        invariant
            a.len() == b@.len(),
            i <= a.len(),
            forall|j: int| 0 <= j < i ==> a@[j] == b@[j],
        decreases a.len() - i,
    {
        if a[i] != b[i] {
            return false;
        }
        i = i + 1;
    }
    assert(a@ =~= b@);
    true
}

/// Whether `ext` (the part of a file name after its last dot) names a format
/// the viewer decodes. The comparison ignores ASCII case.
pub fn is_supported_extension(ext: &str) -> (r: bool)
    ensures
        r == is_supported(ext@),
{
    let n: usize = ext.unicode_len();
    let mut lower: Vec<char> = Vec::new();
    let mut i: usize = 0;
    while i < n
        invariant
            n == ext@.len(),
            i <= n,
            lower@ =~= ascii_lowercase(ext@.take(i as int)),
        decreases n - i,
    {
        let c = ext.get_char(i);
        lower.push(lower_char(c));
        i = i + 1;
        assert(ext@.take(i as int) =~= ext@.take((i - 1) as int).push(c));
    }
    assert(ext@.take(n as int) =~= ext@);
    let ghost exts = supported_extensions();
    let r = same_chars(&lower, &['p', 'n', 'g'])
        || same_chars(&lower, &['j', 'p', 'g'])
        || same_chars(&lower, &['j', 'p', 'e', 'g'])
        || same_chars(&lower, &['b', 'm', 'p'])
        || same_chars(&lower, &['w', 'e', 'b', 'p'])
        || same_chars(&lower, &['g', 'i', 'f']);
    proof {
        if exts.contains(lower@) {
            let k = choose|k: int| 0 <= k < exts.len() && exts[k] == lower@;
            assert(0 <= k < 6);
        }
    }
    r
}

/// `p` without its trailing separators and trailing `.` segments, which
/// `Path::components` does not count.
pub open spec fn trim_end(p: Seq<char>) -> Seq<char>
    decreases p.len(),
{
    if p.len() > 0 && p.last() == '/' {
        trim_end(p.drop_last())
    } else if p.len() >= 2 && p.last() == '.' && p[p.len() - 2] == '/' {
        trim_end(p.drop_last())
    } else {
        p
    }
}

/// The file name of a [`portable_path`], as `std::path::Path::file_name`
/// documents it: its last component when that is a name, none when the path
/// ends in a root, a `.` or a `..` (`/usr/bin/` → `bin`, `foo.txt/.` →
/// `foo.txt`, `foo.txt/..` → none).
pub open spec fn file_name_of(p: Seq<char>) -> Option<Seq<char>> {
    let name = last_segment(trim_end(p));
    if name.len() == 0 || name == seq!['.'] || name == seq!['.', '.'] {
        None
    } else {
        Some(name)
    }
}

/// Whether a path's file name has a supported extension.
pub open spec fn image_path(p: Seq<char>) -> bool {
    match file_name_of(p) {
        Some(name) => image_name(name),
        None => false,
    }
}

/// Whether `c` separates path components: `/` on Unix, `/` or `\\` on
/// Windows.
pub open spec fn is_separator(c: char) -> bool {
    c == '/' || c == '\\'
}

/// Where the final piece of `p` starts: just after its last `/` or `\\`, or
/// 0 when it has none.
pub open spec fn piece_start(p: Seq<char>) -> int
    decreases p.len(),
{
    if p.len() == 0 {
        0
    } else if is_separator(p.last()) {
        p.len() as int
    } else {
        piece_start(p.drop_last())
    }
}

/// The text after the last `/` or `\\` of `p` (all of `p` when it has none).
pub open spec fn final_piece(p: Seq<char>) -> Seq<char> {
    p.subrange(piece_start(p), p.len() as int)
}

/// A path text whose last component, on Unix and on Windows alike, is a name
/// that ends with its final piece: the text does not start with two
/// separators (a Windows network or device prefix), and its final piece is
/// neither empty nor `.` nor `..` and holds no `:` (no Windows drive prefix).
/// On Windows that last component is the final piece; on Unix, where `\\` is
/// an ordinary character, it is the text after the last `/`, which ends with
/// the final piece.
pub open spec fn names_final_piece(p: Seq<char>) -> bool {
    &&& !(p.len() >= 2 && is_separator(p[0]) && is_separator(p[1]))
    &&& final_piece(p).len() > 0
    &&& final_piece(p) != seq!['.']
    &&& final_piece(p) != seq!['.', '.']
    &&& !final_piece(p).contains(':')
}

/// The extension that `std::path::Path::extension` finds in `path`, as text.
///
/// Trusted: the standard library's path parsing depends on the platform's
/// separators, so the result is not named. What its documentation promises on
/// every platform is stated: the extension holds no dot and follows a dot in
/// the path (it is the end of the path's last component), and a path without
/// any dot has no extension. For a [`portable_path`], whose file name is the
/// same on Unix and on Windows ([`file_name_of`], as `Path::file_name`
/// documents it), the documented rule ([`name_extension`]) gives the
/// extension exactly; for a [`plain_path`] that file name is its last segment.
/// For any path text that [`names_final_piece`], with a dot in its final piece
/// after the first character, the extension is the text after that piece's
/// last dot: on Windows the file name is the final piece, and on Unix it ends
/// with the final piece, so its last dot is that piece's. When that final
/// piece has no dot, there is no extension on Windows, and on Unix any
/// extension starts before the final piece and so holds a `\\`.
#[verifier::external_body]
fn path_extension(path: &str) -> (r: Option<String>)
    ensures
        r matches Some(e) ==> !e@.contains('.') && dotted_in(path@, e@),
        !path@.contains('.') ==> r is None,
        plain_path(path@) ==> match name_extension(last_segment(path@)) {
            Some(ext) => (r matches Some(e) && e@ == ext),
            None => r is None,
        },
        portable_path(path@) ==> match file_name_of(path@) {
            Some(name) => match name_extension(name) {
                Some(ext) => (r matches Some(e) && e@ == ext),
                None => r is None,
            },
            None => r is None,
        },
        names_final_piece(path@) && last_dot(final_piece(path@)) > 0 ==> r is Some && r->0@
            == final_piece(path@).subrange(
            last_dot(final_piece(path@)) + 1,
            final_piece(path@).len() as int,
        ),
        names_final_piece(path@) && !final_piece(path@).contains('.') ==> r is None || r->0@.contains(
            '\\',
        ),
{
    match Path::new(path).extension() {
        Some(e) => e.to_str().map(String::from),
        None => None,
    }
}

/// Whether an extension is supported does not depend on its ASCII case.
pub proof fn lemma_supported_ignores_case(ext: Seq<char>)
    ensures
        is_supported(ext) == is_supported(ascii_lowercase(ext)),
{
    assert(ascii_lowercase(ascii_lowercase(ext)) =~= ascii_lowercase(ext));
}

proof fn lemma_supported_has_no_separator(ext: Seq<char>)
    requires
        ext.contains('\\'),
    ensures
        !is_supported(ext),
{
    let m = choose|m: int| 0 <= m < ext.len() && ext[m] == '\\';
    let low = ascii_lowercase(ext);
    assert(low[m] == '\\');
    if is_supported(ext) {
        let k = choose|k: int| 0 <= k < supported_extensions().len() && supported_extensions()[k]
            == low;
        let x = supported_extensions()[k];
        assert(x[m] == '\\');
        assert(0 <= m < x.len());
        if k == 0 {
            assert(x == seq!['p', 'n', 'g']);
        } else if k == 1 {
            assert(x == seq!['j', 'p', 'g']);
        } else if k == 2 {
            assert(x == seq!['j', 'p', 'e', 'g']);
        } else if k == 3 {
            assert(x == seq!['b', 'm', 'p']);
        } else if k == 4 {
            assert(x == seq!['w', 'e', 'b', 'p']);
        } else {
            assert(x == seq!['g', 'i', 'f']);
        }
    }
}

/// Whether `path` looks like an image we can open, based on its extension.
pub fn is_image(path: &str) -> (r: bool)
    ensures
        !path@.contains('.') ==> !r,
        r ==> has_image_suffix(path@),
        plain_path(path@) ==> r == image_name(last_segment(path@)),
        portable_path(path@) ==> r == image_path(path@),
        names_final_piece(path@) && last_dot(final_piece(path@)) > 0 ==> r == is_supported(
            final_piece(path@).subrange(
                last_dot(final_piece(path@)) + 1,
                final_piece(path@).len() as int,
            ),
        ),
        names_final_piece(path@) && !final_piece(path@).contains('.') ==> !r,
{
    match path_extension(path) {
        Some(ext) => {
            proof {
                if ext@.contains('\\') {
                    lemma_supported_has_no_separator(ext@);
                }
            }
            is_supported_extension(ext.as_str())
        },
        None => false,
    }
}

/// A path text that Unix and Windows parse alike: it has no `\\` and no `:`
/// and does not start with `//`, so it holds neither a Windows separator nor a
/// Windows prefix.
pub open spec fn portable_path(p: Seq<char>) -> bool {
    &&& !p.contains('\\')
    &&& !p.contains(':')
    &&& !(p.len() >= 2 && p[0] == '/' && p[1] == '/')
}

/// The `/`-separated pieces of `p`, empty ones included.
pub open spec fn split_slashes(p: Seq<char>) -> Seq<Seq<char>>
    decreases p.len(),
{
    if p.len() == 0 {
        seq![seq![]]
    } else {
        let r = split_slashes(p.drop_last());
        if p.last() == '/' {
            r.push(seq![])
        } else {
            r.update(r.len() - 1, r.last().push(p.last()))
        }
    }
}

/// Whether a piece of a path text names a component: it is neither empty nor
/// `.`.
pub open spec fn names_component(piece: Seq<char>) -> bool {
    piece.len() > 0 && piece != seq!['.']
}

/// What `std::path::Path` compares of a portable path text, following the
/// normalisation that `Path::components` documents: whether it starts at the
/// root, whether it starts with a `.` component, and its other pieces once
/// empty and `.` pieces are dropped (repeated and trailing separators and `.`
/// segments do not count).
pub open spec fn path_key(p: Seq<char>) -> (bool, bool, Seq<Seq<char>>) {
    let rooted = p.len() > 0 && p[0] == '/';
    let dot = !rooted && p.len() > 0 && p[0] == '.' && (p.len() == 1 || p[1] == '/');
    (rooted, dot, split_slashes(p).filter(|piece: Seq<char>| names_component(piece)))
}

/// The path texts `a` and `b` name the same path.
pub open spec fn same_key(a: Seq<char>, b: Seq<char>) -> bool {
    path_key(a) == path_key(b)
}

/// Whether `a` and `b` name the same path, as `std::path::Path`'s `==` decides
/// (component by component).
///
/// Trusted: how paths split into components depends on the platform, so the
/// result is not named. `Path` implements `Eq`, so equal texts are equal paths;
/// and `Path` compares components, which `Path::components` documents: the
/// only normalisation is of repeated separators, `.` segments other than a
/// leading one, and trailing separators. So two [`portable_path`]s are the
/// same path exactly when their [`path_key`]s are equal, and two
/// [`canonical_path`]s exactly when their texts are equal. Two path texts
/// that each [`names_final_piece`], with different final pieces, have
/// different last components on Unix and on Windows alike, so they are
/// different paths.
#[verifier::external_body]
fn same_path(a: &str, b: &str) -> (r: bool)
    ensures
        a@ == b@ ==> r,
        canonical_path(a@) && canonical_path(b@) ==> r == (a@ == b@),
        portable_path(a@) && portable_path(b@) ==> r == same_key(a@, b@),
        names_final_piece(a@) && names_final_piece(b@) && final_piece(a@) != final_piece(b@) ==> !r,
{
    Path::new(a) == Path::new(b)
}

/// `target` and every entry of `images` are [`canonical_path`]s.
pub open spec fn all_canonical(images: Seq<String>, target: Seq<char>) -> bool {
    &&& canonical_path(target)
    &&& forall|j: int| 0 <= j < images.len() ==> canonical_path(#[trigger] images[j]@)
}

/// `target` and every entry of `images` are [`portable_path`]s.
pub open spec fn all_portable(images: Seq<String>, target: Seq<char>) -> bool {
    &&& portable_path(target)
    &&& forall|j: int| 0 <= j < images.len() ==> portable_path(#[trigger] images[j]@)
}

/// `r` is the position of the first entry of `images` that names the same
/// path as `target`, or 0 when none does.
pub open spec fn is_first_same_path(images: Seq<String>, target: Seq<char>, r: int) -> bool {
    if exists|j: int| 0 <= j < images.len() && same_key(#[trigger] images[j]@, target) {
        &&& 0 <= r < images.len()
        &&& same_key(images[r]@, target)
        &&& forall|j: int| 0 <= j < r ==> !same_key(#[trigger] images[j]@, target)
    } else {
        r == 0
    }
}

/// Position of the first entry of `images` whose text is `target`, or 0 when
/// there is none.
pub open spec fn first_text_match(images: Seq<String>, target: Seq<char>) -> int
    decreases images.len(),
{
    if images.len() == 0 {
        0
    } else if images[0]@ == target {
        0
    } else if exists|j: int| 1 <= j < images.len() && images[j]@ == target {
        1 + first_text_match(images.drop_first(), target)
    } else {
        0
    }
}

proof fn lemma_first_text_match(images: Seq<String>, target: Seq<char>, i: int)
    requires
        0 <= i < images.len(),
        images[i]@ == target,
        forall|j: int| 0 <= j < i ==> images[j]@ != target,
    ensures
        first_text_match(images, target) == i,
    decreases i,
{
    if i > 0 {
        let d = images.drop_first();
        assert(d[i - 1] == images[i]);
        assert forall|j: int| 0 <= j < i - 1 implies d[j]@ != target by {
            assert(d[j] == images[j + 1]);
        }
        lemma_first_text_match(d, target, i - 1);
    }
}

proof fn lemma_first_text_match_none(images: Seq<String>, target: Seq<char>)
    requires
        forall|j: int| 0 <= j < images.len() ==> images[j]@ != target,
    ensures
        first_text_match(images, target) == 0,
{
}

/// Index of `target` within `images`, defaulting to `0`: the first entry that
/// is the same path as `target`.
pub fn index_of(images: &[String], target: &str) -> (r: usize)
    ensures
        r == 0 || r < images@.len(),
        forall|j: int| 0 <= j < images@.len() && images@[j]@ == target@ ==> r <= j,
        all_canonical(images@, target@) ==> r == first_text_match(images@, target@),
        all_portable(images@, target@) ==> is_first_same_path(images@, target@, r as int),
        forall|j: int|
            0 <= j < images@.len() && #[trigger] images@[j]@ == target@ && names_final_piece(
                target@,
            ) && (forall|i: int|
                0 <= i < j ==> names_final_piece(#[trigger] images@[i]@) && final_piece(images@[i]@)
                    != final_piece(target@)) ==> r == j,
{
    let mut i: usize = 0;
    while i < images.len()
        invariant
            i <= images@.len(),
            forall|j: int| 0 <= j < i ==> images@[j]@ != target@,
            all_portable(images@, target@) ==> forall|j: int|
                0 <= j < i ==> !same_key(#[trigger] images@[j]@, target@),
        decreases images@.len() - i,
    {
        if same_path(images[i].as_str(), target) {
            proof {
                if all_portable(images@, target@) {
                    assert(portable_path(images@[i as int]@));
                    assert(same_key(images@[i as int]@, target@));
                }
                if all_canonical(images@, target@) {
                    assert(canonical_path(images@[i as int]@));
                    assert(images@[i as int]@ == target@);
                    lemma_first_text_match(images@, target@, i as int);
                }
            }
            return i;
        }
        i = i + 1;
    }
    proof {
        lemma_first_text_match_none(images@, target@);
    }
    0
}

/// The text of the folder of a path text `p` whose last segment is a name:
/// the text before its last `/`, a lone leading `/` kept, or nothing when it
/// has no `/`.
pub open spec fn parent_text(p: Seq<char>) -> Seq<char> {
    let start = segment_start(p);
    if start == 0 {
        seq![]
    } else if start == 1 {
        seq!['/']
    } else {
        p.subrange(0, start - 1)
    }
}

/// The folder to walk for the siblings of a file at `p`: its parent, or the
/// current folder `.` when the file is given by its bare name.
pub open spec fn folder_text(p: Seq<char>) -> Seq<char> {
    if parent_text(p).len() == 0 {
        seq!['.']
    } else {
        parent_text(p)
    }
}

/// The parent that `std::path::Path::parent` finds for `path`, as text.
///
/// Trusted: how a path splits into components depends on the platform, so
/// the result is not named. As the documentation says, the parent is the path
/// without its final component: a shorter beginning of its text. A
/// [`plain_path`] ends in a name, neither a root nor a prefix, so it has one.
/// For a path that is also canonical (no repeated `/`, no `.` segment), the
/// parent is exactly the text before the last `/`, a lone leading `/` kept, as
/// the documentation's examples show (`/foo/bar` → `/foo`, `/foo` → `/`,
/// `foo/bar` → `foo`, and `foo` → the empty path).
#[verifier::external_body]
fn path_parent(path: &str) -> (r: Option<String>)
    ensures
        r matches Some(t) ==> t@.len() < path@.len() && t@ == path@.subrange(0, t@.len() as int),
        plain_path(path@) ==> r is Some,
        plain_path(path@) && canonical_path(path@) ==> r is Some && r->0@ == parent_text(path@),
{
    match Path::new(path).parent() {
        Some(q) => q.to_str().map(String::from),
        None => None,
    }
}

/// Where to look for the images of the playlist of `path`, and whether to
/// look in sub-folders too. For a file: its folder (the current folder `.`
/// for a bare file name, the file itself when it has no folder at all),
/// without sub-folders, so that the playlist is the file and its siblings.
/// For anything else: `path` itself and every folder under it.
pub fn walk_plan(path: &str, is_file: bool) -> (r: (String, bool))
    ensures
        r.1 == !is_file,
        !is_file ==> r.0@ == path@,
        is_file ==> r.0@ == seq!['.'] || (r.0@.len() <= path@.len() && r.0@ == path@.subrange(
            0,
            r.0@.len() as int,
        )),
        is_file && plain_path(path@) ==> r.0@ != path@,
        is_file && plain_path(path@) && canonical_path(path@) ==> r.0@ == folder_text(path@),
{
    if is_file {
        match path_parent(path) {
            Some(parent) => {
                if parent.as_str().unicode_len() == 0 {
                    let dot = String::from_str(".");
                    proof {
                        reveal_strlit(".");
                        if path@ =~= seq!['.'] {
                            reveal_with_fuel(segment_start, 2);
                            assert(last_segment(path@) =~= seq!['.']);
                        }
                    }
                    (dot, false)
                } else {
                    (parent, false)
                }
            },
            None => {
                let own = path.to_owned();
                assert(own@ == path@.subrange(0, own@.len() as int));
                (own, false)
            },
        }
    } else {
        (path.to_owned(), true)
    }
}

/// The text under which the playlist names an entry that a walk of `root`
/// found at `walked`: a walk of `.` names its entries `./name`, which the
/// playlist names `name`, as a file given by its bare name is named.
pub open spec fn entry_text(walked: Seq<char>, root: Seq<char>) -> Seq<char> {
    if root == seq!['.'] && walked.len() >= 2 && walked[0] == '.' && walked[1] == '/' {
        walked.skip(2)
    } else {
        walked
    }
}

/// The texts of the files among the `walked` entries (each with whether it is
/// a file), in the walk's order, named as [`entry_text`] names them.
pub open spec fn walked_files(walked: Seq<(String, bool)>, root: Seq<char>) -> Seq<Seq<char>>
    decreases walked.len(),
{
    if walked.len() == 0 {
        seq![]
    } else {
        let r = walked_files(walked.drop_last(), root);
        if walked.last().1 {
            r.push(entry_text(walked.last().0@, root))
        } else {
            r
        }
    }
}

/// The playlist entries that a walk gives are its files, in the walk's order,
/// each named by the path that the walk found; only a walk of `.` has the
/// `./` before an entry dropped, so that the entry is named as a file given
/// by its bare name is.
pub proof fn lemma_entries_are_walked_files(walked: Seq<(String, bool)>, root: Seq<char>)
    ensures
        walked_files(walked, root).len() == walked.filter(|e: (String, bool)| e.1).len(),
        forall|k: int|
            0 <= k < walked_files(walked, root).len() ==> #[trigger] walked_files(walked, root)[k]
                == (if root == seq!['.'] && walked.filter(|e: (String, bool)| e.1)[k].0@.len() >= 2
                && walked.filter(|e: (String, bool)| e.1)[k].0@[0] == '.' && walked.filter(
                |e: (String, bool)| e.1,
            )[k].0@[1] == '/' {
                walked.filter(|e: (String, bool)| e.1)[k].0@.skip(2)
            } else {
                walked.filter(|e: (String, bool)| e.1)[k].0@
            }),
    decreases walked.len(),
{
    reveal(Seq::filter);
    if walked.len() > 0 {
        let d = walked.drop_last();
        lemma_entries_are_walked_files(d, root);
    }
}

/// Whether `s` is the text `.`.
fn is_dot(s: &str) -> (r: bool)
    ensures
        r == (s@ == seq!['.']),
{
    if s.unicode_len() == 1 && s.get_char(0) == '.' {
        assert(s@ =~= seq!['.']);
        true
    } else {
        false
    }
}

/// The entries of a walk of `root` that the playlist is built from: the files
/// among `walked`, in order, named as [`entry_text`] names them. Folders are
/// left out, whatever their names.
pub fn playlist_entries(walked: Vec<(String, bool)>, root: &str) -> (r: Vec<String>)
    ensures
        r@.len() == walked_files(walked@, root@).len(),
        forall|k: int| 0 <= k < r@.len() ==> #[trigger] r@[k]@ == walked_files(walked@, root@)[k],
        r@.len() == walked@.filter(|e: (String, bool)| e.1).len(),
        root@ != seq!['.'] ==> forall|k: int|
            0 <= k < r@.len() ==> #[trigger] r@[k]@ == walked@.filter(|e: (String, bool)| e.1)[k].0@,
{
    let dot_root = is_dot(root);
    let mut out: Vec<String> = Vec::new();
    let mut i: usize = 0;
    while i < walked.len()
        invariant
            i <= walked@.len(),
            dot_root == (root@ == seq!['.']),
            out@.len() == walked_files(walked@.take(i as int), root@).len(),
            forall|k: int|
                0 <= k < out@.len() ==> #[trigger] out@[k]@ == walked_files(
                    walked@.take(i as int),
                    root@,
                )[k],
        decreases walked@.len() - i,
    {
        let ghost before = out@;
        assert(walked@.take(i + 1).drop_last() =~= walked@.take(i as int));
        assert(walked@.take(i + 1).last() == walked@[i as int]);
        if walked[i].1 {
            let text = walked[i].0.as_str();
            let n = text.unicode_len();
            if dot_root && n >= 2 && text.get_char(0) == '.' && text.get_char(1) == '/' {
                let rest = text.substring_char(2, n);
                out.push(rest.to_owned());
                assert(rest@ =~= text@.skip(2));
            } else {
                out.push(text.to_owned());
            }
            proof {
                assert forall|k: int| 0 <= k < out@.len() implies #[trigger] out@[k]@
                    == walked_files(walked@.take(i + 1), root@)[k] by {
                    if k < before.len() {
                        assert(out@[k] == before[k]);
                    }
                }
            }
        }
        i = i + 1;
    }
    assert(walked@.take(walked@.len() as int) =~= walked@);
    proof {
        lemma_entries_are_walked_files(walked@, root@);
    }
    out
}

/// How many entries of `s` have the text `t`.
pub open spec fn text_count(s: Seq<String>, t: Seq<char>) -> nat
    decreases s.len(),
{
    if s.len() == 0 {
        0
    } else {
        text_count(s.drop_last(), t) + if s.last()@ == t {
            1nat
        } else {
            0nat
        }
    }
}

proof fn lemma_text_count_push(s: Seq<String>, x: String, t: Seq<char>)
    ensures
        text_count(s.push(x), t) == text_count(s, t) + if x@ == t {
            1nat
        } else {
            0nat
        },
{
    assert(s.push(x).drop_last() =~= s);
}

proof fn lemma_text_count_positive(s: Seq<String>, t: Seq<char>)
    ensures
        text_count(s, t) > 0 <==> exists|j: int| 0 <= j < s.len() && s[j]@ == t,
    decreases s.len(),
{
    if s.len() > 0 {
        let d = s.drop_last();
        lemma_text_count_positive(d, t);
        if exists|j: int| 0 <= j < s.len() && s[j]@ == t {
            let j = choose|j: int| 0 <= j < s.len() && s[j]@ == t;
            if j < d.len() {
                assert(d[j]@ == t);
            }
        }
        if exists|j: int| 0 <= j < d.len() && d[j]@ == t {
            let j = choose|j: int| 0 <= j < d.len() && d[j]@ == t;
            assert(s[j]@ == t);
        }
    }
}

/// How many entries of `s` name the same path as the text `t`.
pub open spec fn same_count(s: Seq<String>, t: Seq<char>) -> nat
    decreases s.len(),
{
    if s.len() == 0 {
        0
    } else {
        same_count(s.drop_last(), t) + if same_key(s.last()@, t) {
            1nat
        } else {
            0nat
        }
    }
}

proof fn lemma_same_count_push(s: Seq<String>, x: String, t: Seq<char>)
    ensures
        same_count(s.push(x), t) == same_count(s, t) + if same_key(x@, t) {
            1nat
        } else {
            0nat
        },
{
    assert(s.push(x).drop_last() =~= s);
}

proof fn lemma_same_count_positive(s: Seq<String>, t: Seq<char>)
    ensures
        same_count(s, t) > 0 <==> exists|j: int| 0 <= j < s.len() && same_key(s[j]@, t),
    decreases s.len(),
{
    if s.len() > 0 {
        let d = s.drop_last();
        lemma_same_count_positive(d, t);
        if exists|j: int| 0 <= j < s.len() && same_key(s[j]@, t) {
            let j = choose|j: int| 0 <= j < s.len() && same_key(s[j]@, t);
            if j < d.len() {
                assert(d[j] == s[j]);
            }
        }
        if exists|j: int| 0 <= j < d.len() && same_key(d[j]@, t) {
            let j = choose|j: int| 0 <= j < d.len() && same_key(d[j]@, t);
            assert(s[j] == d[j]);
        }
    }
}

/// Sorts `paths` in the order of `std::path::Path` (component by component).
///
/// Trusted: `slice::sort_by` reorders the slice, so every path text, and every
/// path, occurs as often as before; and it puts it in the order of the comparator, which is a
/// total order: when every path is canonical, each comes no later than the
/// next one in the order that [`crate::path_order::path_le`] names.
#[verifier::external_body]
fn sort_paths(paths: &mut Vec<String>)
    ensures
        final(paths)@.len() == old(paths)@.len(),
        forall|t: Seq<char>| #[trigger] text_count(final(paths)@, t) == text_count(old(paths)@, t),
        forall|t: Seq<char>| #[trigger] same_count(final(paths)@, t) == same_count(old(paths)@, t),
        (forall|k: int| 0 <= k < old(paths)@.len() ==> canonical_path(#[trigger] old(paths)@[k]@))
            ==> forall|i: int|
            0 <= i < final(paths)@.len() - 1 ==> path_le(
                #[trigger] final(paths)@[i]@,
                final(paths)@[i + 1]@,
            ),
{
    paths.sort_by(crate::path_order::path_order);
}

/// Whether some entry of `paths` is the same path as `target`.
fn contains_path(paths: &Vec<String>, target: &str) -> (r: bool)
    ensures
        r ==> paths@.len() > 0,
        (exists|j: int| 0 <= j < paths@.len() && paths@[j]@ == target@) ==> r,
        all_canonical(paths@, target@) ==> r == exists|j: int|
            0 <= j < paths@.len() && paths@[j]@ == target@,
        all_portable(paths@, target@) ==> r == exists|j: int|
            0 <= j < paths@.len() && same_key(#[trigger] paths@[j]@, target@),
{
    let mut i: usize = 0;
    while i < paths.len()
        invariant
            i <= paths@.len(),
            forall|j: int| 0 <= j < i ==> paths@[j]@ != target@,
            all_portable(paths@, target@) ==> forall|j: int|
                0 <= j < i ==> !same_key(#[trigger] paths@[j]@, target@),
        decreases paths@.len() - i,
    {
        if same_path(paths[i].as_str(), target) {
            proof {
                if all_portable(paths@, target@) {
                    assert(portable_path(paths@[i as int]@));
                }
                if all_canonical(paths@, target@) {
                    assert(canonical_path(paths@[i as int]@));
                }
            }
            return true;
        }
        i = i + 1;
    }
    false
}

/// How often the playlist built from `entries` holds the text `t`, when `t`
/// is a [`plain_path`] other than a requested file's: as often as `entries`
/// does when its last segment names an image, never otherwise.
pub open spec fn kept_count(entries: Seq<String>, t: Seq<char>) -> nat {
    if image_name(last_segment(t)) {
        text_count(entries, t)
    } else {
        0
    }
}

/// Builds the playlist from what a walk of the playlist's root found.
///
/// `entries` are the paths found under the root, `requested` the path the
/// user asked for and `requested_is_file` whether it is a file. The images
/// among the entries are kept, each as often as it was found; a requested
/// file that is not among them is added so that it can still be shown; and
/// the whole list is sorted in the order of `std::path::Path`, which this
/// contract does not describe.
pub fn playlist_from_entries(requested: &str, requested_is_file: bool, entries: Vec<String>) -> (r:
    Vec<String>)
    ensures
        forall|k: int|
            0 <= k < r@.len() ==> #[trigger] r@[k]@ == requested@ || has_image_suffix(r@[k]@),
        forall|t: Seq<char>|
            (t != requested@ || !requested_is_file) ==> #[trigger] text_count(r@, t)
                <= text_count(entries@, t),
        forall|t: Seq<char>|
            (t != requested@ || !requested_is_file) && plain_path(t) ==> #[trigger] text_count(
                r@,
                t,
            ) == kept_count(entries@, t),
        requested_is_file ==> text_count(r@, requested@) <= text_count(entries@, requested@) + 1,
        requested_is_file ==> r@.len() >= 1,
        requested_is_file && all_canonical(entries@, requested@) && plain_path(requested@)
            ==> text_count(r@, requested@) == if kept_count(entries@, requested@) > 0 {
            kept_count(entries@, requested@)
        } else {
            1
        },
        r@.len() <= entries@.len() + if requested_is_file {
            1int
        } else {
            0int
        },
        all_canonical(entries@, requested@) ==> forall|i: int|
            0 <= i < r@.len() - 1 ==> path_le(#[trigger] r@[i]@, r@[i + 1]@),
        requested_is_file && all_portable(entries@, requested@) ==> same_count(r@, requested@)
            >= 1,
        requested_is_file && all_portable(entries@, requested@) && same_count(
            entries@,
            requested@,
        ) <= 1 ==> same_count(r@, requested@) == 1,
        !requested_is_file ==> forall|t: Seq<char>| #[trigger]
            same_count(r@, t) <= same_count(entries@, t),
{
    let mut images: Vec<String> = Vec::new();
    let mut i: usize = 0;
    while i < entries.len()
        invariant
            i <= entries@.len(),
            images@.len() <= i,
            forall|k: int|
                0 <= k < images@.len() ==> has_image_suffix(#[trigger] images@[k]@) && exists|
                    j: int,
                | 0 <= j < entries@.len() && entries@[j]@ == images@[k]@,
            forall|t: Seq<char>| #[trigger]
                text_count(images@, t) <= text_count(entries@.take(i as int), t),
            forall|t: Seq<char>|
                plain_path(t) ==> #[trigger] text_count(images@, t) == kept_count(
                    entries@.take(i as int),
                    t,
                ),
            forall|t: Seq<char>| #[trigger]
                same_count(images@, t) <= same_count(entries@.take(i as int), t),
        decreases entries@.len() - i,
    {
        let ghost before = images@;
        let ghost e = entries@[i as int];
        assert(entries@.take(i + 1) =~= entries@.take(i as int).push(e));
        let keep = is_image(entries[i].as_str());
        if keep {
            images.push(entries[i].clone());
        }
        proof {
            assert forall|t: Seq<char>| #[trigger]
                text_count(images@, t) <= text_count(entries@.take(i + 1), t) by {
                lemma_text_count_push(entries@.take(i as int), e, t);
                if keep {
                    lemma_text_count_push(before, e, t);
                }
            }
            assert forall|t: Seq<char>| #[trigger]
                same_count(images@, t) <= same_count(entries@.take(i + 1), t) by {
                lemma_same_count_push(entries@.take(i as int), e, t);
                if keep {
                    lemma_same_count_push(before, e, t);
                }
            }
            assert forall|t: Seq<char>| plain_path(t) implies #[trigger] text_count(images@, t)
                == kept_count(entries@.take(i + 1), t) by {
                lemma_text_count_push(entries@.take(i as int), e, t);
                if keep {
                    lemma_text_count_push(before, e, t);
                }
            }
            assert forall|k: int| 0 <= k < images@.len() implies has_image_suffix(
                #[trigger] images@[k]@,
            ) && exists|j: int| 0 <= j < entries@.len() && entries@[j]@ == images@[k]@ by {
                if k == before.len() {
                    assert(entries@[i as int]@ == images@[k]@);
                } else {
                    assert(images@[k] == before[k]);
                }
            }
        }
        i = i + 1;
    }
    assert(entries@.take(entries@.len() as int) =~= entries@);
    let ghost filtered = images@;
    let present = contains_path(&images, requested);
    proof {
        lemma_text_count_positive(filtered, requested@);
        lemma_same_count_positive(filtered, requested@);
        if all_portable(entries@, requested@) {
            assert forall|k: int| 0 <= k < filtered.len() implies portable_path(
                #[trigger] filtered[k]@,
            ) by {
                let j = choose|j: int| 0 <= j < entries@.len() && entries@[j]@ == filtered[k]@;
                assert(portable_path(entries@[j]@));
            }
        }
        if all_canonical(entries@, requested@) {
            assert forall|k: int| 0 <= k < filtered.len() implies canonical_path(
                #[trigger] filtered[k]@,
            ) by {
                let j = choose|j: int| 0 <= j < entries@.len() && entries@[j]@ == filtered[k]@;
                assert(canonical_path(entries@[j]@));
            }
        }
    }
    if requested_is_file && !present {
        images.push(requested.to_owned());
    }
    let ghost unsorted = images@;
    proof {
        assert forall|t: Seq<char>| #[trigger]
            text_count(unsorted, t) == text_count(filtered, t) + if requested_is_file && !present
                && t == requested@ {
                1nat
            } else {
                0nat
            } by {
            if requested_is_file && !present {
                lemma_text_count_push(filtered, unsorted.last(), t);
                assert(unsorted =~= filtered.push(unsorted.last()));
            }
        }
        if requested_is_file && !present {
            lemma_same_count_push(filtered, unsorted.last(), requested@);
            assert(unsorted =~= filtered.push(unsorted.last()));
        }
        assert forall|k: int| 0 <= k < unsorted.len() implies #[trigger] unsorted[k]@ == requested@
            || has_image_suffix(unsorted[k]@) by {
            if k < filtered.len() {
                assert(unsorted[k] == filtered[k]);
            }
        }
        if all_canonical(entries@, requested@) {
            assert forall|k: int| 0 <= k < unsorted.len() implies canonical_path(
                #[trigger] unsorted[k]@,
            ) by {
                if k < filtered.len() {
                    assert(unsorted[k] == filtered[k]);
                    assert(canonical_path(filtered[k]@));
                }
            }
        }
    }
    sort_paths(&mut images);
    proof {
        assert forall|k: int| 0 <= k < images@.len() implies #[trigger] images@[k]@ == requested@
            || has_image_suffix(images@[k]@) by {
            let t = images@[k]@;
            lemma_text_count_positive(images@, t);
            lemma_text_count_positive(unsorted, t);
            assert(text_count(images@, t) == text_count(unsorted, t));
            let j = choose|j: int| 0 <= j < unsorted.len() && unsorted[j]@ == t;
            assert(unsorted[j]@ == requested@ || has_image_suffix(unsorted[j]@));
        }
        assert(text_count(images@, requested@) == text_count(unsorted, requested@));
    }
    images
}

} // verus!

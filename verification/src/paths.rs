//! Paths to files on this machine.
//!
//! A path need not be text. What names the file are its bytes; what the user
//! sees is the text that stands for them.

use vstd::prelude::*;
use vstd::string::*;

use crate::protocol::copy_bytes;
use crate::text;
use crate::text::{chars_of, letter_char, replaced, string_between};

verus! {

broadcast use vstd::seq_lib::group_seq_properties;

// ---------------------------------------------------------------------------
// Paths
// ---------------------------------------------------------------------------
/// A path to a file on this machine.
#[derive(Debug, Clone, PartialEq, Eq)]
pub struct LocalPath {
    /// How the path is shown.
    pub shown: String,
    /// What names the file.
    pub bytes: Vec<u8>,
}

/// The ghost counterpart of [`LocalPath`].
#[verifier::ext_equal]
pub struct PathView {
    pub shown: Seq<char>,
    pub bytes: Seq<u8>,
}

impl View for LocalPath {
    type V = PathView;

    open spec fn view(&self) -> PathView {
        PathView { shown: self.shown@, bytes: self.bytes@ }
    }
}

/// The path that is written as `text`.
pub open spec fn text_path(text: Seq<char>) -> PathView {
    PathView { shown: text, bytes: vstd::utf8::encode_utf8(text) }
}

/// The ghost counterpart of an optional path.
pub open spec fn optional(path: Option<LocalPath>) -> Option<PathView> {
    match path {
        Some(path) => Some(path@),
        None => None,
    }
}

// ---------------------------------------------------------------------------
// Separators
// ---------------------------------------------------------------------------
/// Whether `path` begins with the letter of a drive, as it may on Windows.
pub open spec fn has_drive(path: Seq<char>) -> bool {
    path.len() >= 2 && text::is_letter(path[0]) && path[1] == ':'
}

/// Whether `path` begins with the letter of a drive, as it may on Windows.
fn begins_with_drive(chars: &Vec<char>) -> (r: bool)
    ensures
        r == has_drive(chars@),
{
    chars.len() >= 2 && letter_char(chars[0]) && chars[1] == ':'
}

/// Whether a separator has to stand between a folder and what is in it. None
/// stands behind another one, and on Windows none stands behind the letter of a
/// drive.
pub open spec fn needs_separator(folder: Seq<char>, windows: bool) -> bool {
    &&& folder.len() > 0
    &&& folder.last() != '/'
    &&& windows ==> folder.last() != '\\' && !(has_drive(folder) && folder.len() == 2)
}

/// What separates a folder from what is in it.
pub open spec fn separator(folder: Seq<char>, windows: bool) -> Seq<char> {
    if !needs_separator(folder, windows) {
        ""@
    } else if windows {
        "\\"@
    } else {
        "/"@
    }
}

/// What separates a folder from what is in it.
pub fn separator_of(folder: &str, windows: bool) -> (r: &'static str)
    ensures
        r@ == separator(folder@, windows),
{
    let chars = chars_of(folder);
    if chars.len() == 0 || chars[chars.len() - 1] == '/' {
        ""
    } else if !windows {
        "/"
    } else if chars[chars.len() - 1] == '\\' || (chars.len() == 2 && begins_with_drive(&chars)) {
        ""
    } else {
        "\\"
    }
}

/// The path of `name` in the folder `folder`.
pub open spec fn inside(folder: PathView, name: Seq<char>, windows: bool) -> PathView {
    let between = separator(folder.shown, windows);
    PathView {
        shown: folder.shown + between + name,
        bytes: folder.bytes + vstd::utf8::encode_utf8(between) + vstd::utf8::encode_utf8(name),
    }
}

impl LocalPath {
    /// The path that is written as `text`.
    pub fn of_text(text: String) -> (r: LocalPath)
        ensures
            r@ == text_path(text@),
    {
        let bytes = text.as_str().as_bytes_vec();
        LocalPath { shown: text, bytes }
    }

    /// The path of `name` in this folder.
    pub fn child(&self, name: &str, windows: bool) -> (r: LocalPath)
        ensures
            r@ == inside(self@, name@, windows),
    {
        let between = separator_of(self.shown.as_str(), windows);
        let mut shown = self.shown.as_str().to_owned();
        let mut bytes = copy_bytes(&self.bytes);
        let mut between_bytes = between.as_bytes_vec();
        let mut name_bytes = name.as_bytes_vec();
        shown.append(between);
        shown.append(name);
        bytes.append(&mut between_bytes);
        bytes.append(&mut name_bytes);
        LocalPath { shown, bytes }
    }
}

// ---------------------------------------------------------------------------
// What stands in front of a path on Windows
// ---------------------------------------------------------------------------
/// Whether `c` separates the parts of a path on Windows.
pub open spec fn is_separator(c: char) -> bool {
    c == '/' || c == '\\'
}

/// Whether `path` is verbatim: it begins with two backslashes, a question mark
/// and another backslash. Only backslashes separate the parts of such a path.
pub open spec fn is_verbatim(path: Seq<char>) -> bool {
    path.len() >= 4 && path[0] == '\\' && path[1] == '\\' && path[2] == '?' && path[3] == '\\'
}

/// Whether `path` is verbatim.
fn begins_verbatim(chars: &Vec<char>) -> (r: bool)
    ensures
        r == is_verbatim(chars@),
{
    chars.len() >= 4 && chars[0] == '\\' && chars[1] == '\\' && chars[2] == '?' && chars[3] == '\\'
}

/// Whether `path` names a device: it begins with two separators, a dot and
/// another separator.
pub open spec fn names_device(path: Seq<char>) -> bool {
    path.len() >= 4 && is_separator(path[0]) && is_separator(path[1]) && path[2] == '.'
        && is_separator(path[3])
}

/// Whether a verbatim path goes on with a server and a share.
pub open spec fn names_share(path: Seq<char>) -> bool {
    path.len() >= 8 && path[4] == 'U' && path[5] == 'N' && path[6] == 'C' && path[7] == '\\'
}

/// Where the part of `path` that begins at `from` ends.
pub open spec fn part_end(path: Seq<char>, from: int, verbatim: bool) -> int
    decreases path.len() - from,
{
    if from >= path.len() || path[from] == '\\' || (!verbatim && path[from] == '/') {
        from
    } else {
        part_end(path, from + 1, verbatim)
    }
}

/// Where the part of `chars` that begins at `from` ends.
fn find_part_end(chars: &Vec<char>, from: usize, verbatim: bool) -> (r: usize)
    requires
        from <= chars@.len(),
    ensures
        r == part_end(chars@, from as int, verbatim),
        from <= r <= chars@.len(),
{
    let mut i: usize = from;
    while i < chars.len() && chars[i] != '\\' && (verbatim || chars[i] != '/')
        invariant
            from <= i <= chars@.len(),
            part_end(chars@, from as int, verbatim) == part_end(chars@, i as int, verbatim),
        decreases chars@.len() - i,
    {
        i += 1;
    }
    i
}

/// Where a server and a share that begin at `from` end: two parts with a
/// separator between them.
pub open spec fn share_end(path: Seq<char>, from: int, verbatim: bool) -> int {
    let server = part_end(path, from, verbatim);
    if server < path.len() {
        part_end(path, server + 1, verbatim)
    } else {
        server
    }
}

/// Where a server and a share that begin at `from` end.
fn find_share_end(chars: &Vec<char>, from: usize, verbatim: bool) -> (r: usize)
    requires
        from <= chars@.len(),
    ensures
        r == share_end(chars@, from as int, verbatim),
        from <= r <= chars@.len(),
{
    let server = find_part_end(chars, from, verbatim);
    if server < chars.len() {
        find_part_end(chars, server + 1, verbatim)
    } else {
        server
    }
}

/// How much of `path` stands in front of its parts on Windows: the letter of a
/// drive, a device, a server and a share, or what makes a path verbatim. A share
/// without a server, or a server without a share, is none of these.
pub open spec fn prefix_len(path: Seq<char>) -> int {
    if is_verbatim(path) {
        if names_share(path) {
            share_end(path, 8, true)
        } else {
            part_end(path, 4, true)
        }
    } else if names_device(path) {
        part_end(path, 4, false)
    } else if path.len() >= 2 && is_separator(path[0]) && is_separator(path[1]) {
        let server = part_end(path, 2, false);
        let share = share_end(path, 2, false);
        if server > 2 && share > server + 1 {
            share
        } else {
            0
        }
    } else if has_drive(path) {
        2
    } else {
        0
    }
}

/// How much of `chars` stands in front of the parts of a path on Windows.
fn find_prefix_len(chars: &Vec<char>) -> (r: usize)
    ensures
        r == prefix_len(chars@),
        r <= chars@.len(),
{
    let n = chars.len();
    if begins_verbatim(chars) {
        let is_share = n >= 8 && chars[4] == 'U' && chars[5] == 'N' && chars[6] == 'C' && chars[7]
            == '\\';
        if is_share {
            find_share_end(chars, 8, true)
        } else {
            find_part_end(chars, 4, true)
        }
    } else if n >= 2 && (chars[0] == '/' || chars[0] == '\\') && (chars[1] == '/' || chars[1]
        == '\\') {
        if n >= 4 && chars[2] == '.' && (chars[3] == '/' || chars[3] == '\\') {
            return find_part_end(chars, 4, false);
        }
        let server = find_part_end(chars, 2, false);
        let share = find_share_end(chars, 2, false);
        if server > 2 && share > server && share - server > 1 {
            share
        } else {
            0
        }
    } else if begins_with_drive(chars) {
        2
    } else {
        0
    }
}

/// `path` with nothing but `separator` between its parts, and nothing in front
/// of them.
pub struct PlainPath {
    pub text: String,
    pub separator: char,
    /// A single dot is a part like any other.
    pub verbatim: bool,
}

/// The parts of `path`, with nothing but `/` between them, or nothing but `\`
/// if the path is verbatim. On Windows, `\` separates the parts of other paths
/// too, and what stands in front of a path is none of its parts.
pub open spec fn plain_form(path: Seq<char>, windows: bool) -> (Seq<char>, char, bool) {
    if !windows {
        (path, '/', false)
    } else {
        let rest = path.skip(prefix_len(path));
        if is_verbatim(path) {
            (rest, '\\', true)
        } else {
            (text::replace(rest, '\\', "/"@), '/', false)
        }
    }
}

/// The parts of `path`, with nothing but one separator between them.
pub fn in_plain_form(path: &str, windows: bool) -> (r: PlainPath)
    ensures
        (r.text@, r.separator, r.verbatim) == plain_form(path@, windows),
{
    if !windows {
        return PlainPath { text: path.to_owned(), separator: '/', verbatim: false };
    }
    let chars = chars_of(path);
    let rest = string_between(&chars, find_prefix_len(&chars), chars.len());
    assert(rest@ =~= path@.skip(prefix_len(path@)));
    if begins_verbatim(&chars) {
        PlainPath { text: rest, separator: '\\', verbatim: true }
    } else {
        PlainPath {
            text: replaced(rest.as_str(), '\\', "/"),
            separator: '/',
            verbatim: false,
        }
    }
}

/// Nothing stands in front of a name without separators and colons.
pub proof fn lemma_plain_names(name: Seq<char>)
    requires
        !name.contains('/'),
        !name.contains('\\'),
        !name.contains(':'),
    ensures
        prefix_len(name) == 0,
        !is_verbatim(name),
{
    if name.len() > 0 {
        assert(name.contains(name[0]));
    }
    if name.len() > 1 {
        assert(name.contains(name[1]));
    }
}

// ---------------------------------------------------------------------------
// Laws
// ---------------------------------------------------------------------------
/// What is inside a folder follows it behind one separator, of this system's kind;
/// none is added where one stands already, behind nothing, or behind the letter of
/// a Windows drive.
pub proof fn law_one_separator_stands_between(folder: PathView, name: Seq<char>, windows: bool)
    ensures
        ({
            let path = inside(folder, name, windows);
            let f = folder.shown;
            let bare = f.len() == 0 || f[f.len() - 1] == '/' || (windows && (f[f.len() - 1] == '\\'
                || (f.len() == 2 && text::is_letter(f[0]) && f[1] == ':')));
            let between = if bare {
                ""@
            } else if windows {
                "\\"@
            } else {
                "/"@
            };
            &&& path.shown == f + between + name
            &&& path.bytes == folder.bytes + vstd::utf8::encode_utf8(between)
                + vstd::utf8::encode_utf8(name)
        }),
{
}

/// A path that is text is shown as it is, and named by its bytes.
pub proof fn law_text_paths_are_their_text(text: Seq<char>)
    ensures
        text_path(text).shown == text,
        text_path(text).bytes == vstd::utf8::encode_utf8(text),
{
}

/// A part of a path ends at the separator behind it, or with the path.
proof fn lemma_parts_end(path: Seq<char>, from: int, to: int, verbatim: bool)
    requires
        0 <= from <= to <= path.len(),
        forall|i: int|
            from <= i < to ==> #[trigger] path[i] != '\\' && (verbatim || path[i] != '/'),
        to < path.len() ==> path[to] == '\\' || (!verbatim && path[to] == '/'),
    ensures
        part_end(path, from, verbatim) == to,
    decreases to - from,
{
    if from < to {
        assert(path[from] != '\\');
        lemma_parts_end(path, from + 1, to, verbatim);
    }
}

/// The letter of a drive stands in front of the parts of a Windows path.
pub proof fn law_drives_are_set_aside(letter: char, rest: Seq<char>)
    requires
        text::is_letter(letter),
    ensures
        prefix_len(seq![letter, ':'] + rest) == 2,
        plain_form(seq![letter, ':'] + rest, true).0 == text::replace(rest, '\\', "/"@),
        plain_form(seq![letter, ':'] + rest, true).1 == '/',
        !plain_form(seq![letter, ':'] + rest, true).2,
{
    let path = seq![letter, ':'] + rest;
    assert(path[0] == letter && path[1] == ':');
    assert(path.skip(2) =~= rest);
}

/// A server and a share stand in front of the parts of a Windows path.
pub proof fn law_shares_are_set_aside(server: Seq<char>, share: Seq<char>, rest: Seq<char>)
    requires
        server.len() > 0 && !server.contains('/') && !server.contains('\\'),
        share.len() > 0 && !share.contains('/') && !share.contains('\\'),
        server != seq!['.'] && server != seq!['?'],
        rest.len() > 0 ==> rest[0] == '/' || rest[0] == '\\',
    ensures
        plain_form(seq!['\\', '\\'] + server + seq!['\\'] + share + rest, true) == (
            text::replace(rest, '\\', "/"@),
            '/',
            false,
        ),
{
    let path = seq!['\\', '\\'] + server + seq!['\\'] + share + rest;
    let a = 2 + server.len();
    let b = a + 1 + share.len();
    assert(path[0] == '\\' && path[1] == '\\');
    assert forall|i: int| 2 <= i < a implies #[trigger] path[i] != '\\' && path[i] != '/' by {
        assert(path[i] == server[i - 2]);
        assert(server.contains(server[i - 2]));
    }
    assert(path[a as int] == '\\');
    assert forall|i: int| a + 1 <= i < b implies #[trigger] path[i] != '\\' && path[i] != '/' by {
        assert(path[i] == share[i - a - 1]);
        assert(share.contains(share[i - a - 1]));
    }
    if rest.len() > 0 {
        assert(path[b as int] == rest[0]);
    }
    lemma_parts_end(path, 2, a as int, false);
    lemma_parts_end(path, a as int + 1, b as int, false);
    assert(path[2] == server[0]);
    if server.len() == 1 {
        assert(server[0] != '.') by {
            if server[0] == '.' {
                assert(server =~= seq!['.']);
            }
        }
        assert(server[0] != '?') by {
            if server[0] == '?' {
                assert(server =~= seq!['?']);
            }
        }
    } else {
        assert(path[3] == server[1]);
        assert(server.contains(server[1]));
    }
    assert(path.skip(b as int) =~= rest);
}

/// In a verbatim Windows path only backslashes separate the parts, and the first
/// part stands in front of the others.
pub proof fn law_verbatim_paths_are_taken_literally(first: Seq<char>, rest: Seq<char>)
    requires
        first != seq!['U', 'N', 'C'],
        !first.contains('\\'),
        rest.len() > 0 ==> rest[0] == '\\',
    ensures
        plain_form(seq!['\\', '\\', '?', '\\'] + first + rest, true) == (rest, '\\', true),
{
    let path = seq!['\\', '\\', '?', '\\'] + first + rest;
    let a = 4 + first.len();
    assert(path[0] == '\\' && path[1] == '\\' && path[2] == '?' && path[3] == '\\');
    assert forall|i: int| 4 <= i < a implies #[trigger] path[i] != '\\' by {
        assert(path[i] == first[i - 4]);
        assert(first.contains(first[i - 4]));
    }
    if rest.len() > 0 {
        assert(path[a as int] == rest[0]);
    }
    lemma_parts_end(path, 4, a as int, true);
    if names_share(path) {
        if first.len() < 3 {
            if rest.len() > 0 {
                assert(path[a as int] == '\\');
            }
        } else {
            assert(first[0] == path[4] && first[1] == path[5] && first[2] == path[6]);
            if first.len() > 3 {
                assert(first[3] == path[7]);
                assert(first.contains(first[3]));
            } else {
                assert(first =~= seq!['U', 'N', 'C']);
            }
        }
    }
    assert(path.skip(a as int) =~= rest);
}

/// On Unix a path is its parts, as they stand.
pub proof fn law_unix_paths_are_their_parts(path: Seq<char>)
    ensures
        plain_form(path, false) == (path, '/', false),
{
}

/// A device stands in front of the parts of a Windows path.
pub proof fn law_devices_are_set_aside(device: Seq<char>, rest: Seq<char>)
    requires
        !device.contains('/') && !device.contains('\\'),
        rest.len() > 0 ==> rest[0] == '/' || rest[0] == '\\',
    ensures
        plain_form(seq!['\\', '\\', '.', '\\'] + device + rest, true) == (
            text::replace(rest, '\\', "/"@),
            '/',
            false,
        ),
{
    let path = seq!['\\', '\\', '.', '\\'] + device + rest;
    let a = 4 + device.len();
    assert(path[0] == '\\' && path[1] == '\\' && path[2] == '.' && path[3] == '\\');
    assert forall|i: int| 4 <= i < a implies #[trigger] path[i] != '\\' && path[i] != '/' by {
        assert(path[i] == device[i - 4]);
        assert(device.contains(device[i - 4]));
    }
    if rest.len() > 0 {
        assert(path[a as int] == rest[0]);
    }
    lemma_parts_end(path, 4, a as int, false);
    assert(path.skip(a as int) =~= rest);
}

/// A server and a share stand in front of the parts of a verbatim path too, and
/// there only backslashes separate anything.
pub proof fn law_verbatim_shares_are_set_aside(
    server: Seq<char>,
    share: Seq<char>,
    rest: Seq<char>,
)
    requires
        !server.contains('\\'),
        !share.contains('\\'),
        rest.len() > 0 ==> rest[0] == '\\',
    ensures
        plain_form(
            seq!['\\', '\\', '?', '\\', 'U', 'N', 'C', '\\'] + server + seq!['\\'] + share + rest,
            true,
        ) == (rest, '\\', true),
        plain_form(seq!['\\', '\\', '?', '\\', 'U', 'N', 'C', '\\'] + server, true) == (
            Seq::<char>::empty(),
            '\\',
            true,
        ),
{
    let lead = seq!['\\', '\\', '?', '\\', 'U', 'N', 'C', '\\'];
    let path = lead + server + seq!['\\'] + share + rest;
    let a = 8 + server.len();
    let b = a + 1 + share.len();
    assert(path[0] == lead[0] && path[1] == lead[1] && path[2] == lead[2] && path[3] == lead[3]
        && path[4] == lead[4] && path[5] == lead[5] && path[6] == lead[6] && path[7] == lead[7]);
    assert forall|i: int| 8 <= i < a implies #[trigger] path[i] != '\\' by {
        assert(path[i] == server[i - 8]);
        assert(server.contains(server[i - 8]));
    }
    assert(path[a as int] == '\\');
    assert forall|i: int| a + 1 <= i < b implies #[trigger] path[i] != '\\' by {
        assert(path[i] == share[i - a - 1]);
        assert(share.contains(share[i - a - 1]));
    }
    if rest.len() > 0 {
        assert(path[b as int] == rest[0]);
    }
    lemma_parts_end(path, 8, a as int, true);
    lemma_parts_end(path, a as int + 1, b as int, true);
    assert(path.skip(b as int) =~= rest);
    let bare = lead + server;
    assert(bare[0] == lead[0] && bare[1] == lead[1] && bare[2] == lead[2] && bare[3] == lead[3]
        && bare[4] == lead[4] && bare[5] == lead[5] && bare[6] == lead[6] && bare[7] == lead[7]);
    assert forall|i: int| 8 <= i < a implies #[trigger] bare[i] != '\\' by {
        assert(bare[i] == server[i - 8]);
        assert(server.contains(server[i - 8]));
    }
    lemma_parts_end(bare, 8, a as int, true);
    assert(bare.skip(a as int) =~= Seq::<char>::empty());
}

/// A Windows path that begins with none of these is its parts.
pub proof fn law_other_windows_paths_are_their_parts(path: Seq<char>)
    requires
        path.len() < 2 || !((path[0] == '/' || path[0] == '\\') && (path[1] == '/' || path[1]
            == '\\')),
        path.len() < 2 || path[1] != ':',
    ensures
        plain_form(path, true) == (text::replace(path, '\\', "/"@), '/', false),
{
    assert(path.skip(0) =~= path);
}

} // verus!

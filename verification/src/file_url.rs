//! Files that are named by a URL.

use vstd::prelude::*;

use crate::invite;
use crate::invite::{parse_url, RelayUrl, UrlView};
use crate::paths;
use crate::paths::{LocalPath, PathView};
use crate::text;
use crate::text::{chars_of, letter_char, same_text};

verus! {

broadcast use vstd::seq_lib::group_seq_properties;

// ---------------------------------------------------------------------------
// The path in a URL
// ---------------------------------------------------------------------------
/// The value of a hexadecimal digit.
pub open spec fn hex_value(b: u8) -> Option<int> {
    if 48 <= b <= 57 {
        Some(b - 48)
    } else if 65 <= b <= 70 {
        Some(b - 55)
    } else if 97 <= b <= 102 {
        Some(b - 87)
    } else {
        None
    }
}

/// The path of a URL with `separator` in place of every slash, and with the byte
/// that it stands for in place of every percent sign with two hexadecimal
/// digits.
pub open spec fn decoded(path: Seq<u8>, separator: u8) -> Seq<u8>
    decreases path.len(),
{
    if path.len() == 0 {
        Seq::empty()
    } else if path[0] == 47 {
        seq![separator] + decoded(path.skip(1), separator)
    } else if path[0] == 37 && path.len() >= 3 && hex_value(path[1]) is Some && hex_value(
        path[2],
    ) is Some {
        seq![(hex_value(path[1])->0 * 16 + hex_value(path[2])->0) as u8] + decoded(
            path.skip(3),
            separator,
        )
    } else {
        seq![path[0]] + decoded(path.skip(1), separator)
    }
}

/// Whether a URL names a file on this machine.
pub open spec fn is_local(url: UrlView) -> bool {
    match url.host {
        Some(host) => host == "localhost"@,
        None => true,
    }
}

/// The path that a URL names on a Unix system. A slash follows what looks like
/// the letter of a drive.
pub open spec fn unix_path(url: UrlView) -> Seq<u8> {
    let path = decoded(vstd::utf8::encode_utf8(url.path), 47);
    let n = path.len() as int;
    if n > 2 && text::is_letter(path[n - 2] as char) && (path[n - 1] == 58 || path[n - 1] == 124) {
        path.push(47)
    } else {
        path
    }
}

/// The path that a URL names on Windows: it begins with a drive, or with the
/// name of another machine.
pub open spec fn windows_path(url: UrlView) -> Seq<u8> {
    let path = decoded(vstd::utf8::encode_utf8(url.path), 92);
    if is_local(url) {
        path.skip(1)
    } else {
        vstd::utf8::encode_utf8("\\\\"@) + vstd::utf8::encode_utf8(url.host->0) + path
    }
}

/// Whether the file that a URL names has the path `path` on some system. On
/// Redox, `file:` stands in front of the path.
pub open spec fn is_path_of(url: UrlView, path: Seq<u8>) -> bool {
    ||| is_local(url) && path == unix_path(url)
    ||| is_local(url) && path == vstd::utf8::encode_utf8("file:"@) + unix_path(url)
    ||| path == windows_path(url)
}

/// Whether a path that is text is shown as it is.
pub open spec fn is_shown(path: PathView) -> bool {
    forall|text: Seq<char>|
        path.bytes == #[trigger] vstd::utf8::encode_utf8(text) ==> path.shown == text
}

/// Whether nothing but a drive is left of a URL that names a file on this
/// machine.
pub open spec fn is_drive(path: Seq<char>) -> bool {
    &&& path.len() == 3 || path.len() == 5
    &&& text::is_letter(path[1])
    &&& path.len() == 3 ==> path[2] == ':'
    &&& path.len() == 5 ==> path[2] == '%' && path[3] == '3' && (path[4] == 'a' || path[4] == 'A')
}

/// Whether no share follows the name of a machine: there is nothing behind it,
/// or another separator.
pub open spec fn lacks_share(path: Seq<char>) -> bool {
    ||| path.len() < 2
    ||| paths::is_separator(path[1])
    ||| path.len() >= 4 && path[1] == '%' && path[2] == '2' && (path[3] == 'f' || path[3] == 'F')
    ||| path.len() >= 4 && path[1] == '%' && path[2] == '5' && (path[3] == 'c' || path[3] == 'C')
}

/// Whether only a drive, or only another machine, is left of a URL. On Windows
/// this is no place of a file.
pub open spec fn names_no_file(url: UrlView) -> bool {
    if is_local(url) {
        is_drive(url.path)
    } else {
        lacks_share(url.path)
    }
}

/// `url::Url::to_file_path` on the URL that `text` is parsed to: how the path is
/// shown, and its bytes. Which form the path has, and whether there is one,
/// depends on the system. Where only a drive or only another machine is left of
/// the URL, the crate may make a path on Windows that it does not accept itself,
/// so these are left out.
#[verifier::external_body]
fn file_url_path(text: &str) -> (r: Option<LocalPath>)
    requires
        invite::url_parse(text@) matches Ok(url) ==> !names_no_file(url),
    ensures
        match r {
            Some(path) => invite::url_parse(text@) matches Ok(url) && is_path_of(url, path@.bytes)
                && is_shown(path@),
            None => true,
        },
{
    let path = url::Url::parse(text).ok()?.to_file_path().ok()?;
    Some(LocalPath {
        shown: path.display().to_string(),
        bytes: path.into_os_string().into_encoded_bytes(),
    })
}

// ---------------------------------------------------------------------------
// The file
// ---------------------------------------------------------------------------
/// Whether a URL names a file on this machine.
fn names_this_machine(url: &RelayUrl) -> (r: bool)
    ensures
        r == is_local(url@),
{
    match &url.host {
        Some(host) => same_text(host.as_str(), "localhost"),
        None => true,
    }
}

/// Whether only a drive, or only another machine, is left of a URL.
fn lacks_file(url: &RelayUrl) -> (r: bool)
    ensures
        r == names_no_file(url@),
{
    let path = chars_of(url.path.as_str());
    let n = path.len();
    if names_this_machine(url) {
        (n == 3 && letter_char(path[1]) && path[2] == ':') || (n == 5 && letter_char(path[1])
            && path[2] == '%' && path[3] == '3' && (path[4] == 'a' || path[4] == 'A'))
    } else {
        n < 2 || path[1] == '/' || path[1] == '\\' || (n >= 4 && path[1] == '%' && ((path[2] == '2'
            && (path[3] == 'f' || path[3] == 'F')) || (path[2] == '5' && (path[3] == 'c'
            || path[3] == 'C'))))
    }
}

/// What is left of a URL that names no file: the drive, where a drive is a
/// directory like any other.
pub open spec fn left_of(url: UrlView, windows: bool) -> Option<PathView> {
    if is_local(url) && !windows {
        Some(paths::text_path(seq!['/', url.path[1], ':', '/']))
    } else {
        None
    }
}

/// Whether `file` may be the file that the URL `text` names. There is none if
/// `text` is no URL. Otherwise the path is made of the parts of the URL, and the
/// system decides in which way, and whether it has one.
pub open spec fn may_name(text: Seq<char>, windows: bool, file: Option<PathView>) -> bool {
    match invite::url_parse(text) {
        Err(_) => file is None,
        Ok(url) => if names_no_file(url) {
            file == left_of(url, windows)
        } else {
            match file {
                Some(path) => is_path_of(url, path.bytes) && is_shown(path),
                None => true,
            }
        },
    }
}

/// The file that the URL `text` names, if there is one.
pub fn file_named(text: &str, windows: bool) -> (r: Option<LocalPath>)
    ensures
        may_name(text@, windows, paths::optional(r)),
{
    match parse_url(text) {
        Err(_) => None,
        Ok(url) => if !lacks_file(&url) {
            file_url_path(text)
        } else if windows || !names_this_machine(&url) {
            None
        } else {
            let path = chars_of(url.path.as_str());
            let mut shown = "/".to_owned();
            shown.push(path[1]);
            shown.append(":/");
            proof {
                reveal_strlit("/");
                reveal_strlit(":/");
                assert(shown@ =~= seq!['/', url@.path[1], ':', '/']);
            }
            Some(LocalPath::of_text(shown))
        },
    }
}

// ---------------------------------------------------------------------------
// Laws
// ---------------------------------------------------------------------------
/// The path of a URL is decoded byte by byte: a slash becomes a separator, a
/// percent sign with two hexadecimal digits the byte that they stand for, and
/// everything else stays.
pub proof fn law_paths_are_decoded_byte_by_byte(
    b: u8,
    high: int,
    low: int,
    rest: Seq<u8>,
    separator: u8,
)
    requires
        0 <= high < 16,
        0 <= low < 16,
    ensures
        decoded(Seq::empty(), separator).len() == 0,
        decoded(seq![47u8] + rest, separator) == seq![separator] + decoded(rest, separator),
        b != 47 && b != 37 ==> decoded(seq![b] + rest, separator) == seq![b] + decoded(
            rest,
            separator,
        ),
        ({
            let h = (if high < 10 {
                48 + high
            } else {
                55 + high
            }) as u8;
            let l = (if low < 10 {
                48 + low
            } else {
                87 + low
            }) as u8;
            decoded(seq![37u8, h, l] + rest, separator) == seq![(high * 16 + low) as u8] + decoded(
                rest,
                separator,
            ) && decoded(seq![37u8, l, h] + rest, separator) == seq![(low * 16 + high) as u8]
                + decoded(rest, separator)
        }),
{
    let h = (if high < 10 {
        48 + high
    } else {
        55 + high
    }) as u8;
    let l = (if low < 10 {
        48 + low
    } else {
        87 + low
    }) as u8;
    assert((seq![47u8] + rest).skip(1) =~= rest);
    assert((seq![b] + rest).skip(1) =~= rest);
    assert((seq![37u8, h, l] + rest).skip(3) =~= rest);
    assert((seq![37u8, l, h] + rest).skip(3) =~= rest);
    assert(hex_value(h) == Some(high) && hex_value(l) == Some(low));
}

/// A path without percent signs is its own bytes.
proof fn lemma_nothing_decoded(path: Seq<u8>)
    requires
        !path.contains(37),
    ensures
        decoded(path, 47) == path,
    decreases path.len(),
{
    if path.len() > 0 {
        let rest = path.skip(1);
        assert(path.contains(path[0]));
        assert forall|b: u8| rest.contains(b) implies path.contains(b) by {
            let i = choose|i: int| 0 <= i < rest.len() && rest[i] == b;
            assert(path[i + 1] == b);
        }
        lemma_nothing_decoded(rest);
        assert(seq![path[0]] + rest =~= path);
    } else {
        assert(decoded(path, 47) =~= path);
    }
}

/// A URL without a host, or with this machine as its host, names the file at its
/// path; the bytes of a path without percent signs name it as they stand. What
/// ends like a drive is a folder.
pub proof fn law_local_files_are_named_by_their_path(url: UrlView)
    ensures
        is_local(url) <==> url.host is None || url.host == Some("localhost"@),
        ({
            let bytes = vstd::utf8::encode_utf8(url.path);
            let n = bytes.len() as int;
            let drive = n > 2 && (65 <= bytes[n - 2] <= 90 || 97 <= bytes[n - 2] <= 122) && (
            bytes[n - 1] == 58 || bytes[n - 1] == 124);
            !bytes.contains(37) ==> unix_path(url) == if drive {
                bytes.push(47)
            } else {
                bytes
            }
        }),
{
    let bytes = vstd::utf8::encode_utf8(url.path);
    if !bytes.contains(37) {
        lemma_nothing_decoded(bytes);
    }
    match url.host {
        Some(host) => {},
        None => {},
    }
}

/// On Windows, a file on this machine is named by its path without the first
/// separator, and one on another machine by that machine and its path.
pub proof fn law_windows_files_name_their_machine(url: UrlView, host: Seq<char>)
    ensures
        url.host is None || url.host == Some("localhost"@) ==> windows_path(url) == decoded(
            vstd::utf8::encode_utf8(url.path),
            92,
        ).skip(1),
        url.host == Some(host) && host != "localhost"@ ==> windows_path(url)
            == vstd::utf8::encode_utf8("\\\\"@) + vstd::utf8::encode_utf8(host) + decoded(
            vstd::utf8::encode_utf8(url.path),
            92,
        ),
{
}

/// What is no URL names no file; a URL that is nothing but a drive names the
/// folder of that drive, except on Windows; and any other names a file at its path
/// on this system, which is shown as it is.
pub proof fn law_urls_name_files(text: Seq<char>, windows: bool, file: Option<PathView>)
    requires
        may_name(text, windows, file),
    ensures
        invite::url_parse(text) is Err ==> file is None,
        invite::url_parse(text) matches Ok(url) ==> file matches Some(path) ==> {
            ||| !windows && (url.host is None || url.host == Some("localhost"@)) && is_drive(
                url.path,
            ) && path.shown == seq!['/', url.path[1], ':', '/']
            ||| (url.host is None || url.host == Some("localhost"@)) && path.bytes == unix_path(url)
            ||| (url.host is None || url.host == Some("localhost"@)) && path.bytes
                == vstd::utf8::encode_utf8("file:"@) + unix_path(url)
            ||| path.bytes == windows_path(url)
        },
        invite::url_parse(text) matches Ok(url) ==> !windows && (url.host is None || url.host
            == Some("localhost"@)) && is_drive(url.path) ==> (file matches Some(path)
            && path.shown == seq!['/', url.path[1], ':', '/'] && path.bytes
            == vstd::utf8::encode_utf8(seq!['/', url.path[1], ':', '/'])),
        file matches Some(path) ==> (invite::url_parse(text) matches Ok(url) && (names_no_file(url)
            || (forall|name: Seq<char>|
            path.bytes == #[trigger] vstd::utf8::encode_utf8(name) ==> path.shown == name))),
{
}

/// What is nothing but a drive is a slash, a letter and a colon, which may be
/// written as a percent sign and its digits.
pub proof fn law_drives_are_a_letter_and_a_colon(letter: char)
    requires
        text::is_letter(letter),
    ensures
        is_drive(seq!['/', letter, ':']),
        is_drive(seq!['/', letter, '%', '3', 'a']),
        is_drive(seq!['/', letter, '%', '3', 'A']),
        !is_drive(seq!['/', letter, ':', '/']),
        !is_drive(seq!['/', letter, '/']),
{
}

/// The path behind the name of another machine lacks a share exactly if it is
/// nothing but a separator, or if another separator follows that, however it is
/// written.
pub proof fn law_shares_follow_their_machine(share: Seq<char>)
    ensures
        share.len() > 0 && share[0] != '/' && share[0] != '\\' && share[0] != '%'
            ==> !lacks_share(seq!['/'] + share),
        share.len() > 0 && (share[0] == '/' || share[0] == '\\') ==> lacks_share(seq!['/'] + share),
        lacks_share(seq!['/', '%', '2', 'f'] + share),
        lacks_share(seq!['/', '%', '2', 'F'] + share),
        lacks_share(seq!['/', '%', '5', 'c'] + share),
        lacks_share(seq!['/', '%', '5', 'C'] + share),
        lacks_share(seq!['/']),
        lacks_share(Seq::empty()),
{
    if share.len() > 0 {
        assert((seq!['/'] + share)[1] == share[0]);
    }
}

} // verus!

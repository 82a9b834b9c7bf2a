use airwire::paths::{in_plain_form, separator_of, LocalPath};

#[test]
fn separators_stand_where_they_are_needed() {
    for (folder, elsewhere, on_windows) in [
        ("", "", ""),
        ("a", "/", "\\"),
        ("a/", "", ""),
        ("a\\", "/", ""),
        ("C:", "/", ""),
        ("1:", "/", "\\"),
        ("C:x", "/", "\\"),
    ] {
        assert_eq!(separator_of(folder, false), elsewhere, "{folder}");
        assert_eq!(separator_of(folder, true), on_windows, "{folder}");
    }
}

#[test]
fn joined_paths_agree_with_std() {
    for folder in ["", "/", "a", "a/", "/a/b", "."] {
        let expected = std::path::Path::new(folder).join("airwire");
        let path = LocalPath::of_text(folder.to_owned()).child("airwire", false);
        assert_eq!(path.shown, expected.to_str().unwrap());
        assert_eq!(path.bytes, path.shown.as_bytes());
    }
}

#[test]
fn drives_and_backslashes_go_on_windows() {
    let plain = |path: &str, windows: bool| {
        let plain = in_plain_form(path, windows);
        (plain.text, plain.separator, plain.verbatim)
    };
    let usual = |text: &str| (text.to_owned(), '/', false);
    assert_eq!(plain("C:\\a/b\\c", true), usual("/a/b/c"));
    assert_eq!(plain("C:\\a", false), usual("C:\\a"));
    assert_eq!(plain("cc:\\a", true), usual("cc:/a"));
    assert_eq!(plain("\\\\server\\share\\a", true), usual("/a"));
    assert_eq!(plain("//server/share", true), usual(""));
    assert_eq!(plain("\\\\server", true), usual("//server"));
    assert_eq!(plain("\\\\server\\\\a", true), usual("//server//a"));
    assert_eq!(plain("\\\\.\\COM1\\a", true), usual("/a"));
    let verbatim = |text: &str| (text.to_owned(), '\\', true);
    assert_eq!(plain("\\\\?\\C:\\a/b", true), verbatim("\\a/b"));
    assert_eq!(plain("\\\\?\\UNC\\server\\share\\a", true), verbatim("\\a"));
    assert_eq!(plain("\\\\?\\UNC\\server", true), verbatim(""));
    assert_eq!(plain("\\\\?\\pictures", true), verbatim(""));
}

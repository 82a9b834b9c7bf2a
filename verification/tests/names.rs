use airwire::names::{
    candidate_name, clean_alias, human_bytes, leaf_of, partial_name, sanitize_filename,
    split_extension, visible_alias, NameSearch, NameStep,
};

fn reference_size(bytes: u64) -> String {
    const UNITS: &[&str] = &["B", "KiB", "MiB", "GiB"];
    let mut value = bytes as f64;
    let mut unit = 0;
    while value >= 1024.0 && unit + 1 < UNITS.len() {
        value /= 1024.0;
        unit += 1;
    }
    format!("{value:.1} {}", UNITS[unit])
}

#[test]
fn sanitizes_hostile_names() {
    assert_eq!(sanitize_filename("../../secret.txt", false), "secret.txt");
    assert_eq!(sanitize_filename("bad:name\u{0}.txt", false), "bad_name_.txt");
    assert_eq!(sanitize_filename("..", false), "attachment");
}

#[test]
fn sanitizes_other_names() {
    assert_eq!(sanitize_filename("", false), "attachment");
    assert_eq!(sanitize_filename("/", false), "attachment");
    assert_eq!(sanitize_filename(".", false), "attachment");
    assert_eq!(sanitize_filename("a/..", false), "attachment");
    assert_eq!(sanitize_filename("a/.", false), "a");
    assert_eq!(sanitize_filename("a/b/", false), "b");
    assert_eq!(sanitize_filename("a\\b\n", false), "a_b_");
    assert_eq!(sanitize_filename(&"x".repeat(300), false), "x".repeat(180));
    let safe = sanitize_filename("../we:ird\tname", false);
    assert_eq!(sanitize_filename(&safe, false), safe);
}

#[test]
fn windows_names_lose_their_drive_and_folders() {
    assert_eq!(sanitize_filename("C:\\Users\\me\\secret.txt", true), "secret.txt");
    assert_eq!(sanitize_filename("..\\..\\secret.txt", true), "secret.txt");
    assert_eq!(sanitize_filename("a/b\\c", true), "c");
    assert_eq!(sanitize_filename("C:secret.txt", true), "secret.txt");
    assert_eq!(sanitize_filename("C:", true), "attachment");
    assert_eq!(sanitize_filename("a\\..", true), "attachment");
    assert_eq!(sanitize_filename("bad:name\u{0}.txt", true), "bad_name_.txt");
    assert_eq!(sanitize_filename("\\\\server\\share", true), "attachment");
    assert_eq!(sanitize_filename("\\\\server\\share\\a.txt", true), "a.txt");
    assert_eq!(sanitize_filename("\\\\.\\COM1", true), "attachment");
    assert_eq!(sanitize_filename("\\\\?\\C:\\a/b.txt", true), "a_b.txt");
    assert_eq!(sanitize_filename("\\\\?\\C:\\a\\.", true), "attachment");
    assert_eq!(leaf_of("x\\y\\", true), Some("y".to_owned()));
    assert_eq!(leaf_of("\\", true), None);
}

#[test]
fn leaves_agree_with_std() {
    for path in ["", "/", ".", "..", "a", "a/", "a/.", "a/..", "./a", "./.", "//a//b//", "a/./.", "../x"] {
        let expected = std::path::Path::new(path)
            .file_name()
            .and_then(|name| name.to_str())
            .map(str::to_owned);
        assert_eq!(leaf_of(path, false), expected, "{path}");
    }
}

#[test]
fn extensions_agree_with_std() {
    for name in ["photo.png", "archive.tar.gz", ".hidden", "plain", "dot.", "a.b", "..a", "x..y", ".a.b"] {
        let path = std::path::Path::new(name);
        let stem = path.file_stem().unwrap().to_str().unwrap().to_owned();
        let extension = path.extension().map(|ext| ext.to_str().unwrap().to_owned());
        assert_eq!(split_extension(name), (stem, extension), "{name}");
    }
}

#[test]
fn chooses_a_non_overwriting_download_name() {
    let temp = tempfile::tempdir().unwrap();
    let _present = tempfile::Builder::new()
        .prefix("photo")
        .suffix(".png")
        .rand_bytes(0)
        .tempfile_in(temp.path())
        .unwrap();
    let mut search = NameSearch::new("photo.png");
    let selected = loop {
        let taken = temp.path().join(search.candidate()).exists();
        match search.step(taken) {
            NameStep::Use(name) => break name,
            NameStep::Try(next) => search = next,
        }
    };
    assert_eq!(selected, "photo (1).png");
}

#[test]
fn candidate_names_are_numbered() {
    assert_eq!(candidate_name("photo.png", 0), "photo.png");
    assert_eq!(candidate_name("photo.png", 12), "photo (12).png");
    assert_eq!(candidate_name("plain", 3), "plain (3)");
    assert_eq!(candidate_name(".hidden", 1), ".hidden (1)");
    assert_ne!(candidate_name("a.b", 1), candidate_name("a.b", 2));
}

#[test]
fn the_search_for_a_name_ends_with_a_random_one() {
    let mut search = NameSearch::new("photo.png");
    let mut tried = 0;
    let selected = loop {
        tried += 1;
        match search.step(true) {
            NameStep::Use(name) => break name,
            NameStep::Try(next) => search = next,
        }
    };
    assert_eq!(tried, 10_000);
    assert!(selected.ends_with("-photo.png"));
    assert_eq!(selected.len(), 6 + "-photo.png".len());
}

#[test]
fn partial_names_are_hidden_and_unique() {
    assert_eq!(
        partial_name("../a.txt", &[0x1f; 16], false),
        ".a.txt.1f1f1f1f1f1f1f1f1f1f1f1f1f1f1f1f.airwire-part"
    );
    assert!(!partial_name("../../x/../y:z", &[0xab; 16], false).contains(['/', '\\', ':']));
}

#[test]
fn aliases_are_cleaned() {
    assert_eq!(clean_alias("a\u{7}b\n"), "ab");
    assert_eq!(clean_alias("   "), "anonymous");
    assert_eq!(clean_alias("\u{1b}"), "anonymous");
    assert_eq!(clean_alias(&"y".repeat(50)), "y".repeat(32));
    assert_eq!(clean_alias(" kept "), " kept ");
    assert_eq!(visible_alias("\t".to_owned()), "anonymous");
    assert_eq!(visible_alias("me".to_owned()), "me");
}

#[test]
fn sizes_are_readable() {
    assert_eq!(human_bytes(0), "0.0 B");
    assert_eq!(human_bytes(1023), "1023.0 B");
    assert_eq!(human_bytes(1024), "1.0 KiB");
    assert_eq!(human_bytes(1280), "1.2 KiB");
    assert_eq!(human_bytes(1792), "1.8 KiB");
    assert_eq!(human_bytes(536870912), "512.0 MiB");
    assert_eq!(human_bytes(u64::MAX), "17179869184.0 GiB");
}

#[test]
fn sizes_agree_with_floating_point() {
    let mut samples: Vec<u64> = (0..5000).collect();
    for shift in 0..64 {
        for delta in 0..40u64 {
            let base = 1u64 << shift;
            samples.push(base.wrapping_add(delta * 13));
            samples.push(base.wrapping_sub(delta * 7));
            samples.push(base.wrapping_mul(delta * 51 + 1));
        }
    }
    for bytes in samples {
        assert_eq!(human_bytes(bytes), reference_size(bytes), "{bytes}");
    }
}

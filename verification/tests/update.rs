use airwire::update::{
    helper_files, powershell_quote, shell_quote, unix_script, windows_script,
};
use airwire::tui::unescape_posix_terminal_path;

#[test]
fn windows_helper_waits_and_updates_the_running_executable_directory() {
    let script = windows_script(
        42,
        r"C:\Users\O'Brien\Airwire\bin",
        r"C:\Temp\helper.ps1",
        r"C:\Temp\installer.ps1",
    );

    assert!(script.contains("Wait-Process -Id 42"));
    assert!(script.contains(r"C:\Users\O''Brien\Airwire\bin"));
    assert!(script.contains("AIRWIRE_VERSION = \"latest\""));
    assert!(script.contains("install.ps1"));
}

#[test]
fn unix_helper_waits_and_quotes_the_running_executable_directory() {
    let script = unix_script(42, "/tmp/O'Brien/bin", "/tmp/helper.sh", "/tmp/installer.sh");

    assert!(script.contains("kill -0 42"));
    assert!(script.contains("AIRWIRE_VERSION=\"latest\""));
    assert!(script.contains("AIRWIRE_NO_PATH_UPDATE=\"1\""));
    assert!(script.contains("'/tmp/O'\"'\"'Brien/bin'"));
    assert!(script.contains("install.sh"));
}

#[test]
fn the_windows_script_is_complete() {
    let expected = r#"$ErrorActionPreference = "Stop"
$InstallerPath = 'I'
try {
    Wait-Process -Id 7 -ErrorAction SilentlyContinue
    $env:AIRWIRE_REPOSITORY = "H34TB145T/airwire"
    $env:AIRWIRE_VERSION = "latest"
    $env:AIRWIRE_INSTALL_DIR = 'D'
    Remove-Item Env:AIRWIRE_DOWNLOAD_BASE -ErrorAction SilentlyContinue
    Invoke-WebRequest -Uri "https://raw.githubusercontent.com/H34TB145T/airwire/main/install.ps1" -OutFile $InstallerPath
    & $InstallerPath
    Write-Host "Airwire update complete."
} catch {
    Write-Error $_
} finally {
    Remove-Item -LiteralPath $InstallerPath -Force -ErrorAction SilentlyContinue
    Remove-Item -LiteralPath 'H' -Force -ErrorAction SilentlyContinue
}
"#;
    assert_eq!(windows_script(7, "D", "H", "I"), expected);
}

#[test]
fn the_unix_script_is_complete() {
    let expected = r#"#!/bin/sh
set -eu
while kill -0 7 2>/dev/null; do
    sleep 1
done
helper='H'
installer='I'
trap 'rm -f "$installer" "$helper"' EXIT HUP INT TERM
if command -v curl >/dev/null 2>&1; then
    curl --fail --location --silent --show-error "https://raw.githubusercontent.com/H34TB145T/airwire/main/install.sh" --output "$installer"
elif command -v wget >/dev/null 2>&1; then
    wget --quiet "https://raw.githubusercontent.com/H34TB145T/airwire/main/install.sh" --output-document="$installer"
else
    printf 'airwire updater: curl or wget is required\n' >&2
    exit 1
fi
unset AIRWIRE_DOWNLOAD_BASE
AIRWIRE_REPOSITORY="H34TB145T/airwire" AIRWIRE_VERSION="latest" AIRWIRE_INSTALL_DIR='D' AIRWIRE_NO_PATH_UPDATE="1" /bin/sh "$installer"
printf 'Airwire update complete.\n'
"#;
    assert_eq!(unix_script(7, "D", "H", "I"), expected);
}

#[test]
fn quoted_paths_are_single_words() {
    assert_eq!(powershell_quote("a'b''c"), "a''b''''c");
    assert_eq!(shell_quote("a'b"), "'a'\"'\"'b'");
    for path in ["", "'", "a b", "it's \"quoted\" \\ $HOME", "''"] {
        assert_eq!(unescape_posix_terminal_path(&shell_quote(path)), path);
    }
}

#[test]
fn helper_files_have_fresh_names() {
    let a = helper_files(7, "sh");
    let b = helper_files(7, "sh");
    assert_ne!(a.helper, b.helper);
    assert!(a.helper.starts_with("airwire-update-7-"));
    assert!(a.helper.ends_with(".sh"));
    let base = a.helper.strip_suffix(".sh").unwrap();
    assert_eq!(a.installer, format!("{base}.installer.sh"));
}

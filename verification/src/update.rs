//! The scripts that replace a running program once it has ended.

use vstd::prelude::*;

use crate::text;
use crate::text::{decimal_text, replaced};
use crate::tui;
use crate::tui::Quote;

verus! {

broadcast use vstd::seq_lib::group_seq_properties;

/// Where releases are published.
pub const REPOSITORY: &'static str = "H34TB145T/airwire";

/// Where the installers are.
pub const INSTALLER_BASE: &'static str =
    "https://raw.githubusercontent.com/H34TB145T/airwire/main";

// ---------------------------------------------------------------------------
// Names
// ---------------------------------------------------------------------------
/// `rand::random` for a 64-bit number. Any value may come back, so nothing is
/// claimed of it.
#[verifier::external_body]
fn random_number() -> u64 {
    rand::random()
}

/// The files of an update.
#[derive(Debug)]
pub struct HelperFiles {
    /// The name of the script.
    pub helper: String,
    /// The name under which the script stores the installer.
    pub installer: String,
}

/// The names of the files of an update of the process `pid` with the random
/// number `number`.
pub open spec fn helper_names(pid: u32, number: u64, extension: Seq<char>) -> (Seq<char>, Seq<
    char,
>) {
    let base = "airwire-update-"@ + text::decimal(pid as nat) + "-"@ + text::decimal(number as nat);
    (base + "."@ + extension, base + ".installer."@ + extension)
}

/// Whether `files` are the files of an update of the process `pid`.
pub open spec fn are_helper_files(pid: u32, extension: Seq<char>, files: HelperFiles) -> bool {
    exists|number: u64|
        (files.helper@, files.installer@) == #[trigger] helper_names(pid, number, extension)
}

/// Names for the files of an update of the process `pid`. Which random number
/// is drawn for them is left open.
pub fn helper_files(pid: u32, extension: &str) -> (r: HelperFiles)
    ensures
        are_helper_files(pid, extension@, r),
{
    let number = random_number();
    let mut base = "airwire-update-".to_owned();
    base.append(decimal_text(pid as u64).as_str());
    base.append("-");
    base.append(decimal_text(number).as_str());
    let mut installer = base.as_str().to_owned();
    installer.append(".installer.");
    installer.append(extension);
    let mut helper = base;
    helper.append(".");
    helper.append(extension);
    let files = HelperFiles { helper, installer };
    assert((files.helper@, files.installer@) == helper_names(pid, number, extension@));
    files
}

// ---------------------------------------------------------------------------
// Quoting
// ---------------------------------------------------------------------------
/// `path` as it stands between single quotes in a PowerShell script.
pub open spec fn powershell_quoted(path: Seq<char>) -> Seq<char> {
    text::replace(path, '\'', "''"@)
}

/// `path` as it stands between single quotes in a PowerShell script.
pub fn powershell_quote(path: &str) -> (r: String)
    ensures
        r@ == powershell_quoted(path@),
{
    replaced(path, '\'', "''")
}

/// `path` as one word of a POSIX shell script.
pub open spec fn shell_quoted(path: Seq<char>) -> Seq<char> {
    "'"@ + text::replace(path, '\'', "'\"'\"'"@) + "'"@
}

/// `path` as one word of a POSIX shell script.
pub fn shell_quote(path: &str) -> (r: String)
    ensures
        r@ == shell_quoted(path@),
{
    let mut out = "'".to_owned();
    out.append(replaced(path, '\'', "'\"'\"'").as_str());
    out.append("'");
    out
}

/// Replacing goes character by character.
proof fn lemma_replace_first(s: Seq<char>, c: char, by: Seq<char>)
    requires
        s.len() > 0,
    ensures
        text::replace(s, c, by) == (if s[0] == c {
            by
        } else {
            seq![s[0]]
        }) + text::replace(s.skip(1), c, by),
    decreases s.len(),
{
    let head = if s[0] == c {
        by
    } else {
        seq![s[0]]
    };
    let tail = s.skip(1);
    if s.len() == 1 {
        assert(tail =~= Seq::<char>::empty());
        assert(s.drop_last() =~= Seq::<char>::empty());
        assert(text::replace(s, c, by) =~= head + text::replace(tail, c, by));
    } else {
        lemma_replace_first(s.drop_last(), c, by);
        assert(s.drop_last().skip(1) =~= tail.drop_last());
        assert(tail.last() == s.last());
        assert(text::replace(s, c, by) =~= head + text::replace(tail, c, by));
    }
}

/// What follows a single quote up to the closing one stands for the path.
proof fn lemma_quoted_word(path: Seq<char>)
    ensures
        tui::unescaped(
            Quote::Single,
            text::replace(path, '\'', seq!['\'', '"', '\'', '"', '\'']) + seq!['\''],
        ) == path,
    decreases path.len(),
{
    let by = seq!['\'', '"', '\'', '"', '\''];
    let word = text::replace(path, '\'', by) + seq!['\''];
    if path.len() == 0 {
        assert(word =~= seq!['\'']);
        assert(word.skip(1) =~= Seq::<char>::empty());
        assert(tui::unescaped(Quote::Unquoted, word.skip(1)) =~= Seq::<char>::empty());
        assert(tui::unescaped(Quote::Single, word) =~= path);
    } else {
        let rest = path.skip(1);
        let tail = text::replace(rest, '\'', by) + seq!['\''];
        lemma_replace_first(path, '\'', by);
        lemma_quoted_word(rest);
        if path[0] == '\'' {
            assert(word =~= by + tail);
            let a = word.skip(1);
            let b = a.skip(1);
            let d = b.skip(1);
            let e = d.skip(1);
            let f = e.skip(1);
            assert(word[0] == '\'');
            assert(a[0] == '"');
            assert(b[0] == '\'');
            assert(d[0] == '"');
            assert(e[0] == '\'');
            assert(f =~= tail);
            assert(tui::unescaped(Quote::Single, word) == tui::unescaped(Quote::Unquoted, a));
            assert(tui::unescaped(Quote::Unquoted, a) == tui::unescaped(Quote::Double, b));
            assert(tui::unescaped(Quote::Double, b) == seq!['\''] + tui::unescaped(
                Quote::Double,
                d,
            ));
            assert(tui::unescaped(Quote::Double, d) == tui::unescaped(Quote::Unquoted, e));
            assert(tui::unescaped(Quote::Unquoted, e) == tui::unescaped(Quote::Single, f));
        } else {
            assert(word =~= seq![path[0]] + tail);
            assert(word[0] == path[0]);
            assert(word.skip(1) =~= tail);
            assert(tui::unescaped(Quote::Single, word) == seq![path[0]] + tui::unescaped(
                Quote::Single,
                tail,
            ));
        }
        assert(seq![path[0]] + rest =~= path);
    }
}

/// Whatever a path holds, its quoted form is one shell word that stands for
/// it.
pub proof fn law_quoted_paths_come_back(path: Seq<char>)
    ensures
        tui::unescaped(Quote::Unquoted, shell_quoted(path)) == path,
{
    reveal_strlit("'");
    reveal_strlit("'\"'\"'");
    let by = seq!['\'', '"', '\'', '"', '\''];
    assert("'"@ =~= seq!['\'']);
    assert("'\"'\"'"@ =~= by);
    let word = shell_quoted(path);
    assert(word[0] == '\'');
    assert(word.skip(1) =~= text::replace(path, '\'', by) + seq!['\'']);
    lemma_quoted_word(path);
}

/// What a text between single quotes stands for where two quotes stand for one
/// and one quote would be the end.
pub open spec fn undoubled(s: Seq<char>) -> Option<Seq<char>>
    decreases s.len(),
{
    if s.len() == 0 {
        Some(seq![])
    } else if s[0] != '\'' {
        match undoubled(s.skip(1)) {
            Some(rest) => Some(seq![s[0]] + rest),
            None => None,
        }
    } else if s.len() >= 2 && s[1] == '\'' {
        match undoubled(s.skip(2)) {
            Some(rest) => Some(seq!['\''] + rest),
            None => None,
        }
    } else {
        None
    }
}

/// Whatever a path holds, no apostrophe in it ends the quoted text that it
/// stands in.
pub proof fn law_apostrophes_are_doubled(path: Seq<char>)
    ensures
        undoubled(powershell_quoted(path)) == Some(path),
    decreases path.len(),
{
    reveal_strlit("''");
    let by = "''"@;
    assert(by =~= seq!['\'', '\'']);
    let quoted = powershell_quoted(path);
    if path.len() == 0 {
        assert(quoted =~= Seq::<char>::empty());
        assert(undoubled(quoted)->0 =~= path);
    } else {
        let rest = path.skip(1);
        lemma_replace_first(path, '\'', by);
        law_apostrophes_are_doubled(rest);
        if path[0] == '\'' {
            assert(quoted[0] == '\'' && quoted[1] == '\'');
            assert(quoted.skip(2) =~= powershell_quoted(rest));
        } else {
            assert(quoted[0] == path[0]);
            assert(quoted.skip(1) =~= powershell_quoted(rest));
        }
        assert(seq![path[0]] + rest =~= path);
    }
}

// ---------------------------------------------------------------------------
// Scripts
// ---------------------------------------------------------------------------
/// The PowerShell script that updates the program in `directory` once the
/// process `pid` has ended.
pub open spec fn windows_text(
    pid: u32,
    directory: Seq<char>,
    helper: Seq<char>,
    installer: Seq<char>,
) -> Seq<char> {
    "$ErrorActionPreference = \"Stop\"\n$InstallerPath = '"@ + powershell_quoted(installer)
        + "'\ntry {\n    Wait-Process -Id "@ + text::decimal(pid as nat)
        + " -ErrorAction SilentlyContinue\n    $env:AIRWIRE_REPOSITORY = \""@ + REPOSITORY@
        + "\"\n    $env:AIRWIRE_VERSION = \"latest\"\n    $env:AIRWIRE_INSTALL_DIR = '"@
        + powershell_quoted(directory)
        + "'\n    Remove-Item Env:AIRWIRE_DOWNLOAD_BASE -ErrorAction SilentlyContinue\n    Invoke-WebRequest -Uri \""@
        + INSTALLER_BASE@
        + "/install.ps1\" -OutFile $InstallerPath\n    & $InstallerPath\n    Write-Host \"Airwire update complete.\"\n} catch {\n    Write-Error $_\n} finally {\n    Remove-Item -LiteralPath $InstallerPath -Force -ErrorAction SilentlyContinue\n    Remove-Item -LiteralPath '"@
        + powershell_quoted(helper) + "' -Force -ErrorAction SilentlyContinue\n}\n"@
}

/// The PowerShell script that updates the program in `install_directory` once
/// the process `parent_pid` has ended.
pub fn windows_script(
    parent_pid: u32,
    install_directory: &str,
    helper: &str,
    installer: &str,
) -> (r: String)
    ensures
        r@ == windows_text(parent_pid, install_directory@, helper@, installer@),
{
    let mut out = "$ErrorActionPreference = \"Stop\"\n$InstallerPath = '".to_owned();
    out.append(powershell_quote(installer).as_str());
    out.append("'\ntry {\n    Wait-Process -Id ");
    out.append(decimal_text(parent_pid as u64).as_str());
    out.append(" -ErrorAction SilentlyContinue\n    $env:AIRWIRE_REPOSITORY = \"");
    out.append(REPOSITORY);
    out.append("\"\n    $env:AIRWIRE_VERSION = \"latest\"\n    $env:AIRWIRE_INSTALL_DIR = '");
    out.append(powershell_quote(install_directory).as_str());
    out.append(
        "'\n    Remove-Item Env:AIRWIRE_DOWNLOAD_BASE -ErrorAction SilentlyContinue\n    Invoke-WebRequest -Uri \"",
    );
    out.append(INSTALLER_BASE);
    out.append(
        "/install.ps1\" -OutFile $InstallerPath\n    & $InstallerPath\n    Write-Host \"Airwire update complete.\"\n} catch {\n    Write-Error $_\n} finally {\n    Remove-Item -LiteralPath $InstallerPath -Force -ErrorAction SilentlyContinue\n    Remove-Item -LiteralPath '",
    );
    out.append(powershell_quote(helper).as_str());
    out.append("' -Force -ErrorAction SilentlyContinue\n}\n");
    out
}

/// The shell script that updates the program in `directory` once the process
/// `pid` has ended.
pub open spec fn unix_text(
    pid: u32,
    directory: Seq<char>,
    helper: Seq<char>,
    installer: Seq<char>,
) -> Seq<char> {
    "#!/bin/sh\nset -eu\nwhile kill -0 "@ + text::decimal(pid as nat)
        + " 2>/dev/null; do\n    sleep 1\ndone\nhelper="@ + shell_quoted(helper) + "\ninstaller="@
        + shell_quoted(installer)
        + "\ntrap 'rm -f \"$installer\" \"$helper\"' EXIT HUP INT TERM\nif command -v curl >/dev/null 2>&1; then\n    curl --fail --location --silent --show-error \""@
        + INSTALLER_BASE@
        + "/install.sh\" --output \"$installer\"\nelif command -v wget >/dev/null 2>&1; then\n    wget --quiet \""@
        + INSTALLER_BASE@
        + "/install.sh\" --output-document=\"$installer\"\nelse\n    printf 'airwire updater: curl or wget is required\\n' >&2\n    exit 1\nfi\nunset AIRWIRE_DOWNLOAD_BASE\nAIRWIRE_REPOSITORY=\""@
        + REPOSITORY@ + "\" AIRWIRE_VERSION=\"latest\" AIRWIRE_INSTALL_DIR="@ + shell_quoted(
        directory,
    )
        + " AIRWIRE_NO_PATH_UPDATE=\"1\" /bin/sh \"$installer\"\nprintf 'Airwire update complete.\\n'\n"@
}

/// The shell script that updates the program in `install_directory` once the
/// process `parent_pid` has ended.
pub fn unix_script(
    parent_pid: u32,
    install_directory: &str,
    helper: &str,
    installer: &str,
) -> (r: String)
    ensures
        r@ == unix_text(parent_pid, install_directory@, helper@, installer@),
{
    let mut out = "#!/bin/sh\nset -eu\nwhile kill -0 ".to_owned();
    out.append(decimal_text(parent_pid as u64).as_str());
    out.append(" 2>/dev/null; do\n    sleep 1\ndone\nhelper=");
    out.append(shell_quote(helper).as_str());
    out.append("\ninstaller=");
    out.append(shell_quote(installer).as_str());
    out.append(
        "\ntrap 'rm -f \"$installer\" \"$helper\"' EXIT HUP INT TERM\nif command -v curl >/dev/null 2>&1; then\n    curl --fail --location --silent --show-error \"",
    );
    out.append(INSTALLER_BASE);
    out.append(
        "/install.sh\" --output \"$installer\"\nelif command -v wget >/dev/null 2>&1; then\n    wget --quiet \"",
    );
    out.append(INSTALLER_BASE);
    out.append(
        "/install.sh\" --output-document=\"$installer\"\nelse\n    printf 'airwire updater: curl or wget is required\\n' >&2\n    exit 1\nfi\nunset AIRWIRE_DOWNLOAD_BASE\nAIRWIRE_REPOSITORY=\"",
    );
    out.append(REPOSITORY);
    out.append("\" AIRWIRE_VERSION=\"latest\" AIRWIRE_INSTALL_DIR=");
    out.append(shell_quote(install_directory).as_str());
    out.append(
        " AIRWIRE_NO_PATH_UPDATE=\"1\" /bin/sh \"$installer\"\nprintf 'Airwire update complete.\\n'\n",
    );
    out
}

// ---------------------------------------------------------------------------
// Laws
// ---------------------------------------------------------------------------
/// What stands in the middle of a text is in it.
proof fn lemma_holds(before: Seq<char>, middle: Seq<char>, after: Seq<char>)
    ensures
        text::contains(before + middle + after, middle),
{
    let s = before + middle + after;
    let i = before.len() as int;
    assert(s.subrange(i, i + middle.len()) =~= middle);
    assert(text::occurs_at(s, middle, i));
    text::lemma_find_from(s, middle, 0);
}

/// The files of an update are named after the process and the number that was
/// drawn, and the script and the installer are told apart.
pub proof fn law_helper_files_are_named_after_the_process(
    pid: u32,
    number: u64,
    extension: Seq<char>,
)
    ensures
        helper_names(pid, number, extension).0 == "airwire-update-"@ + text::decimal(pid as nat)
            + "-"@ + text::decimal(number as nat) + "."@ + extension,
        helper_names(pid, number, extension).1 == "airwire-update-"@ + text::decimal(pid as nat)
            + "-"@ + text::decimal(number as nat) + ".installer."@ + extension,
        helper_names(pid, number, extension).0 != helper_names(pid, number, extension).1,
{
    reveal_strlit(".");
    reveal_strlit(".installer.");
    let (a, b) = helper_names(pid, number, extension);
    assert(b.len() == a.len() + 10);
}

/// Updates come from where releases are published.
pub proof fn law_updates_come_from_the_repository()
    ensures
        REPOSITORY@ == "H34TB145T/airwire"@,
        INSTALLER_BASE@ == "https://raw.githubusercontent.com/H34TB145T/airwire/main"@,
{
}

/// The script for Windows waits for the process to end, installs the latest
/// release into the folder that it was given, fetches the installer into the file
/// that it was given, and removes its own file in the end.
pub proof fn law_the_windows_script_updates(
    pid: u32,
    directory: Seq<char>,
    helper: Seq<char>,
    installer: Seq<char>,
)
    ensures
        ({
            let script = windows_text(pid, directory, helper, installer);
            &&& text::contains(
                script,
                "$ErrorActionPreference = \"Stop\"\n$InstallerPath = '"@ + powershell_quoted(
                    installer,
                ) + "'\ntry {\n    Wait-Process -Id "@ + text::decimal(pid as nat)
                    + " -ErrorAction SilentlyContinue\n    $env:AIRWIRE_REPOSITORY = \""@
                    + "H34TB145T/airwire"@,
            )
            &&& text::contains(
                script,
                "\"\n    $env:AIRWIRE_VERSION = \"latest\"\n    $env:AIRWIRE_INSTALL_DIR = '"@
                    + powershell_quoted(directory)
                    + "'\n    Remove-Item Env:AIRWIRE_DOWNLOAD_BASE -ErrorAction SilentlyContinue\n    Invoke-WebRequest -Uri \""@
                    + "https://raw.githubusercontent.com/H34TB145T/airwire/main"@,
            )
            &&& text::contains(
                script,
                "https://raw.githubusercontent.com/H34TB145T/airwire/main"@
                    + "/install.ps1\" -OutFile $InstallerPath\n    & $InstallerPath\n    Write-Host \"Airwire update complete.\"\n} catch {\n    Write-Error $_\n} finally {\n    Remove-Item -LiteralPath $InstallerPath -Force -ErrorAction SilentlyContinue\n    Remove-Item -LiteralPath '"@
                    + powershell_quoted(helper) + "' -Force -ErrorAction SilentlyContinue\n}\n"@,
            )
        }),
{
    let script = windows_text(pid, directory, helper, installer);
    let none = Seq::<char>::empty();
    let base = "https://raw.githubusercontent.com/H34TB145T/airwire/main"@;
    let a = "$ErrorActionPreference = \"Stop\"\n$InstallerPath = '"@ + powershell_quoted(installer)
        + "'\ntry {\n    Wait-Process -Id "@ + text::decimal(pid as nat)
        + " -ErrorAction SilentlyContinue\n    $env:AIRWIRE_REPOSITORY = \""@
        + "H34TB145T/airwire"@;
    let b = "\"\n    $env:AIRWIRE_VERSION = \"latest\"\n    $env:AIRWIRE_INSTALL_DIR = '"@
        + powershell_quoted(directory)
        + "'\n    Remove-Item Env:AIRWIRE_DOWNLOAD_BASE -ErrorAction SilentlyContinue\n    Invoke-WebRequest -Uri \""@
        + base;
    let tail =
        "/install.ps1\" -OutFile $InstallerPath\n    & $InstallerPath\n    Write-Host \"Airwire update complete.\"\n} catch {\n    Write-Error $_\n} finally {\n    Remove-Item -LiteralPath $InstallerPath -Force -ErrorAction SilentlyContinue\n    Remove-Item -LiteralPath '"@
        + powershell_quoted(helper) + "' -Force -ErrorAction SilentlyContinue\n}\n"@;
    let lead = b.take(b.len() - base.len());
    assert(lead + base =~= b);
    assert(script =~= a + b + tail);
    assert(script =~= none + a + (b + tail));
    assert(script =~= (a + lead) + (base + tail) + none);
    lemma_holds(none, a, b + tail);
    lemma_holds(a, b, tail);
    lemma_holds(a + lead, base + tail, none);
    assert(base + tail =~= base
        + "/install.ps1\" -OutFile $InstallerPath\n    & $InstallerPath\n    Write-Host \"Airwire update complete.\"\n} catch {\n    Write-Error $_\n} finally {\n    Remove-Item -LiteralPath $InstallerPath -Force -ErrorAction SilentlyContinue\n    Remove-Item -LiteralPath '"@
        + powershell_quoted(helper) + "' -Force -ErrorAction SilentlyContinue\n}\n"@);
}

/// The script for Unix waits for the process to end, knows the two files that it
/// was given, and installs the latest release into the folder that it was given.
pub proof fn law_the_unix_script_updates(
    pid: u32,
    directory: Seq<char>,
    helper: Seq<char>,
    installer: Seq<char>,
)
    ensures
        ({
            let script = unix_text(pid, directory, helper, installer);
            &&& text::contains(
                script,
                "#!/bin/sh\nset -eu\nwhile kill -0 "@ + text::decimal(pid as nat)
                    + " 2>/dev/null; do\n    sleep 1\ndone\nhelper="@ + shell_quoted(helper)
                    + "\ninstaller="@ + shell_quoted(installer)
                    + "\ntrap 'rm -f \"$installer\" \"$helper\"' EXIT HUP INT TERM\nif command -v curl >/dev/null 2>&1; then\n    curl --fail --location --silent --show-error \""@
                    + "https://raw.githubusercontent.com/H34TB145T/airwire/main"@,
            )
            &&& text::contains(
                script,
                "/install.sh\" --output \"$installer\"\nelif command -v wget >/dev/null 2>&1; then\n    wget --quiet \""@
                    + "https://raw.githubusercontent.com/H34TB145T/airwire/main"@
                    + "/install.sh\" --output-document=\"$installer\"\nelse\n    printf 'airwire updater: curl or wget is required\\n' >&2\n    exit 1\nfi\nunset AIRWIRE_DOWNLOAD_BASE\nAIRWIRE_REPOSITORY=\""@
                    + "H34TB145T/airwire"@,
            )
            &&& text::contains(
                script,
                "\" AIRWIRE_VERSION=\"latest\" AIRWIRE_INSTALL_DIR="@ + shell_quoted(directory)
                    + " AIRWIRE_NO_PATH_UPDATE=\"1\" /bin/sh \"$installer\"\nprintf 'Airwire update complete.\\n'\n"@,
            )
        }),
{
    let script = unix_text(pid, directory, helper, installer);
    let none = Seq::<char>::empty();
    let a = "#!/bin/sh\nset -eu\nwhile kill -0 "@ + text::decimal(pid as nat)
        + " 2>/dev/null; do\n    sleep 1\ndone\nhelper="@ + shell_quoted(helper) + "\ninstaller="@
        + shell_quoted(installer)
        + "\ntrap 'rm -f \"$installer\" \"$helper\"' EXIT HUP INT TERM\nif command -v curl >/dev/null 2>&1; then\n    curl --fail --location --silent --show-error \""@
        + "https://raw.githubusercontent.com/H34TB145T/airwire/main"@;
    let b =
        "/install.sh\" --output \"$installer\"\nelif command -v wget >/dev/null 2>&1; then\n    wget --quiet \""@
        + "https://raw.githubusercontent.com/H34TB145T/airwire/main"@
        + "/install.sh\" --output-document=\"$installer\"\nelse\n    printf 'airwire updater: curl or wget is required\\n' >&2\n    exit 1\nfi\nunset AIRWIRE_DOWNLOAD_BASE\nAIRWIRE_REPOSITORY=\""@
        + "H34TB145T/airwire"@;
    let c = "\" AIRWIRE_VERSION=\"latest\" AIRWIRE_INSTALL_DIR="@ + shell_quoted(directory)
        + " AIRWIRE_NO_PATH_UPDATE=\"1\" /bin/sh \"$installer\"\nprintf 'Airwire update complete.\\n'\n"@;
    assert(script =~= a + b + c);
    assert(script =~= none + a + (b + c));
    assert(script =~= (a + b) + c + none);
    lemma_holds(none, a, b + c);
    lemma_holds(a, b, c);
    lemma_holds(a + b, c, none);
}

/// Whatever number is drawn, the files of an update are named after the process
/// and it, and the installer is named after the script.
pub proof fn law_helper_files_belong_together(pid: u32, extension: Seq<char>, files: HelperFiles)
    requires
        are_helper_files(pid, extension, files),
    ensures
        exists|number: u64|
            files.helper@ == "airwire-update-"@ + text::decimal(pid as nat) + "-"@
                + #[trigger] text::decimal(number as nat) + "."@ + extension && files.installer@
                == "airwire-update-"@ + text::decimal(pid as nat) + "-"@ + text::decimal(
                number as nat,
            ) + ".installer."@ + extension,
{
    let number = choose|number: u64|
        (files.helper@, files.installer@) == #[trigger] helper_names(pid, number, extension);
    assert(files.helper@ == "airwire-update-"@ + text::decimal(pid as nat) + "-"@ + text::decimal(
        number as nat,
    ) + "."@ + extension);
}

} // verus!

//! Where a Tor executable is looked for, and how one is installed when there
//! is none.

use vstd::prelude::*;

use crate::names;
use crate::names::split_extension;
use crate::paths;
use crate::paths::{LocalPath, PathView};
use crate::text::chars_of;

verus! {

broadcast use vstd::seq_lib::group_seq_properties;

/// The systems that differ in where programs are found.
#[derive(Clone, Copy, Debug, PartialEq, Eq, Structural)]
pub enum Platform {
    MacOs,
    Linux,
    OtherUnix,
    Windows,
    Other,
}

/// The ghost counterpart of a list of strings.
pub open spec fn texts_view(texts: Seq<String>) -> Seq<Seq<char>> {
    texts.map_values(|text: String| text@)
}

/// One string more.
fn add_text(texts: &mut Vec<String>, text: &str)
    ensures
        texts_view(final(texts)@) == texts_view(old(texts)@).push(text@),
{
    texts.push(text.to_owned());
    assert(texts_view(texts@) =~= texts_view(old(texts)@).push(text@));
}

/// No strings.
fn no_texts() -> (r: Vec<String>)
    ensures
        texts_view(r@) == Seq::<Seq<char>>::empty(),
{
    let r: Vec<String> = Vec::new();
    assert(texts_view(r@) =~= Seq::<Seq<char>>::empty());
    r
}

// ---------------------------------------------------------------------------
// Where programs are found
// ---------------------------------------------------------------------------
/// The file names under which the program `name` is looked for in a directory,
/// in order.
pub open spec fn program_files(platform: Platform, name: Seq<char>) -> Seq<Seq<char>> {
    if platform == Platform::Windows && names::extension(name) is None {
        seq![name + ".exe"@, name]
    } else {
        seq![name]
    }
}

/// The file names under which the program `name` is looked for in a directory,
/// in order.
pub fn executable_names(platform: Platform, name: &str) -> (r: Vec<String>)
    ensures
        texts_view(r@) == program_files(platform, name@),
{
    let mut out = no_texts();
    let windows = match platform {
        Platform::Windows => true,
        _ => false,
    };
    if windows && split_extension(name).1.is_none() {
        let mut with_extension = name.to_owned();
        with_extension.append(".exe");
        add_text(&mut out, with_extension.as_str());
    }
    add_text(&mut out, name);
    assert(texts_view(out@) =~= program_files(platform, name@));
    out
}

/// The ghost counterpart of a list of paths.
pub open spec fn paths_view(list: Seq<LocalPath>) -> Seq<PathView> {
    list.map_values(|path: LocalPath| path@)
}

/// One path more, which is written as `text`.
fn add_path(list: &mut Vec<LocalPath>, text: &str)
    ensures
        paths_view(final(list)@) == paths_view(old(list)@).push(paths::text_path(text@)),
{
    list.push(LocalPath::of_text(text.to_owned()));
    assert(paths_view(list@) =~= paths_view(old(list)@).push(paths::text_path(text@)));
}

/// The folders of a Windows user, as far as they are known.
pub struct WindowsFolders {
    pub local_app_data: Option<LocalPath>,
    pub program_files: Option<LocalPath>,
    pub program_files_x86: Option<LocalPath>,
    pub user_profile: Option<LocalPath>,
}

/// `rest` in the folder `folder`, if the folder is known.
pub open spec fn in_folder(folder: Option<LocalPath>, rest: Seq<char>) -> Seq<PathView> {
    match folder {
        Some(folder) => seq![paths::inside(folder@, rest, true)],
        None => seq![],
    }
}

/// Where Tor Browser keeps its Tor.
pub open spec fn browser_tor() -> Seq<char> {
    "Tor Browser\\Browser\\TorBrowser\\Tor\\tor.exe"@
}

/// Where Tor is often found, in the order in which it is looked for.
pub open spec fn common_places(platform: Platform, folders: WindowsFolders) -> Seq<PathView> {
    match platform {
        Platform::MacOs => seq![
            paths::text_path("/opt/homebrew/bin/tor"@),
            paths::text_path("/usr/local/bin/tor"@),
            paths::text_path("/opt/local/bin/tor"@),
            paths::text_path("/usr/bin/tor"@),
            paths::text_path("/usr/local/bin/tor"@),
        ],
        Platform::Linux | Platform::OtherUnix => seq![paths::text_path("/usr/bin/tor"@), paths::text_path("/usr/local/bin/tor"@)],
        Platform::Windows => in_folder(
            folders.local_app_data,
            "Airwire\\tor-expert\\tor\\tor.exe"@,
        ) + in_folder(folders.local_app_data, browser_tor()) + in_folder(
            folders.program_files,
            browser_tor(),
        ) + in_folder(folders.program_files_x86, browser_tor()) + in_folder(
            folders.user_profile,
            "Desktop\\"@ + browser_tor(),
        ) + in_folder(folders.user_profile, "Downloads\\"@ + browser_tor()),
        Platform::Other => seq![],
    }
}

/// Adds `rest` in the folder `folder`, if the folder is known.
fn add_in_folder(out: &mut Vec<LocalPath>, folder: &Option<LocalPath>, rest: &str)
    ensures
        paths_view(final(out)@) == paths_view(old(out)@) + in_folder(*folder, rest@),
{
    match folder {
        Some(folder) => {
            out.push(folder.child(rest, true));
        },
        None => {},
    }
    assert(paths_view(out@) =~= paths_view(old(out)@) + in_folder(*folder, rest@));
}

/// `rest` below the directory `directory`.
fn below(directory: &str, rest: &str) -> (r: String)
    ensures
        r@ == directory@ + rest@,
{
    let mut out = directory.to_owned();
    out.append(rest);
    out
}

/// Where Tor is often found, in the order in which it is looked for.
pub fn common_tor_candidates(platform: Platform, folders: &WindowsFolders) -> (r: Vec<LocalPath>)
    ensures
        paths_view(r@) == common_places(platform, *folders),
{
    let mut out: Vec<LocalPath> = Vec::new();
    assert(paths_view(out@) =~= Seq::<PathView>::empty());
    match platform {
        Platform::MacOs => {
            add_path(&mut out, "/opt/homebrew/bin/tor");
            add_path(&mut out, "/usr/local/bin/tor");
            add_path(&mut out, "/opt/local/bin/tor");
            add_path(&mut out, "/usr/bin/tor");
            add_path(&mut out, "/usr/local/bin/tor");
        },
        Platform::Linux | Platform::OtherUnix => {
            add_path(&mut out, "/usr/bin/tor");
            add_path(&mut out, "/usr/local/bin/tor");
        },
        Platform::Windows => {
            let browser = "Tor Browser\\Browser\\TorBrowser\\Tor\\tor.exe";
            add_in_folder(&mut out, &folders.local_app_data, "Airwire\\tor-expert\\tor\\tor.exe");
            add_in_folder(&mut out, &folders.local_app_data, browser);
            add_in_folder(&mut out, &folders.program_files, browser);
            add_in_folder(&mut out, &folders.program_files_x86, browser);
            add_in_folder(
                &mut out,
                &folders.user_profile,
                below("Desktop\\", browser).as_str(),
            );
            add_in_folder(
                &mut out,
                &folders.user_profile,
                below("Downloads\\", browser).as_str(),
            );
        },
        Platform::Other => {},
    }
    assert(paths_view(out@) =~= common_places(platform, *folders));
    out
}

// ---------------------------------------------------------------------------
// Installers
// ---------------------------------------------------------------------------
/// A package manager that can install Tor.
#[derive(Clone, Copy, Debug, PartialEq, Eq, Structural)]
pub enum Manager {
    Brew,
    AptGet,
    Dnf,
    Pacman,
    Zypper,
    Apk,
}

/// The package managers that are looked for, in order.
pub open spec fn managers(platform: Platform) -> Seq<Manager> {
    match platform {
        Platform::MacOs => seq![Manager::Brew],
        Platform::Linux => seq![
            Manager::AptGet,
            Manager::Dnf,
            Manager::Pacman,
            Manager::Zypper,
            Manager::Apk,
        ],
        _ => seq![],
    }
}

/// The package managers that are looked for, in order.
pub fn platform_managers(platform: Platform) -> (r: Vec<Manager>)
    ensures
        r@ == managers(platform),
{
    let mut out: Vec<Manager> = Vec::new();
    match platform {
        Platform::MacOs => {
            out.push(Manager::Brew);
        },
        Platform::Linux => {
            out.push(Manager::AptGet);
            out.push(Manager::Dnf);
            out.push(Manager::Pacman);
            out.push(Manager::Zypper);
            out.push(Manager::Apk);
        },
        _ => {},
    }
    assert(out@ =~= managers(platform));
    out
}

impl Manager {
    /// The name of the program.
    pub open spec fn name(self) -> Seq<char> {
        match self {
            Manager::Brew => "brew"@,
            Manager::AptGet => "apt-get"@,
            Manager::Dnf => "dnf"@,
            Manager::Pacman => "pacman"@,
            Manager::Zypper => "zypper"@,
            Manager::Apk => "apk"@,
        }
    }

    /// The arguments that make the program install Tor.
    pub open spec fn arguments(self) -> Seq<Seq<char>> {
        match self {
            Manager::Brew => seq!["install"@, "tor"@],
            Manager::AptGet => seq!["install"@, "--yes"@, "tor"@],
            Manager::Dnf => seq!["install"@, "--assumeyes"@, "tor"@],
            Manager::Pacman => seq!["--sync"@, "--needed"@, "--noconfirm"@, "tor"@],
            Manager::Zypper => seq!["--non-interactive"@, "install"@, "tor"@],
            Manager::Apk => seq!["add"@, "tor"@],
        }
    }

    /// Whether the program has to be run with more rights.
    pub open spec fn wants_sudo(self) -> bool {
        self != Manager::Brew
    }

    /// The name of the program.
    pub fn program(&self) -> (r: &'static str)
        ensures
            r@ == self.name(),
    {
        match self {
            Manager::Brew => "brew",
            Manager::AptGet => "apt-get",
            Manager::Dnf => "dnf",
            Manager::Pacman => "pacman",
            Manager::Zypper => "zypper",
            Manager::Apk => "apk",
        }
    }
}

/// How Tor is installed.
#[derive(Debug)]
pub struct Installer {
    /// The package manager is run through `sudo`.
    pub with_sudo: bool,
    /// The arguments of the package manager.
    pub arguments: Vec<String>,
    /// How the command is shown.
    pub label: String,
}

/// Words with spaces between them.
pub open spec fn join_words(words: Seq<Seq<char>>) -> Seq<char>
    decreases words.len(),
{
    if words.len() == 0 {
        seq![]
    } else if words.len() == 1 {
        words[0]
    } else {
        join_words(words.drop_last()) + " "@ + words.last()
    }
}

/// How the command that installs Tor is shown.
pub open spec fn install_label(manager: Manager, with_sudo: bool) -> Seq<char> {
    let command = manager.name() + " "@ + join_words(manager.arguments());
    if with_sudo {
        "sudo "@ + command
    } else {
        command
    }
}

/// How Tor is installed with the package manager `manager`; `sudo` tells
/// whether there is a `sudo`.
pub fn installer(manager: &Manager, sudo: bool) -> (r: Installer)
    ensures
        r.with_sudo == (sudo && manager.wants_sudo()),
        texts_view(r.arguments@) == manager.arguments(),
        r.label@ == install_label(*manager, sudo && manager.wants_sudo()),
{
    let mut arguments = no_texts();
    match manager {
        Manager::Brew => {
            add_text(&mut arguments, "install");
            add_text(&mut arguments, "tor");
        },
        Manager::AptGet => {
            add_text(&mut arguments, "install");
            add_text(&mut arguments, "--yes");
            add_text(&mut arguments, "tor");
        },
        Manager::Dnf => {
            add_text(&mut arguments, "install");
            add_text(&mut arguments, "--assumeyes");
            add_text(&mut arguments, "tor");
        },
        Manager::Pacman => {
            add_text(&mut arguments, "--sync");
            add_text(&mut arguments, "--needed");
            add_text(&mut arguments, "--noconfirm");
            add_text(&mut arguments, "tor");
        },
        Manager::Zypper => {
            add_text(&mut arguments, "--non-interactive");
            add_text(&mut arguments, "install");
            add_text(&mut arguments, "tor");
        },
        Manager::Apk => {
            add_text(&mut arguments, "add");
            add_text(&mut arguments, "tor");
        },
    }
    assert(texts_view(arguments@) =~= manager.arguments());
    let with_sudo = sudo && match manager {
        Manager::Brew => false,
        _ => true,
    };
    let mut label = if with_sudo {
        "sudo ".to_owned()
    } else {
        String::new()
    };
    let ghost lead = label@;
    label.append(manager.program());
    label.append(" ");
    label.append(words_text(&arguments).as_str());
    proof {
        let command = manager.name() + " "@ + join_words(manager.arguments());
        assert(label@ =~= lead + command);
        if !with_sudo {
            assert(lead + command =~= command);
        }
    }
    Installer { with_sudo, arguments, label }
}

/// Words with spaces between them.
fn words_text(words: &Vec<String>) -> (r: String)
    ensures
        r@ == join_words(texts_view(words@)),
{
    let ghost texts = texts_view(words@);
    if words.len() == 0 {
        let r = String::new();
        assert(r@ =~= join_words(texts));
        return r;
    }
    let mut out = words[0].as_str().to_owned();
    let mut i: usize = 1;
    assert(texts.take(1) =~= seq![texts[0]]);
    while i < words.len()
        invariant
            1 <= i <= words@.len(),
            texts == texts_view(words@),
            out@ == join_words(texts.take(i as int)),
        decreases words@.len() - i,
    {
        assert(texts.take(i + 1).drop_last() =~= texts.take(i as int));
        assert(texts.take(i + 1).last() == texts[i as int]);
        out.append(" ");
        out.append(words[i].as_str());
        i += 1;
    }
    assert(texts.take(texts.len() as int) =~= texts);
    out
}

/// The question whether Tor is to be installed.
pub fn install_question(label: &str) -> (r: String)
    ensures
        r@ == "Install it now with `"@ + label@ + "`? [Y/n] "@,
{
    let mut out = "Install it now with `".to_owned();
    out.append(label);
    out.append("`? [Y/n] ");
    out
}

/// The ASCII lower-case form of `c`.
pub open spec fn lower(c: char) -> char {
    if 'A' <= c <= 'Z' {
        (c as u32 + 32) as char
    } else {
        c
    }
}

/// Whether an answer means yes: it is empty, or a `y` or `yes` in any case.
pub open spec fn means_yes(answer: Seq<char>) -> bool {
    let folded = answer.map_values(|c: char| lower(c));
    answer.len() == 0 || folded == seq!['y'] || folded == seq!['y', 'e', 's']
}

/// Whether an answer means yes: it is empty, or a `y` or `yes` in any case.
pub fn confirm(answer: &str) -> (r: bool)
    ensures
        r == means_yes(answer@),
{
    let chars = chars_of(answer);
    let ghost folded = answer@.map_values(|c: char| lower(c));
    if chars.len() == 0 {
        true
    } else if chars.len() == 1 {
        let r = chars[0] == 'y' || chars[0] == 'Y';
        proof {
            if r {
                assert(folded =~= seq!['y']);
            } else if folded == seq!['y'] {
                assert(folded[0] == 'y');
            }
            assert(folded.len() != 3);
        }
        r
    } else if chars.len() == 3 {
        let r = (chars[0] == 'y' || chars[0] == 'Y') && (chars[1] == 'e' || chars[1] == 'E') && (
        chars[2] == 's' || chars[2] == 'S');
        proof {
            if r {
                assert(folded =~= seq!['y', 'e', 's']);
            } else if folded == seq!['y', 'e', 's'] {
                assert(folded[0] == 'y' && folded[1] == 'e' && folded[2] == 's');
            }
            assert(folded.len() != 1);
        }
        r
    } else {
        assert(folded.len() != 1 && folded.len() != 3);
        false
    }
}

// ---------------------------------------------------------------------------
// The search for an executable
// ---------------------------------------------------------------------------
/// Where the search for a Tor executable stands: what is to be found out next.
#[derive(Clone, Copy, Debug, PartialEq, Eq, Structural)]
pub enum SetupStage {
    /// Whether the configured executable is there.
    Configured,
    /// Whether Tor is found.
    Discover,
    /// Whether there is someone to ask.
    Terminal,
    /// Whether there is a package manager.
    FindInstaller,
    /// Whether Tor is to be installed.
    AskInstall,
    /// Whether the installation succeeds.
    Install,
    /// Whether Tor is found now.
    DiscoverAgain,
    /// Whether a path is given.
    AskPath,
    /// Whether the executable is there.
    Given,
}

/// Why no Tor executable was found.
#[derive(Clone, Copy, Debug, PartialEq, Eq, Structural)]
pub enum SetupError {
    NotAtConfigured,
    NotInstalled,
    InstallationFailed,
    Cancelled,
    NotAtGiven,
}

impl SetupError {
    /// How the error is reported; `detail` is the path that was tried, or the
    /// status of the installation.
    pub open spec fn text(self, detail: Seq<char>) -> Seq<char> {
        match self {
            SetupError::NotAtConfigured => "Tor executable not found at "@ + detail
                + "; correct --tor-binary or AIRWIRE_TOR_BINARY"@,
            SetupError::NotInstalled =>
                "Tor is not installed or was not found; install Tor or set AIRWIRE_TOR_BINARY"@,
            SetupError::InstallationFailed => "Tor installation failed with status "@ + detail,
            SetupError::Cancelled => "Tor setup cancelled"@,
            SetupError::NotAtGiven => "Tor executable not found at "@ + detail
                + "; set AIRWIRE_TOR_BINARY to its full path"@,
        }
    }

    /// How the error is reported; `detail` is the path that was tried, or the
    /// status of the installation.
    pub fn message(&self, detail: &str) -> (r: String)
        ensures
            r@ == self.text(detail@),
    {
        match self {
            SetupError::NotAtConfigured => {
                let mut out = "Tor executable not found at ".to_owned();
                out.append(detail);
                out.append("; correct --tor-binary or AIRWIRE_TOR_BINARY");
                out
            },
            SetupError::NotInstalled => {
                "Tor is not installed or was not found; install Tor or set AIRWIRE_TOR_BINARY".to_owned()
            },
            SetupError::InstallationFailed => {
                let mut out = "Tor installation failed with status ".to_owned();
                out.append(detail);
                out
            },
            SetupError::Cancelled => "Tor setup cancelled".to_owned(),
            SetupError::NotAtGiven => {
                let mut out = "Tor executable not found at ".to_owned();
                out.append(detail);
                out.append("; set AIRWIRE_TOR_BINARY to its full path");
                out
            },
        }
    }
}

/// What the search comes to.
#[derive(Clone, Copy, Debug, PartialEq, Eq, Structural)]
pub enum SetupStep {
    /// Go on to this stage.
    Next(SetupStage),
    /// What was found last is to be used.
    Found,
    /// There is no Tor.
    Failed(SetupError),
}

/// Where the search begins.
pub fn first_stage(configured: bool) -> (r: SetupStage)
    ensures
        r == if configured {
            SetupStage::Configured
        } else {
            SetupStage::Discover
        },
{
    if configured {
        SetupStage::Configured
    } else {
        SetupStage::Discover
    }
}

/// Where the search goes from `stage` when the answer is yes.
pub open spec fn stage_on_yes(stage: SetupStage) -> SetupStep {
    match stage {
        SetupStage::Configured | SetupStage::Discover | SetupStage::DiscoverAgain
        | SetupStage::Given => SetupStep::Found,
        SetupStage::Terminal => SetupStep::Next(SetupStage::FindInstaller),
        SetupStage::FindInstaller => SetupStep::Next(SetupStage::AskInstall),
        SetupStage::AskInstall => SetupStep::Next(SetupStage::Install),
        SetupStage::Install => SetupStep::Next(SetupStage::DiscoverAgain),
        SetupStage::AskPath => SetupStep::Next(SetupStage::Given),
    }
}

/// Where the search goes from `stage` when the answer is no.
pub open spec fn stage_on_no(stage: SetupStage) -> SetupStep {
    match stage {
        SetupStage::Configured => SetupStep::Failed(SetupError::NotAtConfigured),
        SetupStage::Discover => SetupStep::Next(SetupStage::Terminal),
        SetupStage::Terminal => SetupStep::Failed(SetupError::NotInstalled),
        SetupStage::FindInstaller | SetupStage::AskInstall
        | SetupStage::DiscoverAgain => SetupStep::Next(SetupStage::AskPath),
        SetupStage::Install => SetupStep::Failed(SetupError::InstallationFailed),
        SetupStage::AskPath => SetupStep::Failed(SetupError::Cancelled),
        SetupStage::Given => SetupStep::Failed(SetupError::NotAtGiven),
    }
}

/// Where the search goes from `stage` with this answer.
pub open spec fn stage_after(stage: SetupStage, yes: bool) -> SetupStep {
    if yes {
        stage_on_yes(stage)
    } else {
        stage_on_no(stage)
    }
}

/// Where the search goes from `stage` with this answer.
pub fn next_stage(stage: SetupStage, yes: bool) -> (r: SetupStep)
    ensures
        r == stage_after(stage, yes),
{
    match (stage, yes) {
        (SetupStage::Configured, true) => SetupStep::Found,
        (SetupStage::Configured, false) => SetupStep::Failed(SetupError::NotAtConfigured),
        (SetupStage::Discover, true) => SetupStep::Found,
        (SetupStage::Discover, false) => SetupStep::Next(SetupStage::Terminal),
        (SetupStage::Terminal, true) => SetupStep::Next(SetupStage::FindInstaller),
        (SetupStage::Terminal, false) => SetupStep::Failed(SetupError::NotInstalled),
        (SetupStage::FindInstaller, true) => SetupStep::Next(SetupStage::AskInstall),
        (SetupStage::FindInstaller, false) => SetupStep::Next(SetupStage::AskPath),
        (SetupStage::AskInstall, true) => SetupStep::Next(SetupStage::Install),
        (SetupStage::AskInstall, false) => SetupStep::Next(SetupStage::AskPath),
        (SetupStage::Install, true) => SetupStep::Next(SetupStage::DiscoverAgain),
        (SetupStage::Install, false) => SetupStep::Failed(SetupError::InstallationFailed),
        (SetupStage::DiscoverAgain, true) => SetupStep::Found,
        (SetupStage::DiscoverAgain, false) => SetupStep::Next(SetupStage::AskPath),
        (SetupStage::AskPath, true) => SetupStep::Next(SetupStage::Given),
        (SetupStage::AskPath, false) => SetupStep::Failed(SetupError::Cancelled),
        (SetupStage::Given, true) => SetupStep::Found,
        (SetupStage::Given, false) => SetupStep::Failed(SetupError::NotAtGiven),
    }
}

/// How many stages can still follow.
pub open spec fn stages_left(stage: SetupStage) -> nat {
    match stage {
        SetupStage::Discover => 7,
        SetupStage::Terminal => 6,
        SetupStage::FindInstaller => 5,
        SetupStage::AskInstall => 4,
        SetupStage::Install => 3,
        SetupStage::DiscoverAgain => 2,
        SetupStage::AskPath => 1,
        SetupStage::Configured | SetupStage::Given => 0,
    }
}

/// The search ends, whatever the answers are, and nothing is installed unless
/// someone was asked and said yes.
pub proof fn law_the_search_ends(stage: SetupStage, yes: bool)
    ensures
        stage_after(stage, yes) matches SetupStep::Next(next) ==> stages_left(next) < stages_left(
            stage,
        ),
        stage_after(stage, yes) == SetupStep::Next(SetupStage::Install) ==> stage
            == SetupStage::AskInstall && yes,
{
}

/// An answer means yes if it is empty, or `y` or `yes` in large or small letters,
/// and nothing else does.
pub proof fn law_yes_is_understood(answer: Seq<char>)
    ensures
        means_yes(answer) <==> {
            ||| answer.len() == 0
            ||| answer.len() == 1 && (answer[0] == 'y' || answer[0] == 'Y')
            ||| answer.len() == 3 && (answer[0] == 'y' || answer[0] == 'Y') && (answer[1] == 'e'
                || answer[1] == 'E') && (answer[2] == 's' || answer[2] == 'S')
        },
{
    let folded = answer.map_values(|c: char| lower(c));
    if answer.len() == 1 {
        assert(folded[0] == lower(answer[0]));
        if answer[0] == 'y' || answer[0] == 'Y' {
            assert(folded =~= seq!['y']);
        }
        assert(folded == seq!['y'] ==> folded[0] == 'y');
        assert(folded.len() != 3);
    } else if answer.len() == 3 {
        assert(folded[0] == lower(answer[0]) && folded[1] == lower(answer[1]) && folded[2] == lower(
            answer[2],
        ));
        if (answer[0] == 'y' || answer[0] == 'Y') && (answer[1] == 'e' || answer[1] == 'E') && (
        answer[2] == 's' || answer[2] == 'S') {
            assert(folded =~= seq!['y', 'e', 's']);
        }
        assert(folded == seq!['y', 'e', 's'] ==> folded[0] == 'y' && folded[1] == 'e' && folded[2]
            == 's');
        assert(folded.len() != 1);
    } else {
        assert(folded.len() == answer.len());
    }
}

/// Tor that is there is used: the search ends well exactly when the configured
/// executable, an installed one or the one whose path was given is there. A
/// configured one that is missing is not replaced by another.
pub proof fn law_tor_that_is_there_is_used(stage: SetupStage, yes: bool)
    ensures
        stage_after(stage, yes) == SetupStep::Found <==> yes && (stage == SetupStage::Configured
            || stage == SetupStage::Discover || stage == SetupStage::DiscoverAgain || stage
            == SetupStage::Given),
        stage_after(SetupStage::Configured, false) == SetupStep::Failed(
            SetupError::NotAtConfigured,
        ),
        stage_after(SetupStage::Given, false) == SetupStep::Failed(SetupError::NotAtGiven),
{
}

/// Tor that is missing is offered to be installed, if there is someone to ask and
/// something to install it with, and looked for again afterwards; whoever does
/// not want that, or cannot, is asked for a path.
pub proof fn law_missing_tor_is_offered()
    ensures
        stage_after(SetupStage::Discover, false) == SetupStep::Next(SetupStage::Terminal),
        stage_after(SetupStage::Terminal, true) == SetupStep::Next(SetupStage::FindInstaller),
        stage_after(SetupStage::Terminal, false) == SetupStep::Failed(SetupError::NotInstalled),
        stage_after(SetupStage::FindInstaller, true) == SetupStep::Next(SetupStage::AskInstall),
        stage_after(SetupStage::FindInstaller, false) == SetupStep::Next(SetupStage::AskPath),
        stage_after(SetupStage::AskInstall, true) == SetupStep::Next(SetupStage::Install),
        stage_after(SetupStage::AskInstall, false) == SetupStep::Next(SetupStage::AskPath),
        stage_after(SetupStage::Install, true) == SetupStep::Next(SetupStage::DiscoverAgain),
        stage_after(SetupStage::Install, false) == SetupStep::Failed(
            SetupError::InstallationFailed,
        ),
        stage_after(SetupStage::DiscoverAgain, false) == SetupStep::Next(SetupStage::AskPath),
        stage_after(SetupStage::AskPath, true) == SetupStep::Next(SetupStage::Given),
        stage_after(SetupStage::AskPath, false) == SetupStep::Failed(SetupError::Cancelled),
{
}

/// Every package manager is asked for Tor and for nothing else, under its own
/// name and without further questions; Homebrew alone is never run with more
/// rights. What is shown is what is run.
pub proof fn law_package_managers_install_tor(manager: Manager, with_sudo: bool)
    ensures
        manager.arguments().len() >= 2,
        manager.arguments().last() == "tor"@,
        manager.wants_sudo() <==> manager != Manager::Brew,
        manager.name() == match manager {
            Manager::Brew => "brew"@,
            Manager::AptGet => "apt-get"@,
            Manager::Dnf => "dnf"@,
            Manager::Pacman => "pacman"@,
            Manager::Zypper => "zypper"@,
            Manager::Apk => "apk"@,
        },
        manager == Manager::Brew || manager == Manager::AptGet || manager == Manager::Dnf
            ==> manager.arguments()[0] == "install"@,
        manager == Manager::Brew || manager == Manager::Apk ==> manager.arguments().len() == 2,
        manager == Manager::AptGet ==> manager.arguments().len() == 3 && manager.arguments()[1]
            == "--yes"@,
        manager == Manager::Dnf ==> manager.arguments().len() == 3 && manager.arguments()[1]
            == "--assumeyes"@,
        manager == Manager::Pacman ==> manager.arguments().len() == 4 && manager.arguments()[0]
            == "--sync"@ && manager.arguments()[1] == "--needed"@ && manager.arguments()[2]
            == "--noconfirm"@,
        manager == Manager::Zypper ==> manager.arguments().len() == 3 && manager.arguments()[0]
            == "--non-interactive"@ && manager.arguments()[1] == "install"@,
        manager == Manager::Apk ==> manager.arguments()[0] == "add"@,
        install_label(manager, true) == "sudo "@ + install_label(manager, false),
        install_label(manager, false) == manager.name() + " "@ + join_words(manager.arguments()),
{
}

/// Words are joined by single spaces.
pub proof fn law_words_are_joined(words: Seq<Seq<char>>, word: Seq<char>)
    ensures
        join_words(Seq::empty()).len() == 0,
        join_words(seq![word]) == word,
        words.len() > 0 ==> join_words(words.push(word)) == join_words(words) + " "@ + word,
{
    assert(seq![word][0] == word);
    if words.len() > 0 {
        assert(words.push(word).drop_last() =~= words);
    }
}

/// Homebrew is looked for on macOS, the usual package managers on Linux, and none
/// elsewhere.
pub proof fn law_systems_have_their_package_managers(platform: Platform, manager: Manager)
    ensures
        managers(platform).contains(manager) <==> (platform == Platform::MacOs && manager
            == Manager::Brew) || (platform == Platform::Linux && manager != Manager::Brew),
        managers(Platform::Linux).len() == 5,
        managers(Platform::Linux)[0] == Manager::AptGet && managers(Platform::Linux)[1]
            == Manager::Dnf && managers(Platform::Linux)[2] == Manager::Pacman && managers(
            Platform::Linux,
        )[3] == Manager::Zypper && managers(Platform::Linux)[4] == Manager::Apk,
{
    let linux = managers(Platform::Linux);
    let mac = managers(Platform::MacOs);
    assert(mac[0] == Manager::Brew);
    assert(linux[0] == Manager::AptGet && linux[1] == Manager::Dnf && linux[2] == Manager::Pacman
        && linux[3] == Manager::Zypper && linux[4] == Manager::Apk);
}

/// A program is looked for under its own name, and on Windows first with `.exe`
/// behind it unless it has an extension.
pub proof fn law_programs_are_looked_for_by_name(platform: Platform, name: Seq<char>)
    ensures
        program_files(platform, name).last() == name,
        program_files(platform, name).len() == 2 <==> platform == Platform::Windows
            && names::extension(name) is None,
        program_files(platform, name).len() <= 2,
        program_files(platform, name).len() == 2 ==> program_files(platform, name)[0] == name
            + ".exe"@,
{
}

/// Tor is looked for where systems put it: on Unix systems among the programs,
/// and on Windows in the folders of the user that are known, with Airwire's own
/// copy first.
pub proof fn law_tor_is_looked_for_where_it_is(folders: WindowsFolders)
    ensures
        common_places(Platform::Linux, folders).len() == 2,
        common_places(Platform::Linux, folders)[0] == paths::text_path("/usr/bin/tor"@),
        common_places(Platform::Linux, folders)[1] == paths::text_path("/usr/local/bin/tor"@),
        common_places(Platform::OtherUnix, folders) == common_places(Platform::Linux, folders),
        common_places(Platform::MacOs, folders).len() == 5,
        common_places(Platform::MacOs, folders)[0] == paths::text_path("/opt/homebrew/bin/tor"@),
        common_places(Platform::MacOs, folders)[1] == paths::text_path("/usr/local/bin/tor"@),
        common_places(Platform::MacOs, folders)[2] == paths::text_path("/opt/local/bin/tor"@),
        common_places(Platform::MacOs, folders)[3] == paths::text_path("/usr/bin/tor"@),
        common_places(Platform::Other, folders).len() == 0,
        folders.local_app_data matches Some(folder) ==> common_places(
            Platform::Windows,
            folders,
        ).len() >= 2 && common_places(Platform::Windows, folders)[0] == paths::inside(
            folder@,
            "Airwire\\tor-expert\\tor\\tor.exe"@,
            true,
        ) && common_places(Platform::Windows, folders)[1] == paths::inside(
            folder@,
            "Tor Browser\\Browser\\TorBrowser\\Tor\\tor.exe"@,
            true,
        ),
        folders.program_files matches Some(folder) ==> common_places(
            Platform::Windows,
            folders,
        ).contains(
            paths::inside(
                folder@,
                "Tor Browser\\Browser\\TorBrowser\\Tor\\tor.exe"@,
                true,
            ),
        ),
        folders.program_files_x86 matches Some(folder) ==> common_places(
            Platform::Windows,
            folders,
        ).contains(
            paths::inside(
                folder@,
                "Tor Browser\\Browser\\TorBrowser\\Tor\\tor.exe"@,
                true,
            ),
        ),
        folders.user_profile matches Some(folder) ==> common_places(
            Platform::Windows,
            folders,
        ).contains(paths::inside(folder@, "Desktop\\"@ + browser_tor(), true)) && common_places(
            Platform::Windows,
            folders,
        ).contains(paths::inside(folder@, "Downloads\\"@ + browser_tor(), true)),
        browser_tor() == "Tor Browser\\Browser\\TorBrowser\\Tor\\tor.exe"@,
{
    let a = in_folder(folders.local_app_data, "Airwire\\tor-expert\\tor\\tor.exe"@);
    let b = in_folder(folders.local_app_data, browser_tor());
    let c = in_folder(folders.program_files, browser_tor());
    let d = in_folder(folders.program_files_x86, browser_tor());
    let e = in_folder(folders.user_profile, "Desktop\\"@ + browser_tor());
    let f = in_folder(folders.user_profile, "Downloads\\"@ + browser_tor());
    let all = common_places(Platform::Windows, folders);
    assert(all =~= a + b + c + d + e + f);
    if folders.local_app_data is Some {
        assert(all[0] == a[0] && all[1] == b[0]);
    }
    if folders.program_files is Some {
        assert(all[(a.len() + b.len()) as int] == c[0]);
    }
    if folders.program_files_x86 is Some {
        assert(all[(a.len() + b.len() + c.len()) as int] == d[0]);
    }
    if folders.user_profile is Some {
        assert(all[(a.len() + b.len() + c.len() + d.len()) as int] == e[0]);
        assert(all[(a.len() + b.len() + c.len() + d.len() + e.len()) as int] == f[0]);
    }
}

/// What each failure to find Tor says.
pub proof fn law_setup_errors_are_worded(why: SetupError, detail: Seq<char>)
    ensures
        why.text(detail) == match why {
            SetupError::NotAtConfigured => "Tor executable not found at "@ + detail
                + "; correct --tor-binary or AIRWIRE_TOR_BINARY"@,
            SetupError::NotInstalled =>
                "Tor is not installed or was not found; install Tor or set AIRWIRE_TOR_BINARY"@,
            SetupError::InstallationFailed => "Tor installation failed with status "@ + detail,
            SetupError::Cancelled => "Tor setup cancelled"@,
            SetupError::NotAtGiven => "Tor executable not found at "@ + detail
                + "; set AIRWIRE_TOR_BINARY to its full path"@,
        },
{
}

} // verus!

use airwire::tor::{
    exit_report, format_recent_logs, is_valid_v3_onion_hostname, onion_relay_url,
    parse_bootstrap_percent, proxy_address, timeout_report, tor_arguments,
    validate_onion_hostname, InvalidHostname, ManagedTorMode, RecentLogs, StartupStep,
    TorArgument, TorStartup,
};
use airwire::paths::LocalPath;
use airwire::tor_setup::{
    common_tor_candidates, confirm, executable_names, first_stage, install_question, installer,
    next_stage, platform_managers, Manager, Platform, SetupError, SetupStage, SetupStep,
    WindowsFolders,
};

#[test]
fn parses_bootstrap_progress() {
    assert_eq!(
        parse_bootstrap_percent(
            "Jul 23 17:00:00 [notice] Bootstrapped 80% (ap_conn_done): Connected"
        ),
        Some(80)
    );
    assert_eq!(parse_bootstrap_percent("unrelated output"), None);
}

#[test]
fn parses_other_bootstrap_progress() {
    assert_eq!(parse_bootstrap_percent("Bootstrapped 100%"), Some(100));
    assert_eq!(parse_bootstrap_percent("Bootstrapped +007%"), Some(7));
    assert_eq!(parse_bootstrap_percent("Bootstrapped 101%"), None);
    assert_eq!(parse_bootstrap_percent("Bootstrapped 99999999999%"), None);
    assert_eq!(parse_bootstrap_percent("Bootstrapped %"), None);
    assert_eq!(parse_bootstrap_percent("Bootstrapped +%"), None);
    assert_eq!(parse_bootstrap_percent("Bootstrapped -1%"), None);
    assert_eq!(parse_bootstrap_percent("Bootstrapped 5"), None);
    assert_eq!(parse_bootstrap_percent("Bootstrapped x% Bootstrapped 5%"), None);
}

#[test]
fn validates_v3_onion_hostname() {
    let hostname = format!("{}.onion", "a".repeat(56));
    assert_eq!(validate_onion_hostname(&hostname).unwrap(), hostname);
    assert!(validate_onion_hostname("short.onion").is_err());
    assert!(validate_onion_hostname(&format!("{}.onion", "1".repeat(56))).is_err());
}

#[test]
fn onion_hostnames_become_relay_addresses() {
    let hostname = format!("{}.onion", "z7".repeat(28));
    assert!(is_valid_v3_onion_hostname(&hostname));
    assert!(!is_valid_v3_onion_hostname(&hostname.to_uppercase()));
    assert!(!is_valid_v3_onion_hostname(&"a".repeat(56)));
    assert_eq!(
        onion_relay_url(&format!(" {hostname}\n")).unwrap(),
        format!("ws://{hostname}/ws")
    );
    assert_eq!(onion_relay_url("nothing"), Err(InvalidHostname));
    assert_eq!(InvalidHostname.message(), "Tor returned an invalid v3 onion hostname");
}

#[test]
fn the_last_twelve_lines_are_remembered() {
    let mut logs = RecentLogs::new();
    assert_eq!(format_recent_logs(&logs), "");
    assert_eq!(
        timeout_report(&logs),
        "Tor did not finish connecting within 120 seconds"
    );
    for number in 0..15 {
        logs.push(format!("line {number}"));
    }
    let expected: Vec<String> = (3..15).map(|number| format!("line {number}")).collect();
    let expected = format!("\nRecent Tor output:\n{}", expected.join("\n"));
    assert_eq!(format_recent_logs(&logs), expected);
    assert_eq!(
        exit_report("exit status: 1", &logs),
        format!("Tor exited during startup (exit status: 1){expected}")
    );
}

#[test]
fn tor_gets_its_arguments() {
    assert_eq!(proxy_address(9150), "127.0.0.1:9150");
    let text = |value: &str| TorArgument::Text(value.to_owned());
    let client = vec![
        text("-f"),
        TorArgument::Configuration,
        text("--DataDirectory"),
        TorArgument::DataDirectory,
        text("--SocksPort"),
        text("127.0.0.1:9150"),
        text("--ClientOnly"),
        text("1"),
        text("--SafeLogging"),
        text("1"),
        text("--Log"),
        text("notice stdout"),
    ];
    assert_eq!(tor_arguments("127.0.0.1:9150", &ManagedTorMode::Client), client);
    let mut service = client;
    service.extend(vec![
        text("--HiddenServiceDir"),
        TorArgument::OnionDirectory,
        text("--HiddenServiceVersion"),
        text("3"),
        text("--HiddenServicePort"),
        text("80 127.0.0.1:8787"),
    ]);
    assert_eq!(
        tor_arguments(
            "127.0.0.1:9150",
            &ManagedTorMode::OnionService { target: "127.0.0.1:8787".to_owned() }
        ),
        service
    );
}

#[test]
fn tor_is_ready_once_it_is_connected() {
    let mut startup = TorStartup::new(&ManagedTorMode::Client);
    assert_eq!(startup.step(false, false, false), StartupStep::Wait);
    assert_eq!(startup.step(false, false, true), StartupStep::TimedOut);
    assert_eq!(startup.on_progress(50).unwrap(), "  Tor bootstrap: 50%");
    assert_eq!(startup.on_progress(50), None);
    assert_eq!(startup.on_progress(100).unwrap(), "  Tor bootstrap: 100%");
    assert_eq!(startup.step(false, false, true), StartupStep::Ready);
    assert_eq!(startup.step(true, false, false), StartupStep::Exited);
}

#[test]
fn an_onion_service_also_needs_its_hostname() {
    let mode = ManagedTorMode::OnionService { target: "127.0.0.1:8787".to_owned() };
    let mut startup = TorStartup::new(&mode);
    let _ = startup.on_progress(100);
    assert_eq!(startup.step(false, false, false), StartupStep::Wait);
    assert_eq!(startup.step(false, true, false), StartupStep::Ready);
    let _ = startup.on_progress(90);
    assert_eq!(startup.step(false, true, false), StartupStep::Wait);
}

#[test]
fn programs_have_names() {
    assert_eq!(executable_names(Platform::Linux, "tor"), vec!["tor"]);
    assert_eq!(executable_names(Platform::Windows, "tor"), vec!["tor.exe", "tor"]);
    assert_eq!(executable_names(Platform::Windows, "tor.com"), vec!["tor.com"]);
}

#[test]
fn tor_is_looked_for_in_common_places() {
    let path = |text: &str| LocalPath::of_text(text.to_owned());
    let shown = |platform: Platform, folders: &WindowsFolders| -> Vec<String> {
        let found = common_tor_candidates(platform, folders);
        assert!(found.iter().all(|place| place.bytes == place.shown.as_bytes()));
        found.into_iter().map(|place| place.shown).collect()
    };
    let unknown = WindowsFolders {
        local_app_data: None,
        program_files: None,
        program_files_x86: None,
        user_profile: None,
    };
    assert_eq!(
        shown(Platform::Linux, &unknown),
        vec!["/usr/bin/tor", "/usr/local/bin/tor"]
    );
    assert_eq!(shown(Platform::MacOs, &unknown).len(), 5);
    assert_eq!(shown(Platform::MacOs, &unknown)[0], "/opt/homebrew/bin/tor");
    assert!(shown(Platform::Windows, &unknown).is_empty());
    assert!(shown(Platform::Other, &unknown).is_empty());
    let known = WindowsFolders {
        local_app_data: Some(path("C:\\Local\\")),
        program_files: Some(path("C:\\Programs")),
        program_files_x86: None,
        user_profile: Some(path("C:\\Me")),
    };
    assert_eq!(
        shown(Platform::Windows, &known),
        vec![
            "C:\\Local\\Airwire\\tor-expert\\tor\\tor.exe",
            "C:\\Local\\Tor Browser\\Browser\\TorBrowser\\Tor\\tor.exe",
            "C:\\Programs\\Tor Browser\\Browser\\TorBrowser\\Tor\\tor.exe",
            "C:\\Me\\Desktop\\Tor Browser\\Browser\\TorBrowser\\Tor\\tor.exe",
            "C:\\Me\\Downloads\\Tor Browser\\Browser\\TorBrowser\\Tor\\tor.exe",
        ]
    );
    let drive = WindowsFolders { program_files: Some(path("D:")), ..unknown };
    assert_eq!(
        shown(Platform::Windows, &drive),
        vec!["D:Tor Browser\\Browser\\TorBrowser\\Tor\\tor.exe"]
    );
}

#[test]
fn package_managers_install_tor() {
    assert_eq!(platform_managers(Platform::MacOs), vec![Manager::Brew]);
    assert_eq!(platform_managers(Platform::Linux).len(), 5);
    assert_eq!(platform_managers(Platform::Linux)[0].program(), "apt-get");
    assert!(platform_managers(Platform::Windows).is_empty());
    let with_sudo = installer(&Manager::AptGet, true);
    assert!(with_sudo.with_sudo);
    assert_eq!(with_sudo.arguments, vec!["install", "--yes", "tor"]);
    assert_eq!(with_sudo.label, "sudo apt-get install --yes tor");
    let without = installer(&Manager::Pacman, false);
    assert!(!without.with_sudo);
    assert_eq!(without.label, "pacman --sync --needed --noconfirm tor");
    let brew = installer(&Manager::Brew, true);
    assert!(!brew.with_sudo);
    assert_eq!(brew.label, "brew install tor");
    assert_eq!(install_question("brew install tor"), "Install it now with `brew install tor`? [Y/n] ");
}

#[test]
fn answers_are_understood() {
    for yes in ["", "y", "Y", "yes", "YES", "yEs"] {
        assert!(confirm(yes), "{yes}");
    }
    for no in ["n", "no", "yess", "ye", " ", "j", "nes"] {
        assert!(!confirm(no), "{no}");
    }
}

#[test]
fn the_search_for_tor_goes_through_its_stages() {
    assert_eq!(first_stage(true), SetupStage::Configured);
    assert_eq!(first_stage(false), SetupStage::Discover);
    assert_eq!(next_stage(SetupStage::Configured, true), SetupStep::Found);
    assert_eq!(
        next_stage(SetupStage::Configured, false),
        SetupStep::Failed(SetupError::NotAtConfigured)
    );
    assert_eq!(
        next_stage(SetupStage::Discover, false),
        SetupStep::Next(SetupStage::Terminal)
    );
    assert_eq!(
        next_stage(SetupStage::Terminal, false),
        SetupStep::Failed(SetupError::NotInstalled)
    );
    assert_eq!(
        next_stage(SetupStage::AskInstall, false),
        SetupStep::Next(SetupStage::AskPath)
    );
    assert_eq!(
        next_stage(SetupStage::Install, true),
        SetupStep::Next(SetupStage::DiscoverAgain)
    );
    assert_eq!(
        next_stage(SetupStage::Install, false),
        SetupStep::Failed(SetupError::InstallationFailed)
    );
    assert_eq!(
        next_stage(SetupStage::AskPath, false),
        SetupStep::Failed(SetupError::Cancelled)
    );
    assert_eq!(
        next_stage(SetupStage::Given, false),
        SetupStep::Failed(SetupError::NotAtGiven)
    );
    for first in [SetupStage::Configured, SetupStage::Discover] {
        for answer in [true, false] {
            let mut stage = first;
            let mut steps = 0;
            while let SetupStep::Next(next) = next_stage(stage, answer) {
                stage = next;
                steps += 1;
                assert!(steps < 10);
            }
        }
    }
}

#[test]
fn setup_errors_are_reported() {
    assert_eq!(
        SetupError::NotAtConfigured.message("/x/tor"),
        "Tor executable not found at /x/tor; correct --tor-binary or AIRWIRE_TOR_BINARY"
    );
    assert_eq!(
        SetupError::NotInstalled.message(""),
        "Tor is not installed or was not found; install Tor or set AIRWIRE_TOR_BINARY"
    );
    assert_eq!(
        SetupError::InstallationFailed.message("exit status: 1"),
        "Tor installation failed with status exit status: 1"
    );
    assert_eq!(SetupError::Cancelled.message(""), "Tor setup cancelled");
    assert_eq!(
        SetupError::NotAtGiven.message("tor"),
        "Tor executable not found at tor; set AIRWIRE_TOR_BINARY to its full path"
    );
}

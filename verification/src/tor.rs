//! What has to be decided to find, install, start and watch a Tor process.

use vstd::prelude::*;

use std::collections::VecDeque;

use crate::text;
use crate::text::{chars_of, decimal_text, split_at_first, trimmed, without_suffix};

verus! {

broadcast use vstd::seq_lib::group_seq_properties;

/// How long Tor may take to connect, in seconds.
pub const BOOTSTRAP_TIMEOUT_SECS: u64 = 120;

/// The number of lines that are remembered of what Tor says.
pub const LOG_HISTORY: usize = 12;

/// The number of characters in the identifier of an onion service.
pub const SERVICE_ID_LEN: usize = 56;

// ---------------------------------------------------------------------------
// Onion hostnames
// ---------------------------------------------------------------------------
/// The characters of the identifier of an onion service: lower-case letters and
/// the digits from two to seven.
pub open spec fn is_base32(c: char) -> bool {
    'a' <= c <= 'z' || '2' <= c <= '7'
}

/// The identifier of a version 3 onion service.
pub open spec fn valid_service_id(s: Seq<char>) -> bool {
    s.len() == SERVICE_ID_LEN && forall|i: int| 0 <= i < s.len() ==> is_base32(#[trigger] s[i])
}

/// The hostname of a version 3 onion service.
pub open spec fn valid_onion_hostname(hostname: Seq<char>) -> bool {
    match text::strip_suffix(hostname, ".onion"@) {
        Some(service_id) => valid_service_id(service_id),
        None => false,
    }
}

/// Whether `s` is the identifier of a version 3 onion service.
fn is_service_id(s: &str) -> (r: bool)
    ensures
        r == valid_service_id(s@),
{
    let chars = chars_of(s);
    if chars.len() != SERVICE_ID_LEN {
        return false;
    }
    let mut i: usize = 0;
    while i < chars.len()
        invariant
            i <= chars@.len(),
            chars@ == s@,
            forall|j: int| 0 <= j < i ==> is_base32(#[trigger] chars@[j]),
        decreases chars@.len() - i,
    {
        let c = chars[i];
        if !(('a' <= c && c <= 'z') || ('2' <= c && c <= '7')) {
            assert(!is_base32(s@[i as int]));
            return false;
        }
        i += 1;
    }
    true
}

/// Whether `hostname` is the hostname of a version 3 onion service.
pub fn is_valid_v3_onion_hostname(hostname: &str) -> (r: bool)
    ensures
        r == valid_onion_hostname(hostname@),
{
    match without_suffix(hostname, ".onion") {
        Some(service_id) => is_service_id(service_id.as_str()),
        None => false,
    }
}

/// What is wrong with the hostname that Tor has written.
#[derive(Clone, Copy, Debug, PartialEq, Eq, Structural)]
pub struct InvalidHostname;

impl InvalidHostname {
    /// How the error is reported.
    pub fn message(&self) -> (r: String)
        ensures
            r@ == "Tor returned an invalid v3 onion hostname"@,
    {
        "Tor returned an invalid v3 onion hostname".to_owned()
    }
}

/// The hostname, if it is one of a version 3 onion service.
pub fn validate_onion_hostname(hostname: &str) -> (r: Result<String, InvalidHostname>)
    ensures
        match r {
            Ok(same) => valid_onion_hostname(hostname@) && same@ == hostname@,
            Err(_) => !valid_onion_hostname(hostname@),
        },
{
    if is_valid_v3_onion_hostname(hostname) {
        Ok(hostname.to_owned())
    } else {
        Err(InvalidHostname)
    }
}

/// The relay URL of the onion service whose hostname Tor has written into a
/// file with these contents.
pub fn onion_relay_url(contents: &str) -> (r: Result<String, InvalidHostname>)
    ensures
        match r {
            Ok(url) => valid_onion_hostname(text::trim(contents@)) && url@ == "ws://"@ + text::trim(
                contents@,
            ) + "/ws"@,
            Err(_) => !valid_onion_hostname(text::trim(contents@)),
        },
{
    let hostname = trimmed(contents);
    match validate_onion_hostname(hostname.as_str()) {
        Ok(hostname) => {
            let mut url = "ws://".to_owned();
            url.append(hostname.as_str());
            url.append("/ws");
            Ok(url)
        },
        Err(why) => Err(why),
    }
}

// ---------------------------------------------------------------------------
// What Tor says
// ---------------------------------------------------------------------------
/// Whether `s` is one or more decimal digits.
pub open spec fn all_digits(s: Seq<char>) -> bool {
    s.len() > 0 && forall|i: int| 0 <= i < s.len() ==> '0' <= #[trigger] s[i] <= '9'
}

/// The number that decimal digits stand for.
pub open spec fn number(s: Seq<char>) -> nat
    decreases s.len(),
{
    if s.len() == 0 {
        0
    } else {
        10 * number(s.drop_last()) + (s.last() as nat - '0' as nat) as nat
    }
}

/// A percentage in decimal: digits, perhaps after a plus sign, that stand for
/// no more than a hundred.
pub open spec fn percentage(s: Seq<char>) -> Option<nat> {
    let digits = if s.len() > 0 && s[0] == '+' {
        s.skip(1)
    } else {
        s
    };
    if all_digits(digits) && number(digits) <= 100 {
        Some(number(digits))
    } else {
        None
    }
}

/// How far Tor says that it has come in a line of its output.
pub open spec fn bootstrap_percent(line: Seq<char>) -> Option<nat> {
    match text::split_once(line, "Bootstrapped "@) {
        Some(parts) => match text::split_once(parts.1, "%"@) {
            Some(parts) => percentage(parts.0),
            None => None,
        },
        None => None,
    }
}

/// A percentage in decimal.
fn parse_percentage(s: &str) -> (r: Option<u8>)
    ensures
        match r {
            Some(value) => percentage(s@) == Some(value as nat),
            None => percentage(s@) is None,
        },
{
    let chars = chars_of(s);
    let from: usize = if chars.len() > 0 && chars[0] == '+' {
        1
    } else {
        0
    };
    let ghost digits = s@.skip(from as int);
    assert(s@.skip(0) =~= s@);
    if from == chars.len() {
        return None;
    }
    let mut value: u8 = 0;
    let mut exceeded = false;
    let mut i: usize = from;
    assert(digits.take(0) =~= Seq::<char>::empty());
    while i < chars.len()
        invariant
            from <= i <= chars@.len(),
            chars@ == s@,
            digits == s@.skip(from as int),
            digits == if s@.len() > 0 && s@[0] == '+' {
                s@.skip(1)
            } else {
                s@
            },
            forall|j: int| 0 <= j < i - from ==> '0' <= #[trigger] digits[j] <= '9',
            exceeded ==> number(digits.take(i - from)) > 100,
            !exceeded ==> number(digits.take(i - from)) == value && value <= 100,
        decreases chars@.len() - i,
    {
        let c = chars[i];
        assert(digits[i - from] == c);
        if !('0' <= c && c <= '9') {
            return None;
        }
        let ghost seen = digits.take(i - from);
        assert(digits.take(i + 1 - from).drop_last() =~= seen);
        assert(digits.take(i + 1 - from).last() == c);
        if !exceeded {
            let next: u32 = 10 * (value as u32) + (c as u32 - '0' as u32);
            assert(next == number(digits.take(i + 1 - from)));
            if next > 100 {
                exceeded = true;
            } else {
                value = next as u8;
            }
        }
        i += 1;
    }
    assert(digits.take(digits.len() as int) =~= digits);
    if exceeded {
        None
    } else {
        Some(value)
    }
}

/// How far Tor says that it has come in a line of its output.
pub fn parse_bootstrap_percent(line: &str) -> (r: Option<u8>)
    ensures
        match r {
            Some(value) => bootstrap_percent(line@) == Some(value as nat),
            None => bootstrap_percent(line@) is None,
        },
{
    match split_at_first(line, "Bootstrapped ") {
        Some((_, remainder)) => match split_at_first(remainder.as_str(), "%") {
            Some((percentage, _)) => parse_percentage(percentage.as_str()),
            None => None,
        },
        None => None,
    }
}

/// Lines with line breaks between them.
pub open spec fn join_lines(lines: Seq<Seq<char>>) -> Seq<char>
    decreases lines.len(),
{
    if lines.len() == 0 {
        seq![]
    } else if lines.len() == 1 {
        lines[0]
    } else {
        join_lines(lines.drop_last()) + "\n"@ + lines.last()
    }
}

/// The last `n` of a list of lines, or all of them if there are fewer.
pub open spec fn last_lines(lines: Seq<Seq<char>>, n: nat) -> Seq<Seq<char>> {
    if lines.len() <= n {
        lines
    } else {
        lines.skip(lines.len() - n)
    }
}

/// What Tor has said last.
pub struct RecentLogs {
    lines: VecDeque<String>,
}

impl View for RecentLogs {
    type V = Seq<Seq<char>>;

    closed spec fn view(&self) -> Seq<Seq<char>> {
        self.lines@.map_values(|line: String| line@)
    }
}

impl RecentLogs {
    /// Not too many lines are remembered.
    pub open spec fn wf(&self) -> bool {
        self@.len() <= LOG_HISTORY
    }

    /// Nothing has been said.
    pub fn new() -> (r: RecentLogs)
        ensures
            r.wf(),
            r@ == Seq::<Seq<char>>::empty(),
    {
        let r = RecentLogs { lines: VecDeque::new() };
        assert(r@ =~= Seq::<Seq<char>>::empty());
        r
    }

    /// Remembers a line, and forgets the oldest if there are too many.
    pub fn push(&mut self, line: String)
        requires
            old(self).wf(),
        ensures
            final(self).wf(),
            final(self)@ == last_lines(old(self)@.push(line@), LOG_HISTORY as nat),
    {
        if self.lines.len() == LOG_HISTORY {
            let _ = self.lines.pop_front();
        }
        self.lines.push_back(line);
        assert(self@ =~= last_lines(old(self)@.push(line@), LOG_HISTORY as nat));
    }
}

/// Remembering lines one by one keeps the last ones of all that were said.
pub proof fn law_the_last_lines_are_kept(said: Seq<Seq<char>>, line: Seq<char>)
    ensures
        last_lines(last_lines(said, LOG_HISTORY as nat).push(line), LOG_HISTORY as nat)
            == last_lines(said.push(line), LOG_HISTORY as nat),
{
    assert(last_lines(last_lines(said, LOG_HISTORY as nat).push(line), LOG_HISTORY as nat)
        =~= last_lines(said.push(line), LOG_HISTORY as nat));
}

/// What an error report adds to say what Tor has said last.
pub open spec fn logs_text(lines: Seq<Seq<char>>) -> Seq<char> {
    if lines.len() == 0 {
        seq![]
    } else {
        "\nRecent Tor output:\n"@ + join_lines(lines)
    }
}

/// What an error report adds to say what Tor has said last.
pub fn format_recent_logs(logs: &RecentLogs) -> (r: String)
    ensures
        r@ == logs_text(logs@),
{
    if logs.lines.len() == 0 {
        let r = String::new();
        assert(r@ =~= logs_text(logs@));
        return r;
    }
    let mut out = "\nRecent Tor output:\n".to_owned();
    let ghost lead = out@;
    let ghost lines = logs@;
    out.append(logs.lines[0].as_str());
    let mut i: usize = 1;
    assert(lines.take(1) =~= seq![lines[0]]);
    while i < logs.lines.len()
        invariant
            1 <= i <= logs.lines@.len(),
            lines == logs@,
            lines.len() == logs.lines@.len(),
            out@ == lead + join_lines(lines.take(i as int)),
        decreases logs.lines@.len() - i,
    {
        assert(lines.take(i + 1).drop_last() =~= lines.take(i as int));
        assert(lines.take(i + 1).last() == lines[i as int]);
        out.append("\n");
        out.append(logs.lines[i].as_str());
        i += 1;
        assert(out@ =~= lead + join_lines(lines.take(i as int)));
    }
    assert(lines.take(lines.len() as int) =~= lines);
    out
}

// ---------------------------------------------------------------------------
// Starting Tor
// ---------------------------------------------------------------------------
/// What a managed Tor process is for.
pub enum ManagedTorMode {
    /// To reach onion services.
    Client,
    /// To be one, for what listens at this address.
    OnionService { target: String },
}

/// An argument of the Tor process.
#[derive(Debug, PartialEq, Eq)]
pub enum TorArgument {
    Text(String),
    /// The path of the empty configuration file.
    Configuration,
    /// The path of the directory for what Tor keeps.
    DataDirectory,
    /// The path of the directory for the onion service.
    OnionDirectory,
}

/// The ghost counterpart of [`TorArgument`].
#[verifier::ext_equal]
pub enum ArgumentView {
    Text(Seq<char>),
    Configuration,
    DataDirectory,
    OnionDirectory,
}

impl View for TorArgument {
    type V = ArgumentView;

    open spec fn view(&self) -> ArgumentView {
        match *self {
            TorArgument::Text(text) => ArgumentView::Text(text@),
            TorArgument::Configuration => ArgumentView::Configuration,
            TorArgument::DataDirectory => ArgumentView::DataDirectory,
            TorArgument::OnionDirectory => ArgumentView::OnionDirectory,
        }
    }
}

/// The ghost counterpart of a list of arguments.
pub open spec fn arguments_view(arguments: Seq<TorArgument>) -> Seq<ArgumentView> {
    arguments.map_values(|argument: TorArgument| argument@)
}

/// The address at which Tor is asked to listen.
pub fn proxy_address(port: u16) -> (r: String)
    ensures
        r@ == "127.0.0.1:"@ + text::decimal(port as nat),
{
    let mut out = "127.0.0.1:".to_owned();
    out.append(decimal_text(port as u64).as_str());
    out
}

/// The arguments that every managed Tor process gets.
pub open spec fn client_arguments(proxy: Seq<char>) -> Seq<ArgumentView> {
    seq![
        ArgumentView::Text("-f"@),
        ArgumentView::Configuration,
        ArgumentView::Text("--DataDirectory"@),
        ArgumentView::DataDirectory,
        ArgumentView::Text("--SocksPort"@),
        ArgumentView::Text(proxy),
        ArgumentView::Text("--ClientOnly"@),
        ArgumentView::Text("1"@),
        ArgumentView::Text("--SafeLogging"@),
        ArgumentView::Text("1"@),
        ArgumentView::Text("--Log"@),
        ArgumentView::Text("notice stdout"@),
    ]
}

/// The arguments that an onion service gets besides.
pub open spec fn service_arguments(target: Seq<char>) -> Seq<ArgumentView> {
    seq![
        ArgumentView::Text("--HiddenServiceDir"@),
        ArgumentView::OnionDirectory,
        ArgumentView::Text("--HiddenServiceVersion"@),
        ArgumentView::Text("3"@),
        ArgumentView::Text("--HiddenServicePort"@),
        ArgumentView::Text("80 "@ + target),
    ]
}

/// An argument that is plain text.
fn plain(argument: &str) -> (r: TorArgument)
    ensures
        r@ == ArgumentView::Text(argument@),
{
    TorArgument::Text(argument.to_owned())
}

/// The arguments of a managed Tor process that listens at `proxy`.
pub fn tor_arguments(proxy: &str, mode: &ManagedTorMode) -> (r: Vec<TorArgument>)
    ensures
        arguments_view(r@) == match *mode {
            ManagedTorMode::Client => client_arguments(proxy@),
            ManagedTorMode::OnionService { target } => client_arguments(proxy@)
                + service_arguments(target@),
        },
{
    let mut out: Vec<TorArgument> = Vec::new();
    out.push(plain("-f"));
    out.push(TorArgument::Configuration);
    out.push(plain("--DataDirectory"));
    out.push(TorArgument::DataDirectory);
    out.push(plain("--SocksPort"));
    out.push(plain(proxy));
    out.push(plain("--ClientOnly"));
    out.push(plain("1"));
    out.push(plain("--SafeLogging"));
    out.push(plain("1"));
    out.push(plain("--Log"));
    out.push(plain("notice stdout"));
    assert(arguments_view(out@) =~= client_arguments(proxy@));
    let ghost shared = out@;
    match mode {
        ManagedTorMode::Client => {},
        ManagedTorMode::OnionService { target } => {
            out.push(plain("--HiddenServiceDir"));
            out.push(TorArgument::OnionDirectory);
            out.push(plain("--HiddenServiceVersion"));
            out.push(plain("3"));
            out.push(plain("--HiddenServicePort"));
            let mut port = "80 ".to_owned();
            port.append(target.as_str());
            out.push(TorArgument::Text(port));
            assert(out@.take(12) =~= shared);
            assert(out@ =~= shared + out@.skip(12));
            assert(arguments_view(out@) =~= arguments_view(shared) + arguments_view(out@.skip(12)));
            assert(arguments_view(out@.skip(12)) =~= service_arguments(target@));
        },
    }
    out
}

/// What is to be done next while Tor starts.
#[derive(Clone, Copy, Debug, PartialEq, Eq, Structural)]
pub enum StartupStep {
    /// Tor has ended: report it.
    Exited,
    /// Tor is ready.
    Ready,
    /// Tor takes too long: end it and report it.
    TimedOut,
    /// Wait for what Tor says next.
    Wait,
}

/// How far the start of Tor has come.
pub struct TorStartup {
    bootstrapped: bool,
    last_progress: Option<u8>,
    awaits_hostname: bool,
}

/// The ghost counterpart of [`TorStartup`].
#[verifier::ext_equal]
pub struct StartupView {
    /// Tor has last said that it is connected.
    pub bootstrapped: bool,
    /// What Tor has last said of its progress.
    pub last_progress: Option<u8>,
    /// Tor also has to write the hostname of an onion service.
    pub awaits_hostname: bool,
}

impl View for TorStartup {
    type V = StartupView;

    closed spec fn view(&self) -> StartupView {
        StartupView {
            bootstrapped: self.bootstrapped,
            last_progress: self.last_progress,
            awaits_hostname: self.awaits_hostname,
        }
    }
}

/// What is to be done next: `exited` tells whether Tor has ended,
/// `hostname_written` whether the hostname is there, and `late` whether the
/// time is up.
pub open spec fn startup_step(
    startup: StartupView,
    exited: bool,
    hostname_written: bool,
    late: bool,
) -> StartupStep {
    if exited {
        StartupStep::Exited
    } else if startup.bootstrapped && (startup.awaits_hostname ==> hostname_written) {
        StartupStep::Ready
    } else if late {
        StartupStep::TimedOut
    } else {
        StartupStep::Wait
    }
}

impl TorStartup {
    /// Tor has just been started.
    pub fn new(mode: &ManagedTorMode) -> (r: TorStartup)
        ensures
            r@ == (StartupView {
                bootstrapped: false,
                last_progress: None,
                awaits_hostname: mode is OnionService,
            }),
    {
        let awaits_hostname = match mode {
            ManagedTorMode::Client => false,
            ManagedTorMode::OnionService { .. } => true,
        };
        TorStartup { bootstrapped: false, last_progress: None, awaits_hostname }
    }

    /// What is to be done next.
    pub fn step(&self, exited: bool, hostname_written: bool, late: bool) -> (r: StartupStep)
        ensures
            r == startup_step(self@, exited, hostname_written, late),
    {
        if exited {
            StartupStep::Exited
        } else if self.bootstrapped && (!self.awaits_hostname || hostname_written) {
            StartupStep::Ready
        } else if late {
            StartupStep::TimedOut
        } else {
            StartupStep::Wait
        }
    }

    /// Takes in what Tor says of its progress, and says what to print, unless
    /// Tor has said that before.
    pub fn on_progress(&mut self, progress: u8) -> (r: Option<String>)
        ensures
            final(self)@ == (StartupView {
                bootstrapped: progress == 100,
                last_progress: Some(progress),
                awaits_hostname: old(self)@.awaits_hostname,
            }),
            match r {
                Some(line) => old(self)@.last_progress != Some(progress) && line@
                    == "  Tor bootstrap: "@ + text::decimal(progress as nat) + "%"@,
                None => old(self)@.last_progress == Some(progress),
            },
    {
        self.bootstrapped = progress == 100;
        let repeated = match self.last_progress {
            Some(last) => last == progress,
            None => false,
        };
        if repeated {
            return None;
        }
        self.last_progress = Some(progress);
        let mut line = "  Tor bootstrap: ".to_owned();
        line.append(decimal_text(progress as u64).as_str());
        line.append("%");
        Some(line)
    }
}

/// Tor is not held to be ready before it has said that it is connected.
pub proof fn law_ready_means_connected(
    startup: StartupView,
    exited: bool,
    hostname_written: bool,
    late: bool,
)
    requires
        startup_step(startup, exited, hostname_written, late) == StartupStep::Ready,
    ensures
        !exited,
        startup.bootstrapped,
        startup.awaits_hostname ==> hostname_written,
{
}

/// How it is reported that Tor has ended with `status`.
pub fn exit_report(status: &str, logs: &RecentLogs) -> (r: String)
    ensures
        r@ == "Tor exited during startup ("@ + status@ + ")"@ + logs_text(logs@),
{
    let mut out = "Tor exited during startup (".to_owned();
    out.append(status);
    out.append(")");
    out.append(format_recent_logs(logs).as_str());
    out
}

/// How it is reported that Tor takes too long.
pub fn timeout_report(logs: &RecentLogs) -> (r: String)
    ensures
        r@ == "Tor did not finish connecting within "@ + text::decimal(
            BOOTSTRAP_TIMEOUT_SECS as nat,
        ) + " seconds"@ + logs_text(logs@),
{
    let mut out = "Tor did not finish connecting within ".to_owned();
    out.append(decimal_text(BOOTSTRAP_TIMEOUT_SECS).as_str());
    out.append(" seconds");
    out.append(format_recent_logs(logs).as_str());
    out
}

/// The hostname of an onion service is fifty-six lower-case letters or digits from
/// two to seven with `.onion` behind them, and nothing else is one.
pub proof fn law_onion_hostnames_have_one_form(service_id: Seq<char>, hostname: Seq<char>)
    ensures
        valid_onion_hostname(service_id + ".onion"@) <==> valid_service_id(service_id),
        valid_onion_hostname(hostname) ==> hostname.len() == 62 && text::ends_with(
            hostname,
            ".onion"@,
        ),
        valid_service_id(service_id) <==> service_id.len() == 56 && (forall|i: int|
            0 <= i < 56 ==> (97 <= (#[trigger] service_id[i]) as int <= 122 || 50
                <= service_id[i] as int <= 55)),
{
    reveal_strlit(".onion");
    text::law_ends_come_off(service_id + ".onion"@, ".onion"@, service_id);
    if valid_service_id(service_id) {
        assert forall|i: int| 0 <= i < 56 implies (97 <= (#[trigger] service_id[i]) as int <= 122
            || 50 <= service_id[i] as int <= 55) by {
            assert(is_base32(service_id[i]));
        }
    }
    if valid_onion_hostname(hostname) {
        let id = text::strip_suffix(hostname, ".onion"@)->0;
        assert(id.len() == 56);
    }
}

/// What Tor says of its progress is understood: the number between the first
/// `Bootstrapped ` and the percent sign behind it, whatever stands around them.
pub proof fn law_progress_is_understood(before: Seq<char>, n: nat, after: Seq<char>)
    requires
        n <= 100,
        text::split_once(
            before + "Bootstrapped "@ + text::decimal(n) + "%"@ + after,
            "Bootstrapped "@,
        ) == Some((before, text::decimal(n) + "%"@ + after)),
    ensures
        bootstrap_percent(before + "Bootstrapped "@ + text::decimal(n) + "%"@ + after) == Some(n),
{
    let digits = text::decimal(n);
    let rest = digits + "%"@ + after;
    reveal_strlit("%");
    text::lemma_decimal_digits(n);
    lemma_number_of_decimal(n);
    text::lemma_find_from(rest, "%"@, 0);
    let k = digits.len() as int;
    assert(rest.subrange(k, k + 1) =~= "%"@);
    assert(text::occurs_at(rest, "%"@, k));
    assert forall|j: int| 0 <= j < k implies !text::occurs_at(rest, "%"@, j) by {
        if text::occurs_at(rest, "%"@, j) {
            assert(rest.subrange(j, j + 1)[0] == '%');
            assert(rest[j] == digits[j]);
        }
    }
    assert(text::find(rest, "%"@) == Some(k));
    assert(rest.take(k) =~= digits);
    assert(digits[0] != '+');
}

/// A number that is written in decimal stands for itself.
proof fn lemma_number_of_decimal(n: nat)
    ensures
        number(text::decimal(n)) == n,
    decreases n,
{
    let s = text::decimal(n);
    if n < 10 {
        assert(s.drop_last() =~= Seq::<char>::empty());
        assert(number(s.drop_last()) == 0);
    } else {
        lemma_number_of_decimal(n / 10);
        assert(s.drop_last() =~= text::decimal(n / 10));
    }
}

/// No more than a hundred percent is ever read, and nothing at all out of a line
/// that does not speak of progress.
pub proof fn law_progress_is_a_percentage(line: Seq<char>)
    ensures
        bootstrap_percent(line) matches Some(n) ==> n <= 100,
        !text::contains(line, "Bootstrapped "@) ==> bootstrap_percent(line) is None,
        !text::contains(line, "%"@) ==> bootstrap_percent(line) is None,
{
    if let Some((front, rest)) = text::split_once(line, "Bootstrapped "@) {
        if let Some((digits, tail)) = text::split_once(rest, "%"@) {
            reveal_strlit("%");
            text::law_texts_are_split_at_the_first_match(line, "Bootstrapped "@, 0);
            text::law_texts_are_split_at_the_first_match(rest, "%"@, 0);
            let i = front.len() + "Bootstrapped "@.len() + digits.len();
            assert(line[i as int] == '%');
            text::law_texts_are_split_at_the_first_match(line, "%"@, i as int);
        }
    }
}

/// Tor is ready exactly when it runs, is connected and, if it is to be an onion
/// service, has its hostname; one that has ended is reported as such, one that is
/// late is given up, and otherwise there is nothing to do but wait.
pub proof fn law_tor_is_awaited(
    startup: StartupView,
    exited: bool,
    hostname_written: bool,
    late: bool,
)
    ensures
        ({
            let step = startup_step(startup, exited, hostname_written, late);
            let ready = startup.bootstrapped && (hostname_written || !startup.awaits_hostname);
            &&& step == StartupStep::Exited <==> exited
            &&& step == StartupStep::Ready <==> !exited && ready
            &&& step == StartupStep::TimedOut <==> !exited && !ready && late
            &&& step == StartupStep::Wait <==> !exited && !ready && !late
        }),
{
}

/// The last twelve lines that Tor said are remembered, in order, and older ones
/// are not.
pub proof fn law_twelve_lines_are_remembered(said: Seq<Seq<char>>, i: int)
    ensures
        LOG_HISTORY == 12,
        BOOTSTRAP_TIMEOUT_SECS == 120,
        last_lines(said, 12).len() == if said.len() < 12 {
            said.len()
        } else {
            12
        },
        0 <= i < last_lines(said, 12).len() ==> last_lines(said, 12)[i] == said[said.len()
            - last_lines(said, 12).len() + i],
{
}

/// A report adds the lines one below the other behind a heading, and nothing if
/// there are none.
pub proof fn law_reports_show_every_line(lines: Seq<Seq<char>>, line: Seq<char>)
    ensures
        logs_text(Seq::empty()).len() == 0,
        logs_text(seq![line]) == "\nRecent Tor output:\n"@ + line,
        lines.len() > 0 ==> logs_text(lines.push(line)) == logs_text(lines) + "\n"@ + line,
{
    assert(seq![line][0] == line);
    if lines.len() > 0 {
        assert(lines.push(line).drop_last() =~= lines);
        assert(logs_text(lines.push(line)) =~= logs_text(lines) + "\n"@ + line);
    }
}

/// Tor is told where to listen and where to keep its things, not to relay for
/// others, and to say what it does; an onion service is told besides to be one of
/// version three that hands its port 80 to the target.
pub proof fn law_tor_is_told_what_to_do(proxy: Seq<char>, target: Seq<char>)
    ensures
        ({
            let a = client_arguments(proxy);
            let b = service_arguments(target);
            &&& a.len() == 12 && b.len() == 6
            &&& a[0] == ArgumentView::Text("-f"@) && a[1] == ArgumentView::Configuration
            &&& a[2] == ArgumentView::Text("--DataDirectory"@) && a[3]
                == ArgumentView::DataDirectory
            &&& a[4] == ArgumentView::Text("--SocksPort"@) && a[5] == ArgumentView::Text(proxy)
            &&& a[6] == ArgumentView::Text("--ClientOnly"@) && a[7] == ArgumentView::Text("1"@)
            &&& a[8] == ArgumentView::Text("--SafeLogging"@) && a[9] == ArgumentView::Text("1"@)
            &&& a[10] == ArgumentView::Text("--Log"@) && a[11] == ArgumentView::Text(
                "notice stdout"@,
            )
            &&& b[0] == ArgumentView::Text("--HiddenServiceDir"@) && b[1]
                == ArgumentView::OnionDirectory
            &&& b[2] == ArgumentView::Text("--HiddenServiceVersion"@) && b[3] == ArgumentView::Text(
                "3"@,
            )
            &&& b[4] == ArgumentView::Text("--HiddenServicePort"@) && b[5] == ArgumentView::Text(
                "80 "@ + target,
            )
        }),
{
}

} // verus!

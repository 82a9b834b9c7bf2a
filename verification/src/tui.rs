//! What the screen shows, and what typing into it means.

use vstd::prelude::*;

use crate::client::{NetCommand, NetView, UiEvent, UiView};
use crate::file_url;
use crate::file_url::file_named;
use crate::paths;
use crate::paths::{LocalPath, PathView};
use crate::text;
use crate::text::{
    begins_with, chars_of, decimal_text, first_chars, padded_left, same_text, string_between,
    trimmed, without_prefix,
};

verus! {

broadcast use vstd::seq_lib::group_seq_properties;

/// The most entries that are kept before the oldest are dropped.
pub const MAX_ENTRIES: usize = 2000;

/// The number of entries that are dropped at a time.
pub const DROPPED_ENTRIES: usize = 500;

/// The width of the labels of entries, in characters.
pub const LABEL_WIDTH: usize = 10;

// ---------------------------------------------------------------------------
// The state of the screen
// ---------------------------------------------------------------------------
/// What the screen shows of the room from the start.
#[derive(Debug)]
pub struct ViewConfig {
    pub code: String,
    pub relay_display: String,
    pub is_host: bool,
    pub voice_enabled: bool,
    pub startup_message: Option<String>,
}

/// The ghost counterpart of [`ViewConfig`].
#[verifier::ext_equal]
pub struct ConfigView {
    pub code: Seq<char>,
    pub relay_display: Seq<char>,
    pub is_host: bool,
    pub voice_enabled: bool,
    pub startup_message: Option<Seq<char>>,
}

impl View for ViewConfig {
    type V = ConfigView;

    open spec fn view(&self) -> ConfigView {
        ConfigView {
            code: self.code@,
            relay_display: self.relay_display@,
            is_host: self.is_host,
            voice_enabled: self.voice_enabled,
            startup_message: text::optional(self.startup_message),
        }
    }
}

/// What kind of entry it is.
#[derive(Clone, Copy, Debug, PartialEq, Eq, Structural)]
pub enum Tone {
    Mine,
    Peer,
    Status,
    Error,
}

/// One entry on the screen.
#[derive(Debug)]
pub struct Entry {
    pub label: String,
    pub body: String,
    pub tone: Tone,
}

/// The ghost counterpart of [`Entry`].
#[verifier::ext_equal]
pub struct EntryView {
    pub label: Seq<char>,
    pub body: Seq<char>,
    pub tone: Tone,
}

impl View for Entry {
    type V = EntryView;

    open spec fn view(&self) -> EntryView {
        EntryView { label: self.label@, body: self.body@, tone: self.tone }
    }
}

/// The ghost counterpart of a list of entries.
pub open spec fn entries_view(entries: Seq<Entry>) -> Seq<EntryView> {
    entries.map_values(|entry: Entry| entry@)
}

/// Everything that the screen shows.
pub struct App {
    pub config: ViewConfig,
    pub input: String,
    pub entries: Vec<Entry>,
    pub connection: String,
    pub secure: bool,
    pub peers: usize,
    pub should_quit: bool,
    pub progress: Option<String>,
}

/// The ghost counterpart of [`App`].
#[verifier::ext_equal]
pub struct AppView {
    pub config: ConfigView,
    pub input: Seq<char>,
    pub entries: Seq<EntryView>,
    pub connection: Seq<char>,
    pub secure: bool,
    pub peers: usize,
    pub should_quit: bool,
    pub progress: Option<Seq<char>>,
}

impl View for App {
    type V = AppView;

    open spec fn view(&self) -> AppView {
        AppView {
            config: self.config@,
            input: self.input@,
            entries: entries_view(self.entries@),
            connection: self.connection@,
            secure: self.secure,
            peers: self.peers,
            should_quit: self.should_quit,
            progress: text::optional(self.progress),
        }
    }
}

/// A message of the program itself.
pub open spec fn notice(body: Seq<char>, error: bool) -> EntryView {
    if error {
        EntryView { label: "error"@, body, tone: Tone::Error }
    } else {
        EntryView { label: "system"@, body, tone: Tone::Status }
    }
}

impl AppView {
    /// The same screen with one entry more.
    pub open spec fn with_entry(self, entry: EntryView) -> AppView {
        AppView { entries: self.entries.push(entry), ..self }
    }

    /// The same screen with one message more.
    pub open spec fn with_notice(self, body: Seq<char>, error: bool) -> AppView {
        self.with_entry(notice(body, error))
    }

    /// The same screen with nothing typed.
    pub open spec fn without_input(self) -> AppView {
        AppView { input: seq![], ..self }
    }

    /// The same screen, about to be closed.
    pub open spec fn quitting(self) -> AppView {
        AppView { should_quit: true, ..self }
    }

    /// The same screen with nothing but room for new entries.
    pub open spec fn cleared(self) -> AppView {
        AppView { entries: seq![], ..self }
    }
}

/// What the screen shows first.
pub open spec fn first_entries(startup_message: Option<Seq<char>>) -> Seq<EntryView> {
    let greeting = EntryView {
        label: "airwire"@,
        body: "Type /help for commands. Drag a file into this terminal to send it."@,
        tone: Tone::Status,
    };
    match startup_message {
        Some(message) => seq![
            greeting,
            EntryView { label: "share"@, body: message, tone: Tone::Status },
        ],
        None => seq![greeting],
    }
}

impl App {
    /// The screen of a room that is being connected to.
    pub fn new(config: ViewConfig) -> (r: App)
        ensures
            r@ == (AppView {
                config: config@,
                input: seq![],
                entries: first_entries(config@.startup_message),
                connection: "connecting…"@,
                secure: false,
                peers: 1,
                should_quit: false,
                progress: None,
            }),
    {
        let mut entries: Vec<Entry> = Vec::new();
        entries.push(
            Entry {
                label: "airwire".to_owned(),
                body: "Type /help for commands. Drag a file into this terminal to send it.".to_owned(),
                tone: Tone::Status,
            },
        );
        match &config.startup_message {
            Some(message) => {
                entries.push(
                    Entry {
                        label: "share".to_owned(),
                        body: message.as_str().to_owned(),
                        tone: Tone::Status,
                    },
                );
            },
            None => {},
        }
        assert(entries_view(entries@) =~= first_entries(config@.startup_message));
        let input = String::new();
        assert(input@ =~= Seq::<char>::empty());
        App {
            config,
            input,
            entries,
            connection: "connecting…".to_owned(),
            secure: false,
            peers: 1,
            should_quit: false,
            progress: None,
        }
    }

    /// Adds an entry.
    fn push_entry(&mut self, label: String, body: String, tone: Tone)
        ensures
            final(self)@ == old(self)@.with_entry(
                EntryView { label: label@, body: body@, tone },
            ),
    {
        self.entries.push(Entry { label, body, tone });
        assert(entries_view(self.entries@) =~= entries_view(old(self).entries@).push(
            EntryView { label: label@, body: body@, tone },
        ));
    }

    /// Adds a message of the program itself.
    pub fn push_status(&mut self, body: String, error: bool)
        ensures
            final(self)@ == old(self)@.with_notice(body@, error),
    {
        if error {
            self.push_entry("error".to_owned(), body, Tone::Error);
        } else {
            self.push_entry("system".to_owned(), body, Tone::Status);
        }
    }
}

// ---------------------------------------------------------------------------
// Paths that are typed or dropped
// ---------------------------------------------------------------------------
/// `value` without the quotes around it.
pub open spec fn unquoted(value: Seq<char>) -> Seq<char> {
    if value.len() >= 2 && ((value.first() == '"' && value.last() == '"') || (value.first() == '\''
        && value.last() == '\'')) {
        value.subrange(1, value.len() - 1)
    } else {
        value
    }
}

/// `value` without the quotes around it.
pub fn strip_wrapping_quotes(value: &str) -> (r: String)
    ensures
        r@ == unquoted(value@),
{
    let chars = chars_of(value);
    let n = chars.len();
    if n >= 2 && ((chars[0] == '"' && chars[n - 1] == '"') || (chars[0] == '\'' && chars[n - 1]
        == '\'')) {
        string_between(&chars, 1, n - 1)
    } else {
        value.to_owned()
    }
}

/// The quotes that a place in a shell word is in.
#[derive(Clone, Copy, Debug, PartialEq, Eq, Structural)]
pub enum Quote {
    Unquoted,
    Single,
    Double,
}

/// What a POSIX shell word that begins in these quotes stands for. A backslash
/// gives the next character as it is, except in single quotes; quotes that do
/// not stand in other quotes give nothing.
pub open spec fn unescaped(quote: Quote, s: Seq<char>) -> Seq<char>
    decreases s.len(),
{
    if s.len() == 0 {
        seq![]
    } else {
        let c = s[0];
        let rest = s.skip(1);
        if c == '\'' && quote != Quote::Double {
            unescaped(
                if quote == Quote::Single {
                    Quote::Unquoted
                } else {
                    Quote::Single
                },
                rest,
            )
        } else if c == '"' && quote != Quote::Single {
            unescaped(
                if quote == Quote::Double {
                    Quote::Unquoted
                } else {
                    Quote::Double
                },
                rest,
            )
        } else if c == '\\' && quote != Quote::Single {
            if rest.len() == 0 {
                seq!['\\']
            } else {
                seq![rest[0]] + unescaped(quote, rest.skip(1))
            }
        } else {
            seq![c] + unescaped(quote, rest)
        }
    }
}

/// What a POSIX shell word stands for.
pub fn unescape_posix_terminal_path(value: &str) -> (r: String)
    ensures
        r@ == unescaped(Quote::Unquoted, value@),
{
    let chars = chars_of(value);
    let mut out = String::new();
    let mut quote = Quote::Unquoted;
    let mut i: usize = 0;
    assert(value@.skip(0) =~= value@);
    assert(out@ + unescaped(quote, value@) =~= unescaped(quote, value@));
    while i < chars.len()
        invariant
            i <= chars@.len(),
            chars@ == value@,
            unescaped(Quote::Unquoted, value@) == out@ + unescaped(quote, value@.skip(i as int)),
        decreases chars@.len() - i,
    {
        let c = chars[i];
        let ghost rest = value@.skip(i as int);
        let ghost before = out@;
        assert(rest.skip(1) =~= value@.skip(i + 1));
        match (quote, c) {
            (Quote::Unquoted, '\'') => {
                quote = Quote::Single;
            },
            (Quote::Unquoted, '"') => {
                quote = Quote::Double;
            },
            (Quote::Single, '\'') => {
                quote = Quote::Unquoted;
            },
            (Quote::Double, '"') => {
                quote = Quote::Unquoted;
            },
            (Quote::Unquoted, '\\') | (Quote::Double, '\\') => {
                if i + 1 < chars.len() {
                    i += 1;
                    out.push(chars[i]);
                    assert(rest.skip(1).skip(1) =~= value@.skip(i + 1));
                    assert(out@ + unescaped(quote, value@.skip(i + 1)) =~= before + unescaped(
                        quote,
                        rest,
                    ));
                } else {
                    out.push('\\');
                    assert(unescaped(quote, value@.skip(i + 1)) =~= seq![]);
                    assert(out@ + unescaped(quote, value@.skip(i + 1)) =~= before + unescaped(
                        quote,
                        rest,
                    ));
                }
            },
            _ => {
                out.push(c);
                assert(out@ + unescaped(quote, value@.skip(i + 1)) =~= before + unescaped(
                    quote,
                    rest,
                ));
            },
        }
        i += 1;
    }
    assert(unescaped(quote, value@.skip(i as int)) =~= seq![]);
    assert(out@ + Seq::<char>::empty() =~= out@);
    out
}

/// `s` with a backslash in front of every special character.
pub open spec fn escaped(s: Seq<char>, special: spec_fn(char) -> bool) -> Seq<char>
    decreases s.len(),
{
    if s.len() == 0 {
        seq![]
    } else if special(s[0]) {
        seq!['\\', s[0]] + escaped(s.skip(1), special)
    } else {
        seq![s[0]] + escaped(s.skip(1), special)
    }
}

/// A path into which a terminal has put backslashes comes back as it was, as
/// long as it put them in front of quotes and backslashes.
pub proof fn law_escaped_paths_come_back(s: Seq<char>, special: spec_fn(char) -> bool)
    requires
        special('\''),
        special('"'),
        special('\\'),
    ensures
        unescaped(Quote::Unquoted, escaped(s, special)) == s,
    decreases s.len(),
{
    let e = escaped(s, special);
    if s.len() > 0 {
        law_escaped_paths_come_back(s.skip(1), special);
        if special(s[0]) {
            assert(e[0] == '\\');
            assert(e.skip(1)[0] == s[0]);
            assert(e.skip(1).skip(1) =~= escaped(s.skip(1), special));
            assert(unescaped(Quote::Unquoted, e) == seq![s[0]] + s.skip(1));
        } else {
            assert(e[0] == s[0]);
            assert(e.skip(1) =~= escaped(s.skip(1), special));
            assert(unescaped(Quote::Unquoted, e) == seq![s[0]] + s.skip(1));
        }
        assert(seq![s[0]] + s.skip(1) =~= s);
    } else {
        assert(unescaped(Quote::Unquoted, e) =~= s);
    }
}

/// What a path that is typed or dropped stands for, apart from file URLs.
pub open spec fn plain_path(raw: Seq<char>, windows: bool) -> Seq<char> {
    if windows {
        unquoted(text::trim(raw))
    } else {
        unescaped(Quote::Unquoted, text::trim(raw))
    }
}

/// What a path that is typed or dropped stands for, apart from file URLs.
fn read_plain_path(raw: &str, windows: bool) -> (r: String)
    ensures
        r@ == plain_path(raw@, windows),
{
    let path = trimmed(raw);
    if windows {
        strip_wrapping_quotes(path.as_str())
    } else {
        unescape_posix_terminal_path(path.as_str())
    }
}

/// The path to use: that of a file URL, if `path` is one, or `path` itself.
pub fn path_of_url(path: String, named: Option<LocalPath>) -> (r: LocalPath)
    ensures
        r@ == match named {
            Some(named) => if text::starts_with(path@, "file://"@) {
                named@
            } else {
                paths::text_path(path@)
            },
            None => paths::text_path(path@),
        },
{
    match named {
        Some(named) => if begins_with(path.as_str(), "file://") {
            named
        } else {
            LocalPath::of_text(path)
        },
        None => LocalPath::of_text(path),
    }
}

/// Whether `path` may be what `raw` stands for: the file that a file URL names,
/// if there is one, and otherwise what is written.
pub open spec fn stands_for(raw: Seq<char>, windows: bool, path: PathView) -> bool {
    let plain = plain_path(raw, windows);
    if text::starts_with(plain, "file://"@) {
        file_url::may_name(plain, windows, Some(path)) || (file_url::may_name(plain, windows, None)
            && path == paths::text_path(plain))
    } else {
        path == paths::text_path(plain)
    }
}

/// What a path that is typed or dropped stands for.
pub fn normalize_terminal_path(raw: &str, windows: bool) -> (r: LocalPath)
    ensures
        stands_for(raw@, windows, r@),
{
    let path = read_plain_path(raw, windows);
    if begins_with(path.as_str(), "file://") {
        let named = file_named(path.as_str(), windows);
        path_of_url(path, named)
    } else {
        LocalPath::of_text(path)
    }
}

// ---------------------------------------------------------------------------
// Typing
// ---------------------------------------------------------------------------
/// A key.
#[derive(Clone, Copy, Debug, PartialEq, Eq, Structural)]
pub enum Key {
    Char(char),
    Enter,
    Esc,
    Backspace,
    Other,
}

/// What happens at the terminal.
#[derive(Debug)]
pub enum TerminalEvent {
    Key { key: Key, control: bool, release: bool },
    Paste(String),
    Other,
}

/// The ghost counterpart of [`TerminalEvent`].
#[verifier::ext_equal]
pub enum TypedView {
    Key { key: Key, control: bool, release: bool },
    Paste(Seq<char>),
    Other,
}

impl View for TerminalEvent {
    type V = TypedView;

    open spec fn view(&self) -> TypedView {
        match *self {
            TerminalEvent::Key { key, control, release } => TypedView::Key {
                key,
                control,
                release,
            },
            TerminalEvent::Paste(text) => TypedView::Paste(text@),
            TerminalEvent::Other => TypedView::Other,
        }
    }
}

/// What is left to do after something was typed.
#[derive(Debug)]
pub enum Submission {
    Nothing,
    /// Start to record.
    StartVoice,
    /// Stop to record.
    StopVoice,
    /// Send the file at this path, if there is one.
    SendPath(LocalPath),
    /// Send the file at this path, if there is one, and otherwise this text.
    Message { path: LocalPath, text: String },
}

/// What is typed into the line: the input once the key has done its work.
/// Nothing comes of a key that is released.
pub open spec fn edited(input: Seq<char>, event: TypedView) -> Seq<char> {
    match event {
        TypedView::Key { key, control, release } => if release {
            input
        } else {
            match key {
                Key::Backspace => if input.len() > 0 {
                    input.drop_last()
                } else {
                    input
                },
                Key::Char(c) => if control {
                    input
                } else {
                    input.push(c)
                },
                _ => input,
            }
        },
        TypedView::Paste(pasted) => input + pasted,
        TypedView::Other => input,
    }
}

/// Whether a key closes the screen.
pub open spec fn quits(event: TypedView) -> bool {
    event matches TypedView::Key { key, control, release } && !release && (key == Key::Esc || (key
        == Key::Char('c') && control))
}

/// Whether a key submits what was typed.
pub open spec fn submits(event: TypedView) -> bool {
    event matches TypedView::Key { key, release, .. } && !release && key == Key::Enter
}

/// The help text.
pub open spec fn help_text() -> Seq<char> {
    "/send <path> · /call · /hangup · /clear · /quit · drag-and-drop a file"@
}

/// The screen once `input` has been submitted; `voice` tells whether there is
/// anything to record with.
pub open spec fn after_submit(screen: AppView, voice: bool) -> AppView {
    let typed = text::trim(screen.input);
    let empty = screen.without_input();
    if typed.len() == 0 {
        empty
    } else if typed == "/quit"@ || typed == "/exit"@ {
        empty.quitting()
    } else if typed == "/help"@ {
        empty.with_notice(help_text(), false)
    } else if typed == "/clear"@ {
        empty.cleared()
    } else if typed == "/call"@ {
        if voice {
            empty
        } else {
            empty.with_notice("voice is disabled or no audio device is available"@, true)
        }
    } else {
        empty
    }
}

/// Whether what was typed is a command of its own, without anything behind it.
pub open spec fn is_command(typed: Seq<char>) -> bool {
    typed == "/quit"@ || typed == "/exit"@ || typed == "/help"@ || typed == "/clear"@ || typed
        == "/call"@ || typed == "/hangup"@
}

/// Whether what is left to do after `typed` was submitted is `submission`.
/// Whatever path a file URL names is left open.
pub open spec fn submitted(
    typed: Seq<char>,
    voice: bool,
    windows: bool,
    submission: Submission,
) -> bool {
    if typed == "/call"@ && voice {
        submission is StartVoice
    } else if typed == "/hangup"@ && voice {
        submission is StopVoice
    } else if text::starts_with(typed, "/send "@) {
        submission matches Submission::SendPath(path) && stands_for(
            typed.skip("/send "@.len() as int),
            windows,
            path@,
        )
    } else if typed.len() > 0 && !is_command(typed) {
        submission matches Submission::Message { path, text } && text@ == typed && stands_for(
            typed,
            windows,
            path@,
        )
    } else {
        submission is Nothing
    }
}

/// A line that begins like a file to send is no other command.
proof fn lemma_send_is_no_command(typed: Seq<char>)
    requires
        text::starts_with(typed, "/send "@),
    ensures
        typed.len() > 0,
        !is_command(typed),
{
    reveal_strlit("/send ");
    reveal_strlit("/quit");
    reveal_strlit("/exit");
    reveal_strlit("/help");
    reveal_strlit("/clear");
    reveal_strlit("/call");
    reveal_strlit("/hangup");
    assert(typed.take(6)[1] == 's');
    assert(typed[1] == 's');
}

/// The commands are all different, and none is empty.
proof fn lemma_commands()
    ensures
        "/quit"@.len() > 0 && "/exit"@.len() > 0 && "/help"@.len() > 0 && "/clear"@.len() > 0
            && "/call"@.len() > 0 && "/hangup"@.len() > 0,
        "/call"@ != "/quit"@ && "/call"@ != "/exit"@ && "/call"@ != "/help"@ && "/call"@
            != "/clear"@ && "/call"@ != "/hangup"@,
        "/hangup"@ != "/quit"@ && "/hangup"@ != "/exit"@ && "/hangup"@ != "/help"@ && "/hangup"@
            != "/clear"@,
{
    reveal_strlit("/quit");
    reveal_strlit("/exit");
    reveal_strlit("/help");
    reveal_strlit("/clear");
    reveal_strlit("/call");
    reveal_strlit("/hangup");
    assert("/call"@[1] == 'c' && "/call"@.len() == 5);
    assert("/hangup"@.len() == 7);
    assert("/quit"@.len() == 5 && "/exit"@.len() == 5 && "/help"@.len() == 5 && "/clear"@.len()
        == 6);
    assert("/quit"@[1] == 'q' && "/exit"@[1] == 'e' && "/help"@[1] == 'h');
}

impl App {
    /// Submits what was typed, and says what is left to do. `voice` tells
    /// whether there is anything to record with.
    pub fn submit_input(&mut self, voice: bool, windows: bool) -> (r: Submission)
        ensures
            final(self)@ == after_submit(old(self)@, voice),
            submitted(text::trim(old(self)@.input), voice, windows, r),
            text::trim(old(self)@.input) == "/quit"@ || text::trim(old(self)@.input) == "/exit"@
                ==> final(self)@.should_quit && r is Nothing,
            text::trim(old(self)@.input) == "/clear"@ ==> final(self)@.entries.len() == 0,
            text::trim(old(self)@.input) == "/help"@ ==> final(self)@.entries.len()
                == old(self)@.entries.len() + 1,
            text::trim(old(self)@.input) == "/call"@ && voice ==> r is StartVoice,
            text::trim(old(self)@.input) == "/hangup"@ && voice ==> r is StopVoice,
            final(self)@.input.len() == 0,
    {
        proof {
            lemma_other_commands();
        }
        let input = trimmed(self.input.as_str());
        let typed = input.as_str();
        self.input = String::new();
        assert(self.input@ =~= Seq::<char>::empty());
        assert(self@ == old(self)@.without_input());
        proof {
            lemma_commands();
            if text::starts_with(typed@, "/send "@) {
                lemma_send_is_no_command(typed@);
            }
        }
        if typed.is_empty() {
            assert(!text::starts_with(typed@, "/send "@));
            Submission::Nothing
        } else if same_text(typed, "/quit") || same_text(typed, "/exit") {
            self.should_quit = true;
            Submission::Nothing
        } else if same_text(typed, "/help") {
            self.push_status(
                "/send <path> · /call · /hangup · /clear · /quit · drag-and-drop a file".to_owned(),
                false,
            );
            Submission::Nothing
        } else if same_text(typed, "/clear") {
            self.entries = Vec::new();
            assert(entries_view(self.entries@) =~= Seq::<EntryView>::empty());
            Submission::Nothing
        } else if same_text(typed, "/call") {
            if voice {
                Submission::StartVoice
            } else {
                self.push_status(
                    "voice is disabled or no audio device is available".to_owned(),
                    true,
                );
                Submission::Nothing
            }
        } else if same_text(typed, "/hangup") {
            if voice {
                Submission::StopVoice
            } else {
                Submission::Nothing
            }
        } else {
            match without_prefix(typed, "/send ") {
                Some(raw) => Submission::SendPath(normalize_terminal_path(raw.as_str(), windows)),
                None => {
                    let path = normalize_terminal_path(typed, windows);
                    Submission::Message { path, text: input }
                },
            }
        }
    }

    /// Takes in what happens at the terminal, and says what is left to do.
    pub fn handle_terminal_event(
        &mut self,
        event: TerminalEvent,
        voice: bool,
        windows: bool,
    ) -> (r: Submission)
        ensures
            if submits(event@) {
                final(self)@ == after_submit(old(self)@, voice) && submitted(
                    text::trim(old(self)@.input),
                    voice,
                    windows,
                    r,
                )
            } else {
                r is Nothing && final(self)@ == (AppView {
                    input: edited(old(self)@.input, event@),
                    should_quit: old(self)@.should_quit || quits(event@),
                    ..old(self)@
                })
            },
    {
        match event {
            TerminalEvent::Key { key, control, release } => {
                if release {
                    return Submission::Nothing;
                }
                match key {
                    Key::Esc => {
                        self.should_quit = true;
                        Submission::Nothing
                    },
                    Key::Enter => self.submit_input(voice, windows),
                    Key::Backspace => {
                        let chars = chars_of(self.input.as_str());
                        if chars.len() > 0 {
                            self.input = string_between(&chars, 0, chars.len() - 1);
                            assert(self.input@ =~= old(self).input@.drop_last());
                        }
                        Submission::Nothing
                    },
                    Key::Char(c) => {
                        if control {
                            if c == 'c' {
                                self.should_quit = true;
                            }
                        } else {
                            self.input.push(c);
                        }
                        Submission::Nothing
                    },
                    Key::Other => Submission::Nothing,
                }
            },
            TerminalEvent::Paste(pasted) => {
                self.input.append(pasted.as_str());
                Submission::Nothing
            },
            TerminalEvent::Other => Submission::Nothing,
        }
    }

    /// Goes on with the path of a file to send, once it is known whether there
    /// is one.
    pub fn send_path(&mut self, path: LocalPath, is_file: bool) -> (r: Option<NetCommand>)
        ensures
            match r {
                Some(command) => is_file && command@ == NetView::SendFile(path@) && final(self)@
                    == old(self)@,
                None => !is_file && final(self)@ == old(self)@.with_notice(
                    "file not found: "@ + path@.shown,
                    true,
                ),
            },
    {
        if is_file {
            Some(NetCommand::SendFile(path))
        } else {
            let mut message = "file not found: ".to_owned();
            message.append(path.shown.as_str());
            self.push_status(message, true);
            None
        }
    }

    /// Goes on with what was typed, once it is known whether it is the path of a
    /// file. The path of a file may begin with a slash, so only what names no
    /// file can be an unknown command.
    pub fn send_message(&mut self, path: LocalPath, text: String, is_file: bool) -> (r: Option<
        NetCommand,
    >)
        ensures
            match r {
                Some(command) => final(self)@ == old(self)@ && command@ == (if is_file {
                    NetView::SendFile(path@)
                } else {
                    NetView::Chat(text@)
                }) && (is_file || !text::starts_with(text@, "/"@)),
                None => !is_file && text::starts_with(text@, "/"@) && final(self)@
                    == old(self)@.with_notice("unknown command: "@ + text@, true),
            },
    {
        if is_file {
            Some(NetCommand::SendFile(path))
        } else if begins_with(text.as_str(), "/") {
            let mut message = "unknown command: ".to_owned();
            message.append(text.as_str());
            self.push_status(message, true);
            None
        } else {
            Some(NetCommand::Chat(text))
        }
    }

    /// Tells that a command could not be handed to the network: `closed` tells
    /// whether it has ended, or is only busy.
    pub fn not_queued(&mut self, closed: bool)
        ensures
            final(self)@ == old(self)@.with_notice(
                if closed {
                    "network connection is closed"@
                } else {
                    "outgoing queue is busy; try again"@
                },
                true,
            ),
    {
        if closed {
            self.push_status("network connection is closed".to_owned(), true);
        } else {
            self.push_status("outgoing queue is busy; try again".to_owned(), true);
        }
    }
}

// ---------------------------------------------------------------------------
// What the user is told
// ---------------------------------------------------------------------------
/// How far a transfer has come, in percent.
pub open spec fn percent(transferred: int, total: int) -> nat {
    let hundredfold = if transferred * 100 > u64::MAX {
        u64::MAX as int
    } else {
        transferred * 100
    };
    (hundredfold / total) as nat
}

/// What the footer says of a transfer: nothing once it is done.
pub open spec fn progress_text(label: Seq<char>, transferred: int, total: int) -> Option<Seq<char>> {
    if transferred >= total {
        None
    } else {
        Some(label + " · "@ + text::decimal(percent(transferred, total)) + "%"@)
    }
}

/// The screen once the user has been told `event`, however long it is.
pub open spec fn told(screen: AppView, event: UiView) -> AppView {
    match event {
        UiView::Ready { secure, detail } => AppView { secure, connection: detail, ..screen },
        UiView::Chat { alias, text: message, mine } => screen.with_entry(
            EntryView {
                label: alias,
                body: message,
                tone: if mine {
                    Tone::Mine
                } else {
                    Tone::Peer
                },
            },
        ),
        UiView::Status(message) => screen.with_notice(message, false),
        UiView::Error(message) => screen.with_notice(message, true),
        UiView::PeerCount(count) => AppView { peers: count, ..screen },
        UiView::FileProgress { label, transferred, total } => AppView {
            progress: progress_text(label, transferred, total),
            ..screen
        },
        UiView::FileReceived { from, path } => (AppView { progress: None, ..screen }).with_notice(
            "file from "@ + from + " saved to "@ + path,
            false,
        ),
        UiView::VoiceStarted(alias) => screen.with_notice(alias + " started voice"@, false),
        UiView::VoiceStopped(alias) => screen.with_notice(alias + " stopped voice"@, false),
        UiView::VoicePcm { .. } => screen,
        UiView::Closed(reason) => (AppView {
            connection: reason,
            secure: false,
            ..screen
        }).with_notice(reason, true),
    }
}

/// The entries that are kept: when there are too many, the oldest are dropped.
pub open spec fn kept_entries(entries: Seq<EntryView>) -> Seq<EntryView> {
    if entries.len() > MAX_ENTRIES {
        entries.skip(DROPPED_ENTRIES as int)
    } else {
        entries
    }
}

/// The screen once the user has been told `event`.
pub open spec fn after_event(screen: AppView, event: UiView) -> AppView {
    let screen = told(screen, event);
    AppView { entries: kept_entries(screen.entries), ..screen }
}

/// What is to be played: a sample rate and samples.
pub struct Playback {
    pub sample_rate: u32,
    pub samples: Vec<i16>,
}

/// How far a transfer has come, in percent.
fn percentage(transferred: u64, total: u64) -> (r: u64)
    requires
        transferred < total,
    ensures
        r == percent(transferred as int, total as int),
{
    let hundredfold = if transferred > u64::MAX / 100 {
        u64::MAX
    } else {
        transferred * 100
    };
    hundredfold / total
}

impl App {
    /// Tells the user something, and hands back what is to be played.
    pub fn handle_ui_event(&mut self, event: UiEvent) -> (r: Option<Playback>)
        ensures
            final(self)@ == after_event(old(self)@, event@),
            event@ matches UiView::Ready { secure, detail } ==> final(self)@.secure == secure
                && final(self)@.connection == detail,
            event@ matches UiView::PeerCount(count) ==> final(self)@.peers == count,
            event@ matches UiView::Closed(reason) ==> !final(self)@.secure
                && final(self)@.connection == reason,
            event@ matches UiView::Chat { alias, text, mine } ==> final(self)@.entries.len() > 0
                && final(self)@.entries.last().label == alias && final(self)@.entries.last().body
                == text,
            match r {
                Some(playback) => event@ == (UiView::VoicePcm {
                    sample_rate: playback.sample_rate,
                    samples: playback.samples@,
                }),
                None => !(event@ is VoicePcm),
            },
    {
        let playback = self.tell(event);
        assert(self.entries@.len() == self@.entries.len());
        if self.entries.len() > MAX_ENTRIES {
            let ghost all = self.entries@;
            self.entries = self.entries.split_off(DROPPED_ENTRIES);
            assert(entries_view(self.entries@) =~= entries_view(all).skip(DROPPED_ENTRIES as int));
        }
        playback
    }

    /// Tells the user something, however long it is.
    fn tell(&mut self, event: UiEvent) -> (r: Option<Playback>)
        ensures
            final(self)@ == told(old(self)@, event@),
            match r {
                Some(playback) => event@ == (UiView::VoicePcm {
                    sample_rate: playback.sample_rate,
                    samples: playback.samples@,
                }),
                None => !(event@ is VoicePcm),
            },
    {
        match event {
            UiEvent::Ready { secure, detail } => {
                self.secure = secure;
                self.connection = detail;
            },
            UiEvent::Chat { alias, text, mine } => {
                let tone = if mine {
                    Tone::Mine
                } else {
                    Tone::Peer
                };
                self.push_entry(alias, text, tone);
            },
            UiEvent::Status(message) => {
                self.push_status(message, false);
            },
            UiEvent::Error(message) => {
                self.push_status(message, true);
            },
            UiEvent::PeerCount(count) => {
                self.peers = count;
            },
            UiEvent::FileProgress { label, transferred, total } => {
                if transferred >= total {
                    self.progress = None;
                } else {
                    let mut line = label;
                    line.append(" · ");
                    line.append(decimal_text(percentage(transferred, total)).as_str());
                    line.append("%");
                    self.progress = Some(line);
                }
            },
            UiEvent::FileReceived { from, path } => {
                self.progress = None;
                let mut message = "file from ".to_owned();
                message.append(from.as_str());
                message.append(" saved to ");
                message.append(path.as_str());
                self.push_status(message, false);
            },
            UiEvent::VoiceStarted(alias) => {
                let mut message = alias;
                message.append(" started voice");
                self.push_status(message, false);
            },
            UiEvent::VoiceStopped(alias) => {
                let mut message = alias;
                message.append(" stopped voice");
                self.push_status(message, false);
            },
            UiEvent::VoicePcm { sample_rate, samples } => {
                return Some(Playback { sample_rate, samples });
            },
            UiEvent::Closed(reason) => {
                self.connection = reason.as_str().to_owned();
                self.secure = false;
                self.push_status(reason, true);
            },
        }
        None
    }
}

/// However much the user is told, the number of entries stays bounded.
pub proof fn law_entries_stay_bounded(screen: AppView, event: UiView)
    requires
        screen.entries.len() <= MAX_ENTRIES,
    ensures
        after_event(screen, event).entries.len() <= MAX_ENTRIES,
{
}

/// Being told something never loses the newest entries: the last entry is the
/// one that was just added, if there was one.
pub proof fn law_the_newest_entry_is_kept(screen: AppView, event: UiView)
    requires
        told(screen, event).entries.len() > 0,
    ensures
        after_event(screen, event).entries.len() > 0,
        after_event(screen, event).entries.last() == told(screen, event).entries.last(),
{
}

// ---------------------------------------------------------------------------
// Drawing
// ---------------------------------------------------------------------------
/// `value` in at most `max` characters, with an ellipsis where something was
/// cut off.
pub open spec fn shortened(value: Seq<char>, max: nat) -> Seq<char> {
    if value.len() > max && max > 1 {
        value.take(max - 1).push('…')
    } else {
        text::head(value, max)
    }
}

/// `value` in at most `max` characters, with an ellipsis where something was
/// cut off.
pub fn truncate(value: &str, max: usize) -> (r: String)
    ensures
        r@ == shortened(value@, max as nat),
{
    let length = chars_of(value).len();
    if length > max && max > 1 {
        let mut out = first_chars(value, max - 1);
        out.push('…');
        out
    } else {
        first_chars(value, max)
    }
}

/// A shortened text is never too long, and a short one is not changed.
pub proof fn law_shortened_texts_fit(value: Seq<char>, max: nat)
    ensures
        shortened(value, max).len() <= max,
        value.len() <= max ==> shortened(value, max) == value,
{
}

/// How the label of an entry is shown.
fn label_text(label: &str) -> (r: String)
    ensures
        r@ == shown_label(label@),
{
    let mut out = " ".to_owned();
    out.append(padded_left(truncate(label, LABEL_WIDTH).as_str(), LABEL_WIDTH).as_str());
    out.append(" ");
    out
}

/// The number of entries that fit into a panel of this height with a border.
pub open spec fn visible_count(height: u16) -> nat {
    if height > 3 {
        (height - 2) as nat
    } else {
        1
    }
}

/// The first entry that is shown of `count` entries: the last ones are.
fn first_visible(count: usize, height: u16) -> (r: usize)
    ensures
        r == if count > visible_count(height) {
            count - visible_count(height)
        } else {
            0
        },
{
    let available: usize = if height > 3 {
        (height - 2) as usize
    } else {
        1
    };
    if count > available {
        count - available
    } else {
        0
    }
}

/// `n`, or the largest number of its type.
pub open spec fn clamp_u16(n: int) -> int {
    if n > u16::MAX {
        u16::MAX as int
    } else {
        n
    }
}

/// The column of the cursor in an input panel that begins in column `left` and
/// ends before column `right`.
pub open spec fn cursor_column(left: u16, right: u16, typed: nat) -> int {
    let wanted = clamp_u16(clamp_u16(left + 2) + typed % 65536);
    let last = if right < 2 {
        0
    } else {
        right - 2
    };
    if wanted < last {
        wanted
    } else {
        last
    }
}

/// The column of the cursor in an input panel that begins in column `left` and
/// ends before column `right`.
pub fn cursor_x(left: u16, right: u16, input: &str) -> (r: u16)
    ensures
        r == cursor_column(left, right, input@.len()),
{
    let typed = (chars_of(input).len() % 65536) as u16;
    let wanted = left.saturating_add(2).saturating_add(typed);
    let last = right.saturating_sub(2);
    if wanted < last {
        wanted
    } else {
        last
    }
}

/// The cursor never leaves the panel.
pub proof fn law_the_cursor_stays_inside(left: u16, right: u16, typed: nat)
    requires
        left + 4 <= right,
    ensures
        left + 2 <= cursor_column(left, right, typed) <= right - 2,
{
}

/// What a piece of text on the screen is drawn with.
#[derive(Clone, Copy, Debug, PartialEq, Eq, Structural)]
pub enum Ink {
    Brand,
    Text,
    Muted,
    Border,
    Accent,
    Peer,
    Warning,
    Error,
}

/// A piece of text on the screen.
#[derive(Debug)]
pub struct Styled {
    pub text: String,
    pub ink: Ink,
    pub bold: bool,
}

/// The ghost counterpart of [`Styled`].
#[verifier::ext_equal]
pub struct StyledView {
    pub text: Seq<char>,
    pub ink: Ink,
    pub bold: bool,
}

impl View for Styled {
    type V = StyledView;

    open spec fn view(&self) -> StyledView {
        StyledView { text: self.text@, ink: self.ink, bold: self.bold }
    }
}

/// The ghost counterpart of a line on the screen.
pub open spec fn line_view(line: Seq<Styled>) -> Seq<StyledView> {
    line.map_values(|piece: Styled| piece@)
}

/// The ghost counterpart of lines on the screen.
pub open spec fn lines_view(lines: Seq<Vec<Styled>>) -> Seq<Seq<StyledView>> {
    lines.map_values(|line: Vec<Styled>| line_view(line@))
}

/// Text that is not bold.
pub open spec fn plain_ink(text: Seq<char>, ink: Ink) -> StyledView {
    StyledView { text, ink, bold: false }
}

/// Text that is not bold.
fn inked(text: String, ink: Ink) -> (r: Styled)
    ensures
        r@ == plain_ink(text@, ink),
{
    Styled { text, ink, bold: false }
}

/// How it is shown whether the room is encrypted.
pub open spec fn security_piece(screen: AppView) -> StyledView {
    if screen.secure {
        plain_ink("● encrypted"@, Ink::Accent)
    } else {
        plain_ink("○ negotiating"@, Ink::Warning)
    }
}

/// How the role of the user and the number of members are shown.
pub open spec fn members_text(screen: AppView) -> Seq<char> {
    "· "@ + (if screen.config.is_host {
        "host"@
    } else {
        "guest"@
    }) + " · "@ + text::decimal(screen.peers as nat) + " peers · "@
}

/// The lines at the top of the screen.
pub open spec fn header_lines(screen: AppView) -> Seq<Seq<StyledView>> {
    seq![
        seq![
            StyledView { text: " AIRWIRE "@, ink: Ink::Brand, bold: true },
            plain_ink("  anonymous rpc chat"@, Ink::Muted),
        ],
        seq![
            plain_ink(" room "@ + screen.config.code + " "@, Ink::Text),
            plain_ink(members_text(screen), Ink::Muted),
            security_piece(screen),
        ],
        seq![plain_ink(" "@ + screen.connection, Ink::Muted)],
    ]
}

/// How the label of an entry is shown.
pub open spec fn shown_label(label: Seq<char>) -> Seq<char> {
    " "@ + text::pad_left(shortened(label, LABEL_WIDTH as nat), LABEL_WIDTH as nat) + " "@
}

/// What the label and the body of an entry are drawn with.
pub open spec fn entry_inks(tone: Tone) -> (Ink, Ink) {
    match tone {
        Tone::Mine => (Ink::Accent, Ink::Text),
        Tone::Peer => (Ink::Peer, Ink::Text),
        Tone::Status => (Ink::Muted, Ink::Muted),
        Tone::Error => (Ink::Error, Ink::Error),
    }
}

/// The line of an entry.
pub open spec fn entry_line(entry: EntryView) -> Seq<StyledView> {
    seq![
        StyledView { text: shown_label(entry.label), ink: entry_inks(entry.tone).0, bold: true },
        plain_ink(entry.body, entry_inks(entry.tone).1),
    ]
}

/// The lines of the entries that fit into a panel of this height with a border:
/// the last ones.
pub open spec fn message_lines(screen: AppView, height: u16) -> Seq<Seq<StyledView>> {
    last_entries(screen.entries, visible_count(height)).map_values(
        |entry: EntryView| entry_line(entry),
    )
}

/// The last `n` entries, or all of them if there are fewer.
pub open spec fn last_entries(entries: Seq<EntryView>, n: nat) -> Seq<EntryView> {
    if entries.len() > n {
        entries.skip(entries.len() - n)
    } else {
        entries
    }
}

/// The line at the bottom of the screen: how a transfer goes, or else where the
/// relay is.
pub open spec fn footer_line(screen: AppView) -> Seq<StyledView> {
    seq![
        plain_ink(" developed by H34TB145T "@, Ink::Muted),
        plain_ink("· "@, Ink::Border),
        plain_ink(
            match screen.progress {
                Some(progress) => progress,
                None => screen.config.relay_display,
            },
            Ink::Muted,
        ),
    ]
}

impl App {
    /// The lines at the top of the screen.
    pub fn header(&self) -> (r: Vec<Vec<Styled>>)
        ensures
            lines_view(r@) == header_lines(self@),
    {
        let mut title: Vec<Styled> = Vec::new();
        title.push(Styled { text: " AIRWIRE ".to_owned(), ink: Ink::Brand, bold: true });
        title.push(inked("  anonymous rpc chat".to_owned(), Ink::Muted));

        let mut room = " room ".to_owned();
        room.append(self.config.code.as_str());
        room.append(" ");
        let mut members = "· ".to_owned();
        if self.config.is_host {
            members.append("host");
        } else {
            members.append("guest");
        }
        members.append(" · ");
        members.append(decimal_text(self.peers as u64).as_str());
        members.append(" peers · ");
        let security = if self.secure {
            inked("● encrypted".to_owned(), Ink::Accent)
        } else {
            inked("○ negotiating".to_owned(), Ink::Warning)
        };
        let mut state: Vec<Styled> = Vec::new();
        state.push(inked(room, Ink::Text));
        state.push(inked(members, Ink::Muted));
        state.push(security);

        let mut detail = " ".to_owned();
        detail.append(self.connection.as_str());
        let mut connection: Vec<Styled> = Vec::new();
        connection.push(inked(detail, Ink::Muted));

        let ghost wanted = header_lines(self@);
        assert(line_view(title@) =~= wanted[0]);
        assert(line_view(state@) =~= wanted[1]);
        assert(line_view(connection@) =~= wanted[2]);
        let mut lines: Vec<Vec<Styled>> = Vec::new();
        lines.push(title);
        lines.push(state);
        lines.push(connection);
        assert(lines_view(lines@) =~= wanted);
        lines
    }

    /// The lines of the entries that fit into a panel of this height with a
    /// border.
    pub fn messages(&self, height: u16) -> (r: Vec<Vec<Styled>>)
        ensures
            lines_view(r@) == message_lines(self@, height),
    {
        let first = first_visible(self.entries.len(), height);
        let ghost shown = last_entries(self@.entries, visible_count(height));
        assert(shown.len() == self.entries@.len() - first);
        let mut lines: Vec<Vec<Styled>> = Vec::new();
        let mut i: usize = first;
        while i < self.entries.len()
            invariant
                first <= i <= self.entries@.len(),
                shown == last_entries(self@.entries, visible_count(height)),
                shown.len() == self.entries@.len() - first,
                lines@.len() == i - first,
                forall|k: int|
                    0 <= k < lines@.len() ==> line_view(#[trigger] lines@[k]@) == entry_line(
                        shown[k],
                    ),
            decreases self.entries@.len() - i,
        {
            assert(shown[i - first] == self.entries@[i as int]@);
            lines.push(styled_entry(&self.entries[i]));
            i += 1;
        }
        assert(lines_view(lines@) =~= message_lines(self@, height));
        lines
    }

    /// The line at the bottom of the screen.
    pub fn footer(&self) -> (r: Vec<Styled>)
        ensures
            line_view(r@) == footer_line(self@),
    {
        let relay = match &self.progress {
            Some(progress) => progress.as_str().to_owned(),
            None => self.config.relay_display.as_str().to_owned(),
        };
        let mut line: Vec<Styled> = Vec::new();
        line.push(inked(" developed by H34TB145T ".to_owned(), Ink::Muted));
        line.push(inked("· ".to_owned(), Ink::Border));
        line.push(inked(relay, Ink::Muted));
        assert(line_view(line@) =~= footer_line(self@));
        line
    }

    /// How the input is shown.
    pub fn input_text(&self) -> (r: String)
        ensures
            r@ == "› "@ + self@.input,
    {
        let mut out = "› ".to_owned();
        out.append(self.input.as_str());
        out
    }

    /// What the border of the input is drawn with.
    pub fn input_border(&self) -> (r: Ink)
        ensures
            r == if self@.secure {
                Ink::Accent
            } else {
                Ink::Border
            },
    {
        if self.secure {
            Ink::Accent
        } else {
            Ink::Border
        }
    }
}

/// The line of an entry.
fn styled_entry(entry: &Entry) -> (r: Vec<Styled>)
    ensures
        line_view(r@) == entry_line(entry@),
{
    let (label_ink, body_ink) = match entry.tone {
        Tone::Mine => (Ink::Accent, Ink::Text),
        Tone::Peer => (Ink::Peer, Ink::Text),
        Tone::Status => (Ink::Muted, Ink::Muted),
        Tone::Error => (Ink::Error, Ink::Error),
    };
    let mut line: Vec<Styled> = Vec::new();
    line.push(Styled { text: label_text(entry.label.as_str()), ink: label_ink, bold: true });
    line.push(inked(entry.body.as_str().to_owned(), body_ink));
    assert(line_view(line@) =~= entry_line(entry@));
    line
}

/// The newest entry is always on the screen.
pub proof fn law_the_newest_entry_is_shown(screen: AppView, height: u16)
    requires
        screen.entries.len() > 0,
    ensures
        message_lines(screen, height).len() > 0,
        message_lines(screen, height).last() == entry_line(screen.entries.last()),
{
}

// ---------------------------------------------------------------------------
// What the commands do
// ---------------------------------------------------------------------------
/// Every command does what it says, whatever blanks are typed around it: `/quit`
/// and `/exit` close the screen, `/clear` empties it, `/help` adds one entry, and
/// `/call` complains if there is nothing to record with. Whatever is submitted,
/// the line is empty afterwards.
pub proof fn law_commands_are_obeyed(screen: AppView, voice: bool)
    ensures
        ({
            let typed = text::trim(screen.input);
            let after = after_submit(screen, voice);
            &&& after.input.len() == 0
            &&& typed == "/quit"@ || typed == "/exit"@ ==> after.should_quit
            &&& typed == "/clear"@ ==> after.entries.len() == 0
            &&& typed == "/help"@ ==> after.entries == screen.entries.push(
                EntryView {
                    label: "system"@,
                    body: "/send <path> · /call · /hangup · /clear · /quit · drag-and-drop a file"@,
                    tone: Tone::Status,
                },
            )
            &&& typed == "/call"@ && !voice ==> after.entries == screen.entries.push(
                EntryView {
                    label: "error"@,
                    body: "voice is disabled or no audio device is available"@,
                    tone: Tone::Error,
                },
            )
            &&& typed == "/call"@ && voice ==> after.entries == screen.entries
        }),
{
    lemma_commands();
    lemma_other_commands();
}

/// Nothing else closes the screen or touches what is on it: only `/quit` and
/// `/exit` close it, and only `/clear`, `/help` and a `/call` in vain change the
/// entries; the room, the connection and the count of members are never touched.
pub proof fn law_other_lines_leave_the_screen(screen: AppView, voice: bool)
    ensures
        ({
            let typed = text::trim(screen.input);
            let after = after_submit(screen, voice);
            &&& after.should_quit ==> screen.should_quit || typed == "/quit"@ || typed == "/exit"@
            &&& screen.should_quit ==> after.should_quit
            &&& typed != "/clear"@ && typed != "/help"@ && typed != "/call"@ ==> after.entries
                == screen.entries
            &&& after.config == screen.config && after.connection == screen.connection
                && after.secure == screen.secure && after.peers == screen.peers && after.progress
                == screen.progress
        }),
{
    lemma_commands();
    lemma_other_commands();
}

/// The remaining commands are different, too.
proof fn lemma_other_commands()
    ensures
        "/help"@ != "/quit"@ && "/help"@ != "/exit"@ && "/help"@ != "/clear"@,
        "/clear"@ != "/quit"@ && "/clear"@ != "/exit"@,
{
    reveal_strlit("/quit");
    reveal_strlit("/exit");
    reveal_strlit("/help");
    reveal_strlit("/clear");
    assert("/help"@[1] == 'h' && "/quit"@[1] == 'q' && "/exit"@[1] == 'e');
    assert("/clear"@.len() == 6 && "/quit"@.len() == 5 && "/exit"@.len() == 5 && "/help"@.len()
        == 5);
}

/// With something to record, `/call` starts a call and `/hangup` ends it; `/send`
/// sends the file behind it; any other line with something in it is sent as a
/// message or as the file it names; and the commands that concern only the
/// screen send nothing.
pub proof fn law_lines_lead_to_what_they_ask(
    typed: Seq<char>,
    voice: bool,
    windows: bool,
    rest: Seq<char>,
    submission: Submission,
)
    requires
        submitted(typed, voice, windows, submission),
    ensures
        typed == "/call"@ ==> if voice {
            submission is StartVoice
        } else {
            submission is Nothing
        },
        typed == "/hangup"@ ==> if voice {
            submission is StopVoice
        } else {
            submission is Nothing
        },
        typed == "/send "@ + rest ==> (submission matches Submission::SendPath(path) && stands_for(
            rest,
            windows,
            path@,
        )),
        typed == "/quit"@ || typed == "/exit"@ || typed == "/help"@ || typed == "/clear"@
            || typed.len() == 0 ==> submission is Nothing,
        typed.len() > 0 && typed[0] != '/' ==> (submission matches Submission::Message {
            path,
            text,
        } && text@ == typed && stands_for(typed, windows, path@)),
        submission is StartVoice ==> typed == "/call"@ && voice,
        submission is StopVoice ==> typed == "/hangup"@ && voice,
{
    lemma_commands();
    lemma_other_commands();
    reveal_strlit("/send ");
    reveal_strlit("/quit");
    reveal_strlit("/exit");
    reveal_strlit("/help");
    reveal_strlit("/clear");
    reveal_strlit("/call");
    reveal_strlit("/hangup");
    if text::starts_with(typed, "/send "@) {
        lemma_send_is_no_command(typed);
        assert(typed.take(6)[0] == '/');
    }
    if typed == "/send "@ + rest {
        assert(typed.take(6) =~= "/send "@);
        assert(typed.skip(6) =~= rest);
        lemma_send_is_no_command(typed);
    }
}

/// A line is typed character by character: every character that is typed or
/// pasted comes last, the last one goes with a backspace, and nothing comes of a
/// key that is released or of a control character.
pub proof fn law_typing_fills_the_line(input: Seq<char>, c: char, pasted: Seq<char>, event: TypedView)
    ensures
        edited(
            input,
            TypedView::Key { key: Key::Char(c), control: false, release: false },
        ) == input.push(c),
        edited(input, TypedView::Paste(pasted)) == input + pasted,
        edited(
            input.push(c),
            TypedView::Key { key: Key::Backspace, control: false, release: false },
        ) == input,
        edited(
            Seq::<char>::empty(),
            TypedView::Key { key: Key::Backspace, control: false, release: false },
        ) == Seq::<char>::empty(),
        event matches TypedView::Key { key, control, release } ==> release || (control
            && key is Char) || key is Enter || key is Esc || key is Other ==> edited(input, event)
            == input,
{
    assert(input.push(c).drop_last() =~= input);
}

/// Escape and control-C close the screen when they are pressed, and nothing else
/// does; Enter alone submits the line.
pub proof fn law_keys_close_and_submit(event: TypedView)
    ensures
        quits(event) <==> (event matches TypedView::Key { key, control, release } && !release && (
        key is Esc || (control && key == Key::Char('c')))),
        submits(event) <==> (event matches TypedView::Key { key, release, .. } && !release
            && key is Enter),
        !(quits(event) && submits(event)),
{
}

// ---------------------------------------------------------------------------
// What the user is told, by law
// ---------------------------------------------------------------------------
/// The screen says what the room says of itself: whether it is encrypted, where
/// the connection stands and how many members there are. When the room is
/// closed, it is not encrypted any more, and the reason stands on the screen.
pub proof fn law_the_state_of_the_room_is_told(
    screen: AppView,
    secure: bool,
    detail: Seq<char>,
    count: usize,
)
    ensures
        after_event(screen, UiView::Ready { secure, detail }).secure == secure,
        after_event(screen, UiView::Ready { secure, detail }).connection == detail,
        after_event(screen, UiView::PeerCount(count)).peers == count,
        after_event(screen, UiView::PeerCount(count)).secure == screen.secure,
        after_event(screen, UiView::Ready { secure, detail }).peers == screen.peers,
        !after_event(screen, UiView::Closed(detail)).secure,
        after_event(screen, UiView::Closed(detail)).connection == detail,
        screen.entries.len() <= 2000 ==> after_event(screen, UiView::Closed(detail)).entries.last()
            == (EntryView { label: "error"@, body: detail, tone: Tone::Error }),
{
}

/// Everything that is said is added to the screen, under the name of who said it
/// and word for word, and the user's own words are told apart from those of
/// others.
pub proof fn law_what_is_said_is_shown(
    screen: AppView,
    alias: Seq<char>,
    message: Seq<char>,
    mine: bool,
)
    requires
        screen.entries.len() < 2000,
    ensures
        after_event(screen, UiView::Chat { alias, text: message, mine }).entries
            == screen.entries.push(
            EntryView {
                label: alias,
                body: message,
                tone: if mine {
                    Tone::Mine
                } else {
                    Tone::Peer
                },
            },
        ),
        after_event(screen, UiView::Status(message)).entries == screen.entries.push(
            EntryView { label: "system"@, body: message, tone: Tone::Status },
        ),
        after_event(screen, UiView::Error(message)).entries == screen.entries.push(
            EntryView { label: "error"@, body: message, tone: Tone::Error },
        ),
        after_event(screen, UiView::VoiceStarted(alias)).entries == screen.entries.push(
            EntryView { label: "system"@, body: alias + " started voice"@, tone: Tone::Status },
        ),
        after_event(screen, UiView::VoiceStopped(alias)).entries == screen.entries.push(
            EntryView { label: "system"@, body: alias + " stopped voice"@, tone: Tone::Status },
        ),
        after_event(screen, UiView::FileReceived { from: alias, path: message }).entries
            == screen.entries.push(
            EntryView {
                label: "system"@,
                body: "file from "@ + alias + " saved to "@ + message,
                tone: Tone::Status,
            },
        ),
{
}

/// Being told something changes no more of the screen than that: nothing is
/// taken out of the line that is being typed, nothing closes the screen, only
/// the state of the room changes the state that is shown, and only files change
/// the progress.
pub proof fn law_events_change_no_more_than_they_say(screen: AppView, event: UiView)
    ensures
        ({
            let after = after_event(screen, event);
            &&& after.input == screen.input && after.should_quit == screen.should_quit
                && after.config == screen.config
            &&& !(event is Ready || event is Closed) ==> after.secure == screen.secure
                && after.connection == screen.connection
            &&& !(event is PeerCount) ==> after.peers == screen.peers
            &&& !(event is FileProgress || event is FileReceived) ==> after.progress
                == screen.progress
            &&& (event is Ready || event is PeerCount || event is FileProgress || event is VoicePcm)
                && screen.entries.len() <= 2000 ==> after.entries == screen.entries
        }),
{
}

/// When there are more than two thousand entries, the five hundred oldest go, and
/// all others stay in their order; before that none goes.
pub proof fn law_the_oldest_entries_go(entries: Seq<EntryView>, i: int)
    ensures
        entries.len() <= 2000 ==> kept_entries(entries) == entries,
        entries.len() > 2000 ==> kept_entries(entries).len() == entries.len() - 500,
        entries.len() > 2000 && 500 <= i < entries.len() ==> kept_entries(entries)[i - 500]
            == entries[i],
{
}

/// The footer says how far a file has come, in whole percent rounded down, until
/// it is there; then, and when a file has been received, it says nothing of it.
pub proof fn law_progress_is_shown(
    screen: AppView,
    label: Seq<char>,
    transferred: int,
    total: int,
    path: Seq<char>,
)
    requires
        0 <= transferred,
        total <= 0x2000_0000,
    ensures
        transferred >= total ==> after_event(
            screen,
            UiView::FileProgress { label, transferred, total },
        ).progress is None,
        transferred < total ==> after_event(
            screen,
            UiView::FileProgress { label, transferred, total },
        ).progress == Some(
            label + " · "@ + text::decimal(percent(transferred, total)) + "%"@,
        ),
        transferred < total ==> percent(transferred, total) < 100 && percent(transferred, total)
            * total <= transferred * 100 < (percent(transferred, total) + 1) * total,
        after_event(screen, UiView::FileReceived { from: label, path }).progress is None,
{
    if transferred < total {
        let q = transferred * 100 / total;
        assert(q * total <= transferred * 100 < (q + 1) * total && 0 <= q < 100) by (nonlinear_arith)
            requires
                0 <= transferred < total,
                q == transferred * 100 / total,
        ;
    }
}

/// The first thing on the screen is a greeting, and an invitation stands below it
/// word for word if there is one.
pub proof fn law_invitations_are_shown_first(message: Seq<char>)
    ensures
        first_entries(None).len() == 1,
        first_entries(Some(message)).len() == 2,
        first_entries(Some(message))[0] == first_entries(None)[0],
        first_entries(Some(message))[1] == (EntryView {
            label: "share"@,
            body: message,
            tone: Tone::Status,
        }),
        first_entries(None)[0] == (EntryView {
            label: "airwire"@,
            body: "Type /help for commands. Drag a file into this terminal to send it."@,
            tone: Tone::Status,
        }),
{
}

/// The top of the screen says which room it is, in which role the user is there
/// with how many members, whether the room is encrypted, and where the
/// connection stands.
pub proof fn law_the_header_tells_the_state(screen: AppView)
    ensures
        ({
            let lines = header_lines(screen);
            &&& lines.len() == 3 && lines[0].len() == 2 && lines[1].len() == 3 && lines[2].len() == 1
            &&& lines[0][0].text == " AIRWIRE "@ && lines[0][0].bold && lines[0][1].text
                == "  anonymous rpc chat"@
            &&& lines[1][0].text == " room "@ + screen.config.code + " "@
            &&& lines[1][1].text == "· "@ + (if screen.config.is_host {
                "host"@
            } else {
                "guest"@
            }) + " · "@ + text::decimal(screen.peers as nat) + " peers · "@
            &&& screen.secure ==> lines[1][2] == (StyledView {
                text: "● encrypted"@,
                ink: Ink::Accent,
                bold: false,
            })
            &&& !screen.secure ==> lines[1][2] == (StyledView {
                text: "○ negotiating"@,
                ink: Ink::Warning,
                bold: false,
            })
            &&& lines[2][0].text == " "@ + screen.connection
            &&& lines[0][0].ink == Ink::Brand && lines[0][1].ink == Ink::Muted && lines[1][0].ink
                == Ink::Text && lines[1][1].ink == Ink::Muted && lines[2][0].ink == Ink::Muted
        }),
{
}

/// Every entry that fits is on the screen, the newest last, with its words as they
/// are behind its label; the label is cut or padded to ten characters, and the
/// colours tell the user's own words, those of others, notices and errors apart.
pub proof fn law_entries_are_drawn(screen: AppView, height: u16, i: int, a: Tone, b: Tone)
    requires
        0 <= i < screen.entries.len(),
    ensures
        ({
            let lines = message_lines(screen, height);
            let n = screen.entries.len() as int;
            let room = if height > 3 {
                height - 2
            } else {
                1
            };
            &&& lines.len() == if n < room {
                n
            } else {
                room
            }
            &&& i >= n - lines.len() ==> {
                let line = lines[i - (n - lines.len())];
                line.len() == 2 && line[1].text == screen.entries[i].body && line[0].bold
                    && !line[1].bold && line[0].ink == entry_inks(screen.entries[i].tone).0
                    && line[1].ink == entry_inks(screen.entries[i].tone).1 && line[0].text == " "@
                    + text::pad_left(shortened(screen.entries[i].label, 10), 10) + " "@
            }
            &&& a != b ==> entry_inks(a).0 != entry_inks(b).0
            &&& entry_inks(Tone::Mine) == (Ink::Accent, Ink::Text)
            &&& entry_inks(Tone::Peer) == (Ink::Peer, Ink::Text)
            &&& entry_inks(Tone::Status) == (Ink::Muted, Ink::Muted)
            &&& entry_inks(Tone::Error) == (Ink::Error, Ink::Error)
        }),
{
}

/// The bottom of the screen says how a transfer goes while there is one, and
/// otherwise where the relay is.
pub proof fn law_the_footer_tells_the_progress(screen: AppView)
    ensures
        footer_line(screen).len() == 3,
        screen.progress matches Some(progress) ==> footer_line(screen)[2].text == progress,
        screen.progress is None ==> footer_line(screen)[2].text == screen.config.relay_display,
        footer_line(screen)[0].text == " developed by H34TB145T "@,
        footer_line(screen)[1].text == "· "@,
        footer_line(screen)[0].ink == Ink::Muted && footer_line(screen)[1].ink == Ink::Border
            && footer_line(screen)[2].ink == Ink::Muted,
{
}

/// A text that is cut begins as the whole does and ends with an ellipsis.
pub proof fn law_shortened_texts_show_it(value: Seq<char>, max: nat, i: int)
    requires
        value.len() > max,
        max > 1,
    ensures
        shortened(value, max).len() == max,
        shortened(value, max).last() == '…',
        0 <= i < max - 1 ==> shortened(value, max)[i] == value[i],
{
}

/// The cursor stands two columns into the panel, and one further for every
/// character typed, as long as there is room.
pub proof fn law_the_cursor_follows_the_line(left: u16, right: u16, typed: nat)
    requires
        left + 2 + typed <= right - 2,
    ensures
        cursor_column(left, right, typed) == left + 2 + typed,
{
}

/// Quotes around a path go if they are the same on both sides, and nothing else
/// of it changes.
pub proof fn law_wrapping_quotes_go(s: Seq<char>, quote: char)
    ensures
        quote == '"' || quote == '\'' ==> unquoted(seq![quote] + s + seq![quote]) == s,
        s.len() < 2 || s.first() != s.last() || (s.first() != '"' && s.first() != '\'')
            ==> unquoted(s) == s,
{
    let wrapped = seq![quote] + s + seq![quote];
    assert(wrapped.subrange(1, wrapped.len() - 1) =~= s);
}

/// Text in quotes stands for itself: single quotes keep everything but
/// themselves, and double quotes everything but themselves and backslashes.
pub proof fn law_quoted_words_are_kept(s: Seq<char>, quote: char)
    requires
        quote == '\'' || quote == '"',
        !s.contains(quote),
        quote == '"' ==> !s.contains('\\'),
    ensures
        unescaped(Quote::Unquoted, seq![quote] + s + seq![quote]) == s,
{
    let word = seq![quote] + s + seq![quote];
    let inner = if quote == '"' {
        Quote::Double
    } else {
        Quote::Single
    };
    assert(word.skip(1) =~= s + seq![quote]);
    lemma_inside_quotes(s, quote);
}

/// What stands in quotes is kept up to the quote that ends them.
proof fn lemma_inside_quotes(s: Seq<char>, quote: char)
    requires
        quote == '\'' || quote == '"',
        !s.contains(quote),
        quote == '"' ==> !s.contains('\\'),
    ensures
        unescaped(
            if quote == '"' {
                Quote::Double
            } else {
                Quote::Single
            },
            s + seq![quote],
        ) == s,
    decreases s.len(),
{
    let inner = if quote == '"' {
        Quote::Double
    } else {
        Quote::Single
    };
    let whole = s + seq![quote];
    if s.len() == 0 {
        assert(whole[0] == quote);
        assert(whole.skip(1) =~= Seq::<char>::empty());
        assert(unescaped(Quote::Unquoted, whole.skip(1)) =~= Seq::<char>::empty());
        assert(unescaped(inner, whole) =~= s);
    } else {
        let rest = s.skip(1);
        assert(s.contains(s[0]));
        assert forall|c: char| rest.contains(c) implies s.contains(c) by {
            let i = choose|i: int| 0 <= i < rest.len() && rest[i] == c;
            assert(s[i + 1] == c);
        }
        assert(whole.skip(1) =~= rest + seq![quote]);
        lemma_inside_quotes(rest, quote);
        assert(seq![s[0]] + rest =~= s);
        assert(unescaped(inner, whole) =~= s);
    }
}

/// A path without quotes and backslashes stands for itself, whatever blanks are
/// typed around it; on Windows only the quotes around it count.
pub proof fn law_plain_paths_are_kept(raw: Seq<char>)
    requires
        !raw.contains('\'') && !raw.contains('"') && !raw.contains('\\'),
    ensures
        plain_path(raw, false) == text::trim(raw),
        plain_path(raw, true) == text::trim(raw),
{
    text::law_trimmed_texts_are_bare(raw);
    let (a, b) = choose|a: int, b: int|
        0 <= a <= b <= raw.len() && text::trim(raw) == #[trigger] raw.subrange(a, b) && (forall|
            i: int,
        |
            0 <= i < a || b <= i < raw.len() ==> text::is_whitespace(#[trigger] raw[i]));
    let path = text::trim(raw);
    assert forall|c: char| path.contains(c) implies raw.contains(c) by {
        let i = choose|i: int| 0 <= i < path.len() && path[i] == c;
        assert(raw[a + i] == c);
    }
    if path.len() > 0 {
        assert(path.contains(path[0]));
    }
    lemma_nothing_to_unescape(path);
}

/// A word without quotes and backslashes stands for itself.
proof fn lemma_nothing_to_unescape(s: Seq<char>)
    requires
        !s.contains('\'') && !s.contains('"') && !s.contains('\\'),
    ensures
        unescaped(Quote::Unquoted, s) == s,
    decreases s.len(),
{
    if s.len() > 0 {
        let rest = s.skip(1);
        assert(s.contains(s[0]));
        assert forall|c: char| rest.contains(c) implies s.contains(c) by {
            let i = choose|i: int| 0 <= i < rest.len() && rest[i] == c;
            assert(s[i + 1] == c);
        }
        lemma_nothing_to_unescape(rest);
        assert(seq![s[0]] + rest =~= s);
    } else {
        assert(unescaped(Quote::Unquoted, s) =~= s);
    }
}

/// What is typed or dropped and is no file URL is the path that it is written as.
pub proof fn law_paths_stand_for_themselves(raw: Seq<char>, windows: bool, path: PathView)
    requires
        !text::starts_with(plain_path(raw, windows), "file://"@),
    ensures
        stands_for(raw, windows, path) <==> path.shown == plain_path(raw, windows) && path.bytes
            == vstd::utf8::encode_utf8(plain_path(raw, windows)),
{
}

/// The cursor follows what is typed up to the edge of the panel, and begins again
/// after sixty-five thousand five hundred and thirty-six characters.
pub proof fn law_the_cursor_begins_again(left: u16, right: u16, typed: nat)
    requires
        2 <= right,
        typed < 65536,
    ensures
        cursor_column(left, right, typed + 65536) == cursor_column(left, right, typed),
        left + 2 + typed <= right - 2 ==> cursor_column(left, right, typed) == left + 2 + typed,
        left + 2 + typed > right - 2 ==> cursor_column(left, right, typed) == right - 2,
{
}

/// Outside quotes, a backslash makes the character behind it stand for itself,
/// except on Windows, where backslashes separate folders and are kept.
pub proof fn law_backslashes_escape_or_separate(c: char, rest: Seq<char>)
    requires
        !rest.contains('\'') && !rest.contains('"') && !rest.contains('\\'),
        rest.len() > 0 ==> !text::is_whitespace(rest[rest.len() - 1]),
        !text::is_whitespace(c),
    ensures
        plain_path(seq!['\\', c] + rest, false) == seq![c] + rest,
        plain_path(seq!['\\', c] + rest, true) == seq!['\\', c] + rest,
{
    let raw = seq!['\\', c] + rest;
    let front = text::trim_start(raw);
    assert(raw.first() == '\\');
    assert(front == raw);
    assert(!text::is_whitespace(raw.last())) by {
        if rest.len() == 0 {
            assert(raw.last() == c);
        } else {
            assert(raw.last() == rest[rest.len() - 1]);
        }
    }
    assert(text::trim(raw) == raw);
    assert(raw.skip(1) =~= seq![c] + rest);
    assert(raw.skip(2) =~= rest);
    assert(raw.skip(1).skip(1) =~= rest);
    assert(raw[0] == '\\' && raw[1] == c);
    lemma_nothing_to_unescape(rest);
    reveal_with_fuel(unescaped, 3);
    assert(unescaped(Quote::Unquoted, raw) =~= seq![c] + rest);
}

/// Progress is the whole percentage that has been reached; a hundred times what
/// came in counts as the largest 64-bit number where it is larger.
pub proof fn law_percentages_are_rounded_down(transferred: int, total: int)
    requires
        0 <= transferred,
        0 < total,
    ensures
        transferred * 100 <= 18446744073709551615 ==> percent(transferred, total) * total
            <= transferred * 100 < (percent(transferred, total) + 1) * total,
        transferred * 100 > 18446744073709551615 ==> percent(transferred, total) * total
            <= 18446744073709551615 < (percent(transferred, total) + 1) * total,
{
    let whole = if transferred * 100 > 18446744073709551615 {
        18446744073709551615
    } else {
        transferred * 100
    };
    let p = whole / total;
    vstd::arithmetic::div_mod::lemma_fundamental_div_mod(whole, total);
    assert(0 <= p) by (nonlinear_arith)
        requires
            p == whole / total,
            0 <= whole,
            0 < total,
    ;
    assert(percent(transferred, total) == p);
    assert(p * total == total * p) by (nonlinear_arith);
    assert((p + 1) * total == p * total + total) by (nonlinear_arith);
}

} // verus!

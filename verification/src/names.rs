//! Names that are safe to show and to store: files, aliases and sizes.

use vstd::prelude::*;

use crate::paths;
use crate::paths::in_plain_form;
use crate::protocol;
use crate::protocol::{hex_encode, PeerId};
use crate::text;
use crate::text::{
    blank, chars_of, control_char, decimal_text, same_text, string_between, string_of,
};

verus! {

broadcast use vstd::seq_lib::group_seq_properties;

/// The longest alias, in characters.
pub const MAX_ALIAS_CHARS: usize = 32;

/// The longest file name, in characters.
pub const MAX_NAME_CHARS: usize = 180;

/// The number of the last name that is tried for a received file.
pub const LAST_NAME_NUMBER: u64 = 9999;

// ---------------------------------------------------------------------------
// The parts of a path
// ---------------------------------------------------------------------------
/// What follows the last `c` in `s`, or all of `s` if there is none.
pub open spec fn after_last(s: Seq<char>, c: char) -> Seq<char>
    decreases s.len(),
{
    if s.len() == 0 || s.last() == c {
        seq![]
    } else {
        after_last(s.drop_last(), c).push(s.last())
    }
}

/// `after_last` is a suffix without `c`, and a `c` stands before it unless it
/// is all of `s`.
proof fn lemma_after_last(s: Seq<char>, c: char)
    ensures
        after_last(s, c).len() <= s.len(),
        after_last(s, c) == s.skip(s.len() - after_last(s, c).len()),
        !after_last(s, c).contains(c),
        after_last(s, c).len() < s.len() ==> s[s.len() - after_last(s, c).len() - 1] == c,
    decreases s.len(),
{
    if s.len() == 0 || s.last() == c {
        assert(after_last(s, c) =~= s.skip(s.len() as int));
    } else {
        let front = s.drop_last();
        lemma_after_last(front, c);
        let a = after_last(front, c);
        assert(after_last(s, c) == a.push(s.last()));
        assert(a.push(s.last()) =~= s.skip(s.len() - a.len() - 1));
        assert forall|i: int| 0 <= i < a.len() + 1 implies a.push(s.last())[i] != c by {
            if i < a.len() {
                assert(a.contains(a[i]));
            }
        }
        if a.len() + 1 < s.len() {
            assert(front[front.len() - a.len() - 1] == c);
        }
    }
}

/// A text without any `c` is its own last part.
proof fn lemma_after_last_of_all(s: Seq<char>, c: char)
    requires
        !s.contains(c),
    ensures
        after_last(s, c) == s,
    decreases s.len(),
{
    if s.len() > 0 {
        assert(s.contains(s.last()));
        assert forall|x: char| s.drop_last().contains(x) implies s.contains(x) by {
            let i = choose|i: int| 0 <= i < s.len() - 1 && s.drop_last()[i] == x;
            assert(s[i] == x);
        }
        lemma_after_last_of_all(s.drop_last(), c);
        assert(after_last(s, c) =~= s);
    } else {
        assert(after_last(s, c) =~= s);
    }
}

/// The index at which the last part of `chars[..end]`, cut at every `c`,
/// begins.
fn last_part_start(chars: &Vec<char>, end: usize, c: char) -> (r: usize)
    requires
        end <= chars@.len(),
    ensures
        r == end - after_last(chars@.take(end as int), c).len(),
        r <= end,
{
    let ghost s = chars@.take(end as int);
    let mut i: usize = end;
    while i > 0 && chars[i - 1] != c
        invariant
            i <= end <= chars@.len(),
            s == chars@.take(end as int),
            after_last(s, c).len() == after_last(s.take(i as int), c).len() + (end - i),
        decreases i,
    {
        assert(s.take(i as int).drop_last() =~= s.take(i - 1));
        assert(s.take(i as int).last() == chars@[i - 1]);
        i -= 1;
    }
    proof {
        if i > 0 {
            assert(s.take(i as int).last() == chars@[i - 1]);
        }
    }
    i
}

/// The last part of a path whose parts are separated by `c`. Empty parts and `.`
/// at the end do not count; in a verbatim path `.` does. There is none if
/// nothing else is left, or if the last part is `.` or `..`.
pub open spec fn file_name(path: Seq<char>, c: char, verbatim: bool) -> Option<Seq<char>>
    decreases path.len(),
{
    let last = after_last(path, c);
    if last.len() == 0 || (last == seq!['.'] && !verbatim) {
        if last.len() >= path.len() {
            None
        } else {
            file_name(path.take(path.len() - last.len() - 1), c, verbatim)
        }
    } else if last == seq!['.'] || last == seq!['.', '.'] {
        None
    } else {
        Some(last)
    }
}

/// The last part of a path. On Windows, `\` separates the parts of a path too,
/// and a drive, a device or a share in front of a path is none of them.
pub open spec fn leaf(path: Seq<char>, windows: bool) -> Option<Seq<char>> {
    let (parts, c, verbatim) = paths::plain_form(path, windows);
    file_name(parts, c, verbatim)
}

/// The last part of a path.
pub fn leaf_of(path: &str, windows: bool) -> (r: Option<String>)
    ensures
        match r {
            Some(last) => leaf(path@, windows) == Some(last@),
            None => leaf(path@, windows) is None,
        },
{
    let plain = in_plain_form(path, windows);
    last_part(plain.text.as_str(), plain.separator, plain.verbatim)
}

/// The last part of a path whose parts are separated by `c`.
fn last_part(path: &str, c: char, verbatim: bool) -> (r: Option<String>)
    ensures
        match r {
            Some(last) => file_name(path@, c, verbatim) == Some(last@),
            None => file_name(path@, c, verbatim) is None,
        },
{
    let chars = chars_of(path);
    let mut end: usize = chars.len();
    assert(path@.take(end as int) =~= path@);
    loop
        invariant
            end <= chars@.len(),
            chars@ == path@,
            file_name(path@, c, verbatim) == file_name(path@.take(end as int), c, verbatim),
        decreases end,
    {
        let ghost cur = path@.take(end as int);
        let start = last_part_start(&chars, end, c);
        let last = string_between(&chars, start, end);
        proof {
            lemma_after_last(cur, c);
            assert(last@ =~= after_last(cur, c));
            reveal_strlit(".");
            reveal_strlit("..");
            assert("."@ =~= seq!['.']);
            assert(".."@ =~= seq!['.', '.']);
        }
        if start == end || (same_text(last.as_str(), ".") && !verbatim) {
            if start == 0 {
                return None;
            }
            assert(cur.take(start - 1) =~= path@.take(start - 1));
            end = start - 1;
        } else if same_text(last.as_str(), ".") || same_text(last.as_str(), "..") {
            return None;
        } else {
            return Some(last);
        }
    }
}

/// A file name without its extension: what stands before the last dot, unless
/// the name begins with that dot or has none.
pub open spec fn stem(name: Seq<char>) -> Seq<char> {
    let ext = after_last(name, '.');
    if ext.len() + 1 >= name.len() || name == seq!['.', '.'] {
        name
    } else {
        name.take(name.len() - ext.len() - 1)
    }
}

/// The extension of a file name: what stands after the last dot, unless the
/// name begins with that dot or has none.
pub open spec fn extension(name: Seq<char>) -> Option<Seq<char>> {
    let ext = after_last(name, '.');
    if ext.len() + 1 >= name.len() || name == seq!['.', '.'] {
        None
    } else {
        Some(ext)
    }
}

/// A file name without its extension, and the extension.
pub fn split_extension(name: &str) -> (r: (String, Option<String>))
    ensures
        r.0@ == stem(name@),
        match r.1 {
            Some(ext) => extension(name@) == Some(ext@),
            None => extension(name@) is None,
        },
{
    let chars = chars_of(name);
    assert(name@.take(name@.len() as int) =~= name@);
    let start = last_part_start(&chars, chars.len(), '.');
    proof {
        lemma_after_last(name@, '.');
        reveal_strlit("..");
        assert(".."@ =~= seq!['.', '.']);
    }
    if start <= 1 || same_text(name, "..") {
        (string_of(&chars), None)
    } else {
        let base = string_between(&chars, 0, start - 1);
        let ext = string_between(&chars, start, chars.len());
        assert(base@ =~= stem(name@));
        assert(ext@ =~= after_last(name@, '.'));
        (base, Some(ext))
    }
}

/// A name with a stem and an extension is the two with a dot between them.
pub proof fn law_stem_and_extension_make_the_name(name: Seq<char>)
    ensures
        match extension(name) {
            Some(ext) => name == stem(name) + seq!['.'] + ext && !ext.contains('.') && stem(
                name,
            ).len() > 0,
            None => stem(name) == name,
        },
{
    lemma_after_last(name, '.');
    if let Some(ext) = extension(name) {
        assert(name =~= stem(name) + seq!['.'] + ext);
    }
}

// ---------------------------------------------------------------------------
// Received names
// ---------------------------------------------------------------------------
/// What may not stand in a file name: control characters, path separators and
/// the colon.
pub open spec fn is_forbidden(c: char) -> bool {
    text::is_control(c) || c == '/' || c == '\\' || c == ':' || c == '\0'
}

/// `s` with every forbidden character replaced by `_`.
pub open spec fn without_forbidden(s: Seq<char>) -> Seq<char> {
    s.map_values(
        |c: char|
            if is_forbidden(c) {
                '_'
            } else {
                c
            },
    )
}

/// The name under which a file that was offered as `name` may be stored.
pub open spec fn sanitized(name: Seq<char>, windows: bool) -> Seq<char> {
    let leaf = match leaf(name, windows) {
        Some(leaf) => leaf,
        None => "attachment"@,
    };
    let cleaned = text::head(without_forbidden(leaf), MAX_NAME_CHARS as nat);
    if cleaned.len() == 0 || cleaned == seq!['.'] || cleaned == seq!['.', '.'] {
        "attachment"@
    } else {
        cleaned
    }
}

/// A name that names a file in the directory it is looked up in, and nothing
/// else.
pub open spec fn stays_in_directory(name: Seq<char>) -> bool {
    &&& name.len() > 0
    &&& name != seq!['.'] && name != seq!['.', '.']
    &&& forall|i: int| 0 <= i < name.len() ==> !is_forbidden(#[trigger] name[i])
}

/// A name under which a received file may be stored: it stays in its directory
/// and is not too long.
pub open spec fn is_safe_name(name: Seq<char>) -> bool {
    stays_in_directory(name) && name.len() <= MAX_NAME_CHARS
}

/// The name under which a file that was offered as `name` may be stored.
pub fn sanitize_filename(name: &str, windows: bool) -> (r: String)
    ensures
        r@ == sanitized(name@, windows),
{
    let leaf = match leaf_of(name, windows) {
        Some(leaf) => leaf,
        None => "attachment".to_owned(),
    };
    let chars = chars_of(leaf.as_str());
    let mut out = String::new();
    let mut i: usize = 0;
    while i < chars.len() && i < MAX_NAME_CHARS
        invariant
            i <= chars@.len(),
            i <= MAX_NAME_CHARS,
            chars@ == leaf@,
            out@ == without_forbidden(leaf@).take(i as int),
        decreases chars@.len() - i,
    {
        let c = chars[i];
        let clean = if control_char(c) || c == '/' || c == '\\' || c == ':' || c == '\0' {
            '_'
        } else {
            c
        };
        out.push(clean);
        i += 1;
        assert(out@ =~= without_forbidden(leaf@).take(i as int));
    }
    proof {
        assert(out@ =~= text::head(without_forbidden(leaf@), MAX_NAME_CHARS as nat));
        reveal_strlit(".");
        reveal_strlit("..");
        assert("."@ =~= seq!['.']);
        assert(".."@ =~= seq!['.', '.']);
    }
    if out.as_str().is_empty() || same_text(out.as_str(), ".") || same_text(out.as_str(), "..") {
        "attachment".to_owned()
    } else {
        out
    }
}

/// Whatever name a file is offered under, the name it is stored under is safe.
pub proof fn law_sanitized_names_are_safe(name: Seq<char>, windows: bool)
    ensures
        is_safe_name(sanitized(name, windows)),
{
    reveal_strlit("attachment");
    let leaf = match leaf(name, windows) {
        Some(leaf) => leaf,
        None => "attachment"@,
    };
    let cleaned = text::head(without_forbidden(leaf), MAX_NAME_CHARS as nat);
    assert forall|i: int| 0 <= i < cleaned.len() implies !is_forbidden(#[trigger] cleaned[i]) by {
        assert(cleaned[i] == without_forbidden(leaf)[i]);
    }
    assert(cleaned.len() <= MAX_NAME_CHARS);
    assert(is_safe_name("attachment"@)) by {
        assert("attachment"@.len() == 10);
        assert("attachment"@[2] == 't');
    }
}

/// A safe name is stored as it is.
pub proof fn law_safe_names_are_kept(name: Seq<char>, windows: bool)
    requires
        is_safe_name(name),
    ensures
        sanitized(name, windows) == name,
{
    assert(!name.contains('\\') && !name.contains('/') && !name.contains(':'));
    paths::lemma_plain_names(name);
    assert(name.skip(0) =~= name);
    text::lemma_nothing_replaced(name, '\\', "/"@);
    lemma_after_last_of_all(name, '/');
    assert(leaf(name, windows) == Some(name));
    assert(without_forbidden(name) =~= name);
}

/// The name that is tried in the `number`th place for a file that should be
/// called `name`.
pub open spec fn numbered_name(name: Seq<char>, number: nat) -> Seq<char> {
    if number == 0 {
        name
    } else {
        let base = stem(name) + " ("@ + text::decimal(number);
        match extension(name) {
            Some(ext) => base + ")."@ + ext,
            None => base + ")"@,
        }
    }
}

/// The name that is tried in the `number`th place for a file that should be
/// called `name`.
pub fn candidate_name(name: &str, number: u64) -> (r: String)
    ensures
        r@ == numbered_name(name@, number as nat),
{
    if number == 0 {
        return name.to_owned();
    }
    let (base, ext) = split_extension(name);
    let mut out = base;
    out.append(" (");
    out.append(decimal_text(number).as_str());
    match ext {
        Some(ext) => {
            out.append(").");
            out.append(ext.as_str());
        },
        None => {
            out.append(")");
        },
    }
    out
}

/// What stands between the number and the end of a numbered name.
spec fn number_tail(name: Seq<char>) -> Seq<char> {
    match extension(name) {
        Some(ext) => ")."@ + ext,
        None => ")"@,
    }
}

/// No two places in the search for a name try the same one.
pub proof fn law_numbered_names_differ(name: Seq<char>, a: nat, b: nat)
    requires
        a != b,
    ensures
        numbered_name(name, a) != numbered_name(name, b),
{
    let lead = stem(name) + " ("@;
    let tail = number_tail(name);
    let x = text::decimal(a);
    let y = text::decimal(b);
    law_stem_and_extension_make_the_name(name);
    assert forall|n: nat| n > 0 implies #[trigger] numbered_name(name, n) == lead + text::decimal(n)
        + tail by {
        assert(numbered_name(name, n) =~= lead + text::decimal(n) + tail);
    }
    assert(tail.len() > 0) by {
        reveal_strlit(")");
        reveal_strlit(").");
    }
    assert(lead.len() == stem(name).len() + 2) by {
        reveal_strlit(" (");
    }
    assert(name.len() + 1 <= stem(name).len() + tail.len()) by {
        reveal_strlit(")");
        reveal_strlit(").");
    }
    if a > 0 && b > 0 && numbered_name(name, a) == numbered_name(name, b) {
        let whole = lead + x + tail;
        assert(x =~= whole.subrange(lead.len() as int, whole.len() - tail.len()));
        assert(y =~= (lead + y + tail).subrange(
            lead.len() as int,
            (lead + y + tail).len() - tail.len(),
        ));
        assert(x == y);
        text::lemma_decimal_injective(a, b);
    }
}

/// A safe name with a number stays in its directory.
pub proof fn law_numbered_names_stay_in_directory(name: Seq<char>, number: nat)
    requires
        is_safe_name(name),
    ensures
        stays_in_directory(numbered_name(name, number)),
{
    if number > 0 {
        let chosen = numbered_name(name, number);
        law_stem_and_extension_make_the_name(name);
        text::lemma_decimal_digits(number);
        reveal_strlit(" (");
        reveal_strlit(")");
        reveal_strlit(").");
        let lead = stem(name) + " ("@;
        let x = text::decimal(number);
        let tail = number_tail(name);
        assert(chosen =~= lead + x + tail);
        assert(chosen.len() > 2);
        assert forall|i: int| 0 <= i < chosen.len() implies !is_forbidden(#[trigger] chosen[i]) by {
            if i < stem(name).len() {
                assert(chosen[i] == name[i]);
            } else if i < lead.len() {
                assert(chosen[i] == " ("@[i - stem(name).len()]);
            } else if i < lead.len() + x.len() {
                assert(chosen[i] == x[i - lead.len()]);
            } else {
                let k = i - lead.len() - x.len();
                assert(chosen[i] == tail[k]);
                if let Some(ext) = extension(name) {
                    if k >= 2 {
                        assert(tail[k] == ext[k - 2]);
                        assert(ext[k - 2] == name[stem(name).len() + 1 + (k - 2)]);
                    }
                }
            }
        }
    }
}

/// The name of the file into which a transfer is written until it is complete.
pub open spec fn partial(name: Seq<char>, id: Seq<u8>, windows: bool) -> Seq<char> {
    "."@ + sanitized(name, windows) + "."@ + protocol::hex(id) + ".airwire-part"@
}

/// The name of the file into which a transfer is written until it is complete.
pub fn partial_name(name: &str, id: &[u8; 16], windows: bool) -> (r: String)
    ensures
        r@ == partial(name@, id@, windows),
{
    let mut out = ".".to_owned();
    out.append(sanitize_filename(name, windows).as_str());
    out.append(".");
    out.append(hex_encode(id).as_str());
    out.append(".airwire-part");
    out
}

/// Every character that stands for bytes in hexadecimal may stand in a name.
proof fn lemma_hex_is_allowed(bytes: Seq<u8>)
    ensures
        forall|i: int|
            0 <= i < protocol::hex(bytes).len() ==> !is_forbidden(#[trigger] protocol::hex(bytes)[i]),
    decreases bytes.len(),
{
    if bytes.len() > 0 {
        lemma_hex_is_allowed(bytes.drop_last());
        lemma_hex_digit_is_allowed(bytes.last() as int / 16);
        lemma_hex_digit_is_allowed(bytes.last() as int % 16);
        let front = protocol::hex(bytes.drop_last());
        assert forall|i: int| 0 <= i < protocol::hex(bytes).len() implies !is_forbidden(
            #[trigger] protocol::hex(bytes)[i],
        ) by {
            if i < front.len() {
                assert(protocol::hex(bytes)[i] == front[i]);
            }
        }
    }
}

/// A hexadecimal digit may stand in a name.
proof fn lemma_hex_digit_is_allowed(d: int)
    requires
        0 <= d < 16,
    ensures
        !is_forbidden(protocol::hex_digit(d)),
{
    if d < 10 {
        assert('0' <= protocol::hex_digit(d) <= '9');
    } else {
        assert('a' <= protocol::hex_digit(d) <= 'f');
    }
}

/// Whatever name a file is offered under, the file into which it is written
/// stays in its directory.
pub proof fn law_partial_names_stay_in_directory(name: Seq<char>, id: Seq<u8>, windows: bool)
    ensures
        stays_in_directory(partial(name, id, windows)),
{
    let chosen = partial(name, id, windows);
    let middle = sanitized(name, windows);
    let digits = protocol::hex(id);
    law_sanitized_names_are_safe(name, windows);
    lemma_hex_is_allowed(id);
    reveal_strlit(".");
    reveal_strlit(".airwire-part");
    assert(chosen.len() > 2);
    assert forall|i: int| 0 <= i < chosen.len() implies !is_forbidden(#[trigger] chosen[i]) by {
        let k = 1 + middle.len();
        if i == 0 || i == k {
            assert(chosen[i] == '.');
        } else if i < k {
            assert(chosen[i] == middle[i - 1]);
        } else if i < k + 1 + digits.len() {
            assert(chosen[i] == digits[i - k - 1]);
        } else {
            assert(chosen[i] == ".airwire-part"@[i - k - 1 - digits.len()]);
        }
    }
}

/// The name that is used when every numbered name is taken stays in its
/// directory too.
pub proof fn law_fallback_names_stay_in_directory(name: Seq<char>, chosen: Seq<char>)
    requires
        is_safe_name(name),
        is_fallback_name(name, chosen),
    ensures
        stays_in_directory(chosen),
{
    let id = choose|id: PeerId| chosen == #[trigger] protocol::hex(id.0@.take(3)) + "-"@ + name;
    let digits = protocol::hex(id.0@.take(3));
    lemma_hex_is_allowed(id.0@.take(3));
    reveal_strlit("-");
    assert(chosen[digits.len() as int] == '-');
    assert forall|i: int| 0 <= i < chosen.len() implies !is_forbidden(#[trigger] chosen[i]) by {
        if i < digits.len() {
            assert(chosen[i] == digits[i]);
        } else if i > digits.len() {
            assert(chosen[i] == name[i - digits.len() - 1]);
        }
    }
}

/// The name that is used when every numbered name is taken: the short form of
/// a random identifier, a hyphen and the name.
pub open spec fn is_fallback_name(name: Seq<char>, chosen: Seq<char>) -> bool {
    exists|id: PeerId| chosen == #[trigger] protocol::hex(id.0@.take(3)) + "-"@ + name
}

/// A fresh name for when every numbered name is taken. Which identifier is
/// drawn is left open.
fn fallback_name(name: &str) -> (r: String)
    ensures
        is_fallback_name(name@, r@),
{
    let id = PeerId::random();
    let mut out = id.short();
    out.append("-");
    out.append(name);
    assert(out@ == protocol::hex(id.0@.take(3)) + "-"@ + name@);
    out
}

/// The search for a name that is not taken.
pub struct NameSearch {
    name: String,
    number: u64,
}

/// What a search comes to after one name has been looked up.
pub enum NameStep {
    /// This name is to be used.
    Use(String),
    /// The search goes on.
    Try(NameSearch),
}

impl NameSearch {
    /// The name that should be used if it is free.
    pub closed spec fn wanted(self) -> Seq<char> {
        self.name@
    }

    /// The number of the name that is looked up next.
    pub closed spec fn number(self) -> nat {
        self.number as nat
    }

    /// The numbers stay in range.
    pub open spec fn wf(self) -> bool {
        self.number() <= LAST_NAME_NUMBER
    }

    /// A search for a file that should be called `name`.
    pub fn new(name: &str) -> (r: NameSearch)
        ensures
            r.wf(),
            r.wanted() == name@,
            r.number() == 0,
    {
        NameSearch { name: name.to_owned(), number: 0 }
    }

    /// The name that is to be looked up now.
    pub fn candidate(&self) -> (r: String)
        ensures
            r@ == numbered_name(self.wanted(), self.number()),
    {
        candidate_name(self.name.as_str(), self.number)
    }

    /// Goes on once the candidate has been looked up. A free candidate is used;
    /// a taken one makes way for the next, and the last for a random name. So the
    /// search ends as [`found`] says, whatever names are taken.
    pub fn step(self, taken: bool) -> (r: NameStep)
        requires
            self.wf(),
        ensures
            match r {
                NameStep::Use(chosen) => if taken {
                    self.number() == LAST_NAME_NUMBER && is_fallback_name(self.wanted(), chosen@)
                } else {
                    chosen@ == numbered_name(self.wanted(), self.number())
                },
                NameStep::Try(next) => taken && self.number() < LAST_NAME_NUMBER && next.wf()
                    && next.wanted() == self.wanted() && next.number() == self.number() + 1,
            },
            forall|lookup: spec_fn(nat) -> bool|
                lookup(self.number()) == taken ==> match r {
                    NameStep::Use(chosen) => match #[trigger] found(lookup, self.number()) {
                        Some(n) => chosen@ == numbered_name(self.wanted(), n),
                        None => is_fallback_name(self.wanted(), chosen@),
                    },
                    NameStep::Try(next) => found(lookup, next.number()) == found(
                        lookup,
                        self.number(),
                    ),
                },
    {
        if !taken {
            NameStep::Use(self.candidate())
        } else if self.number >= LAST_NAME_NUMBER {
            NameStep::Use(fallback_name(self.name.as_str()))
        } else {
            NameStep::Try(NameSearch { name: self.name, number: self.number + 1 })
        }
    }
}

/// What a search that has come to the name with the number `number` ends with:
/// the number of the name that is used, or none if every name is taken. `taken`
/// tells which are.
pub open spec fn found(taken: spec_fn(nat) -> bool, number: nat) -> Option<nat>
    decreases LAST_NAME_NUMBER - number,
{
    if !taken(number) {
        Some(number)
    } else if number >= LAST_NAME_NUMBER {
        None
    } else {
        found(taken, number + 1)
    }
}

/// The first free name is used, and a random one only if every name is taken.
pub proof fn law_the_first_free_name_is_used(taken: spec_fn(nat) -> bool, number: nat)
    requires
        number <= LAST_NAME_NUMBER,
    ensures
        match found(taken, number) {
            Some(n) => number <= n <= LAST_NAME_NUMBER && !taken(n) && forall|j: nat|
                number <= j < n ==> #[trigger] taken(j),
            None => forall|j: nat| number <= j <= LAST_NAME_NUMBER ==> #[trigger] taken(j),
        },
    decreases LAST_NAME_NUMBER - number,
{
    if taken(number) && number < LAST_NAME_NUMBER {
        law_the_first_free_name_is_used(taken, number + 1);
    }
}

// ---------------------------------------------------------------------------
// Aliases
// ---------------------------------------------------------------------------
/// `s` without control characters.
pub open spec fn without_controls(s: Seq<char>) -> Seq<char> {
    s.filter(|c: char| !text::is_control(c))
}

/// `alias`, or a stand-in if there is nothing to see in it.
pub open spec fn or_anonymous(alias: Seq<char>) -> Seq<char> {
    if text::is_blank(alias) {
        "anonymous"@
    } else {
        alias
    }
}

/// How the alias of someone else is shown.
pub open spec fn shown_alias(alias: Seq<char>) -> Seq<char> {
    or_anonymous(text::head(without_controls(alias), MAX_ALIAS_CHARS as nat))
}

/// `alias`, or a stand-in if there is nothing to see in it.
pub fn visible_alias(alias: String) -> (r: String)
    ensures
        r@ == or_anonymous(alias@),
{
    if blank(alias.as_str()) {
        "anonymous".to_owned()
    } else {
        alias
    }
}

/// How the alias of someone else is shown: no control characters, no more than
/// thirty-two characters, and never blank.
pub fn clean_alias(alias: &str) -> (r: String)
    ensures
        r@ == shown_alias(alias@),
{
    let chars = chars_of(alias);
    let ghost keep = |c: char| !text::is_control(c);
    let mut kept: Vec<char> = Vec::new();
    let mut i: usize = 0;
    assert(alias@.take(0).filter(keep) =~= seq![]) by {
        reveal(Seq::filter);
    }
    while i < chars.len()
        invariant
            i <= chars@.len(),
            chars@ == alias@,
            keep == (|c: char| !text::is_control(c)),
            kept@ == alias@.take(i as int).filter(keep),
        decreases chars@.len() - i,
    {
        assert(alias@.take(i + 1).drop_last() =~= alias@.take(i as int));
        assert(alias@.take(i + 1).last() == chars@[i as int]);
        assert(alias@.take(i + 1).filter(keep) == {
            let front = alias@.take(i as int).filter(keep);
            if keep(chars@[i as int]) {
                front.push(chars@[i as int])
            } else {
                front
            }
        }) by {
            reveal(Seq::filter);
        }
        if !control_char(chars[i]) {
            kept.push(chars[i]);
        }
        i += 1;
    }
    assert(alias@.take(alias@.len() as int) =~= alias@);
    let end = if kept.len() < MAX_ALIAS_CHARS {
        kept.len()
    } else {
        MAX_ALIAS_CHARS
    };
    let short = string_between(&kept, 0, end);
    assert(short@ =~= text::head(without_controls(alias@), MAX_ALIAS_CHARS as nat));
    visible_alias(short)
}

// ---------------------------------------------------------------------------
// Sizes
// ---------------------------------------------------------------------------
/// `n / d` rounded to the nearest whole number; halves go to the even one.
pub open spec fn rounded_quotient(n: nat, d: nat) -> nat {
    let q = n / d;
    let r = n % d;
    if 2 * r > d || (2 * r == d && q % 2 == 1) {
        q + 1
    } else {
        q
    }
}

/// The distance between neighbouring double-precision numbers at `n`, if that
/// is more than one.
pub open spec fn spacing(n: nat) -> nat
    decreases n,
{
    if n < 9007199254740992 {
        1
    } else {
        2 * spacing(n / 2)
    }
}

/// The double-precision number nearest to `n`.
pub open spec fn as_double(n: nat) -> nat {
    rounded_quotient(n, spacing(n)) * spacing(n)
}

/// The bytes in the unit in which a size of `n` bytes is shown.
pub open spec fn unit_bytes(n: nat) -> nat {
    if n < 1024 {
        1
    } else if n < 1048576 {
        1024
    } else if n < 1073741824 {
        1048576
    } else {
        1073741824
    }
}

/// The name of the unit in which a size of `n` bytes is shown.
pub open spec fn unit_name(n: nat) -> Seq<char> {
    if n < 1024 {
        " B"@
    } else if n < 1048576 {
        " KiB"@
    } else if n < 1073741824 {
        " MiB"@
    } else {
        " GiB"@
    }
}

/// A size for people to read: with one decimal place, in the largest unit that
/// is not larger than the size.
pub open spec fn readable_size(n: nat) -> Seq<char> {
    let tenths = rounded_quotient(as_double(n) * 10, unit_bytes(as_double(n)));
    text::decimal(tenths / 10) + "."@ + text::decimal(tenths % 10) + unit_name(as_double(n))
}

/// `n / d` rounded to the nearest whole number; halves go to the even one.
fn round_quotient(n: u128, d: u128) -> (r: u128)
    requires
        0 < d <= 0xffff_ffff_ffff,
        n <= 0xffff_ffff_ffff_ffff_ffff,
    ensures
        r == rounded_quotient(n as nat, d as nat),
        r <= n / d + 1,
{
    let q = n / d;
    let r = n % d;
    assert(q <= n) by (nonlinear_arith)
        requires
            q == n / d,
            d >= 1,
    ;
    if 2 * r > d || (2 * r == d && q % 2 == 1) {
        q + 1
    } else {
        q
    }
}

/// The double-precision number nearest to `n`.
fn nearest_double(n: u64) -> (r: u128)
    ensures
        r == as_double(n as nat),
        r <= 0x1_0000_0000_0000_0000,
{
    let mut gap: u64 = 1;
    let mut rest: u64 = n;
    while rest >= 9007199254740992
        invariant
            spacing(n as nat) == gap * spacing(rest as nat),
            gap >= 1,
            gap * rest <= n,
            n < gap * (rest + 1),
        decreases rest,
    {
        let half = rest / 2;
        proof {
            let s = spacing(half as nat);
            assert(spacing(rest as nat) == 2 * s);
            assert(gap * (2 * s) == (2 * gap) * s) by (nonlinear_arith);
            assert((2 * gap) * half <= n && n < (2 * gap) * (half + 1) && 2 * gap <= n)
                by (nonlinear_arith)
                requires
                    gap * rest <= n,
                    n < gap * (rest + 1),
                    2 * half <= rest <= 2 * half + 1,
                    rest >= 2,
                    gap >= 1,
            ;
        }
        gap = 2 * gap;
        rest = half;
    }
    proof {
        assert(gap * spacing(rest as nat) == gap) by (nonlinear_arith)
            requires
                spacing(rest as nat) == 1,
        ;
        if n >= 9007199254740992 {
            lemma_spacing_bound(n as nat);
        }
    }
    assert(gap <= 2048);
    let q = round_quotient(n as u128, gap as u128);
    proof {
        assert(n as u128 / gap as u128 == rest) by {
            assert(n == rest * gap + (n - gap * rest) && n - gap * rest < gap) by (nonlinear_arith)
                requires
                    n < gap * (rest + 1),
            ;
            vstd::arithmetic::div_mod::lemma_fundamental_div_mod_converse(
                n as int,
                gap as int,
                rest as int,
                n - gap * rest,
            );
        }
        assert(q <= rest + 1);
        assert(q * gap <= 0x1_0000_0000_0000_0000) by (nonlinear_arith)
            requires
                q <= rest + 1,
                rest + 1 <= 9007199254740992,
                gap <= 2048,
        ;
    }
    q * (gap as u128)
}

/// The spacing of 64-bit numbers is at most 2048.
proof fn lemma_spacing_bound(n: nat)
    requires
        n <= u64::MAX,
    ensures
        spacing(n) <= 2048,
{
    reveal_with_fuel(spacing, 13);
}

/// A size for people to read: with one decimal place, in the largest unit that
/// is not larger than the size.
pub fn human_bytes(bytes: u64) -> (r: String)
    ensures
        r@ == readable_size(bytes as nat),
{
    let value = nearest_double(bytes);
    let unit: u128 = if value < 1024 {
        1
    } else if value < 1048576 {
        1024
    } else if value < 1073741824 {
        1048576
    } else {
        1073741824
    };
    let tenths = round_quotient(value * 10, unit);
    proof {
        assert(tenths <= 0xffff_ffff_ffff) by {
            assert((value * 10) / unit as int <= 0x10_0000_0000_00) by (nonlinear_arith)
                requires
                    value <= 0x1_0000_0000_0000_0000,
                    unit >= 1,
                    unit == 1073741824 || value < 1073741824,
            ;
        }
    }
    let mut out = decimal_text((tenths / 10) as u64);
    out.append(".");
    out.append(decimal_text((tenths % 10) as u64).as_str());
    if value < 1024 {
        out.append(" B");
    } else if value < 1048576 {
        out.append(" KiB");
    } else if value < 1073741824 {
        out.append(" MiB");
    } else {
        out.append(" GiB");
    }
    out
}

// ---------------------------------------------------------------------------
// Laws
// ---------------------------------------------------------------------------
/// What stands behind the last `c` is what follows it.
proof fn lemma_after_the_last(front: Seq<char>, c: char, back: Seq<char>)
    requires
        !back.contains(c),
    ensures
        after_last(front + seq![c] + back, c) == back,
    decreases back.len(),
{
    let s = front + seq![c] + back;
    if back.len() > 0 {
        let less = back.drop_last();
        assert forall|x: char| less.contains(x) implies back.contains(x) by {
            let i = choose|i: int| 0 <= i < less.len() && less[i] == x;
            assert(back[i] == x);
        }
        lemma_after_the_last(front, c, less);
        assert(s.drop_last() =~= front + seq![c] + less);
        assert(back.contains(back.last()));
        assert(less.push(back.last()) =~= back);
    } else {
        assert(s.last() == c);
        assert(after_last(s, c) =~= back);
    }
}

/// The extension of a file name stands behind its last dot, and the stem before
/// it. A name without a dot has no extension, and neither has one whose only dot
/// stands in front.
pub proof fn law_extensions_stand_behind_the_last_dot(base: Seq<char>, ext: Seq<char>)
    requires
        base.len() > 0,
        !ext.contains('.'),
    ensures
        ext.len() > 0 ==> extension(base + seq!['.'] + ext) == Some(ext) && stem(
            base + seq!['.'] + ext,
        ) == base,
        extension(ext) is None && stem(ext) == ext,
        extension(seq!['.'] + ext) is None && stem(seq!['.'] + ext) == seq!['.'] + ext,
        extension(seq!['.', '.']) is None,
{
    let name = base + seq!['.'] + ext;
    lemma_after_the_last(base, '.', ext);
    lemma_after_the_last(Seq::empty(), '.', ext);
    assert(Seq::<char>::empty() + seq!['.'] + ext =~= seq!['.'] + ext);
    lemma_after_last_of_all(ext, '.');
    if ext.len() > 0 {
        assert(ext.contains(ext[ext.len() - 1]));
        assert(name[name.len() - 1] == ext[ext.len() - 1]);
        if name == seq!['.', '.'] {
            assert(name[1] == '.');
        }
        assert(name.take(name.len() - ext.len() - 1) =~= base);
    }
}

/// On Unix, a file is named by the last part of its path, whatever folders stand
/// before it; a slash at the end, or a slash and a dot, changes nothing, and a path
/// that leads upwards names no file.
pub proof fn law_paths_name_files(folder: Seq<char>, name: Seq<char>)
    requires
        name.len() > 0,
        !name.contains('/'),
        name != seq!['.'] && name != seq!['.', '.'],
    ensures
        leaf(name, false) == Some(name),
        leaf(folder + seq!['/'] + name, false) == Some(name),
        leaf(folder + seq!['/'], false) == leaf(folder, false),
        leaf(folder + seq!['/', '.'], false) == leaf(folder, false),
        leaf(folder + seq!['/', '.', '.'], false) is None,
        leaf(Seq::empty(), false) is None,
{
    let none = Seq::<char>::empty();
    lemma_after_last_of_all(name, '/');
    lemma_after_the_last(folder, '/', name);
    lemma_after_the_last(folder, '/', none);
    lemma_after_the_last(folder, '/', seq!['.']);
    lemma_after_the_last(folder, '/', seq!['.', '.']);
    assert(folder + seq!['/'] + none =~= folder + seq!['/']);
    assert(folder + seq!['/'] + seq!['.'] =~= folder + seq!['/', '.']);
    assert(folder + seq!['/'] + seq!['.', '.'] =~= folder + seq!['/', '.', '.']);
    assert((folder + seq!['/']).take(folder.len() as int) =~= folder);
    assert((folder + seq!['/', '.']).take(folder.len() as int) =~= folder);
    assert(seq!['.', '.'] != seq!['.']) by {
        assert(seq!['.', '.'].len() == 2 && seq!['.'].len() == 1);
    }
    lemma_after_last_of_all(none, '/');
}

/// The last part of a path is never empty and leads nowhere else.
proof fn lemma_last_parts_are_names(path: Seq<char>, c: char, verbatim: bool)
    ensures
        file_name(path, c, verbatim) matches Some(last) ==> last.len() > 0 && last != seq!['.']
            && last != seq!['.', '.'] && last.len() <= path.len() && !last.contains(c),
    decreases path.len(),
{
    let last = after_last(path, c);
    lemma_after_last(path, c);
    if (last.len() == 0 || (last == seq!['.'] && !verbatim)) && last.len() < path.len() {
        lemma_last_parts_are_names(path.take(path.len() - last.len() - 1), c, verbatim);
    }
}

/// An offered file is stored under the last part of the name it was offered
/// under: character for character, up to the hundred-and-eightieth, with an
/// underscore for each one that may not stand in a name. What has no such part is
/// called an attachment.
pub proof fn law_stored_names_resemble_offered_ones(name: Seq<char>, windows: bool, i: int)
    ensures
        match leaf(name, windows) {
            None => sanitized(name, windows) == "attachment"@,
            Some(last) => sanitized(name, windows).len() == (if last.len() < 180 {
                last.len()
            } else {
                180
            }) && (0 <= i < sanitized(name, windows).len() ==> sanitized(name, windows)[i] == (if (
            last[i] as int) < 32 || 127 <= last[i] as int <= 159 || last[i] == '/' || last[i]
                == '\\' || last[i] == ':' {
                '_'
            } else {
                last[i]
            })),
        },
{
    reveal_strlit("attachment");
    match leaf(name, windows) {
        Some(last) => {
            let (parts, c, verbatim) = paths::plain_form(name, windows);
            lemma_last_parts_are_names(parts, c, verbatim);
            let cleaned = text::head(without_forbidden(last), 180);
            if cleaned == seq!['.'] {
                assert(cleaned[0] == '.');
                assert(last =~= seq!['.']);
            }
            if cleaned == seq!['.', '.'] {
                assert(cleaned[0] == '.' && cleaned[1] == '.');
                assert(last =~= seq!['.', '.']);
            }
        },
        None => {
            let stand_in = "attachment"@;
            assert(text::head(without_forbidden(stand_in), 180) =~= stand_in);
        },
    }
}

/// The first name that is tried is the one that is wanted; further ones have their
/// number in brackets behind the stem.
pub proof fn law_names_are_numbered(base: Seq<char>, ext: Seq<char>, number: nat)
    requires
        base.len() > 0,
        !ext.contains('.'),
    ensures
        numbered_name(base, 0) == base,
        number > 0 && ext.len() > 0 ==> numbered_name(base + seq!['.'] + ext, number) == base
            + " ("@ + text::decimal(number) + ")."@ + ext,
        number > 0 ==> numbered_name(ext, number) == ext + " ("@ + text::decimal(number) + ")"@,
{
    law_extensions_stand_behind_the_last_dot(base, ext);
}

/// Ten thousand names are tried, from the one that is wanted on, before one is
/// made up; the first free one is used.
pub proof fn law_ten_thousand_names_are_tried(taken: spec_fn(nat) -> bool, n: nat)
    ensures
        found(taken, 0) == Some(n) <==> n <= 9999 && !taken(n) && (forall|j: nat|
            j < n ==> #[trigger] taken(j)),
        found(taken, 0) is None <==> (forall|j: nat| j <= 9999 ==> #[trigger] taken(j)),
{
    law_the_first_free_name_is_used(taken, 0);
    if n <= 9999 && !taken(n) && (forall|j: nat| j < n ==> #[trigger] taken(j)) {
        match found(taken, 0) {
            Some(m) => {
                if m < n {
                    assert(taken(m));
                } else if n < m {
                    assert(taken(n));
                }
            },
            None => {
                assert(taken(n));
            },
        }
    }
    if let Some(m) = found(taken, 0) {
        assert(!taken(m));
    }
}

/// A made-up name is the wanted one with six hexadecimal digits and a hyphen in
/// front.
pub proof fn law_made_up_names_end_as_wanted(name: Seq<char>, chosen: Seq<char>)
    requires
        is_fallback_name(name, chosen),
    ensures
        chosen.len() == name.len() + 7,
        chosen[6] == '-',
        chosen.skip(7) == name,
{
    let id = choose|id: PeerId| chosen == #[trigger] protocol::hex(id.0@.take(3)) + "-"@ + name;
    reveal_strlit("-");
    assert(id.0@.take(3).len() == 3);
    protocol::law_hexadecimal_reads_back(id.0@.take(3), 0);
    assert(chosen.skip(7) =~= name);
}

/// What is not complete yet is hidden and marked, and no two transfers are written
/// into the same file.
pub proof fn law_partial_files_are_kept_apart(
    name: Seq<char>,
    other: Seq<char>,
    a: Seq<u8>,
    b: Seq<u8>,
    windows: bool,
)
    requires
        a.len() == 16,
        b.len() == 16,
    ensures
        partial(name, a, windows)[0] == '.',
        text::ends_with(partial(name, a, windows), ".airwire-part"@),
        a != b ==> partial(name, a, windows) != partial(other, b, windows),
{
    reveal_strlit(".");
    reveal_strlit(".airwire-part");
    let x = partial(name, a, windows);
    let y = partial(other, b, windows);
    let lead = "."@ + sanitized(name, windows) + "."@ + protocol::hex(a);
    text::law_ends_come_off(x, ".airwire-part"@, lead);
    protocol::law_hexadecimal_reads_back(a, 0);
    protocol::law_hexadecimal_reads_back(b, 0);
    if a != b && x == y {
        let n = x.len() - 13 - 32;
        assert(x.subrange(n, n + 32) =~= protocol::hex(a));
        assert(y.subrange(n, n + 32) =~= protocol::hex(b));
        assert forall|i: int| 0 <= i < 16 implies a[i] == b[i] by {
            protocol::law_hexadecimal_reads_back(a, i);
            protocol::law_hexadecimal_reads_back(b, i);
        }
        assert(a =~= b);
    }
}

/// Nothing is lost of a text without control characters.
proof fn lemma_nothing_filtered(s: Seq<char>)
    requires
        forall|i: int| 0 <= i < s.len() ==> !text::is_control(#[trigger] s[i]),
    ensures
        without_controls(s) == s,
    decreases s.len(),
{
    reveal(Seq::filter);
    if s.len() > 0 {
        let front = s.drop_last();
        assert forall|i: int| 0 <= i < front.len() implies !text::is_control(#[trigger] front[i])
            by {
            assert(front[i] == s[i]);
        }
        lemma_nothing_filtered(front);
        assert(!text::is_control(s[s.len() - 1]));
        assert(front.push(s.last()) =~= s);
    } else {
        assert(without_controls(s) =~= s);
    }
}

/// An alias is shown as it is, up to its thirty-second character, if there is
/// something to see in that and no control characters are in it.
pub proof fn law_plain_aliases_are_shown(alias: Seq<char>)
    requires
        forall|i: int|
            0 <= i < alias.len() ==> 32 <= (#[trigger] alias[i]) as int && !(127 <= alias[i] as int
                <= 159),
    ensures
        alias.len() <= 32 && !text::is_blank(alias) ==> shown_alias(alias) == alias,
        alias.len() > 32 && !text::is_blank(alias.take(32)) ==> shown_alias(alias) == alias.take(
            32,
        ),
        text::is_blank(alias) ==> shown_alias(alias) == "anonymous"@,
        or_anonymous(alias) == alias || text::is_blank(alias),
        text::is_blank(alias) ==> or_anonymous(alias) == "anonymous"@,
{
    lemma_nothing_filtered(alias);
    if alias.len() > 32 {
        assert(text::head(alias, 32) =~= alias.take(32));
        text::law_blank_texts_hold_white_space(alias);
        text::law_blank_texts_hold_white_space(alias.take(32));
        if text::is_blank(alias) {
            assert forall|i: int| 0 <= i < alias.take(32).len() implies text::is_whitespace(
                #[trigger] alias.take(32)[i],
            ) by {
                assert(text::is_whitespace(alias[i]));
            }
        }
    } else {
        assert(text::head(alias, 32) =~= alias);
    }
}

/// However someone calls themselves, what is shown is short, can be seen and holds
/// no control characters.
pub proof fn law_shown_aliases_are_harmless(alias: Seq<char>, i: int)
    ensures
        0 < shown_alias(alias).len() <= 32,
        !text::is_blank(shown_alias(alias)),
        0 <= i < shown_alias(alias).len() ==> 32 <= shown_alias(alias)[i] as int && !(127
            <= shown_alias(alias)[i] as int <= 159),
{
    reveal_strlit("anonymous");
    let keep = |c: char| !text::is_control(c);
    let kept = without_controls(alias);
    let short = text::head(kept, 32);
    assert("anonymous"@[0] == 'a');
    text::law_blank_texts_hold_white_space("anonymous"@);
    text::law_blank_texts_hold_white_space(short);
    assert(!text::is_whitespace("anonymous"@[0]));
    if !text::is_blank(short) {
        if 0 <= i < short.len() {
            alias.lemma_filter_pred(keep, i);
            assert(short[i] == kept[i]);
        }
    }
}

/// A size is shown to the nearest tenth of the largest of bytes, KiB, MiB and GiB
/// that is not larger than it.
pub proof fn law_sizes_are_shown_to_the_tenth(n: nat)
    requires
        n < 9007199254740992,
    ensures
        ({
            let (unit, label) = if n < 1024 {
                (1nat, " B"@)
            } else if n < 1048576 {
                (1024nat, " KiB"@)
            } else if n < 1073741824 {
                (1048576nat, " MiB"@)
            } else {
                (1073741824nat, " GiB"@)
            };
            exists|tenths: nat|
                readable_size(n) == text::decimal(tenths / 10) + "."@ + #[trigger] text::decimal(
                    tenths % 10,
                ) + label && -unit <= 2 * (tenths * unit - n * 10) <= unit
        }),
{
    let unit = unit_bytes(n);
    let tenths = rounded_quotient(n * 10, unit);
    assert(as_double(n) == n) by {
        assert(spacing(n) == 1);
        assert(n / 1 == n && n % 1 == 0);
        assert(rounded_quotient(n, 1) == n);
        assert(n * 1 == n);
    }
    assert(n * 10 == unit * ((n * 10) / unit) + (n * 10) % unit) by {
        vstd::arithmetic::div_mod::lemma_fundamental_div_mod((n * 10) as int, unit as int);
    }
    let q = (n * 10) / unit;
    let r = (n * 10) % unit;
    assert((q + 1) * unit == unit * q + unit) by (nonlinear_arith);
    assert(q * unit == unit * q) by (nonlinear_arith);
    let shown = text::decimal(tenths % 10);
    assert(readable_size(n) == text::decimal(tenths / 10) + "."@ + shown + unit_name(n));
    assert(-unit <= 2 * (tenths * unit - n * 10) <= unit);
}

} // verus!

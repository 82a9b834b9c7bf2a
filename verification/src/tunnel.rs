//! What `cloudflared` says, and the relay address that follows from it.

use vstd::prelude::*;

use crate::text;
use crate::text::{
    begins_with, chars_of, contains_text, split_at_first, string_between, whitespace_char,
};

verus! {

broadcast use vstd::seq_lib::group_seq_properties;

// ---------------------------------------------------------------------------
// Words
// ---------------------------------------------------------------------------
/// The number of characters before the first white space.
pub open spec fn word_length(s: Seq<char>) -> nat
    decreases s.len(),
{
    if s.len() == 0 || text::is_whitespace(s.first()) {
        0
    } else {
        1 + word_length(s.drop_first())
    }
}

/// A word is not longer than what it begins, and not empty unless there is
/// none.
pub proof fn lemma_word_length(s: Seq<char>)
    ensures
        word_length(s) <= s.len(),
        s.len() > 0 && !text::is_whitespace(s.first()) ==> word_length(s) > 0,
        word_length(s) < s.len() ==> text::is_whitespace(s[word_length(s) as int]),
        forall|i: int| 0 <= i < word_length(s) ==> !text::is_whitespace(#[trigger] s[i]),
    decreases s.len(),
{
    if s.len() > 0 && !text::is_whitespace(s.first()) {
        lemma_word_length(s.drop_first());
        assert forall|i: int| 0 <= i < word_length(s) implies !text::is_whitespace(
            #[trigger] s[i],
        ) by {
            if i > 0 {
                assert(s[i] == s.drop_first()[i - 1]);
            }
        }
    }
}

/// Leading white space takes nothing but itself away.
pub proof fn lemma_trim_start(s: Seq<char>)
    ensures
        text::trim_start(s).len() <= s.len(),
        text::trim_start(s).len() > 0 ==> !text::is_whitespace(text::trim_start(s).first()),
    decreases s.len(),
{
    if s.len() > 0 && text::is_whitespace(s.first()) {
        lemma_trim_start(s.drop_first());
    }
}

/// The words of a text: what stands between white space.
pub open spec fn words(s: Seq<char>) -> Seq<Seq<char>>
    decreases s.len(),
{
    let rest = text::trim_start(s);
    if rest.len() == 0 {
        seq![]
    } else {
        let n = word_length(rest) as int;
        proof {
            lemma_trim_start(s);
            lemma_word_length(rest);
        }
        seq![rest.take(n)] + words(rest.skip(n))
    }
}

/// What surrounds an address in a line of output.
pub open spec fn is_decoration(c: char) -> bool {
    c == ',' || c == '"' || c == '\'' || c == '(' || c == ')' || c == '[' || c == ']'
}

/// Whether `c` surrounds an address in a line of output.
fn decoration(c: char) -> (r: bool)
    ensures
        r == is_decoration(c),
{
    c == ',' || c == '"' || c == '\'' || c == '(' || c == ')' || c == '[' || c == ']'
}

/// `s` without the decoration it begins with.
pub open spec fn undecorated_start(s: Seq<char>) -> Seq<char>
    decreases s.len(),
{
    if s.len() > 0 && is_decoration(s.first()) {
        undecorated_start(s.drop_first())
    } else {
        s
    }
}

/// `s` without the decoration it ends with.
pub open spec fn undecorated_end(s: Seq<char>) -> Seq<char>
    decreases s.len(),
{
    if s.len() > 0 && is_decoration(s.last()) {
        undecorated_end(s.drop_last())
    } else {
        s
    }
}

/// `s` without the decoration around it.
pub open spec fn undecorated(s: Seq<char>) -> Seq<char> {
    undecorated_end(undecorated_start(s))
}

/// The characters `from..to` without the decoration around them.
fn undecorate(chars: &Vec<char>, from: usize, to: usize) -> (r: String)
    requires
        from <= to <= chars@.len(),
    ensures
        r@ == undecorated(chars@.subrange(from as int, to as int)),
{
    let ghost word = chars@.subrange(from as int, to as int);
    let mut start: usize = from;
    while start < to && decoration(chars[start])
        invariant
            from <= start <= to <= chars@.len(),
            undecorated_start(word) == undecorated_start(
                chars@.subrange(start as int, to as int),
            ),
        decreases to - start,
    {
        assert(chars@.subrange(start as int, to as int).drop_first() =~= chars@.subrange(
            start + 1,
            to as int,
        ));
        start += 1;
    }
    let ghost rest = chars@.subrange(start as int, to as int);
    assert(undecorated_start(word) == rest);
    let mut end: usize = to;
    while end > start && decoration(chars[end - 1])
        invariant
            start <= end <= to <= chars@.len(),
            undecorated_end(rest) == undecorated_end(chars@.subrange(start as int, end as int)),
        decreases end - start,
    {
        assert(chars@.subrange(start as int, end as int).drop_last() =~= chars@.subrange(
            start as int,
            end - 1,
        ));
        assert(chars@.subrange(start as int, end as int).last() == chars@[end - 1]);
        end -= 1;
    }
    proof {
        let inner = chars@.subrange(start as int, end as int);
        if inner.len() > 0 {
            assert(inner.last() == chars@[end - 1]);
        }
    }
    string_between(chars, start, end)
}

// ---------------------------------------------------------------------------
// The address of a tunnel
// ---------------------------------------------------------------------------
/// Whether `word` is the address of a quick tunnel.
pub open spec fn is_tunnel_url(word: Seq<char>) -> bool {
    text::starts_with(word, "https://"@) && text::contains(word, ".trycloudflare.com"@)
}

/// The first address of a quick tunnel among `words`.
pub open spec fn first_tunnel_url(words: Seq<Seq<char>>) -> Option<Seq<char>>
    decreases words.len(),
{
    if words.len() == 0 {
        None
    } else if is_tunnel_url(undecorated(words[0])) {
        Some(undecorated(words[0]))
    } else {
        first_tunnel_url(words.skip(1))
    }
}

/// The first word of a text and the others.
proof fn lemma_first_word(s: Seq<char>)
    requires
        text::trim_start(s).len() > 0,
    ensures
        ({
            let rest = text::trim_start(s);
            let n = word_length(rest) as int;
            &&& words(s).len() > 0
            &&& words(s)[0] == rest.take(n)
            &&& words(s).skip(1) == words(rest.skip(n))
        }),
{
    let rest = text::trim_start(s);
    let n = word_length(rest) as int;
    assert(words(s) == seq![rest.take(n)] + words(rest.skip(n)));
    assert(words(s).skip(1) =~= words(rest.skip(n)));
}

/// The first address of a quick tunnel in a line of output.
#[verifier::rlimit(40)]
pub fn find_quick_tunnel_url(line: &str) -> (r: Option<String>)
    ensures
        match r {
            Some(url) => first_tunnel_url(words(line@)) == Some(url@),
            None => first_tunnel_url(words(line@)) is None,
        },
{
    let chars = chars_of(line);
    let mut i: usize = 0;
    assert(line@.skip(0) =~= line@);
    loop
        invariant
            i <= chars@.len(),
            chars@ == line@,
            first_tunnel_url(words(line@)) == first_tunnel_url(words(line@.skip(i as int))),
        decreases chars@.len() - i,
    {
        let ghost rest = line@.skip(i as int);
        let mut from: usize = i;
        while from < chars.len() && whitespace_char(chars[from])
            invariant
                i <= from <= chars@.len(),
                chars@ == line@,
                text::trim_start(rest) == text::trim_start(line@.skip(from as int)),
            decreases chars@.len() - from,
        {
            assert(line@.skip(from as int).drop_first() =~= line@.skip(from + 1));
            from += 1;
        }
        let ghost trimmed = line@.skip(from as int);
        assert(text::trim_start(rest) == trimmed);
        if from == chars.len() {
            return None;
        }
        let mut to: usize = from;
        while to < chars.len() && !whitespace_char(chars[to])
            invariant
                from <= to <= chars@.len(),
                chars@ == line@,
                trimmed == line@.skip(from as int),
                word_length(trimmed) == (to - from) + word_length(line@.skip(to as int)),
            decreases chars@.len() - to,
        {
            assert(line@.skip(to as int).drop_first() =~= line@.skip(to + 1));
            to += 1;
        }
        let word = undecorate(&chars, from, to);
        proof {
            let n = to - from;
            assert(word_length(trimmed) == n);
            assert(trimmed.take(n) =~= chars@.subrange(from as int, to as int));
            assert(trimmed.skip(n) =~= line@.skip(to as int));
            lemma_first_word(rest);
            lemma_word_length(trimmed);
        }
        if begins_with(word.as_str(), "https://") && contains_text(
            word.as_str(),
            ".trycloudflare.com",
        ) {
            return Some(word);
        }
        i = to;
    }
}

/// `s` without the slashes it ends with.
pub open spec fn without_slashes(s: Seq<char>) -> Seq<char>
    decreases s.len(),
{
    if s.len() > 0 && s.last() == '/' {
        without_slashes(s.drop_last())
    } else {
        s
    }
}

/// The relay address of a tunnel with the address `url`.
pub open spec fn tunnel_relay(url: Seq<char>) -> Seq<char> {
    let base = without_slashes(url);
    match text::split_once(base, "https://"@) {
        Some(parts) => parts.0 + "wss://"@ + parts.1 + "/ws"@,
        None => base + "/ws"@,
    }
}

/// The relay address of a tunnel with the address `url`.
pub fn public_relay_url(url: &str) -> (r: String)
    ensures
        r@ == tunnel_relay(url@),
{
    let chars = chars_of(url);
    let mut end: usize = chars.len();
    assert(url@.take(end as int) =~= url@);
    while end > 0 && chars[end - 1] == '/'
        invariant
            end <= chars@.len(),
            chars@ == url@,
            without_slashes(url@) == without_slashes(url@.take(end as int)),
        decreases end,
    {
        assert(url@.take(end as int).drop_last() =~= url@.take(end - 1));
        assert(url@.take(end as int).last() == chars@[end - 1]);
        end -= 1;
    }
    let base = string_between(&chars, 0, end);
    proof {
        assert(base@ =~= url@.take(end as int));
        if end > 0 {
            assert(url@.take(end as int).last() == chars@[end - 1]);
        }
    }
    match split_at_first(base.as_str(), "https://") {
        Some((before, after)) => {
            let mut out = before;
            out.append("wss://");
            out.append(after.as_str());
            out.append("/ws");
            out
        },
        None => {
            let mut out = base;
            out.append("/ws");
            out
        },
    }
}

/// A tunnel whose address is a scheme and a host gives a relay address with the
/// same host.
pub proof fn law_the_relay_is_at_the_tunnel(host: Seq<char>)
    requires
        host.len() > 0,
        host.last() != '/',
    ensures
        tunnel_relay("https://"@ + host) == "wss://"@ + host + "/ws"@,
{
    let url = "https://"@ + host;
    assert(url.last() == host.last());
    assert(without_slashes(url) == url);
    assert(url.subrange(0, "https://"@.len() as int) =~= "https://"@);
    assert(text::occurs_at(url, "https://"@, 0));
    assert(text::find(url, "https://"@) == Some(0int));
    assert(url.take(0) =~= Seq::<char>::empty());
    assert(url.skip("https://"@.len() as int) =~= host);
    assert(tunnel_relay(url) =~= "wss://"@ + host + "/ws"@);
}

/// A word without white space is one word.
proof fn lemma_one_word(word: Seq<char>, rest: Seq<char>)
    requires
        forall|i: int| 0 <= i < word.len() ==> !text::is_whitespace(#[trigger] word[i]),
        rest.len() > 0 ==> text::is_whitespace(rest[0]),
    ensures
        word_length(word + rest) == word.len(),
    decreases word.len(),
{
    let s = word + rest;
    if word.len() > 0 {
        assert(s.first() == word[0]);
        let tail = word.drop_first();
        assert forall|i: int| 0 <= i < tail.len() implies !text::is_whitespace(#[trigger] tail[i])
            by {
            assert(tail[i] == word[i + 1]);
        }
        lemma_one_word(tail, rest);
        assert(s.drop_first() =~= tail + rest);
    } else {
        assert(s =~= rest);
    }
}

/// A line is read word by word, whatever white space stands between the words, and
/// the first word that is the address of a tunnel once what surrounds it is taken
/// off is the address that is found.
pub proof fn law_the_first_tunnel_is_found(word: Seq<char>, blank: char, rest: Seq<char>)
    requires
        word.len() > 0,
        forall|i: int| 0 <= i < word.len() ==> !text::is_whitespace(#[trigger] word[i]),
        text::is_whitespace(blank),
    ensures
        first_tunnel_url(words(Seq::empty())) is None,
        first_tunnel_url(words(seq![blank] + rest)) == first_tunnel_url(words(rest)),
        ({
            let url = undecorated(word);
            let good = text::starts_with(url, "https://"@) && text::contains(
                url,
                ".trycloudflare.com"@,
            );
            &&& first_tunnel_url(words(word)) == if good {
                Some(url)
            } else {
                None
            }
            &&& first_tunnel_url(words(word + (seq![blank] + rest))) == if good {
                Some(url)
            } else {
                first_tunnel_url(words(rest))
            }
        }),
{
    let more = seq![blank] + rest;
    let none = Seq::<char>::empty();
    assert(text::trim_start(none) =~= none);
    assert(words(none).len() == 0);
    assert(more.first() == blank);
    assert(more.drop_first() =~= rest);
    assert(text::trim_start(more) == text::trim_start(rest));
    assert(words(more) == words(rest));
    lemma_one_word(word, none);
    assert(word + none =~= word);
    assert(word.first() == word[0]);
    assert(text::trim_start(word) == word);
    assert(word.take(word.len() as int) =~= word);
    assert(word.skip(word.len() as int) =~= none);
    assert(words(word) =~= seq![word]);
    assert(words(word).skip(1) =~= Seq::<Seq<char>>::empty());
    let line = word + more;
    lemma_one_word(word, more);
    assert(line.first() == word[0]);
    assert(text::trim_start(line) == line);
    assert(line.take(word.len() as int) =~= word);
    assert(line.skip(word.len() as int) =~= more);
    assert(words(line) == seq![word] + words(more));
    assert(words(line)[0] == word);
    assert(words(line).skip(1) =~= words(more));
}

/// Commas, quotes and brackets around an address are no part of it.
pub proof fn law_decoration_comes_off(before: Seq<char>, url: Seq<char>, after: Seq<char>)
    requires
        url.len() > 0,
        !seq![',', '"', '\'', '(', ')', '[', ']'].contains(url[0]),
        !seq![',', '"', '\'', '(', ')', '[', ']'].contains(url[url.len() - 1]),
        forall|i: int|
            0 <= i < before.len() ==> seq![',', '"', '\'', '(', ')', '[', ']'].contains(
                #[trigger] before[i],
            ),
        forall|i: int|
            0 <= i < after.len() ==> seq![',', '"', '\'', '(', ')', '[', ']'].contains(
                #[trigger] after[i],
            ),
    ensures
        undecorated(before + url + after) == url,
    decreases before.len() + after.len(),
{
    let marks = seq![',', '"', '\'', '(', ')', '[', ']'];
    assert(marks[0] == ',' && marks[1] == '"' && marks[2] == '\'' && marks[3] == '(' && marks[4]
        == ')' && marks[5] == '[' && marks[6] == ']');
    assert(forall|c: char| #[trigger] is_decoration(c) <==> marks.contains(c));
    let s = before + url + after;
    if before.len() > 0 {
        assert(s.first() == before[0]);
        let less = before.drop_first();
        assert forall|i: int| 0 <= i < less.len() implies marks.contains(#[trigger] less[i]) by {
            assert(less[i] == before[i + 1]);
        }
        law_decoration_comes_off(less, url, after);
        assert(s.drop_first() =~= less + url + after);
    } else if after.len() > 0 {
        assert(s.first() == url[0]);
        assert(s.last() == after[after.len() - 1]);
        let less = after.drop_last();
        assert forall|i: int| 0 <= i < less.len() implies marks.contains(#[trigger] less[i]) by {
            assert(less[i] == after[i]);
        }
        law_decoration_comes_off(before, url, less);
        assert(s.drop_last() =~= before + url + less);
        assert((before + url + less).first() == url[0]);
    } else {
        assert(s =~= url);
        assert(s.first() == url[0] && s.last() == url[url.len() - 1]);
    }
}

/// Slashes at the end of the address of a tunnel change nothing.
pub proof fn law_trailing_slashes_do_not_matter(url: Seq<char>)
    ensures
        tunnel_relay(url + seq!['/']) == tunnel_relay(url),
{
    assert((url + seq!['/']).last() == '/');
    assert((url + seq!['/']).drop_last() =~= url);
}

/// An address without the scheme of a tunnel gets the path of a relay and stays as
/// it is otherwise.
pub proof fn law_other_addresses_get_the_path(url: Seq<char>)
    requires
        url.len() > 0,
        url[url.len() - 1] != '/',
        !text::contains(url, "https://"@),
    ensures
        tunnel_relay(url) == url + "/ws"@,
{
    assert(without_slashes(url) == url);
}

} // verus!

//! Versions of Rancher and of k3s, and the release channels of k3s.

use vstd::prelude::*;
use vstd::slice::slice_subrange;

use crate::number;
use crate::number::{is_digit, is_numeral};
use crate::text;
use crate::text::{after_prefix, joined, opt, opt_str, pieces, texts, trimmed, without_leading};

verus! {

/// The dotted parts of a version, without white space around it and a `v` before it.
pub open spec fn parts_of(version: Seq<char>) -> Seq<Seq<char>> {
    pieces(without_leading(trimmed(version), 'v'), '.')
}

/// The name of the release channel of a minor version.
pub open spec fn channel_name(major: Seq<char>, minor: Seq<char>) -> Seq<char> {
    "v"@ + major + "."@ + minor
}

/// The minor version of a version, named as its release channel is.
pub open spec fn minor_version(version: Seq<char>) -> Option<Seq<char>> {
    let parts = parts_of(version);
    if parts.len() > 1 && is_numeral(parts[0]) && is_numeral(parts[1]) {
        Some(channel_name(parts[0], parts[1]))
    } else {
        None
    }
}

fn show_channel(major: &[char], minor: &[char]) -> (r: String)
    ensures
        r@ == channel_name(major@, minor@),
{
    let mut r = "v".to_owned();
    r.append(text::string(major).as_str());
    r.append(".");
    r.append(text::string(minor).as_str());
    r
}

/// The minor of a k3s version, as its release channel is named: `v1.36` for `v1.36.3+k3s1`.
pub fn minor_of(version: &str) -> (r: Option<String>)
    ensures
        opt(r) == minor_version(version@),
{
    let cs = text::chars(version);
    let bare = text::trim_leading(text::trim(cs.as_slice()), 'v');
    let parts = text::split(bare, '.');
    assert(texts(parts@)[0] == parts@[0]@);
    if parts.len() > 1 {
        assert(texts(parts@)[1] == parts@[1]@);
        if number::numeral(parts[0]) && number::numeral(parts[1]) {
            return Some(show_channel(parts[0], parts[1]));
        }
    }
    None
}

/// The release channel that a pinned k3s version belongs to. A version is pinned where a patch
/// follows its minor.
pub open spec fn channel_of(version: Seq<char>) -> Option<Seq<char>> {
    let parts = parts_of(version);
    if parts.len() > 2 && is_numeral(parts[0]) && is_numeral(parts[1]) && parts[2].len() > 0
        && is_digit(parts[2][0]) {
        Some(channel_name(parts[0], parts[1]))
    } else {
        None
    }
}

/// The release channel of a pinned k3s version: `v1.36` for `v1.36.3+k3s1`. There is none for
/// anything that is not pinned, so that no channel is guessed at.
pub fn k3s_minor_channel(k3s_version: &str) -> (r: Option<String>)
    ensures
        opt(r) == channel_of(k3s_version@),
{
    let cs = text::chars(k3s_version);
    let bare = text::trim_leading(text::trim(cs.as_slice()), 'v');
    let parts = text::split(bare, '.');
    if parts.len() > 2 {
        assert(texts(parts@)[0] == parts@[0]@);
        assert(texts(parts@)[1] == parts@[1]@);
        assert(texts(parts@)[2] == parts@[2]@);
        let patch = parts[2];
        if number::numeral(parts[0]) && number::numeral(parts[1]) && patch.len() > 0
            && number::digit(patch[0]) {
            return Some(show_channel(parts[0], parts[1]));
        }
    }
    None
}

/// The minor that a Rancher version names: its first two dotted parts.
pub open spec fn rancher_minor(version: Seq<char>) -> Seq<char> {
    let parts = pieces(without_leading(version, 'v'), '.');
    if parts.len() > 1 {
        parts[0] + "."@ + parts[1]
    } else {
        parts[0]
    }
}

/// The highest k3s version that is certified for a Rancher minor.
pub open spec fn certified_k3s(minor: Seq<char>) -> Option<Seq<char>> {
    if minor == "2.11"@ {
        Some("v1.32.3+k3s1"@)
    } else if minor == "2.12"@ {
        Some("v1.33.3+k3s1"@)
    } else if minor == "2.13"@ {
        Some("v1.34.3+k3s1"@)
    } else if minor == "2.14"@ {
        Some("v1.35.5+k3s1"@)
    } else if minor == "2.15"@ {
        Some("v1.36.2+k3s1"@)
    } else if minor == "2.16"@ {
        Some("v1.36.3+k3s1"@)
    } else {
        None
    }
}

/// The highest k3s version that Rancher's support matrix certifies for the minor of a Rancher
/// version.
pub fn default_k3s_version(rancher_version: &str) -> (r: Option<&'static str>)
    ensures
        opt_str(r) == certified_k3s(rancher_minor(rancher_version@)),
{
    let cs = text::chars(rancher_version);
    let parts = text::split(text::trim_leading(cs.as_slice(), 'v'), '.');
    assert(texts(parts@)[0] == parts@[0]@);
    let mut minor = text::string(parts[0]);
    if parts.len() > 1 {
        assert(texts(parts@)[1] == parts@[1]@);
        minor.append(".");
        minor.append(text::string(parts[1]).as_str());
    }
    let minor = minor.as_str();
    if text::same(minor, "2.11") {
        Some("v1.32.3+k3s1")
    } else if text::same(minor, "2.12") {
        Some("v1.33.3+k3s1")
    } else if text::same(minor, "2.13") {
        Some("v1.34.3+k3s1")
    } else if text::same(minor, "2.14") {
        Some("v1.35.5+k3s1")
    } else if text::same(minor, "2.15") {
        Some("v1.36.2+k3s1")
    } else if text::same(minor, "2.16") {
        Some("v1.36.3+k3s1")
    } else {
        None
    }
}

/// The leading run of digits.
pub open spec fn leading_digits(s: Seq<char>) -> Seq<char>
    decreases s.len(),
{
    if s.len() > 0 && is_digit(s[0]) {
        seq![s[0]] + leading_digits(s.drop_first())
    } else {
        Seq::empty()
    }
}

fn take_digits<'a>(s: &'a [char]) -> (r: &'a [char])
    ensures
        r@ == leading_digits(s@),
{
    let mut i: usize = 0;
    assert(s@.skip(0) =~= s@);
    assert(s@.take(0) + leading_digits(s@.skip(0)) =~= leading_digits(s@));
    while i < s.len() && number::digit(s[i])
        invariant
            i <= s.len(),
            s@.take(i as int) + leading_digits(s@.skip(i as int)) == leading_digits(s@),
        decreases s.len() - i,
    {
        let ghost rest = s@.skip(i as int);
        assert(rest.drop_first() =~= s@.skip(i + 1));
        assert(s@.take(i + 1) + leading_digits(s@.skip(i + 1)) =~= s@.take(i as int) + (
        seq![rest[0]] + leading_digits(s@.skip(i + 1))));
        i += 1;
    }
    assert(leading_digits(s@.skip(i as int)) =~= Seq::<char>::empty());
    assert(s@.take(i as int) =~= leading_digits(s@));
    assert(s@.take(i as int) =~= s@.subrange(0, i as int));
    slice_subrange(s, 0, i)
}

/// The Rancher minor that a chart carries in its name. The minor ends at the first character that
/// is no digit: some charts have no patch, and what follows runs straight into the minor.
pub open spec fn minor_of_chart(chart: Seq<char>) -> Option<Seq<char>> {
    match after_prefix(chart, "rancher-"@) {
        None => None,
        Some(version) => {
            let parts = pieces(version, '.');
            if parts.len() > 1 && is_numeral(parts[0]) && leading_digits(parts[1]).len() > 0 {
                Some(parts[0] + "."@ + leading_digits(parts[1]))
            } else {
                None
            }
        },
    }
}

/// The Rancher minor that a chart carries in its name: `2.16` for `rancher-2.16.0-<sha>-head` and for
/// `rancher-2.16-<sha>-head`.
pub fn chart_minor(chart: &str) -> (r: Option<String>)
    ensures
        opt(r) == minor_of_chart(chart@),
{
    let cs = text::chars(chart);
    let version = match text::strip_prefix(cs.as_slice(), "rancher-") {
        Some(version) => version,
        None => {
            return None;
        },
    };
    let parts = text::split(version, '.');
    assert(texts(parts@)[0] == parts@[0]@);
    if parts.len() > 1 {
        assert(texts(parts@)[1] == parts@[1]@);
        let minor = take_digits(parts[1]);
        if number::numeral(parts[0]) && minor.len() > 0 {
            let mut r = text::string(parts[0]);
            r.append(".");
            r.append(text::string(minor).as_str());
            return Some(r);
        }
    }
    None
}

/// The channel of a pinned version is the one that the version is compared with when it runs.
pub proof fn channel_is_the_minor(version: Seq<char>)
    ensures
        channel_of(version) is Some ==> minor_version(version) == channel_of(version),
{
}

proof fn lemma_numeral_bare(s: Seq<char>)
    requires
        is_numeral(s),
    ensures
        text::free_of(s, '.'),
        s[0] != 'v',
        !text::is_white(s[0]),
{
    assert(is_digit(s[0]));
    assert forall|i: int| 0 <= i < s.len() implies #[trigger] s[i] != '.' by {
        assert(is_digit(s[i]));
    }
}

proof fn lemma_piece_before(a: Seq<char>, b: Seq<char>, c: char)
    requires
        text::free_of(a, c),
    ensures
        pieces(a + seq![c] + b, c) == seq![a] + pieces(b, c),
{
    let s = a + seq![c] + b;
    assert forall|i: int| 0 <= i < a.len() implies s[i] != c by {
        assert(s[i] == a[i]);
    }
    assert(s[a.len() as int] == c);
    text::lemma_is_first_index(s, c, a.len() as int);
    assert(s.take(a.len() as int) =~= a);
    assert(s.skip(a.len() as int + 1) =~= b);
}

/// A pinned version belongs to the channel of its own minor, whatever its patch: following that
/// channel never leaves the minor.
pub proof fn channel_keeps_the_minor(major: Seq<char>, minor: Seq<char>, patch: Seq<char>)
    requires
        is_numeral(major),
        is_numeral(minor),
        patch.len() > 0,
        is_digit(patch[0]),
        !text::is_white(patch.last()),
    ensures
        channel_of(channel_name(major, minor) + "."@ + patch) == Some(channel_name(major, minor)),
{
    let version = channel_name(major, minor) + "."@ + patch;
    let bare = major + seq!['.'] + (minor + seq!['.'] + patch);
    reveal_strlit("v");
    reveal_strlit(".");
    assert(version =~= seq!['v'] + bare);
    lemma_numeral_bare(major);
    lemma_numeral_bare(minor);
    assert(version[0] == 'v');
    assert(version.last() == patch.last());
    assert(trimmed(version) == version);
    assert(version.drop_first() =~= bare);
    assert(bare[0] == major[0]);
    reveal_with_fuel(without_leading, 2);
    assert(without_leading(version, 'v') == bare);
    lemma_piece_before(major, minor + seq!['.'] + patch, '.');
    lemma_piece_before(minor, patch, '.');
    text::lemma_first_index(patch, '.');
    let rest = pieces(patch, '.');
    let n = text::first_index(patch, '.') as int;
    if n < patch.len() {
        assert(n > 0);
        assert(rest[0] == patch.take(n));
    }
    let parts = parts_of(version);
    assert(parts == seq![major] + (seq![minor] + rest));
    assert(parts[0] == major && parts[1] == minor && parts[2] == rest[0]);
    assert(rest[0][0] == patch[0]);
}

/// A channel is always that of a minor version, never one that moves from minor to minor.
pub proof fn channel_never_floats(version: Seq<char>)
    ensures
        channel_of(version) != Some("stable"@),
        channel_of(version) != Some("latest"@),
{
    reveal_strlit("stable");
    reveal_strlit("latest");
    reveal_strlit("v");
    if channel_of(version) is Some {
        assert(channel_of(version)->0[0] == 'v');
    }
}

/// Every certified k3s version is pinned: it has a channel.
pub proof fn every_certified_version_has_a_channel(minor: Seq<char>)
    ensures
        match certified_k3s(minor) {
            Some(k3s) => channel_of(k3s) is Some,
            None => true,
        },
{
    reveal_strlit("v");
    reveal_strlit(".");
    reveal_strlit("v1.32.3+k3s1");
    reveal_strlit("v1.33.3+k3s1");
    reveal_strlit("v1.34.3+k3s1");
    reveal_strlit("v1.35.5+k3s1");
    reveal_strlit("v1.36.2+k3s1");
    reveal_strlit("v1.36.3+k3s1");
    match certified_k3s(minor) {
        None => {},
        Some(k3s) => {
            let patch = k3s.skip(6);
            assert(k3s =~= channel_name(seq!['1'], k3s.subrange(3, 5)) + "."@ + patch);
            channel_keeps_the_minor(seq!['1'], k3s.subrange(3, 5), patch);
        },
    }
}

/// The first pieces of a text whose dotted parts are known.
proof fn lemma_two_parts(a: Seq<char>, b: Seq<char>, rest: Seq<char>)
    requires
        text::free_of(a, '.'),
        text::free_of(b, '.'),
        rest.len() > 0 ==> rest[0] == '.',
    ensures
        pieces(a + seq!['.'] + b + rest, '.').len() >= 2,
        pieces(a + seq!['.'] + b + rest, '.')[0] == a,
        pieces(a + seq!['.'] + b + rest, '.')[1] == b,
        pieces(a + seq!['.'] + b + rest, '.').len() > 2 <==> rest.len() > 0,
        rest.len() > 0 ==> pieces(a + seq!['.'] + b + rest, '.')[2] == pieces(
            rest.drop_first(),
            '.',
        )[0],
{
    assert(a + seq!['.'] + b + rest =~= a + seq!['.'] + (b + rest));
    text::first_piece_is_split_off(a, '.', b + rest);
    if rest.len() > 0 {
        let tail = rest.drop_first();
        assert(b + rest =~= b + seq!['.'] + tail);
        text::first_piece_is_split_off(b, '.', tail);
        text::pieces_make_up_the_text(tail, '.');
    } else {
        assert(b + rest =~= b);
        text::lemma_first_index(b, '.');
        let n = text::first_index(b, '.') as int;
        if n < b.len() {
            assert(b[n] != '.');
        }
    }
}

/// The minor of a version is read off its first two numbers, whatever follows them, with any number of
/// `v` before them and white space around it all.
pub proof fn minor_is_read_off_the_version(
    version: Seq<char>,
    vs: Seq<char>,
    major: Seq<char>,
    minor: Seq<char>,
    rest: Seq<char>,
)
    requires
        trimmed(version) == vs + (major + seq!['.'] + minor + rest),
        forall|i: int| 0 <= i < vs.len() ==> #[trigger] vs[i] == 'v',
        is_numeral(major),
        is_numeral(minor),
        rest.len() > 0 ==> rest[0] == '.',
    ensures
        minor_version(version) == Some(seq!['v'] + major + seq!['.'] + minor),
        rest.len() > 1 && is_digit(rest[1]) ==> channel_of(version) == Some(
            seq!['v'] + major + seq!['.'] + minor,
        ),
        !(rest.len() > 1 && is_digit(rest[1])) ==> channel_of(version) is None,
{
    let bare = major + seq!['.'] + minor + rest;
    lemma_numeral_bare(major);
    lemma_numeral_bare(minor);
    assert(bare[0] == major[0]);
    text::leading_run_is_taken_off(vs, bare, 'v');
    lemma_two_parts(major, minor, rest);
    reveal_strlit("v");
    reveal_strlit(".");
    assert("v"@ =~= seq!['v']);
    assert("."@ =~= seq!['.']);
    if rest.len() > 0 {
        let tail = rest.drop_first();
        let first = pieces(tail, '.')[0];
        text::lemma_first_index(tail, '.');
        let n = text::first_index(tail, '.') as int;
        if n < tail.len() {
            assert(first == tail.take(n));
        } else {
            assert(first == tail);
        }
        if tail.len() > 0 {
            assert(tail[0] == rest[1]);
            if n == 0 {
                assert(tail[0] == '.');
            } else {
                assert(first[0] == tail[0]);
            }
        }
    }
}

/// Whether a text, behind a number of `v`, begins with two numbers and a dot between them, and no other
/// character than a dot follows.
pub open spec fn begins_with_minor(
    t: Seq<char>,
    n: int,
    major: Seq<char>,
    minor: Seq<char>,
) -> bool {
    let read = major + seq!['.'] + minor;
    &&& 0 <= n <= t.len()
    &&& forall|i: int| 0 <= i < n ==> #[trigger] t[i] == 'v'
    &&& is_numeral(major)
    &&& is_numeral(minor)
    &&& read.is_prefix_of(t.skip(n))
    &&& t.len() > n + read.len() ==> t[n + read.len()] == '.'
}

/// A version has a minor only where it begins with two numbers and a dot between them, and a channel
/// only where a patch follows: another dot and a digit. Nothing else is guessed at.
pub proof fn no_minor_is_guessed(version: Seq<char>)
    ensures
        minor_version(version) is Some ==> exists|n: int, major: Seq<char>, minor: Seq<char>|
            {
                let end = n + major.len() + 1 + minor.len();
                &&& #[trigger] begins_with_minor(trimmed(version), n, major, minor)
                &&& minor_version(version) == Some(seq!['v'] + major + seq!['.'] + minor)
                &&& channel_of(version) is Some ==> trimmed(version).len() > end + 1 && is_digit(
                    trimmed(version)[end + 1],
                )
            },
        minor_version(version) is None ==> channel_of(version) is None,
{
    if minor_version(version) is Some {
        let t = trimmed(version);
        let n = text::lemma_leading_run(t, 'v');
        let bare = t.skip(n);
        let parts = pieces(bare, '.');
        let major = parts[0];
        let minor = parts[1];
        let read = major + seq!['.'] + minor;
        let end = read.len() as int;
        text::pieces_make_up_the_text(bare, '.');
        let one = parts.drop_first();
        assert(bare == major + seq!['.'] + joined(one, seq!['.']));
        reveal_strlit("v");
        reveal_strlit(".");
        assert("v"@ =~= seq!['v']);
        assert("."@ =~= seq!['.']);
        if one.len() > 1 {
            let two = one.drop_first();
            let tail = joined(two, seq!['.']);
            assert(joined(one, seq!['.']) == minor + seq!['.'] + tail);
            assert(bare =~= read + seq!['.'] + tail);
            assert(bare[end] == '.');
            if channel_of(version) is Some {
                assert(two[0] == parts[2]);
                assert(tail.len() > 0 && tail[0] == parts[2][0]);
                assert(bare[end + 1] == tail[0]);
            }
        } else {
            assert(bare =~= read);
        }
        assert(bare.take(end) =~= read);
        assert(read.is_prefix_of(t.skip(n)));
        assert(begins_with_minor(t, n, major, minor));
    }
}

/// The minor of a Rancher version is its first two dotted parts, whatever follows, without any `v`.
pub proof fn rancher_minor_is_read_off_the_version(
    vs: Seq<char>,
    major: Seq<char>,
    minor: Seq<char>,
    rest: Seq<char>,
)
    requires
        forall|i: int| 0 <= i < vs.len() ==> #[trigger] vs[i] == 'v',
        text::free_of(major, '.'),
        text::free_of(minor, '.'),
        major.len() > 0 && major[0] != 'v',
        rest.len() > 0 ==> rest[0] == '.',
    ensures
        rancher_minor(vs + (major + seq!['.'] + minor + rest)) == major + seq!['.'] + minor,
{
    let bare = major + seq!['.'] + minor + rest;
    assert(bare[0] == major[0]);
    text::leading_run_is_taken_off(vs, bare, 'v');
    lemma_two_parts(major, minor, rest);
    reveal_strlit(".");
    assert("."@ =~= seq!['.']);
}

proof fn lemma_leading_digits(a: Seq<char>, rest: Seq<char>)
    requires
        forall|i: int| 0 <= i < a.len() ==> is_digit(#[trigger] a[i]),
        rest.len() > 0 ==> !is_digit(rest[0]),
    ensures
        leading_digits(a + rest) == a,
    decreases a.len(),
{
    let s = a + rest;
    if a.len() == 0 {
        assert(s =~= rest);
        assert(leading_digits(s) =~= a);
    } else {
        let tail = a.drop_first();
        assert forall|i: int| 0 <= i < tail.len() implies is_digit(#[trigger] tail[i]) by {
            assert(tail[i] == a[i + 1]);
        }
        lemma_leading_digits(tail, rest);
        assert(s.drop_first() =~= tail + rest);
        assert(is_digit(a[0]));
        assert(s[0] == a[0]);
        assert(seq![a[0]] + tail =~= a);
    }
}

/// The minor of a running chart is read off its name: the number behind `rancher-`, a dot, and the
/// digits up to the first character that is none.
pub proof fn chart_minor_is_read_off_the_name(
    major: Seq<char>,
    minor: Seq<char>,
    rest: Seq<char>,
)
    requires
        is_numeral(major),
        is_numeral(minor),
        rest.len() > 0 ==> !is_digit(rest[0]),
    ensures
        minor_of_chart("rancher-"@ + (major + seq!['.'] + minor + rest)) == Some(
            major + seq!['.'] + minor,
        ),
{
    let version = major + seq!['.'] + minor + rest;
    let chart = "rancher-"@ + version;
    lemma_numeral_bare(major);
    assert(chart.take("rancher-"@.len() as int) =~= "rancher-"@);
    assert("rancher-"@.is_prefix_of(chart));
    assert(chart.skip("rancher-"@.len() as int) =~= version);
    assert(version =~= major + seq!['.'] + (minor + rest));
    text::first_piece_is_split_off(major, '.', minor + rest);
    let tail = minor + rest;
    text::lemma_first_index(tail, '.');
    let n = text::first_index(tail, '.') as int;
    lemma_numeral_bare(minor);
    if n < tail.len() {
        if n < minor.len() {
            assert(tail[n] == minor[n]);
        }
        let more = rest.take(n - minor.len());
        assert(tail.take(n) =~= minor + more);
        lemma_leading_digits(minor, more);
    } else {
        lemma_leading_digits(minor, rest);
    }
    reveal_strlit(".");
    assert("."@ =~= seq!['.']);
}

/// A chart that is not named after Rancher, or has no number behind it, tells no minor.
pub proof fn other_charts_tell_no_minor(chart: Seq<char>)
    ensures
        minor_of_chart(chart) is Some ==> {
            &&& "rancher-"@.is_prefix_of(chart)
            &&& chart.len() > "rancher-"@.len()
            &&& is_digit(chart["rancher-"@.len() as int])
        },
{
    if minor_of_chart(chart) is Some {
        let version = chart.skip("rancher-"@.len() as int);
        let parts = pieces(version, '.');
        text::pieces_make_up_the_text(version, '.');
        assert(version == parts[0] + seq!['.'] + joined(parts.drop_first(), seq!['.']));
        assert(is_digit(parts[0][0]));
        assert(version[0] == parts[0][0]);
    }
}

/// Exactly six Rancher minors have a certified k3s version, each its own.
pub proof fn six_minors_are_certified(minor: Seq<char>)
    ensures
        certified_k3s(minor) is Some <==> {
            ||| minor == "2.11"@
            ||| minor == "2.12"@
            ||| minor == "2.13"@
            ||| minor == "2.14"@
            ||| minor == "2.15"@
            ||| minor == "2.16"@
        },
        certified_k3s("2.11"@) == Some("v1.32.3+k3s1"@),
        certified_k3s("2.12"@) == Some("v1.33.3+k3s1"@),
        certified_k3s("2.13"@) == Some("v1.34.3+k3s1"@),
        certified_k3s("2.14"@) == Some("v1.35.5+k3s1"@),
        certified_k3s("2.15"@) == Some("v1.36.2+k3s1"@),
        certified_k3s("2.16"@) == Some("v1.36.3+k3s1"@),
{
    reveal_strlit("2.11");
    reveal_strlit("2.12");
    reveal_strlit("2.13");
    reveal_strlit("2.14");
    reveal_strlit("2.15");
    reveal_strlit("2.16");
    assert("2.11"@[3] == '1' && "2.12"@[3] == '2' && "2.13"@[3] == '3');
    assert("2.14"@[3] == '4' && "2.15"@[3] == '5' && "2.16"@[3] == '6');
}

} // verus!

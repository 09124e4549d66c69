//! The checks on what the instance itself reports: package updates, reboots and disk usage.

use vstd::prelude::*;

use crate::number;
use crate::number::{decimal, read_number};
use crate::report::{check_of, Check, CheckView, Status};
use crate::sections::Sections;
use crate::text;
use crate::text::{lines_of, pieces, texts, trimmed, without_trailing, words_of};

verus! {

/// The use of the root disk, in percent, from which it needs attention.
pub const DISK_ATTENTION_PERCENT: u8 = 80;

/// The first text that holds a character, the empty one where none does.
pub open spec fn first_with(lines: Seq<Seq<char>>, c: char) -> Seq<char>
    decreases lines.len(),
{
    if lines.len() == 0 {
        Seq::empty()
    } else if lines[0].contains(c) {
        lines[0]
    } else {
        first_with(lines.drop_first(), c)
    }
}

fn find_with<'a>(lines: &Vec<&'a [char]>, c: char) -> (r: Option<&'a [char]>)
    ensures
        match r {
            Some(line) => line@ == first_with(texts(lines@), c),
            None => first_with(texts(lines@), c) == Seq::<char>::empty(),
        },
{
    let ghost all = texts(lines@);
    let mut i: usize = 0;
    assert(all.skip(0) =~= all);
    while i < lines.len()
        invariant
            i <= lines.len(),
            all == texts(lines@),
            first_with(all.skip(i as int), c) == first_with(all, c),
        decreases lines.len() - i,
    {
        let line = lines[i];
        assert(all.skip(i as int)[0] == line@);
        assert(all.skip(i as int).drop_first() =~= all.skip(i + 1));
        let at = text::find(line, c);
        proof {
            text::lemma_first_index(line@, c);
        }
        if at < line.len() {
            assert(line@[at as int] == c);
            return Some(line);
        }
        i += 1;
    }
    None
}

/// The check of a section that was not collected.
pub open spec fn not_collected(name: Seq<char>) -> CheckView {
    check_of(name, Status::Unknown, "not collected"@)
}

/// The line with the numbers of pending and of security updates.
pub open spec fn apt_line(raw: Seq<char>) -> Seq<char> {
    trimmed(first_with(lines_of(raw), ';'))
}

/// The number in one field of that line.
pub open spec fn apt_field(raw: Seq<char>, i: int) -> Option<nat> {
    let fields = pieces(apt_line(raw), ';');
    if i < fields.len() {
        read_number(trimmed(fields[i]), u32::MAX as nat)
    } else {
        None
    }
}

/// What the section `apt` comes to: pending security updates need attention.
pub open spec fn os_updates(sections: Map<Seq<char>, Seq<char>>) -> CheckView {
    if !sections.contains_key("apt"@) {
        not_collected("os-updates"@)
    } else {
        let raw = sections["apt"@];
        match (apt_field(raw, 0), apt_field(raw, 1)) {
            (Some(total), Some(security)) => check_of(
                "os-updates"@,
                if security > 0 {
                    Status::Attention
                } else {
                    Status::Okay
                },
                decimal(total) + " pending, "@ + decimal(security) + " security"@,
            ),
            _ => check_of(
                "os-updates"@,
                Status::Unknown,
                "unparsed apt output: "@ + apt_line(raw),
            ),
        }
    }
}

pub fn check_os_updates(sections: &Sections) -> (c: Check)
    ensures
        c@ == os_updates(sections@),
{
    let raw = match sections.get("apt") {
        Some(raw) => raw,
        None => {
            return Check::unknown("os-updates", "not collected");
        },
    };
    let cs = text::chars(raw);
    let lines = text::lines(cs.as_slice());
    let none: Vec<char> = Vec::new();
    let line = match find_with(&lines, ';') {
        Some(line) => text::trim(line),
        None => text::trim(none.as_slice()),
    };
    assert(none@ =~= Seq::<char>::empty());
    assert(line@ == apt_line(raw@));
    let fields = text::split(line, ';');
    assert(texts(fields@)[0] == fields@[0]@);
    let total = number::parse(text::trim(fields[0]), u32::MAX);
    let security = if fields.len() > 1 {
        assert(texts(fields@)[1] == fields@[1]@);
        number::parse(text::trim(fields[1]), u32::MAX)
    } else {
        None
    };
    match (total, security) {
        (Some(total), Some(security)) => {
            let mut detail = number::show(total as u64);
            detail.append(" pending, ");
            detail.append(number::show(security as u64).as_str());
            detail.append(" security");
            if security > 0 {
                Check::attention("os-updates", detail.as_str())
            } else {
                Check::ok("os-updates", detail.as_str())
            }
        },
        _ => {
            let mut detail = "unparsed apt output: ".to_owned();
            detail.append(text::string(line).as_str());
            Check::unknown("os-updates", detail.as_str())
        },
    }
}

/// The packages that a reboot is required for.
pub open spec fn reboot_packages(lines: Seq<Seq<char>>) -> Seq<char> {
    if lines.len() > 1 {
        trimmed(lines[1])
    } else {
        Seq::empty()
    }
}

/// What the section `reboot` comes to: a required reboot needs attention.
pub open spec fn reboot_required(sections: Map<Seq<char>, Seq<char>>) -> CheckView {
    if !sections.contains_key("reboot"@) {
        not_collected("reboot"@)
    } else {
        let lines = lines_of(sections["reboot"@]);
        if lines.len() > 0 && trimmed(lines[0]) == "required"@ {
            check_of(
                "reboot"@,
                Status::Attention,
                if reboot_packages(lines).len() == 0 {
                    "reboot required"@
                } else {
                    "reboot required for: "@ + reboot_packages(lines)
                },
            )
        } else if lines.len() > 0 && trimmed(lines[0]) == "none"@ {
            check_of("reboot"@, Status::Okay, "not required"@)
        } else {
            not_collected("reboot"@)
        }
    }
}

pub fn check_reboot_required(sections: &Sections) -> (c: Check)
    ensures
        c@ == reboot_required(sections@),
{
    let raw = match sections.get("reboot") {
        Some(raw) => raw,
        None => {
            return Check::unknown("reboot", "not collected");
        },
    };
    let cs = text::chars(raw);
    let lines = text::lines(cs.as_slice());
    if lines.len() == 0 {
        return Check::unknown("reboot", "not collected");
    }
    assert(texts(lines@)[0] == lines@[0]@);
    let state = text::trim(lines[0]);
    proof {
        reveal_strlit("required");
        reveal_strlit("none");
    }
    if text::is(state, "required") {
        if lines.len() > 1 {
            assert(texts(lines@)[1] == lines@[1]@);
            let packages = text::trim(lines[1]);
            if packages.len() > 0 {
                let mut detail = "reboot required for: ".to_owned();
                detail.append(text::string(packages).as_str());
                return Check::attention("reboot", detail.as_str());
            }
        }
        Check::attention("reboot", "reboot required")
    } else if text::is(state, "none") {
        Check::ok("reboot", "not required")
    } else {
        Check::unknown("reboot", "not collected")
    }
}

/// The use of the disk, in percent, on a line of `df -P`: its fifth field, a number with a percent
/// sign behind it.
pub open spec fn disk_percent(df: Seq<char>) -> Option<nat> {
    let fields = words_of(df);
    if fields.len() > 4 {
        read_number(without_trailing(fields[4], '%'), u8::MAX as nat)
    } else {
        None
    }
}

/// The size of the container store, as `du` gives it on the second line.
pub open spec fn containerd_size(lines: Seq<Seq<char>>) -> Seq<char> {
    if lines.len() > 1 && words_of(lines[1]).len() > 0 {
        words_of(lines[1])[0]
    } else {
        "unknown"@
    }
}

/// What the section `disk` comes to: a root disk that is nearly full needs attention.
pub open spec fn disk(sections: Map<Seq<char>, Seq<char>>) -> CheckView {
    if !sections.contains_key("disk"@) || lines_of(sections["disk"@]).len() == 0 {
        not_collected("disk"@)
    } else {
        let lines = lines_of(sections["disk"@]);
        match disk_percent(lines[0]) {
            None => check_of(
                "disk"@,
                Status::Unknown,
                "unparsed df output: "@ + trimmed(lines[0]),
            ),
            Some(percent) => check_of(
                "disk"@,
                if percent >= DISK_ATTENTION_PERCENT {
                    Status::Attention
                } else {
                    Status::Okay
                },
                "root "@ + decimal(percent) + "% used, containerd "@ + containerd_size(lines),
            ),
        }
    }
}

pub fn check_disk(sections: &Sections) -> (c: Check)
    ensures
        c@ == disk(sections@),
{
    let raw = match sections.get("disk") {
        Some(raw) => raw,
        None => {
            return Check::unknown("disk", "not collected");
        },
    };
    let cs = text::chars(raw);
    let lines = text::lines(cs.as_slice());
    if lines.len() == 0 {
        return Check::unknown("disk", "not collected");
    }
    let df = lines[0];
    assert(texts(lines@)[0] == df@);
    let fields = text::words(df);
    let percent = if fields.len() > 4 {
        assert(texts(fields@)[4] == fields@[4]@);
        number::parse(text::trim_trailing(fields[4], '%'), 255)
    } else {
        None
    };
    match percent {
        None => {
            let mut detail = "unparsed df output: ".to_owned();
            detail.append(text::string(text::trim(df)).as_str());
            Check::unknown("disk", detail.as_str())
        },
        Some(percent) => {
            let mut containerd = "unknown".to_owned();
            if lines.len() > 1 {
                assert(texts(lines@)[1] == lines@[1]@);
                let sizes = text::words(lines[1]);
                if sizes.len() > 0 {
                    assert(texts(sizes@)[0] == sizes@[0]@);
                    containerd = text::string(sizes[0]);
                }
            }
            let mut detail = "root ".to_owned();
            detail.append(number::show(percent as u64).as_str());
            detail.append("% used, containerd ");
            detail.append(containerd.as_str());
            if percent >= DISK_ATTENTION_PERCENT as u32 {
                Check::attention("disk", detail.as_str())
            } else {
                Check::ok("disk", detail.as_str())
            }
        },
    }
}

/// The shown form of a number is a trimmed line of its own.
proof fn lemma_decimal_plain(n: nat)
    ensures
        decimal(n).len() > 0,
        forall|i: int| 0 <= i < decimal(n).len() ==> number::is_digit(#[trigger] decimal(n)[i]),
        !text::is_white(decimal(n)[0]),
        !text::is_white(decimal(n).last()),
        trimmed(decimal(n)) == decimal(n),
{
    number::decimal_denotes(n);
    assert(number::is_digit(decimal(n)[0]));
    assert(number::is_digit(decimal(n)[decimal(n).len() - 1]));
    text::lemma_trimmed_already(decimal(n));
}

/// Updates are counted as `apt-check` gives them, all of them before the security updates: security
/// updates need attention, any others do not.
#[verifier::spinoff_prover]
pub proof fn security_updates_need_attention(
    sections: Map<Seq<char>, Seq<char>>,
    total: nat,
    security: nat,
    more: Seq<char>,
)
    requires
        sections.contains_key("apt"@),
        sections["apt"@] == decimal(total) + seq![';'] + decimal(security) + seq!['\n'] + more,
        total <= u32::MAX,
        security <= u32::MAX,
    ensures
        os_updates(sections).status == if security == 0 {
            Status::Okay
        } else {
            Status::Attention
        },
        os_updates(sections) == check_of(
            "os-updates"@,
            os_updates(sections).status,
            decimal(total) + " pending, "@ + decimal(security) + " security"@,
        ),
{
    let a = decimal(total);
    let b = decimal(security);
    let line = a + seq![';'] + b;
    lemma_decimal_plain(total);
    lemma_decimal_plain(security);
    assert forall|i: int| 0 <= i < line.len() implies #[trigger] line[i] != '\n' by {
        if i < a.len() {
            assert(number::is_digit(a[i]));
        } else if i > a.len() {
            assert(number::is_digit(b[i - a.len() - 1]));
        }
    }
    assert(line.last() == b.last());
    assert(line[0] == a[0]);
    assert(number::is_digit(b[b.len() - 1]));
    text::first_line_is_read(line, more);
    assert(line[a.len() as int] == ';');
    assert(line.contains(';'));
    let lines = lines_of(sections["apt"@]);
    assert(lines[0] == line);
    text::lemma_trimmed_already(line);
    assert(apt_line(sections["apt"@]) == line);
    assert(text::free_of(a, ';')) by {
        assert forall|i: int| 0 <= i < a.len() implies #[trigger] a[i] != ';' by {
            assert(number::is_digit(a[i]));
        }
    }
    assert(text::free_of(b, ';')) by {
        assert forall|i: int| 0 <= i < b.len() implies #[trigger] b[i] != ';' by {
            assert(number::is_digit(b[i]));
        }
    }
    text::first_piece_is_split_off(a, ';', b);
    text::first_piece_is_split_off(b, ';', b);
    assert(pieces(line, ';') =~= seq![a, b]);
    number::decimal_reads_back(total, u32::MAX as nat);
    number::decimal_reads_back(security, u32::MAX as nat);
}

/// A line without white space around it and without a line break.
spec fn is_trim_line(s: Seq<char>) -> bool {
    &&& s.len() > 0
    &&& !text::is_white(s[0])
    &&& !text::is_white(s.last())
    &&& text::free_of(s, '\n')
}

/// A required reboot needs attention and names the packages behind it; where none is required all is
/// fine; anything else is not known.
pub proof fn required_reboot_needs_attention(
    sections: Map<Seq<char>, Seq<char>>,
    packages: Seq<char>,
    more: Seq<char>,
    word: Seq<char>,
)
    requires
        sections.contains_key("reboot"@),
        packages.len() > 0 && !text::is_white(packages[0]) && !text::is_white(packages.last()),
        text::free_of(packages, '\n'),
        word.len() > 0 && !text::is_white(word[0]) && !text::is_white(word.last()),
        text::free_of(word, '\n'),
    ensures
        sections["reboot"@] == "required"@ + seq!['\n'] + (packages + seq!['\n'] + more)
            ==> reboot_required(sections) == check_of(
            "reboot"@,
            Status::Attention,
            "reboot required for: "@ + packages,
        ),
        sections["reboot"@] == "required"@ ==> reboot_required(sections) == check_of(
            "reboot"@,
            Status::Attention,
            "reboot required"@,
        ),
        sections["reboot"@] == word + seq!['\n'] + more ==> (reboot_required(sections).status
            == Status::Attention <==> word == "required"@) && (reboot_required(sections).status
            == Status::Okay <==> word == "none"@),
{
    reveal_strlit("required");
    reveal_strlit("none");
    let required = "required"@;
    assert(is_trim_line(required));
    text::lemma_trimmed_already(required);
    text::lemma_trimmed_already(packages);
    text::lemma_trimmed_already(word);
    text::first_line_is_read(packages, more);
    text::first_line_is_read(required, packages + seq!['\n'] + more);
    text::single_line_is_read(required);
    text::first_line_is_read(word, more);
    let lines = lines_of(sections["reboot"@]);
    if sections["reboot"@] == required + seq!['\n'] + (packages + seq!['\n'] + more) {
        assert(lines[0] == required && lines[1] == packages);
    }
    if sections["reboot"@] == word + seq!['\n'] + more {
        assert(lines[0] == word);
    }
}

/// Whether a text is a field of a line: without white space, and not empty.
pub open spec fn is_field(s: Seq<char>) -> bool {
    s.len() > 0 && forall|i: int| 0 <= i < s.len() ==> !text::is_white(#[trigger] s[i])
}

/// The use of the root disk is the fifth field of the first line of `df -P`: from four fifths on it
/// needs attention, below that all is fine. The size of the container store is the first field of the
/// second line.
pub proof fn full_disk_needs_attention(
    sections: Map<Seq<char>, Seq<char>>,
    fields: Seq<Seq<char>>,
    percent: nat,
    mount: Seq<char>,
    size: Seq<char>,
    path: Seq<char>,
    more: Seq<char>,
)
    requires
        fields.len() == 4,
        forall|i: int| 0 <= i < 4 ==> is_field(#[trigger] fields[i]),
        is_field(mount),
        is_field(size),
        text::free_of(path, '\n'),
        path.len() > 0 ==> path.last() != '\r',
        percent <= u8::MAX,
        sections.contains_key("disk"@),
        sections["disk"@] == df_line(fields, percent, mount) + seq!['\n'] + (size + seq!['\t'] + path
            + seq!['\n'] + more),
    ensures
        disk(sections).status == if percent < 80 {
            Status::Okay
        } else {
            Status::Attention
        },
        disk(sections) == check_of(
            "disk"@,
            disk(sections).status,
            "root "@ + decimal(percent) + "% used, containerd "@ + size,
        ),
{
    let df = df_line(fields, percent, mount);
    let du = size + seq!['\t'] + path;
    let used = decimal(percent) + seq!['%'];
    lemma_decimal_plain(percent);
    lemma_df_line(fields, percent, mount);
    assert(size + seq!['\t'] + path + seq!['\n'] + more =~= du + seq!['\n'] + more);
    text::first_line_is_read(df, du + seq!['\n'] + more);
    assert forall|i: int| 0 <= i < du.len() implies #[trigger] du[i] != '\n' by {
        if i < size.len() {
            assert(!text::is_white(size[i]));
        } else if i > size.len() {
            assert(du[i] == path[i - size.len() - 1]);
        }
    }
    assert(du.len() > 0 && du.last() != '\r') by {
        if path.len() > 0 {
            assert(du.last() == path.last());
        }
    }
    text::first_line_is_read(du, more);
    let lines = lines_of(sections["disk"@]);
    assert(lines[0] == df && lines[1] == du);
    text::first_word_is_read(size, '\t', path);
    assert(used.last() == '%');
    assert(used.drop_last() =~= decimal(percent));
    assert(number::is_digit(decimal(percent)[decimal(percent).len() - 1]));
    reveal_with_fuel(without_trailing, 2);
    assert(without_trailing(used, '%') == decimal(percent));
    number::decimal_reads_back(percent, u8::MAX as nat);
}

/// A line of `df -P`: four fields, the use in percent, and where the disk is mounted.
pub open spec fn df_line(fields: Seq<Seq<char>>, percent: nat, mount: Seq<char>) -> Seq<char> {
    fields[0] + seq![' '] + (fields[1] + seq![' '] + (fields[2] + seq![' '] + (fields[3] + seq![' ']
        + (decimal(percent) + seq!['%'] + seq![' '] + mount))))
}

proof fn lemma_field_join(a: Seq<char>, b: Seq<char>)
    requires
        is_field(a),
        b.len() > 0,
        text::free_of(b, '\n'),
        b.last() != '\r',
    ensures
        text::free_of(a + seq![' '] + b, '\n'),
        (a + seq![' '] + b).last() == b.last(),
        words_of(a + seq![' '] + b) == seq![a] + words_of(b),
{
    let s = a + seq![' '] + b;
    assert forall|i: int| 0 <= i < s.len() implies #[trigger] s[i] != '\n' by {
        if i < a.len() {
            assert(!text::is_white(a[i]));
        } else if i > a.len() {
            assert(s[i] == b[i - a.len() - 1]);
        }
    }
    text::first_word_is_read(a, ' ', b);
}

proof fn lemma_df_line(fields: Seq<Seq<char>>, percent: nat, mount: Seq<char>)
    requires
        fields.len() == 4,
        forall|i: int| 0 <= i < 4 ==> is_field(#[trigger] fields[i]),
        is_field(mount),
    ensures
        text::free_of(df_line(fields, percent, mount), '\n'),
        df_line(fields, percent, mount).last() != '\r',
        words_of(df_line(fields, percent, mount)).len() > 4,
        words_of(df_line(fields, percent, mount))[4] == decimal(percent) + seq!['%'],
{
    let used = decimal(percent) + seq!['%'];
    lemma_decimal_plain(percent);
    assert forall|i: int| 0 <= i < used.len() implies !text::is_white(#[trigger] used[i]) by {
        if i < decimal(percent).len() {
            assert(number::is_digit(decimal(percent)[i]));
        }
    }
    assert(is_field(used));
    assert(!text::is_white(mount[mount.len() - 1]));
    assert(text::free_of(mount, '\n')) by {
        assert forall|i: int| 0 <= i < mount.len() implies #[trigger] mount[i] != '\n' by {
            assert(!text::is_white(mount[i]));
        }
    }
    let e = used + seq![' '] + mount;
    let d = fields[3] + seq![' '] + e;
    let c = fields[2] + seq![' '] + d;
    let b = fields[1] + seq![' '] + c;
    lemma_field_join(used, mount);
    lemma_field_join(fields[3], e);
    lemma_field_join(fields[2], d);
    lemma_field_join(fields[1], c);
    lemma_field_join(fields[0], b);
}

/// The updates are read off the first line with a semicolon, whatever is written before it and behind
/// it; without such a line there is nothing to read.
pub proof fn updates_are_on_the_first_line_with_a_semicolon(lines: Seq<Seq<char>>, k: int)
    ensures
        (0 <= k < lines.len() && lines[k].contains(';') && forall|j: int|
            0 <= j < k ==> !(#[trigger] lines[j]).contains(';')) ==> first_with(lines, ';')
            == lines[k],
        (forall|j: int| 0 <= j < lines.len() ==> !(#[trigger] lines[j]).contains(';'))
            ==> first_with(lines, ';').len() == 0,
        forall|raw: Seq<char>| #[trigger]
            lines_of(raw) == lines ==> apt_line(raw) == trimmed(first_with(lines, ';')),
    decreases lines.len(),
{
    if lines.len() > 0 {
        let rest = lines.drop_first();
        updates_are_on_the_first_line_with_a_semicolon(rest, k - 1);
        assert(forall|j: int| 0 <= j < rest.len() ==> #[trigger] rest[j] == lines[j + 1]);
        if k > 0 && k < lines.len() {
            assert(rest[k - 1] == lines[k]);
        }
    }
}

/// A check whose section was not collected is unknown and says so.
pub proof fn missing_section_is_unknown(sections: Map<Seq<char>, Seq<char>>)
    ensures
        !sections.contains_key("apt"@) ==> os_updates(sections) == check_of(
            "os-updates"@,
            Status::Unknown,
            "not collected"@,
        ),
        !sections.contains_key("reboot"@) ==> reboot_required(sections) == check_of(
            "reboot"@,
            Status::Unknown,
            "not collected"@,
        ),
        !sections.contains_key("disk"@) ==> disk(sections) == check_of(
            "disk"@,
            Status::Unknown,
            "not collected"@,
        ),
{
}

} // verus!

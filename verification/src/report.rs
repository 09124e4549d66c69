//! The health report: checks, their statuses and the table they are shown in.

use vstd::prelude::*;
use vstd::utf8::encode_utf8;

use crate::number;
use crate::number::decimal;
use crate::text;
use crate::text::{joined, lines_of, strings, texts, trimmed};

verus! {

/// What a check came to.
#[derive(Debug, Clone, Copy, PartialEq, Eq, Structural)]
pub enum Status {
    Okay,
    Attention,
    Unknown,
}

pub open spec fn label_of(status: Status) -> Seq<char> {
    match status {
        Status::Okay => "OK"@,
        Status::Attention => "ATTENTION"@,
        Status::Unknown => "UNKNOWN"@,
    }
}

impl Status {
    /// The word that the table shows for a status.
    pub fn label(&self) -> (s: &'static str)
        ensures
            s@ == label_of(*self),
    {
        match self {
            Status::Okay => "OK",
            Status::Attention => "ATTENTION",
            Status::Unknown => "UNKNOWN",
        }
    }
}

/// One line of the report.
#[derive(Debug)]
pub struct Check {
    pub name: String,
    pub status: Status,
    pub detail: String,
}

/// The texts of a check.
pub struct CheckView {
    pub name: Seq<char>,
    pub status: Status,
    pub detail: Seq<char>,
}

impl View for Check {
    type V = CheckView;

    open spec fn view(&self) -> CheckView {
        CheckView { name: self.name@, status: self.status, detail: self.detail@ }
    }
}

/// The texts that are more than white space, trimmed.
pub open spec fn kept(lines: Seq<Seq<char>>) -> Seq<Seq<char>>
    decreases lines.len(),
{
    if lines.len() == 0 {
        Seq::empty()
    } else {
        let line = trimmed(lines[0]);
        let rest = kept(lines.drop_first());
        if line.len() > 0 {
            seq![line] + rest
        } else {
            rest
        }
    }
}

/// A text on one line: its lines trimmed, the blank ones left out, semicolons between them.
pub open spec fn flat(detail: Seq<char>) -> Seq<char> {
    joined(kept(lines_of(detail)), "; "@)
}

/// The check of that name and status with a detail brought onto one line.
pub open spec fn check_of(name: Seq<char>, status: Status, detail: Seq<char>) -> CheckView {
    CheckView { name, status, detail: flat(detail) }
}

fn flatten(detail: &str) -> (r: String)
    ensures
        r@ == flat(detail@),
{
    let cs = text::chars(detail);
    let lines = text::lines(cs.as_slice());
    let ghost all = texts(lines@);
    let mut parts: Vec<String> = Vec::new();
    let mut i: usize = 0;
    assert(all.skip(0) =~= all);
    assert(strings(parts@) + kept(all.skip(0)) =~= kept(all));
    while i < lines.len()
        invariant
            i <= lines.len(),
            all == texts(lines@),
            strings(parts@) + kept(all.skip(i as int)) == kept(all),
        decreases lines.len() - i,
    {
        let ghost before = parts@;
        let ghost rest = all.skip(i as int);
        assert(rest.drop_first() =~= all.skip(i + 1));
        assert(rest[0] == lines@[i as int]@);
        let line = text::trim(lines[i]);
        if line.len() > 0 {
            let line = text::string(line);
            let ghost kept_line = line;
            parts.push(line);
            proof {
                text::lemma_strings_push(before, kept_line);
                assert(strings(parts@) + kept(all.skip(i + 1)) =~= strings(before) + (
                seq![kept_line@] + kept(all.skip(i + 1))));
            }
        }
        i += 1;
    }
    assert(strings(parts@) =~= kept(all));
    text::join(&parts, "; ")
}

impl Check {
    /// A check. Its detail is brought onto one line, for the table.
    pub fn new(name: &str, status: Status, detail: &str) -> (c: Check)
        ensures
            c@ == check_of(name@, status, detail@),
    {
        let detail = flatten(detail);
        Check { name: name.to_owned(), status, detail }
    }

    pub fn ok(name: &str, detail: &str) -> (c: Check)
        ensures
            c@ == check_of(name@, Status::Okay, detail@),
    {
        Check::new(name, Status::Okay, detail)
    }

    pub fn attention(name: &str, detail: &str) -> (c: Check)
        ensures
            c@ == check_of(name@, Status::Attention, detail@),
    {
        Check::new(name, Status::Attention, detail)
    }

    pub fn unknown(name: &str, detail: &str) -> (c: Check)
        ensures
            c@ == check_of(name@, Status::Unknown, detail@),
    {
        Check::new(name, Status::Unknown, detail)
    }
}

/// The report on one instance.
#[derive(Debug)]
pub struct Report {
    pub name: String,
    pub instance_id: String,
    pub fqdn: String,
    pub region: String,
    pub checks: Vec<Check>,
}

/// The texts of a report.
pub struct ReportView {
    pub name: Seq<char>,
    pub instance_id: Seq<char>,
    pub fqdn: Seq<char>,
    pub region: Seq<char>,
    pub checks: Seq<CheckView>,
}

/// The texts of a list of checks.
pub open spec fn checks_of(checks: Seq<Check>) -> Seq<CheckView> {
    Seq::new(checks.len(), |i: int| checks[i]@)
}

impl View for Report {
    type V = ReportView;

    open spec fn view(&self) -> ReportView {
        ReportView {
            name: self.name@,
            instance_id: self.instance_id@,
            fqdn: self.fqdn@,
            region: self.region@,
            checks: checks_of(self.checks@),
        }
    }
}

/// How many checks have a status.
pub open spec fn count_of(checks: Seq<CheckView>, status: Status) -> nat
    decreases checks.len(),
{
    if checks.len() == 0 {
        0
    } else {
        count_of(checks.drop_first(), status) + if checks[0].status == status {
            1nat
        } else {
            0nat
        }
    }
}

/// Whether some check needs attention.
pub open spec fn attention_in(checks: Seq<CheckView>) -> bool {
    exists|i: int| 0 <= i < checks.len() && (#[trigger] checks[i]).status == Status::Attention
}

/// The width of the name column: the longest name, in bytes.
pub open spec fn width_of(checks: Seq<CheckView>) -> usize
    decreases checks.len(),
{
    if checks.len() == 0 {
        0
    } else {
        let n = encode_utf8(checks[0].name).len() as usize;
        let rest = width_of(checks.drop_first());
        if rest >= n {
            rest
        } else {
            n
        }
    }
}

/// A text with blanks behind it, up to a width in characters.
pub open spec fn padded(s: Seq<char>, width: int) -> Seq<char> {
    s + Seq::new((if width > s.len() { width - s.len() } else { 0 }) as nat, |i: int| ' ')
}

/// A row of the table.
pub open spec fn row_of(check: CheckView, width: int) -> Seq<char> {
    "  "@ + padded(check.name, width) + "  "@ + padded(label_of(check.status), 9) + "  "@
        + check.detail + "\n"@
}

pub open spec fn rows_of(checks: Seq<CheckView>, width: int) -> Seq<char>
    decreases checks.len(),
{
    if checks.len() == 0 {
        Seq::empty()
    } else {
        row_of(checks[0], width) + rows_of(checks.drop_first(), width)
    }
}

/// The report as it is printed.
pub open spec fn page_of(report: ReportView) -> Seq<char> {
    report.name + " ("@ + report.instance_id + ") "@ + report.fqdn + " ["@ + report.region
        + "]\n\n"@ + rows_of(report.checks, width_of(report.checks) as int) + "\n"@ + decimal(
        count_of(report.checks, Status::Attention),
    ) + " need attention, "@ + decimal(count_of(report.checks, Status::Unknown)) + " unknown\n"@
}

fn push_padded(out: &mut String, s: &str, width: usize)
    ensures
        final(out)@ == old(out)@ + padded(s@, width as int),
{
    out.append(s);
    let cs = text::chars(s);
    let mut n: usize = cs.len();
    let ghost start = n;
    assert(out@ =~= old(out)@ + (s@ + Seq::new(0, |i: int| ' ')));
    while n < width
        invariant
            start == s@.len(),
            start <= n,
            n <= width || n == start,
            out@ == old(out)@ + (s@ + Seq::new((n - start) as nat, |i: int| ' ')),
        decreases width - n,
    {
        out.push(' ');
        n += 1;
        assert(out@ =~= old(out)@ + (s@ + Seq::new((n - start) as nat, |i: int| ' ')));
    }
}

fn push_row(out: &mut String, check: &Check, width: usize)
    ensures
        final(out)@ == old(out)@ + row_of(check@, width as int),
{
    let mut row = "  ".to_owned();
    push_padded(&mut row, check.name.as_str(), width);
    row.append("  ");
    push_padded(&mut row, check.status.label(), 9);
    row.append("  ");
    row.append(check.detail.as_str());
    row.append("\n");
    out.append(row.as_str());
}

impl Report {
    /// Whether some check needs attention.
    pub fn needs_attention(&self) -> (b: bool)
        ensures
            b == attention_in(self@.checks),
    {
        let ghost all = self@.checks;
        let mut i: usize = 0;
        while i < self.checks.len()
            invariant
                i <= self.checks.len(),
                all == checks_of(self.checks@),
                forall|j: int| 0 <= j < i ==> (#[trigger] all[j]).status != Status::Attention,
            decreases self.checks.len() - i,
        {
            if self.checks[i].status == Status::Attention {
                assert(all[i as int].status == Status::Attention);
                return true;
            }
            i += 1;
        }
        false
    }

    fn count(&self, status: Status) -> (n: u64)
        ensures
            n == count_of(self@.checks, status),
    {
        let ghost all = self@.checks;
        let mut n: u64 = 0;
        let mut i: usize = 0;
        assert(all.skip(0) =~= all);
        while i < self.checks.len()
            invariant
                i <= self.checks.len(),
                all == checks_of(self.checks@),
                n <= i,
                n + count_of(all.skip(i as int), status) == count_of(all, status),
            decreases self.checks.len() - i,
        {
            assert(all.skip(i as int).drop_first() =~= all.skip(i + 1));
            assert(all.skip(i as int)[0] == self.checks@[i as int]@);
            if self.checks[i].status == status {
                n += 1;
            }
            i += 1;
        }
        n
    }

    fn width(&self) -> (w: usize)
        ensures
            w == width_of(self@.checks),
    {
        let ghost all = self@.checks;
        let mut w: usize = 0;
        let mut i: usize = self.checks.len();
        assert(all.skip(i as int) =~= Seq::<CheckView>::empty());
        while i > 0
            invariant
                i <= self.checks.len(),
                all == checks_of(self.checks@),
                w == width_of(all.skip(i as int)),
            decreases i,
        {
            i -= 1;
            assert(all.skip(i as int).drop_first() =~= all.skip(i + 1));
            assert(all.skip(i as int)[0] == self.checks@[i as int]@);
            let n = self.checks[i].name.as_str().len();
            if w < n {
                w = n;
            }
        }
        assert(all.skip(0) =~= all);
        w
    }

    /// The report as it is printed: a heading, the checks in a table, and a tally.
    pub fn render(&self) -> (r: String)
        ensures
            r@ == page_of(self@),
    {
        let mut out = self.name.clone();
        out.append(" (");
        out.append(self.instance_id.as_str());
        out.append(") ");
        out.append(self.fqdn.as_str());
        out.append(" [");
        out.append(self.region.as_str());
        out.append("]\n\n");
        let width = self.width();
        let ghost all = self@.checks;
        let ghost head = out@;
        let mut i: usize = 0;
        assert(all.skip(0) =~= all);
        assert(out@ + rows_of(all.skip(0), width as int) == head + rows_of(all, width as int));
        while i < self.checks.len()
            invariant
                i <= self.checks.len(),
                all == checks_of(self.checks@),
                out@ + rows_of(all.skip(i as int), width as int) == head + rows_of(
                    all,
                    width as int,
                ),
            decreases self.checks.len() - i,
        {
            let ghost before = out@;
            push_row(&mut out, &self.checks[i], width);
            proof {
                let rest = all.skip(i as int);
                assert(rest.drop_first() =~= all.skip(i + 1));
                assert(rest[0] == self.checks@[i as int]@);
                let tail = rows_of(all.skip(i + 1), width as int);
                assert(out@ + tail =~= before + (row_of(rest[0], width as int) + tail));
            }
            i += 1;
        }
        assert(out@ =~= head + rows_of(all, width as int));
        out.append("\n");
        out.append(number::show(self.count(Status::Attention)).as_str());
        out.append(" need attention, ");
        out.append(number::show(self.count(Status::Unknown)).as_str());
        out.append(" unknown\n");
        out
    }
}

/// The tally and the exit status agree: a report needs attention exactly where it counts a check
/// that does.
pub proof fn tally_tells_attention(checks: Seq<CheckView>)
    ensures
        attention_in(checks) <==> count_of(checks, Status::Attention) > 0,
    decreases checks.len(),
{
    if checks.len() > 0 {
        let rest = checks.drop_first();
        tally_tells_attention(rest);
        if attention_in(rest) {
            let i = choose|i: int|
                0 <= i < rest.len() && (#[trigger] rest[i]).status == Status::Attention;
            assert(checks[i + 1] == rest[i]);
        }
        if attention_in(checks) {
            let i = choose|i: int|
                0 <= i < checks.len() && (#[trigger] checks[i]).status == Status::Attention;
            if i > 0 {
                assert(rest[i - 1] == checks[i]);
            }
        }
    }
}

proof fn lemma_kept_free(lines: Seq<Seq<char>>, c: char)
    requires
        forall|i: int| 0 <= i < lines.len() ==> text::free_of(#[trigger] lines[i], c),
    ensures
        forall|i: int| 0 <= i < kept(lines).len() ==> text::free_of(#[trigger] kept(lines)[i], c),
    decreases lines.len(),
{
    if lines.len() > 0 {
        let rest = lines.drop_first();
        assert forall|i: int| 0 <= i < rest.len() implies text::free_of(#[trigger] rest[i], c) by {
            assert(rest[i] == lines[i + 1]);
        }
        lemma_kept_free(rest, c);
        assert(text::free_of(lines[0], c));
        text::lemma_trimmed_free(lines[0], c);
        let line = trimmed(lines[0]);
        assert forall|i: int| 0 <= i < kept(lines).len() implies text::free_of(
            #[trigger] kept(lines)[i],
            c,
        ) by {
            if line.len() > 0 {
                if i > 0 {
                    assert(kept(lines)[i] == kept(rest)[i - 1]);
                }
            } else {
                assert(kept(lines)[i] == kept(rest)[i]);
            }
        }
    }
}

/// Every check takes one line of the table: no detail holds a line feed, whatever it was made from.
pub proof fn details_hold_one_line(name: Seq<char>, status: Status, detail: Seq<char>)
    ensures
        !check_of(name, status, detail).detail.contains('\n'),
{
    text::lemma_lines_free(detail);
    lemma_kept_free(lines_of(detail), '\n');
    reveal_strlit("; ");
    text::lemma_joined_free(kept(lines_of(detail)), "; "@, '\n');
}

/// A detail that is one trimmed line is shown as it is, and one of two such lines with a semicolon
/// between them.
pub proof fn trimmed_lines_are_kept(a: Seq<char>, b: Seq<char>)
    requires
        a.len() > 0 && !text::is_white(a[0]) && !text::is_white(a.last()),
        b.len() > 0 && !text::is_white(b[0]) && !text::is_white(b.last()),
        text::free_of(a, '\n'),
        text::free_of(b, '\n'),
    ensures
        flat(a) == a,
        flat(a + seq!['\n'] + b) == a + "; "@ + b,
{
    text::single_line_is_read(a);
    text::single_line_is_read(b);
    text::first_line_is_read(a, b);
    text::lemma_trimmed_already(a);
    text::lemma_trimmed_already(b);
    let none = Seq::<Seq<char>>::empty();
    assert(seq![a].drop_first() =~= none);
    assert(seq![b].drop_first() =~= none);
    assert(kept(none) =~= none);
    assert(kept(seq![a]) =~= seq![a]);
    assert(kept(seq![b]) =~= seq![b]);
    let two = seq![a] + seq![b];
    assert(two.drop_first() =~= seq![b]);
    assert(kept(two) =~= seq![a, b]);
    assert(seq![a, b].drop_first() =~= seq![b]);
    assert(joined(seq![a, b], "; "@) == a + "; "@ + joined(seq![b], "; "@));
}

/// The tally counts each check once, under its own status, and the rows come in the order of the checks.
pub proof fn every_check_is_counted_and_shown(checks: Seq<CheckView>, check: CheckView, width: int)
    ensures
        count_of(Seq::empty(), Status::Attention) == 0,
        count_of(Seq::empty(), Status::Unknown) == 0,
        count_of(checks.push(check), Status::Attention) == count_of(checks, Status::Attention)
            + if check.status == Status::Attention {
            1nat
        } else {
            0nat
        },
        count_of(checks.push(check), Status::Unknown) == count_of(checks, Status::Unknown)
            + if check.status == Status::Unknown {
            1nat
        } else {
            0nat
        },
        rows_of(checks.push(check), width) == rows_of(checks, width) + row_of(check, width),
    decreases checks.len(),
{
    let all = checks.push(check);
    if checks.len() == 0 {
        reveal_with_fuel(count_of, 2);
        reveal_with_fuel(rows_of, 2);
        assert(all[0] == check);
        assert(rows_of(all, width) =~= rows_of(checks, width) + row_of(check, width));
    } else {
        let rest = checks.drop_first();
        every_check_is_counted_and_shown(rest, check, width);
        assert(all.drop_first() =~= rest.push(check));
        assert(rows_of(all, width) =~= rows_of(checks, width) + row_of(check, width));
    }
}

/// The details stand in one column: a row has its detail behind the name and the status, each padded to
/// one width, wherever the name is no wider than its column.
pub proof fn details_stand_in_one_column(check: CheckView, width: int)
    requires
        check.name.len() <= width,
    ensures
        row_of(check, width).len() == width + 15 + check.detail.len() + 1,
        row_of(check, width).subrange(2, 2 + check.name.len() as int) == check.name,
        row_of(check, width).skip(width + 15) == check.detail.push('\n'),
        label_of(check.status).is_prefix_of(row_of(check, width).skip(width + 4)),
{
    reveal_strlit("  ");
    reveal_strlit("\n");
    reveal_strlit("OK");
    reveal_strlit("ATTENTION");
    reveal_strlit("UNKNOWN");
    let row = row_of(check, width);
    let label = label_of(check.status);
    assert(padded(check.name, width).len() == width);
    assert(padded(label, 9).len() == 9);
    assert(row.subrange(2, 2 + check.name.len() as int) =~= check.name);
    assert(row.skip(width + 15) =~= check.detail.push('\n'));
    assert(row.skip(width + 4).take(label.len() as int) =~= label);
}

/// The column of the names is as wide as the longest of them, in bytes.
pub proof fn names_fit_their_column(checks: Seq<CheckView>)
    ensures
        forall|i: int|
            0 <= i < checks.len() ==> encode_utf8((#[trigger] checks[i]).name).len() as usize
                <= width_of(checks),
        checks.len() > 0 ==> exists|i: int|
            0 <= i < checks.len() && encode_utf8((#[trigger] checks[i]).name).len() as usize
                == width_of(checks),
    decreases checks.len(),
{
    if checks.len() > 0 {
        let rest = checks.drop_first();
        names_fit_their_column(rest);
        assert forall|i: int| 0 <= i < checks.len() implies encode_utf8(
            (#[trigger] checks[i]).name,
        ).len() as usize <= width_of(checks) by {
            if i > 0 {
                assert(rest[i - 1] == checks[i]);
            }
        }
        if width_of(checks) != encode_utf8(checks[0].name).len() as usize {
            let k = choose|k: int|
                0 <= k < rest.len() && encode_utf8((#[trigger] rest[k]).name).len() as usize
                    == width_of(rest);
            assert(checks[k + 1] == rest[k]);
        }
    }
}

} // verus!

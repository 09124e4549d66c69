//! The index of Rancher's charts, and the check of the running chart against it.

use vstd::prelude::*;

use crate::clock::{earlier, utc_text, UtcTime};
use crate::cluster::{RunningChart, RunningChartView};
use crate::report::{check_of, Check, CheckView, Status};
use crate::text;
use crate::text::{after_prefix, opt, without_leading, without_trailing};
use crate::versions::{chart_minor, minor_of_chart};

verus! {

/// A published chart.
#[derive(Debug)]
pub struct ChartEntry {
    pub version: String,
    pub app_version: String,
    pub created: UtcTime,
}

/// What is known of a published chart.
pub struct ChartEntryView {
    pub version: Seq<char>,
    pub app_version: Seq<char>,
    pub created: (i64, u32),
}

impl View for ChartEntry {
    type V = ChartEntryView;

    open spec fn view(&self) -> ChartEntryView {
        ChartEntryView {
            version: self.version@,
            app_version: self.app_version@,
            created: self.created@,
        }
    }
}

impl Clone for ChartEntry {
    fn clone(&self) -> (r: ChartEntry)
        ensures
            r@ == self@,
    {
        ChartEntry {
            version: self.version.clone(),
            app_version: self.app_version.clone(),
            created: self.created,
        }
    }
}

/// The charts of a repository, by name.
#[derive(Debug)]
pub struct ChartIndex {
    pub entries: Vec<(String, Vec<ChartEntry>)>,
}

/// What is known of a list of charts.
pub open spec fn entry_views(entries: Seq<ChartEntry>) -> Seq<ChartEntryView> {
    Seq::new(entries.len(), |i: int| entries[i]@)
}

/// Charts by name.
pub open spec fn index_views(
    entries: Seq<(String, Vec<ChartEntry>)>,
) -> Seq<(Seq<char>, Seq<ChartEntryView>)> {
    Seq::new(entries.len(), |i: int| (entries[i].0@, entry_views(entries[i].1@)))
}

impl View for ChartIndex {
    type V = Seq<(Seq<char>, Seq<ChartEntryView>)>;

    open spec fn view(&self) -> Seq<(Seq<char>, Seq<ChartEntryView>)> {
        index_views(self.entries@)
    }
}

/// The charts of a name, none where the index has no such name.
pub open spec fn charts_named(
    index: Seq<(Seq<char>, Seq<ChartEntryView>)>,
    name: Seq<char>,
) -> Seq<ChartEntryView>
    decreases index.len(),
{
    if index.len() == 0 {
        Seq::empty()
    } else if index[0].0 == name {
        index[0].1
    } else {
        charts_named(index.drop_first(), name)
    }
}

/// Whether a chart is a head build of a minor.
pub open spec fn is_head_of(entry: ChartEntryView, minor: Seq<char>) -> bool {
    (without_leading(minor, 'v') + "."@).is_prefix_of(entry.version) && "-head"@.is_suffix_of(
        entry.version,
    )
}

/// The head build of a minor that was published last, of several at one time the last in the list.
pub open spec fn newest_head(entries: Seq<ChartEntryView>, minor: Seq<char>) -> Option<
    ChartEntryView,
>
    decreases entries.len(),
{
    if entries.len() == 0 {
        None
    } else {
        let before = newest_head(entries.drop_last(), minor);
        let last = entries.last();
        if !is_head_of(last, minor) {
            before
        } else {
            match before {
                Some(best) => if earlier(last.created, best.created) {
                    before
                } else {
                    Some(last)
                },
                None => Some(last),
            }
        }
    }
}

/// What is known of a chart, where there is one.
pub open spec fn entry_view(entry: Option<ChartEntry>) -> Option<ChartEntryView> {
    match entry {
        Some(e) => Some(e@),
        None => None,
    }
}

/// The newest head build of Rancher for a minor, by the time of its publication.
///
/// Never by its version: a repository carries several minors side by side, and head builds differ in
/// a hash, which orders them at random.
pub fn newest_head_chart(index: &ChartIndex, minor: &str) -> (r: Option<ChartEntry>)
    ensures
        entry_view(r) == newest_head(charts_named(index@, "rancher"@), minor@),
{
    let ghost all = index@;
    let mut i: usize = 0;
    assert(all.skip(0) =~= all);
    while i < index.entries.len()
        invariant
            i <= index.entries.len(),
            all == index_views(index.entries@),
            charts_named(all.skip(i as int), "rancher"@) == charts_named(all, "rancher"@),
        decreases index.entries.len() - i,
    {
        assert(all.skip(i as int)[0] == (
            index.entries@[i as int].0@,
            entry_views(index.entries@[i as int].1@),
        ));
        assert(all.skip(i as int).drop_first() =~= all.skip(i + 1));
        if text::same(index.entries[i].0.as_str(), "rancher") {
            return newest_in(&index.entries[i].1, minor);
        }
        i += 1;
    }
    None
}

fn newest_in(entries: &Vec<ChartEntry>, minor: &str) -> (r: Option<ChartEntry>)
    ensures
        entry_view(r) == newest_head(entry_views(entries@), minor@),
{
    let minor_chars = text::chars(minor);
    let mut prefix = text::string(text::trim_leading(minor_chars.as_slice(), 'v'));
    prefix.append(".");
    let prefix_chars = text::chars(prefix.as_str());
    let suffix_chars = text::chars("-head");
    let ghost all = entry_views(entries@);
    let mut best: Option<usize> = None;
    let mut i: usize = 0;
    while i < entries.len()
        invariant
            i <= entries.len(),
            all == entry_views(entries@),
            prefix_chars@ == without_leading(minor@, 'v') + "."@,
            suffix_chars@ == "-head"@,
            match best {
                Some(b) => b < i && newest_head(all.take(i as int), minor@) == Some(
                    entries@[b as int]@,
                ),
                None => newest_head(all.take(i as int), minor@) is None,
            },
        decreases entries.len() - i,
    {
        let entry = &entries[i];
        assert(all.take(i + 1).drop_last() =~= all.take(i as int));
        assert(all.take(i + 1).last() == entry@);
        let version = text::chars(entry.version.as_str());
        if text::starts_with(version.as_slice(), prefix_chars.as_slice()) && text::ends_with(
            version.as_slice(),
            suffix_chars.as_slice(),
        ) {
            match best {
                Some(b) => {
                    if !entry.created.before(&entries[b].created) {
                        best = Some(i);
                    }
                },
                None => {
                    best = Some(i);
                },
            }
        }
        i += 1;
    }
    assert(all.take(i as int) =~= all);
    match best {
        Some(b) => Some(entries[b].clone()),
        None => None,
    }
}

/// What came of fetching the index.
#[derive(Debug)]
pub enum IndexReply {
    FetchFailed(String),
    ReadFailed(String),
    ParseFailed(String),
    Index(ChartIndex),
}

/// The texts and charts of such a reply.
pub enum IndexReplyView {
    FetchFailed(Seq<char>),
    ReadFailed(Seq<char>),
    ParseFailed(Seq<char>),
    Index(Seq<(Seq<char>, Seq<ChartEntryView>)>),
}

impl View for IndexReply {
    type V = IndexReplyView;

    open spec fn view(&self) -> IndexReplyView {
        match self {
            IndexReply::FetchFailed(e) => IndexReplyView::FetchFailed(e@),
            IndexReply::ReadFailed(e) => IndexReplyView::ReadFailed(e@),
            IndexReply::ParseFailed(e) => IndexReplyView::ParseFailed(e@),
            IndexReply::Index(index) => IndexReplyView::Index(index@),
        }
    }
}

/// Where a repository keeps its index.
pub open spec fn index_url(repo_url: Seq<char>) -> Seq<char> {
    without_trailing(repo_url, '/') + "/index.yaml"@
}

/// The version in the name of a chart.
pub open spec fn chart_version(chart: Seq<char>) -> Seq<char> {
    match after_prefix(chart, "rancher-"@) {
        Some(version) => version,
        None => chart,
    }
}

/// What the running chart comes to: one that is not the newest head build of its minor needs
/// attention.
pub open spec fn chart_verdict(
    running: Option<RunningChartView>,
    repo_url: Seq<char>,
    reply: IndexReplyView,
) -> CheckView {
    let name = "rancher-chart"@;
    match running {
        None => check_of(
            name,
            Status::Unknown,
            "no `rancher` release found in cattle-system"@,
        ),
        Some(running) => match minor_of_chart(running.chart) {
            None => check_of(name, Status::Unknown, "running "@ + running.chart + " (unparsed)"@),
            Some(minor) => match reply {
                IndexReplyView::FetchFailed(e) => check_of(
                    name,
                    Status::Unknown,
                    "running "@ + running.chart + ", index fetch failed: "@ + e,
                ),
                IndexReplyView::ReadFailed(e) => check_of(
                    name,
                    Status::Unknown,
                    "running "@ + running.chart + ", index read failed: "@ + e,
                ),
                IndexReplyView::ParseFailed(e) => check_of(
                    name,
                    Status::Unknown,
                    "running "@ + running.chart + ", index parse failed: "@ + e,
                ),
                IndexReplyView::Index(index) => match newest_head(
                    charts_named(index, "rancher"@),
                    minor,
                ) {
                    None => check_of(
                        name,
                        Status::Unknown,
                        "running "@ + running.chart + ", no "@ + minor + ".*-head charts in "@
                            + index_url(repo_url),
                    ),
                    Some(newest) => if chart_version(running.chart) == newest.version {
                        check_of(
                            name,
                            Status::Okay,
                            running.chart + " is the newest head ("@ + utc_text(
                                newest.created.0,
                                newest.created.1,
                                "%Y-%m-%d"@,
                            ) + ")"@,
                        )
                    } else {
                        check_of(
                            name,
                            Status::Attention,
                            "running "@ + running.chart + " (app "@ + running.app_version
                                + "); newest head is "@ + newest.version + " (app "@
                                + newest.app_version + ") published "@ + utc_text(
                                newest.created.0,
                                newest.created.1,
                                "%Y-%m-%d %H:%M UTC"@,
                            ),
                        )
                    },
                },
            },
        },
    }
}

/// What is known of a running chart that is given.
pub open spec fn given_chart(running: Option<&RunningChart>) -> Option<RunningChartView> {
    match running {
        Some(r) => Some(r@),
        None => None,
    }
}

/// Where the index to fetch for a running chart is, where there is one to fetch.
pub open spec fn index_wanted(running: Option<RunningChartView>, repo_url: Seq<char>) -> Option<
    Seq<char>,
> {
    match running {
        Some(running) => if minor_of_chart(running.chart) is Some {
            Some(index_url(repo_url))
        } else {
            None
        },
        None => None,
    }
}

fn show_index_url(repo_url: &str) -> (url: String)
    ensures
        url@ == index_url(repo_url@),
{
    let cs = text::chars(repo_url);
    let mut url = text::string(text::trim_trailing(cs.as_slice(), '/'));
    url.append("/index.yaml");
    url
}

/// Where the index to fetch for a running chart is. Without a chart whose minor can be read there is
/// nothing to fetch.
pub fn index_to_fetch(running: Option<&RunningChart>, repo_url: &str) -> (r: Option<String>)
    ensures
        opt(r) == index_wanted(given_chart(running), repo_url@),
{
    match running {
        Some(running) => match chart_minor(running.chart.as_str()) {
            Some(_) => Some(show_index_url(repo_url)),
            None => None,
        },
        None => None,
    }
}

fn running_but(chart: &str, what: &str, why: &str) -> (c: Check)
    ensures
        c@ == check_of("rancher-chart"@, Status::Unknown, "running "@ + chart@ + what@ + why@),
{
    let mut detail = "running ".to_owned();
    detail.append(chart);
    detail.append(what);
    detail.append(why);
    Check::unknown("rancher-chart", detail.as_str())
}

fn is_version(chart: &str, version: &str) -> (b: bool)
    ensures
        b == (chart_version(chart@) == version@),
{
    let cs = text::chars(chart);
    match text::strip_prefix(cs.as_slice(), "rancher-") {
        Some(running) => text::is(running, version),
        None => text::is(cs.as_slice(), version),
    }
}

/// The check of the running chart, given what came of fetching the index. Where there was nothing to
/// fetch, the reply does not matter.
pub fn check_rancher_chart(
    running: Option<&RunningChart>,
    repo_url: &str,
    reply: &IndexReply,
) -> (c: Check)
    ensures
        c@ == chart_verdict(given_chart(running), repo_url@, reply@),
{
    let running = match running {
        Some(running) => running,
        None => {
            return Check::unknown("rancher-chart", "no `rancher` release found in cattle-system");
        },
    };
    let chart = running.chart.as_str();
    let minor = match chart_minor(chart) {
        Some(minor) => minor,
        None => {
            let mut detail = "running ".to_owned();
            detail.append(chart);
            detail.append(" (unparsed)");
            return Check::unknown("rancher-chart", detail.as_str());
        },
    };
    let index = match reply {
        IndexReply::FetchFailed(e) => {
            return running_but(chart, ", index fetch failed: ", e.as_str());
        },
        IndexReply::ReadFailed(e) => {
            return running_but(chart, ", index read failed: ", e.as_str());
        },
        IndexReply::ParseFailed(e) => {
            return running_but(chart, ", index parse failed: ", e.as_str());
        },
        IndexReply::Index(index) => index,
    };
    match newest_head_chart(index, minor.as_str()) {
        None => {
            let mut detail = "running ".to_owned();
            detail.append(chart);
            detail.append(", no ");
            detail.append(minor.as_str());
            detail.append(".*-head charts in ");
            detail.append(show_index_url(repo_url).as_str());
            Check::unknown("rancher-chart", detail.as_str())
        },
        Some(newest) => {
            if is_version(chart, newest.version.as_str()) {
                let mut detail = chart.to_owned();
                detail.append(" is the newest head (");
                detail.append(newest.created.day().as_str());
                detail.append(")");
                Check::ok("rancher-chart", detail.as_str())
            } else {
                let mut detail = "running ".to_owned();
                detail.append(chart);
                detail.append(" (app ");
                detail.append(running.app_version.as_str());
                detail.append("); newest head is ");
                detail.append(newest.version.as_str());
                detail.append(" (app ");
                detail.append(newest.app_version.as_str());
                detail.append(") published ");
                detail.append(newest.created.minute().as_str());
                Check::attention("rancher-chart", detail.as_str())
            }
        },
    }
}

/// The chart that is picked is a head build of the minor, and no other was published later. None is
/// picked only where there is none.
pub proof fn newest_head_is_published_last(entries: Seq<ChartEntryView>, minor: Seq<char>)
    ensures
        match newest_head(entries, minor) {
            Some(newest) => {
                &&& entries.contains(newest)
                &&& is_head_of(newest, minor)
                &&& forall|i: int|
                    0 <= i < entries.len() && is_head_of(#[trigger] entries[i], minor)
                        ==> !earlier(newest.created, entries[i].created)
            },
            None => forall|i: int|
                0 <= i < entries.len() ==> !is_head_of(#[trigger] entries[i], minor),
        },
    decreases entries.len(),
{
    if entries.len() > 0 {
        let front = entries.drop_last();
        newest_head_is_published_last(front, minor);
        let n = entries.len() - 1;
        assert(forall|i: int| 0 <= i < front.len() ==> #[trigger] entries[i] == front[i]);
        assert(entries[n] == entries.last());
        match newest_head(front, minor) {
            Some(best) => {
                let k = choose|k: int| 0 <= k < front.len() && front[k] == best;
                assert(entries[k] == best);
            },
            None => {},
        }
    }
}

/// A `v` before the minor makes no difference.
pub proof fn minor_may_have_a_v(entries: Seq<ChartEntryView>, minor: Seq<char>)
    ensures
        newest_head(entries, seq!['v'] + minor) == newest_head(entries, minor),
    decreases entries.len(),
{
    assert((seq!['v'] + minor).drop_first() =~= minor);
    if entries.len() > 0 {
        minor_may_have_a_v(entries.drop_last(), minor);
    }
}

/// Only when a chart was published counts, not how its version reads: a chart that was published
/// after every head build of the minor is picked, whatever comes before it.
pub proof fn later_head_is_picked(
    entries: Seq<ChartEntryView>,
    entry: ChartEntryView,
    minor: Seq<char>,
)
    requires
        is_head_of(entry, minor),
        forall|i: int|
            0 <= i < entries.len() && is_head_of(#[trigger] entries[i], minor) ==> earlier(
                entries[i].created,
                entry.created,
            ),
    ensures
        newest_head(entries.push(entry), minor) == Some(entry),
{
    newest_head_is_published_last(entries, minor);
    assert(entries.push(entry).drop_last() =~= entries);
    match newest_head(entries, minor) {
        Some(best) => {
            let k = choose|k: int| 0 <= k < entries.len() && entries[k] == best;
            assert(is_head_of(entries[k], minor));
        },
        None => {},
    }
}

/// Whether the text of a version is that of a head build of a minor: the minor and a dot in front, and
/// the five characters of `-head` at the end.
pub open spec fn reads_as_head(version: Seq<char>, minor: Seq<char>) -> bool {
    let n = version.len() as int;
    &&& n >= minor.len() + 6
    &&& forall|i: int| 0 <= i < minor.len() ==> version[i] == #[trigger] minor[i]
    &&& version[minor.len() as int] == '.'
    &&& version[n - 5] == '-'
    &&& version[n - 4] == 'h'
    &&& version[n - 3] == 'e'
    &&& version[n - 2] == 'a'
    &&& version[n - 1] == 'd'
}

/// Whether a point in time is later than another.
pub open spec fn later(a: (i64, u32), b: (i64, u32)) -> bool {
    a.0 > b.0 || (a.0 == b.0 && a.1 > b.1)
}

proof fn lemma_reads_as_head(entry: ChartEntryView, minor: Seq<char>)
    requires
        minor.len() > 0 ==> minor[0] != 'v',
    ensures
        is_head_of(entry, minor) <==> reads_as_head(entry.version, minor),
{
    let version = entry.version;
    let n = version.len() as int;
    let m = minor.len() as int;
    let prefix = minor + "."@;
    reveal_strlit(".");
    reveal_strlit("-head");
    assert(without_leading(minor, 'v') == minor);
    if is_head_of(entry, minor) {
        let tail = version.subrange(n - 5, n);
        assert(version.take(m + 1) =~= prefix);
        assert forall|i: int| 0 <= i < m implies version[i] == #[trigger] minor[i] by {
            assert(version.take(m + 1)[i] == prefix[i]);
        }
        assert(version.take(m + 1)[m] == prefix[m]);
        assert("-head"@ =~= tail);
        assert(tail[0] == version[n - 5]);
        assert(tail[1] == version[n - 4]);
        assert(tail[2] == version[n - 3]);
        assert(tail[3] == version[n - 2]);
        assert(tail[4] == version[n - 1]);
    }
    if reads_as_head(version, minor) {
        assert(version.take(m + 1) =~= prefix);
        assert(prefix.is_prefix_of(version));
        assert("-head"@ =~= version.subrange(n - 5, n));
        assert("-head"@.is_suffix_of(version));
    }
}

/// Of the charts, exactly those count whose version begins with the minor and a dot and ends with
/// `-head`. The one that is picked was published no earlier than any of them, and later than each of
/// them that follows it in the list. None is picked exactly where none counts.
pub proof fn head_is_picked_by_text_and_date(entries: Seq<ChartEntryView>, minor: Seq<char>)
    requires
        minor.len() > 0 ==> minor[0] != 'v',
    ensures
        match newest_head(entries, minor) {
            Some(newest) => exists|k: int|
                {
                    &&& 0 <= k < entries.len()
                    &&& #[trigger] entries[k] == newest
                    &&& reads_as_head(newest.version, minor)
                    &&& forall|i: int|
                        0 <= i < k && reads_as_head((#[trigger] entries[i]).version, minor)
                            ==> !later(entries[i].created, newest.created)
                    &&& forall|i: int|
                        k < i < entries.len() && reads_as_head(
                            (#[trigger] entries[i]).version,
                            minor,
                        ) ==> later(newest.created, entries[i].created)
                },
            None => forall|i: int|
                0 <= i < entries.len() ==> !reads_as_head((#[trigger] entries[i]).version, minor),
        },
    decreases entries.len(),
{
    if entries.len() > 0 {
        let front = entries.drop_last();
        let n = entries.len() - 1;
        let last = entries.last();
        head_is_picked_by_text_and_date(front, minor);
        lemma_reads_as_head(last, minor);
        assert(entries[n] == last);
        assert(forall|i: int| 0 <= i < n ==> #[trigger] entries[i] == front[i]);
        match newest_head(front, minor) {
            Some(best) => {
                let k = choose|k: int|
                    {
                        &&& 0 <= k < front.len()
                        &&& #[trigger] front[k] == best
                        &&& reads_as_head(best.version, minor)
                        &&& forall|i: int|
                            0 <= i < k && reads_as_head((#[trigger] front[i]).version, minor)
                                ==> !later(front[i].created, best.created)
                        &&& forall|i: int|
                            k < i < front.len() && reads_as_head(
                                (#[trigger] front[i]).version,
                                minor,
                            ) ==> later(best.created, front[i].created)
                    };
                if reads_as_head(last.version, minor) && !earlier(last.created, best.created) {
                    assert forall|i: int|
                        0 <= i < n && reads_as_head((#[trigger] entries[i]).version, minor) implies
                        !later(entries[i].created, last.created) by {
                        assert(entries[i] == front[i]);
                        if i == k {
                            assert(front[i] == best);
                        }
                    }
                    assert(entries[n] == last);
                } else {
                    assert(entries[k] == best);
                }
            },
            None => {
                if reads_as_head(last.version, minor) {
                    assert(entries[n] == last);
                }
            },
        }
    }
}

/// The charts of a name are those of the first entry of the index with the name; there are none where
/// no entry has it.
pub proof fn charts_are_found_by_name(
    index: Seq<(Seq<char>, Seq<ChartEntryView>)>,
    name: Seq<char>,
    k: int,
)
    ensures
        (0 <= k < index.len() && index[k].0 == name && forall|j: int|
            0 <= j < k ==> (#[trigger] index[j]).0 != name) ==> charts_named(index, name)
            == index[k].1,
        (forall|j: int| 0 <= j < index.len() ==> (#[trigger] index[j]).0 != name) ==> charts_named(
            index,
            name,
        ).len() == 0,
    decreases index.len(),
{
    if index.len() > 0 {
        let rest = index.drop_first();
        charts_are_found_by_name(rest, name, k - 1);
        assert(forall|j: int| 0 <= j < rest.len() ==> #[trigger] rest[j] == index[j + 1]);
        if k > 0 && k < index.len() {
            assert(rest[k - 1] == index[k]);
        }
    }
}

/// A running chart `rancher-<version>` whose name tells a minor is fine exactly where its version is
/// that of the head that is picked from the charts named `rancher`, and needs attention where another
/// is picked. It is unknown where none is picked, and where the index could not be had.
pub proof fn running_chart_is_held_against_the_picked_head(
    version: Seq<char>,
    app_version: Seq<char>,
    minor: Seq<char>,
    repo_url: Seq<char>,
    index: Seq<(Seq<char>, Seq<ChartEntryView>)>,
    k: int,
    e: Seq<char>,
)
    requires
        minor_of_chart("rancher-"@ + version) == Some(minor),
        0 <= k < index.len(),
        index[k].0 == "rancher"@,
        forall|j: int| 0 <= j < k ==> (#[trigger] index[j]).0 != "rancher"@,
    ensures
        ({
            let running = Some(RunningChartView { chart: "rancher-"@ + version, app_version });
            let status = chart_verdict(running, repo_url, IndexReplyView::Index(index)).status;
            let picked = newest_head(index[k].1, minor);
            &&& status == Status::Okay <==> picked is Some && picked->0.version == version
            &&& status == Status::Attention <==> picked is Some && picked->0.version != version
            &&& status == Status::Unknown <==> picked is None
            &&& picked is Some && picked->0.version != version ==> chart_verdict(
                running,
                repo_url,
                IndexReplyView::Index(index),
            ) == check_of(
                "rancher-chart"@,
                Status::Attention,
                "running "@ + ("rancher-"@ + version) + " (app "@ + app_version
                    + "); newest head is "@ + picked->0.version + " (app "@ + picked->0.app_version
                    + ") published "@ + utc_text(
                    picked->0.created.0,
                    picked->0.created.1,
                    "%Y-%m-%d %H:%M UTC"@,
                ),
            )
            &&& picked is Some && picked->0.version == version ==> chart_verdict(
                running,
                repo_url,
                IndexReplyView::Index(index),
            ) == check_of(
                "rancher-chart"@,
                Status::Okay,
                ("rancher-"@ + version) + " is the newest head ("@ + utc_text(
                    picked->0.created.0,
                    picked->0.created.1,
                    "%Y-%m-%d"@,
                ) + ")"@,
            )
            &&& chart_verdict(running, repo_url, IndexReplyView::FetchFailed(e)).status
                == Status::Unknown
            &&& chart_verdict(running, repo_url, IndexReplyView::ReadFailed(e)).status
                == Status::Unknown
            &&& chart_verdict(running, repo_url, IndexReplyView::ParseFailed(e)).status
                == Status::Unknown
        }),
{
    charts_are_found_by_name(index, "rancher"@, k);
    let chart = "rancher-"@ + version;
    assert(chart.take("rancher-"@.len() as int) =~= "rancher-"@);
    assert("rancher-"@.is_prefix_of(chart));
    assert(chart.skip("rancher-"@.len() as int) =~= version);
}

/// Without a running chart, or one whose name tells no minor, nothing is known and no index is fetched.
/// The index of a repository is fetched from `index.yaml` below its address, whatever slashes end it.
pub proof fn index_is_fetched_for_a_minor(
    running: RunningChartView,
    base: Seq<char>,
    slashes: Seq<char>,
    reply: IndexReplyView,
)
    requires
        base.len() > 0 ==> base.last() != '/',
        forall|i: int| 0 <= i < slashes.len() ==> #[trigger] slashes[i] == '/',
    ensures
        chart_verdict(None, base, reply).status == Status::Unknown,
        index_wanted(None, base) is None,
        minor_of_chart(running.chart) is None ==> chart_verdict(Some(running), base, reply).status
            == Status::Unknown && index_wanted(Some(running), base) is None,
        minor_of_chart(running.chart) is Some ==> {
            &&& index_wanted(Some(running), base) == Some(base + "/index.yaml"@)
            &&& index_wanted(Some(running), base + slashes) == Some(base + "/index.yaml"@)
        },
{
    text::trailing_run_is_taken_off(base, slashes, '/');
}

/// Where the running chart cannot be held against the index, the check is unknown and tells why.
pub proof fn unknown_chart_tells_why(
    running: RunningChartView,
    minor: Seq<char>,
    base: Seq<char>,
    index: Seq<(Seq<char>, Seq<ChartEntryView>)>,
    e: Seq<char>,
)
    requires
        minor_of_chart(running.chart) == Some(minor),
        base.len() > 0 ==> base.last() != '/',
    ensures
        chart_verdict(Some(running), base, IndexReplyView::FetchFailed(e)) == check_of(
            "rancher-chart"@,
            Status::Unknown,
            "running "@ + running.chart + ", index fetch failed: "@ + e,
        ),
        chart_verdict(Some(running), base, IndexReplyView::ReadFailed(e)) == check_of(
            "rancher-chart"@,
            Status::Unknown,
            "running "@ + running.chart + ", index read failed: "@ + e,
        ),
        chart_verdict(Some(running), base, IndexReplyView::ParseFailed(e)) == check_of(
            "rancher-chart"@,
            Status::Unknown,
            "running "@ + running.chart + ", index parse failed: "@ + e,
        ),
        newest_head(charts_named(index, "rancher"@), minor) is None ==> chart_verdict(
            Some(running),
            base,
            IndexReplyView::Index(index),
        ) == check_of(
            "rancher-chart"@,
            Status::Unknown,
            "running "@ + running.chart + ", no "@ + minor + ".*-head charts in "@ + (base
                + "/index.yaml"@),
        ),
{
}

} // verus!

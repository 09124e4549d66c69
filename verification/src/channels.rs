//! The release channels of k3s, and the check of the running version against its own.

use vstd::prelude::*;

use crate::on_box::not_collected;
use crate::report::{check_of, Check, CheckView, Status};
use crate::text;
use crate::text::{opt, opt_str};
use crate::versions::{minor_of, minor_version};

verus! {

/// A release channel, and the latest release in it where there is one.
#[derive(Debug)]
pub struct K3sChannel {
    pub id: String,
    pub latest: Option<String>,
}

/// The texts of a channel.
pub open spec fn channel_view(channel: K3sChannel) -> (Seq<char>, Option<Seq<char>>) {
    (channel.id@, opt(channel.latest))
}

/// The texts of a list of channels.
pub open spec fn channel_views(channels: Seq<K3sChannel>) -> Seq<(Seq<char>, Option<Seq<char>>)> {
    Seq::new(channels.len(), |i: int| channel_view(channels[i]))
}

/// The latest release in the first channel of a name.
pub open spec fn latest_of(
    channels: Seq<(Seq<char>, Option<Seq<char>>)>,
    name: Seq<char>,
) -> Option<Seq<char>>
    decreases channels.len(),
{
    if channels.len() == 0 {
        None
    } else if channels[0].0 == name {
        channels[0].1
    } else {
        latest_of(channels.drop_first(), name)
    }
}

fn copy(s: &Option<String>) -> (r: Option<String>)
    ensures
        opt(r) == opt(*s),
{
    match s {
        Some(s) => Some(s.clone()),
        None => None,
    }
}

/// The latest release in the channel of a minor. The channels that move from minor to minor are
/// never asked for: they would lead past the bound that Rancher's chart sets.
pub fn channel_latest(channels: &[K3sChannel], minor: &str) -> (r: Option<String>)
    ensures
        opt(r) == latest_of(channel_views(channels@), minor@),
{
    let ghost all = channel_views(channels@);
    let mut i: usize = 0;
    assert(all.skip(0) =~= all);
    while i < channels.len()
        invariant
            i <= channels.len(),
            all == channel_views(channels@),
            latest_of(all.skip(i as int), minor@) == latest_of(all, minor@),
        decreases channels.len() - i,
    {
        assert(all.skip(i as int)[0] == channel_view(channels@[i as int]));
        assert(all.skip(i as int).drop_first() =~= all.skip(i + 1));
        if text::same(channels[i].id.as_str(), minor) {
            return copy(&channels[i].latest);
        }
        i += 1;
    }
    None
}

/// What came of looking the channel up: the latest release in it, nothing where the channel or a
/// release is missing, or why the lookup failed.
pub open spec fn reply_view(
    reply: Result<Option<String>, String>,
) -> Result<Option<Seq<char>>, Seq<char>> {
    match reply {
        Ok(latest) => Ok(opt(latest)),
        Err(e) => Err(e@),
    }
}

/// What the running k3s version comes to: a later release in its own channel needs attention.
pub open spec fn k3s_verdict(
    running: Option<Seq<char>>,
    reply: Result<Option<Seq<char>>, Seq<char>>,
) -> CheckView {
    let name = "k3s-version"@;
    match running {
        None => not_collected(name),
        Some(running) => match minor_version(running) {
            None => check_of(name, Status::Unknown, "running "@ + running + " (unparsed)"@),
            Some(minor) => match reply {
                Ok(Some(latest)) => if latest == running {
                    check_of(
                        name,
                        Status::Okay,
                        running + " (current for channel "@ + minor + ")"@,
                    )
                } else {
                    check_of(
                        name,
                        Status::Attention,
                        "running "@ + running + ", channel "@ + minor + " offers "@ + latest,
                    )
                },
                Ok(None) => check_of(
                    name,
                    Status::Unknown,
                    "running "@ + running + ", no channel "@ + minor + " upstream"@,
                ),
                Err(e) => check_of(
                    name,
                    Status::Unknown,
                    "running "@ + running + ", channel lookup failed: "@ + e,
                ),
            },
        },
    }
}

/// The channel to look up for a running version, where there is one.
pub open spec fn channel_wanted(running: Option<Seq<char>>) -> Option<Seq<char>> {
    match running {
        Some(running) => minor_version(running),
        None => None,
    }
}

/// The channel to look up for a running version. Without one there is nothing to look up.
pub fn channel_to_look_up(running: Option<&str>) -> (r: Option<String>)
    ensures
        opt(r) == channel_wanted(opt_str(running)),
{
    match running {
        Some(running) => minor_of(running),
        None => None,
    }
}

/// The check of the running k3s version, given what came of looking its channel up. Where there was
/// nothing to look up, the reply does not matter.
pub fn check_k3s_version(
    running: Option<&str>,
    reply: &Result<Option<String>, String>,
) -> (c: Check)
    ensures
        c@ == k3s_verdict(opt_str(running), reply_view(*reply)),
{
    let running = match running {
        Some(running) => running,
        None => {
            return Check::unknown("k3s-version", "not collected");
        },
    };
    let minor = match minor_of(running) {
        Some(minor) => minor,
        None => {
            let mut detail = "running ".to_owned();
            detail.append(running);
            detail.append(" (unparsed)");
            return Check::unknown("k3s-version", detail.as_str());
        },
    };
    match reply {
        Ok(Some(latest)) => {
            if text::same(latest.as_str(), running) {
                let mut detail = running.to_owned();
                detail.append(" (current for channel ");
                detail.append(minor.as_str());
                detail.append(")");
                Check::ok("k3s-version", detail.as_str())
            } else {
                let mut detail = "running ".to_owned();
                detail.append(running);
                detail.append(", channel ");
                detail.append(minor.as_str());
                detail.append(" offers ");
                detail.append(latest.as_str());
                Check::attention("k3s-version", detail.as_str())
            }
        },
        Ok(None) => {
            let mut detail = "running ".to_owned();
            detail.append(running);
            detail.append(", no channel ");
            detail.append(minor.as_str());
            detail.append(" upstream");
            Check::unknown("k3s-version", detail.as_str())
        },
        Err(e) => {
            let mut detail = "running ".to_owned();
            detail.append(running);
            detail.append(", channel lookup failed: ");
            detail.append(e.as_str());
            Check::unknown("k3s-version", detail.as_str())
        },
    }
}

/// A running version with a minor is current exactly where it is, letter for letter, the latest release
/// of its channel; any other release there needs attention. Without a release, or a minor, nothing is
/// known.
pub proof fn current_is_the_latest_release(running: Seq<char>, latest: Seq<char>, e: Seq<char>)
    requires
        minor_version(running) is Some,
    ensures
        k3s_verdict(Some(running), Ok(Some(latest))).status == Status::Okay <==> latest == running,
        k3s_verdict(Some(running), Ok(Some(latest))).status == Status::Attention <==> latest
            != running,
        k3s_verdict(Some(running), Ok(None)).status == Status::Unknown,
        k3s_verdict(Some(running), Err(e)).status == Status::Unknown,
        ({
            let minor = minor_version(running)->0;
            &&& latest != running ==> k3s_verdict(Some(running), Ok(Some(latest))) == check_of(
                "k3s-version"@,
                Status::Attention,
                "running "@ + running + ", channel "@ + minor + " offers "@ + latest,
            )
            &&& k3s_verdict(Some(running), Ok(Some(running))) == check_of(
                "k3s-version"@,
                Status::Okay,
                running + " (current for channel "@ + minor + ")"@,
            )
        }),
{
}

/// A version that is not collected, or has no minor, is unknown whatever the lookup gave, and nothing
/// is looked up for it. One that has a minor is looked up by it.
pub proof fn unknown_version_is_not_looked_up(
    running: Seq<char>,
    reply: Result<Option<Seq<char>>, Seq<char>>,
)
    ensures
        k3s_verdict(None, reply).status == Status::Unknown,
        channel_wanted(None) is None,
        minor_version(running) is None ==> k3s_verdict(Some(running), reply).status
            == Status::Unknown,
        channel_wanted(Some(running)) == minor_version(running),
{
}

/// The release that is looked up is that of the first channel with the name of the minor; there is none
/// where no channel has the name.
pub proof fn release_is_that_of_the_channel(
    channels: Seq<(Seq<char>, Option<Seq<char>>)>,
    name: Seq<char>,
    k: int,
)
    ensures
        (0 <= k < channels.len() && channels[k].0 == name && forall|j: int|
            0 <= j < k ==> (#[trigger] channels[j]).0 != name) ==> latest_of(channels, name)
            == channels[k].1,
        (forall|j: int| 0 <= j < channels.len() ==> (#[trigger] channels[j]).0 != name)
            ==> latest_of(channels, name) is None,
    decreases channels.len(),
{
    if channels.len() > 0 {
        let rest = channels.drop_first();
        release_is_that_of_the_channel(rest, name, k - 1);
        assert(forall|j: int| 0 <= j < rest.len() ==> #[trigger] rest[j] == channels[j + 1]);
        if k > 0 && k < channels.len() {
            assert(rest[k - 1] == channels[k]);
        }
    }
}

/// Where the running version cannot be held against its channel, the check is unknown and tells why.
pub proof fn unknown_version_tells_why(
    running: Seq<char>,
    minor: Seq<char>,
    reply: Result<Option<Seq<char>>, Seq<char>>,
    e: Seq<char>,
)
    ensures
        k3s_verdict(None, reply) == check_of("k3s-version"@, Status::Unknown, "not collected"@),
        minor_version(running) is None ==> k3s_verdict(Some(running), reply) == check_of(
            "k3s-version"@,
            Status::Unknown,
            "running "@ + running + " (unparsed)"@,
        ),
        minor_version(running) == Some(minor) ==> {
            &&& k3s_verdict(Some(running), Ok(None)) == check_of(
                "k3s-version"@,
                Status::Unknown,
                "running "@ + running + ", no channel "@ + minor + " upstream"@,
            )
            &&& k3s_verdict(Some(running), Err(e)) == check_of(
                "k3s-version"@,
                Status::Unknown,
                "running "@ + running + ", channel lookup failed: "@ + e,
            )
        },
{
}

} // verus!

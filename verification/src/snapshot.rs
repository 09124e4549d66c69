//! Snapshots of the root volume, and the check on the newest of them.

use vstd::prelude::*;

use crate::clock::{days_between, earlier, is_instant, utc_text, UtcTime};
use crate::number;
use crate::number::signed_decimal;
use crate::report::{check_of, Check, CheckView, Status};
use crate::text;
use crate::text::{opt, res_text};

verus! {

/// The age, in days, beyond which the newest snapshot needs attention.
pub const SNAPSHOT_MAX_AGE_DAYS: i64 = 7;

/// A device of an instance and the volume behind it, as EC2 describes them.
#[derive(Debug)]
pub struct DeviceMapping {
    pub device_name: Option<String>,
    pub volume_id: Option<String>,
}

/// The devices of an instance, as EC2 describes them.
#[derive(Debug)]
pub struct InstanceDevices {
    pub root_device_name: Option<String>,
    pub mappings: Vec<DeviceMapping>,
}

/// The texts of a device.
pub open spec fn mapping_view(mapping: DeviceMapping) -> (Option<Seq<char>>, Option<Seq<char>>) {
    (opt(mapping.device_name), opt(mapping.volume_id))
}

/// The texts of a list of devices.
pub open spec fn mapping_views(mappings: Seq<DeviceMapping>) -> Seq<
    (Option<Seq<char>>, Option<Seq<char>>),
> {
    Seq::new(mappings.len(), |i: int| mapping_view(mappings[i]))
}

/// The volume behind the first device of a name.
pub open spec fn volume_at(
    mappings: Seq<(Option<Seq<char>>, Option<Seq<char>>)>,
    device: Seq<char>,
) -> Option<Seq<char>>
    decreases mappings.len(),
{
    if mappings.len() == 0 {
        None
    } else if mappings[0].0 == Some(device) {
        mappings[0].1
    } else {
        volume_at(mappings.drop_first(), device)
    }
}

/// The root volume of an instance, or why there is none.
pub open spec fn root_volume_of(
    devices: Option<InstanceDevices>,
    instance_id: Seq<char>,
) -> Result<Seq<char>, Seq<char>> {
    match devices {
        None => Err("instance "@ + instance_id + " not found"@),
        Some(devices) => {
            let root = match opt(devices.root_device_name) {
                Some(name) => name,
                None => "/dev/sda1"@,
            };
            match volume_at(mapping_views(devices.mappings@), root) {
                Some(volume) => Ok(volume),
                None => Err("could not resolve the root volume"@),
            }
        },
    }
}

/// The root volume of an instance that EC2 described, or did not find.
pub fn root_volume(devices: &Option<InstanceDevices>, instance_id: &str) -> (r: Result<
    String,
    String,
>)
    ensures
        res_text(r) == root_volume_of(*devices, instance_id@),
{
    let described = match devices {
        Some(described) => described,
        None => {
            let mut e = "instance ".to_owned();
            e.append(instance_id);
            e.append(" not found");
            return Err(e);
        },
    };
    let root = match &described.root_device_name {
        Some(name) => name.clone(),
        None => "/dev/sda1".to_owned(),
    };
    let ghost all = mapping_views(described.mappings@);
    let mut i: usize = 0;
    assert(all.skip(0) =~= all);
    while i < described.mappings.len()
        invariant
            i <= described.mappings.len(),
            all == mapping_views(described.mappings@),
            volume_at(all.skip(i as int), root@) == volume_at(all, root@),
            root_volume_of(*devices, instance_id@) == (match volume_at(all, root@) {
                Some(volume) => Ok(volume),
                None => Err("could not resolve the root volume"@),
            }),
        decreases described.mappings.len() - i,
    {
        let mapping = &described.mappings[i];
        assert(all.skip(i as int)[0] == mapping_view(*mapping));
        assert(all.skip(i as int).drop_first() =~= all.skip(i + 1));
        let found = match &mapping.device_name {
            Some(name) => text::same(name.as_str(), root.as_str()),
            None => false,
        };
        if found {
            return match &mapping.volume_id {
                Some(volume) => Ok(volume.clone()),
                None => Err("could not resolve the root volume".to_owned()),
            };
        }
        i += 1;
    }
    Err("could not resolve the root volume".to_owned())
}

/// A snapshot, as EC2 describes it. It started that many seconds after the epoch.
#[derive(Debug)]
pub struct SnapshotRecord {
    pub id: Option<String>,
    pub started: Option<i64>,
    pub state: Option<String>,
}

/// A snapshot whose identity and start are known.
#[derive(Debug)]
pub struct Snapshot {
    pub id: String,
    pub started: UtcTime,
    pub state: String,
}

/// What is known of a snapshot.
pub struct SnapshotView {
    pub id: Seq<char>,
    pub started: (i64, u32),
    pub state: Seq<char>,
}

impl View for Snapshot {
    type V = SnapshotView;

    open spec fn view(&self) -> SnapshotView {
        SnapshotView { id: self.id@, started: self.started@, state: self.state@ }
    }
}

/// What a record says of a snapshot. It says nothing without an identity and a point in time.
pub open spec fn snapshot_of(record: SnapshotRecord) -> Option<SnapshotView> {
    match (record.id, record.started) {
        (Some(id), Some(secs)) => if is_instant(secs, 0) {
            Some(
                SnapshotView {
                    id: id@,
                    started: (secs, 0),
                    state: match opt(record.state) {
                        Some(state) => state,
                        None => "unknown"@,
                    },
                },
            )
        } else {
            None
        },
        _ => None,
    }
}

/// The snapshot that was started last, of several at one time the last in the list.
pub open spec fn newest_of(records: Seq<SnapshotRecord>) -> Option<SnapshotView>
    decreases records.len(),
{
    if records.len() == 0 {
        None
    } else {
        let before = newest_of(records.drop_last());
        match (before, snapshot_of(records.last())) {
            (_, None) => before,
            (None, last) => last,
            (Some(best), Some(last)) => if earlier(last.started, best.started) {
                before
            } else {
                Some(last)
            },
        }
    }
}

/// What is known of a snapshot, where there is one.
pub open spec fn snapshot_view(snapshot: Option<Snapshot>) -> Option<SnapshotView> {
    match snapshot {
        Some(s) => Some(s@),
        None => None,
    }
}

fn read_record(record: &SnapshotRecord) -> (r: Option<Snapshot>)
    ensures
        snapshot_view(r) == snapshot_of(*record),
{
    match (&record.id, record.started) {
        (Some(id), Some(secs)) => match UtcTime::new(secs, 0) {
            Some(started) => {
                let state = match &record.state {
                    Some(state) => state.clone(),
                    None => "unknown".to_owned(),
                };
                Some(Snapshot { id: id.clone(), started, state })
            },
            None => None,
        },
        _ => None,
    }
}

/// The newest snapshot of those that EC2 described.
pub fn newest_snapshot(records: &[SnapshotRecord]) -> (r: Option<Snapshot>)
    ensures
        snapshot_view(r) == newest_of(records@),
{
    let mut best: Option<Snapshot> = None;
    let mut i: usize = 0;
    while i < records.len()
        invariant
            i <= records.len(),
            snapshot_view(best) == newest_of(records@.take(i as int)),
        decreases records.len() - i,
    {
        assert(records@.take(i + 1).drop_last() =~= records@.take(i as int));
        assert(records@.take(i + 1).last() == records@[i as int]);
        match read_record(&records[i]) {
            Some(snapshot) => {
                let keep = match &best {
                    Some(b) => snapshot.started.before(&b.started),
                    None => false,
                };
                if !keep {
                    best = Some(snapshot);
                }
            },
            None => {},
        }
        i += 1;
    }
    assert(records@.take(i as int) =~= records@);
    best
}

/// What the newest snapshot comes to. None at all, one that is too old and one that is not complete
/// need attention.
pub open spec fn snapshot_verdict(
    newest: Result<Option<SnapshotView>, Seq<char>>,
    now: (i64, u32),
) -> CheckView {
    let name = "snapshot"@;
    match newest {
        Ok(Some(snapshot)) => {
            let age = days_between(snapshot.started.0, now.0, now.1);
            check_of(
                name,
                if age > SNAPSHOT_MAX_AGE_DAYS || snapshot.state != "completed"@ {
                    Status::Attention
                } else {
                    Status::Okay
                },
                snapshot.id + " ("@ + utc_text(
                    snapshot.started.0,
                    snapshot.started.1,
                    "%Y-%m-%d"@,
                ) + ") "@ + signed_decimal(age) + " days old, "@ + snapshot.state,
            )
        },
        Ok(None) => check_of(
            name,
            Status::Attention,
            "no snapshots of the root volume -- no restore point"@,
        ),
        Err(e) => check_of(name, Status::Unknown, "lookup failed: "@ + e),
    }
}

/// What came of looking the snapshots up: those that EC2 described, or why it failed.
pub open spec fn lookup_view(reply: Result<Vec<SnapshotRecord>, String>) -> Result<
    Option<SnapshotView>,
    Seq<char>,
> {
    match reply {
        Ok(records) => Ok(newest_of(records@)),
        Err(e) => Err(e@),
    }
}

/// The check on the snapshots that EC2 described, at a point in time outside of leap seconds.
pub fn check_snapshot(reply: &Result<Vec<SnapshotRecord>, String>, now: &UtcTime) -> (c: Check)
    requires
        now@.1 < 1_000_000_000,
    ensures
        c@ == snapshot_verdict(lookup_view(*reply), now@),
{
    match reply {
        Ok(records) => match newest_snapshot(records.as_slice()) {
            Some(snapshot) => {
                proof {
                    lemma_newest_on_second(records@);
                }
                let age = now.days_since(&snapshot.started);
                let mut detail = snapshot.id.clone();
                detail.append(" (");
                detail.append(snapshot.started.day().as_str());
                detail.append(") ");
                detail.append(number::show_signed(age).as_str());
                detail.append(" days old, ");
                detail.append(snapshot.state.as_str());
                if age > SNAPSHOT_MAX_AGE_DAYS || !text::same(
                    snapshot.state.as_str(),
                    "completed",
                ) {
                    Check::attention("snapshot", detail.as_str())
                } else {
                    Check::ok("snapshot", detail.as_str())
                }
            },
            None => Check::attention(
                "snapshot",
                "no snapshots of the root volume -- no restore point",
            ),
        },
        Err(e) => {
            let mut detail = "lookup failed: ".to_owned();
            detail.append(e.as_str());
            Check::unknown("snapshot", detail.as_str())
        },
    }
}

proof fn lemma_newest_on_second(records: Seq<SnapshotRecord>)
    ensures
        match newest_of(records) {
            Some(newest) => newest.started.1 == 0,
            None => true,
        },
    decreases records.len(),
{
    if records.len() > 0 {
        lemma_newest_on_second(records.drop_last());
    }
}

/// The snapshot that is picked is one of those described, and no other was started later. None is
/// picked only where no record says enough.
pub proof fn newest_snapshot_started_last(records: Seq<SnapshotRecord>)
    ensures
        match newest_of(records) {
            Some(newest) => {
                &&& exists|i: int|
                    0 <= i < records.len() && snapshot_of(#[trigger] records[i]) == Some(newest)
                &&& forall|i: int|
                    0 <= i < records.len() && snapshot_of(#[trigger] records[i]) is Some
                        ==> !earlier(newest.started, snapshot_of(records[i])->0.started)
                        && snapshot_of(records[i])->0.started.0 <= newest.started.0
            },
            None => forall|i: int|
                0 <= i < records.len() ==> snapshot_of(#[trigger] records[i]) is None,
        },
    decreases records.len(),
{
    if records.len() > 0 {
        let front = records.drop_last();
        newest_snapshot_started_last(front);
        let n = records.len() - 1;
        assert(forall|i: int| 0 <= i < front.len() ==> #[trigger] records[i] == front[i]);
        assert(records[n] == records.last());
        match newest_of(front) {
            Some(best) => {
                let k = choose|k: int|
                    0 <= k < front.len() && snapshot_of(#[trigger] front[k]) == Some(best);
                assert(records[k] == front[k]);
            },
            None => {},
        }
    }
}

/// A snapshot will do exactly where it is complete and less than eight days have passed since it was
/// started; any other needs attention, and so does having none. A failed lookup tells nothing.
pub proof fn fresh_complete_snapshot_will_do(
    snapshot: SnapshotView,
    now: (i64, u32),
    e: Seq<char>,
)
    ensures
        ({
            let passed = (now.0 - snapshot.started.0) * 1_000_000_000 + now.1;
            let status = snapshot_verdict(Ok(Some(snapshot)), now).status;
            &&& status == Status::Okay <==> snapshot.state == "completed"@ && passed < 8 * 86_400
                * 1_000_000_000
            &&& status != Status::Okay ==> status == Status::Attention
            &&& snapshot_verdict(Ok(Some(snapshot)), now) == check_of(
                "snapshot"@,
                status,
                snapshot.id + " ("@ + utc_text(
                    snapshot.started.0,
                    snapshot.started.1,
                    "%Y-%m-%d"@,
                ) + ") "@ + signed_decimal(
                    days_between(snapshot.started.0, now.0, now.1),
                ) + " days old, "@ + snapshot.state,
            )
        }),
        snapshot_verdict(Ok(None), now).status == Status::Attention,
        snapshot_verdict(Err(e), now).status == Status::Unknown,
{
    let passed = (now.0 - snapshot.started.0) * 1_000_000_000 + now.1;
    if passed < 0 {
        assert((-passed) / 86_400_000_000_000 >= 0);
    }
}

/// A record tells of a snapshot where it has an identity and a start that is a point in time, with its
/// state, else `unknown`.
pub proof fn records_tell_identity_start_and_state(record: SnapshotRecord, id: Seq<char>, secs: i64)
    ensures
        opt(record.id) is None || record.started is None ==> snapshot_of(record) is None,
        opt(record.id) == Some(id) && record.started == Some(secs) && is_instant(secs, 0) ==> {
            &&& snapshot_of(record) is Some
            &&& snapshot_of(record)->0.id == id
            &&& snapshot_of(record)->0.started == (secs, 0u32)
            &&& opt(record.state) is Some ==> snapshot_of(record)->0.state == opt(record.state)->0
            &&& opt(record.state) is None ==> snapshot_of(record)->0.state == "unknown"@
        },
        record.started matches Some(s) && !is_instant(s, 0) ==> snapshot_of(record) is None,
{
}

/// The root volume is the one behind the first device that has the name of the root device, which is
/// `/dev/sda1` where EC2 names none.
pub proof fn root_volume_is_behind_the_root_device(
    devices: InstanceDevices,
    root: Seq<char>,
    k: int,
    id: Seq<char>,
)
    requires
        root == match opt(devices.root_device_name) {
            Some(name) => name,
            None => "/dev/sda1"@,
        },
    ensures
        (0 <= k < devices.mappings@.len() && opt(devices.mappings@[k].device_name) == Some(root)
            && forall|j: int|
            0 <= j < k ==> opt((#[trigger] devices.mappings@[j]).device_name) != Some(root)) ==> (
        match opt(devices.mappings@[k].volume_id) {
            Some(volume) => root_volume_of(Some(devices), id) == Ok::<Seq<char>, Seq<char>>(volume),
            None => root_volume_of(Some(devices), id) is Err,
        }),
        (forall|j: int|
            0 <= j < devices.mappings@.len() ==> opt((#[trigger] devices.mappings@[j]).device_name)
                != Some(root)) ==> root_volume_of(Some(devices), id) is Err,
        root_volume_of(None, id) is Err,
{
    let all = mapping_views(devices.mappings@);
    assert(forall|j: int|
        0 <= j < all.len() ==> (#[trigger] all[j]).0 == opt(devices.mappings@[j].device_name));
    lemma_volume_at(all, root, k);
}

proof fn lemma_volume_at(
    mappings: Seq<(Option<Seq<char>>, Option<Seq<char>>)>,
    device: Seq<char>,
    k: int,
)
    ensures
        (0 <= k < mappings.len() && mappings[k].0 == Some(device) && forall|j: int|
            0 <= j < k ==> (#[trigger] mappings[j]).0 != Some(device)) ==> volume_at(
            mappings,
            device,
        ) == mappings[k].1,
        (forall|j: int| 0 <= j < mappings.len() ==> (#[trigger] mappings[j]).0 != Some(device))
            ==> volume_at(mappings, device) is None,
    decreases mappings.len(),
{
    if mappings.len() > 0 {
        let rest = mappings.drop_first();
        lemma_volume_at(rest, device, k - 1);
        assert(forall|j: int| 0 <= j < rest.len() ==> #[trigger] rest[j] == mappings[j + 1]);
        if k > 0 && k < mappings.len() {
            assert(rest[k - 1] == mappings[k]);
        }
    }
}

/// Having no snapshot needs attention, and a lookup that failed is unknown and tells why.
pub proof fn missing_snapshot_needs_attention(now: (i64, u32), e: Seq<char>)
    ensures
        snapshot_verdict(Ok(None), now) == check_of(
            "snapshot"@,
            Status::Attention,
            "no snapshots of the root volume -- no restore point"@,
        ),
        snapshot_verdict(Err(e), now) == check_of(
            "snapshot"@,
            Status::Unknown,
            "lookup failed: "@ + e,
        ),
{
}

} // verus!

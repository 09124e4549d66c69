//! Extra ports: how they are written, and which of them are worth acting on.

use vstd::prelude::*;

use crate::number;
use crate::number::{decimal, read_number};
use crate::text;
use crate::text::{halves, res, trimmed};

verus! {

/// A port to publish on the container and open in the security group.
///
/// `host` is the side that the outside world reaches, and so the side that a security group governs;
/// `container` is where it lands inside. They are the same number unless they are mapped apart.
#[derive(Debug, Clone, Copy, PartialEq, Eq, Structural)]
pub struct PortMapping {
    pub host: u16,
    pub container: u16,
}

impl PortMapping {
    /// The side that the outside world connects to.
    pub fn host(&self) -> (port: u16)
        ensures
            port == self.host,
    {
        self.host
    }
}

/// Whether the instance publishes or allows a host port before any is added: SSH, HTTP and HTTPS.
pub open spec fn is_reserved(port: u16) -> bool {
    port == 22 || port == 80 || port == 443
}

fn reserved(port: u16) -> (b: bool)
    ensures
        b == is_reserved(port),
{
    port == 22 || port == 80 || port == 443
}

/// A port number: not zero, white space around it allowed.
pub open spec fn port_number(raw: Seq<char>) -> Option<u16> {
    match read_number(trimmed(raw), u16::MAX as nat) {
        Some(n) => if n == 0 {
            None
        } else {
            Some(n as u16)
        },
        None => None,
    }
}

/// The complaint about one side of a mapping.
pub open spec fn no_port(raw: Seq<char>, side: Seq<char>, value: Seq<char>) -> Seq<char> {
    "`"@ + trimmed(raw) + "` is not a port number ("@ + side + " side of `"@ + value + "`)"@
}

/// What a port mapping reads as: two ports with a colon between, or one for both sides.
pub open spec fn mapping_of(value: Seq<char>) -> Result<PortMapping, Seq<char>> {
    let sides = match halves(value, ':') {
        Some(sides) => sides,
        None => (value, value),
    };
    match (port_number(sides.0), port_number(sides.1)) {
        (None, _) => Err(no_port(sides.0, "host"@, value)),
        (Some(_), None) => Err(no_port(sides.1, "container"@, value)),
        (Some(host), Some(container)) => Ok(PortMapping { host, container }),
    }
}

fn parse_port(side: &str, raw: &[char], value: &str) -> (r: Result<u16, String>)
    ensures
        res(r) == (match port_number(raw@) {
            Some(port) => Ok::<u16, Seq<char>>(port),
            None => Err(no_port(raw@, side@, value@)),
        }),
{
    let bare = text::trim(raw);
    match number::parse(bare, 65535) {
        Some(port) => {
            if port != 0 {
                return Ok(port as u16);
            }
        },
        None => {},
    }
    let mut e = "`".to_owned();
    e.append(text::string(bare).as_str());
    e.append("` is not a port number (");
    e.append(side);
    e.append(" side of `");
    e.append(value);
    e.append("`)");
    Err(e)
}

/// Reads a port mapping: `8080:80` maps host 8080 to container 80, `30443` is both sides.
pub fn parse_port_mapping(value: &str) -> (r: Result<PortMapping, String>)
    ensures
        res(r) == mapping_of(value@),
{
    let cs = text::chars(value);
    let (host, container) = match text::split_once(cs.as_slice(), ':') {
        Some((host, container)) => (host, container),
        None => (cs.as_slice(), cs.as_slice()),
    };
    match parse_port("host", host, value) {
        Err(e) => Err(e),
        Ok(host) => match parse_port("container", container, value) {
            Err(e) => Err(e),
            Ok(container) => Ok(PortMapping { host, container }),
        },
    }
}

/// Whether a mapping is worth acting on: the instance does not handle its host port yet, and no
/// mapping before it has the same.
pub open spec fn worthwhile(ports: Seq<PortMapping>, i: int) -> bool {
    !is_reserved(ports[i].host) && forall|j: int|
        0 <= j < i ==> (#[trigger] ports[j]).host != ports[i].host
}

/// The mappings that are worth acting on, in the order that they were given in.
pub open spec fn usable(ports: Seq<PortMapping>) -> Seq<PortMapping>
    decreases ports.len(),
{
    if ports.len() == 0 {
        Seq::empty()
    } else {
        let front = usable(ports.drop_last());
        if worthwhile(ports, ports.len() - 1) {
            front.push(ports.last())
        } else {
            front
        }
    }
}

/// The mappings that are worth acting on, in the order that they were given in.
///
/// What the instance already handles is dropped: EC2 rejects a repeated rule outright, and a port
/// that is published twice stops the container from starting.
pub fn usable_ports(ports: &[PortMapping]) -> (r: Vec<PortMapping>)
    ensures
        r@ == usable(ports@),
{
    let mut r: Vec<PortMapping> = Vec::new();
    let mut i: usize = 0;
    while i < ports.len()
        invariant
            i <= ports.len(),
            r@ == usable(ports@.take(i as int)),
        decreases ports.len() - i,
    {
        let mapping = ports[i];
        let ghost front = ports@.take(i + 1);
        assert(front.drop_last() =~= ports@.take(i as int));
        let mut fresh = !reserved(mapping.host);
        let mut j: usize = 0;
        while j < i && fresh
            invariant
                i < ports.len(),
                j <= i,
                mapping == ports@[i as int],
                front == ports@.take(i + 1),
                fresh ==> !is_reserved(mapping.host) && forall|k: int|
                    0 <= k < j ==> (#[trigger] front[k]).host != mapping.host,
                !fresh ==> !worthwhile(front, i as int),
            decreases i - j,
        {
            if ports[j].host == mapping.host {
                assert(front[j as int].host == mapping.host);
                fresh = false;
            }
            j += 1;
        }
        if fresh {
            r.push(mapping);
        }
        i += 1;
    }
    assert(ports@.take(i as int) =~= ports@);
    r
}

/// No usable mapping repeats a host port, and none has one that the instance already handles.
pub proof fn usable_hosts_are_new(ports: Seq<PortMapping>)
    ensures
        forall|i: int| 0 <= i < usable(ports).len() ==> !is_reserved((#[trigger] usable(ports)[i]).host),
        forall|i: int, j: int|
            0 <= i < j < usable(ports).len() ==> (#[trigger] usable(ports)[i]).host != (
            #[trigger] usable(ports)[j]).host,
    decreases ports.len(),
{
    if ports.len() > 0 {
        let front = ports.drop_last();
        usable_hosts_are_new(front);
        usable_come_in_order(front);
        if worthwhile(ports, ports.len() - 1) {
            assert forall|i: int, j: int| 0 <= i < j < usable(ports).len() implies (
            #[trigger] usable(ports)[i]).host != (#[trigger] usable(ports)[j]).host by {
                if j == usable(front).len() {
                    let k = position_of(front, i);
                    assert(front[k] == usable(front)[i]);
                    assert(ports[k] == front[k]);
                }
            }
        }
    }
}

/// Where a usable mapping stands among those that were given.
pub open spec fn position_of(ports: Seq<PortMapping>, i: int) -> int
    decreases ports.len(),
{
    if ports.len() == 0 {
        0
    } else if worthwhile(ports, ports.len() - 1) && i == usable(ports.drop_last()).len() {
        ports.len() - 1
    } else {
        position_of(ports.drop_last(), i)
    }
}

/// Usable mappings are among those that were given, and keep their order.
pub proof fn usable_come_in_order(ports: Seq<PortMapping>)
    ensures
        forall|i: int|
            0 <= i < usable(ports).len() ==> 0 <= #[trigger] position_of(ports, i) < ports.len()
                && ports[position_of(ports, i)] == usable(ports)[i],
        forall|i: int, j: int|
            0 <= i < j < usable(ports).len() ==> #[trigger] position_of(ports, i)
                < #[trigger] position_of(ports, j),
    decreases ports.len(),
{
    if ports.len() > 0 {
        let front = ports.drop_last();
        usable_come_in_order(front);
        assert forall|i: int| 0 <= i < usable(ports).len() implies 0 <= #[trigger] position_of(
            ports,
            i,
        ) < ports.len() && ports[position_of(ports, i)] == usable(ports)[i] by {
            if i < usable(front).len() {
                let k = position_of(front, i);
                assert(ports[k] == front[k]);
            }
        }
        assert forall|i: int, j: int| 0 <= i < j < usable(ports).len() implies
            #[trigger] position_of(ports, i) < #[trigger] position_of(ports, j) by {
            let k = position_of(front, i);
            let l = position_of(front, j);
        }
    }
}

/// Every host port that was asked for is either handled already or among the usable ones.
pub proof fn usable_cover_every_host(ports: Seq<PortMapping>)
    ensures
        forall|i: int|
            0 <= i < ports.len() && !is_reserved((#[trigger] ports[i]).host) ==> exists|k: int|
                0 <= k < usable(ports).len() && (#[trigger] usable(ports)[k]).host
                    == ports[i].host,
    decreases ports.len(),
{
    if ports.len() > 0 {
        let n = ports.len() - 1;
        let front = ports.drop_last();
        usable_cover_every_host(front);
        assert forall|i: int| 0 <= i < ports.len() && !is_reserved((#[trigger] ports[i]).host)
            implies exists|k: int|
            0 <= k < usable(ports).len() && (#[trigger] usable(ports)[k]).host == ports[i].host by {
            if i == n && worthwhile(ports, n) {
                assert(usable(ports)[usable(front).len() as int] == ports[n]);
            } else {
                let j = if i < n {
                    i
                } else {
                    choose|j: int| 0 <= j < n && (#[trigger] ports[j]).host == ports[n].host
                };
                assert(front[j] == ports[j]);
                assert(!is_reserved(front[j].host));
                let k = choose|k: int|
                    0 <= k < usable(front).len() && (#[trigger] usable(front)[k]).host
                        == front[j].host;
                assert(usable(ports)[k] == usable(front)[k]);
            }
        }
    }
}

proof fn lemma_all_worthwhile(ports: Seq<PortMapping>)
    requires
        forall|i: int| 0 <= i < ports.len() ==> !is_reserved((#[trigger] ports[i]).host),
        forall|i: int, j: int|
            0 <= i < j < ports.len() ==> (#[trigger] ports[i]).host != (#[trigger] ports[j]).host,
    ensures
        usable(ports) == ports,
    decreases ports.len(),
{
    if ports.len() > 0 {
        let front = ports.drop_last();
        assert forall|i: int| 0 <= i < front.len() implies !is_reserved(
            (#[trigger] front[i]).host,
        ) by {
            assert(front[i] == ports[i]);
        }
        assert forall|i: int, j: int| 0 <= i < j < front.len() implies (#[trigger] front[i]).host
            != (#[trigger] front[j]).host by {
            assert(front[i] == ports[i] && front[j] == ports[j]);
        }
        lemma_all_worthwhile(front);
        assert(worthwhile(ports, ports.len() - 1));
        assert(front.push(ports.last()) =~= ports);
    }
}

/// Dropping what the instance handles twice drops nothing more.
pub proof fn usable_is_settled(ports: Seq<PortMapping>)
    ensures
        usable(usable(ports)) == usable(ports),
{
    usable_hosts_are_new(ports);
    lemma_all_worthwhile(usable(ports));
}

proof fn lemma_trimmed_numeral(s: Seq<char>)
    requires
        number::is_numeral(s),
    ensures
        trimmed(s) == s,
        text::free_of(s, ':'),
{
    assert(number::is_digit(s[0]));
    assert(number::is_digit(s[s.len() - 1]));
    assert forall|i: int| 0 <= i < s.len() implies #[trigger] s[i] != ':' by {
        assert(number::is_digit(s[i]));
    }
}

/// A mapping that is written out is read back.
pub proof fn mapping_reads_back(mapping: PortMapping)
    requires
        mapping.host != 0,
        mapping.container != 0,
    ensures
        mapping_of(decimal(mapping.host as nat) + ":"@ + decimal(mapping.container as nat)) == Ok::<
            PortMapping,
            Seq<char>,
        >(mapping),
{
    let host = decimal(mapping.host as nat);
    let container = decimal(mapping.container as nat);
    let value = host + ":"@ + container;
    number::decimal_denotes(mapping.host as nat);
    number::decimal_denotes(mapping.container as nat);
    number::decimal_reads_back(mapping.host as nat, u16::MAX as nat);
    number::decimal_reads_back(mapping.container as nat, u16::MAX as nat);
    lemma_trimmed_numeral(host);
    lemma_trimmed_numeral(container);
    reveal_strlit(":");
    assert forall|i: int| 0 <= i < host.len() implies value[i] != ':' by {
        assert(value[i] == host[i]);
    }
    text::lemma_is_first_index(value, ':', host.len() as int);
    assert(value.take(host.len() as int) =~= host);
    assert(value.skip(host.len() as int + 1) =~= container);
}

/// A bare port maps to itself.
pub proof fn bare_port_maps_to_itself(value: Seq<char>)
    requires
        text::free_of(value, ':'),
    ensures
        match mapping_of(value) {
            Ok(mapping) => mapping.host == mapping.container && port_number(value) == Some(
                mapping.host,
            ),
            Err(_) => port_number(value) is None,
        },
{
    text::lemma_is_first_index(value, ':', value.len() as int);
}

/// No mapping has a port zero on either side.
pub proof fn mappings_have_ports(value: Seq<char>)
    ensures
        match mapping_of(value) {
            Ok(mapping) => mapping.host != 0 && mapping.container != 0,
            Err(_) => true,
        },
{
}

/// The usable mappings are exactly those that name, as the first, a host port other than those of SSH,
/// HTTP and HTTPS.
pub proof fn usable_are_the_first_of_each_host(ports: Seq<PortMapping>)
    ensures
        forall|i: int|
            #![trigger ports[i]]
            0 <= i < ports.len() && ports[i].host != 22 && ports[i].host != 80 && ports[i].host
                != 443 && (forall|j: int|
                0 <= j < i ==> (#[trigger] ports[j]).host != ports[i].host) ==> usable(ports).contains(
                ports[i],
            ),
        forall|k: int|
            #![trigger usable(ports)[k]]
            0 <= k < usable(ports).len() ==> {
                let mapping = usable(ports)[k];
                &&& mapping.host != 22 && mapping.host != 80 && mapping.host != 443
                &&& exists|i: int|
                    0 <= i < ports.len() && #[trigger] ports[i] == mapping && forall|j: int|
                        0 <= j < i ==> (#[trigger] ports[j]).host != mapping.host
            },
    decreases ports.len(),
{
    if ports.len() > 0 {
        let n = ports.len() - 1;
        let front = ports.drop_last();
        let all = usable(ports);
        usable_are_the_first_of_each_host(front);
        assert(forall|i: int| 0 <= i < n ==> #[trigger] front[i] == ports[i]);
        assert forall|i: int|
            #![trigger ports[i]]
            0 <= i < ports.len() && ports[i].host != 22 && ports[i].host != 80 && ports[i].host
                != 443 && (forall|j: int|
                0 <= j < i ==> (#[trigger] ports[j]).host != ports[i].host) implies all.contains(
            ports[i],
        ) by {
            if i < n {
                assert(front[i] == ports[i]);
                assert(forall|j: int| 0 <= j < i ==> (#[trigger] front[j]).host != front[i].host);
                assert(usable(front).contains(front[i]));
                let k = choose|k: int|
                    0 <= k < usable(front).len() && usable(front)[k] == front[i];
                assert(all[k] == ports[i]);
            } else {
                assert(worthwhile(ports, n));
                assert(all[all.len() - 1] == ports[n]);
            }
        }
        assert forall|k: int|
            #![trigger all[k]]
            0 <= k < all.len() implies ({
            let mapping = all[k];
            &&& mapping.host != 22 && mapping.host != 80 && mapping.host != 443
            &&& exists|i: int|
                0 <= i < ports.len() && #[trigger] ports[i] == mapping && forall|j: int|
                    0 <= j < i ==> (#[trigger] ports[j]).host != mapping.host
        }) by {
            if k < usable(front).len() {
                let mapping = usable(front)[k];
                assert(all[k] == mapping);
                let i = choose|i: int|
                    0 <= i < front.len() && #[trigger] front[i] == mapping && forall|j: int|
                        0 <= j < i ==> (#[trigger] front[j]).host != mapping.host;
                assert(ports[i] == mapping);
                assert forall|j: int| 0 <= j < i implies (#[trigger] ports[j]).host
                    != mapping.host by {
                    assert(front[j] == ports[j]);
                }
            } else {
                assert(all[k] == ports[n]);
                assert(worthwhile(ports, n));
            }
        }
    }
}

/// A number beyond the largest port, and zero, are refused on either side.
pub proof fn only_ports_are_mapped(n: nat, other: Seq<char>)
    requires
        n == 0 || n > 65535,
        text::free_of(other, ':'),
    ensures
        mapping_of(decimal(n)) is Err,
        mapping_of(decimal(n) + seq![':'] + other) is Err,
        mapping_of(other + seq![':'] + decimal(n)) is Err,
{
    number::decimal_denotes(n);
    number::numbers_are_digits_within_bounds(decimal(n), n, u16::MAX as nat);
    if n == 0 {
        number::decimal_reads_back(n, u16::MAX as nat);
    }
    lemma_trimmed_numeral(decimal(n));
    text::first_piece_is_split_off(decimal(n), ':', other);
    text::first_piece_is_split_off(other, ':', decimal(n));
    text::lemma_is_first_index(decimal(n), ':', decimal(n).len() as int);
}

/// White space around a port makes no difference, on either side of a mapping.
pub proof fn white_space_around_ports_is_ignored(host: Seq<char>, container: Seq<char>)
    requires
        text::free_of(host, ':'),
        text::free_of(container, ':'),
    ensures
        match (
            mapping_of(host + seq![':'] + container),
            mapping_of(trimmed(host) + seq![':'] + trimmed(container)),
        ) {
            (Ok(a), Ok(b)) => a == b,
            (Err(_), Err(_)) => true,
            _ => false,
        },
{
    text::lemma_trimmed_twice(host);
    text::lemma_trimmed_twice(container);
    text::lemma_trimmed_free(host, ':');
    text::first_piece_is_split_off(host, ':', container);
    text::first_piece_is_split_off(trimmed(host), ':', trimmed(container));
}

} // verus!

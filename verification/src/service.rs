//! Where the daemon listens, and how it announces itself in the local network.

use vstd::prelude::*;

use crate::error::R357Error;
use crate::ipv4::{ipv4_text, parse_ipv4, Ipv4};
use mdns_sd::ServiceInfo;

verus! {

/// The settings of the daemon.
#[derive(Debug)]
pub struct Args {
    /// The radio stream.
    pub url: String,
    /// The address to listen on.
    pub binding: String,
    /// The port to listen on.
    pub port: u16,
    /// Whether the announcement in the local network is switched off.
    pub no_mdns: bool,
}

impl Default for Args {
    /// The settings that hold where the user gives none.
    fn default() -> (args: Args)
        ensures
            args.url@ == "https://stream.radio357.pl"@,
            args.binding@ == "0.0.0.0"@,
            args.port == 6681,
            !args.no_mdns,
    {
        Args {
            url: "https://stream.radio357.pl".to_owned(),
            binding: "0.0.0.0".to_owned(),
            port: 6681,
            no_mdns: false,
        }
    }
}

/// The address and port that the HTTP interface is served at.
#[derive(Debug, Clone, Copy, PartialEq, Eq, Structural)]
pub struct ServerAddress {
    pub ip: Ipv4,
    pub port: u16,
}

/// The address that a binding names; without one the binding is bad.
pub open spec fn binding_of(binding: Seq<char>) -> Result<Ipv4, R357Error> {
    match crate::ipv4::ipv4_of(binding) {
        Some(ip) => Ok(ip),
        None => Err(R357Error::BadBinding),
    }
}

/// Reads the address that a binding names.
pub fn parse_binding(binding: &str) -> (ip: Result<Ipv4, R357Error>)
    ensures
        ip == binding_of(binding@),
{
    match parse_ipv4(binding) {
        Some(ip) => Ok(ip),
        None => Err(R357Error::BadBinding),
    }
}

/// Finds out where the HTTP interface is to be served.
pub fn server_address(args: &Args) -> (address: Result<ServerAddress, R357Error>)
    ensures
        address == (match binding_of(args.binding@) {
            Ok(ip) => Ok(ServerAddress { ip, port: args.port }),
            Err(e) => Err(e),
        }),
{
    match parse_binding(args.binding.as_str()) {
        Ok(ip) => Ok(ServerAddress { ip, port: args.port }),
        Err(e) => Err(e),
    }
}

/// What the system says when it is asked for its name.
pub enum HostnameLookup {
    /// It gave no answer.
    Failed,
    /// It has a name that is not Unicode.
    NotUnicode,
    /// It has this name.
    Name(String),
}

/// Takes the host name from what the system says.
pub fn find_hostname(lookup: HostnameLookup) -> (name: Result<String, R357Error>)
    ensures
        name == (match lookup {
            HostnameLookup::Name(name) => Ok(name),
            _ => Err(R357Error::NoHostname),
        }),
{
    match lookup {
        HostnameLookup::Failed => Err(R357Error::NoHostname),
        HostnameLookup::NotUnicode => Err(R357Error::NoHostname),
        HostnameLookup::Name(name) => Ok(name),
    }
}

/// The address of a network interface.
#[derive(Debug, Clone, Copy, PartialEq, Eq)]
pub enum IfAddr {
    V4(Ipv4),
    V6,
}

/// The address that stands for all addresses.
pub open spec fn wildcard() -> Ipv4 {
    Ipv4 { a: 0, b: 0, c: 0, d: 0 }
}

/// Whether a daemon bound to `binding` can be reached at an interface address.
pub open spec fn reachable_at(addr: IfAddr, binding: Ipv4) -> bool {
    addr matches IfAddr::V4(ip) && (binding == wildcard() || ip == binding)
}

/// The IPv4 addresses at which a daemon bound to `binding` can be reached, in the
/// order of the interfaces.
pub open spec fn reachable_ips(ifaces: Seq<IfAddr>, binding: Ipv4) -> Seq<Ipv4> {
    ifaces.filter(|addr: IfAddr| reachable_at(addr, binding)).map_values(
        |addr: IfAddr| addr->V4_0,
    )
}

/// The addresses to announce, given what the system says of its interfaces. If that
/// fails, the binding is not looked at.
pub open spec fn ips_of(
    ifaces: Result<Vec<IfAddr>, String>,
    binding: Seq<char>,
) -> Result<Seq<Ipv4>, R357Error> {
    match (ifaces, binding_of(binding)) {
        (Err(cause), _) => Err(R357Error::IfaceError(cause)),
        (Ok(_), Err(e)) => Err(e),
        (Ok(addrs), Ok(ip)) => Ok(reachable_ips(addrs@, ip)),
    }
}

/// Finds the addresses to announce.
pub fn find_ips(ifaces: Result<Vec<IfAddr>, String>, binding: &str) -> (ips: Result<
    Vec<Ipv4>,
    R357Error,
>)
    ensures
        match ips {
            Ok(found) => ips_of(ifaces, binding@) == Ok::<Seq<Ipv4>, R357Error>(found@),
            Err(e) => ips_of(ifaces, binding@) == Err::<Seq<Ipv4>, R357Error>(e),
        },
{
    let addrs: Vec<IfAddr> = match ifaces {
        Ok(addrs) => addrs,
        Err(cause) => return Err(R357Error::IfaceError(cause)),
    };
    let bound: Ipv4 = match parse_binding(binding) {
        Ok(ip) => ip,
        Err(e) => return Err(e),
    };
    let all: bool = bound == (Ipv4 { a: 0, b: 0, c: 0, d: 0 });
    let mut found: Vec<Ipv4> = Vec::new();
    let ghost keep = |addr: IfAddr| reachable_at(addr, bound);
    let ghost octets = |addr: IfAddr| addr->V4_0;
    let mut at: usize = 0;
    assert(addrs@.take(0) =~= Seq::empty());
    reveal(Seq::filter);
    assert(found@ =~= addrs@.take(0).filter(keep).map_values(octets));
    while at < addrs.len()
        invariant
            at <= addrs.len(),
            all == (bound == wildcard()),
            keep == (|addr: IfAddr| reachable_at(addr, bound)),
            octets == (|addr: IfAddr| addr->V4_0),
            found@ == addrs@.take(at as int).filter(keep).map_values(octets),
        decreases addrs.len() - at,
    {
        let ghost taken = addrs@.take(at + 1);
        assert(taken.drop_last() =~= addrs@.take(at as int));
        assert(taken.last() == addrs@[at as int]);
        match addrs[at] {
            IfAddr::V4(ip) => {
                if all || ip == bound {
                    found.push(ip);
                }
            },
            IfAddr::V6 => {},
        }
        assert(found@ =~= taken.filter(keep).map_values(octets)) by {
            reveal(Seq::filter);
        }
        at = at + 1;
    }
    assert(addrs@.take(at as int) =~= addrs@);
    Ok(found)
}

/// What is announced is exactly the interface addresses at which the daemon can be
/// reached: all IPv4 addresses if it is bound to the wildcard address, else the
/// address that it is bound to, if an interface has it.
pub proof fn announced_ips_are_the_reachable_ones(ifaces: Seq<IfAddr>, binding: Ipv4, ip: Ipv4)
    ensures
        reachable_ips(ifaces, binding).contains(ip) <==> ifaces.contains(IfAddr::V4(ip)) && (binding
            == wildcard() || ip == binding),
    decreases ifaces.len(),
{
    let keep = |addr: IfAddr| reachable_at(addr, binding);
    let octets = |addr: IfAddr| addr->V4_0;
    let found = reachable_ips(ifaces, binding);
    reveal(Seq::filter);
    if ifaces.len() > 0 {
        let before = ifaces.drop_last();
        let last = ifaces.last();
        announced_ips_are_the_reachable_ones(before, binding, ip);
        let earlier = reachable_ips(before, binding);
        if keep(last) {
            assert(found =~= earlier.push(last->V4_0));
            assert(found.last() == last->V4_0);
        } else {
            assert(found =~= earlier);
        }
        if earlier.contains(ip) {
            let i = earlier.index_of(ip);
            assert(found[i] == ip);
        }
        if found.contains(ip) && !earlier.contains(ip) {
            let i = found.index_of(ip);
            assert(i < earlier.len() ==> earlier[i] == ip);
            assert(last == IfAddr::V4(ip));
        }
        if before.contains(IfAddr::V4(ip)) {
            let i = before.index_of(IfAddr::V4(ip));
            assert(ifaces[i] == IfAddr::V4(ip));
        }
        if ifaces.contains(IfAddr::V4(ip)) && !before.contains(IfAddr::V4(ip)) {
            let i = ifaces.index_of(IfAddr::V4(ip));
            assert(i < before.len() ==> before[i] == IfAddr::V4(ip));
            assert(last == IfAddr::V4(ip));
        }
    } else {
        assert(found =~= Seq::empty());
    }
}

/// The description of a service of the mDNS responder.
#[verifier::external_type_specification]
#[verifier::external_body]
pub struct ExServiceInfo(ServiceInfo);

/// The type of the service: `ServiceInfo::get_type`.
pub uninterp spec fn service_type(info: ServiceInfo) -> Seq<char>;

/// The subtype of the service, if it has one: `ServiceInfo::get_subtype`.
pub uninterp spec fn service_subtype(info: ServiceInfo) -> Option<Seq<char>>;

/// The properties of the service, keys with or without values, in their order:
/// `ServiceInfo::get_properties`.
pub uninterp spec fn service_properties(info: ServiceInfo) -> Seq<(Seq<char>, Option<Seq<u8>>)>;

/// The name of the service instance in the network: `ServiceInfo::get_fullname`.
pub uninterp spec fn service_fullname(info: ServiceInfo) -> Seq<char>;

/// The name of the host that offers the service: `ServiceInfo::get_hostname`.
pub uninterp spec fn service_host(info: ServiceInfo) -> Seq<char>;

/// The port of the service: `ServiceInfo::get_port`.
pub uninterp spec fn service_port(info: ServiceInfo) -> u16;

/// The addresses of the service in their usual notation: `ServiceInfo::get_addresses`.
pub uninterp spec fn service_addresses(info: ServiceInfo) -> Set<Seq<char>>;

/// For how many seconds the host and address records of the service hold:
/// `ServiceInfo::get_host_ttl`.
pub uninterp spec fn service_host_ttl(info: ServiceInfo) -> u32;

/// For how many seconds the other records of the service hold:
/// `ServiceInfo::get_other_ttl`.
pub uninterp spec fn service_other_ttl(info: ServiceInfo) -> u32;

/// The priority of the service: `ServiceInfo::get_priority`.
pub uninterp spec fn service_priority(info: ServiceInfo) -> u16;

/// The weight of the service: `ServiceInfo::get_weight`.
pub uninterp spec fn service_weight(info: ServiceInfo) -> u16;

/// An instance name as it stands inside a full name, where a dot or a backslash has
/// a backslash before it.
pub open spec fn escaped(name: Seq<char>) -> Seq<char>
    decreases name.len(),
{
    if name.len() == 0 {
        Seq::empty()
    } else if name.last() == '.' || name.last() == '\\' {
        escaped(name.drop_last()) + seq!['\\', name.last()]
    } else {
        escaped(name.drop_last()).push(name.last())
    }
}

/// A host name as the responder uses it: a doubled domain at its end counts once.
pub open spec fn normalized(host: Seq<char>) -> Seq<char> {
    if ".local.local."@.is_suffix_of(host) {
        host.take(host.len() - "local."@.len())
    } else {
        host
    }
}

/// Whether a service type has no subtype.
pub open spec fn without_subtype(kind: Seq<char>) -> bool {
    forall|i: int| 0 <= i <= kind.len() ==> !"._sub."@.is_prefix_of(#[trigger] kind.skip(i))
}

/// `ServiceInfo::new` without properties, for a type without subtype and addresses in
/// dotted notation: it does not fail, and the description holds what it was given, the
/// instance name escaped and the host name normalized, with no subtype and no
/// properties. Times to live, priority and weight have the responder's default values.
#[verifier::external_body]
fn new_service_info(
    kind: &str,
    instance: &str,
    host: &str,
    addresses: &Vec<String>,
    port: u16,
) -> (info: Result<ServiceInfo, String>)
    requires
        without_subtype(kind@),
        forall|i: int|
            0 <= i < addresses@.len() ==> crate::ipv4::ipv4_of(#[trigger] addresses@[i]@) is Some,
    ensures
        info is Ok,
        service_type(info->Ok_0) == kind@,
        service_subtype(info->Ok_0) is None,
        service_properties(info->Ok_0).len() == 0,
        service_fullname(info->Ok_0) == escaped(instance@) + seq!['.'] + kind@,
        service_host(info->Ok_0) == normalized(host@),
        service_port(info->Ok_0) == port,
        service_addresses(info->Ok_0) == addresses@.map_values(
            |address: String| address@,
        ).to_set(),
        service_host_ttl(info->Ok_0) == 120,
        service_other_ttl(info->Ok_0) == 4500,
        service_priority(info->Ok_0) == 0,
        service_weight(info->Ok_0) == 0,
{
    ServiceInfo::new(kind, instance, host, addresses.as_slice(), port, None).map_err(
        |e| e.to_string(),
    )
}

/// The type of the daemon's service.
pub open spec fn service_kind() -> Seq<char> {
    "_r357_._tcp.local."@
}

/// The name of the daemon's instance: the unit that runs it, if there is one.
pub open spec fn instance_of(unit: Option<String>) -> Seq<char> {
    match unit {
        Some(name) => name@,
        None => "instance"@,
    }
}

proof fn lemma_service_kind_has_no_subtype()
    ensures
        without_subtype(service_kind()),
{
    reveal_strlit("_r357_._tcp.local.");
    reveal_strlit("._sub.");
    let kind = service_kind();
    let sub = "._sub."@;
    assert forall|i: int| 0 <= i <= kind.len() implies !sub.is_prefix_of(#[trigger] kind.skip(i)) by {
        if sub.is_prefix_of(kind.skip(i)) {
            let tail = kind.skip(i);
            assert(tail.subrange(0, 6)[0] == sub[0]);
            assert(tail.subrange(0, 6)[1] == sub[1]);
            assert(tail.subrange(0, 6)[2] == sub[2]);
            assert(kind[i] == '.');
            assert(kind[i + 1] == '_');
            assert(kind[i + 2] == 's');
        }
    }
}

/// Describes the daemon for the announcement in the local network: under its unit's
/// name, or `instance`, at the system's host name, with the addresses at which it can
/// be reached, and its port, without subtype or properties, and with the responder's
/// default values for the rest. The first failure on the way counts: of the host name,
/// of the interfaces, of the binding.
pub fn describe_service(
    unit: Option<String>,
    lookup: HostnameLookup,
    ifaces: Result<Vec<IfAddr>, String>,
    args: &Args,
) -> (info: Result<ServiceInfo, R357Error>)
    ensures
        match (lookup, ips_of(ifaces, args.binding@)) {
            (HostnameLookup::Name(host), Ok(ips)) => {
                &&& info is Ok
                &&& service_type(info->Ok_0) == service_kind()
                &&& service_subtype(info->Ok_0) is None
                &&& service_properties(info->Ok_0).len() == 0
                &&& service_fullname(info->Ok_0) == escaped(instance_of(unit)) + seq!['.']
                    + service_kind()
                &&& service_host(info->Ok_0) == normalized(host@)
                &&& service_port(info->Ok_0) == args.port
                &&& service_addresses(info->Ok_0) == ips.map_values(
                    |ip: Ipv4| crate::ipv4::dotted(ip),
                ).to_set()
                &&& service_host_ttl(info->Ok_0) == 120
                &&& service_other_ttl(info->Ok_0) == 4500
                &&& service_priority(info->Ok_0) == 0
                &&& service_weight(info->Ok_0) == 0
            },
            (HostnameLookup::Name(_), Err(e)) => info == Err::<ServiceInfo, R357Error>(e),
            _ => info == Err::<ServiceInfo, R357Error>(R357Error::NoHostname),
        },
{
    let instance: String = match unit {
        Some(name) => name,
        None => "instance".to_owned(),
    };
    let host: String = match find_hostname(lookup) {
        Ok(name) => name,
        Err(e) => return Err(e),
    };
    let ips: Vec<Ipv4> = match find_ips(ifaces, args.binding.as_str()) {
        Ok(ips) => ips,
        Err(e) => return Err(e),
    };
    let mut addresses: Vec<String> = Vec::new();
    let mut at: usize = 0;
    while at < ips.len()
        invariant
            at <= ips.len(),
            addresses@.len() == at,
            forall|i: int|
                0 <= i < at ==> (#[trigger] addresses@[i])@ == crate::ipv4::dotted(ips@[i]),
        decreases ips.len() - at,
    {
        addresses.push(ipv4_text(ips[at]));
        at = at + 1;
    }
    proof {
        lemma_service_kind_has_no_subtype();
        assert forall|i: int| 0 <= i < addresses@.len() implies crate::ipv4::ipv4_of(
            #[trigger] addresses@[i]@,
        ) is Some by {
            crate::ipv4::dotted_address_is_read_back(ips@[i]);
        }
        assert(addresses@.map_values(|address: String| address@) =~= ips@.map_values(
            |ip: Ipv4| crate::ipv4::dotted(ip),
        ));
    }
    match new_service_info(
        "_r357_._tcp.local.",
        instance.as_str(),
        host.as_str(),
        &addresses,
        args.port,
    ) {
        Ok(info) => Ok(info),
        Err(cause) => Err(R357Error::ServiceDiscoveryFailure(cause)),
    }
}

/// A binding is the address that it is the notation of, and bad if it is of none.
pub proof fn a_binding_is_an_address(binding: Seq<char>)
    ensures
        binding_of(binding) matches Ok(ip) ==> crate::ipv4::ipv4_of(binding) == Some(ip),
        binding_of(binding) matches Err(e) ==> e == R357Error::BadBinding,
        binding_of(binding) is Ok <==> crate::ipv4::ipv4_of(binding) is Some,
{
}

/// The addresses to announce are taken interface by interface, in their order: of each
/// IPv4 interface its address, if the binding is the wildcard address or this address,
/// and of any other none.
pub proof fn each_interface_is_judged_by_itself(
    ifaces: Seq<IfAddr>,
    more: Seq<IfAddr>,
    binding: Ipv4,
    ip: Ipv4,
)
    ensures
        reachable_ips(Seq::empty(), binding) == Seq::<Ipv4>::empty(),
        reachable_ips(ifaces + more, binding) == reachable_ips(ifaces, binding) + reachable_ips(
            more,
            binding,
        ),
        reachable_ips(seq![IfAddr::V4(ip)], binding) == (if ip == binding || (binding.a == 0
            && binding.b == 0 && binding.c == 0 && binding.d == 0) {
            seq![ip]
        } else {
            Seq::empty()
        }),
        reachable_ips(seq![IfAddr::V6], binding) == Seq::<Ipv4>::empty(),
    decreases more.len(),
{
    let keep = |addr: IfAddr| reachable_at(addr, binding);
    reveal(Seq::filter);
    let one = seq![IfAddr::V4(ip)];
    let other = seq![IfAddr::V6];
    assert(one.drop_last() =~= Seq::empty());
    assert(other.drop_last() =~= Seq::empty());
    assert(Seq::<IfAddr>::empty().filter(keep) =~= Seq::empty());
    assert(reachable_ips(Seq::empty(), binding) =~= Seq::empty());
    assert(one.filter(keep) =~= if keep(IfAddr::V4(ip)) {
        one
    } else {
        Seq::empty()
    });
    assert(other.filter(keep) =~= Seq::empty());
    assert(reachable_ips(one, binding) =~= if keep(IfAddr::V4(ip)) {
        seq![ip]
    } else {
        Seq::empty()
    });
    assert(reachable_ips(other, binding) =~= Seq::empty());
    if more.len() == 0 {
        assert(ifaces + more =~= ifaces);
        assert(more =~= Seq::empty());
        assert(reachable_ips(ifaces, binding) + reachable_ips(more, binding) =~= reachable_ips(
            ifaces,
            binding,
        ));
    } else {
        each_interface_is_judged_by_itself(ifaces, more.drop_last(), binding, ip);
        assert((ifaces + more).drop_last() =~= ifaces + more.drop_last());
        assert((ifaces + more).last() == more.last());
        assert(reachable_ips(ifaces + more, binding) =~= reachable_ips(ifaces, binding)
            + reachable_ips(more, binding));
    }
}

/// Which addresses are announced: none if the interfaces are not known or the binding is
/// bad, and then the first of the two reasons counts.
pub proof fn addresses_fail_for_their_reason(
    addrs: Vec<IfAddr>,
    cause: String,
    binding: Seq<char>,
    ip: Ipv4,
)
    ensures
        ips_of(Err(cause), binding) == Err::<Seq<Ipv4>, R357Error>(R357Error::IfaceError(cause)),
        crate::ipv4::ipv4_of(binding) is None ==> ips_of(Ok(addrs), binding) == Err::<
            Seq<Ipv4>,
            R357Error,
        >(R357Error::BadBinding),
        crate::ipv4::ipv4_of(binding) == Some(ip) ==> ips_of(Ok(addrs), binding) == Ok::<
            Seq<Ipv4>,
            R357Error,
        >(reachable_ips(addrs@, ip)),
{
}

/// The daemon is announced under the name of its unit as it is, else as `instance`, and
/// as a service of its own type.
pub proof fn the_unit_names_the_instance(unit: String)
    ensures
        instance_of(Some(unit)) == unit@,
        instance_of(None) == "instance"@,
        service_kind() == "_r357_._tcp.local."@,
{
}

} // verus!

use r357::error::R357Error;
use r357::ipv4::{ipv4_text, parse_ipv4, Ipv4};
use r357::service::{
    describe_service, find_hostname, find_ips, server_address, Args, HostnameLookup, IfAddr,
    ServerAddress,
};

fn ip(a: u8, b: u8, c: u8, d: u8) -> Ipv4 {
    Ipv4 { a, b, c, d }
}

fn ifaces() -> Vec<IfAddr> {
    vec![
        IfAddr::V4(ip(127, 0, 0, 1)),
        IfAddr::V6,
        IfAddr::V4(ip(192, 168, 1, 7)),
        IfAddr::V4(ip(127, 0, 0, 1)),
    ]
}

fn bound_to(binding: &str) -> Args {
    Args { binding: binding.to_string(), ..Args::default() }
}

fn host(name: &str) -> HostnameLookup {
    HostnameLookup::Name(name.to_string())
}

#[test]
fn default_settings() {
    let args = Args::default();
    assert_eq!(args.url, "https://stream.radio357.pl");
    assert_eq!(args.binding, "0.0.0.0");
    assert_eq!(args.port, 6681);
    assert!(!args.no_mdns);
}

#[test]
fn dotted_addresses() {
    assert_eq!(parse_ipv4("0.0.0.0"), Some(ip(0, 0, 0, 0)));
    assert_eq!(parse_ipv4("192.168.1.10"), Some(ip(192, 168, 1, 10)));
    assert_eq!(parse_ipv4("255.255.255.255"), Some(ip(255, 255, 255, 255)));
    for text in [
        "", "1", "1.2.3", "1.2.3.", "1.2.3.4.", "1.2.3.4.5", ".1.2.3", "1..2.3", "256.1.1.1",
        "1.1.1.300", "01.2.3.4", "1.2.3.04", "00.0.0.0", "1.2.3.4 ", " 1.2.3.4", "+1.2.3.4",
        "a.b.c.d", "1,2,3,4", "::1", "localhost", "1.2.3.1000",
    ] {
        assert_eq!(parse_ipv4(text), None, "{}", text);
    }
}

#[test]
fn addresses_are_read_back() {
    for n in 0..=255u8 {
        let address = ip(n, 255 - n, n / 2, n % 11);
        let text = ipv4_text(address);
        assert_eq!(text, format!("{}.{}.{}.{}", n, 255 - n, n / 2, n % 11));
        assert_eq!(parse_ipv4(&text), Some(address));
    }
}

#[test]
fn where_to_listen() {
    assert_eq!(
        server_address(&Args::default()).unwrap(),
        ServerAddress { ip: ip(0, 0, 0, 0), port: 6681 }
    );
    assert!(matches!(server_address(&bound_to("everywhere")), Err(R357Error::BadBinding)));
}

#[test]
fn hostnames() {
    assert_eq!(find_hostname(host("raspberry")).unwrap(), "raspberry");
    assert!(matches!(find_hostname(HostnameLookup::Failed), Err(R357Error::NoHostname)));
    assert!(matches!(find_hostname(HostnameLookup::NotUnicode), Err(R357Error::NoHostname)));
}

#[test]
fn wildcard_binding_announces_every_ipv4_address() {
    assert_eq!(
        find_ips(Ok(ifaces()), "0.0.0.0").unwrap(),
        vec![ip(127, 0, 0, 1), ip(192, 168, 1, 7), ip(127, 0, 0, 1)]
    );
}

#[test]
fn other_bindings_announce_themselves() {
    assert_eq!(find_ips(Ok(ifaces()), "192.168.1.7").unwrap(), vec![ip(192, 168, 1, 7)]);
    assert_eq!(find_ips(Ok(ifaces()), "10.0.0.1").unwrap(), vec![]);
}

#[test]
fn failures_to_find_addresses() {
    assert!(matches!(find_ips(Ok(ifaces()), "x"), Err(R357Error::BadBinding)));
    match find_ips(Err("denied".to_string()), "x") {
        Err(R357Error::IfaceError(cause)) => assert_eq!(cause, "denied"),
        _ => panic!(),
    }
}

#[test]
fn the_daemon_is_described() {
    let unit = Some("r357.service".to_string());
    let info = describe_service(unit, host("pi.local."), Ok(ifaces()), &Args::default()).unwrap();
    assert_eq!(info.get_type(), "_r357_._tcp.local.");
    assert_eq!(info.get_fullname(), "r357\\.service._r357_._tcp.local.");
    assert_eq!(info.get_hostname(), "pi.local.");
    assert_eq!(info.get_port(), 6681);
    assert!(info.get_subtype().is_none());
    assert!(info.get_properties().is_empty());
    assert_eq!((info.get_host_ttl(), info.get_other_ttl()), (120, 4500));
    assert_eq!((info.get_priority(), info.get_weight()), (0, 0));
    let mut addresses: Vec<String> =
        info.get_addresses().iter().map(|address| address.to_string()).collect();
    addresses.sort();
    assert_eq!(addresses, vec!["127.0.0.1", "192.168.1.7"]);
}

#[test]
fn the_daemon_is_described_without_a_unit() {
    let info =
        describe_service(None, host("a.local.local."), Ok(vec![]), &Args::default()).unwrap();
    assert_eq!(info.get_fullname(), "instance._r357_._tcp.local.");
    assert_eq!(info.get_hostname(), "a.local.");
    assert!(info.get_addresses().is_empty());
}

#[test]
fn failures_to_describe_the_daemon() {
    let args = bound_to("x");
    assert!(matches!(
        describe_service(None, HostnameLookup::Failed, Err("denied".to_string()), &args),
        Err(R357Error::NoHostname)
    ));
    assert!(matches!(
        describe_service(None, host("pi"), Err("denied".to_string()), &args),
        Err(R357Error::IfaceError(_))
    ));
    assert!(matches!(
        describe_service(None, host("pi"), Ok(ifaces()), &args),
        Err(R357Error::BadBinding)
    ));
}

use cetus::handle::DnsHandler;
use cetus::message::IpVersion;
use cetus::message::Protocol;
use cetus::message::ResponseCode;
use cetus::metrics::Family;
use cetus::metrics::MetricUpdate;
use cetus::metrics::Metrics;
use cetus::metrics::MetricsError;
use cetus::name::DomainName;
use cetus::record::DnsClass;
use cetus::record::RecordType;
use cetus::storage::StorageError;

fn name(text: &str) -> DomainName {
    DomainName::from_str(text).unwrap()
}

fn scrape(metrics: &Metrics) -> String {
    String::from_utf8(metrics.render()).unwrap()
}

/// The value of the series of `metric` whose labels hold all of `labels`,
/// or `None` where the scrape shows no such series.
fn value(scrape: &str, metric: &str, labels: &[(&str, &str)]) -> Option<u64> {
    let mut found = None;
    for line in scrape.lines() {
        if !line.starts_with(&format!("{}{{", metric)) {
            continue;
        }
        if labels.iter().all(|(key, val)| line.contains(&format!("{}=\"{}\"", key, val))) {
            assert!(found.is_none(), "more than one series: {}", line);
            found = Some(line.rsplit(' ').next().unwrap().parse::<u64>().unwrap());
        }
    }
    found
}

#[test]
fn new_metrics_show_the_unknown_zone_at_zero() {
    let metrics = Metrics::new("test".to_string()).unwrap();
    let text = scrape(&metrics);
    for code in ["NOERROR", "NOTIMP", "SERVFAIL", "NXDOMAIN", "REFUSED"] {
        assert_eq!(value(&text, "cetus_response_code", &[("zone", "UNKNOWN"), ("code", code), ("instance_name", "test")]), Some(0));
    }
    for class in ["IN", "CH", "HS", "NONE", "ANY"] {
        assert_eq!(value(&text, "cetus_query_class", &[("zone", "UNKNOWN"), ("class", class)]), Some(0));
    }
    for (version, protocol) in [("IPv4", "UDP"), ("IPv4", "TCP"), ("IPv6", "UDP"), ("IPv6", "TCP")] {
        assert_eq!(
            value(&text, "cetus_connection_types", &[("zone", "UNKNOWN"), ("ip_version", version), ("protocol", protocol)]),
            Some(0)
        );
    }
    for record in ["A", "AAAA", "ANAME", "ANY", "AXFR", "CAA", "CDS", "CDNSKEY", "CNAME", "CSYNC", "DNSKEY", "DS", "HINFO",
        "HTTPS", "IXFR", "KEY", "MX", "NAPTR", "NS", "NSEC", "NSEC3", "NSEC3PARAM", "NULL", "OPENPGPKEY", "OPT", "PTR",
        "RRSIG", "SIG", "SOA", "SRV", "SSHFP", "SVCB", "TLSA", "TSIG", "TXT"]
    {
        assert_eq!(value(&text, "cetus_query_type", &[("zone", "UNKNOWN"), ("record", record)]), Some(0));
    }
    assert_eq!(value(&text, "cetus_query_type", &[("zone", "UNKNOWN"), ("record", "ZERO")]), None);
    assert!(!text.contains("cetus_country_queries{"));
    assert!(!text.contains("zone=\"example.com.\""));
}

#[test]
fn the_families_have_their_names_and_labels() {
    let families = [
        (Family::ResponseCode, 0, "response_code", vec!["code"]),
        (Family::QueryType, 1, "query_type", vec!["record"]),
        (Family::QueryClass, 2, "query_class", vec!["class"]),
        (Family::ConnectionTypes, 3, "connection_types", vec!["ip_version", "protocol"]),
        (Family::CountryQueries, 4, "country_queries", vec!["country"]),
    ];
    for (family, index, name, labels) in families {
        assert_eq!(family.index(), index);
        assert_eq!(Family::at(index), family);
        assert_eq!(family.name(), name);
        assert_eq!(family.label_names(), labels);
        assert!(!family.help().is_empty());
    }
    assert_eq!(Family::ResponseCode.prefill().len(), 5);
    assert_eq!(Family::QueryType.prefill().len(), 35);
    assert_eq!(Family::QueryClass.prefill().len(), 5);
    assert_eq!(Family::ConnectionTypes.prefill(), vec![vec!["IPv4", "UDP"], vec!["IPv4", "TCP"], vec!["IPv6", "UDP"], vec!["IPv6", "TCP"]]);
    assert!(Family::CountryQueries.prefill().is_empty());
}

#[test]
fn labels_are_written_as_the_metrics_show_them() {
    assert_eq!(ResponseCode::NoError.label(), "NOERROR");
    assert_eq!(ResponseCode::FormErr.label(), "FORMERR");
    assert_eq!(ResponseCode::ServFail.label(), "SERVFAIL");
    assert_eq!(ResponseCode::NXDomain.label(), "NXDOMAIN");
    assert_eq!(ResponseCode::NotImp.label(), "NOTIMP");
    assert_eq!(ResponseCode::Refused.label(), "REFUSED");
    assert_eq!(ResponseCode::Other(23).label(), "OTHER");
    assert_eq!(IpVersion::V4.label(), "IPv4");
    assert_eq!(IpVersion::V6.label(), "IPv6");
    assert_eq!(Protocol::Udp.label(), "UDP");
    assert_eq!(Protocol::Tcp.label(), "TCP");
    assert_eq!(Protocol::Tls.label(), "TLS");
    assert_eq!(Protocol::Dtls.label(), "DTLS");
    assert_eq!(Protocol::Https.label(), "HTTPS");
    assert_eq!(Protocol::Quic.label(), "QUIC");
}

#[test]
fn the_counters_of_the_unknown_zone_move_by_one() {
    let mut metrics = Metrics::new("test".to_string()).unwrap();
    metrics.increment_unknown_zone_response_code(ResponseCode::Refused);
    metrics.increment_unknown_zone_record_type(RecordType::AAAA);
    metrics.increment_unknown_zone_record_type(RecordType::AAAA);
    metrics.increment_unknown_zone_query_class(DnsClass::CH);
    metrics.increment_unknown_zone_connection_type(IpVersion::V6, Protocol::Tcp);
    metrics.increment_unknown_zone_country_query("DE");
    let text = scrape(&metrics);
    assert_eq!(value(&text, "cetus_response_code", &[("zone", "UNKNOWN"), ("code", "REFUSED")]), Some(1));
    assert_eq!(value(&text, "cetus_response_code", &[("zone", "UNKNOWN"), ("code", "SERVFAIL")]), Some(0));
    assert_eq!(value(&text, "cetus_query_type", &[("zone", "UNKNOWN"), ("record", "AAAA")]), Some(2));
    assert_eq!(value(&text, "cetus_query_type", &[("zone", "UNKNOWN"), ("record", "A")]), Some(0));
    assert_eq!(value(&text, "cetus_query_class", &[("zone", "UNKNOWN"), ("class", "CH")]), Some(1));
    assert_eq!(value(&text, "cetus_query_class", &[("zone", "UNKNOWN"), ("class", "IN")]), Some(0));
    assert_eq!(value(&text, "cetus_connection_types", &[("zone", "UNKNOWN"), ("ip_version", "IPv6"), ("protocol", "TCP")]), Some(1));
    assert_eq!(value(&text, "cetus_connection_types", &[("zone", "UNKNOWN"), ("ip_version", "IPv6"), ("protocol", "UDP")]), Some(0));
    assert_eq!(value(&text, "cetus_country_queries", &[("zone", "UNKNOWN"), ("country", "DE")]), Some(1));
}

#[test]
fn a_zone_shows_once_it_is_registered() {
    let mut metrics = Metrics::new("test".to_string()).unwrap();
    let zone = name("example.com.");
    assert!(!metrics.increment_zone_response_code(&zone, ResponseCode::NoError));
    assert_eq!(metrics.register_zone(&zone), Ok(()));
    let text = scrape(&metrics);
    for code in ["NOERROR", "NOTIMP", "SERVFAIL", "NXDOMAIN", "REFUSED"] {
        assert_eq!(value(&text, "cetus_response_code", &[("zone", "example.com."), ("code", code), ("instance_name", "test")]), Some(0));
    }
    assert_eq!(value(&text, "cetus_query_type", &[("zone", "example.com."), ("record", "SOA")]), Some(0));
    assert_eq!(value(&text, "cetus_query_class", &[("zone", "example.com."), ("class", "IN")]), Some(0));
    assert_eq!(value(&text, "cetus_connection_types", &[("zone", "example.com."), ("ip_version", "IPv4"), ("protocol", "UDP")]), Some(0));
    assert!(metrics.increment_zone_response_code(&zone, ResponseCode::NoError));
    assert!(metrics.increment_zone_record_type(&zone, RecordType::A));
    assert!(metrics.increment_zone_query_class(&zone, DnsClass::IN));
    assert!(metrics.increment_zone_connection_type(&zone, IpVersion::V4, Protocol::Udp));
    assert!(metrics.increment_zone_country_query(&zone, "NL"));
    assert!(metrics.increment_zone_country_query(&zone, "NL"));
    let text = scrape(&metrics);
    assert_eq!(value(&text, "cetus_response_code", &[("zone", "example.com."), ("code", "NOERROR")]), Some(1));
    assert_eq!(value(&text, "cetus_query_type", &[("zone", "example.com."), ("record", "A")]), Some(1));
    assert_eq!(value(&text, "cetus_query_class", &[("zone", "example.com."), ("class", "IN")]), Some(1));
    assert_eq!(value(&text, "cetus_connection_types", &[("zone", "example.com."), ("ip_version", "IPv4"), ("protocol", "UDP")]), Some(1));
    assert_eq!(value(&text, "cetus_country_queries", &[("zone", "example.com."), ("country", "NL")]), Some(2));
    // the unknown zone did not move
    assert_eq!(value(&text, "cetus_response_code", &[("zone", "UNKNOWN"), ("code", "NOERROR")]), Some(0));
    assert_eq!(value(&text, "cetus_query_type", &[("zone", "UNKNOWN"), ("record", "A")]), Some(0));
}

#[test]
fn a_zone_cannot_be_registered_twice() {
    let mut metrics = Metrics::new("test".to_string()).unwrap();
    let zone = name("example.com.");
    assert_eq!(metrics.register_zone(&zone), Ok(()));
    assert!(metrics.increment_zone_response_code(&zone, ResponseCode::NXDomain));
    assert_eq!(metrics.register_zone(&zone), Err(MetricsError::Register));
    // the counters of the first registration are still there
    let text = scrape(&metrics);
    assert_eq!(value(&text, "cetus_response_code", &[("zone", "example.com."), ("code", "NXDOMAIN")]), Some(1));
    assert!(metrics.increment_zone_response_code(&zone, ResponseCode::NXDomain));
}

#[test]
fn a_zone_is_gone_once_it_is_unregistered() {
    let mut metrics = Metrics::new("test".to_string()).unwrap();
    let zone = name("example.com.");
    let other = name("example.org.");
    metrics.register_zone(&zone).unwrap();
    metrics.register_zone(&other).unwrap();
    assert!(metrics.increment_zone_query_class(&zone, DnsClass::IN));
    assert!(metrics.increment_zone_country_query(&zone, "DE"));
    metrics.unregister_zone(&zone);
    let text = scrape(&metrics);
    assert!(!text.contains("zone=\"example.com.\""));
    assert!(text.contains("zone=\"example.org.\""));
    assert!(text.contains("zone=\"UNKNOWN\""));
    assert!(!metrics.increment_zone_query_class(&zone, DnsClass::IN));
    assert!(metrics.increment_zone_query_class(&other, DnsClass::IN));
    // taking away what is not there changes nothing
    metrics.unregister_zone(&zone);
    assert!(scrape(&metrics).contains("zone=\"example.org.\""));
    // the zone can come back, and starts again at zero
    assert_eq!(metrics.register_zone(&zone), Ok(()));
    let text = scrape(&metrics);
    assert_eq!(value(&text, "cetus_query_class", &[("zone", "example.com."), ("class", "IN")]), Some(0));
    assert!(!text.contains("country=\"DE\""));
}

#[test]
fn a_zone_with_the_label_of_the_unknown_zone_is_refused() {
    let mut metrics = Metrics::new("test".to_string()).unwrap();
    let unknown = DomainName::from_labels(vec![b"UNKNOWN".to_vec()], false).unwrap();
    assert_eq!(unknown.to_text(), "UNKNOWN");
    assert_eq!(metrics.register_zone(&unknown), Err(MetricsError::Register));
    assert!(!metrics.increment_zone_response_code(&unknown, ResponseCode::Refused));
    let text = scrape(&metrics);
    assert_eq!(value(&text, "cetus_response_code", &[("zone", "UNKNOWN"), ("code", "REFUSED")]), Some(0));
}

#[test]
fn record_moves_the_counter_that_the_update_names() {
    let mut metrics = Metrics::new("test".to_string()).unwrap();
    let zone = name("example.com.");
    metrics.register_zone(&zone).unwrap();
    assert!(metrics.record(&MetricUpdate::ResponseCode { zone: None, code: ResponseCode::Refused }));
    assert!(metrics.record(&MetricUpdate::ResponseCode { zone: Some(zone.clone()), code: ResponseCode::ServFail }));
    assert!(metrics.record(&MetricUpdate::RecordType { zone: Some(zone.clone()), record_type: RecordType::MX }));
    assert!(metrics.record(&MetricUpdate::QueryClass { zone: None, class: DnsClass::ANY }));
    assert!(metrics.record(&MetricUpdate::ConnectionType { zone: Some(zone.clone()), ip_version: IpVersion::V6, protocol: Protocol::Udp }));
    assert!(metrics.record(&MetricUpdate::Country { zone: None, country: "FR".to_string() }));
    assert!(!metrics.record(&MetricUpdate::Country { zone: Some(name("example.org.")), country: "FR".to_string() }));
    let text = scrape(&metrics);
    assert_eq!(value(&text, "cetus_response_code", &[("zone", "UNKNOWN"), ("code", "REFUSED")]), Some(1));
    assert_eq!(value(&text, "cetus_response_code", &[("zone", "example.com."), ("code", "SERVFAIL")]), Some(1));
    assert_eq!(value(&text, "cetus_response_code", &[("zone", "example.com."), ("code", "REFUSED")]), Some(0));
    assert_eq!(value(&text, "cetus_query_type", &[("zone", "example.com."), ("record", "MX")]), Some(1));
    assert_eq!(value(&text, "cetus_query_class", &[("zone", "UNKNOWN"), ("class", "ANY")]), Some(1));
    assert_eq!(value(&text, "cetus_connection_types", &[("zone", "example.com."), ("ip_version", "IPv6"), ("protocol", "UDP")]), Some(1));
    assert_eq!(value(&text, "cetus_country_queries", &[("zone", "UNKNOWN"), ("country", "FR")]), Some(1));
    assert!(!text.contains("zone=\"example.org.\""));
}

#[test]
fn a_type_without_a_name_is_counted_as_unknown() {
    let mut metrics = Metrics::new("test".to_string()).unwrap();
    metrics.increment_unknown_zone_record_type(RecordType::Unknown(4242));
    metrics.increment_unknown_zone_record_type(RecordType::Unknown(4243));
    metrics.increment_unknown_zone_response_code(ResponseCode::Other(9));
    let text = scrape(&metrics);
    assert_eq!(value(&text, "cetus_query_type", &[("zone", "UNKNOWN"), ("record", "Unknown")]), Some(2));
    assert_eq!(value(&text, "cetus_response_code", &[("zone", "UNKNOWN"), ("code", "OTHER")]), Some(1));
}

#[test]
fn the_loader_lets_the_counters_follow_the_zones() {
    let mut metrics = Metrics::new("test".to_string()).unwrap();
    let mut handler = DnsHandler::new();
    assert!(handler.zone_loader(&mut metrics, Ok(vec![name("a.example."), name("b.example.")])));
    assert_eq!(handler.zone_list().len(), 2);
    let text = scrape(&metrics);
    assert!(text.contains("zone=\"a.example.\""));
    assert!(text.contains("zone=\"b.example.\""));
    assert!(metrics.increment_zone_response_code(&name("a.example."), ResponseCode::NoError));
    assert!(handler.zone_loader(&mut metrics, Ok(vec![name("b.example."), name("c.example.")])));
    assert_eq!(handler.zone_list().len(), 2);
    let text = scrape(&metrics);
    assert!(!text.contains("zone=\"a.example.\""));
    assert!(text.contains("zone=\"b.example.\""));
    assert!(text.contains("zone=\"c.example.\""));
    assert!(!metrics.increment_zone_response_code(&name("a.example."), ResponseCode::NoError));
    assert!(metrics.increment_zone_response_code(&name("c.example."), ResponseCode::NoError));
}

#[test]
fn the_loader_skips_a_turn_where_the_storage_fails() {
    let mut metrics = Metrics::new("test".to_string()).unwrap();
    let mut handler = DnsHandler::new();
    assert!(handler.zone_loader(&mut metrics, Ok(vec![name("a.example.")])));
    assert!(metrics.increment_zone_response_code(&name("a.example."), ResponseCode::NoError));
    let before = scrape(&metrics);
    assert!(!handler.zone_loader(&mut metrics, Err(StorageError::Backend)));
    assert_eq!(handler.zone_list().len(), 1);
    assert!(handler.zone_list().contains(&name("a.example.")));
    assert_eq!(scrape(&metrics).lines().count(), before.lines().count());
    assert!(metrics.increment_zone_response_code(&name("a.example."), ResponseCode::NoError));
}

#[test]
fn a_second_turn_with_the_same_zones_changes_nothing() {
    let mut metrics = Metrics::new("test".to_string()).unwrap();
    let mut handler = DnsHandler::new();
    let listed = || vec![name("a.example."), name("b.example."), name("a.example.")];
    assert!(handler.zone_loader(&mut metrics, Ok(listed())));
    assert!(metrics.increment_zone_response_code(&name("a.example."), ResponseCode::NoError));
    let zones_before: Vec<String> = handler.zone_list().zones().iter().map(|z| z.to_text()).collect();
    let mut lines_before: Vec<String> = scrape(&metrics).lines().map(|l| l.to_string()).collect();
    lines_before.sort();
    assert!(handler.zone_loader(&mut metrics, Ok(listed())));
    let zones_after: Vec<String> = handler.zone_list().zones().iter().map(|z| z.to_text()).collect();
    let mut lines_after: Vec<String> = scrape(&metrics).lines().map(|l| l.to_string()).collect();
    lines_after.sort();
    assert_eq!(zones_after, zones_before);
    assert_eq!(lines_after, lines_before);
    assert_eq!(zones_after, vec!["a.example.", "b.example."]);
}

#[test]
fn record_all_moves_each_counter_named() {
    let mut metrics = Metrics::new("test".to_string()).unwrap();
    let zone = name("example.com.");
    metrics.register_zone(&zone).unwrap();
    let updates = vec![
        MetricUpdate::QueryClass { zone: None, class: DnsClass::IN },
        MetricUpdate::ConnectionType { zone: None, ip_version: IpVersion::V4, protocol: Protocol::Udp },
        MetricUpdate::RecordType { zone: None, record_type: RecordType::A },
        MetricUpdate::Country { zone: None, country: "DE".to_string() },
        MetricUpdate::ResponseCode { zone: None, code: ResponseCode::Refused },
    ];
    let before = scrape(&metrics);
    metrics.record_all(&updates);
    let text = scrape(&metrics);
    assert_eq!(value(&before, "cetus_response_code", &[("zone", "UNKNOWN"), ("code", "REFUSED")]), Some(0));
    assert_eq!(value(&text, "cetus_response_code", &[("zone", "UNKNOWN"), ("code", "REFUSED")]), Some(1));
    assert_eq!(value(&text, "cetus_query_class", &[("zone", "UNKNOWN"), ("class", "IN")]), Some(1));
    assert_eq!(value(&text, "cetus_connection_types", &[("zone", "UNKNOWN"), ("ip_version", "IPv4"), ("protocol", "UDP")]), Some(1));
    assert_eq!(value(&text, "cetus_query_type", &[("zone", "UNKNOWN"), ("record", "A")]), Some(1));
    assert_eq!(value(&text, "cetus_country_queries", &[("zone", "UNKNOWN"), ("country", "DE")]), Some(1));
    // no counter of the zone has moved
    let of_zone = |scrape: &str| -> Vec<String> {
        let mut lines: Vec<String> = scrape.lines().filter(|l| l.contains("zone=\"example.com.\"")).map(|l| l.to_string()).collect();
        lines.sort();
        lines
    };
    assert_eq!(of_zone(&text), of_zone(&before));
    assert!(of_zone(&text).iter().all(|line| line.ends_with(" 0")));
    metrics.record_all(&vec![]);
    assert_eq!(scrape(&metrics).lines().count(), text.lines().count());
}

#[test]
fn record_all_counts_an_update_as_often_as_it_comes() {
    let mut metrics = Metrics::new("test".to_string()).unwrap();
    let updates = vec![
        MetricUpdate::ResponseCode { zone: None, code: ResponseCode::Refused },
        MetricUpdate::ResponseCode { zone: None, code: ResponseCode::ServFail },
        MetricUpdate::ResponseCode { zone: None, code: ResponseCode::Refused },
        MetricUpdate::ResponseCode { zone: Some(name("example.com.")), code: ResponseCode::Refused },
    ];
    metrics.record_all(&updates);
    let text = scrape(&metrics);
    assert_eq!(value(&text, "cetus_response_code", &[("zone", "UNKNOWN"), ("code", "REFUSED")]), Some(2));
    assert_eq!(value(&text, "cetus_response_code", &[("zone", "UNKNOWN"), ("code", "SERVFAIL")]), Some(1));
    assert!(!text.contains("zone=\"example.com.\""));
}

#[test]
fn the_instance_name_may_be_any_text() {
    let metrics = Metrics::new(String::new()).unwrap();
    let text = scrape(&metrics);
    assert_eq!(value(&text, "cetus_response_code", &[("zone", "UNKNOWN"), ("code", "REFUSED"), ("instance_name", "")]), Some(0));
    let metrics = Metrics::new("dns-1 \"east\"".to_string()).unwrap();
    assert!(scrape(&metrics).contains("cetus_query_class{"));
}

#[test]
fn a_new_zone_has_no_counter_for_a_country() {
    let mut metrics = Metrics::new("test".to_string()).unwrap();
    assert!(!scrape(&metrics).contains("cetus_country_queries"));
    metrics.register_zone(&name("example.com.")).unwrap();
    assert!(!scrape(&metrics).contains("cetus_country_queries"));
    assert!(metrics.increment_zone_country_query(&name("example.com."), "NL"));
    let text = scrape(&metrics);
    assert_eq!(value(&text, "cetus_country_queries", &[("zone", "example.com."), ("country", "NL")]), Some(1));
    assert_eq!(text.lines().filter(|line| line.starts_with("cetus_country_queries{")).count(), 1);
}

#[test]
fn counting_for_a_zone_leaves_the_other_counters_alone() {
    let mut metrics = Metrics::new("test".to_string()).unwrap();
    let zone = name("example.com.");
    let other = name("example.org.");
    metrics.register_zone(&zone).unwrap();
    metrics.register_zone(&other).unwrap();
    let mut before: Vec<String> = scrape(&metrics).lines().map(|l| l.to_string()).collect();
    assert!(metrics.increment_zone_response_code(&zone, ResponseCode::ServFail));
    let text = scrape(&metrics);
    assert_eq!(value(&text, "cetus_response_code", &[("zone", "example.com."), ("code", "SERVFAIL")]), Some(1));
    let after: Vec<String> = text.lines().map(|l| l.to_string()).collect();
    assert_eq!(after.len(), before.len());
    let mut changed = 0;
    for (was, is) in before.drain(..).zip(after.iter()) {
        if was != *is {
            changed += 1;
            assert!(is.contains("zone=\"example.com.\"") && is.contains("code=\"SERVFAIL\""));
        }
    }
    assert_eq!(changed, 1);
}

#[test]
fn the_scrape_says_what_the_counters_are() {
    let mut first = Metrics::new("test".to_string()).unwrap();
    let mut second = Metrics::new("test".to_string()).unwrap();
    let zone = name("example.com.");
    let other = name("example.org.");
    first.register_zone(&zone).unwrap();
    first.register_zone(&other).unwrap();
    assert!(first.increment_zone_country_query(&zone, "NL"));
    assert!(first.increment_zone_country_query(&zone, "DE"));
    first.increment_unknown_zone_response_code(ResponseCode::Refused);
    assert!(first.increment_zone_record_type(&other, RecordType::MX));
    // the same counters, reached another way
    second.register_zone(&other).unwrap();
    assert!(second.increment_zone_record_type(&other, RecordType::MX));
    second.register_zone(&name("gone.example.")).unwrap();
    second.register_zone(&zone).unwrap();
    second.increment_unknown_zone_response_code(ResponseCode::Refused);
    assert!(second.increment_zone_country_query(&zone, "DE"));
    second.unregister_zone(&name("gone.example."));
    assert!(second.increment_zone_country_query(&zone, "NL"));
    assert_eq!(scrape(&first), scrape(&second));
    // and other counters give another text
    assert!(second.increment_zone_country_query(&zone, "NL"));
    assert_ne!(scrape(&first), scrape(&second));
}

#[test]
fn the_loader_passes_over_a_zone_that_has_counters_already() {
    let mut metrics = Metrics::new("test".to_string()).unwrap();
    let mut handler = DnsHandler::new();
    let zone = name("a.example.");
    metrics.register_zone(&zone).unwrap();
    assert!(metrics.increment_zone_response_code(&zone, ResponseCode::NoError));
    assert!(handler.zone_loader(&mut metrics, Ok(vec![name("a.example."), name("b.example.")])));
    assert_eq!(handler.zone_list().len(), 2);
    let text = scrape(&metrics);
    assert_eq!(value(&text, "cetus_response_code", &[("zone", "a.example."), ("code", "NOERROR")]), Some(1));
    assert_eq!(value(&text, "cetus_response_code", &[("zone", "b.example."), ("code", "NOERROR")]), Some(0));
}

#[test]
fn a_second_turn_sets_no_counter_back() {
    let mut metrics = Metrics::new("test".to_string()).unwrap();
    let mut handler = DnsHandler::new();
    assert!(handler.zone_loader(&mut metrics, Ok(vec![name("a.example."), name("b.example.")])));
    assert!(metrics.increment_zone_response_code(&name("a.example."), ResponseCode::NXDomain));
    assert!(metrics.increment_zone_country_query(&name("b.example."), "SE"));
    let before = scrape(&metrics);
    assert!(handler.zone_loader(&mut metrics, Ok(vec![name("b.example."), name("a.example.")])));
    assert_eq!(scrape(&metrics), before);
}

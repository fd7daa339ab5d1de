use neutron::nm::network_info::{
    format_speed, json_str, lookup_step, parse_interface_bytes, parse_interface_receive_bytes,
    ping_times, read_reply, told_by_ip_api, IpSource, LookupStep, PublicIpInfo,
};

#[test]
fn format_display_combines_all_fields() {
    let info = PublicIpInfo {
        ip: "185.159.157.1".to_string(),
        country: Some("Lithuania".to_string()),
        city: Some("Vilnius".to_string()),
        isp: Some("M247 Europe SRL".to_string()),
    };
    assert_eq!(
        info.format_display(),
        "185.159.157.1 (Vilnius, Lithuania — M247 Europe SRL)"
    );
}

#[test]
fn format_display_with_ip_only() {
    let info = PublicIpInfo {
        ip: "1.1.1.1".to_string(),
        country: None,
        city: None,
        isp: None,
    };
    assert_eq!(info.format_display(), "1.1.1.1");
}

#[test]
fn format_speed_units() {
    assert_eq!(format_speed(500), "500 B/s");
    assert_eq!(format_speed(1500), "1.5 KB/s");
    assert_eq!(format_speed(2_500_000), "2.4 MB/s");
}

#[test]
fn interface_receive_bytes_distinguishes_absent_from_silent() {
    // A tunnel that has received nothing and a tunnel that does not exist
    // are different facts: the health check treats the first as a dead peer
    // and the second as "not ours to verify", so they must not collapse
    // into the same `0`.
    let sample = "Inter-|   Receive                                                |  Transmit\n\
                  face |bytes    packets errs drop fifo frame compressed multicast|bytes    packets errs drop fifo colls carrier compressed\n\
                  wg0: 0             0    0    0    0     0          0         0        0        0    0    0    0     0       0          0\n\
                  wg1: 92            1    0    0    0     0          0         0      148        2    0    0    0     0       0          0\n";

    assert_eq!(parse_interface_receive_bytes(sample, "wg0"), Some(0));
    assert_eq!(parse_interface_receive_bytes(sample, "wg1"), Some(92));
    assert_eq!(parse_interface_receive_bytes(sample, "wg_absent"), None);
}

#[test]
fn parse_interface_bytes_specific_target_matched() {
    let sample = "Inter-|   Receive                                                |  Transmit\n\
                  face |bytes    packets errs drop fifo frame compressed multicast|bytes    packets errs drop fifo colls carrier compressed\n\
                  wg0: 1000       10    0    0    0     0          0         0     2000       20    0    0    0     0       0          0\n\
                  wg1: 5000       50    0    0    0     0          0         0     6000       60    0    0    0     0       0          0\n\
                  eth0: 99999    100    0    0    0     0          0         0    88888      100    0    0    0     0       0          0\n";
    assert_eq!(parse_interface_bytes(sample, Some("wg0")), (1000, 2000));
    assert_eq!(parse_interface_bytes(sample, Some("wg1")), (5000, 6000));
}

#[test]
fn parse_interface_bytes_specific_target_missing_returns_zero() {
    let sample = "Inter-|   Receive                                                |  Transmit\n\
                  face |bytes    packets errs drop fifo frame compressed multicast|bytes    packets errs drop fifo colls carrier compressed\n\
                  wg0: 1000       10    0    0    0     0          0         0     2000       20    0    0    0     0       0          0\n\
                  wg1: 5000       50    0    0    0     0          0         0     6000       60    0    0    0     0       0          0\n";
    assert_eq!(parse_interface_bytes(sample, Some("wg_missing")), (0, 0));
}

#[test]
fn parse_interface_bytes_no_target_sums_wg_or_falls_back_to_non_lo() {
    let sample_wg = "Inter-|   Receive                                                |  Transmit\n\
                     face |bytes    packets errs drop fifo frame compressed multicast|bytes    packets errs drop fifo colls carrier compressed\n\
                     wg0: 1000       10    0    0    0     0          0         0     2000       20    0    0    0     0       0          0\n\
                     wg1: 5000       50    0    0    0     0          0         0     6000       60    0    0    0     0       0          0\n\
                     eth0: 99999    100    0    0    0     0          0         0    88888      100    0    0    0     0       0          0\n";
    assert_eq!(parse_interface_bytes(sample_wg, None), (6000, 8000));

    let sample_no_wg = "Inter-|   Receive                                                |  Transmit\n\
                        face |bytes    packets errs drop fifo frame compressed multicast|bytes    packets errs drop fifo colls carrier compressed\n\
                        lo:   500        5    0    0    0     0          0         0      500        5    0    0    0     0       0          0\n\
                        eth0: 100        1    0    0    0     0          0         0      200        2    0    0    0     0       0          0\n";
    assert_eq!(parse_interface_bytes(sample_no_wg, None), (100, 200));
}

#[test]
fn format_speed_rounds_to_one_decimal() {
    assert_eq!(format_speed(0), "0 B/s");
    assert_eq!(format_speed(1023), "1023 B/s");
    assert_eq!(format_speed(1024), "1.0 KB/s");
    assert_eq!(format_speed(1024 * 1024), "1.0 MB/s");
}

#[test]
fn replies_of_the_lookup_services_are_read() {
    let body = br#"{"status":"success","query":"1.2.3.4","country":"X","city":"","isp":"Y"}"#;
    let info = read_reply(IpSource::IpApi, body).expect("an answer");
    assert_eq!(info.format_display(), "1.2.3.4 (X \u{2014} Y)");
    assert_eq!(json_str(body, "city"), None);
    assert_eq!(json_str(body, "query").as_deref(), Some("1.2.3.4"));
    assert_eq!(json_str(b"no json", "query"), None);
    assert!(read_reply(IpSource::IpApi, br#"{"status":"fail","query":"1.2.3.4"}"#).is_none());
    assert_eq!(
        read_reply(IpSource::IfconfigCo, br#"{"ip":"5.6.7.8"}"#).expect("an answer").ip,
        "5.6.7.8"
    );
    assert_eq!(
        read_reply(IpSource::Icanhazip, b" 9.9.9.9\n").expect("an answer").ip,
        "9.9.9.9"
    );
    assert!(read_reply(IpSource::Icanhazip, b" \n").is_none());
    assert!(told_by_ip_api(Some("fail".to_string()), Some("1".to_string()), None, None, None).is_none());
}

#[test]
fn services_are_asked_in_turn() {
    assert!(IpSource::IpApi.url().starts_with("http"));
    assert!(matches!(
        lookup_step(IpSource::IpApi, None),
        LookupStep::Ask(IpSource::IfconfigCo)
    ));
    let info = PublicIpInfo {
        ip: "1.1.1.1".to_string(),
        country: None,
        city: None,
        isp: None,
    };
    assert!(matches!(
        lookup_step(IpSource::IpApi, Some(info)),
        LookupStep::Found(found) if found.ip == "1.1.1.1"
    ));
}

#[test]
fn times_of_a_ping_are_found() {
    assert_eq!(
        ping_times("64 bytes from 1.1.1.1: icmp_seq=1 ttl=57 time=12.3 ms\n"),
        vec!["12.3"]
    );
    assert_eq!(ping_times("time=8ms"), vec!["8"]);
    assert!(ping_times("no answer").is_empty());
}

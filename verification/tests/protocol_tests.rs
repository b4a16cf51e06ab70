use iddns::{
    classify_response, resolve_discovery_body, DynamicDNSRecord, DynamicDNSUpdateConfig,
    DynamicDNSUpdateError, IpAddress, UpdateFailure,
};

fn sample_config(ip: Option<IpAddress>) -> DynamicDNSUpdateConfig {
    DynamicDNSUpdateConfig {
        username: String::from("alice"),
        password: String::from("pw"),
        ip,
        url: None,
    }
}

#[test]
fn resolve_returns_explicit_ip_unchanged() {
    let ip = IpAddress::V4(203, 0, 113, 5);
    let config = sample_config(Some(ip));
    match config.resolve() {
        Ok(got) => assert_eq!(got, ip),
        Err(_) => panic!("explicit IP must resolve to itself"),
    }
}

#[test]
fn resolve_returns_explicit_ipv6_unchanged() {
    let ip = IpAddress::V6(0x2001, 0xdb8, 0, 0, 0, 0, 0, 1);
    let config = sample_config(Some(ip));
    match config.resolve() {
        Ok(got) => assert_eq!(got, ip),
        Err(_) => panic!("explicit IP must resolve to itself"),
    }
}

#[test]
fn discovery_body_parses_plain_ip() {
    match resolve_discovery_body("198.51.100.9") {
        Ok(ip) => assert_eq!(ip, IpAddress::V4(198, 51, 100, 9)),
        Err(_) => panic!("valid body must parse"),
    }
}

#[test]
fn discovery_body_parses_padded_ip() {
    match resolve_discovery_body("  198.51.100.9\r\n") {
        Ok(ip) => assert_eq!(ip, IpAddress::V4(198, 51, 100, 9)),
        Err(_) => panic!("padded valid body must parse"),
    }
    match resolve_discovery_body("\t::1\n") {
        Ok(ip) => assert_eq!(ip, IpAddress::V6(0, 0, 0, 0, 0, 0, 0, 1)),
        Err(_) => panic!("padded valid body must parse"),
    }
}

#[test]
fn discovery_body_failure_carries_trimmed_body() {
    match resolve_discovery_body("  <html>not an ip</html>\n") {
        Ok(_) => panic!("invalid body must not parse"),
        Err(DynamicDNSUpdateError::UnableToParseIPAddress(s)) => {
            assert_eq!(s, "<html>not an ip</html>");
        },
        Err(_) => panic!("wrong error variant"),
    }
}

#[test]
fn good_reply_returns_echoed_ip() {
    let ip = IpAddress::V4(203, 0, 113, 5);
    match classify_response("good 203.0.113.5", "home.example.com", "alice", ip) {
        Ok(got) => assert_eq!(got, IpAddress::V4(203, 0, 113, 5)),
        Err(_) => panic!("good reply must succeed"),
    }
}

#[test]
fn nochg_reply_returns_echoed_ip() {
    let ip = IpAddress::V4(198, 51, 100, 9);
    match classify_response("nochg 198.51.100.9", "home.example.com", "alice", ip) {
        Ok(got) => assert_eq!(got, IpAddress::V4(198, 51, 100, 9)),
        Err(_) => panic!("nochg reply must succeed"),
    }
}

#[test]
fn provider_normalized_ip_wins() {
    // The provider may echo a different address than the one submitted; the
    // echoed one is returned.
    let submitted = IpAddress::V4(203, 0, 113, 5);
    match classify_response("good 203.0.113.77", "home.example.com", "alice", submitted) {
        Ok(got) => assert_eq!(got, IpAddress::V4(203, 0, 113, 77)),
        Err(_) => panic!("good reply must succeed"),
    }
}

#[test]
fn good_reply_without_token_is_unparseable() {
    let ip = IpAddress::V4(203, 0, 113, 5);
    match classify_response("good", "home.example.com", "alice", ip) {
        Err(UpdateFailure::UnparseableReply(s)) => assert_eq!(s, "good"),
        _ => panic!("token-less good reply must be an unparseable reply"),
    }
}

#[test]
fn good_reply_with_bad_token_is_unparseable() {
    let ip = IpAddress::V4(203, 0, 113, 5);
    match classify_response("good not.an.ip", "home.example.com", "alice", ip) {
        Err(UpdateFailure::UnparseableReply(s)) => assert_eq!(s, "good not.an.ip"),
        _ => panic!("bad token must be an unparseable reply"),
    }
}

#[test]
fn nohost_reply_is_fqdn_not_found() {
    let ip = IpAddress::V4(203, 0, 113, 5);
    match classify_response("nohost", "home.example.com", "alice", ip) {
        Err(UpdateFailure::Classified(DynamicDNSUpdateError::FQDNNotFound(s))) => {
            assert_eq!(s, "home.example.com");
        },
        _ => panic!("nohost must map to FQDNNotFound"),
    }
}

#[test]
fn notfqdn_reply_is_invalid_fqdn() {
    let ip = IpAddress::V4(203, 0, 113, 5);
    match classify_response("notfqdn", "not a name", "alice", ip) {
        Err(UpdateFailure::Classified(DynamicDNSUpdateError::InvalidFQDN(s))) => {
            assert_eq!(s, "not a name");
        },
        _ => panic!("notfqdn must map to InvalidFQDN"),
    }
}

#[test]
fn badauth_reply_is_invalid_credentials() {
    let ip = IpAddress::V4(203, 0, 113, 5);
    match classify_response("badauth", "home.example.com", "alice", ip) {
        Err(UpdateFailure::Classified(DynamicDNSUpdateError::InvalidCredentials(s))) => {
            assert_eq!(s, "alice");
        },
        _ => panic!("badauth must map to InvalidCredentials"),
    }
}

#[test]
fn conflict_a_reply_is_conflicting_ipv6_record() {
    let ip = IpAddress::V4(203, 0, 113, 5);
    match classify_response("conflict A", "home.example.com", "alice", ip) {
        Err(UpdateFailure::Classified(DynamicDNSUpdateError::ConflictingIPv6Record(s))) => {
            assert_eq!(s, "203.0.113.5");
        },
        _ => panic!("conflict A must map to ConflictingIPv6Record"),
    }
}

#[test]
fn conflict_aaaa_reply_is_conflicting_ipv4_record() {
    let ip = IpAddress::V6(0x2001, 0xdb8, 0, 0, 0, 0, 0, 1);
    match classify_response("conflict AAAA", "home.example.com", "alice", ip) {
        Err(UpdateFailure::Classified(DynamicDNSUpdateError::ConflictingIPv4Record(s))) => {
            assert_eq!(s, "2001:db8:0:0:0:0:0:1");
        },
        _ => panic!("conflict AAAA must map to ConflictingIPv4Record"),
    }
}

#[test]
fn target_structure_reply_is_invalid_ip_address() {
    let ip = IpAddress::V4(203, 0, 113, 5);
    match classify_response(
        "The Target field's structure for a A-type entry is incorrect.",
        "home.example.com",
        "alice",
        ip,
    ) {
        Err(UpdateFailure::Classified(DynamicDNSUpdateError::InvalidIPAddress(s))) => {
            assert_eq!(s, "203.0.113.5");
        },
        _ => panic!("the structure sentence must map to InvalidIPAddress"),
    }
}

#[test]
fn unknown_reply_carries_fqdn_and_ip() {
    let ip = IpAddress::V4(203, 0, 113, 5);
    match classify_response("911", "home.example.com", "alice", ip) {
        Err(UpdateFailure::Classified(DynamicDNSUpdateError::Unknown(f, i))) => {
            assert_eq!(f, "home.example.com");
            assert_eq!(i, "203.0.113.5");
        },
        _ => panic!("unknown reply must map to Unknown"),
    }
}

#[test]
fn almost_literal_replies_are_unknown() {
    let ip = IpAddress::V4(203, 0, 113, 5);
    for body in ["nohost ", "NOHOST", "conflict", "conflict B", "badauth!"] {
        match classify_response(body, "home.example.com", "alice", ip) {
            Err(UpdateFailure::Classified(DynamicDNSUpdateError::Unknown(_, _))) => {},
            _ => panic!("near-miss reply must map to Unknown"),
        }
    }
}

#[test]
fn unchanged_update_is_idempotent() {
    // A provider that is already up to date answers `nochg` with the same
    // address; classifying that reply twice gives the same success both times.
    let ip = IpAddress::V4(198, 51, 100, 9);
    let first = classify_response("nochg 198.51.100.9", "home.example.com", "alice", ip);
    let second = classify_response("nochg 198.51.100.9", "home.example.com", "alice", ip);
    match (first, second) {
        (Ok(a), Ok(b)) => {
            assert_eq!(a, ip);
            assert_eq!(b, ip);
        },
        _ => panic!("nochg must succeed both times"),
    }
}

#[test]
fn discovery_then_update_scenario() {
    // Discovery returns a padded body; the provider confirms no change.
    let discovered = match resolve_discovery_body("198.51.100.9\n") {
        Ok(ip) => ip,
        Err(_) => panic!("discovery body must parse"),
    };
    assert_eq!(discovered, IpAddress::V4(198, 51, 100, 9));
    match classify_response("nochg 198.51.100.9", "home.example.com", "alice", discovered) {
        Ok(got) => assert_eq!(got, IpAddress::V4(198, 51, 100, 9)),
        Err(_) => panic!("nochg reply must succeed"),
    }
}

#[test]
fn record_fields_are_plain_values() {
    let record = DynamicDNSRecord {
        fqdn: String::from("home.example.com"),
        config: sample_config(Some(IpAddress::V4(203, 0, 113, 5))),
    };
    assert_eq!(record.fqdn, "home.example.com");
    assert_eq!(record.config.username, "alice");
    assert_eq!(record.config.ip, Some(IpAddress::V4(203, 0, 113, 5)));
    assert!(record.config.url.is_none());
}

#[test]
fn whitespace_only_discovery_body_fails_with_empty_payload() {
    match resolve_discovery_body(" \r\n\t") {
        Ok(_) => panic!("whitespace-only body must not parse"),
        Err(DynamicDNSUpdateError::UnableToParseIPAddress(s)) => assert_eq!(s, ""),
        Err(_) => panic!("wrong error variant"),
    }
}

#[test]
fn empty_reply_is_unknown() {
    let ip = IpAddress::V4(203, 0, 113, 5);
    match classify_response("", "home.example.com", "alice", ip) {
        Err(UpdateFailure::Classified(DynamicDNSUpdateError::Unknown(f, i))) => {
            assert_eq!(f, "home.example.com");
            assert_eq!(i, "203.0.113.5");
        },
        _ => panic!("empty reply must map to Unknown"),
    }
}

#[test]
fn good_reply_with_compressed_ipv6_token() {
    let ip = IpAddress::V6(0x2001, 0xdb8, 0, 0, 0, 0, 0, 1);
    match classify_response("good 2001:db8::1", "home.example.com", "alice", ip) {
        Ok(got) => assert_eq!(got, ip),
        Err(_) => panic!("good reply with IPv6 token must succeed"),
    }
}

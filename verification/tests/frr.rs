use frr_bootc::frr::{
    gather, parse_bgp_vrf_summary, parse_route_summary, peers_countable, BgpAfi, BgpPeer, BgpVrf,
    RouteSummary,
};

fn routes_of(json: &str) -> Option<RouteSummary> {
    let value: serde_json::Value = serde_json::from_str(json).ok()?;
    Some(RouteSummary {
        routes_total: value.get("routesTotal")?.as_u64()?,
        routes_total_fib: value.get("routesTotalFib")?.as_u64()?,
    })
}

fn vrfs_of(json: &str) -> Option<Vec<BgpVrf>> {
    let value: serde_json::Value = serde_json::from_str(json).ok()?;
    let mut vrfs = Vec::new();
    for (name, afis) in value.as_object()? {
        let mut list = Vec::new();
        for (afi, body) in afis.as_object()? {
            let mut peers = Vec::new();
            for (address, peer) in body.get("peers")?.as_object()? {
                peers.push(BgpPeer {
                    address: address.clone(),
                    state: peer.get("state")?.as_str()?.to_string(),
                });
            }
            list.push(BgpAfi { name: afi.clone(), peers });
        }
        vrfs.push(BgpVrf { name: name.clone(), afis: list });
    }
    Some(vrfs)
}

#[test]
fn route_summary_reads_rib_and_fib() {
    let json = r#"{"routes":[],"routesTotal":10,"routesTotalFib":8}"#;
    assert_eq!(
        parse_route_summary(&routes_of(json)).as_deref(),
        Some("10 routes, 8 FIB")
    );
}

#[test]
fn route_summary_none_when_not_json() {
    assert_eq!(parse_route_summary(&routes_of("% Command incomplete.\n")), None);
}

#[test]
fn bgp_vrf_summary_sums_established_peers_per_vrf_across_afis() {
    let json = r#"{
        "default": {
            "ipv4Unicast": {
                "peers": {
                    "192.0.2.10": {"state": "Established"},
                    "192.0.2.11": {"state": "Established"}
                }
            },
            "ipv6Unicast": {
                "peers": {
                    "192.0.2.10": {"state": "Established"},
                    "192.0.2.11": {"state": "Established"}
                }
            }
        },
        "vrf-tenant1": {
            "ipv4Unicast": {
                "peers": {
                    "198.51.100.10": {"state": "Established"}
                }
            },
            "ipv6Unicast": {
                "peers": {
                    "2001:db8::1": {"state": "Idle"}
                }
            }
        }
    }"#;
    let vrfs = vrfs_of(json);
    assert!(peers_countable(&vrfs));
    assert_eq!(
        parse_bgp_vrf_summary(&vrfs),
        vec![
            ("default".to_string(), 4, 4),
            ("vrf-tenant1".to_string(), 1, 2),
        ]
    );
}

#[test]
fn bgp_vrf_summary_empty_when_no_daemons_output() {
    assert!(parse_bgp_vrf_summary(&vrfs_of("")).is_empty());
}

#[test]
fn bgp_vrf_summary_vrf_with_no_peers_still_listed() {
    let json = r#"{"default": {"ipv4Unicast": {"peers": {}}}}"#;
    assert_eq!(
        parse_bgp_vrf_summary(&vrfs_of(json)),
        vec![("default".to_string(), 0, 0)]
    );
}

#[test]
fn only_the_exact_state_counts_as_established() {
    let json = r#"{"a": {"x": {"peers": {"1": {"state": "established"}, "2": {"state": "Established "}}}}}"#;
    assert_eq!(
        parse_bgp_vrf_summary(&vrfs_of(json)),
        vec![("a".to_string(), 0, 2)]
    );
}

#[test]
fn an_inactive_frr_is_asked_nothing() {
    let f = gather(false, "bgpd", &routes_of(r#"{"routesTotal":1,"routesTotalFib":1}"#), &None);
    assert_eq!(f.daemons, "");
    assert_eq!(f.route_summary, None);
    assert!(f.bgp_vrf_peers.is_empty());
}

#[test]
fn bgp_is_told_only_while_its_daemon_runs() {
    let vrfs = vrfs_of(r#"{"default": {"ipv4Unicast": {"peers": {}}}}"#);
    let f = gather(true, " mgmtd zebra bgpd watchfrr\n", &None, &vrfs);
    assert_eq!(f.daemons, "mgmtd zebra bgpd watchfrr");
    assert_eq!(f.bgp_vrf_peers, vec![("default".to_string(), 0, 0)]);
    let f = gather(true, "mgmtd zebra bgpd2", &None, &vrfs);
    assert!(f.bgp_vrf_peers.is_empty());
}

#[test]
fn vrfs_are_listed_by_name() {
    let vrf = |name: &str| BgpVrf { name: name.to_string(), afis: Vec::new() };
    let vrfs = Some(vec![vrf("vrf-b"), vrf("default"), vrf("vrf-a"), vrf("B")]);
    let names: Vec<String> = parse_bgp_vrf_summary(&vrfs).into_iter().map(|c| c.0).collect();
    assert_eq!(names, vec!["B", "default", "vrf-a", "vrf-b"]);
}

use recon::network::scanner::{
    parse_host, parse_hostnames, parse_port, parse_ports, parse_root, parse_run, parse_service,
    parse_status, try_parse_host, try_parse_hostnames, try_parse_port, try_parse_ports,
    try_parse_root, try_parse_run, try_parse_service, try_parse_status, XMLNmapHostStatus,
    XMLNmapHostname, XMLNmapPortScript, XMLNmapPortState,
};
use recon::xml::{XmlAttribute, XmlNode, XmlNodeType};

fn element(name: &str, attrs: &[(&str, &str)], children: Vec<XmlNode>) -> XmlNode {
    XmlNode {
        node_type: Some(XmlNodeType::Element),
        name: name.to_string(),
        attributes: attrs
            .iter()
            .map(|(k, v)| XmlAttribute { name: k.to_string(), value: v.to_string() })
            .collect(),
        content: String::new(),
        children,
    }
}

fn text(content: &str) -> XmlNode {
    XmlNode {
        node_type: Some(XmlNodeType::Text),
        name: "text".to_string(),
        attributes: Vec::new(),
        content: content.to_string(),
        children: Vec::new(),
    }
}

fn cpe(content: &str) -> XmlNode {
    let mut n = element("cpe", &[], vec![text(content)]);
    n.content = content.to_string();
    n
}

fn service() -> XmlNode {
    element(
        "service",
        &[("name", "ssh"), ("product", "OpenSSH"), ("method", "probed"), ("conf", "10")],
        vec![cpe("cpe:/a:openbsd:openssh:8.9"), cpe("cpe:/o:linux:linux_kernel")],
    )
}

fn port(id: &str) -> XmlNode {
    element(
        "port",
        &[("protocol", "tcp"), ("portid", id)],
        vec![
            element("state", &[("state", "open"), ("reason", "syn-ack"), ("reason_ttl", "64")], vec![]),
            service(),
            element("script", &[("id", "ssh-hostkey"), ("output", "256 aa:bb (ED25519)")], vec![]),
        ],
    )
}

fn host() -> XmlNode {
    element(
        "host",
        &[("starttime", "1700000000"), ("endtime", "1700000100")],
        vec![
            text("\n"),
            element("status", &[("state", "up"), ("reason", "arp-response"), ("reason_ttl", "0")], vec![]),
            element(
                "hostnames",
                &[],
                vec![element("hostname", &[("name", "router.lan"), ("type", "PTR")], vec![])],
            ),
            element("ports", &[], vec![element("extraports", &[("state", "closed")], vec![]), port("22"), port("80")]),
            element("hostnames", &[], vec![element("hostname", &[("name", "gw"), ("type", "user")], vec![])]),
        ],
    )
}

fn run(hosts: Vec<XmlNode>) -> XmlNode {
    element(
        "nmaprun",
        &[
            ("scanner", "nmap"),
            ("args", "nmap -A -p- 10.0.0.1"),
            ("start", "1700000000"),
            ("startstr", "Tue Nov 14 22:13:20 2023"),
            ("version", "7.94"),
            ("xmloutputversion", "1.05"),
        ],
        hosts,
    )
}

#[test]
fn reads_a_full_report() {
    let root = run(vec![element("verbose", &[("level", "0")], vec![]), host()]);
    let parsed = try_parse_root(&root).expect("readable").expect("an nmap run");
    assert_eq!(parsed.scanner, "nmap");
    assert_eq!(parsed.args, "nmap -A -p- 10.0.0.1");
    assert_eq!(parsed.version, "7.94");
    assert_eq!(parsed.xmloutputversion, "1.05");
    assert_eq!(parsed.hosts.len(), 1);
    let h = &parsed.hosts[0];
    assert_eq!(h.starttime, "1700000000");
    assert_eq!(h.endtime, "1700000100");
    assert_eq!(
        h.status,
        XMLNmapHostStatus { state: "up".into(), reason: "arp-response".into(), reason_ttl: "0".into() }
    );
    assert_eq!(
        h.hostnames,
        vec![
            XMLNmapHostname { name: "router.lan".into(), ty: "PTR".into() },
            XMLNmapHostname { name: "gw".into(), ty: "user".into() },
        ]
    );
    assert_eq!(h.ports.len(), 2);
    assert_eq!(h.ports[0].portid, 22);
    assert_eq!(h.ports[1].portid, 80);
    let p = &h.ports[0];
    assert_eq!(p.protocol, "tcp");
    assert_eq!(
        p.state,
        XMLNmapPortState { state: "open".into(), reason: "syn-ack".into(), reason_ttl: "64".into() }
    );
    assert_eq!(p.service.name, "ssh");
    assert_eq!(p.service.product, Some("OpenSSH".to_string()));
    assert_eq!(p.service.version, None);
    assert_eq!(p.service.method, "probed");
    assert_eq!(p.service.conf, 10);
    // the last cpe element wins
    assert_eq!(p.service.cpe, Some("cpe:/o:linux:linux_kernel".to_string()));
    assert_eq!(
        p.scripts,
        vec![XMLNmapPortScript { id: "ssh-hostkey".into(), output: "256 aa:bb (ED25519)".into() }]
    );
    let again = parse_root(&root).expect("an nmap run");
    assert_eq!(again, parsed);
}

#[test]
fn a_root_that_is_no_run_reads_as_nothing() {
    let root = element("report", &[], vec![]);
    assert_eq!(try_parse_root(&root), Some(None));
    assert_eq!(parse_root(&root), None);
    assert_eq!(parse_root(&text("nmaprun")), None);
}

#[test]
fn an_empty_run_has_no_hosts() {
    let parsed = parse_root(&run(vec![])).expect("an nmap run");
    assert!(parsed.hosts.is_empty());
}

#[test]
fn unreadable_reports_are_refused() {
    // a host without a status
    let mut h = host();
    h.children.remove(1);
    assert_eq!(try_parse_root(&run(vec![h])), None);
    // a run without its version
    let mut r = run(vec![]);
    r.attributes.retain(|a| a.name != "version");
    assert_eq!(try_parse_root(&r), None);
    // a node of unknown type among a run's children
    let mut odd = text("?");
    odd.node_type = None;
    assert_eq!(try_parse_root(&run(vec![odd])), None);
    // a port number out of range
    assert_eq!(try_parse_root(&run(vec![element("host", &[("starttime", "0"), ("endtime", "0")], vec![
        element("status", &[("state", "up"), ("reason", "x"), ("reason_ttl", "0")], vec![]),
        element("ports", &[], vec![port("70000")]),
    ])])), None);
}

#[test]
fn a_port_needs_a_state_and_a_service() {
    assert!(try_parse_port(&port("443")).is_some());
    let mut p = port("443");
    p.children.remove(0);
    assert!(try_parse_port(&p).is_none());
    let mut p = port("443");
    p.children.remove(1);
    assert!(try_parse_port(&p).is_none());
}

#[test]
fn a_service_confidence_is_a_byte() {
    let mut s = service();
    for a in s.attributes.iter_mut() {
        if a.name == "conf" {
            a.value = "300".into();
        }
    }
    assert!(try_parse_service(&s).is_none());
    let mut s = service();
    s.attributes.retain(|a| a.name != "product");
    let parsed = try_parse_service(&s).expect("readable");
    assert_eq!(parsed.product, None);
}

#[test]
fn the_first_of_two_attributes_with_one_name_counts() {
    let n = element("hostname", &[("name", "a"), ("name", "b")], vec![]);
    assert_eq!(n.attribute("name"), Some("a".to_string()));
    assert_eq!(n.attribute("type"), None);
    assert!(n.is_element("hostname"));
    assert!(!n.is_element("hostnames"));
    assert!(!text("hostname").is_element("hostname"));
}

#[test]
fn each_level_of_a_report_reads_alone() {
    let names = element(
        "hostnames",
        &[],
        vec![
            element("hostname", &[("name", "a"), ("type", "PTR")], vec![]),
            text(" "),
            element("other", &[], vec![]),
            element("hostname", &[("name", "b"), ("type", "user")], vec![]),
        ],
    );
    let hs = parse_hostnames(&names);
    assert_eq!(hs.iter().map(|h| h.name.as_str()).collect::<Vec<_>>(), vec!["a", "b"]);
    assert_eq!(try_parse_hostnames(&names), Some(hs));

    let ports = element("ports", &[], vec![port("1"), text("x"), port("65535")]);
    let ps = parse_ports(&ports);
    assert_eq!(ps.iter().map(|p| p.portid).collect::<Vec<_>>(), vec![1, 65535]);
    assert_eq!(try_parse_ports(&ports), Some(ps));

    let status = element("status", &[("state", "down"), ("reason", "no-response"), ("reason_ttl", "0")], vec![]);
    assert_eq!(parse_status(&status).state, "down");
    assert!(try_parse_status(&element("status", &[("state", "down")], vec![])).is_none());

    let svc = parse_service(&service());
    assert_eq!(svc.conf, 10);
    let p = parse_port(&port("8080"));
    assert_eq!(p.portid, 8080);
    assert_eq!(p.service, svc);

    let h = parse_host(&host());
    assert_eq!(try_parse_host(&host()), Some(h.clone()));
    assert_eq!(h.ports.len(), 2);

    let r = parse_run(&run(vec![host(), host()]));
    assert_eq!(r.hosts.len(), 2);
    assert_eq!(try_parse_run(&run(vec![host()])).map(|r| r.hosts.len()), Some(1));
}

#[test]
fn the_last_state_and_service_of_a_port_count() {
    let mut p = port("25");
    p.children.push(element("state", &[("state", "filtered"), ("reason", "no-response"), ("reason_ttl", "0")], vec![]));
    p.children.push(element("service", &[("name", "smtp"), ("method", "table"), ("conf", "3")], vec![]));
    let parsed = parse_port(&p);
    assert_eq!(parsed.state.state, "filtered");
    assert_eq!(parsed.service.name, "smtp");
    assert_eq!(parsed.service.cpe, None);
    assert_eq!(parsed.scripts.len(), 1);
}

#[test]
fn other_children_of_a_port_change_nothing() {
    let plain = port("443");
    let mut noisy = port("443");
    noisy.children.insert(0, text("\n  "));
    noisy.children.insert(2, element("owner", &[("name", "root")], vec![]));
    noisy.children.push(element("extra", &[], vec![text("x")]));
    assert_eq!(try_parse_port(&noisy), try_parse_port(&plain));
    let mut broken = port("443");
    broken.children.remove(0);
    let mut broken_noisy = port("443");
    broken_noisy.children.remove(0);
    broken_noisy.children.push(text(" "));
    assert_eq!(try_parse_port(&broken_noisy), None);
    assert_eq!(try_parse_port(&broken), None);
}

use recon::cidr::{Cidr, IpAddress};
use recon::project::project::{scan_file_name, Client, Net, Project, ScanJob};

#[test]
fn a_new_project_is_empty() {
    let p = Project::new();
    assert_eq!(p.path, None);
    assert!(p.nets.is_empty());
    assert_eq!(p.client, None);
}

#[test]
fn adding_a_network_lists_its_hosts() {
    let mut p = Project::new();
    p.add_net(Cidr::V4 { prefix: 0xc0a8_0100, bits: 30 });
    assert_eq!(p.nets.len(), 1);
    let net = &p.nets[0];
    assert!(!net.passive_arp);
    assert_eq!(net.cidr, "192.168.1.0/30");
    let ips: Vec<IpAddress> = net.hosts.iter().map(|h| h.ip).collect();
    assert_eq!(
        ips,
        vec![
            IpAddress::V4(0xc0a8_0100),
            IpAddress::V4(0xc0a8_0101),
            IpAddress::V4(0xc0a8_0102),
            IpAddress::V4(0xc0a8_0103),
        ]
    );
    assert!(net.hosts.iter().all(|h| h.nmap.is_none()));
}

#[test]
fn adding_networks_keeps_the_earlier_ones() {
    let mut p = Project::new();
    p.client = Some(Client { name: Some("acme".into()) });
    p.add_net(Cidr::V4 { prefix: 0x0a00_0005, bits: 32 });
    p.add_net(Cidr::V6 { prefix: 0xfe80_0000_0000_0000_0000_0000_0000_0000, bits: 126 });
    assert_eq!(p.nets.len(), 2);
    assert_eq!(p.nets[0].cidr, "10.0.0.5/32");
    assert_eq!(p.nets[0].hosts.len(), 1);
    assert_eq!(p.nets[1].cidr, "fe80::/126");
    assert_eq!(p.nets[1].hosts.len(), 4);
    assert_eq!(p.nets[1].hosts[3].ip, IpAddress::V6(0xfe80_0000_0000_0000_0000_0000_0000_0003));
    assert_eq!(p.client, Some(Client { name: Some("acme".into()) }));
}

#[test]
fn scan_file_names_hold_no_slash() {
    assert_eq!(scan_file_name("10.0.0.0/24"), "10.0.0.0--24");
    assert_eq!(scan_file_name("a/b/c"), "a--b--c");
    assert_eq!(scan_file_name("no-slash"), "no-slash");
    assert_eq!(scan_file_name(""), "");
    assert!(!scan_file_name("//x//").contains('/'));
}

#[test]
fn a_project_without_path_scans_nothing() {
    let mut p = Project::new();
    p.add_net(Cidr::V4 { prefix: 0x0a00_0000, bits: 31 });
    assert!(p.scan_jobs().is_empty());
}

#[test]
fn every_network_of_a_stored_project_is_swept() {
    let mut p = Project::new();
    p.path = Some("/tmp/project".into());
    p.add_net(Cidr::V4 { prefix: 0x0a00_0000, bits: 31 });
    p.nets.push(Net { passive_arp: false, cidr: "not a network".into(), hosts: vec![] });
    p.nets.push(Net { passive_arp: true, cidr: "172.16.0.0/255.255.0.0".into(), hosts: vec![] });
    let jobs = p.scan_jobs();
    assert_eq!(jobs.len(), 3);
    assert_eq!(
        jobs[0],
        Some(ScanJob { cidr: Cidr::V4 { prefix: 0x0a00_0000, bits: 31 }, file_name: "10.0.0.0--31".into() })
    );
    assert_eq!(jobs[1], None);
    assert_eq!(
        jobs[2],
        Some(ScanJob { cidr: Cidr::V4 { prefix: 0xac10_0000, bits: 16 }, file_name: "172.16.0.0--255.255.0.0".into() })
    );
}

#[test]
fn a_network_added_from_ipv4_always_reads_back() {
    for (prefix, bits) in [(0u32, 32u8), (0xffff_fffe, 31), (0x0a0b_0c00, 24), (0x8000_0000, 1)] {
        let mut p = Project::new();
        p.path = Some("/p".into());
        let cidr = Cidr::V4 { prefix, bits };
        if bits >= 8 {
            p.add_net(cidr);
        } else {
            p.nets.push(Net { passive_arp: false, cidr: format!("{}.{}.{}.{}/{}", prefix >> 24, (prefix >> 16) & 255, (prefix >> 8) & 255, prefix & 255, bits), hosts: vec![] });
        }
        let job = p.nets[0].scan_job().expect("a network");
        assert_eq!(job.cidr, cidr);
    }
}

#[test]
fn a_network_lists_each_address_once() {
    let mut p = Project::new();
    p.add_net(Cidr::V4 { prefix: 0xffff_ff00, bits: 24 });
    let ips: Vec<IpAddress> = p.nets[0].hosts.iter().map(|h| h.ip).collect();
    assert_eq!(ips.len(), 256);
    for i in 0..ips.len() {
        for j in (i + 1)..ips.len() {
            assert_ne!(ips[i], ips[j]);
        }
    }
    assert_eq!(ips[255], IpAddress::V4(0xffff_ffff));
}

#[test]
fn an_ipv6_network_text_is_read() {
    let net = Net { passive_arp: false, cidr: "2001:db8::/32".into(), hosts: vec![] };
    let job = net.scan_job().expect("a network");
    assert_eq!(job.cidr, Cidr::V6 { prefix: 0x2001_0db8_0000_0000_0000_0000_0000_0000, bits: 32 });
    assert_eq!(job.file_name, "2001:db8::--32");
}

#[test]
fn a_network_added_from_ipv6_reads_back() {
    let mut p = Project::new();
    p.path = Some("/p".into());
    let cidr = Cidr::V6 { prefix: 0x2001_0db8_0000_0000_0000_0000_0000_0100, bits: 120 };
    p.add_net(cidr);
    assert_eq!(p.nets[0].cidr, "2001:db8::100/120");
    assert_eq!(p.nets[0].hosts.len(), 256);
    let jobs = p.scan_jobs();
    assert_eq!(jobs[0].as_ref().map(|j| j.cidr), Some(cidr));
}

use recon::cidr::Cidr;
use recon::network::scanner::Scanner;

#[test]
fn full_host_scan_command_line() {
    let args = Scanner::host_scan_args("10.0.0.7", "/tmp/p/scans/nmap/10.0.0.7");
    assert_eq!(args, vec!["-A", "-p-", "10.0.0.7", "-oX /tmp/p/scans/nmap/10.0.0.7"]);
}

#[test]
fn ping_sweep_command_line_of_an_ipv4_network() {
    let cidr = Cidr::V4 { prefix: 0x0a00_0000, bits: 24 };
    let args = Scanner::net_ping_args(&cidr, "out.xml");
    assert_eq!(args, vec!["-sP", "10.0.0.0/24", "-oX", "out.xml"]);
}

#[test]
fn ping_sweep_command_line_of_an_ipv6_network() {
    let cidr = Cidr::V6 { prefix: 0x2001_0db8_0000_0000_0000_0000_0000_0000, bits: 32 };
    let args = Scanner::net_ping_args(&cidr, "v6.xml");
    assert_eq!(args, vec!["-sP", "2001:db8::/32", "-oX", "v6.xml"]);
}

# recon

Planning and bookkeeping for network reconnaissance with nmap.

- `src/` is the library, verified with Verus:
  - `decimal`: reading unsigned decimal numbers as nmap reports write them;
  - `xml`: the parts of a parsed XML document that a report reader looks at;
  - `cidr`: IP addresses and networks as plain numbers, read, written and
    enumerated by `cidr_utils`;
  - `network::scanner`: reading nmap XML reports, and nmap command lines;
  - `network::sessions`: the decisions of the session server's event loop;
  - `project::project`: a project's networks, their hosts, and the ping
    sweeps of a scan.
- `app/` holds the I/O around it: running nmap, parsing report files with
  libxml, storing projects as JSON with serde, and the mio event loop.
- `tests/` exercises the library on concrete values.

//! A reconnaissance project: the networks to look at, their hosts, and
//! where each network's scan report goes.
use vstd::prelude::*;

use crate::cidr::{lemma_network_addresses_distinct, cidr_addresses, cidr_from_str, cidr_text, cidr_to_text, spec_cidr_parse, Cidr, IpAddress};
use crate::network::scanner::XMLNmapHost;

verus! {

/// The client a project is done for.
#[derive(Debug, Clone, PartialEq)]
pub struct Client {
    pub name: Option<String>,
}

/// A host of a network, with the report of its last full scan, if any.
#[derive(Debug, Clone, PartialEq)]
pub struct Host {
    pub nmap: Option<XMLNmapHost>,
    pub ip: IpAddress,
}

/// A network of a project: its text in CIDR notation and its hosts.
#[derive(Debug, Clone, PartialEq)]
pub struct Net {
    pub passive_arp: bool,
    pub cidr: String,
    pub hosts: Vec<Host>,
}

/// A project: where it is stored, its networks and its client.
#[derive(Debug, Clone, PartialEq)]
pub struct Project {
    pub path: Option<String>,
    pub nets: Vec<Net>,
    pub client: Option<Client>,
}

/// The ping sweep of one network: the network, and the name of the file in
/// the project's scan directory that its report goes to.
#[derive(Debug, Clone, PartialEq)]
pub struct ScanJob {
    pub cidr: Cidr,
    pub file_name: String,
}

/// `s` with every `/` written as `--`.
pub open spec fn slash_to_dashes(s: Seq<char>) -> Seq<char>
    decreases s.len(),
{
    if s.len() == 0 {
        seq![]
    } else if s.last() == '/' {
        slash_to_dashes(s.drop_last()) + seq!['-', '-']
    } else {
        slash_to_dashes(s.drop_last()).push(s.last())
    }
}

/// The name of the file that the report of a scan of the network written
/// `cidr` goes to: the text with every `/` written as `--`.
pub fn scan_file_name(cidr: &str) -> (r: String)
    ensures
        r@ == slash_to_dashes(cidr@),
{
    let n = cidr.unicode_len();
    let mut out = String::new();
    let mut i: usize = 0;
    while i < n
        invariant
            n == cidr@.len(),
            0 <= i <= n,
            out@ == slash_to_dashes(cidr@.take(i as int)),
        decreases n - i,
    {
        let c = cidr.get_char(i);
        let ghost prefix = cidr@.take(i + 1);
        assert(prefix.drop_last() =~= cidr@.take(i as int));
        assert(prefix.last() == c);
        if c == '/' {
            out.append("--");
            proof {
                reveal_strlit("--");
                assert("--"@ =~= seq!['-', '-']);
            }
        } else {
            let one = cidr.substring_char(i, i + 1);
            assert(one@ =~= seq![c]);
            out.append(one);
            assert(out@ =~= slash_to_dashes(prefix));
        }
        i = i + 1;
    }
    assert(cidr@.take(n as int) =~= cidr@);
    out
}

/// A scan file name never holds a `/`, so it always names a file directly
/// in the scan directory.
pub proof fn lemma_scan_file_name_has_no_slash(s: Seq<char>)
    ensures
        !slash_to_dashes(s).contains('/'),
    decreases s.len(),
{
    if s.len() > 0 {
        lemma_scan_file_name_has_no_slash(s.drop_last());
        let prev = slash_to_dashes(s.drop_last());
        let r = slash_to_dashes(s);
        assert forall|i: int| 0 <= i < r.len() implies r[i] != '/' by {
            if i < prev.len() {
                assert(r[i] == prev[i]);
                assert(!prev.contains('/'));
            }
        }
    }
}

/// Writing slashes as dashes works piece by piece: the name of a text
/// made of two parts is the names of the parts, one after the other.
pub proof fn lemma_slash_to_dashes_concat(a: Seq<char>, b: Seq<char>)
    ensures
        slash_to_dashes(a + b) == slash_to_dashes(a) + slash_to_dashes(b),
    decreases b.len(),
{
    if b.len() == 0 {
        assert(a + b =~= a);
        assert(slash_to_dashes(a) + slash_to_dashes(b) =~= slash_to_dashes(a));
    } else {
        lemma_slash_to_dashes_concat(a, b.drop_last());
        assert((a + b).drop_last() =~= a + b.drop_last());
        assert((a + b).last() == b.last());
        if b.last() == '/' {
            assert(slash_to_dashes(a) + slash_to_dashes(b) =~= slash_to_dashes(a) + slash_to_dashes(
                b.drop_last(),
            ) + seq!['-', '-']);
        } else {
            assert(slash_to_dashes(a) + slash_to_dashes(b) =~= (slash_to_dashes(a)
                + slash_to_dashes(b.drop_last())).push(b.last()));
        }
    }
}

/// A scan file name writes each `/` as `--` and keeps every other character:
/// a text without `/` is its own name, and a name is built piece by piece.
pub proof fn lemma_scan_file_name_characters(s: Seq<char>, c: char)
    ensures
        slash_to_dashes(seq!['/']) == seq!['-', '-'],
        c != '/' ==> slash_to_dashes(seq![c]) == seq![c],
        !s.contains('/') ==> slash_to_dashes(s) == s,
    decreases s.len(),
{
    assert(seq!['/'].drop_last() =~= Seq::<char>::empty());
    assert(seq![c].drop_last() =~= Seq::<char>::empty());
    assert(slash_to_dashes(Seq::<char>::empty()) + seq!['-', '-'] =~= seq!['-', '-']);
    assert(slash_to_dashes(Seq::<char>::empty()).push(c) =~= seq![c]);
    if s.len() > 0 && !s.contains('/') {
        assert(!s.drop_last().contains('/')) by {
            if s.drop_last().contains('/') {
                let k = choose|k: int| 0 <= k < s.drop_last().len() && s.drop_last()[k] == '/';
                assert(s[k] == '/');
            }
        }
        lemma_scan_file_name_characters(s.drop_last(), c);
        assert(s.last() != '/') by {
            assert(s[s.len() - 1] == s.last());
        }
        assert(s.drop_last().push(s.last()) =~= s);
    }
}

impl Net {
    /// The net was made from the network `c`: no passive ARP, the network's
    /// text, and one host for each of its addresses, in order, none of them
    /// scanned yet.
    pub open spec fn is_made_from(&self, c: Cidr) -> bool {
        &&& !self.passive_arp
        &&& self.cidr@ == cidr_text(c)
        &&& self.hosts@.len() == c.size()
        &&& forall|i: int|
            0 <= i < self.hosts@.len() ==> {
                &&& (#[trigger] self.hosts@[i]).nmap is None
                &&& self.hosts@[i].ip == c.address_at(i)
            }
    }

    /// `job` is the ping sweep of this net: `None` where the net's text is
    /// no network.
    pub open spec fn is_scan_job(&self, job: Option<ScanJob>) -> bool {
        match spec_cidr_parse(self.cidr@) {
            Some(c) => job matches Some(j) && j.cidr == c && j.file_name@ == slash_to_dashes(
                self.cidr@,
            ),
            None => job is None,
        }
    }

    /// The ping sweep of this network: the network read from its text, and
    /// the file name of its report; `None` where the text is no network.
    pub fn scan_job(&self) -> (r: Option<ScanJob>)
        ensures
            self.is_scan_job(r),
    {
        match cidr_from_str(self.cidr.as_str()) {
            Some(c) => Some(ScanJob { cidr: c, file_name: scan_file_name(self.cidr.as_str()) }),
            None => None,
        }
    }
}

impl Project {
    /// A project with no path, no networks and no client.
    pub fn new() -> (p: Project)
        ensures
            p.path is None,
            p.nets@.len() == 0,
            p.client is None,
    {
        Project { path: None, nets: Vec::new(), client: None }
    }

    /// Adds the network `cidr`, with one host for each of its addresses.
    /// The network is stored as a text that reads back as the network, so it
    /// can always be scanned.
    pub fn add_net(&mut self, cidr: Cidr)
        requires
            cidr.wf(),
            cidr.size() <= usize::MAX,
        ensures
            final(self).path == old(self).path,
            final(self).client == old(self).client,
            final(self).nets@.len() == old(self).nets@.len() + 1,
            forall|i: int|
                0 <= i < old(self).nets@.len() ==> #[trigger] final(self).nets@[i] == old(
                    self,
                ).nets@[i],
            final(self).nets@.last().is_made_from(cidr),
            spec_cidr_parse(final(self).nets@.last().cidr@) == Some(cidr),
    {
        let text = cidr_to_text(&cidr);
        let addresses = cidr_addresses(&cidr);
        let n = addresses.len();
        let mut hosts: Vec<Host> = Vec::new();
        let mut i: usize = 0;
        while i < n
            invariant
                n == addresses@.len(),
                n == cidr.size(),
                0 <= i <= n,
                hosts@.len() == i,
                forall|j: int| 0 <= j < cidr.size() ==> #[trigger] addresses@[j] == cidr.address_at(j),
                forall|j: int|
                    0 <= j < i ==> {
                        &&& (#[trigger] hosts@[j]).nmap is None
                        &&& hosts@[j].ip == cidr.address_at(j)
                    },
            decreases n - i,
        {
            hosts.push(Host { nmap: None, ip: addresses[i] });
            i = i + 1;
        }
        self.nets.push(Net { passive_arp: false, cidr: text, hosts });
    }

    /// The ping sweeps of a scan of the project, in the order of its
    /// networks: none where the project has no path; for each network, its
    /// sweep, or `None` where its text is no network.
    pub fn scan_jobs(&self) -> (r: Vec<Option<ScanJob>>)
        ensures
            self.path is None ==> r@.len() == 0,
            self.path is Some ==> r@.len() == self.nets@.len(),
            forall|i: int| 0 <= i < r@.len() ==> self.nets@[i].is_scan_job(#[trigger] r@[i]),
    {
        let mut jobs: Vec<Option<ScanJob>> = Vec::new();
        if self.path.is_none() {
            return jobs;
        }
        let n = self.nets.len();
        let mut i: usize = 0;
        while i < n
            invariant
                n == self.nets@.len(),
                0 <= i <= n,
                jobs@.len() == i,
                forall|j: int| 0 <= j < i ==> self.nets@[j].is_scan_job(#[trigger] jobs@[j]),
            decreases n - i,
        {
            let job = self.nets[i].scan_job();
            jobs.push(job);
            i = i + 1;
        }
        jobs
    }
}

/// The hosts of a net made from a network are pairwise distinct: adding a
/// network never lists one address twice.
pub proof fn lemma_net_hosts_distinct(net: Net, c: Cidr)
    requires
        c.wf(),
        net.is_made_from(c),
    ensures
        forall|i: int, j: int|
            0 <= i < j < net.hosts@.len() ==> (#[trigger] net.hosts@[i]).ip != (
            #[trigger] net.hosts@[j]).ip,
{
    lemma_network_addresses_distinct(c);
}

/// A net whose text reads back as a network is swept as that network, into
/// a file directly in the scan directory. With what `add_net` guarantees,
/// every network added to a project is swept when the project is scanned,
/// and never refused.
pub proof fn lemma_readable_net_is_swept(net: Net, c: Cidr, job: Option<ScanJob>)
    requires
        spec_cidr_parse(net.cidr@) == Some(c),
        net.is_scan_job(job),
    ensures
        job matches Some(j) && j.cidr == c && !j.file_name@.contains('/'),
{
    lemma_scan_file_name_has_no_slash(net.cidr@);
}

} // verus!

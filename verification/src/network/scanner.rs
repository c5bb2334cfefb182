//! Reading nmap's XML reports, and the nmap command lines of a scan.
//!
//! nmap's XML output is not always well formed, so reports are read by
//! walking the parsed tree by hand rather than through a schema.
use vstd::prelude::*;

use crate::decimal::{parse_u16, parse_u8, spec_parse_unsigned};
use crate::cidr::{cidr_text, cidr_to_text, Cidr};
use crate::xml::{XmlNode, XmlNodeType};

verus! {

/// Launches nmap scans; see the functions that build its command lines.
pub struct Scanner {}

/// A whole nmap run: the `nmaprun` element of a report.
#[derive(Debug, Clone, PartialEq)]
pub struct XMLNmapRun {
    pub scanner: String,
    pub args: String,
    pub start: String,
    pub startstr: String,
    pub version: String,
    pub xmloutputversion: String,
    pub hosts: Vec<XMLNmapHost>,
}

/// One scanned host: a `host` element.
#[derive(Debug, Clone, PartialEq)]
pub struct XMLNmapHost {
    pub starttime: String,
    pub endtime: String,
    pub status: XMLNmapHostStatus,
    pub hostnames: Vec<XMLNmapHostname>,
    pub ports: Vec<XMLNmapPort>,
}

/// A `hostname` element.
#[derive(Debug, Clone, PartialEq)]
pub struct XMLNmapHostname {
    pub name: String,
    pub ty: String,
}

/// A host's `status` element.
#[derive(Debug, Clone, PartialEq)]
pub struct XMLNmapHostStatus {
    pub state: String,
    pub reason: String,
    pub reason_ttl: String,
}

/// A `port` element.
#[derive(Debug, Clone, PartialEq)]
pub struct XMLNmapPort {
    pub protocol: String,
    pub portid: u16,
    pub state: XMLNmapPortState,
    pub service: XMLNmapPortService,
    pub scripts: Vec<XMLNmapPortScript>,
}

/// A port's `script` element.
#[derive(Debug, Clone, PartialEq)]
pub struct XMLNmapPortScript {
    pub id: String,
    pub output: String,
}

/// A port's `service` element.
#[derive(Debug, Clone, PartialEq)]
pub struct XMLNmapPortService {
    pub name: String,
    pub product: Option<String>,
    pub method: String,
    pub conf: u8,
    pub version: Option<String>,
    pub cpe: Option<String>,
}

/// A port's `state` element.
#[derive(Debug, Clone, PartialEq)]
pub struct XMLNmapPortState {
    pub state: String,
    pub reason: String,
    pub reason_ttl: String,
}

// ---------------------------------------------------------------------
// The mathematical model of a report.

/// A hostname as text.
pub struct HostnameModel {
    pub name: Seq<char>,
    pub ty: Seq<char>,
}

/// A host status or a port state as text.
pub struct StateModel {
    pub state: Seq<char>,
    pub reason: Seq<char>,
    pub reason_ttl: Seq<char>,
}

/// A script result as text.
pub struct ScriptModel {
    pub id: Seq<char>,
    pub output: Seq<char>,
}

/// A service description.
pub struct ServiceModel {
    pub name: Seq<char>,
    pub product: Option<Seq<char>>,
    pub method: Seq<char>,
    pub conf: u8,
    pub version: Option<Seq<char>>,
    pub cpe: Option<Seq<char>>,
}

/// A port.
pub struct PortModel {
    pub protocol: Seq<char>,
    pub portid: u16,
    pub state: StateModel,
    pub service: ServiceModel,
    pub scripts: Seq<ScriptModel>,
}

/// A host.
pub struct HostModel {
    pub starttime: Seq<char>,
    pub endtime: Seq<char>,
    pub status: StateModel,
    pub hostnames: Seq<HostnameModel>,
    pub ports: Seq<PortModel>,
}

/// A run.
pub struct RunModel {
    pub scanner: Seq<char>,
    pub args: Seq<char>,
    pub start: Seq<char>,
    pub startstr: Seq<char>,
    pub version: Seq<char>,
    pub xmloutputversion: Seq<char>,
    pub hosts: Seq<HostModel>,
}

/// The text of an optional string.
pub open spec fn opt_text(o: Option<String>) -> Option<Seq<char>> {
    match o {
        Some(s) => Some(s@),
        None => None,
    }
}

impl View for XMLNmapHostname {
    type V = HostnameModel;

    open spec fn view(&self) -> HostnameModel {
        HostnameModel { name: self.name@, ty: self.ty@ }
    }
}

impl View for XMLNmapHostStatus {
    type V = StateModel;

    open spec fn view(&self) -> StateModel {
        StateModel { state: self.state@, reason: self.reason@, reason_ttl: self.reason_ttl@ }
    }
}

impl View for XMLNmapPortState {
    type V = StateModel;

    open spec fn view(&self) -> StateModel {
        StateModel { state: self.state@, reason: self.reason@, reason_ttl: self.reason_ttl@ }
    }
}

impl View for XMLNmapPortScript {
    type V = ScriptModel;

    open spec fn view(&self) -> ScriptModel {
        ScriptModel { id: self.id@, output: self.output@ }
    }
}

impl View for XMLNmapPortService {
    type V = ServiceModel;

    open spec fn view(&self) -> ServiceModel {
        ServiceModel {
            name: self.name@,
            product: opt_text(self.product),
            method: self.method@,
            conf: self.conf,
            version: opt_text(self.version),
            cpe: opt_text(self.cpe),
        }
    }
}

impl View for XMLNmapPort {
    type V = PortModel;

    open spec fn view(&self) -> PortModel {
        PortModel {
            protocol: self.protocol@,
            portid: self.portid,
            state: self.state@,
            service: self.service@,
            scripts: self.scripts@.map_values(|s: XMLNmapPortScript| s@),
        }
    }
}

impl View for XMLNmapHost {
    type V = HostModel;

    open spec fn view(&self) -> HostModel {
        HostModel {
            starttime: self.starttime@,
            endtime: self.endtime@,
            status: self.status@,
            hostnames: self.hostnames@.map_values(|h: XMLNmapHostname| h@),
            ports: self.ports@.map_values(|p: XMLNmapPort| p@),
        }
    }
}

impl View for XMLNmapRun {
    type V = RunModel;

    open spec fn view(&self) -> RunModel {
        RunModel {
            scanner: self.scanner@,
            args: self.args@,
            start: self.start@,
            startstr: self.startstr@,
            version: self.version@,
            xmloutputversion: self.xmloutputversion@,
            hosts: self.hosts@.map_values(|h: XMLNmapHost| h@),
        }
    }
}

// ---------------------------------------------------------------------
// What a report says, read off the document tree.

/// Every node of `cs` has a type that the XML library knows.
pub open spec fn children_typed(cs: Seq<XmlNode>) -> bool {
    forall|i: int| 0 <= i < cs.len() ==> (#[trigger] cs[i]).node_type is Some
}

/// A `hostname` element read as a hostname.
pub open spec fn hostname_model(n: XmlNode) -> HostnameModel {
    HostnameModel { name: n.attr_text("name"@), ty: n.attr_text("type"@) }
}

/// A `hostname` element has what reading it takes.
pub open spec fn hostname_ok(n: XmlNode) -> bool {
    n.has_attr("name"@) && n.has_attr("type"@)
}

/// The hostnames among `cs`, in order: one for each `hostname` element.
pub open spec fn hostnames_in(cs: Seq<XmlNode>) -> Seq<HostnameModel>
    decreases cs.len(),
{
    if cs.len() == 0 {
        seq![]
    } else if cs.last().is_element_named("hostname"@) {
        hostnames_in(cs.drop_last()).push(hostname_model(cs.last()))
    } else {
        hostnames_in(cs.drop_last())
    }
}

/// The children of a `hostnames` element can be read.
pub open spec fn hostnames_ok(cs: Seq<XmlNode>) -> bool {
    forall|i: int|
        0 <= i < cs.len() ==> {
            &&& (#[trigger] cs[i]).node_type is Some
            &&& cs[i].is_element_named("hostname"@) ==> hostname_ok(cs[i])
        }
}

/// An element with `state`, `reason` and `reason_ttl` attributes read as a state.
pub open spec fn state_model(n: XmlNode) -> StateModel {
    StateModel {
        state: n.attr_text("state"@),
        reason: n.attr_text("reason"@),
        reason_ttl: n.attr_text("reason_ttl"@),
    }
}

/// An element has the attributes of a state.
pub open spec fn state_ok(n: XmlNode) -> bool {
    n.has_attr("state"@) && n.has_attr("reason"@) && n.has_attr("reason_ttl"@)
}

/// The state of the last element called `tag` among `cs`, if there is one.
pub open spec fn last_state_in(cs: Seq<XmlNode>, tag: Seq<char>) -> Option<StateModel>
    decreases cs.len(),
{
    if cs.len() == 0 {
        None
    } else if cs.last().is_element_named(tag) {
        Some(state_model(cs.last()))
    } else {
        last_state_in(cs.drop_last(), tag)
    }
}

/// The text content of the last `cpe` element among `cs`, if there is one.
pub open spec fn cpe_in(cs: Seq<XmlNode>) -> Option<Seq<char>>
    decreases cs.len(),
{
    if cs.len() == 0 {
        None
    } else if cs.last().is_element_named("cpe"@) {
        Some(cs.last().content@)
    } else {
        cpe_in(cs.drop_last())
    }
}

/// A `service` element has what reading it takes: known node types
/// below it, `name` and `method`, and a `conf` that is a `u8` in decimal.
pub open spec fn service_ok(n: XmlNode) -> bool {
    &&& children_typed(n.children@)
    &&& n.has_attr("name"@)
    &&& n.has_attr("method"@)
    &&& n.has_attr("conf"@)
    &&& spec_parse_unsigned(n.attr_text("conf"@), 255) is Some
}

/// A `service` element read as a service.
pub open spec fn service_model(n: XmlNode) -> ServiceModel {
    ServiceModel {
        name: n.attr_text("name"@),
        product: n.attr("product"@),
        method: n.attr_text("method"@),
        conf: spec_parse_unsigned(n.attr_text("conf"@), 255).unwrap() as u8,
        version: n.attr("version"@),
        cpe: cpe_in(n.children@),
    }
}

/// The service of the last `service` element among `cs`, if there is one.
pub open spec fn last_service_in(cs: Seq<XmlNode>) -> Option<ServiceModel>
    decreases cs.len(),
{
    if cs.len() == 0 {
        None
    } else if cs.last().is_element_named("service"@) {
        Some(service_model(cs.last()))
    } else {
        last_service_in(cs.drop_last())
    }
}

/// A `script` element read as a script result.
pub open spec fn script_model(n: XmlNode) -> ScriptModel {
    ScriptModel { id: n.attr_text("id"@), output: n.attr_text("output"@) }
}

/// The script results among `cs`, in order: one for each `script` element.
pub open spec fn scripts_in(cs: Seq<XmlNode>) -> Seq<ScriptModel>
    decreases cs.len(),
{
    if cs.len() == 0 {
        seq![]
    } else if cs.last().is_element_named("script"@) {
        scripts_in(cs.drop_last()).push(script_model(cs.last()))
    } else {
        scripts_in(cs.drop_last())
    }
}

/// A child of a `port` element can be read.
pub open spec fn port_child_ok(c: XmlNode) -> bool {
    &&& c.node_type is Some
    &&& c.is_element_named("state"@) ==> state_ok(c)
    &&& c.is_element_named("service"@) ==> service_ok(c)
    &&& c.is_element_named("script"@) ==> c.has_attr("id"@) && c.has_attr("output"@)
}

/// A `port` element has what reading it takes: readable children, among
/// them a `state` and a `service`, a `protocol`, and a `portid` that is a
/// `u16` in decimal.
pub open spec fn port_ok(n: XmlNode) -> bool {
    &&& forall|i: int| 0 <= i < n.children@.len() ==> port_child_ok(#[trigger] n.children@[i])
    &&& last_state_in(n.children@, "state"@) is Some
    &&& last_service_in(n.children@) is Some
    &&& n.has_attr("protocol"@)
    &&& n.has_attr("portid"@)
    &&& spec_parse_unsigned(n.attr_text("portid"@), 65535) is Some
}

/// A `port` element read as a port.
pub open spec fn port_model(n: XmlNode) -> PortModel {
    PortModel {
        protocol: n.attr_text("protocol"@),
        portid: spec_parse_unsigned(n.attr_text("portid"@), 65535).unwrap() as u16,
        state: last_state_in(n.children@, "state"@).unwrap(),
        service: last_service_in(n.children@).unwrap(),
        scripts: scripts_in(n.children@),
    }
}

/// A child of a `port` element that reading the port looks at: a `state`,
/// `service` or `script` element.
pub open spec fn is_port_part(c: XmlNode) -> bool {
    c.is_element_named("state"@) || c.is_element_named("service"@) || c.is_element_named("script"@)
}

/// The children among `cs` that reading a `port` element looks at, in order.
pub open spec fn port_parts(cs: Seq<XmlNode>) -> Seq<XmlNode>
    decreases cs.len(),
{
    if cs.len() == 0 {
        seq![]
    } else if is_port_part(cs.last()) {
        port_parts(cs.drop_last()).push(cs.last())
    } else {
        port_parts(cs.drop_last())
    }
}

/// Every child among `cs` can be read as a child of a `port` element.
pub open spec fn port_children_ok(cs: Seq<XmlNode>) -> bool {
    forall|i: int| 0 <= i < cs.len() ==> port_child_ok(#[trigger] cs[i])
}

proof fn lemma_port_children_ok_last(cs: Seq<XmlNode>)
    requires
        cs.len() > 0,
    ensures
        port_children_ok(cs) == (port_children_ok(cs.drop_last()) && port_child_ok(cs.last())),
{
    if port_children_ok(cs.drop_last()) && port_child_ok(cs.last()) {
        assert forall|i: int| 0 <= i < cs.len() implies port_child_ok(#[trigger] cs[i]) by {
            if i < cs.len() - 1 {
                assert(cs[i] == cs.drop_last()[i]);
            }
        }
    }
    if port_children_ok(cs) {
        assert forall|i: int| 0 <= i < cs.drop_last().len() implies port_child_ok(
            #[trigger] cs.drop_last()[i],
        ) by {
            assert(cs.drop_last()[i] == cs[i]);
        }
        assert(port_child_ok(cs[cs.len() - 1]));
    }
}

/// What reading a `port` element takes from its children depends only on
/// its `state`, `service` and `script` children, as long as the others have
/// a known type.
proof fn lemma_port_reads_parts(cs: Seq<XmlNode>)
    requires
        forall|i: int| 0 <= i < cs.len() && !is_port_part(#[trigger] cs[i]) ==> cs[i].node_type is Some,
    ensures
        port_children_ok(cs) == port_children_ok(port_parts(cs)),
        last_state_in(cs, "state"@) == last_state_in(port_parts(cs), "state"@),
        last_service_in(cs) == last_service_in(port_parts(cs)),
        scripts_in(cs) == scripts_in(port_parts(cs)),
    decreases cs.len(),
{
    if cs.len() > 0 {
        let rest = cs.drop_last();
        let last = cs.last();
        assert forall|i: int| 0 <= i < rest.len() && !is_port_part(#[trigger] rest[i]) implies rest[i].node_type is Some by {
            assert(rest[i] == cs[i]);
        }
        lemma_port_reads_parts(rest);
        lemma_port_children_ok_last(cs);
        if is_port_part(last) {
            let pp = port_parts(cs);
            assert(pp.drop_last() =~= port_parts(rest));
            assert(pp.last() == last);
            lemma_port_children_ok_last(pp);
        } else {
            assert(cs[cs.len() - 1].node_type is Some);
            assert(port_child_ok(last));
        }
    }
}

/// Adding other children to a `port` element (text, comments, or elements
/// other than `state`, `service` and `script`) anywhere among its children
/// changes nothing of what is read from it: both ports can be read or
/// neither, and where they can, they read alike.
pub proof fn lemma_port_ignores_other_children(node: XmlNode, node2: XmlNode)
    requires
        node2.attributes == node.attributes,
        port_parts(node2.children@) == port_parts(node.children@),
        forall|i: int|
            0 <= i < node.children@.len() && !is_port_part(#[trigger] node.children@[i])
                ==> node.children@[i].node_type is Some,
        forall|i: int|
            0 <= i < node2.children@.len() && !is_port_part(#[trigger] node2.children@[i])
                ==> node2.children@[i].node_type is Some,
    ensures
        port_ok(node2) == port_ok(node),
        port_ok(node) ==> port_model(node2) == port_model(node),
{
    lemma_port_reads_parts(node.children@);
    lemma_port_reads_parts(node2.children@);
}

/// The ports among `cs`, in order: one for each `port` element.
pub open spec fn ports_in(cs: Seq<XmlNode>) -> Seq<PortModel>
    decreases cs.len(),
{
    if cs.len() == 0 {
        seq![]
    } else if cs.last().is_element_named("port"@) {
        ports_in(cs.drop_last()).push(port_model(cs.last()))
    } else {
        ports_in(cs.drop_last())
    }
}

/// The children of a `ports` element can be read.
pub open spec fn ports_ok(cs: Seq<XmlNode>) -> bool {
    forall|i: int|
        0 <= i < cs.len() ==> {
            &&& (#[trigger] cs[i]).node_type is Some
            &&& cs[i].is_element_named("port"@) ==> port_ok(cs[i])
        }
}

/// The hostnames of a host: those of each `hostnames` element among `cs`, in order.
pub open spec fn host_hostnames(cs: Seq<XmlNode>) -> Seq<HostnameModel>
    decreases cs.len(),
{
    if cs.len() == 0 {
        seq![]
    } else if cs.last().is_element_named("hostnames"@) {
        host_hostnames(cs.drop_last()) + hostnames_in(cs.last().children@)
    } else {
        host_hostnames(cs.drop_last())
    }
}

/// The ports of a host: those of each `ports` element among `cs`, in order.
pub open spec fn host_ports(cs: Seq<XmlNode>) -> Seq<PortModel>
    decreases cs.len(),
{
    if cs.len() == 0 {
        seq![]
    } else if cs.last().is_element_named("ports"@) {
        host_ports(cs.drop_last()) + ports_in(cs.last().children@)
    } else {
        host_ports(cs.drop_last())
    }
}

/// A child of a `host` element can be read.
pub open spec fn host_child_ok(c: XmlNode) -> bool {
    &&& c.node_type is Some
    &&& c.is_element_named("status"@) ==> state_ok(c)
    &&& c.is_element_named("hostnames"@) ==> hostnames_ok(c.children@)
    &&& c.is_element_named("ports"@) ==> ports_ok(c.children@)
}

/// A `host` element has what reading it takes: readable children, among
/// them a `status`, and `starttime` and `endtime`.
pub open spec fn host_ok(n: XmlNode) -> bool {
    &&& forall|i: int| 0 <= i < n.children@.len() ==> host_child_ok(#[trigger] n.children@[i])
    &&& last_state_in(n.children@, "status"@) is Some
    &&& n.has_attr("starttime"@)
    &&& n.has_attr("endtime"@)
}

/// A `host` element read as a host.
pub open spec fn host_model(n: XmlNode) -> HostModel {
    HostModel {
        starttime: n.attr_text("starttime"@),
        endtime: n.attr_text("endtime"@),
        status: last_state_in(n.children@, "status"@).unwrap(),
        hostnames: host_hostnames(n.children@),
        ports: host_ports(n.children@),
    }
}

/// The hosts among `cs`, in order: one for each `host` element.
pub open spec fn hosts_in(cs: Seq<XmlNode>) -> Seq<HostModel>
    decreases cs.len(),
{
    if cs.len() == 0 {
        seq![]
    } else if cs.last().is_element_named("host"@) {
        hosts_in(cs.drop_last()).push(host_model(cs.last()))
    } else {
        hosts_in(cs.drop_last())
    }
}

/// An `nmaprun` element has what reading it takes: readable `host`
/// children and the attributes of a run.
pub open spec fn run_ok(n: XmlNode) -> bool {
    &&& forall|i: int|
        0 <= i < n.children@.len() ==> {
            &&& (#[trigger] n.children@[i]).node_type is Some
            &&& n.children@[i].is_element_named("host"@) ==> host_ok(n.children@[i])
        }
    &&& n.has_attr("scanner"@)
    &&& n.has_attr("args"@)
    &&& n.has_attr("start"@)
    &&& n.has_attr("startstr"@)
    &&& n.has_attr("version"@)
    &&& n.has_attr("xmloutputversion"@)
}

/// An `nmaprun` element read as a run.
pub open spec fn run_model(n: XmlNode) -> RunModel {
    RunModel {
        scanner: n.attr_text("scanner"@),
        args: n.attr_text("args"@),
        start: n.attr_text("start"@),
        startstr: n.attr_text("startstr"@),
        version: n.attr_text("version"@),
        xmloutputversion: n.attr_text("xmloutputversion"@),
        hosts: hosts_in(n.children@),
    }
}

/// The root of a report can be read: its type is known, and where it is an
/// `nmaprun` element, the run can be read.
pub open spec fn root_ok(n: XmlNode) -> bool {
    &&& n.node_type is Some
    &&& n.is_element_named("nmaprun"@) ==> run_ok(n)
}

/// What the root of a document says: a run where it is an `nmaprun` element,
/// nothing otherwise.
pub open spec fn root_model(n: XmlNode) -> Option<RunModel> {
    if n.is_element_named("nmaprun"@) {
        Some(run_model(n))
    } else {
        None
    }
}

// ---------------------------------------------------------------------
// What a report reader does, in terms of the document.

/// The elements called `name` among `cs`, in document order.
pub open spec fn elements_named(cs: Seq<XmlNode>, name: Seq<char>) -> Seq<XmlNode>
    decreases cs.len(),
{
    if cs.len() == 0 {
        seq![]
    } else if cs.last().is_element_named(name) {
        elements_named(cs.drop_last(), name).push(cs.last())
    } else {
        elements_named(cs.drop_last(), name)
    }
}

/// A run reads each of its attributes into the field of the same name:
/// `scanner`, `args`, `start`, `startstr`, `version`, `xmloutputversion`;
/// and it has one host for each `host` child, in document order, each read
/// from that child.
pub proof fn lemma_run_reads_its_attributes_and_hosts(n: XmlNode)
    ensures
        run_model(n).scanner == n.attr_text("scanner"@),
        run_model(n).args == n.attr_text("args"@),
        run_model(n).start == n.attr_text("start"@),
        run_model(n).startstr == n.attr_text("startstr"@),
        run_model(n).version == n.attr_text("version"@),
        run_model(n).xmloutputversion == n.attr_text("xmloutputversion"@),
        run_model(n).hosts.len() == elements_named(n.children@, "host"@).len(),
        forall|k: int|
            0 <= k < run_model(n).hosts.len() ==> #[trigger] run_model(n).hosts[k] == host_model(
                elements_named(n.children@, "host"@)[k],
            ),
{
    lemma_hosts_in_elements(n.children@);
}

proof fn lemma_hosts_in_elements(cs: Seq<XmlNode>)
    ensures
        hosts_in(cs).len() == elements_named(cs, "host"@).len(),
        forall|k: int|
            0 <= k < hosts_in(cs).len() ==> #[trigger] hosts_in(cs)[k] == host_model(
                elements_named(cs, "host"@)[k],
            ),
    decreases cs.len(),
{
    if cs.len() > 0 {
        lemma_hosts_in_elements(cs.drop_last());
    }
}

/// The scripts of a port are one entry for each `script` child, in
/// document order: the `k`-th has the `id` and `output` attributes of the
/// `k`-th `script` child.
pub proof fn lemma_port_scripts_follow_script_children(cs: Seq<XmlNode>)
    ensures
        scripts_in(cs).len() == elements_named(cs, "script"@).len(),
        forall|k: int|
            0 <= k < scripts_in(cs).len() ==> {
                &&& (#[trigger] scripts_in(cs)[k]).id == elements_named(cs, "script"@)[k].attr_text(
                    "id"@,
                )
                &&& scripts_in(cs)[k].output == elements_named(cs, "script"@)[k].attr_text(
                    "output"@,
                )
            },
    decreases cs.len(),
{
    if cs.len() > 0 {
        lemma_port_scripts_follow_script_children(cs.drop_last());
    }
}

/// The hostnames of a `hostnames` element are one entry for each
/// `hostname` child, in document order, with its `name` and `type`.
pub proof fn lemma_hostnames_follow_hostname_children(cs: Seq<XmlNode>)
    ensures
        hostnames_in(cs).len() == elements_named(cs, "hostname"@).len(),
        forall|k: int|
            0 <= k < hostnames_in(cs).len() ==> {
                &&& (#[trigger] hostnames_in(cs)[k]).name == elements_named(
                    cs,
                    "hostname"@,
                )[k].attr_text("name"@)
                &&& hostnames_in(cs)[k].ty == elements_named(cs, "hostname"@)[k].attr_text("type"@)
            },
    decreases cs.len(),
{
    if cs.len() > 0 {
        lemma_hostnames_follow_hostname_children(cs.drop_last());
    }
}

/// The ports of a `ports` element are one entry for each `port` child, in
/// document order, each read from that child.
pub proof fn lemma_ports_follow_port_children(cs: Seq<XmlNode>)
    ensures
        ports_in(cs).len() == elements_named(cs, "port"@).len(),
        forall|k: int|
            0 <= k < ports_in(cs).len() ==> #[trigger] ports_in(cs)[k] == port_model(
                elements_named(cs, "port"@)[k],
            ),
    decreases cs.len(),
{
    if cs.len() > 0 {
        lemma_ports_follow_port_children(cs.drop_last());
    }
}

proof fn lemma_last_status(cs: Seq<XmlNode>)
    ensures
        last_state_in(cs, "status"@) is Some <==> elements_named(cs, "status"@).len() > 0,
    decreases cs.len(),
{
    if cs.len() > 0 {
        lemma_last_status(cs.drop_last());
    }
}

proof fn lemma_no_ports_children(cs: Seq<XmlNode>)
    requires
        elements_named(cs, "ports"@).len() == 0,
    ensures
        host_ports(cs) == Seq::<PortModel>::empty(),
    decreases cs.len(),
{
    if cs.len() > 0 {
        if cs.last().is_element_named("ports"@) {
            assert(elements_named(cs, "ports"@).len() > 0);
        }
        lemma_no_ports_children(cs.drop_last());
    }
}

/// A host is read exactly when its children are readable, it has a
/// `status` child, and it has `starttime` and `endtime` attributes; nothing
/// is asked of its ports. It reads its times from those attributes, and a
/// host with no `ports` child has no ports.
pub proof fn lemma_host_is_read_without_ports(n: XmlNode)
    ensures
        host_ok(n) <==> {
            &&& forall|i: int| 0 <= i < n.children@.len() ==> host_child_ok(#[trigger] n.children@[i])
            &&& elements_named(n.children@, "status"@).len() > 0
            &&& n.has_attr("starttime"@)
            &&& n.has_attr("endtime"@)
        },
        host_model(n).starttime == n.attr_text("starttime"@),
        host_model(n).endtime == n.attr_text("endtime"@),
        elements_named(n.children@, "ports"@).len() == 0 ==> host_model(n).ports.len() == 0,
{
    lemma_last_status(n.children@);
    if elements_named(n.children@, "ports"@).len() == 0 {
        lemma_no_ports_children(n.children@);
    }
}

/// A service reads `name`, `method`, `product` and `version` from the
/// attributes of those names: `product` and `version` are `Some` of the
/// attribute's value where the element has the attribute, `None` only where
/// it has not. Its confidence is the decimal value of `conf`.
pub proof fn lemma_service_reads_its_attributes(n: XmlNode)
    ensures
        service_model(n).name == n.attr_text("name"@),
        service_model(n).method == n.attr_text("method"@),
        service_model(n).product == n.attr("product"@),
        service_model(n).version == n.attr("version"@),
        n.has_attr("version"@) ==> service_model(n).version == Some(n.attr_text("version"@)),
        n.has_attr("product"@) ==> service_model(n).product == Some(n.attr_text("product"@)),
        service_ok(n) ==> service_model(n).conf as int == spec_parse_unsigned(
            n.attr_text("conf"@),
            255,
        ).unwrap(),
{
    if service_ok(n) {
        let v = spec_parse_unsigned(n.attr_text("conf"@), 255).unwrap();
        assert(0 <= v <= 255) by {
            crate::decimal::lemma_digits_value_nonneg(
                crate::decimal::unsigned_digits(n.attr_text("conf"@)),
            );
        }
    }
}

/// The state read from the last element called `tag` among `cs`: its
/// `state`, `reason` and `reason_ttl` attributes; nothing where there is no
/// such element.
pub proof fn lemma_last_state_is_last_element(cs: Seq<XmlNode>, tag: Seq<char>)
    ensures
        last_state_in(cs, tag) is Some <==> elements_named(cs, tag).len() > 0,
        elements_named(cs, tag).len() > 0 ==> {
            let e = elements_named(cs, tag).last();
            &&& last_state_in(cs, tag).unwrap().state == e.attr_text("state"@)
            &&& last_state_in(cs, tag).unwrap().reason == e.attr_text("reason"@)
            &&& last_state_in(cs, tag).unwrap().reason_ttl == e.attr_text("reason_ttl"@)
        },
    decreases cs.len(),
{
    if cs.len() > 0 {
        lemma_last_state_is_last_element(cs.drop_last(), tag);
    }
}

/// The service of a port is read from its last `service` child; the cpe of
/// a service is the text of its last `cpe` child, and nothing where it has
/// none.
pub proof fn lemma_last_service_and_cpe(cs: Seq<XmlNode>)
    ensures
        last_service_in(cs) is Some <==> elements_named(cs, "service"@).len() > 0,
        elements_named(cs, "service"@).len() > 0 ==> last_service_in(cs).unwrap()
            == service_model(elements_named(cs, "service"@).last()),
        cpe_in(cs) is Some <==> elements_named(cs, "cpe"@).len() > 0,
        elements_named(cs, "cpe"@).len() > 0 ==> cpe_in(cs).unwrap() == elements_named(
            cs,
            "cpe"@,
        ).last().content@,
    decreases cs.len(),
{
    if cs.len() > 0 {
        lemma_last_service_and_cpe(cs.drop_last());
    }
}

/// A port reads its protocol from `protocol`, its number as the decimal
/// value of `portid`, its state from the last `state` child and its service
/// from the last `service` child.
pub proof fn lemma_port_reads_its_attributes(n: XmlNode)
    ensures
        port_model(n).protocol == n.attr_text("protocol"@),
        port_ok(n) ==> port_model(n).portid as int == spec_parse_unsigned(
            n.attr_text("portid"@),
            65535,
        ).unwrap(),
        port_ok(n) ==> {
            let e = elements_named(n.children@, "state"@).last();
            &&& port_model(n).state.state == e.attr_text("state"@)
            &&& port_model(n).state.reason == e.attr_text("reason"@)
            &&& port_model(n).state.reason_ttl == e.attr_text("reason_ttl"@)
        },
        port_ok(n) ==> port_model(n).service == service_model(
            elements_named(n.children@, "service"@).last(),
        ),
{
    lemma_last_state_is_last_element(n.children@, "state"@);
    lemma_last_service_and_cpe(n.children@);
    if port_ok(n) {
        let v = spec_parse_unsigned(n.attr_text("portid"@), 65535).unwrap();
        assert(0 <= v <= 65535) by {
            crate::decimal::lemma_digits_value_nonneg(
                crate::decimal::unsigned_digits(n.attr_text("portid"@)),
            );
        }
    }
}

/// A host's status is read from its last `status` child.
pub proof fn lemma_host_status_is_last_status_child(n: XmlNode)
    ensures
        host_ok(n) ==> {
            let e = elements_named(n.children@, "status"@).last();
            &&& host_model(n).status.state == e.attr_text("state"@)
            &&& host_model(n).status.reason == e.attr_text("reason"@)
            &&& host_model(n).status.reason_ttl == e.attr_text("reason_ttl"@)
        },
{
    lemma_last_state_is_last_element(n.children@, "status"@);
}

/// A status read alone takes its fields from the attributes of the same names.
pub proof fn lemma_state_reads_its_attributes(n: XmlNode)
    ensures
        state_model(n).state == n.attr_text("state"@),
        state_model(n).reason == n.attr_text("reason"@),
        state_model(n).reason_ttl == n.attr_text("reason_ttl"@),
{
}

// ---------------------------------------------------------------------
// Reading the document tree.

/// The view of each hostname.
pub open spec fn hostnames_view(v: Seq<XMLNmapHostname>) -> Seq<HostnameModel> {
    v.map_values(|h: XMLNmapHostname| h@)
}

/// The view of each port.
pub open spec fn ports_view(v: Seq<XMLNmapPort>) -> Seq<PortModel> {
    v.map_values(|p: XMLNmapPort| p@)
}

/// Reads the `hostname` children of a `hostnames` element, or gives `None`
/// where one of its children cannot be read.
pub fn try_parse_hostnames(node: &XmlNode) -> (r: Option<Vec<XMLNmapHostname>>)
    ensures
        r is Some <==> hostnames_ok(node.children@),
        r matches Some(v) ==> hostnames_view(v@) == hostnames_in(node.children@),
        r matches Some(v) ==> {
            &&& v@.len() == elements_named(node.children@, "hostname"@).len()
            &&& forall|k: int|
                0 <= k < v@.len() ==> {
                    &&& (#[trigger] v@[k]).name@ == elements_named(node.children@, "hostname"@)[k].attr_text(
                        "name"@,
                    )
                    &&& v@[k].ty@ == elements_named(node.children@, "hostname"@)[k].attr_text("type"@)
                }
        },
{
    proof {
        lemma_hostnames_follow_hostname_children(node.children@);
    }
    let cs = &node.children;
    let n = cs.len();
    let mut hostnames: Vec<XMLNmapHostname> = Vec::new();
    let mut i: usize = 0;
    while i < n
        invariant
            cs@ == node.children@,
            n == cs@.len(),
            0 <= i <= n,
            hostnames_view(hostnames@) == hostnames_in(cs@.take(i as int)),
            hostnames_ok(cs@.take(i as int)),
        decreases n - i,
    {
        let child = &cs[i];
        let ghost prefix = cs@.take(i + 1);
        assert(prefix.drop_last() =~= cs@.take(i as int));
        assert(prefix.last() == *child);
        if child.node_type.is_none() {
            assert(!hostnames_ok(cs@)) by {
                assert(cs@[i as int].node_type is None);
            }
            return None;
        }
        if child.is_element("hostname") {
            let name = match child.attribute("name") {
                Some(v) => v,
                None => {
                    assert(!hostnames_ok(cs@)) by {
                        assert(!hostname_ok(cs@[i as int]));
                    }
                    return None;
                },
            };
            let ty = match child.attribute("type") {
                Some(v) => v,
                None => {
                    assert(!hostnames_ok(cs@)) by {
                        assert(!hostname_ok(cs@[i as int]));
                    }
                    return None;
                },
            };
            let h = XMLNmapHostname { name, ty };
            assert(hostnames_view(hostnames@.push(h)) =~= hostnames_view(hostnames@).push(h@));
            hostnames.push(h);
        }
        assert(hostnames_ok(prefix)) by {
            assert forall|j: int| 0 <= j < prefix.len() implies {
                &&& (#[trigger] prefix[j]).node_type is Some
                &&& prefix[j].is_element_named("hostname"@) ==> hostname_ok(prefix[j])
            } by {
                if j < i {
                    assert(prefix[j] == cs@.take(i as int)[j]);
                }
            }
        }
        i = i + 1;
    }
    assert(cs@.take(n as int) =~= cs@);
    assert forall|k: int| 0 <= k < hostnames@.len() implies {
        &&& (#[trigger] hostnames@[k]).name@ == elements_named(node.children@, "hostname"@)[k].attr_text(
            "name"@,
        )
        &&& hostnames@[k].ty@ == elements_named(node.children@, "hostname"@)[k].attr_text("type"@)
    } by {
        assert(hostnames_view(hostnames@)[k] == hostnames@[k]@);
    }
    Some(hostnames)
}

/// Reads the `hostname` children of a `hostnames` element.
pub fn parse_hostnames(node: &XmlNode) -> (r: Vec<XMLNmapHostname>)
    requires
        hostnames_ok(node.children@),
    ensures
        hostnames_view(r@) == hostnames_in(node.children@),
        ({
            let v = r;
            &&& v@.len() == elements_named(node.children@, "hostname"@).len()
            &&& forall|k: int|
                0 <= k < v@.len() ==> {
                    &&& (#[trigger] v@[k]).name@ == elements_named(node.children@, "hostname"@)[k].attr_text(
                        "name"@,
                    )
                    &&& v@[k].ty@ == elements_named(node.children@, "hostname"@)[k].attr_text("type"@)
                }
        }),
{
    proof {
        lemma_hostnames_follow_hostname_children(node.children@);
    }
    try_parse_hostnames(node).unwrap()
}

/// Reads a `service` element, or gives `None` where it cannot be read.
pub fn try_parse_service(node: &XmlNode) -> (r: Option<XMLNmapPortService>)
    ensures
        r is Some <==> service_ok(*node),
        r matches Some(v) ==> v@ == service_model(*node),
        r matches Some(v) ==> {
            &&& v.name@ == node.attr_text("name"@)
            &&& v.method@ == node.attr_text("method"@)
            &&& opt_text(v.product) == node.attr("product"@)
            &&& opt_text(v.version) == node.attr("version"@)
        },
        r matches Some(v) ==> {
            &&& (elements_named(node.children@, "cpe"@).len() == 0 ==> v.cpe is None)
            &&& (elements_named(node.children@, "cpe"@).len() > 0 ==> opt_text(v.cpe) == Some(
                elements_named(node.children@, "cpe"@).last().content@,
            ))
        },
{
    proof {
        lemma_last_service_and_cpe(node.children@);
    }
    proof {
        lemma_service_reads_its_attributes(*node);
    }
    let cs = &node.children;
    let n = cs.len();
    let mut cpe: Option<String> = None;
    let mut i: usize = 0;
    while i < n
        invariant
            cs@ == node.children@,
            n == cs@.len(),
            0 <= i <= n,
            opt_text(cpe) == cpe_in(cs@.take(i as int)),
            children_typed(cs@.take(i as int)),
        decreases n - i,
    {
        let child = &cs[i];
        let ghost prefix = cs@.take(i + 1);
        assert(prefix.drop_last() =~= cs@.take(i as int));
        assert(prefix.last() == *child);
        if child.node_type.is_none() {
            assert(!children_typed(cs@)) by {
                assert(cs@[i as int].node_type is None);
            }
            return None;
        }
        if child.is_element("cpe") {
            cpe = Some(child.content.clone());
        }
        assert(children_typed(prefix)) by {
            assert forall|j: int| 0 <= j < prefix.len() implies (#[trigger] prefix[j]).node_type is Some by {
                if j < i {
                    assert(prefix[j] == cs@.take(i as int)[j]);
                }
            }
        }
        i = i + 1;
    }
    assert(cs@.take(n as int) =~= cs@);
    let product = node.attribute("product");
    let version = node.attribute("version");
    let name = match node.attribute("name") {
        Some(v) => v,
        None => return None,
    };
    let method = match node.attribute("method") {
        Some(v) => v,
        None => return None,
    };
    let conf_text = match node.attribute("conf") {
        Some(v) => v,
        None => return None,
    };
    let conf = match parse_u8(conf_text.as_str()) {
        Some(v) => v,
        None => return None,
    };
    Some(XMLNmapPortService { name, product, method, conf, version, cpe })
}

/// Reads a `service` element.
pub fn parse_service(node: &XmlNode) -> (r: XMLNmapPortService)
    requires
        service_ok(*node),
    ensures
        r@ == service_model(*node),
        ({
            let v = r;
            &&& v.name@ == node.attr_text("name"@)
            &&& v.method@ == node.attr_text("method"@)
            &&& opt_text(v.product) == node.attr("product"@)
            &&& opt_text(v.version) == node.attr("version"@)
        }),
        ({
            let v = r;
            &&& (elements_named(node.children@, "cpe"@).len() == 0 ==> v.cpe is None)
            &&& (elements_named(node.children@, "cpe"@).len() > 0 ==> opt_text(v.cpe) == Some(
                elements_named(node.children@, "cpe"@).last().content@,
            ))
        }),
{
    proof {
        lemma_last_service_and_cpe(node.children@);
    }
    proof {
        lemma_service_reads_its_attributes(*node);
    }
    try_parse_service(node).unwrap()
}

/// The view of an optional value.
pub open spec fn opt_view<T: View>(o: Option<T>) -> Option<T::V> {
    match o {
        Some(v) => Some(v@),
        None => None,
    }
}

/// The view of each script result.
pub open spec fn scripts_view(v: Seq<XMLNmapPortScript>) -> Seq<ScriptModel> {
    v.map_values(|s: XMLNmapPortScript| s@)
}

/// Reads a `port` element, or gives `None` where it cannot be read.
pub fn try_parse_port(node: &XmlNode) -> (r: Option<XMLNmapPort>)
    ensures
        r is Some <==> port_ok(*node),
        r matches Some(v) ==> v@ == port_model(*node),
        r matches Some(v) ==> {
            &&& v.scripts@.len() == elements_named(node.children@, "script"@).len()
            &&& forall|k: int|
                0 <= k < v.scripts@.len() ==> {
                    &&& (#[trigger] v.scripts@[k]).id@ == elements_named(
                        node.children@,
                        "script"@,
                    )[k].attr_text("id"@)
                    &&& v.scripts@[k].output@ == elements_named(node.children@, "script"@)[k].attr_text(
                        "output"@,
                    )
                }
        },
        r matches Some(v) ==> {
            &&& v.protocol@ == node.attr_text("protocol"@)
            &&& v.portid as int == spec_parse_unsigned(node.attr_text("portid"@), 65535).unwrap()
            &&& v.state.state@ == elements_named(node.children@, "state"@).last().attr_text("state"@)
            &&& v.state.reason@ == elements_named(node.children@, "state"@).last().attr_text("reason"@)
            &&& v.state.reason_ttl@ == elements_named(node.children@, "state"@).last().attr_text(
                "reason_ttl"@,
            )
            &&& v.service@ == service_model(elements_named(node.children@, "service"@).last())
        },
{
    proof {
        lemma_port_reads_its_attributes(*node);
    }
    proof {
        lemma_port_scripts_follow_script_children(node.children@);
    }
    let cs = &node.children;
    let n = cs.len();
    let mut state: Option<XMLNmapPortState> = None;
    let mut service: Option<XMLNmapPortService> = None;
    let mut scripts: Vec<XMLNmapPortScript> = Vec::new();
    let mut i: usize = 0;
    while i < n
        invariant
            cs@ == node.children@,
            n == cs@.len(),
            0 <= i <= n,
            opt_view(state) == last_state_in(cs@.take(i as int), "state"@),
            opt_view(service) == last_service_in(cs@.take(i as int)),
            scripts_view(scripts@) == scripts_in(cs@.take(i as int)),
            forall|j: int| 0 <= j < i ==> port_child_ok(#[trigger] cs@[j]),
        decreases n - i,
    {
        let child = &cs[i];
        let ghost prefix = cs@.take(i + 1);
        assert(prefix.drop_last() =~= cs@.take(i as int));
        assert(prefix.last() == *child);
        if child.node_type.is_none() {
            assert(!port_child_ok(cs@[i as int]));
            return None;
        }
        if child.is_element("state") {
            let st = match child.attribute("state") {
                Some(v) => v,
                None => {
                    assert(!port_child_ok(cs@[i as int]));
                    return None;
                },
            };
            let reason = match child.attribute("reason") {
                Some(v) => v,
                None => {
                    assert(!port_child_ok(cs@[i as int]));
                    return None;
                },
            };
            let reason_ttl = match child.attribute("reason_ttl") {
                Some(v) => v,
                None => {
                    assert(!port_child_ok(cs@[i as int]));
                    return None;
                },
            };
            state = Some(XMLNmapPortState { state: st, reason, reason_ttl });
        }
        if child.is_element("service") {
            match try_parse_service(child) {
                Some(v) => {
                    service = Some(v);
                },
                None => {
                    assert(!port_child_ok(cs@[i as int]));
                    return None;
                },
            }
        }
        if child.is_element("script") {
            let id = match child.attribute("id") {
                Some(v) => v,
                None => {
                    assert(!port_child_ok(cs@[i as int]));
                    return None;
                },
            };
            let output = match child.attribute("output") {
                Some(v) => v,
                None => {
                    assert(!port_child_ok(cs@[i as int]));
                    return None;
                },
            };
            let sc = XMLNmapPortScript { id, output };
            assert(scripts_view(scripts@.push(sc)) =~= scripts_view(scripts@).push(sc@));
            scripts.push(sc);
        }
        i = i + 1;
    }
    assert(cs@.take(n as int) =~= cs@);
    let protocol = match node.attribute("protocol") {
        Some(v) => v,
        None => return None,
    };
    let portid_text = match node.attribute("portid") {
        Some(v) => v,
        None => return None,
    };
    let portid = match parse_u16(portid_text.as_str()) {
        Some(v) => v,
        None => return None,
    };
    let state = match state {
        Some(v) => v,
        None => return None,
    };
    let service = match service {
        Some(v) => v,
        None => return None,
    };
    assert forall|k: int| 0 <= k < scripts@.len() implies {
        &&& (#[trigger] scripts@[k]).id@ == elements_named(node.children@, "script"@)[k].attr_text(
            "id"@,
        )
        &&& scripts@[k].output@ == elements_named(node.children@, "script"@)[k].attr_text(
            "output"@,
        )
    } by {
        assert(scripts_view(scripts@)[k] == scripts@[k]@);
    }
    Some(XMLNmapPort { protocol, portid, state, service, scripts })
}

/// Reads a `port` element.
pub fn parse_port(node: &XmlNode) -> (r: XMLNmapPort)
    requires
        port_ok(*node),
    ensures
        r@ == port_model(*node),
        ({
            let v = r;
            &&& v.scripts@.len() == elements_named(node.children@, "script"@).len()
            &&& forall|k: int|
                0 <= k < v.scripts@.len() ==> {
                    &&& (#[trigger] v.scripts@[k]).id@ == elements_named(
                        node.children@,
                        "script"@,
                    )[k].attr_text("id"@)
                    &&& v.scripts@[k].output@ == elements_named(node.children@, "script"@)[k].attr_text(
                        "output"@,
                    )
                }
        }),
        ({
            let v = r;
            &&& v.protocol@ == node.attr_text("protocol"@)
            &&& v.portid as int == spec_parse_unsigned(node.attr_text("portid"@), 65535).unwrap()
            &&& v.state.state@ == elements_named(node.children@, "state"@).last().attr_text("state"@)
            &&& v.state.reason@ == elements_named(node.children@, "state"@).last().attr_text("reason"@)
            &&& v.state.reason_ttl@ == elements_named(node.children@, "state"@).last().attr_text(
                "reason_ttl"@,
            )
            &&& v.service@ == service_model(elements_named(node.children@, "service"@).last())
        }),
{
    proof {
        lemma_port_reads_its_attributes(*node);
    }
    proof {
        lemma_port_scripts_follow_script_children(node.children@);
    }
    try_parse_port(node).unwrap()
}

/// Reads the `port` children of a `ports` element, or gives `None` where one
/// of its children cannot be read.
pub fn try_parse_ports(node: &XmlNode) -> (r: Option<Vec<XMLNmapPort>>)
    ensures
        r is Some <==> ports_ok(node.children@),
        r matches Some(v) ==> ports_view(v@) == ports_in(node.children@),
{
    let cs = &node.children;
    let n = cs.len();
    let mut ports: Vec<XMLNmapPort> = Vec::new();
    let mut i: usize = 0;
    while i < n
        invariant
            cs@ == node.children@,
            n == cs@.len(),
            0 <= i <= n,
            ports_view(ports@) == ports_in(cs@.take(i as int)),
            ports_ok(cs@.take(i as int)),
        decreases n - i,
    {
        let child = &cs[i];
        let ghost prefix = cs@.take(i + 1);
        assert(prefix.drop_last() =~= cs@.take(i as int));
        assert(prefix.last() == *child);
        if child.node_type.is_none() {
            assert(!ports_ok(cs@)) by {
                assert(cs@[i as int].node_type is None);
            }
            return None;
        }
        if child.is_element("port") {
            match try_parse_port(child) {
                Some(p) => {
                    assert(ports_view(ports@.push(p)) =~= ports_view(ports@).push(p@));
                    ports.push(p);
                },
                None => {
                    assert(!ports_ok(cs@)) by {
                        assert(!port_ok(cs@[i as int]));
                    }
                    return None;
                },
            }
        }
        assert(ports_ok(prefix)) by {
            assert forall|j: int| 0 <= j < prefix.len() implies {
                &&& (#[trigger] prefix[j]).node_type is Some
                &&& prefix[j].is_element_named("port"@) ==> port_ok(prefix[j])
            } by {
                if j < i {
                    assert(prefix[j] == cs@.take(i as int)[j]);
                }
            }
        }
        i = i + 1;
    }
    assert(cs@.take(n as int) =~= cs@);
    Some(ports)
}

/// Reads the `port` children of a `ports` element.
pub fn parse_ports(node: &XmlNode) -> (r: Vec<XMLNmapPort>)
    requires
        ports_ok(node.children@),
    ensures
        ports_view(r@) == ports_in(node.children@),
{
    try_parse_ports(node).unwrap()
}

/// Reads a host's `status` element, or gives `None` where it lacks one of
/// the attributes of a state.
pub fn try_parse_status(node: &XmlNode) -> (r: Option<XMLNmapHostStatus>)
    ensures
        r is Some <==> state_ok(*node),
        r matches Some(v) ==> v@ == state_model(*node),
        r matches Some(v) ==> {
            &&& v.state@ == node.attr_text("state"@)
            &&& v.reason@ == node.attr_text("reason"@)
            &&& v.reason_ttl@ == node.attr_text("reason_ttl"@)
        },
{
    proof {
        lemma_state_reads_its_attributes(*node);
    }
    let state = match node.attribute("state") {
        Some(v) => v,
        None => return None,
    };
    let reason = match node.attribute("reason") {
        Some(v) => v,
        None => return None,
    };
    let reason_ttl = match node.attribute("reason_ttl") {
        Some(v) => v,
        None => return None,
    };
    Some(XMLNmapHostStatus { state, reason, reason_ttl })
}

/// Reads a host's `status` element.
pub fn parse_status(node: &XmlNode) -> (r: XMLNmapHostStatus)
    requires
        state_ok(*node),
    ensures
        r@ == state_model(*node),
        ({
            let v = r;
            &&& v.state@ == node.attr_text("state"@)
            &&& v.reason@ == node.attr_text("reason"@)
            &&& v.reason_ttl@ == node.attr_text("reason_ttl"@)
        }),
{
    proof {
        lemma_state_reads_its_attributes(*node);
    }
    try_parse_status(node).unwrap()
}

/// Reads a `host` element, or gives `None` where it cannot be read.
pub fn try_parse_host(node: &XmlNode) -> (r: Option<XMLNmapHost>)
    ensures
        r is Some <==> host_ok(*node),
        r matches Some(v) ==> v@ == host_model(*node),
        r is Some <==> {
            &&& forall|i: int|
                0 <= i < node.children@.len() ==> host_child_ok(#[trigger] node.children@[i])
            &&& elements_named(node.children@, "status"@).len() > 0
            &&& node.has_attr("starttime"@)
            &&& node.has_attr("endtime"@)
        },
        r matches Some(v) ==> {
            &&& v.starttime@ == node.attr_text("starttime"@)
            &&& v.endtime@ == node.attr_text("endtime"@)
            &&& elements_named(node.children@, "ports"@).len() == 0 ==> v.ports@.len() == 0
        },
        r matches Some(v) ==> {
            &&& v.status.state@ == elements_named(node.children@, "status"@).last().attr_text("state"@)
            &&& v.status.reason@ == elements_named(node.children@, "status"@).last().attr_text(
                "reason"@,
            )
            &&& v.status.reason_ttl@ == elements_named(node.children@, "status"@).last().attr_text(
                "reason_ttl"@,
            )
        },
{
    proof {
        lemma_host_status_is_last_status_child(*node);
    }
    proof {
        lemma_host_is_read_without_ports(*node);
    }
    let cs = &node.children;
    let n = cs.len();
    let mut status: Option<XMLNmapHostStatus> = None;
    let mut hostnames: Vec<XMLNmapHostname> = Vec::new();
    let mut ports: Vec<XMLNmapPort> = Vec::new();
    let mut i: usize = 0;
    while i < n
        invariant
            cs@ == node.children@,
            n == cs@.len(),
            0 <= i <= n,
            opt_view(status) == last_state_in(cs@.take(i as int), "status"@),
            hostnames_view(hostnames@) == host_hostnames(cs@.take(i as int)),
            ports_view(ports@) == host_ports(cs@.take(i as int)),
            forall|j: int| 0 <= j < i ==> host_child_ok(#[trigger] cs@[j]),
        decreases n - i,
    {
        let child = &cs[i];
        let ghost prefix = cs@.take(i + 1);
        assert(prefix.drop_last() =~= cs@.take(i as int));
        assert(prefix.last() == *child);
        if child.node_type.is_none() {
            assert(!host_child_ok(cs@[i as int]));
            return None;
        }
        if child.is_element("status") {
            match try_parse_status(child) {
                Some(v) => {
                    status = Some(v);
                },
                None => {
                    assert(!host_child_ok(cs@[i as int]));
                    return None;
                },
            }
        }
        if child.is_element("hostnames") {
            match try_parse_hostnames(child) {
                Some(mut v) => {
                    let ghost more = v@;
                    assert(hostnames_view(hostnames@ + more) =~= hostnames_view(hostnames@)
                        + hostnames_view(more));
                    hostnames.append(&mut v);
                },
                None => {
                    assert(!host_child_ok(cs@[i as int]));
                    return None;
                },
            }
        }
        if child.is_element("ports") {
            match try_parse_ports(child) {
                Some(mut v) => {
                    let ghost more = v@;
                    assert(ports_view(ports@ + more) =~= ports_view(ports@) + ports_view(more));
                    ports.append(&mut v);
                },
                None => {
                    assert(!host_child_ok(cs@[i as int]));
                    return None;
                },
            }
        }
        i = i + 1;
    }
    assert(cs@.take(n as int) =~= cs@);
    let starttime = match node.attribute("starttime") {
        Some(v) => v,
        None => return None,
    };
    let endtime = match node.attribute("endtime") {
        Some(v) => v,
        None => return None,
    };
    let status = match status {
        Some(v) => v,
        None => return None,
    };
    Some(XMLNmapHost { starttime, endtime, status, hostnames, ports })
}

/// Reads a `host` element.
pub fn parse_host(node: &XmlNode) -> (r: XMLNmapHost)
    requires
        host_ok(*node),
    ensures
        r@ == host_model(*node),
        ({
            let v = r;
            &&& v.starttime@ == node.attr_text("starttime"@)
            &&& v.endtime@ == node.attr_text("endtime"@)
            &&& elements_named(node.children@, "ports"@).len() == 0 ==> v.ports@.len() == 0
        }),
        ({
            let v = r;
            &&& v.status.state@ == elements_named(node.children@, "status"@).last().attr_text("state"@)
            &&& v.status.reason@ == elements_named(node.children@, "status"@).last().attr_text(
                "reason"@,
            )
            &&& v.status.reason_ttl@ == elements_named(node.children@, "status"@).last().attr_text(
                "reason_ttl"@,
            )
        }),
{
    proof {
        lemma_host_status_is_last_status_child(*node);
    }
    proof {
        lemma_host_is_read_without_ports(*node);
    }
    try_parse_host(node).unwrap()
}

/// The view of each host.
pub open spec fn hosts_view(v: Seq<XMLNmapHost>) -> Seq<HostModel> {
    v.map_values(|h: XMLNmapHost| h@)
}

/// Reads an `nmaprun` element, or gives `None` where it cannot be read.
pub fn try_parse_run(node: &XmlNode) -> (r: Option<XMLNmapRun>)
    ensures
        r is Some <==> run_ok(*node),
        r matches Some(v) ==> v@ == run_model(*node),
        r matches Some(v) ==> {
            &&& v.scanner@ == node.attr_text("scanner"@)
            &&& v.args@ == node.attr_text("args"@)
            &&& v.start@ == node.attr_text("start"@)
            &&& v.startstr@ == node.attr_text("startstr"@)
            &&& v.version@ == node.attr_text("version"@)
            &&& v.xmloutputversion@ == node.attr_text("xmloutputversion"@)
            &&& v.hosts@.len() == elements_named(node.children@, "host"@).len()
        },
{
    proof {
        lemma_run_reads_its_attributes_and_hosts(*node);
    }
    let cs = &node.children;
    let n = cs.len();
    let mut hosts: Vec<XMLNmapHost> = Vec::new();
    let mut i: usize = 0;
    while i < n
        invariant
            cs@ == node.children@,
            n == cs@.len(),
            0 <= i <= n,
            hosts_view(hosts@) == hosts_in(cs@.take(i as int)),
            forall|j: int|
                0 <= j < i ==> {
                    &&& (#[trigger] cs@[j]).node_type is Some
                    &&& cs@[j].is_element_named("host"@) ==> host_ok(cs@[j])
                },
        decreases n - i,
    {
        let child = &cs[i];
        let ghost prefix = cs@.take(i + 1);
        assert(prefix.drop_last() =~= cs@.take(i as int));
        assert(prefix.last() == *child);
        if child.node_type.is_none() {
            assert(cs@[i as int].node_type is None);
            return None;
        }
        if child.is_element("host") {
            match try_parse_host(child) {
                Some(h) => {
                    assert(hosts_view(hosts@.push(h)) =~= hosts_view(hosts@).push(h@));
                    hosts.push(h);
                },
                None => {
                    assert(!host_ok(cs@[i as int]));
                    return None;
                },
            }
        }
        i = i + 1;
    }
    assert(cs@.take(n as int) =~= cs@);
    let scanner = match node.attribute("scanner") {
        Some(v) => v,
        None => return None,
    };
    let args = match node.attribute("args") {
        Some(v) => v,
        None => return None,
    };
    let start = match node.attribute("start") {
        Some(v) => v,
        None => return None,
    };
    let startstr = match node.attribute("startstr") {
        Some(v) => v,
        None => return None,
    };
    let version = match node.attribute("version") {
        Some(v) => v,
        None => return None,
    };
    let xmloutputversion = match node.attribute("xmloutputversion") {
        Some(v) => v,
        None => return None,
    };
    Some(XMLNmapRun { scanner, args, start, startstr, version, xmloutputversion, hosts })
}

/// Reads an `nmaprun` element.
pub fn parse_run(node: &XmlNode) -> (r: XMLNmapRun)
    requires
        run_ok(*node),
    ensures
        r@ == run_model(*node),
        ({
            let v = r;
            &&& v.scanner@ == node.attr_text("scanner"@)
            &&& v.args@ == node.attr_text("args"@)
            &&& v.start@ == node.attr_text("start"@)
            &&& v.startstr@ == node.attr_text("startstr"@)
            &&& v.version@ == node.attr_text("version"@)
            &&& v.xmloutputversion@ == node.attr_text("xmloutputversion"@)
            &&& v.hosts@.len() == elements_named(node.children@, "host"@).len()
        }),
{
    proof {
        lemma_run_reads_its_attributes_and_hosts(*node);
    }
    try_parse_run(node).unwrap()
}

/// Reads the root of a report: the run where it is an `nmaprun` element,
/// `None` for any other node.
pub fn parse_root(node: &XmlNode) -> (r: Option<XMLNmapRun>)
    requires
        root_ok(*node),
    ensures
        opt_view(r) == root_model(*node),
        r matches Some(v) ==> {
            &&& v.scanner@ == node.attr_text("scanner"@)
            &&& v.args@ == node.attr_text("args"@)
            &&& v.start@ == node.attr_text("start"@)
            &&& v.startstr@ == node.attr_text("startstr"@)
            &&& v.version@ == node.attr_text("version"@)
            &&& v.xmloutputversion@ == node.attr_text("xmloutputversion"@)
            &&& v.hosts@.len() == elements_named(node.children@, "host"@).len()
        },
{
    proof {
        lemma_run_reads_its_attributes_and_hosts(*node);
    }
    match node.node_type {
        Some(XmlNodeType::Element) => {
            if node.is_element("nmaprun") {
                Some(parse_run(node))
            } else {
                None
            }
        },
        Some(XmlNodeType::Text) => None,
        _ => None,
    }
}

/// Reads the root of a report, as `parse_root` does, or gives `None` where
/// `parse_root` cannot read it; `Some(None)` where the root is no `nmaprun`
/// element.
pub fn try_parse_root(node: &XmlNode) -> (r: Option<Option<XMLNmapRun>>)
    ensures
        r is Some <==> root_ok(*node),
        r matches Some(run) ==> opt_view(run) == root_model(*node),
        r matches Some(Some(v)) ==> {
            &&& v.scanner@ == node.attr_text("scanner"@)
            &&& v.args@ == node.attr_text("args"@)
            &&& v.start@ == node.attr_text("start"@)
            &&& v.startstr@ == node.attr_text("startstr"@)
            &&& v.version@ == node.attr_text("version"@)
            &&& v.xmloutputversion@ == node.attr_text("xmloutputversion"@)
            &&& v.hosts@.len() == elements_named(node.children@, "host"@).len()
        },
{
    proof {
        lemma_run_reads_its_attributes_and_hosts(*node);
    }
    if node.node_type.is_none() {
        return None;
    }
    if node.is_element("nmaprun") {
        match try_parse_run(node) {
            Some(run) => Some(Some(run)),
            None => None,
        }
    } else {
        Some(None)
    }
}

// ---------------------------------------------------------------------
// nmap command lines.

/// The text of each string.
pub open spec fn strings_view(v: Seq<String>) -> Seq<Seq<char>> {
    v.map_values(|s: String| s@)
}

impl Scanner {
    /// The arguments of nmap for a full scan of the host `ip` (as text) whose
    /// XML report goes to `path`: OS and version detection, every port. The
    /// output option and the path stand in one argument, joined by a space.
    pub fn host_scan_args(ip: &str, path: &str) -> (args: Vec<String>)
        ensures
            strings_view(args@) == seq!["-A"@, "-p-"@, ip@, "-oX"@ + seq![' '] + path@],
    {
        let mut output = String::from_str("-oX");
        output.append(" ");
        output.append(path);
        let mut args: Vec<String> = Vec::new();
        args.push(String::from_str("-A"));
        args.push(String::from_str("-p-"));
        args.push(String::from_str(ip));
        args.push(output);
        proof {
            reveal_strlit(" ");
            assert(" "@ =~= seq![' ']);
        }
        assert(strings_view(args@) =~= seq!["-A"@, "-p-"@, ip@, "-oX"@ + seq![' '] + path@]);
        args
    }

    /// The arguments of nmap for a ping sweep of the network `cidr` whose XML
    /// report goes to `path`.
    pub fn net_ping_args(cidr: &Cidr, path: &str) -> (args: Vec<String>)
        requires
            cidr.wf(),
        ensures
            strings_view(args@) == seq!["-sP"@, cidr_text(*cidr), "-oX"@, path@],
    {
        let mut args: Vec<String> = Vec::new();
        args.push(String::from_str("-sP"));
        args.push(cidr_to_text(cidr));
        args.push(String::from_str("-oX"));
        args.push(String::from_str(path));
        assert(strings_view(args@) =~= seq!["-sP"@, cidr_text(*cidr), "-oX"@, path@]);
        args
    }
}

} // verus!

//! Planning and bookkeeping for network reconnaissance: a verified reader
//! for nmap XML reports, the network model of a project, the nmap command
//! lines it runs, and the decisions of the session event loop.

pub mod decimal;
pub mod xml;
pub mod cidr;
pub mod network;
pub mod project;

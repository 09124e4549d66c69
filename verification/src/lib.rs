//! Rancher on AWS: the rules, parsers, reports and plans behind the `roa` command line tool.

pub mod text;
pub mod number;
pub mod json;
pub mod report;
pub mod sections;
pub mod on_box;
pub mod versions;
pub mod ports;
pub mod cidr;
pub mod repo;
pub mod cluster;
pub mod clock;
pub mod channels;
pub mod charts;
pub mod snapshot;
pub mod instance;
pub mod maintain;
pub mod poll;
pub mod network;
pub mod terminate;
pub mod substitution;
pub mod user_data;
pub mod provision;

//! Verified core of a Kubernetes and file log viewer: the rules, lookups,
//! orderings and text handling behind the viewer's windows.

pub mod text;
pub mod compare;
pub mod log_worker;
pub mod kube_config;
pub mod regex_ops;
pub mod rules;
pub mod kube_reader;
pub mod model;
pub mod pods;
pub mod search;
pub mod assoc;
pub mod overview;
pub mod color;
pub mod navigation;
pub mod match_select;
pub mod log_file;
pub mod extract;
pub mod config;
pub mod dirs;
pub mod error;
pub mod kube_client;
pub mod log_stream;
pub mod log_view;
pub mod rule_list;

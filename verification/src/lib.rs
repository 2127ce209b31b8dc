//! Verified core of a multi-protocol proxy node.

pub mod text;
pub mod text_laws;
pub mod numeral;
pub mod address;
pub mod ipv6;
pub mod address_laws;
pub mod table;
pub mod order;
pub mod user;
pub mod delta;
pub mod user_laws;
pub mod delta_laws;
pub mod keyed_delta_laws;
pub mod traffic;
pub mod traffic_laws;
pub mod error;
pub mod wire;
pub mod target;
pub mod target_laws;
pub mod config;
pub mod route;
pub mod socks5;
pub mod socks5_laws;
pub mod crypto;
pub mod shadowsocks;
pub mod shadowsocks_server;
pub mod shadowsocks_laws;
pub mod tls;
pub mod relay;
pub mod socket_bind;
pub mod stream;
pub mod trojan;
pub mod trojan_server;
pub mod keyed_laws;
pub mod user_step_laws;
pub mod trojan_outbound;
pub mod trojan_laws;
pub mod tuic;
pub mod tuic_fragments;
pub mod tuic_server;
pub mod tuic_laws;
pub mod service_config;
pub mod config_laws;
pub mod listener_binds;
pub mod service_error;
pub mod listener_plan;
pub mod listener_laws;
pub mod reality;
pub mod fingerprints;
pub mod connection_workers;
pub mod refusal_laws;
pub mod relay_laws;
pub mod backoff;
pub mod view_laws;
pub mod partial_laws;
pub mod tls_laws;
pub mod service;
pub mod service_laws;
pub mod service_step_laws;

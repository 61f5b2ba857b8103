//! Verified core of the Relay proxy manager.
pub mod text;
pub mod proxy_type;
pub mod proxy_lists;
pub mod codec;
pub mod local_proxy;
pub mod anonymity_check;
pub mod proxy_chain;
pub mod cred_encrypt;
pub mod speed_test;
pub mod geoip;
pub mod proxy_instance;
pub mod proxy_manager;
pub mod discovery;
pub mod tls_fingerprint;
pub mod dns_resolver;
pub mod kill_switch;
pub mod settings;
pub mod scheduler;
pub mod split_tunnel;
pub mod profiles;
pub mod port_kill;
pub mod system_proxy;
pub mod proxy_cache;
pub mod leak_test;
pub mod notifications;
pub mod import_export;
pub mod plugin_sdk;
pub mod plugin_manager;
pub mod builtin_plugins;
pub mod sources;
pub mod cli;

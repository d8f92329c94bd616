//! Kubevent: filtering, conversion and delivery of Kubernetes events as
//! CloudEvents, driven by `Rule`, `Broker` and `RuleBinding` resources.
pub mod keyed;
pub mod crd;
pub mod resource;
pub mod event;
pub mod rules;
pub mod brokers;
pub mod watcher;
pub mod config;

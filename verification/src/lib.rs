//! Verified core of a task-automation service: it builds query URLs for a
//! REST backend, shapes the task table it returns, and drives the retry of
//! provisioning tasks.
pub mod text;
pub mod model;
pub mod httprequests;
pub mod types;
pub mod error;
pub mod dataendpoint;
pub mod config;
pub mod datetime;
pub mod pattern;
pub mod datapolars;
pub mod db;
pub mod grpcserver;
pub mod file;

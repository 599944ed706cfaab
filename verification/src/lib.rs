//! The logic of a desktop monitor for the Codex limits of several ChatGPT accounts.

pub mod account;
pub mod account_switch;
pub mod app;
pub mod app_server;
pub mod codex_locator;
pub mod desktop_host;
pub mod error;
pub mod ids;
pub mod json;
pub mod logging;
pub mod paths;
pub mod protocol;
pub mod rate_limits;
pub mod storage;
pub mod text;
pub mod time;
pub mod ui;
pub mod worker;

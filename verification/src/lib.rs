//! Usage-monitor logic for AI coding agents: calendar and timestamp arithmetic, JSON reading,
//! rate-limit windows, usage statistics and the widget's placement rules.
pub mod calendar;
pub mod text;
pub mod timestamps;
pub mod json;
pub mod providers;
pub mod tally;
pub mod sorting;
pub mod claude_limits;
pub mod claude_refresh;
pub mod claude_stats;
pub mod codex_limits;
pub mod codex_stats;
pub mod rpc;
pub mod widget;
pub mod login_item;

//! The planning and decision logic of the `dji-log` command-line tool: which log files to decode
//! and where their JSON goes, which DJI API key to use, how keychain fetches are retried under
//! other departments, how a run over several files goes on past failures, and what the tool
//! reports.

pub mod text;
pub mod api_key;
pub mod paths;
pub mod output;
pub mod keychains;
pub mod report;
pub mod run;

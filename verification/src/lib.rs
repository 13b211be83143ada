//! Verified core of the Itasha.Corp provisioning installer: the issue-intake
//! dialog, the crash-report consent queue and transport selection, the install
//! engine's command builders and payload reader, and the console's text layout.

pub mod text;
pub mod issue_intake;
pub mod reporting;
pub mod console;
pub mod engine;
pub mod theme;
pub mod payload;

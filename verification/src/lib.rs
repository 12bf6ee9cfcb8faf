//! How Windows and Office are activated on this machine: reading back what the
//! licensing query printed, naming and ordering what it found, and deciding
//! what the module shows and answers.
//!
//! ```text
//!   text     characters: trimming, splitting, joining, replacing, numbers
//!   catalog  the module's own words, in English and Ukrainian
//!   license  one licence, and what its status code means
//!   order    the order licences are shown in
//!   store    the query, and reading back what it printed
//!   widget   what a screen is made of
//!   view     everything the module draws
//!   report   handing the last scan to a report provider
//!   handler  what is remembered between calls, and what each call decides
//! ```

pub mod catalog;
pub mod handler;
pub mod license;
pub mod order;
pub mod report;
pub mod sorting;
pub mod store;
pub mod text;
pub mod view;
pub mod widget;

pub use catalog::{keys, tr};
pub use handler::{LicensesAnswer, MsLicenses, OemPoll, OemStart, ReadError};
pub use license::{Fact, Flags, License, Scalar, status_name};
pub use order::sort_licenses;
pub use report::{Chart, ReportSpec, Section, delivered, failed_view, nothing_view, report_spec};
pub use store::{oem_argv, oem_key_from, parse, query};
pub use view::{CAP, authorizing_view, cells, columns, error_view, idle_view, results_view};
pub use widget::{Action, Button, Level, Modal, Notice, Style, Widget, Window};

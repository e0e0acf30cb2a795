//! The decision logic of the OneClient launcher's app views: package and
//! version lists, the instance wizard, installed-content bookkeeping and the
//! text the views show.
pub mod naming;
pub mod text;
pub mod domain;
pub mod installed;
pub mod packages;
pub mod order;
pub mod wizard;
pub mod picks;
pub mod logs;
pub mod browse;
pub mod clusters;
pub mod analytics;
pub mod servers;
pub mod accounts;
pub mod details;
pub mod folders;
pub mod screenshots;
pub mod debug;
pub mod people;
pub mod dialog;
pub mod settings;
pub mod package_page;
pub mod gallery;

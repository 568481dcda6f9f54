//! Spiral: the decision cores of Spiral Clean and Spiral Wallpaper, verified.

pub mod text;
pub mod escalate;
pub mod paths;
pub mod catalog;
pub mod fsview;
pub mod exclude;
pub mod remove;
pub mod order;
pub mod volume;
pub mod json;
pub mod optimize;
pub mod plist;
pub mod health;
pub mod associate;
pub mod lipo;
pub mod receipts;
pub mod backups;
pub mod apps;
pub mod commands;
pub mod scan;
pub mod history;
pub mod wallpaper;
pub mod analyze;

pub mod amount;
pub mod auth;
pub mod choice;
pub mod config;
pub mod exposure;
pub mod feedback;
pub mod imark;
pub mod journals;
pub mod listing;
pub mod marking;
pub mod order;
pub mod scheme;
pub mod screens;
pub mod task;
pub mod text;

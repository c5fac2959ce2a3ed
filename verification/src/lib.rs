pub mod action;
pub mod config;
pub mod counter;
pub mod darksouls;
pub mod debounce;
pub mod detector;
pub mod image;

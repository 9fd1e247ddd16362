//! The verified core of the `glass` notification daemon.

pub mod config;
pub mod event;
pub mod text;
pub mod action;
pub mod slots;
pub mod app_state;
pub mod stack_laws;
pub mod notifications;
pub mod ink;
pub mod single;
pub mod raster;
pub mod region;
pub mod layout;
pub mod card;
pub mod desktop;
pub mod icon_search;
pub mod icon;
pub mod raster_laws;
pub mod icon_laws;
pub mod service_laws;
pub mod text_laws;
pub mod search_laws;
pub mod step_laws;
pub mod tick_laws;
pub mod draw_laws;
pub mod shape_laws;
pub mod card_laws;
pub mod call_laws;

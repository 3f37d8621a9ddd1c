//! The verified logic of the pebbles widget catalog: text editing and input
//! masks, routing, the calendar, menus and keyboard navigation, the overlay
//! services and the window request queues.
pub mod side;
pub mod text;
pub mod num;
pub mod text_field;
pub mod date_format;
pub mod time_field;
pub mod editor;
pub mod routing;
pub mod calendar;
pub mod per_window;
pub mod dialog;
pub mod sheet;
pub mod overlay;
pub mod toast;
pub mod window;
pub mod list_nav;
pub mod menu;
pub mod native_menu;
pub mod global_menu;
pub mod otp;
pub mod nav;
pub mod components;
pub mod theme;
pub mod selection;
pub mod search;
pub mod image;
pub mod press;

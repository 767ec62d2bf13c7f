//! Umbral monitors the classrooms of a university department through
//! sensors. This library holds the application's logic: the settings and
//! how the settings dialog changes them, the list of registered cameras, the
//! status each classroom's card shows, the sensors' status messages, the MAC
//! address field of the "add classroom" form, the steps of registering a
//! camera with Firebase, and the news slideshow.
pub mod classrooms;
pub mod devices;
pub mod firebase;
pub mod json;
pub mod mac;
pub mod mqtt;
pub mod news;
pub mod settings;
pub mod state;
pub mod text;

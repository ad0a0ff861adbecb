//! Rendering engine of an RGBW LED controller.
//!
//! Colours are fixed-point (`color`); sequences of frames are built from
//! fades, breakpoints and gradient images (`led_sequence`, `sequence_name`,
//! `gradient_image`, `median_filter`); the shared state and the render
//! loop's steps are in `led_state` and `led_system`; the wire protocol to
//! the microcontroller is in `serial_manager`, and the room relays in
//! `rooms`.

pub mod color;
pub mod gradient_image;
pub mod led_sequence;
pub mod led_state;
pub mod led_system;
pub mod median_filter;
pub mod rooms;
pub mod sequence_name;
pub mod serial_manager;

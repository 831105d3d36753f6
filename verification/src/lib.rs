//! Frame buffer, refresh planning and colour conversion for e-paper panels
//! driven by one SSD1683 controller, or by two of them in cascade.
//!
//! Nothing here touches a bus or a pin. [`Graphics`] keeps the frame buffers,
//! decides which kind of refresh an update needs, and lays the refresh out as a
//! [`Script`]: the ordered list of resets, commands and data transfers that the
//! caller performs one after the other, stopping at the first that fails.
pub mod color;
pub mod command;
pub mod config;
pub mod graphics;
pub mod laws;
pub mod meaning;
pub mod model;
pub mod protocol;
pub mod script;
pub mod tools;

pub use crate::config::{CascadeConfig, Config, Rotation};
pub use crate::graphics::{buffer_size, Graphics};
pub use crate::script::{Script, Step};

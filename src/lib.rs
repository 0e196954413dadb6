//! Crash-dump acquisition and reconstruction for Hubris targets: the on-device
//! dump-area format, the virtual core that a dump reassembles into, the reading
//! of dump areas through a dump agent, and the decisions that drive a dump;
//! besides, the tool's logger and the flash security settings of the STM32H7.

pub mod areas;
pub mod compression;
pub mod error;
pub mod format;
pub mod hiffy;
pub mod layout;
pub mod logging;
pub mod orchestrate;
pub mod reader;
pub mod reassemble;
pub mod stm32h7;
pub mod vcore;

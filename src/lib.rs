//! Structural checks for PlantUML activity markup embedded in text files.
//!
//! The library splits a file into `@startuml` / `@enduml` sections, checks
//! each line against statement rules and checks that paired constructs
//! (`if`/`endif`, `switch`/`endswitch`, loops, `fork`, `split`) are nested
//! and closed. Every check is a pure function of the lines it is given.

pub mod pattern;
pub mod text;
pub mod diagnostic;
pub mod rules;
pub mod section;
pub mod file;

//! What the operations do, stated of what goes in and what comes out.
pub mod cameras;
pub mod cells;
pub mod choices;
pub mod drawing;
pub mod layout;
pub mod numerals;
pub mod playing;
pub mod program;
pub mod recorded;
pub mod rendering;
pub mod screens;
pub mod shades;
pub mod turning;

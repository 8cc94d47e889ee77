//! The verified core of a keyboard driven viewer for Typst and Markdown documents.
//!
//! - From Markdown to Typst: [`event`], [`escape`], [`html`], [`table`], [`render`], [`markdown`],
//!   and [`balance`] and [`nesting`] for what holds of all markup.
//! - The text of pages: [`selection`], [`search`].
//! - The viewer: [`viewer`] decides, [`labels`] writes, [`canvas`], [`bar`], [`picture`] and
//!   [`paint`] draw.
//! - The program around it: [`args`], [`session`].
pub mod args;
pub mod balance;
pub mod bar;
pub mod canvas;
pub mod chars;
pub mod escape;
pub mod event;
pub mod html;
pub mod labels;
pub mod markdown;
pub mod nesting;
pub mod paint;
pub mod picture;
pub mod render;
pub mod search;
pub mod selection;
pub mod session;
pub mod table;
pub mod viewer;

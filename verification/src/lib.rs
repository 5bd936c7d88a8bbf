//! Verified core of a single-owner media hosting service.
//!
//! Uploaded images are checked against their declared type, given a thumbnail
//! where they are larger than the thumbnail box, registered under a fresh
//! short identifier and stored next to their record; later they are looked
//! up, listed, updated and deleted by that identifier.
//!
//! - [`action::media`] validates uploads, derives thumbnails and encodes
//!   images; [`action::identifier`] draws identifiers;
//!   [`action::database`] holds the table of records and reserves records
//!   in it, over the mathematics of [`action::relation`];
//!   [`action::artifact`] names and stores the files.
//! - [`lifecycle`] takes a medium from upload to removal and keeps records
//!   and files together.
//! - [`action::session`], [`api`], [`web`], [`middleware`], [`template`],
//!   [`link`] and [`application`] hold what the server around the library
//!   decides for its requests: tokens, authorization, sign-in, addresses
//!   and shutdown.
//! - [`text`] and [`number`] are the helpers on strings and decimal numbers
//!   that the rest is stated over.

pub mod action;
pub mod api;
pub mod application;
pub mod entity;
pub mod lifecycle;
pub mod link;
pub mod middleware;
pub mod number;
pub mod template;
pub mod text;
pub mod web;

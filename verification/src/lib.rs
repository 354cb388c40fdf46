//! A small forum: what it decides, apart from where it stores and serves it.
use vstd::prelude::*;

pub mod articles;
pub mod auth;
pub mod authz;
pub mod clock;
pub mod codec;
pub mod complaints;
pub mod config;
pub mod db;
pub mod export;
pub mod i18n;
pub mod laws;
pub mod live;
pub mod markup;
pub mod media;
pub mod mentions;
pub mod notify;
pub mod order;
pub mod text;
pub mod tree;
pub mod web;

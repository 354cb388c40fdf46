//! What the library is for, said once more in other words: each law here builds
//! what goes in and says what has to come out, without looking at how it is
//! worked out.
pub mod answers;
pub mod articles;
pub mod codec;
pub mod config;
pub mod door;
pub mod events;
pub mod inbox;
pub mod layout;
pub mod markup;
pub mod media;
pub mod models;
pub mod notice;
pub mod pages;
pub mod people;
pub mod scim;
pub mod search;
pub mod text;
pub mod threads;
pub mod told;
pub mod topics;
pub mod work;

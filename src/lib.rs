//! A bounded birthday book: named day/month records, validated on insertion
//! and queried by exact date.

pub mod validator;
pub mod birthdays;
pub mod menu;

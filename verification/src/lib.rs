//! A verified reader and writer for a part of the IMAP grammar: access
//! control lists, NOTIFY, URLAUTH, object identifiers, extended LIST,
//! extended SEARCH and sequence sets, together with the value types that
//! these commands and responses carry.

pub mod chars;
pub mod rule;
pub mod num;
pub mod strings;
pub mod vec1;
pub mod objectid;
pub mod uidplus;
pub mod sequence;
pub mod date;
pub mod search;
pub mod search_return;
pub mod status;
pub mod mailbox;
pub mod fetch;
pub mod notify;
pub mod body;
pub mod urlauth;
pub mod command;
pub mod acl;
pub mod response;

pub mod text;

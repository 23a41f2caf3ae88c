//! Verified core of a mail-driven one-time-passphrase login tool.
//!
//! The library holds the pure logic of the workflow: extracting a
//! passphrase from an email body, normalizing user-supplied passphrase
//! input, deciding each step of the bounded mailbox-polling loop, the
//! credential-exchange state machine, and the recursive merge used when
//! a credential record is persisted. All I/O (IMAP, HTTP, files, the
//! CLI) lives outside the library and hands plain values in and out.

pub mod strutil;

pub mod config;

pub mod email;

pub mod exchange;

pub mod otp;

pub mod poll;

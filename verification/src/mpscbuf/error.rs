//! What can go wrong with a ring buffer.

use crate::text::{decimal, push_decimal, signed_decimal, push_signed_decimal};
use vstd::prelude::*;

verus! {

/// An error of the ring buffer; a failed system call by its error number.
#[derive(Debug)]
pub enum MpscBufError {
    SizeTooSmall(usize),
    SizeNotAligned(usize),
    MmapFailed(i32),
    MprotectFailed(i32),
    /// The producer position after the reservation, the consumer position, and
    /// the size mask.
    InsufficientSpace(u64, u64, u64),
    InvalidRecordSize(usize),
    EventfdCreation(String),
    EventfdWrite(String),
    EventfdRead(String),
    IoError(String),
    LockTimeout,
}

impl MpscBufError {
    /// The text of the error.
    pub open spec fn text(&self) -> Seq<char> {
        match *self {
            MpscBufError::SizeTooSmall(n) => "size must be at least twice the page size ("@
                + decimal(n as nat) + " bytes)"@,
            MpscBufError::SizeNotAligned(n) => "size must be a multiple of page size ("@ + decimal(
                n as nat,
            ) + " bytes)"@,
            MpscBufError::MmapFailed(n) => "memory mapping failed: "@ + signed_decimal(n as int),
            MpscBufError::MprotectFailed(n) => "memory protection failed: "@ + signed_decimal(
                n as int,
            ),
            MpscBufError::InsufficientSpace(p, c, s) =>
                "insufficient space in ring buffer. producer position: "@ + decimal(p as nat)
                + ", consumer position: "@ + decimal(c as nat) + ", data size: "@ + decimal(
                s as nat,
            ),
            MpscBufError::InvalidRecordSize(n) => "invalid record size: "@ + decimal(n as nat),
            MpscBufError::EventfdCreation(s) => "eventfd creation failed: "@ + s@,
            MpscBufError::EventfdWrite(s) => "eventfd write failed: "@ + s@,
            MpscBufError::EventfdRead(s) => "eventfd read failed: "@ + s@,
            MpscBufError::IoError(s) => "I/O error: "@ + s@,
            MpscBufError::LockTimeout => "failed to acquire spinlock within timeout"@,
        }
    }

    pub fn to_text(&self) -> (r: String)
        ensures
            r@ == self.text(),
    {
        match self {
            MpscBufError::SizeTooSmall(n) => {
                let mut r = "size must be at least twice the page size (".to_owned();
                push_decimal(&mut r, *n as u64);
                r.append(" bytes)");
                r
            },
            MpscBufError::SizeNotAligned(n) => {
                let mut r = "size must be a multiple of page size (".to_owned();
                push_decimal(&mut r, *n as u64);
                r.append(" bytes)");
                r
            },
            MpscBufError::MmapFailed(n) => {
                let mut r = "memory mapping failed: ".to_owned();
                push_signed_decimal(&mut r, *n as i64);
                r
            },
            MpscBufError::MprotectFailed(n) => {
                let mut r = "memory protection failed: ".to_owned();
                push_signed_decimal(&mut r, *n as i64);
                r
            },
            MpscBufError::InsufficientSpace(p, c, s) => {
                let mut r = "insufficient space in ring buffer. producer position: ".to_owned();
                push_decimal(&mut r, *p);
                r.append(", consumer position: ");
                push_decimal(&mut r, *c);
                r.append(", data size: ");
                push_decimal(&mut r, *s);
                r
            },
            MpscBufError::InvalidRecordSize(n) => {
                let mut r = "invalid record size: ".to_owned();
                push_decimal(&mut r, *n as u64);
                r
            },
            MpscBufError::EventfdCreation(s) => "eventfd creation failed: ".to_owned().concat(
                s.as_str(),
            ),
            MpscBufError::EventfdWrite(s) => "eventfd write failed: ".to_owned().concat(s.as_str()),
            MpscBufError::EventfdRead(s) => "eventfd read failed: ".to_owned().concat(s.as_str()),
            MpscBufError::IoError(s) => "I/O error: ".to_owned().concat(s.as_str()),
            MpscBufError::LockTimeout => "failed to acquire spinlock within timeout".to_owned(),
        }
    }
}

} // verus!

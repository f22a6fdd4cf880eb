//! Frames as the capture layer hands them over, whether they come from a
//! live interface or from a replayed capture file.
use vstd::prelude::*;

use crate::parser::MICROS_PER_SEC;

verus! {

/// A single captured frame: raw bytes plus the capture timestamp.
pub struct RawFrame {
    pub timestamp_micros: i64,
    pub data: Vec<u8>,
}

/// Outcome of polling a `FrameSource` once.
///
/// Three states, not two: "no frame right now, but the stream is still
/// live" must not look like "the stream is over", or a live capture's idle
/// read timeout would end the program.
pub enum FrameEvent {
    /// A frame was captured.
    Frame(RawFrame),
    /// No frame arrived within the read timeout, but the source is still
    /// live: poll again. Time-based work can run meanwhile.
    Timeout,
    /// The source is exhausted (end of a replayed file). Stop polling.
    Eof,
}

/// Why a frame source could not deliver.
pub struct CaptureError {
    pub message: String,
}

/// A source of captured frames.
pub trait FrameSource {
    fn next_frame(&mut self) -> Result<FrameEvent, CaptureError>;
}

/// The capture timestamp in microseconds, from the seconds and
/// microseconds of a capture header.
pub open spec fn micros_of(tv_sec: i64, tv_usec: i64) -> int {
    tv_sec * 1_000_000 + tv_usec
}

/// Combines a capture header's seconds and microseconds into one
/// microsecond timestamp; `None` when the seconds scaled to microseconds, or
/// the sum, do not fit in an `i64` (where plain `i64` arithmetic overflows).
pub fn capture_timestamp_micros(tv_sec: i64, tv_usec: i64) -> (t: Option<i64>)
    ensures
        t is Some <==> {
            &&& i64::MIN <= tv_sec * 1_000_000 <= i64::MAX
            &&& i64::MIN <= micros_of(tv_sec, tv_usec) <= i64::MAX
        },
        t matches Some(v) ==> v == micros_of(tv_sec, tv_usec),
{
    match tv_sec.checked_mul(MICROS_PER_SEC) {
        Some(scaled) => scaled.checked_add(tv_usec),
        None => None,
    }
}

} // verus!

//! What an MP4 file says of its video track: timescale, duration, rotation.

use crate::frame;
use crate::frame::{DisplayRotation, MediaTime};
use vstd::prelude::*;

verus! {

/// Something that an MP4 file holds.
#[derive(Debug, Clone, Copy, PartialEq, Eq, Structural)]
pub enum Mp4Part {
    BoxHeader,
    LargeSize,
    TkhdVersion,
    TkhdMatrix,
    MdhdPayload,
    HdlrPayload,
    SttsHeader,
    SttsEntry,
}

/// Why a file could not be read as MP4.
#[derive(Debug, Clone, Copy, PartialEq, Eq, Structural)]
pub enum Mp4Error {
    /// The file ends within something that was announced.
    Truncated { part: Mp4Part },
    InvalidBoxSize,
    TkhdEmpty,
    UnsupportedTkhdVersion { version: u8 },
    TkhdTooShort,
    UnsupportedMatrix { a: i32, b: i32, c: i32, d: i32 },
    MdhdEmpty,
    MdhdTooShort,
    HdlrTooShort,
    SttsTooShort,
    SttsDurationOverflow,
}

/// A number written in four bytes, the highest first.
pub open spec fn be_u32(bytes: Seq<u8>) -> int {
    bytes[0] * 0x100_0000 + bytes[1] * 0x1_0000 + bytes[2] * 0x100 + bytes[3]
}

/// A number written in eight bytes, the highest first.
pub open spec fn be_u64(bytes: Seq<u8>) -> int {
    be_u32(bytes) * 0x1_0000_0000 + be_u32(bytes.subrange(4, 8))
}

/// A signed number in four bytes, in two's complement.
pub open spec fn be_i32(bytes: Seq<u8>) -> int {
    if be_u32(bytes) < 0x8000_0000 {
        be_u32(bytes)
    } else {
        be_u32(bytes) - 0x1_0000_0000
    }
}

pub fn read_be_u32(bytes: &[u8]) -> (value: u32)
    requires
        bytes@.len() >= 4,
    ensures
        value == be_u32(bytes@),
{
    bytes[0] as u32 * 0x100_0000 + bytes[1] as u32 * 0x1_0000 + bytes[2] as u32 * 0x100
        + bytes[3] as u32
}

pub fn read_be_i32(bytes: &[u8]) -> (value: i32)
    requires
        bytes@.len() >= 4,
    ensures
        value == be_i32(bytes@),
{
    let value: u32 = read_be_u32(bytes);
    if value < 0x8000_0000 {
        value as i32
    } else {
        i32::MIN + (value - 0x8000_0000) as i32
    }
}

pub fn read_be_u64(bytes: &[u8]) -> (value: u64)
    requires
        bytes@.len() >= 8,
    ensures
        value == be_u64(bytes@),
{
    let high: u32 = read_be_u32(bytes);
    let low: u32 = read_be_u32(&bytes[4..8]);
    high as u64 * 0x1_0000_0000 + low as u64
}

/// Part of a file: its bytes from `base` on.
pub struct Mp4Window<'a> {
    pub base: u64,
    pub bytes: &'a [u8],
}

impl<'a> Mp4Window<'a> {
    /// These bytes of the file are at hand.
    pub open spec fn holds(self, position: int, count: int) -> bool {
        self.base <= position && position + count <= self.base + self.bytes@.len()
    }

    /// The file's bytes from `position` on.
    pub open spec fn at(self, position: int, count: int) -> Seq<u8> {
        self.bytes@.subrange(position - self.base, position - self.base + count)
    }

    /// The file's bytes from `position` on, if they are at hand.
    pub fn read(&self, position: u64, count: usize) -> (bytes: Option<&'a [u8]>)
        ensures
            bytes is Some <==> self.holds(position as int, count as int),
            bytes matches Some(bytes) ==> bytes@ == self.at(position as int, count as int),
            bytes matches Some(bytes) ==> bytes@.len() == count,
    {
        let len: usize = self.bytes.len();
        if position < self.base {
            return None;
        }
        let offset: u64 = position - self.base;
        if offset > len as u64 || count as u64 > len as u64 - offset {
            return None;
        }
        let start: usize = offset as usize;
        Some(&self.bytes[start..start + count])
    }
}

/// A box: its kind, where its payload starts and where it ends.
#[derive(Debug, Clone, Copy, PartialEq, Eq, Structural)]
pub struct Mp4BoxHeader {
    pub kind: u32,
    pub payload: u64,
    pub end: u64,
}

// The kinds of box that are looked into, as the numbers their names make.
pub const MOOV: u32 = 0x6d6f6f76;

pub const TRAK: u32 = 0x7472616b;

pub const TKHD: u32 = 0x746b6864;

pub const MDIA: u32 = 0x6d646961;

pub const MDHD: u32 = 0x6d646864;

pub const HDLR: u32 = 0x68646c72;

pub const MINF: u32 = 0x6d696e66;

pub const STBL: u32 = 0x7374626c;

pub const STTS: u32 = 0x73747473;

pub const UUID: u32 = 0x75756964;

/// The handler of a video track.
pub const VIDE: u32 = 0x76696465;

/// The box at `start` within a parent that ends at `parent_end`; none if not
/// even a header fits.
pub open spec fn box_at(window: Mp4Window, start: int, parent_end: u64) -> Result<
    Option<Mp4BoxHeader>,
    Mp4Error,
> {
    if start + 8 > parent_end {
        Ok(None)
    } else if !window.holds(start, 8) {
        Err(Mp4Error::Truncated { part: Mp4Part::BoxHeader })
    } else {
        let header = window.at(start, 8);
        let short_size = be_u32(header);
        let kind = be_u32(header.subrange(4, 8));
        if short_size == 1 && !window.holds(start + 8, 8) {
            Err(Mp4Error::Truncated { part: Mp4Part::LargeSize })
        } else {
            let size = if short_size == 0 {
                parent_end - start
            } else if short_size == 1 {
                be_u64(window.at(start + 8, 8))
            } else {
                short_size
            };
            let header_size = 8 + (if short_size == 1 {
                8int
            } else {
                0int
            }) + (if kind == UUID {
                16int
            } else {
                0int
            });
            if size < header_size || start + size > parent_end {
                Err(Mp4Error::InvalidBoxSize)
            } else {
                Ok(
                    Some(
                        Mp4BoxHeader {
                            kind: kind as u32,
                            payload: (start + header_size) as u64,
                            end: (start + size) as u64,
                        },
                    ),
                )
            }
        }
    }
}

/// Reads the box at `start` within a parent.
pub fn read_mp4_box(window: &Mp4Window, start: u64, parent_end: u64) -> (result: Result<
    Option<Mp4BoxHeader>,
    Mp4Error,
>)
    ensures
        result == box_at(*window, start as int, parent_end),
        result matches Ok(Some(header)) ==> start + 8 <= header.payload <= header.end <= parent_end,
{
    if parent_end < 8 || start > parent_end - 8 {
        return Ok(None);
    }
    let header: &[u8] = match window.read(start, 8) {
        Some(header) => header,
        None => return Err(Mp4Error::Truncated { part: Mp4Part::BoxHeader }),
    };
    let short_size: u32 = read_be_u32(header);
    let kind: u32 = read_be_u32(&header[4..8]);
    let mut header_size: u64 = 8;
    let size: u64 = if short_size == 0 {
        parent_end - start
    } else if short_size == 1 {
        header_size = 16;
        match window.read(start + 8, 8) {
            Some(large_size) => read_be_u64(large_size),
            None => return Err(Mp4Error::Truncated { part: Mp4Part::LargeSize }),
        }
    } else {
        short_size as u64
    };
    if kind == UUID {
        header_size = header_size + 16;
    }
    let end: u64 = match start.checked_add(size) {
        Some(end) => end,
        None => return Err(Mp4Error::InvalidBoxSize),
    };
    if size < header_size || end > parent_end {
        return Err(Mp4Error::InvalidBoxSize);
    }
    Ok(Some(Mp4BoxHeader { kind, payload: start + header_size, end }))
}

/// A display matrix that turns the picture by right angles.
pub open spec fn matrix_rotation(a: int, b: int, c: int, d: int) -> Option<DisplayRotation> {
    if a == 65_536 && b == 0 && c == 0 && d == 65_536 {
        Some(DisplayRotation::Unrotated)
    } else if a == 0 && b == 65_536 && c == -65_536 && d == 0 {
        Some(DisplayRotation::Clockwise90)
    } else if a == -65_536 && b == 0 && c == 0 && d == -65_536 {
        Some(DisplayRotation::Clockwise180)
    } else if a == 0 && b == -65_536 && c == 65_536 && d == 0 {
        Some(DisplayRotation::Clockwise270)
    } else {
        None
    }
}

/// Reads a display matrix as a rotation.
pub fn rotation_from_mp4_matrix(a: i32, b: i32, c: i32, d: i32) -> (result: Result<
    DisplayRotation,
    Mp4Error,
>)
    ensures
        result == (match matrix_rotation(a as int, b as int, c as int, d as int) {
            Some(rotation) => Ok::<DisplayRotation, Mp4Error>(rotation),
            None => Err::<DisplayRotation, Mp4Error>(Mp4Error::UnsupportedMatrix { a, b, c, d }),
        }),
{
    if a == 65_536 && b == 0 && c == 0 && d == 65_536 {
        Ok(DisplayRotation::Unrotated)
    } else if a == 0 && b == 65_536 && c == -65_536 && d == 0 {
        Ok(DisplayRotation::Clockwise90)
    } else if a == -65_536 && b == 0 && c == 0 && d == -65_536 {
        Ok(DisplayRotation::Clockwise180)
    } else if a == 0 && b == -65_536 && c == 65_536 && d == 0 {
        Ok(DisplayRotation::Clockwise270)
    } else {
        Err(Mp4Error::UnsupportedMatrix { a, b, c, d })
    }
}

/// How many bytes there are from `start` to `end`.
pub open spec fn span(start: u64, end: u64) -> int {
    if start <= end {
        end - start
    } else {
        0
    }
}

fn payload_len(start: u64, end: u64) -> (len: u64)
    ensures
        len == span(start, end),
{
    if start <= end {
        end - start
    } else {
        0
    }
}

/// The rotation that a track header asks for; none if its display matrix does
/// something else.
pub open spec fn tkhd_rotation(window: Mp4Window, start: u64, end: u64) -> Result<
    Option<DisplayRotation>,
    Mp4Error,
> {
    if span(start, end) == 0 {
        Err(Mp4Error::TkhdEmpty)
    } else if !window.holds(start as int, 1) {
        Err(Mp4Error::Truncated { part: Mp4Part::TkhdVersion })
    } else {
        let version = window.at(start as int, 1)[0];
        if version > 1 {
            Err(Mp4Error::UnsupportedTkhdVersion { version })
        } else {
            let offset = if version == 0 {
                40int
            } else {
                52int
            };
            if span(start, end) < offset + 36 {
                Err(Mp4Error::TkhdTooShort)
            } else if !window.holds(start + offset, 36) {
                Err(Mp4Error::Truncated { part: Mp4Part::TkhdMatrix })
            } else {
                let matrix = window.at(start + offset, 36);
                Ok(
                    matrix_rotation(
                        be_i32(matrix.subrange(0, 4)),
                        be_i32(matrix.subrange(4, 8)),
                        be_i32(matrix.subrange(12, 16)),
                        be_i32(matrix.subrange(16, 20)),
                    ),
                )
            }
        }
    }
}

/// Reads the rotation that a track header asks for.
pub fn read_tkhd_rotation(window: &Mp4Window, payload_start: u64, box_end: u64) -> (result: Result<
    Option<DisplayRotation>,
    Mp4Error,
>)
    ensures
        result == tkhd_rotation(*window, payload_start, box_end),
{
    let len: u64 = payload_len(payload_start, box_end);
    if len == 0 {
        return Err(Mp4Error::TkhdEmpty);
    }
    let version: u8 = match window.read(payload_start, 1) {
        Some(bytes) => bytes[0],
        None => return Err(Mp4Error::Truncated { part: Mp4Part::TkhdVersion }),
    };
    let matrix_offset: u64 = match version {
        0 => 40,
        1 => 52,
        _ => return Err(Mp4Error::UnsupportedTkhdVersion { version }),
    };
    if len < matrix_offset + 36 {
        return Err(Mp4Error::TkhdTooShort);
    }
    let matrix: &[u8] = match window.read(payload_start + matrix_offset, 36) {
        Some(matrix) => matrix,
        None => return Err(Mp4Error::Truncated { part: Mp4Part::TkhdMatrix }),
    };
    match rotation_from_mp4_matrix(
        read_be_i32(&matrix[0..4]),
        read_be_i32(&matrix[4..8]),
        read_be_i32(&matrix[12..16]),
        read_be_i32(&matrix[16..20]),
    ) {
        Ok(rotation) => Ok(Some(rotation)),
        Err(_) => Ok(None),
    }
}

/// What a media header says. A duration of all ones means that it is unknown.
#[derive(Debug, Clone, Copy, PartialEq, Eq, Structural)]
pub struct MdhdTiming {
    pub timescale: Option<u32>,
    pub duration_units: Option<u64>,
    pub unknown_duration_units: Option<u64>,
}

pub open spec fn no_timing() -> MdhdTiming {
    MdhdTiming { timescale: None, duration_units: None, unknown_duration_units: None }
}

/// What a media header of one version says.
pub open spec fn versioned_timing(
    payload: Seq<u8>,
    timescale_offset: int,
    duration_len: int,
) -> Result<MdhdTiming, Mp4Error> {
    let duration_offset = timescale_offset + 4;
    if payload.len() < timescale_offset + 4 {
        Err(Mp4Error::MdhdTooShort)
    } else {
        let timescale = be_u32(payload.subrange(timescale_offset, timescale_offset + 4));
        if timescale == 0 {
            Ok(no_timing())
        } else if payload.len() < duration_offset + duration_len {
            Err(Mp4Error::MdhdTooShort)
        } else {
            let field = payload.subrange(duration_offset, duration_offset + duration_len);
            let units = if duration_len == 4 {
                be_u32(field)
            } else {
                be_u64(field)
            };
            let all_ones = if duration_len == 4 {
                u32::MAX as int
            } else {
                u64::MAX as int
            };
            Ok(
                MdhdTiming {
                    timescale: Some(timescale as u32),
                    duration_units: if units != 0 && units != all_ones {
                        Some(units as u64)
                    } else {
                        None
                    },
                    unknown_duration_units: if units == all_ones {
                        Some(units as u64)
                    } else {
                        None
                    },
                },
            )
        }
    }
}

/// What a media header says; one of an unknown version or without a timescale
/// says nothing.
pub open spec fn mdhd_timing(payload: Seq<u8>) -> Result<MdhdTiming, Mp4Error> {
    if payload.len() == 0 {
        Err(Mp4Error::MdhdEmpty)
    } else if payload[0] == 0 {
        versioned_timing(payload, 12, 4)
    } else if payload[0] == 1 {
        versioned_timing(payload, 20, 8)
    } else {
        Ok(no_timing())
    }
}

/// Reads a media header.
pub fn mdhd_timing_from_payload(payload: &[u8]) -> (result: Result<MdhdTiming, Mp4Error>)
    ensures
        result == mdhd_timing(payload@),
{
    let nothing = MdhdTiming {
        timescale: None,
        duration_units: None,
        unknown_duration_units: None,
    };
    let len: usize = payload.len();
    if len == 0 {
        return Err(Mp4Error::MdhdEmpty);
    }
    let (timescale_offset, duration_len): (usize, usize) = match payload[0] {
        0 => (12, 4),
        1 => (20, 8),
        _ => return Ok(nothing),
    };
    if len < timescale_offset + 4 {
        return Err(Mp4Error::MdhdTooShort);
    }
    let timescale: u32 = read_be_u32(&payload[timescale_offset..timescale_offset + 4]);
    if timescale == 0 {
        return Ok(nothing);
    }
    let duration_offset: usize = timescale_offset + 4;
    if len < duration_offset + duration_len {
        return Err(Mp4Error::MdhdTooShort);
    }
    let duration: &[u8] = &payload[duration_offset..duration_offset + duration_len];
    let units: u64 = if duration_len == 4 {
        read_be_u32(duration) as u64
    } else {
        read_be_u64(duration)
    };
    let all_ones: u64 = if duration_len == 4 {
        u32::MAX as u64
    } else {
        u64::MAX
    };
    Ok(
        MdhdTiming {
            timescale: Some(timescale),
            duration_units: if units != 0 && units != all_ones {
                Some(units)
            } else {
                None
            },
            unknown_duration_units: if units == all_ones {
                Some(units)
            } else {
                None
            },
        },
    )
}

/// The first bytes of a payload, up to a limit.
pub open spec fn payload_start(
    window: Mp4Window,
    start: u64,
    end: u64,
    limit: int,
    part: Mp4Part,
) -> Result<Seq<u8>, Mp4Error> {
    let count = if span(start, end) < limit {
        span(start, end)
    } else {
        limit
    };
    if window.holds(start as int, count) {
        Ok(window.at(start as int, count))
    } else {
        Err(Mp4Error::Truncated { part })
    }
}

fn read_payload_start<'a>(
    window: &Mp4Window<'a>,
    start: u64,
    end: u64,
    limit: usize,
    part: Mp4Part,
) -> (result: Result<&'a [u8], Mp4Error>)
    ensures
        match (result, payload_start(*window, start, end, limit as int, part)) {
            (Ok(bytes), Ok(expected)) => bytes@ == expected,
            (Err(error), Err(expected)) => error == expected,
            _ => false,
        },
{
    let len: u64 = payload_len(start, end);
    let count: usize = if len < limit as u64 {
        len as usize
    } else {
        limit
    };
    match window.read(start, count) {
        Some(bytes) => Ok(bytes),
        None => Err(Mp4Error::Truncated { part }),
    }
}

/// What the media header box says.
pub open spec fn mdhd_box_timing(window: Mp4Window, start: u64, end: u64) -> Result<
    MdhdTiming,
    Mp4Error,
> {
    match payload_start(window, start, end, 32, Mp4Part::MdhdPayload) {
        Err(error) => Err(error),
        Ok(payload) => mdhd_timing(payload),
    }
}

/// Reads the media header box.
pub fn read_mdhd_timing(window: &Mp4Window, payload_start: u64, box_end: u64) -> (result: Result<
    MdhdTiming,
    Mp4Error,
>)
    ensures
        result == mdhd_box_timing(*window, payload_start, box_end),
{
    match read_payload_start(window, payload_start, box_end, 32, Mp4Part::MdhdPayload) {
        Err(error) => Err(error),
        Ok(payload) => mdhd_timing_from_payload(payload),
    }
}

/// The handler that a handler box names.
pub open spec fn hdlr_type(window: Mp4Window, start: u64, end: u64) -> Result<u32, Mp4Error> {
    match payload_start(window, start, end, 16, Mp4Part::HdlrPayload) {
        Err(error) => Err(error),
        Ok(payload) => if payload.len() < 12 {
            Err(Mp4Error::HdlrTooShort)
        } else {
            Ok(be_u32(payload.subrange(8, 12)) as u32)
        },
    }
}

/// Reads the handler that a handler box names.
pub fn read_hdlr_type(window: &Mp4Window, payload_start: u64, box_end: u64) -> (result: Result<
    u32,
    Mp4Error,
>)
    ensures
        result == hdlr_type(*window, payload_start, box_end),
{
    match read_payload_start(window, payload_start, box_end, 16, Mp4Part::HdlrPayload) {
        Err(error) => Err(error),
        Ok(payload) => {
            if payload.len() < 12 {
                return Err(Mp4Error::HdlrTooShort);
            }
            Ok(read_be_u32(&payload[8..12]))
        },
    }
}

/// The sum of the first `count` entries of a time-to-sample table, each a
/// number of samples times their duration.
pub open spec fn stts_units(window: Mp4Window, start: int, count: int) -> Result<u64, Mp4Error>
    decreases count,
{
    if count <= 0 {
        Ok(0)
    } else {
        match stts_units(window, start, count - 1) {
            Err(error) => Err(error),
            Ok(before) => {
                let position = start + (count - 1) * 8;
                if !window.holds(position, 8) {
                    Err(Mp4Error::Truncated { part: Mp4Part::SttsEntry })
                } else {
                    let entry = window.at(position, 8);
                    let total = before + be_u32(entry) * be_u32(entry.subrange(4, 8));
                    if total > u64::MAX {
                        Err(Mp4Error::SttsDurationOverflow)
                    } else {
                        Ok(total as u64)
                    }
                }
            },
        }
    }
}

/// The duration that a time-to-sample box adds up to; none if it is zero.
pub open spec fn stts_duration(window: Mp4Window, start: u64, end: u64) -> Result<
    Option<u64>,
    Mp4Error,
> {
    if span(start, end) < 8 {
        Err(Mp4Error::SttsTooShort)
    } else if !window.holds(start as int, 8) {
        Err(Mp4Error::Truncated { part: Mp4Part::SttsHeader })
    } else {
        let entries = be_u32(window.at(start as int, 8).subrange(4, 8));
        if span(start, end) - 8 < entries * 8 {
            Err(Mp4Error::SttsTooShort)
        } else {
            match stts_units(window, start + 8, entries) {
                Err(error) => Err(error),
                Ok(units) => Ok(
                    if units != 0 {
                        Some(units)
                    } else {
                        None
                    },
                ),
            }
        }
    }
}

proof fn lemma_stts_error_stays(window: Mp4Window, start: int, count: int, all: int)
    requires
        count <= all,
        stts_units(window, start, count) is Err,
    ensures
        stts_units(window, start, all) == stts_units(window, start, count),
    decreases all - count,
{
    if count < all {
        lemma_stts_error_stays(window, start, count, all - 1);
    }
}

/// Adds a time-to-sample box up.
pub fn read_stts_duration(window: &Mp4Window, payload_start: u64, box_end: u64) -> (result: Result<
    Option<u64>,
    Mp4Error,
>)
    ensures
        result == stts_duration(*window, payload_start, box_end),
{
    let len: u64 = payload_len(payload_start, box_end);
    if len < 8 {
        return Err(Mp4Error::SttsTooShort);
    }
    let header: &[u8] = match window.read(payload_start, 8) {
        Some(header) => header,
        None => return Err(Mp4Error::Truncated { part: Mp4Part::SttsHeader }),
    };
    let entry_count: u32 = read_be_u32(&header[4..8]);
    if len - 8 < entry_count as u64 * 8 {
        return Err(Mp4Error::SttsTooShort);
    }
    let first: u64 = payload_start + 8;
    let mut duration: u64 = 0;
    let mut entry: u32 = 0;
    while entry < entry_count
        invariant
            entry <= entry_count,
            first + entry_count * 8 <= u64::MAX,
            stts_units(*window, first as int, entry as int) == Ok::<u64, Mp4Error>(duration),
            stts_duration(*window, payload_start, box_end) == (match stts_units(
                *window,
                first as int,
                entry_count as int,
            ) {
                Err(error) => Err::<Option<u64>, Mp4Error>(error),
                Ok(units) => Ok::<Option<u64>, Mp4Error>(
                    if units != 0 {
                        Some(units)
                    } else {
                        None
                    },
                ),
            }),
        decreases entry_count - entry,
    {
        proof {
            if stts_units(*window, first as int, entry + 1) is Err {
                lemma_stts_error_stays(*window, first as int, entry + 1, entry_count as int);
            }
        }
        let bytes: &[u8] = match window.read(first + entry as u64 * 8, 8) {
            Some(bytes) => bytes,
            None => return Err(Mp4Error::Truncated { part: Mp4Part::SttsEntry }),
        };
        let sample_count: u32 = read_be_u32(bytes);
        let sample_delta: u32 = read_be_u32(&bytes[4..8]);
        proof {
            crate::frame::lemma_u32_product(sample_count, sample_delta);
        }
        let entry_duration: u64 = sample_count as u64 * sample_delta as u64;
        duration = match duration.checked_add(entry_duration) {
            Some(duration) => duration,
            None => return Err(Mp4Error::SttsDurationOverflow),
        };
        entry = entry + 1;
    }
    Ok(
        if duration != 0 {
            Some(duration)
        } else {
            None
        },
    )
}

/// The duration in a sample table: that of its last time-to-sample box.
pub open spec fn stbl_duration(
    window: Mp4Window,
    position: u64,
    end: u64,
    before: Option<u64>,
) -> Result<Option<u64>, Mp4Error>
    decreases end - position,
{
    match box_at(window, position as int, end) {
        Err(error) => Err(error),
        Ok(None) => Ok(before),
        Ok(Some(header)) => if position < header.end <= end {
            if header.kind == STTS {
                match stts_duration(window, header.payload, header.end) {
                    Err(error) => Err(error),
                    Ok(duration) => stbl_duration(window, header.end, end, duration),
                }
            } else {
                stbl_duration(window, header.end, end, before)
            }
        } else {
            Err(Mp4Error::InvalidBoxSize)
        },
    }
}

/// Reads the duration in a sample table.
pub fn read_stbl_stts_duration(window: &Mp4Window, payload_start: u64, stbl_end: u64) -> (result:
    Result<Option<u64>, Mp4Error>)
    ensures
        result == stbl_duration(*window, payload_start, stbl_end, None),
{
    let mut position: u64 = payload_start;
    let mut duration: Option<u64> = None;
    loop
        invariant
            stbl_duration(*window, payload_start, stbl_end, None) == stbl_duration(
                *window,
                position,
                stbl_end,
                duration,
            ),
        decreases stbl_end - position,
    {
        match read_mp4_box(window, position, stbl_end) {
            Err(error) => return Err(error),
            Ok(None) => return Ok(duration),
            Ok(Some(header)) => {
                if header.kind == STTS {
                    match read_stts_duration(window, header.payload, header.end) {
                        Err(error) => return Err(error),
                        Ok(found) => {
                            duration = found;
                        },
                    }
                }
                position = header.end;
            },
        }
    }
}

/// The duration in a media information box: that of its last sample table.
pub open spec fn minf_duration(
    window: Mp4Window,
    position: u64,
    end: u64,
    before: Option<u64>,
) -> Result<Option<u64>, Mp4Error>
    decreases end - position,
{
    match box_at(window, position as int, end) {
        Err(error) => Err(error),
        Ok(None) => Ok(before),
        Ok(Some(header)) => if position < header.end <= end {
            if header.kind == STBL {
                match stbl_duration(window, header.payload, header.end, None) {
                    Err(error) => Err(error),
                    Ok(duration) => minf_duration(window, header.end, end, duration),
                }
            } else {
                minf_duration(window, header.end, end, before)
            }
        } else {
            Err(Mp4Error::InvalidBoxSize)
        },
    }
}

/// Reads the duration in a media information box.
pub fn read_minf_stts_duration(window: &Mp4Window, payload_start: u64, minf_end: u64) -> (result:
    Result<Option<u64>, Mp4Error>)
    ensures
        result == minf_duration(*window, payload_start, minf_end, None),
{
    let mut position: u64 = payload_start;
    let mut duration: Option<u64> = None;
    loop
        invariant
            minf_duration(*window, payload_start, minf_end, None) == minf_duration(
                *window,
                position,
                minf_end,
                duration,
            ),
        decreases minf_end - position,
    {
        match read_mp4_box(window, position, minf_end) {
            Err(error) => return Err(error),
            Ok(None) => return Ok(duration),
            Ok(Some(header)) => {
                if header.kind == STBL {
                    match read_stbl_stts_duration(window, header.payload, header.end) {
                        Err(error) => return Err(error),
                        Ok(found) => {
                            duration = found;
                        },
                    }
                }
                position = header.end;
            },
        }
    }
}

/// What a track says of itself.
#[derive(Debug, Clone, Copy, PartialEq, Eq, Structural)]
pub struct Mp4TrackInfo {
    pub handler_type: Option<u32>,
    pub timescale: Option<u32>,
    pub mdhd_duration_units: Option<u64>,
    pub unknown_mdhd_duration_units: Option<u64>,
    pub stts_duration_units: Option<u64>,
    pub rotation: Option<DisplayRotation>,
}

pub open spec fn no_track() -> Mp4TrackInfo {
    Mp4TrackInfo {
        handler_type: None,
        timescale: None,
        mdhd_duration_units: None,
        unknown_mdhd_duration_units: None,
        stts_duration_units: None,
        rotation: None,
    }
}

impl Default for Mp4TrackInfo {
    fn default() -> (track: Self)
        ensures
            track == no_track(),
    {
        Mp4TrackInfo {
            handler_type: None,
            timescale: None,
            mdhd_duration_units: None,
            unknown_mdhd_duration_units: None,
            stts_duration_units: None,
            rotation: None,
        }
    }
}

/// What a media box adds to a track.
pub open spec fn with_media_box(
    window: Mp4Window,
    header: Mp4BoxHeader,
    track: Mp4TrackInfo,
) -> Result<Mp4TrackInfo, Mp4Error> {
    if header.kind == MDHD {
        match mdhd_box_timing(window, header.payload, header.end) {
            Err(error) => Err(error),
            Ok(timing) => Ok(
                Mp4TrackInfo {
                    timescale: timing.timescale,
                    mdhd_duration_units: timing.duration_units,
                    unknown_mdhd_duration_units: timing.unknown_duration_units,
                    ..track
                },
            ),
        }
    } else if header.kind == HDLR {
        match hdlr_type(window, header.payload, header.end) {
            Err(error) => Err(error),
            Ok(handler) => Ok(Mp4TrackInfo { handler_type: Some(handler), ..track }),
        }
    } else if header.kind == MINF {
        match minf_duration(window, header.payload, header.end, None) {
            Err(error) => Err(error),
            Ok(duration) => Ok(Mp4TrackInfo { stts_duration_units: duration, ..track }),
        }
    } else {
        Ok(track)
    }
}

/// What the boxes of a media box say, from `position` on.
pub open spec fn media_info(
    window: Mp4Window,
    position: u64,
    end: u64,
    track: Mp4TrackInfo,
) -> Result<Mp4TrackInfo, Mp4Error>
    decreases end - position,
{
    match box_at(window, position as int, end) {
        Err(error) => Err(error),
        Ok(None) => Ok(track),
        Ok(Some(header)) => if position < header.end <= end {
            match with_media_box(window, header, track) {
                Err(error) => Err(error),
                Ok(track) => media_info(window, header.end, end, track),
            }
        } else {
            Err(Mp4Error::InvalidBoxSize)
        },
    }
}

/// Reads the boxes of a media box.
pub fn read_media_info(window: &Mp4Window, payload_start: u64, mdia_end: u64) -> (result: Result<
    Mp4TrackInfo,
    Mp4Error,
>)
    ensures
        result == media_info(*window, payload_start, mdia_end, no_track()),
{
    let mut position: u64 = payload_start;
    let mut track = Mp4TrackInfo::default();
    loop
        invariant
            media_info(*window, payload_start, mdia_end, no_track()) == media_info(
                *window,
                position,
                mdia_end,
                track,
            ),
        decreases mdia_end - position,
    {
        match read_mp4_box(window, position, mdia_end) {
            Err(error) => return Err(error),
            Ok(None) => return Ok(track),
            Ok(Some(header)) => {
                if header.kind == MDHD {
                    match read_mdhd_timing(window, header.payload, header.end) {
                        Err(error) => return Err(error),
                        Ok(timing) => {
                            track.timescale = timing.timescale;
                            track.mdhd_duration_units = timing.duration_units;
                            track.unknown_mdhd_duration_units = timing.unknown_duration_units;
                        },
                    }
                } else if header.kind == HDLR {
                    match read_hdlr_type(window, header.payload, header.end) {
                        Err(error) => return Err(error),
                        Ok(handler) => {
                            track.handler_type = Some(handler);
                        },
                    }
                } else if header.kind == MINF {
                    match read_minf_stts_duration(window, header.payload, header.end) {
                        Err(error) => return Err(error),
                        Ok(duration) => {
                            track.stts_duration_units = duration;
                        },
                    }
                }
                position = header.end;
            },
        }
    }
}

/// What a track box adds to a track. A later media box replaces what an
/// earlier one said, and keeps the rotation.
pub open spec fn with_track_box(
    window: Mp4Window,
    header: Mp4BoxHeader,
    track: Mp4TrackInfo,
) -> Result<Mp4TrackInfo, Mp4Error> {
    if header.kind == TKHD {
        match tkhd_rotation(window, header.payload, header.end) {
            Err(error) => Err(error),
            Ok(rotation) => Ok(Mp4TrackInfo { rotation, ..track }),
        }
    } else if header.kind == MDIA {
        match media_info(window, header.payload, header.end, no_track()) {
            Err(error) => Err(error),
            Ok(media) => Ok(Mp4TrackInfo { rotation: track.rotation, ..media }),
        }
    } else {
        Ok(track)
    }
}

/// What the boxes of a track say, from `position` on.
pub open spec fn track_info(
    window: Mp4Window,
    position: u64,
    end: u64,
    track: Mp4TrackInfo,
) -> Result<Mp4TrackInfo, Mp4Error>
    decreases end - position,
{
    match box_at(window, position as int, end) {
        Err(error) => Err(error),
        Ok(None) => Ok(track),
        Ok(Some(header)) => if position < header.end <= end {
            match with_track_box(window, header, track) {
                Err(error) => Err(error),
                Ok(track) => track_info(window, header.end, end, track),
            }
        } else {
            Err(Mp4Error::InvalidBoxSize)
        },
    }
}

/// Reads the boxes of a track.
pub fn read_track_info(window: &Mp4Window, payload_start: u64, trak_end: u64) -> (result: Result<
    Mp4TrackInfo,
    Mp4Error,
>)
    ensures
        result == track_info(*window, payload_start, trak_end, no_track()),
{
    let mut position: u64 = payload_start;
    let mut track = Mp4TrackInfo::default();
    loop
        invariant
            track_info(*window, payload_start, trak_end, no_track()) == track_info(
                *window,
                position,
                trak_end,
                track,
            ),
        decreases trak_end - position,
    {
        match read_mp4_box(window, position, trak_end) {
            Err(error) => return Err(error),
            Ok(None) => return Ok(track),
            Ok(Some(header)) => {
                if header.kind == TKHD {
                    match read_tkhd_rotation(window, header.payload, header.end) {
                        Err(error) => return Err(error),
                        Ok(rotation) => {
                            track.rotation = rotation;
                        },
                    }
                } else if header.kind == MDIA {
                    match read_media_info(window, header.payload, header.end) {
                        Err(error) => return Err(error),
                        Ok(media) => {
                            track.handler_type = media.handler_type;
                            track.timescale = media.timescale;
                            track.mdhd_duration_units = media.mdhd_duration_units;
                            track.unknown_mdhd_duration_units = media.unknown_mdhd_duration_units;
                            track.stts_duration_units = media.stts_duration_units;
                            proof {
                                lemma_media_has_no_rotation(
                                    *window,
                                    header.payload,
                                    header.end,
                                    no_track(),
                                );
                            }
                        },
                    }
                }
                position = header.end;
            },
        }
    }
}

proof fn lemma_media_has_no_rotation(
    window: Mp4Window,
    position: u64,
    end: u64,
    track: Mp4TrackInfo,
)
    ensures
        media_info(window, position, end, track) matches Ok(media) ==> media.rotation
            == track.rotation,
    decreases end - position,
{
    if let Ok(Some(header)) = box_at(window, position as int, end) {
        if position < header.end <= end {
            if let Ok(next) = with_media_box(window, header, track) {
                lemma_media_has_no_rotation(window, header.end, end, next);
            }
        }
    }
}

/// A duration that a container marks as unknown.
#[derive(Debug, Clone, Copy, PartialEq, Eq, Structural)]
pub struct Mp4UnknownDuration {
    pub units: u64,
    pub timescale: u32,
}

impl Mp4UnknownDuration {
    /// Whether a duration is this one. `same` compares a duration with a number
    /// of units of a timescale, as far as rounding lets them differ.
    pub fn matches<M: Fn(MediaTime, u64, u32) -> bool>(self, duration: MediaTime, same: &M) -> (matched:
        bool)
        requires
            call_requires(*same, (duration, self.units, self.timescale)),
        ensures
            call_ensures(*same, (duration, self.units, self.timescale), matched),
    {
        same(duration, self.units, self.timescale)
    }
}

/// What a file says of its video track.
#[derive(Debug, Clone, Copy, PartialEq, Eq, Structural)]
pub struct Mp4VideoTiming {
    pub timescale: Option<u32>,
    pub duration: Option<MediaTime>,
    pub unknown_mdhd_duration: Option<Mp4UnknownDuration>,
    pub rotation: Option<DisplayRotation>,
}

pub open spec fn no_video_timing() -> Mp4VideoTiming {
    Mp4VideoTiming {
        timescale: None,
        duration: None,
        unknown_mdhd_duration: None,
        rotation: None,
    }
}

impl Default for Mp4VideoTiming {
    fn default() -> (timing: Self)
        ensures
            timing == no_video_timing(),
    {
        Mp4VideoTiming {
            timescale: None,
            duration: None,
            unknown_mdhd_duration: None,
            rotation: None,
        }
    }
}

impl Mp4VideoTiming {
    /// Whether a duration is the one that the file marks as unknown.
    pub fn matches_unknown_mdhd_duration<M: Fn(MediaTime, u64, u32) -> bool>(
        self,
        duration: MediaTime,
        same: &M,
    ) -> (matched: bool)
        requires
            forall|units: u64, timescale: u32| call_requires(*same, (duration, units, timescale)),
        ensures
            match self.unknown_mdhd_duration {
                Some(unknown) => call_ensures(
                    *same,
                    (duration, unknown.units, unknown.timescale),
                    matched,
                ),
                None => !matched,
            },
    {
        match self.unknown_mdhd_duration {
            Some(unknown) => unknown.matches(duration, same),
            None => false,
        }
    }
}

/// Units of a timescale as a media time, where both can be written as one.
pub open spec fn mp4_media_time(units: u64, timescale: u32) -> Option<MediaTime> {
    if 0 < units <= i64::MAX && 0 < timescale <= i32::MAX {
        Some(MediaTime { value: units as i64, timescale: timescale as i32 })
    } else {
        None
    }
}

/// Makes a media time of units of a timescale.
pub fn media_time_from_mp4_units(units: u64, timescale: u32) -> (time: Option<MediaTime>)
    ensures
        time == mp4_media_time(units, timescale),
{
    if units == 0 || units > i64::MAX as u64 || timescale > i32::MAX as u32 {
        return None;
    }
    match MediaTime::new(units as i64, timescale as i32) {
        Ok(time) => Some(time),
        Err(_) => None,
    }
}

impl Mp4TrackInfo {
    /// What a track says of its video. The media header's duration counts
    /// before the sample table's.
    pub open spec fn spec_video_timing(self) -> Mp4VideoTiming {
        let units = if self.mdhd_duration_units is Some {
            self.mdhd_duration_units
        } else {
            self.stts_duration_units
        };
        Mp4VideoTiming {
            timescale: self.timescale,
            duration: match (self.timescale, units) {
                (Some(timescale), Some(units)) => mp4_media_time(units, timescale),
                _ => None,
            },
            unknown_mdhd_duration: match (self.timescale, self.unknown_mdhd_duration_units) {
                (Some(timescale), Some(units)) => Some(Mp4UnknownDuration { units, timescale }),
                _ => None,
            },
            rotation: self.rotation,
        }
    }

    pub fn video_timing(self) -> (timing: Mp4VideoTiming)
        ensures
            timing == self.spec_video_timing(),
    {
        let duration_units: Option<u64> = match self.mdhd_duration_units {
            Some(units) => Some(units),
            None => self.stts_duration_units,
        };
        let duration = match (self.timescale, duration_units) {
            (Some(timescale), Some(units)) => media_time_from_mp4_units(units, timescale),
            _ => None,
        };
        let unknown_mdhd_duration = match (self.timescale, self.unknown_mdhd_duration_units) {
            (Some(timescale), Some(units)) => Some(Mp4UnknownDuration { units, timescale }),
            _ => None,
        };
        Mp4VideoTiming {
            timescale: self.timescale,
            duration,
            unknown_mdhd_duration,
            rotation: self.rotation,
        }
    }
}

/// What the first video track says, from `position` on.
pub open spec fn video_track_timing(window: Mp4Window, position: u64, end: u64) -> Result<
    Mp4VideoTiming,
    Mp4Error,
>
    decreases end - position,
{
    match box_at(window, position as int, end) {
        Err(error) => Err(error),
        Ok(None) => Ok(no_video_timing()),
        Ok(Some(header)) => if position < header.end <= end {
            if header.kind == TRAK {
                match track_info(window, header.payload, header.end, no_track()) {
                    Err(error) => Err(error),
                    Ok(track) => if track.handler_type == Some(VIDE) {
                        Ok(track.spec_video_timing())
                    } else {
                        video_track_timing(window, header.end, end)
                    },
                }
            } else {
                video_track_timing(window, header.end, end)
            }
        } else {
            Err(Mp4Error::InvalidBoxSize)
        },
    }
}

/// Reads what the first video track of a movie box says.
pub fn find_video_track_timing(window: &Mp4Window, payload_start: u64, moov_end: u64) -> (result:
    Result<Mp4VideoTiming, Mp4Error>)
    ensures
        result == video_track_timing(*window, payload_start, moov_end),
{
    let mut position: u64 = payload_start;
    loop
        invariant
            video_track_timing(*window, payload_start, moov_end) == video_track_timing(
                *window,
                position,
                moov_end,
            ),
        decreases moov_end - position,
    {
        match read_mp4_box(window, position, moov_end) {
            Err(error) => return Err(error),
            Ok(None) => return Ok(Mp4VideoTiming::default()),
            Ok(Some(header)) => {
                if header.kind == TRAK {
                    match read_track_info(window, header.payload, header.end) {
                        Err(error) => return Err(error),
                        Ok(track) => {
                            if let Some(handler) = track.handler_type {
                                if handler == VIDE {
                                    return Ok(track.video_timing());
                                }
                            }
                        },
                    }
                }
                position = header.end;
            },
        }
    }
}

/// Where to look in a file next.
#[derive(Debug, Clone, Copy, PartialEq, Eq, Structural)]
pub enum Mp4Step {
    /// The movie box lies here.
    Movie { payload: u64, end: u64 },
    /// The next box starts here.
    Skip { next: u64 },
    /// There is no movie box.
    NoMovie,
}

/// What the box at `start` of a file means for the search of the movie box.
pub open spec fn top_level_step(window: Mp4Window, start: u64, file_len: u64) -> Result<
    Mp4Step,
    Mp4Error,
> {
    match box_at(window, start as int, file_len) {
        Err(error) => Err(error),
        Ok(None) => Ok(Mp4Step::NoMovie),
        Ok(Some(header)) => Ok(
            if header.kind == MOOV {
                Mp4Step::Movie { payload: header.payload, end: header.end }
            } else {
                Mp4Step::Skip { next: header.end }
            },
        ),
    }
}

/// Tells where to look in a file next, given the bytes at `start`.
pub fn next_top_level_step(window: &Mp4Window, start: u64, file_len: u64) -> (result: Result<
    Mp4Step,
    Mp4Error,
>)
    ensures
        result == top_level_step(*window, start, file_len),
        result matches Ok(Mp4Step::Skip { next }) ==> start < next <= file_len,
        result matches Ok(Mp4Step::Movie { payload, end }) ==> start < payload <= end <= file_len,
{
    match read_mp4_box(window, start, file_len) {
        Err(error) => Err(error),
        Ok(None) => Ok(Mp4Step::NoMovie),
        Ok(Some(header)) => {
            if header.kind == MOOV {
                Ok(Mp4Step::Movie { payload: header.payload, end: header.end })
            } else {
                Ok(Mp4Step::Skip { next: header.end })
            }
        },
    }
}

/// A box that was read lies within its parent, behind its own header, so that
/// walking from box to box gets on.
pub proof fn law_boxes_lie_in_their_parent(window: Mp4Window, start: u64, parent_end: u64)
    ensures
        box_at(window, start as int, parent_end) matches Ok(Some(header)) ==> start + 8
            <= header.payload <= header.end <= parent_end,
{
}

/// An unknown duration in the media header never becomes the duration of the
/// video.
pub proof fn law_unknown_duration_is_no_duration(payload: Seq<u8>)
    ensures
        mdhd_timing(payload) matches Ok(timing) ==> (timing.unknown_duration_units is Some
            ==> timing.duration_units is None),
{
}

/// A video's duration, where a track gives one, is positive.
pub proof fn law_track_duration_is_positive(track: Mp4TrackInfo)
    ensures
        track.spec_video_timing().duration matches Some(duration) ==> duration.wf() && duration.value
            > 0,
{
}

/// The duration that is chosen of what the system says and what a file says.
pub open spec fn is_chosen_duration<M: Fn(MediaTime, u64, u32) -> bool>(
    same: M,
    reported: Option<MediaTime>,
    timing: Mp4VideoTiming,
    duration: Option<MediaTime>,
) -> bool {
    match (reported, timing.unknown_mdhd_duration) {
        (None, _) => duration == timing.duration,
        (Some(time), None) => duration == reported,
        (Some(time), Some(unknown)) => (duration == timing.duration && call_ensures(
            same,
            (time, unknown.units, unknown.timescale),
            true,
        )) || (duration == reported && call_ensures(
            same,
            (time, unknown.units, unknown.timescale),
            false,
        )),
    }
}

/// What a file says of its duration and what the system says: the system's
/// counts, unless it is the one that the file marks as unknown.
pub fn media_duration<M: Fn(MediaTime, u64, u32) -> bool>(
    reported: Option<MediaTime>,
    timing: Mp4VideoTiming,
    same: &M,
) -> (duration: Option<MediaTime>)
    requires
        forall|time: MediaTime, units: u64, timescale: u32|
            call_requires(*same, (time, units, timescale)),
    ensures
        is_chosen_duration(*same, reported, timing, duration),
{
    match reported {
        Some(time) => {
            if timing.matches_unknown_mdhd_duration(time, same) {
                timing.duration
            } else {
                Some(time)
            }
        },
        None => timing.duration,
    }
}

/// A duration in units of 100 nanoseconds, where there is a positive one.
pub fn media_foundation_duration(duration_100ns: Option<i64>) -> (duration: Option<MediaTime>)
    ensures
        duration == (match duration_100ns {
            Some(value) => if value > 0 {
                Some(MediaTime { value, timescale: 10_000_000 })
            } else {
                None
            },
            None => None,
        }),
{
    match duration_100ns {
        Some(value) => {
            if value <= 0 {
                return None;
            }
            match MediaTime::new(value, 10_000_000) {
                Ok(time) => Some(time),
                Err(_) => None,
            }
        },
        None => None,
    }
}

/// A number is read back from the bytes that it is written in, the highest first.
pub proof fn law_numbers_are_read_back(value: u32, upper: u32)
    ensures
        ({
            let bytes = seq![
                (value / 0x100_0000) as u8,
                (value / 0x1_0000 % 0x100) as u8,
                (value / 0x100 % 0x100) as u8,
                (value % 0x100) as u8,
            ];
            let high = seq![
                (upper / 0x100_0000) as u8,
                (upper / 0x1_0000 % 0x100) as u8,
                (upper / 0x100 % 0x100) as u8,
                (upper % 0x100) as u8,
            ];
            &&& be_u32(bytes) == value
            &&& be_i32(bytes) == value || be_i32(bytes) == value - 0x1_0000_0000
            &&& be_i32(bytes) < 0 <==> value >= 0x8000_0000
            &&& be_u64(high + bytes) == upper * 0x1_0000_0000 + value
        }),
{
    lemma_written_number(value);
    lemma_written_number(upper);
    let bytes = written_number(value);
    let high = written_number(upper);
    assert((high + bytes).subrange(4, 8) =~= bytes);
    assert((high + bytes).subrange(0, 4) =~= high);
    assert(be_u32(high + bytes) == be_u32(high));
}

/// The bytes that a number is written in, the highest first.
spec fn written_number(value: u32) -> Seq<u8> {
    seq![
        (value / 0x100_0000) as u8,
        (value / 0x1_0000 % 0x100) as u8,
        (value / 0x100 % 0x100) as u8,
        (value % 0x100) as u8,
    ]
}

proof fn lemma_written_number(value: u32)
    ensures
        be_u32(written_number(value)) == value,
{
    let first = value / 0x100_0000;
    let second = value / 0x1_0000;
    let third = value / 0x100;
    assert(third == 0x100 * second + third % 0x100);
    assert(second == 0x100 * first + second % 0x100);
    assert(first < 0x100);
}

/// A box starts with its size and its kind, four bytes each. A size of one stands for a
/// size in the eight bytes behind, a size of zero for all that is left, and a box of a kind
/// of its own has sixteen bytes more of header. A box is refused exactly if it is smaller
/// than its header or does not lie in its parent.
pub proof fn law_boxes_have_size_and_kind(window: Mp4Window, start: int, parent_end: u64)
    requires
        0 <= start,
        start + 16 <= parent_end,
        window.holds(start, 16),
    ensures
        ({
            let head = window.at(start, 16);
            let written = be_u32(head);
            let kind = be_u32(head.subrange(4, 8));
            let size = if written == 0 {
                parent_end - start
            } else if written == 1 {
                be_u64(head.subrange(8, 16))
            } else {
                written
            };
            let header = if written == 1 && kind == 0x75756964 {
                32int
            } else if written == 1 {
                16int
            } else if kind == 0x75756964 {
                24int
            } else {
                8int
            };
            if header <= size <= parent_end - start {
                box_at(window, start, parent_end) == Ok::<Option<Mp4BoxHeader>, Mp4Error>(
                    Some(
                        Mp4BoxHeader {
                            kind: kind as u32,
                            payload: (start + header) as u64,
                            end: (start + size) as u64,
                        },
                    ),
                )
            } else {
                box_at(window, start, parent_end) == Err::<Option<Mp4BoxHeader>, Mp4Error>(
                    Mp4Error::InvalidBoxSize,
                )
            }
        }),
{
    let head = window.at(start, 16);
    let first = window.at(start, 8);
    assert(first =~= head.subrange(0, 8));
    assert(first.subrange(4, 8) =~= head.subrange(4, 8));
    assert(window.at(start + 8, 8) =~= head.subrange(8, 16));
}

/// Boxes that lie one behind the other from a position to the end of their parent.
pub open spec fn are_boxes(
    window: Mp4Window,
    position: u64,
    end: u64,
    boxes: Seq<Mp4BoxHeader>,
) -> bool
    decreases boxes.len(),
{
    if boxes.len() == 0 {
        box_at(window, position as int, end) == Ok::<Option<Mp4BoxHeader>, Mp4Error>(None)
    } else {
        &&& box_at(window, position as int, end) == Ok::<Option<Mp4BoxHeader>, Mp4Error>(
            Some(boxes[0]),
        )
        &&& are_boxes(window, boxes[0].end, end, boxes.drop_first())
    }
}

/// What a movie's box is to the search for the video track, if it is a track: its parts.
pub open spec fn track_in(window: Mp4Window, header: Mp4BoxHeader) -> Result<
    Mp4TrackInfo,
    Mp4Error,
> {
    track_info(window, header.payload, header.end, no_track())
}

/// A box of another kind than a track in front of others makes no difference to what is
/// found behind it.
pub proof fn law_other_boxes_hide_no_track(
    window: Mp4Window,
    position: u64,
    end: u64,
    header: Mp4BoxHeader,
)
    requires
        box_at(window, position as int, end) == Ok::<Option<Mp4BoxHeader>, Mp4Error>(Some(header)),
        header.kind != 0x7472616b,
    ensures
        video_track_timing(window, position, end) == video_track_timing(window, header.end, end),
{
    law_boxes_lie_in_their_parent(window, position, end);
}

/// The first track of a movie whose handler is that of video is found, whatever other boxes
/// stand before it: its timescale, its duration in that timescale, and its rotation. The
/// media header's duration counts, or else the one that the sample table adds up to.
pub proof fn law_first_video_track_is_found(
    window: Mp4Window,
    position: u64,
    end: u64,
    boxes: Seq<Mp4BoxHeader>,
    at: int,
)
    requires
        are_boxes(window, position, end, boxes),
        0 <= at < boxes.len(),
        boxes[at].kind == 0x7472616b,
        track_in(window, boxes[at]) matches Ok(track) && track.handler_type == Some(0x76696465u32),
        forall|i: int|
            0 <= i < at && (#[trigger] boxes[i]).kind == 0x7472616b ==> (track_in(
                window,
                boxes[i],
            ) matches Ok(track) && track.handler_type != Some(0x76696465u32)),
    ensures
        video_track_timing(window, position, end) matches Ok(timing) && {
            let track = track_in(window, boxes[at])->Ok_0;
            &&& timing.timescale == track.timescale
            &&& timing.rotation == track.rotation
            &&& (track.timescale is Some && 0 < track.timescale->0 <= i32::MAX
                && track.mdhd_duration_units is Some && 0 < track.mdhd_duration_units->0
                <= i64::MAX) ==> timing.duration == Some(
                MediaTime {
                    value: track.mdhd_duration_units->0 as i64,
                    timescale: track.timescale->0 as i32,
                },
            )
            &&& (track.timescale is Some && 0 < track.timescale->0 <= i32::MAX
                && track.mdhd_duration_units is None && track.stts_duration_units is Some && 0
                < track.stts_duration_units->0 <= i64::MAX) ==> timing.duration == Some(
                MediaTime {
                    value: track.stts_duration_units->0 as i64,
                    timescale: track.timescale->0 as i32,
                },
            )
            &&& (track.timescale is None || (track.mdhd_duration_units is None
                && track.stts_duration_units is None)) ==> timing.duration is None
            &&& timing.unknown_mdhd_duration is Some <==> track.timescale is Some
                && track.unknown_mdhd_duration_units is Some
            &&& timing.unknown_mdhd_duration matches Some(unknown) ==> Some(unknown.units)
                == track.unknown_mdhd_duration_units && Some(unknown.timescale) == track.timescale
        },
    decreases at,
{
    law_boxes_lie_in_their_parent(window, position, end);
    if at > 0 {
        let rest = boxes.drop_first();
        assert(boxes[0].kind == 0x7472616b ==> track_in(window, boxes[0]) is Ok);
        assert forall|i: int| 0 <= i < at - 1 && (#[trigger] rest[i]).kind == 0x7472616b implies (
        track_in(window, rest[i]) matches Ok(track) && track.handler_type != Some(0x76696465u32)) by {
            assert(rest[i] == boxes[i + 1]);
        }
        law_first_video_track_is_found(window, boxes[0].end, end, rest, at - 1);
    }
}

/// A movie whose tracks can all be read and of which none is a video's has no timing.
pub proof fn law_movies_without_video_have_no_timing(
    window: Mp4Window,
    position: u64,
    end: u64,
    boxes: Seq<Mp4BoxHeader>,
)
    requires
        are_boxes(window, position, end, boxes),
        forall|i: int|
            0 <= i < boxes.len() && (#[trigger] boxes[i]).kind == 0x7472616b ==> (track_in(
                window,
                boxes[i],
            ) matches Ok(track) && track.handler_type != Some(0x76696465u32)),
    ensures
        video_track_timing(window, position, end) matches Ok(timing) && timing.timescale is None
            && timing.duration is None && timing.unknown_mdhd_duration is None
            && timing.rotation is None,
    decreases boxes.len(),
{
    law_boxes_lie_in_their_parent(window, position, end);
    if boxes.len() > 0 {
        let rest = boxes.drop_first();
        assert(boxes[0].kind == 0x7472616b ==> track_in(window, boxes[0]) is Ok);
        assert forall|i: int|
            0 <= i < rest.len() && (#[trigger] rest[i]).kind == 0x7472616b implies (track_in(
            window,
            rest[i],
        ) matches Ok(track) && track.handler_type != Some(0x76696465u32)) by {
            assert(rest[i] == boxes[i + 1]);
        }
        law_movies_without_video_have_no_timing(window, boxes[0].end, end, rest);
    }
}

/// A track that cannot be read, with no video track before it, is the end of the search.
pub proof fn law_unreadable_tracks_are_told(
    window: Mp4Window,
    position: u64,
    end: u64,
    boxes: Seq<Mp4BoxHeader>,
    at: int,
    error: Mp4Error,
)
    requires
        are_boxes(window, position, end, boxes),
        0 <= at < boxes.len(),
        boxes[at].kind == 0x7472616b,
        track_in(window, boxes[at]) == Err::<Mp4TrackInfo, Mp4Error>(error),
        forall|i: int|
            0 <= i < at && (#[trigger] boxes[i]).kind == 0x7472616b ==> (track_in(
                window,
                boxes[i],
            ) matches Ok(track) && track.handler_type != Some(0x76696465u32)),
    ensures
        video_track_timing(window, position, end) == Err::<Mp4VideoTiming, Mp4Error>(error),
    decreases at,
{
    law_boxes_lie_in_their_parent(window, position, end);
    if at > 0 {
        let rest = boxes.drop_first();
        assert(boxes[0].kind == 0x7472616b ==> track_in(window, boxes[0]) is Ok);
        assert forall|i: int| 0 <= i < at - 1 && (#[trigger] rest[i]).kind == 0x7472616b implies (
        track_in(window, rest[i]) matches Ok(track) && track.handler_type != Some(0x76696465u32)) by {
            assert(rest[i] == boxes[i + 1]);
        }
        law_unreadable_tracks_are_told(window, boxes[0].end, end, rest, at - 1, error);
    }
}

/// A track's boxes behind a position leave the rotation as it is, where none is a header.
proof fn lemma_rotation_stays(
    window: Mp4Window,
    position: u64,
    end: u64,
    boxes: Seq<Mp4BoxHeader>,
    before: Mp4TrackInfo,
)
    requires
        are_boxes(window, position, end, boxes),
        forall|i: int| 0 <= i < boxes.len() ==> (#[trigger] boxes[i]).kind != 0x746b6864,
    ensures
        track_info(window, position, end, before) matches Ok(track) ==> track.rotation
            == before.rotation,
    decreases boxes.len(),
{
    law_boxes_lie_in_their_parent(window, position, end);
    if boxes.len() > 0 {
        let rest = boxes.drop_first();
        assert(boxes[0].kind != 0x746b6864);
        assert forall|i: int| 0 <= i < rest.len() implies (#[trigger] rest[i]).kind
            != 0x746b6864 by {
            assert(rest[i] == boxes[i + 1]);
        }
        if let Ok(next) = with_track_box(window, boxes[0], before) {
            lemma_rotation_stays(window, boxes[0].end, end, rest, next);
        }
    }
}

/// A track is turned as its header says, the last if there are several, whatever other boxes
/// it has.
pub proof fn law_tracks_are_turned_as_their_header_says(
    window: Mp4Window,
    position: u64,
    end: u64,
    boxes: Seq<Mp4BoxHeader>,
    before: Mp4TrackInfo,
    at: int,
)
    requires
        are_boxes(window, position, end, boxes),
        0 <= at < boxes.len(),
        boxes[at].kind == 0x746b6864,
        forall|i: int| at < i < boxes.len() ==> (#[trigger] boxes[i]).kind != 0x746b6864,
    ensures
        track_info(window, position, end, before) matches Ok(track) ==> tkhd_rotation(
            window,
            boxes[at].payload,
            boxes[at].end,
        ) == Ok::<Option<DisplayRotation>, Mp4Error>(track.rotation),
    decreases boxes.len(),
{
    law_boxes_lie_in_their_parent(window, position, end);
    let rest = boxes.drop_first();
    assert forall|i: int| at - 1 < i < rest.len() && i >= 0 implies (#[trigger] rest[i]).kind
        != 0x746b6864 by {
        assert(rest[i] == boxes[i + 1]);
    }
    if let Ok(next) = with_track_box(window, boxes[0], before) {
        if at > 0 {
            assert(rest[at - 1] == boxes[at]);
            law_tracks_are_turned_as_their_header_says(
                window,
                boxes[0].end,
                end,
                rest,
                next,
                at - 1,
            );
        } else {
            lemma_rotation_stays(window, boxes[0].end, end, rest, next);
        }
    }
}

/// What two tracks say of their media is the same.
pub open spec fn same_media(a: Mp4TrackInfo, b: Mp4TrackInfo) -> bool {
    &&& a.handler_type == b.handler_type
    &&& a.timescale == b.timescale
    &&& a.mdhd_duration_units == b.mdhd_duration_units
    &&& a.unknown_mdhd_duration_units == b.unknown_mdhd_duration_units
    &&& a.stts_duration_units == b.stts_duration_units
}

proof fn lemma_media_stays(
    window: Mp4Window,
    position: u64,
    end: u64,
    boxes: Seq<Mp4BoxHeader>,
    before: Mp4TrackInfo,
)
    requires
        are_boxes(window, position, end, boxes),
        forall|i: int| 0 <= i < boxes.len() ==> (#[trigger] boxes[i]).kind != 0x6d646961,
    ensures
        track_info(window, position, end, before) matches Ok(track) ==> same_media(track, before),
    decreases boxes.len(),
{
    law_boxes_lie_in_their_parent(window, position, end);
    if boxes.len() > 0 {
        let rest = boxes.drop_first();
        assert(boxes[0].kind != 0x6d646961);
        assert forall|i: int| 0 <= i < rest.len() implies (#[trigger] rest[i]).kind
            != 0x6d646961 by {
            assert(rest[i] == boxes[i + 1]);
        }
        if let Ok(next) = with_track_box(window, boxes[0], before) {
            lemma_media_stays(window, boxes[0].end, end, rest, next);
        }
    }
}

/// A track's media is what its media box says, the last if there are several, whatever other
/// boxes it has.
pub proof fn law_tracks_have_the_media_of_their_media_box(
    window: Mp4Window,
    position: u64,
    end: u64,
    boxes: Seq<Mp4BoxHeader>,
    before: Mp4TrackInfo,
    at: int,
)
    requires
        are_boxes(window, position, end, boxes),
        0 <= at < boxes.len(),
        boxes[at].kind == 0x6d646961,
        forall|i: int| at < i < boxes.len() ==> (#[trigger] boxes[i]).kind != 0x6d646961,
    ensures
        track_info(window, position, end, before) matches Ok(track) ==> (media_info(
            window,
            boxes[at].payload,
            boxes[at].end,
            no_track(),
        ) matches Ok(media) && same_media(track, media)),
    decreases boxes.len(),
{
    law_boxes_lie_in_their_parent(window, position, end);
    let rest = boxes.drop_first();
    assert forall|i: int| at - 1 < i < rest.len() && i >= 0 implies (#[trigger] rest[i]).kind
        != 0x6d646961 by {
        assert(rest[i] == boxes[i + 1]);
    }
    if let Ok(next) = with_track_box(window, boxes[0], before) {
        if at > 0 {
            assert(rest[at - 1] == boxes[at]);
            law_tracks_have_the_media_of_their_media_box(
                window,
                boxes[0].end,
                end,
                rest,
                next,
                at - 1,
            );
        } else {
            lemma_media_stays(window, boxes[0].end, end, rest, next);
        }
    }
}

/// A track can be read exactly if its headers and its media boxes can.
pub proof fn law_tracks_are_read_if_their_boxes_are(
    window: Mp4Window,
    position: u64,
    end: u64,
    boxes: Seq<Mp4BoxHeader>,
    before: Mp4TrackInfo,
)
    requires
        are_boxes(window, position, end, boxes),
    ensures
        track_info(window, position, end, before) is Ok <==> forall|i: int|
            0 <= i < boxes.len() ==> {
                let header = #[trigger] boxes[i];
                &&& header.kind == 0x746b6864 ==> tkhd_rotation(
                    window,
                    header.payload,
                    header.end,
                ) is Ok
                &&& header.kind == 0x6d646961 ==> media_info(
                    window,
                    header.payload,
                    header.end,
                    no_track(),
                ) is Ok
            },
    decreases boxes.len(),
{
    law_boxes_lie_in_their_parent(window, position, end);
    if boxes.len() > 0 {
        let rest = boxes.drop_first();
        let first = boxes[0];
        if let Ok(next) = with_track_box(window, first, before) {
            law_tracks_are_read_if_their_boxes_are(window, first.end, end, rest, next);
            if track_info(window, position, end, before) is Ok {
                assert forall|i: int| 0 <= i < boxes.len() implies {
                    let header = #[trigger] boxes[i];
                    &&& header.kind == 0x746b6864 ==> tkhd_rotation(
                        window,
                        header.payload,
                        header.end,
                    ) is Ok
                    &&& header.kind == 0x6d646961 ==> media_info(
                        window,
                        header.payload,
                        header.end,
                        no_track(),
                    ) is Ok
                } by {
                    if i > 0 {
                        assert(rest[i - 1] == boxes[i]);
                    }
                }
            } else {
                let i = choose|i: int|
                    0 <= i < rest.len() && !({
                        let header = #[trigger] rest[i];
                        &&& header.kind == 0x746b6864 ==> tkhd_rotation(
                            window,
                            header.payload,
                            header.end,
                        ) is Ok
                        &&& header.kind == 0x6d646961 ==> media_info(
                            window,
                            header.payload,
                            header.end,
                            no_track(),
                        ) is Ok
                    });
                assert(boxes[i + 1] == rest[i]);
            }
        } else {
            assert(boxes[0] == first);
        }
    }
}

/// A media header says its timescale and its duration: behind twelve bytes, four bytes each,
/// or in version one behind twenty bytes, in four bytes and eight. A duration of all ones is
/// unknown, and one of zero is none.
pub proof fn law_media_headers_say_timescale_and_duration(payload: Seq<u8>)
    requires
        payload.len() >= 32,
    ensures
        payload[0] == 0 && be_u32(payload.subrange(12, 16)) > 0 ==> (mdhd_timing(
            payload,
        ) matches Ok(timing) && {
            let units = be_u32(payload.subrange(16, 20));
            &&& timing.timescale == Some(be_u32(payload.subrange(12, 16)) as u32)
            &&& 0 < units < 0xffff_ffff ==> timing.duration_units == Some(units as u64)
                && timing.unknown_duration_units is None
            &&& units == 0xffff_ffff ==> timing.duration_units is None
                && timing.unknown_duration_units == Some(units as u64)
            &&& units == 0 ==> timing.duration_units is None && timing.unknown_duration_units is None
        }),
        payload[0] == 1 && be_u32(payload.subrange(20, 24)) > 0 ==> (mdhd_timing(
            payload,
        ) matches Ok(timing) && {
            let units = be_u64(payload.subrange(24, 32));
            &&& timing.timescale == Some(be_u32(payload.subrange(20, 24)) as u32)
            &&& 0 < units < 0xffff_ffff_ffff_ffff ==> timing.duration_units == Some(units as u64)
                && timing.unknown_duration_units is None
            &&& units == 0xffff_ffff_ffff_ffff ==> timing.duration_units is None
                && timing.unknown_duration_units == Some(units as u64)
            &&& units == 0 ==> timing.duration_units is None && timing.unknown_duration_units is None
        }),
        (payload[0] == 0 && be_u32(payload.subrange(12, 16)) == 0) || (payload[0] == 1 && be_u32(
            payload.subrange(20, 24),
        ) == 0) || payload[0] > 1 ==> (mdhd_timing(payload) matches Ok(timing)
            && timing.timescale is None && timing.duration_units is None
            && timing.unknown_duration_units is None),
{
}

/// The boxes of a media box are read where they stand: a media header by its first bytes,
/// and a handler box by the four bytes behind its first eight.
pub proof fn law_media_boxes_are_read_where_they_stand(window: Mp4Window, start: u64, end: u64)
    requires
        start + 32 <= end,
        window.holds(start as int, 32),
    ensures
        mdhd_box_timing(window, start, end) == mdhd_timing(window.at(start as int, 32)),
        hdlr_type(window, start, end) == Ok::<u32, Mp4Error>(
            be_u32(window.at(start + 8, 4)) as u32,
        ),
{
    assert(window.at(start as int, 16).subrange(8, 12) =~= window.at(start + 8, 4));
}

/// How far a matrix moves a picture's next column and its next row, in units of one pixel, is
/// how far the rotation moves them that it is read as; a matrix that moves them as a rotation
/// does is read as one.
pub proof fn law_matrices_turn_as_their_rotation(a: int, b: int, c: int, d: int)
    ensures
        matrix_rotation(a, b, c, d) matches Some(rotation) ==> moves_as(rotation, a, b, c, d),
        forall|rotation: DisplayRotation| #[trigger]
            moves_as(rotation, a, b, c, d) ==> matrix_rotation(a, b, c, d) == Some(rotation),
{
}

/// A matrix in units of 65536 moves the next column and the next row as a rotation does.
pub open spec fn moves_as(rotation: DisplayRotation, a: int, b: int, c: int, d: int) -> bool {
    let corner = frame::turned_to(rotation, 0, 0, 2, 2);
    let column = frame::turned_to(rotation, 1, 0, 2, 2);
    let row = frame::turned_to(rotation, 0, 1, 2, 2);
    &&& a == 65_536 * (column.0 - corner.0)
    &&& b == 65_536 * (column.1 - corner.1)
    &&& c == 65_536 * (row.0 - corner.0)
    &&& d == 65_536 * (row.1 - corner.1)
}

/// A track header has its matrix behind forty bytes, or in version one behind fifty-two: nine
/// numbers of four bytes, of which the first two and the fourth and fifth turn the picture.
pub proof fn law_track_headers_hold_the_matrix(window: Mp4Window, start: u64, end: u64)
    requires
        start + 88 <= end,
        window.holds(start as int, 88),
    ensures
        ({
            let payload = window.at(start as int, 88);
            let matrix = if payload[0] == 0 {
                40int
            } else {
                52int
            };
            if payload[0] <= 1 {
                tkhd_rotation(window, start, end) == Ok::<Option<DisplayRotation>, Mp4Error>(
                    matrix_rotation(
                        be_i32(payload.subrange(matrix, matrix + 4)),
                        be_i32(payload.subrange(matrix + 4, matrix + 8)),
                        be_i32(payload.subrange(matrix + 12, matrix + 16)),
                        be_i32(payload.subrange(matrix + 16, matrix + 20)),
                    ),
                )
            } else {
                tkhd_rotation(window, start, end) == Err::<Option<DisplayRotation>, Mp4Error>(
                    Mp4Error::UnsupportedTkhdVersion { version: payload[0] },
                )
            }
        }),
{
    let payload = window.at(start as int, 88);
    assert(window.at(start as int, 1)[0] == payload[0]);
    let offset = if payload[0] == 0 {
        40int
    } else {
        52int
    };
    let matrix = window.at(start + offset, 36);
    assert(matrix.subrange(0, 4) =~= payload.subrange(offset, offset + 4));
    assert(matrix.subrange(4, 8) =~= payload.subrange(offset + 4, offset + 8));
    assert(matrix.subrange(12, 16) =~= payload.subrange(offset + 12, offset + 16));
    assert(matrix.subrange(16, 20) =~= payload.subrange(offset + 16, offset + 20));
}

/// A time-to-sample table adds up: an entry is a number of samples times their duration, and
/// entries in a row are the sum of the first and the others.
pub proof fn law_sample_tables_add_up(window: Mp4Window, start: int, count: int)
    requires
        count >= 1,
    ensures
        stts_units(window, start, count) matches Ok(total) ==> {
            &&& stts_units(window, start + 8, count - 1) is Ok
            &&& total == be_u32(window.at(start, 4)) * be_u32(window.at(start + 4, 4)) + stts_units(
                window,
                start + 8,
                count - 1,
            )->Ok_0
        },
        stts_units(window, start, 0) == Ok::<u64, Mp4Error>(0),
    decreases count,
{
    if let Ok(total) = stts_units(window, start, count) {
        let first = be_u32(window.at(start, 4)) * be_u32(window.at(start + 4, 4));
        if count == 1 {
            assert(stts_units(window, start, 0) == Ok::<u64, Mp4Error>(0));
            assert(window.holds(start, 8));
            lemma_entry_halves(window, start);
        } else {
            law_sample_tables_add_up(window, start, count - 1);
            let position = start + (count - 1) * 8;
            assert(position == (start + 8) + (count - 2) * 8);
            let entry = window.at(position, 8);
            lemma_entry_halves(window, position);
            assert(first >= 0) by (nonlinear_arith)
                requires
                    first == be_u32(window.at(start, 4)) * be_u32(window.at(start + 4, 4)),
                    be_u32(window.at(start, 4)) >= 0,
                    be_u32(window.at(start + 4, 4)) >= 0,
            ;
        }
    }
}

proof fn lemma_entry_halves(window: Mp4Window, position: int)
    requires
        window.holds(position, 8),
    ensures
        be_u32(window.at(position, 8)) == be_u32(window.at(position, 4)),
        be_u32(window.at(position, 8).subrange(4, 8)) == be_u32(window.at(position + 4, 4)),
{
    assert(window.at(position, 8).subrange(0, 4) =~= window.at(position, 4));
    assert(window.at(position, 8).subrange(4, 8) =~= window.at(position + 4, 4));
}

/// A time-to-sample box says behind four bytes how many entries it has, and they follow.
pub proof fn law_sample_boxes_hold_their_entries(window: Mp4Window, start: u64, end: u64)
    requires
        start + 8 <= end,
        window.holds(start as int, 8),
    ensures
        ({
            let entries = be_u32(window.at(start + 4, 4));
            if 8 + 8 * entries > end - start {
                stts_duration(window, start, end) == Err::<Option<u64>, Mp4Error>(
                    Mp4Error::SttsTooShort,
                )
            } else {
                match stts_units(window, start + 8, entries) {
                    Ok(units) => if units > 0 {
                        stts_duration(window, start, end) == Ok::<Option<u64>, Mp4Error>(Some(units))
                    } else {
                        stts_duration(window, start, end) == Ok::<Option<u64>, Mp4Error>(None)
                    },
                    Err(error) => stts_duration(window, start, end) == Err::<
                        Option<u64>,
                        Mp4Error,
                    >(error),
                }
            }
        }),
{
    assert(window.at(start as int, 8).subrange(4, 8) =~= window.at(start + 4, 4));
}

/// A search through a file goes on behind every box until the movie box.
pub proof fn law_movie_boxes_are_found(
    window: Mp4Window,
    start: u64,
    file_len: u64,
    header: Mp4BoxHeader,
)
    requires
        box_at(window, start as int, file_len) == Ok::<Option<Mp4BoxHeader>, Mp4Error>(
            Some(header),
        ),
    ensures
        top_level_step(window, start, file_len) == Ok::<Mp4Step, Mp4Error>(
            if header.kind == 0x6d6f6f76 {
                Mp4Step::Movie { payload: header.payload, end: header.end }
            } else {
                Mp4Step::Skip { next: header.end }
            },
        ),
{
}

proof fn lemma_timescale_stays(
    window: Mp4Window,
    position: u64,
    end: u64,
    boxes: Seq<Mp4BoxHeader>,
    before: Mp4TrackInfo,
)
    requires
        are_boxes(window, position, end, boxes),
        forall|i: int| 0 <= i < boxes.len() ==> (#[trigger] boxes[i]).kind != 0x6d646864,
    ensures
        media_info(window, position, end, before) matches Ok(track) ==> (track.timescale == before.timescale
            && track.mdhd_duration_units == before.mdhd_duration_units
            && track.unknown_mdhd_duration_units == before.unknown_mdhd_duration_units),
    decreases boxes.len(),
{
    law_boxes_lie_in_their_parent(window, position, end);
    if boxes.len() > 0 {
        let rest = boxes.drop_first();
        assert(boxes[0].kind != 0x6d646864);
        assert forall|i: int| 0 <= i < rest.len() implies (#[trigger] rest[i]).kind
            != 0x6d646864 by {
            assert(rest[i] == boxes[i + 1]);
        }
        if let Ok(next) = with_media_box(window, boxes[0], before) {
            lemma_timescale_stays(window, boxes[0].end, end, rest, next);
        }
    }
}

/// A media box has the timescale and the duration that its header says, the last if there are
/// several, whatever other boxes it has.
pub proof fn law_media_is_timed_as_its_header_says(
    window: Mp4Window,
    position: u64,
    end: u64,
    boxes: Seq<Mp4BoxHeader>,
    before: Mp4TrackInfo,
    at: int,
)
    requires
        are_boxes(window, position, end, boxes),
        0 <= at < boxes.len(),
        boxes[at].kind == 0x6d646864,
        forall|i: int| at < i < boxes.len() ==> (#[trigger] boxes[i]).kind != 0x6d646864,
    ensures
        media_info(window, position, end, before) matches Ok(track) ==> (mdhd_box_timing(
            window,
            boxes[at].payload,
            boxes[at].end,
        ) matches Ok(timing) && track.timescale == timing.timescale && track.mdhd_duration_units
            == timing.duration_units && track.unknown_mdhd_duration_units
            == timing.unknown_duration_units),
    decreases boxes.len(),
{
    law_boxes_lie_in_their_parent(window, position, end);
    let rest = boxes.drop_first();
    assert forall|i: int| at - 1 < i < rest.len() && i >= 0 implies (#[trigger] rest[i]).kind
        != 0x6d646864 by {
        assert(rest[i] == boxes[i + 1]);
    }
    if let Ok(next) = with_media_box(window, boxes[0], before) {
        if at > 0 {
            assert(rest[at - 1] == boxes[at]);
            law_media_is_timed_as_its_header_says(window, boxes[0].end, end, rest, next, at - 1);
        } else {
            lemma_timescale_stays(window, boxes[0].end, end, rest, next);
        }
    }
}

proof fn lemma_handler_stays(
    window: Mp4Window,
    position: u64,
    end: u64,
    boxes: Seq<Mp4BoxHeader>,
    before: Mp4TrackInfo,
)
    requires
        are_boxes(window, position, end, boxes),
        forall|i: int| 0 <= i < boxes.len() ==> (#[trigger] boxes[i]).kind != 0x68646c72,
    ensures
        media_info(window, position, end, before) matches Ok(track) ==> track.handler_type
            == before.handler_type,
    decreases boxes.len(),
{
    law_boxes_lie_in_their_parent(window, position, end);
    if boxes.len() > 0 {
        let rest = boxes.drop_first();
        assert(boxes[0].kind != 0x68646c72);
        assert forall|i: int| 0 <= i < rest.len() implies (#[trigger] rest[i]).kind
            != 0x68646c72 by {
            assert(rest[i] == boxes[i + 1]);
        }
        if let Ok(next) = with_media_box(window, boxes[0], before) {
            lemma_handler_stays(window, boxes[0].end, end, rest, next);
        }
    }
}

/// A media box has the handler that its handler box names, the last if there are several,
/// whatever other boxes it has.
pub proof fn law_media_has_the_handler_of_its_handler_box(
    window: Mp4Window,
    position: u64,
    end: u64,
    boxes: Seq<Mp4BoxHeader>,
    before: Mp4TrackInfo,
    at: int,
)
    requires
        are_boxes(window, position, end, boxes),
        0 <= at < boxes.len(),
        boxes[at].kind == 0x68646c72,
        forall|i: int| at < i < boxes.len() ==> (#[trigger] boxes[i]).kind != 0x68646c72,
    ensures
        media_info(window, position, end, before) matches Ok(track) ==> (hdlr_type(
            window,
            boxes[at].payload,
            boxes[at].end,
        ) matches Ok(handler) && track.handler_type == Some(handler)),
    decreases boxes.len(),
{
    law_boxes_lie_in_their_parent(window, position, end);
    let rest = boxes.drop_first();
    assert forall|i: int| at - 1 < i < rest.len() && i >= 0 implies (#[trigger] rest[i]).kind
        != 0x68646c72 by {
        assert(rest[i] == boxes[i + 1]);
    }
    if let Ok(next) = with_media_box(window, boxes[0], before) {
        if at > 0 {
            assert(rest[at - 1] == boxes[at]);
            law_media_has_the_handler_of_its_handler_box(window, boxes[0].end, end, rest, next, at - 1);
        } else {
            lemma_handler_stays(window, boxes[0].end, end, rest, next);
        }
    }
}

proof fn lemma_table_duration_stays(
    window: Mp4Window,
    position: u64,
    end: u64,
    boxes: Seq<Mp4BoxHeader>,
    before: Mp4TrackInfo,
)
    requires
        are_boxes(window, position, end, boxes),
        forall|i: int| 0 <= i < boxes.len() ==> (#[trigger] boxes[i]).kind != 0x6d696e66,
    ensures
        media_info(window, position, end, before) matches Ok(track) ==> track.stts_duration_units
            == before.stts_duration_units,
    decreases boxes.len(),
{
    law_boxes_lie_in_their_parent(window, position, end);
    if boxes.len() > 0 {
        let rest = boxes.drop_first();
        assert(boxes[0].kind != 0x6d696e66);
        assert forall|i: int| 0 <= i < rest.len() implies (#[trigger] rest[i]).kind
            != 0x6d696e66 by {
            assert(rest[i] == boxes[i + 1]);
        }
        if let Ok(next) = with_media_box(window, boxes[0], before) {
            lemma_table_duration_stays(window, boxes[0].end, end, rest, next);
        }
    }
}

/// A media box has the duration that the tables of its information box add up to, the last if
/// there are several, whatever other boxes it has.
pub proof fn law_media_has_the_table_of_its_information_box(
    window: Mp4Window,
    position: u64,
    end: u64,
    boxes: Seq<Mp4BoxHeader>,
    before: Mp4TrackInfo,
    at: int,
)
    requires
        are_boxes(window, position, end, boxes),
        0 <= at < boxes.len(),
        boxes[at].kind == 0x6d696e66,
        forall|i: int| at < i < boxes.len() ==> (#[trigger] boxes[i]).kind != 0x6d696e66,
    ensures
        media_info(window, position, end, before) matches Ok(track) ==> minf_duration(
            window,
            boxes[at].payload,
            boxes[at].end,
            None,
        ) == Ok::<Option<u64>, Mp4Error>(track.stts_duration_units),
    decreases boxes.len(),
{
    law_boxes_lie_in_their_parent(window, position, end);
    let rest = boxes.drop_first();
    assert forall|i: int| at - 1 < i < rest.len() && i >= 0 implies (#[trigger] rest[i]).kind
        != 0x6d696e66 by {
        assert(rest[i] == boxes[i + 1]);
    }
    if let Ok(next) = with_media_box(window, boxes[0], before) {
        if at > 0 {
            assert(rest[at - 1] == boxes[at]);
            law_media_has_the_table_of_its_information_box(window, boxes[0].end, end, rest, next, at - 1);
        } else {
            lemma_table_duration_stays(window, boxes[0].end, end, rest, next);
        }
    }
}

proof fn lemma_stbl_stays(
    window: Mp4Window,
    position: u64,
    end: u64,
    boxes: Seq<Mp4BoxHeader>,
    before: Option<u64>,
)
    requires
        are_boxes(window, position, end, boxes),
        forall|i: int| 0 <= i < boxes.len() ==> (#[trigger] boxes[i]).kind != 0x73747473,
    ensures
        stbl_duration(window, position, end, before) == Ok::<Option<u64>, Mp4Error>(before),
    decreases boxes.len(),
{
    law_boxes_lie_in_their_parent(window, position, end);
    if boxes.len() > 0 {
        let rest = boxes.drop_first();
        assert(boxes[0].kind != 0x73747473);
        assert forall|i: int| 0 <= i < rest.len() implies (#[trigger] rest[i]).kind
            != 0x73747473 by {
            assert(rest[i] == boxes[i + 1]);
        }
        lemma_stbl_stays(window, boxes[0].end, end, rest, before);
    }
}

/// A sample table has the duration of its time-to-sample box, the last if there are several,
/// whatever other boxes it has.
pub proof fn law_sample_tables_have_the_duration_of_their_times(
    window: Mp4Window,
    position: u64,
    end: u64,
    boxes: Seq<Mp4BoxHeader>,
    before: Option<u64>,
    at: int,
)
    requires
        are_boxes(window, position, end, boxes),
        0 <= at < boxes.len(),
        boxes[at].kind == 0x73747473,
        forall|i: int| at < i < boxes.len() ==> (#[trigger] boxes[i]).kind != 0x73747473,
    ensures
        stbl_duration(window, position, end, before) matches Ok(duration) ==> stts_duration(
            window,
            boxes[at].payload,
            boxes[at].end,
        ) == Ok::<
            Option<u64>,
            Mp4Error,
        >(duration),
        (forall|i: int|
            0 <= i < at ==> (#[trigger] boxes[i]).kind != 0x73747473) ==> stbl_duration(
            window,
            position,
            end,
            before,
        ) == stts_duration(
            window,
            boxes[at].payload,
            boxes[at].end,
        ),
    decreases boxes.len(),
{
    law_boxes_lie_in_their_parent(window, position, end);
    let rest = boxes.drop_first();
    assert forall|i: int| at - 1 < i < rest.len() && i >= 0 implies (#[trigger] rest[i]).kind
        != 0x73747473 by {
        assert(rest[i] == boxes[i + 1]);
    }
    if at > 0 {
        assert(rest[at - 1] == boxes[at]);
        assert((forall|i: int| 0 <= i < at ==> (#[trigger] boxes[i]).kind != 0x73747473) ==> (
        forall|i: int| 0 <= i < at - 1 ==> (#[trigger] rest[i]).kind != 0x73747473)) by {
            if forall|i: int| 0 <= i < at ==> (#[trigger] boxes[i]).kind != 0x73747473 {
                assert forall|i: int| 0 <= i < at - 1 implies (#[trigger] rest[i]).kind
                    != 0x73747473 by {
                    assert(rest[i] == boxes[i + 1]);
                }
            }
        }
        if boxes[0].kind == 0x73747473 {
            let first = boxes[0];
            if let Ok(next) = stts_duration(window, first.payload, first.end) {
                law_sample_tables_have_the_duration_of_their_times(window, first.end, end, rest, next, at - 1);
            }
        } else {
            law_sample_tables_have_the_duration_of_their_times(window, boxes[0].end, end, rest, before, at - 1);
        }
    } else {
        let first = boxes[0];
        if let Ok(next) = stts_duration(window, first.payload, first.end) {
            lemma_stbl_stays(window, first.end, end, rest, next);
        }
    }
}

proof fn lemma_minf_stays(
    window: Mp4Window,
    position: u64,
    end: u64,
    boxes: Seq<Mp4BoxHeader>,
    before: Option<u64>,
)
    requires
        are_boxes(window, position, end, boxes),
        forall|i: int| 0 <= i < boxes.len() ==> (#[trigger] boxes[i]).kind != 0x7374626c,
    ensures
        minf_duration(window, position, end, before) == Ok::<Option<u64>, Mp4Error>(before),
    decreases boxes.len(),
{
    law_boxes_lie_in_their_parent(window, position, end);
    if boxes.len() > 0 {
        let rest = boxes.drop_first();
        assert(boxes[0].kind != 0x7374626c);
        assert forall|i: int| 0 <= i < rest.len() implies (#[trigger] rest[i]).kind
            != 0x7374626c by {
            assert(rest[i] == boxes[i + 1]);
        }
        lemma_minf_stays(window, boxes[0].end, end, rest, before);
    }
}

/// A media information box has the duration of its sample table, the last if there are
/// several, whatever other boxes it has.
pub proof fn law_information_boxes_have_the_duration_of_their_table(
    window: Mp4Window,
    position: u64,
    end: u64,
    boxes: Seq<Mp4BoxHeader>,
    before: Option<u64>,
    at: int,
)
    requires
        are_boxes(window, position, end, boxes),
        0 <= at < boxes.len(),
        boxes[at].kind == 0x7374626c,
        forall|i: int| at < i < boxes.len() ==> (#[trigger] boxes[i]).kind != 0x7374626c,
    ensures
        minf_duration(window, position, end, before) matches Ok(duration) ==> stbl_duration(
            window,
            boxes[at].payload,
            boxes[at].end,
            None,
        ) == Ok::<
            Option<u64>,
            Mp4Error,
        >(duration),
        (forall|i: int|
            0 <= i < at ==> (#[trigger] boxes[i]).kind != 0x7374626c) ==> minf_duration(
            window,
            position,
            end,
            before,
        ) == stbl_duration(
            window,
            boxes[at].payload,
            boxes[at].end,
            None,
        ),
    decreases boxes.len(),
{
    law_boxes_lie_in_their_parent(window, position, end);
    let rest = boxes.drop_first();
    assert forall|i: int| at - 1 < i < rest.len() && i >= 0 implies (#[trigger] rest[i]).kind
        != 0x7374626c by {
        assert(rest[i] == boxes[i + 1]);
    }
    if at > 0 {
        assert(rest[at - 1] == boxes[at]);
        assert((forall|i: int| 0 <= i < at ==> (#[trigger] boxes[i]).kind != 0x7374626c) ==> (
        forall|i: int| 0 <= i < at - 1 ==> (#[trigger] rest[i]).kind != 0x7374626c)) by {
            if forall|i: int| 0 <= i < at ==> (#[trigger] boxes[i]).kind != 0x7374626c {
                assert forall|i: int| 0 <= i < at - 1 implies (#[trigger] rest[i]).kind
                    != 0x7374626c by {
                    assert(rest[i] == boxes[i + 1]);
                }
            }
        }
        if boxes[0].kind == 0x7374626c {
            let first = boxes[0];
            if let Ok(next) = stbl_duration(window, first.payload, first.end, None) {
                law_information_boxes_have_the_duration_of_their_table(window, first.end, end, rest, next, at - 1);
            }
        } else {
            law_information_boxes_have_the_duration_of_their_table(window, boxes[0].end, end, rest, before, at - 1);
        }
    } else {
        let first = boxes[0];
        if let Ok(next) = stbl_duration(window, first.payload, first.end, None) {
            lemma_minf_stays(window, first.end, end, rest, next);
        }
    }
}

/// A media box can be read exactly if its headers, its handlers and its information boxes can.
pub proof fn law_media_is_read_if_its_boxes_are(
    window: Mp4Window,
    position: u64,
    end: u64,
    boxes: Seq<Mp4BoxHeader>,
    before: Mp4TrackInfo,
)
    requires
        are_boxes(window, position, end, boxes),
    ensures
        media_info(window, position, end, before) is Ok <==> forall|i: int|
            0 <= i < boxes.len() ==> media_box_is_readable(window, #[trigger] boxes[i]),
    decreases boxes.len(),
{
    law_boxes_lie_in_their_parent(window, position, end);
    if boxes.len() > 0 {
        let rest = boxes.drop_first();
        let first = boxes[0];
        if let Ok(next) = with_media_box(window, first, before) {
            law_media_is_read_if_its_boxes_are(window, first.end, end, rest, next);
            if media_info(window, position, end, before) is Ok {
                assert forall|i: int| 0 <= i < boxes.len() implies media_box_is_readable(
                    window,
                    #[trigger] boxes[i],
                ) by {
                    if i > 0 {
                        assert(rest[i - 1] == boxes[i]);
                    }
                }
            } else {
                let i = choose|i: int|
                    0 <= i < rest.len() && !media_box_is_readable(window, #[trigger] rest[i]);
                assert(boxes[i + 1] == rest[i]);
            }
        } else {
            assert(!media_box_is_readable(window, boxes[0]));
        }
    }
}

/// A box of a media box can be read, if it is looked into.
pub open spec fn media_box_is_readable(window: Mp4Window, header: Mp4BoxHeader) -> bool {
    &&& header.kind == 0x6d646864 ==> mdhd_box_timing(window, header.payload, header.end) is Ok
    &&& header.kind == 0x68646c72 ==> hdlr_type(window, header.payload, header.end) is Ok
    &&& header.kind == 0x6d696e66 ==> minf_duration(
        window,
        header.payload,
        header.end,
        None,
    ) is Ok
}

/// There is a box wherever eight bytes are left for its header, and only there. One that says its
/// size in these bytes ends that far on, with its payload behind the eight, or behind twenty-four
/// if it is of a kind of its own.
pub proof fn law_short_boxes(window: Mp4Window, start: int, parent_end: u64)
    requires
        0 <= start,
    ensures
        box_at(window, start, parent_end) == Ok::<Option<Mp4BoxHeader>, Mp4Error>(None) <==> start
            + 8 > parent_end,
        start + 8 <= parent_end && window.holds(start, 8) ==> {
            let size = be_u32(window.at(start, 4));
            let kind = be_u32(window.at(start + 4, 4));
            let header = if kind == 0x75756964 {
                24int
            } else {
                8int
            };
            size > 1 ==> if header <= size <= parent_end - start {
                box_at(window, start, parent_end) == Ok::<Option<Mp4BoxHeader>, Mp4Error>(
                    Some(
                        Mp4BoxHeader {
                            kind: kind as u32,
                            payload: (start + header) as u64,
                            end: (start + size) as u64,
                        },
                    ),
                )
            } else {
                box_at(window, start, parent_end) == Err::<Option<Mp4BoxHeader>, Mp4Error>(
                    Mp4Error::InvalidBoxSize,
                )
            }
        },
{
    if window.holds(start, 8) {
        lemma_entry_halves(window, start);
    }
}

/// The system's duration is taken where it gives one and the file marks none as unknown, or where
/// the two are not the same; the file's is taken where the system gives none, or gives the one that
/// the file marks as unknown.
pub proof fn law_the_systems_duration_counts_if_known<M: Fn(MediaTime, u64, u32) -> bool>(
    same: M,
    reported: Option<MediaTime>,
    timing: Mp4VideoTiming,
    duration: Option<MediaTime>,
)
    requires
        is_chosen_duration(same, reported, timing, duration),
    ensures
        reported is None ==> duration == timing.duration,
        reported is Some && timing.unknown_mdhd_duration is None ==> duration == reported,
        reported is Some && timing.unknown_mdhd_duration is Some ==> {
            let unknown = timing.unknown_mdhd_duration->0;
            let asked = (reported->0, unknown.units, unknown.timescale);
            &&& !call_ensures(same, asked, true) ==> duration == reported
            &&& !call_ensures(same, asked, false) ==> duration == timing.duration
        },
{
}

/// A number of units becomes a time of that value exactly if both it and the timescale are positive
/// and small enough to be written as one.
pub proof fn law_units_become_times(units: u64, timescale: u32)
    ensures
        mp4_media_time(units, timescale) is Some <==> 0 < units <= 0x7fff_ffff_ffff_ffff && 0
            < timescale <= 0x7fff_ffff,
        mp4_media_time(units, timescale) matches Some(time) ==> time.value == units
            && time.timescale == timescale,
{
}

} // verus!

//! Video files by their names.

use vstd::prelude::*;
use vstd::string::*;

verus! {

/// A letter as it is written in lower case; anything but the letters A to Z
/// stays.
pub open spec fn ascii_lower(letter: char) -> char {
    if 'A' <= letter && letter <= 'Z' {
        (letter as u32 + 32) as char
    } else {
        letter
    }
}

pub open spec fn lower_text(text: Seq<char>) -> Seq<char> {
    text.map_values(|letter: char| ascii_lower(letter))
}

/// Calls `str::to_ascii_lowercase`: the letters A to Z become lower case, and
/// everything else stays.
#[verifier::external_body]
fn to_lower(text: &str) -> (lower: String)
    ensures
        lower@ == lower_text(text@),
{
    text.to_ascii_lowercase()
}

/// The video formats that can be written.
#[derive(Debug, Clone, Copy, PartialEq, Eq, Structural)]
pub enum VideoContainer {
    Mp4,
    Mov,
}

/// The format that a file's extension names, upper case or lower.
pub open spec fn container_of(extension: Seq<char>) -> Option<VideoContainer> {
    if lower_text(extension) == "mp4"@ {
        Some(VideoContainer::Mp4)
    } else if lower_text(extension) == "mov"@ {
        Some(VideoContainer::Mov)
    } else {
        None
    }
}

fn find_container(lower: &String) -> (container: Option<VideoContainer>)
    ensures
        container == (if lower@ == "mp4"@ {
            Some(VideoContainer::Mp4)
        } else if lower@ == "mov"@ {
            Some(VideoContainer::Mov)
        } else {
            None
        }),
{
    if *lower == "mp4".to_owned() {
        Some(VideoContainer::Mp4)
    } else if *lower == "mov".to_owned() {
        Some(VideoContainer::Mov)
    } else {
        None
    }
}

/// Why a path is no video's.
#[derive(Debug)]
pub enum PathError {
    NoExtension,
    /// The extension, in lower case, is none that is accepted.
    UnsupportedExtension(String),
}

/// Checks that a path's extension names a video format.
pub fn validate_video_path(extension: Option<&str>) -> (result: Result<VideoContainer, PathError>)
    ensures
        match extension {
            None => result matches Err(PathError::NoExtension),
            Some(extension) => match container_of(extension@) {
                Some(container) => result == Ok::<VideoContainer, PathError>(container),
                None => result matches Err(PathError::UnsupportedExtension(lower)) && lower@
                    == lower_text(extension@),
            },
        },
{
    match extension {
        None => Err(PathError::NoExtension),
        Some(extension) => {
            let lower = to_lower(extension);
            match find_container(&lower) {
                Some(container) => Ok(container),
                None => Err(PathError::UnsupportedExtension(lower)),
            }
        },
    }
}

/// Why a system cannot write to a path.
#[derive(Debug, Clone, Copy, PartialEq, Eq, Structural)]
pub enum OutputError {
    MovNotSupported,
    UnsupportedExtension,
}

/// Checks that Media Foundation can write to a path: to MP4 files only.
pub fn validate_output_extension(extension: Option<&str>) -> (result: Result<(), OutputError>)
    ensures
        result == (match extension {
            Some(extension) => match container_of(extension@) {
                Some(VideoContainer::Mp4) => Ok::<(), OutputError>(()),
                Some(VideoContainer::Mov) => Err::<(), OutputError>(OutputError::MovNotSupported),
                None => Err::<(), OutputError>(OutputError::UnsupportedExtension),
            },
            None => Err::<(), OutputError>(OutputError::UnsupportedExtension),
        }),
{
    match extension {
        Some(extension) => {
            let lower = to_lower(extension);
            match find_container(&lower) {
                Some(VideoContainer::Mp4) => Ok(()),
                Some(VideoContainer::Mov) => Err(OutputError::MovNotSupported),
                None => Err(OutputError::UnsupportedExtension),
            }
        },
        None => Err(OutputError::UnsupportedExtension),
    }
}

/// Chooses the format in which AVFoundation writes to a path.
pub fn writer_container(extension: Option<&str>) -> (result: Result<VideoContainer, OutputError>)
    ensures
        result == (match extension {
            Some(extension) => match container_of(extension@) {
                Some(container) => Ok::<VideoContainer, OutputError>(container),
                None => Err::<VideoContainer, OutputError>(OutputError::UnsupportedExtension),
            },
            None => Err::<VideoContainer, OutputError>(OutputError::UnsupportedExtension),
        }),
{
    match extension {
        Some(extension) => {
            let lower = to_lower(extension);
            match find_container(&lower) {
                Some(container) => Ok(container),
                None => Err(OutputError::UnsupportedExtension),
            }
        },
        None => Err(OutputError::UnsupportedExtension),
    }
}

/// Whether a file is looked into as MP4, by its extension.
pub fn has_mp4_boxes(extension: Option<&str>) -> (boxes: bool)
    ensures
        boxes == (extension matches Some(extension) && (lower_text(extension@) == "mp4"@
            || lower_text(extension@) == "m4v"@ || lower_text(extension@) == "mov"@)),
{
    match extension {
        Some(extension) => {
            let lower = to_lower(extension);
            lower == "mp4".to_owned() || lower == "m4v".to_owned() || lower == "mov".to_owned()
        },
        None => false,
    }
}

/// How many bytes of a path a native bridge takes, the closing zero included.
pub const NATIVE_PATH_LEN: usize = 1024;

/// Why a path cannot be handed to a native bridge.
#[derive(Debug, Clone, Copy, PartialEq, Eq, Structural)]
pub enum NativePathError {
    InteriorNul,
    TooLong,
}

/// The path as a native bridge takes it: its bytes, and zeros behind.
pub open spec fn native_path_bytes(path: Seq<u8>) -> Seq<i8> {
    Seq::new(
        NATIVE_PATH_LEN as nat,
        |i: int|
            if i < path.len() {
                path[i] as i8
            } else {
                0
            },
    )
}

/// Writes a path as a native bridge takes it.
pub fn native_path(path: &[u8]) -> (result: Result<Vec<i8>, NativePathError>)
    ensures
        match result {
            Ok(bytes) => {
                &&& !path@.contains(0)
                &&& path@.len() < NATIVE_PATH_LEN
                &&& bytes@ == native_path_bytes(path@)
            },
            Err(NativePathError::InteriorNul) => path@.contains(0),
            Err(NativePathError::TooLong) => !path@.contains(0) && path@.len() >= NATIVE_PATH_LEN,
        },
{
    let mut at: usize = 0;
    while at < path.len()
        invariant
            at <= path@.len(),
            forall|i: int| 0 <= i < at ==> path@[i] != 0,
        decreases path@.len() - at,
    {
        if path[at] == 0 {
            assert(path@[at as int] == 0);
            return Err(NativePathError::InteriorNul);
        }
        at = at + 1;
    }
    if path.len() >= NATIVE_PATH_LEN {
        return Err(NativePathError::TooLong);
    }
    let mut bytes: Vec<i8> = Vec::with_capacity(NATIVE_PATH_LEN);
    let mut index: usize = 0;
    while index < NATIVE_PATH_LEN
        invariant
            index <= NATIVE_PATH_LEN,
            path@.len() < NATIVE_PATH_LEN,
            bytes@ == native_path_bytes(path@).take(index as int),
        decreases NATIVE_PATH_LEN - index,
    {
        let ghost before = bytes@;
        if index < path.len() {
            bytes.push(path[index] as i8);
        } else {
            bytes.push(0);
        }
        assert(bytes@ =~= native_path_bytes(path@).take(index + 1));
        index = index + 1;
    }
    assert(native_path_bytes(path@).take(index as int) =~= native_path_bytes(path@));
    Ok(bytes)
}

/// Upper case or lower makes no difference to a file's format.
pub proof fn law_case_makes_no_difference(extension: Seq<char>)
    ensures
        container_of(lower_text(extension)) == container_of(extension),
{
    assert(lower_text(lower_text(extension)) =~= lower_text(extension));
}

/// A character is a letter, in upper case or lower.
pub open spec fn is_letter(letter: char, lower: char, upper: char) -> bool {
    letter == lower || letter == upper
}

/// A file is an MP4 file if its extension is the letters m and p and a four, and a QuickTime
/// file if it is the letters m, o and v; upper case or lower makes no difference, and any
/// other extension names no format.
pub proof fn law_extensions_name_their_format(extension: Seq<char>)
    ensures
        container_of(extension) == Some(VideoContainer::Mp4) <==> extension.len() == 3 && is_letter(
            extension[0],
            'm',
            'M',
        ) && is_letter(extension[1], 'p', 'P') && extension[2] == '4',
        container_of(extension) == Some(VideoContainer::Mov) <==> extension.len() == 3 && is_letter(
            extension[0],
            'm',
            'M',
        ) && is_letter(extension[1], 'o', 'O') && is_letter(extension[2], 'v', 'V'),
{
    reveal_strlit("mp4");
    reveal_strlit("mov");
    let lower = lower_text(extension);
    assert(lower.len() == extension.len());
    assert("mp4"@.len() == 3 && "mp4"@[0] == 'm' && "mp4"@[1] == 'p' && "mp4"@[2] == '4');
    assert("mov"@.len() == 3 && "mov"@[0] == 'm' && "mov"@[1] == 'o' && "mov"@[2] == 'v');
    if extension.len() == 3 {
        assert(lower[0] == ascii_lower(extension[0]));
        assert(lower[1] == ascii_lower(extension[1]));
        assert(lower[2] == ascii_lower(extension[2]));
        lemma_lower_letters(extension[0]);
        lemma_lower_letters(extension[1]);
        lemma_lower_letters(extension[2]);
        if is_letter(extension[0], 'm', 'M') && is_letter(extension[1], 'p', 'P') && extension[2]
            == '4' {
            assert(lower =~= "mp4"@);
        }
        if is_letter(extension[0], 'm', 'M') && is_letter(extension[1], 'o', 'O') && is_letter(
            extension[2],
            'v',
            'V',
        ) {
            assert(lower =~= "mov"@);
        }
    }
}

proof fn lemma_lower_letters(letter: char)
    ensures
        ascii_lower(letter) == 'm' <==> is_letter(letter, 'm', 'M'),
        ascii_lower(letter) == 'p' <==> is_letter(letter, 'p', 'P'),
        ascii_lower(letter) == 'o' <==> is_letter(letter, 'o', 'O'),
        ascii_lower(letter) == 'v' <==> is_letter(letter, 'v', 'V'),
        ascii_lower(letter) == '4' <==> letter == '4',
{
}

/// A native path is the path's bytes in their order, as they are, and zeros behind them up to
/// 1024 in all.
pub proof fn law_native_paths_hold_the_path(path: Seq<u8>, at: int)
    requires
        path.len() < 1024,
        0 <= at < 1024,
    ensures
        native_path_bytes(path).len() == 1024,
        at < path.len() ==> native_path_bytes(path)[at] as u8 == path[at],
        at >= path.len() ==> native_path_bytes(path)[at] == 0,
{
    if at < path.len() {
        let byte = path[at];
        assert((byte as i8) as u8 == byte) by (bit_vector);
    }
}

} // verus!

//! Classification of public-storage save targets.
//!
//! A save request names a directory family and an optional subdirectory
//! as strings; this module decides, case-insensitively, which public
//! directory the file goes to, or which of the two input errors to
//! answer. Writing the file itself is platform storage work and stays
//! outside the library.

use crate::headers::{bytes_eq, lower, lower_bytes};
use vstd::prelude::*;

verus! {

/// Public image directories.
#[derive(Debug, Clone, Copy, PartialEq, Eq, Structural)]
pub enum ImageDir {
    Pictures,
    Dcim,
}

/// Public video directories.
#[derive(Debug, Clone, Copy, PartialEq, Eq, Structural)]
pub enum VideoDir {
    Movies,
    Dcim,
}

/// Public audio directories.
#[derive(Debug, Clone, Copy, PartialEq, Eq, Structural)]
pub enum AudioDir {
    Music,
    Alarms,
    Audiobooks,
    Notifications,
    Podcasts,
    Ringtones,
    Recordings,
}

/// Public general-purpose directories.
#[derive(Debug, Clone, Copy, PartialEq, Eq, Structural)]
pub enum GeneralPurposeDir {
    Documents,
    Download,
}

/// A public directory a saved file can land in.
#[derive(Debug, Clone, Copy, PartialEq, Eq, Structural)]
pub enum PublicDirKind {
    Image(ImageDir),
    Video(VideoDir),
    Audio(AudioDir),
    GeneralPurpose(GeneralPurposeDir),
}

/// Why a save target was rejected.
#[derive(Debug, Clone, Copy, PartialEq, Eq, Structural)]
pub enum DirectoryError {
    InvalidDirectoryType,
    InvalidSubdirectoryType,
}

impl DirectoryError {
    /// The plain-text description of the rejection.
    pub fn message(&self) -> (r: &'static str)
        ensures
            *self is InvalidDirectoryType ==> r@ == "Invalid public directory type"@,
            *self is InvalidSubdirectoryType ==> r@ == "Invalid subdirectory type"@,
    {
        match self {
            DirectoryError::InvalidDirectoryType => "Invalid public directory type",
            DirectoryError::InvalidSubdirectoryType => "Invalid subdirectory type",
        }
    }
}

pub open spec fn kw_image() -> Seq<u8> {
    seq![105u8, 109u8, 97u8, 103u8, 101u8]
}

pub open spec fn kw_video() -> Seq<u8> {
    seq![118u8, 105u8, 100u8, 101u8, 111u8]
}

pub open spec fn kw_audio() -> Seq<u8> {
    seq![97u8, 117u8, 100u8, 105u8, 111u8]
}

pub open spec fn kw_general_purpose() -> Seq<u8> {
    seq![103u8, 101u8, 110u8, 101u8, 114u8, 97u8, 108u8, 95u8, 112u8, 117u8, 114u8, 112u8, 111u8, 115u8, 101u8]
}

pub open spec fn kw_pictures() -> Seq<u8> {
    seq![112u8, 105u8, 99u8, 116u8, 117u8, 114u8, 101u8, 115u8]
}

pub open spec fn kw_dcim() -> Seq<u8> {
    seq![100u8, 99u8, 105u8, 109u8]
}

pub open spec fn kw_movies() -> Seq<u8> {
    seq![109u8, 111u8, 118u8, 105u8, 101u8, 115u8]
}

pub open spec fn kw_music() -> Seq<u8> {
    seq![109u8, 117u8, 115u8, 105u8, 99u8]
}

pub open spec fn kw_alarms() -> Seq<u8> {
    seq![97u8, 108u8, 97u8, 114u8, 109u8, 115u8]
}

pub open spec fn kw_audiobooks() -> Seq<u8> {
    seq![97u8, 117u8, 100u8, 105u8, 111u8, 98u8, 111u8, 111u8, 107u8, 115u8]
}

pub open spec fn kw_notifications() -> Seq<u8> {
    seq![110u8, 111u8, 116u8, 105u8, 102u8, 105u8, 99u8, 97u8, 116u8, 105u8, 111u8, 110u8, 115u8]
}

pub open spec fn kw_podcasts() -> Seq<u8> {
    seq![112u8, 111u8, 100u8, 99u8, 97u8, 115u8, 116u8, 115u8]
}

pub open spec fn kw_ringtones() -> Seq<u8> {
    seq![114u8, 105u8, 110u8, 103u8, 116u8, 111u8, 110u8, 101u8, 115u8]
}

pub open spec fn kw_recordings() -> Seq<u8> {
    seq![114u8, 101u8, 99u8, 111u8, 114u8, 100u8, 105u8, 110u8, 103u8, 115u8]
}

pub open spec fn kw_documents() -> Seq<u8> {
    seq![100u8, 111u8, 99u8, 117u8, 109u8, 101u8, 110u8, 116u8, 115u8]
}

pub open spec fn kw_download() -> Seq<u8> {
    seq![100u8, 111u8, 119u8, 110u8, 108u8, 111u8, 97u8, 100u8]
}

/// The subdirectory choice: the one given, or the family's default.
pub open spec fn sub_or(st: Option<Seq<u8>>, dflt: Seq<u8>) -> Seq<u8> {
    match st {
        Some(x) => lower(x),
        None => dflt,
    }
}

/// Which public directory a save request targets, by its lowercased
/// family and subdirectory names; unknown names are the two input errors.
pub open spec fn classify_spec(ft: Seq<u8>, st: Option<Seq<u8>>) -> Result<
    PublicDirKind,
    DirectoryError,
> {
    let f = lower(ft);
    if f == kw_image() {
        let s = sub_or(st, kw_pictures());
        if s == kw_pictures() {
            Ok(PublicDirKind::Image(ImageDir::Pictures))
        } else if s == kw_dcim() {
            Ok(PublicDirKind::Image(ImageDir::Dcim))
        } else {
            Err(DirectoryError::InvalidSubdirectoryType)
        }
    } else if f == kw_video() {
        let s = sub_or(st, kw_movies());
        if s == kw_movies() {
            Ok(PublicDirKind::Video(VideoDir::Movies))
        } else if s == kw_dcim() {
            Ok(PublicDirKind::Video(VideoDir::Dcim))
        } else {
            Err(DirectoryError::InvalidSubdirectoryType)
        }
    } else if f == kw_audio() {
        let s = sub_or(st, kw_music());
        if s == kw_music() {
            Ok(PublicDirKind::Audio(AudioDir::Music))
        } else if s == kw_alarms() {
            Ok(PublicDirKind::Audio(AudioDir::Alarms))
        } else if s == kw_audiobooks() {
            Ok(PublicDirKind::Audio(AudioDir::Audiobooks))
        } else if s == kw_notifications() {
            Ok(PublicDirKind::Audio(AudioDir::Notifications))
        } else if s == kw_podcasts() {
            Ok(PublicDirKind::Audio(AudioDir::Podcasts))
        } else if s == kw_ringtones() {
            Ok(PublicDirKind::Audio(AudioDir::Ringtones))
        } else if s == kw_recordings() {
            Ok(PublicDirKind::Audio(AudioDir::Recordings))
        } else {
            Err(DirectoryError::InvalidSubdirectoryType)
        }
    } else if f == kw_general_purpose() {
        let s = sub_or(st, kw_documents());
        if s == kw_documents() {
            Ok(PublicDirKind::GeneralPurpose(GeneralPurposeDir::Documents))
        } else if s == kw_download() {
            Ok(PublicDirKind::GeneralPurpose(GeneralPurposeDir::Download))
        } else {
            Err(DirectoryError::InvalidSubdirectoryType)
        }
    } else {
        Err(DirectoryError::InvalidDirectoryType)
    }
}

/// The lowercased subdirectory name, or the family default.
fn sub_lower(st: Option<&Vec<u8>>, dflt: &[u8]) -> (r: Vec<u8>)
    requires
        dflt@ == lower(dflt@),
    ensures
        r@ == sub_or(
            match st {
                Some(x) => Some(x@),
                None => None,
            },
            dflt@,
        ),
{
    match st {
        Some(x) => lower_bytes(x.as_slice()),
        None => vstd::slice::slice_to_vec(dflt),
    }
}

/// Decide which public directory a save request targets.
pub fn classify_public_dir(file_type: &[u8], sub_type: Option<&Vec<u8>>) -> (r: Result<
    PublicDirKind,
    DirectoryError,
>)
    ensures
        r == classify_spec(
            file_type@,
            match sub_type {
                Some(x) => Some(x@),
                None => None,
            },
        ),
{
    let f = lower_bytes(file_type);
    let a_image: [u8; 5] = [105u8, 109u8, 97u8, 103u8, 101u8];
    proof { assert(a_image@ =~= kw_image()); }
    let a_video: [u8; 5] = [118u8, 105u8, 100u8, 101u8, 111u8];
    proof { assert(a_video@ =~= kw_video()); }
    let a_audio: [u8; 5] = [97u8, 117u8, 100u8, 105u8, 111u8];
    proof { assert(a_audio@ =~= kw_audio()); }
    let a_general_purpose: [u8; 15] = [103u8, 101u8, 110u8, 101u8, 114u8, 97u8, 108u8, 95u8, 112u8, 117u8, 114u8, 112u8, 111u8, 115u8, 101u8];
    proof { assert(a_general_purpose@ =~= kw_general_purpose()); }
    let a_pictures: [u8; 8] = [112u8, 105u8, 99u8, 116u8, 117u8, 114u8, 101u8, 115u8];
    proof { assert(a_pictures@ =~= kw_pictures()); }
    let a_dcim: [u8; 4] = [100u8, 99u8, 105u8, 109u8];
    proof { assert(a_dcim@ =~= kw_dcim()); }
    let a_movies: [u8; 6] = [109u8, 111u8, 118u8, 105u8, 101u8, 115u8];
    proof { assert(a_movies@ =~= kw_movies()); }
    let a_music: [u8; 5] = [109u8, 117u8, 115u8, 105u8, 99u8];
    proof { assert(a_music@ =~= kw_music()); }
    let a_alarms: [u8; 6] = [97u8, 108u8, 97u8, 114u8, 109u8, 115u8];
    proof { assert(a_alarms@ =~= kw_alarms()); }
    let a_audiobooks: [u8; 10] = [97u8, 117u8, 100u8, 105u8, 111u8, 98u8, 111u8, 111u8, 107u8, 115u8];
    proof { assert(a_audiobooks@ =~= kw_audiobooks()); }
    let a_notifications: [u8; 13] = [110u8, 111u8, 116u8, 105u8, 102u8, 105u8, 99u8, 97u8, 116u8, 105u8, 111u8, 110u8, 115u8];
    proof { assert(a_notifications@ =~= kw_notifications()); }
    let a_podcasts: [u8; 8] = [112u8, 111u8, 100u8, 99u8, 97u8, 115u8, 116u8, 115u8];
    proof { assert(a_podcasts@ =~= kw_podcasts()); }
    let a_ringtones: [u8; 9] = [114u8, 105u8, 110u8, 103u8, 116u8, 111u8, 110u8, 101u8, 115u8];
    proof { assert(a_ringtones@ =~= kw_ringtones()); }
    let a_recordings: [u8; 10] = [114u8, 101u8, 99u8, 111u8, 114u8, 100u8, 105u8, 110u8, 103u8, 115u8];
    proof { assert(a_recordings@ =~= kw_recordings()); }
    let a_documents: [u8; 9] = [100u8, 111u8, 99u8, 117u8, 109u8, 101u8, 110u8, 116u8, 115u8];
    proof { assert(a_documents@ =~= kw_documents()); }
    let a_download: [u8; 8] = [100u8, 111u8, 119u8, 110u8, 108u8, 111u8, 97u8, 100u8];
    proof { assert(a_download@ =~= kw_download()); }

    if bytes_eq(f.as_slice(), a_image.as_slice()) {
        proof { assert(lower(a_pictures@) =~= a_pictures@); }
        let s = sub_lower(sub_type, a_pictures.as_slice());
        if bytes_eq(s.as_slice(), a_pictures.as_slice()) {
            Ok(PublicDirKind::Image(ImageDir::Pictures))
        } else if bytes_eq(s.as_slice(), a_dcim.as_slice()) {
            Ok(PublicDirKind::Image(ImageDir::Dcim))
        } else {
            Err(DirectoryError::InvalidSubdirectoryType)
        }
    } else if bytes_eq(f.as_slice(), a_video.as_slice()) {
        proof { assert(lower(a_movies@) =~= a_movies@); }
        let s = sub_lower(sub_type, a_movies.as_slice());
        if bytes_eq(s.as_slice(), a_movies.as_slice()) {
            Ok(PublicDirKind::Video(VideoDir::Movies))
        } else if bytes_eq(s.as_slice(), a_dcim.as_slice()) {
            Ok(PublicDirKind::Video(VideoDir::Dcim))
        } else {
            Err(DirectoryError::InvalidSubdirectoryType)
        }
    } else if bytes_eq(f.as_slice(), a_audio.as_slice()) {
        proof { assert(lower(a_music@) =~= a_music@); }
        let s = sub_lower(sub_type, a_music.as_slice());
        if bytes_eq(s.as_slice(), a_music.as_slice()) {
            Ok(PublicDirKind::Audio(AudioDir::Music))
        } else if bytes_eq(s.as_slice(), a_alarms.as_slice()) {
            Ok(PublicDirKind::Audio(AudioDir::Alarms))
        } else if bytes_eq(s.as_slice(), a_audiobooks.as_slice()) {
            Ok(PublicDirKind::Audio(AudioDir::Audiobooks))
        } else if bytes_eq(s.as_slice(), a_notifications.as_slice()) {
            Ok(PublicDirKind::Audio(AudioDir::Notifications))
        } else if bytes_eq(s.as_slice(), a_podcasts.as_slice()) {
            Ok(PublicDirKind::Audio(AudioDir::Podcasts))
        } else if bytes_eq(s.as_slice(), a_ringtones.as_slice()) {
            Ok(PublicDirKind::Audio(AudioDir::Ringtones))
        } else if bytes_eq(s.as_slice(), a_recordings.as_slice()) {
            Ok(PublicDirKind::Audio(AudioDir::Recordings))
        } else {
            Err(DirectoryError::InvalidSubdirectoryType)
        }
    } else if bytes_eq(f.as_slice(), a_general_purpose.as_slice()) {
        proof { assert(lower(a_documents@) =~= a_documents@); }
        let s = sub_lower(sub_type, a_documents.as_slice());
        if bytes_eq(s.as_slice(), a_documents.as_slice()) {
            Ok(PublicDirKind::GeneralPurpose(GeneralPurposeDir::Documents))
        } else if bytes_eq(s.as_slice(), a_download.as_slice()) {
            Ok(PublicDirKind::GeneralPurpose(GeneralPurposeDir::Download))
        } else {
            Err(DirectoryError::InvalidSubdirectoryType)
        }
    } else {
        Err(DirectoryError::InvalidDirectoryType)
    }
}

} // verus!

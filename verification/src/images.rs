//! Image ingestion: a validated, size-capped, magic-number-sniffed binary
//! attachment is written under the owning commission's client folder, and
//! the relative reference for the commission's image list is returned.

use vstd::prelude::*;
use crate::file_storage::{image_file_path, image_relative_path, FileStorage};
use crate::store::{entries_after_write, DataStore, FileData, FileDataView};
use crate::validation::{valid_filename, valid_id, valid_name, ValidationService};

verus! {

/// The size ceiling for an attachment: ten mebibytes.
pub const MAX_IMAGE_SIZE: usize = 10_485_760;

/// The payload starts with the magic number of a known image format:
/// JPEG, PNG, GIF, BMP, or WebP (a RIFF container with a `WEBP` tag at
/// offset eight).
pub open spec fn known_image_magic(b: Seq<u8>) -> bool {
    b.len() >= 4 && {
        ||| (b[0] == 0xFF && b[1] == 0xD8 && b[2] == 0xFF)
        ||| (b[0] == 0x89 && b[1] == 0x50 && b[2] == 0x4E && b[3] == 0x47)
        ||| (b[0] == 0x47 && b[1] == 0x49 && b[2] == 0x46 && b[3] == 0x38)
        ||| (b[0] == 0x42 && b[1] == 0x4D)
        ||| (b[0] == 0x52 && b[1] == 0x49 && b[2] == 0x46 && b[3] == 0x46 && b.len() >= 12 && b[8]
            == 0x57 && b[9] == 0x45 && b[10] == 0x42 && b[11] == 0x50)
    }
}

/// Whether the payload may be stored at all.
pub open spec fn acceptable_image(b: Seq<u8>) -> bool {
    b.len() <= MAX_IMAGE_SIZE && known_image_magic(b)
}

/// Image attachment handling.
pub struct ImageService;

impl ImageService {
    /// Validates the owning commission's id, the client name and the
    /// filename, checks the payload's size and magic number, and only then
    /// writes the bytes under
    /// `pendings/{sanitized client name}/images/{id}_{sanitized filename}`.
    /// Returns the relative reference `images/{id}_{sanitized filename}`;
    /// a failed check leaves the store untouched.
    pub fn save_commission_image(
        store: &mut DataStore,
        commission_id: &str,
        client_name: &str,
        image_data: Vec<u8>,
        filename: &str,
    ) -> (r: Result<String, String>)
        requires
            old(store).wf(),
        ensures
            final(store).wf(),
            r is Ok <==> valid_id(commission_id@) && valid_name(client_name@) && valid_filename(
                filename@,
            ) && acceptable_image(image_data@),
            match r {
                Ok(rel) => rel@ == image_relative_path(commission_id@, filename@)
                    && final(store).entries() == entries_after_write(
                    old(store).entries(),
                    image_file_path(client_name@, commission_id@, filename@),
                    FileDataView::Bin(image_data@),
                ),
                Err(_) => final(store).entries() == old(store).entries(),
            },
    {
        match ValidationService::validate_id(commission_id) {
            Ok(_) => {},
            Err(e) => {
                return Err(e);
            },
        }
        match ValidationService::validate_name(client_name, "Client name") {
            Ok(_) => {},
            Err(e) => {
                return Err(e);
            },
        }
        match ValidationService::validate_filename(filename) {
            Ok(_) => {},
            Err(e) => {
                return Err(e);
            },
        }
        if image_data.len() > MAX_IMAGE_SIZE {
            return Err("Image file too large (max 10MB)".to_owned());
        }
        if image_data.len() < 4 {
            return Err("Invalid image data".to_owned());
        }
        let b0 = image_data[0];
        let b1 = image_data[1];
        let b2 = image_data[2];
        let b3 = image_data[3];
        let is_valid_image: bool = if b0 == 0xFF && b1 == 0xD8 && b2 == 0xFF {
            true
        } else if b0 == 0x89 && b1 == 0x50 && b2 == 0x4E && b3 == 0x47 {
            true
        } else if b0 == 0x47 && b1 == 0x49 && b2 == 0x46 && b3 == 0x38 {
            true
        } else if b0 == 0x42 && b1 == 0x4D {
            true
        } else if b0 == 0x52 && b1 == 0x49 && b2 == 0x46 && b3 == 0x46 {
            image_data.len() >= 12 && image_data[8] == 0x57 && image_data[9] == 0x45
                && image_data[10] == 0x42 && image_data[11] == 0x50
        } else {
            false
        };
        if !is_valid_image {
            return Err("Invalid image format".to_owned());
        }
        let path = FileStorage::image_file_path(client_name, commission_id, filename);
        let rel = FileStorage::image_relative_path(commission_id, filename);
        store.write(path, FileData::Bin(image_data));
        Ok(rel)
    }
}

} // verus!

//! Field validation: one check per field kind, each a pure predicate over the
//! supplied string with an exact success condition and a fixed reason message
//! on failure. Repositories trust input only after these checks.

use vstd::prelude::*;
use crate::strutil::{contains_char, contains_sub, contains_substr, is_prefix, starts_with,
    str_eq, string_push};
use vstd::string::StrSliceExecFns;

verus! {

/// Largest accepted price, in cents.
pub const MAX_PRICE_CENTS: i64 = 99_999_999_999;

/// A character allowed in a record id: ASCII letter, digit or underscore.
pub open spec fn is_id_char(c: char) -> bool {
    ('a' <= c && c <= 'z') || ('A' <= c && c <= 'Z') || ('0' <= c && c <= '9') || c == '_'
}

/// A valid id: non-empty, at most 64 characters, id characters only.
pub open spec fn valid_id(s: Seq<char>) -> bool {
    0 < s.len() <= 64 && (forall|i: int| 0 <= i < s.len() ==> is_id_char(s[i]))
}

/// A name or title free of path-traversal and filesystem-hazard characters.
pub open spec fn name_hazard_free(s: Seq<char>) -> bool {
    &&& !contains_sub(s, ".."@)
    &&& !s.contains('/')
    &&& !s.contains('\\')
    &&& !s.contains('<')
    &&& !s.contains('>')
    &&& !s.contains('|')
    &&& !s.contains(':')
    &&& !s.contains('*')
    &&& !s.contains('?')
    &&& !s.contains('"')
}

/// A valid name or title: non-empty, at most 255 characters, hazard-free.
pub open spec fn valid_name(s: Seq<char>) -> bool {
    0 < s.len() <= 255 && name_hazard_free(s)
}

/// A valid email or freeform contact text: empty, or at most 320 characters
/// with none of the markup-hazard characters. Text that does not look like
/// an address is still accepted, so the field can double as contact info.
pub open spec fn valid_email(s: Seq<char>) -> bool {
    s.len() == 0 || (s.len() <= 320 && !s.contains('<') && !s.contains('>') && !s.contains('&')
        && !s.contains('"') && !s.contains('\'') && !s.contains('`'))
}

/// A valid contact: empty, or at most 50 characters without `<`, `>` or `&`.
pub open spec fn valid_contact(s: Seq<char>) -> bool {
    s.len() == 0 || (s.len() <= 50 && !s.contains('<') && !s.contains('>') && !s.contains('&'))
}

/// A valid description: at most 10000 characters and none of the screened
/// script-injection substrings.
pub open spec fn valid_description(s: Seq<char>) -> bool {
    &&& s.len() <= 10000
    &&& !contains_sub(s, "<script"@)
    &&& !contains_sub(s, "javascript:"@)
    &&& !contains_sub(s, "onload="@)
    &&& !contains_sub(s, "onerror="@)
}

/// ASCII lowercasing of one character.
pub open spec fn lower_char(c: char) -> char {
    if 'A' <= c && c <= 'Z' {
        ((c as u8) + 32) as char
    } else {
        c
    }
}

/// ASCII lowercasing of a string.
pub open spec fn lower(s: Seq<char>) -> Seq<char> {
    s.map_values(|c: char| lower_char(c))
}

/// An accepted image file extension, compared after ASCII lowercasing.
pub open spec fn allowed_extension(e: Seq<char>) -> bool {
    lower(e) == "jpg"@ || lower(e) == "jpeg"@ || lower(e) == "png"@ || lower(e) == "gif"@
        || lower(e) == "bmp"@ || lower(e) == "webp"@
}

/// The index of the last `.` in `s`, or none.
pub open spec fn last_dot(s: Seq<char>) -> Option<int> {
    if exists|i: int| 0 <= i < s.len() && s[i] == '.' {
        Some(choose|i: int|
            0 <= i < s.len() && s[i] == '.' && (forall|j: int| i < j < s.len() ==> s[j] != '.'))
    } else {
        None
    }
}

/// The extension of `s`: the text after the last `.`.
pub open spec fn extension_of(s: Seq<char>) -> Seq<char> {
    match last_dot(s) {
        Some(i) => s.subrange(i + 1, s.len() as int),
        None => Seq::empty(),
    }
}

/// A valid image filename: non-empty, at most 255 characters, hazard-free,
/// and carrying an accepted image extension. A filename without a `.` has no
/// extension and is rejected.
pub open spec fn valid_filename(s: Seq<char>) -> bool {
    &&& 0 < s.len() <= 255
    &&& name_hazard_free(s)
    &&& s.contains('.')
    &&& allowed_extension(extension_of(s))
}

/// A valid commission status.
pub open spec fn valid_status(s: Seq<char>) -> bool {
    s == "pending"@ || s == "in-progress"@ || s == "completed"@
}

/// A valid payment status.
pub open spec fn valid_payment_status(s: Seq<char>) -> bool {
    s == "Not Paid"@ || s == "Half Paid"@ || s == "Fully Paid"@
}

/// A valid price in cents: non-negative and at most [`MAX_PRICE_CENTS`].
pub open spec fn valid_price(p: int) -> bool {
    0 <= p <= MAX_PRICE_CENTS as int
}

/// A valid price in cents, as the machine integer carries it.
pub open spec fn valid_price_cents(p: i64) -> bool {
    valid_price(p as int)
}

/// A valid import directory: absolute, free of traversal, and inside one
/// of the allowed locations.
pub open spec fn valid_import_path(p: Seq<char>, home: Seq<char>) -> bool {
    &&& p.len() > 0
    &&& !contains_sub(p, ".."@)
    &&& !p.contains('~')
    &&& p[0] == '/'
    &&& (is_prefix("/tmp/"@, p) || is_prefix("/var/tmp/"@, p) || is_prefix(
        home + "/Downloads/"@,
        p,
    ) || is_prefix(home + "/Documents/"@, p) || is_prefix(home + "/Desktop/"@, p))
}

/// A valid image reference: an inline data URL, or a relative path without
/// traversal that, if it has a directory part, lies under `images/`.
pub open spec fn valid_image_path(s: Seq<char>) -> bool {
    is_prefix("data:image/"@, s) || (!contains_sub(s, ".."@) && (s.contains('/')
        ==> is_prefix("images/"@, s)) && !s.contains('\\') && !s.contains('|') && !s.contains('<')
        && !s.contains('>'))
}

/// Whether `c` is an id character.
fn is_id_char_exec(c: char) -> (r: bool)
    ensures
        r == is_id_char(c),
{
    ('a' <= c && c <= 'z') || ('A' <= c && c <= 'Z') || ('0' <= c && c <= '9') || c == '_'
}

/// The field-kind validators, exactly one per externally supplied field.
pub struct ValidationService;

impl ValidationService {
    /// Checks a record id.
    pub fn validate_id(id: &str) -> (r: Result<(), String>)
        ensures
            r is Ok <==> valid_id(id@),
            r matches Err(m) ==> m@ == (if id@.len() == 0 {
                "ID cannot be empty"@
            } else if id@.len() > 64 {
                "ID too long (max 64 chars)"@
            } else {
                "ID contains invalid characters (only alphanumeric and underscore allowed)"@
            }),
    {
        let n = id.unicode_len();
        if n == 0 {
            return Err("ID cannot be empty".to_owned());
        }
        if n > 64 {
            return Err("ID too long (max 64 chars)".to_owned());
        }
        let mut i: usize = 0;
        while i < n
            invariant
                n == id@.len(),
                0 < n <= 64,
                i <= n,
                forall|j: int| 0 <= j < i ==> is_id_char(id@[j]),
            decreases n - i,
        {
            if !is_id_char_exec(id.get_char(i)) {
                return Err(
                    "ID contains invalid characters (only alphanumeric and underscore allowed)".to_owned(),
                );
            }
            i += 1;
        }
        Ok(())
    }

    /// Checks a name or title; `field_name` labels the reason on failure.
    pub fn validate_name(name: &str, field_name: &str) -> (r: Result<(), String>)
        ensures
            r is Ok <==> valid_name(name@),
            r matches Err(m) ==> m@ == field_name@ + (if name@.len() == 0 {
                " cannot be empty"@
            } else if name@.len() > 255 {
                " too long (max 255 chars)"@
            } else {
                " contains invalid characters"@
            }),
    {
        let n = name.unicode_len();
        if n == 0 {
            return Err(field_name.to_owned().concat(" cannot be empty"));
        }
        if n > 255 {
            return Err(field_name.to_owned().concat(" too long (max 255 chars)"));
        }
        if contains_substr(name, "..") || contains_char(name, '/') || contains_char(name, '\\')
            || contains_char(name, '<') || contains_char(name, '>') || contains_char(name, '|')
            || contains_char(name, ':') || contains_char(name, '*') || contains_char(name, '?')
            || contains_char(name, '"') {
            return Err(field_name.to_owned().concat(" contains invalid characters"));
        }
        Ok(())
    }

    /// Checks an optional email or freeform contact text.
    pub fn validate_email(email: &str) -> (r: Result<(), String>)
        ensures
            r is Ok <==> valid_email(email@),
            r matches Err(m) ==> m@ == (if email@.len() > 320 {
                "Email too long"@
            } else {
                "Email contains invalid characters"@
            }),
    {
        let n = email.unicode_len();
        if n == 0 {
            return Ok(());
        }
        if n > 320 {
            return Err("Email too long".to_owned());
        }
        if contains_char(email, '<') || contains_char(email, '>') || contains_char(email, '&')
            || contains_char(email, '"') || contains_char(email, '\'') || contains_char(
            email,
            '`',
        ) {
            return Err("Email contains invalid characters".to_owned());
        }
        Ok(())
    }

    /// Checks an optional contact field.
    pub fn validate_contact(contact: &str) -> (r: Result<(), String>)
        ensures
            r is Ok <==> valid_contact(contact@),
            r matches Err(m) ==> m@ == (if contact@.len() > 50 {
                "Contact too long"@
            } else {
                "Contact contains invalid characters"@
            }),
    {
        let n = contact.unicode_len();
        if n == 0 {
            return Ok(());
        }
        if n > 50 {
            return Err("Contact too long".to_owned());
        }
        if contains_char(contact, '<') || contains_char(contact, '>') || contains_char(
            contact,
            '&',
        ) {
            return Err("Contact contains invalid characters".to_owned());
        }
        Ok(())
    }

    /// Checks a description.
    pub fn validate_description(description: &str) -> (r: Result<(), String>)
        ensures
            r is Ok <==> valid_description(description@),
            r matches Err(m) ==> m@ == (if description@.len() > 10000 {
                "Description too long (max 10000 chars)"@
            } else {
                "Description contains potentially dangerous content"@
            }),
    {
        let n = description.unicode_len();
        if n > 10000 {
            return Err("Description too long (max 10000 chars)".to_owned());
        }
        if contains_substr(description, "<script") || contains_substr(description, "javascript:")
            || contains_substr(description, "onload=") || contains_substr(
            description,
            "onerror=",
        ) {
            return Err("Description contains potentially dangerous content".to_owned());
        }
        Ok(())
    }

    /// Checks an image filename, extension included.
    pub fn validate_filename(filename: &str) -> (r: Result<(), String>)
        ensures
            r is Ok <==> valid_filename(filename@),
            r matches Err(m) ==> m@ == (if filename@.len() == 0 {
                "Filename cannot be empty"@
            } else if filename@.len() > 255 {
                "Filename too long"@
            } else if !(name_hazard_free(filename@)) {
                "Filename contains invalid characters"@
            } else if !filename@.contains('.') {
                "Filename must have an extension"@
            } else {
                "Invalid file extension"@
            }),
    {
        let n = filename.unicode_len();
        if n == 0 {
            return Err("Filename cannot be empty".to_owned());
        }
        if n > 255 {
            return Err("Filename too long".to_owned());
        }
        if contains_substr(filename, "..") || contains_char(filename, '/') || contains_char(
            filename,
            '\\',
        ) || contains_char(filename, '<') || contains_char(filename, '>') || contains_char(
            filename,
            '|',
        ) || contains_char(filename, ':') || contains_char(filename, '*') || contains_char(
            filename,
            '?',
        ) || contains_char(filename, '"') {
            return Err("Filename contains invalid characters".to_owned());
        }
        if !contains_char(filename, '.') {
            return Err("Filename must have an extension".to_owned());
        }
        // Locate the last `.` by scanning from the end.
        let mut k: usize = n;
        let mut dot: usize = 0;
        let mut found = false;
        while k > 0
            invariant
                n == filename@.len(),
                k <= n,
                found ==> k <= dot < n && filename@[dot as int] == '.' && (forall|j: int|
                    dot < j < n ==> filename@[j] != '.'),
                !found ==> forall|j: int| k <= j < n ==> filename@[j] != '.',
            decreases k,
        {
            k -= 1;
            if !found && filename.get_char(k) == '.' {
                dot = k;
                found = true;
            }
        }
        if !found {
            // The containment check above found a `.`, so the scan finds one.
            assert(false);
        }
        proof {
            assert(last_dot(filename@) == Some(dot as int));
        }
        // Lowercase the extension.
        let mut ext = String::new();
        let mut i: usize = dot + 1;
        while i < n
            invariant
                n == filename@.len(),
                dot < n,
                dot + 1 <= i <= n,
                ext@ == lower(filename@.subrange(dot + 1, i as int)),
            decreases n - i,
        {
            let c = filename.get_char(i);
            let lc = if 'A' <= c && c <= 'Z' {
                (((c as u8) + 32) as char)
            } else {
                c
            };
            string_push(&mut ext, lc);
            assert(ext@ =~= lower(filename@.subrange(dot + 1, i + 1)));
            i += 1;
        }
        assert(filename@.subrange(dot + 1, n as int) == extension_of(filename@));
        let e = ext.as_str();
        if str_eq(e, "jpg") || str_eq(e, "jpeg") || str_eq(e, "png") || str_eq(e, "gif") || str_eq(
            e,
            "bmp",
        ) || str_eq(e, "webp") {
            Ok(())
        } else {
            Err("Invalid file extension".to_owned())
        }
    }

    /// Checks a commission status.
    pub fn validate_status(status: &str) -> (r: Result<(), String>)
        ensures
            r is Ok <==> valid_status(status@),
            r matches Err(m) ==> m@ == "Invalid status value"@,
    {
        if str_eq(status, "pending") || str_eq(status, "in-progress") || str_eq(
            status,
            "completed",
        ) {
            Ok(())
        } else {
            Err("Invalid status value".to_owned())
        }
    }

    /// Checks a payment status.
    pub fn validate_payment_status(payment_status: &str) -> (r: Result<(), String>)
        ensures
            r is Ok <==> valid_payment_status(payment_status@),
            r matches Err(m) ==> m@ == "Invalid payment status value"@,
    {
        if str_eq(payment_status, "Not Paid") || str_eq(payment_status, "Half Paid") || str_eq(
            payment_status,
            "Fully Paid",
        ) {
            Ok(())
        } else {
            Err("Invalid payment status value".to_owned())
        }
    }

    /// Checks a price in cents.
    pub fn validate_price_cents(price_cents: i64) -> (r: Result<(), String>)
        ensures
            r is Ok <==> valid_price_cents(price_cents),
            r matches Err(m) ==> m@ == (if price_cents < 0 {
                "Price cannot be negative"@
            } else {
                "Price too large"@
            }),
    {
        if price_cents < 0 {
            return Err("Price cannot be negative".to_owned());
        }
        if price_cents > MAX_PRICE_CENTS {
            return Err("Price too large".to_owned());
        }
        Ok(())
    }

    /// Checks a directory path offered for a whole-archive import: it must
    /// be absolute, free of traversal, and lie in one of the allowed
    /// locations under `/tmp`, `/var/tmp`, or the user's `Downloads`,
    /// `Documents` or `Desktop` folder; `home` is that user's home
    /// directory.
    pub fn validate_import_path(import_path: &str, home: &str) -> (r: Result<(), String>)
        ensures
            r is Ok <==> valid_import_path(import_path@, home@),
            r matches Err(m) ==> m@ == (if import_path@.len() == 0 {
                "Import path cannot be empty"@
            } else if contains_sub(import_path@, ".."@) || import_path@.contains('~') {
                "Invalid import path - path traversal detected"@
            } else if import_path@[0] != '/' {
                "Import path must be absolute"@
            } else {
                "Import path not in allowed location"@
            }),
    {
        if import_path.unicode_len() == 0 {
            return Err("Import path cannot be empty".to_owned());
        }
        if contains_substr(import_path, "..") || contains_char(import_path, '~') {
            return Err("Invalid import path - path traversal detected".to_owned());
        }
        if !starts_with(import_path, "/") {
            proof {
                reveal_strlit("/");
                if import_path@[0] == '/' {
                    assert(import_path@.subrange(0, 1) =~= "/"@);
                }
            }
            return Err("Import path must be absolute".to_owned());
        }
        proof {
            reveal_strlit("/");
            assert(import_path@.subrange(0, 1)[0] == import_path@[0]);
        }
        let downloads = home.to_owned().concat("/Downloads/");
        let documents = home.to_owned().concat("/Documents/");
        let desktop = home.to_owned().concat("/Desktop/");
        if starts_with(import_path, "/tmp/") || starts_with(import_path, "/var/tmp/")
            || starts_with(import_path, downloads.as_str()) || starts_with(
            import_path,
            documents.as_str(),
        ) || starts_with(import_path, desktop.as_str()) {
            proof {
                reveal_strlit("/");
                assert(import_path@.subrange(0, 1)[0] == import_path@[0]);
            }
            Ok(())
        } else {
            Err("Import path not in allowed location".to_owned())
        }
    }

    /// Checks an image reference held in a commission record.
    pub fn validate_image_path(image_path: &str) -> (r: Result<(), String>)
        ensures
            r is Ok <==> valid_image_path(image_path@),
            r matches Err(m) ==> m@ == "Invalid image path detected"@,
    {
        if starts_with(image_path, "data:image/") {
            return Ok(());
        }
        if contains_substr(image_path, "..") {
            return Err("Invalid image path detected".to_owned());
        }
        if contains_char(image_path, '/') && !starts_with(image_path, "images/") {
            return Err("Invalid image path detected".to_owned());
        }
        if contains_char(image_path, '\\') || contains_char(image_path, '|') || contains_char(
            image_path,
            '<',
        ) || contains_char(image_path, '>') {
            return Err("Invalid image path detected".to_owned());
        }
        Ok(())
    }
}

} // verus!

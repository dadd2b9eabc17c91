use vstd::prelude::*;

use crate::text::{chars_of, string_from_chars, trim, trim_chars};

verus! {

/// The baseboard vendor, model and revision that the firmware reports.
#[derive(Debug, Clone, PartialEq, Eq)]
pub struct BoardIdentity {
    pub vendor: String,
    pub model: String,
    pub revision: Option<String>,
}

/// A field of the identity that must be present.
#[derive(Debug, Clone, Copy, PartialEq, Eq, Structural)]
pub enum IdentityField {
    Vendor,
    Model,
}

/// Why the firmware's report gives no identity.
#[derive(Debug, Clone, Copy, PartialEq, Eq, Structural)]
pub enum IdentityError {
    /// The field could not be read.
    Missing(IdentityField),
    /// The field holds nothing but whitespace.
    Empty(IdentityField),
}

/// A firmware string as the identity keeps it: trimmed, and absent when it is
/// absent or nothing but whitespace is left.
pub open spec fn cleaned(raw: Option<Seq<char>>) -> Option<Seq<char>> {
    match raw {
        Some(r) => if trim(r).len() > 0 {
            Some(trim(r))
        } else {
            None
        },
        None => None,
    }
}

/// The view of an optional string argument.
pub open spec fn opt_view(s: Option<&str>) -> Option<Seq<char>> {
    match s {
        Some(s) => Some(s@),
        None => None,
    }
}

/// The view of an optional string field.
pub open spec fn opt_string_view(s: Option<String>) -> Option<Seq<char>> {
    match s {
        Some(s) => Some(s@),
        None => None,
    }
}

/// A required field's error, if it has one: absent, or blank once trimmed.
pub open spec fn field_error(raw: Option<Seq<char>>, field: IdentityField) -> Option<IdentityError> {
    match raw {
        None => Some(IdentityError::Missing(field)),
        Some(r) => if trim(r).len() == 0 {
            Some(IdentityError::Empty(field))
        } else {
            None
        },
    }
}

/// A firmware string field as the identity keeps it: trimmed, and absent when
/// nothing but whitespace is left.
pub fn clean_identity_field(raw: &str) -> (field: Option<String>)
    ensures
        opt_string_view(field) == cleaned(Some(raw@)),
{
    let chars = chars_of(raw);
    let trimmed = trim_chars(&chars);
    if trimmed.len() == 0 {
        None
    } else {
        Some(string_from_chars(&trimmed))
    }
}

/// The identity from the firmware's raw fields (`None` where a field could not
/// be read): vendor and model must be there and not blank, checked in that
/// order; each is kept trimmed, and a revision that is absent or blank is
/// dropped.
pub fn identity_from_fields(vendor: Option<&str>, model: Option<&str>, revision: Option<&str>) -> (identity: Result<BoardIdentity, IdentityError>)
    ensures
        match identity {
            Ok(id) => {
                &&& field_error(opt_view(vendor), IdentityField::Vendor) is None
                &&& field_error(opt_view(model), IdentityField::Model) is None
                &&& cleaned(opt_view(vendor)) == Some(id.vendor@)
                &&& cleaned(opt_view(model)) == Some(id.model@)
                &&& opt_string_view(id.revision) == cleaned(opt_view(revision))
            },
            Err(e) => match field_error(opt_view(vendor), IdentityField::Vendor) {
                Some(v) => e == v,
                None => field_error(opt_view(model), IdentityField::Model) == Some(e),
            },
        },
{
    let vendor = match vendor {
        None => return Err(IdentityError::Missing(IdentityField::Vendor)),
        Some(raw) => match clean_identity_field(raw) {
            None => return Err(IdentityError::Empty(IdentityField::Vendor)),
            Some(v) => v,
        },
    };
    let model = match model {
        None => return Err(IdentityError::Missing(IdentityField::Model)),
        Some(raw) => match clean_identity_field(raw) {
            None => return Err(IdentityError::Empty(IdentityField::Model)),
            Some(m) => m,
        },
    };
    let revision = match revision {
        None => None,
        Some(raw) => clean_identity_field(raw),
    };
    Ok(BoardIdentity { vendor, model, revision })
}

} // verus!

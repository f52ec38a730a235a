//! Authors as they are submitted to the destination.

use crate::text::{decimal, format_i64, from_chars};
use vstd::prelude::*;

verus! {

/// An author. `image_url` is the profile image: in a row of the data source
/// the legacy URL, in what is submitted the destination's reference.
#[derive(Debug, PartialEq, Eq)]
pub struct AuthorPost {
    pub id: i32,
    pub name: String,
    pub email: String,
    pub login: String,
    pub password: String,
    pub created_at: String,
    pub image_url: Option<String>,
}

impl AuthorPost {
    /// `self` and `other` differ at most in the profile image.
    pub open spec fn same_person(self, other: AuthorPost) -> bool {
        &&& self.id == other.id
        &&& self.name == other.name
        &&& self.email == other.email
        &&& self.login == other.login
        &&& self.password == other.password
        &&& self.created_at == other.created_at
    }

    /// This author with the profile image `image`.
    pub fn update_image(self, image: String) -> (out: Self)
        ensures
            out.same_person(self),
            out.image_url == Some(image),
    {
        Self { image_url: Some(image), ..self }
    }

    /// This author as it is submitted: the profile image is `reference`,
    /// what the destination gave for the uploaded image, and is absent where
    /// there is none. The legacy URL is never submitted.
    pub fn with_reference(self, reference: Option<String>) -> (out: Self)
        ensures
            out.same_person(self),
            out.image_url == reference,
    {
        Self { image_url: reference, ..self }
    }

    /// The identifier under which this author's assets are uploaded.
    pub fn owner_id(&self) -> (out: String)
        ensures
            out@ == decimal(self.id as int),
    {
        from_chars(format_i64(self.id as i64).as_slice())
    }
}

} // verus!

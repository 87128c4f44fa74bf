//! Trusted bindings for the byte-buffer string builder that accumulates a
//! report.
//!
//! The builder appends the UTF-8 bytes of each piece and decodes the buffer
//! once at the end. Its buffer is modelled by the character sequence it
//! decodes to, together with the fact that it is valid UTF-8 — which every
//! buffer built from string appends alone is.

use vstd::prelude::*;

verus! {

/// Declares `string_builder::Builder`, the growable byte buffer behind the
/// report, so that it can stand in signatures; its contents are spoken of
/// only through [`builder_chars`] and [`builder_utf8`].
#[verifier::external_type_specification]
#[verifier::external_body]
pub struct ExBuilder(string_builder::Builder);

/// The characters that the builder's byte buffer decodes to.
pub uninterp spec fn builder_chars(b: string_builder::Builder) -> Seq<char>;

/// The builder's byte buffer is valid UTF-8.
pub uninterp spec fn builder_utf8(b: string_builder::Builder) -> bool;

/// Relies on `string_builder::Builder::default`: a builder over a fresh,
/// empty byte buffer.
#[verifier::external_body]
pub(crate) fn builder_new() -> (b: string_builder::Builder)
    ensures
        builder_chars(b) == Seq::<char>::empty(),
        builder_utf8(b),
{
    string_builder::Builder::default()
}

/// Relies on `string_builder::Builder::append` for `&str`: it appends
/// exactly the slice's UTF-8 bytes, so the buffer decodes to the old
/// characters followed by the piece's, and stays valid UTF-8.
#[verifier::external_body]
pub(crate) fn builder_append(b: &mut string_builder::Builder, piece: &str)
    ensures
        builder_chars(*final(b)) == builder_chars(*old(b)) + piece@,
        builder_utf8(*old(b)) ==> builder_utf8(*final(b)),
{
    b.append(piece)
}

/// Relies on `string_builder::Builder::string`: it decodes the buffer with
/// `String::from_utf8`, which on valid UTF-8 returns exactly the decoded
/// characters.
#[verifier::external_body]
pub(crate) fn builder_string(b: string_builder::Builder) -> (text: String)
    requires
        builder_utf8(b),
    ensures
        text@ == builder_chars(b),
{
    b.string().unwrap()
}

} // verus!

//! Names for uploaded files.

use vstd::prelude::*;
use vstd::string::StringExecFns;
use crate::text::opt_str;

verus! {

/// The directory that uploads are stored in.
pub const UPLOAD_DIR: &'static str = "uploads";

/// The name of an upload that brings none.
pub const UNNAMED: &'static str = "unknown";

/// The extension of an upload whose name has none.
pub const DEFAULT_EXTENSION: &'static str = "bin";

/// Where an upload is stored and how it is fetched.
#[derive(Debug)]
pub struct StoredFile {
    pub file_name: String,
    pub url: String,
}

/// The extension of a file name, where it has one.
pub uninterp spec fn extension_text(name: Seq<char>) -> Option<Seq<char>>;

/// `std::path::Path::extension` on a file name, as text. The extension
/// depends on the name alone.
#[verifier::external_body]
fn extension<'a>(name: &'a str) -> (ext: Option<&'a str>)
    ensures
        opt_str(ext) == extension_text(name@),
{
    match std::path::Path::new(name).extension() {
        Some(ext) => ext.to_str(),
        None => None,
    }
}

/// `uuid::Uuid::new_v4`, as text: a random identifier, of which nothing is
/// known.
#[verifier::external_body]
fn fresh_id() -> String {
    uuid::Uuid::new_v4().to_string()
}

/// The name under which an upload is stored, from the identifier it is
/// given and the extension of the name it came with.
pub open spec fn stored_name(id: Seq<char>, ext: Option<Seq<char>>) -> Seq<char> {
    id + "."@ + match ext {
        Some(e) => e,
        None => DEFAULT_EXTENSION@,
    }
}

/// The address at which a stored upload is fetched.
pub open spec fn url_of(file_name: Seq<char>) -> Seq<char> {
    "/uploads/"@ + file_name
}

/// The extension that an upload is stored with.
pub open spec fn extension_of_upload(given_name: Option<Seq<char>>) -> Option<Seq<char>> {
    extension_text(
        match given_name {
            Some(name) => name,
            None => UNNAMED@,
        },
    )
}

/// Names an upload from its identifier and the extension of the name it
/// came with.
pub fn name_upload(id: &str, ext: Option<&str>) -> (stored: StoredFile)
    ensures
        stored.file_name@ == stored_name(id@, opt_str(ext)),
        stored.url@ == url_of(stored.file_name@),
{
    let mut file_name = id.to_owned();
    file_name.append(".");
    match ext {
        Some(e) => file_name.append(e),
        None => file_name.append(DEFAULT_EXTENSION),
    }
    let mut url = "/uploads/".to_owned();
    url.append(file_name.as_str());
    StoredFile { file_name, url }
}

/// Names an upload with the identifier `id`: `given_name` is the name
/// that the client gave the file, if it gave one.
pub fn upload_file_as(given_name: Option<&str>, id: &str) -> (stored: StoredFile)
    ensures
        stored.file_name@ == stored_name(id@, extension_of_upload(opt_str(given_name))),
        stored.url@ == url_of(stored.file_name@),
{
    let name = match given_name {
        Some(name) => name,
        None => UNNAMED,
    };
    name_upload(id, extension(name))
}

/// Names an upload with a fresh identifier.
pub fn upload_file(given_name: Option<&str>) -> (stored: StoredFile)
    ensures
        exists|id: Seq<char>|
            stored.file_name@ == #[trigger] stored_name(
                id,
                extension_of_upload(opt_str(given_name)),
            ),
        stored.url@ == url_of(stored.file_name@),
{
    let id = fresh_id();
    let stored = upload_file_as(given_name, id.as_str());
    assert(stored.file_name@ == stored_name(id@, extension_of_upload(opt_str(given_name))));
    stored
}

} // verus!

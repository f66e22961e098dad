//! The package accessor: the zip container of one document, opened over
//! its bytes, handing out the decompressed bytes of named parts.
//!
//! A part that is legitimately absent is reported apart from a container
//! that cannot be read at all, so callers can treat optional parts
//! gracefully.

use vstd::prelude::*;

use crate::error::Error;

verus! {

#[verifier::external_type_specification]
#[verifier::external_body]
#[verifier::reject_recursive_types(R)]
pub struct ExZipArchive<R>(zip::ZipArchive<R>);

/// Whether `zip::ZipArchive::new` accepts the bytes: a readable central
/// directory.  Over an in-memory cursor this depends on the bytes alone.
pub uninterp spec fn archive_readable(bytes: Seq<u8>) -> bool;

/// What fetching one named part from a container's bytes yields: the
/// entry's full decompressed bytes, or which way it fails.  Entry lookup
/// and decompression over an in-memory cursor depend on the container
/// bytes and the name alone; what the outcome is on given bytes is not
/// stated here.
pub uninterp spec fn part_read(bytes: Seq<u8>, name: Seq<char>) -> Result<Seq<u8>, PartError>;

/// The opened zip container of one document, carrying the bytes it was
/// opened over.
pub struct Package {
    archive: zip::ZipArchive<std::io::Cursor<Vec<u8>>>,
    source: Ghost<Seq<u8>>,
}

impl Package {
    /// The container bytes this package was opened over.
    pub closed spec fn source(self) -> Seq<u8> {
        self.source@
    }
}

/// Why one part could not be fetched.
#[derive(Clone, Copy, Debug, PartialEq, Eq, Structural)]
pub enum PartError {
    /// The archive has no entry of that name.
    NotFound,
    /// The entry exists but cannot be read back.
    Unreadable,
}

/// Relies on `zip::ZipArchive::new` over an in-memory cursor: `Ok`
/// exactly when the bytes hold a readable central directory
/// ([`archive_readable`]).
#[verifier::external_body]
pub fn open_package(bytes: Vec<u8>) -> (result: Result<Package, Error>)
    ensures
        result is Ok <==> archive_readable(bytes@),
        result matches Ok(p) ==> p.source() == bytes@,
        result matches Err(e) ==> e == Error::Container,
{
    let ghost src = bytes@;
    match zip::ZipArchive::new(std::io::Cursor::new(bytes)) {
        Ok(archive) => Ok(Package { archive, source: Ghost(src) }),
        Err(_) => Err(Error::Container),
    }
}

/// Relies on `zip::ZipArchive::by_name` and `std::io::Read::read_to_end`:
/// the decompressed bytes of the named part, exactly as [`part_read`]
/// names them for the container's bytes; `ZipError::FileNotFound` is
/// reported as [`PartError::NotFound`], every other failure as
/// [`PartError::Unreadable`].
#[verifier::external_body]
pub fn read_part(package: &mut Package, name: &str) -> (result: Result<Vec<u8>, PartError>)
    ensures
        final(package).source() == old(package).source(),
        match result {
            Ok(data) => part_read(old(package).source(), name@) == Result::<Seq<u8>, PartError>::Ok(
                data@,
            ),
            Err(e) => part_read(old(package).source(), name@) == Result::<Seq<u8>, PartError>::Err(
                e,
            ),
        },
{
    match package.archive.by_name(name) {
        Ok(mut file) => {
            let mut out: Vec<u8> = Vec::new();
            match std::io::Read::read_to_end(&mut file, &mut out) {
                Ok(_) => Ok(out),
                Err(_) => Err(PartError::Unreadable),
            }
        },
        Err(zip::result::ZipError::FileNotFound) => Err(PartError::NotFound),
        Err(_) => Err(PartError::Unreadable),
    }
}

} // verus!

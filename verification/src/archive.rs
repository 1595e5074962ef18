use crate::bytes::{ends_with, has_suffix};
use std::io::Read;
use vstd::prelude::*;
use vstd::string::StringSliceAdditionalSpecFns;

verus! {

/// `std::io::Cursor`, opaque: bytes in memory, read as a file is.
#[verifier::external_type_specification]
#[verifier::external_body]
#[verifier::reject_recursive_types(T)]
pub struct ExCursor<T>(std::io::Cursor<T>);

/// `zip::ZipArchive`, opaque: an archive that was opened.
#[verifier::external_type_specification]
#[verifier::external_body]
#[verifier::reject_recursive_types(R)]
pub struct ExZipArchive<R>(zip::ZipArchive<R>);

/// `zip::result::ZipError`, opaque: why the decoder gave up.
#[verifier::external_type_specification]
#[verifier::external_body]
pub struct ExZipError(zip::result::ZipError);

/// What an archive tells of one member before its content is read.
#[derive(Debug, PartialEq, Eq)]
pub struct ArchiveMember {
    pub name: Vec<u8>,
    pub is_dir: bool,
}

/// The value of an [`ArchiveMember`].
pub struct MemberShape {
    pub name: Seq<u8>,
    pub is_dir: bool,
}

impl View for ArchiveMember {
    type V = MemberShape;

    open spec fn view(&self) -> MemberShape {
        MemberShape { name: self.name@, is_dir: self.is_dir }
    }
}

/// What an archive holds at one index: the member as the archive's directory
/// describes it, and the member's decoded content. Either is `None` where
/// the archive cannot give it.
pub struct EntryShape {
    pub member: Option<MemberShape>,
    pub content: Option<Seq<u8>>,
}

/// The entries of the archive that `bytes` encode, or `None` where they
/// encode none.
pub uninterp spec fn archive_entries(bytes: Seq<u8>) -> Option<Seq<EntryShape>>;

/// The entries of an opened archive, by index.
pub uninterp spec fn entries_of(archive: zip::ZipArchive<std::io::Cursor<Vec<u8>>>) -> Seq<
    EntryShape,
>;

/// Calls `zip::ZipArchive::new` on a cursor over `bytes`.
///
/// Trusted: whether the bytes open as an archive, and which entries it then
/// has, depends on the bytes alone.
#[verifier::external_body]
pub(crate) fn open_archive(bytes: Vec<u8>) -> (opened: Result<
    zip::ZipArchive<std::io::Cursor<Vec<u8>>>,
    zip::result::ZipError,
>)
    ensures
        match opened {
            Ok(archive) => archive_entries(bytes@) == Some(entries_of(archive)),
            Err(_) => archive_entries(bytes@).is_none(),
        },
{
    zip::ZipArchive::new(std::io::Cursor::new(bytes))
}

/// Calls `zip::ZipArchive::len`.
///
/// Trusted: it is the number of the archive's entries.
#[verifier::external_body]
pub(crate) fn member_count(archive: &zip::ZipArchive<std::io::Cursor<Vec<u8>>>) -> (count: usize)
    ensures
        count == entries_of(*archive).len(),
{
    archive.len()
}

/// Calls `zip::ZipArchive::by_index_data`, then `name` and `is_dir` on what
/// it gives.
///
/// Trusted: for an index below the number of entries the result is the
/// member of that entry, an error where the entry has none.
#[verifier::external_body]
pub(crate) fn member_at(archive: &zip::ZipArchive<std::io::Cursor<Vec<u8>>>, index: usize) -> (found:
    Result<ArchiveMember, zip::result::ZipError>)
    ensures
        index < entries_of(*archive).len() ==> match found {
            Ok(member) => entries_of(*archive)[index as int].member == Some(member@),
            Err(_) => entries_of(*archive)[index as int].member.is_none(),
        },
{
    let entry = archive.by_index_data(index)?;
    Ok(ArchiveMember { name: entry.name()?.as_bytes().to_vec(), is_dir: entry.is_dir() })
}

/// Calls `zip::ZipArchive::by_index` and reads the member to its end.
///
/// Trusted: the archive keeps its entries, and for an index below their
/// number the result is the content of that entry, an error where the entry
/// has none.
#[verifier::external_body]
pub(crate) fn content_at(archive: &mut zip::ZipArchive<std::io::Cursor<Vec<u8>>>, index: usize) -> (read:
    Result<Vec<u8>, zip::result::ZipError>)
    ensures
        entries_of(*final(archive)) == entries_of(*old(archive)),
        index < entries_of(*old(archive)).len() ==> match read {
            Ok(content) => entries_of(*old(archive))[index as int].content == Some(content@),
            Err(_) => entries_of(*old(archive))[index as int].content.is_none(),
        },
{
    let mut file = archive.by_index(index)?;
    let mut content = Vec::new();
    file.read_to_end(&mut content)?;
    Ok(content)
}

/// The suffix that marks a member as source text.
pub open spec fn source_suffix() -> Seq<u8> {
    ".clj".spec_bytes()
}

/// Whether a member is a unit to scan: a source file that is no directory.
pub open spec fn is_source_member(member: MemberShape) -> bool {
    has_suffix(member.name, source_suffix()) && !member.is_dir
}

/// Tests whether a member is a unit to scan.
pub fn wants_member(member: &ArchiveMember) -> (yes: bool)
    ensures
        yes == is_source_member(member@),
{
    ends_with(member.name.as_slice(), ".clj".as_bytes()) && !member.is_dir
}

} // verus!

//! Package archives: what the members of a tar archive are, compressed or not.
use std::io::Read;

use vstd::prelude::*;

use crate::text;

verus! {

/// A member of an archive: where it is to go, whether it is a directory, its
/// content as far as it could be read, and what stopped the reading. The path
/// is bytes and need not be text.
pub struct Member {
    pub path: Vec<u8>,
    pub directory: bool,
    pub content: Vec<u8>,
    pub fault: Option<String>,
}

/// A member with its texts taken as sequences of characters.
pub struct MemberView {
    pub path: Seq<u8>,
    pub directory: bool,
    pub content: Seq<u8>,
    pub fault: Option<Seq<char>>,
}

/// The text of a result.
pub open spec fn result_text(r: Result<String, String>) -> Result<Seq<char>, Seq<char>> {
    match r {
        Ok(s) => Ok(s@),
        Err(s) => Err(s@),
    }
}

impl View for Member {
    type V = MemberView;

    open spec fn view(&self) -> MemberView {
        MemberView {
            path: self.path@,
            directory: self.directory,
            content: self.content@,
            fault: match self.fault {
                Some(s) => Some(s@),
                None => None,
            },
        }
    }
}

/// The members of an archive in order; an error ends them.
pub type Listing = Seq<Result<MemberView, Seq<char>>>;

/// A list of members with its texts taken as sequences of characters.
pub open spec fn listing(v: Seq<Result<Member, String>>) -> Listing {
    v.map_values(
        |m: Result<Member, String>|
            match m {
                Ok(m) => Ok(m@),
                Err(e) => Err(e@),
            },
    )
}

/// An outcome of opening an archive with its texts taken as sequences of characters.
pub open spec fn opened(r: Result<Vec<Result<Member, String>>, String>) -> Result<
    Listing,
    Seq<char>,
> {
    match r {
        Ok(v) => Ok(listing(v@)),
        Err(e) => Err(e@),
    }
}

/// What `tar` reads out of bytes that `zstd` decompresses.
pub uninterp spec fn zstd_tar(data: Seq<u8>) -> Result<Listing, Seq<char>>;

/// Calls `zstd::Decoder::new` on the bytes and walks `tar::Archive::entries`
/// over it. The result is named: the members that come before the first
/// fault of either, each with the bytes of its path and read to its end, then
/// that fault.
#[verifier::external_body]
pub(crate) fn read_zstd_tar(data: &[u8]) -> (r: Result<Vec<Result<Member, String>>, String>)
    ensures
        opened(r) == zstd_tar(data@),
{
    let mut archive = tar::Archive::new(zstd::Decoder::new(data).map_err(|e| e.to_string())?);
    let entries = archive.entries().map_err(|e| e.to_string())?;
    Ok(entries.map(|entry| {
        let mut entry = entry.map_err(|e| e.to_string())?;
        let path = entry.path_bytes().into_owned();
        let directory = entry.header().entry_type().is_dir();
        let mut content = Vec::new();
        let fault = entry.read_to_end(&mut content).err().map(|e| e.to_string());
        Ok(Member { path, directory, content, fault })
    }).collect())
}

/// What `tar` reads out of bytes that `xz2` decompresses.
pub uninterp spec fn xz_tar(data: Seq<u8>) -> Result<Listing, Seq<char>>;

/// Calls `xz2::read::XzDecoder::new` on the bytes and walks
/// `tar::Archive::entries` over it. The result is named: the members that
/// come before the first fault of either, each with the bytes of its path and
/// read to its end, then that fault.
#[verifier::external_body]
pub(crate) fn read_xz_tar(data: &[u8]) -> (r: Result<Vec<Result<Member, String>>, String>)
    ensures
        opened(r) == xz_tar(data@),
{
    let mut archive = tar::Archive::new(xz2::read::XzDecoder::new(data));
    let entries = archive.entries().map_err(|e| e.to_string())?;
    Ok(entries.map(|entry| {
        let mut entry = entry.map_err(|e| e.to_string())?;
        let path = entry.path_bytes().into_owned();
        let directory = entry.header().entry_type().is_dir();
        let mut content = Vec::new();
        let fault = entry.read_to_end(&mut content).err().map(|e| e.to_string());
        Ok(Member { path, directory, content, fault })
    }).collect())
}

/// What `tar` reads out of bytes that `flate2` decompresses.
pub uninterp spec fn gz_tar(data: Seq<u8>) -> Result<Listing, Seq<char>>;

/// Calls `flate2::read::GzDecoder::new` on the bytes and walks
/// `tar::Archive::entries` over it. The result is named: the members that
/// come before the first fault of either, each with the bytes of its path and
/// read to its end, then that fault.
#[verifier::external_body]
pub(crate) fn read_gz_tar(data: &[u8]) -> (r: Result<Vec<Result<Member, String>>, String>)
    ensures
        opened(r) == gz_tar(data@),
{
    let mut archive = tar::Archive::new(flate2::read::GzDecoder::new(data));
    let entries = archive.entries().map_err(|e| e.to_string())?;
    Ok(entries.map(|entry| {
        let mut entry = entry.map_err(|e| e.to_string())?;
        let path = entry.path_bytes().into_owned();
        let directory = entry.header().entry_type().is_dir();
        let mut content = Vec::new();
        let fault = entry.read_to_end(&mut content).err().map(|e| e.to_string());
        Ok(Member { path, directory, content, fault })
    }).collect())
}

/// What `tar` reads out of bytes.
pub uninterp spec fn plain_tar(data: Seq<u8>) -> Result<Listing, Seq<char>>;

/// Walks `tar::Archive::entries` over the bytes. The result is named: the
/// members that come before the first fault, each with the bytes of its path
/// and read to its end, then that fault.
#[verifier::external_body]
pub(crate) fn read_plain_tar(data: &[u8]) -> (r: Result<Vec<Result<Member, String>>, String>)
    ensures
        opened(r) == plain_tar(data@),
{
    let mut archive = tar::Archive::new(data);
    let entries = archive.entries().map_err(|e| e.to_string())?;
    Ok(entries.map(|entry| {
        let mut entry = entry.map_err(|e| e.to_string())?;
        let path = entry.path_bytes().into_owned();
        let directory = entry.header().entry_type().is_dir();
        let mut content = Vec::new();
        let fault = entry.read_to_end(&mut content).err().map(|e| e.to_string());
        Ok(Member { path, directory, content, fault })
    }).collect())
}

/// Calls `std::str::from_utf8`: the bytes as text, if they are valid UTF-8.
#[verifier::external_body]
pub(crate) fn utf8_text(data: &[u8]) -> (r: Option<String>)
    ensures
        match r {
            Some(s) => vstd::utf8::valid_utf8(data@) && s@ == vstd::utf8::decode_utf8(data@),
            None => !vstd::utf8::valid_utf8(data@),
        },
{
    std::str::from_utf8(data).ok().map(|s| s.to_owned())
}

/// The text of a member, or why it cannot be had.
pub open spec fn member_text(m: MemberView) -> Result<Seq<char>, Seq<char>> {
    match m.fault {
        Some(e) => Err(e),
        None => if vstd::utf8::valid_utf8(m.content) {
            Ok(vstd::utf8::decode_utf8(m.content))
        } else {
            Err("stream did not contain valid UTF-8"@)
        },
    }
}

impl Member {
    /// The text of the member, or why it cannot be had.
    pub fn text(&self) -> (r: Result<String, String>)
        ensures
            result_text(r) == member_text(self@),
    {
        match &self.fault {
            Some(e) => Err(text::copy(e)),
            None => match utf8_text(self.content.as_slice()) {
                Some(t) => Ok(t),
                None => Err("stream did not contain valid UTF-8".to_owned()),
            },
        }
    }
}

} // verus!

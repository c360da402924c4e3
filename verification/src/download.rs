//! What a package download needs decided: where it comes from, how its
//! checksum is given, and how the archive is unpacked. Fetching, hashing and
//! unpacking are done by the caller.

use vstd::prelude::*;
use vstd::string::*;

use crate::error::{BallError, ErrorView};
use crate::package::{Package, PackageSource, SourceView};
use crate::text::{chars_of, concat, concat3, ends_with, ends_with_str};

verus! {

/// Where a downloaded package ended up in the cache: the archive, the
/// directory it was unpacked into, and the package's binary inside it when
/// one was found.
#[derive(Debug, Clone)]
pub struct DownloadedPackage {
    pub archive_path: String,
    pub extract_dir: String,
    pub binary_path: Option<String>,
}

/// How an archive is unpacked, by its file name.
#[derive(Debug, Clone, Copy, PartialEq, Eq, Structural)]
pub enum ArchiveKind {
    TarGz,
    TarBz2,
    TarXz,
    Tar,
    Zip,
    Gz,
    /// No known extension: unpacked as a zip, the failure reported as an
    /// unsupported format.
    Unknown,
}

pub open spec fn spec_archive_kind(f: Seq<char>) -> ArchiveKind {
    if ends_with(f, ".tar.gz"@) || ends_with(f, ".tgz"@) {
        ArchiveKind::TarGz
    } else if ends_with(f, ".tar.bz2"@) || ends_with(f, ".tbz2"@) {
        ArchiveKind::TarBz2
    } else if ends_with(f, ".tar.xz"@) || ends_with(f, ".txz"@) {
        ArchiveKind::TarXz
    } else if ends_with(f, ".tar"@) {
        ArchiveKind::Tar
    } else if ends_with(f, ".zip"@) || ends_with(f, ".nupkg"@) {
        ArchiveKind::Zip
    } else if ends_with(f, ".gz"@) {
        ArchiveKind::Gz
    } else {
        ArchiveKind::Unknown
    }
}

pub fn archive_kind(file_name: &str) -> (r: ArchiveKind)
    ensures
        r == spec_archive_kind(file_name@),
{
    let f = chars_of(file_name);
    let s = f.as_slice();
    if ends_with_str(s, ".tar.gz") || ends_with_str(s, ".tgz") {
        ArchiveKind::TarGz
    } else if ends_with_str(s, ".tar.bz2") || ends_with_str(s, ".tbz2") {
        ArchiveKind::TarBz2
    } else if ends_with_str(s, ".tar.xz") || ends_with_str(s, ".txz") {
        ArchiveKind::TarXz
    } else if ends_with_str(s, ".tar") {
        ArchiveKind::Tar
    } else if ends_with_str(s, ".zip") || ends_with_str(s, ".nupkg") {
        ArchiveKind::Zip
    } else if ends_with_str(s, ".gz") {
        ArchiveKind::Gz
    } else {
        ArchiveKind::Unknown
    }
}

/// Where a package is downloaded from; packages without a URL are refused,
/// those of the native manager and of cargo with a pointer to the tool that
/// installs them.
pub open spec fn spec_download_url(name: Seq<char>, url: Option<Seq<char>>, source: SourceView) -> Result<
    Seq<char>,
    ErrorView,
> {
    match url {
        Some(u) => Ok(u),
        None => match source {
            SourceView::System { .. } => Err(
                ErrorView::PackageManagerError("'"@ + name + "' is a system package — use native package manager"@),
            ),
            SourceView::Cargo { .. } => Err(
                ErrorView::PackageManagerError("'"@ + name + "' is a cargo package — use cargo install"@),
            ),
            _ => Err(ErrorView::NetworkError("no download URL for package '"@ + name + "'"@)),
        },
    }
}

pub fn download_url(pkg: &Package) -> (r: Result<String, BallError>)
    ensures
        match r {
            Ok(u) => spec_download_url(pkg.name@, pkg.download_url.deep_view(), pkg.source@) == Ok::<
                Seq<char>,
                ErrorView,
            >(u@),
            Err(e) => spec_download_url(pkg.name@, pkg.download_url.deep_view(), pkg.source@) == Err::<
                Seq<char>,
                ErrorView,
            >(e@),
        },
{
    match &pkg.download_url {
        Some(u) => Ok(u.clone()),
        None => match &pkg.source {
            PackageSource::System { .. } => Err(
                BallError::PackageManagerError(
                    concat3("'", pkg.name.as_str(), "' is a system package — use native package manager"),
                ),
            ),
            PackageSource::Cargo { .. } => Err(
                BallError::PackageManagerError(concat3("'", pkg.name.as_str(), "' is a cargo package — use cargo install")),
            ),
            _ => Err(BallError::NetworkError(concat3("no download URL for package '", pkg.name.as_str(), "'"))),
        },
    }
}

/// A character's code with ASCII capitals taken as lowercase.
pub open spec fn ascii_lower(c: char) -> u32 {
    if 'A' <= c && c <= 'Z' {
        ((c as u32) + 32) as u32
    } else {
        c as u32
    }
}

/// `str::eq_ignore_ascii_case`.
pub open spec fn eq_ignore_ascii_case(a: Seq<char>, b: Seq<char>) -> bool {
    a.len() == b.len() && forall|i: int| 0 <= i < a.len() ==> ascii_lower(#[trigger] a[i]) == ascii_lower(b[i])
}

fn lower_char(c: char) -> (r: u32)
    ensures
        r == ascii_lower(c),
{
    if 'A' <= c && c <= 'Z' {
        (c as u32) + 32
    } else {
        c as u32
    }
}

pub fn eq_ignore_case(a: &str, b: &str) -> (r: bool)
    ensures
        r == eq_ignore_ascii_case(a@, b@),
{
    let x = chars_of(a);
    let y = chars_of(b);
    if x.len() != y.len() {
        return false;
    }
    let mut i: usize = 0;
    while i < x.len()
        invariant
            x@ == a@,
            y@ == b@,
            x@.len() == y@.len(),
            i <= x@.len(),
            forall|j: int| 0 <= j < i ==> ascii_lower(#[trigger] x@[j]) == ascii_lower(y@[j]),
        decreases x@.len() - i,
    {
        if lower_char(x[i]) != lower_char(y[i]) {
            return false;
        }
        i = i + 1;
    }
    true
}

/// The lowercase hexadecimal digit for `d < 16`.
pub open spec fn hex_digit(d: u8) -> char {
    if d < 10 {
        (('0' as u8) + d) as char
    } else {
        (('a' as u8) + d - 10) as char
    }
}

/// Each byte as two lowercase hexadecimal digits.
pub open spec fn spec_hex(bytes: Seq<u8>) -> Seq<char>
    decreases bytes.len(),
{
    if bytes.len() == 0 {
        Seq::empty()
    } else {
        spec_hex(bytes.drop_last()) + seq![hex_digit(bytes.last() / 16), hex_digit(bytes.last() % 16)]
    }
}

/// `hex::encode`: each byte as two lowercase hexadecimal digits, in order.
#[verifier::external_body]
fn hex_encode(bytes: &Vec<u8>) -> (r: String)
    ensures
        r@ == spec_hex(bytes@),
{
    hex::encode(bytes)
}

/// What `base64`'s standard engine decodes a text into, or the text of its
/// decoding error.
pub uninterp spec fn spec_base64_decode(text: Seq<char>) -> Result<Seq<u8>, Seq<char>>;

/// `base64::engine::general_purpose::STANDARD.decode`, the error written
/// out as text; the result is only named.
#[verifier::external_body]
fn base64_decode(text: &str) -> (r: Result<Vec<u8>, String>)
    ensures
        match r {
            Ok(b) => spec_base64_decode(text@) == Ok::<Seq<u8>, Seq<char>>(b@),
            Err(m) => spec_base64_decode(text@) == Err::<Seq<u8>, Seq<char>>(m@),
        },
{
    match base64::Engine::decode(&base64::engine::general_purpose::STANDARD, text) {
        Ok(b) => Ok(b),
        Err(e) => Err(e.to_string()),
    }
}

/// How a package's checksum is to be checked.
#[derive(Debug, Clone, PartialEq, Eq)]
pub enum HashCheck {
    /// A SHA-512 digest, as lowercase hex.
    Sha512(String),
    /// A SHA-256 digest, as the package gives it.
    Sha256(String),
}

pub open spec fn is_sha512_name(a: Seq<char>) -> bool {
    eq_ignore_ascii_case(a, "SHA512"@) || eq_ignore_ascii_case(a, "SHA-512"@)
}

/// The check a package's checksum calls for: none without a checksum; a
/// SHA-512 one is given in base64 and compared as hex; any other algorithm
/// (SHA-256 when none is named) is compared as given. A SHA-512 checksum that
/// is not base64 is a mismatch.
pub open spec fn spec_hash_check(sha: Option<Seq<char>>, alg: Option<Seq<char>>) -> Result<
    Option<(bool, Seq<char>)>,
    ErrorView,
> {
    match sha {
        None => Ok(None),
        Some(h) => {
            let a = match alg {
                Some(a) => a,
                None => "SHA256"@,
            };
            if is_sha512_name(a) {
                match spec_base64_decode(h) {
                    Ok(b) => Ok(Some((true, spec_hex(b)))),
                    Err(m) => Err(ErrorView::HashMismatch("invalid base64 hash: "@ + m)),
                }
            } else {
                Ok(Some((false, h)))
            }
        },
    }
}

pub open spec fn check_view(c: HashCheck) -> (bool, Seq<char>) {
    match c {
        HashCheck::Sha512(h) => (true, h@),
        HashCheck::Sha256(h) => (false, h@),
    }
}

pub fn hash_check(pkg: &Package) -> (r: Result<Option<HashCheck>, BallError>)
    ensures
        match r {
            Ok(Some(c)) => spec_hash_check(pkg.sha256.deep_view(), pkg.hash_algorithm.deep_view()) == Ok::<
                Option<(bool, Seq<char>)>,
                ErrorView,
            >(Some(check_view(c))),
            Ok(None) => spec_hash_check(pkg.sha256.deep_view(), pkg.hash_algorithm.deep_view()) == Ok::<
                Option<(bool, Seq<char>)>,
                ErrorView,
            >(None),
            Err(e) => spec_hash_check(pkg.sha256.deep_view(), pkg.hash_algorithm.deep_view()) == Err::<
                Option<(bool, Seq<char>)>,
                ErrorView,
            >(e@),
        },
{
    let h = match &pkg.sha256 {
        None => {
            return Ok(None);
        },
        Some(h) => h,
    };
    let a: &str = match &pkg.hash_algorithm {
        Some(a) => a.as_str(),
        None => "SHA256",
    };
    if eq_ignore_case(a, "SHA512") || eq_ignore_case(a, "SHA-512") {
        match base64_decode(h.as_str()) {
            Ok(b) => Ok(Some(HashCheck::Sha512(hex_encode(&b)))),
            Err(m) => Err(BallError::HashMismatch(concat("invalid base64 hash: ", m.as_str()))),
        }
    } else {
        Ok(Some(HashCheck::Sha256(h.clone())))
    }
}

/// The verdict on an archive whose digest was computed: it must equal the
/// expected one, hex letters compared without regard to case.
pub fn verify_digest(expected: &str, computed: &str) -> (r: Result<(), BallError>)
    ensures
        eq_ignore_ascii_case(expected@, computed@) ==> r is Ok,
        !eq_ignore_ascii_case(expected@, computed@) ==> (r matches Err(e) && e@ == ErrorView::HashMismatch(
            "expected "@ + expected@ + ", got "@ + computed@,
        )),
{
    if eq_ignore_case(expected, computed) {
        Ok(())
    } else {
        let mut m = concat3("expected ", expected, ", got ");
        m.append(computed);
        Err(BallError::HashMismatch(m))
    }
}

} // verus!

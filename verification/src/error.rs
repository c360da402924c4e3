//! The single error type every fallible operation of the crate returns.

use vstd::prelude::*;
use vstd::string::*;

use crate::text::{concat, concat3, decimal, decimal_string, join, join_strings};

verus! {

#[derive(Debug)]
pub enum BallError {
    UnsupportedOs(String),
    UnsupportedCommand(String),
    UnknownParameter(String),
    /// An I/O failure, carried as the text the operating system reported.
    FileIoErr(String),
    InvalidConfig(String),
    UnknownConfigEntry((usize, String)),
    NetworkError(String),
    PackageNotFound(String),
    HashMismatch(String),
    ExtractionFailed(String),
    DependencyCycle(String),
    VersionConflict(String),
    PackageFrozen(String),
    PackageManagerError(String),
    InjectedCommandError(String),
    ConfirmationAborted,
    NoMatchingAsset { package: String, platform: String, assets: Vec<String> },
}

/// An error as a mathematical value: every string payload taken by its view.
pub enum ErrorView {
    UnsupportedOs(Seq<char>),
    UnsupportedCommand(Seq<char>),
    UnknownParameter(Seq<char>),
    FileIoErr(Seq<char>),
    InvalidConfig(Seq<char>),
    UnknownConfigEntry(nat, Seq<char>),
    NetworkError(Seq<char>),
    PackageNotFound(Seq<char>),
    HashMismatch(Seq<char>),
    ExtractionFailed(Seq<char>),
    DependencyCycle(Seq<char>),
    VersionConflict(Seq<char>),
    PackageFrozen(Seq<char>),
    PackageManagerError(Seq<char>),
    InjectedCommandError(Seq<char>),
    ConfirmationAborted,
    NoMatchingAsset { package: Seq<char>, platform: Seq<char>, assets: Seq<Seq<char>> },
}

impl View for BallError {
    type V = ErrorView;

    open spec fn view(&self) -> ErrorView {
        match self {
            BallError::UnsupportedOs(s) => ErrorView::UnsupportedOs(s@),
            BallError::UnsupportedCommand(s) => ErrorView::UnsupportedCommand(s@),
            BallError::UnknownParameter(s) => ErrorView::UnknownParameter(s@),
            BallError::FileIoErr(s) => ErrorView::FileIoErr(s@),
            BallError::InvalidConfig(s) => ErrorView::InvalidConfig(s@),
            BallError::UnknownConfigEntry((n, s)) => ErrorView::UnknownConfigEntry(*n as nat, s@),
            BallError::NetworkError(s) => ErrorView::NetworkError(s@),
            BallError::PackageNotFound(s) => ErrorView::PackageNotFound(s@),
            BallError::HashMismatch(s) => ErrorView::HashMismatch(s@),
            BallError::ExtractionFailed(s) => ErrorView::ExtractionFailed(s@),
            BallError::DependencyCycle(s) => ErrorView::DependencyCycle(s@),
            BallError::VersionConflict(s) => ErrorView::VersionConflict(s@),
            BallError::PackageFrozen(s) => ErrorView::PackageFrozen(s@),
            BallError::PackageManagerError(s) => ErrorView::PackageManagerError(s@),
            BallError::InjectedCommandError(s) => ErrorView::InjectedCommandError(s@),
            BallError::ConfirmationAborted => ErrorView::ConfirmationAborted,
            BallError::NoMatchingAsset { package, platform, assets } => ErrorView::NoMatchingAsset {
                package: package@,
                platform: platform@,
                assets: assets.deep_view(),
            },
        }
    }
}

/// The human-readable text of an error, as `baller` prints it.
pub open spec fn message_of(e: BallError) -> Seq<char> {
    match e {
        BallError::UnsupportedOs(os) => "the following OS is unsupported: "@ + os@
            + "\n\t please use Windows or Linux"@,
        BallError::UnsupportedCommand(c) => "the following command does not exist: "@ + c@
            + "\n\t run 'baller help' for more info"@,
        BallError::UnknownParameter(p) => "unknown parameter: '"@ + p@
            + "'\n\t run 'baller help' for more info about parameters"@,
        BallError::FileIoErr(m) => m@,
        BallError::InvalidConfig(m) => m@,
        BallError::UnknownConfigEntry((line, entry)) => "unknown config entry at line["@ + decimal(
            line as nat,
        ) + "]: '"@ + entry@ + "'"@,
        BallError::NetworkError(m) => "network error: "@ + m@,
        BallError::PackageNotFound(m) => "package not found: "@ + m@,
        BallError::HashMismatch(m) => "hash verification failed: "@ + m@,
        BallError::ExtractionFailed(m) => "failed to extract package: "@ + m@,
        BallError::DependencyCycle(m) => "dependency cycle detected: "@ + m@,
        BallError::VersionConflict(m) => "version conflict: "@ + m@,
        BallError::PackageFrozen(name) => "package '"@ + name@
            + "' is frozen and cannot be modified"@,
        BallError::PackageManagerError(m) => "package manager error: "@ + m@,
        BallError::InjectedCommandError(m) => "injected command error: "@ + m@,
        BallError::ConfirmationAborted => "operation aborted: confirmation declined"@,
        BallError::NoMatchingAsset { package, platform, assets } => "no "@ + platform@
            + " asset for '"@ + package@ + "' (available: "@ + (if assets@.len() == 0 {
            "none"@
        } else {
            join(assets.deep_view(), ", "@)
        }) + ")"@,
    }
}

impl BallError {
    /// The text `baller` prints for this error.
    pub fn message(&self) -> (r: String)
        ensures
            r@ == message_of(*self),
    {
        match self {
            BallError::UnsupportedOs(os) => concat3(
                "the following OS is unsupported: ",
                os.as_str(),
                "\n\t please use Windows or Linux",
            ),
            BallError::UnsupportedCommand(c) => concat3(
                "the following command does not exist: ",
                c.as_str(),
                "\n\t run 'baller help' for more info",
            ),
            BallError::UnknownParameter(p) => concat3(
                "unknown parameter: '",
                p.as_str(),
                "'\n\t run 'baller help' for more info about parameters",
            ),
            BallError::FileIoErr(m) => m.clone(),
            BallError::InvalidConfig(m) => m.clone(),
            BallError::UnknownConfigEntry((line, entry)) => {
                let mut r = String::from_str("unknown config entry at line[");
                let d = decimal_string(*line as u64);
                r.append(d.as_str());
                r.append("]: '");
                r.append(entry.as_str());
                r.append("'");
                r
            },
            BallError::NetworkError(m) => concat("network error: ", m.as_str()),
            BallError::PackageNotFound(m) => concat("package not found: ", m.as_str()),
            BallError::HashMismatch(m) => concat("hash verification failed: ", m.as_str()),
            BallError::ExtractionFailed(m) => concat("failed to extract package: ", m.as_str()),
            BallError::DependencyCycle(m) => concat("dependency cycle detected: ", m.as_str()),
            BallError::VersionConflict(m) => concat("version conflict: ", m.as_str()),
            BallError::PackageFrozen(name) => concat3(
                "package '",
                name.as_str(),
                "' is frozen and cannot be modified",
            ),
            BallError::PackageManagerError(m) => concat("package manager error: ", m.as_str()),
            BallError::InjectedCommandError(m) => concat("injected command error: ", m.as_str()),
            BallError::ConfirmationAborted => String::from_str(
                "operation aborted: confirmation declined",
            ),
            BallError::NoMatchingAsset { package, platform, assets } => {
                let mut r = String::from_str("no ");
                r.append(platform.as_str());
                r.append(" asset for '");
                r.append(package.as_str());
                r.append("' (available: ");
                if assets.len() == 0 {
                    r.append("none");
                } else {
                    let j = join_strings(assets, ", ");
                    r.append(j.as_str());
                }
                r.append(")");
                r
            },
        }
    }
}

} // verus!

//! The host platforms baller supports, and the directory layout on each.

use vstd::prelude::*;
use vstd::string::*;

use crate::text::{chars_of, concat, concat3, ends_with, ends_with_str};

verus! {

#[derive(Debug, Clone, Copy, PartialEq, Eq, Structural)]
pub enum HostOs {
    Linux,
    Windows,
}

#[derive(Debug, Clone, Copy, PartialEq, Eq, Structural)]
pub enum HostArch {
    X86_64,
    Arm64,
}

/// `Path::join` for `/`-separated paths: an absolute `part` replaces `base`.
pub open spec fn path_join(base: Seq<char>, part: Seq<char>) -> Seq<char> {
    if part.len() > 0 && part[0] == '/' {
        part
    } else if base.len() == 0 {
        part
    } else if base.last() == '/' {
        base + part
    } else {
        base + seq!['/'] + part
    }
}

pub fn join_path(base: &str, part: &str) -> (r: String)
    ensures
        r@ == path_join(base@, part@),
{
    let b = chars_of(base);
    let p = chars_of(part);
    if p.len() > 0 && p[0] == '/' {
        String::from_str(part)
    } else if b.len() == 0 {
        String::from_str(part)
    } else if b[b.len() - 1] == '/' {
        concat(base, part)
    } else {
        proof {
            reveal_strlit("/");
            assert("/"@ =~= seq!['/']);
        }
        concat3(base, "/", part)
    }
}

/// Where a platform keeps baller's binaries and configuration, given the
/// directory its environment names (`HOME` on Linux, `LOCALAPPDATA` on Windows).
pub trait PlatformManager {
    /// The directory package binaries are exposed in.
    fn install_dir_under(base: &str) -> String;

    /// Baller's configuration directory.
    fn config_dir_under(base: &str) -> String;

    /// The file name a package binary is exposed under.
    fn exposed_name(executable_name: &str) -> String;
}

pub struct LinuxManager;

pub struct WindowsManager;

pub open spec fn linux_install_dir(home: Seq<char>) -> Seq<char> {
    path_join(path_join(home, ".local"@), "bin"@)
}

pub open spec fn linux_config_dir(home: Seq<char>) -> Seq<char> {
    path_join(home, ".baller"@)
}

pub open spec fn windows_install_dir(base: Seq<char>) -> Seq<char> {
    path_join(path_join(base, "baller"@), "bin"@)
}

pub open spec fn windows_config_dir(base: Seq<char>) -> Seq<char> {
    path_join(base, "baller"@)
}

/// Windows executables are exposed with an `.exe` suffix.
pub open spec fn windows_exposed_name(name: Seq<char>) -> Seq<char> {
    if ends_with(name, ".exe"@) {
        name
    } else {
        name + ".exe"@
    }
}

impl PlatformManager for LinuxManager {
    fn install_dir_under(base: &str) -> (r: String)
        ensures
            r@ == linux_install_dir(base@),
    {
        let d = join_path(base, ".local");
        join_path(d.as_str(), "bin")
    }

    fn config_dir_under(base: &str) -> (r: String)
        ensures
            r@ == linux_config_dir(base@),
    {
        join_path(base, ".baller")
    }

    fn exposed_name(executable_name: &str) -> (r: String)
        ensures
            r@ == executable_name@,
    {
        String::from_str(executable_name)
    }
}

impl PlatformManager for WindowsManager {
    fn install_dir_under(base: &str) -> (r: String)
        ensures
            r@ == windows_install_dir(base@),
    {
        let d = join_path(base, "baller");
        join_path(d.as_str(), "bin")
    }

    fn config_dir_under(base: &str) -> (r: String)
        ensures
            r@ == windows_config_dir(base@),
    {
        join_path(base, "baller")
    }

    fn exposed_name(executable_name: &str) -> (r: String)
        ensures
            r@ == windows_exposed_name(executable_name@),
    {
        let v = chars_of(executable_name);
        if ends_with_str(v.as_slice(), ".exe") {
            String::from_str(executable_name)
        } else {
            concat(executable_name, ".exe")
        }
    }
}

/// The database file inside a configuration directory.
pub open spec fn db_path_in(config_dir: Seq<char>) -> Seq<char> {
    path_join(path_join(config_dir, "db"@), "baller.db"@)
}

pub fn db_path_under(config_dir: &str) -> (r: String)
    ensures
        r@ == db_path_in(config_dir@),
{
    let d = join_path(config_dir, "db");
    join_path(d.as_str(), "baller.db")
}

} // verus!

//! User hook scripts run around installs, ejects and updates.

use vstd::prelude::*;
use vstd::string::*;

use crate::config::HooksConfig;
use crate::error::{BallError, ErrorView};
use crate::platform::HostOs;
use crate::text::concat3;

verus! {

#[derive(Debug, Clone, Copy, PartialEq, Eq, Structural)]
pub enum HookType {
    PreInstall,
    PostInstall,
    PreEject,
    PostEject,
    PreUpdate,
    PostUpdate,
}

pub open spec fn spec_type_str(h: HookType) -> Seq<char> {
    match h {
        HookType::PreInstall => "pre_install"@,
        HookType::PostInstall => "post_install"@,
        HookType::PreEject => "pre_eject"@,
        HookType::PostEject => "post_eject"@,
        HookType::PreUpdate => "pre_update"@,
        HookType::PostUpdate => "post_update"@,
    }
}

pub open spec fn spec_is_enabled(h: HookType, c: HooksConfig) -> bool {
    match h {
        HookType::PreInstall => c.pre_install,
        HookType::PostInstall => c.post_install,
        HookType::PreEject => c.pre_eject,
        HookType::PostEject => c.post_eject,
        HookType::PreUpdate => c.pre_update,
        HookType::PostUpdate => c.post_update,
    }
}

/// `<package>_<hook>.sh` on Linux, `<package>_<hook>.ps1` on Windows.
pub open spec fn spec_script_filename(os: HostOs, h: HookType, pkg: Seq<char>) -> Seq<char> {
    pkg + "_"@ + spec_type_str(h) + match os {
        HostOs::Windows => ".ps1"@,
        HostOs::Linux => ".sh"@,
    }
}

impl HookType {
    pub fn type_str(&self) -> (r: &'static str)
        ensures
            r@ == spec_type_str(*self),
    {
        match self {
            HookType::PreInstall => "pre_install",
            HookType::PostInstall => "post_install",
            HookType::PreEject => "pre_eject",
            HookType::PostEject => "post_eject",
            HookType::PreUpdate => "pre_update",
            HookType::PostUpdate => "post_update",
        }
    }

    pub fn is_enabled(&self, config: &HooksConfig) -> (r: bool)
        ensures
            r == spec_is_enabled(*self, *config),
    {
        match self {
            HookType::PreInstall => config.pre_install,
            HookType::PostInstall => config.post_install,
            HookType::PreEject => config.pre_eject,
            HookType::PostEject => config.post_eject,
            HookType::PreUpdate => config.pre_update,
            HookType::PostUpdate => config.post_update,
        }
    }
}

pub fn script_filename(os: HostOs, hook_type: &HookType, pkg_name: &str) -> (r: String)
    ensures
        r@ == spec_script_filename(os, *hook_type, pkg_name@),
{
    let mut r = concat3(pkg_name, "_", hook_type.type_str());
    match os {
        HostOs::Windows => r.append(".ps1"),
        HostOs::Linux => r.append(".sh"),
    }
    r
}

/// The script a hook would run, or none when the hook is switched off.
///
/// Whether the script exists, and running it, is left to the caller.
pub fn hook_script(os: HostOs, hook_type: &HookType, pkg_name: &str, config: &HooksConfig) -> (r:
    Option<String>)
    ensures
        match r {
            Some(s) => spec_is_enabled(*hook_type, *config) && s@ == spec_script_filename(
                os,
                *hook_type,
                pkg_name@,
            ),
            None => !spec_is_enabled(*hook_type, *config),
        },
{
    if hook_type.is_enabled(config) {
        Some(script_filename(os, hook_type, pkg_name))
    } else {
        None
    }
}

/// The error a hook that could not be started ends in.
pub fn hook_launch_error(script_name: &str, reason: &str) -> (r: BallError)
    ensures
        r@ == ErrorView::InvalidConfig(
            "failed to execute hook '"@ + script_name@ + "': "@ + reason@,
        ),
{
    let mut m = concat3("failed to execute hook '", script_name, "': ");
    m.append(reason);
    BallError::InvalidConfig(m)
}

/// The error a hook that exited unsuccessfully ends in; `code` is the exit
/// status as `{:?}` shows it.
pub fn hook_failed_error(script_name: &str, code: &str) -> (r: BallError)
    ensures
        r@ == ErrorView::InvalidConfig(
            "hook '"@ + script_name@ + "' failed with exit code "@ + code@,
        ),
{
    let mut m = concat3("hook '", script_name, "' failed with exit code ");
    m.append(code);
    BallError::InvalidConfig(m)
}

} // verus!

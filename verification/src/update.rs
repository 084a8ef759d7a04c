//! The hooks that bring a directory up to date.

use crate::config::{Command, ConfigSite};
use crate::hooks::{commands_view, hooks_for, hooks_for_all, select, select_all, Phase};
use crate::path::FsPath;
use vstd::prelude::*;

verus! {

/// Gives the commands to run when the directory `base` is brought up to
/// date: the `update` list of the configuration that governs it, in its
/// order, without the commands that are meant for another operating system.
pub fn run_update<'a>(sites: &'a Vec<ConfigSite>, base: &FsPath, os: &String) -> (r: Vec<
    &'a Command,
>)
    ensures
        commands_view(r@) == hooks_for(sites@, base@, os@, Phase::Update),
{
    select(sites, base, os, Phase::Update)
}

/// Gives the commands to run when the directories `dirs` below `base` are
/// brought up to date, directory by directory.
pub fn run_updates<'a>(
    sites: &'a Vec<ConfigSite>,
    base: &FsPath,
    dirs: &Vec<FsPath>,
    os: &String,
) -> (r: Vec<&'a Command>)
    ensures
        commands_view(r@) == hooks_for_all(sites@, base@, dirs@, os@, Phase::Update, 0),
{
    select_all(sites, base, dirs, os, Phase::Update)
}

} // verus!

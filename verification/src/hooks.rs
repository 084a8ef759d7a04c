//! The hooks of a configuration: which commands are run for a directory.

use crate::config::{config_at, get_config, resolve, Command, Config, ConfigSite};
use crate::path::{joined, FsPath};
use crate::text::has_prefix;
use vstd::prelude::*;

verus! {

/// The two occasions on which hooks are run.
#[derive(Debug, Clone, Copy, PartialEq, Eq, Structural)]
pub enum Phase {
    Init,
    Update,
}

/// A hook is run on the operating system `os` unless it names an operating
/// system whose name does not begin with `os`.
pub open spec fn runs_on(command: Command, os: Seq<char>) -> bool {
    match command.os {
        Some(o) => os.is_prefix_of(o@),
        None => true,
    }
}

/// The hooks that a configuration lists for a phase.
pub open spec fn listed_hooks(config: Config, phase: Phase) -> Seq<Command> {
    let listed = match phase {
        Phase::Init => config.init,
        Phase::Update => config.update,
    };
    match listed {
        Some(commands) => commands@,
        None => Seq::empty(),
    }
}

/// Those of the commands from the `from`-th on that are run on `os`, in
/// their order.
pub open spec fn hooks_from(commands: Seq<Command>, os: Seq<char>, from: int) -> Seq<Command>
    decreases commands.len() - from,
{
    if from < 0 || from >= commands.len() {
        Seq::empty()
    } else if runs_on(commands[from], os) {
        seq![commands[from]] + hooks_from(commands, os, from + 1)
    } else {
        hooks_from(commands, os, from + 1)
    }
}

/// The hooks that are run for the directory `base`: those that the
/// configuration governing `base` lists for the phase and that are run on
/// `os`.
pub open spec fn hooks_for(sites: Seq<ConfigSite>, base: Seq<Seq<char>>, os: Seq<char>, phase: Phase) -> Seq<
    Command,
> {
    match resolve(sites, base, os) {
        Some(at) => hooks_from(listed_hooks(config_at(sites, at), phase), os, 0),
        None => Seq::empty(),
    }
}

/// The hooks that are run for the directories from the `from`-th on, each
/// directory read from `base`.
pub open spec fn hooks_for_all(
    sites: Seq<ConfigSite>,
    base: Seq<Seq<char>>,
    dirs: Seq<FsPath>,
    os: Seq<char>,
    phase: Phase,
    from: int,
) -> Seq<Command>
    decreases dirs.len() - from,
{
    if from < 0 || from >= dirs.len() {
        Seq::empty()
    } else {
        hooks_for(sites, joined(base, dirs[from]@), os, phase) + hooks_for_all(
            sites,
            base,
            dirs,
            os,
            phase,
            from + 1,
        )
    }
}

/// The commands behind the references.
pub open spec fn commands_view(hooks: Seq<&Command>) -> Seq<Command> {
    hooks.map_values(|c: &Command| *c)
}

/// Whether a hook is run on the operating system `os`.
pub fn is_for(command: &Command, os: &String) -> (b: bool)
    ensures
        b == runs_on(*command, os@),
{
    match &command.os {
        Some(o) => has_prefix(o.as_str(), os.as_str()),
        None => true,
    }
}

/// Selects the hooks that are run for the directory `base` in a phase.
pub fn select<'a>(sites: &'a Vec<ConfigSite>, base: &FsPath, os: &String, phase: Phase) -> (r: Vec<
    &'a Command,
>)
    ensures
        commands_view(r@) == hooks_for(sites@, base@, os@, phase),
{
    let mut hooks: Vec<&'a Command> = Vec::new();
    assert(commands_view(hooks@) =~= Seq::empty());
    let found = match get_config(sites, base, os) {
        Some(found) => found,
        None => {
            return hooks;
        },
    };
    let listed = match phase {
        Phase::Init => &found.config.init,
        Phase::Update => &found.config.update,
    };
    let commands = match listed {
        Some(commands) => commands,
        None => {
            return hooks;
        },
    };
    let mut i: usize = 0;
    while i < commands.len()
        invariant
            i <= commands.len(),
            commands_view(hooks@) + hooks_from(commands@, os@, i as int) == hooks_from(
                commands@,
                os@,
                0,
            ),
        decreases commands.len() - i,
    {
        let ghost before = commands_view(hooks@);
        if is_for(&commands[i], os) {
            hooks.push(&commands[i]);
            assert(commands_view(hooks@) =~= before.push(commands@[i as int]));
            assert(commands_view(hooks@) + hooks_from(commands@, os@, i + 1) =~= before
                + hooks_from(commands@, os@, i as int));
        }
        i += 1;
    }
    assert(commands_view(hooks@) + Seq::<Command>::empty() =~= commands_view(hooks@));
    hooks
}

/// Selects the hooks that are run for several directories in a phase, the
/// directories in their order and each read from `base`.
pub fn select_all<'a>(
    sites: &'a Vec<ConfigSite>,
    base: &FsPath,
    dirs: &Vec<FsPath>,
    os: &String,
    phase: Phase,
) -> (r: Vec<&'a Command>)
    ensures
        commands_view(r@) == hooks_for_all(sites@, base@, dirs@, os@, phase, 0),
{
    let mut hooks: Vec<&'a Command> = Vec::new();
    assert(commands_view(hooks@) =~= Seq::empty());
    let mut i: usize = 0;
    while i < dirs.len()
        invariant
            i <= dirs.len(),
            commands_view(hooks@) + hooks_for_all(sites@, base@, dirs@, os@, phase, i as int)
                == hooks_for_all(sites@, base@, dirs@, os@, phase, 0),
        decreases dirs.len() - i,
    {
        let ghost before = commands_view(hooks@);
        let mut next = select(sites, &base.join(&dirs[i]), os, phase);
        let ghost added = commands_view(next@);
        hooks.append(&mut next);
        assert(commands_view(hooks@) =~= before + added);
        assert(commands_view(hooks@) + hooks_for_all(sites@, base@, dirs@, os@, phase, i + 1)
            =~= before + hooks_for_all(sites@, base@, dirs@, os@, phase, i as int));
        i += 1;
    }
    assert(commands_view(hooks@) + Seq::<Command>::empty() =~= commands_view(hooks@));
    hooks
}

} // verus!

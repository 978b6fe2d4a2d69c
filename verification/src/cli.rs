//! The command line: its subcommands and options, and what they select.

use crate::paths::Scope;
use crate::summary::CheckContext;
use vstd::prelude::*;

verus! {

/// How files are found.
#[derive(Debug, Clone, Copy, PartialEq, Eq, Structural)]
pub enum Discovery {
    /// Git lists them.
    Vcs,
    /// All files below the repository root. Ignore files are not consulted;
    /// `.git` directories are left out.
    Walk,
}

impl Default for Discovery {
    fn default() -> (r: Self)
        ensures
            r == Discovery::Vcs,
    {
        Discovery::Vcs
    }
}

/// The command line.
#[derive(Debug)]
pub struct Cli {
    /// The configuration file; `.kempt.toml` in the repository root without one.
    pub config: Option<String>,
    pub command: Cmd,
}

/// A subcommand.
#[derive(Debug)]
pub enum Cmd {
    /// Format files.
    Format(FormatArgs),
    /// Check files without modifying them.
    Check(CheckArgs),
    /// Write a starter configuration.
    Init(InitArgs),
    /// Install the pre-commit hook.
    InstallHook(InstallHookArgs),
    /// Run as the pre-commit hook.
    Hook,
    /// Download the formatters of the configuration.
    Update,
    /// Raise the versions in the configuration to the latest releases.
    Upgrade(UpgradeArgs),
    /// Copy the formatters into the repository.
    Vendor(VendorArgs),
    /// Look into the cache of formatters or clean it.
    Cache(CacheCmd),
}

#[derive(Debug)]
pub struct InitArgs {
    /// Write `config/license-header.txt` too and turn headers on.
    pub license_header: bool,
}

#[derive(Debug)]
pub struct UpgradeArgs {
    /// Show what would change without changing it.
    pub dry_run: bool,
}

#[derive(Debug)]
pub struct VendorArgs {
    /// Where the formatters go, from the repository root.
    pub dir: String,
}

#[derive(Debug)]
pub enum CacheCmd {
    /// List the cached formatters.
    List,
    /// Remove those that the configuration does not use.
    Prune(PruneArgs),
}

#[derive(Debug)]
pub struct PruneArgs {
    /// Remove all of them.
    pub all: bool,
}

#[derive(Debug)]
pub struct FormatArgs {
    /// All tracked files, which is the default.
    pub all: bool,
    /// The staged files only.
    pub staged: bool,
    /// Show what would change without changing it.
    pub dry_run: bool,
    pub discovery: Discovery,
    /// Take named targets even where they are excluded.
    pub force: bool,
    /// Files, directories or patterns.
    pub paths: Vec<String>,
}

#[derive(Debug)]
pub struct CheckArgs {
    /// All tracked files, which is the default.
    pub all: bool,
    /// The staged files only.
    pub staged: bool,
    pub discovery: Discovery,
    /// Take named targets even where they are excluded.
    pub force: bool,
    /// Files, directories or patterns.
    pub paths: Vec<String>,
}

#[derive(Debug)]
pub struct InstallHookArgs {
    /// Overwrite a hook that is there.
    pub force: bool,
}

/// Options that do not go together.
#[derive(Debug, Clone, Copy, PartialEq, Eq, Structural)]
pub enum Conflict {
    /// `--force` without targets.
    ForceWithoutTarget,
    /// Targets with an option that selects files otherwise.
    TargetsWithScope,
    AllWithStaged,
    AllWithWalk,
    StagedWithWalk,
}

/// The first conflict of the options, in the order in which they are looked at.
pub open spec fn conflict_of(
    all: bool,
    staged: bool,
    discovery: Discovery,
    has_targets: bool,
    force: bool,
) -> Option<Conflict> {
    let walk = discovery == Discovery::Walk;
    if force && !has_targets {
        Some(Conflict::ForceWithoutTarget)
    } else if has_targets && (all || staged || walk) {
        Some(Conflict::TargetsWithScope)
    } else if all && staged {
        Some(Conflict::AllWithStaged)
    } else if all && walk {
        Some(Conflict::AllWithWalk)
    } else if staged && walk {
        Some(Conflict::StagedWithWalk)
    } else {
        None
    }
}

impl Conflict {
    pub open spec fn text(self) -> Seq<char> {
        match self {
            Conflict::ForceWithoutTarget => "--force requires at least one target"@,
            Conflict::TargetsWithScope =>
                "explicit paths are incompatible with --all, --staged, and --discovery=walk"@,
            Conflict::AllWithStaged => "--all is incompatible with --staged"@,
            Conflict::AllWithWalk => "--all is incompatible with --discovery=walk"@,
            Conflict::StagedWithWalk => "--staged is incompatible with --discovery=walk"@,
        }
    }

    /// What the error says.
    pub fn message(&self) -> (r: &'static str)
        ensures
            r@ == self.text(),
    {
        match self {
            Conflict::ForceWithoutTarget => "--force requires at least one target",
            Conflict::TargetsWithScope =>
                "explicit paths are incompatible with --all, --staged, and --discovery=walk",
            Conflict::AllWithStaged => "--all is incompatible with --staged",
            Conflict::AllWithWalk => "--all is incompatible with --discovery=walk",
            Conflict::StagedWithWalk => "--staged is incompatible with --discovery=walk",
        }
    }
}

/// The files that the options select.
#[derive(Debug, Clone, Copy, PartialEq, Eq, Structural)]
pub enum Selection {
    All,
    Staged,
    Walk,
    /// Named targets, with excluded ones where `force` is set.
    Targets { force: bool },
}

/// Reads the options that select files.
pub fn select_files(
    all: bool,
    staged: bool,
    discovery: Discovery,
    has_targets: bool,
    force: bool,
) -> (r: Result<Selection, Conflict>)
    ensures
        match conflict_of(all, staged, discovery, has_targets, force) {
            Some(c) => r == Err::<Selection, Conflict>(c),
            None => r == Ok::<Selection, Conflict>(
                if has_targets {
                    Selection::Targets { force }
                } else if discovery == Discovery::Walk {
                    Selection::Walk
                } else if staged {
                    Selection::Staged
                } else {
                    Selection::All
                },
            ),
        },
{
    let walk = match discovery {
        Discovery::Walk => true,
        Discovery::Vcs => false,
    };
    if force && !has_targets {
        return Err(Conflict::ForceWithoutTarget);
    }
    if has_targets && (all || staged || walk) {
        return Err(Conflict::TargetsWithScope);
    }
    if all && staged {
        return Err(Conflict::AllWithStaged);
    }
    if all && walk {
        return Err(Conflict::AllWithWalk);
    }
    if staged && walk {
        return Err(Conflict::StagedWithWalk);
    }
    if has_targets {
        Ok(Selection::Targets { force })
    } else if walk {
        Ok(Selection::Walk)
    } else if staged {
        Ok(Selection::Staged)
    } else {
        Ok(Selection::All)
    }
}

impl Selection {
    /// The scope of a run, with the files that the targets stand for.
    pub fn scope(self, files: Vec<String>) -> (r: Scope)
        ensures
            match self {
                Selection::All => r is All,
                Selection::Staged => r is Staged,
                Selection::Walk => r is Walk,
                Selection::Targets { force } => r == (Scope::Explicit { files, force }),
            },
    {
        match self {
            Selection::All => Scope::All,
            Selection::Staged => Scope::Staged,
            Selection::Walk => Scope::Walk,
            Selection::Targets { force } => Scope::Explicit { files, force },
        }
    }
}

/// Where a check of a scope was started from.
pub fn check_context_for_scope(scope: &Scope) -> (r: CheckContext)
    ensures
        r == match *scope {
            Scope::All => CheckContext::All,
            Scope::Staged => CheckContext::Staged,
            Scope::Walk => CheckContext::Walk,
            Scope::Explicit { .. } => CheckContext::Explicit,
        },
{
    match scope {
        Scope::All => CheckContext::All,
        Scope::Staged => CheckContext::Staged,
        Scope::Walk => CheckContext::Walk,
        Scope::Explicit { .. } => CheckContext::Explicit,
    }
}

/// The exit code of a run: one where a check found something.
pub fn exit_code(check_failed: bool) -> (r: u8)
    ensures
        r == if check_failed {
            1u8
        } else {
            0u8
        },
{
    if check_failed {
        1
    } else {
        0
    }
}

/// Options that go together select at most one kind of scope.
pub proof fn at_most_one_scope(
    all: bool,
    staged: bool,
    discovery: Discovery,
    has_targets: bool,
    force: bool,
)
    requires
        conflict_of(all, staged, discovery, has_targets, force) is None,
    ensures
        all ==> !staged && discovery == Discovery::Vcs && !has_targets,
        staged ==> !all && discovery == Discovery::Vcs && !has_targets,
        discovery == Discovery::Walk ==> !all && !staged && !has_targets,
        force ==> has_targets,
{
}

/// Options conflict just where a force has no target, or where more than one of
/// targets, `--all`, `--staged` and a walk is asked for; a force without a
/// target is named first, then targets with a scope, and then the two scopes
/// that are at odds.
pub proof fn conflicts_by_options(
    all: bool,
    staged: bool,
    discovery: Discovery,
    has_targets: bool,
    force: bool,
)
    ensures
        ({
            let c = conflict_of(all, staged, discovery, has_targets, force);
            let walk = discovery is Walk;
            &&& c is None <==> (force ==> has_targets) && !(has_targets && all) && !(has_targets
                && staged) && !(has_targets && walk) && !(all && staged) && !(all && walk) && !(
            staged && walk)
            &&& c == Some(Conflict::ForceWithoutTarget) <==> force && !has_targets
            &&& c == Some(Conflict::TargetsWithScope) <==> has_targets && (all || staged || walk)
            &&& c == Some(Conflict::AllWithStaged) <==> all && staged && !has_targets && !force
            &&& c == Some(Conflict::AllWithWalk) <==> all && walk && !staged && !has_targets
                && !force
            &&& c == Some(Conflict::StagedWithWalk) <==> staged && walk && !all && !has_targets
                && !force
        }),
{
}

} // verus!

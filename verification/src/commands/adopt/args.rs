//! What an adoption is asked to do.
use vstd::prelude::*;
use crate::bytes::{has_prefix, lit, opt_view, starts_with};
use crate::error::{plain, usage, usage_error, GroveError, Result};
use crate::git::config::Outcome;
use crate::text::text;

verus! {

/// Whether an adoption is begun, or one that was interrupted is finished or undone.
#[derive(Clone, Copy, Debug, PartialEq, Eq, Structural)]
pub enum AdoptAction {
    Fresh,
    Continue,
    Abort,
}

#[derive(Debug)]
pub struct AdoptArgs {
    pub path: Option<Vec<u8>>,
    pub remote: Option<Vec<u8>>,
    pub default_branch: Option<Vec<u8>>,
    pub action: AdoptAction,
}

pub struct ArgsView {
    pub path: Option<Seq<u8>>,
    pub remote: Option<Seq<u8>>,
    pub default_branch: Option<Seq<u8>>,
    pub action: AdoptAction,
}

impl View for AdoptArgs {
    type V = ArgsView;

    open spec fn view(&self) -> ArgsView {
        ArgsView {
            path: opt_view(self.path),
            remote: opt_view(self.remote),
            default_branch: opt_view(self.default_branch),
            action: self.action,
        }
    }
}

/// Whether a value is there and looks like an option.
pub open spec fn option_shaped(value: Option<Seq<u8>>) -> bool {
    match value {
        None => false,
        Some(v) => starts_with(v, lit("-")),
    }
}

fn is_option_shaped(value: &Option<Vec<u8>>) -> (r: bool)
    ensures
        r == option_shaped(opt_view(*value)),
{
    match value {
        None => false,
        Some(v) => has_prefix(v.as_slice(), "-".as_bytes()),
    }
}

/// Whether the request makes sense.
pub open spec fn checked_args(a: ArgsView) -> Outcome<()> {
    if a.action != AdoptAction::Fresh && (a.remote is Some || a.default_branch is Some) {
        Err(
            usage("--continue/--abort cannot be combined with --remote or --default-branch"@),
        )
    } else if option_shaped(a.remote) {
        Err(usage("the "@ + "remote name"@ + " must not begin with '-'"@))
    } else if option_shaped(a.default_branch) {
        Err(usage("the "@ + "default branch"@ + " must not begin with '-'"@))
    } else {
        Ok(())
    }
}

fn option_error(description: &str) -> (r: GroveError)
    ensures
        r@ == usage("the "@ + description@ + " must not begin with '-'"@),
{
    GroveError::usage(text("the ").concat(description).concat(" must not begin with '-'"))
}

impl AdoptArgs {
    /// A new adoption of the repository at a path, with nothing decided beforehand.
    pub fn fresh(path: Option<Vec<u8>>) -> (r: AdoptArgs)
        ensures
            r@ == (ArgsView {
                path: opt_view(path),
                remote: None,
                default_branch: None,
                action: AdoptAction::Fresh,
            }),
    {
        AdoptArgs { path, remote: None, default_branch: None, action: AdoptAction::Fresh }
    }

    /// Checks that the request makes sense.
    pub fn validate(&self) -> (r: Result<()>)
        ensures
            plain(r) == checked_args(self@),
    {
        if self.action != AdoptAction::Fresh && (self.remote.is_some()
            || self.default_branch.is_some()) {
            return Err(
                usage_error(
                    "--continue/--abort cannot be combined with --remote or --default-branch",
                ),
            );
        }
        if is_option_shaped(&self.remote) {
            return Err(option_error("remote name"));
        }
        if is_option_shaped(&self.default_branch) {
            return Err(option_error("default branch"));
        }
        Ok(())
    }
}

/// Only a new adoption takes decisions: finishing or undoing one follows what was decided.
pub proof fn recovery_takes_no_decisions(a: ArgsView)
    requires
        checked_args(a) is Ok,
        a.action != AdoptAction::Fresh,
    ensures
        a.remote is None,
        a.default_branch is None,
{
}

} // verus!

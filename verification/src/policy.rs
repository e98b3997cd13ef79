//! What a command refuses to work with, before it does anything.
use vstd::prelude::*;
use crate::bytes::{copied, is_lit, lemma_views_push, lit, views};
use crate::commands::publish_push::{escape_all, escaped_list};
use crate::error::{detailed, failure, list_outcome, plain, usage, GroveError, Result};
use crate::git::config::Outcome;
use crate::git::provider::{announced, at_least, ProviderVersion};
use crate::text::{decimal_nat, escape, escaped, join, joined_text, number, text};

verus! {

broadcast use lemma_views_push;

/// The oldest Git that offers what the commands ask of it.
pub const MINIMUM_GIT: (u64, u64) = (2, 47);

// ------------------------------------------------------------------------- Git's version

/// What the output of `git --version` decides.
pub open spec fn git_verdict(stdout: Seq<u8>) -> Outcome<()> {
    match announced(lit("git version "), stdout) {
        None => Err(
            failure("cannot read the version of git from \""@ + escape(stdout) + "\""@),
        ),
        Some(version) => if at_least(version, MINIMUM_GIT.0, MINIMUM_GIT.1) {
            Ok(())
        } else {
            Err(
                usage(
                    "git "@ + decimal_nat(version.major as nat) + "."@ + decimal_nat(
                        version.minor as nat,
                    ) + " is too old; git-grove needs 2.47"@,
                ),
            )
        },
    }
}

fn check_git(stdout: &[u8]) -> (r: Result<()>)
    ensures
        plain(r) == git_verdict(stdout@),
{
    match ProviderVersion::after_banner("git version ", stdout) {
        None => Err(
            GroveError::failure(
                text("cannot read the version of git from \"").concat(
                    escaped(stdout).as_str(),
                ).concat("\""),
            ),
        ),
        Some(version) => if version.at_least(MINIMUM_GIT.0, MINIMUM_GIT.1) {
            Ok(())
        } else {
            Err(
                GroveError::usage(
                    text("git ").concat(number(version.major).as_str()).concat(".").concat(
                        number(version.minor).as_str(),
                    ).concat(" is too old; git-grove needs 2.47"),
                ),
            )
        },
    }
}

// ----------------------------------------------------------------------- the environment

/// The variables that lead Git to another repository, or lay a configuration over its own.
pub open spec fn redirects(name: Seq<u8>) -> bool {
    ||| name == lit("GIT_DIR")
    ||| name == lit("GIT_WORK_TREE")
    ||| name == lit("GIT_INDEX_FILE")
    ||| name == lit("GIT_COMMON_DIR")
    ||| name == lit("GIT_NAMESPACE")
    ||| name == lit("GIT_OBJECT_DIRECTORY")
    ||| name == lit("GIT_ALTERNATE_OBJECT_DIRECTORIES")
    ||| name == lit("GIT_CONFIG")
    ||| name == lit("GIT_CONFIG_GLOBAL")
    ||| name == lit("GIT_CONFIG_SYSTEM")
    ||| name == lit("GIT_CONFIG_COUNT")
    ||| name == lit("GIT_CONFIG_PARAMETERS")
}

/// Whether a variable leads Git elsewhere.
pub fn is_redirecting(name: &[u8]) -> (r: bool)
    ensures
        r == redirects(name@),
{
    is_lit(name, "GIT_DIR") || is_lit(name, "GIT_WORK_TREE") || is_lit(name, "GIT_INDEX_FILE")
        || is_lit(name, "GIT_COMMON_DIR") || is_lit(name, "GIT_NAMESPACE") || is_lit(
        name,
        "GIT_OBJECT_DIRECTORY",
    ) || is_lit(name, "GIT_ALTERNATE_OBJECT_DIRECTORIES") || is_lit(name, "GIT_CONFIG") || is_lit(
        name,
        "GIT_CONFIG_GLOBAL",
    ) || is_lit(name, "GIT_CONFIG_SYSTEM") || is_lit(name, "GIT_CONFIG_COUNT") || is_lit(
        name,
        "GIT_CONFIG_PARAMETERS",
    )
}

/// Those of the first `n` variables that lead Git elsewhere, in order.
pub open spec fn redirecting_among(variables: Seq<Seq<u8>>, n: int) -> Seq<Seq<u8>>
    decreases n,
{
    if n <= 0 {
        Seq::empty()
    } else {
        let before = redirecting_among(variables, n - 1);
        if redirects(variables[n - 1]) {
            before.push(variables[n - 1])
        } else {
            before
        }
    }
}

fn redirecting_of(variables: &Vec<Vec<u8>>) -> (r: Vec<Vec<u8>>)
    ensures
        views(r@) == redirecting_among(views(variables@), variables@.len() as int),
{
    let ghost all = views(variables@);
    let mut found: Vec<Vec<u8>> = Vec::new();
    let mut i: usize = 0;
    proof {
        assert(views(found@) =~= redirecting_among(all, 0));
    }
    while i < variables.len()
        invariant
            i <= variables.len(),
            all == views(variables@),
            views(found@) == redirecting_among(all, i as int),
        decreases variables.len() - i,
    {
        proof {
            assert(all[i as int] == variables@[i as int]@);
        }
        if is_redirecting(variables[i].as_slice()) {
            found.push(copied(variables[i].as_slice()));
        }
        i = i + 1;
    }
    found
}

/// What is decided before a command does anything: Git has to be recent enough, and the
/// environment must not lead it elsewhere unless that is to be ignored. What is ignored is handed
/// back, to be reported.
pub open spec fn gate_verdict(
    stdout: Seq<u8>,
    variables: Seq<Seq<u8>>,
    ignoring: bool,
) -> Outcome<Seq<Seq<u8>>> {
    match git_verdict(stdout) {
        Err(e) => Err(e),
        Ok(_) => {
            let found = redirecting_among(variables, variables.len() as int);
            if found.len() == 0 || ignoring {
                Ok(found)
            } else {
                Err(
                    detailed(
                        usage(
                            "the environment redirects git: "@ + joined_text(
                                escaped_list(found),
                                ", "@,
                            ),
                        ),
                        "unset them, or pass --ignore-unsupported"@,
                    ),
                )
            }
        },
    }
}

/// Decides whether a command may start, from the output of `git --version` and the names of the
/// variables that are set.
pub fn gate(stdout: &[u8], variables: &Vec<Vec<u8>>, ignoring: bool) -> (r: Result<Vec<Vec<u8>>>)
    ensures
        list_outcome(r) == gate_verdict(stdout@, views(variables@), ignoring),
{
    check_git(stdout)?;
    let found = redirecting_of(variables);
    proof {
        assert(views(found@).len() == found@.len());
        assert(views(variables@).len() == variables@.len());
    }
    if found.len() == 0 || ignoring {
        return Ok(found);
    }
    Err(
        GroveError::usage(
            text("the environment redirects git: ").concat(join(&escape_all(&found), ", ").as_str()),
        ).with_detail(text("unset them, or pass --ignore-unsupported")),
    )
}

proof fn lemma_among(variables: Seq<Seq<u8>>, n: int, name: Seq<u8>)
    requires
        0 <= n <= variables.len(),
    ensures
        redirecting_among(variables, n).contains(name) <==> redirects(name) && exists|i: int|
            0 <= i < n && #[trigger] variables[i] == name,
    decreases n,
{
    if n > 0 {
        lemma_among(variables, n - 1, name);
        let before = redirecting_among(variables, n - 1);
        let last = variables[n - 1];
        if redirects(last) {
            assert(before.push(last)[before.len() as int] == last);
            assert forall|k: int| 0 <= k < before.len() implies before.push(last)[k] == before[k] by {}
            if before.contains(name) {
                let k = before.index_of(name);
                assert(before.push(last)[k] == name);
            }
        }
    }
}

/// What is reported as ignored is every variable that is set and leads Git elsewhere, and nothing
/// else.
pub proof fn every_redirection_is_reported(variables: Seq<Seq<u8>>, name: Seq<u8>)
    ensures
        redirecting_among(variables, variables.len() as int).contains(name) <==> redirects(name)
            && variables.contains(name),
{
    lemma_among(variables, variables.len() as int, name);
}

/// To ignore what is unsupported covers the environment and nothing else: a Git that is too old,
/// or whose version cannot be read, is refused all the same, with the same error.
pub proof fn consent_covers_the_environment_only(stdout: Seq<u8>, variables: Seq<Seq<u8>>)
    ensures
        gate_verdict(stdout, variables, true) is Ok <==> git_verdict(stdout) is Ok,
        git_verdict(stdout) is Err ==> gate_verdict(stdout, variables, true) == gate_verdict(
            stdout,
            variables,
            false,
        ),
        gate_verdict(stdout, variables, true) is Ok ==> gate_verdict(
            stdout,
            variables,
            true,
        )->Ok_0 == redirecting_among(variables, variables.len() as int),
{
}

} // verus!

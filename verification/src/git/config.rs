//! Remote and configuration plumbing shared by the commands that create or repair a grove's
//! remote.
//!
//! This is plumbing with no policy: it reads and writes configuration through a pinned file,
//! expands and checks fetch refspecs, and derives a remote's default branch.
use vstd::prelude::*;
use crate::bytes::{
    after, copied, find, has_byte, has_prefix, joined, lemma_find_bounds, lemma_views_push, lit,
    opt_view, position, prefixed, same, split, split_on, starts_with, strip_prefix, strip_suffix,
    trim_line_ends, views, without_line_ends, without_prefix, without_suffix, CARET, COLON, CR, LF,
    NUL, PLUS, SLASH, STAR,
};
use crate::error::{
    bytes_outcome, detailed, failure, failure_error, list_outcome, needs_decision, plain, ErrorView,
    GroveError, Result,
};
use crate::git::runner::{
    args3, args4, args5, args6, invoke, invoke_in, reply_of, step, GitOutput, GitRunner, Invocation, OutputView, Reply, Session,
};
use crate::path::{child, join_word};
use crate::text::{decimal, escape, escaped, status_number, text};

verus! {

broadcast use lemma_views_push;

pub type Outcome<T> = std::result::Result<T, ErrorView>;

/// The grove is not in the state a command left it in or expects.
pub open spec fn state_conflict_error(message: Seq<char>, detail: Seq<char>) -> ErrorView {
    detailed(needs_decision(message), detail)
}

/// The grove is not in the state a command left it in or expects.
pub fn state_conflict(message: &str, detail: String) -> (r: GroveError)
    ensures
        r@ == state_conflict_error(message@, detail@),
{
    GroveError::needs_decision(text(message)).with_detail(detail)
}

// ------------------------------------------------------------------ one child

pub open spec fn exit_failure(operation: Seq<char>, out: OutputView) -> ErrorView {
    detailed(
        failure("git "@ + operation + " failed with exit status "@ + decimal(out.status)),
        escape(out.stderr),
    )
}

/// An invocation that must succeed, described by `operation` when it does not.
pub open spec fn required_step(s: Session, i: crate::git::runner::InvocationView, operation: Seq<char>) -> (
    Session,
    Reply,
) {
    match step(s, i) {
        (s1, Err(e)) => (s1, Err(e)),
        (s1, Ok(out)) => if out.ok() {
            (s1, Ok(out))
        } else {
            (s1, Err(exit_failure(operation, out)))
        },
    }
}

/// The error of a child that had to succeed and did not.
pub fn exit_error(operation: &str, output: &GitOutput) -> (r: GroveError)
    ensures
        r@ == exit_failure(operation@, output@),
{
    GroveError::failure(
        text("git ").concat(operation).concat(" failed with exit status ").concat(
            status_number(output.status).as_str(),
        ),
    ).with_detail(escaped(output.stderr.as_slice()))
}

/// Runs a child that must succeed.
pub fn required<R: GitRunner + ?Sized>(
    runner: &mut R,
    invocation: Invocation,
    operation: &str,
) -> (r: Result<GitOutput>)
    ensures
        (final(runner).session(), reply_of(r)) == required_step(
            old(runner).session(),
            invocation@,
            operation@,
        ),
{
    let output = runner.run(invocation)?;
    if !output.ok() {
        return Err(exit_error(operation, &output));
    }
    Ok(output)
}

/// The one line that `bytes` holds.
pub open spec fn one_line_of(bytes: Seq<u8>, description: Seq<char>) -> Outcome<Seq<u8>> {
    let line = trim_line_ends(bytes);
    if line.len() == 0 || line.contains(LF) || line.contains(CR) {
        Err(failure("git returned an invalid "@ + description))
    } else {
        Ok(line)
    }
}

/// Takes the one line that `bytes` holds, without its line end.
pub fn trim_one_line(bytes: Vec<u8>, description: &str) -> (r: Result<Vec<u8>>)
    ensures
        bytes_outcome(r) == one_line_of(bytes@, description@),
{
    let line = without_line_ends(bytes);
    if line.len() == 0 || has_byte(line.as_slice(), LF) || has_byte(line.as_slice(), CR) {
        return Err(GroveError::failure(text("git returned an invalid ").concat(description)));
    }
    Ok(line)
}

/// `<prefix><name><suffix>`.
pub open spec fn key_of(prefix: &str, name: Seq<u8>, suffix: &str) -> Seq<u8> {
    lit(prefix) + name + lit(suffix)
}

/// A configuration key with a raw name in its middle.
pub fn config_key(prefix: &str, name: &[u8], suffix: &str) -> (r: Vec<u8>)
    ensures
        r@ == key_of(prefix, name@, suffix),
{
    let mut key = prefixed(prefix, name);
    key.extend_from_slice(suffix.as_bytes());
    key
}

// -------------------------------------------------------------- configuration

pub open spec fn get_all(config: Seq<u8>, key: Seq<u8>) -> crate::git::runner::InvocationView {
    invoke(
        args6(lit("config"), lit("--null"), lit("--file"), config, lit("--get-all"), key),
    )
}

/// The values that one answer to `config --get-all` carries.
pub open spec fn values_in(out: OutputView, key: Seq<u8>) -> Outcome<Seq<Seq<u8>>> {
    if out.status == 1 {
        Ok(seq![])
    } else if !out.ok() {
        Err(
            detailed(
                failure(
                    "git config --get-all "@ + escape(key) + " failed with exit status "@ + decimal(
                        out.status,
                    ),
                ),
                escape(out.stderr),
            ),
        )
    } else if out.stdout.len() == 0 || out.stdout.last() != NUL {
        Err(failure("git config returned a truncated NUL-delimited value"@))
    } else {
        Ok(split(out.stdout.drop_last(), NUL))
    }
}

/// Reading every value of a key. An absent key has no values.
pub open spec fn config_values_run(s: Session, config: Seq<u8>, key: Seq<u8>) -> (
    Session,
    Outcome<Seq<Seq<u8>>>,
) {
    match step(s, get_all(config, key)) {
        (s1, Err(e)) => (s1, Err(e)),
        (s1, Ok(out)) => (s1, values_in(out, key)),
    }
}

/// Reads every value of a key.
pub fn config_values<R: GitRunner + ?Sized>(runner: &mut R, config: &[u8], key: &[u8]) -> (r: Result<
    Vec<Vec<u8>>,
>)
    ensures
        (final(runner).session(), list_outcome(r)) == config_values_run(
            old(runner).session(),
            config@,
            key@,
        ),
{
    let output = runner.run(
        Invocation::new().word("config").word("--null").word("--file").arg(config).word(
            "--get-all",
        ).arg(key),
    )?;
    if output.status == 1 {
        let none: Vec<Vec<u8>> = Vec::new();
        proof {
            assert(views(none@) =~= seq![]);
        }
        return Ok(none);
    }
    if !output.ok() {
        return Err(
            GroveError::failure(
                text("git config --get-all ").concat(escaped(key).as_str()).concat(
                    " failed with exit status ",
                ).concat(status_number(output.status).as_str()),
            ).with_detail(escaped(output.stderr.as_slice())),
        );
    }
    let stdout = output.stdout;
    if stdout.len() == 0 || stdout[stdout.len() - 1] != NUL {
        return Err(failure_error("git config returned a truncated NUL-delimited value"));
    }
    let body = vstd::slice::slice_subrange(stdout.as_slice(), 0, stdout.len() - 1);
    proof {
        assert(body@ =~= stdout@.drop_last());
    }
    Ok(split_on(body, NUL))
}

pub open spec fn config_write(config: Seq<u8>, key: Seq<u8>, value: Seq<u8>, add: bool) -> crate::git::runner::InvocationView {
    if add {
        invoke(args6(lit("config"), lit("--file"), config, lit("--add"), key, value))
    } else {
        invoke(args5(lit("config"), lit("--file"), config, key, value))
    }
}

/// Writing one value of a key.
pub open spec fn set_config_run(
    s: Session,
    config: Seq<u8>,
    key: Seq<u8>,
    value: Seq<u8>,
    add: bool,
) -> (Session, Outcome<()>) {
    match required_step(s, config_write(config, key, value, add), "config write"@) {
        (s1, Err(e)) => (s1, Err(e)),
        (s1, Ok(_)) => (s1, Ok(())),
    }
}

/// Writes one value of a key, in place of the present one or beside it.
pub fn set_config<R: GitRunner + ?Sized>(
    runner: &mut R,
    config: &[u8],
    key: &[u8],
    value: &[u8],
    add: bool,
) -> (r: Result<()>)
    ensures
        (final(runner).session(), plain(r)) == set_config_run(
            old(runner).session(),
            config@,
            key@,
            value@,
            add,
        ),
{
    let mut invocation = Invocation::new().word("config").word("--file").arg(config);
    if add {
        invocation = invocation.word("--add");
    }
    invocation = invocation.arg(key).arg(value);
    required(runner, invocation, "config write")?;
    Ok(())
}

/// Clearing every value of a key. That the key has none is what this asks for.
pub open spec fn unset_all_run(s: Session, config: Seq<u8>, key: Seq<u8>) -> (Session, Outcome<()>) {
    match step(
        s,
        invoke(args5(lit("config"), lit("--file"), config, lit("--unset-all"), key)),
    ) {
        (s1, Err(e)) => (s1, Err(e)),
        (s1, Ok(out)) => if out.ok() || out.status == 5 {
            (s1, Ok(()))
        } else {
            (
                s1,
                Err(
                    detailed(
                        failure(
                            "cannot clear "@ + escape(key) + " in the grove configuration"@,
                        ),
                        escape(out.stderr),
                    ),
                ),
            )
        },
    }
}

/// Clears every value of a key.
pub fn unset_all<R: GitRunner + ?Sized>(runner: &mut R, config: &[u8], key: &[u8]) -> (r: Result<()>)
    ensures
        (final(runner).session(), plain(r)) == unset_all_run(
            old(runner).session(),
            config@,
            key@,
        ),
{
    let output = runner.run(
        Invocation::new().word("config").word("--file").arg(config).word("--unset-all").arg(key),
    )?;
    if output.ok() || output.status == 5 {
        Ok(())
    } else {
        Err(
            GroveError::failure(
                text("cannot clear ").concat(escaped(key).as_str()).concat(
                    " in the grove configuration",
                ),
            ).with_detail(escaped(output.stderr.as_slice())),
        )
    }
}

// --------------------------------------------------------------- local heads

/// The local branch refs that one listing names, as far as its first `n` lines go.
pub open spec fn heads_in(lines: Seq<Seq<u8>>, n: int) -> Outcome<Seq<Seq<u8>>>
    decreases n,
{
    if n <= 0 {
        Ok(seq![])
    } else {
        match heads_in(lines, n - 1) {
            Err(e) => Err(e),
            Ok(heads) => if lines[n - 1].len() == 0 {
                Ok(heads)
            } else if !starts_with(lines[n - 1], lit("refs/heads/")) || lines[n - 1].contains(CR) {
                Err(failure("git returned an invalid local branch ref"@))
            } else {
                Ok(heads.push(lines[n - 1]))
            },
        }
    }
}

proof fn lemma_heads_error(lines: Seq<Seq<u8>>, n: int, m: int)
    requires
        n <= m,
        heads_in(lines, n) is Err,
    ensures
        heads_in(lines, m) == heads_in(lines, n),
    decreases m - n,
{
    if n < m {
        lemma_heads_error(lines, n, m - 1);
    }
}

/// Every accepted head is a local branch ref.
pub proof fn listed_heads_are_local_branches(lines: Seq<Seq<u8>>, n: int)
    requires
        heads_in(lines, n) is Ok,
    ensures
        forall|i: int|
            0 <= i < heads_in(lines, n)->Ok_0.len() ==> starts_with(
                #[trigger] heads_in(lines, n)->Ok_0[i],
                lit("refs/heads/"),
            ),
    decreases n,
{
    if n > 0 {
        listed_heads_are_local_branches(lines, n - 1);
    }
}

pub open spec fn local_heads_run(s: Session, bare: Seq<u8>) -> (Session, Outcome<Seq<Seq<u8>>>) {
    match required_step(
        s,
        invoke_in(
            bare,
            args4(lit("for-each-ref"), lit("--format=%(refname)"), lit("--"), lit("refs/heads")),
        ),
        "for-each-ref local heads"@,
    ) {
        (s1, Err(e)) => (s1, Err(e)),
        (s1, Ok(out)) => {
            let lines = split(out.stdout, LF);
            (s1, heads_in(lines, lines.len() as int))
        },
    }
}

/// Lists every local branch ref, in Git's order.
pub fn list_local_heads<R: GitRunner + ?Sized>(runner: &mut R, bare: &[u8]) -> (r: Result<
    Vec<Vec<u8>>,
>)
    ensures
        (final(runner).session(), list_outcome(r)) == local_heads_run(
            old(runner).session(),
            bare@,
        ),
        r is Ok ==> forall|i: int|
            0 <= i < r->Ok_0@.len() ==> starts_with((#[trigger] r->Ok_0@[i])@, lit("refs/heads/")),
{
    let output = required(
        runner,
        Invocation::new().git_dir(bare).word("for-each-ref").word("--format=%(refname)").word(
            "--",
        ).word("refs/heads"),
        "for-each-ref local heads",
    )?;
    let lines = split_on(output.stdout.as_slice(), LF);
    let ghost all = views(lines@);
    let mut heads: Vec<Vec<u8>> = Vec::new();
    let mut i: usize = 0;
    proof {
        assert(views(heads@) =~= seq![]);
        assert(all.len() == lines@.len());
    }
    while i < lines.len()
        invariant
            i <= lines.len(),
            all == views(lines@),
            all.len() == lines@.len(),
            heads_in(all, i as int) == Ok::<Seq<Seq<u8>>, ErrorView>(views(heads@)),
            forall|j: int|
                0 <= j < heads@.len() ==> starts_with((#[trigger] heads@[j])@, lit("refs/heads/")),
            local_heads_run(old(runner).session(), bare@) == (
                runner.session(),
                heads_in(all, all.len() as int),
            ),
        decreases lines.len() - i,
    {
        let line = lines[i].as_slice();
        proof {
            assert(all[i as int] == line@);
        }
        if line.len() > 0 {
            if !has_prefix(line, "refs/heads/".as_bytes()) || has_byte(line, CR) {
                proof {
                    lemma_heads_error(all, i + 1, all.len() as int);
                }
                return Err(failure_error("git returned an invalid local branch ref"));
            }
            heads.push(copied(line));
        }
        i = i + 1;
    }
    Ok(heads)
}

// ------------------------------------------------------------------- refspecs

/// A refspec without its leading plus sign.
pub open spec fn unforced(spec: Seq<u8>) -> Seq<u8> {
    if starts_with(spec, seq![PLUS]) {
        after(spec, 1)
    } else {
        spec
    }
}

/// Whether a byte occurs at most once.
pub open spec fn at_most_one(s: Seq<u8>, b: u8) -> bool {
    find(s, b) >= s.len() || !after(s, find(s, b) + 1).contains(b)
}

/// What a pattern with one star leaves of `value` where the star stands.
pub open spec fn star_match(pattern: Seq<u8>, value: Seq<u8>) -> Option<Seq<u8>> {
    let star = find(pattern, STAR);
    match without_prefix(value, pattern.subrange(0, star)) {
        None => None,
        Some(rest) => without_suffix(rest, after(pattern, star + 1)),
    }
}

/// `pattern` with its first star replaced.
pub open spec fn star_filled(pattern: Seq<u8>, fill: Seq<u8>) -> Seq<u8> {
    let star = find(pattern, STAR);
    pattern.subrange(0, star) + fill + after(pattern, star + 1)
}

/// Where a fetch refspec puts a source ref, if it covers it.
pub open spec fn destination_of(spec: Seq<u8>, source: Seq<u8>) -> Option<Seq<u8>> {
    let s = unforced(spec);
    let colon = find(s, COLON);
    if starts_with(s, seq![CARET]) || colon >= s.len() {
        None
    } else {
        let from = s.subrange(0, colon);
        let to = after(s, colon + 1);
        if !from.contains(STAR) && !to.contains(STAR) {
            if from == source {
                Some(to)
            } else {
                None
            }
        } else if from.contains(STAR) && to.contains(STAR) && at_most_one(from, STAR)
            && at_most_one(to, STAR) {
            match star_match(from, source) {
                None => None,
                Some(matched) => Some(star_filled(to, matched)),
            }
        } else {
            None
        }
    }
}

proof fn lemma_found_iff_contained(s: Seq<u8>, b: u8)
    ensures
        (find(s, b) < s.len()) == s.contains(b),
        0 <= find(s, b) <= s.len(),
{
    lemma_find_bounds(s, b, 0);
    if s.contains(b) {
        let j = choose|j: int| 0 <= j < s.len() && s[j] == b;
        assert(s[j] == b);
    }
}

/// Where a fetch refspec puts a source ref, if it covers it.
pub fn refspec_destination(spec: &[u8], source: &[u8]) -> (r: Option<Vec<u8>>)
    ensures
        opt_view(r) == destination_of(spec@, source@),
{
    let s: &[u8] = if spec.len() > 0 && spec[0] == PLUS {
        vstd::slice::slice_subrange(spec, 1, spec.len())
    } else {
        spec
    };
    proof {
        if spec@.len() > 0 {
            assert(spec@.subrange(0, 1) =~= seq![spec@[0]]);
            assert((spec@[0] == PLUS) == (seq![spec@[0]] =~= seq![PLUS])) by {
                if seq![spec@[0]] =~= seq![PLUS] {
                    assert(seq![spec@[0]][0] == seq![PLUS][0]);
                }
            }
        }
        assert(s@ == unforced(spec@));
        if s@.len() > 0 {
            assert(s@.subrange(0, 1) =~= seq![s@[0]]);
            assert((s@[0] == CARET) == (seq![s@[0]] =~= seq![CARET])) by {
                if seq![s@[0]] =~= seq![CARET] {
                    assert(seq![s@[0]][0] == seq![CARET][0]);
                }
            }
        }
    }
    if s.len() > 0 && s[0] == CARET {
        return None;
    }
    let colon = position(s, COLON);
    if colon == s.len() {
        return None;
    }
    let from = vstd::slice::slice_subrange(s, 0, colon);
    let to = vstd::slice::slice_subrange(s, colon + 1, s.len());
    let from_star = position(from, STAR);
    let to_star = position(to, STAR);
    proof {
        lemma_found_iff_contained(from@, STAR);
        lemma_found_iff_contained(to@, STAR);
    }
    if from_star == from.len() && to_star == to.len() {
        if same(from, source) {
            return Some(copied(to));
        }
        return None;
    }
    if from_star == from.len() || to_star == to.len() {
        return None;
    }
    let from_rest = vstd::slice::slice_subrange(from, from_star + 1, from.len());
    let to_rest = vstd::slice::slice_subrange(to, to_star + 1, to.len());
    if has_byte(from_rest, STAR) || has_byte(to_rest, STAR) {
        return None;
    }
    let rest = match strip_prefix(source, vstd::slice::slice_subrange(from, 0, from_star)) {
        None => return None,
        Some(rest) => rest,
    };
    let matched = match strip_suffix(rest, from_rest) {
        None => return None,
        Some(matched) => matched,
    };
    let mut destination = joined(vstd::slice::slice_subrange(to, 0, to_star), matched);
    destination.extend_from_slice(to_rest);
    Some(destination)
}

/// The namespace of one remote's tracking refs.
pub open spec fn remote_namespace(remote: Seq<u8>) -> Seq<u8> {
    (lit("refs/remotes/") + remote).push(SLASH)
}

pub fn remote_prefix(remote: &[u8]) -> (r: Vec<u8>)
    ensures
        r@ == remote_namespace(remote@),
{
    let mut prefix = prefixed("refs/remotes/", remote);
    prefix.push(SLASH);
    prefix
}

/// What is wrong with where one refspec points, if anything.
pub open spec fn refspec_fault(refspec: Seq<u8>, remote: Seq<u8>) -> Option<ErrorView> {
    let colon = find(refspec, COLON);
    if colon >= refspec.len() {
        Some(
            state_conflict_error("the clone wrote an invalid fetch refspec"@, escape(refspec)),
        )
    } else {
        let destination = after(refspec, colon + 1);
        if !starts_with(destination, remote_namespace(remote)) || destination == remote_namespace(
            remote,
        ) {
            Some(
                state_conflict_error(
                    "the clone wrote a fetch refspec outside the grove remote namespace"@,
                    escape(refspec),
                ),
            )
        } else {
            None
        }
    }
}

/// What is wrong with the first faulty refspec, if any is.
pub open spec fn first_fault(refspecs: Seq<Seq<u8>>, remote: Seq<u8>, from: int) -> Option<ErrorView>
    decreases refspecs.len() - from,
{
    if from >= refspecs.len() {
        None
    } else {
        match refspec_fault(refspecs[from], remote) {
            Some(e) => Some(e),
            None => first_fault(refspecs, remote, from + 1),
        }
    }
}

pub open spec fn destinations_checked(refspecs: Seq<Seq<u8>>, remote: Seq<u8>) -> Outcome<()> {
    match first_fault(refspecs, remote, 0) {
        Some(e) => Err(e),
        None => Ok(()),
    }
}

/// Refspecs that pass put every ref strictly inside the remote's namespace.
pub proof fn accepted_refspecs_stay_in_the_namespace(refspecs: Seq<Seq<u8>>, remote: Seq<u8>, i: int)
    requires
        destinations_checked(refspecs, remote) is Ok,
        0 <= i < refspecs.len(),
    ensures
        find(refspecs[i], COLON) < refspecs[i].len(),
        starts_with(
            after(refspecs[i], find(refspecs[i], COLON) + 1),
            remote_namespace(remote),
        ),
        after(refspecs[i], find(refspecs[i], COLON) + 1) != remote_namespace(remote),
{
    lemma_no_fault_after(refspecs, remote, 0, i);
}

proof fn lemma_no_fault_after(refspecs: Seq<Seq<u8>>, remote: Seq<u8>, from: int, i: int)
    requires
        first_fault(refspecs, remote, from) is None,
        0 <= from <= i < refspecs.len(),
    ensures
        refspec_fault(refspecs[i], remote) is None,
    decreases i - from,
{
    if from < i {
        lemma_no_fault_after(refspecs, remote, from + 1, i);
    }
}

/// Checks that every refspec points inside the remote's namespace.
pub fn validate_refspec_destinations(refspecs: &Vec<Vec<u8>>, remote: &[u8]) -> (r: Result<()>)
    ensures
        plain(r) == destinations_checked(views(refspecs@), remote@),
{
    let prefix = remote_prefix(remote);
    let mut i: usize = 0;
    while i < refspecs.len()
        invariant
            i <= refspecs.len(),
            prefix@ == remote_namespace(remote@),
            first_fault(views(refspecs@), remote@, 0) == first_fault(
                views(refspecs@),
                remote@,
                i as int,
            ),
        decreases refspecs.len() - i,
    {
        let refspec = refspecs[i].as_slice();
        proof {
            assert(views(refspecs@)[i as int] == refspec@);
        }
        let colon = position(refspec, COLON);
        if colon == refspec.len() {
            return Err(
                state_conflict("the clone wrote an invalid fetch refspec", escaped(refspec)),
            );
        }
        let destination = vstd::slice::slice_subrange(refspec, colon + 1, refspec.len());
        if !has_prefix(destination, prefix.as_slice()) || same(destination, prefix.as_slice()) {
            return Err(
                state_conflict(
                    "the clone wrote a fetch refspec outside the grove remote namespace",
                    escaped(refspec),
                ),
            );
        }
        i = i + 1;
    }
    Ok(())
}

// ------------------------------------------------------------------ upstreams

/// The destinations that the first `n` refspecs give a source ref.
pub open spec fn destinations(refspecs: Seq<Seq<u8>>, source: Seq<u8>, n: int) -> Seq<Seq<u8>>
    decreases n,
{
    if n <= 0 {
        seq![]
    } else {
        match destination_of(refspecs[n - 1], source) {
            Some(d) => destinations(refspecs, source, n - 1).push(d),
            None => destinations(refspecs, source, n - 1),
        }
    }
}

pub open spec fn show_ref_quietly(bare: Seq<u8>, reference: Seq<u8>) -> crate::git::runner::InvocationView {
    invoke_in(bare, args4(lit("show-ref"), lit("--verify"), lit("--quiet"), reference))
}

/// Writing and reading back one branch's upstream.
pub open spec fn write_upstream(s: Session, config: Seq<u8>, remote: Seq<u8>, local: Seq<u8>) -> (
    Session,
    Outcome<()>,
) {
    let branch = after(local, lit("refs/heads/").len() as int);
    let remote_key = key_of("branch.", branch, ".remote");
    let merge_key = key_of("branch.", branch, ".merge");
    match set_config_run(s, config, remote_key, remote, false) {
        (s1, Err(e)) => (s1, Err(e)),
        (s1, Ok(_)) => match set_config_run(s1, config, merge_key, local, false) {
            (s2, Err(e)) => (s2, Err(e)),
            (s2, Ok(_)) => match config_values_run(s2, config, remote_key) {
                (s3, Err(e)) => (s3, Err(e)),
                (s3, Ok(remotes)) => if remotes != seq![remote] {
                    (s3, Err(failure("upstream configuration verification failed"@)))
                } else {
                    match config_values_run(s3, config, merge_key) {
                        (s4, Err(e)) => (s4, Err(e)),
                        (s4, Ok(merges)) => if merges != seq![local] {
                            (s4, Err(failure("upstream configuration verification failed"@)))
                        } else {
                            (s4, Ok(()))
                        },
                    }
                },
            },
        },
    }
}

/// Configuring the upstream of one local branch, when its tracking ref exists.
pub open spec fn one_upstream(
    s: Session,
    bare: Seq<u8>,
    remote: Seq<u8>,
    refspecs: Seq<Seq<u8>>,
    local: Seq<u8>,
) -> (Session, Outcome<()>) {
    let candidates = destinations(refspecs, local, refspecs.len() as int);
    if candidates.len() == 0 {
        (s, Ok(()))
    } else if exists|i: int| 0 <= i < candidates.len() && #[trigger] candidates[i] != candidates[0] {
        (
            s,
            Err(
                state_conflict_error(
                    "fetch refspecs map a branch to several destinations"@,
                    escape(local),
                ),
            ),
        )
    } else {
        match step(s, show_ref_quietly(bare, candidates[0])) {
            (s1, Err(e)) => (s1, Err(e)),
            (s1, Ok(out)) => if out.status == 0 {
                write_upstream(s1, child(bare, lit("config")), remote, local)
            } else if out.status == 1 {
                (s1, Ok(()))
            } else {
                (
                    s1,
                    Err(
                        detailed(
                            failure("git show-ref failed while configuring upstreams"@),
                            escape(out.stderr),
                        ),
                    ),
                )
            },
        }
    }
}

/// Configuring the upstreams of the heads from position `i` on.
pub open spec fn upstreams_from(
    s: Session,
    bare: Seq<u8>,
    remote: Seq<u8>,
    refspecs: Seq<Seq<u8>>,
    heads: Seq<Seq<u8>>,
    i: int,
) -> (Session, Outcome<()>)
    decreases heads.len() - i,
{
    if i >= heads.len() {
        (s, Ok(()))
    } else {
        match one_upstream(s, bare, remote, refspecs, heads[i]) {
            (s1, Err(e)) => (s1, Err(e)),
            (s1, Ok(_)) => upstreams_from(s1, bare, remote, refspecs, heads, i + 1),
        }
    }
}

pub open spec fn upstreams_run(
    s: Session,
    bare: Seq<u8>,
    remote: Seq<u8>,
    refspecs: Seq<Seq<u8>>,
) -> (Session, Outcome<()>) {
    match local_heads_run(s, bare) {
        (s1, Err(e)) => (s1, Err(e)),
        (s1, Ok(heads)) => upstreams_from(s1, bare, remote, refspecs, heads, 0),
    }
}

/// Whether a list holds exactly one given value.
pub fn is_only(list: &Vec<Vec<u8>>, value: &[u8]) -> (r: bool)
    ensures
        r == (views(list@) == seq![value@]),
{
    proof {
        assert(views(list@).len() == list@.len());
        assert(seq![value@][0] == value@);
        if list@.len() == 1 {
            assert(views(list@)[0] == list@[0]@);
            if list@[0]@ == value@ {
                assert(views(list@) =~= seq![value@]);
            }
        }
    }
    list.len() == 1 && same(list[0].as_slice(), value)
}

fn all_destinations(refspecs: &Vec<Vec<u8>>, source: &[u8]) -> (r: Vec<Vec<u8>>)
    ensures
        views(r@) == destinations(views(refspecs@), source@, refspecs@.len() as int),
{
    let mut out: Vec<Vec<u8>> = Vec::new();
    let mut i: usize = 0;
    proof {
        assert(views(out@) =~= seq![]);
    }
    while i < refspecs.len()
        invariant
            i <= refspecs.len(),
            views(out@) == destinations(views(refspecs@), source@, i as int),
        decreases refspecs.len() - i,
    {
        proof {
            assert(views(refspecs@)[i as int] == refspecs@[i as int]@);
        }
        match refspec_destination(refspecs[i].as_slice(), source) {
            Some(d) => {
                out.push(d);
            },
            None => {},
        }
        i = i + 1;
    }
    out
}

fn configure_upstream<R: GitRunner + ?Sized>(
    runner: &mut R,
    bare: &[u8],
    remote: &[u8],
    refspecs: &Vec<Vec<u8>>,
    local: &[u8],
) -> (r: Result<()>)
    requires
        starts_with(local@, lit("refs/heads/")),
    ensures
        (final(runner).session(), plain(r)) == one_upstream(
            old(runner).session(),
            bare@,
            remote@,
            views(refspecs@),
            local@,
        ),
{
    let candidates = all_destinations(refspecs, local);
    let ghost all = views(candidates@);
    proof {
        assert(views(refspecs@).len() == refspecs@.len());
        assert(all.len() == candidates@.len());
    }
    if candidates.len() == 0 {
        return Ok(());
    }
    proof {
        assert(all[0] == candidates@[0]@);
    }
    let mut i: usize = 1;
    while i < candidates.len()
        invariant
            1 <= i <= candidates.len(),
            all == views(candidates@),
            all == destinations(views(refspecs@), local@, views(refspecs@).len() as int),
            all.len() == candidates@.len(),
            all[0] == candidates@[0]@,
            runner.session() == old(runner).session(),
            forall|j: int| 0 <= j < i ==> #[trigger] all[j] == all[0],
        decreases candidates.len() - i,
    {
        proof {
            assert(all[i as int] == candidates@[i as int]@);
        }
        if !same(candidates[i].as_slice(), candidates[0].as_slice()) {
            return Err(
                state_conflict(
                    "fetch refspecs map a branch to several destinations",
                    escaped(local),
                ),
            );
        }
        i = i + 1;
    }
    let exists_reply = runner.run(
        Invocation::new().git_dir(bare).word("show-ref").word("--verify").word("--quiet").arg(
            candidates[0].as_slice(),
        ),
    )?;
    if exists_reply.status == 1 {
        return Ok(());
    }
    if exists_reply.status != 0 {
        return Err(
            failure_error("git show-ref failed while configuring upstreams").with_detail(
                escaped(exists_reply.stderr.as_slice()),
            ),
        );
    }
    let config = join_word(bare, "config");
    let branch = vstd::slice::slice_subrange(
        local,
        "refs/heads/".as_bytes().len(),
        local.len(),
    );
    let remote_key = config_key("branch.", branch, ".remote");
    let merge_key = config_key("branch.", branch, ".merge");
    set_config(runner, config.as_slice(), remote_key.as_slice(), remote, false)?;
    set_config(runner, config.as_slice(), merge_key.as_slice(), local, false)?;
    let remotes = config_values(runner, config.as_slice(), remote_key.as_slice())?;
    if !is_only(&remotes, remote) {
        return Err(failure_error("upstream configuration verification failed"));
    }
    let merges = config_values(runner, config.as_slice(), merge_key.as_slice())?;
    if !is_only(&merges, local) {
        return Err(failure_error("upstream configuration verification failed"));
    }
    Ok(())
}

/// Gives every local branch whose tracking ref exists its upstream, and reads each one back.
pub fn configure_upstreams<R: GitRunner + ?Sized>(
    runner: &mut R,
    bare: &[u8],
    remote: &[u8],
    refspecs: &Vec<Vec<u8>>,
) -> (r: Result<()>)
    ensures
        (final(runner).session(), plain(r)) == upstreams_run(
            old(runner).session(),
            bare@,
            remote@,
            views(refspecs@),
        ),
{
    let heads = list_local_heads(runner, bare)?;
    let mut i: usize = 0;
    proof {
        assert(views(heads@).len() == heads@.len());
    }
    while i < heads.len()
        invariant
            i <= heads.len(),
            views(heads@).len() == heads@.len(),
            forall|j: int|
                0 <= j < heads@.len() ==> starts_with((#[trigger] heads@[j])@, lit("refs/heads/")),
            upstreams_run(old(runner).session(), bare@, remote@, views(refspecs@))
                == upstreams_from(
                runner.session(),
                bare@,
                remote@,
                views(refspecs@),
                views(heads@),
                i as int,
            ),
        decreases heads.len() - i,
    {
        proof {
            assert(views(heads@)[i as int] == heads@[i as int]@);
        }
        configure_upstream(runner, bare, remote, refspecs, heads[i].as_slice())?;
        i = i + 1;
    }
    Ok(())
}

// ---------------------------------------------------------------- remote HEAD

/// Reading where `refs/remotes/<remote>/HEAD` points.
pub open spec fn remote_head_target(s: Session, bare: Seq<u8>, remote: Seq<u8>) -> (
    Session,
    Outcome<Seq<u8>>,
) {
    match required_step(
        s,
        invoke_in(
            bare,
            args3(lit("symbolic-ref"), lit("--quiet"), lit("refs/remotes/") + remote + lit("/HEAD")),
        ),
        "symbolic-ref remote HEAD"@,
    ) {
        (s1, Err(e)) => (s1, Err(e)),
        (s1, Ok(out)) => (s1, one_line_of(out.stdout, "remote HEAD"@)),
    }
}

/// The branch that a remote HEAD's target names.
pub open spec fn named_branch(target: Seq<u8>, remote: Seq<u8>) -> Outcome<Seq<u8>> {
    match without_prefix(target, remote_namespace(remote)) {
        None => Err(
            state_conflict_error(
                "the remote HEAD points outside its remote namespace"@,
                escape(target),
            ),
        ),
        Some(branch) => if branch.len() == 0 || branch == lit("HEAD") {
            Err(
                state_conflict_error(
                    "the remote HEAD does not name a branch"@,
                    escape(target),
                ),
            )
        } else {
            Ok(branch)
        },
    }
}

/// Reading the object that the target ref itself holds.
pub open spec fn target_object(s: Session, bare: Seq<u8>, target: Seq<u8>) -> (
    Session,
    Outcome<Seq<u8>>,
) {
    match step(
        s,
        invoke_in(
            bare,
            args5(lit("show-ref"), lit("--verify"), lit("--hash"), lit("--"), target),
        ),
    ) {
        (s1, Err(e)) => (s1, Err(e)),
        (s1, Ok(out)) => if out.status == 1 {
            (
                s1,
                Err(
                    failure(
                        "remote HEAD target "@ + escape(target) + " does not exist"@,
                    ),
                ),
            )
        } else if !out.ok() {
            (
                s1,
                Err(
                    detailed(
                        failure(
                            "git show-ref failed while verifying remote HEAD target "@ + escape(
                                target,
                            ),
                        ),
                        escape(out.stderr),
                    ),
                ),
            )
        } else {
            (s1, one_line_of(out.stdout, "remote HEAD target object ID"@))
        },
    }
}

/// Reading the commit that the target resolves to.
pub open spec fn target_commit(s: Session, bare: Seq<u8>, target: Seq<u8>) -> (
    Session,
    Outcome<Seq<u8>>,
) {
    match required_step(
        s,
        invoke_in(
            bare,
            args4(lit("rev-parse"), lit("--verify"), lit("--end-of-options"), target + lit("^{commit}")),
        ),
        "rev-parse remote HEAD target"@,
    ) {
        (s1, Err(e)) => (s1, Err(e)),
        (s1, Ok(out)) => (s1, one_line_of(out.stdout, "resolved remote HEAD target object ID"@)),
    }
}

/// Finding the branch a remote HEAD names: it must lie in the remote's namespace, exist, and
/// resolve to the very object it holds.
pub open spec fn remote_head_run(s: Session, bare: Seq<u8>, remote: Seq<u8>) -> (
    Session,
    Outcome<Seq<u8>>,
) {
    match remote_head_target(s, bare, remote) {
        (s1, Err(e)) => (s1, Err(e)),
        (s1, Ok(target)) => match named_branch(target, remote) {
            Err(e) => (s1, Err(e)),
            Ok(branch) => match target_object(s1, bare, target) {
                (s2, Err(e)) => (s2, Err(e)),
                (s2, Ok(held)) => match target_commit(s2, bare, target) {
                    (s3, Err(e)) => (s3, Err(e)),
                    (s3, Ok(resolved)) => if resolved != held {
                        (
                            s3,
                            Err(
                                detailed(
                                    failure(
                                        "remote HEAD target "@ + escape(target)
                                            + " resolved to an unexpected object"@,
                                    ),
                                    "expected "@ + escape(held) + ", found "@ + escape(resolved),
                                ),
                            ),
                        )
                    } else {
                        (s3, Ok(branch))
                    },
                },
            },
        },
    }
}

/// The branch that a remote's HEAD names.
pub fn remote_head_branch<R: GitRunner + ?Sized>(runner: &mut R, bare: &[u8], remote: &[u8]) -> (r:
    Result<Vec<u8>>)
    ensures
        (final(runner).session(), bytes_outcome(r)) == remote_head_run(
            old(runner).session(),
            bare@,
            remote@,
        ),
{
    let head = joined(prefixed("refs/remotes/", remote).as_slice(), "/HEAD".as_bytes());
    let output = required(
        runner,
        Invocation::new().git_dir(bare).word("symbolic-ref").word("--quiet").arg(head.as_slice()),
        "symbolic-ref remote HEAD",
    )?;
    let target = trim_one_line(output.stdout, "remote HEAD")?;
    let prefix = remote_prefix(remote);
    let branch = match strip_prefix(target.as_slice(), prefix.as_slice()) {
        None => return Err(
            state_conflict(
                "the remote HEAD points outside its remote namespace",
                escaped(target.as_slice()),
            ),
        ),
        Some(branch) => copied(branch),
    };
    if branch.len() == 0 || same(branch.as_slice(), "HEAD".as_bytes()) {
        return Err(
            state_conflict(
                "the remote HEAD does not name a branch",
                escaped(target.as_slice()),
            ),
        );
    }
    let exact = runner.run(
        Invocation::new().git_dir(bare).word("show-ref").word("--verify").word("--hash").word(
            "--",
        ).arg(target.as_slice()),
    )?;
    if exact.status == 1 {
        return Err(
            GroveError::failure(
                text("remote HEAD target ").concat(escaped(target.as_slice()).as_str()).concat(
                    " does not exist",
                ),
            ),
        );
    }
    if !exact.ok() {
        return Err(
            GroveError::failure(
                text("git show-ref failed while verifying remote HEAD target ").concat(
                    escaped(target.as_slice()).as_str(),
                ),
            ).with_detail(escaped(exact.stderr.as_slice())),
        );
    }
    let expected_oid = trim_one_line(exact.stdout, "remote HEAD target object ID")?;
    let commit = joined(target.as_slice(), "^{commit}".as_bytes());
    let resolved = required(
        runner,
        Invocation::new().git_dir(bare).word("rev-parse").word("--verify").word(
            "--end-of-options",
        ).arg(commit.as_slice()),
        "rev-parse remote HEAD target",
    )?;
    let resolved_oid = trim_one_line(resolved.stdout, "resolved remote HEAD target object ID")?;
    if !same(resolved_oid.as_slice(), expected_oid.as_slice()) {
        return Err(
            GroveError::failure(
                text("remote HEAD target ").concat(escaped(target.as_slice()).as_str()).concat(
                    " resolved to an unexpected object",
                ),
            ).with_detail(
                text("expected ").concat(escaped(expected_oid.as_slice()).as_str()).concat(
                    ", found ",
                ).concat(escaped(resolved_oid.as_slice()).as_str()),
            ),
        );
    }
    Ok(branch)
}

} // verus!

//! Read-only questions to Git about branches, remotes and worktrees.
use vstd::prelude::*;
use crate::bytes::{
    after, copied, copied_list, ends_with, find, has_byte, has_suffix, joined, lemma_find_bounds,
    lemma_views_push, lit, opt_view, position, prefixed, same, split, split_on, strip_prefix,
    strip_suffix, views, without_prefix, CARET, COLON, CR, DASH, LF, NUL, PLUS, STAR,
};
use crate::error::{failure, failure_error, list_outcome, plain, usage, GroveError, Result};
use crate::git::config::{
    at_most_one, exit_error, exit_failure, key_of, config_key, show_ref_quietly, star_filled,
    star_match, unforced, Outcome,
};
use crate::git::runner::{
    args1, args3, args4, invoke, invoke_in, step, GitRunner, Invocation, InvocationView, OutputView,
    Session,
};
use crate::grove::discover::{bare_of, Grove};
use crate::order::{sort_unique, sorted_set};
use crate::text::{escape, escaped, text};

verus! {

broadcast use lemma_views_push;

pub open spec fn branch_ref_of(branch: Seq<u8>) -> Seq<u8> {
    lit("refs/heads/") + branch
}

/// `refs/heads/<branch>`.
pub fn branch_ref(branch: &[u8]) -> (r: Vec<u8>)
    ensures
        r@ == branch_ref_of(branch@),
{
    prefixed("refs/heads/", branch)
}

/// Whether the first byte of `s` is `b`.
pub open spec fn leads_with(s: Seq<u8>, b: u8) -> bool {
    s.len() > 0 && s[0] == b
}

// ------------------------------------------------------------------- branches

pub open spec fn branch_name_run(s: Session, branch: Seq<u8>) -> (Session, Outcome<()>) {
    if leads_with(branch, DASH) {
        (
            s,
            Err(
                usage(
                    "branch name "@ + escape(branch) + " must not start with a dash"@,
                ),
            ),
        )
    } else {
        match step(s, invoke(args3(lit("check-ref-format"), lit("--branch"), branch))) {
            (s1, Err(e)) => (s1, Err(e)),
            (s1, Ok(out)) => if out.ok() {
                (s1, Ok(()))
            } else {
                (s1, Err(usage(escape(branch) + " is not a valid short branch name"@)))
            },
        }
    }
}

/// Checks that Git accepts a short branch name.
pub fn validate_branch_name<R: GitRunner + ?Sized>(runner: &mut R, branch: &[u8]) -> (r: Result<()>)
    ensures
        (final(runner).session(), plain(r)) == branch_name_run(old(runner).session(), branch@),
{
    if branch.len() > 0 && branch[0] == DASH {
        return Err(
            GroveError::usage(
                text("branch name ").concat(escaped(branch).as_str()).concat(
                    " must not start with a dash",
                ),
            ),
        );
    }
    let output = runner.run(
        Invocation::new().word("check-ref-format").word("--branch").arg(branch),
    )?;
    if output.ok() {
        Ok(())
    } else {
        Err(
            GroveError::usage(
                escaped(branch).concat(" is not a valid short branch name"),
            ),
        )
    }
}

/// Whether a ref exists, by the exit status that says so. Any other status is a failure.
pub open spec fn presence(out: OutputView, operation: Seq<char>) -> Outcome<bool> {
    if out.status == 0 {
        Ok(true)
    } else if out.status == 1 {
        Ok(false)
    } else {
        Err(exit_failure(operation, out))
    }
}

pub open spec fn local_branch_run(s: Session, root: Seq<u8>, branch: Seq<u8>) -> (
    Session,
    Outcome<bool>,
) {
    match step(s, show_ref_quietly(bare_of(root), branch_ref_of(branch))) {
        (s1, Err(e)) => (s1, Err(e)),
        (s1, Ok(out)) => (s1, presence(out, "show-ref --verify"@)),
    }
}

/// Whether a local branch exists.
pub fn local_branch_exists<R: GitRunner + ?Sized>(
    runner: &mut R,
    grove: &Grove,
    branch: &[u8],
) -> (r: Result<bool>)
    ensures
        (final(runner).session(), plain(r)) == local_branch_run(
            old(runner).session(),
            grove.root@,
            branch@,
        ),
{
    let reference = branch_ref(branch);
    let output = runner.run(
        Invocation::new().git_dir(grove.bare_dir().as_slice()).word("show-ref").word(
            "--verify",
        ).word("--quiet").arg(reference.as_slice()),
    )?;
    if output.status == 0 {
        Ok(true)
    } else if output.status == 1 {
        Ok(false)
    } else {
        Err(exit_error("show-ref --verify", &output))
    }
}

pub open spec fn any_commit_run(s: Session, root: Seq<u8>) -> (Session, Outcome<bool>) {
    match step(
        s,
        invoke_in(
            bare_of(root),
            args4(
                lit("for-each-ref"),
                lit("--count=1"),
                lit("--format=%(refname)"),
                lit("refs/heads"),
            ),
        ),
    ) {
        (s1, Err(e)) => (s1, Err(e)),
        (s1, Ok(out)) => if out.ok() {
            (s1, Ok(out.stdout.len() > 0))
        } else {
            (s1, Err(exit_failure("for-each-ref"@, out)))
        },
    }
}

/// Whether the repository has a commit on any local branch.
pub fn has_any_commit<R: GitRunner + ?Sized>(runner: &mut R, grove: &Grove) -> (r: Result<bool>)
    ensures
        (final(runner).session(), plain(r)) == any_commit_run(
            old(runner).session(),
            grove.root@,
        ),
{
    let output = runner.run(
        Invocation::new().git_dir(grove.bare_dir().as_slice()).word("for-each-ref").word(
            "--count=1",
        ).word("--format=%(refname)").word("refs/heads"),
    )?;
    if !output.ok() {
        return Err(exit_error("for-each-ref", &output));
    }
    Ok(output.stdout.len() > 0)
}

// --------------------------------------------------------- checked-out branch

pub open spec fn worktree_list(bare: Seq<u8>) -> InvocationView {
    invoke_in(bare, args4(lit("worktree"), lit("list"), lit("--porcelain"), lit("-z")))
}

/// Where the fields from `i` on say that `reference` is checked out. `path` is the worktree
/// that the current record names.
pub open spec fn checkout_from(
    fields: Seq<Seq<u8>>,
    reference: Seq<u8>,
    path: Option<Seq<u8>>,
    i: int,
) -> Outcome<Option<Seq<u8>>>
    decreases fields.len() - i,
{
    if i >= fields.len() {
        Ok(None)
    } else if fields[i].len() == 0 {
        checkout_from(fields, reference, None, i + 1)
    } else {
        match without_prefix(fields[i], lit("worktree ")) {
            Some(value) => checkout_from(fields, reference, Some(value), i + 1),
            None => if without_prefix(fields[i], lit("branch ")) == Some(reference) {
                match path {
                    Some(p) => Ok(Some(p)),
                    None => Err(failure("git returned a branch before its worktree path"@)),
                }
            } else {
                checkout_from(fields, reference, path, i + 1)
            },
        }
    }
}

pub open spec fn checkout_run(s: Session, root: Seq<u8>, branch: Seq<u8>) -> (
    Session,
    Outcome<Option<Seq<u8>>>,
) {
    match step(s, worktree_list(bare_of(root))) {
        (s1, Err(e)) => (s1, Err(e)),
        (s1, Ok(out)) => if out.ok() {
            (s1, checkout_from(split(out.stdout, NUL), branch_ref_of(branch), None, 0))
        } else {
            (s1, Err(exit_failure("worktree list --porcelain -z"@, out)))
        },
    }
}

pub open spec fn opt_outcome(r: Result<Option<Vec<u8>>>) -> Outcome<Option<Seq<u8>>> {
    match r {
        Ok(o) => Ok(opt_view(o)),
        Err(e) => Err(e@),
    }
}

/// The worktree that has a branch checked out, if any.
pub fn branch_checked_out_at<R: GitRunner + ?Sized>(
    runner: &mut R,
    grove: &Grove,
    branch: &[u8],
) -> (r: Result<Option<Vec<u8>>>)
    ensures
        (final(runner).session(), opt_outcome(r)) == checkout_run(
            old(runner).session(),
            grove.root@,
            branch@,
        ),
{
    let output = runner.run(
        Invocation::new().git_dir(grove.bare_dir().as_slice()).word("worktree").word("list").word(
            "--porcelain",
        ).word("-z"),
    )?;
    if !output.ok() {
        return Err(exit_error("worktree list --porcelain -z", &output));
    }
    let reference = branch_ref(branch);
    let fields = split_on(output.stdout.as_slice(), NUL);
    let ghost all = views(fields@);
    let mut path: Option<Vec<u8>> = None;
    let mut i: usize = 0;
    proof {
        assert(all.len() == fields@.len());
    }
    while i < fields.len()
        invariant
            i <= fields.len(),
            all == views(fields@),
            all.len() == fields@.len(),
            reference@ == branch_ref_of(branch@),
            checkout_run(old(runner).session(), grove.root@, branch@) == (
                runner.session(),
                checkout_from(all, reference@, opt_view(path), i as int),
            ),
        decreases fields.len() - i,
    {
        let field = fields[i].as_slice();
        proof {
            assert(all[i as int] == field@);
        }
        if field.len() == 0 {
            path = None;
        } else {
            match strip_prefix(field, "worktree ".as_bytes()) {
                Some(value) => {
                    path = Some(copied(value));
                },
                None => {
                    let is_branch = match strip_prefix(field, "branch ".as_bytes()) {
                        Some(value) => same(value, reference.as_slice()),
                        None => false,
                    };
                    if is_branch {
                        match path {
                            Some(p) => {
                                return Ok(Some(p));
                            },
                            None => {
                                return Err(
                                    failure_error(
                                        "git returned a branch before its worktree path",
                                    ),
                                );
                            },
                        }
                    }
                },
            }
        }
        i = i + 1;
    }
    Ok(None)
}

// ------------------------------------------------------------------- refspecs

/// What a source pattern leaves open of `value`: nothing without a star, the run the star
/// stands for with one.
pub open spec fn pattern_part(pattern: Seq<u8>, value: Seq<u8>) -> Option<Seq<u8>> {
    if !pattern.contains(STAR) {
        if pattern == value {
            Some(seq![])
        } else {
            None
        }
    } else if at_most_one(pattern, STAR) {
        star_match(pattern, value)
    } else {
        None
    }
}

/// Where a fetch refspec maps a source ref.
pub open spec fn mapped(spec: Seq<u8>, source: Seq<u8>) -> Option<Seq<u8>> {
    let s = unforced(spec);
    let colon = find(s, COLON);
    if leads_with(s, CARET) || colon >= s.len() {
        None
    } else {
        let to = after(s, colon + 1);
        match pattern_part(s.subrange(0, colon), source) {
            None => None,
            Some(part) => if !to.contains(STAR) {
                if part.len() == 0 {
                    Some(to)
                } else {
                    None
                }
            } else if at_most_one(to, STAR) {
                Some(star_filled(to, part))
            } else {
                None
            },
        }
    }
}

/// Whether a negative refspec excludes a source ref.
pub open spec fn excluded(spec: Seq<u8>, source: Seq<u8>) -> bool {
    leads_with(spec, CARET) && pattern_part(after(spec, 1), source) is Some
}

proof fn lemma_star_found(s: Seq<u8>)
    ensures
        (find(s, STAR) < s.len()) == s.contains(STAR),
        0 <= find(s, STAR) <= s.len(),
{
    lemma_find_bounds(s, STAR, 0);
    if s.contains(STAR) {
        let j = choose|j: int| 0 <= j < s.len() && s[j] == STAR;
        assert(s[j] == STAR);
    }
}

fn pattern_match(pattern: &[u8], value: &[u8]) -> (r: Option<Vec<u8>>)
    ensures
        opt_view(r) == pattern_part(pattern@, value@),
{
    let star = position(pattern, STAR);
    proof {
        lemma_star_found(pattern@);
    }
    if star == pattern.len() {
        if same(pattern, value) {
            let none: Vec<u8> = Vec::new();
            proof {
                assert(none@ =~= seq![]);
            }
            return Some(none);
        }
        return None;
    }
    let suffix = vstd::slice::slice_subrange(pattern, star + 1, pattern.len());
    if has_byte(suffix, STAR) {
        return None;
    }
    match strip_prefix(value, vstd::slice::slice_subrange(pattern, 0, star)) {
        None => None,
        Some(rest) => match strip_suffix(rest, suffix) {
            None => None,
            Some(part) => Some(copied(part)),
        },
    }
}

/// Where a fetch refspec maps a source ref, if it covers it.
pub fn map_refspec(spec: &[u8], source_ref: &[u8]) -> (r: Option<Vec<u8>>)
    ensures
        opt_view(r) == mapped(spec@, source_ref@),
{
    let s: &[u8] = if spec.len() > 0 && spec[0] == PLUS {
        vstd::slice::slice_subrange(spec, 1, spec.len())
    } else {
        spec
    };
    proof {
        if spec@.len() > 0 {
            assert(spec@.subrange(0, 1) =~= seq![spec@[0]]);
            if spec@.subrange(0, 1) == seq![PLUS] {
                assert(seq![spec@[0]][0] == seq![PLUS][0]);
            }
        }
        assert(s@ == unforced(spec@));
    }
    if s.len() > 0 && s[0] == CARET {
        return None;
    }
    let colon = position(s, COLON);
    if colon == s.len() {
        return None;
    }
    let to = vstd::slice::slice_subrange(s, colon + 1, s.len());
    let part = match pattern_match(vstd::slice::slice_subrange(s, 0, colon), source_ref) {
        None => return None,
        Some(part) => part,
    };
    let star = position(to, STAR);
    proof {
        lemma_star_found(to@);
    }
    if star == to.len() {
        if part.len() == 0 {
            return Some(copied(to));
        }
        return None;
    }
    let rest = vstd::slice::slice_subrange(to, star + 1, to.len());
    if has_byte(rest, STAR) {
        return None;
    }
    let head = joined(vstd::slice::slice_subrange(to, 0, star), part.as_slice());
    Some(joined(head.as_slice(), rest))
}

/// Whether a negative refspec excludes a source ref.
pub fn excludes_source(spec: &[u8], source_ref: &[u8]) -> (r: bool)
    ensures
        r == excluded(spec@, source_ref@),
{
    if spec.len() == 0 || spec[0] != CARET {
        return false;
    }
    pattern_match(vstd::slice::slice_subrange(spec, 1, spec.len()), source_ref).is_some()
}

// ----------------------------------------------------------- remote candidates

/// `s` without one carriage return at its end.
pub open spec fn unreturned(s: Seq<u8>) -> Seq<u8> {
    if s.len() > 0 && s.last() == CR {
        s.drop_last()
    } else {
        s
    }
}

/// The line that field `i` of a listing holds. A line end may be preceded by a carriage return,
/// and the line itself may end in one more.
pub open spec fn line_at(fields: Seq<Seq<u8>>, i: int) -> Seq<u8> {
    if i + 1 < fields.len() {
        unreturned(unreturned(fields[i]))
    } else {
        unreturned(fields[i])
    }
}

/// The non-empty lines among the first `n` fields of a listing.
pub open spec fn lines_upto(fields: Seq<Seq<u8>>, n: int) -> Seq<Seq<u8>>
    decreases n,
{
    if n <= 0 {
        seq![]
    } else if line_at(fields, n - 1).len() == 0 {
        lines_upto(fields, n - 1)
    } else {
        lines_upto(fields, n - 1).push(line_at(fields, n - 1))
    }
}

/// The non-empty lines of a listing.
pub open spec fn lines_in(s: Seq<u8>) -> Seq<Seq<u8>> {
    lines_upto(split(s, LF), split(s, LF).len() as int)
}

fn unreturn(s: &[u8]) -> (r: &[u8])
    ensures
        r@ == unreturned(s@),
{
    if s.len() > 0 && s[s.len() - 1] == CR {
        let out = vstd::slice::slice_subrange(s, 0, s.len() - 1);
        proof {
            assert(out@ =~= s@.drop_last());
        }
        out
    } else {
        s
    }
}

/// The non-empty lines of a listing.
pub fn lines_of(s: &[u8]) -> (r: Vec<Vec<u8>>)
    ensures
        views(r@) == lines_in(s@),
{
    let fields = split_on(s, LF);
    let ghost all = views(fields@);
    let mut out: Vec<Vec<u8>> = Vec::new();
    let mut i: usize = 0;
    proof {
        assert(all.len() == fields@.len());
        assert(views(out@) =~= seq![]);
    }
    while i < fields.len()
        invariant
            i <= fields.len(),
            all == views(fields@),
            all.len() == fields@.len(),
            views(out@) == lines_upto(all, i as int),
        decreases fields.len() - i,
    {
        proof {
            assert(all[i as int] == fields@[i as int]@);
        }
        let once = unreturn(fields[i].as_slice());
        let line = if i + 1 < fields.len() {
            unreturn(once)
        } else {
            once
        };
        if line.len() > 0 {
            out.push(copied(line));
        }
        i = i + 1;
    }
    out
}

pub open spec fn any_excludes(specs: Seq<Seq<u8>>, source: Seq<u8>, from: int) -> bool
    decreases specs.len() - from,
{
    if from >= specs.len() {
        false
    } else {
        excluded(specs[from], source) || any_excludes(specs, source, from + 1)
    }
}

/// A tracking ref without the common prefix of tracking refs.
pub open spec fn shortened(reference: Seq<u8>) -> Seq<u8> {
    match without_prefix(reference, lit("refs/remotes/")) {
        Some(short) => short,
        None => reference,
    }
}

/// The refs that the refspecs from `i` on map `source` to and that exist, after those `found`
/// so far.
pub open spec fn mapped_from(
    s: Session,
    bare: Seq<u8>,
    specs: Seq<Seq<u8>>,
    source: Seq<u8>,
    found: Seq<Seq<u8>>,
    i: int,
) -> (Session, Outcome<Seq<Seq<u8>>>)
    decreases specs.len() - i,
{
    if i >= specs.len() {
        (s, Ok(found))
    } else {
        match mapped(specs[i], source) {
            None => mapped_from(s, bare, specs, source, found, i + 1),
            Some(reference) => if ends_with(reference, lit("/HEAD")) {
                mapped_from(s, bare, specs, source, found, i + 1)
            } else {
                match step(s, show_ref_quietly(bare, reference)) {
                    (s1, Err(e)) => (s1, Err(e)),
                    (s1, Ok(out)) => match presence(out, "show-ref --verify"@) {
                        Err(e) => (s1, Err(e)),
                        Ok(true) => mapped_from(
                            s1,
                            bare,
                            specs,
                            source,
                            found.push(shortened(reference)),
                            i + 1,
                        ),
                        Ok(false) => mapped_from(s1, bare, specs, source, found, i + 1),
                    },
                }
            },
        }
    }
}

/// What one remote contributes: nothing when it has no refspec or excludes the source.
pub open spec fn remote_part(
    s: Session,
    bare: Seq<u8>,
    remote: Seq<u8>,
    source: Seq<u8>,
    found: Seq<Seq<u8>>,
) -> (Session, Outcome<Seq<Seq<u8>>>) {
    match step(
        s,
        invoke_in(
            bare,
            args3(lit("config"), lit("--get-all"), key_of("remote.", remote, ".fetch")),
        ),
    ) {
        (s1, Err(e)) => (s1, Err(e)),
        (s1, Ok(out)) => if out.status == 1 {
            (s1, Ok(found))
        } else if out.status != 0 {
            (s1, Err(exit_failure("config --get-all remote.*.fetch"@, out)))
        } else if any_excludes(lines_in(out.stdout), source, 0) {
            (s1, Ok(found))
        } else {
            mapped_from(s1, bare, lines_in(out.stdout), source, found, 0)
        },
    }
}

pub open spec fn remotes_from(
    s: Session,
    bare: Seq<u8>,
    remotes: Seq<Seq<u8>>,
    source: Seq<u8>,
    found: Seq<Seq<u8>>,
    i: int,
) -> (Session, Outcome<Seq<Seq<u8>>>)
    decreases remotes.len() - i,
{
    if i >= remotes.len() {
        (s, Ok(sorted_set(found)))
    } else {
        match remote_part(s, bare, remotes[i], source, found) {
            (s1, Err(e)) => (s1, Err(e)),
            (s1, Ok(more)) => remotes_from(s1, bare, remotes, source, more, i + 1),
        }
    }
}

pub open spec fn candidates_run(s: Session, root: Seq<u8>, branch: Seq<u8>) -> (
    Session,
    Outcome<Seq<Seq<u8>>>,
) {
    match step(s, invoke_in(bare_of(root), args1(lit("remote")))) {
        (s1, Err(e)) => (s1, Err(e)),
        (s1, Ok(out)) => if out.ok() {
            remotes_from(
                s1,
                bare_of(root),
                lines_in(out.stdout),
                branch_ref_of(branch),
                seq![],
                0,
            )
        } else {
            (s1, Err(exit_failure("remote"@, out)))
        },
    }
}

fn any_spec_excludes(specs: &Vec<Vec<u8>>, source: &[u8]) -> (r: bool)
    ensures
        r == any_excludes(views(specs@), source@, 0),
{
    let mut i: usize = 0;
    while i < specs.len()
        invariant
            i <= specs.len(),
            any_excludes(views(specs@), source@, 0) == any_excludes(
                views(specs@),
                source@,
                i as int,
            ),
        decreases specs.len() - i,
    {
        proof {
            assert(views(specs@)[i as int] == specs@[i as int]@);
        }
        if excludes_source(specs[i].as_slice(), source) {
            return true;
        }
        i = i + 1;
    }
    false
}

fn candidates_of_remote<R: GitRunner + ?Sized>(
    runner: &mut R,
    bare: &[u8],
    remote: &[u8],
    source: &[u8],
    found: Vec<Vec<u8>>,
) -> (r: Result<Vec<Vec<u8>>>)
    ensures
        (final(runner).session(), list_outcome(r)) == remote_part(
            old(runner).session(),
            bare@,
            remote@,
            source@,
            views(found@),
        ),
{
    let key = config_key("remote.", remote, ".fetch");
    let refspecs = runner.run(
        Invocation::new().git_dir(bare).word("config").word("--get-all").arg(key.as_slice()),
    )?;
    if refspecs.status == 1 {
        return Ok(found);
    }
    if refspecs.status != 0 {
        return Err(exit_error("config --get-all remote.*.fetch", &refspecs));
    }
    let specs = lines_of(refspecs.stdout.as_slice());
    if any_spec_excludes(&specs, source) {
        return Ok(found);
    }
    let ghost all = views(specs@);
    let mut kept = copied_list(&found);
    let mut i: usize = 0;
    proof {
        assert(all.len() == specs@.len());
    }
    while i < specs.len()
        invariant
            i <= specs.len(),
            all == views(specs@),
            all.len() == specs@.len(),
            remote_part(old(runner).session(), bare@, remote@, source@, views(found@)) == mapped_from(
                runner.session(),
                bare@,
                all,
                source@,
                views(kept@),
                i as int,
            ),
        decreases specs.len() - i,
    {
        proof {
            assert(all[i as int] == specs@[i as int]@);
        }
        match map_refspec(specs[i].as_slice(), source) {
            None => {},
            Some(reference) => {
                if !has_suffix(reference.as_slice(), "/HEAD".as_bytes()) {
                    let output = runner.run(
                        Invocation::new().git_dir(bare).word("show-ref").word("--verify").word(
                            "--quiet",
                        ).arg(reference.as_slice()),
                    )?;
                    if output.status == 0 {
                        match strip_prefix(reference.as_slice(), "refs/remotes/".as_bytes()) {
                            Some(short) => {
                                kept.push(copied(short));
                            },
                            None => {
                                kept.push(copied(reference.as_slice()));
                            },
                        }
                    } else if output.status != 1 {
                        return Err(exit_error("show-ref --verify", &output));
                    }
                }
            },
        }
        i = i + 1;
    }
    Ok(kept)
}

/// The existing tracking refs that each remote's fetch refspecs map a branch to, in order and
/// each once.
pub fn remote_candidates<R: GitRunner + ?Sized>(
    runner: &mut R,
    grove: &Grove,
    branch: &[u8],
) -> (r: Result<Vec<Vec<u8>>>)
    ensures
        (final(runner).session(), list_outcome(r)) == candidates_run(
            old(runner).session(),
            grove.root@,
            branch@,
        ),
{
    let source = branch_ref(branch);
    let bare = grove.bare_dir();
    let listing = runner.run(Invocation::new().git_dir(bare.as_slice()).word("remote"))?;
    if !listing.ok() {
        return Err(exit_error("remote", &listing));
    }
    let remotes = lines_of(listing.stdout.as_slice());
    let ghost all = views(remotes@);
    let mut found: Vec<Vec<u8>> = Vec::new();
    let mut i: usize = 0;
    proof {
        assert(all.len() == remotes@.len());
        assert(views(found@) =~= seq![]);
    }
    while i < remotes.len()
        invariant
            i <= remotes.len(),
            all == views(remotes@),
            all.len() == remotes@.len(),
            bare@ == bare_of(grove.root@),
            source@ == branch_ref_of(branch@),
            candidates_run(old(runner).session(), grove.root@, branch@) == remotes_from(
                runner.session(),
                bare@,
                all,
                source@,
                views(found@),
                i as int,
            ),
        decreases remotes.len() - i,
    {
        proof {
            assert(all[i as int] == remotes@[i as int]@);
        }
        found = candidates_of_remote(
            runner,
            bare.as_slice(),
            remotes[i].as_slice(),
            source.as_slice(),
            found,
        )?;
        i = i + 1;
    }
    Ok(sort_unique(&found))
}

} // verus!

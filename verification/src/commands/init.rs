//! Create a repository as a grove, and the steps that cloning one shares with that.
use vstd::prelude::*;
use crate::bytes::{
    bytes_of, copied, lemma_views_push, lit, opt_view, same, views, SLASH,
};
use crate::error::{
    bytes_outcome, detailed, error_text, failure, needs_decision, plain, usage, ErrorView,
    ExitClass, GroveError, Result,
};
use crate::fsx::directory::{
    empty_run, held_outcome, only_entry_run, take_run, validate_run, During, HeldDirectory, HeldView,
};
use crate::fsx::below::held_identity_run;
use crate::fsx::files::{
    answer_to, as_names, ask_facts, ask_handle, bytes_step, do_request, done_step, facts_step,
    handle_step, names_step, FailureKind, FileRequest, FileSession, FileSystem,
};
use crate::fsx::held::FileKind;
use crate::fsx::looking::{
    held_identities_are_found_by_looking, lemma_looked_on, lemma_one_look, only_looked,
    validations_are_made_by_looking,
};
use crate::fsx::write::{
    possible_nonces, symlink_absent_run, symlink_relative_if_absent, write_absent_run,
    write_atomic_if_absent, Nonces, TempStrategy,
};
use crate::git::config::{one_line_of, state_conflict_error, trim_one_line, Outcome};
use crate::git::guard::{beneath, both_run, guarded_session, validate_both, GuardedRunner};
use crate::git::runner::{
    args2, args3, args4, args6, invoke, invoke_in, step, step_ok, GitRunner, Invocation, Session,
};
use crate::grove::discover::Grove;
use crate::grove::layout::{
    grove_outcome, parents_run, place_path, place_run, recognize_grove, recognize_run,
    relative_place, vacant_run, validate_relative_worktree_path, validate_worktree_path, write_pointer_if_absent,
    POINTER_CONTENTS,
};
use crate::grove::metadata::{
    write_to_config, write_to_config_run, Metadata, MetadataView, PublishState, FORMAT_VERSION,
};
use crate::path::{
    absolute, child, components, file_name, is_absolute, join_path, join_word, joined_names,
    last_name, names_one, parent_of, parent_path, parents_lack_the_last_component, part_views, parts,
    Component, Part,
};
use crate::text::{escape, escaped, text};

verus! {

broadcast use lemma_views_push;

/// A person has to decide about the state that was found.
pub fn conflict(message: String, detail: String) -> (r: GroveError)
    ensures
        r@ == state_conflict_error(message@, detail@),
{
    GroveError::needs_decision(message).with_detail(detail)
}

// ------------------------------------------------------------------ normal paths

/// The names that an absolute path comes to when `..` is resolved in words, from the component
/// `i` on, below the names gathered so far.
pub open spec fn resolved_names(list: Seq<Part>, i: int, names: Seq<Seq<u8>>) -> Outcome<
    Seq<Seq<u8>>,
>
    decreases list.len() - i,
{
    if i >= list.len() {
        Ok(names)
    } else {
        match list[i] {
            Part::Normal(name) => resolved_names(list, i + 1, names.push(name)),
            Part::Parent => if names.len() == 0 {
                Err(usage("the grove root escapes the filesystem root"@))
            } else {
                resolved_names(list, i + 1, names.drop_last())
            },
            _ => resolved_names(list, i + 1, names),
        }
    }
}

/// An absolute path without `.` and `..`.
pub open spec fn normalized(path: Seq<u8>) -> Outcome<Seq<u8>> {
    if !absolute(path) {
        Err(failure("internal root path is not absolute"@))
    } else {
        match resolved_names(parts(path), 0, seq![]) {
            Err(e) => Err(e),
            Ok(names) => Ok(lit("/") + joined_names(names)),
        }
    }
}

/// Resolves `.` and `..` in an absolute path, in words.
pub fn normalize_absolute(path: &[u8]) -> (r: Result<Vec<u8>>)
    ensures
        bytes_outcome(r) == normalized(path@),
{
    if !is_absolute(path) {
        return Err(crate::error::failure_error("internal root path is not absolute"));
    }
    let list = components(path);
    let ghost all = parts(path@);
    let mut names: Vec<Vec<u8>> = Vec::new();
    let mut i: usize = 0;
    proof {
        assert(part_views(list@).len() == list@.len());
        assert(views(names@) =~= seq![]);
    }
    while i < list.len()
        invariant
            i <= list.len(),
            absolute(path@),
            all == parts(path@),
            part_views(list@) == all,
            all.len() == list@.len(),
            resolved_names(all, 0, seq![]) == resolved_names(all, i as int, views(names@)),
        decreases list.len() - i,
    {
        broadcast use lemma_views_push;

        proof {
            assert(all[i as int] == list@[i as int]@);
        }
        match &list[i] {
            Component::Normal(name) => {
                names.push(copied(name.as_slice()));
            },
            Component::Parent => {
                if names.len() == 0 {
                    return Err(
                        crate::error::usage_error("the grove root escapes the filesystem root"),
                    );
                }
                let ghost before = views(names@);
                names.pop();
                proof {
                    assert(views(names@) =~= before.drop_last());
                }
            },
            _ => {},
        }
        i = i + 1;
    }
    let tail = crate::path::join_names(&names);
    Ok(crate::bytes::prefixed("/", tail.as_slice()))
}

/// A normal path has only names below the root of the file system.
pub proof fn normal_paths_hold_only_names(path: Seq<u8>)
    requires
        normalized(path) is Ok,
    ensures
        resolved_names(parts(path), 0, seq![]) is Ok,
        normalized(path)->Ok_0 == lit("/") + joined_names(
            resolved_names(parts(path), 0, seq![])->Ok_0,
        ),
        forall|i: int|
            0 <= i < resolved_names(parts(path), 0, seq![])->Ok_0.len() ==> names_one(
                #[trigger] resolved_names(parts(path), 0, seq![])->Ok_0[i],
            ),
{
    crate::path::components_are_named(path);
    lemma_resolved_names(parts(path), 0, seq![]);
}

/// A normal path is left as it is.
pub proof fn normal_paths_stay(path: Seq<u8>)
    requires
        normalized(path) is Ok,
    ensures
        normalized(normalized(path)->Ok_0) == normalized(path),
{
    normal_paths_hold_only_names(path);
    let names = resolved_names(parts(path), 0, seq![])->Ok_0;
    let root = lit("/");
    assert(root == seq![SLASH]) by {
        reveal_strlit("/");
        vstd::utf8::is_ascii_chars_encode_utf8("/"@);
    }
    let normal = root + joined_names(names);
    assert(normal[0] == SLASH);
    assert(parts(root) =~= seq![Part::Root]) by {
        crate::bytes::lemma_split_joined(seq![], seq![], SLASH);
        assert(Seq::<u8>::empty().push(SLASH) + Seq::<u8>::empty() =~= root);
        assert(crate::bytes::split(seq![], SLASH) =~= seq![Seq::<u8>::empty()]);
        reveal_with_fuel(crate::path::field_parts, 3);
    }
    if names.len() == 0 {
        assert(normal =~= root);
        assert(parts(normal) =~= seq![Part::Root]);
    } else {
        crate::path::joined_names_split_again(names);
        crate::path::joining_adds_components(root, joined_names(names));
        assert(child(root, joined_names(names)) =~= normal);
    }
    assert(parts(normal) =~= seq![Part::Root] + names.map_values(|n: Seq<u8>| Part::Normal(n)));
    lemma_names_resolved(parts(normal), names, 0);
    assert(names.take(0) =~= seq![]);
}

proof fn lemma_names_resolved(list: Seq<Part>, names: Seq<Seq<u8>>, n: int)
    requires
        0 <= n <= names.len(),
        list == seq![Part::Root] + names.map_values(|name: Seq<u8>| Part::Normal(name)),
    ensures
        resolved_names(list, n + 1, names.take(n)) == Ok::<Seq<Seq<u8>>, ErrorView>(names),
        resolved_names(list, 0, seq![]) == resolved_names(list, 1, seq![]),
    decreases names.len() - n,
{
    assert(list[0] == Part::Root);
    if n < names.len() {
        assert(list[n + 1] == Part::Normal(names[n]));
        assert(names.take(n).push(names[n]) =~= names.take(n + 1));
        lemma_names_resolved(list, names, n + 1);
    } else {
        assert(names.take(n) =~= names);
    }
}

proof fn lemma_resolved_names(list: Seq<Part>, i: int, names: Seq<Seq<u8>>)
    requires
        0 <= i,
        resolved_names(list, i, names) is Ok,
        forall|j: int|
            0 <= j < list.len() ==> match #[trigger] list[j] {
                Part::Normal(name) => names_one(name),
                _ => true,
            },
        forall|j: int| 0 <= j < names.len() ==> names_one(#[trigger] names[j]),
    ensures
        forall|j: int|
            0 <= j < resolved_names(list, i, names)->Ok_0.len() ==> names_one(
                #[trigger] resolved_names(list, i, names)->Ok_0[j],
            ),
    decreases list.len() - i,
{
    if i < list.len() {
        assert(match list[i] {
            Part::Normal(name) => names_one(name),
            _ => true,
        });
        match list[i] {
            Part::Normal(name) => lemma_resolved_names(list, i + 1, names.push(name)),
            Part::Parent => lemma_resolved_names(list, i + 1, names.drop_last()),
            _ => lemma_resolved_names(list, i + 1, names),
        }
    }
}

// ----------------------------------------------------------------- opening the root

pub open spec fn no_parent(root: Seq<u8>) -> ErrorView {
    failure("cannot find an existing parent for "@ + escape(root))
}

/// The part of the root that exists, and the names that are missing below it, the last one first:
/// looked at from `current` upwards, with the names that were found to be missing so far.
pub open spec fn ancestor_from(
    s: FileSession,
    root: Seq<u8>,
    current: Seq<u8>,
    missing: Seq<Seq<u8>>,
) -> (FileSession, Outcome<(Seq<u8>, Seq<Seq<u8>>)>)
    decreases current.len(),
    via ancestor_from_ends
{
    match facts_step(s, FileRequest::Inspect(current)) {
        (s1, Ok(facts)) => if facts.kind == FileKind::Directory {
            (s1, Ok((current, missing)))
        } else {
            (
                s1,
                Err(
                    state_conflict_error(
                        escape(root) + " is not an empty directory"@,
                        "use `git grove adopt` to convert existing contents"@,
                    ),
                ),
            )
        },
        (s1, Err(e)) => if e.kind == FailureKind::NotFound {
            match (last_name(current), parent_of(current)) {
                (Some(name), Some(parent)) => ancestor_from(
                    s1,
                    root,
                    parent,
                    missing.push(name),
                ),
                _ => (s1, Err(no_parent(root))),
            }
        } else {
            (s1, Err(failure("cannot inspect "@ + escape(current) + ": "@ + e.text)))
        },
    }
}

#[via_fn]
proof fn ancestor_from_ends(
    s: FileSession,
    root: Seq<u8>,
    current: Seq<u8>,
    missing: Seq<Seq<u8>>,
) {
    parents_lack_the_last_component(current);
}

/// Creating one directory in another; whether it was created, or was there already.
pub open spec fn make_run(s: FileSession, root: Seq<u8>, directory: u64, name: Seq<u8>) -> (
    FileSession,
    Outcome<bool>,
) {
    match done_step(s, FileRequest::MakeDirectoryAt(directory, name, 0x1ed)) {
        (s1, Ok(_)) => (s1, Ok(true)),
        (s1, Err(e)) => if e.kind == FailureKind::AlreadyExists {
            (s1, Ok(false))
        } else {
            (s1, Err(failure("cannot create "@ + escape(root) + ": "@ + e.text)))
        },
    }
}

/// Creating the first `k` of the missing names, the last one first, each in the one before, which
/// is held. `mutated` says whether anything was created so far.
pub open spec fn create_from(
    s: FileSession,
    root: Seq<u8>,
    missing: Seq<Seq<u8>>,
    k: int,
    directory: u64,
    mutated: bool,
) -> (FileSession, bool, Outcome<u64>)
    decreases k,
{
    if k <= 0 {
        (s, mutated, Ok(directory))
    } else {
        match make_run(s, root, directory, missing[k - 1]) {
            (s1, Err(e)) => (s1, mutated, Err(e)),
            (s1, Ok(created)) => match handle_step(
                s1,
                FileRequest::OpenDirectoryAt(directory, missing[k - 1]),
            ) {
                (s2, Err(e)) => (
                    s2,
                    mutated || created,
                    Err(
                        state_conflict_error(
                            escape(root) + " changed while it was being created"@,
                            "a non-directory or symlink was preserved: "@ + e.text,
                        ),
                    ),
                ),
                (s2, Ok(next)) => create_from(
                    s2,
                    root,
                    missing,
                    k - 1,
                    next,
                    mutated || created,
                ),
            },
        }
    }
}

/// Opening the root of a new grove, created with its missing parents; it must be empty. `mutated`
/// says whether anything was created before.
pub open spec fn open_root_run(s: FileSession, root: Seq<u8>, mutated: bool) -> (
    FileSession,
    bool,
    Outcome<HeldView>,
) {
    match ancestor_from(s, root, root, Seq::empty()) {
        (s1, Err(e)) => (s1, mutated, Err(e)),
        (s1, Ok((ancestor, missing))) => {
            match handle_step(s1, FileRequest::OpenDirectory(ancestor)) {
                (s2, Err(e)) => (
                    s2,
                    mutated,
                    Err(
                        state_conflict_error(
                            "cannot open "@ + escape(ancestor) + " safely"@,
                            e.text,
                        ),
                    ),
                ),
                (s2, Ok(directory)) => match create_from(
                    s2,
                    root,
                    missing,
                    missing.len() as int,
                    directory,
                    mutated,
                ) {
                    (s3, mutated3, Err(e)) => (s3, mutated3, Err(e)),
                    (s3, mutated3, Ok(handle)) => match take_run(
                        s3,
                        handle,
                        root,
                        During::Initializing,
                    ) {
                        (s4, Err(e)) => (s4, mutated3, Err(e)),
                        (s4, Ok(held)) => match empty_run(s4, held) {
                            (s5, Err(e)) => (s5, mutated3, Err(e)),
                            (s5, Ok(_)) => (s5, mutated3, Ok(held)),
                        },
                    },
                },
            }
        },
    }
}

fn no_parent_error(root: &[u8]) -> (r: GroveError)
    ensures
        r@ == no_parent(root@),
{
    GroveError::failure(
        text("cannot find an existing parent for ").concat(escaped(root).as_str()),
    )
}

pub open spec fn ancestor_outcome(r: Result<(Vec<u8>, Vec<Vec<u8>>)>) -> Outcome<
    (Seq<u8>, Seq<Seq<u8>>),
> {
    match r {
        Ok(found) => Ok((found.0@, views(found.1@))),
        Err(e) => Err(e@),
    }
}

fn find_ancestor<F: FileSystem + ?Sized>(
    files: &mut F,
    root: &[u8],
    current: Vec<u8>,
    missing: Vec<Vec<u8>>,
) -> (r: Result<(Vec<u8>, Vec<Vec<u8>>)>)
    ensures
        (final(files).files(), ancestor_outcome(r)) == ancestor_from(
            old(files).files(),
            root@,
            current@,
            views(missing@),
        ),
    decreases current@.len(),
{
    match ask_facts(files, FileRequest::Inspect(copied(current.as_slice()))) {
        Ok(facts) => if facts.kind == FileKind::Directory {
            Ok((current, missing))
        } else {
            Err(
                conflict(
                    escaped(root).concat(" is not an empty directory"),
                    text("use `git grove adopt` to convert existing contents"),
                ),
            )
        },
        Err(e) => if e.kind == FailureKind::NotFound {
            proof {
                parents_lack_the_last_component(current@);
            }
            match (file_name(current.as_slice()), parent_path(current.as_slice())) {
                (Some(name), Some(parent)) => {
                    let mut missing = missing;
                    missing.push(name);
                    find_ancestor(files, root, parent, missing)
                },
                _ => Err(no_parent_error(root)),
            }
        } else {
            Err(
                GroveError::failure(
                    text("cannot inspect ").concat(escaped(current.as_slice()).as_str()).concat(
                        ": ",
                    ).concat(e.text.as_str()),
                ),
            )
        },
    }
}

fn create_rest<F: FileSystem + ?Sized>(
    files: &mut F,
    root: &[u8],
    missing: &Vec<Vec<u8>>,
    directory: u64,
    mutated: &mut bool,
) -> (r: Result<u64>)
    ensures
        (final(files).files(), *final(mutated), plain(r)) == create_from(
            old(files).files(),
            root@,
            views(missing@),
            views(missing@).len() as int,
            directory,
            *old(mutated),
        ),
{
    let ghost all = views(missing@);
    let mut k: usize = missing.len();
    let mut current: u64 = directory;
    proof {
        assert(all.len() == missing@.len());
    }
    while k > 0
        invariant
            k <= missing.len(),
            all == views(missing@),
            all.len() == missing@.len(),
            create_from(
                old(files).files(),
                root@,
                all,
                all.len() as int,
                directory,
                *old(mutated),
            ) == create_from(files.files(), root@, all, k as int, current, *mutated),
        decreases k,
    {
        proof {
            assert(all[k - 1] == missing@[k - 1]@);
        }
        let name = missing[k - 1].as_slice();
        match do_request(files, FileRequest::MakeDirectoryAt(current, copied(name), 0x1ed)) {
            Ok(_) => {
                *mutated = true;
            },
            Err(e) => {
                if e.kind != FailureKind::AlreadyExists {
                    return Err(
                        GroveError::failure(
                            text("cannot create ").concat(escaped(root).as_str()).concat(
                                ": ",
                            ).concat(e.text.as_str()),
                        ),
                    );
                }
            },
        }
        match ask_handle(files, FileRequest::OpenDirectoryAt(current, copied(name))) {
            Err(e) => {
                return Err(
                    conflict(
                        escaped(root).concat(" changed while it was being created"),
                        text("a non-directory or symlink was preserved: ").concat(
                            e.text.as_str(),
                        ),
                    ),
                );
            },
            Ok(next) => {
                current = next;
            },
        }
        k = k - 1;
    }
    Ok(current)
}

/// Opens the root of a new grove, created with its missing parents; it must be empty. Whether
/// anything was created is noted in `mutated`, also when the call fails.
pub fn open_or_create_root<F: FileSystem + ?Sized>(files: &mut F, root: &[u8], mutated: &mut bool) -> (r:
    Result<HeldDirectory>)
    ensures
        (final(files).files(), *final(mutated), held_outcome(r)) == open_root_run(
            old(files).files(),
            root@,
            *old(mutated),
        ),
{
    let none: Vec<Vec<u8>> = Vec::new();
    proof {
        assert(views(none@) =~= Seq::empty());
    }
    let (ancestor, missing) = find_ancestor(files, root, copied(root), none)?;
    let directory = match ask_handle(
        files,
        FileRequest::OpenDirectory(copied(ancestor.as_slice())),
    ) {
        Err(e) => return Err(
            conflict(
                text("cannot open ").concat(escaped(ancestor.as_slice()).as_str()).concat(
                    " safely",
                ),
                e.text,
            ),
        ),
        Ok(h) => h,
    };
    let handle = create_rest(files, root, &missing, directory, mutated)?;
    let held = HeldDirectory::take(files, handle, root, During::Initializing)?;
    held.ensure_empty(files)?;
    Ok(held)
}

proof fn lemma_ancestor(s: FileSession, root: Seq<u8>, current: Seq<u8>, missing: Seq<Seq<u8>>)
    ensures
        only_looked(s, ancestor_from(s, root, current, missing).0),
    decreases current.len(),
{
    let request = FileRequest::Inspect(current);
    lemma_one_look(s, request);
    let s1 = facts_step(s, request).0;
    parents_lack_the_last_component(current);
    if last_name(current) is Some && parent_of(current) is Some {
        let parent = parent_of(current)->Some_0;
        let more = missing.push(last_name(current)->Some_0);
        lemma_ancestor(s1, root, parent, more);
        lemma_looked_on(s, s1, ancestor_from(s1, root, parent, more).0);
    }
}

/// A name on the way to a root that is no directory, and is not missing, is refused before
/// anything is created: the file system is only looked at.
pub proof fn refused_roots_are_left_alone(s: FileSession, root: Seq<u8>, mutated: bool)
    requires
        ancestor_from(s, root, root, Seq::empty()).1 is Err,
    ensures
        open_root_run(s, root, mutated).2 is Err,
        open_root_run(s, root, mutated).1 == mutated,
        only_looked(s, open_root_run(s, root, mutated).0),
{
    lemma_ancestor(s, root, root, Seq::empty());
}

/// Whether a directory was listed between two states of a session, and found to be empty.
pub open spec fn found_empty(before: FileSession, after: FileSession, path: Seq<u8>) -> bool {
    exists|i: int|
        before.calls.len() <= i < after.calls.len() && #[trigger] after.calls[i]
            == FileRequest::List(path) && as_names(answer_to(after, i)) is Ok && as_names(
            answer_to(after, i),
        )->Ok_0.len() == 0
}

proof fn lemma_create_goes_on(
    s: FileSession,
    root: Seq<u8>,
    missing: Seq<Seq<u8>>,
    k: int,
    directory: u64,
    mutated: bool,
)
    ensures
        s.calls.len() <= create_from(s, root, missing, k, directory, mutated).0.calls.len(),
    decreases k,
{
    if k > 0 {
        let name = missing[k - 1];
        let (s1, made) = make_run(s, root, directory, name);
        if made is Ok {
            let (s2, opened) = handle_step(s1, FileRequest::OpenDirectoryAt(directory, name));
            if opened is Ok {
                let next = opened->Ok_0;
                lemma_create_goes_on(s2, root, missing, k - 1, next, mutated || made->Ok_0);
            }
        }
    }
}

/// A root that is opened was listed and found to be empty.
pub proof fn opened_roots_were_empty(s: FileSession, root: Seq<u8>, mutated: bool)
    requires
        open_root_run(s, root, mutated).2 is Ok,
    ensures
        found_empty(
            s,
            open_root_run(s, root, mutated).0,
            open_root_run(s, root, mutated).2->Ok_0.anchored,
        ),
{
    let end = open_root_run(s, root, mutated).0;
    lemma_ancestor(s, root, root, Seq::empty());
    let (s1, found) = ancestor_from(s, root, root, Seq::empty());
    let (ancestor, missing) = found->Ok_0;
    let k = missing.len() as int;
    let (s2, directory) = handle_step(s1, FileRequest::OpenDirectory(ancestor));
    lemma_create_goes_on(s2, root, missing, k, directory->Ok_0, mutated);
    let (s3, _made, handle) = create_from(s2, root, missing, k, directory->Ok_0, mutated);
    let (a1, anchored) = bytes_step(s3, FileRequest::AnchoredPath(handle->Ok_0));
    held_identities_are_found_by_looking(a1, handle->Ok_0);
    let (a2, identity) = held_identity_run(a1, handle->Ok_0);
    let held = HeldView {
        handle: handle->Ok_0,
        named: root,
        anchored: anchored->Ok_0,
        identity: identity->Ok_0,
        during: During::Initializing,
    };
    validations_are_made_by_looking(a2, held);
    let s4 = validate_run(a2, held).0;
    validations_are_made_by_looking(s4, held);
    let b1 = validate_run(s4, held).0;
    let list_it = FileRequest::List(held.anchored);
    let b2 = names_step(b1, list_it).0;
    validations_are_made_by_looking(b2, held);
    assert(end == validate_run(b2, held).0);
    let i = b1.calls.len() as int;
    assert(b2.calls[i] == list_it);
    assert(end.calls[i] == b2.calls[i]);
    assert(end.calls.take(i + 1) =~= b2.calls);
}

// ------------------------------------------------------------------ the bare repository

/// Creating the bare repository's directory in the root: nothing may be there before, and
/// nothing else may come about meanwhile.
pub open spec fn create_bare_run(s: FileSession, root: HeldView, mutated: bool) -> (
    FileSession,
    bool,
    Outcome<HeldView>,
) {
    let bare = child(root.named, lit(".bare"));
    match empty_run(s, root) {
        (s1, Err(e)) => (s1, mutated, Err(e)),
        (s1, Ok(_)) => match done_step(
            s1,
            FileRequest::MakeDirectoryAt(root.handle, lit(".bare"), 0x1ed),
        ) {
            (s2, Err(e)) => if e.kind == FailureKind::AlreadyExists {
                (
                    s2,
                    mutated,
                    Err(
                        state_conflict_error(
                            escape(bare) + " already exists"@,
                            "the existing bare repository or link was preserved"@,
                        ),
                    ),
                )
            } else {
                (
                    s2,
                    mutated,
                    Err(failure("cannot create "@ + escape(bare) + ": "@ + e.text)),
                )
            },
            (s2, Ok(_)) => {
                let (s3, r) = enter_bare_run(s2, root, bare);
                (s3, true, r)
            },
        },
    }
}

pub open spec fn enter_bare_run(s: FileSession, root: HeldView, bare: Seq<u8>) -> (
    FileSession,
    Outcome<HeldView>,
) {
    match handle_step(s, FileRequest::OpenDirectoryAt(root.handle, lit(".bare"))) {
        (s1, Err(e)) => (
            s1,
            Err(
                state_conflict_error(
                    escape(bare) + " changed while it was being created"@,
                    "the replacement was preserved: "@ + e.text,
                ),
            ),
        ),
        (s1, Ok(handle)) => match validate_run(s1, root) {
            (s2, Err(e)) => (s2, Err(e)),
            (s2, Ok(_)) => match take_run(s2, handle, bare, During::Initializing) {
                (s3, Err(e)) => (s3, Err(e)),
                (s3, Ok(held)) => match only_entry_run(s3, root, lit(".bare")) {
                    (s4, Err(e)) => (s4, Err(e)),
                    (s4, Ok(_)) => match validate_run(s4, held) {
                        (s5, Err(e)) => (s5, Err(e)),
                        (s5, Ok(_)) => (s5, Ok(held)),
                    },
                },
            },
        },
    }
}

/// Creates the bare repository's directory in the root.
pub fn create_bare<F: FileSystem + ?Sized>(files: &mut F, root: &HeldDirectory, mutated: &mut bool) -> (r:
    Result<HeldDirectory>)
    ensures
        (final(files).files(), *final(mutated), held_outcome(r)) == create_bare_run(
            old(files).files(),
            root@,
            *old(mutated),
        ),
{
    let bare = join_word(root.named_path.as_slice(), ".bare");
    root.ensure_empty(files)?;
    match do_request(
        files,
        FileRequest::MakeDirectoryAt(root.handle, bytes_of(".bare"), 0x1ed),
    ) {
        Ok(_) => {
            *mutated = true;
        },
        Err(e) => {
            if e.kind == FailureKind::AlreadyExists {
                return Err(
                    conflict(
                        escaped(bare.as_slice()).concat(" already exists"),
                        text("the existing bare repository or link was preserved"),
                    ),
                );
            }
            return Err(
                GroveError::failure(
                    text("cannot create ").concat(escaped(bare.as_slice()).as_str()).concat(
                        ": ",
                    ).concat(e.text.as_str()),
                ),
            );
        },
    }
    let handle = match ask_handle(
        files,
        FileRequest::OpenDirectoryAt(root.handle, bytes_of(".bare")),
    ) {
        Err(e) => return Err(
            conflict(
                escaped(bare.as_slice()).concat(" changed while it was being created"),
                text("the replacement was preserved: ").concat(e.text.as_str()),
            ),
        ),
        Ok(h) => h,
    };
    root.validate(files)?;
    let held = HeldDirectory::take(files, handle, bare.as_slice(), During::Initializing)?;
    root.ensure_only_entry(files, ".bare".as_bytes())?;
    held.validate(files)?;
    Ok(held)
}

// -------------------------------------------------------------- keeping partial work

/// A directory, by what the system knows it by.
#[derive(Clone, Copy, Debug, PartialEq, Eq, Structural)]
pub struct DirectoryIdentity {
    pub device: u64,
    pub inode: u64,
}

/// The directories that were created so far.
#[derive(Clone, Copy, Debug, PartialEq, Eq, Structural)]
pub struct RecoveryState {
    pub root: Option<DirectoryIdentity>,
    pub bare: Option<DirectoryIdentity>,
}

/// Whether a path still leads to a directory that was created.
pub open spec fn matches_run(s: FileSession, path: Seq<u8>, expected: DirectoryIdentity) -> (
    FileSession,
    bool,
) {
    match facts_step(s, FileRequest::Inspect(path)) {
        (s1, Err(_)) => (s1, false),
        (s1, Ok(facts)) => (
            s1,
            facts.device == expected.device && facts.inode == expected.inode,
        ),
    }
}

/// The words about what was kept of a transaction that failed: where it is, if the names still
/// lead there, and otherwise that they do not.
pub open spec fn recovery_text(root: Seq<u8>, operation: Seq<char>, safe: bool) -> Seq<char> {
    if safe {
        "partial "@ + operation + " retained at "@ + escape(root)
            + "; inspect it and remove only confirmed invocation-created entries by hand before retrying"@
    } else {
        "the requested path "@ + escape(root)
            + " changed and is not a safe cleanup target; foreign replacement state was preserved, so locate the invocation-created partial state separately"@
    }
}

pub open spec fn with_recovery(e: ErrorView, recovery: Seq<char>) -> ErrorView {
    match e.detail {
        Some(detail) => if detail.len() > 0 {
            detailed(e, detail + "\n  "@ + recovery)
        } else {
            detailed(e, recovery)
        },
        None => detailed(e, recovery),
    }
}

/// Whether everything that was created is still where it was.
pub open spec fn safe_run(s: FileSession, root: Seq<u8>, state: RecoveryState) -> (
    FileSession,
    bool,
) {
    let (s1, root_matches) = match state.root {
        None => (s, false),
        Some(identity) => matches_run(s, root, identity),
    };
    let (s2, bare_matches) = match state.bare {
        None => (s1, true),
        Some(identity) => matches_run(s1, child(root, lit(".bare")), identity),
    };
    (s2, root_matches && bare_matches)
}

pub open spec fn retain_run(
    s: FileSession,
    e: ErrorView,
    root: Seq<u8>,
    state: RecoveryState,
    operation: Seq<char>,
) -> (FileSession, ErrorView) {
    let (s1, safe) = safe_run(s, root, state);
    (s1, with_recovery(e, recovery_text(root, operation, safe)))
}

fn identity_matches<F: FileSystem + ?Sized>(
    files: &mut F,
    path: &[u8],
    expected: DirectoryIdentity,
) -> (r: bool)
    ensures
        (final(files).files(), r) == matches_run(old(files).files(), path@, expected),
{
    match ask_facts(files, FileRequest::Inspect(copied(path))) {
        Err(_) => false,
        Ok(facts) => facts.device == expected.device && facts.inode == expected.inode,
    }
}

/// Adds to an error what was kept of the transaction that failed with it.
pub fn retain_partial<F: FileSystem + ?Sized>(
    files: &mut F,
    error: GroveError,
    root: &[u8],
    state: RecoveryState,
    operation: &str,
) -> (r: GroveError)
    ensures
        (final(files).files(), r@) == retain_run(
            old(files).files(),
            error@,
            root@,
            state,
            operation@,
        ),
{
    let root_matches = match state.root {
        None => false,
        Some(identity) => identity_matches(files, root, identity),
    };
    let bare_matches = match state.bare {
        None => true,
        Some(identity) => identity_matches(files, join_word(root, ".bare").as_slice(), identity),
    };
    let recovery = if root_matches && bare_matches {
        text("partial ").concat(operation).concat(" retained at ").concat(
            escaped(root).as_str(),
        ).concat(
            "; inspect it and remove only confirmed invocation-created entries by hand before retrying",
        )
    } else {
        text("the requested path ").concat(escaped(root).as_str()).concat(
            " changed and is not a safe cleanup target; foreign replacement state was preserved, so locate the invocation-created partial state separately",
        )
    };
    let GroveError { class, message, detail, exit_code } = error;
    let detail = match detail {
        Some(d) => if d.as_str().as_bytes().len() > 0 {
            proof {
                crate::text::lemma_empty_text(d@);
            }
            d.concat("\n  ").concat(recovery.as_str())
        } else {
            proof {
                crate::text::lemma_empty_text(d@);
            }
            recovery
        },
        None => recovery,
    };
    GroveError { class, message, detail: Some(detail), exit_code }
}

/// What an error about a place means once something was created: no longer a wrong request, but
/// state that a person has to decide about.
pub open spec fn post_mutation(e: ErrorView) -> ErrorView {
    if e.class == ExitClass::Usage {
        state_conflict_error(
            e.message,
            match e.detail {
                Some(detail) => detail,
                None => "the conflicting state was preserved"@,
            },
        )
    } else {
        e
    }
}

/// Turns a usage error about a place into one about state.
pub fn post_mutation_layout_error(error: GroveError) -> (r: GroveError)
    ensures
        r@ == post_mutation(error@),
{
    if error.class == ExitClass::Usage {
        let GroveError { class: _, message, detail, exit_code: _ } = error;
        conflict(
            message,
            match detail {
                Some(detail) => detail,
                None => text("the conflicting state was preserved"),
            },
        )
    } else {
        error
    }
}

/// An error after something was created is never a usage error, and one that was no usage error
/// stays as it is.
pub proof fn errors_after_creation_are_no_usage_errors(e: ErrorView)
    ensures
        post_mutation(e).class != ExitClass::Usage,
        e.class != ExitClass::Usage ==> post_mutation(e) == e,
        post_mutation(e).message == e.message,
{
}

// ---------------------------------------------------------------- the transaction

/// Which branch a new grove starts on, and where its worktree goes.
#[derive(Debug)]
pub struct BranchPlan {
    /// The branch that was asked for, if one was.
    pub initial_branch: Option<Vec<u8>>,
    /// The branch that Git is expected to start on.
    pub expected: Vec<u8>,
    pub relative_worktree: Vec<u8>,
}

pub struct PlanView {
    pub initial: Option<Seq<u8>>,
    pub expected: Seq<u8>,
    pub relative: Seq<u8>,
}

impl View for BranchPlan {
    type V = PlanView;

    open spec fn view(&self) -> PlanView {
        PlanView {
            initial: opt_view(self.initial_branch),
            expected: self.expected@,
            relative: self.relative_worktree@,
        }
    }
}

pub open spec fn plan_outcome(r: Result<BranchPlan>) -> Outcome<PlanView> {
    match r {
        Ok(p) => Ok(p@),
        Err(e) => Err(e@),
    }
}

/// The branch that is expected: the one asked for, or the one that Git would choose.
pub open spec fn expected_run(s: Session, branch: Option<Seq<u8>>) -> (Session, Outcome<Seq<u8>>) {
    match branch {
        Some(b) => (s, Ok(b)),
        None => match step_ok(s, invoke(args2(lit("var"), lit("GIT_DEFAULT_BRANCH")))) {
            (s1, Err(e)) => (s1, Err(e)),
            (s1, Ok(out)) => (s1, one_line_of(out.stdout, "default branch"@)),
        },
    }
}

/// Checking the branch of a new grove before anything is created.
pub open spec fn preflight_run(s: Session, branch: Option<Seq<u8>>) -> (Session, Outcome<PlanView>) {
    match expected_run(s, branch) {
        (s1, Err(e)) => (s1, Err(e)),
        (s1, Ok(expected)) => match step(
            s1,
            invoke(args3(lit("check-ref-format"), lit("--branch"), expected)),
        ) {
            (s2, Err(e)) => (s2, Err(e)),
            (s2, Ok(out)) => if !out.ok() {
                (s2, Err(usage(escape(expected) + " is not a valid short branch name"@)))
            } else {
                match relative_place(expected) {
                    Err(e) => (s2, Err(e)),
                    Ok(relative) => (s2, Ok(PlanView { initial: branch, expected, relative })),
                }
            },
        },
    }
}

/// Checks the branch of a new grove before anything is created.
pub fn preflight_branch<R: GitRunner + ?Sized>(runner: &mut R, branch: Option<Vec<u8>>) -> (r: Result<
    BranchPlan,
>)
    ensures
        (final(runner).session(), plan_outcome(r)) == preflight_run(
            old(runner).session(),
            opt_view(branch),
        ),
{
    let expected = match &branch {
        Some(b) => copied(b.as_slice()),
        None => {
            let output = runner.run_ok(Invocation::new().word("var").word("GIT_DEFAULT_BRANCH"))?;
            trim_one_line(output.stdout, "default branch")?
        },
    };
    let checked = runner.run(
        Invocation::new().word("check-ref-format").word("--branch").arg(expected.as_slice()),
    )?;
    if !checked.ok() {
        return Err(
            GroveError::usage(
                escaped(expected.as_slice()).concat(" is not a valid short branch name"),
            ),
        );
    }
    let relative_worktree = validate_relative_worktree_path(expected.as_slice())?;
    Ok(BranchPlan { initial_branch: branch, expected, relative_worktree })
}

pub open spec fn init_args(initial: Option<Seq<u8>>, bare: Seq<u8>) -> Seq<Seq<u8>> {
    match initial {
        None => args4(lit("init"), lit("--quiet"), lit("--bare"), bare),
        Some(branch) => args6(
            lit("init"),
            lit("--quiet"),
            lit("--bare"),
            lit("--initial-branch"),
            branch,
            bare,
        ),
    }
}

pub open spec fn already_there(path: Seq<u8>, detail: &str) -> ErrorView {
    state_conflict_error(escape(path) + " already exists"@, detail@)
}

/// A record of a grove that was just created.
pub open spec fn fresh_record(
    branch: Seq<u8>,
    remote: Option<Seq<u8>>,
    state: PublishState,
) -> MetadataView {
    MetadataView {
        version: Some(FORMAT_VERSION),
        default_branch: Some(branch),
        remote,
        publish_state: state,
        publish_remote: None,
        publish_url: None,
        publish_provider: None,
        publish_owner: None,
        publish_name: None,
    }
}

/// The repository itself: Git's part, the pointer to it, and the branch it starts on.
pub open spec fn repository_run(
    s: Session,
    f: FileSession,
    root: HeldView,
    bare: HeldView,
    plan: PlanView,
    pointer: Nonces,
) -> (Session, FileSession, Outcome<()>) {
    match step_ok(s, invoke(init_args(plan.initial, bare.anchored))) {
        (s1, Err(e)) => (s1, f, Err(e)),
        (s1, Ok(_)) => match both_run(f, root, bare) {
            (f1, Err(e)) => (s1, f1, Err(e)),
            (f1, Ok(_)) => match write_absent_run(
                f1,
                child(root.anchored, lit(".git")),
                lit(POINTER_CONTENTS),
                TempStrategy::Auto,
                pointer,
            ) {
                (f2, Err(e)) => (s1, f2, Err(e)),
                (f2, Ok(created)) => if !created {
                    (
                        s1,
                        f2,
                        Err(
                            already_there(
                                child(root.named, lit(".git")),
                                "the existing entry was preserved",
                            ),
                        ),
                    )
                } else {
                    match both_run(f2, root, bare) {
                        (f3, Err(e)) => (s1, f3, Err(e)),
                        (f3, Ok(_)) => {
                            let (s2, r) = start_branch_run(s1, bare, plan);
                            (s2, f3, r)
                        },
                    }
                },
            },
        },
    }
}

/// Checking that the repository starts on the expected branch, and recording the grove.
pub open spec fn start_branch_run(s: Session, bare: HeldView, plan: PlanView) -> (
    Session,
    Outcome<()>,
) {
    match step_ok(
        s,
        invoke_in(bare.anchored, args3(lit("symbolic-ref"), lit("--short"), lit("HEAD"))),
    ) {
        (s1, Err(e)) => (s1, Err(e)),
        (s1, Ok(out)) => match one_line_of(out.stdout, "bare HEAD"@) {
            Err(e) => (s1, Err(e)),
            Ok(actual) => if actual != plan.expected {
                (
                    s1,
                    Err(
                        state_conflict_error(
                            "Git's default branch changed during initialization"@,
                            "expected "@ + escape(plan.expected) + ", found "@ + escape(actual),
                        ),
                    ),
                )
            } else {
                write_to_config_run(
                    s1,
                    child(bare.anchored, lit("config")),
                    fresh_record(plan.expected, None, PublishState::Unpublished),
                )
            },
        },
    }
}

fn create_repository<R: GitRunner + ?Sized, F: FileSystem + ?Sized>(
    runner: &mut R,
    files: &mut F,
    root: &HeldDirectory,
    bare: &HeldDirectory,
    plan: &BranchPlan,
) -> (r: Result<()>)
    ensures
        exists|pointer: Nonces|
            possible_nonces(pointer) && (
                final(runner).session(),
                final(files).files(),
                plain(r),
            ) == #[trigger] repository_run(
                old(runner).session(),
                old(files).files(),
                root@,
                bare@,
                plan@,
                pointer,
            ),
{
    let ghost s = runner.session();
    let ghost f = files.files();
    let ghost none: Nonces = Seq::empty();
    proof {
        assert(possible_nonces(none));
    }
    let mut invocation = Invocation::new().word("init").word("--quiet").word("--bare");
    if let Some(branch) = &plan.initial_branch {
        invocation = invocation.word("--initial-branch").arg(branch.as_slice());
    }
    invocation = invocation.arg(bare.anchored_path.as_slice());
    proof {
        assert(invocation@ == invoke(init_args(plan@.initial, bare@.anchored)));
    }
    if let Err(e) = runner.run_ok(invocation) {
        proof {
            assert((runner.session(), files.files(), Err::<(), ErrorView>(e@)) == repository_run(
                s,
                f,
                root@,
                bare@,
                plan@,
                none,
            ));
        }
        return Err(e);
    }
    if let Err(e) = validate_both(files, root, bare) {
        proof {
            assert((runner.session(), files.files(), Err::<(), ErrorView>(e@)) == repository_run(
                s,
                f,
                root@,
                bare@,
                plan@,
                none,
            ));
        }
        return Err(e);
    }
    let ghost f1 = files.files();
    let wrote = write_pointer_if_absent(files, root.anchored_path.as_slice());
    let ghost pointer = choose|drawn: Nonces|
        possible_nonces(drawn) && (files.files(), plain(wrote)) == #[trigger] write_absent_run(
            f1,
            child(root@.anchored, lit(".git")),
            lit(POINTER_CONTENTS),
            TempStrategy::Auto,
            drawn,
        );
    let r = match wrote {
        Err(e) => Err(e),
        Ok(created) => if !created {
            Err(
                conflict(
                    escaped(join_word(root.named_path.as_slice(), ".git").as_slice()).concat(
                        " already exists",
                    ),
                    text("the existing entry was preserved"),
                ),
            )
        } else {
            match validate_both(files, root, bare) {
                Err(e) => Err(e),
                Ok(_) => start_branch(runner, bare, plan),
            }
        },
    };
    proof {
        assert((runner.session(), files.files(), plain(r)) == repository_run(
            s,
            f,
            root@,
            bare@,
            plan@,
            pointer,
        ));
    }
    r
}

fn start_branch<R: GitRunner + ?Sized>(runner: &mut R, bare: &HeldDirectory, plan: &BranchPlan) -> (r:
    Result<()>)
    ensures
        (final(runner).session(), plain(r)) == start_branch_run(
            old(runner).session(),
            bare@,
            plan@,
        ),
{
    let output = runner.run_ok(
        Invocation::new().git_dir(bare.anchored_path.as_slice()).word("symbolic-ref").word(
            "--short",
        ).word("HEAD"),
    )?;
    let actual = trim_one_line(output.stdout, "bare HEAD")?;
    if !same(actual.as_slice(), plan.expected.as_slice()) {
        return Err(
            conflict(
                text("Git's default branch changed during initialization"),
                text("expected ").concat(escaped(plan.expected.as_slice()).as_str()).concat(
                    ", found ",
                ).concat(escaped(actual.as_slice()).as_str()),
            ),
        );
    }
    write_to_config(
        runner,
        join_word(bare.anchored_path.as_slice(), "config").as_slice(),
        &Metadata {
            version: Some(FORMAT_VERSION),
            default_branch: Some(actual),
            remote: None,
            publish_state: PublishState::Unpublished,
            publish_remote: None,
            publish_url: None,
            publish_provider: None,
            publish_owner: None,
            publish_name: None,
        },
    )
}

/// The guide in the root, and the link to it under another name.
pub open spec fn guide_run(
    f: FileSession,
    root: HeldView,
    bare: HeldView,
    guide: Seq<u8>,
    link: Seq<u8>,
    drawn: Nonces,
) -> (FileSession, Outcome<()>) {
    match both_run(f, root, bare) {
        (f1, Err(e)) => (f1, Err(e)),
        (f1, Ok(_)) => match write_absent_run(
            f1,
            child(root.anchored, lit("AGENTS.md")),
            guide,
            TempStrategy::Auto,
            drawn,
        ) {
            (f2, Err(e)) => (f2, Err(e)),
            (f2, Ok(created)) => if !created {
                (
                    f2,
                    Err(
                        already_there(
                            child(root.named, lit("AGENTS.md")),
                            "the existing entry was preserved",
                        ),
                    ),
                )
            } else {
                match symlink_absent_run(f2, child(root.anchored, link), lit("AGENTS.md")) {
                    (f3, Err(e)) => (f3, Err(e)),
                    (f3, Ok(linked)) => if !linked {
                        (
                            f3,
                            Err(
                                already_there(
                                    child(root.named, link),
                                    "the existing entry was preserved",
                                ),
                            ),
                        )
                    } else {
                        both_run(f3, root, bare)
                    },
                }
            },
        },
    }
}

fn write_guide<F: FileSystem + ?Sized>(
    files: &mut F,
    root: &HeldDirectory,
    bare: &HeldDirectory,
    guide: &[u8],
    link: &[u8],
) -> (r: Result<()>)
    ensures
        exists|drawn: Nonces|
            possible_nonces(drawn) && (final(files).files(), plain(r)) == #[trigger] guide_run(
                old(files).files(),
                root@,
                bare@,
                guide@,
                link@,
                drawn,
            ),
{
    let ghost f = files.files();
    let ghost none: Nonces = Seq::empty();
    proof {
        assert(possible_nonces(none));
    }
    if let Err(e) = validate_both(files, root, bare) {
        proof {
            assert((files.files(), Err::<(), ErrorView>(e@)) == guide_run(
                f,
                root@,
                bare@,
                guide@,
                link@,
                none,
            ));
        }
        return Err(e);
    }
    let ghost f1 = files.files();
    let agents = join_word(root.anchored_path.as_slice(), "AGENTS.md");
    let wrote = write_atomic_if_absent(files, agents.as_slice(), guide);
    let ghost drawn = choose|drawn: Nonces|
        possible_nonces(drawn) && (files.files(), plain(wrote)) == #[trigger] write_absent_run(
            f1,
            agents@,
            guide@,
            TempStrategy::Auto,
            drawn,
        );
    let r = match wrote {
        Err(e) => Err(e),
        Ok(created) => if !created {
            Err(
                conflict(
                    escaped(join_word(root.named_path.as_slice(), "AGENTS.md").as_slice()).concat(
                        " already exists",
                    ),
                    text("the existing entry was preserved"),
                ),
            )
        } else {
            match symlink_relative_if_absent(
                files,
                join_path(root.anchored_path.as_slice(), link).as_slice(),
                "AGENTS.md",
            ) {
                Err(e) => Err(e),
                Ok(linked) => if !linked {
                    Err(
                        conflict(
                            escaped(join_path(root.named_path.as_slice(), link).as_slice()).concat(
                                " already exists",
                            ),
                            text("the existing entry was preserved"),
                        ),
                    )
                } else {
                    validate_both(files, root, bare)
                },
            }
        },
    };
    proof {
        assert((files.files(), plain(r)) == guide_run(f, root@, bare@, guide@, link@, drawn));
    }
    r
}

/// Making a vacant place for the first worktree, below a root that is held. Its path is given
/// as the process reaches it.
pub open spec fn vacate_run(f: FileSession, root: HeldView, bare: HeldView, relative: Seq<u8>) -> (
    FileSession,
    Outcome<Seq<u8>>,
) {
    match place_run(f, root.named, relative) {
        (f1, Err(e)) => (f1, Err(post_mutation(e))),
        (f1, Ok(place)) => match parents_run(f1, place) {
            (f2, Err(e)) => (f2, Err(post_mutation(e))),
            (f2, Ok(_)) => match both_run(f2, root, bare) {
                (f3, Err(e)) => (f3, Err(e)),
                (f3, Ok(_)) => match vacant_run(f3, place_path(place)) {
                    (f4, Err(e)) => (f4, Err(post_mutation(e))),
                    (f4, Ok(_)) => (f4, Ok(child(root.anchored, place.relative))),
                },
            },
        },
    }
}

/// Makes a vacant place for the first worktree.
pub fn vacate<F: FileSystem + ?Sized>(
    files: &mut F,
    root: &HeldDirectory,
    bare: &HeldDirectory,
    relative: &[u8],
) -> (r: Result<Vec<u8>>)
    ensures
        (final(files).files(), bytes_outcome(r)) == vacate_run(
            old(files).files(),
            root@,
            bare@,
            relative@,
        ),
{
    let place = match validate_worktree_path(files, root.named_path.as_slice(), relative) {
        Err(e) => return Err(post_mutation_layout_error(e)),
        Ok(place) => place,
    };
    if let Err(e) = place.create_parent_directories(files) {
        return Err(post_mutation_layout_error(e));
    }
    validate_both(files, root, bare)?;
    if let Err(e) = place.validate_vacant(files) {
        return Err(post_mutation_layout_error(e));
    }
    Ok(join_path(root.anchored_path.as_slice(), place.relative.as_slice()))
}

/// The end of a transaction: the directories are still in place, and the root is a grove.
pub open spec fn settle_run(f: FileSession, root: HeldView, bare: HeldView, operation: Seq<char>) -> (
    FileSession,
    Outcome<Seq<u8>>,
) {
    match both_run(f, root, bare) {
        (f1, Err(e)) => (f1, Err(e)),
        (f1, Ok(_)) => match recognize_run(f1, root.named) {
            (f2, Err(e)) => (
                f2,
                Err(
                    state_conflict_error(
                        escape(root.named) + " changed during "@ + operation,
                        error_text(e),
                    ),
                ),
            ),
            (f2, Ok(grove)) => (f2, Ok(grove)),
        },
    }
}

/// Ends a transaction.
pub fn settle_grove<F: FileSystem + ?Sized>(
    files: &mut F,
    root: &HeldDirectory,
    bare: &HeldDirectory,
    operation: &str,
) -> (r: Result<Grove>)
    ensures
        (final(files).files(), grove_outcome(r)) == settle_run(
            old(files).files(),
            root@,
            bare@,
            operation@,
        ),
{
    validate_both(files, root, bare)?;
    match recognize_grove(files, root.named_path.as_slice()) {
        Err(e) => Err(
            conflict(
                escaped(root.named_path.as_slice()).concat(" changed during ").concat(operation),
                e.to_text(),
            ),
        ),
        Ok(grove) => Ok(grove),
    }
}

/// The first worktree of a new repository, on a branch that has no commit yet.
pub open spec fn first_worktree_run(
    s: Session,
    f: FileSession,
    root: HeldView,
    bare: HeldView,
    plan: PlanView,
) -> (Session, FileSession, Outcome<Seq<u8>>) {
    match vacate_run(f, root, bare, plan.relative) {
        (f1, Err(e)) => (s, f1, Err(e)),
        (f1, Ok(path)) => match step_ok(
            s,
            invoke_in(
                bare.anchored,
                args6(
                    lit("worktree"),
                    lit("add"),
                    lit("--orphan"),
                    lit("-b"),
                    plan.expected,
                    path,
                ),
            ),
        ) {
            (s1, Err(e)) => (s1, f1, Err(e)),
            (s1, Ok(_)) => {
                let (f2, r) = settle_run(f1, root, bare, "initialization"@);
                (s1, f2, r)
            },
        },
    }
}

/// What goes into an opened root: the repository, the guide, and the first worktree.
#[verifier::opaque]
pub open spec fn populate_run(
    s: Session,
    f: FileSession,
    root: HeldView,
    bare: HeldView,
    plan: PlanView,
    guide: Seq<u8>,
    link: Seq<u8>,
    pointer: Nonces,
    drawn: Nonces,
) -> (Session, FileSession, Outcome<Seq<u8>>) {
    match repository_run(s, f, root, bare, plan, pointer) {
        (s1, f1, Err(e)) => (s1, f1, Err(e)),
        (s1, f1, Ok(_)) => match guide_run(f1, root, bare, guide, link, drawn) {
            (f2, Err(e)) => (s1, f2, Err(e)),
            (f2, Ok(_)) => first_worktree_run(s1, f2, root, bare, plan),
        },
    }
}

/// Whether an outcome is one that filling an opened root can have.
pub open spec fn populated(
    s: Session,
    f: FileSession,
    root: HeldView,
    bare: HeldView,
    plan: PlanView,
    guide: Seq<u8>,
    link: Seq<u8>,
    s1: Session,
    f1: FileSession,
    r: Outcome<Seq<u8>>,
) -> bool {
    exists|pointer: Nonces, drawn: Nonces|
        possible_nonces(pointer) && possible_nonces(drawn) && (s1, f1, r)
            == #[trigger] populate_run(s, f, root, bare, plan, guide, link, pointer, drawn)
}

/// Fills an opened root. `runner` is the one that is guarded by the two directories; `guide` is
/// what `AGENTS.md` is to hold, and `link` the other name it is to be found under.
pub fn populate<R: GitRunner + ?Sized, F: FileSystem + ?Sized>(
    runner: &mut R,
    files: &mut F,
    root: &HeldDirectory,
    bare: &HeldDirectory,
    plan: &BranchPlan,
    guide: &[u8],
    link: &[u8],
) -> (r: Result<Grove>)
    ensures
        populated(
            old(runner).session(),
            old(files).files(),
            root@,
            bare@,
            plan@,
            guide@,
            link@,
            final(runner).session(),
            final(files).files(),
            grove_outcome(r),
        ),
{
    let ghost s = runner.session();
    let ghost f = files.files();
    let ghost none: Nonces = Seq::empty();
    proof {
        reveal(populate_run);
        assert(possible_nonces(none));
    }
    let created = create_repository(runner, files, root, bare, plan);
    let ghost pointer = choose|pointer: Nonces|
        possible_nonces(pointer) && (runner.session(), files.files(), plain(created))
            == #[trigger] repository_run(s, f, root@, bare@, plan@, pointer);
    if let Err(e) = created {
        proof {
            assert((runner.session(), files.files(), Err::<Seq<u8>, ErrorView>(e@))
                == populate_run(s, f, root@, bare@, plan@, guide@, link@, pointer, none));
        }
        return Err(e);
    }
    let ghost f1 = files.files();
    let guided = write_guide(files, root, bare, guide, link);
    let ghost drawn = choose|drawn: Nonces|
        possible_nonces(drawn) && (files.files(), plain(guided)) == #[trigger] guide_run(
            f1,
            root@,
            bare@,
            guide@,
            link@,
            drawn,
        );
    if let Err(e) = guided {
        proof {
            assert((runner.session(), files.files(), Err::<Seq<u8>, ErrorView>(e@))
                == populate_run(s, f, root@, bare@, plan@, guide@, link@, pointer, drawn));
        }
        return Err(e);
    }
    let r = first_worktree(runner, files, root, bare, plan);
    proof {
        assert((runner.session(), files.files(), grove_outcome(r)) == populate_run(
            s,
            f,
            root@,
            bare@,
            plan@,
            guide@,
            link@,
            pointer,
            drawn,
        ));
    }
    r
}

fn first_worktree<R: GitRunner + ?Sized, F: FileSystem + ?Sized>(
    runner: &mut R,
    files: &mut F,
    root: &HeldDirectory,
    bare: &HeldDirectory,
    plan: &BranchPlan,
) -> (r: Result<Grove>)
    ensures
        (final(runner).session(), final(files).files(), grove_outcome(r)) == first_worktree_run(
            old(runner).session(),
            old(files).files(),
            root@,
            bare@,
            plan@,
        ),
{
    let path = vacate(files, root, bare, plan.relative_worktree.as_slice())?;
    runner.run_ok(
        Invocation::new().git_dir(bare.anchored_path.as_slice()).word("worktree").word("add").word(
            "--orphan",
        ).word("-b").arg(plan.expected.as_slice()).arg(path.as_slice()),
    )?;
    settle_grove(files, root, bare, "initialization")
}

/// Opening the root and the bare repository in it. Besides the outcome: whether anything was
/// created, and what.
#[verifier::opaque]
pub open spec fn open_grove_run(f: FileSession, root: Seq<u8>) -> (
    FileSession,
    bool,
    RecoveryState,
    Outcome<(HeldView, HeldView)>,
) {
    let none = RecoveryState { root: None, bare: None };
    match open_root_run(f, root, false) {
        (f1, mutated, Err(e)) => (f1, mutated, none, Err(e)),
        (f1, mutated, Ok(held)) => match held_identity_run(f1, held.handle) {
            (f2, Err(e)) => (f2, mutated, none, Err(e)),
            (f2, Ok(i)) => {
                let rooted = RecoveryState {
                    root: Some(DirectoryIdentity { device: i.dev, inode: i.ino }),
                    bare: None,
                };
                match create_bare_run(f2, held, mutated) {
                    (f3, mutated3, Err(e)) => (f3, mutated3, rooted, Err(e)),
                    (f3, mutated3, Ok(bare)) => match held_identity_run(f3, bare.handle) {
                        (f4, Err(e)) => (f4, mutated3, rooted, Err(e)),
                        (f4, Ok(j)) => (
                            f4,
                            mutated3,
                            RecoveryState {
                                root: rooted.root,
                                bare: Some(DirectoryIdentity { device: j.dev, inode: j.ino }),
                            },
                            Ok((held, bare)),
                        ),
                    },
                }
            },
        },
    }
}

pub open spec fn opened_outcome(r: Result<(HeldDirectory, HeldDirectory)>) -> Outcome<
    (HeldView, HeldView),
> {
    match r {
        Ok(p) => Ok((p.0@, p.1@)),
        Err(e) => Err(e@),
    }
}

/// Opens the root and the bare repository in it.
pub(crate) fn open_grove<F: FileSystem + ?Sized>(
    files: &mut F,
    root: &[u8],
    mutated: &mut bool,
    recovery: &mut RecoveryState,
) -> (r: Result<(HeldDirectory, HeldDirectory)>)
    requires
        !*old(mutated),
        *old(recovery) == (RecoveryState { root: None, bare: None }),
    ensures
        (final(files).files(), *final(mutated), *final(recovery), opened_outcome(r))
            == open_grove_run(old(files).files(), root@),
{
    proof {
        reveal(open_grove_run);
    }
    let held = open_or_create_root(files, root, mutated)?;
    let i = held.identity(files)?;
    recovery.root = Some(DirectoryIdentity { device: i.dev, inode: i.ino });
    let bare = create_bare(files, &held, mutated)?;
    let j = bare.identity(files)?;
    recovery.bare = Some(DirectoryIdentity { device: j.dev, inode: j.ino });
    Ok((held, bare))
}

/// The directory that a new grove is to fill.
pub open spec fn requested_root(dir: Option<Seq<u8>>, cwd: Seq<u8>) -> Seq<u8> {
    match dir {
        Some(d) => child(cwd, d),
        None => cwd,
    }
}

/// A failed transaction as it is reported: with what was kept, if anything was created.
pub open spec fn reported_run(
    f: FileSession,
    e: ErrorView,
    root: Seq<u8>,
    mutated: bool,
    recovery: RecoveryState,
    operation: Seq<char>,
) -> (FileSession, Outcome<Seq<u8>>) {
    if mutated {
        let (f1, kept) = retain_run(f, e, root, recovery, operation);
        (f1, Err(kept))
    } else {
        (f, Err(e))
    }
}

/// Reports a failed transaction.
pub fn report_failure<F: FileSystem + ?Sized>(
    files: &mut F,
    error: GroveError,
    root: &[u8],
    mutated: bool,
    recovery: RecoveryState,
    operation: &str,
) -> (r: Result<Grove>)
    ensures
        (final(files).files(), grove_outcome(r)) == reported_run(
            old(files).files(),
            error@,
            root@,
            mutated,
            recovery,
            operation@,
        ),
{
    if mutated {
        Err(retain_partial(files, error, root, recovery, operation))
    } else {
        Err(error)
    }
}

/// Opening a root, filling it, and reporting what was kept where that fails. `g` is what the
/// guard of the two directories goes by. Every child runs behind the guard: where the runner and
/// the guard's file system end is where the guarded children have led them.
pub open spec fn transact_run(
    s: Session,
    f: FileSession,
    g: FileSession,
    root: Seq<u8>,
    plan: PlanView,
    guide: Seq<u8>,
    link: Seq<u8>,
    pointer: Nonces,
    drawn: Nonces,
) -> (Session, FileSession, FileSession, Outcome<Seq<u8>>) {
    match open_grove_run(f, root) {
        (f1, mutated, recovery, Err(e)) => {
            let (f2, r) = reported_run(f1, e, root, mutated, recovery, "initialization"@);
            (s, f2, g, r)
        },
        (f1, mutated, recovery, Ok((held, bare))) => {
            let (s2, f2, filled) = populate_run(
                guarded_session(s, g, held, bare),
                f1,
                held,
                bare,
                plan,
                guide,
                link,
                pointer,
                drawn,
            );
            let (s3, g3) = beneath(s2);
            match filled {
                Err(e) => {
                    let (f3, r) = reported_run(
                        f2,
                        e,
                        root,
                        mutated,
                        recovery,
                        "initialization"@,
                    );
                    (s3, f3, g3, r)
                },
                Ok(grove) => (s3, f2, g3, Ok(grove)),
            }
        },
    }
}

/// Opens a root, fills it, and reports what was kept where that fails. The runner and the guard's
/// file system are given back.
pub fn run_transaction<R: GitRunner, F: FileSystem + ?Sized, G: FileSystem>(
    runner: R,
    files: &mut F,
    guard: G,
    root: &[u8],
    plan: &BranchPlan,
    guide: &[u8],
    link: &[u8],
) -> (r: (Result<Grove>, R, G))
    ensures
        exists|pointer: Nonces, drawn: Nonces|
            possible_nonces(pointer) && possible_nonces(drawn) && (
                r.1.session(),
                final(files).files(),
                r.2.files(),
                grove_outcome(r.0),
            ) == #[trigger] transact_run(
                runner.session(),
                old(files).files(),
                guard.files(),
                root@,
                plan@,
                guide@,
                link@,
                pointer,
                drawn,
            ),
{
    let ghost s = runner.session();
    let ghost f = files.files();
    let ghost g = guard.files();
    let ghost none: Nonces = Seq::empty();
    let mut mutated: bool = false;
    let mut recovery = RecoveryState { root: None, bare: None };
    let (held, bare) = match open_grove(files, root, &mut mutated, &mut recovery) {
        Err(e) => {
            let r = report_failure(files, e, root, mutated, recovery, "initialization");
            proof {
                assert(possible_nonces(none));
                assert((s, files.files(), g, grove_outcome(r)) == transact_run(
                    s,
                    f,
                    g,
                    root@,
                    plan@,
                    guide@,
                    link@,
                    none,
                    none,
                ));
            }
            return (r, runner, guard);
        },
        Ok(p) => p,
    };
    let ghost f1 = files.files();
    let mut guarded = GuardedRunner::new(runner, guard, held.copied(), bare.copied());
    let filled = populate(&mut guarded, files, &held, &bare, plan, guide, link);
    let ghost gs = guarded_session(s, g, held@, bare@);
    let ghost (pointer, drawn) = choose|pointer: Nonces, drawn: Nonces|
        possible_nonces(pointer) && possible_nonces(drawn) && (
            guarded.session(),
            files.files(),
            grove_outcome(filled),
        ) == #[trigger] populate_run(
            gs,
            f1,
            held@,
            bare@,
            plan@,
            guide@,
            link@,
            pointer,
            drawn,
        );
    let r = match filled {
        Err(e) => report_failure(files, e, root, mutated, recovery, "initialization"),
        Ok(grove) => Ok(grove),
    };
    let (runner, guard) = guarded.into_parts();
    proof {
        assert((runner.session(), files.files(), guard.files(), grove_outcome(r))
            == transact_run(s, f, g, root@, plan@, guide@, link@, pointer, drawn));
    }
    (r, runner, guard)
}

/// Creating a grove.
pub open spec fn init_run(
    s: Session,
    f: FileSession,
    g: FileSession,
    dir: Option<Seq<u8>>,
    branch: Option<Seq<u8>>,
    cwd: Seq<u8>,
    guide: Seq<u8>,
    link: Seq<u8>,
    pointer: Nonces,
    drawn: Nonces,
) -> (Session, FileSession, FileSession, Outcome<Seq<u8>>) {
    match normalized(requested_root(dir, cwd)) {
        Err(e) => (s, f, g, Err(e)),
        Ok(root) => match preflight_run(s, branch) {
            (s1, Err(e)) => (s1, f, g, Err(e)),
            (s1, Ok(plan)) => transact_run(s1, f, g, root, plan, guide, link, pointer, drawn),
        },
    }
}

/// Creates a grove. Every Git child after the directories are open goes through a guard, which
/// has its own way to the file system. The runner and the guard's file system are given back.
pub fn run<R: GitRunner, F: FileSystem + ?Sized, G: FileSystem>(
    runner: R,
    files: &mut F,
    guard: G,
    dir: Option<Vec<u8>>,
    branch: Option<Vec<u8>>,
    cwd: &[u8],
    guide: &[u8],
    link: &[u8],
) -> (r: (Result<Grove>, R, G))
    ensures
        exists|pointer: Nonces, drawn: Nonces|
            possible_nonces(pointer) && possible_nonces(drawn) && (
                r.1.session(),
                final(files).files(),
                r.2.files(),
                grove_outcome(r.0),
            ) == #[trigger] init_run(
                runner.session(),
                old(files).files(),
                guard.files(),
                opt_view(dir),
                opt_view(branch),
                cwd@,
                guide@,
                link@,
                pointer,
                drawn,
            ),
{
    let ghost s = runner.session();
    let ghost f = files.files();
    let ghost g = guard.files();
    let ghost d = opt_view(dir);
    let ghost b = opt_view(branch);
    let ghost none: Nonces = Seq::empty();
    proof {
        assert(possible_nonces(none));
    }
    let requested = match &dir {
        Some(dir) => join_path(cwd, dir.as_slice()),
        None => copied(cwd),
    };
    let root = match normalize_absolute(requested.as_slice()) {
        Err(e) => {
            proof {
                assert((s, f, g, Err::<Seq<u8>, ErrorView>(e@)) == init_run(
                    s,
                    f,
                    g,
                    d,
                    b,
                    cwd@,
                    guide@,
                    link@,
                    none,
                    none,
                ));
            }
            return (Err(e), runner, guard);
        },
        Ok(root) => root,
    };
    let mut runner = runner;
    let plan = match preflight_branch(&mut runner, branch) {
        Err(e) => {
            proof {
                assert((runner.session(), f, g, Err::<Seq<u8>, ErrorView>(e@)) == init_run(
                    s,
                    f,
                    g,
                    d,
                    b,
                    cwd@,
                    guide@,
                    link@,
                    none,
                    none,
                ));
            }
            return (Err(e), runner, guard);
        },
        Ok(plan) => plan,
    };
    let ghost s1 = runner.session();
    let (r, runner, guard) = run_transaction(
        runner,
        files,
        guard,
        root.as_slice(),
        &plan,
        guide,
        link,
    );
    proof {
        let (pointer, drawn) = choose|pointer: Nonces, drawn: Nonces|
            possible_nonces(pointer) && possible_nonces(drawn) && (
                runner.session(),
                files.files(),
                guard.files(),
                grove_outcome(r),
            ) == #[trigger] transact_run(
                s1,
                f,
                g,
                root@,
                plan@,
                guide@,
                link@,
                pointer,
                drawn,
            );
        assert((runner.session(), files.files(), guard.files(), grove_outcome(r)) == init_run(
            s,
            f,
            g,
            d,
            b,
            cwd@,
            guide@,
            link@,
            pointer,
            drawn,
        ));
    }
    (r, runner, guard)
}

} // verus!

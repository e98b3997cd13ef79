//! Where a grove keeps what: its pointer file, and the places its worktrees may have.
use vstd::prelude::*;
use crate::bytes::{copied, is_lit, lemma_views_push, lit, split, views, SLASH};
use crate::error::{
    bytes_outcome, detailed, failure, needs_decision, plain, usage, ErrorView, ExitClass, GroveError,
    Result,
};
use crate::fsx::files::{
    ask_bytes, ask_facts, ask_names, bytes_step, do_request, done_step, facts_step, names_step,
    FailureKind, FileRequest, FileSession, FileSystem, IoFailure,
};
use crate::fsx::held::FileKind;
use crate::fsx::write::{write_atomic_if_absent, written_if_absent};
use crate::git::config::Outcome;
use crate::grove::discover::Grove;
use crate::path::{
    absolute, child, components, components_are_named, is_absolute, is_within, join_path, join_word,
    joined_names, joined_names_split_again, joining_adds_components, names_one, part_text, part_views, parts,
    later_parts, render, rendered, same_path, within, written_components_read_back, Component, Part,
};
use crate::text::{escape, escaped, text};

verus! {

broadcast use lemma_views_push;

/// What the `.git` file in a grove's root holds: the way to the bare repository.
pub const POINTER_CONTENTS: &'static str = "gitdir: ./.bare\n";

/// Writes the pointer file, unless something of that name is there.
pub fn write_pointer_if_absent<F: FileSystem + ?Sized>(files: &mut F, root: &[u8]) -> (r: Result<
    bool,
>)
    ensures
        written_if_absent(
            old(files).files(),
            child(root@, lit(".git")),
            lit(POINTER_CONTENTS),
            final(files).files(),
            plain(r),
        ),
{
    write_atomic_if_absent(
        files,
        join_word(root, ".git").as_slice(),
        POINTER_CONTENTS.as_bytes(),
    )
}

/// The names among the first `n` components, when nothing else is among them but `.`.
pub open spec fn plain_names(list: Seq<Part>, n: int) -> Option<Seq<Seq<u8>>>
    decreases n,
{
    if n <= 0 {
        Some(seq![])
    } else {
        match plain_names(list, n - 1) {
            None => None,
            Some(names) => match list[n - 1] {
                Part::Normal(name) => Some(names.push(name)),
                Part::Current => Some(names),
                _ => None,
            },
        }
    }
}

pub open spec fn outside(path: Seq<u8>) -> ErrorView {
    usage("the worktree path "@ + escape(path) + " must stay below the grove root"@)
}

/// A worktree's place relative to the grove's root: below it, and not in the way of what the
/// grove itself keeps there.
pub open spec fn relative_place(path: Seq<u8>) -> Outcome<Seq<u8>> {
    if absolute(path) {
        Err(outside(path))
    } else {
        match plain_names(parts(path), parts(path).len() as int) {
            None => Err(outside(path)),
            Some(names) => if names.len() == 0 {
                Err(outside(path))
            } else if names[0] == lit(".git") || names[0] == lit(".bare") {
                Err(usage("the worktree path "@ + escape(path) + " is reserved"@))
            } else {
                Ok(joined_names(names))
            },
        }
    }
}

proof fn lemma_plain_names(list: Seq<Part>, n: int)
    requires
        0 <= n <= list.len(),
        plain_names(list, n) is Some,
        forall|i: int|
            0 <= i < list.len() ==> match #[trigger] list[i] {
                Part::Normal(name) => names_one(name),
                _ => true,
            },
    ensures
        forall|i: int|
            0 <= i < plain_names(list, n)->Some_0.len() ==> names_one(
                #[trigger] plain_names(list, n)->Some_0[i],
            ),
    decreases n,
{
    if n > 0 {
        lemma_plain_names(list, n - 1);
        assert(match list[n - 1] {
            Part::Normal(name) => names_one(name),
            _ => true,
        });
    }
}

/// Every place that a worktree is given lies strictly below the grove's root.
pub proof fn places_lie_below_the_root(root: Seq<u8>, requested: Seq<u8>)
    requires
        root.len() > 0,
        place_of(root, requested) is Ok,
    ensures
        within(child(root, place_of(root, requested)->Ok_0), root),
        parts(child(root, place_of(root, requested)->Ok_0)).len() > parts(root).len(),
{
    if absolute(requested) {
        let rest = parts(requested).subrange(
            parts(root).len() as int,
            parts(requested).len() as int,
        );
        relative_places_lie_below_the_root(root, rendered(rest, rest.len() as int));
    } else {
        relative_places_lie_below_the_root(root, requested);
    }
}

/// Every relative place lies strictly below whatever root it is taken from.
pub proof fn relative_places_lie_below_the_root(root: Seq<u8>, path: Seq<u8>)
    requires
        root.len() > 0,
        relative_place(path) is Ok,
    ensures
        within(child(root, relative_place(path)->Ok_0), root),
        parts(child(root, relative_place(path)->Ok_0)).len() > parts(root).len(),
{
    let n = parts(path).len() as int;
    components_are_named(path);
    lemma_plain_names(parts(path), n);
    let names = plain_names(parts(path), n)->Some_0;
    joined_names_split_again(names);
    joining_adds_components(root, joined_names(names));
}

/// The names that a relative path is made of are what it adds to the path that it is joined to.
proof fn lemma_names_added(fields: Seq<Seq<u8>>, n: int)
    requires
        0 <= n <= fields.len(),
        plain_names(
            crate::path::field_parts(fields, n),
            crate::path::field_parts(fields, n).len() as int,
        ) is Some,
    ensures
        later_parts(fields, n) == plain_names(
            crate::path::field_parts(fields, n),
            crate::path::field_parts(fields, n).len() as int,
        )->Some_0.map_values(|name: Seq<u8>| Part::Normal(name)),
    decreases n,
{
    let list = crate::path::field_parts(fields, n);
    if n > 0 {
        let front = crate::path::field_parts(fields, n - 1);
        match crate::path::field_part(fields[n - 1], n == 1) {
            Some(part) => {
                lemma_same_names(front, list, front.len() as int);
                assert(list.len() == front.len() + 1);
                assert(list[list.len() - 1] == part);
                lemma_names_added(fields, n - 1);
                let names = plain_names(front, front.len() as int)->Some_0;
                match part {
                    Part::Normal(name) => {
                        assert(names.push(name).map_values(|name: Seq<u8>| Part::Normal(name))
                            =~= names.map_values(|name: Seq<u8>| Part::Normal(name)).push(part));
                    },
                    _ => {},
                }
            },
            None => {
                lemma_names_added(fields, n - 1);
            },
        }
    } else {
        assert(plain_names(list, list.len() as int)->Some_0.map_values(
            |name: Seq<u8>| Part::Normal(name),
        ) =~= seq![]);
    }
}

proof fn lemma_same_names(a: Seq<Part>, b: Seq<Part>, n: int)
    requires
        n <= a.len(),
        n <= b.len(),
        forall|i: int| 0 <= i < n ==> #[trigger] a[i] == b[i],
    ensures
        plain_names(a, n) == plain_names(b, n),
    decreases n,
{
    if n > 0 {
        lemma_same_names(a, b, n - 1);
        assert(a[n - 1] == b[n - 1]);
    }
}

/// A relative place is the one that was asked for, from whatever root it is taken.
pub proof fn lemma_relative_place(root: Seq<u8>, path: Seq<u8>)
    requires
        root.len() > 0,
        relative_place(path) is Ok,
    ensures
        !absolute(relative_place(path)->Ok_0),
        same_path(child(root, relative_place(path)->Ok_0), child(root, path)),
        parts(child(root, path)).len() > parts(root).len(),
        parts(child(root, path))[parts(root).len() as int] != Part::Normal(lit(".git")),
        parts(child(root, path))[parts(root).len() as int] != Part::Normal(lit(".bare")),
{
    let n = parts(path).len() as int;
    let fields = split(path, SLASH);
    components_are_named(path);
    lemma_plain_names(parts(path), n);
    let names = plain_names(parts(path), n)->Some_0;
    joined_names_split_again(names);
    joining_adds_components(root, joined_names(names));
    joining_adds_components(root, path);
    lemma_names_added(fields, fields.len() as int);
    let list = names.map_values(|name: Seq<u8>| Part::Normal(name));
    assert(list[0] == Part::Normal(names[0]));
    assert(parts(child(root, path))[parts(root).len() as int] == list[0]);
}

/// A place is the one that was asked for, taken from the grove's root, and is not one that the
/// grove keeps for itself.
pub proof fn places_are_as_asked(root: Seq<u8>, requested: Seq<u8>)
    requires
        root.len() > 0,
        place_of(root, requested) is Ok,
    ensures
        same_path(child(root, place_of(root, requested)->Ok_0), child(root, requested)),
        parts(child(root, requested)).len() > parts(root).len(),
        parts(child(root, requested))[parts(root).len() as int] != Part::Normal(lit(".git")),
        parts(child(root, requested))[parts(root).len() as int] != Part::Normal(lit(".bare")),
{
    if absolute(requested) {
        let m = parts(root).len() as int;
        let all = parts(requested);
        let rest = all.subrange(m, all.len() as int);
        let below = rendered(rest, rest.len() as int);
        lemma_rooted(requested);
        lemma_rooted(root);
        assert(m > 0);
        components_are_named(requested);
        assert forall|i: int| 0 <= i < rest.len() implies match #[trigger] rest[i] {
            Part::Normal(name) => names_one(name),
            Part::Parent => true,
            _ => false,
        } by {
            assert(rest[i] == all[m + i]);
        }
        written_components_read_back(rest, rest.len() as int);
        assert(rest.take(rest.len() as int) =~= rest);
        lemma_relative_place(root, below);
        joining_adds_components(root, below);
        let fields = split(below, SLASH);
        lemma_names_added(fields, fields.len() as int);
        let names = plain_names(rest, rest.len() as int)->Some_0;
        lemma_only_names(rest, rest.len() as int);
        assert(parts(root) + rest =~= all) by {
            assert(all.subrange(0, m) == parts(root));
        }
    } else {
        lemma_relative_place(root, requested);
    }
}

/// Where there is no `.` among some components, their names are all there is.
proof fn lemma_only_names(list: Seq<Part>, n: int)
    requires
        0 <= n <= list.len(),
        plain_names(list, n) is Some,
        forall|i: int| 0 <= i < n ==> #[trigger] list[i] != Part::Current,
    ensures
        plain_names(list, n)->Some_0.map_values(|name: Seq<u8>| Part::Normal(name)) == list.take(
            n,
        ),
    decreases n,
{
    if n > 0 {
        lemma_only_names(list, n - 1);
        assert(list[n - 1] != Part::Current);
        let names = plain_names(list, n - 1)->Some_0;
        match list[n - 1] {
            Part::Normal(name) => {
                assert(names.push(name).map_values(|name: Seq<u8>| Part::Normal(name))
                    =~= names.map_values(|name: Seq<u8>| Part::Normal(name)).push(list[n - 1]));
                assert(list.take(n) =~= list.take(n - 1).push(list[n - 1]));
            },
            _ => {},
        }
    } else {
        assert(plain_names(list, n)->Some_0.map_values(|name: Seq<u8>| Part::Normal(name))
            =~= list.take(0));
    }
}

/// A path that is not empty has a component; an absolute one has its root, which nothing else has,
/// and no `.`.
proof fn lemma_rooted(path: Seq<u8>)
    requires
        path.len() > 0,
    ensures
        parts(path).len() > 0,
        absolute(path) ==> forall|i: int|
            0 < i < parts(path).len() ==> #[trigger] parts(path)[i] != Part::Root && parts(path)[i]
                != Part::Current,
{
    let fields = split(path, SLASH);
    crate::bytes::lemma_split_fields(path, SLASH);
    crate::bytes::lemma_find_bounds(path, SLASH, 0);
    lemma_no_root(fields, fields.len() as int);
    if absolute(path) {
        let named = crate::path::field_parts(fields, fields.len() as int);
        assert(fields[0].len() == 0);
        assert forall|i: int| 0 < i < parts(path).len() implies #[trigger] parts(path)[i]
            != Part::Root && parts(path)[i] != Part::Current by {
            assert(parts(path)[i] == named[i - 1]);
        }
    } else {
        lemma_first_part(fields, fields.len() as int);
    }
}

proof fn lemma_no_root(fields: Seq<Seq<u8>>, n: int)
    requires
        0 <= n <= fields.len(),
    ensures
        forall|i: int|
            0 <= i < crate::path::field_parts(fields, n).len()
                ==> #[trigger] crate::path::field_parts(fields, n)[i] != Part::Root && (
            fields[0].len() == 0 ==> crate::path::field_parts(fields, n)[i] != Part::Current),
    decreases n,
{
    if n > 0 {
        lemma_no_root(fields, n - 1);
    }
}

proof fn lemma_first_part(fields: Seq<Seq<u8>>, n: int)
    requires
        1 <= n <= fields.len(),
        fields[0].len() > 0,
    ensures
        crate::path::field_parts(fields, n).len() > 0,
    decreases n,
{
    if n > 1 {
        lemma_first_part(fields, n - 1);
    }
}

fn outside_error(path: &[u8]) -> (r: GroveError)
    ensures
        r@ == outside(path@),
{
    GroveError::usage(
        text("the worktree path ").concat(escaped(path).as_str()).concat(
            " must stay below the grove root",
        ),
    )
}

/// Checks a worktree's place relative to the grove's root.
pub fn validate_relative_worktree_path(path: &[u8]) -> (r: Result<Vec<u8>>)
    ensures
        bytes_outcome(r) == relative_place(path@),
{
    if is_absolute(path) {
        return Err(outside_error(path));
    }
    let list = components(path);
    let ghost all = parts(path@);
    let mut names: Vec<Vec<u8>> = Vec::new();
    let mut bytes: Vec<u8> = Vec::new();
    let mut i: usize = 0;
    proof {
        assert(part_views(list@).len() == list@.len());
        assert(views(names@) =~= seq![]);
        assert(bytes@ =~= seq![]);
    }
    while i < list.len()
        invariant
            i <= list.len(),
            !absolute(path@),
            all == parts(path@),
            part_views(list@) == all,
            all.len() == list@.len(),
            plain_names(all, i as int) == Some(views(names@)),
            views(names@).len() == names@.len(),
            bytes@ == joined_names(views(names@)),
        decreases list.len() - i,
    {
        broadcast use lemma_views_push;

        proof {
            assert(all[i as int] == list@[i as int]@);
        }
        match &list[i] {
            Component::Normal(name) => {
                let ghost before = views(names@);
                if names.len() > 0 {
                    bytes.push(crate::bytes::SLASH);
                }
                bytes.extend_from_slice(name.as_slice());
                names.push(copied(name.as_slice()));
                proof {
                    assert(before.push(name@).drop_last() =~= before);
                    assert(views(names@) == before.push(name@));
                }
            },
            Component::Current => {},
            _ => {
                proof {
                    lemma_refused(all, i + 1, all.len() as int);
                }
                return Err(outside_error(path));
            },
        }
        i = i + 1;
    }
    if names.len() == 0 {
        return Err(outside_error(path));
    }
    proof {
        assert(views(names@)[0] == names@[0]@);
    }
    if is_lit(names[0].as_slice(), ".git") || is_lit(names[0].as_slice(), ".bare") {
        return Err(
            GroveError::usage(
                text("the worktree path ").concat(escaped(path).as_str()).concat(" is reserved"),
            ),
        );
    }
    Ok(bytes)
}

proof fn lemma_refused(list: Seq<Part>, n: int, m: int)
    requires
        n <= m,
        plain_names(list, n) is None,
    ensures
        plain_names(list, m) is None,
    decreases m - n,
{
    if n < m {
        lemma_refused(list, n, m - 1);
    }
}

/// A worktree's place relative to the grove's root, from what was asked for: a path relative to
/// the root, or an absolute one below it.
pub open spec fn place_of(root: Seq<u8>, requested: Seq<u8>) -> Outcome<Seq<u8>> {
    if absolute(requested) {
        if within(requested, root) {
            let rest = parts(requested).subrange(
                parts(root).len() as int,
                parts(requested).len() as int,
            );
            relative_place(rendered(rest, rest.len() as int))
        } else {
            Err(outside(requested))
        }
    } else {
        relative_place(requested)
    }
}

fn requested_place(root: &[u8], requested: &[u8]) -> (r: Result<Vec<u8>>)
    ensures
        bytes_outcome(r) == place_of(root@, requested@),
{
    if !is_absolute(requested) {
        return validate_relative_worktree_path(requested);
    }
    if !is_within(requested, root) {
        return Err(outside_error(requested));
    }
    let list = components(requested);
    let head = components(root);
    proof {
        assert(part_views(list@).len() == list@.len());
        assert(part_views(head@).len() == head@.len());
    }
    let n: usize = head.len();
    let mut list = list;
    let ghost all = part_views(list@);
    let rest = list.split_off(n);
    proof {
        assert(part_views(rest@) =~= all.subrange(n as int, all.len() as int));
    }
    let below = render(&rest, rest.len());
    validate_relative_worktree_path(below.as_slice())
}

/// A place for a worktree.
#[derive(Debug)]
pub struct WorktreePlace {
    pub root: Vec<u8>,
    pub relative: Vec<u8>,
}

pub struct PlaceView {
    pub root: Seq<u8>,
    pub relative: Seq<u8>,
}

impl View for WorktreePlace {
    type V = PlaceView;

    open spec fn view(&self) -> PlaceView {
        PlaceView { root: self.root@, relative: self.relative@ }
    }
}

pub open spec fn place_outcome(r: Result<WorktreePlace>) -> Outcome<PlaceView> {
    match r {
        Ok(p) => Ok(p@),
        Err(e) => Err(e@),
    }
}

pub open spec fn place_path(p: PlaceView) -> Seq<u8> {
    child(p.root, p.relative)
}

pub open spec fn uninspected(path: Seq<u8>, e: Seq<char>) -> ErrorView {
    failure("cannot inspect "@ + escape(path) + ": "@ + e)
}

fn uninspected_error(path: &[u8], e: IoFailure) -> (r: GroveError)
    ensures
        r@ == uninspected(path@, e@.text),
{
    GroveError::failure(
        text("cannot inspect ").concat(escaped(path).as_str()).concat(": ").concat(e.text.as_str()),
    )
}

/// Going down from `at` along the components from the `i`th up to the `n`th: as far as there is
/// anything on the way, it must be a directory, and no link to one.
pub open spec fn way_from(s: FileSession, at: Seq<u8>, list: Seq<Part>, i: int, n: int) -> (
    FileSession,
    Outcome<()>,
)
    decreases n - i,
{
    if i >= n {
        (s, Ok(()))
    } else {
        let next = child(at, part_text(list[i]));
        match facts_step(s, FileRequest::Inspect(next)) {
            (s1, Err(e)) => if e.kind == FailureKind::NotFound {
                (s1, Ok(()))
            } else {
                (s1, Err(uninspected(next, e.text)))
            },
            (s1, Ok(facts)) => if facts.kind == FileKind::Directory {
                way_from(s1, next, list, i + 1, n)
            } else {
                (s1, Err(needs_decision(escape(next) + " is in the way of the worktree"@)))
            },
        }
    }
}

fn check_way<F: FileSystem + ?Sized>(files: &mut F, root: &[u8], list: &Vec<Component>, n: usize) -> (r:
    Result<()>)
    requires
        n <= list@.len(),
    ensures
        (final(files).files(), plain(r)) == way_from(
            old(files).files(),
            root@,
            part_views(list@),
            0,
            n as int,
        ),
{
    let mut at = copied(root);
    let mut i: usize = 0;
    while i < n
        invariant
            i <= n <= list@.len(),
            way_from(old(files).files(), root@, part_views(list@), 0, n as int) == way_from(
                files.files(),
                at@,
                part_views(list@),
                i as int,
                n as int,
            ),
        decreases n - i,
    {
        proof {
            assert(part_views(list@)[i as int] == list@[i as int]@);
        }
        let next = join_path(at.as_slice(), list[i].text().as_slice());
        match ask_facts(files, FileRequest::Inspect(copied(next.as_slice()))) {
            Err(e) => {
                if matches!(e.kind, FailureKind::NotFound) {
                    return Ok(());
                }
                return Err(uninspected_error(next.as_slice(), e));
            },
            Ok(facts) => {
                if !matches!(facts.kind, FileKind::Directory) {
                    return Err(
                        GroveError::needs_decision(
                            escaped(next.as_slice()).concat(" is in the way of the worktree"),
                        ),
                    );
                }
            },
        }
        at = next;
        i = i + 1;
    }
    Ok(())
}

/// Checking a place that was asked for, in words and on disk.
pub open spec fn place_run(s: FileSession, root: Seq<u8>, requested: Seq<u8>) -> (
    FileSession,
    Outcome<PlaceView>,
) {
    match place_of(root, requested) {
        Err(e) => (s, Err(e)),
        Ok(relative) => match way_from(s, root, parts(relative), 0, parts(relative).len() as int) {
            (s1, Err(e)) => (s1, Err(e)),
            (s1, Ok(_)) => (s1, Ok(PlaceView { root, relative })),
        },
    }
}

/// Checks a place that was asked for, in words and on disk.
pub fn validate_worktree_path<F: FileSystem + ?Sized>(files: &mut F, root: &[u8], requested: &[u8]) -> (r:
    Result<WorktreePlace>)
    ensures
        (final(files).files(), place_outcome(r)) == place_run(
            old(files).files(),
            root@,
            requested@,
        ),
{
    let relative = requested_place(root, requested)?;
    let list = components(relative.as_slice());
    proof {
        assert(part_views(list@).len() == list@.len());
    }
    check_way(files, root, &list, list.len())?;
    Ok(WorktreePlace { root: copied(root), relative })
}

/// Making the directories on the way to a place. The way is checked again before.
pub open spec fn parents_run(s: FileSession, place: PlaceView) -> (FileSession, Outcome<()>) {
    let list = parts(place.relative);
    let n = list.len() - 1;
    if n <= 0 {
        (s, Ok(()))
    } else {
        match way_from(s, place.root, list, 0, n) {
            (s1, Err(e)) => (s1, Err(e)),
            (s1, Ok(_)) => {
                let parent = child(place.root, rendered(list, n));
                match done_step(s1, FileRequest::CreateDirectories(parent)) {
                    (s2, Err(e)) => (
                        s2,
                        Err(failure("cannot create "@ + escape(parent) + ": "@ + e.text)),
                    ),
                    (s2, Ok(_)) => (s2, Ok(())),
                }
            },
        }
    }
}

pub open spec fn occupied(path: Seq<u8>) -> ErrorView {
    detailed(
        needs_decision(escape(path) + " is not empty"@),
        "the existing entry was preserved"@,
    )
}

/// Checking that nothing is at a path, or nothing but an empty directory.
pub open spec fn vacant_run(s: FileSession, path: Seq<u8>) -> (FileSession, Outcome<()>) {
    match facts_step(s, FileRequest::Inspect(path)) {
        (s1, Err(e)) => if e.kind == FailureKind::NotFound {
            (s1, Ok(()))
        } else {
            (s1, Err(uninspected(path, e.text)))
        },
        (s1, Ok(facts)) => if facts.kind == FileKind::Directory {
            match names_step(s1, FileRequest::List(path)) {
                (s2, Err(e)) => (s2, Err(failure("cannot read "@ + escape(path) + ": "@ + e.text))),
                (s2, Ok(names)) => if names.len() == 0 {
                    (s2, Ok(()))
                } else {
                    (s2, Err(occupied(path)))
                },
            }
        } else {
            (s1, Err(occupied(path)))
        },
    }
}

impl WorktreePlace {
    /// The place's path.
    pub fn path(&self) -> (r: Vec<u8>)
        ensures
            r@ == place_path(self@),
    {
        join_path(self.root.as_slice(), self.relative.as_slice())
    }

    /// Makes the directories on the way to the place.
    pub fn create_parent_directories<F: FileSystem + ?Sized>(&self, files: &mut F) -> (r: Result<()>)
        ensures
            (final(files).files(), plain(r)) == parents_run(old(files).files(), self@),
    {
        let list = components(self.relative.as_slice());
        proof {
            assert(part_views(list@).len() == list@.len());
        }
        if list.len() <= 1 {
            return Ok(());
        }
        let n: usize = list.len() - 1;
        check_way(files, self.root.as_slice(), &list, n)?;
        let parent = join_path(self.root.as_slice(), render(&list, n).as_slice());
        match do_request(files, FileRequest::CreateDirectories(copied(parent.as_slice()))) {
            Err(e) => Err(
                GroveError::failure(
                    text("cannot create ").concat(escaped(parent.as_slice()).as_str()).concat(
                        ": ",
                    ).concat(e.text.as_str()),
                ),
            ),
            Ok(_) => Ok(()),
        }
    }

    /// Checks that nothing is in the place.
    pub fn validate_vacant<F: FileSystem + ?Sized>(&self, files: &mut F) -> (r: Result<()>)
        ensures
            (final(files).files(), plain(r)) == vacant_run(old(files).files(), place_path(self@)),
    {
        let path = self.path();
        let kind = match ask_facts(files, FileRequest::Inspect(copied(path.as_slice()))) {
            Err(e) => {
                if matches!(e.kind, FailureKind::NotFound) {
                    return Ok(());
                }
                return Err(uninspected_error(path.as_slice(), e));
            },
            Ok(facts) => facts.kind,
        };
        if matches!(kind, FileKind::Directory) {
            match ask_names(files, FileRequest::List(copied(path.as_slice()))) {
                Err(e) => {
                    return Err(
                        GroveError::failure(
                            text("cannot read ").concat(escaped(path.as_slice()).as_str()).concat(
                                ": ",
                            ).concat(e.text.as_str()),
                        ),
                    );
                },
                Ok(names) => {
                    if names.len() == 0 {
                        return Ok(());
                    }
                },
            }
        }
        Err(
            GroveError::needs_decision(
                escaped(path.as_slice()).concat(" is not empty"),
            ).with_detail(text("the existing entry was preserved")),
        )
    }
}

pub open spec fn grove_outcome(r: Result<Grove>) -> Outcome<Seq<u8>> {
    match r {
        Ok(g) => Ok(g.root@),
        Err(e) => Err(e@),
    }
}

/// Looking for what marks a grove's root: the bare repository, and beside it the pointer file,
/// neither of them a link.
pub open spec fn marked_run(s: FileSession, root: Seq<u8>) -> (FileSession, bool) {
    match facts_step(s, FileRequest::Inspect(child(root, lit(".bare")))) {
        (s1, Ok(bare)) => if bare.kind == FileKind::Directory {
            match facts_step(s1, FileRequest::Inspect(child(root, lit(".git")))) {
                (s2, Ok(pointer)) => if pointer.kind == FileKind::Regular {
                    match bytes_step(s2, FileRequest::Read(child(root, lit(".git")))) {
                        (s3, Ok(contents)) => (s3, contents == lit(POINTER_CONTENTS)),
                        (s3, Err(_)) => (s3, false),
                    }
                } else {
                    (s2, false)
                },
                (s2, Err(_)) => (s2, false),
            }
        } else {
            (s1, false)
        },
        (s1, Err(_)) => (s1, false),
    }
}

/// Whether a directory carries the marks of a grove's root.
pub fn is_marked<F: FileSystem + ?Sized>(files: &mut F, root: &[u8]) -> (r: bool)
    ensures
        (final(files).files(), r) == marked_run(old(files).files(), root@),
{
    let is_bare = match ask_facts(files, FileRequest::Inspect(join_word(root, ".bare"))) {
        Ok(facts) => matches!(facts.kind, FileKind::Directory),
        Err(_) => false,
    };
    if !is_bare {
        return false;
    }
    let is_file = match ask_facts(files, FileRequest::Inspect(join_word(root, ".git"))) {
        Ok(facts) => matches!(facts.kind, FileKind::Regular),
        Err(_) => false,
    };
    if !is_file {
        return false;
    }
    match ask_bytes(files, FileRequest::Read(join_word(root, ".git"))) {
        Ok(contents) => is_lit(contents.as_slice(), POINTER_CONTENTS),
        Err(_) => false,
    }
}

pub open spec fn recognize_run(s: FileSession, root: Seq<u8>) -> (FileSession, Outcome<Seq<u8>>) {
    match marked_run(s, root) {
        (s1, true) => (s1, Ok(root)),
        (s1, false) => (s1, Err(usage(escape(root) + " is not a grove"@))),
    }
}

/// The grove that fills a directory, when it is one.
pub fn recognize_grove<F: FileSystem + ?Sized>(files: &mut F, root: &[u8]) -> (r: Result<Grove>)
    ensures
        (final(files).files(), grove_outcome(r)) == recognize_run(old(files).files(), root@),
{
    if is_marked(files, root) {
        Ok(Grove::at(root))
    } else {
        Err(GroveError::usage(escaped(root).concat(" is not a grove")))
    }
}

/// A place is free for a worktree where nothing is there, or a directory that holds nothing; that is
/// found out by looking, and nowhere else is a worktree put.
pub proof fn only_vacant_places_are_free(f: FileSession, path: Seq<u8>)
    ensures
        ({
            let look = FileRequest::Inspect(path);
            let list = FileRequest::List(path);
            let seen = (f.script)(f.calls.push(look));
            let held = (f.script)(f.calls.push(look).push(list));
            let missing = seen is Failed && seen->Failed_0.kind == FailureKind::NotFound;
            let empty = seen is Facts && seen->Facts_0.kind == FileKind::Directory && held is Names
                && held->Names_0.len() == 0;
            vacant_run(f, path).1 is Ok <==> missing || empty
        }),
{
}

proof fn lemma_climbing(list: Seq<Part>, i: int, n: int)
    requires
        0 <= i < n <= list.len(),
        list[i] is Parent || list[i] is Root,
    ensures
        plain_names(list, n) is None,
    decreases n,
{
    if i < n - 1 {
        lemma_climbing(list, i, n - 1);
    }
}

/// A place that climbs, by `..`, or that is taken from the root of the file system, is refused as a
/// matter of usage, whatever else is in it.
pub proof fn places_that_climb_are_refused(path: Seq<u8>, i: int)
    requires
        absolute(path) || (0 <= i < parts(path).len() && parts(path)[i] is Parent),
    ensures
        relative_place(path) is Err,
        relative_place(path)->Err_0.class == ExitClass::Usage,
{
    if !absolute(path) {
        lemma_climbing(parts(path), i, parts(path).len() as int);
    }
}

proof fn lemma_all_names(list: Seq<Part>, n: int)
    requires
        0 <= n <= list.len(),
        forall|i: int| 0 <= i < n ==> #[trigger] list[i] is Normal,
    ensures
        plain_names(list, n) is Some,
        plain_names(list, n)->Some_0.len() == n,
        n > 0 ==> plain_names(list, n)->Some_0[0] == list[0]->Normal_0,
    decreases n,
{
    if n > 0 {
        lemma_all_names(list, n - 1);
        assert(list[n - 1] is Normal);
    }
}

/// A place that is made of names, the first of which is not one that the grove keeps for itself, is
/// accepted.
pub proof fn plain_places_are_accepted(path: Seq<u8>)
    requires
        parts(path).len() > 0,
        forall|i: int| 0 <= i < parts(path).len() ==> #[trigger] parts(path)[i] is Normal,
        parts(path)[0]->Normal_0 != lit(".git"),
        parts(path)[0]->Normal_0 != lit(".bare"),
    ensures
        relative_place(path) is Ok,
{
    lemma_all_names(parts(path), parts(path).len() as int);
    assert(parts(path)[0] is Normal);
}

} // verus!

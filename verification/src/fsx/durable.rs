//! What every write keeps to: nothing is replaced by contents that are not durable yet, and
//! nothing is replaced at all where that was not asked for.
use vstd::prelude::*;
use crate::error::ErrorView;
use crate::fsx::files::{
    answer_to, as_done, as_handle, done_step, facts_step, file_step, handle_step, FailureKind,
    FailureView, FileRequest, FileSession,
};
use crate::fsx::write::{
    create_named_run, create_temporary_run, fill_run, install_run, io_error, link_run, next_nonce,
    other_nonces, replace_run, retain_run, split_of, synced_run, temporary_of, write_absent_run,
    write_in_run, write_run, Draws, Nonces, TempStrategy, TemporaryView, TEMP_NAME_ATTEMPTS,
};
use crate::path::last_name;

verus! {

/// Whether a request leaves every entry that is there alone.
pub open spec fn adds_only(request: FileRequest<Seq<u8>>) -> bool {
    match request {
        FileRequest::Inspect(_) => true,
        FileRequest::OpenParent(_) => true,
        FileRequest::CreateUnnamed(_) => true,
        FileRequest::CreateNamed(_, _) => true,
        FileRequest::Write(_, _) => true,
        FileRequest::Sync(_) => true,
        FileRequest::Link(_, _, _) => true,
        FileRequest::Install(_, _, _) => true,
        _ => false,
    }
}

/// Whether every request between two states of a session leaves every entry that is there alone.
pub open spec fn only_added(before: FileSession, after: FileSession) -> bool {
    &&& after.script == before.script
    &&& before.calls.len() <= after.calls.len()
    &&& forall|i: int|
        0 <= i < after.calls.len() ==> if i < before.calls.len() {
            #[trigger] after.calls[i] == before.calls[i]
        } else {
            adds_only(after.calls[i])
        }
}

proof fn lemma_added_on(a: FileSession, b: FileSession, c: FileSession)
    requires
        only_added(a, b),
        only_added(b, c),
    ensures
        only_added(a, c),
{
    assert forall|i: int| 0 <= i < c.calls.len() implies if i < a.calls.len() {
        #[trigger] c.calls[i] == a.calls[i]
    } else {
        adds_only(c.calls[i])
    } by {
        if i < b.calls.len() {
            assert(c.calls[i] == b.calls[i]);
            if i < a.calls.len() {
                assert(b.calls[i] == a.calls[i]);
            } else {
                assert(adds_only(b.calls[i]));
            }
        }
    }
}

proof fn lemma_one_added(s: FileSession, request: FileRequest<Seq<u8>>)
    requires
        adds_only(request),
    ensures
        only_added(s, file_step(s, request).0),
{
}

proof fn lemma_create_named(s: FileSession, directory: u64, parent: Seq<u8>, left: nat, drawn: Nonces)
    ensures
        only_added(s, create_named_run(s, directory, parent, left, drawn).0),
    decreases left,
{
    if left > 0 && next_nonce(drawn) is Ok {
        let request = FileRequest::CreateNamed(directory, temporary_of(next_nonce(drawn)->Ok_0));
        lemma_one_added(s, request);
        let s1 = handle_step(s, request).0;
        lemma_create_named(s1, directory, parent, (left - 1) as nat, other_nonces(drawn));
        lemma_added_on(
            s,
            s1,
            create_named_run(s1, directory, parent, (left - 1) as nat, other_nonces(drawn)).0,
        );
    }
}

proof fn lemma_create(
    s: FileSession,
    directory: u64,
    parent: Seq<u8>,
    strategy: TempStrategy,
    drawn: Nonces,
)
    ensures
        only_added(s, create_temporary_run(s, directory, parent, strategy, drawn).0),
{
    let n = TEMP_NAME_ATTEMPTS as nat;
    lemma_create_named(s, directory, parent, n, drawn);
    let request = FileRequest::CreateUnnamed(directory);
    lemma_one_added(s, request);
    let s1 = handle_step(s, request).0;
    lemma_create_named(s1, directory, parent, n, drawn);
    lemma_added_on(s, s1, create_named_run(s1, directory, parent, n, drawn).0);
}

proof fn lemma_retain(
    s: FileSession,
    original: ErrorView,
    name: Option<Seq<u8>>,
    directory: u64,
    parent: Seq<u8>,
)
    ensures
        only_added(s, retain_run(s, original, name, directory, parent).0),
{
    lemma_one_added(s, FileRequest::Sync(directory));
}

proof fn lemma_fill(
    s: FileSession,
    path: Seq<u8>,
    contents: Seq<u8>,
    temporary: TemporaryView,
    directory: u64,
    parent: Seq<u8>,
)
    ensures
        only_added(s, fill_run(s, path, contents, temporary, directory, parent).0),
        fill_run(s, path, contents, temporary, directory, parent).1 is Ok ==> {
            let end = fill_run(s, path, contents, temporary, directory, parent).0;
            &&& end.calls.len() == s.calls.len() + 2
            &&& end.calls[s.calls.len() as int] == FileRequest::Write(temporary.file, contents)
            &&& end.calls[s.calls.len() as int + 1] == FileRequest::<Seq<u8>>::Sync(temporary.file)
        },
{
    let write = FileRequest::Write(temporary.file, contents);
    lemma_one_added(s, write);
    let (s1, w) = done_step(s, write);
    if w is Err {
        let e = io_error(path, "write temporary file", w->Err_0);
        lemma_retain(s1, e, temporary.name, directory, parent);
        lemma_added_on(s, s1, retain_run(s1, e, temporary.name, directory, parent).0);
    } else {
        let sync = FileRequest::Sync(temporary.file);
        lemma_one_added(s1, sync);
        let (s2, y) = done_step(s1, sync);
        lemma_added_on(s, s1, s2);
        if y is Err {
            let e = io_error(path, "fsync temporary file", y->Err_0);
            lemma_retain(s2, e, temporary.name, directory, parent);
            lemma_added_on(s, s2, retain_run(s2, e, temporary.name, directory, parent).0);
        }
    }
}

proof fn lemma_link(
    s: FileSession,
    file: u64,
    directory: u64,
    parent: Seq<u8>,
    left: nat,
    drawn: Nonces,
)
    ensures
        only_added(s, link_run(s, file, directory, parent, left, drawn).0),
    decreases left,
{
    if left > 0 && next_nonce(drawn) is Ok {
        let request = FileRequest::Link(file, directory, temporary_of(next_nonce(drawn)->Ok_0));
        lemma_one_added(s, request);
        let s1 = done_step(s, request).0;
        lemma_link(s1, file, directory, parent, (left - 1) as nat, other_nonces(drawn));
        lemma_added_on(
            s,
            s1,
            link_run(s1, file, directory, parent, (left - 1) as nat, other_nonces(drawn)).0,
        );
    }
}

/// Filling a vacant place never touches an entry that is there, whatever comes of it: no entry
/// is replaced, renamed or removed.
pub proof fn vacant_places_are_only_filled(
    s: FileSession,
    path: Seq<u8>,
    contents: Seq<u8>,
    strategy: TempStrategy,
    drawn: Nonces,
)
    ensures
        only_added(s, write_absent_run(s, path, contents, strategy, drawn).0),
{
    lemma_one_added(s, FileRequest::Inspect(path));
    let (s1, there) = facts_step(s, FileRequest::Inspect(path));
    if there is Err && there->Err_0.kind == FailureKind::NotFound && split_of(path) is Ok {
        let (parent, destination) = split_of(path)->Ok_0;
        lemma_one_added(s1, FileRequest::OpenParent(parent));
        let (s2, opened) = handle_step(s1, FileRequest::OpenParent(parent));
        lemma_added_on(s, s1, s2);
        if opened is Ok {
            let directory = opened->Ok_0;
            lemma_create(s2, directory, parent, strategy, drawn);
            let (s3, created) = create_temporary_run(s2, directory, parent, strategy, drawn);
            lemma_added_on(s, s2, s3);
            if created is Ok {
                let temporary = created->Ok_0;
                lemma_fill(s3, path, contents, temporary, directory, parent);
                let (s4, filled) = fill_run(s3, path, contents, temporary, directory, parent);
                lemma_added_on(s, s3, s4);
                lemma_install(s4, path, temporary, directory, parent, destination);
                lemma_added_on(
                    s,
                    s4,
                    install_run(s4, path, temporary, directory, parent, destination).0,
                );
            }
        }
    }
}

proof fn lemma_install(
    s: FileSession,
    path: Seq<u8>,
    temporary: TemporaryView,
    directory: u64,
    parent: Seq<u8>,
    destination: Seq<u8>,
)
    ensures
        only_added(s, install_run(s, path, temporary, directory, parent, destination).0),
{
    let request = match temporary.name {
        None => FileRequest::Link(temporary.file, directory, destination),
        Some(name) => FileRequest::Install(directory, name, destination),
    };
    lemma_one_added(s, request);
    let (s1, placed) = done_step(s, request);
    lemma_one_added(s1, FileRequest::Sync(directory));
    lemma_added_on(s, s1, synced_run(s1, directory, parent).0);
    if placed is Err {
        let e = io_error(path, "rename into place without replacement", placed->Err_0);
        lemma_retain(s1, e, temporary.name, directory, parent);
        lemma_added_on(s, s1, retain_run(s1, e, temporary.name, directory, parent).0);
    }
}

/// Whether the contents were written to a file, and that file made durable, between two points
/// of a list of requests.
pub open spec fn durable_between(
    calls: Seq<FileRequest<Seq<u8>>>,
    contents: Seq<u8>,
    from: int,
    to: int,
) -> bool {
    exists|w: int, file: u64|
        from <= w && w + 1 < to && #[trigger] written_and_synced(calls, contents, w, file)
}

/// Whether two requests in a row write contents to a file and make that file durable.
pub open spec fn written_and_synced(
    calls: Seq<FileRequest<Seq<u8>>>,
    contents: Seq<u8>,
    w: int,
    file: u64,
) -> bool {
    calls[w] == FileRequest::Write(file, contents) && calls[w + 1] == FileRequest::<Seq<u8>>::Sync(
        file,
    )
}

proof fn lemma_replace(
    s: FileSession,
    path: Seq<u8>,
    temporary: TemporaryView,
    directory: u64,
    parent: Seq<u8>,
    destination: Seq<u8>,
    drawn: Nonces,
)
    ensures
        ({
            let end = replace_run(s, path, temporary, directory, parent, destination, drawn).0;
            &&& s.calls.len() <= end.calls.len()
            &&& forall|i: int| 0 <= i < s.calls.len() ==> #[trigger] end.calls[i] == s.calls[i]
        }),
{
    let n = TEMP_NAME_ATTEMPTS as nat;
    lemma_link(s, temporary.file, directory, parent, n, drawn);
    let (s1, named) = match temporary.name {
        Some(name) => (s, Ok::<Seq<u8>, ErrorView>(name)),
        None => link_run(s, temporary.file, directory, parent, n, drawn),
    };
    assert(only_added(s, s1));
    if named is Ok {
        let name = named->Ok_0;
        let (s2, replaced) = done_step(s1, FileRequest::Replace(directory, name, destination));
        if replaced is Err {
            let e = io_error(path, "rename into place", replaced->Err_0);
            lemma_retain(s2, e, Some(name), directory, parent);
        }
    }
}

/// Whether a request leaves every entry that is there alone, or replaces the one of a given name
/// within a held directory.
pub open spec fn writes(request: FileRequest<Seq<u8>>, place: Option<Seq<u8>>) -> bool {
    match request {
        FileRequest::Replace(_, _, name) => place == Some(name),
        _ => adds_only(request),
    }
}

/// Whether that holds of every request between two states of a session.
pub open spec fn only_written(
    before: FileSession,
    after: FileSession,
    place: Option<Seq<u8>>,
) -> bool {
    &&& after.script == before.script
    &&& before.calls.len() <= after.calls.len()
    &&& forall|i: int|
        0 <= i < after.calls.len() ==> if i < before.calls.len() {
            #[trigger] after.calls[i] == before.calls[i]
        } else {
            writes(after.calls[i], place)
        }
}

proof fn lemma_written_on(
    a: FileSession,
    b: FileSession,
    c: FileSession,
    place: Option<Seq<u8>>,
)
    requires
        only_written(a, b, place),
        only_written(b, c, place),
    ensures
        only_written(a, c, place),
{
    assert forall|i: int| 0 <= i < c.calls.len() implies if i < a.calls.len() {
        #[trigger] c.calls[i] == a.calls[i]
    } else {
        writes(c.calls[i], place)
    } by {
        if i < b.calls.len() {
            assert(c.calls[i] == b.calls[i]);
            if i < a.calls.len() {
                assert(b.calls[i] == a.calls[i]);
            }
        }
    }
}

/// Writing a file removes no entry and renames none: all it does beside adding is to replace the
/// entry that the contents are for.
pub proof fn writes_only_replace(
    s: FileSession,
    path: Seq<u8>,
    contents: Seq<u8>,
    strategy: TempStrategy,
    d: Draws,
)
    ensures
        only_written(s, write_run(s, path, contents, strategy, d).0, last_name(path)),
{
    if split_of(path) is Ok {
        let (parent, destination) = split_of(path)->Ok_0;
        let (s1, opened) = handle_step(s, FileRequest::OpenParent(parent));
        lemma_one_added(s, FileRequest::OpenParent(parent));
        if opened is Ok {
            let directory = opened->Ok_0;
            lemma_create(s1, directory, parent, strategy, d.created);
            let (s2, created) = create_temporary_run(s1, directory, parent, strategy, d.created);
            lemma_added_on(s, s1, s2);
            if created is Ok {
                let temporary = created->Ok_0;
                lemma_fill(s2, path, contents, temporary, directory, parent);
                let (s3, filled) = fill_run(s2, path, contents, temporary, directory, parent);
                lemma_added_on(s, s2, s3);
                if filled is Ok {
                    let drawn = d.linked;
                    lemma_replacing(s3, path, temporary, directory, parent, destination, drawn);
                    lemma_written_on(
                        s,
                        s3,
                        replace_run(s3, path, temporary, directory, parent, destination, drawn).0,
                        last_name(path),
                    );
                }
            }
        }
    }
}

proof fn lemma_replacing(
    s: FileSession,
    path: Seq<u8>,
    temporary: TemporaryView,
    directory: u64,
    parent: Seq<u8>,
    destination: Seq<u8>,
    drawn: Nonces,
)
    ensures
        only_written(
            s,
            replace_run(s, path, temporary, directory, parent, destination, drawn).0,
            Some(destination),
        ),
{
    let n = TEMP_NAME_ATTEMPTS as nat;
    lemma_link(s, temporary.file, directory, parent, n, drawn);
    let (s1, named) = match temporary.name {
        Some(name) => (s, Ok::<Seq<u8>, ErrorView>(name)),
        None => link_run(s, temporary.file, directory, parent, n, drawn),
    };
    assert(only_added(s, s1));
    if named is Ok {
        let name = named->Ok_0;
        let (s2, replaced) = done_step(s1, FileRequest::Replace(directory, name, destination));
        assert(only_written(s1, s2, Some(destination)));
        lemma_written_on(s, s1, s2, Some(destination));
        lemma_one_added(s2, FileRequest::Sync(directory));
        lemma_written_on(s, s2, synced_run(s2, directory, parent).0, Some(destination));
        if replaced is Err {
            let e = io_error(path, "rename into place", replaced->Err_0);
            lemma_retain(s2, e, Some(name), directory, parent);
            lemma_written_on(
                s,
                s2,
                retain_run(s2, e, Some(name), directory, parent).0,
                Some(destination),
            );
        }
    }
}

/// A file is replaced only by contents that have been written and made durable before, whatever
/// comes of the write.
pub proof fn only_durable_contents_replace(
    s: FileSession,
    path: Seq<u8>,
    contents: Seq<u8>,
    strategy: TempStrategy,
    d: Draws,
    i: int,
)
    requires
        s.calls.len() <= i < write_run(s, path, contents, strategy, d).0.calls.len(),
        write_run(s, path, contents, strategy, d).0.calls[i] is Replace,
    ensures
        durable_between(
            write_run(s, path, contents, strategy, d).0.calls,
            contents,
            s.calls.len() as int,
            i,
        ),
{
    let end = write_run(s, path, contents, strategy, d).0;
    if split_of(path) is Ok {
        let (parent, destination) = split_of(path)->Ok_0;
        let (s1, opened) = handle_step(s, FileRequest::OpenParent(parent));
        lemma_one_added(s, FileRequest::OpenParent(parent));
        if opened is Ok {
            let directory = opened->Ok_0;
            lemma_create(s1, directory, parent, strategy, d.created);
            let (s2, created) = create_temporary_run(s1, directory, parent, strategy, d.created);
            lemma_added_on(s, s1, s2);
            if created is Ok {
                let temporary = created->Ok_0;
                lemma_fill(s2, path, contents, temporary, directory, parent);
                let (s3, filled) = fill_run(s2, path, contents, temporary, directory, parent);
                lemma_added_on(s, s2, s3);
                if filled is Ok {
                    lemma_replace(
                        s3,
                        path,
                        temporary,
                        directory,
                        parent,
                        destination,
                        d.linked,
                    );
                    let w = s2.calls.len() as int;
                    assert(end.calls[w] == s3.calls[w]);
                    assert(end.calls[w + 1] == s3.calls[w + 1]);
                    if i < s3.calls.len() {
                        assert(end.calls[i] == s3.calls[i]);
                        assert(adds_only(s3.calls[i]));
                    }
                    assert(written_and_synced(end.calls, contents, w, temporary.file));
                } else {
                    assert(adds_only(s3.calls[i]));
                }
            } else {
                assert(adds_only(s2.calls[i]));
            }
        } else {
            assert(adds_only(s1.calls[i]));
        }
    }
}

/// Whether a file was given a name in a directory between two calls: it was created under it, or was
/// linked there.
pub open spec fn given_name(
    after: FileSession,
    from: int,
    until: int,
    file: u64,
    directory: u64,
    name: Seq<u8>,
) -> bool {
    exists|k: int|
        from <= k < until && ((#[trigger] after.calls[k] == FileRequest::CreateNamed(
            directory,
            name,
        ) && as_handle(answer_to(after, k)) == Ok::<u64, FailureView>(file)) || (after.calls[k]
            == FileRequest::Link(file, directory, name) && as_done(answer_to(after, k)) is Ok))
}

/// Whether contents were put under a name in a directory, and made to last: they were written to a
/// file, and that file took the name's place as the last thing but one that was done.
pub open spec fn put_in_place(
    before: FileSession,
    after: FileSession,
    contents: Seq<u8>,
    directory: u64,
    destination: Seq<u8>,
) -> bool {
    let n = after.calls.len() as int;
    exists|file: u64, name: Seq<u8>, w: int|
        before.calls.len() <= w < n - 3 && #[trigger] after.calls[w] == FileRequest::Write(
            file,
            contents,
        ) && after.calls[w + 1] == FileRequest::<Seq<u8>>::Sync(file) && #[trigger] given_name(
            after,
            before.calls.len() as int,
            n - 2,
            file,
            directory,
            name,
        ) && after.calls[n - 2] == FileRequest::Replace(directory, name, destination)
            && after.calls[n - 1] == FileRequest::<Seq<u8>>::Sync(directory) && as_done(
            answer_to(after, n - 2),
        ) is Ok && as_done(answer_to(after, n - 1)) is Ok
}

proof fn lemma_named(s: FileSession, directory: u64, parent: Seq<u8>, left: nat, drawn: Nonces)
    requires
        create_named_run(s, directory, parent, left, drawn).1 is Ok,
    ensures
        ({
            let (s1, r) = create_named_run(s, directory, parent, left, drawn);
            let n = s1.calls.len() as int;
            &&& n > s.calls.len()
            &&& s1.script == s.script
            &&& r->Ok_0.name is Some
            &&& s1.calls.last() == FileRequest::CreateNamed(directory, r->Ok_0.name->Some_0)
            &&& as_handle((s1.script)(s1.calls)) == Ok::<u64, FailureView>(r->Ok_0.file)
        }),
    decreases left,
{
    if left > 0 && next_nonce(drawn) is Ok {
        let request = FileRequest::CreateNamed(directory, temporary_of(next_nonce(drawn)->Ok_0));
        let (s1, made) = handle_step(s, request);
        if made is Err {
            lemma_named(s1, directory, parent, (left - 1) as nat, other_nonces(drawn));
        }
    }
}

proof fn lemma_linked(
    s: FileSession,
    file: u64,
    directory: u64,
    parent: Seq<u8>,
    left: nat,
    drawn: Nonces,
)
    requires
        link_run(s, file, directory, parent, left, drawn).1 is Ok,
    ensures
        ({
            let (s1, r) = link_run(s, file, directory, parent, left, drawn);
            &&& s1.calls.len() > s.calls.len()
            &&& s1.script == s.script
            &&& s1.calls.last() == FileRequest::Link(file, directory, r->Ok_0)
            &&& as_done((s1.script)(s1.calls)) is Ok
        }),
    decreases left,
{
    if left > 0 && next_nonce(drawn) is Ok {
        let request = FileRequest::Link(
            file,
            directory,
            temporary_of(next_nonce(drawn)->Ok_0),
        );
        let (s1, made) = done_step(s, request);
        if made is Err {
            lemma_linked(s1, file, directory, parent, (left - 1) as nat, other_nonces(drawn));
        }
    }
}

/// A file that was written holds the contents that were asked for, under the name that was asked
/// for, in the directory that was asked for.
pub proof fn written_files_hold_the_contents(
    s: FileSession,
    path: Seq<u8>,
    contents: Seq<u8>,
    directory: u64,
    parent: Seq<u8>,
    destination: Seq<u8>,
    strategy: TempStrategy,
    d: Draws,
)
    requires
        write_in_run(s, path, contents, directory, parent, destination, strategy, d).1 is Ok,
    ensures
        put_in_place(
            s,
            write_in_run(s, path, contents, directory, parent, destination, strategy, d).0,
            contents,
            directory,
            destination,
        ),
{
    let end = write_in_run(s, path, contents, directory, parent, destination, strategy, d).0;
    lemma_create(s, directory, parent, strategy, d.created);
    let (s1, created) = create_temporary_run(s, directory, parent, strategy, d.created);
    let temporary = created->Ok_0;
    let attempts = TEMP_NAME_ATTEMPTS as nat;
    if temporary.name is Some {
        match strategy {
            TempStrategy::NamedOnly => {
                lemma_named(s, directory, parent, attempts, d.created);
            },
            TempStrategy::Auto => {
                let t = handle_step(s, FileRequest::CreateUnnamed(directory)).0;
                lemma_named(t, directory, parent, attempts, d.created);
            },
        }
    }
    let (s2, filled) = fill_run(s1, path, contents, temporary, directory, parent);
    lemma_fill(s1, path, contents, temporary, directory, parent);
    let w = s1.calls.len() as int;
    if temporary.name is None {
        lemma_link(s2, temporary.file, directory, parent, attempts, d.linked);
        lemma_linked(s2, temporary.file, directory, parent, attempts, d.linked);
    }
    let (s3, named) = match temporary.name {
        Some(name) => (s2, Ok::<Seq<u8>, ErrorView>(name)),
        None => link_run(s2, temporary.file, directory, parent, attempts, d.linked),
    };
    let name = named->Ok_0;
    let n = end.calls.len() as int;
    assert(end.calls == s3.calls.push(FileRequest::Replace(directory, name, destination)).push(
        FileRequest::Sync(directory),
    ));
    assert(end.calls.take(n - 1) =~= s3.calls.push(
        FileRequest::Replace(directory, name, destination),
    ));
    assert(end.calls.take(n) =~= end.calls);
    assert(end.calls[w] == s3.calls[w]);
    assert(end.calls[w + 1] == s3.calls[w + 1]);
    if temporary.name is Some {
        let k = w - 1;
        assert(end.calls.take(k + 1) =~= s1.calls);
        assert(end.calls[k] == s1.calls[k]);
        assert(given_name(end, s.calls.len() as int, n - 2, temporary.file, directory, name));
    } else {
        let k = s3.calls.len() - 1;
        assert(end.calls.take(k + 1) =~= s3.calls);
        assert(end.calls[k] == s3.calls[k]);
        assert(given_name(end, s.calls.len() as int, n - 2, temporary.file, directory, name));
    }
}

/// A vacant place that was filled holds the contents that were asked for: they were written to a
/// file, which was given the place's name in the place's directory, or had a name there and took the
/// other.
pub proof fn filled_places_hold_the_contents(
    s: FileSession,
    path: Seq<u8>,
    contents: Seq<u8>,
    strategy: TempStrategy,
    drawn: Nonces,
)
    requires
        write_absent_run(s, path, contents, strategy, drawn).1 == Ok::<bool, ErrorView>(true),
    ensures
        ({
            let end = write_absent_run(s, path, contents, strategy, drawn).0;
            let n = end.calls.len() as int;
            let at = s.calls.len() as int;
            &&& split_of(path) matches Ok((parent, destination))
            &&& n >= at + 6
            &&& end.calls[at] == FileRequest::Inspect(path)
            &&& end.calls[at + 1] == FileRequest::OpenParent(parent)
            &&& as_handle(answer_to(end, at + 1)) matches Ok(directory)
            &&& end.calls[n - 1] == FileRequest::<Seq<u8>>::Sync(directory)
            &&& end.calls[n - 4] matches FileRequest::Write(file, written)
            &&& written == contents
            &&& end.calls[n - 3] == FileRequest::<Seq<u8>>::Sync(file)
            &&& as_done(answer_to(end, n - 2)) is Ok
            &&& end.calls[n - 2] == FileRequest::Link(file, directory, destination) || (
            end.calls[n - 2] matches FileRequest::Install(within, name, place) && within
                == directory && place == destination && given_name(
                end,
                at,
                n - 2,
                file,
                directory,
                name,
            ))
        }),
{
    let end = write_absent_run(s, path, contents, strategy, drawn).0;
    let at = s.calls.len() as int;
    let look = FileRequest::Inspect(path);
    let (parent, destination) = split_of(path)->Ok_0;
    let s1 = FileSession { calls: s.calls.push(look), ..s };
    let open = FileRequest::OpenParent(parent);
    let (s2, opened) = handle_step(s1, open);
    let directory = opened->Ok_0;
    lemma_create(s2, directory, parent, strategy, drawn);
    let (s3, created) = create_temporary_run(s2, directory, parent, strategy, drawn);
    let temporary = created->Ok_0;
    let attempts = TEMP_NAME_ATTEMPTS as nat;
    match strategy {
        TempStrategy::NamedOnly => {
            lemma_named(s2, directory, parent, attempts, drawn);
        },
        TempStrategy::Auto => {
            let (t, unnamed) = handle_step(s2, FileRequest::CreateUnnamed(directory));
            if unnamed is Err {
                lemma_named(t, directory, parent, attempts, drawn);
            }
        },
    }
    let (s4, filled) = fill_run(s3, path, contents, temporary, directory, parent);
    lemma_fill(s3, path, contents, temporary, directory, parent);
    let w = s3.calls.len() as int;
    let put = match temporary.name {
        None => FileRequest::Link(temporary.file, directory, destination),
        Some(name) => FileRequest::Install(directory, name, destination),
    };
    let n = end.calls.len() as int;
    assert(end.calls == s4.calls.push(put).push(FileRequest::Sync(directory)));
    assert(n == w + 4);
    assert(end.calls[w] == s4.calls[w]);
    assert(end.calls[w + 1] == s4.calls[w + 1]);
    assert(end.calls[at] == s3.calls[at] && s3.calls[at] == s2.calls[at]);
    assert(end.calls[at + 1] == s3.calls[at + 1] && s3.calls[at + 1] == s2.calls[at + 1]);
    assert(s4.calls.take(at + 2) =~= s2.calls);
    assert(end.calls.take(at + 2) =~= s2.calls);
    assert(end.calls.take(n - 1) =~= s4.calls.push(put));
    assert(s3.calls.len() > s2.calls.len());
    if temporary.name is Some {
        let k = w - 1;
        assert(s4.calls.take(k + 1) =~= s3.calls);
        assert(end.calls.take(k + 1) =~= s3.calls);
        assert(end.calls[k] == s3.calls[k]);
        assert(given_name(end, at, n - 2, temporary.file, directory, temporary.name->Some_0));
    }
}

} // verus!

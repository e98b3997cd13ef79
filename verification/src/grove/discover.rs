//! Where a grove is.
use vstd::prelude::*;
use crate::bytes::{copied, lit};
use crate::error::{usage, usage_error, Result};
use crate::fsx::files::{answer_to, AnswerView, FileRequest, FileSession, FileSystem};
use crate::fsx::held::FileKind;
use crate::git::config::Outcome;
use crate::grove::layout::{grove_outcome, is_marked, marked_run};
use crate::path::{child, components, join_word, part_views, parts, render, rendered, Part};

verus! {

/// A grove, by the directory it fills.
#[derive(Debug)]
pub struct Grove {
    pub root: Vec<u8>,
}

/// The bare repository of the grove at `root`.
pub open spec fn bare_of(root: Seq<u8>) -> Seq<u8> {
    child(root, lit(".bare"))
}

/// The configuration file of the grove at `root`.
pub open spec fn config_of(root: Seq<u8>) -> Seq<u8> {
    child(bare_of(root), lit("config"))
}

impl Grove {
    pub fn at(root: &[u8]) -> (r: Grove)
        ensures
            r.root@ == root@,
    {
        Grove { root: copied(root) }
    }

    /// The bare repository.
    pub fn bare_dir(&self) -> (r: Vec<u8>)
        ensures
            r@ == bare_of(self.root@),
    {
        join_word(self.root.as_slice(), ".bare")
    }

    /// The grove's configuration file.
    pub fn config_path(&self) -> (r: Vec<u8>)
        ensures
            r@ == config_of(self.root@),
    {
        join_word(self.bare_dir().as_slice(), "config")
    }
}

/// Looking for a grove in the directory that the first `n` components name, and then in each
/// directory above it.
pub open spec fn discover_from(s: FileSession, list: Seq<Part>, n: int) -> (
    FileSession,
    Outcome<Seq<u8>>,
)
    decreases n,
{
    if n <= 0 {
        (s, Err(usage("not inside a grove"@)))
    } else {
        match marked_run(s, rendered(list, n)) {
            (s1, true) => (s1, Ok(rendered(list, n))),
            (s1, false) => discover_from(s1, list, n - 1),
        }
    }
}

pub open spec fn discover_run(s: FileSession, start: Seq<u8>) -> (FileSession, Outcome<Seq<u8>>) {
    discover_from(s, parts(start), parts(start).len() as int)
}

/// The innermost grove that holds a directory.
pub fn discover<F: FileSystem + ?Sized>(files: &mut F, start: &[u8]) -> (r: Result<Grove>)
    ensures
        (final(files).files(), grove_outcome(r)) == discover_run(old(files).files(), start@),
{
    let list = components(start);
    let ghost all = part_views(list@);
    let mut n: usize = list.len();
    proof {
        assert(all.len() == list@.len());
    }
    while n > 0
        invariant
            n <= list.len(),
            all == part_views(list@),
            all == parts(start@),
            discover_run(old(files).files(), start@) == discover_from(
                files.files(),
                all,
                n as int,
            ),
        decreases n,
    {
        let here = render(&list, n);
        if is_marked(files, here.as_slice()) {
            return Ok(Grove { root: here });
        }
        n = n - 1;
    }
    Err(usage_error("not inside a grove"))
}

/// A discovered grove fills the directory that was asked about, or one above it: its path is
/// made of that directory's first components.
pub proof fn discovered_groves_lie_above(s: FileSession, list: Seq<Part>, n: int)
    requires
        discover_from(s, list, n).1 is Ok,
    ensures
        exists|k: int|
            0 < k <= n && discover_from(s, list, n).1->Ok_0 == #[trigger] rendered(list, k),
    decreases n,
{
    match marked_run(s, rendered(list, n)) {
        (s1, true) => {
            assert(discover_from(s, list, n).1->Ok_0 == rendered(list, n));
        },
        (s1, false) => {
            discovered_groves_lie_above(s1, list, n - 1);
        },
    }
}

/// Whether the answers from the `i`th on show a grove: a directory for the bare repository, and a
/// plain file beside it that points there.
pub open spec fn shows_grove(after: FileSession, i: int, root: Seq<u8>) -> bool {
    &&& 0 <= i
    &&& i + 2 < after.calls.len()
    &&& after.calls[i] == FileRequest::Inspect(child(root, lit(".bare")))
    &&& after.calls[i + 1] == FileRequest::Inspect(child(root, lit(".git")))
    &&& after.calls[i + 2] == FileRequest::Read(child(root, lit(".git")))
    &&& answer_to(after, i) matches AnswerView::Facts(bare)
    &&& bare.kind == FileKind::Directory
    &&& answer_to(after, i + 1) matches AnswerView::Facts(pointer)
    &&& pointer.kind == FileKind::Regular
    &&& answer_to(after, i + 2) == AnswerView::Bytes(lit("gitdir: ./.bare\n"))
}

/// Whether a directory was looked at, from the `from`th request on, and was not shown to be a grove.
pub open spec fn shown_to_be_none(after: FileSession, from: int, root: Seq<u8>) -> bool {
    exists|i: int|
        from <= i < after.calls.len() && #[trigger] after.calls[i] == FileRequest::Inspect(
            child(root, lit(".bare")),
        ) && !shows_grove(after, i, root)
}

/// What a look at one directory comes to.
proof fn lemma_look(s: FileSession, root: Seq<u8>)
    ensures
        ({
            let (s1, marked) = marked_run(s, root);
            let n = s.calls.len() as int;
            &&& s1.script == s.script
            &&& s.calls.is_prefix_of(s1.calls)
            &&& n < s1.calls.len() <= n + 3
            &&& s1.calls[n] == FileRequest::Inspect(child(root, lit(".bare")))
            &&& marked ==> s1.calls.len() == n + 3 && shows_grove(s1, n, root)
            &&& !marked ==> (forall|later: FileSession|
                later.script == s.script && #[trigger] s1.calls.is_prefix_of(later.calls)
                    ==> !shows_grove(later, n, root))
        }),
{
    let (s1, marked) = marked_run(s, root);
    let n = s.calls.len() as int;
    let bare = FileRequest::Inspect(child(root, lit(".bare")));
    let git = FileRequest::Inspect(child(root, lit(".git")));
    let read = FileRequest::Read(child(root, lit(".git")));
    assert(s1.calls.take(n + 1) =~= s.calls.push(bare));
    if s1.calls.len() > n + 1 {
        assert(s1.calls.take(n + 2) =~= s.calls.push(bare).push(git));
    }
    if s1.calls.len() > n + 2 {
        assert(s1.calls.take(n + 3) =~= s.calls.push(bare).push(git).push(read));
    }
    assert forall|later: FileSession|
        !marked && later.script == s.script && #[trigger] s1.calls.is_prefix_of(
            later.calls,
        ) implies !shows_grove(later, n, root) by {
        assert(later.calls.take(n + 1) =~= s.calls.push(bare));
        if s1.calls.len() > n + 1 {
            assert(later.calls.take(n + 2) =~= s.calls.push(bare).push(git));
        }
        if s1.calls.len() > n + 2 {
            assert(later.calls.take(n + 3) =~= s.calls.push(bare).push(git).push(read));
        }
    }
}

/// A grove that is found is shown to be one, and it is the innermost: every directory between it and
/// the one that was asked about was looked at, and shown to be none.
pub proof fn the_innermost_grove_is_found(s: FileSession, list: Seq<Part>, n: int)
    ensures
        ({
            let (s1, r) = discover_from(s, list, n);
            let from = s.calls.len() as int;
            &&& s1.script == s.script
            &&& s.calls.is_prefix_of(s1.calls)
            &&& r is Ok ==> exists|k: int|
                0 < k <= n && r->Ok_0 == #[trigger] rendered(list, k) && shows_grove(
                    s1,
                    s1.calls.len() - 3,
                    r->Ok_0,
                ) && forall|j: int|
                    k < j <= n ==> shown_to_be_none(s1, from, #[trigger] rendered(list, j))
            &&& r is Err ==> forall|j: int|
                0 < j <= n ==> shown_to_be_none(s1, from, #[trigger] rendered(list, j))
        }),
    decreases n,
{
    if n > 0 {
        let here = rendered(list, n);
        let (s1, marked) = marked_run(s, here);
        lemma_look(s, here);
        let from = s.calls.len() as int;
        if marked {
            assert(discover_from(s, list, n).1->Ok_0 == rendered(list, n));
        } else {
            the_innermost_grove_is_found(s1, list, n - 1);
            let (s2, r) = discover_from(s1, list, n - 1);
            assert(s2.calls[from] == s1.calls[from]);
            assert(shown_to_be_none(s2, from, here));
            assert forall|j: int| 0 < j < n && shown_to_be_none(
                s2,
                s1.calls.len() as int,
                #[trigger] rendered(list, j),
            ) implies shown_to_be_none(s2, from, rendered(list, j)) by {
                let i = choose|i: int|
                    s1.calls.len() <= i < s2.calls.len() && #[trigger] s2.calls[i]
                        == FileRequest::Inspect(child(rendered(list, j), lit(".bare")))
                        && !shows_grove(s2, i, rendered(list, j));
                assert(s2.calls[i] == FileRequest::Inspect(
                    child(rendered(list, j), lit(".bare")),
                ));
            }
            if r is Ok {
                let k = choose|k: int|
                    0 < k <= n - 1 && r->Ok_0 == #[trigger] rendered(list, k) && shows_grove(
                        s2,
                        s2.calls.len() - 3,
                        r->Ok_0,
                    ) && forall|j: int|
                        k < j <= n - 1 ==> shown_to_be_none(
                            s2,
                            s1.calls.len() as int,
                            #[trigger] rendered(list, j),
                        );
                assert(r->Ok_0 == rendered(list, k));
                assert forall|j: int| k < j <= n implies shown_to_be_none(
                    s2,
                    from,
                    #[trigger] rendered(list, j),
                ) by {
                    if j < n {
                        assert(shown_to_be_none(
                            s2,
                            s1.calls.len() as int,
                            rendered(list, j),
                        ));
                    }
                }
            } else {
                assert forall|j: int| 0 < j <= n implies shown_to_be_none(
                    s2,
                    from,
                    #[trigger] rendered(list, j),
                ) by {
                    if j < n {
                        assert(shown_to_be_none(
                            s2,
                            s1.calls.len() as int,
                            rendered(list, j),
                        ));
                    }
                }
            }
        }
    }
}

} // verus!

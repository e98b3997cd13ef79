//! Files as they were found, and the relative paths that name them below a held directory.
use vstd::prelude::*;
use crate::bytes::{copied, has_byte, is_lit, lit, NUL, SLASH};
use crate::error::{failure, failure_error, ErrorView, Result};
use crate::path::{absolute, components, is_absolute, joined_names, part_views, parts, Component, Part};

verus! {

#[derive(Clone, Copy, Debug, PartialEq, Eq, Structural)]
pub struct Timespec {
    pub seconds: i64,
    pub nanoseconds: u32,
}

/// What identifies a file and tells whether it was touched.
#[derive(Clone, Copy, Debug, PartialEq, Eq)]
pub struct FileIdentity {
    pub dev: u64,
    pub ino: u64,
    pub mode: u32,
    pub nlink: u64,
    pub size: u64,
    pub mtime: Timespec,
    pub ctime: Timespec,
    pub mount_id: u64,
    pub sha256: Option<[u8; 32]>,
}

/// What kind of directory entry a mode belongs to.
#[derive(Clone, Copy, Debug, PartialEq, Eq, Structural)]
pub enum FileKind {
    Regular,
    Directory,
    Symlink,
    Other,
}

pub open spec fn kind_of(mode: u32) -> FileKind {
    if mode & 0xf000 == 0x8000 {
        FileKind::Regular
    } else if mode & 0xf000 == 0x4000 {
        FileKind::Directory
    } else if mode & 0xf000 == 0xa000 {
        FileKind::Symlink
    } else {
        FileKind::Other
    }
}

/// The kind of a directory entry, from its mode.
///
/// Trusted: `rustix::fs::FileType::from_raw_mode`, which compares the format bits of the mode
/// (`0xf000`) with those of a regular file (`0x8000`), a directory (`0x4000`) and a symbolic
/// link (`0xa000`).
#[verifier::external_body]
pub(crate) fn file_kind(mode: u32) -> (r: FileKind)
    ensures
        r == kind_of(mode),
{
    match rustix::fs::FileType::from_raw_mode(mode) {
        rustix::fs::FileType::RegularFile => FileKind::Regular,
        rustix::fs::FileType::Directory => FileKind::Directory,
        rustix::fs::FileType::Symlink => FileKind::Symlink,
        _ => FileKind::Other,
    }
}

/// Whether two digests, present or not, hold the same bytes.
pub open spec fn same_digest(a: Option<[u8; 32]>, b: Option<[u8; 32]>) -> bool {
    match (a, b) {
        (None, None) => true,
        (Some(x), Some(y)) => x@ == y@,
        _ => false,
    }
}

/// Whether two digests, present or not, hold the same bytes.
pub fn digests_match(a: &Option<[u8; 32]>, b: &Option<[u8; 32]>) -> (r: bool)
    ensures
        r == same_digest(*a, *b),
{
    match (a, b) {
        (None, None) => true,
        (Some(x), Some(y)) => digest_bytes_match(x, y),
        _ => false,
    }
}

/// Whether two digests hold the same bytes.
pub fn digest_bytes_match(x: &[u8; 32], y: &[u8; 32]) -> (r: bool)
    ensures
        r == (x@ == y@),
{
    let mut i: usize = 0;
    while i < 32
        invariant
            i <= 32,
            forall|j: int| 0 <= j < i ==> x@[j] == y@[j],
        decreases 32 - i,
    {
        if x[i] != y[i] {
            return false;
        }
        i = i + 1;
    }
    proof {
        assert(x@ =~= y@);
    }
    true
}

/// Whether every recorded property of two files agrees.
pub open spec fn same_identity(a: FileIdentity, b: FileIdentity) -> bool {
    &&& same_stable(a, b)
    &&& a.mtime == b.mtime
    &&& a.ctime == b.ctime
}

/// Whether two files agree in everything but their time stamps.
pub open spec fn same_stable(a: FileIdentity, b: FileIdentity) -> bool {
    &&& a.dev == b.dev
    &&& a.ino == b.ino
    &&& a.mode == b.mode
    &&& a.nlink == b.nlink
    &&& a.size == b.size
    &&& a.mount_id == b.mount_id
    &&& same_digest(a.sha256, b.sha256)
}

/// Whether two files agree in everything but their time stamps.
pub fn same_stable_file(left: &FileIdentity, right: &FileIdentity) -> (r: bool)
    ensures
        r == same_stable(*left, *right),
{
    left.dev == right.dev && left.ino == right.ino && left.mode == right.mode && left.nlink
        == right.nlink && left.size == right.size && left.mount_id == right.mount_id
        && digests_match(&left.sha256, &right.sha256)
}

/// Whether every recorded property of two files agrees.
pub fn identities_match(left: &FileIdentity, right: &FileIdentity) -> (r: bool)
    ensures
        r == same_identity(*left, *right),
{
    same_stable_file(left, right) && left.mtime == right.mtime && left.ctime == right.ctime
}

/// A file below a held directory.
#[derive(Debug)]
pub struct InventoryEntry {
    pub path: ValidatedRelativePath,
    pub identity: FileIdentity,
}

/// A relative path made of names only: no `.`, no `..`, no empty name, no NUL.
#[derive(Debug)]
pub struct ValidatedRelativePath {
    names: Vec<Vec<u8>>,
    bytes: Vec<u8>,
}

/// Whether a byte string can name a directory entry.
pub open spec fn valid_name(name: Seq<u8>) -> bool {
    &&& name.len() > 0
    &&& name != lit(".")
    &&& name != lit("..")
    &&& !name.contains(SLASH)
    &&& !name.contains(NUL)
}

/// What validation makes of the first `n` components.
pub open spec fn checked_names(list: Seq<Part>, n: int) -> std::result::Result<
    Seq<Seq<u8>>,
    ErrorView,
>
    decreases n,
{
    if n <= 0 {
        Ok(seq![])
    } else {
        match checked_names(list, n - 1) {
            Err(e) => Err(e),
            Ok(names) => match list[n - 1] {
                Part::Normal(name) => if valid_name(name) {
                    Ok(names.push(name))
                } else {
                    Err(failure("internal path contains an invalid component"@))
                },
                _ => Err(
                    failure("internal path contains an empty, dot, or parent component"@),
                ),
            },
        }
    }
}

/// What validation makes of a path: the names it consists of, or why it is refused.
pub open spec fn checked_path(path: Seq<u8>) -> std::result::Result<Seq<Seq<u8>>, ErrorView> {
    if absolute(path) {
        Err(failure("internal path is absolute"@))
    } else {
        match checked_names(parts(path), parts(path).len() as int) {
            Err(e) => Err(e),
            Ok(names) => if names.len() == 0 {
                Err(failure("internal path is empty"@))
            } else {
                Ok(names)
            },
        }
    }
}

pub open spec fn checked_component(name: Seq<u8>) -> std::result::Result<Seq<Seq<u8>>, ErrorView> {
    if valid_name(name) {
        Ok(seq![name])
    } else {
        Err(failure("internal path contains an invalid component"@))
    }
}

/// What validation makes of one name more below names that were accepted.
pub open spec fn checked_below(prefix: Seq<Seq<u8>>, name: Seq<u8>) -> std::result::Result<
    Seq<Seq<u8>>,
    ErrorView,
> {
    if valid_name(name) {
        Ok(prefix.push(name))
    } else {
        Err(failure("internal path contains an invalid component"@))
    }
}

pub open spec fn path_outcome(r: Result<ValidatedRelativePath>) -> std::result::Result<
    Seq<Seq<u8>>,
    ErrorView,
> {
    match r {
        Ok(p) => Ok(p@),
        Err(e) => Err(e@),
    }
}

/// An accepted path consists of names only, and of at least one.
pub proof fn accepted_paths_hold_only_names(path: Seq<u8>)
    requires
        checked_path(path) is Ok,
    ensures
        checked_path(path)->Ok_0.len() > 0,
        forall|i: int|
            0 <= i < checked_path(path)->Ok_0.len() ==> valid_name(
                #[trigger] checked_path(path)->Ok_0[i],
            ),
{
    lemma_checked_names(parts(path), parts(path).len() as int);
}

/// A path that is accepted is accepted again as it is then written, with the same names.
pub proof fn accepted_paths_are_accepted_again(path: Seq<u8>)
    requires
        checked_path(path) is Ok,
    ensures
        checked_path(joined_names(checked_path(path)->Ok_0)) == checked_path(path),
{
    accepted_paths_hold_only_names(path);
    let names = checked_path(path)->Ok_0;
    assert forall|i: int| 0 <= i < names.len() implies crate::path::names_one(
        #[trigger] names[i],
    ) by {
        assert(valid_name(names[i]));
    }
    crate::path::joined_names_are_the_components(names);
    let list = parts(joined_names(names));
    lemma_names_checked(list, names, names.len() as int);
    assert(names.take(names.len() as int) =~= names);
}

proof fn lemma_names_checked(list: Seq<Part>, names: Seq<Seq<u8>>, n: int)
    requires
        0 <= n <= names.len(),
        list == names.map_values(|name: Seq<u8>| Part::Normal(name)),
        forall|i: int| 0 <= i < names.len() ==> valid_name(#[trigger] names[i]),
    ensures
        checked_names(list, n) == Ok::<Seq<Seq<u8>>, ErrorView>(names.take(n)),
    decreases n,
{
    if n > 0 {
        lemma_names_checked(list, names, n - 1);
        assert(valid_name(names[n - 1]));
        assert(names.take(n - 1).push(names[n - 1]) =~= names.take(n));
    } else {
        assert(names.take(0) =~= seq![]);
    }
}

proof fn lemma_checked_names(list: Seq<Part>, n: int)
    requires
        checked_names(list, n) is Ok,
    ensures
        forall|i: int|
            0 <= i < checked_names(list, n)->Ok_0.len() ==> valid_name(
                #[trigger] checked_names(list, n)->Ok_0[i],
            ),
    decreases n,
{
    if n > 0 {
        lemma_checked_names(list, n - 1);
    }
}

/// An error among the first components stays the answer whatever follows.
proof fn lemma_checked_error(list: Seq<Part>, n: int, m: int)
    requires
        n <= m,
        checked_names(list, n) is Err,
    ensures
        checked_names(list, m) == checked_names(list, n),
    decreases m - n,
{
    if n < m {
        lemma_checked_error(list, n, m - 1);
    }
}

impl View for ValidatedRelativePath {
    type V = Seq<Seq<u8>>;

    closed spec fn view(&self) -> Seq<Seq<u8>> {
        crate::bytes::views(self.names@)
    }
}

/// Checks one name.
pub fn validate_component(name: &[u8]) -> (r: Result<()>)
    ensures
        match r {
            Ok(_) => valid_name(name@),
            Err(e) => !valid_name(name@) && e@ == failure(
                "internal path contains an invalid component"@,
            ),
        },
{
    if name.len() == 0 || is_lit(name, ".") || is_lit(name, "..") || has_byte(name, SLASH)
        || has_byte(name, NUL) {
        return Err(failure_error("internal path contains an invalid component"));
    }
    Ok(())
}

impl ValidatedRelativePath {
    #[verifier::type_invariant]
    spec fn consistent(self) -> bool {
        &&& self.bytes@ == joined_names(crate::bytes::views(self.names@))
        &&& self.names@.len() > 0
        &&& forall|i: int| 0 <= i < self.names@.len() ==> valid_name((#[trigger] self.names@[i])@)
    }

    /// Checks a path and takes it apart into its names.
    pub fn new(path: &[u8]) -> (r: Result<ValidatedRelativePath>)
        ensures
            path_outcome(r) == checked_path(path@),
    {
        broadcast use crate::bytes::lemma_views_push;

        if is_absolute(path) {
            return Err(failure_error("internal path is absolute"));
        }
        let list = components(path);
        let ghost all = parts(path@);
        let mut names: Vec<Vec<u8>> = Vec::new();
        let mut bytes: Vec<u8> = Vec::new();
        let mut i: usize = 0;
        proof {
            assert(part_views(list@).len() == list@.len());
            assert(crate::bytes::views(names@) =~= seq![]);
            assert(bytes@ =~= seq![]);
        }
        while i < list.len()
            invariant
                i <= list.len(),
                !absolute(path@),
                all == parts(path@),
                part_views(list@) == all,
                all.len() == list@.len(),
                checked_names(all, i as int) == Ok::<Seq<Seq<u8>>, ErrorView>(
                    crate::bytes::views(names@),
                ),
                names@.len() == i,
                bytes@ == joined_names(crate::bytes::views(names@)),
                forall|j: int| 0 <= j < names@.len() ==> valid_name((#[trigger] names@[j])@),
            decreases list.len() - i,
        {
            broadcast use crate::bytes::lemma_views_push;

            proof {
                assert(all[i as int] == list@[i as int]@);
            }
            match &list[i] {
                Component::Normal(name) => {
                    match validate_component(name.as_slice()) {
                        Err(e) => {
                            proof {
                                lemma_checked_error(all, i + 1, all.len() as int);
                            }
                            return Err(e);
                        },
                        Ok(_) => {},
                    }
                    let ghost before = crate::bytes::views(names@);
                    if i > 0 {
                        bytes.push(SLASH);
                    }
                    bytes.extend_from_slice(name.as_slice());
                    names.push(copied(name.as_slice()));
                    proof {
                        assert(before.push(name@).drop_last() =~= before);
                    }
                },
                _ => {
                    proof {
                        lemma_checked_error(all, i + 1, all.len() as int);
                    }
                    return Err(
                        failure_error("internal path contains an empty, dot, or parent component"),
                    );
                },
            }
            i = i + 1;
        }
        if names.len() == 0 {
            return Err(failure_error("internal path is empty"));
        }
        Ok(ValidatedRelativePath { names, bytes })
    }

    /// A path of one name.
    pub fn component(component: &[u8]) -> (r: Result<ValidatedRelativePath>)
        ensures
            path_outcome(r) == checked_component(component@),
    {
        validate_component(component)?;
        let mut names: Vec<Vec<u8>> = Vec::new();
        names.push(copied(component));
        proof {
            assert(crate::bytes::views(names@) =~= seq![component@]);
        }
        Ok(ValidatedRelativePath { names, bytes: copied(component) })
    }

    /// The names the path consists of.
    pub fn names(&self) -> (r: &Vec<Vec<u8>>)
        ensures
            crate::bytes::views(r@) == self@,
            r@.len() > 0,
    {
        proof {
            use_type_invariant(self);
        }
        &self.names
    }

    /// A path of one name more than `prefix` has.
    pub fn below(prefix: &Vec<Vec<u8>>, name: &[u8]) -> (r: Result<ValidatedRelativePath>)
        requires
            forall|i: int| 0 <= i < prefix@.len() ==> valid_name((#[trigger] prefix@[i])@),
        ensures
            path_outcome(r) == checked_below(crate::bytes::views(prefix@), name@),
            r matches Ok(p) ==> forall|i: int| 0 <= i < p@.len() ==> valid_name(#[trigger] p@[i]),
    {
        broadcast use crate::bytes::lemma_views_push;

        validate_component(name)?;
        let mut names = crate::bytes::copied_list(prefix);
        proof {
            assert forall|i: int| 0 <= i < names@.len() implies valid_name(
                (#[trigger] names@[i])@,
            ) by {
                assert(crate::bytes::views(names@)[i] == crate::bytes::views(prefix@)[i]);
                assert(valid_name(prefix@[i]@));
            }
        }
        names.push(copied(name));
        let bytes = crate::path::join_names(&names);
        let r = ValidatedRelativePath { names, bytes };
        proof {
            assert forall|i: int| 0 <= i < r@.len() implies valid_name(#[trigger] r@[i]) by {
                assert(r@[i] == names@[i]@);
            }
        }
        Ok(r)
    }

    /// The path: its names with one slash between each two.
    pub fn as_path(&self) -> (r: &[u8])
        ensures
            r@ == joined_names(self@),
    {
        proof {
            use_type_invariant(self);
        }
        self.bytes.as_slice()
    }

    /// A copy of the path.
    pub fn copied(&self) -> (r: ValidatedRelativePath)
        ensures
            r@ == self@,
    {
        proof {
            use_type_invariant(self);
        }
        let names = crate::bytes::copied_list(&self.names);
        proof {
            assert forall|i: int| 0 <= i < names@.len() implies valid_name(
                (#[trigger] names@[i])@,
            ) by {
                assert(crate::bytes::views(names@)[i] == crate::bytes::views(self.names@)[i]);
            }
        }
        ValidatedRelativePath { names, bytes: copied(self.bytes.as_slice()) }
    }
}

} // verus!

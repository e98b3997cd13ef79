//! The guide in a grove's root, and the link to it under another name.
use vstd::prelude::*;
use crate::bytes::lit;
use crate::error::{plain, Result};
use crate::fsx::files::{FileSession, FileSystem};
use crate::fsx::write::{
    possible_nonces, symlink_absent_run, symlink_relative_if_absent, write_absent_run,
    write_atomic_if_absent, Nonces, TempStrategy,
};
use crate::git::config::Outcome;
use crate::path::{child, join_path, join_word};

verus! {

/// Leaving a guide in the root of a grove. One that is there is the user's, and stays as it is,
/// and so does what goes by the other name; the result says whether one was written.
pub open spec fn leave_run(
    f: FileSession,
    root: Seq<u8>,
    guide: Seq<u8>,
    link: Seq<u8>,
    drawn: Nonces,
) -> (FileSession, Outcome<bool>) {
    match write_absent_run(f, child(root, lit("AGENTS.md")), guide, TempStrategy::Auto, drawn) {
        (f1, Err(e)) => (f1, Err(e)),
        (f1, Ok(false)) => (f1, Ok(false)),
        (f1, Ok(true)) => match symlink_absent_run(f1, child(root, link), lit("AGENTS.md")) {
            (f2, Err(e)) => (f2, Err(e)),
            (f2, Ok(_)) => (f2, Ok(true)),
        },
    }
}

/// Leaves a guide in the root of a grove that has none.
pub fn leave_guide<F: FileSystem + ?Sized>(files: &mut F, root: &[u8], guide: &[u8], link: &[u8]) -> (r:
    Result<bool>)
    ensures
        exists|drawn: Nonces|
            possible_nonces(drawn) && (final(files).files(), plain(r)) == #[trigger] leave_run(
                old(files).files(),
                root@,
                guide@,
                link@,
                drawn,
            ),
{
    let ghost f = files.files();
    let agents = join_word(root, "AGENTS.md");
    let wrote = write_atomic_if_absent(files, agents.as_slice(), guide);
    let ghost drawn = choose|drawn: Nonces|
        possible_nonces(drawn) && (files.files(), plain(wrote)) == #[trigger] write_absent_run(
            f,
            agents@,
            guide@,
            TempStrategy::Auto,
            drawn,
        );
    let r = match wrote {
        Err(e) => Err(e),
        Ok(false) => Ok(false),
        Ok(true) => match symlink_relative_if_absent(
            files,
            join_path(root, link).as_slice(),
            "AGENTS.md",
        ) {
            Err(e) => Err(e),
            Ok(_) => Ok(true),
        },
    };
    proof {
        assert((files.files(), plain(r)) == leave_run(f, root@, guide@, link@, drawn));
    }
    r
}

} // verus!

//! How entries are shown to people.
use vstd::prelude::*;
use crate::commands::adopt::evidence::{ContentView, ManifestContent, ManifestEntry, ManifestView};
use crate::fsx::held::{FileIdentity, Timespec};
use crate::text::{
    decimal, decimal_nat, escape, escaped, join, joined_text, lemma_texts_push, number,
    seconds_number, text, texts,
};

verus! {

/// Bytes in decimal, one by one.
pub open spec fn byte_list(bytes: Seq<u8>) -> Seq<char> {
    "["@ + joined_text(bytes.map_values(|b: u8| decimal_nat(b as nat)), ", "@) + "]"@
}

fn show_bytes(bytes: &[u8]) -> (r: String)
    ensures
        r@ == byte_list(bytes@),
{
    broadcast use lemma_texts_push;

    let ghost all = bytes@.map_values(|b: u8| decimal_nat(b as nat));
    let mut list: Vec<String> = Vec::new();
    let mut i: usize = 0;
    proof {
        assert(texts(list@) =~= all.take(0));
    }
    while i < bytes.len()
        invariant
            i <= bytes.len(),
            all == bytes@.map_values(|b: u8| decimal_nat(b as nat)),
            texts(list@) == all.take(i as int),
        decreases bytes.len() - i,
    {
        broadcast use lemma_texts_push;

        list.push(number(bytes[i] as u64));
        proof {
            assert(all.take(i as int).push(all[i as int]) =~= all.take(i + 1));
        }
        i = i + 1;
    }
    proof {
        assert(all.take(i as int) =~= all);
    }
    text("[").concat(join(&list, ", ").as_str()).concat("]")
}

pub open spec fn time_text(t: Timespec) -> Seq<char> {
    "Timespec { seconds: "@ + decimal(t.seconds as int) + ", nanoseconds: "@ + decimal_nat(
        t.nanoseconds as nat,
    ) + " }"@
}

fn show_time(t: &Timespec) -> (r: String)
    ensures
        r@ == time_text(*t),
{
    text("Timespec { seconds: ").concat(seconds_number(t.seconds).as_str()).concat(
        ", nanoseconds: ",
    ).concat(number(t.nanoseconds as u64).as_str()).concat(" }")
}

pub open spec fn digest_text(digest: Option<[u8; 32]>) -> Seq<char> {
    match digest {
        None => "None"@,
        Some(d) => "Some("@ + byte_list(d@) + ")"@,
    }
}

fn show_digest(digest: &Option<[u8; 32]>) -> (r: String)
    ensures
        r@ == digest_text(*digest),
{
    match digest {
        None => text("None"),
        Some(d) => text("Some(").concat(
            show_bytes(vstd::array::array_as_slice(d)).as_str(),
        ).concat(")"),
    }
}

/// What identifies a file, written out.
pub open spec fn identity_text(i: FileIdentity) -> Seq<char> {
    "FileIdentity { dev: "@ + decimal_nat(i.dev as nat) + ", ino: "@ + decimal_nat(i.ino as nat)
        + ", mode: "@ + decimal_nat(i.mode as nat) + ", nlink: "@ + decimal_nat(i.nlink as nat)
        + ", size: "@ + decimal_nat(i.size as nat) + ", mtime: "@ + time_text(i.mtime)
        + ", ctime: "@ + time_text(i.ctime) + ", mount_id: "@ + decimal_nat(i.mount_id as nat)
        + ", sha256: "@ + digest_text(i.sha256) + " }"@
}

fn show_identity(i: &FileIdentity) -> (r: String)
    ensures
        r@ == identity_text(*i),
{
    text("FileIdentity { dev: ").concat(number(i.dev).as_str()).concat(", ino: ").concat(
        number(i.ino).as_str(),
    ).concat(", mode: ").concat(number(i.mode as u64).as_str()).concat(", nlink: ").concat(
        number(i.nlink).as_str(),
    ).concat(", size: ").concat(number(i.size).as_str()).concat(", mtime: ").concat(
        show_time(&i.mtime).as_str(),
    ).concat(", ctime: ").concat(show_time(&i.ctime).as_str()).concat(", mount_id: ").concat(
        number(i.mount_id).as_str(),
    ).concat(", sha256: ").concat(show_digest(&i.sha256).as_str()).concat(" }")
}

/// An entry of the Git directory, written out.
pub open spec fn git_entry_text(path: Seq<u8>, i: FileIdentity) -> Seq<char> {
    "(\""@ + escape(path) + "\", "@ + identity_text(i) + ")"@
}

/// Writes out an entry of the Git directory.
pub fn show_git_entry(path: &[u8], identity: &FileIdentity) -> (r: String)
    ensures
        r@ == git_entry_text(path@, *identity),
{
    text("(\"").concat(escaped(path).as_str()).concat("\", ").concat(
        show_identity(identity).as_str(),
    ).concat(")")
}

pub open spec fn content_text(c: ContentView) -> Seq<char> {
    match c {
        ContentView::Nothing => "None"@,
        ContentView::Blob { bytes, sha256 } => "Blob { bytes: \""@ + escape(bytes)
            + "\", sha256: "@ + byte_list(sha256) + " }"@,
        ContentView::Symlink { target, sha256 } => "Symlink { target: \""@ + escape(target)
            + "\", sha256: "@ + byte_list(sha256) + " }"@,
    }
}

fn show_content(content: &ManifestContent) -> (r: String)
    ensures
        r@ == content_text(content@),
{
    match content {
        ManifestContent::Nothing => text("None"),
        ManifestContent::Blob { bytes, sha256 } => text("Blob { bytes: \"").concat(
            escaped(bytes.as_slice()).as_str(),
        ).concat("\", sha256: ").concat(show_bytes(sha256.as_slice()).as_str()).concat(" }"),
        ManifestContent::Symlink { target, sha256 } => text("Symlink { target: \"").concat(
            escaped(target.as_slice()).as_str(),
        ).concat("\", sha256: ").concat(show_bytes(sha256.as_slice()).as_str()).concat(" }"),
    }
}

/// An entry of the worktree, written out.
pub open spec fn entry_text(m: ManifestView) -> Seq<char> {
    "ManifestEntry { path: \""@ + escape(m.path) + "\", identity: "@ + identity_text(m.identity)
        + ", content: "@ + content_text(m.content) + " }"@
}

/// Writes out an entry of the worktree.
pub fn show_entry(entry: &ManifestEntry) -> (r: String)
    ensures
        r@ == entry_text(entry@),
{
    text("ManifestEntry { path: \"").concat(escaped(entry.path.as_slice()).as_str()).concat(
        "\", identity: ",
    ).concat(show_identity(&entry.identity).as_str()).concat(", content: ").concat(
        show_content(&entry.content).as_str(),
    ).concat(" }")
}

} // verus!

//! Whether an agent's use of a tool is let through.
//!
//! An agent reads the verdict from what the guard writes, not from its exit status, and takes a
//! guard that fails for one that did not run. So everything that keeps the guard from looking is
//! a denial, never an error.
use vstd::prelude::*;
use vstd::slice::slice_subrange;
use crate::bytes::{after, copied, lemma_views_push, lit, opt_view, prefixed, views};
use crate::fsx::files::{
    ask_bytes, bytes_step, file_step, FileRequest, FileSession, FileSystem, IoOutcome, IoResult,
};
use crate::fsx::looking::{lemma_looked_on, lemma_one_look, only_looked};
use crate::grove::discover::{bare_of, discover, discover_run};
use crate::hooks::{respond, response_text, Protocol, Verdict, VerdictView};
use crate::path::{
    child, components, is_same_path, is_within, join_names, join_path, join_word, joined_names,
    part_views, parts, same_path, within, Component, Part,
};
use crate::text::{lossy, lossy_text, opt_text, text};

verus! {

/// One use of a tool, as far as the guard looks at it: the directory that it names, and the words
/// in what it is given.
#[derive(Debug)]
pub struct ToolUse {
    pub cwd: Option<Vec<u8>>,
    pub words: Vec<Vec<u8>>,
}

pub struct ToolView {
    pub cwd: Option<Seq<u8>>,
    pub words: Seq<Seq<u8>>,
}

impl View for ToolUse {
    type V = ToolView;

    open spec fn view(&self) -> ToolView {
        ToolView { cwd: opt_view(self.cwd), words: views(self.words@) }
    }
}

/// What reading the payload came to: the use of a tool, or why it cannot be read.
pub type Payload = std::result::Result<ToolUse, String>;

pub open spec fn no_directory(error: Seq<char>) -> Seq<char> {
    "grove invariant: refusing -- cannot determine the current directory ("@ + error
        + "), so grove invariants cannot be checked."@
}

pub open spec fn no_grove(cwd: Seq<u8>) -> Seq<char> {
    "grove invariant: refusing -- not inside a grove (discovery from "@ + lossy_text(cwd)
        + " found no grove signature), so grove invariants cannot be checked. If this project is not a grove worktree, remove the git-grove hook group from the agent's local hook configuration."@
}

pub open spec fn io_path(r: IoResult<Vec<u8>>) -> IoOutcome<Seq<u8>> {
    match r {
        Ok(v) => Ok(v@),
        Err(e) => Err(e@),
    }
}

pub open spec fn payload_outcome(p: Payload) -> std::result::Result<ToolView, Seq<char>> {
    match p {
        Ok(tool) => Ok(tool@),
        Err(reason) => Err(reason@),
    }
}

// ---------------------------------------------------------------------- what a tool touches

/// Whether a byte stands between the words of a command: a space, or a sign that shells and
/// programs take words apart at.
pub open spec fn separates(b: u8) -> bool {
    ||| 0x09 <= b <= 0x0d || b == 0x20
    ||| b == 0x22 || b == 0x27 || b == 0x60
    ||| b == 0x26 || b == 0x3b || b == 0x7c
    ||| b == 0x28 || b == 0x29
    ||| b == 0x3c || b == 0x3d || b == 0x3e
}

fn is_separator(b: u8) -> (r: bool)
    ensures
        r == separates(b),
{
    (0x09 <= b && b <= 0x0d) || b == 0x20 || b == 0x22 || b == 0x27 || b == 0x60 || b == 0x26 || b
        == 0x3b || b == 0x7c || b == 0x28 || b == 0x29 || b == 0x3c || b == 0x3d || b == 0x3e
}

/// Where the word ends that reaches up to `i`.
pub open spec fn word_end(s: Seq<u8>, i: int) -> int
    decreases s.len() - i,
{
    if i >= s.len() || separates(s[i]) {
        i
    } else {
        word_end(s, i + 1)
    }
}

/// The words in a piece of text.
pub open spec fn words_of(s: Seq<u8>) -> Seq<Seq<u8>>
    decreases s.len(),
    via words_of_shrink
{
    if s.len() == 0 {
        Seq::empty()
    } else if separates(s[0]) {
        words_of(after(s, 1))
    } else {
        seq![s.subrange(0, word_end(s, 1))] + words_of(after(s, word_end(s, 1)))
    }
}

#[via_fn]
proof fn words_of_shrink(s: Seq<u8>) {
    lemma_word_end(s, 1);
}

proof fn lemma_word_end(s: Seq<u8>, i: int)
    requires
        0 <= i,
    ensures
        i <= s.len() ==> i <= word_end(s, i) <= s.len(),
        i > s.len() ==> word_end(s, i) == i,
        forall|j: int| i <= j < word_end(s, i) && j < s.len() ==> !separates(#[trigger] s[j]),
    decreases s.len() - i,
{
    if i < s.len() && !separates(s[i]) {
        lemma_word_end(s, i + 1);
    }
}

/// Whether something is one word.
pub open spec fn is_word(w: Seq<u8>) -> bool {
    w.len() > 0 && forall|i: int| 0 <= i < w.len() ==> !separates(#[trigger] w[i])
}

/// Every word has something in it, and no sign that words are taken apart at.
pub proof fn words_are_whole(s: Seq<u8>)
    ensures
        forall|i: int| 0 <= i < words_of(s).len() ==> is_word(#[trigger] words_of(s)[i]),
    decreases s.len(),
{
    if s.len() > 0 {
        if separates(s[0]) {
            let rest = after(s, 1);
            words_are_whole(rest);
            assert forall|i: int| 0 <= i < words_of(s).len() implies is_word(
                #[trigger] words_of(s)[i],
            ) by {
                assert(is_word(words_of(rest)[i]));
            }
        } else {
            lemma_word_end(s, 1);
            let n = word_end(s, 1);
            words_are_whole(after(s, n));
            let rest = words_of(after(s, n));
            assert forall|i: int| 0 <= i < words_of(s).len() implies is_word(
                #[trigger] words_of(s)[i],
            ) by {
                if i > 0 {
                    assert(words_of(s)[i] == rest[i - 1]);
                } else {
                    let w = s.subrange(0, n);
                    assert(words_of(s)[0] == w);
                    assert forall|j: int| 0 <= j < w.len() implies !separates(
                        #[trigger] w[j],
                    ) by {
                        assert(w[j] == s[j]);
                    }
                }
            }
        }
    }
}

/// Takes a piece of text apart into its words.
pub fn words(text: &[u8]) -> (r: Vec<Vec<u8>>)
    ensures
        views(r@) == words_of(text@),
{
    let mut out: Vec<Vec<u8>> = Vec::new();
    let mut i: usize = 0;
    proof {
        assert(after(text@, 0) =~= text@);
        assert(views(out@) + words_of(text@) =~= words_of(text@));
    }
    while i < text.len()
        invariant
            i <= text.len(),
            views(out@) + words_of(after(text@, i as int)) == words_of(text@),
        decreases text.len() - i,
    {
        let ghost rest = after(text@, i as int);
        let ghost before = views(out@);
        proof {
            assert(rest[0] == text@[i as int]);
        }
        if is_separator(text[i]) {
            proof {
                assert(after(rest, 1) =~= after(text@, i + 1));
            }
            i = i + 1;
        } else {
            let mut end: usize = i + 1;
            while end < text.len() && !is_separator(text[end])
                invariant
                    i < end <= text.len(),
                    rest == after(text@, i as int),
                    word_end(rest, 1) == word_end(rest, end - i),
                decreases text.len() - end,
            {
                proof {
                    assert(rest[end - i] == text@[end as int]);
                }
                end = end + 1;
            }
            proof {
                if end < text.len() {
                    assert(rest[end - i] == text@[end as int]);
                }
                assert(word_end(rest, 1) == end - i);
                assert(rest.subrange(0, end - i) =~= text@.subrange(i as int, end as int));
                assert(after(rest, end - i) =~= after(text@, end as int));
            }
            let word = copied(slice_subrange(text, i, end));
            proof {
                lemma_views_push(out@, word);
                assert(before.push(word@) + words_of(after(text@, end as int)) =~= before + (
                seq![word@] + words_of(after(text@, end as int))));
            }
            out.push(word);
            i = end;
        }
    }
    proof {
        assert(after(text@, i as int) =~= Seq::<u8>::empty());
        assert(views(out@) + Seq::<Seq<u8>>::empty() =~= views(out@));
    }
    out
}

/// The names that the first `n` components come to when `.` and `..` are resolved in words; above
/// the root there is the root.
pub open spec fn plain_names(list: Seq<Part>, n: int) -> Seq<Seq<u8>>
    decreases n,
{
    if n <= 0 {
        Seq::empty()
    } else {
        let before = plain_names(list, n - 1);
        match list[n - 1] {
            Part::Normal(name) => before.push(name),
            Part::Parent => if before.len() == 0 {
                before
            } else {
                before.drop_last()
            },
            _ => before,
        }
    }
}

fn plain(path: &[u8]) -> (r: Vec<Vec<u8>>)
    ensures
        views(r@) == plain_names(parts(path@), parts(path@).len() as int),
{
    let list = components(path);
    let ghost all = parts(path@);
    let mut names: Vec<Vec<u8>> = Vec::new();
    let mut i: usize = 0;
    proof {
        assert(part_views(list@).len() == list@.len());
        assert(views(names@) =~= Seq::empty());
    }
    while i < list.len()
        invariant
            i <= list.len(),
            all == part_views(list@),
            all.len() == list@.len(),
            views(names@) == plain_names(all, i as int),
        decreases list.len() - i,
    {
        let ghost before = names@;
        proof {
            assert(all[i as int] == list@[i as int]@);
            assert(views(before).len() == before.len());
        }
        match &list[i] {
            Component::Normal(name) => {
                let name = copied(name.as_slice());
                proof {
                    lemma_views_push(before, name);
                }
                names.push(name);
            },
            Component::Parent => {
                if names.len() > 0 {
                    names.pop();
                    proof {
                        assert(views(names@) =~= views(before).drop_last());
                    }
                }
            },
            _ => {},
        }
        i = i + 1;
    }
    names
}

fn some_names(names: &Vec<Vec<u8>>, from: usize, to: usize) -> (r: Vec<Vec<u8>>)
    requires
        from <= to <= names@.len(),
    ensures
        views(r@) == views(names@).subrange(from as int, to as int),
{
    let mut out: Vec<Vec<u8>> = Vec::new();
    let mut i: usize = from;
    proof {
        assert(views(out@) =~= views(names@).subrange(from as int, from as int));
    }
    while i < to
        invariant
            from <= i <= to <= names@.len(),
            views(out@) == views(names@).subrange(from as int, i as int),
        decreases to - i,
    {
        let name = copied(names[i].as_slice());
        proof {
            lemma_views_push(out@, name);
            assert(views(names@).subrange(from as int, i + 1) =~= views(names@).subrange(
                from as int,
                i as int,
            ).push(name@));
        }
        out.push(name);
        i = i + 1;
    }
    out
}

/// Where a path of names leads, with the links resolved of as much of it as exists: the first `n`
/// names are tried, and one fewer each time.
pub open spec fn leads_run(f: FileSession, names: Seq<Seq<u8>>, n: int) -> (FileSession, Seq<u8>)
    decreases n,
{
    match bytes_step(
        f,
        FileRequest::Canonicalize(lit("/") + joined_names(names.subrange(0, n))),
    ) {
        (f1, Ok(found)) => (
            f1,
            if n >= names.len() {
                found
            } else {
                child(found, joined_names(names.subrange(n, names.len() as int)))
            },
        ),
        (f1, Err(_)) => if n <= 0 {
            (f1, lit("/") + joined_names(names))
        } else {
            leads_run(f1, names, n - 1)
        },
    }
}

fn leads<F: FileSystem + ?Sized>(files: &mut F, names: &Vec<Vec<u8>>, n: usize) -> (r: Vec<u8>)
    requires
        n <= names@.len(),
    ensures
        (final(files).files(), r@) == leads_run(old(files).files(), views(names@), n as int),
    decreases n,
{
    proof {
        assert(views(names@).len() == names@.len());
    }
    let tried = prefixed("/", join_names(&some_names(names, 0, n)).as_slice());
    match ask_bytes(files, FileRequest::Canonicalize(tried)) {
        Ok(found) => if n == names.len() {
            found
        } else {
            join_path(
                found.as_slice(),
                join_names(&some_names(names, n, names.len())).as_slice(),
            )
        },
        Err(_) => if n == 0 {
            prefixed("/", join_names(names).as_slice())
        } else {
            leads(files, names, n - 1)
        },
    }
}

/// What is said of a word that leads into the grove's administration.
pub open spec fn reaching(word: Seq<u8>) -> Seq<char> {
    "grove invariant: refusing -- "@ + lossy_text(word)
        + " reaches the grove's own administration"@
}

/// Looking at the words from `i` on, each taken for a path from `base`: the first that leads into
/// the bare repository, or to the pointer file, keeps the tool from running.
pub open spec fn examine_from(
    f: FileSession,
    words: Seq<Seq<u8>>,
    base: Seq<u8>,
    bare: Seq<u8>,
    pointer: Seq<u8>,
    i: int,
) -> (FileSession, Option<Seq<char>>)
    decreases words.len() - i,
{
    if i >= words.len() {
        (f, None)
    } else {
        let list = parts(child(base, words[i]));
        let names = plain_names(list, list.len() as int);
        let (f1, path) = leads_run(f, names, names.len() as int);
        if within(path, bare) || same_path(path, pointer) {
            (f1, Some(reaching(words[i])))
        } else {
            examine_from(f1, words, base, bare, pointer, i + 1)
        }
    }
}

/// Where the words of a tool's use are taken from: the directory that its payload names, or the
/// process's own.
pub open spec fn base_of(cwd: Seq<u8>, named: Option<Seq<u8>>) -> Seq<u8> {
    match named {
        Some(directory) => child(cwd, directory),
        None => cwd,
    }
}

/// Says why a tool must not run that is used with these words, if one of them leads into the
/// grove's administration.
pub fn examine<F: FileSystem + ?Sized>(
    files: &mut F,
    words: &Vec<Vec<u8>>,
    named: &Option<Vec<u8>>,
    bare: &[u8],
    pointer: &[u8],
    cwd: &[u8],
) -> (r: Option<String>)
    ensures
        (final(files).files(), opt_text(r)) == examine_from(
            old(files).files(),
            views(words@),
            base_of(cwd@, opt_view(*named)),
            bare@,
            pointer@,
            0,
        ),
{
    let base = match named {
        Some(directory) => join_path(cwd, directory.as_slice()),
        None => copied(cwd),
    };
    let ghost f = files.files();
    let ghost all = views(words@);
    let mut i: usize = 0;
    proof {
        assert(all.len() == words@.len());
    }
    while i < words.len()
        invariant
            i <= words.len(),
            all == views(words@),
            all.len() == words@.len(),
            f == old(files).files(),
            base@ == base_of(cwd@, opt_view(*named)),
            examine_from(f, all, base@, bare@, pointer@, 0) == examine_from(
                files.files(),
                all,
                base@,
                bare@,
                pointer@,
                i as int,
            ),
        decreases words.len() - i,
    {
        proof {
            assert(all[i as int] == words@[i as int]@);
        }
        let names = plain(join_path(base.as_slice(), words[i].as_slice()).as_slice());
        proof {
            assert(views(names@).len() == names@.len());
        }
        let path = leads(files, &names, names.len());
        if is_within(path.as_slice(), bare) || is_same_path(path.as_slice(), pointer) {
            return Some(
                text("grove invariant: refusing -- ").concat(
                    lossy(words[i].as_slice()).as_str(),
                ).concat(" reaches the grove's own administration"),
            );
        }
        i = i + 1;
    }
    None
}

proof fn lemma_leads_by_looking(f: FileSession, names: Seq<Seq<u8>>, n: int)
    ensures
        only_looked(f, leads_run(f, names, n).0),
    decreases n,
{
    let asked = FileRequest::Canonicalize(lit("/") + joined_names(names.subrange(0, n)));
    lemma_one_look(f, asked);
    let f1 = file_step(f, asked).0;
    if n > 0 {
        lemma_leads_by_looking(f1, names, n - 1);
        lemma_looked_on(f, f1, leads_run(f1, names, n - 1).0);
    }
}

/// Looking at what a tool would touch changes nothing on disk.
pub proof fn tools_are_examined_by_looking(
    f: FileSession,
    words: Seq<Seq<u8>>,
    base: Seq<u8>,
    bare: Seq<u8>,
    pointer: Seq<u8>,
    i: int,
)
    ensures
        only_looked(f, examine_from(f, words, base, bare, pointer, i).0),
    decreases words.len() - i,
{
    if i < words.len() {
        let list = parts(child(base, words[i]));
        let names = plain_names(list, list.len() as int);
        lemma_leads_by_looking(f, names, names.len() as int);
        let f1 = leads_run(f, names, names.len() as int).0;
        tools_are_examined_by_looking(f1, words, base, bare, pointer, i + 1);
        lemma_looked_on(f, f1, examine_from(f1, words, base, bare, pointer, i + 1).0);
    }
}

// --------------------------------------------------------------------------- the verdict

/// What is said of a payload, given the process's own current directory. The directory that a
/// payload itself names plays no part in finding the grove.
pub open spec fn decide_run(
    f: FileSession,
    payload: std::result::Result<ToolView, Seq<char>>,
    cwd: IoOutcome<Seq<u8>>,
) -> (FileSession, VerdictView) {
    match (payload, cwd) {
        (Err(reason), _) => (f, VerdictView::Deny("grove invariant: "@ + reason)),
        (Ok(_), Err(e)) => (f, VerdictView::Deny(no_directory(e.text))),
        (Ok(tool), Ok(cwd)) => match discover_run(f, cwd) {
            (f1, Err(_)) => (f1, VerdictView::Deny(no_grove(cwd))),
            (f1, Ok(root)) => match examine_from(
                f1,
                tool.words,
                base_of(cwd, tool.cwd),
                bare_of(root),
                child(root, lit(".git")),
                0,
            ) {
                (f2, Some(reason)) => (f2, VerdictView::Deny(reason)),
                (f2, None) => (f2, VerdictView::Allow),
            },
        },
    }
}

/// Says whether a tool may run: one that touches neither the bare repository nor the pointer file
/// of the grove around the current directory.
pub fn decide<F: FileSystem + ?Sized>(
    files: &mut F,
    payload: Payload,
    process_cwd: IoResult<Vec<u8>>,
) -> (r: Verdict)
    ensures
        (final(files).files(), r@) == decide_run(
            old(files).files(),
            payload_outcome(payload),
            io_path(process_cwd),
        ),
{
    let tool = match payload {
        Err(reason) => {
            return Verdict::Deny(text("grove invariant: ").concat(reason.as_str()));
        },
        Ok(tool) => tool,
    };
    let cwd = match process_cwd {
        Err(error) => {
            return Verdict::Deny(
                text(
                    "grove invariant: refusing -- cannot determine the current directory (",
                ).concat(error.text.as_str()).concat(
                    "), so grove invariants cannot be checked.",
                ),
            );
        },
        Ok(cwd) => cwd,
    };
    let grove = match discover(files, cwd.as_slice()) {
        Err(_) => {
            return Verdict::Deny(
                text("grove invariant: refusing -- not inside a grove (discovery from ").concat(
                    lossy(cwd.as_slice()).as_str(),
                ).concat(
                    " found no grove signature), so grove invariants cannot be checked. If this project is not a grove worktree, remove the git-grove hook group from the agent's local hook configuration.",
                ),
            );
        },
        Ok(grove) => grove,
    };
    let pointer = join_word(grove.root.as_slice(), ".git");
    match examine(
        files,
        &tool.words,
        &tool.cwd,
        grove.bare_dir().as_slice(),
        pointer.as_slice(),
        cwd.as_slice(),
    ) {
        Some(reason) => Verdict::Deny(reason),
        None => Verdict::Allow,
    }
}

/// Answers one use of a tool: everything that keeps the guard from looking is a denial in the
/// agent's own protocol.
pub fn run<F: FileSystem + ?Sized>(
    files: &mut F,
    protocol: Protocol,
    payload: Payload,
    process_cwd: IoResult<Vec<u8>>,
) -> (r: String)
    ensures
        ({
            let (f, verdict) = decide_run(
                old(files).files(),
                payload_outcome(payload),
                io_path(process_cwd),
            );
            final(files).files() == f && r@ == response_text(protocol, verdict)
        }),
{
    let verdict = decide(files, payload, process_cwd);
    respond(protocol, &verdict)
}

/// A payload that cannot be read is denied before anything is looked up.
pub proof fn unreadable_payloads_are_denied(
    f: FileSession,
    reason: Seq<char>,
    cwd: IoOutcome<Seq<u8>>,
)
    ensures
        decide_run(f, Err(reason), cwd).0 == f,
        decide_run(f, Err(reason), cwd).1 is Deny,
{
}

/// Outside a grove, and where the current directory is unknown, every tool is denied.
pub proof fn nothing_is_let_through_outside_a_grove(
    f: FileSession,
    payload: std::result::Result<ToolView, Seq<char>>,
    cwd: IoOutcome<Seq<u8>>,
)
    requires
        cwd is Err || discover_run(f, cwd->Ok_0).1 is Err,
    ensures
        decide_run(f, payload, cwd).1 is Deny,
{
}

/// Whether a word, taken for a path from `base`, leads neither into the bare repository nor to the
/// pointer file.
pub open spec fn leads_outside(
    f: FileSession,
    word: Seq<u8>,
    base: Seq<u8>,
    bare: Seq<u8>,
    pointer: Seq<u8>,
) -> bool {
    let list = parts(child(base, word));
    let names = plain_names(list, list.len() as int);
    let path = leads_run(f, names, names.len() as int).1;
    !within(path, bare) && !same_path(path, pointer)
}

proof fn lemma_passed(
    f: FileSession,
    words: Seq<Seq<u8>>,
    base: Seq<u8>,
    bare: Seq<u8>,
    pointer: Seq<u8>,
    i: int,
    j: int,
)
    requires
        0 <= i <= j < words.len(),
        examine_from(f, words, base, bare, pointer, i).1 is None,
    ensures
        exists|g: FileSession|
            only_looked(f, g) && #[trigger] leads_outside(g, words[j], base, bare, pointer),
    decreases words.len() - i,
{
    if i == j {
        assert(only_looked(f, f));
        assert(leads_outside(f, words[j], base, bare, pointer));
    } else {
        let list = parts(child(base, words[i]));
        let names = plain_names(list, list.len() as int);
        lemma_leads_by_looking(f, names, names.len() as int);
        let f1 = leads_run(f, names, names.len() as int).0;
        lemma_passed(f1, words, base, bare, pointer, i + 1, j);
        let g = choose|g: FileSession|
            only_looked(f1, g) && #[trigger] leads_outside(g, words[j], base, bare, pointer);
        lemma_looked_on(f, f1, g);
        assert(leads_outside(g, words[j], base, bare, pointer));
    }
}

/// A tool is let through only inside a grove, and only where every one of its words was found to
/// lead outside the grove's administration.
pub proof fn what_is_let_through_stays_outside(f: FileSession, tool: ToolView, cwd: Seq<u8>, i: int)
    requires
        decide_run(f, Ok(tool), Ok(cwd)).1 is Allow,
        0 <= i < tool.words.len(),
    ensures
        discover_run(f, cwd).1 is Ok,
        ({
            let (f1, root) = discover_run(f, cwd);
            let pointer = child(root->Ok_0, lit(".git"));
            exists|g: FileSession|
                only_looked(f1, g) && #[trigger] leads_outside(
                    g,
                    tool.words[i],
                    base_of(cwd, tool.cwd),
                    bare_of(root->Ok_0),
                    pointer,
                )
        }),
{
    let (f1, root) = discover_run(f, cwd);
    lemma_passed(
        f1,
        tool.words,
        base_of(cwd, tool.cwd),
        bare_of(root->Ok_0),
        child(root->Ok_0, lit(".git")),
        0,
        i,
    );
}

} // verus!

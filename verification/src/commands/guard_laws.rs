//! What the guard of a grove takes a tool's words for, and what it lets through.
use vstd::prelude::*;
use crate::bytes::{after, lit};
use crate::commands::hook_guard::{
    base_of, decide_run, examine_from, leads_outside, leads_run, plain_names, separates, word_end,
    words_of, ToolView,
};
use crate::fsx::files::{AnswerView, FileRequest, FileSession};
use crate::fsx::looking::only_looked;
use crate::grove::discover::discover_run;
use crate::path::{child, joined_names, parts, same_path, within, Part};

verus! {

/// Whether a byte is one that file names are commonly made of, or stands between them: a letter, a
/// digit, or one of `-`, `.`, `/` and `_`.
pub open spec fn common(b: u8) -> bool {
    ||| 0x30 <= b <= 0x39 || 0x41 <= b <= 0x5a || 0x61 <= b <= 0x7a
    ||| b == 0x2d || b == 0x2e || b == 0x2f || b == 0x5f
}

/// Whether a byte takes words apart: white space, a quote, or a sign that shells act on.
pub open spec fn sets_apart(b: u8) -> bool {
    ||| b == 0x20 || b == 0x09 || b == 0x0a || b == 0x0d
    ||| b == 0x22 || b == 0x27 || b == 0x60
    ||| b == 0x26 || b == 0x3b || b == 0x7c || b == 0x28 || b == 0x29
    ||| b == 0x3c || b == 0x3d || b == 0x3e
}

proof fn lemma_word_end(s: Seq<u8>, i: int, k: int)
    requires
        0 <= i <= k <= s.len(),
        forall|j: int| i <= j < k ==> !separates(#[trigger] s[j]),
        k < s.len() ==> separates(s[k]),
    ensures
        word_end(s, i) == k,
    decreases k - i,
{
    if i < k {
        lemma_word_end(s, i + 1, k);
    }
}

proof fn lemma_word_bounds(s: Seq<u8>, i: int)
    requires
        0 <= i <= s.len(),
    ensures
        i <= word_end(s, i) <= s.len(),
        forall|j: int| i <= j < word_end(s, i) ==> !separates(#[trigger] s[j]),
        word_end(s, i) < s.len() ==> separates(s[word_end(s, i)]),
    decreases s.len() - i,
{
    if i < s.len() && !separates(s[i]) {
        lemma_word_bounds(s, i + 1);
    }
}

/// A path of common letters is one word.
pub proof fn common_paths_are_one_word(w: Seq<u8>)
    requires
        w.len() > 0,
        forall|i: int| 0 <= i < w.len() ==> common(#[trigger] w[i]),
    ensures
        words_of(w) == seq![w],
{
    assert forall|j: int| 0 <= j < w.len() implies !separates(#[trigger] w[j]) by {
        assert(common(w[j]));
    }
    lemma_word_end(w, 1, w.len() as int);
    assert(!separates(w[0]));
    assert(w.subrange(0, w.len() as int) =~= w);
    assert(after(w, w.len() as int) =~= Seq::empty());
    assert(words_of(after(w, w.len() as int)) =~= Seq::empty());
    assert(words_of(w) =~= seq![w]);
}

/// What stands on the two sides of a sign that sets words apart is taken on its own: no word is
/// lost there, and none is joined to another.
pub proof fn words_are_set_apart(a: Seq<u8>, sign: u8, b: Seq<u8>)
    requires
        sets_apart(sign),
    ensures
        words_of(a.push(sign) + b) == words_of(a) + words_of(b),
    decreases a.len(),
{
    let all = a.push(sign) + b;
    if a.len() == 0 {
        assert(all[0] == sign);
        assert(after(all, 1) =~= b);
        assert(words_of(a) =~= Seq::empty());
        assert(words_of(all) =~= words_of(a) + words_of(b));
    } else if separates(a[0]) {
        assert(all[0] == a[0]);
        assert(after(all, 1) =~= after(a, 1).push(sign) + b);
        words_are_set_apart(after(a, 1), sign, b);
    } else {
        assert(all[0] == a[0]);
        let k = word_end(a, 1);
        lemma_word_bounds(a, 1);
        assert forall|j: int| 1 <= j < k implies !separates(#[trigger] all[j]) by {
            assert(all[j] == a[j]);
        }
        if k < a.len() {
            assert(all[k] == a[k]);
        } else {
            assert(all[k] == sign);
        }
        lemma_word_end(all, 1, k);
        assert(all.subrange(0, k) =~= a.subrange(0, k));
        if k < a.len() {
            assert(after(all, k) =~= after(a, k).push(sign) + b);
            words_are_set_apart(after(a, k), sign, b);
            assert(words_of(all) =~= words_of(a) + words_of(b));
        } else {
            assert(after(all, k) =~= seq![sign] + b);
            assert(after(a, k) =~= Seq::empty());
            let rest = after(all, k);
            assert(rest[0] == sign);
            assert(after(rest, 1) =~= b);
            assert(words_of(after(a, k)) =~= Seq::empty());
            assert(words_of(rest) == words_of(b));
            assert(words_of(a) =~= seq![a.subrange(0, k)]);
            assert(words_of(all) =~= words_of(a) + words_of(b));
        }
    }
}

/// A name is followed by the next, and `..` takes the last one back; `.` is nothing.
pub proof fn parents_take_the_last_name_back(list: Seq<Part>, name: Seq<u8>)
    ensures
        ({
            let n = list.len() as int;
            let names = plain_names(list, n);
            let further = list.push(Part::Normal(name));
            &&& plain_names(further, n + 1) == names.push(name)
            &&& plain_names(further.push(Part::Parent), n + 2) == names
            &&& plain_names(list.push(Part::Current), n + 1) == names
        }),
{
    let n = list.len() as int;
    let further = list.push(Part::Normal(name));
    lemma_same_names(list, further, n);
    lemma_same_names(list, list.push(Part::Current), n);
    lemma_same_names(further, further.push(Part::Parent), n + 1);
    assert(plain_names(list, n).push(name).drop_last() =~= plain_names(list, n));
}

proof fn lemma_same_names(a: Seq<Part>, b: Seq<Part>, n: int)
    requires
        n <= a.len(),
        n <= b.len(),
        forall|i: int| 0 <= i < n ==> #[trigger] a[i] == b[i],
    ensures
        plain_names(a, n) == plain_names(b, n),
    decreases n,
{
    if n > 0 {
        lemma_same_names(a, b, n - 1);
        assert(a[n - 1] == b[n - 1]);
    }
}

/// A path that the file system knows leads where the file system says.
pub proof fn known_paths_lead_where_the_file_system_says(f: FileSession, names: Seq<Seq<u8>>)
    requires
        (f.script)(
            f.calls.push(FileRequest::Canonicalize(lit("/") + joined_names(names))),
        ) is Bytes,
    ensures
        leads_run(f, names, names.len() as int).1 == (f.script)(
            f.calls.push(FileRequest::Canonicalize(lit("/") + joined_names(names))),
        )->Bytes_0,
{
    assert(names.subrange(0, names.len() as int) =~= names);
}

/// A path that the file system does not know leads below the longest part of it that it knows.
pub proof fn other_paths_lead_below_what_is_known(f: FileSession, names: Seq<Seq<u8>>, n: int)
    requires
        0 <= n <= names.len(),
    ensures
        ({
            let (f1, path) = leads_run(f, names, n);
            let k = n - (f1.calls.len() - f.calls.len() - 1);
            let last = (f1.script)(f1.calls);
            &&& f1.script == f.script
            &&& f1.calls.len() > f.calls.len()
            &&& 0 <= k <= n
            &&& f1.calls.last() == FileRequest::Canonicalize(
                lit("/") + joined_names(names.subrange(0, k)),
            )
            &&& last is Bytes && k < names.len() ==> path == child(
                last->Bytes_0,
                joined_names(names.subrange(k, names.len() as int)),
            )
            &&& last is Bytes && k == names.len() ==> path == last->Bytes_0
            &&& last !is Bytes ==> k == 0 && path == lit("/") + joined_names(names)
        }),
    decreases n,
{
    let request = FileRequest::Canonicalize(lit("/") + joined_names(names.subrange(0, n)));
    let g = FileSession { calls: f.calls.push(request), ..f };
    if (f.script)(g.calls) !is Bytes && n > 0 {
        other_paths_lead_below_what_is_known(g, names, n - 1);
    }
}

/// Words are taken for paths from the directory that the tool is used in, which is itself taken from
/// the current one; where the tool names none, from the current one.
pub proof fn words_are_taken_from_the_tools_directory(cwd: Seq<u8>, directory: Seq<u8>)
    ensures
        base_of(cwd, Some(directory)) == child(cwd, directory),
        base_of(cwd, None) == cwd,
{
}

/// Whether one of the words was found to lead into the bare repository, or to the pointer file.
pub open spec fn some_word_reaches(
    f: FileSession,
    words: Seq<Seq<u8>>,
    base: Seq<u8>,
    bare: Seq<u8>,
    pointer: Seq<u8>,
) -> bool {
    exists|k: int, g: FileSession|
        0 <= k < words.len() && #[trigger] only_looked(f, g) && !(#[trigger] leads_outside(
            g,
            words[k],
            base,
            bare,
            pointer,
        ))
}

proof fn lemma_denied(
    f: FileSession,
    words: Seq<Seq<u8>>,
    base: Seq<u8>,
    bare: Seq<u8>,
    pointer: Seq<u8>,
    i: int,
)
    requires
        0 <= i,
        examine_from(f, words, base, bare, pointer, i).1 is Some,
    ensures
        exists|k: int, g: FileSession|
            i <= k < words.len() && #[trigger] only_looked(f, g) && !(#[trigger] leads_outside(
                g,
                words[k],
                base,
                bare,
                pointer,
            )),
    decreases words.len() - i,
{
    if i < words.len() {
        let list = parts(child(base, words[i]));
        let names = plain_names(list, list.len() as int);
        let (f1, path) = leads_run(f, names, names.len() as int);
        crate::fsx::looking::lemma_looked_on(f, f, f);
        if within(path, bare) || same_path(path, pointer) {
            assert(only_looked(f, f));
            assert(!leads_outside(f, words[i], base, bare, pointer));
        } else {
            crate::commands::hook_guard::tools_are_examined_by_looking(
                f,
                seq![words[i]],
                base,
                bare,
                pointer,
                0,
            );
            assert(seq![words[i]][0] == words[i]);
            assert(examine_from(f1, seq![words[i]], base, bare, pointer, 1) == (
                f1,
                None::<Seq<char>>,
            ));
            assert(only_looked(f, f1));
            lemma_denied(f1, words, base, bare, pointer, i + 1);
            let (k, g) = choose|k: int, g: FileSession|
                i + 1 <= k < words.len() && #[trigger] only_looked(f1, g) && !(
                #[trigger] leads_outside(g, words[k], base, bare, pointer));
            crate::fsx::looking::lemma_looked_on(f, f1, g);
            assert(only_looked(f, g));
            assert(!leads_outside(g, words[k], base, bare, pointer));
        }
    }
}

/// A tool that can be read, used inside a grove, is denied only where one of its words was found to
/// lead to the pointer file or into the bare repository of that grove.
pub proof fn only_the_administration_is_denied(f: FileSession, tool: ToolView, cwd: Seq<u8>)
    requires
        discover_run(f, cwd).1 is Ok,
        decide_run(f, Ok(tool), Ok(cwd)).1 is Deny,
    ensures
        ({
            let (f1, root) = discover_run(f, cwd);
            let base = match tool.cwd {
                Some(directory) => child(cwd, directory),
                None => cwd,
            };
            some_word_reaches(
                f1,
                tool.words,
                base,
                child(root->Ok_0, lit(".bare")),
                child(root->Ok_0, lit(".git")),
            )
        }),
{
    let (f1, root) = discover_run(f, cwd);
    let base = match tool.cwd {
        Some(directory) => child(cwd, directory),
        None => cwd,
    };
    let bare = child(root->Ok_0, lit(".bare"));
    let pointer = child(root->Ok_0, lit(".git"));
    assert(base == base_of(cwd, tool.cwd));
    assert(examine_from(f1, tool.words, base, bare, pointer, 0).1 is Some);
    lemma_denied(f1, tool.words, base, bare, pointer, 0);
}

/// A tool of one word that names a path which the file system knows is let through exactly where
/// that path lies outside the bare repository and is not the pointer file.
pub proof fn words_are_judged_by_where_they_lead(
    f: FileSession,
    word: Seq<u8>,
    directory: Option<Seq<u8>>,
    cwd: Seq<u8>,
    root: Seq<u8>,
    names: Seq<Seq<u8>>,
    place: Seq<u8>,
)
    requires
        discover_run(f, cwd).1 == Ok::<Seq<u8>, crate::error::ErrorView>(root),
        ({
            let base = match directory {
                Some(d) => child(cwd, d),
                None => cwd,
            };
            let list = parts(child(base, word));
            names == plain_names(list, list.len() as int)
        }),
        ({
            let f1 = discover_run(f, cwd).0;
            (f1.script)(
                f1.calls.push(FileRequest::Canonicalize(lit("/") + joined_names(names))),
            ) == AnswerView::Bytes(place)
        }),
    ensures
        ({
            let tool = ToolView { cwd: directory, words: seq![word] };
            decide_run(f, Ok(tool), Ok(cwd)).1 is Allow <==> !within(
                place,
                child(root, lit(".bare")),
            ) && !same_path(place, child(root, lit(".git")))
        }),
{
    let f1 = discover_run(f, cwd).0;
    let words = seq![word];
    let bare = child(root, lit(".bare"));
    let pointer = child(root, lit(".git"));
    known_paths_lead_where_the_file_system_says(f1, names);
    let base = base_of(cwd, directory);
    let f2 = leads_run(f1, names, names.len() as int).0;
    assert(words[0] == word);
    assert(examine_from(f2, words, base, bare, pointer, 1).1 is None);
}

} // verus!

//! What Git's answers are taken to say.
use vstd::prelude::*;
use crate::bytes::{
    after, ends_with, find, lemma_find_is, lemma_split_joined, lit, split, starts_with,
    without_prefix, CARET, COLON, DASH, LF, NUL, PLUS, STAR, TAB,
};
use crate::error::ExitClass;
use crate::git::config::{star_filled, star_match, unforced, values_in};
use crate::git::query::{
    any_commit_run, any_excludes, branch_name_run, candidates_run, checkout_from, excluded, lines_in,
    local_branch_run, mapped, mapped_from, pattern_part, remote_part, remotes_from, shortened,
};
use crate::git::remote::{absorbed, ancestry_run, fetch_probe_run, AdvertView, Ancestry};
use crate::git::runner::{
    answer_to, args1, args10, args3, args4, args5, invoke, invoke_in, step, InvocationView,
    OutputView, Session,
};
use crate::git::worktrees::{upstream_in, with_attribute, RecordView, UpstreamView};
use crate::order::sorted_set_is_ordered_and_complete;
use crate::path::child;

verus! {

proof fn lemma_rest(prefix: Seq<u8>, rest: Seq<u8>)
    ensures
        without_prefix(prefix + rest, prefix) == Some(rest),
{
    assert((prefix + rest).subrange(0, prefix.len() as int) =~= prefix);
    assert(after(prefix + rest, prefix.len() as int) =~= rest);
}

/// A branch is checked out in the worktree that Git lists it under; one that Git lists nowhere is
/// checked out nowhere.
pub proof fn branches_are_checked_out_where_git_lists_them(
    fields: Seq<Seq<u8>>,
    reference: Seq<u8>,
    path: Option<Seq<u8>>,
    i: int,
)
    requires
        0 <= i,
    ensures
        ({
            let named = lit("branch ") + reference;
            let r = checkout_from(fields, reference, path, i);
            &&& r == Ok::<Option<Seq<u8>>, crate::error::ErrorView>(None) ==> forall|k: int|
                i <= k < fields.len() ==> #[trigger] fields[k] != named
            &&& r matches Ok(Some(p)) ==> exists|k: int|
                i <= k < fields.len() && #[trigger] fields[k] == named && listed_under(
                    fields,
                    path,
                    i,
                    k,
                    p,
                )
        }),
    decreases fields.len() - i,
{
    let named = lit("branch ") + reference;
    lemma_rest(lit("branch "), reference);
    let r = checkout_from(fields, reference, path, i);
    if i < fields.len() {
        lemma_distinct(fields[i], reference);
        if fields[i].len() == 0 {
            branches_are_checked_out_where_git_lists_them(fields, reference, None, i + 1);
        } else if without_prefix(fields[i], lit("worktree ")) is Some {
            let p = without_prefix(fields[i], lit("worktree "));
            assert(fields[i] =~= lit("worktree ") + p->Some_0) by {
                assert(fields[i].subrange(0, lit("worktree ").len() as int) =~= lit("worktree "));
            }
            branches_are_checked_out_where_git_lists_them(fields, reference, p, i + 1);
        } else if without_prefix(fields[i], lit("branch ")) == Some(reference) {
            assert(fields[i] =~= named) by {
                assert(fields[i].subrange(0, lit("branch ").len() as int) =~= lit("branch "));
            }
            if path is Some {
                assert(listed_under(fields, path, i, i, path->Some_0));
            }
        } else {
            assert(fields[i] != named);
            branches_are_checked_out_where_git_lists_them(fields, reference, path, i + 1);
        }
        if r is Ok && r->Ok_0 is Some && i < fields.len() && !(path is Some && fields[i] == named) {
            let p = r->Ok_0->Some_0;
            let next = if fields[i].len() == 0 {
                None
            } else if without_prefix(fields[i], lit("worktree ")) is Some {
                without_prefix(fields[i], lit("worktree "))
            } else {
                path
            };
            let k = choose|k: int|
                i + 1 <= k < fields.len() && #[trigger] fields[k] == named && listed_under(
                    fields,
                    next,
                    i + 1,
                    k,
                    p,
                );
            assert(fields[k] == named);
            lemma_under(fields, path, next, i, k, p);
        }
    }
}

/// Whether the field `k` belongs to the record of the worktree `p`: the record begins before it,
/// with that path, and has not ended. At the field `i` the record of `path` is open.
pub open spec fn listed_under(
    fields: Seq<Seq<u8>>,
    path: Option<Seq<u8>>,
    i: int,
    k: int,
    p: Seq<u8>,
) -> bool {
    ||| path == Some(p) && forall|m: int|
        i <= m < k ==> (#[trigger] fields[m]).len() > 0 && !starts_with(
            fields[m],
            lit("worktree "),
        )
    ||| exists|b: int|
        i <= b < k && #[trigger] fields[b] == lit("worktree ") + p && forall|m: int|
            b < m < k ==> (#[trigger] fields[m]).len() > 0 && !starts_with(
                fields[m],
                lit("worktree "),
            )
}

proof fn lemma_under(
    fields: Seq<Seq<u8>>,
    path: Option<Seq<u8>>,
    next: Option<Seq<u8>>,
    i: int,
    k: int,
    p: Seq<u8>,
)
    requires
        0 <= i < k < fields.len(),
        listed_under(fields, next, i + 1, k, p),
        next is Some && next != path ==> fields[i] == lit("worktree ") + next->Some_0,
        next is Some && next == path ==> fields[i] == lit("worktree ") + next->Some_0 || (
        fields[i].len() > 0 && !starts_with(fields[i], lit("worktree "))),
    ensures
        listed_under(fields, path, i, k, p),
{
    if exists|b: int|
        i + 1 <= b < k && #[trigger] fields[b] == lit("worktree ") + p && forall|m: int|
            b < m < k ==> (#[trigger] fields[m]).len() > 0 && !starts_with(
                fields[m],
                lit("worktree "),
            ) {
        let b = choose|b: int|
            i + 1 <= b < k && #[trigger] fields[b] == lit("worktree ") + p && forall|m: int|
                b < m < k ==> (#[trigger] fields[m]).len() > 0 && !starts_with(
                    fields[m],
                    lit("worktree "),
                );
        assert(fields[b] == lit("worktree ") + p);
    } else if fields[i] == lit("worktree ") + p {
        assert(fields[i] == lit("worktree ") + p);
    } else {
        assert(path == Some(p));
    }
}

proof fn lemma_distinct(field: Seq<u8>, reference: Seq<u8>)
    ensures
        field == lit("branch ") + reference ==> field.len() > 0 && !starts_with(
            field,
            lit("worktree "),
        ),
{
    reveal_strlit("branch ");
    reveal_strlit("worktree ");
    vstd::utf8::is_ascii_chars_encode_utf8("branch "@);
    vstd::utf8::is_ascii_chars_encode_utf8("worktree "@);
    if field == lit("branch ") + reference {
        assert(field[0] == lit("branch ")[0]);
        if starts_with(field, lit("worktree ")) {
            assert(field.subrange(0, lit("worktree ").len() as int)[0] == field[0]);
        }
    }
}

/// The attributes of a worktree are those that Git names: its commit, its branch without the common
/// prefix, and whether it is bare, detached, locked or prunable, and why.
pub proof fn attributes_are_as_git_names_them(r: RecordView, value: Seq<u8>)
    ensures
        with_attribute(r, lit("HEAD ") + value) == (RecordView { head: Some(value), ..r }),
        with_attribute(r, lit("branch ") + (lit("refs/heads/") + value)) == (RecordView {
            branch: Some(value),
            ..r
        }),
        with_attribute(r, lit("bare")) == (RecordView { bare: true, ..r }),
        with_attribute(r, lit("detached")) == (RecordView { detached: true, ..r }),
        with_attribute(r, lit("locked")) == (RecordView { locked: Some(Seq::empty()), ..r }),
        with_attribute(r, lit("locked ") + value) == (RecordView { locked: Some(value), ..r }),
        with_attribute(r, lit("prunable")) == (RecordView { prunable: Some(Seq::empty()), ..r }),
        with_attribute(r, lit("prunable ") + value) == (RecordView { prunable: Some(value), ..r }),
{
    lemma_rest(lit("HEAD "), value);
    lemma_rest(lit("branch "), lit("refs/heads/") + value);
    lemma_rest(lit("refs/heads/"), value);
    lemma_rest(lit("locked "), value);
    lemma_rest(lit("prunable "), value);
    reveal_strlit("HEAD ");
    reveal_strlit("branch ");
    reveal_strlit("bare");
    reveal_strlit("detached");
    reveal_strlit("locked");
    reveal_strlit("locked ");
    reveal_strlit("prunable");
    reveal_strlit("prunable ");
    vstd::utf8::is_ascii_chars_encode_utf8("HEAD "@);
    vstd::utf8::is_ascii_chars_encode_utf8("branch "@);
    vstd::utf8::is_ascii_chars_encode_utf8("bare"@);
    vstd::utf8::is_ascii_chars_encode_utf8("detached"@);
    vstd::utf8::is_ascii_chars_encode_utf8("locked"@);
    vstd::utf8::is_ascii_chars_encode_utf8("locked "@);
    vstd::utf8::is_ascii_chars_encode_utf8("prunable"@);
    vstd::utf8::is_ascii_chars_encode_utf8("prunable "@);
    lemma_no_prefix(lit("branch ") + (lit("refs/heads/") + value), lit("HEAD "));
    lemma_no_prefix(lit("bare"), lit("HEAD "));
    lemma_no_prefix(lit("bare"), lit("branch "));
    lemma_no_prefix(lit("detached"), lit("HEAD "));
    lemma_no_prefix(lit("detached"), lit("branch "));
    lemma_no_prefix(lit("locked"), lit("HEAD "));
    lemma_no_prefix(lit("locked"), lit("branch "));
    lemma_no_prefix(lit("prunable"), lit("HEAD "));
    lemma_no_prefix(lit("prunable"), lit("branch "));
    lemma_no_prefix(lit("locked ") + value, lit("HEAD "));
    lemma_no_prefix(lit("locked ") + value, lit("branch "));
    lemma_no_prefix(lit("prunable ") + value, lit("HEAD "));
    lemma_no_prefix(lit("prunable ") + value, lit("branch "));
    lemma_no_prefix(lit("prunable ") + value, lit("locked "));
    assert(lit("bare")[0] == 0x62);
    assert(lit("detached")[0] == 0x64);
    assert(lit("locked")[0] == 0x6c);
    assert(lit("prunable")[0] == 0x70);
    assert((lit("locked ") + value)[0] == 0x6c);
    assert((lit("prunable ") + value)[0] == 0x70);
    assert((lit("locked ") + value).len() > 6);
    assert((lit("prunable ") + value).len() > 8);
    assert(RecordView { locked: Some(Seq::empty()), ..r } == RecordView {
        locked: Some(seq![]),
        ..r
    });
}

proof fn lemma_no_prefix(s: Seq<u8>, prefix: Seq<u8>)
    ensures
        s.len() > 1 && prefix.len() > 1 && (s[0] != prefix[0] || s[1] != prefix[1]) ==> without_prefix(
            s,
            prefix,
        ) is None,
{
    if starts_with(s, prefix) && s.len() > 1 && prefix.len() > 1 {
        assert(s.subrange(0, prefix.len() as int)[0] == s[0]);
        assert(s.subrange(0, prefix.len() as int)[1] == s[1]);
    }
}

/// An upstream is what Git names in three fields: the whole ref, its short form, and its remote. One
/// that is a branch of the repository itself has none.
pub proof fn upstreams_are_as_git_names_them(full: Seq<u8>, short: Seq<u8>, remote: Seq<u8>)
    requires
        !full.contains(NUL),
        !short.contains(NUL),
        !remote.contains(NUL),
        full.len() > 0,
    ensures
        upstream_in(full.push(NUL) + (short.push(NUL) + (remote.push(NUL) + seq![LF]))) == Ok::<
            Option<UpstreamView>,
            crate::error::ErrorView,
        >(
            Some(
                UpstreamView {
                    full,
                    short,
                    remote: if remote.len() == 0 || remote == lit(".") {
                        None
                    } else {
                        Some(remote)
                    },
                },
            ),
        ),
{
    let end: Seq<u8> = seq![LF];
    let last = remote.push(NUL) + end;
    let later = short.push(NUL) + last;
    let all = full.push(NUL) + later;
    lemma_split_joined(full, later, NUL);
    lemma_split_joined(short, last, NUL);
    lemma_split_joined(remote, end, NUL);
    lemma_whole(full);
    lemma_whole(short);
    lemma_whole(remote);
    lemma_whole(end);
    let fields = split(all, NUL);
    assert(fields =~= seq![full] + (seq![short] + (seq![remote] + seq![end])));
    assert(fields.len() == 4);
    assert(fields[0] == full && fields[1] == short && fields[2] == remote && fields[3] == end);
}

proof fn lemma_whole(s: Seq<u8>)
    requires
        !s.contains(NUL),
    ensures
        split(s, NUL) == seq![s],
{
    assert forall|j: int| 0 <= j < s.len() implies s[j] != NUL by {
        assert(s.contains(s[j]));
    }
    lemma_find_is(s, NUL, 0, s.len() as int);
    assert(split(s, NUL) =~= seq![s]);
}

/// A local branch is there where Git says so, asked for its whole ref.
pub proof fn branches_are_there_where_git_says_so(s: Session, root: Seq<u8>, branch: Seq<u8>)
    ensures
        ({
            let ask = invoke_in(
                child(root, lit(".bare")),
                args4(
                    lit("show-ref"),
                    lit("--verify"),
                    lit("--quiet"),
                    lit("refs/heads/") + branch,
                ),
            );
            let told = (s.script)(s.calls.push(ask));
            let (s1, r) = local_branch_run(s, root, branch);
            &&& s1.calls == s.calls.push(ask)
            &&& r is Ok <==> told is Ok && (told->Ok_0.status == 0 || told->Ok_0.status == 1)
            &&& r is Ok ==> r->Ok_0 == (told->Ok_0.status == 0)
        }),
{
}

/// The refspec that remotes are commonly given leads each branch to the one of its name among the
/// remote's, forced or not.
pub proof fn common_refspecs_keep_the_names(remote: Seq<u8>, branch: Seq<u8>, forced: bool)
    requires
        !remote.contains(STAR),
        !remote.contains(COLON),
    ensures
        ({
            let bare = lit("refs/heads/*:refs/remotes/") + remote + lit("/*");
            let spec = if forced {
                seq![PLUS] + bare
            } else {
                bare
            };
            mapped(spec, lit("refs/heads/") + branch) == Some(
                lit("refs/remotes/") + remote + lit("/") + branch,
            )
        }),
{
    reveal_strlit("refs/heads/*:refs/remotes/");
    reveal_strlit("refs/heads/");
    reveal_strlit("refs/remotes/");
    reveal_strlit("/*");
    reveal_strlit("/");
    vstd::utf8::is_ascii_chars_encode_utf8("refs/heads/*:refs/remotes/"@);
    vstd::utf8::is_ascii_chars_encode_utf8("refs/heads/"@);
    vstd::utf8::is_ascii_chars_encode_utf8("refs/remotes/"@);
    vstd::utf8::is_ascii_chars_encode_utf8("/*"@);
    vstd::utf8::is_ascii_chars_encode_utf8("/"@);
    let bare = lit("refs/heads/*:refs/remotes/") + remote + lit("/*");
    let spec = if forced {
        seq![PLUS] + bare
    } else {
        bare
    };
    assert(bare[0] == 0x72);
    if forced {
        assert(spec.subrange(0, 1) =~= seq![PLUS]);
        assert(after(spec, 1) =~= bare);
    } else {
        assert(!starts_with(spec, seq![PLUS])) by {
            if starts_with(spec, seq![PLUS]) {
                assert(spec.subrange(0, 1)[0] == spec[0]);
            }
        }
    }
    assert(unforced(spec) == bare);
    let from = lit("refs/heads/").push(STAR);
    assert(lit("refs/heads/*:refs/remotes/") =~= from.push(COLON) + lit("refs/remotes/"));
    assert(bare =~= from.push(COLON) + (lit("refs/remotes/") + remote + lit("/*")));
    lemma_find_is(bare, COLON, 0, 12);
    assert(bare.subrange(0, 12) =~= from);
    let to = lit("refs/remotes/") + remote + lit("/*");
    assert(after(bare, 13) =~= to);
    let source = lit("refs/heads/") + branch;
    lemma_find_is(from, STAR, 0, 11);
    assert(from[11] == STAR);
    assert(from.subrange(0, 11) =~= lit("refs/heads/"));
    assert(after(from, 12) =~= seq![]);
    lemma_rest(lit("refs/heads/"), branch);
    assert(ends_with(branch, seq![])) by {
        assert(branch.subrange(branch.len() as int, branch.len() as int) =~= seq![]);
    }
    assert(star_match(from, source) =~= Some(branch)) by {
        assert(branch.subrange(0, branch.len() as int) =~= branch);
    }
    assert(pattern_part(from, source) == Some(branch));
    let k = 14 + remote.len() as int;
    assert(to[k] == STAR);
    assert forall|j: int| 0 <= j < k implies to[j] != STAR by {
        if 13 <= j < 13 + remote.len() {
            assert(to[j] == remote[j - 13]);
            assert(remote.contains(remote[j - 13]));
        }
    }
    lemma_find_is(to, STAR, 0, k);
    assert(to.contains(STAR));
    assert(after(to, k + 1) =~= seq![]);
    assert(star_filled(to, branch) =~= lit("refs/remotes/") + remote + lit("/") + branch);
}

/// How Git is asked whether a ref is there.
pub open spec fn asks_for(bare: Seq<u8>, reference: Seq<u8>) -> InvocationView {
    invoke_in(bare, args4(lit("show-ref"), lit("--verify"), lit("--quiet"), reference))
}

/// Whether the `k`th call asked for a ref that goes by the short name `c`, and Git said that it is
/// there.
pub open spec fn found_there(after: Session, k: int, bare: Seq<u8>, c: Seq<u8>) -> bool {
    let reference = after.calls[k].args[3];
    &&& after.calls[k] == asks_for(bare, reference)
    &&& answer_to(after, k) is Ok
    &&& answer_to(after, k)->Ok_0.status == 0
    &&& c == match without_prefix(reference, lit("refs/remotes/")) {
        Some(short) => short,
        None => reference,
    }
}

/// Whether a ref of this short name was asked for between two states of a session, and found.
pub open spec fn found_between(before: Session, after: Session, bare: Seq<u8>, c: Seq<u8>) -> bool {
    exists|k: int|
        before.calls.len() <= k < after.calls.len() && #[trigger] found_there(after, k, bare, c)
}

proof fn lemma_found_on(a: Session, b: Session, c: Session, bare: Seq<u8>, name: Seq<u8>)
    requires
        a.script == b.script,
        b.script == c.script,
        a.calls.is_prefix_of(b.calls),
        b.calls.is_prefix_of(c.calls),
    ensures
        found_between(a, c, bare, name) <==> found_between(a, b, bare, name) || found_between(
            b,
            c,
            bare,
            name,
        ),
{
    assert forall|k: int| 0 <= k < b.calls.len() implies found_there(b, k, bare, name)
        == #[trigger] found_there(c, k, bare, name) by {
        assert(c.calls[k] == b.calls[k]);
        assert(c.calls.take(k + 1) =~= b.calls.take(k + 1));
    }
    if found_between(a, b, bare, name) {
        let k = choose|k: int|
            a.calls.len() <= k < b.calls.len() && #[trigger] found_there(b, k, bare, name);
        assert(found_there(c, k, bare, name));
    }
    if found_between(b, c, bare, name) {
        let k = choose|k: int|
            b.calls.len() <= k < c.calls.len() && #[trigger] found_there(c, k, bare, name);
        assert(found_there(c, k, bare, name));
    }
    if found_between(a, c, bare, name) {
        let k = choose|k: int|
            a.calls.len() <= k < c.calls.len() && #[trigger] found_there(c, k, bare, name);
        if k < b.calls.len() {
            assert(found_there(b, k, bare, name));
        }
    }
}

proof fn lemma_one_asked(s: Session, bare: Seq<u8>, reference: Seq<u8>, c: Seq<u8>)
    ensures
        ({
            let (s1, told) = step(s, asks_for(bare, reference));
            found_between(s, s1, bare, c) <==> told is Ok && told->Ok_0.status == 0 && c == shortened(
                reference,
            )
        }),
{
    let (s1, told) = step(s, asks_for(bare, reference));
    let k = s.calls.len() as int;
    assert(s1.calls.take(k + 1) =~= s1.calls);
    assert(s1.calls[k] == asks_for(bare, reference));
    assert(s1.calls[k].args[3] == reference);
    if told is Ok && told->Ok_0.status == 0 && c == shortened(reference) {
        assert(found_there(s1, k, bare, c));
    }
}

proof fn lemma_other_asked(s: Session, i: InvocationView, bare: Seq<u8>, c: Seq<u8>)
    requires
        i.args.len() != 4,
    ensures
        !found_between(s, step(s, i).0, bare, c),
{
    let s1 = step(s, i).0;
    if found_between(s, s1, bare, c) {
        let k = choose|k: int|
            s.calls.len() <= k < s1.calls.len() && #[trigger] found_there(s1, k, bare, c);
        assert(s1.calls[k] == i);
    }
}

proof fn lemma_mapped(
    s: Session,
    bare: Seq<u8>,
    specs: Seq<Seq<u8>>,
    source: Seq<u8>,
    found: Seq<Seq<u8>>,
    i: int,
    c: Seq<u8>,
)
    requires
        0 <= i,
    ensures
        ({
            let (s1, r) = mapped_from(s, bare, specs, source, found, i);
            &&& s1.script == s.script
            &&& s.calls.is_prefix_of(s1.calls)
            &&& r is Ok ==> (r->Ok_0.contains(c) <==> found.contains(c) || found_between(
                s,
                s1,
                bare,
                c,
            ))
        }),
    decreases specs.len() - i,
{
    if i < specs.len() {
        let to = mapped(specs[i], source);
        if to is None || ends_with(to->Some_0, lit("/HEAD")) {
            lemma_mapped(s, bare, specs, source, found, i + 1, c);
        } else {
            let (s1, told) = step(s, asks_for(bare, to->Some_0));
            lemma_one_asked(s, bare, to->Some_0, c);
            if told is Ok {
                let more = if told->Ok_0.status == 0 {
                    found.push(shortened(to->Some_0))
                } else {
                    found
                };
                lemma_mapped(s1, bare, specs, source, more, i + 1, c);
                let s2 = mapped_from(s1, bare, specs, source, more, i + 1).0;
                lemma_found_on(s, s1, s2, bare, c);
                lemma_pushed(found, shortened(to->Some_0), c);
            }
        }
    }
}

proof fn lemma_pushed(list: Seq<Seq<u8>>, last: Seq<u8>, c: Seq<u8>)
    ensures
        list.push(last).contains(c) <==> list.contains(c) || c == last,
{
    if list.contains(c) {
        let k = choose|k: int| 0 <= k < list.len() && list[k] == c;
        assert(list.push(last)[k] == c);
    }
    assert(list.push(last)[list.len() as int] == last);
}

proof fn lemma_of_remotes(
    s: Session,
    bare: Seq<u8>,
    remotes: Seq<Seq<u8>>,
    source: Seq<u8>,
    found: Seq<Seq<u8>>,
    i: int,
    c: Seq<u8>,
)
    requires
        0 <= i,
    ensures
        ({
            let (s1, r) = remotes_from(s, bare, remotes, source, found, i);
            &&& s1.script == s.script
            &&& s.calls.is_prefix_of(s1.calls)
            &&& r is Ok ==> (r->Ok_0.contains(c) <==> found.contains(c) || found_between(
                s,
                s1,
                bare,
                c,
            ))
        }),
    decreases remotes.len() - i,
{
    if i >= remotes.len() {
        sorted_set_is_ordered_and_complete(found);
    } else {
        let ask = invoke_in(
            bare,
            args3(
                lit("config"),
                lit("--get-all"),
                crate::git::config::key_of("remote.", remotes[i], ".fetch"),
            ),
        );
        let (s1, told) = step(s, ask);
        lemma_other_asked(s, ask, bare, c);
        let (s2, part) = remote_part(s, bare, remotes[i], source, found);
        let (end, r) = remotes_from(s, bare, remotes, source, found, i);
        if told is Err {
            assert(end == s1 && r is Err);
        } else {
            let specs = lines_in(told->Ok_0.stdout);
            lemma_mapped(s1, bare, specs, source, found, 0, c);
            assert(s1.calls.is_prefix_of(s2.calls));
            assert(s.calls.is_prefix_of(s2.calls));
            lemma_found_on(s, s1, s2, bare, c);
            if part is Err {
                assert(end == s2 && r is Err);
            } else {
                lemma_of_remotes(s2, bare, remotes, source, part->Ok_0, i + 1, c);
                assert((end, r) == remotes_from(s2, bare, remotes, source, part->Ok_0, i + 1));
                assert(s.calls.is_prefix_of(end.calls));
                lemma_found_on(s, s2, end, bare, c);
            }
        }
    }
}

/// The remote branches that a branch could follow are those that Git was asked for and found: each
/// of them is listed, by its short name, and nothing else is.
pub proof fn candidates_are_the_refs_that_were_found(
    s: Session,
    root: Seq<u8>,
    branch: Seq<u8>,
    c: Seq<u8>,
)
    requires
        candidates_run(s, root, branch).1 is Ok,
    ensures
        candidates_run(s, root, branch).1->Ok_0.contains(c) <==> found_between(
            s,
            candidates_run(s, root, branch).0,
            child(root, lit(".bare")),
            c,
        ),
{
    let bare = child(root, lit(".bare"));
    let ask = invoke_in(bare, args1(lit("remote")));
    let (s1, told) = step(s, ask);
    lemma_other_asked(s, ask, bare, c);
    let remotes = lines_in(told->Ok_0.stdout);
    let none: Seq<Seq<u8>> = seq![];
    let source = lit("refs/heads/") + branch;
    lemma_of_remotes(s1, bare, remotes, source, none, 0, c);
    let s2 = remotes_from(s1, bare, remotes, source, none, 0).0;
    lemma_found_on(s, s1, s2, bare, c);
}

/// A commit is an ancestor of another where Git says so; that it does not know one of them is told
/// apart from that it is none.
pub proof fn ancestry_is_what_git_says(
    s: Session,
    root: Seq<u8>,
    candidate: Seq<u8>,
    descendant: Seq<u8>,
)
    ensures
        ({
            let ask = invoke_in(
                child(root, lit(".bare")),
                args5(
                    lit("merge-base"),
                    lit("--is-ancestor"),
                    lit("--end-of-options"),
                    candidate,
                    descendant,
                ),
            );
            let told = (s.script)(s.calls.push(ask));
            let (s1, r) = ancestry_run(s, root, candidate, descendant);
            let said = |a: Ancestry| r == Ok::<Ancestry, crate::error::ErrorView>(a);
            &&& s1.calls == s.calls.push(ask)
            &&& said(Ancestry::Ancestor) <==> told is Ok && told->Ok_0.status == 0
            &&& said(Ancestry::NotAncestor) <==> told is Ok && told->Ok_0.status == 1
            &&& said(Ancestry::MissingObject) <==> told is Ok && told->Ok_0.status == 128
        }),
{
}

/// A target's branch is looked at under a name of its own, by the target's URL: the branch that was
/// asked for is fetched there, forced, and with it no tag and nothing else.
pub proof fn probes_hold_the_branch_asked_for(
    s: Session,
    root: Seq<u8>,
    url: Seq<u8>,
    branch: Seq<u8>,
    nonce: Seq<char>,
)
    ensures
        ({
            let place = lit("refs/grove/publish-probe/") + vstd::utf8::encode_utf8(nonce);
            let fetch = invoke_in(
                child(root, lit(".bare")),
                args10(
                    lit("fetch"),
                    lit("--atomic"),
                    lit("--no-tags"),
                    lit("--no-write-fetch-head"),
                    lit("--no-recurse-submodules"),
                    lit("--no-auto-maintenance"),
                    lit("--no-write-commit-graph"),
                    lit("--"),
                    url,
                    (lit("+refs/heads/") + branch).push(COLON) + place,
                ),
            );
            let (s1, r) = fetch_probe_run(s, root, url, branch, Ok(nonce));
            &&& s1.calls == s.calls.push(fetch)
            &&& r is Ok ==> r->Ok_0 == place
        }),
{
}

/// What a target advertises is taken as it says: a head under its name with its commit, and what
/// `HEAD` stands for.
pub proof fn advertisements_are_taken_as_they_say(
    advert: AdvertView,
    oid: Seq<u8>,
    name: Seq<u8>,
    target: Seq<u8>,
)
    requires
        oid.len() > 0,
        name.len() > 0,
        target.len() > 0,
        !oid.contains(TAB),
        !target.contains(TAB),
        !starts_with(oid, lit("ref: ")),
        name != lit("HEAD"),
    ensures
        absorbed(advert, oid.push(TAB) + name) matches Ok(next) ==> next == (AdvertView {
            heads: advert.heads.push((name, oid)),
            ..advert
        }),
        absorbed(advert, oid.push(TAB) + lit("HEAD")) matches Ok(next) ==> next == (AdvertView {
            head_oid: Some(oid),
            ..advert
        }),
        advert.head_symref is None ==> absorbed(
            advert,
            (lit("ref: ") + target).push(TAB) + lit("HEAD"),
        ) == Ok::<AdvertView, crate::error::ErrorView>(
            (AdvertView { head_symref: Some(target), ..advert }),
        ),
{
    reveal_strlit("HEAD");
    reveal_strlit("ref: ");
    vstd::utf8::is_ascii_chars_encode_utf8("HEAD"@);
    vstd::utf8::is_ascii_chars_encode_utf8("ref: "@);
    lemma_at_tab(oid, name);
    lemma_at_tab(oid, lit("HEAD"));
    let left = lit("ref: ") + target;
    assert(!left.contains(TAB)) by {
        if left.contains(TAB) {
            let k = choose|k: int| 0 <= k < left.len() && left[k] == TAB;
            if k >= 5 {
                assert(target[k - 5] == TAB);
            } else {
                assert(lit("ref: ")[k] == TAB);
            }
        }
    }
    lemma_at_tab(left, lit("HEAD"));
    lemma_rest(lit("ref: "), target);
}

proof fn lemma_at_tab(left: Seq<u8>, right: Seq<u8>)
    requires
        !left.contains(TAB),
    ensures
        find(left.push(TAB) + right, TAB) == left.len(),
        (left.push(TAB) + right).subrange(0, left.len() as int) == left,
        after(left.push(TAB) + right, left.len() as int + 1) == right,
{
    let all = left.push(TAB) + right;
    assert forall|j: int| 0 <= j < left.len() implies all[j] != TAB by {
        assert(all[j] == left[j]);
        assert(left.contains(left[j]));
    }
    lemma_find_is(all, TAB, 0, left.len() as int);
    assert(all.subrange(0, left.len() as int) =~= left);
    assert(after(all, left.len() as int + 1) =~= right);
}

/// The values of a key are read as Git prints them: one more behind the others, with a NUL at its
/// end. A key that has none is not an error.
pub proof fn values_are_read_as_git_prints_them(
    out: OutputView,
    key: Seq<u8>,
    printed: Seq<u8>,
    value: Seq<u8>,
)
    requires
        !value.contains(NUL),
    ensures
        out.status == 1 ==> values_in(out, key) == Ok::<Seq<Seq<u8>>, crate::error::ErrorView>(
            Seq::empty(),
        ),
        out.status == 0 && out.stdout == value.push(NUL) ==> values_in(out, key) == Ok::<
            Seq<Seq<u8>>,
            crate::error::ErrorView,
        >(seq![value]),
        out.status == 0 && out.stdout == printed.push(NUL) + value.push(NUL) ==> values_in(out, key)
            == Ok::<Seq<Seq<u8>>, crate::error::ErrorView>(split(printed, NUL).push(value)),
{
    lemma_whole(value);
    if out.stdout == value.push(NUL) {
        assert(out.stdout.drop_last() =~= value);
    }
    if out.stdout == printed.push(NUL) + value.push(NUL) {
        assert(out.stdout.drop_last() =~= printed.push(NUL) + value);
        lemma_split_joined(printed, value, NUL);
        assert(split(printed, NUL) + seq![value] =~= split(printed, NUL).push(value));
    }
}

/// A branch's name must not begin like an option, which is found out without asking; otherwise Git
/// is asked, and what it refuses is refused.
pub proof fn branch_names_are_those_that_git_accepts(s: Session, branch: Seq<u8>)
    ensures
        ({
            let ask = invoke(args3(lit("check-ref-format"), lit("--branch"), branch));
            let told = (s.script)(s.calls.push(ask));
            let (s1, r) = branch_name_run(s, branch);
            let dashed = branch.len() > 0 && branch[0] == DASH;
            &&& dashed ==> s1 == s && r is Err && r->Err_0.class == ExitClass::Usage
            &&& !dashed ==> s1.calls == s.calls.push(ask) && (r is Ok <==> told is Ok
                && told->Ok_0.status == 0)
        }),
{
}

/// A repository has a commit where Git names some branch.
pub proof fn repositories_have_commits_where_they_have_branches(s: Session, root: Seq<u8>)
    ensures
        ({
            let ask = invoke_in(
                child(root, lit(".bare")),
                args4(
                    lit("for-each-ref"),
                    lit("--count=1"),
                    lit("--format=%(refname)"),
                    lit("refs/heads"),
                ),
            );
            let told = (s.script)(s.calls.push(ask));
            let (s1, r) = any_commit_run(s, root);
            &&& s1.calls == s.calls.push(ask)
            &&& r is Ok <==> told is Ok && told->Ok_0.status == 0
            &&& r is Ok ==> r->Ok_0 == (told->Ok_0.stdout.len() > 0)
        }),
{
}

/// A branch that a remote's refspecs exclude is looked for nowhere among that remote's branches.
pub proof fn excluded_branches_are_not_looked_for(
    s: Session,
    bare: Seq<u8>,
    remote: Seq<u8>,
    source: Seq<u8>,
    found: Seq<Seq<u8>>,
    specs: Seq<Seq<u8>>,
    i: int,
)
    requires
        ({
            let ask = invoke_in(
                bare,
                args3(
                    lit("config"),
                    lit("--get-all"),
                    lit("remote.") + remote + lit(".fetch"),
                ),
            );
            let told = (s.script)(s.calls.push(ask));
            told is Ok && told->Ok_0.status == 0 && lines_in(told->Ok_0.stdout) == specs
        }),
        0 <= i < specs.len(),
        specs[i] == seq![CARET] + source,
        !source.contains(STAR),
    ensures
        remote_part(s, bare, remote, source, found).1 == Ok::<
            Seq<Seq<u8>>,
            crate::error::ErrorView,
        >(found),
{
    assert(after(specs[i], 1) =~= source);
    assert(excluded(specs[i], source));
    lemma_excludes(specs, source, 0, i);
}

proof fn lemma_excludes(specs: Seq<Seq<u8>>, source: Seq<u8>, from: int, i: int)
    requires
        0 <= from <= i < specs.len(),
        excluded(specs[i], source),
    ensures
        any_excludes(specs, source, from),
    decreases i - from,
{
    if from < i {
        lemma_excludes(specs, source, from + 1, i);
    }
}

} // verus!

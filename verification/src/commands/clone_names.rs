//! Where a clone goes by default, and what a tilde stands for.
use vstd::prelude::*;
use crate::bytes::{
    after, ends_with, lemma_find_is, lit, split, without_suffix, BACKSLASH, COLON, NUL, SLASH,
    TILDE,
};
use crate::commands::clone::{
    base_start, derived_name, expanded, home_from, rest_of, user_of, without_git, without_slashes,
    Homes,
};
use crate::error::{ErrorView, ExitClass};
use crate::path::child;

verus! {

proof fn lemma_base(s: Seq<u8>, k: int, n: int)
    requires
        0 < k <= n <= s.len(),
        s[k - 1] == SLASH || s[k - 1] == COLON,
        forall|j: int| k <= j < n ==> #[trigger] s[j] != SLASH && s[j] != COLON,
    ensures
        base_start(s, n) == k,
    decreases n,
{
    if k < n {
        assert(s[n - 1] != SLASH && s[n - 1] != COLON);
        lemma_base(s, k, n - 1);
    }
}

proof fn lemma_cut(s: Seq<u8>, end: Seq<u8>)
    ensures
        without_suffix(s + end, end) == Some(s),
{
    let all = s + end;
    assert(all.subrange(all.len() - end.len(), all.len() as int) =~= end);
    assert(all.subrange(0, all.len() - end.len()) =~= s);
}

/// Whether something is the name of a repository: one name, and without a `.git` at its end.
pub open spec fn names_repository(name: Seq<u8>) -> bool {
    &&& name.len() > 0
    &&& !name.contains(SLASH)
    &&& !name.contains(COLON)
    &&& name != lit(".")
    &&& name != lit("..")
    &&& !ends_with(name, lit(".git"))
}

/// A clone goes by default into a directory of the repository's name: what stands behind the last
/// slash or colon of its locator, whether or not a `.git` follows the name, as a part of it or below
/// it.
pub proof fn clones_are_named_after_the_repository(front: Seq<u8>, sign: u8, name: Seq<u8>)
    requires
        sign == SLASH || sign == COLON,
        names_repository(name),
    ensures
        derived_name(front.push(sign) + name) == Some(name),
        derived_name(front.push(sign) + name + lit(".git")) == Some(name),
        derived_name(front.push(sign) + name + lit("/.git")) == Some(name),
{
    reveal_strlit(".git");
    reveal_strlit("/.git");
    vstd::utf8::is_ascii_chars_encode_utf8(".git"@);
    vstd::utf8::is_ascii_chars_encode_utf8("/.git"@);
    let s = front.push(sign) + name;
    let k = front.len() as int + 1;
    assert forall|j: int| k <= j < s.len() implies #[trigger] s[j] != SLASH && s[j] != COLON by {
        assert(s[j] == name[j - k]);
        assert(name.contains(name[j - k]));
    }
    lemma_base(s, k, s.len() as int);
    assert(after(s, k) =~= name);
    assert(s.last() == name.last());
    assert(name.contains(name.last()));
    assert(without_slashes(s) == s);
    let a = s + lit(".git");
    assert(a.last() == 0x74);
    assert(without_slashes(a) == a);
    lemma_cut(s, lit(".git"));
    assert(!ends_with(a, lit("/.git"))) by {
        if ends_with(a, lit("/.git")) {
            assert(a.subrange(a.len() - 5, a.len() as int)[0] == a[a.len() - 5]);
            assert(a[a.len() - 5] == s.last());
        }
    }
    assert(without_git(a) == s);
    let b = s + lit("/.git");
    assert(b.last() == 0x74);
    assert(without_slashes(b) == b);
    lemma_cut(s, lit("/.git"));
    assert(without_git(b) == s);
    lemma_plain_end(s, name);
    assert(without_git(s) == s);
}

proof fn lemma_plain_end(s: Seq<u8>, name: Seq<u8>)
    requires
        names_repository(name),
        s.len() > name.len(),
        s.subrange(s.len() - name.len(), s.len() as int) == name,
        s[s.len() - name.len() - 1] == SLASH || s[s.len() - name.len() - 1] == COLON,
    ensures
        !ends_with(s, lit(".git")) && !ends_with(s, lit("/.git")) || name.len() < 4,
        name.len() < 4 ==> !ends_with(s, lit(".git")) && !ends_with(s, lit("/.git")),
{
    reveal_strlit(".git");
    reveal_strlit("/.git");
    vstd::utf8::is_ascii_chars_encode_utf8(".git"@);
    vstd::utf8::is_ascii_chars_encode_utf8("/.git"@);
    let n = s.len() as int;
    let m = name.len() as int;
    if ends_with(s, lit("/.git")) {
        assert(s.subrange(n - 4, n) =~= lit(".git")) by {
            assert forall|i: int| 0 <= i < 4 implies s.subrange(n - 4, n)[i] == lit(".git")[i] by {
                assert(s.subrange(n - 5, n)[i + 1] == lit("/.git")[i + 1]);
            }
        }
    }
    if ends_with(s, lit(".git")) || ends_with(s, lit("/.git")) {
        assert(s.subrange(n - 4, n) =~= lit(".git"));
        if m >= 4 {
            assert forall|i: int| 0 <= i < 4 implies name.subrange(m - 4, m)[i] == lit(
                ".git",
            )[i] by {
                assert(s.subrange(n - m, n)[m - 4 + i] == s[n - 4 + i]);
                assert(s.subrange(n - 4, n)[i] == s[n - 4 + i]);
            }
            assert(name.subrange(m - 4, m) =~= lit(".git"));
        } else {
            let at = n - m - 1;
            assert(s.subrange(n - 4, n)[at - (n - 4)] == s[at]);
        }
    }
}

/// A path without a tilde in front is taken as it is. A tilde alone stands for the home of the user,
/// and one with a name behind it for that user's; what follows lies below.
pub proof fn tildes_stand_for_homes(
    homes: Homes,
    path: Seq<u8>,
    user: Seq<u8>,
    rest: Seq<u8>,
    home: Seq<u8>,
)
    requires
        user.len() > 0,
        rest.len() > 0,
        rest[0] != SLASH,
        !user.contains(SLASH),
        !user.contains(COLON),
        !user.contains(NUL),
        !user.contains(BACKSLASH),
    ensures
        path.len() == 0 || path[0] != TILDE ==> expanded(path, homes) == Ok::<Seq<u8>, ErrorView>(
            path,
        ),
        homes.current == Some(home) ==> expanded(seq![TILDE], homes) == Ok::<Seq<u8>, ErrorView>(
            home,
        ) && expanded(seq![TILDE].push(SLASH) + rest, homes) == Ok::<Seq<u8>, ErrorView>(
            child(home, rest),
        ),
        (homes.named)(user) == Ok::<Option<Seq<u8>>, ErrorView>(Some(home)) ==> expanded(
            seq![TILDE] + user,
            homes,
        ) == Ok::<Seq<u8>, ErrorView>(home) && expanded(
            (seq![TILDE] + user).push(SLASH) + rest,
            homes,
        ) == Ok::<Seq<u8>, ErrorView>(child(home, rest)),
        homes.current is None ==> expanded(seq![TILDE], homes) is Err && expanded(
            seq![TILDE],
            homes,
        )->Err_0.class == ExitClass::Usage,
{
    let none: Seq<u8> = seq![];
    lemma_parted(none, rest);
    lemma_parted(user, rest);
    assert(seq![TILDE] + none =~= seq![TILDE]);
}

proof fn lemma_parted(user: Seq<u8>, rest: Seq<u8>)
    requires
        !user.contains(SLASH),
    ensures
        user_of(seq![TILDE] + user) == user,
        rest_of(seq![TILDE] + user) == Seq::<u8>::empty(),
        user_of((seq![TILDE] + user).push(SLASH) + rest) == user,
        rest_of((seq![TILDE] + user).push(SLASH) + rest) == rest,
{
    let head = seq![TILDE] + user;
    let n = head.len() as int;
    assert forall|j: int| 0 <= j < n implies head[j] != SLASH by {
        if j > 0 {
            assert(head[j] == user[j - 1]);
            assert(user.contains(user[j - 1]));
        }
    }
    lemma_find_is(head, SLASH, 0, n);
    assert(head.subrange(1, n) =~= user);
    let all = head.push(SLASH) + rest;
    assert forall|j: int| 0 <= j < n implies all[j] != SLASH by {
        assert(all[j] == head[j]);
    }
    lemma_find_is(all, SLASH, 0, n);
    assert(all.subrange(1, n) =~= user);
    assert(after(all, n + 1) =~= rest);
}

/// A user's home is the sixth of seven fields or more, on the first line that begins with the
/// user's name.
pub proof fn homes_are_as_the_table_says(lines: Seq<Seq<u8>>, user: Seq<u8>, i: int, k: int)
    requires
        0 <= i <= k < lines.len(),
        split(lines[k], COLON).len() >= 7,
        split(lines[k], COLON)[0] == user,
        forall|j: int|
            i <= j < k ==> split(#[trigger] lines[j], COLON).len() < 7 || split(lines[j], COLON)[0]
                != user,
    ensures
        home_from(lines, user, i) == Some(split(lines[k], COLON)[5]),
    decreases k - i,
{
    if i < k {
        assert(split(lines[i], COLON).len() < 7 || split(lines[i], COLON)[0] != user);
        homes_are_as_the_table_says(lines, user, i + 1, k);
    }
}

/// A user whom no line names has no home.
pub proof fn unlisted_users_have_no_home(lines: Seq<Seq<u8>>, user: Seq<u8>, i: int)
    requires
        0 <= i <= lines.len(),
        forall|j: int| i <= j < lines.len() ==> split(#[trigger] lines[j], COLON)[0] != user,
    ensures
        home_from(lines, user, i) is None,
    decreases lines.len() - i,
{
    if i < lines.len() {
        assert(split(lines[i], COLON)[0] != user);
        unlisted_users_have_no_home(lines, user, i + 1);
    }
}

} // verus!

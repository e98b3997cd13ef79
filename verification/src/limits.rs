//! What is asked of the programs that are run, and of the environment that they are run in.
use vstd::prelude::*;
use vstd::utf8::encode_utf8;
use crate::bytes::{
    after, find, lemma_find_is, lemma_split_fields, lemma_split_joined, lit, split, starts_with, DOT,
    LF, SPACE,
};
use crate::error::ExitClass;
use crate::fsx::mountinfo::{all_digits, is_digit, lemma_decimal_digits, numbers_read_back};
use crate::git::provider::{
    announced, first_word, version_verdict, Provider, ProviderVersion,
};
use crate::git::runner::OutputView;
use crate::policy::{gate_verdict, git_verdict, redirecting_among};
use crate::text::decimal_nat;

verus! {

/// The bytes of `<banner><major>.<minor><tail>`.
pub open spec fn announcement(banner: Seq<u8>, major: u64, minor: u64, tail: Seq<u8>) -> Seq<u8> {
    banner + encode_utf8(decimal_nat(major as nat)) + seq![DOT] + encode_utf8(
        decimal_nat(minor as nat),
    ) + tail
}

/// Whether what follows a version's second number ends that number.
pub open spec fn ends_number(tail: Seq<u8>) -> bool {
    tail.len() == 0 || tail[0] == DOT || tail[0] == SPACE || tail[0] == LF
}

/// A version is what stands behind the banner: its first two numbers, whatever comes after them.
pub proof fn versions_read_back(banner: Seq<u8>, major: u64, minor: u64, tail: Seq<u8>)
    requires
        ends_number(tail),
    ensures
        announced(banner, announcement(banner, major, minor, tail)) == Some(
            ProviderVersion { major, minor },
        ),
{
    let stdout = announcement(banner, major, minor, tail);
    let a = encode_utf8(decimal_nat(major as nat));
    let b = encode_utf8(decimal_nat(minor as nat));
    lemma_decimal_digits(major as nat);
    lemma_decimal_digits(minor as nat);
    let rest = a + seq![DOT] + b + tail;
    assert(stdout =~= banner + rest);
    assert(starts_with(stdout, banner)) by {
        assert(stdout.subrange(0, banner.len() as int) =~= banner);
    }
    assert(after(stdout, banner.len() as int) =~= rest);
    let n = a.len() + 1 + b.len();
    assert forall|j: int| 0 <= j < n implies rest[j] != LF && rest[j] != SPACE by {
        if j < a.len() {
            assert(rest[j] == a[j] && is_digit(a[j]));
        } else if j > a.len() {
            assert(rest[j] == b[j - a.len() - 1] && is_digit(b[j - a.len() - 1]));
        }
    }
    crate::bytes::lemma_find_bounds(rest, LF, 0);
    let end = find(rest, LF);
    assert(end >= n) by {
        if end < n {
            assert(rest[end] == LF);
        }
    }
    let row = rest.subrange(0, end);
    crate::bytes::lemma_find_bounds(row, SPACE, 0);
    let stop = find(row, SPACE);
    assert(stop >= n) by {
        if stop < n {
            assert(row[stop] == rest[stop]);
        }
    }
    let word = first_word(rest);
    assert(word =~= rest.subrange(0, stop));
    let later = word.subrange(a.len() as int + 1, stop);
    assert(word =~= a.push(DOT) + later);
    lemma_split_joined(a, later, DOT);
    lemma_alone(a);
    if stop == n {
        assert(later =~= b);
        lemma_alone(b);
    } else {
        assert(word[n as int] == tail[0]);
        assert(tail[0] != SPACE && tail[0] != LF) by {
            assert(rest[n as int] == tail[0]);
            assert(row[n as int] == tail[0]);
        }
        let last = later.subrange(b.len() as int + 1, later.len() as int);
        assert(later =~= b.push(DOT) + last);
        lemma_split_joined(b, last, DOT);
        lemma_split_fields(last, DOT);
        lemma_alone(b);
    }
    lemma_split_fields(later, DOT);
    let fields = split(word, DOT);
    assert(fields[0] == a);
    assert(fields[1] == split(later, DOT)[0]);
    assert(fields[1] == b);
    numbers_read_back(major);
    numbers_read_back(minor);
}

proof fn lemma_alone(digits: Seq<u8>)
    requires
        all_digits(digits),
    ensures
        split(digits, DOT) == seq![digits],
{
    assert forall|j: int| 0 <= j < digits.len() implies digits[j] != DOT by {
        assert(is_digit(digits[j]));
    }
    lemma_find_is(digits, DOT, 0, digits.len() as int);
    assert(split(digits, DOT) =~= seq![digits]);
}

/// Git is accepted from its version 2.47 on, and an older one is refused as a matter of usage.
pub proof fn git_is_accepted_from_its_minimum_on(major: u64, minor: u64, tail: Seq<u8>)
    requires
        ends_number(tail),
    ensures
        ({
            let verdict = git_verdict(announcement(lit("git version "), major, minor, tail));
            &&& verdict is Ok <==> (major > 2 || (major == 2 && minor >= 47))
            &&& verdict is Err ==> verdict->Err_0.class == ExitClass::Usage
        }),
{
    versions_read_back(lit("git version "), major, minor, tail);
}

/// GitHub's program is accepted from its version 2.97 on, GitLab's from 1.114.
pub proof fn providers_are_accepted_from_their_minimum_on(
    major: u64,
    minor: u64,
    tail: Seq<u8>,
    out: OutputView,
)
    requires
        ends_number(tail),
        out.status == 0,
    ensures
        out.stdout == announcement(lit("gh version "), major, minor, tail) ==> (version_verdict(
            Provider::GitHub,
            out,
        ) is Ok <==> (major > 2 || (major == 2 && minor >= 97))),
        out.stdout == announcement(lit("glab "), major, minor, tail) ==> (version_verdict(
            Provider::GitLab,
            out,
        ) is Ok <==> (major > 1 || (major == 1 && minor >= 114))),
{
    versions_read_back(lit("gh version "), major, minor, tail);
    versions_read_back(lit("glab "), major, minor, tail);
}

/// An environment that is accepted sets no variable that leads Git to another repository, or lays a
/// configuration over its own.
pub proof fn accepted_environments_leave_git_alone(
    stdout: Seq<u8>,
    variables: Seq<Seq<u8>>,
    i: int,
)
    requires
        gate_verdict(stdout, variables, false) is Ok,
        0 <= i < variables.len(),
    ensures
        variables[i] != lit("GIT_DIR"),
        variables[i] != lit("GIT_WORK_TREE"),
        variables[i] != lit("GIT_INDEX_FILE"),
        variables[i] != lit("GIT_COMMON_DIR"),
        variables[i] != lit("GIT_NAMESPACE"),
        variables[i] != lit("GIT_OBJECT_DIRECTORY"),
        variables[i] != lit("GIT_ALTERNATE_OBJECT_DIRECTORIES"),
        variables[i] != lit("GIT_CONFIG"),
        variables[i] != lit("GIT_CONFIG_GLOBAL"),
        variables[i] != lit("GIT_CONFIG_SYSTEM"),
        variables[i] != lit("GIT_CONFIG_COUNT"),
        variables[i] != lit("GIT_CONFIG_PARAMETERS"),
{
    let found = redirecting_among(variables, variables.len() as int);
    crate::policy::every_redirection_is_reported(variables, variables[i]);
    assert(variables.contains(variables[i]));
    assert(!found.contains(variables[i]));
}

/// An environment that sets none of Git's variables is accepted wherever Git is, and nothing is
/// reported of it.
pub proof fn other_variables_do_not_matter(stdout: Seq<u8>, variables: Seq<Seq<u8>>, ignoring: bool)
    requires
        forall|i: int|
            0 <= i < variables.len() ==> !starts_with(#[trigger] variables[i], lit("GIT_")),
        git_verdict(stdout) is Ok,
    ensures
        gate_verdict(stdout, variables, ignoring) is Ok,
        gate_verdict(stdout, variables, ignoring)->Ok_0.len() == 0,
{
    let found = redirecting_among(variables, variables.len() as int);
    if found.len() > 0 {
        let name = found[0];
        assert(found.contains(name));
        crate::policy::every_redirection_is_reported(variables, name);
        let i = choose|i: int| 0 <= i < variables.len() && variables[i] == name;
        assert(starts_with(variables[i], lit("GIT_"))) by {
            lemma_gits_names(name);
        }
    }
}

proof fn lemma_gits_names(name: Seq<u8>)
    requires
        crate::policy::redirects(name),
    ensures
        starts_with(name, lit("GIT_")),
{
    lemma_four("GIT_DIR"@);
    reveal_strlit("GIT_DIR");
    reveal_strlit("GIT_WORK_TREE");
    reveal_strlit("GIT_INDEX_FILE");
    reveal_strlit("GIT_COMMON_DIR");
    reveal_strlit("GIT_NAMESPACE");
    reveal_strlit("GIT_OBJECT_DIRECTORY");
    reveal_strlit("GIT_ALTERNATE_OBJECT_DIRECTORIES");
    reveal_strlit("GIT_CONFIG");
    reveal_strlit("GIT_CONFIG_GLOBAL");
    reveal_strlit("GIT_CONFIG_SYSTEM");
    reveal_strlit("GIT_CONFIG_COUNT");
    reveal_strlit("GIT_CONFIG_PARAMETERS");
    lemma_four("GIT_WORK_TREE"@);
    lemma_four("GIT_INDEX_FILE"@);
    lemma_four("GIT_COMMON_DIR"@);
    lemma_four("GIT_NAMESPACE"@);
    lemma_four("GIT_OBJECT_DIRECTORY"@);
    lemma_four("GIT_ALTERNATE_OBJECT_DIRECTORIES"@);
    lemma_four("GIT_CONFIG"@);
    lemma_four("GIT_CONFIG_GLOBAL"@);
    lemma_four("GIT_CONFIG_SYSTEM"@);
    lemma_four("GIT_CONFIG_COUNT"@);
    lemma_four("GIT_CONFIG_PARAMETERS"@);
}

proof fn lemma_four(word: Seq<char>)
    ensures
        vstd::utf8::is_ascii_chars(word) && word.len() >= 4 && word[0] == 'G' && word[1] == 'I'
            && word[2] == 'T' && word[3] == '_' ==> starts_with(encode_utf8(word), lit("GIT_")),
{
    if vstd::utf8::is_ascii_chars(word) && word.len() >= 4 && word[0] == 'G' && word[1] == 'I'
        && word[2] == 'T' && word[3] == '_' {
        reveal_strlit("GIT_");
        vstd::utf8::is_ascii_chars_encode_utf8("GIT_"@);
        vstd::utf8::is_ascii_chars_encode_utf8(word);
        assert(encode_utf8(word).subrange(0, 4) =~= lit("GIT_"));
    }
}

} // verus!

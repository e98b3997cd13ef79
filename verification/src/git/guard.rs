//! Git children that run only while the directories they work in stay the same.
use vstd::prelude::*;
use crate::error::{plain, Result};
use crate::fsx::directory::{validate_run, HeldDirectory, HeldView};
use crate::fsx::files::{unexpected_error, FileSession, FileSystem};
use crate::git::config::Outcome;
use crate::git::runner::{
    step, GitOutput, GitRunner, Invocation, InvocationView, Reply, Session,
};

verus! {

/// Checking both directories.
pub open spec fn both_run(f: FileSession, root: HeldView, bare: HeldView) -> (
    FileSession,
    Outcome<()>,
) {
    match validate_run(f, root) {
        (f1, Err(e)) => (f1, Err(e)),
        (f1, Ok(_)) => validate_run(f1, bare),
    }
}

/// A child that runs only if both directories are in place, and whose output counts only if
/// they still are when it is done.
#[verifier::opaque]
pub open spec fn guarded_step(
    s: Session,
    f: FileSession,
    root: HeldView,
    bare: HeldView,
    i: InvocationView,
) -> (Session, FileSession, Reply) {
    match both_run(f, root, bare) {
        (f1, Err(e)) => (s, f1, Err(e)),
        (f1, Ok(_)) => match step(s, i) {
            (s1, Err(e)) => (s1, f1, Err(e)),
            (s1, Ok(out)) => match both_run(f1, root, bare) {
                (f2, Err(e)) => (s1, f2, Err(e)),
                (f2, Ok(_)) => (s1, f2, Ok(out)),
            },
        },
    }
}

/// Checks both directories.
pub fn validate_both<F: FileSystem + ?Sized>(
    files: &mut F,
    root: &HeldDirectory,
    bare: &HeldDirectory,
) -> (r: Result<()>)
    ensures
        (final(files).files(), plain(r)) == both_run(old(files).files(), root@, bare@),
{
    root.validate(files)?;
    bare.validate(files)
}

/// Where the runner and the file system stand once some guarded children were asked for, one
/// after the other.
pub open spec fn guarded_after(
    s: Session,
    f: FileSession,
    root: HeldView,
    bare: HeldView,
    calls: Seq<InvocationView>,
) -> (Session, FileSession)
    decreases calls.len(),
{
    if calls.len() == 0 {
        (s, f)
    } else {
        let (s1, f1) = guarded_after(s, f, root, bare, calls.drop_last());
        let (s2, f2, reply) = guarded_step(s1, f1, root, bare, calls.last());
        (s2, f2)
    }
}

/// What the last of some guarded children is answered, if they are asked for one after the other.
pub open spec fn guarded_reply(
    s: Session,
    f: FileSession,
    root: HeldView,
    bare: HeldView,
    calls: Seq<InvocationView>,
) -> Reply {
    if calls.len() == 0 {
        Err(unexpected_error())
    } else {
        let (s1, f1) = guarded_after(s, f, root, bare, calls.drop_last());
        guarded_step(s1, f1, root, bare, calls.last()).2
    }
}

/// The session of a runner that is put under a guard: none of its children was asked for yet.
pub open spec fn guarded_session(s: Session, f: FileSession, root: HeldView, bare: HeldView) -> Session {
    Session {
        calls: Seq::empty(),
        script: |calls: Seq<InvocationView>| guarded_reply(s, f, root, bare, calls),
        beneath: Some(|calls: Seq<InvocationView>| guarded_after(s, f, root, bare, calls)),
    }
}

/// Where the runner and the file system stand that a guarded session stands on.
pub open spec fn beneath(s: Session) -> (Session, FileSession) {
    (s.beneath->Some_0)(s.calls)
}

/// The children after the first are asked for from where that one has led.
proof fn lemma_first(
    s: Session,
    f: FileSession,
    root: HeldView,
    bare: HeldView,
    calls: Seq<InvocationView>,
)
    requires
        calls.len() > 0,
    ensures
        ({
            let (s1, f1, reply) = guarded_step(s, f, root, bare, calls[0]);
            &&& guarded_after(s, f, root, bare, calls) == guarded_after(
                s1,
                f1,
                root,
                bare,
                calls.drop_first(),
            )
            &&& calls.len() > 1 ==> guarded_reply(s, f, root, bare, calls) == guarded_reply(
                s1,
                f1,
                root,
                bare,
                calls.drop_first(),
            )
        }),
    decreases calls.len(),
{
    let before = calls.drop_last();
    let after = calls.drop_first();
    if calls.len() == 1 {
        assert(guarded_after(s, f, root, bare, before) == (s, f));
        assert(calls.last() == calls[0]);
    } else {
        lemma_first(s, f, root, bare, before);
        assert(before[0] == calls[0]);
        assert(before.drop_first() =~= after.drop_last());
        assert(after.last() == calls.last());
    }
}

/// One guarded child that was asked for: where the runner and the file system stood before it, and
/// what it was.
pub type GuardedCall = (Session, FileSession, InvocationView);

spec fn asked(log: Seq<GuardedCall>) -> Seq<InvocationView> {
    log.map_values(|call: GuardedCall| call.2)
}

/// Where some guarded children start from, and which of them are left, where those of `log` were
/// asked for and the runner and the file system stand at `s` and `f` since. Up to where the
/// children part from those that were asked for all is as it was, and from there on it is what
/// would come.
spec fn rest_of(
    log: Seq<GuardedCall>,
    s: Session,
    f: FileSession,
    calls: Seq<InvocationView>,
    keep: nat,
) -> (Session, FileSession, Seq<InvocationView>)
    decreases log.len(),
{
    if log.len() == 0 {
        (s, f, calls)
    } else if calls.len() > keep && calls[0] == log[0].2 {
        rest_of(log.drop_first(), s, f, calls.drop_first(), keep)
    } else {
        (log[0].0, log[0].1, calls)
    }
}

/// The session of a guarded runner at any time: the children it was asked for, what they are
/// answered, and where they lead.
spec fn session_at(
    log: Seq<GuardedCall>,
    s: Session,
    f: FileSession,
    root: HeldView,
    bare: HeldView,
) -> Session {
    Session {
        calls: asked(log),
        script: |calls: Seq<InvocationView>|
            {
                let (s1, f1, rest) = rest_of(log, s, f, calls, 1);
                guarded_reply(s1, f1, root, bare, rest)
            },
        beneath: Some(
            |calls: Seq<InvocationView>|
                {
                    let (s1, f1, rest) = rest_of(log, s, f, calls, 0);
                    guarded_after(s1, f1, root, bare, rest)
                },
        ),
    }
}

/// One more child changes no answer, and leads nowhere else.
proof fn lemma_answers_stay(
    log: Seq<GuardedCall>,
    s: Session,
    f: FileSession,
    root: HeldView,
    bare: HeldView,
    i: InvocationView,
    calls: Seq<InvocationView>,
)
    ensures
        ({
            let (s1, f1, reply) = guarded_step(s, f, root, bare, i);
            let more = log.push((s, f, i));
            let (sa, fa, a) = rest_of(more, s1, f1, calls, 1);
            let (sb, fb, b) = rest_of(log, s, f, calls, 1);
            let (sc, fc, c) = rest_of(more, s1, f1, calls, 0);
            let (sd, fd, d) = rest_of(log, s, f, calls, 0);
            &&& guarded_reply(sa, fa, root, bare, a) == guarded_reply(sb, fb, root, bare, b)
            &&& guarded_after(sc, fc, root, bare, c) == guarded_after(sd, fd, root, bare, d)
        }),
    decreases log.len(),
{
    let more = log.push((s, f, i));
    if log.len() == 0 {
        assert(more.drop_first() =~= log);
        reveal_with_fuel(rest_of, 2);
        if calls.len() > 0 {
            lemma_first(s, f, root, bare, calls);
        }
    } else {
        assert(more.drop_first() =~= log.drop_first().push((s, f, i)));
        assert(more[0] == log[0]);
        lemma_answers_stay(log.drop_first(), s, f, root, bare, i, calls.drop_first());
    }
}

/// The next child is answered from where the runner and the file system stand, and all that were
/// asked for lead there.
proof fn lemma_next_answer(log: Seq<GuardedCall>, s: Session, f: FileSession, i: InvocationView)
    ensures
        rest_of(log, s, f, asked(log).push(i), 1) == (s, f, seq![i]),
        rest_of(log, s, f, asked(log), 0) == (s, f, Seq::<InvocationView>::empty()),
    decreases log.len(),
{
    let calls = asked(log).push(i);
    if log.len() == 0 {
        assert(calls =~= seq![i]);
        assert(asked(log) =~= Seq::<InvocationView>::empty());
    } else {
        assert(calls[0] == log[0].2);
        assert(asked(log)[0] == log[0].2);
        assert(calls.drop_first() =~= asked(log.drop_first()).push(i));
        assert(asked(log).drop_first() =~= asked(log.drop_first()));
        lemma_next_answer(log.drop_first(), s, f, i);
    }
}

/// A runner whose children run only while two directories stay the same: the root of a grove
/// and the bare repository in it. Nothing reaches the runner that it stands on beside it.
pub struct GuardedRunner<R, F> {
    runner: R,
    files: F,
    root: HeldDirectory,
    bare: HeldDirectory,
    log: Ghost<Seq<GuardedCall>>,
}

impl<R: GitRunner, F: FileSystem> GuardedRunner<R, F> {
    pub fn new(runner: R, files: F, root: HeldDirectory, bare: HeldDirectory) -> (r: GuardedRunner<
        R,
        F,
    >)
        ensures
            r.session() == guarded_session(runner.session(), files.files(), root@, bare@),
    {
        let r = GuardedRunner { runner, files, root, bare, log: Ghost(Seq::empty()) };
        proof {
            let guarded = guarded_session(runner.session(), files.files(), root@, bare@);
            assert(r.session().calls =~= guarded.calls);
            assert(r.session().script =~= guarded.script);
            assert(r.session().beneath->Some_0 =~= guarded.beneath->Some_0);
        }
        r
    }

    /// Gives back what the guard stands on.
    pub fn into_parts(self) -> (r: (R, F))
        ensures
            (r.0.session(), r.1.files()) == beneath(self.session()),
    {
        proof {
            lemma_next_answer(
                self.log@,
                self.runner.session(),
                self.files.files(),
                vstd::pervasive::arbitrary(),
            );
        }
        (self.runner, self.files)
    }
}

impl<R: GitRunner, F: FileSystem> GitRunner for GuardedRunner<R, F> {
    closed spec fn session(&self) -> Session {
        session_at(
            self.log@,
            self.runner.session(),
            self.files.files(),
            self.root@,
            self.bare@,
        )
    }

    fn run(&mut self, invocation: Invocation) -> (r: Result<GitOutput>) {
        let ghost s = self.runner.session();
        let ghost f = self.files.files();
        let ghost log = self.log@;
        let ghost asked_for = invocation@;
        let r = match validate_both(&mut self.files, &self.root, &self.bare) {
            Err(e) => Err(e),
            Ok(_) => match self.runner.run(invocation) {
                Err(e) => Err(e),
                Ok(output) => match validate_both(&mut self.files, &self.root, &self.bare) {
                    Err(e) => Err(e),
                    Ok(_) => Ok(output),
                },
            },
        };
        self.log = Ghost(log.push((s, f, asked_for)));
        proof {
            reveal(guarded_step);
            let (root, bare) = (self.root@, self.bare@);
            let before = session_at(log, s, f, root, bare);
            let after = self.session();
            assert(after.calls =~= before.calls.push(asked_for));
            lemma_next_answer(log, s, f, asked_for);
            assert(seq![asked_for].drop_last() =~= Seq::<InvocationView>::empty());
            assert forall|calls: Seq<InvocationView>|
                (before.script)(calls) == #[trigger] (after.script)(calls) by {
                lemma_answers_stay(log, s, f, root, bare, asked_for, calls);
            }
            assert forall|calls: Seq<InvocationView>|
                (before.beneath->Some_0)(calls) == #[trigger] (after.beneath->Some_0)(calls) by {
                lemma_answers_stay(log, s, f, root, bare, asked_for, calls);
            }
            assert(after.script =~= before.script);
            assert(after.beneath->Some_0 =~= before.beneath->Some_0);
        }
        r
    }
}

} // verus!

//! One Git invocation, its output, and the runner that turns the one into the other.
//!
//! What a runner does is modelled by a [`Session`]: the invocations so far, and a script that
//! fixes what each invocation in turn is answered. Every function that drives Git states the
//! session it leaves behind as a function of the session it found, so its contract says which
//! invocations it makes, in which order, and what it makes of every possible answer.
use vstd::prelude::*;
use crate::bytes::{
    bytes_of, copied, copied_list, copied_opt, lemma_views_push, lit, opt_view, prefixed, views,
};
use crate::error::{detailed, failure, ErrorView, GroveError, Result};
use crate::fsx::files::FileSession;
use crate::text::{
    join, joined_text, lemma_texts_push, lossy, lossy_text, text, texts, trim_end, trim_start, trimmed,
};

verus! {

broadcast use {lemma_views_push, lemma_texts_push};

/// One Git child: the directories it is pinned to, its arguments, and its environment.
#[derive(Debug)]
pub struct Invocation {
    git_dir: Option<Vec<u8>>,
    work_tree: Option<Vec<u8>>,
    cwd: Option<Vec<u8>>,
    args: Vec<Vec<u8>>,
    environment: Vec<(Vec<u8>, Vec<u8>)>,
    c_locale: bool,
}

/// The model of an [`Invocation`].
#[verifier::ext_equal]
pub struct InvocationView {
    pub git_dir: Option<Seq<u8>>,
    pub work_tree: Option<Seq<u8>>,
    pub cwd: Option<Seq<u8>>,
    pub args: Seq<Seq<u8>>,
    pub environment: Seq<(Seq<u8>, Seq<u8>)>,
    pub c_locale: bool,
}

pub open spec fn pair_views(list: Seq<(Vec<u8>, Vec<u8>)>) -> Seq<(Seq<u8>, Seq<u8>)> {
    list.map_values(|p: (Vec<u8>, Vec<u8>)| (p.0@, p.1@))
}

pub broadcast proof fn lemma_pair_views_push(list: Seq<(Vec<u8>, Vec<u8>)>, p: (Vec<u8>, Vec<u8>))
    ensures
        #[trigger] pair_views(list.push(p)) == pair_views(list).push((p.0@, p.1@)),
{
    assert(pair_views(list.push(p)) =~= pair_views(list).push((p.0@, p.1@)));
}

impl View for Invocation {
    type V = InvocationView;

    closed spec fn view(&self) -> InvocationView {
        InvocationView {
            git_dir: opt_view(self.git_dir),
            work_tree: opt_view(self.work_tree),
            cwd: opt_view(self.cwd),
            args: views(self.args@),
            environment: pair_views(self.environment@),
            c_locale: self.c_locale,
        }
    }
}

/// An invocation that pins nothing and carries `args`.
pub open spec fn invoke(args: Seq<Seq<u8>>) -> InvocationView {
    InvocationView {
        git_dir: None,
        work_tree: None,
        cwd: None,
        args,
        environment: seq![],
        c_locale: false,
    }
}

/// An invocation pinned to a Git directory.
pub open spec fn invoke_in(git_dir: Seq<u8>, args: Seq<Seq<u8>>) -> InvocationView {
    InvocationView { git_dir: Some(git_dir), ..invoke(args) }
}

/// Argument lists of a fixed length.
pub open spec fn args1(a: Seq<u8>) -> Seq<Seq<u8>> {
    Seq::empty().push(a)
}

pub open spec fn args2(a: Seq<u8>, b: Seq<u8>) -> Seq<Seq<u8>> {
    args1(a).push(b)
}

pub open spec fn args3(a: Seq<u8>, b: Seq<u8>, c: Seq<u8>) -> Seq<Seq<u8>> {
    args2(a, b).push(c)
}

pub open spec fn args4(a: Seq<u8>, b: Seq<u8>, c: Seq<u8>, d: Seq<u8>) -> Seq<Seq<u8>> {
    args3(a, b, c).push(d)
}

pub open spec fn args5(a: Seq<u8>, b: Seq<u8>, c: Seq<u8>, d: Seq<u8>, e: Seq<u8>) -> Seq<Seq<u8>> {
    args4(a, b, c, d).push(e)
}

pub open spec fn args6(a: Seq<u8>, b: Seq<u8>, c: Seq<u8>, d: Seq<u8>, e: Seq<u8>, f: Seq<u8>) -> Seq<Seq<u8>> {
    args5(a, b, c, d, e).push(f)
}

pub open spec fn args7(a: Seq<u8>, b: Seq<u8>, c: Seq<u8>, d: Seq<u8>, e: Seq<u8>, f: Seq<u8>, g: Seq<u8>) -> Seq<Seq<u8>> {
    args6(a, b, c, d, e, f).push(g)
}

pub open spec fn args8(a: Seq<u8>, b: Seq<u8>, c: Seq<u8>, d: Seq<u8>, e: Seq<u8>, f: Seq<u8>, g: Seq<u8>, h: Seq<u8>) -> Seq<Seq<u8>> {
    args7(a, b, c, d, e, f, g).push(h)
}

pub open spec fn args9(a: Seq<u8>, b: Seq<u8>, c: Seq<u8>, d: Seq<u8>, e: Seq<u8>, f: Seq<u8>, g: Seq<u8>, h: Seq<u8>, i: Seq<u8>) -> Seq<Seq<u8>> {
    args8(a, b, c, d, e, f, g, h).push(i)
}

pub open spec fn args10(a: Seq<u8>, b: Seq<u8>, c: Seq<u8>, d: Seq<u8>, e: Seq<u8>, f: Seq<u8>, g: Seq<u8>, h: Seq<u8>, i: Seq<u8>, j: Seq<u8>) -> Seq<Seq<u8>> {
    args9(a, b, c, d, e, f, g, h, i).push(j)
}

pub open spec fn args11(a: Seq<u8>, b: Seq<u8>, c: Seq<u8>, d: Seq<u8>, e: Seq<u8>, f: Seq<u8>, g: Seq<u8>, h: Seq<u8>, i: Seq<u8>, j: Seq<u8>, k: Seq<u8>) -> Seq<Seq<u8>> {
    args10(a, b, c, d, e, f, g, h, i, j).push(k)
}

/// The literals of a list of words.
pub open spec fn lits(words: Seq<&str>) -> Seq<Seq<u8>> {
    words.map_values(|w: &str| lit(w))
}

/// The whole argument vector: the pins, then the arguments.
pub open spec fn argv_of(i: InvocationView) -> Seq<Seq<u8>> {
    let pinned = match i.git_dir {
        Some(dir) => seq![lit("--git-dir=") + dir],
        None => seq![],
    };
    let placed = match i.work_tree {
        Some(tree) => pinned.push(lit("--work-tree=") + tree),
        None => pinned,
    };
    placed + i.args
}

/// The environment a child gets on top of the inherited one. The locale pin comes last, so it
/// wins over whatever the caller set.
pub open spec fn environment_of(i: InvocationView) -> Seq<(Seq<u8>, Seq<u8>)> {
    if i.c_locale {
        i.environment.push((lit("LC_ALL"), lit("C"))).push((lit("LANGUAGE"), lit("")))
    } else {
        i.environment
    }
}

fn copied_pairs(list: &Vec<(Vec<u8>, Vec<u8>)>) -> (r: Vec<(Vec<u8>, Vec<u8>)>)
    ensures
        pair_views(r@) == pair_views(list@),
{
    broadcast use lemma_pair_views_push;

    let mut out: Vec<(Vec<u8>, Vec<u8>)> = Vec::new();
    let mut i: usize = 0;
    proof {
        assert(pair_views(out@) =~= pair_views(list@).subrange(0, 0));
    }
    while i < list.len()
        invariant
            i <= list.len(),
            pair_views(out@) == pair_views(list@).subrange(0, i as int),
        decreases list.len() - i,
    {
        out.push((copied(list[i].0.as_slice()), copied(list[i].1.as_slice())));
        proof {
            assert(pair_views(list@).subrange(0, i + 1) =~= pair_views(list@).subrange(
                0,
                i as int,
            ).push((list@[i as int].0@, list@[i as int].1@)));
        }
        i = i + 1;
    }
    proof {
        assert(pair_views(list@).subrange(0, i as int) =~= pair_views(list@));
    }
    out
}

impl Invocation {
    pub fn new() -> (r: Invocation)
        ensures
            r@ == invoke(seq![]),
    {
        let r = Invocation {
            git_dir: None,
            work_tree: None,
            cwd: None,
            args: Vec::new(),
            environment: Vec::new(),
            c_locale: false,
        };
        proof {
            assert(r@ =~= invoke(seq![]));
        }
        r
    }

    pub fn git_dir(self, path: &[u8]) -> (r: Invocation)
        ensures
            r@ == (InvocationView { git_dir: Some(path@), ..self@ }),
    {
        Invocation {
            git_dir: Some(copied(path)),
            work_tree: self.work_tree,
            cwd: self.cwd,
            args: self.args,
            environment: self.environment,
            c_locale: self.c_locale,
        }
    }

    pub fn work_tree(self, path: &[u8]) -> (r: Invocation)
        ensures
            r@ == (InvocationView { work_tree: Some(path@), ..self@ }),
    {
        Invocation {
            git_dir: self.git_dir,
            work_tree: Some(copied(path)),
            cwd: self.cwd,
            args: self.args,
            environment: self.environment,
            c_locale: self.c_locale,
        }
    }

    pub fn cwd(self, path: &[u8]) -> (r: Invocation)
        ensures
            r@ == (InvocationView { cwd: Some(path@), ..self@ }),
    {
        Invocation {
            git_dir: self.git_dir,
            work_tree: self.work_tree,
            cwd: Some(copied(path)),
            args: self.args,
            environment: self.environment,
            c_locale: self.c_locale,
        }
    }

    /// Appends one argument.
    pub fn arg(self, arg: &[u8]) -> (r: Invocation)
        ensures
            r@ == (InvocationView { args: self@.args.push(arg@), ..self@ }),
    {
        let mut args = self.args;
        args.push(copied(arg));
        Invocation {
            git_dir: self.git_dir,
            work_tree: self.work_tree,
            cwd: self.cwd,
            args,
            environment: self.environment,
            c_locale: self.c_locale,
        }
    }

    /// Appends one fixed argument.
    pub fn word(self, word: &str) -> (r: Invocation)
        ensures
            r@ == (InvocationView { args: self@.args.push(lit(word)), ..self@ }),
    {
        self.arg(word.as_bytes())
    }

    /// Appends fixed arguments, in order.
    pub fn args(self, words: &[&str]) -> (r: Invocation)
        ensures
            r@ == (InvocationView { args: self@.args + lits(words@), ..self@ }),
    {
        let ghost start = self@;
        let mut r = self;
        let mut i: usize = 0;
        proof {
            assert(start.args + lits(words@).subrange(0, 0) =~= start.args);
        }
        while i < words.len()
            invariant
                i <= words.len(),
                r@ == (InvocationView {
                    args: start.args + lits(words@).subrange(0, i as int),
                    ..start
                }),
            decreases words.len() - i,
        {
            r = r.word(words[i]);
            proof {
                assert(start.args + lits(words@).subrange(0, i + 1) =~= (start.args + lits(
                    words@,
                ).subrange(0, i as int)).push(lit(words@[i as int])));
            }
            i = i + 1;
        }
        proof {
            assert(lits(words@).subrange(0, i as int) =~= lits(words@));
        }
        r
    }

    /// Appends arguments, in order.
    pub fn arg_list(self, list: &Vec<Vec<u8>>) -> (r: Invocation)
        ensures
            r@ == (InvocationView { args: self@.args + views(list@), ..self@ }),
    {
        let ghost start = self@;
        let mut r = self;
        let mut i: usize = 0;
        proof {
            assert(start.args + views(list@).subrange(0, 0) =~= start.args);
        }
        while i < list.len()
            invariant
                i <= list.len(),
                r@ == (InvocationView {
                    args: start.args + views(list@).subrange(0, i as int),
                    ..start
                }),
            decreases list.len() - i,
        {
            r = r.arg(list[i].as_slice());
            proof {
                assert(start.args + views(list@).subrange(0, i + 1) =~= (start.args + views(
                    list@,
                ).subrange(0, i as int)).push(list@[i as int]@));
            }
            i = i + 1;
        }
        proof {
            assert(views(list@).subrange(0, i as int) =~= views(list@));
        }
        r
    }

    /// Sets one environment variable, for this child only.
    pub fn env(self, key: &str, value: &str) -> (r: Invocation)
        ensures
            r@ == (InvocationView {
                environment: self@.environment.push((lit(key), lit(value))),
                ..self@
            }),
    {
        broadcast use lemma_pair_views_push;

        let mut environment = self.environment;
        environment.push((bytes_of(key), bytes_of(value)));
        Invocation {
            git_dir: self.git_dir,
            work_tree: self.work_tree,
            cwd: self.cwd,
            args: self.args,
            environment,
            c_locale: self.c_locale,
        }
    }

    /// Pins this child's locale, so that its diagnostics are untranslated.
    pub fn c_locale(self) -> (r: Invocation)
        ensures
            r@ == (InvocationView { c_locale: true, ..self@ }),
    {
        Invocation {
            git_dir: self.git_dir,
            work_tree: self.work_tree,
            cwd: self.cwd,
            args: self.args,
            environment: self.environment,
            c_locale: true,
        }
    }

    /// Whether this invocation carries the locale pin.
    pub fn is_c_locale(&self) -> (r: bool)
        ensures
            r == self@.c_locale,
    {
        self.c_locale
    }

    /// The directory the child runs in, when it is not the inherited one.
    pub fn working_directory(&self) -> (r: Option<Vec<u8>>)
        ensures
            opt_view(r) == self@.cwd,
    {
        copied_opt(&self.cwd)
    }

    /// The environment a child gets on top of the inherited one.
    pub fn environment_for_test(&self) -> (r: Vec<(Vec<u8>, Vec<u8>)>)
        ensures
            pair_views(r@) == environment_of(self@),
    {
        broadcast use lemma_pair_views_push;

        let mut environment = copied_pairs(&self.environment);
        if self.c_locale {
            environment.push((bytes_of("LC_ALL"), bytes_of("C")));
            environment.push((bytes_of("LANGUAGE"), bytes_of("")));
        }
        environment
    }

    /// The full argument vector.
    pub fn argv_os(&self) -> (r: Vec<Vec<u8>>)
        ensures
            views(r@) == argv_of(self@),
    {
        let mut argv: Vec<Vec<u8>> = Vec::new();
        proof {
            assert(views(argv@) =~= seq![]);
        }
        if let Some(dir) = &self.git_dir {
            argv.push(prefixed("--git-dir=", dir.as_slice()));
        }
        if let Some(tree) = &self.work_tree {
            argv.push(prefixed("--work-tree=", tree.as_slice()));
        }
        let ghost pins = views(argv@);
        let mut i: usize = 0;
        proof {
            assert(pins + views(self.args@).subrange(0, 0) =~= pins);
        }
        while i < self.args.len()
            invariant
                i <= self.args.len(),
                views(argv@) == pins + views(self.args@).subrange(0, i as int),
            decreases self.args.len() - i,
        {
            argv.push(copied(self.args[i].as_slice()));
            proof {
                assert(pins + views(self.args@).subrange(0, i + 1) =~= (pins + views(
                    self.args@,
                ).subrange(0, i as int)).push(self.args@[i as int]@));
            }
            i = i + 1;
        }
        proof {
            assert(views(self.args@).subrange(0, i as int) =~= views(self.args@));
        }
        argv
    }

    /// The argument vector as text.
    pub fn argv_for_test(&self) -> (r: Vec<String>)
        ensures
            texts(r@) == argv_texts(self@),
    {
        let argv = self.argv_os();
        let mut out: Vec<String> = Vec::new();
        let mut i: usize = 0;
        proof {
            assert(texts(out@) =~= argv_texts(self@).subrange(0, 0));
        }
        while i < argv.len()
            invariant
                views(argv@) == argv_of(self@),
                i <= argv.len(),
                texts(out@) == argv_texts(self@).subrange(0, i as int),
            decreases argv.len() - i,
        {
            out.push(lossy(argv[i].as_slice()));
            proof {
                assert(argv_of(self@)[i as int] == views(argv@)[i as int]);
                assert(argv_texts(self@).subrange(0, i + 1) =~= argv_texts(self@).subrange(
                    0,
                    i as int,
                ).push(lossy_text(argv@[i as int]@)));
            }
            i = i + 1;
        }
        proof {
            assert(argv_texts(self@).subrange(0, i as int) =~= argv_texts(self@));
        }
        out
    }

    /// A copy of the invocation.
    pub fn copied(&self) -> (r: Invocation)
        ensures
            r@ == self@,
    {
        Invocation {
            git_dir: copied_opt(&self.git_dir),
            work_tree: copied_opt(&self.work_tree),
            cwd: copied_opt(&self.cwd),
            args: copied_list(&self.args),
            environment: copied_pairs(&self.environment),
            c_locale: self.c_locale,
        }
    }
}

pub open spec fn argv_texts(i: InvocationView) -> Seq<Seq<char>> {
    argv_of(i).map_values(|a: Seq<u8>| lossy_text(a))
}

/// What a Git child left behind.
///
/// Its `stderr` may always be shown to a user, escaped. Deciding by its content is sound only
/// when the child's locale was pinned: see [`GitRunner::run_classified`].
#[derive(Debug)]
pub struct GitOutput {
    pub status: i32,
    pub stdout: Vec<u8>,
    pub stderr: Vec<u8>,
}

#[verifier::ext_equal]
pub struct OutputView {
    pub status: int,
    pub stdout: Seq<u8>,
    pub stderr: Seq<u8>,
}

impl View for GitOutput {
    type V = OutputView;

    open spec fn view(&self) -> OutputView {
        OutputView { status: self.status as int, stdout: self.stdout@, stderr: self.stderr@ }
    }
}

impl OutputView {
    pub open spec fn ok(self) -> bool {
        self.status == 0
    }
}

impl GitOutput {
    pub fn ok(&self) -> (r: bool)
        ensures
            r == self@.ok(),
    {
        self.status == 0
    }

    /// The standard output as text, without white space at its ends.
    pub fn stdout_trimmed(&self) -> (r: String)
        ensures
            r@ == trim_end(trim_start(lossy_text(self@.stdout))),
    {
        trimmed(lossy(self.stdout.as_slice()).as_str())
    }

    /// A copy of the output.
    pub fn copied(&self) -> (r: GitOutput)
        ensures
            r@ == self@,
    {
        GitOutput {
            status: self.status,
            stdout: copied(self.stdout.as_slice()),
            stderr: copied(self.stderr.as_slice()),
        }
    }
}

/// What one invocation is answered: the child's output, or why there was no child.
pub type Reply = std::result::Result<OutputView, ErrorView>;

pub open spec fn reply_of(r: Result<GitOutput>) -> Reply {
    match r {
        Ok(output) => Ok(output@),
        Err(e) => Err(e@),
    }
}

/// The invocations made so far, and what an invocation is answered after those before it: the
/// script takes the invocations up to and with the one to be answered. A runner that stands on
/// another one also tells where that one and its file system stand after some invocations.
pub struct Session {
    pub calls: Seq<InvocationView>,
    pub script: spec_fn(Seq<InvocationView>) -> Reply,
    pub beneath: Option<spec_fn(Seq<InvocationView>) -> (Session, FileSession)>,
}

/// One more invocation, and its answer.
pub open spec fn step(s: Session, i: InvocationView) -> (Session, Reply) {
    (Session { calls: s.calls.push(i), ..s }, (s.script)(s.calls.push(i)))
}

/// What the invocation with number `i` was answered.
pub open spec fn answer_to(s: Session, i: int) -> Reply {
    (s.script)(s.calls.take(i + 1))
}

/// Whether a session has only gone on.
pub open spec fn grown(a: Session, b: Session) -> bool {
    &&& a.calls.len() <= b.calls.len()
    &&& b.script == a.script
    &&& forall|i: int| 0 <= i < a.calls.len() ==> #[trigger] b.calls[i] == a.calls[i]
}

/// A session that has gone on twice has gone on.
pub proof fn lemma_grown_on(a: Session, b: Session, c: Session)
    requires
        grown(a, b),
        grown(b, c),
    ensures
        grown(a, c),
{
    assert forall|i: int| 0 <= i < a.calls.len() implies #[trigger] c.calls[i] == a.calls[i] by {
        assert(b.calls[i] == a.calls[i]);
    }
}

/// An invocation that must exit with status zero.
pub open spec fn step_ok(s: Session, i: InvocationView) -> (Session, Reply) {
    match step(s, i) {
        (s1, Err(e)) => (s1, Err(e)),
        (s1, Ok(out)) => if out.ok() {
            (s1, Ok(out))
        } else {
            (
                s1,
                Err(
                    detailed(
                        failure("git "@ + joined_text(argv_texts(i), " "@) + " failed"@),
                        trim_end(trim_start(lossy_text(out.stderr))),
                    ),
                ),
            )
        },
    }
}

/// Runs Git children, one at a time.
pub trait GitRunner {
    /// The invocations made through this runner, and the answers it will give.
    spec fn session(&self) -> Session;

    /// Runs one child to its end.
    fn run(&mut self, invocation: Invocation) -> (r: Result<GitOutput>)
        ensures
            (final(self).session(), reply_of(r)) == step(old(self).session(), invocation@),
    ;

    /// Runs one child and fails when it exits with a status other than zero.
    fn run_ok(&mut self, invocation: Invocation) -> (r: Result<GitOutput>)
        ensures
            (final(self).session(), reply_of(r)) == step_ok(old(self).session(), invocation@),
    {
        let described = join(&invocation.argv_for_test(), " ");
        let out = self.run(invocation)?;
        if !out.ok() {
            return Err(
                GroveError::failure(
                    text("git ").concat(described.as_str()).concat(" failed"),
                ).with_detail(trimmed(lossy(out.stderr.as_slice()).as_str())),
            );
        }
        Ok(out)
    }

    /// Runs one child with its locale pinned, so that its diagnostics may be decided by.
    fn run_classified(&mut self, invocation: Invocation) -> (r: Result<GitOutput>)
        ensures
            (final(self).session(), reply_of(r)) == step(
                old(self).session(),
                (InvocationView { c_locale: true, ..invocation@ }),
            ),
    {
        self.run(invocation.c_locale())
    }
}

/// A runner that starts no child: it records every invocation and answers from a queue, and
/// with an empty success once the queue is used up.
pub struct RecordingFake {
    calls: Vec<Invocation>,
    queue: Vec<GitOutput>,
    served: Ghost<Seq<OutputView>>,
}

pub open spec fn invocation_views(list: Seq<Invocation>) -> Seq<InvocationView> {
    list.map_values(|i: Invocation| i@)
}

pub open spec fn output_views(list: Seq<GitOutput>) -> Seq<OutputView> {
    list.map_values(|o: GitOutput| o@)
}

pub open spec fn empty_success() -> OutputView {
    OutputView { status: 0, stdout: seq![], stderr: seq![] }
}

/// The script of a queue that has served some answers and holds some more.
pub open spec fn queue_script<A>(served: Seq<OutputView>, queue: Seq<OutputView>) -> spec_fn(
    Seq<A>,
) -> Reply {
    |calls: Seq<A>|
        {
            let i = calls.len() - 1;
            if 0 <= i < served.len() {
                Ok(served[i])
            } else if 0 <= i - served.len() < queue.len() {
                Ok(queue[i - served.len()])
            } else {
                Ok(empty_success())
            }
        }
}

impl RecordingFake {
    #[verifier::type_invariant]
    spec fn in_step(self) -> bool {
        self.served@.len() == self.calls@.len()
    }

    /// The answers already given.
    pub closed spec fn answered(&self) -> Seq<OutputView> {
        self.served@
    }

    /// The answers still queued.
    pub closed spec fn queued(&self) -> Seq<OutputView> {
        output_views(self.queue@)
    }

    pub fn new() -> (r: RecordingFake)
        ensures
            r.session().calls == Seq::<InvocationView>::empty(),
            r.session().script == queue_script::<InvocationView>(r.answered(), r.queued()),
            r.session().beneath is None,
            r.answered() == Seq::<OutputView>::empty(),
            r.queued() == Seq::<OutputView>::empty(),
    {
        let r = RecordingFake { calls: Vec::new(), queue: Vec::new(), served: Ghost(Seq::empty()) };
        proof {
            assert(invocation_views(r.calls@) =~= Seq::<InvocationView>::empty());
            assert(output_views(r.queue@) =~= Seq::<OutputView>::empty());
        }
        r
    }

    /// Queues one more answer.
    pub fn push_response(&mut self, output: GitOutput)
        ensures
            final(self).session().calls == old(self).session().calls,
            final(self).session().script == queue_script::<InvocationView>(
                final(self).answered(),
                final(self).queued(),
            ),
            final(self).session().beneath is None,
            final(self).answered() == old(self).answered(),
            final(self).queued() == old(self).queued().push(output@),
    {
        proof {
            use_type_invariant(&*self);
        }
        let ghost before = output_views(self.queue@);
        let mut queue: Vec<GitOutput> = Vec::new();
        std::mem::swap(&mut self.queue, &mut queue);
        queue.push(output);
        self.queue = queue;
        proof {
            assert(output_views(self.queue@) =~= before.push(output@));
        }
    }

    /// Every invocation made so far, in order.
    pub fn calls(&self) -> (r: Vec<Invocation>)
        ensures
            invocation_views(r@) == self.session().calls,
    {
        let mut out: Vec<Invocation> = Vec::new();
        let mut i: usize = 0;
        proof {
            assert(invocation_views(out@) =~= invocation_views(self.calls@).subrange(0, 0));
        }
        while i < self.calls.len()
            invariant
                i <= self.calls.len(),
                invocation_views(out@) == invocation_views(self.calls@).subrange(0, i as int),
            decreases self.calls.len() - i,
        {
            let ghost before = invocation_views(out@);
            out.push(self.calls[i].copied());
            proof {
                assert(invocation_views(out@) =~= before.push(self.calls@[i as int]@));
                assert(invocation_views(self.calls@).subrange(0, i + 1) =~= invocation_views(
                    self.calls@,
                ).subrange(0, i as int).push(self.calls@[i as int]@));
            }
            i = i + 1;
        }
        proof {
            assert(invocation_views(self.calls@).subrange(0, i as int) =~= invocation_views(
                self.calls@,
            ));
        }
        out
    }
}

impl GitRunner for RecordingFake {
    closed spec fn session(&self) -> Session {
        Session {
            calls: invocation_views(self.calls@),
            script: queue_script(self.served@, output_views(self.queue@)),
            beneath: None,
        }
    }

    fn run(&mut self, invocation: Invocation) -> (r: Result<GitOutput>)
        ensures
            final(self).answered().len() == old(self).answered().len() + 1,
            final(self).answered().drop_last() == old(self).answered(),
            reply_of(r) == Ok::<OutputView, ErrorView>(final(self).answered().last()),
            final(self).queued() == if old(self).queued().len() == 0 {
                old(self).queued()
            } else {
                old(self).queued().drop_first()
            },
    {
        proof {
            use_type_invariant(&*self);
        }
        let ghost served = self.served@;
        let ghost queue0 = output_views(self.queue@);
        let ghost calls0 = invocation_views(self.calls@);
        let mut whole = RecordingFake::new();
        std::mem::swap(self, &mut whole);
        let RecordingFake { mut calls, mut queue, served: _ } = whole;
        let output = if queue.len() == 0 {
            GitOutput { status: 0, stdout: Vec::new(), stderr: Vec::new() }
        } else {
            queue.remove(0)
        };
        let ghost answer = output@;
        calls.push(invocation);
        *self = RecordingFake { calls, queue, served: Ghost(served.push(answer)) };
        proof {
            assert(invocation_views(self.calls@) =~= calls0.push(invocation@));
            assert(output_views(self.queue@) =~= if queue0.len() == 0 {
                queue0
            } else {
                queue0.subrange(1, queue0.len() as int)
            });
            if queue0.len() == 0 {
                assert(answer =~= empty_success());
            }
            assert(queue_script::<InvocationView>(self.served@, output_views(self.queue@))
                =~= queue_script(served, queue0));
        }
        Ok(output)
    }
}

} // verus!

//! What was run on the way from one state of a session to another.
use vstd::prelude::*;
use crate::git::runner::{answer_to, grown, step, InvocationView, OutputView, Session};

verus! {

/// Whether a session has only gone on.
#[verifier::opaque]
pub open spec fn later(a: Session, b: Session) -> bool {
    grown(a, b)
}

/// Whether a child was run on the way from one state to another, and left this behind.
#[verifier::opaque]
pub open spec fn told(a: Session, b: Session, i: InvocationView, out: OutputView) -> bool {
    exists|k: int|
        a.calls.len() <= k < b.calls.len() && #[trigger] b.calls[k] == i && answer_to(b, k) == Ok::<
            OutputView,
            crate::error::ErrorView,
        >(out)
}

/// Whether a child was run on the way from one state to another, and ended well.
pub open spec fn ran(a: Session, b: Session, i: InvocationView) -> bool {
    exists|out: OutputView| #[trigger] told(a, b, i, out) && out.status == 0
}

pub broadcast proof fn lemma_later_same(a: Session)
    ensures
        #[trigger] later(a, a),
{
    reveal(later);
}

pub broadcast proof fn lemma_later_step(a: Session, i: InvocationView)
    ensures
        later(a, (#[trigger] step(a, i)).0),
{
    reveal(later);
}

pub broadcast proof fn lemma_later_on(a: Session, b: Session, c: Session)
    requires
        #[trigger] later(a, b),
        #[trigger] later(b, c),
    ensures
        later(a, c),
{
    reveal(later);
    crate::git::runner::lemma_grown_on(a, b, c);
}

/// What one child leaves behind is told.
pub proof fn lemma_told_step(a: Session, i: InvocationView)
    requires
        step(a, i).1 is Ok,
    ensures
        told(a, step(a, i).0, i, step(a, i).1->Ok_0),
{
    reveal(told);
    let b = step(a, i).0;
    let k = a.calls.len() as int;
    assert(b.calls.take(k + 1) =~= b.calls);
    assert(b.calls[k] == i);
}

/// What was told stays told as the session goes on.
pub proof fn lemma_told_before(
    a: Session,
    b: Session,
    c: Session,
    i: InvocationView,
    out: OutputView,
)
    requires
        told(a, b, i, out),
        later(b, c),
    ensures
        told(a, c, i, out),
{
    reveal(told);
    reveal(later);
    let k = choose|k: int|
        a.calls.len() <= k < b.calls.len() && #[trigger] b.calls[k] == i && answer_to(b, k) == Ok::<
            OutputView,
            crate::error::ErrorView,
        >(out);
    assert(c.calls[k] == b.calls[k]);
    assert(c.calls.take(k + 1) =~= b.calls.take(k + 1));
}

/// What was told later was told on the whole way.
pub proof fn lemma_told_after(
    a: Session,
    b: Session,
    c: Session,
    i: InvocationView,
    out: OutputView,
)
    requires
        later(a, b),
        told(b, c, i, out),
    ensures
        told(a, c, i, out),
{
    reveal(told);
    reveal(later);
}

/// A child that was run stays run, wherever the session came from and goes on to.
pub proof fn lemma_ran_between(a: Session, b: Session, c: Session, d: Session, i: InvocationView)
    requires
        later(a, b),
        ran(b, c, i),
        later(c, d),
    ensures
        ran(a, d, i),
{
    let out = choose|out: OutputView| #[trigger] told(b, c, i, out) && out.status == 0;
    lemma_told_after(a, b, c, i, out);
    lemma_told_before(a, c, d, i, out);
}

/// One child that ends well was run.
pub proof fn lemma_ran_step(a: Session, i: InvocationView)
    requires
        step(a, i).1 is Ok,
        step(a, i).1->Ok_0.status == 0,
    ensures
        ran(a, step(a, i).0, i),
{
    lemma_told_step(a, i);
}

} // verus!

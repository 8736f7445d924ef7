//! A question that a replay puts again and again, such as the time or whether to go on.

use super::source::{Cursor, ReplaySource};
use vstd::prelude::*;

verus! {

/// A question, and what came of it so far.
pub struct Probe<T, F> {
    question: F,
    answers: Ghost<Seq<(Cursor, T)>>,
}

impl<T, F> View for Probe<T, F> {
    type V = Seq<(Cursor, T)>;

    /// Every answer, in the order in which they came, and where the cursor stood when the
    /// question was put.
    closed spec fn view(&self) -> Seq<(Cursor, T)> {
        self.answers@
    }
}

impl<T, F> Probe<T, F> {
    /// The question itself.
    pub closed spec fn question(self) -> F {
        self.question
    }

    /// What came of it since it was as `before` says.
    pub open spec fn since(self, before: Probe<T, F>) -> Seq<(Cursor, T)> {
        self@.skip(before@.len() as int)
    }
}

impl<T, F: Fn() -> T> Probe<T, F> {
    /// Whether it is the same question as `before`, put again any number of times, and every
    /// further answer is one that the question gives.
    pub open spec fn follows(self, before: Probe<T, F>) -> bool {
        &&& self.question() == before.question()
        &&& before@.len() <= self@.len()
        &&& self@.take(before@.len() as int) == before@
        &&& forall|i: int|
            before@.len() <= i < self@.len() ==> call_ensures(
                before.question(),
                (),
                (#[trigger] self@[i]).1,
            )
    }

    /// A question that was not put yet.
    pub fn new(question: F) -> (r: Probe<T, F>)
        ensures
            r.question() == question,
            r@ == Seq::<(Cursor, T)>::empty(),
    {
        Probe { question, answers: Ghost(Seq::empty()) }
    }

    /// Puts the question where the cursor of `source` stands.
    pub fn ask(&mut self, source: &ReplaySource) -> (r: T)
        requires
            call_requires(old(self).question(), ()),
        ensures
            final(self).question() == old(self).question(),
            call_ensures(old(self).question(), (), r),
            final(self)@ == old(self)@.push((source@, r)),
    {
        let answer: T = (self.question)();
        self.answers = Ghost(self.answers@.push((source@, answer)));
        answer
    }
}

/// A question that was not put again.
pub proof fn lemma_unasked<T, F: Fn() -> T>(probe: Probe<T, F>)
    ensures
        probe.follows(probe),
        probe.since(probe) == Seq::<(Cursor, T)>::empty(),
{
    assert(probe@.take(probe@.len() as int) =~= probe@);
    assert(probe.since(probe) =~= Seq::<(Cursor, T)>::empty());
}

/// A question that was put once more.
pub proof fn lemma_asked<T, F: Fn() -> T>(
    before: Probe<T, F>,
    probe: Probe<T, F>,
    after: Probe<T, F>,
    at: Cursor,
    answer: T,
)
    requires
        probe.follows(before),
        after.question() == probe.question(),
        after@ == probe@.push((at, answer)),
        call_ensures(before.question(), (), answer),
    ensures
        after.follows(before),
        after.since(before) == probe.since(before).push((at, answer)),
{
    assert(after@.take(before@.len() as int) =~= before@) by {
        assert forall|i: int| 0 <= i < before@.len() implies after@[i] == before@[i] by {
            assert(probe@.take(before@.len() as int)[i] == before@[i]);
        }
    }
    assert forall|i: int| before@.len() <= i < after@.len() implies call_ensures(
        before.question(),
        (),
        (#[trigger] after@[i]).1,
    ) by {
        if i < probe@.len() {
            assert(after@[i] == probe@[i]);
        }
    }
    assert(after.since(before) =~= probe.since(before).push((at, answer)));
}

/// What came of a question in two stretches, one behind the other.
pub proof fn lemma_followed<T, F: Fn() -> T>(
    first: Probe<T, F>,
    second: Probe<T, F>,
    third: Probe<T, F>,
)
    requires
        second.follows(first),
        third.follows(second),
    ensures
        third.follows(first),
        third.since(first) == second.since(first) + third.since(second),
{
    assert forall|i: int| 0 <= i < second@.len() implies third@[i] == second@[i] by {
        assert(third@.take(second@.len() as int)[i] == second@[i]);
    }
    assert(third@.take(first@.len() as int) =~= first@) by {
        assert forall|i: int| 0 <= i < first@.len() implies third@[i] == first@[i] by {
            assert(second@.take(first@.len() as int)[i] == first@[i]);
        }
    }
    assert forall|i: int| first@.len() <= i < third@.len() implies call_ensures(
        first.question(),
        (),
        (#[trigger] third@[i]).1,
    ) by {
        if i < second@.len() {
            assert(third@[i] == second@[i]);
        }
    }
    assert(third.since(first) =~= second.since(first) + third.since(second));
}

} // verus!

//! Records of what is done outside the library.
//!
//! A function of the outside that may be called more than once is called by way of
//! a recorder, which keeps the calls that were made and what they returned, in
//! order. A contract that fixes the record thereby says which calls are made, how
//! often and in which order, and that no others are; what a call is recorded with
//! is what the function may return.

use vstd::prelude::*;

verus! {

/// Whether a record only grew: what was recorded stays.
pub open spec fn grown<T>(before: Seq<T>, after: Seq<T>) -> bool {
    before.len() <= after.len() && after.take(before.len() as int) == before
}

/// What a record got since it was `before`.
pub open spec fn since<T>(before: Seq<T>, after: Seq<T>) -> Seq<T> {
    after.skip(before.len() as int)
}

/// What a record got in two steps is what it got in the first and then in the
/// second.
pub proof fn lemma_since<T>(first: Seq<T>, second: Seq<T>, third: Seq<T>)
    requires
        grown(first, second),
        grown(second, third),
    ensures
        grown(first, third),
        since(first, third) == since(first, second) + since(second, third),
{
    let (a, b) = (first.len() as int, second.len() as int);
    assert(third.take(a) =~= third.take(b).take(a));
    assert(since(first, third) =~= since(first, second) + since(second, third)) by {
        assert forall|i: int| 0 <= i < third.len() - a implies since(first, third)[i] == (since(
            first,
            second,
        ) + since(second, third))[i] by {
            if i < b - a {
                assert(third.take(b)[a + i] == third[a + i]);
            }
        }
    }
}

/// A record that got nothing got nothing since.
pub proof fn lemma_since_none<T>(record: Seq<T>)
    ensures
        grown(record, record),
        since(record, record) == Seq::<T>::empty(),
{
    assert(record.take(record.len() as int) =~= record);
    assert(since(record, record) =~= Seq::<T>::empty());
}

/// A record that got one more got that one since.
pub proof fn lemma_since_one<T>(record: Seq<T>, more: T)
    ensures
        grown(record, record.push(more)),
        since(record, record.push(more)) == seq![more],
{
    assert(record.push(more).take(record.len() as int) =~= record);
    assert(since(record, record.push(more)) =~= seq![more]);
}

/// A record that got one more after what it got before.
pub proof fn lemma_since_push<T>(first: Seq<T>, second: Seq<T>, more: T)
    requires
        grown(first, second),
    ensures
        grown(first, second.push(more)),
        since(first, second.push(more)) == since(first, second).push(more),
{
    lemma_since_one(second, more);
    lemma_since(first, second, second.push(more));
    assert(since(first, second) + seq![more] =~= since(first, second).push(more));
}

/// What a record got in two steps, cut where the first ended.
pub proof fn lemma_parts<T>(start: Seq<T>, middle: Seq<T>, end: Seq<T>)
    requires
        grown(start, middle),
        grown(middle, end),
    ensures
        grown(start, end),
        since(start, end).len() == since(start, middle).len() + since(middle, end).len(),
        since(start, end).take(since(start, middle).len() as int) == since(start, middle),
        since(start, end).skip(since(start, middle).len() as int) == since(middle, end),
{
    lemma_since(start, middle, end);
    let n = since(start, middle).len() as int;
    assert(since(start, end).take(n) =~= since(start, middle));
    assert(since(start, end).skip(n) =~= since(middle, end));
}

/// What a record got, cut at its end.
pub proof fn lemma_part<T>(start: Seq<T>, end: Seq<T>)
    requires
        grown(start, end),
    ensures
        since(start, end).take(since(start, end).len() as int) == since(start, end),
        since(start, end).skip(since(start, end).len() as int) == Seq::<T>::empty(),
{
    let n = since(start, end).len() as int;
    assert(since(start, end).take(n) =~= since(start, end));
    assert(since(start, end).skip(n) =~= Seq::<T>::empty());
}

/// Whether a function may return what a call of it is recorded with.
pub open spec fn returned<A: View + ?Sized, R, F: Fn(&A) -> R>(f: F, call: (A::V, R)) -> bool {
    exists|a: &A| a@ == call.0 && #[trigger] f.ensures((a,), call.1)
}

/// A function of the outside, with the calls that were made of it: what each was
/// handed, and what it returned.
#[verifier::reject_recursive_types(A)]
#[verifier::reject_recursive_types(R)]
#[verifier::reject_recursive_types(F)]
pub struct Recorder<A: View + ?Sized, R, F: Fn(&A) -> R> {
    call: F,
    calls: Ghost<Seq<(A::V, R)>>,
}

impl<A: View + ?Sized, R, F: Fn(&A) -> R> Recorder<A, R, F> {
    #[verifier::type_invariant]
    spec fn inv(self) -> bool {
        forall|a: &A| self.call.requires((a,))
    }

    /// The calls that were made, in order.
    pub closed spec fn calls(self) -> Seq<(A::V, R)> {
        self.calls@
    }

    /// The function itself.
    pub closed spec fn function(self) -> F {
        self.call
    }

    /// Whether each call of the record returned what the function may return.
    pub open spec fn answered(self) -> bool {
        forall|i: int|
            0 <= i < self.calls().len() ==> returned(self.function(), #[trigger] self.calls()[i])
    }

    /// Whether this is `before` after further calls: the function and the calls that
    /// were made stay, and the further ones returned what the function may return.
    pub open spec fn follows(self, before: Recorder<A, R, F>) -> bool {
        &&& grown(before.calls(), self.calls())
        &&& self.function() == before.function()
        &&& before.answered() ==> self.answered()
    }

    /// A function of which no call was made.
    pub fn new(call: F) -> (r: Recorder<A, R, F>)
        requires
            forall|a: &A| call.requires((a,)),
        ensures
            r.calls() == Seq::<(A::V, R)>::empty(),
            r.function() == call,
    {
        Recorder { call, calls: Ghost(Seq::empty()) }
    }

    /// Call the function, and record the call.
    pub fn ask(&mut self, a: &A) -> (r: R)
        ensures
            final(self).calls() == old(self).calls().push((a@, r)),
            final(self).follows(*old(self)),
            old(self).function().ensures((a,), r),
    {
        proof {
            use_type_invariant(&*self);
        }
        let call = &self.call;
        let r = call(a);
        assert(self.call.ensures((a,), r));
        let ghost before = self.calls@;
        self.calls = Ghost(self.calls@.push((a@, r)));
        proof {
            lemma_since_one(before, (a@, r));
            let made = (a@, r);
            assert(a@ == made.0 && self.call.ensures((a,), made.1));
            assert(returned(self.call, made));
        }
        r
    }
}

} // verus!

//! Gathering many results into one.
use vstd::prelude::*;

verus! {

/// Something that starts empty and takes up more of its kind.
pub trait Accumulable: Sized {
    /// What is gathered in a value.
    type Content;

    /// What is gathered in a value.
    spec fn content(&self) -> Self::Content;

    /// What is gathered in a value that has taken nothing up.
    spec fn nothing() -> Self::Content;

    /// What is gathered once one content has taken up another.
    spec fn joined(x: Self::Content, y: Self::Content) -> Self::Content;

    fn init() -> (empty: Self)
        ensures
            empty.content() == Self::nothing(),
    ;

    fn accum(x: Self, y: Self) -> (both: Self)
        ensures
            both.content() == Self::joined(x.content(), y.content()),
    ;
}

impl<T> Accumulable for Vec<T> {
    type Content = Seq<T>;

    open spec fn content(&self) -> Seq<T> {
        self@
    }

    open spec fn nothing() -> Seq<T> {
        Seq::empty()
    }

    open spec fn joined(x: Seq<T>, y: Seq<T>) -> Seq<T> {
        x + y
    }

    fn init() -> (empty: Self) {
        Vec::new()
    }

    fn accum(x: Self, y: Self) -> (both: Self) {
        let mut x = x;
        let mut y = y;
        x.append(&mut y);
        x
    }
}

impl<A: Accumulable> Accumulable for (A,) {
    type Content = (A::Content,);

    open spec fn content(&self) -> (A::Content,) {
        (self.0.content(),)
    }

    open spec fn nothing() -> (A::Content,) {
        (A::nothing(),)
    }

    open spec fn joined(x: (A::Content,), y: (A::Content,)) -> (A::Content,) {
        (A::joined(x.0, y.0),)
    }

    fn init() -> (empty: Self) {
        (A::init(),)
    }

    fn accum(x: Self, y: Self) -> (both: Self) {
        (A::accum(x.0, y.0),)
    }
}

impl<A: Accumulable, B: Accumulable> Accumulable for (A, B) {
    type Content = (A::Content, B::Content);

    open spec fn content(&self) -> (A::Content, B::Content) {
        (self.0.content(), self.1.content())
    }

    open spec fn nothing() -> (A::Content, B::Content) {
        (A::nothing(), B::nothing())
    }

    open spec fn joined(x: (A::Content, B::Content), y: (A::Content, B::Content)) -> (
        A::Content,
        B::Content,
    ) {
        (A::joined(x.0, y.0), B::joined(x.1, y.1))
    }

    fn init() -> (empty: Self) {
        (A::init(), B::init())
    }

    fn accum(x: Self, y: Self) -> (both: Self) {
        (A::accum(x.0, y.0), B::accum(x.1, y.1))
    }
}

impl<A: Accumulable, B: Accumulable, C: Accumulable> Accumulable for (A, B, C) {
    type Content = (A::Content, B::Content, C::Content);

    open spec fn content(&self) -> (A::Content, B::Content, C::Content) {
        (self.0.content(), self.1.content(), self.2.content())
    }

    open spec fn nothing() -> (A::Content, B::Content, C::Content) {
        (A::nothing(), B::nothing(), C::nothing())
    }

    open spec fn joined(
        x: (A::Content, B::Content, C::Content),
        y: (A::Content, B::Content, C::Content),
    ) -> (A::Content, B::Content, C::Content) {
        (A::joined(x.0, y.0), B::joined(x.1, y.1), C::joined(x.2, y.2))
    }

    fn init() -> (empty: Self) {
        (A::init(), B::init(), C::init())
    }

    fn accum(x: Self, y: Self) -> (both: Self) {
        (A::accum(x.0, y.0), B::accum(x.1, y.1), C::accum(x.2, y.2))
    }
}

/// What the first `n` items of a list come to when each is taken up in
/// turn.
pub open spec fn gathered<T: Accumulable>(items: Seq<T>, n: int) -> T::Content
    decreases n,
{
    if n <= 0 {
        T::nothing()
    } else {
        T::joined(gathered(items, n - 1), items[n - 1].content())
    }
}

/// A list of results that can be gathered into one.
pub trait FoldInto {
    type Target;

    fn fold_into(self) -> Self::Target;
}

impl<T: Accumulable> FoldInto for Vec<T> {
    type Target = T;

    fn fold_into(self) -> (all: T)
        ensures
            all.content() == gathered(self@, self@.len() as int),
    {
        let mut all = T::init();
        for item in it: self
            invariant
                all.content() == gathered(it.seq(), it.index()),
        {
            all = T::accum(all, item);
        }
        all
    }
}

} // verus!

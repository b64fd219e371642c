//! A cursor over a sequence of items, shared by every stage.

use crate::error::ParseError;
use vstd::prelude::*;

verus! {

pub trait MatchActions<T> {
    spec fn matched(&self) -> bool;

    /// Runs `action` only where there was no match, and returns its result.
    fn on_no_match<R, A>(self, action: A) -> (r: Option<R>) where A: FnOnce() -> R
        requires
            !self.matched() ==> action.requires(()),
        ensures
            self.matched() ==> r is None,
            !self.matched() ==> r is Some && action.ensures((), r->0),
    ;
}

impl<T> MatchActions<T> for Option<T> {
    open spec fn matched(&self) -> bool {
        self is Some
    }

    fn on_no_match<R, A>(self, action: A) -> (r: Option<R>) where A: FnOnce() -> R {
        match self {
            Some(_) => None,
            None => Some(action()),
        }
    }
}

/// A position-tracked consumer of a sequence of items, with a sink for diagnostics.
///
/// Items are consumed from the front, one at a time, and never revisited; any
/// item ahead of the position can be looked at without consuming it.
pub struct CursorParser<T> {
    /// The items not consumed yet, last to first: the next item is at the end.
    rest: Vec<T>,
    cursor: usize,
    errors: Vec<ParseError>,
}

impl<T> CursorParser<T> {
    /// The position can always advance past every remaining item.
    pub closed spec fn wf(&self) -> bool {
        self.cursor + self.rest@.len() <= usize::MAX
    }

    /// The items not consumed yet, in order.
    pub closed spec fn remaining(&self) -> Seq<T> {
        self.rest@.reverse()
    }

    /// How many items have been consumed.
    pub closed spec fn position(&self) -> nat {
        self.cursor as nat
    }

    pub closed spec fn diagnostics(&self) -> Seq<ParseError> {
        self.errors@
    }

    /// The cursor over `items`, with `errors` as the diagnostics so far.
    pub fn from(items: Vec<T>, errors: Vec<ParseError>) -> (r: Self)
        ensures
            r.remaining() == items@,
            r.position() == 0,
            r.diagnostics() == errors@,
            r.wf(),
    {
        let ghost all = items@;
        let mut items = items;
        let mut rest: Vec<T> = Vec::new();
        while items.len() > 0
            invariant
                all == items@ + rest@.reverse(),
            decreases items.len(),
        {
            let ghost before = items@;
            let item = items.pop().unwrap();
            proof {
                assert(before == items@.push(item));
            }
            rest.push(item);
            assert(rest@.reverse() =~= seq![item] + rest@.drop_last().reverse());
            assert(all =~= items@ + rest@.reverse());
        }
        assert(all =~= rest@.reverse());
        let n: usize = rest.len();
        assert(n == rest@.len());
        CursorParser { rest, cursor: 0, errors }
    }

    pub fn cursor(&self) -> (r: usize)
        ensures
            r == self.position(),
    {
        self.cursor
    }

    /// How many items are left.
    pub fn remaining_len(&self) -> (r: usize)
        ensures
            r == self.remaining().len(),
    {
        self.rest.len()
    }

    /// Whether every item has been consumed.
    pub fn is_done(&self) -> (r: bool)
        ensures
            r == (self.remaining().len() == 0),
    {
        self.rest.len() == 0
    }

    /// Records a diagnostic; the items and the position stay as they are.
    pub fn register(&mut self, error: ParseError)
        requires
            old(self).wf(),
        ensures
            final(self).wf(),
            final(self).diagnostics() == old(self).diagnostics().push(error),
            final(self).remaining() == old(self).remaining(),
            final(self).position() == old(self).position(),
    {
        self.errors.push(error);
    }

    /// Hands the diagnostics over, leaving none behind.
    pub fn take_errors(&mut self) -> (r: Vec<ParseError>)
        requires
            old(self).wf(),
        ensures
            final(self).wf(),
            r@ == old(self).diagnostics(),
            final(self).diagnostics().len() == 0,
            final(self).remaining() == old(self).remaining(),
            final(self).position() == old(self).position(),
    {
        let mut taken = Vec::new();
        std::mem::swap(&mut taken, &mut self.errors);
        taken
    }

    /// The item `k` places ahead of the position, if there is one.
    pub fn peek_n(&self, k: usize) -> (r: Option<&T>)
        ensures
            r is Some <==> k < self.remaining().len(),
            r is Some ==> *r->0 == self.remaining()[k as int],
    {
        if k < self.rest.len() {
            Some(&self.rest[self.rest.len() - 1 - k])
        } else {
            None
        }
    }

    /// The next item, if there is one.
    pub fn peek(&self) -> (r: Option<&T>)
        ensures
            r is Some <==> self.remaining().len() > 0,
            r is Some ==> *r->0 == self.remaining()[0],
    {
        self.peek_n(0)
    }

    pub fn peek_map<R, M>(&self, mapper: M) -> (r: Option<R>) where M: FnOnce(&T) -> R
        requires
            self.remaining().len() > 0 ==> mapper.requires((&self.remaining()[0],)),
        ensures
            r is Some <==> self.remaining().len() > 0,
            r is Some ==> mapper.ensures((&self.remaining()[0],), r->0),
    {
        match self.peek() {
            Some(item) => Some(mapper(item)),
            None => None,
        }
    }

    /// Consumes the next item and returns it.
    pub fn advance(&mut self) -> (r: Option<T>)
        requires
            old(self).wf(),
        ensures
            final(self).wf(),
            old(self).remaining().len() > 0 ==> {
                &&& r == Some(old(self).remaining()[0])
                &&& final(self).remaining() == old(self).remaining().drop_first()
                &&& final(self).position() == old(self).position() + 1
            },
            old(self).remaining().len() == 0 ==> {
                &&& r is None
                &&& final(self).remaining() == old(self).remaining()
                &&& final(self).position() == old(self).position()
            },
            final(self).diagnostics() == old(self).diagnostics(),
    {
        let ghost before = self.rest@;
        match self.rest.pop() {
            Some(item) => {
                assert(before.reverse() =~= seq![item] + self.rest@.reverse());
                self.cursor = self.cursor + 1;
                Some(item)
            },
            None => None,
        }
    }

    /// Consumes `n` items, or as many as there are, and returns what each step gave.
    pub fn advance_n(&mut self, n: usize) -> (r: Vec<Option<T>>)
        requires
            old(self).wf(),
        ensures
            final(self).wf(),
            r@.len() == n,
            n <= old(self).remaining().len() ==> final(self).remaining() == old(
                self,
            ).remaining().skip(n as int),
            forall|i: int|
                0 <= i < n ==> #[trigger] r@[i] == (if i < old(self).remaining().len() {
                    Some(old(self).remaining()[i])
                } else {
                    None::<T>
                }),
            final(self).diagnostics() == old(self).diagnostics(),
            final(self).position() == old(self).position() + (if n <= old(self).remaining().len() {
                n as nat
            } else {
                old(self).remaining().len()
            }),
            n > old(self).remaining().len() ==> final(self).remaining().len() == 0,
    {
        let mut items: Vec<Option<T>> = Vec::new();
        let mut i: usize = 0;
        while i < n
            invariant
                i <= n,
                items@.len() == i,
                i <= old(self).remaining().len() ==> self.remaining() == old(
                    self,
                ).remaining().skip(i as int),
                i > old(self).remaining().len() ==> self.remaining().len() == 0,
                forall|j: int|
                    0 <= j < i ==> #[trigger] items@[j] == (if j < old(self).remaining().len() {
                        Some(old(self).remaining()[j])
                    } else {
                        None::<T>
                    }),
                self.diagnostics() == old(self).diagnostics(),
                self.wf(),
                self.position() == old(self).position() + (if i <= old(self).remaining().len() {
                    i as nat
                } else {
                    old(self).remaining().len()
                }),
            decreases n - i,
        {
            let item = self.advance();
            proof {
                if i < old(self).remaining().len() {
                    assert(old(self).remaining().skip(i as int).drop_first() =~= old(
                        self,
                    ).remaining().skip(i + 1));
                }
            }
            items.push(item);
            i = i + 1;
        }
        items
    }

    /// Consumes the next item only where `predicate` holds of it.
    pub fn advance_if<P>(&mut self, predicate: P) -> (r: Option<T>) where P: FnOnce(&T) -> bool
        requires
            old(self).wf(),
            old(self).remaining().len() > 0 ==> predicate.requires((&old(self).remaining()[0],)),
        ensures
            final(self).wf(),
            r is Some ==> {
                &&& old(self).remaining().len() > 0
                &&& predicate.ensures((&old(self).remaining()[0],), true)
                &&& r->0 == old(self).remaining()[0]
                &&& final(self).remaining() == old(self).remaining().drop_first()
                &&& final(self).position() == old(self).position() + 1
            },
            r is None ==> {
                &&& old(self).remaining().len() > 0 ==> predicate.ensures(
                    (&old(self).remaining()[0],),
                    false,
                )
                &&& final(self).remaining() == old(self).remaining()
                &&& final(self).position() == old(self).position()
            },
            final(self).diagnostics() == old(self).diagnostics(),
    {
        let matches = match self.peek() {
            Some(item) => predicate(item),
            None => false,
        };
        if matches {
            self.advance()
        } else {
            None
        }
    }

    /// Consumes the next item where `predicate` maps it to a value, and returns that value.
    pub fn advance_if_map<S, P>(&mut self, predicate: P) -> (r: Option<S>) where
        P: FnOnce(&T) -> Option<S>,

        requires
            old(self).wf(),
            old(self).remaining().len() > 0 ==> predicate.requires((&old(self).remaining()[0],)),
        ensures
            final(self).wf(),
            r is Some ==> {
                &&& old(self).remaining().len() > 0
                &&& predicate.ensures((&old(self).remaining()[0],), r)
                &&& final(self).remaining() == old(self).remaining().drop_first()
                &&& final(self).position() == old(self).position() + 1
            },
            r is None ==> {
                &&& old(self).remaining().len() > 0 ==> predicate.ensures(
                    (&old(self).remaining()[0],),
                    None::<S>,
                )
                &&& final(self).remaining() == old(self).remaining()
                &&& final(self).position() == old(self).position()
            },
            final(self).diagnostics() == old(self).diagnostics(),
    {
        let mapped = match self.peek() {
            Some(item) => predicate(item),
            None => None,
        };
        match mapped {
            Some(value) => {
                self.advance();
                Some(value)
            },
            None => None,
        }
    }

    /// Consumes items while `predicate` holds, and returns them.
    pub fn advance_while<P>(&mut self, predicate: P) -> (r: Vec<T>) where P: Fn(&T) -> bool
        requires
            old(self).wf(),
            forall|x: &T| #[trigger] predicate.requires((x,)),
        ensures
            final(self).wf(),
            r@.len() <= old(self).remaining().len(),
            r@ == old(self).remaining().take(r@.len() as int),
            final(self).remaining() == old(self).remaining().skip(r@.len() as int),
            final(self).position() == old(self).position() + r@.len(),
            forall|i: int| 0 <= i < r@.len() ==> predicate.ensures((&#[trigger] r@[i],), true),
            r@.len() < old(self).remaining().len() ==> predicate.ensures(
                (&old(self).remaining()[r@.len() as int],),
                false,
            ),
            final(self).diagnostics() == old(self).diagnostics(),
    {
        let r = self.advance_while_with_initial(predicate, Vec::new());
        assert(r@ =~= Seq::<T>::empty() + r@);
        r
    }

    /// Like `advance_while`, but adds the consumed items to the end of `initial`.
    pub fn advance_while_with_initial<P>(&mut self, predicate: P, initial: Vec<T>) -> (r: Vec<T>) where
        P: Fn(&T) -> bool,

        requires
            old(self).wf(),
            forall|x: &T| #[trigger] predicate.requires((x,)),
        ensures
            final(self).wf(),
            r@.len() >= initial@.len(),
            r@.len() - initial@.len() <= old(self).remaining().len(),
            r@ == initial@ + old(self).remaining().take(r@.len() - initial@.len()),
            final(self).remaining() == old(self).remaining().skip(r@.len() - initial@.len()),
            final(self).position() == old(self).position() + (r@.len() - initial@.len()),
            forall|i: int|
                initial@.len() <= i < r@.len() ==> predicate.ensures((&#[trigger] r@[i],), true),
            r@.len() - initial@.len() < old(self).remaining().len() ==> predicate.ensures(
                (&old(self).remaining()[r@.len() - initial@.len()],),
                false,
            ),
            final(self).diagnostics() == old(self).diagnostics(),
    {
        let mut elements = initial;
        let ghost start = old(self).remaining();
        loop
            invariant
                elements@.len() >= initial@.len(),
                elements@.len() - initial@.len() <= start.len(),
                start == old(self).remaining(),
                elements@ == initial@ + start.take(elements@.len() - initial@.len()),
                self.remaining() == start.skip(elements@.len() - initial@.len()),
                self.position() == old(self).position() + (elements@.len() - initial@.len()),
                forall|x: &T| #[trigger] predicate.requires((x,)),
                forall|i: int|
                    initial@.len() <= i < elements@.len() ==> predicate.ensures(
                        (&#[trigger] elements@[i],),
                        true,
                    ),
                self.diagnostics() == old(self).diagnostics(),
                self.wf(),
            ensures
                elements@.len() >= initial@.len(),
                elements@.len() - initial@.len() <= start.len(),
                elements@ == initial@ + start.take(elements@.len() - initial@.len()),
                self.remaining() == start.skip(elements@.len() - initial@.len()),
                self.position() == old(self).position() + (elements@.len() - initial@.len()),
                forall|i: int|
                    initial@.len() <= i < elements@.len() ==> predicate.ensures(
                        (&#[trigger] elements@[i],),
                        true,
                    ),
                elements@.len() - initial@.len() < start.len() ==> predicate.ensures(
                    (&start[elements@.len() - initial@.len()],),
                    false,
                ),
                self.diagnostics() == old(self).diagnostics(),
                self.wf(),
            decreases self.remaining().len(),
        {
            let ghost k = elements@.len() - initial@.len();
            match self.advance_if(&predicate) {
                Some(item) => {
                    assert(start.skip(k).drop_first() =~= start.skip(k + 1));
                    assert(start.take(k + 1) =~= start.take(k).push(start[k]));
                    elements.push(item);
                    assert(elements@ =~= initial@ + start.take(k + 1));
                },
                None => {
                    return elements;
                },
            }
        }
    }
}

} // verus!

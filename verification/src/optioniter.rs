//! Operations on pull-based sequences of optional values.

use vstd::pervasive::unreached;
use vstd::prelude::*;

verus! {

/// Number of `Some` elements in a sequence of optional values.
pub open spec fn count_some_spec<T>(s: Seq<Option<T>>) -> nat
    decreases s.len(),
{
    if s.len() == 0 {
        0
    } else {
        (if s[0] is Some {
            1nat
        } else {
            0nat
        }) + count_some_spec(s.drop_first())
    }
}

/// Number of `None` elements in a sequence of optional values.
pub open spec fn count_none_spec<T>(s: Seq<Option<T>>) -> nat
    decreases s.len(),
{
    if s.len() == 0 {
        0
    } else {
        (if s[0] is None {
            1nat
        } else {
            0nat
        }) + count_none_spec(s.drop_first())
    }
}

/// The unread tail of a sequence from its first `Some` element on:
/// what a search that skips `None` elements leaves unconsumed.
pub open spec fn skip_to_some<T>(s: Seq<Option<T>>) -> Seq<Option<T>>
    decreases s.len(),
{
    if s.len() == 0 {
        s
    } else if s[0] is Some {
        s
    } else {
        skip_to_some(s.drop_first())
    }
}

/// The unread tail of a sequence from its first `None` element on.
pub open spec fn skip_to_none<T>(s: Seq<Option<T>>) -> Seq<Option<T>>
    decreases s.len(),
{
    if s.len() == 0 {
        s
    } else if s[0] is None {
        s
    } else {
        skip_to_none(s.drop_first())
    }
}

/// The payloads of the `Some` elements, in order.
pub open spec fn some_values<T>(s: Seq<Option<T>>) -> Seq<T>
    decreases s.len(),
{
    if s.len() == 0 {
        Seq::empty()
    } else {
        match s[0] {
            Some(x) => seq![x] + some_values(s.drop_first()),
            None => some_values(s.drop_first()),
        }
    }
}

/// Whether every element of the sequence is `Some`.
pub open spec fn all_some<T>(s: Seq<Option<T>>) -> bool {
    forall|i: int| 0 <= i < s.len() ==> s[i] is Some
}

/// The payload of each element, in order; meaningful when `all_some`
/// holds of the sequence.
pub open spec fn unwrap_values<T>(s: Seq<Option<T>>) -> Seq<T>
    decreases s.len(),
{
    if s.len() == 0 {
        Seq::empty()
    } else {
        seq![s[0]->0] + unwrap_values(s.drop_first())
    }
}

/// The payload of an optional value, or the given default when absent.
pub open spec fn or_value<T>(e: Option<T>, d: T) -> T {
    match e {
        Some(x) => x,
        None => d,
    }
}

/// The payload of each element, with absent elements replaced by the
/// default, in order.
pub open spec fn unwrap_or_values<T>(s: Seq<Option<T>>, d: T) -> Seq<T>
    decreases s.len(),
{
    if s.len() == 0 {
        Seq::empty()
    } else {
        seq![or_value(s[0], d)] + unwrap_or_values(s.drop_first(), d)
    }
}

/// Every element is counted exactly once: the `Some` and `None` counts
/// of a finite sequence sum to its length.
pub proof fn lemma_count_partition<T>(s: Seq<Option<T>>)
    ensures
        count_some_spec(s) + count_none_spec(s) == s.len(),
    decreases s.len(),
{
    if s.len() > 0 {
        lemma_count_partition(s.drop_first());
    }
}

/// On a sequence with no absent element, substituting a default changes
/// nothing: `unwrap_or` yields the same payload sequence as `unwrap`.
pub proof fn lemma_unwrap_or_matches_unwrap<T>(s: Seq<Option<T>>, d: T)
    requires
        all_some(s),
    ensures
        unwrap_or_values(s, d) == unwrap_values(s),
    decreases s.len(),
{
    if s.len() == 0 {
        assert(unwrap_or_values(s, d) =~= unwrap_values(s));
    } else {
        assert forall|j: int| 0 <= j < s.drop_first().len() implies s.drop_first()[j] is Some by {
            assert(s.drop_first()[j] == s[j + 1]);
        }
        lemma_unwrap_or_matches_unwrap(s.drop_first(), d);
        assert(s[0] is Some);
        assert(unwrap_or_values(s, d) =~= unwrap_values(s));
    }
}

/// The skipped tail is non-empty exactly when some element is `Some`,
/// and then starts with a `Some` element.
proof fn lemma_skip_to_some_finds<T>(s: Seq<Option<T>>)
    ensures
        (skip_to_some(s).len() > 0) == (exists|i: int| 0 <= i < s.len() && s[i] is Some),
        skip_to_some(s).len() > 0 ==> skip_to_some(s)[0] is Some,
    decreases s.len(),
{
    if s.len() == 0 {
    } else if s[0] is Some {
        assert(0 <= 0 < s.len() && s[0] is Some);
    } else {
        lemma_skip_to_some_finds(s.drop_first());
        if exists|i: int| 0 <= i < s.len() && s[i] is Some {
            let i = choose|i: int| 0 <= i < s.len() && s[i] is Some;
            assert(s.drop_first()[i - 1] == s[i]);
        }
        if exists|j: int| 0 <= j < s.drop_first().len() && s.drop_first()[j] is Some {
            let j = choose|j: int| 0 <= j < s.drop_first().len() && s.drop_first()[j] is Some;
            assert(s[j + 1] == s.drop_first()[j]);
        }
    }
}

/// Mirror of `lemma_skip_to_some_finds` for `None` elements.
proof fn lemma_skip_to_none_finds<T>(s: Seq<Option<T>>)
    ensures
        (skip_to_none(s).len() > 0) == (exists|i: int| 0 <= i < s.len() && s[i] is None),
        skip_to_none(s).len() > 0 ==> skip_to_none(s)[0] is None,
    decreases s.len(),
{
    if s.len() == 0 {
    } else if s[0] is None {
        assert(0 <= 0 < s.len() && s[0] is None);
    } else {
        lemma_skip_to_none_finds(s.drop_first());
        if exists|i: int| 0 <= i < s.len() && s[i] is None {
            let i = choose|i: int| 0 <= i < s.len() && s[i] is None;
            assert(s.drop_first()[i - 1] == s[i]);
        }
        if exists|j: int| 0 <= j < s.drop_first().len() && s.drop_first()[j] is None {
            let j = choose|j: int| 0 <= j < s.drop_first().len() && s.drop_first()[j] is None;
            assert(s[j + 1] == s.drop_first()[j]);
        }
    }
}

/// A pull-based source of optional values.
///
/// `remaining` is the mathematical sequence of elements the source has
/// not yet yielded; `next` pulls the front element and is the only way
/// the cursor advances.
pub trait OptionIter: Sized {
    /// Payload type carried by the `Some` elements.
    type Item;

    /// The elements not yet yielded, front first.
    spec fn remaining(&self) -> Seq<Option<Self::Item>>;

    /// The length hint the source reports: a lower bound on the number
    /// of elements still to come, and an upper bound when it knows one.
    spec fn hint(&self) -> (usize, Option<usize>);

    /// Yield the front element, or report exhaustion.
    fn next(&mut self) -> (r: Option<Option<Self::Item>>)
        ensures
            old(self).remaining().len() == 0 ==> r is None
                && final(self).remaining() == old(self).remaining(),
            old(self).remaining().len() > 0 ==> r == Some(old(self).remaining()[0])
                && final(self).remaining() == old(self).remaining().drop_first(),
    ;

    /// Report the source's length hint, which must bound the number of
    /// elements still to come: at least the lower component, at most
    /// the upper component when that is known.
    fn size_hint(&self) -> (r: (usize, Option<usize>))
        ensures
            r == self.hint(),
            r.0 <= self.remaining().len(),
            r.1 matches Some(ub) ==> self.remaining().len() <= ub,
    ;

    /// Wrap the source so that each pull yields the front payload; a
    /// pull is allowed only while the front element is present.
    fn unwrap(self) -> (r: Unwrap<Self>)
        ensures
            r.iter == self,
    {
        Unwrap { iter: self }
    }

    /// Wrap the source so that each pull yields the front payload, with
    /// the given default in place of every absent element.
    fn unwrap_or(self, def: Self::Item) -> (r: UnwrapOr<Self>)
        ensures
            r.iter == self,
            r.def == def,
    {
        UnwrapOr { iter: self, def }
    }

    /// Drain the source, counting its `Some` elements.
    fn count_some(self) -> (r: usize)
        requires
            self.remaining().len() <= usize::MAX,
        ensures
            r == count_some_spec(self.remaining()),
    {
        let ghost all = self.remaining();
        let mut it = self;
        let mut n: usize = 0;
        loop
            invariant
                n + count_some_spec(it.remaining()) == count_some_spec(all),
                it.remaining().len() <= all.len(),
                all.len() <= usize::MAX,
            ensures
                n == count_some_spec(all),
            decreases it.remaining().len(),
        {
            proof {
                lemma_count_partition(all);
            }
            match it.next() {
                None => {
                    break;
                },
                Some(e) => {
                    if e.is_some() {
                        n = n + 1;
                    }
                },
            }
        }
        n
    }

    /// Yield the next `Some` payload, skipping and consuming the `None`
    /// elements before it; `None` once the source holds no further
    /// `Some` element, which is then fully consumed.
    ///
    /// The cursor advances permanently: a later call resumes just past
    /// the element this call returned.
    fn find_some(&mut self) -> (r: Option<Self::Item>)
        ensures
            skip_to_some(old(self).remaining()).len() == 0 ==> r is None && final(self).remaining().len() == 0,
            skip_to_some(old(self).remaining()).len() > 0 ==> r == skip_to_some(old(self).remaining())[0]
                && r is Some
                && final(self).remaining() == skip_to_some(old(self).remaining()).drop_first(),
    {
        loop
            invariant
                skip_to_some(self.remaining()) == skip_to_some(old(self).remaining()),
            decreases self.remaining().len(),
        {
            match self.next() {
                None => {
                    return None;
                },
                Some(e) => {
                    match e {
                        Some(x) => {
                            return Some(x);
                        },
                        None => {},
                    }
                },
            }
        }
    }

    /// Whether any element of the source is `Some`; consumes elements
    /// up to and including the first `Some`, or the whole source.
    fn has_some(&mut self) -> (r: bool)
        ensures
            r == exists|i: int| 0 <= i < old(self).remaining().len() && old(self).remaining()[i] is Some,
            r ==> final(self).remaining() == skip_to_some(old(self).remaining()).drop_first(),
            !r ==> final(self).remaining().len() == 0,
    {
        proof {
            lemma_skip_to_some_finds(self.remaining());
        }
        match self.find_some() {
            Some(_) => true,
            None => false,
        }
    }

    /// Whether any element of the source is `None`; consumes elements
    /// up to and including the first `None`, or the whole source.
    fn has_none(&mut self) -> (r: bool)
        ensures
            r == exists|i: int| 0 <= i < old(self).remaining().len() && old(self).remaining()[i] is None,
            r ==> final(self).remaining() == skip_to_none(old(self).remaining()).drop_first(),
            !r ==> final(self).remaining().len() == 0,
    {
        loop
            invariant
                skip_to_none(self.remaining()) == skip_to_none(old(self).remaining()),
            decreases self.remaining().len(),
        {
            proof {
                lemma_skip_to_none_finds(old(self).remaining());
            }
            match self.next() {
                None => {
                    return false;
                },
                Some(e) => {
                    if e.is_none() {
                        return true;
                    }
                },
            }
        }
    }

    /// Wrap the source so that each pull yields the next `Some`
    /// payload, dropping `None` elements.
    fn some_iter(self) -> (r: SomeIter<Self>)
        ensures
            r.iter == self,
    {
        SomeIter { iter: self }
    }
}

/// Yields the payload of each element of the wrapped source in turn.
///
/// Meeting an absent element during a pull is a contract violation,
/// never answered with a substitute value: pulling is allowed only
/// while the front element is present, so `next` carries a `requires`
/// instead of a recovery path.
pub struct Unwrap<I> {
    /// The wrapped source.
    pub iter: I,
}

impl<I: OptionIter> Unwrap<I> {
    /// The elements of the wrapped source not yet yielded.
    pub open spec fn remaining(&self) -> Seq<Option<I::Item>> {
        self.iter.remaining()
    }

    /// Yield the payload of the front element.
    pub fn next(&mut self) -> (r: Option<I::Item>)
        requires
            old(self).remaining().len() > 0 ==> old(self).remaining()[0] is Some,
        ensures
            old(self).remaining().len() == 0 ==> r is None && final(self).remaining() == old(self).remaining(),
            old(self).remaining().len() > 0 ==> r == old(self).remaining()[0]
                && final(self).remaining() == old(self).remaining().drop_first(),
    {
        match self.iter.next() {
            None => None,
            Some(e) => {
                match e {
                    Some(x) => Some(x),
                    None => unreached(),
                }
            },
        }
    }

    /// Report the wrapped source's length hint unchanged: one payload
    /// comes per source element.
    pub fn size_hint(&self) -> (r: (usize, Option<usize>))
        ensures
            r == self.iter.hint(),
            r.0 <= self.remaining().len(),
            r.1 matches Some(ub) ==> self.remaining().len() <= ub,
    {
        self.iter.size_hint()
    }

    /// Drain the source, collecting every payload in order.
    pub fn into_vec(self) -> (r: Vec<I::Item>)
        requires
            all_some(self.remaining()),
        ensures
            r@ == unwrap_values(self.remaining()),
    {
        let ghost all = self.remaining();
        let mut it = self;
        let mut out: Vec<I::Item> = Vec::new();
        loop
            invariant
                all_some(it.remaining()),
                out@ + unwrap_values(it.remaining()) == unwrap_values(all),
            ensures
                out@ == unwrap_values(all),
            decreases it.remaining().len(),
        {
            match it.next() {
                None => {
                    assert(out@ =~= unwrap_values(all));
                    break;
                },
                Some(x) => {
                    out.push(x);
                },
            }
        }
        out
    }
}

/// Yields the next `Some` payload of the wrapped source on each pull,
/// dropping `None` elements.
pub struct SomeIter<I> {
    /// The wrapped source.
    pub iter: I,
}

impl<I: OptionIter> SomeIter<I> {
    /// The elements of the wrapped source not yet consumed.
    pub open spec fn remaining(&self) -> Seq<Option<I::Item>> {
        self.iter.remaining()
    }

    /// Yield the next `Some` payload, consuming the `None` elements
    /// before it; `None` once no `Some` element is left.
    pub fn next(&mut self) -> (r: Option<I::Item>)
        ensures
            skip_to_some(old(self).remaining()).len() == 0 ==> r is None && final(self).remaining().len() == 0,
            skip_to_some(old(self).remaining()).len() > 0 ==> r == skip_to_some(old(self).remaining())[0]
                && r is Some
                && final(self).remaining() == skip_to_some(old(self).remaining()).drop_first(),
    {
        self.iter.find_some()
    }

    /// Report a lower bound of zero — how many elements match cannot be
    /// known without scanning — and the wrapped source's own upper
    /// bound, which the filtered output can never exceed.
    pub fn size_hint(&self) -> (r: (usize, Option<usize>))
        ensures
            r.0 == 0,
            r.1 == self.iter.hint().1,
            r.1 matches Some(ub) ==> self.remaining().len() <= ub,
    {
        let (_, upper) = self.iter.size_hint();
        (0, upper)
    }

    /// Drain the source, collecting the `Some` payloads in order.
    pub fn into_vec(self) -> (r: Vec<I::Item>)
        ensures
            r@ == some_values(self.remaining()),
    {
        let ghost all = self.remaining();
        let mut it = self.iter;
        let mut out: Vec<I::Item> = Vec::new();
        loop
            invariant
                out@ + some_values(it.remaining()) == some_values(all),
            ensures
                out@ == some_values(all),
            decreases it.remaining().len(),
        {
            match it.next() {
                None => {
                    assert(out@ =~= some_values(all));
                    break;
                },
                Some(e) => {
                    match e {
                        Some(x) => {
                            out.push(x);
                        },
                        None => {},
                    }
                },
            }
        }
        out
    }
}

/// Yields the payload of each element of the wrapped source in turn,
/// with a copy of the default in place of every absent element.
pub struct UnwrapOr<I: OptionIter> {
    /// The wrapped source.
    pub iter: I,
    /// The default payload yielded in place of an absent element.
    pub def: I::Item,
}

impl<I: OptionIter> UnwrapOr<I> {
    /// The elements of the wrapped source not yet yielded.
    pub open spec fn remaining(&self) -> Seq<Option<I::Item>> {
        self.iter.remaining()
    }

    /// The default payload yielded in place of an absent element.
    pub open spec fn def(&self) -> I::Item {
        self.def
    }

    /// Report the wrapped source's length hint unchanged: one payload
    /// comes per source element.
    pub fn size_hint(&self) -> (r: (usize, Option<usize>))
        ensures
            r == self.iter.hint(),
            r.0 <= self.remaining().len(),
            r.1 matches Some(ub) ==> self.remaining().len() <= ub,
    {
        self.iter.size_hint()
    }
}

impl<I: OptionIter> UnwrapOr<I> where I::Item: Copy {
    /// Yield the payload of the front element, or a copy of the default
    /// when the front element is absent.
    pub fn next(&mut self) -> (r: Option<I::Item>)
        ensures
            final(self).def() == old(self).def(),
            old(self).remaining().len() == 0 ==> r is None && final(self).remaining() == old(self).remaining(),
            old(self).remaining().len() > 0 ==> r == Some(or_value(old(self).remaining()[0], old(self).def()))
                && final(self).remaining() == old(self).remaining().drop_first(),
    {
        match self.iter.next() {
            None => None,
            Some(e) => {
                match e {
                    Some(x) => Some(x),
                    None => Some(self.def),
                }
            },
        }
    }

    /// Drain the source, collecting every payload in order, with the
    /// default standing in for each absent element.
    pub fn into_vec(self) -> (r: Vec<I::Item>)
        ensures
            r@ == unwrap_or_values(self.remaining(), self.def()),
    {
        let ghost all = self.remaining();
        let ghost d = self.def();
        let mut it = self;
        let mut out: Vec<I::Item> = Vec::new();
        loop
            invariant
                it.def() == d,
                out@ + unwrap_or_values(it.remaining(), d) == unwrap_or_values(all, d),
            ensures
                out@ == unwrap_or_values(all, d),
            decreases it.remaining().len(),
        {
            match it.next() {
                None => {
                    assert(out@ =~= unwrap_or_values(all, d));
                    break;
                },
                Some(x) => {
                    out.push(x);
                },
            }
        }
        out
    }
}

/// A source backed by a vector of optional values, yielded front first.
pub struct OptionSource<T> {
    elems: Vec<Option<T>>,
}

impl<T> OptionSource<T> {
    /// Wrap a vector as a source that yields its elements in order.
    pub fn new(elems: Vec<Option<T>>) -> (r: OptionSource<T>)
        ensures
            r.remaining() == elems@,
    {
        OptionSource { elems }
    }
}

impl<T> OptionIter for OptionSource<T> {
    type Item = T;

    closed spec fn remaining(&self) -> Seq<Option<T>> {
        self.elems@
    }

    closed spec fn hint(&self) -> (usize, Option<usize>) {
        (self.elems@.len() as usize, Some(self.elems@.len() as usize))
    }

    fn next(&mut self) -> (r: Option<Option<T>>) {
        if self.elems.len() == 0 {
            None
        } else {
            let e = self.elems.remove(0);
            proof {
                assert(self.elems@ =~= old(self).elems@.drop_first());
            }
            Some(e)
        }
    }

    fn size_hint(&self) -> (r: (usize, Option<usize>)) {
        (self.elems.len(), Some(self.elems.len()))
    }
}

} // verus!

//! Operations on pull-based sequences of outcome values.

use vstd::pervasive::unreached;
use vstd::prelude::*;

verus! {

/// Number of `Ok` elements in a sequence of outcome values.
pub open spec fn count_ok_spec<T, E>(s: Seq<Result<T, E>>) -> nat
    decreases s.len(),
{
    if s.len() == 0 {
        0
    } else {
        (if s[0] is Ok {
            1nat
        } else {
            0nat
        }) + count_ok_spec(s.drop_first())
    }
}

/// Number of `Err` elements in a sequence of outcome values.
pub open spec fn count_err_spec<T, E>(s: Seq<Result<T, E>>) -> nat
    decreases s.len(),
{
    if s.len() == 0 {
        0
    } else {
        (if s[0] is Err {
            1nat
        } else {
            0nat
        }) + count_err_spec(s.drop_first())
    }
}

/// The unread tail of a sequence from its first `Ok` element on: what
/// a search that skips `Err` elements leaves unconsumed.
pub open spec fn skip_to_ok<T, E>(s: Seq<Result<T, E>>) -> Seq<Result<T, E>>
    decreases s.len(),
{
    if s.len() == 0 {
        s
    } else if s[0] is Ok {
        s
    } else {
        skip_to_ok(s.drop_first())
    }
}

/// The unread tail of a sequence from its first `Err` element on.
pub open spec fn skip_to_err<T, E>(s: Seq<Result<T, E>>) -> Seq<Result<T, E>>
    decreases s.len(),
{
    if s.len() == 0 {
        s
    } else if s[0] is Err {
        s
    } else {
        skip_to_err(s.drop_first())
    }
}

/// The payloads of the `Ok` elements, in order.
pub open spec fn ok_values<T, E>(s: Seq<Result<T, E>>) -> Seq<T>
    decreases s.len(),
{
    if s.len() == 0 {
        Seq::empty()
    } else {
        match s[0] {
            Ok(x) => seq![x] + ok_values(s.drop_first()),
            Err(_) => ok_values(s.drop_first()),
        }
    }
}

/// The payloads of the `Err` elements, in order.
pub open spec fn err_values<T, E>(s: Seq<Result<T, E>>) -> Seq<E>
    decreases s.len(),
{
    if s.len() == 0 {
        Seq::empty()
    } else {
        match s[0] {
            Ok(_) => err_values(s.drop_first()),
            Err(e) => seq![e] + err_values(s.drop_first()),
        }
    }
}

/// Whether every element of the sequence is `Ok`.
pub open spec fn all_ok<T, E>(s: Seq<Result<T, E>>) -> bool {
    forall|i: int| 0 <= i < s.len() ==> s[i] is Ok
}

/// The payload of each element, in order; meaningful when `all_ok`
/// holds of the sequence.
pub open spec fn unwrap_values<T, E>(s: Seq<Result<T, E>>) -> Seq<T>
    decreases s.len(),
{
    if s.len() == 0 {
        Seq::empty()
    } else {
        seq![s[0]->Ok_0] + unwrap_values(s.drop_first())
    }
}

/// The payload of an outcome value, or the given default on failure.
pub open spec fn or_value<T, E>(e: Result<T, E>, d: T) -> T {
    match e {
        Ok(x) => x,
        Err(_) => d,
    }
}

/// The payload of each element, with failed elements replaced by the
/// default, in order.
pub open spec fn unwrap_or_values<T, E>(s: Seq<Result<T, E>>, d: T) -> Seq<T>
    decreases s.len(),
{
    if s.len() == 0 {
        Seq::empty()
    } else {
        seq![or_value(s[0], d)] + unwrap_or_values(s.drop_first(), d)
    }
}

/// Every element is counted exactly once: the `Ok` and `Err` counts of
/// a finite sequence sum to its length.
pub proof fn lemma_count_partition<T, E>(s: Seq<Result<T, E>>)
    ensures
        count_ok_spec(s) + count_err_spec(s) == s.len(),
    decreases s.len(),
{
    if s.len() > 0 {
        lemma_count_partition(s.drop_first());
    }
}

/// On a sequence with no failed element, substituting a default changes
/// nothing: `unwrap_or` yields the same payload sequence as `unwrap`.
pub proof fn lemma_unwrap_or_matches_unwrap<T, E>(s: Seq<Result<T, E>>, d: T)
    requires
        all_ok(s),
    ensures
        unwrap_or_values(s, d) == unwrap_values(s),
    decreases s.len(),
{
    if s.len() == 0 {
        assert(unwrap_or_values(s, d) =~= unwrap_values(s));
    } else {
        assert forall|j: int| 0 <= j < s.drop_first().len() implies s.drop_first()[j] is Ok by {
            assert(s.drop_first()[j] == s[j + 1]);
        }
        lemma_unwrap_or_matches_unwrap(s.drop_first(), d);
        assert(s[0] is Ok);
        assert(unwrap_or_values(s, d) =~= unwrap_values(s));
    }
}

/// Splitting by tag loses nothing: the `Ok` payloads and the `Err`
/// payloads of a sequence are complements, together accounting for
/// every element exactly once.
pub proof fn lemma_ok_err_complement<T, E>(s: Seq<Result<T, E>>)
    ensures
        ok_values(s).len() == count_ok_spec(s),
        err_values(s).len() == count_err_spec(s),
        ok_values(s).len() + err_values(s).len() == s.len(),
    decreases s.len(),
{
    lemma_count_partition(s);
    if s.len() > 0 {
        lemma_ok_err_complement(s.drop_first());
    }
}

/// The skipped tail is non-empty exactly when some element is `Ok`,
/// and then starts with an `Ok` element.
proof fn lemma_skip_to_ok_finds<T, E>(s: Seq<Result<T, E>>)
    ensures
        (skip_to_ok(s).len() > 0) == (exists|i: int| 0 <= i < s.len() && s[i] is Ok),
        skip_to_ok(s).len() > 0 ==> skip_to_ok(s)[0] is Ok,
    decreases s.len(),
{
    if s.len() == 0 {
    } else if s[0] is Ok {
        assert(0 <= 0 < s.len() && s[0] is Ok);
    } else {
        lemma_skip_to_ok_finds(s.drop_first());
        if exists|i: int| 0 <= i < s.len() && s[i] is Ok {
            let i = choose|i: int| 0 <= i < s.len() && s[i] is Ok;
            assert(s.drop_first()[i - 1] == s[i]);
        }
        if exists|j: int| 0 <= j < s.drop_first().len() && s.drop_first()[j] is Ok {
            let j = choose|j: int| 0 <= j < s.drop_first().len() && s.drop_first()[j] is Ok;
            assert(s[j + 1] == s.drop_first()[j]);
        }
    }
}

/// Mirror of `lemma_skip_to_ok_finds` for `Err` elements.
proof fn lemma_skip_to_err_finds<T, E>(s: Seq<Result<T, E>>)
    ensures
        (skip_to_err(s).len() > 0) == (exists|i: int| 0 <= i < s.len() && s[i] is Err),
        skip_to_err(s).len() > 0 ==> skip_to_err(s)[0] is Err,
    decreases s.len(),
{
    if s.len() == 0 {
    } else if s[0] is Err {
        assert(0 <= 0 < s.len() && s[0] is Err);
    } else {
        lemma_skip_to_err_finds(s.drop_first());
        if exists|i: int| 0 <= i < s.len() && s[i] is Err {
            let i = choose|i: int| 0 <= i < s.len() && s[i] is Err;
            assert(s.drop_first()[i - 1] == s[i]);
        }
        if exists|j: int| 0 <= j < s.drop_first().len() && s.drop_first()[j] is Err {
            let j = choose|j: int| 0 <= j < s.drop_first().len() && s.drop_first()[j] is Err;
            assert(s[j + 1] == s.drop_first()[j]);
        }
    }
}

/// A pull-based source of outcome values.
///
/// `remaining` is the mathematical sequence of elements the source has
/// not yet yielded; `next` pulls the front element and is the only way
/// the cursor advances.
pub trait ResultIter: Sized {
    /// Payload type carried by the `Ok` elements.
    type Item;

    /// Payload type carried by the `Err` elements.
    type Error;

    /// The elements not yet yielded, front first.
    spec fn remaining(&self) -> Seq<Result<Self::Item, Self::Error>>;

    /// The length hint the source reports: a lower bound on the number
    /// of elements still to come, and an upper bound when it knows one.
    spec fn hint(&self) -> (usize, Option<usize>);

    /// Yield the front element, or report exhaustion.
    fn next(&mut self) -> (r: Option<Result<Self::Item, Self::Error>>)
        ensures
            old(self).remaining().len() == 0 ==> r is None
                && final(self).remaining() == old(self).remaining(),
            old(self).remaining().len() > 0 ==> r == Some(old(self).remaining()[0])
                && final(self).remaining() == old(self).remaining().drop_first(),
    ;

    /// Report the source's length hint, which must bound the number of
    /// elements still to come: at least the lower component, at most
    /// the upper component when that is known.
    fn size_hint(&self) -> (r: (usize, Option<usize>))
        ensures
            r == self.hint(),
            r.0 <= self.remaining().len(),
            r.1 matches Some(ub) ==> self.remaining().len() <= ub,
    ;

    /// Wrap the source so that each pull yields the front payload; a
    /// pull is allowed only while the front element is `Ok`.
    fn unwrap(self) -> (r: Unwrap<Self>)
        ensures
            r.iter == self,
    {
        Unwrap { iter: self }
    }

    /// Wrap the source so that each pull yields the front payload, with
    /// the given default in place of every failed element.
    fn unwrap_or(self, def: Self::Item) -> (r: UnwrapOr<Self>)
        ensures
            r.iter == self,
            r.def == def,
    {
        UnwrapOr { iter: self, def }
    }

    /// Drain the source, counting its `Ok` elements.
    fn count_ok(self) -> (r: usize)
        requires
            self.remaining().len() <= usize::MAX,
        ensures
            r == count_ok_spec(self.remaining()),
    {
        let ghost all = self.remaining();
        let mut it = self;
        let mut n: usize = 0;
        loop
            invariant
                n + count_ok_spec(it.remaining()) == count_ok_spec(all),
                it.remaining().len() <= all.len(),
                all.len() <= usize::MAX,
            ensures
                n == count_ok_spec(all),
            decreases it.remaining().len(),
        {
            proof {
                lemma_count_partition(all);
            }
            match it.next() {
                None => {
                    break;
                },
                Some(e) => {
                    if e.is_ok() {
                        n = n + 1;
                    }
                },
            }
        }
        n
    }

    /// Drain the source, counting its `Err` elements.
    fn count_err(self) -> (r: usize)
        requires
            self.remaining().len() <= usize::MAX,
        ensures
            r == count_err_spec(self.remaining()),
    {
        let ghost all = self.remaining();
        let mut it = self;
        let mut n: usize = 0;
        loop
            invariant
                n + count_err_spec(it.remaining()) == count_err_spec(all),
                it.remaining().len() <= all.len(),
                all.len() <= usize::MAX,
            ensures
                n == count_err_spec(all),
            decreases it.remaining().len(),
        {
            proof {
                lemma_count_partition(all);
            }
            match it.next() {
                None => {
                    break;
                },
                Some(e) => {
                    if e.is_err() {
                        n = n + 1;
                    }
                },
            }
        }
        n
    }

    /// Drain the source once, counting its `Ok` and `Err` elements
    /// together; returns `(ok count, err count)`.
    fn count_ok_err(self) -> (r: (usize, usize))
        requires
            self.remaining().len() <= usize::MAX,
        ensures
            r.0 == count_ok_spec(self.remaining()),
            r.1 == count_err_spec(self.remaining()),
    {
        let ghost all = self.remaining();
        let mut it = self;
        let mut ok_n: usize = 0;
        let mut err_n: usize = 0;
        loop
            invariant
                ok_n + count_ok_spec(it.remaining()) == count_ok_spec(all),
                err_n + count_err_spec(it.remaining()) == count_err_spec(all),
                it.remaining().len() <= all.len(),
                all.len() <= usize::MAX,
            ensures
                ok_n == count_ok_spec(all),
                err_n == count_err_spec(all),
            decreases it.remaining().len(),
        {
            proof {
                lemma_count_partition(all);
            }
            match it.next() {
                None => {
                    break;
                },
                Some(e) => {
                    if e.is_ok() {
                        ok_n = ok_n + 1;
                    } else {
                        err_n = err_n + 1;
                    }
                },
            }
        }
        (ok_n, err_n)
    }

    /// Yield the next `Ok` payload, skipping and consuming the `Err`
    /// elements before it; `None` once the source holds no further
    /// `Ok` element, which is then fully consumed.
    ///
    /// The cursor advances permanently: a later call resumes just past
    /// the element this call returned.
    fn find_ok(&mut self) -> (r: Option<Self::Item>)
        ensures
            skip_to_ok(old(self).remaining()).len() == 0 ==> r is None && final(self).remaining().len() == 0,
            skip_to_ok(old(self).remaining()).len() > 0 ==> r == Some(skip_to_ok(old(self).remaining())[0]->Ok_0)
                && final(self).remaining() == skip_to_ok(old(self).remaining()).drop_first(),
    {
        loop
            invariant
                skip_to_ok(self.remaining()) == skip_to_ok(old(self).remaining()),
            decreases self.remaining().len(),
        {
            match self.next() {
                None => {
                    return None;
                },
                Some(e) => {
                    match e {
                        Ok(x) => {
                            return Some(x);
                        },
                        Err(_) => {},
                    }
                },
            }
        }
    }

    /// Yield the next `Err` payload, skipping and consuming the `Ok`
    /// elements before it; `None` once the source holds no further
    /// `Err` element, which is then fully consumed.
    ///
    /// The cursor advances permanently: a later call resumes just past
    /// the element this call returned.
    fn find_err(&mut self) -> (r: Option<Self::Error>)
        ensures
            skip_to_err(old(self).remaining()).len() == 0 ==> r is None && final(self).remaining().len() == 0,
            skip_to_err(old(self).remaining()).len() > 0 ==> r == Some(skip_to_err(old(self).remaining())[0]->Err_0)
                && final(self).remaining() == skip_to_err(old(self).remaining()).drop_first(),
    {
        loop
            invariant
                skip_to_err(self.remaining()) == skip_to_err(old(self).remaining()),
            decreases self.remaining().len(),
        {
            match self.next() {
                None => {
                    return None;
                },
                Some(e) => {
                    match e {
                        Ok(_) => {},
                        Err(x) => {
                            return Some(x);
                        },
                    }
                },
            }
        }
    }

    /// Whether any element of the source is `Ok`; consumes elements up
    /// to and including the first `Ok`, or the whole source.
    fn has_ok(&mut self) -> (r: bool)
        ensures
            r == exists|i: int| 0 <= i < old(self).remaining().len() && old(self).remaining()[i] is Ok,
            r ==> final(self).remaining() == skip_to_ok(old(self).remaining()).drop_first(),
            !r ==> final(self).remaining().len() == 0,
    {
        proof {
            lemma_skip_to_ok_finds(self.remaining());
        }
        match self.find_ok() {
            Some(_) => true,
            None => false,
        }
    }

    /// Whether any element of the source is `Err`; consumes elements up
    /// to and including the first `Err`, or the whole source.
    fn has_err(&mut self) -> (r: bool)
        ensures
            r == exists|i: int| 0 <= i < old(self).remaining().len() && old(self).remaining()[i] is Err,
            r ==> final(self).remaining() == skip_to_err(old(self).remaining()).drop_first(),
            !r ==> final(self).remaining().len() == 0,
    {
        proof {
            lemma_skip_to_err_finds(self.remaining());
        }
        match self.find_err() {
            Some(_) => true,
            None => false,
        }
    }

    /// Wrap the source so that each pull yields the next `Ok` payload,
    /// dropping `Err` elements.
    fn ok_iter(self) -> (r: OkIter<Self>)
        ensures
            r.iter == self,
    {
        OkIter { iter: self }
    }

    /// Wrap the source so that each pull yields the next `Err` payload,
    /// dropping `Ok` elements.
    fn err_iter(self) -> (r: ErrIter<Self>)
        ensures
            r.iter == self,
    {
        ErrIter { iter: self }
    }
}

/// Yields the payload of each element of the wrapped source in turn.
///
/// Meeting a failed element during a pull is a contract violation,
/// never answered with a substitute value: pulling is allowed only
/// while the front element is `Ok`, so `next` carries a `requires`
/// instead of a recovery path, and no description of the failure
/// payload is ever needed.
pub struct Unwrap<I> {
    /// The wrapped source.
    pub iter: I,
}

impl<I: ResultIter> Unwrap<I> {
    /// The elements of the wrapped source not yet yielded.
    pub open spec fn remaining(&self) -> Seq<Result<I::Item, I::Error>> {
        self.iter.remaining()
    }

    /// Yield the payload of the front element.
    pub fn next(&mut self) -> (r: Option<I::Item>)
        requires
            old(self).remaining().len() > 0 ==> old(self).remaining()[0] is Ok,
        ensures
            old(self).remaining().len() == 0 ==> r is None && final(self).remaining() == old(self).remaining(),
            old(self).remaining().len() > 0 ==> r == Some(old(self).remaining()[0]->Ok_0)
                && final(self).remaining() == old(self).remaining().drop_first(),
    {
        match self.iter.next() {
            None => None,
            Some(e) => {
                match e {
                    Ok(x) => Some(x),
                    Err(_) => unreached(),
                }
            },
        }
    }

    /// Report the wrapped source's length hint unchanged: one payload
    /// comes per source element.
    pub fn size_hint(&self) -> (r: (usize, Option<usize>))
        ensures
            r == self.iter.hint(),
            r.0 <= self.remaining().len(),
            r.1 matches Some(ub) ==> self.remaining().len() <= ub,
    {
        self.iter.size_hint()
    }

    /// Drain the source, collecting every payload in order.
    pub fn into_vec(self) -> (r: Vec<I::Item>)
        requires
            all_ok(self.remaining()),
        ensures
            r@ == unwrap_values(self.remaining()),
    {
        let ghost all = self.remaining();
        let mut it = self;
        let mut out: Vec<I::Item> = Vec::new();
        loop
            invariant
                all_ok(it.remaining()),
                out@ + unwrap_values(it.remaining()) == unwrap_values(all),
            ensures
                out@ == unwrap_values(all),
            decreases it.remaining().len(),
        {
            match it.next() {
                None => {
                    assert(out@ =~= unwrap_values(all));
                    break;
                },
                Some(x) => {
                    out.push(x);
                },
            }
        }
        out
    }
}

/// Yields the next `Ok` payload of the wrapped source on each pull,
/// dropping `Err` elements.
pub struct OkIter<I> {
    /// The wrapped source.
    pub iter: I,
}

impl<I: ResultIter> OkIter<I> {
    /// The elements of the wrapped source not yet consumed.
    pub open spec fn remaining(&self) -> Seq<Result<I::Item, I::Error>> {
        self.iter.remaining()
    }

    /// Yield the next `Ok` payload, consuming the `Err` elements
    /// before it; `None` once no `Ok` element is left.
    pub fn next(&mut self) -> (r: Option<I::Item>)
        ensures
            skip_to_ok(old(self).remaining()).len() == 0 ==> r is None && final(self).remaining().len() == 0,
            skip_to_ok(old(self).remaining()).len() > 0 ==> r == Some(skip_to_ok(old(self).remaining())[0]->Ok_0)
                && final(self).remaining() == skip_to_ok(old(self).remaining()).drop_first(),
    {
        self.iter.find_ok()
    }

    /// Report a lower bound of zero — how many elements match cannot be
    /// known without scanning — and the wrapped source's own upper
    /// bound, which the filtered output can never exceed.
    pub fn size_hint(&self) -> (r: (usize, Option<usize>))
        ensures
            r.0 == 0,
            r.1 == self.iter.hint().1,
            r.1 matches Some(ub) ==> self.remaining().len() <= ub,
    {
        let (_, upper) = self.iter.size_hint();
        (0, upper)
    }

    /// Drain the source, collecting the `Ok` payloads in order.
    pub fn into_vec(self) -> (r: Vec<I::Item>)
        ensures
            r@ == ok_values(self.remaining()),
    {
        let ghost all = self.remaining();
        let mut it = self.iter;
        let mut out: Vec<I::Item> = Vec::new();
        loop
            invariant
                out@ + ok_values(it.remaining()) == ok_values(all),
            ensures
                out@ == ok_values(all),
            decreases it.remaining().len(),
        {
            match it.next() {
                None => {
                    assert(out@ =~= ok_values(all));
                    break;
                },
                Some(e) => {
                    match e {
                        Ok(x) => {
                            out.push(x);
                        },
                        Err(_) => {},
                    }
                },
            }
        }
        out
    }
}

/// Yields the next `Err` payload of the wrapped source on each pull,
/// dropping `Ok` elements.
pub struct ErrIter<I> {
    /// The wrapped source.
    pub iter: I,
}

impl<I: ResultIter> ErrIter<I> {
    /// The elements of the wrapped source not yet consumed.
    pub open spec fn remaining(&self) -> Seq<Result<I::Item, I::Error>> {
        self.iter.remaining()
    }

    /// Yield the next `Err` payload, consuming the `Ok` elements
    /// before it; `None` once no `Err` element is left.
    pub fn next(&mut self) -> (r: Option<I::Error>)
        ensures
            skip_to_err(old(self).remaining()).len() == 0 ==> r is None && final(self).remaining().len() == 0,
            skip_to_err(old(self).remaining()).len() > 0 ==> r == Some(skip_to_err(old(self).remaining())[0]->Err_0)
                && final(self).remaining() == skip_to_err(old(self).remaining()).drop_first(),
    {
        self.iter.find_err()
    }

    /// Report a lower bound of zero — how many elements match cannot be
    /// known without scanning — and the wrapped source's own upper
    /// bound, which the filtered output can never exceed.
    pub fn size_hint(&self) -> (r: (usize, Option<usize>))
        ensures
            r.0 == 0,
            r.1 == self.iter.hint().1,
            r.1 matches Some(ub) ==> self.remaining().len() <= ub,
    {
        let (_, upper) = self.iter.size_hint();
        (0, upper)
    }

    /// Drain the source, collecting the `Err` payloads in order.
    pub fn into_vec(self) -> (r: Vec<I::Error>)
        ensures
            r@ == err_values(self.remaining()),
    {
        let ghost all = self.remaining();
        let mut it = self.iter;
        let mut out: Vec<I::Error> = Vec::new();
        loop
            invariant
                out@ + err_values(it.remaining()) == err_values(all),
            ensures
                out@ == err_values(all),
            decreases it.remaining().len(),
        {
            match it.next() {
                None => {
                    assert(out@ =~= err_values(all));
                    break;
                },
                Some(e) => {
                    match e {
                        Ok(_) => {},
                        Err(x) => {
                            out.push(x);
                        },
                    }
                },
            }
        }
        out
    }
}

/// Yields the payload of each element of the wrapped source in turn,
/// with a copy of the default in place of every failed element.
pub struct UnwrapOr<I: ResultIter> {
    /// The wrapped source.
    pub iter: I,
    /// The default payload yielded in place of a failed element.
    pub def: I::Item,
}

impl<I: ResultIter> UnwrapOr<I> {
    /// The elements of the wrapped source not yet yielded.
    pub open spec fn remaining(&self) -> Seq<Result<I::Item, I::Error>> {
        self.iter.remaining()
    }

    /// The default payload yielded in place of a failed element.
    pub open spec fn def(&self) -> I::Item {
        self.def
    }

    /// Report the wrapped source's length hint unchanged: one payload
    /// comes per source element.
    pub fn size_hint(&self) -> (r: (usize, Option<usize>))
        ensures
            r == self.iter.hint(),
            r.0 <= self.remaining().len(),
            r.1 matches Some(ub) ==> self.remaining().len() <= ub,
    {
        self.iter.size_hint()
    }
}

impl<I: ResultIter> UnwrapOr<I> where I::Item: Copy {
    /// Yield the payload of the front element, or a copy of the default
    /// when the front element is a failure.
    pub fn next(&mut self) -> (r: Option<I::Item>)
        ensures
            final(self).def() == old(self).def(),
            old(self).remaining().len() == 0 ==> r is None && final(self).remaining() == old(self).remaining(),
            old(self).remaining().len() > 0 ==> r == Some(or_value(old(self).remaining()[0], old(self).def()))
                && final(self).remaining() == old(self).remaining().drop_first(),
    {
        match self.iter.next() {
            None => None,
            Some(e) => {
                match e {
                    Ok(x) => Some(x),
                    Err(_) => Some(self.def),
                }
            },
        }
    }

    /// Drain the source, collecting every payload in order, with the
    /// default standing in for each failed element.
    pub fn into_vec(self) -> (r: Vec<I::Item>)
        ensures
            r@ == unwrap_or_values(self.remaining(), self.def()),
    {
        let ghost all = self.remaining();
        let ghost d = self.def();
        let mut it = self;
        let mut out: Vec<I::Item> = Vec::new();
        loop
            invariant
                it.def() == d,
                out@ + unwrap_or_values(it.remaining(), d) == unwrap_or_values(all, d),
            ensures
                out@ == unwrap_or_values(all, d),
            decreases it.remaining().len(),
        {
            match it.next() {
                None => {
                    assert(out@ =~= unwrap_or_values(all, d));
                    break;
                },
                Some(x) => {
                    out.push(x);
                },
            }
        }
        out
    }
}

/// A source backed by a vector of outcome values, yielded front first.
pub struct ResultSource<T, E> {
    elems: Vec<Result<T, E>>,
}

impl<T, E> ResultSource<T, E> {
    /// Wrap a vector as a source that yields its elements in order.
    pub fn new(elems: Vec<Result<T, E>>) -> (r: ResultSource<T, E>)
        ensures
            r.remaining() == elems@,
    {
        ResultSource { elems }
    }
}

impl<T, E> ResultIter for ResultSource<T, E> {
    type Item = T;

    type Error = E;

    closed spec fn remaining(&self) -> Seq<Result<T, E>> {
        self.elems@
    }

    closed spec fn hint(&self) -> (usize, Option<usize>) {
        (self.elems@.len() as usize, Some(self.elems@.len() as usize))
    }

    fn next(&mut self) -> (r: Option<Result<T, E>>) {
        if self.elems.len() == 0 {
            None
        } else {
            let e = self.elems.remove(0);
            proof {
                assert(self.elems@ =~= old(self).elems@.drop_first());
            }
            Some(e)
        }
    }

    fn size_hint(&self) -> (r: (usize, Option<usize>)) {
        (self.elems.len(), Some(self.elems.len()))
    }
}

} // verus!

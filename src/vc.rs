use vstd::prelude::*;

use crate::cursor::{InPlaceCursor, InPlaceStep};
use crate::hint::{bounded_hint, cautious_size_hint, HINT_CEILING};
use crate::protocol::{ElementRequest, SeqSink, SeqSource};

verus! {

/// A growable, contiguous sequence of elements that owns its storage.
#[derive(Debug)]
pub struct Vc<T> {
    items: Vec<T>,
}

impl<T> View for Vc<T> {
    type V = Seq<T>;

    closed spec fn view(&self) -> Seq<T> {
        self.items@
    }
}

/// Room that an in-place decode reserves on top of what a target of length
/// `len` holds: the bounded hint minus `len`, or nothing.
pub open spec fn in_place_extra(hint: Option<usize>, len: nat) -> nat {
    if bounded_hint(hint) > len { (bounded_hint(hint) - len) as nat } else { 0 }
}

/// Extra capacity to reserve before decoding in place into a container that
/// holds `len` elements.
pub fn in_place_reservation(hint: Option<usize>, len: usize) -> (r: usize)
    ensures
        r as nat == in_place_extra(hint, len as nat),
        r <= HINT_CEILING,
{
    let h = cautious_size_hint(hint);
    match h.checked_sub(len) {
        Some(additional) => additional,
        None => 0,
    }
}

/// Whether `s[k]` is the first element of `s` that `sink` cannot encode.
pub open spec fn first_refused<T, S: SeqSink<T>>(sink: S, s: Seq<T>, k: int) -> bool {
    &&& 0 <= k < s.len()
    &&& !sink.accepts(s[k])
    &&& forall|j: int| 0 <= j < k ==> sink.accepts(#[trigger] s[j])
}

/// The requests of a fresh decode that reads `n` elements and then either
/// the end of the sequence or a malformed element.
pub open spec fn fresh_decode_requests(n: nat) -> Seq<ElementRequest> {
    Seq::new(n + 1, |i: int| ElementRequest::Fresh)
}

/// The requests of an in-place decode into a container of length `len` that
/// reads `n` elements and then either the end of the sequence or a malformed
/// element: in place for the slots it reaches, fresh after them.
pub open spec fn in_place_decode_requests(len: nat, n: nat) -> Seq<ElementRequest> {
    let reused: nat = if n + 1 < len { n + 1 } else { len };
    Seq::new(reused, |i: int| ElementRequest::InPlace) + Seq::new(
        (n + 1 - reused) as nat,
        |i: int| ElementRequest::Fresh,
    )
}

/// Writes `items`, in index order, as one sequence into `sink`: the same
/// output for a plain slice as for a `Vc` with the same elements. At the
/// first element the sink refuses it stops with the sink's error, leaving
/// the elements before it written and the sequence not ended.
pub fn encode_slice<T, S: SeqSink<T>>(items: &[T], sink: &mut S) -> (r: Result<(), S::Error>)
    ensures
        r is Ok <==> old(sink).healthy() && (forall|i: int|
            0 <= i < items@.len() ==> old(sink).accepts(#[trigger] items@[i])),
        !old(sink).healthy() ==> r == Err::<(), S::Error>(old(sink).fault()),
        r is Ok ==> {
            &&& final(sink).announced() == Some(items@.len() as usize)
            &&& final(sink).written() == items@
            &&& final(sink).ended()
        },
        forall|k: int|
            #[trigger] first_refused(*old(sink), items@, k) && old(sink).healthy() ==> {
                &&& r == Err::<(), S::Error>(old(sink).rejection(items@[k]))
                &&& final(sink).announced() == Some(items@.len() as usize)
                &&& final(sink).written() == items@.subrange(0, k)
                &&& !final(sink).ended()
            },
{
    let n = items.len();
    match sink.begin_sequence(Some(n)) {
        Ok(()) => {},
        Err(e) => return Err(e),
    }
    let mut i: usize = 0;
    while i < n
        invariant
            n == items@.len(),
            i <= n,
            sink.healthy(),
            sink.announced() == Some(n),
            !sink.ended(),
            sink.written() == items@.subrange(0, i as int),
            forall|x: T| #[trigger] sink.accepts(x) == old(sink).accepts(x),
            forall|x: T| #[trigger] sink.rejection(x) == old(sink).rejection(x),
            old(sink).healthy(),
            forall|j: int| 0 <= j < i ==> old(sink).accepts(#[trigger] items@[j]),
        decreases n - i,
    {
        match sink.encode_next(&items[i]) {
            Ok(()) => {},
            Err(e) => {
                assert(!old(sink).accepts(items@[i as int]));
                assert forall|k: int| #[trigger] first_refused(*old(sink), items@, k) implies k
                    == i by {
                    if k > i {
                        assert(old(sink).accepts(items@[i as int]));
                    }
                }
                assert(first_refused(*old(sink), items@, i as int));
                return Err(e);
            },
        }
        assert(items@.subrange(0, i + 1) == items@.subrange(0, i as int).push(items@[i as int]));
        i = i + 1;
    }
    assert(items@.subrange(0, n as int) == items@);
    sink.end_sequence()
}

impl<T> Default for Vc<T> {
    fn default() -> (v: Vc<T>)
        ensures
            v@ == Seq::<T>::empty(),
    {
        Vc::new()
    }
}

impl<T> Vc<T> {
    pub fn new() -> (v: Vc<T>)
        ensures
            v@ == Seq::<T>::empty(),
    {
        Vc { items: Vec::new() }
    }

    pub fn from_vec(items: Vec<T>) -> (v: Vc<T>)
        ensures
            v@ == items@,
    {
        Vc { items }
    }

    pub fn into_vec(self) -> (r: Vec<T>)
        ensures
            r@ == self@,
    {
        self.items
    }

    pub fn with_capacity(capacity: usize) -> (v: Vc<T>)
        ensures
            v@ == Seq::<T>::empty(),
    {
        Vc { items: Vec::with_capacity(capacity) }
    }

    pub fn len(&self) -> (r: usize)
        ensures
            r == self@.len(),
    {
        self.items.len()
    }

    pub fn is_empty(&self) -> (r: bool)
        ensures
            r <==> self@.len() == 0,
    {
        self.items.len() == 0
    }

    pub fn push(&mut self, value: T)
        ensures
            final(self)@ == old(self)@.push(value),
    {
        self.items.push(value);
    }

    pub fn truncate(&mut self, len: usize)
        ensures
            len <= old(self)@.len() ==> final(self)@ == old(self)@.subrange(0, len as int),
            len > old(self)@.len() ==> final(self)@ == old(self)@,
    {
        self.items.truncate(len);
    }

    pub fn reserve(&mut self, additional: usize)
        ensures
            final(self)@ == old(self)@,
    {
        self.items.reserve(additional);
    }

    pub fn get(&self, i: usize) -> (r: Option<&T>)
        ensures
            i < self@.len() ==> r == Some(&self@[i as int]),
            i >= self@.len() ==> r is None,
    {
        if i < self.items.len() {
            Some(&self.items[i])
        } else {
            None
        }
    }

    /// The element at `i`, to be overwritten in place.
    pub fn slot_mut(&mut self, i: usize) -> (r: &mut T)
        requires
            i < old(self)@.len(),
        ensures
            *r == old(self)@[i as int],
            final(self)@ == old(self)@.update(i as int, *final(r)),
    {
        &mut self.items[i]
    }

    pub fn as_slice(&self) -> (r: &[T])
        ensures
            r@ == self@,
    {
        self.items.as_slice()
    }

    /// Writes the elements, in index order, as one sequence into `sink`.
    /// At the first element the sink refuses it stops with the sink's error,
    /// leaving the elements before it written and the sequence not ended.
    pub fn encode<S: SeqSink<T>>(&self, sink: &mut S) -> (r: Result<(), S::Error>)
        ensures
            r is Ok <==> old(sink).healthy() && (forall|i: int|
                0 <= i < self@.len() ==> old(sink).accepts(#[trigger] self@[i])),
            !old(sink).healthy() ==> r == Err::<(), S::Error>(old(sink).fault()),
            r is Ok ==> {
                &&& final(sink).announced() == Some(self@.len() as usize)
                &&& final(sink).written() == self@
                &&& final(sink).ended()
            },
            forall|k: int|
                #[trigger] first_refused(*old(sink), self@, k) && old(sink).healthy() ==> {
                    &&& r == Err::<(), S::Error>(old(sink).rejection(self@[k]))
                    &&& final(sink).announced() == Some(self@.len() as usize)
                    &&& final(sink).written() == self@.subrange(0, k)
                    &&& !final(sink).ended()
                },
    {
        let items = self.items.as_slice();
        assert(items@ == self@);
        encode_slice(items, sink)
    }

    /// Builds a new container from the elements of `source`, asking for
    /// elements until the source answers end-of-sequence or fails. A source
    /// that is not a sequence fails before any element is asked for.
    pub fn decode_fresh<S: SeqSource<T>>(source: &mut S) -> (r: Result<Vc<T>, S::Error>)
        ensures
            r is Ok <==> old(source).is_sequence() && old(source).ends_cleanly(),
            !old(source).is_sequence() ==> {
                &&& r == Err::<Vc<T>, S::Error>(old(source).mismatch_error())
                &&& final(source).pending() == old(source).pending()
                &&& final(source).requests() == old(source).requests()
            },
            old(source).is_sequence() ==> final(source).requests() == old(source).requests()
                + fresh_decode_requests(old(source).pending().len()),
            old(source).is_sequence() && old(source).ends_cleanly() ==> {
                &&& (r matches Ok(v) && v@ == old(source).pending())
                &&& final(source).finished()
            },
            old(source).is_sequence() && !old(source).ends_cleanly() ==> r == Err::<Vc<T>, S::Error>(
                old(source).element_error(),
            ),
    {
        match source.open_sequence() {
            Ok(()) => {},
            Err(e) => return Err(e),
        }
        let ghost p = source.pending();
        let ghost q = source.requests();
        let mut values = Vc::with_capacity(cautious_size_hint(source.size_hint()));
        loop
            invariant
                old(source).is_sequence(),
                p == old(source).pending(),
                q == old(source).requests(),
                source.ends_cleanly() == old(source).ends_cleanly(),
                source.element_error() == old(source).element_error(),
                values@.len() <= p.len(),
                values@ == p.subrange(0, values@.len() as int),
                source.pending() == p.subrange(values@.len() as int, p.len() as int),
                source.requests() =~= q + Seq::new(values@.len(), |i: int| ElementRequest::Fresh),
            decreases source.pending().len(),
        {
            match source.next_element() {
                Ok(Some(value)) => {
                    values.push(value);
                    assert(source.requests() =~= q + Seq::new(
                        values@.len(),
                        |i: int| ElementRequest::Fresh,
                    ));
                },
                Ok(None) => {
                    assert(values@ == p);
                    assert(source.requests() =~= q + fresh_decode_requests(p.len()));
                    return Ok(values);
                },
                Err(e) => {
                    assert(source.requests() =~= q + fresh_decode_requests(p.len()));
                    return Err(e);
                },
            }
        }
    }

    /// Decodes the elements of `source` into this container, reusing the
    /// elements it already holds: slot `i` is decoded in place while both
    /// have one, surplus slots are cut off, and further elements are decoded
    /// fresh and appended. On an element error the slots before it hold the
    /// decoded elements, the slot it hit may be partly overwritten, and the
    /// slots after it are left as they were.
    pub fn decode_in_place<S: SeqSource<T>>(&mut self, source: &mut S) -> (r: Result<(), S::Error>)
        ensures
            r is Ok <==> old(source).is_sequence() && old(source).ends_cleanly(),
            !old(source).is_sequence() ==> {
                &&& r == Err::<(), S::Error>(old(source).mismatch_error())
                &&& final(self)@ == old(self)@
                &&& final(source).pending() == old(source).pending()
                &&& final(source).requests() == old(source).requests()
            },
            old(source).is_sequence() ==> final(source).requests() == old(source).requests()
                + in_place_decode_requests(old(self)@.len(), old(source).pending().len()),
            old(source).is_sequence() && old(source).ends_cleanly() ==> {
                &&& final(self)@ == old(source).pending()
                &&& final(source).finished()
            },
            old(source).is_sequence() && !old(source).ends_cleanly() ==> {
                let p = old(source).pending();
                let o = old(self)@;
                &&& r == Err::<(), S::Error>(old(source).element_error())
                &&& if p.len() < o.len() {
                    &&& final(self)@.len() == o.len()
                    &&& forall|i: int| 0 <= i < p.len() ==> #[trigger] final(self)@[i] == p[i]
                    &&& forall|i: int| p.len() < i < o.len() ==> #[trigger] final(self)@[i] == o[i]
                } else {
                    final(self)@ == p
                }
            },
    {
        match source.open_sequence() {
            Ok(()) => {},
            Err(e) => return Err(e),
        }
        let ghost p = source.pending();
        let ghost o = self@;
        let ghost q = source.requests();
        let len = self.items.len();
        let mut cursor = InPlaceCursor::begin(self, source.size_hint());
        loop
            invariant
                old(source).is_sequence(),
                p == old(source).pending(),
                o == old(self)@,
                q == old(source).requests(),
                len == o.len(),
                cursor.reusable() == len,
                cursor.filled() <= len,
                cursor.filled() <= p.len(),
                source.ends_cleanly() == old(source).ends_cleanly(),
                source.element_error() == old(source).element_error(),
                cursor.filled() < len ==> {
                    &&& self@.len() == len
                    &&& source.pending() == p.subrange(cursor.filled() as int, p.len() as int)
                    &&& source.requests() =~= q + Seq::new(
                        cursor.filled(),
                        |i: int| ElementRequest::InPlace,
                    )
                    &&& forall|j: int| 0 <= j < cursor.filled() ==> #[trigger] self@[j] == p[j]
                    &&& forall|j: int| cursor.filled() <= j < len ==> #[trigger] self@[j] == o[j]
                },
                cursor.filled() == len ==> {
                    &&& len <= self@.len() <= p.len()
                    &&& self@ =~= p.subrange(0, self@.len() as int)
                    &&& source.pending() == p.subrange(self@.len() as int, p.len() as int)
                    &&& source.requests() =~= q + Seq::new(len as nat, |i: int| ElementRequest::InPlace)
                        + Seq::new((self@.len() - len) as nat, |i: int| ElementRequest::Fresh)
                },
            decreases source.pending().len(),
        {
            match cursor.next_step() {
                InPlaceStep::Reuse(i) => {
                    match source.next_element_in_place(&mut self.items[i]) {
                        Ok(Some(())) => {
                            cursor.slot_decoded();
                            proof {
                                if cursor.filled() == len {
                                    assert(self@ =~= p.subrange(0, len as int));
                                }
                            }
                        },
                        Ok(None) => {
                            cursor.finish(self);
                            assert(self@ =~= p);
                            assert(source.requests() =~= q + in_place_decode_requests(
                                len as nat,
                                p.len(),
                            ));
                            return Ok(());
                        },
                        Err(e) => {
                            assert(source.requests() =~= q + in_place_decode_requests(
                                len as nat,
                                p.len(),
                            ));
                            return Err(e);
                        },
                    }
                },
                InPlaceStep::Extend => {
                    match source.next_element() {
                        Ok(Some(value)) => {
                            self.items.push(value);
                        },
                        Ok(None) => {
                            assert(self@ =~= p);
                            assert(source.requests() =~= q + in_place_decode_requests(
                                len as nat,
                                p.len(),
                            ));
                            return Ok(());
                        },
                        Err(e) => {
                            assert(source.requests() =~= q + in_place_decode_requests(
                                len as nat,
                                p.len(),
                            ));
                            return Err(e);
                        },
                    }
                },
            }
        }
    }
}

} // verus!

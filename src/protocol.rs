use vstd::prelude::*;

verus! {

/// How a decoder asked its source for one element.
#[derive(Debug, Clone, Copy, PartialEq, Eq)]
pub enum ElementRequest {
    /// Decode into a fresh value.
    Fresh,
    /// Decode into an existing value.
    InPlace,
}

/// A decoding source that hands out the elements of one sequence.
///
/// Its model: whether the payload is shaped as a sequence at all, the
/// well-formed elements still to come, whether the sequence ends cleanly
/// after them (otherwise a malformed element follows), whether its end has
/// been reached, the size hint it reports, the errors it fails with, and the
/// element requests it has been sent so far.
pub trait SeqSource<T>: Sized {
    type Error;

    spec fn is_sequence(&self) -> bool;

    spec fn pending(&self) -> Seq<T>;

    spec fn ends_cleanly(&self) -> bool;

    spec fn finished(&self) -> bool;

    spec fn hint(&self) -> Option<usize>;

    /// The error for a payload that is not a sequence.
    spec fn mismatch_error(&self) -> Self::Error;

    /// The error of the element that follows the pending ones, when the
    /// sequence does not end cleanly.
    spec fn element_error(&self) -> Self::Error;

    spec fn requests(&self) -> Seq<ElementRequest>;

    /// Checks that the payload is a sequence; reads no element.
    fn open_sequence(&mut self) -> (r: Result<(), Self::Error>)
        ensures
            old(self).is_sequence() ==> r == Ok::<(), Self::Error>(()),
            !old(self).is_sequence() ==> r == Err::<(), Self::Error>(old(self).mismatch_error()),
            final(self).pending() == old(self).pending(),
            final(self).ends_cleanly() == old(self).ends_cleanly(),
            final(self).hint() == old(self).hint(),
            final(self).element_error() == old(self).element_error(),
            final(self).requests() == old(self).requests(),
    ;

    /// An advisory, untrusted estimate of the number of elements left.
    fn size_hint(&self) -> (r: Option<usize>)
        ensures
            r == self.hint(),
    ;

    /// Decodes the next element into a fresh value.
    fn next_element(&mut self) -> (r: Result<Option<T>, Self::Error>)
        ensures
            final(self).requests() == old(self).requests().push(ElementRequest::Fresh),
            old(self).pending().len() > 0 ==> {
                &&& r == Ok::<Option<T>, Self::Error>(Some(old(self).pending()[0]))
                &&& final(self).pending() == old(self).pending().drop_first()
                &&& final(self).ends_cleanly() == old(self).ends_cleanly()
                &&& final(self).element_error() == old(self).element_error()
            },
            old(self).pending().len() == 0 && old(self).ends_cleanly() ==> {
                &&& r == Ok::<Option<T>, Self::Error>(None)
                &&& final(self).finished()
            },
            old(self).pending().len() == 0 && !old(self).ends_cleanly() ==> r == Err::<
                Option<T>,
                Self::Error,
            >(old(self).element_error()),
    ;

    /// Decodes the next element into an existing value, reusing its storage.
    /// On an error `place` may be left partly overwritten.
    fn next_element_in_place(&mut self, place: &mut T) -> (r: Result<Option<()>, Self::Error>)
        ensures
            final(self).requests() == old(self).requests().push(ElementRequest::InPlace),
            old(self).pending().len() > 0 ==> {
                &&& r == Ok::<Option<()>, Self::Error>(Some(()))
                &&& *final(place) == old(self).pending()[0]
                &&& final(self).pending() == old(self).pending().drop_first()
                &&& final(self).ends_cleanly() == old(self).ends_cleanly()
                &&& final(self).element_error() == old(self).element_error()
            },
            old(self).pending().len() == 0 && old(self).ends_cleanly() ==> {
                &&& r == Ok::<Option<()>, Self::Error>(None)
                &&& *final(place) == *old(place)
                &&& final(self).finished()
            },
            old(self).pending().len() == 0 && !old(self).ends_cleanly() ==> r == Err::<
                Option<()>,
                Self::Error,
            >(old(self).element_error()),
    ;
}

/// An encoding sink that takes one sequence, element by element.
///
/// Its model: the length announced when the sequence was begun, the elements
/// written into it so far, whether it has been ended, whether the sink is in
/// a state to accept work, which values its format can encode, and the errors
/// it fails with.
pub trait SeqSink<T>: Sized {
    type Error;

    spec fn announced(&self) -> Option<usize>;

    spec fn written(&self) -> Seq<T>;

    spec fn ended(&self) -> bool;

    spec fn healthy(&self) -> bool;

    spec fn accepts(&self, x: T) -> bool;

    /// The error for a value the format cannot encode.
    spec fn rejection(&self, x: T) -> Self::Error;

    /// The error of a sink that is not in a state to accept work.
    spec fn fault(&self) -> Self::Error;

    fn begin_sequence(&mut self, len: Option<usize>) -> (r: Result<(), Self::Error>)
        ensures
            r is Ok <==> old(self).healthy(),
            !old(self).healthy() ==> r == Err::<(), Self::Error>(old(self).fault()),
            r is Ok ==> {
                &&& final(self).healthy()
                &&& final(self).announced() == len
                &&& final(self).written() == Seq::<T>::empty()
                &&& !final(self).ended()
            },
            forall|x: T| #[trigger] final(self).accepts(x) == old(self).accepts(x),
            forall|x: T| #[trigger] final(self).rejection(x) == old(self).rejection(x),
    ;

    fn encode_next(&mut self, x: &T) -> (r: Result<(), Self::Error>)
        ensures
            r is Ok <==> old(self).healthy() && old(self).accepts(*x),
            old(self).healthy() && !old(self).accepts(*x) ==> {
                &&& r == Err::<(), Self::Error>(old(self).rejection(*x))
                &&& final(self).announced() == old(self).announced()
                &&& final(self).written() == old(self).written()
                &&& final(self).ended() == old(self).ended()
            },
            r is Ok ==> {
                &&& final(self).healthy()
                &&& final(self).announced() == old(self).announced()
                &&& final(self).written() == old(self).written().push(*x)
                &&& final(self).ended() == old(self).ended()
            },
            forall|y: T| #[trigger] final(self).accepts(y) == old(self).accepts(y),
            forall|y: T| #[trigger] final(self).rejection(y) == old(self).rejection(y),
            final(self).fault() == old(self).fault(),
    ;

    fn end_sequence(&mut self) -> (r: Result<(), Self::Error>)
        ensures
            r is Ok <==> old(self).healthy(),
            !old(self).healthy() ==> r == Err::<(), Self::Error>(old(self).fault()),
            r is Ok ==> {
                &&& final(self).announced() == old(self).announced()
                &&& final(self).written() == old(self).written()
                &&& final(self).ended()
            },
    ;
}

} // verus!

use vstd::prelude::*;

use crate::protocol::{ElementRequest, SeqSink, SeqSource};

verus! {

/// One unit of the in-memory sequence format.
#[derive(Debug, Clone, PartialEq, Eq)]
pub enum Token<T> {
    /// Opens a sequence, with the number of elements it announces.
    SeqStart(Option<usize>),
    Element(T),
    /// An element that cannot be decoded.
    Malformed,
    SeqEnd,
}

/// What goes wrong when a token stream is read as a sequence.
#[derive(Debug, Clone, Copy, PartialEq, Eq)]
pub enum TokenError {
    /// The stream does not open with `SeqStart`.
    NotASequence,
    /// A token other than an element or the end stands where an element may.
    MalformedElement,
    /// The stream stops before the sequence is ended.
    UnexpectedEnd,
}

/// The elements at the front of `toks`, up to the first token that is not one.
pub open spec fn leading_elements<T>(toks: Seq<Token<T>>) -> Seq<T>
    decreases toks.len(),
{
    if toks.len() > 0 && toks[0] is Element {
        seq![toks[0]->Element_0] + leading_elements(toks.drop_first())
    } else {
        Seq::empty()
    }
}

/// Whether the first token of `toks` that is not an element is `SeqEnd`.
pub open spec fn closes_after_elements<T>(toks: Seq<Token<T>>) -> bool
    decreases toks.len(),
{
    if toks.len() == 0 {
        false
    } else if toks[0] is Element {
        closes_after_elements(toks.drop_first())
    } else {
        toks[0] is SeqEnd
    }
}

/// Whether a stream opens a sequence.
pub open spec fn stream_is_sequence<T>(toks: Seq<Token<T>>) -> bool {
    toks.len() > 0 && toks[0] is SeqStart
}

/// The well-formed elements that a stream yields after its opening token.
pub open spec fn stream_elements<T>(toks: Seq<Token<T>>) -> Seq<T> {
    leading_elements(toks.drop_first())
}

/// Whether a stream's sequence ends cleanly after its well-formed elements.
pub open spec fn stream_closes<T>(toks: Seq<Token<T>>) -> bool {
    closes_after_elements(toks.drop_first())
}

/// The tokens of a sequence of `s`, announced with length `len`.
pub open spec fn sequence_tokens<T>(s: Seq<T>, len: Option<usize>) -> Seq<Token<T>> {
    seq![Token::SeqStart(len)] + s.map_values(|x: T| Token::Element(x)) + seq![Token::SeqEnd]
}

/// The error of the token that follows the elements at the front of `toks`,
/// when it is not `SeqEnd`.
pub open spec fn error_after_elements<T>(toks: Seq<Token<T>>) -> TokenError
    decreases toks.len(),
{
    if toks.len() == 0 {
        TokenError::UnexpectedEnd
    } else if toks[0] is Element {
        error_after_elements(toks.drop_first())
    } else {
        TokenError::MalformedElement
    }
}

/// The length a stream announces in its opening token.
pub open spec fn stream_hint<T>(toks: Seq<Token<T>>) -> Option<usize> {
    if stream_is_sequence(toks) {
        toks[0]->SeqStart_0
    } else {
        None
    }
}

/// Reads a token stream as a sequence. It reports the announced length as
/// its size hint and consumes `SeqEnd` when it answers end-of-sequence.
pub struct TokenSource<T> {
    rest: Vec<Token<T>>,
    opens: bool,
    hint: Option<usize>,
    done: bool,
    log: Ghost<Seq<ElementRequest>>,
}

impl<T> TokenSource<T> {
    /// The tokens not read yet.
    pub closed spec fn unread(&self) -> Seq<Token<T>> {
        self.rest@
    }

    pub fn new(tokens: Vec<Token<T>>) -> (s: TokenSource<T>)
        ensures
            s.is_sequence() == stream_is_sequence(tokens@),
            s.hint() == stream_hint(tokens@),
            s.mismatch_error() == TokenError::NotASequence,
            !s.finished(),
            s.requests() == Seq::<ElementRequest>::empty(),
            !stream_is_sequence(tokens@) ==> s.unread() == tokens@,
            stream_is_sequence(tokens@) ==> {
                &&& s.unread() == tokens@.drop_first()
                &&& s.pending() == stream_elements(tokens@)
                &&& s.ends_cleanly() == stream_closes(tokens@)
                &&& s.element_error() == error_after_elements(tokens@.drop_first())
            },
    {
        let mut rest = tokens;
        if rest.len() > 0 {
            match &rest[0] {
                Token::SeqStart(len) => {
                    let hint = *len;
                    rest.remove(0);
                    return TokenSource { rest, opens: true, hint, done: false, log: Ghost(Seq::empty()) };
                },
                _ => {},
            }
        }
        TokenSource { rest, opens: false, hint: None, done: false, log: Ghost(Seq::empty()) }
    }

    /// Whether the end of the sequence has been read.
    pub fn is_finished(&self) -> (r: bool)
        ensures
            r == self.finished(),
    {
        self.done
    }

    /// The number of tokens not read yet.
    pub fn remaining(&self) -> (r: usize)
        ensures
            r == self.unread().len(),
    {
        self.rest.len()
    }
}

impl<T> SeqSource<T> for TokenSource<T> {
    type Error = TokenError;

    closed spec fn is_sequence(&self) -> bool {
        self.opens
    }

    closed spec fn pending(&self) -> Seq<T> {
        leading_elements(self.rest@)
    }

    closed spec fn ends_cleanly(&self) -> bool {
        closes_after_elements(self.rest@)
    }

    closed spec fn finished(&self) -> bool {
        self.done
    }

    closed spec fn hint(&self) -> Option<usize> {
        self.hint
    }

    closed spec fn mismatch_error(&self) -> TokenError {
        TokenError::NotASequence
    }

    closed spec fn element_error(&self) -> TokenError {
        error_after_elements(self.rest@)
    }

    closed spec fn requests(&self) -> Seq<ElementRequest> {
        self.log@
    }

    fn open_sequence(&mut self) -> (r: Result<(), TokenError>) {
        if self.opens {
            Ok(())
        } else {
            Err(TokenError::NotASequence)
        }
    }

    fn size_hint(&self) -> (r: Option<usize>) {
        self.hint
    }

    fn next_element(&mut self) -> (r: Result<Option<T>, TokenError>) {
        self.log = Ghost(self.log@.push(ElementRequest::Fresh));
        if self.rest.len() == 0 {
            return Err(TokenError::UnexpectedEnd);
        }
        let ghost toks = self.rest@;
        assert(toks.drop_first() == toks.remove(0));
        match self.rest.remove(0) {
            Token::Element(x) => Ok(Some(x)),
            Token::SeqEnd => {
                self.done = true;
                Ok(None)
            },
            _ => Err(TokenError::MalformedElement),
        }
    }

    fn next_element_in_place(&mut self, place: &mut T) -> (r: Result<Option<()>, TokenError>) {
        self.log = Ghost(self.log@.push(ElementRequest::InPlace));
        if self.rest.len() == 0 {
            return Err(TokenError::UnexpectedEnd);
        }
        let ghost toks = self.rest@;
        assert(toks.drop_first() == toks.remove(0));
        match self.rest.remove(0) {
            Token::Element(x) => {
                *place = x;
                Ok(Some(()))
            },
            Token::SeqEnd => {
                self.done = true;
                Ok(None)
            },
            _ => Err(TokenError::MalformedElement),
        }
    }
}

/// The tokens a sink has produced: the opening token with the announced
/// length, one token per element written, and `SeqEnd` once it was ended.
pub open spec fn emitted_tokens<T>(announced: Option<usize>, written: Seq<T>, ended: bool) -> Seq<
    Token<T>,
> {
    seq![Token::SeqStart(announced)] + written.map_values(|x: T| Token::Element(x)) + if ended {
        seq![Token::SeqEnd]
    } else {
        Seq::empty()
    }
}

/// Writes a sequence as tokens. It accepts every value and never fails, so
/// its errors are never produced; a sink that was never begun reads as an open sequence of unknown length.
pub struct TokenSink<T> {
    announced: Option<usize>,
    elems: Vec<T>,
    ended: bool,
}

impl<T: Copy> TokenSink<T> {
    pub fn new() -> (s: TokenSink<T>)
        ensures
            s.healthy(),
            s.announced() == None::<usize>,
            s.written() == Seq::<T>::empty(),
            !s.ended(),
            forall|x: T| s.accepts(x),
    {
        TokenSink { announced: None, elems: Vec::new(), ended: false }
    }

    /// The tokens produced so far.
    pub fn into_tokens(self) -> (r: Vec<Token<T>>)
        ensures
            r@ == emitted_tokens(self.announced(), self.written(), self.ended()),
    {
        let mut r: Vec<Token<T>> = Vec::new();
        r.push(Token::SeqStart(self.announced));
        let n = self.elems.len();
        let mut i: usize = 0;
        while i < n
            invariant
                n == self.elems@.len(),
                i <= n,
                r@ == seq![Token::SeqStart(self.announced)] + self.elems@.subrange(0, i as int).map_values(
                    |x: T| Token::Element(x),
                ),
            decreases n - i,
        {
            r.push(Token::Element(self.elems[i]));
            assert(self.elems@.subrange(0, i + 1) == self.elems@.subrange(0, i as int).push(self.elems@[i as int]));
            assert(self.elems@.subrange(0, i + 1).map_values(|x: T| Token::Element(x)) =~= self.elems@.subrange(0, i as int).map_values(|x: T| Token::Element(x)).push(Token::Element(self.elems@[i as int])));
            i = i + 1;
        }
        assert(self.elems@.subrange(0, n as int) == self.elems@);
        if self.ended {
            r.push(Token::SeqEnd);
        }
        assert(r@ =~= emitted_tokens(self.announced(), self.written(), self.ended()));
        r
    }
}

impl<T: Copy> SeqSink<T> for TokenSink<T> {
    type Error = TokenError;

    closed spec fn announced(&self) -> Option<usize> {
        self.announced
    }

    closed spec fn written(&self) -> Seq<T> {
        self.elems@
    }

    closed spec fn ended(&self) -> bool {
        self.ended
    }

    closed spec fn healthy(&self) -> bool {
        true
    }

    closed spec fn accepts(&self, x: T) -> bool {
        true
    }

    closed spec fn rejection(&self, x: T) -> TokenError {
        TokenError::MalformedElement
    }

    closed spec fn fault(&self) -> TokenError {
        TokenError::MalformedElement
    }

    fn begin_sequence(&mut self, len: Option<usize>) -> (r: Result<(), TokenError>) {
        self.announced = len;
        self.elems = Vec::new();
        self.ended = false;
        Ok(())
    }

    fn encode_next(&mut self, x: &T) -> (r: Result<(), TokenError>) {
        self.elems.push(*x);
        Ok(())
    }

    fn end_sequence(&mut self) -> (r: Result<(), TokenError>) {
        self.ended = true;
        Ok(())
    }
}

proof fn lemma_elements_then_end<T>(s: Seq<T>)
    ensures
        leading_elements(s.map_values(|x: T| Token::Element(x)) + seq![Token::SeqEnd]) == s,
        closes_after_elements(s.map_values(|x: T| Token::Element(x)) + seq![Token::SeqEnd]),
    decreases s.len(),
{
    let t = s.map_values(|x: T| Token::Element(x)) + seq![Token::<T>::SeqEnd];
    if s.len() == 0 {
        assert(t =~= seq![Token::<T>::SeqEnd]);
        assert(t.drop_first() =~= Seq::<Token<T>>::empty());
    } else {
        let rest = s.drop_first();
        assert(t.drop_first() =~= rest.map_values(|x: T| Token::Element(x)) + seq![Token::SeqEnd]);
        lemma_elements_then_end(rest);
        assert(seq![s[0]] + rest =~= s);
    }
}

/// Reading back the tokens of a sequence gives a sequence that ends cleanly
/// and yields exactly the elements that were written, in order.
pub proof fn lemma_round_trip<T>(s: Seq<T>, len: Option<usize>)
    ensures
        stream_is_sequence(sequence_tokens(s, len)),
        stream_elements(sequence_tokens(s, len)) == s,
        stream_closes(sequence_tokens(s, len)),
        emitted_tokens(len, s, true) == sequence_tokens(s, len),
{
    let t = sequence_tokens(s, len);
    assert(t.drop_first() =~= s.map_values(|x: T| Token::Element(x)) + seq![Token::SeqEnd]);
    lemma_elements_then_end(s);
}

} // verus!

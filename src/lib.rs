//! A growable sequence container, `Vc`, with verified sequence encoding and
//! decoding against an abstract source and sink: a fresh decode, an in-place
//! decode that reuses the elements a container already holds, and a clamp on
//! the untrusted size hints that decide how much room is reserved ahead of
//! time. An in-memory token format implements the source and the sink.

mod cursor;
mod hint;
mod protocol;
mod tokens;
mod vc;

pub use cursor::{InPlaceCursor, InPlaceStep};
pub use hint::{cautious_size_hint, HINT_CEILING};
pub use protocol::{ElementRequest, SeqSink, SeqSource};
pub use tokens::{
    closes_after_elements, emitted_tokens, error_after_elements, leading_elements, lemma_round_trip, sequence_tokens,
    stream_closes, stream_elements, stream_hint, stream_is_sequence, Token, TokenError, TokenSink, TokenSource,
};
pub use vc::{
    encode_slice, first_refused, fresh_decode_requests, in_place_decode_requests, in_place_reservation,
    Vc,
};

use atone::SeqSource;
use atone::{
    cautious_size_hint, encode_slice, in_place_reservation, InPlaceCursor, InPlaceStep, Token,
    TokenError, TokenSink, TokenSource, Vc, HINT_CEILING,
};

fn vc_of(items: &[u32]) -> Vc<u32> {
    let mut v: Vc<u32> = Vc::new();
    for &x in items {
        v.push(x);
    }
    v
}

fn encode_to_tokens(v: &Vc<u32>) -> Vec<Token<u32>> {
    let mut sink: TokenSink<u32> = TokenSink::new();
    v.encode(&mut sink).unwrap();
    sink.into_tokens()
}

fn decode_tokens(tokens: Vec<Token<u32>>) -> Result<Vc<u32>, TokenError> {
    let mut source = TokenSource::new(tokens);
    let r = Vc::decode_fresh(&mut source);
    if r.is_ok() {
        assert!(source.is_finished());
        assert_eq!(source.remaining(), 0);
    }
    r
}

fn seq_tokens(len: Option<usize>, items: &[u32]) -> Vec<Token<u32>> {
    let mut t = vec![Token::SeqStart(len)];
    for &x in items {
        t.push(Token::Element(x));
    }
    t.push(Token::SeqEnd);
    t
}

/// Encodes `v`, checks the tokens, and decodes them back, both fresh and in place.
fn assert_tokens(v: &Vc<u32>, expected: &[Token<u32>]) {
    assert_eq!(encode_to_tokens(v), expected.to_vec());
    let fresh = decode_tokens(expected.to_vec()).unwrap();
    assert_eq!(fresh.as_slice(), v.as_slice());
    let mut target: Vc<u32> = Vc::new();
    let mut source = TokenSource::new(expected.to_vec());
    target.decode_in_place(&mut source).unwrap();
    assert_eq!(target.as_slice(), v.as_slice());
    assert!(source.is_finished());
    assert_eq!(source.remaining(), 0);
    let mut same = Vc::from_vec(v.as_slice().to_vec());
    let mut source = TokenSource::new(expected.to_vec());
    same.decode_in_place(&mut source).unwrap();
    assert_eq!(same.as_slice(), v.as_slice());
    assert!(source.is_finished());
    assert_eq!(source.remaining(), 0);
}

#[test]
fn test_serde_empty_vc() {
    let my_vec: Vc<u32> = Vc::default();
    assert_tokens(&my_vec, &[Token::SeqStart(Some(0)), Token::SeqEnd])
}

#[test]
fn test_serde_non_empty() {
    let mut my_vec: Vc<u32> = Vc::default();
    my_vec.push(1);
    my_vec.push(2);
    my_vec.push(3);
    assert_tokens(
        &my_vec,
        &[
            Token::SeqStart(Some(3)),
            Token::Element(1),
            Token::Element(2),
            Token::Element(3),
            Token::SeqEnd,
        ],
    )
}

#[test]
fn test_serde_while_atoning() {
    let mut my_vec: Vc<u32> = Vc::new();
    for i in 1..=8 {
        my_vec.push(i);
    }
    assert_eq!(my_vec.len(), 8);
    assert_tokens(
        &my_vec,
        &[
            Token::SeqStart(Some(8)),
            Token::Element(1),
            Token::Element(2),
            Token::Element(3),
            Token::Element(4),
            Token::Element(5),
            Token::Element(6),
            Token::Element(7),
            Token::Element(8),
            Token::SeqEnd,
        ],
    );
}

#[test]
fn test_vec_to_vc_serde() {
    let sinful: Vec<u32> = vec![1, 2, 3, 4];
    let mut sink: TokenSink<u32> = TokenSink::new();
    encode_slice(sinful.as_slice(), &mut sink).unwrap();
    let atoner: Vc<u32> = decode_tokens(sink.into_tokens()).unwrap();
    assert_eq!(atoner.len(), sinful.len());
    for (s, a) in sinful.iter().zip(atoner.as_slice().iter()) {
        assert!(
            s == a,
            "Deserialized Vc is not identical to the original Vec."
        );
    }
}

#[test]
fn test_vc_to_vec_serde() {
    let mut atoner: Vc<u32> = Vc::new();
    atoner.push(1);
    atoner.push(2);
    atoner.push(3);
    atoner.push(4);
    let tokens = encode_to_tokens(&atoner);
    let baptized: Vec<u32> = decode_tokens(tokens).unwrap().into_vec();
    assert_eq!(baptized.len(), atoner.len());
    for (a, b) in atoner.as_slice().iter().zip(baptized.iter()) {
        assert!(
            a == b,
            "Deserialized Vec is not identical to the original Vc."
        );
    }
}

#[test]
fn round_trip_keeps_elements_in_order() {
    let v = vc_of(&[5, 0, 7, 7, 1]);
    let back = decode_tokens(encode_to_tokens(&v)).unwrap();
    assert_eq!(back.as_slice(), &[5, 0, 7, 7, 1]);
}

#[test]
fn slice_and_vc_encode_alike() {
    let items = [1u32, 2, 3, 4];
    let mut sink: TokenSink<u32> = TokenSink::new();
    encode_slice(&items[..], &mut sink).unwrap();
    assert_eq!(sink.into_tokens(), encode_to_tokens(&vc_of(&items)));
}

#[test]
fn empty_sequence_decodes_to_empty() {
    let tokens = seq_tokens(Some(0), &[]);
    assert_eq!(tokens, vec![Token::SeqStart(Some(0)), Token::SeqEnd]);
    assert!(decode_tokens(tokens.clone()).unwrap().is_empty());
    let mut target = vc_of(&[4, 5, 6]);
    target.decode_in_place(&mut TokenSource::new(tokens)).unwrap();
    assert!(target.is_empty());
}

#[test]
fn in_place_shrink() {
    let mut target = vc_of(&[9, 9, 9, 9, 9]);
    let mut source = TokenSource::new(seq_tokens(Some(3), &[1, 2, 3]));
    target.decode_in_place(&mut source).unwrap();
    assert_eq!(target.len(), 3);
    assert_eq!(target.as_slice(), &[1, 2, 3]);
}

#[test]
fn in_place_grow() {
    let mut target = vc_of(&[9, 8]);
    let mut source = TokenSource::new(seq_tokens(Some(5), &[1, 2, 3, 4, 5]));
    target.decode_in_place(&mut source).unwrap();
    assert_eq!(target.len(), 5);
    assert_eq!(target.as_slice(), &[1, 2, 3, 4, 5]);
}

#[test]
fn in_place_same_length() {
    let mut target = vc_of(&[9, 8, 7]);
    let mut source = TokenSource::new(seq_tokens(None, &[1, 2, 3]));
    target.decode_in_place(&mut source).unwrap();
    assert_eq!(target.as_slice(), &[1, 2, 3]);
}

#[test]
fn size_hint_is_clamped() {
    assert_eq!(HINT_CEILING, 4096);
    assert_eq!(cautious_size_hint(None), 0);
    assert_eq!(cautious_size_hint(Some(0)), 0);
    assert_eq!(cautious_size_hint(Some(10)), 10);
    assert_eq!(cautious_size_hint(Some(4095)), 4095);
    assert_eq!(cautious_size_hint(Some(4096)), 4096);
    assert_eq!(cautious_size_hint(Some(4097)), 4096);
    assert_eq!(cautious_size_hint(Some(usize::MAX)), 4096);
}

#[test]
fn in_place_reservation_counts_missing_room() {
    assert_eq!(in_place_reservation(Some(10), 3), 7);
    assert_eq!(in_place_reservation(Some(3), 3), 0);
    assert_eq!(in_place_reservation(Some(2), 5), 0);
    assert_eq!(in_place_reservation(None, 0), 0);
    assert_eq!(in_place_reservation(Some(usize::MAX), 0), 4096);
    assert_eq!(in_place_reservation(Some(usize::MAX), 100), 3996);
}

#[test]
fn huge_hint_on_short_sequence() {
    let tokens = seq_tokens(Some(usize::MAX), &[1, 2]);
    assert_eq!(decode_tokens(tokens.clone()).unwrap().as_slice(), &[1, 2]);
    let mut target = vc_of(&[7]);
    target.decode_in_place(&mut TokenSource::new(tokens)).unwrap();
    assert_eq!(target.as_slice(), &[1, 2]);
}

fn third_malformed() -> Vec<Token<u32>> {
    vec![
        Token::SeqStart(Some(5)),
        Token::Element(1),
        Token::Element(2),
        Token::Malformed,
        Token::Element(4),
        Token::Element(5),
        Token::SeqEnd,
    ]
}

#[test]
fn element_error_fails_fresh_decode() {
    assert_eq!(decode_tokens(third_malformed()).unwrap_err(), TokenError::MalformedElement);
}

#[test]
fn element_error_leaves_prefix_decoded_in_place() {
    let mut target = vc_of(&[10, 20, 30, 40, 50]);
    let r = target.decode_in_place(&mut TokenSource::new(third_malformed()));
    assert_eq!(r, Err(TokenError::MalformedElement));
    assert_eq!(target.len(), 5);
    assert_eq!(target.as_slice()[0], 1);
    assert_eq!(target.as_slice()[1], 2);
    assert_eq!(target.as_slice()[3], 40);
    assert_eq!(target.as_slice()[4], 50);
}

#[test]
fn element_error_in_extension_phase() {
    let mut target = vc_of(&[10]);
    let r = target.decode_in_place(&mut TokenSource::new(third_malformed()));
    assert_eq!(r, Err(TokenError::MalformedElement));
    assert_eq!(target.as_slice(), &[1, 2]);
}

#[test]
fn not_a_sequence_reads_nothing() {
    let tokens = vec![Token::Element(1u32), Token::SeqEnd];
    assert_eq!(decode_tokens(tokens.clone()).unwrap_err(), TokenError::NotASequence);
    let mut target = vc_of(&[3, 4]);
    let r = target.decode_in_place(&mut TokenSource::new(tokens));
    assert_eq!(r, Err(TokenError::NotASequence));
    assert_eq!(target.as_slice(), &[3, 4]);
    assert_eq!(decode_tokens(Vec::new()).unwrap_err(), TokenError::NotASequence);
}

#[test]
fn unterminated_sequence_fails() {
    let tokens = vec![Token::SeqStart(None), Token::Element(1u32)];
    assert_eq!(decode_tokens(tokens).unwrap_err(), TokenError::UnexpectedEnd);
}

#[test]
fn unfinished_sink_has_no_end() {
    let sink: TokenSink<u32> = TokenSink::new();
    assert_eq!(sink.into_tokens(), vec![Token::SeqStart(None)]);
}

#[test]
fn container_basics() {
    let mut v = vc_of(&[1, 2, 3, 4]);
    assert_eq!(v.get(2), Some(&3));
    assert_eq!(v.get(4), None);
    v.reserve(10);
    assert_eq!(v.len(), 4);
    v.truncate(9);
    assert_eq!(v.len(), 4);
    v.truncate(1);
    assert_eq!(v.as_slice(), &[1]);
    assert!(!v.is_empty());
    assert_eq!(Vc::from_vec(vec![8u32, 9]).into_vec(), vec![8, 9]);
    assert!(Vc::<u32>::with_capacity(16).is_empty());
}

#[test]
fn cursor_reuses_then_extends() {
    let mut target = vc_of(&[9, 8]);
    let mut cursor = InPlaceCursor::begin(&mut target, Some(5));
    assert_eq!(target.as_slice(), &[9, 8]);
    assert_eq!(cursor.next_step(), InPlaceStep::Reuse(0));
    *target.slot_mut(0) = 1;
    cursor.slot_decoded();
    assert_eq!(cursor.next_step(), InPlaceStep::Reuse(1));
    *target.slot_mut(1) = 2;
    cursor.slot_decoded();
    assert_eq!(cursor.next_step(), InPlaceStep::Extend);
    cursor.slot_decoded();
    assert_eq!(cursor.next_step(), InPlaceStep::Extend);
    target.push(3);
    cursor.finish(&mut target);
    assert_eq!(target.as_slice(), &[1, 2, 3]);
}

#[test]
fn cursor_finish_cuts_unreached_slots() {
    let mut target = vc_of(&[9, 8, 7, 6, 5]);
    let mut cursor = InPlaceCursor::begin(&mut target, None);
    *target.slot_mut(0) = 1;
    cursor.slot_decoded();
    assert_eq!(cursor.next_step(), InPlaceStep::Reuse(1));
    cursor.finish(&mut target);
    assert_eq!(target.as_slice(), &[1]);
}

#[test]
fn cursor_on_empty_target_extends() {
    let mut target: Vc<u32> = Vc::new();
    let cursor = InPlaceCursor::begin(&mut target, Some(1 << 20));
    assert_eq!(cursor.next_step(), InPlaceStep::Extend);
    cursor.finish(&mut target);
    assert!(target.is_empty());
}

#[test]
fn source_reports_announced_hint() {
    let source = TokenSource::new(seq_tokens(Some(7), &[1]));
    assert_eq!(source.size_hint(), Some(7));
    let source = TokenSource::new(seq_tokens(None, &[1]));
    assert_eq!(source.size_hint(), None);
    assert!(!source.is_finished());
}

#[test]
fn hint_does_not_change_the_result() {
    for hint in [None, Some(0), Some(1), Some(3), Some(4096), Some(usize::MAX)] {
        assert_eq!(decode_tokens(seq_tokens(hint, &[4, 5, 6])).unwrap().as_slice(), &[4, 5, 6]);
        assert_eq!(decode_tokens(third_malformed_with(hint)).unwrap_err(), TokenError::MalformedElement);
    }
}

fn third_malformed_with(hint: Option<usize>) -> Vec<Token<u32>> {
    let mut t = third_malformed();
    t[0] = Token::SeqStart(hint);
    t
}

#[test]
fn decode_stops_at_the_end_marker() {
    let mut tokens = seq_tokens(Some(2), &[1, 2]);
    tokens.push(Token::Element(3));
    let mut source = TokenSource::new(tokens);
    let v = Vc::decode_fresh(&mut source).unwrap();
    assert_eq!(v.as_slice(), &[1, 2]);
    assert!(source.is_finished());
    assert_eq!(source.remaining(), 1);
}

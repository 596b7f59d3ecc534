use sparsebit::decode_from_slice;
use sparsebit::encode_into_slice;
use sparsebit::Decoder;
use sparsebit::DecoderState;
use sparsebit::Encoder;
use sparsebit::EncoderState;

fn round_trip(payload: &[u8]) -> Vec<u8> {
    let mut encoded_buf = vec![0u8; 8 * payload.len() + 64];
    let mut decoded_buf = vec![0u8; payload.len() + 64];

    let encoded_len = encode_into_slice(payload, &mut encoded_buf).unwrap();
    let decoded_len = decode_from_slice(&encoded_buf[..encoded_len], &mut decoded_buf).unwrap();

    assert_eq!(&decoded_buf[..decoded_len], payload);

    encoded_buf.truncate(encoded_len);
    encoded_buf
}

#[test]
fn round_trip_assorted_payloads() {
    round_trip(&[]);
    round_trip(&[0x00]);
    round_trip(&[0xFF]);
    round_trip(&[0x12, 0x34, 0x56, 0x78]);
    round_trip(&[0xDE, 0xAD, 0xBE, 0xEF, 0x00, 0x00, 0xFF, 0xFF]);
    round_trip(&vec![0xAAu8; 300]);
    round_trip(&vec![0x00u8; 1100]);
    round_trip(&vec![0xFFu8; 1600]);
}

// The compressed stream always ends with the 24-bit end-of-stream symbol
// (payload 0xFFF), followed only by zero padding up to the byte boundary.
fn assert_ends_with_marker(encoded: &[u8]) {
    assert!(encoded.len() >= 3);

    let mut tail: u32 = 0;
    let mut bits: u32 = 0;
    for &byte in &encoded[encoded.len().saturating_sub(4)..] {
        tail = (tail << 8) | byte as u32;
        bits += 8;
    }

    let mut found = false;
    let mut pad: u32 = 0;
    while pad + 12 <= bits {
        if (tail >> pad) & 0xFFF == 0xFFF && tail & ((1 << pad) - 1) == 0 {
            found = true;
            break;
        }
        pad += 1;
    }
    assert!(found, "no end-of-stream marker at the tail of {encoded:?}");
}

#[test]
fn encoder_output_ends_with_marker() {
    assert_ends_with_marker(&round_trip(&[]));
    assert_ends_with_marker(&round_trip(&[0x00]));
    assert_ends_with_marker(&round_trip(&[0xFF]));
    assert_ends_with_marker(&round_trip(&[0x5A, 0x00, 0xF0]));
    assert_ends_with_marker(&round_trip(&vec![0x00u8; 2048]));
}

// Feeding the encoder its input one byte per call produces the same stream
// as a single call over the whole input.
#[test]
fn encode_resumable_over_input_chunks() {
    let payload = [0x12u8, 0x00, 0x00, 0x00, 0xFF, 0xFF, 0x3C, 0x81];

    let whole = round_trip(&payload);

    let mut buffer = [0u8; 256];
    let mut encoder = Encoder::new();
    let mut produced_total = 0;

    for &byte in payload.iter() {
        let (consumed, produced, state) = encoder.step(&[byte], &mut buffer[produced_total..]);
        assert_eq!(consumed, 1);
        assert_eq!(state, EncoderState::CanConsume);
        produced_total += produced;
    }

    encoder.set_consumed_bytes_end();
    let (consumed, produced, state) = encoder.step(&[], &mut buffer[produced_total..]);
    assert_eq!(consumed, 0);
    assert_eq!(state, EncoderState::Terminated);
    produced_total += produced;

    assert_eq!(&buffer[..produced_total], &whole[..]);
}

// Driving the decoder with one input byte and one output byte per call
// recovers the same payload as a single call.
#[test]
fn decode_resumable_over_single_byte_buffers() {
    let payload = [0xA5u8, 0x00, 0x00, 0xFF, 0x07];
    let encoded = round_trip(&payload);

    let mut decoder = Decoder::new();
    let mut recovered = Vec::new();
    let mut next_input = 0;

    loop {
        let input: &[u8] = if next_input < encoded.len() {
            &encoded[next_input..next_input + 1]
        } else {
            &[]
        };
        let mut out = [0u8; 1];
        let (consumed, produced, state) = decoder.step(input, &mut out);
        next_input += consumed;
        recovered.extend_from_slice(&out[..produced]);
        match state {
            DecoderState::CanConsume => assert!(next_input <= encoded.len()),
            DecoderState::CanProduce => {}
            DecoderState::Terminated {
                corrupted,
                unaligned,
            } => {
                assert!(!corrupted);
                assert!(!unaligned);
                break;
            }
        }
    }

    assert_eq!(next_input, encoded.len());
    assert_eq!(&recovered[..], &payload[..]);
}

// Once terminated, further steps consume and produce nothing and report the
// same terminal state.
#[test]
fn decoder_terminal_stability() {
    let mut decoder = Decoder::new();
    let mut buffer = [0u8; 16];

    let (_, _, state) = decoder.step(&[0b00100101, 0b00000000, 0b00001111, 0b11111111], &mut buffer);
    assert_eq!(
        state,
        DecoderState::Terminated {
            corrupted: false,
            unaligned: true
        }
    );

    for _ in 0..3 {
        assert_eq!(
            decoder.step(&[0xFF, 0x00, 0x12], &mut buffer),
            (0, 0, state)
        );
    }
    assert_eq!(decoder.partial_output_byte(), Some((0b11, 2)));
}

#[test]
fn encoder_terminal_stability() {
    let mut encoder = Encoder::new();
    let mut buffer = [0u8; 16];

    encoder.set_consumed_bytes_end();
    let (_, produced, state) = encoder.step(&[], &mut buffer);
    assert_eq!(state, EncoderState::Terminated);
    assert_eq!(produced, 3);

    for _ in 0..3 {
        assert_eq!(
            encoder.step(&[0xFF, 0x00, 0x12], &mut buffer),
            (0, 0, EncoderState::Terminated)
        );
    }
}

#[test]
fn reset_restores_initial_state() {
    let mut buffer = [0u8; 16];

    let mut encoder = Encoder::new();
    encoder.set_consumed_bytes_end();
    assert_eq!(encoder.step(&[], &mut buffer), (0, 3, EncoderState::Terminated));

    encoder.reset();
    let (consumed, produced, state) = encoder.step(&[0b11001100], &mut buffer);
    assert_eq!((consumed, produced, state), (1, 3, EncoderState::CanConsume));

    let mut decoder = Decoder::new();
    let encoded = [0b00000000u8, 0b00001111, 0b11111111];
    let (_, _, state) = decoder.step(&encoded, &mut buffer);
    assert_eq!(
        state,
        DecoderState::Terminated {
            corrupted: false,
            unaligned: false
        }
    );

    decoder.reset();
    assert_eq!(decoder.partial_output_byte(), None);
    let (_, _, state) = decoder.step(&encoded, &mut buffer);
    assert_eq!(
        state,
        DecoderState::Terminated {
            corrupted: false,
            unaligned: false
        }
    );
}

#[test]
fn default_matches_new() {
    let mut buffer = [0u8; 16];

    let mut encoder = Encoder::default();
    encoder.set_consumed_bytes_end();
    assert_eq!(
        encoder.step(&[], &mut buffer),
        (0, 3, EncoderState::Terminated)
    );
    assert_eq!(&buffer[..3], &[0x00, 0x0F, 0xFF]);

    let mut decoder = Decoder::default();
    assert_eq!(decoder.partial_output_byte(), None);
    let (consumed, produced, state) = decoder.step(&[0x00, 0x0F, 0xFF], &mut buffer);
    assert_eq!(
        (consumed, produced, state),
        (
            3,
            0,
            DecoderState::Terminated {
                corrupted: false,
                unaligned: false
            }
        )
    );
}

// The decoder accepts the no-op long symbol (payload 0xFFE) and decodes
// around it.
#[test]
fn decoder_accepts_noop_symbol() {
    // a two-field code for eight zero bits, the 0xFFE no-op, then the marker
    let encoded = [
        0b00100100u8,
        0b00000000,
        0b00111111,
        0b11111000,
        0b00000000,
        0b00111111,
        0b11111100,
    ];
    let mut buffer = [0u8; 16];
    let produced = decode_from_slice(&encoded, &mut buffer).unwrap();
    assert_eq!(&buffer[..produced], &[0x00]);
}

// When the output buffer runs out mid-marker with a whole byte still
// buffered, resuming re-injects the 24-bit marker field above the pending
// byte, as the 32-bit emission rule prescribes: the stream then carries the
// marker twice.
#[test]
fn marker_flush_resumed_after_pending_byte() {
    let mut encoder = Encoder::new();
    encoder.set_consumed_bytes_end();

    let mut first = [0u8; 2];
    assert_eq!(
        encoder.step(&[], &mut first),
        (0, 2, EncoderState::CanProduce)
    );
    assert_eq!(&first[..], &[0x00, 0x0F]);

    let mut rest = [0u8; 8];
    assert_eq!(encoder.step(&[], &mut rest), (0, 4, EncoderState::Terminated));
    assert_eq!(&rest[..4], &[0xFF, 0x00, 0x0F, 0xFF]);
}

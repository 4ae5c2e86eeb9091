use cairo_verifier::error::DecodeError;
use cairo_verifier::output::{decode_event, DeserializableHyleOutput, Event, HyleOutput};

const SCORE: &str = "[1 100 200 0 122537185339758 6 0 109270082020722 6 12345 42]";

const TRANSFER: &str =
    "[1 100 200 0 122537185339758 6 0 109270082020722 6 12345 0 6451042 3 0 418430673765 5 1000]";

#[test]
fn score_output() {
    let output = HyleOutput::deserialize(SCORE).unwrap();
    assert_eq!(
        output,
        HyleOutput {
            version: 1,
            initial_state: b"100".to_vec(),
            next_state: b"200".to_vec(),
            origin: "origin".to_string(),
            caller: "caller".to_string(),
            block_number: 0,
            block_time: 0,
            tx_hash: b"12345".to_vec(),
            program_outputs: Event { from: None, to: None, amount: None, score: Some(42) },
        }
    );
}

#[test]
fn transfer_output() {
    let output = HyleOutput::deserialize(TRANSFER).unwrap();
    assert_eq!(
        output,
        HyleOutput {
            version: 1,
            initial_state: b"100".to_vec(),
            next_state: b"200".to_vec(),
            origin: "origin".to_string(),
            caller: "caller".to_string(),
            block_number: 0,
            block_time: 0,
            tx_hash: b"12345".to_vec(),
            program_outputs: Event {
                from: Some("bob".to_string()),
                to: Some("alice".to_string()),
                amount: Some(1000),
                score: None,
            },
        }
    );
}

#[test]
fn output_with_three_tokens_behind_the_header_is_unsupported() {
    let input = "[1 100 200 0 122537185339758 6 0 109270082020722 6 12345 1 2 3]";
    assert_eq!(HyleOutput::deserialize(input), Err(DecodeError::UnsupportedOutputShape));
}

#[test]
fn output_with_any_other_number_of_tokens_is_unsupported() {
    let header = "1 100 200 0 122537185339758 6 0 109270082020722 6 12345";
    for count in [0usize, 2, 3, 4, 5, 6, 8, 9, 20] {
        let mut input = String::from(header);
        for _ in 0..count {
            input.push_str(" 7");
        }
        assert_eq!(
            HyleOutput::deserialize(&input),
            Err(DecodeError::UnsupportedOutputShape),
            "{} tokens",
            count
        );
    }
}

#[test]
fn output_without_brackets() {
    let input = SCORE.trim_matches(|c| c == '[' || c == ']');
    assert_eq!(HyleOutput::deserialize(input), HyleOutput::deserialize(SCORE));
}

#[test]
fn output_states_and_hash_are_kept_as_text() {
    let input = "[7 0x1f é 0 24930 2 0 65 1 hash! 18446744073709551615]";
    let output = HyleOutput::deserialize(input).unwrap();
    assert_eq!(output.version, 7);
    assert_eq!(output.initial_state, b"0x1f".to_vec());
    assert_eq!(output.next_state, vec![0xc3, 0xa9]);
    assert_eq!(output.origin, "ab");
    assert_eq!(output.caller, "A");
    assert_eq!(output.tx_hash, b"hash!".to_vec());
    assert_eq!(output.program_outputs.score, Some(u64::MAX));
}

#[test]
fn output_with_long_addresses() {
    let full = "172056260049320939891029190346855500333443451479275960659120490943130722657";
    let input = format!("[2 1 2 1 {full} 6451042 3 0 0 0 9 5]");
    let output = HyleOutput::deserialize(&input).unwrap();
    assert_eq!(output.origin, format!("{}bob", "a".repeat(31)));
    assert_eq!(output.caller, "");
    assert_eq!(output.tx_hash, b"9".to_vec());
    assert_eq!(output.program_outputs.score, Some(5));
}

#[test]
fn output_that_is_too_short_is_unsupported() {
    for input in ["", "[]", "[1]", "[1 2]"] {
        assert_eq!(
            HyleOutput::deserialize(input),
            Err(DecodeError::UnsupportedOutputShape),
            "{:?}",
            input
        );
    }
    // Nothing is left for the transaction's hash.
    let input = "[1 100 200 0 122537185339758 6 0 109270082020722 6]";
    assert_eq!(HyleOutput::deserialize(input), Err(DecodeError::UnsupportedOutputShape));
}

#[test]
fn output_with_a_bad_version_is_unsupported() {
    for version in ["x", "-1", "4294967296", "1.0"] {
        let input = format!("[{version} 100 200 0 24930 2 0 24930 2 12345 42]");
        assert_eq!(
            HyleOutput::deserialize(&input),
            Err(DecodeError::UnsupportedOutputShape),
            "{:?}",
            version
        );
    }
    let input = "[4294967295 100 200 0 24930 2 0 24930 2 12345 42]";
    assert_eq!(HyleOutput::deserialize(input).unwrap().version, u32::MAX);
}

#[test]
fn output_with_a_bad_address_is_an_address_error() {
    // The origin's word is no number.
    let input = "[1 100 200 0 origin 6 0 109270082020722 6 12345 42]";
    assert_eq!(HyleOutput::deserialize(input), Err(DecodeError::AddressDecodeError));
    // The caller's byte array runs past the end.
    let input = "[1 100 200 0 122537185339758 6 5 109270082020722 6 12345 42]";
    assert_eq!(HyleOutput::deserialize(input), Err(DecodeError::AddressDecodeError));
    // Only the fixed states are there.
    let input = "[1 100 200]";
    assert_eq!(HyleOutput::deserialize(input), Err(DecodeError::AddressDecodeError));
    // The sender of the transfer has an odd number of hex digits.
    let input = "[1 100 200 0 24930 2 0 24930 2 12345 0 2657 3 0 418430673765 5 1000]";
    assert_eq!(HyleOutput::deserialize(input), Err(DecodeError::AddressDecodeError));
}

#[test]
fn output_with_a_bad_score_or_amount_is_unsupported() {
    let input = "[1 100 200 0 24930 2 0 24930 2 12345 many]";
    assert_eq!(HyleOutput::deserialize(input), Err(DecodeError::UnsupportedOutputShape));
    let input = "[1 100 200 0 24930 2 0 24930 2 12345 18446744073709551616]";
    assert_eq!(HyleOutput::deserialize(input), Err(DecodeError::UnsupportedOutputShape));
    let input = "[1 100 200 0 24930 2 0 24930 2 12345 0 6451042 3 0 418430673765 5 -1]";
    assert_eq!(HyleOutput::deserialize(input), Err(DecodeError::UnsupportedOutputShape));
}

#[test]
fn transfer_whose_addresses_leave_no_amount_is_rejected() {
    // The sender takes four tokens and the receiver three: nothing is left.
    let input = "[1 100 200 0 24930 2 0 24930 2 12345 1 0 6451042 3 0 418430673765 5]";
    assert_eq!(HyleOutput::deserialize(input), Err(DecodeError::UnsupportedOutputShape));
    // The sender takes five tokens: the receiver has two left.
    let input = "[1 100 200 0 24930 2 0 24930 2 12345 2 0 0 6451042 3 0 5]";
    assert_eq!(HyleOutput::deserialize(input), Err(DecodeError::AddressDecodeError));
}

#[test]
fn event_is_decided_by_the_number_of_tokens() {
    let tokens = vec!["head", "42"];
    assert_eq!(
        decode_event(&tokens, 1),
        Ok(Event { from: None, to: None, amount: None, score: Some(42) })
    );
    let tokens = vec!["0", "6451042", "3", "0", "418430673765", "5", "1000"];
    assert_eq!(
        decode_event(&tokens, 0),
        Ok(Event {
            from: Some("bob".to_string()),
            to: Some("alice".to_string()),
            amount: Some(1000),
            score: None,
        })
    );
    assert_eq!(decode_event(&tokens, 1), Err(DecodeError::UnsupportedOutputShape));
    assert_eq!(decode_event(&tokens, 7), Err(DecodeError::UnsupportedOutputShape));
    assert_eq!(
        decode_event(&tokens, 6),
        Ok(Event { from: None, to: None, amount: None, score: Some(1000) })
    );
}

#[test]
fn event_past_the_end_is_unsupported() {
    let tokens = vec!["42"];
    assert_eq!(decode_event(&tokens, 1), Err(DecodeError::UnsupportedOutputShape));
    assert_eq!(decode_event(&tokens, 2), Err(DecodeError::UnsupportedOutputShape));
    assert_eq!(decode_event(&tokens, usize::MAX), Err(DecodeError::UnsupportedOutputShape));
}

#[test]
fn decoded_event_is_a_score_or_a_transfer() {
    for input in [SCORE, TRANSFER] {
        let event = HyleOutput::deserialize(input).unwrap().program_outputs;
        let score = event.score.is_some()
            && event.from.is_none()
            && event.to.is_none()
            && event.amount.is_none();
        let transfer = event.score.is_none()
            && event.from.is_some()
            && event.to.is_some()
            && event.amount.is_some();
        assert!(score != transfer);
    }
}

#[test]
fn output_decodes_the_same_twice() {
    assert_eq!(HyleOutput::deserialize(TRANSFER), HyleOutput::deserialize(TRANSFER));
}

#[test]
fn items_are_found_at_the_crate_root() {
    let output: Result<cairo_verifier::HyleOutput, cairo_verifier::DecodeError> =
        <cairo_verifier::HyleOutput as cairo_verifier::DeserializableHyleOutput>::deserialize(
            SCORE,
        );
    let event: cairo_verifier::Event = output.unwrap().program_outputs;
    assert_eq!(event.score, Some(42));
    let artifact = cairo_verifier::write_artifact(&[1], &[2], &[3]);
    let sections: cairo_verifier::Sections = cairo_verifier::read_artifact(&artifact).unwrap();
    assert_eq!(sections.program_output, &[3]);
    assert_eq!(
        cairo_verifier::read_frame(&cairo_verifier::write_frame(&[5, 6]), 0),
        Ok((&[5u8, 6][..], 6))
    );
}

#[test]
fn output_with_hexadecimal_tokens_is_rejected() {
    // The origin's count, `6f`, is no decimal number.
    let input = "[1 61 6e 6f 2 6f 72 69 0 6261 5 74786861736831 42]";
    assert_eq!(HyleOutput::deserialize(input), Err(DecodeError::AddressDecodeError));
}

#[test]
fn errors_say_what_went_wrong() {
    assert_eq!(
        DecodeError::TruncatedInput.message(),
        "truncated input: a section runs past the end"
    );
    assert_eq!(
        DecodeError::AddressDecodeError.message(),
        "malformed byte array in the program output"
    );
    assert_eq!(
        DecodeError::UnsupportedOutputShape.message(),
        "unsupported program output: neither a score nor a transfer"
    );
}

#[test]
fn default_event_is_empty() {
    assert_eq!(Event::default(), Event { from: None, to: None, amount: None, score: None });
}

//! The record that a program's output decodes to, and the decoder.

use crate::byte_array::{byte_array, decode_byte_array};
use crate::decimal::{parse_unsigned, unsigned_value};
use crate::error::DecodeError;
use crate::token::{token_views, tokenize, tokens_from, tokens_of};
use crate::word::{decode_word, word_text};
use vstd::prelude::*;
use vstd::string::StrSliceExecFns;
use vstd::utf8::encode_utf8;

verus! {

/// What the program reported: a score, or a transfer between two addresses.
/// A score fills `score` alone; a transfer fills the other three fields.
#[derive(Clone, Debug, PartialEq, Eq)]
pub struct Event {
    /// The sender of a transfer.
    pub from: Option<String>,
    /// The receiver of a transfer.
    pub to: Option<String>,
    /// The amount of a transfer.
    pub amount: Option<u64>,
    /// The score.
    pub score: Option<u64>,
}

/// An event as a mathematical value.
pub ghost struct EventView {
    pub from: Option<Seq<char>>,
    pub to: Option<Seq<char>>,
    pub amount: Option<u64>,
    pub score: Option<u64>,
}

impl EventView {
    /// Whether this is a score and nothing else.
    pub open spec fn is_score(self) -> bool {
        self.score is Some && self.from is None && self.to is None && self.amount is None
    }

    /// Whether this is a transfer and nothing else.
    pub open spec fn is_transfer(self) -> bool {
        self.score is None && self.from is Some && self.to is Some && self.amount is Some
    }

    /// Whether exactly one of the two kinds of event is filled in.
    pub open spec fn wf(self) -> bool {
        self.is_score() || self.is_transfer()
    }
}

/// The event of a score.
pub open spec fn score_event(score: u64) -> EventView {
    EventView { from: None, to: None, amount: None, score: Some(score) }
}

/// The event of a transfer.
pub open spec fn transfer_event(from: Seq<char>, to: Seq<char>, amount: u64) -> EventView {
    EventView { from: Some(from), to: Some(to), amount: Some(amount), score: None }
}

impl View for Event {
    type V = EventView;

    open spec fn view(&self) -> EventView {
        EventView {
            from: match self.from {
                Some(s) => Some(s@),
                None => None,
            },
            to: match self.to {
                Some(s) => Some(s@),
                None => None,
            },
            amount: self.amount,
            score: self.score,
        }
    }
}

impl Default for Event {
    /// The event with no field filled in.
    fn default() -> (e: Event)
        ensures
            e@ == (EventView { from: None, to: None, amount: None, score: None }),
    {
        Event { from: None, to: None, amount: None, score: None }
    }
}

/// The decoded output of one run of the program.
#[derive(Clone, Debug, PartialEq, Eq)]
pub struct HyleOutput {
    /// Version of the output's layout.
    pub version: u32,
    /// The state before the run: the characters of its token, as bytes.
    pub initial_state: Vec<u8>,
    /// The state after the run: the characters of its token, as bytes.
    pub next_state: Vec<u8>,
    /// The address the transaction came from.
    pub origin: String,
    /// The address of the caller.
    pub caller: String,
    /// Always zero: the output does not carry a block number.
    pub block_number: u64,
    /// Always zero: the output does not carry a block time.
    pub block_time: u64,
    /// The transaction's hash: the characters of its token, as bytes.
    pub tx_hash: Vec<u8>,
    /// What the program reported.
    pub program_outputs: Event,
}

/// A decoded output as a mathematical value.
pub ghost struct HyleOutputView {
    pub version: u32,
    pub initial_state: Seq<u8>,
    pub next_state: Seq<u8>,
    pub origin: Seq<char>,
    pub caller: Seq<char>,
    pub block_number: u64,
    pub block_time: u64,
    pub tx_hash: Seq<u8>,
    pub program_outputs: EventView,
}

impl View for HyleOutput {
    type V = HyleOutputView;

    open spec fn view(&self) -> HyleOutputView {
        HyleOutputView {
            version: self.version,
            initial_state: self.initial_state@,
            next_state: self.next_state@,
            origin: self.origin@,
            caller: self.caller@,
            block_number: self.block_number,
            block_time: self.block_time,
            tx_hash: self.tx_hash@,
            program_outputs: self.program_outputs@,
        }
    }
}

/// The fields that every output starts with, and how many tokens they take.
pub ghost struct HeaderView {
    pub version: u32,
    pub initial_state: Seq<u8>,
    pub next_state: Seq<u8>,
    pub origin: Seq<char>,
    pub caller: Seq<char>,
    pub tx_hash: Seq<u8>,
    pub len: nat,
}

/// The fixed fields at the front of a token stream: the version, the two
/// states, the origin and the caller as byte arrays, and the transaction's
/// hash.
pub open spec fn decoded_header(tokens: Seq<Seq<char>>) -> Result<HeaderView, DecodeError> {
    if tokens.len() < 3 {
        Err(DecodeError::UnsupportedOutputShape)
    } else {
        match unsigned_value(tokens[0], u32::MAX as nat) {
            None => Err(DecodeError::UnsupportedOutputShape),
            Some(version) => match byte_array(tokens.skip(3)) {
                None => Err(DecodeError::AddressDecodeError),
                Some((origin, origin_len)) => match byte_array(
                    tokens.skip(3 + origin_len as int),
                ) {
                    None => Err(DecodeError::AddressDecodeError),
                    Some((caller, caller_len)) => {
                        let at = 3 + origin_len + caller_len;
                        if at >= tokens.len() {
                            Err(DecodeError::UnsupportedOutputShape)
                        } else {
                            Ok(
                                HeaderView {
                                    version: version as u32,
                                    initial_state: encode_utf8(tokens[1]),
                                    next_state: encode_utf8(tokens[2]),
                                    origin,
                                    caller,
                                    tx_hash: encode_utf8(tokens[at as int]),
                                    len: (at + 1) as nat,
                                },
                            )
                        }
                    },
                },
            },
        }
    }
}

/// The event that the tokens behind the fixed fields hold: one token is a
/// score, seven are a transfer, and no other number of tokens is accepted.
pub open spec fn decoded_event(rest: Seq<Seq<char>>) -> Result<EventView, DecodeError> {
    if rest.len() == 1 {
        match unsigned_value(rest[0], u64::MAX as nat) {
            None => Err(DecodeError::UnsupportedOutputShape),
            Some(score) => Ok(score_event(score as u64)),
        }
    } else if rest.len() == 7 {
        match byte_array(rest) {
            None => Err(DecodeError::AddressDecodeError),
            Some((from, from_len)) => match byte_array(rest.skip(from_len as int)) {
                None => Err(DecodeError::AddressDecodeError),
                Some((to, to_len)) => {
                    let at = from_len + to_len;
                    if at >= rest.len() {
                        Err(DecodeError::UnsupportedOutputShape)
                    } else {
                        match unsigned_value(rest[at as int], u64::MAX as nat) {
                            None => Err(DecodeError::UnsupportedOutputShape),
                            Some(amount) => Ok(transfer_event(from, to, amount as u64)),
                        }
                    }
                },
            },
        }
    } else {
        Err(DecodeError::UnsupportedOutputShape)
    }
}

/// The output that a token stream decodes to.
pub open spec fn decoded_tokens(tokens: Seq<Seq<char>>) -> Result<HyleOutputView, DecodeError> {
    match decoded_header(tokens) {
        Err(e) => Err(e),
        Ok(header) => match decoded_event(tokens.skip(header.len as int)) {
            Err(e) => Err(e),
            Ok(event) => Ok(
                HyleOutputView {
                    version: header.version,
                    initial_state: header.initial_state,
                    next_state: header.next_state,
                    origin: header.origin,
                    caller: header.caller,
                    block_number: 0,
                    block_time: 0,
                    tx_hash: header.tx_hash,
                    program_outputs: event,
                },
            ),
        },
    }
}

/// The output that a program's raw output decodes to.
pub open spec fn decoded_output(input: Seq<char>) -> Result<HyleOutputView, DecodeError> {
    decoded_tokens(tokens_of(input))
}

/// The number of tokens behind the fixed fields decides what the output is:
/// one token that is a number gives a score, one token never gives a
/// transfer, seven never give a score, and any other number of tokens gives
/// `UnsupportedOutputShape`. A decoded event is a score or a transfer, never a
/// mixture or a part of one.
pub proof fn lemma_shape_dispatch(tokens: Seq<Seq<char>>)
    requires
        decoded_header(tokens) is Ok,
    ensures
        ({
            let rest = tokens.skip(decoded_header(tokens)->Ok_0.len as int);
            let decoded = decoded_tokens(tokens);
            &&& rest.len() == 1 ==> match unsigned_value(rest[0], u64::MAX as nat) {
                Some(score) => decoded is Ok && decoded->Ok_0.program_outputs == score_event(
                    score as u64,
                ),
                None => decoded == Err::<HyleOutputView, DecodeError>(
                    DecodeError::UnsupportedOutputShape,
                ),
            }
            &&& rest.len() == 7 && decoded is Ok ==> decoded->Ok_0.program_outputs.is_transfer()
            &&& rest.len() != 1 && rest.len() != 7 ==> decoded == Err::<
                HyleOutputView,
                DecodeError,
            >(DecodeError::UnsupportedOutputShape)
            &&& decoded is Ok ==> decoded->Ok_0.program_outputs.wf() && (rest.len() == 1
                || rest.len() == 7)
        }),
{
}

/// A transfer's two addresses are byte arrays of three tokens each: a count
/// of zero, one word and the word's length.
pub proof fn lemma_transfer_layout(rest: Seq<Seq<char>>)
    requires
        rest.len() == 7,
        decoded_event(rest) is Ok,
    ensures
        ({
            &&& byte_array(rest) matches Some((from, from_len))
            &&& from_len == 3
            &&& byte_array(rest.skip(3)) matches Some((to, to_len))
            &&& to_len == 3
            &&& unsigned_value(rest[6], u64::MAX as nat) matches Some(amount)
            &&& decoded_event(rest) == Ok::<EventView, DecodeError>(
                transfer_event(from, to, amount as u64),
            )
        }),
{
}

/// Decodes the event that the tokens from `tokens[start]` on hold.
pub fn decode_event(tokens: &Vec<&str>, start: usize) -> (r: Result<Event, DecodeError>)
    ensures
        match decoded_event(tokens_from(token_views(tokens@), start as int)) {
            Ok(event) => r matches Ok(e) && e@ == event && e@.wf(),
            Err(error) => r matches Err(e) && e == error,
        },
{
    let ghost all = token_views(tokens@);
    let ghost rest = tokens_from(all, start as int);
    let total: usize = tokens.len();
    if start > total {
        return Err(DecodeError::UnsupportedOutputShape);
    }
    let remaining: usize = total - start;
    if remaining == 1 {
        assert(rest[0] == tokens@[start as int]@);
        match parse_unsigned(tokens[start], u64::MAX) {
            Some(score) => Ok(Event { from: None, to: None, amount: None, score: Some(score) }),
            None => Err(DecodeError::UnsupportedOutputShape),
        }
    } else if remaining == 7 {
        let (from, mid) = match decode_byte_array(tokens, start) {
            Ok(found) => found,
            Err(e) => return Err(e),
        };
        assert(rest.skip(mid - start) =~= all.skip(mid as int));
        let (to, at) = match decode_byte_array(tokens, mid) {
            Ok(found) => found,
            Err(e) => return Err(e),
        };
        if at >= total {
            return Err(DecodeError::UnsupportedOutputShape);
        }
        assert(rest[at - start] == tokens@[at as int]@);
        match parse_unsigned(tokens[at], u64::MAX) {
            Some(amount) => Ok(
                Event { from: Some(from), to: Some(to), amount: Some(amount), score: None },
            ),
            None => Err(DecodeError::UnsupportedOutputShape),
        }
    } else {
        Err(DecodeError::UnsupportedOutputShape)
    }
}

/// Decoding of a program's output into a record.
pub trait DeserializableHyleOutput: Sized + View<V = HyleOutputView> {
    /// Decodes one word of a byte array: the token is read as a decimal
    /// integer, written in hexadecimal, and the bytes that the digits spell
    /// are read as UTF-8.
    fn i_to_w(s: String) -> (r: Result<String, DecodeError>)
        ensures
            match word_text(s@) {
                Some(text) => r matches Ok(word) && word@ == text,
                None => r matches Err(DecodeError::AddressDecodeError),
            },
    ;

    /// Takes the byte array at the front of `data` off it and returns its
    /// text. On an error `data` is left as it was.
    fn deserialize_cairo_bytesarray(data: &mut Vec<&str>) -> (r: Result<String, DecodeError>)
        ensures
            match byte_array(token_views(old(data)@)) {
                Some((text, len)) => r matches Ok(s) && s@ == text && final(data)@ == old(
                    data,
                )@.skip(len as int),
                None => r matches Err(DecodeError::AddressDecodeError) && final(data)@ == old(
                    data,
                )@,
            },
    ;

    /// Decodes a program's raw output: the tokens between one pair of square
    /// brackets, split on whitespace.
    fn deserialize(input: &str) -> (r: Result<Self, DecodeError>)
        ensures
            match decoded_output(input@) {
                Ok(output) => r matches Ok(o) && o@ == output && output.program_outputs.wf(),
                Err(error) => r matches Err(e) && e == error,
            },
    ;
}

impl DeserializableHyleOutput for HyleOutput {
    fn i_to_w(s: String) -> (r: Result<String, DecodeError>) {
        decode_word(s.as_str())
    }

    fn deserialize_cairo_bytesarray(data: &mut Vec<&str>) -> (r: Result<String, DecodeError>) {
        assert(token_views(data@).skip(0) =~= token_views(data@));
        let (text, next) = match decode_byte_array(data, 0) {
            Ok(found) => found,
            Err(e) => return Err(e),
        };
        let rest = data.split_off(next);
        *data = rest;
        assert(data@ =~= old(data)@.skip(next as int));
        Ok(text)
    }

    fn deserialize(input: &str) -> (r: Result<HyleOutput, DecodeError>) {
        let tokens: Vec<&str> = tokenize(input);
        let ghost all = token_views(tokens@);
        let total: usize = tokens.len();
        if total < 3 {
            return Err(DecodeError::UnsupportedOutputShape);
        }
        let version: u32 = match parse_unsigned(tokens[0], 0xffff_ffff) {
            Some(version) => version as u32,
            None => return Err(DecodeError::UnsupportedOutputShape),
        };
        let initial_state: Vec<u8> = tokens[1].as_bytes_vec();
        let next_state: Vec<u8> = tokens[2].as_bytes_vec();
        let (origin, after_origin) = match decode_byte_array(&tokens, 3) {
            Ok(found) => found,
            Err(e) => return Err(e),
        };
        let (caller, at) = match decode_byte_array(&tokens, after_origin) {
            Ok(found) => found,
            Err(e) => return Err(e),
        };
        if at >= total {
            return Err(DecodeError::UnsupportedOutputShape);
        }
        let tx_hash: Vec<u8> = tokens[at].as_bytes_vec();
        let program_outputs: Event = match decode_event(&tokens, at + 1) {
            Ok(event) => event,
            Err(e) => return Err(e),
        };
        Ok(
            HyleOutput {
                version,
                initial_state,
                next_state,
                origin,
                caller,
                block_number: 0,
                block_time: 0,
                tx_hash,
                program_outputs,
            },
        )
    }
}

} // verus!

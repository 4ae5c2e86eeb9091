//! The artifact container: the proof and the public inputs as two frames,
//! then the serialized program-output record, which runs to the end.

use crate::error::DecodeError;
use crate::frame::{frame_at, framed, le_bytes, lemma_le_round_trip, read_frame, write_frame};
use vstd::prelude::*;
use vstd::slice::slice_subrange;

verus! {

/// Fewest bytes an artifact can have: two length prefixes.
pub const MIN_ARTIFACT_LEN: usize = 8;

/// The three sections of an artifact, borrowed from its bytes.
#[derive(Clone, Copy, Debug)]
pub struct Sections<'a> {
    /// The serialized proof.
    pub proof: &'a [u8],
    /// The serialized public inputs.
    pub public_inputs: &'a [u8],
    /// The serialized program-output record.
    pub program_output: &'a [u8],
}

/// The bytes of the artifact with the given sections.
pub open spec fn artifact_bytes(
    proof: Seq<u8>,
    public_inputs: Seq<u8>,
    program_output: Seq<u8>,
) -> Seq<u8> {
    framed(proof) + framed(public_inputs) + program_output
}

/// The sections of an artifact, in the order proof, public inputs, program
/// output. `None` where one of the two frames runs past the end.
pub open spec fn artifact_sections(bytes: Seq<u8>) -> Option<(Seq<u8>, Seq<u8>, Seq<u8>)> {
    match frame_at(bytes, 0) {
        None => None,
        Some((proof, mid)) => match frame_at(bytes, mid) {
            None => None,
            Some((public_inputs, end)) => Some((proof, public_inputs, bytes.skip(end))),
        },
    }
}

/// A frame that was written is read back as the payload it was written from.
pub proof fn lemma_frame_round_trip(payload: Seq<u8>)
    requires
        payload.len() <= u32::MAX,
    ensures
        frame_at(framed(payload), 0) == Some((payload, (4 + payload.len()) as int)),
{
    lemma_frame_round_trip_within(Seq::empty(), payload, Seq::empty());
    assert(Seq::<u8>::empty() + framed(payload) + Seq::<u8>::empty() =~= framed(payload));
}

/// A frame written anywhere in a buffer is read back from where it starts.
pub proof fn lemma_frame_round_trip_within(before: Seq<u8>, payload: Seq<u8>, after: Seq<u8>)
    requires
        payload.len() <= u32::MAX,
    ensures
        frame_at(before + framed(payload) + after, before.len() as int) == Some(
            (payload, (before.len() + 4 + payload.len()) as int),
        ),
{
    let buffer = before + framed(payload) + after;
    let offset = before.len() as int;
    lemma_le_round_trip(payload.len());
    assert(buffer.subrange(offset, offset + 4) =~= le_bytes(payload.len()));
    assert(buffer.subrange(offset + 4, offset + 4 + payload.len()) =~= payload);
}

/// Reading an artifact gives back the sections it was written from.
pub proof fn lemma_artifact_round_trip(
    proof: Seq<u8>,
    public_inputs: Seq<u8>,
    program_output: Seq<u8>,
)
    requires
        proof.len() <= u32::MAX,
        public_inputs.len() <= u32::MAX,
    ensures
        artifact_sections(artifact_bytes(proof, public_inputs, program_output)) == Some(
            (proof, public_inputs, program_output),
        ),
{
    let bytes = artifact_bytes(proof, public_inputs, program_output);
    let mid = 4 + proof.len();
    let end = mid + 4 + public_inputs.len();
    lemma_le_round_trip(proof.len());
    lemma_le_round_trip(public_inputs.len());
    lemma_frame_round_trip_within(Seq::empty(), proof, framed(public_inputs) + program_output);
    assert(bytes =~= Seq::<u8>::empty() + framed(proof) + (framed(public_inputs) + program_output));
    lemma_frame_round_trip_within(framed(proof), public_inputs, program_output);
    assert(framed(proof).len() == mid);
    assert(bytes.skip(end as int) =~= program_output);
}

/// A buffer too short for two length prefixes is no artifact.
pub proof fn lemma_short_artifact(bytes: Seq<u8>)
    requires
        bytes.len() < 8,
    ensures
        artifact_sections(bytes) is None,
{
}

/// A frame that declares no bytes is valid wherever its prefix fits, and its
/// payload is empty.
pub proof fn lemma_empty_frame(buffer: Seq<u8>, offset: int)
    requires
        0 <= offset,
        offset + 4 <= buffer.len(),
        buffer.subrange(offset, offset + 4) == le_bytes(0),
    ensures
        frame_at(buffer, offset) == Some((Seq::<u8>::empty(), offset + 4)),
{
    lemma_le_round_trip(0);
    assert(buffer.subrange(offset + 4, offset + 4) =~= Seq::<u8>::empty());
}

/// Writes the artifact: the proof and the public inputs as frames, in that
/// order, then the program-output record as it is.
pub fn write_artifact(proof: &[u8], public_inputs: &[u8], program_output: &[u8]) -> (out: Vec<u8>)
    requires
        proof@.len() <= u32::MAX,
        public_inputs@.len() <= u32::MAX,
    ensures
        out@ == artifact_bytes(proof@, public_inputs@, program_output@),
{
    let mut out: Vec<u8> = write_frame(proof);
    let mut second: Vec<u8> = write_frame(public_inputs);
    out.append(&mut second);
    out.extend_from_slice(program_output);
    out
}

/// Splits an artifact into its sections: two frames, then all that is left.
pub fn read_artifact<'a>(bytes: &'a [u8]) -> (r: Result<Sections<'a>, DecodeError>)
    ensures
        match artifact_sections(bytes@) {
            Some((proof, public_inputs, program_output)) => r matches Ok(s) && s.proof@ == proof
                && s.public_inputs@ == public_inputs && s.program_output@ == program_output,
            None => r matches Err(DecodeError::TruncatedInput),
        },
        bytes@.len() < MIN_ARTIFACT_LEN ==> (r matches Err(DecodeError::TruncatedInput)),
{
    if bytes.len() < MIN_ARTIFACT_LEN {
        return Err(DecodeError::TruncatedInput);
    }
    let (proof, mid) = match read_frame(bytes, 0) {
        Ok(frame) => frame,
        Err(e) => return Err(e),
    };
    let (public_inputs, end) = match read_frame(bytes, mid) {
        Ok(frame) => frame,
        Err(e) => return Err(e),
    };
    let program_output = slice_subrange(bytes, end, bytes.len());
    Ok(Sections { proof, public_inputs, program_output })
}

} // verus!

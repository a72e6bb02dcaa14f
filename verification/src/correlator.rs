//! The response correlator: frames of the inbound half are consumed one by
//! one; keep-alive pongs are skipped, text frames are decoded, empty and
//! foreign acknowledgements are discarded, and the first snapshot payload
//! ends the drain. A stream that ends first fails without the artifact.
use crate::codec_in::{
    decode_response, lemma_decode_render_empty, lemma_decode_render_snapshot, render_snapshot,
    render_success_empty, spec_decode_response,
};
use crate::protocol::{
    resp_model, OkModelingResponse, OkResponseData, ProtocolError, RespDecode, RespModel,
};
use vstd::prelude::*;

verus! {

/// One inbound frame, as the surrounding channel hands it over.
#[derive(Clone, PartialEq, Eq, Debug)]
pub enum Frame {
    Text(Vec<u8>),
    Pong,
    Binary,
    Ping,
    Close,
}

/// Mathematical model of a frame.
pub enum FrameModel {
    Text(Seq<u8>),
    Pong,
    Binary,
    Ping,
    Close,
}

pub open spec fn frame_model(f: &Frame) -> FrameModel {
    match f {
        Frame::Text(t) => FrameModel::Text(t@),
        Frame::Pong => FrameModel::Pong,
        Frame::Binary => FrameModel::Binary,
        Frame::Ping => FrameModel::Ping,
        Frame::Close => FrameModel::Close,
    }
}

pub open spec fn frames_model(fs: Seq<Frame>) -> Seq<FrameModel> {
    fs.map_values(|f: Frame| frame_model(&f))
}

/// Model of a step failure.
pub enum ErrSpec {
    Malformed,
    UnexpectedKind,
    Remote(Seq<u8>),
}

/// Model of what one frame does to the drain.
pub enum StepSpec {
    Skip,
    Done(Seq<u8>),
    Fail(ErrSpec),
}

/// What one frame decides: pongs and non-snapshot payloads are skipped, a
/// snapshot payload is terminal, anything else fails.
pub open spec fn spec_step(f: FrameModel) -> StepSpec {
    match f {
        FrameModel::Text(t) => match spec_decode_response(t) {
            RespDecode::Payload(RespModel::Empty) => StepSpec::Skip,
            RespDecode::Payload(RespModel::Snapshot(d)) => StepSpec::Done(d),
            RespDecode::Payload(RespModel::Other) => StepSpec::Skip,
            RespDecode::Remote(m) => StepSpec::Fail(ErrSpec::Remote(m)),
            RespDecode::Malformed => StepSpec::Fail(ErrSpec::Malformed),
        },
        FrameModel::Pong => StepSpec::Skip,
        _ => StepSpec::Fail(ErrSpec::UnexpectedKind),
    }
}

/// Outcome of one correlator step.
#[derive(Clone, PartialEq, Eq, Debug)]
pub enum StepOutcome {
    Skip,
    Done(Vec<u8>),
    Fail(ProtocolError),
}

/// Decide what one inbound frame means for the session.
pub fn correlator_step(f: &Frame) -> (r: StepOutcome)
    ensures
        match r {
            StepOutcome::Skip => spec_step(frame_model(f)) == StepSpec::Skip,
            StepOutcome::Done(d) => spec_step(frame_model(f)) == StepSpec::Done(d@),
            StepOutcome::Fail(e) => match e {
                ProtocolError::MalformedFrame => spec_step(frame_model(f)) == StepSpec::Fail(
                    ErrSpec::Malformed,
                ),
                ProtocolError::UnexpectedFrameKind => spec_step(frame_model(f)) == StepSpec::Fail(
                    ErrSpec::UnexpectedKind,
                ),
                ProtocolError::RemoteError(m) => spec_step(frame_model(f)) == StepSpec::Fail(
                    ErrSpec::Remote(m@),
                ),
                _ => false,
            },
        },
{
    match f {
        Frame::Text(t) => match decode_response(t) {
            Ok(d) => match d {
                OkResponseData::Modeling { modeling_response } => match modeling_response {
                    OkModelingResponse::Empty => StepOutcome::Skip,
                    OkModelingResponse::TakeSnapshot { data } => StepOutcome::Done(data),
                },
                OkResponseData::Other => StepOutcome::Skip,
            },
            Err(e) => StepOutcome::Fail(e),
        },
        Frame::Pong => StepOutcome::Skip,
        Frame::Binary => StepOutcome::Fail(ProtocolError::UnexpectedFrameKind),
        Frame::Ping => StepOutcome::Fail(ProtocolError::UnexpectedFrameKind),
        Frame::Close => StepOutcome::Fail(ProtocolError::UnexpectedFrameKind),
    }
}

/// Model of a finished drain.
pub enum DrainSpec {
    Artifact(Seq<u8>),
    Failed(ErrSpec),
    Ended,
}

/// Drain a frame sequence: the outcome and how many frames were read. Frames
/// after the terminal one are never touched.
pub open spec fn spec_drain(frames: Seq<FrameModel>) -> (DrainSpec, int)
    decreases frames.len(),
{
    if frames.len() == 0 {
        (DrainSpec::Ended, 0)
    } else {
        match spec_step(frames[0]) {
            StepSpec::Skip => {
                let rest = spec_drain(frames.drop_first());
                (rest.0, rest.1 + 1)
            },
            StepSpec::Done(d) => (DrainSpec::Artifact(d), 1),
            StepSpec::Fail(e) => (DrainSpec::Failed(e), 1),
        }
    }
}

/// Drain a finite inbound sequence, returning the session outcome and the
/// number of frames consumed.
pub fn drain_frames(frames: &Vec<Frame>) -> (r: (Result<Vec<u8>, ProtocolError>, usize))
    ensures
        ({
            let dm = spec_drain(frames_model(frames@));
            r.1 == dm.1 && match r.0 {
                Ok(d) => dm.0 == DrainSpec::Artifact(d@),
                Err(e) => match e {
                    ProtocolError::StreamEndedWithoutArtifact => dm.0 == DrainSpec::Ended,
                    ProtocolError::MalformedFrame => dm.0 == DrainSpec::Failed(ErrSpec::Malformed),
                    ProtocolError::UnexpectedFrameKind => dm.0 == DrainSpec::Failed(
                        ErrSpec::UnexpectedKind,
                    ),
                    ProtocolError::RemoteError(m) => dm.0 == DrainSpec::Failed(
                        ErrSpec::Remote(m@),
                    ),
                    ProtocolError::Timeout => false,
                },
            }
        }),
{
    let ghost fm = frames_model(frames@);
    proof {
        assert(fm.skip(0) =~= fm);
    }
    let mut i: usize = 0;
    let n: usize = frames.len();
    while i < n
        invariant
            i <= n,
            n == frames@.len(),
            fm == frames_model(frames@),
            fm.len() == n,
            spec_drain(fm).0 == spec_drain(fm.skip(i as int)).0,
            spec_drain(fm).1 == spec_drain(fm.skip(i as int)).1 + i,
        decreases n - i,
    {
        let step = correlator_step(&frames[i]);
        proof {
            assert(fm.skip(i as int).len() == n - i);
            assert(fm.skip(i as int)[0] == fm[i as int]);
            assert(fm[i as int] == frame_model(&frames@[i as int]));
            assert(fm.skip(i as int).drop_first() =~= fm.skip(i + 1));
        }
        match step {
            StepOutcome::Skip => {},
            StepOutcome::Done(d) => {
                return (Ok(d), i + 1);
            },
            StepOutcome::Fail(e) => {
                return (Err(e), i + 1);
            },
        }
        i = i + 1;
    }
    proof {
        assert(fm.skip(n as int) =~= Seq::<FrameModel>::empty());
    }
    (Err(ProtocolError::StreamEndedWithoutArtifact), n)
}

/// A stream of `n` empty acknowledgements followed by one snapshot frame: the
/// drain consumes exactly `n + 1` frames and returns the payload unchanged;
/// whatever follows the snapshot is never read.
pub proof fn lemma_drain_acks_then_snapshot(frames: Seq<FrameModel>, n: int, data: Seq<u8>)
    requires
        0 <= n,
        n < frames.len(),
        forall|k: int|
            0 <= k < n ==> #[trigger] frames[k] == FrameModel::Text(render_success_empty()),
        frames[n] == FrameModel::Text(render_snapshot(data)),
    ensures
        spec_drain(frames) == (DrainSpec::Artifact(data), n + 1),
    decreases n,
{
    lemma_decode_render_snapshot(data);
    if n == 0 {
        assert(spec_step(frames[0]) == StepSpec::Done(data));
    } else {
        lemma_decode_render_empty();
        assert(spec_step(frames[0]) == StepSpec::Skip);
        let rest = frames.drop_first();
        assert(forall|k: int|
            0 <= k < n - 1 ==> #[trigger] rest[k] == FrameModel::Text(render_success_empty()));
        assert(rest[n - 1] == frames[n]);
        lemma_drain_acks_then_snapshot(rest, n - 1, data);
    }
}

/// A stream that ends before any snapshot frame: when every frame only yields
/// a skipped acknowledgement, the whole stream is read and the drain ends
/// without the artifact.
pub proof fn lemma_drain_ends_without_artifact(frames: Seq<FrameModel>)
    requires
        forall|k: int| 0 <= k < frames.len() ==> spec_step(#[trigger] frames[k]) == StepSpec::Skip,
    ensures
        spec_drain(frames) == (DrainSpec::Ended, frames.len() as int),
    decreases frames.len(),
{
    if frames.len() > 0 {
        let rest = frames.drop_first();
        assert(forall|k: int|
            0 <= k < rest.len() ==> spec_step(#[trigger] rest[k]) == StepSpec::Skip);
        lemma_drain_ends_without_artifact(rest);
    }
}

} // verus!

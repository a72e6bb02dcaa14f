//! The data model of the modeling session: commands, the outbound envelope,
//! the inbound response payloads and the protocol error taxonomy.
use vstd::prelude::*;

verus! {

/// A point with integer coordinates. The remote schema carries 64-bit floats;
/// this client only ever sends whole coordinates, so the library models a
/// point by its integer components.
#[derive(Clone, Copy, PartialEq, Eq, Structural, Debug)]
pub struct Point3 {
    pub x: i64,
    pub y: i64,
    pub z: i64,
}

/// One path segment; only straight lines are used here.
#[derive(Clone, Copy, PartialEq, Eq, Structural, Debug)]
pub enum PathSegment {
    Line { end: Point3, relative: bool },
}

/// The raster format requested for the snapshot artifact.
#[derive(Clone, Copy, PartialEq, Eq, Structural, Debug)]
pub enum RasterFormat {
    Png,
}

/// One modeling command of the subset this client sends.
#[derive(Clone, Copy, PartialEq, Eq, Structural, Debug)]
pub enum Command {
    StartPath,
    MovePathPen { path: u128, to: Point3 },
    ExtendPath { path: u128, segment: PathSegment },
    ClosePath { path_id: u128 },
    Extrude { target: u128, distance: i64, cap: bool },
    TakeSnapshot { format: RasterFormat },
}

/// The outbound wire envelope: one command paired with its fresh correlation
/// identifier (a 128-bit value, rendered as 32 hexadecimal digits).
#[derive(Clone, Copy, PartialEq, Eq, Structural, Debug)]
pub struct OutboundMessage {
    pub cmd: Command,
    pub cmd_id: u128,
}

/// The per-command result inside a successful modeling response.
#[derive(Clone, PartialEq, Eq, Debug)]
pub enum OkModelingResponse {
    Empty,
    TakeSnapshot { data: Vec<u8> },
}

/// The payload of a successful inbound envelope. Responses of subsystems
/// other than modeling are carried as `Other` and discarded by the correlator.
#[derive(Clone, PartialEq, Eq, Debug)]
pub enum OkResponseData {
    Modeling { modeling_response: OkModelingResponse },
    Other,
}

/// Protocol-level failures of the receive path.
#[derive(Clone, PartialEq, Eq, Debug)]
pub enum ProtocolError {
    MalformedFrame,
    UnexpectedFrameKind,
    RemoteError(Vec<u8>),
    StreamEndedWithoutArtifact,
    Timeout,
}

/// Mathematical model of a successful response payload.
pub enum RespModel {
    Empty,
    Snapshot(Seq<u8>),
    Other,
}

/// Mathematical model of what decoding one inbound text frame yields.
pub enum RespDecode {
    Payload(RespModel),
    Remote(Seq<u8>),
    Malformed,
}

/// The model of an executable response payload.
pub open spec fn resp_model(d: &OkResponseData) -> RespModel {
    match d {
        OkResponseData::Modeling { modeling_response } => match modeling_response {
            OkModelingResponse::Empty => RespModel::Empty,
            OkModelingResponse::TakeSnapshot { data } => RespModel::Snapshot(data@),
        },
        OkResponseData::Other => RespModel::Other,
    }
}

} // verus!

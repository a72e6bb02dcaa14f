//! The command sequencer: the ordered plan of modeling commands that draws a
//! square of half-width `w`, extrudes it into a cube of side `2 * w`, and
//! requests a PNG snapshot. Each message carries its own correlation
//! identifier; the first one doubles as the path's identifier.
use crate::codec_out::{lemma_request_round_trip, spec_encode_request, spec_parse_request};
use crate::protocol::{Command, OutboundMessage, PathSegment, Point3, RasterFormat};
use vstd::prelude::*;

verus! {

/// The pen's start corner `(-w, -w, -w)`.
pub open spec fn start_corner(w: i64) -> Point3 {
    Point3 { x: (-(w as int)) as i64, y: (-(w as int)) as i64, z: (-(w as int)) as i64 }
}

/// The four corners the boundary visits in order, ending back at the start.
pub open spec fn square_corner(w: i64, k: int) -> Point3
    recommends
        0 <= k < 4,
{
    if k == 0 {
        Point3 { x: w, y: (-(w as int)) as i64, z: (-(w as int)) as i64 }
    } else if k == 1 {
        Point3 { x: w, y: w, z: (-(w as int)) as i64 }
    } else if k == 2 {
        Point3 { x: (-(w as int)) as i64, y: w, z: (-(w as int)) as i64 }
    } else {
        start_corner(w)
    }
}

pub open spec fn extend_line(path: u128, end: Point3) -> Command {
    Command::ExtendPath { path, segment: PathSegment::Line { end, relative: false } }
}

/// The nine messages of one drawing session, in order: start the path, move
/// the pen, draw the four sides, close the path, extrude, take the snapshot.
/// `ids[0]` serves both as the first correlation identifier and as the path
/// identifier every later path command references.
pub open spec fn spec_cube_plan(w: i64, ids: Seq<u128>) -> Seq<OutboundMessage>
    recommends
        ids.len() == 9,
        0 < w <= i64::MAX / 2,
{
    seq![
        OutboundMessage { cmd: Command::StartPath, cmd_id: ids[0] },
        OutboundMessage {
            cmd: Command::MovePathPen { path: ids[0], to: start_corner(w) },
            cmd_id: ids[1],
        },
        OutboundMessage { cmd: extend_line(ids[0], square_corner(w, 0)), cmd_id: ids[2] },
        OutboundMessage { cmd: extend_line(ids[0], square_corner(w, 1)), cmd_id: ids[3] },
        OutboundMessage { cmd: extend_line(ids[0], square_corner(w, 2)), cmd_id: ids[4] },
        OutboundMessage { cmd: extend_line(ids[0], square_corner(w, 3)), cmd_id: ids[5] },
        OutboundMessage { cmd: Command::ClosePath { path_id: ids[0] }, cmd_id: ids[6] },
        OutboundMessage {
            cmd: Command::Extrude {
                target: ids[0],
                distance: (2 * (w as int)) as i64,
                cap: true,
            },
            cmd_id: ids[7],
        },
        OutboundMessage {
            cmd: Command::TakeSnapshot { format: RasterFormat::Png },
            cmd_id: ids[8],
        },
    ]
}

/// Build the session's ordered messages for half-width `w` from nine fresh
/// identifiers.
pub fn build_cube_plan(w: i64, ids: &Vec<u128>) -> (r: Vec<OutboundMessage>)
    requires
        0 < w <= i64::MAX / 2,
        ids@.len() == 9,
    ensures
        r@ == spec_cube_plan(w, ids@),
{
    let neg: i64 = -w;
    let start = Point3 { x: neg, y: neg, z: neg };
    let path = ids[0];
    let mut v: Vec<OutboundMessage> = Vec::new();
    v.push(OutboundMessage { cmd: Command::StartPath, cmd_id: path });
    v.push(OutboundMessage { cmd: Command::MovePathPen { path, to: start }, cmd_id: ids[1] });
    v.push(
        OutboundMessage {
            cmd: Command::ExtendPath {
                path,
                segment: PathSegment::Line {
                    end: Point3 { x: w, y: neg, z: neg },
                    relative: false,
                },
            },
            cmd_id: ids[2],
        },
    );
    v.push(
        OutboundMessage {
            cmd: Command::ExtendPath {
                path,
                segment: PathSegment::Line { end: Point3 { x: w, y: w, z: neg }, relative: false },
            },
            cmd_id: ids[3],
        },
    );
    v.push(
        OutboundMessage {
            cmd: Command::ExtendPath {
                path,
                segment: PathSegment::Line {
                    end: Point3 { x: neg, y: w, z: neg },
                    relative: false,
                },
            },
            cmd_id: ids[4],
        },
    );
    v.push(
        OutboundMessage {
            cmd: Command::ExtendPath {
                path,
                segment: PathSegment::Line { end: start, relative: false },
            },
            cmd_id: ids[5],
        },
    );
    v.push(OutboundMessage { cmd: Command::ClosePath { path_id: path }, cmd_id: ids[6] });
    v.push(
        OutboundMessage {
            cmd: Command::Extrude { target: path, distance: 2 * w, cap: true },
            cmd_id: ids[7],
        },
    );
    v.push(
        OutboundMessage { cmd: Command::TakeSnapshot { format: RasterFormat::Png }, cmd_id: ids[8] },
    );
    proof {
        assert(v@ =~= spec_cube_plan(w, ids@));
    }
    v
}

/// The drawn square closes: the last segment ends exactly at the pen's start
/// corner `(-w, -w, -w)`, for every positive half-width.
pub proof fn lemma_square_closed(w: i64, ids: Seq<u128>)
    requires
        0 < w <= i64::MAX / 2,
        ids.len() == 9,
    ensures
        spec_cube_plan(w, ids)[5].cmd == extend_line(ids[0], start_corner(w)),
        spec_cube_plan(w, ids)[1].cmd == (Command::MovePathPen { path: ids[0], to: start_corner(w) }),
        square_corner(w, 3) == start_corner(w),
{
}

/// The extrusion distance is exactly twice the configured half-width, capped.
pub proof fn lemma_extrude_distance(w: i64, ids: Seq<u128>)
    requires
        0 < w <= i64::MAX / 2,
        ids.len() == 9,
    ensures
        spec_cube_plan(w, ids)[7].cmd matches Command::Extrude { target, distance, cap } && target
            == ids[0] && distance == 2 * (w as int) && cap,
{
}

/// Each message of the plan carries exactly the identifier it was given, so
/// distinct non-nil identifiers stay distinct and non-nil on the wire.
pub proof fn lemma_plan_ids(w: i64, ids: Seq<u128>)
    requires
        0 < w <= i64::MAX / 2,
        ids.len() == 9,
    ensures
        spec_cube_plan(w, ids).len() == 9,
        forall|k: int| 0 <= k < 9 ==> (#[trigger] spec_cube_plan(w, ids)[k]).cmd_id == ids[k],
{
}

/// Round trip across the whole sent sequence: every message of the plan
/// decodes back to itself through the codec, each carries the identifier it
/// was given, and with distinct non-nil identifiers supplied the identifiers
/// on the wire are pairwise distinct and non-nil.
#[verifier::rlimit(100)]
#[verifier::spinoff_prover]
pub proof fn lemma_plan_round_trip_distinct(w: i64, ids: Seq<u128>)
    requires
        0 < w <= i64::MAX / 2,
        ids.len() == 9,
        forall|a: int, b: int| 0 <= a < b < 9 ==> ids[a] != ids[b],
        forall|k: int| 0 <= k < 9 ==> ids[k] != 0,
    ensures
        spec_cube_plan(w, ids).len() == 9,
        forall|k: int| 0 <= k < 9 ==> spec_parse_request(
            spec_encode_request(#[trigger] spec_cube_plan(w, ids)[k]),
        ) == Some(spec_cube_plan(w, ids)[k]),
        forall|k: int| 0 <= k < 9 ==> (#[trigger] spec_cube_plan(w, ids)[k]).cmd_id == ids[k],
        forall|a: int, b: int|
            0 <= a < b < 9 ==> (#[trigger] spec_cube_plan(w, ids)[a]).cmd_id != (
            #[trigger] spec_cube_plan(w, ids)[b]).cmd_id,
        forall|k: int| 0 <= k < 9 ==> (#[trigger] spec_cube_plan(w, ids)[k]).cmd_id != 0,
{
    lemma_plan_ids(w, ids);
    let plan = spec_cube_plan(w, ids);
    assert forall|k: int| 0 <= k < 9 implies spec_parse_request(
        spec_encode_request(#[trigger] plan[k]),
    ) == Some(plan[k]) by {
        lemma_request_round_trip(plan[k]);
    }
}

} // verus!

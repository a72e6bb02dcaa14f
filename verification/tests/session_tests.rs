use cube_snapshot::artifact::{decode_artifact, image_height, image_width, DecodeError};
use cube_snapshot::codec_out::{decode_request, encode_request};
use cube_snapshot::correlator::{drain_frames, Frame, StepOutcome};
use cube_snapshot::correlator::correlator_step;
use cube_snapshot::ids::{all_distinct_non_nil, fresh_distinct_ids};
use cube_snapshot::protocol::{Command, PathSegment, Point3, ProtocolError};
use cube_snapshot::sequencer::build_cube_plan;

const PNG_1X1: [u8; 70] = [
    137, 80, 78, 71, 13, 10, 26, 10, 0, 0, 0, 13, 73, 72, 68, 82, 0, 0, 0, 1, 0, 0, 0, 1, 8, 6,
    0, 0, 0, 31, 21, 196, 137, 0, 0, 0, 13, 73, 68, 65, 84, 120, 218, 99, 252, 207, 192, 80, 15,
    0, 4, 133, 1, 128, 132, 169, 140, 33, 0, 0, 0, 0, 73, 69, 78, 68, 174, 66, 96, 130,
];

fn empty_ack_frame() -> Frame {
    Frame::Text(
        b"{\"success\":true,\"resp\":{\"type\":\"modeling\",\"data\":{\"modeling_response\":{\"type\":\"empty\"}}}}"
            .to_vec(),
    )
}

fn snapshot_frame(hex: &str) -> Frame {
    let mut f = b"{\"success\":true,\"resp\":{\"type\":\"modeling\",\"data\":{\"modeling_response\":{\"type\":\"take_snapshot\",\"data\":{\"contents\":\"".to_vec();
    f.extend_from_slice(hex.as_bytes());
    f.extend_from_slice(b"\"}}}}}");
    Frame::Text(f)
}

#[test]
fn cube_plan_shape_and_order() {
    let ids: Vec<u128> = (1..=9).collect();
    let plan = build_cube_plan(10, &ids);
    assert_eq!(plan.len(), 9);
    assert!(matches!(plan[0].cmd, Command::StartPath));
    // the pen starts at (-w, -w, -w) on the path opened by the first command
    assert_eq!(
        plan[1].cmd,
        Command::MovePathPen { path: 1, to: Point3 { x: -10, y: -10, z: -10 } }
    );
    // the four sides visit the corners in order and close the loop
    let expect = [
        Point3 { x: 10, y: -10, z: -10 },
        Point3 { x: 10, y: 10, z: -10 },
        Point3 { x: -10, y: 10, z: -10 },
        Point3 { x: -10, y: -10, z: -10 },
    ];
    for (k, corner) in expect.iter().enumerate() {
        assert_eq!(
            plan[2 + k].cmd,
            Command::ExtendPath {
                path: 1,
                segment: PathSegment::Line { end: *corner, relative: false }
            }
        );
    }
    assert_eq!(plan[6].cmd, Command::ClosePath { path_id: 1 });
    assert_eq!(plan[7].cmd, Command::Extrude { target: 1, distance: 20, cap: true });
    assert!(matches!(plan[8].cmd, Command::TakeSnapshot { .. }));
}

#[test]
fn square_is_closed_loop() {
    let ids: Vec<u128> = (1..=9).collect();
    for w in [1i64, 10, 12345] {
        let plan = build_cube_plan(w, &ids);
        let start = match plan[1].cmd {
            Command::MovePathPen { to, .. } => to,
            _ => panic!("second command must move the pen"),
        };
        let last_end = match plan[5].cmd {
            Command::ExtendPath { segment: PathSegment::Line { end, .. }, .. } => end,
            _ => panic!("sixth command must extend the path"),
        };
        assert_eq!(start, Point3 { x: -w, y: -w, z: -w });
        assert_eq!(last_end, start);
    }
}

#[test]
fn extrude_distance_is_twice_half_width() {
    let ids: Vec<u128> = (1..=9).collect();
    for w in [1i64, 10, 4096] {
        let plan = build_cube_plan(w, &ids);
        match plan[7].cmd {
            Command::Extrude { distance, cap, .. } => {
                assert_eq!(distance, 2 * w);
                assert!(cap);
            },
            _ => panic!("eighth command must extrude"),
        }
    }
}

#[test]
fn plan_round_trips_with_distinct_ids() {
    let ids: Vec<u128> = (100..109).collect();
    let plan = build_cube_plan(10, &ids);
    for (k, m) in plan.iter().enumerate() {
        let wire = encode_request(m);
        assert_eq!(decode_request(&wire), Some(*m));
        assert_eq!(m.cmd_id, ids[k]);
        assert_ne!(m.cmd_id, 0);
    }
    for a in 0..plan.len() {
        for b in a + 1..plan.len() {
            assert_ne!(plan[a].cmd_id, plan[b].cmd_id);
        }
    }
}

#[test]
fn fresh_ids_are_distinct_and_non_nil() {
    let ids = fresh_distinct_ids(9).expect("collision of random identifiers");
    assert_eq!(ids.len(), 9);
    for a in 0..ids.len() {
        assert_ne!(ids[a], 0);
        for b in a + 1..ids.len() {
            assert_ne!(ids[a], ids[b]);
        }
    }
}

#[test]
fn distinctness_check_rejects_collisions_and_nil() {
    assert!(all_distinct_non_nil(&vec![1, 2, 3]));
    assert!(!all_distinct_non_nil(&vec![1, 2, 1]));
    assert!(!all_distinct_non_nil(&vec![0]));
    assert!(all_distinct_non_nil(&Vec::new()));
}

#[test]
fn drain_consumes_acks_then_snapshot_only() {
    // three acknowledgements, the snapshot, then a frame that would fail the
    // session if it were ever read
    let frames = vec![
        empty_ack_frame(),
        empty_ack_frame(),
        empty_ack_frame(),
        snapshot_frame("0102ff"),
        Frame::Binary,
    ];
    let (r, consumed) = drain_frames(&frames);
    assert_eq!(r, Ok(vec![1, 2, 255]));
    assert_eq!(consumed, 4);
}

#[test]
fn drain_skips_pongs() {
    let frames = vec![Frame::Pong, snapshot_frame("00")];
    let (r, consumed) = drain_frames(&frames);
    assert_eq!(r, Ok(vec![0]));
    assert_eq!(consumed, 2);
}

#[test]
fn drain_fails_when_stream_ends_first() {
    let frames = vec![empty_ack_frame(), empty_ack_frame(), Frame::Pong];
    let (r, consumed) = drain_frames(&frames);
    assert_eq!(r, Err(ProtocolError::StreamEndedWithoutArtifact));
    assert_eq!(consumed, 3);
}

#[test]
fn drain_fails_on_unexpected_frame_kind() {
    for bad in [Frame::Binary, Frame::Ping, Frame::Close] {
        let (r, consumed) = drain_frames(&vec![bad]);
        assert_eq!(r, Err(ProtocolError::UnexpectedFrameKind));
        assert_eq!(consumed, 1);
    }
}

#[test]
fn drain_surfaces_remote_error() {
    let frames = vec![Frame::Text(
        b"{\"success\":false,\"errors\":[\"engine failure\"]}".to_vec(),
    )];
    let (r, consumed) = drain_frames(&frames);
    assert_eq!(r, Err(ProtocolError::RemoteError(b"engine failure".to_vec())));
    assert_eq!(consumed, 1);
}

#[test]
fn step_decodes_snapshot_payload() {
    match correlator_step(&snapshot_frame("deadbeef")) {
        StepOutcome::Done(d) => assert_eq!(d, vec![0xde, 0xad, 0xbe, 0xef]),
        other => panic!("expected the snapshot payload, got {:?}", other),
    }
}

#[test]
fn artifact_decodes_minimal_png() {
    let bytes = PNG_1X1.to_vec();
    let img = decode_artifact(&bytes).expect("a valid PNG must decode");
    assert_eq!(image_width(&img), 1);
    assert_eq!(image_height(&img), 1);
}

#[test]
fn artifact_rejects_truncated_png() {
    let bytes = PNG_1X1[..20].to_vec();
    assert!(matches!(decode_artifact(&bytes), Err(DecodeError::MalformedImage)));
    let empty: Vec<u8> = Vec::new();
    assert!(matches!(decode_artifact(&empty), Err(DecodeError::MalformedImage)));
}

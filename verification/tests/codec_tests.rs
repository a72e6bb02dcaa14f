use cube_snapshot::codec_in::decode_response;
use cube_snapshot::codec_out::{decode_request, encode_request};
use cube_snapshot::protocol::{
    Command, OkModelingResponse, OkResponseData, OutboundMessage, PathSegment, Point3,
    ProtocolError, RasterFormat,
};

fn round_trip(m: OutboundMessage) {
    let wire = encode_request(&m);
    assert_eq!(decode_request(&wire), Some(m));
}

#[test]
fn encode_start_path_exact() {
    let m = OutboundMessage { cmd: Command::StartPath, cmd_id: 1 };
    let wire = encode_request(&m);
    assert_eq!(
        wire,
        b"{\"type\":\"ModelingCmdReq\",\"cmd\":{\"type\":\"start_path\"},\"cmd_id\":\"00000000000000000000000000000001\"}"
            .to_vec()
    );
}

#[test]
fn encode_move_path_pen_exact() {
    let m = OutboundMessage {
        cmd: Command::MovePathPen { path: 0xff, to: Point3 { x: 1, y: -2, z: 3 } },
        cmd_id: 0x0a,
    };
    let wire = encode_request(&m);
    assert_eq!(
        wire,
        b"{\"type\":\"ModelingCmdReq\",\"cmd\":{\"type\":\"move_path_pen\",\"path\":\"000000000000000000000000000000ff\",\"to\":{\"x\":1,\"y\":-2,\"z\":3}},\"cmd_id\":\"0000000000000000000000000000000a\"}"
            .to_vec()
    );
}

#[test]
fn encode_extrude_exact() {
    let m = OutboundMessage {
        cmd: Command::Extrude { target: 0x2, distance: 20, cap: true },
        cmd_id: 0x3,
    };
    let wire = encode_request(&m);
    assert_eq!(
        wire,
        b"{\"type\":\"ModelingCmdReq\",\"cmd\":{\"type\":\"extrude\",\"target\":\"00000000000000000000000000000002\",\"distance\":20,\"cap\":true},\"cmd_id\":\"00000000000000000000000000000003\"}"
            .to_vec()
    );
}

#[test]
fn round_trip_every_command_variant() {
    round_trip(OutboundMessage { cmd: Command::StartPath, cmd_id: 7 });
    round_trip(OutboundMessage {
        cmd: Command::MovePathPen { path: 7, to: Point3 { x: -10, y: -10, z: -10 } },
        cmd_id: u128::MAX,
    });
    round_trip(OutboundMessage {
        cmd: Command::ExtendPath {
            path: 7,
            segment: PathSegment::Line {
                end: Point3 { x: i64::MAX, y: i64::MIN, z: 0 },
                relative: false,
            },
        },
        cmd_id: 9,
    });
    round_trip(OutboundMessage { cmd: Command::ClosePath { path_id: 7 }, cmd_id: 10 });
    round_trip(OutboundMessage {
        cmd: Command::Extrude { target: 7, distance: -4, cap: false },
        cmd_id: 11,
    });
    round_trip(OutboundMessage {
        cmd: Command::TakeSnapshot { format: RasterFormat::Png },
        cmd_id: 12,
    });
}

#[test]
fn decode_request_rejects_trailing_bytes() {
    let m = OutboundMessage { cmd: Command::StartPath, cmd_id: 1 };
    let mut wire = encode_request(&m);
    wire.push(b' ');
    assert_eq!(decode_request(&wire), None);
}

#[test]
fn decode_success_empty() {
    let frame =
        b"{\"success\":true,\"resp\":{\"type\":\"modeling\",\"data\":{\"modeling_response\":{\"type\":\"empty\"}}}}"
            .to_vec();
    assert_eq!(
        decode_response(&frame),
        Ok(OkResponseData::Modeling { modeling_response: OkModelingResponse::Empty })
    );
}

#[test]
fn decode_success_snapshot() {
    let frame =
        b"{\"success\":true,\"resp\":{\"type\":\"modeling\",\"data\":{\"modeling_response\":{\"type\":\"take_snapshot\",\"data\":{\"contents\":\"0a0bff\"}}}}}"
            .to_vec();
    assert_eq!(
        decode_response(&frame),
        Ok(OkResponseData::Modeling {
            modeling_response: OkModelingResponse::TakeSnapshot { data: vec![10, 11, 255] }
        })
    );
}

#[test]
fn decode_success_foreign_subsystem_is_discardable() {
    let frame = b"{\"success\":true,\"resp\":{\"type\":\"ice_server_info\"}}".to_vec();
    assert_eq!(decode_response(&frame), Ok(OkResponseData::Other));
}

#[test]
fn success_frames_never_raise_remote_error() {
    let frames: Vec<Vec<u8>> = vec![
        b"{\"success\":true,\"resp\":{\"type\":\"modeling\",\"data\":{\"modeling_response\":{\"type\":\"empty\"}}}}".to_vec(),
        b"{\"success\":true,\"resp\":{\"type\":\"other\"}}".to_vec(),
        b"{\"success\":true,\"resp\":{\"type\":\"modeling\",\"data\":broken".to_vec(),
    ];
    for f in frames {
        match decode_response(&f) {
            Err(ProtocolError::RemoteError(_)) => panic!("remote error from a success frame"),
            _ => {}
        }
    }
}

#[test]
fn decode_failure_empty_errors() {
    let frame = b"{\"success\":false,\"errors\":[]}".to_vec();
    assert_eq!(
        decode_response(&frame),
        Err(ProtocolError::RemoteError(b"no error given".to_vec()))
    );
}

#[test]
fn decode_failure_reports_last_error() {
    let frame = b"{\"success\":false,\"errors\":[\"first\",\"second\"]}".to_vec();
    assert_eq!(
        decode_response(&frame),
        Err(ProtocolError::RemoteError(b"second".to_vec()))
    );
}

#[test]
fn decode_failure_single_error() {
    let frame = b"{\"success\":false,\"errors\":[\"boom\"]}".to_vec();
    assert_eq!(decode_response(&frame), Err(ProtocolError::RemoteError(b"boom".to_vec())));
}

#[test]
fn decode_malformed_frames() {
    assert_eq!(
        decode_response(&b"garbage".to_vec()),
        Err(ProtocolError::MalformedFrame)
    );
    assert_eq!(
        decode_response(&b"{\"success\":true,\"resp\":{\"type\":\"modeling\",\"data\":".to_vec()),
        Err(ProtocolError::MalformedFrame)
    );
    assert_eq!(
        decode_response(&b"{\"success\":false,\"errors\":[\"unterminated".to_vec()),
        Err(ProtocolError::MalformedFrame)
    );
    assert_eq!(decode_response(&Vec::new()), Err(ProtocolError::MalformedFrame));
}

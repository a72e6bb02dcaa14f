//! Outbound wire codec: a command and its correlation identifier are rendered
//! as one JSON text frame tagged `ModelingCmdReq`; the parser reads such a
//! frame back, and the round-trip lemma ties the two together.
use crate::atoms::{
    bytes_of_str, hex_fixed, int_bytes, lemma_hex_fixed_props, lemma_parse_hex32_round,
    lemma_parse_int_round, lemma_pow16_thirtytwo, lemma_sub_region, lemma_tag_mismatch, lit_at,
    match_lit, parse_hex32, parse_hex32_at, parse_int, parse_int_at, push_hex_fixed,
    push_int_i64, push_lit,
};
use crate::protocol::{Command, OutboundMessage, PathSegment, Point3, RasterFormat};
use vstd::prelude::*;
use vstd::string::*;

verus! {

/// JSON rendering of a point.
pub open spec fn point_bytes(p: Point3) -> Seq<u8> {
    bytes_of_str("{\"x\":") + int_bytes(p.x as int) + bytes_of_str(",\"y\":") + int_bytes(
        p.y as int,
    ) + bytes_of_str(",\"z\":") + int_bytes(p.z as int) + bytes_of_str("}")
}

pub open spec fn bool_bytes(b: bool) -> Seq<u8> {
    if b {
        bytes_of_str("true")
    } else {
        bytes_of_str("false")
    }
}

/// JSON rendering of the command object, without its opening `{"type":"`,
/// which is shared with the envelope prefix.
pub open spec fn cmd_bytes(c: Command) -> Seq<u8> {
    match c {
        Command::StartPath => bytes_of_str("start_path\"}"),
        Command::MovePathPen { path, to } => bytes_of_str("move_path_pen\",\"path\":\"")
            + hex_fixed(path as nat, 32) + bytes_of_str("\",\"to\":") + point_bytes(to)
            + bytes_of_str("}"),
        Command::ExtendPath { path, segment } => match segment {
            PathSegment::Line { end, relative } => bytes_of_str("extend_path\",\"path\":\"")
                + hex_fixed(path as nat, 32) + bytes_of_str(
                "\",\"segment\":{\"type\":\"line\",\"end\":",
            ) + point_bytes(end) + bytes_of_str(",\"relative\":") + bool_bytes(relative)
                + bytes_of_str("}}"),
        },
        Command::ClosePath { path_id } => bytes_of_str("close_path\",\"path_id\":\"") + hex_fixed(
            path_id as nat,
            32,
        ) + bytes_of_str("\"}"),
        Command::Extrude { target, distance, cap } => bytes_of_str("extrude\",\"target\":\"")
            + hex_fixed(target as nat, 32) + bytes_of_str("\",\"distance\":") + int_bytes(
            distance as int,
        ) + bytes_of_str(",\"cap\":") + bool_bytes(cap) + bytes_of_str("}"),
        Command::TakeSnapshot { format } => match format {
            RasterFormat::Png => bytes_of_str("take_snapshot\",\"format\":\"png\"}"),
        },
    }
}

pub open spec fn env_pre() -> Seq<u8> {
    bytes_of_str("{\"type\":\"ModelingCmdReq\",\"cmd\":{\"type\":\"")
}

pub open spec fn cmdid_lit() -> Seq<u8> {
    bytes_of_str(",\"cmd_id\":\"")
}

pub open spec fn end_lit() -> Seq<u8> {
    bytes_of_str("\"}")
}

/// The full outbound text frame for one message.
pub open spec fn spec_encode_request(m: OutboundMessage) -> Seq<u8> {
    env_pre() + cmd_bytes(m.cmd) + cmdid_lit() + hex_fixed(m.cmd_id as nat, 32) + end_lit()
}

/// Append the JSON rendering of a point.
fn push_point(out: &mut Vec<u8>, p: &Point3)
    ensures
        final(out)@ == old(out)@ + point_bytes(*p),
{
    let ghost base = out@;
    proof {
        reveal_strlit("{\"x\":");
        reveal_strlit(",\"y\":");
        reveal_strlit(",\"z\":");
        reveal_strlit("}");
    }
    push_lit(out, "{\"x\":");
    push_int_i64(out, p.x);
    push_lit(out, ",\"y\":");
    push_int_i64(out, p.y);
    push_lit(out, ",\"z\":");
    push_int_i64(out, p.z);
    push_lit(out, "}");
    proof {
        assert(out@ =~= base + point_bytes(*p));
    }
}

fn push_bool(out: &mut Vec<u8>, b: bool)
    ensures
        final(out)@ == old(out)@ + bool_bytes(b),
{
    proof {
        reveal_strlit("true");
        reveal_strlit("false");
    }
    if b {
        push_lit(out, "true");
    } else {
        push_lit(out, "false");
    }
}

/// Append the JSON rendering of the command object body.
fn push_cmd(out: &mut Vec<u8>, c: &Command)
    ensures
        final(out)@ == old(out)@ + cmd_bytes(*c),
{
    let ghost base = out@;
    match c {
        Command::StartPath => {
            proof {
                reveal_strlit("start_path\"}");
            }
            push_lit(out, "start_path\"}");
        },
        Command::MovePathPen { path, to } => {
            proof {
                reveal_strlit("move_path_pen\",\"path\":\"");
                reveal_strlit("\",\"to\":");
                reveal_strlit("}");
            }
            push_lit(out, "move_path_pen\",\"path\":\"");
            push_hex_fixed(out, *path, 32);
            push_lit(out, "\",\"to\":");
            push_point(out, to);
            push_lit(out, "}");
            proof {
                assert(out@ =~= base + cmd_bytes(*c));
            }
        },
        Command::ExtendPath { path, segment } => {
            proof {
                reveal_strlit("extend_path\",\"path\":\"");
                reveal_strlit("\",\"segment\":{\"type\":\"line\",\"end\":");
                reveal_strlit(",\"relative\":");
                reveal_strlit("}}");
            }
            push_lit(out, "extend_path\",\"path\":\"");
            push_hex_fixed(out, *path, 32);
            push_lit(out, "\",\"segment\":{\"type\":\"line\",\"end\":");
            match segment {
                PathSegment::Line { end, relative } => {
                    push_point(out, end);
                    push_lit(out, ",\"relative\":");
                    push_bool(out, *relative);
                    push_lit(out, "}}");
                },
            }
            proof {
                assert(out@ =~= base + cmd_bytes(*c));
            }
        },
        Command::ClosePath { path_id } => {
            proof {
                reveal_strlit("close_path\",\"path_id\":\"");
                reveal_strlit("\"}");
            }
            push_lit(out, "close_path\",\"path_id\":\"");
            push_hex_fixed(out, *path_id, 32);
            push_lit(out, "\"}");
            proof {
                assert(out@ =~= base + cmd_bytes(*c));
            }
        },
        Command::Extrude { target, distance, cap } => {
            proof {
                reveal_strlit("extrude\",\"target\":\"");
                reveal_strlit("\",\"distance\":");
                reveal_strlit(",\"cap\":");
                reveal_strlit("}");
            }
            push_lit(out, "extrude\",\"target\":\"");
            push_hex_fixed(out, *target, 32);
            push_lit(out, "\",\"distance\":");
            push_int_i64(out, *distance);
            push_lit(out, ",\"cap\":");
            push_bool(out, *cap);
            push_lit(out, "}");
            proof {
                assert(out@ =~= base + cmd_bytes(*c));
            }
        },
        Command::TakeSnapshot { format: _ } => {
            proof {
                reveal_strlit("take_snapshot\",\"format\":\"png\"}");
            }
            push_lit(out, "take_snapshot\",\"format\":\"png\"}");
            proof {
                assert(out@ =~= base + cmd_bytes(*c));
            }
        },
    }
}

/// Render one outbound message as its JSON text frame.
pub fn encode_request(m: &OutboundMessage) -> (r: Vec<u8>)
    ensures
        r@ == spec_encode_request(*m),
{
    let mut out: Vec<u8> = Vec::new();
    proof {
        reveal_strlit("{\"type\":\"ModelingCmdReq\",\"cmd\":{\"type\":\"");
        reveal_strlit(",\"cmd_id\":\"");
        reveal_strlit("\"}");
    }
    push_lit(&mut out, "{\"type\":\"ModelingCmdReq\",\"cmd\":{\"type\":\"");
    push_cmd(&mut out, &m.cmd);
    push_lit(&mut out, ",\"cmd_id\":\"");
    push_hex_fixed(&mut out, m.cmd_id, 32);
    push_lit(&mut out, "\"}");
    proof {
        assert(out@ =~= spec_encode_request(*m));
    }
    out
}

pub open spec fn parse_bool_at(s: Seq<u8>, i: int) -> Option<(bool, int)> {
    if lit_at(s, i, bytes_of_str("true")) {
        Some((true, i + bytes_of_str("true").len()))
    } else if lit_at(s, i, bytes_of_str("false")) {
        Some((false, i + bytes_of_str("false").len()))
    } else {
        None
    }
}

pub open spec fn parse_point_at(s: Seq<u8>, i: int) -> Option<(Point3, int)> {
    if lit_at(s, i, bytes_of_str("{\"x\":")) {
        match parse_int_at(s, i + bytes_of_str("{\"x\":").len()) {
            Some((xv, j1)) => if lit_at(s, j1, bytes_of_str(",\"y\":")) {
                match parse_int_at(s, j1 + bytes_of_str(",\"y\":").len()) {
                    Some((yv, j2)) => if lit_at(s, j2, bytes_of_str(",\"z\":")) {
                        match parse_int_at(s, j2 + bytes_of_str(",\"z\":").len()) {
                            Some((zv, j3)) => if lit_at(s, j3, bytes_of_str("}")) {
                                Some(
                                    (
                                        Point3 { x: xv as i64, y: yv as i64, z: zv as i64 },
                                        j3 + bytes_of_str("}").len(),
                                    ),
                                )
                            } else {
                                None
                            },
                            None => None,
                        }
                    } else {
                        None
                    },
                    None => None,
                }
            } else {
                None
            },
            None => None,
        }
    } else {
        None
    }
}

/// Parse the command object body, trying each command tag in turn.
pub open spec fn parse_cmd_at(s: Seq<u8>, i: int) -> Option<(Command, int)> {
    if lit_at(s, i, bytes_of_str("start_path\"}")) {
        Some((Command::StartPath, i + bytes_of_str("start_path\"}").len()))
    } else if lit_at(s, i, bytes_of_str("move_path_pen\",\"path\":\"")) {
        match parse_hex32_at(s, i + bytes_of_str("move_path_pen\",\"path\":\"").len()) {
            Some((pid, j1)) => if lit_at(s, j1, bytes_of_str("\",\"to\":")) {
                match parse_point_at(s, j1 + bytes_of_str("\",\"to\":").len()) {
                    Some((pt, j2)) => if lit_at(s, j2, bytes_of_str("}")) {
                        Some(
                            (
                                Command::MovePathPen { path: pid as u128, to: pt },
                                j2 + bytes_of_str("}").len(),
                            ),
                        )
                    } else {
                        None
                    },
                    None => None,
                }
            } else {
                None
            },
            None => None,
        }
    } else if lit_at(s, i, bytes_of_str("extend_path\",\"path\":\"")) {
        match parse_hex32_at(s, i + bytes_of_str("extend_path\",\"path\":\"").len()) {
            Some((pid, j1)) => if lit_at(
                s,
                j1,
                bytes_of_str("\",\"segment\":{\"type\":\"line\",\"end\":"),
            ) {
                match parse_point_at(
                    s,
                    j1 + bytes_of_str("\",\"segment\":{\"type\":\"line\",\"end\":").len(),
                ) {
                    Some((pt, j2)) => if lit_at(s, j2, bytes_of_str(",\"relative\":")) {
                        match parse_bool_at(s, j2 + bytes_of_str(",\"relative\":").len()) {
                            Some((bv, j3)) => if lit_at(s, j3, bytes_of_str("}}")) {
                                Some(
                                    (
                                        Command::ExtendPath {
                                            path: pid as u128,
                                            segment: PathSegment::Line { end: pt, relative: bv },
                                        },
                                        j3 + bytes_of_str("}}").len(),
                                    ),
                                )
                            } else {
                                None
                            },
                            None => None,
                        }
                    } else {
                        None
                    },
                    None => None,
                }
            } else {
                None
            },
            None => None,
        }
    } else if lit_at(s, i, bytes_of_str("close_path\",\"path_id\":\"")) {
        match parse_hex32_at(s, i + bytes_of_str("close_path\",\"path_id\":\"").len()) {
            Some((pid, j1)) => if lit_at(s, j1, bytes_of_str("\"}")) {
                Some(
                    (
                        Command::ClosePath { path_id: pid as u128 },
                        j1 + bytes_of_str("\"}").len(),
                    ),
                )
            } else {
                None
            },
            None => None,
        }
    } else if lit_at(s, i, bytes_of_str("extrude\",\"target\":\"")) {
        match parse_hex32_at(s, i + bytes_of_str("extrude\",\"target\":\"").len()) {
            Some((pid, j1)) => if lit_at(s, j1, bytes_of_str("\",\"distance\":")) {
                match parse_int_at(s, j1 + bytes_of_str("\",\"distance\":").len()) {
                    Some((dv, j2)) => if lit_at(s, j2, bytes_of_str(",\"cap\":")) {
                        match parse_bool_at(s, j2 + bytes_of_str(",\"cap\":").len()) {
                            Some((bv, j3)) => if lit_at(s, j3, bytes_of_str("}")) {
                                Some(
                                    (
                                        Command::Extrude {
                                            target: pid as u128,
                                            distance: dv as i64,
                                            cap: bv,
                                        },
                                        j3 + bytes_of_str("}").len(),
                                    ),
                                )
                            } else {
                                None
                            },
                            None => None,
                        }
                    } else {
                        None
                    },
                    None => None,
                }
            } else {
                None
            },
            None => None,
        }
    } else if lit_at(s, i, bytes_of_str("take_snapshot\",\"format\":\"png\"}")) {
        Some(
            (
                Command::TakeSnapshot { format: RasterFormat::Png },
                i + bytes_of_str("take_snapshot\",\"format\":\"png\"}").len(),
            ),
        )
    } else {
        None
    }
}

/// Parse a full outbound text frame back into its message.
pub open spec fn spec_parse_request(s: Seq<u8>) -> Option<OutboundMessage> {
    if lit_at(s, 0, env_pre()) {
        match parse_cmd_at(s, env_pre().len() as int) {
            Some((c, j1)) => if lit_at(s, j1, cmdid_lit()) {
                match parse_hex32_at(s, j1 + cmdid_lit().len()) {
                    Some((idv, j2)) => if lit_at(s, j2, end_lit()) && j2 + end_lit().len()
                        == s.len() {
                        Some(OutboundMessage { cmd: c, cmd_id: idv as u128 })
                    } else {
                        None
                    },
                    None => None,
                }
            } else {
                None
            },
            None => None,
        }
    } else {
        None
    }
}

fn parse_bool(s: &Vec<u8>, i: usize) -> (r: Option<(bool, usize)>)
    ensures
        match r {
            Some(p) => parse_bool_at(s@, i as int) == Some((p.0, p.1 as int)) && p.1 <= s@.len(),
            None => parse_bool_at(s@, i as int) is None,
        },
{
    proof {
        reveal_strlit("true");
        reveal_strlit("false");
    }
    if let Some(j) = match_lit(s, i, "true") {
        return Some((true, j));
    }
    if let Some(j) = match_lit(s, i, "false") {
        return Some((false, j));
    }
    None
}

fn parse_point(s: &Vec<u8>, i: usize) -> (r: Option<(Point3, usize)>)
    ensures
        match r {
            Some(p) => parse_point_at(s@, i as int) == Some((p.0, p.1 as int)) && p.1 <= s@.len(),
            None => parse_point_at(s@, i as int) is None,
        },
{
    proof {
        reveal_strlit("{\"x\":");
        reveal_strlit(",\"y\":");
        reveal_strlit(",\"z\":");
        reveal_strlit("}");
    }
    let j0 = match match_lit(s, i, "{\"x\":") {
        Some(j) => j,
        None => {
            return None;
        },
    };
    let (xv, j1) = match parse_int(s, j0) {
        Some(p) => p,
        None => {
            return None;
        },
    };
    let j1b = match match_lit(s, j1, ",\"y\":") {
        Some(j) => j,
        None => {
            return None;
        },
    };
    let (yv, j2) = match parse_int(s, j1b) {
        Some(p) => p,
        None => {
            return None;
        },
    };
    let j2b = match match_lit(s, j2, ",\"z\":") {
        Some(j) => j,
        None => {
            return None;
        },
    };
    let (zv, j3) = match parse_int(s, j2b) {
        Some(p) => p,
        None => {
            return None;
        },
    };
    let j4 = match match_lit(s, j3, "}") {
        Some(j) => j,
        None => {
            return None;
        },
    };
    Some((Point3 { x: xv, y: yv, z: zv }, j4))
}

#[verifier::rlimit(60)]
fn parse_cmd(s: &Vec<u8>, i: usize) -> (r: Option<(Command, usize)>)
    ensures
        match r {
            Some(p) => parse_cmd_at(s@, i as int) == Some((p.0, p.1 as int)) && p.1 <= s@.len(),
            None => parse_cmd_at(s@, i as int) is None,
        },
{
    proof {
        reveal_strlit("start_path\"}");
        reveal_strlit("move_path_pen\",\"path\":\"");
        reveal_strlit("extend_path\",\"path\":\"");
        reveal_strlit("close_path\",\"path_id\":\"");
        reveal_strlit("extrude\",\"target\":\"");
        reveal_strlit("take_snapshot\",\"format\":\"png\"}");
        reveal_strlit("\",\"to\":");
        reveal_strlit("\",\"segment\":{\"type\":\"line\",\"end\":");
        reveal_strlit(",\"relative\":");
        reveal_strlit("\"}");
        reveal_strlit("\",\"distance\":");
        reveal_strlit(",\"cap\":");
        reveal_strlit("}");
        reveal_strlit("}}");
    }
    if let Some(j) = match_lit(s, i, "start_path\"}") {
        return Some((Command::StartPath, j));
    }
    if let Some(j0) = match_lit(s, i, "move_path_pen\",\"path\":\"") {
        let (pid, j1) = match parse_hex32(s, j0) {
            Some(p) => p,
            None => {
                return None;
            },
        };
        let j1b = match match_lit(s, j1, "\",\"to\":") {
            Some(j) => j,
            None => {
                return None;
            },
        };
        let (pt, j2) = match parse_point(s, j1b) {
            Some(p) => p,
            None => {
                return None;
            },
        };
        let j3 = match match_lit(s, j2, "}") {
            Some(j) => j,
            None => {
                return None;
            },
        };
        return Some((Command::MovePathPen { path: pid, to: pt }, j3));
    }
    if let Some(j0) = match_lit(s, i, "extend_path\",\"path\":\"") {
        let (pid, j1) = match parse_hex32(s, j0) {
            Some(p) => p,
            None => {
                return None;
            },
        };
        let j1b = match match_lit(s, j1, "\",\"segment\":{\"type\":\"line\",\"end\":") {
            Some(j) => j,
            None => {
                return None;
            },
        };
        let (pt, j2) = match parse_point(s, j1b) {
            Some(p) => p,
            None => {
                return None;
            },
        };
        let j2b = match match_lit(s, j2, ",\"relative\":") {
            Some(j) => j,
            None => {
                return None;
            },
        };
        let (bv, j3) = match parse_bool(s, j2b) {
            Some(p) => p,
            None => {
                return None;
            },
        };
        let j4 = match match_lit(s, j3, "}}") {
            Some(j) => j,
            None => {
                return None;
            },
        };
        return Some(
            (
                Command::ExtendPath {
                    path: pid,
                    segment: PathSegment::Line { end: pt, relative: bv },
                },
                j4,
            ),
        );
    }
    if let Some(j0) = match_lit(s, i, "close_path\",\"path_id\":\"") {
        let (pid, j1) = match parse_hex32(s, j0) {
            Some(p) => p,
            None => {
                return None;
            },
        };
        let j2 = match match_lit(s, j1, "\"}") {
            Some(j) => j,
            None => {
                return None;
            },
        };
        return Some((Command::ClosePath { path_id: pid }, j2));
    }
    if let Some(j0) = match_lit(s, i, "extrude\",\"target\":\"") {
        let (pid, j1) = match parse_hex32(s, j0) {
            Some(p) => p,
            None => {
                return None;
            },
        };
        let j1b = match match_lit(s, j1, "\",\"distance\":") {
            Some(j) => j,
            None => {
                return None;
            },
        };
        let (dv, j2) = match parse_int(s, j1b) {
            Some(p) => p,
            None => {
                return None;
            },
        };
        let j2b = match match_lit(s, j2, ",\"cap\":") {
            Some(j) => j,
            None => {
                return None;
            },
        };
        let (bv, j3) = match parse_bool(s, j2b) {
            Some(p) => p,
            None => {
                return None;
            },
        };
        let j4 = match match_lit(s, j3, "}") {
            Some(j) => j,
            None => {
                return None;
            },
        };
        return Some((Command::Extrude { target: pid, distance: dv, cap: bv }, j4));
    }
    if let Some(j) = match_lit(s, i, "take_snapshot\",\"format\":\"png\"}") {
        return Some((Command::TakeSnapshot { format: RasterFormat::Png }, j));
    }
    None
}

/// Parse one outbound text frame; `None` on any structural mismatch.
pub fn decode_request(s: &Vec<u8>) -> (r: Option<OutboundMessage>)
    ensures
        r == spec_parse_request(s@),
{
    proof {
        reveal_strlit("{\"type\":\"ModelingCmdReq\",\"cmd\":{\"type\":\"");
        reveal_strlit(",\"cmd_id\":\"");
        reveal_strlit("\"}");
    }
    let j0 = match match_lit(s, 0, "{\"type\":\"ModelingCmdReq\",\"cmd\":{\"type\":\"") {
        Some(j) => j,
        None => {
            return None;
        },
    };
    let (c, j1) = match parse_cmd(s, j0) {
        Some(p) => p,
        None => {
            return None;
        },
    };
    let j2 = match match_lit(s, j1, ",\"cmd_id\":\"") {
        Some(j) => j,
        None => {
            return None;
        },
    };
    let (idv, j3) = match parse_hex32(s, j2) {
        Some(p) => p,
        None => {
            return None;
        },
    };
    let j4 = match match_lit(s, j3, "\"}") {
        Some(j) => j,
        None => {
            return None;
        },
    };
    if j4 != s.len() {
        return None;
    }
    Some(OutboundMessage { cmd: c, cmd_id: idv })
}

proof fn lemma_parse_bool_round(s: Seq<u8>, i: int, b: bool)
    requires
        0 <= i,
        i + bool_bytes(b).len() <= s.len(),
        s.subrange(i, i + bool_bytes(b).len()) == bool_bytes(b),
    ensures
        parse_bool_at(s, i) == Some((b, i + bool_bytes(b).len())),
{
    reveal_strlit("true");
    reveal_strlit("false");
    if b {
        assert(lit_at(s, i, bytes_of_str("true")));
    } else {
        assert(bool_bytes(false)[0] != bytes_of_str("true")[0]);
        lemma_tag_mismatch(s, i, bool_bytes(false), bytes_of_str("true"), 0);
        assert(lit_at(s, i, bytes_of_str("false")));
    }
}

proof fn lemma_parse_point_round(s: Seq<u8>, i: int, p: Point3)
    requires
        0 <= i,
        i + point_bytes(p).len() <= s.len(),
        s.subrange(i, i + point_bytes(p).len()) == point_bytes(p),
    ensures
        parse_point_at(s, i) == Some((p, i + point_bytes(p).len())),
{
    reveal_strlit("{\"x\":");
    reveal_strlit(",\"y\":");
    reveal_strlit(",\"z\":");
    reveal_strlit("}");
    let pb = point_bytes(p);
    let lx = bytes_of_str("{\"x\":");
    let ly = bytes_of_str(",\"y\":");
    let lz = bytes_of_str(",\"z\":");
    let lc = bytes_of_str("}");
    let bx = int_bytes(p.x as int);
    let by = int_bytes(p.y as int);
    let bz = int_bytes(p.z as int);
    let o1 = lx.len() as int;
    let o2 = o1 + bx.len();
    let o3 = o2 + ly.len();
    let o4 = o3 + by.len();
    let o5 = o4 + lz.len();
    let o6 = o5 + bz.len();
    assert(pb.len() == o6 + lc.len());
    assert(pb.subrange(0, o1) =~= lx);
    lemma_sub_region(s, i, pb, 0, lx);
    assert(lit_at(s, i, lx));
    assert(pb.subrange(o1, o2) =~= bx);
    lemma_sub_region(s, i, pb, o1, bx);
    assert(s[i + o2] == pb[o2]);
    assert(pb[o2] == ly[0]);
    lemma_parse_int_round(s, i + o1, p.x as int);
    assert(pb.subrange(o2, o3) =~= ly);
    lemma_sub_region(s, i, pb, o2, ly);
    assert(lit_at(s, i + o2, ly));
    assert(pb.subrange(o3, o4) =~= by);
    lemma_sub_region(s, i, pb, o3, by);
    assert(s[i + o4] == pb[o4]);
    assert(pb[o4] == lz[0]);
    lemma_parse_int_round(s, i + o3, p.y as int);
    assert(pb.subrange(o4, o5) =~= lz);
    lemma_sub_region(s, i, pb, o4, lz);
    assert(lit_at(s, i + o4, lz));
    assert(pb.subrange(o5, o6) =~= bz);
    lemma_sub_region(s, i, pb, o5, bz);
    assert(s[i + o6] == pb[o6]);
    assert(pb[o6] == lc[0]);
    lemma_parse_int_round(s, i + o5, p.z as int);
    assert(pb.subrange(o6, o6 + lc.len()) =~= lc);
    lemma_sub_region(s, i, pb, o6, lc);
    assert(lit_at(s, i + o6, lc));
    assert(parse_point_at(s, i) == Some((p, i + pb.len())));
}

/// Shared mismatch step: the command region does not start with an earlier tag.
proof fn lemma_not_tag(s: Seq<u8>, i: int, cb: Seq<u8>, t: Seq<u8>, d: int)
    requires
        0 <= i,
        i + cb.len() <= s.len(),
        s.subrange(i, i + cb.len()) == cb,
        0 <= d < t.len(),
        d < cb.len(),
        cb[d] != t[d],
    ensures
        !lit_at(s, i, t),
{
    lemma_tag_mismatch(s, i, cb, t, d);
}

#[verifier::rlimit(60)]
proof fn lemma_cmd_round_move(s: Seq<u8>, i: int, path: u128, to: Point3)
    requires
        0 <= i,
        i + cmd_bytes(Command::MovePathPen { path, to }).len() <= s.len(),
        s.subrange(i, i + cmd_bytes(Command::MovePathPen { path, to }).len()) == cmd_bytes(
            Command::MovePathPen { path, to },
        ),
    ensures
        parse_cmd_at(s, i) == Some(
            (
                Command::MovePathPen { path, to },
                i + cmd_bytes(Command::MovePathPen { path, to }).len(),
            ),
        ),
{
    reveal_strlit("start_path\"}");
    reveal_strlit("move_path_pen\",\"path\":\"");
    let c = Command::MovePathPen { path, to };
    let cb = cmd_bytes(c);
    let t1 = bytes_of_str("move_path_pen\",\"path\":\"");
    let hx = hex_fixed(path as nat, 32);
    let t2 = bytes_of_str("\",\"to\":");
    let pb = point_bytes(to);
    let t3 = bytes_of_str("}");
    lemma_pow16_thirtytwo();
    lemma_hex_fixed_props(path as nat, 32);
    let o1 = t1.len() as int;
    let o2 = o1 + 32;
    let o3 = o2 + t2.len();
    let o4 = o3 + pb.len();
    assert(cb.len() == o4 + t3.len());
    assert(cb[0] == t1[0]);
    assert(t1[0] != bytes_of_str("start_path\"}")[0]);
    lemma_not_tag(s, i, cb, bytes_of_str("start_path\"}"), 0);
    assert(cb.subrange(0, o1) =~= t1);
    lemma_sub_region(s, i, cb, 0, t1);
    assert(lit_at(s, i, t1));
    assert(cb.subrange(o1, o2) =~= hx);
    lemma_sub_region(s, i, cb, o1, hx);
    lemma_parse_hex32_round(s, i + o1, path as nat);
    assert(cb.subrange(o2, o3) =~= t2);
    lemma_sub_region(s, i, cb, o2, t2);
    assert(lit_at(s, i + o2, t2));
    assert(cb.subrange(o3, o4) =~= pb);
    lemma_sub_region(s, i, cb, o3, pb);
    lemma_parse_point_round(s, i + o3, to);
    assert(cb.subrange(o4, o4 + t3.len()) =~= t3);
    lemma_sub_region(s, i, cb, o4, t3);
    assert(lit_at(s, i + o4, t3));
    assert(parse_cmd_at(s, i) == Some((c, i + cb.len())));
}

#[verifier::rlimit(60)]
proof fn lemma_cmd_round_extend(s: Seq<u8>, i: int, path: u128, end: Point3, relative: bool)
    requires
        0 <= i,
        i + cmd_bytes(
            Command::ExtendPath { path, segment: PathSegment::Line { end, relative } },
        ).len() <= s.len(),
        s.subrange(
            i,
            i + cmd_bytes(
                Command::ExtendPath { path, segment: PathSegment::Line { end, relative } },
            ).len(),
        ) == cmd_bytes(Command::ExtendPath { path, segment: PathSegment::Line { end, relative } }),
    ensures
        parse_cmd_at(s, i) == Some(
            (
                Command::ExtendPath { path, segment: PathSegment::Line { end, relative } },
                i + cmd_bytes(
                    Command::ExtendPath { path, segment: PathSegment::Line { end, relative } },
                ).len(),
            ),
        ),
{
    reveal_strlit("start_path\"}");
    reveal_strlit("move_path_pen\",\"path\":\"");
    reveal_strlit("extend_path\",\"path\":\"");
    let c = Command::ExtendPath { path, segment: PathSegment::Line { end, relative } };
    let cb = cmd_bytes(c);
    let t1 = bytes_of_str("extend_path\",\"path\":\"");
    let hx = hex_fixed(path as nat, 32);
    let t2 = bytes_of_str("\",\"segment\":{\"type\":\"line\",\"end\":");
    let pb = point_bytes(end);
    let t3 = bytes_of_str(",\"relative\":");
    let bb = bool_bytes(relative);
    let t4 = bytes_of_str("}}");
    lemma_pow16_thirtytwo();
    lemma_hex_fixed_props(path as nat, 32);
    let o1 = t1.len() as int;
    let o2 = o1 + 32;
    let o3 = o2 + t2.len();
    let o4 = o3 + pb.len();
    let o5 = o4 + t3.len();
    let o6 = o5 + bb.len();
    assert(cb.len() == o6 + t4.len());
    assert(cb[0] == t1[0]);
    assert(t1[0] != bytes_of_str("start_path\"}")[0]);
    assert(t1[0] != bytes_of_str("move_path_pen\",\"path\":\"")[0]);
    lemma_not_tag(s, i, cb, bytes_of_str("start_path\"}"), 0);
    lemma_not_tag(s, i, cb, bytes_of_str("move_path_pen\",\"path\":\""), 0);
    assert(cb.subrange(0, o1) =~= t1);
    lemma_sub_region(s, i, cb, 0, t1);
    assert(lit_at(s, i, t1));
    assert(cb.subrange(o1, o2) =~= hx);
    lemma_sub_region(s, i, cb, o1, hx);
    lemma_parse_hex32_round(s, i + o1, path as nat);
    assert(cb.subrange(o2, o3) =~= t2);
    lemma_sub_region(s, i, cb, o2, t2);
    assert(lit_at(s, i + o2, t2));
    assert(cb.subrange(o3, o4) =~= pb);
    lemma_sub_region(s, i, cb, o3, pb);
    lemma_parse_point_round(s, i + o3, end);
    assert(cb.subrange(o4, o5) =~= t3);
    lemma_sub_region(s, i, cb, o4, t3);
    assert(lit_at(s, i + o4, t3));
    assert(cb.subrange(o5, o6) =~= bb);
    lemma_sub_region(s, i, cb, o5, bb);
    lemma_parse_bool_round(s, i + o5, relative);
    assert(cb.subrange(o6, o6 + t4.len()) =~= t4);
    lemma_sub_region(s, i, cb, o6, t4);
    assert(lit_at(s, i + o6, t4));
    assert(parse_cmd_at(s, i) == Some((c, i + cb.len())));
}

#[verifier::rlimit(60)]
proof fn lemma_cmd_round_close(s: Seq<u8>, i: int, path_id: u128)
    requires
        0 <= i,
        i + cmd_bytes(Command::ClosePath { path_id }).len() <= s.len(),
        s.subrange(i, i + cmd_bytes(Command::ClosePath { path_id }).len()) == cmd_bytes(
            Command::ClosePath { path_id },
        ),
    ensures
        parse_cmd_at(s, i) == Some(
            (Command::ClosePath { path_id }, i + cmd_bytes(Command::ClosePath { path_id }).len()),
        ),
{
    reveal_strlit("start_path\"}");
    reveal_strlit("move_path_pen\",\"path\":\"");
    reveal_strlit("extend_path\",\"path\":\"");
    reveal_strlit("close_path\",\"path_id\":\"");
    reveal_strlit("\"}");
    let c = Command::ClosePath { path_id };
    let cb = cmd_bytes(c);
    let t1 = bytes_of_str("close_path\",\"path_id\":\"");
    let hx = hex_fixed(path_id as nat, 32);
    let t2 = bytes_of_str("\"}");
    lemma_pow16_thirtytwo();
    lemma_hex_fixed_props(path_id as nat, 32);
    let o1 = t1.len() as int;
    let o2 = o1 + 32;
    assert(cb.len() == o2 + t2.len());
    assert(cb[0] == t1[0]);
    assert(t1[0] != bytes_of_str("start_path\"}")[0]);
    assert(t1[0] != bytes_of_str("move_path_pen\",\"path\":\"")[0]);
    assert(t1[0] != bytes_of_str("extend_path\",\"path\":\"")[0]);
    lemma_not_tag(s, i, cb, bytes_of_str("start_path\"}"), 0);
    lemma_not_tag(s, i, cb, bytes_of_str("move_path_pen\",\"path\":\""), 0);
    lemma_not_tag(s, i, cb, bytes_of_str("extend_path\",\"path\":\""), 0);
    assert(cb.subrange(0, o1) =~= t1);
    lemma_sub_region(s, i, cb, 0, t1);
    assert(lit_at(s, i, t1));
    assert(cb.subrange(o1, o2) =~= hx);
    lemma_sub_region(s, i, cb, o1, hx);
    lemma_parse_hex32_round(s, i + o1, path_id as nat);
    assert(cb.subrange(o2, o2 + t2.len()) =~= t2);
    lemma_sub_region(s, i, cb, o2, t2);
    assert(lit_at(s, i + o2, t2));
    assert(parse_cmd_at(s, i) == Some((c, i + cb.len())));
}

#[verifier::rlimit(60)]
proof fn lemma_cmd_round_extrude(s: Seq<u8>, i: int, target: u128, distance: i64, cap: bool)
    requires
        0 <= i,
        i + cmd_bytes(Command::Extrude { target, distance, cap }).len() <= s.len(),
        s.subrange(i, i + cmd_bytes(Command::Extrude { target, distance, cap }).len())
            == cmd_bytes(Command::Extrude { target, distance, cap }),
    ensures
        parse_cmd_at(s, i) == Some(
            (
                Command::Extrude { target, distance, cap },
                i + cmd_bytes(Command::Extrude { target, distance, cap }).len(),
            ),
        ),
{
    reveal_strlit("start_path\"}");
    reveal_strlit("move_path_pen\",\"path\":\"");
    reveal_strlit("extend_path\",\"path\":\"");
    reveal_strlit("close_path\",\"path_id\":\"");
    reveal_strlit("extrude\",\"target\":\"");
    reveal_strlit("\",\"distance\":");
    reveal_strlit(",\"cap\":");
    reveal_strlit("}");
    let c = Command::Extrude { target, distance, cap };
    let cb = cmd_bytes(c);
    let t1 = bytes_of_str("extrude\",\"target\":\"");
    let hx = hex_fixed(target as nat, 32);
    let t2 = bytes_of_str("\",\"distance\":");
    let bd = int_bytes(distance as int);
    let t3 = bytes_of_str(",\"cap\":");
    let bb = bool_bytes(cap);
    let t4 = bytes_of_str("}");
    lemma_pow16_thirtytwo();
    lemma_hex_fixed_props(target as nat, 32);
    let o1 = t1.len() as int;
    let o2 = o1 + 32;
    let o3 = o2 + t2.len();
    let o4 = o3 + bd.len();
    let o5 = o4 + t3.len();
    let o6 = o5 + bb.len();
    assert(cb.len() == o6 + t4.len());
    assert(cb[0] == t1[0]);
    assert(cb[3] == t1[3]);
    assert(t1[0] != bytes_of_str("start_path\"}")[0]);
    assert(t1[0] != bytes_of_str("move_path_pen\",\"path\":\"")[0]);
    assert(t1[3] != bytes_of_str("extend_path\",\"path\":\"")[3]);
    assert(t1[0] != bytes_of_str("close_path\",\"path_id\":\"")[0]);
    lemma_not_tag(s, i, cb, bytes_of_str("start_path\"}"), 0);
    lemma_not_tag(s, i, cb, bytes_of_str("move_path_pen\",\"path\":\""), 0);
    lemma_not_tag(s, i, cb, bytes_of_str("extend_path\",\"path\":\""), 3);
    lemma_not_tag(s, i, cb, bytes_of_str("close_path\",\"path_id\":\""), 0);
    assert(cb.subrange(0, o1) =~= t1);
    lemma_sub_region(s, i, cb, 0, t1);
    assert(lit_at(s, i, t1));
    assert(cb.subrange(o1, o2) =~= hx);
    lemma_sub_region(s, i, cb, o1, hx);
    lemma_parse_hex32_round(s, i + o1, target as nat);
    assert(cb.subrange(o2, o3) =~= t2);
    lemma_sub_region(s, i, cb, o2, t2);
    assert(lit_at(s, i + o2, t2));
    assert(cb.subrange(o3, o4) =~= bd);
    lemma_sub_region(s, i, cb, o3, bd);
    assert(s[i + o4] == cb[o4]);
    assert(cb[o4] == t3[0]);
    lemma_parse_int_round(s, i + o3, distance as int);
    assert(cb.subrange(o4, o5) =~= t3);
    lemma_sub_region(s, i, cb, o4, t3);
    assert(lit_at(s, i + o4, t3));
    assert(cb.subrange(o5, o6) =~= bb);
    lemma_sub_region(s, i, cb, o5, bb);
    lemma_parse_bool_round(s, i + o5, cap);
    assert(cb.subrange(o6, o6 + t4.len()) =~= t4);
    lemma_sub_region(s, i, cb, o6, t4);
    assert(lit_at(s, i + o6, t4));
    assert(parse_cmd_at(s, i) == Some((c, i + cb.len())));
}

/// The command region at `i` parses back to exactly the command it renders.
pub proof fn lemma_parse_cmd_round(s: Seq<u8>, i: int, c: Command)
    requires
        0 <= i,
        i + cmd_bytes(c).len() <= s.len(),
        s.subrange(i, i + cmd_bytes(c).len()) == cmd_bytes(c),
    ensures
        parse_cmd_at(s, i) == Some((c, i + cmd_bytes(c).len())),
{
    reveal_strlit("start_path\"}");
    reveal_strlit("move_path_pen\",\"path\":\"");
    reveal_strlit("extend_path\",\"path\":\"");
    reveal_strlit("close_path\",\"path_id\":\"");
    reveal_strlit("extrude\",\"target\":\"");
    reveal_strlit("take_snapshot\",\"format\":\"png\"}");
    match c {
        Command::StartPath => {
            assert(lit_at(s, i, bytes_of_str("start_path\"}")));
        },
        Command::MovePathPen { path, to } => {
            lemma_cmd_round_move(s, i, path, to);
        },
        Command::ExtendPath { path, segment } => {
            match segment {
                PathSegment::Line { end, relative } => {
                    lemma_cmd_round_extend(s, i, path, end, relative);
                },
            }
        },
        Command::ClosePath { path_id } => {
            lemma_cmd_round_close(s, i, path_id);
        },
        Command::Extrude { target, distance, cap } => {
            lemma_cmd_round_extrude(s, i, target, distance, cap);
        },
        Command::TakeSnapshot { format } => {
            let cb = cmd_bytes(c);
            let t1 = bytes_of_str("take_snapshot\",\"format\":\"png\"}");
            assert(cb == t1);
            assert(cb[0] == t1[0]);
            assert(t1[0] != bytes_of_str("start_path\"}")[0]);
            assert(t1[0] != bytes_of_str("move_path_pen\",\"path\":\"")[0]);
            assert(t1[0] != bytes_of_str("extend_path\",\"path\":\"")[0]);
            assert(t1[0] != bytes_of_str("close_path\",\"path_id\":\"")[0]);
            assert(t1[0] != bytes_of_str("extrude\",\"target\":\"")[0]);
            lemma_not_tag(s, i, cb, bytes_of_str("start_path\"}"), 0);
            lemma_not_tag(s, i, cb, bytes_of_str("move_path_pen\",\"path\":\""), 0);
            lemma_not_tag(s, i, cb, bytes_of_str("extend_path\",\"path\":\""), 0);
            lemma_not_tag(s, i, cb, bytes_of_str("close_path\",\"path_id\":\""), 0);
            lemma_not_tag(s, i, cb, bytes_of_str("extrude\",\"target\":\""), 0);
            assert(lit_at(s, i, t1));
        },
    }
}

/// Round trip of the outbound codec: every rendered message parses back to
/// itself, whatever its command and correlation identifier.
pub proof fn lemma_request_round_trip(m: OutboundMessage)
    ensures
        spec_parse_request(spec_encode_request(m)) == Some(m),
{
    let s = spec_encode_request(m);
    let ep = env_pre();
    let cb = cmd_bytes(m.cmd);
    let cl = cmdid_lit();
    let hx = hex_fixed(m.cmd_id as nat, 32);
    let el = end_lit();
    lemma_pow16_thirtytwo();
    lemma_hex_fixed_props(m.cmd_id as nat, 32);
    let e1 = ep.len() as int;
    let e2 = e1 + cb.len();
    let e3 = e2 + cl.len();
    let e4 = e3 + 32;
    assert(s.len() == e4 + el.len());
    assert(s.subrange(0, e1) =~= ep);
    assert(lit_at(s, 0, ep));
    assert(s.subrange(e1, e2) =~= cb);
    lemma_parse_cmd_round(s, e1, m.cmd);
    assert(s.subrange(e2, e3) =~= cl);
    assert(lit_at(s, e2, cl));
    assert(s.subrange(e3, e4) =~= hx);
    lemma_parse_hex32_round(s, e3, m.cmd_id as nat);
    assert(s.subrange(e4, e4 + el.len()) =~= el);
    assert(lit_at(s, e4, el));
    assert(spec_parse_request(s) == Some(OutboundMessage { cmd: m.cmd, cmd_id: m.cmd_id }));
}

} // verus!

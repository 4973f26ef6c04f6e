//! The datagram protocol: frames, requests, replies, checksums and
//! message ids.
//!
//! A frame is the wire envelope `{ id, payload, checksum }`; the
//! payload carries an encoded request or reply. Field numbers are
//! fixed by the deployed wire format: a frame's `id` is field 1, its
//! `payload` field 2 and its `checksum` field 3.

use vstd::prelude::*;

use crate::codec::{
    enc_bytes_field, enc_nonempty_bytes, enc_nonzero_uint, enc_opt_bytes, enc_uint_field,
    encode_varint, lemma_opt_bytes_present, lemma_opt_uint_present, lemma_sp_opt_bytes_bounds,
    lemma_sp_opt_uint_bounds, opt_bytes_or_empty, opt_u32_or_zero, opt_u64_or_zero,
    parse_opt_bytes, parse_opt_u32, parse_opt_u64, push_bytes, sp_opt_bytes, sp_opt_u32,
    sp_opt_u64, spec_varint,
};
use crate::errors::DhtError;

verus! {

/// The tag byte of a frame's id field.
pub const FRAME_ID_TAG: u8 = 0x0a;

/// The tag byte of a frame's payload field.
pub const FRAME_PAYLOAD_TAG: u8 = 0x12;

/// The tag byte of a frame's checksum field.
pub const FRAME_CHECKSUM_TAG: u8 = 0x18;

/// The wire envelope of every datagram: an opaque message id, the
/// encoded application payload, and a checksum over both.
#[derive(Debug)]
pub struct Frame {
    pub id: Vec<u8>,
    pub payload: Vec<u8>,
    pub checksum: u64,
}

/// The mathematical value of a frame.
pub ghost struct FrameView {
    pub id: Seq<u8>,
    pub payload: Seq<u8>,
    pub checksum: u64,
}

impl View for Frame {
    type V = FrameView;

    open spec fn view(&self) -> FrameView {
        FrameView { id: self.id@, payload: self.payload@, checksum: self.checksum }
    }
}

/// The canonical encoding of a frame: each field in tag order, fields
/// holding their default value omitted.
pub open spec fn spec_encode_frame(f: FrameView) -> Seq<u8> {
    enc_nonempty_bytes(FRAME_ID_TAG, f.id) + enc_nonempty_bytes(FRAME_PAYLOAD_TAG, f.payload)
        + enc_nonzero_uint(FRAME_CHECKSUM_TAG, f.checksum as nat)
}

/// Parses a frame: the three optional fields in tag order, and nothing
/// after them.
pub open spec fn spec_parse_frame(s: Seq<u8>) -> Option<FrameView> {
    match sp_opt_bytes(s, 0, FRAME_ID_TAG) {
        None => None,
        Some((ido, i1)) => match sp_opt_bytes(s, i1, FRAME_PAYLOAD_TAG) {
            None => None,
            Some((po, i2)) => match sp_opt_u64(s, i2, FRAME_CHECKSUM_TAG) {
                None => None,
                Some((cko, i3)) => if i3 == s.len() {
                    Some(
                        FrameView {
                            id: opt_bytes_or_empty(ido),
                            payload: opt_bytes_or_empty(po),
                            checksum: opt_u64_or_zero(cko),
                        },
                    )
                } else {
                    None
                },
            },
        },
    }
}

/// Serializes a frame into its canonical encoding.
pub fn encode_frame(f: &Frame) -> (r: Vec<u8>)
    ensures
        r@ == spec_encode_frame(f@),
{
    let ghost part_id = enc_nonempty_bytes(FRAME_ID_TAG, f@.id);
    let ghost part_payload = enc_nonempty_bytes(FRAME_PAYLOAD_TAG, f@.payload);
    let ghost part_ck = enc_nonzero_uint(FRAME_CHECKSUM_TAG, f@.checksum as nat);
    let mut out: Vec<u8> = Vec::new();
    if f.id.len() > 0 {
        out.push(FRAME_ID_TAG);
        encode_varint(f.id.len() as u64, &mut out);
        push_bytes(&mut out, &f.id);
    }
    assert(out@ =~= part_id);
    if f.payload.len() > 0 {
        let ghost before = out@;
        out.push(FRAME_PAYLOAD_TAG);
        encode_varint(f.payload.len() as u64, &mut out);
        push_bytes(&mut out, &f.payload);
        assert(out@ =~= before + part_payload);
    }
    assert(out@ =~= part_id + part_payload);
    if f.checksum > 0 {
        let ghost before = out@;
        out.push(FRAME_CHECKSUM_TAG);
        encode_varint(f.checksum, &mut out);
        assert(out@ =~= before + part_ck);
    }
    assert(out@ =~= part_id + part_payload + part_ck);
    out
}

/// Deserializes a frame; a byte string that is not a frame encoding is
/// reported as invalid data.
pub fn parse_message(message_bytes: Vec<u8>) -> (r: Result<Frame, DhtError>)
    ensures
        match r {
            Ok(f) => spec_parse_frame(message_bytes@) == Some(f@),
            Err(e) => spec_parse_frame(message_bytes@) is None && e == DhtError::InvalidData,
        },
{
    let s = &message_bytes;
    let r1 = match parse_opt_bytes(s, 0, FRAME_ID_TAG) {
        None => {
            return Err(DhtError::InvalidData);
        },
        Some(x) => x,
    };
    let (ido, i1) = r1;
    let r2 = match parse_opt_bytes(s, i1, FRAME_PAYLOAD_TAG) {
        None => {
            return Err(DhtError::InvalidData);
        },
        Some(x) => x,
    };
    let (po, i2) = r2;
    let r3 = match parse_opt_u64(s, i2, FRAME_CHECKSUM_TAG) {
        None => {
            return Err(DhtError::InvalidData);
        },
        Some(x) => x,
    };
    let (cko, i3) = r3;
    if i3 != s.len() {
        return Err(DhtError::InvalidData);
    }
    let id = match ido {
        None => Vec::new(),
        Some(b) => b,
    };
    let payload = match po {
        None => Vec::new(),
        Some(b) => b,
    };
    let checksum = match cko {
        None => 0u64,
        Some(n) => n,
    };
    proof {
        let s0 = message_bytes@;
        crate::codec::lemma_sp_opt_bytes_bounds(s0, 0, FRAME_ID_TAG);
        assert(sp_opt_bytes(s0, 0, FRAME_ID_TAG) is Some);
        let (o1, j1) = sp_opt_bytes(s0, 0, FRAME_ID_TAG).unwrap();
        assert(j1 == i1 as int);
        crate::codec::lemma_sp_opt_bytes_bounds(s0, j1, FRAME_PAYLOAD_TAG);
        assert(sp_opt_bytes(s0, j1, FRAME_PAYLOAD_TAG) is Some);
        let (o2, j2) = sp_opt_bytes(s0, j1, FRAME_PAYLOAD_TAG).unwrap();
        assert(j2 == i2 as int);
        crate::codec::lemma_sp_opt_uint_bounds(s0, j2, FRAME_CHECKSUM_TAG);
        assert(sp_opt_u64(s0, j2, FRAME_CHECKSUM_TAG) is Some);
        let (o3, j3) = sp_opt_u64(s0, j2, FRAME_CHECKSUM_TAG).unwrap();
        assert(j3 == i3 as int);
        assert(j3 == s0.len());
        assert(spec_parse_frame(s0) is Some);
        let sp = spec_parse_frame(s0).unwrap();
        assert(id@ =~= sp.id);
        assert(payload@ =~= sp.payload);
    }
    Ok(Frame { id, payload, checksum })
}

/// An encoded frame parses back to the frame it came from.
pub proof fn lemma_frame_round_trip(f: FrameView)
    ensures
        spec_parse_frame(spec_encode_frame(f)) == Some(f),
{
    let a = enc_nonempty_bytes(FRAME_ID_TAG, f.id);
    let b = enc_nonempty_bytes(FRAME_PAYLOAD_TAG, f.payload);
    let c = enc_nonzero_uint(FRAME_CHECKSUM_TAG, f.checksum as nat);
    let s = spec_encode_frame(f);
    assert(s == a + b + c);

    // Field 1: present exactly when the id is non-empty.
    let i1: int = if f.id.len() > 0 {
        let ea = enc_bytes_field(FRAME_ID_TAG, f.id);
        assert(a == ea);
        assert(s.subrange(0, ea.len() as int) =~= ea);
        lemma_opt_bytes_present(s, 0, FRAME_ID_TAG, f.id);
        ea.len() as int
    } else {
        // Nothing was written for the id, so whatever byte stands
        // first belongs to a later field and carries a different tag.
        assert(a.len() == 0);
        if b.len() > 0 {
            assert(s[0] == b[0]);
            assert(b[0] == FRAME_PAYLOAD_TAG);
        } else if c.len() > 0 {
            assert(s[0] == c[0]);
            assert(c[0] == FRAME_CHECKSUM_TAG);
        }
        assert(sp_opt_bytes(s, 0, FRAME_ID_TAG) == Some((None::<Seq<u8>>, 0int)));
        0
    };
    assert(i1 == a.len());

    // Field 2: present exactly when the payload is non-empty.
    let i2: int = if f.payload.len() > 0 {
        let eb = enc_bytes_field(FRAME_PAYLOAD_TAG, f.payload);
        assert(b == eb);
        assert(s.subrange(i1, i1 + eb.len()) =~= eb);
        lemma_opt_bytes_present(s, i1, FRAME_PAYLOAD_TAG, f.payload);
        i1 + eb.len() as int
    } else {
        assert(b.len() == 0);
        if c.len() > 0 {
            assert(i1 < s.len());
            assert(s[i1] == c[0]);
            assert(c[0] == FRAME_CHECKSUM_TAG);
        } else {
            assert(i1 == s.len());
        }
        assert(sp_opt_bytes(s, i1, FRAME_PAYLOAD_TAG) == Some((None::<Seq<u8>>, i1)));
        i1
    };
    assert(i2 == a.len() + b.len());

    // Field 3: present exactly when the checksum is non-zero.
    if f.checksum == 0 {
        assert(c =~= Seq::<u8>::empty());
        assert(i2 == s.len());
        assert(sp_opt_u64(s, i2, FRAME_CHECKSUM_TAG) == Some((None::<u64>, i2)));
    } else {
        let ec = seq![FRAME_CHECKSUM_TAG] + spec_varint(f.checksum as nat);
        assert(c == ec);
        assert(s.subrange(i2, i2 + ec.len()) =~= ec);
        lemma_opt_uint_present(s, i2, FRAME_CHECKSUM_TAG, f.checksum as nat);
        assert(sp_opt_u64(s, i2, FRAME_CHECKSUM_TAG) == Some(
            (Some(f.checksum), i2 + ec.len() as int),
        ));
        assert(i2 + ec.len() == s.len());
    }
    let parsed = spec_parse_frame(s);
    assert(parsed is Some);
    let g = parsed.unwrap();
    assert(g.id =~= f.id);
    assert(g.payload =~= f.payload);
    assert(g.checksum == f.checksum);
}

/// The tag byte of a request's operation field.
pub const REQUEST_OPERATION_TAG: u8 = 0x08;

/// The tag byte of a request's key field.
pub const REQUEST_KEY_TAG: u8 = 0x12;

/// The tag byte of a request's value field.
pub const REQUEST_VALUE_TAG: u8 = 0x1a;

/// The view of an optional byte string.
pub open spec fn view_opt_bytes(o: Option<Vec<u8>>) -> Option<Seq<u8>> {
    match o {
        None => None,
        Some(v) => Some(v@),
    }
}

/// An application request: an operation code and, depending on the
/// operation, a key and a value.
#[derive(Debug)]
pub struct Request {
    pub operation: u32,
    pub key: Option<Vec<u8>>,
    pub value: Option<Vec<u8>>,
}

/// The mathematical value of a request.
pub ghost struct RequestView {
    pub operation: u32,
    pub key: Option<Seq<u8>>,
    pub value: Option<Seq<u8>>,
}

impl View for Request {
    type V = RequestView;

    open spec fn view(&self) -> RequestView {
        RequestView {
            operation: self.operation,
            key: view_opt_bytes(self.key),
            value: view_opt_bytes(self.value),
        }
    }
}

/// The canonical encoding of a request: a zero operation code is
/// omitted; key and value are written exactly when present.
pub open spec fn spec_encode_request(q: RequestView) -> Seq<u8> {
    enc_nonzero_uint(REQUEST_OPERATION_TAG, q.operation as nat) + enc_opt_bytes(
        REQUEST_KEY_TAG,
        q.key,
    ) + enc_opt_bytes(REQUEST_VALUE_TAG, q.value)
}

/// Parses a request: the three optional fields in tag order, and
/// nothing after them.
pub open spec fn spec_parse_request(s: Seq<u8>) -> Option<RequestView> {
    match sp_opt_u32(s, 0, REQUEST_OPERATION_TAG) {
        None => None,
        Some((opo, i1)) => match sp_opt_bytes(s, i1, REQUEST_KEY_TAG) {
            None => None,
            Some((ko, i2)) => match sp_opt_bytes(s, i2, REQUEST_VALUE_TAG) {
                None => None,
                Some((vo, i3)) => if i3 == s.len() {
                    Some(RequestView { operation: opt_u32_or_zero(opo), key: ko, value: vo })
                } else {
                    None
                },
            },
        },
    }
}

/// Serializes a request into its canonical encoding.
pub fn encode_request(q: &Request) -> (r: Vec<u8>)
    ensures
        r@ == spec_encode_request(q@),
{
    let ghost part_op = enc_nonzero_uint(REQUEST_OPERATION_TAG, q@.operation as nat);
    let ghost part_key = enc_opt_bytes(REQUEST_KEY_TAG, q@.key);
    let ghost part_value = enc_opt_bytes(REQUEST_VALUE_TAG, q@.value);
    let mut out: Vec<u8> = Vec::new();
    if q.operation > 0 {
        out.push(REQUEST_OPERATION_TAG);
        encode_varint(q.operation as u64, &mut out);
    }
    assert(out@ =~= part_op);
    match &q.key {
        None => {},
        Some(k) => {
            let ghost before = out@;
            out.push(REQUEST_KEY_TAG);
            encode_varint(k.len() as u64, &mut out);
            push_bytes(&mut out, k);
            assert(out@ =~= before + part_key);
        },
    }
    assert(out@ =~= part_op + part_key);
    match &q.value {
        None => {},
        Some(v) => {
            let ghost before = out@;
            out.push(REQUEST_VALUE_TAG);
            encode_varint(v.len() as u64, &mut out);
            push_bytes(&mut out, v);
            assert(out@ =~= before + part_value);
        },
    }
    assert(out@ =~= part_op + part_key + part_value);
    out
}

/// Deserializes a request from payload bytes.
pub fn parse_request(bytes: &Vec<u8>) -> (r: Result<Request, DhtError>)
    ensures
        match r {
            Ok(q) => spec_parse_request(bytes@) == Some(q@),
            Err(e) => spec_parse_request(bytes@) is None && e == DhtError::InvalidData,
        },
{
    let blen: usize = bytes.len();
    assert(bytes@.len() == blen as int);
    let r1 = match parse_opt_u32(bytes, 0, REQUEST_OPERATION_TAG) {
        None => {
            return Err(DhtError::InvalidData);
        },
        Some(x) => x,
    };
    let (opo, i1) = r1;
    proof {
        lemma_sp_opt_uint_bounds(bytes@, 0, REQUEST_OPERATION_TAG);
    }
    let r2 = match parse_opt_bytes(bytes, i1, REQUEST_KEY_TAG) {
        None => {
            proof {
                let (o1, j1) = sp_opt_u32(bytes@, 0, REQUEST_OPERATION_TAG).unwrap();
                assert(j1 == i1 as int);
                assert(sp_opt_bytes(bytes@, j1, REQUEST_KEY_TAG) is None);
                assert(spec_parse_request(bytes@) is None);
            }
            return Err(DhtError::InvalidData);
        },
        Some(x) => x,
    };
    let (ko, i2) = r2;
    proof {
        lemma_sp_opt_bytes_bounds(bytes@, i1 as int, REQUEST_KEY_TAG);
    }
    let r3 = match parse_opt_bytes(bytes, i2, REQUEST_VALUE_TAG) {
        None => {
            return Err(DhtError::InvalidData);
        },
        Some(x) => x,
    };
    let (vo, i3) = r3;
    if i3 != bytes.len() {
        return Err(DhtError::InvalidData);
    }
    let operation = match opo {
        None => 0u32,
        Some(n) => n,
    };
    proof {
        let s0 = bytes@;
        lemma_sp_opt_uint_bounds(s0, 0, REQUEST_OPERATION_TAG);
        let (o1, j1) = sp_opt_u32(s0, 0, REQUEST_OPERATION_TAG).unwrap();
        assert(j1 == i1 as int);
        lemma_sp_opt_bytes_bounds(s0, j1, REQUEST_KEY_TAG);
        let (o2, j2) = sp_opt_bytes(s0, j1, REQUEST_KEY_TAG).unwrap();
        assert(j2 == i2 as int);
        lemma_sp_opt_bytes_bounds(s0, j2, REQUEST_VALUE_TAG);
        let (o3, j3) = sp_opt_bytes(s0, j2, REQUEST_VALUE_TAG).unwrap();
        assert(j3 == i3 as int);
        assert(j3 == s0.len());
        assert(spec_parse_request(s0) is Some);
        let sp = spec_parse_request(s0).unwrap();
        assert(view_opt_bytes(ko) == o2);
        assert(view_opt_bytes(vo) == o3);
    }
    Ok(Request { operation, key: ko, value: vo })
}

/// Deserializes the request carried in a frame's payload.
pub fn extract_request(udp_message: &Frame) -> (r: Result<Request, DhtError>)
    ensures
        match r {
            Ok(q) => spec_parse_request(udp_message@.payload) == Some(q@),
            Err(e) => spec_parse_request(udp_message@.payload) is None && e
                == DhtError::InvalidData,
        },
{
    parse_request(&udp_message.payload)
}

/// An encoded request parses back to the request it came from.
pub proof fn lemma_request_round_trip(q: RequestView)
    ensures
        spec_parse_request(spec_encode_request(q)) == Some(q),
{
    let a = enc_nonzero_uint(REQUEST_OPERATION_TAG, q.operation as nat);
    let b = enc_opt_bytes(REQUEST_KEY_TAG, q.key);
    let c = enc_opt_bytes(REQUEST_VALUE_TAG, q.value);
    let s = spec_encode_request(q);
    assert(s == a + b + c);

    let i1: int = if q.operation > 0 {
        let ea = enc_uint_field(REQUEST_OPERATION_TAG, q.operation as nat);
        assert(a == ea);
        assert(s.subrange(0, ea.len() as int) =~= ea);
        lemma_opt_uint_present(s, 0, REQUEST_OPERATION_TAG, q.operation as nat);
        ea.len() as int
    } else {
        assert(a.len() == 0);
        if b.len() > 0 {
            assert(s[0] == b[0]);
            assert(b[0] == REQUEST_KEY_TAG);
        } else if c.len() > 0 {
            assert(s[0] == c[0]);
            assert(c[0] == REQUEST_VALUE_TAG);
        }
        assert(sp_opt_u32(s, 0, REQUEST_OPERATION_TAG) == Some((None::<u32>, 0int)));
        0
    };
    assert(i1 == a.len());
    assert(sp_opt_u32(s, 0, REQUEST_OPERATION_TAG) == Some(
        (if q.operation > 0 {
            Some(q.operation)
        } else {
            None
        }, i1),
    ));

    let i2: int = match q.key {
        Some(k) => {
            let eb = enc_bytes_field(REQUEST_KEY_TAG, k);
            assert(b == eb);
            assert(s.subrange(i1, i1 + eb.len()) =~= eb);
            lemma_opt_bytes_present(s, i1, REQUEST_KEY_TAG, k);
            i1 + eb.len() as int
        },
        None => {
            assert(b.len() == 0);
            if c.len() > 0 {
                assert(i1 < s.len());
                assert(s[i1] == c[0]);
                assert(c[0] == REQUEST_VALUE_TAG);
            } else {
                assert(i1 == s.len());
            }
            assert(sp_opt_bytes(s, i1, REQUEST_KEY_TAG) == Some((None::<Seq<u8>>, i1)));
            i1
        },
    };
    assert(i2 == a.len() + b.len());
    assert(sp_opt_bytes(s, i1, REQUEST_KEY_TAG) == Some((q.key, i2)));

    match q.value {
        Some(v) => {
            let ec = enc_bytes_field(REQUEST_VALUE_TAG, v);
            assert(c == ec);
            assert(s.subrange(i2, i2 + ec.len()) =~= ec);
            lemma_opt_bytes_present(s, i2, REQUEST_VALUE_TAG, v);
            assert(i2 + ec.len() == s.len());
        },
        None => {
            assert(c.len() == 0);
            assert(i2 == s.len());
            assert(sp_opt_bytes(s, i2, REQUEST_VALUE_TAG) == Some((None::<Seq<u8>>, i2)));
        },
    }
    let parsed = spec_parse_request(s);
    assert(parsed is Some);
    let g = parsed.unwrap();
    assert(g.operation == q.operation);
    assert(g.key == q.key);
    assert(g.value == q.value);
}

/// The tag byte of a node-info's position field.
pub const NODE_INFO_POSITION_TAG: u8 = 0x08;

/// The tag byte of a node-info's address field.
pub const NODE_INFO_ADDRESS_TAG: u8 = 0x12;

/// The tag byte of a reply's status field.
pub const REPLY_STATUS_TAG: u8 = 0x08;

/// The tag byte of a reply's value field.
pub const REPLY_VALUE_TAG: u8 = 0x12;

/// The tag byte of a reply's pid field.
pub const REPLY_PID_TAG: u8 = 0x18;

/// The tag byte of a reply's node-info field.
pub const REPLY_NODE_INFO_TAG: u8 = 0x22;

/// A node named on the wire: its ring position and the text of its
/// endpoint address.
#[derive(Debug)]
pub struct NodeInfo {
    pub node_position: u32,
    pub node_address: Vec<u8>,
}

/// The mathematical value of a node-info record.
pub ghost struct NodeInfoView {
    pub node_position: u32,
    pub node_address: Seq<u8>,
}

impl View for NodeInfo {
    type V = NodeInfoView;

    open spec fn view(&self) -> NodeInfoView {
        NodeInfoView { node_position: self.node_position, node_address: self.node_address@ }
    }
}

/// An application reply: a status code and, depending on the
/// operation, a value, a process id, or a named node.
#[derive(Debug)]
pub struct Reply {
    pub status: u32,
    pub value: Option<Vec<u8>>,
    pub pid: Option<u32>,
    pub node_info: Option<NodeInfo>,
}

/// The mathematical value of a reply.
pub ghost struct ReplyView {
    pub status: u32,
    pub value: Option<Seq<u8>>,
    pub pid: Option<u32>,
    pub node_info: Option<NodeInfoView>,
}

impl View for Reply {
    type V = ReplyView;

    open spec fn view(&self) -> ReplyView {
        ReplyView {
            status: self.status,
            value: view_opt_bytes(self.value),
            pid: self.pid,
            node_info: match self.node_info {
                None => None,
                Some(ni) => Some(ni@),
            },
        }
    }
}

/// The canonical encoding of a node-info record.
pub open spec fn spec_encode_node_info(ni: NodeInfoView) -> Seq<u8> {
    enc_nonzero_uint(NODE_INFO_POSITION_TAG, ni.node_position as nat) + enc_nonempty_bytes(
        NODE_INFO_ADDRESS_TAG,
        ni.node_address,
    )
}

/// Parses a node-info record.
pub open spec fn spec_parse_node_info(s: Seq<u8>) -> Option<NodeInfoView> {
    match sp_opt_u32(s, 0, NODE_INFO_POSITION_TAG) {
        None => None,
        Some((po, i1)) => match sp_opt_bytes(s, i1, NODE_INFO_ADDRESS_TAG) {
            None => None,
            Some((ao, i2)) => if i2 == s.len() {
                Some(
                    NodeInfoView {
                        node_position: opt_u32_or_zero(po),
                        node_address: opt_bytes_or_empty(ao),
                    },
                )
            } else {
                None
            },
        },
    }
}

/// The canonical encoding of a reply. A present node-info record is a
/// length-delimited field holding its own encoding.
pub open spec fn spec_encode_reply(p: ReplyView) -> Seq<u8> {
    enc_nonzero_uint(REPLY_STATUS_TAG, p.status as nat) + enc_opt_bytes(REPLY_VALUE_TAG, p.value)
        + (match p.pid {
        None => Seq::<u8>::empty(),
        Some(pid) => enc_uint_field(REPLY_PID_TAG, pid as nat),
    }) + (match p.node_info {
        None => Seq::<u8>::empty(),
        Some(ni) => enc_bytes_field(REPLY_NODE_INFO_TAG, spec_encode_node_info(ni)),
    })
}

/// Parses a reply; a present node-info field must itself parse.
pub open spec fn spec_parse_reply(s: Seq<u8>) -> Option<ReplyView> {
    match sp_opt_u32(s, 0, REPLY_STATUS_TAG) {
        None => None,
        Some((sto, i1)) => match sp_opt_bytes(s, i1, REPLY_VALUE_TAG) {
            None => None,
            Some((vo, i2)) => match sp_opt_u32(s, i2, REPLY_PID_TAG) {
                None => None,
                Some((pido, i3)) => match sp_opt_bytes(s, i3, REPLY_NODE_INFO_TAG) {
                    None => None,
                    Some((nio, i4)) => if i4 != s.len() {
                        None
                    } else {
                        match nio {
                            None => Some(
                                ReplyView {
                                    status: opt_u32_or_zero(sto),
                                    value: vo,
                                    pid: pido,
                                    node_info: None,
                                },
                            ),
                            Some(nb) => match spec_parse_node_info(nb) {
                                None => None,
                                Some(ni) => Some(
                                    ReplyView {
                                        status: opt_u32_or_zero(sto),
                                        value: vo,
                                        pid: pido,
                                        node_info: Some(ni),
                                    },
                                ),
                            },
                        }
                    },
                },
            },
        },
    }
}

/// Serializes a node-info record into its canonical encoding.
pub fn encode_node_info(ni: &NodeInfo) -> (r: Vec<u8>)
    ensures
        r@ == spec_encode_node_info(ni@),
{
    let ghost part_pos = enc_nonzero_uint(NODE_INFO_POSITION_TAG, ni@.node_position as nat);
    let ghost part_addr = enc_nonempty_bytes(NODE_INFO_ADDRESS_TAG, ni@.node_address);
    let mut out: Vec<u8> = Vec::new();
    if ni.node_position > 0 {
        out.push(NODE_INFO_POSITION_TAG);
        encode_varint(ni.node_position as u64, &mut out);
    }
    assert(out@ =~= part_pos);
    if ni.node_address.len() > 0 {
        let ghost before = out@;
        out.push(NODE_INFO_ADDRESS_TAG);
        encode_varint(ni.node_address.len() as u64, &mut out);
        push_bytes(&mut out, &ni.node_address);
        assert(out@ =~= before + part_addr);
    }
    assert(out@ =~= part_pos + part_addr);
    out
}

/// Deserializes a node-info record.
pub fn parse_node_info(bytes: &Vec<u8>) -> (r: Result<NodeInfo, DhtError>)
    ensures
        match r {
            Ok(ni) => spec_parse_node_info(bytes@) == Some(ni@),
            Err(e) => spec_parse_node_info(bytes@) is None && e == DhtError::InvalidData,
        },
{
    let blen: usize = bytes.len();
    assert(bytes@.len() == blen as int);
    let r1 = match parse_opt_u32(bytes, 0, NODE_INFO_POSITION_TAG) {
        None => {
            return Err(DhtError::InvalidData);
        },
        Some(x) => x,
    };
    let (po, i1) = r1;
    proof {
        lemma_sp_opt_uint_bounds(bytes@, 0, NODE_INFO_POSITION_TAG);
    }
    let r2 = match parse_opt_bytes(bytes, i1, NODE_INFO_ADDRESS_TAG) {
        None => {
            return Err(DhtError::InvalidData);
        },
        Some(x) => x,
    };
    let (ao, i2) = r2;
    if i2 != blen {
        return Err(DhtError::InvalidData);
    }
    let node_position = match po {
        None => 0u32,
        Some(n) => n,
    };
    let node_address = match ao {
        None => Vec::new(),
        Some(b) => b,
    };
    proof {
        let sp = spec_parse_node_info(bytes@).unwrap();
        assert(node_address@ =~= sp.node_address);
    }
    Ok(NodeInfo { node_position, node_address })
}

/// Serializes a reply into its canonical encoding.
pub fn encode_reply(p: &Reply) -> (r: Vec<u8>)
    ensures
        r@ == spec_encode_reply(p@),
{
    let ghost part_status = enc_nonzero_uint(REPLY_STATUS_TAG, p@.status as nat);
    let ghost part_value = enc_opt_bytes(REPLY_VALUE_TAG, p@.value);
    let ghost part_pid: Seq<u8> = match p@.pid {
        None => Seq::empty(),
        Some(pid) => enc_uint_field(REPLY_PID_TAG, pid as nat),
    };
    let ghost part_ni: Seq<u8> = match p@.node_info {
        None => Seq::empty(),
        Some(ni) => enc_bytes_field(REPLY_NODE_INFO_TAG, spec_encode_node_info(ni)),
    };
    let mut out: Vec<u8> = Vec::new();
    if p.status > 0 {
        out.push(REPLY_STATUS_TAG);
        encode_varint(p.status as u64, &mut out);
    }
    assert(out@ =~= part_status);
    match &p.value {
        None => {},
        Some(v) => {
            let ghost before = out@;
            out.push(REPLY_VALUE_TAG);
            encode_varint(v.len() as u64, &mut out);
            push_bytes(&mut out, v);
            assert(out@ =~= before + part_value);
        },
    }
    assert(out@ =~= part_status + part_value);
    match &p.pid {
        None => {},
        Some(pid) => {
            let ghost before = out@;
            out.push(REPLY_PID_TAG);
            encode_varint(*pid as u64, &mut out);
            assert(out@ =~= before + part_pid);
        },
    }
    assert(out@ =~= part_status + part_value + part_pid);
    match &p.node_info {
        None => {},
        Some(ni) => {
            let ghost before = out@;
            let ni_bytes = encode_node_info(ni);
            out.push(REPLY_NODE_INFO_TAG);
            encode_varint(ni_bytes.len() as u64, &mut out);
            push_bytes(&mut out, &ni_bytes);
            assert(out@ =~= before + part_ni);
        },
    }
    assert(out@ =~= part_status + part_value + part_pid + part_ni);
    out
}

/// Deserializes a reply from payload bytes.
pub fn parse_reply(bytes: &Vec<u8>) -> (r: Result<Reply, DhtError>)
    ensures
        match r {
            Ok(p) => spec_parse_reply(bytes@) == Some(p@),
            Err(e) => spec_parse_reply(bytes@) is None && e == DhtError::InvalidData,
        },
{
    let blen: usize = bytes.len();
    assert(bytes@.len() == blen as int);
    let r1 = match parse_opt_u32(bytes, 0, REPLY_STATUS_TAG) {
        None => {
            return Err(DhtError::InvalidData);
        },
        Some(x) => x,
    };
    let (sto, i1) = r1;
    proof {
        lemma_sp_opt_uint_bounds(bytes@, 0, REPLY_STATUS_TAG);
    }
    let r2 = match parse_opt_bytes(bytes, i1, REPLY_VALUE_TAG) {
        None => {
            return Err(DhtError::InvalidData);
        },
        Some(x) => x,
    };
    let (vo, i2) = r2;
    proof {
        lemma_sp_opt_bytes_bounds(bytes@, i1 as int, REPLY_VALUE_TAG);
    }
    let r3 = match parse_opt_u32(bytes, i2, REPLY_PID_TAG) {
        None => {
            return Err(DhtError::InvalidData);
        },
        Some(x) => x,
    };
    let (pido, i3) = r3;
    proof {
        lemma_sp_opt_uint_bounds(bytes@, i2 as int, REPLY_PID_TAG);
    }
    let r4 = match parse_opt_bytes(bytes, i3, REPLY_NODE_INFO_TAG) {
        None => {
            return Err(DhtError::InvalidData);
        },
        Some(x) => x,
    };
    let (nio, i4) = r4;
    if i4 != blen {
        return Err(DhtError::InvalidData);
    }
    let status = match sto {
        None => 0u32,
        Some(n) => n,
    };
    let node_info: Option<NodeInfo> = match nio {
        None => None,
        Some(nb) => match parse_node_info(&nb) {
            Ok(ni) => Some(ni),
            Err(e) => {
                return Err(e);
            },
        },
    };
    proof {
        let sp = spec_parse_reply(bytes@).unwrap();
        assert(view_opt_bytes(vo) == sp.value);
    }
    Ok(Reply { status, value: vo, pid: pido, node_info })
}

/// Deserializes the reply carried in a frame's payload.
pub fn extract_reply(udp_message: &Frame) -> (r: Result<Reply, DhtError>)
    ensures
        match r {
            Ok(p) => spec_parse_reply(udp_message@.payload) == Some(p@),
            Err(e) => spec_parse_reply(udp_message@.payload) is None && e == DhtError::InvalidData,
        },
{
    parse_reply(&udp_message.payload)
}

/// An encoded node-info record parses back to the record it came from.
pub proof fn lemma_node_info_round_trip(ni: NodeInfoView)
    ensures
        spec_parse_node_info(spec_encode_node_info(ni)) == Some(ni),
{
    let a = enc_nonzero_uint(NODE_INFO_POSITION_TAG, ni.node_position as nat);
    let b = enc_nonempty_bytes(NODE_INFO_ADDRESS_TAG, ni.node_address);
    let s = spec_encode_node_info(ni);
    assert(s == a + b);

    let i1: int = if ni.node_position > 0 {
        let ea = enc_uint_field(NODE_INFO_POSITION_TAG, ni.node_position as nat);
        assert(a == ea);
        assert(s.subrange(0, ea.len() as int) =~= ea);
        lemma_opt_uint_present(s, 0, NODE_INFO_POSITION_TAG, ni.node_position as nat);
        ea.len() as int
    } else {
        assert(a.len() == 0);
        if b.len() > 0 {
            assert(s[0] == b[0]);
            assert(b[0] == NODE_INFO_ADDRESS_TAG);
        }
        assert(sp_opt_u32(s, 0, NODE_INFO_POSITION_TAG) == Some((None::<u32>, 0int)));
        0
    };
    assert(i1 == a.len());

    if ni.node_address.len() > 0 {
        let eb = enc_bytes_field(NODE_INFO_ADDRESS_TAG, ni.node_address);
        assert(b == eb);
        assert(s.subrange(i1, i1 + eb.len()) =~= eb);
        lemma_opt_bytes_present(s, i1, NODE_INFO_ADDRESS_TAG, ni.node_address);
        assert(i1 + eb.len() == s.len());
    } else {
        assert(b.len() == 0);
        assert(i1 == s.len());
        assert(sp_opt_bytes(s, i1, NODE_INFO_ADDRESS_TAG) == Some((None::<Seq<u8>>, i1)));
    }
    let parsed = spec_parse_node_info(s);
    assert(parsed is Some);
    let g = parsed.unwrap();
    assert(g.node_position == ni.node_position);
    assert(g.node_address =~= ni.node_address);
}

/// An encoded reply parses back to the reply it came from.
pub proof fn lemma_reply_round_trip(p: ReplyView)
    ensures
        spec_parse_reply(spec_encode_reply(p)) == Some(p),
{
    let a = enc_nonzero_uint(REPLY_STATUS_TAG, p.status as nat);
    let b = enc_opt_bytes(REPLY_VALUE_TAG, p.value);
    let c: Seq<u8> = match p.pid {
        None => Seq::empty(),
        Some(pid) => enc_uint_field(REPLY_PID_TAG, pid as nat),
    };
    let d: Seq<u8> = match p.node_info {
        None => Seq::empty(),
        Some(ni) => enc_bytes_field(REPLY_NODE_INFO_TAG, spec_encode_node_info(ni)),
    };
    let s = spec_encode_reply(p);
    assert(s == a + b + c + d);

    let i1: int = if p.status > 0 {
        let ea = enc_uint_field(REPLY_STATUS_TAG, p.status as nat);
        assert(a == ea);
        assert(s.subrange(0, ea.len() as int) =~= ea);
        lemma_opt_uint_present(s, 0, REPLY_STATUS_TAG, p.status as nat);
        ea.len() as int
    } else {
        assert(a.len() == 0);
        if b.len() > 0 {
            assert(s[0] == b[0]);
            assert(b[0] == REPLY_VALUE_TAG);
        } else if c.len() > 0 {
            assert(s[0] == c[0]);
            assert(c[0] == REPLY_PID_TAG);
        } else if d.len() > 0 {
            assert(s[0] == d[0]);
            assert(d[0] == REPLY_NODE_INFO_TAG);
        }
        assert(sp_opt_u32(s, 0, REPLY_STATUS_TAG) == Some((None::<u32>, 0int)));
        0
    };
    assert(i1 == a.len());
    assert(sp_opt_u32(s, 0, REPLY_STATUS_TAG) == Some(
        (if p.status > 0 {
            Some(p.status)
        } else {
            None
        }, i1),
    ));

    let i2: int = match p.value {
        Some(v) => {
            let eb = enc_bytes_field(REPLY_VALUE_TAG, v);
            assert(b == eb);
            assert(s.subrange(i1, i1 + eb.len()) =~= eb);
            lemma_opt_bytes_present(s, i1, REPLY_VALUE_TAG, v);
            i1 + eb.len() as int
        },
        None => {
            assert(b.len() == 0);
            if c.len() > 0 {
                assert(i1 < s.len());
                assert(s[i1] == c[0]);
                assert(c[0] == REPLY_PID_TAG);
            } else if d.len() > 0 {
                assert(i1 < s.len());
                assert(s[i1] == d[0]);
                assert(d[0] == REPLY_NODE_INFO_TAG);
            } else {
                assert(i1 == s.len());
            }
            assert(sp_opt_bytes(s, i1, REPLY_VALUE_TAG) == Some((None::<Seq<u8>>, i1)));
            i1
        },
    };
    assert(i2 == a.len() + b.len());
    assert(sp_opt_bytes(s, i1, REPLY_VALUE_TAG) == Some((p.value, i2)));

    let i3: int = match p.pid {
        Some(pid) => {
            let ec = enc_uint_field(REPLY_PID_TAG, pid as nat);
            assert(c == ec);
            assert(s.subrange(i2, i2 + ec.len()) =~= ec);
            lemma_opt_uint_present(s, i2, REPLY_PID_TAG, pid as nat);
            i2 + ec.len() as int
        },
        None => {
            assert(c.len() == 0);
            if d.len() > 0 {
                assert(i2 < s.len());
                assert(s[i2] == d[0]);
                assert(d[0] == REPLY_NODE_INFO_TAG);
            } else {
                assert(i2 == s.len());
            }
            assert(sp_opt_u32(s, i2, REPLY_PID_TAG) == Some((None::<u32>, i2)));
            i2
        },
    };
    assert(i3 == a.len() + b.len() + c.len());
    assert(sp_opt_u32(s, i2, REPLY_PID_TAG) == Some((p.pid, i3)));

    match p.node_info {
        Some(ni) => {
            let nb = spec_encode_node_info(ni);
            let ed = enc_bytes_field(REPLY_NODE_INFO_TAG, nb);
            assert(d == ed);
            assert(s.subrange(i3, i3 + ed.len()) =~= ed);
            lemma_opt_bytes_present(s, i3, REPLY_NODE_INFO_TAG, nb);
            assert(i3 + ed.len() == s.len());
            lemma_node_info_round_trip(ni);
        },
        None => {
            assert(d.len() == 0);
            assert(i3 == s.len());
            assert(sp_opt_bytes(s, i3, REPLY_NODE_INFO_TAG) == Some((None::<Seq<u8>>, i3)));
        },
    }
    let parsed = spec_parse_reply(s);
    assert(parsed is Some);
    let g = parsed.unwrap();
    assert(g.status == p.status);
    assert(g.value == p.value);
    assert(g.pid == p.pid);
    assert(g.node_info == p.node_info);
}

/// How many random bytes close a message id.
pub const NUM_RAND_BYTES: usize = 2;

/// The 32-bit CRC (the CKSUM variant) of a byte string.
pub uninterp spec fn crc32_cksum_of(data: Seq<u8>) -> u32;

/// Relies on the `crc` crate's `CRC_32_CKSUM` algorithm: the checksum
/// is a function of the input bytes alone.
#[verifier::external_body]
fn crc32_cksum(data: &Vec<u8>) -> (r: u32)
    ensures
        r == crc32_cksum_of(data@),
{
    let crc32 = crc::Crc::<u32>::new(&crc::CRC_32_CKSUM);
    crc32.checksum(data.as_slice())
}

/// The checksum a well-formed frame carries: the 32-bit CRC of its id
/// followed by its payload, widened to 64 bits.
pub open spec fn spec_frame_checksum(id: Seq<u8>, payload: Seq<u8>) -> u64 {
    crc32_cksum_of(id + payload) as u64
}

/// A frame whose stored checksum matches its content.
pub open spec fn frame_checksum_ok(f: FrameView) -> bool {
    f.checksum == spec_frame_checksum(f.id, f.payload)
}

/// Computes the checksum over a message id and payload.
pub fn calculate_checksum(id: &Vec<u8>, payload: &Vec<u8>) -> (r: u64)
    ensures
        r == spec_frame_checksum(id@, payload@),
{
    let mut msg_content: Vec<u8> = Vec::new();
    push_bytes(&mut msg_content, id);
    push_bytes(&mut msg_content, payload);
    assert(msg_content@ =~= id@ + payload@);
    crc32_cksum(&msg_content) as u64
}

/// Recomputes a frame's checksum and accepts the frame exactly when it
/// matches the stored one.
pub fn validate_checksum(message: &Frame) -> (r: Result<(), DhtError>)
    ensures
        r is Ok <==> frame_checksum_ok(message@),
        r is Err ==> r == Err::<(), DhtError>(DhtError::InvalidData),
{
    let checksum: u64 = message.checksum;
    let recalc_checksum: u64 = calculate_checksum(&message.id, &message.payload);
    if checksum == recalc_checksum {
        Ok(())
    } else {
        Err(DhtError::InvalidData)
    }
}

/// Relies on std's `SystemTime`: the nanoseconds since the Unix epoch,
/// or `None` when the system clock reads earlier than the epoch.
#[verifier::external_body]
fn now_unix_nanos() -> (r: Option<u128>)
{
    match std::time::SystemTime::now().duration_since(std::time::UNIX_EPOCH) {
        Ok(d) => Some(d.as_nanos()),
        Err(_) => None,
    }
}

/// Relies on `rand::random` for one random byte; nothing is assumed of
/// its value.
#[verifier::external_body]
fn random_byte() -> (r: u8)
{
    rand::random::<u8>()
}

/// The two bytes of a port number, big-endian.
pub open spec fn spec_port_bytes(port: u16) -> Seq<u8> {
    seq![(port / 256) as u8, (port % 256) as u8]
}

/// The `len` big-endian bytes of `n`: the last byte is the lowest one.
pub open spec fn spec_be_bytes(n: nat, len: nat) -> Seq<u8>
    decreases len,
{
    if len == 0 {
        Seq::empty()
    } else {
        spec_be_bytes(n / 256, (len - 1) as nat).push((n % 256) as u8)
    }
}

/// A big-endian byte string is as long as asked for.
pub proof fn lemma_be_bytes_len(n: nat, len: nat)
    ensures
        spec_be_bytes(n, len).len() == len,
    decreases len,
{
    if len > 0 {
        lemma_be_bytes_len(n / 256, (len - 1) as nat);
    }
}

/// Writes the `len` big-endian bytes of `n`.
fn be_bytes_u128(n: u128, len: usize) -> (r: Vec<u8>)
    ensures
        r@ == spec_be_bytes(n as nat, len as nat),
        r@.len() == len,
    decreases len,
{
    proof {
        lemma_be_bytes_len(n as nat, len as nat);
    }
    if len == 0 {
        Vec::new()
    } else {
        let mut v = be_bytes_u128(n / 256, len - 1);
        v.push((n % 256) as u8);
        v
    }
}

/// The shape of every message id: the sender's textual IP, two
/// big-endian port bytes, sixteen big-endian bytes of a nanosecond
/// count, and the random bytes drawn for this attempt.
pub open spec fn spec_message_id(
    ip_text: Seq<u8>,
    port: u16,
    nanos: nat,
    rand_bytes: Seq<u8>,
) -> Seq<u8> {
    ip_text + spec_port_bytes(port) + spec_be_bytes(nanos, 16) + rand_bytes
}

/// Lays a message id out of its four parts, byte for byte.
pub fn compose_message_id(
    ip_text: &Vec<u8>,
    port: u16,
    nanos: u128,
    rand_bytes: &Vec<u8>,
) -> (r: Vec<u8>)
    requires
        ip_text@.len() + 18 + rand_bytes@.len() <= usize::MAX,
    ensures
        r@ == spec_message_id(ip_text@, port, nanos as nat, rand_bytes@),
        r@.len() == ip_text@.len() + 18 + rand_bytes@.len(),
{
    proof {
        lemma_be_bytes_len(nanos as nat, 16);
    }
    let mut id: Vec<u8> = Vec::new();
    push_bytes(&mut id, ip_text);
    id.push((port / 256) as u8);
    id.push((port % 256) as u8);
    assert(id@ =~= ip_text@ + spec_port_bytes(port));
    let timestamp_bytes = be_bytes_u128(nanos, 16);
    push_bytes(&mut id, &timestamp_bytes);
    push_bytes(&mut id, rand_bytes);
    assert(id@ =~= spec_message_id(ip_text@, port, nanos as nat, rand_bytes@));
    id
}

/// Builds a fresh message id from the clock and the random number
/// generator: the sender's textual IP, two big-endian port bytes,
/// sixteen big-endian bytes of nanoseconds since the Unix epoch, and
/// `num_rand_bytes` random bytes, in that order. Fails only when the
/// system clock reads earlier than the epoch.
pub fn generate_message_id(ip_text: &Vec<u8>, port: u16, num_rand_bytes: usize) -> (r: Result<
    Vec<u8>,
    DhtError,
>)
    requires
        ip_text@.len() + 18 + num_rand_bytes <= usize::MAX,
    ensures
        match r {
            Ok(id) => {
                &&& exists|nanos: nat, rb: Seq<u8>|
                    rb.len() == num_rand_bytes && id@ == #[trigger] spec_message_id(
                        ip_text@,
                        port,
                        nanos,
                        rb,
                    )
                &&& id@.len() == ip_text@.len() + 18 + num_rand_bytes
                &&& id@.subrange(0, ip_text@.len() as int) == ip_text@
                &&& id@.subrange(ip_text@.len() as int, ip_text@.len() + 2 as int) == spec_port_bytes(
                    port,
                )
            },
            Err(e) => e == DhtError::InvalidData,
        },
{
    let nanos: u128 = match now_unix_nanos() {
        Some(n) => n,
        None => {
            return Err(DhtError::InvalidData);
        },
    };

    let mut rand_bytes: Vec<u8> = Vec::new();
    let mut n: usize = 0;
    while n < num_rand_bytes
        invariant
            n <= num_rand_bytes,
            rand_bytes@.len() == n,
        decreases num_rand_bytes - n,
    {
        rand_bytes.push(random_byte());
        n = n + 1;
    }

    let id = compose_message_id(ip_text, port, nanos, &rand_bytes);
    proof {
        lemma_be_bytes_len(nanos as nat, 16);
        assert(id@ == spec_message_id(ip_text@, port, nanos as nat, rand_bytes@));
        assert(id@.subrange(0, ip_text@.len() as int) =~= ip_text@);
        assert(id@.subrange(ip_text@.len() as int, ip_text@.len() + 2 as int) =~= spec_port_bytes(
            port,
        ));
    }
    Ok(id)
}

/// Frames an already-encoded application payload: a fresh message id,
/// the payload, and the checksum over both.
pub fn create_udp_message(payload: Vec<u8>, ip_text: &Vec<u8>, port: u16) -> (r: Result<
    Frame,
    DhtError,
>)
    requires
        ip_text@.len() + 20 <= usize::MAX,
    ensures
        match r {
            Ok(f) => {
                &&& f@.payload == payload@
                &&& frame_checksum_ok(f@)
                &&& f@.id.len() == ip_text@.len() + 18 + NUM_RAND_BYTES
                &&& exists|nanos: nat, rb: Seq<u8>|
                    rb.len() == NUM_RAND_BYTES && f@.id == #[trigger] spec_message_id(
                        ip_text@,
                        port,
                        nanos,
                        rb,
                    )
            },
            Err(e) => e == DhtError::InvalidData,
        },
{
    let id = match generate_message_id(ip_text, port, NUM_RAND_BYTES) {
        Ok(id) => id,
        Err(e) => {
            return Err(e);
        },
    };
    let checksum = calculate_checksum(&id, &payload);
    Ok(Frame { id, payload, checksum })
}

/// The operations a request can name. Their wire codes are fixed:
/// `Put` is 0, `Get` 1, `Delete` 2, `Wipe` 3, `Ping` 4, `Shutdown` 5,
/// `GetPid` 6, `GetNearestPrecedingNodeToKey` 7, `GetSuccessor` 8.
#[derive(Clone, Copy, Debug, PartialEq, Eq, Structural)]
pub enum Operation {
    Put,
    Get,
    Delete,
    Wipe,
    Ping,
    Shutdown,
    GetPid,
    GetNearestPrecedingNodeToKey,
    GetSuccessor,
}

/// The wire code of an operation.
pub open spec fn spec_operation_code(op: Operation) -> u32 {
    match op {
        Operation::Put => 0,
        Operation::Get => 1,
        Operation::Delete => 2,
        Operation::Wipe => 3,
        Operation::Ping => 4,
        Operation::Shutdown => 5,
        Operation::GetPid => 6,
        Operation::GetNearestPrecedingNodeToKey => 7,
        Operation::GetSuccessor => 8,
    }
}

impl Operation {
    /// The wire code of this operation.
    pub fn code(&self) -> (r: u32)
        ensures
            r == spec_operation_code(*self),
    {
        match self {
            Operation::Put => 0,
            Operation::Get => 1,
            Operation::Delete => 2,
            Operation::Wipe => 3,
            Operation::Ping => 4,
            Operation::Shutdown => 5,
            Operation::GetPid => 6,
            Operation::GetNearestPrecedingNodeToKey => 7,
            Operation::GetSuccessor => 8,
        }
    }

    /// The operation a wire code names, if any: exactly the codes 0
    /// through 8 are defined.
    pub fn from_code(value: u32) -> (r: Option<Operation>)
        ensures
            match r {
                Some(op) => spec_operation_code(op) == value,
                None => value > 8,
            },
    {
        match value {
            0 => Some(Operation::Put),
            1 => Some(Operation::Get),
            2 => Some(Operation::Delete),
            3 => Some(Operation::Wipe),
            4 => Some(Operation::Ping),
            5 => Some(Operation::Shutdown),
            6 => Some(Operation::GetPid),
            7 => Some(Operation::GetNearestPrecedingNodeToKey),
            8 => Some(Operation::GetSuccessor),
            _ => None,
        }
    }
}

/// The statuses a reply can carry. Their wire codes are fixed:
/// `Success` is 0, `InvalidKey` 1, `MissingKey` 2, `InvalidValue` 3,
/// `MissingValue` 4, `KeyNotFound` 5, `OutOfMemory` 6,
/// `UndefinedOperation` 7, `InternalError` 8, `InvalidValueSize` 9.
#[derive(Clone, Copy, Debug, PartialEq, Eq, Structural)]
pub enum Status {
    Success,
    InvalidKey,
    MissingKey,
    InvalidValue,
    MissingValue,
    KeyNotFound,
    OutOfMemory,
    UndefinedOperation,
    InternalError,
    InvalidValueSize,
}

/// The wire code of a status.
pub open spec fn spec_status_code(st: Status) -> u32 {
    match st {
        Status::Success => 0,
        Status::InvalidKey => 1,
        Status::MissingKey => 2,
        Status::InvalidValue => 3,
        Status::MissingValue => 4,
        Status::KeyNotFound => 5,
        Status::OutOfMemory => 6,
        Status::UndefinedOperation => 7,
        Status::InternalError => 8,
        Status::InvalidValueSize => 9,
    }
}

impl Status {
    /// The wire code of this status.
    pub fn code(&self) -> (r: u32)
        ensures
            r == spec_status_code(*self),
    {
        match self {
            Status::Success => 0,
            Status::InvalidKey => 1,
            Status::MissingKey => 2,
            Status::InvalidValue => 3,
            Status::MissingValue => 4,
            Status::KeyNotFound => 5,
            Status::OutOfMemory => 6,
            Status::UndefinedOperation => 7,
            Status::InternalError => 8,
            Status::InvalidValueSize => 9,
        }
    }

    /// The status a wire code names, if any: exactly the codes 0
    /// through 9 are defined.
    pub fn from_code(value: u32) -> (r: Option<Status>)
        ensures
            match r {
                Some(st) => spec_status_code(st) == value,
                None => value > 9,
            },
    {
        match value {
            0 => Some(Status::Success),
            1 => Some(Status::InvalidKey),
            2 => Some(Status::MissingKey),
            3 => Some(Status::InvalidValue),
            4 => Some(Status::MissingValue),
            5 => Some(Status::KeyNotFound),
            6 => Some(Status::OutOfMemory),
            7 => Some(Status::UndefinedOperation),
            8 => Some(Status::InternalError),
            9 => Some(Status::InvalidValueSize),
            _ => None,
        }
    }
}

/// The checksum round trip: a frame built from any id and payload,
/// carrying the checksum over both, encodes to bytes that parse back
/// to the very same id, payload and checksum, and that frame's
/// checksum validates.
pub proof fn lemma_checksummed_frame_round_trip(id: Seq<u8>, payload: Seq<u8>)
    ensures
        ({
            let f = FrameView { id, payload, checksum: spec_frame_checksum(id, payload) };
            &&& spec_parse_frame(spec_encode_frame(f)) == Some(f)
            &&& frame_checksum_ok(f)
        }),
{
    let f = FrameView { id, payload, checksum: spec_frame_checksum(id, payload) };
    lemma_frame_round_trip(f);
}

} // verus!

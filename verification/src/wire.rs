//! The form in which a bundle travels between nodes: every identifier as its
//! hyphenated text, the kind as a tag with one text of data. Also the framing
//! of a payload on a stream: a four-byte big-endian length, then the bytes.
use vstd::prelude::*;
use vstd::string::*;

use crate::clock::{representable_secs, secs_representable};
use crate::ids::{hyphenated, parse_uuid, uuid_from_text, uuid_string};
use crate::model::{Bundle, BundleKind, BundleView, KindView, MsgStatus, Node, NodeView};

verus! {

/// The tag of a bundle's kind on the wire.
#[derive(Debug, Clone, Copy, PartialEq, Eq, Structural)]
pub enum WireKind {
    Data,
    Ack,
    RequestSv,
    SummaryVec,
}

/// A bundle as it travels between nodes.
pub struct WireBundle {
    pub id: String,
    pub source_id: String,
    pub source_name: String,
    pub source_address: String,
    pub source_port: u32,
    pub source_peers: Vec<String>,
    pub destination_id: String,
    pub destination_name: String,
    pub destination_address: String,
    pub destination_port: u32,
    pub destination_peers: Vec<String>,
    /// Seconds since the Unix epoch.
    pub timestamp: i64,
    pub ttl: u64,
    pub kind: WireKind,
    pub kind_data: String,
    pub shipment_status: MsgStatus,
}

/// Model of a `WireBundle`.
pub struct WireView {
    pub id: Seq<char>,
    pub source_id: Seq<char>,
    pub source_name: Seq<char>,
    pub source_address: Seq<char>,
    pub source_port: u32,
    pub source_peers: Seq<Seq<char>>,
    pub destination_id: Seq<char>,
    pub destination_name: Seq<char>,
    pub destination_address: Seq<char>,
    pub destination_port: u32,
    pub destination_peers: Seq<Seq<char>>,
    pub timestamp: i64,
    pub ttl: u64,
    pub kind: WireKind,
    pub kind_data: Seq<char>,
    pub shipment_status: MsgStatus,
}

/// The models of a sequence of strings.
pub open spec fn texts(v: Seq<String>) -> Seq<Seq<char>> {
    v.map_values(|t: String| t@)
}

impl View for WireBundle {
    type V = WireView;

    open spec fn view(&self) -> WireView {
        WireView {
            id: self.id@,
            source_id: self.source_id@,
            source_name: self.source_name@,
            source_address: self.source_address@,
            source_port: self.source_port,
            source_peers: texts(self.source_peers@),
            destination_id: self.destination_id@,
            destination_name: self.destination_name@,
            destination_address: self.destination_address@,
            destination_port: self.destination_port,
            destination_peers: texts(self.destination_peers@),
            timestamp: self.timestamp,
            ttl: self.ttl,
            kind: self.kind,
            kind_data: self.kind_data@,
            shipment_status: self.shipment_status,
        }
    }
}

/// The texts of a list of ids, joined by commas.
pub open spec fn joined(ids: Seq<u128>) -> Seq<char>
    decreases ids.len(),
{
    if ids.len() == 0 {
        Seq::empty()
    } else if ids.len() == 1 {
        hyphenated(ids[0])
    } else {
        joined(ids.drop_last()) + ","@ + hyphenated(ids.last())
    }
}

/// The texts of a list of ids.
pub open spec fn id_texts(ids: Seq<u128>) -> Seq<Seq<char>> {
    ids.map_values(|id: u128| hyphenated(id))
}

/// The tag and data text of a kind on the wire.
pub open spec fn wire_kind(k: KindView) -> (WireKind, Seq<char>) {
    match k {
        KindView::Data { msg } => (WireKind::Data, msg),
        KindView::Ack { ack_bundle_id } => (WireKind::Ack, hyphenated(ack_bundle_id)),
        KindView::RequestSV { from } => (WireKind::RequestSv, hyphenated(from)),
        KindView::SummaryVector { ids } => (WireKind::SummaryVec, joined(ids)),
    }
}

/// The wire form of a bundle; it always travels as pending, and its
/// creation time in whole seconds.
pub open spec fn wire_of(b: BundleView) -> WireView {
    WireView {
        id: hyphenated(b.id),
        source_id: hyphenated(b.source.id),
        source_name: b.source.name,
        source_address: b.source.address,
        source_port: b.source.port as u32,
        source_peers: id_texts(b.source.peers),
        destination_id: hyphenated(b.destination.id),
        destination_name: b.destination.name,
        destination_address: b.destination.address,
        destination_port: b.destination.port as u32,
        destination_peers: id_texts(b.destination.peers),
        timestamp: b.timestamp,
        ttl: b.ttl,
        kind: wire_kind(b.kind).0,
        kind_data: wire_kind(b.kind).1,
        shipment_status: MsgStatus::Pending,
    }
}

/// The id a text names, or the nil id where it names none.
pub open spec fn id_or_nil(text: Seq<char>) -> u128 {
    match uuid_from_text(text) {
        Some(id) => id,
        None => 0,
    }
}

/// The node described by wire fields; a port keeps its low 16 bits.
pub open spec fn node_of_wire(
    id: Seq<char>,
    name: Seq<char>,
    address: Seq<char>,
    port: u32,
    peers: Seq<Seq<char>>,
) -> NodeView {
    NodeView {
        id: id_or_nil(id),
        name,
        address,
        port: (port as int % 65536) as u16,
        peers: peers.map_values(|t: Seq<char>| id_or_nil(t)),
    }
}

/// The bundle a wire form describes: unreadable ids become the nil id, a
/// time out of the calendar's range the epoch, and the time has no
/// nanoseconds; an acknowledgement tag reads the data as the acknowledged
/// id, every other tag as a data message; the status is pending.
pub open spec fn bundle_of_wire(w: WireView) -> BundleView {
    BundleView {
        id: id_or_nil(w.id),
        source: node_of_wire(w.source_id, w.source_name, w.source_address, w.source_port, w.source_peers),
        destination: node_of_wire(
            w.destination_id,
            w.destination_name,
            w.destination_address,
            w.destination_port,
            w.destination_peers,
        ),
        timestamp: if representable_secs(w.timestamp) {
            w.timestamp
        } else {
            0
        },
        timestamp_nanos: 0,
        ttl: w.ttl,
        kind: if w.kind == WireKind::Ack {
            KindView::Ack { ack_bundle_id: id_or_nil(w.kind_data) }
        } else {
            KindView::Data { msg: w.kind_data }
        },
        shipment_status: MsgStatus::Pending,
    }
}

/// Every id text of `ts` reads back as the corresponding id of `ids`.
pub open spec fn texts_read_back(ts: Seq<Seq<char>>, ids: Seq<u128>) -> bool {
    &&& ts.len() == ids.len()
    &&& forall|i: int| 0 <= i < ts.len() ==> uuid_from_text(#[trigger] ts[i]) == Some(ids[i])
}

/// What encoding promises beyond the text: every id written reads back.
pub open spec fn reads_back(w: WireView, b: BundleView) -> bool {
    &&& uuid_from_text(w.id) == Some(b.id)
    &&& uuid_from_text(w.source_id) == Some(b.source.id)
    &&& uuid_from_text(w.destination_id) == Some(b.destination.id)
    &&& texts_read_back(w.source_peers, b.source.peers)
    &&& texts_read_back(w.destination_peers, b.destination.peers)
    &&& (b.kind matches KindView::Ack { ack_bundle_id } ==> uuid_from_text(w.kind_data) == Some(
        ack_bundle_id,
    ))
}

/// The texts of `ids`, each of which reads back as its id.
fn id_strings(ids: &Vec<u128>) -> (r: Vec<String>)
    ensures
        texts(r@) == id_texts(ids@),
        texts_read_back(texts(r@), ids@),
{
    let mut out: Vec<String> = Vec::new();
    let mut i: usize = 0;
    while i < ids.len()
        invariant
            i <= ids.len(),
            texts(out@) == id_texts(ids@.take(i as int)),
            texts_read_back(texts(out@), ids@.take(i as int)),
        decreases ids.len() - i,
    {
        let t = uuid_string(ids[i]);
        let ghost before = out@;
        out.push(t);
        proof {
            assert(texts(out@) =~= texts(before).push(t@));
            assert(ids@.take(i + 1) =~= ids@.take(i as int).push(ids@[i as int]));
            assert(id_texts(ids@.take(i + 1)) =~= id_texts(ids@.take(i as int)).push(
                hyphenated(ids@[i as int]),
            ));
            assert forall|j: int| 0 <= j < texts(out@).len() implies uuid_from_text(
                #[trigger] texts(out@)[j],
            ) == Some(ids@.take(i + 1)[j]) by {
                if j < i {
                    assert(texts(out@)[j] == texts(before)[j]);
                }
            }
        }
        i = i + 1;
    }
    assert(ids@.take(ids.len() as int) =~= ids@);
    out
}

/// The texts of `ids` joined by commas.
fn join_ids(ids: &Vec<u128>) -> (r: String)
    ensures
        r@ == joined(ids@),
{
    let mut out = String::new();
    let mut i: usize = 0;
    while i < ids.len()
        invariant
            i <= ids.len(),
            out@ == joined(ids@.take(i as int)),
        decreases ids.len() - i,
    {
        proof {
            assert(ids@.take(i + 1).drop_last() =~= ids@.take(i as int));
        }
        let t = uuid_string(ids[i]);
        if i > 0 {
            out.append(",");
        }
        out.append(t.as_str());
        proof {
            if i == 0 {
                assert(joined(ids@.take(0)) == Seq::<char>::empty());
                assert(out@ =~= hyphenated(ids@[0]));
            }
        }
        i = i + 1;
    }
    assert(ids@.take(ids.len() as int) =~= ids@);
    out
}

impl WireBundle {
    /// The wire form of `b`.
    pub fn from_bundle(b: &Bundle) -> (w: WireBundle)
        ensures
            w@ == wire_of(b@),
            reads_back(w@, b@),
    {
        let (kind, kind_data) = match &b.kind {
            BundleKind::Data { msg } => (WireKind::Data, msg.clone()),
            BundleKind::Ack { ack_bundle_id } => (WireKind::Ack, uuid_string(*ack_bundle_id)),
            BundleKind::RequestSV { from } => (WireKind::RequestSv, uuid_string(*from)),
            BundleKind::SummaryVector { ids } => (WireKind::SummaryVec, join_ids(ids)),
        };
        let w = WireBundle {
            id: uuid_string(b.id),
            source_id: uuid_string(b.source.id),
            source_name: b.source.name.clone(),
            source_address: b.source.address.clone(),
            source_port: b.source.port as u32,
            source_peers: id_strings(&b.source.peers),
            destination_id: uuid_string(b.destination.id),
            destination_name: b.destination.name.clone(),
            destination_address: b.destination.address.clone(),
            destination_port: b.destination.port as u32,
            destination_peers: id_strings(&b.destination.peers),
            timestamp: b.timestamp,
            ttl: b.ttl,
            kind,
            kind_data,
            shipment_status: MsgStatus::Pending,
        };
        assert(w@ =~= wire_of(b@));
        w
    }
}

/// The id a text names, or the nil id.
fn read_id(text: &String) -> (id: u128)
    ensures
        id == id_or_nil(text@),
{
    match parse_uuid(text.as_str()) {
        Some(id) => id,
        None => 0,
    }
}

/// The ids the texts name, each unreadable one as the nil id.
fn read_ids(ts: &Vec<String>) -> (r: Vec<u128>)
    ensures
        r@ == texts(ts@).map_values(|t: Seq<char>| id_or_nil(t)),
{
    let mut out: Vec<u128> = Vec::new();
    let mut i: usize = 0;
    while i < ts.len()
        invariant
            i <= ts.len(),
            out@ == texts(ts@).take(i as int).map_values(|t: Seq<char>| id_or_nil(t)),
        decreases ts.len() - i,
    {
        let id = read_id(&ts[i]);
        let ghost before = out@;
        out.push(id);
        assert(texts(ts@).take(i + 1) =~= texts(ts@).take(i as int).push(ts@[i as int]@));
        assert(out@ =~= texts(ts@).take(i + 1).map_values(|t: Seq<char>| id_or_nil(t)));
        i = i + 1;
    }
    assert(texts(ts@).take(ts.len() as int) =~= texts(ts@));
    out
}

/// The low 16 bits of a port.
fn port_of(p: u32) -> (r: u16)
    ensures
        r == (p as int % 65536) as u16,
{
    (p % 65536) as u16
}

impl Bundle {
    /// The bundle a wire form describes (see `bundle_of_wire`).
    pub fn from_wire(w: WireBundle) -> (b: Bundle)
        ensures
            b@ == bundle_of_wire(w@),
    {
        let source = Node {
            id: read_id(&w.source_id),
            name: w.source_name.clone(),
            address: w.source_address.clone(),
            port: port_of(w.source_port),
            peers: read_ids(&w.source_peers),
        };
        let destination = Node {
            id: read_id(&w.destination_id),
            name: w.destination_name.clone(),
            address: w.destination_address.clone(),
            port: port_of(w.destination_port),
            peers: read_ids(&w.destination_peers),
        };
        let timestamp = if secs_representable(w.timestamp) {
            w.timestamp
        } else {
            0
        };
        let kind = if w.kind == WireKind::Ack {
            BundleKind::Ack { ack_bundle_id: read_id(&w.kind_data) }
        } else {
            BundleKind::Data { msg: w.kind_data.clone() }
        };
        let b = Bundle {
            id: read_id(&w.id),
            source,
            destination,
            timestamp,
            timestamp_nanos: 0,
            ttl: w.ttl,
            kind,
            shipment_status: MsgStatus::Pending,
        };
        assert(b@.source =~= bundle_of_wire(w@).source);
        assert(b@.destination =~= bundle_of_wire(w@).destination);
        b
    }
}

/// The four big-endian bytes of `n`.
pub open spec fn be_bytes(n: u32) -> Seq<u8> {
    seq![
        (n as int / 0x100_0000) as u8,
        (n as int / 0x1_0000 % 0x100) as u8,
        (n as int / 0x100 % 0x100) as u8,
        (n as int % 0x100) as u8,
    ]
}

/// The number four big-endian bytes spell.
pub open spec fn be_value(b: Seq<u8>) -> int {
    b[0] * 0x100_0000 + b[1] * 0x1_0000 + b[2] * 0x100 + b[3]
}

/// A payload framed for a stream: its length, cut to 32 bits, as four
/// big-endian bytes, then the payload.
pub fn frame(payload: &[u8]) -> (f: Vec<u8>)
    ensures
        f@ == be_bytes((payload@.len() % 0x1_0000_0000) as u32) + payload@,
{
    let len: u32 = (payload.len() as u64 % 0x1_0000_0000u64) as u32;
    let mut f: Vec<u8> = Vec::new();
    f.push((len / 0x100_0000) as u8);
    f.push((len / 0x1_0000 % 0x100) as u8);
    f.push((len / 0x100 % 0x100) as u8);
    f.push((len % 0x100) as u8);
    let mut i: usize = 0;
    while i < payload.len()
        invariant
            i <= payload@.len(),
            f@ == be_bytes(len) + payload@.take(i as int),
            len == (payload@.len() % 0x1_0000_0000) as u32,
        decreases payload.len() - i,
    {
        f.push(payload[i]);
        assert(payload@.take(i + 1) =~= payload@.take(i as int).push(payload@[i as int]));
        assert(f@ =~= be_bytes(len) + payload@.take(i + 1));
        i = i + 1;
    }
    assert(payload@.take(payload@.len() as int) =~= payload@);
    f
}

/// The payload length a frame's four-byte prefix announces.
pub fn frame_length(prefix: [u8; 4]) -> (len: u32)
    ensures
        len as int == be_value(prefix@),
{
    let a = prefix[0] as u32;
    let b = prefix[1] as u32;
    let c = prefix[2] as u32;
    let d = prefix[3] as u32;
    assert(a * 0x100_0000 + b * 0x1_0000 + c * 0x100 + d <= 0xffff_ffff) by (nonlinear_arith)
        requires
            a < 256,
            b < 256,
            c < 256,
            d < 256,
    ;
    a * 0x100_0000 + b * 0x1_0000 + c * 0x100 + d
}

/// Whether a failed connection attempt, the `attempt`-th of at most
/// `max_retries`, is followed by a pause and another attempt.
pub fn retry_after_failure(attempt: u32, max_retries: u32) -> (r: bool)
    ensures
        r == (attempt < max_retries),
{
    attempt < max_retries
}

/// Whether an incoming stream opens with a control message (a JSON object)
/// rather than a framed bundle.
pub fn is_control_message(first_byte: u8) -> (r: bool)
    ensures
        r == (first_byte == 0x7b),
{
    first_byte == 0x7b
}

} // verus!

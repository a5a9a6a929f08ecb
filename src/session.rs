use crate::hub::BroadcastChannel;
use crate::hub::HubView;
use crate::hub::broadcast_post;
use crate::hub::broadcast_result;
use crate::hub::update_post;
use crate::marker::Header;
use crate::marker::headers_view;
use crate::mjpeg_marker::MJPEGStartMarker;
use crate::mjpeg_marker::boundary_after;
use crate::mjpeg_marker::matches_at;
use crate::mjpeg_marker::segment_view;
use crate::mjpeg_marker::split_segments;
use vstd::prelude::*;

verus! {

/// What can stop the relay before it starts.
#[derive(Debug, PartialEq, Eq, Structural)]
pub enum HttpBounderError {
    UrlNotProvided,
}

/// Where the upstream stream comes from, and the credentials to fetch it with.
pub struct SourceClientConfig {
    pub user: Option<String>,
    pub url: String,
}

impl SourceClientConfig {
    /// The configuration, or `UrlNotProvided` where no upstream URL was given.
    pub fn new(user: Option<String>, url: Option<String>) -> (r: Result<Self, HttpBounderError>)
        ensures
            match url {
                Some(u) => r matches Ok(c) && c.url == u && c.user == user,
                None => r == Err::<Self, HttpBounderError>(HttpBounderError::UrlNotProvided),
            },
    {
        match url {
            Some(u) => Ok(SourceClientConfig { user, url: u }),
            None => Err(HttpBounderError::UrlNotProvided),
        }
    }
}

/// How long the fetch loop waits before it connects again, in milliseconds.
pub const RETRY_DELAY_MS: u64 = 3000;

/// The fetch loop's phase.
#[derive(Debug, Clone, Copy, PartialEq, Eq, Structural)]
pub enum FetchState {
    Connecting,
    Streaming,
    Waiting,
}

/// What happened to the upstream connection.
#[derive(Debug, Clone, Copy, PartialEq, Eq, Structural)]
pub enum FetchEvent {
    /// The upstream answered with a status and headers.
    Connected,
    /// A body chunk arrived.
    Chunk,
    /// The body ended, or the request or a read failed.
    Disconnected,
    /// The wait before the next attempt is over.
    DelayElapsed,
}

/// What the fetch loop does next.
#[derive(Debug, Clone, Copy, PartialEq, Eq, Structural)]
pub enum FetchAction {
    /// Open a new upstream request.
    Request,
    /// Read the next body chunk.
    ReadChunk,
    /// Wait this many milliseconds.
    Sleep(u64),
}

/// The fetch loop's decisions: it connects, streams until the connection
/// ends, waits a fixed delay, and connects again, forever.
pub fn fetch_step(state: FetchState, event: FetchEvent) -> (r: (FetchState, FetchAction))
    ensures
        event == FetchEvent::Disconnected ==> r == (FetchState::Waiting, FetchAction::Sleep(
            RETRY_DELAY_MS,
        )),
        event != FetchEvent::Disconnected && state == FetchState::Waiting ==> r == (
        FetchState::Connecting, FetchAction::Request),
        event != FetchEvent::Disconnected && state == FetchState::Connecting ==> r == (if event
            == FetchEvent::DelayElapsed {
            (FetchState::Connecting, FetchAction::Request)
        } else {
            (FetchState::Streaming, FetchAction::ReadChunk)
        }),
        event != FetchEvent::Disconnected && state == FetchState::Streaming ==> r == (
        FetchState::Streaming, FetchAction::ReadChunk),
{
    match (state, event) {
        (_, FetchEvent::Disconnected) => (FetchState::Waiting, FetchAction::Sleep(RETRY_DELAY_MS)),
        (FetchState::Waiting, _) => (FetchState::Connecting, FetchAction::Request),
        (FetchState::Connecting, FetchEvent::DelayElapsed) => (FetchState::Connecting, FetchAction::Request),
        (_, _) => (FetchState::Streaming, FetchAction::ReadChunk),
    }
}

/// The header name `connection`.
pub open spec fn connection_name() -> Seq<u8> {
    seq![0x63, 0x6f, 0x6e, 0x6e, 0x65, 0x63, 0x74, 0x69, 0x6f, 0x6e]
}

/// The header name `content-length`.
pub open spec fn content_length_name() -> Seq<u8> {
    seq![0x63, 0x6f, 0x6e, 0x74, 0x65, 0x6e, 0x74, 0x2d, 0x6c, 0x65, 0x6e, 0x67, 0x74, 0x68]
}

/// `hs` without the transport framing headers, order kept: the downstream
/// side frames its responses itself.
pub open spec fn forwardable(hs: Seq<(Seq<u8>, Seq<u8>)>) -> Seq<(Seq<u8>, Seq<u8>)>
    decreases hs.len(),
{
    if hs.len() == 0 {
        hs
    } else if hs.last().0 == connection_name() || hs.last().0 == content_length_name() {
        forwardable(hs.drop_last())
    } else {
        forwardable(hs.drop_last()).push(hs.last())
    }
}

fn same_bytes(a: &Vec<u8>, b: &Vec<u8>) -> (r: bool)
    ensures
        r == (a@ == b@),
{
    if a.len() != b.len() {
        return false;
    }
    let r = matches_at(a.as_slice(), b.as_slice(), 0);
    assert(a@.subrange(0, b@.len() as int) =~= a@);
    r
}

/// The response headers that are handed on to consumers.
pub fn forwardable_headers(headers: &Vec<Header>) -> (r: Vec<Header>)
    ensures
        headers_view(r@) == forwardable(headers_view(headers@)),
{
    let connection: Vec<u8> = vec![0x63, 0x6f, 0x6e, 0x6e, 0x65, 0x63, 0x74, 0x69, 0x6f, 0x6e];
    let content_length: Vec<u8> = vec![0x63, 0x6f, 0x6e, 0x74, 0x65, 0x6e, 0x74, 0x2d, 0x6c, 0x65,
        0x6e, 0x67, 0x74, 0x68];
    assert(connection@ =~= connection_name());
    assert(content_length@ =~= content_length_name());
    let mut r: Vec<Header> = Vec::new();
    let mut i: usize = 0;
    while i < headers.len()
        invariant
            i <= headers@.len(),
            connection@ == connection_name(),
            content_length@ == content_length_name(),
            headers_view(r@) == forwardable(headers_view(headers@.subrange(0, i as int))),
        decreases headers.len() - i,
    {
        let h = &headers[i];
        assert(headers_view(headers@.subrange(0, i + 1)).drop_last() =~= headers_view(
            headers@.subrange(0, i as int),
        ));
        assert(headers_view(headers@.subrange(0, i + 1)).last() == h@);
        if !same_bytes(&h.name, &connection) && !same_bytes(&h.name, &content_length) {
            let ghost before = r@;
            r.push(h.copy());
            assert(headers_view(r@) =~= headers_view(before).push(h@));
        }
        i = i + 1;
    }
    assert(headers@.subrange(0, headers@.len() as int) =~= headers@);
    r
}

/// The base64 text of some bytes, as bytes.
pub uninterp spec fn base64_of(b: Seq<u8>) -> Seq<u8>;

/// Relies on base64::encode: the standard, padded base64 text of `b`, which
/// depends on the bytes alone.
#[verifier::external_body]
fn base64_encode(b: &[u8]) -> (r: Vec<u8>)
    ensures
        r@ == base64_of(b@),
{
    base64::encode(b).into_bytes()
}

/// The `Basic ` scheme word of an authorization header.
pub open spec fn basic_scheme() -> Seq<u8> {
    seq![0x42, 0x61, 0x73, 0x69, 0x63, 0x20]
}

/// The authorization header value for a `user:password` credential.
pub fn authorization_value(user: &[u8]) -> (r: Vec<u8>)
    ensures
        r@ == basic_scheme() + base64_of(user@),
{
    let mut r: Vec<u8> = vec![0x42, 0x61, 0x73, 0x69, 0x63, 0x20];
    let encoded = base64_encode(user);
    let mut k: usize = 0;
    while k < encoded.len()
        invariant
            k <= encoded@.len(),
            r@ == basic_scheme() + encoded@.subrange(0, k as int),
        decreases encoded.len() - k,
    {
        r.push(encoded[k]);
        assert(encoded@.subrange(0, k + 1) =~= encoded@.subrange(0, k as int).push(encoded@[k as int]));
        k = k + 1;
    }
    assert(encoded@.subrange(0, encoded@.len() as int) =~= encoded@);
    r
}

/// Takes a new upstream response: the hub gets its status and forwardable
/// headers, and the returned marker the boundary that its headers declare.
pub fn begin_session(hub: &mut BroadcastChannel, status: u16, headers: &Vec<Header>) -> (r:
    MJPEGStartMarker)
    ensures
        r@ == boundary_after(None, headers_view(headers@)),
        update_post(old(hub)@, status, forwardable(headers_view(headers@)), final(hub)@),
{
    let mut marker = MJPEGStartMarker::new();
    marker.read_headers(headers);
    hub.update_stream_state(status, forwardable_headers(headers));
    marker
}

/// The hub once a segment slot went out, dropping the consumers in `evicted`.
pub open spec fn slot_result(old: HubView, slot: Option<(Seq<u8>, bool)>, evicted: Seq<u64>) -> HubView {
    match slot {
        Some(seg) => broadcast_result(old, seg, evicted),
        None => old,
    }
}

/// One segment slot went out: a present segment was broadcast, dropping the
/// consumers in `evicted`; an empty slot changed nothing.
pub open spec fn slot_post(
    old: HubView,
    slot: Option<(Seq<u8>, bool)>,
    new: HubView,
    evicted: Seq<u64>,
) -> bool {
    match slot {
        Some(seg) => broadcast_post(old, seg, new, evicted),
        None => new == old && evicted.len() == 0,
    }
}

/// Relays one upstream chunk: cuts it at the boundary and broadcasts the
/// segments in order. Hands back, for each segment slot, the ids of the
/// consumers dropped while it went out.
pub fn forward_chunk(hub: &mut BroadcastChannel, marker: &MJPEGStartMarker, chunk: &[u8]) -> (r: [Vec<
    u64,
>; 3])
    ensures
        ({
            let s = split_segments(chunk@, marker@);
            let h1 = slot_result(old(hub)@, s[0], r[0]@);
            let h2 = slot_result(h1, s[1], r[1]@);
            &&& slot_post(old(hub)@, s[0], h1, r[0]@)
            &&& slot_post(h1, s[1], h2, r[1]@)
            &&& slot_post(h2, s[2], final(hub)@, r[2]@)
        }),
{
    let segs = marker.mark_chunk(chunk);
    let ra = send_slot(hub, &segs[0]);
    let rb = send_slot(hub, &segs[1]);
    let rc = send_slot(hub, &segs[2]);
    [ra, rb, rc]
}

fn send_slot(hub: &mut BroadcastChannel, slot: &Option<crate::marker::BcDataMarked>) -> (r: Vec<u64>)
    ensures
        slot_post(old(hub)@, segment_view(*slot), final(hub)@, r@),
{
    match slot {
        Some(seg) => hub.broadcast(seg),
        None => Vec::new(),
    }
}

} // verus!

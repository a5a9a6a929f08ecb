use httpbounder::hub::BroadcastChannel;
use httpbounder::hub::QUEUE_CAPACITY;
use httpbounder::marker::BcDataMarked;
use httpbounder::marker::Header;
use httpbounder::session::authorization_value;
use httpbounder::session::begin_session;
use httpbounder::session::fetch_step;
use httpbounder::session::forward_chunk;
use httpbounder::session::forwardable_headers;
use httpbounder::session::FetchAction;
use httpbounder::session::FetchEvent;
use httpbounder::session::FetchState;
use httpbounder::session::HttpBounderError;
use httpbounder::session::SourceClientConfig;
use httpbounder::session::RETRY_DELAY_MS;
use tokio::sync::mpsc::Receiver;

fn drain(rx: &mut Receiver<Vec<u8>>) -> Vec<Vec<u8>> {
    let mut out = Vec::new();
    while let Ok(b) = rx.try_recv() {
        out.push(b);
    }
    out
}

fn h(name: &str, value: &str) -> Header {
    Header::new(name.as_bytes().to_vec(), value.as_bytes().to_vec())
}

fn upstream_headers() -> Vec<Header> {
    vec![
        h("content-type", "multipart/x-mixed-replace; boundary=X"),
        h("connection", "close"),
        h("content-length", "100"),
        h("server", "cam"),
    ]
}

#[test]
fn two_consumers_receive_both_frames_in_order() {
    let mut hub = BroadcastChannel::new();
    let mut a = hub.attach().rx;
    let mut b = hub.attach().rx;
    let marker = begin_session(&mut hub, 200, &upstream_headers());
    forward_chunk(&mut hub, &marker, b"--X\r\nFRAME1DATA");
    forward_chunk(&mut hub, &marker, b"--X\r\nFRAME2DATA");
    let want: Vec<Vec<u8>> = vec![
        b"--X\r\n".to_vec(),
        b"FRAME1DATA".to_vec(),
        b"--X\r\n".to_vec(),
        b"FRAME2DATA".to_vec(),
    ];
    assert_eq!(drain(&mut a), want);
    assert_eq!(drain(&mut b), want);
}

#[test]
fn late_consumer_waits_for_a_frame_start() {
    let mut hub = BroadcastChannel::new();
    let mut rx = hub.attach().rx;
    hub.broadcast(&BcDataMarked::new_invalid(b"middle".to_vec()));
    hub.broadcast(&BcDataMarked::new_invalid(b"of frame".to_vec()));
    assert!(drain(&mut rx).is_empty());
    hub.broadcast(&BcDataMarked::new_valid_start(b"--X\r\n".to_vec()));
    hub.broadcast(&BcDataMarked::new_invalid(b"data".to_vec()));
    assert_eq!(drain(&mut rx), vec![b"--X\r\n".to_vec(), b"data".to_vec()]);
}

#[test]
fn slow_consumer_is_dropped_and_others_keep_everything() {
    let mut hub = BroadcastChannel::new();
    let fast = hub.attach();
    let slow = hub.attach();
    let third = hub.attach();
    let (mut fast_rx, _slow_rx, mut third_rx) = (fast.rx, slow.rx, third.rx);
    let n = QUEUE_CAPACITY + 10;
    let mut got_fast = Vec::new();
    let mut got_third = Vec::new();
    for j in 0..n {
        let evicted = hub.broadcast(&BcDataMarked::new_valid_start(vec![(j % 251) as u8]));
        if j == QUEUE_CAPACITY {
            assert_eq!(evicted, vec![slow.id]);
        } else {
            assert!(evicted.is_empty());
        }
        got_fast.extend(drain(&mut fast_rx));
        got_third.extend(drain(&mut third_rx));
    }
    let want: Vec<Vec<u8>> = (0..n).map(|j| vec![(j % 251) as u8]).collect();
    assert_eq!(got_fast, want);
    assert_eq!(got_third, want);
}

#[test]
fn closed_consumer_is_dropped() {
    let mut hub = BroadcastChannel::new();
    let gone = hub.attach();
    let mut kept = hub.attach().rx;
    drop(gone.rx);
    let evicted = hub.broadcast(&BcDataMarked::new_invalid(b"x".to_vec()));
    assert!(evicted.is_empty());
    let evicted = hub.broadcast(&BcDataMarked::new_valid_start(b"y".to_vec()));
    assert_eq!(evicted, vec![gone.id]);
    assert_eq!(drain(&mut kept), vec![b"y".to_vec()]);
}

#[test]
fn attach_reports_the_latest_stream_state() {
    let mut hub = BroadcastChannel::new();
    let first = hub.attach();
    assert_eq!(first.status, 502);
    assert!(first.headers.is_empty());
    begin_session(&mut hub, 200, &upstream_headers());
    let second = hub.attach();
    assert_eq!(second.status, 200);
    let names: Vec<Vec<u8>> = second.headers.iter().map(|x| x.name.clone()).collect();
    assert_eq!(names, vec![b"content-type".to_vec(), b"server".to_vec()]);
    hub.update_stream_state(404, vec![h("server", "other")]);
    let third = hub.attach();
    assert_eq!(third.status, 404);
    assert_eq!(third.headers.len(), 1);
    assert_eq!(third.headers[0].value, b"other".to_vec());
    assert!(first.id < second.id && second.id < third.id);
}

#[test]
fn consumers_survive_a_reconnect() {
    let mut hub = BroadcastChannel::new();
    let mut rx = hub.attach().rx;
    let marker = begin_session(&mut hub, 200, &upstream_headers());
    forward_chunk(&mut hub, &marker, b"--X\r\nFRAME1");
    forward_chunk(&mut hub, &marker, b"PARTIAL");
    assert_eq!(drain(&mut rx).len(), 3);

    let (state, action) = fetch_step(FetchState::Streaming, FetchEvent::Disconnected);
    assert_eq!(state, FetchState::Waiting);
    assert_eq!(action, FetchAction::Sleep(3000));
    let (state, action) = fetch_step(state, FetchEvent::DelayElapsed);
    assert_eq!((state, action), (FetchState::Connecting, FetchAction::Request));

    let marker = begin_session(&mut hub, 200, &upstream_headers());
    forward_chunk(&mut hub, &marker, b"leftover");
    assert!(drain(&mut rx).is_empty());
    forward_chunk(&mut hub, &marker, b"--X\r\nFRAME2");
    assert_eq!(drain(&mut rx), vec![b"--X\r\n".to_vec(), b"FRAME2".to_vec()]);
}

#[test]
fn fetch_loop_never_stops() {
    assert_eq!(RETRY_DELAY_MS, 3000);
    let (s, a) = fetch_step(FetchState::Connecting, FetchEvent::Connected);
    assert_eq!((s, a), (FetchState::Streaming, FetchAction::ReadChunk));
    let (s, a) = fetch_step(s, FetchEvent::Chunk);
    assert_eq!((s, a), (FetchState::Streaming, FetchAction::ReadChunk));
    let (s, a) = fetch_step(FetchState::Connecting, FetchEvent::Disconnected);
    assert_eq!((s, a), (FetchState::Waiting, FetchAction::Sleep(RETRY_DELAY_MS)));
}

#[test]
fn framing_headers_are_not_forwarded() {
    let r = forwardable_headers(&upstream_headers());
    assert_eq!(r.len(), 2);
    assert_eq!(r[0].name, b"content-type".to_vec());
    assert_eq!(r[1].name, b"server".to_vec());
    assert_eq!(r[1].value, b"cam".to_vec());
}

#[test]
fn authorization_is_basic_base64() {
    assert_eq!(authorization_value(b"user:pass"), b"Basic dXNlcjpwYXNz".to_vec());
    assert_eq!(authorization_value(b""), b"Basic ".to_vec());
}

#[test]
fn missing_url_is_refused() {
    assert!(matches!(
        SourceClientConfig::new(None, None),
        Err(HttpBounderError::UrlNotProvided)
    ));
    let c = SourceClientConfig::new(Some("u:p".to_string()), Some("http://cam/v.mjpg".to_string()));
    let c = c.ok().unwrap();
    assert_eq!(c.url, "http://cam/v.mjpg");
    assert_eq!(c.user, Some("u:p".to_string()));
}

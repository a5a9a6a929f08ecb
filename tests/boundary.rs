use httpbounder::marker::BcDataMarked;
use httpbounder::marker::Header;
use httpbounder::mjpeg_marker::configure;
use httpbounder::mjpeg_marker::make_boundary;
use httpbounder::mjpeg_marker::trim_boundary;
use httpbounder::mjpeg_marker::MJPEGStartMarker;

fn seg(o: &Option<BcDataMarked>) -> Option<(Vec<u8>, bool)> {
    o.as_ref().map(|m| (m.bytes.clone(), m.valid_start))
}

fn marker_for(value: &[u8]) -> MJPEGStartMarker {
    let mut m = MJPEGStartMarker::new();
    m.read_headers(&vec![Header::new(b"content-type".to_vec(), value.to_vec())]);
    m
}

#[test]
fn configure_quoted_boundary_keeps_its_dashes() {
    let r = configure(b"multipart/x-mixed-replace; boundary=\"--frame\"");
    assert_eq!(r, Some(b"--frame\r\n".to_vec()));
}

#[test]
fn configure_wrong_media_type_gives_none() {
    assert_eq!(configure(b"image/jpeg; boundary=frame"), None);
    assert_eq!(configure(b"multipart/mixed; boundary=frame"), None);
}

#[test]
fn configure_without_parameter_gives_none() {
    assert_eq!(configure(b"multipart/x-mixed-replace;"), None);
    assert_eq!(configure(b"multipart/x-mixed-replace; boundary"), None);
}

#[test]
fn configure_adds_dashes_and_crlf() {
    assert_eq!(configure(b"multipart/x-mixed-replace; boundary=X"), Some(b"--X\r\n".to_vec()));
    assert_eq!(
        configure(b"multipart/x-mixed-replace;boundary= \"myboundary\" "),
        Some(b"--myboundary\r\n".to_vec())
    );
}

#[test]
fn configure_single_dash_is_not_a_prefix() {
    assert_eq!(configure(b"multipart/x-mixed-replace; boundary=-a"), Some(b"---a\r\n".to_vec()));
}

#[test]
fn read_headers_uses_content_type_only() {
    let mut m = MJPEGStartMarker::new();
    m.read_headers(&vec![
        Header::new(b"x-type".to_vec(), b"multipart/x-mixed-replace; boundary=Y".to_vec()),
        Header::new(b"content-type".to_vec(), b"multipart/x-mixed-replace; boundary=X".to_vec()),
        Header::new(b"content-length".to_vec(), b"12".to_vec()),
    ]);
    let r = m.mark_chunk(b"ab--X\r\n");
    assert_eq!(seg(&r[0]), Some((b"ab".to_vec(), false)));
    assert_eq!(seg(&r[1]), Some((b"--X\r\n".to_vec(), true)));
    assert!(r[2].is_none());
}

#[test]
fn without_boundary_every_chunk_starts_a_frame() {
    let m = MJPEGStartMarker::new();
    let r = m.mark_chunk(b"anything");
    assert_eq!(seg(&r[0]), Some((b"anything".to_vec(), true)));
    assert!(r[1].is_none() && r[2].is_none());

    let m = marker_for(b"text/plain");
    let r = m.mark_chunk(b"xyz");
    assert_eq!(seg(&r[0]), Some((b"xyz".to_vec(), true)));
}

#[test]
fn boundary_at_the_end_splits_in_two() {
    let m = marker_for(b"multipart/x-mixed-replace; boundary=X");
    let r = m.mark_chunk(b"tail of frame--X\r\n");
    assert_eq!(seg(&r[0]), Some((b"tail of frame".to_vec(), false)));
    assert_eq!(seg(&r[1]), Some((b"--X\r\n".to_vec(), true)));
    assert!(r[2].is_none());

    let r = m.mark_chunk(b"--X\r\n");
    assert!(r[0].is_none());
    assert_eq!(seg(&r[1]), Some((b"--X\r\n".to_vec(), true)));
    assert!(r[2].is_none());
}

#[test]
fn boundary_inside_splits_in_three() {
    let m = marker_for(b"multipart/x-mixed-replace; boundary=X");
    let r = m.mark_chunk(b"end--X\r\nbegin--X\r\nmore");
    assert_eq!(seg(&r[0]), Some((b"end".to_vec(), false)));
    assert_eq!(seg(&r[1]), Some((b"--X\r\n".to_vec(), true)));
    assert_eq!(seg(&r[2]), Some((b"begin--X\r\nmore".to_vec(), false)));
}

#[test]
fn boundary_at_the_start_leaves_no_prefix() {
    let m = marker_for(b"multipart/x-mixed-replace; boundary=X");
    let r = m.mark_chunk(b"--X\r\nFRAME1DATA");
    assert!(r[0].is_none());
    assert_eq!(seg(&r[1]), Some((b"--X\r\n".to_vec(), true)));
    assert_eq!(seg(&r[2]), Some((b"FRAME1DATA".to_vec(), false)));
}

#[test]
fn chunk_without_boundary_continues_the_frame() {
    let m = marker_for(b"multipart/x-mixed-replace; boundary=X");
    let r = m.mark_chunk(b"--X\rnot quite");
    assert_eq!(seg(&r[0]), Some((b"--X\rnot quite".to_vec(), false)));
    assert!(r[1].is_none() && r[2].is_none());
    let r = m.mark_chunk(b"");
    assert_eq!(seg(&r[0]), Some((Vec::new(), false)));
}

#[test]
fn segments_put_back_together_are_the_chunk() {
    let m = marker_for(b"multipart/x-mixed-replace; boundary=\"frame\"");
    let chunks: Vec<&[u8]> = vec![
        b"",
        b"abc",
        b"--frame\r\n",
        b"xx--frame\r\n",
        b"--frame\r\nyy",
        b"xx--frame\r\nyy--frame\r\nzz",
        b"--fram",
    ];
    for c in chunks {
        let r = m.mark_chunk(c);
        let mut joined = Vec::new();
        let mut starts = 0;
        for s in r.iter().flatten() {
            joined.extend_from_slice(&s.bytes);
            if s.valid_start {
                starts += 1;
            }
        }
        assert_eq!(joined, c.to_vec());
        assert!(starts <= 1);
    }
}

#[test]
fn marked_segments_keep_their_tag() {
    let a = BcDataMarked::new_valid_start(vec![1, 2]);
    assert!(a.valid_start);
    assert_eq!(a.bytes, vec![1, 2]);
    let b = BcDataMarked::new_invalid(vec![3]);
    assert!(!b.valid_start);
    assert_eq!(b.bytes, vec![3]);
}

#[test]
fn trim_and_normalize_boundary_parameter() {
    assert_eq!(trim_boundary(b" \"abc\" "), b"abc");
    assert_eq!(trim_boundary(b"\" \""), b"");
    assert_eq!(trim_boundary(b"a \" b"), b"a \" b");
    assert_eq!(make_boundary(b"abc"), b"--abc\r\n".to_vec());
    assert_eq!(make_boundary(b"--abc"), b"--abc\r\n".to_vec());
    assert_eq!(make_boundary(b""), b"--\r\n".to_vec());
}

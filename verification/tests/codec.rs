use shiplift::chunk::{decode_frame, layer_totals};
use shiplift::errors::Error;
use shiplift::framer::JsonFramer;
use shiplift::mux::{demux, mux_encode, Channel, MuxDemuxer, MuxFrame};
use shiplift::rep::ImageBuildChunk;
use shiplift::transport::classify_response;

fn feed_all(framer: &mut JsonFramer, bytes: &[u8], step: usize) -> Vec<Vec<u8>> {
    let mut frames = Vec::new();
    let mut i = 0;
    while i < bytes.len() {
        let end = (i + step).min(bytes.len());
        let chunk: Vec<u8> = bytes[i..end].to_vec();
        let (got, status) = framer.feed(&chunk);
        status.expect("well-formed stream");
        frames.extend(got);
        i = end;
    }
    frames
}

/// The framer yields the same frames whether the stream arrives one
/// byte at a time or in one buffer.
#[test]
fn framer_chunking_invariant() {
    let stream = "{\"status\":\"Pulling fs layer\",\"id\":\"a1\"}\n  {\"status\":\"Downloading\",\"id\":\"a1\",\"progressDetail\":{\"current\":10,\"total\":100}}{\"stream\":\"Step 1/3 : FROM busybox\"}\r\n".as_bytes();

    let mut by_one = JsonFramer::new();
    let frames_one = feed_all(&mut by_one, stream, 1);
    assert!(matches!(by_one.finish(), Ok(None)));

    let mut whole = JsonFramer::new();
    let frames_whole = feed_all(&mut whole, stream, stream.len());
    assert!(matches!(whole.finish(), Ok(None)));

    assert_eq!(frames_one, frames_whole);
    assert_eq!(frames_one.len(), 3);

    let decoded_one: Vec<ImageBuildChunk> =
        frames_one.iter().map(|f| decode_frame(f).unwrap()).collect();
    let decoded_whole: Vec<ImageBuildChunk> =
        frames_whole.iter().map(|f| decode_frame(f).unwrap()).collect();
    assert_eq!(decoded_one, decoded_whole);
}

/// Strings with embedded braces, escapes and newlines do not split
/// frames early.
#[test]
fn framer_handles_embedded_delimiters() {
    let stream = b"{\"stream\":\"a } inside \\\" quote\"} {\"stream\":\"b\"}";
    let mut fr = JsonFramer::new();
    let frames = feed_all(&mut fr, stream, 1);
    assert_eq!(frames.len(), 2);
    assert_eq!(frames[0], b"{\"stream\":\"a } inside \\\" quote\"}".to_vec());
    assert!(matches!(fr.finish(), Ok(None)));
}

/// A value that cannot start kills the stream with a decode error,
/// and values completed earlier in the same buffer still come back.
#[test]
fn framer_rejects_stray_close() {
    let mut fr = JsonFramer::new();
    let (frames, status) = fr.feed(&b"}".to_vec());
    assert!(frames.is_empty());
    assert_eq!(status, Err(Error::Decode));

    let mut fr2 = JsonFramer::new();
    let (frames2, status2) = fr2.feed(&b"{\"stream\":\"a\"}{\"stream\":\"b\"}]garbage".to_vec());
    assert_eq!(
        frames2,
        vec![
            b"{\"stream\":\"a\"}".to_vec(),
            b"{\"stream\":\"b\"}".to_vec(),
        ]
    );
    assert_eq!(status2, Err(Error::Decode));
}

/// A stream that ends inside a value is a decode error at finish.
#[test]
fn framer_rejects_truncated_value() {
    let mut fr = JsonFramer::new();
    let (frames, status) = fr.feed(&b"{\"status\":\"ok".to_vec());
    assert!(frames.is_empty());
    assert_eq!(status, Ok(()));
    assert_eq!(fr.finish(), Err(Error::Decode));
}

/// Re-serializing and demultiplexing a known frame sequence gives the
/// original back, zero-length payloads included.
#[test]
fn mux_round_trip() {
    let frames = vec![
        MuxFrame { channel: Channel::Stdout, payload: b"hello".to_vec() },
        MuxFrame { channel: Channel::Stderr, payload: Vec::new() },
        MuxFrame { channel: Channel::Stdout, payload: b"world\n".to_vec() },
        MuxFrame { channel: Channel::Stdin, payload: vec![0, 1, 2, 255] },
    ];
    let wire = mux_encode(&frames);
    let back = demux(&wire).expect("well-formed stream");
    assert_eq!(back, frames);
}

/// The mux header is laid out exactly: selector, three zeros, then a
/// big-endian length.
#[test]
fn mux_header_layout() {
    let frames = vec![MuxFrame { channel: Channel::Stderr, payload: b"abc".to_vec() }];
    let wire = mux_encode(&frames);
    assert_eq!(wire, vec![2, 0, 0, 0, 0, 0, 0, 3, b'a', b'b', b'c']);
}

/// A stream that ends three bytes into a declared ten-byte payload is
/// a truncation error, not a short success.
#[test]
fn mux_truncated_payload() {
    let mut wire = vec![1, 0, 0, 0, 0, 0, 0, 10];
    wire.extend_from_slice(b"abc");
    assert_eq!(demux(&wire), Err(Error::Truncated));
}

/// A selector outside the known channels is a protocol error.
#[test]
fn mux_bad_selector() {
    let wire = vec![7, 0, 0, 0, 0, 0, 0, 0];
    assert_eq!(demux(&wire), Err(Error::Protocol(7)));
}

/// A 404 surfaces as an API error with the literal status and body.
#[test]
fn api_error_preserves_status_and_body() {
    let body = "No such image: busybox:latest\n".to_string();
    let r = classify_response(404, body.clone());
    assert_eq!(r, Err(Error::Api { status: 404, body }));
    assert_eq!(
        classify_response(200, "ok".to_string()),
        Ok("ok".to_string())
    );
    assert_eq!(
        classify_response(204, String::new()),
        Ok(String::new())
    );
}

/// Pulling busybox:latest: five pull-status events, two sharing an id
/// with increasing totals, decode in order; the per-layer helper
/// reports exactly two ids with their final totals.
#[test]
fn pull_transcript_layer_totals() {
    let transcript = "{\"status\":\"Pulling from library/busybox\",\"id\":\"latest\"}\n{\"status\":\"Pulling fs layer\",\"id\":\"aa11\",\"progressDetail\":{}}\n{\"status\":\"Downloading\",\"id\":\"aa11\",\"progressDetail\":{\"current\":512,\"total\":2048}}\n{\"status\":\"Downloading\",\"id\":\"aa11\",\"progressDetail\":{\"current\":2048,\"total\":4096}}\n{\"status\":\"Downloading\",\"id\":\"bb22\",\"progressDetail\":{\"current\":1,\"total\":777}}\n".as_bytes();

    let mut fr = JsonFramer::new();
    let frames = feed_all(&mut fr, transcript, 7);
    assert!(matches!(fr.finish(), Ok(None)));
    assert_eq!(frames.len(), 5);

    let chunks: Vec<ImageBuildChunk> =
        frames.iter().map(|f| decode_frame(f).expect("decodes")).collect();
    assert_eq!(chunks.len(), 5);
    match &chunks[0] {
        ImageBuildChunk::PullStatus { status, id, .. } => {
            assert_eq!(status, "Pulling from library/busybox");
            assert_eq!(id.as_deref(), Some("latest"));
        }
        other => panic!("wrong shape: {:?}", other),
    }
    assert_eq!(chunks[2].total_image_bytes(), Some(2048));
    assert_eq!(
        chunks[3].image_layer_bytes(),
        Some(("aa11".to_string(), 4096))
    );

    let totals = layer_totals(&chunks);
    assert_eq!(
        totals,
        vec![("aa11".to_string(), 4096), ("bb22".to_string(), 777)]
    );
}

/// Each event shape decodes to its own variant, tried in order.
#[test]
fn decode_event_shapes() {
    let up = decode_frame(&b"{\"stream\":\"Step 1\"}".to_vec()).unwrap();
    assert_eq!(up, ImageBuildChunk::Update { stream: "Step 1".to_string() });

    let err = decode_frame(
        &b"{\"errorDetail\":{\"message\":\"boom\"},\"error\":\"boom\"}".to_vec(),
    )
    .unwrap();
    match err {
        ImageBuildChunk::Error { error, error_detail } => {
            assert_eq!(error.as_deref(), Some("boom"));
            assert_eq!(error_detail.message, "boom");
        }
        other => panic!("wrong shape: {:?}", other),
    }

    let digest = decode_frame(&b"{\"aux\":{\"ID\":\"sha256:abcd\"}}".to_vec()).unwrap();
    match digest {
        ImageBuildChunk::Digest { aux } => assert_eq!(aux.id, "sha256:abcd"),
        other => panic!("wrong shape: {:?}", other),
    }

    let esc = decode_frame(&b"{\"stream\":\"a\\nb\\\"c\\\\d\"}".to_vec()).unwrap();
    assert_eq!(esc, ImageBuildChunk::Update { stream: "a\nb\"c\\d".to_string() });

    assert_eq!(
        decode_frame(&b"{\"unknown\":1}".to_vec()),
        Err(Error::Decode)
    );
    assert_eq!(decode_frame(&b"[1,2]".to_vec()), Err(Error::Decode));
}

/// The error accessors single out the API variant.
#[test]
fn error_accessors() {
    let api = Error::Api { status: 500, body: "oops".to_string() };
    assert!(api.is_api_error());
    assert_eq!(api.status_code(), Some(500));
    for e in [
        Error::Connection("refused".to_string()),
        Error::Io("broken pipe".to_string()),
        Error::Decode,
        Error::Truncated,
        Error::Protocol(3),
        Error::InvalidResponse("bad".to_string()),
    ] {
        assert!(!e.is_api_error());
        assert_eq!(e.status_code(), None);
    }
}

/// Real daemon streams HTML-escape angle brackets; progress strings
/// with `\u003e` decode to the plain character, surrogate pairs to
/// their scalar.
#[test]
fn decode_unicode_escapes() {
    let bar = decode_frame(
        &b"{\"status\":\"Downloading\",\"id\":\"aa\",\"progress\":\"[==\\u003e   ]\",\"progressDetail\":{\"current\":3,\"total\":9}}"
            .to_vec(),
    )
    .unwrap();
    match bar {
        ImageBuildChunk::PullStatus { progress, .. } => {
            assert_eq!(progress.as_deref(), Some("[==>   ]"));
        }
        other => panic!("wrong shape: {:?}", other),
    }

    let astral = decode_frame(&b"{\"stream\":\"ok \\ud83d\\ude00\"}".to_vec()).unwrap();
    assert_eq!(
        astral,
        ImageBuildChunk::Update { stream: "ok \u{1f600}".to_string() }
    );

    let bmp = decode_frame(&b"{\"stream\":\"\\u00e9\\u0041\"}".to_vec()).unwrap();
    assert_eq!(bmp, ImageBuildChunk::Update { stream: "\u{e9}A".to_string() });

    // A lone surrogate spells no string and fails the decode.
    assert_eq!(
        decode_frame(&b"{\"stream\":\"\\ud800\"}".to_vec()),
        Err(Error::Decode)
    );
}

/// Members no shape reads are skipped whatever they hold; members a
/// shape does read keep their required types.
#[test]
fn decode_skips_unknown_members() {
    let ev = decode_frame(
        &b"{\"what\":[1,{\"x\":2.5}],\"speed\":-1.5e3,\"deep\":{\"a\":{\"b\":{}}},\"status\":\"ok\",\"id\":\"aa\"}"
            .to_vec(),
    )
    .unwrap();
    match ev {
        ImageBuildChunk::PullStatus { status, id, .. } => {
            assert_eq!(status, "ok");
            assert_eq!(id.as_deref(), Some("aa"));
        }
        other => panic!("wrong shape: {:?}", other),
    }

    // Extra members inside the detail are skipped too.
    let ev2 = decode_frame(
        &b"{\"status\":\"ok\",\"progressDetail\":{\"units\":\"B/s\",\"rate\":1.5,\"total\":9}}"
            .to_vec(),
    )
    .unwrap();
    assert_eq!(ev2.total_image_bytes(), Some(9));

    // A byte count must still be a plain unsigned integer.
    assert_eq!(
        decode_frame(&b"{\"status\":\"ok\",\"progressDetail\":{\"total\":1.5}}".to_vec()),
        Err(Error::Decode)
    );
    assert_eq!(
        decode_frame(&b"{\"status\":\"ok\",\"id\":3}".to_vec()),
        Err(Error::Decode)
    );
}

/// The incremental demultiplexer hands each frame out as soon as its
/// last byte is in, buffering only the frame under assembly, and
/// reports truncation at the end of input.
#[test]
fn mux_incremental_feed() {
    let frames = vec![
        MuxFrame { channel: Channel::Stdout, payload: b"hi".to_vec() },
        MuxFrame { channel: Channel::Stderr, payload: Vec::new() },
        MuxFrame { channel: Channel::Stdout, payload: b"there".to_vec() },
    ];
    let wire = mux_encode(&frames);

    let mut dm = MuxDemuxer::new();
    let mut got = Vec::new();
    for b in &wire {
        let (fs, status) = dm.feed(&vec![*b]);
        status.expect("well-formed stream");
        got.extend(fs);
    }
    assert_eq!(dm.finish(), Ok(()));
    assert_eq!(got, frames);

    let mut dm2 = MuxDemuxer::new();
    let mut short = wire.clone();
    short.truncate(wire.len() - 3);
    let (fs2, status2) = dm2.feed(&short);
    assert_eq!(fs2, frames[..2].to_vec());
    assert_eq!(status2, Ok(()));
    assert_eq!(dm2.finish(), Err(Error::Truncated));

    let mut dm3 = MuxDemuxer::new();
    let (fs3, status3) = dm3.feed(&vec![9, 0, 0, 0, 0, 0, 0, 0]);
    assert!(fs3.is_empty());
    assert_eq!(status3, Err(Error::Protocol(9)));
}

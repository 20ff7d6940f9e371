use bytes::BytesMut;
use length_frames::{Builder, ByteOrder, Decoder, Encoder, FrameError, SendOutcome};

/// One step of a simulated channel: bytes that a read delivers, or a read
/// that finds nothing available yet.
enum Read<'a> {
    Data(&'a [u8]),
    Wait,
}

/// Runs a decoder over the reads, then the channel's closure, and collects
/// the frames in order.
fn collect(builder: Builder, reads: &[Read]) -> Result<Vec<Vec<u8>>, FrameError> {
    let mut decoder = builder.decoder(());
    let mut frames = vec![];
    for read in reads {
        if let Read::Data(d) = read {
            decoder.receive(d);
        }
        while let Some(frame) = decoder.decode()? {
            frames.push(frame.to_vec());
        }
    }
    decoder.finish()?;
    Ok(frames)
}

fn collect_default(reads: &[Read]) -> Result<Vec<Vec<u8>>, FrameError> {
    collect(Builder::new(), reads)
}

fn frames(elems: &[&[u8]]) -> Vec<Vec<u8>> {
    elems.iter().map(|e| e.to_vec()).collect()
}

/// Writes out everything the encoder has queued into its `Vec` channel,
/// at most `chunk` bytes per write.
fn flush(encoder: &mut Encoder<Vec<u8>>, chunk: usize) {
    while !encoder.is_flushed() {
        let pending = encoder.pending().to_vec();
        let n = pending.len().min(chunk);
        encoder.get_mut().extend_from_slice(&pending[..n]);
        encoder.advance(n);
    }
}

fn send(encoder: &mut Encoder<Vec<u8>>, payload: &[u8]) -> Result<(), FrameError> {
    flush(encoder, usize::MAX);
    match encoder.start_send(BytesMut::from(payload))? {
        SendOutcome::Accepted => {}
        SendOutcome::NotReady(_) => panic!("encoder was flushed"),
    }
    flush(encoder, usize::MAX);
    Ok(())
}

/*
 * Decoder
 */

#[test]
pub fn decode_empty_io_yields_nothing() {
    let chunks = collect_default(&[]).unwrap();
    assert_eq!(chunks, frames(&[]));
}

#[test]
pub fn decode_single_frame_one_packet() {
    let chunks = collect_default(&[Read::Data(&b"\x00\x00\x00\x09abcdefghi"[..])]).unwrap();
    assert_eq!(chunks, frames(&[b"abcdefghi"]));
}

#[test]
pub fn decode_single_frame_one_packet_le() {
    let builder = Builder::new().set_byte_order(ByteOrder::LittleEndian);
    let chunks = collect(builder, &[Read::Data(&b"\x09\x00\x00\x00abcdefghi"[..])]).unwrap();
    assert_eq!(chunks, frames(&[b"abcdefghi"]));
}

#[test]
pub fn decode_single_multi_frame_one_packet() {
    let mut data: Vec<u8> = vec![];
    data.extend_from_slice(b"\x00\x00\x00\x09abcdefghi");
    data.extend_from_slice(b"\x00\x00\x00\x03123");
    data.extend_from_slice(b"\x00\x00\x00\x0bhello world");

    let chunks = collect_default(&[Read::Data(&data)]).unwrap();
    assert_eq!(chunks, frames(&[b"abcdefghi", b"123", b"hello world"]));
}

#[test]
pub fn single_frame_multi_packet() {
    let chunks = collect_default(&[
        Read::Data(&b"\x00\x00"[..]),
        Read::Data(&b"\x00\x09abc"[..]),
        Read::Data(&b"defghi"[..]),
    ])
    .unwrap();
    assert_eq!(chunks, frames(&[b"abcdefghi"]));
}

#[test]
pub fn multi_frame_multi_packet() {
    let chunks = collect_default(&[
        Read::Data(&b"\x00\x00"[..]),
        Read::Data(&b"\x00\x09abc"[..]),
        Read::Data(&b"defghi"[..]),
        Read::Data(&b"\x00\x00\x00\x0312"[..]),
        Read::Data(&b"3\x00\x00\x00\x0bhello world"[..]),
    ])
    .unwrap();
    assert_eq!(chunks, frames(&[b"abcdefghi", b"123", b"hello world"]));
}

#[test]
pub fn single_frame_multi_packet_wait() {
    let chunks = collect_default(&[
        Read::Data(&b"\x00\x00"[..]),
        Read::Wait,
        Read::Data(&b"\x00\x09abc"[..]),
        Read::Wait,
        Read::Data(&b"defghi"[..]),
        Read::Wait,
    ])
    .unwrap();
    assert_eq!(chunks, frames(&[b"abcdefghi"]));
}

#[test]
pub fn multi_frame_multi_packet_wait() {
    let chunks = collect_default(&[
        Read::Data(&b"\x00\x00"[..]),
        Read::Wait,
        Read::Data(&b"\x00\x09abc"[..]),
        Read::Wait,
        Read::Data(&b"defghi"[..]),
        Read::Wait,
        Read::Data(&b"\x00\x00\x00\x0312"[..]),
        Read::Wait,
        Read::Data(&b"3\x00\x00\x00\x0bhello world"[..]),
        Read::Wait,
    ])
    .unwrap();
    assert_eq!(chunks, frames(&[b"abcdefghi", b"123", b"hello world"]));
}

#[test]
pub fn incomplete_head() {
    let result = collect_default(&[Read::Data(&b"\x00\x00"[..])]);
    assert!(result.is_err());
    assert_eq!(result, Err(FrameError::TruncatedHeader));
}

#[test]
pub fn incomplete_head_multi() {
    let result = collect_default(&[
        Read::Data(&b"\x00"[..]),
        Read::Wait,
        Read::Data(&b"\x00"[..]),
        Read::Wait,
    ]);
    assert!(result.is_err());
    assert_eq!(result, Err(FrameError::TruncatedHeader));
}

#[test]
pub fn incomplete_payload() {
    let result = collect_default(&[
        Read::Data(&b"\x00\x00\x00\x09ab"[..]),
        Read::Wait,
        Read::Data(&b"cd"[..]),
        Read::Wait,
    ]);
    assert!(result.is_err());
    assert_eq!(result, Err(FrameError::TruncatedPayload));
}

#[test]
pub fn decode_max_frame_size_exceeded() {
    let builder = Builder::new().set_max_frame_length(8);
    let result = collect(builder, &[Read::Data(&b"\x00\x00\x00\x09abcdefghi"[..])]);
    assert!(result.is_err());
    assert_eq!(result, Err(FrameError::FrameTooLarge));
}

/*
 * Encoder
 */

#[test]
pub fn encode_nothing_yields_nothing() {
    let mut encoder: Encoder<Vec<u8>> = Encoder::default(vec![]);
    flush(&mut encoder, usize::MAX);
    assert!(encoder.is_flushed());
    assert_eq!(encoder.into_inner(), Vec::<u8>::new());
}

#[test]
pub fn encode_single_frame_one_packet() {
    let mut encoder = Encoder::default(vec![]);
    send(&mut encoder, b"abcdefghi").unwrap();
    assert_eq!(encoder.into_inner(), b"\x00\x00\x00\x09abcdefghi".to_vec());
}

#[test]
pub fn encode_single_frame_one_packet_le() {
    let builder = Builder::new().set_byte_order(ByteOrder::LittleEndian);
    let mut encoder = builder.encoder(vec![]);
    send(&mut encoder, b"abcdefghi").unwrap();
    assert_eq!(encoder.into_inner(), b"\x09\x00\x00\x00abcdefghi".to_vec());
}

#[test]
pub fn encode_single_multi_frame_one_packet() {
    let mut data: Vec<u8> = vec![];
    data.extend_from_slice(b"\x00\x00\x00\x09abcdefghi");
    data.extend_from_slice(b"\x00\x00\x00\x03123");
    data.extend_from_slice(b"\x00\x00\x00\x0bhello world");

    let mut encoder = Encoder::default(vec![]);
    send(&mut encoder, b"abcdefghi").unwrap();
    send(&mut encoder, b"123").unwrap();
    send(&mut encoder, b"hello world").unwrap();
    assert_eq!(encoder.into_inner(), data);
}

#[test]
pub fn encode_max_frame_size_exceeded() {
    let mut encoder = Builder::new().set_max_frame_length(8).encoder(vec![]);
    let result = send(&mut encoder, b"abcdefghi");
    assert!(result.is_err());
    assert_eq!(result, Err(FrameError::FrameTooLarge));
    assert!(encoder.is_flushed());
    assert_eq!(encoder.into_inner(), Vec::<u8>::new());
}

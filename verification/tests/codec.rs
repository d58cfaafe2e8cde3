use relay::common::Transfer;
use relay::common::TransferError;

fn transfer(from: &[u8], to: &[u8], content: &[u8]) -> Transfer {
    Transfer { from: from.to_vec(), to: to.to_vec(), content: content.to_vec() }
}

#[test]
fn encode_exact_bytes() {
    let t = transfer(b"a@x.com", b"b@x.com", b"hi");
    assert_eq!(t.to_bytes(), b"a@x.com\nb@x.com\nhi".to_vec());
}

#[test]
fn encode_empty_content() {
    let t = transfer(b"a", b"b", b"");
    assert_eq!(t.to_bytes(), b"a\nb\n".to_vec());
}

#[test]
fn decode_exact_parts() {
    let t = Transfer::try_from_bytes(&b"a@x.com\nb@x.com\nhello there".to_vec()).unwrap();
    assert_eq!(t, transfer(b"a@x.com", b"b@x.com", b"hello there"));
}

#[test]
fn decode_empty_parts() {
    let t = Transfer::try_from_bytes(&b"\n\n".to_vec()).unwrap();
    assert_eq!(t, transfer(b"", b"", b""));
}

#[test]
fn round_trip_simple() {
    let t = transfer(b"a@x.com", b"b@x.com", b"hi");
    let decoded = Transfer::try_from_bytes(&t.clone().to_bytes()).unwrap();
    assert_eq!(decoded, t);
}

#[test]
fn round_trip_non_ascii_content() {
    let t = transfer(b"alice", b"bob", "caf\u{e9} \u{1F600}".as_bytes());
    let decoded = Transfer::try_from_bytes(&t.clone().to_bytes()).unwrap();
    assert_eq!(decoded, t);
}

#[test]
fn decode_rejects_too_few_parts() {
    assert_eq!(
        Transfer::try_from_bytes(&b"just one part".to_vec()),
        Err(TransferError::ConvertFromBytesFail)
    );
    assert_eq!(
        Transfer::try_from_bytes(&b"two\nparts".to_vec()),
        Err(TransferError::ConvertFromBytesFail)
    );
    assert_eq!(
        Transfer::try_from_bytes(&Vec::new()),
        Err(TransferError::ConvertFromBytesFail)
    );
}

#[test]
fn extra_delimiters_belong_to_the_content() {
    // Only the first two delimiters frame; the rest is content.
    let t = Transfer::try_from_bytes(&b"a\nb\nc\nd".to_vec()).unwrap();
    assert_eq!(t, transfer(b"a", b"b", b"c\nd"));
}

#[test]
fn content_with_delimiter_round_trips() {
    // The content ends the frame, so it may hold the delimiter itself and
    // still comes back as the exact bytes supplied.
    let t = transfer(b"a", b"b", b"line one\nline two\n");
    assert_eq!(Transfer::try_from_bytes(&t.clone().to_bytes()), Ok(t));
}

#[test]
fn transfer_error_messages() {
    assert_eq!(
        TransferError::DestinationClientOffline.message(),
        "destination client offline"
    );
    assert_eq!(
        TransferError::ContentNotUTF8.message(),
        "transfer content not UTF-8 encoding"
    );
    assert_eq!(TransferError::ConvertFromBytesFail.message(), "convert from bytes failed");
}

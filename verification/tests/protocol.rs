use pixelflut_client::error::ClientError;
use pixelflut_client::parse::parse_size_reply;
use pixelflut_client::types::{Pixel, Rgb};

fn px(x: u32, y: u32, r: u8, g: u8, b: u8) -> Pixel {
    Pixel { x, y, color: Rgb { r, g, b } }
}

#[test]
fn encode_simple_pixel() {
    assert_eq!(px(10, 20, 0x0a, 0xff, 0x00).to_cmd(), "PX 10 20 0aff00\n");
}

#[test]
fn encode_zero_pixel() {
    assert_eq!(px(0, 0, 0, 0, 0).to_cmd(), "PX 0 0 000000\n");
}

#[test]
fn encode_extreme_pixel() {
    assert_eq!(
        px(u32::MAX, 4_000_000_000, 0xde, 0xad, 0xbe).to_cmd(),
        "PX 4294967295 4000000000 deadbe\n"
    );
}

#[test]
fn encode_hex_is_lowercase_and_padded() {
    assert_eq!(px(1, 2, 0x01, 0xab, 0xcd).to_cmd(), "PX 1 2 01abcd\n");
}

#[test]
fn size_reply_parses() {
    assert_eq!(parse_size_reply(b"SIZE 800 600\r\n"), Ok((800, 600)));
}

#[test]
fn size_reply_missing_separator_is_protocol_error() {
    assert_eq!(parse_size_reply(b"SIZE 800600\r\n"), Err(ClientError::Protocol));
}

#[test]
fn size_reply_leading_zeros_parse() {
    assert_eq!(parse_size_reply(b"SIZE 007 08\r\n"), Ok((7, 8)));
}

#[test]
fn size_reply_wrong_prefix_is_protocol_error() {
    assert_eq!(parse_size_reply(b"HELP 800 600\r\n"), Err(ClientError::Protocol));
}

#[test]
fn size_reply_empty_is_protocol_error() {
    assert_eq!(parse_size_reply(b""), Err(ClientError::Protocol));
}

#[test]
fn size_reply_missing_crlf_is_protocol_error() {
    assert_eq!(parse_size_reply(b"SIZE 800 600"), Err(ClientError::Protocol));
    assert_eq!(parse_size_reply(b"SIZE 800 600\n"), Err(ClientError::Protocol));
}

#[test]
fn size_reply_trailing_bytes_are_protocol_error() {
    assert_eq!(parse_size_reply(b"SIZE 800 600\r\nx"), Err(ClientError::Protocol));
}

#[test]
fn size_reply_overflowing_number_is_protocol_error() {
    assert_eq!(parse_size_reply(b"SIZE 4294967296 1\r\n"), Err(ClientError::Protocol));
    assert_eq!(parse_size_reply(b"SIZE 1 99999999999999999999\r\n"), Err(ClientError::Protocol));
}

#[test]
fn size_reply_at_u32_max_parses() {
    assert_eq!(parse_size_reply(b"SIZE 4294967295 1\r\n"), Ok((4294967295, 1)));
}

#[test]
fn error_descriptions() {
    assert_eq!(ClientError::Connection.describe(), "connection failed");
    assert_eq!(ClientError::Protocol.describe(), "malformed server reply");
    assert_eq!(ClientError::ImageDecode.describe(), "image could not be decoded");
    assert_eq!(ClientError::Config.describe(), "invalid configuration");
}

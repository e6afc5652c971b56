use mythic_telegram::coder::decoder::alpha_decoder::AlphaDecoder;
use mythic_telegram::coder::decoder::decode::Decode;
use mythic_telegram::coder::encoder::alpha_encoder::AlphaEncoder;
use mythic_telegram::coder::encoder::encode::Encode;
use mythic_telegram::coder::error::{CoderError, DecodeError, EncodeError};

fn alpha_decode_error(error: CoderError) -> DecodeError {
    match error {
        CoderError::Decode(error) => error,
        other => panic!("not a decode error: {:?}", other),
    }
}

fn alpha_fill_encoded<'a>(iter: &mut impl Iterator<Item = &'a mut u8>, bytes: &[u8]) {
    for &byte in bytes {
        *iter.next().unwrap() = byte;
    }
}

fn alpha_min_required(filename_length: usize, data_length: usize) -> usize {
    (4 + filename_length + 4 + data_length) * 4
}

fn alpha_verify_encoded(iter: &mut std::slice::Iter<u8>, bytes: &[u8]) {
    for &byte in bytes {
        (0..3).for_each(|_| assert_eq!(*iter.next().unwrap(), 0b0000_0000));
        assert_eq!(*iter.next().unwrap(), byte);
    }
}

#[test]
fn alpha_decoder_not_enough_data_to_decode_filename_length() {
    let buffer = vec![0; 1];
    let decoder = AlphaDecoder::new(&buffer);
    let decoded = decoder.decode();
    assert_eq!(
        alpha_decode_error(decoded.unwrap_err()),
        DecodeError("Not enough data to decode filename length".to_string())
    );
}

#[test]
fn alpha_decoder_not_enough_data_to_decode_filename() {
    let filename_length = 12;
    let data_length = 0;
    let mut buffer =
        vec![0; alpha_min_required(filename_length, data_length) - filename_length * 4];
    let mut iter = buffer.iter_mut().skip(3).step_by(4);

    alpha_fill_encoded(
        &mut iter,
        &[0b0000_0000, 0b0000_0000, 0b0000_0000, filename_length as u8],
    );

    let decoder = AlphaDecoder::new(&buffer);
    let decoded = decoder.decode();
    assert_eq!(
        alpha_decode_error(decoded.unwrap_err()),
        DecodeError("Not enough data to decode filename".to_string())
    );
}

#[test]
fn alpha_decoder_not_enough_data_to_decode_data_length() {
    let filename_length = 12;
    let data_length = 0;
    let mut buffer = vec![0; alpha_min_required(filename_length, data_length) - 1];
    let mut iter = buffer.iter_mut().skip(3).step_by(4);

    alpha_fill_encoded(
        &mut iter,
        &[0b0000_0000, 0b0000_0000, 0b0000_0000, filename_length as u8],
    );

    let decoder = AlphaDecoder::new(&buffer);
    let decoded = decoder.decode();
    assert_eq!(
        alpha_decode_error(decoded.unwrap_err()),
        DecodeError("Not enough data to decode data length".to_string())
    );
}

#[test]
fn alpha_decoder_not_enough_data_to_decode_data() {
    let filename_length = 12;
    let data_length = 8;
    let mut buffer = vec![0; alpha_min_required(filename_length, data_length) - 1];
    let mut iter = buffer.iter_mut().skip(3).step_by(4);

    alpha_fill_encoded(
        &mut iter,
        &[
            // Filename Length
            0b0000_0000,
            0b0000_0000,
            0b0000_0000,
            filename_length as u8,
            // Filename
            0b0000_0000,
            0b0000_0000,
            0b0000_0000,
            0b0000_0000,
            0b0000_0000,
            0b0000_0000,
            0b0000_0000,
            0b0000_0000,
            0b0000_0000,
            0b0000_0000,
            0b0000_0000,
            0b0000_0000,
            // Data length
            0b0000_0000,
            0b0000_0000,
            0b0000_0000,
            data_length as u8,
        ],
    );

    let decoder = AlphaDecoder::new(&buffer);
    let decoded = decoder.decode();
    assert_eq!(
        alpha_decode_error(decoded.unwrap_err()),
        DecodeError("Not enough data to decode data".to_string())
    );
}

#[test]
fn alpha_decoder_decode() {
    let data_length = 4;
    let filename_length = 5;
    let mut buffer = vec![0; alpha_min_required(filename_length, data_length)];
    let mut iter = buffer.iter_mut().skip(3).step_by(4);

    // Filename length
    alpha_fill_encoded(
        &mut iter,
        &[0b0000_0000, 0b0000_0000, 0b0000_0000, filename_length as u8],
    );

    // Filename
    alpha_fill_encoded(
        &mut iter,
        &[0b001111000, 0b00101110, 0b01110000, 0b01101110, 0b01100111],
    );

    // Message length
    alpha_fill_encoded(
        &mut iter,
        &[0b0000_0000, 0b0000_0000, 0b0000_0000, data_length as u8],
    );
    // Message
    alpha_fill_encoded(
        &mut iter,
        &[0b0111_0111, 0b0110_1111, 0b0110_1100, 0b0110_0110],
    );

    let decoder = AlphaDecoder::new(&buffer);
    let (filename, data) = decoder.decode().unwrap();

    assert_eq!(filename, "x.png");
    assert_eq!(String::from_utf8(data).unwrap(), "wolf");
}

#[test]
fn alpha_encoder_not_enough_buffer() {
    let data = "xyz".as_bytes();
    let file_name = "x.png";

    // Needed buffer length:
    //   4 (filename size)
    // + 5 (filename)
    // + 4 (message size)
    // + 3 (data)
    // = 16 (bytes) = 16 * 4 (only alpha channel use from rgba) = 64 needed channels/bytes
    let min_required_buffer = alpha_min_required(file_name.len(), data.len());
    assert_eq!(min_required_buffer, 64);

    {
        let buffer = vec![0; min_required_buffer];
        let encoder = AlphaEncoder::new(buffer, data.to_vec(), file_name.to_string());
        let encoded = encoder.encode();
        assert!(encoded.is_ok())
    }

    let buffer = vec![0; min_required_buffer - 1];
    assert_eq!(buffer.len(), 63);
    let encoder = AlphaEncoder::new(buffer, data.to_vec(), file_name.to_string());
    assert_eq!(
        encoder.encode(),
        Err(EncodeError(
            "Too much data to encode in the image.".to_string()
        ))
    )
}

#[test]
fn alpha_encoder_encode() {
    let data = "wolf".as_bytes();
    let file_name = "x.png";
    let min_bytes_required = alpha_min_required(file_name.len(), data.len());
    assert_eq!(min_bytes_required, 68);

    {
        // Verify we use required minimum
        let buffer = vec![0; min_bytes_required - 1];
        let encoder = AlphaEncoder::new(buffer, data.to_vec(), file_name.to_string());
        assert_eq!(
            encoder.encode(),
            Err(EncodeError(
                "Too much data to encode in the image.".to_string()
            ))
        )
    }

    let buffer = vec![0; min_bytes_required];
    let encoder = AlphaEncoder::new(buffer, data.to_vec(), file_name.to_string());

    let encoded = encoder.encode();
    assert!(encoded.is_ok());
    let buffer = encoded.unwrap();
    assert_eq!(buffer.len(), 68);
    let mut encoded_it = buffer.iter();

    // Filename Length
    alpha_verify_encoded(
        &mut encoded_it,
        &[0b0000_0000, 0b0000_0000, 0b0000_0000, 0b00000101],
    );

    // Filename
    alpha_verify_encoded(
        &mut encoded_it,
        &[0b001111000, 0b00101110, 0b01110000, 0b01101110, 0b01100111],
    );

    // Message length
    alpha_verify_encoded(
        &mut encoded_it,
        &[0b0000_0000, 0b0000_0000, 0b0000_0000, 0b00000100],
    );

    // Message
    alpha_verify_encoded(
        &mut encoded_it,
        &[0b0111_0111, 0b0110_1111, 0b0110_1100, 0b0110_0110],
    );
    assert!(encoded_it.next().is_none());
}

#[test]
fn alpha_encoder_leaves_the_colour_channels_alone() {
    let buffer: Vec<u8> = (0..40u8).collect();
    let encoded = AlphaEncoder::new(buffer.clone(), vec![0xAB], "a".to_string())
        .encode()
        .unwrap();
    let record = [0, 0, 0, 1, b'a', 0, 0, 0, 1, 0xAB];
    for (p, &channel) in encoded.iter().enumerate() {
        if p % 4 == 3 {
            assert_eq!(channel, record[p / 4]);
        } else {
            assert_eq!(channel, buffer[p]);
        }
    }
}

#[test]
fn alpha_encoder_leaves_what_lies_behind_the_record() {
    let buffer = vec![0x11; 48];
    let encoded = AlphaEncoder::new(buffer, Vec::new(), String::new())
        .encode()
        .unwrap();
    let mut expected = vec![0x11; 48];
    for i in 0..8 {
        expected[4 * i + 3] = 0;
    }
    assert_eq!(encoded, expected);
}

#[test]
fn alpha_round_trip() {
    let data: Vec<u8> = (0..=255u8).collect();
    let file_name = "caf\u{e9}.bin";
    let buffer = vec![0x7f; alpha_min_required(file_name.len(), data.len()) + 3];
    let encoded = AlphaEncoder::new(buffer, data.clone(), file_name.to_string())
        .encode()
        .unwrap();
    let (name, payload) = AlphaDecoder::new(&encoded).decode().unwrap();
    assert_eq!(name, file_name);
    assert_eq!(payload, data);
}

#[test]
fn alpha_encoder_step_by_step() {
    let mut encoder = AlphaEncoder::new(vec![0; 24], vec![1, 2], "n".to_string());
    assert_eq!(encoder.max_bytes_to_encode(), 6);
    assert_eq!(encoder.bytes_to_encode(), Some(11));
    assert_eq!(encoder.file_name_bytes(), vec![b'n']);
    assert_eq!(encoder.data_bytes(), vec![1, 2]);
    assert_eq!(
        encoder.validate(),
        Err(EncodeError(
            "Too much data to encode in the image.".to_string()
        ))
    );
    encoder.encode_byte(0xEE);
    assert_eq!(encoder.max_bytes_to_encode(), 5);
    encoder.encode_length(0x01020304);
    assert_eq!(encoder.max_bytes_to_encode(), 1);
    encoder.encode_data(vec![0x55]);
    assert_eq!(encoder.max_bytes_to_encode(), 0);
    assert_eq!(
        encoder.into_buffer(),
        vec![0, 0, 0, 0xEE, 0, 0, 0, 1, 0, 0, 0, 2, 0, 0, 0, 3, 0, 0, 0, 4, 0, 0, 0, 0x55]
    );
}

#[test]
fn alpha_decoder_step_by_step() {
    let buffer = vec![
        9, 9, 9, 0x12, 9, 9, 9, 0x34, 9, 9, 9, 0x56, 9, 9, 9, 0x78, 9, 9, 9, 0xAA, 9, 9, 9, 0xBB,
        9, 9,
    ];
    let mut decoder = AlphaDecoder::new(&buffer);
    assert_eq!(decoder.decode_length(), Some(0x12345678));
    assert_eq!(decoder.decode_data(1), Some(vec![0xAA]));
    assert_eq!(decoder.decode_byte(), Some(0xBB));
    assert_eq!(decoder.decode_byte(), None);
    assert_eq!(decoder.decode_data(0), Some(Vec::new()));
    assert_eq!(decoder.decode_data(1), None);
    assert_eq!(decoder.decode_length(), None);
    assert_eq!(
        decoder.not_available("anything"),
        DecodeError("Not enough data to decode anything".to_string())
    );
}

#[test]
fn alpha_decoder_filename_that_is_not_utf8() {
    let mut buffer = vec![0; alpha_min_required(2, 0)];
    let mut iter = buffer.iter_mut().skip(3).step_by(4);
    alpha_fill_encoded(&mut iter, &[0, 0, 0, 2, 0xC3, 0x28, 0, 0, 0, 0]);
    let decoded = AlphaDecoder::new(&buffer).decode();
    match decoded {
        Err(CoderError::TextDecode(error)) => {
            assert_eq!(error.0, "invalid utf-8 sequence of 1 bytes from index 0")
        }
        other => panic!("not a text error: {:?}", other),
    }
}

#[test]
fn alpha_decoder_text_error_comes_before_the_data_length() {
    let mut buffer = vec![0; alpha_min_required(1, 0) - 4];
    let mut iter = buffer.iter_mut().skip(3).step_by(4);
    alpha_fill_encoded(&mut iter, &[0, 0, 0, 1, 0xFF]);
    let decoded = AlphaDecoder::new(&buffer).decode();
    assert!(matches!(decoded, Err(CoderError::TextDecode(_))));
}

#[test]
fn alpha_decoder_empty_record() {
    let buffer = vec![0; 32];
    let decoded = AlphaDecoder::new(&buffer).decode();
    assert_eq!(decoded, Ok((String::new(), Vec::new())));
}

#[test]
fn alpha_decoder_length_uses_all_four_bytes() {
    let mut buffer = vec![0; 16 + 4 * 0x0102];
    let mut iter = buffer.iter_mut().skip(3).step_by(4);
    alpha_fill_encoded(&mut iter, &[0, 0, 0x01, 0x02]);
    let decoded = AlphaDecoder::new(&buffer).decode();
    assert_eq!(
        alpha_decode_error(decoded.unwrap_err()),
        DecodeError("Not enough data to decode data length".to_string())
    );

    let mut buffer = vec![0; 64];
    let mut iter = buffer.iter_mut().skip(3).step_by(4);
    alpha_fill_encoded(&mut iter, &[0x01, 0, 0, 0]);
    let decoded = AlphaDecoder::new(&buffer).decode();
    assert_eq!(
        alpha_decode_error(decoded.unwrap_err()),
        DecodeError("Not enough data to decode filename".to_string())
    );
}

use freight::protocol::cmd;
use freight::protocol::{build_response, overload_packet, Cipher, Message, MessageReader, MessageWriter};

#[test]
fn key_chain_xors_each_byte_with_the_previous_chained_byte() {
    // raw [1, 2, 3] chains to [1, 1^2, 3^3] = [1, 3, 0]
    let mut c = Cipher::new();
    c.set_key_from_raw(&[1, 2, 3]);
    assert!(c.is_ready());
    let out = c.encrypt_bytes(&[0, 0, 0, 0]);
    assert_eq!(out, vec![1, 3, 0, 1]);
}

#[test]
fn set_key_by_value_chains_like_set_key_from_raw() {
    let mut c = Cipher::new();
    c.set_key(vec![5, 10]);
    assert_eq!(c.encrypt_bytes(&[0, 0, 0]), vec![5, 15, 5]);
}

#[test]
fn cipher_without_key_passes_bytes_through() {
    let mut c = Cipher::new();
    assert!(!c.is_ready());
    assert_eq!(c.encrypt_byte(-7), -7);
    assert_eq!(c.decrypt_byte(42), 42);
    assert_eq!(c.encrypt_bytes(&[1, 2, 255]), vec![1, 2, 255]);
}

#[test]
fn decrypt_undoes_encrypt_with_the_same_key() {
    let mut server = Cipher::new();
    let mut client = Cipher::new();
    server.set_key_from_raw(&[17, -3, 99, 4]);
    client.set_key_from_raw(&[17, -3, 99, 4]);
    let data: Vec<u8> = (0u8..=20).collect();
    let enc = server.encrypt_bytes(&data);
    assert_ne!(enc, data);
    assert_eq!(client.decrypt_bytes(&enc), data);
    // and byte by byte, continuing the stream
    let e = server.encrypt_byte(100);
    assert_eq!(client.decrypt_byte(e), 100);
}

#[test]
fn read_and_write_positions_are_independent_and_reset() {
    let mut c = Cipher::new();
    c.set_key_from_raw(&[1, 2]); // chained [1, 3]
    assert_eq!(c.encrypt_byte(0), 1);
    assert_eq!(c.decrypt_byte(0), 1);
    assert_eq!(c.encrypt_byte(0), 3);
    c.reset_positions();
    assert_eq!(c.encrypt_byte(0), 1);
    assert_eq!(c.decrypt_byte(0), 1);
}

#[test]
fn key_from_seed_follows_the_generator() {
    assert_eq!(Cipher::key_from_seed(0, 4), vec![0, -36, 4, 101]);
    assert_eq!(Cipher::key_from_seed(42, 3), vec![-119, -119, -91]);
    assert_eq!(Cipher::key_from_seed(7, 0), Vec::<i8>::new());
}

#[test]
fn generated_keys_have_the_asked_length() {
    assert_eq!(Cipher::generate_key_only(32).len(), 32);
    let mut c = Cipher::new();
    let raw = c.generate_key(16);
    assert_eq!(raw.len(), 16);
    assert!(c.is_ready());
}

#[test]
fn message_constructors() {
    let m = Message::new(cmd::REQUEST_ICON, vec![1, 2]);
    assert_eq!(m.command, -67);
    assert_eq!(m.data, vec![1, 2]);
    let e = Message::empty(cmd::TILE_SET);
    assert_eq!(e.command, -82);
    assert!(e.data.is_empty());
}

#[test]
fn reader_reads_big_endian_and_zero_past_the_end() {
    let data = [0x01, 0x02, 0x03, 0x04, 0x05];
    let mut r = MessageReader::new(&data);
    assert_eq!(r.available(), 5);
    assert_eq!(r.read_int(), 0x01020304);
    assert_eq!(r.read_short(), 0x0500);
    assert_eq!(r.available(), 0);
    assert_eq!(r.read_byte(), 0);
    assert_eq!(r.read_ubyte(), 0);
    assert_eq!(r.read_int(), 0);
}

#[test]
fn reader_signed_values() {
    let data = [0xFF, 0xFF, 0xFE, 0x80, 0x00, 0x00, 0x00];
    let mut r = MessageReader::new(&data);
    assert_eq!(r.read_byte(), -1);
    assert_eq!(r.read_short(), -2);
    assert_eq!(r.read_int(), i32::MIN);
}

#[test]
fn reader_reads_utf_strings() {
    let data = [0, 3, b'a', b'b', b'c', 0, 2, 0xC3, 0xA9];
    let mut r = MessageReader::new(&data);
    assert_eq!(r.read_utf(), "abc");
    assert_eq!(r.read_utf(), "é");
    assert_eq!(r.available(), 0);
}

#[test]
fn reader_utf_replaces_invalid_bytes() {
    let data = [0, 2, 0xFF, 0xFE];
    let mut r = MessageReader::new(&data);
    assert_eq!(r.read_utf(), "\u{FFFD}\u{FFFD}");
}

#[test]
fn reader_utf_too_long_gives_empty_string() {
    let data = [0, 9, b'a'];
    let mut r = MessageReader::new(&data);
    assert_eq!(r.read_utf(), "");
    assert_eq!(r.available(), 1);
}

#[test]
fn reader_utf_negative_length_at_start_gives_empty_string() {
    // length -5 while the position (2) is before the start by more than that
    let data = [0xFF, 0xFB, b'x'];
    let mut r = MessageReader::new(&data);
    assert_eq!(r.read_utf(), "");
    assert_eq!(r.available(), 1);
}

#[test]
fn writer_writes_big_endian() {
    let mut w = MessageWriter::new();
    w.write_byte(-1);
    w.write_ubyte(7);
    w.write_short(-2);
    w.write_int(258);
    w.write_long(1);
    assert_eq!(w.len(), 16);
    assert_eq!(
        w.into_bytes(),
        vec![255, 7, 0xFF, 0xFE, 0, 0, 1, 2, 0, 0, 0, 0, 0, 0, 0, 1]
    );
}

#[test]
fn writer_writes_utf_and_byte_runs() {
    let mut w = MessageWriter::with_capacity(8);
    w.write_utf("hé");
    w.write_sbytes(&[-1, 2]);
    w.write_bytes(&[9, 8]);
    assert_eq!(w.into_bytes(), vec![0, 3, b'h', 0xC3, 0xA9, 255, 2, 9, 8]);
}

#[test]
fn what_the_writer_writes_the_reader_reads() {
    let mut w = MessageWriter::new();
    w.write_byte(-100);
    w.write_short(12345);
    w.write_int(-123456789);
    w.write_utf("freight");
    let bytes = w.into_bytes();
    let mut r = MessageReader::new(&bytes);
    assert_eq!(r.read_byte(), -100);
    assert_eq!(r.read_short(), 12345);
    assert_eq!(r.read_int(), -123456789);
    assert_eq!(r.read_utf(), "freight");
    assert_eq!(r.available(), 0);
}

#[test]
fn response_in_the_clear_before_key_exchange() {
    let mut c = Cipher::new();
    let p = build_response(&mut c, cmd::GET_SESSION_ID, &[1, 2, 3]);
    assert_eq!(p, vec![229, 0, 3, 1, 2, 3]);
    let long = vec![7u8; 300];
    let p = build_response(&mut c, cmd::REQUEST_ICON, &long);
    // big-data commands still use a 2-byte length in the clear
    assert_eq!(&p[..3], &[189, 1, 44]);
    assert_eq!(p.len(), 303);
}

#[test]
fn encrypted_response_with_two_byte_length() {
    let mut c = Cipher::new();
    c.set_key(vec![1]);
    let p = build_response(&mut c, cmd::REQUEST_MAPTEMPLATE, &[7]);
    assert_eq!(p, vec![11, 1, 0, 6]);
}

#[test]
fn encrypted_big_data_response_has_three_biased_length_bytes() {
    let mut c = Cipher::new();
    c.set_key(vec![0]);
    let p = build_response(&mut c, cmd::REQUEST_ICON, &[5, 6, 7]);
    assert_eq!(p, vec![189, 131, 128, 128, 5, 6, 7]);
    let data = vec![0u8; 0x010203];
    let p = build_response(&mut c, cmd::GET_EFFDATA, &data);
    assert_eq!(&p[..4], &[190, 0x03 + 128, 0x02 + 128, 0x01 + 128]);
}

#[test]
fn client_decrypts_what_build_response_encrypts() {
    let mut server = Cipher::new();
    let mut client = Cipher::new();
    server.set_key_from_raw(&[9, 8, 7]);
    client.set_key_from_raw(&[9, 8, 7]);
    let p = build_response(&mut server, cmd::TILE_SET, &[1, 2, 3, 4]);
    assert_eq!(client.decrypt_bytes(&p), vec![174, 0, 4, 1, 2, 3, 4]);
}

#[test]
fn big_data_commands() {
    for c in [-32i8, -66, 11, -67, -74, -87, 66, 12] {
        assert!(cmd::is_big_data_cmd(c));
    }
    for c in [-27i8, 1, 10, -111, -31, -77, -93, -82, 0] {
        assert!(!cmd::is_big_data_cmd(c));
    }
}

#[test]
fn overload_notice_packet() {
    assert_eq!(overload_packet("ab"), vec![230, 0, 4, 0, 2, 97, 98]);
    let p = overload_packet("Máy chủ");
    // "Máy chủ" is 10 bytes of UTF-8
    assert_eq!(&p[..5], &[230, 0, 12, 0, 10]);
    assert_eq!(&p[5..], "Máy chủ".as_bytes());
}

#[test]
fn encrypting_in_pieces_equals_encrypting_at_once() {
    let raw = [3i8, -8, 21, 77, 5];
    let mut whole = Cipher::new();
    whole.set_key_from_raw(&raw);
    let mut pieces = Cipher::new();
    pieces.set_key_from_raw(&raw);
    let data: Vec<u8> = (10u8..23).collect();
    let at_once = whole.encrypt_bytes(&data);
    let mut piecewise = pieces.encrypt_bytes(&data[..4]);
    piecewise.extend(pieces.encrypt_bytes(&data[4..9]));
    piecewise.extend(pieces.encrypt_bytes(&data[9..]));
    assert_eq!(at_once, piecewise);
}

#[test]
fn a_client_recovers_a_big_data_length() {
    let mut server = Cipher::new();
    server.set_key_from_raw(&[9, 4, 77, -3]);
    let data: Vec<u8> = (0..70_000u32).map(|i| (i % 251) as u8).collect();
    let packet = build_response(&mut server, cmd::GET_EFFDATA, &data);
    assert_eq!(packet.len(), 4 + data.len());
    let mut client = Cipher::new();
    client.set_key_from_raw(&[9, 4, 77, -3]);
    let h = client.decrypt_bytes(&packet);
    assert_eq!(h[0] as i8, cmd::GET_EFFDATA);
    let part = |b: u8| (b as i8) as i32 + 128;
    assert_eq!(part(h[1]) | (part(h[2]) << 8) | (part(h[3]) << 16), 70_000);
    assert_eq!(&h[4..], &data[..]);
}

#[test]
fn the_reader_never_passes_the_end() {
    let data = [1u8, 2, 3];
    let mut r = MessageReader::new(&data);
    assert_eq!(r.available(), 3);
    r.read_int();
    assert_eq!(r.available(), 0);
    assert_eq!(r.read_short(), 0);
    assert_eq!(r.available(), 0);
}

use wayland_backend::wire::{
    decode_argument, decode_arguments, decode_header, decode_message, encode_argument, encode_arguments,
    encode_header, encode_message, padding, Argument, ArgumentType, MessageHeader,
};

fn bytes_of(a: Argument) -> Vec<u8> {
    let mut out = Vec::new();
    let mut fds = Vec::new();
    encode_argument(&a, &mut out, &mut fds);
    out
}

#[test]
fn header_layout() {
    let h = MessageHeader { sender_id: 1, opcode: 1, size: 12 };
    assert_eq!(encode_header(h), vec![1, 0, 0, 0, 1, 0, 12, 0]);
    assert_eq!(decode_header(&[1, 0, 0, 0, 1, 0, 12, 0]), Some(h));
    let big = MessageHeader { sender_id: 0xFF00_0001, opcode: 0x0102, size: 0x0304 };
    assert_eq!(encode_header(big), vec![1, 0, 0, 0xFF, 2, 1, 4, 3]);
    assert_eq!(decode_header(&encode_header(big)), Some(big));
    assert_eq!(decode_header(&[1, 0, 0, 0, 1, 0, 12]), None);
}

#[test]
fn scalar_arguments() {
    assert_eq!(bytes_of(Argument::Uint(0x0403_0201)), vec![1, 2, 3, 4]);
    assert_eq!(bytes_of(Argument::Int(-1)), vec![255, 255, 255, 255]);
    assert_eq!(bytes_of(Argument::Fixed(256)), vec![0, 1, 0, 0]);
    assert_eq!(bytes_of(Argument::Object(0)), vec![0, 0, 0, 0]);
    assert_eq!(bytes_of(Argument::NewId(3)), vec![3, 0, 0, 0]);
    assert!(bytes_of(Argument::Fd(9)).is_empty());
}

#[test]
fn strings_are_nul_terminated_and_padded() {
    assert_eq!(bytes_of(Argument::Str(b"abc".to_vec())), vec![4, 0, 0, 0, b'a', b'b', b'c', 0]);
    assert_eq!(
        bytes_of(Argument::Str(b"abcd".to_vec())),
        vec![5, 0, 0, 0, b'a', b'b', b'c', b'd', 0, 0, 0, 0]
    );
    assert_eq!(bytes_of(Argument::Str(Vec::new())), vec![1, 0, 0, 0, 0, 0, 0, 0]);
}

#[test]
fn arrays_are_padded() {
    assert_eq!(bytes_of(Argument::Array(vec![1, 2])), vec![2, 0, 0, 0, 1, 2, 0, 0]);
    assert_eq!(bytes_of(Argument::Array(Vec::new())), vec![0, 0, 0, 0]);
    assert_eq!((padding(0), padding(1), padding(4), padding(7)), (0, 3, 0, 1));
}

#[test]
fn arguments_round_trip() {
    let args = vec![
        Argument::Uint(1),
        Argument::Str(b"test_global".to_vec()),
        Argument::Uint(3),
        Argument::Fd(7),
        Argument::NewId(4),
        Argument::Int(-5),
        Argument::Array(vec![9, 8, 7]),
        Argument::Fd(8),
    ];
    let sig = [
        ArgumentType::Uint,
        ArgumentType::Str,
        ArgumentType::Uint,
        ArgumentType::Fd,
        ArgumentType::NewId,
        ArgumentType::Int,
        ArgumentType::Array,
        ArgumentType::Fd,
    ];
    let mut out = Vec::new();
    let mut fds = Vec::new();
    encode_arguments(&args, &mut out, &mut fds);
    assert_eq!(fds, vec![7, 8]);
    assert_eq!(out.len() % 4, 0);
    assert_eq!(decode_arguments(&out, &sig, &fds), Some(args));
}

#[test]
fn malformed_arguments_are_refused() {
    // truncated word
    assert_eq!(decode_arguments(&[1, 0, 0], &[ArgumentType::Uint], &[]), None);
    // left-over bytes
    assert_eq!(decode_arguments(&[1, 0, 0, 0, 0, 0, 0, 0], &[ArgumentType::Uint], &[]), None);
    // string without its nul byte
    assert_eq!(decode_arguments(&[3, 0, 0, 0, b'a', b'b', b'c', 0], &[ArgumentType::Str], &[]), None);
    // string of length zero
    assert_eq!(decode_arguments(&[0, 0, 0, 0], &[ArgumentType::Str], &[]), None);
    // string longer than the bytes
    assert_eq!(decode_arguments(&[9, 0, 0, 0, b'a', 0, 0, 0], &[ArgumentType::Str], &[]), None);
    // missing file descriptor
    assert_eq!(decode_arguments(&[], &[ArgumentType::Fd], &[]), None);
    assert_eq!(decode_argument(&[], 0, ArgumentType::Fd, &[4], 0), Some((Argument::Fd(4), 0, 1)));
}

#[test]
fn message_round_trip() {
    let args = vec![Argument::Uint(1), Argument::Str(b"wl_seat".to_vec()), Argument::Uint(7)];
    let (bytes, fds) = encode_message(2, 0, &args).unwrap();
    assert!(fds.is_empty());
    assert_eq!(bytes.len(), 28);
    assert_eq!(&bytes[0..8], &[2, 0, 0, 0, 0, 0, 28, 0]);
    let sig = [ArgumentType::Uint, ArgumentType::Str, ArgumentType::Uint];
    let (h, back) = decode_message(&bytes, &sig, &fds).unwrap();
    assert_eq!(h, MessageHeader { sender_id: 2, opcode: 0, size: 28 });
    assert_eq!(back, args);
}

#[test]
fn oversized_message_is_refused() {
    let args = vec![Argument::Array(vec![0; 0xffff])];
    assert!(encode_message(2, 0, &args).is_none());
}

#[test]
fn bad_message_sizes_are_refused() {
    // size below the header's
    assert!(decode_message(&[1, 0, 0, 0, 0, 0, 4, 0], &[], &[]).is_none());
    // size beyond the bytes at hand
    assert!(decode_message(&[1, 0, 0, 0, 0, 0, 12, 0], &[ArgumentType::Uint], &[]).is_none());
    let (h, args) = decode_message(&[1, 0, 0, 0, 0, 0, 8, 0, 99], &[], &[]).unwrap();
    assert_eq!(h.size, 8);
    assert!(args.is_empty());
}

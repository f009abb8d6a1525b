//! Round trips and error behaviour of the descriptor-aware serialization and
//! of the envelope framing.
use rust_companion::codec::{dec_bytes, dec_u32, dec_u64, enc_bytes, push_u32_le, push_u64_le};
use rust_companion::{
    DecodeError, Handle, HandleKind, Receiver, Response, Sender, Task, decode_envelope,
    decode_response, decode_task, encode_envelope, encode_response, encode_task,
};

fn sender(fd: i32) -> Sender<Response> {
    Sender::from_raw(fd)
}

fn sender_fd(tx: Sender<Response>) -> i32 {
    let h = tx.into_handle();
    assert!(matches!(h.kind(), HandleKind::ChannelEndpoint));
    h.into_raw()
}

#[test]
fn task_get_round_trip() {
    let t = Task::Get(String::from("alpha"), sender(7));
    let (bytes, fds) = encode_task(&t);
    assert_eq!(fds, vec![7]);
    let back = decode_task(&bytes, &fds).unwrap();
    match back {
        Task::Get(k, tx) => {
            assert_eq!(k, "alpha");
            assert_eq!(sender_fd(tx), 7);
        },
        _ => panic!("wrong variant"),
    }
}

#[test]
fn task_put_round_trip() {
    let t = Task::Put(String::from("k"), String::from("värde"), sender(11));
    let (bytes, fds) = encode_task(&t);
    assert_eq!(fds, vec![11]);
    let back = decode_task(&bytes, &fds).unwrap();
    match back {
        Task::Put(k, v, tx) => {
            assert_eq!(k, "k");
            assert_eq!(v, "värde");
            assert_eq!(sender_fd(tx), 11);
        },
        _ => panic!("wrong variant"),
    }
}

#[test]
fn task_list_round_trip() {
    let t = Task::List(sender(3));
    let (bytes, fds) = encode_task(&t);
    assert_eq!(fds, vec![3]);
    match decode_task(&bytes, &fds).unwrap() {
        Task::List(tx) => assert_eq!(sender_fd(tx), 3),
        _ => panic!("wrong variant"),
    }
}

#[test]
fn task_sum_round_trip() {
    let t = Task::Sum(vec![23, -42, i64::MIN, i64::MAX], sender(9));
    let (bytes, fds) = encode_task(&t);
    assert_eq!(fds, vec![9]);
    match decode_task(&bytes, &fds).unwrap() {
        Task::Sum(vs, tx) => {
            assert_eq!(vs, vec![23, -42, i64::MIN, i64::MAX]);
            assert_eq!(sender_fd(tx), 9);
        },
        _ => panic!("wrong variant"),
    }
}

#[test]
fn task_shutdown_round_trip() {
    let (bytes, fds) = encode_task(&Task::Shutdown);
    assert!(fds.is_empty());
    assert!(matches!(decode_task(&bytes, &fds).unwrap(), Task::Shutdown));
}

#[test]
fn task_as_bytes_matches_encode() {
    let t = Task::Get(String::from("x"), sender(1));
    assert_eq!(t.as_bytes(), encode_task(&t).0);
}

#[test]
fn descriptor_binds_to_recorded_position() {
    // The placeholder recorded position 0, so whatever descriptor stands at
    // position 0 on the receiving side is the one the handle binds to.
    let t = Task::List(sender(3));
    let (bytes, _) = encode_task(&t);
    let received = vec![42];
    match decode_task(&bytes, &received).unwrap() {
        Task::List(tx) => assert_eq!(sender_fd(tx), 42),
        _ => panic!("wrong variant"),
    }
}

#[test]
fn response_round_trips() {
    let r = Response::String(String::from("65"));
    match decode_response(&encode_response(&r)).unwrap() {
        Response::String(s) => assert_eq!(s, "65"),
        _ => panic!("wrong variant"),
    }
    let r = Response::List(vec![String::from("a"), String::from(""), String::from("ccc")]);
    match decode_response(&encode_response(&r)).unwrap() {
        Response::List(v) => assert_eq!(v, vec!["a", "", "ccc"]),
        _ => panic!("wrong variant"),
    }
    assert!(matches!(
        decode_response(&encode_response(&Response::Done)).unwrap(),
        Response::Done
    ));
    assert!(matches!(
        decode_response(&encode_response(&Response::NotFound)).unwrap(),
        Response::NotFound
    ));
}

#[test]
fn response_as_bytes_matches_encode() {
    let r = Response::List(vec![String::from("k1")]);
    assert_eq!(r.as_bytes(), encode_response(&r));
}

#[test]
fn decode_rejects_empty_and_unknown_tag() {
    assert!(matches!(decode_task(&vec![], &vec![]), Err(DecodeError::Malformed)));
    assert!(matches!(decode_task(&vec![9u8], &vec![]), Err(DecodeError::Malformed)));
    assert_eq!(decode_response(&vec![]).unwrap_err(), DecodeError::Malformed);
    assert_eq!(decode_response(&vec![9u8]).unwrap_err(), DecodeError::Malformed);
}

#[test]
fn decode_rejects_truncated_task() {
    let t = Task::Get(String::from("alpha"), sender(7));
    let (mut bytes, fds) = encode_task(&t);
    bytes.pop();
    assert!(matches!(decode_task(&bytes, &fds), Err(DecodeError::Malformed)));
}

#[test]
fn decode_rejects_trailing_bytes() {
    let (mut bytes, fds) = encode_task(&Task::Shutdown);
    bytes.push(0);
    assert!(matches!(decode_task(&bytes, &fds), Err(DecodeError::Malformed)));
}

#[test]
fn wrong_handle_kind_is_a_type_mismatch() {
    // A List task whose reply placeholder carries the File kind tag instead
    // of the channel-endpoint tag: the decode fails with TypeMismatch.
    let bytes = vec![2u8, 0u8, 0u8, 0u8, 0u8, 0u8];
    let fds = vec![5];
    assert!(matches!(decode_task(&bytes, &fds), Err(DecodeError::TypeMismatch)));
}

#[test]
fn missing_descriptor_is_malformed() {
    // The placeholder names position 0 but no descriptor was received.
    let t = Task::List(sender(3));
    let (bytes, _) = encode_task(&t);
    assert!(matches!(decode_task(&bytes, &vec![]), Err(DecodeError::Malformed)));
}

#[test]
fn envelope_round_trip() {
    let payload = vec![1u8, 2, 3, 4, 5];
    let framed = encode_envelope(&payload, 2);
    assert_eq!(framed.len(), rust_companion::HEADER_LEN + payload.len());
    let (back, count) = decode_envelope(&framed).unwrap();
    assert_eq!(back, payload);
    assert_eq!(count, 2);
}

#[test]
fn envelope_of_empty_payload() {
    let framed = encode_envelope(&vec![], 0);
    assert_eq!(framed.len(), rust_companion::HEADER_LEN);
    let (back, count) = decode_envelope(&framed).unwrap();
    assert!(back.is_empty());
    assert_eq!(count, 0);
}

#[test]
fn envelope_rejects_bad_length() {
    let mut framed = encode_envelope(&vec![1u8, 2, 3], 0);
    framed.push(0);
    assert!(decode_envelope(&framed).is_none());
    assert!(decode_envelope(&vec![0u8; 5]).is_none());
}

#[test]
fn handle_conversions() {
    let h = Handle::from_raw(8, HandleKind::File);
    assert!(matches!(h.kind(), HandleKind::File));
    assert_eq!(h.into_raw(), 8);
    let h = Handle::from_raw(4, HandleKind::RawSocket);
    match Sender::<Response>::from_handle(h) {
        Ok(_) => panic!("a raw socket is not a channel endpoint"),
        Err(h) => assert_eq!(h.into_raw(), 4),
    }
    let h = Handle::from_raw(4, HandleKind::ChannelEndpoint);
    let tx = Sender::<Response>::from_handle(h).unwrap_or_else(|_| panic!("endpoint refused"));
    assert_eq!(sender_fd(tx), 4);
}

#[test]
fn primitive_codecs_round_trip() {
    let mut buf: Vec<u8> = Vec::new();
    push_u32_le(&mut buf, 0xDEADBEEF);
    push_u64_le(&mut buf, u64::MAX - 1);
    enc_bytes(&mut buf, &vec![9u8, 8, 7]);
    let (v32, p) = dec_u32(&buf, 0).unwrap();
    assert_eq!(v32, 0xDEADBEEF);
    let (v64, p) = dec_u64(&buf, p).unwrap();
    assert_eq!(v64, u64::MAX - 1);
    let (bs, p) = dec_bytes(&buf, p).unwrap();
    assert_eq!(bs, vec![9u8, 8, 7]);
    assert_eq!(p, buf.len());
    assert!(dec_u32(&buf, buf.len() - 2).is_none());
}

#[test]
fn receiver_conversions() {
    let rx: Receiver<Task> = Receiver::from_raw(6);
    let h = rx.into_handle();
    assert!(matches!(h.kind(), HandleKind::ChannelEndpoint));
    assert_eq!(h.into_raw(), 6);
    let h = Handle::from_raw(2, HandleKind::File);
    assert!(Receiver::<Task>::from_handle(h).is_err());
}

use faasten_core::buckle::{Buckle, Clause, Component};
use faasten_core::codec::{decode_buckle, decode_component, encode_buckle, encode_component};

fn clause(paths: &[&[&str]]) -> Clause {
    Clause {
        principals: paths.iter().map(|p| p.iter().map(|t| t.to_string()).collect()).collect(),
    }
}

#[test]
fn component_round_trip_unreachable() {
    let c = Component::dc_false();
    let bytes = encode_component(&c);
    let (d, used) = decode_component(&bytes, 0).unwrap();
    assert_eq!(used, bytes.len());
    assert!(c.implies(&d) && d.implies(&c));
    assert!(d.is_false());
}

#[test]
fn component_round_trip_empty_formula() {
    let c = Component::dc_true();
    let bytes = encode_component(&c);
    let (d, used) = decode_component(&bytes, 0).unwrap();
    assert_eq!(used, bytes.len());
    assert!(c.implies(&d) && d.implies(&c));
    // structurally the same bytes come back out
    assert_eq!(encode_component(&d), bytes);
}

#[test]
fn component_round_trip_multi_clause() {
    // clauses with empty and non-empty principal paths, and unicode tokens
    let c = Component::DcFormula(vec![
        clause(&[&["alice", "review"], &["bob"]]),
        clause(&[&[]]),
        clause(&[]),
        clause(&[&["café", "日本"]]),
    ]);
    let bytes = encode_component(&c);
    let (d, used) = decode_component(&bytes, 0).unwrap();
    assert_eq!(used, bytes.len());
    assert!(c.implies(&d) && d.implies(&c));
    assert_eq!(encode_component(&d), bytes);
}

#[test]
fn buckle_round_trip() {
    let b = Buckle::new(
        Component::DcFormula(vec![clause(&[&["alice"]]), clause(&[&["bob", "x"]])]),
        Component::dc_false(),
    );
    let bytes = encode_buckle(&b);
    let (d, used) = decode_buckle(&bytes, 0).unwrap();
    assert_eq!(used, bytes.len());
    assert!(b.alg_eq(&d));
    assert_eq!(encode_buckle(&d), bytes);
}

#[test]
fn decode_at_an_offset_and_trailing_bytes() {
    let b = Buckle::public();
    let mut bytes = vec![0xffu8, 0xee];
    let enc = encode_buckle(&b);
    bytes.extend_from_slice(&enc);
    bytes.extend_from_slice(b"trailing");
    let (d, used) = decode_buckle(&bytes, 2).unwrap();
    assert_eq!(used, 2 + enc.len());
    assert!(b.alg_eq(&d));
}

#[test]
fn request_round_trip() {
    let req = faasten_core::message::Request {
        gate: "home/app/run".to_string(),
        label: Buckle::new(
            Component::DcFormula(vec![clause(&[&["alice"]])]),
            Component::dc_true(),
        ),
        payload: b"{\"arg\":1}".to_vec(),
    };
    let bytes = faasten_core::codec::encode_request(&req);
    let (d, used) = faasten_core::codec::decode_request(&bytes, 0).unwrap();
    assert_eq!(used, bytes.len());
    assert_eq!(d.gate, "home/app/run".to_string());
    assert!(d.label.alg_eq(&req.label));
    assert_eq!(d.payload, req.payload);
    // a truncated request does not decode
    let cut = &bytes[..bytes.len() - 1];
    assert!(faasten_core::codec::decode_request(cut, 0).is_none());
}

#[test]
fn task_return_round_trip_with_payload() {
    let tr = faasten_core::message::TaskReturn {
        code: 0,
        payload: Some(faasten_core::message::Payload {
            status_code: 201,
            headers: vec![
                ("content-type".to_string(), "text/plain".to_string()),
                ("x-run".to_string(), "1".to_string()),
            ],
            body: b"ok".to_vec(),
        }),
    };
    let bytes = faasten_core::codec::encode_task_return(&tr);
    let (d, used) = faasten_core::codec::decode_task_return(&bytes, 0).unwrap();
    assert_eq!(used, bytes.len());
    assert_eq!(d.code, 0);
    let p = d.payload.unwrap();
    assert_eq!(p.status_code, 201);
    assert_eq!(p.headers, vec![
        ("content-type".to_string(), "text/plain".to_string()),
        ("x-run".to_string(), "1".to_string()),
    ]);
    assert_eq!(p.body, b"ok".to_vec());
    // a truncated task return does not decode
    assert!(faasten_core::codec::decode_task_return(&bytes[..bytes.len() - 1], 0).is_none());
}

#[test]
fn task_return_round_trip_without_payload() {
    let tr = faasten_core::message::TaskReturn { code: -7, payload: None };
    let bytes = faasten_core::codec::encode_task_return(&tr);
    let (d, used) = faasten_core::codec::decode_task_return(&bytes, 0).unwrap();
    assert_eq!(used, bytes.len());
    assert_eq!(d.code, -7);
    assert!(d.payload.is_none());
    // an unknown payload tag is rejected
    let mut bad = bytes.clone();
    bad[8] = 7;
    assert!(faasten_core::codec::decode_task_return(&bad, 0).is_none());
}

#[test]
fn malformed_bytes_are_rejected() {
    // an unknown tag
    assert!(decode_component(&[9u8], 0).is_none());
    // an empty buffer
    assert!(decode_component(&[], 0).is_none());
    // a formula whose clause count overruns the buffer
    let c = Component::DcFormula(vec![clause(&[&["a"]])]);
    let mut bytes = encode_component(&c);
    bytes.truncate(bytes.len() - 3);
    assert!(decode_component(&bytes, 0).is_none());
    // invalid UTF-8 inside a token
    let mut bytes2 = encode_component(&c);
    let n = bytes2.len();
    bytes2[n - 1] = 0xff;
    assert!(decode_component(&bytes2, 0).is_none());
}

use authority_fabric::proto::{
    decode_control, decode_control_ack, decode_counter_request, decode_counter_response,
    decode_root_request, decode_root_response, encode_control, encode_control_ack,
    encode_counter_request, encode_counter_response, encode_root_request, encode_root_response,
    ControlAck, ControlMsg, CounterRequest, CounterResponse, RootRequest, RootResponse, TAG_PING,
    TAG_VALUE,
};

#[test]
fn roundtrip_all_types() {
    for r in [RootRequest::Ping, RootRequest::OpenCounter] {
        assert_eq!(decode_root_request(&encode_root_request(r)).unwrap(), r);
    }
    for r in [RootResponse::Pong, RootResponse::Counter] {
        assert_eq!(decode_root_response(&encode_root_response(r)).unwrap(), r);
    }
    for r in [CounterRequest::Increment, CounterRequest::Get] {
        assert_eq!(
            decode_counter_request(&encode_counter_request(r)).unwrap(),
            r
        );
    }
    for r in [
        CounterResponse::Incremented(u64::MAX),
        CounterResponse::Value(0),
    ] {
        assert_eq!(
            decode_counter_response(&encode_counter_response(r)).unwrap(),
            r
        );
    }
    for r in [ControlMsg::ReadyToKill, ControlMsg::Done] {
        assert_eq!(decode_control(&encode_control(r)).unwrap(), r);
    }
    assert_eq!(
        decode_control_ack(&encode_control_ack(ControlAck::Ack)).unwrap(),
        ControlAck::Ack
    );
}

#[test]
fn garbage_payloads_are_invalid_message_not_crash() {
    assert!(decode_root_request(&[]).is_err());
    assert!(decode_root_request(&[0xAA]).is_err());
    assert!(decode_root_request(&[TAG_PING, 1]).is_err());
    assert!(decode_counter_response(&[TAG_VALUE]).is_err());
    assert!(decode_counter_response(&[TAG_VALUE, 1, 2, 3, 4, 5, 6, 7, 8, 9]).is_err());
}

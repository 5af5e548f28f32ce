use authority_fabric::proto::{
    decode_counter_response, decode_root_response, encode_counter_request, encode_root_request,
    CounterRequest, CounterResponse, RootRequest, RootResponse,
};
use authority_fabric::service::{
    has_nonce, is_restored, native_nonce, region_usable, region_verified, restored_mark, Mode, Serve,
    Service, Stock, REGION_SIZE,
};
use authority_fabric::shared::Rights;
use authority_fabric::{EpId, FabError};

const NONE: Stock = Stock { regions: 0, natives: 0, endpoints: 0 };

fn ep(n: u8) -> EpId {
    EpId([n; 16])
}

fn service(mode: Mode) -> Service {
    Service::new(ep(1), mode)
}

fn open(mode: Mode, stock: Stock, waited: bool) -> Serve {
    let ask = encode_root_request(RootRequest::OpenCounter);
    service(mode).on_request(ep(1), &ask, false, stock, waited)
}

#[test]
fn ping_is_answered() {
    let ask = encode_root_request(RootRequest::Ping);
    match service(Mode::Normal).on_request(ep(1), &ask, false, NONE, false) {
        Serve::Pong(b) => assert_eq!(decode_root_response(&b).unwrap(), RootResponse::Pong),
        other => panic!("{other:?}"),
    }
    assert!(matches!(
        service(Mode::Hold).on_request(ep(1), &ask, false, NONE, false),
        Serve::Ignore
    ));
}

#[test]
fn counter_counts_its_increments() {
    let mut s = service(Mode::Normal);
    s.created(ep(2));
    s.created(ep(3));
    assert!(s.can_count(ep(2)) && s.can_count(ep(9)));
    let inc = encode_counter_request(CounterRequest::Increment);
    let get = encode_counter_request(CounterRequest::Get);
    let mut ask = |e: u8, b: &[u8]| match s.on_request(ep(e), b, false, NONE, false) {
        Serve::Answer(b) => decode_counter_response(&b).unwrap(),
        other => panic!("{other:?}"),
    };
    assert_eq!(ask(2, &get), CounterResponse::Value(0));
    for n in 1..=5u64 {
        assert_eq!(ask(2, &inc), CounterResponse::Incremented(n));
    }
    assert_eq!(ask(2, &get), CounterResponse::Value(5));
    assert_eq!(ask(2, &get), CounterResponse::Value(5));
    assert_eq!(ask(3, &get), CounterResponse::Value(0));
}

#[test]
fn what_came_back_goes_first() {
    assert!(matches!(open(Mode::Normal, NONE, false), Serve::GiveNew(_)));
    let held = Stock { regions: 1, natives: 1, endpoints: 1 };
    assert!(matches!(open(Mode::Normal, held, false), Serve::GiveRegion(_)));
    assert!(matches!(
        open(Mode::Normal, Stock { regions: 0, ..held }, false),
        Serve::GiveNative { fresh: false, .. }
    ));
    assert!(matches!(
        open(Mode::Normal, Stock { regions: 0, natives: 0, endpoints: 1 }, false),
        Serve::GiveRestored(_)
    ));
    assert!(matches!(open(Mode::Native, NONE, false), Serve::GiveNative { fresh: true, .. }));
    assert!(matches!(open(Mode::AwaitRegion, NONE, false), Serve::AwaitRegion));
    match open(Mode::AwaitRegion, NONE, true) {
        Serve::GiveNew(b) => assert_eq!(decode_root_response(&b).unwrap(), RootResponse::Counter),
        other => panic!("{other:?}"),
    }
}

#[test]
fn region_is_verified_or_held() {
    let mut s = service(Mode::Normal);
    let hash = 0x0123_4567_89ab_cdefu64;
    match s.on_request(ep(9), &hash.to_le_bytes(), true, NONE, false) {
        Serve::Verify { expected } => assert_eq!(expected, hash),
        other => panic!("{other:?}"),
    }
    assert!(matches!(s.on_request(ep(9), &[], true, NONE, false), Serve::KeepRegion));
    assert!(region_verified(Some(7), 7, REGION_SIZE));
    assert!(!region_verified(Some(8), 7, REGION_SIZE));
    assert!(!region_verified(None, 7, REGION_SIZE));
    assert!(!region_verified(Some(7), 7, 4096));
    assert!(region_usable(Rights::ReadWrite, REGION_SIZE));
    assert!(!region_usable(Rights::ReadOnly, REGION_SIZE));
    assert!(!region_usable(Rights::ReadWrite, 1));
    assert_eq!(REGION_SIZE, 4 * 1024 * 1024);
}

#[test]
fn garbage_is_named() {
    let mut s = service(Mode::Normal);
    s.created(ep(2));
    assert!(matches!(
        s.on_request(ep(1), &[], false, NONE, false),
        Serve::BadRootRequest(FabError::InvalidMessage("empty payload"))
    ));
    assert!(matches!(
        s.on_request(ep(2), &[200], false, NONE, false),
        Serve::BadCounterRequest(FabError::InvalidMessage("unknown counter request tag"))
    ));
    assert!(matches!(s.on_request(ep(7), &[1], false, NONE, false), Serve::UnknownEndpoint));
}

#[test]
fn nonce_marks_a_native_file() {
    assert_eq!(native_nonce(), b"SEAM_NATIVE_NONCE");
    assert_eq!(restored_mark(), b"_RESTORED");
    assert!(has_nonce(b"SEAM_NATIVE_NONCE_and_more"));
    assert!(!has_nonce(b"SEAM_NATIVE_NONC"));
    assert!(!has_nonce(b"XEAM_NATIVE_NONCE"));
    assert!(is_restored(b"SEAM_NATIVE_NONCE_RESTORED"));
    assert!(!is_restored(b"SEAM_NATIVE_NONCE"));
    assert!(!is_restored(b"_RESTORED"));
}

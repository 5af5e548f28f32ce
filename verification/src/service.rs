//! The service role: a root interface, and the counters that it opens.
//!
//! What a request asks for is decided here; sending the reply, creating an
//! endpoint and touching kernel objects is left to the caller, who reports
//! back what it created.

use vstd::prelude::*;

use crate::bytes::{get_le, le_value};
use crate::fabric_error::FabError;
use crate::id::EpId;
use crate::proto::{
    counter_request_of, decode_counter_request, decode_root_request, encode_counter_response,
    encode_root_response, root_request_of, CounterRequest, CounterResponse, RootRequest,
    RootResponse,
};
use crate::shared::Rights;
use crate::table::Table;

verus! {

/// How the service behaves.
#[derive(Clone, Copy, Debug, PartialEq, Eq, Structural)]
pub enum Mode {
    Normal,
    /// Takes requests and answers none.
    Hold,
    /// Opens no counter before a region is held.
    AwaitRegion,
    /// Answers with native files.
    Native,
}

/// What the service holds and may give away again.
#[derive(Clone, Copy, Debug, PartialEq, Eq, Structural)]
pub struct Stock {
    pub regions: usize,
    pub natives: usize,
    pub endpoints: usize,
}

/// What to do about a request.
#[derive(Debug)]
pub enum Serve {
    /// Nothing at all.
    Ignore,
    /// Hash the region that came along and compare.
    Verify { expected: u64 },
    /// Hold the region that came along.
    KeepRegion,
    /// Answer a ping, after the configured delay.
    Pong(Vec<u8>),
    /// Answer with these bytes.
    Answer(Vec<u8>),
    /// Wait for a region to be held, and ask again.
    AwaitRegion,
    /// Answer with these bytes and a region that is held.
    GiveRegion(Vec<u8>),
    /// Answer with these bytes and a native file: one that came back, or a
    /// new one.
    GiveNative { reply: Vec<u8>, fresh: bool },
    /// Answer with these bytes and an endpoint that came back.
    GiveRestored(Vec<u8>),
    /// Answer with these bytes and the far side of a new counter.
    GiveNew(Vec<u8>),
    BadRootRequest(FabError),
    BadCounterRequest(FabError),
    UnknownEndpoint,
}

/// What to do about a request, in terms of its bytes.
pub enum ServeView {
    Ignore,
    Verify { expected: u64 },
    KeepRegion,
    Pong(Seq<u8>),
    Answer(Seq<u8>),
    AwaitRegion,
    GiveRegion(Seq<u8>),
    GiveNative { reply: Seq<u8>, fresh: bool },
    GiveRestored(Seq<u8>),
    GiveNew(Seq<u8>),
    BadRootRequest(FabError),
    BadCounterRequest(FabError),
    UnknownEndpoint,
}

impl View for Serve {
    type V = ServeView;

    open spec fn view(&self) -> ServeView {
        match *self {
            Serve::Ignore => ServeView::Ignore,
            Serve::Verify { expected } => ServeView::Verify { expected },
            Serve::KeepRegion => ServeView::KeepRegion,
            Serve::Pong(b) => ServeView::Pong(b@),
            Serve::Answer(b) => ServeView::Answer(b@),
            Serve::AwaitRegion => ServeView::AwaitRegion,
            Serve::GiveRegion(b) => ServeView::GiveRegion(b@),
            Serve::GiveNative { reply, fresh } => ServeView::GiveNative { reply: reply@, fresh },
            Serve::GiveRestored(b) => ServeView::GiveRestored(b@),
            Serve::GiveNew(b) => ServeView::GiveNew(b@),
            Serve::BadRootRequest(e) => ServeView::BadRootRequest(e),
            Serve::BadCounterRequest(e) => ServeView::BadCounterRequest(e),
            Serve::UnknownEndpoint => ServeView::UnknownEndpoint,
        }
    }
}

/// What opening a counter comes to. What came back from a failed transfer is
/// given away before anything new is made.
pub open spec fn opening(mode: Mode, stock: Stock, waited: bool) -> ServeView {
    let reply = seq![RootResponse::Counter.tag()];
    if mode == Mode::AwaitRegion && stock.regions == 0 && !waited {
        ServeView::AwaitRegion
    } else if stock.regions > 0 {
        ServeView::GiveRegion(reply)
    } else if mode == Mode::Native || stock.natives > 0 {
        ServeView::GiveNative { reply, fresh: stock.natives == 0 }
    } else if stock.endpoints > 0 {
        ServeView::GiveRestored(reply)
    } else {
        ServeView::GiveNew(reply)
    }
}

/// A request as it arrived: on which endpoint, with what bytes, and with or
/// without a region.
pub struct Request {
    pub local: EpId,
    pub payload: Seq<u8>,
    pub region: bool,
}

/// What a request comes to, and the counters after it.
pub open spec fn served(
    root: EpId,
    mode: Mode,
    counters: Map<EpId, u64>,
    req: Request,
    stock: Stock,
    waited: bool,
) -> (Map<EpId, u64>, ServeView) {
    let local = req.local;
    if mode == Mode::Hold {
        (counters, ServeView::Ignore)
    } else if req.region {
        if req.payload.len() == 8 {
            (counters, ServeView::Verify { expected: le_value(req.payload) as u64 })
        } else {
            (counters, ServeView::KeepRegion)
        }
    } else if local == root {
        match root_request_of(req.payload) {
            Ok(RootRequest::Ping) => (counters, ServeView::Pong(seq![RootResponse::Pong.tag()])),
            Ok(RootRequest::OpenCounter) => (counters, opening(mode, stock, waited)),
            Err(e) => (counters, ServeView::BadRootRequest(e)),
        }
    } else if counters.contains_key(local) {
        match counter_request_of(req.payload) {
            Ok(CounterRequest::Increment) => {
                let n = (counters[local] + 1) as u64;
                (
                    counters.insert(local, n),
                    ServeView::Answer(CounterResponse::Incremented(n).bytes()),
                )
            },
            Ok(CounterRequest::Get) => (
                counters,
                ServeView::Answer(CounterResponse::Value(counters[local]).bytes()),
            ),
            Err(e) => (counters, ServeView::BadCounterRequest(e)),
        }
    } else {
        (counters, ServeView::UnknownEndpoint)
    }
}

/// The service: its root endpoint and its counters.
pub struct Service {
    root: EpId,
    mode: Mode,
    counters: Table<EpId, u64>,
}

impl Service {
    /// The endpoint that the root interface is implemented on.
    pub closed spec fn root(&self) -> EpId {
        self.root
    }

    /// How the service behaves.
    pub closed spec fn mode(&self) -> Mode {
        self.mode
    }

    /// The counters and their values.
    pub closed spec fn counters(&self) -> Map<EpId, u64> {
        self.counters@
    }

    pub closed spec fn wf(&self) -> bool {
        self.counters.wf()
    }

    /// A service without counters.
    pub fn new(root: EpId, mode: Mode) -> (r: Self)
        ensures
            r.wf(),
            r.root() == root,
            r.mode() == mode,
            r.counters() == Map::<EpId, u64>::empty(),
    {
        Service { root, mode, counters: Table::new() }
    }

    /// A new counter starts at zero on the endpoint that implements it.
    pub fn created(&mut self, ep: EpId)
        requires
            old(self).wf(),
        ensures
            final(self).wf(),
            final(self).root() == old(self).root(),
            final(self).mode() == old(self).mode(),
            final(self).counters() == old(self).counters().insert(ep, 0),
    {
        self.counters.insert(ep, 0);
    }

    /// Can the counter on `ep`, if there is one, still count?
    pub fn can_count(&self, ep: EpId) -> (r: bool)
        ensures
            r == (self.counters().contains_key(ep) ==> self.counters()[ep] < u64::MAX),
    {
        match self.counters.get(ep) {
            Some(n) => *n < u64::MAX,
            None => true,
        }
    }

    /// What opening a counter comes to.
    fn open(&self, stock: Stock, waited: bool) -> (r: Serve)
        ensures
            r@ == opening(self.mode(), stock, waited),
    {
        let reply = encode_root_response(RootResponse::Counter);
        if self.mode == Mode::AwaitRegion && stock.regions == 0 && !waited {
            return Serve::AwaitRegion;
        }
        if stock.regions > 0 {
            return Serve::GiveRegion(reply);
        }
        if self.mode == Mode::Native || stock.natives > 0 {
            return Serve::GiveNative { reply, fresh: stock.natives == 0 };
        }
        if stock.endpoints > 0 {
            Serve::GiveRestored(reply)
        } else {
            Serve::GiveNew(reply)
        }
    }

    /// Decides a request. `waited` says that waiting for a region has already
    /// been tried. A counter must still be able to count.
    pub fn on_request(
        &mut self,
        local: EpId,
        payload: &[u8],
        region: bool,
        stock: Stock,
        waited: bool,
    ) -> (r: Serve)
        requires
            old(self).wf(),
            old(self).counters().contains_key(local) ==> old(self).counters()[local] < u64::MAX,
        ensures
            final(self).wf(),
            final(self).root() == old(self).root(),
            final(self).mode() == old(self).mode(),
            (final(self).counters(), r@) == served(
                old(self).root(),
                old(self).mode(),
                old(self).counters(),
                Request { local, payload: payload@, region },
                stock,
                waited,
            ),
    {
        if self.mode == Mode::Hold {
            return Serve::Ignore;
        }
        if region {
            if payload.len() == 8 {
                return Serve::Verify { expected: get_le(payload) };
            }
            return Serve::KeepRegion;
        }
        if local == self.root {
            return match decode_root_request(payload) {
                Ok(RootRequest::Ping) => Serve::Pong(encode_root_response(RootResponse::Pong)),
                Ok(RootRequest::OpenCounter) => self.open(stock, waited),
                Err(e) => Serve::BadRootRequest(e),
            };
        }
        let n: u64 = match self.counters.get(local) {
            Some(n) => *n,
            None => {
                return Serve::UnknownEndpoint;
            },
        };
        match decode_counter_request(payload) {
            Ok(CounterRequest::Increment) => {
                self.counters.insert(local, n + 1);
                Serve::Answer(encode_counter_response(CounterResponse::Incremented(n + 1)))
            },
            Ok(CounterRequest::Get) => Serve::Answer(
                encode_counter_response(CounterResponse::Value(n)),
            ),
            Err(e) => Serve::BadCounterRequest(e),
        }
    }
}

// ------------------------------------------------------------- verification --

/// The size of the region that a verification is about: four mebibytes.
pub const REGION_SIZE: u64 = 4194304;

/// Does the mapped region hold what was announced? `got` is the hash of the
/// mapped bytes, if they could be mapped.
pub fn region_verified(got: Option<u64>, expected: u64, size: u64) -> (r: bool)
    ensures
        r == (got == Some(expected) && size == REGION_SIZE),
{
    match got {
        Some(h) => h == expected && size == REGION_SIZE,
        None => false,
    }
}

/// May a producer use the region that it was given?
pub fn region_usable(rights: Rights, size: u64) -> (r: bool)
    ensures
        r == (rights == Rights::ReadWrite && size == REGION_SIZE),
{
    rights.is_writable() && size == REGION_SIZE
}

/// What a native file starts with: the text `SEAM_NATIVE_NONCE`.
pub open spec fn nonce_bytes() -> Seq<u8> {
    seq![83, 69, 65, 77, 95, 78, 65, 84, 73, 86, 69, 95, 78, 79, 78, 67, 69]
}

/// What a restored file ends with: the text `_RESTORED`.
pub open spec fn restored_bytes() -> Seq<u8> {
    seq![95, 82, 69, 83, 84, 79, 82, 69, 68]
}

/// The bytes that a new native file is written with.
pub fn native_nonce() -> (r: Vec<u8>)
    ensures
        r@ == nonce_bytes(),
{
    vec![83, 69, 65, 77, 95, 78, 65, 84, 73, 86, 69, 95, 78, 79, 78, 67, 69]
}

/// The bytes that mark a file that came back.
pub fn restored_mark() -> (r: Vec<u8>)
    ensures
        r@ == restored_bytes(),
{
    vec![95, 82, 69, 83, 84, 79, 82, 69, 68]
}

/// Are the bytes of `part` those of `data` from `at` on?
fn matches_at(data: &[u8], at: usize, part: &Vec<u8>) -> (r: bool)
    requires
        at + part@.len() <= data@.len(),
    ensures
        r == (data@.subrange(at as int, at + part@.len()) == part@),
{
    let n: usize = data.len();
    let mut i: usize = 0;
    while i < part.len()
        invariant
            i <= part@.len(),
            n == data@.len(),
            at + part@.len() <= data@.len(),
            forall|j: int| 0 <= j < i ==> data@[at + j] == part@[j],
        decreases part@.len() - i,
    {
        if data[at + i] != part[i] {
            assert(data@.subrange(at as int, at + part@.len())[i as int] != part@[i as int]);
            return false;
        }
        i = i + 1;
    }
    assert(data@.subrange(at as int, at + part@.len()) =~= part@);
    true
}

/// Does a native file hold the nonce it was made with?
pub fn has_nonce(data: &[u8]) -> (r: bool)
    ensures
        r == nonce_bytes().is_prefix_of(data@),
{
    let n = native_nonce();
    n.len() <= data.len() && matches_at(data, 0, &n)
}

/// Is a native file one that came back and was marked?
pub fn is_restored(data: &[u8]) -> (r: bool)
    ensures
        r == (nonce_bytes().is_prefix_of(data@) && restored_bytes().is_suffix_of(data@)),
{
    let m = restored_mark();
    has_nonce(data) && m.len() <= data.len() && matches_at(data, data.len() - m.len(), &m)
}

// ------------------------------------------------------------------- laws ---

/// The counters after a series of requests, each with the stock at its time.
pub open spec fn served_all(
    root: EpId,
    mode: Mode,
    counters: Map<EpId, u64>,
    reqs: Seq<(Request, Stock)>,
) -> Map<EpId, u64>
    decreases reqs.len(),
{
    if reqs.len() == 0 {
        counters
    } else {
        let c = served_all(root, mode, counters, reqs.drop_last());
        served(root, mode, c, reqs.last().0, reqs.last().1, false).0
    }
}

/// Is the request an increment of the counter on `ep`?
pub open spec fn increments(root: EpId, mode: Mode, ep: EpId, req: Request) -> bool {
    &&& mode != Mode::Hold
    &&& ep != root
    &&& req.local == ep
    &&& !req.region
    &&& counter_request_of(req.payload) == Ok::<CounterRequest, FabError>(CounterRequest::Increment)
}

/// How many of the requests increment the counter on `ep`.
pub open spec fn increment_count(
    root: EpId,
    mode: Mode,
    ep: EpId,
    reqs: Seq<(Request, Stock)>,
) -> nat
    decreases reqs.len(),
{
    if reqs.len() == 0 {
        0
    } else {
        increment_count(root, mode, ep, reqs.drop_last()) + if increments(
            root,
            mode,
            ep,
            reqs.last().0,
        ) {
            1nat
        } else {
            0
        }
    }
}

/// A counter's value is where it started plus the increments it was sent,
/// whatever else the service was asked meanwhile.
pub proof fn law_counter_counts_increments(
    root: EpId,
    mode: Mode,
    counters: Map<EpId, u64>,
    ep: EpId,
    reqs: Seq<(Request, Stock)>,
)
    requires
        counters.contains_key(ep),
        counters[ep] + increment_count(root, mode, ep, reqs) <= u64::MAX,
    ensures
        served_all(root, mode, counters, reqs).contains_key(ep),
        served_all(root, mode, counters, reqs)[ep] == counters[ep] + increment_count(
            root,
            mode,
            ep,
            reqs,
        ),
    decreases reqs.len(),
{
    if reqs.len() > 0 {
        law_counter_counts_increments(root, mode, counters, ep, reqs.drop_last());
    }
}

/// Reading a counter changes nothing and answers with its value.
pub proof fn law_get_reads(
    root: EpId,
    mode: Mode,
    counters: Map<EpId, u64>,
    req: Request,
    stock: Stock,
    waited: bool,
)
    requires
        mode != Mode::Hold,
        req.local != root,
        !req.region,
        counters.contains_key(req.local),
        counter_request_of(req.payload) == Ok::<CounterRequest, FabError>(CounterRequest::Get),
    ensures
        served(root, mode, counters, req, stock, waited) == (
            counters,
            ServeView::Answer(CounterResponse::Value(counters[req.local]).bytes()),
        ),
{
}

/// Nothing new is made while something that came back is still held.
pub proof fn law_restored_goes_first(mode: Mode, stock: Stock, waited: bool)
    requires
        stock.regions > 0 || stock.natives > 0 || stock.endpoints > 0,
        mode == Mode::Native ==> stock.regions > 0 || stock.natives > 0,
    ensures
        !(opening(mode, stock, waited) is GiveNew),
        !(opening(mode, stock, waited) matches ServeView::GiveNative { fresh, .. } && fresh),
{
}

} // verus!

//! Per-connection state machine: from the first record to the one handler
//! invocation and the framed response.
//!
//! The driver consumes decoded records and decides, for each, what the
//! connection does next: keep reading, write an immediate reply, invoke the
//! request handler, or abort.  The whole decision is the pure function
//! `spec_step`; `Connection::step` is proved to implement it.  I/O and the
//! handler itself stay with the caller: the caller writes the bytes of a
//! `Reply` or `AbortReply`, calls the handler once when told `Invoke`, and
//! frames the handler's output with `respond`.

use vstd::prelude::*;

use crate::fastcgi::{
    enc_pair, enc_pairs, encode_stdout_spec, end_request_bytes, frame_bytes, pairs_map,
    valid_pairs, BeginRequest, ContentData, DataModel, FastCGI, Header, HeaderType, Record,
    RecordModel, FASTCGI_VERSION,
};

verus! {

/// Where a connection stands in its single request's life.
#[derive(Clone, Copy, Debug, PartialEq, Eq, Structural)]
pub enum Status {
    /// Nothing received yet: the begin-request record must come first.
    AwaitBegin,
    /// Begin received: params records accumulate.
    AwaitParams,
    /// The empty params record arrived: the mapping is final.
    ParamsDone,
    /// Stdin records accumulate.
    AwaitStdin,
    /// The empty stdin record arrived: the handler runs, the response is
    /// written, the connection closes.
    Done,
    /// A protocol violation or an abort record ended the connection.
    Aborted,
}

/// What the connection does after one record.
pub enum StepAction {
    /// Keep reading.
    Continue,
    /// Write these bytes now and keep reading.
    Reply(Vec<u8>),
    /// Both streams are final: call the handler, once, then respond.
    Invoke,
    /// Write these bytes — the minimal end-request — and close.
    AbortReply(Vec<u8>),
    /// Close without writing.
    Abort,
}

/// Mathematical image of a `StepAction`.
pub enum ActionModel {
    Continue,
    Reply(Seq<u8>),
    Invoke,
    AbortReply(Seq<u8>),
    Abort,
}

impl View for StepAction {
    type V = ActionModel;

    open spec fn view(&self) -> ActionModel {
        match self {
            StepAction::Continue => ActionModel::Continue,
            StepAction::Reply(v) => ActionModel::Reply(v@),
            StepAction::Invoke => ActionModel::Invoke,
            StepAction::AbortReply(v) => ActionModel::AbortReply(v@),
            StepAction::Abort => ActionModel::Abort,
        }
    }
}

/// One connection's state: the honored request id, the accumulating
/// streams, and where the state machine stands.
pub struct Connection {
    pub status: Status,
    pub request_id: u16,
    pub begin: Option<BeginRequest>,
    pub params: Vec<(Vec<u8>, Vec<u8>)>,
    pub stdin: Vec<u8>,
    pub stdin_seen: bool,
}

/// Mathematical image of a `Connection`.
pub struct ConnModel {
    pub status: Status,
    pub request_id: u16,
    pub begin: Option<BeginRequest>,
    pub params: Seq<(Seq<u8>, Seq<u8>)>,
    pub stdin: Seq<u8>,
    pub stdin_seen: bool,
}

impl View for Connection {
    type V = ConnModel;

    open spec fn view(&self) -> ConnModel {
        ConnModel {
            status: self.status,
            request_id: self.request_id,
            begin: self.begin,
            params: self.params.deep_view(),
            stdin: self.stdin@,
            stdin_seen: self.stdin_seen,
        }
    }
}

// ------------------------------------------------------------------
// The capability reply
// ------------------------------------------------------------------
/// The capability names this server answers, each with the value one: it
/// serves one connection and one request per connection.
pub open spec fn caps() -> Seq<(Seq<u8>, Seq<u8>)> {
    seq![
        (seq![70u8, 67u8, 71u8, 73u8, 95u8, 77u8, 65u8, 88u8, 95u8, 67u8, 79u8, 78u8, 78u8, 83u8], seq![49u8]),
        (seq![70u8, 65u8, 83u8, 84u8, 67u8, 71u8, 73u8, 95u8, 77u8, 65u8, 88u8, 95u8, 82u8, 69u8, 81u8, 83u8], seq![49u8]),
        (seq![70u8, 65u8, 83u8, 84u8, 67u8, 71u8, 73u8, 95u8, 77u8, 65u8, 88u8, 95u8, 67u8, 79u8, 78u8, 78u8, 83u8], seq![49u8]),
    ]
}

/// The capability pairs as vectors.
fn caps_pairs() -> (v: Vec<(Vec<u8>, Vec<u8>)>)
    ensures
        v.deep_view() == caps(),
{
    let key1: Vec<u8> = vec![70u8, 67u8, 71u8, 73u8, 95u8, 77u8, 65u8, 88u8, 95u8, 67u8, 79u8, 78u8, 78u8, 83u8];
    let key2: Vec<u8> = vec![70u8, 65u8, 83u8, 84u8, 67u8, 71u8, 73u8, 95u8, 77u8, 65u8, 88u8, 95u8, 82u8, 69u8, 81u8, 83u8];
    let key3: Vec<u8> = vec![70u8, 65u8, 83u8, 84u8, 67u8, 71u8, 73u8, 95u8, 77u8, 65u8, 88u8, 95u8, 67u8, 79u8, 78u8, 78u8, 83u8];
    let one1: Vec<u8> = vec![49u8];
    let one2: Vec<u8> = vec![49u8];
    let one3: Vec<u8> = vec![49u8];
    let v: Vec<(Vec<u8>, Vec<u8>)> = vec![(key1, one1), (key2, one2), (key3, one3)];
    assert(v.deep_view() =~~= caps());
    v
}

/// The capability pairs fit one record.
pub proof fn lemma_caps_fit()
    ensures
        valid_pairs(caps()),
        enc_pairs(caps()).len() <= 65535,
{
    let c = caps();
    let e = Seq::<(Seq<u8>, Seq<u8>)>::empty();
    assert(seq![c[2]].skip(1) =~= e);
    assert(enc_pairs(e) == Seq::<u8>::empty());
    assert(enc_pairs(seq![c[2]]) == enc_pair(c[2]) + enc_pairs(e));
    assert(seq![c[1], c[2]].skip(1) =~= seq![c[2]]);
    assert(enc_pairs(seq![c[1], c[2]]) == enc_pair(c[1]) + enc_pairs(seq![c[2]]));
    assert(c.skip(1) =~= seq![c[1], c[2]]);
    assert(enc_pairs(c) == enc_pair(c[0]) + enc_pairs(c.skip(1)));
    assert(enc_pair(c[0]).len() == 17);
    assert(enc_pair(c[1]).len() == 19);
    assert(enc_pair(c[2]).len() == 20);
}

/// The wire bytes of the get-values-result record answering a capability
/// query.
pub open spec fn get_values_reply_bytes(request_id: u16) -> Seq<u8> {
    frame_bytes(
        Header {
            version: FASTCGI_VERSION,
            header_type: HeaderType::GetValuesResult,
            request_id,
            content_length: enc_pairs(caps()).len() as u16,
            padding_length: 0,
            reserved: 0,
        },
        enc_pairs(caps()),
    )
}

/// The wire bytes of the unknown-type record naming a type byte this
/// server does not understand.
pub open spec fn unknown_reply_bytes(request_id: u16, unknown: u8) -> Seq<u8> {
    frame_bytes(
        Header {
            version: FASTCGI_VERSION,
            header_type: HeaderType::UnknownType,
            request_id,
            content_length: 8,
            padding_length: 0,
            reserved: 0,
        },
        seq![unknown, 0u8, 0u8, 0u8, 0u8, 0u8, 0u8, 0u8],
    )
}

// ------------------------------------------------------------------
// The transition function
// ------------------------------------------------------------------
/// A connection model with its status replaced.
pub open spec fn with_status(c: ConnModel, status: Status) -> ConnModel {
    ConnModel { status, ..c }
}

/// What one record does to a connection: the next state and the action the
/// caller performs.  Capability queries and unknown types are answered in
/// place and change no state; every protocol violation — a record out of
/// sequence, or one bearing a request id other than the begin request's —
/// aborts the connection without a response; an abort request on an open
/// request is answered with the minimal end-request record.
pub open spec fn spec_step(c: ConnModel, r: RecordModel) -> (ConnModel, ActionModel) {
    if c.status is Done || c.status is Aborted {
        (with_status(c, Status::Aborted), ActionModel::Abort)
    } else {
        match r.header.header_type {
            HeaderType::GetValues => if r.header.request_id == 0 {
                (c, ActionModel::Reply(get_values_reply_bytes(0)))
            } else {
                (c, ActionModel::Continue)
            },
            HeaderType::Error(code) => (
                c,
                ActionModel::Reply(unknown_reply_bytes(r.header.request_id, code)),
            ),
            HeaderType::BeginRequest => if !(c.status is AwaitBegin) {
                (with_status(c, Status::Aborted), ActionModel::Abort)
            } else {
                match r.data {
                    DataModel::BeginRequest(b) => (
                        ConnModel {
                            status: Status::AwaitParams,
                            request_id: r.header.request_id,
                            begin: Some(b),
                            ..c
                        },
                        ActionModel::Continue,
                    ),
                    _ => (with_status(c, Status::Aborted), ActionModel::Abort),
                }
            },
            HeaderType::AbortRequest => if c.status is AwaitBegin {
                (with_status(c, Status::Aborted), ActionModel::Abort)
            } else if r.header.request_id != c.request_id {
                (with_status(c, Status::Aborted), ActionModel::Abort)
            } else {
                (
                    with_status(c, Status::Aborted),
                    ActionModel::AbortReply(end_request_bytes(c.request_id, 0)),
                )
            },
            HeaderType::Params => if !(c.status is AwaitParams) {
                (with_status(c, Status::Aborted), ActionModel::Abort)
            } else if r.header.request_id != c.request_id {
                (with_status(c, Status::Aborted), ActionModel::Abort)
            } else {
                match r.data {
                    DataModel::Param(ps) => (
                        ConnModel { params: c.params + ps, ..c },
                        ActionModel::Continue,
                    ),
                    DataModel::Empty => (with_status(c, Status::ParamsDone), ActionModel::Continue),
                    _ => (with_status(c, Status::Aborted), ActionModel::Abort),
                }
            },
            HeaderType::Stdin => if !(c.status is ParamsDone || c.status is AwaitStdin) {
                (with_status(c, Status::Aborted), ActionModel::Abort)
            } else if r.header.request_id != c.request_id {
                (with_status(c, Status::Aborted), ActionModel::Abort)
            } else {
                match r.data {
                    DataModel::Stream(bs) => (
                        ConnModel {
                            status: Status::AwaitStdin,
                            stdin: c.stdin + bs,
                            stdin_seen: true,
                            ..c
                        },
                        ActionModel::Continue,
                    ),
                    DataModel::Empty => (with_status(c, Status::Done), ActionModel::Invoke),
                    _ => (with_status(c, Status::Aborted), ActionModel::Abort),
                }
            },
            HeaderType::Data => (c, ActionModel::Continue),
            _ => (with_status(c, Status::Aborted), ActionModel::Abort),
        }
    }
}

/// The handler is invoked exactly once per connection: an invocation comes
/// only on the step into `Done`, and no step leaves `Done` or `Aborted`
/// open, so no later step can invoke again.
pub proof fn lemma_invoke_once(c: ConnModel, r: RecordModel)
    ensures
        spec_step(c, r).1 is Invoke ==> (c.status is ParamsDone || c.status is AwaitStdin)
            && spec_step(c, r).0.status is Done,
        c.status is Done || c.status is Aborted ==> !(spec_step(c, r).1 is Invoke),
{
}

/// How many of a record sequence's steps invoke the handler.
pub open spec fn invoke_count(c: ConnModel, rs: Seq<RecordModel>) -> nat
    decreases rs.len(),
{
    if rs.len() == 0 {
        0
    } else {
        let (c2, a) = spec_step(c, rs.first());
        (if a is Invoke {
            1nat
        } else {
            0nat
        }) + invoke_count(c2, rs.drop_first())
    }
}

/// A closed connection never invokes again.
proof fn lemma_closed_never_invokes(c: ConnModel, rs: Seq<RecordModel>)
    requires
        c.status is Done || c.status is Aborted,
    ensures
        invoke_count(c, rs) == 0,
    decreases rs.len(),
{
    if rs.len() > 0 {
        let (c2, a) = spec_step(c, rs.first());
        lemma_closed_never_invokes(c2, rs.drop_first());
    }
}

/// Over any record sequence whatsoever, from any starting state, the
/// handler is invoked at most once: the invoking step closes the
/// connection, and a closed connection never invokes again.
pub proof fn lemma_at_most_one_invoke(c: ConnModel, rs: Seq<RecordModel>)
    ensures
        invoke_count(c, rs) <= 1,
    decreases rs.len(),
{
    if rs.len() > 0 {
        let (c2, a) = spec_step(c, rs.first());
        if a is Invoke {
            lemma_closed_never_invokes(c2, rs.drop_first());
        } else {
            lemma_at_most_one_invoke(c2, rs.drop_first());
        }
    }
}

/// Where a connection stands after a row of records.
pub open spec fn run_steps(c: ConnModel, rs: Seq<RecordModel>) -> ConnModel
    decreases rs.len(),
{
    if rs.len() == 0 {
        c
    } else {
        run_steps(spec_step(c, rs.first()).0, rs.drop_first())
    }
}

/// One params record carrying a pair list.
pub open spec fn params_record(request_id: u16, ps: Seq<(Seq<u8>, Seq<u8>)>) -> RecordModel {
    RecordModel {
        header: Header {
            version: FASTCGI_VERSION,
            header_type: HeaderType::Params,
            request_id,
            content_length: enc_pairs(ps).len() as u16,
            padding_length: 0,
            reserved: 0,
        },
        data: DataModel::Param(ps),
    }
}

/// Params reassembly at the driver: one name/value set split across any
/// number of params records accumulates to exactly the concatenated list —
/// the same list, hence the same finalized mapping under `pairs_map`, as
/// delivering the whole set in one record.
pub proof fn lemma_params_accumulate(c: ConnModel, chunks: Seq<Seq<(Seq<u8>, Seq<u8>)>>)
    requires
        c.status is AwaitParams,
    ensures
        ({
            let after = run_steps(
                c,
                chunks.map_values(|ps: Seq<(Seq<u8>, Seq<u8>)>| params_record(c.request_id, ps)),
            );
            &&& after.status is AwaitParams
            &&& after.request_id == c.request_id
            &&& after.params == c.params + chunks.flatten()
        }),
    decreases chunks.len(),
{
    let f = |ps: Seq<(Seq<u8>, Seq<u8>)>| params_record(c.request_id, ps);
    let rs = chunks.map_values(f);
    if chunks.len() == 0 {
        assert(c.params + chunks.flatten() =~= c.params);
    } else {
        let (c2, a) = spec_step(c, rs.first());
        assert(rs.first() == params_record(c.request_id, chunks.first()));
        assert(c2.params == c.params + chunks.first());
        let f2 = |ps: Seq<(Seq<u8>, Seq<u8>)>| params_record(c2.request_id, ps);
        assert(chunks.drop_first().map_values(f2) =~= rs.drop_first());
        lemma_params_accumulate(c2, chunks.drop_first());
        assert((c.params + chunks.first()) + chunks.drop_first().flatten() =~= c.params + (
        chunks.first() + chunks.drop_first().flatten()));
        assert(chunks.flatten() == chunks.first() + chunks.drop_first().flatten());
    }
}

impl Connection {
    /// A fresh connection awaiting its begin request.
    pub fn new() -> (c: Connection)
        ensures
            c@.status is AwaitBegin,
            c@.params == Seq::<(Seq<u8>, Seq<u8>)>::empty(),
            c@.stdin == Seq::<u8>::empty(),
            !c@.stdin_seen,
            c@.begin is None,
    {
        let c = Connection {
            status: Status::AwaitBegin,
            request_id: 0,
            begin: None,
            params: Vec::new(),
            stdin: Vec::new(),
            stdin_seen: false,
        };
        proof {
            assert(c.params.deep_view() =~= Seq::<(Seq<u8>, Seq<u8>)>::empty());
        }
        c
    }

    /// Feeds one decoded record to the state machine and says what to do.
    pub fn step(&mut self, record: Record) -> (act: StepAction)
        ensures
            final(self)@ == spec_step(old(self)@, record@).0,
            act@ == spec_step(old(self)@, record@).1,
    {
        let ghost pre = old(self)@;
        let ghost rm = record@;
        if matches!(self.status, Status::Done | Status::Aborted) {
            self.status = Status::Aborted;
            return StepAction::Abort;
        }
        let Record { header, data } = record;
        match header.header_type {
            HeaderType::GetValues => {
                if header.request_id == 0 {
                    StepAction::Reply(get_values_reply(0))
                } else {
                    StepAction::Continue
                }
            },
            HeaderType::Error(code) => {
                StepAction::Reply(FastCGI::encode_unknown_type(header.request_id, code))
            },
            HeaderType::BeginRequest => {
                if !matches!(self.status, Status::AwaitBegin) {
                    self.status = Status::Aborted;
                    return StepAction::Abort;
                }
                match data {
                    ContentData::BeginRequest(b) => {
                        self.status = Status::AwaitParams;
                        self.request_id = header.request_id;
                        self.begin = Some(b);
                        StepAction::Continue
                    },
                    _ => {
                        self.status = Status::Aborted;
                        StepAction::Abort
                    },
                }
            },
            HeaderType::AbortRequest => {
                if matches!(self.status, Status::AwaitBegin) {
                    self.status = Status::Aborted;
                    return StepAction::Abort;
                }
                if header.request_id != self.request_id {
                    self.status = Status::Aborted;
                    return StepAction::Abort;
                }
                self.status = Status::Aborted;
                StepAction::AbortReply(FastCGI::encode_end_request(self.request_id, 0))
            },
            HeaderType::Params => {
                if !matches!(self.status, Status::AwaitParams) {
                    self.status = Status::Aborted;
                    return StepAction::Abort;
                }
                if header.request_id != self.request_id {
                    self.status = Status::Aborted;
                    return StepAction::Abort;
                }
                match data {
                    ContentData::Param(mut ps) => {
                        let ghost ps_dv = ps.deep_view();
                        self.params.append(&mut ps);
                        proof {
                            assert(self.params.deep_view() =~~= pre.params + ps_dv);
                        }
                        StepAction::Continue
                    },
                    ContentData::Empty => {
                        self.status = Status::ParamsDone;
                        StepAction::Continue
                    },
                    _ => {
                        self.status = Status::Aborted;
                        StepAction::Abort
                    },
                }
            },
            HeaderType::Stdin => {
                if !matches!(self.status, Status::ParamsDone | Status::AwaitStdin) {
                    self.status = Status::Aborted;
                    return StepAction::Abort;
                }
                if header.request_id != self.request_id {
                    self.status = Status::Aborted;
                    return StepAction::Abort;
                }
                match data {
                    ContentData::Stream(mut bs) => {
                        self.status = Status::AwaitStdin;
                        self.stdin.append(&mut bs);
                        self.stdin_seen = true;
                        StepAction::Continue
                    },
                    ContentData::Empty => {
                        self.status = Status::Done;
                        StepAction::Invoke
                    },
                    _ => {
                        self.status = Status::Aborted;
                        StepAction::Abort
                    },
                }
            },
            HeaderType::Data => StepAction::Continue,
            _ => {
                self.status = Status::Aborted;
                StepAction::Abort
            },
        }
    }

    /// The finalized mapping's value under one name: the last value the
    /// params stream carried for it, as the accumulation law overwrites
    /// earlier values under the same name.
    pub fn param_value(&self, key: &[u8]) -> (r: Option<&Vec<u8>>)
        ensures
            match r {
                Some(v) => pairs_map(self@.params).contains_key(key@) && pairs_map(
                    self@.params,
                )[key@] == v@,
                None => !pairs_map(self@.params).contains_key(key@),
            },
    {
        let ghost dv = self@.params;
        let mut i: usize = self.params.len();
        proof {
            assert(dv.take(dv.len() as int) =~= dv);
        }
        while i > 0
            invariant
                i <= self.params@.len(),
                dv == self@.params,
                dv.len() == self.params@.len(),
                pairs_map(dv).contains_key(key@) == pairs_map(dv.take(i as int)).contains_key(
                    key@,
                ),
                pairs_map(dv).contains_key(key@) ==> pairs_map(dv)[key@] == pairs_map(
                    dv.take(i as int),
                )[key@],
            decreases i,
        {
            i -= 1;
            proof {
                assert(dv.take(i + 1).drop_last() =~= dv.take(i as int));
                assert(dv.take(i + 1).last() == dv[i as int]);
                assert(dv[i as int] == (self.params@[i as int].0@, self.params@[i as int].1@));
            }
            if crate::control::bytes_eq(self.params[i].0.as_slice(), key) {
                return Some(&self.params[i].1);
            }
        }
        proof {
            assert(dv.take(0) =~= Seq::<(Seq<u8>, Seq<u8>)>::empty());
        }
        None
    }

    /// Frames the handler's output as the connection's whole response:
    /// stdout chunks, the empty stdout record, one end-request record.
    pub fn respond(&self, answer: Vec<u8>) -> (out: Vec<u8>)
        ensures
            out@ == encode_stdout_spec(self.request_id, answer@) + end_request_bytes(
                self.request_id,
                0,
            ),
    {
        let mut out = FastCGI::encode_stdout(self.request_id, answer.as_slice());
        let end = FastCGI::encode_end_request(self.request_id, 0);
        out.extend_from_slice(end.as_slice());
        out
    }
}

/// Builds the get-values-result reply to a capability query.
pub fn get_values_reply(request_id: u16) -> (out: Vec<u8>)
    ensures
        out@ == get_values_reply_bytes(request_id),
{
    proof {
        lemma_caps_fit();
    }
    FastCGI::encode_get_values_result(request_id, caps_pairs())
}

} // verus!

//! Control-plane protocol: the shared-secret shutdown token, the decision
//! taken on a control connection, and the reply that carries the process id.
//!
//! The token is the ASCII text `"stop "` followed by the shared secret; the
//! reply is `"stop "` followed by the process id in decimal.  Everything here
//! works on plain byte slices; reading and writing the control socket is the
//! caller's business.

use vstd::prelude::*;

verus! {

/// The run modes of the command line: start a background server, ask a
/// running one to stop, show usage, or serve in the foreground.
#[derive(Clone, Copy, Debug, PartialEq, Eq, Structural)]
pub enum Mode {
    Start,
    Stop,
    Help,
    Go,
}

/// The five ASCII bytes `"stop "` that open both the shutdown token and the
/// control-plane reply.
pub open spec fn stop_prefix() -> Seq<u8> {
    seq![115u8, 116u8, 111u8, 112u8, 32u8]
}

/// Decimal digits of `n`, most significant first, as ASCII bytes.
pub open spec fn dec_rep(n: nat) -> Seq<u8>
    decreases n,
{
    if n < 10 {
        seq![(48 + n) as u8]
    } else {
        dec_rep(n / 10) + seq![(48 + n % 10) as u8]
    }
}

/// Compares two byte slices for equality of contents.
pub fn bytes_eq(a: &[u8], b: &[u8]) -> (r: bool)
    ensures
        r == (a@ == b@),
{
    if a.len() != b.len() {
        assert(a@.len() != b@.len());
        return false;
    }
    let mut i: usize = 0;
    while i < a.len()
        invariant
            i <= a.len(),
            a.len() == b.len(),
            forall|j: int| 0 <= j < i ==> a@[j] == b@[j],
        decreases a.len() - i,
    {
        if a[i] != b[i] {
            return false;
        }
        i += 1;
    }
    assert(a@ =~= b@);
    true
}

/// The shutdown token for a given shared secret: `"stop "` + secret.
pub fn stop_token(secret: &[u8]) -> (t: Vec<u8>)
    ensures
        t@ == stop_prefix() + secret@,
{
    let mut t: Vec<u8> = Vec::new();
    t.push(115);
    t.push(116);
    t.push(111);
    t.push(112);
    t.push(32);
    assert(t@ =~= stop_prefix());
    let mut i: usize = 0;
    while i < secret.len()
        invariant
            i <= secret.len(),
            t@ == stop_prefix() + secret@.take(i as int),
        decreases secret.len() - i,
    {
        t.push(secret[i]);
        assert(stop_prefix() + secret@.take(i as int) + seq![secret@[i as int]] =~= stop_prefix()
            + secret@.take(i as int + 1));
        i += 1;
    }
    assert(secret@.take(secret.len() as int) =~= secret@);
    t
}

/// The decision taken on bytes read from a control connection: exactly the
/// shutdown token means stop; anything else is refused and the connection is
/// closed without a reply.
pub fn rpc_decision(buf: &[u8], token: &[u8]) -> (m: Option<Mode>)
    ensures
        m == if buf@ == token@ {
            Some(Mode::Stop)
        } else {
            None::<Mode>
        },
{
    if bytes_eq(buf, token) {
        Some(Mode::Stop)
    } else {
        None
    }
}

/// Whether bytes peeked from a freshly accepted data-plane connection are the
/// in-band shutdown token, which ends the accept loop instead of being
/// forwarded as a job.
pub fn is_stop_token(peeked: &[u8], token: &[u8]) -> (r: bool)
    ensures
        r == (peeked@ == token@),
{
    bytes_eq(peeked, token)
}

/// The process id as ASCII decimal digits, most significant first.
pub fn dec_bytes(pid: u64) -> (d: Vec<u8>)
    ensures
        d@ == dec_rep(pid as nat),
{
    let mut rev: Vec<u8> = Vec::new();
    let mut m: u64 = pid;
    while m >= 10
        invariant
            dec_rep(pid as nat) == dec_rep(m as nat) + rev@.reverse(),
        decreases m,
    {
        let d: u8 = 48 + (m % 10) as u8;
        proof {
            assert(rev@.push(d).reverse() =~= seq![d] + rev@.reverse());
        }
        rev.push(d);
        m = m / 10;
    }
    let d: u8 = 48 + (m % 10) as u8;
    proof {
        assert(m % 10 == m as nat);
        assert(rev@.push(d).reverse() =~= seq![d] + rev@.reverse());
        assert(dec_rep(m as nat) == seq![d]);
    }
    rev.push(d);
    let ghost full = rev@;
    let mut out: Vec<u8> = Vec::new();
    let mut i: usize = rev.len();
    while i > 0
        invariant
            i <= full.len(),
            rev@ == full,
            out@ == full.subrange(i as int, full.len() as int).reverse(),
        decreases i,
    {
        i -= 1;
        out.push(rev[i]);
        proof {
            assert(full.subrange(i as int, full.len() as int).reverse() =~= full.subrange(
                i + 1,
                full.len() as int,
            ).reverse().push(full[i as int]));
        }
    }
    proof {
        assert(full.subrange(0, full.len() as int) =~= full);
    }
    out
}

/// The control-plane reply to a successful stop: `"stop "` + the process id
/// in decimal.
pub fn stop_reply(pid: u64) -> (r: Vec<u8>)
    ensures
        r@ == stop_prefix() + dec_rep(pid as nat),
{
    let digits = dec_bytes(pid);
    stop_token(digits.as_slice())
}

/// Splits a control-plane reply into the process-id bytes after the
/// `"stop "` prefix; anything shorter, or not carrying the prefix, is refused.
pub fn parse_stop_reply(buf: &[u8]) -> (r: Option<Vec<u8>>)
    ensures
        match r {
            Some(pid) => buf@.len() >= 6 && buf@.take(5) == stop_prefix() && pid@ == buf@.skip(5),
            None => buf@.len() < 6 || buf@.take(5) != stop_prefix(),
        },
{
    if buf.len() < 6 {
        return None;
    }
    let head = vstd::slice::slice_subrange(buf, 0, 5);
    let mut prefix: Vec<u8> = Vec::new();
    prefix.push(115);
    prefix.push(116);
    prefix.push(111);
    prefix.push(112);
    prefix.push(32);
    assert(prefix@ =~= stop_prefix());
    if !bytes_eq(head, prefix.as_slice()) {
        return None;
    }
    let tail = vstd::slice::slice_subrange(buf, 5, buf.len());
    let mut pid: Vec<u8> = Vec::new();
    pid.extend_from_slice(tail);
    assert(pid@ =~= buf@.skip(5));
    Some(pid)
}

/// Round trip of the control-plane reply: what `stop_reply` writes for a
/// process id, `parse_stop_reply` hands back as exactly that id's digits.
pub proof fn lemma_stop_reply_round_trip(pid: nat)
    ensures
        dec_rep(pid).len() >= 1,
        (stop_prefix() + dec_rep(pid)).take(5) == stop_prefix(),
        (stop_prefix() + dec_rep(pid)).skip(5) == dec_rep(pid),
    decreases pid,
{
    if pid >= 10 {
        lemma_stop_reply_round_trip(pid / 10);
    }
    assert((stop_prefix() + dec_rep(pid)).take(5) =~= stop_prefix());
    assert((stop_prefix() + dec_rep(pid)).skip(5) =~= dec_rep(pid));
}

} // verus!

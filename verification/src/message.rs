//! The application messages and their descriptor-aware serialization.
//!
//! Encoding walks a message depth-first; every embedded channel endpoint is
//! replaced inline by a positional placeholder while its descriptor is pushed
//! onto a side list that travels out-of-band. Decoding walks the bytes and
//! rebinds each placeholder to the descriptor at the recorded position of the
//! side list the channel's receive supplied.
use vstd::prelude::*;
use vstd::utf8::encode_utf8;
use crate::codec::{
    DecodeError, u64_le_bytes, sdec_u64, sdec_str, sdec_handle, senc_str, senc_handle,
    push_u64_le, enc_str, enc_handle, dec_u64, dec_str, dec_handle, lemma_sdec_u64_of_enc,
    lemma_sdec_str_of_enc, lemma_sdec_handle_of_enc, lemma_subrange_of_subrange,
};
use crate::handle::{HandleV, HandleKind, Sender};

verus! {

/// A reply from the daemon's example key/value and summing workload.
#[derive(Debug)]
pub enum Response {
    String(String),
    List(Vec<String>),
    Done,
    NotFound,
}

/// The mathematical content of a Response.
pub enum ResponseV {
    String(Seq<char>),
    List(Seq<Seq<char>>),
    Done,
    NotFound,
}

impl View for Response {
    type V = ResponseV;

    open spec fn view(&self) -> ResponseV {
        match self {
            Response::String(s) => ResponseV::String(s@),
            Response::List(v) => ResponseV::List(v.deep_view()),
            Response::Done => ResponseV::Done,
            Response::NotFound => ResponseV::NotFound,
        }
    }
}

/// A request to the daemon. Every variant that expects an answer carries the
/// sending end of a reply channel; the daemon answers on that embedded
/// endpoint, so no request/response correlation table exists anywhere.
#[derive(Debug)]
pub enum Task {
    Get(String, Sender<Response>),
    Put(String, String, Sender<Response>),
    List(Sender<Response>),
    Sum(Vec<i64>, Sender<Response>),
    Shutdown,
}

/// The mathematical content of a Task; embedded endpoints appear as the
/// handles they wrap.
pub enum TaskV {
    Get(Seq<char>, HandleV),
    Put(Seq<char>, Seq<char>, HandleV),
    List(HandleV),
    Sum(Seq<i64>, HandleV),
    Shutdown,
}

impl View for Task {
    type V = TaskV;

    open spec fn view(&self) -> TaskV {
        match self {
            Task::Get(k, tx) => TaskV::Get(k@, tx@),
            Task::Put(k, v, tx) => TaskV::Put(k@, v@, tx@),
            Task::List(tx) => TaskV::List(tx@),
            Task::Sum(vs, tx) => TaskV::Sum(vs@, tx@),
            Task::Shutdown => TaskV::Shutdown,
        }
    }
}

/// A handle value that a real descriptor can stand for.
pub open spec fn handlev_wf(h: HandleV) -> bool {
    0 <= h.fd <= i32::MAX
}

/// A task value as the library ever builds one: its reply endpoint wraps a
/// real descriptor of the channel-endpoint kind, and its sizes fit the wire's
/// 64-bit length fields.
pub open spec fn task_wf(t: TaskV) -> bool {
    match t {
        TaskV::Get(k, h) => str_wf(k) && handlev_wf(h) && h.kind == HandleKind::ChannelEndpoint,
        TaskV::Put(k, v, h) => str_wf(k) && str_wf(v) && handlev_wf(h) && h.kind
            == HandleKind::ChannelEndpoint,
        TaskV::List(h) => handlev_wf(h) && h.kind == HandleKind::ChannelEndpoint,
        TaskV::Sum(vs, h) => vs.len() < 0x1_0000_0000_0000_0000 && handlev_wf(h) && h.kind
            == HandleKind::ChannelEndpoint,
        TaskV::Shutdown => true,
    }
}

/// A text value whose UTF-8 form fits a 64-bit length field.
pub open spec fn str_wf(s: Seq<char>) -> bool {
    encode_utf8(s).len() < 0x1_0000_0000_0000_0000
}

/// A response value whose sizes fit the wire's length fields.
pub open spec fn response_wf(r: ResponseV) -> bool {
    match r {
        ResponseV::String(s) => str_wf(s),
        ResponseV::List(ss) => ss.len() < 0x1_0000_0000_0000_0000 && (forall|i: int|
            0 <= i < ss.len() ==> str_wf(#[trigger] ss[i])),
        ResponseV::Done => true,
        ResponseV::NotFound => true,
    }
}

// ---------------------------------------------------------------------------
// Sequences of integers and of text values
// ---------------------------------------------------------------------------

/// The encoding of one signed 64-bit value: its two's-complement bits,
/// little-endian.
pub open spec fn senc_i64(v: i64) -> Seq<u8> {
    u64_le_bytes(v as u64)
}

/// The concatenated encodings of a run of signed values.
pub open spec fn senc_i64_seq(vs: Seq<i64>) -> Seq<u8>
    decreases vs.len(),
{
    if vs.len() == 0 {
        Seq::empty()
    } else {
        senc_i64(vs[0]) + senc_i64_seq(vs.drop_first())
    }
}

/// The encoding of a list of signed values: its count, then the run.
pub open spec fn senc_i64_list(vs: Seq<i64>) -> Seq<u8> {
    u64_le_bytes(vs.len() as u64) + senc_i64_seq(vs)
}

/// The concatenated encodings of a run of text values.
pub open spec fn senc_str_seq(ss: Seq<Seq<char>>) -> Seq<u8>
    decreases ss.len(),
{
    if ss.len() == 0 {
        Seq::empty()
    } else {
        senc_str(ss[0]) + senc_str_seq(ss.drop_first())
    }
}

/// The encoding of a list of text values: its count, then the run.
pub open spec fn senc_str_list(ss: Seq<Seq<char>>) -> Seq<u8> {
    u64_le_bytes(ss.len() as u64) + senc_str_seq(ss)
}

/// What reading a run of `n` signed values at `pos` yields.
pub open spec fn sdec_i64_seq(b: Seq<u8>, pos: int, n: nat) -> Option<(Seq<i64>, int)>
    decreases n,
{
    if n == 0 {
        Some((Seq::empty(), pos))
    } else {
        match sdec_u64(b, pos) {
            Some((u, p)) => match sdec_i64_seq(b, p, (n - 1) as nat) {
                Some((rest, q)) => Some((seq![u as i64] + rest, q)),
                None => None,
            },
            None => None,
        }
    }
}

/// What reading a count-prefixed list of signed values at `pos` yields.
pub open spec fn sdec_i64_list(b: Seq<u8>, pos: int) -> Option<(Seq<i64>, int)> {
    match sdec_u64(b, pos) {
        Some((n, p)) => sdec_i64_seq(b, p, n as nat),
        None => None,
    }
}

/// What reading a run of `n` text values at `pos` yields.
pub open spec fn sdec_str_seq(b: Seq<u8>, pos: int, n: nat) -> Option<(Seq<Seq<char>>, int)>
    decreases n,
{
    if n == 0 {
        Some((Seq::empty(), pos))
    } else {
        match sdec_str(b, pos) {
            Some((s, p)) => match sdec_str_seq(b, p, (n - 1) as nat) {
                Some((rest, q)) => Some((seq![s] + rest, q)),
                None => None,
            },
            None => None,
        }
    }
}

/// What reading a count-prefixed list of text values at `pos` yields.
pub open spec fn sdec_str_list(b: Seq<u8>, pos: int) -> Option<(Seq<Seq<char>>, int)> {
    match sdec_u64(b, pos) {
        Some((n, p)) => sdec_str_seq(b, p, n as nat),
        None => None,
    }
}

/// Appending one more value extends the run's encoding at its end.
pub proof fn lemma_senc_i64_seq_snoc(vs: Seq<i64>, x: i64)
    ensures
        senc_i64_seq(vs.push(x)) == senc_i64_seq(vs) + senc_i64(x),
    decreases vs.len(),
{
    if vs.len() == 0 {
        assert(vs.push(x)[0] == x);
        assert(vs.push(x).drop_first() =~= Seq::<i64>::empty());
        assert(senc_i64_seq(vs.push(x)) == senc_i64(x) + senc_i64_seq(Seq::<i64>::empty()));
        assert(senc_i64_seq(Seq::<i64>::empty()) == Seq::<u8>::empty());
        assert(senc_i64_seq(vs.push(x)) =~= senc_i64_seq(vs) + senc_i64(x));
    } else {
        assert(vs.push(x)[0] == vs[0]);
        assert(vs.push(x).drop_first() =~= vs.drop_first().push(x));
        lemma_senc_i64_seq_snoc(vs.drop_first(), x);
        assert(senc_i64_seq(vs.push(x)) =~= senc_i64_seq(vs) + senc_i64(x));
    }
}

/// Appending one more text value extends the run's encoding at its end.
pub proof fn lemma_senc_str_seq_snoc(ss: Seq<Seq<char>>, x: Seq<char>)
    ensures
        senc_str_seq(ss.push(x)) == senc_str_seq(ss) + senc_str(x),
    decreases ss.len(),
{
    if ss.len() == 0 {
        assert(ss.push(x)[0] == x);
        assert(ss.push(x).drop_first() =~= Seq::<Seq<char>>::empty());
        assert(senc_str_seq(ss.push(x)) == senc_str(x) + senc_str_seq(Seq::<Seq<char>>::empty()));
        assert(senc_str_seq(Seq::<Seq<char>>::empty()) == Seq::<u8>::empty());
        assert(senc_str_seq(ss.push(x)) =~= senc_str_seq(ss) + senc_str(x));
    } else {
        assert(ss.push(x)[0] == ss[0]);
        assert(ss.push(x).drop_first() =~= ss.drop_first().push(x));
        lemma_senc_str_seq_snoc(ss.drop_first(), x);
        assert(senc_str_seq(ss.push(x)) =~= senc_str_seq(ss) + senc_str(x));
    }
}

/// Appends the count-prefixed encoding of `vs` to `out`.
pub fn enc_i64_list(out: &mut Vec<u8>, vs: &Vec<i64>)
    ensures
        final(out)@ == old(out)@ + senc_i64_list(vs@),
{
    push_u64_le(out, vs.len() as u64);
    let n = vs.len();
    let mut i: usize = 0;
    while i < n
        invariant
            n == vs@.len(),
            i <= n,
            out@ == old(out)@ + u64_le_bytes(vs@.len() as u64) + senc_i64_seq(vs@.take(i as int)),
        decreases n - i,
    {
        let x = vs[i];
        push_u64_le(out, x as u64);
        proof {
            assert(vs@.take(i + 1 as int) =~= vs@.take(i as int).push(vs@[i as int]));
            lemma_senc_i64_seq_snoc(vs@.take(i as int), vs@[i as int]);
            assert((x as u64) == (vs@[i as int] as u64));
        }
        i = i + 1;
    }
    proof {
        assert(vs@.take(n as int) =~= vs@);
        assert(out@ =~= old(out)@ + senc_i64_list(vs@));
    }
}

/// Appends the count-prefixed encoding of `ss` to `out`.
pub fn enc_str_list(out: &mut Vec<u8>, ss: &Vec<String>)
    ensures
        final(out)@ == old(out)@ + senc_str_list(ss.deep_view()),
{
    push_u64_le(out, ss.len() as u64);
    let n = ss.len();
    let mut i: usize = 0;
    while i < n
        invariant
            n == ss@.len(),
            i <= n,
            out@ == old(out)@ + u64_le_bytes(ss.deep_view().len() as u64) + senc_str_seq(
                ss.deep_view().take(i as int),
            ),
        decreases n - i,
    {
        enc_str(out, ss[i].as_str());
        proof {
            assert(ss.deep_view().take(i + 1 as int) =~= ss.deep_view().take(i as int).push(
                ss.deep_view()[i as int],
            ));
            lemma_senc_str_seq_snoc(ss.deep_view().take(i as int), ss.deep_view()[i as int]);
            assert(ss@[i as int]@ == ss.deep_view()[i as int]);
        }
        i = i + 1;
    }
    proof {
        assert(ss.deep_view().take(n as int) =~= ss.deep_view());
        assert(out@ =~= old(out)@ + senc_str_list(ss.deep_view()));
    }
}

/// Prefixes a run already read by the values read before it.
pub open spec fn prepend_i64s(acc: Seq<i64>, r: Option<(Seq<i64>, int)>) -> Option<(Seq<i64>, int)> {
    match r {
        Some((vs, q)) => Some((acc + vs, q)),
        None => None,
    }
}

/// Prefixes a run of text values already read by those read before it.
pub open spec fn prepend_strs(acc: Seq<Seq<char>>, r: Option<(Seq<Seq<char>>, int)>) -> Option<
    (Seq<Seq<char>>, int),
> {
    match r {
        Some((ss, q)) => Some((acc + ss, q)),
        None => None,
    }
}

/// Reads a count-prefixed list of signed values at `pos`.
pub fn dec_i64_list(b: &Vec<u8>, pos: usize) -> (r: Option<(Vec<i64>, usize)>)
    ensures
        match r {
            Some(vp) => sdec_i64_list(b@, pos as int) == Some((vp.0@, vp.1 as int)),
            None => sdec_i64_list(b@, pos as int) is None,
        },
{
    match dec_u64(b, pos) {
        Some((n, p0)) => {
            let mut acc: Vec<i64> = Vec::new();
            let mut p = p0;
            let mut i: u64 = 0;
            while i < n
                invariant
                    i <= n,
                    sdec_u64(b@, pos as int) == Some((n, p0 as int)),
                    prepend_i64s(acc@, sdec_i64_seq(b@, p as int, (n - i) as nat)) == sdec_i64_seq(
                        b@,
                        p0 as int,
                        n as nat,
                    ),
                decreases n - i,
            {
                match dec_u64(b, p) {
                    Some((u, q)) => {
                        proof {
                            let rest = sdec_i64_seq(b@, q as int, (n - i - 1) as nat);
                            if rest is Some {
                                assert((acc@ + (seq![u as i64] + rest.unwrap().0)) =~= ((acc@.push(
                                    u as i64,
                                )) + rest.unwrap().0));
                            }
                        }
                        acc.push(u as i64);
                        p = q;
                        i = i + 1;
                    },
                    None => {
                        return None;
                    },
                }
            }
            proof {
                assert(acc@ + Seq::<i64>::empty() =~= acc@);
            }
            Some((acc, p))
        },
        None => None,
    }
}

/// Reads a count-prefixed list of text values at `pos`.
pub fn dec_str_list(b: &Vec<u8>, pos: usize) -> (r: Option<(Vec<String>, usize)>)
    ensures
        match r {
            Some(vp) => sdec_str_list(b@, pos as int) == Some((vp.0.deep_view(), vp.1 as int)),
            None => sdec_str_list(b@, pos as int) is None,
        },
{
    match dec_u64(b, pos) {
        Some((n, p0)) => {
            let mut acc: Vec<String> = Vec::new();
            let mut p = p0;
            let mut i: u64 = 0;
            while i < n
                invariant
                    i <= n,
                    sdec_u64(b@, pos as int) == Some((n, p0 as int)),
                    prepend_strs(acc.deep_view(), sdec_str_seq(b@, p as int, (n - i) as nat))
                        == sdec_str_seq(b@, p0 as int, n as nat),
                decreases n - i,
            {
                match dec_str(b, p) {
                    Some((s, q)) => {
                        proof {
                            let rest = sdec_str_seq(b@, q as int, (n - i - 1) as nat);
                            if rest is Some {
                                assert((acc.deep_view() + (seq![s@] + rest.unwrap().0)) =~= ((
                                acc.deep_view().push(s@)) + rest.unwrap().0));
                            }
                        }
                        let ghost prev = acc.deep_view();
                        acc.push(s);
                        proof {
                            assert(acc.deep_view() =~= prev.push(acc@[acc@.len() - 1]@));
                        }
                        p = q;
                        i = i + 1;
                    },
                    None => {
                        return None;
                    },
                }
            }
            proof {
                assert(acc.deep_view() + Seq::<Seq<char>>::empty() =~= acc.deep_view());
            }
            Some((acc, p))
        },
        None => None,
    }
}

/// Reading at a position where the encoding of the run `vs` stands yields
/// `vs` and advances past it.
pub proof fn lemma_sdec_i64_seq_of_enc(b: Seq<u8>, pos: int, vs: Seq<i64>)
    requires
        0 <= pos,
        pos + senc_i64_seq(vs).len() <= b.len(),
        b.subrange(pos, pos + senc_i64_seq(vs).len()) == senc_i64_seq(vs),
    ensures
        sdec_i64_seq(b, pos, vs.len()) == Some((vs, pos + senc_i64_seq(vs).len())),
    decreases vs.len(),
{
    let e = senc_i64_seq(vs);
    if vs.len() == 0 {
        assert(Seq::<i64>::empty() =~= vs);
    } else {
        let u = vs[0] as u64;
        lemma_subrange_of_subrange(b, pos, e, 0, 8);
        assert(e.subrange(0, 8) =~= u64_le_bytes(u));
        lemma_sdec_u64_of_enc(b, pos, u);
        let v0 = vs[0];
        assert((v0 as u64) as i64 == v0) by (bit_vector);
        lemma_subrange_of_subrange(b, pos, e, 8, e.len() as int);
        assert(e.subrange(8, e.len() as int) =~= senc_i64_seq(vs.drop_first()));
        lemma_sdec_i64_seq_of_enc(b, pos + 8, vs.drop_first());
        assert(seq![vs[0]] + vs.drop_first() =~= vs);
    }
}

/// Reading at a position where the encoding of the run `ss` stands yields
/// `ss` and advances past it.
pub proof fn lemma_sdec_str_seq_of_enc(b: Seq<u8>, pos: int, ss: Seq<Seq<char>>)
    requires
        0 <= pos,
        forall|i: int| 0 <= i < ss.len() ==> str_wf(#[trigger] ss[i]),
        pos + senc_str_seq(ss).len() <= b.len(),
        b.subrange(pos, pos + senc_str_seq(ss).len()) == senc_str_seq(ss),
    ensures
        sdec_str_seq(b, pos, ss.len()) == Some((ss, pos + senc_str_seq(ss).len())),
    decreases ss.len(),
{
    let e = senc_str_seq(ss);
    if ss.len() == 0 {
        assert(Seq::<Seq<char>>::empty() =~= ss);
    } else {
        let s0 = ss[0];
        let l0 = senc_str(s0).len() as int;
        lemma_subrange_of_subrange(b, pos, e, 0, l0);
        assert(e.subrange(0, l0) =~= senc_str(s0));
        lemma_sdec_str_of_enc(b, pos, s0);
        lemma_subrange_of_subrange(b, pos, e, l0, e.len() as int);
        assert(e.subrange(l0, e.len() as int) =~= senc_str_seq(ss.drop_first()));
        lemma_sdec_str_seq_of_enc(b, pos + l0, ss.drop_first());
        assert(seq![ss[0]] + ss.drop_first() =~= ss);
    }
}

/// Reading at a position where the encoding of the list `vs` stands yields
/// `vs` and advances past it.
pub proof fn lemma_sdec_i64_list_of_enc(b: Seq<u8>, pos: int, vs: Seq<i64>)
    requires
        0 <= pos,
        vs.len() < 0x1_0000_0000_0000_0000,
        pos + senc_i64_list(vs).len() <= b.len(),
        b.subrange(pos, pos + senc_i64_list(vs).len()) == senc_i64_list(vs),
    ensures
        sdec_i64_list(b, pos) == Some((vs, pos + senc_i64_list(vs).len())),
{
    let e = senc_i64_list(vs);
    lemma_subrange_of_subrange(b, pos, e, 0, 8);
    assert(e.subrange(0, 8) =~= u64_le_bytes(vs.len() as u64));
    lemma_sdec_u64_of_enc(b, pos, vs.len() as u64);
    lemma_subrange_of_subrange(b, pos, e, 8, e.len() as int);
    assert(e.subrange(8, e.len() as int) =~= senc_i64_seq(vs));
    lemma_sdec_i64_seq_of_enc(b, pos + 8, vs);
}

/// Reading at a position where the encoding of the list `ss` stands yields
/// `ss` and advances past it.
pub proof fn lemma_sdec_str_list_of_enc(b: Seq<u8>, pos: int, ss: Seq<Seq<char>>)
    requires
        0 <= pos,
        ss.len() < 0x1_0000_0000_0000_0000,
        forall|i: int| 0 <= i < ss.len() ==> str_wf(#[trigger] ss[i]),
        pos + senc_str_list(ss).len() <= b.len(),
        b.subrange(pos, pos + senc_str_list(ss).len()) == senc_str_list(ss),
    ensures
        sdec_str_list(b, pos) == Some((ss, pos + senc_str_list(ss).len())),
{
    let e = senc_str_list(ss);
    lemma_subrange_of_subrange(b, pos, e, 0, 8);
    assert(e.subrange(0, 8) =~= u64_le_bytes(ss.len() as u64));
    lemma_sdec_u64_of_enc(b, pos, ss.len() as u64);
    lemma_subrange_of_subrange(b, pos, e, 8, e.len() as int);
    assert(e.subrange(8, e.len() as int) =~= senc_str_seq(ss));
    lemma_sdec_str_seq_of_enc(b, pos + 8, ss);
}

// ---------------------------------------------------------------------------
// The message encodings
// ---------------------------------------------------------------------------

/// The payload encoding of a Response: a variant tag byte, then the fields
/// depth-first. A Response embeds no handles, so its side list is empty.
pub open spec fn spec_enc_response(r: ResponseV) -> Seq<u8> {
    match r {
        ResponseV::String(s) => seq![0u8] + senc_str(s),
        ResponseV::List(ss) => seq![1u8] + senc_str_list(ss),
        ResponseV::Done => seq![2u8],
        ResponseV::NotFound => seq![3u8],
    }
}

/// The payload encoding of a Task: a variant tag byte, then the fields
/// depth-first, with the embedded reply endpoint written as a handle
/// placeholder. Every Task carries at most one handle, so its placeholder
/// records position zero of the side list.
pub open spec fn spec_enc_task(t: TaskV) -> Seq<u8> {
    match t {
        TaskV::Get(k, _h) => seq![0u8] + senc_str(k) + senc_handle(HandleKind::ChannelEndpoint, 0),
        TaskV::Put(k, v, _h) => seq![1u8] + senc_str(k) + senc_str(v) + senc_handle(
            HandleKind::ChannelEndpoint,
            0,
        ),
        TaskV::List(_h) => seq![2u8] + senc_handle(HandleKind::ChannelEndpoint, 0),
        TaskV::Sum(vs, _h) => seq![3u8] + senc_i64_list(vs) + senc_handle(
            HandleKind::ChannelEndpoint,
            0,
        ),
        TaskV::Shutdown => seq![4u8],
    }
}

/// The side list of descriptors a Task's encoding sends out-of-band, in
/// depth-first order of the handles they came from.
pub open spec fn task_fds(t: TaskV) -> Seq<i32> {
    match t {
        TaskV::Get(_k, h) => seq![h.fd as i32],
        TaskV::Put(_k, _v, h) => seq![h.fd as i32],
        TaskV::List(h) => seq![h.fd as i32],
        TaskV::Sum(_vs, h) => seq![h.fd as i32],
        TaskV::Shutdown => Seq::empty(),
    }
}

/// What reading a reply endpoint at `pos` yields: the handle its placeholder
/// binds to. A placeholder of any other kind is the wrong concrete type for a
/// channel endpoint.
pub open spec fn sdec_sender(b: Seq<u8>, pos: int, fds: Seq<i32>) -> Result<
    (HandleV, int),
    DecodeError,
> {
    match sdec_handle(b, pos, fds) {
        Some(((k, fd), p)) => if k == HandleKind::ChannelEndpoint {
            Ok((HandleV { kind: k, fd: fd as int }, p))
        } else {
            Err(DecodeError::TypeMismatch)
        },
        None => Err(DecodeError::Malformed),
    }
}

/// What reading a Response at `pos` yields.
pub open spec fn sdec_response(b: Seq<u8>, pos: int) -> Result<(ResponseV, int), DecodeError> {
    if 0 <= pos < b.len() {
        let d = b[pos];
        if d == 0 {
            match sdec_str(b, pos + 1) {
                Some((s, p)) => Ok((ResponseV::String(s), p)),
                None => Err(DecodeError::Malformed),
            }
        } else if d == 1 {
            match sdec_str_list(b, pos + 1) {
                Some((ss, p)) => Ok((ResponseV::List(ss), p)),
                None => Err(DecodeError::Malformed),
            }
        } else if d == 2 {
            Ok((ResponseV::Done, pos + 1))
        } else if d == 3 {
            Ok((ResponseV::NotFound, pos + 1))
        } else {
            Err(DecodeError::Malformed)
        }
    } else {
        Err(DecodeError::Malformed)
    }
}

/// What reading a Task at `pos` yields, given the side list of received
/// descriptors.
pub open spec fn sdec_task(b: Seq<u8>, pos: int, fds: Seq<i32>) -> Result<
    (TaskV, int),
    DecodeError,
> {
    if 0 <= pos < b.len() {
        let d = b[pos];
        if d == 0 {
            match sdec_str(b, pos + 1) {
                Some((k, p)) => match sdec_sender(b, p, fds) {
                    Ok((h, q)) => Ok((TaskV::Get(k, h), q)),
                    Err(e) => Err(e),
                },
                None => Err(DecodeError::Malformed),
            }
        } else if d == 1 {
            match sdec_str(b, pos + 1) {
                Some((k, p)) => match sdec_str(b, p) {
                    Some((v, p2)) => match sdec_sender(b, p2, fds) {
                        Ok((h, q)) => Ok((TaskV::Put(k, v, h), q)),
                        Err(e) => Err(e),
                    },
                    None => Err(DecodeError::Malformed),
                },
                None => Err(DecodeError::Malformed),
            }
        } else if d == 2 {
            match sdec_sender(b, pos + 1, fds) {
                Ok((h, q)) => Ok((TaskV::List(h), q)),
                Err(e) => Err(e),
            }
        } else if d == 3 {
            match sdec_i64_list(b, pos + 1) {
                Some((vs, p)) => match sdec_sender(b, p, fds) {
                    Ok((h, q)) => Ok((TaskV::Sum(vs, h), q)),
                    Err(e) => Err(e),
                },
                None => Err(DecodeError::Malformed),
            }
        } else if d == 4 {
            Ok((TaskV::Shutdown, pos + 1))
        } else {
            Err(DecodeError::Malformed)
        }
    } else {
        Err(DecodeError::Malformed)
    }
}

/// Encodes a Response into payload bytes.
pub fn encode_response(r: &Response) -> (out: Vec<u8>)
    ensures
        out@ == spec_enc_response(r@),
{
    let mut out: Vec<u8> = Vec::new();
    match r {
        Response::String(s) => {
            out.push(0u8);
            enc_str(&mut out, s.as_str());
        },
        Response::List(ss) => {
            out.push(1u8);
            enc_str_list(&mut out, ss);
        },
        Response::Done => {
            out.push(2u8);
        },
        Response::NotFound => {
            out.push(3u8);
        },
    }
    proof {
        assert(out@ =~= spec_enc_response(r@));
    }
    out
}

/// Encodes a Task into payload bytes plus the side list of descriptors its
/// embedded reply endpoint contributes, in depth-first order.
pub fn encode_task(t: &Task) -> (r: (Vec<u8>, Vec<i32>))
    ensures
        r.0@ == spec_enc_task(t@),
        r.1@ == task_fds(t@),
{
    let mut out: Vec<u8> = Vec::new();
    let mut fds: Vec<i32> = Vec::new();
    match t {
        Task::Get(k, tx) => {
            out.push(0u8);
            enc_str(&mut out, k.as_str());
            enc_handle(&mut out, &mut fds, HandleKind::ChannelEndpoint, tx.raw_fd());
        },
        Task::Put(k, v, tx) => {
            out.push(1u8);
            enc_str(&mut out, k.as_str());
            enc_str(&mut out, v.as_str());
            enc_handle(&mut out, &mut fds, HandleKind::ChannelEndpoint, tx.raw_fd());
        },
        Task::List(tx) => {
            out.push(2u8);
            enc_handle(&mut out, &mut fds, HandleKind::ChannelEndpoint, tx.raw_fd());
        },
        Task::Sum(vs, tx) => {
            out.push(3u8);
            enc_i64_list(&mut out, vs);
            enc_handle(&mut out, &mut fds, HandleKind::ChannelEndpoint, tx.raw_fd());
        },
        Task::Shutdown => {
            out.push(4u8);
        },
    }
    proof {
        assert(out@ =~= spec_enc_task(t@));
        assert(fds@ =~= task_fds(t@));
    }
    (out, fds)
}

impl Response {
    /// The reply's payload bytes.
    pub fn as_bytes(&self) -> (out: Vec<u8>)
        ensures
            out@ == spec_enc_response(self@),
    {
        encode_response(self)
    }

    /// Decodes a whole payload as one Response; trailing bytes are malformed.
    pub fn from_bytes(b: &Vec<u8>) -> (r: Result<Response, DecodeError>)
        ensures
            match r {
                Ok(resp) => sdec_response(b@, 0) == Ok::<_, DecodeError>((resp@, b@.len() as int)),
                Err(e) => match sdec_response(b@, 0) {
                    Ok(tp) => tp.1 != b@.len() && e == DecodeError::Malformed,
                    Err(e2) => e == e2,
                },
            },
    {
        decode_response(b)
    }
}

impl Task {
    /// The request's payload bytes; the reply endpoint appears as its
    /// placeholder, and `encode_task` also hands out the side list.
    pub fn as_bytes(&self) -> (out: Vec<u8>)
        ensures
            out@ == spec_enc_task(self@),
    {
        encode_task(self).0
    }

    /// Decodes a whole payload as one Task, rebinding its reply-endpoint
    /// placeholder to the received descriptors; trailing bytes are malformed.
    pub fn from_bytes(b: &Vec<u8>, fds: &Vec<i32>) -> (r: Result<Task, DecodeError>)
        ensures
            match r {
                Ok(t) => sdec_task(b@, 0, fds@) == Ok::<_, DecodeError>((t@, b@.len() as int)),
                Err(e) => match sdec_task(b@, 0, fds@) {
                    Ok(tp) => tp.1 != b@.len() && e == DecodeError::Malformed,
                    Err(e2) => e == e2,
                },
            },
    {
        decode_task(b, fds)
    }
}

/// Reads a reply endpoint at `pos`, rebinding its placeholder to the
/// descriptor at the recorded position of `fds`.
fn dec_sender(b: &Vec<u8>, pos: usize, fds: &Vec<i32>) -> (r: Result<
    (Sender<Response>, usize),
    DecodeError,
>)
    ensures
        match r {
            Ok(sp) => sdec_sender(b@, pos as int, fds@) == Ok::<_, DecodeError>(
                (sp.0@, sp.1 as int),
            ),
            Err(e) => sdec_sender(b@, pos as int, fds@) == Err::<(HandleV, int), _>(e),
        },
{
    match dec_handle(b, pos, fds) {
        Some(((k, fd), p)) => match k {
            HandleKind::ChannelEndpoint => Ok((Sender::from_raw(fd), p)),
            _ => Err(DecodeError::TypeMismatch),
        },
        None => Err(DecodeError::Malformed),
    }
}

/// Decodes a whole payload as one Response; trailing bytes are malformed.
pub fn decode_response(b: &Vec<u8>) -> (r: Result<Response, DecodeError>)
    ensures
        match r {
            Ok(resp) => sdec_response(b@, 0) == Ok::<_, DecodeError>((resp@, b@.len() as int)),
            Err(e) => match sdec_response(b@, 0) {
                Ok(tp) => tp.1 != b@.len() && e == DecodeError::Malformed,
                Err(e2) => e == e2,
            },
        },
{
    if b.len() == 0 {
        return Err(DecodeError::Malformed);
    }
    let d = b[0];
    if d == 0 {
        match dec_str(b, 1) {
            Some((s, p)) => {
                if p == b.len() {
                    Ok(Response::String(s))
                } else {
                    Err(DecodeError::Malformed)
                }
            },
            None => Err(DecodeError::Malformed),
        }
    } else if d == 1 {
        match dec_str_list(b, 1) {
            Some((ss, p)) => {
                if p == b.len() {
                    Ok(Response::List(ss))
                } else {
                    Err(DecodeError::Malformed)
                }
            },
            None => Err(DecodeError::Malformed),
        }
    } else if d == 2 {
        if b.len() == 1 {
            Ok(Response::Done)
        } else {
            Err(DecodeError::Malformed)
        }
    } else if d == 3 {
        if b.len() == 1 {
            Ok(Response::NotFound)
        } else {
            Err(DecodeError::Malformed)
        }
    } else {
        Err(DecodeError::Malformed)
    }
}

/// Decodes a whole payload as one Task, rebinding its reply-endpoint
/// placeholder to the received descriptors; trailing bytes are malformed.
pub fn decode_task(b: &Vec<u8>, fds: &Vec<i32>) -> (r: Result<Task, DecodeError>)
    ensures
        match r {
            Ok(t) => sdec_task(b@, 0, fds@) == Ok::<_, DecodeError>((t@, b@.len() as int)),
            Err(e) => match sdec_task(b@, 0, fds@) {
                Ok(tp) => tp.1 != b@.len() && e == DecodeError::Malformed,
                Err(e2) => e == e2,
            },
        },
{
    if b.len() == 0 {
        return Err(DecodeError::Malformed);
    }
    let d = b[0];
    if d == 0 {
        match dec_str(b, 1) {
            Some((k, p)) => match dec_sender(b, p, fds) {
                Ok((tx, q)) => {
                    if q == b.len() {
                        Ok(Task::Get(k, tx))
                    } else {
                        Err(DecodeError::Malformed)
                    }
                },
                Err(e) => Err(e),
            },
            None => Err(DecodeError::Malformed),
        }
    } else if d == 1 {
        match dec_str(b, 1) {
            Some((k, p)) => match dec_str(b, p) {
                Some((v, p2)) => match dec_sender(b, p2, fds) {
                    Ok((tx, q)) => {
                        if q == b.len() {
                            Ok(Task::Put(k, v, tx))
                        } else {
                            Err(DecodeError::Malformed)
                        }
                    },
                    Err(e) => Err(e),
                },
                None => Err(DecodeError::Malformed),
            },
            None => Err(DecodeError::Malformed),
        }
    } else if d == 2 {
        match dec_sender(b, 1, fds) {
            Ok((tx, q)) => {
                if q == b.len() {
                    Ok(Task::List(tx))
                } else {
                    Err(DecodeError::Malformed)
                }
            },
            Err(e) => Err(e),
        }
    } else if d == 3 {
        match dec_i64_list(b, 1) {
            Some((vs, p)) => match dec_sender(b, p, fds) {
                Ok((tx, q)) => {
                    if q == b.len() {
                        Ok(Task::Sum(vs, tx))
                    } else {
                        Err(DecodeError::Malformed)
                    }
                },
                Err(e) => Err(e),
            },
            None => Err(DecodeError::Malformed),
        }
    } else if d == 4 {
        if b.len() == 1 {
            Ok(Task::Shutdown)
        } else {
            Err(DecodeError::Malformed)
        }
    } else {
        Err(DecodeError::Malformed)
    }
}

// ---------------------------------------------------------------------------
// Round trips
// ---------------------------------------------------------------------------

/// Round trip: decoding the encoding of any response value yields that value
/// again, consuming exactly the encoded bytes. A response embeds no handles,
/// so its side list is empty and nothing else is needed.
pub proof fn lemma_response_round_trip(r: ResponseV)
    requires
        response_wf(r),
    ensures
        sdec_response(spec_enc_response(r), 0) == Ok::<_, DecodeError>(
            (r, spec_enc_response(r).len() as int),
        ),
{
    let b = spec_enc_response(r);
    match r {
        ResponseV::String(s) => {
            assert(b[0] == 0);
            assert(b.subrange(1, 1 + senc_str(s).len() as int) =~= senc_str(s));
            lemma_sdec_str_of_enc(b, 1, s);
        },
        ResponseV::List(ss) => {
            assert(b[0] == 1);
            assert(b.subrange(1, 1 + senc_str_list(ss).len() as int) =~= senc_str_list(ss));
            lemma_sdec_str_list_of_enc(b, 1, ss);
        },
        ResponseV::Done => {
            assert(b[0] == 2);
        },
        ResponseV::NotFound => {
            assert(b[0] == 3);
        },
    }
}

/// Round trip: decoding the encoding of any well-formed task value, against
/// exactly the side list that came out of its encoding, yields that value —
/// its reply endpoint rebound to the descriptor at the placeholder's
/// position — and consumes exactly the encoded bytes.
#[verifier::rlimit(100)]
pub proof fn lemma_task_round_trip(t: TaskV)
    requires
        task_wf(t),
    ensures
        sdec_task(spec_enc_task(t), 0, task_fds(t)) == Ok::<_, DecodeError>(
            (t, spec_enc_task(t).len() as int),
        ),
{
    let b = spec_enc_task(t);
    let fds = task_fds(t);
    match t {
        TaskV::Get(k, h) => {
            assert(b[0] == 0);
            let l1 = senc_str(k).len() as int;
            assert(b.subrange(1, 1 + l1) =~= senc_str(k));
            lemma_sdec_str_of_enc(b, 1, k);
            assert(b.subrange(1 + l1, 1 + l1 + 5) =~= senc_handle(HandleKind::ChannelEndpoint, 0));
            lemma_task_sender_round_trip(b, 1 + l1, h, fds);
        },
        TaskV::Put(k, v, h) => {
            assert(b[0] == 1);
            let l1 = senc_str(k).len() as int;
            let l2 = senc_str(v).len() as int;
            assert(b.subrange(1, 1 + l1) =~= senc_str(k));
            lemma_sdec_str_of_enc(b, 1, k);
            assert(b.subrange(1 + l1, 1 + l1 + l2) =~= senc_str(v));
            lemma_sdec_str_of_enc(b, 1 + l1, v);
            assert(b.subrange(1 + l1 + l2, 1 + l1 + l2 + 5) =~= senc_handle(
                HandleKind::ChannelEndpoint,
                0,
            ));
            lemma_task_sender_round_trip(b, 1 + l1 + l2, h, fds);
        },
        TaskV::List(h) => {
            assert(b[0] == 2);
            assert(b.subrange(1, 6) =~= senc_handle(HandleKind::ChannelEndpoint, 0));
            lemma_task_sender_round_trip(b, 1, h, fds);
        },
        TaskV::Sum(vs, h) => {
            assert(b[0] == 3);
            let l1 = senc_i64_list(vs).len() as int;
            assert(b.subrange(1, 1 + l1) =~= senc_i64_list(vs));
            lemma_sdec_i64_list_of_enc(b, 1, vs);
            assert(b.subrange(1 + l1, 1 + l1 + 5) =~= senc_handle(HandleKind::ChannelEndpoint, 0));
            lemma_task_sender_round_trip(b, 1 + l1, h, fds);
        },
        TaskV::Shutdown => {
            assert(b[0] == 4);
        },
    }
}

/// A task's reply endpoint, encoded as placeholder zero with its descriptor
/// alone on the side list, decodes to the same handle.
proof fn lemma_task_sender_round_trip(b: Seq<u8>, pos: int, h: HandleV, fds: Seq<i32>)
    requires
        0 <= pos,
        pos + 5 <= b.len(),
        handlev_wf(h),
        h.kind == HandleKind::ChannelEndpoint,
        fds == seq![h.fd as i32],
        b.subrange(pos, pos + 5) == senc_handle(HandleKind::ChannelEndpoint, 0),
    ensures
        sdec_sender(b, pos, fds) == Ok::<_, DecodeError>((h, pos + 5)),
{
    assert(fds[0] == h.fd as i32);
    assert(h.fd as i32 >= 0);
    lemma_sdec_handle_of_enc(b, pos, HandleKind::ChannelEndpoint, 0, fds);
    assert((h.fd as i32) as int == h.fd);
}

} // verus!


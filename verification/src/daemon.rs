//! The daemon's dispatch step: one request in, at most one reply out, on the
//! reply endpoint the request itself carried. Shutdown is the only request
//! that ends the daemon; a non-Shutdown request always yields exactly one
//! reply, even on a not-found outcome. The surrounding loop performs the
//! blocking socket work and feeds each decoded Task through this step.
use vstd::prelude::*;
use crate::handle::Sender;
use crate::message::{Response, ResponseV, Task, TaskV};
use crate::store::{Store, skeys, slookup};

verus! {

/// The decimal digit characters of a number, most significant first.
pub open spec fn dec_chars(v: nat) -> Seq<char>
    decreases v,
{
    if v < 10 {
        seq![digit_char(v)]
    } else {
        dec_chars(v / 10).push(digit_char(v % 10))
    }
}

/// The character of one decimal digit.
pub open spec fn digit_char(d: nat) -> char {
    if d == 0 {
        '0'
    } else if d == 1 {
        '1'
    } else if d == 2 {
        '2'
    } else if d == 3 {
        '3'
    } else if d == 4 {
        '4'
    } else if d == 5 {
        '5'
    } else if d == 6 {
        '6'
    } else if d == 7 {
        '7'
    } else if d == 8 {
        '8'
    } else {
        '9'
    }
}

/// The decimal form of a signed number: a leading minus sign when negative.
pub open spec fn i64_dec_chars(v: int) -> Seq<char> {
    if v < 0 {
        seq!['-'] + dec_chars((-v) as nat)
    } else {
        dec_chars(v as nat)
    }
}

/// Relies on alloc::string::String::push: appends exactly one character.
#[verifier::external_body]
fn string_push(s: &mut String, c: char)
    ensures
        final(s)@ == old(s)@ + seq![c],
{
    s.push(c);
}

/// The character of one decimal digit.
fn digit_char_of(d: u8) -> (c: char)
    requires
        d < 10,
    ensures
        c == digit_char(d as nat),
{
    if d == 0 {
        '0'
    } else if d == 1 {
        '1'
    } else if d == 2 {
        '2'
    } else if d == 3 {
        '3'
    } else if d == 4 {
        '4'
    } else if d == 5 {
        '5'
    } else if d == 6 {
        '6'
    } else if d == 7 {
        '7'
    } else if d == 8 {
        '8'
    } else {
        '9'
    }
}

/// Appends the decimal digits of `v` to `s`.
fn push_dec_u64(s: &mut String, v: u64)
    ensures
        final(s)@ == old(s)@ + dec_chars(v as nat),
    decreases v,
{
    if v < 10 {
        string_push(s, digit_char_of(v as u8));
    } else {
        push_dec_u64(s, v / 10);
        string_push(s, digit_char_of((v % 10) as u8));
        proof {
            assert(s@ =~= old(s)@ + dec_chars(v as nat));
        }
    }
}

/// The decimal form of a signed number.
pub fn i64_to_string(v: i64) -> (s: String)
    ensures
        s@ == i64_dec_chars(v as int),
{
    let mut s = String::new();
    if v < 0 {
        string_push(&mut s, '-');
        let m = -(v as i128);
        push_dec_u64(&mut s, m as u64);
        proof {
            assert(s@ =~= i64_dec_chars(v as int));
        }
    } else {
        push_dec_u64(&mut s, v as u64);
    }
    s
}

/// The sum of a run of signed values, wrapping on overflow as two's
/// complement addition does.
pub open spec fn sum_wrap(vs: Seq<i64>) -> i64
    decreases vs.len(),
{
    if vs.len() == 0 {
        0
    } else {
        sum_wrap(vs.drop_last()).wrapping_add(vs.last())
    }
}

/// Sums a list of signed values with wrapping addition.
pub fn sum_values(vs: &Vec<i64>) -> (s: i64)
    ensures
        s == sum_wrap(vs@),
{
    let n = vs.len();
    let mut s: i64 = 0;
    let mut i: usize = 0;
    while i < n
        invariant
            n == vs@.len(),
            i <= n,
            s == sum_wrap(vs@.take(i as int)),
        decreases n - i,
    {
        s = s.wrapping_add(vs[i]);
        proof {
            assert(vs@.take(i + 1 as int).drop_last() =~= vs@.take(i as int));
            assert(vs@.take(i + 1 as int).last() == vs@[i as int]);
        }
        i = i + 1;
    }
    proof {
        assert(vs@.take(n as int) =~= vs@);
    }
    s
}

/// What one dispatch step asks the daemon loop to do next: answer on the
/// request's own reply endpoint and keep serving, or stop the whole process.
pub enum DispatchOutcome {
    Reply(Sender<Response>, Response),
    Shutdown,
}

/// Serves one request against the store. Exactly the Shutdown request ends
/// the daemon; every other request leaves exactly one reply on the endpoint
/// it carried, even when the key was not found.
pub fn dispatch(task: Task, store: &mut Store) -> (r: DispatchOutcome)
    requires
        old(store).wf(),
    ensures
        final(store).wf(),
        (task@ is Shutdown) <==> (r is Shutdown),
        match task@ {
            TaskV::Get(k, h) => final(store)@ == old(store)@ && (r matches DispatchOutcome::Reply(
                tx,
                resp,
            ) && tx@ == h && (match slookup(old(store)@, k) {
                Some(v) => resp@ == ResponseV::String(v),
                None => resp@ == ResponseV::NotFound,
            })),
            TaskV::Put(k, v, h) => (r matches DispatchOutcome::Reply(tx, resp) && tx@ == h && resp@
                == ResponseV::Done) && slookup(final(store)@, k) == Some(v) && (forall|
                k2: Seq<char>,
            |
                k2 != k ==> slookup(final(store)@, k2) == slookup(old(store)@, k2)),
            TaskV::List(h) => final(store)@ == old(store)@ && (r matches DispatchOutcome::Reply(
                tx,
                resp,
            ) && tx@ == h && resp@ == ResponseV::List(skeys(old(store)@))),
            TaskV::Sum(vs, h) => final(store)@ == old(store)@ && (r
                matches DispatchOutcome::Reply(tx, resp) && tx@ == h && resp@ == ResponseV::String(
                i64_dec_chars(sum_wrap(vs) as int),
            )),
            TaskV::Shutdown => final(store)@ == old(store)@ && r is Shutdown,
        },
{
    match task {
        Task::Get(k, tx) => {
            let resp = match store.get(&k) {
                Some(v) => Response::String(v),
                None => Response::NotFound,
            };
            DispatchOutcome::Reply(tx, resp)
        },
        Task::Put(k, v, tx) => {
            store.insert(k, v);
            DispatchOutcome::Reply(tx, Response::Done)
        },
        Task::List(tx) => {
            let keys = store.keys();
            DispatchOutcome::Reply(tx, Response::List(keys))
        },
        Task::Sum(vs, tx) => {
            let s = sum_values(&vs);
            DispatchOutcome::Reply(tx, Response::String(i64_to_string(s)))
        },
        Task::Shutdown => DispatchOutcome::Shutdown,
    }
}

} // verus!

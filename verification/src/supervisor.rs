//! The single-instance supervisor's decisions: the advisory liveness check
//! over the PID file, the rendezvous and PID-file paths, the lockfile path,
//! and the choice between running the daemon, spawning one, or doing nothing.
//! The check is advisory and racy by design; the authoritative mutual
//! exclusion is the daemon's bind on the socket path, which the operating
//! system enforces.
use vstd::prelude::*;
use vstd::string::StringExecFns;
use crate::PROGRAM_NAME;

verus! {

// ---------------------------------------------------------------------------
// PID file contents: newline-separated decimal process identifiers
// ---------------------------------------------------------------------------

/// An ASCII decimal digit.
pub open spec fn is_digit(b: u8) -> bool {
    48 <= b <= 57
}

/// Every byte is a decimal digit.
pub open spec fn all_digits(s: Seq<u8>) -> bool {
    forall|i: int| 0 <= i < s.len() ==> is_digit(#[trigger] s[i])
}

/// The number a digit string denotes.
pub open spec fn digits_val(s: Seq<u8>) -> int
    decreases s.len(),
{
    if s.len() == 0 {
        0
    } else {
        digits_val(s.drop_last()) * 10 + (s.last() - 48)
    }
}

/// What one line parses to: a PID exactly when the line is a nonempty digit
/// string denoting a value that fits; anything else is ignored.
pub open spec fn parse_u32_bytes(s: Seq<u8>) -> Option<u32> {
    if s.len() > 0 && all_digits(s) && 0 <= digits_val(s) <= u32::MAX {
        Some(digits_val(s) as u32)
    } else {
        None
    }
}

/// The index of the first newline at or after `pos`, or the length when no
/// newline follows.
pub open spec fn line_end(s: Seq<u8>, pos: int) -> int
    decreases s.len() - pos,
{
    if pos < 0 || pos >= s.len() {
        s.len() as int
    } else if s[pos] == 10 {
        pos
    } else {
        line_end(s, pos + 1)
    }
}

/// Where a line ends: at or after its start, at the buffer's end or on a
/// newline, with no newline in between.
pub proof fn lemma_line_end(s: Seq<u8>, pos: int)
    requires
        0 <= pos <= s.len(),
    ensures
        pos <= line_end(s, pos) <= s.len(),
        line_end(s, pos) < s.len() ==> s[line_end(s, pos)] == 10,
        forall|j: int| pos <= j < line_end(s, pos) ==> s[j] != 10,
    decreases s.len() - pos,
{
    if pos < s.len() && s[pos] != 10 {
        lemma_line_end(s, pos + 1);
    }
}

/// A stretch with no newline that stops at the end or on a newline is exactly
/// one line.
pub proof fn lemma_line_end_eq(s: Seq<u8>, pos: int, j: int)
    requires
        0 <= pos <= j <= s.len(),
        forall|k: int| pos <= k < j ==> s[k] != 10,
        j == s.len() || s[j] == 10,
    ensures
        line_end(s, pos) == j,
    decreases j - pos,
{
    if pos < j {
        lemma_line_end_eq(s, pos + 1, j);
    }
}

/// The PIDs recorded from `pos` on: each line parsed as a decimal number,
/// lines that are not one ignored.
pub open spec fn parse_pids_from(s: Seq<u8>, pos: int) -> Seq<u32>
    decreases s.len() - pos,
    via parse_pids_from_decreases
{
    if pos < 0 || pos >= s.len() {
        Seq::empty()
    } else {
        let e = line_end(s, pos);
        let rest = if e < s.len() {
            parse_pids_from(s, e + 1)
        } else {
            Seq::empty()
        };
        match parse_u32_bytes(s.subrange(pos, e)) {
            Some(v) => seq![v] + rest,
            None => rest,
        }
    }
}

#[via_fn]
proof fn parse_pids_from_decreases(s: Seq<u8>, pos: int) {
    if 0 <= pos < s.len() {
        lemma_line_end(s, pos);
    }
}

/// The PIDs a file's bytes record.
pub open spec fn parse_pids(s: Seq<u8>) -> Seq<u32> {
    parse_pids_from(s, 0)
}

/// The decimal digit bytes of a number, most significant first.
pub open spec fn u32_digits(v: nat) -> Seq<u8>
    decreases v,
{
    if v < 10 {
        seq![(48 + v) as u8]
    } else {
        u32_digits(v / 10).push((48 + v % 10) as u8)
    }
}

/// A PID file's bytes: the numbers in decimal, separated by single newlines,
/// no trailing newline.
pub open spec fn render_pids(ps: Seq<u32>) -> Seq<u8>
    decreases ps.len(),
{
    if ps.len() == 0 {
        Seq::empty()
    } else if ps.len() == 1 {
        u32_digits(ps[0] as nat)
    } else {
        u32_digits(ps[0] as nat) + seq![10u8] + render_pids(ps.drop_first())
    }
}

/// Reads the digits of `b` between `lo` and `hi` as one recorded PID.
pub fn parse_u32_range(b: &Vec<u8>, lo: usize, hi: usize) -> (r: Option<u32>)
    requires
        lo <= hi <= b@.len(),
    ensures
        r == parse_u32_bytes(b@.subrange(lo as int, hi as int)),
{
    let ghost sub = b@.subrange(lo as int, hi as int);
    if lo == hi {
        return None;
    }
    let mut acc: u64 = 0;
    let mut over: bool = false;
    let mut j: usize = lo;
    while j < hi
        invariant
            lo <= j <= hi <= b@.len(),
            sub == b@.subrange(lo as int, hi as int),
            all_digits(sub.subrange(0, j - lo)),
            !over ==> acc == digits_val(sub.subrange(0, j - lo)) && acc <= u32::MAX,
            over ==> digits_val(sub.subrange(0, j - lo)) > u32::MAX,
        decreases hi - j,
    {
        let byte = b[j];
        if byte < 48 || byte > 57 {
            assert(!is_digit(sub[j - lo]));
            return None;
        }
        let d = (byte - 48) as u64;
        proof {
            assert(sub.subrange(0, j + 1 - lo as int).drop_last() =~= sub.subrange(0, j - lo as int));
            assert(sub.subrange(0, j + 1 - lo as int).last() == sub[j - lo]);
            assert(sub[j - lo] == b@[j as int]);
        }
        if over {
            proof {
                let prev = digits_val(sub.subrange(0, j - lo as int));
                assert(prev * 10 >= prev) by (nonlinear_arith)
                    requires
                        prev >= 0 || prev > u32::MAX,
                ;
            }
        } else {
            let next = acc * 10 + d;
            if next > u32::MAX as u64 {
                over = true;
            } else {
                acc = next;
            }
        }
        j = j + 1;
    }
    proof {
        assert(sub.subrange(0, hi - lo as int) =~= sub);
    }
    if over {
        None
    } else {
        Some(acc as u32)
    }
}

/// Reads every PID a file's bytes record, in file order.
pub fn parse_pid_file(b: &Vec<u8>) -> (r: Vec<u32>)
    ensures
        r@ == parse_pids(b@),
{
    let n = b.len();
    let mut r: Vec<u32> = Vec::new();
    let mut pos: usize = 0;
    while pos < n
        invariant
            n == b@.len(),
            pos <= n + 1,
            r@ + parse_pids_from(b@, pos as int) == parse_pids(b@),
        decreases n - pos,
    {
        let mut j: usize = pos;
        while j < n && b[j] != 10
            invariant
                pos <= j <= n,
                n == b@.len(),
                forall|k: int| pos <= k < j ==> b@[k] != 10,
            decreases n - j,
        {
            j = j + 1;
        }
        proof {
            lemma_line_end_eq(b@, pos as int, j as int);
        }
        let parsed = parse_u32_range(b, pos, j);
        proof {
            let ghost rest = if (j as int) < b@.len() {
                parse_pids_from(b@, j + 1 as int)
            } else {
                Seq::<u32>::empty()
            };
            if parsed is Some {
                assert((r@ + (seq![parsed->0] + rest)) =~= ((r@.push(parsed->0)) + rest));
            }
        }
        match parsed {
            Some(v) => {
                r.push(v);
            },
            None => {
            },
        }
        if j < n {
            pos = j + 1;
        } else {
            pos = n;
            proof {
                assert(r@ + parse_pids_from(b@, pos as int) =~= r@);
            }
        }
    }
    proof {
        assert(parse_pids_from(b@, pos as int) =~= Seq::<u32>::empty());
        assert(r@ + Seq::<u32>::empty() =~= r@);
    }
    r
}

/// Appends the decimal digit bytes of `v` to `out`.
pub fn push_u32_digits(out: &mut Vec<u8>, v: u32)
    ensures
        final(out)@ == old(out)@ + u32_digits(v as nat),
    decreases v,
{
    if v < 10 {
        out.push((48 + v) as u8);
        proof {
            assert(out@ =~= old(out)@ + u32_digits(v as nat));
        }
    } else {
        push_u32_digits(out, v / 10);
        out.push((48 + v % 10) as u8);
        proof {
            assert(out@ =~= old(out)@ + u32_digits(v as nat));
        }
    }
}

/// Appending one more PID extends the rendering with a separator and its
/// digits.
pub proof fn lemma_render_snoc(ps: Seq<u32>, x: u32)
    requires
        ps.len() >= 1,
    ensures
        render_pids(ps.push(x)) == render_pids(ps) + seq![10u8] + u32_digits(x as nat),
    decreases ps.len(),
{
    if ps.len() == 1 {
        assert(ps.push(x)[0] == ps[0]);
        assert(ps.push(x).drop_first() =~= seq![x]);
        assert(render_pids(seq![x]) == u32_digits(x as nat));
        assert(render_pids(ps.push(x)) =~= render_pids(ps) + seq![10u8] + u32_digits(x as nat));
    } else {
        assert(ps.push(x)[0] == ps[0]);
        assert(ps.push(x).drop_first() =~= ps.drop_first().push(x));
        lemma_render_snoc(ps.drop_first(), x);
        assert(render_pids(ps.push(x)) =~= render_pids(ps) + seq![10u8] + u32_digits(x as nat));
    }
}

/// Writes the PID file's bytes for a list of PIDs.
pub fn render_pid_file(ps: &Vec<u32>) -> (r: Vec<u8>)
    ensures
        r@ == render_pids(ps@),
{
    let n = ps.len();
    let mut r: Vec<u8> = Vec::new();
    let mut i: usize = 0;
    while i < n
        invariant
            n == ps@.len(),
            i <= n,
            r@ == render_pids(ps@.take(i as int)),
        decreases n - i,
    {
        proof {
            assert(ps@.take(i + 1 as int) =~= ps@.take(i as int).push(ps@[i as int]));
        }
        if i > 0 {
            r.push(10u8);
            push_u32_digits(&mut r, ps[i]);
            proof {
                lemma_render_snoc(ps@.take(i as int), ps@[i as int]);
                assert(r@ =~= render_pids(ps@.take(i + 1 as int)));
            }
        } else {
            push_u32_digits(&mut r, ps[i]);
            proof {
                assert(ps@.take(1) =~= seq![ps@[0]]);
                assert(r@ =~= render_pids(ps@.take(1)));
            }
        }
        i = i + 1;
    }
    proof {
        assert(ps@.take(n as int) =~= ps@);
    }
    r
}

/// The digit bytes of a number denote that number, and are digits alone.
pub proof fn lemma_u32_digits(v: nat)
    ensures
        u32_digits(v).len() >= 1,
        all_digits(u32_digits(v)),
        digits_val(u32_digits(v)) == v,
    decreases v,
{
    if v < 10 {
        let d = u32_digits(v);
        assert(d.drop_last() =~= Seq::<u8>::empty());
        assert(digits_val(Seq::<u8>::empty()) == 0);
        assert(digits_val(u32_digits(v)) == v);
    } else {
        lemma_u32_digits(v / 10);
        let d = u32_digits(v);
        let p = u32_digits(v / 10);
        assert(d.drop_last() =~= p);
        assert(d.last() == (48 + v % 10) as u8);
        vstd::arithmetic::div_mod::lemma_fundamental_div_mod(v as int, 10);
        assert forall|i: int| 0 <= i < d.len() implies is_digit(#[trigger] d[i]) by {
            if i < p.len() {
                assert(d[i] == p[i]);
            }
        }
    }
}

/// Where a line ends does not depend on the bytes before the window.
proof fn lemma_line_end_shift(s: Seq<u8>, k: int, pos: int)
    requires
        0 <= k <= pos <= s.len(),
    ensures
        line_end(s, pos) == k + line_end(s.subrange(k, s.len() as int), pos - k),
    decreases s.len() - pos,
{
    let t = s.subrange(k, s.len() as int);
    if pos == s.len() {
    } else if s[pos] == 10 {
        assert(t[pos - k] == s[pos]);
    } else {
        assert(t[pos - k] == s[pos]);
        lemma_line_end_shift(s, k, pos + 1);
    }
}

/// What parses after a point does not depend on the bytes before it.
proof fn lemma_parse_shift(s: Seq<u8>, k: int, pos: int)
    requires
        0 <= k <= pos <= s.len(),
    ensures
        parse_pids_from(s, pos) == parse_pids_from(s.subrange(k, s.len() as int), pos - k),
    decreases s.len() - pos,
{
    let t = s.subrange(k, s.len() as int);
    if pos == s.len() {
    } else {
        lemma_line_end(s, pos);
        lemma_line_end_shift(s, k, pos);
        let e = line_end(s, pos);
        assert(s.subrange(pos, e) =~= t.subrange(pos - k, e - k));
        if e < s.len() {
            lemma_parse_shift(s, k, e + 1);
        }
    }
}

/// Round trip: a rendered PID file parses back to exactly the PIDs it was
/// written from, in order.
pub proof fn lemma_pids_round_trip(ps: Seq<u32>)
    ensures
        parse_pids(render_pids(ps)) == ps,
    decreases ps.len(),
{
    let s = render_pids(ps);
    if ps.len() == 0 {
        assert(parse_pids_from(s, 0) =~= ps);
    } else {
        let v0 = ps[0] as nat;
        let d0 = u32_digits(v0);
        lemma_u32_digits(v0);
        if ps.len() == 1 {
            assert forall|kk: int| 0 <= kk < s.len() implies s[kk] != 10 by {
                assert(is_digit(s[kk]));
            }
            lemma_line_end_eq(s, 0, s.len() as int);
            assert(s.subrange(0, s.len() as int) =~= d0);
            assert(parse_u32_bytes(d0) == Some(ps[0]));
            assert(seq![ps[0]] =~= ps);
        } else {
            let tail = render_pids(ps.drop_first());
            let dl = d0.len() as int;
            assert(s[dl] == 10);
            assert forall|kk: int| 0 <= kk < dl implies s[kk] != 10 by {
                assert(s[kk] == d0[kk]);
                assert(is_digit(d0[kk]));
            }
            lemma_line_end_eq(s, 0, dl);
            assert(s.subrange(0, dl) =~= d0);
            assert(parse_u32_bytes(d0) == Some(ps[0]));
            assert(dl < s.len());
            lemma_parse_shift(s, dl + 1, dl + 1);
            assert(s.subrange(dl + 1, s.len() as int) =~= tail);
            lemma_pids_round_trip(ps.drop_first());
            assert(seq![ps[0]] + ps.drop_first() =~= ps);
        }
    }
}

// ---------------------------------------------------------------------------
// The advisory liveness check
// ---------------------------------------------------------------------------

/// The recorded PIDs that are alive now: the survivors the check keeps.
pub open spec fn survivors(contents: Seq<u8>, live: Seq<u32>) -> Seq<u32> {
    parse_pids(contents).filter(|p: u32| live.contains(p))
}

/// Whether `x` occurs in `v`.
pub fn contains_u32(v: &Vec<u32>, x: u32) -> (r: bool)
    ensures
        r == v@.contains(x),
{
    let n = v.len();
    let mut i: usize = 0;
    while i < n
        invariant
            n == v@.len(),
            i <= n,
            forall|j: int| 0 <= j < i ==> v@[j] != x,
        decreases n - i,
    {
        if v[i] == x {
            return true;
        }
        i = i + 1;
    }
    false
}

/// The liveness check's pure step: given the PID file's bytes and the set of
/// processes alive now, says whether any recorded daemon survives, and hands
/// back the bytes the file is to be rewritten with — exactly the survivors,
/// dead entries and unparsable lines pruned away, empty when none survived.
pub fn check_started_with(contents: &Vec<u8>, live: &Vec<u32>) -> (r: (bool, Vec<u8>))
    ensures
        r.0 == (survivors(contents@, live@).len() > 0),
        r.1@ == render_pids(survivors(contents@, live@)),
{
    let pids = parse_pid_file(contents);
    let n = pids.len();
    let mut surv: Vec<u32> = Vec::new();
    let mut i: usize = 0;
    while i < n
        invariant
            n == pids@.len(),
            i <= n,
            pids@ == parse_pids(contents@),
            surv@ == pids@.take(i as int).filter(|p: u32| live@.contains(p)),
        decreases n - i,
    {
        proof {
            reveal(Seq::filter);
            assert(pids@.take(i + 1 as int).drop_last() =~= pids@.take(i as int));
            assert(pids@.take(i + 1 as int).last() == pids@[i as int]);
        }
        if contains_u32(live, pids[i]) {
            surv.push(pids[i]);
        }
        i = i + 1;
    }
    proof {
        assert(pids@.take(n as int) =~= pids@);
    }
    let started = surv.len() > 0;
    let out = render_pid_file(&surv);
    (started, out)
}

/// Relies on sysinfo::System::new_all and sysinfo::System::processes: the
/// keys of the returned table are the identifiers of the processes alive at
/// the moment of the scan. What is alive is machine state, so nothing more
/// can be promised of the result.
#[verifier::external_body]
fn live_process_ids() -> (r: Vec<u32>)
{
    let sys = sysinfo::System::new_all();
    sys.processes().keys().map(|p| p.as_u32()).collect()
}

/// The liveness check over the machine's process table: prunes the PID file's
/// bytes to the recorded PIDs alive now. What is alive is machine state, but
/// whatever came back, the result is the pruning of the recorded PIDs by some
/// live set; and a file recording no PID at all never counts as started and
/// prunes to the empty file.
pub fn check_started(contents: &Vec<u8>) -> (r: (bool, Vec<u8>))
    ensures
        exists|live: Seq<u32>|
            r.0 == ((#[trigger] survivors(contents@, live)).len() > 0) && r.1@ == render_pids(
                survivors(contents@, live),
            ),
        r.0 ==> parse_pids(contents@).len() > 0,
        parse_pids(contents@).len() == 0 ==> !r.0 && r.1@ == Seq::<u8>::empty(),
{
    let live = live_process_ids();
    let r = check_started_with(contents, &live);
    proof {
        let lv = live@;
        assert(r.0 == (survivors(contents@, lv).len() > 0) && r.1@ == render_pids(
            survivors(contents@, lv),
        ));
        reveal(Seq::filter);
        parse_pids(contents@).lemma_filter_len(|p: u32| lv.contains(p));
        if parse_pids(contents@).len() == 0 {
            assert(survivors(contents@, lv) =~= Seq::<u32>::empty());
        }
    }
    r
}

/// Liveness pruning law: a PID file recording one live PID and one PID no
/// running process holds, after one check, keeps exactly the live one.
pub proof fn lemma_liveness_pruning(live_pid: u32, dead_pid: u32, live: Seq<u32>)
    requires
        live.contains(live_pid),
        !live.contains(dead_pid),
    ensures
        survivors(render_pids(seq![live_pid, dead_pid]), live) == seq![live_pid],
{
    reveal(Seq::filter);
    let ps = seq![live_pid, dead_pid];
    lemma_pids_round_trip(ps);
    let pred = |p: u32| live.contains(p);
    assert(ps.drop_last() =~= seq![live_pid]);
    assert(seq![live_pid].drop_last() =~= Seq::<u32>::empty());
    assert(Seq::<u32>::empty().filter(pred) =~= Seq::<u32>::empty());
    assert(seq![live_pid].last() == live_pid);
    assert(pred(live_pid));
    assert(seq![live_pid].filter(pred) =~= seq![live_pid]);
    assert(ps.last() == dead_pid);
    assert(!pred(dead_pid));
    assert(ps.filter(pred) =~= seq![live_pid]);
}

// ---------------------------------------------------------------------------
// Rendezvous paths and the bootstrap decision
// ---------------------------------------------------------------------------

/// The rendezvous address both sides use: the environment variable's value
/// when one is set, else the service's socket path under the system
/// temporary directory. The caller reads the environment and the temporary
/// directory and hands both in.
pub fn companion_addr(env_value: Option<String>, temp_dir: &str) -> (r: String)
    ensures
        match env_value {
            Some(v) => r@ == v@,
            None => r@ == temp_dir@ + "/"@ + PROGRAM_NAME@ + ".sock"@,
        },
{
    match env_value {
        Some(v) => v,
        None => {
            let mut s = temp_dir.to_owned();
            s.append("/");
            s.append(PROGRAM_NAME);
            s.append(".sock");
            s
        },
    }
}

/// The PID file's path: the service's `.pid` file under the system temporary
/// directory, which the caller hands in.
pub fn pid_path(temp_dir: &str) -> (r: String)
    ensures
        r@ == temp_dir@ + "/"@ + PROGRAM_NAME@ + ".pid"@,
{
    let mut s = temp_dir.to_owned();
    s.append("/");
    s.append(PROGRAM_NAME);
    s.append(".pid");
    s
}

/// The lockfile's path components, given those of the build output directory:
/// everything up to the build profile directory under `target`, then the lock
/// file's name.
pub open spec fn spec_lockfile(parts: Seq<Seq<char>>) -> Seq<Seq<char>> {
    lock_prefix(parts, 0).push("companion.lock"@)
}

/// The path components kept from `i` on: the walk stops just before a
/// `debug` or `release` component that follows a `target` component.
pub open spec fn lock_prefix(parts: Seq<Seq<char>>, i: int) -> Seq<Seq<char>>
    decreases parts.len() - i,
{
    if i < 0 || i >= parts.len() {
        Seq::empty()
    } else if i >= 1 && parts[i - 1] == "target"@ && (parts[i] == "debug"@ || parts[i]
        == "release"@) {
        Seq::empty()
    } else {
        seq![parts[i]] + lock_prefix(parts, i + 1)
    }
}

/// Computes the lockfile's path components from the build output directory's
/// components. The caller splits the directory into components and joins the
/// result back into a path.
pub fn lockfile(parts: &Vec<String>) -> (r: Vec<String>)
    ensures
        r.deep_view() == spec_lockfile(parts.deep_view()),
{
    let target: String = "target".to_owned();
    let debug: String = "debug".to_owned();
    let release: String = "release".to_owned();
    let n = parts.len();
    let ghost dv = parts.deep_view();
    let mut out: Vec<String> = Vec::new();
    let mut i: usize = 0;
    while i < n
        invariant
            n == parts@.len(),
            dv == parts.deep_view(),
            i <= n,
            target@ == "target"@,
            debug@ == "debug"@,
            release@ == "release"@,
            out.deep_view() + lock_prefix(dv, i as int) == lock_prefix(dv, 0),
        ensures
            out.deep_view() == lock_prefix(dv, 0),
        decreases n - i,
    {
        if i >= 1 && parts[i - 1].eq(&target) && (parts[i].eq(&debug) || parts[i].eq(&release)) {
            proof {
                assert(out.deep_view() + Seq::<Seq<char>>::empty() =~= out.deep_view());
            }
            break ;
        }
        proof {
            assert((out.deep_view() + (seq![dv[i as int]] + lock_prefix(dv, i + 1 as int))) =~= ((
            out.deep_view().push(dv[i as int])) + lock_prefix(dv, i + 1 as int)));
        }
        let ghost prev = out.deep_view();
        out.push(parts[i].clone());
        proof {
            assert(out.deep_view() =~= prev.push(out@[out@.len() - 1]@));
        }
        i = i + 1;
        proof {
            if i == n {
                assert(out.deep_view() + Seq::<Seq<char>>::empty() =~= out.deep_view());
            }
        }
    }
    let ghost prev = out.deep_view();
    out.push("companion.lock".to_owned());
    proof {
        assert(out.deep_view() =~= prev.push(out@[out@.len() - 1]@));
    }
    out
}

/// What the supervisor does next.
#[derive(Debug, PartialEq, Eq, Structural)]
pub enum BootstrapAction {
    RunDaemon,
    SpawnChild,
    Nothing,
}

/// The bootstrap decision: with a daemon already alive nothing is done; with
/// none alive, the process either becomes the daemon — it was invoked with
/// the daemon flag — or spawns a detached child with that flag.
pub fn bootstrap_decision(started: bool, first_arg: Option<&String>) -> (a: BootstrapAction)
    ensures
        started ==> a == BootstrapAction::Nothing,
        !started ==> match first_arg {
            Some(arg) => (arg@ == "-d"@ ==> a == BootstrapAction::RunDaemon) && (arg@ != "-d"@
                ==> a == BootstrapAction::Nothing),
            None => a == BootstrapAction::SpawnChild,
        },
{
    if started {
        return BootstrapAction::Nothing;
    }
    match first_arg {
        Some(arg) => {
            let flag: String = "-d".to_owned();
            if arg.eq(&flag) {
                BootstrapAction::RunDaemon
            } else {
                BootstrapAction::Nothing
            }
        },
        None => BootstrapAction::SpawnChild,
    }
}

} // verus!



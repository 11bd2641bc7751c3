//! Per-interface MAC queue depths and link information: the snapshot that
//! the scheduler reads, and the parser of the driver's queue report.
use vstd::prelude::*;
use std::collections::HashMap;
use vstd::slice::slice_subrange;
use vstd::string::StringSliceAdditionalSpecFns;

verus! {

broadcast use vstd::std_specs::hash::group_hash_axioms;

/// Queue depth in packets, by access category.
pub type MACQueueInfo = HashMap<u8, usize>;

/// What the link-information command reports of one interface.
#[derive(Clone, Debug, Default)]
pub struct LinkInfo {
    pub bssid: Option<String>,
    pub ssid: Option<String>,
    pub freq_mhz: Option<u32>,
    pub signal_dbm: Option<i32>,
    /// Transmit bitrate, in kbit/s.
    pub tx_kbit_s: Option<u64>,
}

/// One immutable sample of all managed interfaces, in interface order.
#[derive(Clone, Debug)]
pub struct MACQueuesSnapshot {
    /// When the sample was taken, in nanoseconds.
    pub taken_at: u64,
    /// (interface address, queue depths by access category).
    pub queues: Vec<(String, MACQueueInfo)>,
    /// (interface address, link information).
    pub link: Vec<(String, LinkInfo)>,
}

pub open spec fn is_digit(b: u8) -> bool {
    48 <= b <= 57
}

/// Number of consecutive ASCII digits of `s` from `start`.
pub open spec fn digit_run(s: Seq<u8>, start: int) -> int
    decreases s.len() - start,
{
    if start < 0 || start >= s.len() || !is_digit(s[start]) {
        0
    } else {
        1 + digit_run(s, start + 1)
    }
}

/// Decimal value of the `k` bytes of `s` from `start`.
pub open spec fn digits_value(s: Seq<u8>, start: int, k: nat) -> int
    decreases k,
{
    if k == 0 {
        0
    } else {
        digits_value(s, start, (k - 1) as nat) * 10 + (s[start + k - 1] - 48)
    }
}

/// The number written in the digits of `s` from `start`: `None` where there
/// is no digit there or the number does not fit a `usize`.
pub open spec fn number_at(s: Seq<u8>, start: int) -> Option<usize> {
    let k = digit_run(s, start);
    if k <= 0 || digits_value(s, start, k as nat) > usize::MAX {
        None
    } else {
        Some(digits_value(s, start, k as nat) as usize)
    }
}

pub proof fn lemma_digit_run(s: Seq<u8>, start: int, i: int)
    requires
        0 <= start <= i <= s.len(),
        forall|j: int| start <= j < i ==> is_digit(#[trigger] s[j]),
    ensures
        digit_run(s, start) >= i - start,
        (i == s.len() || !is_digit(s[i])) ==> digit_run(s, start) == i - start,
    decreases i - start,
{
    if start < i {
        lemma_digit_run(s, start + 1, i);
    } else {
        lemma_digit_run_nonneg(s, start);
    }
}

proof fn lemma_digit_run_nonneg(s: Seq<u8>, start: int)
    ensures
        digit_run(s, start) >= 0,
    decreases s.len() - start,
{
    if !(start < 0 || start >= s.len() || !is_digit(s[start])) {
        lemma_digit_run_nonneg(s, start + 1);
    }
}

pub proof fn lemma_run_is_digits(s: Seq<u8>, start: int)
    requires
        0 <= start <= s.len(),
    ensures
        0 <= digit_run(s, start) <= s.len() - start,
        forall|j: int| start <= j < start + digit_run(s, start) ==> is_digit(#[trigger] s[j]),
    decreases s.len() - start,
{
    if !(start >= s.len() || !is_digit(s[start])) {
        lemma_run_is_digits(s, start + 1);
    }
}

proof fn lemma_digits_value_mono(s: Seq<u8>, start: int, k1: nat, k2: nat)
    requires
        k1 <= k2,
        0 <= start,
        start + k2 <= s.len(),
        forall|j: int| start <= j < start + k2 ==> is_digit(#[trigger] s[j]),
    ensures
        0 <= digits_value(s, start, k1) <= digits_value(s, start, k2),
    decreases k2,
{
    if k1 < k2 {
        lemma_digits_value_mono(s, start, k1, (k2 - 1) as nat);
        assert(is_digit(s[start + k2 - 1]));
    } else if k1 > 0 {
        lemma_digits_value_mono(s, start, (k1 - 1) as nat, (k1 - 1) as nat);
        assert(is_digit(s[start + k1 - 1]));
    }
}

fn digits_at(s: &[u8], start: usize) -> (r: Option<usize>)
    ensures
        r == number_at(s@, start as int),
{
    let n = s.len();
    if start >= n {
        return None;
    }
    let mut num: usize = 0;
    let mut i: usize = start;
    while i < n && s[i] >= 48 && s[i] <= 57
        invariant
            n == s@.len(),
            start <= i <= n,
            forall|j: int| start <= j < i ==> is_digit(#[trigger] s@[j]),
            num == digits_value(s@, start as int, (i - start) as nat),
        decreases n - i,
    {
        let d = (s[i] - 48) as usize;
        let ghost k = (i - start + 1) as nat;
        proof {
            lemma_digit_run(s@, start as int, i + 1);
            lemma_run_is_digits(s@, start as int);
            lemma_digits_value_mono(s@, start as int, k, digit_run(s@, start as int) as nat);
        }
        match num.checked_mul(10) {
            None => return None,
            Some(m) => match m.checked_add(d) {
                None => return None,
                Some(v) => {
                    num = v;
                },
            },
        }
        i = i + 1;
    }
    proof {
        lemma_digit_run(s@, start as int, i as int);
    }
    if i == start {
        None
    } else {
        Some(num)
    }
}

/// The number written in the digits of `s` from byte `start`; `None` where
/// no digit stands there or the number overflows.
pub fn parse_digits(s: &str, start: usize) -> (r: Option<usize>)
    ensures
        r == number_at(s.spec_bytes(), start as int),
{
    digits_at(s.as_bytes(), start)
}

/// `pat` occurs in `s` at `i`.
pub open spec fn matches_at(s: Seq<u8>, pat: Seq<u8>, i: int) -> bool {
    0 <= i && i + pat.len() <= s.len() && s.subrange(i, i + pat.len()) == pat
}

/// First occurrence of `pat` in `s` at or after `i`.
pub open spec fn find_from(s: Seq<u8>, pat: Seq<u8>, i: int) -> Option<int>
    decreases s.len() - i,
{
    if i < 0 || i + pat.len() > s.len() {
        None
    } else if matches_at(s, pat, i) {
        Some(i)
    } else if i >= s.len() {
        None
    } else {
        find_from(s, pat, i + 1)
    }
}

proof fn lemma_find_from_found(s: Seq<u8>, pat: Seq<u8>, i: int)
    ensures
        find_from(s, pat, i) matches Some(k) ==> i <= k && matches_at(s, pat, k) && k + pat.len()
            <= s.len(),
    decreases s.len() - i,
{
    if !(i < 0 || i + pat.len() > s.len()) && !matches_at(s, pat, i) && i < s.len() {
        lemma_find_from_found(s, pat, i + 1);
    }
}

pub open spec fn bcn_marker() -> Seq<u8> {
    seq![66u8, 67, 78]
}

pub open spec fn pkt_num_marker() -> Seq<u8> {
    seq![112u8, 107, 116, 95, 110, 117, 109, 58]
}

pub open spec fn ac_marker() -> Seq<u8> {
    seq![97u8, 99, 58]
}

/// What one line of the driver's queue report contributes: nothing for a
/// line with "BCN"; else, where "pkt_num:<digits>" is followed somewhere by
/// "ac:<digits>", the access category (0 where above 255) and the count.
pub open spec fn line_entry(line: Seq<u8>) -> Option<(u8, usize)> {
    if find_from(line, bcn_marker(), 0) is Some {
        None
    } else {
        match find_from(line, pkt_num_marker(), 0) {
            None => None,
            Some(p) => match find_from(line, ac_marker(), p + 8) {
                None => None,
                Some(a) => match (number_at(line, p + 8), number_at(line, a + 3)) {
                    (Some(n), Some(ac)) => Some(
                        (
                            if ac > 255 {
                                0u8
                            } else {
                                ac as u8
                            },
                            n,
                        ),
                    ),
                    _ => None,
                },
            },
        }
    }
}

/// The lines of `data`, split at each newline; a final newline ends the
/// last line rather than starting an empty one.
pub open spec fn lines_of(data: Seq<u8>) -> Seq<Seq<u8>>
    decreases data.len(),
{
    match find_from(data, seq![10u8], 0) {
        None => if data.len() == 0 {
            Seq::empty()
        } else {
            seq![data]
        },
        Some(i) => if 0 <= i < data.len() {
            seq![data.subrange(0, i)] + lines_of(data.subrange(i + 1, data.len() as int))
        } else {
            Seq::empty()
        },
    }
}

/// `m` with one line's contribution added, saturating at `usize::MAX`.
pub open spec fn add_entry(m: Map<u8, usize>, e: Option<(u8, usize)>) -> Map<u8, usize> {
    match e {
        None => m,
        Some((ac, n)) => {
            let prev = if m.contains_key(ac) {
                m[ac] as int
            } else {
                0
            };
            m.insert(
                ac,
                if prev + n > usize::MAX {
                    usize::MAX
                } else {
                    (prev + n) as usize
                },
            )
        },
    }
}

/// `m` with the contributions of `lines` added in order.
pub open spec fn tally(m: Map<u8, usize>, lines: Seq<Seq<u8>>) -> Map<u8, usize>
    decreases lines.len(),
{
    if lines.len() == 0 {
        m
    } else {
        tally(add_entry(m, line_entry(lines[0])), lines.drop_first())
    }
}

proof fn lemma_find_from_skip(s: Seq<u8>, pat: Seq<u8>, i: int, j: int)
    requires
        0 <= i <= j,
        forall|k: int| i <= k < j ==> !matches_at(s, pat, k),
    ensures
        find_from(s, pat, i) == find_from(s, pat, j),
    decreases j - i,
{
    if i < j {
        lemma_find_from_skip(s, pat, i + 1, j);
    }
}

fn matches_at_exec(s: &[u8], pat: &Vec<u8>, i: usize) -> (r: bool)
    ensures
        r == matches_at(s@, pat@, i as int),
{
    let n = pat.len();
    let sl = s.len();
    if i > sl || n > sl - i {
        return false;
    }
    let mut k: usize = 0;
    while k < n
        invariant
            n == pat@.len(),
            sl == s@.len(),
            i + n <= sl,
            k <= n,
            forall|t: int| 0 <= t < k ==> s@[i + t] == pat@[t],
        decreases n - k,
    {
        if s[i + k] != pat[k] {
            assert(s@.subrange(i as int, i + n)[k as int] != pat@[k as int]);
            return false;
        }
        k = k + 1;
    }
    assert(s@.subrange(i as int, i + n) =~= pat@);
    true
}

fn find_exec(s: &[u8], pat: &Vec<u8>, from: usize) -> (r: Option<usize>)
    ensures
        match find_from(s@, pat@, from as int) {
            None => r is None,
            Some(k) => r == Some(k as usize),
        },
{
    let n = s.len();
    if from > n {
        return None;
    }
    let mut i: usize = from;
    while i <= n
        invariant
            n == s@.len(),
            from <= i <= n,
            find_from(s@, pat@, from as int) == find_from(s@, pat@, i as int),
        decreases n - i,
    {
        if pat.len() > n - i {
            return None;
        }
        if matches_at_exec(s, pat, i) {
            return Some(i);
        }
        if i == n {
            return None;
        }
        i = i + 1;
    }
    None
}

/// The contribution of one line of the driver's queue report.
pub fn parse_queue_line(line: &[u8]) -> (r: Option<(u8, usize)>)
    ensures
        r == line_entry(line@),
{
    let bcn: Vec<u8> = vec![66u8, 67, 78];
    let pkt: Vec<u8> = vec![112u8, 107, 116, 95, 110, 117, 109, 58];
    let acm: Vec<u8> = vec![97u8, 99, 58];
    assert(bcn@ =~= bcn_marker());
    assert(pkt@ =~= pkt_num_marker());
    assert(acm@ =~= ac_marker());
    if find_exec(line, &bcn, 0).is_some() {
        return None;
    }
    proof {
        lemma_find_from_found(line@, pkt@, 0);
        assert(pkt@.len() == 8);
    }
    let p = match find_exec(line, &pkt, 0) {
        None => return None,
        Some(p) => p,
    };
    let ll = line.len();
    assert(p + 8 <= ll);
    proof {
        lemma_find_from_found(line@, acm@, p + 8);
        assert(acm@.len() == 3);
    }
    let a = match find_exec(line, &acm, p + 8) {
        None => return None,
        Some(a) => a,
    };
    assert(a + 3 <= ll);
    match (digits_at(line, p + 8), digits_at(line, a + 3)) {
        (Some(n), Some(ac)) => {
            let ac8: u8 = if ac > 255 {
                0
            } else {
                ac as u8
            };
            Some((ac8, n))
        },
        _ => None,
    }
}

/// Queue depths by access category from the driver's queue report: the
/// contributions of its lines, summed per category (saturating).
pub fn parse_queue_info(data: &str) -> (r: MACQueueInfo)
    ensures
        r@ == tally(Map::empty(), lines_of(data.spec_bytes())),
{
    let bytes = data.as_bytes();
    let n = bytes.len();
    let nl: Vec<u8> = vec![10u8];
    assert(nl@ =~= seq![10u8]);
    let mut info: MACQueueInfo = HashMap::new();
    let mut pos: usize = 0;
    assert(bytes@.subrange(0, n as int) =~= bytes@);
    while pos < n
        invariant
            n == bytes@.len(),
            nl@ == seq![10u8],
            pos <= n,
            tally(Map::empty(), lines_of(bytes@)) == tally(
                info@,
                lines_of(bytes@.subrange(pos as int, n as int)),
            ),
        decreases n - pos,
    {
        let rest = slice_subrange(bytes, pos, n);
        proof {
            lemma_find_from_found(rest@, nl@, 0);
        }
        let end: usize = match find_exec(rest, &nl, 0) {
            Some(j) => j,
            None => n - pos,
        };
        let line = slice_subrange(rest, 0, end);
        proof {
            let r = rest@;
            if end < r.len() {
                assert(r.subrange(end + 1, r.len() as int) =~= bytes@.subrange(
                    pos + end + 1,
                    n as int,
                ));
            }
            let ls = lines_of(r);
            assert(ls == seq![line@] + lines_of(bytes@.subrange(
                if end < r.len() { pos + end + 1 } else { n as int },
                n as int,
            ))) by {
                if end == r.len() {
                    assert(r.subrange(0, end as int) =~= r);
                    assert(bytes@.subrange(n as int, n as int) =~= Seq::<u8>::empty());
                    assert(lines_of(Seq::<u8>::empty()) =~= Seq::<Seq<u8>>::empty());
                    assert(seq![line@] + Seq::<Seq<u8>>::empty() =~= seq![line@]);
                }
            }
            assert((seq![line@] + lines_of(bytes@.subrange(
                if end < r.len() { pos + end + 1 } else { n as int },
                n as int,
            ))).drop_first() =~= lines_of(bytes@.subrange(
                if end < r.len() { pos + end + 1 } else { n as int },
                n as int,
            )));
        }
        let ghost before = info@;
        match parse_queue_line(line) {
            None => {},
            Some((ac, count)) => {
                let prev: usize = match info.get(&ac) {
                    Some(v) => *v,
                    None => 0,
                };
                info.insert(ac, prev.saturating_add(count));
            },
        }
        assert(info@ =~= add_entry(before, line_entry(line@)));
        pos = if end < n - pos {
            pos + end + 1
        } else {
            n
        };
    }
    assert(bytes@.subrange(n as int, n as int) =~= Seq::<u8>::empty());
    assert(lines_of(Seq::<u8>::empty()) =~= Seq::<Seq<u8>>::empty());
    info
}

} // verus!

//! Interface information from the text that system tools print: link
//! information (`iw dev <if> link`) and the device that holds an address
//! (`ip -o addr show`). Fields are picked with regular expressions.
use vstd::prelude::*;
use vstd::string::StringSliceAdditionalSpecFns;
use vstd::utf8::encode_utf8;
use crate::mac_queue::{
    digit_run, digits_value, find_from, is_digit, lemma_digit_run, lemma_run_is_digits, LinkInfo,
};

verus! {

/// The capture groups of the first match of the regular expression
/// `pattern` in `haystack`, group 0 being the whole match and `None` a group
/// that took no part; `None` where the pattern does not compile or nothing
/// matches.
pub uninterp spec fn regex_captures(pattern: Seq<char>, haystack: Seq<char>) -> Option<
    Seq<Option<Seq<char>>>,
>;

/// The lines of `s` as `str::lines` yields them.
pub uninterp spec fn str_lines(s: Seq<char>) -> Seq<Seq<char>>;

/// Relies on regex::Regex::new and regex::Regex::captures: compiles
/// `pattern` and returns the capture groups of its first match in
/// `haystack`, which depend on the two texts alone.
#[verifier::external_body]
fn captures(pattern: &str, haystack: &str) -> (r: Option<Vec<Option<String>>>)
    ensures
        r is None <==> regex_captures(pattern@, haystack@) is None,
        r matches Some(v) ==> regex_captures(pattern@, haystack@) matches Some(c) && v@.len()
            == c.len() && forall|i: int|
            0 <= i < c.len() ==> #[trigger] c[i] == match v@[i] {
                Some(s) => Some(s@),
                None => None,
            },
{
    let re = regex::Regex::new(pattern).ok()?;
    let caps = re.captures(haystack)?;
    Some(caps.iter().map(|m| m.map(|m| m.as_str().to_string())).collect())
}

/// Relies on str::lines: splits `s` at line ends, which depends on `s` alone.
#[verifier::external_body]
fn lines(s: &str) -> (r: Vec<String>)
    ensures
        r@.len() == str_lines(s@).len(),
        forall|i: int| 0 <= i < r@.len() ==> #[trigger] r@[i]@ == str_lines(s@)[i],
{
    s.lines().map(|l| l.to_string()).collect()
}

/// Group `i` of the first match of `pattern` in `haystack`, if it took part.
pub open spec fn group_of(pattern: Seq<char>, haystack: Seq<char>, i: int) -> Option<Seq<char>> {
    match regex_captures(pattern, haystack) {
        Some(c) => if 0 <= i < c.len() {
            c[i]
        } else {
            None
        },
        None => None,
    }
}

fn group(pattern: &str, haystack: &str, i: usize) -> (r: Option<String>)
    ensures
        match group_of(pattern@, haystack@, i as int) {
            Some(g) => r matches Some(s) && s@ == g,
            None => r is None,
        },
{
    match captures(pattern, haystack) {
        None => None,
        Some(mut v) => {
            if i < v.len() {
                let ghost c = v@;
                let g = v.swap_remove(i);
                assert(g == c[i as int]);
                g
            } else {
                None
            }
        },
    }
}

pub const BSSID_PATTERN: &'static str = r"(?m)^\s*Connected to\s+([0-9a-fA-F:]{17})\b";

/// The SSID without the blanks that end its line.
pub const SSID_PATTERN: &'static str = r"(?m)^\s*SSID:\s*(.+?)\s*$";

pub const FREQ_PATTERN: &'static str = r"(?m)^\s*freq:\s*(\d+)\s*$";

pub const SIGNAL_PATTERN: &'static str = r"(?m)^\s*signal:\s*(-?\d+)\s*dBm\b";

pub const TX_PATTERN: &'static str = r"(?m)^\s*tx bitrate:\s*([0-9]+(?:\.[0-9]+)?)\s*MBit/s\b";

/// Address lines: index, device, family, address, prefix length.
pub const ADDR_PATTERN: &'static str = r"^\d+:\s+(\S+)\s+(inet6?|inet)\s+([0-9A-Fa-f\.:]+)(?:/\d+)";

/// The value of `b` read as ASCII decimal digits, all of them.
pub open spec fn decimal_of(b: Seq<u8>) -> Option<int> {
    if b.len() > 0 && digit_run(b, 0) == b.len() {
        Some(digits_value(b, 0, b.len()))
    } else {
        None
    }
}

/// An unsigned decimal that fits a `u32`.
pub open spec fn u32_of(b: Seq<u8>) -> Option<u32> {
    match decimal_of(b) {
        Some(v) => if v <= u32::MAX {
            Some(v as u32)
        } else {
            None
        },
        None => None,
    }
}

/// A decimal with an optional leading minus that fits an `i32`.
pub open spec fn i32_of(b: Seq<u8>) -> Option<i32> {
    if b.len() > 0 && b[0] == 45 {
        match decimal_of(b.drop_first()) {
            Some(v) => if v <= 0x8000_0000 {
                Some((-v) as i32)
            } else {
                None
            },
            None => None,
        }
    } else {
        match decimal_of(b) {
            Some(v) => if v <= i32::MAX {
                Some(v as i32)
            } else {
                None
            },
            None => None,
        }
    }
}

fn decimal_at(b: &[u8], start: usize, end: usize) -> (r: Option<u64>)
    requires
        start <= end <= b@.len(),
    ensures
        match decimal_of(b@.subrange(start as int, end as int)) {
            Some(v) => if v <= u64::MAX {
                r == Some(v as u64)
            } else {
                r is None
            },
            None => r is None,
        },
{
    let ghost s = b@.subrange(start as int, end as int);
    if start == end {
        return None;
    }
    let mut v: u64 = 0;
    let mut i: usize = start;
    let mut overflow = false;
    while i < end
        invariant
            start < end <= b@.len(),
            s == b@.subrange(start as int, end as int),
            start <= i <= end,
            forall|j: int| 0 <= j < i - start ==> is_digit(#[trigger] s[j]),
            !overflow ==> v == digits_value(s, 0, (i - start) as nat),
            overflow ==> digits_value(s, 0, (i - start) as nat) > u64::MAX,
        decreases end - i,
    {
        if !(b[i] >= 48 && b[i] <= 57) {
            proof {
                lemma_digit_run(s, 0, (i - start) as int);
            }
            return None;
        }
        let d = (b[i] - 48) as u64;
        let ghost k = (i - start) as nat;
        assert(s[k as int] == b@[i as int]);
        proof {
            lemma_digits_value_nonneg(s, k);
        }
        if overflow {
            assert(digits_value(s, 0, k + 1) == digits_value(s, 0, k) * 10 + (s[k as int] - 48));
        } else if v > (u64::MAX - d) / 10 {
            overflow = true;
            assert(digits_value(s, 0, k + 1) > u64::MAX) by (nonlinear_arith)
                requires
                    digits_value(s, 0, k + 1) == v * 10 + d,
                    v > (u64::MAX - d) / 10,
                    0 <= d <= 9,
            ;
        } else {
            assert(v * 10 + d <= u64::MAX) by (nonlinear_arith)
                requires
                    v <= (u64::MAX - d) / 10,
                    0 <= d <= 9,
            ;
            v = v * 10 + d;
        }
        i = i + 1;
    }
    proof {
        lemma_digit_run(s, 0, s.len() as int);
    }
    if overflow {
        None
    } else {
        Some(v)
    }
}

proof fn lemma_digits_value_nonneg(s: Seq<u8>, k: nat)
    requires
        k <= s.len(),
        forall|j: int| 0 <= j < k ==> is_digit(#[trigger] s[j]),
    ensures
        digits_value(s, 0, k) >= 0,
    decreases k,
{
    if k > 0 {
        lemma_digits_value_nonneg(s, (k - 1) as nat);
    }
}

/// A transmit bitrate written in Mbit/s (digits, then optionally a point and
/// digits), in kbit/s: digits past the third after the point are dropped.
pub open spec fn kbit_of(b: Seq<u8>) -> Option<u64> {
    match find_from(b, seq![46u8], 0) {
        None => match decimal_of(b) {
            Some(v) => if v * 1000 <= u64::MAX {
                Some((v * 1000) as u64)
            } else {
                None
            },
            None => None,
        },
        Some(d) => {
            let frac = b.subrange(d + 1, b.len() as int);
            let k = if frac.len() < 3 {
                frac.len() as int
            } else {
                3
            };
            let scale = if k == 1 {
                100
            } else if k == 2 {
                10
            } else {
                1int
            };
            match (decimal_of(b.subrange(0, d)), decimal_of(frac)) {
                (Some(v), Some(_)) => {
                    let milli = digits_value(frac, 0, k as nat) * scale;
                    if v * 1000 + milli <= u64::MAX {
                        Some((v * 1000 + milli) as u64)
                    } else {
                        None
                    }
                },
                _ => None,
            }
        },
    }
}

/// Whether all bytes of `b` from `start` to `end` are ASCII digits.
fn all_digits(b: &[u8], start: usize, end: usize) -> (r: bool)
    requires
        start <= end <= b@.len(),
    ensures
        r == (digit_run(b@.subrange(start as int, end as int), 0) == end - start),
{
    let ghost s = b@.subrange(start as int, end as int);
    let mut i: usize = start;
    while i < end
        invariant
            start <= i <= end <= b@.len(),
            s == b@.subrange(start as int, end as int),
            forall|j: int| 0 <= j < i - start ==> is_digit(#[trigger] s[j]),
        decreases end - i,
    {
        if !(b[i] >= 48 && b[i] <= 57) {
            proof {
                lemma_digit_run(s, 0, (i - start) as int);
            }
            return false;
        }
        i = i + 1;
    }
    proof {
        lemma_digit_run(s, 0, s.len() as int);
    }
    true
}

fn u32_from(s: &String) -> (r: Option<u32>)
    ensures
        r == u32_of(encode_utf8(s@)),
{
    let b = s.as_str().as_bytes();
    assert(b@ == encode_utf8(s@));
    let n = b.len();
    assert(b@.subrange(0, n as int) =~= b@);
    proof {
        lemma_run_is_digits(b@, 0);
        if digit_run(b@, 0) == n {
            lemma_digits_value_nonneg(b@, n as nat);
        }
    }
    match decimal_at(b, 0, n) {
        Some(v) => if v <= u32::MAX as u64 {
            Some(v as u32)
        } else {
            None
        },
        None => None,
    }
}

fn i32_from(s: &String) -> (r: Option<i32>)
    ensures
        r == i32_of(encode_utf8(s@)),
{
    let b = s.as_str().as_bytes();
    assert(b@ == encode_utf8(s@));
    let n = b.len();
    assert(b@.subrange(0, n as int) =~= b@);
    assert(b@.subrange(1, n as int) =~= b@.drop_first()) by {
        if n == 0 {
        }
    }
    proof {
        lemma_run_is_digits(b@, 0);
        if digit_run(b@, 0) == n {
            lemma_digits_value_nonneg(b@, n as nat);
        }
        if n > 0 {
            lemma_run_is_digits(b@.drop_first(), 0);
            if digit_run(b@.drop_first(), 0) == n - 1 {
                lemma_digits_value_nonneg(b@.drop_first(), (n - 1) as nat);
            }
        }
    }
    if n > 0 && b[0] == 45 {
        match decimal_at(b, 1, n) {
            Some(v) => if v <= 0x8000_0000 {
                Some((0 - (v as i64)) as i32)
            } else {
                None
            },
            None => None,
        }
    } else {
        match decimal_at(b, 0, n) {
            Some(v) => if v <= i32::MAX as u64 {
                Some(v as i32)
            } else {
                None
            },
            None => None,
        }
    }
}

fn kbit_from(s: &String) -> (r: Option<u64>)
    ensures
        r == kbit_of(encode_utf8(s@)),
{
    let b = s.as_str().as_bytes();
    assert(b@ == encode_utf8(s@));
    let n = b.len();
    assert(b@.subrange(0, n as int) =~= b@);
    let mut d: usize = 0;
    while d < n && b[d] != 46
        invariant
            n == b@.len(),
            d <= n,
            forall|j: int| 0 <= j < d ==> b@[j] != 46u8,
        decreases n - d,
    {
        d = d + 1;
    }
    proof {
        lemma_find_dot(b@, d as int);
    }
    if d == n {
        proof {
            lemma_run_is_digits(b@, 0);
            if digit_run(b@, 0) == n {
                lemma_digits_value_nonneg(b@, n as nat);
            }
        }
        return match decimal_at(b, 0, n) {
            Some(v) => if v <= u64::MAX / 1000 {
                Some(v * 1000)
            } else {
                None
            },
            None => None,
        };
    }
    let ghost frac = b@.subrange(d + 1, n as int);
    let fl = n - d - 1;
    let k: usize = if fl < 3 {
        fl
    } else {
        3
    };
    let scale: u64 = if k == 1 {
        100
    } else if k == 2 {
        10
    } else {
        1
    };
    if !all_digits(b, d + 1, n) || fl == 0 {
        assert(decimal_of(frac) is None);
        return None;
    }
    let ghost ip = b@.subrange(0, d as int);
    proof {
        lemma_run_is_digits(ip, 0);
        if digit_run(ip, 0) == d {
            lemma_digits_value_nonneg(ip, d as nat);
        }
        lemma_run_is_digits(frac, 0);
        lemma_digits_value_nonneg(frac, k as nat);
    }
    let int_part = match decimal_at(b, 0, d) {
        Some(v) => v,
        None => return None,
    };
    proof {
        lemma_run_is_digits(frac, 0);
        lemma_digit_run(frac, 0, fl as int);
    }
    let head = decimal_at(b, d + 1, d + 1 + k);
    proof {
        assert(b@.subrange(d + 1, d + 1 + k) =~= frac.subrange(0, k as int));
        lemma_digits_value_prefix(frac, k as nat, k as nat);
        assert(frac.subrange(0, k as int).len() == k);
        lemma_digit_run(frac.subrange(0, k as int), 0, k as int);
        lemma_digits_value_small(frac.subrange(0, k as int), k as nat);
    }
    let milli: u64 = match head {
        Some(h) => h * scale,
        None => return None,
    };
    if int_part > (u64::MAX - milli) / 1000 {
        assert(int_part * 1000 + milli > u64::MAX) by (nonlinear_arith)
            requires
                int_part > (u64::MAX - milli) / 1000,
                milli <= u64::MAX,
        ;
        None
    } else {
        assert(int_part * 1000 + milli <= u64::MAX) by (nonlinear_arith)
            requires
                int_part <= (u64::MAX - milli) / 1000,
                milli <= u64::MAX,
        ;
        Some(int_part * 1000 + milli)
    }
}

proof fn lemma_find_dot(b: Seq<u8>, d: int)
    requires
        0 <= d <= b.len(),
        forall|j: int| 0 <= j < d ==> b[j] != 46u8,
        d < b.len() ==> b[d] == 46u8,
    ensures
        d == b.len() ==> find_from(b, seq![46u8], 0) is None,
        d < b.len() ==> find_from(b, seq![46u8], 0) == Some(d),
{
    lemma_find_dot_step(b, 0, d, d);
    if d < b.len() {
        assert(b.subrange(d, d + 1) =~= seq![46u8]);
    }
}

proof fn lemma_find_dot_step(b: Seq<u8>, i: int, j: int, d: int)
    requires
        0 <= i <= j <= d <= b.len(),
        forall|t: int| 0 <= t < d ==> b[t] != 46u8,
    ensures
        find_from(b, seq![46u8], i) == find_from(b, seq![46u8], j),
    decreases j - i,
{
    if i < j {
        assert(b.subrange(i, i + 1)[0] == b[i]);
        assert(b.subrange(i, i + 1) != seq![46u8]);
        lemma_find_dot_step(b, i + 1, j, d);
    }
}

proof fn lemma_digits_value_prefix(s: Seq<u8>, k: nat, m: nat)
    requires
        m <= k <= s.len(),
    ensures
        digits_value(s.subrange(0, k as int), 0, m) == digits_value(s, 0, m),
    decreases m,
{
    if m > 0 {
        lemma_digits_value_prefix(s, k, (m - 1) as nat);
    }
}

proof fn lemma_digits_value_small(s: Seq<u8>, k: nat)
    requires
        k <= 3,
        k <= s.len(),
        forall|j: int| 0 <= j < k ==> is_digit(#[trigger] s[j]),
    ensures
        0 <= digits_value(s, 0, k) < 1000,
    decreases k,
{
    if k > 0 {
        lemma_digits_value_small(s, (k - 1) as nat);
        assert(digits_value(s, 0, (k - 1) as nat) < 100) by {
            lemma_digits_value_bound(s, (k - 1) as nat);
        }
    }
}

proof fn lemma_digits_value_bound(s: Seq<u8>, k: nat)
    requires
        k <= 2,
        k <= s.len(),
        forall|j: int| 0 <= j < k ==> is_digit(#[trigger] s[j]),
    ensures
        0 <= digits_value(s, 0, k) < if k == 0 {
            1int
        } else if k == 1 {
            10int
        } else {
            100int
        },
    decreases k,
{
    if k > 0 {
        lemma_digits_value_bound(s, (k - 1) as nat);
    }
}

/// `o` holds the text `g`, or nothing where `g` is nothing.
pub open spec fn holds_text(o: Option<String>, g: Option<Seq<char>>) -> bool {
    match g {
        Some(t) => o matches Some(x) && x@ == t,
        None => o is None,
    }
}

/// `f` applied to the UTF-8 bytes of `g`, where there is a `g`.
pub open spec fn parsed<T>(g: Option<Seq<char>>, f: spec_fn(Seq<u8>) -> Option<T>) -> Option<T> {
    match g {
        Some(t) => f(encode_utf8(t)),
        None => None,
    }
}

/// Link information from what `iw dev <if> link` prints: the BSSID, the
/// SSID, the frequency in MHz, the signal in dBm and the transmit bitrate
/// in kbit/s, each where its line is present and well formed.
pub fn parse_link_info(s: &str) -> (r: LinkInfo)
    ensures
        holds_text(r.bssid, group_of(BSSID_PATTERN@, s@, 1)),
        holds_text(r.ssid, group_of(SSID_PATTERN@, s@, 1)),
        r.freq_mhz == parsed(group_of(FREQ_PATTERN@, s@, 1), |b: Seq<u8>| u32_of(b)),
        r.signal_dbm == parsed(group_of(SIGNAL_PATTERN@, s@, 1), |b: Seq<u8>| i32_of(b)),
        r.tx_kbit_s == parsed(group_of(TX_PATTERN@, s@, 1), |b: Seq<u8>| kbit_of(b)),
{
    let bssid = group(BSSID_PATTERN, s, 1);
    let ssid = group(SSID_PATTERN, s, 1);
    let freq_mhz = match group(FREQ_PATTERN, s, 1) {
        Some(g) => u32_from(&g),
        None => None,
    };
    let signal_dbm = match group(SIGNAL_PATTERN, s, 1) {
        Some(g) => i32_from(&g),
        None => None,
    };
    let tx_kbit_s = match group(TX_PATTERN, s, 1) {
        Some(g) => kbit_from(&g),
        None => None,
    };
    LinkInfo { bssid, ssid, freq_mhz, signal_dbm, tx_kbit_s }
}

pub open spec fn ascii_lower(b: u8) -> u8 {
    if 65 <= b <= 90 {
        (b + 32) as u8
    } else {
        b
    }
}

/// Byte strings equal but for ASCII case.
pub open spec fn eq_ignore_ascii_case(a: Seq<u8>, b: Seq<u8>) -> bool {
    a.len() == b.len() && forall|i: int| 0 <= i < a.len() ==> ascii_lower(#[trigger] a[i]) == ascii_lower(b[i])
}

/// The address family names the kind of address sought ("inet6" for one
/// with a colon, else "inet").
pub open spec fn family_matches(fam: Seq<u8>, want_v6: bool) -> bool {
    if want_v6 {
        fam == seq![105u8, 110, 101, 116, 54]
    } else {
        fam == seq![105u8, 110, 101, 116]
    }
}

/// The device that one address line names for address `ip`, if any.
pub open spec fn line_dev(line: Seq<char>, ip: Seq<u8>) -> Option<Seq<char>> {
    match (
        group_of(ADDR_PATTERN@, line, 1),
        group_of(ADDR_PATTERN@, line, 2),
        group_of(ADDR_PATTERN@, line, 3),
    ) {
        (Some(dev), Some(fam), Some(addr)) => if family_matches(
            encode_utf8(fam),
            ip.contains(58u8),
        ) && eq_ignore_ascii_case(encode_utf8(addr), ip) {
            Some(dev)
        } else {
            None
        },
        _ => None,
    }
}

/// The device of the first of `lines` that names address `ip`.
pub open spec fn dev_in(lines: Seq<Seq<char>>, ip: Seq<u8>) -> Option<Seq<char>>
    decreases lines.len(),
{
    if lines.len() == 0 {
        None
    } else {
        match line_dev(lines[0], ip) {
            Some(d) => Some(d),
            None => dev_in(lines.drop_first(), ip),
        }
    }
}

fn bytes_eq(a: &[u8], b: &Vec<u8>) -> (r: bool)
    ensures
        r == (a@ == b@),
{
    if a.len() != b.len() {
        return false;
    }
    let mut i: usize = 0;
    while i < a.len()
        invariant
            a@.len() == b@.len(),
            i <= a@.len(),
            forall|j: int| 0 <= j < i ==> a@[j] == b@[j],
        decreases a@.len() - i,
    {
        if a[i] != b[i] {
            return false;
        }
        i = i + 1;
    }
    assert(a@ =~= b@);
    true
}

fn lower(b: u8) -> (r: u8)
    ensures
        r == ascii_lower(b),
{
    if b >= 65 && b <= 90 {
        b + 32
    } else {
        b
    }
}

fn ascii_eq(a: &[u8], b: &[u8]) -> (r: bool)
    ensures
        r == eq_ignore_ascii_case(a@, b@),
{
    if a.len() != b.len() {
        return false;
    }
    let mut i: usize = 0;
    while i < a.len()
        invariant
            a@.len() == b@.len(),
            i <= a@.len(),
            forall|j: int| 0 <= j < i ==> ascii_lower(#[trigger] a@[j]) == ascii_lower(b@[j]),
        decreases a@.len() - i,
    {
        if lower(a[i]) != lower(b[i]) {
            return false;
        }
        i = i + 1;
    }
    true
}

fn has_colon(b: &[u8]) -> (r: bool)
    ensures
        r == b@.contains(58u8),
{
    let mut i: usize = 0;
    while i < b.len()
        invariant
            i <= b@.len(),
            forall|j: int| 0 <= j < i ==> b@[j] != 58u8,
        decreases b@.len() - i,
    {
        if b[i] == 58 {
            assert(b@[i as int] == 58u8);
            return true;
        }
        i = i + 1;
    }
    false
}

/// The device named for address `ip` on its line of `listing`, the output
/// of `ip -o addr show`: the first line whose family suits the address
/// (inet6 for one with a colon, else inet) and whose address equals it but
/// for ASCII case.
pub fn get_dev_from_ip(listing: &str, ip: &str) -> (r: Option<String>)
    ensures
        holds_text(r, dev_in(str_lines(listing@), ip.spec_bytes())),
{
    let ipb = ip.as_bytes();
    let want_v6 = has_colon(ipb);
    let inet6: Vec<u8> = vec![105u8, 110, 101, 116, 54];
    let inet: Vec<u8> = vec![105u8, 110, 101, 116];
    let ls = lines(listing);
    let ghost all = str_lines(listing@);
    let n = ls.len();
    assert(all.subrange(0, n as int) =~= all);
    let mut i: usize = 0;
    while i < n
        invariant
            n == ls@.len(),
            n == all.len(),
            all == str_lines(listing@),
            i <= n,
            forall|k: int| 0 <= k < n ==> #[trigger] ls@[k]@ == all[k],
            want_v6 == ipb@.contains(58u8),
            ipb@ == ip.spec_bytes(),
            inet6@ == seq![105u8, 110, 101, 116, 54],
            inet@ == seq![105u8, 110, 101, 116],
            dev_in(all, ipb@) == dev_in(all.subrange(i as int, n as int), ipb@),
        decreases n - i,
    {
        let line = ls[i].as_str();
        let ghost rest = all.subrange(i as int, n as int);
        proof {
            assert(rest[0] == all[i as int]);
            assert(rest.drop_first() =~= all.subrange(i + 1, n as int));
        }
        if let Some(v) = captures(ADDR_PATTERN, line) {
            if v.len() > 3 {
                if let (Some(dev), Some(fam), Some(addr)) = (&v[1], &v[2], &v[3]) {
                    let fb = fam.as_str().as_bytes();
                    let fam_match = if want_v6 {
                        bytes_eq(fb, &inet6)
                    } else {
                        bytes_eq(fb, &inet)
                    };
                    if fam_match && ascii_eq(addr.as_str().as_bytes(), ipb) {
                        let d = dev.clone();
                        assert(line_dev(rest[0], ipb@) == Some(dev@));
                        return Some(d);
                    }
                }
            }
        }
        i = i + 1;
    }
    assert(all.subrange(n as int, n as int).len() == 0);
    None
}

} // verus!
